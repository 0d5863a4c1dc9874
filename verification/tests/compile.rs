use mep_asm::compile;
use mep_asm::try_compile;

fn image(chunks: &[&str]) -> String {
    let mut s = String::new();
    s.push_str("import cpu.entry { init_state, run_iter };\n");
    s.push_str("import cpu.common { mem };\n");
    s.push_str("fn init () => { ..init_state, mem = {");
    s.push_str("0 = { 0 = { 0 = { 0 = { 0 = { 0 = {\n");
    for c in chunks {
        s.push_str(c);
    }
    s.push_str("}}}}}}}");
    s.push_str("};\n");
    s.push_str("fn loop (state) => run_iter(state);\n");
    s
}

fn nibbles(bytes: &[u8]) -> String {
    let mut s = String::new();
    for b in bytes {
        s.push_str(&format!("{}, {}, ", b & 15, b >> 4));
    }
    s
}

#[test]
fn add_three_registers() {
    let out = compile("add r3, r1, r2\n", "prog.asm").unwrap();
    let mut bytes = vec![0x81u8, 0x00, 0x46, 0x10];
    bytes.resize(16, 0);
    let chunk = format!("0 = [{}],\n", nibbles(&bytes));
    assert_eq!(out, image(&[&chunk]));
}

#[test]
fn constants_are_little_endian_and_aligned() {
    let out = compile("one: u8 0x01\ntwo: u16 0x0302\nneg: i32 -1\n", "c.asm").unwrap();
    let mut bytes = vec![0x01u8, 0x00, 0x02, 0x03, 0xff, 0xff, 0xff, 0xff];
    bytes.resize(16, 0);
    let chunk = format!("0 = [{}],\n", nibbles(&bytes));
    assert_eq!(out, image(&[&chunk]));
}

#[test]
fn undefined_instruction_reports_position() {
    let err = compile("\n  foo r1\n", "p.asm").unwrap_err();
    assert_eq!(&*err.msg, "undefined instruction \"foo\"\n  --> p.asm:2:3-2:5");
}

#[test]
fn empty_program_halts() {
    assert!(try_compile("", "e.asm").is_none());
    assert!(try_compile("\n\n// nothing\n", "e.asm").is_none());
}

#[test]
fn leading_separator_is_an_error() {
    let err = compile("u8 0x_1\n", "n.asm").unwrap_err();
    assert_eq!(&*err.msg, "unexpected token (_)\n  --> n.asm:1:6");
}

fn image_of(bytes: &[u8]) -> String {
    let mut chunks = Vec::new();
    for (i, c) in bytes.chunks(16).enumerate() {
        chunks.push(format!("{} = [{}],\n", i, nibbles(c)));
    }
    let refs: Vec<&str> = chunks.iter().map(|s| s.as_str()).collect();
    image(&refs)
}

#[test]
fn reference_example_program() {
    let src = "start: \n\tld.8 r1, [one]\n\tmov r2, 2\n\tadd r3, r1, r2\n\none: u8 0x01\n";
    let out = compile(src, "ex.asm").unwrap();
    let bytes = [
        0xf3, 0x0c, 0x00, 0x08, 0xa2, 0x10, 0x02, 0x00, 0x81, 0x00, 0x46, 0x10, 0x01, 0x00, 0x00, 0x00,
    ];
    assert_eq!(out, image_of(&bytes));
}

#[test]
fn label_before_instruction_gives_negative_scaled_offset() {
    let src = "data: u32 0x12345678\nloop_start: \n\tld.32 r1, [data]\n";
    let out = compile(src, "l.asm").unwrap();
    let mut bytes = vec![0x78u8, 0x56, 0x34, 0x12, 0x73, 0xff, 0xff, 0x0f];
    bytes.resize(16, 0);
    assert_eq!(out, image_of(&bytes));
}

#[test]
fn byte_arrays_and_strings() {
    let src = "data: bytes \n\t0x01, 0x02,\n\t0x03\nhello: str \"hi\\n\"\n";
    let out = compile(src, "b.asm").unwrap();
    let mut bytes = vec![0x01u8, 0x02, 0x03, b'h', b'i', b'\n'];
    bytes.resize(16, 0);
    assert_eq!(out, image_of(&bytes));
}

#[test]
fn string_without_escapes_keeps_its_text() {
    let out = compile("hello: str \"hello world\"\n", "s.asm").unwrap();
    let mut bytes = b"hello world".to_vec();
    bytes.resize(16, 0);
    assert_eq!(out, image_of(&bytes));
}

#[test]
fn signed_constants_in_twos_complement() {
    let out = compile("a: i8 -1\nb: i16 -2\nc: i64 -0x8000000000000000\n", "i.asm").unwrap();
    let mut bytes = vec![0xffu8, 0x00, 0xfe, 0xff, 0, 0, 0, 0];
    bytes.extend_from_slice(&[0, 0, 0, 0, 0, 0, 0, 0x80]);
    assert_eq!(out, image_of(&bytes));
}

#[test]
fn instructions_are_aligned_after_constants() {
    let out = compile("b: u8 1\nadd r3, r1, r2\n", "a.asm").unwrap();
    let mut bytes = vec![0x01u8, 0, 0, 0, 0x81, 0x00, 0x46, 0x10];
    bytes.resize(16, 0);
    assert_eq!(out, image_of(&bytes));
}

#[test]
fn two_chunks() {
    let out = compile("x: bytes 1, 2, 3, 4, 5, 6, 7, 8, 9, 10, 11, 12, 13, 14, 15, 16, 17\n", "t.asm").unwrap();
    let mut bytes: Vec<u8> = (1..=17).collect();
    bytes.resize(32, 0);
    assert_eq!(out, image_of(&bytes));
}

#[test]
fn number_out_of_range_for_constant() {
    let err = compile("u8 256\n", "r.asm").unwrap_err();
    assert_eq!(&*err.msg, "number (256) out of range for u8 constant\n  --> r.asm:1:4-1:6");
}

#[test]
fn undefined_label() {
    let err = compile("ld.8 r1, [nowhere]\n", "u.asm").unwrap_err();
    assert_eq!(&*err.msg, "undefined label \"nowhere\"\n  --> u.asm:1:11-1:17");
}

#[test]
fn invalid_operands_for_instruction() {
    let err = compile("add r1, r2\n", "o.asm").unwrap_err();
    assert_eq!(&*err.msg, "invalid operands for \"add\"\n  --> o.asm:1:1-1:10");
}

#[test]
fn instruction_without_operands_at_end_of_input() {
    let err = compile("\nnop", "n.asm").unwrap_err();
    assert_eq!(&*err.msg, "undefined instruction \"nop\"\n  --> n.asm:2:1-2:3");
}

#[test]
fn missing_line_feed_between_lines() {
    let err = compile("add r1, r2, r3 ]", "m.asm").unwrap_err();
    assert_eq!(&*err.msg, "unexpected token (]), expected (\\n)\n  --> m.asm:1:16");
}

#[test]
fn register_followed_by_identifier_is_a_shift() {
    let err = compile("add r1, r2, r3 add", "m.asm").unwrap_err();
    assert_eq!(&*err.msg, "unexpected end of input, expected number\n  --> m.asm");
}

#[test]
fn last_declaration_of_a_label_wins() {
    let out = compile("a: u8 1\na: u8 2\nld.8 r1, [a]\n", "w.asm").unwrap();
    let mut bytes = vec![0x01u8, 0x02, 0x00, 0x00, 0xf3, 0xfd, 0xff, 0x0f];
    bytes.resize(16, 0);
    assert_eq!(out, image_of(&bytes));
}
