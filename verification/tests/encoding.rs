use mep_asm::encoder::{encode, encode_const, reg_code, InstBuilder, LabelIndexes};
use mep_asm::expressifier::expressify;
use mep_asm::inst_encoder::{encode_inst, Arg, encode_mnemonic, lookup_mnemonic};
use mep_asm::parser::{parse, AsmLineKind, Const, ConstKind, Reg, Shift};
use mep_asm::tokenizer::{Source, Span};
use mep_asm::utils::{bit_insert, Fail};

#[test]
fn bit_insert_replaces_a_field() {
    assert_eq!(bit_insert(0, 0b101, 4, 3), 0b101_0000);
    assert_eq!(bit_insert(0xffff_ffff, 0, 8, 8), 0xffff_00ff);
    assert_eq!(bit_insert(0, 0xff, 0, 4), 0xf);
    assert_eq!(bit_insert(0x1, 0x3, 30, 4), 0xc000_0001);
}

#[test]
fn builder_places_fields_from_bit_zero() {
    let source = Source::new("", "b.asm");
    let w = InstBuilder::new(&source)
        .b4(1)
        .b4(8)
        .shift(Shift::SHR(5))
        .b1(0)
        .gpr(Reg::R3)
        .gpr(Reg::R1)
        .gpr(Reg::R2)
        .finish();
    assert_eq!(w, 1 | 8 << 4 | 1 << 8 | 5 << 10 | 3 << 17 | 1 << 22 | 2 << 27);
}

#[test]
fn builder_immediates() {
    let source = Source::new("0x1000", "b.asm");
    let b = InstBuilder::new(&source).s_imd(-1, 12, Span(0, 6)).ok().unwrap();
    assert_eq!(b.inst, 0xfff);
    let b = InstBuilder::new(&source).s_imd_no_sbit(-3, Span(0, 6)).ok().unwrap();
    assert_eq!(b.inst, 0xfd);
    let b = InstBuilder::new(&source).scaled_s_imd(-8, 10, 2, Span(0, 6)).ok().unwrap();
    assert_eq!(b.inst, 0x3fe);
    match InstBuilder::new(&source).u_imd(0x1000, 12, Span(0, 6)) {
        Err(Fail::Error(e)) => assert_eq!(&*e.msg, "number (0x1000) out of range for u12_imd\n  --> b.asm:1:1-1:6"),
        _ => panic!(),
    }
    match InstBuilder::new(&source).s_imd(0x1000, 12, Span(0, 6)) {
        Err(Fail::Error(e)) => assert_eq!(&*e.msg, "number (0x1000) out of range for s12_imd\n  --> b.asm:1:1-1:6"),
        _ => panic!(),
    }
    match InstBuilder::new(&source).scaled_s_imd(6, 10, 2, Span(0, 6)) {
        Err(Fail::Error(e)) => assert_eq!(&*e.msg, "offset (0x1000) is not a multiple of 4\n  --> b.asm:1:1-1:6"),
        _ => panic!(),
    }
    match InstBuilder::new(&source).ind_sh(1, 2, Span(0, 6)) {
        Err(Fail::Error(e)) => assert_eq!(&*e.msg, "index shift (0x1000) must be 0 or 2\n  --> b.asm:1:1-1:6"),
        _ => panic!(),
    }
    let b = InstBuilder::new(&source).ind_sh(2, 2, Span(0, 6)).ok().unwrap();
    assert_eq!(b.inst, 1);
}

#[test]
fn condition_and_pc_registers() {
    let source = Source::new("r0", "b.asm");
    let b = InstBuilder::new(&source).cond(Reg::C0, Span(0, 2)).ok().unwrap();
    assert_eq!(b.inst, 0);
    match InstBuilder::new(&source).cond(Reg::R0, Span(0, 2)) {
        Err(Fail::Error(e)) => assert_eq!(&*e.msg, "r0 can not be used as condition register\n  --> b.asm:1:1-1:2"),
        _ => panic!(),
    }
    match InstBuilder::new(&source).gpr_pc(Reg::R0, Span(0, 2)) {
        Err(Fail::Error(e)) => assert_eq!(&*e.msg, "r0 can not be used here\n  --> b.asm:1:1-1:2"),
        _ => panic!(),
    }
    let b = InstBuilder::new(&source).gpr_pc(Reg::R7, Span(0, 2)).ok().unwrap();
    assert_eq!(b.inst, 7);
}

#[test]
fn logic_immediate_fields() {
    let source = Source::new("", "b.asm");
    let b = InstBuilder::new(&source).limd_l0(16).logic_imd(16, 8, 4);
    assert_eq!(b.inst, 1 | (0b100111 << 1) | (4 << 7));
    let b = InstBuilder::new(&source).limd_l0(64).logic_imd(64, 1, 0);
    assert_eq!(b.inst, 0);
}

#[test]
fn register_codes() {
    assert_eq!(reg_code(Reg::R0), 0);
    assert_eq!(reg_code(Reg::R19), 19);
    assert_eq!(reg_code(Reg::PC), 0);
    assert_eq!(reg_code(Reg::C0), 0);
}

#[test]
fn later_labels_replace_earlier_ones() {
    let mut l = LabelIndexes::new();
    l.insert("a".to_string(), 4);
    l.insert("b".to_string(), 8);
    l.insert("a".to_string(), 12);
    assert_eq!(l.get("a"), Some(12));
    assert_eq!(l.get("b"), Some(8));
    assert_eq!(l.get("c"), None);
}

#[test]
fn constants_encode_little_endian() {
    let mut bin = Vec::new();
    encode_const(&mut bin, &Const { kind: ConstKind::U32(0x12345678), span: Span(0, 0) });
    encode_const(&mut bin, &Const { kind: ConstKind::I16(-2), span: Span(0, 0) });
    encode_const(&mut bin, &Const { kind: ConstKind::Str("é".to_string()), span: Span(0, 0) });
    assert_eq!(bin, vec![0x78, 0x56, 0x34, 0x12, 0xfe, 0xff, 0xc3, 0xa9]);
}

#[test]
fn encode_sets_padding_and_pads_binary() {
    let mut source = Source::new("a: u8 1\nb: u16 2\nc: u8 3\nd: u64 4\n", "e.asm");
    let mut lines = parse(&mut source).ok().unwrap();
    let bin = encode(&mut lines, &source).ok().unwrap();
    let pads: Vec<u64> = lines.iter().map(|l| l.pad).collect();
    assert_eq!(pads, vec![0, 1, 0, 3]);
    assert_eq!(bin, vec![1, 0, 2, 0, 3, 0, 0, 0, 4, 0, 0, 0, 0, 0, 0, 0]);
}

#[test]
fn encode_instruction_with_label() {
    let mut source = Source::new("x: add r1, r1, r1\n", "e.asm");
    let lines = parse(&mut source).ok().unwrap();
    let mut labels = LabelIndexes::new();
    labels.insert("x".to_string(), 0);
    match &lines[0].kind {
        AsmLineKind::Inst(inst) => {
            let w = encode_inst(inst, 0, &labels, &source).ok().unwrap();
            assert_eq!(w, 1 | 8 << 4 | 1 << 17 | 1 << 22 | 1 << 27);
        },
        _ => panic!(),
    }
}

#[test]
fn mnemonic_table() {
    let source = Source::new("", "e.asm");
    let m = lookup_mnemonic("add").unwrap();
    let ops = vec![(Arg::GPR(Reg::R3), Span(0, 0)), (Arg::GPR(Reg::R1), Span(0, 0)), (Arg::GPR(Reg::R2), Span(0, 0))];
    match encode_mnemonic(m, &ops, &source) {
        Some(Ok(w)) => assert_eq!(w, 0x10460081),
        _ => panic!(),
    }
    assert!(lookup_mnemonic("nope").is_none());
    assert!(encode_mnemonic(m, &vec![], &source).is_none());
}

#[test]
fn expressify_one_chunk() {
    let out = expressify(&[0x12, 0xf0]);
    assert_eq!(
        out,
        "import cpu.entry { init_state, run_iter };\nimport cpu.common { mem };\nfn init () => { ..init_state, mem = {0 = { 0 = { 0 = { 0 = { 0 = { 0 = {\n0 = [2, 1, 0, 15, ],\n}}}}}}}};\nfn loop (state) => run_iter(state);\n"
    );
}

#[test]
fn expressify_opens_a_new_map_every_16_chunks() {
    let bin = vec![0u8; 17 * 16];
    let out = expressify(&bin);
    let z = "0, 0, ".repeat(16);
    let mut expected = String::from("import cpu.entry { init_state, run_iter };\nimport cpu.common { mem };\nfn init () => { ..init_state, mem = {0 = { 0 = { 0 = { 0 = { 0 = { 0 = {\n");
    for i in 0..16 {
        expected.push_str(&format!("{} = [{}],\n", i, z));
    }
    expected.push_str("}, 1 = {\n");
    expected.push_str(&format!("0 = [{}],\n", z));
    expected.push_str("}}}}}}}};\nfn loop (state) => run_iter(state);\n");
    assert_eq!(out, expected);
}

fn word(name: &str, ops: &[Arg]) -> Option<Result<u32, Fail>> {
    let source = Source::new("", "e.asm");
    let m = lookup_mnemonic(name).unwrap();
    let ops: Vec<(Arg, Span)> = ops.iter().map(|a| (*a, Span(0, 0))).collect();
    encode_mnemonic(m, &ops, &source)
}

fn ok_word(name: &str, ops: &[Arg]) -> u32 {
    match word(name, ops) {
        Some(Ok(w)) => w,
        _ => panic!(),
    }
}

#[test]
fn bitfield_immediate_width_zero_is_one_bit() {
    let ops = [Arg::GPR(Reg::R1), Arg::GPR(Reg::R2), Arg::Imd(0), Arg::Imd(0)];
    assert_eq!(ok_word("bfext", &ops), 0x0001_04C2);
    assert_eq!(ok_word("bfins", &ops), 0x0001_05C2);
}

#[test]
fn write_back_sets_the_low_addressing_bit() {
    let mut source = Source::new("ld r4, [r1 += 16]\nld r4, [r1 + 16]\n", "e.asm");
    let lines = parse(&mut source).ok().unwrap();
    let labels = LabelIndexes::new();
    let mut words = Vec::new();
    for l in &lines {
        match &l.kind {
            AsmLineKind::Inst(inst) => words.push(encode_inst(inst, 0, &labels, &source).ok().unwrap()),
            _ => panic!(),
        }
    }
    assert_eq!(words, vec![0x0020_9013, 0x0020_9003]);
}

#[test]
fn branches() {
    assert_eq!(ok_word("br", &[Arg::Imd(4)]), 4 | 1 << 8);
    assert_eq!(ok_word("br", &[Arg::Imd(-8)]), 4 | (0xff_fffe << 8));
    assert_eq!(ok_word("br", &[Arg::GPR(Reg::R1), Arg::Imd(-8)]), 4 | 1 << 4 | 1 << 8 | (0x7_fffe << 13));
    assert_eq!(ok_word("br.true", &[Arg::GPR(Reg::R3), Arg::Imd(8)]), 4 | 3 << 4 | 3 << 8 | 2 << 13);
    assert_eq!(ok_word("br.false", &[Arg::C0(Reg::C0), Arg::Imd(8)]), 4 | 2 << 4 | 2 << 13);
    assert!(matches!(word("br", &[Arg::Imd(6)]), Some(Err(Fail::Error(_)))));
    assert!(word("br.true", &[Arg::Imd(8)]).is_none());
}

#[test]
fn branch_to_a_label() {
    let mut source = Source::new("top: add r1, r1, r1\nbr top\n", "e.asm");
    let lines = parse(&mut source).ok().unwrap();
    let mut labels = LabelIndexes::new();
    labels.insert("top".to_string(), 0);
    match &lines[1].kind {
        AsmLineKind::Inst(inst) => {
            let w = encode_inst(inst, 4, &labels, &source).ok().unwrap();
            assert_eq!(w, 4 | (0xff_ffff << 8));
        },
        _ => panic!(),
    }
}

#[test]
fn aliases_encode_as_their_general_forms() {
    let (d, a, b) = (Arg::GPR(Reg::R3), Arg::GPR(Reg::R5), Arg::GPR(Reg::R7));
    let r0 = Arg::GPR(Reg::R0);
    assert_eq!(ok_word("mult", &[d, a, b]), ok_word("mult.full", &[d, r0, a, b]));
    assert_eq!(ok_word("div", &[d, a, b]), ok_word("div.full", &[d, r0, a, b]));
    assert_eq!(ok_word("rem", &[d, a, b]), ok_word("div.full", &[r0, d, a, b]));
    assert_eq!(ok_word("udiv", &[d, a, b]), ok_word("udiv.full", &[d, r0, a, b]));
    assert_eq!(ok_word("urem", &[d, a, b]), ok_word("udiv.full", &[r0, d, a, b]));
    assert_eq!(ok_word("neg", &[d, a]), ok_word("sub", &[d, r0, a]));
    let sa = Arg::ShReg(Reg::R5, Shift::SAR(3));
    assert_eq!(ok_word("neg", &[d, sa]), ok_word("sub", &[d, r0, sa]));
    assert_eq!(ok_word("not", &[d, sa]), ok_word("xnor", &[d, r0, sa]));
    assert_eq!(ok_word("mov", &[d, a]), ok_word("or", &[d, a, r0]));
    assert_eq!(ok_word("shl", &[d, a, b]), ok_word("fush", &[d, a, r0, b]));
    assert_eq!(ok_word("rol", &[d, a, b]), ok_word("fush", &[d, a, a, b]));
    assert_eq!(ok_word("shl", &[d, a, Arg::Imd(9)]), ok_word("or", &[d, r0, Arg::ShReg(Reg::R5, Shift::SHL(9))]));
}

#[test]
fn constant_bytes_match_the_layout() {
    let mut source = Source::new("a: u16 7\nb: str \"hé\"\nc: bytes 1, 2, 3\n", "e.asm");
    let lines = parse(&mut source).ok().unwrap();
    let mut lens = Vec::new();
    for l in &lines {
        match &l.kind {
            AsmLineKind::Const(c) => {
                let mut bin = Vec::new();
                encode_const(&mut bin, c);
                lens.push(bin.len());
            },
            _ => panic!(),
        }
    }
    assert_eq!(lens, vec![2, 3, 3]);
}

fn inst_words(src: &str) -> Vec<Result<u32, String>> {
    let mut source = Source::new(src, "j.asm");
    let lines = parse(&mut source).ok().unwrap();
    let labels = LabelIndexes::new();
    let mut out = Vec::new();
    for l in &lines {
        match &l.kind {
            AsmLineKind::Inst(inst) => out.push(match encode_inst(inst, 0, &labels, &source) {
                Ok(w) => Ok(w),
                Err(Fail::Error(e)) => Err(e.msg.to_string()),
                Err(Fail::Halt) => Err("halt".to_string()),
            }),
            _ => panic!(),
        }
    }
    out
}

fn rc(r: Reg) -> u32 {
    reg_code(r) as u32
}

#[test]
fn jumps_and_halt() {
    let ws = inst_words("jmp [r1 + r2 shl 3]\njmp r5, [r1 + 8]\njmp [r1]\njmp r5, [r1 - 4]\nhalt\n");
    assert_eq!(ws[0], Ok(4 | 4 << 4 | rc(Reg::R1) << 17 | rc(Reg::R2) << 22 | 3 << 27));
    assert_eq!(ws[1], Ok(4 | 4 << 4 | 1 << 8 | rc(Reg::R5) << 12 | rc(Reg::R1) << 17 | 2 << 22));
    assert_eq!(ws[2], Ok(4 | 4 << 4 | rc(Reg::R1) << 17));
    assert_eq!(ws[3], Ok(4 | 4 << 4 | 1 << 8 | rc(Reg::R5) << 12 | rc(Reg::R1) << 17 | 0x3ff << 22));
    assert_eq!(ws[4], Ok(0x244));
}

#[test]
fn jump_errors() {
    let ws = inst_words("jmp [r1 += 8]\njmp [r1 + r2 shl 9]\njmp [r1 + 6]\nhalt r1\n");
    assert_eq!(ws[0], Err("invalid operands for \"jmp\"\n  --> j.asm:1:1-1:13".to_string()));
    assert_eq!(ws[1], Err("number (9) out of range for u3_imd\n  --> j.asm:2:18".to_string()));
    assert_eq!(ws[2], Err("offset (6) is not a multiple of 4\n  --> j.asm:3:11".to_string()));
    assert_eq!(ws[3], Err("invalid operands for \"halt\"\n  --> j.asm:4:1-4:7".to_string()));
}

#[test]
fn alias_instructions_encode_as_general_forms() {
    let ws = inst_words("mult r3, r5, r7\nmult.full r3, r0, r5, r7\nrem r3, r5, r7\ndiv.full r0, r3, r5, r7\nmov r3, r5\nor r3, r5, r0\n");
    assert_eq!(ws[0], ws[1]);
    assert_eq!(ws[2], ws[3]);
    assert_eq!(ws[4], ws[5]);
    assert!(ws[0].is_ok() && ws[2].is_ok() && ws[4].is_ok());
}

#[test]
fn builder_field_widths() {
    let source = Source::new("", "b.asm");
    let b = InstBuilder::new(&source).b(7, 0).b(0x7fff_ffff, 31);
    assert_eq!(b.index, 31);
    let b = b.b1(1);
    assert_eq!(b.finish(), 0xffff_ffff);
    let b = InstBuilder::new(&source).u_imd(0x7fff_ffff, 31, Span(0, 0)).ok().unwrap();
    assert_eq!(b.inst, 0x7fff_ffff);
    let b = InstBuilder::new(&source).s_imd(-1, 1, Span(0, 0)).ok().unwrap();
    assert_eq!(b.inst, 1);
    let b = InstBuilder::new(&source).u_imd(0, 0, Span(0, 0)).ok().unwrap();
    assert_eq!(b.index, 0);
}
