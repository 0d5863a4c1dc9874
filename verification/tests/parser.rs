use mep_asm::parser::{parse, AsmLine, AsmLineKind, ConstKind, Cursor, OperandKind, Reg, SImd, Shift};
use mep_asm::tokenizer::{tokenize, Source, Span, TokenKind};
use mep_asm::utils::Fail;

fn lines(src: &str) -> Vec<AsmLine> {
    let mut source = Source::new(src, "p.asm");
    parse(&mut source).ok().unwrap()
}

fn error(src: &str) -> String {
    let mut source = Source::new(src, "p.asm");
    match parse(&mut source) {
        Err(Fail::Error(e)) => e.msg.to_string(),
        Err(Fail::Halt) => "halt".to_string(),
        Ok(_) => "ok".to_string(),
    }
}

fn operands(src: &str) -> Vec<OperandKind> {
    let ls = lines(src);
    match &ls[0].kind {
        AsmLineKind::Inst(i) => i.operands.iter().map(|o| o.kind.clone()).collect(),
        _ => panic!(),
    }
}

#[test]
fn labels_constants_and_instructions() {
    let ls = lines("\n\nstart:\n\n  add r3, r1, r2 shl 4\none: u8 0x01\n");
    assert_eq!(ls.len(), 2);
    assert_eq!(ls[0].label.as_ref().unwrap().name, "start");
    match &ls[0].kind {
        AsmLineKind::Inst(i) => {
            assert_eq!(i.mnemonic.name, "add");
            assert_eq!(i.operands.len(), 3);
            assert_eq!(i.span, Span(12, 32));
        },
        _ => panic!(),
    }
    assert_eq!(ls[1].label.as_ref().unwrap().name, "one");
    match &ls[1].kind {
        AsmLineKind::Const(c) => {
            assert!(matches!(c.kind, ConstKind::U8(1)));
            assert_eq!(c.span, Span(38, 45));
        },
        _ => panic!(),
    }
}

#[test]
fn operand_forms() {
    let ops = operands("x r1, r2 sar 3, 10, -5, +7, pc, c0, lbl, logic_imd(16, 8, 4)\n");
    assert!(matches!(ops[0], OperandKind::GPR(Reg::R1)));
    assert!(matches!(ops[1], OperandKind::ShReg(Reg::R2, Shift::SAR(3))));
    assert!(matches!(ops[2], OperandKind::UImd(10)));
    assert!(matches!(ops[3], OperandKind::SImd(SImd::I64(-5))));
    assert!(matches!(ops[4], OperandKind::SImd(SImd::I64(7))));
    assert!(matches!(ops[5], OperandKind::PC(Reg::PC)));
    assert!(matches!(ops[6], OperandKind::C0(Reg::C0)));
    match &ops[7] {
        OperandKind::SImd(SImd::Label(l)) => assert_eq!(l.name, "lbl"),
        _ => panic!(),
    }
    assert!(matches!(ops[8], OperandKind::LogicImd { level: 16, ones: 8, rot: 4 }));
}

#[test]
fn address_forms() {
    let ops = operands("ld r1, [+0x10], [r2], [r2 + 0x10], [r2 -= 8], [r2 + r3 shl 2], [data]\n");
    assert!(matches!(ops[1], OperandKind::Offset(SImd::I64(16))));
    assert!(matches!(ops[2], OperandKind::BaseIndex { base: Reg::R2, index: Reg::R0, shift: 0, .. }));
    assert!(matches!(ops[3], OperandKind::BaseOffset { base: Reg::R2, offset: 16, writeback: false, .. }));
    assert!(matches!(ops[4], OperandKind::BaseOffset { base: Reg::R2, offset: -8, writeback: true, .. }));
    assert!(matches!(ops[5], OperandKind::BaseIndex { base: Reg::R2, index: Reg::R3, shift: 2, .. }));
    match &ops[6] {
        OperandKind::Offset(SImd::Label(l)) => assert_eq!(l.name, "data"),
        _ => panic!(),
    }
}

#[test]
fn mnemonics_with_parts() {
    let ls = lines("comp.eq.and c0, r1, r2\nld.8 r1, [r2]\n");
    match (&ls[0].kind, &ls[1].kind) {
        (AsmLineKind::Inst(a), AsmLineKind::Inst(b)) => {
            assert_eq!(a.mnemonic.name, "comp.eq.and");
            assert_eq!(b.mnemonic.name, "ld.8");
            assert_eq!(b.mnemonic.span, Span(23, 27));
        },
        _ => panic!(),
    }
}

#[test]
fn constants() {
    let ls = lines("i8 -128\ni16 +5\nu64 0xffffffffffffffff\nbytes 1,\n 2\nstr \"x\"\n");
    assert!(matches!(ls[0].kind, AsmLineKind::Const(ref c) if matches!(c.kind, ConstKind::I8(-128))));
    assert!(matches!(ls[1].kind, AsmLineKind::Const(ref c) if matches!(c.kind, ConstKind::I16(5))));
    assert!(matches!(ls[2].kind, AsmLineKind::Const(ref c) if matches!(c.kind, ConstKind::U64(u64::MAX))));
    match &ls[3].kind {
        AsmLineKind::Const(c) => match &c.kind {
            ConstKind::Bytes(b) => assert_eq!(b, &vec![1u8, 2]),
            _ => panic!(),
        },
        _ => panic!(),
    }
    match &ls[4].kind {
        AsmLineKind::Const(c) => match &c.kind {
            ConstKind::Str(s) => assert_eq!(s, "x"),
            _ => panic!(),
        },
        _ => panic!(),
    }
}

#[test]
fn parse_errors() {
    assert_eq!(error("i8 128\n"), "number (128) out of range for i8 constant\n  --> p.asm:1:4-1:6");
    assert_eq!(error("i8 -129\n"), "number (-129) out of range for i8 constant\n  --> p.asm:1:4-1:7");
    assert_eq!(error("i64 -0x8000000000000001\n"), "number (-0x8000000000000001) out of range for i64 constant\n  --> p.asm:1:5-1:23");
    assert_eq!(error("bytes 1, 256\n"), "number (256) out of range for byte\n  --> p.asm:1:10-1:12");
    assert_eq!(error("x r1 shl 64\n"), "number (64) out of range for shift amount\n  --> p.asm:1:10-1:11");
    assert_eq!(error("x r1 shx 1\n"), "unexpected token (shx), expected shift operator\n  --> p.asm:1:6-1:8");
    assert_eq!(error("x logic_imd(3, 1, 0)\n"), "invalid logic immediate level (3)\n  --> p.asm:1:13");
    assert_eq!(error("x logic_imd(0, 0)\n"), "invalid logic immediate one_len (0)\n  --> p.asm:1:13");
    assert_eq!(error("x logic_imd(8, 2, 8)\n"), "invalid logic immediate rot (8)\n  --> p.asm:1:19");
    assert_eq!(error("x [r1 - r2]\n"), "unexpected token ((-)), expected (+)\n  --> p.asm:1:7");
    assert_eq!(error("x [r1 + x2]\n"), "unexpected token (x2), expected register\n  --> p.asm:1:9-1:10");
    assert_eq!(error("x [r1 + r2 shr 1]\n"), "unexpected token (shr), expected \"shl\"\n  --> p.asm:1:12-1:14");
    assert_eq!(error("x ,\n"), "unexpected token (,), expected operand\n  --> p.asm:1:3");
    assert_eq!(error("x [r1\n"), "unexpected token (\\n), expected (])\n  --> p.asm:2:0");
    assert_eq!(error("5: x\n"), "unexpected token (5), expected identifier\n  --> p.asm:1:1");
    assert_eq!(error("str 5\n"), "unexpected token (5), expected string\n  --> p.asm:1:5");
    assert_eq!(error("x +\n"), "unexpected token (\\n), expected number\n  --> p.asm:2:0");
    assert_eq!(error("a.,\n"), "unexpected token (,), expected identifier\n  --> p.asm:1:3");
}

#[test]
fn empty_program_has_no_lines() {
    assert_eq!(lines("").len(), 0);
    assert_eq!(lines("\n\n").len(), 0);
}

#[test]
fn register_names() {
    assert_eq!(Reg::R0.name(), "r0");
    assert_eq!(Reg::R17.name(), "r17");
    assert_eq!(Reg::R31.name(), "r31");
    assert_eq!(Reg::PC.name(), "pc");
    assert_eq!(Reg::C0.name(), "c0");
}

#[test]
fn cursor_steps() {
    let mut source = Source::new("a, 5 \"s\"\n", "p.asm");
    let toks = tokenize(&mut source).ok().unwrap();
    let mut cur = Cursor::new(&toks, &source);
    assert!(!cur.is_end());
    assert!(cur.test(TokenKind::Ident("a")));
    assert!(matches!(cur.peek_next().kind, TokenKind::Comma));
    let id = cur.consume_ident().ok().unwrap();
    assert_eq!(id.name, "a");
    assert!(cur.try_eat(TokenKind::Comma));
    assert!(!cur.try_eat(TokenKind::Comma));
    assert!(cur.try_consume_ident().is_none());
    assert_eq!(cur.try_consume_nb(), Some((5, Span(3, 4))));
    let (s, span) = cur.consume_str().ok().unwrap();
    assert_eq!((s.as_str(), span), ("s", Span(5, 8)));
    assert!(matches!(cur.last().kind, TokenKind::Str(_)));
    assert_eq!(cur.try_consume(TokenKind::NL), Some(Span(8, 9)));
    assert!(cur.is_end());
    match cur.consume(TokenKind::NL) {
        Err(Fail::Error(e)) => assert_eq!(&*e.msg, "unexpected end of input, expected (\\n)\n  --> p.asm"),
        _ => panic!(),
    }
    match cur.err_expected::<()>("number") {
        Err(Fail::Error(e)) => assert_eq!(&*e.msg, "unexpected end of input, expected number\n  --> p.asm"),
        _ => panic!(),
    }
    assert_eq!(cur.skip(), Span(0, 0));
}

#[test]
fn failed_consume_leaves_the_cursor() {
    let mut source = Source::new("a, 5\n", "p.asm");
    let toks = tokenize(&mut source).ok().unwrap();
    let mut cur = Cursor::new(&toks, &source);
    assert!(cur.consume(TokenKind::Comma).is_err());
    assert_eq!(cur.ind, 0);
    assert!(cur.consume_nb().is_err());
    assert!(cur.consume_str().is_err());
    assert_eq!(cur.ind, 0);
    cur.consume_ident().ok().unwrap();
    assert!(cur.consume_ident().is_err());
    assert_eq!(cur.ind, 1);
    assert_eq!(cur.consume(TokenKind::Comma).ok(), Some(Span(1, 2)));
    assert_eq!(cur.ind, 2);
}

#[test]
fn only_r0_to_r31_are_registers() {
    for (name, reg) in [("r0", Reg::R0), ("r9", Reg::R9), ("r31", Reg::R31)] {
        assert!(matches!(&operands(&format!("jmp {}\n", name))[0], OperandKind::GPR(r) if *r == reg));
    }
    for name in ["r32", "r01", "R1", "c0x"] {
        assert!(!matches!(&operands(&format!("jmp {}\n", name))[0], OperandKind::GPR(_)));
    }
}

#[test]
fn try_eat_end_of_input() {
    let mut source = Source::new("a", "p.asm");
    let toks = tokenize(&mut source).ok().unwrap();
    let mut cur = Cursor::new(&toks, &source);
    assert!(!cur.try_eat(TokenKind::Eof));
    cur.skip();
    assert_eq!(cur.try_consume(TokenKind::Eof), Some(Span(0, 0)));
    assert_eq!(cur.ind, 2);
}

#[test]
fn consume_a_matching_identifier() {
    let mut source = Source::new("a b\n", "p.asm");
    let toks = tokenize(&mut source).ok().unwrap();
    let mut cur = Cursor::new(&toks, &source);
    assert_eq!(cur.consume(TokenKind::Ident("a")).ok(), Some(Span(0, 1)));
    assert_eq!(cur.ind, 1);
}
