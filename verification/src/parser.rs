use vstd::prelude::*;
use crate::tokenizer::{Span, SrcV, TokV, Tk, Token, TokenKind, Source, symbol_text, display_text, can_display, unexpected_msg, end_msg, span_text, toks_view, lex, lex_step, Lx, is_symbol, unexpected_token, end_of_input, tokenize, fits_spans};
use crate::utils::{Res, Fail, mk_err, same_fail, fail, fail_is, pass, str_eq};

verus! {

/// An identifier with the part of the source it was read from.
#[derive(Debug, Clone)]
pub struct Ident {
    pub name: String,
    pub span: Span,
}

/// The value of a constant line.
#[derive(Debug, Clone)]
pub enum ConstKind {
    U8(u8),
    U16(u16),
    U32(u32),
    U64(u64),
    I8(i8),
    I16(i16),
    I32(i32),
    I64(i64),
    Bytes(Vec<u8>),
    Str(String),
}

#[derive(Debug, Clone)]
pub struct Const {
    pub kind: ConstKind,
    pub span: Span,
}

#[derive(Debug, Clone, Copy, PartialEq, Eq, Structural)]
pub enum Sign {
    Pos,
    Neg,
}

#[derive(Debug, Clone, Copy, PartialEq, Eq, Structural)]
pub enum Reg {
    R0,
    R1,
    R2,
    R3,
    R4,
    R5,
    R6,
    R7,
    R8,
    R9,
    R10,
    R11,
    R12,
    R13,
    R14,
    R15,
    R16,
    R17,
    R18,
    R19,
    R20,
    R21,
    R22,
    R23,
    R24,
    R25,
    R26,
    R27,
    R28,
    R29,
    R30,
    R31,
    PC,
    C0,
}

/// The assembly name of a register.
pub open spec fn reg_name(r: Reg) -> Seq<char> {
    match r {
        Reg::R0 => "r0"@,
        Reg::R1 => "r1"@,
        Reg::R2 => "r2"@,
        Reg::R3 => "r3"@,
        Reg::R4 => "r4"@,
        Reg::R5 => "r5"@,
        Reg::R6 => "r6"@,
        Reg::R7 => "r7"@,
        Reg::R8 => "r8"@,
        Reg::R9 => "r9"@,
        Reg::R10 => "r10"@,
        Reg::R11 => "r11"@,
        Reg::R12 => "r12"@,
        Reg::R13 => "r13"@,
        Reg::R14 => "r14"@,
        Reg::R15 => "r15"@,
        Reg::R16 => "r16"@,
        Reg::R17 => "r17"@,
        Reg::R18 => "r18"@,
        Reg::R19 => "r19"@,
        Reg::R20 => "r20"@,
        Reg::R21 => "r21"@,
        Reg::R22 => "r22"@,
        Reg::R23 => "r23"@,
        Reg::R24 => "r24"@,
        Reg::R25 => "r25"@,
        Reg::R26 => "r26"@,
        Reg::R27 => "r27"@,
        Reg::R28 => "r28"@,
        Reg::R29 => "r29"@,
        Reg::R30 => "r30"@,
        Reg::R31 => "r31"@,
        Reg::PC => "pc"@,
        Reg::C0 => "c0"@,
    }
}

impl Reg {
    pub fn name(&self) -> (r: &'static str)
        ensures
            r@ == reg_name(*self),
    {
        match self {
            Reg::R0 => "r0",
            Reg::R1 => "r1",
            Reg::R2 => "r2",
            Reg::R3 => "r3",
            Reg::R4 => "r4",
            Reg::R5 => "r5",
            Reg::R6 => "r6",
            Reg::R7 => "r7",
            Reg::R8 => "r8",
            Reg::R9 => "r9",
            Reg::R10 => "r10",
            Reg::R11 => "r11",
            Reg::R12 => "r12",
            Reg::R13 => "r13",
            Reg::R14 => "r14",
            Reg::R15 => "r15",
            Reg::R16 => "r16",
            Reg::R17 => "r17",
            Reg::R18 => "r18",
            Reg::R19 => "r19",
            Reg::R20 => "r20",
            Reg::R21 => "r21",
            Reg::R22 => "r22",
            Reg::R23 => "r23",
            Reg::R24 => "r24",
            Reg::R25 => "r25",
            Reg::R26 => "r26",
            Reg::R27 => "r27",
            Reg::R28 => "r28",
            Reg::R29 => "r29",
            Reg::R30 => "r30",
            Reg::R31 => "r31",
            Reg::PC => "pc",
            Reg::C0 => "c0",
        }
    }
}

/// A shift applied to a register operand, with its amount.
#[derive(Debug, Clone, Copy, PartialEq, Eq, Structural)]
pub enum Shift {
    SHL(u8),
    SHR(u8),
    SAR(u8),
    ROL(u8),
}

/// A signed immediate: a number or a label.
#[derive(Debug, Clone)]
pub enum SImd {
    I64(i64),
    Label(Ident),
}

#[derive(Debug, Clone)]
pub enum OperandKind {
    GPR(Reg),
    PC(Reg),
    C0(Reg),
    ShReg(Reg, Shift),
    UImd(u64),
    SImd(SImd),
    LogicImd { level: u8, ones: u8, rot: u8 },
    Offset(SImd),
    BaseOffset { base: Reg, offset: i64, offset_span: Span, writeback: bool },
    BaseIndex { base: Reg, index: Reg, shift: u8, shift_span: Span },
}

#[derive(Debug, Clone)]
pub struct Operand {
    pub kind: OperandKind,
    pub span: Span,
}

#[derive(Debug, Clone)]
pub struct Inst {
    pub mnemonic: Ident,
    pub operands: Vec<Operand>,
    pub span: Span,
}

#[derive(Debug, Clone)]
pub enum AsmLineKind {
    Const(Const),
    Inst(Inst),
}

/// A label: the offset it stands for and where it was declared.
#[derive(Debug, Clone)]
pub struct Label {
    offset: u64,
    span: Span,
}

/// A line of the program: an optional label, the padding put before it to
/// align it, and a constant or an instruction.
#[derive(Debug, Clone)]
pub struct AsmLine {
    pub label: Option<Ident>,
    pub pad: u64,
    pub kind: AsmLineKind,
}

} // verus!

verus! {

// ---------------------------------------------------------------------------
// The program as the specification sees it
// ---------------------------------------------------------------------------

pub struct IdentV {
    pub name: Seq<char>,
    pub span: Span,
}

pub enum ConstV {
    U8(u8),
    U16(u16),
    U32(u32),
    U64(u64),
    I8(i8),
    I16(i16),
    I32(i32),
    I64(i64),
    Bytes(Seq<u8>),
    Str(Seq<char>),
}

pub struct ConstVal {
    pub kind: ConstV,
    pub span: Span,
}

pub enum SImdV {
    I64(i64),
    Label(IdentV),
}

pub enum OpKindV {
    GPR(Reg),
    PC(Reg),
    C0(Reg),
    ShReg(Reg, Shift),
    UImd(u64),
    SImd(SImdV),
    LogicImd { level: u8, ones: u8, rot: u8 },
    Offset(SImdV),
    BaseOffset { base: Reg, offset: i64, offset_span: Span, writeback: bool },
    BaseIndex { base: Reg, index: Reg, shift: u8, shift_span: Span },
}

pub struct OperandV {
    pub kind: OpKindV,
    pub span: Span,
}

pub struct InstV {
    pub mnemonic: IdentV,
    pub operands: Seq<OperandV>,
    pub span: Span,
}

pub enum LineKindV {
    Const(ConstVal),
    Inst(InstV),
}

pub struct LineV {
    pub label: Option<IdentV>,
    pub pad: u64,
    pub kind: LineKindV,
}

impl View for Ident {
    type V = IdentV;

    open spec fn view(&self) -> IdentV {
        IdentV { name: self.name@, span: self.span }
    }
}

impl View for ConstKind {
    type V = ConstV;

    open spec fn view(&self) -> ConstV {
        match self {
            ConstKind::U8(x) => ConstV::U8(*x),
            ConstKind::U16(x) => ConstV::U16(*x),
            ConstKind::U32(x) => ConstV::U32(*x),
            ConstKind::U64(x) => ConstV::U64(*x),
            ConstKind::I8(x) => ConstV::I8(*x),
            ConstKind::I16(x) => ConstV::I16(*x),
            ConstKind::I32(x) => ConstV::I32(*x),
            ConstKind::I64(x) => ConstV::I64(*x),
            ConstKind::Bytes(b) => ConstV::Bytes(b@),
            ConstKind::Str(s) => ConstV::Str(s@),
        }
    }
}

impl View for Const {
    type V = ConstVal;

    open spec fn view(&self) -> ConstVal {
        ConstVal { kind: self.kind@, span: self.span }
    }
}

impl View for SImd {
    type V = SImdV;

    open spec fn view(&self) -> SImdV {
        match self {
            SImd::I64(x) => SImdV::I64(*x),
            SImd::Label(l) => SImdV::Label(l@),
        }
    }
}

impl View for OperandKind {
    type V = OpKindV;

    open spec fn view(&self) -> OpKindV {
        match self {
            OperandKind::GPR(r) => OpKindV::GPR(*r),
            OperandKind::PC(r) => OpKindV::PC(*r),
            OperandKind::C0(r) => OpKindV::C0(*r),
            OperandKind::ShReg(r, s) => OpKindV::ShReg(*r, *s),
            OperandKind::UImd(x) => OpKindV::UImd(*x),
            OperandKind::SImd(x) => OpKindV::SImd(x@),
            OperandKind::LogicImd { level, ones, rot } => OpKindV::LogicImd {
                level: *level,
                ones: *ones,
                rot: *rot,
            },
            OperandKind::Offset(x) => OpKindV::Offset(x@),
            OperandKind::BaseOffset { base, offset, offset_span, writeback } => OpKindV::BaseOffset {
                base: *base,
                offset: *offset,
                offset_span: *offset_span,
                writeback: *writeback,
            },
            OperandKind::BaseIndex { base, index, shift, shift_span } => OpKindV::BaseIndex {
                base: *base,
                index: *index,
                shift: *shift,
                shift_span: *shift_span,
            },
        }
    }
}

impl View for Operand {
    type V = OperandV;

    open spec fn view(&self) -> OperandV {
        OperandV { kind: self.kind@, span: self.span }
    }
}

/// The operands of a list as the specification sees them.
pub open spec fn ops_view(s: Seq<Operand>) -> Seq<OperandV> {
    s.map_values(|o: Operand| o@)
}

impl View for Inst {
    type V = InstV;

    open spec fn view(&self) -> InstV {
        InstV { mnemonic: self.mnemonic@, operands: ops_view(self.operands@), span: self.span }
    }
}

impl View for AsmLineKind {
    type V = LineKindV;

    open spec fn view(&self) -> LineKindV {
        match self {
            AsmLineKind::Const(c) => LineKindV::Const(c@),
            AsmLineKind::Inst(i) => LineKindV::Inst(i@),
        }
    }
}

impl View for AsmLine {
    type V = LineV;

    open spec fn view(&self) -> LineV {
        LineV {
            label: match self.label {
                Some(l) => Some(l@),
                None => None,
            },
            pad: self.pad,
            kind: self.kind@,
        }
    }
}

/// The lines of a program as the specification sees them.
pub open spec fn lines_view(s: Seq<AsmLine>) -> Seq<LineV> {
    s.map_values(|l: AsmLine| l@)
}

/// A program: its lines.
#[derive(Debug, Clone)]
pub struct Program {
    pub lines: Vec<AsmLine>,
}

} // verus!

verus! {

// ---------------------------------------------------------------------------
// The grammar, over the tokens
// ---------------------------------------------------------------------------

/// The end-of-input token.
pub open spec fn eof_tok() -> TokV {
    TokV { span: Span(0, 0), kind: Tk::Eof }
}

/// The token at `i`, or the end-of-input token past the list.
pub open spec fn tok_at(t: Seq<TokV>, i: int) -> TokV {
    if 0 <= i < t.len() {
        t[i]
    } else {
        eof_tok()
    }
}

/// The cursor stands at the last token (or past it).
pub open spec fn at_end(t: Seq<TokV>, i: int) -> bool {
    i >= t.len() - 1
}

/// How a token is shown in messages, where its text can be taken.
pub open spec fn shown(tv: TokV, s: SrcV) -> Option<Seq<char>> {
    if can_display(tv.kind, tv.span, s) {
        Some(display_text(tv.kind, tv.span, s))
    } else {
        None
    }
}

/// The error for a token that is not what was expected.
pub open spec fn expected_err<T>(t: Seq<TokV>, s: SrcV, i: int, expected: Seq<char>) -> Res<T> {
    if at_end(t, i) {
        mk_err(end_msg(expected), Span(0, 0), s)
    } else {
        match shown(tok_at(t, i), s) {
            Some(d) => mk_err(unexpected_msg(d, expected), tok_at(t, i).span, s),
            None => Res::Halt,
        }
    }
}

/// Consumes a token of the symbol kind `k`: its span and where to go on.
pub open spec fn consume_spec(t: Seq<TokV>, s: SrcV, i: int, k: Tk) -> Res<(Span, int)> {
    let exp = "("@ + symbol_text(k) + ")"@;
    if at_end(t, i) {
        mk_err(end_msg(exp), Span(0, 0), s)
    } else if tok_at(t, i).kind != k {
        match shown(tok_at(t, i), s) {
            Some(d) => mk_err(unexpected_msg(d, exp), tok_at(t, i).span, s),
            None => Res::Halt,
        }
    } else {
        Res::Done((tok_at(t, i).span, i + 1))
    }
}

/// Where the cursor goes after eating a token of kind `k`, if there is one.
pub open spec fn eat(t: Seq<TokV>, i: int, k: Tk) -> int {
    if tok_at(t, i).kind == k {
        i + 1
    } else {
        i
    }
}

/// Where the cursor goes after eating the line feeds at `i`.
pub open spec fn eat_nl(t: Seq<TokV>, i: int) -> int
    decreases t.len() - i,
{
    if 0 <= i < t.len() && t[i].kind == Tk::NL {
        eat_nl(t, i + 1)
    } else {
        i
    }
}

/// The identifier at `i`, or the error for it.
pub open spec fn ident_spec(t: Seq<TokV>, s: SrcV, i: int) -> Res<(IdentV, int)> {
    match tok_at(t, i).kind {
        Tk::Ident(n) => Res::Done((IdentV { name: n, span: tok_at(t, i).span }, i + 1)),
        _ => expected_err(t, s, i, "identifier"@),
    }
}

/// The number at `i` and its span, or the error for it.
pub open spec fn nb_spec(t: Seq<TokV>, s: SrcV, i: int) -> Res<((u64, Span), int)> {
    match tok_at(t, i).kind {
        Tk::Nb(n) => Res::Done(((n, tok_at(t, i).span), i + 1)),
        _ => expected_err(t, s, i, "number"@),
    }
}

/// The string at `i` and its span, or the error for it.
pub open spec fn str_spec(t: Seq<TokV>, s: SrcV, i: int) -> Res<((Seq<char>, Span), int)> {
    match tok_at(t, i).kind {
        Tk::Str(x) => Res::Done(((x, tok_at(t, i).span), i + 1)),
        _ => expected_err(t, s, i, "string"@),
    }
}

/// The error for a number out of the range of `what`.
pub open spec fn out_of_range<T>(s: SrcV, what: Seq<char>, span: Span) -> Res<T> {
    match span_text(s, span) {
        Some(x) => mk_err("number ("@ + x + ") out of range for "@ + what, span, s),
        None => Res::Halt,
    }
}

/// The number `nb`, negated if `neg`, as an `i64`; or the error for it.
pub open spec fn into_i64_spec(s: SrcV, what: Seq<char>, nb: u64, neg: bool, span: Span) -> Res<i64> {
    if neg && nb <= 0x8000_0000_0000_0000 {
        Res::Done((-(nb as int)) as i64)
    } else if !neg && nb <= 0x7fff_ffff_ffff_ffff {
        Res::Done(nb as i64)
    } else {
        out_of_range(s, what, span)
    }
}

/// The general purpose register named `n`.
pub open spec fn gpr_of(n: Seq<char>) -> Option<Reg> {
    if n == "r0"@ {
        Some(Reg::R0)
    } else if n == "r1"@ {
        Some(Reg::R1)
    } else if n == "r2"@ {
        Some(Reg::R2)
    } else if n == "r3"@ {
        Some(Reg::R3)
    } else if n == "r4"@ {
        Some(Reg::R4)
    } else if n == "r5"@ {
        Some(Reg::R5)
    } else if n == "r6"@ {
        Some(Reg::R6)
    } else if n == "r7"@ {
        Some(Reg::R7)
    } else if n == "r8"@ {
        Some(Reg::R8)
    } else if n == "r9"@ {
        Some(Reg::R9)
    } else if n == "r10"@ {
        Some(Reg::R10)
    } else if n == "r11"@ {
        Some(Reg::R11)
    } else if n == "r12"@ {
        Some(Reg::R12)
    } else if n == "r13"@ {
        Some(Reg::R13)
    } else if n == "r14"@ {
        Some(Reg::R14)
    } else if n == "r15"@ {
        Some(Reg::R15)
    } else if n == "r16"@ {
        Some(Reg::R16)
    } else if n == "r17"@ {
        Some(Reg::R17)
    } else if n == "r18"@ {
        Some(Reg::R18)
    } else if n == "r19"@ {
        Some(Reg::R19)
    } else if n == "r20"@ {
        Some(Reg::R20)
    } else if n == "r21"@ {
        Some(Reg::R21)
    } else if n == "r22"@ {
        Some(Reg::R22)
    } else if n == "r23"@ {
        Some(Reg::R23)
    } else if n == "r24"@ {
        Some(Reg::R24)
    } else if n == "r25"@ {
        Some(Reg::R25)
    } else if n == "r26"@ {
        Some(Reg::R26)
    } else if n == "r27"@ {
        Some(Reg::R27)
    } else if n == "r28"@ {
        Some(Reg::R28)
    } else if n == "r29"@ {
        Some(Reg::R29)
    } else if n == "r30"@ {
        Some(Reg::R30)
    } else if n == "r31"@ {
        Some(Reg::R31)
    } else {
        None
    }
}

/// The signed immediate at `i` (a sign, then a number) with its span;
/// `None` where there is no sign.
pub open spec fn simd_spec(t: Seq<TokV>, s: SrcV, i: int) -> Res<(Option<(i64, Span)>, int)> {
    let k = tok_at(t, i).kind;
    if !(k == Tk::Minus || k == Tk::Plus) {
        Res::Done((None, i))
    } else {
        let neg = k == Tk::Minus;
        let sign_span = tok_at(t, i).span;
        match nb_spec(t, s, i + 1) {
            Res::Done(((nb, nb_span), j)) => match into_i64_spec(s, "signed immediate"@, nb, neg, nb_span) {
                Res::Done(v) => Res::Done((Some((v, Span(sign_span.0, nb_span.1))), j)),
                Res::Error(m, sp) => Res::Error(m, sp),
                Res::Halt => Res::Halt,
            },
            Res::Error(m, sp) => Res::Error(m, sp),
            Res::Halt => Res::Halt,
        }
    }
}

} // verus!

verus! {

/// The error with message `pre`, the text of `span`, then `)`.
pub open spec fn text_err<T>(s: SrcV, pre: Seq<char>, span: Span) -> Res<T> {
    match span_text(s, span) {
        Some(x) => mk_err(pre + x + ")"@, span, s),
        None => Res::Halt,
    }
}

/// The names of the number constants, and the largest value of the
/// unsigned ones.
pub open spec fn is_u_const(n: Seq<char>) -> bool {
    n == "u8"@ || n == "u16"@ || n == "u32"@ || n == "u64"@
}

pub open spec fn is_i_const(n: Seq<char>) -> bool {
    n == "i8"@ || n == "i16"@ || n == "i32"@ || n == "i64"@
}

pub open spec fn u_max(n: Seq<char>) -> int {
    if n == "u8"@ {
        0xff
    } else if n == "u16"@ {
        0xffff
    } else if n == "u32"@ {
        0xffff_ffff
    } else {
        0xffff_ffff_ffff_ffff
    }
}

/// The range of the signed ones.
pub open spec fn i_fits(n: Seq<char>, v: i64) -> bool {
    if n == "i8"@ {
        -0x80 <= v <= 0x7f
    } else if n == "i16"@ {
        -0x8000 <= v <= 0x7fff
    } else if n == "i32"@ {
        -0x8000_0000 <= v <= 0x7fff_ffff
    } else {
        true
    }
}

pub open spec fn u_value(n: Seq<char>, v: u64) -> ConstV {
    if n == "u8"@ {
        ConstV::U8(v as u8)
    } else if n == "u16"@ {
        ConstV::U16(v as u16)
    } else if n == "u32"@ {
        ConstV::U32(v as u32)
    } else {
        ConstV::U64(v)
    }
}

pub open spec fn i_value(n: Seq<char>, v: i64) -> ConstV {
    if n == "i8"@ {
        ConstV::I8(v as i8)
    } else if n == "i16"@ {
        ConstV::I16(v as i16)
    } else if n == "i32"@ {
        ConstV::I32(v as i32)
    } else {
        ConstV::I64(v)
    }
}

/// An unsigned number constant of type `n` whose name is at `i`.
pub open spec fn u_const_spec(t: Seq<TokV>, s: SrcV, i: int, n: Seq<char>) -> Res<(Option<ConstVal>, int)> {
    match nb_spec(t, s, i + 1) {
        Res::Done(((nb, nsp), j)) => if nb <= u_max(n) {
            Res::Done((Some(ConstVal { kind: u_value(n, nb), span: Span(tok_at(t, i).span.0, nsp.1) }), j))
        } else {
            out_of_range(s, n + " constant"@, nsp)
        },
        other => pass(other),
    }
}

/// A signed number constant of type `n` whose name is at `i`: an optional
/// sign, then a number.
pub open spec fn i_const_spec(t: Seq<TokV>, s: SrcV, i: int, n: Seq<char>) -> Res<(Option<ConstVal>, int)> {
    let j0 = i + 1;
    let sign_span = tok_at(t, j0).span;
    let neg = tok_at(t, j0).kind == Tk::Minus;
    let j1 = if neg {
        j0 + 1
    } else {
        eat(t, j0, Tk::Plus)
    };
    match nb_spec(t, s, j1) {
        Res::Done(((nb, nsp0), j)) => {
            let nsp = Span(sign_span.0, nsp0.1);
            match into_i64_spec(s, n + " constant"@, nb, neg, nsp) {
                Res::Done(v) => if i_fits(n, v) {
                    Res::Done((Some(ConstVal { kind: i_value(n, v), span: Span(tok_at(t, i).span.0, nsp.1) }), j))
                } else {
                    out_of_range(s, n + " constant"@, nsp)
                },
                other => pass(other),
            }
        },
        other => pass(other),
    }
}

/// The bytes of a byte array from `j` on, after the bytes `acc`: numbers
/// separated by commas, each maybe after line feeds.
pub open spec fn bytes_spec(t: Seq<TokV>, s: SrcV, j: int, acc: Seq<u8>) -> Res<(Seq<u8>, int)>
    decreases t.len() - j,
{
    let j1 = eat_nl(t, j);
    match nb_spec(t, s, j1) {
        Res::Done(((b, bsp), j2)) => if b > 0xff {
            out_of_range(s, "byte"@, bsp)
        } else if tok_at(t, j2).kind == Tk::Comma && j < j2 + 1 <= t.len() {
            bytes_spec(t, s, j2 + 1, acc.push(b as u8))
        } else {
            Res::Done((acc.push(b as u8), j2))
        },
        other => pass(other),
    }
}

/// The byte array constant whose `bytes` is at `i`.
pub open spec fn bytes_const_spec(t: Seq<TokV>, s: SrcV, i: int) -> Res<(Option<ConstVal>, int)> {
    match bytes_spec(t, s, i + 1, Seq::empty()) {
        Res::Done((bs, j)) => Res::Done(
            (
                Some(ConstVal { kind: ConstV::Bytes(bs), span: Span(tok_at(t, i).span.0, tok_at(t, j - 1).span.1) }),
                j,
            ),
        ),
        other => pass(other),
    }
}

/// The constant at `i`, or `None` where no constant starts there.
#[verifier::opaque]
pub open spec fn const_spec(t: Seq<TokV>, s: SrcV, i: int) -> Res<(Option<ConstVal>, int)> {
    match tok_at(t, i).kind {
        Tk::Ident(n) => if is_u_const(n) {
            u_const_spec(t, s, i, n)
        } else if is_i_const(n) {
            i_const_spec(t, s, i, n)
        } else if n == "bytes"@ {
            bytes_const_spec(t, s, i)
        } else if n == "str"@ {
            match str_spec(t, s, i + 1) {
                Res::Done(((x, sp), j)) => Res::Done(
                    (Some(ConstVal { kind: ConstV::Str(x), span: Span(tok_at(t, i).span.0, sp.1) }), j),
                ),
                other => pass(other),
            }
        } else {
            Res::Done((None, i))
        },
        _ => Res::Done((None, i)),
    }
}

/// The levels of a logic immediate.
pub open spec fn level_ok(level: u64) -> bool {
    level == 2 || level == 4 || level == 8 || level == 16 || level == 32 || level == 64
}

/// The logic immediate after `logic_imd` (the identifier `id`), from `i`:
/// `(level?, one_len, rot)`.
pub open spec fn logic_imd_spec(t: Seq<TokV>, s: SrcV, i: int, id: IdentV) -> Res<(OperandV, int)> {
    match consume_spec(t, s, i, Tk::ParanOpen) {
        Res::Done((_, j1)) => match nb_spec(t, s, j1) {
            Res::Done(((a, asp), j2)) => match consume_spec(t, s, j2, Tk::Comma) {
                Res::Done((_, j3)) => match nb_spec(t, s, j3) {
                    Res::Done(((b, bsp), j4)) => {
                        let three = tok_at(t, j4).kind == Tk::Comma;
                        match (if three {
                            nb_spec(t, s, j4 + 1)
                        } else {
                            Res::Done(((b, bsp), j4))
                        }) {
                            Res::Done(((c, csp), j5)) => {
                                let level = if three { a } else { 64 };
                                let level_span = if three { asp } else { Span(0, 0) };
                                let ones = if three { b } else { a };
                                let ones_span = if three { bsp } else { asp };
                                let rot = if three { c } else { b };
                                let rot_span = if three { csp } else { bsp };
                                match consume_spec(t, s, j5, Tk::ParanClose) {
                                    Res::Done((end, j6)) => if !level_ok(level) {
                                        text_err(s, "invalid logic immediate level ("@, level_span)
                                    } else if ones == 0 || ones > level {
                                        text_err(s, "invalid logic immediate one_len ("@, ones_span)
                                    } else if rot >= level {
                                        text_err(s, "invalid logic immediate rot ("@, rot_span)
                                    } else {
                                        Res::Done(
                                            (
                                                OperandV {
                                                    kind: OpKindV::LogicImd {
                                                        level: level as u8,
                                                        ones: ones as u8,
                                                        rot: rot as u8,
                                                    },
                                                    span: Span(id.span.0, end.1),
                                                },
                                                j6,
                                            ),
                                        )
                                    },
                                    other => pass(other),
                                }
                            },
                            other => pass(other),
                        }
                    },
                    other => pass(other),
                },
                other => pass(other),
            },
            other => pass(other),
        },
        other => pass(other),
    }
}

/// The index part of an address after `base +`, from `j` (an identifier).
pub open spec fn index_spec(t: Seq<TokV>, s: SrcV, j: int, base: Reg, neg: bool, sign_span: Span) -> Res<(OpKindV, int)> {
    match tok_at(t, j).kind {
        Tk::Ident(n2) => if neg {
            mk_err(unexpected_msg("(-)"@, "(+)"@), sign_span, s)
        } else {
            match gpr_of(n2) {
                None => mk_err(unexpected_msg(n2, "register"@), tok_at(t, j).span, s),
                Some(index) => match tok_at(t, j + 1).kind {
                    Tk::Ident(n3) => if n3 != "shl"@ {
                        mk_err(unexpected_msg(n3, "\"shl\""@), tok_at(t, j + 1).span, s)
                    } else {
                        match nb_spec(t, s, j + 2) {
                            Res::Done(((amt, asp), j4)) => if amt > 63 {
                                out_of_range(s, "shift amount"@, asp)
                            } else {
                                Res::Done(
                                    (OpKindV::BaseIndex { base, index, shift: amt as u8, shift_span: asp }, j4),
                                )
                            },
                            other => pass(other),
                        }
                    },
                    _ => Res::Done(
                        (OpKindV::BaseIndex { base, index, shift: 0, shift_span: Span(0, 0) }, j + 1),
                    ),
                },
            }
        },
        _ => {
            let wb = tok_at(t, j).kind == Tk::Eq;
            match nb_spec(t, s, eat(t, j, Tk::Eq)) {
                Res::Done(((off, osp), j4)) => match into_i64_spec(s, "offset"@, off, neg, sign_span) {
                    Res::Done(v) => Res::Done(
                        (OpKindV::BaseOffset { base, offset: v, offset_span: osp, writeback: wb }, j4),
                    ),
                    other => pass(other),
                },
                other => pass(other),
            }
        },
    }
}

/// The address inside brackets, from `i`.
pub open spec fn address_spec(t: Seq<TokV>, s: SrcV, i: int) -> Res<(OpKindV, int)> {
    match simd_spec(t, s, i) {
        Res::Done((Some((v, _)), j)) => Res::Done((OpKindV::Offset(SImdV::I64(v)), j)),
        Res::Done((None, _)) => match ident_spec(t, s, i) {
            Res::Done((id, j)) => match gpr_of(id.name) {
                None => Res::Done((OpKindV::Offset(SImdV::Label(id)), j)),
                Some(base) => {
                    let k = tok_at(t, j).kind;
                    if !(k == Tk::Plus || k == Tk::Minus) {
                        Res::Done((OpKindV::BaseIndex { base, index: Reg::R0, shift: 0, shift_span: Span(0, 0) }, j))
                    } else {
                        index_spec(t, s, j + 1, base, k == Tk::Minus, tok_at(t, j).span)
                    }
                },
            },
            other => pass(other),
        },
        other => pass(other),
    }
}

/// The shift named `n` by `amount`.
pub open spec fn shift_of(n: Seq<char>, amount: u8) -> Option<Shift> {
    if n == "shl"@ {
        Some(Shift::SHL(amount))
    } else if n == "shr"@ {
        Some(Shift::SHR(amount))
    } else if n == "sar"@ {
        Some(Shift::SAR(amount))
    } else if n == "rol"@ {
        Some(Shift::ROL(amount))
    } else {
        None
    }
}

/// The operand that starts with the register `reg` (the identifier `id`),
/// continuing at `j`: maybe shifted.
pub open spec fn reg_operand_spec(t: Seq<TokV>, s: SrcV, j: int, id: IdentV, reg: Reg) -> Res<(OperandV, int)> {
    match tok_at(t, j).kind {
        Tk::Ident(sh) => match nb_spec(t, s, j + 1) {
            Res::Done(((amt, asp), j2)) => if amt > 63 {
                out_of_range(s, "shift amount"@, asp)
            } else {
                match shift_of(sh, amt as u8) {
                    Some(shift) => Res::Done(
                        (OperandV { kind: OpKindV::ShReg(reg, shift), span: Span(id.span.0, asp.1) }, j2),
                    ),
                    None => mk_err(unexpected_msg(sh, "shift operator"@), tok_at(t, j).span, s),
                }
            },
            other => pass(other),
        },
        _ => Res::Done((OperandV { kind: OpKindV::GPR(reg), span: id.span }, j)),
    }
}

/// The operand at `i`.
#[verifier::opaque]
pub open spec fn operand_spec(t: Seq<TokV>, s: SrcV, i: int) -> Res<(OperandV, int)> {
    match tok_at(t, i).kind {
        Tk::Ident(n) => {
            let id = IdentV { name: n, span: tok_at(t, i).span };
            if n == "logic_imd"@ {
                logic_imd_spec(t, s, i + 1, id)
            } else if n == "c0"@ {
                Res::Done((OperandV { kind: OpKindV::C0(Reg::C0), span: id.span }, i + 1))
            } else if n == "pc"@ {
                Res::Done((OperandV { kind: OpKindV::PC(Reg::PC), span: id.span }, i + 1))
            } else {
                match gpr_of(n) {
                    None => Res::Done((OperandV { kind: OpKindV::SImd(SImdV::Label(id)), span: id.span }, i + 1)),
                    Some(reg) => reg_operand_spec(t, s, i + 1, id, reg),
                }
            }
        },
        Tk::Nb(n) => Res::Done((OperandV { kind: OpKindV::UImd(n), span: tok_at(t, i).span }, i + 1)),
        _ => match simd_spec(t, s, i) {
            Res::Done((Some((v, sp)), j)) => Res::Done(
                (OperandV { kind: OpKindV::SImd(SImdV::I64(v)), span: sp }, j),
            ),
            Res::Done((None, _)) => if tok_at(t, i).kind == Tk::BracketOpen {
                match address_spec(t, s, i + 1) {
                    Res::Done((k, j)) => match consume_spec(t, s, j, Tk::BracketClose) {
                        Res::Done((end, j2)) => Res::Done(
                            (OperandV { kind: k, span: Span(tok_at(t, i).span.0, end.1) }, j2),
                        ),
                        other => pass(other),
                    },
                    other => pass(other),
                }
            } else {
                expected_err(t, s, i, "operand"@)
            },
            other => pass(other),
        },
    }
}

/// The rest of a mnemonic `m` from `j`: `.` then an identifier or a number,
/// any number of times.
pub open spec fn mnemonic_spec(t: Seq<TokV>, s: SrcV, j: int, m: IdentV) -> Res<(IdentV, int)>
    decreases t.len() - j,
{
    if tok_at(t, j).kind == Tk::Dot && j < t.len() {
        let nt = tok_at(t, j + 1);
        match nt.kind {
            Tk::Nb(_) => match span_text(s, nt.span) {
                Some(x) => mnemonic_spec(
                    t,
                    s,
                    j + 2,
                    IdentV { name: m.name + "."@ + x, span: Span(m.span.0, nt.span.1) },
                ),
                None => Res::Halt,
            },
            Tk::Ident(n) => mnemonic_spec(
                t,
                s,
                j + 2,
                IdentV { name: m.name + "."@ + n, span: Span(m.span.0, nt.span.1) },
            ),
            _ => expected_err(t, s, j + 1, "identifier"@),
        }
    } else {
        Res::Done((m, j))
    }
}

/// The operands from `j`, after the operands `acc`: separated by commas.
pub open spec fn operands_spec(t: Seq<TokV>, s: SrcV, j: int, acc: Seq<OperandV>) -> Res<(Seq<OperandV>, int)>
    decreases t.len() - j,
{
    match operand_spec(t, s, j) {
        Res::Done((op, j2)) => if tok_at(t, j2).kind == Tk::Comma && j < j2 + 1 <= t.len() {
            operands_spec(t, s, j2 + 1, acc.push(op))
        } else {
            Res::Done((acc.push(op), j2))
        },
        other => pass(other),
    }
}

/// The instruction at `i`: its mnemonic, then its operands unless the line
/// (or the input) ends there.
#[verifier::opaque]
pub open spec fn inst_spec(t: Seq<TokV>, s: SrcV, i: int) -> Res<(InstV, int)> {
    match ident_spec(t, s, i) {
        Res::Done((m0, j)) => match mnemonic_spec(t, s, j, m0) {
            Res::Done((m, j2)) => if tok_at(t, j2).kind == Tk::NL || at_end(t, j2) {
                Res::Done((InstV { mnemonic: m, operands: Seq::empty(), span: m.span }, j2))
            } else {
                match operands_spec(t, s, j2, Seq::empty()) {
                    Res::Done((ops, j3)) => Res::Done(
                        (InstV { mnemonic: m, operands: ops, span: Span(m.span.0, ops.last().span.1) }, j3),
                    ),
                    other => pass(other),
                }
            },
            other => pass(other),
        },
        other => pass(other),
    }
}

/// The label of the line at `i`, if the line starts with one, and where the
/// line goes on.
#[verifier::opaque]
pub open spec fn label_spec(t: Seq<TokV>, s: SrcV, i: int) -> Res<(Option<IdentV>, int)> {
    if tok_at(t, i + 1).kind == Tk::Colon {
        match ident_spec(t, s, i) {
            Res::Done((l, j)) => match consume_spec(t, s, j, Tk::Colon) {
                Res::Done((_, j2)) => Res::Done((Some(l), eat_nl(t, j2))),
                other => pass(other),
            },
            other => pass(other),
        }
    } else {
        Res::Done((None, i))
    }
}

/// The line at `i`: a label maybe, then a constant or an instruction.
pub open spec fn line_spec(t: Seq<TokV>, s: SrcV, i: int) -> Res<(LineV, int)> {
    match label_spec(t, s, i) {
        Res::Done((label, j)) => match const_spec(t, s, j) {
            Res::Done((Some(c), j2)) => Res::Done((LineV { label, pad: 0, kind: LineKindV::Const(c) }, j2)),
            Res::Done((None, _)) => match inst_spec(t, s, j) {
                Res::Done((inst, j2)) => Res::Done((LineV { label, pad: 0, kind: LineKindV::Inst(inst) }, j2)),
                other => pass(other),
            },
            other => pass(other),
        },
        other => pass(other),
    }
}

/// The lines from `i` on, after the lines `acc`: separated by line feeds.
pub open spec fn lines_spec(t: Seq<TokV>, s: SrcV, i: int, acc: Seq<LineV>) -> Res<Seq<LineV>>
    decreases t.len() - i,
{
    if at_end(t, i) {
        Res::Done(acc)
    } else {
        match line_spec(t, s, i) {
            Res::Done((line, j)) => if at_end(t, j) {
                Res::Done(acc.push(line))
            } else {
                match consume_spec(t, s, j, Tk::NL) {
                    Res::Done((_, j2)) => if i < eat_nl(t, j2) <= t.len() {
                        lines_spec(t, s, eat_nl(t, j2), acc.push(line))
                    } else {
                        Res::Halt
                    },
                    other => pass(other),
                }
            },
            other => pass(other),
        }
    }
}

/// The lines of the text `b` of file `path` (the line feeds found before
/// being `lp`), with all the line feeds found; or the first error.
pub open spec fn parse_spec(b: Seq<u8>, path: Seq<char>, lp: Seq<u32>) -> Res<(Seq<LineV>, Seq<u32>)> {
    match lex(b, path, lp, 0, Seq::empty()) {
        Res::Done((toks, lp2)) => match lines_spec(
            toks,
            SrcV { bytes: b, path, lp: lp2 },
            eat_nl(toks, 0),
            Seq::empty(),
        ) {
            Res::Done(lines) => Res::Done((lines, lp2)),
            other => pass(other),
        },
        other => pass(other),
    }
}

} // verus!

verus! {

// ---------------------------------------------------------------------------
// The cursor over the tokens
// ---------------------------------------------------------------------------

/// `r` is the result `s` (a value, seen through `f`, and where the cursor
/// stands after it: `j`), or its failure.
pub open spec fn agree<T, V>(r: Result<T, Fail>, j: int, s: Res<(V, int)>, f: spec_fn(T) -> V) -> bool {
    match s {
        Res::Done((v, k)) => r matches Ok(x) && f(x) == v && j == k,
        other => r matches Err(e) && same_fail(e, other),
    }
}

/// A cursor over the tokens of a source.
pub struct Cursor<'a> {
    pub tokens: &'a [Token<'a>],
    pub ind: usize,
    pub source: &'a Source<'a>,
    pub eof: Token<'a>,
}

impl<'a> Cursor<'a> {
    /// The tokens as the specification sees them.
    pub open spec fn toks(&self) -> Seq<TokV> {
        toks_view(self.tokens@)
    }

    /// The tokens end with the end-of-input token, and the cursor stands on
    /// one of them.
    pub open spec fn wf(&self) -> bool {
        &&& self.toks().len() > 0
        &&& self.toks().last().kind == Tk::Eof
        &&& self.ind < self.toks().len()
        &&& self.eof@ == eof_tok()
    }

    /// `other` is this cursor, moved maybe.
    pub open spec fn same(&self, other: Cursor) -> bool {
        &&& other.tokens == self.tokens
        &&& other.source == self.source
        &&& other.eof@ == self.eof@
    }

    pub fn new(tokens: &'a [Token<'a>], source: &'a Source<'a>) -> (r: Cursor<'a>)
        ensures
            r.tokens == tokens,
            r.source == source,
            r.ind == 0,
            r.eof@ == eof_tok(),
    {
        Cursor { tokens, ind: 0, source, eof: Token { span: Span::none(), kind: TokenKind::Eof } }
    }

    /// The cursor stands at the last token.
    pub fn is_end(&self) -> (r: bool)
        requires
            self.tokens@.len() > 0,
        ensures
            r == at_end(self.toks(), self.ind as int),
    {
        self.ind >= self.tokens.len() - 1
    }

    /// The token before the cursor.
    pub fn last(&self) -> (r: &Token<'a>)
        requires
            0 < self.ind <= self.tokens@.len(),
        ensures
            r@ == self.toks()[self.ind - 1],
    {
        &self.tokens[self.ind - 1]
    }

    /// The token at the cursor.
    pub fn peek(&self) -> (r: &Token<'a>)
        requires
            self.ind < self.tokens@.len(),
        ensures
            r@ == self.toks()[self.ind as int],
            r@ == tok_at(self.toks(), self.ind as int),
    {
        &self.tokens[self.ind]
    }

    /// The token after the cursor, or the end-of-input token.
    pub fn peek_next(&self) -> (r: &Token<'a>)
        requires
            self.eof@ == eof_tok(),
        ensures
            r@ == tok_at(self.toks(), self.ind + 1),
    {
        if self.tokens.len() > 0 && self.ind < self.tokens.len() - 1 {
            &self.tokens[self.ind + 1]
        } else {
            &self.eof
        }
    }

    /// Moves past the token at the cursor, and gives its span.
    pub fn skip(&mut self) -> (r: Span)
        requires
            old(self).ind < old(self).tokens@.len(),
        ensures
            r == old(self).toks()[old(self).ind as int].span,
            final(self).ind == old(self).ind + 1,
            old(self).same(*final(self)),
    {
        let span = self.tokens[self.ind].span;
        self.ind = self.ind + 1;
        span
    }
}

/// The symbol `kind` in brackets, as messages name it.
fn paren_symbol(kind: &TokenKind) -> (r: String)
    requires
        is_symbol(kind@),
    ensures
        r@ == "("@ + symbol_text(kind@) + ")"@,
{
    let mut exp = String::new();
    exp.append("(");
    exp.append(kind.symbol_fmt());
    exp.append(")");
    exp
}

/// The two token kinds are the same.
fn same_kind(a: &TokenKind, b: &TokenKind) -> (r: bool)
    ensures
        r == (a@ == b@),
{
    match (a, b) {
        (TokenKind::Ident(x), TokenKind::Ident(y)) => crate::utils::str_eq(*x, *y),
        (TokenKind::Str(x), TokenKind::Str(y)) => crate::utils::str_eq(x.as_str(), y.as_str()),
        (TokenKind::Nb(x), TokenKind::Nb(y)) => *x == *y,
        (TokenKind::Dot, TokenKind::Dot) => true,
        (TokenKind::Comma, TokenKind::Comma) => true,
        (TokenKind::Colon, TokenKind::Colon) => true,
        (TokenKind::Plus, TokenKind::Plus) => true,
        (TokenKind::Minus, TokenKind::Minus) => true,
        (TokenKind::Eq, TokenKind::Eq) => true,
        (TokenKind::ParanOpen, TokenKind::ParanOpen) => true,
        (TokenKind::ParanClose, TokenKind::ParanClose) => true,
        (TokenKind::BracketOpen, TokenKind::BracketOpen) => true,
        (TokenKind::BracketClose, TokenKind::BracketClose) => true,
        (TokenKind::NL, TokenKind::NL) => true,
        (TokenKind::Eof, TokenKind::Eof) => true,
        _ => false,
    }
}

} // verus!

verus! {

/// How a token is shown in messages, where its text can be taken.
fn shown_x<'a>(tok: &Token<'a>, source: &Source<'a>) -> (r: Option<&'a str>)
    ensures
        match shown(tok@, source@) {
            Some(d) => r matches Some(x) && x@ == d,
            None => r is None,
        },
{
    match &tok.kind {
        TokenKind::Str(_) => source.try_source_of(tok.span),
        TokenKind::Nb(_) => source.try_source_of(tok.span),
        _ => Some(tok.display(source)),
    }
}

impl<'a> Cursor<'a> {
    /// The token at the cursor is of kind `kind`.
    pub fn test(&self, kind: TokenKind) -> (r: bool)
        requires
            self.ind < self.tokens@.len(),
        ensures
            r == (tok_at(self.toks(), self.ind as int).kind == kind@),
    {
        same_kind(&self.peek().kind, &kind)
    }

    /// The error for the token at the cursor, which is not what was expected.
    pub fn err_expected<T>(&self, expected: &str) -> (r: Result<T, Fail>)
        requires
            self.wf(),
        ensures
            r matches Err(f) && same_fail(f, expected_err::<T>(self.toks(), self.source@, self.ind as int, expected@)),
    {
        if self.is_end() {
            return end_of_input(expected, self.source);
        }
        let tok = self.peek();
        match shown_x(tok, self.source) {
            Some(d) => unexpected_token(d, expected, tok.span, self.source),
            None => Err(Fail::Halt),
        }
    }

    /// Consumes a token of the kind `kind`; for an identifier, a string or a
    /// number, only where the token at the cursor is that very one (the
    /// message of an error names symbols only).
    pub fn consume(&mut self, kind: TokenKind) -> (r: Result<Span, Fail>)
        requires
            old(self).wf(),
            is_symbol(kind@) || (!at_end(old(self).toks(), old(self).ind as int) && tok_at(
                old(self).toks(),
                old(self).ind as int,
            ).kind == kind@),
        ensures
            final(self).wf(),
            old(self).same(*final(self)),
            agree(r, final(self).ind as int, consume_spec(old(self).toks(), old(self).source@, old(self).ind as int, kind@), |x: Span| x),
            r is Err ==> final(self).ind == old(self).ind,
    {
        if self.is_end() {
            let exp = paren_symbol(&kind);
            return end_of_input(exp.as_str(), self.source);
        }
        let tok = self.peek();
        if !same_kind(&tok.kind, &kind) {
            let exp = paren_symbol(&kind);
            return match shown_x(tok, self.source) {
                Some(d) => unexpected_token(d, exp.as_str(), tok.span, self.source),
                None => Err(Fail::Halt),
            };
        }
        Ok(self.skip())
    }

    /// Moves past the token at the cursor if it is of kind `kind`.
    pub fn try_eat(&mut self, kind: TokenKind) -> (r: bool)
        requires
            old(self).wf(),
        ensures
            !(kind@ is Eof) ==> final(self).wf(),
            final(self).ind <= old(self).toks().len(),
            old(self).same(*final(self)),
            r == (tok_at(old(self).toks(), old(self).ind as int).kind == kind@),
            final(self).ind == eat(old(self).toks(), old(self).ind as int, kind@),
    {
        if !same_kind(&self.peek().kind, &kind) {
            return false;
        }
        self.skip();
        true
    }

    /// Moves past the token at the cursor if it is of kind `kind`, and gives
    /// its span.
    pub fn try_consume(&mut self, kind: TokenKind) -> (r: Option<Span>)
        requires
            old(self).wf(),
        ensures
            !(kind@ is Eof) ==> final(self).wf(),
            final(self).ind <= old(self).toks().len(),
            old(self).same(*final(self)),
            final(self).ind == eat(old(self).toks(), old(self).ind as int, kind@),
            match r {
                Some(sp) => tok_at(old(self).toks(), old(self).ind as int).kind == kind@
                    && sp == tok_at(old(self).toks(), old(self).ind as int).span,
                None => tok_at(old(self).toks(), old(self).ind as int).kind != kind@,
            },
    {
        if !same_kind(&self.peek().kind, &kind) {
            return None;
        }
        Some(self.skip())
    }

    /// Consumes an identifier.
    pub fn consume_ident(&mut self) -> (r: Result<Ident, Fail>)
        requires
            old(self).wf(),
        ensures
            final(self).wf(),
            old(self).same(*final(self)),
            agree(r, final(self).ind as int, ident_spec(old(self).toks(), old(self).source@, old(self).ind as int), |x: Ident| x@),
            r is Err ==> final(self).ind == old(self).ind,
    {
        let tok = self.peek();
        match &tok.kind {
            TokenKind::Ident(name) => {
                let span = tok.span;
                let name = (*name).to_owned();
                self.skip();
                Ok(Ident { name, span })
            },
            _ => self.err_expected("identifier"),
        }
    }

    /// Consumes an identifier if there is one at the cursor.
    pub fn try_consume_ident(&mut self) -> (r: Option<Ident>)
        requires
            old(self).wf(),
        ensures
            final(self).wf(),
            old(self).same(*final(self)),
            match tok_at(old(self).toks(), old(self).ind as int).kind {
                Tk::Ident(n) => r matches Some(id) && id@ == (IdentV { name: n, span: tok_at(old(self).toks(), old(self).ind as int).span })
                    && final(self).ind == old(self).ind + 1,
                _ => r is None && final(self).ind == old(self).ind,
            },
    {
        let tok = self.peek();
        match &tok.kind {
            TokenKind::Ident(name) => {
                let span = tok.span;
                let name = (*name).to_owned();
                self.skip();
                Some(Ident { name, span })
            },
            _ => None,
        }
    }

    /// Consumes a number: its value and its span.
    pub fn consume_nb(&mut self) -> (r: Result<(u64, Span), Fail>)
        requires
            old(self).wf(),
        ensures
            final(self).wf(),
            old(self).same(*final(self)),
            agree(r, final(self).ind as int, nb_spec(old(self).toks(), old(self).source@, old(self).ind as int), |x: (u64, Span)| x),
            r is Err ==> final(self).ind == old(self).ind,
    {
        let tok = self.peek();
        match &tok.kind {
            TokenKind::Nb(nb) => {
                let nb = *nb;
                let span = tok.span;
                self.skip();
                Ok((nb, span))
            },
            _ => self.err_expected("number"),
        }
    }

    /// Consumes a number if there is one at the cursor.
    pub fn try_consume_nb(&mut self) -> (r: Option<(u64, Span)>)
        requires
            old(self).wf(),
        ensures
            final(self).wf(),
            old(self).same(*final(self)),
            match tok_at(old(self).toks(), old(self).ind as int).kind {
                Tk::Nb(n) => r == Some((n, tok_at(old(self).toks(), old(self).ind as int).span))
                    && final(self).ind == old(self).ind + 1,
                _ => r is None && final(self).ind == old(self).ind,
            },
    {
        let tok = self.peek();
        match &tok.kind {
            TokenKind::Nb(nb) => {
                let nb = *nb;
                let span = tok.span;
                self.skip();
                Some((nb, span))
            },
            _ => None,
        }
    }

    /// Consumes a string: its content and its span.
    pub fn consume_str(&mut self) -> (r: Result<(String, Span), Fail>)
        requires
            old(self).wf(),
        ensures
            final(self).wf(),
            old(self).same(*final(self)),
            agree(r, final(self).ind as int, str_spec(old(self).toks(), old(self).source@, old(self).ind as int), |x: (String, Span)| (x.0@, x.1)),
            r is Err ==> final(self).ind == old(self).ind,
    {
        let tok = self.peek();
        match &tok.kind {
            TokenKind::Str(s) => {
                let s = s.clone();
                let span = tok.span;
                self.skip();
                Ok((s, span))
            },
            _ => self.err_expected("string"),
        }
    }
}

} // verus!

verus! {

// ---------------------------------------------------------------------------
// Parsing
// ---------------------------------------------------------------------------

/// The error for a number out of the range of `nb_type`.
fn nb_out_of_range<T>(cur: &Cursor, nb_type: &str, span: Span) -> (r: Result<T, Fail>)
    ensures
        r matches Err(f) && same_fail(f, out_of_range::<T>(cur.source@, nb_type@, span)),
{
    match cur.source.try_source_of(span) {
        Some(x) => {
            let mut m = String::new();
            m.append("number (");
            m.append(x);
            m.append(") out of range for ");
            m.append(nb_type);
            proof {
                assert(m@ =~= "number ("@ + x@ + ") out of range for "@ + nb_type@);
            }
            Err(fail(m, span, cur.source))
        },
        None => Err(Fail::Halt),
    }
}

/// Fails for a number above `max`.
fn check_nb_range(cur: &Cursor, nb_type: &str, nb: u64, max: u64, span: Span) -> (r: Result<(), Fail>)
    ensures
        nb <= max ==> r is Ok,
        nb > max ==> (r matches Err(f) && same_fail(f, out_of_range::<()>(cur.source@, nb_type@, span))),
{
    if nb > max {
        nb_out_of_range(cur, nb_type, span)
    } else {
        Ok(())
    }
}

/// The number `nb`, negated if `is_neg`, as an `i64`.
fn into_i64(cur: &Cursor, nb_type: &str, nb: u64, is_neg: bool, span: Span) -> (r: Result<i64, Fail>)
    ensures
        match into_i64_spec(cur.source@, nb_type@, nb, is_neg, span) {
            Res::Done(v) => r == Ok::<i64, Fail>(v),
            other => r matches Err(f) && same_fail(f, other),
        },
{
    if is_neg && nb <= 0x8000_0000_0000_0000 {
        if nb == 0x8000_0000_0000_0000 {
            Ok(i64::MIN)
        } else {
            Ok(-(nb as i64))
        }
    } else if !is_neg && nb <= 0x7fff_ffff_ffff_ffff {
        Ok(nb as i64)
    } else {
        nb_out_of_range(cur, nb_type, span)
    }
}

/// The general purpose register named `ident`.
fn try_parse_gpr(ident: &str) -> (r: Option<Reg>)
    ensures
        r == gpr_of(ident@),
{
    if str_eq(ident, "r0") {
        Some(Reg::R0)
    } else if str_eq(ident, "r1") {
        Some(Reg::R1)
    } else if str_eq(ident, "r2") {
        Some(Reg::R2)
    } else if str_eq(ident, "r3") {
        Some(Reg::R3)
    } else if str_eq(ident, "r4") {
        Some(Reg::R4)
    } else if str_eq(ident, "r5") {
        Some(Reg::R5)
    } else if str_eq(ident, "r6") {
        Some(Reg::R6)
    } else if str_eq(ident, "r7") {
        Some(Reg::R7)
    } else if str_eq(ident, "r8") {
        Some(Reg::R8)
    } else if str_eq(ident, "r9") {
        Some(Reg::R9)
    } else if str_eq(ident, "r10") {
        Some(Reg::R10)
    } else if str_eq(ident, "r11") {
        Some(Reg::R11)
    } else if str_eq(ident, "r12") {
        Some(Reg::R12)
    } else if str_eq(ident, "r13") {
        Some(Reg::R13)
    } else if str_eq(ident, "r14") {
        Some(Reg::R14)
    } else if str_eq(ident, "r15") {
        Some(Reg::R15)
    } else if str_eq(ident, "r16") {
        Some(Reg::R16)
    } else if str_eq(ident, "r17") {
        Some(Reg::R17)
    } else if str_eq(ident, "r18") {
        Some(Reg::R18)
    } else if str_eq(ident, "r19") {
        Some(Reg::R19)
    } else if str_eq(ident, "r20") {
        Some(Reg::R20)
    } else if str_eq(ident, "r21") {
        Some(Reg::R21)
    } else if str_eq(ident, "r22") {
        Some(Reg::R22)
    } else if str_eq(ident, "r23") {
        Some(Reg::R23)
    } else if str_eq(ident, "r24") {
        Some(Reg::R24)
    } else if str_eq(ident, "r25") {
        Some(Reg::R25)
    } else if str_eq(ident, "r26") {
        Some(Reg::R26)
    } else if str_eq(ident, "r27") {
        Some(Reg::R27)
    } else if str_eq(ident, "r28") {
        Some(Reg::R28)
    } else if str_eq(ident, "r29") {
        Some(Reg::R29)
    } else if str_eq(ident, "r30") {
        Some(Reg::R30)
    } else if str_eq(ident, "r31") {
        Some(Reg::R31)
    } else {
        None
    }
}

proof fn lemma_eat_nl(t: Seq<TokV>, i: int)
    requires
        0 <= i,
    ensures
        i <= eat_nl(t, i),
        i <= t.len() ==> eat_nl(t, i) <= t.len(),
    decreases t.len() - i,
{
    if 0 <= i < t.len() && t[i].kind == Tk::NL {
        lemma_eat_nl(t, i + 1);
    }
}

/// Moves past the line feeds at the cursor.
fn eat_newlines(cur: &mut Cursor)
    requires
        old(cur).wf(),
    ensures
        final(cur).wf(),
        old(cur).same(*final(cur)),
        final(cur).ind == eat_nl(old(cur).toks(), old(cur).ind as int),
{
    let ghost t = cur.toks();
    let ghost i0 = cur.ind as int;
    let ghost c0 = *cur;
    while cur.try_eat(TokenKind::NL)
        invariant
            cur.wf(),
            c0.same(*cur),
            t == cur.toks(),
            eat_nl(t, cur.ind as int) == eat_nl(t, i0),
        decreases t.len() - cur.ind,
    {
    }
}

/// The signed immediate at the cursor: a sign, then a number; `None` where
/// there is no sign.
fn try_parse_simd(cur: &mut Cursor) -> (r: Result<Option<(SImd, Span)>, Fail>)
    requires
        old(cur).wf(),
    ensures
        final(cur).wf(),
        old(cur).same(*final(cur)),
        agree(r, final(cur).ind as int, simd_spec(old(cur).toks(), old(cur).source@, old(cur).ind as int),
            |x: Option<(SImd, Span)>| match x {
                Some((SImd::I64(v), sp)) => Some((v, sp)),
                _ => None,
            }),
        r matches Ok(Some((SImd::Label(_), _))) ==> false,
{
    let k = &cur.peek().kind;
    let is_minus = match k { TokenKind::Minus => true, _ => false };
    let is_plus = match k { TokenKind::Plus => true, _ => false };
    if !is_minus && !is_plus {
        return Ok(None);
    }
    let sign_span = cur.skip();
    let (nb, nb_span) = cur.consume_nb()?;
    let nb = into_i64(cur, "signed immediate", nb, is_minus, nb_span)?;
    Ok(Some((SImd::I64(nb), Span::join(sign_span, nb_span))))
}

} // verus!

verus! {

/// A constant as the specification sees it, if any.
pub open spec fn opt_const_view(x: Option<Const>) -> Option<ConstVal> {
    match x {
        Some(c) => Some(c@),
        None => None,
    }
}

/// `n` followed by ` constant`.
fn constant_name(n: &str) -> (r: String)
    ensures
        r@ == n@ + " constant"@,
{
    let mut what = n.to_owned();
    what.append(" constant");
    what
}

/// An unsigned number constant of type `n` (the identifier at the cursor).
fn match_u_nb(cur: &mut Cursor, n: &str) -> (r: Result<Option<Const>, Fail>)
    requires
        old(cur).wf(),
        is_u_const(n@),
        tok_at(old(cur).toks(), old(cur).ind as int).kind == Tk::Ident(n@),
    ensures
        final(cur).wf(),
        old(cur).same(*final(cur)),
        agree(r, final(cur).ind as int, u_const_spec(old(cur).toks(), old(cur).source@, old(cur).ind as int, n@), |x: Option<Const>| opt_const_view(x)),
        r is Ok ==> final(cur).ind > old(cur).ind,
{
    let start_span = cur.peek().span;
    cur.skip();
    let (nb, nb_span) = cur.consume_nb()?;
    let span = Span::join(start_span, nb_span);
    let what = constant_name(n);
    if str_eq(n, "u8") {
        if nb <= 0xff {
            return Ok(Some(Const { kind: ConstKind::U8(nb as u8), span }));
        }
    } else if str_eq(n, "u16") {
        if nb <= 0xffff {
            return Ok(Some(Const { kind: ConstKind::U16(nb as u16), span }));
        }
    } else if str_eq(n, "u32") {
        if nb <= 0xffff_ffff {
            return Ok(Some(Const { kind: ConstKind::U32(nb as u32), span }));
        }
    } else {
        return Ok(Some(Const { kind: ConstKind::U64(nb), span }));
    }
    nb_out_of_range(cur, what.as_str(), nb_span)
}

/// A signed number constant of type `n` (the identifier at the cursor).
fn match_i_nb(cur: &mut Cursor, n: &str) -> (r: Result<Option<Const>, Fail>)
    requires
        old(cur).wf(),
        is_i_const(n@),
        tok_at(old(cur).toks(), old(cur).ind as int).kind == Tk::Ident(n@),
    ensures
        final(cur).wf(),
        old(cur).same(*final(cur)),
        agree(r, final(cur).ind as int, i_const_spec(old(cur).toks(), old(cur).source@, old(cur).ind as int, n@), |x: Option<Const>| opt_const_view(x)),
        r is Ok ==> final(cur).ind > old(cur).ind,
{
    let start_span = cur.peek().span;
    cur.skip();
    let sign_span = cur.peek().span;
    let is_neg = cur.try_eat(TokenKind::Minus);
    if !is_neg {
        cur.try_eat(TokenKind::Plus);
    }
    let (nb, nb_span0) = cur.consume_nb()?;
    let nb_span = Span::join(sign_span, nb_span0);
    let what = constant_name(n);
    let v = into_i64(cur, what.as_str(), nb, is_neg, nb_span)?;
    let span = Span::join(start_span, nb_span);
    if str_eq(n, "i8") {
        if -0x80 <= v && v <= 0x7f {
            return Ok(Some(Const { kind: ConstKind::I8(v as i8), span }));
        }
    } else if str_eq(n, "i16") {
        if -0x8000 <= v && v <= 0x7fff {
            return Ok(Some(Const { kind: ConstKind::I16(v as i16), span }));
        }
    } else if str_eq(n, "i32") {
        if -0x8000_0000 <= v && v <= 0x7fff_ffff {
            return Ok(Some(Const { kind: ConstKind::I32(v as i32), span }));
        }
    } else {
        return Ok(Some(Const { kind: ConstKind::I64(v), span }));
    }
    nb_out_of_range(cur, what.as_str(), nb_span)
}

/// The failure in a result that always fails.
fn failure<T>(r: Result<T, Fail>) -> (f: Fail)
    requires
        r is Err,
    ensures
        r == Err::<T, Fail>(f),
{
    match r {
        Err(f) => f,
        Ok(_) => Fail::Halt,
    }
}

/// A byte array constant (its `bytes` is at the cursor).
fn parse_bytes(cur: &mut Cursor) -> (r: Result<Option<Const>, Fail>)
    requires
        old(cur).wf(),
        tok_at(old(cur).toks(), old(cur).ind as int).kind == Tk::Ident("bytes"@),
    ensures
        final(cur).wf(),
        old(cur).same(*final(cur)),
        agree(r, final(cur).ind as int, bytes_const_spec(old(cur).toks(), old(cur).source@, old(cur).ind as int), |x: Option<Const>| opt_const_view(x)),
        r is Ok ==> final(cur).ind > old(cur).ind,
{
    let ghost t = cur.toks();
    let ghost s = cur.source@;
    let ghost i = cur.ind as int;
    let ghost c0 = *cur;
    let start_span = cur.peek().span;
    cur.skip();
    let ghost total = bytes_spec(t, s, i + 1, Seq::empty());
    let mut bytes: Vec<u8> = Vec::new();
    let mut failed: Option<Fail> = None;
    loop
        invariant_except_break
            failed is None,
            bytes_spec(t, s, cur.ind as int, bytes@) == total,
            cur.ind > i,
        invariant
            cur.wf(),
            c0.same(*cur),
            t == cur.toks(),
            s == cur.source@,
        ensures
            failed matches Some(f) ==> same_fail(f, total),
            failed is None ==> total == Res::Done((bytes@, cur.ind as int)) && cur.ind > i,
        decreases t.len() - cur.ind,
    {
        let ghost j = cur.ind as int;
        eat_newlines(cur);
        proof {
            lemma_eat_nl(t, j);
        }
        match cur.consume_nb() {
            Ok((byte, span)) => {
                if byte > 0xff {
                    failed = Some(failure(nb_out_of_range::<()>(cur, "byte", span)));
                    break;
                }
                bytes.push(byte as u8);
                if !cur.try_eat(TokenKind::Comma) {
                    break;
                }
            },
            Err(f) => {
                failed = Some(f);
                break;
            },
        }
    }
    if let Some(f) = failed {
        return Err(f);
    }
    let span = Span::join(start_span, cur.last().span);
    Ok(Some(Const { kind: ConstKind::Bytes(bytes), span }))
}

/// The constant at the cursor, or `None` where no constant starts there.
fn try_parse_const(cur: &mut Cursor) -> (r: Result<Option<Const>, Fail>)
    requires
        old(cur).wf(),
    ensures
        final(cur).wf(),
        old(cur).same(*final(cur)),
        agree(r, final(cur).ind as int, const_spec(old(cur).toks(), old(cur).source@, old(cur).ind as int), |x: Option<Const>| opt_const_view(x)),
        r matches Ok(None) ==> final(cur).ind == old(cur).ind,
        r matches Ok(Some(_)) ==> final(cur).ind > old(cur).ind,
{
    reveal(const_spec);
    let tok = cur.peek();
    match &tok.kind {
        TokenKind::Ident(n) => {
            let n: &str = *n;
            if str_eq(n, "u8") || str_eq(n, "u16") || str_eq(n, "u32") || str_eq(n, "u64") {
                match_u_nb(cur, n)
            } else if str_eq(n, "i8") || str_eq(n, "i16") || str_eq(n, "i32") || str_eq(n, "i64") {
                match_i_nb(cur, n)
            } else if str_eq(n, "bytes") {
                parse_bytes(cur)
            } else if str_eq(n, "str") {
                let start_span = tok.span;
                cur.skip();
                let (s, span) = cur.consume_str()?;
                Ok(Some(Const { kind: ConstKind::Str(s), span: Span::join(start_span, span) }))
            } else {
                Ok(None)
            }
        },
        _ => Ok(None),
    }
}

} // verus!

verus! {

/// The error with message `pre`, the text of `span`, then `)`.
fn text_error<T>(cur: &Cursor, pre: &str, span: Span) -> (r: Result<T, Fail>)
    ensures
        r matches Err(f) && same_fail(f, text_err::<T>(cur.source@, pre@, span)),
{
    match cur.source.try_source_of(span) {
        Some(x) => {
            let mut m = String::new();
            m.append(pre);
            m.append(x);
            m.append(")");
            proof {
                assert(m@ =~= pre@ + x@ + ")"@);
            }
            Err(fail(m, span, cur.source))
        },
        None => Err(Fail::Halt),
    }
}

/// The logic immediate after `logic_imd` (the identifier `ident`).
fn parse_logic_imd(cur: &mut Cursor, ident: &Ident) -> (r: Result<Operand, Fail>)
    requires
        old(cur).wf(),
    ensures
        final(cur).wf(),
        old(cur).same(*final(cur)),
        agree(r, final(cur).ind as int, logic_imd_spec(old(cur).toks(), old(cur).source@, old(cur).ind as int, ident@), |x: Operand| x@),
        r is Ok ==> final(cur).ind > old(cur).ind,
{
    cur.consume(TokenKind::ParanOpen)?;
    let mut level: u64 = 64;
    let mut level_span = Span::none();
    let (mut ones, mut ones_span) = cur.consume_nb()?;
    cur.consume(TokenKind::Comma)?;
    let (mut rot, mut rot_span) = cur.consume_nb()?;
    if cur.try_eat(TokenKind::Comma) {
        level = ones;
        level_span = ones_span;
        ones = rot;
        ones_span = rot_span;
        let (r2, rs2) = cur.consume_nb()?;
        rot = r2;
        rot_span = rs2;
    }
    let end_span = cur.consume(TokenKind::ParanClose)?;
    if !(level == 2 || level == 4 || level == 8 || level == 16 || level == 32 || level == 64) {
        return text_error(cur, "invalid logic immediate level (", level_span);
    }
    if ones == 0 || ones > level {
        return text_error(cur, "invalid logic immediate one_len (", ones_span);
    }
    if rot >= level {
        return text_error(cur, "invalid logic immediate rot (", rot_span);
    }
    let kind = OperandKind::LogicImd { level: level as u8, ones: ones as u8, rot: rot as u8 };
    Ok(Operand { kind, span: Span::join(ident.span, end_span) })
}

/// The index part of an address after `base +` (or `base -`).
fn parse_index(cur: &mut Cursor, base: Reg, is_neg: bool, sign_span: Span) -> (r: Result<OperandKind, Fail>)
    requires
        old(cur).wf(),
    ensures
        final(cur).wf(),
        old(cur).same(*final(cur)),
        agree(r, final(cur).ind as int, index_spec(old(cur).toks(), old(cur).source@, old(cur).ind as int, base, is_neg, sign_span), |x: OperandKind| x@),
        r is Ok ==> final(cur).ind > old(cur).ind,
{
    if let Some(ident) = cur.try_consume_ident() {
        if is_neg {
            return unexpected_token("(-)", "(+)", sign_span, cur.source);
        }
        let index = match try_parse_gpr(ident.name.as_str()) {
            Some(r) => r,
            None => {
                return unexpected_token(ident.name.as_str(), "register", ident.span, cur.source);
            },
        };
        if let Some(id2) = cur.try_consume_ident() {
            if !str_eq(id2.name.as_str(), "shl") {
                return unexpected_token(id2.name.as_str(), "\"shl\"", id2.span, cur.source);
            }
            let (amount, amount_span) = cur.consume_nb()?;
            check_nb_range(cur, "shift amount", amount, 63, amount_span)?;
            Ok(OperandKind::BaseIndex { base, index, shift: amount as u8, shift_span: amount_span })
        } else {
            Ok(OperandKind::BaseIndex { base, index, shift: 0, shift_span: Span::none() })
        }
    } else {
        let writeback = cur.try_eat(TokenKind::Eq);
        let (offset, offset_span) = cur.consume_nb()?;
        let offset = into_i64(cur, "offset", offset, is_neg, sign_span)?;
        Ok(OperandKind::BaseOffset { base, offset, offset_span, writeback })
    }
}

/// The address inside brackets.
fn parse_address(cur: &mut Cursor) -> (r: Result<OperandKind, Fail>)
    requires
        old(cur).wf(),
    ensures
        final(cur).wf(),
        old(cur).same(*final(cur)),
        agree(r, final(cur).ind as int, address_spec(old(cur).toks(), old(cur).source@, old(cur).ind as int), |x: OperandKind| x@),
        r is Ok ==> final(cur).ind > old(cur).ind,
{
    if let Some((nb, _)) = try_parse_simd(cur)? {
        return Ok(OperandKind::Offset(nb));
    }
    let ident = cur.consume_ident()?;
    let base = match try_parse_gpr(ident.name.as_str()) {
        Some(b) => b,
        None => {
            return Ok(OperandKind::Offset(SImd::Label(ident)));
        },
    };
    let k = &cur.peek().kind;
    let is_minus = match k { TokenKind::Minus => true, _ => false };
    let is_plus = match k { TokenKind::Plus => true, _ => false };
    if !is_minus && !is_plus {
        return Ok(OperandKind::BaseIndex { base, index: Reg::R0, shift: 0, shift_span: Span::none() });
    }
    let sign_span = cur.skip();
    parse_index(cur, base, is_minus, sign_span)
}

/// The operand that starts with the register `reg` (the identifier
/// `ident`): maybe shifted.
fn parse_reg_operand(cur: &mut Cursor, ident: Ident, reg: Reg) -> (r: Result<Operand, Fail>)
    requires
        old(cur).wf(),
    ensures
        final(cur).wf(),
        old(cur).same(*final(cur)),
        agree(r, final(cur).ind as int, reg_operand_spec(old(cur).toks(), old(cur).source@, old(cur).ind as int, ident@, reg), |x: Operand| x@),
        r is Ok ==> final(cur).ind >= old(cur).ind,
{
    if let Some(sh_ident) = cur.try_consume_ident() {
        let (amount, amount_span) = cur.consume_nb()?;
        check_nb_range(cur, "shift amount", amount, 63, amount_span)?;
        let a = amount as u8;
        let sh = sh_ident.name.as_str();
        let shift = if str_eq(sh, "shl") {
            Shift::SHL(a)
        } else if str_eq(sh, "shr") {
            Shift::SHR(a)
        } else if str_eq(sh, "sar") {
            Shift::SAR(a)
        } else if str_eq(sh, "rol") {
            Shift::ROL(a)
        } else {
            return unexpected_token(sh, "shift operator", sh_ident.span, cur.source);
        };
        Ok(Operand { span: Span::join(ident.span, amount_span), kind: OperandKind::ShReg(reg, shift) })
    } else {
        Ok(Operand { span: ident.span, kind: OperandKind::GPR(reg) })
    }
}

/// The operand at the cursor.
fn parse_operand(cur: &mut Cursor) -> (r: Result<Operand, Fail>)
    requires
        old(cur).wf(),
    ensures
        final(cur).wf(),
        old(cur).same(*final(cur)),
        agree(r, final(cur).ind as int, operand_spec(old(cur).toks(), old(cur).source@, old(cur).ind as int), |x: Operand| x@),
        r is Ok ==> final(cur).ind > old(cur).ind,
{
    reveal(operand_spec);
    if let Some(ident) = cur.try_consume_ident() {
        if str_eq(ident.name.as_str(), "logic_imd") {
            return parse_logic_imd(cur, &ident);
        }
        if str_eq(ident.name.as_str(), "c0") {
            return Ok(Operand { span: ident.span, kind: OperandKind::C0(Reg::C0) });
        }
        if str_eq(ident.name.as_str(), "pc") {
            return Ok(Operand { span: ident.span, kind: OperandKind::PC(Reg::PC) });
        }
        match try_parse_gpr(ident.name.as_str()) {
            Some(reg) => parse_reg_operand(cur, ident, reg),
            None => {
                let span = ident.span;
                Ok(Operand { span, kind: OperandKind::SImd(SImd::Label(ident)) })
            },
        }
    } else if let Some((nb, span)) = cur.try_consume_nb() {
        Ok(Operand { span, kind: OperandKind::UImd(nb) })
    } else if let Some((nb, span)) = try_parse_simd(cur)? {
        Ok(Operand { span, kind: OperandKind::SImd(nb) })
    } else if let Some(start_span) = cur.try_consume(TokenKind::BracketOpen) {
        let kind = parse_address(cur)?;
        let end_span = cur.consume(TokenKind::BracketClose)?;
        Ok(Operand { span: Span::join(start_span, end_span), kind })
    } else {
        cur.err_expected("operand")
    }
}

} // verus!

verus! {

/// The rest of the mnemonic `m0`: `.` then an identifier or a number, any
/// number of times.
fn parse_mnemonic(cur: &mut Cursor, m0: Ident) -> (r: Result<Ident, Fail>)
    requires
        old(cur).wf(),
    ensures
        final(cur).wf(),
        old(cur).same(*final(cur)),
        agree(r, final(cur).ind as int, mnemonic_spec(old(cur).toks(), old(cur).source@, old(cur).ind as int, m0@), |x: Ident| x@),
        r is Ok ==> final(cur).ind >= old(cur).ind,
{
    let ghost t = cur.toks();
    let ghost s = cur.source@;
    let ghost i0 = cur.ind as int;
    let ghost c0 = *cur;
    let ghost total = mnemonic_spec(t, s, i0, m0@);
    let mut m = m0;
    let mut failed: Option<Fail> = None;
    loop
        invariant_except_break
            failed is None,
            mnemonic_spec(t, s, cur.ind as int, m@) == total,
            cur.ind >= i0,
        invariant
            cur.wf(),
            c0.same(*cur),
            t == cur.toks(),
            s == cur.source@,
        ensures
            failed matches Some(f) ==> same_fail(f, total),
            failed is None ==> total == Res::Done((m@, cur.ind as int)) && cur.ind >= i0,
        decreases t.len() - cur.ind,
    {
        if !cur.try_eat(TokenKind::Dot) {
            break;
        }
        let tok = cur.peek();
        let span = tok.span;
        match &tok.kind {
            TokenKind::Nb(_) => match cur.source.try_source_of(span) {
                Some(x) => {
                    m.name.append(".");
                    m.name.append(x);
                    m.span = Span::join(m.span, span);
                    cur.skip();
                },
                None => {
                    failed = Some(Fail::Halt);
                    break;
                },
            },
            TokenKind::Ident(n) => {
                let n: &str = *n;
                m.name.append(".");
                m.name.append(n);
                m.span = Span::join(m.span, span);
                cur.skip();
            },
            _ => {
                failed = Some(failure(cur.err_expected::<()>("identifier")));
                break;
            },
        }
    }
    if let Some(f) = failed {
        return Err(f);
    }
    Ok(m)
}

/// The operands at the cursor: separated by commas.
fn parse_operands(cur: &mut Cursor) -> (r: Result<Vec<Operand>, Fail>)
    requires
        old(cur).wf(),
    ensures
        final(cur).wf(),
        old(cur).same(*final(cur)),
        agree(r, final(cur).ind as int, operands_spec(old(cur).toks(), old(cur).source@, old(cur).ind as int, Seq::empty()), |x: Vec<Operand>| ops_view(x@)),
        r matches Ok(v) ==> v@.len() > 0 && final(cur).ind > old(cur).ind,
{
    let ghost t = cur.toks();
    let ghost s = cur.source@;
    let ghost i0 = cur.ind as int;
    let ghost c0 = *cur;
    let ghost total = operands_spec(t, s, i0, Seq::empty());
    let mut ops: Vec<Operand> = Vec::new();
    let mut failed: Option<Fail> = None;
    proof {
        assert(ops_view(ops@) =~= Seq::<OperandV>::empty());
    }
    loop
        invariant_except_break
            failed is None,
            operands_spec(t, s, cur.ind as int, ops_view(ops@)) == total,
            cur.ind >= i0,
        invariant
            cur.wf(),
            c0.same(*cur),
            t == cur.toks(),
            s == cur.source@,
        ensures
            failed matches Some(f) ==> same_fail(f, total),
            failed is None ==> total == Res::Done((ops_view(ops@), cur.ind as int)) && cur.ind > i0
                && ops@.len() > 0,
        decreases t.len() - cur.ind,
    {
        let ghost j = cur.ind as int;
        let ghost before = ops_view(ops@);
        match parse_operand(cur) {
            Ok(op) => {
                ops.push(op);
                proof {
                    assert(ops_view(ops@) =~= before.push(op@));
                }
                if !cur.try_eat(TokenKind::Comma) {
                    break;
                }
            },
            Err(f) => {
                failed = Some(f);
                break;
            },
        }
    }
    if let Some(f) = failed {
        return Err(f);
    }
    Ok(ops)
}

/// The instruction at the cursor: its mnemonic, then its operands unless
/// the line (or the input) ends there.
fn parse_inst(cur: &mut Cursor) -> (r: Result<Inst, Fail>)
    requires
        old(cur).wf(),
    ensures
        final(cur).wf(),
        old(cur).same(*final(cur)),
        agree(r, final(cur).ind as int, inst_spec(old(cur).toks(), old(cur).source@, old(cur).ind as int), |x: Inst| x@),
        r is Ok ==> final(cur).ind > old(cur).ind,
{
    reveal(inst_spec);
    let m0 = cur.consume_ident()?;
    let mnemonic = parse_mnemonic(cur, m0)?;
    if cur.test(TokenKind::NL) || cur.is_end() {
        let span = mnemonic.span;
        let operands: Vec<Operand> = Vec::new();
        proof {
            assert(ops_view(operands@) =~= Seq::<OperandV>::empty());
        }
        return Ok(Inst { mnemonic, operands, span });
    }
    let operands = parse_operands(cur)?;
    let span = Span::join(mnemonic.span, operands[operands.len() - 1].span);
    Ok(Inst { mnemonic, operands, span })
}

/// The label that starts the line at the cursor, if there is one.
fn parse_label(cur: &mut Cursor) -> (r: Result<Option<Ident>, Fail>)
    requires
        old(cur).wf(),
    ensures
        final(cur).wf(),
        old(cur).same(*final(cur)),
        agree(r, final(cur).ind as int, label_spec(old(cur).toks(), old(cur).source@, old(cur).ind as int), |x: Option<Ident>| match x {
            Some(l) => Some(l@),
            None => None,
        }),
        r is Ok ==> final(cur).ind >= old(cur).ind,
{
    reveal(label_spec);
    if same_kind(&cur.peek_next().kind, &TokenKind::Colon) {
        let label = cur.consume_ident()?;
        cur.consume(TokenKind::Colon)?;
        let ghost j = cur.ind as int;
        eat_newlines(cur);
        proof {
            lemma_eat_nl(cur.toks(), j);
        }
        Ok(Some(label))
    } else {
        Ok(None)
    }
}

/// The line at the cursor: a label maybe, then a constant or an
/// instruction.
fn parse_line(cur: &mut Cursor) -> (r: Result<AsmLine, Fail>)
    requires
        old(cur).wf(),
    ensures
        final(cur).wf(),
        old(cur).same(*final(cur)),
        agree(r, final(cur).ind as int, line_spec(old(cur).toks(), old(cur).source@, old(cur).ind as int), |x: AsmLine| x@),
        r is Ok ==> final(cur).ind >= old(cur).ind,
{
    let label = parse_label(cur)?;
    let kind = match try_parse_const(cur)? {
        Some(c) => AsmLineKind::Const(c),
        None => AsmLineKind::Inst(parse_inst(cur)?),
    };
    Ok(AsmLine { label, kind, pad: 0 })
}

} // verus!

verus! {

proof fn lemma_lex_ends(b: Seq<u8>, path: Seq<char>, lp: Seq<u32>, i: int, toks: Seq<TokV>)
    ensures
        lex(b, path, lp, i, toks) matches Res::Done((t, _)) ==> t.len() > 0 && t.last().kind == Tk::Eof,
    decreases b.len() - i,
{
    if 0 <= i < b.len() {
        match lex_step(b, path, lp, i) {
            Lx::Tok(tv, j, lp2) => {
                if i < j <= b.len() {
                    lemma_lex_ends(b, path, lp2, j, toks.push(tv));
                }
            },
            Lx::Skip(j, lp2) => {
                if i < j <= b.len() {
                    lemma_lex_ends(b, path, lp2, j, toks);
                }
            },
            _ => {},
        }
    }
}

/// The lines of a program: its tokens (the line feeds found are added to
/// the source's list), then its lines, separated by line feeds.
pub fn parse(source: &mut Source) -> (r: Result<Vec<AsmLine>, Fail>)
    requires
        fits_spans(old(source).bytes()),
    ensures
        final(source).src == old(source).src,
        final(source).path == old(source).path,
        match parse_spec(old(source).bytes(), old(source).path@, old(source).line_poses@) {
            Res::Done((lines, lp)) => r matches Ok(v) && lines_view(v@) == lines
                && final(source).line_poses@ == lp,
            other => r matches Err(f) && same_fail(f, other),
        },
{
    proof {
        lemma_lex_ends(source.bytes(), source.path@, source.line_poses@, 0, Seq::empty());
    }
    let tokens = tokenize(source)?;
    let src_ref: &Source = source;
    let mut cur = Cursor::new(tokens.as_slice(), src_ref);
    eat_newlines(&mut cur);
    let ghost t = cur.toks();
    let ghost s = cur.source@;
    let ghost c0 = cur;
    let ghost total = lines_spec(t, s, cur.ind as int, Seq::empty());
    let mut lines: Vec<AsmLine> = Vec::new();
    let mut failed: Option<Fail> = None;
    proof {
        assert(lines_view(lines@) =~= Seq::<LineV>::empty());
    }
    loop
        invariant_except_break
            failed is None,
            lines_spec(t, s, cur.ind as int, lines_view(lines@)) == total,
        invariant
            cur.wf(),
            c0.same(cur),
            t == cur.toks(),
            s == cur.source@,
        ensures
            failed matches Some(f) ==> same_fail(f, total),
            failed is None ==> total == Res::Done(lines_view(lines@)),
        decreases t.len() - cur.ind,
    {
        if cur.is_end() {
            break;
        }
        let ghost i = cur.ind as int;
        let ghost before = lines_view(lines@);
        match parse_line(&mut cur) {
            Ok(line) => {
                lines.push(line);
                proof {
                    assert(lines_view(lines@) =~= before.push(line@));
                }
                if cur.is_end() {
                    break;
                }
                match cur.consume(TokenKind::NL) {
                    Ok(_) => {},
                    Err(f) => {
                        failed = Some(f);
                        break;
                    },
                }
                let ghost j2 = cur.ind as int;
                eat_newlines(&mut cur);
                proof {
                    lemma_eat_nl(t, j2);
                }
            },
            Err(f) => {
                failed = Some(f);
                break;
            },
        }
    }
    if let Some(f) = failed {
        return Err(f);
    }
    Ok(lines)
}

} // verus!

verus! {

/// Only the names `r0` to `r31` read as general purpose registers, each as
/// the register of that name (so `pc`, `c0`, `r32`, `r01` or `R1` read as
/// none).
pub proof fn law_gpr_names(n: Seq<char>)
    ensures
        gpr_of(n) matches Some(r) ==> r != Reg::PC && r != Reg::C0 && n == reg_name(r),
{
}

/// The name of each general purpose register reads back as that register.
pub proof fn law_register_names(r: Reg)
    requires
        r != Reg::PC,
        r != Reg::C0,
    ensures
        gpr_of(reg_name(r)) == Some(r),
{
    reveal_strlit("r0");
    assert("r0"@ =~= seq!['r', '0']);
    reveal_strlit("r1");
    assert("r1"@ =~= seq!['r', '1']);
    reveal_strlit("r2");
    assert("r2"@ =~= seq!['r', '2']);
    reveal_strlit("r3");
    assert("r3"@ =~= seq!['r', '3']);
    reveal_strlit("r4");
    assert("r4"@ =~= seq!['r', '4']);
    reveal_strlit("r5");
    assert("r5"@ =~= seq!['r', '5']);
    reveal_strlit("r6");
    assert("r6"@ =~= seq!['r', '6']);
    reveal_strlit("r7");
    assert("r7"@ =~= seq!['r', '7']);
    reveal_strlit("r8");
    assert("r8"@ =~= seq!['r', '8']);
    reveal_strlit("r9");
    assert("r9"@ =~= seq!['r', '9']);
    reveal_strlit("r10");
    assert("r10"@ =~= seq!['r', '1', '0']);
    reveal_strlit("r11");
    assert("r11"@ =~= seq!['r', '1', '1']);
    reveal_strlit("r12");
    assert("r12"@ =~= seq!['r', '1', '2']);
    reveal_strlit("r13");
    assert("r13"@ =~= seq!['r', '1', '3']);
    reveal_strlit("r14");
    assert("r14"@ =~= seq!['r', '1', '4']);
    reveal_strlit("r15");
    assert("r15"@ =~= seq!['r', '1', '5']);
    reveal_strlit("r16");
    assert("r16"@ =~= seq!['r', '1', '6']);
    reveal_strlit("r17");
    assert("r17"@ =~= seq!['r', '1', '7']);
    reveal_strlit("r18");
    assert("r18"@ =~= seq!['r', '1', '8']);
    reveal_strlit("r19");
    assert("r19"@ =~= seq!['r', '1', '9']);
    reveal_strlit("r20");
    assert("r20"@ =~= seq!['r', '2', '0']);
    reveal_strlit("r21");
    assert("r21"@ =~= seq!['r', '2', '1']);
    reveal_strlit("r22");
    assert("r22"@ =~= seq!['r', '2', '2']);
    reveal_strlit("r23");
    assert("r23"@ =~= seq!['r', '2', '3']);
    reveal_strlit("r24");
    assert("r24"@ =~= seq!['r', '2', '4']);
    reveal_strlit("r25");
    assert("r25"@ =~= seq!['r', '2', '5']);
    reveal_strlit("r26");
    assert("r26"@ =~= seq!['r', '2', '6']);
    reveal_strlit("r27");
    assert("r27"@ =~= seq!['r', '2', '7']);
    reveal_strlit("r28");
    assert("r28"@ =~= seq!['r', '2', '8']);
    reveal_strlit("r29");
    assert("r29"@ =~= seq!['r', '2', '9']);
    reveal_strlit("r30");
    assert("r30"@ =~= seq!['r', '3', '0']);
    reveal_strlit("r31");
    assert("r31"@ =~= seq!['r', '3', '1']);
}

/// A name reads as a register exactly where it is the name of that general
/// purpose register: `r` then a number from 0 to 31 written without leading
/// zeros.
pub proof fn law_gpr_iff(n: Seq<char>, r: Reg)
    ensures
        gpr_of(n) == Some(r) <==> (r != Reg::PC && r != Reg::C0 && n == reg_name(r)),
{
    law_gpr_names(n);
    if r != Reg::PC && r != Reg::C0 {
        law_register_names(r);
    }
}

} // verus!

verus! {

/// Each shift operator has its own meaning: `shl` a logical left shift,
/// `shr` a logical right shift, `sar` an arithmetic right shift and `rol` a
/// left rotation, by the given amount; no other name is a shift.
pub proof fn law_shift_names(n: Seq<char>, amount: u8)
    ensures
        shift_of("shl"@, amount) == Some(Shift::SHL(amount)),
        shift_of("shr"@, amount) == Some(Shift::SHR(amount)),
        shift_of("sar"@, amount) == Some(Shift::SAR(amount)),
        shift_of("rol"@, amount) == Some(Shift::ROL(amount)),
        shift_of(n, amount) is Some ==> n == "shl"@ || n == "shr"@ || n == "sar"@ || n == "rol"@,
{
    reveal_strlit("shl");
    reveal_strlit("shr");
    reveal_strlit("sar");
    reveal_strlit("rol");
    assert("shl"@ =~= seq!['s', 'h', 'l']);
    assert("shr"@ =~= seq!['s', 'h', 'r']);
    assert("sar"@ =~= seq!['s', 'a', 'r']);
    assert("rol"@ =~= seq!['r', 'o', 'l']);
}

/// A register followed by a shift operator and an amount of at most 63 is
/// that register shifted: `r shr n` is a logical right shift by `n`, and so
/// on for `shl`, `sar` and `rol`; the operand spans from the register to
/// the amount.
pub proof fn law_shifted_register(t: Seq<TokV>, s: SrcV, j: int, id: IdentV, reg: Reg)
    requires
        tok_at(t, j).kind is Ident,
        tok_at(t, j + 1).kind is Nb,
        tok_at(t, j + 1).kind->Nb_0 <= 63,
    ensures
        ({
            let nm = tok_at(t, j).kind->Ident_0;
            let a = tok_at(t, j + 1).kind->Nb_0 as u8;
            let sp = Span(id.span.0, tok_at(t, j + 1).span.1);
            &&& nm == "shl"@ ==> reg_operand_spec(t, s, j, id, reg) == Res::Done(
                (OperandV { kind: OpKindV::ShReg(reg, Shift::SHL(a)), span: sp }, j + 2),
            )
            &&& nm == "shr"@ ==> reg_operand_spec(t, s, j, id, reg) == Res::Done(
                (OperandV { kind: OpKindV::ShReg(reg, Shift::SHR(a)), span: sp }, j + 2),
            )
            &&& nm == "sar"@ ==> reg_operand_spec(t, s, j, id, reg) == Res::Done(
                (OperandV { kind: OpKindV::ShReg(reg, Shift::SAR(a)), span: sp }, j + 2),
            )
            &&& nm == "rol"@ ==> reg_operand_spec(t, s, j, id, reg) == Res::Done(
                (OperandV { kind: OpKindV::ShReg(reg, Shift::ROL(a)), span: sp }, j + 2),
            )
        }),
{
    let nm = tok_at(t, j).kind->Ident_0;
    let a = tok_at(t, j + 1).kind->Nb_0 as u8;
    law_shift_names(nm, a);
}

} // verus!
