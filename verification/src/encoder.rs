use vstd::prelude::*;
use vstd::arithmetic::power2::*;
use crate::tokenizer::{Source, SrcV, Span, span_text};
use crate::parser::{Reg, Shift, AsmLine, AsmLineKind, Const, ConstKind, LineV, LineKindV, ConstV, ConstVal, IdentV, lines_view};
use crate::inst_encoder::{encode_inst, spec_encode_inst, resolve_label_spec};
use vstd::utf8::*;
use vstd::string::*;
use crate::utils::{str_eq, bit_insert, dec, fail, fail_is, mk_err, Fail, Res, push_dec, same_fail};

verus! {

/// The 5-bit code of a register (`pc` and `c0` share the code of `r0`).
pub open spec fn reg_code_spec(r: Reg) -> int {
    match r {
        Reg::R0 => 0,
        Reg::R1 => 1,
        Reg::R2 => 2,
        Reg::R3 => 3,
        Reg::R4 => 4,
        Reg::R5 => 5,
        Reg::R6 => 6,
        Reg::R7 => 7,
        Reg::R8 => 8,
        Reg::R9 => 9,
        Reg::R10 => 10,
        Reg::R11 => 11,
        Reg::R12 => 12,
        Reg::R13 => 13,
        Reg::R14 => 14,
        Reg::R15 => 15,
        Reg::R16 => 16,
        Reg::R17 => 17,
        Reg::R18 => 18,
        Reg::R19 => 19,
        Reg::R20 => 20,
        Reg::R21 => 21,
        Reg::R22 => 22,
        Reg::R23 => 23,
        Reg::R24 => 24,
        Reg::R25 => 25,
        Reg::R26 => 26,
        Reg::R27 => 27,
        Reg::R28 => 28,
        Reg::R29 => 29,
        Reg::R30 => 30,
        Reg::R31 => 31,
        Reg::PC => 0,
        Reg::C0 => 0,
    }
}

pub fn reg_code(reg: Reg) -> (r: u8)
    ensures
        r == reg_code_spec(reg),
        r < 32,
{
    match reg {
        Reg::R0 => 0,
        Reg::R1 => 1,
        Reg::R2 => 2,
        Reg::R3 => 3,
        Reg::R4 => 4,
        Reg::R5 => 5,
        Reg::R6 => 6,
        Reg::R7 => 7,
        Reg::R8 => 8,
        Reg::R9 => 9,
        Reg::R10 => 10,
        Reg::R11 => 11,
        Reg::R12 => 12,
        Reg::R13 => 13,
        Reg::R14 => 14,
        Reg::R15 => 15,
        Reg::R16 => 16,
        Reg::R17 => 17,
        Reg::R18 => 18,
        Reg::R19 => 19,
        Reg::R20 => 20,
        Reg::R21 => 21,
        Reg::R22 => 22,
        Reg::R23 => 23,
        Reg::R24 => 24,
        Reg::R25 => 25,
        Reg::R26 => 26,
        Reg::R27 => 27,
        Reg::R28 => 28,
        Reg::R29 => 29,
        Reg::R30 => 30,
        Reg::R31 => 31,
        Reg::PC => 0,
        Reg::C0 => 0,
    }
}

// ---------------------------------------------------------------------------
// Instruction words as lists of fields
// ---------------------------------------------------------------------------

/// Total width of a list of fields `(value, width)`.
pub open spec fn flen(fs: Seq<(int, nat)>) -> nat
    decreases fs.len(),
{
    if fs.len() == 0 {
        0
    } else {
        flen(fs.drop_last()) + fs.last().1
    }
}

/// The word holding the fields one after the other from bit 0 up; each field
/// holds its value modulo 2 to the power of its width (two's complement for
/// negative values).
pub open spec fn pack(fs: Seq<(int, nat)>) -> int
    decreases fs.len(),
{
    if fs.len() == 0 {
        0
    } else {
        pack(fs.drop_last()) + (fs.last().0 % pow2(fs.last().1) as int) * pow2(
            flen(fs.drop_last()),
        )
    }
}

proof fn lemma_pack_push(fs: Seq<(int, nat)>, f: (int, nat))
    ensures
        flen(fs.push(f)) == flen(fs) + f.1,
        pack(fs.push(f)) == pack(fs) + (f.0 % pow2(f.1) as int) * pow2(flen(fs)),
{
    assert(fs.push(f).drop_last() =~= fs);
}

/// A builder of an instruction word: the word so far, the number of bits
/// placed, and the fields placed.
pub struct InstBuilder<'a> {
    pub inst: u32,
    pub index: u8,
    pub source: &'a Source<'a>,
    pub fields: Ghost<Seq<(int, nat)>>,
}

impl<'a> InstBuilder<'a> {
    /// The word holds the fields placed, which fill `index` bits.
    pub open spec fn wf(&self) -> bool {
        &&& self.index == flen(self.fields@)
        &&& self.index <= 32
        &&& self.inst == pack(self.fields@)
    }

    pub fn new(source: &'a Source<'a>) -> (r: Self)
        ensures
            r.wf(),
            r.fields@ == Seq::<(int, nat)>::empty(),
            r.source == source,
    {
        InstBuilder { inst: 0, index: 0, source, fields: Ghost(Seq::empty()) }
    }

    /// The word, once all 32 bits are placed.
    pub fn finish(self) -> (r: u32)
        requires
            self.wf(),
            self.index == 32,
        ensures
            r == pack(self.fields@),
    {
        self.inst
    }

    /// Places the low `len` bits of `value` as the next field.
    pub fn b(self, value: u32, len: u8) -> (r: Self)
        requires
            self.wf(),
            len < 32,
            self.index < 32,
            self.index + len <= 32,
        ensures
            r.wf(),
            r.fields@ == self.fields@.push((value as int, len as nat)),
            r.source == self.source,
            r.index == self.index + len,
    {
        proof {
            lemma_pack_push(self.fields@, (value as int, len as nat));
            lemma_pack_bound(self.fields@);
        }
        let inst = bit_insert(self.inst, value, self.index, len);
        InstBuilder {
            inst,
            index: self.index + len,
            source: self.source,
            fields: Ghost(self.fields@.push((value as int, len as nat))),
        }
    }

    pub fn b1(self, value: u8) -> (r: Self)
        requires
            self.wf(),
            self.index + 1 <= 32,
        ensures
            r.wf(),
            r.fields@ == self.fields@.push((value as int, 1nat)),
            r.source == self.source,
            r.index == self.index + 1,
    {
        self.b(value as u32, 1)
    }

    pub fn b2(self, value: u8) -> (r: Self)
        requires
            self.wf(),
            self.index + 2 <= 32,
        ensures
            r.wf(),
            r.fields@ == self.fields@.push((value as int, 2nat)),
            r.source == self.source,
            r.index == self.index + 2,
    {
        self.b(value as u32, 2)
    }

    pub fn b3(self, value: u8) -> (r: Self)
        requires
            self.wf(),
            self.index + 3 <= 32,
        ensures
            r.wf(),
            r.fields@ == self.fields@.push((value as int, 3nat)),
            r.source == self.source,
            r.index == self.index + 3,
    {
        self.b(value as u32, 3)
    }

    pub fn b4(self, value: u8) -> (r: Self)
        requires
            self.wf(),
            self.index + 4 <= 32,
        ensures
            r.wf(),
            r.fields@ == self.fields@.push((value as int, 4nat)),
            r.source == self.source,
            r.index == self.index + 4,
    {
        self.b(value as u32, 4)
    }

    pub fn b5(self, value: u8) -> (r: Self)
        requires
            self.wf(),
            self.index + 5 <= 32,
        ensures
            r.wf(),
            r.fields@ == self.fields@.push((value as int, 5nat)),
            r.source == self.source,
            r.index == self.index + 5,
    {
        self.b(value as u32, 5)
    }

    pub fn b6(self, value: u8) -> (r: Self)
        requires
            self.wf(),
            self.index + 6 <= 32,
        ensures
            r.wf(),
            r.fields@ == self.fields@.push((value as int, 6nat)),
            r.source == self.source,
            r.index == self.index + 6,
    {
        self.b(value as u32, 6)
    }

    pub fn b8(self, value: u8) -> (r: Self)
        requires
            self.wf(),
            self.index + 8 <= 32,
        ensures
            r.wf(),
            r.fields@ == self.fields@.push((value as int, 8nat)),
            r.source == self.source,
            r.index == self.index + 8,
    {
        self.b(value as u32, 8)
    }

    /// A register field.
    pub fn gpr(self, reg: Reg) -> (r: Self)
        requires
            self.wf(),
            self.index + 5 <= 32,
        ensures
            r.wf(),
            r.fields@ == self.fields@.push((reg_code_spec(reg), 5nat)),
            r.source == self.source,
            r.index == self.index + 5,
    {
        self.b(reg_code(reg) as u32, 5)
    }
}

proof fn lemma_pack_bound(fs: Seq<(int, nat)>)
    ensures
        0 <= pack(fs) < pow2(flen(fs)),
    decreases fs.len(),
{
    if fs.len() == 0 {
        lemma2_to64();
    } else {
        let d = fs.drop_last();
        let (v, l) = fs.last();
        lemma_pack_bound(d);
        lemma_pow2_pos(l);
        lemma_pow2_pos(flen(d));
        lemma_pow2_adds(flen(d), l);
        let x = v % pow2(l) as int;
        let p = pack(d);
        let pd = pow2(flen(d)) as int;
        let pl = pow2(l) as int;
        assert(0 <= x < pl);
        assert(p + x * pd < pd * pl) by (nonlinear_arith)
            requires
                0 <= p < pd,
                0 <= x < pl,
        ;
        assert(0 <= x * pd) by (nonlinear_arith)
            requires
                0 <= x,
                0 <= pd,
        ;
    }
}

// ---------------------------------------------------------------------------
// Instruction formats: fields as the encoding tables give them
// ---------------------------------------------------------------------------

/// One field of an instruction format. Each gives one `(value, width)`
/// field of the word, or an error.
pub enum SField {
    /// A fixed value.
    Raw(int, nat),
    /// A general purpose register.
    Gpr(Reg),
    /// A condition register: `c0` or any register but `r0`.
    Cond(Reg, Span),
    /// `pc` or any register but `r0`.
    GprPc(Reg, Span),
    /// An unsigned immediate of the given width.
    UImd(int, nat, Span),
    /// A signed immediate of the given width.
    SImd(int, nat, Span),
    /// A 9-bit signed immediate whose sign bit is placed elsewhere: its low
    /// 8 bits.
    S9(int, Span),
    /// A signed immediate of the given width holding an offset divided by 2
    /// to the power of the scale.
    Scaled(int, nat, nat, Span),
    /// The scale bit of an index register: shift 0, or the given shift.
    IndSh(int, nat, Span),
    /// The kind of a shift.
    ShK(Shift),
    /// The amount of a shift.
    ShA(Shift),
    /// The level bit of a logic immediate.
    L0(u8),
    /// The level and length field of a logic immediate.
    LOnes(u8, u8),
}

pub open spec fn shift_kind(sh: Shift) -> int {
    match sh {
        Shift::SHL(_) => 0,
        Shift::SHR(_) => 1,
        Shift::SAR(_) => 2,
        Shift::ROL(_) => 3,
    }
}

pub open spec fn shift_amount(sh: Shift) -> int {
    match sh {
        Shift::SHL(a) => a as int,
        Shift::SHR(a) => a as int,
        Shift::SAR(a) => a as int,
        Shift::ROL(a) => a as int,
    }
}

/// The levels a logic immediate can have.
pub open spec fn logic_level_ok(level: u8) -> bool {
    level == 2 || level == 4 || level == 8 || level == 16 || level == 32 || level == 64
}

/// The `ones` field of a logic immediate: `one_len - 1` under the prefix that
/// marks the level.
pub open spec fn logic_ones_code(level: u8, ones: u8) -> int {
    let o = (ones - 1) as u8;
    if level == 64 || level == 32 {
        o as int
    } else if level == 16 {
        (o | 0x20u8) as int
    } else if level == 8 {
        (o | 0x30u8) as int
    } else if level == 4 {
        (o | 0x38u8) as int
    } else {
        (o | 0x3cu8) as int
    }
}

/// The error for an immediate out of the range of `sign` (`u` or `s`) and
/// width `len`. It quotes the operand as written, `number (<text>)`, both
/// for a number and for a label (its name); labels are not reported as
/// label offsets and numbers are not reported as labels.
pub open spec fn imd_err<T>(sign: Seq<char>, len: nat, span: Span, source: SrcV) -> Res<T> {
    match span_text(source, span) {
        Some(t) => mk_err(
            "number ("@ + t + ") out of range for "@ + sign + dec(len) + "_imd"@,
            span,
            source,
        ),
        None => Res::Halt,
    }
}

/// A condition register field: `c0` is 0, `r0` is refused.
#[verifier::opaque]
pub open spec fn cond_res(r: Reg, s: Span, source: SrcV) -> Res<(int, nat)> {
    match r {
        Reg::C0 => Res::Done((0, 5)),
        Reg::R0 => mk_err("r0 can not be used as condition register"@, s, source),
        _ => Res::Done((reg_code_spec(r), 5)),
    }
}

/// A `pc`-or-register field: `pc` is 0, `r0` is refused.
#[verifier::opaque]
pub open spec fn gpr_pc_res(r: Reg, s: Span, source: SrcV) -> Res<(int, nat)> {
    match r {
        Reg::PC => Res::Done((0, 5)),
        Reg::R0 => mk_err("r0 can not be used here"@, s, source),
        _ => Res::Done((reg_code_spec(r), 5)),
    }
}

/// An unsigned immediate field of width `l`.
#[verifier::opaque]
pub open spec fn uimd_res(v: int, l: nat, s: Span, source: SrcV) -> Res<(int, nat)> {
    if 0 <= v < pow2(l) {
        Res::Done((v, l))
    } else {
        imd_err("u"@, l, s, source)
    }
}

/// A signed immediate field of width `l`.
#[verifier::opaque]
pub open spec fn simd_res(v: int, l: nat, s: Span, source: SrcV) -> Res<(int, nat)> {
    if -pow2((l - 1) as nat) <= v < pow2((l - 1) as nat) {
        Res::Done((v, l))
    } else {
        imd_err("s"@, l, s, source)
    }
}

/// The low 8 bits of a 9-bit signed immediate.
#[verifier::opaque]
pub open spec fn s9_res(v: int, s: Span, source: SrcV) -> Res<(int, nat)> {
    if -256 <= v < 256 {
        Res::Done((v, 8))
    } else {
        imd_err("s"@, 9, s, source)
    }
}

/// A signed immediate field of width `l` holding `v / 2^sc`; `v` must be a
/// multiple of `2^sc`.
#[verifier::opaque]
pub open spec fn scaled_res(v: int, l: nat, sc: nat, s: Span, source: SrcV) -> Res<(int, nat)> {
    if v % (pow2(sc) as int) != 0 {
        match span_text(source, s) {
            Some(t) => mk_err(
                "offset ("@ + t + ") is not a multiple of "@ + dec(pow2(sc)),
                s,
                source,
            ),
            None => Res::Halt,
        }
    } else if -pow2((l - 1) as nat) <= v / (pow2(sc) as int) < pow2((l - 1) as nat) {
        Res::Done((v / (pow2(sc) as int), l))
    } else {
        imd_err("s"@, l, s, source)
    }
}

/// The scale bit of an index register shifted by `sh`: 0 for no shift, 1
/// for a shift by `sc`.
#[verifier::opaque]
pub open spec fn ind_sh_res(sh: int, sc: nat, s: Span, source: SrcV) -> Res<(int, nat)> {
    if sh == 0 {
        Res::Done((0, 1))
    } else if sh == sc {
        Res::Done((1, 1))
    } else {
        match span_text(source, s) {
            Some(t) => mk_err("index shift ("@ + t + ") must be 0 or "@ + dec(sc), s, source),
            None => Res::Halt,
        }
    }
}

/// The level-and-length field of a logic immediate.
#[verifier::opaque]
pub open spec fn lones_res(level: u8, ones: u8) -> Res<(int, nat)> {
    if logic_level_ok(level) && ones >= 1 {
        Res::Done((logic_ones_code(level, ones), 6))
    } else {
        Res::Halt
    }
}

/// The width of the field given by `f`.
pub open spec fn field_width(f: SField) -> nat {
    match f {
        SField::Raw(_, l) => l,
        SField::Gpr(_) => 5,
        SField::Cond(_, _) => 5,
        SField::GprPc(_, _) => 5,
        SField::UImd(_, l, _) => l,
        SField::SImd(_, l, _) => l,
        SField::S9(_, _) => 8,
        SField::Scaled(_, l, _, _) => l,
        SField::IndSh(_, _, _) => 1,
        SField::ShK(_) => 2,
        SField::ShA(_) => 6,
        SField::L0(_) => 1,
        SField::LOnes(_, _) => 6,
    }
}

/// The field given by `f`, or its error.
pub open spec fn field_res(f: SField, source: SrcV) -> Res<(int, nat)> {
    match f {
        SField::Raw(v, l) => Res::Done((v, l)),
        SField::Gpr(r) => Res::Done((reg_code_spec(r), 5)),
        SField::Cond(r, s) => cond_res(r, s, source),
        SField::GprPc(r, s) => gpr_pc_res(r, s, source),
        SField::UImd(v, l, s) => uimd_res(v, l, s, source),
        SField::SImd(v, l, s) => simd_res(v, l, s, source),
        SField::S9(v, s) => s9_res(v, s, source),
        SField::Scaled(v, l, sc, s) => scaled_res(v, l, sc, s, source),
        SField::IndSh(sh, sc, s) => ind_sh_res(sh, sc, s, source),
        SField::ShK(sh) => Res::Done((shift_kind(sh), 2)),
        SField::ShA(sh) => Res::Done((shift_amount(sh), 6)),
        SField::L0(level) => Res::Done((if level == 64 { 0 } else { 1 }, 1)),
        SField::LOnes(level, ones) => lones_res(level, ones),
    }
}

/// The fields given by the first `n` entries of `fs`, or the error of the
/// first one that fails.
pub open spec fn eval_upto(fs: Seq<SField>, n: nat, source: SrcV) -> Res<Seq<(int, nat)>>
    decreases n,
{
    if n == 0 {
        Res::Done(Seq::empty())
    } else {
        match eval_upto(fs, (n - 1) as nat, source) {
            Res::Done(a) => match field_res(fs[n - 1], source) {
                Res::Done(x) => Res::Done(a.push(x)),
                Res::Error(m, s) => Res::Error(m, s),
                Res::Halt => Res::Halt,
            },
            Res::Error(m, s) => Res::Error(m, s),
            Res::Halt => Res::Halt,
        }
    }
}

impl<'a> InstBuilder<'a> {
    /// `r` is this builder with the field given by `f` placed, or the
    /// failure of `f`.
    pub open spec fn step(&self, f: SField, r: Result<Self, Fail>) -> bool {
        match field_res(f, self.source@) {
            Res::Done(x) => r matches Ok(b) && b.wf() && b.fields@ == self.fields@.push(x)
                && b.source == self.source && b.index == self.index + field_width(f),
            other => r matches Err(e) && same_fail(e, other),
        }
    }

    /// A condition register field.
    pub fn cond(self, reg: Reg, span: Span) -> (r: Result<Self, Fail>)
        requires
            self.wf(),
            self.index + 5 <= 32,
        ensures
            self.step(SField::Cond(reg, span), r),
    {
        reveal(cond_res);
        match reg {
            Reg::C0 => Ok(self.b(0, 5)),
            Reg::R0 => {
                let mut m = String::new();
                m.append("r0 can not be used as condition register");
                proof {
                    assert(m@ =~= "r0 can not be used as condition register"@);
                }
                Err(fail(m, span, self.source))
            },
            _ => Ok(self.gpr(reg)),
        }
    }

    /// A `pc`-or-register field.
    pub fn gpr_pc(self, reg: Reg, span: Span) -> (r: Result<Self, Fail>)
        requires
            self.wf(),
            self.index + 5 <= 32,
        ensures
            self.step(SField::GprPc(reg, span), r),
    {
        reveal(gpr_pc_res);
        match reg {
            Reg::PC => Ok(self.b(0, 5)),
            Reg::R0 => {
                let mut m = String::new();
                m.append("r0 can not be used here");
                proof {
                    assert(m@ =~= "r0 can not be used here"@);
                }
                Err(fail(m, span, self.source))
            },
            _ => Ok(self.gpr(reg)),
        }
    }

    /// A shifted register's shift: its kind, then its amount.
    pub fn shift(self, shift: Shift) -> (r: Self)
        requires
            self.wf(),
            self.index + 8 <= 32,
        ensures
            r.wf(),
            r.fields@ == self.fields@.push((shift_kind(shift), 2nat)).push(
                (shift_amount(shift), 6nat),
            ),
            r.source == self.source,
            r.index == self.index + 8,
    {
        match shift {
            Shift::SHL(amount) => self.b(0, 2).b(amount as u32, 6),
            Shift::SHR(amount) => self.b(1, 2).b(amount as u32, 6),
            Shift::SAR(amount) => self.b(2, 2).b(amount as u32, 6),
            Shift::ROL(amount) => self.b(3, 2).b(amount as u32, 6),
        }
    }

    /// The level bit of a logic immediate.
    pub fn limd_l0(self, level: u8) -> (r: Self)
        requires
            self.wf(),
            self.index + 1 <= 32,
        ensures
            r.wf(),
            r.fields@ == self.fields@.push((if level == 64 { 0 } else { 1 }, 1nat)),
            r.source == self.source,
            r.index == self.index + 1,
    {
        self.b1(if level == 64 { 0 } else { 1 })
    }

    /// The level-and-length field and the rotation field of a logic
    /// immediate.
    pub fn logic_imd(self, level: u8, ones: u8, rot: u8) -> (r: Self)
        requires
            self.wf(),
            self.index + 12 <= 32,
            logic_level_ok(level),
            ones >= 1,
        ensures
            r.wf(),
            r.fields@ == self.fields@.push((logic_ones_code(level, ones), 6nat)).push(
                (rot as int, 6nat),
            ),
            r.source == self.source,
            r.index == self.index + 12,
    {
        let ones = ones - 1;
        let ones = if level == 64 {
            ones
        } else if level == 32 {
            ones
        } else if level == 16 {
            ones | 0b100000
        } else if level == 8 {
            ones | 0b110000
        } else if level == 4 {
            ones | 0b111000
        } else {
            ones | 0b111100
        };
        self.b6(ones).b6(rot)
    }
}

/// The failure for an immediate out of range.
fn imd_fail(source: &Source, sign: &str, len: u64, span: Span) -> (f: Fail)
    ensures
        same_fail(f, imd_err::<(int, nat)>(sign@, len as nat, span, source@)),
{
    match source.try_source_of(span) {
        Some(t) => {
            let mut m = String::new();
            m.append("number (");
            m.append(t);
            m.append(") out of range for ");
            m.append(sign);
            push_dec(&mut m, len);
            m.append("_imd");
            proof {
                assert(m@ =~= "number ("@ + t@ + ") out of range for "@ + sign@ + dec(len as nat)
                    + "_imd"@);
            }
            fail(m, span, source)
        },
        None => Fail::Halt,
    }
}

/// `2^n` as an `i128`.
fn pow2_i128(n: u8) -> (r: i128)
    requires
        n < 64,
    ensures
        r == pow2(n as nat),
        r > 0,
{
    proof {
        vstd::bits::lemma_u64_pow2_no_overflow(n as nat);
        vstd::bits::lemma_u64_shl_is_mul(1u64, n as u64);
    }
    (1u64 << n as u64) as i128
}

proof fn lemma_neg_mod(v: int, p: int)
    requires
        p > 0,
        -p <= v < 0,
    ensures
        (v + p) % p == v % p,
        0 <= v + p < p,
{
    vstd::arithmetic::div_mod::lemma_mod_add_multiples_vanish(v, p);
}

impl<'a> InstBuilder<'a> {
    /// Places `value` as a field of width `len`, through a number that agrees
    /// with it modulo 2 to the power of `len`.
    fn b_as(self, value: u32, v: Ghost<int>, len: u8) -> (r: Self)
        requires
            self.wf(),
            len < 32,
            self.index < 32,
            self.index + len <= 32,
            value as int % pow2(len as nat) as int == v@ % pow2(len as nat) as int,
        ensures
            r.wf(),
            r.fields@ == self.fields@.push((v@, len as nat)),
            r.source == self.source,
            r.index == self.index + len,
    {
        let r = self.b(value, len);
        proof {
            lemma_pack_push(self.fields@, (value as int, len as nat));
            lemma_pack_push(self.fields@, (v@, len as nat));
        }
        InstBuilder { inst: r.inst, index: r.index, source: r.source, fields: Ghost(self.fields@.push((v@, len as nat))) }
    }

    /// An unsigned immediate of width `len`.
    pub fn u_imd(self, value: i128, len: u8, span: Span) -> (r: Result<Self, Fail>)
        requires
            self.wf(),
            len < 32,
            self.index < 32,
            self.index + len <= 32,
        ensures
            self.step(SField::UImd(value as int, len as nat, span), r),
    {
        reveal(uimd_res);
        let bound = pow2_i128(len);
        if value < 0 || value >= bound {
            return Err(imd_fail(self.source, "u", len as u64, span));
        }
        proof {
            lemma_pow2_strictly_increases(len as nat, 32);
            lemma2_to64();
        }
        Ok(self.b(value as u32, len))
    }

    /// A signed immediate of width `len`, in two's complement.
    pub fn s_imd(self, value: i128, len: u8, span: Span) -> (r: Result<Self, Fail>)
        requires
            self.wf(),
            1 <= len < 32,
            self.index + len <= 32,
        ensures
            self.step(SField::SImd(value as int, len as nat, span), r),
    {
        reveal(simd_res);
        let half = pow2_i128(len - 1);
        if value < -half || value >= half {
            return Err(imd_fail(self.source, "s", len as u64, span));
        }
        proof {
            lemma_pow2_unfold(len as nat);
            lemma_pow2_strictly_increases(len as nat, 32);
            lemma2_to64();
        }
        let u = if value < 0 {
            proof {
                lemma_neg_mod(value as int, 2 * half as int);
            }
            (value + 2 * half) as u32
        } else {
            value as u32
        };
        Ok(self.b_as(u, Ghost(value as int), len))
    }

    /// A 9-bit signed immediate whose sign bit is placed elsewhere: its low
    /// 8 bits.
    pub fn s_imd_no_sbit(self, value: i128, span: Span) -> (r: Result<Self, Fail>)
        requires
            self.wf(),
            self.index + 8 <= 32,
        ensures
            self.step(SField::S9(value as int, span), r),
    {
        reveal(s9_res);
        if value < -256 || value >= 256 {
            return Err(imd_fail(self.source, "s", 9, span));
        }
        proof {
            lemma2_to64();
        }
        let u = if value < 0 {
            proof {
                lemma_neg_mod(value as int, 256);
                if value < -128 {
                    vstd::arithmetic::div_mod::lemma_mod_add_multiples_vanish(value as int + 256, 256);
                }
            }
            if value < -128 { (value + 512) as u32 } else { (value + 256) as u32 }
        } else {
            value as u32
        };
        proof {
            if value >= 0 {
                vstd::arithmetic::div_mod::lemma_mod_add_multiples_vanish(value as int - 256, 256);
            }
        }
        Ok(self.b_as(u % 256, Ghost(value as int), 8))
    }
}

proof fn lemma_scaled(v: int, a: int, d: int)
    requires
        d > 0,
        a >= 0,
        v == a || v == -a,
    ensures
        (v % d == 0) == (a % d == 0),
        v % d == 0 ==> v / d == (if v == a { a / d } else { -(a / d) }),
{
    vstd::arithmetic::div_mod::lemma_fundamental_div_mod(a, d);
    vstd::arithmetic::div_mod::lemma_fundamental_div_mod(v, d);
    let k = a / d;
    if a % d == 0 {
        vstd::arithmetic::div_mod::lemma_mod_multiples_basic(k, d);
        vstd::arithmetic::div_mod::lemma_mod_multiples_basic(-k, d);
        vstd::arithmetic::div_mod::lemma_div_multiples_vanish(k, d);
        vstd::arithmetic::div_mod::lemma_div_multiples_vanish(-k, d);
        assert(a == d * k);
        assert(-a == d * (-k)) by (nonlinear_arith)
            requires
                a == d * k,
        ;
        assert((-k) * d == d * (-k)) by (nonlinear_arith);
        assert(k * d == d * k) by (nonlinear_arith);
    } else if v % d == 0 {
        let j = v / d;
        assert(v == d * j);
        assert(a == d * (-j)) by (nonlinear_arith)
            requires
                v == d * j,
                v == a || v == -a,
                a % d != 0,
                v != a,
        ;
        vstd::arithmetic::div_mod::lemma_mod_multiples_basic(-j, d);
        assert((-j) * d == d * (-j)) by (nonlinear_arith);
    }
}

impl<'a> InstBuilder<'a> {
    /// A signed immediate of width `len` holding an offset divided by `2^scale`;
    /// the offset must be a multiple of `2^scale`.
    pub fn scaled_s_imd(self, value: i128, len: u8, scale: u8, span: Span) -> (r: Result<Self, Fail>)
        requires
            self.wf(),
            1 <= len < 32,
            scale <= 3,
            self.index + len <= 32,
            -0x1_0000_0000_0000_0000_0000 < value < 0x1_0000_0000_0000_0000_0000,
        ensures
            self.step(SField::Scaled(value as int, len as nat, scale as nat, span), r),
    {
        reveal(scaled_res);
        reveal(simd_res);
        let d = pow2_i128(scale);
        let neg = value < 0;
        let a: i128 = if neg { -value } else { value };
        proof {
            lemma_scaled(value as int, a as int, d as int);
            lemma2_to64();
            assert(d <= 8);
        }
        if (a as u128) % (d as u128) != 0 {
            return match self.source.try_source_of(span) {
                Some(t) => {
                    let mut m = String::new();
                    m.append("offset (");
                    m.append(t);
                    m.append(") is not a multiple of ");
                    push_dec(&mut m, d as u64);
                    proof {
                        assert(m@ =~= "offset ("@ + t@ + ") is not a multiple of "@ + dec(
                            pow2(scale as nat),
                        ));
                    }
                    Err(fail(m, span, self.source))
                },
                None => Err(Fail::Halt),
            };
        }
        let q = ((a as u128) / (d as u128)) as i128;
        let q = if neg { -q } else { q };
        self.s_imd(q, len, span)
    }

    /// The scale bit of an index register: 0 for no shift, 1 for a shift by
    /// `scale`.
    pub fn ind_sh(self, shift: u8, scale: u8, span: Span) -> (r: Result<Self, Fail>)
        requires
            self.wf(),
            self.index + 1 <= 32,
        ensures
            self.step(SField::IndSh(shift as int, scale as nat, span), r),
    {
        reveal(ind_sh_res);
        if shift == 0 {
            Ok(self.b1(0))
        } else if shift == scale {
            Ok(self.b1(1))
        } else {
            match self.source.try_source_of(span) {
                Some(t) => {
                    let mut m = String::new();
                    m.append("index shift (");
                    m.append(t);
                    m.append(") must be 0 or ");
                    push_dec(&mut m, scale as u64);
                    proof {
                        assert(m@ =~= "index shift ("@ + t@ + ") must be 0 or "@ + dec(
                            scale as nat,
                        ));
                    }
                    Err(fail(m, span, self.source))
                },
                None => Err(Fail::Halt),
            }
        }
    }
}

/// The offset of the last entry for `name`: later entries replace earlier
/// ones.
pub open spec fn label_lookup(entries: Seq<(Seq<char>, u64)>, name: Seq<char>) -> Option<u64>
    decreases entries.len(),
{
    if entries.len() == 0 {
        None
    } else if entries.last().0 == name {
        Some(entries.last().1)
    } else {
        label_lookup(entries.drop_last(), name)
    }
}

/// The offsets of the labels of a program.
pub struct LabelIndexes {
    pub entries: Vec<(String, u64)>,
}

impl View for LabelIndexes {
    type V = Seq<(Seq<char>, u64)>;

    /// The names and offsets recorded, in the order they were recorded.
    open spec fn view(&self) -> Seq<(Seq<char>, u64)> {
        self.entries@.map_values(|e: (String, u64)| (e.0@, e.1))
    }
}

impl LabelIndexes {
    pub fn new() -> (r: Self)
        ensures
            r@ == Seq::<(Seq<char>, u64)>::empty(),
    {
        LabelIndexes { entries: Vec::new() }
    }

    /// Records `offset` for `name`, replacing an earlier offset.
    pub fn insert(&mut self, name: String, offset: u64)
        ensures
            final(self)@ == old(self)@.push((name@, offset)),
    {
        let ghost n = name@;
        self.entries.push((name, offset));
        proof {
            assert(self@ =~= old(self)@.push((n, offset)));
        }
    }

    /// The offset of `name`.
    pub fn get(&self, name: &str) -> (r: Option<u64>)
        ensures
            r == label_lookup(self@, name@),
    {
        let mut i = self.entries.len();
        proof {
            assert(self@.subrange(0, self@.len() as int) =~= self@);
        }
        while i > 0
            invariant
                i <= self.entries@.len(),
                label_lookup(self@, name@) == label_lookup(self@.subrange(0, i as int), name@),
            decreases i,
        {
            proof {
                let e = self@.subrange(0, i as int);
                assert(e.drop_last() =~= self@.subrange(0, i - 1));
                assert(e.last() == self@[i - 1]);
            }
            if str_eq(self.entries[i - 1].0.as_str(), name) {
                return Some(self.entries[i - 1].1);
            }
            i = i - 1;
        }
        None
    }
}

} // verus!

verus! {

// ---------------------------------------------------------------------------
// Laying out and encoding a program
// ---------------------------------------------------------------------------

/// The number of bytes of a line.
pub open spec fn line_len(l: LineV) -> int {
    match l.kind {
        LineKindV::Const(c) => match c.kind {
            ConstV::U8(_) => 1,
            ConstV::I8(_) => 1,
            ConstV::U16(_) => 2,
            ConstV::I16(_) => 2,
            ConstV::U32(_) => 4,
            ConstV::I32(_) => 4,
            ConstV::U64(_) => 8,
            ConstV::I64(_) => 8,
            ConstV::Bytes(b) => b.len() as int,
            ConstV::Str(s) => encode_utf8(s).len() as int,
        },
        LineKindV::Inst(_) => 4,
    }
}

/// The alignment of a line: numbers and instructions are aligned to their
/// size, byte arrays and strings are not aligned.
pub open spec fn line_align(l: LineV) -> int {
    match l.kind {
        LineKindV::Const(c) => match c.kind {
            ConstV::Bytes(_) => 1,
            ConstV::Str(_) => 1,
            _ => line_len(l),
        },
        LineKindV::Inst(_) => 4,
    }
}

/// The byte length and the alignment of a line.
fn line_stats(line: &AsmLine) -> (r: (u64, u64))
    ensures
        r.0 == line_len(line@),
        r.1 == line_align(line@),
{
    match &line.kind {
        AsmLineKind::Const(cons) => match &cons.kind {
            ConstKind::U8(_) => (1, 1),
            ConstKind::I8(_) => (1, 1),
            ConstKind::U16(_) => (2, 2),
            ConstKind::I16(_) => (2, 2),
            ConstKind::U32(_) => (4, 4),
            ConstKind::I32(_) => (4, 4),
            ConstKind::U64(_) => (8, 8),
            ConstKind::I64(_) => (8, 8),
            ConstKind::Bytes(bytes) => (bytes.len() as u64, 1),
            ConstKind::Str(s) => (s.as_str().as_bytes().len() as u64, 1),
        },
        AsmLineKind::Inst(_) => (4, 4),
    }
}

/// `o` rounded up to a multiple of `a`.
pub open spec fn align_up(o: int, a: int) -> int {
    if o % a == 0 {
        o
    } else {
        o - o % a + a
    }
}

/// The offset reached after the first `n` lines, each put at the next
/// multiple of its alignment.
pub open spec fn end_off(lines: Seq<LineV>, n: nat) -> int
    decreases n,
{
    if n == 0 {
        0
    } else {
        align_up(end_off(lines, (n - 1) as nat), line_align(lines[n - 1])) + line_len(lines[n - 1])
    }
}

/// The offset of line `i`.
pub open spec fn item_off(lines: Seq<LineV>, i: nat) -> int {
    align_up(end_off(lines, i), line_align(lines[i as int]))
}

/// The padding of line `i` once laid out: what aligns it, or its former
/// padding where it is aligned already.
pub open spec fn new_pad(lines: Seq<LineV>, i: nat) -> u64 {
    if end_off(lines, i) % line_align(lines[i as int]) != 0 {
        (item_off(lines, i) - end_off(lines, i)) as u64
    } else {
        lines[i as int].pad
    }
}

/// The lines with their padding set by the layout.
pub open spec fn padded(lines: Seq<LineV>) -> Seq<LineV> {
    Seq::new(
        lines.len(),
        |i: int| LineV { label: lines[i].label, pad: new_pad(lines, i as nat), kind: lines[i].kind },
    )
}

/// The labels of the first `n` lines with their offsets, in order.
pub open spec fn label_entries(lines: Seq<LineV>, n: nat) -> Seq<(Seq<char>, u64)>
    decreases n,
{
    if n == 0 {
        Seq::empty()
    } else {
        let prev = label_entries(lines, (n - 1) as nat);
        match lines[n - 1].label {
            Some(l) => prev.push((l.name, item_off(lines, (n - 1) as nat) as u64)),
            None => prev,
        }
    }
}

/// The layout fits the 64-bit address space.
pub open spec fn layout_fits(lines: Seq<LineV>) -> bool {
    end_off(lines, lines.len()) <= u64::MAX
}

proof fn lemma_end_off_mono(lines: Seq<LineV>, i: nat, n: nat)
    requires
        i <= n <= lines.len(),
    ensures
        end_off(lines, i) <= end_off(lines, n),
        i < n ==> item_off(lines, i) <= end_off(lines, n),
    decreases n - i,
{
    if i < n {
        lemma_end_off_mono(lines, i + 1, n);
        lemma_align_up(end_off(lines, i), line_align(lines[i as int]));
    }
}

proof fn lemma_align_up(o: int, a: int)
    requires
        a >= 1,
    ensures
        o <= align_up(o, a) < o + a,
        align_up(o, a) % a == 0,
{
    if o % a != 0 {
        vstd::arithmetic::div_mod::lemma_fundamental_div_mod(o, a);
        vstd::arithmetic::div_mod::lemma_mod_multiples_vanish(o / a + 1, 0, a);
        assert(o - o % a + a == a * (o / a + 1)) by (nonlinear_arith)
            requires
                o == a * (o / a) + o % a,
        ;
        vstd::arithmetic::div_mod::lemma_mod_multiples_basic(o / a + 1, a);
        assert(a * (o / a + 1) == (o / a + 1) * a) by (nonlinear_arith);
    }
}

/// Lays out the lines: sets the padding that aligns each line, and records
/// the offset of each label. Gives the table of labels and the length of the
/// layout; halts where the layout does not fit the 64-bit address space.
pub fn resolve_offsets(lines: &mut [AsmLine]) -> (r: Result<(LabelIndexes, u64), Fail>)
    ensures
        layout_fits(lines_view(old(lines)@)) ==> (r matches Ok((labels, len)) && labels@
            == label_entries(lines_view(old(lines)@), old(lines)@.len()) && len == end_off(
            lines_view(old(lines)@),
            old(lines)@.len(),
        ) && lines_view(final(lines)@) == padded(lines_view(old(lines)@))),
        !layout_fits(lines_view(old(lines)@)) ==> r matches Err(Fail::Halt),
{
    let ghost orig = lines_view(old(lines)@);
    let mut labels = LabelIndexes::new();
    let mut offset: u64 = 0;
    let mut i: usize = 0;
    let mut overflow = false;
    while i < lines.len()
        invariant_except_break
            !overflow,
            i <= orig.len(),
            offset == end_off(orig, i as nat),
            labels@ == label_entries(orig, i as nat),
            forall|k: int| 0 <= k < i ==> #[trigger] lines@[k]@ == padded(orig)[k],
            forall|k: int| i <= k < orig.len() ==> #[trigger] lines@[k]@ == orig[k],
        invariant
            lines@.len() == orig.len(),
        ensures
            overflow ==> !layout_fits(orig),
            !overflow ==> i == orig.len() && offset == end_off(orig, i as nat) && labels@
                == label_entries(orig, i as nat) && lines_view(lines@) =~= padded(orig),
        decreases orig.len() - i,
    {
        let (len, align) = line_stats(&lines[i]);
        proof {
            assert(lines@[i as int]@ == orig[i as int]);
            lemma_align_up(offset as int, align as int);
            lemma_end_off_mono(orig, (i + 1) as nat, orig.len());
            lemma_end_off_mono(orig, i as nat, orig.len());
        }
        if offset % align != 0 {
            let gap = align - offset % align;
            if offset > u64::MAX - gap {
                overflow = true;
                break;
            }
            lines[i].pad = gap;
            offset = offset + gap;
        }
        if let Some(label) = &lines[i].label {
            labels.insert(label.name.clone(), offset);
        }
        if offset > u64::MAX - len {
            overflow = true;
            break;
        }
        offset = offset + len;
        proof {
            assert(lines@[i as int]@ == padded(orig)[i as int]);
        }
        i = i + 1;
    }
    if overflow {
        return Err(Fail::Halt);
    }
    Ok((labels, offset))
}

/// The `n` bytes of `v`, least significant first.
pub open spec fn le_bytes(v: nat, n: nat) -> Seq<u8>
    decreases n,
{
    if n == 0 {
        Seq::empty()
    } else {
        seq![(v % 256) as u8] + le_bytes(v / 256, (n - 1) as nat)
    }
}

/// The bytes of a constant: numbers in little-endian order (negative ones in
/// two's complement), byte arrays as they are, strings in UTF-8.
pub open spec fn const_bytes(c: ConstV) -> Seq<u8> {
    match c {
        ConstV::U8(x) => le_bytes(x as nat, 1),
        ConstV::I8(x) => le_bytes((x as int % 0x100) as nat, 1),
        ConstV::U16(x) => le_bytes(x as nat, 2),
        ConstV::I16(x) => le_bytes((x as int % 0x1_0000) as nat, 2),
        ConstV::U32(x) => le_bytes(x as nat, 4),
        ConstV::I32(x) => le_bytes((x as int % 0x1_0000_0000) as nat, 4),
        ConstV::U64(x) => le_bytes(x as nat, 8),
        ConstV::I64(x) => le_bytes((x as int % 0x1_0000_0000_0000_0000) as nat, 8),
        ConstV::Bytes(b) => b,
        ConstV::Str(s) => encode_utf8(s),
    }
}

/// Appends the `n` low bytes of `v`, least significant first.
fn push_le(bin: &mut Vec<u8>, v: u64, n: u8)
    ensures
        final(bin)@ == old(bin)@ + le_bytes(v as nat, n as nat),
    decreases n,
{
    if n > 0 {
        let ghost b0 = bin@;
        bin.push((v % 256) as u8);
        push_le(bin, v / 256, n - 1);
        proof {
            assert(bin@ =~= b0 + le_bytes(v as nat, n as nat));
        }
    }
}

/// Appends the bytes of `src`.
fn push_all(bin: &mut Vec<u8>, src: &[u8])
    ensures
        final(bin)@ == old(bin)@ + src@,
{
    let ghost b0 = bin@;
    let mut i: usize = 0;
    while i < src.len()
        invariant
            i <= src@.len(),
            bin@ == b0 + src@.subrange(0, i as int),
        decreases src@.len() - i,
    {
        bin.push(src[i]);
        i = i + 1;
        proof {
            assert(bin@ =~= b0 + src@.subrange(0, i as int));
        }
    }
    proof {
        assert(src@.subrange(0, src@.len() as int) =~= src@);
    }
}

/// `x` modulo `p`, for `x` of at least `-p`.
proof fn lemma_twos(x: int, p: int)
    requires
        p > 0,
        -p <= x < p,
    ensures
        x < 0 ==> x % p == x + p,
        x >= 0 ==> x % p == x,
{
    if x < 0 {
        lemma_neg_mod(x, p);
        vstd::arithmetic::div_mod::lemma_small_mod((x + p) as nat, p as nat);
    } else {
        vstd::arithmetic::div_mod::lemma_small_mod(x as nat, p as nat);
    }
}

/// Appends the bytes of a constant.
pub fn encode_const(bin: &mut Vec<u8>, cons: &Const)
    ensures
        final(bin)@ == old(bin)@ + const_bytes(cons.kind@),
{
    match &cons.kind {
        ConstKind::U8(nb) => push_le(bin, *nb as u64, 1),
        ConstKind::I8(nb) => {
            proof {
                lemma_twos(*nb as int, 0x100);
            }
            let u: u64 = if *nb < 0 { (*nb as i64 + 0x100) as u64 } else { *nb as u64 };
            push_le(bin, u, 1)
        },
        ConstKind::U16(nb) => push_le(bin, *nb as u64, 2),
        ConstKind::I16(nb) => {
            proof {
                lemma_twos(*nb as int, 0x1_0000);
            }
            let u: u64 = if *nb < 0 { (*nb as i64 + 0x1_0000) as u64 } else { *nb as u64 };
            push_le(bin, u, 2)
        },
        ConstKind::U32(nb) => push_le(bin, *nb as u64, 4),
        ConstKind::I32(nb) => {
            proof {
                lemma_twos(*nb as int, 0x1_0000_0000);
            }
            let u: u64 = if *nb < 0 { (*nb as i64 + 0x1_0000_0000) as u64 } else { *nb as u64 };
            push_le(bin, u, 4)
        },
        ConstKind::U64(nb) => push_le(bin, *nb, 8),
        ConstKind::I64(nb) => {
            proof {
                lemma_twos(*nb as int, 0x1_0000_0000_0000_0000);
            }
            let u: u64 = if *nb < 0 {
                (*nb as i128 + 0x1_0000_0000_0000_0000) as u64
            } else {
                *nb as u64
            };
            push_le(bin, u, 8)
        },
        ConstKind::Bytes(bytes) => push_all(bin, bytes.as_slice()),
        ConstKind::Str(s) => push_all(bin, s.as_str().as_bytes()),
    }
}

/// `n` zero bytes.
pub open spec fn zeros(n: nat) -> Seq<u8> {
    Seq::new(n, |i: int| 0u8)
}

/// Appends `n` zero bytes.
fn push_zeros(bin: &mut Vec<u8>, n: u64)
    ensures
        final(bin)@ == old(bin)@ + zeros(n as nat),
{
    let ghost b0 = bin@;
    let mut i: u64 = 0;
    while i < n
        invariant
            i <= n,
            bin@ == b0 + zeros(i as nat),
        decreases n - i,
    {
        bin.push(0);
        i = i + 1;
        proof {
            assert(bin@ =~= b0 + zeros(i as nat));
        }
    }
}

/// The bytes of the first `n` lines, each after its padding, the labels
/// resolved by `labels`; or the error of the first line that fails.
pub open spec fn emit(
    lines: Seq<LineV>,
    n: nat,
    labels: Seq<(Seq<char>, u64)>,
    source: SrcV,
) -> Res<Seq<u8>>
    decreases n,
{
    if n == 0 {
        Res::Done(Seq::empty())
    } else {
        match emit(lines, (n - 1) as nat, labels, source) {
            Res::Done(b) => {
                let l = lines[n - 1];
                let b2 = b + zeros(l.pad as nat);
                match l.kind {
                    LineKindV::Const(c) => Res::Done(b2 + const_bytes(c.kind)),
                    LineKindV::Inst(inst) => match spec_encode_inst(
                        inst,
                        b2.len() as u64,
                        labels,
                        source,
                    ) {
                        Res::Done(w) => Res::Done(b2 + le_bytes(w as nat, 4)),
                        Res::Error(m, s) => Res::Error(m, s),
                        Res::Halt => Res::Halt,
                    },
                }
            },
            Res::Error(m, s) => Res::Error(m, s),
            Res::Halt => Res::Halt,
        }
    }
}

/// `b` followed by zeros up to the next multiple of 16 bytes.
pub open spec fn pad16(b: Seq<u8>) -> Seq<u8> {
    b + zeros((align_up(b.len() as int, 16) - b.len()) as nat)
}

/// The binary of a program: its lines laid out and encoded, padded to a
/// multiple of 16 bytes; or the error of the first line that fails, or a
/// halt where the layout does not fit the 64-bit address space.
pub open spec fn encode_spec(lines: Seq<LineV>, source: SrcV) -> Res<Seq<u8>> {
    if !layout_fits(lines) {
        Res::Halt
    } else {
        match emit(padded(lines), lines.len(), label_entries(lines, lines.len()), source) {
            Res::Done(b) => Res::Done(pad16(b)),
            Res::Error(m, s) => Res::Error(m, s),
            Res::Halt => Res::Halt,
        }
    }
}

/// `r` is the result `s`.
pub open spec fn bytes_agree(r: Result<Vec<u8>, Fail>, s: Res<Seq<u8>>) -> bool {
    match s {
        Res::Done(b) => r matches Ok(v) && v@ == b,
        Res::Error(m, sp) => r matches Err(Fail::Error(e)) && e.msg@ == m && e.span == sp,
        Res::Halt => r matches Err(Fail::Halt),
    }
}

proof fn lemma_emit_fail(
    lines: Seq<LineV>,
    i: nat,
    n: nat,
    labels: Seq<(Seq<char>, u64)>,
    source: SrcV,
)
    requires
        i <= n,
        !(emit(lines, i, labels, source) is Done),
    ensures
        emit(lines, n, labels, source) == emit(lines, i, labels, source),
    decreases n - i,
{
    if i < n {
        lemma_emit_fail(lines, i, (n - 1) as nat, labels, source);
    }
}

/// Encodes a program: lays out its lines (setting their padding), encodes
/// each line at its offset with the labels resolved, and pads the binary to a
/// multiple of 16 bytes.
pub fn encode(lines: &mut [AsmLine], source: &Source) -> (r: Result<Vec<u8>, Fail>)
    ensures
        bytes_agree(r, encode_spec(lines_view(old(lines)@), source@)),
        layout_fits(lines_view(old(lines)@)) ==> lines_view(final(lines)@) == padded(
            lines_view(old(lines)@),
        ),
{
    let ghost orig = lines_view(old(lines)@);
    let (labels, _len) = match resolve_offsets(lines) {
        Ok(x) => x,
        Err(e) => {
            return Err(e);
        },
    };
    let ghost pl = lines_view(lines@);
    let ghost lab = labels@;
    let mut bin: Vec<u8> = Vec::new();
    let mut i: usize = 0;
    let mut failed: Option<Fail> = None;
    while i < lines.len()
        invariant_except_break
            failed is None,
            i <= pl.len(),
            emit(pl, i as nat, lab, source@) == Res::Done(bin@),
        invariant
            lines_view(lines@) == pl,
            labels@ == lab,
        ensures
            failed matches Some(e) ==> same_fail(e, emit(pl, pl.len(), lab, source@)),
            failed is None ==> emit(pl, pl.len(), lab, source@) == Res::Done(bin@),
        decreases pl.len() - i,
    {
        let line = &lines[i];
        proof {
            assert(line@ == pl[i as int]);
        }
        push_zeros(&mut bin, line.pad);
        match &line.kind {
            AsmLineKind::Const(cons) => encode_const(&mut bin, cons),
            AsmLineKind::Inst(inst) => {
                match encode_inst(inst, bin.len() as u64, &labels, source) {
                    Ok(w) => push_le(&mut bin, w as u64, 4),
                    Err(e) => {
                        proof {
                            lemma_emit_fail(pl, (i + 1) as nat, pl.len(), lab, source@);
                        }
                        failed = Some(e);
                        break;
                    },
                }
            },
        }
        i = i + 1;
    }
    if let Some(e) = failed {
        return Err(e);
    }
    let rem = bin.len() % 16;
    if rem != 0 {
        push_zeros(&mut bin, (16 - rem) as u64);
    }
    proof {
        lemma_align_up(bin@.len() as int, 16);
    }
    Ok(bin)
}

} // verus!

verus! {

// ---------------------------------------------------------------------------
// Laws of instruction words
// ---------------------------------------------------------------------------

proof fn lemma_flen_prefix(fs: Seq<(int, nat)>, k: int)
    requires
        0 <= k < fs.len(),
    ensures
        flen(fs.subrange(0, k + 1)) == flen(fs.subrange(0, k)) + fs[k].1,
        flen(fs.subrange(0, k + 1)) <= flen(fs),
    decreases fs.len() - k,
{
    assert(fs.subrange(0, k + 1).drop_last() =~= fs.subrange(0, k));
    if k + 1 < fs.len() {
        lemma_flen_prefix(fs, k + 1);
    } else {
        assert(fs.subrange(0, k + 1) =~= fs);
    }
}

/// Each field of an instruction word can be read back from it: field `k`
/// holds its value modulo 2 to the power of its width, at the bit where the
/// fields before it end.
pub proof fn law_pack_fields(fs: Seq<(int, nat)>, k: int)
    requires
        0 <= k < fs.len(),
    ensures
        (pack(fs) / (pow2(flen(fs.subrange(0, k))) as int)) % (pow2(fs[k].1) as int) == fs[k].0 % (
        pow2(fs[k].1) as int),
    decreases fs.len(),
{
    let d = fs.drop_last();
    let (v, w) = fs.last();
    let x = v % (pow2(w) as int);
    let p = pack(d);
    let f = flen(d);
    let off = flen(fs.subrange(0, k));
    let wk = fs[k].1;
    lemma_pack_bound(d);
    lemma_pow2_pos(w);
    lemma_pow2_pos(f);
    lemma_pow2_pos(off);
    lemma_pow2_pos(wk);
    assert(pack(fs) == p + x * pow2(f));
    if k == fs.len() - 1 {
        assert(fs.subrange(0, k) =~= d);
        vstd::arithmetic::div_mod::lemma_fundamental_div_mod_converse(pack(fs), pow2(f) as int, x, p);
        vstd::arithmetic::div_mod::lemma_small_mod(x as nat, pow2(w));
    } else {
        assert(fs.subrange(0, k) =~= d.subrange(0, k));
        assert(d[k] == fs[k]);
        lemma_flen_prefix(d, k);
        law_pack_fields(d, k);
        let po = pow2(off) as int;
        let pw = pow2(wk) as int;
        let a = pow2((f - off) as nat) as int;
        let c = pow2((f - off - wk) as nat) as int;
        lemma_pow2_adds(off, (f - off) as nat);
        lemma_pow2_adds(wk, (f - off - wk) as nat);
        assert(pow2(f) == po * a);
        assert(a == pw * c);
        let q1 = p / po;
        let r1 = p % po;
        vstd::arithmetic::div_mod::lemma_fundamental_div_mod(p, po);
        assert(0 <= r1 < po) by {
            vstd::arithmetic::div_mod::lemma_mod_bound(p, po);
        }
        assert(pack(fs) == (q1 + x * a) * po + r1) by (nonlinear_arith)
            requires
                pack(fs) == p + x * (po * a),
                p == po * q1 + r1,
        ;
        vstd::arithmetic::div_mod::lemma_fundamental_div_mod_converse(pack(fs), po, q1 + x * a, r1);
        let q2 = q1 / pw;
        let r2 = q1 % pw;
        vstd::arithmetic::div_mod::lemma_fundamental_div_mod(q1, pw);
        assert(0 <= r2 < pw) by {
            vstd::arithmetic::div_mod::lemma_mod_bound(q1, pw);
        }
        assert(q1 + x * a == (q2 + x * c) * pw + r2) by (nonlinear_arith)
            requires
                q1 == pw * q2 + r2,
                a == pw * c,
        ;
        vstd::arithmetic::div_mod::lemma_fundamental_div_mod_converse(q1 + x * a, pw, q2 + x * c, r2);
    }
}

} // verus!

verus! {

// ---------------------------------------------------------------------------
// Laws of the layout
// ---------------------------------------------------------------------------

proof fn lemma_align_ge1(l: LineV)
    ensures
        line_align(l) >= 1,
        line_len(l) >= 0,
{
}

/// Each line of a program is placed at the first offset after the lines
/// before it that is a multiple of its alignment, and the lines do not
/// overlap.
pub proof fn law_layout(lines: Seq<LineV>, i: nat)
    requires
        i < lines.len(),
    ensures
        end_off(lines, i) <= item_off(lines, i) < end_off(lines, i) + line_align(lines[i as int]),
        item_off(lines, i) % line_align(lines[i as int]) == 0,
        end_off(lines, i + 1) == item_off(lines, i) + line_len(lines[i as int]),
{
    lemma_align_ge1(lines[i as int]);
    lemma_align_up(end_off(lines, i), line_align(lines[i as int]));
}

/// The binary of a program fills whole chunks of 16 bytes.
pub proof fn law_whole_chunks(lines: Seq<LineV>, s: SrcV)
    ensures
        encode_spec(lines, s) matches Res::Done(bin) ==> bin.len() % 16 == 0,
{
    match emit(padded(lines), lines.len(), label_entries(lines, lines.len()), s) {
        Res::Done(b) => {
            lemma_align_up(b.len() as int, 16);
        },
        _ => {},
    }
}

proof fn lemma_le_len(v: nat, n: nat)
    ensures
        le_bytes(v, n).len() == n,
    decreases n,
{
    if n > 0 {
        lemma_le_len(v / 256, (n - 1) as nat);
    }
}

/// The bytes that `encode_const` writes for a constant are as many as the
/// layout counts for a line holding it.
pub proof fn law_const_len(l: LineV, c: ConstVal)
    requires
        l.kind == LineKindV::Const(c),
    ensures
        const_bytes(c.kind).len() == line_len(l),
{
    match c.kind {
        ConstV::U8(x) => lemma_le_len(x as nat, 1),
        ConstV::I8(x) => lemma_le_len((x as int % 0x100) as nat, 1),
        ConstV::U16(x) => lemma_le_len(x as nat, 2),
        ConstV::I16(x) => lemma_le_len((x as int % 0x1_0000) as nat, 2),
        ConstV::U32(x) => lemma_le_len(x as nat, 4),
        ConstV::I32(x) => lemma_le_len((x as int % 0x1_0000_0000) as nat, 4),
        ConstV::U64(x) => lemma_le_len(x as nat, 8),
        ConstV::I64(x) => lemma_le_len((x as int % 0x1_0000_0000_0000_0000) as nat, 8),
        _ => {},
    }
}

/// The bytes of line `i` sit in `b` where the layout puts the line: zeros
/// from the end of the line before it up to its offset, then its own bytes;
/// an instruction is encoded at its own offset.
pub open spec fn placed(b: Seq<u8>, lines: Seq<LineV>, i: nat, labels: Seq<(Seq<char>, u64)>, s: SrcV) -> bool {
    let lo = end_off(lines, i);
    let at = item_off(lines, i);
    let hi = end_off(lines, i + 1);
    &&& b.subrange(lo, at) == zeros((at - lo) as nat)
    &&& match lines[i as int].kind {
        LineKindV::Const(c) => b.subrange(at, hi) == const_bytes(c.kind),
        LineKindV::Inst(inst) => spec_encode_inst(inst, at as u64, labels, s) matches Res::Done(w)
            && b.subrange(at, hi) == le_bytes(w as nat, 4),
    }
}

/// The lines of a program that the parser gave (no padding yet) are laid out
/// one after the other from offset 0: the bytes encoded for the first `n`
/// lines are as long as their layout, and each line's bytes sit at its
/// offset, after zeros that align it.
pub proof fn law_layout_places_bytes(
    lines: Seq<LineV>,
    n: nat,
    labels: Seq<(Seq<char>, u64)>,
    s: SrcV,
)
    requires
        n <= lines.len(),
        forall|k: int| 0 <= k < lines.len() ==> #[trigger] lines[k].pad == 0,
        layout_fits(lines),
    ensures
        emit(padded(lines), n, labels, s) matches Res::Done(b) ==> b.len() == end_off(lines, n)
            && forall|i: nat| i < n ==> #[trigger] placed(b, lines, i, labels, s),
    decreases n,
{
    if n > 0 {
        let m = (n - 1) as nat;
        law_layout_places_bytes(lines, m, labels, s);
        match emit(padded(lines), m, labels, s) {
            Res::Done(b0) => {
                let l = padded(lines)[m as int];
                let lo = end_off(lines, m);
                let at = item_off(lines, m);
                law_layout(lines, m);
                lemma_end_off_mono(lines, n, lines.len());
                assert(l.pad == (at - lo) as u64);
                let b2 = b0 + zeros(l.pad as nat);
                assert(b2.len() == at);
                lemma_end_off_mono(lines, 0, m);
                match emit(padded(lines), n, labels, s) {
                    Res::Done(b) => {
                        match l.kind {
                            LineKindV::Const(c) => {
                                law_const_len(LineV { label: None, pad: 0, kind: LineKindV::Const(c) }, c);
                                assert(b == b2 + const_bytes(c.kind));
                            },
                            LineKindV::Inst(inst) => {
                                let w = spec_encode_inst(inst, b2.len() as u64, labels, s)->Done_0;
                                lemma_le_len(w as nat, 4);
                                assert(b == b2 + le_bytes(w as nat, 4));
                            },
                        }
                        assert(b.len() == end_off(lines, n));
                        assert(forall|k: int| 0 <= k < b0.len() ==> b[k] == b0[k]);
                        assert forall|i: nat| i < n implies #[trigger] placed(b, lines, i, labels, s) by {
                            if i < m {
                                assert(placed(b0, lines, i, labels, s));
                                law_layout(lines, i);
                                lemma_end_off_mono(lines, i + 1, m);
                                lemma_end_off_mono(lines, 0, i);
                                assert(end_off(lines, i + 1) <= b0.len());
                                assert(b.subrange(end_off(lines, i), item_off(lines, i)) =~= b0.subrange(end_off(lines, i), item_off(lines, i)));
                                assert(b.subrange(item_off(lines, i), end_off(lines, i + 1)) =~= b0.subrange(item_off(lines, i), end_off(lines, i + 1)));
                            } else {
                                assert(b.subrange(lo, at) =~= zeros((at - lo) as nat));
                                assert(b.subrange(at, end_off(lines, n)) =~= b.subrange(b2.len() as int, b.len() as int));
                                assert(b.subrange(b2.len() as int, b.len() as int) =~= b.subrange(at, at + (b.len() - b2.len())));
                                match l.kind {
                                    LineKindV::Const(c) => {
                                        assert(b.subrange(at, end_off(lines, n)) =~= const_bytes(c.kind));
                                    },
                                    LineKindV::Inst(inst) => {
                                        let w = spec_encode_inst(inst, b2.len() as u64, labels, s)->Done_0;
                                        assert(b.subrange(at, end_off(lines, n)) =~= le_bytes(w as nat, 4));
                                    },
                                }
                            }
                        }
                    },
                    _ => {},
                }
            },
            _ => {},
        }
    }
}

} // verus!

verus! {

/// Line `k` carries the label `name`.
pub open spec fn labelled(lines: Seq<LineV>, k: int, name: Seq<char>) -> bool {
    lines[k].label matches Some(l) && l.name == name
}

proof fn lemma_entries_step(lines: Seq<LineV>, n: nat, name: Seq<char>)
    requires
        0 < n <= lines.len(),
    ensures
        !labelled(lines, n - 1, name) ==> label_lookup(label_entries(lines, n), name) == label_lookup(
            label_entries(lines, (n - 1) as nat),
            name,
        ),
        labelled(lines, n - 1, name) ==> label_lookup(label_entries(lines, n), name) == Some(
            item_off(lines, (n - 1) as nat) as u64,
        ),
{
    let m = (n - 1) as nat;
    let prev = label_entries(lines, m);
    match lines[m as int].label {
        Some(l) => {
            let e = prev.push((l.name, item_off(lines, m) as u64));
            assert(label_entries(lines, n) == e);
            assert(e.drop_last() =~= prev);
            assert(e.last() == (l.name, item_off(lines, m) as u64));
        },
        None => {},
    }
}

proof fn lemma_lookup_none(lines: Seq<LineV>, n: nat, name: Seq<char>)
    requires
        n <= lines.len(),
        forall|k: int| 0 <= k < n ==> !#[trigger] labelled(lines, k, name),
    ensures
        label_lookup(label_entries(lines, n), name) is None,
    decreases n,
{
    if n > 0 {
        assert(!labelled(lines, n - 1, name));
        lemma_entries_step(lines, n, name);
        lemma_lookup_none(lines, (n - 1) as nat, name);
    }
}

proof fn lemma_lookup_found(lines: Seq<LineV>, n: nat, name: Seq<char>, k: nat)
    requires
        k < n <= lines.len(),
        labelled(lines, k as int, name),
        forall|k2: int| k < k2 < n ==> !#[trigger] labelled(lines, k2, name),
    ensures
        label_lookup(label_entries(lines, n), name) == Some(item_off(lines, k) as u64),
    decreases n,
{
    lemma_entries_step(lines, n, name);
    if k < n - 1 {
        assert(!labelled(lines, n - 1, name));
        lemma_lookup_found(lines, (n - 1) as nat, name, k);
    }
}

/// How `encode` lays out a program as the parser gives it (no padding yet):
/// the first line starts at offset 0; each line starts at the first multiple
/// of its alignment after the end of the line before it, its padding being
/// the gap; the binary holds each line's bytes at its offset (an instruction
/// encoded at its own offset, labels standing for the offsets of their
/// lines), zeros everywhere else, and ends at the next multiple of 16 after
/// the last line.
pub proof fn law_encode_layout(lines: Seq<LineV>, s: SrcV)
    requires
        forall|k: int| 0 <= k < lines.len() ==> #[trigger] lines[k].pad == 0,
    ensures
        end_off(lines, 0) == 0,
        forall|i: nat|
            i < lines.len() ==> #[trigger] padded(lines)[i as int].pad == item_off(lines, i) - end_off(
                lines,
                i,
            ),
        encode_spec(lines, s) matches Res::Done(bin) ==> {
            &&& bin.len() == align_up(end_off(lines, lines.len()), 16)
            &&& forall|i: nat|
                i < lines.len() ==> #[trigger] placed(bin, lines, i, label_entries(lines, lines.len()), s)
            &&& forall|k: int| end_off(lines, lines.len()) <= k < bin.len() ==> bin[k] == 0
        },
{
    assert forall|i: nat| i < lines.len() implies #[trigger] padded(lines)[i as int].pad == item_off(
        lines,
        i,
    ) - end_off(lines, i) by {
        law_layout(lines, i);
    }
    let n = lines.len();
    let labels = label_entries(lines, n);
    if layout_fits(lines) {
        law_layout_places_bytes(lines, n, labels, s);
        match emit(padded(lines), n, labels, s) {
            Res::Done(b) => {
                let bin = pad16(b);
                lemma_align_up(b.len() as int, 16);
                assert forall|i: nat| i < n implies #[trigger] placed(bin, lines, i, labels, s) by {
                    assert(placed(b, lines, i, labels, s));
                    law_layout(lines, i);
                    lemma_end_off_mono(lines, i + 1, n);
                    lemma_end_off_mono(lines, i, n);
                    lemma_end_off_mono(lines, 0, i);
                    assert(b.len() == end_off(lines, n));
                    let lo = end_off(lines, i);
                    let at = item_off(lines, i);
                    let hi = end_off(lines, i + 1);
                    assert(bin.subrange(lo, at) =~= b.subrange(lo, at));
                    assert(bin.subrange(at, hi) =~= b.subrange(at, hi));
                }
            },
            _ => {},
        }
    }
}

/// A label stands for the offset of the last of the first `n` lines that
/// carry it; a name that no line carries stands for nothing.
pub proof fn law_label_lookup(lines: Seq<LineV>, n: nat, name: Seq<char>)
    requires
        n <= lines.len(),
    ensures
        (forall|k: int| 0 <= k < n ==> !#[trigger] labelled(lines, k, name)) ==> label_lookup(
            label_entries(lines, n),
            name,
        ) is None,
        forall|k: int|
            0 <= k < n && #[trigger] labelled(lines, k, name) && (forall|k2: int|
                k < k2 < n ==> !#[trigger] labelled(lines, k2, name)) ==> label_lookup(
                label_entries(lines, n),
                name,
            ) == Some(item_off(lines, k as nat) as u64),
{
    if forall|k: int| 0 <= k < n ==> !#[trigger] labelled(lines, k, name) {
        lemma_lookup_none(lines, n, name);
    }
    assert forall|k: int|
        0 <= k < n && #[trigger] labelled(lines, k, name) && (forall|k2: int|
            k < k2 < n ==> !#[trigger] labelled(lines, k2, name)) implies label_lookup(
        label_entries(lines, n),
        name,
    ) == Some(item_off(lines, k as nat) as u64) by {
        lemma_lookup_found(lines, n, name, k as nat);
    }
}

/// A label operand of the instruction of line `i` stands for the offset of
/// the line that carries the label (the last one that does), counted from
/// the instruction.
pub proof fn law_label_offset(lines: Seq<LineV>, i: nat, k: nat, label: IdentV, s: SrcV)
    requires
        i < lines.len(),
        k < lines.len(),
        layout_fits(lines),
        labelled(lines, k as int, label.name),
        forall|k2: int| k < k2 < lines.len() ==> !#[trigger] labelled(lines, k2, label.name),
    ensures
        resolve_label_spec(label, item_off(lines, i) as u64, label_entries(lines, lines.len()), s)
            == Res::Done(item_off(lines, k) - item_off(lines, i)),
{
    law_label_lookup(lines, lines.len(), label.name);
    assert(labelled(lines, k as int, label.name));
    lemma_end_off_mono(lines, i, lines.len());
    lemma_end_off_mono(lines, k, lines.len());
    lemma_end_off_mono(lines, 0, i);
    lemma_end_off_mono(lines, 0, k);
    law_layout(lines, i);
    law_layout(lines, k);
}

} // verus!

verus! {

/// `256` to the power of `n`.
pub open spec fn p256(n: nat) -> nat
    decreases n,
{
    if n == 0 {
        1
    } else {
        256 * p256((n - 1) as nat)
    }
}

/// The number whose bytes, least significant first, are `s`.
pub open spec fn le_value(s: Seq<u8>) -> nat
    decreases s.len(),
{
    if s.len() == 0 {
        0
    } else {
        s[0] as nat + 256 * le_value(s.drop_first())
    }
}

/// Numbers are written in little-endian order: reading the `n` bytes of `v`
/// back, least significant first, gives `v` modulo `256^n`.
pub proof fn law_le_bytes(v: nat, n: nat)
    ensures
        le_value(le_bytes(v, n)) == v % p256(n),
        le_bytes(v, n).len() == n,
    decreases n,
{
    lemma_le_len(v, n);
    if n == 0 {
        assert(le_bytes(v, n) =~= Seq::<u8>::empty());
    } else {
        let m = (n - 1) as nat;
        law_le_bytes(v / 256, m);
        let s = le_bytes(v, n);
        assert(s.drop_first() =~= le_bytes(v / 256, m));
        assert(p256(m) > 0) by {
            lemma_p256_pos(m);
        }
        vstd::arithmetic::div_mod::lemma_breakdown(v as int, 256, p256(m) as int);
    }
}

proof fn lemma_p256_pos(n: nat)
    ensures
        p256(n) > 0,
    decreases n,
{
    if n > 0 {
        lemma_p256_pos((n - 1) as nat);
    }
}

/// An instruction word whose fields fill 32 bits fits in 32 bits.
pub proof fn law_word_bits(fs: Seq<(int, nat)>)
    requires
        flen(fs) == 32,
    ensures
        0 <= pack(fs) < 0x1_0000_0000,
{
    lemma_pack_bound(fs);
    lemma2_to64();
}

} // verus!

verus! {

/// Number constants are written in little-endian order, negative ones in
/// two's complement: reading the bytes of a constant back, least
/// significant first, gives its value modulo 2 to the power of its width,
/// and the width is 1, 2, 4 or 8 bytes for the 8, 16, 32 or 64-bit kinds.
pub proof fn law_const_le(c: ConstV)
    ensures
        match c {
            ConstV::U8(x) => const_bytes(c).len() == 1 && le_value(const_bytes(c)) == x,
            ConstV::I8(x) => const_bytes(c).len() == 1 && le_value(const_bytes(c)) == x as int % 0x100,
            ConstV::U16(x) => const_bytes(c).len() == 2 && le_value(const_bytes(c)) == x,
            ConstV::I16(x) => const_bytes(c).len() == 2 && le_value(const_bytes(c)) == x as int % 0x1_0000,
            ConstV::U32(x) => const_bytes(c).len() == 4 && le_value(const_bytes(c)) == x,
            ConstV::I32(x) => const_bytes(c).len() == 4 && le_value(const_bytes(c)) == x as int
                % 0x1_0000_0000,
            ConstV::U64(x) => const_bytes(c).len() == 8 && le_value(const_bytes(c)) == x,
            ConstV::I64(x) => const_bytes(c).len() == 8 && le_value(const_bytes(c)) == x as int
                % 0x1_0000_0000_0000_0000,
            ConstV::Bytes(b) => const_bytes(c) == b,
            ConstV::Str(s) => const_bytes(c) == encode_utf8(s),
        },
{
    reveal_with_fuel(p256, 9);
    assert(p256(1) == 0x100);
    assert(p256(2) == 0x1_0000);
    assert(p256(4) == 0x1_0000_0000);
    assert(p256(8) == 0x1_0000_0000_0000_0000);
    match c {
        ConstV::U8(x) => law_le_bytes(x as nat, 1),
        ConstV::I8(x) => law_le_bytes((x as int % 0x100) as nat, 1),
        ConstV::U16(x) => law_le_bytes(x as nat, 2),
        ConstV::I16(x) => law_le_bytes((x as int % 0x1_0000) as nat, 2),
        ConstV::U32(x) => law_le_bytes(x as nat, 4),
        ConstV::I32(x) => law_le_bytes((x as int % 0x1_0000_0000) as nat, 4),
        ConstV::U64(x) => law_le_bytes(x as nat, 8),
        ConstV::I64(x) => law_le_bytes((x as int % 0x1_0000_0000_0000_0000) as nat, 8),
        _ => {},
    }
}

/// Every line sits at an offset that is a multiple of its size where it is
/// a number or an instruction: 2 for 16-bit numbers, 4 for 32-bit numbers
/// and instructions, 8 for 64-bit numbers; and it takes that many bytes
/// (1 for 8-bit numbers).
pub proof fn law_line_alignment(lines: Seq<LineV>, i: nat)
    requires
        i < lines.len(),
    ensures
        match lines[i as int].kind {
            LineKindV::Inst(_) => line_len(lines[i as int]) == 4 && item_off(lines, i) % 4 == 0,
            LineKindV::Const(c) => match c.kind {
                ConstV::U8(_) | ConstV::I8(_) => line_len(lines[i as int]) == 1,
                ConstV::U16(_) | ConstV::I16(_) => line_len(lines[i as int]) == 2 && item_off(lines, i) % 2
                    == 0,
                ConstV::U32(_) | ConstV::I32(_) => line_len(lines[i as int]) == 4 && item_off(lines, i) % 4
                    == 0,
                ConstV::U64(_) | ConstV::I64(_) => line_len(lines[i as int]) == 8 && item_off(lines, i) % 8
                    == 0,
                _ => true,
            },
        },
{
    law_layout(lines, i);
}

} // verus!
