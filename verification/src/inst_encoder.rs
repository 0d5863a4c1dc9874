use vstd::prelude::*;
use crate::tokenizer::{Source, SrcV, Span, span_text};
use crate::parser::{Reg, Shift, Inst, Ident, Operand, OperandKind, SImd, IdentV, OperandV, OpKindV, SImdV, InstV, ops_view};
use crate::encoder::{
    InstBuilder, LabelIndexes, SField, eval_upto, pack, flen, label_lookup, logic_level_ok,
    lones_res,
};
use crate::utils::{Fail, Res, fail, mk_err, str_eq, same_fail};

verus! {

const OP_DPR: u8 = 1;
const OP_DPI: u8 = 2;
const OP_MEM: u8 = 3;
const OP_BRANCH: u8 = 4;
const DPR_3REG: u8 = 0;
const DPR_2REG: u8 = 1;
const DPR_4REG: u8 = 2;
const DPR_2R_G0: u8 = 0;
const DPR_3R_G0: u8 = 0;


/// An operand as the encoder takes it: numbers are plain integers and
/// labels are replaced by their offsets from the instruction.
#[derive(Debug, Clone, Copy)]
pub enum Arg {
    GPR(Reg),
    PC(Reg),
    C0(Reg),
    ShReg(Reg, Shift),
    Imd(i128),
    LogicImd { level: u8, ones: u8, rot: u8 },
    Offset(i128, Span),
    BaseOffset { base: Reg, offset: i128, offset_span: Span, writeback: bool },
    BaseIndex { base: Reg, index: Reg, shift: u8, shift_span: Span },
}

/// The numbers of an operand are small enough for the encoder's arithmetic.
pub open spec fn arg_ok(a: Arg) -> bool {
    match a {
        Arg::Imd(v) => -0x1_0000_0000_0000_0000_0000 < v < 0x1_0000_0000_0000_0000_0000,
        Arg::Offset(v, _) => -0x1_0000_0000_0000_0000_0000 < v < 0x1_0000_0000_0000_0000_0000,
        Arg::BaseOffset { offset, .. } => -0x1_0000_0000_0000_0000_0000 < offset
            < 0x1_0000_0000_0000_0000_0000,
        _ => true,
    }
}

pub open spec fn args_ok(o: Seq<(Arg, Span)>) -> bool {
    forall|i: int| 0 <= i < o.len() ==> #[trigger] arg_ok(o[i].0)
}

/// The word given by the fields `fs`, or the error of the first field
/// that fails.
pub open spec fn eval_all(fs: Seq<SField>, source: SrcV) -> Res<int> {
    match eval_upto(fs, fs.len(), source) {
        Res::Done(f) => Res::Done(pack(f)),
        Res::Error(m, s) => Res::Error(m, s),
        Res::Halt => Res::Halt,
    }
}

/// `r` is the outcome `s`.
pub open spec fn agrees(r: Result<u32, Fail>, s: Res<int>) -> bool {
    match s {
        Res::Done(w) => r matches Ok(x) && x == w,
        Res::Error(m, sp) => r matches Err(Fail::Error(e)) && e.msg@ == m && e.span == sp,
        Res::Halt => r matches Err(Fail::Halt),
    }
}

pub open spec fn agrees_opt(r: Option<Result<u32, Fail>>, s: Option<Res<int>>) -> bool {
    match s {
        None => r is None,
        Some(x) => r matches Some(y) && agrees(y, x),
    }
}

// ---------------------------------------------------------------------------
// Instruction formats
// ---------------------------------------------------------------------------

/// Register and shifted-register operations: `pgrp` 1, group `1xxx`.
pub open spec fn s_shop(source: SrcV, grp: u8, o1: u8, sh: Shift, d: Reg, s1: Reg, s2: Reg) -> Res<int> {
    eval_all(
        seq![
            SField::Raw(1, 4),
            SField::Raw(grp as int, 4),
            SField::ShK(sh),
            SField::ShA(sh),
            SField::Raw(o1 as int, 1),
            SField::Gpr(d),
            SField::Gpr(s1),
            SField::Gpr(s2),
        ],
        source,
    )
}

#[verifier::rlimit(40)]
fn e_shop(source: &Source, grp: u8, o1: u8, sh: Shift, d: Reg, s1: Reg, s2: Reg) -> (r: Result<u32, Fail>)
    ensures
        agrees(r, s_shop(source@, grp, o1, sh, d, s1, s2)),
{
    proof {
        reveal_with_fuel(eval_upto, 9);
    }
    let b = InstBuilder::new(source);
    Ok(b.b4(OP_DPR).b4(grp).shift(sh).b1(o1).gpr(d).gpr(s1).gpr(s2).finish())
}

/// Logic operations with a logic immediate.
pub open spec fn s_limd(source: SrcV, op1: u8, o2: u8, d: Reg, s1: Reg, level: u8, ones: u8, rot: u8) -> Res<int> {
    eval_all(
        seq![
            SField::Raw(2, 4),
            SField::Raw(op1 as int, 4),
            SField::Raw(o2 as int, 1),
            SField::L0(level),
            SField::Gpr(d),
            SField::Gpr(s1),
            SField::LOnes(level, ones),
            SField::Raw(rot as int, 6),
        ],
        source,
    )
}

#[verifier::rlimit(40)]
fn e_limd(source: &Source, op1: u8, o2: u8, d: Reg, s1: Reg, level: u8, ones: u8, rot: u8) -> (r: Result<u32, Fail>)
    ensures
        agrees(r, s_limd(source@, op1, o2, d, s1, level, ones, rot)),
{
    proof {
        reveal_with_fuel(eval_upto, 9);
        reveal(lones_res);
    }
    let b = InstBuilder::new(source);
    let b = b.b4(OP_DPI).b4(op1).b1(o2).limd_l0(level).gpr(d).gpr(s1);
    if !(level == 2 || level == 4 || level == 8 || level == 16 || level == 32 || level == 64) || ones == 0 {
        return Err(Fail::Halt);
    }
    Ok(b.logic_imd(level, ones, rot).finish())
}

/// Four-register operations.
pub open spec fn s_dpr4(source: SrcV, op: u8, a: Reg, b: Reg, c: Reg, e: Reg) -> Res<int> {
    eval_all(
        seq![
            SField::Raw(1, 4),
            SField::Raw(2, 4),
            SField::Raw(op as int, 4),
            SField::Gpr(a),
            SField::Gpr(b),
            SField::Gpr(c),
            SField::Gpr(e),
        ],
        source,
    )
}

#[verifier::rlimit(40)]
fn e_dpr4(source: &Source, op: u8, a: Reg, b: Reg, c: Reg, e: Reg) -> (r: Result<u32, Fail>)
    ensures
        agrees(r, s_dpr4(source@, op, a, b, c, e)),
{
    proof {
        reveal_with_fuel(eval_upto, 8);
    }
    let bd = InstBuilder::new(source);
    Ok(bd.b4(OP_DPR).b4(DPR_4REG).b4(op).gpr(a).gpr(b).gpr(c).gpr(e).finish())
}

/// Four-register operations whose last operand is a condition register.
pub open spec fn s_dpr4c(source: SrcV, op: u8, a: Reg, b: Reg, c: Reg, cond: Reg, csp: Span) -> Res<int> {
    eval_all(
        seq![
            SField::Raw(1, 4),
            SField::Raw(2, 4),
            SField::Raw(op as int, 4),
            SField::Gpr(a),
            SField::Gpr(b),
            SField::Gpr(c),
            SField::Cond(cond, csp),
        ],
        source,
    )
}

#[verifier::rlimit(40)]
fn e_dpr4c(source: &Source, op: u8, a: Reg, b: Reg, c: Reg, cond: Reg, csp: Span) -> (r: Result<u32, Fail>)
    ensures
        agrees(r, s_dpr4c(source@, op, a, b, c, cond, csp)),
{
    proof {
        reveal_with_fuel(eval_upto, 8);
    }
    let bd = InstBuilder::new(source);
    let bd = bd.b4(OP_DPR).b4(DPR_4REG).b4(op).gpr(a).gpr(b).gpr(c);
    let bd = bd.cond(cond, csp)?;
    Ok(bd.finish())
}

/// Three-register operations of group 0.
pub open spec fn s_g0(source: SrcV, op: u8, d: Reg, s1: Reg, s2: Reg) -> Res<int> {
    eval_all(
        seq![
            SField::Raw(1, 4),
            SField::Raw(0, 4),
            SField::Raw(0, 4),
            SField::Raw(op as int, 5),
            SField::Gpr(d),
            SField::Gpr(s1),
            SField::Gpr(s2),
        ],
        source,
    )
}

#[verifier::rlimit(40)]
fn e_g0(source: &Source, op: u8, d: Reg, s1: Reg, s2: Reg) -> (r: Result<u32, Fail>)
    ensures
        agrees(r, s_g0(source@, op, d, s1, s2)),
{
    proof {
        reveal_with_fuel(eval_upto, 8);
    }
    let b = InstBuilder::new(source);
    Ok(b.b4(OP_DPR).b4(DPR_3REG).b4(DPR_3R_G0).b5(op).gpr(d).gpr(s1).gpr(s2).finish())
}

/// Conditional operations of group 0.
pub open spec fn s_g0c(source: SrcV, op: u8, d: Reg, c: Reg, csp: Span, s: Reg) -> Res<int> {
    eval_all(
        seq![
            SField::Raw(1, 4),
            SField::Raw(0, 4),
            SField::Raw(0, 4),
            SField::Raw(op as int, 5),
            SField::Gpr(d),
            SField::Cond(c, csp),
            SField::Gpr(s),
        ],
        source,
    )
}

#[verifier::rlimit(40)]
fn e_g0c(source: &Source, op: u8, d: Reg, c: Reg, csp: Span, s: Reg) -> (r: Result<u32, Fail>)
    ensures
        agrees(r, s_g0c(source@, op, d, c, csp, s)),
{
    proof {
        reveal_with_fuel(eval_upto, 8);
    }
    let b = InstBuilder::new(source);
    let b = b.b4(OP_DPR).b4(DPR_3REG).b4(DPR_3R_G0).b5(op).gpr(d);
    let b = b.cond(c, csp)?;
    Ok(b.gpr(s).finish())
}

/// Two-register operations.
pub open spec fn s_dpr2(source: SrcV, op: u8, d: Reg, s: Reg) -> Res<int> {
    eval_all(
        seq![
            SField::Raw(1, 4),
            SField::Raw(1, 4),
            SField::Raw(0, 8),
            SField::Raw(op as int, 6),
            SField::Gpr(d),
            SField::Gpr(s),
        ],
        source,
    )
}

#[verifier::rlimit(40)]
fn e_dpr2(source: &Source, op: u8, d: Reg, s: Reg) -> (r: Result<u32, Fail>)
    ensures
        agrees(r, s_dpr2(source@, op, d, s)),
{
    proof {
        reveal_with_fuel(eval_upto, 7);
    }
    let b = InstBuilder::new(source);
    Ok(b.b4(OP_DPR).b4(DPR_2REG).b8(DPR_2R_G0).b6(op).gpr(d).gpr(s).finish())
}

/// Register comparisons and bit tests: group, operation and the way the
/// condition is written.
pub open spec fn s_comp3(source: SrcV, grp: u8, op: u8, cw: u8, c: Reg, csp: Span, s1: Reg, s2: Reg) -> Res<int> {
    eval_all(
        seq![
            SField::Raw(1, 4),
            SField::Raw(0, 4),
            SField::Raw(grp as int, 4),
            SField::Raw(op as int, 3),
            SField::Raw(cw as int, 2),
            SField::Cond(c, csp),
            SField::Gpr(s1),
            SField::Gpr(s2),
        ],
        source,
    )
}

#[verifier::rlimit(40)]
fn e_comp3(source: &Source, grp: u8, op: u8, cw: u8, c: Reg, csp: Span, s1: Reg, s2: Reg) -> (r: Result<u32, Fail>)
    ensures
        agrees(r, s_comp3(source@, grp, op, cw, c, csp, s1, s2)),
{
    proof {
        reveal_with_fuel(eval_upto, 9);
    }
    let b = InstBuilder::new(source);
    let b = b.b4(OP_DPR).b4(DPR_3REG).b4(grp).b3(op).b2(cw);
    let b = b.cond(c, csp)?;
    Ok(b.gpr(s1).gpr(s2).finish())
}

/// Comparisons with an immediate, signed or unsigned.
pub open spec fn s_compi(source: SrcV, grp: u8, op: u8, ca: u8, c: Reg, csp: Span, s1: Reg, v: i128, vsp: Span, signed: bool) -> Res<int> {
    eval_all(
        seq![
            SField::Raw(2, 4),
            SField::Raw(grp as int, 4),
            SField::Raw(op as int, 1),
            SField::Raw(ca as int, 1),
            SField::Cond(c, csp),
            SField::Gpr(s1),
            if signed {
                SField::SImd(v as int, 12, vsp)
            } else {
                SField::UImd(v as int, 12, vsp)
            },
        ],
        source,
    )
}

#[verifier::rlimit(40)]
fn e_compi(source: &Source, grp: u8, op: u8, ca: u8, c: Reg, csp: Span, s1: Reg, v: i128, vsp: Span, signed: bool) -> (r: Result<u32, Fail>)
    ensures
        agrees(r, s_compi(source@, grp, op, ca, c, csp, s1, v, vsp, signed)),
{
    proof {
        reveal_with_fuel(eval_upto, 8);
    }
    let b = InstBuilder::new(source);
    let b = b.b4(OP_DPI).b4(grp).b1(op).b1(ca);
    let b = b.cond(c, csp)?;
    let b = b.gpr(s1);
    let b = if signed {
        b.s_imd(v, 12, vsp)?
    } else {
        b.u_imd(v, 12, vsp)?
    };
    Ok(b.finish())
}

/// Bit tests with a logic immediate.
pub open spec fn s_testi(source: SrcV, grp: u8, ca: u8, c: Reg, csp: Span, s: Reg, level: u8, ones: u8, rot: u8) -> Res<int> {
    eval_all(
        seq![
            SField::Raw(2, 4),
            SField::Raw(grp as int, 4),
            SField::Raw(ca as int, 1),
            SField::L0(level),
            SField::Cond(c, csp),
            SField::Gpr(s),
            SField::LOnes(level, ones),
            SField::Raw(rot as int, 6),
        ],
        source,
    )
}

#[verifier::rlimit(40)]
fn e_testi(source: &Source, grp: u8, ca: u8, c: Reg, csp: Span, s: Reg, level: u8, ones: u8, rot: u8) -> (r: Result<u32, Fail>)
    ensures
        agrees(r, s_testi(source@, grp, ca, c, csp, s, level, ones, rot)),
{
    proof {
        reveal_with_fuel(eval_upto, 9);
        reveal(lones_res);
    }
    let b = InstBuilder::new(source);
    let b = b.b4(OP_DPI).b4(grp).b1(ca).limd_l0(level);
    let b = b.cond(c, csp)?;
    if !(level == 2 || level == 4 || level == 8 || level == 16 || level == 32 || level == 64) || ones == 0 {
        return Err(Fail::Halt);
    }
    Ok(b.gpr(s).logic_imd(level, ones, rot).finish())
}

/// Shifts by an immediate: `or dst, r0, src <shift> amount`.
pub open spec fn s_shimd(source: SrcV, k: u8, d: Reg, s: Reg, a: i128, asp: Span) -> Res<int> {
    eval_all(
        seq![
            SField::Raw(1, 4),
            SField::Raw(9, 4),
            SField::Raw(k as int, 2),
            SField::UImd(a as int, 6, asp),
            SField::Raw(1, 1),
            SField::Gpr(d),
            SField::Gpr(Reg::R0),
            SField::Gpr(s),
        ],
        source,
    )
}

#[verifier::rlimit(40)]
fn e_shimd(source: &Source, k: u8, d: Reg, s: Reg, a: i128, asp: Span) -> (r: Result<u32, Fail>)
    ensures
        agrees(r, s_shimd(source@, k, d, s, a, asp)),
{
    proof {
        reveal_with_fuel(eval_upto, 9);
    }
    let b = InstBuilder::new(source);
    let b = b.b4(OP_DPR).b4(9).b2(k);
    let b = b.u_imd(a, 6, asp)?;
    Ok(b.b1(1).gpr(d).gpr(Reg::R0).gpr(s).finish())
}

/// Arithmetic with a 12-bit unsigned immediate; the register operand may
/// be `pc` where `pc_ok`.
pub open spec fn s_ai(source: SrcV, op: u8, d: Reg, s: Reg, pc_ok: bool, ssp: Span, v: i128, vsp: Span) -> Res<int> {
    eval_all(
        seq![
            SField::Raw(2, 4),
            SField::Raw(4, 4),
            SField::Raw(op as int, 2),
            SField::Gpr(d),
            if pc_ok {
                SField::GprPc(s, ssp)
            } else {
                SField::Gpr(s)
            },
            SField::UImd(v as int, 12, vsp),
        ],
        source,
    )
}

#[verifier::rlimit(40)]
fn e_ai(source: &Source, op: u8, d: Reg, s: Reg, pc_ok: bool, ssp: Span, v: i128, vsp: Span) -> (r: Result<u32, Fail>)
    ensures
        agrees(r, s_ai(source@, op, d, s, pc_ok, ssp, v, vsp)),
{
    proof {
        reveal_with_fuel(eval_upto, 7);
    }
    let b = InstBuilder::new(source);
    let b = b.b4(OP_DPI).b4(4).b2(op).gpr(d);
    let b = if pc_ok {
        b.gpr_pc(s, ssp)?
    } else {
        b.gpr(s)
    };
    let b = b.u_imd(v, 12, vsp)?;
    Ok(b.finish())
}

/// `mov` of a 16-bit immediate.
pub open spec fn s_movw(source: SrcV, d: Reg, v: i128, vsp: Span) -> Res<int> {
    eval_all(
        seq![
            SField::Raw(2, 4),
            SField::Raw(10, 4),
            SField::Raw(0, 3),
            SField::Gpr(d),
            SField::UImd(v as int, 16, vsp),
        ],
        source,
    )
}

#[verifier::rlimit(40)]
fn e_movw(source: &Source, d: Reg, v: i128, vsp: Span) -> (r: Result<u32, Fail>)
    ensures
        agrees(r, s_movw(source@, d, v, vsp)),
{
    proof {
        reveal_with_fuel(eval_upto, 6);
    }
    let b = InstBuilder::new(source);
    let b = b.b4(OP_DPI).b4(10).b3(0).gpr(d);
    Ok(b.u_imd(v, 16, vsp)?.finish())
}

/// `mov` and `mov.keep` of a 16-bit immediate into the 16-bit part `sh`.
pub open spec fn s_movk(source: SrcV, keep: u8, d: Reg, v: i128, vsp: Span, sh: i128, shsp: Span) -> Res<int> {
    eval_all(
        seq![
            SField::Raw(2, 4),
            SField::Raw(10, 4),
            SField::Raw(keep as int, 1),
            SField::UImd(sh as int, 2, shsp),
            SField::Gpr(d),
            SField::UImd(v as int, 16, vsp),
        ],
        source,
    )
}

#[verifier::rlimit(40)]
fn e_movk(source: &Source, keep: u8, d: Reg, v: i128, vsp: Span, sh: i128, shsp: Span) -> (r: Result<u32, Fail>)
    ensures
        agrees(r, s_movk(source@, keep, d, v, vsp, sh, shsp)),
{
    proof {
        reveal_with_fuel(eval_upto, 7);
    }
    let b = InstBuilder::new(source);
    let b = b.b4(OP_DPI).b4(10).b1(keep);
    let b = b.u_imd(sh, 2, shsp)?;
    let b = b.gpr(d);
    Ok(b.u_imd(v, 16, vsp)?.finish())
}

/// Bitfield operations with immediate offset and width (the width field
/// holds one less than the number of bits).
pub open spec fn s_bf(source: SrcV, op: u8, d: Reg, s: Reg, o: i128, osp: Span, w: i128, wsp: Span) -> Res<int> {
    eval_all(
        seq![
            SField::Raw(2, 4),
            SField::Raw(12, 4),
            SField::Raw(op as int, 2),
            SField::Gpr(d),
            SField::Gpr(s),
            SField::UImd(o as int, 6, osp),
            SField::UImd(w as int, 6, wsp),
        ],
        source,
    )
}

#[verifier::rlimit(40)]
fn e_bf(source: &Source, op: u8, d: Reg, s: Reg, o: i128, osp: Span, w: i128, wsp: Span) -> (r: Result<u32, Fail>)
    ensures
        agrees(r, s_bf(source@, op, d, s, o, osp, w, wsp)),
{
    proof {
        reveal_with_fuel(eval_upto, 8);
    }
    let b = InstBuilder::new(source);
    let b = b.b4(OP_DPI).b4(12).b2(op).gpr(d).gpr(s);
    let b = b.u_imd(o, 6, osp)?;
    Ok(b.u_imd(w, 6, wsp)?.finish())
}

/// `sel` between two registers.
pub open spec fn s_selr(source: SrcV, d: Reg, c: Reg, csp: Span, s1: Reg, s2: Reg) -> Res<int> {
    eval_all(
        seq![
            SField::Raw(1, 4),
            SField::Raw(2, 4),
            SField::Raw(11, 4),
            SField::Gpr(d),
            SField::Cond(c, csp),
            SField::Gpr(s1),
            SField::Gpr(s2),
        ],
        source,
    )
}

#[verifier::rlimit(40)]
fn e_selr(source: &Source, d: Reg, c: Reg, csp: Span, s1: Reg, s2: Reg) -> (r: Result<u32, Fail>)
    ensures
        agrees(r, s_selr(source@, d, c, csp, s1, s2)),
{
    proof {
        reveal_with_fuel(eval_upto, 8);
    }
    let b = InstBuilder::new(source);
    let b = b.b4(OP_DPR).b4(DPR_4REG).b4(11).gpr(d);
    let b = b.cond(c, csp)?;
    Ok(b.gpr(s1).gpr(s2).finish())
}

/// `sel` between a register and a 9-bit signed immediate, whose sign bit
/// comes first.
pub open spec fn s_seli(source: SrcV, d: Reg, c: Reg, csp: Span, s1: Reg, v: i128, vsp: Span) -> Res<int> {
    eval_all(
        seq![
            SField::Raw(2, 4),
            SField::Raw(11, 4),
            SField::Raw(if v < 0 { 1 } else { 0 }, 1),
            SField::Gpr(d),
            SField::Cond(c, csp),
            SField::Gpr(s1),
            SField::S9(v as int, vsp),
        ],
        source,
    )
}

#[verifier::rlimit(40)]
fn e_seli(source: &Source, d: Reg, c: Reg, csp: Span, s1: Reg, v: i128, vsp: Span) -> (r: Result<u32, Fail>)
    ensures
        agrees(r, s_seli(source@, d, c, csp, s1, v, vsp)),
{
    proof {
        reveal_with_fuel(eval_upto, 8);
    }
    let b = InstBuilder::new(source);
    let b = b.b4(OP_DPI).b4(11).b1(if v < 0 { 1 } else { 0 }).gpr(d);
    let b = b.cond(c, csp)?;
    let b = b.gpr(s1);
    Ok(b.s_imd_no_sbit(v, vsp)?.finish())
}

/// An offset field of width `len`: scaled by `2^k` for `Some(k)`, plain for
/// byte accesses.
pub open spec fn off_field(v: i128, len: nat, scale: Option<u8>, sp: Span) -> SField {
    match scale {
        Some(k) => SField::Scaled(v as int, len, k as nat, sp),
        None => SField::SImd(v as int, len, sp),
    }
}

/// Loads relative to the instruction.
pub open spec fn s_mem_off(source: SrcV, sz: u8, scale: Option<u8>, d: Reg, off: i128, osp: Span) -> Res<int> {
    eval_all(
        seq![
            SField::Raw(3, 4),
            SField::Raw(3, 2),
            SField::Raw(sz as int, 2),
            off_field(off, 19, scale, osp),
            SField::Gpr(d),
        ],
        source,
    )
}

#[verifier::rlimit(40)]
fn e_mem_off(source: &Source, sz: u8, scale: Option<u8>, d: Reg, off: i128, osp: Span) -> (r: Result<u32, Fail>)
    requires
        scale matches Some(k) ==> k <= 3,
        -0x1_0000_0000_0000_0000_0000 < off < 0x1_0000_0000_0000_0000_0000,
    ensures
        agrees(r, s_mem_off(source@, sz, scale, d, off, osp)),
{
    proof {
        reveal_with_fuel(eval_upto, 6);
    }
    let b = InstBuilder::new(source);
    let b = b.b4(OP_MEM).b2(3).b2(sz);
    let b = match scale {
        Some(k) => b.scaled_s_imd(off, 19, k, osp)?,
        None => b.s_imd(off, 19, osp)?,
    };
    Ok(b.gpr(d).finish())
}

/// Accesses at a base register plus an offset: the addressing mode is `0w`,
/// its low bit `w` set for write-back.
pub open spec fn s_mem_bo(source: SrcV, op: u8, sz: u8, scale: Option<u8>, d: Reg, base: Reg, off: i128, osp: Span, wb: bool) -> Res<int> {
    eval_all(
        seq![
            SField::Raw(3, 4),
            SField::Raw(if wb { 1 } else { 0 }, 1),
            SField::Raw(0, 1),
            SField::Raw(op as int, 2),
            SField::Raw(sz as int, 2),
            SField::Gpr(d),
            SField::Gpr(base),
            off_field(off, 12, scale, osp),
        ],
        source,
    )
}

#[verifier::rlimit(40)]
fn e_mem_bo(source: &Source, op: u8, sz: u8, scale: Option<u8>, d: Reg, base: Reg, off: i128, osp: Span, wb: bool) -> (r: Result<u32, Fail>)
    requires
        scale matches Some(k) ==> k <= 3,
        -0x1_0000_0000_0000_0000_0000 < off < 0x1_0000_0000_0000_0000_0000,
    ensures
        agrees(r, s_mem_bo(source@, op, sz, scale, d, base, off, osp, wb)),
{
    proof {
        reveal_with_fuel(eval_upto, 9);
    }
    let b = InstBuilder::new(source);
    let b = b.b4(OP_MEM).b1(if wb { 1 } else { 0 }).b1(0).b2(op).b2(sz).gpr(d).gpr(base);
    let b = match scale {
        Some(k) => b.scaled_s_imd(off, 12, k, osp)?,
        None => b.s_imd(off, 12, osp)?,
    };
    Ok(b.finish())
}

/// Accesses at a base register plus an index register, scaled by `2^scale`
/// or not.
pub open spec fn s_mem_bi(source: SrcV, op: u8, sz: u8, scale: u8, d: Reg, base: Reg, index: Reg, shift: u8, ssp: Span) -> Res<int> {
    eval_all(
        seq![
            SField::Raw(3, 4),
            SField::Raw(2, 2),
            SField::Raw(0, 6),
            SField::Raw(op as int, 2),
            SField::Raw(sz as int, 2),
            SField::IndSh(shift as int, scale as nat, ssp),
            SField::Gpr(d),
            SField::Gpr(base),
            SField::Gpr(index),
        ],
        source,
    )
}

#[verifier::rlimit(40)]
fn e_mem_bi(source: &Source, op: u8, sz: u8, scale: u8, d: Reg, base: Reg, index: Reg, shift: u8, ssp: Span) -> (r: Result<u32, Fail>)
    ensures
        agrees(r, s_mem_bi(source@, op, sz, scale, d, base, index, shift, ssp)),
{
    proof {
        reveal_with_fuel(eval_upto, 10);
    }
    let b = InstBuilder::new(source);
    let b = b.b4(OP_MEM).b2(2).b6(0).b2(op).b2(sz);
    let b = b.ind_sh(shift, scale, ssp)?;
    Ok(b.gpr(d).gpr(base).gpr(index).finish())
}

/// Byte accesses at a base register plus an unshifted index register.
pub open spec fn s_mem_bi0(source: SrcV, op: u8, sz: u8, d: Reg, base: Reg, index: Reg) -> Res<int> {
    eval_all(
        seq![
            SField::Raw(3, 4),
            SField::Raw(2, 2),
            SField::Raw(0, 6),
            SField::Raw(op as int, 2),
            SField::Raw(sz as int, 2),
            SField::Raw(0, 1),
            SField::Gpr(d),
            SField::Gpr(base),
            SField::Gpr(index),
        ],
        source,
    )
}

#[verifier::rlimit(40)]
fn e_mem_bi0(source: &Source, op: u8, sz: u8, d: Reg, base: Reg, index: Reg) -> (r: Result<u32, Fail>)
    ensures
        agrees(r, s_mem_bi0(source@, op, sz, d, base, index)),
{
    proof {
        reveal_with_fuel(eval_upto, 10);
    }
    let b = InstBuilder::new(source);
    let b = b.b4(OP_MEM).b2(2).b6(0).b2(op).b2(sz).b1(0);
    Ok(b.gpr(d).gpr(base).gpr(index).finish())
}

/// An unconditional branch by an offset from the instruction, scaled by 4.
pub open spec fn s_br(source: SrcV, v: i128, vsp: Span) -> Res<int> {
    eval_all(seq![SField::Raw(4, 4), SField::Raw(0, 4), SField::Scaled(v as int, 24, 2, vsp)], source)
}

#[verifier::rlimit(40)]
fn e_br(source: &Source, v: i128, vsp: Span) -> (r: Result<u32, Fail>)
    requires
        -0x1_0000_0000_0000_0000_0000 < v < 0x1_0000_0000_0000_0000_0000,
    ensures
        agrees(r, s_br(source@, v, vsp)),
{
    proof {
        reveal_with_fuel(eval_upto, 4);
    }
    let b = InstBuilder::new(source);
    let b = b.b4(OP_BRANCH).b4(0);
    Ok(b.scaled_s_imd(v, 24, 2, vsp)?.finish())
}

/// A branch by an offset from the instruction, scaled by 4, that keeps the
/// return address in the register `l`.
pub open spec fn s_brl(source: SrcV, l: Reg, v: i128, vsp: Span) -> Res<int> {
    eval_all(
        seq![SField::Raw(4, 4), SField::Raw(1, 4), SField::Gpr(l), SField::Scaled(v as int, 19, 2, vsp)],
        source,
    )
}

#[verifier::rlimit(40)]
fn e_brl(source: &Source, l: Reg, v: i128, vsp: Span) -> (r: Result<u32, Fail>)
    requires
        -0x1_0000_0000_0000_0000_0000 < v < 0x1_0000_0000_0000_0000_0000,
    ensures
        agrees(r, s_brl(source@, l, v, vsp)),
{
    proof {
        reveal_with_fuel(eval_upto, 5);
    }
    let b = InstBuilder::new(source);
    let b = b.b4(OP_BRANCH).b4(1).gpr(l);
    Ok(b.scaled_s_imd(v, 19, 2, vsp)?.finish())
}

/// A branch on the condition register `c` by an offset from the instruction,
/// scaled by 4; `t` is 1 where the branch is taken on true.
pub open spec fn s_brc(source: SrcV, t: u8, c: Reg, csp: Span, v: i128, vsp: Span) -> Res<int> {
    eval_all(
        seq![
            SField::Raw(4, 4),
            SField::Raw(2 + t as int, 4),
            SField::Cond(c, csp),
            SField::Scaled(v as int, 19, 2, vsp),
        ],
        source,
    )
}

#[verifier::rlimit(40)]
fn e_brc(source: &Source, t: u8, c: Reg, csp: Span, v: i128, vsp: Span) -> (r: Result<u32, Fail>)
    requires
        t <= 1,
        -0x1_0000_0000_0000_0000_0000 < v < 0x1_0000_0000_0000_0000_0000,
    ensures
        agrees(r, s_brc(source@, t, c, csp, v, vsp)),
{
    proof {
        reveal_with_fuel(eval_upto, 5);
    }
    let b = InstBuilder::new(source);
    let b = b.b4(OP_BRANCH).b4(2 + t);
    let b = b.cond(c, csp)?;
    Ok(b.scaled_s_imd(v, 19, 2, vsp)?.finish())
}


/// A jump to a base register plus an index register scaled by 4 and shifted
/// further by `shift`, keeping the return address in `l`.
pub open spec fn s_jmpi(source: SrcV, l: Reg, base: Reg, index: Reg, shift: u8, ssp: Span) -> Res<int> {
    eval_all(
        seq![
            SField::Raw(4, 4),
            SField::Raw(4, 4),
            SField::Raw(0, 4),
            SField::Gpr(l),
            SField::Gpr(base),
            SField::Gpr(index),
            SField::UImd(shift as int, 3, ssp),
            SField::Raw(0, 2),
        ],
        source,
    )
}

#[verifier::rlimit(40)]
fn e_jmpi(source: &Source, l: Reg, base: Reg, index: Reg, shift: u8, ssp: Span) -> (r: Result<u32, Fail>)
    ensures
        agrees(r, s_jmpi(source@, l, base, index, shift, ssp)),
{
    proof {
        reveal_with_fuel(eval_upto, 9);
    }
    let b = InstBuilder::new(source);
    let b = b.b4(OP_BRANCH).b4(4).b4(0).gpr(l).gpr(base).gpr(index);
    let b = b.u_imd(shift as i128, 3, ssp)?;
    Ok(b.b2(0).finish())
}

/// A jump to a base register plus an offset scaled by 4, keeping the return
/// address in `l`.
pub open spec fn s_jmpo(source: SrcV, l: Reg, base: Reg, off: i128, osp: Span) -> Res<int> {
    eval_all(
        seq![
            SField::Raw(4, 4),
            SField::Raw(4, 4),
            SField::Raw(1, 4),
            SField::Gpr(l),
            SField::Gpr(base),
            SField::Scaled(off as int, 10, 2, osp),
        ],
        source,
    )
}

#[verifier::rlimit(40)]
fn e_jmpo(source: &Source, l: Reg, base: Reg, off: i128, osp: Span) -> (r: Result<u32, Fail>)
    requires
        -0x1_0000_0000_0000_0000_0000 < off < 0x1_0000_0000_0000_0000_0000,
    ensures
        agrees(r, s_jmpo(source@, l, base, off, osp)),
{
    proof {
        reveal_with_fuel(eval_upto, 7);
    }
    let b = InstBuilder::new(source);
    let b = b.b4(OP_BRANCH).b4(4).b4(1).gpr(l).gpr(base);
    Ok(b.scaled_s_imd(off, 10, 2, osp)?.finish())
}

/// The end of execution.
pub open spec fn s_halt(source: SrcV) -> Res<int> {
    eval_all(seq![SField::Raw(4, 4), SField::Raw(4, 4), SField::Raw(2, 4), SField::Raw(0, 20)], source)
}

#[verifier::rlimit(40)]
fn e_halt(source: &Source) -> (r: Result<u32, Fail>)
    ensures
        agrees(r, s_halt(source@)),
{
    proof {
        reveal_with_fuel(eval_upto, 5);
    }
    let b = InstBuilder::new(source);
    Ok(b.b4(OP_BRANCH).b4(4).b4(2).b(0, 20).finish())
}

/// The instructions the assembler knows.
#[derive(Debug, Clone, Copy, PartialEq, Eq, Structural)]
pub enum Mnemonic {
    Add,
    AddCarry,
    Sub,
    SubBorrow,
    Mult,
    MultFull,
    Madd,
    Msub,
    Div,
    Rem,
    DivFull,
    Udiv,
    Urem,
    UdivFull,
    Cinc,
    Abs,
    Neg,
    Cneg,
    Se8,
    Se16,
    Se32,
    Min,
    Max,
    Umin,
    Umax,
    CompEq,
    CompEqAnd,
    CompEqOr,
    CompNe,
    CompNeAnd,
    CompNeOr,
    CompGt,
    CompGtAnd,
    CompGtOr,
    CompLe,
    CompLeAnd,
    CompLeOr,
    UcompGt,
    UcompGtAnd,
    UcompGtOr,
    UcompLe,
    UcompLeAnd,
    UcompLeOr,
    Not,
    Cnot,
    And,
    Or,
    Xor,
    Imply,
    Nand,
    Nor,
    Xnor,
    Bcr,
    TestNone,
    TestNoneAnd,
    TestNoneOr,
    TestAny,
    TestAnyAnd,
    TestAnyOr,
    TestAll,
    TestAllAnd,
    TestAllOr,
    Shl,
    Shr,
    Sar,
    Rol,
    Fush,
    Bfext,
    Bfins,
    Cnt,
    Cntz,
    Clz,
    Clo,
    Ctz,
    Cto,
    Cls,
    Rev,
    Rev32,
    Rev16,
    Rev8,
    Mov,
    MovKeep,
    Sel,
    Ld,
    Ld32,
    Ld16,
    Ld8,
    St,
    St32,
    St16,
    St8,
    LdS32,
    LdS16,
    LdS8,
    Br,
    BrTrue,
    BrFalse,
    Jmp,
    Halt,
}

/// The instruction named `name`.
pub open spec fn mnemonic_of(name: Seq<char>) -> Option<Mnemonic> {
    if name == "add"@ {
        Some(Mnemonic::Add)
    } else if name == "add.carry"@ {
        Some(Mnemonic::AddCarry)
    } else if name == "sub"@ {
        Some(Mnemonic::Sub)
    } else if name == "sub.borrow"@ {
        Some(Mnemonic::SubBorrow)
    } else if name == "mult"@ {
        Some(Mnemonic::Mult)
    } else if name == "mult.full"@ {
        Some(Mnemonic::MultFull)
    } else if name == "madd"@ {
        Some(Mnemonic::Madd)
    } else if name == "msub"@ {
        Some(Mnemonic::Msub)
    } else if name == "div"@ {
        Some(Mnemonic::Div)
    } else if name == "rem"@ {
        Some(Mnemonic::Rem)
    } else if name == "div.full"@ {
        Some(Mnemonic::DivFull)
    } else if name == "udiv"@ {
        Some(Mnemonic::Udiv)
    } else if name == "urem"@ {
        Some(Mnemonic::Urem)
    } else if name == "udiv.full"@ {
        Some(Mnemonic::UdivFull)
    } else if name == "cinc"@ {
        Some(Mnemonic::Cinc)
    } else if name == "abs"@ {
        Some(Mnemonic::Abs)
    } else if name == "neg"@ {
        Some(Mnemonic::Neg)
    } else if name == "cneg"@ {
        Some(Mnemonic::Cneg)
    } else if name == "se.8"@ {
        Some(Mnemonic::Se8)
    } else if name == "se.16"@ {
        Some(Mnemonic::Se16)
    } else if name == "se.32"@ {
        Some(Mnemonic::Se32)
    } else if name == "min"@ {
        Some(Mnemonic::Min)
    } else if name == "max"@ {
        Some(Mnemonic::Max)
    } else if name == "umin"@ {
        Some(Mnemonic::Umin)
    } else if name == "umax"@ {
        Some(Mnemonic::Umax)
    } else if name == "comp.eq"@ {
        Some(Mnemonic::CompEq)
    } else if name == "comp.eq.and"@ {
        Some(Mnemonic::CompEqAnd)
    } else if name == "comp.eq.or"@ {
        Some(Mnemonic::CompEqOr)
    } else if name == "comp.ne"@ {
        Some(Mnemonic::CompNe)
    } else if name == "comp.ne.and"@ {
        Some(Mnemonic::CompNeAnd)
    } else if name == "comp.ne.or"@ {
        Some(Mnemonic::CompNeOr)
    } else if name == "comp.gt"@ {
        Some(Mnemonic::CompGt)
    } else if name == "comp.gt.and"@ {
        Some(Mnemonic::CompGtAnd)
    } else if name == "comp.gt.or"@ {
        Some(Mnemonic::CompGtOr)
    } else if name == "comp.le"@ {
        Some(Mnemonic::CompLe)
    } else if name == "comp.le.and"@ {
        Some(Mnemonic::CompLeAnd)
    } else if name == "comp.le.or"@ {
        Some(Mnemonic::CompLeOr)
    } else if name == "ucomp.gt"@ {
        Some(Mnemonic::UcompGt)
    } else if name == "ucomp.gt.and"@ {
        Some(Mnemonic::UcompGtAnd)
    } else if name == "ucomp.gt.or"@ {
        Some(Mnemonic::UcompGtOr)
    } else if name == "ucomp.le"@ {
        Some(Mnemonic::UcompLe)
    } else if name == "ucomp.le.and"@ {
        Some(Mnemonic::UcompLeAnd)
    } else if name == "ucomp.le.or"@ {
        Some(Mnemonic::UcompLeOr)
    } else if name == "not"@ {
        Some(Mnemonic::Not)
    } else if name == "cnot"@ {
        Some(Mnemonic::Cnot)
    } else if name == "and"@ {
        Some(Mnemonic::And)
    } else if name == "or"@ {
        Some(Mnemonic::Or)
    } else if name == "xor"@ {
        Some(Mnemonic::Xor)
    } else if name == "imply"@ {
        Some(Mnemonic::Imply)
    } else if name == "nand"@ {
        Some(Mnemonic::Nand)
    } else if name == "nor"@ {
        Some(Mnemonic::Nor)
    } else if name == "xnor"@ {
        Some(Mnemonic::Xnor)
    } else if name == "bcr"@ {
        Some(Mnemonic::Bcr)
    } else if name == "test.none"@ {
        Some(Mnemonic::TestNone)
    } else if name == "test.none.and"@ {
        Some(Mnemonic::TestNoneAnd)
    } else if name == "test.none.or"@ {
        Some(Mnemonic::TestNoneOr)
    } else if name == "test.any"@ {
        Some(Mnemonic::TestAny)
    } else if name == "test.any.and"@ {
        Some(Mnemonic::TestAnyAnd)
    } else if name == "test.any.or"@ {
        Some(Mnemonic::TestAnyOr)
    } else if name == "test.all"@ {
        Some(Mnemonic::TestAll)
    } else if name == "test.all.and"@ {
        Some(Mnemonic::TestAllAnd)
    } else if name == "test.all.or"@ {
        Some(Mnemonic::TestAllOr)
    } else if name == "shl"@ {
        Some(Mnemonic::Shl)
    } else if name == "shr"@ {
        Some(Mnemonic::Shr)
    } else if name == "sar"@ {
        Some(Mnemonic::Sar)
    } else if name == "rol"@ {
        Some(Mnemonic::Rol)
    } else if name == "fush"@ {
        Some(Mnemonic::Fush)
    } else if name == "bfext"@ {
        Some(Mnemonic::Bfext)
    } else if name == "bfins"@ {
        Some(Mnemonic::Bfins)
    } else if name == "cnt"@ {
        Some(Mnemonic::Cnt)
    } else if name == "cntz"@ {
        Some(Mnemonic::Cntz)
    } else if name == "clz"@ {
        Some(Mnemonic::Clz)
    } else if name == "clo"@ {
        Some(Mnemonic::Clo)
    } else if name == "ctz"@ {
        Some(Mnemonic::Ctz)
    } else if name == "cto"@ {
        Some(Mnemonic::Cto)
    } else if name == "cls"@ {
        Some(Mnemonic::Cls)
    } else if name == "rev"@ {
        Some(Mnemonic::Rev)
    } else if name == "rev.32"@ {
        Some(Mnemonic::Rev32)
    } else if name == "rev.16"@ {
        Some(Mnemonic::Rev16)
    } else if name == "rev.8"@ {
        Some(Mnemonic::Rev8)
    } else if name == "mov"@ {
        Some(Mnemonic::Mov)
    } else if name == "mov.keep"@ {
        Some(Mnemonic::MovKeep)
    } else if name == "sel"@ {
        Some(Mnemonic::Sel)
    } else if name == "ld"@ {
        Some(Mnemonic::Ld)
    } else if name == "ld.32"@ {
        Some(Mnemonic::Ld32)
    } else if name == "ld.16"@ {
        Some(Mnemonic::Ld16)
    } else if name == "ld.8"@ {
        Some(Mnemonic::Ld8)
    } else if name == "st"@ {
        Some(Mnemonic::St)
    } else if name == "st.32"@ {
        Some(Mnemonic::St32)
    } else if name == "st.16"@ {
        Some(Mnemonic::St16)
    } else if name == "st.8"@ {
        Some(Mnemonic::St8)
    } else if name == "ld.s32"@ {
        Some(Mnemonic::LdS32)
    } else if name == "ld.s16"@ {
        Some(Mnemonic::LdS16)
    } else if name == "ld.s8"@ {
        Some(Mnemonic::LdS8)
    } else if name == "br"@ {
        Some(Mnemonic::Br)
    } else if name == "br.true"@ {
        Some(Mnemonic::BrTrue)
    } else if name == "br.false"@ {
        Some(Mnemonic::BrFalse)
    } else if name == "jmp"@ {
        Some(Mnemonic::Jmp)
    } else if name == "halt"@ {
        Some(Mnemonic::Halt)
    } else {
        None
    }
}

/// The instruction named `name`.
pub fn lookup_mnemonic(name: &str) -> (r: Option<Mnemonic>)
    ensures
        r == mnemonic_of(name@),
{
    if str_eq(name, "add") {
        Some(Mnemonic::Add)
    } else if str_eq(name, "add.carry") {
        Some(Mnemonic::AddCarry)
    } else if str_eq(name, "sub") {
        Some(Mnemonic::Sub)
    } else if str_eq(name, "sub.borrow") {
        Some(Mnemonic::SubBorrow)
    } else if str_eq(name, "mult") {
        Some(Mnemonic::Mult)
    } else if str_eq(name, "mult.full") {
        Some(Mnemonic::MultFull)
    } else if str_eq(name, "madd") {
        Some(Mnemonic::Madd)
    } else if str_eq(name, "msub") {
        Some(Mnemonic::Msub)
    } else if str_eq(name, "div") {
        Some(Mnemonic::Div)
    } else if str_eq(name, "rem") {
        Some(Mnemonic::Rem)
    } else if str_eq(name, "div.full") {
        Some(Mnemonic::DivFull)
    } else if str_eq(name, "udiv") {
        Some(Mnemonic::Udiv)
    } else if str_eq(name, "urem") {
        Some(Mnemonic::Urem)
    } else if str_eq(name, "udiv.full") {
        Some(Mnemonic::UdivFull)
    } else if str_eq(name, "cinc") {
        Some(Mnemonic::Cinc)
    } else if str_eq(name, "abs") {
        Some(Mnemonic::Abs)
    } else if str_eq(name, "neg") {
        Some(Mnemonic::Neg)
    } else if str_eq(name, "cneg") {
        Some(Mnemonic::Cneg)
    } else if str_eq(name, "se.8") {
        Some(Mnemonic::Se8)
    } else if str_eq(name, "se.16") {
        Some(Mnemonic::Se16)
    } else if str_eq(name, "se.32") {
        Some(Mnemonic::Se32)
    } else if str_eq(name, "min") {
        Some(Mnemonic::Min)
    } else if str_eq(name, "max") {
        Some(Mnemonic::Max)
    } else if str_eq(name, "umin") {
        Some(Mnemonic::Umin)
    } else if str_eq(name, "umax") {
        Some(Mnemonic::Umax)
    } else if str_eq(name, "comp.eq") {
        Some(Mnemonic::CompEq)
    } else if str_eq(name, "comp.eq.and") {
        Some(Mnemonic::CompEqAnd)
    } else if str_eq(name, "comp.eq.or") {
        Some(Mnemonic::CompEqOr)
    } else if str_eq(name, "comp.ne") {
        Some(Mnemonic::CompNe)
    } else if str_eq(name, "comp.ne.and") {
        Some(Mnemonic::CompNeAnd)
    } else if str_eq(name, "comp.ne.or") {
        Some(Mnemonic::CompNeOr)
    } else if str_eq(name, "comp.gt") {
        Some(Mnemonic::CompGt)
    } else if str_eq(name, "comp.gt.and") {
        Some(Mnemonic::CompGtAnd)
    } else if str_eq(name, "comp.gt.or") {
        Some(Mnemonic::CompGtOr)
    } else if str_eq(name, "comp.le") {
        Some(Mnemonic::CompLe)
    } else if str_eq(name, "comp.le.and") {
        Some(Mnemonic::CompLeAnd)
    } else if str_eq(name, "comp.le.or") {
        Some(Mnemonic::CompLeOr)
    } else if str_eq(name, "ucomp.gt") {
        Some(Mnemonic::UcompGt)
    } else if str_eq(name, "ucomp.gt.and") {
        Some(Mnemonic::UcompGtAnd)
    } else if str_eq(name, "ucomp.gt.or") {
        Some(Mnemonic::UcompGtOr)
    } else if str_eq(name, "ucomp.le") {
        Some(Mnemonic::UcompLe)
    } else if str_eq(name, "ucomp.le.and") {
        Some(Mnemonic::UcompLeAnd)
    } else if str_eq(name, "ucomp.le.or") {
        Some(Mnemonic::UcompLeOr)
    } else if str_eq(name, "not") {
        Some(Mnemonic::Not)
    } else if str_eq(name, "cnot") {
        Some(Mnemonic::Cnot)
    } else if str_eq(name, "and") {
        Some(Mnemonic::And)
    } else if str_eq(name, "or") {
        Some(Mnemonic::Or)
    } else if str_eq(name, "xor") {
        Some(Mnemonic::Xor)
    } else if str_eq(name, "imply") {
        Some(Mnemonic::Imply)
    } else if str_eq(name, "nand") {
        Some(Mnemonic::Nand)
    } else if str_eq(name, "nor") {
        Some(Mnemonic::Nor)
    } else if str_eq(name, "xnor") {
        Some(Mnemonic::Xnor)
    } else if str_eq(name, "bcr") {
        Some(Mnemonic::Bcr)
    } else if str_eq(name, "test.none") {
        Some(Mnemonic::TestNone)
    } else if str_eq(name, "test.none.and") {
        Some(Mnemonic::TestNoneAnd)
    } else if str_eq(name, "test.none.or") {
        Some(Mnemonic::TestNoneOr)
    } else if str_eq(name, "test.any") {
        Some(Mnemonic::TestAny)
    } else if str_eq(name, "test.any.and") {
        Some(Mnemonic::TestAnyAnd)
    } else if str_eq(name, "test.any.or") {
        Some(Mnemonic::TestAnyOr)
    } else if str_eq(name, "test.all") {
        Some(Mnemonic::TestAll)
    } else if str_eq(name, "test.all.and") {
        Some(Mnemonic::TestAllAnd)
    } else if str_eq(name, "test.all.or") {
        Some(Mnemonic::TestAllOr)
    } else if str_eq(name, "shl") {
        Some(Mnemonic::Shl)
    } else if str_eq(name, "shr") {
        Some(Mnemonic::Shr)
    } else if str_eq(name, "sar") {
        Some(Mnemonic::Sar)
    } else if str_eq(name, "rol") {
        Some(Mnemonic::Rol)
    } else if str_eq(name, "fush") {
        Some(Mnemonic::Fush)
    } else if str_eq(name, "bfext") {
        Some(Mnemonic::Bfext)
    } else if str_eq(name, "bfins") {
        Some(Mnemonic::Bfins)
    } else if str_eq(name, "cnt") {
        Some(Mnemonic::Cnt)
    } else if str_eq(name, "cntz") {
        Some(Mnemonic::Cntz)
    } else if str_eq(name, "clz") {
        Some(Mnemonic::Clz)
    } else if str_eq(name, "clo") {
        Some(Mnemonic::Clo)
    } else if str_eq(name, "ctz") {
        Some(Mnemonic::Ctz)
    } else if str_eq(name, "cto") {
        Some(Mnemonic::Cto)
    } else if str_eq(name, "cls") {
        Some(Mnemonic::Cls)
    } else if str_eq(name, "rev") {
        Some(Mnemonic::Rev)
    } else if str_eq(name, "rev.32") {
        Some(Mnemonic::Rev32)
    } else if str_eq(name, "rev.16") {
        Some(Mnemonic::Rev16)
    } else if str_eq(name, "rev.8") {
        Some(Mnemonic::Rev8)
    } else if str_eq(name, "mov") {
        Some(Mnemonic::Mov)
    } else if str_eq(name, "mov.keep") {
        Some(Mnemonic::MovKeep)
    } else if str_eq(name, "sel") {
        Some(Mnemonic::Sel)
    } else if str_eq(name, "ld") {
        Some(Mnemonic::Ld)
    } else if str_eq(name, "ld.32") {
        Some(Mnemonic::Ld32)
    } else if str_eq(name, "ld.16") {
        Some(Mnemonic::Ld16)
    } else if str_eq(name, "ld.8") {
        Some(Mnemonic::Ld8)
    } else if str_eq(name, "st") {
        Some(Mnemonic::St)
    } else if str_eq(name, "st.32") {
        Some(Mnemonic::St32)
    } else if str_eq(name, "st.16") {
        Some(Mnemonic::St16)
    } else if str_eq(name, "st.8") {
        Some(Mnemonic::St8)
    } else if str_eq(name, "ld.s32") {
        Some(Mnemonic::LdS32)
    } else if str_eq(name, "ld.s16") {
        Some(Mnemonic::LdS16)
    } else if str_eq(name, "ld.s8") {
        Some(Mnemonic::LdS8)
    } else if str_eq(name, "br") {
        Some(Mnemonic::Br)
    } else if str_eq(name, "br.true") {
        Some(Mnemonic::BrTrue)
    } else if str_eq(name, "br.false") {
        Some(Mnemonic::BrFalse)
    } else if str_eq(name, "jmp") {
        Some(Mnemonic::Jmp)
    } else if str_eq(name, "halt") {
        Some(Mnemonic::Halt)
    } else {
        None
    }
}

/// The word for instruction `m` with operands `ops`, or its error; `None`
/// where the operands fit no form of the instruction.
pub open spec fn format_res(m: Mnemonic, ops: Seq<(Arg, Span)>, source: SrcV) -> Option<Res<int>> {
    match m {
        Mnemonic::Add => if ops.len() == 3 {
            match (ops[0].0, ops[1].0, ops[2].0) {
                (Arg::GPR(d), Arg::GPR(s1), Arg::GPR(s2)) => Some(s_shop(source, 8, 0, Shift::SHL(0), d, s1, s2)),
                (Arg::GPR(d), Arg::GPR(s1), Arg::ShReg(s2, sh)) => Some(s_shop(source, 8, 0, sh, d, s1, s2)),
                (Arg::GPR(d), Arg::GPR(s1) | Arg::PC(s1), Arg::Imd(v)) => Some(s_ai(source, 0, d, s1, true, ops[1].1, v, ops[2].1)),
                _ => None,
            }
        } else if ops.len() == 4 {
            match (ops[0].0, ops[1].0, ops[2].0, ops[3].0) {
                (Arg::GPR(a), Arg::GPR(b), Arg::GPR(c), Arg::GPR(e)) => Some(s_dpr4(source, 2, a, b, c, e)),
                _ => None,
            }
        } else {
            None
        },
        Mnemonic::AddCarry => if ops.len() == 4 {
            match (ops[0].0, ops[1].0, ops[2].0, ops[3].0) {
                (Arg::GPR(d), Arg::GPR(s1), Arg::GPR(s2), Arg::C0(c) | Arg::GPR(c)) => Some(s_dpr4c(source, 0, d, s1, s2, c, ops[3].1)),
                _ => None,
            }
        } else {
            None
        },
        Mnemonic::Sub => if ops.len() == 3 {
            match (ops[0].0, ops[1].0, ops[2].0) {
                (Arg::GPR(d), Arg::GPR(s1), Arg::GPR(s2)) => Some(s_shop(source, 9, 0, Shift::SHL(0), d, s1, s2)),
                (Arg::GPR(d), Arg::GPR(s1), Arg::ShReg(s2, sh)) => Some(s_shop(source, 9, 0, sh, d, s1, s2)),
                (Arg::GPR(d), Arg::ShReg(s1, sh), Arg::GPR(s2)) => Some(s_shop(source, 10, 0, sh, d, s2, s1)),
                (Arg::GPR(d), Arg::GPR(s1), Arg::Imd(v)) => Some(s_ai(source, 1, d, s1, false, ops[1].1, v, ops[2].1)),
                (Arg::GPR(d), Arg::Imd(v), Arg::GPR(s2)) => Some(s_ai(source, 2, d, s2, false, ops[2].1, v, ops[1].1)),
                _ => None,
            }
        } else {
            None
        },
        Mnemonic::SubBorrow => if ops.len() == 4 {
            match (ops[0].0, ops[1].0, ops[2].0, ops[3].0) {
                (Arg::GPR(d), Arg::GPR(s1), Arg::GPR(s2), Arg::C0(c) | Arg::GPR(c)) => Some(s_dpr4c(source, 1, d, s1, s2, c, ops[3].1)),
                _ => None,
            }
        } else {
            None
        },
        Mnemonic::Mult => if ops.len() == 3 {
            match (ops[0].0, ops[1].0, ops[2].0) {
                (Arg::GPR(a), Arg::GPR(b), Arg::GPR(c)) => Some(s_dpr4(source, 5, a, Reg::R0, b, c)),
                _ => None,
            }
        } else {
            None
        },
        Mnemonic::MultFull => if ops.len() == 4 {
            match (ops[0].0, ops[1].0, ops[2].0, ops[3].0) {
                (Arg::GPR(a), Arg::GPR(b), Arg::GPR(c), Arg::GPR(e)) => Some(s_dpr4(source, 5, a, b, c, e)),
                _ => None,
            }
        } else {
            None
        },
        Mnemonic::Madd => if ops.len() == 4 {
            match (ops[0].0, ops[1].0, ops[2].0, ops[3].0) {
                (Arg::GPR(a), Arg::GPR(b), Arg::GPR(c), Arg::GPR(e)) => Some(s_dpr4(source, 3, a, b, c, e)),
                _ => None,
            }
        } else {
            None
        },
        Mnemonic::Msub => if ops.len() == 4 {
            match (ops[0].0, ops[1].0, ops[2].0, ops[3].0) {
                (Arg::GPR(a), Arg::GPR(b), Arg::GPR(c), Arg::GPR(e)) => Some(s_dpr4(source, 4, a, b, c, e)),
                _ => None,
            }
        } else {
            None
        },
        Mnemonic::Div => if ops.len() == 3 {
            match (ops[0].0, ops[1].0, ops[2].0) {
                (Arg::GPR(a), Arg::GPR(b), Arg::GPR(c)) => Some(s_dpr4(source, 6, a, Reg::R0, b, c)),
                _ => None,
            }
        } else {
            None
        },
        Mnemonic::Rem => if ops.len() == 3 {
            match (ops[0].0, ops[1].0, ops[2].0) {
                (Arg::GPR(a), Arg::GPR(b), Arg::GPR(c)) => Some(s_dpr4(source, 6, Reg::R0, a, b, c)),
                _ => None,
            }
        } else {
            None
        },
        Mnemonic::DivFull => if ops.len() == 4 {
            match (ops[0].0, ops[1].0, ops[2].0, ops[3].0) {
                (Arg::GPR(a), Arg::GPR(b), Arg::GPR(c), Arg::GPR(e)) => Some(s_dpr4(source, 6, a, b, c, e)),
                _ => None,
            }
        } else {
            None
        },
        Mnemonic::Udiv => if ops.len() == 3 {
            match (ops[0].0, ops[1].0, ops[2].0) {
                (Arg::GPR(a), Arg::GPR(b), Arg::GPR(c)) => Some(s_dpr4(source, 7, a, Reg::R0, b, c)),
                _ => None,
            }
        } else {
            None
        },
        Mnemonic::Urem => if ops.len() == 3 {
            match (ops[0].0, ops[1].0, ops[2].0) {
                (Arg::GPR(a), Arg::GPR(b), Arg::GPR(c)) => Some(s_dpr4(source, 7, Reg::R0, a, b, c)),
                _ => None,
            }
        } else {
            None
        },
        Mnemonic::UdivFull => if ops.len() == 4 {
            match (ops[0].0, ops[1].0, ops[2].0, ops[3].0) {
                (Arg::GPR(a), Arg::GPR(b), Arg::GPR(c), Arg::GPR(e)) => Some(s_dpr4(source, 7, a, b, c, e)),
                _ => None,
            }
        } else {
            None
        },
        Mnemonic::Cinc => if ops.len() == 3 {
            match (ops[0].0, ops[1].0, ops[2].0) {
                (Arg::GPR(d), Arg::C0(c) | Arg::GPR(c), Arg::GPR(s)) => Some(s_g0c(source, 7, d, c, ops[1].1, s)),
                _ => None,
            }
        } else {
            None
        },
        Mnemonic::Abs => if ops.len() == 2 {
            match (ops[0].0, ops[1].0) {
                (Arg::GPR(d), Arg::GPR(s)) => Some(s_dpr2(source, 2, d, s)),
                _ => None,
            }
        } else {
            None
        },
        Mnemonic::Neg => if ops.len() == 2 {
            match (ops[0].0, ops[1].0) {
                (Arg::GPR(d), Arg::GPR(s)) => Some(s_shop(source, 9, 0, Shift::SHL(0), d, Reg::R0, s)),
                (Arg::GPR(d), Arg::ShReg(s, sh)) => Some(s_shop(source, 9, 0, sh, d, Reg::R0, s)),
                _ => None,
            }
        } else {
            None
        },
        Mnemonic::Cneg => if ops.len() == 3 {
            match (ops[0].0, ops[1].0, ops[2].0) {
                (Arg::GPR(d), Arg::C0(c) | Arg::GPR(c), Arg::GPR(s)) => Some(s_g0c(source, 8, d, c, ops[1].1, s)),
                _ => None,
            }
        } else {
            None
        },
        Mnemonic::Se8 => if ops.len() == 2 {
            match (ops[0].0, ops[1].0) {
                (Arg::GPR(d), Arg::GPR(s)) => Some(s_dpr2(source, 15, d, s)),
                _ => None,
            }
        } else {
            None
        },
        Mnemonic::Se16 => if ops.len() == 2 {
            match (ops[0].0, ops[1].0) {
                (Arg::GPR(d), Arg::GPR(s)) => Some(s_dpr2(source, 14, d, s)),
                _ => None,
            }
        } else {
            None
        },
        Mnemonic::Se32 => if ops.len() == 2 {
            match (ops[0].0, ops[1].0) {
                (Arg::GPR(d), Arg::GPR(s)) => Some(s_dpr2(source, 13, d, s)),
                _ => None,
            }
        } else {
            None
        },
        Mnemonic::Min => if ops.len() == 3 {
            match (ops[0].0, ops[1].0, ops[2].0) {
                (Arg::GPR(d), Arg::GPR(s1), Arg::GPR(s2)) => Some(s_g0(source, 2, d, s1, s2)),
                _ => None,
            }
        } else {
            None
        },
        Mnemonic::Max => if ops.len() == 3 {
            match (ops[0].0, ops[1].0, ops[2].0) {
                (Arg::GPR(d), Arg::GPR(s1), Arg::GPR(s2)) => Some(s_g0(source, 3, d, s1, s2)),
                _ => None,
            }
        } else {
            None
        },
        Mnemonic::Umin => if ops.len() == 3 {
            match (ops[0].0, ops[1].0, ops[2].0) {
                (Arg::GPR(d), Arg::GPR(s1), Arg::GPR(s2)) => Some(s_g0(source, 4, d, s1, s2)),
                _ => None,
            }
        } else {
            None
        },
        Mnemonic::Umax => if ops.len() == 3 {
            match (ops[0].0, ops[1].0, ops[2].0) {
                (Arg::GPR(d), Arg::GPR(s1), Arg::GPR(s2)) => Some(s_g0(source, 5, d, s1, s2)),
                _ => None,
            }
        } else {
            None
        },
        Mnemonic::CompEq => if ops.len() == 3 {
            match (ops[0].0, ops[1].0, ops[2].0) {
                (Arg::C0(c) | Arg::GPR(c), Arg::GPR(s1), Arg::GPR(s2)) => Some(s_comp3(source, 1, 0, 0, c, ops[0].1, s1, s2)),
                (Arg::C0(c) | Arg::GPR(c), Arg::GPR(s1), Arg::Imd(v)) => Some(s_compi(source, 5, 0, 0, c, ops[0].1, s1, v, ops[2].1, true)),
                _ => None,
            }
        } else {
            None
        },
        Mnemonic::CompEqAnd => if ops.len() == 3 {
            match (ops[0].0, ops[1].0, ops[2].0) {
                (Arg::C0(c) | Arg::GPR(c), Arg::GPR(s1), Arg::GPR(s2)) => Some(s_comp3(source, 1, 0, 1, c, ops[0].1, s1, s2)),
                (Arg::C0(c) | Arg::GPR(c), Arg::GPR(s1), Arg::Imd(v)) => Some(s_compi(source, 5, 0, 1, c, ops[0].1, s1, v, ops[2].1, true)),
                _ => None,
            }
        } else {
            None
        },
        Mnemonic::CompEqOr => if ops.len() == 3 {
            match (ops[0].0, ops[1].0, ops[2].0) {
                (Arg::C0(c) | Arg::GPR(c), Arg::GPR(s1), Arg::GPR(s2)) => Some(s_comp3(source, 1, 0, 3, c, ops[0].1, s1, s2)),
                _ => None,
            }
        } else {
            None
        },
        Mnemonic::CompNe => if ops.len() == 3 {
            match (ops[0].0, ops[1].0, ops[2].0) {
                (Arg::C0(c) | Arg::GPR(c), Arg::GPR(s1), Arg::GPR(s2)) => Some(s_comp3(source, 1, 1, 0, c, ops[0].1, s1, s2)),
                (Arg::C0(c) | Arg::GPR(c), Arg::GPR(s1), Arg::Imd(v)) => Some(s_compi(source, 5, 1, 0, c, ops[0].1, s1, v, ops[2].1, true)),
                _ => None,
            }
        } else {
            None
        },
        Mnemonic::CompNeAnd => if ops.len() == 3 {
            match (ops[0].0, ops[1].0, ops[2].0) {
                (Arg::C0(c) | Arg::GPR(c), Arg::GPR(s1), Arg::GPR(s2)) => Some(s_comp3(source, 1, 1, 1, c, ops[0].1, s1, s2)),
                (Arg::C0(c) | Arg::GPR(c), Arg::GPR(s1), Arg::Imd(v)) => Some(s_compi(source, 5, 1, 1, c, ops[0].1, s1, v, ops[2].1, true)),
                _ => None,
            }
        } else {
            None
        },
        Mnemonic::CompNeOr => if ops.len() == 3 {
            match (ops[0].0, ops[1].0, ops[2].0) {
                (Arg::C0(c) | Arg::GPR(c), Arg::GPR(s1), Arg::GPR(s2)) => Some(s_comp3(source, 1, 1, 3, c, ops[0].1, s1, s2)),
                _ => None,
            }
        } else {
            None
        },
        Mnemonic::CompGt => if ops.len() == 3 {
            match (ops[0].0, ops[1].0, ops[2].0) {
                (Arg::C0(c) | Arg::GPR(c), Arg::GPR(s1), Arg::GPR(s2)) => Some(s_comp3(source, 1, 2, 0, c, ops[0].1, s1, s2)),
                (Arg::C0(c) | Arg::GPR(c), Arg::GPR(s1), Arg::Imd(v)) => Some(s_compi(source, 6, 0, 0, c, ops[0].1, s1, v, ops[2].1, true)),
                _ => None,
            }
        } else {
            None
        },
        Mnemonic::CompGtAnd => if ops.len() == 3 {
            match (ops[0].0, ops[1].0, ops[2].0) {
                (Arg::C0(c) | Arg::GPR(c), Arg::GPR(s1), Arg::GPR(s2)) => Some(s_comp3(source, 1, 2, 1, c, ops[0].1, s1, s2)),
                (Arg::C0(c) | Arg::GPR(c), Arg::GPR(s1), Arg::Imd(v)) => Some(s_compi(source, 6, 0, 1, c, ops[0].1, s1, v, ops[2].1, true)),
                _ => None,
            }
        } else {
            None
        },
        Mnemonic::CompGtOr => if ops.len() == 3 {
            match (ops[0].0, ops[1].0, ops[2].0) {
                (Arg::C0(c) | Arg::GPR(c), Arg::GPR(s1), Arg::GPR(s2)) => Some(s_comp3(source, 1, 2, 3, c, ops[0].1, s1, s2)),
                _ => None,
            }
        } else {
            None
        },
        Mnemonic::CompLe => if ops.len() == 3 {
            match (ops[0].0, ops[1].0, ops[2].0) {
                (Arg::C0(c) | Arg::GPR(c), Arg::GPR(s1), Arg::GPR(s2)) => Some(s_comp3(source, 1, 3, 0, c, ops[0].1, s1, s2)),
                _ => None,
            }
        } else {
            None
        },
        Mnemonic::CompLeAnd => if ops.len() == 3 {
            match (ops[0].0, ops[1].0, ops[2].0) {
                (Arg::C0(c) | Arg::GPR(c), Arg::GPR(s1), Arg::GPR(s2)) => Some(s_comp3(source, 1, 3, 1, c, ops[0].1, s1, s2)),
                _ => None,
            }
        } else {
            None
        },
        Mnemonic::CompLeOr => if ops.len() == 3 {
            match (ops[0].0, ops[1].0, ops[2].0) {
                (Arg::C0(c) | Arg::GPR(c), Arg::GPR(s1), Arg::GPR(s2)) => Some(s_comp3(source, 1, 3, 3, c, ops[0].1, s1, s2)),
                _ => None,
            }
        } else {
            None
        },
        Mnemonic::UcompGt => if ops.len() == 3 {
            match (ops[0].0, ops[1].0, ops[2].0) {
                (Arg::C0(c) | Arg::GPR(c), Arg::GPR(s1), Arg::GPR(s2)) => Some(s_comp3(source, 1, 4, 0, c, ops[0].1, s1, s2)),
                (Arg::C0(c) | Arg::GPR(c), Arg::GPR(s1), Arg::Imd(v)) => Some(s_compi(source, 6, 1, 0, c, ops[0].1, s1, v, ops[2].1, false)),
                _ => None,
            }
        } else {
            None
        },
        Mnemonic::UcompGtAnd => if ops.len() == 3 {
            match (ops[0].0, ops[1].0, ops[2].0) {
                (Arg::C0(c) | Arg::GPR(c), Arg::GPR(s1), Arg::GPR(s2)) => Some(s_comp3(source, 1, 4, 1, c, ops[0].1, s1, s2)),
                (Arg::C0(c) | Arg::GPR(c), Arg::GPR(s1), Arg::Imd(v)) => Some(s_compi(source, 6, 1, 1, c, ops[0].1, s1, v, ops[2].1, false)),
                _ => None,
            }
        } else {
            None
        },
        Mnemonic::UcompGtOr => if ops.len() == 3 {
            match (ops[0].0, ops[1].0, ops[2].0) {
                (Arg::C0(c) | Arg::GPR(c), Arg::GPR(s1), Arg::GPR(s2)) => Some(s_comp3(source, 1, 4, 3, c, ops[0].1, s1, s2)),
                _ => None,
            }
        } else {
            None
        },
        Mnemonic::UcompLe => if ops.len() == 3 {
            match (ops[0].0, ops[1].0, ops[2].0) {
                (Arg::C0(c) | Arg::GPR(c), Arg::GPR(s1), Arg::GPR(s2)) => Some(s_comp3(source, 1, 5, 0, c, ops[0].1, s1, s2)),
                _ => None,
            }
        } else {
            None
        },
        Mnemonic::UcompLeAnd => if ops.len() == 3 {
            match (ops[0].0, ops[1].0, ops[2].0) {
                (Arg::C0(c) | Arg::GPR(c), Arg::GPR(s1), Arg::GPR(s2)) => Some(s_comp3(source, 1, 5, 1, c, ops[0].1, s1, s2)),
                _ => None,
            }
        } else {
            None
        },
        Mnemonic::UcompLeOr => if ops.len() == 3 {
            match (ops[0].0, ops[1].0, ops[2].0) {
                (Arg::C0(c) | Arg::GPR(c), Arg::GPR(s1), Arg::GPR(s2)) => Some(s_comp3(source, 1, 5, 3, c, ops[0].1, s1, s2)),
                _ => None,
            }
        } else {
            None
        },
        Mnemonic::Not => if ops.len() == 2 {
            match (ops[0].0, ops[1].0) {
                (Arg::GPR(d), Arg::GPR(s)) => Some(s_shop(source, 14, 1, Shift::SHL(0), d, Reg::R0, s)),
                (Arg::GPR(d), Arg::ShReg(s, sh)) => Some(s_shop(source, 14, 1, sh, d, Reg::R0, s)),
                _ => None,
            }
        } else {
            None
        },
        Mnemonic::Cnot => if ops.len() == 3 {
            match (ops[0].0, ops[1].0, ops[2].0) {
                (Arg::GPR(d), Arg::C0(c) | Arg::GPR(c), Arg::GPR(s)) => Some(s_g0c(source, 6, d, c, ops[1].1, s)),
                _ => None,
            }
        } else {
            None
        },
        Mnemonic::And => if ops.len() == 3 {
            match (ops[0].0, ops[1].0, ops[2].0) {
                (Arg::GPR(d), Arg::GPR(s1), Arg::GPR(s2)) => Some(s_shop(source, 8, 1, Shift::SHL(0), d, s1, s2)),
                (Arg::GPR(d), Arg::GPR(s1), Arg::ShReg(s2, sh)) => Some(s_shop(source, 8, 1, sh, d, s1, s2)),
                (Arg::GPR(d), Arg::GPR(s1), Arg::LogicImd { level, ones, rot }) => Some(s_limd(source, 0, 0, d, s1, level, ones, rot)),
                _ => None,
            }
        } else {
            None
        },
        Mnemonic::Or => if ops.len() == 3 {
            match (ops[0].0, ops[1].0, ops[2].0) {
                (Arg::GPR(d), Arg::GPR(s1), Arg::GPR(s2)) => Some(s_shop(source, 9, 1, Shift::SHL(0), d, s1, s2)),
                (Arg::GPR(d), Arg::GPR(s1), Arg::ShReg(s2, sh)) => Some(s_shop(source, 9, 1, sh, d, s1, s2)),
                (Arg::GPR(d), Arg::GPR(s1), Arg::LogicImd { level, ones, rot }) => Some(s_limd(source, 0, 1, d, s1, level, ones, rot)),
                _ => None,
            }
        } else {
            None
        },
        Mnemonic::Xor => if ops.len() == 3 {
            match (ops[0].0, ops[1].0, ops[2].0) {
                (Arg::GPR(d), Arg::GPR(s1), Arg::GPR(s2)) => Some(s_shop(source, 10, 1, Shift::SHL(0), d, s1, s2)),
                (Arg::GPR(d), Arg::GPR(s1), Arg::ShReg(s2, sh)) => Some(s_shop(source, 10, 1, sh, d, s1, s2)),
                (Arg::GPR(d), Arg::GPR(s1), Arg::LogicImd { level, ones, rot }) => Some(s_limd(source, 1, 0, d, s1, level, ones, rot)),
                _ => None,
            }
        } else {
            None
        },
        Mnemonic::Imply => if ops.len() == 3 {
            match (ops[0].0, ops[1].0, ops[2].0) {
                (Arg::GPR(d), Arg::GPR(s1), Arg::GPR(s2)) => Some(s_shop(source, 11, 1, Shift::SHL(0), d, s1, s2)),
                (Arg::GPR(d), Arg::GPR(s1), Arg::ShReg(s2, sh)) => Some(s_shop(source, 11, 1, sh, d, s1, s2)),
                (Arg::GPR(d), Arg::GPR(s1), Arg::LogicImd { level, ones, rot }) => Some(s_limd(source, 1, 1, d, s1, level, ones, rot)),
                _ => None,
            }
        } else {
            None
        },
        Mnemonic::Nand => if ops.len() == 3 {
            match (ops[0].0, ops[1].0, ops[2].0) {
                (Arg::GPR(d), Arg::GPR(s1), Arg::GPR(s2)) => Some(s_shop(source, 12, 1, Shift::SHL(0), d, s1, s2)),
                (Arg::GPR(d), Arg::GPR(s1), Arg::ShReg(s2, sh)) => Some(s_shop(source, 12, 1, sh, d, s1, s2)),
                (Arg::GPR(d), Arg::GPR(s1), Arg::LogicImd { level, ones, rot }) => Some(s_limd(source, 2, 0, d, s1, level, ones, rot)),
                _ => None,
            }
        } else {
            None
        },
        Mnemonic::Nor => if ops.len() == 3 {
            match (ops[0].0, ops[1].0, ops[2].0) {
                (Arg::GPR(d), Arg::GPR(s1), Arg::GPR(s2)) => Some(s_shop(source, 13, 1, Shift::SHL(0), d, s1, s2)),
                (Arg::GPR(d), Arg::GPR(s1), Arg::ShReg(s2, sh)) => Some(s_shop(source, 13, 1, sh, d, s1, s2)),
                (Arg::GPR(d), Arg::GPR(s1), Arg::LogicImd { level, ones, rot }) => Some(s_limd(source, 2, 1, d, s1, level, ones, rot)),
                _ => None,
            }
        } else {
            None
        },
        Mnemonic::Xnor => if ops.len() == 3 {
            match (ops[0].0, ops[1].0, ops[2].0) {
                (Arg::GPR(d), Arg::GPR(s1), Arg::GPR(s2)) => Some(s_shop(source, 14, 1, Shift::SHL(0), d, s1, s2)),
                (Arg::GPR(d), Arg::GPR(s1), Arg::ShReg(s2, sh)) => Some(s_shop(source, 14, 1, sh, d, s1, s2)),
                (Arg::GPR(d), Arg::GPR(s1), Arg::LogicImd { level, ones, rot }) => Some(s_limd(source, 3, 0, d, s1, level, ones, rot)),
                _ => None,
            }
        } else {
            None
        },
        Mnemonic::Bcr => if ops.len() == 3 {
            match (ops[0].0, ops[1].0, ops[2].0) {
                (Arg::GPR(d), Arg::GPR(s1), Arg::GPR(s2)) => Some(s_shop(source, 15, 1, Shift::SHL(0), d, s1, s2)),
                (Arg::GPR(d), Arg::GPR(s1), Arg::ShReg(s2, sh)) => Some(s_shop(source, 15, 1, sh, d, s1, s2)),
                (Arg::GPR(d), Arg::GPR(s1), Arg::LogicImd { level, ones, rot }) => Some(s_limd(source, 3, 1, d, s1, level, ones, rot)),
                _ => None,
            }
        } else {
            None
        },
        Mnemonic::TestNone => if ops.len() == 3 {
            match (ops[0].0, ops[1].0, ops[2].0) {
                (Arg::C0(c) | Arg::GPR(c), Arg::GPR(s1), Arg::GPR(s2)) => Some(s_comp3(source, 2, 0, 0, c, ops[0].1, s1, s2)),
                (Arg::C0(c) | Arg::GPR(c), Arg::GPR(s), Arg::LogicImd { level, ones, rot }) => Some(s_testi(source, 7, 0, c, ops[0].1, s, level, ones, rot)),
                _ => None,
            }
        } else {
            None
        },
        Mnemonic::TestNoneAnd => if ops.len() == 3 {
            match (ops[0].0, ops[1].0, ops[2].0) {
                (Arg::C0(c) | Arg::GPR(c), Arg::GPR(s1), Arg::GPR(s2)) => Some(s_comp3(source, 2, 0, 1, c, ops[0].1, s1, s2)),
                (Arg::C0(c) | Arg::GPR(c), Arg::GPR(s), Arg::LogicImd { level, ones, rot }) => Some(s_testi(source, 7, 1, c, ops[0].1, s, level, ones, rot)),
                _ => None,
            }
        } else {
            None
        },
        Mnemonic::TestNoneOr => if ops.len() == 3 {
            match (ops[0].0, ops[1].0, ops[2].0) {
                (Arg::C0(c) | Arg::GPR(c), Arg::GPR(s1), Arg::GPR(s2)) => Some(s_comp3(source, 2, 0, 3, c, ops[0].1, s1, s2)),
                _ => None,
            }
        } else {
            None
        },
        Mnemonic::TestAny => if ops.len() == 3 {
            match (ops[0].0, ops[1].0, ops[2].0) {
                (Arg::C0(c) | Arg::GPR(c), Arg::GPR(s1), Arg::GPR(s2)) => Some(s_comp3(source, 2, 1, 0, c, ops[0].1, s1, s2)),
                (Arg::C0(c) | Arg::GPR(c), Arg::GPR(s), Arg::LogicImd { level, ones, rot }) => Some(s_testi(source, 8, 0, c, ops[0].1, s, level, ones, rot)),
                _ => None,
            }
        } else {
            None
        },
        Mnemonic::TestAnyAnd => if ops.len() == 3 {
            match (ops[0].0, ops[1].0, ops[2].0) {
                (Arg::C0(c) | Arg::GPR(c), Arg::GPR(s1), Arg::GPR(s2)) => Some(s_comp3(source, 2, 1, 1, c, ops[0].1, s1, s2)),
                (Arg::C0(c) | Arg::GPR(c), Arg::GPR(s), Arg::LogicImd { level, ones, rot }) => Some(s_testi(source, 8, 1, c, ops[0].1, s, level, ones, rot)),
                _ => None,
            }
        } else {
            None
        },
        Mnemonic::TestAnyOr => if ops.len() == 3 {
            match (ops[0].0, ops[1].0, ops[2].0) {
                (Arg::C0(c) | Arg::GPR(c), Arg::GPR(s1), Arg::GPR(s2)) => Some(s_comp3(source, 2, 1, 3, c, ops[0].1, s1, s2)),
                _ => None,
            }
        } else {
            None
        },
        Mnemonic::TestAll => if ops.len() == 3 {
            match (ops[0].0, ops[1].0, ops[2].0) {
                (Arg::C0(c) | Arg::GPR(c), Arg::GPR(s1), Arg::GPR(s2)) => Some(s_comp3(source, 2, 2, 0, c, ops[0].1, s1, s2)),
                (Arg::C0(c) | Arg::GPR(c), Arg::GPR(s), Arg::LogicImd { level, ones, rot }) => Some(s_testi(source, 9, 0, c, ops[0].1, s, level, ones, rot)),
                _ => None,
            }
        } else {
            None
        },
        Mnemonic::TestAllAnd => if ops.len() == 3 {
            match (ops[0].0, ops[1].0, ops[2].0) {
                (Arg::C0(c) | Arg::GPR(c), Arg::GPR(s1), Arg::GPR(s2)) => Some(s_comp3(source, 2, 2, 1, c, ops[0].1, s1, s2)),
                (Arg::C0(c) | Arg::GPR(c), Arg::GPR(s), Arg::LogicImd { level, ones, rot }) => Some(s_testi(source, 9, 1, c, ops[0].1, s, level, ones, rot)),
                _ => None,
            }
        } else {
            None
        },
        Mnemonic::TestAllOr => if ops.len() == 3 {
            match (ops[0].0, ops[1].0, ops[2].0) {
                (Arg::C0(c) | Arg::GPR(c), Arg::GPR(s1), Arg::GPR(s2)) => Some(s_comp3(source, 2, 2, 3, c, ops[0].1, s1, s2)),
                _ => None,
            }
        } else {
            None
        },
        Mnemonic::Shl => if ops.len() == 3 {
            match (ops[0].0, ops[1].0, ops[2].0) {
                (Arg::GPR(a), Arg::GPR(b), Arg::GPR(c)) => Some(s_dpr4(source, 8, a, b, Reg::R0, c)),
                (Arg::GPR(d), Arg::GPR(s), Arg::Imd(a)) => Some(s_shimd(source, 0, d, s, a, ops[2].1)),
                _ => None,
            }
        } else {
            None
        },
        Mnemonic::Shr => if ops.len() == 3 {
            match (ops[0].0, ops[1].0, ops[2].0) {
                (Arg::GPR(d), Arg::GPR(s), Arg::GPR(a)) => Some(s_g0(source, 0, d, s, a)),
                (Arg::GPR(d), Arg::GPR(s), Arg::Imd(a)) => Some(s_shimd(source, 1, d, s, a, ops[2].1)),
                _ => None,
            }
        } else {
            None
        },
        Mnemonic::Sar => if ops.len() == 3 {
            match (ops[0].0, ops[1].0, ops[2].0) {
                (Arg::GPR(d), Arg::GPR(s), Arg::GPR(a)) => Some(s_g0(source, 1, d, s, a)),
                (Arg::GPR(d), Arg::GPR(s), Arg::Imd(a)) => Some(s_shimd(source, 2, d, s, a, ops[2].1)),
                _ => None,
            }
        } else {
            None
        },
        Mnemonic::Rol => if ops.len() == 3 {
            match (ops[0].0, ops[1].0, ops[2].0) {
                (Arg::GPR(d), Arg::GPR(s), Arg::GPR(a)) => Some(s_dpr4(source, 8, d, s, s, a)),
                (Arg::GPR(d), Arg::GPR(s), Arg::Imd(a)) => Some(s_shimd(source, 3, d, s, a, ops[2].1)),
                _ => None,
            }
        } else {
            None
        },
        Mnemonic::Fush => if ops.len() == 4 {
            match (ops[0].0, ops[1].0, ops[2].0, ops[3].0) {
                (Arg::GPR(a), Arg::GPR(b), Arg::GPR(c), Arg::GPR(e)) => Some(s_dpr4(source, 8, a, b, c, e)),
                _ => None,
            }
        } else {
            None
        },
        Mnemonic::Bfext => if ops.len() == 4 {
            match (ops[0].0, ops[1].0, ops[2].0, ops[3].0) {
                (Arg::GPR(a), Arg::GPR(b), Arg::GPR(c), Arg::GPR(e)) => Some(s_dpr4(source, 9, a, b, c, e)),
                (Arg::GPR(d), Arg::GPR(s), Arg::Imd(o), Arg::Imd(w)) => Some(s_bf(source, 0, d, s, o, ops[2].1, w, ops[3].1)),
                _ => None,
            }
        } else {
            None
        },
        Mnemonic::Bfins => if ops.len() == 4 {
            match (ops[0].0, ops[1].0, ops[2].0, ops[3].0) {
                (Arg::GPR(a), Arg::GPR(b), Arg::GPR(c), Arg::GPR(e)) => Some(s_dpr4(source, 10, a, b, c, e)),
                (Arg::GPR(d), Arg::GPR(s), Arg::Imd(o), Arg::Imd(w)) => Some(s_bf(source, 1, d, s, o, ops[2].1, w, ops[3].1)),
                _ => None,
            }
        } else {
            None
        },
        Mnemonic::Cnt => if ops.len() == 2 {
            match (ops[0].0, ops[1].0) {
                (Arg::GPR(d), Arg::GPR(s)) => Some(s_dpr2(source, 0, d, s)),
                _ => None,
            }
        } else {
            None
        },
        Mnemonic::Cntz => if ops.len() == 2 {
            match (ops[0].0, ops[1].0) {
                (Arg::GPR(d), Arg::GPR(s)) => Some(s_dpr2(source, 1, d, s)),
                _ => None,
            }
        } else {
            None
        },
        Mnemonic::Clz => if ops.len() == 2 {
            match (ops[0].0, ops[1].0) {
                (Arg::GPR(d), Arg::GPR(s)) => Some(s_dpr2(source, 4, d, s)),
                _ => None,
            }
        } else {
            None
        },
        Mnemonic::Clo => if ops.len() == 2 {
            match (ops[0].0, ops[1].0) {
                (Arg::GPR(d), Arg::GPR(s)) => Some(s_dpr2(source, 5, d, s)),
                _ => None,
            }
        } else {
            None
        },
        Mnemonic::Ctz => if ops.len() == 2 {
            match (ops[0].0, ops[1].0) {
                (Arg::GPR(d), Arg::GPR(s)) => Some(s_dpr2(source, 6, d, s)),
                _ => None,
            }
        } else {
            None
        },
        Mnemonic::Cto => if ops.len() == 2 {
            match (ops[0].0, ops[1].0) {
                (Arg::GPR(d), Arg::GPR(s)) => Some(s_dpr2(source, 7, d, s)),
                _ => None,
            }
        } else {
            None
        },
        Mnemonic::Cls => if ops.len() == 2 {
            match (ops[0].0, ops[1].0) {
                (Arg::GPR(d), Arg::GPR(s)) => Some(s_dpr2(source, 3, d, s)),
                _ => None,
            }
        } else {
            None
        },
        Mnemonic::Rev => if ops.len() == 2 {
            match (ops[0].0, ops[1].0) {
                (Arg::GPR(d), Arg::GPR(s)) => Some(s_dpr2(source, 8, d, s)),
                _ => None,
            }
        } else {
            None
        },
        Mnemonic::Rev32 => if ops.len() == 2 {
            match (ops[0].0, ops[1].0) {
                (Arg::GPR(d), Arg::GPR(s)) => Some(s_dpr2(source, 9, d, s)),
                _ => None,
            }
        } else {
            None
        },
        Mnemonic::Rev16 => if ops.len() == 2 {
            match (ops[0].0, ops[1].0) {
                (Arg::GPR(d), Arg::GPR(s)) => Some(s_dpr2(source, 10, d, s)),
                _ => None,
            }
        } else {
            None
        },
        Mnemonic::Rev8 => if ops.len() == 2 {
            match (ops[0].0, ops[1].0) {
                (Arg::GPR(d), Arg::GPR(s)) => Some(s_dpr2(source, 11, d, s)),
                _ => None,
            }
        } else {
            None
        },
        Mnemonic::Mov => if ops.len() == 2 {
            match (ops[0].0, ops[1].0) {
                (Arg::GPR(d), Arg::GPR(s)) => Some(s_shop(source, 9, 1, Shift::SHL(0), d, s, Reg::R0)),
                (Arg::GPR(d), Arg::Imd(v)) => Some(if v < 0 { s_ai(source, 1, d, Reg::R0, false, ops[1].1, (-v) as i128, ops[1].1) } else { s_movw(source, d, v, ops[1].1) }),
                (Arg::GPR(d), Arg::LogicImd { level, ones, rot }) => Some(s_limd(source, 0, 1, d, Reg::R0, level, ones, rot)),
                _ => None,
            }
        } else if ops.len() == 3 {
            match (ops[0].0, ops[1].0, ops[2].0) {
                (Arg::GPR(d), Arg::Imd(v), Arg::Imd(sh)) => Some(s_movk(source, 0, d, v, ops[1].1, sh, ops[2].1)),
                _ => None,
            }
        } else {
            None
        },
        Mnemonic::MovKeep => if ops.len() == 3 {
            match (ops[0].0, ops[1].0, ops[2].0) {
                (Arg::GPR(d), Arg::Imd(v), Arg::Imd(sh)) => Some(s_movk(source, 1, d, v, ops[1].1, sh, ops[2].1)),
                _ => None,
            }
        } else {
            None
        },
        Mnemonic::Sel => if ops.len() == 4 {
            match (ops[0].0, ops[1].0, ops[2].0, ops[3].0) {
                (Arg::GPR(d), Arg::C0(c) | Arg::GPR(c), Arg::GPR(s1), Arg::GPR(s2)) => Some(s_selr(source, d, c, ops[1].1, s1, s2)),
                (Arg::GPR(d), Arg::C0(c) | Arg::GPR(c), Arg::GPR(s1), Arg::Imd(v)) => Some(s_seli(source, d, c, ops[1].1, s1, v, ops[3].1)),
                _ => None,
            }
        } else {
            None
        },
        Mnemonic::Ld => if ops.len() == 2 {
            match (ops[0].0, ops[1].0) {
                (Arg::GPR(d), Arg::Offset(off, osp)) => Some(s_mem_off(source, 0, Some(3u8), d, off, osp)),
                (Arg::GPR(d), Arg::BaseOffset { base, offset, offset_span, writeback }) => Some(s_mem_bo(source, 0, 0, Some(3u8), d, base, offset, offset_span, writeback)),
                (Arg::GPR(d), Arg::BaseIndex { base, index, shift, shift_span }) => Some(s_mem_bi(source, 0, 0, 3, d, base, index, shift, shift_span)),
                _ => None,
            }
        } else {
            None
        },
        Mnemonic::Ld32 => if ops.len() == 2 {
            match (ops[0].0, ops[1].0) {
                (Arg::GPR(d), Arg::Offset(off, osp)) => Some(s_mem_off(source, 1, Some(2u8), d, off, osp)),
                (Arg::GPR(d), Arg::BaseOffset { base, offset, offset_span, writeback }) => Some(s_mem_bo(source, 0, 1, Some(2u8), d, base, offset, offset_span, writeback)),
                (Arg::GPR(d), Arg::BaseIndex { base, index, shift, shift_span }) => Some(s_mem_bi(source, 0, 1, 2, d, base, index, shift, shift_span)),
                _ => None,
            }
        } else {
            None
        },
        Mnemonic::Ld16 => if ops.len() == 2 {
            match (ops[0].0, ops[1].0) {
                (Arg::GPR(d), Arg::Offset(off, osp)) => Some(s_mem_off(source, 2, Some(1u8), d, off, osp)),
                (Arg::GPR(d), Arg::BaseOffset { base, offset, offset_span, writeback }) => Some(s_mem_bo(source, 0, 2, Some(1u8), d, base, offset, offset_span, writeback)),
                (Arg::GPR(d), Arg::BaseIndex { base, index, shift, shift_span }) => Some(s_mem_bi(source, 0, 2, 1, d, base, index, shift, shift_span)),
                _ => None,
            }
        } else {
            None
        },
        Mnemonic::Ld8 => if ops.len() == 2 {
            match (ops[0].0, ops[1].0) {
                (Arg::GPR(d), Arg::Offset(off, osp)) => Some(s_mem_off(source, 3, None, d, off, osp)),
                (Arg::GPR(d), Arg::BaseOffset { base, offset, offset_span, writeback }) => Some(s_mem_bo(source, 0, 3, None, d, base, offset, offset_span, writeback)),
                (Arg::GPR(d), Arg::BaseIndex { base, index, shift: 0, shift_span: _ }) => Some(s_mem_bi0(source, 0, 3, d, base, index)),
                _ => None,
            }
        } else {
            None
        },
        Mnemonic::St => if ops.len() == 2 {
            match (ops[0].0, ops[1].0) {
                (Arg::GPR(d), Arg::BaseOffset { base, offset, offset_span, writeback }) => Some(s_mem_bo(source, 1, 0, Some(3u8), d, base, offset, offset_span, writeback)),
                (Arg::GPR(d), Arg::BaseIndex { base, index, shift, shift_span }) => Some(s_mem_bi(source, 1, 0, 3, d, base, index, shift, shift_span)),
                _ => None,
            }
        } else {
            None
        },
        Mnemonic::St32 => if ops.len() == 2 {
            match (ops[0].0, ops[1].0) {
                (Arg::GPR(d), Arg::BaseOffset { base, offset, offset_span, writeback }) => Some(s_mem_bo(source, 1, 1, Some(2u8), d, base, offset, offset_span, writeback)),
                (Arg::GPR(d), Arg::BaseIndex { base, index, shift, shift_span }) => Some(s_mem_bi(source, 1, 1, 2, d, base, index, shift, shift_span)),
                _ => None,
            }
        } else {
            None
        },
        Mnemonic::St16 => if ops.len() == 2 {
            match (ops[0].0, ops[1].0) {
                (Arg::GPR(d), Arg::BaseOffset { base, offset, offset_span, writeback }) => Some(s_mem_bo(source, 1, 2, Some(1u8), d, base, offset, offset_span, writeback)),
                (Arg::GPR(d), Arg::BaseIndex { base, index, shift, shift_span }) => Some(s_mem_bi(source, 1, 2, 1, d, base, index, shift, shift_span)),
                _ => None,
            }
        } else {
            None
        },
        Mnemonic::St8 => if ops.len() == 2 {
            match (ops[0].0, ops[1].0) {
                (Arg::GPR(d), Arg::BaseOffset { base, offset, offset_span, writeback }) => Some(s_mem_bo(source, 1, 3, None, d, base, offset, offset_span, writeback)),
                (Arg::GPR(d), Arg::BaseIndex { base, index, shift: 0, shift_span: _ }) => Some(s_mem_bi0(source, 1, 3, d, base, index)),
                _ => None,
            }
        } else {
            None
        },
        Mnemonic::LdS32 => if ops.len() == 2 {
            match (ops[0].0, ops[1].0) {
                (Arg::GPR(d), Arg::BaseOffset { base, offset, offset_span, writeback }) => Some(s_mem_bo(source, 2, 1, Some(2u8), d, base, offset, offset_span, writeback)),
                (Arg::GPR(d), Arg::BaseIndex { base, index, shift, shift_span }) => Some(s_mem_bi(source, 2, 1, 2, d, base, index, shift, shift_span)),
                _ => None,
            }
        } else {
            None
        },
        Mnemonic::LdS16 => if ops.len() == 2 {
            match (ops[0].0, ops[1].0) {
                (Arg::GPR(d), Arg::BaseOffset { base, offset, offset_span, writeback }) => Some(s_mem_bo(source, 2, 2, Some(1u8), d, base, offset, offset_span, writeback)),
                (Arg::GPR(d), Arg::BaseIndex { base, index, shift, shift_span }) => Some(s_mem_bi(source, 2, 2, 1, d, base, index, shift, shift_span)),
                _ => None,
            }
        } else {
            None
        },
        Mnemonic::LdS8 => if ops.len() == 2 {
            match (ops[0].0, ops[1].0) {
                (Arg::GPR(d), Arg::BaseOffset { base, offset, offset_span, writeback }) => Some(s_mem_bo(source, 2, 3, None, d, base, offset, offset_span, writeback)),
                (Arg::GPR(d), Arg::BaseIndex { base, index, shift: 0, shift_span: _ }) => Some(s_mem_bi0(source, 2, 3, d, base, index)),
                _ => None,
            }
        } else {
            None
        },
        Mnemonic::Br => if ops.len() == 1 {
            match (ops[0].0) {
                (Arg::Imd(v)) => Some(s_br(source, v, ops[0].1)),
                _ => None,
            }
        } else if ops.len() == 2 {
            match (ops[0].0, ops[1].0) {
                (Arg::GPR(l), Arg::Imd(v)) => Some(s_brl(source, l, v, ops[1].1)),
                _ => None,
            }
        } else {
            None
        },
        Mnemonic::BrTrue => if ops.len() == 2 {
            match (ops[0].0, ops[1].0) {
                (Arg::C0(c) | Arg::GPR(c), Arg::Imd(v)) => Some(s_brc(source, 1, c, ops[0].1, v, ops[1].1)),
                _ => None,
            }
        } else {
            None
        },
        Mnemonic::BrFalse => if ops.len() == 2 {
            match (ops[0].0, ops[1].0) {
                (Arg::C0(c) | Arg::GPR(c), Arg::Imd(v)) => Some(s_brc(source, 0, c, ops[0].1, v, ops[1].1)),
                _ => None,
            }
        } else {
            None
        },
        Mnemonic::Jmp => if ops.len() == 1 {
            match (ops[0].0) {
                (Arg::BaseIndex { base, index, shift, shift_span }) => Some(s_jmpi(source, Reg::R0, base, index, shift, shift_span)),
                (Arg::BaseOffset { base, offset, offset_span, writeback: false }) => Some(s_jmpo(source, Reg::R0, base, offset, offset_span)),
                _ => None,
            }
        } else if ops.len() == 2 {
            match (ops[0].0, ops[1].0) {
                (Arg::GPR(l), Arg::BaseIndex { base, index, shift, shift_span }) => Some(s_jmpi(source, l, base, index, shift, shift_span)),
                (Arg::GPR(l), Arg::BaseOffset { base, offset, offset_span, writeback: false }) => Some(s_jmpo(source, l, base, offset, offset_span)),
                _ => None,
            }
        } else {
            None
        },
        Mnemonic::Halt => if ops.len() == 0 {
            Some(s_halt(source))
        } else {
            None
        },
    }
}

fn encode_arith(m: Mnemonic, ops: &Vec<(Arg, Span)>, source: &Source) -> (r: Option<Result<u32, Fail>>)
    requires
        m == Mnemonic::Add || m == Mnemonic::AddCarry || m == Mnemonic::Sub || m == Mnemonic::SubBorrow || m == Mnemonic::Mult || m == Mnemonic::MultFull || m == Mnemonic::Madd || m == Mnemonic::Msub || m == Mnemonic::Div || m == Mnemonic::Rem || m == Mnemonic::DivFull || m == Mnemonic::Udiv || m == Mnemonic::Urem || m == Mnemonic::UdivFull || m == Mnemonic::Cinc || m == Mnemonic::Abs || m == Mnemonic::Neg || m == Mnemonic::Cneg || m == Mnemonic::Se8 || m == Mnemonic::Se16 || m == Mnemonic::Se32 || m == Mnemonic::Min || m == Mnemonic::Max || m == Mnemonic::Umin || m == Mnemonic::Umax,
        args_ok(ops@),
    ensures
        agrees_opt(r, format_res(m, ops@, source@)),
{
    let n = ops.len();
    proof {
        if n >= 1 { assert(arg_ok(ops@[0].0)); }
        if n >= 2 { assert(arg_ok(ops@[1].0)); }
        if n >= 3 { assert(arg_ok(ops@[2].0)); }
        if n >= 4 { assert(arg_ok(ops@[3].0)); }
    }
    match m {
        Mnemonic::Add => {
            if n == 3 {
                match (ops[0].0, ops[1].0, ops[2].0) {
                    (Arg::GPR(d), Arg::GPR(s1), Arg::GPR(s2)) => {
                        return Some(e_shop(source, 8, 0, Shift::SHL(0), d, s1, s2));
                    },
                    (Arg::GPR(d), Arg::GPR(s1), Arg::ShReg(s2, sh)) => {
                        return Some(e_shop(source, 8, 0, sh, d, s1, s2));
                    },
                    (Arg::GPR(d), Arg::GPR(s1) | Arg::PC(s1), Arg::Imd(v)) => {
                        return Some(e_ai(source, 0, d, s1, true, ops[1].1, v, ops[2].1));
                    },
                    _ => {},
                }
            }
            if n == 4 {
                match (ops[0].0, ops[1].0, ops[2].0, ops[3].0) {
                    (Arg::GPR(a), Arg::GPR(b), Arg::GPR(c), Arg::GPR(e)) => {
                        return Some(e_dpr4(source, 2, a, b, c, e));
                    },
                    _ => {},
                }
            }
            None
        },
        Mnemonic::AddCarry => {
            if n == 4 {
                match (ops[0].0, ops[1].0, ops[2].0, ops[3].0) {
                    (Arg::GPR(d), Arg::GPR(s1), Arg::GPR(s2), Arg::C0(c) | Arg::GPR(c)) => {
                        return Some(e_dpr4c(source, 0, d, s1, s2, c, ops[3].1));
                    },
                    _ => {},
                }
            }
            None
        },
        Mnemonic::Sub => {
            if n == 3 {
                match (ops[0].0, ops[1].0, ops[2].0) {
                    (Arg::GPR(d), Arg::GPR(s1), Arg::GPR(s2)) => {
                        return Some(e_shop(source, 9, 0, Shift::SHL(0), d, s1, s2));
                    },
                    (Arg::GPR(d), Arg::GPR(s1), Arg::ShReg(s2, sh)) => {
                        return Some(e_shop(source, 9, 0, sh, d, s1, s2));
                    },
                    (Arg::GPR(d), Arg::ShReg(s1, sh), Arg::GPR(s2)) => {
                        return Some(e_shop(source, 10, 0, sh, d, s2, s1));
                    },
                    (Arg::GPR(d), Arg::GPR(s1), Arg::Imd(v)) => {
                        return Some(e_ai(source, 1, d, s1, false, ops[1].1, v, ops[2].1));
                    },
                    (Arg::GPR(d), Arg::Imd(v), Arg::GPR(s2)) => {
                        return Some(e_ai(source, 2, d, s2, false, ops[2].1, v, ops[1].1));
                    },
                    _ => {},
                }
            }
            None
        },
        Mnemonic::SubBorrow => {
            if n == 4 {
                match (ops[0].0, ops[1].0, ops[2].0, ops[3].0) {
                    (Arg::GPR(d), Arg::GPR(s1), Arg::GPR(s2), Arg::C0(c) | Arg::GPR(c)) => {
                        return Some(e_dpr4c(source, 1, d, s1, s2, c, ops[3].1));
                    },
                    _ => {},
                }
            }
            None
        },
        Mnemonic::Mult => {
            if n == 3 {
                match (ops[0].0, ops[1].0, ops[2].0) {
                    (Arg::GPR(a), Arg::GPR(b), Arg::GPR(c)) => {
                        return Some(e_dpr4(source, 5, a, Reg::R0, b, c));
                    },
                    _ => {},
                }
            }
            None
        },
        Mnemonic::MultFull => {
            if n == 4 {
                match (ops[0].0, ops[1].0, ops[2].0, ops[3].0) {
                    (Arg::GPR(a), Arg::GPR(b), Arg::GPR(c), Arg::GPR(e)) => {
                        return Some(e_dpr4(source, 5, a, b, c, e));
                    },
                    _ => {},
                }
            }
            None
        },
        Mnemonic::Madd => {
            if n == 4 {
                match (ops[0].0, ops[1].0, ops[2].0, ops[3].0) {
                    (Arg::GPR(a), Arg::GPR(b), Arg::GPR(c), Arg::GPR(e)) => {
                        return Some(e_dpr4(source, 3, a, b, c, e));
                    },
                    _ => {},
                }
            }
            None
        },
        Mnemonic::Msub => {
            if n == 4 {
                match (ops[0].0, ops[1].0, ops[2].0, ops[3].0) {
                    (Arg::GPR(a), Arg::GPR(b), Arg::GPR(c), Arg::GPR(e)) => {
                        return Some(e_dpr4(source, 4, a, b, c, e));
                    },
                    _ => {},
                }
            }
            None
        },
        Mnemonic::Div => {
            if n == 3 {
                match (ops[0].0, ops[1].0, ops[2].0) {
                    (Arg::GPR(a), Arg::GPR(b), Arg::GPR(c)) => {
                        return Some(e_dpr4(source, 6, a, Reg::R0, b, c));
                    },
                    _ => {},
                }
            }
            None
        },
        Mnemonic::Rem => {
            if n == 3 {
                match (ops[0].0, ops[1].0, ops[2].0) {
                    (Arg::GPR(a), Arg::GPR(b), Arg::GPR(c)) => {
                        return Some(e_dpr4(source, 6, Reg::R0, a, b, c));
                    },
                    _ => {},
                }
            }
            None
        },
        Mnemonic::DivFull => {
            if n == 4 {
                match (ops[0].0, ops[1].0, ops[2].0, ops[3].0) {
                    (Arg::GPR(a), Arg::GPR(b), Arg::GPR(c), Arg::GPR(e)) => {
                        return Some(e_dpr4(source, 6, a, b, c, e));
                    },
                    _ => {},
                }
            }
            None
        },
        Mnemonic::Udiv => {
            if n == 3 {
                match (ops[0].0, ops[1].0, ops[2].0) {
                    (Arg::GPR(a), Arg::GPR(b), Arg::GPR(c)) => {
                        return Some(e_dpr4(source, 7, a, Reg::R0, b, c));
                    },
                    _ => {},
                }
            }
            None
        },
        Mnemonic::Urem => {
            if n == 3 {
                match (ops[0].0, ops[1].0, ops[2].0) {
                    (Arg::GPR(a), Arg::GPR(b), Arg::GPR(c)) => {
                        return Some(e_dpr4(source, 7, Reg::R0, a, b, c));
                    },
                    _ => {},
                }
            }
            None
        },
        Mnemonic::UdivFull => {
            if n == 4 {
                match (ops[0].0, ops[1].0, ops[2].0, ops[3].0) {
                    (Arg::GPR(a), Arg::GPR(b), Arg::GPR(c), Arg::GPR(e)) => {
                        return Some(e_dpr4(source, 7, a, b, c, e));
                    },
                    _ => {},
                }
            }
            None
        },
        Mnemonic::Cinc => {
            if n == 3 {
                match (ops[0].0, ops[1].0, ops[2].0) {
                    (Arg::GPR(d), Arg::C0(c) | Arg::GPR(c), Arg::GPR(s)) => {
                        return Some(e_g0c(source, 7, d, c, ops[1].1, s));
                    },
                    _ => {},
                }
            }
            None
        },
        Mnemonic::Abs => {
            if n == 2 {
                match (ops[0].0, ops[1].0) {
                    (Arg::GPR(d), Arg::GPR(s)) => {
                        return Some(e_dpr2(source, 2, d, s));
                    },
                    _ => {},
                }
            }
            None
        },
        Mnemonic::Neg => {
            if n == 2 {
                match (ops[0].0, ops[1].0) {
                    (Arg::GPR(d), Arg::GPR(s)) => {
                        return Some(e_shop(source, 9, 0, Shift::SHL(0), d, Reg::R0, s));
                    },
                    (Arg::GPR(d), Arg::ShReg(s, sh)) => {
                        return Some(e_shop(source, 9, 0, sh, d, Reg::R0, s));
                    },
                    _ => {},
                }
            }
            None
        },
        Mnemonic::Cneg => {
            if n == 3 {
                match (ops[0].0, ops[1].0, ops[2].0) {
                    (Arg::GPR(d), Arg::C0(c) | Arg::GPR(c), Arg::GPR(s)) => {
                        return Some(e_g0c(source, 8, d, c, ops[1].1, s));
                    },
                    _ => {},
                }
            }
            None
        },
        Mnemonic::Se8 => {
            if n == 2 {
                match (ops[0].0, ops[1].0) {
                    (Arg::GPR(d), Arg::GPR(s)) => {
                        return Some(e_dpr2(source, 15, d, s));
                    },
                    _ => {},
                }
            }
            None
        },
        Mnemonic::Se16 => {
            if n == 2 {
                match (ops[0].0, ops[1].0) {
                    (Arg::GPR(d), Arg::GPR(s)) => {
                        return Some(e_dpr2(source, 14, d, s));
                    },
                    _ => {},
                }
            }
            None
        },
        Mnemonic::Se32 => {
            if n == 2 {
                match (ops[0].0, ops[1].0) {
                    (Arg::GPR(d), Arg::GPR(s)) => {
                        return Some(e_dpr2(source, 13, d, s));
                    },
                    _ => {},
                }
            }
            None
        },
        Mnemonic::Min => {
            if n == 3 {
                match (ops[0].0, ops[1].0, ops[2].0) {
                    (Arg::GPR(d), Arg::GPR(s1), Arg::GPR(s2)) => {
                        return Some(e_g0(source, 2, d, s1, s2));
                    },
                    _ => {},
                }
            }
            None
        },
        Mnemonic::Max => {
            if n == 3 {
                match (ops[0].0, ops[1].0, ops[2].0) {
                    (Arg::GPR(d), Arg::GPR(s1), Arg::GPR(s2)) => {
                        return Some(e_g0(source, 3, d, s1, s2));
                    },
                    _ => {},
                }
            }
            None
        },
        Mnemonic::Umin => {
            if n == 3 {
                match (ops[0].0, ops[1].0, ops[2].0) {
                    (Arg::GPR(d), Arg::GPR(s1), Arg::GPR(s2)) => {
                        return Some(e_g0(source, 4, d, s1, s2));
                    },
                    _ => {},
                }
            }
            None
        },
        Mnemonic::Umax => {
            if n == 3 {
                match (ops[0].0, ops[1].0, ops[2].0) {
                    (Arg::GPR(d), Arg::GPR(s1), Arg::GPR(s2)) => {
                        return Some(e_g0(source, 5, d, s1, s2));
                    },
                    _ => {},
                }
            }
            None
        },
        _ => None,
    }
}

fn encode_comp(m: Mnemonic, ops: &Vec<(Arg, Span)>, source: &Source) -> (r: Option<Result<u32, Fail>>)
    requires
        m == Mnemonic::CompEq || m == Mnemonic::CompEqAnd || m == Mnemonic::CompEqOr || m == Mnemonic::CompNe || m == Mnemonic::CompNeAnd || m == Mnemonic::CompNeOr || m == Mnemonic::CompGt || m == Mnemonic::CompGtAnd || m == Mnemonic::CompGtOr || m == Mnemonic::CompLe || m == Mnemonic::CompLeAnd || m == Mnemonic::CompLeOr || m == Mnemonic::UcompGt || m == Mnemonic::UcompGtAnd || m == Mnemonic::UcompGtOr || m == Mnemonic::UcompLe || m == Mnemonic::UcompLeAnd || m == Mnemonic::UcompLeOr,
        args_ok(ops@),
    ensures
        agrees_opt(r, format_res(m, ops@, source@)),
{
    let n = ops.len();
    proof {
        if n >= 1 { assert(arg_ok(ops@[0].0)); }
        if n >= 2 { assert(arg_ok(ops@[1].0)); }
        if n >= 3 { assert(arg_ok(ops@[2].0)); }
        if n >= 4 { assert(arg_ok(ops@[3].0)); }
    }
    match m {
        Mnemonic::CompEq => {
            if n == 3 {
                match (ops[0].0, ops[1].0, ops[2].0) {
                    (Arg::C0(c) | Arg::GPR(c), Arg::GPR(s1), Arg::GPR(s2)) => {
                        return Some(e_comp3(source, 1, 0, 0, c, ops[0].1, s1, s2));
                    },
                    (Arg::C0(c) | Arg::GPR(c), Arg::GPR(s1), Arg::Imd(v)) => {
                        return Some(e_compi(source, 5, 0, 0, c, ops[0].1, s1, v, ops[2].1, true));
                    },
                    _ => {},
                }
            }
            None
        },
        Mnemonic::CompEqAnd => {
            if n == 3 {
                match (ops[0].0, ops[1].0, ops[2].0) {
                    (Arg::C0(c) | Arg::GPR(c), Arg::GPR(s1), Arg::GPR(s2)) => {
                        return Some(e_comp3(source, 1, 0, 1, c, ops[0].1, s1, s2));
                    },
                    (Arg::C0(c) | Arg::GPR(c), Arg::GPR(s1), Arg::Imd(v)) => {
                        return Some(e_compi(source, 5, 0, 1, c, ops[0].1, s1, v, ops[2].1, true));
                    },
                    _ => {},
                }
            }
            None
        },
        Mnemonic::CompEqOr => {
            if n == 3 {
                match (ops[0].0, ops[1].0, ops[2].0) {
                    (Arg::C0(c) | Arg::GPR(c), Arg::GPR(s1), Arg::GPR(s2)) => {
                        return Some(e_comp3(source, 1, 0, 3, c, ops[0].1, s1, s2));
                    },
                    _ => {},
                }
            }
            None
        },
        Mnemonic::CompNe => {
            if n == 3 {
                match (ops[0].0, ops[1].0, ops[2].0) {
                    (Arg::C0(c) | Arg::GPR(c), Arg::GPR(s1), Arg::GPR(s2)) => {
                        return Some(e_comp3(source, 1, 1, 0, c, ops[0].1, s1, s2));
                    },
                    (Arg::C0(c) | Arg::GPR(c), Arg::GPR(s1), Arg::Imd(v)) => {
                        return Some(e_compi(source, 5, 1, 0, c, ops[0].1, s1, v, ops[2].1, true));
                    },
                    _ => {},
                }
            }
            None
        },
        Mnemonic::CompNeAnd => {
            if n == 3 {
                match (ops[0].0, ops[1].0, ops[2].0) {
                    (Arg::C0(c) | Arg::GPR(c), Arg::GPR(s1), Arg::GPR(s2)) => {
                        return Some(e_comp3(source, 1, 1, 1, c, ops[0].1, s1, s2));
                    },
                    (Arg::C0(c) | Arg::GPR(c), Arg::GPR(s1), Arg::Imd(v)) => {
                        return Some(e_compi(source, 5, 1, 1, c, ops[0].1, s1, v, ops[2].1, true));
                    },
                    _ => {},
                }
            }
            None
        },
        Mnemonic::CompNeOr => {
            if n == 3 {
                match (ops[0].0, ops[1].0, ops[2].0) {
                    (Arg::C0(c) | Arg::GPR(c), Arg::GPR(s1), Arg::GPR(s2)) => {
                        return Some(e_comp3(source, 1, 1, 3, c, ops[0].1, s1, s2));
                    },
                    _ => {},
                }
            }
            None
        },
        Mnemonic::CompGt => {
            if n == 3 {
                match (ops[0].0, ops[1].0, ops[2].0) {
                    (Arg::C0(c) | Arg::GPR(c), Arg::GPR(s1), Arg::GPR(s2)) => {
                        return Some(e_comp3(source, 1, 2, 0, c, ops[0].1, s1, s2));
                    },
                    (Arg::C0(c) | Arg::GPR(c), Arg::GPR(s1), Arg::Imd(v)) => {
                        return Some(e_compi(source, 6, 0, 0, c, ops[0].1, s1, v, ops[2].1, true));
                    },
                    _ => {},
                }
            }
            None
        },
        Mnemonic::CompGtAnd => {
            if n == 3 {
                match (ops[0].0, ops[1].0, ops[2].0) {
                    (Arg::C0(c) | Arg::GPR(c), Arg::GPR(s1), Arg::GPR(s2)) => {
                        return Some(e_comp3(source, 1, 2, 1, c, ops[0].1, s1, s2));
                    },
                    (Arg::C0(c) | Arg::GPR(c), Arg::GPR(s1), Arg::Imd(v)) => {
                        return Some(e_compi(source, 6, 0, 1, c, ops[0].1, s1, v, ops[2].1, true));
                    },
                    _ => {},
                }
            }
            None
        },
        Mnemonic::CompGtOr => {
            if n == 3 {
                match (ops[0].0, ops[1].0, ops[2].0) {
                    (Arg::C0(c) | Arg::GPR(c), Arg::GPR(s1), Arg::GPR(s2)) => {
                        return Some(e_comp3(source, 1, 2, 3, c, ops[0].1, s1, s2));
                    },
                    _ => {},
                }
            }
            None
        },
        Mnemonic::CompLe => {
            if n == 3 {
                match (ops[0].0, ops[1].0, ops[2].0) {
                    (Arg::C0(c) | Arg::GPR(c), Arg::GPR(s1), Arg::GPR(s2)) => {
                        return Some(e_comp3(source, 1, 3, 0, c, ops[0].1, s1, s2));
                    },
                    _ => {},
                }
            }
            None
        },
        Mnemonic::CompLeAnd => {
            if n == 3 {
                match (ops[0].0, ops[1].0, ops[2].0) {
                    (Arg::C0(c) | Arg::GPR(c), Arg::GPR(s1), Arg::GPR(s2)) => {
                        return Some(e_comp3(source, 1, 3, 1, c, ops[0].1, s1, s2));
                    },
                    _ => {},
                }
            }
            None
        },
        Mnemonic::CompLeOr => {
            if n == 3 {
                match (ops[0].0, ops[1].0, ops[2].0) {
                    (Arg::C0(c) | Arg::GPR(c), Arg::GPR(s1), Arg::GPR(s2)) => {
                        return Some(e_comp3(source, 1, 3, 3, c, ops[0].1, s1, s2));
                    },
                    _ => {},
                }
            }
            None
        },
        Mnemonic::UcompGt => {
            if n == 3 {
                match (ops[0].0, ops[1].0, ops[2].0) {
                    (Arg::C0(c) | Arg::GPR(c), Arg::GPR(s1), Arg::GPR(s2)) => {
                        return Some(e_comp3(source, 1, 4, 0, c, ops[0].1, s1, s2));
                    },
                    (Arg::C0(c) | Arg::GPR(c), Arg::GPR(s1), Arg::Imd(v)) => {
                        return Some(e_compi(source, 6, 1, 0, c, ops[0].1, s1, v, ops[2].1, false));
                    },
                    _ => {},
                }
            }
            None
        },
        Mnemonic::UcompGtAnd => {
            if n == 3 {
                match (ops[0].0, ops[1].0, ops[2].0) {
                    (Arg::C0(c) | Arg::GPR(c), Arg::GPR(s1), Arg::GPR(s2)) => {
                        return Some(e_comp3(source, 1, 4, 1, c, ops[0].1, s1, s2));
                    },
                    (Arg::C0(c) | Arg::GPR(c), Arg::GPR(s1), Arg::Imd(v)) => {
                        return Some(e_compi(source, 6, 1, 1, c, ops[0].1, s1, v, ops[2].1, false));
                    },
                    _ => {},
                }
            }
            None
        },
        Mnemonic::UcompGtOr => {
            if n == 3 {
                match (ops[0].0, ops[1].0, ops[2].0) {
                    (Arg::C0(c) | Arg::GPR(c), Arg::GPR(s1), Arg::GPR(s2)) => {
                        return Some(e_comp3(source, 1, 4, 3, c, ops[0].1, s1, s2));
                    },
                    _ => {},
                }
            }
            None
        },
        Mnemonic::UcompLe => {
            if n == 3 {
                match (ops[0].0, ops[1].0, ops[2].0) {
                    (Arg::C0(c) | Arg::GPR(c), Arg::GPR(s1), Arg::GPR(s2)) => {
                        return Some(e_comp3(source, 1, 5, 0, c, ops[0].1, s1, s2));
                    },
                    _ => {},
                }
            }
            None
        },
        Mnemonic::UcompLeAnd => {
            if n == 3 {
                match (ops[0].0, ops[1].0, ops[2].0) {
                    (Arg::C0(c) | Arg::GPR(c), Arg::GPR(s1), Arg::GPR(s2)) => {
                        return Some(e_comp3(source, 1, 5, 1, c, ops[0].1, s1, s2));
                    },
                    _ => {},
                }
            }
            None
        },
        Mnemonic::UcompLeOr => {
            if n == 3 {
                match (ops[0].0, ops[1].0, ops[2].0) {
                    (Arg::C0(c) | Arg::GPR(c), Arg::GPR(s1), Arg::GPR(s2)) => {
                        return Some(e_comp3(source, 1, 5, 3, c, ops[0].1, s1, s2));
                    },
                    _ => {},
                }
            }
            None
        },
        _ => None,
    }
}

fn encode_logic(m: Mnemonic, ops: &Vec<(Arg, Span)>, source: &Source) -> (r: Option<Result<u32, Fail>>)
    requires
        m == Mnemonic::Not || m == Mnemonic::Cnot || m == Mnemonic::And || m == Mnemonic::Or || m == Mnemonic::Xor || m == Mnemonic::Imply || m == Mnemonic::Nand || m == Mnemonic::Nor || m == Mnemonic::Xnor || m == Mnemonic::Bcr,
        args_ok(ops@),
    ensures
        agrees_opt(r, format_res(m, ops@, source@)),
{
    let n = ops.len();
    proof {
        if n >= 1 { assert(arg_ok(ops@[0].0)); }
        if n >= 2 { assert(arg_ok(ops@[1].0)); }
        if n >= 3 { assert(arg_ok(ops@[2].0)); }
        if n >= 4 { assert(arg_ok(ops@[3].0)); }
    }
    match m {
        Mnemonic::Not => {
            if n == 2 {
                match (ops[0].0, ops[1].0) {
                    (Arg::GPR(d), Arg::GPR(s)) => {
                        return Some(e_shop(source, 14, 1, Shift::SHL(0), d, Reg::R0, s));
                    },
                    (Arg::GPR(d), Arg::ShReg(s, sh)) => {
                        return Some(e_shop(source, 14, 1, sh, d, Reg::R0, s));
                    },
                    _ => {},
                }
            }
            None
        },
        Mnemonic::Cnot => {
            if n == 3 {
                match (ops[0].0, ops[1].0, ops[2].0) {
                    (Arg::GPR(d), Arg::C0(c) | Arg::GPR(c), Arg::GPR(s)) => {
                        return Some(e_g0c(source, 6, d, c, ops[1].1, s));
                    },
                    _ => {},
                }
            }
            None
        },
        Mnemonic::And => {
            if n == 3 {
                match (ops[0].0, ops[1].0, ops[2].0) {
                    (Arg::GPR(d), Arg::GPR(s1), Arg::GPR(s2)) => {
                        return Some(e_shop(source, 8, 1, Shift::SHL(0), d, s1, s2));
                    },
                    (Arg::GPR(d), Arg::GPR(s1), Arg::ShReg(s2, sh)) => {
                        return Some(e_shop(source, 8, 1, sh, d, s1, s2));
                    },
                    (Arg::GPR(d), Arg::GPR(s1), Arg::LogicImd { level, ones, rot }) => {
                        return Some(e_limd(source, 0, 0, d, s1, level, ones, rot));
                    },
                    _ => {},
                }
            }
            None
        },
        Mnemonic::Or => {
            if n == 3 {
                match (ops[0].0, ops[1].0, ops[2].0) {
                    (Arg::GPR(d), Arg::GPR(s1), Arg::GPR(s2)) => {
                        return Some(e_shop(source, 9, 1, Shift::SHL(0), d, s1, s2));
                    },
                    (Arg::GPR(d), Arg::GPR(s1), Arg::ShReg(s2, sh)) => {
                        return Some(e_shop(source, 9, 1, sh, d, s1, s2));
                    },
                    (Arg::GPR(d), Arg::GPR(s1), Arg::LogicImd { level, ones, rot }) => {
                        return Some(e_limd(source, 0, 1, d, s1, level, ones, rot));
                    },
                    _ => {},
                }
            }
            None
        },
        Mnemonic::Xor => {
            if n == 3 {
                match (ops[0].0, ops[1].0, ops[2].0) {
                    (Arg::GPR(d), Arg::GPR(s1), Arg::GPR(s2)) => {
                        return Some(e_shop(source, 10, 1, Shift::SHL(0), d, s1, s2));
                    },
                    (Arg::GPR(d), Arg::GPR(s1), Arg::ShReg(s2, sh)) => {
                        return Some(e_shop(source, 10, 1, sh, d, s1, s2));
                    },
                    (Arg::GPR(d), Arg::GPR(s1), Arg::LogicImd { level, ones, rot }) => {
                        return Some(e_limd(source, 1, 0, d, s1, level, ones, rot));
                    },
                    _ => {},
                }
            }
            None
        },
        Mnemonic::Imply => {
            if n == 3 {
                match (ops[0].0, ops[1].0, ops[2].0) {
                    (Arg::GPR(d), Arg::GPR(s1), Arg::GPR(s2)) => {
                        return Some(e_shop(source, 11, 1, Shift::SHL(0), d, s1, s2));
                    },
                    (Arg::GPR(d), Arg::GPR(s1), Arg::ShReg(s2, sh)) => {
                        return Some(e_shop(source, 11, 1, sh, d, s1, s2));
                    },
                    (Arg::GPR(d), Arg::GPR(s1), Arg::LogicImd { level, ones, rot }) => {
                        return Some(e_limd(source, 1, 1, d, s1, level, ones, rot));
                    },
                    _ => {},
                }
            }
            None
        },
        Mnemonic::Nand => {
            if n == 3 {
                match (ops[0].0, ops[1].0, ops[2].0) {
                    (Arg::GPR(d), Arg::GPR(s1), Arg::GPR(s2)) => {
                        return Some(e_shop(source, 12, 1, Shift::SHL(0), d, s1, s2));
                    },
                    (Arg::GPR(d), Arg::GPR(s1), Arg::ShReg(s2, sh)) => {
                        return Some(e_shop(source, 12, 1, sh, d, s1, s2));
                    },
                    (Arg::GPR(d), Arg::GPR(s1), Arg::LogicImd { level, ones, rot }) => {
                        return Some(e_limd(source, 2, 0, d, s1, level, ones, rot));
                    },
                    _ => {},
                }
            }
            None
        },
        Mnemonic::Nor => {
            if n == 3 {
                match (ops[0].0, ops[1].0, ops[2].0) {
                    (Arg::GPR(d), Arg::GPR(s1), Arg::GPR(s2)) => {
                        return Some(e_shop(source, 13, 1, Shift::SHL(0), d, s1, s2));
                    },
                    (Arg::GPR(d), Arg::GPR(s1), Arg::ShReg(s2, sh)) => {
                        return Some(e_shop(source, 13, 1, sh, d, s1, s2));
                    },
                    (Arg::GPR(d), Arg::GPR(s1), Arg::LogicImd { level, ones, rot }) => {
                        return Some(e_limd(source, 2, 1, d, s1, level, ones, rot));
                    },
                    _ => {},
                }
            }
            None
        },
        Mnemonic::Xnor => {
            if n == 3 {
                match (ops[0].0, ops[1].0, ops[2].0) {
                    (Arg::GPR(d), Arg::GPR(s1), Arg::GPR(s2)) => {
                        return Some(e_shop(source, 14, 1, Shift::SHL(0), d, s1, s2));
                    },
                    (Arg::GPR(d), Arg::GPR(s1), Arg::ShReg(s2, sh)) => {
                        return Some(e_shop(source, 14, 1, sh, d, s1, s2));
                    },
                    (Arg::GPR(d), Arg::GPR(s1), Arg::LogicImd { level, ones, rot }) => {
                        return Some(e_limd(source, 3, 0, d, s1, level, ones, rot));
                    },
                    _ => {},
                }
            }
            None
        },
        Mnemonic::Bcr => {
            if n == 3 {
                match (ops[0].0, ops[1].0, ops[2].0) {
                    (Arg::GPR(d), Arg::GPR(s1), Arg::GPR(s2)) => {
                        return Some(e_shop(source, 15, 1, Shift::SHL(0), d, s1, s2));
                    },
                    (Arg::GPR(d), Arg::GPR(s1), Arg::ShReg(s2, sh)) => {
                        return Some(e_shop(source, 15, 1, sh, d, s1, s2));
                    },
                    (Arg::GPR(d), Arg::GPR(s1), Arg::LogicImd { level, ones, rot }) => {
                        return Some(e_limd(source, 3, 1, d, s1, level, ones, rot));
                    },
                    _ => {},
                }
            }
            None
        },
        _ => None,
    }
}

fn encode_test(m: Mnemonic, ops: &Vec<(Arg, Span)>, source: &Source) -> (r: Option<Result<u32, Fail>>)
    requires
        m == Mnemonic::TestNone || m == Mnemonic::TestNoneAnd || m == Mnemonic::TestNoneOr || m == Mnemonic::TestAny || m == Mnemonic::TestAnyAnd || m == Mnemonic::TestAnyOr || m == Mnemonic::TestAll || m == Mnemonic::TestAllAnd || m == Mnemonic::TestAllOr,
        args_ok(ops@),
    ensures
        agrees_opt(r, format_res(m, ops@, source@)),
{
    let n = ops.len();
    proof {
        if n >= 1 { assert(arg_ok(ops@[0].0)); }
        if n >= 2 { assert(arg_ok(ops@[1].0)); }
        if n >= 3 { assert(arg_ok(ops@[2].0)); }
        if n >= 4 { assert(arg_ok(ops@[3].0)); }
    }
    match m {
        Mnemonic::TestNone => {
            if n == 3 {
                match (ops[0].0, ops[1].0, ops[2].0) {
                    (Arg::C0(c) | Arg::GPR(c), Arg::GPR(s1), Arg::GPR(s2)) => {
                        return Some(e_comp3(source, 2, 0, 0, c, ops[0].1, s1, s2));
                    },
                    (Arg::C0(c) | Arg::GPR(c), Arg::GPR(s), Arg::LogicImd { level, ones, rot }) => {
                        return Some(e_testi(source, 7, 0, c, ops[0].1, s, level, ones, rot));
                    },
                    _ => {},
                }
            }
            None
        },
        Mnemonic::TestNoneAnd => {
            if n == 3 {
                match (ops[0].0, ops[1].0, ops[2].0) {
                    (Arg::C0(c) | Arg::GPR(c), Arg::GPR(s1), Arg::GPR(s2)) => {
                        return Some(e_comp3(source, 2, 0, 1, c, ops[0].1, s1, s2));
                    },
                    (Arg::C0(c) | Arg::GPR(c), Arg::GPR(s), Arg::LogicImd { level, ones, rot }) => {
                        return Some(e_testi(source, 7, 1, c, ops[0].1, s, level, ones, rot));
                    },
                    _ => {},
                }
            }
            None
        },
        Mnemonic::TestNoneOr => {
            if n == 3 {
                match (ops[0].0, ops[1].0, ops[2].0) {
                    (Arg::C0(c) | Arg::GPR(c), Arg::GPR(s1), Arg::GPR(s2)) => {
                        return Some(e_comp3(source, 2, 0, 3, c, ops[0].1, s1, s2));
                    },
                    _ => {},
                }
            }
            None
        },
        Mnemonic::TestAny => {
            if n == 3 {
                match (ops[0].0, ops[1].0, ops[2].0) {
                    (Arg::C0(c) | Arg::GPR(c), Arg::GPR(s1), Arg::GPR(s2)) => {
                        return Some(e_comp3(source, 2, 1, 0, c, ops[0].1, s1, s2));
                    },
                    (Arg::C0(c) | Arg::GPR(c), Arg::GPR(s), Arg::LogicImd { level, ones, rot }) => {
                        return Some(e_testi(source, 8, 0, c, ops[0].1, s, level, ones, rot));
                    },
                    _ => {},
                }
            }
            None
        },
        Mnemonic::TestAnyAnd => {
            if n == 3 {
                match (ops[0].0, ops[1].0, ops[2].0) {
                    (Arg::C0(c) | Arg::GPR(c), Arg::GPR(s1), Arg::GPR(s2)) => {
                        return Some(e_comp3(source, 2, 1, 1, c, ops[0].1, s1, s2));
                    },
                    (Arg::C0(c) | Arg::GPR(c), Arg::GPR(s), Arg::LogicImd { level, ones, rot }) => {
                        return Some(e_testi(source, 8, 1, c, ops[0].1, s, level, ones, rot));
                    },
                    _ => {},
                }
            }
            None
        },
        Mnemonic::TestAnyOr => {
            if n == 3 {
                match (ops[0].0, ops[1].0, ops[2].0) {
                    (Arg::C0(c) | Arg::GPR(c), Arg::GPR(s1), Arg::GPR(s2)) => {
                        return Some(e_comp3(source, 2, 1, 3, c, ops[0].1, s1, s2));
                    },
                    _ => {},
                }
            }
            None
        },
        Mnemonic::TestAll => {
            if n == 3 {
                match (ops[0].0, ops[1].0, ops[2].0) {
                    (Arg::C0(c) | Arg::GPR(c), Arg::GPR(s1), Arg::GPR(s2)) => {
                        return Some(e_comp3(source, 2, 2, 0, c, ops[0].1, s1, s2));
                    },
                    (Arg::C0(c) | Arg::GPR(c), Arg::GPR(s), Arg::LogicImd { level, ones, rot }) => {
                        return Some(e_testi(source, 9, 0, c, ops[0].1, s, level, ones, rot));
                    },
                    _ => {},
                }
            }
            None
        },
        Mnemonic::TestAllAnd => {
            if n == 3 {
                match (ops[0].0, ops[1].0, ops[2].0) {
                    (Arg::C0(c) | Arg::GPR(c), Arg::GPR(s1), Arg::GPR(s2)) => {
                        return Some(e_comp3(source, 2, 2, 1, c, ops[0].1, s1, s2));
                    },
                    (Arg::C0(c) | Arg::GPR(c), Arg::GPR(s), Arg::LogicImd { level, ones, rot }) => {
                        return Some(e_testi(source, 9, 1, c, ops[0].1, s, level, ones, rot));
                    },
                    _ => {},
                }
            }
            None
        },
        Mnemonic::TestAllOr => {
            if n == 3 {
                match (ops[0].0, ops[1].0, ops[2].0) {
                    (Arg::C0(c) | Arg::GPR(c), Arg::GPR(s1), Arg::GPR(s2)) => {
                        return Some(e_comp3(source, 2, 2, 3, c, ops[0].1, s1, s2));
                    },
                    _ => {},
                }
            }
            None
        },
        _ => None,
    }
}

fn encode_bits(m: Mnemonic, ops: &Vec<(Arg, Span)>, source: &Source) -> (r: Option<Result<u32, Fail>>)
    requires
        m == Mnemonic::Shl || m == Mnemonic::Shr || m == Mnemonic::Sar || m == Mnemonic::Rol || m == Mnemonic::Fush || m == Mnemonic::Bfext || m == Mnemonic::Bfins || m == Mnemonic::Cnt || m == Mnemonic::Cntz || m == Mnemonic::Clz || m == Mnemonic::Clo || m == Mnemonic::Ctz || m == Mnemonic::Cto || m == Mnemonic::Cls || m == Mnemonic::Rev || m == Mnemonic::Rev32 || m == Mnemonic::Rev16 || m == Mnemonic::Rev8,
        args_ok(ops@),
    ensures
        agrees_opt(r, format_res(m, ops@, source@)),
{
    let n = ops.len();
    proof {
        if n >= 1 { assert(arg_ok(ops@[0].0)); }
        if n >= 2 { assert(arg_ok(ops@[1].0)); }
        if n >= 3 { assert(arg_ok(ops@[2].0)); }
        if n >= 4 { assert(arg_ok(ops@[3].0)); }
    }
    match m {
        Mnemonic::Shl => {
            if n == 3 {
                match (ops[0].0, ops[1].0, ops[2].0) {
                    (Arg::GPR(a), Arg::GPR(b), Arg::GPR(c)) => {
                        return Some(e_dpr4(source, 8, a, b, Reg::R0, c));
                    },
                    (Arg::GPR(d), Arg::GPR(s), Arg::Imd(a)) => {
                        return Some(e_shimd(source, 0, d, s, a, ops[2].1));
                    },
                    _ => {},
                }
            }
            None
        },
        Mnemonic::Shr => {
            if n == 3 {
                match (ops[0].0, ops[1].0, ops[2].0) {
                    (Arg::GPR(d), Arg::GPR(s), Arg::GPR(a)) => {
                        return Some(e_g0(source, 0, d, s, a));
                    },
                    (Arg::GPR(d), Arg::GPR(s), Arg::Imd(a)) => {
                        return Some(e_shimd(source, 1, d, s, a, ops[2].1));
                    },
                    _ => {},
                }
            }
            None
        },
        Mnemonic::Sar => {
            if n == 3 {
                match (ops[0].0, ops[1].0, ops[2].0) {
                    (Arg::GPR(d), Arg::GPR(s), Arg::GPR(a)) => {
                        return Some(e_g0(source, 1, d, s, a));
                    },
                    (Arg::GPR(d), Arg::GPR(s), Arg::Imd(a)) => {
                        return Some(e_shimd(source, 2, d, s, a, ops[2].1));
                    },
                    _ => {},
                }
            }
            None
        },
        Mnemonic::Rol => {
            if n == 3 {
                match (ops[0].0, ops[1].0, ops[2].0) {
                    (Arg::GPR(d), Arg::GPR(s), Arg::GPR(a)) => {
                        return Some(e_dpr4(source, 8, d, s, s, a));
                    },
                    (Arg::GPR(d), Arg::GPR(s), Arg::Imd(a)) => {
                        return Some(e_shimd(source, 3, d, s, a, ops[2].1));
                    },
                    _ => {},
                }
            }
            None
        },
        Mnemonic::Fush => {
            if n == 4 {
                match (ops[0].0, ops[1].0, ops[2].0, ops[3].0) {
                    (Arg::GPR(a), Arg::GPR(b), Arg::GPR(c), Arg::GPR(e)) => {
                        return Some(e_dpr4(source, 8, a, b, c, e));
                    },
                    _ => {},
                }
            }
            None
        },
        Mnemonic::Bfext => {
            if n == 4 {
                match (ops[0].0, ops[1].0, ops[2].0, ops[3].0) {
                    (Arg::GPR(a), Arg::GPR(b), Arg::GPR(c), Arg::GPR(e)) => {
                        return Some(e_dpr4(source, 9, a, b, c, e));
                    },
                    (Arg::GPR(d), Arg::GPR(s), Arg::Imd(o), Arg::Imd(w)) => {
                        return Some(e_bf(source, 0, d, s, o, ops[2].1, w, ops[3].1));
                    },
                    _ => {},
                }
            }
            None
        },
        Mnemonic::Bfins => {
            if n == 4 {
                match (ops[0].0, ops[1].0, ops[2].0, ops[3].0) {
                    (Arg::GPR(a), Arg::GPR(b), Arg::GPR(c), Arg::GPR(e)) => {
                        return Some(e_dpr4(source, 10, a, b, c, e));
                    },
                    (Arg::GPR(d), Arg::GPR(s), Arg::Imd(o), Arg::Imd(w)) => {
                        return Some(e_bf(source, 1, d, s, o, ops[2].1, w, ops[3].1));
                    },
                    _ => {},
                }
            }
            None
        },
        Mnemonic::Cnt => {
            if n == 2 {
                match (ops[0].0, ops[1].0) {
                    (Arg::GPR(d), Arg::GPR(s)) => {
                        return Some(e_dpr2(source, 0, d, s));
                    },
                    _ => {},
                }
            }
            None
        },
        Mnemonic::Cntz => {
            if n == 2 {
                match (ops[0].0, ops[1].0) {
                    (Arg::GPR(d), Arg::GPR(s)) => {
                        return Some(e_dpr2(source, 1, d, s));
                    },
                    _ => {},
                }
            }
            None
        },
        Mnemonic::Clz => {
            if n == 2 {
                match (ops[0].0, ops[1].0) {
                    (Arg::GPR(d), Arg::GPR(s)) => {
                        return Some(e_dpr2(source, 4, d, s));
                    },
                    _ => {},
                }
            }
            None
        },
        Mnemonic::Clo => {
            if n == 2 {
                match (ops[0].0, ops[1].0) {
                    (Arg::GPR(d), Arg::GPR(s)) => {
                        return Some(e_dpr2(source, 5, d, s));
                    },
                    _ => {},
                }
            }
            None
        },
        Mnemonic::Ctz => {
            if n == 2 {
                match (ops[0].0, ops[1].0) {
                    (Arg::GPR(d), Arg::GPR(s)) => {
                        return Some(e_dpr2(source, 6, d, s));
                    },
                    _ => {},
                }
            }
            None
        },
        Mnemonic::Cto => {
            if n == 2 {
                match (ops[0].0, ops[1].0) {
                    (Arg::GPR(d), Arg::GPR(s)) => {
                        return Some(e_dpr2(source, 7, d, s));
                    },
                    _ => {},
                }
            }
            None
        },
        Mnemonic::Cls => {
            if n == 2 {
                match (ops[0].0, ops[1].0) {
                    (Arg::GPR(d), Arg::GPR(s)) => {
                        return Some(e_dpr2(source, 3, d, s));
                    },
                    _ => {},
                }
            }
            None
        },
        Mnemonic::Rev => {
            if n == 2 {
                match (ops[0].0, ops[1].0) {
                    (Arg::GPR(d), Arg::GPR(s)) => {
                        return Some(e_dpr2(source, 8, d, s));
                    },
                    _ => {},
                }
            }
            None
        },
        Mnemonic::Rev32 => {
            if n == 2 {
                match (ops[0].0, ops[1].0) {
                    (Arg::GPR(d), Arg::GPR(s)) => {
                        return Some(e_dpr2(source, 9, d, s));
                    },
                    _ => {},
                }
            }
            None
        },
        Mnemonic::Rev16 => {
            if n == 2 {
                match (ops[0].0, ops[1].0) {
                    (Arg::GPR(d), Arg::GPR(s)) => {
                        return Some(e_dpr2(source, 10, d, s));
                    },
                    _ => {},
                }
            }
            None
        },
        Mnemonic::Rev8 => {
            if n == 2 {
                match (ops[0].0, ops[1].0) {
                    (Arg::GPR(d), Arg::GPR(s)) => {
                        return Some(e_dpr2(source, 11, d, s));
                    },
                    _ => {},
                }
            }
            None
        },
        _ => None,
    }
}

fn encode_mov(m: Mnemonic, ops: &Vec<(Arg, Span)>, source: &Source) -> (r: Option<Result<u32, Fail>>)
    requires
        m == Mnemonic::Mov || m == Mnemonic::MovKeep || m == Mnemonic::Sel,
        args_ok(ops@),
    ensures
        agrees_opt(r, format_res(m, ops@, source@)),
{
    let n = ops.len();
    proof {
        if n >= 1 { assert(arg_ok(ops@[0].0)); }
        if n >= 2 { assert(arg_ok(ops@[1].0)); }
        if n >= 3 { assert(arg_ok(ops@[2].0)); }
        if n >= 4 { assert(arg_ok(ops@[3].0)); }
    }
    match m {
        Mnemonic::Mov => {
            if n == 2 {
                match (ops[0].0, ops[1].0) {
                    (Arg::GPR(d), Arg::GPR(s)) => {
                        return Some(e_shop(source, 9, 1, Shift::SHL(0), d, s, Reg::R0));
                    },
                    (Arg::GPR(d), Arg::Imd(v)) => {
                        return Some(if v < 0 { e_ai(source, 1, d, Reg::R0, false, ops[1].1, (-v) as i128, ops[1].1) } else { e_movw(source, d, v, ops[1].1) });
                    },
                    (Arg::GPR(d), Arg::LogicImd { level, ones, rot }) => {
                        return Some(e_limd(source, 0, 1, d, Reg::R0, level, ones, rot));
                    },
                    _ => {},
                }
            }
            if n == 3 {
                match (ops[0].0, ops[1].0, ops[2].0) {
                    (Arg::GPR(d), Arg::Imd(v), Arg::Imd(sh)) => {
                        return Some(e_movk(source, 0, d, v, ops[1].1, sh, ops[2].1));
                    },
                    _ => {},
                }
            }
            None
        },
        Mnemonic::MovKeep => {
            if n == 3 {
                match (ops[0].0, ops[1].0, ops[2].0) {
                    (Arg::GPR(d), Arg::Imd(v), Arg::Imd(sh)) => {
                        return Some(e_movk(source, 1, d, v, ops[1].1, sh, ops[2].1));
                    },
                    _ => {},
                }
            }
            None
        },
        Mnemonic::Sel => {
            if n == 4 {
                match (ops[0].0, ops[1].0, ops[2].0, ops[3].0) {
                    (Arg::GPR(d), Arg::C0(c) | Arg::GPR(c), Arg::GPR(s1), Arg::GPR(s2)) => {
                        return Some(e_selr(source, d, c, ops[1].1, s1, s2));
                    },
                    (Arg::GPR(d), Arg::C0(c) | Arg::GPR(c), Arg::GPR(s1), Arg::Imd(v)) => {
                        return Some(e_seli(source, d, c, ops[1].1, s1, v, ops[3].1));
                    },
                    _ => {},
                }
            }
            None
        },
        _ => None,
    }
}

fn encode_mem(m: Mnemonic, ops: &Vec<(Arg, Span)>, source: &Source) -> (r: Option<Result<u32, Fail>>)
    requires
        m == Mnemonic::Ld || m == Mnemonic::Ld32 || m == Mnemonic::Ld16 || m == Mnemonic::Ld8 || m == Mnemonic::St || m == Mnemonic::St32 || m == Mnemonic::St16 || m == Mnemonic::St8 || m == Mnemonic::LdS32 || m == Mnemonic::LdS16 || m == Mnemonic::LdS8,
        args_ok(ops@),
    ensures
        agrees_opt(r, format_res(m, ops@, source@)),
{
    let n = ops.len();
    proof {
        if n >= 1 { assert(arg_ok(ops@[0].0)); }
        if n >= 2 { assert(arg_ok(ops@[1].0)); }
        if n >= 3 { assert(arg_ok(ops@[2].0)); }
        if n >= 4 { assert(arg_ok(ops@[3].0)); }
    }
    match m {
        Mnemonic::Ld => {
            if n == 2 {
                match (ops[0].0, ops[1].0) {
                    (Arg::GPR(d), Arg::Offset(off, osp)) => {
                        return Some(e_mem_off(source, 0, Some(3u8), d, off, osp));
                    },
                    (Arg::GPR(d), Arg::BaseOffset { base, offset, offset_span, writeback }) => {
                        return Some(e_mem_bo(source, 0, 0, Some(3u8), d, base, offset, offset_span, writeback));
                    },
                    (Arg::GPR(d), Arg::BaseIndex { base, index, shift, shift_span }) => {
                        return Some(e_mem_bi(source, 0, 0, 3, d, base, index, shift, shift_span));
                    },
                    _ => {},
                }
            }
            None
        },
        Mnemonic::Ld32 => {
            if n == 2 {
                match (ops[0].0, ops[1].0) {
                    (Arg::GPR(d), Arg::Offset(off, osp)) => {
                        return Some(e_mem_off(source, 1, Some(2u8), d, off, osp));
                    },
                    (Arg::GPR(d), Arg::BaseOffset { base, offset, offset_span, writeback }) => {
                        return Some(e_mem_bo(source, 0, 1, Some(2u8), d, base, offset, offset_span, writeback));
                    },
                    (Arg::GPR(d), Arg::BaseIndex { base, index, shift, shift_span }) => {
                        return Some(e_mem_bi(source, 0, 1, 2, d, base, index, shift, shift_span));
                    },
                    _ => {},
                }
            }
            None
        },
        Mnemonic::Ld16 => {
            if n == 2 {
                match (ops[0].0, ops[1].0) {
                    (Arg::GPR(d), Arg::Offset(off, osp)) => {
                        return Some(e_mem_off(source, 2, Some(1u8), d, off, osp));
                    },
                    (Arg::GPR(d), Arg::BaseOffset { base, offset, offset_span, writeback }) => {
                        return Some(e_mem_bo(source, 0, 2, Some(1u8), d, base, offset, offset_span, writeback));
                    },
                    (Arg::GPR(d), Arg::BaseIndex { base, index, shift, shift_span }) => {
                        return Some(e_mem_bi(source, 0, 2, 1, d, base, index, shift, shift_span));
                    },
                    _ => {},
                }
            }
            None
        },
        Mnemonic::Ld8 => {
            if n == 2 {
                match (ops[0].0, ops[1].0) {
                    (Arg::GPR(d), Arg::Offset(off, osp)) => {
                        return Some(e_mem_off(source, 3, None, d, off, osp));
                    },
                    (Arg::GPR(d), Arg::BaseOffset { base, offset, offset_span, writeback }) => {
                        return Some(e_mem_bo(source, 0, 3, None, d, base, offset, offset_span, writeback));
                    },
                    (Arg::GPR(d), Arg::BaseIndex { base, index, shift: 0, shift_span: _ }) => {
                        return Some(e_mem_bi0(source, 0, 3, d, base, index));
                    },
                    _ => {},
                }
            }
            None
        },
        Mnemonic::St => {
            if n == 2 {
                match (ops[0].0, ops[1].0) {
                    (Arg::GPR(d), Arg::BaseOffset { base, offset, offset_span, writeback }) => {
                        return Some(e_mem_bo(source, 1, 0, Some(3u8), d, base, offset, offset_span, writeback));
                    },
                    (Arg::GPR(d), Arg::BaseIndex { base, index, shift, shift_span }) => {
                        return Some(e_mem_bi(source, 1, 0, 3, d, base, index, shift, shift_span));
                    },
                    _ => {},
                }
            }
            None
        },
        Mnemonic::St32 => {
            if n == 2 {
                match (ops[0].0, ops[1].0) {
                    (Arg::GPR(d), Arg::BaseOffset { base, offset, offset_span, writeback }) => {
                        return Some(e_mem_bo(source, 1, 1, Some(2u8), d, base, offset, offset_span, writeback));
                    },
                    (Arg::GPR(d), Arg::BaseIndex { base, index, shift, shift_span }) => {
                        return Some(e_mem_bi(source, 1, 1, 2, d, base, index, shift, shift_span));
                    },
                    _ => {},
                }
            }
            None
        },
        Mnemonic::St16 => {
            if n == 2 {
                match (ops[0].0, ops[1].0) {
                    (Arg::GPR(d), Arg::BaseOffset { base, offset, offset_span, writeback }) => {
                        return Some(e_mem_bo(source, 1, 2, Some(1u8), d, base, offset, offset_span, writeback));
                    },
                    (Arg::GPR(d), Arg::BaseIndex { base, index, shift, shift_span }) => {
                        return Some(e_mem_bi(source, 1, 2, 1, d, base, index, shift, shift_span));
                    },
                    _ => {},
                }
            }
            None
        },
        Mnemonic::St8 => {
            if n == 2 {
                match (ops[0].0, ops[1].0) {
                    (Arg::GPR(d), Arg::BaseOffset { base, offset, offset_span, writeback }) => {
                        return Some(e_mem_bo(source, 1, 3, None, d, base, offset, offset_span, writeback));
                    },
                    (Arg::GPR(d), Arg::BaseIndex { base, index, shift: 0, shift_span: _ }) => {
                        return Some(e_mem_bi0(source, 1, 3, d, base, index));
                    },
                    _ => {},
                }
            }
            None
        },
        Mnemonic::LdS32 => {
            if n == 2 {
                match (ops[0].0, ops[1].0) {
                    (Arg::GPR(d), Arg::BaseOffset { base, offset, offset_span, writeback }) => {
                        return Some(e_mem_bo(source, 2, 1, Some(2u8), d, base, offset, offset_span, writeback));
                    },
                    (Arg::GPR(d), Arg::BaseIndex { base, index, shift, shift_span }) => {
                        return Some(e_mem_bi(source, 2, 1, 2, d, base, index, shift, shift_span));
                    },
                    _ => {},
                }
            }
            None
        },
        Mnemonic::LdS16 => {
            if n == 2 {
                match (ops[0].0, ops[1].0) {
                    (Arg::GPR(d), Arg::BaseOffset { base, offset, offset_span, writeback }) => {
                        return Some(e_mem_bo(source, 2, 2, Some(1u8), d, base, offset, offset_span, writeback));
                    },
                    (Arg::GPR(d), Arg::BaseIndex { base, index, shift, shift_span }) => {
                        return Some(e_mem_bi(source, 2, 2, 1, d, base, index, shift, shift_span));
                    },
                    _ => {},
                }
            }
            None
        },
        Mnemonic::LdS8 => {
            if n == 2 {
                match (ops[0].0, ops[1].0) {
                    (Arg::GPR(d), Arg::BaseOffset { base, offset, offset_span, writeback }) => {
                        return Some(e_mem_bo(source, 2, 3, None, d, base, offset, offset_span, writeback));
                    },
                    (Arg::GPR(d), Arg::BaseIndex { base, index, shift: 0, shift_span: _ }) => {
                        return Some(e_mem_bi0(source, 2, 3, d, base, index));
                    },
                    _ => {},
                }
            }
            None
        },
        _ => None,
    }
}

fn encode_branch(m: Mnemonic, ops: &Vec<(Arg, Span)>, source: &Source) -> (r: Option<Result<u32, Fail>>)
    requires
        m == Mnemonic::Br || m == Mnemonic::BrTrue || m == Mnemonic::BrFalse || m == Mnemonic::Jmp || m == Mnemonic::Halt,
        args_ok(ops@),
    ensures
        agrees_opt(r, format_res(m, ops@, source@)),
{
    let n = ops.len();
    proof {
        if n >= 1 { assert(arg_ok(ops@[0].0)); }
        if n >= 2 { assert(arg_ok(ops@[1].0)); }
        if n >= 3 { assert(arg_ok(ops@[2].0)); }
        if n >= 4 { assert(arg_ok(ops@[3].0)); }
    }
    match m {
        Mnemonic::Br => {
            if n == 1 {
                match (ops[0].0) {
                    (Arg::Imd(v)) => {
                        return Some(e_br(source, v, ops[0].1));
                    },
                    _ => {},
                }
            }
            if n == 2 {
                match (ops[0].0, ops[1].0) {
                    (Arg::GPR(l), Arg::Imd(v)) => {
                        return Some(e_brl(source, l, v, ops[1].1));
                    },
                    _ => {},
                }
            }
            None
        },
        Mnemonic::BrTrue => {
            if n == 2 {
                match (ops[0].0, ops[1].0) {
                    (Arg::C0(c) | Arg::GPR(c), Arg::Imd(v)) => {
                        return Some(e_brc(source, 1, c, ops[0].1, v, ops[1].1));
                    },
                    _ => {},
                }
            }
            None
        },
        Mnemonic::BrFalse => {
            if n == 2 {
                match (ops[0].0, ops[1].0) {
                    (Arg::C0(c) | Arg::GPR(c), Arg::Imd(v)) => {
                        return Some(e_brc(source, 0, c, ops[0].1, v, ops[1].1));
                    },
                    _ => {},
                }
            }
            None
        },
        Mnemonic::Jmp => {
            if n == 1 {
                match (ops[0].0) {
                    (Arg::BaseIndex { base, index, shift, shift_span }) => {
                        return Some(e_jmpi(source, Reg::R0, base, index, shift, shift_span));
                    },
                    (Arg::BaseOffset { base, offset, offset_span, writeback: false }) => {
                        return Some(e_jmpo(source, Reg::R0, base, offset, offset_span));
                    },
                    _ => {},
                }
            }
            if n == 2 {
                match (ops[0].0, ops[1].0) {
                    (Arg::GPR(l), Arg::BaseIndex { base, index, shift, shift_span }) => {
                        return Some(e_jmpi(source, l, base, index, shift, shift_span));
                    },
                    (Arg::GPR(l), Arg::BaseOffset { base, offset, offset_span, writeback: false }) => {
                        return Some(e_jmpo(source, l, base, offset, offset_span));
                    },
                    _ => {},
                }
            }
            None
        },
        Mnemonic::Halt => {
            if n == 0 {
                return Some(e_halt(source));
            }
            None
        },
        _ => None,
    }
}

/// The word for instruction `m` with operands `ops`, or its error; `None`
/// where the operands fit no form of the instruction.
pub fn encode_mnemonic(m: Mnemonic, ops: &Vec<(Arg, Span)>, source: &Source) -> (r: Option<Result<u32, Fail>>)
    requires
        args_ok(ops@),
    ensures
        agrees_opt(r, format_res(m, ops@, source@)),
{
    match m {
        Mnemonic::Add | Mnemonic::AddCarry | Mnemonic::Sub | Mnemonic::SubBorrow | Mnemonic::Mult | Mnemonic::MultFull | Mnemonic::Madd | Mnemonic::Msub | Mnemonic::Div | Mnemonic::Rem | Mnemonic::DivFull | Mnemonic::Udiv | Mnemonic::Urem | Mnemonic::UdivFull | Mnemonic::Cinc | Mnemonic::Abs | Mnemonic::Neg | Mnemonic::Cneg | Mnemonic::Se8 | Mnemonic::Se16 | Mnemonic::Se32 | Mnemonic::Min | Mnemonic::Max | Mnemonic::Umin | Mnemonic::Umax => encode_arith(m, ops, source),
        Mnemonic::CompEq | Mnemonic::CompEqAnd | Mnemonic::CompEqOr | Mnemonic::CompNe | Mnemonic::CompNeAnd | Mnemonic::CompNeOr | Mnemonic::CompGt | Mnemonic::CompGtAnd | Mnemonic::CompGtOr | Mnemonic::CompLe | Mnemonic::CompLeAnd | Mnemonic::CompLeOr | Mnemonic::UcompGt | Mnemonic::UcompGtAnd | Mnemonic::UcompGtOr | Mnemonic::UcompLe | Mnemonic::UcompLeAnd | Mnemonic::UcompLeOr => encode_comp(m, ops, source),
        Mnemonic::Not | Mnemonic::Cnot | Mnemonic::And | Mnemonic::Or | Mnemonic::Xor | Mnemonic::Imply | Mnemonic::Nand | Mnemonic::Nor | Mnemonic::Xnor | Mnemonic::Bcr => encode_logic(m, ops, source),
        Mnemonic::TestNone | Mnemonic::TestNoneAnd | Mnemonic::TestNoneOr | Mnemonic::TestAny | Mnemonic::TestAnyAnd | Mnemonic::TestAnyOr | Mnemonic::TestAll | Mnemonic::TestAllAnd | Mnemonic::TestAllOr => encode_test(m, ops, source),
        Mnemonic::Shl | Mnemonic::Shr | Mnemonic::Sar | Mnemonic::Rol | Mnemonic::Fush | Mnemonic::Bfext | Mnemonic::Bfins | Mnemonic::Cnt | Mnemonic::Cntz | Mnemonic::Clz | Mnemonic::Clo | Mnemonic::Ctz | Mnemonic::Cto | Mnemonic::Cls | Mnemonic::Rev | Mnemonic::Rev32 | Mnemonic::Rev16 | Mnemonic::Rev8 => encode_bits(m, ops, source),
        Mnemonic::Mov | Mnemonic::MovKeep | Mnemonic::Sel => encode_mov(m, ops, source),
        Mnemonic::Ld | Mnemonic::Ld32 | Mnemonic::Ld16 | Mnemonic::Ld8 | Mnemonic::St | Mnemonic::St32 | Mnemonic::St16 | Mnemonic::St8 | Mnemonic::LdS32 | Mnemonic::LdS16 | Mnemonic::LdS8 => encode_mem(m, ops, source),
        Mnemonic::Br | Mnemonic::BrTrue | Mnemonic::BrFalse | Mnemonic::Jmp | Mnemonic::Halt => encode_branch(m, ops, source),
    }
}

// ---------------------------------------------------------------------------
// Operands and instructions
// ---------------------------------------------------------------------------

/// The offset of `label` from the instruction at `inst_index`.
pub open spec fn resolve_label_spec(label: IdentV, inst_index: u64, entries: Seq<(Seq<char>, u64)>, source: SrcV) -> Res<int> {
    match label_lookup(entries, label.name) {
        Some(ix) => Res::Done(ix - inst_index),
        None => mk_err("undefined label \""@ + label.name + "\""@, label.span, source),
    }
}

/// The operand `op` as the encoder takes it.
pub open spec fn arg_of(op: OperandV, inst_index: u64, entries: Seq<(Seq<char>, u64)>, source: SrcV) -> Res<Arg> {
    match op.kind {
        OpKindV::GPR(r) => Res::Done(Arg::GPR(r)),
        OpKindV::PC(r) => Res::Done(Arg::PC(r)),
        OpKindV::C0(r) => Res::Done(Arg::C0(r)),
        OpKindV::ShReg(r, sh) => Res::Done(Arg::ShReg(r, sh)),
        OpKindV::UImd(n) => Res::Done(Arg::Imd(n as i128)),
        OpKindV::SImd(SImdV::I64(n)) => Res::Done(Arg::Imd(n as i128)),
        OpKindV::SImd(SImdV::Label(l)) => match resolve_label_spec(l, inst_index, entries, source) {
            Res::Done(v) => Res::Done(Arg::Imd(v as i128)),
            Res::Error(m, s) => Res::Error(m, s),
            Res::Halt => Res::Halt,
        },
        OpKindV::LogicImd { level, ones, rot } => Res::Done(Arg::LogicImd { level, ones, rot }),
        OpKindV::Offset(SImdV::I64(n)) => Res::Done(Arg::Offset(n as i128, op.span)),
        OpKindV::Offset(SImdV::Label(l)) => match resolve_label_spec(l, inst_index, entries, source) {
            Res::Done(v) => Res::Done(Arg::Offset(v as i128, l.span)),
            Res::Error(m, s) => Res::Error(m, s),
            Res::Halt => Res::Halt,
        },
        OpKindV::BaseOffset { base, offset, offset_span, writeback } => Res::Done(
            Arg::BaseOffset { base, offset: offset as i128, offset_span, writeback },
        ),
        OpKindV::BaseIndex { base, index, shift, shift_span } => Res::Done(
            Arg::BaseIndex { base, index, shift, shift_span },
        ),
    }
}

/// The first `n` operands as the encoder takes them, with their spans, or
/// the error of the first that fails.
pub open spec fn prepare_spec(ops: Seq<OperandV>, n: nat, inst_index: u64, entries: Seq<(Seq<char>, u64)>, source: SrcV) -> Res<Seq<(Arg, Span)>>
    decreases n,
{
    if n == 0 {
        Res::Done(Seq::empty())
    } else {
        match prepare_spec(ops, (n - 1) as nat, inst_index, entries, source) {
            Res::Done(a) => match arg_of(ops[n - 1], inst_index, entries, source) {
                Res::Done(x) => Res::Done(a.push((x, ops[n - 1].span))),
                Res::Error(m, s) => Res::Error(m, s),
                Res::Halt => Res::Halt,
            },
            Res::Error(m, s) => Res::Error(m, s),
            Res::Halt => Res::Halt,
        }
    }
}

fn resolve_label(label: &Ident, inst_index: u64, label_indexes: &LabelIndexes, source: &Source) -> (r: Result<i128, Fail>)
    ensures
        match resolve_label_spec(label@, inst_index, label_indexes@, source@) {
            Res::Done(v) => r == Ok::<i128, Fail>(v as i128) && -0x1_0000_0000_0000_0000 < v < 0x1_0000_0000_0000_0000,
            other => r matches Err(e) && same_fail(e, other),
        },
{
    match label_indexes.get(label.name.as_str()) {
        Some(index) => Ok(index as i128 - inst_index as i128),
        None => {
            let mut m = String::new();
            m.append("undefined label \"");
            m.append(label.name.as_str());
            m.append("\"");
            proof {
                assert(m@ =~= "undefined label \""@ + label.name@ + "\""@);
            }
            Err(fail(m, label.span, source))
        },
    }
}

proof fn lemma_prepare_fail(ops: Seq<OperandV>, i: nat, n: nat, inst_index: u64, entries: Seq<(Seq<char>, u64)>, source: SrcV)
    requires
        i <= n,
        !(prepare_spec(ops, i, inst_index, entries, source) is Done),
    ensures
        prepare_spec(ops, n, inst_index, entries, source) == prepare_spec(ops, i, inst_index, entries, source),
    decreases n - i,
{
    if i < n {
        lemma_prepare_fail(ops, i, (n - 1) as nat, inst_index, entries, source);
    }
}

/// The operands of an instruction as the encoder takes them.
pub fn prepare_operands(operands: &Vec<Operand>, inst_index: u64, label_indexes: &LabelIndexes, source: &Source) -> (r: Result<Vec<(Arg, Span)>, Fail>)
    ensures
        match prepare_spec(ops_view(operands@), operands@.len(), inst_index, label_indexes@, source@) {
            Res::Done(a) => r matches Ok(v) && v@ == a && args_ok(v@),
            other => r matches Err(e) && same_fail(e, other),
        },
{
    let mut res: Vec<(Arg, Span)> = Vec::new();
    let mut i: usize = 0;
    while i < operands.len()
        invariant
            i <= operands@.len(),
            prepare_spec(ops_view(operands@), i as nat, inst_index, label_indexes@, source@) == Res::Done(res@),
            args_ok(res@),
        decreases operands@.len() - i,
    {
        let op = &operands[i];
        proof {
            assert(ops_view(operands@)[i as int] == op@);
        }
        let kind = match &op.kind {
            OperandKind::GPR(r) => Arg::GPR(*r),
            OperandKind::PC(r) => Arg::PC(*r),
            OperandKind::C0(r) => Arg::C0(*r),
            OperandKind::ShReg(r, sh) => Arg::ShReg(*r, *sh),
            OperandKind::UImd(n) => Arg::Imd(*n as i128),
            OperandKind::SImd(SImd::I64(n)) => Arg::Imd(*n as i128),
            OperandKind::SImd(SImd::Label(l)) => match resolve_label(l, inst_index, label_indexes, source) {
                Ok(v) => Arg::Imd(v),
                Err(e) => {
                    proof {
                        lemma_prepare_fail(ops_view(operands@), (i + 1) as nat, operands@.len(), inst_index, label_indexes@, source@);
                    }
                    return Err(e);
                },
            },
            OperandKind::LogicImd { level, ones, rot } => Arg::LogicImd { level: *level, ones: *ones, rot: *rot },
            OperandKind::Offset(SImd::I64(n)) => Arg::Offset(*n as i128, op.span),
            OperandKind::Offset(SImd::Label(l)) => match resolve_label(l, inst_index, label_indexes, source) {
                Ok(v) => Arg::Offset(v, l.span),
                Err(e) => {
                    proof {
                        lemma_prepare_fail(ops_view(operands@), (i + 1) as nat, operands@.len(), inst_index, label_indexes@, source@);
                    }
                    return Err(e);
                },
            },
            OperandKind::BaseOffset { base, offset, offset_span, writeback } => Arg::BaseOffset {
                base: *base,
                offset: *offset as i128,
                offset_span: *offset_span,
                writeback: *writeback,
            },
            OperandKind::BaseIndex { base, index, shift, shift_span } => Arg::BaseIndex {
                base: *base,
                index: *index,
                shift: *shift,
                shift_span: *shift_span,
            },
        };
        let ghost before = res@;
        res.push((kind, op.span));
        proof {
            assert(args_ok(res@)) by {
                assert forall|j: int| 0 <= j < res@.len() implies #[trigger] arg_ok(res@[j].0) by {
                    if j < before.len() {
                        assert(res@[j] == before[j]);
                    }
                }
            }
        }
        i = i + 1;
    }
    Ok(res)
}

/// The word for `inst` at byte offset `inst_index`, or its error.
#[verifier::opaque]
pub open spec fn spec_encode_inst(inst: InstV, inst_index: u64, entries: Seq<(Seq<char>, u64)>, source: SrcV) -> Res<int> {
    match prepare_spec(inst.operands, inst.operands.len(), inst_index, entries, source) {
        Res::Done(ops) => match mnemonic_of(inst.mnemonic.name) {
            None => mk_err(
                "undefined instruction \""@ + inst.mnemonic.name + "\""@,
                inst.mnemonic.span,
                source,
            ),
            Some(m) => match format_res(m, ops, source) {
                Some(r) => r,
                None => mk_err(
                    "invalid operands for \""@ + inst.mnemonic.name + "\""@,
                    inst.span,
                    source,
                ),
            },
        },
        Res::Error(m, s) => Res::Error(m, s),
        Res::Halt => Res::Halt,
    }
}

fn undefined_instruction(mnemonic: &Ident, source: &Source) -> (f: Fail)
    ensures
        same_fail(f, mk_err::<int>("undefined instruction \""@ + mnemonic.name@ + "\""@, mnemonic.span, source@)),
{
    let mut m = String::new();
    m.append("undefined instruction \"");
    m.append(mnemonic.name.as_str());
    m.append("\"");
    proof {
        assert(m@ =~= "undefined instruction \""@ + mnemonic.name@ + "\""@);
    }
    fail(m, mnemonic.span, source)
}

fn invalid_operands(mnemonic: &Ident, span: Span, source: &Source) -> (f: Fail)
    ensures
        same_fail(f, mk_err::<int>("invalid operands for \""@ + mnemonic.name@ + "\""@, span, source@)),
{
    let mut m = String::new();
    m.append("invalid operands for \"");
    m.append(mnemonic.name.as_str());
    m.append("\"");
    proof {
        assert(m@ =~= "invalid operands for \""@ + mnemonic.name@ + "\""@);
    }
    fail(m, span, source)
}

/// The word for `inst` at byte offset `inst_index` of the binary, the
/// labels resolved by `label_indexes`; or its error.
pub fn encode_inst(inst: &Inst, inst_index: u64, label_indexes: &LabelIndexes, source: &Source) -> (r: Result<u32, Fail>)
    ensures
        agrees(r, spec_encode_inst(inst@, inst_index, label_indexes@, source@)),
{
    reveal(spec_encode_inst);
    let operands = prepare_operands(&inst.operands, inst_index, label_indexes, source)?;
    match lookup_mnemonic(inst.mnemonic.name.as_str()) {
        None => Err(undefined_instruction(&inst.mnemonic, source)),
        Some(m) => match encode_mnemonic(m, &operands, source) {
            Some(r) => r,
            None => Err(invalid_operands(&inst.mnemonic, inst.span, source)),
        },
    }
}


/// Three operands with their spans.
pub open spec fn ops3(x: Arg, y: Arg, z: Arg, sp: (Span, Span, Span, Span)) -> Seq<(Arg, Span)> {
    seq![(x, sp.0), (y, sp.1), (z, sp.2)]
}

/// Four operands with their spans.
pub open spec fn ops4(x: Arg, y: Arg, z: Arg, w: Arg, sp: (Span, Span, Span, Span)) -> Seq<(Arg, Span)> {
    seq![(x, sp.0), (y, sp.1), (z, sp.2), (w, sp.3)]
}

#[verifier::spinoff_prover]
#[verifier::rlimit(40)]
proof fn lemma_alias_0(d: Reg, a: Reg, b: Reg, sh: Shift, sp: (Span, Span, Span, Span), sq: (Span, Span, Span, Span), source: SrcV)
    ensures
        format_res(Mnemonic::Mult, ops3(Arg::GPR(d), Arg::GPR(a), Arg::GPR(b), sp), source)
            == format_res(Mnemonic::MultFull, ops4(Arg::GPR(d), Arg::GPR(Reg::R0), Arg::GPR(a), Arg::GPR(b), sq), source),
        format_res(Mnemonic::Mult, ops3(Arg::GPR(d), Arg::GPR(a), Arg::GPR(b), sp), source) is Some,
{
}

#[verifier::spinoff_prover]
#[verifier::rlimit(40)]
proof fn lemma_alias_1(d: Reg, a: Reg, b: Reg, sh: Shift, sp: (Span, Span, Span, Span), sq: (Span, Span, Span, Span), source: SrcV)
    ensures
        format_res(Mnemonic::Div, ops3(Arg::GPR(d), Arg::GPR(a), Arg::GPR(b), sp), source)
            == format_res(Mnemonic::DivFull, ops4(Arg::GPR(d), Arg::GPR(Reg::R0), Arg::GPR(a), Arg::GPR(b), sq), source),
        format_res(Mnemonic::Div, ops3(Arg::GPR(d), Arg::GPR(a), Arg::GPR(b), sp), source) is Some,
{
}

#[verifier::spinoff_prover]
#[verifier::rlimit(40)]
proof fn lemma_alias_2(d: Reg, a: Reg, b: Reg, sh: Shift, sp: (Span, Span, Span, Span), sq: (Span, Span, Span, Span), source: SrcV)
    ensures
        format_res(Mnemonic::Udiv, ops3(Arg::GPR(d), Arg::GPR(a), Arg::GPR(b), sp), source)
            == format_res(Mnemonic::UdivFull, ops4(Arg::GPR(d), Arg::GPR(Reg::R0), Arg::GPR(a), Arg::GPR(b), sq), source),
        format_res(Mnemonic::Udiv, ops3(Arg::GPR(d), Arg::GPR(a), Arg::GPR(b), sp), source) is Some,
{
}

#[verifier::spinoff_prover]
#[verifier::rlimit(40)]
proof fn lemma_alias_3(d: Reg, a: Reg, b: Reg, sh: Shift, sp: (Span, Span, Span, Span), sq: (Span, Span, Span, Span), source: SrcV)
    ensures
        format_res(Mnemonic::Rem, ops3(Arg::GPR(d), Arg::GPR(a), Arg::GPR(b), sp), source)
            == format_res(Mnemonic::DivFull, ops4(Arg::GPR(Reg::R0), Arg::GPR(d), Arg::GPR(a), Arg::GPR(b), sq), source),
        format_res(Mnemonic::Rem, ops3(Arg::GPR(d), Arg::GPR(a), Arg::GPR(b), sp), source) is Some,
{
}

#[verifier::spinoff_prover]
#[verifier::rlimit(40)]
proof fn lemma_alias_4(d: Reg, a: Reg, b: Reg, sh: Shift, sp: (Span, Span, Span, Span), sq: (Span, Span, Span, Span), source: SrcV)
    ensures
        format_res(Mnemonic::Urem, ops3(Arg::GPR(d), Arg::GPR(a), Arg::GPR(b), sp), source)
            == format_res(Mnemonic::UdivFull, ops4(Arg::GPR(Reg::R0), Arg::GPR(d), Arg::GPR(a), Arg::GPR(b), sq), source),
        format_res(Mnemonic::Urem, ops3(Arg::GPR(d), Arg::GPR(a), Arg::GPR(b), sp), source) is Some,
{
}

#[verifier::spinoff_prover]
#[verifier::rlimit(40)]
proof fn lemma_alias_5(d: Reg, a: Reg, b: Reg, sh: Shift, sp: (Span, Span, Span, Span), sq: (Span, Span, Span, Span), source: SrcV)
    ensures
        format_res(Mnemonic::Neg, seq![(Arg::GPR(d), sp.0), (Arg::GPR(a), sp.1)], source)
            == format_res(Mnemonic::Sub, ops3(Arg::GPR(d), Arg::GPR(Reg::R0), Arg::GPR(a), sq), source),
        format_res(Mnemonic::Neg, seq![(Arg::GPR(d), sp.0), (Arg::GPR(a), sp.1)], source) is Some,
{
}

#[verifier::spinoff_prover]
#[verifier::rlimit(40)]
proof fn lemma_alias_6(d: Reg, a: Reg, b: Reg, sh: Shift, sp: (Span, Span, Span, Span), sq: (Span, Span, Span, Span), source: SrcV)
    ensures
        format_res(Mnemonic::Neg, seq![(Arg::GPR(d), sp.0), (Arg::ShReg(a, sh), sp.1)], source)
            == format_res(Mnemonic::Sub, ops3(Arg::GPR(d), Arg::GPR(Reg::R0), Arg::ShReg(a, sh), sq), source),
        format_res(Mnemonic::Neg, seq![(Arg::GPR(d), sp.0), (Arg::ShReg(a, sh), sp.1)], source) is Some,
{
}

#[verifier::spinoff_prover]
#[verifier::rlimit(40)]
proof fn lemma_alias_7(d: Reg, a: Reg, b: Reg, sh: Shift, sp: (Span, Span, Span, Span), sq: (Span, Span, Span, Span), source: SrcV)
    ensures
        format_res(Mnemonic::Not, seq![(Arg::GPR(d), sp.0), (Arg::GPR(a), sp.1)], source)
            == format_res(Mnemonic::Xnor, ops3(Arg::GPR(d), Arg::GPR(Reg::R0), Arg::GPR(a), sq), source),
        format_res(Mnemonic::Not, seq![(Arg::GPR(d), sp.0), (Arg::GPR(a), sp.1)], source) is Some,
{
}

#[verifier::spinoff_prover]
#[verifier::rlimit(40)]
proof fn lemma_alias_8(d: Reg, a: Reg, b: Reg, sh: Shift, sp: (Span, Span, Span, Span), sq: (Span, Span, Span, Span), source: SrcV)
    ensures
        format_res(Mnemonic::Not, seq![(Arg::GPR(d), sp.0), (Arg::ShReg(a, sh), sp.1)], source)
            == format_res(Mnemonic::Xnor, ops3(Arg::GPR(d), Arg::GPR(Reg::R0), Arg::ShReg(a, sh), sq), source),
        format_res(Mnemonic::Not, seq![(Arg::GPR(d), sp.0), (Arg::ShReg(a, sh), sp.1)], source) is Some,
{
}

#[verifier::spinoff_prover]
#[verifier::rlimit(40)]
proof fn lemma_alias_9(d: Reg, a: Reg, b: Reg, sh: Shift, sp: (Span, Span, Span, Span), sq: (Span, Span, Span, Span), source: SrcV)
    ensures
        format_res(Mnemonic::Mov, seq![(Arg::GPR(d), sp.0), (Arg::GPR(a), sp.1)], source)
            == format_res(Mnemonic::Or, ops3(Arg::GPR(d), Arg::GPR(a), Arg::GPR(Reg::R0), sq), source),
        format_res(Mnemonic::Mov, seq![(Arg::GPR(d), sp.0), (Arg::GPR(a), sp.1)], source) is Some,
{
}

#[verifier::spinoff_prover]
#[verifier::rlimit(40)]
proof fn lemma_alias_10(d: Reg, a: Reg, b: Reg, sh: Shift, sp: (Span, Span, Span, Span), sq: (Span, Span, Span, Span), source: SrcV)
    ensures
        format_res(Mnemonic::Shl, ops3(Arg::GPR(d), Arg::GPR(a), Arg::GPR(b), sp), source)
            == format_res(Mnemonic::Fush, ops4(Arg::GPR(d), Arg::GPR(a), Arg::GPR(Reg::R0), Arg::GPR(b), sq), source),
        format_res(Mnemonic::Shl, ops3(Arg::GPR(d), Arg::GPR(a), Arg::GPR(b), sp), source) is Some,
{
}

#[verifier::spinoff_prover]
#[verifier::rlimit(40)]
proof fn lemma_alias_11(d: Reg, a: Reg, b: Reg, sh: Shift, sp: (Span, Span, Span, Span), sq: (Span, Span, Span, Span), source: SrcV)
    ensures
        format_res(Mnemonic::Rol, ops3(Arg::GPR(d), Arg::GPR(a), Arg::GPR(b), sp), source)
            == format_res(Mnemonic::Fush, ops4(Arg::GPR(d), Arg::GPR(a), Arg::GPR(a), Arg::GPR(b), sq), source),
        format_res(Mnemonic::Rol, ops3(Arg::GPR(d), Arg::GPR(a), Arg::GPR(b), sp), source) is Some,
{
}

/// The instructions that are special forms of others give the same word as
/// those, whatever the spans of the operands on either side: `mult d, a, b`
/// as `mult.full d, r0, a, b`; `div`, `udiv` alike with `div.full`,
/// `udiv.full`; `rem d, a, b` as `div.full r0, d, a, b` and `urem` alike
/// with `udiv.full`; `neg d, a` as `sub d, r0, a` and `not d, a` as
/// `xnor d, r0, a`, with a shifted register too; `mov d, a` as
/// `or d, a, r0`; `shl d, a, b` as `fush d, a, r0, b`; `rol d, a, b` as
/// `fush d, a, a, b`.
pub proof fn law_aliases(d: Reg, a: Reg, b: Reg, sh: Shift, sp: (Span, Span, Span, Span), sq: (Span, Span, Span, Span), source: SrcV)
    ensures
        format_res(Mnemonic::Mult, ops3(Arg::GPR(d), Arg::GPR(a), Arg::GPR(b), sp), source)
            == format_res(Mnemonic::MultFull, ops4(Arg::GPR(d), Arg::GPR(Reg::R0), Arg::GPR(a), Arg::GPR(b), sq), source),
        format_res(Mnemonic::Div, ops3(Arg::GPR(d), Arg::GPR(a), Arg::GPR(b), sp), source)
            == format_res(Mnemonic::DivFull, ops4(Arg::GPR(d), Arg::GPR(Reg::R0), Arg::GPR(a), Arg::GPR(b), sq), source),
        format_res(Mnemonic::Udiv, ops3(Arg::GPR(d), Arg::GPR(a), Arg::GPR(b), sp), source)
            == format_res(Mnemonic::UdivFull, ops4(Arg::GPR(d), Arg::GPR(Reg::R0), Arg::GPR(a), Arg::GPR(b), sq), source),
        format_res(Mnemonic::Rem, ops3(Arg::GPR(d), Arg::GPR(a), Arg::GPR(b), sp), source)
            == format_res(Mnemonic::DivFull, ops4(Arg::GPR(Reg::R0), Arg::GPR(d), Arg::GPR(a), Arg::GPR(b), sq), source),
        format_res(Mnemonic::Urem, ops3(Arg::GPR(d), Arg::GPR(a), Arg::GPR(b), sp), source)
            == format_res(Mnemonic::UdivFull, ops4(Arg::GPR(Reg::R0), Arg::GPR(d), Arg::GPR(a), Arg::GPR(b), sq), source),
        format_res(Mnemonic::Neg, seq![(Arg::GPR(d), sp.0), (Arg::GPR(a), sp.1)], source)
            == format_res(Mnemonic::Sub, ops3(Arg::GPR(d), Arg::GPR(Reg::R0), Arg::GPR(a), sq), source),
        format_res(Mnemonic::Neg, seq![(Arg::GPR(d), sp.0), (Arg::ShReg(a, sh), sp.1)], source)
            == format_res(Mnemonic::Sub, ops3(Arg::GPR(d), Arg::GPR(Reg::R0), Arg::ShReg(a, sh), sq), source),
        format_res(Mnemonic::Not, seq![(Arg::GPR(d), sp.0), (Arg::GPR(a), sp.1)], source)
            == format_res(Mnemonic::Xnor, ops3(Arg::GPR(d), Arg::GPR(Reg::R0), Arg::GPR(a), sq), source),
        format_res(Mnemonic::Not, seq![(Arg::GPR(d), sp.0), (Arg::ShReg(a, sh), sp.1)], source)
            == format_res(Mnemonic::Xnor, ops3(Arg::GPR(d), Arg::GPR(Reg::R0), Arg::ShReg(a, sh), sq), source),
        format_res(Mnemonic::Mov, seq![(Arg::GPR(d), sp.0), (Arg::GPR(a), sp.1)], source)
            == format_res(Mnemonic::Or, ops3(Arg::GPR(d), Arg::GPR(a), Arg::GPR(Reg::R0), sq), source),
        format_res(Mnemonic::Shl, ops3(Arg::GPR(d), Arg::GPR(a), Arg::GPR(b), sp), source)
            == format_res(Mnemonic::Fush, ops4(Arg::GPR(d), Arg::GPR(a), Arg::GPR(Reg::R0), Arg::GPR(b), sq), source),
        format_res(Mnemonic::Rol, ops3(Arg::GPR(d), Arg::GPR(a), Arg::GPR(b), sp), source)
            == format_res(Mnemonic::Fush, ops4(Arg::GPR(d), Arg::GPR(a), Arg::GPR(a), Arg::GPR(b), sq), source),
{
    lemma_alias_0(d, a, b, sh, sp, sq, source);
    lemma_alias_1(d, a, b, sh, sp, sq, source);
    lemma_alias_2(d, a, b, sh, sp, sq, source);
    lemma_alias_3(d, a, b, sh, sp, sq, source);
    lemma_alias_4(d, a, b, sh, sp, sq, source);
    lemma_alias_5(d, a, b, sh, sp, sq, source);
    lemma_alias_6(d, a, b, sh, sp, sq, source);
    lemma_alias_7(d, a, b, sh, sp, sq, source);
    lemma_alias_8(d, a, b, sh, sp, sq, source);
    lemma_alias_9(d, a, b, sh, sp, sq, source);
    lemma_alias_10(d, a, b, sh, sp, sq, source);
    lemma_alias_11(d, a, b, sh, sp, sq, source);
}

/// The general form of the special form `m` with the registers `rs` as its
/// operands: the instruction and its registers.
pub open spec fn alias_of(m: Mnemonic, rs: Seq<Reg>) -> Option<(Mnemonic, Seq<Reg>)> {
    if rs.len() == 3 {
        match m {
            Mnemonic::Mult => Some((Mnemonic::MultFull, seq![rs[0], Reg::R0, rs[1], rs[2]])),
            Mnemonic::Div => Some((Mnemonic::DivFull, seq![rs[0], Reg::R0, rs[1], rs[2]])),
            Mnemonic::Udiv => Some((Mnemonic::UdivFull, seq![rs[0], Reg::R0, rs[1], rs[2]])),
            Mnemonic::Rem => Some((Mnemonic::DivFull, seq![Reg::R0, rs[0], rs[1], rs[2]])),
            Mnemonic::Urem => Some((Mnemonic::UdivFull, seq![Reg::R0, rs[0], rs[1], rs[2]])),
            Mnemonic::Shl => Some((Mnemonic::Fush, seq![rs[0], rs[1], Reg::R0, rs[2]])),
            Mnemonic::Rol => Some((Mnemonic::Fush, seq![rs[0], rs[1], rs[1], rs[2]])),
            _ => None,
        }
    } else if rs.len() == 2 {
        match m {
            Mnemonic::Neg => Some((Mnemonic::Sub, seq![rs[0], Reg::R0, rs[1]])),
            Mnemonic::Not => Some((Mnemonic::Xnor, seq![rs[0], Reg::R0, rs[1]])),
            Mnemonic::Mov => Some((Mnemonic::Or, seq![rs[0], rs[1], Reg::R0])),
            _ => None,
        }
    } else {
        None
    }
}

/// The operands `ops` are the general purpose registers `rs`.
pub open spec fn reg_operands(ops: Seq<OperandV>, rs: Seq<Reg>) -> bool {
    &&& ops.len() == rs.len()
    &&& forall|k: int| 0 <= k < rs.len() ==> #[trigger] ops[k].kind == OpKindV::GPR(rs[k])
}

/// The spans of the first four operands.
pub open spec fn spans4(ops: Seq<OperandV>) -> (Span, Span, Span, Span) {
    (ops[0].span, ops[1].span, ops[2].span, ops[3].span)
}

proof fn lemma_prepare_regs(
    ops: Seq<OperandV>,
    rs: Seq<Reg>,
    n: nat,
    inst_index: u64,
    entries: Seq<(Seq<char>, u64)>,
    source: SrcV,
)
    requires
        reg_operands(ops, rs),
        n <= rs.len(),
    ensures
        prepare_spec(ops, n, inst_index, entries, source) == Res::Done(
            Seq::new(n, |k: int| (Arg::GPR(rs[k]), ops[k].span)),
        ),
    decreases n,
{
    if n > 0 {
        lemma_prepare_regs(ops, rs, (n - 1) as nat, inst_index, entries, source);
        assert(ops[n - 1].kind == OpKindV::GPR(rs[n - 1]));
        assert(Seq::new((n - 1) as nat, |k: int| (Arg::GPR(rs[k]), ops[k].span)).push(
            (Arg::GPR(rs[n - 1]), ops[n - 1].span),
        ) =~= Seq::new(n, |k: int| (Arg::GPR(rs[k]), ops[k].span)));
        assert(arg_of(ops[n - 1], inst_index, entries, source) == Res::Done(Arg::GPR(rs[n - 1])));
    } else {
        assert(Seq::new(0, |k: int| (Arg::GPR(rs[k]), ops[k].span)) =~= Seq::<(Arg, Span)>::empty());
    }
}

/// Each special form gives, as a whole instruction, the word of its general
/// form (`alias_of`): an instruction whose name reads as `m`, with the
/// registers `rs` as operands, encodes as one whose name reads as the
/// general form, with its registers, at any offset and with any labels.
#[verifier::spinoff_prover]
#[verifier::rlimit(100)]
pub proof fn law_alias_insts(
    i1: InstV,
    i2: InstV,
    m: Mnemonic,
    rs: Seq<Reg>,
    inst_index: u64,
    entries: Seq<(Seq<char>, u64)>,
    source: SrcV,
)
    requires
        mnemonic_of(i1.mnemonic.name) == Some(m),
        reg_operands(i1.operands, rs),
        alias_of(m, rs) matches Some((m2, rs2)) && mnemonic_of(i2.mnemonic.name) == Some(m2)
            && reg_operands(i2.operands, rs2),
    ensures
        spec_encode_inst(i1, inst_index, entries, source) == spec_encode_inst(i2, inst_index, entries, source),
{
    let (m2, rs2) = alias_of(m, rs)->Some_0;
    lemma_prepare_regs(i1.operands, rs, rs.len(), inst_index, entries, source);
    lemma_prepare_regs(i2.operands, rs2, rs2.len(), inst_index, entries, source);
    let o1 = Seq::new(rs.len(), |k: int| (Arg::GPR(rs[k]), i1.operands[k].span));
    let o2 = Seq::new(rs2.len(), |k: int| (Arg::GPR(rs2[k]), i2.operands[k].span));
    let sp = spans4(i1.operands);
    let sq = spans4(i2.operands);
    let sh = Shift::SHL(0);
    if rs.len() == 3 {
        let (d, a, b) = (rs[0], rs[1], rs[2]);
        assert(o1 =~= ops3(Arg::GPR(d), Arg::GPR(a), Arg::GPR(b), sp));
        assert(o2 =~= ops4(Arg::GPR(rs2[0]), Arg::GPR(rs2[1]), Arg::GPR(rs2[2]), Arg::GPR(rs2[3]), sq));
        match m {
            Mnemonic::Mult => lemma_alias_0(d, a, b, sh, sp, sq, source),
            Mnemonic::Div => lemma_alias_1(d, a, b, sh, sp, sq, source),
            Mnemonic::Udiv => lemma_alias_2(d, a, b, sh, sp, sq, source),
            Mnemonic::Rem => lemma_alias_3(d, a, b, sh, sp, sq, source),
            Mnemonic::Urem => lemma_alias_4(d, a, b, sh, sp, sq, source),
            Mnemonic::Shl => lemma_alias_10(d, a, b, sh, sp, sq, source),
            _ => lemma_alias_11(d, a, b, sh, sp, sq, source),
        }
    } else {
        let (d, a) = (rs[0], rs[1]);
        assert(o1 =~= seq![(Arg::GPR(d), sp.0), (Arg::GPR(a), sp.1)]);
        assert(o2 =~= ops3(Arg::GPR(rs2[0]), Arg::GPR(rs2[1]), Arg::GPR(rs2[2]), sq));
        match m {
            Mnemonic::Neg => lemma_alias_5(d, a, d, sh, sp, sq, source),
            Mnemonic::Not => lemma_alias_7(d, a, d, sh, sp, sq, source),
            _ => lemma_alias_9(d, a, d, sh, sp, sq, source),
        }
    }
    reveal(spec_encode_inst);
}

#[verifier::spinoff_prover]
proof fn lemma_shl_fields(d: Reg, a: Reg, n: u8, asp: Span, source: SrcV)
    requires
        n <= 63,
    ensures
        s_shimd(source, 0, d, a, n as i128, asp) == s_shop(source, 9, 1, Shift::SHL(n), d, Reg::R0, a),
{
    reveal(crate::encoder::uimd_res);
    vstd::arithmetic::power2::lemma2_to64();
    reveal_with_fuel(eval_upto, 9);
    let f1 = seq![
        SField::Raw(1, 4),
        SField::Raw(9, 4),
        SField::Raw(0, 2),
        SField::UImd(n as int, 6, asp),
        SField::Raw(1, 1),
        SField::Gpr(d),
        SField::Gpr(Reg::R0),
        SField::Gpr(a),
    ];
    let f2 = seq![
        SField::Raw(1, 4),
        SField::Raw(9, 4),
        SField::ShK(Shift::SHL(n)),
        SField::ShA(Shift::SHL(n)),
        SField::Raw(1, 1),
        SField::Gpr(d),
        SField::Gpr(Reg::R0),
        SField::Gpr(a),
    ];
    assert(crate::encoder::field_res(f1[3], source) == crate::encoder::field_res(f2[3], source));
    assert(eval_upto(f1, 8, source) == eval_upto(f2, 8, source));
}

/// A left shift by an immediate amount `n` (at most 63) gives the word of
/// `or d, r0, a shl n`, whatever the spans of its operands.
#[verifier::spinoff_prover]
#[verifier::rlimit(100)]
pub proof fn law_shl_immediate(d: Reg, a: Reg, n: u8, sp: (Span, Span, Span, Span), source: SrcV)
    requires
        n <= 63,
    ensures
        format_res(Mnemonic::Shl, ops3(Arg::GPR(d), Arg::GPR(a), Arg::Imd(n as i128), sp), source)
            == format_res(Mnemonic::Or, ops3(Arg::GPR(d), Arg::GPR(Reg::R0), Arg::ShReg(a, Shift::SHL(n)), sp), source),
{
    lemma_shl_fields(d, a, n, sp.2, source);
    assert(format_res(Mnemonic::Shl, ops3(Arg::GPR(d), Arg::GPR(a), Arg::Imd(n as i128), sp), source) == Some(
        s_shimd(source, 0, d, a, n as i128, sp.2),
    ));
}

/// The word of a data processing instruction on four registers with the
/// operation `op`: group 0001, class 0010, then `op` in bits 8 to 11 and the
/// registers in bits 12, 17, 22 and 27 up.
pub open spec fn word4(op: int, a: Reg, b: Reg, c: Reg, e: Reg) -> int {
    0x21 + op * 0x100 + crate::encoder::reg_code_spec(a) * 0x1000 + crate::encoder::reg_code_spec(b)
        * 0x2_0000 + crate::encoder::reg_code_spec(c) * 0x40_0000 + crate::encoder::reg_code_spec(e)
        * 0x800_0000
}

proof fn lemma_reg_code_bound(r: Reg)
    ensures
        0 <= crate::encoder::reg_code_spec(r) < 32,
{
}

#[verifier::spinoff_prover]
proof fn lemma_dpr4_word(source: SrcV, op: u8, a: Reg, b: Reg, c: Reg, e: Reg)
    requires
        op < 16,
    ensures
        s_dpr4(source, op, a, b, c, e) == Res::Done(word4(op as int, a, b, c, e)),
{
    reveal_with_fuel(eval_upto, 8);
    reveal_with_fuel(pack, 8);
    reveal_with_fuel(flen, 8);
    vstd::arithmetic::power2::lemma2_to64();
    lemma_reg_code_bound(a);
    lemma_reg_code_bound(b);
    lemma_reg_code_bound(c);
    lemma_reg_code_bound(e);
    let (ra, rb, rc, re) = (
        crate::encoder::reg_code_spec(a),
        crate::encoder::reg_code_spec(b),
        crate::encoder::reg_code_spec(c),
        crate::encoder::reg_code_spec(e),
    );
    let v7 = seq![(1int, 4nat), (2int, 4nat), (op as int, 4nat), (ra, 5nat), (rb, 5nat), (rc, 5nat), (re, 5nat)];
    let v6 = seq![(1int, 4nat), (2int, 4nat), (op as int, 4nat), (ra, 5nat), (rb, 5nat), (rc, 5nat)];
    let v5 = seq![(1int, 4nat), (2int, 4nat), (op as int, 4nat), (ra, 5nat), (rb, 5nat)];
    let v4 = seq![(1int, 4nat), (2int, 4nat), (op as int, 4nat), (ra, 5nat)];
    let v3 = seq![(1int, 4nat), (2int, 4nat), (op as int, 4nat)];
    let v2 = seq![(1int, 4nat), (2int, 4nat)];
    let v1 = seq![(1int, 4nat)];
    assert(v7.drop_last() =~= v6);
    assert(v6.drop_last() =~= v5);
    assert(v5.drop_last() =~= v4);
    assert(v4.drop_last() =~= v3);
    assert(v3.drop_last() =~= v2);
    assert(v2.drop_last() =~= v1);
    assert(v1.drop_last() =~= Seq::<(int, nat)>::empty());
    let fs = seq![
        SField::Raw(1, 4),
        SField::Raw(2, 4),
        SField::Raw(op as int, 4),
        SField::Gpr(a),
        SField::Gpr(b),
        SField::Gpr(c),
        SField::Gpr(e),
    ];
    assert(eval_upto(fs, 7, source) == Res::Done(v7)) by {
        assert(Seq::<(int, nat)>::empty().push((1int, 4nat)) =~= v1);
        assert(v1.push((2int, 4nat)) =~= v2);
        assert(v2.push((op as int, 4nat)) =~= v3);
        assert(v3.push((ra, 5nat)) =~= v4);
        assert(v4.push((rb, 5nat)) =~= v5);
        assert(v5.push((rc, 5nat)) =~= v6);
        assert(v6.push((re, 5nat)) =~= v7);
    }
    assert(ra % 32 == ra && rb % 32 == rb && rc % 32 == rc && re % 32 == re);
    assert((op as int) % 16 == op as int);
    assert(flen(v1) == 4 && flen(v2) == 8 && flen(v3) == 12 && flen(v4) == 17 && flen(v5) == 22 && flen(v6) == 27);
    assert(pack(v1) == 1);
    assert(pack(v2) == 0x21);
    assert(pack(v3) == 0x21 + op as int * 0x100);
    assert(pack(v4) == pack(v3) + ra * 0x1000);
    assert(pack(v5) == pack(v4) + rb * 0x2_0000);
    assert(pack(v6) == pack(v5) + rc * 0x40_0000);
    assert(pack(v7) == pack(v6) + re * 0x800_0000);
}

#[verifier::spinoff_prover]
#[verifier::rlimit(60)]
proof fn lemma_words4_a(a: Reg, b: Reg, c: Reg, e: Reg, sp: (Span, Span, Span, Span), source: SrcV)
    ensures
        format_res(Mnemonic::Add, ops4(Arg::GPR(a), Arg::GPR(b), Arg::GPR(c), Arg::GPR(e), sp), source)
            == Some(Res::Done(word4(2, a, b, c, e))),
        format_res(Mnemonic::Madd, ops4(Arg::GPR(a), Arg::GPR(b), Arg::GPR(c), Arg::GPR(e), sp), source)
            == Some(Res::Done(word4(3, a, b, c, e))),
        format_res(Mnemonic::Msub, ops4(Arg::GPR(a), Arg::GPR(b), Arg::GPR(c), Arg::GPR(e), sp), source)
            == Some(Res::Done(word4(4, a, b, c, e))),
{
    lemma_dpr4_word(source, 2, a, b, c, e);
    lemma_dpr4_word(source, 3, a, b, c, e);
    lemma_dpr4_word(source, 4, a, b, c, e);
}

#[verifier::spinoff_prover]
#[verifier::rlimit(60)]
proof fn lemma_words4_b(a: Reg, b: Reg, c: Reg, e: Reg, sp: (Span, Span, Span, Span), source: SrcV)
    ensures
        format_res(Mnemonic::MultFull, ops4(Arg::GPR(a), Arg::GPR(b), Arg::GPR(c), Arg::GPR(e), sp), source)
            == Some(Res::Done(word4(5, a, b, c, e))),
        format_res(Mnemonic::DivFull, ops4(Arg::GPR(a), Arg::GPR(b), Arg::GPR(c), Arg::GPR(e), sp), source)
            == Some(Res::Done(word4(6, a, b, c, e))),
        format_res(Mnemonic::UdivFull, ops4(Arg::GPR(a), Arg::GPR(b), Arg::GPR(c), Arg::GPR(e), sp), source)
            == Some(Res::Done(word4(7, a, b, c, e))),
{
    lemma_dpr4_word(source, 5, a, b, c, e);
    lemma_dpr4_word(source, 6, a, b, c, e);
    lemma_dpr4_word(source, 7, a, b, c, e);
}

#[verifier::spinoff_prover]
#[verifier::rlimit(60)]
proof fn lemma_words4_c(a: Reg, b: Reg, c: Reg, e: Reg, sp: (Span, Span, Span, Span), source: SrcV)
    ensures
        format_res(Mnemonic::Fush, ops4(Arg::GPR(a), Arg::GPR(b), Arg::GPR(c), Arg::GPR(e), sp), source)
            == Some(Res::Done(word4(8, a, b, c, e))),
        format_res(Mnemonic::Bfext, ops4(Arg::GPR(a), Arg::GPR(b), Arg::GPR(c), Arg::GPR(e), sp), source)
            == Some(Res::Done(word4(9, a, b, c, e))),
        format_res(Mnemonic::Bfins, ops4(Arg::GPR(a), Arg::GPR(b), Arg::GPR(c), Arg::GPR(e), sp), source)
            == Some(Res::Done(word4(10, a, b, c, e))),
{
    lemma_dpr4_word(source, 8, a, b, c, e);
    lemma_dpr4_word(source, 9, a, b, c, e);
    lemma_dpr4_word(source, 10, a, b, c, e);
}

/// The instructions on four registers give the words of the data processing
/// group with their own operations: `add` 2, `madd` 3, `msub` 4,
/// `mult.full` 5, `div.full` 6, `udiv.full` 7, `fush` 8, `bfext` 9 and
/// `bfins` 10, whatever the registers; so `madd` and `msub` never give the
/// same word.
pub proof fn law_four_register_words(a: Reg, b: Reg, c: Reg, e: Reg, sp: (Span, Span, Span, Span), source: SrcV)
    ensures
        format_res(Mnemonic::Add, ops4(Arg::GPR(a), Arg::GPR(b), Arg::GPR(c), Arg::GPR(e), sp), source)
            == Some(Res::Done(word4(2, a, b, c, e))),
        format_res(Mnemonic::Madd, ops4(Arg::GPR(a), Arg::GPR(b), Arg::GPR(c), Arg::GPR(e), sp), source)
            == Some(Res::Done(word4(3, a, b, c, e))),
        format_res(Mnemonic::Msub, ops4(Arg::GPR(a), Arg::GPR(b), Arg::GPR(c), Arg::GPR(e), sp), source)
            == Some(Res::Done(word4(4, a, b, c, e))),
        format_res(Mnemonic::MultFull, ops4(Arg::GPR(a), Arg::GPR(b), Arg::GPR(c), Arg::GPR(e), sp), source)
            == Some(Res::Done(word4(5, a, b, c, e))),
        format_res(Mnemonic::DivFull, ops4(Arg::GPR(a), Arg::GPR(b), Arg::GPR(c), Arg::GPR(e), sp), source)
            == Some(Res::Done(word4(6, a, b, c, e))),
        format_res(Mnemonic::UdivFull, ops4(Arg::GPR(a), Arg::GPR(b), Arg::GPR(c), Arg::GPR(e), sp), source)
            == Some(Res::Done(word4(7, a, b, c, e))),
        format_res(Mnemonic::Fush, ops4(Arg::GPR(a), Arg::GPR(b), Arg::GPR(c), Arg::GPR(e), sp), source)
            == Some(Res::Done(word4(8, a, b, c, e))),
        format_res(Mnemonic::Bfext, ops4(Arg::GPR(a), Arg::GPR(b), Arg::GPR(c), Arg::GPR(e), sp), source)
            == Some(Res::Done(word4(9, a, b, c, e))),
        format_res(Mnemonic::Bfins, ops4(Arg::GPR(a), Arg::GPR(b), Arg::GPR(c), Arg::GPR(e), sp), source)
            == Some(Res::Done(word4(10, a, b, c, e))),
        word4(3, a, b, c, e) != word4(4, a, b, c, e),
{
    lemma_words4_a(a, b, c, e, sp, source);
    lemma_words4_b(a, b, c, e, sp, source);
    lemma_words4_c(a, b, c, e, sp, source);
}

/// The word of a data processing instruction on a shifted register: group
/// 0001, class `grp`, the shift kind in bits 8 and 9, its amount in bits 10
/// to 15, the option `o1` in bit 16, then the registers in bits 17, 22 and
/// 27 up.
pub open spec fn word_sh(grp: int, kind: int, n: int, o1: int, d: Reg, s1: Reg, s2: Reg) -> int {
    1 + grp * 0x10 + kind * 0x100 + n * 0x400 + o1 * 0x1_0000 + crate::encoder::reg_code_spec(d) * 0x2_0000
        + crate::encoder::reg_code_spec(s1) * 0x40_0000 + crate::encoder::reg_code_spec(s2) * 0x800_0000
}

#[verifier::spinoff_prover]
#[verifier::rlimit(60)]
proof fn lemma_shop_word(source: SrcV, grp: u8, o1: u8, sh: Shift, kind: int, n: u8, d: Reg, s1: Reg, s2: Reg)
    requires
        grp < 16,
        o1 < 2,
        n <= 63,
        crate::encoder::shift_kind(sh) == kind,
        0 <= kind < 4,
        crate::encoder::shift_amount(sh) == n,
    ensures
        s_shop(source, grp, o1, sh, d, s1, s2) == Res::Done(word_sh(grp as int, kind, n as int, o1 as int, d, s1, s2)),
{
    reveal_with_fuel(eval_upto, 9);
    reveal_with_fuel(pack, 9);
    reveal_with_fuel(flen, 9);
    vstd::arithmetic::power2::lemma2_to64();
    lemma_reg_code_bound(d);
    lemma_reg_code_bound(s1);
    lemma_reg_code_bound(s2);
    let (rd, r1, r2) = (
        crate::encoder::reg_code_spec(d),
        crate::encoder::reg_code_spec(s1),
        crate::encoder::reg_code_spec(s2),
    );
    let v8 = seq![(1int, 4nat), (grp as int, 4nat), (kind, 2nat), (n as int, 6nat), (o1 as int, 1nat), (rd, 5nat), (r1, 5nat), (r2, 5nat)];
    let v7 = seq![(1int, 4nat), (grp as int, 4nat), (kind, 2nat), (n as int, 6nat), (o1 as int, 1nat), (rd, 5nat), (r1, 5nat)];
    let v6 = seq![(1int, 4nat), (grp as int, 4nat), (kind, 2nat), (n as int, 6nat), (o1 as int, 1nat), (rd, 5nat)];
    let v5 = seq![(1int, 4nat), (grp as int, 4nat), (kind, 2nat), (n as int, 6nat), (o1 as int, 1nat)];
    let v4 = seq![(1int, 4nat), (grp as int, 4nat), (kind, 2nat), (n as int, 6nat)];
    let v3 = seq![(1int, 4nat), (grp as int, 4nat), (kind, 2nat)];
    let v2 = seq![(1int, 4nat), (grp as int, 4nat)];
    let v1 = seq![(1int, 4nat)];
    assert(v8.drop_last() =~= v7);
    assert(v7.drop_last() =~= v6);
    assert(v6.drop_last() =~= v5);
    assert(v5.drop_last() =~= v4);
    assert(v4.drop_last() =~= v3);
    assert(v3.drop_last() =~= v2);
    assert(v2.drop_last() =~= v1);
    assert(v1.drop_last() =~= Seq::<(int, nat)>::empty());
    let fs = seq![
        SField::Raw(1, 4),
        SField::Raw(grp as int, 4),
        SField::ShK(sh),
        SField::ShA(sh),
        SField::Raw(o1 as int, 1),
        SField::Gpr(d),
        SField::Gpr(s1),
        SField::Gpr(s2),
    ];
    assert(eval_upto(fs, 8, source) == Res::Done(v8)) by {
        assert(Seq::<(int, nat)>::empty().push((1int, 4nat)) =~= v1);
        assert(v1.push((grp as int, 4nat)) =~= v2);
        assert(v2.push((kind, 2nat)) =~= v3);
        assert(v3.push((n as int, 6nat)) =~= v4);
        assert(v4.push((o1 as int, 1nat)) =~= v5);
        assert(v5.push((rd, 5nat)) =~= v6);
        assert(v6.push((r1, 5nat)) =~= v7);
        assert(v7.push((r2, 5nat)) =~= v8);
    }
    assert(rd % 32 == rd && r1 % 32 == r1 && r2 % 32 == r2);
    assert((grp as int) % 16 == grp as int && kind % 4 == kind && (n as int) % 64 == n as int);
    assert((o1 as int) % 2 == o1 as int);
    assert(flen(v1) == 4 && flen(v2) == 8 && flen(v3) == 10 && flen(v4) == 16 && flen(v5) == 17 && flen(v6) == 22
        && flen(v7) == 27);
    assert(pack(v1) == 1);
    assert(pack(v2) == 1 + grp as int * 0x10);
    assert(pack(v3) == pack(v2) + kind * 0x100);
    assert(pack(v4) == pack(v3) + n as int * 0x400);
    assert(pack(v5) == pack(v4) + o1 as int * 0x1_0000);
    assert(pack(v6) == pack(v5) + rd * 0x2_0000);
    assert(pack(v7) == pack(v6) + r1 * 0x40_0000);
    assert(pack(v8) == pack(v7) + r2 * 0x800_0000);
}

#[verifier::spinoff_prover]
#[verifier::rlimit(60)]
proof fn lemma_words_add_shl(d: Reg, a: Reg, b: Reg, n: u8, sp: (Span, Span, Span, Span), source: SrcV)
    requires
        n <= 63,
    ensures
        format_res(Mnemonic::Add, ops3(Arg::GPR(d), Arg::GPR(a), Arg::ShReg(b, Shift::SHL(n)), sp), source)
            == Some(Res::Done(word_sh(8, 0, n as int, 0, d, a, b))),
{
    lemma_shop_word(source, 8, 0, Shift::SHL(n), 0, n, d, a, b);
}

#[verifier::spinoff_prover]
#[verifier::rlimit(60)]
proof fn lemma_words_add_shr(d: Reg, a: Reg, b: Reg, n: u8, sp: (Span, Span, Span, Span), source: SrcV)
    requires
        n <= 63,
    ensures
        format_res(Mnemonic::Add, ops3(Arg::GPR(d), Arg::GPR(a), Arg::ShReg(b, Shift::SHR(n)), sp), source)
            == Some(Res::Done(word_sh(8, 1, n as int, 0, d, a, b))),
{
    lemma_shop_word(source, 8, 0, Shift::SHR(n), 1, n, d, a, b);
}

#[verifier::spinoff_prover]
#[verifier::rlimit(60)]
proof fn lemma_words_add_sar(d: Reg, a: Reg, b: Reg, n: u8, sp: (Span, Span, Span, Span), source: SrcV)
    requires
        n <= 63,
    ensures
        format_res(Mnemonic::Add, ops3(Arg::GPR(d), Arg::GPR(a), Arg::ShReg(b, Shift::SAR(n)), sp), source)
            == Some(Res::Done(word_sh(8, 2, n as int, 0, d, a, b))),
{
    lemma_shop_word(source, 8, 0, Shift::SAR(n), 2, n, d, a, b);
}

#[verifier::spinoff_prover]
#[verifier::rlimit(60)]
proof fn lemma_words_add_rol(d: Reg, a: Reg, b: Reg, n: u8, sp: (Span, Span, Span, Span), source: SrcV)
    requires
        n <= 63,
    ensures
        format_res(Mnemonic::Add, ops3(Arg::GPR(d), Arg::GPR(a), Arg::ShReg(b, Shift::ROL(n)), sp), source)
            == Some(Res::Done(word_sh(8, 3, n as int, 0, d, a, b))),
{
    lemma_shop_word(source, 8, 0, Shift::ROL(n), 3, n, d, a, b);
}

#[verifier::spinoff_prover]
#[verifier::rlimit(60)]
proof fn lemma_words_or_shl(d: Reg, a: Reg, b: Reg, n: u8, sp: (Span, Span, Span, Span), source: SrcV)
    requires
        n <= 63,
    ensures
        format_res(Mnemonic::Or, ops3(Arg::GPR(d), Arg::GPR(a), Arg::ShReg(b, Shift::SHL(n)), sp), source)
            == Some(Res::Done(word_sh(9, 0, n as int, 1, d, a, b))),
{
    lemma_shop_word(source, 9, 1, Shift::SHL(n), 0, n, d, a, b);
}

#[verifier::spinoff_prover]
#[verifier::rlimit(60)]
proof fn lemma_words_or_shr(d: Reg, a: Reg, b: Reg, n: u8, sp: (Span, Span, Span, Span), source: SrcV)
    requires
        n <= 63,
    ensures
        format_res(Mnemonic::Or, ops3(Arg::GPR(d), Arg::GPR(a), Arg::ShReg(b, Shift::SHR(n)), sp), source)
            == Some(Res::Done(word_sh(9, 1, n as int, 1, d, a, b))),
{
    lemma_shop_word(source, 9, 1, Shift::SHR(n), 1, n, d, a, b);
}

#[verifier::spinoff_prover]
#[verifier::rlimit(60)]
proof fn lemma_words_or_sar(d: Reg, a: Reg, b: Reg, n: u8, sp: (Span, Span, Span, Span), source: SrcV)
    requires
        n <= 63,
    ensures
        format_res(Mnemonic::Or, ops3(Arg::GPR(d), Arg::GPR(a), Arg::ShReg(b, Shift::SAR(n)), sp), source)
            == Some(Res::Done(word_sh(9, 2, n as int, 1, d, a, b))),
{
    lemma_shop_word(source, 9, 1, Shift::SAR(n), 2, n, d, a, b);
}

#[verifier::spinoff_prover]
#[verifier::rlimit(60)]
proof fn lemma_words_or_rol(d: Reg, a: Reg, b: Reg, n: u8, sp: (Span, Span, Span, Span), source: SrcV)
    requires
        n <= 63,
    ensures
        format_res(Mnemonic::Or, ops3(Arg::GPR(d), Arg::GPR(a), Arg::ShReg(b, Shift::ROL(n)), sp), source)
            == Some(Res::Done(word_sh(9, 3, n as int, 1, d, a, b))),
{
    lemma_shop_word(source, 9, 1, Shift::ROL(n), 3, n, d, a, b);
}

/// An instruction on a shifted register (here `add`, class 8 and option 0,
/// and `or`, class 9 and option 1) gives a shift kind of its own for each
/// shift operator: 0 for `shl`, 1 for `shr`, 2 for `sar` and 3 for `rol`,
/// with the amount beside it.
pub proof fn law_shifted_register_words(d: Reg, a: Reg, b: Reg, n: u8, sp: (Span, Span, Span, Span), source: SrcV)
    requires
        n <= 63,
    ensures
        format_res(Mnemonic::Add, ops3(Arg::GPR(d), Arg::GPR(a), Arg::ShReg(b, Shift::SHL(n)), sp), source)
            == Some(Res::Done(word_sh(8, 0, n as int, 0, d, a, b))),
        format_res(Mnemonic::Add, ops3(Arg::GPR(d), Arg::GPR(a), Arg::ShReg(b, Shift::SHR(n)), sp), source)
            == Some(Res::Done(word_sh(8, 1, n as int, 0, d, a, b))),
        format_res(Mnemonic::Add, ops3(Arg::GPR(d), Arg::GPR(a), Arg::ShReg(b, Shift::SAR(n)), sp), source)
            == Some(Res::Done(word_sh(8, 2, n as int, 0, d, a, b))),
        format_res(Mnemonic::Add, ops3(Arg::GPR(d), Arg::GPR(a), Arg::ShReg(b, Shift::ROL(n)), sp), source)
            == Some(Res::Done(word_sh(8, 3, n as int, 0, d, a, b))),
        format_res(Mnemonic::Or, ops3(Arg::GPR(d), Arg::GPR(a), Arg::ShReg(b, Shift::SHL(n)), sp), source)
            == Some(Res::Done(word_sh(9, 0, n as int, 1, d, a, b))),
        format_res(Mnemonic::Or, ops3(Arg::GPR(d), Arg::GPR(a), Arg::ShReg(b, Shift::SHR(n)), sp), source)
            == Some(Res::Done(word_sh(9, 1, n as int, 1, d, a, b))),
        format_res(Mnemonic::Or, ops3(Arg::GPR(d), Arg::GPR(a), Arg::ShReg(b, Shift::SAR(n)), sp), source)
            == Some(Res::Done(word_sh(9, 2, n as int, 1, d, a, b))),
        format_res(Mnemonic::Or, ops3(Arg::GPR(d), Arg::GPR(a), Arg::ShReg(b, Shift::ROL(n)), sp), source)
            == Some(Res::Done(word_sh(9, 3, n as int, 1, d, a, b))),
{
    lemma_words_add_shl(d, a, b, n, sp, source);
    lemma_words_add_shr(d, a, b, n, sp, source);
    lemma_words_add_sar(d, a, b, n, sp, source);
    lemma_words_add_rol(d, a, b, n, sp, source);
    lemma_words_or_shl(d, a, b, n, sp, source);
    lemma_words_or_shr(d, a, b, n, sp, source);
    lemma_words_or_sar(d, a, b, n, sp, source);
    lemma_words_or_rol(d, a, b, n, sp, source);
}
} // verus!
