//! Assembler for the MEP instruction set: tokenizer, parser, instruction
//! encoder and the Unimap memory-image writer.

pub mod utils;
pub mod tokenizer;
pub mod parser;
pub mod encoder;
pub mod inst_encoder;
pub mod expressifier;

use vstd::prelude::*;
use vstd::string::*;
use crate::tokenizer::{Source, SrcV, fits_spans};
use crate::parser::{parse, parse_spec};
use crate::encoder::{encode, encode_spec};
use crate::expressifier::{expressify, expressify_spec};
use crate::utils::{Error, Fail, Res, pass};

verus! {

/// What compiling the text `b` of file `path` gives: the Unimap program
/// holding the encoded binary; or the first error; or a halt where the
/// assembler has no way to go on.
pub open spec fn compile_spec(b: Seq<u8>, path: Seq<char>) -> Res<Seq<char>> {
    match parse_spec(b, path, Seq::empty()) {
        Res::Done((lines, lp)) => match encode_spec(lines, SrcV { bytes: b, path, lp }) {
            Res::Done(bin) => if bin.len() == 0 {
                Res::Halt
            } else {
                Res::Done(expressify_spec(bin))
            },
            other => pass(other),
        },
        other => pass(other),
    }
}

/// The result of compiling, where the assembler does not halt.
fn run(src: &str, path: &str) -> (r: Result<String, Fail>)
    requires
        fits_spans(src.spec_bytes()),
    ensures
        match compile_spec(src.spec_bytes(), path@) {
            Res::Done(out) => r matches Ok(s) && s@ == out,
            other => r matches Err(f) && crate::utils::same_fail(f, other),
        },
{
    let mut source = Source::new(src, path);
    let mut lines = parse(&mut source)?;
    let bin = encode(lines.as_mut_slice(), &source)?;
    if bin.len() == 0 {
        return Err(Fail::Halt);
    }
    Ok(expressify(bin.as_slice()))
}

/// Compiles the assembly text `src` of file `path` into a Unimap program
/// whose memory holds the encoded binary; or gives the first error, its
/// message ending with the place where it occurred.
pub fn compile(src: &str, path: &str) -> (r: Result<String, Error>)
    requires
        fits_spans(src.spec_bytes()),
        !(compile_spec(src.spec_bytes(), path@) is Halt),
    ensures
        match compile_spec(src.spec_bytes(), path@) {
            Res::Done(out) => r matches Ok(s) && s@ == out,
            Res::Error(m, sp) => r matches Err(e) && e.msg@ == m && e.span == sp,
            Res::Halt => false,
        },
{
    match run(src, path) {
        Ok(s) => Ok(s),
        Err(Fail::Error(e)) => Err(e),
        Err(Fail::Halt) => Err(Error { msg: String::new(), span: crate::tokenizer::Span(0, 0) }),
    }
}

/// Compiles like `compile`, or gives `None` where the assembler has no way
/// to go on (an empty program, or a text it cannot cut where it needs to).
pub fn try_compile(src: &str, path: &str) -> (r: Option<Result<String, Error>>)
    ensures
        !fits_spans(src.spec_bytes()) ==> r is None,
        fits_spans(src.spec_bytes()) ==> match compile_spec(src.spec_bytes(), path@) {
            Res::Done(out) => r matches Some(Ok(s)) && s@ == out,
            Res::Error(m, sp) => r matches Some(Err(e)) && e.msg@ == m && e.span == sp,
            Res::Halt => r is None,
        },
{
    if src.as_bytes().len() as u64 >= 0xffff_fffb {
        return None;
    }
    match run(src, path) {
        Ok(s) => Some(Ok(s)),
        Err(Fail::Error(e)) => Some(Err(e)),
        Err(Fail::Halt) => None,
    }
}

} // verus!
