use vstd::prelude::*;
use vstd::utf8::*;
use vstd::string::*;
use crate::utils::{bnd, is_cont, text, substr, char_count, dec, push_dec, err_in, Res, Fail, fail, fail_is, same_fail, lemma_ascii_next_bnd, lemma_ascii_text, lemma_text_split};

verus! {

broadcast use vstd::utf8::encode_utf8_valid_utf8, vstd::utf8::encode_utf8_decode_utf8;

/// An assembly source: its text, its path, and the byte offsets of the line
/// feeds found so far by the tokenizer.
#[derive(Debug, Clone)]
pub struct Source<'a> {
    pub src: &'a str,
    pub path: &'a str,
    pub line_poses: Vec<u32>,
}

/// A source as the specification sees it: the UTF-8 bytes of its text, its
/// path, and the offsets of the line feeds found so far.
pub struct SrcV {
    pub bytes: Seq<u8>,
    pub path: Seq<char>,
    pub lp: Seq<u32>,
}

impl<'a> View for Source<'a> {
    type V = SrcV;

    open spec fn view(&self) -> SrcV {
        SrcV { bytes: self.src.spec_bytes(), path: self.path@, lp: self.line_poses@ }
    }
}

impl<'a> Source<'a> {
    /// The UTF-8 bytes of the text.
    pub open spec fn bytes(&self) -> Seq<u8> {
        self.src.spec_bytes()
    }

    pub fn new(src: &'a str, path: &'a str) -> (r: Source<'a>)
        ensures
            r.src == src,
            r.path == path,
            r.line_poses@ == Seq::<u32>::empty(),
    {
        Source { src, path, line_poses: Vec::new() }
    }

    /// The text of `span`, which must lie on character boundaries.
    pub fn source_of(&self, span: Span) -> (r: &'a str)
        requires
            span.0 <= span.1 <= self.bytes().len(),
            bnd(self.bytes(), span.0 as int),
            bnd(self.bytes(), span.1 as int),
        ensures
            r@ == text(self.bytes(), span.0 as int, span.1 as int),
    {
        substr(self.src, span.0 as usize, span.1 as usize)
    }
}

/// A part of the source: the byte offsets of its start and of its end.
#[derive(Clone, Copy, Debug, PartialEq, Eq, Structural)]
pub struct Span(pub u32, pub u32);

/// A line and column range, both counted from 1 (a column 0 denotes the
/// position of a line feed itself).
#[derive(Clone, Copy, Debug, PartialEq, Eq)]
pub struct Pos {
    pub start: (u32, u32),
    pub end: (u32, u32),
}

impl Pos {
    /// `line:col`, or `line:col-line:col` when start and end differ.
    pub open spec fn text_spec(self) -> Seq<char> {
        if self.start == self.end {
            dec(self.start.0 as nat) + ":"@ + dec(self.start.1 as nat)
        } else {
            dec(self.start.0 as nat) + ":"@ + dec(self.start.1 as nat) + "-"@ + dec(
                self.end.0 as nat,
            ) + ":"@ + dec(self.end.1 as nat)
        }
    }

    /// Appends the text of the position to `s`.
    pub fn push_text(&self, s: &mut String)
        ensures
            final(s)@ == old(s)@ + self.text_spec(),
    {
        let ghost s0 = s@;
        push_dec(s, self.start.0 as u64);
        s.append(":");
        push_dec(s, self.start.1 as u64);
        if self.start.0 != self.end.0 || self.start.1 != self.end.1 {
            s.append("-");
            push_dec(s, self.end.0 as u64);
            s.append(":");
            push_dec(s, self.end.1 as u64);
        }
        proof {
            assert(s@ =~= s0 + self.text_spec());
        }
    }

    /// The text of the position.
    pub fn to_text(&self) -> (r: String)
        ensures
            r@ == self.text_spec(),
    {
        let mut s = String::new();
        self.push_text(&mut s);
        proof {
            assert(s@ =~= self.text_spec());
        }
        s
    }
}

/// The index of the first entry of `lp` from `j` on that is at least `ind`,
/// or `lp.len()`.
pub open spec fn first_ge(lp: Seq<u32>, ind: u32, j: int) -> int
    decreases lp.len() - j,
{
    if j < 0 || j >= lp.len() {
        lp.len() as int
    } else if lp[j] >= ind {
        j
    } else {
        first_ge(lp, ind, j + 1)
    }
}

/// Line and column of byte offset `ind` of the text `b`, the line feeds
/// before `ind` being those listed in `lp`; `None` where the text before
/// `ind` cannot be cut at `ind` (not a character boundary) or a count does
/// not fit.
pub open spec fn pos_in(b: Seq<u8>, lp: Seq<u32>, ind: u32) -> Option<(u32, u32)> {
    let k = first_ge(lp, ind, 0);
    if k < lp.len() && lp[k] == ind {
        if bnd(b, ind as int) {
            Some(((k + 2) as u32, 0u32))
        } else {
            None
        }
    } else if k == 0 {
        if bnd(b, ind as int) && text(b, 0, ind as int).len() < u32::MAX {
            Some((1u32, (text(b, 0, ind as int).len() + 1) as u32))
        } else {
            None
        }
    } else {
        let a = lp[k - 1];
        if bnd(b, a as int) && bnd(b, ind as int) {
            Some(((k + 1) as u32, text(b, a as int, ind as int).len() as u32))
        } else {
            None
        }
    }
}

/// The position of `span` in the text `b` with line feeds `lp`: that of its
/// first byte and that of its last byte.
pub open spec fn span_pos_in(span: Span, b: Seq<u8>, lp: Seq<u32>) -> Option<Pos> {
    if span.1 == 0 {
        None
    } else {
        match (pos_in(b, lp, span.0), pos_in(b, lp, (span.1 - 1) as u32)) {
            (Some(s), Some(e)) => Some(Pos { start: s, end: e }),
            _ => None,
        }
    }
}

/// Line and column of byte offset `ind` of the source.
pub open spec fn spec_pos_of(source: SrcV, ind: u32) -> Option<(u32, u32)> {
    pos_in(source.bytes, source.lp, ind)
}

/// The position of `span` in the source.
pub open spec fn spec_span_pos(span: Span, source: SrcV) -> Option<Pos> {
    span_pos_in(span, source.bytes, source.lp)
}

proof fn lemma_first_ge(lp: Seq<u32>, ind: u32, j: int)
    requires
        0 <= j <= lp.len(),
    ensures
        j <= first_ge(lp, ind, j) <= lp.len(),
        forall|i: int| j <= i < first_ge(lp, ind, j) ==> lp[i] < ind,
        first_ge(lp, ind, j) < lp.len() ==> lp[first_ge(lp, ind, j)] >= ind,
    decreases lp.len() - j,
{
    if j < lp.len() && lp[j] < ind {
        lemma_first_ge(lp, ind, j + 1);
    }
}

fn pos_of(source: &Source, ind: u32) -> (r: (u32, u32))
    requires
        spec_pos_of(source@, ind) is Some,
    ensures
        r == spec_pos_of(source@, ind)->0,
{
    let lp = &source.line_poses;
    let mut k: usize = 0;
    while k < lp.len() && lp[k] < ind
        invariant
            k <= lp@.len(),
            lp@ == source.line_poses@,
            first_ge(lp@, ind, k as int) == first_ge(lp@, ind, 0),
        decreases lp@.len() - k,
    {
        k = k + 1;
    }
    proof {
        lemma_first_ge(lp@, ind, k as int);
        lemma_first_ge(lp@, ind, 0);
    }
    if k < lp.len() && lp[k] == ind {
        (trunc_add(k, 2), 0)
    } else if k == 0 {
        let c = char_count(source.src, 0, ind as usize);
        (1, c as u32 + 1)
    } else {
        let a = lp[k - 1];
        let c = char_count(source.src, a as usize, ind as usize);
        (trunc_add(k, 1), #[verifier::truncate] (c as u32))
    }
}

/// `k + d` cut to 32 bits.
fn trunc_add(k: usize, d: u32) -> (r: u32)
    requires
        d <= 2,
    ensures
        r == (k + d) as u32,
{
    let x: u32 = #[verifier::truncate] (k as u32);
    let r = x.wrapping_add(d);
    assert(r == (k + d) as u32) by (bit_vector)
        requires
            x == k as u32,
            r == x.wrapping_add(d),
    ;
    r
}

/// `i` is a character boundary of the text of `s`.
pub fn is_bnd(s: &str, i: usize) -> (r: bool)
    ensures
        r == bnd(s.spec_bytes(), i as int),
{
    let b = s.as_bytes();
    i == b.len() || (i < b.len() && !(0x80 <= b[i] && b[i] <= 0xbf))
}

/// The text of `span`, where it lies on character boundaries.
pub open spec fn span_text(source: SrcV, span: Span) -> Option<Seq<char>> {
    let b = source.bytes;
    if span.0 <= span.1 <= b.len() && bnd(b, span.0 as int) && bnd(b, span.1 as int) {
        Some(text(b, span.0 as int, span.1 as int))
    } else {
        None
    }
}

impl<'a> Source<'a> {
    /// The text of `span`, where it lies on character boundaries.
    pub fn try_source_of(&self, span: Span) -> (r: Option<&'a str>)
        ensures
            r matches Some(t) ==> span_text(self@, span) == Some(t@),
            r is None ==> span_text(self@, span) is None,
    {
        if span.0 <= span.1 && (span.1 as usize) <= self.src.as_bytes().len() && is_bnd(self.src, span.0 as usize)
            && is_bnd(self.src, span.1 as usize) {
            Some(self.source_of(span))
        } else {
            None
        }
    }
}

/// Line and column of byte offset `ind`, where they can be computed.
fn try_pos_of(source: &Source, ind: u32) -> (r: Option<(u32, u32)>)
    ensures
        r == spec_pos_of(source@, ind),
{
    let lp = &source.line_poses;
    let mut k: usize = 0;
    while k < lp.len() && lp[k] < ind
        invariant
            k <= lp@.len(),
            lp@ == source.line_poses@,
            first_ge(lp@, ind, k as int) == first_ge(lp@, ind, 0),
        decreases lp@.len() - k,
    {
        k = k + 1;
    }
    proof {
        lemma_first_ge(lp@, ind, k as int);
        lemma_first_ge(lp@, ind, 0);
    }
    if k < lp.len() && lp[k] == ind {
        if is_bnd(source.src, ind as usize) {
            Some((trunc_add(k, 2), 0))
        } else {
            None
        }
    } else if k == 0 {
        if is_bnd(source.src, ind as usize) {
            let c = char_count(source.src, 0, ind as usize);
            if c < u32::MAX as usize {
                Some((1, c as u32 + 1))
            } else {
                None
            }
        } else {
            None
        }
    } else {
        let a = lp[k - 1];
        if is_bnd(source.src, a as usize) && is_bnd(source.src, ind as usize) {
            let c = char_count(source.src, a as usize, ind as usize);
            Some((trunc_add(k, 1), #[verifier::truncate] (c as u32)))
        } else {
            None
        }
    }
}

impl Span {
    /// The position of the span, where it can be computed.
    pub fn try_pos(&self, source: &Source) -> (r: Option<Pos>)
        ensures
            r == spec_span_pos(*self, source@),
    {
        if self.1 == 0 {
            return None;
        }
        match (try_pos_of(source, self.0), try_pos_of(source, self.1 - 1)) {
            (Some(s), Some(e)) => Some(Pos { start: s, end: e }),
            _ => None,
        }
    }

    pub open spec fn is_none_spec(self) -> bool {
        self.0 == 0 && self.1 == 0
    }

    /// The empty span at the start of the source.
    pub fn none() -> (r: Span)
        ensures
            r == Span(0, 0),
    {
        Span(0, 0)
    }

    /// The one-byte span at `ind`.
    pub fn point(ind: u32) -> (r: Span)
        requires
            ind < u32::MAX,
        ensures
            r == Span(ind, (ind + 1) as u32),
    {
        Span(ind, ind + 1)
    }

    /// Line and column of the first and of the last byte of the span.
    pub fn pos(&self, source: &Source) -> (r: Pos)
        requires
            spec_span_pos(*self, source@) is Some,
        ensures
            r == spec_span_pos(*self, source@)->0,
    {
        Pos { start: pos_of(source, self.0), end: pos_of(source, self.1 - 1) }
    }

    pub fn is_none(&self) -> (r: bool)
        ensures
            r == self.is_none_spec(),
    {
        self.0 == 0 && self.1 == 0
    }

    /// From the start of `a` to the end of `b`.
    pub fn join(a: Span, b: Span) -> (r: Span)
        ensures
            r == Span(a.0, b.1),
    {
        Span(a.0, b.1)
    }
}

} // verus!

verus! {

// ---------------------------------------------------------------------------
// Tokens
// ---------------------------------------------------------------------------

/// A token: its kind and the part of the source it was read from.
#[derive(Debug, Clone)]
pub struct Token<'a> {
    pub span: Span,
    pub kind: TokenKind<'a>,
}

#[derive(Debug, Clone)]
pub enum TokenKind<'a> {
    Ident(&'a str),
    Str(String),
    Nb(u64),
    Dot,
    Comma,
    Colon,
    Plus,
    Minus,
    Eq,
    ParanOpen,
    ParanClose,
    BracketOpen,
    BracketClose,
    NL,
    Eof,
}

/// The kind of a token as the specification sees it.
pub enum Tk {
    Ident(Seq<char>),
    Str(Seq<char>),
    Nb(u64),
    Dot,
    Comma,
    Colon,
    Plus,
    Minus,
    Eq,
    ParanOpen,
    ParanClose,
    BracketOpen,
    BracketClose,
    NL,
    Eof,
}

/// A token as the specification sees it.
pub struct TokV {
    pub span: Span,
    pub kind: Tk,
}

impl<'a> View for TokenKind<'a> {
    type V = Tk;

    open spec fn view(&self) -> Tk {
        match self {
            TokenKind::Ident(s) => Tk::Ident(s@),
            TokenKind::Str(s) => Tk::Str(s@),
            TokenKind::Nb(n) => Tk::Nb(*n),
            TokenKind::Dot => Tk::Dot,
            TokenKind::Comma => Tk::Comma,
            TokenKind::Colon => Tk::Colon,
            TokenKind::Plus => Tk::Plus,
            TokenKind::Minus => Tk::Minus,
            TokenKind::Eq => Tk::Eq,
            TokenKind::ParanOpen => Tk::ParanOpen,
            TokenKind::ParanClose => Tk::ParanClose,
            TokenKind::BracketOpen => Tk::BracketOpen,
            TokenKind::BracketClose => Tk::BracketClose,
            TokenKind::NL => Tk::NL,
            TokenKind::Eof => Tk::Eof,
        }
    }
}

impl<'a> View for Token<'a> {
    type V = TokV;

    open spec fn view(&self) -> TokV {
        TokV { span: self.span, kind: self.kind@ }
    }
}

/// The tokens of a list as the specification sees them.
pub open spec fn toks_view(v: Seq<Token>) -> Seq<TokV> {
    v.map_values(|t: Token| t@)
}

// ---------------------------------------------------------------------------
// The lexical grammar, over the UTF-8 bytes of the source
// ---------------------------------------------------------------------------

pub open spec fn is_letter(x: u8) -> bool {
    (0x61 <= x && x <= 0x7a) || (0x41 <= x && x <= 0x5a)
}

pub open spec fn is_digit(x: u8) -> bool {
    0x30 <= x && x <= 0x39
}

pub open spec fn is_hex(x: u8) -> bool {
    is_digit(x) || (0x61 <= x && x <= 0x66) || (0x41 <= x && x <= 0x46)
}

/// The value of a hexadecimal (or decimal, or binary) digit.
pub open spec fn digit_value(x: u8) -> nat {
    if is_digit(x) {
        (x - 0x30) as nat
    } else if 0x61 <= x && x <= 0x66 {
        (x - 0x61 + 10) as nat
    } else {
        (x - 0x41 + 10) as nat
    }
}

/// The bytes a token of class `k` continues with: 0 for identifiers, 2, 16
/// and 10 for numbers in that base (digits and `_`).
pub open spec fn in_class(x: u8, k: int) -> bool {
    if k == 0 {
        is_letter(x) || is_digit(x) || x == 0x5f
    } else if k == 2 {
        x == 0x30 || x == 0x31 || x == 0x5f
    } else if k == 16 {
        is_hex(x) || x == 0x5f
    } else {
        is_digit(x) || x == 0x5f
    }
}

/// The end of the run of bytes of class `k` starting at `i`.
pub open spec fn scan(b: Seq<u8>, i: int, k: int) -> int
    decreases b.len() - i,
{
    if i < 0 || i >= b.len() || !in_class(b[i], k) {
        i
    } else {
        scan(b, i + 1, k)
    }
}

/// The first index from `i` before `hi` holding the byte `x`, or `hi`.
pub open spec fn find_in(b: Seq<u8>, i: int, hi: int, x: u8) -> int
    decreases hi - i,
{
    if i < 0 || i >= hi {
        hi
    } else if b[i] == x {
        i
    } else {
        find_in(b, i + 1, hi, x)
    }
}

pub proof fn lemma_find_in(b: Seq<u8>, i: int, hi: int, x: u8)
    requires
        0 <= i <= hi,
    ensures
        i <= find_in(b, i, hi, x) <= hi,
        find_in(b, i, hi, x) < hi ==> b[find_in(b, i, hi, x)] == x,
        forall|k: int| i <= k < find_in(b, i, hi, x) ==> b[k] != x,
    decreases hi - i,
{
    if i < hi && b[i] != x {
        lemma_find_in(b, i + 1, hi, x);
    }
}

/// The first index from `i` that starts `*/`, or the length of `b`.
pub open spec fn find_close(b: Seq<u8>, i: int) -> int
    decreases b.len() - i,
{
    if i < 0 || i + 1 >= b.len() {
        b.len() as int
    } else if b[i] == 0x2a && b[i + 1] == 0x2f {
        i
    } else {
        find_close(b, i + 1)
    }
}

/// The end of the character that starts at `i`: the next boundary.
pub open spec fn char_end(b: Seq<u8>, i: int) -> int
    decreases b.len() - i,
{
    if i + 1 >= b.len() || !is_cont(b[i + 1]) {
        i + 1
    } else {
        char_end(b, i + 1)
    }
}

/// The character that starts at `i`, as text.
pub open spec fn char_text(b: Seq<u8>, i: int) -> Seq<char> {
    text(b, i, char_end(b, i))
}

/// The offsets of the line feeds among the bytes `lo..hi`.
pub open spec fn nl_positions(b: Seq<u8>, lo: int, hi: int) -> Seq<u32>
    decreases hi - lo,
{
    if hi <= lo {
        Seq::empty()
    } else {
        nl_positions(b, lo, hi - 1) + if b[hi - 1] == 0x0a {
            seq![(hi - 1) as u32]
        } else {
            Seq::empty()
        }
    }
}

/// How the `_` separators among the digits `p..hi` (a number's digits start
/// at `lo`) fare: all placed between two digits, or the first one that is
/// not.
pub enum Dashes {
    Fine,
    Bad(int),
}

pub open spec fn dashes(b: Seq<u8>, lo: int, p: int, hi: int) -> Dashes
    decreases hi - p,
{
    if p < lo || p >= hi {
        Dashes::Fine
    } else if b[p] != 0x5f {
        dashes(b, lo, p + 1, hi)
    } else if p == lo || b[p - 1] == 0x5f {
        Dashes::Bad(p)
    } else if p + 1 >= hi || b[p + 1] == 0x5f {
        Dashes::Bad(p)
    } else {
        dashes(b, lo, p + 1, hi)
    }
}

/// The value of the digits among the bytes `lo..hi` in base `base`, the
/// `_` separators skipped.
pub open spec fn digits_val(b: Seq<u8>, lo: int, hi: int, base: nat) -> nat
    decreases hi - lo,
{
    if hi <= lo {
        0
    } else if b[hi - 1] == 0x5f {
        digits_val(b, lo, hi - 1, base)
    } else {
        digits_val(b, lo, hi - 1, base) * base + digit_value(b[hi - 1])
    }
}

/// The value of the bytes `lo..hi`, one or more hexadecimal digits, read as
/// a number of at most `max`; `None` where they are no such number.
pub open spec fn hex_number(b: Seq<u8>, lo: int, hi: int, max: nat) -> Option<nat> {
    if lo >= hi {
        None
    } else if exists|k: int| lo <= k < hi && !is_hex(#[trigger] b[k]) {
        None
    } else if digits_val(b, lo, hi, 16) > max {
        None
    } else {
        Some(digits_val(b, lo, hi, 16))
    }
}

/// A Unicode scalar value.
pub open spec fn scalar_ok(v: nat) -> bool {
    v <= 0x10ffff && !(0xd800 <= v && v <= 0xdfff)
}

/// What a step of the tokenizer does.
pub enum Lx {
    /// Reads a token, goes on at the given offset with the given line feeds.
    Tok(TokV, int, Seq<u32>),
    /// Reads nothing, goes on at the given offset with the given line feeds.
    Skip(int, Seq<u32>),
    /// Fails.
    Fail(Res<()>),
}

/// The one-byte span at `i`.
pub open spec fn point(i: int) -> Span {
    Span(i as u32, (i + 1) as u32)
}

/// The message for an unexpected token, and what was expected if anything.
pub open spec fn unexpected_msg(token: Seq<char>, expected: Seq<char>) -> Seq<char> {
    if expected.len() == 0 {
        "unexpected token ("@ + token + ")"@
    } else {
        "unexpected token ("@ + token + "), expected "@ + expected
    }
}

/// The message for an unexpected end of input.
pub open spec fn end_msg(expected: Seq<char>) -> Seq<char> {
    if expected.len() == 0 {
        "unexpected end of input"@
    } else {
        "unexpected end of input, expected "@ + expected
    }
}

/// The string constant whose content lies between `lo` and `hi`, read from
/// `cur` on, `acc` being what was read before: the escape codes replaced by
/// what they stand for; or the error of a bad escape code.
#[verifier::opaque]
pub open spec fn esc(
    b: Seq<u8>,
    path: Seq<char>,
    lp: Seq<u32>,
    hi: int,
    cur: int,
    acc: Seq<char>,
) -> Res<Seq<char>>
    decreases hi - cur,
{
    let p = find_in(b, cur, hi, 0x5c);
    if cur < 0 || cur > hi || p >= hi {
        Res::Done(acc + text(b, cur, hi))
    } else {
        let acc2 = acc + text(b, cur, p);
        proof {
            lemma_find_in(b, cur, hi, 0x5c);
        }
        if p + 1 >= hi {
            Res::Halt
        } else {
            let x = b[p + 1];
            if x == 0x6e {
                esc(b, path, lp, hi, p + 2, acc2.push('\n'))
            } else if x == 0x72 {
                esc(b, path, lp, hi, p + 2, acc2.push('\r'))
            } else if x == 0x74 {
                esc(b, path, lp, hi, p + 2, acc2.push('\t'))
            } else if x == 0x22 {
                esc(b, path, lp, hi, p + 2, acc2.push('"'))
            } else if x == 0x5c {
                esc(b, path, lp, hi, p + 2, acc2.push('\\'))
            } else if x == 0x78 {
                if p + 4 > hi || !bnd(b, p + 4) {
                    err_in("invalid escape code"@, Span(p as u32, hi as u32), b, path, lp)
                } else {
                    match hex_number(b, p + 2, p + 4, 0xff) {
                        Some(v) => esc(b, path, lp, hi, p + 4, acc2.push((v as u32) as char)),
                        None => err_in(
                            "invalid escape code"@,
                            Span(p as u32, (p + 4) as u32),
                            b,
                            path,
                            lp,
                        ),
                    }
                }
            } else if x == 0x75 {
                if p + 2 >= hi || b[p + 2] != 0x7b {
                    err_in("invalid escape code"@, Span(p as u32, (p + 3) as u32), b, path, lp)
                } else {
                    let q = find_in(b, p + 3, hi, 0x7d);
                    proof {
                        lemma_find_in(b, p + 3, hi, 0x7d);
                    }
                    if q >= hi {
                        err_in("invalid escape code"@, Span(p as u32, hi as u32), b, path, lp)
                    } else {
                        match hex_number(b, p + 3, q, 0xffff_ffff) {
                            Some(v) => if scalar_ok(v) {
                                esc(b, path, lp, hi, q + 1, acc2.push((v as u32) as char))
                            } else {
                                err_in(
                                    "invalid escape code"@,
                                    Span(p as u32, q as u32),
                                    b,
                                    path,
                                    lp,
                                )
                            },
                            None => err_in(
                                "invalid escape code"@,
                                Span(p as u32, q as u32),
                                b,
                                path,
                                lp,
                            ),
                        }
                    }
                }
            } else {
                err_in(
                    unexpected_msg(char_text(b, p + 1), "escape code"@),
                    point(p),
                    b,
                    path,
                    lp,
                )
            }
        }
    }
}

/// The number of `\` bytes right before `e`, none of them before `lo`.
pub open spec fn bs_run(b: Seq<u8>, lo: int, e: int) -> nat
    decreases e - lo,
{
    if e <= lo || b[e - 1] != 0x5c {
        0
    } else {
        1 + bs_run(b, lo, e - 1)
    }
}

/// Where the string that starts at `k` ends: the first `"` after it that
/// follows an even number of `\` (each pair an escaped `\`, where an odd one
/// left over escapes the `"`); `None` where there is none.
pub open spec fn str_close(b: Seq<u8>, k: int) -> Option<int>
    decreases b.len() - k,
{
    let e = find_in(b, k + 1, b.len() as int, 0x22);
    if k < 0 || k >= b.len() || e >= b.len() {
        None
    } else if bs_run(b, k + 1, e) % 2 == 0 {
        Some(e)
    } else {
        proof {
            lemma_find_in(b, k + 1, b.len() as int, 0x22);
        }
        str_close(b, e)
    }
}

/// The number that starts at `i`: its base and where its digits start.
pub open spec fn nb_base(b: Seq<u8>, i: int) -> nat {
    if b[i] == 0x30 && i + 1 < b.len() && b[i + 1] == 0x62 {
        2
    } else if b[i] == 0x30 && i + 1 < b.len() && b[i + 1] == 0x78 {
        16
    } else {
        10
    }
}

/// A number token starting at `i`: decimal, or binary or hexadecimal after
/// `0b` or `0x`. A `_` that is not between two digits (also one right after
/// the prefix) is an error reported at the offset of that `_` itself, not at
/// an offset counted from the start of the token.
pub open spec fn lex_number(b: Seq<u8>, path: Seq<char>, lp: Seq<u32>, i: int) -> Lx {
    let base = nb_base(b, i);
    let lo = if base == 10 {
        i
    } else {
        i + 2
    };
    let j = scan(b, lo, base as int);
    let span = Span(i as u32, j as u32);
    match dashes(b, lo, lo, j) {
        Dashes::Bad(p) => Lx::Fail(err_in(unexpected_msg("_"@, ""@), point(p), b, path, lp)),
        Dashes::Fine => if j == lo || digits_val(b, lo, j, base) > u64::MAX {
            Lx::Fail(err_in("large number ("@ + text(b, lo, j) + ")"@, span, b, path, lp))
        } else {
            Lx::Tok(TokV { span, kind: Tk::Nb(digits_val(b, lo, j, base) as u64) }, j, lp)
        },
    }
}

pub open spec fn lex_string(b: Seq<u8>, path: Seq<char>, lp: Seq<u32>, i: int) -> Lx {
    match str_close(b, i) {
        None => Lx::Fail(err_in(end_msg("\""@), Span(0, 0), b, path, lp)),
        Some(e) => {
            let lp2 = lp + nl_positions(b, i, e);
            match esc(b, path, lp2, e, i + 1, Seq::empty()) {
                Res::Done(s) => Lx::Tok(
                    TokV { span: Span(i as u32, (e + 1) as u32), kind: Tk::Str(s) },
                    e + 1,
                    lp2,
                ),
                Res::Error(m, s) => Lx::Fail(Res::Error(m, s)),
                Res::Halt => Lx::Fail(Res::Halt),
            }
        },
    }
}

pub open spec fn lex_slash(b: Seq<u8>, path: Seq<char>, lp: Seq<u32>, i: int) -> Lx {
    if i + 1 < b.len() && b[i + 1] == 0x2f {
        Lx::Skip(find_in(b, i + 2, b.len() as int, 0x0a), lp)
    } else if i + 1 < b.len() && b[i + 1] == 0x2a {
        let q = find_close(b, i + 2);
        if q >= b.len() {
            Lx::Fail(err_in(end_msg("*/"@), Span(0, 0), b, path, lp))
        } else {
            Lx::Skip(q + 2, lp + nl_positions(b, i, q))
        }
    } else {
        Lx::Fail(err_in(unexpected_msg("/"@, ""@), point(i), b, path, lp))
    }
}

/// A token of one byte at `i`.
pub open spec fn single(i: int, k: Tk, lp: Seq<u32>) -> Lx {
    Lx::Tok(TokV { span: point(i), kind: k }, i + 1, lp)
}

/// One step of the tokenizer at offset `i` (before the end), the line feeds
/// found so far being `lp`.
#[verifier::opaque]
pub open spec fn lex_step(b: Seq<u8>, path: Seq<char>, lp: Seq<u32>, i: int) -> Lx {
    let x = b[i];
    if x == 0x20 || x == 0x09 || x == 0x0d {
        Lx::Skip(i + 1, lp)
    } else if x == 0x0a {
        single(i, Tk::NL, lp.push(i as u32))
    } else if is_letter(x) {
        let j = scan(b, i, 0);
        Lx::Tok(TokV { span: Span(i as u32, j as u32), kind: Tk::Ident(text(b, i, j)) }, j, lp)
    } else if is_digit(x) {
        lex_number(b, path, lp, i)
    } else if x == 0x2e {
        single(i, Tk::Dot, lp)
    } else if x == 0x2c {
        single(i, Tk::Comma, lp)
    } else if x == 0x3a {
        single(i, Tk::Colon, lp)
    } else if x == 0x2b {
        single(i, Tk::Plus, lp)
    } else if x == 0x2d {
        single(i, Tk::Minus, lp)
    } else if x == 0x3d {
        single(i, Tk::Eq, lp)
    } else if x == 0x28 {
        single(i, Tk::ParanOpen, lp)
    } else if x == 0x29 {
        single(i, Tk::ParanClose, lp)
    } else if x == 0x5b {
        single(i, Tk::BracketOpen, lp)
    } else if x == 0x5d {
        single(i, Tk::BracketClose, lp)
    } else if x == 0x22 {
        lex_string(b, path, lp, i)
    } else if x == 0x2f {
        lex_slash(b, path, lp, i)
    } else {
        Lx::Fail(err_in(unexpected_msg(char_text(b, i), ""@), point(i), b, path, lp))
    }
}

/// The tokens of the text `b` of file `path` from offset `i` on, after the
/// tokens `toks`, the line feeds found so far being `lp`; with the line feeds
/// found in all; or the first error.
pub open spec fn lex(b: Seq<u8>, path: Seq<char>, lp: Seq<u32>, i: int, toks: Seq<TokV>) -> Res<
    (Seq<TokV>, Seq<u32>),
>
    decreases b.len() - i,
{
    if i < 0 || i >= b.len() {
        Res::Done((toks.push(TokV { span: Span(0, 0), kind: Tk::Eof }), lp))
    } else {
        match lex_step(b, path, lp, i) {
            Lx::Tok(t, j, lp2) => if i < j <= b.len() {
                lex(b, path, lp2, j, toks.push(t))
            } else {
                Res::Halt
            },
            Lx::Skip(j, lp2) => if i < j <= b.len() {
                lex(b, path, lp2, j, toks)
            } else {
                Res::Halt
            },
            Lx::Fail(r) => match r {
                Res::Error(m, s) => Res::Error(m, s),
                _ => Res::Halt,
            },
        }
    }
}

} // verus!

verus! {

// ---------------------------------------------------------------------------
// Scanning bytes
// ---------------------------------------------------------------------------

fn in_class_x(x: u8, k: u8) -> (r: bool)
    ensures
        r == in_class(x, k as int),
{
    let letter = (0x61 <= x && x <= 0x7a) || (0x41 <= x && x <= 0x5a);
    let digit = 0x30 <= x && x <= 0x39;
    if k == 0 {
        letter || digit || x == 0x5f
    } else if k == 2 {
        x == 0x30 || x == 0x31 || x == 0x5f
    } else if k == 16 {
        digit || (0x61 <= x && x <= 0x66) || (0x41 <= x && x <= 0x46) || x == 0x5f
    } else {
        digit || x == 0x5f
    }
}

/// The end of the run of bytes of class `k` from `i`.
fn scan_x(b: &[u8], i: usize, k: u8) -> (r: usize)
    requires
        i <= b@.len(),
    ensures
        r == scan(b@, i as int, k as int),
        i <= r <= b@.len(),
        forall|m: int| i <= m < r ==> in_class(#[trigger] b@[m], k as int),
        r < b@.len() ==> !in_class(b@[r as int], k as int),
{
    let mut j = i;
    while j < b.len() && in_class_x(b[j], k)
        invariant
            i <= j <= b@.len(),
            scan(b@, j as int, k as int) == scan(b@, i as int, k as int),
            forall|m: int| i <= m < j ==> in_class(#[trigger] b@[m], k as int),
        decreases b@.len() - j,
    {
        j = j + 1;
    }
    j
}

/// The first index from `i` before `hi` holding `x`, or `hi`.
fn find_x(b: &[u8], i: usize, hi: usize, x: u8) -> (r: usize)
    requires
        i <= hi <= b@.len(),
    ensures
        r == find_in(b@, i as int, hi as int, x),
        i <= r <= hi,
{
    proof {
        lemma_find_in(b@, i as int, hi as int, x);
    }
    let mut j = i;
    while j < hi && b[j] != x
        invariant
            i <= j <= hi <= b@.len(),
            find_in(b@, j as int, hi as int, x) == find_in(b@, i as int, hi as int, x),
        decreases hi - j,
    {
        j = j + 1;
    }
    j
}

/// The first index from `i` that starts `*/`, or the length.
fn find_close_x(b: &[u8], i: usize) -> (r: usize)
    requires
        i <= b@.len(),
    ensures
        r == find_close(b@, i as int),
        r == b@.len() || (i <= r && r + 1 < b@.len() && b@[r as int] == 0x2a && b@[r + 1] == 0x2f),
{
    if b.len() == 0 {
        return 0;
    }
    let mut j = i;
    while j < b.len() - 1 && !(b[j] == 0x2a && b[j + 1] == 0x2f)
        invariant
            b@.len() > 0,
            i <= j <= b@.len(),
            find_close(b@, j as int) == find_close(b@, i as int),
        decreases b@.len() - j,
    {
        j = j + 1;
    }
    if b.len() > 0 && j < b.len() - 1 {
        j
    } else {
        b.len()
    }
}

/// The end of the character that starts at `i`.
pub(crate) fn char_end_x(b: &[u8], i: usize) -> (r: usize)
    requires
        i < b@.len(),
    ensures
        r == char_end(b@, i as int),
        i < r <= b@.len(),
        forall|p: int| i < p < r ==> is_cont(#[trigger] b@[p]),
{
    let mut j = i;
    while j < b.len() - 1 && 0x80 <= b[j + 1] && b[j + 1] <= 0xbf
        invariant
            i <= j < b@.len(),
            char_end(b@, j as int) == char_end(b@, i as int),
            forall|p: int| i < p <= j ==> is_cont(#[trigger] b@[p]),
        decreases b@.len() - j,
    {
        j = j + 1;
    }
    j + 1
}

pub proof fn lemma_char_end_bnd(b: Seq<u8>, i: int)
    requires
        0 <= i < b.len(),
    ensures
        bnd(b, char_end(b, i)),
        i < char_end(b, i) <= b.len(),
    decreases b.len() - i,
{
    if i + 1 < b.len() && is_cont(b[i + 1]) {
        lemma_char_end_bnd(b, i + 1);
    }
}

/// Appends to `lp` the offsets of the line feeds among the bytes `lo..hi`.
fn count_lines(b: &[u8], lo: usize, hi: usize, lp: &mut Vec<u32>)
    requires
        lo <= hi <= b@.len(),
    ensures
        final(lp)@ == old(lp)@ + nl_positions(b@, lo as int, hi as int),
{
    let ghost l0 = lp@;
    let mut i = lo;
    while i < hi
        invariant
            lo <= i <= hi <= b@.len(),
            lp@ == l0 + nl_positions(b@, lo as int, i as int),
        decreases hi - i,
    {
        if b[i] == 0x0a {
            lp.push(#[verifier::truncate] (i as u32));
        }
        i = i + 1;
        proof {
            assert(lp@ =~= l0 + nl_positions(b@, lo as int, i as int));
        }
    }
}

} // verus!

verus! {

// ---------------------------------------------------------------------------
// Errors of the tokenizer
// ---------------------------------------------------------------------------

/// The error for an unexpected token (the text `token`), and what was
/// expected if `expected` is not empty.
pub fn unexpected_token<T>(token: &str, expected: &str, span: Span, source: &Source) -> (r: Result<
    T,
    Fail,
>)
    ensures
        r matches Err(f) && fail_is(f, unexpected_msg(token@, expected@), span, source@),
{
    let mut m = String::new();
    m.append("unexpected token (");
    m.append(token);
    if expected.is_empty() {
        m.append(")");
        proof {
            assert(m@ =~= unexpected_msg(token@, expected@));
        }
    } else {
        m.append("), expected ");
        m.append(expected);
        proof {
            assert(m@ =~= unexpected_msg(token@, expected@));
        }
    }
    Err(fail(m, span, source))
}

/// The error for an unexpected end of input, and what was expected if
/// `expected` is not empty.
pub fn end_of_input<T>(expected: &str, source: &Source) -> (r: Result<T, Fail>)
    ensures
        r matches Err(f) && fail_is(f, end_msg(expected@), Span(0, 0), source@),
{
    let mut m = String::new();
    if expected.is_empty() {
        m.append("unexpected end of input");
        proof {
            assert(m@ =~= end_msg(expected@));
        }
    } else {
        m.append("unexpected end of input, expected ");
        m.append(expected);
        proof {
            assert(m@ =~= end_msg(expected@));
        }
    }
    Err(fail(m, Span::none(), source))
}

// ---------------------------------------------------------------------------
// Numbers
// ---------------------------------------------------------------------------

/// How the `_` separators of a number fare (see `dashes`).
enum DashCheck {
    Fine,
    Bad(usize),
}

/// Checks that each `_` among the digits `lo..hi` of a number stands
/// between two digits.
fn strip_dashes_in_nb(b: &[u8], lo: usize, hi: usize) -> (r: DashCheck)
    requires
        lo <= hi <= b@.len(),
    ensures
        match dashes(b@, lo as int, lo as int, hi as int) {
            Dashes::Fine => r is Fine,
            Dashes::Bad(p) => r matches DashCheck::Bad(q) && q == p && lo <= p < hi,
        },
{
    let mut p = lo;
    while p < hi
        invariant
            lo <= p <= hi <= b@.len(),
            dashes(b@, lo as int, p as int, hi as int) == dashes(
                b@,
                lo as int,
                lo as int,
                hi as int,
            ),
        decreases hi - p,
    {
        if b[p] == 0x5f {
            if p == lo || b[p - 1] == 0x5f {
                return DashCheck::Bad(p);
            }
            if p + 1 >= hi || b[p + 1] == 0x5f {
                return DashCheck::Bad(p);
            }
        }
        p = p + 1;
    }
    DashCheck::Fine
}

fn digit_value_x(x: u8) -> (r: u64)
    requires
        is_hex(x),
    ensures
        r == digit_value(x),
{
    if 0x30 <= x && x <= 0x39 {
        (x - 0x30) as u64
    } else if 0x61 <= x && x <= 0x66 {
        (x - 0x61 + 10) as u64
    } else {
        (x as u64) - 0x41 + 10
    }
}

proof fn lemma_digits_grow(b: Seq<u8>, lo: int, k: int, base: nat)
    requires
        lo <= k,
        base >= 1,
    ensures
        digits_val(b, lo, k, base) <= digits_val(b, lo, k + 1, base),
{
    let v = digits_val(b, lo, k, base);
    assert(v <= v * base) by (nonlinear_arith)
        requires
            base >= 1,
    ;
}

/// The value of the digits `lo..hi` in base `base` (the `_` skipped), or
/// `None` where it exceeds `max`.
fn parse_digits(b: &[u8], lo: usize, hi: usize, base: u64, max: u64) -> (r: Option<u64>)
    requires
        lo <= hi <= b@.len(),
        2 <= base <= 16,
        forall|m: int| lo <= m < hi ==> #[trigger] b@[m] == 0x5f || is_hex(b@[m]),
    ensures
        match r {
            Some(v) => v == digits_val(b@, lo as int, hi as int, base as nat) && v <= max,
            None => digits_val(b@, lo as int, hi as int, base as nat) > max,
        },
{
    let mut acc: u64 = 0;
    let mut k = lo;
    while k < hi
        invariant
            lo <= k <= hi <= b@.len(),
            2 <= base <= 16,
            acc == digits_val(b@, lo as int, k as int, base as nat),
            acc <= max,
            forall|m: int| lo <= m < hi ==> #[trigger] b@[m] == 0x5f || is_hex(b@[m]),
        decreases hi - k,
    {
        proof {
            lemma_digits_grow(b@, lo as int, k as int, base as nat);
        }
        if b[k] != 0x5f {
            let d = digit_value_x(b[k]);
            match acc.checked_mul(base) {
                Some(m) => match m.checked_add(d) {
                    Some(n) => {
                        if n > max {
                            proof {
                                lemma_digits_beyond(b@, lo as int, (k + 1) as int, hi as int, base as nat, max as nat);
                            }
                            return None;
                        }
                        acc = n;
                    },
                    None => {
                        proof {
                            lemma_digits_beyond(b@, lo as int, (k + 1) as int, hi as int, base as nat, max as nat);
                        }
                        return None;
                    },
                },
                None => {
                    proof {
                        assert(acc * base + digit_value(b@[k as int]) >= acc * base);
                        lemma_digits_beyond(b@, lo as int, (k + 1) as int, hi as int, base as nat, max as nat);
                    }
                    return None;
                },
            }
        }
        k = k + 1;
    }
    Some(acc)
}

proof fn lemma_digits_beyond(b: Seq<u8>, lo: int, k: int, hi: int, base: nat, max: nat)
    requires
        lo <= k <= hi,
        base >= 1,
        digits_val(b, lo, k, base) > max,
    ensures
        digits_val(b, lo, hi, base) > max,
    decreases hi - k,
{
    if k < hi {
        lemma_digits_grow(b, lo, k, base);
        lemma_digits_beyond(b, lo, k + 1, hi, base, max);
    }
}

/// The bytes `lo..hi`, hexadecimal digits, read as a number of at most `max`.
fn hex_number_x(b: &[u8], lo: usize, hi: usize, max: u64) -> (r: Option<u64>)
    requires
        lo <= hi <= b@.len(),
    ensures
        match hex_number(b@, lo as int, hi as int, max as nat) {
            Some(v) => r == Some(v as u64),
            None => r is None,
        },
{
    let d = lo;
    if d >= hi {
        return None;
    }
    let mut k = d;
    while k < hi
        invariant
            lo <= d <= k <= hi <= b@.len(),
            d == lo,
            forall|m: int| d <= m < k ==> is_hex(#[trigger] b@[m]),
        decreases hi - k,
    {
        let x = b[k];
        if !((0x30 <= x && x <= 0x39) || (0x61 <= x && x <= 0x66) || (0x41 <= x && x <= 0x46)) {
            proof {
                assert(!is_hex(b@[k as int]));
            }
            return None;
        }
        k = k + 1;
    }
    parse_digits(b, d, hi, 16, max)
}

} // verus!

verus! {

/// `r` is what the step `s` gives: a token and where to go on, the line
/// feeds left as `lp`; or its failure.
pub open spec fn tok_agrees(r: Result<(Token, usize), Fail>, s: Lx, lp: Seq<u32>) -> bool {
    match s {
        Lx::Tok(tv, j, lp2) => r matches Ok((t, k)) && t@ == tv && k == j && lp2 == lp,
        Lx::Skip(_, _) => false,
        Lx::Fail(e) => r matches Err(f) && same_fail(f, e),
    }
}

/// Reads the number that starts at `i`.
fn lex_nb<'a>(src: &'a str, i: usize, source: &Source) -> (r: Result<(Token<'a>, usize), Fail>)
    requires
        src.spec_bytes() == source.bytes(),
        i < src.spec_bytes().len() < u32::MAX,
        bnd(src.spec_bytes(), i as int),
        is_digit(src.spec_bytes()[i as int]),
    ensures
        tok_agrees(
            r,
            lex_number(source.bytes(), source.path@, source.line_poses@, i as int),
            source.line_poses@,
        ),
        r matches Ok((_, k)) ==> i < k <= src.spec_bytes().len() && bnd(src.spec_bytes(), k as int),
{
    let b = src.as_bytes();
    let ghost bs = b@;
    let (base, lo): (u64, usize) = if b[i] == 0x30 && i + 1 < b.len() && b[i + 1] == 0x62 {
        (2, i + 2)
    } else if b[i] == 0x30 && i + 1 < b.len() && b[i + 1] == 0x78 {
        (16, i + 2)
    } else {
        (10, i)
    };
    proof {
        if lo == i + 2 {
            lemma_ascii_next_bnd(bs, i + 2);
        }
    }
    let j = scan_x(b, lo, base as u8);
    proof {
        if j > lo {
            lemma_ascii_next_bnd(bs, j as int);
        }
    }
    let span = Span(i as u32, j as u32);
    match strip_dashes_in_nb(b, lo, j) {
        DashCheck::Bad(p) => unexpected_token("_", "", Span::point(p as u32), source),
        DashCheck::Fine => {
            let v = if j == lo {
                None
            } else {
                parse_digits(b, lo, j, base, u64::MAX)
            };
            match v {
                Some(v) => Ok((Token { span, kind: TokenKind::Nb(v) }, j)),
                None => {
                    let mut m = String::new();
                    m.append("large number (");
                    m.append(substr(src, lo, j));
                    m.append(")");
                    proof {
                        assert(m@ =~= "large number ("@ + text(bs, lo as int, j as int) + ")"@);
                    }
                    Err(fail(m, span, source))
                },
            }
        },
    }
}

} // verus!

verus! {

// ---------------------------------------------------------------------------
// Strings
// ---------------------------------------------------------------------------

/// `char::from_u32` of std: the character whose scalar value is `code`, or
/// `None` for a surrogate or a value above 0x10FFFF.
#[verifier::external_body]
fn char_from_u32(code: u32) -> (r: Option<char>)
    ensures
        r is Some <==> scalar_ok(code as nat),
        r matches Some(c) ==> c as u32 == code,
{
    char::from_u32(code)
}

/// `String::push` of std: appends the character `c`.
#[verifier::external_body]
pub(crate) fn push_char(s: &mut String, c: char)
    ensures
        final(s)@ == old(s)@.push(c),
{
    s.push(c)
}

/// `i` is a character boundary of the bytes `b`.
fn bnd_x(b: &[u8], i: usize) -> (r: bool)
    ensures
        r == bnd(b@, i as int),
{
    i == b.len() || (i < b.len() && !(0x80 <= b[i] && b[i] <= 0xbf))
}

/// The number of `\` bytes right before `e`, none of them before `lo`.
fn bs_run_x(b: &[u8], lo: usize, e: usize) -> (r: usize)
    requires
        lo <= e <= b@.len(),
    ensures
        r == bs_run(b@, lo as int, e as int),
{
    let mut j = e;
    while j > lo && b[j - 1] == 0x5c
        invariant
            lo <= j <= e <= b@.len(),
            bs_run(b@, lo as int, e as int) == (e - j) + bs_run(b@, lo as int, j as int),
        decreases j,
    {
        j = j - 1;
    }
    e - j
}

/// Where the string that starts at `i` ends (see `str_close`).
fn str_close_x(b: &[u8], i: usize) -> (r: Option<usize>)
    requires
        i < b@.len(),
        b@[i as int] == 0x22,
    ensures
        match str_close(b@, i as int) {
            None => r is None,
            Some(e) => r matches Some(x) && x == e && i < e < b@.len() && b@[e] == 0x22,
        },
{
    let n = b.len();
    let mut k = i;
    loop
        invariant
            n == b@.len(),
            i <= k < b@.len(),
            b@[k as int] == 0x22,
            str_close(b@, k as int) == str_close(b@, i as int),
        decreases b@.len() - k,
    {
        let e = find_x(b, k + 1, n, 0x22);
        proof {
            lemma_find_in(b@, k + 1, b@.len() as int, 0x22);
        }
        if e >= b.len() {
            return None;
        }
        if bs_run_x(b, k + 1, e) % 2 == 0 {
            return Some(e);
        }
        k = e;
    }
}

fn invalid_escape_code(lo: usize, hi: usize, source: &Source) -> (f: Fail)
    requires
        lo <= hi < u32::MAX,
    ensures
        fail_is(f, "invalid escape code"@, Span(lo as u32, hi as u32), source@),
{
    let mut m = String::new();
    m.append("invalid escape code");
    fail(m, Span(lo as u32, hi as u32), source)
}

/// One step of `resolve_escape_codes` from `cur`: appends to `acc` the text
/// up to the next escape code and what it stands for, and gives where to go
/// on; or appends the rest and gives `None`.
fn escape_step(src: &str, hi: usize, cur: usize, acc: &mut String, source: &Source) -> (r: Result<
    Option<usize>,
    Fail,
>)
    requires
        src.spec_bytes() == source.bytes(),
        cur <= hi <= src.spec_bytes().len(),
        src.spec_bytes().len() + 4 < u32::MAX,
        bnd(src.spec_bytes(), cur as int),
        bnd(src.spec_bytes(), hi as int),
    ensures
        match r {
            Ok(Some(next)) => cur < next <= hi && bnd(src.spec_bytes(), next as int) && esc(
                source.bytes(),
                source.path@,
                source.line_poses@,
                hi as int,
                cur as int,
                old(acc)@,
            ) == esc(
                source.bytes(),
                source.path@,
                source.line_poses@,
                hi as int,
                next as int,
                final(acc)@,
            ),
            Ok(None) => esc(
                source.bytes(),
                source.path@,
                source.line_poses@,
                hi as int,
                cur as int,
                old(acc)@,
            ) == Res::Done(final(acc)@),
            Err(f) => same_fail(
                f,
                esc(
                    source.bytes(),
                    source.path@,
                    source.line_poses@,
                    hi as int,
                    cur as int,
                    old(acc)@,
                ),
            ),
        },
{
    reveal(esc);
    let b = src.as_bytes();
    let ghost bs = b@;
    let p = find_x(b, cur, hi, 0x5c);
    proof {
        lemma_find_in(bs, cur as int, hi as int, 0x5c);
    }
    if p >= hi {
        acc.append(substr(src, cur, hi));
        return Ok(None);
    }
    acc.append(substr(src, cur, p));
    if p + 1 >= hi {
        return Err(Fail::Halt);
    }
    proof {
        lemma_ascii_next_bnd(bs, p + 1);
    }
    let x = b[p + 1];
    if x == 0x6e || x == 0x72 || x == 0x74 || x == 0x22 || x == 0x5c {
        let c = if x == 0x6e {
            '\n'
        } else if x == 0x72 {
            '\r'
        } else if x == 0x74 {
            '\t'
        } else if x == 0x22 {
            '"'
        } else {
            '\\'
        };
        push_char(acc, c);
        proof {
            lemma_ascii_next_bnd(bs, p + 2);
        }
        Ok(Some(p + 2))
    } else if x == 0x78 {
        if hi - p < 4 || !bnd_x(b, p + 4) {
            return Err(invalid_escape_code(p, hi, source));
        }
        match hex_number_x(b, p + 2, p + 4, 0xff) {
            Some(v) => match char_from_u32(v as u32) {
                Some(c) => {
                    proof {
                        vstd::utf8::char_u32_cast(c, v as u32);
                    }
                    push_char(acc, c);
                    Ok(Some(p + 4))
                },
                None => Err(invalid_escape_code(p, p + 4, source)),
            },
            None => Err(invalid_escape_code(p, p + 4, source)),
        }
    } else if x == 0x75 {
        if p + 2 >= hi || b[p + 2] != 0x7b {
            return Err(invalid_escape_code(p, p + 3, source));
        }
        let q = find_x(b, p + 3, hi, 0x7d);
        proof {
            lemma_find_in(bs, p + 3, hi as int, 0x7d);
        }
        if q >= hi {
            return Err(invalid_escape_code(p, hi, source));
        }
        match hex_number_x(b, p + 3, q, 0xffff_ffff) {
            Some(v) => match char_from_u32(v as u32) {
                Some(c) => {
                    proof {
                        vstd::utf8::char_u32_cast(c, v as u32);
                    }
                    push_char(acc, c);
                    proof {
                        lemma_ascii_next_bnd(bs, q + 1);
                    }
                    Ok(Some(q + 1))
                },
                None => Err(invalid_escape_code(p, q, source)),
            },
            None => Err(invalid_escape_code(p, q, source)),
        }
    } else {
        let e = char_end_x(b, p + 1);
        proof {
            lemma_char_end_bnd(bs, p + 1);
        }
        unexpected_token(substr(src, p + 1, e), "escape code", Span::point(p as u32), source)
    }
}

/// The content of the string whose bytes lie between `lo` and `hi`, the
/// escape codes replaced by what they stand for.
fn resolve_escape_codes(src: &str, lo: usize, hi: usize, source: &Source) -> (r: Result<String, Fail>)
    requires
        src.spec_bytes() == source.bytes(),
        lo <= hi <= src.spec_bytes().len(),
        src.spec_bytes().len() + 4 < u32::MAX,
        bnd(src.spec_bytes(), lo as int),
        bnd(src.spec_bytes(), hi as int),
    ensures
        match esc(source.bytes(), source.path@, source.line_poses@, hi as int, lo as int, Seq::empty()) {
            Res::Done(s) => r matches Ok(v) && v@ == s,
            other => r matches Err(f) && same_fail(f, other),
        },
{
    let ghost total = esc(source.bytes(), source.path@, source.line_poses@, hi as int, lo as int, Seq::empty());
    let mut acc = String::new();
    let mut cur = lo;
    loop
        invariant
            lo <= cur <= hi <= src.spec_bytes().len(),
            src.spec_bytes() == source.bytes(),
            src.spec_bytes().len() + 4 < u32::MAX,
            bnd(src.spec_bytes(), cur as int),
            bnd(src.spec_bytes(), hi as int),
            esc(source.bytes(), source.path@, source.line_poses@, hi as int, cur as int, acc@) == total,
            total == esc(source.bytes(), source.path@, source.line_poses@, hi as int, lo as int, Seq::empty()),
        decreases hi - cur,
    {
        match escape_step(src, hi, cur, &mut acc, source) {
            Ok(Some(next)) => {
                cur = next;
            },
            Ok(None) => {
                return Ok(acc);
            },
            Err(f) => {
                return Err(f);
            },
        }
    }
}

} // verus!

verus! {

/// Reads the string that starts at `i`, recording its line feeds.
fn lex_str<'a>(src: &'a str, i: usize, source: &mut Source) -> (r: Result<(Token<'a>, usize), Fail>)
    requires
        src.spec_bytes() == old(source).bytes(),
        i < src.spec_bytes().len(),
        src.spec_bytes().len() + 4 < u32::MAX,
        src.spec_bytes()[i as int] == 0x22,
    ensures
        final(source).src == old(source).src,
        final(source).path == old(source).path,
        tok_agrees(
            r,
            lex_string(old(source).bytes(), old(source).path@, old(source).line_poses@, i as int),
            final(source).line_poses@,
        ),
        r matches Ok((_, k)) ==> i < k <= src.spec_bytes().len() && bnd(src.spec_bytes(), k as int),
{
    let b = src.as_bytes();
    let ghost bs = b@;
    match str_close_x(b, i) {
        None => end_of_input("\"", source),
        Some(e) => {
            count_lines(b, i, e, &mut source.line_poses);
            proof {
                lemma_ascii_next_bnd(bs, i + 1);
                lemma_ascii_next_bnd(bs, e + 1);
            }
            match resolve_escape_codes(src, i + 1, e, source) {
                Ok(s) => Ok((Token { span: Span(i as u32, (e + 1) as u32), kind: TokenKind::Str(s) }, e + 1)),
                Err(f) => Err(f),
            }
        },
    }
}

/// A token of one byte at `i`.
fn single_tok<'a>(i: usize, kind: TokenKind<'a>) -> (r: Result<(Option<Token<'a>>, usize), Fail>)
    requires
        i + 1 < u32::MAX,
    ensures
        r matches Ok((Some(t), k)) && t@ == (TokV { span: point(i as int), kind: kind@ }) && k == i + 1,
{
    Ok((Some(Token { span: Span::point(i as u32), kind }), i + 1))
}

/// One step of the tokenizer at offset `i`: a token or nothing, and where to
/// go on; or a failure.
fn lex_one<'a>(src: &'a str, i: usize, source: &mut Source) -> (r: Result<(Option<Token<'a>>, usize), Fail>)
    requires
        src.spec_bytes() == old(source).bytes(),
        i < src.spec_bytes().len(),
        src.spec_bytes().len() + 4 < u32::MAX,
        bnd(src.spec_bytes(), i as int),
    ensures
        final(source).src == old(source).src,
        final(source).path == old(source).path,
        match lex_step(old(source).bytes(), old(source).path@, old(source).line_poses@, i as int) {
            Lx::Tok(tv, j, lp2) => r matches Ok((Some(t), k)) && t@ == tv && k == j
                && final(source).line_poses@ == lp2,
            Lx::Skip(j, lp2) => r matches Ok((None, k)) && k == j && final(source).line_poses@ == lp2,
            Lx::Fail(e) => r matches Err(f) && same_fail(f, e),
        },
        r matches Ok((_, k)) ==> i < k <= src.spec_bytes().len() && bnd(src.spec_bytes(), k as int),
{
    reveal(lex_step);
    let b = src.as_bytes();
    let ghost bs = b@;
    let x = b[i];
    proof {
        if x < 0x80 {
            lemma_ascii_next_bnd(bs, i + 1);
        }
    }
    if x == 0x20 || x == 0x09 || x == 0x0d {
        Ok((None, i + 1))
    } else if x == 0x0a {
        source.line_poses.push(i as u32);
        single_tok(i, TokenKind::NL)
    } else if (0x61 <= x && x <= 0x7a) || (0x41 <= x && x <= 0x5a) {
        let j = scan_x(b, i, 0);
        proof {
            assert(in_class(bs[i as int], 0));
            assert(j > i);
            assert(in_class(bs[j - 1], 0));
            lemma_ascii_next_bnd(bs, j as int);
        }
        Ok((Some(Token { span: Span(i as u32, j as u32), kind: TokenKind::Ident(substr(src, i, j)) }), j))
    } else if 0x30 <= x && x <= 0x39 {
        match lex_nb(src, i, source) {
            Ok((t, j)) => {
                proof {
                    reveal(lex_number);
                }
                Ok((Some(t), j))
            },
            Err(f) => Err(f),
        }
    } else if x == 0x2e {
        single_tok(i, TokenKind::Dot)
    } else if x == 0x2c {
        single_tok(i, TokenKind::Comma)
    } else if x == 0x3a {
        single_tok(i, TokenKind::Colon)
    } else if x == 0x2b {
        single_tok(i, TokenKind::Plus)
    } else if x == 0x2d {
        single_tok(i, TokenKind::Minus)
    } else if x == 0x3d {
        single_tok(i, TokenKind::Eq)
    } else if x == 0x28 {
        single_tok(i, TokenKind::ParanOpen)
    } else if x == 0x29 {
        single_tok(i, TokenKind::ParanClose)
    } else if x == 0x5b {
        single_tok(i, TokenKind::BracketOpen)
    } else if x == 0x5d {
        single_tok(i, TokenKind::BracketClose)
    } else if x == 0x22 {
        match lex_str(src, i, source) {
            Ok((t, j)) => Ok((Some(t), j)),
            Err(f) => Err(f),
        }
    } else if x == 0x2f {
        if i + 1 < b.len() && b[i + 1] == 0x2f {
            let j = find_x(b, i + 2, b.len(), 0x0a);
            proof {
                lemma_find_in(bs, i + 2, bs.len() as int, 0x0a);
            }
            Ok((None, j))
        } else if i + 1 < b.len() && b[i + 1] == 0x2a {
            let q = find_close_x(b, i + 2);
            if q >= b.len() {
                end_of_input("*/", source)
            } else {
                count_lines(b, i, q, &mut source.line_poses);
                proof {
                    lemma_ascii_next_bnd(bs, q + 2);
                }
                Ok((None, q + 2))
            }
        } else {
            unexpected_token("/", "", Span::point(i as u32), source)
        }
    } else {
        let e = char_end_x(b, i);
        proof {
            lemma_char_end_bnd(bs, i as int);
        }
        unexpected_token(substr(src, i, e), "", Span::point(i as u32), source)
    }
}

} // verus!

verus! {

/// The source is small enough for its offsets to fit the 32-bit spans.
pub open spec fn fits_spans(b: Seq<u8>) -> bool {
    b.len() + 4 < u32::MAX
}

/// The tokens of the source, ending with an end-of-input token; the line
/// feeds found are added to the source's list.
pub fn tokenize<'a>(source: &mut Source<'a>) -> (r: Result<Vec<Token<'a>>, Fail>)
    requires
        fits_spans(old(source).bytes()),
    ensures
        final(source).src == old(source).src,
        final(source).path == old(source).path,
        match lex(old(source).bytes(), old(source).path@, old(source).line_poses@, 0, Seq::empty()) {
            Res::Done((toks, lp)) => r matches Ok(v) && toks_view(v@) == toks
                && final(source).line_poses@ == lp,
            other => r matches Err(f) && same_fail(f, other),
        },
{
    let ghost total = lex(source.bytes(), source.path@, source.line_poses@, 0, Seq::empty());
    let ghost src0 = source.src;
    let ghost path0 = source.path;
    let src: &'a str = source.src;
    let b = src.as_bytes();
    let ghost bs = b@;
    let mut tokens: Vec<Token<'a>> = Vec::new();
    let mut ind: usize = 0;
    let mut failed: Option<Fail> = None;
    proof {
        assert(toks_view(tokens@) =~= Seq::<TokV>::empty());
    }
    while ind < b.len()
        invariant_except_break
            failed is None,
            bnd(bs, ind as int),
            lex(bs, path0@, source.line_poses@, ind as int, toks_view(tokens@)) == total,
        invariant
            b@ == bs,
            src.spec_bytes() == bs,
            source.src == src0,
            source.path == path0,
            source.bytes() == bs,
            fits_spans(bs),
            ind <= bs.len(),
        ensures
            failed matches Some(f) ==> same_fail(f, total),
            failed is None ==> ind == bs.len() && lex(bs, path0@, source.line_poses@, ind as int, toks_view(tokens@)) == total,
        decreases bs.len() - ind,
    {
        let ghost lp = source.line_poses@;
        let ghost tv = toks_view(tokens@);
        match lex_one(src, ind, source) {
            Ok((Some(t), j)) => {
                tokens.push(t);
                proof {
                    assert(toks_view(tokens@) =~= tv.push(t@));
                }
                ind = j;
            },
            Ok((None, j)) => {
                ind = j;
            },
            Err(f) => {
                failed = Some(f);
                break;
            },
        }
    }
    if let Some(f) = failed {
        return Err(f);
    }
    let ghost tv = toks_view(tokens@);
    tokens.push(Token { span: Span::none(), kind: TokenKind::Eof });
    proof {
        assert(toks_view(tokens@) =~= tv.push(TokV { span: Span(0, 0), kind: Tk::Eof }));
    }
    Ok(tokens)
}

} // verus!

verus! {

/// The text of a symbol token.
pub open spec fn symbol_text(k: Tk) -> Seq<char> {
    match k {
        Tk::NL => "\\n"@,
        Tk::Dot => "."@,
        Tk::Comma => ","@,
        Tk::Colon => ":"@,
        Tk::Plus => "+"@,
        Tk::Minus => "-"@,
        Tk::Eq => "="@,
        Tk::ParanOpen => "("@,
        Tk::ParanClose => ")"@,
        Tk::BracketOpen => "["@,
        Tk::BracketClose => "]"@,
        Tk::Eof => "EOF"@,
        _ => Seq::empty(),
    }
}

/// A token kind that stands for itself: neither an identifier, a string nor
/// a number.
pub open spec fn is_symbol(k: Tk) -> bool {
    !(k is Ident || k is Str || k is Nb)
}

/// How a token of kind `k` read from `span` is shown in messages: an
/// identifier by its name, a string or a number by its source text, a symbol
/// by its text.
pub open spec fn display_text(k: Tk, span: Span, source: SrcV) -> Seq<char> {
    match k {
        Tk::Ident(s) => s,
        Tk::Str(_) => span_text(source, span)->0,
        Tk::Nb(_) => span_text(source, span)->0,
        _ => symbol_text(k),
    }
}

/// The text of a span can be shown where it lies on character boundaries.
pub open spec fn can_display(k: Tk, span: Span, source: SrcV) -> bool {
    (k is Str || k is Nb) ==> span_text(source, span) is Some
}

impl<'a> TokenKind<'a> {
    /// The text of a symbol token.
    pub fn symbol_fmt(&self) -> (r: &'static str)
        requires
            is_symbol(self@),
        ensures
            r@ == symbol_text(self@),
    {
        match self {
            TokenKind::NL => "\\n",
            TokenKind::Dot => ".",
            TokenKind::Comma => ",",
            TokenKind::Colon => ":",
            TokenKind::Plus => "+",
            TokenKind::Minus => "-",
            TokenKind::Eq => "=",
            TokenKind::ParanOpen => "(",
            TokenKind::ParanClose => ")",
            TokenKind::BracketOpen => "[",
            TokenKind::BracketClose => "]",
            TokenKind::Eof => "EOF",
            _ => "",
        }
    }

    /// How the token is shown in messages.
    pub fn display(&self, span: Span, source: &Source<'a>) -> (r: &'a str)
        requires
            can_display(self@, span, source@),
        ensures
            r@ == display_text(self@, span, source@),
    {
        match self {
            TokenKind::Ident(ident) => *ident,
            TokenKind::Str(_) => source.source_of(span),
            TokenKind::Nb(_) => source.source_of(span),
            _ => self.symbol_fmt(),
        }
    }
}

impl<'a> Token<'a> {
    /// How the token is shown in messages.
    pub fn display(&self, source: &Source<'a>) -> (r: &'a str)
        requires
            can_display(self.kind@, self.span, source@),
        ensures
            r@ == display_text(self.kind@, self.span, source@),
    {
        self.kind.display(self.span, source)
    }
}

} // verus!

verus! {

// ---------------------------------------------------------------------------
// Laws of the tokenizer
// ---------------------------------------------------------------------------

proof fn lemma_nl_concat(b: Seq<u8>, i: int, j: int, k: int)
    requires
        i <= j <= k,
    ensures
        nl_positions(b, i, k) == nl_positions(b, i, j) + nl_positions(b, j, k),
    decreases k - j,
{
    if j < k {
        lemma_nl_concat(b, i, j, k - 1);
        assert(nl_positions(b, i, k) =~= nl_positions(b, i, j) + nl_positions(b, j, k));
    } else {
        assert(nl_positions(b, j, k) =~= Seq::<u32>::empty());
        assert(nl_positions(b, i, k) =~= nl_positions(b, i, j) + nl_positions(b, j, k));
    }
}

proof fn lemma_nl_none(b: Seq<u8>, i: int, j: int)
    requires
        forall|p: int| i <= p < j ==> b[p] != 0x0a,
    ensures
        nl_positions(b, i, j) == Seq::<u32>::empty(),
    decreases j - i,
{
    if i < j {
        lemma_nl_none(b, i, j - 1);
        assert(nl_positions(b, i, j) =~= Seq::<u32>::empty());
    }
}

proof fn lemma_scan(b: Seq<u8>, i: int, k: int)
    requires
        0 <= i <= b.len(),
    ensures
        i <= scan(b, i, k) <= b.len(),
        forall|p: int| i <= p < scan(b, i, k) ==> in_class(#[trigger] b[p], k),
    decreases b.len() - i,
{
    if i < b.len() && in_class(b[i], k) {
        lemma_scan(b, i + 1, k);
    }
}

proof fn lemma_step_nl(b: Seq<u8>, path: Seq<char>, lp: Seq<u32>, i: int)
    requires
        0 <= i < b.len(),
    ensures
        match lex_step(b, path, lp, i) {
            Lx::Tok(_, j, lp2) => i < j <= b.len() ==> lp2 == lp + nl_positions(b, i, j),
            Lx::Skip(j, lp2) => i < j <= b.len() ==> lp2 == lp + nl_positions(b, i, j),
            Lx::Fail(_) => true,
        },
{
    reveal(lex_step);
    let x = b[i];
    if x == 0x0a {
        assert(nl_positions(b, i, i) =~= Seq::<u32>::empty());
        assert(nl_positions(b, i, i + 1) =~= seq![i as u32]);
    } else if is_letter(x) {
        lemma_scan(b, i, 0);
        lemma_nl_none(b, i, scan(b, i, 0));
    } else if is_digit(x) {
        let base = nb_base(b, i);
        let lo = if base == 10 { i } else { i + 2 };
        lemma_scan(b, lo, base as int);
        lemma_nl_none(b, i, scan(b, lo, base as int));
    } else if x == 0x22 {
        match str_close(b, i) {
            Some(e) => {
                lemma_str_close(b, i);
                lemma_nl_concat(b, i, e, e + 1);
                lemma_nl_none(b, e, e + 1);
            },
            _ => {},
        }
    } else if x == 0x2f {
        if i + 1 < b.len() && b[i + 1] == 0x2f {
            lemma_find_in(b, i + 2, b.len() as int, 0x0a);
            lemma_nl_none(b, i, find_in(b, i + 2, b.len() as int, 0x0a));
        } else if i + 1 < b.len() && b[i + 1] == 0x2a {
            let q = find_close(b, i + 2);
            if q < b.len() {
                lemma_find_close(b, i + 2);
                lemma_nl_concat(b, i, q, q + 2);
                lemma_nl_none(b, q, q + 2);
            }
        }
    } else {
        lemma_nl_none(b, i, i + 1);
    }
}

proof fn lemma_str_close(b: Seq<u8>, k: int)
    requires
        0 <= k < b.len(),
    ensures
        str_close(b, k) matches Some(e) ==> k < e < b.len() && b[e] == 0x22,
    decreases b.len() - k,
{
    let e = find_in(b, k + 1, b.len() as int, 0x22);
    lemma_find_in(b, k + 1, b.len() as int, 0x22);
    if e < b.len() && bs_run(b, k + 1, e) % 2 != 0 {
        lemma_str_close(b, e);
    }
}

proof fn lemma_find_close(b: Seq<u8>, i: int)
    requires
        0 <= i <= b.len(),
    ensures
        find_close(b, i) < b.len() ==> i <= find_close(b, i) && find_close(b, i) + 1 < b.len()
            && b[find_close(b, i)] == 0x2a && b[find_close(b, i) + 1] == 0x2f,
    decreases b.len() - i,
{
    if i + 1 < b.len() && !(b[i] == 0x2a && b[i + 1] == 0x2f) {
        lemma_find_close(b, i + 1);
    }
}

proof fn lemma_lex_nl(b: Seq<u8>, path: Seq<char>, lp: Seq<u32>, i: int, toks: Seq<TokV>)
    requires
        0 <= i <= b.len(),
    ensures
        lex(b, path, lp, i, toks) matches Res::Done((_, lp2)) ==> lp2 == lp + nl_positions(b, i, b.len() as int),
    decreases b.len() - i,
{
    if i >= b.len() {
        assert(nl_positions(b, i, b.len() as int) =~= Seq::<u32>::empty());
        assert(lp + nl_positions(b, i, b.len() as int) =~= lp);
    } else {
        lemma_step_nl(b, path, lp, i);
        match lex_step(b, path, lp, i) {
            Lx::Tok(t, j, lp2) => {
                if i < j <= b.len() {
                    lemma_lex_nl(b, path, lp2, j, toks.push(t));
                    lemma_nl_concat(b, i, j, b.len() as int);
                    assert(lp2 + nl_positions(b, j, b.len() as int) =~= lp + nl_positions(b, i, b.len() as int));
                }
            },
            Lx::Skip(j, lp2) => {
                if i < j <= b.len() {
                    lemma_lex_nl(b, path, lp2, j, toks);
                    lemma_nl_concat(b, i, j, b.len() as int);
                    assert(lp2 + nl_positions(b, j, b.len() as int) =~= lp + nl_positions(b, i, b.len() as int));
                }
            },
            _ => {},
        }
    }
}

/// Tokenizing records every line feed of the source, in order: the line
/// feeds found are exactly the offsets of the line feed bytes of the text
/// (inside strings and comments too), after those recorded before.
pub proof fn law_line_feeds(b: Seq<u8>, path: Seq<char>, lp: Seq<u32>)
    ensures
        lex(b, path, lp, 0, Seq::empty()) matches Res::Done((_, lp2)) ==> lp2 == lp + nl_positions(
            b,
            0,
            b.len() as int,
        ),
{
    lemma_lex_nl(b, path, lp, 0, Seq::empty());
}

/// A string constant without a backslash stands for its text as it is.
pub proof fn law_plain_string(b: Seq<u8>, path: Seq<char>, lp: Seq<u32>, lo: int, hi: int)
    requires
        0 <= lo <= hi <= b.len(),
        forall|p: int| lo <= p < hi ==> b[p] != 0x5c,
    ensures
        esc(b, path, lp, hi, lo, Seq::empty()) == Res::Done(text(b, lo, hi)),
{
    reveal(esc);
    lemma_find_in(b, lo, hi, 0x5c);
    assert(Seq::<char>::empty() + text(b, lo, hi) =~= text(b, lo, hi));
}

/// Whitespace only separates tokens: a space, tab or carriage return gives
/// no token and no error, and tokenizing from it gives what tokenizing from
/// the next byte gives.
pub proof fn law_whitespace(b: Seq<u8>, path: Seq<char>, lp: Seq<u32>, i: int, toks: Seq<TokV>)
    requires
        0 <= i < b.len(),
        b[i] == 0x20 || b[i] == 0x09 || b[i] == 0x0d,
    ensures
        lex(b, path, lp, i, toks) == lex(b, path, lp, i + 1, toks),
{
    reveal(lex_step);
}

/// A line comment is ignored: tokenizing from its `//` gives what
/// tokenizing from the line feed that ends it (or from the end of the text)
/// gives; that line feed still separates lines.
pub proof fn law_line_comment(b: Seq<u8>, path: Seq<char>, lp: Seq<u32>, i: int, toks: Seq<TokV>)
    requires
        0 <= i,
        i + 1 < b.len(),
        b[i] == 0x2f,
        b[i + 1] == 0x2f,
    ensures
        lex(b, path, lp, i, toks) == lex(b, path, lp, find_in(b, i + 2, b.len() as int, 0x0a), toks),
{
    reveal(lex_step);
    lemma_find_in(b, i + 2, b.len() as int, 0x0a);
}

/// A closed block comment is ignored: tokenizing from its `/*` gives what
/// tokenizing after its `*/` gives, with the line feeds inside it recorded.
pub proof fn law_block_comment(b: Seq<u8>, path: Seq<char>, lp: Seq<u32>, i: int, toks: Seq<TokV>)
    requires
        0 <= i,
        i + 1 < b.len(),
        b[i] == 0x2f,
        b[i + 1] == 0x2a,
        find_close(b, i + 2) < b.len(),
    ensures
        lex(b, path, lp, i, toks) == lex(
            b,
            path,
            lp + nl_positions(b, i, find_close(b, i + 2)),
            find_close(b, i + 2) + 2,
            toks,
        ),
{
    reveal(lex_step);
    lemma_find_close(b, i + 2);
}

} // verus!
