use vstd::prelude::*;
use vstd::utf8::*;
use vstd::string::*;
use vstd::arithmetic::power2::*;
use vstd::bits::*;
use crate::tokenizer::{Source, SrcV, Span, span_pos_in, span_text};

verus! {

broadcast use vstd::utf8::encode_utf8_valid_utf8, vstd::utf8::encode_utf8_decode_utf8;

// ---------------------------------------------------------------------------
// Bit fields
// ---------------------------------------------------------------------------

/// Bit `i` of `x`.
pub open spec fn bit_of(x: u32, i: u32) -> bool {
    (x >> i) & 1u32 == 1u32
}

/// Replaces the `len` bits of `value` starting at bit `offset` by the low
/// `len` bits of `src`; bits that would land above bit 31 are dropped.
pub fn bit_insert(value: u32, src: u32, offset: u8, len: u8) -> (r: u32)
    requires
        offset < 32,
        len < 32,
    ensures
        forall|i: u32|
            i < 32 ==> #[trigger] bit_of(r, i) == if offset <= i < offset + len {
                bit_of(src, (i - offset) as u32)
            } else {
                bit_of(value, i)
            },
        offset + len <= 32 && (value as int) < pow2(offset as nat) ==> r == value + (src as int
            % pow2(len as nat) as int) * pow2(offset as nat),
{
    let off: u32 = offset as u32;
    let l: u32 = len as u32;
    assert(1u32 << l >= 1) by (bit_vector)
        requires
            l < 32,
    ;
    let mask: u32 = (1u32 << l) - 1;
    let r = (value & !(mask << off)) | ((src & mask) << off);
    assert forall|i: u32| i < 32 implies #[trigger] bit_of(r, i) == if off <= i < off + l {
        bit_of(src, (i - off) as u32)
    } else {
        bit_of(value, i)
    } by {
        if off <= i && i < off + l {
            assert(((r >> i) & 1u32 == 1u32) == (((src >> ((i - off) as u32)) & 1u32) == 1u32))
                by (bit_vector)
                requires
                    mask == (((1u32 << l) - 1) as u32),
                    r == (value & !(mask << off)) | ((src & mask) << off),
                    off < 32,
                    l < 32,
                    i < 32,
                    off <= i,
                    i < off + l,
            ;
        } else {
            assert(((r >> i) & 1u32 == 1u32) == (((value >> i) & 1u32) == 1u32)) by (bit_vector)
                requires
                    mask == (((1u32 << l) - 1) as u32),
                    r == (value & !(mask << off)) | ((src & mask) << off),
                    off < 32,
                    l < 32,
                    i < 32,
                    !(off <= i && i < off + l),
            ;
        }
    }
    proof {
        if offset + len <= 32 && (value as int) < pow2(offset as nat) {
            lemma_bit_insert_fresh(value, src, off, l, mask, r);
        }
    }
    r
}

proof fn lemma_bit_insert_fresh(value: u32, src: u32, off: u32, l: u32, mask: u32, r: u32)
    requires
        off < 32,
        l < 32,
        off + l <= 32,
        mask == (((1u32 << l) - 1) as u32),
        r == (value & !(mask << off)) | ((src & mask) << off),
        (value as int) < pow2(off as nat),
    ensures
        r == value + (src as int % pow2(l as nat) as int) * pow2(off as nat),
{
    lemma_u32_pow2_no_overflow(off as nat);
    lemma_u32_pow2_no_overflow(l as nat);
    lemma_u32_shl_is_mul(1u32, off);
    lemma_u32_shl_is_mul(1u32, l);
    assert(mask == low_bits_mask(l as nat));
    lemma_u32_low_bits_mask_is_mod(src, l as nat);
    let f = src & mask;
    assert(f == src % (pow2(l as nat) as u32));
    lemma_pow2_pos(l as nat);
    lemma_pow2_pos(off as nat);
    assert(f < pow2(l as nat));
    lemma_pow2_adds(l as nat, off as nat);
    lemma2_to64();
    if l + off < 32 {
        lemma_pow2_strictly_increases((l + off) as nat, 32);
    }
    let pl = pow2(l as nat);
    let po = pow2(off as nat);
    assert(f * po < pl * po) by (nonlinear_arith)
        requires
            f < pl,
            po > 0,
    ;
    assert(f * po <= u32::MAX);
    lemma_u32_shl_is_mul(f, off);
    assert(r == value + (f << off)) by (bit_vector)
        requires
            off < 32,
            value < (1u32 << off),
            f == src & mask,
            r == (value & !(mask << off)) | ((src & mask) << off),
    ;
}

// ---------------------------------------------------------------------------
// UTF-8 text: byte offsets into a `str`
// ---------------------------------------------------------------------------

/// A UTF-8 continuation byte (`10xxxxxx`).
pub open spec fn is_cont(b: u8) -> bool {
    0x80 <= b && b <= 0xbf
}

/// `i` is a character boundary of the UTF-8 bytes `b`.
pub open spec fn bnd(b: Seq<u8>, i: int) -> bool {
    i == b.len() || (0 <= i < b.len() && !is_cont(b[i]))
}

/// The characters encoded by the bytes `lo..hi` of `b`.
pub open spec fn text(b: Seq<u8>, lo: int, hi: int) -> Seq<char> {
    decode_utf8(b.subrange(lo, hi))
}

/// The boundary test of vstd agrees with `bnd` on valid UTF-8.
pub proof fn lemma_bnd_is_char_boundary(b: Seq<u8>, i: int)
    requires
        valid_utf8(b),
        bnd(b, i),
    ensures
        is_char_boundary(b, i),
{
    if i == b.len() {
        is_char_boundary_start_end_of_seq(b);
    } else {
        is_char_boundary_iff_not_is_continuation_byte(b, i);
    }
}

/// The byte after an ASCII byte starts a character.
pub proof fn lemma_ascii_next_bnd(b: Seq<u8>, j: int)
    requires
        valid_utf8(b),
        1 <= j <= b.len(),
        b[j - 1] < 0x80,
    ensures
        bnd(b, j),
{
    if j < b.len() {
        is_char_boundary_iff_not_is_continuation_byte(b, j - 1);
        valid_utf8_split(b, j - 1);
        let s = b.subrange(j - 1, b.len() as int);
        assert(valid_first_scalar(s));
        assert(pop_first_scalar(s) =~= b.subrange(j, b.len() as int));
        let t = b.subrange(j, b.len() as int);
        assert(valid_utf8(t));
        assert(t.len() > 0);
        assert(valid_first_scalar(t));
        assert(t[0] == b[j]);
    }
}

/// An ASCII byte at a boundary encodes that character alone.
pub proof fn lemma_ascii_text(b: Seq<u8>, i: int)
    requires
        valid_utf8(b),
        0 <= i < b.len(),
        b[i] < 0x80,
    ensures
        text(b, i, i + 1) == seq![b[i] as char],
        bnd(b, i + 1),
{
    lemma_ascii_next_bnd(b, i + 1);
    let s = b.subrange(i, i + 1);
    assert(s.len() == 1 && s[0] == b[i]);
    assert(valid_first_scalar(s));
    assert(pop_first_scalar(s) =~= Seq::<u8>::empty());
    assert(valid_utf8(Seq::<u8>::empty()));
    assert(decode_utf8(Seq::<u8>::empty()) =~= Seq::<char>::empty());
    assert(valid_utf8(s));
    let c = b[i];
    assert((c & 0x7f) == c) by (bit_vector)
        requires
            c < 0x80,
    ;
    assert(decode_utf8(s) =~= seq![b[i] as char]);
}

/// The text of `lo..hi` is that of `lo..m` followed by that of `m..hi`.
pub proof fn lemma_text_split(b: Seq<u8>, lo: int, m: int, hi: int)
    requires
        valid_utf8(b),
        0 <= lo <= m <= hi <= b.len(),
        bnd(b, lo),
        bnd(b, m),
        bnd(b, hi),
    ensures
        text(b, lo, hi) == text(b, lo, m) + text(b, m, hi),
{
    lemma_bnd_is_char_boundary(b, hi);
    valid_utf8_split(b, hi);
    let a = b.subrange(0, hi);
    assert(a.len() == hi);
    if lo < hi {
        assert(a[lo] == b[lo]);
    }
    lemma_bnd_is_char_boundary(a, lo);
    valid_utf8_split(a, lo);
    let sub = a.subrange(lo, hi);
    assert(sub =~= b.subrange(lo, hi));
    if m < hi {
        assert(sub[m - lo] == b[m]);
    }
    lemma_bnd_is_char_boundary(sub, m - lo);
    decode_utf8_split(sub, m - lo);
    assert(sub.subrange(0, m - lo) =~= b.subrange(lo, m));
    assert(sub.subrange(m - lo, sub.len() as int) =~= b.subrange(m, hi));
}

/// The part `lo..hi` (byte offsets) of `s`.
pub fn substr<'a>(s: &'a str, lo: usize, hi: usize) -> (r: &'a str)
    requires
        lo <= hi <= s.spec_bytes().len(),
        bnd(s.spec_bytes(), lo as int),
        bnd(s.spec_bytes(), hi as int),
    ensures
        r@ == text(s.spec_bytes(), lo as int, hi as int),
        r.spec_bytes() == s.spec_bytes().subrange(lo as int, hi as int),
{
    let ghost b = s.spec_bytes();
    proof {
        lemma_bnd_is_char_boundary(b, hi as int);
    }
    let (a, _) = s.split_at(hi);
    proof {
        valid_utf8_split(b, hi as int);
        let ab = a.spec_bytes();
        assert(ab =~= b.subrange(0, hi as int));
        if (lo as int) < (hi as int) {
            assert(ab[lo as int] == b[lo as int]);
        }
        lemma_bnd_is_char_boundary(ab, lo as int);
    }
    let (_, c) = a.split_at(lo);
    proof {
        assert(c.spec_bytes() =~= b.subrange(lo as int, hi as int));
        assert(decode_utf8(encode_utf8(c@)) == c@);
    }
    c
}

/// The number of characters of the part `lo..hi` of `s`.
pub fn char_count(s: &str, lo: usize, hi: usize) -> (r: usize)
    requires
        lo <= hi <= s.spec_bytes().len(),
        bnd(s.spec_bytes(), lo as int),
        bnd(s.spec_bytes(), hi as int),
    ensures
        r == text(s.spec_bytes(), lo as int, hi as int).len(),
{
    let part = substr(s, lo, hi);
    part.unicode_len()
}

/// Equality of two strings.
pub fn str_eq(a: &str, b: &str) -> (r: bool)
    ensures
        r == (a@ == b@),
{
    let x = a.as_bytes();
    let y = b.as_bytes();
    proof {
        assert(decode_utf8(encode_utf8(a@)) == a@);
        assert(decode_utf8(encode_utf8(b@)) == b@);
    }
    if x.len() != y.len() {
        return false;
    }
    let mut i: usize = 0;
    while i < x.len()
        invariant
            x@ == a.spec_bytes(),
            y@ == b.spec_bytes(),
            x@.len() == y@.len(),
            i <= x@.len(),
            forall|j: int| 0 <= j < i ==> x@[j] == y@[j],
        decreases x@.len() - i,
    {
        if x[i] != y[i] {
            return false;
        }
        i = i + 1;
    }
    proof {
        assert(x@ =~= y@);
    }
    true
}

// ---------------------------------------------------------------------------
// Decimal numbers
// ---------------------------------------------------------------------------

/// The decimal digit for `d < 10`.
pub open spec fn digit_char(d: nat) -> char {
    if d == 0 {
        '0'
    } else if d == 1 {
        '1'
    } else if d == 2 {
        '2'
    } else if d == 3 {
        '3'
    } else if d == 4 {
        '4'
    } else if d == 5 {
        '5'
    } else if d == 6 {
        '6'
    } else if d == 7 {
        '7'
    } else if d == 8 {
        '8'
    } else {
        '9'
    }
}

/// The decimal text of `n`, without leading zeros.
pub open spec fn dec(n: nat) -> Seq<char>
    decreases n,
{
    if n < 10 {
        seq![digit_char(n)]
    } else {
        dec(n / 10).push(digit_char(n % 10))
    }
}

fn push_digit(s: &mut String, d: u32)
    requires
        d < 10,
    ensures
        final(s)@ == old(s)@.push(digit_char(d as nat)),
{
    if d == 0 {
        proof { reveal_strlit("0"); }
        s.append("0");
    } else if d == 1 {
        proof { reveal_strlit("1"); }
        s.append("1");
    } else if d == 2 {
        proof { reveal_strlit("2"); }
        s.append("2");
    } else if d == 3 {
        proof { reveal_strlit("3"); }
        s.append("3");
    } else if d == 4 {
        proof { reveal_strlit("4"); }
        s.append("4");
    } else if d == 5 {
        proof { reveal_strlit("5"); }
        s.append("5");
    } else if d == 6 {
        proof { reveal_strlit("6"); }
        s.append("6");
    } else if d == 7 {
        proof { reveal_strlit("7"); }
        s.append("7");
    } else if d == 8 {
        proof { reveal_strlit("8"); }
        s.append("8");
    } else {
        proof { reveal_strlit("9"); }
        s.append("9");
    }
}

/// Appends the decimal text of `n` to `s`.
pub fn push_dec(s: &mut String, n: u64)
    ensures
        final(s)@ == old(s)@ + dec(n as nat),
    decreases n,
{
    let ghost s0 = s@;
    if n >= 10 {
        push_dec(s, n / 10);
    }
    let ghost s1 = s@;
    push_digit(s, (n % 10) as u32);
    proof {
        if n >= 10 {
            assert(s1 == s0 + dec((n / 10) as nat));
        }
        assert(s@ =~= s0 + dec(n as nat));
    }
}

} // verus!


verus! {

/// An assembly error: its message, which ends with the place where it
/// occurred, and the part of the source that it concerns.
#[derive(Debug, Clone)]
pub struct Error {
    pub msg: String,
    pub span: Span,
}

/// The message `msg` followed by the file `path` and, when `span` is not the
/// empty span, by the position of `span` in the text `b` with line feeds
/// `lp`; `None` where the position cannot be computed.
pub open spec fn located(msg: Seq<char>, span: Span, b: Seq<u8>, path: Seq<char>, lp: Seq<u32>) -> Option<Seq<char>> {
    let head = msg + "\n  --> "@ + path;
    if span.is_none_spec() {
        Some(head)
    } else {
        match span_pos_in(span, b, lp) {
            Some(p) => Some(head + ":"@ + p.text_spec()),
            None => None,
        }
    }
}

/// The message `msg` followed by the file and, when `span` is not the empty
/// span, by the position of `span` in the source.
pub open spec fn located_msg(msg: Seq<char>, span: Span, source: SrcV) -> Option<Seq<char>> {
    located(msg, span, source.bytes, source.path, source.lp)
}

impl Error {
    /// An error at `span` of `source`.
    pub fn new(msg: String, span: Span, source: &Source) -> (r: Self)
        requires
            located_msg(msg@, span, source@) is Some,
        ensures
            r.msg@ == located_msg(msg@, span, source@)->0,
            r.span == span,
    {
        let mut msg = msg;
        msg.append("\n  --> ");
        msg.append(source.path);
        if !span.is_none() {
            let p = span.pos(source);
            msg.append(":");
            p.push_text(&mut msg);
        }
        Error { msg, span }
    }
}

/// What a step of the assembler gives, as its specification states it: a
/// value, an error (its located message and its span), or a stop where the
/// assembler has no way to go on (it halts there).
pub enum Res<T> {
    Done(T),
    Error(Seq<char>, Span),
    Halt,
}

/// How a step of the assembler can fail: with an error, or by halting.
#[derive(Debug)]
pub enum Fail {
    Error(Error),
    Halt,
}

/// The error with message `msg` at `span` of the text `b` of file `path`
/// with line feeds `lp`, or a halt where its position cannot be computed.
pub open spec fn err_in<T>(msg: Seq<char>, span: Span, b: Seq<u8>, path: Seq<char>, lp: Seq<u32>) -> Res<T> {
    match located(msg, span, b, path, lp) {
        Some(m) => Res::Error(m, span),
        None => Res::Halt,
    }
}

/// The error with message `msg` at `span`, or a halt where its position
/// cannot be computed.
pub open spec fn mk_err<T>(msg: Seq<char>, span: Span, source: SrcV) -> Res<T> {
    err_in(msg, span, source.bytes, source.path, source.lp)
}

/// `f` is the failure for message `msg` at `span`.
pub open spec fn fail_is(f: Fail, msg: Seq<char>, span: Span, source: SrcV) -> bool {
    match located_msg(msg, span, source) {
        Some(m) => f matches Fail::Error(e) && e.msg@ == m && e.span == span,
        None => f is Halt,
    }
}

/// `f` is the failure `r`.
pub open spec fn same_fail<T>(f: Fail, r: Res<T>) -> bool {
    match (f, r) {
        (Fail::Error(e), Res::Error(m, s)) => e.msg@ == m && e.span == s,
        (Fail::Halt, Res::Halt) => true,
        _ => false,
    }
}

/// Carries an error or a halt from one kind of result to another.
pub open spec fn pass<T, U>(r: Res<T>) -> Res<U> {
    match r {
        Res::Error(m, s) => Res::Error(m, s),
        _ => Res::Halt,
    }
}

/// The failure for message `msg` at `span`.
pub fn fail(msg: String, span: Span, source: &Source) -> (f: Fail)
    ensures
        fail_is(f, msg@, span, source@),
{
    if span.is_none() {
        Fail::Error(Error::new(msg, span, source))
    } else {
        match span.try_pos(source) {
            Some(_) => Fail::Error(Error::new(msg, span, source)),
            None => Fail::Halt,
        }
    }
}

} // verus!

verus! {

// ---------------------------------------------------------------------------
// Searching text by byte offsets
// ---------------------------------------------------------------------------

/// The first offset from `i` where the bytes `pat` occur in `b`.
pub open spec fn find_bytes(b: Seq<u8>, pat: Seq<u8>, i: int) -> Option<int>
    decreases b.len() + 1 - i,
{
    if i < 0 || i + pat.len() > b.len() {
        None
    } else if b.subrange(i, i + pat.len()) == pat {
        Some(i)
    } else {
        find_bytes(b, pat, i + 1)
    }
}

/// Reading a text by byte offsets.
pub trait StrExt {
    /// The character that starts at byte offset `index`, or `None` at the
    /// end.
    fn char_at(&self, index: usize) -> (r: Option<char>)
        requires
            index <= self.spec_text_bytes().len(),
            bnd(self.spec_text_bytes(), index as int),
        ensures
            index == self.spec_text_bytes().len() ==> r is None,
            index < self.spec_text_bytes().len() ==> r == Some(
                text(self.spec_text_bytes(), index as int, self.spec_text_bytes().len() as int)[0],
            ),
    ;

    /// The first offset from `index` where the character `pat` occurs.
    fn find_after(&self, pat: char, index: usize) -> (r: Option<usize>)
        requires
            index <= self.spec_text_bytes().len(),
        ensures
            match find_bytes(self.spec_text_bytes(), encode_utf8(seq![pat]), index as int) {
                Some(p) => r == Some(p as usize),
                None => r is None,
            },
    ;

    /// The first offset from `index` where the text `pat` occurs.
    fn find_after_str(&self, pat: &str, index: usize) -> (r: Option<usize>)
        requires
            index <= self.spec_text_bytes().len(),
        ensures
            match find_bytes(self.spec_text_bytes(), pat.spec_bytes(), index as int) {
                Some(p) => r == Some(p as usize),
                None => r is None,
            },
    ;

    /// The end of the run of characters from `index` on for which `fun`
    /// holds.
    fn while_matching<F: Fn(char) -> bool>(&self, index: usize, fun: F) -> (r: usize)
        requires
            index <= self.spec_text_bytes().len(),
            bnd(self.spec_text_bytes(), index as int),
            forall|c: char| call_requires(fun, (c,)),
        ensures
            index <= r <= self.spec_text_bytes().len(),
            bnd(self.spec_text_bytes(), r as int),
            forall|p: int|
                index <= p < r && bnd(self.spec_text_bytes(), p) ==> call_ensures(
                    fun,
                    (text(self.spec_text_bytes(), p, self.spec_text_bytes().len() as int)[0],),
                    true,
                ),
            r < self.spec_text_bytes().len() ==> call_ensures(
                fun,
                (text(self.spec_text_bytes(), r as int, self.spec_text_bytes().len() as int)[0],),
                false,
            ),
    ;

    /// The UTF-8 bytes of the text.
    spec fn spec_text_bytes(&self) -> Seq<u8>;
}

impl StrExt for str {
    open spec fn spec_text_bytes(&self) -> Seq<u8> {
        self.spec_bytes()
    }

    fn char_at(&self, index: usize) -> (r: Option<char>) {
        let len = self.as_bytes().len();
        if index == len {
            return None;
        }
        let rest = substr(self, index, len);
        proof {
            let b = self.spec_bytes();
            assert(b.subrange(index as int, len as int).len() > 0);
            let sub = b.subrange(index as int, len as int);
            lemma_bnd_is_char_boundary(b, index as int);
            valid_utf8_split(b, index as int);
            assert(sub =~= b.subrange(index as int, b.len() as int));
        }
        Some(rest.get_char(0))
    }

    fn find_after(&self, pat: char, index: usize) -> (r: Option<usize>) {
        let mut p = String::new();
        crate::tokenizer::push_char(&mut p, pat);
        proof {
            assert(p@ =~= seq![pat]);
        }
        find_from(self.as_bytes(), p.as_str().as_bytes(), index)
    }

    fn find_after_str(&self, pat: &str, index: usize) -> (r: Option<usize>) {
        find_from(self.as_bytes(), pat.as_bytes(), index)
    }

    fn while_matching<F: Fn(char) -> bool>(&self, index: usize, fun: F) -> (r: usize) {
        let b = self.as_bytes();
        let ghost bs = b@;
        let len = b.len();
        let mut i = index;
        while i < len
            invariant
                b@ == bs,
                bs == self.spec_bytes(),
                len == bs.len(),
                index <= i <= len,
                bnd(bs, i as int),
                forall|c: char| call_requires(fun, (c,)),
                forall|p: int|
                    index <= p < i && bnd(bs, p) ==> call_ensures(
                        fun,
                        (text(bs, p, len as int)[0],),
                        true,
                    ),
            decreases len - i,
        {
            let e = crate::tokenizer::char_end_x(b, i);
            proof {
                crate::tokenizer::lemma_char_end_bnd(bs, i as int);
                lemma_text_split(bs, i as int, e as int, len as int);
                lemma_bnd_is_char_boundary(bs, i as int);
                lemma_bnd_is_char_boundary(bs, e as int);
                valid_utf8_split(bs, i as int);
                let sub = bs.subrange(i as int, e as int);
                assert(sub.len() > 0);
                assert(text(bs, i as int, e as int).len() > 0) by {
                    let a = bs.subrange(0, e as int);
                    valid_utf8_split(bs, e as int);
                    assert(a.len() == e);
                    assert(a[i as int] == bs[i as int]);
                    lemma_bnd_is_char_boundary(a, i as int);
                    valid_utf8_split(a, i as int);
                    assert(a.subrange(i as int, a.len() as int) =~= sub);
                    assert(valid_utf8(sub));
                }
            }
            let c = substr(self, i, e).get_char(0);
            if !fun(c) {
                return i;
            }
            proof {
                assert forall|p: int| index <= p < e && bnd(bs, p) implies call_ensures(
                    fun,
                    (text(bs, p, len as int)[0],),
                    true,
                ) by {
                    if p > i {
                        assert(is_cont(bs[p]));
                    }
                }
            }
            i = e;
        }
        i
    }
}

/// The first offset from `i` where the bytes `pat` occur in `b`.
fn find_from(b: &[u8], pat: &[u8], i: usize) -> (r: Option<usize>)
    requires
        i <= b@.len(),
    ensures
        match find_bytes(b@, pat@, i as int) {
            Some(p) => r == Some(p as usize),
            None => r is None,
        },
{
    let n = b.len();
    let mut p = i;
    while p <= n && pat.len() <= n - p
        invariant
            n == b@.len(),
            i <= p,
            p <= b@.len() + 1,
            find_bytes(b@, pat@, p as int) == find_bytes(b@, pat@, i as int),
        decreases b@.len() + 1 - p,
    {
        let mut k: usize = 0;
        while k < pat.len() && b[p + k] == pat[k]
            invariant
                n == b@.len(),
                p + pat@.len() <= b@.len(),
                k <= pat@.len(),
                forall|m: int| 0 <= m < k ==> b@[p + m] == pat@[m],
            decreases pat@.len() - k,
        {
            k = k + 1;
        }
        if k == pat.len() {
            proof {
                assert(b@.subrange(p as int, p + pat@.len()) =~= pat@);
            }
            return Some(p);
        }
        proof {
            assert(b@.subrange(p as int, p + pat@.len())[k as int] != pat@[k as int]);
        }
        p = p + 1;
    }
    None
}

} // verus!
