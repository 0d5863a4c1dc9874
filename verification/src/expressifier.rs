use vstd::prelude::*;
use vstd::string::*;
use crate::utils::{dec, push_dec};

verus! {

// A binary becomes a Unimap program whose `mem` is a tree of maps 16 wide
// and 7 deep: the chunk of 16 bytes at index `k` sits under the 7 base-16
// digits of `k`, most significant first, as a list of its nibbles (low
// nibble first).

/// The maps are 16 wide.
pub open spec fn p16(e: nat) -> nat
    decreases e,
{
    if e == 0 {
        1
    } else {
        16 * p16((e - 1) as nat)
    }
}

/// The number of chunks the tree can hold.
pub open spec fn capacity() -> nat {
    p16(7)
}

/// Digit `j` (0 is the most significant, 6 the least) of chunk index `k`.
pub open spec fn digit(k: nat, j: nat) -> nat {
    (k / p16((6 - j) as nat)) % 16
}

/// The number of levels whose last entry chunk `k` is: how many of its
/// digits from the least significant up (but not the most significant) are
/// 15.
pub open spec fn closing(k: nat, j: nat) -> nat
    decreases j,
{
    if j == 0 {
        0
    } else if digit(k, j) == 15 {
        1 + closing(k, (j - 1) as nat)
    } else {
        0
    }
}

/// `s` repeated `n` times.
pub open spec fn repeat(s: Seq<char>, n: nat) -> Seq<char>
    decreases n,
{
    if n == 0 {
        Seq::empty()
    } else {
        repeat(s, (n - 1) as nat) + s
    }
}

/// The opening of the map of level `j` (0 to 5) for the chunk `k`.
pub open spec fn opener(k: nat, j: nat) -> Seq<char> {
    dec(digit(k, j)) + if j == 5 {
        " = {\n"@
    } else {
        " = { "@
    }
}

/// The openings of the maps of levels `from` to 5 for chunk `k`.
pub open spec fn openers(k: nat, from: nat) -> Seq<char>
    decreases 6 - from,
{
    if from >= 6 {
        Seq::empty()
    } else {
        opener(k, from) + openers(k, from + 1)
    }
}

/// The number of chunks of `bin`: 16 bytes each, the last one possibly
/// shorter.
pub open spec fn chunk_count(bin: Seq<u8>) -> nat {
    if bin.len() % 16 == 0 {
        bin.len() / 16
    } else {
        bin.len() / 16 + 1
    }
}

/// Chunk `k` of `bin`: 16 bytes, or what is left at the end.
pub open spec fn chunk(bin: Seq<u8>, k: nat) -> Seq<u8> {
    let lo: int = 16 * k as int;
    let hi: int = if lo + 16 <= bin.len() {
        lo + 16
    } else {
        bin.len() as int
    };
    bin.subrange(lo, hi)
}

/// The nibbles of the bytes `b`, low nibble first, each followed by `, `.
pub open spec fn nibbles(b: Seq<u8>) -> Seq<char>
    decreases b.len(),
{
    if b.len() == 0 {
        Seq::empty()
    } else {
        nibbles(b.drop_last()) + dec((b.last() % 16) as nat) + ", "@ + dec((b.last() / 16) as nat)
            + ", "@
    }
}

/// The entry of chunk `k`.
pub open spec fn chunk_entry(bin: Seq<u8>, k: nat) -> Seq<char> {
    dec(digit(k, 6)) + " = ["@ + nibbles(chunk(bin, k)) + "],\n"@
}

/// What follows the entry of chunk `k`: the closing of every map at its
/// end, after the last chunk; else the closing of the maps that chunk `k`
/// ends and the opening of those that chunk `k + 1` starts.
pub open spec fn after_chunk(bin: Seq<u8>, k: nat) -> Seq<char> {
    if k + 1 == chunk_count(bin) {
        "}}}}}}}"@
    } else if k + 1 == capacity() {
        repeat("}, "@, 6)
    } else {
        repeat("}, "@, closing(k, 6)) + openers(k + 1, (6 - closing(k, 6)) as nat)
    }
}

/// The entries of the first `n` chunks.
pub open spec fn entries(bin: Seq<u8>, n: nat) -> Seq<char>
    decreases n,
{
    if n == 0 {
        Seq::empty()
    } else {
        entries(bin, (n - 1) as nat) + chunk_entry(bin, (n - 1) as nat) + after_chunk(
            bin,
            (n - 1) as nat,
        )
    }
}

/// The number of chunks the tree holds: all of them, up to its capacity.
pub open spec fn held_count(bin: Seq<u8>) -> nat {
    if chunk_count(bin) <= capacity() {
        chunk_count(bin)
    } else {
        capacity()
    }
}

/// The Unimap program whose memory holds `bin`.
pub open spec fn expressify_spec(bin: Seq<u8>) -> Seq<char> {
    "import cpu.entry { init_state, run_iter };\n"@ + "import cpu.common { mem };\n"@
        + "fn init () => { ..init_state, mem = {"@ + openers(0, 0) + entries(bin, held_count(bin))
        + "};\n"@ + "fn loop (state) => run_iter(state);\n"@
}

fn pow16(e: u32) -> (r: u64)
    requires
        e <= 7,
    ensures
        r == p16(e as nat),
{
    proof {
        reveal_with_fuel(p16, 8);
    }
    if e == 0 {
        1
    } else if e == 1 {
        16
    } else if e == 2 {
        256
    } else if e == 3 {
        4096
    } else if e == 4 {
        65536
    } else if e == 5 {
        1048576
    } else if e == 6 {
        16777216
    } else {
        268435456
    }
}

fn digit_of(k: u64, j: u32) -> (r: u64)
    requires
        j <= 6,
    ensures
        r == digit(k as nat, j as nat),
        r < 16,
{
    let p = pow16(6 - j);
    proof {
        reveal_with_fuel(p16, 8);
        assert(p >= 1);
    }
    k / p % 16
}

fn closing_of(k: u64) -> (r: u32)
    ensures
        r == closing(k as nat, 6),
        r <= 6,
{
    let mut j: u32 = 6;
    let mut c: u32 = 0;
    while j > 0 && digit_of(k, j) == 15
        invariant
            j <= 6,
            c == 6 - j,
            c + closing(k as nat, j as nat) == closing(k as nat, 6),
        decreases j,
    {
        c = c + 1;
        j = j - 1;
    }
    c
}

fn push_openers(buf: &mut String, k: u64, from: u32)
    requires
        from <= 6,
    ensures
        final(buf)@ == old(buf)@ + openers(k as nat, from as nat),
    decreases 6 - from,
{
    if from < 6 {
        let ghost b0 = buf@;
        push_dec(buf, digit_of(k, from));
        if from == 5 {
            buf.append(" = {\n");
        } else {
            buf.append(" = { ");
        }
        let ghost b1 = buf@;
        push_openers(buf, k, from + 1);
        proof {
            assert(b1 == b0 + opener(k as nat, from as nat));
            assert(buf@ =~= b0 + openers(k as nat, from as nat));
        }
    }
}

fn push_repeat(buf: &mut String, s: &str, n: u32)
    ensures
        final(buf)@ == old(buf)@ + repeat(s@, n as nat),
    decreases n,
{
    if n > 0 {
        let ghost b0 = buf@;
        push_repeat(buf, s, n - 1);
        buf.append(s);
        proof {
            assert(buf@ =~= b0 + repeat(s@, n as nat));
        }
    }
}

fn push_nibbles(buf: &mut String, bin: &[u8], lo: usize, hi: usize)
    requires
        lo <= hi <= bin@.len(),
    ensures
        final(buf)@ == old(buf)@ + nibbles(bin@.subrange(lo as int, hi as int)),
{
    let ghost b0 = buf@;
    let mut i = lo;
    proof {
        assert(bin@.subrange(lo as int, lo as int).len() == 0);
    }
    while i < hi
        invariant
            lo <= i <= hi <= bin@.len(),
            buf@ == b0 + nibbles(bin@.subrange(lo as int, i as int)),
        decreases hi - i,
    {
        let byte = bin[i];
        push_dec(buf, (byte % 16) as u64);
        buf.append(", ");
        push_dec(buf, (byte / 16) as u64);
        buf.append(", ");
        proof {
            let s = bin@.subrange(lo as int, i + 1);
            assert(s.drop_last() =~= bin@.subrange(lo as int, i as int));
            assert(s.last() == byte);
            assert(buf@ =~= b0 + nibbles(s));
        }
        i = i + 1;
    }
}

proof fn lemma_chunk_bounds(len: nat, k: nat, count: nat)
    requires
        count == (if len % 16 == 0 { len / 16 } else { len / 16 + 1 }),
        k < count,
    ensures
        16 * k < len,
{
    vstd::arithmetic::div_mod::lemma_fundamental_div_mod(len as int, 16);
    if len % 16 == 0 {
        assert(16 * k < len) by (nonlinear_arith)
            requires
                k < len / 16,
                len == 16 * (len / 16) + len % 16,
        ;
    } else {
        assert(16 * k < len) by (nonlinear_arith)
            requires
                k <= len / 16,
                len == 16 * (len / 16) + len % 16,
                len % 16 > 0,
        ;
    }
}

/// Appends the entry of chunk `k`.
fn push_entry(buf: &mut String, bin: &[u8], k: u64)
    requires
        k < chunk_count(bin@),
    ensures
        final(buf)@ == old(buf)@ + chunk_entry(bin@, k as nat),
{
    let ghost b0 = buf@;
    let len = bin.len();
    proof {
        lemma_chunk_bounds(len as nat, k as nat, chunk_count(bin@));
    }
    push_dec(buf, digit_of(k, 6));
    buf.append(" = [");
    let lo: usize = (16 * k) as usize;
    let hi: usize = if len - lo >= 16 { lo + 16 } else { len };
    push_nibbles(buf, bin, lo, hi);
    buf.append("],\n");
    proof {
        assert(buf@ =~= b0 + chunk_entry(bin@, k as nat));
    }
}

/// Appends what follows the entry of chunk `k`.
fn push_after(buf: &mut String, bin: &[u8], k: u64, count: u64)
    requires
        count == chunk_count(bin@),
        k < count,
        k < capacity(),
    ensures
        final(buf)@ == old(buf)@ + after_chunk(bin@, k as nat),
{
    proof {
        reveal_with_fuel(p16, 8);
    }
    if k + 1 == count {
        buf.append("}}}}}}}");
    } else if k + 1 == 268435456 {
        push_repeat(buf, "}, ", 6);
    } else {
        let ghost b0 = buf@;
        let t = closing_of(k);
        push_repeat(buf, "}, ", t);
        push_openers(buf, k + 1, 6 - t);
        proof {
            assert(buf@ =~= b0 + after_chunk(bin@, k as nat));
        }
    }
}

/// The Unimap program whose memory holds `bin`; `bin` must not be empty.
pub fn expressify(bin: &[u8]) -> (r: String)
    requires
        bin@.len() > 0,
    ensures
        r@ == expressify_spec(bin@),
{
    let mut buf = String::new();
    buf.append("import cpu.entry { init_state, run_iter };\n");
    buf.append("import cpu.common { mem };\n");
    buf.append("fn init () => { ..init_state, mem = {");
    push_openers(&mut buf, 0, 0);
    let ghost head = buf@;
    let len = bin.len();
    let count: u64 = if len % 16 == 0 { (len / 16) as u64 } else { (len / 16) as u64 + 1 };
    let held: u64 = if count <= 268435456 { count } else { 268435456 };
    proof {
        reveal_with_fuel(p16, 8);
        assert(count == chunk_count(bin@));
        assert(held == held_count(bin@));
    }
    let mut k: u64 = 0;
    while k < held
        invariant
            held == held_count(bin@),
            count == chunk_count(bin@),
            held <= count,
            held <= capacity(),
            k <= held,
            buf@ == head + entries(bin@, k as nat),
        decreases held - k,
    {
        push_entry(&mut buf, bin, k);
        push_after(&mut buf, bin, k, count);
        proof {
            assert(buf@ =~= head + entries(bin@, (k + 1) as nat));
        }
        k = k + 1;
    }
    buf.append("};\n");
    buf.append("fn loop (state) => run_iter(state);\n");
    proof {
        assert(buf@ =~= expressify_spec(bin@));
    }
    buf
}

} // verus!

verus! {

/// The number made of the `n` lowest base-16 digits of `k`.
pub open spec fn low_digits(k: nat, n: nat) -> nat
    decreases n,
{
    if n == 0 {
        0
    } else {
        ((k / p16((n - 1) as nat)) % 16) * p16((n - 1) as nat) + low_digits(k, (n - 1) as nat)
    }
}

proof fn lemma_p16_pos(n: nat)
    ensures
        p16(n) > 0,
    decreases n,
{
    if n > 0 {
        lemma_p16_pos((n - 1) as nat);
    }
}

proof fn lemma_low_digits(k: nat, n: nat)
    ensures
        low_digits(k, n) == k % p16(n),
    decreases n,
{
    if n == 0 {
        assert(k % 1 == 0);
    } else {
        let m = (n - 1) as nat;
        lemma_low_digits(k, m);
        lemma_p16_pos(m);
        vstd::arithmetic::div_mod::lemma_breakdown(k as int, p16(m) as int, 16);
        assert(p16(m) * 16 == p16(n)) by (nonlinear_arith)
            requires
                p16(n) == 16 * p16(m),
        ;
        assert(p16(m) * ((k / p16(m)) % 16) == ((k / p16(m)) % 16) * p16(m)) by (nonlinear_arith);
    }
}

/// Chunk `k` sits in the tree under its 7 base-16 digits: read back in order,
/// most significant first, they give `k`.
pub proof fn law_chunk_digits(k: nat)
    requires
        k < capacity(),
    ensures
        k == digit(k, 0) * p16(6) + digit(k, 1) * p16(5) + digit(k, 2) * p16(4) + digit(k, 3) * p16(3)
            + digit(k, 4) * p16(2) + digit(k, 5) * p16(1) + digit(k, 6) * p16(0),
{
    lemma_low_digits(k, 7);
    vstd::arithmetic::div_mod::lemma_small_mod(k, p16(7));
    reveal_with_fuel(low_digits, 8);
}

} // verus!

verus! {

proof fn lemma_closing(k: nat, j: nat)
    requires
        j <= 6,
    ensures
        closing(k, j) <= j,
        forall|i: nat| j - closing(k, j) < i <= j ==> digit(k, i) == 15,
        closing(k, j) < j ==> digit(k, (j - closing(k, j)) as nat) != 15,
    decreases j,
{
    if j > 0 && digit(k, j) == 15 {
        lemma_closing(k, (j - 1) as nat);
    }
}

/// After the entry of chunk `k`, as many maps close as `k` has base-16
/// digits 15 at its end, among its six less significant digits: the last
/// `closing(k, 6)` digits are all 15, and the digit before them is not
/// (unless all six are).
pub proof fn law_closing_digits(k: nat)
    ensures
        closing(k, 6) <= 6,
        forall|i: nat| 6 - closing(k, 6) < i <= 6 ==> digit(k, i) == 15,
        closing(k, 6) < 6 ==> digit(k, (6 - closing(k, 6)) as nat) != 15,
{
    lemma_closing(k, 6);
}

} // verus!
