//! Little-endian numbers inside byte buffers.
use vstd::prelude::*;

verus! {

/// The low `n` bytes of a number, least significant first.
pub open spec fn le(value: nat, n: nat) -> Seq<u8>
    decreases n,
{
    if n == 0 {
        Seq::empty()
    } else {
        seq![(value % 256) as u8] + le(value / 256, (n - 1) as nat)
    }
}

/// The number that bytes spell, least significant first.
pub open spec fn from_le(bytes: Seq<u8>) -> nat
    decreases bytes.len(),
{
    if bytes.len() == 0 {
        0
    } else {
        bytes[0] as nat + 256 * from_le(bytes.drop_first())
    }
}

/// How many numbers `n` bytes can tell apart.
pub open spec fn span(n: nat) -> nat
    decreases n,
{
    if n == 0 {
        1
    } else {
        256 * span((n - 1) as nat)
    }
}

/// A buffer with `n` bytes of a number written at `at`.
pub open spec fn patched(bytes: Seq<u8>, at: int, value: nat, n: nat) -> Seq<u8> {
    bytes.take(at) + le(value, n) + bytes.skip(at + n)
}

pub proof fn lemma_le_len(value: nat, n: nat)
    ensures
        le(value, n).len() == n,
    decreases n,
{
    if n > 0 {
        lemma_le_len(value / 256, (n - 1) as nat);
    }
}

/// Reading back what was written gives the number, as far as the bytes reach.
pub proof fn law_le_round_trip(value: nat, n: nat)
    ensures
        from_le(le(value, n)) == value % span(n),
        value < span(n) ==> from_le(le(value, n)) == value,
    decreases n,
{
    if n > 0 {
        let m = (n - 1) as nat;
        law_le_round_trip(value / 256, m);
        lemma_le_len(value / 256, m);
        assert(le(value, n).drop_first() =~= le(value / 256, m));
        lemma_span_positive(m);
        let s = span(m) as int;
        assert(value as int % (256 * s) == value as int % 256 + 256 * ((value as int / 256) % s))
            by (nonlinear_arith)
            requires
                s > 0,
                value >= 0,
        {
            let v = value as int;
            let q = v / 256;
            let r = v % 256;
            let a = q / s;
            let b = q % s;
            assert(v == 256 * q + r);
            assert(q == s * a + b);
            assert(v == (256 * s) * a + (256 * b + r));
            assert(0 <= 256 * b + r < 256 * s);
            vstd::arithmetic::div_mod::lemma_fundamental_div_mod_converse(v, 256 * s, a, 256 * b + r);
        }
    } else {
        assert(value % 1 == 0);
    }
    if value < span(n) {
        vstd::arithmetic::div_mod::lemma_small_mod(value, span(n));
    }
}

pub proof fn lemma_span_positive(n: nat)
    ensures
        span(n) > 0,
    decreases n,
{
    if n > 0 {
        lemma_span_positive((n - 1) as nat);
    }
}

/// The usual widths.
pub proof fn lemma_spans()
    ensures
        span(1) == 0x100,
        span(2) == 0x1_0000,
        span(4) == 0x1_0000_0000,
        span(8) == 0x1_0000_0000_0000_0000,
{
    reveal_with_fuel(span, 9);
}

/// Reading `n` patched bytes gives the number that was written.
pub proof fn law_patch_is_read_back(bytes: Seq<u8>, at: int, value: nat, n: nat)
    requires
        0 <= at,
        at + n <= bytes.len(),
        value < span(n),
    ensures
        patched(bytes, at, value, n).len() == bytes.len(),
        from_le(patched(bytes, at, value, n).subrange(at, at + n)) == value,
        forall|k: int|
            0 <= k < bytes.len() && !(at <= k < at + n) ==> #[trigger] patched(
                bytes,
                at,
                value,
                n,
            )[k] == bytes[k],
{
    lemma_le_len(value, n);
    law_le_round_trip(value, n);
    assert(patched(bytes, at, value, n).subrange(at, at + n) =~= le(value, n));
}

proof fn lemma_le_step(value: nat, n: nat, k: nat)
    requires
        k < n,
    ensures
        le(value, n)[k as int] == ((value / span(k)) % 256) as u8,
    decreases k,
{
    lemma_le_len(value, n);
    if k == 0 {
        assert(value / 1 == value);
    } else {
        lemma_le_step(value / 256, (n - 1) as nat, (k - 1) as nat);
        lemma_span_positive((k - 1) as nat);
        vstd::arithmetic::div_mod::lemma_div_denominator(
            value as int,
            256,
            span((k - 1) as nat) as int,
        );
    }
}

/// Write the low `n` bytes of a number at `at`.
pub fn put(bytes: &mut Vec<u8>, at: usize, value: u64, n: usize)
    requires
        at + n <= old(bytes)@.len(),
        n <= 8,
    ensures
        final(bytes)@ == patched(old(bytes)@, at as int, value as nat, n as nat),
        final(bytes)@.len() == old(bytes)@.len(),
{
    let ghost before = bytes@;
    let total: usize = bytes.len();
    let mut rest: u64 = value;
    let mut i: usize = 0;
    proof {
        lemma_le_len(value as nat, n as nat);
        assert(span(0) == 1);
    }
    while i < n
        invariant
            i <= n <= 8,
            at + n <= before.len() == total,
            bytes@.len() == before.len(),
            rest as nat == value as nat / span(i as nat),
            le(value as nat, n as nat).len() == n,
            forall|k: int|
                0 <= k < before.len() ==> #[trigger] bytes@[k] == (if at <= k < at + i {
                    le(value as nat, n as nat)[k - at]
                } else {
                    before[k]
                }),
        decreases n - i,
    {
        proof {
            lemma_le_step(value as nat, n as nat, i as nat);
            lemma_span_positive(i as nat);
            vstd::arithmetic::div_mod::lemma_div_denominator(
                value as int,
                span(i as nat) as int,
                256,
            );
            assert(span(i as nat) * 256 == span((i + 1) as nat)) by {
                assert(span((i + 1) as nat) == 256 * span(i as nat));
            }
        }
        bytes[at + i] = (rest % 256) as u8;
        rest = rest / 256;
        i = i + 1;
    }
    assert(bytes@ =~= patched(before, at as int, value as nat, n as nat));
}

/// Read `n` bytes at `at` as a number.
pub fn get(bytes: &Vec<u8>, at: usize, n: usize) -> (value: u64)
    requires
        at + n <= bytes@.len(),
        n <= 8,
    ensures
        value == from_le(bytes@.subrange(at as int, at + n)),
        value < span(n as nat),
{
    let ghost all = bytes@.subrange(at as int, at + n);
    let total: usize = bytes.len();
    let mut value: u64 = 0;
    let mut i: usize = n;
    assert(all.skip(n as int) =~= Seq::<u8>::empty());
    while i > 0
        invariant
            i <= n <= 8,
            at + n <= bytes@.len() == total,
            all == bytes@.subrange(at as int, at + n),
            value == from_le(all.skip(i as int)),
            value < span((n - i) as nat),
        decreases i,
    {
        i = i - 1;
        proof {
            assert(all.skip(i as int).drop_first() =~= all.skip(i + 1));
            assert(all.skip(i as int)[0] == all[i as int]);
            lemma_span_bound((n - i) as nat);
            assert(span((n - i) as nat) == 256 * span((n - i - 1) as nat));
        }
        value = value * 256 + bytes[at + i] as u64;
    }
    assert(all.skip(0) =~= all);
    value
}

/// Append the low `n` bytes of a number.
pub fn push_le(out: &mut Vec<u8>, value: u64, n: usize)
    requires
        n <= 8,
    ensures
        final(out)@ == old(out)@ + le(value as nat, n as nat),
    decreases n,
{
    if n == 0 {
        assert(out@ + le(value as nat, 0) =~= out@);
        return;
    }
    let ghost before = out@;
    out.push((value % 256) as u8);
    push_le(out, value / 256, n - 1);
    assert(out@ =~= before + le(value as nat, n as nat));
}

proof fn lemma_span_bound(n: nat)
    requires
        n <= 8,
    ensures
        span(n) <= 0x1_0000_0000_0000_0000,
{
    reveal_with_fuel(span, 9);
}

} // verus!
