use vstd::prelude::*;

verus! {

/// Value of a byte sequence read little-endian: the first byte is the least
/// significant, so the value is the sum over i of b[i] * 256^i.
pub open spec fn le_decode(b: Seq<u8>) -> nat
    decreases b.len(),
{
    if b.len() == 0 {
        0
    } else {
        (b[0] as nat) + 256 * le_decode(b.skip(1))
    }
}

/// The `w` little-endian bytes of `v`: least significant byte first,
/// truncating `v` above 256^w.
pub open spec fn le_encode(v: nat, w: nat) -> Seq<u8>
    decreases w,
{
    if w == 0 {
        Seq::empty()
    } else {
        seq![(v % 256) as u8] + le_encode(v / 256, (w - 1) as nat)
    }
}

/// 256^n, the number of values `n` bytes can hold.
pub open spec fn pow256(n: nat) -> nat
    decreases n,
{
    if n == 0 {
        1
    } else {
        256 * pow256((n - 1) as nat)
    }
}

/// A decoded value is below 256^len: each byte contributes at most 255 at
/// its position.
pub proof fn lemma_le_decode_bound(b: Seq<u8>)
    ensures
        le_decode(b) < pow256(b.len()),
    decreases b.len(),
{
    if b.len() > 0 {
        lemma_le_decode_bound(b.skip(1));
    }
}

/// Decoding little-endian and re-encoding at the same width gives the bytes
/// back: no information is lost either way round.
pub proof fn lemma_le_round_trip(b: Seq<u8>)
    ensures
        le_encode(le_decode(b), b.len()) == b,
    decreases b.len(),
{
    if b.len() == 0 {
        assert(le_encode(le_decode(b), b.len()) =~= b);
    } else {
        let rest = le_decode(b.skip(1));
        let v = le_decode(b);
        vstd::arithmetic::div_mod::lemma_fundamental_div_mod_converse(
            v as int,
            256,
            rest as int,
            b[0] as int,
        );
        lemma_le_round_trip(b.skip(1));
        assert(le_encode(v, b.len()) =~= b);
    }
}

/// Encoding a value at width `w` and decoding the bytes back gives the
/// value reduced to the `w` bytes that were kept: the whole value whenever
/// it fits.
pub proof fn lemma_le_encode_round_trip(v: nat, w: nat)
    ensures
        le_decode(le_encode(v, w)) == v % pow256(w),
    decreases w,
{
    if w == 0 {
        vstd::arithmetic::div_mod::lemma_fundamental_div_mod_converse(v as int, 1, v as int, 0);
    } else {
        let p = pow256((w - 1) as nat);
        let tail = le_encode(v / 256, (w - 1) as nat);
        assert(le_encode(v, w).skip(1) =~= tail);
        lemma_le_encode_round_trip(v / 256, (w - 1) as nat);
        lemma_pow256_nondecreasing(0, (w - 1) as nat);
        vstd::arithmetic::div_mod::lemma_mod_breakdown(v as int, 256, p as int);
    }
}

/// Decode host-reported memory bytes as an unsigned little-endian integer:
/// the first byte is the one at the lowest address and counts least.
pub fn decode_le(b: &[u8]) -> (r: u64)
    requires
        b@.len() <= 8,
    ensures
        r == le_decode(b@),
{
    let n = b.len();
    let mut result: u64 = 0;
    let mut i: usize = n;
    while i > 0
        invariant
            i <= n,
            n == b@.len(),
            n <= 8,
            result == le_decode(b@.skip(i as int)),
        decreases i,
    {
        i = i - 1;
        proof {
            assert(b@.skip(i as int).skip(1) =~= b@.skip(i as int + 1));
            lemma_le_decode_bound(b@.skip(i as int + 1));
            lemma_pow256_nondecreasing((n - i - 1) as nat, 7);
            lemma_pow256_values();
        }
        result = result * 256 + b[i] as u64;
    }
    assert(b@.skip(0) =~= b@);
    result
}

/// Re-encode a value as `w` little-endian bytes, least significant first.
pub fn encode_le(v: u64, w: usize) -> (r: Vec<u8>)
    ensures
        r@ == le_encode(v as nat, w as nat),
{
    let mut out: Vec<u8> = Vec::new();
    let mut cur: u64 = v;
    let mut i: usize = 0;
    while i < w
        invariant
            i <= w,
            out@.len() == i,
            le_encode(v as nat, w as nat) == out@ + le_encode(cur as nat, (w - i) as nat),
        decreases w - i,
    {
        let ghost prev_out = out@;
        let ghost prev_cur = cur as nat;
        out.push((cur % 256) as u8);
        cur = cur / 256;
        i = i + 1;
        proof {
            assert(le_encode(v as nat, w as nat) =~= out@ + le_encode(
                cur as nat,
                (w - i) as nat,
            )) by {
                assert(le_encode(prev_cur, (w - i + 1) as nat) == seq![(prev_cur % 256) as u8]
                    + le_encode(prev_cur / 256, (w - i) as nat));
                assert(prev_out + le_encode(prev_cur, (w - i + 1) as nat) =~= out@ + le_encode(
                    cur as nat,
                    (w - i) as nat,
                ));
            }
        }
    }
    proof {
        assert(le_encode(v as nat, w as nat) =~= out@);
    }
    out
}

/// 256^n never shrinks as n grows.
pub proof fn lemma_pow256_nondecreasing(a: nat, b: nat)
    requires
        a <= b,
    ensures
        pow256(a) <= pow256(b),
    decreases b,
{
    if a < b {
        lemma_pow256_nondecreasing(a, (b - 1) as nat);
        assert(pow256(b) == 256 * pow256((b - 1) as nat));
    }
}

/// The concrete powers a u64 decode can meet.
pub proof fn lemma_pow256_values()
    ensures
        pow256(7) == 0x100000000000000,
        pow256(8) == 0x10000000000000000,
{
    reveal_with_fuel(pow256, 9);
}

} // verus!
