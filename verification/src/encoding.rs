//! Little-endian byte encodings and decimal rendering.
//!
//! [`le_bytes`] and [`le_value`] are the specification of every multi-byte
//! field in the image format: immediates, jump targets and header fields.
//! The executable readers and writers are proved against them, and
//! [`lemma_le_round_trip`] shows that a value below the field's range
//! survives the round trip.

use vstd::prelude::*;

verus! {

/// 256 to the power `n`: the number of values an `n`-byte field can hold.
pub open spec fn pow256(n: nat) -> nat
    decreases n,
{
    if n == 0 {
        1
    } else {
        256 * pow256((n - 1) as nat)
    }
}

/// The little-endian encoding of `v` in exactly `n` bytes (the value is
/// taken modulo `pow256(n)`).
pub open spec fn le_bytes(v: nat, n: nat) -> Seq<u8>
    decreases n,
{
    if n == 0 {
        Seq::empty()
    } else {
        seq![(v % 256) as u8] + le_bytes(v / 256, (n - 1) as nat)
    }
}

/// The value of a little-endian byte sequence.
pub open spec fn le_value(s: Seq<u8>) -> nat
    decreases s.len(),
{
    if s.len() == 0 {
        0
    } else {
        (s[0] + 256 * le_value(s.subrange(1, s.len() as int))) as nat
    }
}

pub proof fn lemma_le_bytes_len(v: nat, n: nat)
    ensures
        le_bytes(v, n).len() == n,
    decreases n,
{
    if n > 0 {
        lemma_le_bytes_len(v / 256, (n - 1) as nat);
    }
}

/// A little-endian field of `n` bytes holds a value below `pow256(n)`.
pub proof fn lemma_le_value_bound(s: Seq<u8>)
    ensures
        le_value(s) < pow256(s.len()),
    decreases s.len(),
{
    if s.len() > 0 {
        lemma_le_value_bound(s.subrange(1, s.len() as int));
    }
}

/// Writing a value below the field's range and reading it back returns the
/// value itself.
pub proof fn lemma_le_round_trip(v: nat, n: nat)
    requires
        v < pow256(n),
    ensures
        le_value(le_bytes(v, n)) == v,
    decreases n,
{
    if n > 0 {
        lemma_le_bytes_len(v / 256, (n - 1) as nat);
        assert(le_bytes(v, n).subrange(1, le_bytes(v, n).len() as int) =~= le_bytes(
            v / 256,
            (n - 1) as nat,
        ));
        lemma_le_round_trip(v / 256, (n - 1) as nat);
    }
}

/// Commonly used field ranges.
pub proof fn lemma_pow256_values()
    ensures
        pow256(1) == 0x100,
        pow256(2) == 0x1_0000,
        pow256(4) == 0x1_0000_0000,
        pow256(8) == 0x1_0000_0000_0000_0000,
{
    assert(pow256(0) == 1);
    assert(pow256(1) == 0x100);
    assert(pow256(2) == 0x1_0000);
    assert(pow256(3) == 0x100_0000);
    assert(pow256(4) == 0x1_0000_0000);
    assert(pow256(5) == 0x100_0000_0000);
    assert(pow256(6) == 0x1_0000_0000_0000);
    assert(pow256(7) == 0x100_0000_0000_0000);
    assert(pow256(8) == 0x1_0000_0000_0000_0000);
}

/// Writes the low `n` bytes of `v`, little-endian.
pub fn le_bytes_of(v: u64, n: usize) -> (r: Vec<u8>)
    ensures
        r@ == le_bytes(v as nat, n as nat),
        r@.len() == n,
{
    let mut r: Vec<u8> = Vec::new();
    let mut rest: u64 = v;
    let mut k: usize = 0;
    proof {
        lemma_le_bytes_len(v as nat, n as nat);
    }
    while k < n
        invariant
            k <= n,
            r@.len() == k,
            le_bytes(v as nat, n as nat) == r@ + le_bytes(rest as nat, (n - k) as nat),
        decreases n - k,
    {
        proof {
            lemma_le_bytes_len(rest as nat / 256, (n - k - 1) as nat);
        }
        r.push((rest % 256) as u8);
        rest = rest / 256;
        k = k + 1;
        assert(le_bytes(v as nat, n as nat) =~= r@ + le_bytes(rest as nat, (n - k) as nat));
    }
    assert(r@ =~= le_bytes(v as nat, n as nat));
    r
}

/// Reads a little-endian field of at most eight bytes.
pub fn le_value_of(s: &[u8]) -> (v: u64)
    requires
        s@.len() <= 8,
    ensures
        v as nat == le_value(s@),
{
    let n: usize = s.len();
    let mut v: u64 = 0;
    let mut k: usize = n;
    assert(s@.subrange(n as int, n as int) =~= Seq::<u8>::empty());
    while k > 0
        invariant
            k <= n,
            n <= 8,
            n == s@.len(),
            v as nat == le_value(s@.subrange(k as int, n as int)),
            (v as nat) < pow256((n - k) as nat),
        decreases k,
    {
        let ghost before = s@.subrange(k as int, n as int);
        k = k - 1;
        proof {
            lemma_pow256_values();
            assert(s@.subrange(k as int, n as int).subrange(
                1,
                s@.subrange(k as int, n as int).len() as int,
            ) =~= before);
            lemma_le_value_bound(s@.subrange(k as int, n as int));
            assert(pow256((n - k) as nat) <= pow256(8)) by {
                lemma_pow256_mono((n - k) as nat, 8);
            }
        }
        v = s[k] as u64 + 256 * v;
    }
    assert(s@.subrange(0, n as int) =~= s@);
    v
}

/// `pow256` grows with its argument.
pub proof fn lemma_pow256_mono(a: nat, b: nat)
    requires
        a <= b,
    ensures
        pow256(a) <= pow256(b),
    decreases b,
{
    if a < b && b > 0 {
        lemma_pow256_mono(a, (b - 1) as nat);
        assert(pow256((b - 1) as nat) <= 256 * pow256((b - 1) as nat));
    }
}

/// The ASCII decimal digits of `n`, most significant first.
pub open spec fn dec_digits(n: nat) -> Seq<u8>
    decreases n,
{
    if n < 10 {
        seq![(48 + n) as u8]
    } else {
        dec_digits(n / 10) + seq![(48 + n % 10) as u8]
    }
}

/// Renders `v` in ASCII decimal.
pub fn dec_bytes(v: u64) -> (r: Vec<u8>)
    ensures
        r@ == dec_digits(v as nat),
{
    let mut tail: Vec<u8> = Vec::new();
    let mut rest: u64 = v;
    while rest >= 10
        invariant
            dec_digits(v as nat) == dec_digits(rest as nat) + tail@.reverse(),
        decreases rest,
    {
        let ghost before = tail@;
        tail.push((48 + rest % 10) as u8);
        let ghost digit = (48 + rest as nat % 10) as u8;
        rest = rest / 10;
        proof {
            assert(tail@.reverse() =~= seq![digit] + before.reverse());
            assert(dec_digits(v as nat) =~= dec_digits(rest as nat) + tail@.reverse());
        }
    }
    let mut r: Vec<u8> = Vec::new();
    r.push(48 + (rest % 10) as u8);
    assert(r@ =~= dec_digits(rest as nat));
    let mut k: usize = tail.len();
    while k > 0
        invariant
            k <= tail@.len(),
            r@ == dec_digits(rest as nat) + tail@.subrange(k as int, tail@.len() as int).reverse(),
        decreases k,
    {
        k = k - 1;
        r.push(tail[k]);
        assert(r@ =~= dec_digits(rest as nat) + tail@.subrange(
            k as int,
            tail@.len() as int,
        ).reverse());
    }
    assert(tail@.subrange(0, tail@.len() as int) =~= tail@);
    r
}

} // verus!
