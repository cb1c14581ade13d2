//! Fixed-width byte encodings of integers and the order on byte strings.

use vstd::prelude::*;

verus! {

/// Byte `k` (0 is the least significant) of the two's-complement form of `v`.
pub open spec fn i64_byte(v: i64, k: int) -> u8 {
    (((v as u64) >> ((8 * k) as u64)) & 0xff) as u8
}

/// The eight bytes of `v`, least significant first.
pub open spec fn le_bytes(v: i64) -> Seq<u8> {
    Seq::new(8, |i: int| i64_byte(v, i))
}

/// The eight bytes of `v`, most significant first.
pub open spec fn be_bytes(v: i64) -> Seq<u8> {
    Seq::new(8, |i: int| i64_byte(v, 7 - i))
}

/// `a` comes strictly before `b` in the dictionary order on byte strings.
/// On strings of one length this is the order of the big-endian numbers
/// they spell (`lemma_lex_less_is_numeric`).
pub open spec fn lex_less(a: Seq<u8>, b: Seq<u8>) -> bool
    decreases a.len(),
{
    if b.len() == 0 {
        false
    } else if a.len() == 0 {
        true
    } else if a[0] != b[0] {
        a[0] < b[0]
    } else {
        lex_less(a.skip(1), b.skip(1))
    }
}

/// Whether every byte of `s` is zero.
pub open spec fn all_zero(s: Seq<u8>) -> bool {
    forall|i: int| 0 <= i < s.len() ==> s[i] == 0u8
}

/// The number that `s` spells when read most significant byte first.
pub open spec fn be_value(s: Seq<u8>) -> nat
    decreases s.len(),
{
    if s.len() == 0 {
        0
    } else {
        be_value(s.drop_last()) * 256 + s.last() as nat
    }
}

fn byte_of(v: i64, k: usize) -> (b: u8)
    requires
        k < 8,
    ensures
        b == i64_byte(v, k as int),
{
    let x: u64 = #[verifier::truncate]
    (v as u64);
    let shift: u64 = 8 * (k as u64);
    let low: u64 = (x >> shift) & 0xff;
    assert(low <= 0xff) by (bit_vector)
        requires
            low == (x >> shift) & 0xff,
    ;
    #[verifier::truncate]
    (low as u8)
}

/// The little-endian encoding of `v`.
pub fn i64_to_le_bytes(v: i64) -> (out: [u8; 8])
    ensures
        out@ == le_bytes(v),
{
    let mut out: [u8; 8] = [0u8; 8];
    let mut k: usize = 0;
    while k < 8
        invariant
            k <= 8,
            forall|j: int| 0 <= j < k ==> out@[j] == i64_byte(v, j),
        decreases 8 - k,
    {
        out[k] = byte_of(v, k);
        k = k + 1;
    }
    assert(out@ =~= le_bytes(v));
    out
}

/// The big-endian encoding of `v`.
pub fn i64_to_be_bytes(v: i64) -> (out: [u8; 8])
    ensures
        out@ == be_bytes(v),
{
    let mut out: [u8; 8] = [0u8; 8];
    let mut k: usize = 0;
    while k < 8
        invariant
            k <= 8,
            forall|j: int| 0 <= j < k ==> out@[j] == i64_byte(v, 7 - j),
        decreases 8 - k,
    {
        out[k] = byte_of(v, 7 - k);
        k = k + 1;
    }
    assert(out@ =~= be_bytes(v));
    out
}

/// Whether `a` is strictly below `b`, comparing byte by byte from the front:
/// the comparison of two 256-bit big-endian numbers.
pub fn bytes_less(a: &[u8; 32], b: &[u8; 32]) -> (less: bool)
    ensures
        less == lex_less(a@, b@),
{
    let mut i: usize = 0;
    assert(a@.skip(0) =~= a@ && b@.skip(0) =~= b@);
    while i < 32
        invariant
            i <= 32,
            a@.len() == 32,
            b@.len() == 32,
            lex_less(a@, b@) == lex_less(a@.skip(i as int), b@.skip(i as int)),
        decreases 32 - i,
    {
        let x: u8 = a[i];
        let y: u8 = b[i];
        proof {
            let sa = a@.skip(i as int);
            let sb = b@.skip(i as int);
            assert(sa[0] == x && sb[0] == y);
            assert(sa.skip(1) =~= a@.skip(i + 1));
            assert(sb.skip(1) =~= b@.skip(i + 1));
        }
        if x != y {
            return x < y;
        }
        i = i + 1;
    }
    false
}

/// Appends the bytes of `src` to `dst`.
pub fn extend_bytes(dst: &mut Vec<u8>, src: &[u8])
    ensures
        final(dst)@ == old(dst)@ + src@,
{
    let n: usize = src.len();
    let mut i: usize = 0;
    while i < n
        invariant
            i <= n,
            n == src@.len(),
            dst@ == old(dst)@ + src@.take(i as int),
        decreases n - i,
    {
        dst.push(src[i]);
        assert(src@.take(i + 1) =~= src@.take(i as int).push(src@[i as int]));
        i = i + 1;
    }
    assert(src@.take(n as int) =~= src@);
}

/// Two strings of one length that differ spell different numbers, and the
/// first byte in which they differ decides which is the smaller.
pub proof fn lemma_lex_less_is_numeric(a: Seq<u8>, b: Seq<u8>)
    requires
        a.len() == b.len(),
    ensures
        lex_less(a, b) <==> be_value(a) < be_value(b),
        a == b <==> be_value(a) == be_value(b),
    decreases a.len(),
{
    if a.len() == 0 {
        assert(a =~= b);
    } else {
        let n = a.len() as int;
        lemma_be_value_front(a);
        lemma_be_value_front(b);
        lemma_be_value_bound(a.skip(1));
        lemma_be_value_bound(b.skip(1));
        lemma_lex_less_is_numeric(a.skip(1), b.skip(1));
        let p = pow256((n - 1) as nat);
        let x = a[0] as int;
        let y = b[0] as int;
        if x < y {
            assert(x * p + p <= y * p) by (nonlinear_arith)
                requires
                    x + 1 <= y,
                    p >= 0,
            ;
        } else if y < x {
            assert(y * p + p <= x * p) by (nonlinear_arith)
                requires
                    y + 1 <= x,
                    p >= 0,
            ;
        } else {
            if a.skip(1) == b.skip(1) {
                assert(a =~= seq![a[0]] + a.skip(1));
                assert(b =~= seq![b[0]] + b.skip(1));
            }
            if a == b {
                assert(a.skip(1) =~= b.skip(1));
            }
        }
    }
}

/// 256 to the power `n`.
pub open spec fn pow256(n: nat) -> nat
    decreases n,
{
    if n == 0 {
        1
    } else {
        256 * pow256((n - 1) as nat)
    }
}

/// A string of `n` bytes spells a number below `256^n`.
pub proof fn lemma_be_value_bound(s: Seq<u8>)
    ensures
        be_value(s) < pow256(s.len()),
    decreases s.len(),
{
    if s.len() > 0 {
        lemma_be_value_bound(s.drop_last());
    }
}

/// The first byte weighs `256^(n-1)`; the rest spell the remainder.
pub proof fn lemma_be_value_front(s: Seq<u8>)
    requires
        s.len() > 0,
    ensures
        be_value(s) == s[0] as nat * pow256((s.len() - 1) as nat) + be_value(s.skip(1)),
    decreases s.len(),
{
    if s.len() == 1 {
        assert(s.drop_last() =~= Seq::<u8>::empty());
        assert(s.skip(1) =~= Seq::<u8>::empty());
        assert(be_value(s.drop_last()) == 0);
        assert(be_value(s.skip(1)) == 0);
        assert(pow256(0) == 1);
        assert(s.last() == s[0]);
        assert(s[0] as nat * pow256(0) == s[0] as nat) by (nonlinear_arith)
            requires
                pow256(0) == 1,
        ;
    } else {
        let t = s.drop_last();
        lemma_be_value_front(t);
        assert(t.skip(1) =~= s.skip(1).drop_last());
        assert(s.skip(1).last() == s.last());
        assert(t[0] == s[0]);
        let p = pow256((t.len() - 1) as nat);
        assert(pow256((s.len() - 1) as nat) == 256 * p);
        let hi = s[0] as nat;
        let rest = be_value(t.skip(1));
        assert((hi * p + rest) * 256 == hi * (256 * p) + rest * 256) by (nonlinear_arith);
        assert(be_value(t) == hi * p + rest);
        assert(be_value(s) == be_value(t) * 256 + s.last() as nat);
        assert(be_value(s.skip(1)) == rest * 256 + s.last() as nat);
        assert(be_value(s) == hi * (256 * p) + be_value(s.skip(1)));
    }
}

/// Nothing comes before a string of zeros of its own length.
pub proof fn lemma_nothing_below_zero(a: Seq<u8>, b: Seq<u8>)
    requires
        a.len() == b.len(),
        all_zero(b),
    ensures
        !lex_less(a, b),
    decreases a.len(),
{
    if a.len() > 0 {
        assert forall|j: int| 0 <= j < b.skip(1).len() implies b.skip(1)[j] == 0u8 by {
            assert(b.skip(1)[j] == b[j + 1]);
        }
        lemma_nothing_below_zero(a.skip(1), b.skip(1));
    }
}

/// The eight bytes tell the number: two numbers with the same big-endian
/// bytes, or the same little-endian bytes, are the same number.
pub proof fn lemma_i64_bytes_injective(a: i64, b: i64)
    ensures
        be_bytes(a) == be_bytes(b) ==> a == b,
        le_bytes(a) == le_bytes(b) ==> a == b,
{
    if be_bytes(a) == be_bytes(b) {
        assert forall|k: int| 0 <= k < 8 implies i64_byte(a, k) == i64_byte(b, k) by {
            assert(be_bytes(a)[7 - k] == i64_byte(a, k));
            assert(be_bytes(b)[7 - k] == i64_byte(b, k));
        }
        lemma_i64_from_bytes(a, b);
    }
    if le_bytes(a) == le_bytes(b) {
        assert forall|k: int| 0 <= k < 8 implies i64_byte(a, k) == i64_byte(b, k) by {
            assert(le_bytes(a)[k] == i64_byte(a, k));
            assert(le_bytes(b)[k] == i64_byte(b, k));
        }
        lemma_i64_from_bytes(a, b);
    }
}

proof fn lemma_i64_from_bytes(a: i64, b: i64)
    requires
        forall|k: int| 0 <= k < 8 ==> i64_byte(a, k) == i64_byte(b, k),
    ensures
        a == b,
{
    let x = a as u64;
    let y = b as u64;
    assert(i64_byte(a, 0) == i64_byte(b, 0));
    assert(i64_byte(a, 1) == i64_byte(b, 1));
    assert(i64_byte(a, 2) == i64_byte(b, 2));
    assert(i64_byte(a, 3) == i64_byte(b, 3));
    assert(i64_byte(a, 4) == i64_byte(b, 4));
    assert(i64_byte(a, 5) == i64_byte(b, 5));
    assert(i64_byte(a, 6) == i64_byte(b, 6));
    assert(i64_byte(a, 7) == i64_byte(b, 7));
    assert(x == y) by (bit_vector)
        requires
            (((x >> 0u64) & 0xff) as u8) == (((y >> 0u64) & 0xff) as u8),
            (((x >> 8u64) & 0xff) as u8) == (((y >> 8u64) & 0xff) as u8),
            (((x >> 16u64) & 0xff) as u8) == (((y >> 16u64) & 0xff) as u8),
            (((x >> 24u64) & 0xff) as u8) == (((y >> 24u64) & 0xff) as u8),
            (((x >> 32u64) & 0xff) as u8) == (((y >> 32u64) & 0xff) as u8),
            (((x >> 40u64) & 0xff) as u8) == (((y >> 40u64) & 0xff) as u8),
            (((x >> 48u64) & 0xff) as u8) == (((y >> 48u64) & 0xff) as u8),
            (((x >> 56u64) & 0xff) as u8) == (((y >> 56u64) & 0xff) as u8),
    ;
    assert(a == b) by (bit_vector)
        requires
            a as u64 == b as u64,
    ;
}

/// Leading zero bytes do not change the number.
pub proof fn lemma_be_value_skips_zeros(s: Seq<u8>, k: int)
    requires
        0 <= k <= s.len(),
        forall|i: int| 0 <= i < k ==> s[i] == 0u8,
    ensures
        be_value(s) == be_value(s.skip(k)),
    decreases k,
{
    if k == 0 {
        assert(s.skip(0) =~= s);
    } else {
        lemma_be_value_front(s);
        let p = pow256((s.len() - 1) as nat);
        assert(0 * p == 0) by (nonlinear_arith);
        let rest = s.skip(1);
        assert forall|i: int| 0 <= i < k - 1 implies rest[i] == 0u8 by {
            assert(rest[i] == s[i + 1]);
        }
        lemma_be_value_skips_zeros(rest, k - 1);
        assert(rest.skip(k - 1) =~= s.skip(k));
    }
}

} // verus!
