//! Decoding of fixed-width little-endian unsigned integers.

use vstd::prelude::*;

use crate::zip_error::ZipError;

verus! {

/// `256^k`.
pub open spec fn pow256(k: nat) -> nat
    decreases k,
{
    if k == 0 {
        1
    } else {
        256 * pow256((k - 1) as nat)
    }
}

/// The unsigned integer that `s` encodes in little-endian order.
pub open spec fn le_value(s: Seq<u8>) -> nat
    decreases s.len(),
{
    if s.len() == 0 {
        0
    } else {
        s[0] as nat + 256 * le_value(s.drop_first())
    }
}

/// The `width` little-endian bytes that encode `v` (modulo `256^width`).
pub open spec fn le_bytes(v: nat, width: nat) -> Seq<u8>
    decreases width,
{
    if width == 0 {
        Seq::empty()
    } else {
        seq![(v % 256) as u8] + le_bytes(v / 256, (width - 1) as nat)
    }
}

pub proof fn lemma_pow256_positive(k: nat)
    ensures
        pow256(k) >= 1,
    decreases k,
{
    if k > 0 {
        lemma_pow256_positive((k - 1) as nat);
    }
}

/// A value read from `s` is below `256^|s|`.
pub proof fn lemma_le_value_bound(s: Seq<u8>)
    ensures
        le_value(s) < pow256(s.len()),
    decreases s.len(),
{
    if s.len() > 0 {
        lemma_le_value_bound(s.drop_first());
        assert(le_value(s) < pow256(s.len())) by (nonlinear_arith)
            requires
                le_value(s) == s[0] as nat + 256 * le_value(s.drop_first()),
                le_value(s.drop_first()) < pow256((s.len() - 1) as nat),
                pow256(s.len()) == 256 * pow256((s.len() - 1) as nat),
                s[0] < 256,
        ;
    }
}

/// Splitting off the lowest byte of a subrange.
pub proof fn lemma_le_value_subrange_step(s: Seq<u8>, i: int, j: int)
    requires
        0 <= i < j <= s.len(),
    ensures
        le_value(s.subrange(i, j)) == s[i] as nat + 256 * le_value(s.subrange(i + 1, j)),
{
    assert(s.subrange(i, j).drop_first() =~= s.subrange(i + 1, j));
}

/// Encoding what was decoded gives back the bytes.
pub proof fn lemma_le_bytes_of_value(s: Seq<u8>)
    ensures
        le_bytes(le_value(s), s.len()) == s,
    decreases s.len(),
{
    if s.len() > 0 {
        let rest = s.drop_first();
        lemma_le_bytes_of_value(rest);
        let v = le_value(s);
        assert(v % 256 == s[0] as nat && v / 256 == le_value(rest)) by (nonlinear_arith)
            requires
                v == s[0] as nat + 256 * le_value(rest),
                s[0] < 256,
        ;
        assert(le_bytes(v, s.len()) =~= seq![s[0]] + rest);
        assert(seq![s[0]] + rest =~= s);
    }
}

/// Reads the little-endian value of `bytes`, at most eight of them.
fn le_fold(bytes: &[u8]) -> (r: u64)
    requires
        bytes@.len() <= 8,
    ensures
        r as nat == le_value(bytes@),
{
    let n = bytes.len();
    let mut v: u64 = 0;
    let mut i: usize = n;
    proof {
        reveal_with_fuel(pow256, 9);
        assert(bytes@.subrange(n as int, n as int) =~= Seq::<u8>::empty());
    }
    while i > 0
        invariant
            n == bytes@.len(),
            n <= 8,
            i <= n,
            v as nat == le_value(bytes@.subrange(i as int, n as int)),
            v as nat <= pow256((n - i) as nat) - 1,
            pow256(8) == 0x1_0000_0000_0000_0000,
        decreases i,
    {
        i = i - 1;
        proof {
            lemma_le_value_subrange_step(bytes@, i as int, n as int);
            lemma_pow256_monotone((n - i) as nat, 8);
            assert(pow256((n - i) as nat) == 256 * pow256((n - i - 1) as nat));
            assert(v as nat * 256 + bytes@[i as int] as nat <= pow256((n - i) as nat) - 1)
                by (nonlinear_arith)
                requires
                    v as nat <= pow256((n - i - 1) as nat) - 1,
                    pow256((n - i) as nat) == 256 * pow256((n - i - 1) as nat),
                    bytes@[i as int] < 256,
            ;
        }
        v = v * 256 + bytes[i] as u64;
    }
    assert(bytes@.subrange(0, n as int) =~= bytes@);
    v
}

pub proof fn lemma_pow256_monotone(a: nat, b: nat)
    requires
        a <= b,
    ensures
        pow256(a) <= pow256(b),
    decreases b - a,
{
    if a < b {
        lemma_pow256_monotone(a, (b - 1) as nat);
        lemma_pow256_positive((b - 1) as nat);
    }
}

/// An unsigned integer type that can be decoded from its little-endian bytes.
pub trait FromLeBytes: Sized {
    /// The number of bytes of the encoding.
    spec fn spec_width() -> nat;

    /// The value as a natural number.
    spec fn spec_value(v: Self) -> nat;

    fn width() -> (r: usize)
        ensures
            r as nat == Self::spec_width(),
            1 <= r <= 8,
    ;

    fn from(bytes: &[u8]) -> (r: Self)
        requires
            bytes@.len() == Self::spec_width(),
        ensures
            Self::spec_value(r) == le_value(bytes@),
    ;
}

impl FromLeBytes for u16 {
    open spec fn spec_width() -> nat {
        2
    }

    open spec fn spec_value(v: u16) -> nat {
        v as nat
    }

    fn width() -> (r: usize) {
        2
    }

    fn from(bytes: &[u8]) -> (r: u16) {
        proof {
            lemma_le_value_bound(bytes@);
            reveal_with_fuel(pow256, 3);
        }
        le_fold(bytes) as u16
    }
}

impl FromLeBytes for u32 {
    open spec fn spec_width() -> nat {
        4
    }

    open spec fn spec_value(v: u32) -> nat {
        v as nat
    }

    fn width() -> (r: usize) {
        4
    }

    fn from(bytes: &[u8]) -> (r: u32) {
        proof {
            lemma_le_value_bound(bytes@);
            reveal_with_fuel(pow256, 5);
        }
        le_fold(bytes) as u32
    }
}

impl FromLeBytes for u64 {
    open spec fn spec_width() -> nat {
        8
    }

    open spec fn spec_value(v: u64) -> nat {
        v as nat
    }

    fn width() -> (r: usize) {
        8
    }

    fn from(bytes: &[u8]) -> (r: u64) {
        le_fold(bytes)
    }
}

/// Decodes a `T` from `bytes` at `*offset` and advances the offset past it.
/// Fails, leaving the offset unchanged, when fewer bytes remain than `T` needs.
pub fn read_to<T: FromLeBytes>(bytes: &[u8], offset: &mut usize) -> (r: Result<T, ZipError>)
    ensures
        r is Ok <==> *old(offset) + T::spec_width() <= bytes@.len(),
        r matches Ok(v) ==> {
            &&& T::spec_value(v) == le_value(
                bytes@.subrange(*old(offset) as int, *old(offset) + T::spec_width()),
            )
            &&& *final(offset) == *old(offset) + T::spec_width()
        },
        r matches Err(e) ==> e == ZipError::Truncated && *final(offset) == *old(offset),
{
    let width = T::width();
    let begin = *offset;
    if begin > bytes.len() || bytes.len() - begin < width {
        return Err(ZipError::Truncated);
    }
    let end = begin + width;
    let slice = vstd::slice::slice_subrange(bytes, begin, end);
    *offset = end;
    Ok(T::from(slice))
}

} // verus!
