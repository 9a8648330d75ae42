//! Helpers over bytes and the map from passwords to points.
use curve25519_dalek::ristretto::RistrettoPoint;
use sha2::Sha512;
use vstd::arithmetic::power2::{
    lemma2_to64, lemma_pow2_adds, lemma_pow2_pos, lemma_pow2_strictly_increases, pow2,
};
use vstd::prelude::*;
use vstd::string::StringSliceAdditionalSpecFns;

use crate::group::{group_order, point_log};

verus! {

/// Length of the hash that is mapped onto the group.
pub const INPUT_LEN_RISTRETTO_HASH_TO_POINT: usize = 64;

/// Length of an encoded point.
pub const POINT_LEN: usize = 32;

/// Length of an encoded scalar.
pub const SCALAR_LEN: usize = 32;

/// The logarithm of the point that SHA-512 of `input`, mapped onto the group,
/// gives.
pub uninterp spec fn hashed_point_log(input: Seq<u8>) -> nat;

/// Relies on `RistrettoPoint::hash_from_bytes::<Sha512>`: a point of the group
/// that depends on the input bytes alone.
#[verifier::external_body]
fn hash_from_bytes(input: &[u8]) -> (r: RistrettoPoint)
    ensures
        point_log(r) == hashed_point_log(input@),
        point_log(r) < group_order(),
{
    RistrettoPoint::hash_from_bytes::<Sha512>(input)
}

/// The point that a password stands for, from its UTF-8 bytes.
pub fn hash_to_point(password: &str) -> (r: RistrettoPoint)
    ensures
        point_log(r) == hashed_point_log(password.spec_bytes()),
        point_log(r) < group_order(),
{
    hash_from_bytes(password.as_bytes())
}

/// The byte strings of `parts`, one after another.
pub open spec fn joined(parts: Seq<Seq<u8>>) -> Seq<u8>
    decreases parts.len(),
{
    if parts.len() == 0 {
        Seq::empty()
    } else {
        joined(parts.drop_last()) + parts.last()
    }
}

/// The views of a list of byte slices.
pub open spec fn slice_views(inputs: Seq<&[u8]>) -> Seq<Seq<u8>> {
    inputs.map_values(|s: &[u8]| s@)
}

/// Concatenates byte slices in order.
pub fn concatenate_vectors(inputs: &[&[u8]]) -> (r: Vec<u8>)
    ensures
        r@ == joined(slice_views(inputs@)),
{
    let mut out: Vec<u8> = Vec::new();
    let mut n: usize = 0;
    while n < inputs.len()
        invariant
            n <= inputs@.len(),
            out@ == joined(slice_views(inputs@).take(n as int)),
        decreases inputs@.len() - n,
    {
        let part: &[u8] = inputs[n];
        let ghost before = out@;
        let mut m: usize = 0;
        while m < part.len()
            invariant
                m <= part@.len(),
                out@ == before + part@.take(m as int),
            decreases part@.len() - m,
        {
            out.push(part[m]);
            m = m + 1;
            assert(out@ =~= before + part@.take(m as int));
        }
        assert(part@.take(m as int) =~= part@);
        assert(slice_views(inputs@).take(n + 1).drop_last() =~= slice_views(inputs@).take(n as int));
        n = n + 1;
    }
    assert(slice_views(inputs@).take(n as int) =~= slice_views(inputs@));
    out
}


/// The integer that a big-endian byte string encodes.
pub open spec fn be_value(b: Seq<u8>) -> nat
    decreases b.len(),
{
    if b.len() == 0 {
        0
    } else {
        b[0] as nat * pow2(8 * (b.len() - 1) as nat) + be_value(b.drop_first())
    }
}

/// The number of binary digits of `n`, none for zero.
pub open spec fn bit_length(n: nat) -> nat
    decreases n,
{
    if n == 0 {
        0
    } else {
        1 + bit_length(n / 2)
    }
}

proof fn lemma_be_value_bound(b: Seq<u8>)
    ensures
        be_value(b) < pow2(8 * b.len()),
    decreases b.len(),
{
    if b.len() == 0 {
        lemma2_to64();
    } else {
        let rest = b.drop_first();
        let p = pow2(8 * rest.len());
        lemma_be_value_bound(rest);
        lemma_pow2_adds(8, 8 * rest.len());
        lemma2_to64();
        assert(8 * (b.len() - 1) == 8 * rest.len());
        assert(8 + 8 * rest.len() == 8 * b.len());
        assert(b[0] as nat * p <= 255 * p) by (nonlinear_arith)
            requires
                b[0] <= 255,
        ;
    }
}

proof fn lemma_bit_length_between(n: nat, k: nat)
    requires
        k >= 1,
        pow2((k - 1) as nat) <= n < pow2(k),
    ensures
        bit_length(n) == k,
    decreases k,
{
    lemma2_to64();
    if k > 1 {
        lemma_pow2_adds(1, (k - 2) as nat);
        lemma_pow2_adds(1, (k - 1) as nat);
        assert((1 + (k - 2)) as nat == (k - 1) as nat);
        assert((1 + (k - 1)) as nat == k);
        lemma_bit_length_between(n / 2, (k - 1) as nat);
    } else {
        assert(n == 1);
        assert(bit_length(0) == 0);
    }
}

proof fn lemma_leading_zeros(b: Seq<u8>, i: int)
    requires
        0 <= i <= b.len(),
        forall|j: int| 0 <= j < i ==> b[j] == 0,
    ensures
        be_value(b) == be_value(b.subrange(i, b.len() as int)),
    decreases i,
{
    if i > 0 {
        let rest = b.drop_first();
        lemma_leading_zeros(rest, i - 1);
        assert(rest.subrange(i - 1, rest.len() as int) =~= b.subrange(i, b.len() as int));
    } else {
        assert(b.subrange(0, b.len() as int) =~= b);
    }
}

/// The number of significant bits of `data` read as a big-endian integer.
pub fn get_bit_length(data: &[u8]) -> (r: usize)
    requires
        data@.len() * 8 <= usize::MAX,
    ensures
        r == bit_length(be_value(data@)),
{
    let mut i: usize = 0;
    while i < data.len()
        invariant
            i <= data@.len(),
            data@.len() * 8 <= usize::MAX,
            forall|j: int| 0 <= j < i ==> data@[j] == 0,
        decreases data@.len() - i,
    {
        let byte: u8 = data[i];
        if byte != 0 {
            let mut leading_zeros: usize = 0;
            let mut test_byte: u8 = byte;
            proof {
                lemma2_to64();
            }
            while (test_byte & 0x80) == 0
                invariant
                    leading_zeros <= 7,
                    byte >= 1,
                    test_byte as nat == byte as nat * pow2(leading_zeros as nat),
                decreases 7 - leading_zeros,
            {
                let t = test_byte;
                assert(t < 128) by (bit_vector)
                    requires
                        (t & 0x80) == 0,
                ;
                assert(t << 1 == 2 * t) by (bit_vector)
                    requires
                        t < 128,
                ;
                proof {
                    lemma2_to64();
                    lemma_pow2_adds(leading_zeros as nat, 1);
                    assert(byte as nat * pow2(leading_zeros as nat) >= pow2(leading_zeros as nat))
                        by (nonlinear_arith)
                        requires
                            byte >= 1,
                    ;
                    if leading_zeros >= 7 {
                        if leading_zeros > 7 {
                            lemma_pow2_strictly_increases(7, leading_zeros as nat);
                        }
                    }
                    assert(byte as nat * pow2((leading_zeros + 1) as nat) == 2 * (byte as nat
                        * pow2(leading_zeros as nat))) by (nonlinear_arith)
                        requires
                            pow2((leading_zeros + 1) as nat) == pow2(leading_zeros as nat) * 2,
                    ;
                }
                test_byte = test_byte << 1;
                leading_zeros = leading_zeros + 1;
            }
            let n: usize = data.len() - i;
            proof {
                let t = test_byte;
                assert(t >= 128) by (bit_vector)
                    requires
                        (t & 0x80) != 0,
                ;
                let lz = leading_zeros as nat;
                let pl = pow2(lz);
                let bits = (8 - lz) as nat;
                lemma2_to64();
                lemma_pow2_pos(lz);
                lemma_pow2_adds((7 - lz) as nat, lz);
                lemma_pow2_adds(bits, lz);
                assert((7 - lz) as nat + lz == 7);
                assert(bits + lz == 8);
                let lo = pow2((7 - lz) as nat);
                let hi = pow2(bits);
                assert(byte as nat >= lo) by (nonlinear_arith)
                    requires
                        byte as nat * pl >= lo * pl,
                        pl > 0,
                ;
                assert(byte as nat + 1 <= hi) by (nonlinear_arith)
                    requires
                        byte as nat * pl < hi * pl,
                        pl > 0,
                ;
                let rest = data@.subrange(i as int, data@.len() as int);
                lemma_leading_zeros(data@, i as int);
                lemma_be_value_bound(rest.drop_first());
                let e = 8 * (rest.len() - 1) as nat;
                let p = pow2(e);
                assert(rest[0] == byte);
                assert(8 * rest.drop_first().len() == e);
                lemma_pow2_adds((7 - lz) as nat, e);
                lemma_pow2_adds(bits, e);
                assert(lo * p <= byte as nat * p) by (nonlinear_arith)
                    requires
                        lo <= byte as nat,
                ;
                assert(byte as nat * p + p <= hi * p) by (nonlinear_arith)
                    requires
                        byte as nat + 1 <= hi,
                ;
                assert((bits + e - 1) as nat == ((7 - lz) as nat + e) as nat);
                lemma_bit_length_between(be_value(rest), bits + e);
                assert(bits + e == n * 8 - lz);
            }
            return n * 8 - leading_zeros;
        }
        i = i + 1;
    }
    proof {
        lemma_leading_zeros(data@, i as int);
        assert(data@.subrange(i as int, data@.len() as int).len() == 0);
    }
    0
}

} // verus!
