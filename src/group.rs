//! The group the protocol runs in: Ristretto over Curve25519, as curve25519-dalek
//! provides it.
//!
//! The group is cyclic of prime order `ℓ` and generated by the base point `B`, so
//! every point is `k·B` for exactly one `k < ℓ`. Points are modelled by that
//! logarithm and scalars by the integer they stand for; group arithmetic then
//! becomes arithmetic modulo `ℓ`.
use curve25519_dalek::ristretto::{CompressedRistretto, RistrettoPoint};
use curve25519_dalek::scalar::Scalar;
use vstd::prelude::*;

use crate::protoss_protocol::Error;

verus! {

#[verifier::external_type_specification]
#[verifier::external_body]
pub struct ExRistrettoPoint(RistrettoPoint);

#[verifier::external_type_specification]
#[verifier::external_body]
pub struct ExScalar(Scalar);

/// The order `ℓ = 2^252 + 27742317777372353535851937790883648493` of the group.
pub open spec fn group_order() -> nat {
    7237005577332262213973186563042994240857116359379907606001950938285454250989nat
}

/// The logarithm of a point to the base point: the `k < ℓ` with `p = k·B`.
/// `RistrettoPoint` is opaque here, so this is how contracts see a point; nothing
/// computes it, and the trusted items below state each group operation over it.
pub uninterp spec fn point_log(p: RistrettoPoint) -> nat;

/// The residue modulo `ℓ` that a scalar holds (its little-endian bytes, which
/// curve25519-dalek keeps reduced).
pub uninterp spec fn scalar_value(s: Scalar) -> nat;

/// The canonical 32-byte encoding of the point `k·B`, as `RistrettoPoint::compress`
/// gives it.
pub uninterp spec fn encoding_of(k: nat) -> [u8; 32];

/// The integer that a little-endian byte string encodes.
pub open spec fn le_value(b: Seq<u8>) -> nat
    decreases b.len(),
{
    if b.len() == 0 {
        0
    } else {
        b[0] as nat + 256 * le_value(b.drop_first())
    }
}

/// Whether some point is encoded by these 32 bytes.
pub open spec fn is_encoding(b: Seq<u8>) -> bool {
    exists|k: nat| k < group_order() && encoding_of(k)@ == b
}

/// Relies on `Scalar::from_bytes_mod_order`: reduces a little-endian integer modulo `ℓ`.
pub assume_specification[ Scalar::from_bytes_mod_order ](bytes: [u8; 32]) -> (r: Scalar)
    ensures
        scalar_value(r) == le_value(bytes@) % group_order(),
;

/// Relies on `RistrettoPoint::mul_base`: the multiple `s·B` of the base point.
pub assume_specification[ RistrettoPoint::mul_base ](scalar: &Scalar) -> (r: RistrettoPoint)
    ensures
        point_log(r) == scalar_value(*scalar) % group_order(),
;

/// Relies on `getrandom::getrandom`, which fills the buffer from the operating
/// system's secure source or reports why it could not.
#[verifier::external_body]
fn fill_random() -> (r: Result<[u8; 32], getrandom::Error>) {
    let mut bytes = [0u8; 32];
    getrandom::getrandom(&mut bytes)?;
    Ok(bytes)
}

/// Relies on `RistrettoPoint + RistrettoPoint`: the group operation.
#[verifier::external_body]
pub(crate) fn point_add(a: &RistrettoPoint, b: &RistrettoPoint) -> (r: RistrettoPoint)
    ensures
        point_log(r) == (point_log(*a) + point_log(*b)) % group_order(),
{
    a + b
}

/// Relies on `RistrettoPoint - RistrettoPoint`: the group operation with the inverse
/// of the second point.
#[verifier::external_body]
pub(crate) fn point_sub(a: &RistrettoPoint, b: &RistrettoPoint) -> (r: RistrettoPoint)
    ensures
        point_log(r) == (point_log(*a) - point_log(*b)) % (group_order() as int),
{
    a - b
}

/// Relies on `Scalar * RistrettoPoint`: scalar multiplication.
#[verifier::external_body]
pub(crate) fn scalar_mul(s: &Scalar, p: &RistrettoPoint) -> (r: RistrettoPoint)
    ensures
        point_log(r) == (scalar_value(*s) * point_log(*p)) % group_order(),
{
    s * p
}

/// Relies on `RistrettoPoint::compress`: the canonical encoding of a point, whose
/// last byte has its top bit clear.
#[verifier::external_body]
fn compress(p: &RistrettoPoint) -> (r: [u8; 32])
    ensures
        r == encoding_of(point_log(*p)),
        r[31] < 128,
{
    p.compress().to_bytes()
}

/// Relies on `CompressedRistretto::decompress`: the point that the bytes are the
/// canonical encoding of, if any. Encodings are canonical, so that point is unique,
/// and bytes whose top bit is set encode none.
#[verifier::external_body]
fn decompress(bytes: &[u8; 32]) -> (r: Option<RistrettoPoint>)
    ensures
        r is Some <==> is_encoding(bytes@),
        bytes[31] >= 128 ==> r is None,
        r matches Some(p) ==> forall|k: nat|
            k < group_order() && #[trigger] encoding_of(k)@ == bytes@ ==> point_log(p) == k,
{
    CompressedRistretto(*bytes).decompress()
}

/// A fresh scalar drawn uniformly from the operating system's secure source:
/// 32 random bytes reduced modulo `ℓ`. Fails when no entropy can be had.
pub fn random_scalar() -> (r: Result<Scalar, Error>)
    ensures
        r matches Ok(s) ==> scalar_value(s) < group_order(),
        r matches Err(e) ==> e is Random,
{
    match fill_random() {
        Ok(bytes) => Ok(Scalar::from_bytes_mod_order(bytes)),
        Err(e) => Err(Error::Random(e)),
    }
}

/// The 32-byte wire encoding of a point.
pub fn encode_point(p: &RistrettoPoint) -> (r: [u8; 32])
    ensures
        r == encoding_of(point_log(*p)),
{
    compress(p)
}

/// The point that 32 bytes received from the wire encode; `InvalidPoint` when they
/// are not the canonical encoding of any point (all of them when the top bit is set).
pub fn decode_point(bytes: &[u8; 32]) -> (r: Result<RistrettoPoint, Error>)
    ensures
        r is Ok <==> is_encoding(bytes@),
        r matches Ok(p) ==> encoding_of(point_log(p))@ == bytes@ && point_log(p) < group_order(),
        r matches Err(e) ==> e is InvalidPoint,
        bytes[31] >= 128 ==> r matches Err(Error::InvalidPoint),
{
    match decompress(bytes) {
        Some(p) => {
            proof {
                let k = choose|k: nat| k < group_order() && encoding_of(k)@ == bytes@;
                assert(encoding_of(k)@ == bytes@);
            }
            Ok(p)
        },
        None => Err(Error::InvalidPoint),
    }
}

} // verus!
