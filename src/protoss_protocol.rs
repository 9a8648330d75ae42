//! The three phases of the key exchange and the key derivation that binds the
//! session key to the transcript.
use curve25519_dalek::ristretto::RistrettoPoint;
use curve25519_dalek::scalar::Scalar;
use getrandom::Error as RandomError;
use sha2::{Digest, Sha512};
use vstd::arithmetic::div_mod::{
    lemma_add_mod_noop, lemma_mod_twice, lemma_mul_mod_noop_right, lemma_sub_mod_noop,
};
use vstd::prelude::*;
use vstd::string::StringSliceAdditionalSpecFns;

use crate::ec_operations::{
    concatenate_vectors, hash_to_point, hashed_point_log, joined, slice_views,
};
use crate::group::{
    encode_point, encoding_of, group_order, point_add, point_log, point_sub, random_scalar,
    scalar_mul, scalar_value,
};

verus! {

#[verifier::external_type_specification]
#[verifier::external_body]
pub struct ExRandomError(RandomError);

/// Why a phase of the protocol could not complete.
#[derive(Debug)]
pub enum Error {
    /// The operating system could not supply randomness.
    Random(RandomError),
    /// Bytes received from the peer do not encode a point.
    InvalidPoint,
}

impl Error {
    /// A sentence that says what went wrong.
    pub fn message(&self) -> (r: &'static str)
        ensures
            r@ == (match self {
                Error::Random(_) => "Random number generation failed"@,
                Error::InvalidPoint => "Invalid Ristretto point"@,
            }),
    {
        match self {
            Error::Random(_) => "Random number generation failed",
            Error::InvalidPoint => "Invalid Ristretto point",
        }
    }
}

impl From<RandomError> for Error {
    fn from(e: RandomError) -> (r: Error)
        ensures
            r == Error::Random(e),
    {
        Error::Random(e)
    }
}

impl vstd::std_specs::convert::FromSpecImpl<RandomError> for Error {
    open spec fn obeys_from_spec() -> bool {
        true
    }

    open spec fn from_spec(e: RandomError) -> Error {
        Error::Random(e)
    }
}

/// Length of the session key.
pub const SESSION_KEY_BYTES: usize = 32;

/// Length of each session identifier.
pub const SESSION_ID_BYTES: usize = 16;

/// What the initiator keeps between its two phases. It is neither cloned nor
/// built from outside: `der` consumes it, so it serves one session only.
pub struct ProtossState {
    x: Scalar,
    i: RistrettoPoint,
    p_i: [u8; SESSION_ID_BYTES],
    p_j: [u8; SESSION_ID_BYTES],
    v: RistrettoPoint,
}

impl ProtossState {
    /// The initiator's secret scalar `x`.
    pub closed spec fn secret(self) -> nat {
        scalar_value(self.x)
    }

    /// The message `I` that the initiator sent.
    pub closed spec fn sent(self) -> RistrettoPoint {
        self.i
    }

    /// The initiator's identifier `P_i`.
    pub closed spec fn initiator_id(self) -> [u8; SESSION_ID_BYTES] {
        self.p_i
    }

    /// The responder's identifier `P_j`.
    pub closed spec fn responder_id(self) -> [u8; SESSION_ID_BYTES] {
        self.p_j
    }

    /// The password's point `V`.
    pub closed spec fn password_point(self) -> RistrettoPoint {
        self.v
    }
}

/// The initiator's first message and the state it keeps.
pub struct ReturnTypeInit {
    pub i: RistrettoPoint,
    pub state: ProtossState,
}

/// The responder's message and its session key.
pub struct ReturnTypeRspDer {
    pub r: RistrettoPoint,
    pub k: [u8; SESSION_KEY_BYTES],
}

/// The logarithm of `s·B + V`, where `V` has logarithm `v`: an ephemeral value
/// blinded by the password's point.
pub open spec fn blinded(s: nat, v: nat) -> nat {
    (s + v) % group_order()
}

/// The logarithm of `s·(M − V)`: the Diffie–Hellman value that the secret `s`
/// gives with the peer's blinded message `M`, once unblinded.
pub open spec fn shared_secret(s: nat, m: nat, v: nat) -> nat {
    (s * (((m - v) % (group_order() as int)) as nat)) % group_order()
}

/// The bytes hashed into the key: `Z ‖ I ‖ R ‖ P_i ‖ P_j ‖ V`.
pub open spec fn transcript(z: nat, i: nat, r: nat, p_i: Seq<u8>, p_j: Seq<u8>, v: nat) -> Seq<u8> {
    encoding_of(z)@ + encoding_of(i)@ + encoding_of(r)@ + p_i + p_j + encoding_of(v)@
}

/// The first 32 bytes of SHA-512 over the transcript.
pub open spec fn session_key(z: nat, i: nat, r: nat, p_i: Seq<u8>, p_j: Seq<u8>, v: nat) -> Seq<u8> {
    sha512_of(transcript(z, i, r, p_i, p_j, v))@.take(SESSION_KEY_BYTES as int)
}

/// The key of an initiator with secret `x` and password point `v` that receives `r`.
pub open spec fn initiator_key(x: nat, v: nat, p_i: Seq<u8>, p_j: Seq<u8>, r: nat) -> Seq<u8> {
    session_key(shared_secret(x, r, v), blinded(x, v), r, p_i, p_j, v)
}

/// The key of a responder with secret `y` and password point `v` that receives `i`.
pub open spec fn responder_key(y: nat, v: nat, p_i: Seq<u8>, p_j: Seq<u8>, i: nat) -> Seq<u8> {
    session_key(shared_secret(y, i, v), i, blinded(y, v), p_i, p_j, v)
}

/// SHA-512 of the input.
pub uninterp spec fn sha512_of(input: Seq<u8>) -> [u8; 64];

/// Relies on `Sha512::digest`: the SHA-512 digest of the input.
#[verifier::external_body]
fn sha512(data: &[u8]) -> (r: [u8; 64])
    ensures
        r == sha512_of(data@),
{
    Sha512::digest(data).into()
}

/// `K = SHA-512(Z ‖ I ‖ R ‖ P_i ‖ P_j ‖ V)` cut to 32 bytes.
fn derive_key(
    z: &RistrettoPoint,
    i: &RistrettoPoint,
    r: &RistrettoPoint,
    p_i: &[u8; SESSION_ID_BYTES],
    p_j: &[u8; SESSION_ID_BYTES],
    v: &RistrettoPoint,
) -> (k: [u8; SESSION_KEY_BYTES])
    ensures
        k@ == session_key(point_log(*z), point_log(*i), point_log(*r), p_i@, p_j@, point_log(*v)),
{
    let z_bytes = encode_point(z);
    let i_bytes = encode_point(i);
    let r_bytes = encode_point(r);
    let v_bytes = encode_point(v);
    let parts: [&[u8]; 6] = [
        z_bytes.as_slice(),
        i_bytes.as_slice(),
        r_bytes.as_slice(),
        p_i.as_slice(),
        p_j.as_slice(),
        v_bytes.as_slice(),
    ];
    let concat = concatenate_vectors(parts.as_slice());
    proof {
        let views = slice_views(parts@);
        reveal_with_fuel(joined, 7);
        assert(joined(views) =~= transcript(
            point_log(*z),
            point_log(*i),
            point_log(*r),
            p_i@,
            p_j@,
            point_log(*v),
        ));
    }
    let hash = sha512(concat.as_slice());
    let mut k = [0u8; SESSION_KEY_BYTES];
    let mut n: usize = 0;
    while n < SESSION_KEY_BYTES
        invariant
            n <= SESSION_KEY_BYTES,
            forall|j: int| 0 <= j < n ==> k@[j] == hash@[j],
        decreases SESSION_KEY_BYTES - n,
    {
        k[n] = hash[n];
        n = n + 1;
    }
    assert(k@ =~= hash@.take(SESSION_KEY_BYTES as int));
    k
}


/// The initiator's first phase with its secret `x` given: returns `I = x·B + V`
/// with the state that `der` needs, where `V` is the password's point.
pub fn init_with_scalar(
    password: &str,
    p_i: &[u8; SESSION_ID_BYTES],
    p_j: &[u8; SESSION_ID_BYTES],
    x: Scalar,
) -> (out: ReturnTypeInit)
    ensures
        out.state.secret() == scalar_value(x),
        point_log(out.i) == blinded(scalar_value(x), hashed_point_log(password.spec_bytes())),
        out.state.sent() == out.i,
        out.state.initiator_id() == *p_i,
        out.state.responder_id() == *p_j,
        point_log(out.state.password_point()) == hashed_point_log(password.spec_bytes()),
{
    let x_point = RistrettoPoint::mul_base(&x);
    let v = hash_to_point(password);
    let i = point_add(&x_point, &v);
    proof {
        lemma_blinded(scalar_value(x), point_log(v));
    }
    let state = ProtossState { x, i, p_i: *p_i, p_j: *p_j, v };
    ReturnTypeInit { i, state }
}

/// The initiator's first phase: draws a fresh secret `x` and goes on as
/// `init_with_scalar`. Fails only when no randomness can be had.
pub fn init(
    password: &str,
    p_i: &[u8; SESSION_ID_BYTES],
    p_j: &mut [u8; SESSION_ID_BYTES],
) -> (r: Result<ReturnTypeInit, Error>)
    ensures
        *final(p_j) == *old(p_j),
        r matches Err(e) ==> e is Random,
        r matches Ok(out) ==> {
            let v = hashed_point_log(password.spec_bytes());
            &&& out.state.secret() < group_order()
            &&& point_log(out.i) == blinded(out.state.secret(), v)
            &&& out.state.sent() == out.i
            &&& out.state.initiator_id() == *p_i
            &&& out.state.responder_id() == *old(p_j)
            &&& point_log(out.state.password_point()) == v
        },
{
    let x = random_scalar()?;
    Ok(init_with_scalar(password, p_i, p_j, x))
}

/// The responder's phase with its secret `y` given: answers with `R = y·B + V` and
/// derives its key from `Z = y·(I − V)`.
pub fn rsp_der_with_scalar(
    password: &str,
    p_i: &[u8; SESSION_ID_BYTES],
    p_j: &[u8; SESSION_ID_BYTES],
    i: RistrettoPoint,
    y: Scalar,
) -> (out: ReturnTypeRspDer)
    ensures
        point_log(out.r) == blinded(scalar_value(y), hashed_point_log(password.spec_bytes())),
        out.k@ == responder_key(
            scalar_value(y),
            hashed_point_log(password.spec_bytes()),
            p_i@,
            p_j@,
            point_log(i),
        ),
{
    let y_point = RistrettoPoint::mul_base(&y);
    let v = hash_to_point(password);
    let r = point_add(&y_point, &v);
    let x_prime = point_sub(&i, &v);
    let z = scalar_mul(&y, &x_prime);
    let k = derive_key(&z, &i, &r, p_i, p_j, &v);
    proof {
        lemma_blinded(scalar_value(y), point_log(v));
    }
    ReturnTypeRspDer { r, k }
}

/// The responder's phase: draws a fresh secret `y` and goes on as
/// `rsp_der_with_scalar`. Fails only when no randomness can be had.
pub fn rsp_der(
    password: &str,
    p_i: &[u8; SESSION_ID_BYTES],
    p_j: &mut [u8; SESSION_ID_BYTES],
    i: RistrettoPoint,
) -> (r: Result<ReturnTypeRspDer, Error>)
    ensures
        *final(p_j) == *old(p_j),
        r matches Err(e) ==> e is Random,
        r matches Ok(out) ==> exists|y: nat|
            #![trigger blinded(y, hashed_point_log(password.spec_bytes()))]
            {
                &&& y < group_order()
                &&& point_log(out.r) == blinded(y, hashed_point_log(password.spec_bytes()))
                &&& out.k@ == responder_key(
                    y,
                    hashed_point_log(password.spec_bytes()),
                    p_i@,
                    old(p_j)@,
                    point_log(i),
                )
            },
{
    let y = random_scalar()?;
    let out = rsp_der_with_scalar(password, p_i, p_j, i, y);
    proof {
        let pw = hashed_point_log(password.spec_bytes());
        assert(point_log(out.r) == blinded(scalar_value(y), pw));
    }
    Ok(out)
}

/// Adding the password's point to `s·B` gives the blinded logarithm.
proof fn lemma_blinded(s: nat, v: nat)
    ensures
        ((s % group_order()) + v) % group_order() == blinded(s, v),
{
    let l = group_order() as int;
    lemma_add_mod_noop(s as int, v as int, l);
    lemma_add_mod_noop(s as int % l, v as int, l);
    lemma_mod_twice(s as int, l);
}

/// The initiator's second phase: consumes the state and derives the key from
/// `Z = x·(R − V)`. The password is not read again: the state holds `V`.
pub fn der(_password: &str, protoss_state: ProtossState, r: RistrettoPoint) -> (k: Result<
    [u8; SESSION_KEY_BYTES],
    Error,
>)
    ensures
        k matches Ok(key) && key@ == session_key(
            shared_secret(
                protoss_state.secret(),
                point_log(r),
                point_log(protoss_state.password_point()),
            ),
            point_log(protoss_state.sent()),
            point_log(r),
            protoss_state.initiator_id()@,
            protoss_state.responder_id()@,
            point_log(protoss_state.password_point()),
        ),
{
    let ProtossState { x, i, p_i, p_j, v } = protoss_state;
    let y_prime = point_sub(&r, &v);
    let z = scalar_mul(&x, &y_prime);
    Ok(derive_key(&z, &i, &r, &p_i, &p_j, &v))
}


/// Both parties of a run derive the same key. Whatever secrets `x` and `y` the two
/// draw, an initiator and a responder that share the password and the identifiers,
/// and receive each other's message unchanged, hash the same transcript: both
/// shared secrets are the logarithm `x·y` modulo `ℓ`.
pub proof fn lemma_keys_agree(password: Seq<u8>, p_i: Seq<u8>, p_j: Seq<u8>, x: nat, y: nat)
    ensures
        initiator_key(x, hashed_point_log(password), p_i, p_j, blinded(y, hashed_point_log(password)))
            == responder_key(y, hashed_point_log(password), p_i, p_j, blinded(x, hashed_point_log(password))),
{
    let v = hashed_point_log(password);
    let l = group_order() as int;
    lemma_unblind(y, v);
    lemma_unblind(x, v);
    lemma_mul_mod_noop_right(x as int, y as int, l);
    lemma_mul_mod_noop_right(y as int, x as int, l);
    assert(x as int * y as int == y as int * x as int) by (nonlinear_arith);
    assert(shared_secret(x, blinded(y, v), v) == shared_secret(y, blinded(x, v), v));
}

/// Taking the password's point back off a blinded value leaves the ephemeral
/// logarithm, modulo `ℓ`.
proof fn lemma_unblind(s: nat, v: nat)
    ensures
        (blinded(s, v) - v) % (group_order() as int) == (s as int) % (group_order() as int),
{
    let l = group_order() as int;
    let sv = s as int + v as int;
    let a = sv % l;
    lemma_sub_mod_noop(a, v as int, l);
    lemma_sub_mod_noop(sv, v as int, l);
    lemma_mod_twice(sv, l);
    assert(sv - v == s as int);
}

/// Changing either session identifier changes the bytes that are hashed into the
/// key: the transcript holds both identifiers at fixed places.
pub proof fn lemma_identifiers_in_transcript(
    z: nat,
    i: nat,
    r: nat,
    v: nat,
    p_i: Seq<u8>,
    p_j: Seq<u8>,
    q_i: Seq<u8>,
    q_j: Seq<u8>,
)
    requires
        p_i.len() == SESSION_ID_BYTES,
        p_j.len() == SESSION_ID_BYTES,
        q_i.len() == SESSION_ID_BYTES,
        q_j.len() == SESSION_ID_BYTES,
        p_i != q_i || p_j != q_j,
    ensures
        transcript(z, i, r, p_i, p_j, v) != transcript(z, i, r, q_i, q_j, v),
{
    let t = transcript(z, i, r, p_i, p_j, v);
    let u = transcript(z, i, r, q_i, q_j, v);
    assert(t.subrange(96, 112) =~= p_i);
    assert(u.subrange(96, 112) =~= q_i);
    assert(t.subrange(112, 128) =~= p_j);
    assert(u.subrange(112, 128) =~= q_j);
}

} // verus!
