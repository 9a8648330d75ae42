use curve25519_dalek::constants::RISTRETTO_BASEPOINT_POINT;
use curve25519_dalek::ristretto::RistrettoPoint;
use curve25519_dalek::scalar::Scalar;
use hex::encode;
use protoss_rust::ec_operations::hash_to_point;
use protoss_rust::{
    decode_point, der, encode_point, init, init_with_scalar, random_scalar, rsp_der,
    rsp_der_with_scalar, Error, SESSION_ID_BYTES,
};
use sha2::{Digest, Sha512};

fn small_scalar(n: u8) -> Scalar {
    let mut bytes = [0u8; 32];
    bytes[0] = n;
    Scalar::from_bytes_mod_order(bytes)
}

fn run(password_i: &str, password_j: &str, ids_j: ([u8; 16], [u8; 16])) -> ([u8; 32], [u8; 32]) {
    let p_i = [1u8; SESSION_ID_BYTES];
    let mut p_j = [2u8; SESSION_ID_BYTES];
    let init_result = init(password_i, &p_i, &mut p_j).unwrap();
    let (q_i, mut q_j) = ids_j;
    let rsp = rsp_der(password_j, &q_i, &mut q_j, init_result.i).unwrap();
    let k1 = der(password_i, init_result.state, rsp.r).unwrap();
    (k1, rsp.k)
}

#[test]
fn test_protoss_protocol() {
    // Initialize inputs
    let password = "my_secure_password";
    let p_i = [1u8; SESSION_ID_BYTES];
    let mut p_j = [2u8; SESSION_ID_BYTES];

    // Step 1: Init
    let init_result = init(password, &p_i, &mut p_j).unwrap();
    let i = init_result.i;

    // Step 2: Responder derivation
    let rsp_der_result = rsp_der(password, &p_i, &mut p_j, i).unwrap();
    let r = rsp_der_result.r;
    let k1 = rsp_der_result.k;

    // Step 3: Derivation
    let k2 = der(password, init_result.state, r).unwrap();

    // Verify keys match
    assert_eq!(k1, k2, "Session keys do not match");
    println!("Session key: {}", encode(k1));
}

#[test]
fn keys_agree_on_every_run() {
    for _ in 0..8 {
        let (k1, k2) = run("my_secure_password", "my_secure_password", ([1u8; 16], [2u8; 16]));
        assert_eq!(k1, k2);
    }
}

#[test]
fn keys_agree_with_empty_password() {
    let (k1, k2) = run("", "", ([1u8; 16], [2u8; 16]));
    assert_eq!(k1, k2);
}

#[test]
fn identifiers_are_kept_unchanged() {
    let p_i = [1u8; SESSION_ID_BYTES];
    let mut p_j = [2u8; SESSION_ID_BYTES];
    let init_result = init("pw", &p_i, &mut p_j).unwrap();
    assert_eq!(p_j, [2u8; 16]);
    let _ = rsp_der("pw", &p_i, &mut p_j, init_result.i).unwrap();
    assert_eq!(p_j, [2u8; 16]);
}

#[test]
fn wrong_password_gives_other_keys() {
    let (k1, k2) = run("my_secure_password", "my_secure_passwore", ([1u8; 16], [2u8; 16]));
    assert_ne!(k1, k2);
}

#[test]
fn other_initiator_id_gives_other_keys() {
    let mut q_i = [1u8; 16];
    q_i[15] = 3;
    let (k1, k2) = run("my_secure_password", "my_secure_password", (q_i, [2u8; 16]));
    assert_ne!(k1, k2);
}

#[test]
fn other_responder_id_gives_other_keys() {
    let mut q_j = [2u8; 16];
    q_j[0] = 0;
    let (k1, k2) = run("my_secure_password", "my_secure_password", ([1u8; 16], q_j));
    assert_ne!(k1, k2);
}

#[test]
fn initiations_differ_and_both_interoperate() {
    let password = "my_secure_password";
    let p_i = [1u8; SESSION_ID_BYTES];
    let mut p_j = [2u8; SESSION_ID_BYTES];
    let first = init(password, &p_i, &mut p_j).unwrap();
    let second = init(password, &p_i, &mut p_j).unwrap();
    assert_ne!(encode_point(&first.i), encode_point(&second.i));

    let rsp1 = rsp_der(password, &p_i, &mut p_j, first.i).unwrap();
    let rsp2 = rsp_der(password, &p_i, &mut p_j, second.i).unwrap();
    assert_eq!(der(password, first.state, rsp1.r).unwrap(), rsp1.k);
    assert_eq!(der(password, second.state, rsp2.r).unwrap(), rsp2.k);
    assert_ne!(rsp1.k, rsp2.k);
}

#[test]
fn all_ones_bytes_do_not_decode() {
    assert!(matches!(decode_point(&[0xFFu8; 32]), Err(Error::InvalidPoint)));
}

#[test]
fn negative_encoding_does_not_decode() {
    let mut bytes = [0u8; 32];
    bytes[0] = 1;
    assert!(matches!(decode_point(&bytes), Err(Error::InvalidPoint)));
}

#[test]
fn base_point_encoding() {
    assert_eq!(
        encode(encode_point(&RISTRETTO_BASEPOINT_POINT)),
        "e2f2ae0a6abc4e71a884a961c500515f58e30b6aa582dd8db6a65945e08d2d76"
    );
}

#[test]
fn identity_decodes_from_zero_bytes() {
    let p = decode_point(&[0u8; 32]).unwrap();
    assert_eq!(encode_point(&p), [0u8; 32]);
}

#[test]
fn wire_values_round_trip() {
    let p_i = [1u8; SESSION_ID_BYTES];
    let mut p_j = [2u8; SESSION_ID_BYTES];
    let init_result = init("my_secure_password", &p_i, &mut p_j).unwrap();
    let bytes = encode_point(&init_result.i);
    let decoded = decode_point(&bytes).unwrap();
    assert_eq!(decoded, init_result.i);
    let rsp = rsp_der("my_secure_password", &p_i, &mut p_j, decoded).unwrap();
    let r = decode_point(&encode_point(&rsp.r)).unwrap();
    assert_eq!(der("my_secure_password", init_result.state, r).unwrap(), rsp.k);
}

#[test]
fn password_point_depends_on_password_alone() {
    let a = encode_point(&hash_to_point("my_secure_password"));
    let b = encode_point(&hash_to_point("my_secure_password"));
    let c = encode_point(&hash_to_point("my_secure_passwore"));
    assert_eq!(a, b);
    assert_ne!(a, c);
    assert!(decode_point(&a).is_ok());
}

#[test]
fn random_scalars_differ() {
    let a = random_scalar().unwrap();
    let b = random_scalar().unwrap();
    assert_ne!(a, b);
    assert_eq!(a.to_bytes()[31] >> 7, 0);
}

#[test]
fn chosen_secrets_give_the_expected_messages_and_key() {
    let password = "my_secure_password";
    let p_i = [1u8; 16];
    let p_j = [2u8; 16];
    let v = hash_to_point(password);

    let out = init_with_scalar(password, &p_i, &p_j, small_scalar(3));
    assert_eq!(out.i, RistrettoPoint::mul_base(&small_scalar(3)) + v);

    let rsp = rsp_der_with_scalar(password, &p_i, &p_j, out.i, small_scalar(2));
    assert_eq!(rsp.r, RistrettoPoint::mul_base(&small_scalar(2)) + v);

    let z = RistrettoPoint::mul_base(&small_scalar(6));
    let mut transcript = Vec::new();
    transcript.extend_from_slice(z.compress().as_bytes());
    transcript.extend_from_slice(out.i.compress().as_bytes());
    transcript.extend_from_slice(rsp.r.compress().as_bytes());
    transcript.extend_from_slice(&p_i);
    transcript.extend_from_slice(&p_j);
    transcript.extend_from_slice(v.compress().as_bytes());
    let hash = Sha512::digest(&transcript);
    assert_eq!(rsp.k[..], hash[..32]);

    assert_eq!(der(password, out.state, rsp.r).unwrap(), rsp.k);
}

#[test]
fn zero_secret_sends_the_password_point() {
    let out = init_with_scalar("pw", &[0u8; 16], &[0u8; 16], small_scalar(0));
    assert_eq!(out.i, hash_to_point("pw"));
}

#[test]
fn error_messages() {
    assert_eq!(Error::InvalidPoint.message(), "Invalid Ristretto point");
}
