//! A balanced password-authenticated key exchange over the Ristretto group.
//!
//! An initiator and a responder that share only a password derive a common
//! session key over two messages, each a point blinded by the password's point.

pub mod ec_operations;
pub mod group;
pub mod logger;
pub mod protoss_protocol;

pub use group::{decode_point, encode_point, random_scalar};
pub use protoss_protocol::{
    der, init, init_with_scalar, rsp_der, rsp_der_with_scalar, Error, ProtossState, ReturnTypeInit, ReturnTypeRspDer, SESSION_ID_BYTES,
    SESSION_KEY_BYTES,
};
