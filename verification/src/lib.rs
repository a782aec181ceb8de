//! Verified core of a zero-knowledge login service: decoding of the sign-up
//! request, derivation of the public input from the user's secret, the byte
//! layouts sent to the Solana program, and the program's account state.

pub mod bits;
pub mod handlers;
pub mod hex;
pub mod program;
pub mod scalar;
pub mod sol_connect;
pub mod zkpgenerate;

pub use handlers::{serialize_proof, serialize_verifying_key, zkp_signup_public_input};
pub use hex::hash_to_array;
pub use scalar::ScalarWrapper;
pub use sol_connect::{get_discriminant, SigninData};
pub use zkpgenerate::zkpproof_sign_up;
