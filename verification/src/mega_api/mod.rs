//! The MEGA API: error classification, request retries, login key
//! derivation, session establishment and the decoding of file and folder
//! metadata. Sending requests is left to the caller.

pub mod errors;
pub mod types;
pub mod request;
pub mod login;
pub mod session;
pub mod metadata;
