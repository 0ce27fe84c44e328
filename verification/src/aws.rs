//! Talking to S3: response parsing, request signing, profiles and the
//! request engine.

pub mod xml;
pub mod signer;
pub mod credentials;
pub mod s3_backend;
