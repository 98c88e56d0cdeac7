//! Key management, file encryption, signing and log handling for a small
//! desktop crypto tool, with the text and byte processing verified.

pub mod text;
pub mod log_format;
pub mod log_parse;
pub mod log_roundtrip;
pub mod encoding;
pub mod symmetric;
pub mod rsa_keys;
pub mod signing;
