//! Time-based one-time passwords (HMAC-SHA1, 30-second steps, 6 digits) and
//! the base32 decoding of their shared secrets, with the record types of a
//! small console manager around them.

pub mod base32;
pub mod hmac;
pub mod totp;
pub mod entry;
pub mod kv;
pub mod otpauth;
pub mod cli;
pub mod text;
