//! Cryptographic primitives from their NIST definitions: AES in CBC mode,
//! the SHA-512 family, HMAC over it, and PBKDF2.

pub mod sha_512;
pub mod hmac;
pub mod pbkdf2;
pub mod aes;
pub mod cbc;
