//! Connection protocol core of a virtual-world server: big-number helpers,
//! RSA with PKCS#1-style padding, Diffie-Hellman key agreement, RC4, and the
//! per-connection byte pipeline (policy probe, framing, decryption, message
//! assembly, rate limiting, keepalive supervision and dispatch decisions).

pub mod bignum;
pub mod crypto_error;
pub mod rsa;
pub mod rc4;
pub mod frame;
pub mod message;
pub mod policy;
pub mod rate_limit;
pub mod idle;
pub mod hex_utils;
pub mod dh;
pub mod connection;
pub mod packet_manager;
pub mod achievements;
pub mod server;
pub mod util;
pub mod config;
pub mod emulator;
pub mod figure;
