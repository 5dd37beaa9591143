use std::sync::Arc;

use num_bigint::BigInt;
use num_bigint::BigUint;
use sulove::bignum::BigIntegerUtils;
use sulove::crypto_error::{CryptoErrorKind, HabboCryptoError, HabboCryptoException, InputProblem};
use sulove::dh::{HabboDiffieHellman, HabboEncryption};
use sulove::hex_utils::HexUtils;
use sulove::rc4::HabboRC4;
use sulove::rsa::HabboRSACrypto;

const E: &str = "10001";
const N: &str = "7d2be5742569abe235b6d2bdab82b610f5862282b9a1a75aac22f672cbf97c339a4af34718beb80c25953e352fe1e2db9283de56df4a1a7290c7f4e82761d45b";
const D: &str = "26f20c7f79d08a2964fb1050f157471cb9b7d56f0520f5f8314ce38f4e45becdc3af6fea95dfca232e980ff56034caa50f8632f74af8a80a989b970498e416c1";

fn key_pair() -> HabboRSACrypto {
    HabboRSACrypto::new_with_private_key(E, N, D)
}

#[test]
fn test_to_unsigned_byte_array() {
    let big_int = BigInt::parse_bytes(b"128", 10).unwrap();
    let bytes = BigIntegerUtils::to_unsigned_byte_array(&big_int.to_bytes_be().1);
    assert_eq!(bytes, vec![0x80]);

    let big_int = BigInt::parse_bytes(b"127", 10).unwrap();
    let bytes = BigIntegerUtils::to_unsigned_byte_array(&big_int.to_bytes_be().1);
    assert_eq!(bytes, vec![0x7F]);
}

#[test]
fn unsigned_byte_array_drops_sign_byte() {
    assert_eq!(BigIntegerUtils::to_unsigned_byte_array(&[0, 0x80, 1]), vec![0x80, 1]);
    assert_eq!(BigIntegerUtils::to_unsigned_byte_array(&[0]), Vec::<u8>::new());
}

#[test]
fn block_size_is_modulus_bytes() {
    assert_eq!(key_pair().block_size(), 64);
}

#[test]
fn rsa_encrypt_decrypt_round_trip() {
    let key = key_pair();
    let msg = b"hello, hotel";
    let enc = key.encrypt(msg).unwrap();
    assert_eq!(enc.len(), 64);
    assert_ne!(&enc[..msg.len()], &msg[..]);
    assert_eq!(key.decrypt(&enc).unwrap(), msg.to_vec());
}

#[test]
fn rsa_sign_verify_round_trip() {
    let key = key_pair();
    let msg = b"1234567890";
    let sig = key.sign(msg).unwrap();
    assert_eq!(sig.len(), 64);
    assert_eq!(key.verify(&sig).unwrap(), msg.to_vec());
    // Type 1 padding is deterministic.
    assert_eq!(key.sign(msg).unwrap(), sig);
}

#[test]
fn rsa_multi_block_round_trip() {
    let key = key_pair();
    let msg: Vec<u8> = (0..200u32).map(|i| (i * 7 % 251) as u8).collect();
    let enc = key.encrypt(&msg).unwrap();
    // 53 data bytes per 64-byte block: four blocks.
    assert_eq!(enc.len(), 4 * 64);
    assert_eq!(key.decrypt(&enc).unwrap(), msg);
    let sig = key.sign(&msg).unwrap();
    assert_eq!(key.verify(&sig).unwrap(), msg);
}

#[test]
fn rsa_empty_message() {
    let key = key_pair();
    assert_eq!(key.encrypt(b"").unwrap(), Vec::<u8>::new());
    assert_eq!(key.decrypt(&[]).unwrap(), Vec::<u8>::new());
}

#[test]
fn rsa_decrypt_length_mismatch() {
    let key = key_pair();
    let err = key.decrypt(&[1u8; 63]).unwrap_err();
    assert_eq!(err.kind(), CryptoErrorKind::LengthMismatch);
}

#[test]
fn rsa_wrong_padding_marker_rejected() {
    let key = key_pair();
    // A block padded with type 1, encrypted with the public exponent:
    // decrypting it finds marker 1 where 2 is expected.
    let mut block = vec![0u8, 1];
    block.extend(std::iter::repeat(0xFFu8).take(64 - 3 - 4));
    block.push(0);
    block.extend_from_slice(b"data");
    let n = BigUint::parse_bytes(N.as_bytes(), 16).unwrap();
    let e = BigUint::parse_bytes(E.as_bytes(), 16).unwrap();
    let c = BigUint::from_bytes_be(&block).modpow(&e, &n).to_bytes_be();
    let mut ct = vec![0u8; 64 - c.len()];
    ct.extend_from_slice(&c);
    let err = key.decrypt(&ct).unwrap_err();
    assert_eq!(err.kind(), CryptoErrorKind::MalformedPadding);
}

#[test]
fn rsa_private_key_unavailable() {
    let key = HabboRSACrypto::new(E, N);
    assert_eq!(key.sign(b"x").unwrap_err().kind(), CryptoErrorKind::KeyUnavailable);
    assert_eq!(key.decrypt(&[0u8; 64]).unwrap_err().kind(), CryptoErrorKind::KeyUnavailable);
    // Public operations still work.
    let enc = key.encrypt(b"x").unwrap();
    assert_eq!(key_pair().decrypt(&enc).unwrap(), b"x".to_vec());
}

#[test]
fn crypto_exception_constructors() {
    let e = HabboCryptoException::new("boom");
    assert_eq!(e.kind(), CryptoErrorKind::Other);
    assert_eq!(e.message(), "boom");
    assert!(e.source().is_none());
    let e = HabboCryptoException::with_cause("outer", "inner");
    assert_eq!(e.message(), "outer");
    assert_eq!(e.source(), Some("inner"));
    let e = HabboCryptoException::from_cause("inner");
    assert_eq!(e.message(), "inner");
    assert_eq!(e.source(), Some("inner"));
}

#[test]
fn rc4_known_vector() {
    let mut c = HabboRC4::new(b"Key");
    let mut data = b"Plaintext".to_vec();
    c.parse(&mut data);
    assert_eq!(hex::encode(&data), "bbf316e8d940af0ad3");
}

#[test]
fn rc4_two_instances_undo_each_other() {
    let key = b"shared secret";
    let plain: Vec<u8> = (0..300u32).map(|i| (i % 256) as u8).collect();
    let mut enc = HabboRC4::new(key);
    let mut dec = HabboRC4::new(key);
    let mut data = plain.clone();
    enc.parse(&mut data);
    assert_ne!(data, plain);
    dec.parse(&mut data);
    assert_eq!(data, plain);
}

#[test]
fn rc4_stream_continues_across_calls() {
    let mut whole = HabboRC4::new(b"Key");
    let mut parts = HabboRC4::new(b"Key");
    let mut a = b"Plaintext".to_vec();
    whole.parse(&mut a);
    let mut b1 = b"Plain".to_vec();
    let mut b2 = b"text".to_vec();
    parts.parse(&mut b1);
    parts.parse(&mut b2);
    b1.extend(b2);
    assert_eq!(a, b1);
}

fn shared_key() -> Arc<HabboRSACrypto> {
    Arc::new(key_pair())
}

#[test]
fn dh_agreement() {
    let key = shared_key();
    let a = HabboDiffieHellman::new(Arc::clone(&key)).unwrap();
    let mut b = HabboDiffieHellman::new(Arc::clone(&key)).unwrap();
    let prime = a.get_signed_prime().unwrap();
    let generator = a.get_signed_generator().unwrap();
    b.do_handshake(&prime, &generator).unwrap();
    assert_eq!(b.get_dh_prime(), a.get_dh_prime());
    assert_eq!(b.get_dh_generator(), a.get_dh_generator());
    let pa = a.get_public_key().unwrap();
    let pb = b.get_public_key().unwrap();
    let ka = a.get_shared_key(&pb).unwrap();
    let kb = b.get_shared_key(&pa).unwrap();
    assert_eq!(ka, kb);
    assert!(!ka.is_empty());
}

#[test]
fn dh_parameters_are_ordered() {
    let a = HabboDiffieHellman::new(shared_key()).unwrap();
    let p = BigUint::from_bytes_be(a.get_dh_prime());
    let g = BigUint::from_bytes_be(a.get_dh_generator());
    assert!(p > BigUint::from(2u32));
    assert!(g < p);
    assert!(p.bits() <= 128);
}

fn signed(text: &str) -> String {
    hex::encode(key_pair().sign(text.as_bytes()).unwrap())
}

#[test]
fn dh_handshake_rejects_small_prime() {
    let mut a = HabboDiffieHellman::new(shared_key()).unwrap();
    let before = a.get_dh_prime().clone();
    assert_eq!(
        a.do_handshake(&signed("2"), &signed("1")),
        Err(HabboCryptoError::InvalidInput(InputProblem::PrimeTooSmall))
    );
    assert_eq!(a.get_dh_prime(), &before);
}

#[test]
fn dh_handshake_rejects_generator_not_below_prime() {
    let mut a = HabboDiffieHellman::new(shared_key()).unwrap();
    assert_eq!(
        a.do_handshake(&signed("7"), &signed("7")),
        Err(HabboCryptoError::InvalidInput(InputProblem::GeneratorNotBelowPrime))
    );
    assert_eq!(
        a.do_handshake(&signed("7"), &signed("9")),
        Err(HabboCryptoError::InvalidInput(InputProblem::GeneratorNotBelowPrime))
    );
    assert_eq!(a.do_handshake(&signed("7"), &signed("3")), Ok(()));
    assert_eq!(a.get_dh_prime(), &vec![7u8]);
    assert_eq!(a.get_dh_generator(), &vec![3u8]);
}

#[test]
fn dh_rejects_bad_input() {
    let a = HabboDiffieHellman::new(shared_key()).unwrap();
    assert_eq!(
        a.get_shared_key("zz"),
        Err(HabboCryptoError::InvalidInput(InputProblem::InvalidHex))
    );
    assert_eq!(
        a.get_shared_key("abc"),
        Err(HabboCryptoError::InvalidInput(InputProblem::InvalidHex))
    );
    assert_eq!(
        a.get_shared_key(&hex::encode([1u8; 63])),
        Err(HabboCryptoError::CryptoOperationFailed(CryptoErrorKind::LengthMismatch))
    );
    assert_eq!(
        a.get_shared_key(&signed("12x")),
        Err(HabboCryptoError::InvalidInput(InputProblem::InvalidNumber))
    );
}

#[test]
fn dh_shared_key_value() {
    let mut a = HabboDiffieHellman::new(shared_key()).unwrap();
    a.do_handshake(&signed("23"), &signed("5")).unwrap();
    // 1 ^ private mod 23 is 1 whatever the private exponent.
    assert_eq!(a.get_shared_key(&signed("1")).unwrap(), vec![1u8]);
    assert_eq!(a.get_shared_key(&signed("0")).unwrap(), vec![0u8]);
}

#[test]
fn dh_without_private_key_cannot_sign() {
    let a = HabboDiffieHellman::new(Arc::new(HabboRSACrypto::new(E, N))).unwrap();
    assert_eq!(
        a.get_public_key(),
        Err(HabboCryptoError::CryptoOperationFailed(CryptoErrorKind::KeyUnavailable))
    );
}

#[test]
fn encryption_bundle() {
    let enc = HabboEncryption::new(E, N, D).unwrap();
    assert_eq!(enc.get_crypto().block_size(), 64);
    assert!(enc.get_diffie().get_signed_prime().is_ok());
}

#[test]
fn hex_utils_round_trip() {
    assert_eq!(HexUtils::to_hex(&[0x00, 0xAB, 0x5f]), "00AB5F");
    assert_eq!(HexUtils::to_bytes("00AB5f").unwrap(), vec![0x00, 0xAB, 0x5F]);
    assert!(HexUtils::to_bytes("ABC").is_err());
    assert!(HexUtils::to_bytes("AG").is_err());
    assert_eq!(HexUtils::to_bytes("").unwrap(), Vec::<u8>::new());
}

#[test]
fn hex_utils_random() {
    let r = HexUtils::get_random(21);
    assert_eq!(r.len(), 21);
    assert!(r.chars().all(|c| c.is_ascii_hexdigit()));
    assert_eq!(HexUtils::get_random(0), "");
}

#[test]
fn dh_from_draws_orders_and_checks() {
    let dh = HabboDiffieHellman::from_draws(shared_key(), vec![5], vec![23], vec![3]).unwrap();
    assert_eq!(dh.get_dh_prime(), &vec![23u8]);
    assert_eq!(dh.get_dh_generator(), &vec![5u8]);
    // The private exponent is 3: 1 ^ 3 mod 23 = 1 and 2 ^ 3 mod 23 = 8.
    assert_eq!(dh.get_shared_key(&signed("1")).unwrap(), vec![1u8]);
    assert_eq!(dh.get_shared_key(&signed("2")).unwrap(), vec![8u8]);
    assert_eq!(
        HabboDiffieHellman::from_draws(shared_key(), vec![1], vec![2], vec![3]).err(),
        Some(HabboCryptoError::InvalidInput(InputProblem::NoParameters))
    );
    assert_eq!(
        HabboDiffieHellman::from_draws(shared_key(), vec![7], vec![7], vec![3]).err(),
        Some(HabboCryptoError::InvalidInput(InputProblem::NoParameters))
    );
    assert!(HabboDiffieHellman::from_draws(shared_key(), vec![3], vec![0], vec![0]).is_ok());
}

#[test]
fn dh_public_value_from_draws() {
    let a = HabboDiffieHellman::from_draws(shared_key(), vec![23], vec![5], vec![3]).unwrap();
    let b = HabboDiffieHellman::from_draws(shared_key(), vec![23], vec![5], vec![4]).unwrap();
    // 5^3 mod 23 = 10, 5^4 mod 23 = 4; shared = 5^12 mod 23 = 18.
    let ka = a.get_shared_key(&b.get_public_key().unwrap()).unwrap();
    let kb = b.get_shared_key(&a.get_public_key().unwrap()).unwrap();
    assert_eq!(ka, vec![18u8]);
    assert_eq!(kb, vec![18u8]);
}

#[test]
fn dh_rejected_handshake_keeps_public_value() {
    let mut a = HabboDiffieHellman::from_draws(shared_key(), vec![23], vec![5], vec![3]).unwrap();
    let before = a.get_public_key().unwrap();
    assert!(a.do_handshake(&signed("2"), &signed("1")).is_err());
    assert!(a.do_handshake(&signed("11"), &signed("13")).is_err());
    assert_eq!(a.get_public_key().unwrap(), before);
}

#[test]
fn encryption_from_draws() {
    let enc = HabboEncryption::from_draws(E, N, D, vec![5], vec![23], vec![3]).unwrap();
    assert_eq!(enc.get_diffie().get_dh_prime(), &vec![23u8]);
    assert!(HabboEncryption::from_draws(E, N, D, vec![1], vec![1], vec![3]).is_err());
}
