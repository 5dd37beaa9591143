//! Diffie-Hellman key agreement whose values travel as RSA-signed, hex-encoded
//! decimal text.

use std::sync::Arc;
use vstd::string::StringSliceAdditionalSpecFns;
use vstd::prelude::*;
use vstd::arithmetic::power::{pow, lemma_pow_mod_noop, lemma_pow_multiplies};
use crate::bignum::{
    be_value, canonical, decimal_be, decimal_digits, lemma_canonical_round_trip,
    lemma_decimal_parse, lemma_nat_to_be, less_than_be, mod_pow, modpow_be, nat_to_be, parse_be,
    parse_radix, random_be,
};
use crate::crypto_error::{CryptoErrorKind, HabboCryptoError, InputProblem};
use crate::hex_utils::{hex_decode, hex_decode_chars, hex_encode, hex_lower, lemma_hex_round_trip};
use crate::rsa::{
    HabboRSACrypto, decrypt_result, encrypt_outcome, keys_match, lemma_blocks_round_trip,
};

verus! {

/// Bits of the drawn prime and generator.
pub const DH_PRIMES_BIT_SIZE: u64 = 128;

/// Bits of the drawn private exponent.
pub const DH_KEY_BIT_SIZE: u64 = 128;

/// Draws of a prime and generator before construction gives up.
pub const DH_DRAW_ATTEMPTS: u32 = 16;

/// Reads a signed value: hex text, recovered with the public exponent
/// (type 1 padding), then read as decimal text.
pub open spec fn decode_signed(s: Seq<char>, key: HabboRSACrypto) -> Result<nat, HabboCryptoError> {
    match hex_decode_chars(s) {
        None => Err(HabboCryptoError::InvalidInput(InputProblem::InvalidHex)),
        Some(b) => match decrypt_result(b, key.block_len(), 1, key.e_value(), key.n_value()) {
            Err(k) => Err(HabboCryptoError::CryptoOperationFailed(k)),
            Ok(text) => match parse_radix(text, 10) {
                None => Err(HabboCryptoError::InvalidInput(InputProblem::InvalidNumber)),
                Some(v) => Ok(v),
            },
        },
    }
}

/// `s` is the hex text of a signature of `v`'s decimal digits.
pub open spec fn signed_value(s: Seq<char>, key: HabboRSACrypto, v: nat) -> bool {
    exists|sig: Seq<u8>|
        s == #[trigger] hex_lower(sig) && encrypt_outcome(
            decimal_digits(v),
            key.block_len(),
            1,
            key.d_value(),
            key.n_value(),
            sig,
        )
}

/// What a handshake with the given signed prime and generator yields: the
/// pair, or the first error met.
pub open spec fn handshake_outcome(sp: Seq<char>, sg: Seq<char>, key: HabboRSACrypto) -> Result<
    (nat, nat),
    HabboCryptoError,
> {
    match decode_signed(sp, key) {
        Err(e) => Err(e),
        Ok(p) => match decode_signed(sg, key) {
            Err(e) => Err(e),
            Ok(g) => if p <= 2 {
                Err(HabboCryptoError::InvalidInput(InputProblem::PrimeTooSmall))
            } else if g >= p {
                Err(HabboCryptoError::InvalidInput(InputProblem::GeneratorNotBelowPrime))
            } else {
                Ok((p, g))
            },
        },
    }
}

pub open spec fn larger(a: nat, b: nat) -> nat {
    if a < b {
        b
    } else {
        a
    }
}

pub open spec fn smaller(a: nat, b: nat) -> nat {
    if a < b {
        a
    } else {
        b
    }
}

/// One side of the key agreement.
pub struct HabboDiffieHellman {
    crypto: Arc<HabboRSACrypto>,
    dh_prime: Vec<u8>,
    dh_generator: Vec<u8>,
    dh_private: Vec<u8>,
    dh_public: Vec<u8>,
}

impl HabboDiffieHellman {
    pub closed spec fn key(&self) -> HabboRSACrypto {
        *self.crypto
    }

    pub closed spec fn prime(&self) -> nat {
        be_value(self.dh_prime@)
    }

    pub closed spec fn generator(&self) -> nat {
        be_value(self.dh_generator@)
    }

    pub closed spec fn private_value(&self) -> nat {
        be_value(self.dh_private@)
    }

    pub closed spec fn public_value(&self) -> nat {
        be_value(self.dh_public@)
    }

    /// The prime exceeds 2, the generator is below it, and the public value
    /// is `generator ^ private mod prime`.
    pub closed spec fn wf(&self) -> bool {
        &&& self.key().wf()
        &&& canonical(self.dh_prime@)
        &&& canonical(self.dh_generator@)
        &&& canonical(self.dh_private@)
        &&& canonical(self.dh_public@)
        &&& self.prime() > 2
        &&& self.generator() < self.prime()
        &&& self.public_value() == mod_pow(self.generator(), self.private_value(), self.prime())
    }

    /// What every well-formed side offers to the key agreement: a sound key,
    /// a prime above 2, a generator below it, and the public value
    /// `generator ^ private mod prime`.
    pub open spec fn agreement_ready(&self) -> bool {
        &&& self.key().wf()
        &&& self.prime() > 2
        &&& self.generator() < self.prime()
        &&& self.public_value() == mod_pow(self.generator(), self.private_value(), self.prime())
    }

    pub proof fn lemma_wf(&self)
        requires
            self.wf(),
        ensures
            self.agreement_ready(),
    {
    }

    /// Draws two values of `DH_PRIMES_BIT_SIZE` bits and a private exponent of
    /// `DH_KEY_BIT_SIZE` bits and builds a side from them with `from_draws`.
    /// Draws it refuses are repeated, up to `DH_DRAW_ATTEMPTS` times.
    pub fn new(crypto: Arc<HabboRSACrypto>) -> (r: Result<Self, HabboCryptoError>)
        requires
            crypto.wf(),
        ensures
            r is Ok ==> r->Ok_0.wf(),
            r is Ok ==> r->Ok_0.agreement_ready(),
            r is Ok ==> r->Ok_0.key() == *crypto,
            r is Ok ==> r->Ok_0.prime() < pow(2, DH_PRIMES_BIT_SIZE as nat),
            r is Ok ==> r->Ok_0.private_value() < pow(2, DH_KEY_BIT_SIZE as nat),
            r is Err ==> r->Err_0 == HabboCryptoError::InvalidInput(InputProblem::NoParameters),
    {
        let mut attempt: u32 = 0;
        while attempt < DH_DRAW_ATTEMPTS
            invariant
                crypto.wf(),
            decreases DH_DRAW_ATTEMPTS - attempt,
        {
            let first = random_be(DH_PRIMES_BIT_SIZE);
            let second = random_be(DH_PRIMES_BIT_SIZE);
            let private = random_be(DH_KEY_BIT_SIZE);
            match Self::from_draws(crypto.clone(), first, second, private) {
                Ok(instance) => {
                    return Ok(instance);
                },
                Err(_) => {},
            }
            attempt = attempt + 1;
        }
        Err(HabboCryptoError::InvalidInput(InputProblem::NoParameters))
    }

    /// A side from drawn values: the larger of `first` and `second` is the
    /// prime, the smaller the generator. Accepted exactly when the prime
    /// exceeds 2 and the generator is below it; the public value is then
    /// `generator ^ private mod prime`.
    pub fn from_draws(
        crypto: Arc<HabboRSACrypto>,
        first: Vec<u8>,
        second: Vec<u8>,
        private: Vec<u8>,
    ) -> (r: Result<Self, HabboCryptoError>)
        requires
            crypto.wf(),
            canonical(first@),
            canonical(second@),
            canonical(private@),
        ensures
            ({
                let p = larger(be_value(first@), be_value(second@));
                let g = smaller(be_value(first@), be_value(second@));
                &&& r is Ok <==> (p > 2 && g < p)
                &&& r is Ok ==> {
                    &&& r->Ok_0.wf()
                    &&& r->Ok_0.agreement_ready()
                    &&& r->Ok_0.key() == *crypto
                    &&& r->Ok_0.prime() == p
                    &&& r->Ok_0.generator() == g
                    &&& r->Ok_0.private_value() == be_value(private@)
                    &&& r->Ok_0.public_value() == mod_pow(g, be_value(private@), p)
                }
                &&& r is Err ==> r->Err_0 == HabboCryptoError::InvalidInput(
                    InputProblem::NoParameters,
                )
            }),
    {
        let (prime, generator) = if less_than_be(first.as_slice(), second.as_slice()) {
            (second, first)
        } else {
            (first, second)
        };
        let two: Vec<u8> = vec![2u8];
        proof {
            assert(be_value(two@) == 2) by {
                assert(two@ =~= seq![2u8]);
                assert(two@.drop_last() =~= Seq::<u8>::empty());
                assert(be_value(Seq::<u8>::empty()) == 0);
            }
        }
        if !(less_than_be(two.as_slice(), prime.as_slice()) && less_than_be(
            generator.as_slice(),
            prime.as_slice(),
        )) {
            return Err(HabboCryptoError::InvalidInput(InputProblem::NoParameters));
        }
        let public = modpow_be(generator.as_slice(), private.as_slice(), prime.as_slice());
        proof {
            lemma_nat_to_be(mod_pow(be_value(generator@), be_value(private@), be_value(prime@)));
        }
        Ok(
            HabboDiffieHellman {
                crypto,
                dh_prime: prime,
                dh_generator: generator,
                dh_private: private,
                dh_public: public,
            },
        )
    }

    pub fn get_dh_prime(&self) -> (r: &Vec<u8>)
        requires
            self.wf(),
        ensures
            r@ == nat_to_be(self.prime()),
    {
        proof {
            lemma_canonical_round_trip(self.dh_prime@);
        }
        &self.dh_prime
    }

    pub fn get_dh_generator(&self) -> (r: &Vec<u8>)
        requires
            self.wf(),
        ensures
            r@ == nat_to_be(self.generator()),
    {
        proof {
            lemma_canonical_round_trip(self.dh_generator@);
        }
        &self.dh_generator
    }

    /// Draws a private exponent of `DH_KEY_BIT_SIZE` bits and sets the
    /// public value to `generator ^ private mod prime`.
    fn generate_dh_keys(&mut self)
        requires
            canonical(old(self).dh_prime@),
            canonical(old(self).dh_generator@),
            old(self).prime() > 0,
        ensures
            final(self).crypto == old(self).crypto,
            final(self).dh_prime == old(self).dh_prime,
            final(self).dh_generator == old(self).dh_generator,
            canonical(final(self).dh_private@),
            canonical(final(self).dh_public@),
            final(self).private_value() < pow(2, DH_KEY_BIT_SIZE as nat),
            final(self).public_value() == mod_pow(
                final(self).generator(),
                final(self).private_value(),
                final(self).prime(),
            ),
    {
        self.dh_private = random_be(DH_KEY_BIT_SIZE);
        self.dh_public = modpow_be(
            self.dh_generator.as_slice(),
            self.dh_private.as_slice(),
            self.dh_prime.as_slice(),
        );
        proof {
            lemma_nat_to_be(mod_pow(self.generator(), self.private_value(), self.prime()));
        }
    }

    /// Hex text of the signature of the value's decimal digits.
    fn encrypt_big_integer(&self, integer: &Vec<u8>) -> (r: Result<String, HabboCryptoError>)
        requires
            self.key().wf(),
        ensures
            !self.key().has_private() ==> r == Err::<String, HabboCryptoError>(
                HabboCryptoError::CryptoOperationFailed(CryptoErrorKind::KeyUnavailable),
            ),
            self.key().has_private() ==> r is Ok && signed_value(
                r->Ok_0@,
                self.key(),
                be_value(integer@),
            ),
    {
        let text = decimal_be(integer.as_slice());
        match self.crypto.sign(text.as_slice()) {
            Ok(encrypted) => {
                let hex = hex_encode(encrypted.as_slice());
                proof {
                    assert(hex@ == hex_lower(encrypted@));
                }
                Ok(hex)
            },
            Err(e) => Err(HabboCryptoError::CryptoOperationFailed(e.kind())),
        }
    }

    /// Reads a value signed by the peer: hex text, recovered with the public
    /// exponent, read as decimal text.
    fn decrypt_big_integer(&self, hex_str: &str) -> (r: Result<Vec<u8>, HabboCryptoError>)
        requires
            self.key().wf(),
        ensures
            match decode_signed(hex_str@, self.key()) {
                Ok(v) => r is Ok && r->Ok_0@ == nat_to_be(v),
                Err(e) => r == Err::<Vec<u8>, HabboCryptoError>(e),
            },
    {
        let bytes = match hex_decode(hex_str) {
            Some(b) => b,
            None => {
                return Err(HabboCryptoError::InvalidInput(InputProblem::InvalidHex));
            },
        };
        let text = match self.crypto.verify(bytes.as_slice()) {
            Ok(t) => t,
            Err(e) => {
                return Err(HabboCryptoError::CryptoOperationFailed(e.kind()));
            },
        };
        match parse_be(text.as_slice(), 10) {
            Some(v) => Ok(v),
            None => Err(HabboCryptoError::InvalidInput(InputProblem::InvalidNumber)),
        }
    }

    /// The signed public value.
    pub fn get_public_key(&self) -> (r: Result<String, HabboCryptoError>)
        requires
            self.wf(),
        ensures
            !self.key().has_private() ==> r == Err::<String, HabboCryptoError>(
                HabboCryptoError::CryptoOperationFailed(CryptoErrorKind::KeyUnavailable),
            ),
            self.key().has_private() ==> r is Ok && signed_value(
                r->Ok_0@,
                self.key(),
                self.public_value(),
            ),
    {
        self.encrypt_big_integer(&self.dh_public)
    }

    /// The signed prime.
    pub fn get_signed_prime(&self) -> (r: Result<String, HabboCryptoError>)
        requires
            self.wf(),
        ensures
            !self.key().has_private() ==> r == Err::<String, HabboCryptoError>(
                HabboCryptoError::CryptoOperationFailed(CryptoErrorKind::KeyUnavailable),
            ),
            self.key().has_private() ==> r is Ok && signed_value(
                r->Ok_0@,
                self.key(),
                self.prime(),
            ),
    {
        self.encrypt_big_integer(&self.dh_prime)
    }

    /// The signed generator.
    pub fn get_signed_generator(&self) -> (r: Result<String, HabboCryptoError>)
        requires
            self.wf(),
        ensures
            !self.key().has_private() ==> r == Err::<String, HabboCryptoError>(
                HabboCryptoError::CryptoOperationFailed(CryptoErrorKind::KeyUnavailable),
            ),
            self.key().has_private() ==> r is Ok && signed_value(
                r->Ok_0@,
                self.key(),
                self.generator(),
            ),
    {
        self.encrypt_big_integer(&self.dh_generator)
    }

    /// Takes the peer's signed prime and generator. Both must read back,
    /// the prime must exceed 2 and the generator must be below it; then the
    /// private and public values are drawn anew. On an error nothing changes.
    pub fn do_handshake(&mut self, signed_prime: &str, signed_generator: &str) -> (r: Result<
        (),
        HabboCryptoError,
    >)
        requires
            old(self).wf(),
        ensures
            final(self).wf(),
            final(self).agreement_ready(),
            final(self).key() == old(self).key(),
            match handshake_outcome(signed_prime@, signed_generator@, old(self).key()) {
                Err(e) => {
                    &&& r == Err::<(), HabboCryptoError>(e)
                    &&& final(self).prime() == old(self).prime()
                    &&& final(self).generator() == old(self).generator()
                    &&& final(self).private_value() == old(self).private_value()
                    &&& final(self).public_value() == old(self).public_value()
                },
                Ok((p, g)) => {
                    &&& r is Ok
                    &&& final(self).prime() == p
                    &&& final(self).generator() == g
                    &&& final(self).private_value() < pow(2, DH_KEY_BIT_SIZE as nat)
                    &&& final(self).public_value() == mod_pow(g, final(self).private_value(), p)
                },
            },
    {
        let prime = self.decrypt_big_integer(signed_prime)?;
        let generator = self.decrypt_big_integer(signed_generator)?;
        proof {
            lemma_nat_to_be(be_value(prime@));
            lemma_nat_to_be(be_value(generator@));
            let p = decode_signed(signed_prime@, self.key())->Ok_0;
            let g = decode_signed(signed_generator@, self.key())->Ok_0;
            lemma_nat_to_be(p);
            lemma_nat_to_be(g);
        }
        let two: Vec<u8> = vec![2u8];
        proof {
            assert(be_value(two@) == 2) by {
                assert(two@ =~= seq![2u8]);
                assert(two@.drop_last() =~= Seq::<u8>::empty());
                assert(be_value(Seq::<u8>::empty()) == 0);
            }
        }
        if !less_than_be(two.as_slice(), prime.as_slice()) {
            return Err(HabboCryptoError::InvalidInput(InputProblem::PrimeTooSmall));
        }
        if !less_than_be(generator.as_slice(), prime.as_slice()) {
            return Err(HabboCryptoError::InvalidInput(InputProblem::GeneratorNotBelowPrime));
        }
        self.dh_prime = prime;
        self.dh_generator = generator;
        self.generate_dh_keys();
        Ok(())
    }

    /// The shared secret with the peer whose signed public value is given:
    /// `peer ^ private mod prime`, as shortest big-endian bytes.
    pub fn get_shared_key(&self, public_key_str: &str) -> (r: Result<Vec<u8>, HabboCryptoError>)
        requires
            self.wf(),
        ensures
            match decode_signed(public_key_str@, self.key()) {
                Ok(v) => r is Ok && r->Ok_0@ == nat_to_be(
                    mod_pow(v, self.private_value(), self.prime()),
                ),
                Err(e) => r == Err::<Vec<u8>, HabboCryptoError>(e),
            },
    {
        let public_key = self.decrypt_big_integer(public_key_str)?;
        proof {
            lemma_nat_to_be(decode_signed(public_key_str@, self.key())->Ok_0);
        }
        Ok(
            modpow_be(
                public_key.as_slice(),
                self.dh_private.as_slice(),
                self.dh_prime.as_slice(),
            ),
        )
    }
}

/// A signed value reads back as itself, for a key pair whose exponents undo
/// each other.
pub proof fn lemma_signed_value_round_trip(key: HabboRSACrypto, v: nat, s: Seq<char>)
    requires
        key.wf(),
        keys_match(key.e_value(), key.d_value(), key.n_value()),
        signed_value(s, key, v),
    ensures
        decode_signed(s, key) == Ok::<nat, HabboCryptoError>(v),
{
    let sig = choose|sig: Seq<u8>|
        s == #[trigger] hex_lower(sig) && encrypt_outcome(
            decimal_digits(v),
            key.block_len(),
            1,
            key.d_value(),
            key.n_value(),
            sig,
        );
    lemma_hex_round_trip(sig);
    key.lemma_wf();
    lemma_blocks_round_trip(
        decimal_digits(v),
        key.block_len(),
        1,
        key.d_value(),
        key.e_value(),
        key.n_value(),
        sig,
    );
    lemma_decimal_parse(v);
}

/// Key agreement: side B takes A's signed prime and generator in its
/// handshake; then A, using B's signed public value, and B, using A's, derive
/// the same secret. Stated for a key pair whose exponents undo each other.
pub proof fn lemma_dh_agreement(
    key: HabboRSACrypto,
    p: nat,
    g: nat,
    a: nat,
    b: nat,
    signed_prime: Seq<char>,
    signed_generator: Seq<char>,
    public_a: Seq<char>,
    public_b: Seq<char>,
)
    requires
        key.wf(),
        keys_match(key.e_value(), key.d_value(), key.n_value()),
        p > 2,
        g < p,
        signed_value(signed_prime, key, p),
        signed_value(signed_generator, key, g),
        signed_value(public_a, key, mod_pow(g, a, p)),
        signed_value(public_b, key, mod_pow(g, b, p)),
    ensures
        handshake_outcome(signed_prime, signed_generator, key) == Ok::<
            (nat, nat),
            HabboCryptoError,
        >((p, g)),
        decode_signed(public_a, key) == Ok::<nat, HabboCryptoError>(mod_pow(g, a, p)),
        decode_signed(public_b, key) == Ok::<nat, HabboCryptoError>(mod_pow(g, b, p)),
        mod_pow(mod_pow(g, b, p), a, p) == mod_pow(mod_pow(g, a, p), b, p),
{
    lemma_signed_value_round_trip(key, p, signed_prime);
    lemma_signed_value_round_trip(key, g, signed_generator);
    lemma_signed_value_round_trip(key, mod_pow(g, a, p), public_a);
    lemma_signed_value_round_trip(key, mod_pow(g, b, p), public_b);
    lemma_shared_secret(g, a, b, p);
}

/// Key agreement between two sides over one key pair whose exponents undo
/// each other, after side B took A's prime and generator: each reads the
/// other's signed public value back, and `get_shared_key` gives both the
/// same secret.
pub proof fn lemma_sides_agree(
    a: HabboDiffieHellman,
    b: HabboDiffieHellman,
    public_a: Seq<char>,
    public_b: Seq<char>,
)
    requires
        a.wf(),
        b.wf(),
        a.key() == b.key(),
        keys_match(a.key().e_value(), a.key().d_value(), a.key().n_value()),
        b.prime() == a.prime(),
        b.generator() == a.generator(),
        signed_value(public_a, a.key(), a.public_value()),
        signed_value(public_b, b.key(), b.public_value()),
    ensures
        decode_signed(public_b, a.key()) == Ok::<nat, HabboCryptoError>(b.public_value()),
        decode_signed(public_a, b.key()) == Ok::<nat, HabboCryptoError>(a.public_value()),
        mod_pow(b.public_value(), a.private_value(), a.prime()) == mod_pow(
            a.public_value(),
            b.private_value(),
            b.prime(),
        ),
{
    a.lemma_wf();
    b.lemma_wf();
    lemma_signed_value_round_trip(a.key(), b.public_value(), public_b);
    lemma_signed_value_round_trip(a.key(), a.public_value(), public_a);
    lemma_shared_secret(a.generator(), a.private_value(), b.private_value(), a.prime());
}

/// `(g^b mod p)^a mod p == (g^a mod p)^b mod p`.
pub proof fn lemma_shared_secret(g: nat, a: nat, b: nat, p: nat)
    requires
        p > 0,
    ensures
        mod_pow(mod_pow(g, b, p), a, p) == mod_pow(mod_pow(g, a, p), b, p),
{
    let pi = p as int;
    
    
    lemma_pow_mod_noop(pow(g as int, b), a, pi);
    lemma_pow_mod_noop(pow(g as int, a), b, pi);
    lemma_pow_multiplies(g as int, b, a);
    lemma_pow_multiplies(g as int, a, b);
    assert(b * a == a * b) by (nonlinear_arith);
    vstd::arithmetic::div_mod::lemma_mod_bound(pow(g as int, b), pi);
    vstd::arithmetic::div_mod::lemma_mod_bound(pow(g as int, a), pi);
}

/// Handshake checks: a prime of at most 2, or a generator not below the
/// prime, is refused with its own error once both values read back.
pub proof fn lemma_handshake_rejects(sp: Seq<char>, sg: Seq<char>, key: HabboRSACrypto)
    ensures
        decode_signed(sp, key) matches Ok(p) ==> decode_signed(sg, key) matches Ok(g) ==> {
            &&& p <= 2 ==> handshake_outcome(sp, sg, key) == Err::<(nat, nat), HabboCryptoError>(
                HabboCryptoError::InvalidInput(InputProblem::PrimeTooSmall),
            )
            &&& p > 2 && g >= p ==> handshake_outcome(sp, sg, key) == Err::<
                (nat, nat),
                HabboCryptoError,
            >(HabboCryptoError::InvalidInput(InputProblem::GeneratorNotBelowPrime))
        },
{
}

/// The server's key pair and its side of the key agreement.
pub struct HabboEncryption {
    crypto: Arc<HabboRSACrypto>,
    diffie: HabboDiffieHellman,
}

impl HabboEncryption {
    pub closed spec fn spec_crypto(&self) -> HabboRSACrypto {
        *self.crypto
    }

    pub closed spec fn spec_diffie(&self) -> HabboDiffieHellman {
        self.diffie
    }

    /// A key pair from hex text, and a fresh Diffie-Hellman side over it.
    pub fn new(e: &str, n: &str, d: &str) -> (r: Result<Self, HabboCryptoError>)
        requires
            parse_radix(e.spec_bytes(), 16) is Some,
            parse_radix(n.spec_bytes(), 16) is Some,
            parse_radix(d.spec_bytes(), 16) is Some,
            parse_radix(n.spec_bytes(), 16)->0 >= crate::bignum::pow256(11),
        ensures
            r is Ok ==> r->Ok_0.spec_diffie().agreement_ready(),
            r is Ok ==> r->Ok_0.spec_diffie().prime() < pow(2, DH_PRIMES_BIT_SIZE as nat),
            r is Ok ==> {
                &&& r->Ok_0.spec_crypto().wf()
                &&& r->Ok_0.spec_crypto().has_private()
                &&& r->Ok_0.spec_crypto().e_value() == parse_radix(e.spec_bytes(), 16)->0
                &&& r->Ok_0.spec_crypto().n_value() == parse_radix(n.spec_bytes(), 16)->0
                &&& r->Ok_0.spec_crypto().d_value() == parse_radix(d.spec_bytes(), 16)->0
                &&& r->Ok_0.spec_diffie().wf()
                &&& r->Ok_0.spec_diffie().key() == r->Ok_0.spec_crypto()
            },
            r is Err ==> r->Err_0 == HabboCryptoError::InvalidInput(InputProblem::NoParameters),
    {
        let crypto = Arc::new(HabboRSACrypto::new_with_private_key(e, n, d));
        let diffie = HabboDiffieHellman::new(crypto.clone())?;
        Ok(HabboEncryption { crypto, diffie })
    }

    /// A key pair from hex text and a side built from drawn values with
    /// `HabboDiffieHellman::from_draws`.
    pub fn from_draws(
        e: &str,
        n: &str,
        d: &str,
        first: Vec<u8>,
        second: Vec<u8>,
        private: Vec<u8>,
    ) -> (r: Result<Self, HabboCryptoError>)
        requires
            parse_radix(e.spec_bytes(), 16) is Some,
            parse_radix(n.spec_bytes(), 16) is Some,
            parse_radix(d.spec_bytes(), 16) is Some,
            parse_radix(n.spec_bytes(), 16)->0 >= crate::bignum::pow256(11),
            canonical(first@),
            canonical(second@),
            canonical(private@),
        ensures
            ({
                let p = larger(be_value(first@), be_value(second@));
                let g = smaller(be_value(first@), be_value(second@));
                &&& r is Ok <==> (p > 2 && g < p)
                &&& r is Ok ==> {
                    &&& r->Ok_0.spec_crypto().wf()
                    &&& r->Ok_0.spec_crypto().has_private()
                    &&& r->Ok_0.spec_crypto().e_value() == parse_radix(e.spec_bytes(), 16)->0
                    &&& r->Ok_0.spec_crypto().n_value() == parse_radix(n.spec_bytes(), 16)->0
                    &&& r->Ok_0.spec_crypto().d_value() == parse_radix(d.spec_bytes(), 16)->0
                    &&& r->Ok_0.spec_diffie().wf()
                    &&& r->Ok_0.spec_diffie().key() == r->Ok_0.spec_crypto()
                    &&& r->Ok_0.spec_diffie().prime() == p
                    &&& r->Ok_0.spec_diffie().generator() == g
                    &&& r->Ok_0.spec_diffie().private_value() == be_value(private@)
                }
                &&& r is Err ==> r->Err_0 == HabboCryptoError::InvalidInput(
                    InputProblem::NoParameters,
                )
            }),
    {
        let crypto = Arc::new(HabboRSACrypto::new_with_private_key(e, n, d));
        let diffie = HabboDiffieHellman::from_draws(crypto.clone(), first, second, private)?;
        Ok(HabboEncryption { crypto, diffie })
    }

    pub fn get_crypto(&self) -> (r: &Arc<HabboRSACrypto>)
        ensures
            **r == self.spec_crypto(),
    {
        &self.crypto
    }

    pub fn get_diffie(&self) -> (r: &HabboDiffieHellman)
        ensures
            *r == self.spec_diffie(),
    {
        &self.diffie
    }

    pub fn get_diffie_mut(&mut self) -> (r: &mut HabboDiffieHellman)
        ensures
            *r == old(self).spec_diffie(),
            final(self).spec_diffie() == *final(r),
            final(self).spec_crypto() == old(self).spec_crypto(),
    {
        &mut self.diffie
    }
}

} // verus!
