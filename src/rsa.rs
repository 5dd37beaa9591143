//! RSA over big-endian byte strings, with PKCS#1-style block padding.
//!
//! A padded block of `n` bytes is `0x00, pad_type, filler.., 0x00, data..`,
//! where the filler is non-zero (random for type 2, `0xFF` for type 1) and the
//! data chunk holds at most `n - 11` bytes.

use vstd::prelude::*;
use vstd::string::StringSliceAdditionalSpecFns;
use rand::Rng;
use crate::bignum::{
    be_value, bit_len, calculate_bigint_bits, canonical, lemma_be_value_leading_zero,
    lemma_be_value_lower, lemma_be_value_upper, lemma_canonical_len, lemma_nat_to_be,
    lemma_canonical_round_trip, lemma_left_pad_value, lemma_pow256_monotonic, lemma_pow256_positive, left_pad, mod_pow, modpow_be, nat_to_be, parse_be, parse_radix, pow256,
    zeros,
};
use crate::crypto_error::{CryptoErrorKind, HabboCryptoException};

verus! {

/// Data bytes carried by one block of `n` bytes.
pub open spec fn chunk_capacity(n: nat) -> nat {
    (n - 11) as nat
}

/// Number of blocks that `len` data bytes take.
pub open spec fn num_chunks(len: nat, n: nat) -> nat {
    if len == 0 || n <= 11 {
        0
    } else {
        ((len - 1) as nat / chunk_capacity(n) + 1) as nat
    }
}

pub open spec fn min_nat(a: nat, b: nat) -> nat {
    if a < b {
        a
    } else {
        b
    }
}

/// The `k`-th data chunk of `data` for blocks of `n` bytes.
pub open spec fn chunk_of(data: Seq<u8>, n: nat, k: nat) -> Seq<u8> {
    data.subrange(
        min_nat(k * chunk_capacity(n), data.len()) as int,
        min_nat((k + 1) * chunk_capacity(n), data.len()) as int,
    )
}

/// Filler of `len` bytes allowed for `pad_type`.
pub open spec fn filler_ok(f: Seq<u8>, len: nat, pad_type: u8) -> bool {
    &&& f.len() == len
    &&& forall|i: int| 0 <= i < f.len() ==> #[trigger] f[i] != 0
    &&& pad_type == 1 ==> forall|i: int| 0 <= i < f.len() ==> #[trigger] f[i] == 0xFFu8
}

pub open spec fn padded(chunk: Seq<u8>, pad_type: u8, f: Seq<u8>) -> Seq<u8> {
    seq![0u8, pad_type] + f + seq![0u8] + chunk
}

/// A block of output: the padded chunk raised to `exp` modulo `m`, written in
/// `n` bytes.
pub open spec fn transformed_block(
    chunk: Seq<u8>,
    n: nat,
    pad_type: u8,
    f: Seq<u8>,
    exp: nat,
    m: nat,
) -> Seq<u8> {
    left_pad(nat_to_be(mod_pow(be_value(padded(chunk, pad_type, f)), exp, m)), n)
}

pub open spec fn is_encrypted_block(
    out: Seq<u8>,
    chunk: Seq<u8>,
    n: nat,
    pad_type: u8,
    exp: nat,
    m: nat,
) -> bool {
    exists|f: Seq<u8>|
        filler_ok(f, (n - 3 - chunk.len()) as nat, pad_type) && out == #[trigger] transformed_block(
            chunk,
            n,
            pad_type,
            f,
            exp,
            m,
        )
}

/// `out` is a possible result of padding and transforming `data` block by block.
pub open spec fn encrypt_outcome(
    data: Seq<u8>,
    n: nat,
    pad_type: u8,
    exp: nat,
    m: nat,
    out: Seq<u8>,
) -> bool {
    &&& out.len() == num_chunks(data.len(), n) * n
    &&& forall|k: nat|
        k < num_chunks(data.len(), n) ==> is_encrypted_block(
            #[trigger] out.subrange((k * n) as int, (k * n + n) as int),
            chunk_of(data, n, k),
            n,
            pad_type,
            exp,
            m,
        )
}

pub open spec fn leading_zero_count(b: Seq<u8>) -> nat
    decreases b.len(),
{
    if b.len() == 0 || b[0] != 0 {
        0
    } else {
        1 + leading_zero_count(b.drop_first())
    }
}

/// Index of the first zero byte of `b` at or after `i`.
pub open spec fn first_zero_from(b: Seq<u8>, i: nat) -> Option<nat>
    decreases b.len() - i,
{
    if i >= b.len() {
        None
    } else if b[i as int] == 0 {
        Some(i)
    } else {
        first_zero_from(b, i + 1)
    }
}

/// Removes the padding from the shortest form `b` of a block value: after
/// any leading zeros, `n - 1` bytes must remain and start with `pad_type`;
/// the data follows the first zero byte after that marker.
pub open spec fn unpad(b: Seq<u8>, n: nat, pad_type: u8) -> Option<Seq<u8>> {
    let i = leading_zero_count(b);
    if i >= b.len() || b.len() - i != n - 1 || b[i as int] != pad_type {
        None
    } else {
        match first_zero_from(b, i + 1) {
            None => None,
            Some(j) => Some(b.subrange(j + 1 as int, b.len() as int)),
        }
    }
}

/// Transforms each `n`-byte block with `exp` modulo `m` and unpads it; `None`
/// when some block's padding is malformed.
pub open spec fn decrypt_blocks(data: Seq<u8>, n: nat, pad_type: u8, exp: nat, m: nat) -> Option<
    Seq<u8>,
>
    decreases data.len(),
{
    if n == 0 || data.len() < n {
        Some(Seq::empty())
    } else {
        match unpad(nat_to_be(mod_pow(be_value(data.take(n as int)), exp, m)), n, pad_type) {
            None => None,
            Some(u) => match decrypt_blocks(data.skip(n as int), n, pad_type, exp, m) {
                None => None,
                Some(rest) => Some(u + rest),
            },
        }
    }
}

/// What decrypting with `exp` and `pad_type` gives: a length error, a padding
/// error, or the data.
pub open spec fn decrypt_result(data: Seq<u8>, n: nat, pad_type: u8, exp: nat, m: nat) -> Result<
    Seq<u8>,
    CryptoErrorKind,
> {
    if n == 0 || data.len() % n != 0 {
        Err(CryptoErrorKind::LengthMismatch)
    } else {
        match decrypt_blocks(data, n, pad_type, exp, m) {
            None => Err(CryptoErrorKind::MalformedPadding),
            Some(v) => Ok(v),
        }
    }
}

/// Raising to `e2` modulo `m` undoes raising to `e1`, for every value below `m`.
pub open spec fn undoes(e1: nat, e2: nat, m: nat) -> bool {
    forall|x: nat| x < m ==> mod_pow(#[trigger] mod_pow(x, e1, m), e2, m) == x
}

/// The exponents undo each other modulo `m`, in both orders.
pub open spec fn keys_match(e: nat, d: nat, m: nat) -> bool {
    undoes(e, d, m) && undoes(d, e, m)
}

/// Relies on `rand::Rng::gen_range` over `rand::thread_rng`: a value drawn from `lo..=hi`,
/// which panics only on an empty range.
#[verifier::external_body]
fn random_byte_in(lo: u8, hi: u8) -> (r: u8)
    requires
        lo <= hi,
    ensures
        lo <= r <= hi,
{
    rand::thread_rng().gen_range(lo..=hi)
}

/// An RSA key: public exponent, modulus, optional private exponent, and the
/// block size (bytes of the modulus).
pub struct HabboRSACrypto {
    e: Vec<u8>,
    n: Vec<u8>,
    d: Option<Vec<u8>>,
    block_size: usize,
}

impl HabboRSACrypto {
    pub closed spec fn e_value(&self) -> nat {
        be_value(self.e@)
    }

    pub closed spec fn n_value(&self) -> nat {
        be_value(self.n@)
    }

    pub closed spec fn has_private(&self) -> bool {
        self.d is Some
    }

    pub closed spec fn d_value(&self) -> nat {
        match self.d {
            Some(d) => be_value(d@),
            None => 0,
        }
    }

    pub closed spec fn block_len(&self) -> nat {
        self.block_size as nat
    }

    /// The block size is the length of the modulus' shortest form, which
    /// leaves room for padding.
    pub closed spec fn wf(&self) -> bool {
        &&& canonical(self.n@)
        &&& self.n@[0] != 0
        &&& self.block_size == self.n@.len()
        &&& self.block_size >= 12
    }

    pub proof fn lemma_wf(&self)
        requires
            self.wf(),
        ensures
            self.block_len() >= 12,
            pow256((self.block_len() - 1) as nat) <= self.n_value(),
            self.n_value() < pow256(self.block_len()),
    {
        lemma_be_value_lower(self.n@);
        lemma_be_value_upper(self.n@);
    }

    /// A public key from hex text of the exponent and modulus.
    pub fn new(e: &str, n: &str) -> (r: Self)
        requires
            parse_radix(e.spec_bytes(), 16) is Some,
            parse_radix(n.spec_bytes(), 16) is Some,
            parse_radix(n.spec_bytes(), 16)->0 >= pow256(11),
        ensures
            r.wf(),
            r.e_value() == parse_radix(e.spec_bytes(), 16)->0,
            r.n_value() == parse_radix(n.spec_bytes(), 16)->0,
            !r.has_private(),
    {
        let e_value = parse_be(e.as_bytes(), 16).unwrap();
        let n_value = parse_be(n.as_bytes(), 16).unwrap();
        proof {
            lemma_nat_to_be(parse_radix(e.spec_bytes(), 16)->0);
            lemma_nat_to_be(parse_radix(n.spec_bytes(), 16)->0);
        }
        let block_size = Self::block_size_of(&n_value);
        HabboRSACrypto { e: e_value, n: n_value, d: None, block_size }
    }

    /// A key pair from hex text of the public exponent, modulus and private
    /// exponent.
    pub fn new_with_private_key(e: &str, n: &str, d: &str) -> (r: Self)
        requires
            parse_radix(e.spec_bytes(), 16) is Some,
            parse_radix(n.spec_bytes(), 16) is Some,
            parse_radix(d.spec_bytes(), 16) is Some,
            parse_radix(n.spec_bytes(), 16)->0 >= pow256(11),
        ensures
            r.wf(),
            r.e_value() == parse_radix(e.spec_bytes(), 16)->0,
            r.n_value() == parse_radix(n.spec_bytes(), 16)->0,
            r.has_private(),
            r.d_value() == parse_radix(d.spec_bytes(), 16)->0,
    {
        let e_value = parse_be(e.as_bytes(), 16).unwrap();
        let n_value = parse_be(n.as_bytes(), 16).unwrap();
        let d_value = parse_be(d.as_bytes(), 16).unwrap();
        proof {
            lemma_nat_to_be(parse_radix(e.spec_bytes(), 16)->0);
            lemma_nat_to_be(parse_radix(n.spec_bytes(), 16)->0);
            lemma_nat_to_be(parse_radix(d.spec_bytes(), 16)->0);
        }
        let block_size = Self::block_size_of(&n_value);
        HabboRSACrypto { e: e_value, n: n_value, d: Some(d_value), block_size }
    }

    /// Bytes of a modulus: its bit count rounded up to whole bytes.
    fn block_size_of(n: &Vec<u8>) -> (r: usize)
        requires
            canonical(n@),
            be_value(n@) >= pow256(11),
        ensures
            r == n@.len(),
            r >= 12,
            n@[0] != 0,
    {
        proof {
            lemma_be_value_upper(n@);
            if n@.len() <= 11 {
                lemma_pow256_monotonic(n@.len(), 11);
            }
            if n@[0] == 0 {
                assert(n@.len() == 1);
            }
            lemma_bit_len_byte(n@[0]);
        }
        let bits = calculate_bigint_bits(n.as_slice());
        let modulus_len = n.len();
        proof {
            let l = modulus_len as nat;
            let b0 = bit_len(n@[0] as nat);
            assert(1 <= b0 <= 8);
            assert(bits + 7 == 8 * (l - 1) + b0 + 7);
            lemma_div_pins((bits + 7) as nat, 8, l);
        }
        ((bits + 7) / 8) as usize
    }

    pub fn block_size(&self) -> (r: usize)
        ensures
            r == self.block_len(),
    {
        self.block_size
    }

    /// Encrypts with the public exponent and random (type 2) padding.
    pub fn encrypt(&self, data: &[u8]) -> (r: Result<Vec<u8>, HabboCryptoException>)
        requires
            self.wf(),
        ensures
            r is Ok,
            encrypt_outcome(data@, self.block_len(), 2, self.e_value(), self.n_value(), r->Ok_0@),
    {
        self.do_encrypt(data, true, 2)
    }

    /// Decrypts with the private exponent and checks type 2 padding.
    pub fn decrypt(&self, data: &[u8]) -> (r: Result<Vec<u8>, HabboCryptoException>)
        requires
            self.wf(),
        ensures
            !self.has_private() ==> r is Err && r->Err_0.spec_kind()
                == CryptoErrorKind::KeyUnavailable,
            self.has_private() ==> match decrypt_result(
                data@,
                self.block_len(),
                2,
                self.d_value(),
                self.n_value(),
            ) {
                Ok(v) => r is Ok && r->Ok_0@ == v,
                Err(k) => r is Err && r->Err_0.spec_kind() == k,
            },
    {
        self.do_decrypt(data, false, 2)
    }

    /// Signs with the private exponent and `0xFF` (type 1) padding.
    pub fn sign(&self, data: &[u8]) -> (r: Result<Vec<u8>, HabboCryptoException>)
        requires
            self.wf(),
        ensures
            !self.has_private() ==> r is Err && r->Err_0.spec_kind()
                == CryptoErrorKind::KeyUnavailable,
            self.has_private() ==> r is Ok && encrypt_outcome(
                data@,
                self.block_len(),
                1,
                self.d_value(),
                self.n_value(),
                r->Ok_0@,
            ),
    {
        self.do_encrypt(data, false, 1)
    }

    /// Recovers signed data with the public exponent and checks type 1 padding.
    pub fn verify(&self, data: &[u8]) -> (r: Result<Vec<u8>, HabboCryptoException>)
        requires
            self.wf(),
        ensures
            match decrypt_result(data@, self.block_len(), 1, self.e_value(), self.n_value()) {
                Ok(v) => r is Ok && r->Ok_0@ == v,
                Err(k) => r is Err && r->Err_0.spec_kind() == k,
            },
    {
        self.do_decrypt(data, true, 1)
    }

    fn do_public(&self, x: &[u8]) -> (r: Vec<u8>)
        requires
            self.wf(),
        ensures
            r@ == nat_to_be(mod_pow(be_value(x@), self.e_value(), self.n_value())),
    {
        proof {
            self.lemma_wf();
        }
        modpow_be(x, self.e.as_slice(), self.n.as_slice())
    }

    fn do_private(&self, x: &[u8]) -> (r: Result<Vec<u8>, HabboCryptoException>)
        requires
            self.wf(),
        ensures
            !self.has_private() ==> r is Err && r->Err_0.spec_kind()
                == CryptoErrorKind::KeyUnavailable,
            self.has_private() ==> r is Ok && r->Ok_0@ == nat_to_be(
                mod_pow(be_value(x@), self.d_value(), self.n_value()),
            ),
    {
        proof {
            self.lemma_wf();
        }
        match &self.d {
            Some(d) => Ok(modpow_be(x, d.as_slice(), self.n.as_slice())),
            None => Err(
                HabboCryptoException::of_kind(
                    CryptoErrorKind::KeyUnavailable,
                    "Private key not available",
                ),
            ),
        }
    }

    fn do_encrypt(&self, data: &[u8], is_public: bool, pad_type: u8) -> (r: Result<
        Vec<u8>,
        HabboCryptoException,
    >)
        requires
            self.wf(),
            pad_type == 1 || pad_type == 2,
        ensures
            !is_public && !self.has_private() ==> r is Err && r->Err_0.spec_kind()
                == CryptoErrorKind::KeyUnavailable,
            is_public || self.has_private() ==> r is Ok && encrypt_outcome(
                data@,
                self.block_len(),
                pad_type,
                if is_public {
                    self.e_value()
                } else {
                    self.d_value()
                },
                self.n_value(),
                r->Ok_0@,
            ),
    {
        if !is_public && self.d.is_none() {
            return Err(
                HabboCryptoException::of_kind(
                    CryptoErrorKind::KeyUnavailable,
                    "Private key not available",
                ),
            );
        }
        let ghost exp = if is_public {
            self.e_value()
        } else {
            self.d_value()
        };
        let ghost m = self.n_value();
        let mut dst: Vec<u8> = Vec::new();
        let bl = self.block_size;
        let end = data.len();
        let mut pos: usize = 0;
        let ghost mut k: nat = 0;
        let ghost c = chunk_capacity(bl as nat);
        proof {
            self.lemma_wf();
        }
        while pos < end
            invariant
                self.wf(),
                bl == self.block_len(),
                c == bl - 11,
                end == data@.len(),
                pad_type == 1 || pad_type == 2,
                is_public || self.has_private(),
                exp == (if is_public {
                    self.e_value()
                } else {
                    self.d_value()
                }),
                m == self.n_value(),
                pos == min_nat(k * c, end as nat),
                pos < end ==> pos == k * c,
                k > 0 ==> (k - 1) * c < end,
                dst@.len() == k * bl,
                forall|j: nat|
                    j < k ==> is_encrypted_block(
                        #[trigger] dst@.subrange((j * bl) as int, (j * bl + bl) as int),
                        chunk_of(data@, bl as nat, j),
                        bl as nat,
                        pad_type,
                        exp,
                        m,
                    ),
            decreases end - pos,
        {
            let ghost old_dst = dst@;
            let ghost old_pos = pos;
            let padded_block = Self::pkcs1_pad(data, &mut pos, end, bl, pad_type);
            let ghost chunk = data@.subrange(old_pos as int, pos as int);
            proof {
                assert(chunk == chunk_of(data@, bl as nat, k)) by {
                    assert(old_pos == k * c);
                    assert((k + 1) * c == k * c + c) by (nonlinear_arith);
                }
            }
            let chunk_value = if is_public {
                self.do_public(padded_block.as_slice())
            } else {
                match self.do_private(padded_block.as_slice()) {
                    Ok(v) => v,
                    Err(e) => {
                        return Err(e);
                    },
                }
            };
            let ghost f = choose|f: Seq<u8>|
                filler_ok(f, (bl - 3 - chunk.len()) as nat, pad_type) && padded_block@
                    == padded(chunk, pad_type, f);
            proof {
                self.lemma_wf();
                lemma_pow256_positive((bl - 1) as nat);
                assert(padded_block@[0] == 0u8);
                lemma_padded_below_modulus(padded_block@, bl as nat, m);
                lemma_nat_to_be(mod_pow(be_value(padded_block@), exp, m));
                lemma_mod_pow_below(be_value(padded_block@), exp, m);
                lemma_canonical_len(chunk_value@, bl as nat);
            }
            let leading_zeros = bl - chunk_value.len();
            let mut z: usize = 0;
            while z < leading_zeros
                invariant
                    z <= leading_zeros,
                    dst@ == old_dst + zeros(z as nat),
                decreases leading_zeros - z,
            {
                dst.push(0u8);
                z = z + 1;
                assert(dst@ =~= old_dst + zeros(z as nat));
            }
            let mut t: usize = 0;
            while t < chunk_value.len()
                invariant
                    t <= chunk_value@.len(),
                    dst@ == old_dst + zeros(leading_zeros as nat) + chunk_value@.take(t as int),
                decreases chunk_value@.len() - t,
            {
                dst.push(chunk_value[t]);
                t = t + 1;
                assert(dst@ =~= old_dst + zeros(leading_zeros as nat) + chunk_value@.take(
                    t as int,
                ));
            }
            proof {
                let block = zeros(leading_zeros as nat) + chunk_value@;
                assert(chunk_value@.take(chunk_value@.len() as int) =~= chunk_value@);
                assert(dst@ =~= old_dst + block);
                assert(block == transformed_block(chunk, bl as nat, pad_type, f, exp, m));
                assert(is_encrypted_block(block, chunk, bl as nat, pad_type, exp, m));
                assert(k * bl + bl == (k + 1) * bl) by (nonlinear_arith);
                assert forall|j: nat| j < k + 1 implies is_encrypted_block(
                    #[trigger] dst@.subrange((j * bl) as int, (j * bl + bl) as int),
                    chunk_of(data@, bl as nat, j),
                    bl as nat,
                    pad_type,
                    exp,
                    m,
                ) by {
                    if j < k {
                        assert(j * bl + bl <= k * bl) by (nonlinear_arith)
                            requires
                                j < k,
                        ;
                        assert(dst@.subrange((j * bl) as int, (j * bl + bl) as int)
                            =~= old_dst.subrange((j * bl) as int, (j * bl + bl) as int));
                    } else {
                        assert(dst@.subrange((j * bl) as int, (j * bl + bl) as int) =~= block);
                    }
                }
                assert(old_pos == k * c);
                assert((k + 1) * c == k * c + c) by (nonlinear_arith);
                k = k + 1;
            }
        }
        proof {
            assert(k == num_chunks(end as nat, bl as nat)) by {
                if k == 0 {
                    assert(end == 0);
                } else {
                    assert(k * c >= end);
                    let q = ((end - 1) as nat / c) as nat;
                    assert((k - 1) * c <= end - 1);
                    lemma_div_pins((end - 1) as nat, c, (k - 1) as nat);
                }
            }
        }
        Ok(dst)
    }

    fn do_decrypt(&self, data: &[u8], is_public: bool, pad_type: u8) -> (r: Result<
        Vec<u8>,
        HabboCryptoException,
    >)
        requires
            self.wf(),
            pad_type == 1 || pad_type == 2,
        ensures
            !is_public && !self.has_private() ==> r is Err && r->Err_0.spec_kind()
                == CryptoErrorKind::KeyUnavailable,
            is_public || self.has_private() ==> match decrypt_result(
                data@,
                self.block_len(),
                pad_type,
                if is_public {
                    self.e_value()
                } else {
                    self.d_value()
                },
                self.n_value(),
            ) {
                Ok(v) => r is Ok && r->Ok_0@ == v,
                Err(k) => r is Err && r->Err_0.spec_kind() == k,
            },
    {
        if !is_public && self.d.is_none() {
            return Err(
                HabboCryptoException::of_kind(
                    CryptoErrorKind::KeyUnavailable,
                    "Private key not available",
                ),
            );
        }
        let bl = self.block_size;
        if data.len() % bl != 0 {
            return Err(
                HabboCryptoException::of_kind(
                    CryptoErrorKind::LengthMismatch,
                    "Decryption data was not in whole blocks",
                ),
            );
        }
        let ghost exp = if is_public {
            self.e_value()
        } else {
            self.d_value()
        };
        let ghost m = self.n_value();
        let ghost n = bl as nat;
        let mut dst: Vec<u8> = Vec::new();
        let end = data.len();
        let mut pos: usize = 0;
        proof {
            assert(data@.skip(0) =~= data@);
            match decrypt_blocks(data@, n, pad_type, exp, m) {
                None => {},
                Some(r0) => {
                    assert(dst@ + r0 =~= r0);
                },
            }
        }
        while pos < end
            invariant
                self.wf(),
                bl == self.block_len(),
                n == bl,
                end == data@.len(),
                end as nat % n == 0,
                pos <= end,
                pos as nat % n == 0,
                pad_type == 1 || pad_type == 2,
                is_public || self.has_private(),
                exp == (if is_public {
                    self.e_value()
                } else {
                    self.d_value()
                }),
                m == self.n_value(),
                decrypt_blocks(data@, n, pad_type, exp, m) == match decrypt_blocks(
                    data@.skip(pos as int),
                    n,
                    pad_type,
                    exp,
                    m,
                ) {
                    None => None,
                    Some(rest) => Some(dst@ + rest),
                },
            decreases end - pos,
        {
            proof {
                assert(pos + n <= end) by {
                    lemma_sub_mod_zero(end as nat, pos as nat, n);
                    if end - pos < n {
                        vstd::arithmetic::div_mod::lemma_small_mod((end - pos) as nat, n);
                    }
                }
            }
            let mut block_data: Vec<u8> = Vec::new();
            let mut t: usize = 0;
            while t < bl
                invariant
                    t <= bl,
                    pos + bl <= end,
                    end == data@.len(),
                    block_data@ == data@.subrange(pos as int, (pos + t) as int),
                decreases bl - t,
            {
                block_data.push(data[pos + t]);
                t = t + 1;
                assert(block_data@ =~= data@.subrange(pos as int, (pos + t) as int));
            }
            let chunk = if is_public {
                self.do_public(block_data.as_slice())
            } else {
                match self.do_private(block_data.as_slice()) {
                    Ok(v) => v,
                    Err(e) => {
                        return Err(e);
                    },
                }
            };
            let ghost rest = data@.skip(pos as int);
            proof {
                assert(rest.take(n as int) =~= block_data@);
                assert(rest.skip(n as int) =~= data@.skip(pos + n));
            }
            let unpadded = match Self::pkcs1_unpad(chunk.as_slice(), bl, pad_type) {
                Ok(u) => u,
                Err(e) => {
                    return Err(e);
                },
            };
            pos = pos + bl;
            let ghost old_dst = dst@;
            let mut t2: usize = 0;
            while t2 < unpadded.len()
                invariant
                    t2 <= unpadded@.len(),
                    dst@ == old_dst + unpadded@.take(t2 as int),
                decreases unpadded@.len() - t2,
            {
                dst.push(unpadded[t2]);
                t2 = t2 + 1;
                assert(dst@ =~= old_dst + unpadded@.take(t2 as int));
            }
            proof {
                assert(unpadded@.take(unpadded@.len() as int) =~= unpadded@);
                assert(pos as nat % n == 0) by {
                    vstd::arithmetic::div_mod::lemma_mod_adds((pos - n) as int, n as int, n as int);
                    vstd::arithmetic::div_mod::lemma_mod_self_0(n as int);
                }
                match decrypt_blocks(data@.skip(pos as int), n, pad_type, exp, m) {
                    None => {},
                    Some(r2) => {
                        assert(old_dst + (unpadded@ + r2) =~= dst@ + r2);
                    },
                }
            }
        }
        proof {
            assert(data@.skip(pos as int).len() == 0);
            assert(dst@ + Seq::<u8>::empty() =~= dst@);
        }
        Ok(dst)
    }

    /// Pads the data from `*pos` (at most `n - 11` bytes of it, up to `end`)
    /// into one block of `n` bytes, and moves `*pos` past the bytes taken.
    fn pkcs1_pad(src: &[u8], pos: &mut usize, end: usize, n: usize, pad_type: u8) -> (r: Vec<u8>)
        requires
            *old(pos) < end <= src@.len(),
            n >= 12,
            pad_type == 1 || pad_type == 2,
        ensures
            *final(pos) == min_nat((*old(pos) + n - 11) as nat, end as nat),
            r@.len() == n,
            exists|f: Seq<u8>|
                filler_ok(
                    f,
                    (n - 3 - (*final(pos) - *old(pos))) as nat,
                    pad_type,
                ) && r@ == padded(src@.subrange(*old(pos) as int, *final(pos) as int), pad_type, f),
    {
        let p = *pos;
        let bounded_end = if end - p < n - 11 {
            end
        } else {
            p + (n - 11)
        };
        *pos = bounded_end;
        let len = bounded_end - p;
        let filler_len = n - 3 - len;
        let mut result: Vec<u8> = Vec::new();
        result.push(0u8);
        result.push(pad_type);
        let mut i: usize = 0;
        while i < filler_len
            invariant
                i <= filler_len,
                result@.len() == 2 + i,
                result@[0] == 0u8,
                result@[1] == pad_type,
                pad_type == 1 || pad_type == 2,
                forall|t: int|
                    2 <= t < 2 + i ==> #[trigger] result@[t] != 0 && (pad_type == 1
                        ==> result@[t] == 0xFFu8),
            decreases filler_len - i,
        {
            let b: u8 = if pad_type == 2 {
                random_byte_in(1, 255)
            } else {
                0xFFu8
            };
            result.push(b);
            i = i + 1;
        }
        let ghost f = result@.subrange(2, 2 + filler_len as int);
        assert(filler_ok(f, filler_len as nat, pad_type)) by {
            assert forall|t: int| 0 <= t < f.len() implies #[trigger] f[t] != 0 && (pad_type == 1
                ==> f[t] == 0xFFu8) by {
                assert(f[t] == result@[t + 2]);
            }
        }
        result.push(0u8);
        let ghost head = result@;
        let mut j: usize = p;
        while j < bounded_end
            invariant
                p <= j <= bounded_end,
                bounded_end <= src@.len(),
                result@ == head + src@.subrange(p as int, j as int),
            decreases bounded_end - j,
        {
            result.push(src[j]);
            j = j + 1;
            assert(result@ =~= head + src@.subrange(p as int, j as int));
        }
        proof {
            assert(head =~= seq![0u8, pad_type] + f + seq![0u8]);
            assert(result@ =~= padded(src@.subrange(p as int, bounded_end as int), pad_type, f));
        }
        result
    }

    /// Removes the padding of a block given in shortest form.
    fn pkcs1_unpad(b: &[u8], n: usize, pad_type: u8) -> (r: Result<Vec<u8>, HabboCryptoException>)
        requires
            n >= 1,
        ensures
            match unpad(b@, n as nat, pad_type) {
                Some(v) => r is Ok && r->Ok_0@ == v,
                None => r is Err && r->Err_0.spec_kind() == CryptoErrorKind::MalformedPadding,
            },
    {
        let mut i: usize = 0;
        assert(b@.skip(0) =~= b@);
        while i < b.len() && b[i] == 0
            invariant
                i <= b@.len(),
                leading_zero_count(b@) == i + leading_zero_count(b@.skip(i as int)),
            decreases b@.len() - i,
        {
            assert(b@.skip(i as int).drop_first() =~= b@.skip(i + 1));
            i = i + 1;
        }
        proof {
            assert(leading_zero_count(b@.skip(i as int)) == 0);
        }
        if i >= b.len() || b.len() - i != n - 1 || b[i] != pad_type {
            return Err(
                HabboCryptoException::of_kind(
                    CryptoErrorKind::MalformedPadding,
                    "PKCS#1 unpad: wrong block type marker",
                ),
            );
        }
        i = i + 1;
        while i < b.len() && b[i] != 0
            invariant
                i <= b@.len(),
                first_zero_from(b@, (leading_zero_count(b@) + 1) as nat) == first_zero_from(
                    b@,
                    i as nat,
                ),
            decreases b@.len() - i,
        {
            i = i + 1;
        }
        if i >= b.len() {
            return Err(
                HabboCryptoException::of_kind(
                    CryptoErrorKind::MalformedPadding,
                    "PKCS#1 unpad: no separator after the filler",
                ),
            );
        }
        let mut result: Vec<u8> = Vec::new();
        let mut t: usize = i + 1;
        while t < b.len()
            invariant
                i + 1 <= t <= b@.len(),
                result@ == b@.subrange(i + 1, t as int),
            decreases b@.len() - t,
        {
            result.push(b[t]);
            t = t + 1;
            assert(result@ =~= b@.subrange(i + 1, t as int));
        }
        Ok(result)
    }
}

/// Round trip of encryption and signing: for a key pair whose exponents undo
/// each other, decrypting any outcome of `encrypt` and verifying any outcome
/// of `sign` give the message back, whatever its length.
pub proof fn lemma_rsa_round_trip(
    key: &HabboRSACrypto,
    data: Seq<u8>,
    encrypted: Seq<u8>,
    signed: Seq<u8>,
)
    requires
        key.wf(),
        key.has_private(),
        keys_match(key.e_value(), key.d_value(), key.n_value()),
        encrypt_outcome(data, key.block_len(), 2, key.e_value(), key.n_value(), encrypted),
        encrypt_outcome(data, key.block_len(), 1, key.d_value(), key.n_value(), signed),
    ensures
        decrypt_result(encrypted, key.block_len(), 2, key.d_value(), key.n_value()) == Ok::<
            Seq<u8>,
            CryptoErrorKind,
        >(data),
        decrypt_result(signed, key.block_len(), 1, key.e_value(), key.n_value()) == Ok::<
            Seq<u8>,
            CryptoErrorKind,
        >(data),
{
    key.lemma_wf();
    lemma_blocks_round_trip(
        data,
        key.block_len(),
        2,
        key.e_value(),
        key.d_value(),
        key.n_value(),
        encrypted,
    );
    lemma_blocks_round_trip(
        data,
        key.block_len(),
        1,
        key.d_value(),
        key.e_value(),
        key.n_value(),
        signed,
    );
}

/// Padding rejection: a block whose transformed value does not carry the
/// expected padding type as its marker byte is refused with a padding error.
pub proof fn lemma_wrong_marker_rejected(data: Seq<u8>, n: nat, pad_type: u8, exp: nat, m: nat)
    requires
        n >= 1,
        data.len() == n,
        ({
            let b = nat_to_be(mod_pow(be_value(data), exp, m));
            leading_zero_count(b) < b.len() && b[leading_zero_count(b) as int] != pad_type
        }),
    ensures
        decrypt_result(data, n, pad_type, exp, m) == Err::<Seq<u8>, CryptoErrorKind>(
            CryptoErrorKind::MalformedPadding,
        ),
{
    assert(data.take(n as int) =~= data);
    vstd::arithmetic::div_mod::lemma_mod_self_0(n as int);
}

/// Padding rejection on the transformed block written in `n` bytes, as the
/// padding layout reads it: when its first byte is not zero or its second
/// byte is not `pad_type`, decrypting the block gives a padding error.
pub proof fn lemma_wrong_marker_block_rejected(
    key: &HabboRSACrypto,
    data: Seq<u8>,
    exp: nat,
    pad_type: u8,
)
    requires
        key.wf(),
        data.len() == key.block_len(),
        ({
            let y = left_pad(
                nat_to_be(mod_pow(be_value(data), exp, key.n_value())),
                key.block_len(),
            );
            y[0] != 0 || y[1] != pad_type
        }),
    ensures
        decrypt_result(data, key.block_len(), pad_type, exp, key.n_value()) == Err::<
            Seq<u8>,
            CryptoErrorKind,
        >(CryptoErrorKind::MalformedPadding),
{
    key.lemma_wf();
    let n = key.block_len();
    let m = key.n_value();
    lemma_pow256_positive((n - 1) as nat);
    let v = mod_pow(be_value(data), exp, m);
    lemma_mod_pow_below(be_value(data), exp, m);
    lemma_nat_to_be(v);
    let b = nat_to_be(v);
    lemma_canonical_len(b, n);
    let y = left_pad(b, n);
    let i = leading_zero_count(b);
    if b.len() == n {
        assert(y =~= b);
        assert(b[0] != 0);
        assert(i == 0);
    } else if b.len() == n - 1 {
        assert(y[1] == b[0]);
        assert(b[0] != 0);
        assert(i == 0);
    } else {
        assert(b.len() <= n - 2);
    }
    assert(unpad(b, n, pad_type) is None);
    assert(data.take(n as int) =~= data);
    vstd::arithmetic::div_mod::lemma_mod_self_0(n as int);
}

proof fn lemma_first_zero(b: Seq<u8>, a: nat, z: nat)
    requires
        a <= z < b.len(),
        b[z as int] == 0,
        forall|i: int| a <= i < z ==> b[i] != 0,
    ensures
        first_zero_from(b, a) == Some(z),
    decreases z - a,
{
    if a < z {
        lemma_first_zero(b, a + 1, z);
    }
}

/// One block's round trip: for exponents where `e2` undoes `e1`, a block
/// made from a chunk of at most `n - 11` bytes with `e1` is transformed
/// back with `e2` and unpadded to the chunk.
proof fn lemma_block_round_trip(
    block: Seq<u8>,
    chunk: Seq<u8>,
    n: nat,
    pad_type: u8,
    e1: nat,
    e2: nat,
    m: nat,
)
    requires
        n >= 12,
        pow256((n - 1) as nat) <= m,
        m < pow256(n),
        pad_type == 1 || pad_type == 2,
        undoes(e1, e2, m),
        chunk.len() <= n - 11,
        is_encrypted_block(block, chunk, n, pad_type, e1, m),
    ensures
        block.len() == n,
        unpad(nat_to_be(mod_pow(be_value(block), e2, m)), n, pad_type) == Some(chunk),
{
    lemma_pow256_positive((n - 1) as nat);
    let f = choose|f: Seq<u8>|
        filler_ok(f, (n - 3 - chunk.len()) as nat, pad_type) && block == #[trigger] transformed_block(
            chunk,
            n,
            pad_type,
            f,
            e1,
            m,
        );
    let p = padded(chunk, pad_type, f);
    let pv = be_value(p);
    let cv = mod_pow(pv, e1, m);
    lemma_padded_below_modulus(p, n, m);
    lemma_nat_to_be(cv);
    lemma_mod_pow_below(pv, e1, m);
    lemma_canonical_len(nat_to_be(cv), n);
    lemma_left_pad_value(nat_to_be(cv), n);
    assert(be_value(block) == cv);
    assert(mod_pow(cv, e2, m) == pv);
    let b = p.drop_first();
    assert(b =~= seq![pad_type] + f + seq![0u8] + chunk);
    lemma_canonical_round_trip(b);
    assert(nat_to_be(pv) == b);
    assert(leading_zero_count(b) == 0);
    let z = 1 + f.len();
    assert(b[z as int] == 0);
    assert forall|i: int| 1 <= i < z implies b[i] != 0 by {
        assert(b[i] == f[i - 1]);
    }
    lemma_first_zero(b, 1, z);
    assert(b.subrange(z + 1 as int, b.len() as int) =~= chunk);
}

/// Round trip over any number of blocks: for exponents where `e2` undoes
/// `e1`, any outcome of padding and transforming `data` with `e1` is
/// recovered by transforming with `e2` and unpadding.
pub proof fn lemma_blocks_round_trip(
    data: Seq<u8>,
    n: nat,
    pad_type: u8,
    e1: nat,
    e2: nat,
    m: nat,
    out: Seq<u8>,
)
    requires
        n >= 12,
        pow256((n - 1) as nat) <= m,
        m < pow256(n),
        pad_type == 1 || pad_type == 2,
        undoes(e1, e2, m),
        encrypt_outcome(data, n, pad_type, e1, m, out),
    ensures
        decrypt_result(out, n, pad_type, e2, m) == Ok::<Seq<u8>, CryptoErrorKind>(data),
    decreases data.len(),
{
    let c = chunk_capacity(n);
    if data.len() == 0 {
        assert(out.len() == 0);
        assert(data =~= Seq::<u8>::empty());
        vstd::arithmetic::div_mod::lemma_small_mod(0, n);
    } else {
        let nc = num_chunks(data.len(), n);
        assert(0 * n == 0 && 0 * n + n == n) by (nonlinear_arith);
        assert(0 * c == 0 && (0 + 1) * c == c) by (nonlinear_arith);
        assert(nc >= 1);
        assert(nc * n >= n) by (nonlinear_arith)
            requires
                nc >= 1,
        ;
        let chunk0 = chunk_of(data, n, 0);
        assert(is_encrypted_block(
            out.subrange((0 * n) as int, (0 * n + n) as int),
            chunk_of(data, n, 0),
            n,
            pad_type,
            e1,
            m,
        ));
        lemma_block_round_trip(out.subrange(0, n as int), chunk0, n, pad_type, e1, e2, m);
        assert(out.take(n as int) =~= out.subrange(0, n as int));
        vstd::arithmetic::div_mod::lemma_mod_multiples_basic(nc as int, n as int);
        if data.len() <= c {
            vstd::arithmetic::div_mod::lemma_basic_div((data.len() - 1) as int, c as int);
            assert(nc == 1);
            assert(nc * n == n) by (nonlinear_arith)
                requires
                    nc == 1,
            ;
            assert(chunk0 =~= data);
            assert(out.skip(n as int).len() == 0);
            assert(decrypt_blocks(out.skip(n as int), n, pad_type, e2, m) == Some(
                Seq::<u8>::empty(),
            ));
            assert(data + Seq::<u8>::empty() =~= data);
        } else {
            let data2 = data.skip(c as int);
            let out2 = out.skip(n as int);
            let nc2 = num_chunks(data2.len(), n);
            assert(nc2 + 1 == nc) by {
                let q = ((data2.len() - 1) as nat / c) as nat;
                vstd::arithmetic::div_mod::lemma_fundamental_div_mod(
                    (data2.len() - 1) as int,
                    c as int,
                );
                assert(q * c <= data2.len() - 1 < (q + 1) * c) by (nonlinear_arith)
                    requires
                        (data2.len() - 1) == c * q + (data2.len() - 1) % (c as int),
                        0 <= (data2.len() - 1) % (c as int) < c,
                ;
                assert((q + 1) * c == q * c + c && (q + 2) * c == (q + 1) * c + c) by (
                nonlinear_arith);
                lemma_div_pins((data.len() - 1) as nat, c, q + 1);
            }
            assert(out2.len() == nc2 * n) by {
                assert(nc * n == nc2 * n + n) by (nonlinear_arith)
                    requires
                        nc == nc2 + 1,
                ;
            }
            assert forall|k: nat| k < nc2 implies is_encrypted_block(
                #[trigger] out2.subrange((k * n) as int, (k * n + n) as int),
                chunk_of(data2, n, k),
                n,
                pad_type,
                e1,
                m,
            ) by {
                let k1 = (k + 1) as nat;
                assert(k1 * n == k * n + n && k1 * n + n == k * n + n + n) by (nonlinear_arith)
                    requires
                        k1 == k + 1,
                ;
                assert(k1 * c == k * c + c && (k1 + 1) * c == (k + 1) * c + c) by (nonlinear_arith)
                    requires
                        k1 == k + 1,
                ;
                assert(k * n + n <= nc2 * n) by (nonlinear_arith)
                    requires
                        k < nc2,
                ;
                assert(out2.subrange((k * n) as int, (k * n + n) as int) =~= out.subrange(
                    (k1 * n) as int,
                    (k1 * n + n) as int,
                ));
                assert(chunk_of(data2, n, k) =~= chunk_of(data, n, k1));
                assert(k1 < nc);
            }
            lemma_blocks_round_trip(data2, n, pad_type, e1, e2, m, out2);
            assert(chunk0 =~= data.take(c as int));
            assert(chunk0 + data2 =~= data);
            vstd::arithmetic::div_mod::lemma_mod_multiples_basic(nc2 as int, n as int);
        }
    }
}

/// `bit_len` of a byte is at most eight, and one at least for a non-zero one.
proof fn lemma_bit_len_byte(x: u8)
    ensures
        bit_len(x as nat) <= 8,
        x != 0 ==> bit_len(x as nat) >= 1,
{
    reveal_with_fuel(bit_len, 9);
}

proof fn lemma_div_pins(a: nat, c: nat, q: nat)
    requires
        c > 0,
        q * c <= a,
        a < (q + 1) * c,
    ensures
        a / c == q,
{
    vstd::arithmetic::div_mod::lemma_fundamental_div_mod(a as int, c as int);
    let d = a / c;
    let r = a % c;
    assert(d == q) by (nonlinear_arith)
        requires
            a == c * d + r,
            0 <= r < c,
            q * c <= a,
            a < (q + 1) * c,
            c > 0,
    ;
}

proof fn lemma_sub_mod_zero(a: nat, b: nat, n: nat)
    requires
        n > 0,
        b <= a,
        a % n == 0,
        b % n == 0,
    ensures
        (a - b) % (n as int) == 0,
{
    vstd::arithmetic::div_mod::lemma_fundamental_div_mod(a as int, n as int);
    vstd::arithmetic::div_mod::lemma_fundamental_div_mod(b as int, n as int);
    let qa = a as int / n as int;
    let qb = b as int / n as int;
    assert(a - b == (qa - qb) * n) by (nonlinear_arith)
        requires
            a == n * qa,
            b == n * qb,
    ;
    vstd::arithmetic::div_mod::lemma_mod_multiples_basic(qa - qb, n as int);
}

proof fn lemma_mod_pow_below(b: nat, e: nat, m: nat)
    requires
        m > 0,
    ensures
        mod_pow(b, e, m) < m,
{
}

/// A padded block of `n` bytes is below any modulus of `n` significant bytes.
proof fn lemma_padded_below_modulus(p: Seq<u8>, n: nat, m: nat)
    requires
        p.len() == n,
        n >= 1,
        p[0] == 0,
        pow256((n - 1) as nat) <= m,
    ensures
        be_value(p) < m,
        be_value(p) == be_value(p.drop_first()),
{
    assert(p =~= seq![0u8] + p.drop_first());
    lemma_be_value_leading_zero(p.drop_first());
    lemma_be_value_upper(p.drop_first());
}

} // verus!
