//! Non-negative big integers held as big-endian byte strings, and the
//! arithmetic on them that `num_bigint` performs.

use vstd::prelude::*;
use vstd::arithmetic::power::pow;
use num_bigint::BigUint;
use num_bigint::RandBigInt;

verus! {

/// Value of a big-endian byte string.
pub open spec fn be_value(s: Seq<u8>) -> nat
    decreases s.len(),
{
    if s.len() == 0 {
        0
    } else {
        be_value(s.drop_last()) * 256 + s.last() as nat
    }
}

pub open spec fn pow256(k: nat) -> nat
    decreases k,
{
    if k == 0 {
        1
    } else {
        256 * pow256((k - 1) as nat)
    }
}

/// Shortest big-endian form: at least one byte, and no leading zero byte
/// unless the value is zero itself.
pub open spec fn canonical(s: Seq<u8>) -> bool {
    s.len() >= 1 && (s.len() > 1 ==> s[0] != 0)
}

/// The shortest big-endian form of `v` (zero is a single zero byte).
pub open spec fn nat_to_be(v: nat) -> Seq<u8>
    decreases v,
{
    if v < 256 {
        seq![v as u8]
    } else {
        nat_to_be(v / 256).push((v % 256) as u8)
    }
}

pub open spec fn zeros(k: nat) -> Seq<u8> {
    Seq::new(k, |i: int| 0u8)
}

/// `s` preceded by zero bytes up to length `n`.
pub open spec fn left_pad(s: Seq<u8>, n: nat) -> Seq<u8> {
    zeros((n - s.len()) as nat) + s
}

/// `(b ^ e) mod m`.
pub open spec fn mod_pow(b: nat, e: nat, m: nat) -> nat {
    if m == 0 {
        0
    } else {
        (pow(b as int, e) % (m as int)) as nat
    }
}

/// Number of significant bits of `v`.
pub open spec fn bit_len(v: nat) -> nat
    decreases v,
{
    if v == 0 {
        0
    } else {
        1 + bit_len(v / 2)
    }
}

pub open spec fn pow2_nat(k: nat) -> nat
    decreases k,
{
    if k == 0 {
        1
    } else {
        2 * pow2_nat((k - 1) as nat)
    }
}

/// Base-ten digits of `v` as ASCII bytes, without leading zeros.
pub open spec fn decimal_digits(v: nat) -> Seq<u8>
    decreases v,
{
    if v < 10 {
        seq![(v + 48) as u8]
    } else {
        decimal_digits(v / 10).push((v % 10 + 48) as u8)
    }
}

/// Value of an ASCII digit or letter in a radix up to 36 (255 for anything else).
pub open spec fn digit_value(b: u8) -> nat {
    if 48 <= b <= 57 {
        (b - 48) as nat
    } else if 97 <= b <= 122 {
        (b - 97 + 10) as nat
    } else if 65 <= b <= 90 {
        (b - 65 + 10) as nat
    } else {
        255
    }
}

pub open spec fn radix_digits_ok(s: Seq<u8>, radix: nat) -> bool {
    forall|i: int| 0 <= i < s.len() ==> (s[i] == 95u8 || digit_value(#[trigger] s[i]) < radix)
}

/// Value of digits in `radix`, skipping `_` separators.
pub open spec fn radix_value(s: Seq<u8>, radix: nat) -> nat
    decreases s.len(),
{
    if s.len() == 0 {
        0
    } else if s.last() == 95u8 {
        radix_value(s.drop_last(), radix)
    } else {
        radix_value(s.drop_last(), radix) * radix + digit_value(s.last())
    }
}

/// The text with one leading `+` removed, unless a second `+` follows it.
pub open spec fn strip_plus(s: Seq<u8>) -> Seq<u8> {
    if s.len() > 0 && s[0] == 43u8 && !(s.len() > 1 && s[1] == 43u8) {
        s.drop_first()
    } else {
        s
    }
}

/// Unsigned number text in `radix`: an optional `+`, then a digit, then
/// digits and `_` separators.
pub open spec fn parse_radix(s: Seq<u8>, radix: nat) -> Option<nat> {
    let t = strip_plus(s);
    if t.len() == 0 || t[0] == 95u8 || !radix_digits_ok(t, radix) {
        None
    } else {
        Some(radix_value(t, radix))
    }
}

/// Relies on `num_bigint::BigUint::modpow`: `(base ^ exponent) % modulus`, which panics only on
/// a zero modulus. The operands are read with `BigUint::from_bytes_be` and the result written
/// with `BigUint::to_bytes_be` (shortest form, zero as one zero byte).
#[verifier::external_body]
pub(crate) fn modpow_be(base: &[u8], exponent: &[u8], modulus: &[u8]) -> (r: Vec<u8>)
    requires
        be_value(modulus@) > 0,
    ensures
        r@ == nat_to_be(mod_pow(be_value(base@), be_value(exponent@), be_value(modulus@))),
{
    let m = BigUint::from_bytes_be(modulus);
    BigUint::from_bytes_be(base).modpow(&BigUint::from_bytes_be(exponent), &m).to_bytes_be()
}

/// Relies on `num_bigint::BigUint::parse_bytes`: UTF-8 text with an optional single `+`, then
/// digits of `radix` (either case for letters) with `_` separators after the first digit;
/// anything else gives `None`. The value is written with `BigUint::to_bytes_be`.
#[verifier::external_body]
pub(crate) fn parse_be(buf: &[u8], radix: u32) -> (r: Option<Vec<u8>>)
    requires
        2 <= radix <= 36,
    ensures
        match parse_radix(buf@, radix as nat) {
            Some(v) => r is Some && r->0@ == nat_to_be(v),
            None => r is None,
        },
{
    BigUint::parse_bytes(buf, radix).map(|v| v.to_bytes_be())
}

/// Relies on the `Display` impl of `num_bigint::BigUint`, through `to_string`: base-ten digits
/// without sign or leading zeros.
#[verifier::external_body]
pub(crate) fn decimal_be(v: &[u8]) -> (r: Vec<u8>)
    ensures
        r@ == decimal_digits(be_value(v@)),
{
    BigUint::from_bytes_be(v).to_string().into_bytes()
}

/// Relies on the `PartialOrd` impl of `num_bigint::BigUint` (`<`), on values read with
/// `BigUint::from_bytes_be`.
#[verifier::external_body]
pub(crate) fn less_than_be(a: &[u8], b: &[u8]) -> (r: bool)
    ensures
        r == (be_value(a@) < be_value(b@)),
{
    BigUint::from_bytes_be(a) < BigUint::from_bytes_be(b)
}

/// Relies on `num_bigint::RandBigInt::gen_biguint` drawn from `rand::thread_rng`: a random
/// value below `2^bits`, written with `BigUint::to_bytes_be`.
#[verifier::external_body]
pub(crate) fn random_be(bits: u64) -> (r: Vec<u8>)
    ensures
        canonical(r@),
        be_value(r@) < pow(2, bits as nat),
{
    rand::thread_rng().gen_biguint(bits).to_bytes_be()
}

// ---------------------------------------------------------------------------
// Lemmas on big-endian byte strings

pub proof fn lemma_pow256_positive(k: nat)
    ensures
        pow256(k) >= 1,
    decreases k,
{
    if k > 0 {
        lemma_pow256_positive((k - 1) as nat);
    }
}

pub proof fn lemma_pow256_monotonic(a: nat, b: nat)
    requires
        a <= b,
    ensures
        pow256(a) <= pow256(b),
    decreases b,
{
    if a < b {
        lemma_pow256_monotonic(a, (b - 1) as nat);
        lemma_pow256_positive((b - 1) as nat);
    }
}

pub proof fn lemma_be_value_upper(s: Seq<u8>)
    ensures
        be_value(s) < pow256(s.len()),
    decreases s.len(),
{
    if s.len() > 0 {
        lemma_be_value_upper(s.drop_last());
        let a = be_value(s.drop_last());
        let p = pow256((s.len() - 1) as nat);
        assert(a * 256 + 255 < p * 256) by (nonlinear_arith)
            requires
                a < p,
        ;
    }
}

pub proof fn lemma_be_value_lower(s: Seq<u8>)
    requires
        s.len() >= 1,
        s[0] != 0,
    ensures
        be_value(s) >= pow256((s.len() - 1) as nat),
    decreases s.len(),
{
    if s.len() > 1 {
        let t = s.drop_last();
        assert(t[0] == s[0]);
        lemma_be_value_lower(t);
    }
}

pub proof fn lemma_be_value_push(s: Seq<u8>, b: u8)
    ensures
        be_value(s.push(b)) == be_value(s) * 256 + b as nat,
{
    assert(s.push(b).drop_last() =~= s);
}

pub proof fn lemma_be_value_leading_zero(s: Seq<u8>)
    ensures
        be_value(seq![0u8] + s) == be_value(s),
    decreases s.len(),
{
    if s.len() > 0 {
        assert((seq![0u8] + s).drop_last() =~= seq![0u8] + s.drop_last());
        assert((seq![0u8] + s).last() == s.last());
        lemma_be_value_leading_zero(s.drop_last());
    } else {
        assert(seq![0u8] + s =~= seq![0u8]);
        assert(seq![0u8].drop_last() =~= Seq::<u8>::empty());
        assert(be_value(Seq::<u8>::empty()) == 0);
        assert(be_value(seq![0u8]) == 0);
    }
}

pub proof fn lemma_be_value_zeros_prefix(k: nat, s: Seq<u8>)
    ensures
        be_value(zeros(k) + s) == be_value(s),
    decreases k,
{
    if k > 0 {
        assert(zeros(k) + s =~= seq![0u8] + (zeros((k - 1) as nat) + s));
        lemma_be_value_leading_zero(zeros((k - 1) as nat) + s);
        lemma_be_value_zeros_prefix((k - 1) as nat, s);
    }
}

pub proof fn lemma_nat_to_be(v: nat)
    ensures
        canonical(nat_to_be(v)),
        be_value(nat_to_be(v)) == v,
        v > 0 ==> nat_to_be(v)[0] != 0,
    decreases v,
{
    if v >= 256 {
        lemma_nat_to_be(v / 256);
        let t = nat_to_be(v / 256);
        lemma_be_value_push(t, (v % 256) as u8);
        assert(nat_to_be(v)[0] == t[0]);
    } else {
        assert(be_value(seq![v as u8].drop_last()) == 0) by {
            assert(seq![v as u8].drop_last() =~= Seq::<u8>::empty());
        }
    }
}

pub proof fn lemma_canonical_round_trip(s: Seq<u8>)
    requires
        canonical(s),
    ensures
        nat_to_be(be_value(s)) == s,
    decreases s.len(),
{
    if s.len() == 1 {
        assert(s.drop_last() =~= Seq::<u8>::empty());
        assert(be_value(s.drop_last()) == 0);
        assert(be_value(s) == s[0] as nat);
        assert(nat_to_be(be_value(s)) =~= s);
    } else {
        let t = s.drop_last();
        assert(t[0] == s[0]);
        lemma_be_value_lower(t);
        lemma_pow256_positive((t.len() - 1) as nat);
        lemma_canonical_round_trip(t);
        let v = be_value(s);
        assert(v / 256 == be_value(t) && v % 256 == s.last() as nat);
        assert(s =~= t.push(s.last()));
    }
}

/// A canonical string whose value is below `256^n` has at most `n` bytes.
pub proof fn lemma_canonical_len(s: Seq<u8>, n: nat)
    requires
        canonical(s),
        n >= 1,
        be_value(s) < pow256(n),
    ensures
        s.len() <= n,
{
    if s.len() > n {
        lemma_be_value_lower(s);
        lemma_pow256_monotonic(n, (s.len() - 1) as nat);
    }
}

pub proof fn lemma_left_pad_value(s: Seq<u8>, n: nat)
    requires
        s.len() <= n,
    ensures
        left_pad(s, n).len() == n,
        be_value(left_pad(s, n)) == be_value(s),
{
    lemma_be_value_zeros_prefix((n - s.len()) as nat, s);
}

/// Every byte of `decimal_digits(v)` is an ASCII digit.
pub proof fn lemma_decimal_digits_ascii(v: nat)
    ensures
        decimal_digits(v).len() >= 1,
        forall|i: int|
            0 <= i < decimal_digits(v).len() ==> 48 <= #[trigger] decimal_digits(v)[i] <= 57,
    decreases v,
{
    if v >= 10 {
        lemma_decimal_digits_ascii(v / 10);
    }
}

/// Decimal text of a value parses back to it.
pub proof fn lemma_decimal_parse(v: nat)
    ensures
        parse_radix(decimal_digits(v), 10) == Some(v),
{
    lemma_decimal_digits_ascii(v);
    lemma_decimal_value(v);
    let s = decimal_digits(v);
    assert(strip_plus(s) == s);
    assert forall|i: int| 0 <= i < s.len() implies (s[i] == 95u8 || digit_value(#[trigger] s[i])
        < 10) by {}
}

proof fn lemma_decimal_value(v: nat)
    ensures
        radix_value(decimal_digits(v), 10) == v,
    decreases v,
{
    let s = decimal_digits(v);
    if v < 10 {
        assert(s.drop_last() =~= Seq::<u8>::empty());
        assert(s.last() == (v + 48) as u8);
        assert(radix_value(Seq::<u8>::empty(), 10) == 0);
    } else {
        lemma_decimal_value(v / 10);
        assert(s.drop_last() =~= decimal_digits(v / 10));
        assert(s.last() == (v % 10 + 48) as u8);
        assert(digit_value(s.last()) == v % 10);
        assert((v / 10) * 10 + v % 10 == v);
    }
}

// ---------------------------------------------------------------------------
// Executable helpers

/// Number of significant bits of the value of a shortest-form big-endian string.
pub fn calculate_bigint_bits(bytes: &[u8]) -> (r: u128)
    requires
        canonical(bytes@),
    ensures
        r == 8 * (bytes@.len() - 1) + bit_len(bytes@[0] as nat),
{
    let first: u8 = bytes[0];
    let mut x: u8 = first;
    let mut count: usize = 0;
    let ghost mut p: nat = 1;
    while x > 0
        invariant
            count + bit_len(x as nat) == bit_len(first as nat),
            count <= 8,
            p == pow2_nat(count as nat),
            x as nat * p <= 255,
        decreases x,
    {
        proof {
            assert((x / 2) as nat * (p * 2) <= x as nat * p) by (nonlinear_arith);
            if count == 8 {
                reveal_with_fuel(pow2_nat, 9);
                assert(x as nat * p >= p) by (nonlinear_arith)
                    requires
                        x >= 1,
                ;
            }
        }
        x = x / 2;
        count = count + 1;
        proof {
            p = p * 2;
        }
    }
    8 * ((bytes.len() - 1) as u128) + count as u128
}

/// Helpers on big-endian magnitudes.
pub struct BigIntegerUtils;

impl BigIntegerUtils {
    /// The bytes without a leading zero byte, as a signed encoding would
    /// carry for a value with its top bit set.
    pub fn to_unsigned_byte_array(bytes: &[u8]) -> (r: Vec<u8>)
        ensures
            bytes@.len() > 0 && bytes@[0] == 0 ==> r@ == bytes@.drop_first(),
            !(bytes@.len() > 0 && bytes@[0] == 0) ==> r@ == bytes@,
    {
        let mut out: Vec<u8> = Vec::new();
        let start: usize = if bytes.len() > 0 && bytes[0] == 0 { 1 } else { 0 };
        let mut i: usize = start;
        while i < bytes.len()
            invariant
                start <= i <= bytes@.len(),
                out@ == bytes@.subrange(start as int, i as int),
            decreases bytes@.len() - i,
        {
            out.push(bytes[i]);
            i = i + 1;
            assert(out@ =~= bytes@.subrange(start as int, i as int));
        }
        assert(bytes@.subrange(0, bytes@.len() as int) =~= bytes@);
        assert(bytes@.subrange(1, bytes@.len() as int) =~= bytes@.drop_first());
        out
    }
}

} // verus!
