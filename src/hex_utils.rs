//! Hex text: the `hex` crate's lower-case encoding and tolerant decoding, and
//! the upper-case helpers of the server.

use vstd::prelude::*;

verus! {

pub open spec fn is_hex_char(c: char) -> bool {
    ('0' <= c && c <= '9') || ('a' <= c && c <= 'f') || ('A' <= c && c <= 'F')
}

/// Value of a hex digit (either case).
pub open spec fn hex_char_value(c: char) -> nat {
    if '0' <= c && c <= '9' {
        (c as nat - '0' as nat) as nat
    } else if 'a' <= c && c <= 'f' {
        (c as nat - 'a' as nat + 10) as nat
    } else {
        (c as nat - 'A' as nat + 10) as nat
    }
}

/// Lower-case hex digit of `d < 16`.
pub open spec fn lower_hex_char(d: nat) -> char {
    if d < 10 {
        (d + '0' as nat) as char
    } else {
        (d - 10 + 'a' as nat) as char
    }
}

/// Upper-case hex digit of `d < 16`.
pub open spec fn upper_hex_char(d: nat) -> char {
    if d < 10 {
        (d + '0' as nat) as char
    } else {
        (d - 10 + 'A' as nat) as char
    }
}

/// Two lower-case hex digits per byte, high nibble first.
pub open spec fn hex_lower(b: Seq<u8>) -> Seq<char> {
    Seq::new(
        2 * b.len(),
        |i: int|
            if i % 2 == 0 {
                lower_hex_char(b[i / 2] as nat / 16)
            } else {
                lower_hex_char(b[i / 2] as nat % 16)
            },
    )
}

/// Two upper-case hex digits per byte, high nibble first.
pub open spec fn hex_upper(b: Seq<u8>) -> Seq<char> {
    Seq::new(
        2 * b.len(),
        |i: int|
            if i % 2 == 0 {
                upper_hex_char(b[i / 2] as nat / 16)
            } else {
                upper_hex_char(b[i / 2] as nat % 16)
            },
    )
}

pub open spec fn all_hex(s: Seq<char>) -> bool {
    forall|i: int| 0 <= i < s.len() ==> is_hex_char(#[trigger] s[i])
}

/// Bytes of hex text with an even number of digits (either case); `None`
/// for anything else.
pub open spec fn hex_decode_chars(s: Seq<char>) -> Option<Seq<u8>> {
    if s.len() % 2 != 0 || !all_hex(s) {
        None
    } else {
        Some(
            Seq::new(
                s.len() / 2,
                |i: int| (hex_char_value(s[2 * i]) * 16 + hex_char_value(s[2 * i + 1])) as u8,
            ),
        )
    }
}

/// Relies on `hex::encode`: two lower-case hex digits per byte.
#[verifier::external_body]
pub(crate) fn hex_encode(b: &[u8]) -> (r: String)
    ensures
        r@ == hex_lower(b@),
{
    hex::encode(b)
}

/// Relies on `hex::decode`: an error for an odd number of bytes or for a
/// byte that is not a hex digit of either case; otherwise one byte per
/// pair of digits.
#[verifier::external_body]
pub(crate) fn hex_decode(s: &str) -> (r: Option<Vec<u8>>)
    ensures
        match hex_decode_chars(s@) {
            Some(v) => r is Some && r->0@ == v,
            None => r is None,
        },
{
    hex::decode(s).ok()
}

/// Relies on `str::chars`, collected: the characters of the text.
#[verifier::external_body]
pub(crate) fn chars_of(s: &str) -> (r: Vec<char>)
    ensures
        r@ == s@,
{
    s.chars().collect()
}

/// Relies on collecting characters into a `String` (`FromIterator<char>`).
#[verifier::external_body]
pub(crate) fn string_of(chars: &Vec<char>) -> (r: String)
    ensures
        r@ == chars@,
{
    chars.iter().collect()
}

/// Relies on `rand::random::<u32>`: any value.
#[verifier::external_body]
fn random_u32() -> (r: u32) {
    rand::random::<u32>()
}

/// Lower-case hex digits of `v` without leading zeros, as `{:x}` writes them.
pub open spec fn lower_hex_digits(v: nat) -> Seq<char>
    decreases v,
{
    if v < 16 {
        seq![lower_hex_char(v)]
    } else {
        lower_hex_digits(v / 16).push(lower_hex_char(v % 16))
    }
}

pub struct HexUtils;

impl HexUtils {
    /// Two upper-case hex digits per byte.
    pub fn to_hex(bytes: &[u8]) -> (r: String)
        ensures
            r@ == hex_upper(bytes@),
    {
        let mut out: Vec<char> = Vec::new();
        let mut i: usize = 0;
        while i < bytes.len()
            invariant
                i <= bytes@.len(),
                out@ == hex_upper(bytes@.take(i as int)),
            decreases bytes@.len() - i,
        {
            let b = bytes[i];
            out.push(Self::upper_digit(b / 16));
            out.push(Self::upper_digit(b % 16));
            i = i + 1;
            assert(out@ =~= hex_upper(bytes@.take(i as int)));
        }
        assert(bytes@.take(bytes@.len() as int) =~= bytes@);
        string_of(&out)
    }

    fn upper_digit(d: u8) -> (r: char)
        requires
            d < 16,
        ensures
            r == upper_hex_char(d as nat),
    {
        if d < 10 {
            (d + 48) as char
        } else {
            (d - 10 + 65) as char
        }
    }

    fn lower_digit(d: u32) -> (r: char)
        requires
            d < 16,
        ensures
            r == lower_hex_char(d as nat),
    {
        if d < 10 {
            ((d + 48) as u8) as char
        } else {
            ((d - 10 + 97) as u8) as char
        }
    }

    fn digit_value(c: char) -> (r: Option<u8>)
        ensures
            is_hex_char(c) ==> r == Some(hex_char_value(c) as u8),
            !is_hex_char(c) ==> r is None,
    {
        if '0' <= c && c <= '9' {
            Some(((c as u32) - 48) as u8)
        } else if 'a' <= c && c <= 'f' {
            Some(((c as u32) - 97 + 10) as u8)
        } else if 'A' <= c && c <= 'F' {
            Some(((c as u32) - 65 + 10) as u8)
        } else {
            None
        }
    }

    /// Bytes of hex text of either case; an error for an odd number of
    /// digits or a character that is no hex digit.
    pub fn to_bytes(hex_string: &str) -> (r: Result<Vec<u8>, String>)
        ensures
            match hex_decode_chars(hex_string@) {
                Some(v) => r is Ok && r->Ok_0@ == v,
                None => r is Err,
            },
    {
        let chars = chars_of(hex_string);
        if chars.len() % 2 != 0 {
            return Err("Hex string must have an even length".to_owned());
        }
        let mut bytes: Vec<u8> = Vec::new();
        let mut i: usize = 0;
        while i < chars.len()
            invariant
                chars@ == hex_string@,
                chars@.len() % 2 == 0,
                i % 2 == 0,
                i <= chars@.len(),
                bytes@.len() == i / 2,
                forall|k: int| 0 <= k < i ==> is_hex_char(#[trigger] chars@[k]),
                forall|k: int|
                    0 <= k < i / 2 ==> #[trigger] bytes@[k] == (hex_char_value(chars@[2 * k]) * 16
                        + hex_char_value(chars@[2 * k + 1])) as u8,
            decreases chars@.len() - i,
        {
            let high = chars[i];
            let low = chars[i + 1];
            let h = match Self::digit_value(high) {
                Some(v) => v,
                None => {
                    return Err("Invalid hex character".to_owned());
                },
            };
            let l = match Self::digit_value(low) {
                Some(v) => v,
                None => {
                    return Err("Invalid hex character".to_owned());
                },
            };
            bytes.push(h * 16 + l);
            i = i + 2;
        }
        assert(bytes@ =~= hex_decode_chars(hex_string@)->0);
        Ok(bytes)
    }

    /// `length` random lower-case hex digits.
    pub fn get_random(length: usize) -> (r: String)
        ensures
            r@.len() == length,
            forall|i: int| 0 <= i < r@.len() ==> is_hex_char(#[trigger] r@[i]),
    {
        let mut out: Vec<char> = Vec::new();
        while out.len() < length
            invariant
                forall|i: int| 0 <= i < out@.len() ==> is_hex_char(#[trigger] out@[i]),
                out@.len() <= length,
            decreases length - out@.len(),
        {
            let digits = Self::format_hex(random_u32());
            let start = out.len();
            let mut k: usize = 0;
            while k < digits.len() && out.len() < length
                invariant
                    forall|i: int| 0 <= i < out@.len() ==> is_hex_char(#[trigger] out@[i]),
                    forall|i: int| 0 <= i < digits@.len() ==> is_hex_char(#[trigger] digits@[i]),
                    out@.len() <= length,
                    start < length,
                    digits@.len() >= 1,
                    k <= digits@.len(),
                    out@.len() == start + k,
                decreases digits@.len() - k,
            {
                out.push(digits[k]);
                k = k + 1;
            }
        }
        string_of(&out)
    }

    /// `{:x}` of a 32-bit value.
    fn format_hex(v: u32) -> (r: Vec<char>)
        ensures
            r@ == lower_hex_digits(v as nat),
            r@.len() >= 1,
            forall|i: int| 0 <= i < r@.len() ==> is_hex_char(#[trigger] r@[i]),
    {
        let mut rev: Vec<char> = Vec::new();
        let mut x: u32 = v;
        while x >= 16
            invariant
                lower_hex_digits(v as nat) == lower_hex_digits(x as nat) + rev@.reverse(),
                forall|i: int| 0 <= i < rev@.len() ==> is_hex_char(#[trigger] rev@[i]),
            decreases x,
        {
            rev.push(Self::lower_digit(x % 16));
            proof {
                assert(lower_hex_digits(x as nat) == lower_hex_digits((x / 16) as nat).push(
                    lower_hex_char((x % 16) as nat),
                ));
                assert(rev@.reverse() =~= seq![rev@.last()] + rev@.drop_last().reverse());
            }
            x = x / 16;
        }
        rev.push(Self::lower_digit(x));
        proof {
            assert(rev@.reverse() =~= seq![rev@.last()] + rev@.drop_last().reverse());
        }
        let mut out: Vec<char> = Vec::new();
        let mut k: usize = rev.len();
        while k > 0
            invariant
                k <= rev@.len(),
                out@ == rev@.subrange(k as int, rev@.len() as int).reverse(),
                forall|i: int| 0 <= i < rev@.len() ==> is_hex_char(#[trigger] rev@[i]),
            decreases k,
        {
            k = k - 1;
            out.push(rev[k]);
            assert(out@ =~= rev@.subrange(k as int, rev@.len() as int).reverse());
        }
        assert(rev@.subrange(0, rev@.len() as int) =~= rev@);
        assert forall|i: int| 0 <= i < out@.len() implies is_hex_char(#[trigger] out@[i]) by {
            assert(out@[i] == rev@[rev@.len() - 1 - i]);
        }
        out
    }
}

/// Hex text written by `hex::encode` decodes to the bytes it was made of.
pub proof fn lemma_hex_round_trip(b: Seq<u8>)
    ensures
        hex_decode_chars(hex_lower(b)) == Some(b),
{
    let s = hex_lower(b);
    assert forall|i: int| 0 <= i < s.len() implies is_hex_char(#[trigger] s[i]) by {
        let byte = b[i / 2] as nat;
        assert(byte / 16 < 16 && byte % 16 < 16);
    }
    assert(s.len() % 2 == 0);
    let d = hex_decode_chars(s)->0;
    assert forall|k: int| 0 <= k < b.len() implies #[trigger] d[k] == b[k] by {
        let byte = b[k] as nat;
        assert(s[2 * k] == lower_hex_char(byte / 16)) by {
            assert((2 * k) / 2 == k && (2 * k) % 2 == 0);
        }
        assert(s[2 * k + 1] == lower_hex_char(byte % 16)) by {
            assert((2 * k + 1) / 2 == k && (2 * k + 1) % 2 == 1);
        }
        assert(hex_char_value(lower_hex_char(byte / 16)) == byte / 16);
        assert(hex_char_value(lower_hex_char(byte % 16)) == byte % 16);
    }
    assert(d =~= b);
}

} // verus!
