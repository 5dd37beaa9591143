//! Settings read from `key=value` text, with typed lookups.

use vstd::prelude::*;
use crate::hex_utils::{chars_of, string_of};

verus! {

/// Characters with the Unicode `White_Space` property, which
/// `char::is_whitespace` tests.
pub open spec fn is_white_space(c: char) -> bool {
    let v = c as u32;
    (0x9 <= v <= 0xD) || v == 0x20 || v == 0x85 || v == 0xA0 || v == 0x1680 || (0x2000 <= v
        <= 0x200A) || v == 0x2028 || v == 0x2029 || v == 0x202F || v == 0x205F || v == 0x3000
}

pub open spec fn trim_start(s: Seq<char>) -> Seq<char>
    decreases s.len(),
{
    if s.len() > 0 && is_white_space(s[0]) {
        trim_start(s.drop_first())
    } else {
        s
    }
}

pub open spec fn trim_end(s: Seq<char>) -> Seq<char>
    decreases s.len(),
{
    if s.len() > 0 && is_white_space(s.last()) {
        trim_end(s.drop_last())
    } else {
        s
    }
}

/// A text without its leading and trailing white space.
pub open spec fn trimmed_of(s: Seq<char>) -> Seq<char> {
    trim_end(trim_start(s))
}

/// What `str::to_lowercase` makes of a text: it depends on the characters alone.
pub uninterp spec fn lowercase_of(s: Seq<char>) -> Seq<char>;

/// Relies on `str::trim`: the text without leading and trailing characters
/// for which `char::is_whitespace` holds.
#[verifier::external_body]
fn trim_text(s: &str) -> (r: String)
    ensures
        r@ == trimmed_of(s@),
{
    s.trim().to_owned()
}

/// Relies on `str::to_lowercase`.
#[verifier::external_body]
fn lowercase_text(s: &str) -> (r: String)
    ensures
        r@ == lowercase_of(s@),
{
    s.to_lowercase()
}

pub open spec fn is_digit_char(c: char) -> bool {
    '0' <= c && c <= '9'
}

pub open spec fn digits_value(s: Seq<char>) -> nat
    decreases s.len(),
{
    if s.len() == 0 {
        0
    } else {
        digits_value(s.drop_last()) * 10 + (s.last() as nat - '0' as nat) as nat
    }
}

/// Decimal text of an `i32`: an optional sign, then at least one digit, with
/// the value in range.
pub open spec fn parse_i32_chars(s: Seq<char>) -> Option<i32> {
    let neg = s.len() > 0 && s[0] == '-';
    let digits = if s.len() > 0 && (s[0] == '-' || s[0] == '+') {
        s.drop_first()
    } else {
        s
    };
    let v: int = if neg {
        -digits_value(digits)
    } else {
        digits_value(digits) as int
    };
    if digits.len() == 0 || !(forall|i: int| 0 <= i < digits.len() ==> is_digit_char(#[trigger] digits[i])) {
        None
    } else if v < i32::MIN || v > i32::MAX {
        None
    } else {
        Some(v as i32)
    }
}

/// Relies on `str::parse::<i32>` (`FromStr for i32`): an optional `+` or `-`,
/// then ASCII digits, with the value in range; anything else is an error.
#[verifier::external_body]
pub(crate) fn parse_i32(s: &str) -> (r: Option<i32>)
    ensures
        r == parse_i32_chars(s@),
{
    s.parse::<i32>().ok()
}

/// Index of the first `c` in `s` at or after `i`.
pub open spec fn find_from(s: Seq<char>, c: char, i: nat) -> Option<nat>
    decreases s.len() - i,
{
    if i >= s.len() {
        None
    } else if s[i as int] == c {
        Some(i)
    } else {
        find_from(s, c, i + 1)
    }
}

/// The setting on one line: the trimmed line, unless empty or a comment
/// (`#`) or section (`[`) line, split at its first `=` into trimmed key and
/// value.
pub open spec fn line_entry(line: Seq<char>) -> Option<(Seq<char>, Seq<char>)> {
    let t = trimmed_of(line);
    if t.len() == 0 || t[0] == '#' || t[0] == '[' {
        None
    } else {
        match find_from(t, '=', 0) {
            None => None,
            Some(p) => Some((trimmed_of(t.take(p as int)), trimmed_of(t.skip(p + 1 as int)))),
        }
    }
}

pub open spec fn entry_seq(line: Seq<char>) -> Seq<(Seq<char>, Seq<char>)> {
    match line_entry(line) {
        None => Seq::empty(),
        Some(e) => seq![e],
    }
}

/// Settings of a text, line by line, in order.
pub open spec fn text_entries(text: Seq<char>) -> Seq<(Seq<char>, Seq<char>)>
    decreases text.len(),
{
    match find_from(text, '\n', 0) {
        None => entry_seq(text),
        Some(i) => if i < text.len() {
            entry_seq(text.take(i as int)) + text_entries(text.skip(i + 1 as int))
        } else {
            entry_seq(text)
        },
    }
}

/// The value of `key`: the latest entry for it wins.
pub open spec fn lookup(es: Seq<(Seq<char>, Seq<char>)>, key: Seq<char>) -> Option<Seq<char>>
    decreases es.len(),
{
    if es.len() == 0 {
        None
    } else if es.last().0 == key {
        Some(es.last().1)
    } else {
        lookup(es.drop_last(), key)
    }
}

/// Why a setting could not be read.
#[derive(Clone, Copy, Debug, PartialEq, Eq, Structural)]
pub enum ConfigError {
    KeyNotFound,
    NotAnInteger,
    NotABoolean,
}

/// Settings in the order they were read or set; later ones override earlier.
#[derive(Debug)]
pub struct ConfigurationManager {
    config_path: String,
    values: Vec<(String, String)>,
    pub loaded: bool,
}

impl ConfigurationManager {
    pub closed spec fn entries(&self) -> Seq<(Seq<char>, Seq<char>)> {
        Seq::new(self.values@.len(), |i: int| (self.values@[i].0@, self.values@[i].1@))
    }

    pub closed spec fn spec_path(&self) -> Seq<char> {
        self.config_path@
    }

    /// Settings from the text of the file at `config_path`.
    pub fn new(config_path: &str, contents: &str) -> (r: Self)
        ensures
            r.entries() == text_entries(contents@),
            r.spec_path() == config_path@,
    {
        let mut manager = ConfigurationManager {
            config_path: config_path.to_owned(),
            values: Vec::new(),
            loaded: false,
        };
        proof {
            assert(manager.entries() =~= Seq::<(Seq<char>, Seq<char>)>::empty());
        }
        manager.load_from_text(contents);
        manager
    }

    pub fn config_path(&self) -> (r: &str)
        ensures
            r@ == self.spec_path(),
    {
        self.config_path.as_str()
    }

    /// Appends the settings of `contents`.
    fn load_from_text(&mut self, contents: &str)
        requires
            old(self).entries() == Seq::<(Seq<char>, Seq<char>)>::empty(),
        ensures
            final(self).entries() == text_entries(contents@),
            final(self).config_path == old(self).config_path,
            final(self).loaded == old(self).loaded,
    {
        let chars = chars_of(contents);
        let ghost text = chars@;
        let mut start: usize = 0;
        proof {
            assert(text.skip(0) =~= text);
            assert(self.entries() + text_entries(text.skip(0)) =~= text_entries(text));
        }
        loop
            invariant_except_break
                chars@ == text,
                text == contents@,
                start <= chars@.len(),
                self.entries() + text_entries(text.skip(start as int)) == text_entries(text),
                self.config_path == old(self).config_path,
                self.loaded == old(self).loaded,
            ensures
                self.entries() == text_entries(text),
                self.config_path == old(self).config_path,
                self.loaded == old(self).loaded,
            decreases chars@.len() - start,
        {
            let ghost rest = text.skip(start as int);
            let mut end: usize = start;
            while end < chars.len() && chars[end] != '\n'
                invariant
                    start <= end <= chars@.len(),
                    chars@ == text,
                    rest == text.skip(start as int),
                    find_from(rest, '\n', 0) == find_from(rest, '\n', (end - start) as nat),
                decreases chars@.len() - end,
            {
                end = end + 1;
            }
            let mut line: Vec<char> = Vec::new();
            let mut k: usize = start;
            while k < end
                invariant
                    start <= k <= end,
                    end <= chars@.len(),
                    line@ == chars@.subrange(start as int, k as int),
                decreases end - k,
            {
                line.push(chars[k]);
                k = k + 1;
                assert(line@ =~= chars@.subrange(start as int, k as int));
            }
            let ghost before = self.entries();
            self.add_line(&line);
            if end >= chars.len() {
                proof {
                    assert(find_from(rest, '\n', 0) is None);
                    assert(rest =~= line@);
                    assert(self.entries() == before + text_entries(rest));
                }
                break;
            }
            proof {
                assert(find_from(rest, '\n', 0) == Some((end - start) as nat));
                assert(rest.take((end - start) as int) =~= line@);
                assert(rest.skip((end - start) + 1) =~= text.skip(end + 1));
                assert(before + entry_seq(line@) + text_entries(text.skip(end + 1)) =~= before + (
                entry_seq(line@) + text_entries(text.skip(end + 1))));
            }
            start = end + 1;
        }
    }

    /// Appends the setting on `line`, if it holds one.
    fn add_line(&mut self, line: &Vec<char>)
        ensures
            final(self).entries() == old(self).entries() + entry_seq(line@),
            final(self).config_path == old(self).config_path,
            final(self).loaded == old(self).loaded,
    {
        let text = string_of(line);
        let trimmed = trim_text(text.as_str());
        let t = chars_of(trimmed.as_str());
        if t.len() == 0 || t[0] == '#' || t[0] == '[' {
            return;
        }
        let mut p: usize = 0;
        while p < t.len() && t[p] != '='
            invariant
                p <= t@.len(),
                find_from(t@, '=', 0) == find_from(t@, '=', p as nat),
            decreases t@.len() - p,
        {
            p = p + 1;
        }
        if p >= t.len() {
            return;
        }
        let mut key_chars: Vec<char> = Vec::new();
        let mut k: usize = 0;
        while k < p
            invariant
                k <= p,
                p < t@.len(),
                key_chars@ == t@.take(k as int),
            decreases p - k,
        {
            key_chars.push(t[k]);
            k = k + 1;
            assert(key_chars@ =~= t@.take(k as int));
        }
        let mut value_chars: Vec<char> = Vec::new();
        let mut v: usize = p + 1;
        while v < t.len()
            invariant
                p + 1 <= v <= t@.len(),
                value_chars@ == t@.subrange(p + 1, v as int),
            decreases t@.len() - v,
        {
            value_chars.push(t[v]);
            v = v + 1;
            assert(value_chars@ =~= t@.subrange(p + 1, v as int));
        }
        proof {
            assert(t@.subrange(p + 1, t@.len() as int) =~= t@.skip(p + 1));
        }
        let key = trim_text(string_of(&key_chars).as_str());
        let value = trim_text(string_of(&value_chars).as_str());
        let ghost before = self.entries();
        self.values.push((key, value));
        proof {
            assert(self.entries() =~= before.push((trimmed_of(t@.take(p as int)), trimmed_of(t@.skip(p + 1)))));
        }
    }

    /// The value of `key`.
    pub fn get_string(&self, key: &str) -> (r: Result<String, ConfigError>)
        ensures
            match lookup(self.entries(), key@) {
                Some(v) => r is Ok && r->Ok_0@ == v,
                None => r == Err::<String, ConfigError>(ConfigError::KeyNotFound),
            },
    {
        let wanted = key.to_owned();
        let mut i: usize = self.values.len();
        proof {
            assert(self.entries().take(i as int) =~= self.entries());
        }
        while i > 0
            invariant
                i <= self.values@.len(),
                wanted@ == key@,
                lookup(self.entries(), key@) == lookup(self.entries().take(i as int), key@),
            decreases i,
        {
            let ghost es = self.entries().take(i as int);
            proof {
                assert(es.drop_last() =~= self.entries().take(i - 1));
            }
            if self.values[i - 1].0 == wanted {
                return Ok(self.values[i - 1].1.clone());
            }
            i = i - 1;
        }
        Err(ConfigError::KeyNotFound)
    }

    /// The value of `key` read as an `i32`.
    pub fn get_int(&self, key: &str) -> (r: Result<i32, ConfigError>)
        ensures
            match lookup(self.entries(), key@) {
                None => r == Err::<i32, ConfigError>(ConfigError::KeyNotFound),
                Some(v) => match parse_i32_chars(v) {
                    Some(n) => r == Ok::<i32, ConfigError>(n),
                    None => r == Err::<i32, ConfigError>(ConfigError::NotAnInteger),
                },
            },
    {
        let value = self.get_string(key)?;
        match parse_i32(value.as_str()) {
            Some(n) => Ok(n),
            None => Err(ConfigError::NotAnInteger),
        }
    }

    /// The value of `key` read as a flag: `true`, `1`, `yes`, `on` or
    /// `false`, `0`, `no`, `off`, in any case.
    pub fn get_bool(&self, key: &str) -> (r: Result<bool, ConfigError>)
        ensures
            match lookup(self.entries(), key@) {
                None => r == Err::<bool, ConfigError>(ConfigError::KeyNotFound),
                Some(v) => {
                    let l = lowercase_of(v);
                    if l == "true"@ || l == "1"@ || l == "yes"@ || l == "on"@ {
                        r == Ok::<bool, ConfigError>(true)
                    } else if l == "false"@ || l == "0"@ || l == "no"@ || l == "off"@ {
                        r == Ok::<bool, ConfigError>(false)
                    } else {
                        r == Err::<bool, ConfigError>(ConfigError::NotABoolean)
                    }
                },
            },
    {
        let value = self.get_string(key)?;
        let lower = lowercase_text(value.as_str());
        if lower == "true".to_owned() || lower == "1".to_owned() || lower == "yes".to_owned()
            || lower == "on".to_owned() {
            Ok(true)
        } else if lower == "false".to_owned() || lower == "0".to_owned() || lower
            == "no".to_owned() || lower == "off".to_owned() {
            Ok(false)
        } else {
            Err(ConfigError::NotABoolean)
        }
    }

    /// Sets `key` to `value`, overriding any earlier value.
    pub fn set(&mut self, key: &str, value: &str) -> (r: Result<(), ConfigError>)
        ensures
            r is Ok,
            final(self).entries() == old(self).entries().push((key@, value@)),
            lookup(final(self).entries(), key@) == Some(value@),
            final(self).spec_path() == old(self).spec_path(),
    {
        let ghost before = self.entries();
        self.values.push((key.to_owned(), value.to_owned()));
        proof {
            assert(self.entries() =~= before.push((key@, value@)));
            assert(self.entries().drop_last() =~= before);
        }
        Ok(())
    }
}

} // verus!
