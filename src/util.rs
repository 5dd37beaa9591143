//! Small helpers: rotations, terminal colours, log filtering and the
//! version check's result types.

use vstd::prelude::*;
use crate::hex_utils::{chars_of, string_of};

verus! {

/// The eight directions an avatar or item can face, clockwise from north.
#[derive(Clone, Copy, Debug, PartialEq, Eq, Structural)]
pub enum Rotation {
    North,
    NorthEast,
    East,
    SouthEast,
    South,
    SouthWest,
    West,
    NorthWest,
}

/// Number of a rotation, 0 for north up to 7 for north-west.
pub open spec fn rotation_value(r: Rotation) -> i32 {
    match r {
        Rotation::North => 0,
        Rotation::NorthEast => 1,
        Rotation::East => 2,
        Rotation::SouthEast => 3,
        Rotation::South => 4,
        Rotation::SouthWest => 5,
        Rotation::West => 6,
        Rotation::NorthWest => 7,
    }
}

impl Rotation {
    /// The rotation numbered `value`, for `0..=7`.
    pub fn from_value(value: i32) -> (r: Option<Self>)
        ensures
            0 <= value <= 7 ==> r is Some && rotation_value(r->0) == value,
            !(0 <= value <= 7) ==> r is None,
    {
        match value {
            0 => Some(Rotation::North),
            1 => Some(Rotation::NorthEast),
            2 => Some(Rotation::East),
            3 => Some(Rotation::SouthEast),
            4 => Some(Rotation::South),
            5 => Some(Rotation::SouthWest),
            6 => Some(Rotation::West),
            7 => Some(Rotation::NorthWest),
            _ => None,
        }
    }

    pub fn to_value(&self) -> (r: i32)
        ensures
            r == rotation_value(*self),
    {
        match self {
            Rotation::North => 0,
            Rotation::NorthEast => 1,
            Rotation::East => 2,
            Rotation::SouthEast => 3,
            Rotation::South => 4,
            Rotation::SouthWest => 5,
            Rotation::West => 6,
            Rotation::NorthWest => 7,
        }
    }
}

/// ANSI escape sequences for terminal colours.
pub struct ANSI;

impl ANSI {
    pub const RED: &'static str = "\u{001B}[31m";
    pub const GREEN: &'static str = "\u{001B}[32m";
    pub const YELLOW: &'static str = "\u{001B}[33m";
    pub const BLUE: &'static str = "\u{001B}[34m";
    pub const MAGENTA: &'static str = "\u{001B}[35m";
    pub const CYAN: &'static str = "\u{001B}[36m";
    pub const WHITE: &'static str = "\u{001B}[37m";
    pub const DEFAULT: &'static str = "\u{001B}[39m";
}

/// Decides which database error messages are logged.
pub struct SqlExceptionFilter;

impl SqlExceptionFilter {
    pub fn new() -> (r: Self) {
        SqlExceptionFilter
    }

    /// Every message is logged.
    pub fn filter(&self, message: &str) -> (r: bool)
        ensures
            r,
    {
        true
    }
}

pub enum HTTPPostStatus {
    OK,
    ERROR,
}

pub struct HTTPPostError {
    pub status: HTTPPostStatus,
    pub message: String,
}

/// The running version and where newer versions are announced.
pub struct HTTPVersionCheck {
    pub version: String,
    pub url: String,
}

impl HTTPVersionCheck {
    pub fn new(version: String, url: String) -> (r: Self)
        ensures
            r.version@ == version@,
            r.url@ == url@,
    {
        HTTPVersionCheck { version, url }
    }
}

/// What `String::from_utf8_lossy` makes of bytes: it depends on the bytes alone.
pub uninterp spec fn lossy_text_of(b: Seq<u8>) -> Seq<char>;

/// Relies on `String::from_utf8_lossy`: invalid UTF-8 becomes U+FFFD; ASCII
/// bytes stay the same characters.
#[verifier::external_body]
fn lossy_text(b: &[u8]) -> (r: String)
    ensures
        r@ == lossy_text_of(b@),
        (forall|i: int| 0 <= i < b@.len() ==> b@[i] < 128) ==> r@ == Seq::new(
            b@.len(),
            |i: int| b@[i] as char,
        ),
{
    String::from_utf8_lossy(b).to_string()
}

/// A character as written in a packet dump: a control character (below 32)
/// as its number in brackets, any other as itself.
pub open spec fn escaped_char(c: char) -> Seq<char> {
    let v = c as u32;
    if v < 10 {
        seq!['[', ((v + 48) as u8) as char, ']']
    } else if v < 32 {
        seq!['[', ((v / 10 + 48) as u8) as char, ((v % 10 + 48) as u8) as char, ']']
    } else {
        seq![c]
    }
}

pub open spec fn escaped(s: Seq<char>) -> Seq<char>
    decreases s.len(),
{
    if s.len() == 0 {
        Seq::empty()
    } else {
        escaped(s.drop_last()) + escaped_char(s.last())
    }
}

pub struct PacketUtils;

impl PacketUtils {
    /// The bytes as text for logging, control characters written as `[n]`.
    pub fn format_packet(buffer: &[u8]) -> (r: String)
        ensures
            r@ == escaped(lossy_text_of(buffer@)),
    {
        let text = lossy_text(buffer);
        let chars = chars_of(text.as_str());
        let mut out: Vec<char> = Vec::new();
        let mut i: usize = 0;
        while i < chars.len()
            invariant
                i <= chars@.len(),
                chars@ == lossy_text_of(buffer@),
                out@ == escaped(chars@.take(i as int)),
            decreases chars@.len() - i,
        {
            let c = chars[i];
            let v = c as u32;
            let ghost before = out@;
            if v < 10 {
                out.push('[');
                out.push(((v + 48) as u8) as char);
                out.push(']');
            } else if v < 32 {
                out.push('[');
                out.push(((v / 10 + 48) as u8) as char);
                out.push(((v % 10 + 48) as u8) as char);
                out.push(']');
            } else {
                out.push(c);
            }
            proof {
                assert(chars@.take(i + 1).drop_last() =~= chars@.take(i as int));
                assert(out@ =~= before + escaped_char(c));
            }
            i = i + 1;
        }
        proof {
            assert(chars@.take(chars@.len() as int) =~= chars@);
        }
        string_of(&out)
    }
}

} // verus!
