//! The socket address a server binds to, as text and as a value.
//!
//! The accepted text form is a dotted-quad IPv4 address followed by a
//! colon and a port: four decimal octets up to 255 and a port up to
//! 65535, none with a leading zero.

use vstd::prelude::*;

use crate::path::find_char;
use crate::path::find_char_in;
use crate::path::lemma_find_char;
use crate::path::split_char_seq;
use crate::path::split_on_char;

verus! {

/// An IPv4 socket address: four octets and a port.
#[derive(Debug, Clone, Copy, PartialEq, Eq, Structural)]
pub struct BindAddress {
    pub a: u8,
    pub b: u8,
    pub c: u8,
    pub d: u8,
    pub port: u16,
}

/// Reported when socket-address text cannot be read.
#[derive(Debug, Clone, PartialEq, Eq)]
pub struct AddrParseError {
    pub message: String,
}

/// Whether the character is a decimal digit.
pub open spec fn is_digit(c: char) -> bool {
    '0' <= c && c <= '9'
}

/// The value of a decimal digit character.
pub open spec fn digit_val(c: char) -> int {
    if c == '0' {
        0
    } else if c == '1' {
        1
    } else if c == '2' {
        2
    } else if c == '3' {
        3
    } else if c == '4' {
        4
    } else if c == '5' {
        5
    } else if c == '6' {
        6
    } else if c == '7' {
        7
    } else if c == '8' {
        8
    } else {
        9
    }
}

/// The value of a digit string read left to right onto an accumulator.
pub open spec fn digits_value_from(s: Seq<char>, acc: int) -> int
    decreases s.len(),
{
    if s.len() == 0 {
        acc
    } else {
        digits_value_from(s.drop_first(), acc * 10 + digit_val(s[0]))
    }
}

/// The value of a decimal digit string.
pub open spec fn digits_value(s: Seq<char>) -> int {
    digits_value_from(s, 0)
}

/// Reading digits never shrinks the accumulator.
proof fn lemma_digits_value_lower(s: Seq<char>, acc: int)
    requires
        acc >= 0,
    ensures
        digits_value_from(s, acc) >= acc,
    decreases s.len(),
{
    if s.len() > 0 {
        lemma_digits_value_lower(s.drop_first(), acc * 10 + digit_val(s[0]));
    }
}

/// A decimal number in the accepted form: non-empty, digits only, no
/// leading zero unless it is exactly `0`, and a value within `max`.
pub open spec fn valid_number(s: Seq<char>, max: int) -> bool {
    &&& s.len() > 0
    &&& forall|i: int| 0 <= i < s.len() ==> is_digit(#[trigger] s[i])
    &&& (s.len() == 1 || s[0] != '0')
    &&& digits_value(s) <= max
}

/// The address a socket-address text denotes, if it is well-formed.
pub open spec fn parse_addr_spec(s: Seq<char>) -> Option<BindAddress> {
    let ci = find_char(s, ':');
    if ci < 0 {
        None
    } else {
        let ip = s.take(ci);
        let port = s.skip(ci + 1);
        let parts = split_char_seq(ip, '.');
        if parts.len() == 4 && valid_number(parts[0], 255) && valid_number(parts[1], 255)
            && valid_number(parts[2], 255) && valid_number(parts[3], 255) && valid_number(
            port,
            65535,
        ) {
            Some(
                BindAddress {
                    a: digits_value(parts[0]) as u8,
                    b: digits_value(parts[1]) as u8,
                    c: digits_value(parts[2]) as u8,
                    d: digits_value(parts[3]) as u8,
                    port: digits_value(port) as u16,
                },
            )
        } else {
            None
        }
    }
}

/// The decimal digit's value, or nothing for any other character.
fn digit_of(c: char) -> (r: Option<u32>)
    ensures
        match r {
            Some(v) => is_digit(c) && v == digit_val(c),
            None => !is_digit(c),
        },
{
    match c {
        '0' => Some(0),
        '1' => Some(1),
        '2' => Some(2),
        '3' => Some(3),
        '4' => Some(4),
        '5' => Some(5),
        '6' => Some(6),
        '7' => Some(7),
        '8' => Some(8),
        '9' => Some(9),
        _ => None,
    }
}

/// Read a decimal number of at most `max`, rejecting any other text.
fn parse_number(s: &str, max: u32) -> (r: Option<u32>)
    ensures
        match r {
            Some(v) => valid_number(s@, max as int) && v == digits_value(s@),
            None => !valid_number(s@, max as int),
        },
{
    let n = s.unicode_len();
    if n == 0 {
        return None;
    }
    if n > 1 && s.get_char(0) == '0' {
        return None;
    }
    let mut acc: u32 = 0;
    let mut i: usize = 0;
    proof {
        assert(s@.skip(0) =~= s@);
    }
    while i < n
        invariant
            i <= n,
            n == s@.len(),
            n > 0,
            acc <= max,
            forall|j: int| 0 <= j < i ==> is_digit(#[trigger] s@[j]),
            digits_value_from(s@.skip(i as int), acc as int) == digits_value(s@),
        decreases n - i,
    {
        proof {
            assert(s@.skip(i as int)[0] == s@[i as int]);
            assert(s@.skip(i as int).drop_first() =~= s@.skip(i + 1));
        }
        let c = s.get_char(i);
        match digit_of(c) {
            None => {
                return None;
            },
            Some(d) => {
                if acc > max / 10 {
                    proof {
                        assert(acc as int * 10 + d as int > max as int);
                        lemma_digits_value_lower(s@.skip(i + 1), acc as int * 10 + d as int);
                    }
                    return None;
                }
                let t = acc * 10;
                if d > max - t {
                    proof {
                        lemma_digits_value_lower(s@.skip(i + 1), t as int + d as int);
                    }
                    return None;
                }
                acc = t + d;
            },
        }
        i = i + 1;
    }
    proof {
        assert(s@.skip(i as int) =~= Seq::<char>::empty());
    }
    Some(acc)
}

/// Read a socket-address text into an address, or nothing when the text
/// is not a dotted quad with a port.
pub fn parse_bind_address(s: &str) -> (r: Option<BindAddress>)
    ensures
        r == parse_addr_spec(s@),
{
    let n = s.unicode_len();
    let ci = match find_char_in(s, ':') {
        None => {
            return None;
        },
        Some(ci) => ci,
    };
    proof {
        lemma_find_char(s@, ':');
    }
    let ip = s.substring_char(0, ci);
    let port_text = s.substring_char(ci + 1, n);
    proof {
        assert(ip@ =~= s@.take(ci as int));
        assert(port_text@ =~= s@.skip(ci + 1));
    }
    let parts = split_on_char(ip, '.');
    if parts.len() != 4 {
        return None;
    }
    proof {
        assert(parts.deep_view()[0] == parts@[0]@);
        assert(parts.deep_view()[1] == parts@[1]@);
        assert(parts.deep_view()[2] == parts@[2]@);
        assert(parts.deep_view()[3] == parts@[3]@);
    }
    let a = match parse_number(parts[0], 255) {
        Some(v) => v,
        None => {
            return None;
        },
    };
    let b = match parse_number(parts[1], 255) {
        Some(v) => v,
        None => {
            return None;
        },
    };
    let c = match parse_number(parts[2], 255) {
        Some(v) => v,
        None => {
            return None;
        },
    };
    let d = match parse_number(parts[3], 255) {
        Some(v) => v,
        None => {
            return None;
        },
    };
    let port = match parse_number(port_text, 65535) {
        Some(v) => v,
        None => {
            return None;
        },
    };
    Some(
        BindAddress {
            a: a as u8,
            b: b as u8,
            c: c as u8,
            d: d as u8,
            port: port as u16,
        },
    )
}

impl BindAddress {
    /// The address `a.b.c.d:port` from its parts.
    pub fn new(a: u8, b: u8, c: u8, d: u8, port: u16) -> (r: BindAddress)
        ensures
            r == (BindAddress { a, b, c, d, port }),
    {
        BindAddress { a, b, c, d, port }
    }

    /// The port component.
    pub fn port(&self) -> (p: u16)
        ensures
            p == self.port,
    {
        self.port
    }
}

impl core::str::FromStr for BindAddress {
    type Err = AddrParseError;

    fn from_str(s: &str) -> Result<BindAddress, AddrParseError> {
        match parse_bind_address(s) {
            Some(a) => Ok(a),
            None => {
                proof {
                    reveal_strlit("invalid socket address syntax");
                }
                Err(
                    AddrParseError {
                        message: <String as vstd::string::StringExecFns>::from_str(
                            "invalid socket address syntax",
                        ),
                    },
                )
            },
        }
    }
}

} // verus!
