//! Start-up settings: where the server listens and where the blacklist is.

use vstd::prelude::*;
use vstd::string::*;
use vstd::utf8::*;

verus! {

/// The port that the server listens on when none is configured.
pub const DEFAULT_PORT: u16 = 3000;

/// The path of the blacklist file, relative to the working directory.
pub const BLACKLIST_PATH: &'static str = "./blacklist.txt";

/// Whether `c` is one of the ten decimal digits of ASCII.
pub open spec fn is_digit(c: char) -> bool {
    '0' <= c <= '9'
}

/// The number that a string of decimal digits writes.
pub open spec fn decimal_value(digits: Seq<char>) -> nat
    decreases digits.len(),
{
    if digits.len() == 0 {
        0
    } else {
        10 * decimal_value(digits.drop_last()) + (digits.last() as u8 - '0' as u8) as nat
    }
}

/// The digits of a port setting: the text itself, less one leading plus sign.
pub open spec fn port_digits(text: Seq<char>) -> Seq<char> {
    if text.len() > 0 && text[0] == '+' {
        text.skip(1)
    } else {
        text
    }
}

/// Whether `digits` writes a port: one or more decimal digits, however many,
/// with a value of at most 65535. Leading zeros count for nothing; a sign, a
/// space or any other character makes the text no port.
pub open spec fn is_port_text(digits: Seq<char>) -> bool {
    &&& digits.len() > 0
    &&& forall|i: int| 0 <= i < digits.len() ==> is_digit(#[trigger] digits[i])
    &&& decimal_value(digits) <= u16::MAX
}

/// The port that a port setting writes: the port that its digits write, after
/// at most one plus sign.
pub open spec fn port_of_text(text: Seq<char>) -> Option<u16> {
    let digits = port_digits(text);
    if is_port_text(digits) {
        Some(decimal_value(digits) as u16)
    } else {
        None
    }
}

/// The port to listen on, given the port setting of the environment if it
/// has one: the port that the setting writes, or the default.
pub open spec fn listen_port_of(setting: Option<Seq<char>>) -> u16 {
    match setting {
        Some(text) => match port_of_text(text) {
            Some(port) => port,
            None => DEFAULT_PORT,
        },
        None => DEFAULT_PORT,
    }
}

/// More digits never write a smaller number.
pub proof fn lemma_decimal_value_grows(digits: Seq<char>, n: int)
    requires
        0 <= n <= digits.len(),
        forall|i: int| 0 <= i < digits.len() ==> is_digit(#[trigger] digits[i]),
    ensures
        decimal_value(digits.take(n)) <= decimal_value(digits),
    decreases digits.len() - n,
{
    if n == digits.len() {
        assert(digits.take(n) == digits);
    } else {
        let longer = digits.take(n + 1);
        assert(longer.drop_last() == digits.take(n));
        lemma_decimal_value_grows(digits, n + 1);
    }
}

/// Reads a port number.
pub fn parse_port(text: &str) -> (port: Option<u16>)
    ensures
        port == port_of_text(text@),
{
    let ghost digits = port_digits(text@);
    if !text.is_ascii() {
        proof {
            let i = choose|i: int| 0 <= i < text@.len() && !('\0' <= #[trigger] text@[i] <= '\u{7f}');
            if i > 0 && text@[0] == '+' {
                assert(!is_digit(digits[i - 1]));
            }
        }
        return None;
    }
    let bytes = text.as_bytes();
    proof {
        is_ascii_chars_encode_utf8(text@);
    }
    let n: usize = bytes.len();
    let start: usize = if n > 0 && bytes[0] == 0x2b {
        1
    } else {
        0
    };
    if start == n {
        return None;
    }
    let mut value: u32 = 0;
    let mut i: usize = start;
    while i < n
        invariant
            start <= i <= n,
            n == text@.len(),
            n == bytes@.len(),
            start < n,
            digits == text@.skip(start as int),
            digits == port_digits(text@),
            is_ascii_chars(text@),
            forall|k: int| 0 <= k < n ==> text@[k] as u8 == bytes@[k],
            forall|k: int| 0 <= k < i - start ==> is_digit(#[trigger] digits[k]),
            value == decimal_value(digits.take(i - start)),
            value <= u16::MAX,
        decreases n - i,
    {
        let b: u8 = bytes[i];
        if b < 0x30 || b > 0x39 {
            assert(!is_digit(digits[i - start]));
            return None;
        }
        let digit: u32 = (b - 0x30) as u32;
        let longer: u32 = value * 10 + digit;
        proof {
            let prefix = digits.take(i - start + 1);
            assert(prefix.drop_last() == digits.take(i - start));
        }
        if longer > 65535 {
            proof {
                if forall|k: int| 0 <= k < digits.len() ==> is_digit(#[trigger] digits[k]) {
                    lemma_decimal_value_grows(digits, i - start + 1);
                }
            }
            return None;
        }
        value = longer;
        i += 1;
    }
    assert(digits.take(n - start) == digits);
    Some(value as u16)
}

/// Chooses the port to listen on from the port setting of the environment.
pub fn listen_port(setting: Option<&str>) -> (port: u16)
    ensures
        port == listen_port_of(
            match setting {
                Some(text) => Some(text@),
                None => None,
            },
        ),
{
    match setting {
        Some(text) => match parse_port(text) {
            Some(port) => port,
            None => DEFAULT_PORT,
        },
        None => DEFAULT_PORT,
    }
}

} // verus!
