//! The destination of a CONNECT request: the authority of its target.

use crate::config::{decimal_value, is_digit, is_port_text, lemma_decimal_value_grows};
use axum::http::Uri;
use vstd::prelude::*;
use vstd::std_specs::iter::IteratorSpec;
use vstd::string::*;

verus! {

/// The authority component (`host:port`, as written) that the `http` crate's
/// URI parser finds in a request target, or `None` when the target does not
/// parse as a URI or parses as one without an authority.
pub uninterp spec fn target_authority(target: Seq<char>) -> Option<Seq<char>>;

/// The characters of an optional string.
pub open spec fn option_text(text: Option<String>) -> Option<Seq<char>> {
    match text {
        Some(s) => Some(s@),
        None => None,
    }
}

/// Extracts the authority from a request target.
///
/// Trusted: the body parses `target` with the `FromStr` impl of `http::Uri`,
/// asks `Uri::authority` for the authority and writes it out with its
/// `Display` impl, which gives its text as it stood in the target. The
/// contract claims no more than that the outcome is a function of the
/// target's text alone.
#[verifier::external_body]
pub(crate) fn parse_target(target: &str) -> (authority: Option<String>)
    ensures
        option_text(authority) == target_authority(target@),
{
    match target.parse::<Uri>() {
        Ok(uri) => match uri.authority() {
            Some(authority) => Some(authority.to_string()),
            None => None,
        },
        Err(_) => None,
    }
}

/// A host as an authority writes it: not empty, and without a colon unless it
/// stands in square brackets, as an IPv6 address does.
pub open spec fn is_host_text(host: Seq<char>) -> bool {
    &&& host.len() > 0
    &&& host.contains(':') ==> host.first() == '[' && host.last() == ']'
}

/// Whether `authority` is a host, a colon and a port: the form in which a
/// destination can be dialed. The port is written in decimal digits, however
/// many, and is worth at most 65535.
pub open spec fn is_host_port(authority: Seq<char>) -> bool {
    exists|i: int|
        0 <= i < authority.len() && #[trigger] authority[i] == ':' && is_host_text(
            authority.take(i),
        ) && is_port_text(authority.skip(i + 1))
}

/// The characters of `text`, one by one.
fn chars_of(text: &str) -> (chars: Vec<char>)
    ensures
        chars@ == text@,
{
    broadcast use group_string_axioms;

    let n: usize = text.unicode_len();
    let mut chars: Vec<char> = Vec::new();
    let mut rest = text.chars();
    let mut i: usize = 0;
    while i < n
        invariant
            i <= n == text@.len(),
            chars@ == text@.take(i as int),
            rest.remaining() == text@.skip(i as int),
            rest.obeys_prophetic_iter_laws(),
        decreases n - i,
    {
        match rest.next() {
            Some(c) => {
                chars.push(c);
                assert(text@.skip(i as int).drop_first() == text@.skip(i + 1));
                assert(text@.take(i as int).push(c) == text@.take(i + 1));
            },
            None => {
                // Cannot happen: characters remain while `i < n`.
                assert(false);
            },
        }
        i += 1;
    }
    assert(text@.take(n as int) == text@);
    chars
}

/// The port of a host-port pair follows its last colon: with `colon` the
/// place of the last colon of `authority`, the authority is a host-port pair
/// exactly if what stands before is a host and what stands after is a port.
pub proof fn lemma_port_follows_last_colon(authority: Seq<char>, colon: int)
    requires
        0 <= colon < authority.len(),
        authority[colon] == ':',
        forall|k: int| colon < k < authority.len() ==> authority[k] != ':',
    ensures
        is_host_port(authority) <==> is_host_text(authority.take(colon)) && is_port_text(
            authority.skip(colon + 1),
        ),
{
    if is_host_port(authority) {
        let i = choose|i: int|
            0 <= i < authority.len() && #[trigger] authority[i] == ':' && is_host_text(
                authority.take(i),
            ) && is_port_text(authority.skip(i + 1));
        if i < colon {
            let port = authority.skip(i + 1);
            assert(port[colon - i - 1] == ':');
            assert(!is_digit(port[colon - i - 1]));
        }
    }
}

/// The place of the last colon among `chars`, if there is a colon.
fn last_colon(chars: &Vec<char>) -> (place: Option<usize>)
    ensures
        match place {
            Some(colon) => colon < chars@.len() && chars@[colon as int] == ':' && forall|k: int|
                colon < k < chars@.len() ==> chars@[k] != ':',
            None => forall|k: int| 0 <= k < chars@.len() ==> chars@[k] != ':',
        },
{
    let mut after: usize = chars.len();
    while after > 0 && chars[after - 1] != ':'
        invariant
            after <= chars@.len(),
            forall|k: int| after <= k < chars@.len() ==> chars@[k] != ':',
        decreases after,
    {
        after -= 1;
    }
    if after == 0 {
        None
    } else {
        Some(after - 1)
    }
}

/// Whether the characters from `from` on write a port.
fn port_from(chars: &Vec<char>, from: usize) -> (ok: bool)
    requires
        from <= chars@.len(),
    ensures
        ok == is_port_text(chars@.skip(from as int)),
{
    let n: usize = chars.len();
    let ghost port = chars@.skip(from as int);
    if from == n {
        return false;
    }
    let mut value: u32 = 0;
    let mut k: usize = from;
    while k < n
        invariant
            from <= k <= n == chars@.len(),
            from < n,
            port == chars@.skip(from as int),
            forall|j: int| 0 <= j < k - from ==> is_digit(#[trigger] port[j]),
            value == decimal_value(port.take(k - from)),
            value <= u16::MAX,
        decreases n - k,
    {
        let c: char = chars[k];
        assert(port[k - from] == c);
        if c < '0' || c > '9' {
            assert(!is_digit(port[k - from]));
            return false;
        }
        let longer: u32 = value * 10 + (c as u32 - 0x30);
        proof {
            let prefix = port.take(k - from + 1);
            assert(prefix.drop_last() == port.take(k - from));
            assert(prefix.last() == c);
            assert(longer == decimal_value(prefix));
        }
        if longer > 65535 {
            proof {
                if forall|j: int| 0 <= j < port.len() ==> is_digit(#[trigger] port[j]) {
                    lemma_decimal_value_grows(port, k - from + 1);
                }
            }
            return false;
        }
        value = longer;
        k += 1;
    }
    assert(port.take(n - from) == port);
    true
}

/// Whether the characters before `to` write a host.
fn host_before(chars: &Vec<char>, to: usize) -> (ok: bool)
    requires
        to <= chars@.len(),
    ensures
        ok == is_host_text(chars@.take(to as int)),
{
    let ghost host = chars@.take(to as int);
    if to == 0 {
        return false;
    }
    let mut j: usize = 0;
    while j < to
        invariant
            j <= to <= chars@.len(),
            host == chars@.take(to as int),
            forall|i: int| 0 <= i < j ==> host[i] != ':',
        decreases to - j,
    {
        if chars[j] == ':' {
            assert(host[j as int] == ':');
            return chars[0] == '[' && chars[to - 1] == ']';
        }
        j += 1;
    }
    true
}

/// Whether `authority` is a host, a colon and a port.
pub fn check_host_port(authority: &str) -> (ok: bool)
    ensures
        ok == is_host_port(authority@),
{
    let chars = chars_of(authority);
    let n: usize = chars.len();
    match last_colon(&chars) {
        Some(colon) => {
            proof {
                lemma_port_follows_last_colon(chars@, colon as int);
            }
            assert(colon < n);
            host_before(&chars, colon) && port_from(&chars, colon + 1)
        },
        None => false,
    }
}

} // verus!
