//! The blacklist: a line-oriented file of blocked addresses.
//!
//! The file is read afresh for every decision and never cached, so this
//! module starts from the bytes of one read (or from the fact that the read
//! failed) and answers whether an address is blocked.

use vstd::prelude::*;
use vstd::slice::*;
use vstd::utf8::*;

verus! {

/// The byte that ends a line.
pub const LINE_FEED: u8 = 0x0a;

/// The byte that is dropped when it stands directly before a line feed.
pub const CARRIAGE_RETURN: u8 = 0x0d;

/// The number of bytes before the first line feed of `bytes`, or the length
/// of `bytes` when it holds no line feed.
pub open spec fn line_end(bytes: Seq<u8>) -> nat
    decreases bytes.len(),
{
    if bytes.len() == 0 || bytes[0] == LINE_FEED {
        0
    } else {
        1 + line_end(bytes.skip(1))
    }
}

/// The content of the first line of `bytes`: what stands before the first
/// line feed, less one carriage return directly before that line feed. A last
/// line without a line feed keeps a trailing carriage return.
pub open spec fn first_line(bytes: Seq<u8>) -> Seq<u8> {
    let n = line_end(bytes) as int;
    if 0 < n < bytes.len() && bytes[n - 1] == CARRIAGE_RETURN {
        bytes.take(n - 1)
    } else {
        bytes.take(n)
    }
}

/// What follows the first line of `bytes` and its line feed.
pub open spec fn after_first_line(bytes: Seq<u8>) -> Seq<u8> {
    let n = line_end(bytes) as int;
    if n < bytes.len() {
        bytes.skip(n + 1)
    } else {
        Seq::empty()
    }
}

/// The lines of a file, in file order. Lines are separated by line feeds; a
/// line that is not valid UTF-8 is left out; nothing else is trimmed.
pub open spec fn text_lines(bytes: Seq<u8>) -> Seq<Seq<char>>
    decreases bytes.len(),
{
    if bytes.len() == 0 {
        Seq::empty()
    } else {
        let rest = text_lines(after_first_line(bytes));
        if valid_utf8(first_line(bytes)) {
            seq![decode_utf8(first_line(bytes))] + rest
        } else {
            rest
        }
    }
}

/// `n` is where the first line of `bytes` ends: no line feed before `n`, and
/// either a line feed at `n` or the end of `bytes`.
pub open spec fn ends_first_line(bytes: Seq<u8>, n: int) -> bool {
    &&& 0 <= n <= bytes.len()
    &&& forall|k: int| 0 <= k < n ==> bytes[k] != LINE_FEED
    &&& n < bytes.len() ==> bytes[n] == LINE_FEED
}

/// `line_end` is the one position that `ends_first_line` describes.
pub proof fn lemma_line_end(bytes: Seq<u8>, n: int)
    ensures
        ends_first_line(bytes, line_end(bytes) as int),
        ends_first_line(bytes, n) ==> line_end(bytes) == n,
    decreases bytes.len(),
{
    if bytes.len() > 0 && bytes[0] != LINE_FEED {
        let tail = bytes.skip(1);
        lemma_line_end(tail, n - 1);
        let m = line_end(tail) as int;
        assert forall|k: int| 0 <= k < m + 1 implies bytes[k] != LINE_FEED by {
            if k > 0 {
                assert(tail[k - 1] == bytes[k]);
            }
        }
        if ends_first_line(bytes, n) {
            assert forall|k: int| 0 <= k < n - 1 implies tail[k] != LINE_FEED by {
                assert(tail[k] == bytes[k + 1]);
            }
        }
    }
}

/// The text that a line holds, if its bytes are valid UTF-8.
///
/// Trusted: this is `String::from_utf8` of the standard library. It succeeds
/// exactly on valid UTF-8, and the string it then returns is made of the very
/// bytes it was given.
#[verifier::external_body]
fn text_of(bytes: Vec<u8>) -> (text: Option<String>)
    ensures
        text is Some <==> valid_utf8(bytes@),
        text matches Some(s) ==> encode_utf8(s@) == bytes@,
{
    match String::from_utf8(bytes) {
        Ok(text) => Some(text),
        Err(_) => None,
    }
}

/// Splits the content of a blacklist file into its lines.
pub fn lines_to_vec(content: &[u8]) -> (lines: Vec<String>)
    ensures
        lines.deep_view() == text_lines(content@),
{
    let mut lines: Vec<String> = Vec::new();
    let mut start: usize = 0;
    let mut i: usize = 0;
    assert(content@.skip(0) == content@);
    while i < content.len()
        invariant
            start <= i <= content.len(),
            forall|k: int| start <= k < i ==> content@[k] != LINE_FEED,
            text_lines(content@) == lines.deep_view() + text_lines(content@.skip(start as int)),
        decreases content.len() - i,
    {
        if content[i] == LINE_FEED {
            let mut end: usize = i;
            if end > start && content[end - 1] == CARRIAGE_RETURN {
                end = end - 1;
            }
            let ghost rest = content@.skip(start as int);
            proof {
                lemma_line_end(rest, i - start);
                assert(first_line(rest) == content@.subrange(start as int, end as int));
                assert(after_first_line(rest) == content@.skip(i + 1));
            }
            let line = slice_to_vec(slice_subrange(content, start, end));
            match text_of(line) {
                Some(text) => {
                    proof {
                        encode_utf8_decode_utf8(text@);
                    }
                    lines.push(text);
                },
                None => {},
            }
            start = i + 1;
        }
        i += 1;
    }
    let ghost rest = content@.skip(start as int);
    if start < content.len() {
        proof {
            lemma_line_end(rest, rest.len() as int);
            assert(first_line(rest) == content@.subrange(start as int, content@.len() as int));
            assert(text_lines(after_first_line(rest)) == Seq::<Seq<char>>::empty());
        }
        let line = slice_to_vec(slice_subrange(content, start, content.len()));
        match text_of(line) {
            Some(text) => {
                proof {
                    encode_utf8_decode_utf8(text@);
                }
                lines.push(text);
            },
            None => {},
        }
    }
    lines
}

/// The one entry that stands in for a blacklist file that could not be read.
/// It is no address that a tunnel could be opened to.
pub const SENTINEL: &'static str = "Error";

/// The sentinel as an entry of the blacklist.
pub open spec fn sentinel_entry() -> Seq<char> {
    SENTINEL@
}

/// The entries that a decision is made against. `file` is the content of the
/// blacklist file, or `None` when it could not be read: the blacklist then
/// holds the sentinel alone, so that the proxy fails open.
pub open spec fn blacklist_entries(file: Option<Seq<u8>>) -> Seq<Seq<char>> {
    match file {
        Some(bytes) => text_lines(bytes),
        None => seq![sentinel_entry()],
    }
}

/// Whether `address` is one of `entries`, compared character for character:
/// no case folding, no trimming, no reading of host or port.
pub open spec fn is_blocked(address: Seq<char>, entries: Seq<Seq<char>>) -> bool {
    entries.contains(address)
}

/// The content of an optional byte slice.
pub open spec fn file_view(file: Option<&[u8]>) -> Option<Seq<u8>> {
    match file {
        Some(bytes) => Some(bytes@),
        None => None,
    }
}

/// Loads the blacklist from one read of its file.
pub fn load_entries(file: Option<&[u8]>) -> (entries: Vec<String>)
    ensures
        entries.deep_view() == blacklist_entries(file_view(file)),
{
    match file {
        Some(bytes) => lines_to_vec(bytes),
        None => {
            let mut entries: Vec<String> = Vec::new();
            entries.push(SENTINEL.to_owned());
            entries
        },
    }
}

/// Scans `entries` for `address`.
pub fn contains_address(entries: &Vec<String>, address: &str) -> (found: bool)
    ensures
        found == is_blocked(address@, entries.deep_view()),
{
    let wanted = address.to_owned();
    let mut i: usize = 0;
    while i < entries.len()
        invariant
            i <= entries.len(),
            wanted@ == address@,
            forall|k: int| 0 <= k < i ==> entries.deep_view()[k] != address@,
        decreases entries.len() - i,
    {
        if entries[i] == wanted {
            assert(entries.deep_view()[i as int] == address@);
            return true;
        }
        i += 1;
    }
    false
}

/// Answers whether `address_to_check` is blocked, given one fresh read of the
/// blacklist file (`None` when the read failed).
pub fn check_address_block(address_to_check: &str, blacklist_file: Option<&[u8]>) -> (blocked: bool)
    ensures
        blocked == is_blocked(address_to_check@, blacklist_entries(file_view(blacklist_file))),
{
    let addresses_blocked = load_entries(blacklist_file);
    contains_address(&addresses_blocked, address_to_check)
}

/// Matching is exact: an address is blocked if and only if some entry equals
/// it in length and in every character.
pub proof fn lemma_blocked_iff_equal_entry(address: Seq<char>, entries: Seq<Seq<char>>)
    ensures
        is_blocked(address, entries) <==> exists|i: int|
            0 <= i < entries.len() && #[trigger] entries[i].len() == address.len() && forall|k: int|
                0 <= k < address.len() ==> entries[i][k] == address[k],
{
    if is_blocked(address, entries) {
        let i = choose|i: int| 0 <= i < entries.len() && entries[i] == address;
        assert(entries[i].len() == address.len());
    }
    if exists|i: int|
        0 <= i < entries.len() && #[trigger] entries[i].len() == address.len() && forall|k: int|
            0 <= k < address.len() ==> entries[i][k] == address[k] {
        let i = choose|i: int|
            0 <= i < entries.len() && #[trigger] entries[i].len() == address.len() && forall|k: int|
                0 <= k < address.len() ==> entries[i][k] == address[k];
        assert(entries[i] =~= address);
    }
}

/// Text that can stand on a line of its own and be read back unchanged: any
/// text without a line feed and without a carriage return at its end.
pub open spec fn is_line_text(line: Seq<char>) -> bool {
    &&& forall|i: int| 0 <= i < line.len() ==> #[trigger] line[i] != '\n'
    &&& line.len() > 0 ==> line.last() != '\r'
}

/// The file that holds `lines`, each followed by a line feed.
pub open spec fn written_lines(lines: Seq<Seq<char>>) -> Seq<u8>
    decreases lines.len(),
{
    if lines.len() == 0 {
        Seq::empty()
    } else {
        encode_utf8(lines[0]) + seq![LINE_FEED] + written_lines(lines.skip(1))
    }
}

/// In the UTF-8 encoding of one character, a byte below 0x80 is the whole
/// encoding and is the character's own value.
pub proof fn lemma_ascii_byte_of_char(c: char, k: int)
    requires
        0 <= k < encode_scalar(c as u32).len(),
        encode_scalar(c as u32)[k] < 0x80,
    ensures
        encode_scalar(c as u32).len() == 1,
        c as u32 == encode_scalar(c as u32)[0],
{
    let s = c as u32;
    char_is_scalar(c);
    assert(s <= 0x7F ==> (s & 0x7F) as u8 == s) by (bit_vector);
    let lead2 = ((s >> 6) & 0x1F) as u8;
    let lead3 = ((s >> 12) & 0x0F) as u8;
    let lead4 = ((s >> 18) & 0x7) as u8;
    let last = (s & 0x3F) as u8;
    let second_last = ((s >> 6) & 0x3F) as u8;
    let third_last = ((s >> 12) & 0x3F) as u8;
    assert(0xC0u8 | lead2 >= 0x80) by (bit_vector);
    assert(0xE0u8 | lead3 >= 0x80) by (bit_vector);
    assert(0xF0u8 | lead4 >= 0x80) by (bit_vector);
    assert(0x80u8 | last >= 0x80) by (bit_vector);
    assert(0x80u8 | second_last >= 0x80) by (bit_vector);
    assert(0x80u8 | third_last >= 0x80) by (bit_vector);
}

/// In the UTF-8 encoding of a text, a byte below 0x80 is the value of one of
/// the text's characters.
pub proof fn lemma_ascii_byte_of_text(chars: Seq<char>, k: int)
    requires
        0 <= k < encode_utf8(chars).len(),
        encode_utf8(chars)[k] < 0x80,
    ensures
        exists|i: int| 0 <= i < chars.len() && (#[trigger] chars[i]) as u32 == encode_utf8(chars)[k],
    decreases chars.len(),
{
    let first = encode_scalar(chars[0] as u32);
    let rest = chars.drop_first();
    if k < first.len() {
        lemma_ascii_byte_of_char(chars[0], k);
    } else {
        lemma_ascii_byte_of_text(rest, k - first.len());
        let i = choose|i: int|
            0 <= i < rest.len() && (#[trigger] rest[i]) as u32 == encode_utf8(rest)[k
                - first.len()];
        assert(chars[i + 1] == rest[i]);
    }
}

/// The UTF-8 encoding of a text ends as its last character ends: if the last
/// byte is below 0x80, it is the value of the last character.
pub proof fn lemma_last_byte_of_text(chars: Seq<char>)
    requires
        chars.len() > 0,
    ensures
        encode_utf8(chars).len() > 0,
        encode_utf8(chars).last() < 0x80 ==> chars.last() as u32 == encode_utf8(chars).last(),
    decreases chars.len(),
{
    let first = encode_scalar(chars[0] as u32);
    let rest = chars.drop_first();
    char_is_scalar(chars[0]);
    let encoded = encode_utf8(chars);
    assert(encoded == first + encode_utf8(rest));
    assert(first.len() > 0);
    if rest.len() == 0 {
        assert(encode_utf8(rest).len() == 0);
        assert(encoded.last() == first.last());
        if first.last() < 0x80 {
            lemma_ascii_byte_of_char(chars[0], first.len() - 1);
        }
    } else {
        lemma_last_byte_of_text(rest);
        assert(chars.last() == rest.last());
        assert(encoded.last() == encode_utf8(rest).last());
    }
}

/// What is written line by line is read back line by line: the entries of
/// such a file are the lines that were written, in order.
pub proof fn lemma_written_lines_are_read_back(lines: Seq<Seq<char>>)
    requires
        forall|i: int| 0 <= i < lines.len() ==> is_line_text(#[trigger] lines[i]),
    ensures
        text_lines(written_lines(lines)) == lines,
    decreases lines.len(),
{
    if lines.len() > 0 {
        let line = lines[0];
        let encoded = encode_utf8(line);
        let rest = written_lines(lines.skip(1));
        let bytes = written_lines(lines);
        let n = encoded.len() as int;
        encode_utf8_valid_utf8(line);
        encode_utf8_decode_utf8(line);
        assert(is_line_text(line));
        assert forall|k: int| 0 <= k < n implies bytes[k] != LINE_FEED by {
            assert(bytes[k] == encoded[k]);
            if encoded[k] == LINE_FEED {
                lemma_ascii_byte_of_text(line, k);
                let i = choose|i: int|
                    0 <= i < line.len() && (#[trigger] line[i]) as u32 == encoded[k];
                char_u32_cast(line[i], 0x0a);
                char_u32_cast('\n', 0x0a);
                assert(line[i] == '\n');
            }
        }
        lemma_line_end(bytes, n);
        if n > 0 {
            assert(bytes[n - 1] == encoded.last());
            lemma_last_byte_of_text(line);
            if encoded.last() == CARRIAGE_RETURN {
                char_u32_cast(line.last(), 0x0d);
                char_u32_cast('\r', 0x0d);
                assert(line.last() == '\r');
            }
        }
        assert(first_line(bytes) == encoded);
        assert(after_first_line(bytes) == rest);
        lemma_written_lines_are_read_back(lines.skip(1));
    }
}

/// A file written line by line blocks the addresses written in it, and no
/// others.
pub proof fn lemma_written_file_blocks_its_lines(address: Seq<char>, lines: Seq<Seq<char>>)
    requires
        forall|i: int| 0 <= i < lines.len() ==> is_line_text(#[trigger] lines[i]),
    ensures
        is_blocked(address, blacklist_entries(Some(written_lines(lines)))) <==> lines.contains(
            address,
        ),
{
    lemma_written_lines_are_read_back(lines);
}

/// Fail-open: when the blacklist file cannot be read, no address but the
/// sentinel itself is blocked.
pub proof fn lemma_unreadable_file_blocks_only_sentinel(address: Seq<char>)
    ensures
        is_blocked(address, blacklist_entries(None)) <==> address == sentinel_entry(),
{
    let entries = blacklist_entries(None);
    assert(entries[0] == sentinel_entry());
}

/// Fail-open for real destinations: an address with a port, and so with a
/// colon in it, is never blocked when the blacklist file cannot be read.
pub proof fn lemma_unreadable_file_blocks_no_host_port(address: Seq<char>)
    requires
        address.contains(':'),
    ensures
        !is_blocked(address, blacklist_entries(None)),
{
    lemma_unreadable_file_blocks_only_sentinel(address);
    reveal_strlit("Error");
    if address == sentinel_entry() {
        let i = choose|i: int| 0 <= i < address.len() && address[i] == ':';
        assert(SENTINEL@[i] != ':');
    }
}

} // verus!
