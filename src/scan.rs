//! Finding the characters of UTF-8 text that take four bytes to encode.

use vstd::prelude::*;
use vstd::utf8::{valid_utf8, decode_utf8};
use crate::lines::lines_view;

verus! {

/// The number of bytes that the UTF-8 encoding of `c` takes.
pub open spec fn utf8_width(c: char) -> nat {
    if (c as u32) < 0x80 {
        1
    } else if (c as u32) < 0x800 {
        2
    } else if (c as u32) < 0x10000 {
        3
    } else {
        4
    }
}

/// The characters of `t`, in order, whose encoding takes four bytes or more.
pub open spec fn wide_chars(t: Seq<char>) -> Seq<char>
    decreases t.len(),
{
    if t.len() == 0 {
        Seq::empty()
    } else {
        let prev = wide_chars(t.drop_last());
        if utf8_width(t.last()) >= 4 {
            prev.push(t.last())
        } else {
            prev
        }
    }
}

/// The outcome of a scan of lines: the wide characters of the lines read, and
/// the 1-based number of the first line that is not UTF-8, where the scan
/// stopped.
pub open spec fn scan_of(lines: Seq<Seq<u8>>) -> (Seq<char>, Option<nat>)
    decreases lines.len(),
{
    if lines.len() == 0 {
        (Seq::empty(), None)
    } else {
        let prev = scan_of(lines.drop_last());
        if prev.1 is Some {
            prev
        } else if !valid_utf8(lines.last()) {
            (prev.0, Some(lines.len()))
        } else {
            (prev.0 + wide_chars(decode_utf8(lines.last())), None)
        }
    }
}

/// The wide characters found, and the line that stopped the scan if the input
/// was not UTF-8 throughout.
pub struct Scan {
    pub wide: Vec<char>,
    pub malformed_line: Option<usize>,
}

impl Scan {
    pub open spec fn view(&self) -> (Seq<char>, Option<nat>) {
        (
            self.wide@,
            match self.malformed_line {
                Some(k) => Some(k as nat),
                None => None,
            },
        )
    }
}

/// Relies on std::str::from_utf8: `Ok` exactly for valid UTF-8, holding the
/// characters it encodes.
#[verifier::external_body]
fn utf8_text(bytes: &[u8]) -> (r: Option<String>)
    ensures
        r is Some <==> valid_utf8(bytes@),
        r matches Some(t) ==> t@ == decode_utf8(bytes@),
{
    std::str::from_utf8(bytes).ok().map(|s| s.to_string())
}

/// Relies on str::chars: the characters of the text, in order.
#[verifier::external_body]
fn chars_of(s: &str) -> (r: Vec<char>)
    ensures
        r@ == s@,
{
    s.chars().collect()
}

/// The number of bytes that the UTF-8 encoding of `c` takes.
pub fn utf8_width_of(c: char) -> (r: u32)
    ensures
        r == utf8_width(c),
{
    let v = c as u32;
    if v < 0x80 {
        1
    } else if v < 0x800 {
        2
    } else if v < 0x10000 {
        3
    } else {
        4
    }
}

/// Appends to `out` the characters of `text` whose encoding takes four bytes.
pub fn push_wide_chars(text: &str, out: &mut Vec<char>)
    ensures
        final(out)@ == old(out)@ + wide_chars(text@),
{
    let chars = chars_of(text);
    let ghost start = out@;
    let mut i: usize = 0;
    while i < chars.len()
        invariant
            i <= chars@.len(),
            chars@ == text@,
            out@ == start + wide_chars(chars@.take(i as int)),
        decreases chars.len() - i,
    {
        let c = chars[i];
        assert(chars@.take(i + 1).drop_last() =~= chars@.take(i as int));
        if utf8_width_of(c) >= 4 {
            out.push(c);
        }
        assert(out@ =~= start + wide_chars(chars@.take(i + 1)));
        i += 1;
    }
    assert(chars@.take(i as int) =~= chars@);
}

/// Once a prefix of the lines has stopped the scan, longer prefixes give the
/// same outcome.
proof fn lemma_scan_stops(lines: Seq<Seq<u8>>, k: int, n: int)
    requires
        0 <= k <= n <= lines.len(),
        scan_of(lines.take(k)).1 is Some,
    ensures
        scan_of(lines.take(n)) == scan_of(lines.take(k)),
    decreases n - k,
{
    if n > k {
        lemma_scan_stops(lines, k, n - 1);
        assert(lines.take(n).drop_last() =~= lines.take(n - 1));
    }
}

/// Scans each line, in order, for characters whose UTF-8 encoding takes four
/// bytes, stopping at the first line that is not UTF-8.
pub fn check_utf8mb4(lines: &Vec<Vec<u8>>) -> (r: Scan)
    ensures
        r.view() == scan_of(lines_view(lines@)),
{
    let ghost all = lines_view(lines@);
    let mut wide: Vec<char> = Vec::new();
    let mut i: usize = 0;
    while i < lines.len()
        invariant
            i <= lines@.len(),
            all == lines_view(lines@),
            scan_of(all.take(i as int)) == (wide@, None::<nat>),
        decreases lines.len() - i,
    {
        assert(all.take(i + 1).drop_last() =~= all.take(i as int));
        assert(all.take(i + 1).last() == lines[i as int]@);
        match utf8_text(lines[i].as_slice()) {
            Some(text) => {
                push_wide_chars(text.as_str(), &mut wide);
            },
            None => {
                proof {
                    lemma_scan_stops(all, i + 1, all.len() as int);
                    assert(all.take(all.len() as int) =~= all);
                }
                return Scan { wide, malformed_line: Some(i + 1) };
            },
        }
        i += 1;
    }
    assert(all.take(i as int) =~= all);
    Scan { wide, malformed_line: None }
}

} // verus!
