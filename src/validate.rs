//! Auditing a stream of lines against a codec: every line that fails a strict
//! decode is reported, and the audit always runs to the end of the stream.

use vstd::prelude::*;
use vstd::string::*;
use crate::codec::{Codec, strict_decoding, lossy_decoding};
use crate::lines::lines_view;

verus! {

/// A line that does not decode strictly.
pub struct Invalid {
    /// 1-based number of the line.
    pub line: usize,
    /// The line decoded with replacement characters, ending with a line feed.
    pub rendering: String,
}

/// `t` with a line feed appended, unless it already ends with one.
pub open spec fn with_newline(t: Seq<char>) -> Seq<char> {
    if t.len() > 0 && t.last() == '\n' {
        t
    } else {
        t.push('\n')
    }
}

/// Whether a line fails a strict decode with the codec named `c`.
pub open spec fn is_invalid(c: Seq<char>, line: Seq<u8>) -> bool {
    strict_decoding(c, line) is Err
}

/// The report of an audit: for each line, in order, that fails a strict
/// decode, its 1-based number and its rendering with replacement characters.
pub open spec fn diagnostics_of(c: Seq<char>, lines: Seq<Seq<u8>>) -> Seq<(nat, Seq<char>)>
    decreases lines.len(),
{
    if lines.len() == 0 {
        Seq::empty()
    } else {
        let prev = diagnostics_of(c, lines.drop_last());
        if is_invalid(c, lines.last()) {
            prev.push((lines.len(), with_newline(lossy_decoding(c, lines.last()))))
        } else {
            prev
        }
    }
}

pub open spec fn invalid_view(v: Seq<Invalid>) -> Seq<(nat, Seq<char>)> {
    v.map_values(|d: Invalid| (d.line as nat, d.rendering@))
}

/// Appends a line feed to `t` unless it already ends with one.
pub fn ensure_newline(t: String) -> (r: String)
    ensures
        r@ == with_newline(t@),
{
    let n = t.as_str().unicode_len();
    if n > 0 && t.as_str().get_char(n - 1) == '\n' {
        t
    } else {
        let ghost before = t@;
        let mut t = t;
        t.append("\n");
        assert(t@ =~= with_newline(before)) by {
            reveal_strlit("\n");
        }
        t
    }
}

/// Audits every line against `c`, in order, never stopping early.
pub fn validate(lines: &Vec<Vec<u8>>, c: &Codec) -> (r: Vec<Invalid>)
    ensures
        invalid_view(r@) == diagnostics_of(c@, lines_view(lines@)),
{
    let ghost all = lines_view(lines@);
    let mut found: Vec<Invalid> = Vec::new();
    let mut i: usize = 0;
    while i < lines.len()
        invariant
            i <= lines@.len(),
            all == lines_view(lines@),
            invalid_view(found@) == diagnostics_of(c@, all.take(i as int)),
        decreases lines.len() - i,
    {
        assert(all.take(i + 1).drop_last() =~= all.take(i as int));
        assert(all.take(i + 1).last() == lines[i as int]@);
        let line = lines[i].as_slice();
        if c.decode(line).is_err() {
            let rendering = ensure_newline(c.decode_replacing(line));
            let ghost before = found@;
            found.push(Invalid { line: i + 1, rendering });
            assert(invalid_view(found@) =~= invalid_view(before).push(
                (found@.last().line as nat, found@.last().rendering@),
            ));
        }
        i += 1;
    }
    assert(all.take(i as int) =~= all);
    found
}

/// The audit of the first `n` lines is empty while `n` does not pass the one
/// invalid line `k`, and holds that line alone once it does.
proof fn lemma_single_invalid_prefix(c: Seq<char>, lines: Seq<Seq<u8>>, k: int, n: int)
    requires
        0 <= k < lines.len(),
        0 <= n <= lines.len(),
        is_invalid(c, lines[k]),
        forall|j: int| 0 <= j < lines.len() && j != k ==> !is_invalid(c, #[trigger] lines[j]),
    ensures
        diagnostics_of(c, lines.take(n)) == if n <= k {
            Seq::empty()
        } else {
            seq![((k + 1) as nat, with_newline(lossy_decoding(c, lines[k])))]
        },
    decreases n,
{
    if n > 0 {
        lemma_single_invalid_prefix(c, lines, k, n - 1);
        assert(lines.take(n).drop_last() =~= lines.take(n - 1));
        assert(lines.take(n).last() == lines[n - 1]);
        if n - 1 == k {
            assert(Seq::<(nat, Seq<char>)>::empty().push(
                ((k + 1) as nat, with_newline(lossy_decoding(c, lines[k]))),
            ) =~= seq![((k + 1) as nat, with_newline(lossy_decoding(c, lines[k])))]);
        }
    }
}

/// A stream whose only invalid line is line `k + 1` gets exactly one
/// diagnostic, and it cites that line.
pub proof fn lemma_single_invalid(c: Seq<char>, lines: Seq<Seq<u8>>, k: int)
    requires
        0 <= k < lines.len(),
        is_invalid(c, lines[k]),
        forall|j: int| 0 <= j < lines.len() && j != k ==> !is_invalid(c, #[trigger] lines[j]),
    ensures
        diagnostics_of(c, lines).len() == 1,
        diagnostics_of(c, lines)[0].0 == k + 1,
{
    lemma_single_invalid_prefix(c, lines, k, lines.len() as int);
    assert(lines.take(lines.len() as int) =~= lines);
}

} // verus!
