//! Strict conversion of a stream of lines from one codec to another, stopping
//! at the first line that cannot be decoded or encoded.

use vstd::prelude::*;
use crate::codec::{Codec, strict_decoding, strict_encoding};
use crate::lines::{concat_lines, is_line_split, lines_view};

verus! {

/// The step of a line's conversion that failed.
#[derive(Clone, Copy, Debug, PartialEq, Eq, Structural)]
pub enum Stage {
    /// The line could not be decoded with the source codec.
    Input,
    /// The decoded text could not be encoded with the destination codec.
    Output,
}

/// The line at which a conversion stopped.
pub struct LineFailure {
    /// 1-based number of the line.
    pub line: usize,
    pub stage: Stage,
    /// The codec's description of what went wrong.
    pub message: String,
}

/// The outcome of a conversion: the converted lines, in order, and the
/// failure that ended it early, if any.
pub struct Conversion {
    pub converted: Vec<Vec<u8>>,
    pub failure: Option<LineFailure>,
}

/// The conversion of one line: its strict decode with `src`, then the strict
/// encode of that text with `dest`.
pub open spec fn convert_line_spec(src: Seq<char>, dest: Seq<char>, line: Seq<u8>) -> Result<
    Seq<u8>,
    (Stage, Seq<char>),
> {
    match strict_decoding(src, line) {
        Err(e) => Err((Stage::Input, e)),
        Ok(t) => match strict_encoding(dest, t) {
            Err(e) => Err((Stage::Output, e)),
            Ok(b) => Ok(b),
        },
    }
}

/// The conversion of a sequence of lines: every line is converted in order
/// until one fails; that one is reported with its 1-based number and nothing
/// after it is converted.
pub open spec fn conversion_of(src: Seq<char>, dest: Seq<char>, lines: Seq<Seq<u8>>) -> (
    Seq<Seq<u8>>,
    Option<(nat, Stage, Seq<char>)>,
)
    decreases lines.len(),
{
    if lines.len() == 0 {
        (Seq::empty(), None)
    } else {
        let prev = conversion_of(src, dest, lines.drop_last());
        if prev.1 is Some {
            prev
        } else {
            match convert_line_spec(src, dest, lines.last()) {
                Ok(b) => (prev.0.push(b), None),
                Err((s, m)) => (prev.0, Some((lines.len(), s, m))),
            }
        }
    }
}

pub open spec fn failure_view(f: Option<LineFailure>) -> Option<(nat, Stage, Seq<char>)> {
    match f {
        Some(f) => Some((f.line as nat, f.stage, f.message@)),
        None => None,
    }
}

impl Conversion {
    pub open spec fn view(&self) -> (Seq<Seq<u8>>, Option<(nat, Stage, Seq<char>)>) {
        (lines_view(self.converted@), failure_view(self.failure))
    }

    /// The count of lines reported at the end of a conversion: one more than
    /// the lines converted, as the line counter also steps past the last line.
    pub fn summary_count(&self) -> (r: usize)
        requires
            self.converted@.len() < usize::MAX,
        ensures
            r == self.converted@.len() + 1,
    {
        self.converted.len() + 1
    }
}

/// Once a prefix of the lines has failed, longer prefixes give the same outcome.
pub proof fn lemma_conversion_stops(
    src: Seq<char>,
    dest: Seq<char>,
    lines: Seq<Seq<u8>>,
    k: int,
    n: int,
)
    requires
        0 <= k <= n <= lines.len(),
        conversion_of(src, dest, lines.take(k)).1 is Some,
    ensures
        conversion_of(src, dest, lines.take(n)) == conversion_of(src, dest, lines.take(k)),
    decreases n - k,
{
    if n > k {
        lemma_conversion_stops(src, dest, lines, k, n - 1);
        assert(lines.take(n).drop_last() =~= lines.take(n - 1));
    }
}

/// Fail-fast: a conversion that stops at line `k` holds the converted form of
/// every line before `k` and of none after it; without a failure it holds the
/// converted form of every line.
pub proof fn lemma_fail_fast(src: Seq<char>, dest: Seq<char>, lines: Seq<Seq<u8>>)
    ensures
        ({
            let (out, failure) = conversion_of(src, dest, lines);
            match failure {
                Some((k, s, m)) => {
                    &&& 1 <= k <= lines.len()
                    &&& out.len() == k - 1
                    &&& convert_line_spec(src, dest, lines[k - 1]) == Err::<Seq<u8>, _>((s, m))
                    &&& forall|j: int|
                        0 <= j < k - 1 ==> convert_line_spec(src, dest, lines[j]) == Ok::<
                            _,
                            (Stage, Seq<char>),
                        >(#[trigger] out[j])
                },
                None => {
                    &&& out.len() == lines.len()
                    &&& forall|j: int|
                        0 <= j < lines.len() ==> convert_line_spec(src, dest, lines[j]) == Ok::<
                            _,
                            (Stage, Seq<char>),
                        >(#[trigger] out[j])
                },
            }
        }),
    decreases lines.len(),
{
    if lines.len() > 0 {
        let init = lines.drop_last();
        lemma_fail_fast(src, dest, init);
        assert forall|j: int| 0 <= j < init.len() implies init[j] == lines[j] by {}
    }
}

/// Round trip: converting a stream from a codec to itself reproduces it byte
/// for byte, where each of its lines decodes cleanly and encodes back to the
/// same bytes.
pub proof fn lemma_round_trip(c: Seq<char>, input: Seq<u8>, lines: Seq<Seq<u8>>)
    requires
        is_line_split(input, lines),
        forall|j: int|
            0 <= j < lines.len() ==> (strict_decoding(c, #[trigger] lines[j]) matches Ok(t)
                && strict_encoding(c, t) == Ok::<_, Seq<char>>(lines[j])),
    ensures
        conversion_of(c, c, lines).1 is None,
        concat_lines(conversion_of(c, c, lines).0) == input,
{
    lemma_fail_fast(c, c, lines);
    let out = conversion_of(c, c, lines).0;
    if let Some((k, s, m)) = conversion_of(c, c, lines).1 {
        assert(strict_decoding(c, lines[k - 1]) is Ok);
    }
    assert forall|j: int| 0 <= j < lines.len() implies out[j] == lines[j] by {
        assert(strict_decoding(c, lines[j]) is Ok);
    }
    assert(out =~= lines);
}

/// Converts `line` from `src` to `dest`, strictly in both steps.
pub fn convert_line(line: &[u8], src: &Codec, dest: &Codec) -> (r: Result<Vec<u8>, (Stage, String)>)
    ensures
        convert_line_spec(src@, dest@, line@) == match r {
            Ok(b) => Ok(b@),
            Err((s, m)) => Err((s, m@)),
        },
{
    match src.decode(line) {
        Err(e) => Err((Stage::Input, e)),
        Ok(text) => match dest.encode(text.as_str()) {
            Err(e) => Err((Stage::Output, e)),
            Ok(b) => Ok(b),
        },
    }
}

/// Converts each line from `src` to `dest` in order, stopping at the first
/// line that fails to decode or encode.
pub fn convert(lines: &Vec<Vec<u8>>, src: &Codec, dest: &Codec) -> (r: Conversion)
    ensures
        r.view() == conversion_of(src@, dest@, lines_view(lines@)),
        r.failure matches Some(f) ==> 1 <= f.line <= lines@.len() && r.converted@.len() == f.line - 1,
        r.failure is None ==> r.converted@.len() == lines@.len(),
{
    let ghost all = lines_view(lines@);
    let mut converted: Vec<Vec<u8>> = Vec::new();
    let mut i: usize = 0;
    while i < lines.len()
        invariant
            i <= lines@.len(),
            all == lines_view(lines@),
            conversion_of(src@, dest@, all.take(i as int)) == (lines_view(converted@), None::<
                (nat, Stage, Seq<char>),
            >),
        decreases lines.len() - i,
    {
        assert(all.take(i + 1).drop_last() =~= all.take(i as int));
        assert(all.take(i + 1).last() == lines[i as int]@);
        match convert_line(lines[i].as_slice(), src, dest) {
            Ok(b) => {
                let ghost before = converted@;
                converted.push(b);
                assert(lines_view(converted@) =~= lines_view(before).push(converted@.last()@));
            },
            Err((stage, message)) => {
                let r = Conversion {
                    converted,
                    failure: Some(LineFailure { line: i + 1, stage, message }),
                };
                proof {
                    lemma_conversion_stops(src@, dest@, all, i + 1, all.len() as int);
                    assert(all.take(all.len() as int) =~= all);
                    lemma_fail_fast(src@, dest@, all);
                }
                return r;
            },
        }
        i += 1;
    }
    assert(all.take(i as int) =~= all);
    proof {
        lemma_fail_fast(src@, dest@, all);
    }
    Conversion { converted, failure: None }
}

} // verus!
