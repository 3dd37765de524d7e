//! Splitting a byte stream into lines, each keeping its line-feed terminator.

use vstd::prelude::*;

verus! {

/// The line-feed byte that ends a line.
pub const LINE_FEED: u8 = 10;

/// The bytes of a sequence of lines, laid end to end.
pub open spec fn concat_lines(lines: Seq<Seq<u8>>) -> Seq<u8>
    decreases lines.len(),
{
    if lines.len() == 0 {
        Seq::empty()
    } else {
        concat_lines(lines.drop_last()) + lines.last()
    }
}

/// The views of a sequence of byte buffers.
pub open spec fn lines_view(v: Seq<Vec<u8>>) -> Seq<Seq<u8>> {
    v.map_values(|l: Vec<u8>| l@)
}

/// A non-empty buffer whose only line feed, if any, is its last byte.
pub open spec fn is_line(l: Seq<u8>) -> bool {
    &&& l.len() > 0
    &&& forall|j: int| 0 <= j < l.len() - 1 ==> l[j] != LINE_FEED
}

/// A line that ends with its terminator.
pub open spec fn is_terminated(l: Seq<u8>) -> bool {
    is_line(l) && l.last() == LINE_FEED
}

/// `lines` is the split of `input` at its line feeds: laid end to end they give
/// `input` back, each keeps its terminator, and only the last may lack one.
pub open spec fn is_line_split(input: Seq<u8>, lines: Seq<Seq<u8>>) -> bool {
    &&& concat_lines(lines) == input
    &&& forall|i: int| 0 <= i < lines.len() ==> is_line(#[trigger] lines[i])
    &&& forall|i: int| 0 <= i < lines.len() - 1 ==> is_terminated(#[trigger] lines[i])
}

pub proof fn lemma_concat_push(lines: Seq<Seq<u8>>, l: Seq<u8>)
    ensures
        concat_lines(lines.push(l)) == concat_lines(lines) + l,
{
    assert(lines.push(l).drop_last() =~= lines);
}

/// Splits `input` after each line feed. A final line without a terminator is
/// still returned; an empty input gives no lines.
pub fn split_lines(input: &Vec<u8>) -> (r: Vec<Vec<u8>>)
    ensures
        is_line_split(input@, lines_view(r@)),
{
    let mut r: Vec<Vec<u8>> = Vec::new();
    let mut cur: Vec<u8> = Vec::new();
    let mut i: usize = 0;
    while i < input.len()
        invariant
            i <= input.len(),
            concat_lines(lines_view(r@)) + cur@ == input@.take(i as int),
            forall|k: int| 0 <= k < r@.len() ==> is_terminated(#[trigger] lines_view(r@)[k]),
            forall|j: int| 0 <= j < cur@.len() ==> cur@[j] != LINE_FEED,
        decreases input.len() - i,
    {
        let b = input[i];
        proof {
            lemma_concat_push(lines_view(r@), cur@.push(b));
        }
        cur.push(b);
        assert(input@.take(i + 1) =~= input@.take(i as int).push(b));
        if b == LINE_FEED {
            let ghost old_r = r@;
            r.push(cur);
            assert(lines_view(r@) =~= lines_view(old_r).push(lines_view(r@).last()));
            cur = Vec::new();
            assert(concat_lines(lines_view(r@)) + cur@ =~= input@.take(i + 1));
        }
        i += 1;
    }
    assert(input@.take(i as int) =~= input@);
    if cur.len() > 0 {
        let ghost old_r = r@;
        proof {
            lemma_concat_push(lines_view(r@), cur@);
        }
        r.push(cur);
        assert(lines_view(r@) =~= lines_view(old_r).push(lines_view(r@).last()));
    } else {
        assert(cur@ =~= Seq::<u8>::empty());
        assert(concat_lines(lines_view(r@)) + cur@ =~= concat_lines(lines_view(r@)));
    }
    r
}

} // verus!
