//! Guessing the encoding of a byte stream with chardet's statistical detector,
//! fed the stream in bounded chunks.

use vstd::prelude::*;
use chardet::UniversalDetector;

verus! {

/// The most bytes handed to the detector at once.
pub const CHUNK: usize = 8192;

/// chardet's UniversalDetector, carried opaque between the calls below.
#[verifier::external_type_specification]
#[verifier::external_body]
pub struct ExUniversalDetector(UniversalDetector);

/// `d` is in the state that a new detector reaches once fed `chunks`, in order.
/// The detector is deterministic, so one state may answer to several histories
/// (a detector that has settled ignores what it is fed next).
pub uninterp spec fn fed_with(d: UniversalDetector, chunks: Seq<Seq<u8>>) -> bool;

/// The label a detector reports after being fed the given chunks.
pub uninterp spec fn detected_label(chunks: Seq<Seq<u8>>) -> Seq<char>;

/// Relies on UniversalDetector::new: a detector that has been fed nothing.
#[verifier::external_body]
fn new_detector() -> (r: UniversalDetector)
    ensures
        fed_with(r, Seq::empty()),
{
    UniversalDetector::new()
}

/// Relies on UniversalDetector::feed: the detector takes in one more chunk.
#[verifier::external_body]
fn feed_detector(d: &mut UniversalDetector, chunk: &[u8])
    ensures
        forall|h: Seq<Seq<u8>>| #[trigger] fed_with(*old(d), h) ==> fed_with(*final(d), h.push(chunk@)),
{
    d.feed(chunk)
}

/// The escape byte, which sends chardet's detector to its escape-sequence prober.
pub const ESCAPE: u8 = 0x1B;

/// A byte that sends chardet's detector to its high-byte probers.
pub open spec fn is_high_byte(b: u8) -> bool {
    b >= 0x80 && b != 0xA0
}

pub open spec fn has_escape(s: Seq<u8>) -> bool {
    exists|j: int| 0 <= j < s.len() && s[j] == ESCAPE
}

pub open spec fn has_high_byte(s: Seq<u8>) -> bool {
    exists|j: int| 0 <= j < s.len() && is_high_byte(s[j])
}

/// Whether any chunk holds an escape byte, a high byte, or any byte at all.
pub open spec fn any_escape(chunks: Seq<Seq<u8>>) -> bool {
    exists|i: int| 0 <= i < chunks.len() && has_escape(#[trigger] chunks[i])
}

pub open spec fn any_high_byte(chunks: Seq<Seq<u8>>) -> bool {
    exists|i: int| 0 <= i < chunks.len() && has_high_byte(#[trigger] chunks[i])
}

pub open spec fn any_data(chunks: Seq<Seq<u8>>) -> bool {
    exists|i: int| 0 <= i < chunks.len() && #[trigger] chunks[i].len() > 0
}

/// Chunks after which the detector can be closed. Its `close` reaches
/// `unreachable!` when it saw an escape byte and no high byte and its escape
/// prober did not settle; whether that prober settled is not exposed.
pub open spec fn closable(chunks: Seq<Seq<u8>>) -> bool {
    !any_escape(chunks) || any_high_byte(chunks)
}

/// Relies on UniversalDetector::close, for the label of the charset it settles
/// on. Fed nothing it reports an empty label; fed data with neither an escape
/// byte nor a high byte it stays in its pure-ASCII state and reports "ascii".
#[verifier::external_body]
fn close_detector(d: &mut UniversalDetector) -> (r: String)
    requires
        exists|h: Seq<Seq<u8>>| #[trigger] fed_with(*old(d), h) && closable(h),
    ensures
        forall|h: Seq<Seq<u8>>| #[trigger] fed_with(*old(d), h) ==> r@ == detected_label(h),
        forall|h: Seq<Seq<u8>>| #[trigger] fed_with(*old(d), h) && h.len() == 0 ==> r@.len() == 0,
        forall|h: Seq<Seq<u8>>|
            #[trigger] fed_with(*old(d), h) && any_data(h) && !any_escape(h) && !any_high_byte(h)
                ==> r@ == "ascii"@,
{
    d.close().0
}

/// The label a detector fed `chunks` reports, or nothing where it is empty.
pub open spec fn label_of(chunks: Seq<Seq<u8>>) -> Option<Seq<char>> {
    if detected_label(chunks).len() == 0 {
        None
    } else {
        Some(detected_label(chunks))
    }
}

/// A detector together with the chunks it has been fed, and whether they held
/// an escape byte or a high byte.
pub struct Guesser {
    detector: UniversalDetector,
    history: Ghost<Seq<Seq<u8>>>,
    escape: bool,
    high: bool,
}

impl Guesser {
    /// The detector answers to the recorded chunks, and the flags describe them.
    pub closed spec fn wf(self) -> bool {
        &&& fed_with(self.detector, self.history@)
        &&& self.escape == any_escape(self.history@)
        &&& self.high == any_high_byte(self.history@)
    }

    /// The chunks fed so far, in order.
    pub closed spec fn fed(self) -> Seq<Seq<u8>> {
        self.history@
    }

    /// A guesser that has been fed nothing.
    pub fn new() -> (r: Guesser)
        ensures
            r.wf(),
            r.fed() == Seq::<Seq<u8>>::empty(),
    {
        Guesser { detector: new_detector(), history: Ghost(Seq::empty()), escape: false, high: false }
    }

    /// Feeds one more chunk of the stream.
    pub fn feed(&mut self, chunk: &[u8])
        requires
            old(self).wf(),
        ensures
            final(self).wf(),
            final(self).fed() == old(self).fed().push(chunk@),
    {
        let (chunk_escape, chunk_high) = scan_chunk(chunk);
        let ghost history = self.history@;
        proof {
            lemma_any_push(history, chunk@);
        }
        feed_detector(&mut self.detector, chunk);
        self.history = Ghost(history.push(chunk@));
        self.escape = self.escape || chunk_escape;
        self.high = self.high || chunk_high;
    }

    /// Whether the detector can be closed here without reaching its
    /// unreachable state.
    pub fn is_closable(&self) -> (r: bool)
        requires
            self.wf(),
        ensures
            r == closable(self.fed()),
    {
        !self.escape || self.high
    }

    /// Closes the detector: its label, or nothing where the label is empty.
    pub fn finish(self) -> (r: Option<String>)
        requires
            self.wf(),
            closable(self.fed()),
        ensures
            r matches Some(s) ==> label_of(self.fed()) == Some(s@),
            r is None ==> label_of(self.fed()) is None,
            self.fed().len() == 0 ==> r is None,
            any_data(self.fed()) && !any_escape(self.fed()) && !any_high_byte(self.fed()) ==> (r
                matches Some(s) && s@ == "ascii"@),
    {
        let ghost h = self.history@;
        let mut detector = self.detector;
        assert(fed_with(detector, h) && closable(h));
        let label = close_detector(&mut detector);
        proof {
            reveal_strlit("ascii");
        }
        if label.as_str().is_empty() {
            None
        } else {
            Some(label)
        }
    }

    /// The detector itself, fed `self.fed()`, for a caller that closes it
    /// where the library cannot.
    pub fn into_detector(self) -> (r: UniversalDetector)
        requires
            self.wf(),
        ensures
            fed_with(r, self.fed()),
    {
        self.detector
    }
}

/// `input` cut into consecutive chunks of `CHUNK` bytes, the last one shorter
/// if need be.
pub open spec fn chunks_of(input: Seq<u8>) -> Seq<Seq<u8>>
    decreases input.len(),
{
    if input.len() == 0 {
        Seq::empty()
    } else if input.len() <= CHUNK {
        seq![input]
    } else {
        seq![input.take(CHUNK as int)] + chunks_of(input.skip(CHUNK as int))
    }
}

/// Whether `chunk` holds an escape byte, and whether it holds a high byte.
pub fn scan_chunk(chunk: &[u8]) -> (r: (bool, bool))
    ensures
        r.0 == has_escape(chunk@),
        r.1 == has_high_byte(chunk@),
{
    let mut escape = false;
    let mut high = false;
    let mut k: usize = 0;
    while k < chunk.len()
        invariant
            k <= chunk@.len(),
            escape == has_escape(chunk@.take(k as int)),
            high == has_high_byte(chunk@.take(k as int)),
        decreases chunk.len() - k,
    {
        let b = chunk[k];
        let ghost prefix = chunk@.take(k as int);
        let ghost next = chunk@.take(k + 1);
        assert(next =~= prefix.push(b));
        if b == ESCAPE {
            escape = true;
            assert(next[k as int] == ESCAPE);
        }
        if b >= 0x80 && b != 0xA0 {
            high = true;
            assert(is_high_byte(next[k as int]));
        }
        assert(escape == has_escape(next)) by {
            if has_escape(next) {
                let j = choose|j: int| 0 <= j < next.len() && next[j] == ESCAPE;
                if j < k {
                    assert(prefix[j] == ESCAPE);
                }
            }
        }
        assert(high == has_high_byte(next)) by {
            if has_high_byte(next) {
                let j = choose|j: int| 0 <= j < next.len() && is_high_byte(next[j]);
                if j < k {
                    assert(is_high_byte(prefix[j]));
                }
            }
        }
        k += 1;
    }
    assert(chunk@.take(k as int) =~= chunk@);
    (escape, high)
}

proof fn lemma_any_push(chunks: Seq<Seq<u8>>, c: Seq<u8>)
    ensures
        any_escape(chunks.push(c)) == (any_escape(chunks) || has_escape(c)),
        any_high_byte(chunks.push(c)) == (any_high_byte(chunks) || has_high_byte(c)),
{
    let next = chunks.push(c);
    assert(next[chunks.len() as int] == c);
    if any_escape(chunks) {
        let i = choose|i: int| 0 <= i < chunks.len() && has_escape(#[trigger] chunks[i]);
        assert(next[i] == chunks[i]);
    }
    if any_escape(next) {
        let i = choose|i: int| 0 <= i < next.len() && has_escape(#[trigger] next[i]);
        if i < chunks.len() {
            assert(next[i] == chunks[i]);
        }
    }
    if any_high_byte(chunks) {
        let i = choose|i: int| 0 <= i < chunks.len() && has_high_byte(#[trigger] chunks[i]);
        assert(next[i] == chunks[i]);
    }
    if any_high_byte(next) {
        let i = choose|i: int| 0 <= i < next.len() && has_high_byte(#[trigger] next[i]);
        if i < chunks.len() {
            assert(next[i] == chunks[i]);
        }
    }
}

/// Guesses the encoding of `input`, feeding it to the detector chunk by chunk.
/// Where the detector can be closed, the result is its label (nothing where the
/// label is empty); otherwise the fed guesser is handed back for the caller to
/// close.
pub fn guess(input: &Vec<u8>) -> (r: Result<Option<String>, Guesser>)
    ensures
        r is Ok <==> closable(chunks_of(input@)),
        r matches Ok(Some(s)) ==> label_of(chunks_of(input@)) == Some(s@),
        r matches Ok(None) ==> label_of(chunks_of(input@)) is None,
        r matches Err(g) ==> g.wf() && g.fed() == chunks_of(input@),
        input@.len() == 0 ==> r matches Ok(None),
        input@.len() > 0 && !has_escape(input@) && (forall|j: int|
            0 <= j < input@.len() ==> input@[j] < 0x80) ==> (r matches Ok(Some(s)) && s@
            == "ascii"@),
{
    let mut guesser = Guesser::new();
    let mut i: usize = 0;
    assert(input@.skip(0) =~= input@);
    assert(guesser.fed() + chunks_of(input@) =~= chunks_of(input@));
    while i < input.len()
        invariant
            i <= input@.len(),
            guesser.wf(),
            guesser.fed() + chunks_of(input@.skip(i as int)) == chunks_of(input@),
        decreases input.len() - i,
    {
        let rest = input.len() - i;
        let end: usize = if rest <= CHUNK {
            input.len()
        } else {
            i + CHUNK
        };
        let chunk = vstd::slice::slice_subrange(input.as_slice(), i, end);
        let ghost before = guesser.fed();
        let ghost tail = input@.skip(i as int);
        assert(chunk@ =~= if tail.len() <= CHUNK { tail } else { tail.take(CHUNK as int) });
        assert(input@.skip(end as int) =~= tail.skip((end - i) as int));
        guesser.feed(chunk);
        if rest <= CHUNK {
            assert(input@.skip(end as int) =~= Seq::<u8>::empty());
        }
        assert(before + chunks_of(tail) =~= before.push(chunk@) + chunks_of(
            input@.skip(end as int),
        ));
        i = end;
    }
    assert(input@.skip(i as int) =~= Seq::<u8>::empty());
    assert(guesser.fed() + chunks_of(input@.skip(i as int)) =~= guesser.fed());
    proof {
        lemma_chunks_cover(input@);
        if forall|j: int| 0 <= j < input@.len() ==> input@[j] < 0x80 {
            assert(!has_high_byte(input@));
        }
    }
    if guesser.is_closable() {
        Ok(guesser.finish())
    } else {
        Err(guesser)
    }
}

/// The chunks of `input` hold an escape byte, a high byte, or any byte exactly
/// when `input` does.
pub proof fn lemma_chunks_cover(input: Seq<u8>)
    ensures
        any_escape(chunks_of(input)) == has_escape(input),
        any_high_byte(chunks_of(input)) == has_high_byte(input),
        any_data(chunks_of(input)) == (input.len() > 0),
        input.len() == 0 ==> chunks_of(input).len() == 0,
    decreases input.len(),
{
    let cs = chunks_of(input);
    if input.len() == 0 {
    } else if input.len() <= CHUNK {
        assert(cs[0] == input);
        if has_escape(input) {
            assert(has_escape(cs[0]));
        }
        if has_high_byte(input) {
            assert(has_high_byte(cs[0]));
        }
        assert(cs[0].len() > 0);
    } else {
        let head = input.take(CHUNK as int);
        let tail = input.skip(CHUNK as int);
        lemma_chunks_cover(tail);
        let rest = chunks_of(tail);
        assert(cs == seq![head] + rest);
        assert(cs[0] == head);
        assert(head.len() > 0);
        assert forall|i: int| 0 <= i < rest.len() implies cs[i + 1] == rest[i] by {}
        if has_escape(input) {
            let j = choose|j: int| 0 <= j < input.len() && input[j] == ESCAPE;
            if j < CHUNK {
                assert(head[j] == ESCAPE);
                assert(has_escape(cs[0]));
            } else {
                assert(tail[j - CHUNK] == ESCAPE);
                let i = choose|i: int| 0 <= i < rest.len() && has_escape(#[trigger] rest[i]);
                assert(has_escape(cs[i + 1]));
            }
        }
        if any_escape(cs) {
            let i = choose|i: int| 0 <= i < cs.len() && has_escape(#[trigger] cs[i]);
            if i == 0 {
                let j = choose|j: int| 0 <= j < head.len() && head[j] == ESCAPE;
                assert(input[j] == ESCAPE);
            } else {
                assert(rest[i - 1] == cs[i]);
                assert(has_escape(rest[i - 1]));
                let j = choose|j: int| 0 <= j < tail.len() && tail[j] == ESCAPE;
                assert(input[j + CHUNK] == ESCAPE);
            }
        }
        if has_high_byte(input) {
            let j = choose|j: int| 0 <= j < input.len() && is_high_byte(input[j]);
            if j < CHUNK {
                assert(is_high_byte(head[j]));
                assert(has_high_byte(cs[0]));
            } else {
                assert(is_high_byte(tail[j - CHUNK]));
                let i = choose|i: int| 0 <= i < rest.len() && has_high_byte(#[trigger] rest[i]);
                assert(has_high_byte(cs[i + 1]));
            }
        }
        if any_high_byte(cs) {
            let i = choose|i: int| 0 <= i < cs.len() && has_high_byte(#[trigger] cs[i]);
            if i == 0 {
                let j = choose|j: int| 0 <= j < head.len() && is_high_byte(head[j]);
                assert(is_high_byte(input[j]));
            } else {
                assert(rest[i - 1] == cs[i]);
                assert(has_high_byte(rest[i - 1]));
                let j = choose|j: int| 0 <= j < tail.len() && is_high_byte(tail[j]);
                assert(is_high_byte(input[j + CHUNK]));
            }
        }
    }
}

} // verus!
