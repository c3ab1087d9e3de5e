use vstd::prelude::*;
use crate::cursor::{ByteCursor, skip_ws, lemma_skip_ws};
use crate::value_decoder::{all_json_ws, decoded_len, decoded_value, decode_first_value};

verus! {

/// Where the walker stands in the array.
#[derive(Clone, Copy, Debug, PartialEq, Eq, Structural)]
pub enum Phase {
    /// Before the opening bracket.
    NotStarted,
    /// Past the opening bracket and at least one element.
    AwaitingElementOrEnd,
    /// Past the closing bracket, or after an error.
    Finished,
}

/// Which structural byte was missing.
#[derive(Clone, Copy, Debug, PartialEq, Eq, Structural)]
pub enum Malformed {
    /// The first non-whitespace byte was not `[`.
    MissingOpeningBracket,
    /// After an element came something other than `,` or `]`.
    ExpectedCommaOrClosingBracket,
}

/// Why the walk over an array stopped early.
#[derive(Debug)]
pub enum ArrayError {
    /// The source ended where a non-whitespace byte was expected.
    UnexpectedEnd,
    /// A structural byte was expected and another one was found.
    MalformedInput(Malformed),
    /// The element's bytes are not one valid JSON value.
    ElementDecodeError(serde_json::Error),
}

/// What one step of the walk reports.
pub enum Outcome {
    /// An element decoded from the bytes `start..end` of the source
    /// (leading whitespace included).
    Element { start: nat, end: nat },
    /// End of the sequence.
    End,
    /// The source ended where a non-whitespace byte was expected.
    UnexpectedEnd,
    /// A structural byte was missing.
    Malformed(Malformed),
    /// The element decoder reported an error.
    DecodeFailed,
}

/// Decoding one element whose bytes begin at `a`, with the source read up to
/// `cur`: the outcome, the next phase and the next read position. The decoder
/// never reports a length outside the remaining bytes; such a length would
/// count as a failure.
pub open spec fn decode_at(s: Seq<u8>, a: nat, cur: nat) -> (Outcome, Phase, nat) {
    let rest = s.subrange(a as int, s.len() as int);
    if all_json_ws(rest) {
        (Outcome::UnexpectedEnd, Phase::Finished, cur)
    } else {
        match decoded_len(rest) {
            Some(n) => if 0 < n <= rest.len() {
                (Outcome::Element { start: a, end: a + n }, Phase::AwaitingElementOrEnd, a + n)
            } else {
                (Outcome::DecodeFailed, Phase::Finished, cur)
            },
            None => (Outcome::DecodeFailed, Phase::Finished, cur),
        }
    }
}

/// One step of the walk over source `s` from phase `ph` at read position `p`:
/// the outcome, the next phase and the next read position.
pub open spec fn step(s: Seq<u8>, ph: Phase, p: nat) -> (Outcome, Phase, nat) {
    match ph {
        Phase::Finished => (Outcome::End, Phase::Finished, p),
        Phase::NotStarted => {
            let q = skip_ws(s, p);
            if q >= s.len() {
                (Outcome::UnexpectedEnd, Phase::Finished, q)
            } else if s[q as int] == 0x5Bu8 {
                let r = skip_ws(s, q + 1);
                if r >= s.len() {
                    (Outcome::UnexpectedEnd, Phase::Finished, r)
                } else if s[r as int] == 0x5Du8 {
                    (Outcome::End, Phase::Finished, r + 1)
                } else {
                    decode_at(s, r, r + 1)
                }
            } else {
                (Outcome::Malformed(Malformed::MissingOpeningBracket), Phase::Finished, q + 1)
            }
        },
        Phase::AwaitingElementOrEnd => {
            let q = skip_ws(s, p);
            if q >= s.len() {
                (Outcome::UnexpectedEnd, Phase::Finished, q)
            } else if s[q as int] == 0x2Cu8 {
                decode_at(s, q + 1, q + 1)
            } else if s[q as int] == 0x5Du8 {
                (Outcome::End, Phase::Finished, q + 1)
            } else {
                (Outcome::Malformed(Malformed::ExpectedCommaOrClosingBracket), Phase::Finished, q + 1)
            }
        },
    }
}

/// The value that an `Element` outcome stands for.
pub open spec fn element_value(s: Seq<u8>, o: Outcome) -> serde_json::Value {
    match o {
        Outcome::Element { start, end } => decoded_value(s.subrange(start as int, s.len() as int)),
        _ => decoded_value(Seq::empty()),
    }
}

/// `r` is what `next` returns for outcome `o` on source `s`.
pub open spec fn reports(s: Seq<u8>, o: Outcome, r: Option<Result<serde_json::Value, ArrayError>>) -> bool {
    match o {
        Outcome::Element { .. } => r == Some(Ok::<serde_json::Value, ArrayError>(element_value(s, o))),
        Outcome::End => r is None,
        Outcome::UnexpectedEnd => r matches Some(Err(ArrayError::UnexpectedEnd)),
        Outcome::Malformed(m) => r matches Some(Err(ArrayError::MalformedInput(m2))) && m2 == m,
        Outcome::DecodeFailed => r matches Some(Err(ArrayError::ElementDecodeError(_))),
    }
}

/// A step that yields an element moves the read position forward, past the
/// element's bytes, and stays inside the source.
pub proof fn lemma_element_advances(s: Seq<u8>, ph: Phase, p: nat)
    requires
        p <= s.len(),
    ensures
        ({
            let (o, ph2, p2) = step(s, ph, p);
            o is Element ==> {
                &&& p <= o->start < o->end
                &&& o->end == p2
                &&& p < p2 <= s.len()
                &&& ph2 == Phase::AwaitingElementOrEnd
            }
        }),
{
    lemma_skip_ws(s, p);
    if skip_ws(s, p) < s.len() {
        lemma_skip_ws(s, skip_ws(s, p) + 1);
    }
}

#[via_fn]
proof fn walk_decreases(s: Seq<u8>, ph: Phase, p: nat) {
    if p <= s.len() {
        lemma_element_advances(s, ph, p);
    } else {
        assert(skip_ws(s, p) == s.len());
    }
}

/// Every outcome of a walk from phase `ph` at position `p`, up to and
/// including the first one that is not an element.
pub open spec fn walk(s: Seq<u8>, ph: Phase, p: nat) -> Seq<Outcome>
    decreases s.len() - p,
    via walk_decreases
{
    let (o, ph2, p2) = step(s, ph, p);
    if o is Element {
        seq![o] + walk(s, ph2, p2)
    } else {
        seq![o]
    }
}

/// The values that the element outcomes `outs` stand for, in order.
pub open spec fn element_values(s: Seq<u8>, outs: Seq<Outcome>) -> Seq<serde_json::Value> {
    outs.map_values(|o: Outcome| element_value(s, o))
}

/// A walk is a run of elements ended by one outcome that is not an element.
pub proof fn lemma_walk_shape(s: Seq<u8>, ph: Phase, p: nat)
    requires
        p <= s.len(),
    ensures
        walk(s, ph, p).len() >= 1,
        !(walk(s, ph, p).last() is Element),
        forall|i: int| 0 <= i < walk(s, ph, p).len() - 1 ==> #[trigger] walk(s, ph, p)[i] is Element,
    decreases s.len() - p,
{
    lemma_element_advances(s, ph, p);
    let (o, ph2, p2) = step(s, ph, p);
    if o is Element {
        lemma_walk_shape(s, ph2, p2);
        let w = walk(s, ph2, p2);
        assert(walk(s, ph, p) == seq![o] + w);
        assert forall|i: int| 0 <= i < walk(s, ph, p).len() - 1 implies #[trigger] walk(s, ph, p)[i] is Element by {
            if i > 0 {
                assert(walk(s, ph, p)[i] == w[i - 1]);
            }
        }
    }
}

/// Walks the whole array in `bytes` and gathers its elements in order; the
/// first error ends the walk and is returned.
pub fn collect_elements(bytes: Vec<u8>) -> (r: Result<Vec<serde_json::Value>, ArrayError>)
    ensures
        ({
            let w = walk(bytes@, Phase::NotStarted, 0);
            match r {
                Ok(vs) => w.last() is End && vs@ == element_values(bytes@, w.drop_last()),
                Err(e) => reports(bytes@, w.last(), Some(Err(e))),
            }
        }),
{
    let ghost s = bytes@;
    let mut walker = iter_json_array(bytes);
    let mut out: Vec<serde_json::Value> = Vec::new();
    let ghost mut seen: Seq<Outcome> = Seq::empty();
    assert(walk(s, Phase::NotStarted, 0) == seen + walk(s, walker.phase(), walker.position()));
    loop
        invariant
            walker.wf(),
            walker.source() == s,
            s == bytes@,
            walk(s, Phase::NotStarted, 0) == seen + walk(s, walker.phase(), walker.position()),
            out@ == element_values(s, seen),
        decreases s.len() - walker.position(),
    {
        let ghost ph = walker.phase();
        let ghost p = walker.position();
        proof {
            walker.lemma_position_bounded();
            lemma_element_advances(s, ph, p);
        }
        let ghost o = step(s, ph, p).0;
        let ghost rest = walk(s, ph, p);
        match walker.next() {
            None => {
                assert(rest == seq![o]);
                assert((seen + rest).drop_last() =~= seen);
                assert((seen + rest).last() == o);
                return Ok(out);
            },
            Some(Err(e)) => {
                assert(rest == seq![o]);
                assert((seen + rest).last() == o);
                return Err(e);
            },
            Some(Ok(v)) => {
                out.push(v);
                proof {
                    let tail = walk(s, walker.phase(), walker.position());
                    assert(rest == seq![o] + tail);
                    assert(seen + rest =~= seen.push(o) + tail);
                    assert(element_values(s, seen.push(o)) =~= element_values(s, seen).push(element_value(s, o)));
                    seen = seen.push(o);
                }
            },
        }
    }
}

/// A lazy, forward-only walk over the elements of one JSON array.
pub struct ArrayWalker {
    cursor: ByteCursor,
    phase: Phase,
}

/// Starts a walk over the JSON array held in `bytes`.
pub fn iter_json_array(bytes: Vec<u8>) -> (r: ArrayWalker)
    ensures
        r.wf(),
        r.source() == bytes@,
        r.phase() == Phase::NotStarted,
        r.position() == 0,
{
    ArrayWalker { cursor: ByteCursor::new(bytes), phase: Phase::NotStarted }
}

impl ArrayWalker {
    /// The bytes of the source.
    pub closed spec fn source(&self) -> Seq<u8> {
        self.cursor.source()
    }

    /// How many bytes of the source have been read.
    pub closed spec fn position(&self) -> nat {
        self.cursor.position()
    }

    pub closed spec fn phase(&self) -> Phase {
        self.phase
    }

    pub closed spec fn wf(&self) -> bool {
        self.cursor.wf()
    }

    /// The phase the walker is in.
    pub fn current_phase(&self) -> (r: Phase)
        ensures
            r == self.phase(),
    {
        self.phase
    }

    /// How many bytes of the source have been read.
    pub fn bytes_read(&self) -> (r: usize)
        ensures
            r == self.position(),
    {
        self.cursor.pos()
    }

    /// A well-formed walker has read no further than the end of its source.
    pub proof fn lemma_position_bounded(&self)
        requires
            self.wf(),
        ensures
            self.position() <= self.source().len(),
    {
        self.cursor.lemma_position_bounded();
    }

    /// Decodes the element whose bytes begin at `start`.
    fn decode_element(&mut self, start: usize) -> (r: Option<Result<serde_json::Value, ArrayError>>)
        requires
            old(self).wf(),
            start <= old(self).position() <= start + 1,
            old(self).position() <= old(self).source().len(),
        ensures
            final(self).wf(),
            final(self).source() == old(self).source(),
            ({
                let (o, ph, p) = decode_at(old(self).source(), start as nat, old(self).position());
                &&& final(self).phase() == ph
                &&& final(self).position() == p
                &&& reports(old(self).source(), o, r)
            }),
    {
        // Bounds the end of a decoded element, which fits in the source.
        let len = self.cursor.bytes().len();
        match decode_first_value(self.cursor.bytes(), start) {
            None => {
                self.phase = Phase::Finished;
                Some(Err(ArrayError::UnexpectedEnd))
            },
            Some(Err(e)) => {
                self.phase = Phase::Finished;
                Some(Err(ArrayError::ElementDecodeError(e)))
            },
            Some(Ok((v, n))) => {
                proof {
                    self.cursor.lemma_position_bounded();
                    assert(start + n <= len);
                }
                self.cursor.advance_to(start + n);
                self.phase = Phase::AwaitingElementOrEnd;
                Some(Ok(v))
            },
        }
    }

    /// The next element of the array: `Some(Ok(..))` for an element, `None`
    /// at the end of the sequence, `Some(Err(..))` for the one error that
    /// ends it. After the end or an error every call returns `None`.
    pub fn next(&mut self) -> (r: Option<Result<serde_json::Value, ArrayError>>)
        requires
            old(self).wf(),
        ensures
            final(self).wf(),
            final(self).source() == old(self).source(),
            ({
                let (o, ph, p) = step(old(self).source(), old(self).phase(), old(self).position());
                &&& final(self).phase() == ph
                &&& final(self).position() == p
                &&& reports(old(self).source(), o, r)
            }),
    {
        proof {
            self.lemma_position_bounded();
            lemma_skip_ws(self.source(), self.position());
        }
        match self.phase {
            Phase::Finished => None,
            Phase::NotStarted => {
                self.phase = Phase::Finished;
                match self.cursor.read_skipping_whitespace() {
                    None => Some(Err(ArrayError::UnexpectedEnd)),
                    Some(b) => {
                        if b == 0x5Bu8 {
                            proof {
                                lemma_skip_ws(self.source(), self.position());
                            }
                            match self.cursor.read_skipping_whitespace() {
                                None => Some(Err(ArrayError::UnexpectedEnd)),
                                Some(peek) => {
                                    if peek == 0x5Du8 {
                                        None
                                    } else {
                                        // The element begins with the byte just peeked:
                                        // decoding from there is decoding that byte
                                        // followed by the rest of the source.
                                        let start = self.cursor.pos() - 1;
                                        self.decode_element(start)
                                    }
                                },
                            }
                        } else {
                            Some(Err(ArrayError::MalformedInput(Malformed::MissingOpeningBracket)))
                        }
                    },
                }
            },
            Phase::AwaitingElementOrEnd => {
                self.phase = Phase::Finished;
                match self.cursor.read_skipping_whitespace() {
                    None => Some(Err(ArrayError::UnexpectedEnd)),
                    Some(b) => {
                        if b == 0x2Cu8 {
                            let start = self.cursor.pos();
                            self.decode_element(start)
                        } else if b == 0x5Du8 {
                            None
                        } else {
                            Some(Err(ArrayError::MalformedInput(Malformed::ExpectedCommaOrClosingBracket)))
                        }
                    },
                }
            },
        }
    }
}

} // verus!
