use vstd::prelude::*;

verus! {

/// ASCII whitespace as `u8::is_ascii_whitespace` defines it:
/// space, tab, line feed, form feed and carriage return.
pub open spec fn is_ascii_ws(b: u8) -> bool {
    b == 0x20u8 || b == 0x09u8 || b == 0x0Au8 || b == 0x0Cu8 || b == 0x0Du8
}

/// First position at or after `p` whose byte is not ASCII whitespace,
/// or `s.len()` when only whitespace remains.
pub open spec fn skip_ws(s: Seq<u8>, p: nat) -> nat
    decreases s.len() - p,
{
    if p >= s.len() {
        s.len()
    } else if is_ascii_ws(s[p as int]) {
        skip_ws(s, p + 1)
    } else {
        p
    }
}

/// `skip_ws` lands inside the input (or at its end), never before `p`,
/// and passes over whitespace only.
pub proof fn lemma_skip_ws(s: Seq<u8>, p: nat)
    requires
        p <= s.len(),
    ensures
        p <= skip_ws(s, p) <= s.len(),
        skip_ws(s, p) < s.len() ==> !is_ascii_ws(s[skip_ws(s, p) as int]),
        forall|i: int| p <= i < skip_ws(s, p) ==> is_ascii_ws(#[trigger] s[i]),
    decreases s.len() - p,
{
    if p < s.len() && is_ascii_ws(s[p as int]) {
        lemma_skip_ws(s, p + 1);
    }
}

/// Whether `b` is ASCII whitespace.
pub fn is_ascii_whitespace(b: u8) -> (r: bool)
    ensures
        r == is_ascii_ws(b),
{
    b == 0x20u8 || b == 0x09u8 || b == 0x0Au8 || b == 0x0Cu8 || b == 0x0Du8
}

/// Forward-only reader over a byte source held in memory.
pub struct ByteCursor {
    bytes: Vec<u8>,
    pos: usize,
}

impl ByteCursor {
    /// The bytes of the source.
    pub closed spec fn source(&self) -> Seq<u8> {
        self.bytes@
    }

    /// The read position: how many bytes have been consumed.
    pub closed spec fn position(&self) -> nat {
        self.pos as nat
    }

    pub closed spec fn wf(&self) -> bool {
        self.pos <= self.bytes.len()
    }

    /// A well-formed cursor stands inside its source or at its end.
    pub proof fn lemma_position_bounded(&self)
        requires
            self.wf(),
        ensures
            self.position() <= self.source().len(),
    {
    }

    /// A cursor at the start of `bytes`.
    pub fn new(bytes: Vec<u8>) -> (r: ByteCursor)
        ensures
            r.wf(),
            r.source() == bytes@,
            r.position() == 0,
    {
        ByteCursor { bytes, pos: 0 }
    }

    /// The read position.
    pub fn pos(&self) -> (r: usize)
        ensures
            r == self.position(),
    {
        self.pos
    }

    /// The bytes of the source.
    pub fn bytes(&self) -> (r: &Vec<u8>)
        ensures
            r@ == self.source(),
    {
        &self.bytes
    }

    /// Reads bytes, discarding ASCII whitespace, and returns the first other
    /// byte; `None` when the source ends first. The cursor then stands just
    /// past the byte returned, or at the end.
    pub fn read_skipping_whitespace(&mut self) -> (r: Option<u8>)
        requires
            old(self).wf(),
        ensures
            final(self).wf(),
            final(self).source() == old(self).source(),
            ({
                let s = old(self).source();
                let q = skip_ws(s, old(self).position());
                if q < s.len() {
                    r == Some(s[q as int]) && final(self).position() == q + 1
                } else {
                    r is None && final(self).position() == s.len()
                }
            }),
    {
        let n = self.bytes.len();
        while self.pos < n
            invariant
                self.wf(),
                n == self.bytes.len(),
                self.bytes@ == old(self).bytes@,
                old(self).pos <= self.pos,
                skip_ws(self.bytes@, self.pos as nat) == skip_ws(old(self).bytes@, old(self).pos as nat),
            decreases n - self.pos,
        {
            let b = self.bytes[self.pos];
            self.pos = self.pos + 1;
            if !is_ascii_whitespace(b) {
                return Some(b);
            }
        }
        None
    }

    /// Moves the cursor to `p`, a position not before the current one.
    pub fn advance_to(&mut self, p: usize)
        requires
            old(self).wf(),
            old(self).position() <= p <= old(self).source().len(),
        ensures
            final(self).wf(),
            final(self).source() == old(self).source(),
            final(self).position() == p,
    {
        self.pos = p;
    }
}

} // verus!
