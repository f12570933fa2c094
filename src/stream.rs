//! Splitting a streamed, newline-delimited response body into lines.

use vstd::prelude::*;

verus! {

/// The byte that ends each line of a streamed body.
pub const NEWLINE: u8 = 10;

/// Lines written back out, each followed by a newline.
pub open spec fn framed(lines: Seq<Seq<u8>>) -> Seq<u8>
    decreases lines.len(),
{
    if lines.len() == 0 {
        Seq::empty()
    } else {
        framed(lines.drop_last()) + lines.last() + seq![NEWLINE]
    }
}

/// The byte views of a list of lines.
pub open spec fn line_views(lines: Seq<Vec<u8>>) -> Seq<Seq<u8>> {
    lines.map_values(|l: Vec<u8>| l@)
}

/// Whether `s` holds no newline.
pub open spec fn no_newline(s: Seq<u8>) -> bool {
    forall|k: int| 0 <= k < s.len() ==> s[k] != NEWLINE
}

/// Splits a streamed response body into lines as its pieces arrive. A line
/// may span pieces; what follows the last newline waits for the next piece.
#[derive(Debug)]
pub struct LineBuffer {
    pending: Vec<u8>,
}

impl LineBuffer {
    /// The bytes received after the last newline.
    pub closed spec fn pending(&self) -> Seq<u8> {
        self.pending@
    }

    pub open spec fn wf(&self) -> bool {
        no_newline(self.pending())
    }

    pub fn new() -> (r: LineBuffer)
        ensures
            r.wf(),
            r.pending().len() == 0,
    {
        LineBuffer { pending: Vec::new() }
    }

    /// Takes the next piece of the body and returns the lines it completes,
    /// in order, without their newlines.
    pub fn push(&mut self, chunk: &[u8]) -> (r: Vec<Vec<u8>>)
        requires
            old(self).wf(),
        ensures
            final(self).wf(),
            framed(line_views(r@)) + final(self).pending() == old(self).pending() + chunk@,
            forall|k: int| 0 <= k < r@.len() ==> no_newline(#[trigger] r@[k]@),
    {
        let mut lines: Vec<Vec<u8>> = Vec::new();
        let mut i: usize = 0;
        assert(chunk@.subrange(0, 0) =~= Seq::<u8>::empty());
        assert(framed(line_views(lines@)) + self.pending@ =~= old(self).pending@ + chunk@.subrange(
            0,
            0,
        ));
        while i < chunk.len()
            invariant
                i <= chunk@.len(),
                no_newline(self.pending@),
                forall|k: int| 0 <= k < lines@.len() ==> no_newline(#[trigger] lines@[k]@),
                framed(line_views(lines@)) + self.pending@ == old(self).pending@ + chunk@.subrange(
                    0,
                    i as int,
                ),
            decreases chunk@.len() - i,
        {
            let b = chunk[i];
            let ghost before_lines = lines@;
            let ghost before_pending = self.pending@;
            if b == NEWLINE {
                let mut line: Vec<u8> = Vec::new();
                std::mem::swap(&mut line, &mut self.pending);
                lines.push(line);
                assert(line_views(lines@).drop_last() =~= line_views(before_lines));
                assert(framed(line_views(lines@)) == framed(line_views(before_lines)) + before_pending
                    + seq![NEWLINE]);
            } else {
                self.pending.push(b);
            }
            assert(chunk@.subrange(0, i + 1) =~= chunk@.subrange(0, i as int).push(b));
            assert(framed(line_views(lines@)) + self.pending@ =~= framed(line_views(before_lines))
                + before_pending + seq![b]);
            i = i + 1;
        }
        assert(chunk@.subrange(0, i as int) =~= chunk@);
        lines
    }

    /// Ends the body: returns the unterminated last line, if any, and
    /// empties the buffer.
    pub fn finish(&mut self) -> (r: Option<Vec<u8>>)
        requires
            old(self).wf(),
        ensures
            final(self).wf(),
            final(self).pending().len() == 0,
            old(self).pending().len() == 0 ==> r is None,
            old(self).pending().len() > 0 ==> (r matches Some(l) && l@ == old(self).pending()),
    {
        if self.pending.len() == 0 {
            return None;
        }
        let mut line: Vec<u8> = Vec::new();
        std::mem::swap(&mut line, &mut self.pending);
        Some(line)
    }
}

} // verus!
