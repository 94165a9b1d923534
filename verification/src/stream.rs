//! The abstract input source and output sink that the input parser and the
//! menu loop read from and write to. A source holds the lines still to be
//! read; a sink records each chunk of text written to it, in order.
use vstd::prelude::*;

use crate::text::newline;

verus! {

/// An input source: a sequence of lines, read front to back.
pub struct LineSource {
    pub lines: Vec<String>,
    pub pos: usize,
}

impl LineSource {
    pub open spec fn wf(self) -> bool {
        self.pos <= self.lines.len()
    }

    pub open spec fn all_lines(self) -> Seq<Seq<char>> {
        self.lines.deep_view()
    }

    /// The lines not yet read.
    pub open spec fn remaining(self) -> Seq<Seq<char>> {
        self.all_lines().subrange(self.pos as int, self.all_lines().len() as int)
    }

    pub fn new(lines: Vec<String>) -> (r: LineSource)
        ensures
            r.wf(),
            r.remaining() == lines.deep_view(),
    {
        let r = LineSource { lines, pos: 0 };
        proof {
            assert(r.remaining() =~= r.lines.deep_view());
        }
        r
    }

    /// Reads the next line, if one is left.
    pub fn next_line(&mut self) -> (r: Option<String>)
        requires
            old(self).wf(),
        ensures
            final(self).wf(),
            final(self).all_lines() == old(self).all_lines(),
            old(self).remaining().len() == 0 ==> r is None && *final(self) == *old(self),
            old(self).remaining().len() > 0 ==> r is Some && r->0@ == old(self).remaining()[0]
                && final(self).pos == old(self).pos + 1,
    {
        if self.pos < self.lines.len() {
            let l = self.lines[self.pos].clone();
            self.pos = self.pos + 1;
            Some(l)
        } else {
            None
        }
    }
}

/// An output sink: the chunks of text written to it, in order.
pub struct OutputSink {
    pub chunks: Vec<String>,
}

/// The whole text a sink holds, chunks joined in order.
pub open spec fn concat_chunks(cs: Seq<Seq<char>>) -> Seq<char>
    decreases cs.len(),
{
    if cs.len() == 0 {
        Seq::empty()
    } else {
        concat_chunks(cs.drop_last()) + cs.last()
    }
}

impl OutputSink {
    /// The chunks written so far.
    pub open spec fn out(self) -> Seq<Seq<char>> {
        self.chunks.deep_view()
    }

    pub fn new() -> (r: OutputSink)
        ensures
            r.out() == Seq::<Seq<char>>::empty(),
    {
        let r = OutputSink { chunks: Vec::new() };
        proof {
            assert(r.out() =~= Seq::<Seq<char>>::empty());
        }
        r
    }

    /// Writes `s` followed by a line terminator, as one chunk.
    pub fn write_line(&mut self, s: &str)
        ensures
            final(self).out() == old(self).out().push(s@ + newline()),
    {
        let mut chunk = s.to_owned();
        chunk.append("\n");
        proof {
            reveal_strlit("\n");
            assert(chunk@ =~= s@ + newline());
        }
        self.chunks.push(chunk);
        proof {
            assert(self.out() =~= old(self).out().push(s@ + newline()));
        }
    }

    /// The sink's whole text as one string, for callers that compare output.
    pub fn concat_output(&self) -> (r: String)
        ensures
            r@ == concat_chunks(self.out()),
    {
        let mut r = String::new();
        let mut i: usize = 0;
        while i < self.chunks.len()
            invariant
                i <= self.chunks.len(),
                r@ == concat_chunks(self.out().subrange(0, i as int)),
            decreases self.chunks.len() - i,
        {
            r.append(self.chunks[i].as_str());
            proof {
                let t = self.out().subrange(0, i + 1);
                assert(t.drop_last() =~= self.out().subrange(0, i as int));
                assert(t.last() == self.out()[i as int]);
            }
            i += 1;
        }
        proof {
            assert(self.out().subrange(0, self.out().len() as int) =~= self.out());
        }
        r
    }
}

} // verus!
