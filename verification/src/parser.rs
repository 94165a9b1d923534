//! The input parser: reads lines from a source until one parses as the
//! target type, writing the prompt before every attempt and an error line
//! after every failure.
use vstd::prelude::*;

use crate::parse::ParseFromText;
use crate::stream::{LineSource, OutputSink};
use crate::text::{newline, trim, trim_spec};

verus! {

/// The error line written after a failed parse attempt.
pub open spec fn invalid_line() -> Seq<char> {
    "Invalid input."@ + newline()
}

/// Index of the first line at or after `pos` that parses as `T` once
/// trimmed (`lines.len()` if there is none).
pub open spec fn first_parse_at<T: ParseFromText>(lines: Seq<Seq<char>>, pos: int) -> int
    decreases lines.len() - pos,
    when 0 <= pos <= lines.len()
{
    if pos >= lines.len() {
        pos
    } else if T::parse_spec(trim_spec(lines[pos])) is Some {
        pos
    } else {
        first_parse_at::<T>(lines, pos + 1)
    }
}

pub proof fn lemma_first_parse_at<T: ParseFromText>(lines: Seq<Seq<char>>, pos: int)
    requires
        0 <= pos <= lines.len(),
    ensures
        pos <= first_parse_at::<T>(lines, pos) <= lines.len(),
        first_parse_at::<T>(lines, pos) < lines.len() ==> T::parse_spec(
            trim_spec(lines[first_parse_at::<T>(lines, pos)]),
        ) is Some,
        forall|j: int|
            pos <= j < first_parse_at::<T>(lines, pos) ==> T::parse_spec(
                trim_spec(lines[j]),
            ) is None,
    decreases lines.len() - pos,
{
    if pos < lines.len() && T::parse_spec(trim_spec(lines[pos])) is None {
        lemma_first_parse_at::<T>(lines, pos + 1);
    }
}

/// Everything the parser writes while failing `fails` times and then
/// succeeding: the prompt, then an error line and the prompt again for
/// each failure, ending with the prompt of the successful attempt.
pub open spec fn retry_transcript(prompt: Seq<char>, fails: nat) -> Seq<Seq<char>>
    decreases fails,
{
    if fails == 0 {
        seq![prompt + newline()]
    } else {
        seq![prompt + newline(), invalid_line()] + retry_transcript(prompt, (fails - 1) as nat)
    }
}

/// A first line that parses costs exactly one prompt and no error line.
pub proof fn lemma_parse_first_try<T: ParseFromText>(lines: Seq<Seq<char>>, prompt: Seq<char>)
    requires
        lines.len() > 0,
        T::parse_spec(trim_spec(lines[0])) is Some,
    ensures
        first_parse_at::<T>(lines, 0) == 0,
        retry_transcript(prompt, 0) =~= seq![prompt + newline()],
{
}

/// Writes the prompt, reads a line, and returns its parsed value, retrying
/// with an error line on every line that does not parse. The input must
/// hold a parseable line: reading past the end of the source is a fault
/// this library's callers rule out up front.
pub fn parse_std_in<T: ParseFromText>(source: &mut LineSource, sink: &mut OutputSink, prompt: &str) -> (r: T)
    requires
        old(source).wf(),
        first_parse_at::<T>(old(source).remaining(), 0) < old(source).remaining().len(),
    ensures
        ({
            let rem = old(source).remaining();
            let j = first_parse_at::<T>(rem, 0);
            &&& final(source).wf()
            &&& final(source).all_lines() == old(source).all_lines()
            &&& final(source).pos == old(source).pos + j + 1
            &&& Some(r) == T::parse_spec(trim_spec(rem[j]))
            &&& final(sink).out() == old(sink).out() + retry_transcript(prompt@, j as nat)
        }),
{
    let ghost rem0 = old(source).remaining();
    let ghost j0 = first_parse_at::<T>(rem0, 0);
    proof {
        lemma_first_parse_at::<T>(rem0, 0);
    }
    loop
        invariant
            source.wf(),
            source.all_lines() == old(source).all_lines(),
            rem0 == old(source).remaining(),
            j0 == first_parse_at::<T>(rem0, 0),
            0 <= j0 < rem0.len(),
            T::parse_spec(trim_spec(rem0[j0])) is Some,
            forall|j: int| 0 <= j < j0 ==> T::parse_spec(trim_spec(rem0[j])) is None,
            old(source).pos <= source.pos <= old(source).pos + j0,
            old(sink).out() + retry_transcript(prompt@, j0 as nat) == sink.out()
                + retry_transcript(prompt@, (j0 - (source.pos - old(source).pos)) as nat),
        decreases j0 - (source.pos - old(source).pos),
    {
        let ghost t = source.pos - old(source).pos;
        proof {
            assert(source.remaining() =~= rem0.subrange(t, rem0.len() as int));
        }
        sink.write_line(prompt);
        let line = match source.next_line() {
            Some(l) => l,
            None => {
                proof {
                    assert(source.remaining()[0] == rem0[t]);
                }
                vstd::pervasive::unreached()
            },
        };
        proof {
            assert(line@ == rem0[t]);
        }
        match T::parse_text(trim(line.as_str())) {
            Some(v) => {
                proof {
                    // this line parses, so it is the first that does
                    assert(t == j0);
                    assert(retry_transcript(prompt@, 0) =~= seq![prompt@ + newline()]);
                    assert(sink.out() =~= old(sink).out() + retry_transcript(prompt@, j0 as nat));
                }
                return v;
            },
            None => {
                proof {
                    assert(t < j0);
                }
                sink.write_line("Invalid input.");
                proof {
                    let rest = retry_transcript(prompt@, (j0 - t - 1) as nat);
                    assert(retry_transcript(prompt@, (j0 - t) as nat) =~= seq![
                        prompt@ + newline(),
                        invalid_line(),
                    ] + rest);
                    assert(sink.out() + rest =~= old(sink).out() + retry_transcript(
                        prompt@,
                        j0 as nat,
                    ));
                }
            },
        }
    }
}

} // verus!
