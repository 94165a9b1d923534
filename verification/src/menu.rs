//! The menu: an ordered list of labeled actions plus a terminal exit
//! entry, rendered as a numbered prompt and driven by a run loop that
//! dispatches on the selection the input parser returns.
use vstd::prelude::*;

use crate::parse::ParseFromText;
use crate::parser::{
    first_parse_at, invalid_line, lemma_first_parse_at, parse_std_in, retry_transcript,
};
use crate::stream::{LineSource, OutputSink};
use crate::text::{
    count_char, dec_digits, lemma_count_char_absent, lemma_count_char_concat,
    lemma_dec_digits_no_newline, newline, render_usize, trim_spec,
};

verus! {

/// Whether a menu is the top level of a program or nested under another:
/// the kind decides whether the terminal entry reads "Quit" or "Back".
#[derive(Clone, Copy, Debug, PartialEq, Eq, Structural)]
pub enum MenuType {
    Main,
    Sub,
}

/// The label of the terminal exit entry.
pub open spec fn exit_label_spec(t: MenuType) -> Seq<char> {
    match t {
        MenuType::Main => "Quit"@,
        MenuType::Sub => "Back"@,
    }
}

impl MenuType {
    /// The label printed when the menu's terminal entry is selected.
    pub fn bye_msg(&self) -> (r: String)
        ensures
            r@ == exit_label_spec(*self),
    {
        match *self {
            MenuType::Main => "Quit".to_owned(),
            MenuType::Sub => "Back".to_owned(),
        }
    }
}

/// A labeled menu entry bound to a zero-argument action.
#[derive(Clone, Debug)]
pub struct CliOption<A> {
    pub text: String,
    pub func: A,
}

impl<A> CliOption<A> {
    /// Builds an entry from a `(label, action)` pair.
    pub fn new(cli_option: (&str, A)) -> (r: CliOption<A>)
        ensures
            r.text@ == cli_option.0@,
            r.func == cli_option.1,
    {
        CliOption { text: cli_option.0.to_owned(), func: cli_option.1 }
    }
}

/// A named, ordered list of options with a terminal entry kind.
#[derive(Clone, Debug)]
pub struct Menu<A> {
    pub name: String,
    pub options: Vec<CliOption<A>>,
    pub menu_type: MenuType,
}

/// One numbered option line of the prompt, `i` counting from 1.
pub open spec fn option_line(i: nat, label: Seq<char>) -> Seq<char> {
    seq!['\t'] + dec_digits(i) + seq![')', ' '] + label + newline()
}

/// The first `upto` numbered option lines, joined.
pub open spec fn options_block(labels: Seq<Seq<char>>, upto: int) -> Seq<char>
    decreases upto,
    when 0 <= upto <= labels.len()
{
    if upto <= 0 {
        Seq::empty()
    } else {
        options_block(labels, upto - 1) + option_line(upto as nat, labels[upto - 1])
    }
}

/// The final prompt line: the numbered terminal exit entry, without a
/// trailing newline.
pub open spec fn exit_entry_line(k: nat, t: MenuType) -> Seq<char> {
    seq!['\t'] + dec_digits(k + 1) + seq![')', ' '] + exit_label_spec(t)
}

/// The whole prompt: one line per option, numbered from 1, then the
/// terminal exit entry numbered `k + 1`.
pub open spec fn menu_prompt(labels: Seq<Seq<char>>, t: MenuType) -> Seq<char> {
    options_block(labels, labels.len() as int) + exit_entry_line(labels.len(), t)
}

/// What the menu loop does with one parsed selection.
#[derive(Clone, Copy, Debug, PartialEq, Eq, Structural)]
pub enum Dispatch {
    /// Invoke the action of the option at this 0-based position.
    Action(usize),
    /// Print the exit label and stop.
    Exit,
    /// Print the invalid-input line and ask again.
    Invalid,
}

/// Classification of a selection against `k` options: positions `1..=k`
/// invoke, `k + 1` exits, everything else is invalid.
pub open spec fn dispatch_spec(k: int, choice: int) -> Dispatch {
    if 1 <= choice <= k {
        Dispatch::Action((choice - 1) as usize)
    } else if choice == k + 1 {
        Dispatch::Exit
    } else {
        Dispatch::Invalid
    }
}

impl<A> Menu<A> {
    /// The option labels, in display order.
    pub open spec fn labels(self) -> Seq<Seq<char>> {
        self.options@.map_values(|o: CliOption<A>| o.text@)
    }

    /// Rebuilds the prompt exactly as one loop iteration shows it.
    pub fn build_prompt(&self) -> (r: String)
        requires
            self.options.len() < usize::MAX,
        ensures
            r@ == menu_prompt(self.labels(), self.menu_type),
    {
        let mut prompt = String::new();
        let mut i: usize = 0;
        proof {
            reveal_strlit("\t");
            reveal_strlit(") ");
            reveal_strlit("\n");
        }
        while i < self.options.len()
            invariant
                i <= self.options.len(),
                self.options.len() < usize::MAX,
                prompt@ == options_block(self.labels(), i as int),
                "\t"@ =~= seq!['\t'],
                ") "@ =~= seq![')', ' '],
                "\n"@ =~= seq!['\n'],
            decreases self.options.len() - i,
        {
            prompt.append("\t");
            let number = render_usize(i + 1);
            prompt.append(number.as_str());
            prompt.append(") ");
            prompt.append(self.options[i].text.as_str());
            prompt.append("\n");
            proof {
                assert(prompt@ =~= options_block(self.labels(), i as int) + option_line(
                    (i + 1) as nat,
                    self.labels()[i as int],
                ));
            }
            i += 1;
        }
        prompt.append("\t");
        let number = render_usize(self.options.len() + 1);
        prompt.append(number.as_str());
        prompt.append(") ");
        let bye = self.menu_type.bye_msg();
        prompt.append(bye.as_str());
        proof {
            assert(prompt@ =~= menu_prompt(self.labels(), self.menu_type));
        }
        prompt
    }

    /// Classifies a parsed selection without running anything.
    pub fn select(&self, choice: usize) -> (d: Dispatch)
        requires
            self.options.len() < usize::MAX,
        ensures
            d == dispatch_spec(self.options.len() as int, choice as int),
    {
        if choice > 0 && choice <= self.options.len() {
            Dispatch::Action(choice - 1)
        } else if choice == self.options.len() + 1 {
            Dispatch::Exit
        } else {
            Dispatch::Invalid
        }
    }

    /// Returns a copy of this menu whose option list is replaced wholesale
    /// by entries built from the given `(label, action)` pairs; the name
    /// and the kind are kept, and the receiver is untouched.
    pub fn with_options(&self, options: Vec<(&str, A)>) -> (r: Self)
        ensures
            r.name@ == self.name@,
            r.menu_type == self.menu_type,
            r.options.len() == options.len(),
            forall|i: int|
                0 <= i < options@.len() ==> r.labels()[i] == options@[i].0@ && r.options@[i].func
                    == options@[i].1,
    {
        let mut rest = options;
        let mut built: Vec<CliOption<A>> = Vec::new();
        let ghost given = rest@;
        while rest.len() > 0
            invariant
                built.len() + rest.len() == given.len(),
                rest@ == given.subrange(built.len() as int, given.len() as int),
                forall|i: int|
                    0 <= i < built.len() ==> built@[i].text@ == given[i].0@ && built@[i].func
                        == given[i].1,
            decreases rest.len(),
        {
            let pair = rest.remove(0);
            proof {
                assert(given.subrange(built.len() as int, given.len() as int)[0] == given[built.len() as int]);
            }
            built.push(CliOption::new(pair));
            proof {
                assert(rest@ =~= given.subrange(built.len() as int, given.len() as int));
            }
        }
        let r = Menu { name: self.name.clone(), options: built, menu_type: self.menu_type };
        proof {
            assert(forall|i: int|
                0 <= i < given.len() ==> r.labels()[i] == given[i].0@ && r.options@[i].func
                    == given[i].1);
        }
        r
    }
}

/// What one whole `run` does after printing its header, as a function of
/// the input lines from position `pos` on: the chunks written, the 0-based
/// option positions invoked in order, the number of lines consumed, and
/// whether the terminal entry was reached before the input ran out.
pub struct Session {
    pub outputs: Seq<Seq<char>>,
    pub invoked: Seq<int>,
    pub used: int,
    pub done: bool,
}

/// One menu loop, played over the input lines: each round lets the input
/// parser find the next line that parses as a selection, then dispatches
/// it as `dispatch_spec` says.
pub open spec fn run_session(
    labels: Seq<Seq<char>>,
    t: MenuType,
    lines: Seq<Seq<char>>,
    pos: int,
) -> Session
    decreases lines.len() - pos,
    when 0 <= pos <= lines.len()
    via run_session_decreases
{
    let k = labels.len() as int;
    let prompt = menu_prompt(labels, t);
    let j = first_parse_at::<usize>(lines, pos);
    if j >= lines.len() {
        Session { outputs: Seq::empty(), invoked: Seq::empty(), used: lines.len() - pos, done: false }
    } else {
        let s = <usize as ParseFromText>::parse_spec(trim_spec(lines[j]))->0 as int;
        let head = retry_transcript(prompt, (j - pos) as nat);
        if dispatch_spec(k, s) is Action {
            let rest = run_session(labels, t, lines, j + 1);
            Session {
                outputs: head + rest.outputs,
                invoked: seq![s - 1] + rest.invoked,
                used: j + 1 - pos + rest.used,
                done: rest.done,
            }
        } else if dispatch_spec(k, s) is Exit {
            Session {
                outputs: head.push(exit_label_spec(t) + newline()),
                invoked: Seq::empty(),
                used: j + 1 - pos,
                done: true,
            }
        } else {
            Session {
                outputs: head.push(invalid_line()) + run_session(labels, t, lines, j + 1).outputs,
                invoked: run_session(labels, t, lines, j + 1).invoked,
                used: j + 1 - pos + run_session(labels, t, lines, j + 1).used,
                done: run_session(labels, t, lines, j + 1).done,
            }
        }
    }
}

#[via_fn]
proof fn run_session_decreases(labels: Seq<Seq<char>>, t: MenuType, lines: Seq<Seq<char>>, pos: int) {
    lemma_first_parse_at::<usize>(lines, pos);
}

/// Looking for the first parseable line in a suffix finds the same line as
/// looking in the whole, shifted by where the suffix starts.
pub proof fn lemma_first_parse_shift<T: ParseFromText>(lines: Seq<Seq<char>>, pos: int, i: int)
    requires
        0 <= pos <= lines.len(),
        0 <= i <= lines.len() - pos,
    ensures
        first_parse_at::<T>(lines.subrange(pos, lines.len() as int), i) == first_parse_at::<T>(
            lines,
            pos + i,
        ) - pos,
    decreases lines.len() - pos - i,
{
    let suffix = lines.subrange(pos, lines.len() as int);
    if i < suffix.len() {
        assert(suffix[i] == lines[pos + i]);
        if T::parse_spec(trim_spec(lines[pos + i])) is None {
            lemma_first_parse_shift::<T>(lines, pos, i + 1);
        }
    }
}

impl<A: Fn()> Menu<A> {
    /// Runs the menu: prints the name once as a header, then repeatedly
    /// rebuilds the prompt, lets the input parser obtain a selection, and
    /// dispatches it — invoking the chosen option's action, or printing
    /// the exit label and stopping, or printing the invalid-input line —
    /// exactly as `run_session` plays it. Returns the 0-based positions
    /// whose actions were invoked, in order. The input must reach the
    /// terminal entry: a session that would exhaust its source instead is
    /// the fatal condition callers rule out up front.
    pub fn run(&self, source: &mut LineSource, sink: &mut OutputSink) -> (invoked: Vec<usize>)
        requires
            old(source).wf(),
            self.options.len() < usize::MAX,
            forall|i: int|
                0 <= i < self.options.len() ==> call_requires(#[trigger] self.options@[i].func, ()),
            run_session(self.labels(), self.menu_type, old(source).remaining(), 0).done,
        ensures
            ({
                let session = run_session(self.labels(), self.menu_type, old(source).remaining(), 0);
                &&& final(sink).out() == old(sink).out().push(self.name@ + newline())
                    + session.outputs
                &&& invoked@.map_values(|u: usize| u as int) == session.invoked
                &&& forall|i: int| 0 <= i < invoked.len() ==> invoked@[i] < self.options.len()
                &&& final(source).wf()
                &&& final(source).all_lines() == old(source).all_lines()
                &&& final(source).pos == old(source).pos + session.used
            }),
    {
        let ghost rem0 = old(source).remaining();
        let ghost labels = self.labels();
        let ghost full = run_session(labels, self.menu_type, rem0, 0);
        let mut invoked: Vec<usize> = Vec::new();
        sink.write_line(self.name.as_str());
        proof {
            assert(invoked@.map_values(|u: usize| u as int) =~= Seq::<int>::empty());
        }
        loop
            invariant
                source.wf(),
                source.all_lines() == old(source).all_lines(),
                rem0 == old(source).remaining(),
                labels == self.labels(),
                full == run_session(labels, self.menu_type, rem0, 0),
                self.options.len() < usize::MAX,
                forall|i: int|
                    0 <= i < self.options.len() ==> call_requires(
                        #[trigger] self.options@[i].func,
                        (),
                    ),
                old(source).pos <= source.pos,
                source.pos - old(source).pos <= rem0.len(),
                run_session(labels, self.menu_type, rem0, source.pos - old(source).pos).done,
                sink.out() + run_session(
                    labels,
                    self.menu_type,
                    rem0,
                    source.pos - old(source).pos,
                ).outputs == old(sink).out().push(self.name@ + newline()) + full.outputs,
                invoked@.map_values(|u: usize| u as int) + run_session(
                    labels,
                    self.menu_type,
                    rem0,
                    source.pos - old(source).pos,
                ).invoked == full.invoked,
                full.used == source.pos - old(source).pos + run_session(
                    labels,
                    self.menu_type,
                    rem0,
                    source.pos - old(source).pos,
                ).used,
                forall|i: int| 0 <= i < invoked.len() ==> invoked@[i] < self.options.len(),
            decreases rem0.len() - (source.pos - old(source).pos),
        {
            let ghost pos = source.pos - old(source).pos;
            let ghost cur = run_session(labels, self.menu_type, rem0, pos);
            let ghost j_abs = first_parse_at::<usize>(rem0, pos);
            proof {
                lemma_first_parse_at::<usize>(rem0, pos);
                assert(j_abs < rem0.len());
                assert(source.remaining() =~= rem0.subrange(pos, rem0.len() as int));
                lemma_first_parse_shift::<usize>(rem0, pos, 0);
            }
            let prompt = self.build_prompt();
            let ghost sink_head = sink.out();
            let choice: usize = parse_std_in(source, sink, prompt.as_str());
            proof {
                assert(source.remaining() =~= rem0.subrange(
                    source.pos - old(source).pos,
                    rem0.len() as int,
                ));
                assert(rem0.subrange(pos, rem0.len() as int)[j_abs - pos] == rem0[j_abs]);
                assert(Some(choice) == <usize as ParseFromText>::parse_spec(trim_spec(rem0[j_abs])));
                assert(sink.out() =~= sink_head + retry_transcript(
                    menu_prompt(labels, self.menu_type),
                    (j_abs - pos) as nat,
                ));
            }
            let ghost head = retry_transcript(menu_prompt(labels, self.menu_type), (j_abs - pos) as nat);
            let ghost rest = run_session(labels, self.menu_type, rem0, j_abs + 1);
            match self.select(choice) {
                Dispatch::Action(idx) => {
                    (self.options[idx].func)();
                    let ghost invoked_before = invoked@;
                    invoked.push(idx);
                    proof {
                        assert(idx == choice - 1);
                        assert(cur.outputs =~= head + rest.outputs);
                        assert(cur.invoked =~= seq![choice as int - 1] + rest.invoked);
                        assert(sink.out() + rest.outputs =~= old(sink).out().push(
                            self.name@ + newline(),
                        ) + full.outputs);
                        assert(invoked@.map_values(|u: usize| u as int)
                            =~= invoked_before.map_values(|u: usize| u as int).push(idx as int));
                        assert(invoked@.map_values(|u: usize| u as int) + rest.invoked
                            =~= full.invoked);
                    }
                },
                Dispatch::Exit => {
                    let bye = self.menu_type.bye_msg();
                    sink.write_line(bye.as_str());
                    proof {
                        assert(cur.outputs =~= head.push(
                            exit_label_spec(self.menu_type) + newline(),
                        ));
                        assert(cur.invoked =~= Seq::<int>::empty());
                        assert(sink.out() =~= old(sink).out().push(self.name@ + newline())
                            + full.outputs);
                        assert(invoked@.map_values(|u: usize| u as int) =~= full.invoked);
                    }
                    return invoked;
                },
                Dispatch::Invalid => {
                    sink.write_line("Invalid input.");
                    proof {
                        assert(cur.outputs =~= head.push(invalid_line()) + rest.outputs);
                        assert(sink.out() + rest.outputs =~= old(sink).out().push(
                            self.name@ + newline(),
                        ) + full.outputs);
                    }
                },
            }
        }
    }
}

/// Each numbered option line ends with its one newline.
pub proof fn lemma_option_line_newlines(i: nat, label: Seq<char>)
    requires
        count_char(label, '\n') == 0,
    ensures
        count_char(option_line(i, label), '\n') == 1,
        option_line(i, label).last() == '\n',
{
    lemma_dec_digits_no_newline(i);
    lemma_count_char_absent(seq!['\t'], '\n');
    lemma_count_char_absent(seq![')', ' '], '\n');
    assert(count_char(newline(), '\n') == 1) by {
        assert(newline().drop_last() =~= Seq::<char>::empty());
        assert(count_char(Seq::<char>::empty(), '\n') == 0);
        assert(newline().last() == '\n');
    }
    lemma_count_char_concat(seq!['\t'], dec_digits(i), '\n');
    lemma_count_char_concat(seq!['\t'] + dec_digits(i), seq![')', ' '], '\n');
    lemma_count_char_concat(seq!['\t'] + dec_digits(i) + seq![')', ' '], label, '\n');
    lemma_count_char_concat(seq!['\t'] + dec_digits(i) + seq![')', ' '] + label, newline(), '\n');
}

proof fn lemma_options_block_newlines(labels: Seq<Seq<char>>, upto: int)
    requires
        0 <= upto <= labels.len(),
        forall|i: int| 0 <= i < labels.len() ==> count_char(#[trigger] labels[i], '\n') == 0,
    ensures
        count_char(options_block(labels, upto), '\n') == upto,
    decreases upto,
{
    if upto > 0 {
        lemma_options_block_newlines(labels, upto - 1);
        lemma_option_line_newlines(upto as nat, labels[upto - 1]);
        lemma_count_char_concat(
            options_block(labels, upto - 1),
            option_line(upto as nat, labels[upto - 1]),
            '\n',
        );
    }
}

/// A prompt over `k` options has exactly `k + 1` lines: it is the `k`
/// numbered option lines — one newline after each — followed by the
/// newline-free terminal entry, numbered `k + 1` and showing the exit
/// label. Option labels are taken newline-free, as display labels are.
pub proof fn lemma_prompt_lines(labels: Seq<Seq<char>>, t: MenuType)
    requires
        forall|i: int| 0 <= i < labels.len() ==> count_char(#[trigger] labels[i], '\n') == 0,
    ensures
        menu_prompt(labels, t) == options_block(labels, labels.len() as int) + exit_entry_line(
            labels.len(),
            t,
        ),
        count_char(menu_prompt(labels, t), '\n') == labels.len(),
        count_char(exit_entry_line(labels.len(), t), '\n') == 0,
        forall|u: int|
            0 < u <= labels.len() ==> #[trigger] options_block(labels, u) == options_block(
                labels,
                u - 1,
            ) + option_line(u as nat, labels[u - 1]),
        forall|i: nat| 1 <= i <= labels.len() ==> (#[trigger] option_line(i, labels[i - 1])).last()
            == '\n',
{
    let k = labels.len();
    lemma_options_block_newlines(labels, k as int);
    lemma_dec_digits_no_newline((k + 1) as nat);
    lemma_count_char_absent(seq!['\t'], '\n');
    lemma_count_char_absent(seq![')', ' '], '\n');
    lemma_count_char_concat(seq!['\t'], dec_digits((k + 1) as nat), '\n');
    lemma_count_char_concat(seq!['\t'] + dec_digits((k + 1) as nat), seq![')', ' '], '\n');
    assert(count_char(exit_label_spec(t), '\n') == 0) by {
        reveal_strlit("Quit");
        reveal_strlit("Back");
        lemma_count_char_absent("Quit"@, '\n');
        lemma_count_char_absent("Back"@, '\n');
    }
    lemma_count_char_concat(
        seq!['\t'] + dec_digits((k + 1) as nat) + seq![')', ' '],
        exit_label_spec(t),
        '\n',
    );
    lemma_count_char_concat(
        options_block(labels, k as int),
        exit_entry_line(k, t),
        '\n',
    );
    assert forall|i: nat| 1 <= i <= labels.len() implies (#[trigger] option_line(
        i,
        labels[i - 1],
    )).last() == '\n' by {
        assert(option_line(i, labels[i - 1]).last() == newline().last());
    }
}

/// A selection in `1..=k` invokes exactly the action of the option at that
/// position (1-based selection, 0-based position) and does not end the
/// loop: the session continues on the remaining input.
pub proof fn lemma_session_selects_action(
    labels: Seq<Seq<char>>,
    t: MenuType,
    lines: Seq<Seq<char>>,
    pos: int,
    s: int,
)
    requires
        0 <= pos <= lines.len(),
        first_parse_at::<usize>(lines, pos) < lines.len(),
        s == <usize as ParseFromText>::parse_spec(
            trim_spec(lines[first_parse_at::<usize>(lines, pos)]),
        )->0,
        1 <= s <= labels.len(),
    ensures
        ({
            let j = first_parse_at::<usize>(lines, pos);
            let head = retry_transcript(menu_prompt(labels, t), (j - pos) as nat);
            let rest = run_session(labels, t, lines, j + 1);
            &&& run_session(labels, t, lines, pos).invoked == seq![s - 1] + rest.invoked
            &&& run_session(labels, t, lines, pos).outputs == head + rest.outputs
            &&& run_session(labels, t, lines, pos).done == rest.done
        }),
{
    lemma_first_parse_at::<usize>(lines, pos);
}

/// Selecting `k + 1` prints the exit label and ends the loop without
/// invoking any action.
pub proof fn lemma_session_exit(
    labels: Seq<Seq<char>>,
    t: MenuType,
    lines: Seq<Seq<char>>,
    pos: int,
    s: int,
)
    requires
        0 <= pos <= lines.len(),
        first_parse_at::<usize>(lines, pos) < lines.len(),
        s == <usize as ParseFromText>::parse_spec(
            trim_spec(lines[first_parse_at::<usize>(lines, pos)]),
        )->0,
        s == labels.len() + 1,
    ensures
        ({
            let j = first_parse_at::<usize>(lines, pos);
            let head = retry_transcript(menu_prompt(labels, t), (j - pos) as nat);
            &&& run_session(labels, t, lines, pos).invoked == Seq::<int>::empty()
            &&& run_session(labels, t, lines, pos).outputs == head.push(
                exit_label_spec(t) + newline(),
            )
            &&& run_session(labels, t, lines, pos).done
            &&& run_session(labels, t, lines, pos).used == j + 1 - pos
        }),
{
    lemma_first_parse_at::<usize>(lines, pos);
}

/// A numeric selection outside `1..=k+1` — zero, or above the terminal
/// entry — prints the invalid-input line, invokes nothing, and loops on.
pub proof fn lemma_session_out_of_range(
    labels: Seq<Seq<char>>,
    t: MenuType,
    lines: Seq<Seq<char>>,
    pos: int,
    s: int,
)
    requires
        0 <= pos <= lines.len(),
        first_parse_at::<usize>(lines, pos) < lines.len(),
        s == <usize as ParseFromText>::parse_spec(
            trim_spec(lines[first_parse_at::<usize>(lines, pos)]),
        )->0,
        s == 0 || s > labels.len() + 1,
    ensures
        ({
            let j = first_parse_at::<usize>(lines, pos);
            let head = retry_transcript(menu_prompt(labels, t), (j - pos) as nat);
            let rest = run_session(labels, t, lines, j + 1);
            &&& run_session(labels, t, lines, pos).invoked == rest.invoked
            &&& run_session(labels, t, lines, pos).outputs == head.push(invalid_line())
                + rest.outputs
            &&& run_session(labels, t, lines, pos).done == rest.done
        }),
{
    lemma_first_parse_at::<usize>(lines, pos);
}

impl<A> Default for Menu<A> {
    /// A fresh menu: named "Main Menu", no options yet, nested kind.
    fn default() -> (r: Self)
        ensures
            r.name@ == "Main Menu"@,
            r.options.len() == 0,
            r.menu_type == MenuType::Sub,
    {
        Menu { name: "Main Menu".to_owned(), options: Vec::new(), menu_type: MenuType::Sub }
    }
}

} // verus!
