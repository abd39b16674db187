//! The renderer: it reads the fragments of the input in order, keeps their
//! text, and puts in place of each command what the interpreter printed for it.
//!
//! Running the interpreter is the caller's part. The renderer stops at each
//! command and hands out its script; the caller runs it and resumes the render
//! with what came of the run.

use crate::exec::{conclude, verdict, ExecutionError, ProcessOutcome};
use crate::templating::{fragments, lemma_literal_is_one_fragment, scan, Fragment, Scanner};
use crate::text::{find, first_at, lemma_find, lemma_occurs_in_tail, occurs, occurs_at};
use crate::trim::{trim, trimmed};
use vstd::prelude::*;
use vstd::string::StringExecFns;

verus! {

/// The scripts of the fragments that have a command, in order.
pub open spec fn scripts(frags: Seq<Fragment>) -> Seq<Seq<char>>
    decreases frags.len(),
{
    if frags.len() == 0 {
        Seq::empty()
    } else {
        match frags.last().command {
            Some(script) => scripts(frags.drop_last()).push(script),
            None => scripts(frags.drop_last()),
        }
    }
}

/// What stands in the rendered text for a command that printed `output`.
pub open spec fn shown(output: Seq<char>, trim: bool) -> Seq<char> {
    if trim {
        trimmed(output)
    } else {
        output
    }
}

/// The text that `frags` render to, where `outputs` holds what their commands
/// printed, one output for each command, in order: the text of each fragment,
/// followed by what stands for its command's output where it has a command.
pub open spec fn rendered(frags: Seq<Fragment>, outputs: Seq<Seq<char>>, trim: bool) -> Seq<char>
    recommends
        outputs.len() == scripts(frags).len(),
    decreases frags.len(),
{
    if frags.len() == 0 {
        Seq::empty()
    } else {
        let last = frags.last();
        match last.command {
            Some(_) => rendered(frags.drop_last(), outputs.drop_last(), trim) + last.text + shown(
                outputs.last(),
                trim,
            ),
            None => rendered(frags.drop_last(), outputs, trim) + last.text,
        }
    }
}

/// The scripts of two runs of fragments, one after the other.
pub proof fn lemma_scripts_add(a: Seq<Fragment>, b: Seq<Fragment>)
    ensures
        scripts(a + b) == scripts(a) + scripts(b),
    decreases b.len(),
{
    if b.len() > 0 {
        assert((a + b).drop_last() == a + b.drop_last());
        lemma_scripts_add(a, b.drop_last());
    }
}

/// A render that waits for the outcome of a script.
pub struct Pending<'a, 'd> {
    scanner: Scanner<'a, 'd>,
    shell_name: &'d str,
    trim: bool,
    buffer: String,
    script: &'a str,
    source: Ghost<Seq<char>>,
    read: Ghost<Seq<Fragment>>,
    outputs: Ghost<Seq<Seq<char>>>,
}

/// What a render does next.
pub enum Step<'a, 'd> {
    /// A script is to be run, and the render resumed with its outcome.
    Execute(Pending<'a, 'd>),
    /// The render is over: this is the rendered text.
    Done(String),
}

impl<'a, 'd> Pending<'a, 'd> {
    #[verifier::type_invariant]
    spec fn inv(self) -> bool {
        &&& self.read@ + self.scanner.pending() == fragments(
            self.source@,
            self.scanner.begin(),
            self.scanner.end(),
        )
        &&& self.read@.len() > 0
        &&& self.read@.last().command == Some(self.script@)
        &&& scripts(self.read@.drop_last()).len() == self.outputs@.len()
        &&& self.buffer@ == rendered(self.read@.drop_last(), self.outputs@, self.trim)
            + self.read@.last().text
    }

    /// The input that is rendered.
    pub closed spec fn source(self) -> Seq<char> {
        self.source@
    }

    /// The begin delimiter.
    pub closed spec fn begin(self) -> Seq<char> {
        self.scanner.begin()
    }

    /// The end delimiter.
    pub closed spec fn end(self) -> Seq<char> {
        self.scanner.end()
    }

    /// The name of the interpreter.
    pub closed spec fn shell_name(self) -> Seq<char> {
        self.shell_name@
    }

    /// Whether outputs are trimmed.
    pub closed spec fn trims(self) -> bool {
        self.trim
    }

    /// What the commands before this one printed, in order.
    pub closed spec fn outputs(self) -> Seq<Seq<char>> {
        self.outputs@
    }

    /// The script that is to be run.
    pub closed spec fn script_text(self) -> Seq<char> {
        self.script@
    }

    /// The script that is to be run.
    pub fn script(&self) -> (r: &'a str)
        ensures
            r@ == self.script_text(),
    {
        self.script
    }

    /// Goes on with the render, given what came of running the script. A run
    /// that failed ends the render with its failure. Else the output of the
    /// run, trimmed where the render trims, follows the text, and the render
    /// goes on to the next command or to its end.
    pub fn resume(self, outcome: ProcessOutcome) -> (r: Result<Step<'a, 'd>, ExecutionError>)
        ensures
            match verdict(self.script_text(), self.shell_name(), outcome) {
                Ok(output) => r matches Ok(step) && step.follows(
                    self.source(),
                    self.shell_name(),
                    self.begin(),
                    self.end(),
                    self.trims(),
                    self.outputs().push(output),
                ),
                Err(failure) => r matches Err(e) && e@ == failure,
            },
    {
        proof {
            use_type_invariant(&self);
        }
        let Pending { scanner, shell_name, trim: trims, buffer, script, source, read, outputs } = self;
        let output = match conclude(script, shell_name, outcome) {
            Ok(output) => output,
            Err(e) => {
                return Err(e);
            },
        };
        let mut buffer = buffer;
        if trims {
            buffer.append(trim(output.as_str()));
        } else {
            buffer.append(output.as_str());
        }
        let ghost fed = outputs@.push(output@);
        assert(fed.drop_last() =~= outputs@);
        Ok(proceed(scanner, shell_name, trims, buffer, source, read, Ghost(fed)))
    }
}

impl<'a, 'd> Step<'a, 'd> {
    /// This step is the one that follows in the render of `input`, once the
    /// first commands have printed `outputs`: the run of the next script, or,
    /// where no command is left, the rendered text.
    pub open spec fn follows(
        self,
        input: Seq<char>,
        shell_name: Seq<char>,
        begin: Seq<char>,
        end: Seq<char>,
        trim: bool,
        outputs: Seq<Seq<char>>,
    ) -> bool {
        let all = scripts(fragments(input, begin, end));
        match self {
            Step::Execute(pending) => {
                &&& pending.source() == input
                &&& pending.shell_name() == shell_name
                &&& pending.begin() == begin
                &&& pending.end() == end
                &&& pending.trims() == trim
                &&& pending.outputs() == outputs
                &&& outputs.len() < all.len()
                &&& pending.script_text() == all[outputs.len() as int]
            },
            Step::Done(text) => {
                &&& outputs.len() == all.len()
                &&& text@ == rendered(fragments(input, begin, end), outputs, trim)
            },
        }
    }
}

/// Reads fragments up to the next command or the end of the input.
pub(crate) fn proceed<'a, 'd>(
    scanner: Scanner<'a, 'd>,
    shell_name: &'d str,
    trim: bool,
    buffer: String,
    Ghost(source): Ghost<Seq<char>>,
    Ghost(read): Ghost<Seq<Fragment>>,
    Ghost(outputs): Ghost<Seq<Seq<char>>>,
) -> (r: Step<'a, 'd>)
    requires
        read + scanner.pending() == fragments(source, scanner.begin(), scanner.end()),
        scripts(read).len() == outputs.len(),
        buffer@ == rendered(read, outputs, trim),
    ensures
        r.follows(source, shell_name@, scanner.begin(), scanner.end(), trim, outputs),
{
    let ghost all = fragments(source, scanner.begin(), scanner.end());
    let mut reader = scanner;
    let mut buffer = buffer;
    let ghost mut read = read;
    loop
        invariant
            reader.begin() == scanner.begin(),
            reader.end() == scanner.end(),
            all == fragments(source, scanner.begin(), scanner.end()),
            read + reader.pending() == all,
            scripts(read).len() == outputs.len(),
            buffer@ == rendered(read, outputs, trim),
        decreases reader.pending().len(),
    {
        let ghost before = read;
        match reader.next() {
            Some(content) => {
                buffer.append(content.text);
                proof {
                    read = read.push(content@);
                    assert(read.drop_last() == before);
                    assert(read + reader.pending() == all);
                }
                if let Some(script) = content.command {
                    proof {
                        lemma_scripts_add(read, reader.pending());
                    }
                    return Step::Execute(
                        Pending {
                            scanner: reader,
                            shell_name,
                            trim,
                            buffer,
                            script,
                            source: Ghost(source),
                            read: Ghost(read),
                            outputs: Ghost(outputs),
                        },
                    );
                }
            },
            None => {
                return Step::Done(buffer);
            },
        }
    }
}

/// Input in which `begin` stands nowhere renders to itself: the render is over
/// at its first step, with the input as its text.
pub proof fn lemma_literal_renders_unchanged(
    step: Step,
    input: Seq<char>,
    shell_name: Seq<char>,
    begin: Seq<char>,
    end: Seq<char>,
    trim: bool,
)
    requires
        !occurs(input, begin),
        step.follows(input, shell_name, begin, end, trim, Seq::empty()),
    ensures
        step matches Step::Done(text) && text@ == input,
{
    lemma_literal_is_one_fragment(input, begin, end);
    let frags = fragments(input, begin, end);
    assert(scripts(frags.drop_last()).len() == 0);
    assert(rendered(frags.drop_last(), Seq::empty(), trim) == Seq::<char>::empty());
}

/// Input with one command renders to what stands before the command, what
/// stands for the command's output, and what stands behind the command.
///
/// The input is `prefix`, `begin`, `body`, `end` and `suffix` in a row, where
/// that `begin` is the first in the input, that `end` the first behind it, and
/// no `begin` stands in `suffix`. Its one script is `body`.
pub proof fn lemma_one_command_renders_in_place(
    prefix: Seq<char>,
    body: Seq<char>,
    suffix: Seq<char>,
    begin: Seq<char>,
    end: Seq<char>,
    output: Seq<char>,
    trim: bool,
)
    requires
        begin.len() > 0,
        end.len() > 0,
        first_at(prefix + begin + body + end + suffix, begin, prefix.len() as int),
        first_at(body + end + suffix, end, body.len() as int),
        !occurs(suffix, begin),
    ensures
        scripts(fragments(prefix + begin + body + end + suffix, begin, end)) == seq![body],
        rendered(fragments(prefix + begin + body + end + suffix, begin, end), seq![output], trim)
            == prefix + shown(output, trim) + suffix,
{
    let input = prefix + begin + body + end + suffix;
    let inner = body + end + suffix;
    let first = Fragment { text: prefix, command: Some(body) };
    let last = Fragment { text: suffix, command: None };
    assert(input.skip(0) == input);
    assert(input.skip((prefix.len() + begin.len()) as int) == inner);
    assert(input.take(prefix.len() as int) == prefix);
    assert(inner.take(body.len() as int) == body);
    assert(inner.skip((body.len() + end.len()) as int) == suffix);
    let one = seq![first];
    assert(scripts(one.drop_last()) == Seq::<Seq<char>>::empty());
    assert(scripts(one) == seq![body]);
    assert(seq![output].drop_last() == Seq::<Seq<char>>::empty());
    assert(rendered(one.drop_last(), Seq::empty(), trim) == Seq::<char>::empty());
    assert(rendered(one, seq![output], trim) == prefix + shown(output, trim));
    if suffix.len() > 0 {
        lemma_literal_is_one_fragment(suffix, begin, end);
        assert((one + seq![last]).drop_last() == one);
    }
}

/// Where no `end` follows the first `begin` of the input, the input has no
/// command and renders to itself: a `begin` that is never closed is text.
pub proof fn lemma_unmatched_renders_unchanged(
    input: Seq<char>,
    begin: Seq<char>,
    end: Seq<char>,
    trim: bool,
)
    requires
        begin.len() > 0,
        find(input, begin) matches Some(b) && !occurs(input.skip(b + begin.len()), end),
    ensures
        scripts(fragments(input, begin, end)).len() == 0,
        rendered(fragments(input, begin, end), Seq::empty(), trim) == input,
{
    lemma_find(input, begin);
    let b = find(input, begin)->0;
    let body = input.skip(b + begin.len());
    lemma_find(body, end);
    assert(input.skip(0) == input);
    let first = Fragment { text: input.take(b), command: None };
    let rest = scan(input.skip(b), begin.len() as int, begin, end);
    lemma_occurs_in_tail(input, begin, b, 0);
    assert(input.skip(b).skip(begin.len() as int) == body);
    lemma_unmatched_tail(input.skip(b), begin, end, trim);
    lemma_scripts_add(seq![first], rest);
    lemma_rendered_text(seq![first], rest, trim);
    assert(rendered(seq![first].drop_last(), Seq::empty(), trim) == Seq::<char>::empty());
    assert(scripts(seq![first].drop_last()).len() == 0);
}

/// Fragments without commands, put behind others, add their text to what the
/// others render to.
proof fn lemma_rendered_text(a: Seq<Fragment>, b: Seq<Fragment>, trim: bool)
    requires
        scripts(b).len() == 0,
    ensures
        rendered(a + b, Seq::empty(), trim) == rendered(a, Seq::empty(), trim) + rendered(
            b,
            Seq::empty(),
            trim,
        ),
    decreases b.len(),
{
    if b.len() > 0 {
        assert((a + b).drop_last() == a + b.drop_last());
        lemma_rendered_text(a, b.drop_last(), trim);
    }
}

/// The scan of a text that starts with a `begin` which no `end` follows, and
/// whose first `begin` is passed over.
proof fn lemma_unmatched_tail(s: Seq<char>, begin: Seq<char>, end: Seq<char>, trim: bool)
    requires
        begin.len() > 0,
        occurs_at(s, begin, 0),
        !occurs(s.skip(begin.len() as int), end),
    ensures
        scripts(scan(s, begin.len() as int, begin, end)).len() == 0,
        rendered(scan(s, begin.len() as int, begin, end), Seq::empty(), trim) == s,
    decreases s.len(),
{
    let held = begin.len() as int;
    let tail = s.skip(held);
    lemma_find(tail, begin);
    let whole = seq![Fragment { text: s, command: None }];
    assert(scripts(whole.drop_last()).len() == 0);
    assert(rendered(whole.drop_last(), Seq::empty(), trim) == Seq::<char>::empty());
    match find(tail, begin) {
        None => {},
        Some(i) => {
            let b = held + i;
            let body = s.skip(b + begin.len());
            assert forall|j: int| !occurs_at(body, end, j) by {
                lemma_occurs_in_tail(tail, end, i + begin.len(), j);
                assert(tail.skip(i + begin.len()) == body);
            }
            let first = Fragment { text: s.take(b), command: None };
            let rest = scan(s.skip(b), held, begin, end);
            lemma_occurs_in_tail(tail, begin, i, 0);
            assert(tail.skip(i) == s.skip(b));
            assert(s.skip(b).skip(held) == body);
            lemma_unmatched_tail(s.skip(b), begin, end, trim);
            lemma_scripts_add(seq![first], rest);
            lemma_rendered_text(seq![first], rest, trim);
            assert(rendered(seq![first].drop_last(), Seq::empty(), trim) == Seq::<char>::empty());
            assert(scripts(seq![first].drop_last()).len() == 0);
        },
    }
}

} // verus!
