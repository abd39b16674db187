//! The delimiter scanner: it splits the input into fragments, each a run of
//! literal text that may be followed by one command.

use crate::combinators::{tag, take_until};
use crate::exec::{ConfigurationError, ExecutionError, Failure};
use crate::render::{proceed, Step};
use crate::text::{
    before, find, first_at, lemma_find, lemma_occurs_in_tail, occurs, occurs_at,
};
use vstd::prelude::*;

verus! {

/// A run of literal text and the command that follows it, if one does. Both are
/// parts of the input, not copies of it.
#[derive(PartialEq, Debug)]
pub struct Content<'a> {
    pub text: &'a str,
    pub command: Option<&'a str>,
}

/// A [`Content`] as sequences of characters.
pub struct Fragment {
    pub text: Seq<char>,
    pub command: Option<Seq<char>>,
}

impl<'a> View for Content<'a> {
    type V = Fragment;

    open spec fn view(&self) -> Fragment {
        Fragment {
            text: self.text@,
            command: match self.command {
                Some(c) => Some(c@),
                None => None,
            },
        }
    }
}

/// The first fragment of `s`, after what is left of `s` behind it.
///
/// Where `begin` stands nowhere in `s`, all of `s` is text and nothing is left.
/// Else the text is what stands before the first `begin`. Where `end` follows
/// that `begin`, the command is what stands between the two, and what is left
/// starts behind that `end`. Where no `end` follows, there is no command, and
/// what is left starts at that `begin`.
pub open spec fn first_fragment(s: Seq<char>, begin: Seq<char>, end: Seq<char>) -> (Seq<char>, Fragment) {
    match find(s, begin) {
        None => (Seq::empty(), Fragment { text: s, command: None }),
        Some(b) => {
            let body = s.skip(b + begin.len());
            match find(body, end) {
                Some(e) => (
                    body.skip(e + end.len()),
                    Fragment { text: s.take(b), command: Some(body.take(e)) },
                ),
                None => (s.skip(b), Fragment { text: s.take(b), command: None }),
            }
        },
    }
}

/// Reads the command that `s` starts with: `begin`, the script, and `end`.
/// Returns what is left of `s` behind that `end`, and the script; `None` where
/// `s` does not start with `begin`, or no `end` follows it.
fn enclosed<'a>(s: &'a str, begin: &str, end: &str) -> (r: Option<(&'a str, &'a str)>)
    ensures
        match r {
            Some((rest, script)) => occurs_at(s@, begin@, 0) && first_at(
                s@.skip(begin@.len() as int),
                end@,
                script@.len() as int,
            ) && script@ + end@ + rest@ == s@.skip(begin@.len() as int),
            None => !occurs_at(s@, begin@, 0) || !occurs(s@.skip(begin@.len() as int), end@),
        },
{
    let inner = match tag(begin, s) {
        Ok((inner, _)) => inner,
        Err(_) => {
            return None;
        },
    };
    assert(inner@ == s@.skip(begin@.len() as int));
    assert(s@.subrange(0, begin@.len() as int) == begin@);
    let (closing, script) = match take_until(end, inner) {
        Ok(found) => found,
        Err(_) => {
            return None;
        },
    };
    match tag(end, closing) {
        Ok((rest, _)) => Some((rest, script)),
        Err(_) => {
            proof {
                lemma_occurs_in_tail(inner@, end@, script@.len() as int, 0);
                assert(inner@.skip(script@.len() as int) == closing@);
            }
            None
        },
    }
}

/// Reads the first fragment of `s` and returns it after what is left of `s`.
/// The result is never an error.
pub fn command<'a>(s: &'a str, begin: &str, end: &str) -> (r: nom::IResult<&'a str, Content<'a>>)
    ensures
        r matches Ok((rest, content)) && (rest@, content@) == first_fragment(s@, begin@, end@),
{
    let (rest, text) = match take_until(begin, s) {
        Ok(found) => found,
        Err(_) => {
            proof {
                reveal_strlit("");
            }
            return Ok(("", Content { text: s, command: None }));
        },
    };
    let ghost b = text@.len() as int;
    let ghost body = s@.skip(b + begin@.len());
    proof {
        lemma_occurs_in_tail(s@, begin@, b, 0);
        assert(rest@ == s@.skip(b));
        assert(rest@.skip(begin@.len() as int) == body);
        assert(text@ == s@.take(b));
    }
    match enclosed(rest, begin, end) {
        Some((rest, script)) => {
            let ghost e = script@.len() as int;
            assert(script@ == body.take(e));
            Ok((rest, Content { text, command: Some(script) }))
        },
        None => Ok((rest, Content { text, command: None })),
    }
}

/// The fragments of `s`, in order. The first `held` characters of `s` are text
/// already and are not searched for `begin`: they are a `begin` that no `end`
/// followed.
///
/// Each step looks for the next `begin` and the `end` behind it, as
/// [`first_fragment`] does. After a command the scan goes on behind its `end`,
/// and is over where nothing is left there. After a `begin` that no `end`
/// follows, the fragment has no command and the scan goes on at that `begin`,
/// which is then text of the next fragment. Where no `begin` is left, the rest
/// is the text of the last fragment.
pub open spec fn scan(s: Seq<char>, held: int, begin: Seq<char>, end: Seq<char>) -> Seq<Fragment>
    decreases s.len() - held,
{
    if begin.len() == 0 || held < 0 || held > s.len() {
        seq![Fragment { text: s, command: None }]
    } else {
        proof {
            lemma_find(s.skip(held), begin);
        }
        match find(s.skip(held), begin) {
            None => seq![Fragment { text: s, command: None }],
            Some(i) => {
                let b = held + i;
                let body = s.skip(b + begin.len());
                proof {
                    lemma_find(body, end);
                }
                match find(body, end) {
                    Some(e) => {
                        let fragment = Fragment { text: s.take(b), command: Some(body.take(e)) };
                        let rest = body.skip(e + end.len());
                        if rest.len() == 0 {
                            seq![fragment]
                        } else {
                            seq![fragment] + scan(rest, 0, begin, end)
                        }
                    },
                    None => seq![Fragment { text: s.take(b), command: None }] + scan(
                        s.skip(b),
                        begin.len() as int,
                        begin,
                        end,
                    ),
                }
            },
        }
    }
}

/// The fragments of the whole of `s`.
pub open spec fn fragments(s: Seq<char>, begin: Seq<char>, end: Seq<char>) -> Seq<Fragment> {
    scan(s, 0, begin, end)
}

/// The fragments that `contents` stand for.
pub open spec fn views(contents: Seq<Content>) -> Seq<Fragment> {
    contents.map_values(|c: Content| c@)
}

/// The text that `frags` were read from: the text of each fragment, followed,
/// where it has a command, by the command between the two delimiters.
pub open spec fn restored(frags: Seq<Fragment>, begin: Seq<char>, end: Seq<char>) -> Seq<char>
    decreases frags.len(),
{
    if frags.len() == 0 {
        Seq::empty()
    } else {
        let first = frags.first();
        let span = match first.command {
            Some(script) => begin + script + end,
            None => Seq::empty(),
        };
        first.text + span + restored(frags.drop_first(), begin, end)
    }
}

/// Text in which `begin` stands nowhere is one fragment: all of it, with no
/// command.
pub proof fn lemma_literal_is_one_fragment(s: Seq<char>, begin: Seq<char>, end: Seq<char>)
    requires
        !occurs(s, begin),
    ensures
        fragments(s, begin, end) == seq![Fragment { text: s, command: None }],
{
    assert(s.skip(0) == s);
}

/// Every text has a first fragment, the empty text too.
pub proof fn lemma_fragments_not_empty(s: Seq<char>, begin: Seq<char>, end: Seq<char>)
    ensures
        fragments(s, begin, end).len() > 0,
{
}

/// Scanning loses nothing: the texts of the fragments, with each command put
/// back between the delimiters, make up the input again.
pub proof fn lemma_scan_is_lossless(s: Seq<char>, begin: Seq<char>, end: Seq<char>)
    ensures
        restored(fragments(s, begin, end), begin, end) == s,
{
    lemma_scan_restores(s, 0, begin, end);
}

/// [`lemma_scan_is_lossless`] for a scan that passes over its first `held`
/// characters.
proof fn lemma_scan_restores(s: Seq<char>, held: int, begin: Seq<char>, end: Seq<char>)
    ensures
        restored(scan(s, held, begin, end), begin, end) == s,
    decreases s.len() - held,
{
    let whole = seq![Fragment { text: s, command: None }];
    assert(restored(whole, begin, end) == s) by {
        assert(restored(whole.drop_first(), begin, end) == Seq::<char>::empty());
    }
    if begin.len() == 0 || held < 0 || held > s.len() {
    } else {
        lemma_find(s.skip(held), begin);
        match find(s.skip(held), begin) {
            None => {},
            Some(i) => {
                let b = held + i;
                let body = s.skip(b + begin.len());
                lemma_find(body, end);
                match find(body, end) {
                    Some(e) => {
                        let fragment = Fragment { text: s.take(b), command: Some(body.take(e)) };
                        let rest = body.skip(e + end.len());
                        let tail = if rest.len() == 0 {
                            Seq::<Fragment>::empty()
                        } else {
                            scan(rest, 0, begin, end)
                        };
                        assert(restored(tail, begin, end) == rest) by {
                            if rest.len() != 0 {
                                lemma_scan_restores(rest, 0, begin, end);
                            }
                        }
                        let all = seq![fragment] + tail;
                        assert(all.drop_first() == tail);
                        assert(s == s.take(b) + (begin + body.take(e) + end) + rest);
                    },
                    None => {
                        let fragment = Fragment { text: s.take(b), command: None };
                        let tail = scan(s.skip(b), begin.len() as int, begin, end);
                        lemma_scan_restores(s.skip(b), begin.len() as int, begin, end);
                        let all = seq![fragment] + tail;
                        assert(all.drop_first() == tail);
                    },
                }
            },
        }
    }
}

/// Reads the fragments of an input one at a time, from left to right.
pub struct Scanner<'a, 'd> {
    rest: &'a str,
    begin: &'d str,
    end: &'d str,
    /// `rest` starts with a `begin` that no `end` follows.
    unmatched: bool,
    done: bool,
}

impl<'a, 'd> Scanner<'a, 'd> {
    #[verifier::type_invariant]
    spec fn inv(self) -> bool {
        &&& self.begin@.len() > 0
        &&& self.end@.len() > 0
        &&& self.unmatched && !self.done ==> occurs_at(self.rest@, self.begin@, 0) && !occurs(
            self.rest@.skip(self.begin@.len() as int),
            self.end@,
        )
    }

    /// The fragments that are still to be read.
    pub closed spec fn pending(self) -> Seq<Fragment> {
        if self.done {
            Seq::empty()
        } else {
            scan(
                self.rest@,
                if self.unmatched {
                    self.begin@.len() as int
                } else {
                    0
                },
                self.begin@,
                self.end@,
            )
        }
    }

    /// The begin delimiter.
    pub closed spec fn begin(self) -> Seq<char> {
        self.begin@
    }

    /// The end delimiter.
    pub closed spec fn end(self) -> Seq<char> {
        self.end@
    }

    /// A scanner at the start of `input`. An empty delimiter is refused.
    pub fn new(input: &'a str, begin: &'d str, end: &'d str) -> (r: Result<Self, ConfigurationError>)
        ensures
            match r {
                Ok(scanner) => begin@.len() > 0 && end@.len() > 0 && scanner.begin() == begin@
                    && scanner.end() == end@ && scanner.pending() == fragments(
                    input@,
                    begin@,
                    end@,
                ),
                Err(e) => (begin@.len() == 0 || end@.len() == 0) && e
                    == ConfigurationError::EmptyDelimiter,
            },
    {
        if begin.is_empty() || end.is_empty() {
            Err(ConfigurationError::EmptyDelimiter)
        } else {
            Ok(Scanner { rest: input, begin, end, unmatched: false, done: false })
        }
    }

    /// Reads the next fragment; `None` when all have been read.
    pub fn next(&mut self) -> (r: Option<Content<'a>>)
        ensures
            final(self).begin() == old(self).begin(),
            final(self).end() == old(self).end(),
            match r {
                Some(content) => old(self).pending().len() > 0 && content@ == old(self).pending()[0]
                    && final(self).pending() == old(self).pending().drop_first(),
                None => old(self).pending().len() == 0 && final(self).pending().len() == 0,
            },
    {
        proof {
            use_type_invariant(&*self);
        }
        if self.done {
            return None;
        }
        let ghost s = self.rest@;
        let ghost begin = self.begin@;
        let ghost end = self.end@;
        if self.unmatched {
            let ghost held = begin.len() as int;
            let ghost tail = s.skip(held);
            let after = match tag(self.begin, self.rest) {
                Ok((after, _)) => after,
                Err(_) => {
                    assert(false);
                    self.rest
                },
            };
            assert(after@ == tail);
            match take_until(self.begin, after) {
                Ok((rest, taken)) => {
                    let ghost i = taken@.len() as int;
                    let ghost b = held + i;
                    let ghost body = s.skip(b + begin.len());
                    assert(rest@ == s.skip(b));
                    proof {
                        assert forall|j: int| !occurs_at(body, end, j) by {
                            lemma_occurs_in_tail(tail, end, i + begin.len(), j);
                            assert(tail.skip(i + begin.len()) == body);
                        }
                        lemma_occurs_in_tail(tail, begin, i, 0);
                        assert(tail.skip(i) == rest@);
                        assert(rest@.skip(held) == body);
                    }
                    let text = before(self.rest, rest);
                    self.rest = rest;
                    assert(old(self).pending() == seq![Fragment { text: s.take(b), command: None }]
                        + self.pending());
                    Some(Content { text, command: None })
                },
                Err(_) => {
                    let text = self.rest;
                    self.done = true;
                    Some(Content { text, command: None })
                },
            }
        } else {
            assert(s.skip(0) == s);
            proof {
                lemma_find(s, begin);
            }
            match command(self.rest, self.begin, self.end) {
                Ok((rest, content)) => {
                    if rest.is_empty() {
                        self.done = true;
                    } else if content.command.is_none() {
                        proof {
                            let b = find(s, begin)->0;
                            lemma_occurs_in_tail(s, begin, b, 0);
                            assert(rest@.skip(begin.len() as int) == s.skip(b + begin.len()));
                        }
                        self.rest = rest;
                        self.unmatched = true;
                    } else {
                        self.rest = rest;
                    }
                    Some(content)
                },
                Err(_) => {
                    assert(false);
                    None
                },
            }
        }
    }
}

/// Splits `s` into its fragments. There is always at least one.
pub fn parse<'a>(s: &'a str, begin: &str, end: &str) -> (r: Vec<Content<'a>>)
    requires
        begin@.len() > 0,
        end@.len() > 0,
    ensures
        views(r@) == fragments(s@, begin@, end@),
        r@.len() > 0,
{
    proof {
        lemma_fragments_not_empty(s@, begin@, end@);
    }
    let mut result: Vec<Content<'a>> = Vec::new();
    let mut scanner = match Scanner::new(s, begin, end) {
        Ok(scanner) => scanner,
        Err(_) => {
            assert(false);
            return result;
        },
    };
    loop
        invariant
            views(result@) + scanner.pending() == fragments(s@, begin@, end@),
        ensures
            views(result@) == fragments(s@, begin@, end@),
        decreases scanner.pending().len(),
    {
        match scanner.next() {
            Some(content) => {
                result.push(content);
            },
            None => {
                break ;
            },
        }
    }
    result
}

/// What is wrong with the settings of a render, if anything is: a shell
/// specification of `shell_len` words and the two delimiters. An empty shell
/// specification comes before an empty delimiter.
pub open spec fn fault(shell_len: nat, begin: Seq<char>, end: Seq<char>) -> Option<ConfigurationError> {
    if shell_len == 0 {
        Some(ConfigurationError::EmptyShell)
    } else if begin.len() == 0 || end.len() == 0 {
        Some(ConfigurationError::EmptyDelimiter)
    } else {
        None
    }
}

/// Starts the render of `input`, in which `begin` and `end` mark the commands
/// and `shell` runs them. An empty `shell` is refused before anything
/// else is looked at, then an empty delimiter. Else the render goes on to its
/// first command, or to its end where the input has none.
pub fn template<'a, 'd>(
    input: &'a str,
    shell: &'d [&'d str],
    begin: &'d str,
    end: &'d str,
    trim: bool,
) -> (r: Result<Step<'a, 'd>, ExecutionError>)
    ensures
        match fault(shell@.len(), begin@, end@) {
            Some(fault) => r matches Err(e) && e@ == Failure::Configuration(fault),
            None => r matches Ok(step) && step.follows(
                input@,
                shell@[0]@,
                begin@,
                end@,
                trim,
                Seq::empty(),
            ),
        },
{
    if shell.len() == 0 {
        return Err(ExecutionError::Configuration(ConfigurationError::EmptyShell));
    }
    let scanner = match Scanner::new(input, begin, end) {
        Ok(scanner) => scanner,
        Err(e) => {
            return Err(ExecutionError::Configuration(e));
        },
    };
    Ok(
        proceed(
            scanner,
            shell[0],
            trim,
            String::new(),
            Ghost(input@),
            Ghost(Seq::empty()),
            Ghost(Seq::empty()),
        ),
    )
}

} // verus!
