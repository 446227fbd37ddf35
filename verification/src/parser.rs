//! The tokenizer state machine.
//!
//! [`Parser`] owns the remaining raw arguments and a cursor describing
//! where it stands inside the current argument.  The caller drives it:
//! [`Parser::next`] yields the next token, and the value-acquisition
//! operations ([`Parser::value`], [`Parser::values`],
//! [`Parser::optional_value`], [`Parser::raw_args`]) let the caller
//! claim what is attached to the last option or take over the raw
//! remainder.  Every operation is specified against the transition
//! functions of [`crate::model`], so the exact token stream of any
//! command line is determined by the model alone.

use vstd::prelude::*;
use vstd::string::*;

use crate::error::Error;
use crate::error::ErrorModel;
use crate::model::cluster_step;
use crate::model::find_eq;
use crate::model::find_eq_from;
use crate::model::fresh_step;
use crate::model::has_pending;
use crate::model::last_text;
use crate::model::last_text_or_empty;
use crate::model::lemma_find_eq_in_range;
use crate::model::long_step;
use crate::model::next_if_normal_step;
use crate::model::next_is_normal;
use crate::model::next_step;
use crate::model::optional_value_step;
use crate::model::raw_args_step;
use crate::model::value_step;
use crate::model::values_iter_step;
use crate::model::wf_model;
use crate::model::ArgModel;
use crate::model::CursorModel;
use crate::model::LastOptionModel;
use crate::model::ParserModel;
use crate::model::DASH;
use crate::model::EQUALS;
use crate::raw::is_boundary;
use crate::raw::lemma_boundary_after_ascii;
use crate::raw::lemma_boundary_after_scalar;
use crate::raw::lemma_boundary_at_ascii;
use crate::raw::RawString;
use crate::unicode;
use crate::unicode::lossy_decode_spec;
use crate::unicode::REPLACEMENT;

verus! {

/// A command line token found by [`Parser`]: an option or a positional
/// value.
#[derive(Debug)]
pub enum Arg {
    /// A short option, e.g. `Short('q')` for `-q`.
    Short(char),
    /// A long option, e.g. `Long("verbose")` for `--verbose`.  The
    /// dashes are not included.
    Long(String),
    /// A positional argument, e.g. `/dev/null`.
    Value(RawString),
}

impl View for Arg {
    type V = ArgModel;

    open spec fn view(&self) -> ArgModel {
        match self {
            Arg::Short(c) => ArgModel::Short(*c),
            Arg::Long(name) => ArgModel::Long(name@),
            Arg::Value(v) => ArgModel::Value(v@),
        }
    }
}

impl PartialEq for Arg {
    fn eq(&self, other: &Self) -> (r: bool) {
        match (self, other) {
            (Arg::Short(a), Arg::Short(b)) => *a == *b,
            (Arg::Long(a), Arg::Long(b)) => *a == *b,
            (Arg::Value(a), Arg::Value(b)) => *a == *b,
            _ => false,
        }
    }
}

impl vstd::std_specs::cmp::PartialEqSpecImpl for Arg {
    open spec fn obeys_eq_spec() -> bool {
        true
    }

    open spec fn eq_spec(&self, other: &Self) -> bool {
        self@ == other@
    }
}

/// The error an unexpected token converts to: an unknown option keeps
/// its dashes; a stray positional value keeps its bytes.
pub open spec fn unexpected_model(a: ArgModel) -> ErrorModel {
    match a {
        ArgModel::Short(c) => ErrorModel::UnexpectedOption(seq!['-', c]),
        ArgModel::Long(name) => ErrorModel::UnexpectedOption(seq!['-', '-'] + name),
        ArgModel::Value(v) => ErrorModel::UnexpectedArgument(v),
    }
}

impl Arg {
    /// Convert an argument the caller's schema does not recognize into a
    /// ready-to-display error.
    pub fn unexpected(self) -> (r: Error)
        ensures
            r@ == unexpected_model(self@),
    {
        match self {
            Arg::Short(c) => {
                let mut s = String::from_str("-");
                unicode::push_char(&mut s, c);
                proof {
                    reveal_strlit("-");
                    assert(s@ =~= seq!['-', c]);
                }
                Error::UnexpectedOption(s)
            },
            Arg::Long(name) => {
                let mut s = String::from_str("--");
                s.append(name.as_str());
                proof {
                    reveal_strlit("--");
                    assert(s@ =~= seq!['-', '-'] + name@);
                }
                Error::UnexpectedOption(s)
            },
            Arg::Value(v) => Error::UnexpectedArgument(v),
        }
    }
}

/// The remaining raw arguments of a parser, handed out by
/// [`Parser::raw_args`] as a forward-only cursor that bypasses all
/// option interpretation.
///
/// Anything merely peeked at stays in place: only [`RawArgs::next`] and
/// [`RawArgs::next_if`] consume, so abandoning the cursor early loses
/// nothing and later calls to [`Parser::next`] see every unconsumed
/// element.
#[derive(Debug)]
pub struct RawArgs {
    args: Vec<RawString>,
}

impl View for RawArgs {
    type V = Seq<Seq<u8>>;

    closed spec fn view(&self) -> Seq<Seq<u8>> {
        self.args@.map_values(|r: RawString| r@)
    }
}

impl RawArgs {
    /// Consumes and returns the next remaining argument.
    pub fn next(&mut self) -> (r: Option<RawString>)
        ensures
            match r {
                Some(v) => old(self)@.len() > 0 && v@ == old(self)@[0] && final(self)@ == old(
                    self,
                )@.drop_first(),
                None => old(self)@.len() == 0 && final(self)@ == old(self)@,
            },
    {
        if self.args.len() == 0 {
            None
        } else {
            let v = self.args.remove(0);
            proof {
                assert(final(self)@ =~= old(self)@.drop_first());
            }
            Some(v)
        }
    }

    /// Returns a reference to the next argument without consuming it.
    ///
    /// An argument peeked at but not consumed is still seen by the
    /// parser when ordinary tokenization resumes.
    pub fn peek(&self) -> (r: Option<&RawString>)
        ensures
            match r {
                Some(v) => self@.len() > 0 && v@ == self@[0],
                None => self@.len() == 0,
            },
    {
        self.args.as_slice().first()
    }

    /// Consumes and returns the next argument only when `func` accepts
    /// it; otherwise nothing changes.
    pub fn next_if<F: FnOnce(&RawString) -> bool>(&mut self, func: F) -> (r: Option<RawString>)
        requires
            forall|a: &RawString| #[trigger] func.requires((a,)),
        ensures
            match r {
                Some(v) => old(self)@.len() > 0 && v@ == old(self)@[0] && final(self)@ == old(
                    self,
                )@.drop_first() && (exists|a: &RawString|
                    a@ == old(self)@[0] && #[trigger] call_ensures(func, (a,), true)),
                None => final(self)@ == old(self)@ && (old(self)@.len() > 0 ==> (exists|
                    a: &RawString,
                |
                    a@ == old(self)@[0] && #[trigger] call_ensures(func, (a,), false))),
            },
    {
        let take: bool;
        match self.args.as_slice().first() {
            Some(arg) => {
                take = func(arg);
                proof {
                    assert(call_ensures(func, (arg,), take));
                }
            },
            None => {
                take = false;
            },
        };
        if take {
            self.next()
        } else {
            None
        }
    }

    /// The remaining arguments as a slice, oldest first.
    pub fn as_slice(&self) -> (r: &[RawString])
        ensures
            r@.len() == self@.len(),
            forall|i: int| 0 <= i < r@.len() ==> (#[trigger] r@[i])@ == self@[i],
    {
        self.args.as_slice()
    }
}

enum State {
    Idle,
    PendingValue(RawString),
    Shorts(RawString, usize),
    FinishedOpts,
}

enum LastOption {
    NotSeen,
    Short(char),
    Long(String),
}

/// A parser for command line arguments.
pub struct Parser {
    bin_name: Option<String>,
    source: RawArgs,
    state: State,
    last_option: LastOption,
}

/// The view of an executable result as its model: tokens and errors
/// replaced by their mathematical content.
pub open spec fn arg_result_view(r: Result<Option<Arg>, Error>) -> Result<
    Option<ArgModel>,
    ErrorModel,
> {
    match r {
        Ok(Some(a)) => Ok(Some(a@)),
        Ok(None) => Ok(None),
        Err(e) => Err(e@),
    }
}

impl View for Parser {
    type V = ParserModel;

    closed spec fn view(&self) -> ParserModel {
        ParserModel {
            bin: match &self.bin_name {
                Some(s) => Some(s@),
                None => None,
            },
            source: self.source@,
            cursor: match &self.state {
                State::Idle => CursorModel::Idle,
                State::PendingValue(v) => CursorModel::PendingValue(v@),
                State::Shorts(arg, pos) => CursorModel::InShortCluster(arg@, *pos as int),
                State::FinishedOpts => CursorModel::OptionsFinished,
            },
            last: match &self.last_option {
                LastOption::NotSeen => LastOptionModel::NotSeen,
                LastOption::Short(c) => LastOptionModel::Short(*c),
                LastOption::Long(s) => LastOptionModel::Long(s@),
            },
        }
    }
}

impl Parser {
    /// The internal invariant: a cluster offset sits past the leading
    /// dash, at the end of a decoded character or of a malformed unit
    /// (so slicing there is sound), and the machine remembers which
    /// option opened the half-processed argument.
    pub closed spec fn wf(&self) -> bool {
        match &self.state {
            State::Shorts(arg, pos) => {
                &&& 2 <= *pos <= arg@.len()
                &&& is_boundary(arg@, *pos as int)
                &&& self.last_option is Short
            },
            State::PendingValue(_) => self.last_option is Long,
            _ => true,
        }
    }

    /// A well-formed parser's model is structurally valid.
    pub proof fn lemma_wf_model(&self)
        requires
            self.wf(),
        ensures
            wf_model(self@),
    {
    }

    /// Creates a parser from explicit arguments whose first element is
    /// the program name, as on a real command line.
    pub fn from_iter(args: Vec<RawString>) -> (p: Parser)
        ensures
            p.wf(),
            p@.cursor is Idle,
            p@.last is NotSeen,
            args@.len() == 0 ==> p@.bin is None && p@.source == Seq::<Seq<u8>>::empty(),
            args@.len() > 0 ==> p@.bin == Some(lossy_decode_spec(args@[0]@)) && p@.source == args@
                .drop_first().map_values(|r: RawString| r@),
    {
        let mut args = args;
        let ghost args0 = args@;
        if args.len() == 0 {
            let p = Parser {
                bin_name: None,
                source: RawArgs { args },
                state: State::Idle,
                last_option: LastOption::NotSeen,
            };
            proof {
                assert(p@.source =~= Seq::<Seq<u8>>::empty());
            }
            p
        } else {
            let first = args.remove(0);
            let bin = unicode::lossy_to_string(first.as_bytes());
            let p = Parser {
                bin_name: Some(bin),
                source: RawArgs { args },
                state: State::Idle,
                last_option: LastOption::NotSeen,
            };
            proof {
                assert(p@.source =~= args0.drop_first().map_values(|r: RawString| r@));
            }
            p
        }
    }

    /// Creates a parser from explicit arguments with no program name
    /// recorded.
    pub fn from_args(args: Vec<RawString>) -> (p: Parser)
        ensures
            p.wf(),
            p@.cursor is Idle,
            p@.last is NotSeen,
            p@.bin is None,
            p@.source == args@.map_values(|r: RawString| r@),
    {
        Parser {
            bin_name: None,
            source: RawArgs { args },
            state: State::Idle,
            last_option: LastOption::NotSeen,
        }
    }

    /// The program name, when one was supplied at construction, decoded
    /// with replacement characters where necessary.
    pub fn bin_name(&self) -> (r: Option<&str>)
        ensures
            match r {
                Some(s) => self@.bin == Some(s@),
                None => self@.bin is None,
            },
    {
        match &self.bin_name {
            Some(s) => Some(s.as_str()),
            None => None,
        }
    }

    /// The display text of the most recently emitted option, if any.
    fn format_last_option(&self) -> (r: Option<String>)
        ensures
            match (r, last_text(self@.last)) {
                (Some(s), Some(t)) => s@ == t,
                (None, None) => true,
                _ => false,
            },
    {
        match &self.last_option {
            LastOption::NotSeen => None,
            LastOption::Short(c) => {
                let mut s = String::from_str("-");
                unicode::push_char(&mut s, *c);
                proof {
                    reveal_strlit("-");
                    assert(s@ =~= seq!['-', *c]);
                }
                Some(s)
            },
            LastOption::Long(s) => Some(s.clone()),
        }
    }

    /// As [`Parser::format_last_option`], with the empty text when no
    /// option was seen.
    fn format_last_option_or_empty(&self) -> (r: String)
        ensures
            r@ == last_text_or_empty(self@.last),
    {
        match self.format_last_option() {
            Some(s) => s,
            None => String::new(),
        }
    }

    /// True when part of the current argument is still attached:
    /// exactly when [`Parser::optional_value`] would yield a value.
    fn has_pending(&self) -> (b: bool)
        ensures
            b == has_pending(self@),
    {
        match &self.state {
            State::Idle | State::FinishedOpts => false,
            State::PendingValue(_) => true,
            State::Shorts(arg, pos) => *pos < arg.len(),
        }
    }

    /// True when the next raw argument exists and is a plain value.
    fn next_is_normal(&self) -> (b: bool)
        ensures
            b == next_is_normal(self@),
    {
        match self.source.peek() {
            None => false,
            Some(arg) => {
                match &self.state {
                    State::FinishedOpts => true,
                    _ => {
                        let n = arg.len();
                        if n == 1 && byte_at(arg, 0) == DASH {
                            true
                        } else if n >= 1 && byte_at(arg, 0) == DASH {
                            false
                        } else {
                            true
                        }
                    },
                }
            },
        }
    }

    /// Consumes and returns the next raw argument only when it is a
    /// plain value.
    fn next_if_normal(&mut self) -> (r: Option<RawString>)
        requires
            old(self).wf(),
        ensures
            final(self).wf(),
            final(self)@ == next_if_normal_step(old(self)@).0,
            match (r, next_if_normal_step(old(self)@).1) {
                (Some(v), Some(q)) => v@ == q,
                (None, None) => true,
                _ => false,
            },
    {
        if self.next_is_normal() {
            self.source.next()
        } else {
            None
        }
    }

    /// Claims the value attached to the current argument, with a flag
    /// telling whether an `=` joined it.
    fn raw_optional_value(&mut self) -> (r: Option<(RawString, bool)>)
        requires
            old(self).wf(),
        ensures
            final(self).wf(),
            final(self)@ == optional_value_step(old(self)@).0,
            match (r, optional_value_step(old(self)@).1) {
                (Some(p), Some(q)) => p.0@ == q.0 && p.1 == q.1,
                (None, None) => true,
                _ => false,
            },
    {
        let mut st = State::Idle;
        core::mem::swap(&mut st, &mut self.state);
        match st {
            State::PendingValue(v) => Some((v, true)),
            State::Shorts(arg, pos) => {
                let n = arg.len();
                if pos >= n {
                    None
                } else if byte_at(&arg, pos) == EQUALS {
                    proof {
                        lemma_boundary_after_ascii(arg@, pos as int);
                    }
                    let v = arg.slice(pos + 1, n);
                    Some((v, true))
                } else {
                    let v = arg.slice(pos, n);
                    Some((v, false))
                }
            },
            State::FinishedOpts => {
                self.state = State::FinishedOpts;
                None
            },
            State::Idle => None,
        }
    }

    /// Claims a value only when it is concatenated to the last option,
    /// as in `-ovalue`, `--option=value` or `-o=value` — never a
    /// separate argument.
    pub fn optional_value(&mut self) -> (r: Option<RawString>)
        requires
            old(self).wf(),
        ensures
            final(self).wf(),
            final(self)@ == optional_value_step(old(self)@).0,
            match (r, optional_value_step(old(self)@).1) {
                (Some(v), Some(q)) => v@ == q.0,
                (None, None) => true,
                _ => false,
            },
    {
        match self.raw_optional_value() {
            Some((v, _)) => Some(v),
            None => None,
        }
    }

    /// One step inside a short cluster: emit the character at `pos`.
    fn cluster_next(&mut self, arg: RawString, pos: usize) -> (r: Result<Option<Arg>, Error>)
        requires
            old(self).state is Idle,
            1 <= pos < arg@.len(),
            is_boundary(arg@, pos as int),
        ensures
            final(self).wf(),
            final(self)@ == cluster_step(old(self)@, arg@, pos as int).0,
            arg_result_view(r) == cluster_step(old(self)@, arg@, pos as int).1,
    {
        let ghost rest = arg@.subrange(pos as int, arg@.len() as int);
        let n = arg.len();
        match unicode::utf8_step_at(arg.as_bytes(), pos) {
            Ok((c, j)) => {
                if c == '=' && pos > 1 {
                    proof {
                        unicode::lemma_ascii_scalar(rest);
                        assert(arg@[pos as int] == rest[0]);
                        lemma_boundary_after_ascii(arg@, pos as int);
                    }
                    let value = arg.slice(pos + 1, n);
                    let option = self.format_last_option_or_empty();
                    Err(Error::UnexpectedValue { option, value })
                } else {
                    proof {
                        lemma_boundary_after_scalar(arg@, pos as int);
                    }
                    self.last_option = LastOption::Short(c);
                    self.state = State::Shorts(arg, j);
                    Ok(Some(Arg::Short(c)))
                }
            },
            Err(e) => {
                let skip: usize = match e {
                    Some(k) => k,
                    None => n - pos,
                };
                let j = pos + skip;
                proof {
                    unicode::lemma_skip_len_bounds(rest);
                    match e {
                        Some(k) => {
                            assert(arg@.subrange(j - k, arg@.len() as int) == rest);
                            assert(crate::raw::ends_malformed_unit(arg@, j as int));
                        },
                        None => {
                            assert(j == arg@.len());
                        },
                    }
                    assert(is_boundary(arg@, j as int));
                }
                self.last_option = LastOption::Short(REPLACEMENT);
                self.state = State::Shorts(arg, j);
                Ok(Some(Arg::Short(REPLACEMENT)))
            },
        }
    }

    /// One step on a long option: split at the first `=`, remember the
    /// lossily decoded name, and stash the joined value if any.
    fn long_next(&mut self, a: RawString) -> (r: Result<Option<Arg>, Error>)
        requires
            old(self).state is Idle,
            a@.len() >= 2,
            a@[0] == DASH,
            a@[1] == DASH,
        ensures
            final(self).wf(),
            final(self)@ == long_step(old(self)@, a@).0,
            arg_result_view(r) == long_step(old(self)@, a@).1,
    {
        let n = a.len();
        let eq_idx = find_eq_exec(a.as_bytes());
        proof {
            lemma_find_eq_in_range(a@, 0);
        }
        let name_raw: RawString = match eq_idx {
            Some(i) => {
                proof {
                    lemma_boundary_at_ascii(a@, i as int);
                    lemma_boundary_after_ascii(a@, i as int);
                }
                let value = a.slice(i + 1, n);
                let name_raw = a.slice(0, i);
                self.state = State::PendingValue(value);
                name_raw
            },
            None => a,
        };
        let name = unicode::lossy_to_string(name_raw.as_bytes());
        let nr_len = name_raw.len();
        let tail = vstd::slice::slice_subrange(name_raw.as_bytes(), 2, nr_len);
        let long = unicode::lossy_to_string(tail);
        proof {
            unicode::lemma_lossy_dash_prefix(name_raw@);
            assert(tail@ == name_raw@.subrange(2, name_raw@.len() as int));
        }
        self.last_option = LastOption::Long(name);
        Ok(Some(Arg::Long(long)))
    }

    /// One step with nothing partially processed: classify the next raw
    /// argument.
    fn fresh_next(&mut self) -> (r: Result<Option<Arg>, Error>)
        requires
            old(self).state is Idle,
        ensures
            final(self).wf(),
            final(self)@ == fresh_step(old(self)@).0,
            arg_result_view(r) == fresh_step(old(self)@).1,
    {
        let a = match self.source.next() {
            Some(a) => a,
            None => {
                return Ok(None);
            },
        };
        let alen = a.len();
        if is_dashdash(&a) {
            self.state = State::FinishedOpts;
            match self.source.next() {
                Some(v) => Ok(Some(Arg::Value(v))),
                None => Ok(None),
            }
        } else if alen >= 2 && byte_at(&a, 0) == DASH && byte_at(&a, 1) == DASH {
            self.long_next(a)
        } else if alen > 1 && byte_at(&a, 0) == DASH {
            proof {
                lemma_boundary_after_ascii(a@, 0);
            }
            self.cluster_next(a, 1)
        } else {
            Ok(Some(Arg::Value(a)))
        }
    }

    /// The next option or positional argument, or `Ok(None)` when the
    /// command line is exhausted.
    ///
    /// Option names that are not valid Unicode are decoded with
    /// replacement characters; a malformed unit in a short cluster
    /// yields a replacement-character `Short` and the cursor advances
    /// past exactly that unit, so the rest of the argument still
    /// tokenizes and repeated calls always reach the end.
    ///
    /// Fails with [`Error::UnexpectedValue`] when the previous option
    /// carried a `=`-joined value that was never claimed; parsing can
    /// continue after the error.
    pub fn next(&mut self) -> (r: Result<Option<Arg>, Error>)
        requires
            old(self).wf(),
        ensures
            final(self).wf(),
            final(self)@ == next_step(old(self)@).0,
            arg_result_view(r) == next_step(old(self)@).1,
    {
        let mut st = State::Idle;
        core::mem::swap(&mut st, &mut self.state);
        match st {
            State::PendingValue(v) => {
                let option = self.format_last_option_or_empty();
                Err(Error::UnexpectedValue { option, value: v })
            },
            State::Shorts(arg, pos) => {
                if pos < arg.len() {
                    self.cluster_next(arg, pos)
                } else {
                    self.fresh_next()
                }
            },
            State::FinishedOpts => {
                self.state = State::FinishedOpts;
                match self.source.next() {
                    Some(v) => Ok(Some(Arg::Value(v))),
                    None => Ok(None),
                }
            },
            State::Idle => self.fresh_next(),
        }
    }

    /// A value for the most recently emitted option: an attached one if
    /// pending, else the next raw argument whatever its shape (even
    /// option-shaped).  Fails with [`Error::MissingValue`] when the
    /// command line is exhausted and nothing is attached.
    pub fn value(&mut self) -> (r: Result<RawString, Error>)
        requires
            old(self).wf(),
        ensures
            final(self).wf(),
            final(self)@ == value_step(old(self)@).0,
            match r {
                Ok(v) => value_step(old(self)@).1 == Ok::<Seq<u8>, ErrorModel>(v@),
                Err(e) => value_step(old(self)@).1 == Err::<Seq<u8>, ErrorModel>(e@),
            },
    {
        match self.raw_optional_value() {
            Some((v, _)) => Ok(v),
            None => {
                match self.source.next() {
                    Some(v) => Ok(v),
                    None => {
                        let option = self.format_last_option();
                        Err(Error::MissingValue { option })
                    },
                }
            },
        }
    }

    /// Opens a multi-value gathering for the last option, used for
    /// options taking several arguments.  It succeeds exactly when at
    /// least one value is available — attached, or next in line and
    /// plain — and consumes nothing by itself: only
    /// [`ValuesIter::next`] advances the parser, so an unused gathering
    /// is abandoned for free.
    ///
    /// Fails with [`Error::MissingValue`] when no value is available.
    pub fn values(&self) -> (r: Result<ValuesIter, Error>)
        ensures
            match r {
                Ok(it) => (has_pending(self@) || next_is_normal(self@)) && it@ == (false, true),
                Err(e) => !(has_pending(self@) || next_is_normal(self@)) && e@
                    == ErrorModel::MissingValue { option: last_text(self@.last) },
            },
    {
        if self.has_pending() || self.next_is_normal() {
            Ok(ValuesIter { took_first: false, live: true })
        } else {
            let option = self.format_last_option();
            Err(Error::MissingValue { option })
        }
    }

    /// Takes over the remaining raw arguments, bypassing all option
    /// interpretation.
    ///
    /// Fails with [`Error::UnexpectedValue`] when part of the current
    /// argument is still attached (a pending `--option=value` or the
    /// rest of a cluster), consuming it — so a retry succeeds.
    pub fn raw_args(&mut self) -> (r: Result<&mut RawArgs, Error>)
        requires
            old(self).wf(),
        ensures
            ({
                let (m2, r2) = raw_args_step(old(self)@);
                match r {
                    Ok(ra) => r2 is Ok && (*ra)@ == m2.source && final(self)@.source == final(ra)@
                        && final(self)@.bin == m2.bin && final(self)@.cursor == m2.cursor && final(self)@.last == m2.last && final(self).wf(),
                    Err(e) => (r2 matches Err(em) && em == e@) && final(self)@ == m2 && final(self).wf(),
                }
            }),
    {
        match self.raw_optional_value() {
            Some((v, _)) => {
                let option = self.format_last_option_or_empty();
                Err(Error::UnexpectedValue { option, value: v })
            },
            None => Ok(&mut self.source),
        }
    }

    /// As [`Parser::raw_args`], but refuses without consuming anything
    /// when part of the current argument is still attached, so it is
    /// safe to call speculatively at any time.
    pub fn try_raw_args(&mut self) -> (r: Option<&mut RawArgs>)
        requires
            old(self).wf(),
        ensures
            ({
                let m0 = old(self)@;
                match r {
                    Some(ra) => !has_pending(m0) && (*ra)@ == m0.source && final(self)@.source
                        == final(ra)@ && final(self)@.bin == m0.bin && final(self)@.cursor
                        == m0.cursor && final(self)@.last == m0.last && final(self).wf(),
                    None => has_pending(m0) && final(self)@ == m0 && final(self).wf(),
                }
            }),
    {
        if self.has_pending() {
            None
        } else {
            Some(&mut self.source)
        }
    }
}

/// An iterator state for multiple option-arguments, returned by
/// [`Parser::values`].
///
/// The iterator does not hold the parser; each call to
/// [`ValuesIter::next`] is handed the same parser it was opened on.
/// While a gathering is in progress no other operation should be issued
/// against that parser: the gathering is meant to be the parser's single
/// active consumer.
#[derive(Debug)]
pub struct ValuesIter {
    took_first: bool,
    live: bool,
}

impl View for ValuesIter {
    type V = (bool, bool);

    closed spec fn view(&self) -> (bool, bool) {
        (self.took_first, self.live)
    }
}

impl ValuesIter {
    /// The next gathered value: the attached one first if any (an
    /// `=`-joined one is also the last), then each following plain
    /// argument, stopping before anything option-shaped, before `--`,
    /// or at the end of the command line.
    pub fn next(&mut self, parser: &mut Parser) -> (r: Option<RawString>)
        requires
            old(parser).wf(),
        ensures
            final(parser).wf(),
            ({
                let (t2, l2, m2, v2) = values_iter_step(
                    old(self)@.0,
                    old(self)@.1,
                    old(parser)@,
                );
                &&& final(self)@ == (t2, l2)
                &&& final(parser)@ == m2
                &&& match (r, v2) {
                    (Some(v), Some(q)) => v@ == q,
                    (None, None) => true,
                    _ => false,
                }
            }),
    {
        if !self.live {
            return None;
        }
        if self.took_first {
            return parser.next_if_normal();
        }
        match parser.raw_optional_value() {
            Some((v, had_eq)) => {
                self.took_first = true;
                if had_eq {
                    self.live = false;
                }
                Some(v)
            },
            None => {
                match parser.next_if_normal() {
                    Some(v) => {
                        self.took_first = true;
                        Some(v)
                    },
                    None => None,
                }
            },
        }
    }
}

fn byte_at(a: &RawString, i: usize) -> (b: u8)
    requires
        i < a@.len(),
    ensures
        b == a@[i as int],
{
    a.as_bytes()[i]
}

fn is_dashdash(a: &RawString) -> (b: bool)
    ensures
        b == (a@.len() == 2 && a@[0] == DASH && a@[1] == DASH),
{
    let bytes = a.as_bytes();
    bytes.len() == 2 && bytes[0] == DASH && bytes[1] == DASH
}

fn find_eq_exec(bytes: &[u8]) -> (r: Option<usize>)
    ensures
        match r {
            Some(i) => find_eq(bytes@) == Some(i as int),
            None => find_eq(bytes@) == None::<int>,
        },
{
    let n = bytes.len();
    let mut i: usize = 0;
    while i < n
        invariant
            i <= n,
            n == bytes@.len(),
            find_eq(bytes@) == find_eq_from(bytes@, i as int),
        decreases n - i,
    {
        if bytes[i] == EQUALS {
            return Some(i);
        }
        i = i + 1;
    }
    None
}

} // verus!
