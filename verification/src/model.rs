//! The mathematical model of the tokenizer state machine.
//!
//! A parser is modelled by [`ParserModel`]: the program name, the raw
//! arguments not yet consumed, the cursor describing where the machine
//! stands inside the current argument, and the most recently emitted
//! option (kept only for diagnostics).  Each public operation of the
//! executable [`crate::parser::Parser`] is specified as a pure transition
//! function on this model, so a caller can compute, argument by argument,
//! exactly which tokens a command line yields.
//!
//! The lemmas at the end state the global guarantees: every step leaves
//! the machine's [`measure`] no larger, every step that yields a token or
//! an error makes it strictly smaller (so tokenization always
//! terminates), and once `next` reports the end it reports the end
//! forever.

use vstd::prelude::*;
use vstd::utf8::*;

use crate::error::ErrorModel;
use crate::unicode::lossy_decode_spec;
use crate::unicode::REPLACEMENT;

verus! {

/// The dash byte `-`.
pub const DASH: u8 = 0x2D;

/// The equals-sign byte `=`.
pub const EQUALS: u8 = 0x3D;

/// Where the tokenizer stands inside the current argument.
pub enum CursorModel {
    /// No partially processed argument.
    Idle,
    /// A `--option=value` was seen and `value` has not been claimed.
    PendingValue(Seq<u8>),
    /// Mid-decomposition of a `-abc` cluster: the argument's bytes and
    /// the offset of the next character to decode.
    InShortCluster(Seq<u8>, int),
    /// A lone `--` was consumed; everything that remains is a value.
    OptionsFinished,
}

/// The most recently emitted option, kept for error messages.
pub enum LastOptionModel {
    /// No option has been emitted yet.
    NotSeen,
    /// A short option, as its character.
    Short(char),
    /// A long option, as its display text including the leading dashes.
    Long(Seq<char>),
}

/// A token of the command line.
pub enum ArgModel {
    /// A short option, e.g. `-q`.
    Short(char),
    /// A long option's name, without the leading dashes.
    Long(Seq<char>),
    /// A free-standing value, as raw bytes.
    Value(Seq<u8>),
}

/// The full abstract state of a parser.
pub struct ParserModel {
    /// The program name, decoded lossily, when one was supplied.
    pub bin: Option<Seq<char>>,
    /// The raw arguments not yet consumed, oldest first.
    pub source: Seq<Seq<u8>>,
    /// Where the machine stands inside the current argument.
    pub cursor: CursorModel,
    /// The most recently emitted option.
    pub last: LastOptionModel,
}

/// Structural validity of a model: a cluster offset always lies inside
/// its argument, past the leading dash.
pub open spec fn wf_model(m: ParserModel) -> bool {
    match m.cursor {
        CursorModel::InShortCluster(arg, pos) => 1 <= pos <= arg.len(),
        _ => true,
    }
}

/// The display text of the most recently emitted option.
pub open spec fn last_text(l: LastOptionModel) -> Option<Seq<char>> {
    match l {
        LastOptionModel::NotSeen => None,
        LastOptionModel::Short(c) => Some(seq!['-', c]),
        LastOptionModel::Long(name) => Some(name),
    }
}

/// As [`last_text`], with the empty text when no option was seen.
pub open spec fn last_text_or_empty(l: LastOptionModel) -> Seq<char> {
    match last_text(l) {
        Some(t) => t,
        None => Seq::<char>::empty(),
    }
}

/// True when part of the current argument is still attached and
/// unclaimed: a pending `=`-joined value, or the rest of a cluster.
pub open spec fn has_pending(m: ParserModel) -> bool {
    match m.cursor {
        CursorModel::PendingValue(_) => true,
        CursorModel::InShortCluster(arg, pos) => pos < arg.len(),
        _ => false,
    }
}

/// True when the next argument in the source would be gathered by a
/// multi-value collection: there is one, and it is a plain value — not
/// option-shaped — or option interpretation is over.  A lone `-` counts
/// as a value.
pub open spec fn next_is_normal(m: ParserModel) -> bool
    recommends
        !has_pending(m),
{
    if m.source.len() == 0 {
        false
    } else if m.cursor is OptionsFinished {
        true
    } else if m.source[0].len() == 1 && m.source[0][0] == DASH {
        true
    } else if m.source[0].len() >= 1 && m.source[0][0] == DASH {
        false
    } else {
        true
    }
}

/// Claiming the value attached to the current argument: a pending
/// `=`-joined value, or the rest of a short cluster (with a leading `=`
/// dropped).  The second component tells whether an `=` joined it.
/// Claiming always leaves the cursor idle; a cursor already at the end
/// of its cluster yields nothing but is cleared too.
pub open spec fn optional_value_step(m: ParserModel) -> (ParserModel, Option<(Seq<u8>, bool)>) {
    match m.cursor {
        CursorModel::PendingValue(v) => (
            ParserModel { cursor: CursorModel::Idle, ..m },
            Some((v, true)),
        ),
        CursorModel::InShortCluster(arg, pos) => {
            if pos >= arg.len() {
                (ParserModel { cursor: CursorModel::Idle, ..m }, None)
            } else if arg[pos] == EQUALS {
                (
                    ParserModel { cursor: CursorModel::Idle, ..m },
                    Some((arg.subrange(pos + 1, arg.len() as int), true)),
                )
            } else {
                (
                    ParserModel { cursor: CursorModel::Idle, ..m },
                    Some((arg.subrange(pos, arg.len() as int), false)),
                )
            }
        },
        _ => (m, None),
    }
}

/// One `next` step inside a short cluster at offset `pos` of `arg`.
///
/// A well-formed character becomes a `Short` token and the offset
/// advances past it — except an `=` past the first cluster position,
/// which means an unclaimed joined value and fails (an `=` right after
/// the dash is a flag literally named `=`).  A malformed unit becomes a
/// replacement-character `Short` and the offset advances past exactly
/// that unit, so the remaining bytes of the argument still tokenize and
/// scanning always reaches the end of the element.
pub open spec fn cluster_step(m: ParserModel, arg: Seq<u8>, pos: int) -> (
    ParserModel,
    Result<Option<ArgModel>, ErrorModel>,
)
    recommends
        1 <= pos < arg.len(),
{
    let rest = arg.subrange(pos, arg.len() as int);
    if valid_first_scalar(rest) {
        let c = decode_first_scalar(rest) as char;
        if c == '=' && pos > 1 {
            (
                ParserModel { cursor: CursorModel::Idle, ..m },
                Err(
                    ErrorModel::UnexpectedValue {
                        option: last_text_or_empty(m.last),
                        value: arg.subrange(pos + 1, arg.len() as int),
                    },
                ),
            )
        } else {
            (
                ParserModel {
                    cursor: CursorModel::InShortCluster(arg, pos + length_of_first_scalar(rest)),
                    last: LastOptionModel::Short(c),
                    ..m
                },
                Ok(Some(ArgModel::Short(c))),
            )
        }
    } else {
        (
            ParserModel {
                cursor: CursorModel::InShortCluster(
                    arg,
                    pos + crate::unicode::skip_len_after_error(rest),
                ),
                last: LastOptionModel::Short(REPLACEMENT),
                ..m
            },
            Ok(Some(ArgModel::Short(REPLACEMENT))),
        )
    }
}

/// The position of the first `=` in `s` at or after `from`.
pub open spec fn find_eq_from(s: Seq<u8>, from: int) -> Option<int>
    recommends
        0 <= from <= s.len(),
    decreases s.len() - from,
    when 0 <= from <= s.len()
{
    if from >= s.len() {
        None
    } else if s[from] == EQUALS {
        Some(from)
    } else {
        find_eq_from(s, from + 1)
    }
}

/// The position of the first `=` in `s`.
pub open spec fn find_eq(s: Seq<u8>) -> Option<int> {
    find_eq_from(s, 0)
}

/// One `next` step on a long option `a` (which begins with two dashes).
///
/// The part before the first `=` decodes lossily to the option's display
/// text; what follows the `=` becomes the pending joined value.  The
/// `Long` token carries the name without the leading dashes.
pub open spec fn long_step(m: ParserModel, a: Seq<u8>) -> (
    ParserModel,
    Result<Option<ArgModel>, ErrorModel>,
)
    recommends
        a.len() >= 2,
        a[0] == DASH,
        a[1] == DASH,
{
    match find_eq(a) {
        Some(i) => {
            let name = lossy_decode_spec(a.subrange(0, i));
            (
                ParserModel {
                    cursor: CursorModel::PendingValue(a.subrange(i + 1, a.len() as int)),
                    last: LastOptionModel::Long(name),
                    ..m
                },
                Ok(Some(ArgModel::Long(name.skip(2)))),
            )
        },
        None => {
            let name = lossy_decode_spec(a);
            (
                ParserModel { last: LastOptionModel::Long(name), ..m },
                Ok(Some(ArgModel::Long(name.skip(2)))),
            )
        },
    }
}

/// One `next` step with nothing partially processed: classify the next
/// raw argument.  A lone `--` is consumed silently and ends option
/// interpretation; an argument starting with two dashes is a long
/// option; one starting with a single dash and more than one byte opens
/// a short cluster (and its first character is emitted at once); a lone
/// `-` or anything not starting with a dash is a value.
pub open spec fn fresh_step(m: ParserModel) -> (
    ParserModel,
    Result<Option<ArgModel>, ErrorModel>,
)
    recommends
        m.cursor is Idle,
{
    if m.source.len() == 0 {
        (m, Ok(None))
    } else {
        let a = m.source[0];
        let m1 = ParserModel { source: m.source.drop_first(), ..m };
        if a.len() == 2 && a[0] == DASH && a[1] == DASH {
            let m2 = ParserModel { cursor: CursorModel::OptionsFinished, ..m1 };
            if m2.source.len() == 0 {
                (m2, Ok(None))
            } else {
                (
                    ParserModel { source: m2.source.drop_first(), ..m2 },
                    Ok(Some(ArgModel::Value(m2.source[0]))),
                )
            }
        } else if a.len() >= 2 && a[0] == DASH && a[1] == DASH {
            long_step(m1, a)
        } else if a.len() > 1 && a[0] == DASH {
            cluster_step(m1, a, 1)
        } else {
            (m1, Ok(Some(ArgModel::Value(a))))
        }
    }
}

/// One step of `next`: the token stream's transition function.
pub open spec fn next_step(m: ParserModel) -> (
    ParserModel,
    Result<Option<ArgModel>, ErrorModel>,
) {
    match m.cursor {
        CursorModel::PendingValue(v) => (
            ParserModel { cursor: CursorModel::Idle, ..m },
            Err(ErrorModel::UnexpectedValue { option: last_text_or_empty(m.last), value: v }),
        ),
        CursorModel::InShortCluster(arg, pos) => {
            if pos < arg.len() {
                cluster_step(m, arg, pos)
            } else {
                fresh_step(ParserModel { cursor: CursorModel::Idle, ..m })
            }
        },
        CursorModel::OptionsFinished => {
            if m.source.len() == 0 {
                (m, Ok(None))
            } else {
                (
                    ParserModel { source: m.source.drop_first(), ..m },
                    Ok(Some(ArgModel::Value(m.source[0]))),
                )
            }
        },
        CursorModel::Idle => fresh_step(m),
    }
}

/// One step of `value`: an attached value if one is pending, else the
/// next raw argument whatever its shape, else a missing-value error.
pub open spec fn value_step(m: ParserModel) -> (ParserModel, Result<Seq<u8>, ErrorModel>) {
    let (m1, ov) = optional_value_step(m);
    match ov {
        Some(p) => (m1, Ok(p.0)),
        None => {
            if m1.source.len() > 0 {
                (ParserModel { source: m1.source.drop_first(), ..m1 }, Ok(m1.source[0]))
            } else {
                (m1, Err(ErrorModel::MissingValue { option: last_text(m1.last) }))
            }
        },
    }
}

/// Consuming the next argument only when it is a plain value.
pub open spec fn next_if_normal_step(m: ParserModel) -> (ParserModel, Option<Seq<u8>>)
    recommends
        !has_pending(m),
{
    if next_is_normal(m) {
        (ParserModel { source: m.source.drop_first(), ..m }, Some(m.source[0]))
    } else {
        (m, None)
    }
}

/// One step of a multi-value gathering, over the iterator's state
/// (`taken`: a first value was yielded; `live`: the gathering is still
/// open).  The first yield takes an attached value when one exists — an
/// `=`-joined one closes the gathering after that single value — and
/// otherwise takes the next plain argument; later yields take plain
/// arguments until something option-shaped, a `--`, or the end.
pub open spec fn values_iter_step(taken: bool, live: bool, m: ParserModel) -> (
    bool,
    bool,
    ParserModel,
    Option<Seq<u8>>,
) {
    if !live {
        (taken, live, m, None)
    } else if taken {
        let (m1, v) = next_if_normal_step(m);
        (taken, live, m1, v)
    } else {
        let (m1, ov) = optional_value_step(m);
        match ov {
            Some(p) => (true, !p.1, m1, Some(p.0)),
            None => {
                let (m2, v) = next_if_normal_step(m1);
                match v {
                    Some(x) => (true, live, m2, Some(x)),
                    None => (taken, live, m2, None),
                }
            },
        }
    }
}

/// One step of claiming raw access to the remaining arguments: a
/// half-processed argument is an error (and is consumed by it, so a
/// retry succeeds); otherwise access is granted with nothing changed
/// but a finished cluster being cleared.
pub open spec fn raw_args_step(m: ParserModel) -> (ParserModel, Result<(), ErrorModel>) {
    let (m1, ov) = optional_value_step(m);
    match ov {
        Some(p) => (
            m1,
            Err(ErrorModel::UnexpectedValue { option: last_text_or_empty(m1.last), value: p.0 }),
        ),
        None => (m1, Ok(())),
    }
}

/// True when the machine is exhausted: no arguments remain and nothing
/// is partially processed.
pub open spec fn done(m: ParserModel) -> bool {
    m.source.len() == 0 && (m.cursor is Idle || m.cursor is OptionsFinished)
}

/// The weight an argument contributes to the measure.
pub open spec fn arg_weight(a: Seq<u8>) -> nat {
    a.len() + 2
}

/// The combined weight of the arguments not yet consumed.
pub open spec fn source_weight(s: Seq<Seq<u8>>) -> nat
    decreases s.len(),
{
    if s.len() == 0 {
        0
    } else {
        arg_weight(s[0]) + source_weight(s.drop_first())
    }
}

/// The weight of the partially processed argument.
pub open spec fn cursor_weight(c: CursorModel) -> nat {
    match c {
        CursorModel::PendingValue(v) => v.len() + 1,
        CursorModel::InShortCluster(arg, pos) => if 0 <= pos <= arg.len() {
            (arg.len() - pos + 1) as nat
        } else {
            1
        },
        _ => 0,
    }
}

/// How much work is left: an upper bound on the number of tokens and
/// errors the machine can still produce.
pub open spec fn measure(m: ParserModel) -> nat {
    source_weight(m.source) + cursor_weight(m.cursor)
}

/// An exhausted machine stays exactly where it is and keeps reporting
/// the end of the token stream.
pub proof fn lemma_done_next(m: ParserModel)
    requires
        done(m),
    ensures
        next_step(m) == (m, Ok::<Option<ArgModel>, ErrorModel>(None)),
{
}

/// Whenever `next` reports the end of the stream, the machine it leaves
/// behind is exhausted.
pub proof fn lemma_next_none_done(m: ParserModel)
    requires
        next_step(m).1 == Ok::<Option<ArgModel>, ErrorModel>(None),
    ensures
        done(next_step(m).0),
{
}

/// Once `next` reports the end of the stream, every later `next` reports
/// it too, and the machine never changes again.
pub proof fn lemma_exhaustion_idempotent(m: ParserModel)
    requires
        next_step(m).1 == Ok::<Option<ArgModel>, ErrorModel>(None),
    ensures
        next_step(next_step(m).0).0 == next_step(m).0,
        next_step(next_step(m).0).1 == Ok::<Option<ArgModel>, ErrorModel>(None),
{
    lemma_next_none_done(m);
    lemma_done_next(next_step(m).0);
}

/// Every `next` step leaves the measure no larger, and any step that
/// yields a token or an error makes it strictly smaller: tokenization of
/// a finite command line always terminates.
pub proof fn lemma_next_step_progress(m: ParserModel)
    requires
        wf_model(m),
    ensures
        measure(next_step(m).0) <= measure(m),
        !(next_step(m).1 matches Ok(oc) && oc is None) ==> measure(next_step(m).0) < measure(m),
{
    match m.cursor {
        CursorModel::PendingValue(_) => {},
        CursorModel::InShortCluster(arg, pos) => {
            if pos < arg.len() {
                lemma_cluster_step_progress(m, arg, pos);
            } else {
                let m1 = ParserModel { cursor: CursorModel::Idle, ..m };
                lemma_fresh_step_progress(m1);
            }
        },
        CursorModel::OptionsFinished => {
            if m.source.len() > 0 {
                assert(source_weight(m.source) == arg_weight(m.source[0]) + source_weight(
                    m.source.drop_first(),
                ));
            }
        },
        CursorModel::Idle => {
            lemma_fresh_step_progress(m);
        },
    }
}

proof fn lemma_cluster_step_progress(m: ParserModel, arg: Seq<u8>, pos: int)
    requires
        1 <= pos < arg.len(),
        m.cursor == CursorModel::InShortCluster(arg, pos),
    ensures
        measure(cluster_step(m, arg, pos).0) < measure(m),
{
    let rest = arg.subrange(pos, arg.len() as int);
    if valid_first_scalar(rest) {
        crate::unicode::lemma_first_scalar_prefix(rest);
    } else {
        crate::unicode::lemma_skip_len_bounds(rest);
    }
}

proof fn lemma_fresh_step_progress(m: ParserModel)
    requires
        m.cursor is Idle,
    ensures
        measure(fresh_step(m).0) <= measure(m),
        !(fresh_step(m).1 matches Ok(oc) && oc is None) ==> measure(fresh_step(m).0) < measure(m),
{
    if m.source.len() == 0 {
    } else {
        let a = m.source[0];
        let m1 = ParserModel { source: m.source.drop_first(), ..m };
        assert(source_weight(m.source) == arg_weight(a) + source_weight(m1.source));
        if a.len() == 2 && a[0] == DASH && a[1] == DASH {
            if m1.source.len() > 0 {
                assert(source_weight(m1.source) == arg_weight(m1.source[0]) + source_weight(
                    m1.source.drop_first(),
                ));
            }
        } else if a.len() >= 2 && a[0] == DASH && a[1] == DASH {
            lemma_find_eq_in_range(a, 0);
        } else if a.len() > 1 && a[0] == DASH {
            let rest = a.subrange(1, a.len() as int);
            if valid_first_scalar(rest) {
                crate::unicode::lemma_first_scalar_prefix(rest);
            } else {
                crate::unicode::lemma_skip_len_bounds(rest);
            }
        } else {
        }
    }
}

/// No value-acquisition operation grows the measure, and claiming an
/// attached value or consuming an argument shrinks it strictly: no
/// sequence of calls can run forever.
pub proof fn lemma_value_steps_progress(m: ParserModel)
    requires
        wf_model(m),
    ensures
        measure(optional_value_step(m).0) <= measure(m),
        optional_value_step(m).1 is Some ==> measure(optional_value_step(m).0) < measure(m),
        measure(value_step(m).0) <= measure(m),
        value_step(m).1 is Ok ==> measure(value_step(m).0) < measure(m),
        measure(next_if_normal_step(m).0) <= measure(m),
        next_if_normal_step(m).1 is Some ==> measure(next_if_normal_step(m).0) < measure(m),
        measure(raw_args_step(m).0) <= measure(m),
{
    let (m1, ov) = optional_value_step(m);
    if m1.source.len() > 0 {
        assert(source_weight(m1.source) == arg_weight(m1.source[0]) + source_weight(
            m1.source.drop_first(),
        ));
    }
    if next_is_normal(m) {
        assert(source_weight(m.source) == arg_weight(m.source[0]) + source_weight(
            m.source.drop_first(),
        ));
    }
}

/// An attached value exists exactly when [`has_pending`] says so: the
/// same condition decides whether `optional_value` yields a value and
/// whether `try_raw_args` refuses.
pub proof fn lemma_pending_iff_optional_value(m: ParserModel)
    ensures
        optional_value_step(m).1 is Some <==> has_pending(m),
{
}

/// Claiming raw access never drops an argument: however the request
/// ends, the arguments not yet consumed are exactly what they were, so
/// a cursor abandoned after only peeking leaves them all for the next
/// tokenization step.
pub proof fn lemma_raw_access_no_loss(m: ParserModel)
    ensures
        raw_args_step(m).0.source == m.source,
{
}

/// A found `=` position lies inside the string.
pub proof fn lemma_find_eq_in_range(s: Seq<u8>, from: int)
    requires
        0 <= from <= s.len(),
    ensures
        match find_eq_from(s, from) {
            Some(i) => from <= i < s.len() && s[i] == EQUALS && (forall|j: int|
                from <= j < i ==> s[j] != EQUALS),
            None => forall|j: int| from <= j < s.len() ==> s[j] != EQUALS,
        },
    decreases s.len() - from,
{
    if from >= s.len() {
    } else if s[from] == EQUALS {
    } else {
        lemma_find_eq_in_range(s, from + 1);
    }
}

} // verus!
