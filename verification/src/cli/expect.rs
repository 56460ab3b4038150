//! Holding a timeline of violations against what was expected of it.
//!
//! An expectation is a kind and a window of time: `phone@2.1s`, or
//! `gaze@10-12`. A window rather than an instant, because the exact frame a
//! hold timer expires on depends on the rate a clip was captured at.

use vstd::prelude::*;

use crate::config::texts_view;
use crate::error::{DetectError, ErrorView};
use crate::number::Number;
use crate::text::{
    chars_of, law_a_split_comes_together, owned, split_once, split_once_spec, string_of, trim, trim_spec,
};
use crate::types::{Event, ViolationKind};

verus! {

broadcast use vstd::string::group_string_axioms;

/// Arithmetic on seconds. Nothing is required of an implementation.
pub trait Seconds: Sized {
    /// The number of seconds that a text stands for, if it is a number.
    fn read(&self, text: String) -> Option<Number>;

    /// `a - b`.
    fn difference(&self, a: Number, b: Number) -> Number;

    /// `a + b`.
    fn sum(&self, a: Number, b: Number) -> Number;

    /// Milliseconds as seconds.
    fn of_ms(&self, ms: u64) -> Number;

    /// `t` with two digits after the point.
    fn shown(&self, t: Number) -> String;
}

/// The bits of one and a half seconds, which is how far the window of a single
/// moment reaches to either side.
pub const REACH: u64 = 0x3ff8_0000_0000_0000;

/// How far the window of a single moment reaches to either side.
pub open spec fn reach() -> Number {
    Number { bits: REACH }
}

/// A number of seconds without the white space around it and the unit behind it.
pub open spec fn bare_seconds(s: Seq<char>) -> Seq<char> {
    let t = trim_spec(s);
    if t.len() > 0 && t.last() == 's' {
        t.drop_last()
    } else {
        t
    }
}

/// Whether `x` is what a text of seconds can be read as.
pub open spec fn reads<S: Seconds>(math: &S, s: Seq<char>, x: Option<Number>) -> bool {
    exists|t: String| t@ == bare_seconds(s) && #[trigger] call_ensures(S::read, (math, t), x)
}

/// A kind of violation, and when it should start.
#[derive(Debug, Clone, Copy, PartialEq, Eq)]
pub struct Expectation {
    pub kind: ViolationKind,
    pub lo: Number,
    pub hi: Number,
}

/// What is said about an expectation that makes no sense.
pub open spec fn refused(spec: Seq<char>, why: Seq<char>) -> ErrorView {
    ErrorView::Config("--expect "@ + spec + ": "@ + why)
}

/// What is said about a text that is no number of seconds.
pub open spec fn not_seconds(spec: Seq<char>, s: Seq<char>) -> ErrorView {
    refused(spec, s + " is not a number of seconds"@)
}

/// Whether a single moment can be read as the window of an expectation.
pub open spec fn around<S: Seconds>(math: &S, s: Seq<char>, e: Expectation) -> bool {
    exists|t: Number|
        #[trigger] call_ensures(S::difference, (math, t, reach()), e.lo) && reads(math, s, Some(t)) && call_ensures(
            S::sum,
            (math, t, reach()),
            e.hi,
        )
}

/// Whether reading an expectation can come to `r`.
pub open spec fn outcome<S: Seconds>(math: &S, spec: Seq<char>, r: Result<Expectation, ErrorView>) -> bool {
    match split_once_spec(spec, '@') {
        None => r == Err::<Expectation, ErrorView>(refused(spec, "want KIND@SECS or KIND@START-END"@)),
        Some((name, window)) => match ViolationKind::named(name) {
            None => r == Err::<Expectation, ErrorView>(
                refused(spec, "`"@ + name + "` is not a violation kind"@),
            ),
            Some(kind) => match split_once_spec(window, '-') {
                Some((a, b)) => match r {
                    Ok(e) => e.kind == kind && reads(math, a, Some(e.lo)) && reads(math, b, Some(e.hi)),
                    Err(e) => {
                        ||| reads(math, a, None) && e == not_seconds(spec, a)
                        ||| (exists|lo: Number| reads(math, a, Some(lo))) && reads(math, b, None) && e == not_seconds(
                            spec,
                            b,
                        )
                    },
                },
                None => match r {
                    Ok(e) => e.kind == kind && around(math, window, e),
                    Err(e) => reads(math, window, None) && e == not_seconds(spec, window),
                },
            },
        },
    }
}

/// What an outcome says.
pub open spec fn outcome_view(r: Result<Expectation, DetectError>) -> Result<Expectation, ErrorView> {
    match r {
        Ok(e) => Ok(e),
        Err(e) => Err(e@),
    }
}

fn refuse(spec: &str, why: &str) -> (r: DetectError)
    ensures
        r@ == refused(spec@, why@),
{
    DetectError::Config(owned("--expect ").concat(spec).concat(": ").concat(why))
}

/// Read a number of seconds. A trailing `s` for the unit may be there.
fn parse_secs<S: Seconds>(s: &[char], spec: &str, math: &S) -> (r: Result<Number, DetectError>)
    ensures
        match r {
            Ok(t) => reads(math, s@, Some(t)),
            Err(e) => reads(math, s@, None) && e@ == not_seconds(spec@, s@),
        },
{
    let t = trim(s);
    let n: usize = t.len();
    let bare = if n > 0 && t[n - 1] == 's' {
        let cut = vstd::slice::slice_subrange(t, 0, n - 1);
        assert(cut@ =~= t@.drop_last());
        cut
    } else {
        t
    };
    let text = string_of(bare);
    let ghost shown = text;
    let got = math.read(text);
    assert(shown@ == bare_seconds(s@) && call_ensures(S::read, (math, shown), got));
    match got {
        Some(t) => Ok(t),
        None => {
            let why = string_of(s).concat(" is not a number of seconds");
            Err(refuse(spec, why.as_str()))
        },
    }
}

/// Read one expectation: `KIND@SECS` or `KIND@START-END`.
pub fn parse_expectation<S: Seconds>(spec: &str, math: &S) -> (r: Result<Expectation, DetectError>)
    ensures
        outcome(math, spec@, outcome_view(r)),
{
    let chars = chars_of(spec);
    let Some((name, window)) = split_once(chars.as_slice(), '@') else {
        return Err(refuse(spec, "want KIND@SECS or KIND@START-END"));
    };
    let kind = match ViolationKind::from_str(string_of(name).as_str()) {
        Ok(kind) => kind,
        Err(why) => {
            return Err(refuse(spec, why.as_str()));
        },
    };
    match split_once(window, '-') {
        Some((a, b)) => {
            let lo = match parse_secs(a, spec, math) {
                Ok(lo) => lo,
                Err(e) => {
                    return Err(e);
                },
            };
            assert(reads(math, a@, Some(lo)));
            match parse_secs(b, spec, math) {
                Ok(hi) => Ok(Expectation { kind, lo, hi }),
                Err(e) => Err(e),
            }
        },
        None => match parse_secs(window, spec, math) {
            Ok(t) => {
                let far = Number { bits: REACH };
                let lo = math.difference(t, far);
                let hi = math.sum(t, far);
                let e = Expectation { kind, lo, hi };
                assert(call_ensures(S::difference, (math, t, reach()), e.lo));
                assert(around(math, window@, e));
                Ok(e)
            },
            Err(e) => Err(e),
        },
    }
}

/// Whether an event can be found to be the expected one.
pub open spec fn can_hit<S: Seconds>(math: &S, e: Expectation, event: Event) -> bool {
    match event {
        Event::ViolationStarted(v) => v.kind == e.kind && exists|t: Number|
            #[trigger] call_ensures(S::of_ms, (math, v.t_start_ms), t) && Number::le(e.lo, t) && Number::le(t, e.hi),
        _ => false,
    }
}

/// Whether an event can be found not to be the expected one.
pub open spec fn can_miss<S: Seconds>(math: &S, e: Expectation, event: Event) -> bool {
    match event {
        Event::ViolationStarted(v) => v.kind != e.kind || exists|t: Number|
            #[trigger] call_ensures(S::of_ms, (math, v.t_start_ms), t) && !(Number::le(e.lo, t) && Number::le(
                t,
                e.hi,
            )),
        _ => true,
    }
}

/// Whether a violation of the expected kind starts within the window.
pub fn starts_within<S: Seconds>(e: &Expectation, events: &Vec<Event>, math: &S) -> (r: bool)
    ensures
        r ==> exists|i: int| 0 <= i < events@.len() && can_hit(math, *e, #[trigger] events@[i]),
        !r ==> forall|i: int| 0 <= i < events@.len() ==> can_miss(math, *e, #[trigger] events@[i]),
        r ==> exists|i: int, t: Number|
            0 <= i < events@.len() && (#[trigger] events@[i]) is ViolationStarted
                && events@[i]->ViolationStarted_0.kind == e.kind && #[trigger] call_ensures(
                S::of_ms,
                (math, events@[i]->ViolationStarted_0.t_start_ms),
                t,
            ) && Number::le(e.lo, t) && Number::le(t, e.hi),
        !r ==> forall|i: int|
            0 <= i < events@.len() && (#[trigger] events@[i]) is ViolationStarted
                && events@[i]->ViolationStarted_0.kind == e.kind ==> exists|t: Number|
                #[trigger] call_ensures(S::of_ms, (math, events@[i]->ViolationStarted_0.t_start_ms), t) && !(
                Number::le(e.lo, t) && Number::le(t, e.hi)),
{
    let n: usize = events.len();
    for i in 0..n
        invariant
            n == events@.len(),
            forall|j: int| 0 <= j < i ==> can_miss(math, *e, #[trigger] events@[j]),
    {
        if let Event::ViolationStarted(v) = &events[i] {
            if v.kind == e.kind {
                let t = math.of_ms(v.t_start_ms);
                if t.at_least(e.lo) && e.hi.at_least(t) {
                    assert(can_hit(math, *e, events@[i as int]));
                    return true;
                }
            }
        }
        assert(can_miss(math, *e, events@[i as int]));
    }
    false
}

/// Texts joined by a comma.
pub open spec fn joined(texts: Seq<Seq<char>>) -> Seq<char>
    decreases texts.len(),
{
    if texts.len() == 0 {
        Seq::empty()
    } else if texts.len() == 1 {
        texts.last()
    } else {
        joined(texts.drop_last()) + ", "@ + texts.last()
    }
}

/// Whether `text` is how a started violation can be listed.
pub open spec fn listed_as<S: Seconds>(math: &S, kind: ViolationKind, t_start_ms: u64, text: Seq<char>) -> bool {
    exists|t: Number, shown: String|
        #[trigger] call_ensures(S::of_ms, (math, t_start_ms), t) && #[trigger] call_ensures(
            S::shown,
            (math, t),
            shown,
        ) && text == kind.name() + "@"@ + shown@ + "s"@
}

/// Whether `texts` is how the started violations can be listed, in order.
pub open spec fn all_listed<S: Seconds>(math: &S, events: Seq<Event>, texts: Seq<Seq<char>>) -> bool
    decreases events.len(),
{
    if events.len() == 0 {
        texts.len() == 0
    } else {
        match events.last() {
            Event::ViolationStarted(v) => texts.len() > 0 && listed_as(math, v.kind, v.t_start_ms, texts.last())
                && all_listed(math, events.drop_last(), texts.drop_last()),
            _ => all_listed(math, events.drop_last(), texts),
        }
    }
}

/// What is said about an expectation that was not met.
pub open spec fn unmet_text(e: Expectation, lo: Seq<char>, hi: Seq<char>, seen: Seq<Seq<char>>) -> Seq<char> {
    "expected "@ + e.kind.name() + " to start between "@ + lo + "s and "@ + hi + "s, but it did not. Saw: "@ + (
    if seen.len() == 0 {
        "nothing"@
    } else {
        joined(seen)
    })
}

/// Whether `why` is what can be said about an expectation that was not met.
pub open spec fn complains<S: Seconds>(math: &S, e: Expectation, events: Seq<Event>, why: ErrorView) -> bool {
    exists|lo: String, hi: String, seen: Seq<Seq<char>>|
        #![trigger call_ensures(S::shown, (math, e.lo), lo), call_ensures(S::shown, (math, e.hi), hi), all_listed(math, events, seen)]
        call_ensures(S::shown, (math, e.lo), lo) && call_ensures(S::shown, (math, e.hi), hi) && all_listed(
            math,
            events,
            seen,
        ) && why == ErrorView::Config(unmet_text(e, lo@, hi@, seen))
}

/// List the violations that started.
fn list_started<S: Seconds>(events: &Vec<Event>, math: &S) -> (r: Vec<String>)
    ensures
        all_listed(math, events@, texts_view(r@)),
{
    let n: usize = events.len();
    let mut r: Vec<String> = Vec::new();
    assert(events@.take(0) =~= Seq::empty());
    for i in 0..n
        invariant
            n == events@.len(),
            all_listed(math, events@.take(i as int), texts_view(r@)),
    {
        let ghost before = texts_view(r@);
        assert(events@.take(i + 1).drop_last() =~= events@.take(i as int));
        assert(events@.take(i + 1).last() == events@[i as int]);
        if let Event::ViolationStarted(v) = &events[i] {
            let t = math.of_ms(v.t_start_ms);
            let shown = math.shown(t);
            let text = owned(v.kind.as_str()).concat("@").concat(shown.as_str()).concat("s");
            assert(listed_as(math, v.kind, v.t_start_ms, text@));
            r.push(text);
            assert(texts_view(r@).drop_last() =~= before);
            assert(texts_view(r@).last() == text@);
        }
    }
    assert(events@.take(n as int) =~= events@);
    r
}

/// Join texts by a comma.
fn join_texts(texts: &Vec<String>) -> (r: String)
    ensures
        r@ == joined(texts_view(texts@)),
{
    let n: usize = texts.len();
    let ghost all = texts_view(texts@);
    let mut r = String::new();
    assert(r@ =~= Seq::empty());
    for i in 0..n
        invariant
            n == texts@.len(),
            all == texts_view(texts@),
            r@ == joined(all.take(i as int)),
    {
        assert(all.take(i + 1).drop_last() =~= all.take(i as int));
        assert(all.take(i + 1).last() == texts@[i as int]@);
        if i == 0 {
            r = texts[i].clone();
        } else {
            r = r.concat(", ").concat(texts[i].as_str());
        }
    }
    assert(all.take(n as int) =~= all);
    r
}

/// Explain that an expectation was not met.
fn complain<S: Seconds>(e: &Expectation, events: &Vec<Event>, math: &S) -> (r: DetectError)
    ensures
        complains(math, *e, events@, r@),
{
    let lo = math.shown(e.lo);
    let hi = math.shown(e.hi);
    let seen = list_started(events, math);
    let saw = if seen.len() == 0 {
        owned("nothing")
    } else {
        join_texts(&seen)
    };
    assert(call_ensures(S::shown, (math, e.lo), lo) && call_ensures(S::shown, (math, e.hi), hi));
    assert(all_listed(math, events@, texts_view(seen@)));
    DetectError::Config(
        owned("expected ").concat(e.kind.as_str()).concat(" to start between ").concat(lo.as_str()).concat(
            "s and ",
        ).concat(hi.as_str()).concat("s, but it did not. Saw: ").concat(saw.as_str()),
    )
}

/// Whether an expectation can be found to be met.
pub open spec fn can_be_met<S: Seconds>(math: &S, spec: Seq<char>, events: Seq<Event>) -> bool {
    exists|e: Expectation|
        #[trigger] outcome(math, spec, Ok(e)) && exists|i: int|
            0 <= i < events.len() && can_hit(math, e, #[trigger] events[i])
}

/// Whether an expectation can be found to fail with `why`.
pub open spec fn can_fail<S: Seconds>(math: &S, spec: Seq<char>, events: Seq<Event>, why: ErrorView) -> bool {
    ||| outcome(math, spec, Err(why))
    ||| exists|e: Expectation|
        #[trigger] outcome(math, spec, Ok(e)) && complains(math, e, events, why) && forall|i: int|
            0 <= i < events.len() ==> can_miss(math, e, #[trigger] events[i])
}

/// Hold a timeline against a list of expectations. The first one that makes no
/// sense or is not met is reported.
pub fn check_expectations<S: Seconds>(expect: &Vec<String>, events: &Vec<Event>, math: &S) -> (r: Result<
    (),
    DetectError,
>)
    ensures
        match r {
            Ok(_) => forall|i: int|
                0 <= i < expect@.len() ==> can_be_met(math, (#[trigger] expect@[i])@, events@),
            Err(e) => exists|i: int|
                0 <= i < expect@.len() && can_fail(math, (#[trigger] expect@[i])@, events@, e@) && forall|j: int|
                    0 <= j < i ==> can_be_met(math, (#[trigger] expect@[j])@, events@),
        },
{
    let n: usize = expect.len();
    for i in 0..n
        invariant
            n == expect@.len(),
            forall|j: int| 0 <= j < i ==> can_be_met(math, (#[trigger] expect@[j])@, events@),
    {
        let e = match parse_expectation(expect[i].as_str(), math) {
            Ok(e) => e,
            Err(why) => {
                assert(can_fail(math, expect@[i as int]@, events@, why@));
                return Err(why);
            },
        };
        assert(outcome(math, expect@[i as int]@, Ok(e)));
        if !starts_within(&e, events, math) {
            let why = complain(&e, events, math);
            assert(can_fail(math, expect@[i as int]@, events@, why@));
            return Err(why);
        }
        assert(can_be_met(math, expect@[i as int]@, events@));
    }
    Ok(())
}

// -- laws -------------------------------------------------------------------

/// An event meets an expectation only as the start of a violation of the kind
/// that is expected, at a time that is not before the window and not after it.
pub proof fn law_a_hit_lies_within_the_window<S: Seconds>(math: &S, e: Expectation, event: Event, t: Number)
    ensures
        !(event is ViolationStarted) ==> !can_hit(math, e, event) && can_miss(math, e, event),
        event matches Event::ViolationStarted(v) ==> v.kind != e.kind ==> !can_hit(math, e, event) && can_miss(
            math,
            e,
            event,
        ),
        event matches Event::ViolationStarted(v) ==> v.kind == e.kind && call_ensures(
            S::of_ms,
            (math, v.t_start_ms),
            t,
        ) && !Number::lt(t, e.lo) && !Number::lt(e.hi, t) && Number::le(e.lo, e.hi) && Number::le(t, t) ==> can_hit(
            math,
            e,
            event,
        ),
        event matches Event::ViolationStarted(v) ==> v.kind == e.kind && call_ensures(
            S::of_ms,
            (math, v.t_start_ms),
            t,
        ) && (Number::lt(t, e.lo) || Number::lt(e.hi, t)) ==> can_miss(math, e, event),
        event matches Event::ViolationStarted(v) ==> (forall|x: Number|
            #[trigger] call_ensures(S::of_ms, (math, v.t_start_ms), x) ==> Number::lt(x, e.lo)) ==> !can_hit(
            math,
            e,
            event,
        ),
        event matches Event::ViolationStarted(v) ==> (forall|x: Number|
            #[trigger] call_ensures(S::of_ms, (math, v.t_start_ms), x) ==> Number::lt(e.hi, x)) ==> !can_hit(
            math,
            e,
            event,
        ),
        event matches Event::ViolationStarted(v) ==> v.kind == e.kind && (forall|x: Number|
            #[trigger] call_ensures(S::of_ms, (math, v.t_start_ms), x) ==> Number::le(e.lo, x) && Number::le(x, e.hi))
            ==> !can_miss(math, e, event),
{
}

/// An expectation that is met was met by an event: one of the kind it names,
/// that starts in the window it gives.
pub proof fn law_a_met_expectation_was_seen<S: Seconds>(math: &S, spec: Seq<char>, events: Seq<Event>) -> (r: (
    Expectation,
    int,
    Number,
))
    requires
        can_be_met(math, spec, events),
    ensures
        outcome(math, spec, Ok(r.0)),
        0 <= r.1 < events.len(),
        events[r.1] is ViolationStarted,
        events[r.1]->ViolationStarted_0.kind == r.0.kind,
        call_ensures(S::of_ms, (math, events[r.1]->ViolationStarted_0.t_start_ms), r.2),
        Number::le(r.0.lo, r.2),
        Number::le(r.2, r.0.hi),
{
    let e = choose|e: Expectation|
        #[trigger] outcome(math, spec, Ok(e)) && exists|i: int|
            0 <= i < events.len() && can_hit(math, e, #[trigger] events[i]);
    let i = choose|i: int| 0 <= i < events.len() && can_hit(math, e, #[trigger] events[i]);
    let v = events[i]->ViolationStarted_0;
    let t = choose|t: Number|
        #[trigger] call_ensures(S::of_ms, (math, v.t_start_ms), t) && Number::le(e.lo, t) && Number::le(t, e.hi);
    (e, i, t)
}

/// An expectation that fails either makes no sense, or was met by none of the
/// events and is complained of with all that started.
pub proof fn law_a_failed_expectation_was_not_seen<S: Seconds>(
    math: &S,
    spec: Seq<char>,
    events: Seq<Event>,
    why: ErrorView,
)
    requires
        can_fail(math, spec, events, why),
    ensures
        outcome(math, spec, Err(why)) || exists|e: Expectation|
            #[trigger] outcome(math, spec, Ok(e)) && complains(math, e, events, why) && forall|i: int|
                0 <= i < events.len() ==> can_miss(math, e, #[trigger] events[i]),
{
}

/// An expectation of a kind between two moments is read as just that: the kind
/// before the at sign, and the window between what stands on either side of the
/// dash.
pub proof fn law_a_window_is_read_between_its_ends<S: Seconds>(
    math: &S,
    name: Seq<char>,
    a: Seq<char>,
    b: Seq<char>,
    e: Expectation,
)
    requires
        !name.contains('@'),
        !a.contains('-'),
    ensures
        outcome(math, name + seq!['@'] + (a + seq!['-'] + b), Ok(e)) <==> ViolationKind::named(name) == Some(e.kind)
            && reads(math, a, Some(e.lo)) && reads(math, b, Some(e.hi)),
        ViolationKind::named(name) is None ==> forall|r: Result<Expectation, ErrorView>|
            #[trigger] outcome(math, name + seq!['@'] + (a + seq!['-'] + b), r) ==> r == Err::<Expectation, ErrorView>(
                refused(
                    name + seq!['@'] + (a + seq!['-'] + b),
                    "`"@ + name + "` is not a violation kind"@,
                ),
            ),
{
    let window = a + seq!['-'] + b;
    law_a_split_comes_together(name, '@', name, window);
    law_a_split_comes_together(window, '-', a, b);
}

/// An expectation of a kind at one moment is read as a window of one and a half
/// seconds on either side of it.
pub proof fn law_a_moment_is_read_with_room_round_it<S: Seconds>(
    math: &S,
    name: Seq<char>,
    at: Seq<char>,
    e: Expectation,
)
    requires
        !name.contains('@'),
        !at.contains('-'),
    ensures
        outcome(math, name + seq!['@'] + at, Ok(e)) <==> ViolationKind::named(name) == Some(e.kind) && exists|t: Number|
            #[trigger] call_ensures(S::difference, (math, t, Number { bits: 0x3ff8_0000_0000_0000 }), e.lo) && reads(
                math,
                at,
                Some(t),
            ) && call_ensures(S::sum, (math, t, Number { bits: 0x3ff8_0000_0000_0000 }), e.hi),
{
    law_a_split_comes_together(name, '@', name, at);
    law_a_split_comes_together(at, '-', at, at);
    if outcome(math, name + seq!['@'] + at, Ok(e)) {
        let t = choose|t: Number|
            #[trigger] call_ensures(S::difference, (math, t, reach()), e.lo) && reads(math, at, Some(t))
                && call_ensures(S::sum, (math, t, reach()), e.hi);
        assert(call_ensures(S::difference, (math, t, Number { bits: 0x3ff8_0000_0000_0000 }), e.lo));
    }
}

/// What is no expectation is refused: there has to be an at sign, and a number
/// of seconds on every side of it that asks for one.
pub proof fn law_what_is_no_expectation_is_refused<S: Seconds>(
    math: &S,
    spec: Seq<char>,
    r: Result<Expectation, ErrorView>,
)
    ensures
        !spec.contains('@') ==> (outcome(math, spec, r) <==> r == Err::<Expectation, ErrorView>(
            ErrorView::Config("--expect "@ + spec + ": "@ + "want KIND@SECS or KIND@START-END"@),
        )),
        not_seconds(spec, spec) == ErrorView::Config(
            "--expect "@ + spec + ": "@ + (spec + " is not a number of seconds"@),
        ),
{
    law_a_split_comes_together(spec, '@', spec, spec);
}

/// Seconds are read without the white space round them, and without the `s`
/// behind them.
pub proof fn law_seconds_are_read_without_their_unit<S: Seconds>(math: &S, s: Seq<char>, t: String, x: Option<Number>)
    ensures
        trim_spec(s).len() > 0 && trim_spec(s).last() == 's' ==> bare_seconds(s).push('s') == trim_spec(s),
        trim_spec(s).len() == 0 || trim_spec(s).last() != 's' ==> bare_seconds(s) == trim_spec(s),
        t@ == bare_seconds(s) && call_ensures(S::read, (math, t), x) ==> reads(math, s, x),
        reads(math, s, x) ==> exists|u: String|
            u@ == bare_seconds(s) && #[trigger] call_ensures(S::read, (math, u), x),
{
    if trim_spec(s).len() > 0 && trim_spec(s).last() == 's' {
        assert(bare_seconds(s).push('s') =~= trim_spec(s));
    }
}

/// Texts are joined in order, with a comma and a blank between two of them.
pub proof fn law_texts_are_joined_by_commas(texts: Seq<Seq<char>>, next: Seq<char>)
    ensures
        joined(Seq::empty()) == Seq::<char>::empty(),
        joined(seq![next]) == next,
        texts.len() > 0 ==> joined(texts.push(next)) == joined(texts) + ", "@ + next,
{
    assert(texts.push(next).drop_last() =~= texts);
}

/// The violations that started are listed in order, each by its kind and when it
/// started, and nothing else is.
pub proof fn law_what_started_is_listed<S: Seconds>(
    math: &S,
    events: Seq<Event>,
    e: Event,
    texts: Seq<Seq<char>>,
    text: Seq<char>,
)
    ensures
        all_listed(math, Seq::empty(), texts) <==> texts.len() == 0,
        !(e is ViolationStarted) ==> (all_listed(math, events.push(e), texts) <==> all_listed(math, events, texts)),
        e is ViolationStarted ==> (all_listed(math, events.push(e), texts.push(text)) <==> all_listed(
            math,
            events,
            texts,
        ) && exists|t: Number, shown: String|
            #[trigger] call_ensures(S::of_ms, (math, e->ViolationStarted_0.t_start_ms), t) && #[trigger] call_ensures(
                S::shown,
                (math, t),
                shown,
            ) && text == e->ViolationStarted_0.kind.name() + "@"@ + shown@ + "s"@),
        e is ViolationStarted ==> !all_listed(math, events.push(e), Seq::empty()),
{
    assert(events.push(e).drop_last() =~= events);
    assert(texts.push(text).drop_last() =~= texts);
}

/// A complaint says what was expected, between when and when, and what was seen
/// instead, or that nothing was.
pub proof fn law_a_complaint_says_what_was_seen(e: Expectation, lo: Seq<char>, hi: Seq<char>, seen: Seq<Seq<char>>)
    ensures
        seen.len() == 0 ==> unmet_text(e, lo, hi, seen) == "expected "@ + e.kind.name() + " to start between "@ + lo
            + "s and "@ + hi + "s, but it did not. Saw: "@ + "nothing"@,
        seen.len() > 0 ==> unmet_text(e, lo, hi, seen) == "expected "@ + e.kind.name() + " to start between "@ + lo
            + "s and "@ + hi + "s, but it did not. Saw: "@ + joined(seen),
{
}

/// What comes of reading an expectation is the expectation, or what is wrong
/// with it.
pub proof fn law_an_outcome_says_what_came_of_it(r: Result<Expectation, DetectError>)
    ensures
        r matches Ok(e) ==> outcome_view(r) == Ok::<Expectation, ErrorView>(e),
        r matches Err(e) ==> outcome_view(r) == Err::<Expectation, ErrorView>(e@),
{
}

/// A window whose ends cannot both be read is refused, for the first end that
/// cannot be.
pub proof fn law_a_window_is_refused_for_an_end<S: Seconds>(
    math: &S,
    name: Seq<char>,
    a: Seq<char>,
    b: Seq<char>,
    e: ErrorView,
)
    requires
        !name.contains('@'),
        !a.contains('-'),
        ViolationKind::named(name) is Some,
    ensures
        ({
            let spec = name + seq!['@'] + (a + seq!['-'] + b);
            outcome(math, spec, Err(e)) <==> {
                ||| reads(math, a, None) && e == ErrorView::Config(
                    "--expect "@ + spec + ": "@ + (a + " is not a number of seconds"@),
                )
                ||| (exists|lo: Number| reads(math, a, Some(lo))) && reads(math, b, None) && e == ErrorView::Config(
                    "--expect "@ + spec + ": "@ + (b + " is not a number of seconds"@),
                )
            }
        }),
        ({
            let spec = name + seq!['@'] + a;
            outcome(math, spec, Err(e)) <==> reads(math, a, None) && e == ErrorView::Config(
                "--expect "@ + spec + ": "@ + (a + " is not a number of seconds"@),
            )
        }),
{
    let window = a + seq!['-'] + b;
    law_a_split_comes_together(name, '@', name, window);
    law_a_split_comes_together(window, '-', a, b);
    law_a_split_comes_together(name, '@', name, a);
    law_a_split_comes_together(a, '-', a, b);
}

/// A complaint gives the two ends of the window as they are shown, and a list of
/// all that started.
pub proof fn law_a_complaint_shows_the_window<S: Seconds>(
    math: &S,
    e: Expectation,
    events: Seq<Event>,
    why: ErrorView,
) -> (parts: (String, String, Seq<Seq<char>>))
    requires
        complains(math, e, events, why),
    ensures
        call_ensures(S::shown, (math, e.lo), parts.0),
        call_ensures(S::shown, (math, e.hi), parts.1),
        all_listed(math, events, parts.2),
        why == ErrorView::Config(unmet_text(e, parts.0@, parts.1@, parts.2)),
{
    choose|lo: String, hi: String, seen: Seq<Seq<char>>|
        #![trigger call_ensures(S::shown, (math, e.lo), lo), call_ensures(S::shown, (math, e.hi), hi), all_listed(math, events, seen)]
        call_ensures(S::shown, (math, e.lo), lo) && call_ensures(S::shown, (math, e.hi), hi) && all_listed(
            math,
            events,
            seen,
        ) && why == ErrorView::Config(unmet_text(e, lo@, hi@, seen))
}

} // verus!
