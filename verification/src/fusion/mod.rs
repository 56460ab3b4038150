//! Fusion: the thing that turns [`Signals`] into decisions.
//!
//! Everything upstream of here is stateless and per-frame. A violation is a
//! *temporal* claim ("absent for three seconds", "a phone has been in shot
//! repeatedly"), and this module is the only place allowed to make one.
//!
//! [`FusionEngine::step`] is a pure function of its arguments: it reads no
//! clock, and time arrives as a parameter. That is what makes a recorded
//! session replay to the same events every time. A step has two halves.
//! [`FusionEngine::measure`] has all arithmetic done and [`FusionEngine::decide`]
//! concludes from the numbers, whatever they are.

pub mod absence;
pub mod direction;
pub mod evidence;
pub mod identity;
pub mod laws;
pub mod ledger;
pub mod model;
pub mod recordings;
pub mod rules;
pub mod temporal;

use vstd::prelude::*;

use crate::config::{
    copy_severities, copy_texts, holds_text, severities_view, severity_for, texts_view, Bucket, Config, SeverityRule,
};
use crate::decimal::decimal_of;
use crate::number::{Arithmetic, Number};
use crate::text::owned;
use crate::types::{
    contributions_view, copy_contributions, copy_subject, events_view, subject_view, Contribution, Event,
    EventView, Gaze, ObjectDetection, Severity, SignalSource, Signals, SlotState, Violation, ViolationKind,
};

use ledger::{in_order, keys_view, kinds_of, lists, Key, Ledger, Open};
use model::{
    AngleReading, AngleState, BucketReading, BucketState, FusionState, IdentityReading, Presence, Progress, Reading,
    Rules, VerdictView, MIN_OBJECT_WEIGHT,
};
use temporal::{edge_of, DecayingScore, Edge, Ema, HoldTimer, Hysteresis};

verus! {

broadcast use vstd::string::group_string_axioms;

/// One rule's conclusion about one frame, ready to be turned into an event.
struct Verdict {
    kind: ViolationKind,
    subject: Option<String>,
    edge: Edge,
    confidence: Number,
    contributions: Vec<Contribution>,
}

impl View for Verdict {
    type V = VerdictView;

    closed spec fn view(&self) -> VerdictView {
        VerdictView {
            kind: self.kind,
            subject: subject_view(self.subject),
            edge: self.edge,
            confidence: self.confidence,
            contributions: contributions_view(self.contributions@),
        }
    }
}

/// The parts of the configuration that decide a frame.
struct EngineRules {
    multi_face_count: usize,
    pitch_offset_deg: Number,
    min_score: Number,
    enter_score: Number,
    clear_score: Number,
    cosine_enter: Number,
    cosine_exit: Number,
    consecutive_failures: u32,
    severity: Vec<SeverityRule>,
}

impl View for EngineRules {
    type V = Rules;

    closed spec fn view(&self) -> Rules {
        Rules {
            multi_face_count: self.multi_face_count,
            pitch_offset_deg: self.pitch_offset_deg,
            min_score: self.min_score,
            enter_score: self.enter_score,
            clear_score: self.clear_score,
            cosine_enter: self.cosine_enter,
            cosine_exit: self.cosine_exit,
            consecutive_failures: self.consecutive_failures,
            severity: severities_view(self.severity@),
        }
    }
}

/// Two smoothed angles, each behind its own latch, and the hold over both.
struct Angles {
    yaw: Ema,
    pitch: Ema,
    yaw_gate: Hysteresis,
    pitch_gate: Hysteresis,
    hold: HoldTimer,
}

impl View for Angles {
    type V = AngleState;

    closed spec fn view(&self) -> AngleState {
        AngleState {
            yaw: self.yaw@,
            pitch: self.pitch@,
            yaw_gate: self.yaw_gate@,
            pitch_gate: self.pitch_gate@,
            hold: self.hold@,
        }
    }
}

impl Angles {
    /// What a yaw and a pitch sampled at `t_ms` come to.
    fn measure<A: Arithmetic>(&self, yaw: Number, pitch: Number, t_ms: u64, math: &A) -> (r: AngleReading)
        ensures
            self@.measures(math, yaw, pitch, t_ms, r),
    {
        let yaw = self.yaw.preview(yaw, t_ms, math);
        let pitch = self.pitch.preview(pitch, t_ms, math);
        AngleReading {
            yaw,
            pitch,
            yaw_weight: self.yaw_gate.intensity(yaw.magnitude(), math),
            pitch_weight: self.pitch_gate.intensity(pitch.magnitude(), math),
            yaw_text: math.shown(yaw.magnitude(), 0u32),
            pitch_text: math.shown(pitch.magnitude(), 0u32),
        }
    }

    /// Feed a reading, or its absence, and argue for whichever angles are past
    /// their thresholds. The labels say what the angles are of.
    fn feed(
        &mut self,
        r: &Option<AngleReading>,
        t_ms: u64,
        signal: SignalSource,
        yaw_label: &str,
        pitch_label: &str,
        pitch_note: &str,
    ) -> (out: (Edge, Number, Vec<Contribution>))
        ensures
            final(self)@ == old(self)@.fed(*r, t_ms),
            out.0 == old(self)@.edge(*r, t_ms),
            out.1 == old(self)@.confidence(*r),
            contributions_view(out.2@) == old(self)@.arguments(
                *r,
                signal,
                yaw_label@,
                pitch_label@,
                pitch_note@,
            ),
    {
        let mut contributions: Vec<Contribution> = Vec::new();
        let Some(r) = r else {
            self.yaw.miss(t_ms);
            self.pitch.miss(t_ms);
            let edge = self.hold.update(false, t_ms);
            assert(contributions_view(contributions@) =~= Seq::empty());
            return (edge, Number::zero(), contributions);
        };
        self.yaw.adopt(r.yaw, t_ms);
        self.pitch.adopt(r.pitch, t_ms);
        let yaw_past = self.yaw_gate.update(r.yaw.magnitude());
        let pitch_past = self.pitch_gate.update(r.pitch.magnitude());
        if yaw_past {
            let detail = owned(yaw_label).concat(r.yaw_text.as_str()).concat(" deg");
            contributions.push(contribution(signal, r.yaw_weight, detail));
        }
        if pitch_past {
            let detail = owned(pitch_label).concat(r.pitch_text.as_str()).concat(pitch_note);
            contributions.push(contribution(signal, r.pitch_weight, detail));
        }
        assert(contributions_view(contributions@) =~= old(self)@.arguments(
            Some(*r),
            signal,
            yaw_label@,
            pitch_label@,
            pitch_note@,
        ));
        let edge = self.hold.update(yaw_past || pitch_past, t_ms);
        (edge, r.yaw_weight.max(r.pitch_weight), contributions)
    }
}

/// One prohibited kind of thing and the evidence for it so far.
struct EngineBucket {
    name: String,
    classes: Vec<String>,
    score: DecayingScore,
    active: bool,
}

impl View for EngineBucket {
    type V = BucketState;

    closed spec fn view(&self) -> BucketState {
        BucketState {
            name: self.name@,
            classes: texts_view(self.classes@),
            score: self.score@,
            active: self.active,
        }
    }
}

/// What a list of buckets says, in order.
spec fn engine_buckets(s: Seq<EngineBucket>) -> Seq<BucketState> {
    s.map_values(|b: EngineBucket| b@)
}

/// Everything fusion remembers between frames.
pub struct FusionEngine {
    rules: EngineRules,
    presence: Presence,
    no_face: HoldTimer,
    never_seen: HoldTimer,
    multi_face: HoldTimer,
    head: Angles,
    gaze: Angles,
    buckets: Vec<EngineBucket>,
    pose_lost: HoldTimer,
    pose_why: String,
    gaze_lost: HoldTimer,
    gaze_why: String,
    identity_failures: u32,
    identity_active: bool,
    open: Ledger,
}

impl View for FusionEngine {
    type V = FusionState;

    closed spec fn view(&self) -> FusionState {
        FusionState {
            rules: self.rules@,
            presence: self.presence,
            no_face: self.no_face@,
            never_seen: self.never_seen@,
            multi_face: self.multi_face@,
            head: self.head@,
            gaze: self.gaze@,
            buckets: engine_buckets(self.buckets@),
            pose_lost: self.pose_lost@,
            pose_why: self.pose_why@,
            gaze_lost: self.gaze_lost@,
            gaze_why: self.gaze_why@,
            identity_failures: self.identity_failures,
            identity_active: self.identity_active,
            open: self.open@,
        }
    }
}

fn contribution(signal: SignalSource, weight: Number, detail: String) -> (r: Contribution)
    ensures
        r@ == model::argument(signal, weight, detail@),
{
    Contribution { signal, weight, detail }
}

/// The violation that a single argument is made for.
fn single(signal: SignalSource, weight: Number, detail: String) -> (r: Vec<Contribution>)
    ensures
        contributions_view(r@) == seq![model::argument(signal, weight, detail@)],
{
    let mut r: Vec<Contribution> = Vec::new();
    r.push(contribution(signal, weight, detail));
    assert(contributions_view(r@) =~= seq![model::argument(signal, weight, detail@)]);
    r
}

/// An open violation as it is reported when it ends.
fn finished(kind: ViolationKind, subject: &Option<String>, open: Open, t_ms: u64) -> (r: Violation)
    ensures
        r@ == model::finished((kind, subject_view(*subject)), open@, t_ms),
{
    Violation {
        kind,
        severity: open.severity,
        confidence: open.confidence,
        t_start_ms: open.t_start_ms,
        t_end_ms: Some(t_ms),
        subject: copy_subject(subject),
        evidence: None,
        contributing: open.contributions,
    }
}

/// What is concluded of a slot that is dark, or no longer is. The violation goes
/// by the reason it was first reported with until it ends.
fn lost_verdict(slot: &str, signal: SignalSource, edge: Edge, why: &str) -> (r: Verdict)
    ensures
        r@ == model::lost_verdict(slot@, signal, edge, why@),
{
    let subject = owned(slot).concat(": ").concat(why);
    Verdict {
        kind: ViolationKind::SignalLost,
        subject: Some(subject.clone()),
        edge,
        confidence: Number::one(),
        contributions: single(signal, Number::one(), subject),
    }
}

/// Start every accumulator at nothing.
fn fresh_buckets(list: &Vec<Bucket>, half_life_ms: u64) -> (r: Vec<EngineBucket>)
    ensures
        r@.len() == list@.len(),
        forall|i: int|
            0 <= i < list@.len() ==> (#[trigger] r@[i])@ == (BucketState {
                name: list@[i].name@,
                classes: texts_view(list@[i].classes@),
                score: temporal::ScoreState { half_life_ms, score: Number::zero(), last_t_ms: None },
                active: false,
            }),
{
    let mut r: Vec<EngineBucket> = Vec::new();
    let n: usize = list.len();
    for i in 0..n
        invariant
            n == list@.len(),
            r@.len() == i,
            forall|j: int|
                0 <= j < i ==> (#[trigger] r@[j])@ == (BucketState {
                    name: list@[j].name@,
                    classes: texts_view(list@[j].classes@),
                    score: temporal::ScoreState { half_life_ms, score: Number::zero(), last_t_ms: None },
                    active: false,
                }),
    {
        r.push(
            EngineBucket {
                name: list[i].name.clone(),
                classes: copy_texts(&list[i].classes),
                score: DecayingScore::new(half_life_ms),
                active: false,
            },
        );
    }
    r
}

impl FusionEngine {
    /// The open violations are kept in order.
    pub closed spec fn inv(&self) -> bool {
        self.open.inv()
    }

    /// The engine together with what it has reported so far in this step.
    closed spec fn progress(&self, events: Seq<Event>) -> Progress {
        Progress { state: self@, events: events_view(events) }
    }

    pub fn new(cfg: &Config) -> (r: Self)
        requires
            cfg.thresholds.pairs_hold(),
        ensures
            r.inv(),
            r@ == model::initial(cfg.thresholds),
    {
        let t = &cfg.thresholds;
        let gap: u64 = t.fusion.signal_lost_ms;
        let r = Self {
            rules: EngineRules {
                multi_face_count: t.face.multi_face_count,
                pitch_offset_deg: t.gaze.pitch_offset_deg,
                min_score: t.objects.min_score,
                enter_score: t.objects.enter_score,
                clear_score: t.objects.clear_score,
                cosine_enter: t.identity.cosine_enter,
                cosine_exit: t.identity.cosine_exit,
                consecutive_failures: t.identity.consecutive_failures,
                severity: copy_severities(&t.fusion.severity),
            },
            presence: Presence::NeverSeen,
            no_face: HoldTimer::new(t.face.no_face_hold_ms, t.face.no_face_clear_ms),
            // Once a face appears the condition is over for good, so there is
            // nothing for a clear hold to debounce.
            never_seen: HoldTimer::new(t.face.never_seen_ms, 0),
            multi_face: HoldTimer::new(t.face.multi_face_hold_ms, t.face.multi_face_clear_ms),
            head: Angles {
                yaw: Ema::new(t.pose.ema_alpha, gap),
                pitch: Ema::new(t.pose.ema_alpha, gap),
                yaw_gate: Hysteresis::new(t.pose.yaw_enter_deg, t.pose.yaw_exit_deg),
                pitch_gate: Hysteresis::new(t.pose.pitch_enter_deg, t.pose.pitch_exit_deg),
                hold: HoldTimer::new(t.pose.hold_ms, t.pose.clear_ms),
            },
            gaze: Angles {
                yaw: Ema::new(t.gaze.ema_alpha, gap),
                pitch: Ema::new(t.gaze.ema_alpha, gap),
                yaw_gate: Hysteresis::new(t.gaze.yaw_enter_deg, t.gaze.yaw_exit_deg),
                pitch_gate: Hysteresis::new(t.gaze.pitch_enter_deg, t.gaze.pitch_exit_deg),
                hold: HoldTimer::new(t.gaze.hold_ms, t.gaze.clear_ms),
            },
            buckets: fresh_buckets(&t.objects.buckets, t.objects.score_half_life_ms),
            pose_lost: HoldTimer::new(gap, t.fusion.signal_lost_clear_ms),
            pose_why: String::new(),
            gaze_lost: HoldTimer::new(gap, t.fusion.signal_lost_clear_ms),
            gaze_why: String::new(),
            identity_failures: 0,
            identity_active: false,
            open: Ledger::new(),
        };
        assert(r@.buckets =~= model::initial(cfg.thresholds).buckets);
        assert(r@.pose_why =~= Seq::empty());
        assert(r@.gaze_why =~= Seq::empty());
        r
    }

    /// Kinds currently raised, for the polled snapshot.
    pub fn active(&self) -> (r: Vec<ViolationKind>)
        requires
            self.inv(),
        ensures
            r@ == kinds_of(in_order(self@.open.dom())),
    {
        self.open.kinds()
    }

    /// Open violations, with their subjects.
    pub fn active_detail(&self) -> (r: Vec<(ViolationKind, Option<String>)>)
        requires
            self.inv(),
        ensures
            keys_view(r@) == in_order(self@.open.dom()),
            lists(keys_view(r@), self@.open.dom()),
    {
        self.open.keys()
    }

    /// Whether another identity check can still be counted.
    pub fn can_count(&self) -> (r: bool)
        ensures
            r == (self@.identity_failures < u32::MAX),
    {
        self.identity_failures < u32::MAX
    }

    fn severity_for(&self, kind: ViolationKind) -> (r: Severity)
        ensures
            r == crate::config::severity_of(self@.rules.severity, kind),
    {
        severity_for(&self.rules.severity, kind)
    }

    /// Apply one rule's edge, emitting at most one event.
    ///
    /// This is the only place where a violation starts or, short of the end of
    /// the session, ends: once on each edge, never per frame.
    fn apply(&mut self, verdict: Verdict, t_ms: u64, events: &mut Vec<Event>)
        requires
            old(self).inv(),
        ensures
            final(self).inv(),
            final(self).progress(final(events)@) == old(self).progress(old(events)@).judged(verdict@, t_ms),
    {
        let ghost before = self.progress(events@);
        let ghost v = verdict@;
        let Verdict { kind, subject, edge, confidence, contributions } = verdict;
        match edge {
            Edge::Rose => {
                let severity = self.severity_for(kind);
                events.push(
                    Event::ViolationStarted(
                        Violation {
                            kind,
                            severity,
                            confidence,
                            t_start_ms: t_ms,
                            t_end_ms: None,
                            subject: copy_subject(&subject),
                            evidence: None,
                            contributing: copy_contributions(&contributions),
                        },
                    ),
                );
                self.open.insert(kind, subject, Open { t_start_ms: t_ms, severity, confidence, contributions });
            },
            Edge::Fell => {
                if let Some(open) = self.open.remove(kind, &subject) {
                    events.push(Event::ViolationEnded(finished(kind, &subject, open, t_ms)));
                }
            },
            Edge::Steady => {
                // Keep the live confidence current, but emit nothing.
                self.open.set_confidence(kind, &subject, confidence);
            },
        }
        let ghost after = before.judged(v, t_ms);
        assert(events_view(events@) =~= after.events);
        assert(self@.open =~= after.state.open);
        assert(self@ == after.state);
    }

    fn step_face(&mut self, count: usize, t_ms: u64, events: &mut Vec<Event>)
        requires
            old(self).inv(),
        ensures
            final(self).inv(),
            final(self).progress(final(events)@) == old(self).progress(old(events)@).after_face(
                count as nat,
                t_ms,
            ),
    {
        reveal(Progress::after_face);
        let present = count > 0;
        self.presence = match (self.presence, present) {
            (Presence::NeverSeen, false) => Presence::NeverSeen,
            (_, true) => Presence::Present,
            (_, false) => Presence::Absent,
        };
        let never = self.presence == Presence::NeverSeen;
        let absent = self.presence == Presence::Absent;

        // Never-seen only runs before the first face. After that an absence is
        // an absence, and firing both would double-count one silence.
        let edge = self.never_seen.update(never, t_ms);
        self.apply(
            Verdict {
                kind: ViolationKind::NeverSeen,
                subject: None,
                edge,
                confidence: Number::one(),
                contributions: single(
                    SignalSource::Face,
                    Number::one(),
                    owned("no face has ever been detected, ").concat(decimal_of(t_ms / 1000).as_str()).concat("s in"),
                ),
            },
            t_ms,
            events,
        );
        let edge = self.no_face.update(absent, t_ms);
        self.apply(
            Verdict {
                kind: ViolationKind::NoFace,
                subject: None,
                edge,
                confidence: Number::one(),
                contributions: single(SignalSource::Face, Number::one(), owned("no face in frame")),
            },
            t_ms,
            events,
        );
        let edge = self.multi_face.update(count >= self.rules.multi_face_count, t_ms);
        self.apply(
            Verdict {
                kind: ViolationKind::MultipleFaces,
                subject: None,
                edge,
                confidence: Number::one(),
                contributions: single(
                    SignalSource::Face,
                    Number::one(),
                    decimal_of(count as u64).concat(" faces in frame"),
                ),
            },
            t_ms,
            events,
        );
    }

    fn step_head(&mut self, r: &Option<AngleReading>, t_ms: u64, events: &mut Vec<Event>)
        requires
            old(self).inv(),
        ensures
            final(self).inv(),
            final(self).progress(final(events)@) == old(self).progress(old(events)@).after_head(*r, t_ms),
    {
        reveal(Progress::after_head);
        // A slot that did not run is not a pose of zero degrees. Feeding the
        // filter a zero would smooth the head back toward square during exactly
        // the frames where it could not be measured.
        let (edge, confidence, contributions) = self.head.feed(
            r,
            t_ms,
            SignalSource::Pose,
            "head yaw ",
            "head pitch ",
            " deg",
        );
        self.apply(
            Verdict { kind: ViolationKind::HeadTurnedAway, subject: None, edge, confidence, contributions },
            t_ms,
            events,
        );
    }

    fn step_gaze(&mut self, r: &Option<AngleReading>, t_ms: u64, events: &mut Vec<Event>)
        requires
            old(self).inv(),
        ensures
            final(self).inv(),
            final(self).progress(final(events)@) == old(self).progress(old(events)@).after_gaze(*r, t_ms),
    {
        reveal(Progress::after_gaze);
        // A blink-gated frame contributes nothing: not a zero, not a
        // carried-forward value.
        let (edge, confidence, contributions) = self.gaze.feed(
            r,
            t_ms,
            SignalSource::Gaze,
            "gaze yaw ",
            "gaze pitch ",
            " deg after offset",
        );
        self.apply(
            Verdict { kind: ViolationKind::GazeOffScreen, subject: None, edge, confidence, contributions },
            t_ms,
            events,
        );
    }

    /// Weigh one bucket.
    fn step_bucket(&mut self, produced: bool, r: &BucketReading, i: usize, t_ms: u64, events: &mut Vec<Event>)
        requires
            old(self).inv(),
            i < old(self)@.buckets.len(),
        ensures
            final(self).inv(),
            final(self)@.buckets.len() == old(self)@.buckets.len(),
            final(self).progress(final(events)@) == old(self).progress(old(events)@).after_bucket(
                produced,
                *r,
                i as int,
                t_ms,
            ),
    {
        reveal(Progress::after_bucket);
        let ghost before = self@;
        assert(before.buckets[i as int] == self.buckets@[i as int]@);
        let mut bucket = self.buckets.remove(i);
        if produced {
            bucket.score.adopt(r.score, t_ms);
        }
        let score = bucket.score.score();
        let was: bool = bucket.active;
        let now: bool = if was {
            score.at_least(self.rules.clear_score)
        } else {
            score.at_least(self.rules.enter_score)
        };
        bucket.active = now;
        let verdict = Verdict {
            kind: ViolationKind::ProhibitedObject,
            subject: Some(bucket.name.clone()),
            edge: edge_of(was, now),
            confidence: r.confidence,
            contributions: single(
                SignalSource::Objects,
                r.confidence.max(Number { bits: MIN_OBJECT_WEIGHT }),
                bucket.name.clone().concat(" accumulated evidence ").concat(r.text.as_str()),
            ),
        };
        let ghost b = bucket@;
        self.buckets.insert(i, bucket);
        assert(b == before.buckets[i as int].weighed(before.rules, produced, *r, t_ms));
        assert(self@.buckets =~= before.buckets.update(i as int, b));
        self.apply(verdict, t_ms, events);
    }

    /// Buckets rather than literal class names, and accumulation rather than
    /// single-frame thresholds: a phone is labelled as one thing or another, and
    /// is convincingly seen on a minority of the frames it is in.
    fn step_objects(&mut self, produced: bool, r: &Vec<BucketReading>, t_ms: u64, events: &mut Vec<Event>)
        requires
            old(self).inv(),
            r@.len() == old(self)@.buckets.len(),
        ensures
            final(self).inv(),
            final(self).progress(final(events)@) == old(self).progress(old(events)@).after_buckets(
                produced,
                r@,
                old(self)@.buckets.len(),
                t_ms,
            ),
    {
        let n: usize = r.len();
        let ghost before = self.progress(events@);
        for i in 0..n
            invariant
                n == r@.len(),
                n == self@.buckets.len(),
                self.inv(),
                self.progress(events@) == before.after_buckets(produced, r@, i as nat, t_ms),
        {
            self.step_bucket(produced, &r[i], i, t_ms, events);
        }
    }

    /// "The system cannot currently see" as a reportable condition. Short gaps
    /// are absorbed by the hold timer: a blink is not an incident.
    fn step_signal_loss(&mut self, s: &Signals, t_ms: u64, events: &mut Vec<Event>)
        requires
            old(self).inv(),
        ensures
            final(self).inv(),
            final(self).progress(final(events)@) == old(self).progress(old(events)@).after_signal_loss(*s, t_ms),
    {
        reveal(Progress::after_signal_loss);
        let edge = self.pose_lost.update(lost(s.produced_by.pose), t_ms);
        if edge == Edge::Rose {
            self.pose_why = if s.produced_by.pose == SlotState::Failed {
                owned("model failing")
            } else {
                owned("gated")
            };
        }
        let verdict = lost_verdict("pose", SignalSource::Pose, edge, self.pose_why.as_str());
        self.apply(verdict, t_ms, events);
        let edge = self.gaze_lost.update(lost(s.produced_by.gaze), t_ms);
        if edge == Edge::Rose {
            self.gaze_why = if s.produced_by.gaze == SlotState::Failed {
                owned("model failing")
            } else {
                match s.produced_by.gaze_gate {
                    Some(reason) => owned(reason.variant_str()),
                    None => owned("gated"),
                }
            };
        }
        let verdict = lost_verdict("gaze", SignalSource::Gaze, edge, self.gaze_why.as_str());
        self.apply(verdict, t_ms, events);
    }

    /// Identity, deliberately slow to accuse: one bad crop drops the similarity
    /// below any sane threshold, so several checks in a row have to fail.
    fn step_identity(&mut self, r: &Option<IdentityReading>, t_ms: u64, events: &mut Vec<Event>)
        requires
            old(self).inv(),
            old(self)@.identity_failures < u32::MAX,
        ensures
            final(self).inv(),
            final(self).progress(final(events)@) == old(self).progress(old(events)@).after_identity(*r, t_ms),
    {
        reveal(Progress::after_identity);
        let Some(r) = r else {
            return;
        };
        let ghost before = self@;
        if r.score.below(self.rules.cosine_enter) {
            self.identity_failures = self.identity_failures + 1;
        } else if r.score.at_least(self.rules.cosine_exit) {
            self.identity_failures = 0;
        }
        let was: bool = self.identity_active;
        let now: bool = if was {
            self.identity_failures > 0
        } else {
            self.identity_failures >= self.rules.consecutive_failures
        };
        self.identity_active = now;
        assert(self.identity_failures == before.failures_after(r.score));
        assert(now == before.mismatched_after(r.score));
        let detail = owned("cosine ").concat(r.score_text.as_str()).concat(" below ").concat(
            r.bar_text.as_str(),
        ).concat(" on ").concat(decimal_of(self.identity_failures as u64).as_str()).concat(
            " consecutive checks",
        );
        self.apply(
            Verdict {
                kind: ViolationKind::IdentityMismatch,
                subject: None,
                edge: edge_of(was, now),
                confidence: Number::one(),
                contributions: single(SignalSource::Identity, Number::one(), detail),
            },
            t_ms,
            events,
        );
    }

    /// Conclude from what one frame measured. Exact for every reading that
    /// covers every bucket.
    pub fn decide(&mut self, s: &Signals, r: &Reading, t_ms: u64) -> (events: Vec<Event>)
        requires
            old(self).inv(),
            old(self)@.identity_failures < u32::MAX,
            r.buckets@.len() == old(self)@.buckets.len(),
        ensures
            final(self).inv(),
            final(self)@ == old(self)@.stepped(*s, *r, t_ms).state,
            events_view(events@) == old(self)@.stepped(*s, *r, t_ms).events,
    {
        let mut events: Vec<Event> = Vec::new();
        let ghost p0 = self@.beginning();
        assert(events_view(events@) =~= p0.events);
        proof {
            let produced = s.produced_by.objects is Produced;
            let p1 = p0.after_face(s.faces@.len(), t_ms);
            let p2 = p1.after_head(r.head, t_ms);
            let p3 = p2.after_gaze(r.gaze, t_ms);
            p0.lemma_face_frame(s.faces@.len(), t_ms);
            p1.lemma_head_frame(r.head, t_ms);
            p2.lemma_gaze_frame(r.gaze, t_ms);
            p3.lemma_buckets_frame(produced, r.buckets@, p0.state.buckets.len(), t_ms);
            p3.after_buckets(produced, r.buckets@, p0.state.buckets.len(), t_ms).lemma_signal_loss_frame(*s, t_ms);
        }
        self.step_face(s.faces.len(), t_ms, &mut events);
        self.step_head(&r.head, t_ms, &mut events);
        self.step_gaze(&r.gaze, t_ms, &mut events);
        self.step_objects(s.produced_by.objects.produced(), &r.buckets, t_ms, &mut events);
        self.step_signal_loss(s, t_ms, &mut events);
        self.step_identity(&r.identity, t_ms, &mut events);
        events
    }
}

/// The bucket a label belongs to.
fn bucket_index(buckets: &Vec<EngineBucket>, label: &str) -> (r: Option<usize>)
    ensures
        match r {
            Some(i) => i < buckets@.len() && model::bucket_of(engine_buckets(buckets@), label@) == Some(i as int),
            None => model::bucket_of(engine_buckets(buckets@), label@) is None,
        },
{
    let n: usize = buckets.len();
    let ghost all = engine_buckets(buckets@);
    let mut left: usize = n;
    assert(all.take(n as int) =~= all);
    while left > 0
        invariant
            left <= n,
            n == buckets@.len(),
            all == engine_buckets(buckets@),
            model::bucket_of(all, label@) == model::bucket_of(all.take(left as int), label@),
        decreases left,
    {
        assert(all.take(left as int).last() == buckets@[left - 1]@);
        assert(all.take(left as int).drop_last() =~= all.take(left - 1));
        if holds_text(&buckets[left - 1].classes, label) {
            return Some(left - 1);
        }
        left = left - 1;
    }
    None
}

/// The best score per bucket on one frame.
fn best_scores(buckets: &Vec<EngineBucket>, objects: &Vec<ObjectDetection>, floor: Number) -> (r: Vec<Option<Number>>)
    ensures
        r@.len() == buckets@.len(),
        forall|i: int|
            0 <= i < r@.len() ==> #[trigger] r@[i] == model::best_of(
                engine_buckets(buckets@),
                objects@,
                floor,
                i,
            ),
{
    let n: usize = buckets.len();
    let m: usize = objects.len();
    let ghost all = engine_buckets(buckets@);
    let mut r: Vec<Option<Number>> = Vec::new();
    for i in 0..n
        invariant
            r@.len() == i,
            forall|j: int| 0 <= j < i ==> #[trigger] r@[j] == None::<Number>,
    {
        r.push(None);
    }
    for k in 0..m
        invariant
            n == buckets@.len(),
            m == objects@.len(),
            all == engine_buckets(buckets@),
            r@.len() == n,
            forall|i: int|
                0 <= i < n ==> #[trigger] r@[i] == model::best_of(all, objects@.take(k as int), floor, i),
    {
        let det = &objects[k];
        let ghost before = r@;
        let ghost next = objects@.take(k + 1);
        assert(next.drop_last() =~= objects@.take(k as int));
        assert(next.last() == objects@[k as int]);
        if !det.score.below(floor) {
            if let Some(b) = bucket_index(buckets, det.label.as_str()) {
                let held = match r[b] {
                    Some(v) => v,
                    None => Number::zero(),
                };
                r.set(b, Some(held.max(det.score)));
            }
        }
        assert forall|i: int| 0 <= i < n implies #[trigger] r@[i] == model::best_of(all, next, floor, i) by {
            assert(before[i] == model::best_of(all, objects@.take(k as int), floor, i));
        }
    }
    assert(objects@.take(m as int) =~= objects@);
    r
}

impl FusionEngine {
    /// What the gaze on this frame comes to, in degrees, with the pitch
    /// corrected for where the camera sits.
    fn measure_gaze<A: Arithmetic>(&self, g: &Gaze, t_ms: u64, math: &A) -> (r: AngleReading)
        ensures
            self@.measures_gaze(math, *g, t_ms, r),
    {
        let yaw = math.degrees(g.yaw_rad);
        let raw = math.degrees(g.pitch_rad);
        let pitch = math.difference(raw, self.rules.pitch_offset_deg);
        let r = self.gaze.measure(yaw, pitch, t_ms, math);
        assert(call_ensures(A::degrees, (math, g.yaw_rad), yaw));
        assert(call_ensures(A::difference, (math, raw, self@.rules.pitch_offset_deg), pitch));
        r
    }

    /// The evidence for every bucket after this frame.
    fn measure_buckets<A: Arithmetic>(&self, s: &Signals, t_ms: u64, math: &A) -> (r: Vec<BucketReading>)
        ensures
            r@.len() == self@.buckets.len(),
            forall|i: int|
                0 <= i < r@.len() ==> self@.measures_bucket(math, *s, t_ms, i, #[trigger] r@[i]),
    {
        let produced = s.produced_by.objects.produced();
        let best = best_scores(&self.buckets, &s.objects, self.rules.min_score);
        let n: usize = self.buckets.len();
        let mut r: Vec<BucketReading> = Vec::new();
        for i in 0..n
            invariant
                n == self.buckets@.len(),
                best@.len() == n,
                produced == (s.produced_by.objects is Produced),
                forall|j: int|
                    0 <= j < n ==> #[trigger] best@[j] == model::best_of(
                        self@.buckets,
                        s.objects@,
                        self@.rules.min_score,
                        j,
                    ),
                r@.len() == i,
                forall|j: int| 0 <= j < i ==> self@.measures_bucket(math, *s, t_ms, j, #[trigger] r@[j]),
        {
            assert(self@.buckets[i as int] == self.buckets@[i as int]@);
            let held = &self.buckets[i].score;
            let score = if produced {
                match best[i] {
                    Some(v) => held.preview_add(v, t_ms, math),
                    None => held.preview_decay(t_ms, math),
                }
            } else {
                held.score()
            };
            let confidence = math.ramp(score, self.rules.enter_score);
            let text = math.shown(score, 2u32);
            let reading = BucketReading { score, confidence, text };
            assert(self@.measures_bucket(math, *s, t_ms, i as int, reading));
            r.push(reading);
        }
        r
    }

    /// Have the arithmetic of one frame done. Changes nothing.
    pub fn measure<A: Arithmetic>(&self, s: &Signals, t_ms: u64, math: &A) -> (r: Reading)
        ensures
            self@.measures(math, *s, t_ms, r),
    {
        let head = if s.produced_by.pose.produced() {
            match &s.head_pose {
                Some(p) => Some(self.head.measure(p.yaw_deg, p.pitch_deg, t_ms, math)),
                None => None,
            }
        } else {
            None
        };
        let gaze = if s.produced_by.gaze.produced() {
            match &s.gaze {
                Some(g) => Some(self.measure_gaze(g, t_ms, math)),
                None => None,
            }
        } else {
            None
        };
        let identity = if s.produced_by.identity.produced() {
            match s.identity_match {
                Some(score) => Some(
                    IdentityReading {
                        score,
                        score_text: math.shown(score, 2u32),
                        bar_text: math.shown(self.rules.cosine_enter, 2u32),
                    },
                ),
                None => None,
            }
        } else {
            None
        };
        Reading { head, gaze, buckets: self.measure_buckets(s, t_ms, math), identity }
    }

    /// Advance by one frame of signals. Pure: no clock, no I/O.
    pub fn step<A: Arithmetic>(&mut self, s: &Signals, t_ms: u64, math: &A) -> (events: Vec<Event>)
        requires
            old(self).inv(),
            old(self)@.identity_failures < u32::MAX,
        ensures
            final(self).inv(),
            old(self)@.steps_to(math, *s, t_ms, final(self)@, events_view(events@)),
    {
        let r = self.measure(s, t_ms, math);
        self.decide(s, &r, t_ms)
    }

    /// Close everything still open, as a session ends. Without this a session
    /// that ends mid-violation records a start with no end.
    pub fn finish(&mut self, t_ms: u64) -> (events: Vec<Event>)
        requires
            old(self).inv(),
        ensures
            final(self).inv(),
            final(self)@ == old(self)@.closed_out(),
            events_view(events@) == old(self)@.endings(t_ms),
    {
        let keys = self.open.keys();
        let n: usize = keys.len();
        let mut events: Vec<Event> = Vec::new();
        let ghost start = self@;
        let ghost order = keys_view(keys@);
        let ghost all = start.endings(t_ms);
        assert(all.len() == n);
        for i in 0..n
            invariant
                self.inv(),
                n == keys@.len(),
                order == keys_view(keys@),
                order == in_order(start.open.dom()),
                lists(order, start.open.dom()),
                all == start.endings(t_ms),
                self@ == (FusionState { open: self@.open, ..start }),
                forall|k: Key|
                    #[trigger] self@.open.contains_key(k) <==> start.open.contains_key(k)
                        && !order.take(i as int).contains(k),
                forall|k: Key| #[trigger] self@.open.contains_key(k) ==> self@.open[k] == start.open[k],
                events_view(events@) == all.take(i as int),
        {
            let kind = keys[i].0;
            let ghost k = order[i as int];
            assert(order.contains(k));
            assert(start.open.dom().contains(k));
            assert(!order.take(i as int).contains(k)) by {
                if order.take(i as int).contains(k) {
                    let j = choose|j: int| 0 <= j < i && order.take(i as int)[j] == k;
                    assert(ledger::key_lt(order[j], order[i as int]));
                    ledger::lemma_key_lt_irreflexive(k);
                }
            }
            assert(self@.open.contains_key(k));
            let ghost was = self@.open;
            let ghost reported = events@;
            assert(k == (kind, subject_view(keys@[i as int].1)));
            if let Some(open) = self.open.remove(kind, &keys[i].1) {
                events.push(Event::ViolationEnded(finished(kind, &keys[i].1, open, t_ms)));
            }
            assert(all[i as int] == EventView::ViolationEnded(model::finished(k, start.open[k], t_ms)));
            assert(events_view(events@) =~= events_view(reported).push(all[i as int]));
            assert(all.take(i + 1) =~= all.take(i as int).push(all[i as int]));
            assert forall|q: Key| #[trigger] self@.open.contains_key(q) <==> start.open.contains_key(q)
                && !order.take(i + 1).contains(q) by {
                assert(was.contains_key(q) <==> start.open.contains_key(q) && !order.take(i as int).contains(q));
                assert(order.take(i + 1) =~= order.take(i as int).push(k));
                if order.take(i as int).contains(q) {
                    let j = choose|j: int| 0 <= j < i && order.take(i as int)[j] == q;
                    assert(order.take(i + 1)[j] == q);
                }
                assert(order.take(i + 1)[i as int] == k);
            }
        }
        assert(order.take(n as int) =~= order);
        assert(all.take(n as int) =~= all);
        assert forall|k: Key| !self@.open.contains_key(k) by {
            assert(start.open.dom().contains(k) <==> order.contains(k));
        }
        assert(self@.open =~= Map::empty());
        events
    }
}

/// Run fusion over a whole recording.
///
/// Takes a fresh engine, so two calls with the same input produce the same
/// output.
pub fn replay<A: Arithmetic>(signals: &[Signals], cfg: &Config, math: &A) -> (events: Vec<Event>)
    requires
        cfg.thresholds.pairs_hold(),
        signals@.len() <= u32::MAX,
    ensures
        model::replays_to(math, cfg.thresholds, signals@, events_view(events@)),
        signals@.len() == 0 ==> events@.len() == 0,
{
    let mut engine = FusionEngine::new(cfg);
    let mut events: Vec<Event> = Vec::new();
    let mut last_t: u64 = 0;
    let n: usize = signals.len();
    assert(signals@.take(0) =~= Seq::empty());
    assert(events_view(events@) =~= Seq::empty());
    for i in 0..n
        invariant
            n == signals@.len(),
            n <= u32::MAX,
            engine.inv(),
            engine@.identity_failures <= i,
            last_t == model::last_time(signals@.take(i as int)),
            model::runs_to(math, model::initial(cfg.thresholds), signals@.take(i as int), engine@, events_view(events@)),
    {
        let s = &signals[i];
        last_t = s.t_ms;
        let ghost before = engine@;
        let ghost reported = events_view(events@);
        let mut more = engine.step(s, s.t_ms, math);
        let ghost fresh = events_view(more@);
        events.append(&mut more);
        proof {
            assert(events_view(events@) =~= reported + fresh);
            let next = signals@.take(i + 1);
            assert(next.drop_last() =~= signals@.take(i as int));
            assert(next.last() == *s);
            before.lemma_failures_grow_by_one(math, *s, s.t_ms, engine@, fresh);
            assert(model::runs_to(math, model::initial(cfg.thresholds), next.drop_last(), before, reported));
            assert(before.steps_to(math, next.last(), next.last().t_ms, engine@, fresh));
            assert(model::runs_to(math, model::initial(cfg.thresholds), next, engine@, reported.add(fresh)));
        }
    }
    assert(signals@.take(n as int) =~= signals@);
    let ghost done = engine@;
    let ghost reported = events_view(events@);
    let mut more = engine.finish(last_t);
    let ghost fresh = events_view(more@);
    events.append(&mut more);
    assert(events_view(events@) =~= reported + fresh);
    proof {
        if n == 0 {
            assert(signals@ =~= Seq::empty());
            laws::law_an_empty_recording_reports_nothing(math, cfg.thresholds, events_view(events@));
        }
    }
    events
}

fn lost(state: SlotState) -> (r: bool)
    ensures
        r == model::slot_lost(state),
{
    matches!(state, SlotState::SkippedGated | SlotState::Failed)
}

} // verus!
