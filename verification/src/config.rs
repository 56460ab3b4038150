//! Thresholds, and the rules a set of them has to obey.

use vstd::prelude::*;

use crate::error::{DetectError, ErrorView};
use crate::number::Number;
use crate::text::{is_sorted, owned, places, same_text, sort_order, sorts, strs_view, text_before, text_lt};
use crate::types::{copy_subject, subject_view, Severity, ViolationKind};

verus! {

broadcast use vstd::string::group_string_axioms;

#[derive(Debug, Clone, Copy, PartialEq, Eq)]
pub struct FaceThresholds {
    pub min_score: Number,
    pub no_face_hold_ms: u64,
    pub no_face_clear_ms: u64,
    pub never_seen_ms: u64,
    pub multi_face_count: usize,
    pub multi_face_hold_ms: u64,
    pub multi_face_clear_ms: u64,
}

#[derive(Debug, Clone, Copy, PartialEq, Eq)]
pub struct PoseThresholds {
    pub ema_alpha: Number,
    pub yaw_enter_deg: Number,
    pub yaw_exit_deg: Number,
    pub pitch_enter_deg: Number,
    pub pitch_exit_deg: Number,
    pub hold_ms: u64,
    pub clear_ms: u64,
}

#[derive(Debug, Clone, Copy, PartialEq, Eq)]
pub struct GazeThresholds {
    pub ema_alpha: Number,
    pub yaw_enter_deg: Number,
    pub yaw_exit_deg: Number,
    pub pitch_enter_deg: Number,
    pub pitch_exit_deg: Number,
    /// The camera sits above the screen, so gaze pitch idles above zero for a
    /// candidate looking straight at it.
    pub pitch_offset_deg: Number,
    pub hold_ms: u64,
    pub clear_ms: u64,
}

/// One prohibited kind of thing, and the labels a detector gives to it.
#[derive(Debug, Clone, PartialEq, Eq)]
pub struct Bucket {
    pub name: String,
    pub classes: Vec<String>,
}

/// What a [`Bucket`] says.
pub ghost struct BucketView {
    pub name: Seq<char>,
    pub classes: Seq<Seq<char>>,
}

/// What a list of texts says, in order.
pub open spec fn texts_view(s: Seq<String>) -> Seq<Seq<char>> {
    s.map_values(|t: String| t@)
}

impl View for Bucket {
    type V = BucketView;

    open spec fn view(&self) -> BucketView {
        BucketView { name: self.name@, classes: texts_view(self.classes@) }
    }
}

/// What a list of buckets says, in order.
pub open spec fn buckets_view(s: Seq<Bucket>) -> Seq<BucketView> {
    s.map_values(|b: Bucket| b@)
}

/// A copy of a list of texts.
pub fn copy_texts(list: &Vec<String>) -> (r: Vec<String>)
    ensures
        texts_view(r@) == texts_view(list@),
{
    let mut r: Vec<String> = Vec::new();
    let n: usize = list.len();
    for i in 0..n
        invariant
            n == list@.len(),
            r@.len() == i,
            forall|j: int| 0 <= j < i ==> (#[trigger] r@[j])@ == list@[j]@,
    {
        r.push(list[i].clone());
    }
    assert(texts_view(r@) =~= texts_view(list@));
    r
}

/// Whether a list holds a text.
pub fn holds_text(list: &Vec<String>, text: &str) -> (r: bool)
    ensures
        r == texts_view(list@).contains(text@),
{
    let n: usize = list.len();
    for i in 0..n
        invariant
            n == list@.len(),
            forall|j: int| 0 <= j < i ==> (#[trigger] list@[j])@ != text@,
    {
        if same_text(list[i].as_str(), text) {
            assert(texts_view(list@)[i as int] == text@);
            return true;
        }
    }
    assert forall|j: int| 0 <= j < texts_view(list@).len() implies texts_view(list@)[j] != text@ by {
        assert(texts_view(list@)[j] == list@[j]@);
    }
    false
}

/// Texts in ascending order.
pub fn sorted_texts(keys: &Vec<&str>) -> (r: Vec<String>)
    ensures
        is_sorted(strs_view(keys@), texts_view(r@)),
{
    let n: usize = keys.len();
    let order = sort_order(keys);
    let ghost at = places(order@);
    let ghost found = strs_view(keys@);
    let mut r: Vec<String> = Vec::new();
    for i in 0..n
        invariant
            n == keys@.len(),
            order@.len() == n,
            at == places(order@),
            found == strs_view(keys@),
            sorts(found, at),
            r@.len() == i,
            forall|j: int| 0 <= j < i ==> (#[trigger] r@[j])@ == found[at[j]],
    {
        assert(at[i as int] == order@[i as int]);
        r.push(owned(keys[order[i]]));
    }
    assert(texts_view(r@) =~= at.map_values(|i: int| found[i]));
    r
}

/// Names in strictly ascending order, hence each at most once.
pub open spec fn named_in_order(s: Seq<BucketView>) -> bool {
    forall|i: int, j: int| 0 <= i < j < s.len() ==> text_lt(#[trigger] s[i].name, #[trigger] s[j].name)
}

#[derive(Debug, Clone, PartialEq, Eq)]
pub struct ObjectThresholds {
    pub min_score: Number,
    /// In ascending order of their names.
    pub buckets: Vec<Bucket>,
    pub score_half_life_ms: u64,
    pub enter_score: Number,
    pub clear_score: Number,
}

#[derive(Debug, Clone, Copy, PartialEq, Eq)]
pub struct IdentityThresholds {
    pub cosine_enter: Number,
    pub cosine_exit: Number,
    pub consecutive_failures: u32,
}

/// How serious violations of one kind are.
#[derive(Debug, Clone, PartialEq, Eq)]
pub struct SeverityRule {
    pub kind: String,
    pub severity: Severity,
}

/// What a list of severity rules says, in order.
pub open spec fn severities_view(s: Seq<SeverityRule>) -> Seq<(Seq<char>, Severity)> {
    s.map_values(|r: SeverityRule| (r.kind@, r.severity))
}

/// The severity that the first rule for `kind` gives, or medium.
pub open spec fn severity_of(rules: Seq<(Seq<char>, Severity)>, kind: ViolationKind) -> Severity
    decreases rules.len(),
{
    if rules.len() == 0 {
        Severity::Medium
    } else if rules[0].0 == kind.name() {
        rules[0].1
    } else {
        severity_of(rules.skip(1), kind)
    }
}

/// Look up how serious a kind of violation is.
pub fn severity_for(rules: &Vec<SeverityRule>, kind: ViolationKind) -> (r: Severity)
    ensures
        r == severity_of(severities_view(rules@), kind),
{
    let n: usize = rules.len();
    let ghost all = severities_view(rules@);
    assert(all.skip(0) =~= all);
    for i in 0..n
        invariant
            n == rules@.len(),
            all == severities_view(rules@),
            severity_of(all.skip(i as int), kind) == severity_of(all, kind),
    {
        assert(all.skip(i as int)[0] == (rules@[i as int].kind@, rules@[i as int].severity));
        if same_text(rules[i].kind.as_str(), kind.as_str()) {
            return rules[i].severity;
        }
        assert(all.skip(i as int).skip(1) =~= all.skip(i + 1));
    }
    Severity::Medium
}

#[derive(Debug, Clone, PartialEq, Eq)]
pub struct FusionThresholds {
    pub signal_lost_ms: u64,
    pub signal_lost_clear_ms: u64,
    pub severity: Vec<SeverityRule>,
}

#[derive(Debug, Clone, PartialEq, Eq)]
pub struct Thresholds {
    pub face: FaceThresholds,
    pub pose: PoseThresholds,
    pub gaze: GazeThresholds,
    pub objects: ObjectThresholds,
    pub identity: IdentityThresholds,
    pub fusion: FusionThresholds,
}

/// Where the models are. `None` leaves a slot empty.
#[derive(Debug, Clone, PartialEq, Eq)]
pub struct ModelPaths {
    pub face: Option<String>,
    pub pose: Option<String>,
    pub gaze: Option<String>,
    pub objects: Option<String>,
    pub identity: Option<String>,
}

/// How to open the camera.
#[derive(Debug, Clone, Copy, PartialEq, Eq)]
pub struct CaptureConfig {
    pub device_index: u32,
    pub width: u32,
    pub height: u32,
    pub fps: u32,
    pub prefer_mjpeg: bool,
}

/// How model sessions are run.
#[derive(Debug, Clone, Copy, PartialEq, Eq)]
pub struct RuntimeConfig {
    pub intra_threads_large: usize,
    pub intra_threads_small: usize,
    pub inter_threads: usize,
    pub dynamic_block_base: usize,
    pub allow_spinning: bool,
    pub warmup_iters: u32,
}

impl RuntimeConfig {
    /// The intra-operator thread budget. Small high-rate models get the smaller
    /// one: their synchronisation overhead exceeds the win.
    pub fn intra_threads(&self, large: bool) -> (r: usize)
        ensures
            r == (if large { self.intra_threads_large } else { self.intra_threads_small }),
    {
        if large {
            self.intra_threads_large
        } else {
            self.intra_threads_small
        }
    }
}

/// How often each worker runs, in hertz.
#[derive(Debug, Clone, Copy, PartialEq, Eq)]
pub struct CadenceConfig {
    pub face_hz: Number,
    pub object_hz: Number,
    pub identity_hz: Number,
}

#[derive(Debug, Clone, PartialEq, Eq)]
pub struct Config {
    pub thresholds: Thresholds,
    pub models: ModelPaths,
    pub capture: CaptureConfig,
    pub runtime: RuntimeConfig,
    pub cadence: CadenceConfig,
}

impl Thresholds {
    /// Whether every pair of angles can be entered and left: the one that ends a
    /// condition is at or below the one that starts it.
    pub open spec fn pairs_hold(self) -> bool {
        &&& Number::le(self.pose.yaw_exit_deg, self.pose.yaw_enter_deg)
        &&& Number::le(self.pose.pitch_exit_deg, self.pose.pitch_enter_deg)
        &&& Number::le(self.gaze.yaw_exit_deg, self.gaze.yaw_enter_deg)
        &&& Number::le(self.gaze.pitch_exit_deg, self.gaze.pitch_enter_deg)
    }

    /// Whether a session can be built on these.
    pub open spec fn valid(self) -> bool {
        &&& self.pairs_hold()
        &&& Number::le(self.objects.clear_score, self.objects.enter_score)
        &&& named_in_order(buckets_view(self.objects.buckets@))
    }

    /// The pair that cannot be left once entered, if there is one.
    pub open spec fn first_inverted(self) -> Option<Seq<char>> {
        if !Number::le(self.pose.yaw_exit_deg, self.pose.yaw_enter_deg) {
            Some("pose.yaw"@)
        } else if !Number::le(self.pose.pitch_exit_deg, self.pose.pitch_enter_deg) {
            Some("pose.pitch"@)
        } else if !Number::le(self.gaze.yaw_exit_deg, self.gaze.yaw_enter_deg) {
            Some("gaze.yaw"@)
        } else if !Number::le(self.gaze.pitch_exit_deg, self.gaze.pitch_enter_deg) {
            Some("gaze.pitch"@)
        } else if !Number::le(self.objects.clear_score, self.objects.enter_score) {
            Some("objects"@)
        } else {
            None
        }
    }
}

impl Thresholds {
    /// What is said about thresholds that are not valid.
    pub open spec fn complaint(self) -> ErrorView {
        ErrorView::Config(
            match self.first_inverted() {
                Some(pair) => "thresholds."@ + pair + ": the exit threshold must not be above the enter threshold"@,
                None => "thresholds.objects.buckets: names must be in ascending order"@,
            },
        )
    }
}

/// Whether the buckets stand in strictly ascending order of their names.
fn buckets_in_order(buckets: &Vec<Bucket>) -> (r: bool)
    ensures
        r == named_in_order(buckets_view(buckets@)),
{
    let n: usize = buckets.len();
    let ghost all = buckets_view(buckets@);
    if n == 0 {
        return true;
    }
    for i in 1..n
        invariant
            n == buckets@.len(),
            all == buckets_view(buckets@),
            forall|a: int, b: int| 0 <= a < b < i ==> text_lt(#[trigger] all[a].name, #[trigger] all[b].name),
    {
        assert(all[i - 1] == buckets@[i - 1]@);
        assert(all[i as int] == buckets@[i as int]@);
        if !text_before(buckets[i - 1].name.as_str(), buckets[i].name.as_str()) {
            assert(!text_lt(all[i - 1].name, all[i as int].name));
            return false;
        }
        assert forall|a: int, b: int| 0 <= a < b < i + 1 implies text_lt(
            #[trigger] all[a].name,
            #[trigger] all[b].name,
        ) by {
            if b == i && a < i - 1 {
                crate::text::lemma_text_lt_transitive(all[a].name, all[i - 1].name, all[i as int].name);
            }
        }
    }
    true
}

impl Config {
    /// Refuse thresholds that could never clear, and buckets out of order.
    pub fn validate(&self) -> (r: Result<(), DetectError>)
        ensures
            r is Ok <==> self.thresholds.valid(),
            r matches Err(e) ==> e@ == self.thresholds.complaint(),
    {
        let t = &self.thresholds;
        let pair = if !t.pose.yaw_enter_deg.at_least(t.pose.yaw_exit_deg) {
            "pose.yaw"
        } else if !t.pose.pitch_enter_deg.at_least(t.pose.pitch_exit_deg) {
            "pose.pitch"
        } else if !t.gaze.yaw_enter_deg.at_least(t.gaze.yaw_exit_deg) {
            "gaze.yaw"
        } else if !t.gaze.pitch_enter_deg.at_least(t.gaze.pitch_exit_deg) {
            "gaze.pitch"
        } else if !t.objects.enter_score.at_least(t.objects.clear_score) {
            "objects"
        } else if !buckets_in_order(&t.objects.buckets) {
            return Err(
                DetectError::Config(owned("thresholds.objects.buckets: names must be in ascending order")),
            );
        } else {
            return Ok(());
        };
        Err(
            DetectError::Config(
                owned("thresholds.").concat(pair).concat(
                    ": the exit threshold must not be above the enter threshold",
                ),
            ),
        )
    }
}

/// The buckets that are prohibited unless configured otherwise.
pub open spec fn default_buckets() -> Seq<BucketView> {
    seq![
        BucketView { name: "book"@, classes: seq!["book"@] },
        BucketView { name: "handheld_device"@, classes: seq!["cell phone"@, "remote"@] },
    ]
}

fn bucket_list() -> (r: Vec<Bucket>)
    ensures
        buckets_view(r@) == default_buckets(),
        named_in_order(buckets_view(r@)),
{
    let mut book: Vec<String> = Vec::new();
    book.push(owned("book"));
    assert(texts_view(book@) =~= seq!["book"@]);
    let mut handheld: Vec<String> = Vec::new();
    handheld.push(owned("cell phone"));
    handheld.push(owned("remote"));
    assert(texts_view(handheld@) =~= seq!["cell phone"@, "remote"@]);
    let mut r: Vec<Bucket> = Vec::new();
    r.push(Bucket { name: owned("book"), classes: book });
    r.push(Bucket { name: owned("handheld_device"), classes: handheld });
    assert(buckets_view(r@) =~= default_buckets());
    proof {
        reveal_strlit("book");
        reveal_strlit("handheld_device");
        assert("book"@.len() == 4 && "handheld_device"@.len() == 15);
        assert("book"@[0] == 'b' && "handheld_device"@[0] == 'h');
        assert(text_lt("book"@, "handheld_device"@));
    }
    r
}

impl Config {
    /// Whether nothing has been configured: there is no model, and the
    /// thresholds are a place to start tuning from.
    pub open spec fn is_default(self) -> bool {
        &&& self.thresholds.valid()
        &&& self.thresholds.face == (FaceThresholds {
            min_score: Number { bits: 0x3fe6_6666_6666_6666 },
            no_face_hold_ms: 2500,
            no_face_clear_ms: 700,
            never_seen_ms: 10_000,
            multi_face_count: 2,
            multi_face_hold_ms: 1000,
            multi_face_clear_ms: 1000,
        })
        &&& self.thresholds.pose == (PoseThresholds {
            ema_alpha: Number { bits: 0x3fd9_9999_9999_999a },
            yaw_enter_deg: Number { bits: 0x4041_8000_0000_0000 },
            yaw_exit_deg: Number { bits: 0x4039_0000_0000_0000 },
            pitch_enter_deg: Number { bits: 0x4039_0000_0000_0000 },
            pitch_exit_deg: Number { bits: 0x4032_0000_0000_0000 },
            hold_ms: 1500,
            clear_ms: 800,
        })
        &&& self.thresholds.gaze == (GazeThresholds {
            ema_alpha: Number { bits: 0x3fd9_9999_9999_999a },
            yaw_enter_deg: Number { bits: 0x403e_0000_0000_0000 },
            yaw_exit_deg: Number { bits: 0x4036_0000_0000_0000 },
            pitch_enter_deg: Number { bits: 0x403c_0000_0000_0000 },
            pitch_exit_deg: Number { bits: 0x4034_0000_0000_0000 },
            pitch_offset_deg: Number { bits: 0x4029_0000_0000_0000 },
            hold_ms: 2000,
            clear_ms: 800,
        })
        &&& self.thresholds.objects.min_score == (Number { bits: 0x3fd0_0000_0000_0000 })
        &&& self.thresholds.objects.enter_score == (Number { bits: 0x3ff8_0000_0000_0000 })
        &&& self.thresholds.objects.clear_score == (Number { bits: 0x3fe3_3333_3333_3333 })
        &&& self.thresholds.objects.score_half_life_ms == 3000
        &&& buckets_view(self.thresholds.objects.buckets@) == default_buckets()
        &&& self.thresholds.identity == (IdentityThresholds {
            cosine_enter: Number { bits: 0x3fd3_3333_3333_3333 },
            cosine_exit: Number { bits: 0x3fd8_51eb_851e_b852 },
            consecutive_failures: 3,
        })
        &&& self.thresholds.fusion.signal_lost_ms == 5000
        &&& self.thresholds.fusion.signal_lost_clear_ms == 1000
        &&& self.thresholds.fusion.severity@.len() == 0
        &&& self.models == (ModelPaths { face: None, pose: None, gaze: None, objects: None, identity: None })
        &&& self.capture == (CaptureConfig { device_index: 0, width: 1280, height: 720, fps: 30, prefer_mjpeg: true })
        &&& self.runtime == (RuntimeConfig {
            intra_threads_large: 2,
            intra_threads_small: 1,
            inter_threads: 1,
            dynamic_block_base: 4,
            allow_spinning: false,
            warmup_iters: 3,
        })
        &&& self.cadence == (CadenceConfig {
            face_hz: Number { bits: 0x402e_0000_0000_0000 },
            object_hz: Number { bits: 0x3ff0_0000_0000_0000 },
            identity_hz: Number { bits: 0x3fc9_9999_9999_999a },
        })
    }
}

impl Default for Config {
    fn default() -> (r: Self)
        ensures
            r.is_default(),
    {
        Config {
            thresholds: Thresholds {
                face: FaceThresholds {
                    // 0.7
                    min_score: Number { bits: 0x3fe6_6666_6666_6666 },
                    no_face_hold_ms: 2500,
                    no_face_clear_ms: 700,
                    never_seen_ms: 10_000,
                    multi_face_count: 2,
                    multi_face_hold_ms: 1000,
                    multi_face_clear_ms: 1000,
                },
                pose: PoseThresholds {
                    // 0.4; 35 and 25; 25 and 18 degrees
                    ema_alpha: Number { bits: 0x3fd9_9999_9999_999a },
                    yaw_enter_deg: Number { bits: 0x4041_8000_0000_0000 },
                    yaw_exit_deg: Number { bits: 0x4039_0000_0000_0000 },
                    pitch_enter_deg: Number { bits: 0x4039_0000_0000_0000 },
                    pitch_exit_deg: Number { bits: 0x4032_0000_0000_0000 },
                    hold_ms: 1500,
                    clear_ms: 800,
                },
                gaze: GazeThresholds {
                    // 0.4; 30 and 22; 28 and 20; 12.5 degrees
                    ema_alpha: Number { bits: 0x3fd9_9999_9999_999a },
                    yaw_enter_deg: Number { bits: 0x403e_0000_0000_0000 },
                    yaw_exit_deg: Number { bits: 0x4036_0000_0000_0000 },
                    pitch_enter_deg: Number { bits: 0x403c_0000_0000_0000 },
                    pitch_exit_deg: Number { bits: 0x4034_0000_0000_0000 },
                    pitch_offset_deg: Number { bits: 0x4029_0000_0000_0000 },
                    hold_ms: 2000,
                    clear_ms: 800,
                },
                objects: ObjectThresholds {
                    // 0.25, 1.5 and 0.6
                    min_score: Number { bits: 0x3fd0_0000_0000_0000 },
                    buckets: bucket_list(),
                    score_half_life_ms: 3000,
                    enter_score: Number { bits: 0x3ff8_0000_0000_0000 },
                    clear_score: Number { bits: 0x3fe3_3333_3333_3333 },
                },
                identity: IdentityThresholds {
                    // 0.30 and 0.38
                    cosine_enter: Number { bits: 0x3fd3_3333_3333_3333 },
                    cosine_exit: Number { bits: 0x3fd8_51eb_851e_b852 },
                    consecutive_failures: 3,
                },
                fusion: FusionThresholds {
                    signal_lost_ms: 5000,
                    signal_lost_clear_ms: 1000,
                    severity: Vec::new(),
                },
            },
            models: ModelPaths { face: None, pose: None, gaze: None, objects: None, identity: None },
            capture: CaptureConfig { device_index: 0, width: 1280, height: 720, fps: 30, prefer_mjpeg: true },
            runtime: RuntimeConfig {
                intra_threads_large: 2,
                intra_threads_small: 1,
                inter_threads: 1,
                dynamic_block_base: 4,
                allow_spinning: false,
                warmup_iters: 3,
            },
            cadence: CadenceConfig {
                // 15, 1 and 0.2
                face_hz: Number { bits: 0x402e_0000_0000_0000 },
                object_hz: Number { bits: 0x3ff0_0000_0000_0000 },
                identity_hz: Number { bits: 0x3fc9_9999_9999_999a },
            },
        }
    }
}

impl ModelPaths {
    /// Whether two sets of paths read the same.
    pub open spec fn reads_as(self, other: ModelPaths) -> bool {
        &&& subject_view(self.face) == subject_view(other.face)
        &&& subject_view(self.pose) == subject_view(other.pose)
        &&& subject_view(self.gaze) == subject_view(other.gaze)
        &&& subject_view(self.objects) == subject_view(other.objects)
        &&& subject_view(self.identity) == subject_view(other.identity)
    }
}

impl Thresholds {
    /// Whether two sets of thresholds read the same.
    pub open spec fn reads_as(self, other: Thresholds) -> bool {
        &&& self.face == other.face
        &&& self.pose == other.pose
        &&& self.gaze == other.gaze
        &&& self.objects.min_score == other.objects.min_score
        &&& buckets_view(self.objects.buckets@) == buckets_view(other.objects.buckets@)
        &&& self.objects.score_half_life_ms == other.objects.score_half_life_ms
        &&& self.objects.enter_score == other.objects.enter_score
        &&& self.objects.clear_score == other.objects.clear_score
        &&& self.identity == other.identity
        &&& self.fusion.signal_lost_ms == other.fusion.signal_lost_ms
        &&& self.fusion.signal_lost_clear_ms == other.fusion.signal_lost_clear_ms
        &&& severities_view(self.fusion.severity@) == severities_view(other.fusion.severity@)
    }
}

/// A copy of a list of buckets.
fn copy_buckets(list: &Vec<Bucket>) -> (r: Vec<Bucket>)
    ensures
        buckets_view(r@) == buckets_view(list@),
{
    let mut r: Vec<Bucket> = Vec::new();
    let n: usize = list.len();
    for i in 0..n
        invariant
            n == list@.len(),
            r@.len() == i,
            forall|j: int| 0 <= j < i ==> (#[trigger] r@[j])@ == list@[j]@,
    {
        r.push(Bucket { name: list[i].name.clone(), classes: copy_texts(&list[i].classes) });
    }
    assert(buckets_view(r@) =~= buckets_view(list@));
    r
}

impl Config {
    /// Whether two configurations read the same.
    pub open spec fn reads_as(self, other: Config) -> bool {
        &&& self.thresholds.reads_as(other.thresholds)
        &&& self.models.reads_as(other.models)
        &&& self.capture == other.capture
        &&& self.runtime == other.runtime
        &&& self.cadence == other.cadence
    }

    /// A copy that reads the same.
    pub fn duplicate(&self) -> (r: Self)
        ensures
            r.reads_as(*self),
    {
        let t = &self.thresholds;
        let m = &self.models;
        Config {
            thresholds: Thresholds {
                face: t.face,
                pose: t.pose,
                gaze: t.gaze,
                objects: ObjectThresholds {
                    min_score: t.objects.min_score,
                    buckets: copy_buckets(&t.objects.buckets),
                    score_half_life_ms: t.objects.score_half_life_ms,
                    enter_score: t.objects.enter_score,
                    clear_score: t.objects.clear_score,
                },
                identity: t.identity,
                fusion: FusionThresholds {
                    signal_lost_ms: t.fusion.signal_lost_ms,
                    signal_lost_clear_ms: t.fusion.signal_lost_clear_ms,
                    severity: copy_severities(&t.fusion.severity),
                },
            },
            models: ModelPaths {
                face: copy_subject(&m.face),
                pose: copy_subject(&m.pose),
                gaze: copy_subject(&m.gaze),
                objects: copy_subject(&m.objects),
                identity: copy_subject(&m.identity),
            },
            capture: self.capture,
            runtime: self.runtime,
            cadence: self.cadence,
        }
    }
}

/// What a user may change without touching a file of thresholds.
#[derive(Debug, Clone, PartialEq, Eq)]
pub struct UserThresholds {
    pub no_face_hold_ms: u64,
    pub pose_yaw_enter_deg: Number,
    pub pose_yaw_exit_deg: Number,
    pub severity: Vec<SeverityRule>,
}

/// What is kept between sessions.
#[derive(Debug, Clone, PartialEq, Eq)]
pub struct SettingsPayload {
    pub user: UserThresholds,
}

impl UserThresholds {
    /// The face thresholds with the user's in place of theirs.
    pub open spec fn face(self, t: FaceThresholds) -> FaceThresholds {
        FaceThresholds { no_face_hold_ms: self.no_face_hold_ms, ..t }
    }

    /// The pose thresholds with the user's in place of theirs.
    pub open spec fn pose(self, t: PoseThresholds) -> PoseThresholds {
        PoseThresholds { yaw_enter_deg: self.pose_yaw_enter_deg, yaw_exit_deg: self.pose_yaw_exit_deg, ..t }
    }

    /// The thresholds with the user's in place of theirs, but for the severities.
    pub open spec fn tuned(self, t: Thresholds) -> Thresholds {
        Thresholds { face: self.face(t.face), pose: self.pose(t.pose), ..t }
    }
}

/// A copy of a list of severity rules.
pub fn copy_severities(list: &Vec<SeverityRule>) -> (r: Vec<SeverityRule>)
    ensures
        severities_view(r@) == severities_view(list@),
{
    let mut r: Vec<SeverityRule> = Vec::new();
    let n: usize = list.len();
    for i in 0..n
        invariant
            n == list@.len(),
            r@.len() == i,
            forall|j: int|
                0 <= j < i ==> (#[trigger] r@[j]).kind@ == list@[j].kind@ && r@[j].severity == list@[j].severity,
    {
        r.push(SeverityRule { kind: list[i].kind.clone(), severity: list[i].severity });
    }
    assert(severities_view(r@) =~= severities_view(list@));
    r
}

impl SettingsPayload {
    /// The settings that `cfg` stands for.
    pub fn from_config(cfg: &Config) -> (r: Self)
        ensures
            r.user.no_face_hold_ms == cfg.thresholds.face.no_face_hold_ms,
            r.user.pose_yaw_enter_deg == cfg.thresholds.pose.yaw_enter_deg,
            r.user.pose_yaw_exit_deg == cfg.thresholds.pose.yaw_exit_deg,
            severities_view(r.user.severity@) == severities_view(cfg.thresholds.fusion.severity@),
    {
        let t = &cfg.thresholds;
        SettingsPayload {
            user: UserThresholds {
                no_face_hold_ms: t.face.no_face_hold_ms,
                pose_yaw_enter_deg: t.pose.yaw_enter_deg,
                pose_yaw_exit_deg: t.pose.yaw_exit_deg,
                severity: copy_severities(&t.fusion.severity),
            },
        }
    }

    /// Put the settings into `cfg`, unless that would make it invalid; then
    /// `cfg` stays as it was.
    pub fn apply_to(&self, cfg: &mut Config) -> (r: Result<(), DetectError>)
        ensures
            match r {
                Ok(()) => {
                    let before = old(cfg).thresholds;
                    let after = final(cfg).thresholds;
                    &&& self.user.tuned(before).valid()
                    &&& after.face == self.user.face(before.face)
                    &&& after.pose == self.user.pose(before.pose)
                    &&& after.gaze == before.gaze && after.objects == before.objects
                    &&& after.identity == before.identity
                    &&& after.fusion.signal_lost_ms == before.fusion.signal_lost_ms
                    &&& after.fusion.signal_lost_clear_ms == before.fusion.signal_lost_clear_ms
                    &&& severities_view(after.fusion.severity@) == severities_view(self.user.severity@)
                    &&& final(cfg).models == old(cfg).models && final(cfg).capture == old(cfg).capture
                    &&& final(cfg).runtime == old(cfg).runtime && final(cfg).cadence == old(cfg).cadence
                },
                Err(e) => {
                    &&& !self.user.tuned(old(cfg).thresholds).valid()
                    &&& e@ == self.user.tuned(old(cfg).thresholds).complaint()
                    &&& *final(cfg) == *old(cfg)
                },
            },
    {
        let face = cfg.thresholds.face;
        let pose = cfg.thresholds.pose;
        cfg.thresholds.face.no_face_hold_ms = self.user.no_face_hold_ms;
        cfg.thresholds.pose.yaw_enter_deg = self.user.pose_yaw_enter_deg;
        cfg.thresholds.pose.yaw_exit_deg = self.user.pose_yaw_exit_deg;
        match cfg.validate() {
            Ok(()) => {
                cfg.thresholds.fusion.severity = copy_severities(&self.user.severity);
                Ok(())
            },
            Err(e) => {
                cfg.thresholds.face = face;
                cfg.thresholds.pose = pose;
                Err(e)
            },
        }
    }
}

/// Settings read from a valid configuration fit it, and putting them back
/// changes none of its thresholds.
pub proof fn law_own_settings_change_nothing(cfg: Config, settings: SettingsPayload)
    requires
        cfg.thresholds.valid(),
        settings.user.no_face_hold_ms == cfg.thresholds.face.no_face_hold_ms,
        settings.user.pose_yaw_enter_deg == cfg.thresholds.pose.yaw_enter_deg,
        settings.user.pose_yaw_exit_deg == cfg.thresholds.pose.yaw_exit_deg,
    ensures
        settings.user.tuned(cfg.thresholds) == cfg.thresholds,
        settings.user.tuned(cfg.thresholds).valid(),
{
}

/// A kind of violation is as serious as the first rule on it says, and of medium
/// severity where there is no rule on it.
pub proof fn law_the_first_rule_sets_the_severity(rules: Seq<(Seq<char>, Severity)>, kind: ViolationKind, i: int)
    requires
        0 <= i <= rules.len(),
        forall|j: int| 0 <= j < i ==> (#[trigger] rules[j]).0 != kind.name(),
    ensures
        i == rules.len() ==> severity_of(rules, kind) == Severity::Medium,
        i < rules.len() && rules[i].0 == kind.name() ==> severity_of(rules, kind) == rules[i].1,
    decreases i,
{
    if i > 0 {
        let rest = rules.skip(1);
        assert(rules[0].0 != kind.name());
        assert forall|j: int| 0 <= j < i - 1 implies (#[trigger] rest[j]).0 != kind.name() by {
            assert(rest[j] == rules[j + 1]);
        }
        law_the_first_rule_sets_the_severity(rest, kind, i - 1);
        if i < rules.len() {
            assert(rest[i - 1] == rules[i]);
        }
    }
}

/// Thresholds are valid when none is left at a higher value than it is entered
/// at, for either angle of the head and of the gaze and for objects, and when
/// the buckets are in the order of their names.
pub proof fn law_valid_thresholds_are_left_below_where_they_are_entered(t: Thresholds)
    ensures
        t.valid() <==> {
            &&& Number::le(t.pose.yaw_exit_deg, t.pose.yaw_enter_deg)
            &&& Number::le(t.pose.pitch_exit_deg, t.pose.pitch_enter_deg)
            &&& Number::le(t.gaze.yaw_exit_deg, t.gaze.yaw_enter_deg)
            &&& Number::le(t.gaze.pitch_exit_deg, t.gaze.pitch_enter_deg)
            &&& Number::le(t.objects.clear_score, t.objects.enter_score)
            &&& forall|i: int, j: int|
                0 <= i < j < t.objects.buckets@.len() ==> text_lt(
                    (#[trigger] t.objects.buckets@[i]).name@,
                    (#[trigger] t.objects.buckets@[j]).name@,
                )
        },
        t.valid() ==> t.pairs_hold(),
{
    let b = buckets_view(t.objects.buckets@);
    let list = t.objects.buckets@;
    if named_in_order(b) {
        assert forall|i: int, j: int| 0 <= i < j < list.len() implies text_lt(
            (#[trigger] list[i]).name@,
            (#[trigger] list[j]).name@,
        ) by {
            assert(text_lt(b[i].name, b[j].name));
        }
    }
    if forall|i: int, j: int|
        0 <= i < j < list.len() ==> text_lt((#[trigger] list[i]).name@, (#[trigger] list[j]).name@) {
        assert forall|i: int, j: int| 0 <= i < j < b.len() implies text_lt(
            #[trigger] b[i].name,
            #[trigger] b[j].name,
        ) by {
            assert(text_lt(list[i].name@, list[j].name@));
        }
    }
}

/// The first pair of thresholds that is the wrong way round is complained of by
/// its name; where none is, it is the order of the buckets.
pub proof fn law_a_complaint_names_the_pair(t: Thresholds)
    ensures
        ({
            let p = "thresholds."@;
            let e = ": the exit threshold must not be above the enter threshold"@;
            let yaw = Number::le(t.pose.yaw_exit_deg, t.pose.yaw_enter_deg);
            let pitch = Number::le(t.pose.pitch_exit_deg, t.pose.pitch_enter_deg);
            let gaze_yaw = Number::le(t.gaze.yaw_exit_deg, t.gaze.yaw_enter_deg);
            let gaze_pitch = Number::le(t.gaze.pitch_exit_deg, t.gaze.pitch_enter_deg);
            let objects = Number::le(t.objects.clear_score, t.objects.enter_score);
            &&& !yaw ==> t.complaint() == ErrorView::Config(p + "pose.yaw"@ + e)
            &&& yaw && !pitch ==> t.complaint() == ErrorView::Config(p + "pose.pitch"@ + e)
            &&& yaw && pitch && !gaze_yaw ==> t.complaint() == ErrorView::Config(p + "gaze.yaw"@ + e)
            &&& yaw && pitch && gaze_yaw && !gaze_pitch ==> t.complaint() == ErrorView::Config(p + "gaze.pitch"@ + e)
            &&& yaw && pitch && gaze_yaw && gaze_pitch && !objects ==> t.complaint() == ErrorView::Config(
                p + "objects"@ + e,
            )
            &&& yaw && pitch && gaze_yaw && gaze_pitch && objects ==> t.complaint() == ErrorView::Config(
                "thresholds.objects.buckets: names must be in ascending order"@,
            )
        }),
{
}

/// Settings change what they are of and nothing else: how long nobody may be
/// seen, and from where to where a turned head is turned.
pub proof fn law_settings_change_only_what_they_are_of(user: UserThresholds, t: Thresholds)
    ensures
        ({
            let n = user.tuned(t);
            &&& n.face.no_face_hold_ms == user.no_face_hold_ms
            &&& n.pose.yaw_enter_deg == user.pose_yaw_enter_deg
            &&& n.pose.yaw_exit_deg == user.pose_yaw_exit_deg
            &&& n.face == (FaceThresholds { no_face_hold_ms: n.face.no_face_hold_ms, ..t.face })
            &&& n.pose == (PoseThresholds {
                yaw_enter_deg: n.pose.yaw_enter_deg,
                yaw_exit_deg: n.pose.yaw_exit_deg,
                ..t.pose
            })
            &&& n == (Thresholds { face: n.face, pose: n.pose, ..t })
        }),
        user.face(t.face) == user.tuned(t).face && user.pose(t.pose) == user.tuned(t).pose,
{
}

/// A configuration that reads as another decides the same: all of its numbers
/// are equal, and its texts say the same.
pub proof fn law_a_copy_decides_the_same(a: Config, b: Config)
    requires
        a.reads_as(b),
    ensures
        a.thresholds.face == b.thresholds.face && a.thresholds.pose == b.thresholds.pose && a.thresholds.gaze
            == b.thresholds.gaze && a.thresholds.identity == b.thresholds.identity,
        a.thresholds.objects.min_score == b.thresholds.objects.min_score && a.thresholds.objects.enter_score
            == b.thresholds.objects.enter_score && a.thresholds.objects.clear_score
            == b.thresholds.objects.clear_score && a.thresholds.objects.score_half_life_ms
            == b.thresholds.objects.score_half_life_ms,
        buckets_view(a.thresholds.objects.buckets@) == buckets_view(b.thresholds.objects.buckets@),
        a.thresholds.fusion.signal_lost_ms == b.thresholds.fusion.signal_lost_ms
            && a.thresholds.fusion.signal_lost_clear_ms == b.thresholds.fusion.signal_lost_clear_ms,
        severities_view(a.thresholds.fusion.severity@) == severities_view(b.thresholds.fusion.severity@),
        a.capture == b.capture && a.runtime == b.runtime && a.cadence == b.cadence,
        subject_view(a.models.face) == subject_view(b.models.face),
        subject_view(a.models.pose) == subject_view(b.models.pose),
        subject_view(a.models.gaze) == subject_view(b.models.gaze),
        subject_view(a.models.objects) == subject_view(b.models.objects),
        subject_view(a.models.identity) == subject_view(b.models.identity),
        a.thresholds.valid() <==> b.thresholds.valid(),
{
}

/// What holds where nothing is configured: after how long someone is missed, how
/// many faces are too many, from where an angle counts, what adds up to an
/// object and who is someone else.
pub proof fn law_the_defaults_hold_where_nothing_is_said(c: Config)
    requires
        c.is_default(),
    ensures
        c.thresholds.valid(),
        c.thresholds.face.no_face_hold_ms == 2500 && c.thresholds.face.no_face_clear_ms == 700,
        c.thresholds.face.never_seen_ms == 10_000,
        c.thresholds.face.multi_face_count == 2,
        c.thresholds.face.multi_face_hold_ms == 1000 && c.thresholds.face.multi_face_clear_ms == 1000,
        c.thresholds.face.min_score.bits == 0x3fe6_6666_6666_6666,
        c.thresholds.pose.hold_ms == 1500 && c.thresholds.pose.clear_ms == 800,
        c.thresholds.pose.yaw_enter_deg.bits == 0x4041_8000_0000_0000,
        c.thresholds.pose.yaw_exit_deg.bits == 0x4039_0000_0000_0000,
        c.thresholds.pose.pitch_enter_deg.bits == 0x4039_0000_0000_0000,
        c.thresholds.pose.pitch_exit_deg.bits == 0x4032_0000_0000_0000,
        c.thresholds.pose.ema_alpha.bits == 0x3fd9_9999_9999_999a,
        c.thresholds.gaze.hold_ms == 2000 && c.thresholds.gaze.clear_ms == 800,
        c.thresholds.gaze.yaw_enter_deg.bits == 0x403e_0000_0000_0000,
        c.thresholds.gaze.yaw_exit_deg.bits == 0x4036_0000_0000_0000,
        c.thresholds.gaze.pitch_enter_deg.bits == 0x403c_0000_0000_0000,
        c.thresholds.gaze.pitch_exit_deg.bits == 0x4034_0000_0000_0000,
        c.thresholds.gaze.pitch_offset_deg.bits == 0x4029_0000_0000_0000,
        c.thresholds.gaze.ema_alpha.bits == 0x3fd9_9999_9999_999a,
        c.thresholds.objects.min_score.bits == 0x3fd0_0000_0000_0000,
        c.thresholds.objects.enter_score.bits == 0x3ff8_0000_0000_0000,
        c.thresholds.objects.clear_score.bits == 0x3fe3_3333_3333_3333,
        c.thresholds.objects.score_half_life_ms == 3000,
        c.thresholds.identity.cosine_enter.bits == 0x3fd3_3333_3333_3333,
        c.thresholds.identity.cosine_exit.bits == 0x3fd8_51eb_851e_b852,
        c.thresholds.identity.consecutive_failures == 3,
        c.thresholds.fusion.signal_lost_ms == 5000 && c.thresholds.fusion.signal_lost_clear_ms == 1000,
        c.thresholds.fusion.severity@.len() == 0,
        buckets_view(c.thresholds.objects.buckets@).len() == 2,
        buckets_view(c.thresholds.objects.buckets@)[0] == (BucketView { name: "book"@, classes: seq!["book"@] }),
        buckets_view(c.thresholds.objects.buckets@)[1] == (BucketView {
            name: "handheld_device"@,
            classes: seq!["cell phone"@, "remote"@],
        }),
        c.capture == (CaptureConfig { device_index: 0, width: 1280, height: 720, fps: 30, prefer_mjpeg: true }),
        c.models.face is None && c.models.pose is None && c.models.gaze is None && c.models.objects is None
            && c.models.identity is None,
        c.runtime.intra_threads_large == 2 && c.runtime.intra_threads_small == 1 && c.runtime.inter_threads == 1,
        c.runtime.dynamic_block_base == 4 && !c.runtime.allow_spinning && c.runtime.warmup_iters == 3,
        c.cadence.face_hz.bits == 0x402e_0000_0000_0000,
        c.cadence.object_hz.bits == 0x3ff0_0000_0000_0000,
        c.cadence.identity_hz.bits == 0x3fc9_9999_9999_999a,
{
}

/// Lists of texts, buckets and rules say what each of them says, in order.
pub proof fn law_lists_say_what_is_in_them(
    texts: Seq<String>,
    buckets: Seq<Bucket>,
    rules: Seq<SeverityRule>,
    i: int,
)
    ensures
        texts_view(texts).len() == texts.len(),
        0 <= i < texts.len() ==> texts_view(texts)[i] == texts[i]@,
        buckets_view(buckets).len() == buckets.len(),
        0 <= i < buckets.len() ==> buckets_view(buckets)[i].name == buckets[i].name@ && buckets_view(
            buckets,
        )[i].classes == texts_view(buckets[i].classes@),
        severities_view(rules).len() == rules.len(),
        0 <= i < rules.len() ==> severities_view(rules)[i] == (rules[i].kind@, rules[i].severity),
{
}

} // verus!
