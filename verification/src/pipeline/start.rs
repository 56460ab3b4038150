//! Starting a session: which models to load and which threads to spawn, in
//! which order, and what follows when one of them does not work out.
//!
//! Loading and spawning is the caller's part. It performs one action at a time
//! and hands back how it went.

use vstd::prelude::*;

use crate::config::ModelPaths;
use crate::error::{DetectError, ErrorView};
use crate::text::owned;
use crate::types::{DegradeReason, DegradeView, Event, EventView, SlotState};
use super::{with_reason, Detector, IdentityResult, ObjectResultView, Session};

verus! {

broadcast use vstd::string::group_string_axioms;

/// What a start is waiting for.
#[derive(Debug, Clone, Copy, PartialEq, Eq, Structural)]
pub enum Stage {
    Face,
    Gaze,
    Pose,
    Capture,
    Objects,
    Identity,
    Detect,
    ObjectWorker,
    IdentityWorker,
    Running,
}

/// A start in progress.
#[derive(Debug, Clone, Copy, PartialEq, Eq)]
pub struct Starting {
    pub stage: Stage,
    /// Whether an object model was loaded.
    pub objects: bool,
    /// Whether an identity model was loaded.
    pub identity: bool,
}

/// What to do next.
#[derive(Debug, Clone, PartialEq, Eq)]
pub enum Action {
    LoadFace { path: String },
    LoadGaze { path: String },
    LoadPose { path: String },
    SpawnCapture,
    LoadObjects { path: String },
    LoadIdentity { path: String },
    SpawnDetect,
    SpawnObjects,
    SpawnIdentity,
    /// Nothing: the session is running.
    Running,
}

/// What an [`Action`] says.
pub ghost enum ActionView {
    LoadFace { path: Seq<char> },
    LoadGaze { path: Seq<char> },
    LoadPose { path: Seq<char> },
    SpawnCapture,
    LoadObjects { path: Seq<char> },
    LoadIdentity { path: Seq<char> },
    SpawnDetect,
    SpawnObjects,
    SpawnIdentity,
    Running,
}

impl View for Action {
    type V = ActionView;

    open spec fn view(&self) -> ActionView {
        match self {
            Action::LoadFace { path } => ActionView::LoadFace { path: path@ },
            Action::LoadGaze { path } => ActionView::LoadGaze { path: path@ },
            Action::LoadPose { path } => ActionView::LoadPose { path: path@ },
            Action::SpawnCapture => ActionView::SpawnCapture,
            Action::LoadObjects { path } => ActionView::LoadObjects { path: path@ },
            Action::LoadIdentity { path } => ActionView::LoadIdentity { path: path@ },
            Action::SpawnDetect => ActionView::SpawnDetect,
            Action::SpawnObjects => ActionView::SpawnObjects,
            Action::SpawnIdentity => ActionView::SpawnIdentity,
            Action::Running => ActionView::Running,
        }
    }
}

impl Starting {
    /// The first stage at or after the worker threads of the slow models.
    pub open spec fn from_object_worker(self) -> Stage {
        if self.objects {
            Stage::ObjectWorker
        } else {
            self.from_identity_worker()
        }
    }

    pub open spec fn from_identity_worker(self) -> Stage {
        if self.identity {
            Stage::IdentityWorker
        } else {
            Stage::Running
        }
    }

    /// The stage that follows this one: the next model that is configured, or
    /// the next thread that there is work for.
    pub open spec fn following(self, paths: ModelPaths) -> Stage {
        match self.stage {
            Stage::Face => if paths.gaze is Some {
                Stage::Gaze
            } else if paths.pose is Some {
                Stage::Pose
            } else {
                Stage::Capture
            },
            Stage::Gaze => if paths.pose is Some {
                Stage::Pose
            } else {
                Stage::Capture
            },
            Stage::Pose => Stage::Capture,
            Stage::Capture => if paths.objects is Some {
                Stage::Objects
            } else if paths.identity is Some {
                Stage::Identity
            } else {
                Stage::Detect
            },
            Stage::Objects => if paths.identity is Some {
                Stage::Identity
            } else {
                Stage::Detect
            },
            Stage::Identity => Stage::Detect,
            Stage::Detect => self.from_object_worker(),
            Stage::ObjectWorker => self.from_identity_worker(),
            Stage::IdentityWorker => Stage::Running,
            Stage::Running => Stage::Running,
        }
    }

    /// This start once its stage is over, and how it went.
    pub open spec fn after(self, paths: ModelPaths, done: bool) -> Starting {
        let known = Starting {
            objects: self.objects || (self.stage == Stage::Objects && done),
            identity: self.identity || (self.stage == Stage::Identity && done),
            ..self
        };
        Starting { stage: known.following(paths), ..known }
    }
}

/// The model slot that a stage loads, if losing it is survivable.
pub open spec fn slot_of(stage: Stage) -> Option<Seq<char>> {
    match stage {
        Stage::Gaze => Some("gaze"@),
        Stage::Pose => Some("pose"@),
        Stage::Objects => Some("objects"@),
        Stage::Identity => Some("identity"@),
        _ => None,
    }
}

/// The thread that a stage spawns.
pub open spec fn thread_of(stage: Stage) -> Option<Seq<char>> {
    match stage {
        Stage::Capture => Some("capture"@),
        Stage::Detect => Some("detect"@),
        Stage::ObjectWorker => Some("object"@),
        Stage::IdentityWorker => Some("identity"@),
        _ => None,
    }
}

/// What a stage asks for.
pub open spec fn action_of(stage: Stage, paths: ModelPaths) -> ActionView {
    match stage {
        Stage::Face => ActionView::LoadFace { path: paths.face->0@ },
        Stage::Gaze => ActionView::LoadGaze { path: paths.gaze->0@ },
        Stage::Pose => ActionView::LoadPose { path: paths.pose->0@ },
        Stage::Capture => ActionView::SpawnCapture,
        Stage::Objects => ActionView::LoadObjects { path: paths.objects->0@ },
        Stage::Identity => ActionView::LoadIdentity { path: paths.identity->0@ },
        Stage::Detect => ActionView::SpawnDetect,
        Stage::ObjectWorker => ActionView::SpawnObjects,
        Stage::IdentityWorker => ActionView::SpawnIdentity,
        Stage::Running => ActionView::Running,
    }
}

/// The workers that a stage adds once it is over. Capture and detection are
/// counted together.
pub open spec fn workers_of(stage: Stage) -> nat {
    match stage {
        Stage::Detect => 2,
        Stage::ObjectWorker => 1,
        Stage::IdentityWorker => 1,
        _ => 0,
    }
}

/// What a failure means to a session: `None` if it goes on without.
pub open spec fn fatal(stage: Stage, why: Seq<char>) -> Option<ErrorView> {
    match stage {
        Stage::Face => Some(ErrorView::Model(why)),
        _ => match thread_of(stage) {
            Some(thread) => Some(ErrorView::Config("spawning "@ + thread + " thread: "@ + why)),
            None => None,
        },
    }
}

impl Session {
    /// What is remembered once a stage worked out.
    pub open spec fn after_stage(self, stage: Stage) -> Session {
        let counted = Session { workers: self.workers + workers_of(stage), ..self };
        if stage == Stage::Objects {
            Session {
                objects: ObjectResultView {
                    detections: Seq::empty(),
                    seq: 0,
                    state: SlotState::SkippedCadence,
                },
                ..counted
            }
        } else {
            counted
        }
    }

    /// What is remembered once a stage is entered.
    pub open spec fn entering(self, stage: Stage) -> Session {
        if stage == Stage::IdentityWorker {
            Session {
                identity: IdentityResult { score: None, seq: 0, state: SlotState::NotConfigured },
                ..self
            }
        } else {
            self
        }
    }

    /// What is remembered once a slot turned out to be unavailable.
    pub open spec fn without(self, slot: Seq<char>, why: Seq<char>) -> Session {
        Session {
            degraded: with_reason(self.degraded, DegradeView::ModelUnavailable { model: slot, why }),
            ..self
        }
    }
}

/// Whether a stage has something to load, if it loads anything.
pub open spec fn has_work(stage: Stage, paths: ModelPaths) -> bool {
    match stage {
        Stage::Face => paths.face is Some,
        Stage::Gaze => paths.gaze is Some,
        Stage::Pose => paths.pose is Some,
        Stage::Objects => paths.objects is Some,
        Stage::Identity => paths.identity is Some,
        _ => true,
    }
}

fn path_or_nothing(path: &Option<String>) -> (r: String)
    ensures
        path matches Some(p) ==> r@ == p@,
{
    match path {
        Some(p) => p.clone(),
        None => String::new(),
    }
}

fn action_for(stage: Stage, paths: &ModelPaths) -> (r: Action)
    requires
        has_work(stage, *paths),
    ensures
        r@ == action_of(stage, *paths),
{
    match stage {
        Stage::Face => Action::LoadFace { path: path_or_nothing(&paths.face) },
        Stage::Gaze => Action::LoadGaze { path: path_or_nothing(&paths.gaze) },
        Stage::Pose => Action::LoadPose { path: path_or_nothing(&paths.pose) },
        Stage::Capture => Action::SpawnCapture,
        Stage::Objects => Action::LoadObjects { path: path_or_nothing(&paths.objects) },
        Stage::Identity => Action::LoadIdentity { path: path_or_nothing(&paths.identity) },
        Stage::Detect => Action::SpawnDetect,
        Stage::ObjectWorker => Action::SpawnObjects,
        Stage::IdentityWorker => Action::SpawnIdentity,
        Stage::Running => Action::Running,
    }
}

fn follow(s: &Starting, paths: &ModelPaths) -> (r: Stage)
    ensures
        r == s.following(*paths),
{
    let after_detect = if s.objects {
        Stage::ObjectWorker
    } else if s.identity {
        Stage::IdentityWorker
    } else {
        Stage::Running
    };
    match s.stage {
        Stage::Face => if paths.gaze.is_some() {
            Stage::Gaze
        } else if paths.pose.is_some() {
            Stage::Pose
        } else {
            Stage::Capture
        },
        Stage::Gaze => if paths.pose.is_some() {
            Stage::Pose
        } else {
            Stage::Capture
        },
        Stage::Pose => Stage::Capture,
        Stage::Capture => if paths.objects.is_some() {
            Stage::Objects
        } else if paths.identity.is_some() {
            Stage::Identity
        } else {
            Stage::Detect
        },
        Stage::Objects => if paths.identity.is_some() {
            Stage::Identity
        } else {
            Stage::Detect
        },
        Stage::Identity => Stage::Detect,
        Stage::Detect => after_detect,
        Stage::ObjectWorker => if s.identity {
            Stage::IdentityWorker
        } else {
            Stage::Running
        },
        Stage::IdentityWorker => Stage::Running,
        Stage::Running => Stage::Running,
    }
}

impl Detector {
    /// Begin a start. A session that is running is not started again, and no
    /// face model means no session.
    pub fn start(&mut self, source_name: &str) -> (r: Result<(Starting, Action), DetectError>)
        ensures
            final(self).configured() == old(self).configured(),
            final(self).built() == old(self).built(),
            match r {
                Ok(first) => {
                    &&& old(self)@.workers == 0
                    &&& old(self).built().models.face matches Some(path) && first.1@ == (ActionView::LoadFace {
                        path: path@,
                    })
                    &&& first.0 == (Starting { stage: Stage::Face, objects: false, identity: false })
                    &&& final(self)@ == (Session { source: source_name@, ..old(self)@ })
                },
                Err(e) => if old(self)@.workers > 0 {
                    &&& e@ == ErrorView::Config("detector is already running"@)
                    &&& final(self)@ == old(self)@
                } else {
                    &&& old(self).built().models.face is None
                    &&& e@ == ErrorView::Config("config.models.face is required — no face model, no session"@)
                    &&& final(self)@ == (Session { source: source_name@, ..old(self)@ })
                },
            },
    {
        if self.worker_count() > 0 {
            return Err(DetectError::Config(owned("detector is already running")));
        }
        self.name_source(source_name);
        let face = match &self.built_config().models.face {
            Some(path) => Some(path.clone()),
            None => None,
        };
        match face {
            Some(path) => Ok(
                (
                    Starting { stage: Stage::Face, objects: false, identity: false },
                    Action::LoadFace { path },
                ),
            ),
            None => Err(
                DetectError::Config(owned("config.models.face is required — no face model, no session")),
            ),
        }
    }

    /// Go on with a start, now that its stage is over. Everything past the face
    /// model is a capability, not a requirement: if it will not load, the
    /// session continues without it and says so.
    pub fn advance(&mut self, starting: &mut Starting, outcome: Result<(), String>) -> (r: Result<
        (Action, Option<Event>),
        DetectError,
    >)
        requires
            old(self)@.workers + 2 <= usize::MAX,
            old(starting).stage != Stage::Running,
        ensures
            final(self).configured() == old(self).configured(),
            final(self).built() == old(self).built(),
            ({
                let stage = old(starting).stage;
                let paths = old(self).built().models;
                match outcome {
                    Ok(_) => {
                        &&& *final(starting) == old(starting).after(paths, true)
                        &&& r matches Ok(next) && next.0@ == action_of(final(starting).stage, paths)
                            && next.1 is None
                        &&& final(self)@ == old(self)@.after_stage(stage).entering(final(starting).stage)
                    },
                    Err(why) => match fatal(stage, why@) {
                        Some(e) => {
                            &&& r matches Err(got) && got@ == e
                            &&& *final(starting) == *old(starting)
                            &&& final(self)@ == old(self)@
                        },
                        None => {
                            &&& slot_of(stage) is Some
                            &&& *final(starting) == old(starting).after(paths, false)
                            &&& r matches Ok(next) && next.0@ == action_of(final(starting).stage, paths) && (
                            next.1 matches Some(event) && event@ == EventView::Degraded(
                                DegradeView::ModelUnavailable { model: slot_of(stage)->0, why: why@ },
                            ))
                            &&& final(self)@ == old(self)@.without(slot_of(stage)->0, why@).entering(
                                final(starting).stage,
                            )
                        },
                    },
                }
            }),
    {
        let stage = starting.stage;
        let mut event: Option<Event> = None;
        match outcome {
            Ok(()) => {
                match stage {
                    Stage::Objects => {
                        self.arm_objects();
                        starting.objects = true;
                    },
                    Stage::Identity => {
                        starting.identity = true;
                    },
                    Stage::Detect => {
                        self.add_workers(2);
                    },
                    Stage::ObjectWorker => {
                        self.add_workers(1);
                    },
                    Stage::IdentityWorker => {
                        self.add_workers(1);
                    },
                    _ => {},
                }
            },
            Err(why) => {
                let slot = match stage {
                    Stage::Gaze => "gaze",
                    Stage::Pose => "pose",
                    Stage::Objects => "objects",
                    Stage::Identity => "identity",
                    Stage::Face => {
                        return Err(DetectError::Model(why));
                    },
                    _ => {
                        let thread = match stage {
                            Stage::Capture => "capture",
                            Stage::Detect => "detect",
                            Stage::ObjectWorker => "object",
                            _ => "identity",
                        };
                        return Err(
                            DetectError::Config(
                                owned("spawning ").concat(thread).concat(" thread: ").concat(why.as_str()),
                            ),
                        );
                    },
                };
                event = Some(
                    self.note_degraded(DegradeReason::ModelUnavailable { model: owned(slot), why }),
                );
            },
        }
        let next = follow(starting, &self.built_config().models);
        starting.stage = next;
        if next == Stage::IdentityWorker {
            self.arm_identity();
        }
        let action = action_for(next, &self.built_config().models);
        Ok((action, event))
    }
}

/// Where a stage stands among the stages.
pub open spec fn stage_number(stage: Stage) -> int {
    match stage {
        Stage::Face => 0,
        Stage::Gaze => 1,
        Stage::Pose => 2,
        Stage::Capture => 3,
        Stage::Objects => 4,
        Stage::Identity => 5,
        Stage::Detect => 6,
        Stage::ObjectWorker => 7,
        Stage::IdentityWorker => 8,
        Stage::Running => 9,
    }
}

/// A start never goes back and never loads a model that is not configured, and
/// it reaches a running session whatever fails to load: only the face model and
/// the threads can stop it.
pub proof fn law_a_start_moves_on(s: Starting, paths: ModelPaths, done: bool, why: Seq<char>)
    requires
        s.stage != Stage::Running,
    ensures
        stage_number(s.after(paths, done).stage) > stage_number(s.stage),
        has_work(s.after(paths, done).stage, paths),
        fatal(s.stage, why) is Some <==> slot_of(s.stage) is None,
{
}

/// Whether a stage is wanted: it has a model to load, a thread to spawn, or it
/// is the end.
pub open spec fn wanted(stage: Stage, paths: ModelPaths, objects: bool, identity: bool) -> bool {
    match stage {
        Stage::Gaze => paths.gaze is Some,
        Stage::Pose => paths.pose is Some,
        Stage::Objects => paths.objects is Some,
        Stage::Identity => paths.identity is Some,
        Stage::ObjectWorker => objects,
        Stage::IdentityWorker => identity,
        _ => true,
    }
}

/// A start leaves out nothing that is configured: the next stage is the first
/// after the present one that is wanted. Workers are wanted for the models that
/// loaded.
pub proof fn law_a_start_leaves_nothing_out(s: Starting, paths: ModelPaths, done: bool, other: Stage)
    requires
        s.stage != Stage::Running,
    ensures
        ({
            let n = s.after(paths, done);
            &&& wanted(n.stage, paths, n.objects, n.identity)
            &&& stage_number(s.stage) < stage_number(other) < stage_number(n.stage) ==> !wanted(
                other,
                paths,
                n.objects,
                n.identity,
            )
            &&& n.objects <==> s.objects || (s.stage is Objects && done)
            &&& n.identity <==> s.identity || (s.stage is Identity && done)
        }),
{
}

/// Each stage asks for its own: the model at the path that is configured for it,
/// or its thread.
pub proof fn law_each_stage_asks_for_its_own(paths: ModelPaths)
    ensures
        paths.face matches Some(p) ==> action_of(Stage::Face, paths) == (ActionView::LoadFace { path: p@ }),
        paths.gaze matches Some(p) ==> action_of(Stage::Gaze, paths) == (ActionView::LoadGaze { path: p@ }),
        paths.pose matches Some(p) ==> action_of(Stage::Pose, paths) == (ActionView::LoadPose { path: p@ }),
        paths.objects matches Some(p) ==> action_of(Stage::Objects, paths) == (ActionView::LoadObjects { path: p@ }),
        paths.identity matches Some(p) ==> action_of(Stage::Identity, paths) == (ActionView::LoadIdentity {
            path: p@,
        }),
        action_of(Stage::Capture, paths) == ActionView::SpawnCapture,
        action_of(Stage::Detect, paths) == ActionView::SpawnDetect,
        action_of(Stage::ObjectWorker, paths) == ActionView::SpawnObjects,
        action_of(Stage::IdentityWorker, paths) == ActionView::SpawnIdentity,
        action_of(Stage::Running, paths) == ActionView::Running,
{
}

/// Losing the face model, or a thread, ends a start with what went wrong. Losing
/// any other model costs its slot, and is said once with the slot's name.
pub proof fn law_a_lost_model_costs_its_slot(s: Session, why: Seq<char>)
    ensures
        fatal(Stage::Face, why) == Some(ErrorView::Model(why)),
        fatal(Stage::Capture, why) == Some(ErrorView::Config("spawning "@ + "capture"@ + " thread: "@ + why)),
        fatal(Stage::Detect, why) == Some(ErrorView::Config("spawning "@ + "detect"@ + " thread: "@ + why)),
        fatal(Stage::ObjectWorker, why) == Some(ErrorView::Config("spawning "@ + "object"@ + " thread: "@ + why)),
        fatal(Stage::IdentityWorker, why) == Some(ErrorView::Config("spawning "@ + "identity"@ + " thread: "@ + why)),
        fatal(Stage::Gaze, why) is None && slot_of(Stage::Gaze) == Some("gaze"@),
        fatal(Stage::Pose, why) is None && slot_of(Stage::Pose) == Some("pose"@),
        fatal(Stage::Objects, why) is None && slot_of(Stage::Objects) == Some("objects"@),
        fatal(Stage::Identity, why) is None && slot_of(Stage::Identity) == Some("identity"@),
        forall|slot: Seq<char>|
            (#[trigger] s.without(slot, why)).degraded.contains(DegradeView::ModelUnavailable { model: slot, why })
                && s.without(slot, why) == (Session { degraded: s.without(slot, why).degraded, ..s }),
{
    assert forall|slot: Seq<char>|
        (#[trigger] s.without(slot, why)).degraded.contains(DegradeView::ModelUnavailable { model: slot, why })
            && s.without(slot, why) == (Session { degraded: s.without(slot, why).degraded, ..s }) by {
        let reason = DegradeView::ModelUnavailable { model: slot, why };
        if !s.degraded.contains(reason) {
            assert(s.without(slot, why).degraded[s.degraded.len() as int] == reason);
        }
    }
}

/// A session counts the workers it has: capture and detection together, and one
/// for each of the slow models. The object slot waits for its first result from
/// when its model is loaded, and the identity slot begins with none.
pub proof fn law_a_session_counts_its_workers(s: Session, stage: Stage)
    ensures
        s.after_stage(stage).workers == s.workers + (match stage {
            Stage::Detect => 2int,
            Stage::ObjectWorker => 1int,
            Stage::IdentityWorker => 1int,
            _ => 0int,
        }),
        stage is Objects ==> s.after_stage(stage).objects.state is SkippedCadence && s.after_stage(stage).objects.seq
            == 0 && s.after_stage(stage).objects.detections.len() == 0,
        !(stage is Objects) ==> s.after_stage(stage).objects == s.objects,
        s.after_stage(stage) == (Session {
            workers: s.after_stage(stage).workers,
            objects: s.after_stage(stage).objects,
            ..s
        }),
        stage is IdentityWorker ==> s.entering(stage).identity == (IdentityResult {
            score: None,
            seq: 0,
            state: SlotState::NotConfigured,
        }),
        !(stage is IdentityWorker) ==> s.entering(stage) == s,
        s.entering(stage) == (Session { identity: s.entering(stage).identity, ..s }),
{
}

} // verus!
