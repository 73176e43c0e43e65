//! Pure state for a live review conversation.
//!
//! The window, the filesystem mailbox and the speech worker all have
//! different lifetimes. Their decisions are made here, so those adapters
//! report facts instead of each inventing its own answer to whether a reader
//! may be moved, which utterance finished, or what a comment was about.

use vstd::prelude::*;

use crate::line::LineRange;
use crate::text::text_eq;

verus! {

/// A random identity for one ownership of a deck.
///
/// Reopening creates a new generation, so messages from an owner that
/// crashed can be rejected without guessing whether its process id was reused.
#[derive(Debug, Clone, PartialEq, Eq, Hash)]
pub struct Generation(pub String);

/// The identity of one applied arrangement of evidence.
#[derive(Debug, Clone, PartialEq, Eq, Hash)]
pub struct StageId(pub String);

/// The identity of one narration request.
#[derive(Debug, Clone, PartialEq, Eq, Hash)]
pub struct UtteranceId(pub String);

/// The identity of one public transcript entry.
#[derive(Debug, Clone, PartialEq, Eq, Hash)]
pub struct EntryId(pub String);

/// Code and context currently being shown together.
#[derive(Debug, Clone, PartialEq, Eq)]
pub struct Stage {
    /// Stable identity used by comments and transcript entries.
    pub id: StageId,
    /// The authored group this conversation still belongs to.
    pub group: String,
    /// The authored or live ref, when the stage points at one.
    pub ref_id: Option<String>,
    /// The file being shown, when this is code evidence.
    pub file: Option<String>,
    /// The resolved source lines shown to the reader.
    pub range: Option<LineRange>,
    /// The exact displayed evidence covered by `range`.
    pub quote: String,
    /// Identity of the immutable source snapshot used for the stage.
    pub snapshot: Option<String>,
}

/// A target captured at the instant a reader acts.
///
/// It holds values rather than a pane index: the stage may move and panes may
/// be rebuilt before the remark is saved, and none of that may retarget what
/// the reader meant.
#[derive(Debug, Clone, PartialEq, Eq)]
pub struct CapturedAnchor {
    /// The group that was visible at capture time.
    pub group: String,
    /// The ref visible at capture time, when there was one.
    pub ref_id: Option<String>,
    /// The file visible at capture time, when this was code evidence.
    pub file: Option<String>,
    /// The exact source range visible at capture time.
    pub range: Option<LineRange>,
    /// Code for a code anchor and prose for a narration anchor.
    pub quote: String,
    /// Identity of the immutable source snapshot, when code was shown.
    pub snapshot: Option<String>,
    /// The applied stage, never a pending request.
    pub stage: Option<StageId>,
    /// The narration entry selected by the reader, when applicable.
    pub entry: Option<EntryId>,
}

/// The characters of an optional string.
pub open spec fn opt_text(o: Option<String>) -> Option<Seq<char>> {
    match o {
        Some(s) => Some(s@),
        None => None,
    }
}

/// Whether two optional strings hold the same text.
pub fn opt_text_eq(a: &Option<String>, b: &Option<String>) -> (r: bool)
    ensures
        r == (opt_text(*a) == opt_text(*b)),
{
    match (a, b) {
        (Some(x), Some(y)) => String::eq(x, y),
        (None, None) => true,
        _ => false,
    }
}

/// A copy of an optional string.
pub fn opt_copy(a: &Option<String>) -> (r: Option<String>)
    ensures
        r == *a,
{
    match a {
        Some(x) => Some(x.clone()),
        None => None,
    }
}

/// Whether two optional ranges are the same.
pub fn opt_range_eq(a: &Option<LineRange>, b: &Option<LineRange>) -> (r: bool)
    ensures
        r == (*a == *b),
{
    match (a, b) {
        (Some(x), Some(y)) => x.first == y.first && x.last == y.last,
        (None, None) => true,
        _ => false,
    }
}

impl Stage {
    /// Whether two stages name the same displayed evidence: everything but
    /// the request identity.
    pub open spec fn spec_same_target(self, other: Stage) -> bool {
        &&& self.group@ == other.group@
        &&& opt_text(self.ref_id) == opt_text(other.ref_id)
        &&& opt_text(self.file) == opt_text(other.file)
        &&& self.range == other.range
        &&& self.quote@ == other.quote@
        &&& opt_text(self.snapshot) == opt_text(other.snapshot)
    }

    /// The anchor this stage freezes into.
    pub open spec fn spec_capture(self, entry: Option<EntryId>) -> CapturedAnchor {
        CapturedAnchor {
            group: self.group,
            ref_id: self.ref_id,
            file: self.file,
            range: self.range,
            quote: self.quote,
            snapshot: self.snapshot,
            stage: Some(self.id),
            entry,
        }
    }

    /// Whether two commands name the same displayed evidence.
    ///
    /// Request identity is deliberately excluded: retrying or naming the same
    /// subject again must not reset dwell pacing or repaint the view.
    pub fn same_target(&self, other: &Self) -> (r: bool)
        ensures
            r == self.spec_same_target(*other),
    {
        text_eq(&self.group, &other.group) && opt_text_eq(&self.ref_id, &other.ref_id)
            && opt_text_eq(&self.file, &other.file) && opt_range_eq(&self.range, &other.range)
            && text_eq(&self.quote, &other.quote) && opt_text_eq(
            &self.snapshot,
            &other.snapshot,
        )
    }

    /// A copy of this stage.
    pub fn copy(&self) -> (r: Self)
        ensures
            r == *self,
    {
        Stage {
            id: StageId(self.id.0.clone()),
            group: self.group.clone(),
            ref_id: opt_copy(&self.ref_id),
            file: opt_copy(&self.file),
            range: self.range,
            quote: self.quote.clone(),
            snapshot: opt_copy(&self.snapshot),
        }
    }

    /// Freeze this stage into a comment target.
    pub fn capture(&self, entry: Option<EntryId>) -> (r: CapturedAnchor)
        ensures
            r == self.spec_capture(entry),
    {
        let copy = self.copy();
        CapturedAnchor {
            group: copy.group,
            ref_id: copy.ref_id,
            file: copy.file,
            range: copy.range,
            quote: copy.quote,
            snapshot: copy.snapshot,
            stage: Some(copy.id),
            entry,
        }
    }
}

impl CapturedAnchor {
    /// A copy of this anchor.
    pub fn copy(&self) -> (r: Self)
        ensures
            r == *self,
    {
        CapturedAnchor {
            group: self.group.clone(),
            ref_id: opt_copy(&self.ref_id),
            file: opt_copy(&self.file),
            range: self.range,
            quote: self.quote.clone(),
            snapshot: opt_copy(&self.snapshot),
            stage: match &self.stage {
                Some(id) => Some(StageId(id.0.clone())),
                None => None,
            },
            entry: match &self.entry {
                Some(id) => Some(EntryId(id.0.clone())),
                None => None,
            },
        }
    }
}

/// Whether the session can currently be interacted with.
#[derive(Debug, Clone, Copy, PartialEq, Eq, Structural)]
pub enum Lifecycle {
    /// The bar exists, but the reader has not opened the deck.
    Waiting,
    /// The reader has the deck open.
    Open,
    /// The reader put the deck back on the bar.
    Hidden,
    /// The review was durably written.
    Submitted,
    /// The reader closed without submitting.
    Closed,
}

/// Why agent-driven movement yielded to the reader.
#[derive(Debug, Clone, Copy, PartialEq, Eq, Structural)]
pub enum PauseReason {
    /// The reader moved or scrolled independently.
    Navigation,
    /// The reader selected evidence or prose.
    Selection,
    /// A composer owns an immutable anchor.
    Composer,
    /// A question or must-fix interrupted the walk.
    Interruption,
    /// The deck is hidden or is not the active window.
    InactiveWindow,
}

impl PauseReason {
    /// Whether time alone gives movement back: a scroll, a selection or an
    /// interruption does; a composer and an inactive window do not.
    pub open spec fn spec_lapses(self) -> bool {
        match self {
            PauseReason::Navigation | PauseReason::Selection | PauseReason::Interruption => true,
            PauseReason::Composer | PauseReason::InactiveWindow => false,
        }
    }

    /// Whether time alone is enough to give movement back.
    pub fn lapses(self) -> (r: bool)
        ensures
            r == self.spec_lapses(),
    {
        match self {
            PauseReason::Navigation | PauseReason::Selection | PauseReason::Interruption => true,
            PauseReason::Composer | PauseReason::InactiveWindow => false,
        }
    }
}

/// How long reader activity keeps priority before movement returns.
pub const RESUME_AFTER_MS: u64 = 4_000;

/// Minimum time between two different applied targets.
pub const MINIMUM_DWELL_MS: u64 = 1_000;

/// Who currently controls movement.
#[derive(Debug, Clone, Copy, PartialEq, Eq, Structural)]
pub enum Following {
    /// An accepted stage request may move the spotlight.
    Following,
    /// Reader movement wins until it lapses or they explicitly resume.
    Paused(PauseReason),
}

/// Progress of the one utterance a session may own.
#[derive(Debug, Clone, Copy, PartialEq, Eq, Structural)]
pub enum AudioPhase {
    /// Nothing is being prepared or played.
    Idle,
    /// A provider or process is starting.
    Preparing,
    /// Audio is reaching the output device.
    Playing,
    /// The cancellable pause between paragraphs.
    ParagraphGap,
    /// The output sink drained naturally.
    Completed,
    /// The reader or lifecycle stopped playback.
    Interrupted,
    /// Synthesis or playback failed.
    Failed,
}

impl AudioPhase {
    /// Whether starting another utterance would overlap this one.
    pub open spec fn spec_active(self) -> bool {
        match self {
            AudioPhase::Preparing | AudioPhase::Playing | AudioPhase::ParagraphGap => true,
            _ => false,
        }
    }

    /// Whether starting another utterance would overlap this one.
    pub fn active(self) -> (r: bool)
        ensures
            r == self.spec_active(),
    {
        match self {
            AudioPhase::Preparing | AudioPhase::Playing | AudioPhase::ParagraphGap => true,
            _ => false,
        }
    }
}


/// Pure state retained across hide and reopen.
#[derive(Debug, Clone, PartialEq, Eq)]
pub struct State {
    /// The owner generation whose actions are accepted.
    pub generation: Generation,
    /// Whether the deck is waiting, visible, hidden, or terminal.
    pub lifecycle: Lifecycle,
    /// Whether the agent may move the stage.
    pub following: Following,
    /// The stage actually applied to the view.
    pub stage: Option<Stage>,
    /// The last time a different stage was applied, in caller-provided ms.
    pub last_stage_at_ms: Option<u64>,
    /// When reader activity took priority, in caller-provided ms.
    pub paused_at_ms: Option<u64>,
    /// The anchor owned by an open composer.
    pub composer: Option<CapturedAnchor>,
    /// The current or most recently finished utterance.
    pub utterance: Option<UtteranceId>,
    /// Its current phase.
    pub audio: AudioPhase,
}

/// A fact presented to the pure live state.
#[derive(Debug, Clone, PartialEq, Eq)]
pub enum Action {
    /// The reader opened the deck from its bar.
    Opened {
        /// The owner presenting this fact.
        generation: Generation,
    },
    /// An owner validated a target and its source snapshot.
    Show {
        /// The owner presenting this fact.
        generation: Generation,
        /// The complete target ready to apply.
        stage: Stage,
        /// Caller-provided monotonic milliseconds used for pacing.
        at_ms: u64,
        /// Whether disk still matches the displayed snapshot.
        source_matches: bool,
    },
    /// Reader activity takes control from the agent.
    Pause {
        /// The owner presenting this fact.
        generation: Generation,
        /// The reader activity that took control.
        reason: PauseReason,
        /// Caller-provided monotonic milliseconds, so the pause can lapse.
        at_ms: u64,
    },
    /// The reader explicitly returned control.
    Resume {
        /// The owner presenting this fact.
        generation: Generation,
    },
    /// A composer took ownership of a frozen target.
    OpenComposer {
        /// The owner presenting this fact.
        generation: Generation,
        /// The target captured before the composer opens.
        anchor: CapturedAnchor,
    },
    /// The composer was saved or discarded.
    CloseComposer {
        /// The owner presenting this fact.
        generation: Generation,
    },
    /// One utterance was accepted.
    StartAudio {
        /// The owner presenting this fact.
        generation: Generation,
        /// The accepted utterance.
        utterance: UtteranceId,
    },
    /// The matching worker reported a new phase.
    AudioChanged {
        /// The owner presenting this fact.
        generation: Generation,
        /// The utterance the worker is reporting on.
        utterance: UtteranceId,
        /// The newly observed phase.
        phase: AudioPhase,
    },
    /// The reader put the deck back on its bar.
    Hidden {
        /// The owner presenting this fact.
        generation: Generation,
    },
    /// The review was written durably.
    Submitted {
        /// The owner presenting this fact.
        generation: Generation,
    },
    /// The reader closed without submitting.
    Closed {
        /// The owner presenting this fact.
        generation: Generation,
    },
}

/// Work an adapter performs after a transition succeeds.
#[derive(Debug, Clone, PartialEq, Eq)]
pub enum Effect {
    /// Paint and reveal this stage, then acknowledge it.
    StageApplied(Stage),
    /// An identical target was already applied; acknowledge without moving.
    StageUnchanged(StageId),
    /// Publish that reader control paused movement.
    FollowingPaused(PauseReason),
    /// Publish that the reader resumed following.
    FollowingResumed,
    /// Give this immutable target to the composer and event journal.
    ComposerCaptured(CapturedAnchor),
    /// Start, update, or cancel the matching utterance in the worker.
    AudioChanged {
        /// The utterance whose late messages must not affect another one.
        utterance: UtteranceId,
        /// The phase now visible to commands and the reader.
        phase: AudioPhase,
    },
    /// Publish a visible or terminal lifecycle change.
    LifecycleChanged(Lifecycle),
}

/// A recoverable or terminal reason an action was not applied.
#[derive(Debug, Clone, Copy, PartialEq, Eq)]
pub enum Refusal {
    /// The action belongs to an earlier owner.
    StaleGeneration,
    /// Only a visible deck may move, speak, or resume.
    NotVisible,
    /// The reader has priority over agent-driven movement.
    Paused(PauseReason),
    /// A different target moved too recently.
    Paced {
        /// How long the caller should wait before deliberately retrying.
        retry_after_ms: u64,
    },
    /// Disk no longer matches the text shown in the pane.
    SourceChanged,
    /// The composer owns an immutable anchor until it closes.
    ComposerOwnsAnchor,
    /// One utterance is already active.
    Busy,
    /// A late worker message names an obsolete utterance.
    StaleUtterance,
}

/// What a transition gives back: the effects, or why nothing happened.
pub type Outcome = Result<Seq<Effect>, Refusal>;

/// `a - b`, or zero when `b` is later.
pub open spec fn since(a: u64, b: u64) -> int {
    if a >= b {
        a - b
    } else {
        0
    }
}

impl Action {
    /// The owner presenting this fact.
    pub open spec fn spec_generation(self) -> Generation {
        match self {
            Action::Opened { generation } => generation,
            Action::Show { generation, .. } => generation,
            Action::Pause { generation, .. } => generation,
            Action::Resume { generation } => generation,
            Action::OpenComposer { generation, .. } => generation,
            Action::CloseComposer { generation } => generation,
            Action::StartAudio { generation, .. } => generation,
            Action::AudioChanged { generation, .. } => generation,
            Action::Hidden { generation } => generation,
            Action::Submitted { generation } => generation,
            Action::Closed { generation } => generation,
        }
    }

    /// The owner presenting this fact.
    pub fn generation(&self) -> (g: &Generation)
        ensures
            *g == self.spec_generation(),
    {
        match self {
            Action::Opened { generation } => generation,
            Action::Show { generation, .. } => generation,
            Action::Pause { generation, .. } => generation,
            Action::Resume { generation } => generation,
            Action::OpenComposer { generation, .. } => generation,
            Action::CloseComposer { generation } => generation,
            Action::StartAudio { generation, .. } => generation,
            Action::AudioChanged { generation, .. } => generation,
            Action::Hidden { generation } => generation,
            Action::Submitted { generation } => generation,
            Action::Closed { generation } => generation,
        }
    }
}

impl State {
    /// The state's own consistency: movement that is not paused carries no
    /// pause time, and a voice that is active belongs to some utterance.
    pub open spec fn wf(self) -> bool {
        &&& self.following == Following::Following ==> self.paused_at_ms is None
        &&& self.audio.spec_active() ==> self.utterance is Some
    }

    /// Whether the reader still holds movement at `at_ms`.
    pub open spec fn spec_holds(self, at_ms: u64) -> bool {
        match self.following {
            Following::Following => false,
            Following::Paused(reason) => !reason.spec_lapses() || match self.paused_at_ms {
                None => true,
                Some(at) => since(at_ms, at) < RESUME_AFTER_MS,
            },
        }
    }

    /// Whether the session has ended: its review was written, or the reader
    /// closed it. Nothing reopens or hides an ended session.
    pub open spec fn spec_ended(self) -> bool {
        self.lifecycle == Lifecycle::Submitted || self.lifecycle == Lifecycle::Closed
    }

    /// This state with movement given back and the pause forgotten.
    pub open spec fn spec_resumed(self) -> State {
        State { following: Following::Following, paused_at_ms: None, ..self }
    }

    /// Leaving the visible lifecycle: movement pauses on an inactive window,
    /// and an active voice is interrupted.
    pub open spec fn spec_leave(self, lifecycle: Lifecycle) -> (State, Outcome) {
        if self.spec_ended() {
            (self, Err(Refusal::NotVisible))
        } else {
            self.spec_left(lifecycle)
        }
    }

    /// Leaving the visible lifecycle, from a session that has not ended.
    pub open spec fn spec_left(self, lifecycle: Lifecycle) -> (State, Outcome) {
        let paused = State {
            lifecycle,
            following: Following::Paused(PauseReason::InactiveWindow),
            paused_at_ms: None,
            ..self
        };
        let effects = seq![
            Effect::FollowingPaused(PauseReason::InactiveWindow),
            Effect::LifecycleChanged(lifecycle),
        ];
        if self.audio.spec_active() {
            let interrupted = State { audio: AudioPhase::Interrupted, ..paused };
            match self.utterance {
                Some(u) => (
                    interrupted,
                    Ok(effects.push(Effect::AudioChanged { utterance: u, phase: AudioPhase::Interrupted })),
                ),
                None => (interrupted, Ok(effects)),
            }
        } else {
            (paused, Ok(effects))
        }
    }

    /// A show request at `at_ms`, in the order its refusals are checked:
    /// visibility, the source on disk, the reader's pause (unless it has
    /// lapsed), a composer, the same target again, and pacing.
    pub open spec fn spec_show(self, stage: Stage, at_ms: u64, source_matches: bool) -> (
        State,
        Outcome,
    ) {
        if self.lifecycle != Lifecycle::Open {
            (self, Err(Refusal::NotVisible))
        } else if !source_matches {
            (self, Err(Refusal::SourceChanged))
        } else {
            let (s, refused) = match self.following {
                Following::Following => (self, None),
                Following::Paused(reason) => {
                    let lapsed = reason.spec_lapses() && match self.paused_at_ms {
                        Some(at) => since(at_ms, at) >= RESUME_AFTER_MS,
                        None => false,
                    };
                    if lapsed {
                        (self.spec_resumed(), None)
                    } else {
                        (self, Some(Refusal::Paused(reason)))
                    }
                },
            };
            match refused {
                Some(r) => (s, Err(r)),
                None => if s.composer is Some {
                    (s, Err(Refusal::ComposerOwnsAnchor))
                } else if s.stage is Some && s.stage->0.spec_same_target(stage) {
                    (s, Ok(seq![Effect::StageUnchanged(s.stage->0.id)]))
                } else if s.last_stage_at_ms is Some && since(at_ms, s.last_stage_at_ms->0)
                    < MINIMUM_DWELL_MS {
                    (
                        s,
                        Err(
                            Refusal::Paced {
                                retry_after_ms: (MINIMUM_DWELL_MS - since(
                                    at_ms,
                                    s.last_stage_at_ms->0,
                                )) as u64,
                            },
                        ),
                    )
                } else {
                    (
                        State { last_stage_at_ms: Some(at_ms), stage: Some(stage), ..s },
                        Ok(seq![Effect::StageApplied(stage)]),
                    )
                },
            }
        }
    }

    /// One transition of the live session: the state after `action`, and the
    /// effects adapters must carry out or the reason it was refused.
    pub open spec fn step(self, action: Action) -> (State, Outcome) {
        if action.spec_generation().0@ != self.generation.0@ {
            (self, Err(Refusal::StaleGeneration))
        } else {
            match action {
                Action::Opened { .. } => if self.spec_ended() {
                    (self, Err(Refusal::NotVisible))
                } else {
                    (
                        State { lifecycle: Lifecycle::Open, ..self.spec_resumed() },
                        Ok(seq![Effect::LifecycleChanged(Lifecycle::Open), Effect::FollowingResumed]),
                    )
                },
                Action::Show { stage, at_ms, source_matches, .. } => self.spec_show(
                    stage,
                    at_ms,
                    source_matches,
                ),
                Action::Pause { reason, at_ms, .. } => {
                    let outranked = match self.following {
                        Following::Paused(held) => !held.spec_lapses() && reason.spec_lapses(),
                        Following::Following => false,
                    };
                    if outranked {
                        (self, Ok(seq![]))
                    } else {
                        (
                            State {
                                following: Following::Paused(reason),
                                paused_at_ms: Some(at_ms),
                                ..self
                            },
                            Ok(seq![Effect::FollowingPaused(reason)]),
                        )
                    }
                },
                Action::Resume { .. } => if self.lifecycle != Lifecycle::Open {
                    (self, Err(Refusal::NotVisible))
                } else {
                    (self.spec_resumed(), Ok(seq![Effect::FollowingResumed]))
                },
                Action::OpenComposer { anchor, .. } => if self.lifecycle != Lifecycle::Open {
                    (self, Err(Refusal::NotVisible))
                } else {
                    (
                        State {
                            following: Following::Paused(PauseReason::Composer),
                            composer: Some(anchor),
                            ..self
                        },
                        Ok(
                            seq![
                                Effect::FollowingPaused(PauseReason::Composer),
                                Effect::ComposerCaptured(anchor),
                            ],
                        ),
                    )
                },
                Action::CloseComposer { .. } => {
                    let closed = State { composer: None, ..self };
                    if self.following == Following::Paused(PauseReason::Composer) {
                        (closed.spec_resumed(), Ok(seq![Effect::FollowingResumed]))
                    } else {
                        (closed, Ok(seq![]))
                    }
                },
                Action::StartAudio { utterance, .. } => if self.lifecycle != Lifecycle::Open {
                    (self, Err(Refusal::NotVisible))
                } else if self.audio.spec_active() {
                    (self, Err(Refusal::Busy))
                } else {
                    (
                        State {
                            utterance: Some(utterance),
                            audio: AudioPhase::Preparing,
                            ..self
                        },
                        Ok(
                            seq![
                                Effect::AudioChanged {
                                    utterance,
                                    phase: AudioPhase::Preparing,
                                },
                            ],
                        ),
                    )
                },
                Action::AudioChanged { utterance, phase, .. } => if !match self.utterance {
                    Some(current) => current.0@ == utterance.0@,
                    None => false,
                } {
                    (self, Err(Refusal::StaleUtterance))
                } else {
                    (
                        State { audio: phase, ..self },
                        Ok(seq![Effect::AudioChanged { utterance, phase }]),
                    )
                },
                Action::Hidden { .. } => self.spec_leave(Lifecycle::Hidden),
                Action::Submitted { .. } => self.spec_leave(Lifecycle::Submitted),
                Action::Closed { .. } => self.spec_leave(Lifecycle::Closed),
            }
        }
    }

    /// Whether the reader still holds movement at `at_ms`.
    ///
    /// A pause that lapses stops holding once the reader has been still long
    /// enough — the same rule a show request applies.
    pub fn holds(&self, at_ms: u64) -> (r: bool)
        ensures
            r == self.spec_holds(at_ms),
    {
        match self.following {
            Following::Following => false,
            Following::Paused(reason) => {
                !reason.lapses() || match self.paused_at_ms {
                    None => true,
                    Some(at) => at_ms.saturating_sub(at) < RESUME_AFTER_MS,
                }
            },
        }
    }

    /// A session whose bar exists and whose reader has not opened it yet.
    pub fn new(generation: Generation) -> (s: Self)
        ensures
            s == (State {
                generation,
                lifecycle: Lifecycle::Waiting,
                following: Following::Following,
                stage: None,
                last_stage_at_ms: None,
                paused_at_ms: None,
                composer: None,
                utterance: None,
                audio: AudioPhase::Idle,
            }),
            s.wf(),
    {
        State {
            generation,
            lifecycle: Lifecycle::Waiting,
            following: Following::Following,
            stage: None,
            last_stage_at_ms: None,
            paused_at_ms: None,
            composer: None,
            utterance: None,
            audio: AudioPhase::Idle,
        }
    }

    /// Capture only what is actually applied, never a request waiting in a
    /// mailbox.
    pub fn capture(&self, entry: Option<EntryId>) -> (r: Option<CapturedAnchor>)
        ensures
            r == match self.stage {
                Some(stage) => Some(stage.spec_capture(entry)),
                None => None,
            },
    {
        match &self.stage {
            Some(stage) => Some(stage.capture(entry)),
            None => None,
        }
    }

    /// Give movement back, and forget when it was taken.
    pub fn resume(&mut self)
        ensures
            *final(self) == old(self).spec_resumed(),
    {
        self.following = Following::Following;
        self.paused_at_ms = None;
    }

    /// Whether the session has ended: submitted, or closed unanswered.
    pub fn ended(&self) -> (r: bool)
        ensures
            r == self.spec_ended(),
    {
        match self.lifecycle {
            Lifecycle::Submitted | Lifecycle::Closed => true,
            _ => false,
        }
    }

    /// Leave the visible lifecycle. An ended session stays as it is.
    pub fn leave_visible(&mut self, lifecycle: Lifecycle) -> (r: Result<Vec<Effect>, Refusal>)
        ensures
            (*final(self), match r {
                Ok(v) => Ok(v@),
                Err(e) => Err(e),
            }) == old(self).spec_leave(lifecycle),
    {
        if self.ended() {
            return Err(Refusal::NotVisible);
        }
        self.lifecycle = lifecycle;
        self.following = Following::Paused(PauseReason::InactiveWindow);
        self.paused_at_ms = None;
        let mut effects = vec![
            Effect::FollowingPaused(PauseReason::InactiveWindow),
            Effect::LifecycleChanged(lifecycle),
        ];
        assert(effects@ =~= seq![
            Effect::FollowingPaused(PauseReason::InactiveWindow),
            Effect::LifecycleChanged(lifecycle),
        ]);
        if self.audio.active() {
            self.audio = AudioPhase::Interrupted;
            match &self.utterance {
                Some(utterance) => {
                    effects.push(
                        Effect::AudioChanged {
                            utterance: UtteranceId(utterance.0.clone()),
                            phase: AudioPhase::Interrupted,
                        },
                    );
                },
                None => {},
            }
        }
        Ok(effects)
    }

    /// Apply a show request.
    pub fn show(&mut self, stage: Stage, at_ms: u64, source_matches: bool) -> (r: Result<
        Vec<Effect>,
        Refusal,
    >)
        ensures
            (*final(self), match r {
                Ok(v) => Ok(v@),
                Err(e) => Err(e),
            }) == old(self).spec_show(stage, at_ms, source_matches),
    {
        if self.lifecycle != Lifecycle::Open {
            return Err(Refusal::NotVisible);
        }
        if !source_matches {
            return Err(Refusal::SourceChanged);
        }
        if let Following::Paused(reason) = self.following {
            let lapsed = reason.lapses() && match self.paused_at_ms {
                Some(at) => at_ms.saturating_sub(at) >= RESUME_AFTER_MS,
                None => false,
            };
            if lapsed {
                self.resume();
            } else {
                return Err(Refusal::Paused(reason));
            }
        }
        if self.composer.is_some() {
            return Err(Refusal::ComposerOwnsAnchor);
        }
        match &self.stage {
            Some(current) => {
                if current.same_target(&stage) {
                    let effects = vec![Effect::StageUnchanged(StageId(current.id.0.clone()))];
                    assert(effects@ =~= seq![Effect::StageUnchanged(current.id)]);
                    return Ok(effects);
                }
            },
            None => {},
        }
        match self.last_stage_at_ms {
            Some(last) => {
                let elapsed = at_ms.saturating_sub(last);
                if elapsed < MINIMUM_DWELL_MS {
                    return Err(Refusal::Paced { retry_after_ms: MINIMUM_DWELL_MS - elapsed });
                }
            },
            None => {},
        }
        self.last_stage_at_ms = Some(at_ms);
        let applied = stage.copy();
        self.stage = Some(stage);
        let effects = vec![Effect::StageApplied(applied)];
        assert(effects@ =~= seq![Effect::StageApplied(stage)]);
        Ok(effects)
    }

    /// Apply one fact and return what adapters must do about it.
    ///
    /// Time is data supplied by the caller, so pacing needs no clock and a
    /// mailbox deadline can use the same clock as the command that made it.
    pub fn apply(&mut self, action: Action) -> (r: Result<Vec<Effect>, Refusal>)
        ensures
            (*final(self), match r {
                Ok(v) => Ok(v@),
                Err(e) => Err(e),
            }) == old(self).step(action),
    {
        if !text_eq(&action.generation().0, &self.generation.0) {
            return Err(Refusal::StaleGeneration);
        }
        match action {
            Action::Opened { .. } => {
                if self.ended() {
                    return Err(Refusal::NotVisible);
                }
                self.lifecycle = Lifecycle::Open;
                self.resume();
                let effects = vec![Effect::LifecycleChanged(Lifecycle::Open), Effect::FollowingResumed];
                assert(effects@ =~= seq![
                    Effect::LifecycleChanged(Lifecycle::Open),
                    Effect::FollowingResumed,
                ]);
                Ok(effects)
            },
            Action::Show { stage, at_ms, source_matches, .. } => self.show(
                stage,
                at_ms,
                source_matches,
            ),
            Action::Pause { reason, at_ms, .. } => {
                if let Following::Paused(held) = self.following {
                    if !held.lapses() && reason.lapses() {
                        let effects = Vec::new();
                        assert(effects@ =~= Seq::<Effect>::empty());
                        return Ok(effects);
                    }
                }
                self.following = Following::Paused(reason);
                self.paused_at_ms = Some(at_ms);
                let effects = vec![Effect::FollowingPaused(reason)];
                assert(effects@ =~= seq![Effect::FollowingPaused(reason)]);
                Ok(effects)
            },
            Action::Resume { .. } => {
                if self.lifecycle != Lifecycle::Open {
                    return Err(Refusal::NotVisible);
                }
                self.resume();
                let effects = vec![Effect::FollowingResumed];
                assert(effects@ =~= seq![Effect::FollowingResumed]);
                Ok(effects)
            },
            Action::OpenComposer { anchor, .. } => {
                if self.lifecycle != Lifecycle::Open {
                    return Err(Refusal::NotVisible);
                }
                self.following = Following::Paused(PauseReason::Composer);
                let captured = anchor.copy();
                self.composer = Some(anchor);
                let effects = vec![
                    Effect::FollowingPaused(PauseReason::Composer),
                    Effect::ComposerCaptured(captured),
                ];
                assert(effects@ =~= seq![
                    Effect::FollowingPaused(PauseReason::Composer),
                    Effect::ComposerCaptured(anchor),
                ]);
                Ok(effects)
            },
            Action::CloseComposer { .. } => {
                self.composer = None;
                if self.following == Following::Paused(PauseReason::Composer) {
                    self.resume();
                    let effects = vec![Effect::FollowingResumed];
                    assert(effects@ =~= seq![Effect::FollowingResumed]);
                    return Ok(effects);
                }
                let effects = Vec::new();
                assert(effects@ =~= Seq::<Effect>::empty());
                Ok(effects)
            },
            Action::StartAudio { utterance, .. } => {
                if self.lifecycle != Lifecycle::Open {
                    return Err(Refusal::NotVisible);
                }
                if self.audio.active() {
                    return Err(Refusal::Busy);
                }
                let reported = UtteranceId(utterance.0.clone());
                self.utterance = Some(utterance);
                self.audio = AudioPhase::Preparing;
                let effects = vec![
                    Effect::AudioChanged { utterance: reported, phase: AudioPhase::Preparing },
                ];
                assert(effects@ =~= seq![
                    Effect::AudioChanged { utterance, phase: AudioPhase::Preparing },
                ]);
                Ok(effects)
            },
            Action::AudioChanged { utterance, phase, .. } => {
                let current = match &self.utterance {
                    Some(u) => text_eq(&u.0, &utterance.0),
                    None => false,
                };
                if !current {
                    return Err(Refusal::StaleUtterance);
                }
                self.audio = phase;
                let ghost reported = utterance;
                let effects = vec![Effect::AudioChanged { utterance, phase }];
                assert(effects@ =~= seq![Effect::AudioChanged { utterance: reported, phase }]);
                Ok(effects)
            },
            Action::Hidden { .. } => self.leave_visible(Lifecycle::Hidden),
            Action::Submitted { .. } => self.leave_visible(Lifecycle::Submitted),
            Action::Closed { .. } => self.leave_visible(Lifecycle::Closed),
        }
    }
}


/// An action presented by an owner other than the current one changes
/// nothing and is refused as stale.
pub proof fn lemma_stale_generation_changes_nothing(s: State, action: Action)
    requires
        action.spec_generation().0@ != s.generation.0@,
    ensures
        s.step(action) == (s, Err::<Seq<Effect>, Refusal>(Refusal::StaleGeneration)),
{
}

/// No action changes which owner the session belongs to.
pub proof fn lemma_generation_is_kept(s: State, action: Action)
    ensures
        s.step(action).0.generation == s.generation,
{
}

/// Every transition keeps the state consistent.
pub proof fn lemma_step_keeps_wf(s: State, action: Action)
    requires
        s.wf(),
    ensures
        s.step(action).0.wf(),
{
}

/// A refused action leaves the state as it was, except that a show request
/// may first notice that the reader's pause has lapsed and give movement back.
pub proof fn lemma_refusal_changes_at_most_the_pause(s: State, action: Action)
    ensures
        s.step(action).1 is Err ==> s.step(action).0 == s || s.step(action).0
            == s.spec_resumed(),
{
}

/// While the reader holds movement, a show request is refused and the
/// applied stage stays where it is.
pub proof fn lemma_holding_reader_is_not_moved(
    s: State,
    generation: Generation,
    stage: Stage,
    at_ms: u64,
    source_matches: bool,
)
    requires
        s.spec_holds(at_ms),
    ensures
        ({
            let (t, r) = s.step(Action::Show { generation, stage, at_ms, source_matches });
            &&& r is Err
            &&& t.stage == s.stage
            &&& t.last_stage_at_ms == s.last_stage_at_ms
        }),
{
}

/// A pause that lapses by itself never displaces one the reader has to clear
/// by hand.
pub proof fn lemma_lapsing_pause_keeps_a_held_one(
    s: State,
    generation: Generation,
    held: PauseReason,
    reason: PauseReason,
    at_ms: u64,
)
    requires
        s.following == Following::Paused(held),
        !held.spec_lapses(),
        reason.spec_lapses(),
    ensures
        s.step(Action::Pause { generation, reason, at_ms }).0 == s,
{
}

/// Only opening and closing a composer change the anchor it owns.
pub proof fn lemma_composer_anchor_is_kept(s: State, action: Action)
    requires
        !(action is OpenComposer),
        !(action is CloseComposer),
    ensures
        s.step(action).0.composer == s.composer,
{
}

/// Only a show request changes the applied stage, and when it does, the stage
/// is the one requested, the previous different stage was applied at least
/// the minimum dwell earlier, and its time is recorded.
pub proof fn lemma_stage_moves_only_by_a_paced_show(s: State, action: Action)
    requires
        s.step(action).0.stage != s.stage,
    ensures
        action matches Action::Show { stage, at_ms, source_matches, .. } && {
            &&& source_matches
            &&& s.step(action).0.stage == Some(stage)
            &&& s.step(action).0.last_stage_at_ms == Some(at_ms)
            &&& s.step(action).1 == Ok::<Seq<Effect>, Refusal>(seq![Effect::StageApplied(stage)])
            &&& s.last_stage_at_ms matches Some(last) ==> since(at_ms, last) >= MINIMUM_DWELL_MS
        },
{
}

/// Naming the applied target again, under another request identity, neither
/// repaints nor restarts the dwell.
pub proof fn lemma_same_target_is_unchanged(
    s: State,
    generation: Generation,
    stage: Stage,
    at_ms: u64,
)
    requires
        generation.0@ == s.generation.0@,
        s.lifecycle == Lifecycle::Open,
        s.following == Following::Following,
        s.composer is None,
        s.stage matches Some(current) && current.spec_same_target(stage),
    ensures
        s.step(Action::Show { generation, stage, at_ms, source_matches: true }) == (s, Ok::<
            Seq<Effect>,
            Refusal,
        >(seq![Effect::StageUnchanged(s.stage->0.id)])),
{
}

/// Opening the deck makes it visible and gives movement back.
pub proof fn lemma_opening_resumes(s: State, generation: Generation)
    requires
        generation.0@ == s.generation.0@,
        !s.spec_ended(),
    ensures
        s.step(Action::Opened { generation }).0.lifecycle == Lifecycle::Open,
        s.step(Action::Opened { generation }).0.following == Following::Following,
        !s.step(Action::Opened { generation }).0.spec_holds(0),
{
}

/// Leaving the visible lifecycle stops following and leaves no voice active.
pub proof fn lemma_leaving_silences_and_pauses(s: State, action: Action)
    requires
        action.spec_generation().0@ == s.generation.0@,
        action is Hidden || action is Submitted || action is Closed,
        !s.spec_ended(),
    ensures
        s.step(action).0.following == Following::Paused(PauseReason::InactiveWindow),
        !s.step(action).0.audio.spec_active(),
        s.step(action).1 is Ok,
{
}

/// A worker report about any utterance but the current one changes nothing.
pub proof fn lemma_stale_utterance_changes_nothing(
    s: State,
    generation: Generation,
    utterance: UtteranceId,
    phase: AudioPhase,
)
    requires
        !(s.utterance matches Some(current) && current.0@ == utterance.0@),
    ensures
        s.step(Action::AudioChanged { generation, utterance, phase }).0 == s,
{
}

/// Closing a composer that held movement gives it back.
pub proof fn lemma_closing_the_composer_resumes(s: State, generation: Generation)
    requires
        generation.0@ == s.generation.0@,
        s.following == Following::Paused(PauseReason::Composer),
    ensures
        s.step(Action::CloseComposer { generation }).0.following == Following::Following,
        s.step(Action::CloseComposer { generation }).0.composer is None,
{
}


/// A submitted or closed session is final: no fact reopens it, hides it, or
/// changes how it ended.
pub proof fn lemma_ended_is_final(s: State, action: Action)
    requires
        s.spec_ended(),
    ensures
        s.step(action).0.lifecycle == s.lifecycle,
{
}

/// Time alone gives movement back after a scroll, a selection or an
/// interruption, and never after a composer or an inactive window: once the
/// reader has been still for [`RESUME_AFTER_MS`], a show with nothing else in
/// its way is applied over the first three and refused over the other two.
/// Before then, every pause refuses it.
pub proof fn lemma_which_pauses_lapse(s: State, reason: PauseReason, at: u64, g: Generation, stage: Stage, at_ms: u64)
    requires
        s.lifecycle == Lifecycle::Open,
        s.following == Following::Paused(reason),
        s.paused_at_ms == Some(at),
        s.composer is None,
        s.stage is None,
        s.last_stage_at_ms is None,
        g.0@ == s.generation.0@,
    ensures
        ({
            let (next, out) = s.step(Action::Show { generation: g, stage, at_ms, source_matches: true });
            &&& at_ms >= at + RESUME_AFTER_MS && (reason == PauseReason::Navigation || reason
                == PauseReason::Selection || reason == PauseReason::Interruption) ==> out == Ok::<
                Seq<Effect>,
                Refusal,
            >(seq![Effect::StageApplied(stage)]) && next.following == Following::Following
                && next.stage == Some(stage)
            &&& (reason == PauseReason::Composer || reason == PauseReason::InactiveWindow) ==> out
                == Err::<Seq<Effect>, Refusal>(Refusal::Paused(reason)) && next == s
            &&& at_ms < at + RESUME_AFTER_MS ==> out == Err::<Seq<Effect>, Refusal>(
                Refusal::Paused(reason),
            ) && next == s
        }),
{
}

} // verus!
