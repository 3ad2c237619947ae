use vstd::prelude::*;
use crate::error::PipelineError;

verus! {

/// The pitch swings this far to either side of its bias, in thousandths of a
/// radian, unless the caller asks for another amplitude.
pub const DEFAULT_PITCH_AMPLITUDE: i32 = 200;

/// The pitch around which the camera bobs, in thousandths of a radian.
pub const DEFAULT_PITCH_BIAS: i32 = 250;

/// The zoom of the projection, in thousandths: slightly less than a view that
/// fills the frame.
pub const DEFAULT_SCALE: i32 = 900;

/// How the camera orbits: the number of frames to one full revolution, and
/// the three constants of the projection, in thousandths.
#[derive(Clone, Copy, PartialEq, Eq, Structural, Debug)]
pub struct OrbitSettings {
    pub total_steps: u32,
    pub pitch_amplitude: i32,
    pub pitch_bias: i32,
    pub scale: i32,
}

/// The camera of one frame.
///
/// The yaw is `step / total_steps` of a full turn. The pitch is the sine of
/// the yaw times `pitch_amplitude`, plus `pitch_bias`; whoever draws the frame
/// takes the sine. The scale is the same in every frame.
#[derive(Clone, Copy, PartialEq, Eq, Structural, Debug)]
pub struct OrbitFrame {
    pub step: u32,
    pub total_steps: u32,
    pub pitch_amplitude: i32,
    pub pitch_bias: i32,
    pub scale: i32,
}

/// What became of the frame that the animator last asked for.
#[derive(Clone, Copy, PartialEq, Eq, Structural, Debug)]
pub enum FrameOutcome {
    /// The frame is drawn and committed to the output.
    Committed,
    /// The frame could not be committed.
    Failed,
}

/// What the animator asks of its caller next.
#[derive(Clone, Copy, PartialEq, Eq, Structural, Debug)]
pub enum OrbitAction {
    /// Draw and commit this frame, then report what became of it.
    Render(OrbitFrame),
    /// All frames are committed; `frames` says how many.
    Done { frames: u32 },
    /// A frame failed: stop, and pass the failure on. Frames committed before
    /// it stay in the output.
    Abort(PipelineError),
}

/// Where an animation stands: `committed` frames are in the output, and
/// `failed` says whether the frame after them could not be committed.
pub struct OrbitModel {
    pub settings: OrbitSettings,
    pub committed: int,
    pub failed: bool,
}

impl OrbitSettings {
    /// The camera of frame `step`.
    pub open spec fn frame(self, step: int) -> OrbitFrame {
        OrbitFrame {
            step: step as u32,
            total_steps: self.total_steps,
            pitch_amplitude: self.pitch_amplitude,
            pitch_bias: self.pitch_bias,
            scale: self.scale,
        }
    }

    /// An animation before its first frame.
    pub open spec fn start(self) -> OrbitModel {
        OrbitModel { settings: self, committed: 0, failed: false }
    }

    /// One revolution in `total_steps` frames with the default projection.
    pub fn with_defaults(total_steps: u32) -> (s: OrbitSettings)
        ensures
            s == (OrbitSettings {
                total_steps,
                pitch_amplitude: DEFAULT_PITCH_AMPLITUDE,
                pitch_bias: DEFAULT_PITCH_BIAS,
                scale: DEFAULT_SCALE,
            }),
    {
        OrbitSettings {
            total_steps,
            pitch_amplitude: DEFAULT_PITCH_AMPLITUDE,
            pitch_bias: DEFAULT_PITCH_BIAS,
            scale: DEFAULT_SCALE,
        }
    }
}

impl OrbitModel {
    /// A frame is asked for and not yet reported on.
    pub open spec fn awaiting(self) -> bool {
        !self.failed && self.committed < self.settings.total_steps
    }

    /// What the animator asks for in this state: the next frame in step
    /// order while frames are left, the end when none is, and an abort once
    /// a frame has failed.
    pub open spec fn action(self) -> OrbitAction {
        if self.failed {
            OrbitAction::Abort(PipelineError::RenderFailure { step: self.committed as u32 })
        } else if self.committed < self.settings.total_steps {
            OrbitAction::Render(self.settings.frame(self.committed))
        } else {
            OrbitAction::Done { frames: self.settings.total_steps }
        }
    }

    /// The state after the caller reported `outcome`. A committed frame moves
    /// the animation on by one step. A failed frame stops it for good. A
    /// report that answers no request changes nothing.
    pub open spec fn after(self, outcome: FrameOutcome) -> OrbitModel {
        if !self.awaiting() {
            self
        } else {
            match outcome {
                FrameOutcome::Committed => OrbitModel { committed: self.committed + 1, ..self },
                FrameOutcome::Failed => OrbitModel { failed: true, ..self },
            }
        }
    }

    /// The state after the caller reported `outcomes` one by one, in order.
    pub open spec fn after_all(self, outcomes: Seq<FrameOutcome>) -> OrbitModel
        decreases outcomes.len(),
    {
        if outcomes.len() == 0 {
            self
        } else {
            self.after_all(outcomes.drop_last()).after(outcomes.last())
        }
    }
}

/// Drives an orbit animation: it says which frame to draw next, takes the
/// report on it, and never asks for a frame out of step order.
#[derive(Clone, Copy, Debug)]
pub struct OrbitAnimator {
    settings: OrbitSettings,
    committed: u32,
    failed: bool,
}

impl View for OrbitAnimator {
    type V = OrbitModel;

    closed spec fn view(&self) -> OrbitModel {
        OrbitModel { settings: self.settings, committed: self.committed as int, failed: self.failed }
    }
}

impl OrbitAnimator {
    #[verifier::type_invariant]
    spec fn inv(self) -> bool {
        self.committed <= self.settings.total_steps && (self.failed ==> self.committed < self.settings.total_steps)
    }

    /// Starts an animation. The second part of the result is the first
    /// request: frame 0, or the end at once if there is no frame to draw.
    pub fn start(settings: OrbitSettings) -> (r: (OrbitAnimator, OrbitAction))
        ensures
            r.0@ == settings.start(),
            r.1 == r.0@.action(),
    {
        let animator = OrbitAnimator { settings, committed: 0, failed: false };
        let action = animator.action();
        (animator, action)
    }

    /// What the animator asks for now.
    pub fn action(&self) -> (a: OrbitAction)
        ensures
            a == self@.action(),
            a matches OrbitAction::Render(frame) ==> frame.step < frame.total_steps,
    {
        if self.failed {
            OrbitAction::Abort(PipelineError::RenderFailure { step: self.committed })
        } else if self.committed < self.settings.total_steps {
            OrbitAction::Render(
                OrbitFrame {
                    step: self.committed,
                    total_steps: self.settings.total_steps,
                    pitch_amplitude: self.settings.pitch_amplitude,
                    pitch_bias: self.settings.pitch_bias,
                    scale: self.settings.scale,
                },
            )
        } else {
            OrbitAction::Done { frames: self.settings.total_steps }
        }
    }

    /// The number of frames committed so far.
    pub fn committed(&self) -> (n: u32)
        ensures
            n == self@.committed,
            n <= self@.settings.total_steps,
    {
        proof {
            use_type_invariant(self);
        }
        self.committed
    }

    /// Takes the report on the frame last asked for, and says what to do
    /// next.
    pub fn advance(self, outcome: FrameOutcome) -> (r: (OrbitAnimator, OrbitAction))
        ensures
            r.0@ == self@.after(outcome),
            r.1 == r.0@.action(),
    {
        proof {
            use_type_invariant(&self);
        }
        let next = if self.failed || self.committed >= self.settings.total_steps {
            self
        } else {
            match outcome {
                FrameOutcome::Committed => OrbitAnimator {
                    settings: self.settings,
                    committed: self.committed + 1,
                    failed: false,
                },
                FrameOutcome::Failed => OrbitAnimator {
                    settings: self.settings,
                    committed: self.committed,
                    failed: true,
                },
            }
        };
        let action = next.action();
        (next, action)
    }
}

/// `count` reports, all of them `Committed`.
pub open spec fn all_committed(count: nat) -> Seq<FrameOutcome> {
    Seq::new(count, |i: int| FrameOutcome::Committed)
}

/// While every frame is committed, the animator asks for the frames in step
/// order: after `count` commits it asks for frame number `count`, and once
/// `total_steps` frames are committed it says that it is done.
pub proof fn lemma_frames_in_step_order(settings: OrbitSettings, count: nat)
    requires
        count <= settings.total_steps,
    ensures
        settings.start().after_all(all_committed(count)) == (OrbitModel {
            settings,
            committed: count as int,
            failed: false,
        }),
        count < settings.total_steps ==> settings.start().after_all(all_committed(count)).action()
            == OrbitAction::Render(settings.frame(count as int)),
        count == settings.total_steps ==> settings.start().after_all(all_committed(count)).action() == (
        OrbitAction::Done { frames: settings.total_steps }),
    decreases count,
{
    if count > 0 {
        let before = (count - 1) as nat;
        lemma_frames_in_step_order(settings, before);
        assert(all_committed(count).drop_last() == all_committed(before));
        assert(all_committed(count).last() == FrameOutcome::Committed);
    }
}

/// A failed frame ends the animation: if the frame of step `count` fails
/// after `count` commits, the animator asks to abort with that step, whatever
/// is reported afterwards, and the `count` committed frames stay counted.
pub proof fn lemma_failure_is_final(settings: OrbitSettings, count: nat, later: Seq<FrameOutcome>)
    requires
        count < settings.total_steps,
    ensures
        settings.start().after_all(all_committed(count).push(FrameOutcome::Failed) + later) == (OrbitModel {
            settings,
            committed: count as int,
            failed: true,
        }),
        settings.start().after_all(all_committed(count).push(FrameOutcome::Failed) + later).action()
            == OrbitAction::Abort(PipelineError::RenderFailure { step: count as u32 }),
    decreases later.len(),
{
    let head = all_committed(count).push(FrameOutcome::Failed);
    if later.len() == 0 {
        lemma_frames_in_step_order(settings, count);
        assert(head + later == head);
        assert(head.drop_last() == all_committed(count));
        assert(head.last() == FrameOutcome::Failed);
    } else {
        lemma_failure_is_final(settings, count, later.drop_last());
        assert((head + later).drop_last() == head + later.drop_last());
    }
}

/// Reports only ever move an animation forwards: the number of committed
/// frames never falls, and one report adds at most one frame.
pub proof fn lemma_advance_by_one(model: OrbitModel, outcome: FrameOutcome)
    ensures
        model.committed <= model.after(outcome).committed <= model.committed + 1,
        model.after(outcome).committed == model.committed + 1 <==> model.awaiting() && outcome
            == FrameOutcome::Committed,
        model.after(outcome).settings == model.settings,
{
}

} // verus!
