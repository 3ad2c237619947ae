use mesh_orbit::error::PipelineError;
use mesh_orbit::orbit::{
    FrameOutcome, OrbitAction, OrbitAnimator, OrbitFrame, OrbitSettings, DEFAULT_PITCH_AMPLITUDE,
    DEFAULT_PITCH_BIAS, DEFAULT_SCALE,
};

fn run_to_end(total_steps: u32) -> (Vec<OrbitFrame>, OrbitAction) {
    let (mut animator, mut action) = OrbitAnimator::start(OrbitSettings::with_defaults(total_steps));
    let mut frames = Vec::new();
    while let OrbitAction::Render(frame) = action {
        frames.push(frame);
        let (next, asked) = animator.advance(FrameOutcome::Committed);
        animator = next;
        action = asked;
    }
    (frames, action)
}

fn yaw(frame: &OrbitFrame) -> f64 {
    2.0 * std::f64::consts::PI * frame.step as f64 / frame.total_steps as f64
}

#[test]
fn default_projection_constants() {
    assert_eq!(DEFAULT_PITCH_AMPLITUDE, 200);
    assert_eq!(DEFAULT_PITCH_BIAS, 250);
    assert_eq!(DEFAULT_SCALE, 900);
    assert_eq!(
        OrbitSettings::with_defaults(360),
        OrbitSettings { total_steps: 360, pitch_amplitude: 200, pitch_bias: 250, scale: 900 }
    );
}

#[test]
fn four_steps_give_four_frames_a_quarter_turn_apart() {
    let (frames, end) = run_to_end(4);
    assert_eq!(end, OrbitAction::Done { frames: 4 });
    assert_eq!(frames.len(), 4);
    let steps: Vec<u32> = frames.iter().map(|f| f.step).collect();
    assert_eq!(steps, vec![0, 1, 2, 3]);
    let pi = std::f64::consts::PI;
    let expected = [0.0, pi / 2.0, pi, 3.0 * pi / 2.0];
    for (frame, want) in frames.iter().zip(expected.iter()) {
        assert_eq!(frame.total_steps, 4);
        assert!((yaw(frame) - want).abs() < 1e-12);
    }
}

#[test]
fn pitch_bobs_around_its_bias_and_scale_stays() {
    let (frames, _) = run_to_end(4);
    let pitches: Vec<f64> = frames
        .iter()
        .map(|f| yaw(f).sin() * f.pitch_amplitude as f64 / 1000.0 + f.pitch_bias as f64 / 1000.0)
        .collect();
    let expected = [0.25, 0.45, 0.25, 0.05];
    for (got, want) in pitches.iter().zip(expected.iter()) {
        assert!((got - want).abs() < 1e-12);
    }
    for frame in &frames {
        assert_eq!(frame.scale, 900);
        assert_eq!(frame.pitch_amplitude, 200);
        assert_eq!(frame.pitch_bias, 250);
    }
}

#[test]
fn full_revolution_gives_one_frame_per_step() {
    let (frames, end) = run_to_end(360);
    assert_eq!(end, OrbitAction::Done { frames: 360 });
    assert_eq!(frames.len(), 360);
    for (i, frame) in frames.iter().enumerate() {
        assert_eq!(frame.step as usize, i);
        assert_eq!(frame.total_steps, 360);
    }
    // Frame 90 of 360 looks along a quarter turn: one degree to the step.
    assert!((yaw(&frames[90]) - std::f64::consts::PI / 2.0).abs() < 1e-12);
}

#[test]
fn animation_without_frames_is_done_at_once() {
    let (animator, action) = OrbitAnimator::start(OrbitSettings::with_defaults(0));
    assert_eq!(action, OrbitAction::Done { frames: 0 });
    assert_eq!(animator.committed(), 0);
    let (animator, action) = animator.advance(FrameOutcome::Committed);
    assert_eq!(action, OrbitAction::Done { frames: 0 });
    assert_eq!(animator.committed(), 0);
    let (_, action) = animator.advance(FrameOutcome::Failed);
    assert_eq!(action, OrbitAction::Done { frames: 0 });
}

#[test]
fn first_request_is_frame_zero() {
    let settings = OrbitSettings { total_steps: 7, pitch_amplitude: -3, pitch_bias: 11, scale: 1000 };
    let (animator, action) = OrbitAnimator::start(settings);
    assert_eq!(
        action,
        OrbitAction::Render(OrbitFrame { step: 0, total_steps: 7, pitch_amplitude: -3, pitch_bias: 11, scale: 1000 })
    );
    assert_eq!(animator.action(), action);
    assert_eq!(animator.committed(), 0);
}

#[test]
fn failed_frame_aborts_and_keeps_what_was_committed() {
    let (animator, _) = OrbitAnimator::start(OrbitSettings::with_defaults(5));
    let (animator, _) = animator.advance(FrameOutcome::Committed);
    let (animator, action) = animator.advance(FrameOutcome::Committed);
    assert!(matches!(action, OrbitAction::Render(OrbitFrame { step: 2, .. })));
    let (animator, action) = animator.advance(FrameOutcome::Failed);
    assert_eq!(action, OrbitAction::Abort(PipelineError::RenderFailure { step: 2 }));
    assert_eq!(animator.committed(), 2);
    // Nothing is retried and nothing is asked for afterwards.
    let (animator, action) = animator.advance(FrameOutcome::Committed);
    assert_eq!(action, OrbitAction::Abort(PipelineError::RenderFailure { step: 2 }));
    let (animator, action) = animator.advance(FrameOutcome::Failed);
    assert_eq!(action, OrbitAction::Abort(PipelineError::RenderFailure { step: 2 }));
    assert_eq!(animator.committed(), 2);
}

#[test]
fn failure_of_the_first_frame_commits_nothing() {
    let (animator, _) = OrbitAnimator::start(OrbitSettings::with_defaults(1));
    let (animator, action) = animator.advance(FrameOutcome::Failed);
    assert_eq!(action, OrbitAction::Abort(PipelineError::RenderFailure { step: 0 }));
    assert_eq!(animator.committed(), 0);
}

#[test]
fn reports_after_the_end_change_nothing() {
    let (animator, _) = OrbitAnimator::start(OrbitSettings::with_defaults(1));
    let (animator, action) = animator.advance(FrameOutcome::Committed);
    assert_eq!(action, OrbitAction::Done { frames: 1 });
    let (animator, action) = animator.advance(FrameOutcome::Failed);
    assert_eq!(action, OrbitAction::Done { frames: 1 });
    assert_eq!(animator.committed(), 1);
}

#[test]
fn longest_animation_counts_to_its_last_step() {
    let settings = OrbitSettings::with_defaults(u32::MAX);
    let (mut animator, mut action) = OrbitAnimator::start(settings);
    for i in 0..1000u32 {
        assert!(matches!(action, OrbitAction::Render(OrbitFrame { step, .. }) if step == i));
        let (next, asked) = animator.advance(FrameOutcome::Committed);
        animator = next;
        action = asked;
    }
    assert_eq!(animator.committed(), 1000);
}
