//! The flight: where the rocket is in each frame, and what is to be done
//! next.
//!
//! The loop itself belongs to the caller, who writes to the terminal and
//! sleeps.  `Animation::advance` takes how the last step went and returns
//! the next one, so that every decision of the loop is made, and proved,
//! here.

use crate::protocol::in_view;
use crate::protocol::crop_offset;
use crate::protocol::Config;
use vstd::prelude::*;

verus! {

/// `n / d` rounded towards zero.
pub open spec fn toward_zero(n: int, d: int) -> int {
    if n >= 0 {
        n / d
    } else {
        -((-n) / d)
    }
}

/// `v` held to the range of `i32`.
pub open spec fn saturate(v: int) -> int {
    if v < i32::MIN {
        i32::MIN as int
    } else if v > i32::MAX {
        i32::MAX as int
    } else {
        v
    }
}

/// The exact row of a frame, times the number of frames: the row runs in a
/// straight line from `height` at frame zero to `-30` at the last.
pub open spec fn row_numerator(frame: int, height: int, total: int) -> int {
    height * total - frame * (height + 30)
}

/// The terminal row of the top of the image in a frame: the exact row rounded
/// towards zero.
///
/// A flight of no frames has no line to follow: it is in row zero at frame
/// zero and as far up as a row can be from then on.
pub open spec fn frame_position(frame: int, height: int, total: int) -> int {
    if total == 0 {
        if frame == 0 {
            0
        } else {
            i32::MIN as int
        }
    } else {
        saturate(toward_zero(row_numerator(frame, height, total), total))
    }
}

/// The number of frames of a flight: rate times duration, rounded to the
/// nearest frame.
pub open spec fn spec_total_frames(frames_per_second: u32, duration_millis: u32) -> int {
    let frames = (frames_per_second * duration_millis + 500) / 1000;
    if frames > u32::MAX {
        u32::MAX as int
    } else {
        frames
    }
}

/// The time between two frames in nanoseconds.
pub open spec fn spec_frame_interval(frames_per_second: u32) -> int {
    1_000_000_000int / (frames_per_second as int)
}

/// The terminal row of the top of the image in frame `frame` of
/// `total_frames`, in a terminal of `terminal_height` rows.
pub fn get_frame_position(frame: u32, terminal_height: u32, total_frames: u32) -> (row: i32)
    ensures
        row == frame_position(frame as int, terminal_height as int, total_frames as int),
{
    if total_frames == 0 {
        return if frame == 0 {
            0
        } else {
            i32::MIN
        };
    }
    let total: u128 = total_frames as u128;
    let height: u128 = terminal_height as u128;
    assert(height * total <= 0xffff_ffff * 0xffff_ffff) by (nonlinear_arith)
        requires
            0 <= height <= 0xffff_ffff,
            0 <= total <= 0xffff_ffff,
    ;
    assert((frame as u128) * (height + 30) <= 0xffff_ffff * (0xffff_ffff + 30)) by (nonlinear_arith)
        requires
            0 <= frame <= 0xffff_ffff,
            0 <= height <= 0xffff_ffff,
    ;
    let gained: u128 = height * total;
    let lost: u128 = (frame as u128) * (height + 30);
    if gained >= lost {
        let q: u128 = (gained - lost) / total;
        if q > 0x7fff_ffff {
            i32::MAX
        } else {
            q as i32
        }
    } else {
        let q: u128 = (lost - gained) / total;
        if q > 0x8000_0000 {
            i32::MIN
        } else {
            (-(q as i64)) as i32
        }
    }
}

/// The number of frames of a flight.
pub fn total_frames(frames_per_second: u32, duration_millis: u32) -> (frames: u32)
    ensures
        frames == spec_total_frames(frames_per_second, duration_millis),
{
    assert(frames_per_second * duration_millis <= 0xffff_ffff * 0xffff_ffff) by (nonlinear_arith)
        requires
            0 <= frames_per_second <= 0xffff_ffff,
            0 <= duration_millis <= 0xffff_ffff,
    ;
    let frames: u64 = ((frames_per_second as u64) * (duration_millis as u64) + 500) / 1000;
    if frames > 0xffff_ffff {
        u32::MAX
    } else {
        frames as u32
    }
}

/// The time between two frames in nanoseconds.
pub fn frame_interval(frames_per_second: u32) -> (nanos: u64)
    requires
        frames_per_second > 0,
    ensures
        nanos == spec_frame_interval(frames_per_second),
{
    1_000_000_000 / (frames_per_second as u64)
}

/// Rounding towards zero keeps the order of two numbers over one divisor.
proof fn lemma_toward_zero_ordered(a: int, b: int, d: int)
    requires
        a <= b,
        0 < d,
    ensures
        toward_zero(a, d) <= toward_zero(b, d),
{
    if a >= 0 {
        vstd::arithmetic::div_mod::lemma_div_is_ordered(a, b, d);
    } else if b < 0 {
        vstd::arithmetic::div_mod::lemma_div_is_ordered(-b, -a, d);
    } else {
        assert(0 <= b / d) by (nonlinear_arith)
            requires
                0 <= b,
                0 < d,
        ;
        assert(0 <= (-a) / d) by (nonlinear_arith)
            requires
                0 <= -a,
                0 < d,
        ;
    }
}

/// The flight starts in the row just below the last row of the terminal.
pub proof fn lemma_flight_starts_below(height: u32, total: u32)
    requires
        total > 0,
    ensures
        frame_position(0, height as int, total as int) == saturate(height as int),
{
    let h = height as int;
    let t = total as int;
    assert((h * t) / t == h) by (nonlinear_arith)
        requires
            0 < t,
    ;
    assert(row_numerator(0, h, t) == h * t) by (nonlinear_arith);
    assert(h * t >= 0) by (nonlinear_arith)
        requires
            0 <= h,
            0 < t,
    ;
}

/// The flight ends thirty rows above the top of the terminal.
pub proof fn lemma_flight_ends_above(height: u32, total: u32)
    requires
        total > 0,
    ensures
        frame_position(total as int, height as int, total as int) == -30,
{
    let h = height as int;
    let t = total as int;
    assert(row_numerator(t, h, t) == -(30 * t)) by (nonlinear_arith);
    assert((30 * t) / t == 30) by (nonlinear_arith)
        requires
            0 < t,
    ;
}

/// From one frame to any later one the rocket never moves down.
pub proof fn lemma_flight_rises(earlier: u32, later: u32, height: u32, total: u32)
    requires
        total > 0,
        earlier <= later,
    ensures
        frame_position(earlier as int, height as int, total as int) >= frame_position(
            later as int,
            height as int,
            total as int,
        ),
{
    let h = height as int;
    let t = total as int;
    assert(later * (h + 30) >= earlier * (h + 30)) by (nonlinear_arith)
        requires
            earlier <= later,
            0 <= h,
    ;
    lemma_toward_zero_ordered(
        row_numerator(later as int, h, t),
        row_numerator(earlier as int, h, t),
        t,
    );
}

/// The row of a frame is less than one row away from the straight line, on
/// the side of row zero, wherever the line stays within the rows that can be
/// named.
pub proof fn lemma_flight_is_straight(frame: u32, height: u32, total: u32)
    requires
        total > 0,
        i32::MIN * total <= row_numerator(frame as int, height as int, total as int) <= i32::MAX
            * total,
    ensures
        ({
            let row = frame_position(frame as int, height as int, total as int);
            let exact = row_numerator(frame as int, height as int, total as int);
            &&& exact >= 0 ==> row * total <= exact < (row + 1) * total
            &&& exact <= 0 ==> (row - 1) * total < exact <= row * total
        }),
{
    let t = total as int;
    let exact = row_numerator(frame as int, height as int, t);
    if exact >= 0 {
        let q = exact / t;
        assert(q * t <= exact < (q + 1) * t && q <= i32::MAX) by (nonlinear_arith)
            requires
                q == exact / t,
                0 < t,
                0 <= exact <= i32::MAX * t,
        ;
        assert(q >= 0) by (nonlinear_arith)
            requires
                q == exact / t,
                0 < t,
                0 <= exact,
        ;
    }
    if exact <= 0 {
        let q = (-exact) / t;
        assert(q * t <= -exact < (q + 1) * t && q <= -i32::MIN && q >= 0) by (nonlinear_arith)
            requires
                q == (-exact) / t,
                0 < t,
                0 <= -exact <= (-i32::MIN) * t,
        ;
        assert((-q - 1) * t == -((q + 1) * t) && (-q) * t == -(q * t)) by (nonlinear_arith);
    }
}

/// How far a run has come.
#[derive(Clone, Copy, Debug, PartialEq, Eq, Structural)]
pub enum Stage {
    /// Nothing has been done.
    Idle,
    /// The cursor is being hidden.
    Hiding,
    /// The image is being sent.
    Uploading,
    /// The placements before the given frame are being removed.
    Clearing { frame: u32 },
    /// The image is being placed for the given frame.
    Placing { frame: u32 },
    /// The given frame is on the screen for its time.
    Sleeping { frame: u32 },
    /// The image is being removed from the terminal.
    Deleting,
    /// The cursor is being shown again.
    Restoring,
    /// Nothing is left to do.
    Finished,
}

/// What the caller is to do next.
#[derive(Clone, Copy, Debug, PartialEq, Eq, Structural)]
pub enum Step {
    /// Write the sequence that hides the cursor.
    HideCursor,
    /// Write the commands that send the image.
    Upload,
    /// Write the command that removes the placements.
    ClearPlacements,
    /// Write the placement of the given frame, with the top of the image in
    /// the given row.
    Place { frame: u32, row: i32 },
    /// Wait for the given number of nanoseconds.
    Sleep { nanos: u64 },
    /// Write the command that removes the image.
    DeleteImage,
    /// Write the sequence that shows the cursor.
    ShowCursor,
    /// Leave the loop.
    Stop,
}

/// How a step went.
#[derive(Clone, Copy, Debug, PartialEq, Eq, Structural)]
pub enum Outcome {
    /// It was carried out.
    Done,
    /// The terminal could not be written to.
    Failed,
}

/// The four phases that a run goes through, in this order.
#[derive(Clone, Copy, Debug, PartialEq, Eq, Structural)]
pub enum Phase {
    /// Before the image is sent.
    Idle,
    /// The image is on its way to the terminal.
    Uploaded,
    /// Frames are being shown.
    Placing,
    /// The frames are over and the terminal is being tidied.
    Cleared,
}

/// The state of one run of the animation.
#[derive(Clone, Copy, Debug, PartialEq, Eq, Structural)]
pub struct Animation {
    /// The settings of the run.
    pub config: Config,
    /// The number of rows of the terminal.
    pub terminal_height: u32,
    /// How far the run has come.
    pub stage: Stage,
}

/// The number of frames that a run with these settings shows at most.
pub open spec fn frames_of(config: Config) -> int {
    spec_total_frames(config.frames_per_second, config.duration_millis)
}

/// The phase that a stage belongs to.
pub open spec fn phase_of(stage: Stage) -> Phase {
    match stage {
        Stage::Idle | Stage::Hiding => Phase::Idle,
        Stage::Uploading => Phase::Uploaded,
        Stage::Clearing { .. } | Stage::Placing { .. } | Stage::Sleeping { .. } => Phase::Placing,
        Stage::Deleting | Stage::Restoring | Stage::Finished => Phase::Cleared,
    }
}

/// The place of a phase in the order of the four.
pub open spec fn phase_rank(phase: Phase) -> int {
    match phase {
        Phase::Idle => 0,
        Phase::Uploaded => 1,
        Phase::Placing => 2,
        Phase::Cleared => 3,
    }
}

/// A number that grows with every step of a run.
pub open spec fn stage_rank(stage: Stage) -> int {
    match stage {
        Stage::Idle => 0,
        Stage::Hiding => 1,
        Stage::Uploading => 2,
        Stage::Clearing { frame } => 3 + 3 * frame,
        Stage::Placing { frame } => 4 + 3 * frame,
        Stage::Sleeping { frame } => 5 + 3 * frame,
        Stage::Deleting => 0x3_0000_0003int,
        Stage::Restoring => 0x3_0000_0004int,
        Stage::Finished => 0x3_0000_0005int,
    }
}

/// A stage within a frame names a frame of the run.
pub open spec fn stage_fits(config: Config, stage: Stage) -> bool {
    match stage {
        Stage::Clearing { frame } => frame < frames_of(config),
        Stage::Placing { frame } => frame < frames_of(config),
        Stage::Sleeping { frame } => frame < frames_of(config),
        _ => true,
    }
}

/// The start of frame `frame`: the old placements go, unless the frames are
/// used up, in which case the image goes.
pub open spec fn begin_frame(config: Config, frame: int) -> (Stage, Step) {
    if frame < frames_of(config) {
        (Stage::Clearing { frame: frame as u32 }, Step::ClearPlacements)
    } else {
        (Stage::Deleting, Step::DeleteImage)
    }
}

/// The stage that follows `stage` once its step went as `outcome` says, and
/// the step to take then.
///
/// A failure to send or to place the image ends the frames at once.  A
/// failure to hide the cursor, to remove placements, to remove the image or
/// to show the cursor changes nothing: those are tried once and not looked
/// at.  However the frames end, the image is removed and the cursor shown.
pub open spec fn transition(config: Config, height: u32, stage: Stage, outcome: Outcome) -> (
    Stage,
    Step,
) {
    match stage {
        Stage::Idle => (Stage::Hiding, Step::HideCursor),
        Stage::Hiding => (Stage::Uploading, Step::Upload),
        Stage::Uploading => if outcome == Outcome::Done {
            begin_frame(config, 0)
        } else {
            (Stage::Deleting, Step::DeleteImage)
        },
        Stage::Clearing { frame } => {
            let row = frame_position(frame as int, height as int, frames_of(config));
            if in_view(config, row) {
                (Stage::Placing { frame }, Step::Place { frame, row: row as i32 })
            } else {
                (Stage::Deleting, Step::DeleteImage)
            }
        },
        Stage::Placing { frame } => if outcome == Outcome::Done {
            (
                Stage::Sleeping { frame },
                Step::Sleep { nanos: spec_frame_interval(config.frames_per_second) as u64 },
            )
        } else {
            (Stage::Deleting, Step::DeleteImage)
        },
        Stage::Sleeping { frame } => begin_frame(config, frame + 1),
        Stage::Deleting => (Stage::Restoring, Step::ShowCursor),
        Stage::Restoring => (Stage::Finished, Step::Stop),
        Stage::Finished => (Stage::Finished, Step::Stop),
    }
}

impl Animation {
    /// The settings make an animation, and the stage names a frame of it.
    pub open spec fn wf(&self) -> bool {
        self.config.valid() && stage_fits(self.config, self.stage)
    }

    /// A run that has not begun.
    pub fn new(config: Config, terminal_height: u32) -> (run: Animation)
        requires
            config.valid(),
        ensures
            run.wf(),
            run.config == config,
            run.terminal_height == terminal_height,
            run.stage == Stage::Idle,
    {
        Animation { config, terminal_height, stage: Stage::Idle }
    }

    fn begin(&mut self, frame: u32) -> (step: Step)
        requires
            old(self).config.valid(),
        ensures
            final(self).wf(),
            final(self).config == old(self).config,
            final(self).terminal_height == old(self).terminal_height,
            (final(self).stage, step) == begin_frame(old(self).config, frame as int),
    {
        if frame < total_frames(self.config.frames_per_second, self.config.duration_millis) {
            self.stage = Stage::Clearing { frame };
            Step::ClearPlacements
        } else {
            self.stage = Stage::Deleting;
            Step::DeleteImage
        }
    }

    /// Takes how the last step went and returns the next one.  The first call
    /// of a run follows no step, and what it is told is not looked at.
    pub fn advance(&mut self, outcome: Outcome) -> (step: Step)
        requires
            old(self).wf(),
        ensures
            final(self).wf(),
            final(self).config == old(self).config,
            final(self).terminal_height == old(self).terminal_height,
            (final(self).stage, step) == transition(
                old(self).config,
                old(self).terminal_height,
                old(self).stage,
                outcome,
            ),
    {
        let failed = match outcome {
            Outcome::Done => false,
            Outcome::Failed => true,
        };
        match self.stage {
            Stage::Idle => {
                self.stage = Stage::Hiding;
                Step::HideCursor
            },
            Stage::Hiding => {
                self.stage = Stage::Uploading;
                Step::Upload
            },
            Stage::Uploading => {
                if failed {
                    self.stage = Stage::Deleting;
                    Step::DeleteImage
                } else {
                    self.begin(0)
                }
            },
            Stage::Clearing { frame } => {
                let total = total_frames(self.config.frames_per_second, self.config.duration_millis);
                let row = get_frame_position(frame, self.terminal_height, total);
                if crop_offset(row, self.config.pixels_per_row) < self.config.image_height as u64 {
                    self.stage = Stage::Placing { frame };
                    Step::Place { frame, row }
                } else {
                    self.stage = Stage::Deleting;
                    Step::DeleteImage
                }
            },
            Stage::Placing { frame } => {
                if failed {
                    self.stage = Stage::Deleting;
                    Step::DeleteImage
                } else {
                    self.stage = Stage::Sleeping { frame };
                    Step::Sleep { nanos: frame_interval(self.config.frames_per_second) }
                }
            },
            Stage::Sleeping { frame } => self.begin(frame + 1),
            Stage::Deleting => {
                self.stage = Stage::Restoring;
                Step::ShowCursor
            },
            Stage::Restoring => {
                self.stage = Stage::Finished;
                Step::Stop
            },
            Stage::Finished => Step::Stop,
        }
    }
}

/// What holds of every step of every run.
///
/// A run never comes back to a stage, so it ends, and its phases come in
/// their order.  The image is sent in one step only, the one after the cursor
/// is hidden.  An image is placed only straight after the placements were
/// removed for the same frame, only in the row of that frame, and only while
/// part of it is on the screen.  The image is removed on the way into the one
/// stage that every run passes before it ends, and the cursor is shown on the
/// way out of it.
pub proof fn lemma_run_order(config: Config, height: u32, stage: Stage, outcome: Outcome)
    requires
        config.valid(),
        stage_fits(config, stage),
    ensures
        ({
            let (next, step) = transition(config, height, stage, outcome);
            &&& stage_fits(config, next)
            &&& stage != Stage::Finished ==> stage_rank(stage) < stage_rank(next)
            &&& phase_rank(phase_of(stage)) <= phase_rank(phase_of(next))
            &&& step == Step::Upload <==> stage == Stage::Hiding
            &&& step == Step::ClearPlacements <==> next is Clearing
            &&& step is Place <==> next is Placing
            &&& step matches Step::Place { frame, row } ==> {
                &&& stage == Stage::Clearing { frame }
                &&& row == frame_position(frame as int, height as int, frames_of(config))
                &&& in_view(config, row as int)
            }
            &&& step == Step::DeleteImage <==> next == Stage::Deleting
            &&& step == Step::ShowCursor <==> stage == Stage::Deleting
            &&& step == Step::Stop <==> next == Stage::Finished
            &&& stage_rank(next) <= stage_rank(Stage::Finished)
        }),
{
}

/// The steps of a run that is in `stage` and is then told `outcomes`, one
/// after each step.
pub open spec fn run_steps(config: Config, height: u32, stage: Stage, outcomes: Seq<Outcome>) -> Seq<
    Step,
>
    decreases outcomes.len(),
{
    if outcomes.len() == 0 {
        Seq::empty()
    } else {
        let (next, step) = transition(config, height, stage, outcomes[0]);
        seq![step] + run_steps(config, height, next, outcomes.drop_first())
    }
}

/// How often `step` stands in `steps`.
pub open spec fn times(steps: Seq<Step>, step: Step) -> nat
    decreases steps.len(),
{
    if steps.len() == 0 {
        0
    } else {
        let here: nat = if steps[0] == step {
            1
        } else {
            0
        };
        here + times(steps.drop_first(), step)
    }
}

/// The stage that a run enters with the step that sends the image, removes
/// it, or shows the cursor.
spec fn entered_by(step: Step) -> Stage {
    match step {
        Step::Upload => Stage::Uploading,
        Step::DeleteImage => Stage::Deleting,
        _ => Stage::Restoring,
    }
}

spec fn is_once_only(step: Step) -> bool {
    step == Step::Upload || step == Step::DeleteImage || step == Step::ShowCursor
}

proof fn lemma_run_unfolds(config: Config, height: u32, stage: Stage, outcomes: Seq<Outcome>)
    requires
        outcomes.len() > 0,
    ensures
        ({
            let (next, step) = transition(config, height, stage, outcomes[0]);
            let steps = run_steps(config, height, stage, outcomes);
            let rest = run_steps(config, height, next, outcomes.drop_first());
            &&& steps.len() == rest.len() + 1
            &&& steps[0] == step
            &&& steps.drop_first() == rest
            &&& forall|target: Step|
                #![trigger times(steps, target)]
                times(steps, target) == times(rest, target) + if step == target {
                    1nat
                } else {
                    0nat
                }
        }),
{
    let (next, step) = transition(config, height, stage, outcomes[0]);
    let rest = run_steps(config, height, next, outcomes.drop_first());
    assert((seq![step] + rest).drop_first() =~= rest);
}

proof fn lemma_at_most_once(
    config: Config,
    height: u32,
    stage: Stage,
    outcomes: Seq<Outcome>,
    step: Step,
)
    requires
        config.valid(),
        stage_fits(config, stage),
        is_once_only(step),
    ensures
        times(run_steps(config, height, stage, outcomes), step) <= if stage_rank(stage)
            < stage_rank(entered_by(step)) {
            1nat
        } else {
            0nat
        },
    decreases outcomes.len(),
{
    if outcomes.len() > 0 {
        let (next, first) = transition(config, height, stage, outcomes[0]);
        lemma_run_unfolds(config, height, stage, outcomes);
        lemma_run_order(config, height, stage, outcomes[0]);
        lemma_at_most_once(config, height, next, outcomes.drop_first(), step);
    }
}

proof fn lemma_at_least_once(
    config: Config,
    height: u32,
    stage: Stage,
    outcomes: Seq<Outcome>,
    step: Step,
)
    requires
        config.valid(),
        stage_fits(config, stage),
        step == Step::DeleteImage || step == Step::ShowCursor,
        stage_rank(stage) < stage_rank(entered_by(step)),
        times(run_steps(config, height, stage, outcomes), Step::Stop) > 0,
    ensures
        times(run_steps(config, height, stage, outcomes), step) >= 1,
    decreases outcomes.len(),
{
    if outcomes.len() > 0 {
        let (next, first) = transition(config, height, stage, outcomes[0]);
        lemma_run_unfolds(config, height, stage, outcomes);
        lemma_run_order(config, height, stage, outcomes[0]);
        if first != step {
            lemma_at_least_once(config, height, next, outcomes.drop_first(), step);
        }
    }
}

/// Whatever a run is told, it sends the image at most once, and removes it
/// and shows the cursor at most once.  A run that has come to its end has
/// done both.
pub proof fn lemma_run_cleans_up(config: Config, height: u32, outcomes: Seq<Outcome>)
    requires
        config.valid(),
    ensures
        ({
            let steps = run_steps(config, height, Stage::Idle, outcomes);
            &&& steps.len() == outcomes.len()
            &&& times(steps, Step::Upload) <= 1
            &&& times(steps, Step::DeleteImage) <= 1
            &&& times(steps, Step::ShowCursor) <= 1
            &&& times(steps, Step::Stop) > 0 ==> times(steps, Step::DeleteImage) == 1 && times(
                steps,
                Step::ShowCursor,
            ) == 1
        }),
{
    lemma_run_length(config, height, Stage::Idle, outcomes);
    lemma_at_most_once(config, height, Stage::Idle, outcomes, Step::Upload);
    lemma_at_most_once(config, height, Stage::Idle, outcomes, Step::DeleteImage);
    lemma_at_most_once(config, height, Stage::Idle, outcomes, Step::ShowCursor);
    if times(run_steps(config, height, Stage::Idle, outcomes), Step::Stop) > 0 {
        lemma_at_least_once(config, height, Stage::Idle, outcomes, Step::DeleteImage);
        lemma_at_least_once(config, height, Stage::Idle, outcomes, Step::ShowCursor);
    }
}

proof fn lemma_run_length(config: Config, height: u32, stage: Stage, outcomes: Seq<Outcome>)
    ensures
        run_steps(config, height, stage, outcomes).len() == outcomes.len(),
    decreases outcomes.len(),
{
    if outcomes.len() > 0 {
        let (next, first) = transition(config, height, stage, outcomes[0]);
        lemma_run_unfolds(config, height, stage, outcomes);
        lemma_run_length(config, height, next, outcomes.drop_first());
    }
}

/// What comes straight before a step of a run: the image is sent straight
/// after the cursor is hidden, placed straight after the placements were
/// removed, and the cursor is shown straight after the image was removed.  A
/// run stops straight after the cursor is shown, and then stays stopped.
pub proof fn lemma_run_neighbours(
    config: Config,
    height: u32,
    stage: Stage,
    outcomes: Seq<Outcome>,
    at: int,
)
    requires
        config.valid(),
        stage_fits(config, stage),
        1 <= at < outcomes.len(),
    ensures
        ({
            let steps = run_steps(config, height, stage, outcomes);
            &&& steps.len() == outcomes.len()
            &&& steps[at] == Step::Upload ==> steps[at - 1] == Step::HideCursor
            &&& steps[at] is Place ==> steps[at - 1] == Step::ClearPlacements
            &&& steps[at] == Step::ShowCursor ==> steps[at - 1] == Step::DeleteImage
            &&& steps[at] == Step::Stop ==> steps[at - 1] == Step::ShowCursor || steps[at - 1]
                == Step::Stop
        }),
    decreases at,
{
    let (next, first) = transition(config, height, stage, outcomes[0]);
    let rest = outcomes.drop_first();
    lemma_run_length(config, height, stage, outcomes);
    lemma_run_unfolds(config, height, stage, outcomes);
    lemma_run_order(config, height, stage, outcomes[0]);
    let steps = run_steps(config, height, stage, outcomes);
    let tail = run_steps(config, height, next, rest);
    assert(steps[at] == tail[at - 1]);
    if at == 1 {
        lemma_run_unfolds(config, height, next, rest);
        lemma_run_order(config, height, next, rest[0]);
    } else {
        lemma_run_neighbours(config, height, next, rest, at - 1);
        assert(steps[at - 1] == tail[at - 2]);
    }
}

} // verus!
