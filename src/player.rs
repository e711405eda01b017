use vstd::prelude::*;
use crate::error::AppError;
use crate::render::{compose_screen, screen_text, status_line, status_text};
use crate::rle::RleFrame;
use crate::schedule::{
    frame_timing, timing_of, FpsWindow, FrameRate, PlaybackClock, Timing, NANOS_PER_SEC,
};
use crate::terminal::{changed_rows, lines_of, lines_view, writes_view, DrawPlan, TerminalManager};

verus! {

/// The decisions of playback: the frames, their timing, the clock, the
/// rolling FPS window and the screen state. The caller runs the loop: it
/// waits, performs the draw plans and reports completion times.
pub struct Player {
    pub rle_frames: Vec<RleFrame>,
    pub timing: Timing,
    pub clock: PlaybackClock,
    pub fps: FpsWindow,
    pub terminal_manager: TerminalManager,
}

/// Whole seconds in `ns` nanoseconds, saturating at `u64::MAX`.
pub open spec fn whole_secs(ns: u128) -> nat {
    let s = ns / (NANOS_PER_SEC as u128);
    if s > u64::MAX {
        u64::MAX as nat
    } else {
        s as nat
    }
}

fn secs_of(ns: u128) -> (s: u64)
    ensures
        s as nat == whole_secs(ns),
{
    let s = ns / (NANOS_PER_SEC as u128);
    if s > u64::MAX as u128 {
        u64::MAX
    } else {
        s as u64
    }
}

/// The screen for the current frame of `p`: its text and a status line with
/// the elapsed and total time, the frame number, the FPS and `metrics`.
pub open spec fn frame_screen(p: Player, elapsed_ns: u128, cols: u16, metrics: Seq<char>) -> Seq<char> {
    let i = p.clock.index as int;
    screen_text(
        p.rle_frames@[i],
        status_text(
            whole_secs(elapsed_ns),
            whole_secs(p.timing.total_ns),
            (i + 1) as nat,
            p.rle_frames@.len(),
            p.fps.times@.len(),
            metrics,
        ),
        cols as nat,
    )
}

impl Player {
    pub open spec fn wf(&self) -> bool {
        &&& self.clock.wf()
        &&& self.clock.frame_count == self.rle_frames@.len()
        &&& self.clock.interval_ns == self.timing.interval_ns
        &&& self.fps.wf()
    }

    /// A player for `rle_frames`, timed from the source frame rate and the
    /// audio length where known; fails when there are no frames.
    pub fn new(
        rle_frames: Vec<RleFrame>,
        frame_rate: Option<FrameRate>,
        audio_ns: Option<u64>,
        terminal_manager: TerminalManager,
    ) -> (r: Result<Player, AppError>)
        ensures
            rle_frames@.len() == 0 <==> r == Err::<Player, AppError>(AppError::FrameProcessing),
            rle_frames@.len() > 0 ==> r is Ok,
            r matches Ok(p) ==> {
                &&& p.wf()
                &&& p.rle_frames@ == rle_frames@
                &&& p.clock.index == 0
                &&& p.fps.times@.len() == 0
                &&& (p.timing.interval_ns as int, p.timing.total_ns as int) == timing_of(
                    frame_rate,
                    audio_ns,
                    rle_frames@.len(),
                )
                &&& p.terminal_manager.previous_lines@.len() == 0
            },
    {
        if rle_frames.len() == 0 {
            return Err(AppError::FrameProcessing);
        }
        let timing = frame_timing(frame_rate, audio_ns, rle_frames.len());
        let clock = PlaybackClock::new(timing.interval_ns, rle_frames.len());
        let mut terminal_manager = terminal_manager;
        terminal_manager.reset();
        Ok(Player { rle_frames, timing, clock, fps: FpsWindow::new(), terminal_manager })
    }

    /// Plans the screen for the current frame, `elapsed_ns` after the start,
    /// in a terminal `cols` wide, with `metrics` in the status line.
    pub fn render(&mut self, elapsed_ns: u128, cols: u16, metrics: &str) -> (plan: DrawPlan)
        requires
            old(self).wf(),
            old(self).clock.index < old(self).rle_frames@.len(),
        ensures
            final(self).wf(),
            final(self).rle_frames@ == old(self).rle_frames@,
            final(self).clock == old(self).clock,
            final(self).timing == old(self).timing,
            final(self).fps == old(self).fps,
            ({
                let screen = frame_screen(*old(self), elapsed_ns, cols, metrics@);
                let old_lines = lines_view(old(self).terminal_manager.previous_lines@);
                &&& lines_view(final(self).terminal_manager.previous_lines@) == lines_of(screen)
                &&& writes_view(plan.writes@) == changed_rows(old_lines, lines_of(screen), lines_of(screen).len())
                &&& plan.clear_from == lines_of(screen).len()
                &&& plan.clear_to == if lines_of(screen).len() < old_lines.len() {
                    old_lines.len()
                } else {
                    lines_of(screen).len()
                }
            }),
    {
        let i = self.clock.index;
        let elapsed_s = secs_of(elapsed_ns);
        let total_s = secs_of(self.timing.total_ns);
        let status = status_line(
            elapsed_s,
            total_s,
            (i as u64) + 1,
            self.rle_frames.len() as u64,
            self.fps.fps() as u64,
            metrics,
        );
        let screen = compose_screen(&self.rle_frames[i], status.as_str(), cols);
        self.terminal_manager.draw(screen.as_str())
    }

    /// Records that the current frame completed at `completion_ns` and moves
    /// the clock on, dropping the frames whose time has passed.
    pub fn frame_done(&mut self, completion_ns: u128)
        requires
            old(self).wf(),
        ensures
            final(self).wf(),
            final(self).rle_frames@ == old(self).rle_frames@,
            final(self).timing == old(self).timing,
            final(self).clock.index as nat == crate::schedule::next_index(
                old(self).clock.index as nat,
                old(self).clock.frame_count as nat,
                old(self).clock.interval_ns as nat,
                completion_ns as int,
            ),
            ({
                let prev = old(self).fps.times@;
                let t = if prev.len() > 0 && prev.last() > completion_ns {
                    prev.last()
                } else {
                    completion_ns
                };
                let all = prev.push(t);
                let k = all.len() - final(self).fps.times@.len();
                &&& 0 <= k < all.len()
                &&& final(self).fps.times@ == all.subrange(k, all.len() as int)
                &&& forall|j: int| 0 <= j < k ==> t - all[j] >= NANOS_PER_SEC
                &&& forall|j: int| k <= j < all.len() ==> t - all[j] < NANOS_PER_SEC
            }),
    {
        let n = self.fps.times.len();
        let t = if n > 0 && self.fps.times[n - 1] > completion_ns {
            self.fps.times[n - 1]
        } else {
            completion_ns
        };
        assert forall|j: int| 0 <= j < self.fps.times@.len() implies self.fps.times@[j] <= t by {
            assert(self.fps.times@[j] <= self.fps.times@[n - 1]);
        }
        self.fps.record(t);
        self.clock.advance(completion_ns);
    }
}

} // verus!
