use vstd::prelude::*;
use std::collections::VecDeque;

verus! {

/// One second in nanoseconds.
pub const NANOS_PER_SEC: u64 = 1_000_000_000;

/// Frame interval when neither the frame rate nor the audio length is known:
/// ten frames a second.
pub const DEFAULT_FRAME_INTERVAL_NS: u64 = 100_000_000;

/// Below this remaining wait the scheduler busy-spins.
pub const SPIN_BELOW_NS: u128 = 1_000_000;

/// Below this remaining wait (and from `SPIN_BELOW_NS` up) it yields; from
/// here up it sleeps until `SPIN_BELOW_NS` before the target.
pub const YIELD_BELOW_NS: u128 = 2_000_000;

/// A source frame rate as the fraction `num / den` frames per second.
#[derive(Clone, Copy, Debug, PartialEq, Eq, Structural)]
pub struct FrameRate {
    pub num: u32,
    pub den: u32,
}

/// The per-frame interval and the total displayed duration, in nanoseconds.
#[derive(Clone, Copy, Debug, PartialEq, Eq, Structural)]
pub struct Timing {
    pub interval_ns: u64,
    pub total_ns: u128,
}

/// The rate policy: a usable source frame rate decides the interval (the
/// total is the audio length if known, else interval times frames); else a
/// known nonzero audio length is spread over the frames; else the default
/// rate applies.
pub open spec fn timing_of(rate: Option<FrameRate>, audio_ns: Option<u64>, frame_count: nat) -> (
    int,
    int,
) {
    match rate {
        Some(r) if r.num > 0 && r.den > 0 => {
            let interval = (r.den as int) * (NANOS_PER_SEC as int) / (r.num as int);
            (interval, match audio_ns {
                Some(a) => a as int,
                None => interval * frame_count,
            })
        },
        _ => match audio_ns {
            Some(a) if a > 0 => ((a as int) / (frame_count as int), a as int),
            _ => (DEFAULT_FRAME_INTERVAL_NS as int, DEFAULT_FRAME_INTERVAL_NS * frame_count),
        },
    }
}

/// Derives the frame interval and the total displayed duration of a
/// sequence of `frame_count` frames.
pub fn frame_timing(rate: Option<FrameRate>, audio_ns: Option<u64>, frame_count: usize) -> (t:
    Timing)
    requires
        frame_count >= 1,
    ensures
        (t.interval_ns as int, t.total_ns as int) == timing_of(rate, audio_ns, frame_count as nat),
{
    match rate {
        Some(r) if r.num > 0 && r.den > 0 => {
            assert((r.den as int) * (NANOS_PER_SEC as int) <= 4294967295 * 1000000000) by (nonlinear_arith)
                requires r.den <= 4294967295;
            let interval: u64 = (r.den as u64) * NANOS_PER_SEC / (r.num as u64);
            assert(interval <= u64::MAX);
            let total: u128 = match audio_ns {
                Some(a) => a as u128,
                None => {
                    assert((interval as int) * (frame_count as int) <= u64::MAX * u64::MAX) by (nonlinear_arith)
                        requires interval <= u64::MAX, frame_count <= u64::MAX;
                    (interval as u128) * (frame_count as u128)
                },
            };
            Timing { interval_ns: interval, total_ns: total }
        },
        _ => match audio_ns {
            Some(a) if a > 0 => Timing { interval_ns: a / (frame_count as u64), total_ns: a as u128 },
            _ => {
                assert((DEFAULT_FRAME_INTERVAL_NS as int) * (frame_count as int) <= u64::MAX * u64::MAX) by (nonlinear_arith)
                    requires frame_count <= u64::MAX;
                Timing {
                    interval_ns: DEFAULT_FRAME_INTERVAL_NS,
                    total_ns: (DEFAULT_FRAME_INTERVAL_NS as u128) * (frame_count as u128),
                }
            },
        },
    }
}

/// The index that follows frame `i` when it completed at `completion`
/// (nanoseconds since the start): one on, or, when it completed after the
/// next frame's target, one on plus the whole intervals it lagged by; never
/// past `frame_count`.
pub open spec fn next_index(i: nat, frame_count: nat, interval: nat, completion: int) -> nat {
    let next_target = (i + 1) * interval;
    let advanced = if completion > next_target && interval > 0 {
        i + (completion - next_target) / (interval as int) + 1
    } else {
        i + 1int
    };
    if advanced > frame_count {
        frame_count
    } else {
        advanced as nat
    }
}

/// The playback clock: the per-frame interval and the index of the frame
/// due next. Frame `i` is due `i * interval_ns` after the start, recomputed
/// from the start each time so that no error accumulates.
pub struct PlaybackClock {
    pub interval_ns: u64,
    pub frame_count: usize,
    pub index: usize,
}

impl PlaybackClock {
    pub open spec fn wf(&self) -> bool {
        self.index <= self.frame_count
    }

    pub fn new(interval_ns: u64, frame_count: usize) -> (c: PlaybackClock)
        ensures
            c.wf(),
            c.interval_ns == interval_ns,
            c.frame_count == frame_count,
            c.index == 0,
    {
        PlaybackClock { interval_ns, frame_count, index: 0 }
    }

    /// Whether playback goes on to frame `index`: not at the end, and
    /// neither the user nor a signal asked to stop.
    pub fn should_continue(&self, exit_requested: bool, cancelled: bool) -> (r: bool)
        ensures
            r == (!exit_requested && !cancelled && self.index < self.frame_count),
    {
        !exit_requested && !cancelled && self.index < self.frame_count
    }

    /// Nanoseconds from the start at which the current frame is due.
    pub fn target_ns(&self) -> (t: u128)
        ensures
            t == self.index * self.interval_ns,
    {
        assert((self.index as int) * (self.interval_ns as int) <= u64::MAX * u64::MAX) by (nonlinear_arith)
            requires self.index <= u64::MAX, self.interval_ns <= u64::MAX;
        (self.index as u128) * (self.interval_ns as u128)
    }

    /// Moves on after the current frame completed at `completion_ns`
    /// nanoseconds from the start, dropping the frames whose time has passed.
    pub fn advance(&mut self, completion_ns: u128)
        requires
            old(self).wf(),
        ensures
            final(self).wf(),
            final(self).interval_ns == old(self).interval_ns,
            final(self).frame_count == old(self).frame_count,
            final(self).index as nat == next_index(
                old(self).index as nat,
                old(self).frame_count as nat,
                old(self).interval_ns as nat,
                completion_ns as int,
            ),
    {
        let i = self.index;
        let interval = self.interval_ns;
        assert(((i as int) + 1) * (interval as int) <= (u64::MAX + 1) * u64::MAX) by (nonlinear_arith)
            requires i <= u64::MAX, interval <= u64::MAX;
        let next_target: u128 = ((i as u128) + 1) * (interval as u128);
        let remaining: usize = self.frame_count - i;
        if completion_ns > next_target && interval > 0 {
            let skip: u128 = (completion_ns - next_target) / (interval as u128);
            if skip >= remaining as u128 {
                self.index = self.frame_count;
            } else {
                self.index = i + (skip as usize) + 1;
            }
        } else {
            self.index = if remaining >= 1 { i + 1 } else { self.frame_count };
        }
    }
}

/// What to do while waiting for a frame's target time.
#[derive(Clone, Copy, Debug, PartialEq, Eq, Structural)]
pub enum WaitAction {
    /// The target has been reached.
    Ready,
    /// Less than `SPIN_BELOW_NS` remains: spin.
    Spin,
    /// A moderate wait remains: yield the processor.
    Yield,
    /// A long wait remains: sleep this many nanoseconds, waking
    /// `SPIN_BELOW_NS` before the target.
    Sleep(u128),
}

/// The tiered wait: sleep while much time remains, yield when a moderate
/// amount does, spin for sub-millisecond remainders.
pub fn wait_action(now_ns: u128, target_ns: u128) -> (a: WaitAction)
    ensures
        now_ns >= target_ns ==> a == WaitAction::Ready,
        now_ns < target_ns && target_ns - now_ns < SPIN_BELOW_NS ==> a == WaitAction::Spin,
        now_ns < target_ns && SPIN_BELOW_NS <= target_ns - now_ns < YIELD_BELOW_NS ==> a
            == WaitAction::Yield,
        now_ns < target_ns && target_ns - now_ns >= YIELD_BELOW_NS ==> a == WaitAction::Sleep(
            (target_ns - now_ns - SPIN_BELOW_NS) as u128,
        ),
{
    if now_ns >= target_ns {
        WaitAction::Ready
    } else {
        let remaining = target_ns - now_ns;
        if remaining < SPIN_BELOW_NS {
            WaitAction::Spin
        } else if remaining < YIELD_BELOW_NS {
            WaitAction::Yield
        } else {
            WaitAction::Sleep(remaining - SPIN_BELOW_NS)
        }
    }
}

/// The index after lag-free or lagging steps from the first frame, one step
/// for each completion time in `completions`.
pub open spec fn index_after(frame_count: nat, interval: nat, completions: Seq<int>) -> nat
    decreases completions.len(),
{
    if completions.len() == 0 {
        0
    } else {
        next_index(
            index_after(frame_count, interval, completions.drop_last()),
            frame_count,
            interval,
            completions.last(),
        )
    }
}

/// With no lag (every frame completes by the next frame's target) the index
/// takes the values 0, 1, 2, ... in order, one per step, each exactly once.
pub proof fn lemma_visits_in_order(frame_count: nat, interval: nat, completions: Seq<int>)
    requires
        completions.len() <= frame_count,
        forall|j: int|
            0 <= j < completions.len() ==> #[trigger] completions[j] <= (j + 1) * interval,
    ensures
        forall|j: int|
            0 <= j <= completions.len() ==> #[trigger] index_after(
                frame_count,
                interval,
                completions.take(j),
            ) == j,
    decreases completions.len(),
{
    if completions.len() > 0 {
        let prev = completions.drop_last();
        assert forall|j: int| 0 <= j < prev.len() implies #[trigger] prev[j] <= (j + 1)
            * interval by {
            assert(prev[j] == completions[j]);
        }
        lemma_visits_in_order(frame_count, interval, prev);
        assert forall|j: int| 0 <= j <= completions.len() implies #[trigger] index_after(
            frame_count,
            interval,
            completions.take(j),
        ) == j by {
            if j < completions.len() {
                assert(completions.take(j) =~= prev.take(j));
            } else {
                let n = completions.len() - 1;
                assert(completions.take(j) =~= completions);
                assert(prev.take(n) =~= prev);
                assert(index_after(frame_count, interval, prev) == n);
            }
        }
    } else {
        assert forall|j: int| 0 <= j <= completions.len() implies #[trigger] index_after(
            frame_count,
            interval,
            completions.take(j),
        ) == j by {
            assert(completions.take(j).len() == 0);
        }
    }
}

/// A frame that completes `lag` nanoseconds after the next frame's target
/// moves the index on by `lag / interval + 1`, up to the end.
pub proof fn lemma_lag_skip(i: nat, frame_count: nat, interval: nat, lag: nat)
    requires
        interval > 0,
        i < frame_count,
    ensures
        next_index(i, frame_count, interval, ((i + 1) * interval + lag) as int) == if i + lag / interval
            + 1 > frame_count {
            frame_count
        } else {
            i + lag / interval + 1
        },
{
    if lag == 0 {
        assert(0nat / interval == 0);
    }
}

/// Completion times of the frames drawn in the last second, oldest first,
/// in nanoseconds from the start.
pub struct FpsWindow {
    pub times: VecDeque<u128>,
}

impl FpsWindow {
    pub open spec fn wf(&self) -> bool {
        forall|i: int, j: int| 0 <= i <= j < self.times@.len() ==> self.times@[i] <= self.times@[j]
    }

    pub fn new() -> (w: FpsWindow)
        ensures
            w.wf(),
            w.times@.len() == 0,
    {
        FpsWindow { times: VecDeque::new() }
    }

    /// Records a frame completed at `now_ns` and drops from the front the
    /// entries a second or more older than it.
    pub fn record(&mut self, now_ns: u128)
        requires
            old(self).wf(),
            forall|i: int| 0 <= i < old(self).times@.len() ==> old(self).times@[i] <= now_ns,
        ensures
            final(self).wf(),
            ({
                let all = old(self).times@.push(now_ns);
                let k = all.len() - final(self).times@.len();
                &&& 0 <= k < all.len()
                &&& final(self).times@ == all.subrange(k, all.len() as int)
                &&& forall|j: int| 0 <= j < k ==> now_ns - all[j] >= NANOS_PER_SEC
                &&& forall|j: int| k <= j < all.len() ==> now_ns - all[j] < NANOS_PER_SEC
            }),
    {
        let ghost all = self.times@.push(now_ns);
        self.times.push_back(now_ns);
        assert(self.times@ == all);
        while self.times.len() > 0 && now_ns - self.times[0] >= NANOS_PER_SEC as u128
            invariant
                all == old(self).times@.push(now_ns),
                self.times@.len() <= all.len(),
                self.times@ == all.subrange(all.len() - self.times@.len(), all.len() as int),
                forall|i: int, j: int| 0 <= i <= j < all.len() ==> all[i] <= all[j],
                forall|j: int| 0 <= j < all.len() ==> all[j] <= now_ns,
                forall|j: int| 0 <= j < all.len() - self.times@.len() ==> now_ns - all[j] >= NANOS_PER_SEC,
            decreases self.times@.len(),
        {
            self.times.pop_front();
        }
        assert(all[all.len() - 1] == now_ns);
        assert forall|j: int| all.len() - self.times@.len() <= j < all.len() implies now_ns - all[j]
            < NANOS_PER_SEC by {
            let k = all.len() - self.times@.len();
            assert(self.times@[0] == all[k]);
            assert(all[k] <= all[j]);
        }
    }

    /// Frames drawn in the last second.
    pub fn fps(&self) -> (n: usize)
        ensures
            n == self.times@.len(),
    {
        self.times.len()
    }
}

} // verus!
