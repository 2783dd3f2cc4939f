//! Sleep timer: stop the music after a while, or at the end of the current track.
//!
//! The timer is the state here; the app holds it behind a lock, runs the waits and the fade, and
//! hands each decision back. `generation` is what makes re-arming safe: every arm bumps it, and a
//! task that was waiting on an older arm sees the mismatch when it wakes and does nothing.
use vstd::prelude::*;

verus! {

/// How long the music takes to fade out before it pauses.
pub const FADE_MS: u64 = 5000;

/// End-of-track pauses this far short of the end, so the pause does not race the gapless advance.
pub const END_MARGIN_MS: u64 = 400;

/// Silence held after the fade before the pause.
pub const HOLD_MS: u64 = 150;

/// The longest timer: a day. Past that it is a typo.
pub const MAX_MINUTES: u32 = 1440;

/// The timer's state.
pub struct SleepTimer {
    /// When the music stops, as unix milliseconds. `None` = no deadline.
    deadline_ms: Option<i64>,
    generation: u64,
    /// Armed to stop at the end of the current track rather than at a deadline.
    end_of_track: bool,
    /// The end-of-track fade has started, so position ticks must not start another.
    fading: bool,
}

pub struct SleepTimerV {
    pub deadline_ms: Option<i64>,
    pub generation: u64,
    pub end_of_track: bool,
    pub fading: bool,
}

impl View for SleepTimer {
    type V = SleepTimerV;

    closed spec fn view(&self) -> SleepTimerV {
        SleepTimerV {
            deadline_ms: self.deadline_ms,
            generation: self.generation,
            end_of_track: self.end_of_track,
            fading: self.fading,
        }
    }
}

/// What the UI is told: when, or "end of this track", or nothing.
#[derive(Debug, Clone, Copy, PartialEq, Eq)]
pub struct Status {
    pub deadline: Option<i64>,
    pub end_of_track: bool,
}

/// The deadline as seen at `now`: gone once it has passed.
pub open spec fn deadline_seen(d: Option<i64>, now: i64) -> Option<i64> {
    match d {
        Some(t) => if t > now {
            Some(t)
        } else {
            None
        },
        None => None,
    }
}

/// The generation after one more arm (a wrapping counter, as an atomic `fetch_add` is).
pub open spec fn next_generation(g: u64) -> u64 {
    if g == u64::MAX {
        0
    } else {
        (g + 1) as u64
    }
}

/// The timer after an arm: the new deadline and end-of-track flag, no fade, the next generation.
pub open spec fn armed(v: SleepTimerV, deadline: Option<i64>, end_of_track: bool) -> SleepTimerV {
    SleepTimerV { deadline_ms: deadline, generation: next_generation(v.generation), end_of_track, fading: false }
}

/// The timer after it went off: disarmed, the generation kept.
pub open spec fn fired_view(v: SleepTimerV) -> SleepTimerV {
    SleepTimerV { deadline_ms: None, generation: v.generation, end_of_track: false, fading: false }
}

/// `SystemTime::elapsed` on the Unix epoch: the milliseconds since 1970 by the machine's clock, or
/// none when the clock reads before 1970. Nothing is claimed of the value: it is the clock.
#[verifier::external_body]
fn epoch_elapsed_ms() -> Option<u128> {
    std::time::UNIX_EPOCH.elapsed().ok().map(|d| d.as_millis())
}

/// The current time as unix milliseconds (cast as an `i64`), or 0 if the clock reads before 1970.
pub(crate) fn now_ms() -> i64 {
    match epoch_elapsed_ms() {
        Some(ms) => #[verifier::truncate]
        (ms as i64),
        None => 0,
    }
}

impl SleepTimer {
    /// No timer.
    pub fn new() -> (r: Self)
        ensures
            r@ == (SleepTimerV { deadline_ms: None, generation: 0, end_of_track: false, fading: false }),
    {
        SleepTimer { deadline_ms: None, generation: 0, end_of_track: false, fading: false }
    }

    /// The deadline as seen at `now`. `None` once it has passed, so a UI that asks late is not told
    /// about a timer that already fired.
    pub fn deadline_at(&self, now: i64) -> (r: Option<i64>)
        ensures
            r == deadline_seen(self@.deadline_ms, now),
    {
        match self.deadline_ms {
            Some(d) => if d > now {
                Some(d)
            } else {
                None
            },
            None => None,
        }
    }

    /// The deadline, or `None`; also `None` once it has passed.
    pub fn deadline(&self) -> (r: Option<i64>)
        ensures
            r matches Some(d) ==> self@.deadline_ms == Some(d),
            self@.deadline_ms is None ==> r is None,
    {
        self.deadline_at(now_ms())
    }

    /// Armed to stop at the end of the current track.
    pub fn end_of_track(&self) -> (r: bool)
        ensures
            r == self@.end_of_track,
    {
        self.end_of_track
    }

    /// The arm a waiting task belongs to.
    pub fn generation(&self) -> (r: u64)
        ensures
            r == self@.generation,
    {
        self.generation
    }

    /// Whether a task started under `gen` may still act.
    pub fn is_current(&self, gen: u64) -> (r: bool)
        ensures
            r == (gen == self@.generation),
    {
        self.generation == gen
    }

    /// Set the deadline and the end-of-track flag, clear the fade, and bump the generation.
    /// Returns the new generation.
    pub fn arm(&mut self, deadline: Option<i64>, end_of_track: bool) -> (g: u64)
        ensures
            final(self)@ == armed(old(self)@, deadline, end_of_track),
            g == final(self)@.generation,
    {
        self.deadline_ms = deadline;
        self.end_of_track = end_of_track;
        self.fading = false;
        self.generation = self.generation.wrapping_add(1);
        self.generation
    }

    /// Arm the timer for `minutes` from `now` (clamped to one minute .. one day), replacing any
    /// existing one. Returns the new generation and the deadline.
    pub fn set(&mut self, minutes: u32, now: i64) -> (r: (u64, i64))
        requires
            now <= i64::MAX - 1440 * 60000,
        ensures
            r.1 == now + 60000 * (if minutes < 1 {
                1
            } else if minutes > MAX_MINUTES {
                MAX_MINUTES
            } else {
                minutes
            }),
            final(self)@ == armed(old(self)@, Some(r.1), false),
            r.0 == final(self)@.generation,
    {
        let m: u32 = if minutes < 1 {
            1
        } else if minutes > MAX_MINUTES {
            MAX_MINUTES
        } else {
            minutes
        };
        let deadline = now + (m as i64) * 60000;
        let g = self.arm(Some(deadline), false);
        (g, deadline)
    }

    /// Arm the timer for the end of the current track, replacing any existing one.
    pub fn set_end_of_track(&mut self) -> (g: u64)
        ensures
            final(self)@ == armed(old(self)@, None, true),
            g == final(self)@.generation,
    {
        self.arm(None, true)
    }

    /// Disarm. Safe to call when nothing is armed.
    pub fn clear(&mut self) -> (g: u64)
        ensures
            final(self)@ == armed(old(self)@, None, false),
            g == final(self)@.generation,
    {
        self.arm(None, false)
    }

    /// The timer went off: disarm without moving the generation, so a task armed in the same
    /// instant is not invalidated by the very event it caused.
    pub fn fired(&mut self)
        ensures
            final(self)@ == fired_view(old(self)@),
    {
        self.deadline_ms = None;
        self.end_of_track = false;
        self.fading = false;
    }

    /// A position tick with `remaining_ms` of the track left. With an end-of-track timer armed and
    /// no fade running, starts the fade once the fade, the hold after it and the margin no longer
    /// all fit: returns the generation and the fade's length, which ends just short of the end.
    pub fn position_tick(&mut self, remaining_ms: u64) -> (r: Option<(u64, u64)>)
        ensures
            ({
                let starts = old(self)@.end_of_track && !old(self)@.fading && remaining_ms
                    <= FADE_MS + HOLD_MS + END_MARGIN_MS;
                &&& starts ==> r == Some(
                    (
                        old(self)@.generation,
                        if remaining_ms >= END_MARGIN_MS + HOLD_MS {
                            (remaining_ms - (END_MARGIN_MS + HOLD_MS)) as u64
                        } else {
                            0
                        },
                    ),
                ) && final(self)@ == (SleepTimerV { fading: true, ..old(self)@ })
                &&& !starts ==> r is None && final(self)@ == old(self)@
            }),
    {
        if !self.end_of_track || self.fading {
            return None;
        }
        if remaining_ms > FADE_MS + HOLD_MS + END_MARGIN_MS {
            return None;
        }
        self.fading = true;
        Some((self.generation, remaining_ms.saturating_sub(END_MARGIN_MS + HOLD_MS)))
    }
}

/// What the UI is told at `now`.
pub fn status_at(timer: &SleepTimer, now: i64) -> (r: Status)
    ensures
        r.deadline == deadline_seen(timer@.deadline_ms, now),
        r.end_of_track == timer@.end_of_track,
{
    Status { deadline: timer.deadline_at(now), end_of_track: timer.end_of_track() }
}

/// What the UI is told now.
pub fn status(timer: &SleepTimer) -> (r: Status)
    ensures
        r.deadline matches Some(d) ==> timer@.deadline_ms == Some(d),
        timer@.deadline_ms is None ==> r.deadline is None,
        r.end_of_track == timer@.end_of_track,
{
    Status { deadline: timer.deadline(), end_of_track: timer.end_of_track() }
}

/// How long a deadline timer sleeps before its fade: it wakes a fade's and a hold's length early,
/// so the music is silent exactly at the deadline. Never negative.
pub fn wait_before_fade(deadline: i64, now: i64) -> (r: u64)
    ensures
        r == (if deadline - (FADE_MS + HOLD_MS) - now > 0 {
            deadline - (FADE_MS + HOLD_MS) - now
        } else {
            0
        }),
{
    let w: i128 = deadline as i128 - (FADE_MS + HOLD_MS) as i128 - now as i128;
    if w > 0 {
        w as u64
    } else {
        0
    }
}

/// How long the fade gets when the deadline timer wakes at `now`: what is left before the hold,
/// within `0 ..= FADE_MS`.
pub fn fade_length(deadline: i64, now: i64) -> (r: u64)
    ensures
        r == (if deadline - HOLD_MS - now < 0 {
            0
        } else if deadline - HOLD_MS - now > FADE_MS {
            FADE_MS as int
        } else {
            deadline - HOLD_MS - now
        }),
{
    let left: i128 = deadline as i128 - HOLD_MS as i128 - now as i128;
    if left < 0 {
        0
    } else if left > FADE_MS as i128 {
        FADE_MS
    } else {
        left as u64
    }
}

/// Where a running fade stands.
#[derive(Debug, Clone, Copy, PartialEq, Eq, Structural)]
pub enum FadeStep {
    /// The timer was re-armed or cleared: put the volume back and stop.
    Abandon,
    /// The position jumped back: the track ended and the next one started under the fade. Silence
    /// now rather than let the next song play out the rest of the ramp.
    Cut,
    /// Set the level for how far the fade has come, and look again shortly.
    Ramp,
    /// Set the level for the end of the fade: it is complete.
    Last,
}

/// One look at a fade started under a generation (`current`: still the timer's), begun at position
/// `from_ms`, now at `pos_ms`, `elapsed_ms` into a fade of `total_ms`. Progress is read off the
/// clock, not counted in steps.
pub open spec fn fade_step_spec(current: bool, pos_ms: u64, from_ms: u64, elapsed_ms: u64, total_ms: u64)
    -> FadeStep {
    if !current {
        FadeStep::Abandon
    } else if pos_ms + 1000 < from_ms {
        FadeStep::Cut
    } else if total_ms == 0 || elapsed_ms >= total_ms {
        FadeStep::Last
    } else {
        FadeStep::Ramp
    }
}

impl SleepTimer {
    /// See [`fade_step_spec`].
    pub fn fade_step(&self, gen: u64, pos_ms: u64, from_ms: u64, elapsed_ms: u64, total_ms: u64) -> (r:
        FadeStep)
        ensures
            r == fade_step_spec(gen == self@.generation, pos_ms, from_ms, elapsed_ms, total_ms),
    {
        if self.generation != gen {
            FadeStep::Abandon
        } else if (pos_ms as u128) + 1000 < (from_ms as u128) {
            FadeStep::Cut
        } else if total_ms == 0 || elapsed_ms >= total_ms {
            FadeStep::Last
        } else {
            FadeStep::Ramp
        }
    }
}

// --- laws ---------------------------------------------------------------------------------------
/// Re-arming (setting, switching to end-of-track, or clearing) invalidates every task that was
/// waiting on the arm before it.
pub proof fn law_rearm_invalidates(old_gen: u64)
    ensures
        next_generation(old_gen) != old_gen,
{
}

/// A fade started before a re-arm is abandoned at its next look, wherever it stood.
pub proof fn law_a_rearm_abandons_the_fade(gen: u64, pos_ms: u64, from_ms: u64, elapsed_ms: u64, total_ms: u64)
    ensures
        fade_step_spec(gen == next_generation(gen), pos_ms, from_ms, elapsed_ms, total_ms)
            == FadeStep::Abandon,
{
}

/// The end-of-track flag is what the last arm said: on after arming for the end of the track, off
/// after arming a deadline, after clearing, and once the timer went off.
pub proof fn law_end_of_track_follows_the_last_arm(v: SleepTimerV, deadline: Option<i64>)
    ensures
        armed(v, None, true).end_of_track,
        !armed(v, deadline, false).end_of_track,
        !fired_view(v).end_of_track,
{
}

/// A deadline that has passed reads as no timer; one still ahead reads as itself.
pub proof fn law_passed_deadline_reads_as_none(d: i64, now: i64)
    ensures
        d <= now ==> deadline_seen(Some(d), now) is None,
        d > now ==> deadline_seen(Some(d), now) == Some(d),
        deadline_seen(None, now) is None,
{
}

} // verus!
