use vstd::prelude::*;

use crate::timestamp::Timestamp;

verus! {

/// Presence that closes a window, in milliseconds, unless configured otherwise.
pub const DEFAULT_WINDOW_MS: u64 = 5000;

/// Least time between two counted blinks, in milliseconds, unless configured otherwise.
pub const DEFAULT_REFRACTORY_MS: u64 = 100;

/// Consecutive frames without eyes after which the eyes count as absent,
/// unless configured otherwise.
pub const DEFAULT_ABSENCE_FRAMES: u32 = 5;

/// One closed sampling window.
#[derive(Clone, Copy, Debug, PartialEq, Eq, Structural)]
pub struct IntervalEntry {
    pub start_time: Timestamp,
    pub end_time: Timestamp,
    pub blink_count: u32,
    /// Time with eyes in view during the window, in milliseconds.
    pub presence_ms: u64,
}

impl IntervalEntry {
    /// A window that ends after it starts and holds no more presence than its length.
    pub open spec fn valid(self) -> bool {
        &&& self.start_time.millis < self.end_time.millis
        &&& self.presence_ms <= self.end_time.millis - self.start_time.millis
    }
}

/// The sampler's policy.
#[derive(Clone, Copy, Debug, PartialEq, Eq, Structural)]
pub struct SamplerConfig {
    /// Presence, in milliseconds, that closes a window.
    pub window_ms: u64,
    /// Least time, in milliseconds, from one counted blink to the next.
    pub refractory_ms: u64,
    /// Consecutive frames without eyes after which the eyes count as absent.
    pub absence_frames: u32,
}

impl SamplerConfig {
    pub open spec fn valid(self) -> bool {
        self.window_ms > 0 && self.absence_frames > 0
    }

    /// Five-second windows, a 100 ms refractory interval, absence after five empty frames.
    pub fn standard() -> (r: SamplerConfig)
        ensures
            r == (SamplerConfig {
                window_ms: DEFAULT_WINDOW_MS,
                refractory_ms: DEFAULT_REFRACTORY_MS,
                absence_frames: DEFAULT_ABSENCE_FRAMES,
            }),
            r.valid(),
    {
        SamplerConfig {
            window_ms: DEFAULT_WINDOW_MS,
            refractory_ms: DEFAULT_REFRACTORY_MS,
            absence_frames: DEFAULT_ABSENCE_FRAMES,
        }
    }

    pub fn is_valid(&self) -> (r: bool)
        ensures
            r == self.valid(),
    {
        self.window_ms > 0 && self.absence_frames > 0
    }
}

/// One more, or `u32::MAX` where that is reached.
pub open spec fn bump(x: int) -> int {
    if x < u32::MAX {
        x + 1
    } else {
        x
    }
}

/// The sampler as a mathematical state. Instants are milliseconds on the
/// sampler's clock.
pub struct SamplerState {
    pub config: SamplerConfig,
    pub blink_count: int,
    pub prev_eye_count: int,
    pub last_blink_at: int,
    pub presence_ms: int,
    pub no_eyes_streak: int,
    pub eyes_present: bool,
    pub window_start: int,
    /// The instant of the last frame, or of construction before any frame.
    pub clock: int,
    pub seen_frame: bool,
}

impl SamplerState {
    /// What every state of a running sampler satisfies.
    pub open spec fn inv(self) -> bool {
        &&& self.config.valid()
        &&& 0 <= self.blink_count <= u32::MAX
        &&& 0 <= self.prev_eye_count <= u32::MAX
        &&& 0 <= self.no_eyes_streak <= u32::MAX
        &&& 0 <= self.last_blink_at <= self.clock
        &&& 0 <= self.window_start <= self.clock <= u64::MAX
        &&& 0 <= self.presence_ms <= self.clock - self.window_start
        &&& self.presence_ms < self.config.window_ms
    }

    /// Time since the previous frame; zero for the first frame.
    pub open spec fn frame_delta(self, now: int) -> int {
        if self.seen_frame {
            now - self.clock
        } else {
            0
        }
    }

    /// A frame with `eye_count` eyes at `now` counts a blink: the previous
    /// frame had exactly two eyes, this one has fewer, and the refractory
    /// interval has passed since the last counted blink.
    pub open spec fn blinks_at(self, eye_count: int, now: int) -> bool {
        &&& self.prev_eye_count == 2
        &&& eye_count < 2
        &&& now - self.last_blink_at >= self.config.refractory_ms
    }

    /// The state after a frame, before the window is checked.
    pub open spec fn counted(self, eye_count: int, now: int) -> SamplerState {
        let blinked = self.blinks_at(eye_count, now);
        let streak = if eye_count >= 1 {
            0
        } else {
            bump(self.no_eyes_streak)
        };
        SamplerState {
            config: self.config,
            blink_count: if blinked {
                bump(self.blink_count)
            } else {
                self.blink_count
            },
            prev_eye_count: eye_count,
            last_blink_at: if blinked {
                now
            } else {
                self.last_blink_at
            },
            presence_ms: if eye_count >= 1 {
                self.presence_ms + self.frame_delta(now)
            } else {
                self.presence_ms
            },
            no_eyes_streak: streak,
            eyes_present: if eye_count >= 1 {
                true
            } else if streak >= self.config.absence_frames {
                false
            } else {
                self.eyes_present
            },
            window_start: self.window_start,
            clock: now,
            seen_frame: true,
        }
    }

    /// The frame completes the window's presence.
    pub open spec fn closes_at(self, eye_count: int, now: int) -> bool {
        self.counted(eye_count, now).presence_ms >= self.config.window_ms
    }

    /// The state after a frame with `eye_count` eyes at `now`.
    pub open spec fn next(self, eye_count: int, now: int) -> SamplerState {
        let t = self.counted(eye_count, now);
        if self.closes_at(eye_count, now) {
            SamplerState {
                blink_count: 0,
                presence_ms: 0,
                no_eyes_streak: 0,
                window_start: now,
                ..t
            }
        } else {
            t
        }
    }

    /// The window that a frame with `eye_count` eyes at `now` closes, if any.
    pub open spec fn emitted(self, eye_count: int, now: int) -> Option<IntervalEntry> {
        let t = self.counted(eye_count, now);
        if self.closes_at(eye_count, now) {
            Some(
                IntervalEntry {
                    start_time: Timestamp { millis: self.window_start as u64 },
                    end_time: Timestamp { millis: now as u64 },
                    blink_count: t.blink_count as u32,
                    presence_ms: t.presence_ms as u64,
                },
            )
        } else {
            None
        }
    }
}

/// What one frame brought about.
#[derive(Clone, Copy, Debug, PartialEq, Eq, Structural)]
pub struct FrameOutcome {
    /// The frame counted a blink.
    pub blinked: bool,
    /// The window that the frame closed, to be stored.
    pub entry: Option<IntervalEntry>,
}

/// Turns per-frame eye counts into blink counts and presence time, and closes
/// a window each time the presence reaches the configured length.
pub struct PresenceSampler {
    config: SamplerConfig,
    blink_counter: u32,
    prev_eye_count: u32,
    last_blink_at: u64,
    presence_ms: u64,
    no_eyes_streak: u32,
    eyes_present: bool,
    window_start: u64,
    clock: u64,
    seen_frame: bool,
}

impl View for PresenceSampler {
    type V = SamplerState;

    closed spec fn view(&self) -> SamplerState {
        SamplerState {
            config: self.config,
            blink_count: self.blink_counter as int,
            prev_eye_count: self.prev_eye_count as int,
            last_blink_at: self.last_blink_at as int,
            presence_ms: self.presence_ms as int,
            no_eyes_streak: self.no_eyes_streak as int,
            eyes_present: self.eyes_present,
            window_start: self.window_start as int,
            clock: self.clock as int,
            seen_frame: self.seen_frame,
        }
    }
}

impl PresenceSampler {
    pub open spec fn wf(&self) -> bool {
        self@.inv()
    }

    /// A sampler that starts its first window at `now`.
    pub fn new(config: SamplerConfig, now: u64) -> (r: PresenceSampler)
        requires
            config.valid(),
        ensures
            r.wf(),
            r@ == (SamplerState {
                config,
                blink_count: 0,
                prev_eye_count: 0,
                last_blink_at: now as int,
                presence_ms: 0,
                no_eyes_streak: 0,
                eyes_present: false,
                window_start: now as int,
                clock: now as int,
                seen_frame: false,
            }),
    {
        PresenceSampler {
            config,
            blink_counter: 0,
            prev_eye_count: 0,
            last_blink_at: now,
            presence_ms: 0,
            no_eyes_streak: 0,
            eyes_present: false,
            window_start: now,
            clock: now,
            seen_frame: false,
        }
    }

    /// Takes in a frame in which `eye_count` eyes were seen at `now`, and
    /// returns whether it counted a blink and the window it closed, if any.
    pub fn observe(&mut self, eye_count: u32, now: u64) -> (r: FrameOutcome)
        requires
            old(self).wf(),
            now >= old(self)@.clock,
        ensures
            final(self).wf(),
            final(self)@ == old(self)@.next(eye_count as int, now as int),
            r.blinked == old(self)@.blinks_at(eye_count as int, now as int),
            r.entry == old(self)@.emitted(eye_count as int, now as int),
            r.entry matches Some(e) ==> e.valid(),
    {
        let delta: u64 = if self.seen_frame {
            now - self.clock
        } else {
            0
        };
        self.clock = now;
        self.seen_frame = true;

        if eye_count >= 1 {
            self.no_eyes_streak = 0;
            self.eyes_present = true;
            self.presence_ms = self.presence_ms + delta;
        } else {
            self.no_eyes_streak = self.no_eyes_streak.saturating_add(1);
            if self.no_eyes_streak >= self.config.absence_frames {
                self.eyes_present = false;
            }
        }

        let blinked = self.prev_eye_count == 2 && eye_count < 2 && now - self.last_blink_at
            >= self.config.refractory_ms;
        if blinked {
            self.blink_counter = self.blink_counter.saturating_add(1);
            self.last_blink_at = now;
        }

        self.prev_eye_count = eye_count;

        let mut entry: Option<IntervalEntry> = None;
        if self.presence_ms >= self.config.window_ms {
            entry = Some(
                IntervalEntry {
                    start_time: Timestamp { millis: self.window_start },
                    end_time: Timestamp { millis: now },
                    blink_count: self.blink_counter,
                    presence_ms: self.presence_ms,
                },
            );
            self.window_start = now;
            self.blink_counter = 0;
            self.presence_ms = 0;
            self.no_eyes_streak = 0;
        }
        FrameOutcome { blinked, entry }
    }

    pub fn config(&self) -> (r: SamplerConfig)
        ensures
            r == self@.config,
    {
        self.config
    }

    /// Blinks counted in the open window.
    pub fn blink_count(&self) -> (r: u32)
        ensures
            r == self@.blink_count,
    {
        self.blink_counter
    }

    /// Presence in the open window, in milliseconds.
    pub fn presence_ms(&self) -> (r: u64)
        ensures
            r == self@.presence_ms,
    {
        self.presence_ms
    }

    pub fn eyes_present(&self) -> (r: bool)
        ensures
            r == self@.eyes_present,
    {
        self.eyes_present
    }

    /// Consecutive frames without eyes up to the last one.
    pub fn no_eyes_streak(&self) -> (r: u32)
        ensures
            r == self@.no_eyes_streak,
    {
        self.no_eyes_streak
    }

    /// Where the open window started.
    pub fn window_start(&self) -> (r: Timestamp)
        ensures
            r.millis == self@.window_start,
    {
        Timestamp { millis: self.window_start }
    }

    /// The instant of the last frame, or of construction before any frame.
    pub fn clock(&self) -> (r: u64)
        ensures
            r == self@.clock,
    {
        self.clock
    }
}

/// The state after each `(eye_count, instant)` frame of `frames` in turn.
pub open spec fn run(s: SamplerState, frames: Seq<(u32, u64)>) -> SamplerState
    decreases frames.len(),
{
    if frames.len() == 0 {
        s
    } else {
        run(s, frames.drop_last()).next(frames.last().0 as int, frames.last().1 as int)
    }
}

/// The number of frames of `frames` that count a blink.
pub open spec fn blinks_over(s: SamplerState, frames: Seq<(u32, u64)>) -> int
    decreases frames.len(),
{
    if frames.len() == 0 {
        0
    } else {
        blinks_over(s, frames.drop_last()) + if run(s, frames.drop_last()).blinks_at(
            frames.last().0 as int,
            frames.last().1 as int,
        ) {
            1int
        } else {
            0int
        }
    }
}

/// The number of frames without eyes at the end of `frames`.
pub open spec fn trailing_empty(frames: Seq<(u32, u64)>) -> int
    decreases frames.len(),
{
    if frames.len() == 0 {
        0
    } else if frames.last().0 == 0 {
        trailing_empty(frames.drop_last()) + 1
    } else {
        0
    }
}

/// Frames none of which has exactly two eyes, after a frame that did not have
/// exactly two either, count no blink, and leave a last count other than two.
pub proof fn lemma_no_blink_without_two_eyes(s: SamplerState, frames: Seq<(u32, u64)>)
    requires
        s.inv(),
        s.prev_eye_count != 2,
        forall|i: int| 0 <= i < frames.len() ==> #[trigger] frames[i].0 != 2,
    ensures
        blinks_over(s, frames) == 0,
        run(s, frames).prev_eye_count != 2,
    decreases frames.len(),
{
    if frames.len() > 0 {
        let rest = frames.drop_last();
        assert forall|i: int| 0 <= i < rest.len() implies #[trigger] rest[i].0 != 2 by {
            assert(rest[i] == frames[i]);
        }
        lemma_no_blink_without_two_eyes(s, rest);
        assert(frames[frames.len() - 1].0 != 2);
    }
}

proof fn lemma_streak_decides_presence(s: SamplerState, frames: Seq<(u32, u64)>)
    requires
        s.config.valid(),
        s.presence_ms < s.config.window_ms,
        s.eyes_present,
        s.no_eyes_streak == 0,
    ensures
        run(s, frames).config == s.config,
        run(s, frames).presence_ms < s.config.window_ms,
        run(s, frames).no_eyes_streak == if trailing_empty(frames) < u32::MAX {
            trailing_empty(frames)
        } else {
            u32::MAX as int
        },
        run(s, frames).eyes_present == (run(s, frames).no_eyes_streak
            < s.config.absence_frames),
    decreases frames.len(),
{
    if frames.len() > 0 {
        lemma_streak_decides_presence(s, frames.drop_last());
    }
}

proof fn lemma_trailing_empty_frames(frames: Seq<(u32, u64)>, n: int)
    requires
        0 <= n <= trailing_empty(frames),
    ensures
        frames.len() >= n,
        forall|i: int| frames.len() - n <= i < frames.len() ==> #[trigger] frames[i].0 == 0,
    decreases frames.len(),
{
    if n > 0 {
        let rest = frames.drop_last();
        lemma_trailing_empty_frames(rest, n - 1);
        assert forall|i: int| frames.len() - n <= i < frames.len() implies #[trigger] frames[i].0
            == 0 by {
            if i < frames.len() - 1 {
                assert(rest[i] == frames[i]);
            }
        }
    }
}

/// From a frame with eyes, the eyes count as absent only after the configured
/// number of consecutive frames without eyes: the last `absence_frames`
/// frames all had none.
pub proof fn lemma_absence_needs_empty_streak(s: SamplerState, frames: Seq<(u32, u64)>)
    requires
        s.inv(),
        s.eyes_present,
        s.no_eyes_streak == 0,
    ensures
        !run(s, frames).eyes_present ==> {
            &&& frames.len() >= s.config.absence_frames
            &&& forall|i: int|
                frames.len() - s.config.absence_frames <= i < frames.len() ==> #[trigger] frames[i].0
                    == 0
        },
{
    lemma_streak_decides_presence(s, frames);
    if !run(s, frames).eyes_present {
        lemma_trailing_empty_frames(frames, s.config.absence_frames as int);
    }
}

/// Where absence takes at least two empty frames, frames in which no two
/// consecutive ones lack eyes, after a frame with eyes, never make the eyes
/// absent: a lone frame without eyes is not taken for absence.
pub proof fn lemma_lone_empty_frame_keeps_presence(s: SamplerState, frames: Seq<(u32, u64)>)
    requires
        s.inv(),
        s.eyes_present,
        s.no_eyes_streak == 0,
        s.config.absence_frames >= 2,
        forall|i: int| 0 <= i < frames.len() - 1 ==> #[trigger] frames[i].0 != 0 || frames[i + 1].0 != 0,
    ensures
        run(s, frames).eyes_present,
{
    lemma_absence_needs_empty_streak(s, frames);
    if !run(s, frames).eyes_present {
        let i = frames.len() - 2;
        assert(frames[i].0 == 0);
        assert(frames[i + 1].0 == 0);
    }
}

} // verus!
