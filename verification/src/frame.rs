//! The pace of frames, and the walk that a page takes by itself to put the terrain
//! pool to the test.
use vstd::prelude::*;

verus! {

/// No two frames are closer than this, in milliseconds.
pub const FRAME_GUARD_MS: u64 = 8;

/// No frame counts for more time than this, in milliseconds.
pub const MAX_STEP_MS: u64 = 250;

/// The frame rate is shown anew after this long, in milliseconds.
pub const FPS_WINDOW_MS: u64 = 500;

/// When frames are due.
#[derive(Clone, Copy, PartialEq, Eq, Structural, Debug)]
pub struct FrameClock {
    /// When the last frame was, in milliseconds; zero before the first one.
    pub last: u64,
}

impl FrameClock {
    /// How much time a frame at a time counts for. One too close to the last is no
    /// frame.
    pub open spec fn step(self, now: int) -> Option<int> {
        if now - self.last < FRAME_GUARD_MS {
            None
        } else if self.last == 0 {
            Some(0)
        } else if now - self.last > MAX_STEP_MS {
            Some(MAX_STEP_MS as int)
        } else {
            Some(now - self.last)
        }
    }

    /// A frame is drawn, unless it is too close to the last. Returns how much time it
    /// counts for.
    pub fn tick(&mut self, now: u64) -> (r: Option<u64>)
        ensures
            match r {
                Some(dt) => old(self).step(now as int) == Some(dt as int) && final(self).last
                    == now,
                None => old(self).step(now as int) is None && *final(self) == *old(self),
            },
    {
        if now < self.last || now - self.last < FRAME_GUARD_MS {
            return None;
        }
        let dt: u64 = if self.last == 0 {
            0
        } else if now - self.last > MAX_STEP_MS {
            MAX_STEP_MS
        } else {
            now - self.last
        };
        self.last = now;
        Some(dt)
    }
}

/// What is shown of the frame rate.
#[derive(Clone, Copy, PartialEq, Eq, Structural, Debug)]
pub struct FrameRate {
    /// Frames since the start of the window.
    pub frames: u32,
    /// When the window started, in milliseconds; zero before the first frame.
    pub start: u64,
    /// How often it was shown.
    pub shown: u32,
}

/// A frame rate to show.
#[derive(Clone, Copy, PartialEq, Eq, Structural, Debug)]
pub struct Rate {
    pub frames: u32,
    /// Over how long, in milliseconds.
    pub elapsed: u64,
    /// Whether it is logged, too.
    pub log: bool,
}

impl FrameRate {
    /// A frame was drawn. Returns the frame rate where it is time to show it.
    pub fn count(&mut self, now: u64) -> (r: Option<Rate>)
        requires
            old(self).frames < u32::MAX,
            old(self).shown < u32::MAX,
            old(self).start <= now,
        ensures
            ({
                let start = if old(self).start == 0 {
                    now
                } else {
                    old(self).start
                };
                if now - start >= FPS_WINDOW_MS {
                    &&& r == Some(
                        Rate {
                            frames: (old(self).frames + 1) as u32,
                            elapsed: (now - start) as u64,
                            log: (old(self).shown + 1) % 20 == 0,
                        },
                    )
                    &&& *final(self) == (FrameRate {
                        frames: 0,
                        start: now,
                        shown: (old(self).shown + 1) as u32,
                    })
                } else {
                    &&& r is None
                    &&& *final(self) == (FrameRate {
                        frames: (old(self).frames + 1) as u32,
                        start,
                        shown: old(self).shown,
                    })
                }
            }),
    {
        self.frames = self.frames + 1;
        if self.start == 0 {
            self.start = now;
        }
        let elapsed: u64 = now - self.start;
        if elapsed < FPS_WINDOW_MS {
            return None;
        }
        let frames: u32 = self.frames;
        self.frames = 0;
        self.start = now;
        self.shown = self.shown + 1;
        Some(Rate { frames, elapsed, log: self.shown % 20 == 0 })
    }
}

// ---- The walk ------------------------------------------------------------------------

/// The frame at which the walk takes off.
pub const TAKE_OFF: u32 = 1800;

/// The frame at which it turns back.
pub const TURN_BACK: u32 = 2280;

/// The frame at which it lands at the latest.
pub const LAND_AT_LATEST: u32 = 3300;

/// Frames between two looks at whether the walk is stuck.
pub const STUCK_WINDOW: u32 = 60;

/// How far the walk has got.
#[derive(Clone, Copy, PartialEq, Eq, Structural, Debug)]
pub struct Walk {
    /// Whether it has taken off.
    pub flying: bool,
    /// Whether it has turned back.
    pub returning: bool,
    /// Whether it has landed.
    pub landed: bool,
    /// Whether to jump next.
    pub jump: bool,
    /// Whether to turn aside next.
    pub turn: bool,
    /// How often it was stuck.
    pub episodes: u32,
}

/// What the walk does in a frame. It always walks on.
#[derive(Clone, Copy, PartialEq, Eq, Structural, Debug)]
pub struct WalkStep {
    /// Flies faster.
    pub faster: bool,
    /// Looks straight ahead.
    pub level: bool,
    /// Turns round.
    pub about: bool,
    /// Leaves fly mode.
    pub land: bool,
    pub jump: bool,
    /// Turns aside by a quarter.
    pub aside: bool,
}

impl Walk {
    /// What the walk does in a frame, `near` being whether it is back where it took
    /// off.
    pub open spec fn step(self, frame: u32, near: bool) -> (WalkStep, Walk) {
        let about = frame == TURN_BACK && !self.returning;
        let returning = self.returning || about;
        let land = returning && !self.landed && (near || frame == LAND_AT_LATEST);
        (
            WalkStep {
                faster: self.flying,
                level: frame == TAKE_OFF,
                about,
                land,
                jump: self.jump,
                aside: self.turn,
            },
            Walk { returning, landed: self.landed || land, jump: false, turn: false, ..self },
        )
    }

    /// What a frame leaves behind, `stuck` being whether the walk has hardly moved
    /// since the last look, and whether it takes off.
    pub open spec fn after(self, frame: u32, stuck: bool) -> (Walk, bool) {
        let off = frame == TAKE_OFF && !self.flying;
        let caught = frame % STUCK_WINDOW == STUCK_WINDOW - 1 && stuck;
        let n = if caught {
            (self.episodes + 1) as u32
        } else {
            self.episodes
        };
        (
            Walk {
                flying: self.flying || off,
                jump: self.jump || caught,
                turn: self.turn || (caught && n % 4 != 1),
                episodes: n,
                ..self
            },
            off,
        )
    }

    /// What the walk does in a frame.
    pub fn advance(&mut self, frame: u32, near: bool) -> (r: WalkStep)
        ensures
            (r, *final(self)) == old(self).step(frame, near),
    {
        let mut r = WalkStep {
            faster: self.flying,
            level: frame == TAKE_OFF,
            about: false,
            land: false,
            jump: self.jump,
            aside: self.turn,
        };
        if frame == TURN_BACK && !self.returning {
            self.returning = true;
            r.about = true;
        }
        if self.returning && !self.landed && (near || frame == LAND_AT_LATEST) {
            self.landed = true;
            r.land = true;
        }
        self.jump = false;
        self.turn = false;
        r
    }

    /// Looks back on a frame. Returns whether the walk takes off.
    pub fn look_back(&mut self, frame: u32, stuck: bool) -> (r: bool)
        requires
            old(self).episodes < u32::MAX,
        ensures
            (*final(self), r) == old(self).after(frame, stuck),
    {
        let off: bool = frame == TAKE_OFF && !self.flying;
        if off {
            self.flying = true;
        }
        if frame % STUCK_WINDOW == STUCK_WINDOW - 1 && stuck {
            self.episodes = self.episodes + 1;
            self.jump = true;
            if self.episodes % 4 != 1 {
                self.turn = true;
            }
        }
        off
    }
}

// ---- Laws ----------------------------------------------------------------------------

/// Time never runs faster than the clock, nor by more than a quarter of a second
/// at once.
pub proof fn steps_are_bounded(c: FrameClock, now: int)
    ensures
        c.step(now) matches Some(dt) ==> 0 <= dt <= MAX_STEP_MS && (c.last > 0 ==> dt <= now
            - c.last),
{
}

/// The walk lands once: after it has landed it never lands again, whatever happens.
pub proof fn the_walk_lands_once(w: Walk, frame: u32, near: bool, later: u32, again: bool)
    requires
        w.step(frame, near).0.land,
    ensures
        !w.step(frame, near).1.step(later, again).0.land,
        w.step(frame, near).1.returning,
{
}

} // verus!
