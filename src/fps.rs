//! A frames-per-second counter over a two-second window.
use vstd::prelude::*;
use std::time::Instant;

verus! {

/// Length of the counting window, in milliseconds.
pub const WINDOW_MILLIS: u64 = 2000;

/// Length of the counting window, in seconds.
pub const SECONDS_DIFFERENCE: usize = 2;

#[verifier::external_type_specification]
#[verifier::external_body]
pub struct ExInstant(Instant);

/// Relies on `Instant::now`: a reading of the monotonic clock; nothing is
/// known of its value.
pub assume_specification[ Instant::now ]() -> Instant;

/// Relies on `Instant::elapsed`: the time since `start`, in whole
/// milliseconds, saturated at `u64::MAX`; nothing is known of its value.
#[verifier::external_body]
fn millis_since(start: &Instant) -> u64 {
    u64::try_from(start.elapsed().as_millis()).unwrap_or(u64::MAX)
}

/// The recorded frames that `add_frame_at(now)` keeps: it drops the newest
/// while it is at least a window older than `now`.
pub open spec fn kept(frames: Seq<u64>, now: u64) -> Seq<u64>
    decreases frames.len(),
{
    if frames.len() > 0 && now - frames.last() >= WINDOW_MILLIS {
        kept(frames.drop_last(), now)
    } else {
        frames
    }
}

/// Counts frames; `frames` holds their times in milliseconds since the
/// counter was made, oldest first.
pub struct FpsCounter {
    pub start: Instant,
    pub frames: Vec<u64>,
}

impl FpsCounter {
    pub fn new() -> (r: FpsCounter)
        ensures
            r.frames@.len() == 0,
    {
        FpsCounter { start: Instant::now(), frames: Vec::new() }
    }

    /// Records a frame now.
    pub fn add_frame(&mut self)
        ensures
            exists|now: u64| final(self).frames@ == #[trigger] kept(old(self).frames@, now).push(now),
    {
        let now = millis_since(&self.start);
        self.add_frame_at(now);
    }

    /// Records a frame at time `now`, first dropping from the newest end
    /// every frame at least a window older than `now`.
    pub fn add_frame_at(&mut self, now: u64)
        ensures
            final(self).frames@ == kept(old(self).frames@, now).push(now),
    {
        while self.frames.len() > 0 && now.saturating_sub(self.frames[self.frames.len() - 1]) >= WINDOW_MILLIS
            invariant
                kept(self.frames@, now) == kept(old(self).frames@, now),
            decreases self.frames@.len(),
        {
            self.frames.pop();
        }
        self.frames.push(now);
    }

    /// Frames per second: the frames kept, over the window's length.
    pub fn fps(&self) -> (r: usize)
        ensures
            r == self.frames@.len() / 2,
    {
        self.frames.len() / SECONDS_DIFFERENCE
    }
}

} // verus!
