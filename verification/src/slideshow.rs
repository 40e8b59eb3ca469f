//! The slideshow: when it moves on to the next file by itself.

use vstd::prelude::*;

verus! {

use crate::media_time::{elapsed, elapsed_micros};

/// The shortest time for which a file is shown, in tenths of a second.
pub const MIN_TENTHS: u16 = 10;

/// The longest time for which a file is shown, in tenths of a second.
pub const MAX_TENTHS: u16 = 300;

/// The shortest time until the screen is drawn again.
pub const MIN_WAIT: i64 = 10_000;

/// A number of tenths of a second, brought into the range that can be set.
pub open spec fn clamped_tenths(tenths: int) -> int {
    if tenths < MIN_TENTHS {
        MIN_TENTHS as int
    } else if tenths > MAX_TENTHS {
        MAX_TENTHS as int
    } else {
        tenths
    }
}

fn clamp_tenths(tenths: i32) -> (r: u16)
    ensures
        r == clamped_tenths(tenths as int),
{
    if tenths < MIN_TENTHS as i32 {
        MIN_TENTHS
    } else if tenths > MAX_TENTHS as i32 {
        MAX_TENTHS
    } else {
        tenths as u16
    }
}

/// Whether a slideshow runs, how fast, and since when it has shown the current file.
#[derive(Clone, Copy, Debug, PartialEq, Eq, Structural)]
pub struct Slideshow {
    pub active: bool,
    /// How long a file is shown, in tenths of a second.
    pub tenths: u16,
    pub last_advance: i64,
    /// Whether it has moved on because the current video had come to its end.
    pub end_handled: bool,
}

/// What there is to know of the video that is shown.
#[derive(Clone, Copy, Debug, PartialEq, Eq, Structural)]
pub enum VideoStatus {
    /// No video is shown.
    Absent,
    /// A video is shown that has not come to its end.
    Running,
    /// A video is shown that has come to its end.
    Ended,
}

/// What a tick of the slideshow at `now` comes to, and whether it moves on. A video is waited for
/// to its end; anything else is shown for the time that is set.
pub open spec fn ticked(s: Slideshow, video: VideoStatus, now: i64) -> (Slideshow, bool) {
    let advances = s.active && match video {
        VideoStatus::Absent => now - s.last_advance >= s.interval(),
        VideoStatus::Running => false,
        VideoStatus::Ended => !s.end_handled,
    };
    (
        Slideshow {
            last_advance: if advances {
                now
            } else {
                s.last_advance
            },
            end_handled: match video {
                VideoStatus::Ended => s.end_handled || advances,
                _ => false,
            },
            ..s
        },
        advances,
    )
}

/// The slideshow switched on, at `now`, or off.
pub open spec fn switched(s: Slideshow, on: bool, now: i64) -> Slideshow {
    Slideshow {
        active: on,
        last_advance: if on && !s.active {
            now
        } else {
            s.last_advance
        },
        ..s
    }
}

/// The slideshow with another interval, brought into the range that can be set.
pub open spec fn with_interval(s: Slideshow, tenths: int) -> Slideshow {
    Slideshow { tenths: clamped_tenths(tenths) as u16, ..s }
}

/// How long it takes until the time for the current file is up, and at least until the screen is
/// drawn again.
pub open spec fn left_to_wait(s: Slideshow, now: i64) -> int {
    if s.interval() - elapsed(s.last_advance, now) > MIN_WAIT {
        s.interval() - elapsed(s.last_advance, now)
    } else {
        MIN_WAIT as int
    }
}

impl Slideshow {
    /// The time for which a file is shown can be set.
    pub open spec fn wf(&self) -> bool {
        MIN_TENTHS <= self.tenths <= MAX_TENTHS
    }

    /// The time for which a file is shown, in microseconds.
    pub open spec fn interval(&self) -> int {
        self.tenths * 100_000
    }

    /// A slideshow that does not run.
    pub fn new(tenths: u16) -> (r: Slideshow)
        ensures
            r == (Slideshow {
                active: false,
                tenths: clamped_tenths(tenths as int) as u16,
                last_advance: 0,
                end_handled: false,
            }),
            r.wf(),
    {
        Slideshow {
            active: false,
            tenths: clamp_tenths(tenths as i32),
            last_advance: 0,
            end_handled: false,
        }
    }

    /// Starts the slideshow, if it does not run.
    pub fn start(&mut self, now: i64)
        ensures
            *final(self) == switched(*old(self), true, now),
    {
        if !self.active {
            self.active = true;
            self.last_advance = now;
        }
    }

    /// Stops the slideshow.
    pub fn stop(&mut self)
        ensures
            *final(self) == (Slideshow { active: false, ..*old(self) }),
    {
        self.active = false;
    }

    /// Starts the slideshow if it does not run, and stops it if it does.
    pub fn toggle(&mut self, now: i64)
        ensures
            *final(self) == switched(*old(self), !old(self).active, now),
    {
        if self.active {
            self.stop();
        } else {
            self.start(now);
        }
    }

    /// Sets the time for which a file is shown.
    pub fn set_interval(&mut self, tenths: u16)
        ensures
            *final(self) == with_interval(*old(self), tenths as int),
            final(self).wf(),
    {
        self.tenths = clamp_tenths(tenths as i32);
    }

    /// Shows files for a tenth of a second longer, or shorter.
    pub fn adjust(&mut self, longer: bool)
        ensures
            *final(self) == with_interval(
                *old(self),
                old(self).tenths + if longer {
                    1
                } else {
                    -1
                },
            ),
            final(self).wf(),
    {
        let step: i32 = if longer {
            1
        } else {
            -1
        };
        self.tenths = clamp_tenths(self.tenths as i32 + step);
    }

    /// Lets the time begin anew, because another file was chosen.
    pub fn restart(&mut self, now: i64)
        ensures
            *final(self) == (Slideshow { last_advance: now, end_handled: false, ..*old(self) }),
    {
        self.last_advance = now;
        self.end_handled = false;
    }

    /// Whether it is time to move on to the next file.
    pub fn tick(&mut self, video: VideoStatus, now: i64) -> (advance: bool)
        ensures
            (*final(self), advance) == ticked(*old(self), video, now),
    {
        let advance = self.active && match video {
            VideoStatus::Absent => now as i128 - self.last_advance as i128 >= self.tenths as i128
                * 100_000,
            VideoStatus::Running => false,
            VideoStatus::Ended => !self.end_handled,
        };
        self.end_handled = match video {
            VideoStatus::Ended => self.end_handled || advance,
            _ => false,
        };
        if advance {
            self.last_advance = now;
        }
        advance
    }

    /// How long it takes until the time for the current file is up, and at least until the
    /// screen is drawn again.
    pub fn time_left(&self, now: i64) -> (r: i64)
        requires
            self.wf(),
        ensures
            r == left_to_wait(*self, now),
    {
        let left: i128 = self.tenths as i128 * 100_000 - elapsed_micros(self.last_advance, now);
        if left > MIN_WAIT as i128 {
            left as i64
        } else {
            MIN_WAIT
        }
    }
}

/// The interval can always be set, whatever happens to the slideshow; and a longer one made
/// shorter again is what it was, as is a shorter one made longer, short of the ends of the range.
pub proof fn lemma_interval_in_range(s: Slideshow, tenths: int, video: VideoStatus, now: i64)
    requires
        s.wf(),
    ensures
        MIN_TENTHS <= clamped_tenths(tenths) <= MAX_TENTHS,
        s.tenths < MAX_TENTHS ==> clamped_tenths(clamped_tenths(s.tenths + 1) - 1) == s.tenths,
        s.tenths > MIN_TENTHS ==> clamped_tenths(clamped_tenths(s.tenths - 1) + 1) == s.tenths,
        ticked(s, video, now).0.wf(),
{
}

/// What `n` ticks at the given times come to, while the video that is shown has ended.
pub open spec fn ticks_at_end(s: Slideshow, times: Seq<i64>) -> (Slideshow, nat)
    decreases times.len(),
{
    if times.len() == 0 {
        (s, 0)
    } else {
        let (before, count) = ticks_at_end(s, times.drop_last());
        let (after, advances) = ticked(before, VideoStatus::Ended, times.last());
        (
            after,
            if advances {
                count + 1
            } else {
                count
            },
        )
    }
}

/// A slideshow that runs moves on exactly once for the end of a video, however often it is
/// asked.
pub proof fn lemma_end_advances_once(s: Slideshow, times: Seq<i64>)
    requires
        s.active,
        !s.end_handled,
        times.len() > 0,
    ensures
        ticks_at_end(s, times).1 == 1,
        ticks_at_end(s, times).0.end_handled,
        ticks_at_end(s, times).0.active,
    decreases times.len(),
{
    let front = times.drop_last();
    if front.len() > 0 {
        lemma_end_advances_once(s, front);
    } else {
        assert(ticks_at_end(s, front) == (s, 0nat));
    }
}

/// While a video runs, the time for a file plays no part; and a slideshow that is off never moves
/// on.
pub proof fn lemma_no_advance(s: Slideshow, video: VideoStatus, now: i64)
    requires
        video is Running || !s.active,
    ensures
        !ticked(s, video, now).1,
{
}

/// After another file was chosen at `chosen`, no timer moves on before the whole interval has
/// passed, and from then on it does.
pub proof fn lemma_choice_restarts_timer(s: Slideshow, chosen: i64, now: i64)
    requires
        s.active,
    ensures
        ({
            let restarted = Slideshow { last_advance: chosen, end_handled: false, ..s };
            ticked(restarted, VideoStatus::Absent, now).1 <==> now - chosen >= s.interval()
        }),
{
}

} // verus!
