//! Video playback: which frame is shown when, and the clock that decides it.
//!
//! All times are whole microseconds. Decoding, the audio device and the wall clock belong to the
//! caller, who hands in what has been decoded so far and what time it is.

use std::collections::VecDeque;
use vstd::prelude::*;

verus! {

use crate::media_time::{clamp_micros, clamped, elapsed, elapsed_micros};

/// A decoded frame and the time at which it is shown.
pub struct VideoFrame {
    pub rgba: Vec<u8>,
    pub width: u32,
    pub height: u32,
    pub pts: i64,
}

/// Whether a video plays.
#[derive(Clone, Copy, Debug, PartialEq, Eq, Structural)]
pub enum PlaybackState {
    Playing,
    Paused,
    Finished,
}

/// Why a seek was refused.
#[derive(Clone, Copy, Debug, PartialEq, Eq, Structural)]
pub enum SeekResult {
    BeforeStart,
    PastEnd,
}

/// The frames that the decoder has handed over and that have not been taken, and whether it has
/// come to its end.
pub struct FrameFeed {
    pub frames: VecDeque<VideoFrame>,
    pub disconnected: bool,
}

/// How many frames are gathered before playback starts.
pub const PREBUFFER_FRAMES: usize = 8;

/// How long, at most, frames are gathered after the first one.
pub const PREBUFFER_TIMEOUT: i64 = 2_000_000;

/// How far the wall clock may run ahead of the audio clock before it is preferred.
pub const AUDIO_CLOCK_TOLERANCE: i64 = 500_000;

/// The loudest volume, in percent.
pub const MAX_VOLUME: u16 = 200;

/// A video and where its playback stands.
pub struct VideoPlayer {
    pub state: PlaybackState,
    /// The length of the video; not positive where it is not known.
    pub duration: i64,
    pub video_size: [u32; 2],
    pub diag_info: String,
    pub has_audio: bool,
    pub volume: u16,
    /// Whether decoding runs.
    pub session: bool,
    /// Whether the audio output is held back.
    pub audio_paused: bool,
    pub current_frame: Option<VideoFrame>,
    pub buffered_frame: Option<VideoFrame>,
    pub prebuffer_queue: VecDeque<VideoFrame>,
    pub awaiting_first_frame: bool,
    pub prebuffer_deadline: Option<i64>,
    pub playback_start: i64,
    pub playback_start_pts: i64,
    pub paused_elapsed: i64,
}

/// What showing frames reads and changes of a player and its feed.
#[verifier::ext_equal]
pub struct Showing {
    pub state: PlaybackState,
    pub audio_paused: bool,
    pub current: Option<VideoFrame>,
    pub buffered: Option<VideoFrame>,
    pub queue: Seq<VideoFrame>,
    pub feed: Seq<VideoFrame>,
    pub awaiting: bool,
    pub deadline: Option<i64>,
    pub start: i64,
    pub start_pts: i64,
    pub paused_elapsed: i64,
}

/// A sequence of the frame, if there is one.
pub open spec fn as_seq(f: Option<VideoFrame>) -> Seq<VideoFrame> {
    match f {
        Some(frame) => seq![frame],
        None => Seq::empty(),
    }
}

/// How many frames at the head of `frames` are due at `clock`.
pub open spec fn due_count(frames: Seq<VideoFrame>, clock: int) -> nat
    decreases frames.len(),
{
    if frames.len() == 0 || frames[0].pts > clock {
        0
    } else {
        1 + due_count(frames.drop_first(), clock)
    }
}

/// The frames that are there but not yet shown, in order.
pub open spec fn waiting(s: Showing, session: bool) -> Seq<VideoFrame> {
    as_seq(s.buffered) + s.queue + if session {
        s.feed
    } else {
        Seq::empty()
    }
}

/// What is shown at `clock`: the last of the waiting frames that are due. The frame after it is
/// held in readiness. Where none is left and the decoder has come to its end, so has the video.
pub open spec fn advanced(s: Showing, session: bool, disconnected: bool, clock: int) -> Showing {
    let frames = waiting(s, session);
    let n = due_count(frames, clock) as int;
    let near = as_seq(s.buffered).len() + s.queue.len();
    Showing {
        state: if n == frames.len() && session && disconnected {
            PlaybackState::Finished
        } else {
            s.state
        },
        current: if n > 0 {
            Some(frames[n - 1])
        } else {
            s.current
        },
        buffered: if n < frames.len() {
            Some(frames[n])
        } else {
            None
        },
        queue: if n < near {
            (as_seq(s.buffered) + s.queue).skip(n + 1)
        } else {
            Seq::empty()
        },
        feed: if n < near || !session {
            s.feed
        } else if n < frames.len() {
            frames.skip(n + 1)
        } else {
            Seq::empty()
        },
        ..s
    }
}

/// What gathering frames comes to: all frames of the feed join the queue, and the time to gather
/// more begins to run with the first of them.
pub open spec fn gathered(s: Showing, session: bool, now: i64) -> Showing {
    let queue = if session {
        s.queue + s.feed
    } else {
        s.queue
    };
    Showing {
        queue,
        feed: if session {
            Seq::empty()
        } else {
            s.feed
        },
        deadline: if queue.len() > 0 && s.deadline is None {
            Some(clamped(now + PREBUFFER_TIMEOUT) as i64)
        } else {
            s.deadline
        },
        ..s
    }
}

/// Whether enough frames have been gathered, or the time to gather them is up.
pub open spec fn is_ready(s: Showing, now: i64) -> bool {
    s.deadline is Some && (s.queue.len() >= PREBUFFER_FRAMES || now >= s.deadline->0)
}

/// How playback starts once frames have been gathered: at the first of them, with the audio.
pub open spec fn started(s: Showing, session: bool, now: i64) -> Showing {
    Showing {
        awaiting: false,
        deadline: None,
        start_pts: if s.queue.len() > 0 {
            s.queue[0].pts
        } else {
            s.start_pts
        },
        start: now,
        paused_elapsed: 0,
        audio_paused: if session {
            false
        } else {
            s.audio_paused
        },
        current: if s.queue.len() > 0 {
            Some(s.queue[0])
        } else {
            None
        },
        buffered: if s.queue.len() > 1 {
            Some(s.queue[1])
        } else {
            None
        },
        queue: if s.queue.len() > 2 {
            s.queue.skip(2)
        } else {
            Seq::empty()
        },
        ..s
    }
}

/// The time by the wall clock.
pub open spec fn wall_time(s: Showing, now: i64) -> int {
    clamped(s.paused_elapsed + elapsed(s.start, now) + s.start_pts)
}

/// The time in the video: by the audio, if it is heard and the wall clock has not run far ahead
/// of it; else by the wall clock.
pub open spec fn video_time(s: Showing, audible: bool, audio: Option<i64>, now: i64) -> int {
    let wall = wall_time(s, now);
    if audible && audio is Some && wall - audio->0 < AUDIO_CLOCK_TOLERANCE {
        audio->0 as int
    } else {
        wall
    }
}

/// What polling for a frame changes, and whether it comes to a frame to show.
pub open spec fn polled(
    s: Showing,
    session: bool,
    has_audio: bool,
    disconnected: bool,
    audio: Option<i64>,
    av_offset: i64,
    now: i64,
) -> (Showing, bool) {
    let audible = session && has_audio;
    if s.state !is Playing {
        (s, true)
    } else if !s.awaiting {
        let clock = clamped(video_time(s, audible, audio, now) + av_offset);
        (advanced(s, session, disconnected, clock), true)
    } else {
        let g = gathered(s, session, now);
        let ended = session && disconnected;
        if ended && g.queue.len() == 0 {
            (Showing { state: PlaybackState::Finished, ..g }, false)
        } else if is_ready(g, now) || ended {
            let b = started(g, session, now);
            let clock = clamped(video_time(b, audible, audio, now) + av_offset);
            (advanced(b, session, disconnected, clock), true)
        } else {
            (g, false)
        }
    }
}

/// What pausing a video that plays, or playing on one that is paused, changes: the time that it has
/// played so far is kept, and counted on from `now`; the audio stops and starts with it.
pub open spec fn toggled(s: Showing, session: bool, now: i64) -> Showing {
    match s.state {
        PlaybackState::Playing => Showing {
            state: PlaybackState::Paused,
            audio_paused: session || s.audio_paused,
            paused_elapsed: clamped(s.paused_elapsed + elapsed(s.start, now)) as i64,
            ..s
        },
        PlaybackState::Paused => Showing {
            state: PlaybackState::Playing,
            audio_paused: !session && s.audio_paused,
            start: now,
            ..s
        },
        PlaybackState::Finished => s,
    }
}

/// What is known of a video before it is played.
pub struct MediaInfo {
    pub duration: i64,
    pub video_size: [u32; 2],
    pub diag_info: String,
    pub has_audio: bool,
}

/// Moving the head of the queue to the place of the frame held in readiness changes nothing.
proof fn lemma_take_queued(s: Showing, session: bool, disconnected: bool, clock: int)
    requires
        s.buffered is None,
        s.queue.len() > 0,
    ensures
        ({
            let t = Showing { buffered: Some(s.queue[0]), queue: s.queue.skip(1), ..s };
            advanced(t, session, disconnected, clock) == advanced(s, session, disconnected, clock)
        }),
{
    let t = Showing { buffered: Some(s.queue[0]), queue: s.queue.skip(1), ..s };
    assert(as_seq(t.buffered) + t.queue =~= as_seq(s.buffered) + s.queue);
    assert(waiting(t, session) =~= waiting(s, session));
}

/// Showing a frame that is due changes nothing of what is shown in the end.
proof fn lemma_show_buffered(s: Showing, session: bool, disconnected: bool, clock: int)
    requires
        s.buffered is Some,
        s.buffered->0.pts <= clock,
    ensures
        ({
            let t = Showing { current: s.buffered, buffered: None, ..s };
            advanced(t, session, disconnected, clock) == advanced(s, session, disconnected, clock)
        }),
{
    let t = Showing { current: s.buffered, buffered: None, ..s };
    let all = waiting(s, session);
    let rest = waiting(t, session);
    assert(all.drop_first() =~= rest);
    assert(all[0] == s.buffered->0);
    let n = due_count(rest, clock) as int;
    lemma_due_count(rest, clock);
    assert(due_count(all, clock) == n + 1);
    assert((as_seq(s.buffered) + s.queue).drop_first() =~= as_seq(t.buffered) + t.queue);
    let a = advanced(s, session, disconnected, clock);
    let b = advanced(t, session, disconnected, clock);
    assert(a.queue =~= b.queue);
    assert(a.feed =~= b.feed);
    assert(a.current == b.current);
    assert(a.buffered == b.buffered);
}

/// Showing a frame straight from the feed changes nothing of what is shown in the end.
proof fn lemma_show_fed(s: Showing, disconnected: bool, clock: int)
    requires
        s.buffered is None,
        s.queue.len() == 0,
        s.feed.len() > 0,
        s.feed[0].pts <= clock,
    ensures
        ({
            let t = Showing { current: Some(s.feed[0]), feed: s.feed.skip(1), ..s };
            advanced(t, true, disconnected, clock) == advanced(s, true, disconnected, clock)
        }),
{
    let t = Showing { current: Some(s.feed[0]), feed: s.feed.skip(1), ..s };
    let all = waiting(s, true);
    let rest = waiting(t, true);
    assert(all =~= s.feed);
    assert(rest =~= s.feed.skip(1));
    assert(all.drop_first() =~= rest);
    lemma_due_count(rest, clock);
    let a = advanced(s, true, disconnected, clock);
    let b = advanced(t, true, disconnected, clock);
    assert(a.queue =~= b.queue);
    assert(a.feed =~= b.feed);
    assert(a.current == b.current);
    assert(a.buffered == b.buffered);
}

/// While the frame held in readiness is ahead of the clock, all stays as it is.
proof fn lemma_hold_buffered(s: Showing, session: bool, disconnected: bool, clock: int)
    requires
        s.buffered is Some,
        s.buffered->0.pts > clock,
    ensures
        advanced(s, session, disconnected, clock) == s,
{
    let all = waiting(s, session);
    assert(all[0] == s.buffered->0);
    assert((as_seq(s.buffered) + s.queue).skip(1) =~= s.queue);
    assert(advanced(s, session, disconnected, clock) =~= s);
}

/// A frame of the feed that is ahead of the clock is held in readiness.
proof fn lemma_hold_fed(s: Showing, disconnected: bool, clock: int)
    requires
        s.buffered is None,
        s.queue.len() == 0,
        s.feed.len() > 0,
        s.feed[0].pts > clock,
    ensures
        advanced(s, true, disconnected, clock) == (Showing {
            buffered: Some(s.feed[0]),
            feed: s.feed.skip(1),
            ..s
        }),
{
    assert(waiting(s, true) =~= s.feed);
    assert(s.queue =~= Seq::empty());
}

/// Where no frame waits, a video whose decoder has come to its end is over.
proof fn lemma_none_waiting(s: Showing, session: bool, disconnected: bool, clock: int)
    requires
        s.buffered is None,
        s.queue.len() == 0,
        session ==> s.feed.len() == 0,
    ensures
        advanced(s, session, disconnected, clock) == (Showing {
            state: if session && disconnected {
                PlaybackState::Finished
            } else {
                s.state
            },
            ..s
        }),
{
    assert(waiting(s, session) =~= Seq::empty());
    assert(s.queue =~= Seq::empty());
    assert(session ==> s.feed =~= Seq::empty());
}

/// The due frames are the longest run at the head in which every frame is due.
pub proof fn lemma_due_count(frames: Seq<VideoFrame>, clock: int)
    ensures
        due_count(frames, clock) <= frames.len(),
        forall|i: int| 0 <= i < due_count(frames, clock) ==> frames[i].pts <= clock,
        due_count(frames, clock) < frames.len() ==> frames[due_count(frames, clock) as int].pts
            > clock,
    decreases frames.len(),
{
    if frames.len() > 0 && frames[0].pts <= clock {
        let rest = frames.drop_first();
        lemma_due_count(rest, clock);
        assert forall|i: int| 0 <= i < due_count(frames, clock) implies frames[i].pts <= clock by {
            if i > 0 {
                assert(rest[i - 1] == frames[i]);
            }
        }
    }
}

impl VideoPlayer {
    /// What showing frames reads and changes, with the frames that `feed` holds.
    pub open spec fn showing(&self, feed: Seq<VideoFrame>) -> Showing {
        Showing {
            state: self.state,
            audio_paused: self.audio_paused,
            current: self.current_frame,
            buffered: self.buffered_frame,
            queue: self.prebuffer_queue@,
            feed,
            awaiting: self.awaiting_first_frame,
            deadline: self.prebuffer_deadline,
            start: self.playback_start,
            start_pts: self.playback_start_pts,
            paused_elapsed: self.paused_elapsed,
        }
    }

    /// The player differs from `other` at most in what showing frames changes.
    pub open spec fn same_video(&self, other: &VideoPlayer) -> bool {
        &&& self.duration == other.duration
        &&& self.video_size == other.video_size
        &&& self.diag_info@ == other.diag_info@
        &&& self.has_audio == other.has_audio
        &&& self.volume == other.volume
    }

    /// The volume is one that can be set.
    pub open spec fn wf(&self) -> bool {
        self.volume <= MAX_VOLUME
    }

    /// How many steps are left at most until nothing more is due.
    spec fn steps_left(&self, feed: Seq<VideoFrame>) -> nat {
        as_seq(self.buffered_frame).len() + 2 * self.prebuffer_queue@.len() + feed.len()
    }

    /// Shows the frame that is next in turn, if it is due, and says whether another may be.
    fn show_next(&mut self, feed: &mut FrameFeed, clock: i64) -> (more: bool)
        ensures
            more ==> advanced(
                final(self).showing(final(feed).frames@),
                old(self).session,
                old(feed).disconnected,
                clock as int,
            ) == advanced(
                old(self).showing(old(feed).frames@),
                old(self).session,
                old(feed).disconnected,
                clock as int,
            ),
            more ==> final(self).steps_left(final(feed).frames@) < old(self).steps_left(
                old(feed).frames@,
            ),
            !more ==> final(self).showing(final(feed).frames@) == advanced(
                old(self).showing(old(feed).frames@),
                old(self).session,
                old(feed).disconnected,
                clock as int,
            ),
            !more ==> final(self).steps_left(final(feed).frames@) <= old(self).steps_left(
                old(feed).frames@,
            ),
            final(self).same_video(old(self)),
            final(self).session == old(self).session,
            final(feed).disconnected == old(feed).disconnected,
    {
        let ghost s0 = self.showing(feed.frames@);
        if self.buffered_frame.is_none() {
            if let Some(queued) = self.prebuffer_queue.pop_front() {
                self.buffered_frame = Some(queued);
                proof {
                    lemma_take_queued(s0, self.session, feed.disconnected, clock as int);
                    assert(s0.queue.subrange(1, s0.queue.len() as int) =~= s0.queue.skip(1));
                }
            }
        }
        let ghost s1 = self.showing(feed.frames@);
        let held: Option<i64> = match &self.buffered_frame {
            Some(f) => Some(f.pts),
            None => None,
        };
        if let Some(pts) = held {
            if pts <= clock {
                let shown = self.buffered_frame.take();
                self.current_frame = shown;
                proof {
                    lemma_show_buffered(s1, self.session, feed.disconnected, clock as int);
                }
                return true;
            } else {
                proof {
                    lemma_hold_buffered(s1, self.session, feed.disconnected, clock as int);
                }
                return false;
            }
        }
        if !self.session {
            proof {
                lemma_none_waiting(s1, false, feed.disconnected, clock as int);
            }
            return false;
        }
        match feed.frames.pop_front() {
            Some(frame) => {
                assert(s1.feed.subrange(1, s1.feed.len() as int) =~= s1.feed.skip(1));
                if frame.pts <= clock {
                    proof {
                        lemma_show_fed(s1, feed.disconnected, clock as int);
                    }
                    self.current_frame = Some(frame);
                    true
                } else {
                    proof {
                        lemma_hold_fed(s1, feed.disconnected, clock as int);
                    }
                    self.buffered_frame = Some(frame);
                    false
                }
            },
            None => {
                proof {
                    lemma_none_waiting(s1, true, feed.disconnected, clock as int);
                }
                if feed.disconnected {
                    self.state = PlaybackState::Finished;
                }
                false
            },
        }
    }

    /// Shows what is due at `clock`, and finds out whether the video has come to its end.
    fn show_due(&mut self, feed: &mut FrameFeed, clock: i64)
        ensures
            final(self).showing(final(feed).frames@) == advanced(
                old(self).showing(old(feed).frames@),
                old(self).session,
                old(feed).disconnected,
                clock as int,
            ),
            final(self).same_video(old(self)),
            final(self).session == old(self).session,
            final(feed).disconnected == old(feed).disconnected,
    {
        let mut more: bool = true;
        let ghost goal = advanced(
            self.showing(feed.frames@),
            self.session,
            feed.disconnected,
            clock as int,
        );
        while more
            invariant
                self.same_video(old(self)),
                self.session == old(self).session,
                feed.disconnected == old(feed).disconnected,
                more ==> advanced(
                    self.showing(feed.frames@),
                    self.session,
                    feed.disconnected,
                    clock as int,
                ) == goal,
                !more ==> self.showing(feed.frames@) == goal,
            decreases
                self.steps_left(feed.frames@),
                if more {
                    1int
                } else {
                    0int
                },
        {
            more = self.show_next(feed, clock);
        }
    }

    /// Lets the time to gather frames begin to run, if it does not run yet.
    fn begin_prebuffer(&mut self, now: i64)
        ensures
            final(self).showing(Seq::empty()) == (Showing {
                deadline: if old(self).prebuffer_deadline is None {
                    Some(clamped(now + PREBUFFER_TIMEOUT) as i64)
                } else {
                    old(self).prebuffer_deadline
                },
                ..old(self).showing(Seq::empty())
            }),
            final(self).same_video(old(self)),
            final(self).session == old(self).session,
    {
        if self.prebuffer_deadline.is_some() {
            return;
        }
        self.prebuffer_deadline = Some(clamp_micros(now as i128 + PREBUFFER_TIMEOUT as i128));
    }

    /// Whether enough frames have been gathered, or the time to gather them is up.
    fn prebuffer_ready(&self, now: i64) -> (r: bool)
        ensures
            r == is_ready(self.showing(Seq::empty()), now),
    {
        match self.prebuffer_deadline {
            Some(deadline) => self.prebuffer_queue.len() >= PREBUFFER_FRAMES || now >= deadline,
            None => false,
        }
    }

    /// Starts playback at the first of the gathered frames.
    fn finish_prebuffer(&mut self, now: i64)
        ensures
            final(self).showing(Seq::empty()) == (Showing {
                current: old(self).current_frame,
                buffered: old(self).buffered_frame,
                queue: old(self).prebuffer_queue@,
                ..started(old(self).showing(Seq::empty()), old(self).session, now)
            }),
            final(self).same_video(old(self)),
            final(self).session == old(self).session,
    {
        self.awaiting_first_frame = false;
        self.prebuffer_deadline = None;
        if self.prebuffer_queue.len() > 0 {
            self.playback_start_pts = self.prebuffer_queue[0].pts;
        }
        self.playback_start = now;
        self.paused_elapsed = 0;
        if self.session {
            self.audio_paused = false;
        }
    }

    /// The time by the wall clock.
    fn wall_clock(&self, now: i64) -> (r: i64)
        ensures
            r == wall_time(self.showing(Seq::empty()), now),
    {
        clamp_micros(
            self.paused_elapsed as i128 + elapsed_micros(self.playback_start, now)
                + self.playback_start_pts as i128,
        )
    }

    /// The time in the video, by the audio clock's reading `audio` or by the wall clock.
    fn clock(&self, audio: Option<i64>, now: i64) -> (r: i64)
        ensures
            r == video_time(
                self.showing(Seq::empty()),
                self.session && self.has_audio,
                audio,
                now,
            ),
    {
        if self.session && self.has_audio {
            if let Some(apts) = audio {
                let wall: i64 = self.wall_clock(now);
                if (wall as i128 - apts as i128) < AUDIO_CLOCK_TOLERANCE as i128 {
                    return apts;
                }
            }
        }
        self.wall_clock(now)
    }

    /// The frame to show at `now`, if there is one. Frames are first gathered; then each one is
    /// shown when its time has come, and the latest of those that are due at once.
    pub fn poll_frame(
        &mut self,
        feed: &mut FrameFeed,
        audio: Option<i64>,
        av_offset: i64,
        now: i64,
    ) -> (r: Option<&VideoFrame>)
        ensures
            ({
                let (after, comes_to_frame) = polled(
                    old(self).showing(old(feed).frames@),
                    old(self).session,
                    old(self).has_audio,
                    old(feed).disconnected,
                    audio,
                    av_offset,
                    now,
                );
                &&& final(self).showing(final(feed).frames@) == after
                &&& match r {
                    Some(f) => comes_to_frame && after.current == Some(*f),
                    None => !comes_to_frame || after.current is None,
                }
            }),
            final(self).same_video(old(self)),
            final(self).session == old(self).session,
            final(feed).disconnected == old(feed).disconnected,
    {
        match self.state {
            PlaybackState::Playing => {},
            _ => {
                return self.current_frame.as_ref();
            },
        }
        let ghost s0 = self.showing(feed.frames@);
        if self.awaiting_first_frame {
            let mut disconnected: bool = false;
            if self.session {
                self.prebuffer_queue.append(&mut feed.frames);
                disconnected = feed.disconnected;
            }
            if disconnected && self.prebuffer_queue.len() == 0 {
                self.state = PlaybackState::Finished;
                return None;
            }
            if self.prebuffer_queue.len() > 0 {
                self.begin_prebuffer(now);
            }
            let ghost g = self.showing(feed.frames@);
            assert(g == gathered(s0, self.session, now));
            if self.prebuffer_ready(now) || disconnected {
                self.finish_prebuffer(now);
                self.current_frame = self.prebuffer_queue.pop_front();
                self.buffered_frame = self.prebuffer_queue.pop_front();
                assert(self.showing(feed.frames@) == started(g, self.session, now));
            } else {
                return None;
            }
        }
        let clock: i64 = clamp_micros(self.clock(audio, now) as i128 + av_offset as i128);
        self.show_due(feed, clock);
        self.current_frame.as_ref()
    }

    /// Whether frames are still gathered before playback starts.
    pub fn is_buffering(&self) -> (r: bool)
        ensures
            r == self.awaiting_first_frame,
    {
        self.awaiting_first_frame
    }

    /// Where playback stands: where it will start, or at the frame that is shown, or by the clock.
    pub open spec fn position(&self, audio: Option<i64>, now: i64) -> int {
        if self.awaiting_first_frame {
            self.playback_start_pts as int
        } else if self.current_frame is Some {
            self.current_frame->0.pts as int
        } else {
            video_time(
                self.showing(Seq::empty()),
                self.session && self.has_audio,
                audio,
                now,
            )
        }
    }

    /// Where playback stands.
    pub fn current_pts(&self, audio: Option<i64>, now: i64) -> (r: i64)
        ensures
            r == self.position(audio, now),
    {
        if self.awaiting_first_frame {
            return self.playback_start_pts;
        }
        match &self.current_frame {
            Some(frame) => frame.pts,
            None => self.clock(audio, now),
        }
    }

    /// Playback has just begun at `position`, with decoding if it could be `opened`; without it,
    /// it is over.
    pub open spec fn has_begun(&self, position: i64, now: i64, opened: bool) -> bool {
        &&& self.showing(Seq::empty()) == (Showing {
            state: if opened {
                PlaybackState::Playing
            } else {
                PlaybackState::Finished
            },
            audio_paused: true,
            current: None,
            buffered: None,
            queue: Seq::empty(),
            feed: Seq::empty(),
            awaiting: true,
            deadline: None,
            start: now,
            start_pts: position,
            paused_elapsed: 0,
        })
        &&& self.session == opened
    }

    /// Begins playback of a video of which `probe` is known, if it could be read at all.
    pub fn open(probe: Result<MediaInfo, String>, now: i64, opened: bool) -> (r: Result<
        VideoPlayer,
        String,
    >)
        ensures
            match (probe, r) {
                (Ok(info), Ok(player)) => {
                    &&& player.has_begun(0, now, opened)
                    &&& player.wf()
                    &&& player.duration == info.duration
                    &&& player.video_size == info.video_size
                    &&& player.diag_info == info.diag_info
                    &&& player.has_audio == info.has_audio
                    &&& player.volume == 100
                },
                (Err(e), Err(f)) => f == e,
                _ => false,
            },
    {
        let info = match probe {
            Ok(info) => info,
            Err(e) => {
                return Err(e);
            },
        };
        let mut player = VideoPlayer {
            state: PlaybackState::Playing,
            duration: info.duration,
            video_size: info.video_size,
            diag_info: info.diag_info,
            has_audio: info.has_audio,
            volume: 100,
            session: false,
            audio_paused: true,
            current_frame: None,
            buffered_frame: None,
            prebuffer_queue: VecDeque::new(),
            awaiting_first_frame: true,
            prebuffer_deadline: None,
            playback_start: now,
            playback_start_pts: 0,
            paused_elapsed: 0,
        };
        player.play_from(0, now, opened);
        Ok(player)
    }

    /// Begins playback anew at `position`.
    pub fn play_from(&mut self, position: i64, now: i64, opened: bool)
        ensures
            final(self).has_begun(position, now, opened),
            final(self).duration == old(self).duration,
            final(self).video_size == old(self).video_size,
            final(self).diag_info == old(self).diag_info,
            final(self).has_audio == old(self).has_audio,
            final(self).volume == old(self).volume,
    {
        self.audio_paused = true;
        self.current_frame = None;
        self.buffered_frame = None;
        self.prebuffer_queue.clear();
        self.awaiting_first_frame = true;
        self.prebuffer_deadline = None;
        self.playback_start = now;
        self.playback_start_pts = position;
        self.paused_elapsed = 0;
        self.state = PlaybackState::Playing;
        self.session = opened;
        if !opened {
            self.state = PlaybackState::Finished;
        }
        assert(self.prebuffer_queue@ =~= Seq::empty());
    }

    /// Why there can be no seek to `target`, if there cannot.
    pub open spec fn seek_refusal(&self, target: i64) -> Option<SeekResult> {
        if target < 0 {
            Some(SeekResult::BeforeStart)
        } else if target >= self.duration && self.duration > 0 {
            Some(SeekResult::PastEnd)
        } else {
            None
        }
    }

    /// Whether a seek to `target` can be made.
    pub fn check_seek(&self, target: i64) -> (r: Result<(), SeekResult>)
        ensures
            match r {
                Ok(_) => self.seek_refusal(target) is None,
                Err(e) => self.seek_refusal(target) == Some(e),
            },
    {
        if target < 0 {
            return Err(SeekResult::BeforeStart);
        }
        if target >= self.duration && self.duration > 0 {
            return Err(SeekResult::PastEnd);
        }
        Ok(())
    }

    /// Plays on from `target`, unless it lies before the start or past the end.
    pub fn seek(&mut self, target: i64, now: i64, opened: bool) -> (r: Result<(), SeekResult>)
        ensures
            match r {
                Ok(_) => {
                    &&& old(self).seek_refusal(target) is None
                    &&& final(self).has_begun(target, now, opened)
                    &&& final(self).same_video(old(self))
                },
                Err(e) => {
                    &&& old(self).seek_refusal(target) == Some(e)
                    &&& *final(self) == *old(self)
                },
            },
    {
        match self.check_seek(target) {
            Ok(_) => {},
            Err(e) => {
                return Err(e);
            },
        }
        self.play_from(target, now, opened);
        Ok(())
    }

    /// Pauses a playing video, plays a paused one on, and begins a finished one anew; `opened`
    /// says whether decoding could be started for the last.
    pub fn toggle_pause(&mut self, now: i64, opened: bool)
        ensures
            match old(self).state {
                PlaybackState::Playing | PlaybackState::Paused => {
                    &&& final(self).showing(Seq::empty()) == toggled(
                        old(self).showing(Seq::empty()),
                        old(self).session,
                        now,
                    )
                    &&& final(self).session == old(self).session
                },
                PlaybackState::Finished => final(self).has_begun(0, now, opened),
            },
            final(self).same_video(old(self)),
    {
        match self.state {
            PlaybackState::Playing => {
                self.state = PlaybackState::Paused;
                if self.session {
                    self.audio_paused = true;
                }
                self.paused_elapsed = clamp_micros(
                    self.paused_elapsed as i128 + elapsed_micros(self.playback_start, now),
                );
            },
            PlaybackState::Paused => {
                self.state = PlaybackState::Playing;
                if self.session {
                    self.audio_paused = false;
                }
                self.playback_start = now;
            },
            PlaybackState::Finished => {
                self.play_from(0, now, opened);
            },
        }
    }

    /// The volume, in percent.
    pub fn volume(&self) -> (r: u16)
        ensures
            r == self.volume,
    {
        self.volume
    }

    /// Sets the volume, to the loudest one at most.
    pub fn set_volume(&mut self, vol: u16)
        ensures
            *final(self) == (VideoPlayer {
                volume: if vol < MAX_VOLUME {
                    vol
                } else {
                    MAX_VOLUME
                },
                ..*old(self)
            }),
            final(self).wf(),
    {
        self.volume = if vol < MAX_VOLUME {
            vol
        } else {
            MAX_VOLUME
        };
    }

    /// Ends playback.
    pub fn stop(&mut self)
        ensures
            *final(self) == (VideoPlayer {
                state: PlaybackState::Finished,
                session: false,
                ..*old(self)
            }),
    {
        self.session = false;
        self.state = PlaybackState::Finished;
    }
}

/// No frame is lost, repeated or shown out of turn: what is left after showing what is due at
/// `clock` are the frames that were waiting, without those that were due, in their order.
pub proof fn lemma_frames_keep_order(s: Showing, disconnected: bool, clock: int)
    ensures
        ({
            let after = advanced(s, true, disconnected, clock);
            waiting(after, true) == waiting(s, true).skip(due_count(waiting(s, true), clock) as int)
        }),
{
    let frames = waiting(s, true);
    let n = due_count(frames, clock) as int;
    let after = advanced(s, true, disconnected, clock);
    lemma_due_count(frames, clock);
    assert(waiting(after, true) =~= frames.skip(n));
}

/// The frame that is shown is never ahead of the clock once frames have been due, every frame
/// that waits behind it is, and a video ends only when no frame is left.
pub proof fn lemma_frame_is_timely(s: Showing, session: bool, disconnected: bool, clock: int)
    requires
        s.state is Playing,
    ensures
        ({
            let after = advanced(s, session, disconnected, clock);
            &&& due_count(waiting(s, session), clock) > 0 ==> after.current is Some
                && after.current->0.pts <= clock
            &&& due_count(waiting(s, session), clock) == 0 ==> after.current == s.current
            &&& waiting(after, session).len() > 0 ==> waiting(after, session)[0].pts > clock
            &&& after.state is Finished <==> session && disconnected && waiting(
                after,
                session,
            ).len() == 0
        }),
{
    let frames = waiting(s, session);
    let n = due_count(frames, clock) as int;
    lemma_due_count(frames, clock);
    let after = advanced(s, session, disconnected, clock);
    assert(waiting(after, session) =~= frames.skip(n));
}

/// Showing what is due a second time at the same clock changes nothing.
pub proof fn lemma_showing_twice(s: Showing, session: bool, disconnected: bool, clock: int)
    ensures
        ({
            let after = advanced(s, session, disconnected, clock);
            advanced(after, session, disconnected, clock) == after
        }),
{
    let frames = waiting(s, session);
    let n = due_count(frames, clock) as int;
    lemma_due_count(frames, clock);
    let after = advanced(s, session, disconnected, clock);
    let left = waiting(after, session);
    assert(left =~= frames.skip(n));
    assert(due_count(left, clock) == 0);
    let again = advanced(after, session, disconnected, clock);
    assert((as_seq(after.buffered) + after.queue).skip(1) =~= after.queue || after.buffered is None);
    assert(again.queue =~= after.queue);
    assert(again.feed =~= after.feed);
}

/// A later clock never takes a frame back: what is due then includes what was due before.
pub proof fn lemma_due_grows(frames: Seq<VideoFrame>, clock: int, later: int)
    requires
        clock <= later,
    ensures
        due_count(frames, clock) <= due_count(frames, later),
    decreases frames.len(),
{
    if frames.len() > 0 && frames[0].pts <= clock {
        lemma_due_grows(frames.drop_first(), clock, later);
    }
}

/// Time stands still while a video is paused: the wall clock goes on, after a pause at `paused`
/// and a resumption at `resumed`, from where it stood at `paused`.
pub proof fn lemma_pause_stops_time(s: Showing, paused: i64, resumed: i64)
    requires
        i64::MIN <= s.paused_elapsed + elapsed(s.start, paused) <= i64::MAX,
    ensures
        ({
            let held = Showing {
                paused_elapsed: clamped(s.paused_elapsed + elapsed(s.start, paused)) as i64,
                ..s
            };
            wall_time(Showing { start: resumed, ..held }, resumed) == wall_time(s, paused)
        }),
{
}

/// Right after playback has begun somewhere, that is where it stands.
pub proof fn lemma_begun_position(
    player: VideoPlayer,
    position: i64,
    now: i64,
    opened: bool,
    audio: Option<i64>,
    later: i64,
)
    requires
        player.has_begun(position, now, opened),
    ensures
        player.position(audio, later) == position,
{
    let shown = player.showing(Seq::empty());
    assert(shown.awaiting && shown.start_pts == position);
}

} // verus!
