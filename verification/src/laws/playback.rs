//! Which frame of a video is shown when, and what is heard.

use vstd::prelude::*;

verus! {

use crate::audio::{counted, device_lag, heard, joined, AudioChunk, AudioClock, AudioSink};
use crate::media_time::{clamped, elapsed};
use crate::video_player::{
    advanced, due_count, lemma_due_count, polled, toggled, video_time, waiting, wall_time,
    PlaybackState, SeekResult, Showing, VideoFrame, VideoPlayer,
};

/// The time since playback began, without the pauses, from where it began.
pub open spec fn wall_position(s: Showing, now: i64) -> int {
    s.start_pts + s.paused_elapsed + if now > s.start {
        now - s.start
    } else {
        0
    }
}

/// The time at which a video has to be: that of the audio, if it is heard and the time that has
/// passed is less than half a second ahead of it; else by the time that has passed.
pub open spec fn due_time(s: Showing, heard: bool, audio: Option<i64>, now: i64) -> int {
    if heard && audio is Some && wall_position(s, now) - audio->0 < 500_000 {
        audio->0 as int
    } else {
        wall_position(s, now)
    }
}

/// The frames that wait to be shown: the one in readiness, the gathered ones, and the ones that
/// have been decoded since, as long as decoding goes on.
pub open spec fn frames_waiting(s: Showing, session: bool) -> Seq<VideoFrame> {
    let ready: Seq<VideoFrame> = match s.buffered {
        Some(f) => seq![f],
        None => Seq::empty(),
    };
    if session {
        ready + s.queue + s.feed
    } else {
        ready + s.queue
    }
}

/// The first `n` of some frames are due at `clock`, and the one after them is not.
pub open spec fn are_due(frames: Seq<VideoFrame>, n: int, clock: int) -> bool {
    &&& 0 <= n <= frames.len()
    &&& forall|i: int| 0 <= i < n ==> (#[trigger] frames[i]).pts <= clock
    &&& n < frames.len() ==> frames[n].pts > clock
}

proof fn lemma_due_is_unique(frames: Seq<VideoFrame>, n: int, clock: int)
    requires
        are_due(frames, n, clock),
    ensures
        due_count(frames, clock) == n,
{
    lemma_due_count(frames, clock);
    let m = due_count(frames, clock) as int;
    if m < n {
        assert(frames[m].pts <= clock);
    }
}

proof fn lemma_advanced(s: Showing, session: bool, disconnected: bool, clock: int, n: int)
    requires
        are_due(frames_waiting(s, session), n, clock),
    ensures
        ({
            let frames = frames_waiting(s, session);
            let after = advanced(s, session, disconnected, clock);
            &&& after.current == if n > 0 {
                Some(frames[n - 1])
            } else {
                s.current
            }
            &&& frames_waiting(after, session) == frames.skip(n)
            &&& after.state == if n == frames.len() && session && disconnected {
                PlaybackState::Finished
            } else {
                s.state
            }
            &&& after.start == s.start && after.start_pts == s.start_pts
            &&& after.paused_elapsed == s.paused_elapsed && after.audio_paused == s.audio_paused
            &&& after.awaiting == s.awaiting && after.deadline == s.deadline
        }),
{
    let frames = frames_waiting(s, session);
    assert(frames =~= waiting(s, session));
    lemma_due_is_unique(frames, n, clock);
    let after = advanced(s, session, disconnected, clock);
    assert(frames_waiting(after, session) =~= frames.skip(n));
}

/// While a video plays, what is on the screen is the last of the waiting frames whose time has come,
/// the audio offset added to the time; all frames before it are passed over, and those after it
/// wait on in their order. Where no frame's time has come, the screen stays. The video ends when no
/// frame is left and none will come.
pub proof fn law_frame_on_screen(
    s: Showing,
    session: bool,
    has_audio: bool,
    disconnected: bool,
    audio: Option<i64>,
    av_offset: i64,
    now: i64,
    n: int,
)
    requires
        s.state is Playing,
        !s.awaiting,
        i64::MIN <= wall_position(s, now) <= i64::MAX,
        i64::MIN <= due_time(s, session && has_audio, audio, now) + av_offset <= i64::MAX,
        are_due(
            frames_waiting(s, session),
            n,
            due_time(s, session && has_audio, audio, now) + av_offset,
        ),
    ensures
        ({
            let frames = frames_waiting(s, session);
            let (after, shows) = polled(
                s,
                session,
                has_audio,
                disconnected,
                audio,
                av_offset,
                now,
            );
            &&& shows
            &&& after.current == if n > 0 {
                Some(frames[n - 1])
            } else {
                s.current
            }
            &&& frames_waiting(after, session) == frames.skip(n)
            &&& after.state is Finished <==> n == frames.len() && session && disconnected
            &&& after.state is Finished || after.state is Playing
            &&& after.start == s.start && after.start_pts == s.start_pts
            &&& after.paused_elapsed == s.paused_elapsed
        }),
{
    let clock = due_time(s, session && has_audio, audio, now) + av_offset;
    assert(video_time(s, session && has_audio, audio, now) == due_time(
        s,
        session && has_audio,
        audio,
        now,
    ));
    lemma_advanced(s, session, disconnected, clock, n);
}

/// A video that does not play keeps the frame that is on the screen, and nothing of it changes.
pub proof fn law_screen_stays(
    s: Showing,
    session: bool,
    has_audio: bool,
    disconnected: bool,
    audio: Option<i64>,
    av_offset: i64,
    now: i64,
)
    requires
        s.state is Paused || s.state is Finished,
    ensures
        polled(s, session, has_audio, disconnected, audio, av_offset, now) == (s, true),
{
}

/// Before playback begins, frames are gathered: until there are eight of them, or two seconds have
/// passed since the first came, or no more will come. As long as that is not so, no frame is shown,
/// and no frame is lost. Where no frame comes at all, the video is over.
pub proof fn law_frames_are_gathered(
    s: Showing,
    has_audio: bool,
    disconnected: bool,
    audio: Option<i64>,
    av_offset: i64,
    now: i64,
)
    requires
        s.state is Playing,
        s.awaiting,
        now <= i64::MAX - 2_000_000,
    ensures
        ({
            let frames = s.queue + s.feed;
            let (after, shows) = polled(s, true, has_audio, disconnected, audio, av_offset, now);
            let until = match s.deadline {
                Some(t) => t,
                None => (now + 2_000_000) as i64,
            };
            let known = frames.len() > 0 || s.deadline is Some;
            let goes = disconnected || (known && (frames.len() >= 8 || now >= until));
            &&& disconnected && frames.len() == 0 ==> !shows && after.state is Finished
            &&& !goes ==> {
                &&& !shows
                &&& after.state is Playing && after.awaiting
                &&& after.queue == frames && after.feed.len() == 0
                &&& after.deadline == if known {
                    Some(until)
                } else {
                    None
                }
                &&& after.current == s.current && after.start_pts == s.start_pts
                &&& after.audio_paused == s.audio_paused
            }
            &&& goes && !(disconnected && frames.len() == 0) ==> {
                &&& shows
                &&& !after.awaiting && after.deadline is None
                &&& after.start == now && after.paused_elapsed == 0
                &&& !after.audio_paused
                &&& frames.len() > 0 ==> after.start_pts == frames[0].pts
            }
        }),
{
}

/// Playback begins with the first frame that was gathered: it is on the screen, unless frames after
/// it are already due, and then the last of those is.
pub proof fn law_first_frame(
    s: Showing,
    disconnected: bool,
    av_offset: i64,
    now: i64,
    n: int,
)
    requires
        s.state is Playing,
        s.awaiting,
        s.buffered is None,
        s.queue.len() + s.feed.len() >= 8,
        i64::MIN <= (s.queue + s.feed)[0].pts + av_offset <= i64::MAX,
        now <= i64::MAX - 2_000_000,
        are_due((s.queue + s.feed).skip(1), n, (s.queue + s.feed)[0].pts + av_offset),
    ensures
        ({
            let frames = s.queue + s.feed;
            let (after, shows) = polled(s, true, false, disconnected, None, av_offset, now);
            &&& shows
            &&& after.current == Some(frames[n])
            &&& frames_waiting(after, true) == frames.skip(n + 1)
        }),
{
    let frames = s.queue + s.feed;
    let g = crate::video_player::gathered(s, true, now);
    let b = crate::video_player::started(g, true, now);
    let clock = frames[0].pts + av_offset;
    assert(g.queue =~= frames);
    assert(frames_waiting(b, true) =~= frames.skip(1));
    assert(b.current == Some(frames[0]));
    assert(wall_time(b, now) == frames[0].pts);
    lemma_advanced(b, true, disconnected, clock, n);
    assert(frames.skip(1).skip(n) =~= frames.skip(n + 1));
    if n > 0 {
        assert(frames.skip(1)[n - 1] == frames[n]);
    }
}

/// A seek is refused before the start, and from the end on where it is known; nowhere else.
pub proof fn law_seek_refusal(player: VideoPlayer, target: i64)
    ensures
        player.seek_refusal(target) == if target < 0 {
            Some(SeekResult::BeforeStart)
        } else if player.duration > 0 && target >= player.duration {
            Some(SeekResult::PastEnd)
        } else {
            None
        },
{
}

/// Playback that has just begun, somewhere, plays, waits for its first frame and stands where it was
/// sent; nothing of what was shown before is left, and the audio is held back until it starts.
pub proof fn law_playback_begins(player: VideoPlayer, position: i64, now: i64, opened: bool)
    requires
        player.has_begun(position, now, opened),
    ensures
        player.state is Playing <==> opened,
        player.state is Finished <==> !opened,
        player.session == opened,
        player.current_frame is None && player.buffered_frame is None,
        player.prebuffer_queue@.len() == 0,
        player.awaiting_first_frame && player.prebuffer_deadline is None,
        player.playback_start == now && player.playback_start_pts == position,
        player.paused_elapsed == 0,
        player.audio_paused,
{
    let shown = player.showing(Seq::empty());
    assert(shown.queue.len() == 0);
    assert(shown.awaiting && shown.start == now && shown.start_pts == position);
    assert(shown.current is None && shown.buffered is None && shown.deadline is None);
    assert(shown.audio_paused && shown.paused_elapsed == 0);
    assert(shown.state == player.state);
}

/// Only time that passes forward counts, and times are what they are wherever they can be told.
pub proof fn law_times(start: i64, now: i64, t: int)
    ensures
        now >= start ==> elapsed(start, now) == now - start,
        now <= start ==> elapsed(start, now) == 0,
        i64::MIN <= t <= i64::MAX ==> clamped(t) == t,
        t > i64::MAX ==> clamped(t) == i64::MAX,
        t < i64::MIN ==> clamped(t) == i64::MIN,
{
}

/// A running audio clock shows where the sound is that is heard: from the time of the first sample
/// on, each second of samples counts for a second, and the lag of the device is taken off. A clock
/// that does not run shows nothing.
pub proof fn law_audio_clock(clock: AudioClock, t: i64)
    requires
        clock.wf(),
    ensures
        !clock.active ==> clock.reading() is None,
        clock.active && ({
            let rate = clock.channels * clock.sample_rate;
            let played = t - clock.base_pts + clock.latency;
            played * rate <= clock.samples_consumed * 1_000_000 < (played + 1) * rate
        }) ==> clock.reading() == Some(t as int),
{
    let rate = clock.channels as int * clock.sample_rate as int;
    let played = t - clock.base_pts + clock.latency;
    let x = clock.samples_consumed as int * 1_000_000;
    assert(rate > 0) by (nonlinear_arith)
        requires
            rate == clock.channels as int * clock.sample_rate as int,
            clock.channels > 0,
            clock.sample_rate > 0,
    ;
    if played * rate <= x < (played + 1) * rate {
        assert(x == played * rate + (x - played * rate) && 0 <= x - played * rate < rate)
            by (nonlinear_arith)
            requires
                played * rate <= x < (played + 1) * rate,
        ;
        vstd::arithmetic::div_mod::lemma_fundamental_div_mod_converse(
            x,
            rate,
            played,
            x - played * rate,
        );
    }
}

/// The lag of a device is the time of two of its buffers.
pub proof fn law_device_lag(len: int, channels: int, sample_rate: int, t: i64)
    requires
        len >= 0,
        channels > 0,
        sample_rate > 0,
        t * sample_rate <= (len / channels) * 2_000_000 < (t + 1) * sample_rate,
    ensures
        device_lag(len, channels, sample_rate) == t,
{
    let x = (len / channels) * 2_000_000;
    assert(0 <= x - t * sample_rate < sample_rate) by (nonlinear_arith)
        requires
            t * sample_rate <= x < (t + 1) * sample_rate,
    ;
    vstd::arithmetic::div_mod::lemma_fundamental_div_mod_converse(
        x,
        sample_rate,
        t as int,
        x - t * sample_rate,
    );
}

/// As many samples are played as the device asks for, or as there are.
pub proof fn law_samples_played<T: Copy>(upcoming: Seq<T>, len: nat)
    ensures
        AudioSink::<T>::played_count(upcoming, len) <= len,
        AudioSink::<T>::played_count(upcoming, len) <= upcoming.len(),
        AudioSink::<T>::played_count(upcoming, len) == len || AudioSink::<T>::played_count(
            upcoming,
            len,
        ) == upcoming.len(),
{
}

/// A pause stops the video and its sound, and leaves the screen and all frames as they are. Played
/// on, it goes on with its sound from the very time at which it was paused, however long the pause
/// was.
pub proof fn law_pause(s: Showing, session: bool, paused: i64, resumed: i64)
    requires
        s.state is Playing,
        i64::MIN <= s.paused_elapsed + (if paused > s.start {
            paused - s.start
        } else {
            0
        }) <= i64::MAX,
    ensures
        ({
            let held = toggled(s, session, paused);
            let again = toggled(held, session, resumed);
            &&& held.state is Paused && again.state is Playing
            &&& session ==> held.audio_paused && !again.audio_paused
            &&& !session ==> held.audio_paused == s.audio_paused && again.audio_paused
                == s.audio_paused
            &&& wall_position(again, resumed) == wall_position(s, paused)
            &&& held.current == s.current && again.current == s.current
            &&& frames_waiting(held, session) == frames_waiting(s, session)
            &&& frames_waiting(again, session) == frames_waiting(s, session)
            &&& held.feed == s.feed && again.feed == s.feed
            &&& again.awaiting == s.awaiting && again.deadline == s.deadline
            &&& again.start_pts == s.start_pts
        }),
{
}

/// What is heard are the samples that come next, in their order, as many as the device asks for, and
/// silence where there are no more; while paused, it is nothing but silence, and no sample is lost.
pub proof fn law_sound<T: Copy>(upcoming: Seq<T>, len: nat, paused: bool, i: int)
    requires
        0 <= i < len,
    ensures
        ({
            let played = AudioSink::<T>::fill_count(upcoming, len, paused);
            &&& paused ==> played == 0 && heard(upcoming, played, i) is None
            &&& !paused && i < upcoming.len() ==> heard(upcoming, played, i) == Some(upcoming[i])
            &&& !paused && i >= upcoming.len() ==> heard(upcoming, played, i) is None
            &&& !paused && upcoming.len() >= len ==> played == len
            &&& !paused && upcoming.len() < len ==> played == upcoming.len()
        }),
{
}

/// The audio clock starts with the first sample, at the time of that sample, counts every sample
/// that is played, and stops when there will be no more. The lag of the device is told to it once.
pub proof fn law_samples_are_counted(
    clock: AudioClock,
    first: Option<i64>,
    played: nat,
    ran_out: bool,
    lag: Option<i64>,
)
    requires
        clock.samples_consumed + played <= u64::MAX,
    ensures
        ({
            let after = counted(clock, first, played, ran_out, lag);
            &&& first matches Some(pts) ==> after.base_pts == pts && after.samples_consumed == played
            &&& first is None ==> after.base_pts == clock.base_pts && after.samples_consumed
                == clock.samples_consumed + played
            &&& ran_out ==> !after.active
            &&& !ran_out ==> after.active == (clock.active || first is Some)
            &&& lag matches Some(l) ==> after.latency == l
            &&& lag is None ==> after.latency == clock.latency
            &&& after.channels == clock.channels && after.sample_rate == clock.sample_rate
        }),
{
}

/// Whatever is shown of a video, it is the same video: as long, as large, as loud.
pub proof fn law_same_video(a: VideoPlayer, b: VideoPlayer)
    requires
        a.same_video(&b),
    ensures
        a.duration == b.duration,
        a.video_size == b.video_size,
        a.has_audio == b.has_audio,
        a.volume == b.volume,
        a.diag_info@ == b.diag_info@,
{
}

/// What is there to be played is the rest of the chunk that is being played, and then every chunk that
/// waits, each from its first sample on.
pub proof fn law_upcoming<T: Copy>(sink: AudioSink<T>, chunks: Seq<AudioChunk<T>>, i: int)
    requires
        sink.wf(),
    ensures
        ({
            let rest = sink.buffer@.len() - sink.buf_pos;
            let upcoming = sink.upcoming(chunks);
            &&& 0 <= i < rest ==> upcoming[i] == sink.buffer@[sink.buf_pos + i]
            &&& chunks.len() == 0 ==> upcoming.len() == rest
            &&& chunks.len() > 0 ==> {
                let first = chunks[0].samples@;
                &&& upcoming.len() == rest + first.len() + joined(chunks.drop_first()).len()
                &&& 0 <= i < first.len() ==> upcoming[rest + i] == first[i]
            }
        }),
{
}

/// Where frames are slow to come, playback does not wait for more of them than there are once its
/// time is up: it begins with the first of them, and none is lost.
pub proof fn law_slow_start(s: Showing, disconnected: bool, av_offset: i64, now: i64, n: int)
    requires
        s.state is Playing,
        s.awaiting,
        s.buffered is None,
        s.queue.len() > 0,
        s.deadline is Some && s.deadline->0 <= now,
        i64::MIN <= s.queue[0].pts + av_offset <= i64::MAX,
        are_due((s.queue + s.feed).skip(1), n, s.queue[0].pts + av_offset),
    ensures
        ({
            let frames = s.queue + s.feed;
            let (after, shows) = polled(s, true, false, disconnected, None, av_offset, now);
            &&& shows
            &&& after.current == Some(frames[n])
            &&& frames_waiting(after, true) == frames.skip(n + 1)
        }),
{
    let frames = s.queue + s.feed;
    let g = crate::video_player::gathered(s, true, now);
    let b = crate::video_player::started(g, true, now);
    let clock = frames[0].pts + av_offset;
    assert(g.queue =~= frames);
    assert(frames_waiting(b, true) =~= frames.skip(1));
    assert(b.current == Some(frames[0]));
    assert(wall_time(b, now) == frames[0].pts);
    lemma_advanced(b, true, disconnected, clock, n);
    assert(frames.skip(1).skip(n) =~= frames.skip(n + 1));
    if n > 0 {
        assert(frames.skip(1)[n - 1] == frames[n]);
    }
}

} // verus!
