//! The times under which frames and audio are sent, and what becomes of packets and samples.

use vstd::prelude::*;

verus! {

use crate::decoding::{
    decoded, demuxed, rows_of, sample_count, session_plan, source_channel, target_of,
    DecodeAction, DecodeEvent, DecodePhase, DemuxAction, DemuxEvent, DemuxPhase, Demuxer,
    TimeBase, VideoDecoder,
};
use crate::media_time::{media_time, ticks_time};

/// `t` is the time of timestamp `n` in whole microseconds, where a tick takes `num / den` seconds.
pub open spec fn is_time_of(t: i64, n: int, num: int, den: int) -> bool {
    t * den <= n * num * 1_000_000 < (t + 1) * den
}

/// The timestamp of a frame: the one that the decoder worked out, else the one it came with, else
/// none at all.
pub open spec fn timestamp_of(best_effort: i64, pts: Option<i64>) -> int {
    if best_effort == i64::MIN {
        match pts {
            Some(p) => p as int,
            None => 0,
        }
    } else {
        best_effort as int
    }
}

/// A number of ticks comes to the time that their length says.
pub proof fn law_ticks(t: i64, n: int, num: int, den: int)
    requires
        den > 0,
        is_time_of(t, n, num, den),
    ensures
        ticks_time(n, num, den) == t,
{
    let x = n * num * 1_000_000;
    let rest = x - t * den;
    assert(x == t as int * den + rest && 0 <= rest < den) by (nonlinear_arith)
        requires
            t as int * den <= x < (t as int + 1) * den,
            rest == x - t as int * den,
    ;
    vstd::arithmetic::div_mod::lemma_fundamental_div_mod_converse(x, den, t as int, rest);
}

/// A video is as long as its stream says, counted in the ticks of the stream; where the stream does
/// not say, it is as long as its container says.
pub proof fn law_duration(stream: int, num: int, den: int, container: int, t: i64)
    requires
        den > 0,
        stream > 0 ==> is_time_of(t, stream, num, den),
    ensures
        stream > 0 ==> media_time(stream, num, den, container) == t,
        stream <= 0 ==> media_time(stream, num, den, container) == container,
{
    if stream > 0 {
        law_ticks(t, stream, num, den);
    }
}

/// A decoded frame of a video is sent under its own time. It is left out only if it lies more than a
/// twentieth of a second before the place that was sought to and no frame of that place has come
/// yet, or if the audio is more than half a second in and the frame more than 0.15 seconds behind
/// it.
pub proof fn law_frame_is_sent_at_its_time(
    d: VideoDecoder,
    best_effort: i64,
    pts: Option<i64>,
    audio: Option<i64>,
    t: i64,
)
    requires
        d.phase is Receiving,
        d.time_base.den > 0,
        is_time_of(
            t,
            timestamp_of(best_effort, pts),
            d.time_base.num as int,
            d.time_base.den as int,
        ),
    ensures
        ({
            let early = d.target is Some && t < d.target->0 - 50_000;
            let late = audio is Some && audio->0 > 500_000 && t < audio->0 - 150_000;
            let (taken, action) = decoded(d, DecodeEvent::Frame { best_effort, pts, audio });
            let (scaled, next) = decoded(taken, DecodeEvent::Scaled);
            let (sent, last) = decoded(scaled, DecodeEvent::Sent);
            &&& taken.time_base == d.time_base
            &&& early ==> taken == d && action is Receive
            &&& !early ==> taken.target is None
            &&& !early && late ==> action is Receive && taken.phase is Receiving
            &&& !early && !late ==> {
                &&& action is Scale
                &&& next == DecodeAction::Send { pts: t }
                &&& last is Receive
                &&& sent == (VideoDecoder { target: None, ..d })
            }
        }),
{
    law_ticks(
        t,
        timestamp_of(best_effort, pts),
        d.time_base.num as int,
        d.time_base.den as int,
    );
}

/// A frame that the decoder still held at the end of the packets is sent under the time that it
/// came with.
pub proof fn law_last_frames_are_sent(
    d: VideoDecoder,
    best_effort: i64,
    pts: Option<i64>,
    audio: Option<i64>,
    t: i64,
)
    requires
        d.phase is Flushing,
        d.time_base.den > 0,
        is_time_of(
            t,
            match pts {
                Some(p) => p as int,
                None => 0,
            },
            d.time_base.num as int,
            d.time_base.den as int,
        ),
    ensures
        ({
            let (taken, action) = decoded(d, DecodeEvent::Frame { best_effort, pts, audio });
            let (scaled, next) = decoded(taken, DecodeEvent::Scaled);
            let (sent, last) = decoded(scaled, DecodeEvent::Sent);
            &&& action is Scale
            &&& next == DecodeAction::Send { pts: t }
            &&& last is Receive && sent == d
            &&& decoded(scaled, DecodeEvent::Disconnected).1 is Receive
            &&& decoded(d, DecodeEvent::NoFrame).1 is Exit
        }),
{
    law_ticks(
        t,
        match pts {
            Some(p) => p as int,
            None => 0,
        },
        d.time_base.num as int,
        d.time_base.den as int,
    );
}

/// A decoder takes packet after packet, hands each to the codec, takes all frames that come of it,
/// and comes to its end only where it is told to stop, where nobody takes its frames, or after the
/// last frame. A seek to the first tenth of a second is held to no place.
pub proof fn law_decoder_runs(time_base: TimeBase, position: i64, d: VideoDecoder)
    requires
        d.time_base == time_base,
    ensures
        target_of(position) == if position > 100_000 {
            Some(position)
        } else {
            None::<i64>
        },
        d.phase is Waiting ==> {
            let (packet, submit) = decoded(d, DecodeEvent::Packet);
            let (accepted, receive) = decoded(packet, DecodeEvent::Accepted);
            &&& submit is Submit
            &&& receive is Receive
            &&& accepted == (VideoDecoder { phase: DecodePhase::Receiving, ..d })
            &&& decoded(packet, DecodeEvent::Rejected) == (d, DecodeAction::AwaitPacket)
            &&& decoded(accepted, DecodeEvent::NoFrame) == (d, DecodeAction::AwaitPacket)
            &&& decoded(d, DecodeEvent::NoMorePackets) == (
                VideoDecoder { phase: DecodePhase::Flushing, ..d },
                DecodeAction::Flush,
            )
            &&& decoded(d, DecodeEvent::Stop).1 is Exit
        },
        d.phase is Sending ==> decoded(d, DecodeEvent::Disconnected).1 is Exit,
        d.phase is Scaling ==> decoded(d, DecodeEvent::NotScaled) == (
            VideoDecoder { phase: DecodePhase::Receiving, ..d },
            DecodeAction::Receive,
        ),
{
}

/// A decoded frame of audio is played under its own time. It is left out only if it lies more than a
/// twentieth of a second before the place that was sought to and no frame of that place has come
/// yet, or if nothing can play it.
pub proof fn law_audio_is_sent_at_its_time(
    d: Demuxer,
    best_effort: i64,
    pts: Option<i64>,
    t: i64,
)
    requires
        d.phase is Receiving,
        d.time_base.den > 0,
        is_time_of(
            t,
            timestamp_of(best_effort, pts),
            d.time_base.num as int,
            d.time_base.den as int,
        ),
    ensures
        ({
            let early = d.target is Some && t < d.target->0 - 50_000;
            let (taken, action) = demuxed(d, DemuxEvent::Frame { best_effort, pts });
            let (ready, send) = demuxed(taken, DemuxEvent::Samples { empty: false });
            let (sent, last) = demuxed(ready, DemuxEvent::Sent);
            &&& early ==> taken == d && action is Receive
            &&& !early && !d.can_play ==> taken == (Demuxer { target: None, ..d })
                && action is Receive
            &&& !early && d.can_play ==> {
                &&& action is Resample
                &&& send == DemuxAction::SendAudio { pts: t }
                &&& demuxed(ready, DemuxEvent::Full) == (
                    ready,
                    DemuxAction::WaitAndSendAudio { pts: t },
                )
                &&& demuxed(ready, DemuxEvent::Disconnected).1 is Exit
                &&& demuxed(ready, DemuxEvent::Stop).1 is Exit
                &&& demuxed(taken, DemuxEvent::Samples { empty: true }) == (
                    Demuxer { target: None, ..d },
                    DemuxAction::Receive,
                )
                &&& last is Receive
                &&& sent == (Demuxer { target: None, last_audio_pts: t, ..d })
            }
        }),
{
    law_ticks(
        t,
        timestamp_of(best_effort, pts),
        d.time_base.num as int,
        d.time_base.den as int,
    );
}

/// Each packet goes where its stream says: those of the video to the video decoder, unless they are
/// empty, those of the audio to the audio decoder, if there is one, and all others nowhere. Reading
/// ends at the end of the file or where it is told to stop, and then the audio decoder is emptied.
pub proof fn law_packets_go_to_their_streams(d: Demuxer, stream: usize, empty: bool)
    requires
        d.phase is Reading,
    ensures
        ({
            let (after, action) = demuxed(d, DemuxEvent::Packet { stream, empty });
            &&& action is SendVideo <==> stream == d.video_idx && !empty
            &&& action is Submit <==> stream != d.video_idx && d.has_decoder && d.audio_idx == Some(
                stream,
            )
            &&& action is SendVideo || action is Submit || (action is Read && after == d)
            &&& action is SendVideo ==> {
                &&& demuxed(after, DemuxEvent::Sent) == (d, DemuxAction::Read)
                &&& demuxed(after, DemuxEvent::Full) == (after, DemuxAction::WaitAndSendVideo)
                &&& demuxed(after, DemuxEvent::Disconnected).1 is Exit
                &&& demuxed(after, DemuxEvent::Stop).1 is Exit
            }
            &&& action is Submit ==> {
                let receiving = demuxed(after, DemuxEvent::Accepted);
                &&& receiving == (
                    Demuxer { phase: DemuxPhase::Receiving, ..d },
                    DemuxAction::Receive,
                )
                &&& demuxed(after, DemuxEvent::Rejected) == (d, DemuxAction::Read)
                &&& demuxed(receiving.0, DemuxEvent::NoFrame) == (d, DemuxAction::Read)
            }
        }),
        demuxed(d, DemuxEvent::ReadError) == (d, DemuxAction::Read),
        d.has_decoder ==> demuxed(d, DemuxEvent::EndOfFile).1 is Flush && demuxed(
            d,
            DemuxEvent::Stop,
        ).1 is Flush,
        !d.has_decoder ==> demuxed(d, DemuxEvent::EndOfFile).1 is Exit && demuxed(
            d,
            DemuxEvent::Stop,
        ).1 is Exit,
{
}

/// What the audio decoder still held at the end is played after the last audio that was sent, if
/// anything can play it, and then the demuxer is done.
pub proof fn law_last_audio_is_played(d: Demuxer, best_effort: i64, pts: Option<i64>)
    requires
        d.phase is Flushing,
    ensures
        ({
            let (taken, action) = demuxed(d, DemuxEvent::Frame { best_effort, pts });
            let (ready, send) = demuxed(taken, DemuxEvent::Samples { empty: false });
            &&& d.can_play ==> {
                &&& action is Resample
                &&& send == DemuxAction::TrySendAudio { pts: d.last_audio_pts }
                &&& demuxed(ready, DemuxEvent::Sent) == (d, DemuxAction::Receive)
                &&& demuxed(ready, DemuxEvent::Full) == (d, DemuxAction::Receive)
                &&& demuxed(taken, DemuxEvent::NotResampled) == (d, DemuxAction::Receive)
            }
            &&& !d.can_play ==> taken == d && action is Receive
            &&& demuxed(d, DemuxEvent::NoFrame).1 is Exit
        }),
{
}

/// A copied frame holds, for each pixel, the four bytes that stood in its row and column.
pub proof fn law_rows(data: Seq<u8>, width: int, height: int, stride: int, x: int, y: int, c: int)
    requires
        0 <= x < width,
        0 <= y < height,
        0 <= c < 4,
    ensures
        rows_of(data, width, height, stride).len() == width * height * 4,
        rows_of(data, width, height, stride)[(y * width + x) * 4 + c] == data[y * stride + x * 4
            + c],
{
    let row = width * 4;
    let i = (y * width + x) * 4 + c;
    assert(i == y * row + (4 * x + c)) by (nonlinear_arith)
        requires
            row == width * 4,
            i == (y * width + x) * 4 + c,
    ;
    vstd::arithmetic::div_mod::lemma_fundamental_div_mod_converse(i, row, y, 4 * x + c);
    assert(width * 4 * height == width * height * 4) by (nonlinear_arith);
    assert(0 <= i < width * 4 * height) by (nonlinear_arith)
        requires
            i == y * row + (4 * x + c),
            row == width * 4,
            0 <= 4 * x + c < row,
            0 <= y < height,
    ;
}

/// Channels that the source has are kept, and those that it has not repeat its last: what has one
/// channel is heard alike on all.
pub proof fn law_channels(c: int, src: int)
    requires
        0 <= c,
        src > 0,
    ensures
        0 <= source_channel(c, src) < src,
        c < src ==> source_channel(c, src) == c,
        c >= src ==> source_channel(c, src) == src - 1,
        src == 1 ==> source_channel(c, src) == 0,
{
}

/// A session is sought to where it is to play from, unless that is the start. It has sound if there
/// is an audio stream whose decoder could be opened, and then plays it as the device does; else, or
/// without a device, at 48000 samples a second on two channels.
pub proof fn law_session(
    position: i64,
    audio_stream: Option<usize>,
    decoder_opened: bool,
    device: Option<(u32, u16)>,
)
    ensures
        ({
            let plan = session_plan(position, audio_stream, decoder_opened, device);
            let sound = decoder_opened && audio_stream is Some;
            &&& position > 0 ==> plan.seek_to == Some(position)
            &&& position <= 0 ==> plan.seek_to is None
            &&& sound ==> plan.audio_idx == audio_stream
            &&& !sound ==> plan.audio_idx is None
            &&& sound ==> (device matches Some(d) ==> (plan.sample_rate, plan.channels) == d)
            &&& !(sound && device is Some) ==> plan.sample_rate == 48_000 && plan.channels == 2
        }),
{
}

/// Resampled audio holds one sample for each channel of each of its frames.
pub proof fn law_sample_count(frames: int, channels: int)
    ensures
        sample_count(true, frames, channels) == frames * channels,
        sample_count(false, frames, channels) == 0,
{
}

} // verus!
