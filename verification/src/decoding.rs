//! Decoding a video: which packets go where, which frames are kept, and in which form.
//!
//! The demuxer and the decoder are driven step by step. Each step takes what came of the last
//! action and says what to do next; the caller does it.

use vstd::prelude::*;

verus! {

use crate::media_time::{ticks_time, ticks_to_micros};

/// Up to where a seek is so near to the start that every frame is kept.
pub const SEEK_START: i64 = 100_000;

/// How far before the target of a seek a frame may lie.
pub const SEEK_SLACK: i64 = 50_000;

/// From where on the audio is waited for.
pub const LATE_START: i64 = 500_000;

/// How far a frame may lie behind the audio.
pub const LATE_SLACK: i64 = 150_000;

/// The timestamp of a frame that has none.
pub const NO_TIMESTAMP: i64 = i64::MIN;

/// The target that frames are held to after a seek to `position`.
pub open spec fn target_of(position: i64) -> Option<i64> {
    if position > SEEK_START {
        Some(position)
    } else {
        None
    }
}

/// Frames are held to a target only where it is past the start.
pub open spec fn is_target(target: Option<i64>) -> bool {
    target is Some ==> target->0 > SEEK_START
}

/// A frame at `pts` lies before the target that a seek has set.
pub open spec fn is_early(target: Option<i64>, pts: int) -> bool {
    target is Some && pts < target->0 - SEEK_SLACK
}

/// A frame at `pts` comes too late to be shown with the audio.
pub open spec fn is_late(audio: Option<i64>, pts: int) -> bool {
    audio is Some && audio->0 > LATE_START && pts < audio->0 - LATE_SLACK
}

fn seek_target(position: i64) -> (r: Option<i64>)
    ensures
        r == target_of(position),
{
    if position > SEEK_START {
        Some(position)
    } else {
        None
    }
}

fn lies_early(target: Option<i64>, pts: i64) -> (r: bool)
    requires
        is_target(target),
    ensures
        r == is_early(target, pts as int),
{
    match target {
        Some(t) => pts < t - SEEK_SLACK,
        None => false,
    }
}

fn lies_late(audio: Option<i64>, pts: i64) -> (r: bool)
    ensures
        r == is_late(audio, pts as int),
{
    match audio {
        Some(a) => a > LATE_START && pts < a - LATE_SLACK,
        None => false,
    }
}

/// How long a tick of a stream's timestamps is, in seconds.
#[derive(Clone, Copy, Debug)]
pub struct TimeBase {
    pub num: i32,
    pub den: i32,
}

impl TimeBase {
    /// The tick has a length.
    pub open spec fn wf(&self) -> bool {
        self.den > 0
    }

    /// The time that `ticks` come to.
    pub open spec fn time(&self, ticks: int) -> int {
        ticks_time(ticks, self.num as int, self.den as int)
    }

    fn micros(&self, ticks: i64) -> (r: i64)
        requires
            self.wf(),
        ensures
            r == self.time(ticks as int),
    {
        ticks_to_micros(ticks, self.num, self.den)
    }
}

/// The timestamp of a decoded frame, as given with it.
pub open spec fn own_stamp(pts: Option<i64>) -> int {
    if pts is Some {
        pts->0 as int
    } else {
        0
    }
}

/// The timestamp of a decoded frame: the one that the decoder worked out, else its own.
pub open spec fn stamp(best_effort: i64, pts: Option<i64>) -> int {
    if best_effort != NO_TIMESTAMP {
        best_effort as int
    } else {
        own_stamp(pts)
    }
}

fn own_timestamp(pts: Option<i64>) -> (r: i64)
    ensures
        r == own_stamp(pts),
{
    match pts {
        Some(p) => p,
        None => 0,
    }
}

fn timestamp(best_effort: i64, pts: Option<i64>) -> (r: i64)
    ensures
        r == stamp(best_effort, pts),
{
    if best_effort != NO_TIMESTAMP {
        best_effort
    } else {
        own_timestamp(pts)
    }
}

/// What the demuxer is in the middle of.
#[derive(Clone, Copy, Debug)]
pub enum DemuxPhase {
    Reading,
    SendingVideo,
    Submitting,
    Receiving,
    Resampling { pts: i64 },
    SendingAudio { pts: i64 },
    Flushing,
    FlushResampling,
    FlushSending,
    Ended,
}

/// What came of the demuxer's last action.
#[derive(Clone, Copy, Debug)]
pub enum DemuxEvent {
    /// Playback has been asked to stop.
    Stop,
    /// A packet of the stream has been read; it may hold nothing.
    Packet { stream: usize, empty: bool },
    EndOfFile,
    ReadError,
    /// The audio decoder has taken the packet.
    Accepted,
    Rejected,
    /// The audio decoder has handed out a frame.
    Frame { best_effort: i64, pts: Option<i64> },
    NoFrame,
    /// The frame has been resampled; it may have come to nothing.
    Samples { empty: bool },
    NotResampled,
    Sent,
    Full,
    Disconnected,
}

/// What the demuxer does next.
#[derive(Clone, Copy, Debug)]
pub enum DemuxAction {
    Read,
    SendVideo,
    WaitAndSendVideo,
    Submit,
    Receive,
    Resample,
    SendAudio { pts: i64 },
    WaitAndSendAudio { pts: i64 },
    Flush,
    TrySendAudio { pts: i64 },
    Exit,
}

/// Reads a container's packets, hands the video's on, and decodes the audio's.
#[derive(Clone, Copy, Debug)]
pub struct Demuxer {
    pub video_idx: usize,
    pub audio_idx: Option<usize>,
    pub has_decoder: bool,
    /// Whether the audio can be resampled and there is a device to play it.
    pub can_play: bool,
    pub time_base: TimeBase,
    pub target: Option<i64>,
    pub last_audio_pts: i64,
    pub phase: DemuxPhase,
}

/// The demuxer, in another phase.
pub open spec fn turned(d: Demuxer, phase: DemuxPhase) -> Demuxer {
    Demuxer { phase, ..d }
}

/// The demuxer after the last packet: what the audio decoder still holds is played out.
pub open spec fn read_out(d: Demuxer) -> (Demuxer, DemuxAction) {
    if d.has_decoder {
        (turned(d, DemuxPhase::Flushing), DemuxAction::Flush)
    } else {
        (turned(d, DemuxPhase::Ended), DemuxAction::Exit)
    }
}

/// Whether `e` can have come of what the demuxer is doing.
pub open spec fn can_follow(phase: DemuxPhase, e: DemuxEvent) -> bool {
    match phase {
        DemuxPhase::Reading => e is Stop || e is Packet || e is EndOfFile || e is ReadError,
        DemuxPhase::SendingVideo | DemuxPhase::SendingAudio { .. } => e is Stop || e is Sent
            || e is Full || e is Disconnected,
        DemuxPhase::Submitting => e is Accepted || e is Rejected,
        DemuxPhase::Receiving | DemuxPhase::Flushing => e is Frame || e is NoFrame,
        DemuxPhase::Resampling { .. } | DemuxPhase::FlushResampling => e is Samples
            || e is NotResampled,
        DemuxPhase::FlushSending => e is Sent || e is Full || e is Disconnected,
        DemuxPhase::Ended => false,
    }
}

/// What comes of an event while packets are read.
pub open spec fn after_read(d: Demuxer, e: DemuxEvent) -> (Demuxer, DemuxAction) {
    match e {
        DemuxEvent::Packet { stream, empty } => if stream == d.video_idx && !empty {
            (turned(d, DemuxPhase::SendingVideo), DemuxAction::SendVideo)
        } else if stream != d.video_idx && Some(stream) == d.audio_idx && d.has_decoder {
            (turned(d, DemuxPhase::Submitting), DemuxAction::Submit)
        } else {
            (d, DemuxAction::Read)
        },
        DemuxEvent::ReadError => (d, DemuxAction::Read),
        _ => read_out(d),
    }
}

/// What comes of an audio frame: it is kept unless it lies before the target of the seek, which
/// the first one that does not has reached.
pub open spec fn after_frame(d: Demuxer, e: DemuxEvent) -> (Demuxer, DemuxAction) {
    match e {
        DemuxEvent::Frame { best_effort, pts } => {
            let time = d.time_base.time(stamp(best_effort, pts));
            let passed = Demuxer { target: None, ..d };
            if is_early(d.target, time) {
                (d, DemuxAction::Receive)
            } else if d.can_play {
                (
                    turned(passed, DemuxPhase::Resampling { pts: time as i64 }),
                    DemuxAction::Resample,
                )
            } else {
                (passed, DemuxAction::Receive)
            }
        },
        _ => (turned(d, DemuxPhase::Reading), DemuxAction::Read),
    }
}

/// What comes of an event, whatever the demuxer is in the middle of.
pub open spec fn demuxed(d: Demuxer, e: DemuxEvent) -> (Demuxer, DemuxAction) {
    match d.phase {
        DemuxPhase::Reading => after_read(d, e),
        DemuxPhase::SendingVideo => match e {
            DemuxEvent::Sent => (turned(d, DemuxPhase::Reading), DemuxAction::Read),
            DemuxEvent::Full => (d, DemuxAction::WaitAndSendVideo),
            _ => (turned(d, DemuxPhase::Ended), DemuxAction::Exit),
        },
        DemuxPhase::Submitting => match e {
            DemuxEvent::Accepted => (turned(d, DemuxPhase::Receiving), DemuxAction::Receive),
            _ => (turned(d, DemuxPhase::Reading), DemuxAction::Read),
        },
        DemuxPhase::Receiving => after_frame(d, e),
        DemuxPhase::Resampling { pts } => match e {
            DemuxEvent::Samples { empty: false } => (
                turned(d, DemuxPhase::SendingAudio { pts }),
                DemuxAction::SendAudio { pts },
            ),
            _ => (turned(d, DemuxPhase::Receiving), DemuxAction::Receive),
        },
        DemuxPhase::SendingAudio { pts } => match e {
            DemuxEvent::Sent => (
                Demuxer { last_audio_pts: pts, phase: DemuxPhase::Receiving, ..d },
                DemuxAction::Receive,
            ),
            DemuxEvent::Full => (d, DemuxAction::WaitAndSendAudio { pts }),
            _ => (turned(d, DemuxPhase::Ended), DemuxAction::Exit),
        },
        DemuxPhase::Flushing => match e {
            DemuxEvent::Frame { .. } => if d.can_play {
                (turned(d, DemuxPhase::FlushResampling), DemuxAction::Resample)
            } else {
                (d, DemuxAction::Receive)
            },
            _ => (turned(d, DemuxPhase::Ended), DemuxAction::Exit),
        },
        DemuxPhase::FlushResampling => match e {
            DemuxEvent::Samples { empty: false } => (
                turned(d, DemuxPhase::FlushSending),
                DemuxAction::TrySendAudio { pts: d.last_audio_pts },
            ),
            _ => (turned(d, DemuxPhase::Flushing), DemuxAction::Receive),
        },
        DemuxPhase::FlushSending => (turned(d, DemuxPhase::Flushing), DemuxAction::Receive),
        DemuxPhase::Ended => (d, DemuxAction::Exit),
    }
}

impl Demuxer {
    /// The demuxer can tell the time of a frame.
    pub open spec fn wf(&self) -> bool {
        self.time_base.wf() && is_target(self.target)
    }

    /// A demuxer that starts to read, after a seek to `position`.
    pub fn new(
        video_idx: usize,
        audio_idx: Option<usize>,
        has_decoder: bool,
        can_play: bool,
        time_base: TimeBase,
        position: i64,
    ) -> (r: Demuxer)
        requires
            time_base.wf(),
        ensures
            r == (Demuxer {
                video_idx,
                audio_idx,
                has_decoder,
                can_play,
                time_base,
                target: target_of(position),
                last_audio_pts: 0,
                phase: DemuxPhase::Reading,
            }),
            r.wf(),
    {
        Demuxer {
            video_idx,
            audio_idx,
            has_decoder,
            can_play,
            time_base,
            target: seek_target(position),
            last_audio_pts: 0,
            phase: DemuxPhase::Reading,
        }
    }

    fn end_reading(&mut self) -> (r: DemuxAction)
        ensures
            (*final(self), r) == read_out(*old(self)),
    {
        if self.has_decoder {
            self.phase = DemuxPhase::Flushing;
            DemuxAction::Flush
        } else {
            self.phase = DemuxPhase::Ended;
            DemuxAction::Exit
        }
    }

    /// Takes what came of the last action, and says what to do next.
    pub fn step(&mut self, event: DemuxEvent) -> (r: DemuxAction)
        requires
            old(self).wf(),
            can_follow(old(self).phase, event),
        ensures
            (*final(self), r) == demuxed(*old(self), event),
            final(self).wf(),
    {
        match self.phase {
            DemuxPhase::Reading => match event {
                DemuxEvent::Packet { stream, empty } => {
                    if stream == self.video_idx {
                        if empty {
                            return DemuxAction::Read;
                        }
                        self.phase = DemuxPhase::SendingVideo;
                        return DemuxAction::SendVideo;
                    }
                    if let Some(audio) = self.audio_idx {
                        if stream == audio && self.has_decoder {
                            self.phase = DemuxPhase::Submitting;
                            return DemuxAction::Submit;
                        }
                    }
                    DemuxAction::Read
                },
                DemuxEvent::ReadError => DemuxAction::Read,
                _ => self.end_reading(),
            },
            DemuxPhase::SendingVideo => match event {
                DemuxEvent::Sent => {
                    self.phase = DemuxPhase::Reading;
                    DemuxAction::Read
                },
                DemuxEvent::Full => DemuxAction::WaitAndSendVideo,
                _ => {
                    self.phase = DemuxPhase::Ended;
                    DemuxAction::Exit
                },
            },
            DemuxPhase::Submitting => match event {
                DemuxEvent::Accepted => {
                    self.phase = DemuxPhase::Receiving;
                    DemuxAction::Receive
                },
                _ => {
                    self.phase = DemuxPhase::Reading;
                    DemuxAction::Read
                },
            },
            DemuxPhase::Receiving => match event {
                DemuxEvent::Frame { best_effort, pts } => {
                    let time: i64 = self.time_base.micros(timestamp(best_effort, pts));
                    if lies_early(self.target, time) {
                        return DemuxAction::Receive;
                    }
                    self.target = None;
                    if self.can_play {
                        self.phase = DemuxPhase::Resampling { pts: time };
                        DemuxAction::Resample
                    } else {
                        DemuxAction::Receive
                    }
                },
                _ => {
                    self.phase = DemuxPhase::Reading;
                    DemuxAction::Read
                },
            },
            DemuxPhase::Resampling { pts } => match event {
                DemuxEvent::Samples { empty: false } => {
                    self.phase = DemuxPhase::SendingAudio { pts };
                    DemuxAction::SendAudio { pts }
                },
                _ => {
                    self.phase = DemuxPhase::Receiving;
                    DemuxAction::Receive
                },
            },
            DemuxPhase::SendingAudio { pts } => match event {
                DemuxEvent::Sent => {
                    self.last_audio_pts = pts;
                    self.phase = DemuxPhase::Receiving;
                    DemuxAction::Receive
                },
                DemuxEvent::Full => DemuxAction::WaitAndSendAudio { pts },
                _ => {
                    self.phase = DemuxPhase::Ended;
                    DemuxAction::Exit
                },
            },
            DemuxPhase::Flushing => match event {
                DemuxEvent::Frame { .. } => {
                    if self.can_play {
                        self.phase = DemuxPhase::FlushResampling;
                        DemuxAction::Resample
                    } else {
                        DemuxAction::Receive
                    }
                },
                _ => {
                    self.phase = DemuxPhase::Ended;
                    DemuxAction::Exit
                },
            },
            DemuxPhase::FlushResampling => match event {
                DemuxEvent::Samples { empty: false } => {
                    self.phase = DemuxPhase::FlushSending;
                    DemuxAction::TrySendAudio { pts: self.last_audio_pts }
                },
                _ => {
                    self.phase = DemuxPhase::Flushing;
                    DemuxAction::Receive
                },
            },
            DemuxPhase::FlushSending => {
                self.phase = DemuxPhase::Flushing;
                DemuxAction::Receive
            },
            DemuxPhase::Ended => DemuxAction::Exit,
        }
    }
}

/// While audio is resampled or sent, the target of the seek has been reached.
pub open spec fn has_reached_target(d: Demuxer) -> bool {
    d.phase is Resampling || d.phase is SendingAudio ==> d.target is None
}

/// No step forgets that the target of a seek has been reached, no audio is sent before it has
/// been, and the frame that reaches it lies at it or later, but for the slack.
pub proof fn lemma_audio_starts_at_target(d: Demuxer, e: DemuxEvent)
    requires
        d.wf(),
        has_reached_target(d),
        can_follow(d.phase, e),
    ensures
        ({
            let (after, action) = demuxed(d, e);
            &&& has_reached_target(after)
            &&& d.target is None ==> after.target is None
            &&& action is SendAudio ==> d.target is None
            &&& d.target is Some && after.target is None ==> e is Frame && d.time_base.time(
                stamp(e->best_effort, e->Frame_pts),
            ) >= d.target->0 - SEEK_SLACK
        }),
{
}

/// Audio goes out under the time of the frame that it was decoded from: what a frame is resampled
/// for is what is sent, as often as it takes, and what is remembered once it has been sent.
pub proof fn lemma_audio_keeps_its_time(d: Demuxer, best_effort: i64, pts: Option<i64>)
    requires
        d.wf(),
        d.phase is Receiving,
        d.can_play,
        !is_early(d.target, d.time_base.time(stamp(best_effort, pts))),
    ensures
        ({
            let time = d.time_base.time(stamp(best_effort, pts)) as i64;
            let resampling = demuxed(d, DemuxEvent::Frame { best_effort, pts }).0;
            let (sending, action) = demuxed(resampling, DemuxEvent::Samples { empty: false });
            &&& action == DemuxAction::SendAudio { pts: time }
            &&& demuxed(sending, DemuxEvent::Full) == (
                sending,
                DemuxAction::WaitAndSendAudio { pts: time },
            )
            &&& demuxed(sending, DemuxEvent::Sent).0.last_audio_pts == time
            &&& demuxed(sending, DemuxEvent::Sent).0.phase is Receiving
        }),
{
}

/// What the video decoder is in the middle of.
#[derive(Clone, Copy, Debug)]
pub enum DecodePhase {
    Waiting,
    Submitting,
    Receiving,
    Scaling { pts: i64 },
    Sending { pts: i64 },
    Flushing,
    FlushScaling { pts: i64 },
    FlushSending { pts: i64 },
    Ended,
}

/// What came of the video decoder's last action.
#[derive(Clone, Copy, Debug)]
pub enum DecodeEvent {
    /// Playback has been asked to stop.
    Stop,
    Packet,
    NoMorePackets,
    Accepted,
    Rejected,
    /// A frame has been decoded; `audio` is what the audio clock shows.
    Frame { best_effort: i64, pts: Option<i64>, audio: Option<i64> },
    NoFrame,
    Scaled,
    NotScaled,
    Sent,
    Disconnected,
}

/// What the video decoder does next.
#[derive(Clone, Copy, Debug)]
pub enum DecodeAction {
    AwaitPacket,
    Submit,
    Receive,
    Scale,
    Send { pts: i64 },
    Flush,
    Exit,
}

/// Decodes the packets of a video, and hands on the frames that are to be shown.
#[derive(Clone, Copy, Debug)]
pub struct VideoDecoder {
    pub time_base: TimeBase,
    pub target: Option<i64>,
    pub phase: DecodePhase,
}

/// The decoder, in another phase.
pub open spec fn moved(d: VideoDecoder, phase: DecodePhase) -> VideoDecoder {
    VideoDecoder { phase, ..d }
}

/// Whether `e` can have come of what the decoder is doing.
pub open spec fn can_come(phase: DecodePhase, e: DecodeEvent) -> bool {
    match phase {
        DecodePhase::Waiting => e is Stop || e is Packet || e is NoMorePackets,
        DecodePhase::Submitting => e is Accepted || e is Rejected,
        DecodePhase::Receiving | DecodePhase::Flushing => e is Frame || e is NoFrame,
        DecodePhase::Scaling { .. } | DecodePhase::FlushScaling { .. } => e is Scaled
            || e is NotScaled,
        DecodePhase::Sending { .. } | DecodePhase::FlushSending { .. } => e is Sent
            || e is Disconnected,
        DecodePhase::Ended => false,
    }
}

/// What comes of a decoded frame: it is shown unless it lies before the target of the seek, which
/// the first one that does not has reached, or comes too late for the audio.
pub open spec fn after_decoding(d: VideoDecoder, e: DecodeEvent) -> (VideoDecoder, DecodeAction) {
    match e {
        DecodeEvent::Frame { best_effort, pts, audio } => {
            let time = d.time_base.time(stamp(best_effort, pts));
            let passed = VideoDecoder { target: None, ..d };
            if is_early(d.target, time) {
                (d, DecodeAction::Receive)
            } else if is_late(audio, time) {
                (passed, DecodeAction::Receive)
            } else {
                (moved(passed, DecodePhase::Scaling { pts: time as i64 }), DecodeAction::Scale)
            }
        },
        _ => (moved(d, DecodePhase::Waiting), DecodeAction::AwaitPacket),
    }
}

/// What comes of an event, whatever the decoder is in the middle of.
pub open spec fn decoded(d: VideoDecoder, e: DecodeEvent) -> (VideoDecoder, DecodeAction) {
    match d.phase {
        DecodePhase::Waiting => match e {
            DecodeEvent::Packet => (moved(d, DecodePhase::Submitting), DecodeAction::Submit),
            DecodeEvent::NoMorePackets => (moved(d, DecodePhase::Flushing), DecodeAction::Flush),
            _ => (moved(d, DecodePhase::Ended), DecodeAction::Exit),
        },
        DecodePhase::Submitting => match e {
            DecodeEvent::Accepted => (moved(d, DecodePhase::Receiving), DecodeAction::Receive),
            _ => (moved(d, DecodePhase::Waiting), DecodeAction::AwaitPacket),
        },
        DecodePhase::Receiving => after_decoding(d, e),
        DecodePhase::Scaling { pts } => match e {
            DecodeEvent::Scaled => (
                moved(d, DecodePhase::Sending { pts }),
                DecodeAction::Send { pts },
            ),
            _ => (moved(d, DecodePhase::Receiving), DecodeAction::Receive),
        },
        DecodePhase::Sending { .. } => match e {
            DecodeEvent::Sent => (moved(d, DecodePhase::Receiving), DecodeAction::Receive),
            _ => (moved(d, DecodePhase::Ended), DecodeAction::Exit),
        },
        DecodePhase::Flushing => match e {
            DecodeEvent::Frame { pts, .. } => (
                moved(
                    d,
                    DecodePhase::FlushScaling { pts: d.time_base.time(own_stamp(pts)) as i64 },
                ),
                DecodeAction::Scale,
            ),
            _ => (moved(d, DecodePhase::Ended), DecodeAction::Exit),
        },
        DecodePhase::FlushScaling { pts } => match e {
            DecodeEvent::Scaled => (
                moved(d, DecodePhase::FlushSending { pts }),
                DecodeAction::Send { pts },
            ),
            _ => (moved(d, DecodePhase::Flushing), DecodeAction::Receive),
        },
        DecodePhase::FlushSending { .. } => (
            moved(d, DecodePhase::Flushing),
            DecodeAction::Receive,
        ),
        DecodePhase::Ended => (d, DecodeAction::Exit),
    }
}

impl VideoDecoder {
    /// The decoder can tell the time of a frame.
    pub open spec fn wf(&self) -> bool {
        self.time_base.wf() && is_target(self.target)
    }

    /// A decoder that waits for its first packet, after a seek to `position`.
    pub fn new(time_base: TimeBase, position: i64) -> (r: VideoDecoder)
        requires
            time_base.wf(),
        ensures
            r == (VideoDecoder {
                time_base,
                target: target_of(position),
                phase: DecodePhase::Waiting,
            }),
            r.wf(),
    {
        VideoDecoder { time_base, target: seek_target(position), phase: DecodePhase::Waiting }
    }

    /// Takes what came of the last action, and says what to do next.
    pub fn step(&mut self, event: DecodeEvent) -> (r: DecodeAction)
        requires
            old(self).wf(),
            can_come(old(self).phase, event),
        ensures
            (*final(self), r) == decoded(*old(self), event),
            final(self).wf(),
    {
        match self.phase {
            DecodePhase::Waiting => match event {
                DecodeEvent::Packet => {
                    self.phase = DecodePhase::Submitting;
                    DecodeAction::Submit
                },
                DecodeEvent::NoMorePackets => {
                    self.phase = DecodePhase::Flushing;
                    DecodeAction::Flush
                },
                _ => {
                    self.phase = DecodePhase::Ended;
                    DecodeAction::Exit
                },
            },
            DecodePhase::Submitting => match event {
                DecodeEvent::Accepted => {
                    self.phase = DecodePhase::Receiving;
                    DecodeAction::Receive
                },
                _ => {
                    self.phase = DecodePhase::Waiting;
                    DecodeAction::AwaitPacket
                },
            },
            DecodePhase::Receiving => match event {
                DecodeEvent::Frame { best_effort, pts, audio } => {
                    let time: i64 = self.time_base.micros(timestamp(best_effort, pts));
                    if lies_early(self.target, time) {
                        return DecodeAction::Receive;
                    }
                    self.target = None;
                    if lies_late(audio, time) {
                        return DecodeAction::Receive;
                    }
                    self.phase = DecodePhase::Scaling { pts: time };
                    DecodeAction::Scale
                },
                _ => {
                    self.phase = DecodePhase::Waiting;
                    DecodeAction::AwaitPacket
                },
            },
            DecodePhase::Scaling { pts } => match event {
                DecodeEvent::Scaled => {
                    self.phase = DecodePhase::Sending { pts };
                    DecodeAction::Send { pts }
                },
                _ => {
                    self.phase = DecodePhase::Receiving;
                    DecodeAction::Receive
                },
            },
            DecodePhase::Sending { .. } => match event {
                DecodeEvent::Sent => {
                    self.phase = DecodePhase::Receiving;
                    DecodeAction::Receive
                },
                _ => {
                    self.phase = DecodePhase::Ended;
                    DecodeAction::Exit
                },
            },
            DecodePhase::Flushing => match event {
                DecodeEvent::Frame { pts, .. } => {
                    let time: i64 = self.time_base.micros(own_timestamp(pts));
                    self.phase = DecodePhase::FlushScaling { pts: time };
                    DecodeAction::Scale
                },
                _ => {
                    self.phase = DecodePhase::Ended;
                    DecodeAction::Exit
                },
            },
            DecodePhase::FlushScaling { pts } => match event {
                DecodeEvent::Scaled => {
                    self.phase = DecodePhase::FlushSending { pts };
                    DecodeAction::Send { pts }
                },
                _ => {
                    self.phase = DecodePhase::Flushing;
                    DecodeAction::Receive
                },
            },
            DecodePhase::FlushSending { .. } => {
                self.phase = DecodePhase::Flushing;
                DecodeAction::Receive
            },
            DecodePhase::Ended => DecodeAction::Exit,
        }
    }
}

/// While a frame is scaled or sent, the target of the seek has been reached.
pub open spec fn has_arrived(d: VideoDecoder) -> bool {
    d.phase is Scaling || d.phase is Sending ==> d.target is None
}

/// No step forgets that the target of a seek has been reached; while packets come, no frame is
/// sent before it has been; and no frame is scaled that came too late for the audio.
pub proof fn lemma_video_starts_at_target(d: VideoDecoder, e: DecodeEvent)
    requires
        d.wf(),
        has_arrived(d),
        can_come(d.phase, e),
    ensures
        ({
            let (after, action) = decoded(d, e);
            &&& has_arrived(after)
            &&& d.target is None ==> after.target is None
            &&& d.phase is Scaling && action is Send ==> d.target is None
            &&& d.phase is Receiving && action is Scale ==> !is_early(
                d.target,
                d.time_base.time(stamp(e->best_effort, e->Frame_pts)),
            ) && !is_late(e->audio, d.time_base.time(stamp(e->best_effort, e->Frame_pts)))
            &&& d.target is Some && after.target is None ==> e is Frame && d.time_base.time(
                stamp(e->best_effort, e->Frame_pts),
            ) >= d.target->0 - SEEK_SLACK
        }),
{
}

/// What a new session sets up: where the container is sought to, which stream is heard, and what
/// the device plays.
#[derive(Clone, Copy, Debug)]
pub struct SessionPlan {
    pub seek_to: Option<i64>,
    pub audio_idx: Option<usize>,
    pub sample_rate: u32,
    pub channels: u16,
}

/// The sample rate and the number of channels that are taken where no device tells them.
pub const DEFAULT_SAMPLE_RATE: u32 = 48000;

/// See [`DEFAULT_SAMPLE_RATE`].
pub const DEFAULT_CHANNELS: u16 = 2;

/// The plan of a session that plays from `position`.
pub open spec fn session_plan(
    position: i64,
    audio_stream: Option<usize>,
    decoder_opened: bool,
    device: Option<(u32, u16)>,
) -> SessionPlan {
    let audio_idx = if decoder_opened {
        audio_stream
    } else {
        None
    };
    let (sample_rate, channels) = if audio_idx is Some && device is Some {
        device->0
    } else {
        (DEFAULT_SAMPLE_RATE, DEFAULT_CHANNELS)
    };
    SessionPlan {
        seek_to: if position > 0 {
            Some(position)
        } else {
            None
        },
        audio_idx,
        sample_rate,
        channels,
    }
}

/// Plans a session that plays from `position`. The audio stream counts only if its decoder could
/// be opened; then the device's sample rate and number of channels count, if there is a device.
pub fn plan_session(
    position: i64,
    audio_stream: Option<usize>,
    decoder_opened: bool,
    device: Option<(u32, u16)>,
) -> (r: SessionPlan)
    ensures
        r == session_plan(position, audio_stream, decoder_opened, device),
{
    let audio_idx: Option<usize> = if decoder_opened {
        audio_stream
    } else {
        None
    };
    let mut sample_rate: u32 = DEFAULT_SAMPLE_RATE;
    let mut channels: u16 = DEFAULT_CHANNELS;
    if audio_idx.is_some() {
        if let Some(d) = device {
            sample_rate = d.0;
            channels = d.1;
        }
    }
    SessionPlan {
        seek_to: if position > 0 {
            Some(position)
        } else {
            None
        },
        audio_idx,
        sample_rate,
        channels,
    }
}

/// How many channels the audio is resampled to: at most two, and one where the device has one.
pub fn resampled_channels(device_channels: u16) -> (r: u16)
    ensures
        r == if device_channels >= 2 {
            2u16
        } else {
            1u16
        },
{
    if device_channels >= 2 {
        2
    } else {
        1
    }
}

/// The rows of an image of `width` times `height` pixels, out of data in which they start
/// `stride` bytes apart.
pub open spec fn rows_of(data: Seq<u8>, width: int, height: int, stride: int) -> Seq<u8> {
    Seq::new(
        (width * 4 * height) as nat,
        |i: int| data[(i / (width * 4)) * stride + i % (width * 4)],
    )
}

/// Copies the rows of an image, without what lies between them.
pub fn copy_rgba_frame(data: &Vec<u8>, width: u32, height: u32, stride: usize) -> (r: Vec<u8>)
    requires
        width * 4 <= usize::MAX,
        height > 0 ==> (height - 1) * stride + width * 4 <= data@.len(),
    ensures
        r@ == rows_of(data@, width as int, height as int, stride as int),
{
    let row: usize = width as usize * 4;
    let len: usize = data.len();
    let mut out: Vec<u8> = Vec::new();
    let mut y: u32 = 0;
    let mut start: usize = 0;
    proof {
        assert(row as int * 0 == 0) by (nonlinear_arith);
        assert(stride as int * 0 == 0) by (nonlinear_arith);
    }
    while y < height
        invariant
            y <= height,
            row == width * 4,
            len == data@.len(),
            height > 0 ==> (height - 1) * stride + row <= len,
            y < height ==> start == y * stride,
            out@.len() == y * row,
            forall|i: int| 0 <= i < out@.len() ==> #[trigger] out@[i] == data@[(i / (row as int))
                * stride + i % (row as int)],
        decreases height - y,
    {
        proof {
            assert(y * stride + row <= (height - 1) * stride + row) by (nonlinear_arith)
                requires
                    y <= height - 1,
                    stride >= 0,
            ;
        }
        let mut k: usize = 0;
        while k < row
            invariant
                k <= row,
                y < height,
                start == y * stride,
                start + row <= len,
                len == data@.len(),
                out@.len() == y * row + k,
                forall|i: int|
                    0 <= i < out@.len() ==> #[trigger] out@[i] == data@[(i / (row as int)) * stride
                        + i % (row as int)],
            decreases row - k,
        {
            proof {
                vstd::arithmetic::div_mod::lemma_fundamental_div_mod_converse(
                    y * row + k,
                    row as int,
                    y as int,
                    k as int,
                );
            }
            out.push(data[start + k]);
            k = k + 1;
        }
        proof {
            assert((y + 1) * row == y * row + row) by (nonlinear_arith);
            assert((y + 1) * stride == y * stride + stride) by (nonlinear_arith);
            if y + 1 < height {
                assert((y + 1) * stride <= (height - 1) * stride) by (nonlinear_arith)
                    requires
                        y + 1 <= height - 1,
                        stride >= 0,
                ;
            }
        }
        y = y + 1;
        if y < height {
            start = start + stride;
        }
    }
    assert(height * row == row * height) by (nonlinear_arith);
    assert(out@ =~= rows_of(data@, width as int, height as int, stride as int));
    out
}

/// How many samples there are of `nb_samples` for each of so many channels.
pub open spec fn sample_count(has_data: bool, nb_samples: int, channels: int) -> int {
    if has_data {
        nb_samples * channels
    } else {
        0
    }
}

/// Splits the bytes of a resampled frame into samples of four bytes each.
pub fn extract_f32_samples(data: Option<&Vec<u8>>, nb_samples: usize, expected_channels: u16) -> (r:
    Vec<[u8; 4]>)
    requires
        data matches Some(bytes) ==> nb_samples * expected_channels * 4 <= bytes@.len(),
    ensures
        r@.len() == sample_count(data is Some, nb_samples as int, expected_channels as int),
        forall|i: int, j: int|
            0 <= i < r@.len() && 0 <= j < 4 ==> #[trigger] r@[i]@[j] == data->0@[4 * i + j],
{
    let mut out: Vec<[u8; 4]> = Vec::new();
    let bytes: &Vec<u8> = match data {
        Some(b) => b,
        None => {
            return out;
        },
    };
    let len: usize = bytes.len();
    let ghost count = nb_samples * expected_channels;
    proof {
        assert(0 <= count) by (nonlinear_arith)
            requires
                count == nb_samples * expected_channels,
        ;
    }
    let total: usize = nb_samples * expected_channels as usize;
    let mut i: usize = 0;
    while i < total
        invariant
            i <= total,
            total * 4 <= len,
            len == bytes@.len(),
            out@.len() == i,
            forall|k: int, j: int|
                0 <= k < i && 0 <= j < 4 ==> #[trigger] out@[k]@[j] == bytes@[4 * k + j],
        decreases total - i,
    {
        let at: usize = i * 4;
        out.push([bytes[at], bytes[at + 1], bytes[at + 2], bytes[at + 3]]);
        i = i + 1;
    }
    out
}

/// The channel of the source that channel `c` of the output takes its sample from: the same one,
/// or the last where the source has fewer.
pub open spec fn source_channel(c: int, src_channels: int) -> int {
    if c < src_channels {
        c
    } else {
        src_channels - 1
    }
}

/// Brings samples from one number of channels to another.
pub fn adapt_channels<T: Copy>(samples: &Vec<T>, src_channels: u16, dst_channels: u16) -> (r: Vec<T>)
    requires
        src_channels != dst_channels ==> src_channels > 0,
        src_channels != dst_channels ==> (samples@.len() / src_channels as nat) * dst_channels
            <= usize::MAX,
    ensures
        src_channels == dst_channels ==> r@ == samples@,
        src_channels != dst_channels ==> {
            let frames = samples@.len() / src_channels as nat;
            &&& r@.len() == frames * dst_channels
            &&& forall|i: int, c: int|
                #![trigger r@[i * dst_channels + c]]
                0 <= i < frames && 0 <= c < dst_channels ==> r@[i * dst_channels + c] == samples@[i
                    * src_channels + source_channel(c, src_channels as int)]
        },
{
    let len: usize = samples.len();
    let mut out: Vec<T> = Vec::new();
    if src_channels == dst_channels {
        let mut i: usize = 0;
        while i < len
            invariant
                i <= len,
                len == samples@.len(),
                out@.len() == i,
                forall|k: int| 0 <= k < i ==> out@[k] == samples@[k],
            decreases len - i,
        {
            out.push(samples[i]);
            i = i + 1;
        }
        assert(out@ =~= samples@);
        return out;
    }
    let src: usize = src_channels as usize;
    let dst: usize = dst_channels as usize;
    let frames: usize = len / src;
    proof {
        vstd::arithmetic::div_mod::lemma_fundamental_div_mod(len as int, src as int);
        assert(frames * src <= len) by (nonlinear_arith)
            requires
                len as int == (src as int) * (frames as int) + len as int % src as int,
                len as int % src as int >= 0,
        ;
        assert(0 * dst == 0) by (nonlinear_arith);
    }
    let mut i: usize = 0;
    while i < frames
        invariant
            i <= frames,
            src == src_channels,
            dst == dst_channels,
            src > 0,
            len == samples@.len(),
            frames * src <= len,
            frames * dst <= usize::MAX,
            out@.len() == i * dst,
            forall|k: int, c: int|
                #![trigger out@[k * dst + c]]
                0 <= k < i && 0 <= c < dst ==> out@[k * dst + c] == samples@[k * src
                    + source_channel(c, src as int)],
        decreases frames - i,
    {
        proof {
            assert(i * src + src <= frames * src) by (nonlinear_arith)
                requires
                    i + 1 <= frames,
                    src >= 0,
            ;
            assert((i + 1) * dst == i * dst + dst) by (nonlinear_arith);
        }
        let base: usize = i * src;
        let ghost done = out@;
        let mut c: usize = 0;
        while c < dst
            invariant
                c <= dst,
                src > 0,
                base == i * src,
                base + src <= len,
                len == samples@.len(),
                done.len() == i * dst,
                out@.len() == done.len() + c,
                forall|k: int| 0 <= k < done.len() ==> out@[k] == done[k],
                forall|e: int|
                    0 <= e < c ==> #[trigger] out@[done.len() + e] == samples@[base
                        + source_channel(e, src as int)],
            decreases dst - c,
        {
            let from: usize = if c < src {
                base + c
            } else {
                base + src - 1
            };
            out.push(samples[from]);
            c = c + 1;
        }
        proof {
            assert forall|k: int, e: int|
                #![trigger out@[k * dst + e]]
                0 <= k < i + 1 && 0 <= e < dst implies out@[k * dst + e] == samples@[k * src
                + source_channel(e, src as int)] by {
                if k < i {
                    assert(0 <= k * dst + e < i * dst) by (nonlinear_arith)
                        requires
                            0 <= k,
                            k + 1 <= i,
                            0 <= e < dst,
                    ;
                    assert(done[k * dst + e] == samples@[k * src + source_channel(e, src as int)]);
                } else {
                    assert(k * dst + e == done.len() + e);
                }
            }
        }
        i = i + 1;
    }
    out
}

} // verus!
