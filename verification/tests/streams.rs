use visual_media_viewer::decoding::{
    adapt_channels, copy_rgba_frame, extract_f32_samples, plan_session, resampled_channels,
    DecodeAction, DecodeEvent, DemuxAction, DemuxEvent, Demuxer, TimeBase, VideoDecoder,
    NO_TIMESTAMP,
};
use visual_media_viewer::media_time::{media_duration, ticks_to_micros};
use visual_media_viewer::scaling::fit_dimensions;

const MILLIS: TimeBase = TimeBase { num: 1, den: 1000 };

fn demuxer(position: i64) -> Demuxer {
    Demuxer::new(0, Some(1), true, true, MILLIS, position)
}

fn audio_packet() -> DemuxEvent {
    DemuxEvent::Packet { stream: 1, empty: false }
}

fn audio_frame(millis: i64) -> DemuxEvent {
    DemuxEvent::Frame { best_effort: millis, pts: None }
}

fn video_frame(millis: i64, audio: Option<i64>) -> DecodeEvent {
    DecodeEvent::Frame { best_effort: millis, pts: None, audio }
}

#[test]
fn ticks_come_to_microseconds() {
    assert_eq!(ticks_to_micros(90_000, 1, 90_000), 1_000_000);
    assert_eq!(ticks_to_micros(1, 1001, 30_000), 33_366);
    assert_eq!(ticks_to_micros(-1, 1001, 30_000), -33_367);
    assert_eq!(ticks_to_micros(0, 1, 25), 0);
    assert_eq!(ticks_to_micros(i64::MAX, i32::MAX, 1), i64::MAX);
}

#[test]
fn the_length_is_that_of_the_stream_or_the_container() {
    assert_eq!(media_duration(2500, 1, 1000, 7), 2_500_000);
    assert_eq!(media_duration(0, 1, 1000, 7), 7);
    assert_eq!(media_duration(-5, 1, 1000, 7), 7);
}

#[test]
fn packets_go_where_they_belong() {
    let mut d = demuxer(0);
    let full = DemuxEvent::Packet { stream: 0, empty: false };
    let empty = DemuxEvent::Packet { stream: 0, empty: true };
    let other = DemuxEvent::Packet { stream: 2, empty: false };
    assert!(matches!(d.step(empty), DemuxAction::Read));
    assert!(matches!(d.step(other), DemuxAction::Read));
    assert!(matches!(d.step(DemuxEvent::ReadError), DemuxAction::Read));
    assert!(matches!(d.step(full), DemuxAction::SendVideo));
    assert!(matches!(d.step(DemuxEvent::Full), DemuxAction::WaitAndSendVideo));
    assert!(matches!(d.step(DemuxEvent::Sent), DemuxAction::Read));
    assert!(matches!(d.step(full), DemuxAction::SendVideo));
    assert!(matches!(d.step(DemuxEvent::Disconnected), DemuxAction::Exit));
}

#[test]
fn audio_is_decoded_resampled_and_sent() {
    let mut d = demuxer(0);
    assert!(matches!(d.step(audio_packet()), DemuxAction::Submit));
    assert!(matches!(d.step(DemuxEvent::Accepted), DemuxAction::Receive));
    assert!(matches!(d.step(audio_frame(40)), DemuxAction::Resample));
    let samples = DemuxEvent::Samples { empty: false };
    assert!(matches!(d.step(samples), DemuxAction::SendAudio { pts: 40_000 }));
    assert!(matches!(d.step(DemuxEvent::Full), DemuxAction::WaitAndSendAudio { pts: 40_000 }));
    assert!(matches!(d.step(DemuxEvent::Sent), DemuxAction::Receive));
    assert_eq!(d.last_audio_pts, 40_000);
    assert!(matches!(d.step(audio_frame(60)), DemuxAction::Resample));
    assert!(matches!(d.step(DemuxEvent::Samples { empty: true }), DemuxAction::Receive));
    assert!(matches!(d.step(DemuxEvent::NoFrame), DemuxAction::Read));
    assert!(matches!(d.step(audio_packet()), DemuxAction::Submit));
    assert!(matches!(d.step(DemuxEvent::Rejected), DemuxAction::Read));
    assert_eq!(d.last_audio_pts, 40_000);
}

#[test]
fn audio_before_the_target_of_a_seek_is_dropped() {
    let mut d = demuxer(1_000_000);
    d.step(audio_packet());
    d.step(DemuxEvent::Accepted);
    assert!(matches!(d.step(audio_frame(949)), DemuxAction::Receive));
    assert_eq!(d.target, Some(1_000_000));
    assert!(matches!(d.step(audio_frame(950)), DemuxAction::Resample));
    assert_eq!(d.target, None);
    d.step(DemuxEvent::NotResampled);
    assert!(matches!(d.step(audio_frame(1)), DemuxAction::Resample));
}

#[test]
fn a_seek_near_the_start_drops_nothing() {
    assert_eq!(demuxer(100_000).target, None);
    assert_eq!(demuxer(100_001).target, Some(100_001));
}

#[test]
fn what_the_audio_decoder_holds_is_played_out() {
    let mut d = demuxer(0);
    d.step(audio_packet());
    d.step(DemuxEvent::Accepted);
    d.step(audio_frame(40));
    d.step(DemuxEvent::Samples { empty: false });
    d.step(DemuxEvent::Sent);
    d.step(DemuxEvent::NoFrame);
    assert!(matches!(d.step(DemuxEvent::EndOfFile), DemuxAction::Flush));
    assert!(matches!(d.step(audio_frame(99)), DemuxAction::Resample));
    let samples = DemuxEvent::Samples { empty: false };
    assert!(matches!(d.step(samples), DemuxAction::TrySendAudio { pts: 40_000 }));
    assert!(matches!(d.step(DemuxEvent::Full), DemuxAction::Receive));
    assert!(matches!(d.step(DemuxEvent::NoFrame), DemuxAction::Exit));
}

#[test]
fn without_audio_there_is_nothing_to_play_out() {
    let mut d = Demuxer::new(0, None, false, false, MILLIS, 0);
    assert!(matches!(d.step(audio_packet()), DemuxAction::Read));
    assert!(matches!(d.step(DemuxEvent::Stop), DemuxAction::Exit));
    let mut muted = Demuxer::new(0, Some(1), true, false, MILLIS, 0);
    muted.step(audio_packet());
    muted.step(DemuxEvent::Accepted);
    assert!(matches!(muted.step(audio_frame(5)), DemuxAction::Receive));
    muted.step(DemuxEvent::NoFrame);
    assert!(matches!(muted.step(DemuxEvent::Stop), DemuxAction::Flush));
    assert!(matches!(muted.step(audio_frame(5)), DemuxAction::Receive));
}

#[test]
fn a_frame_without_timestamp_takes_its_own() {
    let mut d = demuxer(0);
    d.step(audio_packet());
    d.step(DemuxEvent::Accepted);
    d.step(DemuxEvent::Frame { best_effort: NO_TIMESTAMP, pts: Some(7) });
    let samples = DemuxEvent::Samples { empty: false };
    assert!(matches!(d.step(samples), DemuxAction::SendAudio { pts: 7_000 }));
    d.step(DemuxEvent::Sent);
    d.step(DemuxEvent::Frame { best_effort: NO_TIMESTAMP, pts: None });
    assert!(matches!(d.step(samples), DemuxAction::SendAudio { pts: 0 }));
}

#[test]
fn frames_are_decoded_scaled_and_sent() {
    let mut v = VideoDecoder::new(MILLIS, 0);
    assert!(matches!(v.step(DecodeEvent::Packet), DecodeAction::Submit));
    assert!(matches!(v.step(DecodeEvent::Accepted), DecodeAction::Receive));
    assert!(matches!(v.step(video_frame(33, None)), DecodeAction::Scale));
    assert!(matches!(v.step(DecodeEvent::Scaled), DecodeAction::Send { pts: 33_000 }));
    assert!(matches!(v.step(DecodeEvent::Sent), DecodeAction::Receive));
    assert!(matches!(v.step(video_frame(66, None)), DecodeAction::Scale));
    assert!(matches!(v.step(DecodeEvent::NotScaled), DecodeAction::Receive));
    assert!(matches!(v.step(DecodeEvent::NoFrame), DecodeAction::AwaitPacket));
    assert!(matches!(v.step(DecodeEvent::Packet), DecodeAction::Submit));
    assert!(matches!(v.step(DecodeEvent::Rejected), DecodeAction::AwaitPacket));
    assert!(matches!(v.step(DecodeEvent::Stop), DecodeAction::Exit));
}

#[test]
fn frames_that_are_too_early_or_too_late_are_dropped() {
    let mut v = VideoDecoder::new(MILLIS, 2_000_000);
    v.step(DecodeEvent::Packet);
    v.step(DecodeEvent::Accepted);
    assert!(matches!(v.step(video_frame(1949, None)), DecodeAction::Receive));
    assert_eq!(v.target, Some(2_000_000));
    assert!(matches!(v.step(video_frame(2000, Some(2_150_001))), DecodeAction::Receive));
    assert_eq!(v.target, None);
    assert!(matches!(v.step(video_frame(2000, Some(2_150_000))), DecodeAction::Scale));
    v.step(DecodeEvent::NotScaled);
    assert!(matches!(v.step(video_frame(0, Some(500_000))), DecodeAction::Scale));
}

#[test]
fn the_last_frames_are_sent_under_their_own_time() {
    let mut v = VideoDecoder::new(MILLIS, 5_000_000);
    assert!(matches!(v.step(DecodeEvent::NoMorePackets), DecodeAction::Flush));
    let last = DecodeEvent::Frame { best_effort: 99, pts: Some(12), audio: Some(9_000_000) };
    assert!(matches!(v.step(last), DecodeAction::Scale));
    assert!(matches!(v.step(DecodeEvent::Scaled), DecodeAction::Send { pts: 12_000 }));
    assert!(matches!(v.step(DecodeEvent::Disconnected), DecodeAction::Receive));
    assert!(matches!(v.step(DecodeEvent::NoFrame), DecodeAction::Exit));
}

#[test]
fn a_viewer_that_no_longer_listens_ends_decoding() {
    let mut v = VideoDecoder::new(MILLIS, 0);
    v.step(DecodeEvent::Packet);
    v.step(DecodeEvent::Accepted);
    v.step(video_frame(0, None));
    v.step(DecodeEvent::Scaled);
    assert!(matches!(v.step(DecodeEvent::Disconnected), DecodeAction::Exit));
}

#[test]
fn a_session_is_planned_for_its_device() {
    let plan = plan_session(0, Some(1), true, Some((44100, 6)));
    assert_eq!(plan.seek_to, None);
    assert_eq!(plan.audio_idx, Some(1));
    assert_eq!((plan.sample_rate, plan.channels), (44100, 6));
    let mute = plan_session(5, Some(1), false, Some((44100, 6)));
    assert_eq!(mute.seek_to, Some(5));
    assert_eq!(mute.audio_idx, None);
    assert_eq!((mute.sample_rate, mute.channels), (48000, 2));
    let no_device = plan_session(-5, Some(1), true, None);
    assert_eq!(no_device.seek_to, None);
    assert_eq!((no_device.sample_rate, no_device.channels), (48000, 2));
}

#[test]
fn audio_is_resampled_to_stereo_at_most() {
    assert_eq!(resampled_channels(1), 1);
    assert_eq!(resampled_channels(2), 2);
    assert_eq!(resampled_channels(8), 2);
}

#[test]
fn rows_are_copied_without_their_padding() {
    let tight: Vec<u8> = (0..16).collect();
    assert_eq!(copy_rgba_frame(&tight, 2, 2, 8), tight);
    let padded: Vec<u8> = (0..20).collect();
    assert_eq!(copy_rgba_frame(&padded, 1, 2, 8), vec![0, 1, 2, 3, 8, 9, 10, 11]);
    assert_eq!(copy_rgba_frame(&Vec::new(), 5, 0, 8), Vec::<u8>::new());
}

#[test]
fn samples_are_taken_four_bytes_at_a_time() {
    let bytes: Vec<u8> = (0..20).collect();
    assert_eq!(
        extract_f32_samples(Some(&bytes), 2, 2),
        vec![[0, 1, 2, 3], [4, 5, 6, 7], [8, 9, 10, 11], [12, 13, 14, 15]]
    );
    assert_eq!(extract_f32_samples(Some(&bytes), 0, 2), Vec::<[u8; 4]>::new());
    assert_eq!(extract_f32_samples(None, 9, 2), Vec::<[u8; 4]>::new());
    let value: f32 = 0.25;
    let one = extract_f32_samples(Some(&value.to_ne_bytes().to_vec()), 1, 1);
    assert_eq!(f32::from_ne_bytes(one[0]), 0.25);
}

#[test]
fn channels_are_adapted() {
    let stereo = vec![1, 2, 3, 4];
    assert_eq!(adapt_channels(&stereo, 2, 2), stereo);
    assert_eq!(adapt_channels(&stereo, 2, 4), vec![1, 2, 2, 2, 3, 4, 4, 4]);
    assert_eq!(adapt_channels(&stereo, 2, 1), vec![1, 3]);
    assert_eq!(adapt_channels(&vec![7, 8], 1, 3), vec![7, 7, 7, 8, 8, 8]);
    assert_eq!(adapt_channels(&vec![1, 2, 3], 2, 1), vec![1]);
}

#[test]
fn frames_that_fit_keep_their_size() {
    assert_eq!(fit_dimensions(1920, 1080, 1920, 1080), (1920, 1080));
    assert_eq!(fit_dimensions(641, 359, 1920, 1080), (641, 359));
    assert_eq!(fit_dimensions(0, 0, 1920, 1080), (0, 0));
}

#[test]
fn frames_that_do_not_fit_are_scaled_to_even_sides() {
    assert_eq!(fit_dimensions(3840, 2160, 1920, 1080), (1920, 1080));
    assert_eq!(fit_dimensions(1080, 1920, 1920, 1080), (606, 1080));
    assert_eq!(fit_dimensions(4096, 2160, 1920, 1080), (1920, 1012));
    assert_eq!(fit_dimensions(100_000, 1, 1920, 1080), (1918, 2));
    assert_eq!(fit_dimensions(0, 4000, 1920, 1080), (2, 1080));
    assert_eq!(fit_dimensions(4000, 0, 1920, 1080), (1920, 2));
    assert_eq!(fit_dimensions(10, 10, 0, 0), (2, 2));
}

#[test]
fn frames_are_scaled_in_double_precision() {
    let mut seed: u64 = 1;
    for i in 0..200_000u32 {
        seed = seed.wrapping_mul(6_364_136_223_846_793_005).wrapping_add(1_442_695_040_888_963_407);
        let shift = 32 + i % 32;
        let (w, h) = ((seed >> shift) as u32, ((seed << 13) >> shift) as u32);
        let (max_w, max_h) = if i % 3 == 0 {
            (1920, 1080)
        } else {
            ((seed >> 7) as u32 >> (i % 29), (seed >> 11) as u32 >> (i % 31))
        };
        let expected = if w <= max_w && h <= max_h {
            (w, h)
        } else {
            let scale = (max_w as f64 / w as f64).min(max_h as f64 / h as f64);
            (((w as f64 * scale) as u32).max(2) & !1, ((h as f64 * scale) as u32).max(2) & !1)
        };
        assert_eq!(fit_dimensions(w, h, max_w, max_h), expected, "{w} {h} {max_w} {max_h}");
    }
    for w in 1921..12_000u32 {
        let scale = (1920.0 / w as f64).min(1080.0 / 1080.0);
        let expected = (((w as f64 * scale) as u32) & !1, ((1080.0 * scale) as u32).max(2) & !1);
        assert_eq!(fit_dimensions(w, 1080, 1920, 1080), expected, "{w}");
    }
}

#[test]
fn scaled_frames_fit() {
    for w in (1..60_000).step_by(977) {
        for h in (1..60_000).step_by(991) {
            let (out_w, out_h) = fit_dimensions(w, h, 1920, 1080);
            assert!(out_w <= 1920 && out_h <= 1080);
        }
    }
}
