use std::collections::VecDeque;
use visual_media_viewer::audio::{
    buffer_latency, AudioChunk, AudioClock, AudioSink, ChunkFeed,
};
use visual_media_viewer::video_player::{
    FrameFeed, MediaInfo, PlaybackState, SeekResult, VideoFrame, VideoPlayer,
};

const SECOND: i64 = 1_000_000;

fn frame(pts: i64) -> VideoFrame {
    VideoFrame { rgba: vec![0; 4], width: 1, height: 1, pts }
}

fn feed(times: &[i64], disconnected: bool) -> FrameFeed {
    let mut frames = VecDeque::new();
    for t in times {
        frames.push_back(frame(*t));
    }
    FrameFeed { frames, disconnected }
}

fn player(has_audio: bool) -> VideoPlayer {
    let info = MediaInfo {
        duration: 60 * SECOND,
        video_size: [640, 480],
        diag_info: "info".to_string(),
        has_audio,
    };
    VideoPlayer::open(Ok(info), 0, true).ok().unwrap()
}

fn shown(player: &VideoPlayer) -> Option<i64> {
    player.current_frame.as_ref().map(|f| f.pts)
}

fn clock() -> AudioClock {
    AudioClock::new(2, 48000)
}

fn chunk(samples: &[i32], pts: i64) -> AudioChunk<i32> {
    AudioChunk { samples: samples.to_vec(), pts }
}

fn chunks(list: Vec<AudioChunk<i32>>, disconnected: bool) -> ChunkFeed<i32> {
    ChunkFeed { chunks: VecDeque::from(list), disconnected }
}

#[test]
fn a_video_that_cannot_be_read_is_not_opened() {
    let refused = VideoPlayer::open(Err("No video stream found".to_string()), 0, true);
    assert_eq!(refused.err().unwrap(), "No video stream found");
}

#[test]
fn a_video_opens_buffering_at_its_start() {
    let p = player(true);
    assert_eq!(p.state, PlaybackState::Playing);
    assert!(p.is_buffering());
    assert_eq!(p.volume(), 100);
    assert_eq!(p.video_size, [640, 480]);
    assert_eq!(p.current_pts(None, 5 * SECOND), 0);
    assert!(p.audio_paused);
}

#[test]
fn a_video_without_decoder_is_over() {
    let info = MediaInfo {
        duration: 0,
        video_size: [1, 1],
        diag_info: String::new(),
        has_audio: false,
    };
    let p = VideoPlayer::open(Ok(info), 0, false).ok().unwrap();
    assert_eq!(p.state, PlaybackState::Finished);
    assert!(!p.session);
}

#[test]
fn eight_frames_start_playback() {
    let mut p = player(false);
    let mut f = feed(&[0, 10, 20, 30, 40, 50, 60], false);
    assert!(p.poll_frame(&mut f, None, 0, 100).is_none());
    assert!(p.is_buffering());
    let mut g = feed(&[70], false);
    assert_eq!(p.poll_frame(&mut g, None, 0, 1000).map(|f| f.pts), Some(0));
    assert!(!p.is_buffering());
    assert!(!p.audio_paused);
    assert_eq!(p.playback_start, 1000);
    assert_eq!(p.poll_frame(&mut g, None, 0, 1025).map(|f| f.pts), Some(20));
    assert_eq!(p.poll_frame(&mut g, None, 0, 1025).map(|f| f.pts), Some(20));
}

#[test]
fn two_seconds_start_playback_with_fewer_frames() {
    let mut p = player(false);
    let mut f = feed(&[500, 600], false);
    assert!(p.poll_frame(&mut f, None, 0, 100).is_none());
    assert!(p.poll_frame(&mut f, None, 0, 99 + 2 * SECOND).is_none());
    assert_eq!(p.poll_frame(&mut f, None, 0, 100 + 2 * SECOND).map(|f| f.pts), Some(500));
    assert_eq!(p.playback_start_pts, 500);
    assert_eq!(p.current_pts(None, 0), 500);
}

#[test]
fn a_decoder_that_ends_early_starts_or_ends_playback() {
    let mut p = player(false);
    let mut f = feed(&[0], true);
    assert_eq!(p.poll_frame(&mut f, None, 0, 0).map(|f| f.pts), Some(0));
    assert_eq!(p.state, PlaybackState::Finished);
    let mut q = player(false);
    let mut none = feed(&[], true);
    assert!(q.poll_frame(&mut none, None, 0, 0).is_none());
    assert_eq!(q.state, PlaybackState::Finished);
}

#[test]
fn frames_that_are_late_are_passed_over() {
    let mut p = player(false);
    let mut f = feed(&[0, 10, 20, 30, 40, 50, 60, 70], false);
    p.poll_frame(&mut f, None, 0, 0);
    let mut g = feed(&[80, 90, 100, 110], false);
    assert_eq!(p.poll_frame(&mut g, None, 0, 95).map(|f| f.pts), Some(90));
    assert_eq!(p.buffered_frame.as_ref().map(|f| f.pts), Some(100));
    assert_eq!(g.frames.len(), 1);
}

#[test]
fn a_video_ends_after_its_last_frame() {
    let mut p = player(false);
    let mut f = feed(&[0, 10, 20, 30, 40, 50, 60, 70], true);
    assert_eq!(p.poll_frame(&mut f, None, 0, 0).map(|f| f.pts), Some(0));
    assert_eq!(p.state, PlaybackState::Playing);
    assert_eq!(p.poll_frame(&mut f, None, 0, 69).map(|f| f.pts), Some(60));
    assert_eq!(p.state, PlaybackState::Playing);
    assert_eq!(p.poll_frame(&mut f, None, 0, 70).map(|f| f.pts), Some(70));
    assert_eq!(p.state, PlaybackState::Finished);
    assert_eq!(p.poll_frame(&mut f, None, 0, 900).map(|f| f.pts), Some(70));
}

#[test]
fn the_audio_clock_leads_unless_it_lags() {
    let mut p = player(true);
    let mut f = feed(&[0, 100_000, 200_000, 300_000, 400_000, 500_000, 600_000, 700_000], false);
    p.poll_frame(&mut f, None, 0, 0);
    assert_eq!(p.poll_frame(&mut f, Some(150_000), 0, 400_000).map(|f| f.pts), Some(100_000));
    assert_eq!(p.poll_frame(&mut f, Some(150_000), 0, 650_000).map(|f| f.pts), Some(600_000));
}

#[test]
fn the_offset_moves_frames() {
    let mut p = player(false);
    let mut f = feed(&[0, 100, 200, 300, 400, 500, 600, 700], false);
    p.poll_frame(&mut f, None, 0, 0);
    assert_eq!(p.poll_frame(&mut f, None, -100, 250).map(|f| f.pts), Some(100));
    assert_eq!(p.poll_frame(&mut f, None, 200, 250).map(|f| f.pts), Some(400));
}

#[test]
fn time_stands_still_while_paused() {
    let mut p = player(false);
    let mut f = feed(&[0, 100, 200, 300, 400, 500, 600, 700], false);
    p.poll_frame(&mut f, None, 0, 0);
    p.poll_frame(&mut f, None, 0, 150);
    p.toggle_pause(150, true);
    assert_eq!(p.state, PlaybackState::Paused);
    assert!(p.audio_paused);
    assert_eq!(p.poll_frame(&mut f, None, 0, 600).map(|f| f.pts), Some(100));
    p.toggle_pause(1000, true);
    assert_eq!(p.state, PlaybackState::Playing);
    assert!(!p.audio_paused);
    assert_eq!(p.poll_frame(&mut f, None, 0, 1040).map(|f| f.pts), Some(100));
    assert_eq!(p.poll_frame(&mut f, None, 0, 1050).map(|f| f.pts), Some(200));
}

#[test]
fn a_finished_video_is_played_again() {
    let mut p = player(false);
    p.stop();
    assert_eq!(p.state, PlaybackState::Finished);
    assert!(!p.session);
    p.toggle_pause(77, true);
    assert_eq!(p.state, PlaybackState::Playing);
    assert!(p.is_buffering());
    assert_eq!(p.playback_start, 77);
    assert_eq!(shown(&p), None);
}

#[test]
fn a_seek_stays_within_the_video() {
    let mut p = player(false);
    assert_eq!(p.seek(-1, 0, true), Err(SeekResult::BeforeStart));
    assert_eq!(p.seek(60 * SECOND, 0, true), Err(SeekResult::PastEnd));
    assert_eq!(p.seek(30 * SECOND, 5, true), Ok(()));
    assert_eq!(p.current_pts(None, 99), 30 * SECOND);
    assert!(p.is_buffering());
    p.duration = 0;
    assert_eq!(p.seek(100 * SECOND, 5, true), Ok(()));
    assert_eq!(p.check_seek(0), Ok(()));
}

#[test]
fn the_volume_has_a_limit() {
    let mut p = player(false);
    p.set_volume(250);
    assert_eq!(p.volume(), 200);
    p.set_volume(0);
    assert_eq!(p.volume(), 0);
}

#[test]
fn the_audio_clock_counts_samples() {
    let mut c = clock();
    assert_eq!(c.get(), None);
    c.set_base(2 * SECOND);
    assert_eq!(c.get(), Some(2 * SECOND));
    c.advance(96_000);
    assert_eq!(c.get(), Some(3 * SECOND));
    c.advance(48);
    assert_eq!(c.get(), Some(3 * SECOND + 500));
    c.set_latency(20_000);
    assert_eq!(c.get(), Some(3 * SECOND - 19_500));
    c.set_base(7);
    assert_eq!(c.get(), Some(7 - 20_000));
}

#[test]
fn the_latency_is_two_buffers() {
    assert_eq!(buffer_latency(960, 2, 48000), 20_000);
    assert_eq!(buffer_latency(961, 2, 48000), 20_000);
    assert_eq!(buffer_latency(0, 2, 48000), 0);
}

#[test]
fn samples_are_played_in_order_and_then_silence() {
    let mut sink: AudioSink<i32> = AudioSink::new();
    let mut c = clock();
    let mut f = chunks(vec![chunk(&[1, 2], 500), chunk(&[3], 900)], false);
    assert_eq!(sink.fill(2, false, &mut f, &mut c), vec![Some(1), Some(2)]);
    assert_eq!(c.base_pts, 500);
    assert_eq!(c.samples_consumed, 2);
    assert_eq!(sink.fill(3, false, &mut f, &mut c), vec![Some(3), None, None]);
    assert_eq!(c.base_pts, 500);
    assert_eq!(c.samples_consumed, 3);
    assert!(c.active);
}

#[test]
fn the_lag_is_told_once() {
    let mut sink: AudioSink<i32> = AudioSink::new();
    let mut c = clock();
    let mut f = chunks(Vec::new(), false);
    sink.fill(960, true, &mut f, &mut c);
    assert_eq!(c.latency, 20_000);
    sink.fill(96, true, &mut f, &mut c);
    assert_eq!(c.latency, 20_000);
}

#[test]
fn a_paused_sink_is_silent_and_keeps_its_samples() {
    let mut sink: AudioSink<i32> = AudioSink::new();
    let mut c = clock();
    let mut f = chunks(vec![chunk(&[1], 500)], true);
    assert_eq!(sink.fill(2, true, &mut f, &mut c), vec![None, None]);
    assert!(!c.active);
    assert_eq!(f.chunks.len(), 1);
    assert_eq!(sink.fill(2, false, &mut f, &mut c), vec![Some(1), None]);
    assert_eq!(c.get(), None);
}
