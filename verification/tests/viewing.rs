use std::path::{Component, Path};
use visual_media_viewer::controls::KeyOutcome;
use visual_media_viewer::file_list::{
    DirEntry, FileTime, GroupBy, PageKey, SortKey, SortOrder,
};
use visual_media_viewer::folders::{FolderNode, Search};
use visual_media_viewer::image_decode::{Color32, ColorImage};
use visual_media_viewer::keys::{
    key_interval, key_move, key_slideshow, key_turn, resize_edge, KeyInput, Move, ResizeEdge,
};
use visual_media_viewer::path::{MediaPath, PathPart};
use visual_media_viewer::settings::{
    FitModeSetting, GroupBySetting, Settings, SortKeySetting, SortOrderSetting,
};
use visual_media_viewer::transform::{FitMode, ViewTransform};
use visual_media_viewer::video_player::{MediaInfo, PlaybackState, VideoPlayer};
use visual_media_viewer::viewer::{needs_new_texture, LoadPlan, SeekPlan, ViewerApp};

const SECOND: i64 = 1_000_000;

fn media_path(text: &str) -> MediaPath {
    let mut parts: Vec<PathPart> = Vec::new();
    for part in Path::new(text).components() {
        parts.push(match part {
            Component::Prefix(p) => PathPart::Prefix(p.as_os_str().to_string_lossy().into_owned()),
            Component::RootDir => PathPart::Root,
            Component::CurDir => PathPart::Current,
            Component::ParentDir => PathPart::Above,
            Component::Normal(n) => PathPart::Name(n.to_string_lossy().into_owned()),
        });
    }
    MediaPath::new(parts)
}

fn file(text: &str, secs: i64) -> DirEntry {
    DirEntry {
        path: media_path(text),
        is_file: true,
        is_dir: false,
        modified: FileTime { secs, nanos: 0 },
        system_place: None,
    }
}

fn entries() -> Vec<DirEntry> {
    vec![file("/p/q/a.png", 3), file("/p/q/b.png", 1), file("/p/q/c.mp4", 2)]
}

fn image() -> ColorImage {
    ColorImage { size: [2, 1], pixels: vec![Color32 { r: 1, g: 2, b: 3, a: 255 }; 2] }
}

fn video(duration: i64) -> VideoPlayer {
    let info = MediaInfo {
        duration,
        video_size: [640, 480],
        diag_info: "Video: x".to_string(),
        has_audio: false,
    };
    VideoPlayer::open(Ok(info), 0, true).ok().unwrap()
}

fn viewer() -> ViewerApp {
    let mut app = ViewerApp::new(Settings::default(), 4096);
    app.open_file(&media_path("/p/q/a.png"), &entries(), 0);
    app
}

/// A viewer that shows the video of its list.
fn at_video(duration: i64) -> ViewerApp {
    let mut app = viewer();
    app.open_file(&media_path("/p/q/c.mp4"), &entries(), 0);
    app.video_opened(Ok(video(duration)));
    app
}

fn no_keys() -> KeyInput {
    KeyInput {
        right: false,
        left: false,
        up: false,
        down: false,
        page_up: false,
        page_down: false,
        r: false,
        s: false,
        d: false,
        f: false,
        n: false,
        plus: false,
        equals: false,
        minus: false,
        space: false,
        f12: false,
        s_held: false,
        shift: false,
        ctrl: false,
    }
}

fn current(app: &ViewerApp) -> String {
    match &app.file_list {
        Some(list) => match list.current_path() {
            Some(p) => p.file_name_text(),
            None => "none".to_string(),
        },
        None => "no list".to_string(),
    }
}

fn planned(plan: &LoadPlan) -> String {
    match plan {
        LoadPlan::Nothing => "nothing".to_string(),
        LoadPlan::Video(p) => format!("video {}", p.file_name_text()),
        LoadPlan::Cached => "cached".to_string(),
        LoadPlan::Decode(p) => format!("decode {}", p.file_name_text()),
    }
}

fn planned_or_none(plan: &Option<LoadPlan>) -> String {
    match plan {
        Some(p) => planned(p),
        None => "no plan".to_string(),
    }
}

fn press(app: &mut ViewerApp, k: KeyInput, now: i64) -> KeyOutcome {
    app.press_keys(&k, None, now)
}

#[test]
fn a_new_viewer_shows_nothing() {
    let app = ViewerApp::new(Settings::default(), 4096);
    assert_eq!(current(&app), "no list");
    assert_eq!(app.title_text(None, 0), "Visual Media Viewer");
    assert!(!app.slideshow.active);
    assert_eq!(app.slideshow.tenths, 30);
    assert_eq!(app.fit_mode, FitMode::FitToWindow);
}

#[test]
fn a_file_is_opened_in_its_folder() {
    let mut app = ViewerApp::new(Settings::default(), 4096);
    let plan = app.open_file(&media_path("/p/q/b.png"), &entries(), 5);
    assert_eq!(planned(&plan), "decode b.png");
    assert_eq!(current(&app), "b.png");
    assert_eq!(app.title_text(None, 0), "q/b.png (2 / 3)");
    assert_eq!(app.image_size, None);
    app.image_decoded(&media_path("/p/q/b.png"), Ok(image()));
    assert_eq!(app.image_size, Some((2, 1)));
    assert_eq!(planned(&app.load_current_image()), "cached");
    assert_eq!(app.image_size, Some((2, 1)));
}

#[test]
fn errors_are_shown_and_forgotten() {
    let mut app = viewer();
    app.image_decoded(&media_path("/p/q/a.png"), Err("broken".to_string()));
    assert_eq!(app.error_message, Some("broken".to_string()));
    app.next_image(0);
    assert_eq!(app.error_message, None);
    app.report_unresolved("x.png", "not found");
    assert_eq!(app.error_message, Some("Cannot resolve path x.png: not found".to_string()));
    app.video_opened(Err("No video stream found".to_string()));
    assert_eq!(app.error_message, Some("No video stream found".to_string()));
}

#[test]
fn files_follow_each_other() {
    let mut app = viewer();
    assert_eq!(planned_or_none(&app.next_image(7)), "decode b.png");
    assert_eq!(app.slideshow.last_advance, 7);
    assert_eq!(planned_or_none(&app.next_image(8)), "video c.mp4");
    assert_eq!(planned_or_none(&app.next_image(9)), "decode a.png");
    assert_eq!(planned_or_none(&app.prev_image(10)), "video c.mp4");
    assert_eq!(planned_or_none(&app.prev_image(11)), "decode b.png");
}

#[test]
fn pages_load_only_another_file() {
    let mut app = viewer();
    assert_eq!(planned_or_none(&app.page_image(PageKey::Down, 4)), "video c.mp4");
    assert_eq!(app.slideshow.last_advance, 4);
    assert_eq!(planned_or_none(&app.page_image(PageKey::Down, 5)), "decode a.png");
    assert_eq!(planned_or_none(&app.page_image(PageKey::Up, 6)), "no plan");
    assert_eq!(app.slideshow.last_advance, 5);
    assert_eq!(planned_or_none(&app.page_image(PageKey::Up, 7)), "video c.mp4");
}

#[test]
fn a_single_file_is_not_loaded_again() {
    let mut app = ViewerApp::new(Settings::default(), 4096);
    app.open_file(&media_path("/p/a.png"), &vec![file("/p/a.png", 0)], 0);
    assert_eq!(planned_or_none(&app.next_image(1)), "no plan");
    assert_eq!(planned(&app.menu_next(1)), "decode a.png");
    assert_eq!(planned(&app.menu_prev(1)), "decode a.png");
}

#[test]
fn a_folder_without_files_is_not_opened() {
    let mut app = viewer();
    assert_eq!(planned_or_none(&app.open_directory(&media_path("/z"), &Vec::new(), 1)), "no plan");
    assert_eq!(current(&app), "a.png");
    let there = vec![file("/p/z/1.png", 0)];
    assert_eq!(planned_or_none(&app.open_directory(&media_path("/p/z"), &there, 9)), "decode 1.png");
    assert_eq!(app.slideshow.last_advance, 9);
    assert_eq!(app.title_text(None, 0), "p/z/1.png (1 / 1)");
}

#[test]
fn opening_a_folder_empties_the_cache() {
    let mut app = viewer();
    app.image_decoded(&media_path("/p/q/a.png"), Ok(image()));
    app.open_directory(&media_path("/p/q"), &entries(), 1);
    assert!(!app.cache.contains(&media_path("/p/q/a.png")));
    app.image_decoded(&media_path("/p/q/a.png"), Ok(image()));
    app.open_file(&media_path("/p/q/b.png"), &entries(), 1);
    assert!(app.cache.contains(&media_path("/p/q/a.png")));
}

#[test]
fn a_list_is_sorted_as_saved_and_starts_at_the_first_name() {
    let mut settings = Settings::default();
    settings.file_sort_key = SortKeySetting::ModifiedDate;
    settings.sort_key = SortKeySetting::ModifiedDate;
    settings.sort_order = SortOrderSetting::Descending;
    settings.group_by = GroupBySetting::ModifiedDate;
    let mut app = ViewerApp::new(settings, 4096);
    app.open_directory(&media_path("/p/q"), &entries(), 0);
    let list = app.file_list.as_ref().unwrap();
    assert_eq!(list.files[0], media_path("/p/q/b.png"));
    assert_eq!(current(&app), "a.png");
    assert_eq!(app.file_sort_key(), SortKey::ModifiedDate);
    assert_eq!(app.folder_sort_key(), SortKey::ModifiedDate);
    assert_eq!(app.folder_sort_order(), SortOrder::Descending);
    assert_eq!(app.folder_group(), GroupBy::ModifiedDate);
}

#[test]
fn the_title_starts_at_the_common_folder() {
    let mut app = viewer();
    let there = vec![file("/p/r/s/x.png", 0)];
    app.open_directory(&media_path("/p/r/s"), &there, 0);
    assert_eq!(app.title_text(None, 0), "p/r/s/x.png (1 / 1)");
    app.open_directory(&media_path("/p/q"), &entries(), 0);
    assert_eq!(app.title_text(None, 0), "p/q/a.png (1 / 3)");
    let mut k = no_keys();
    k.n = true;
    press(&mut app, k, 0);
    assert_eq!(app.title_text(None, 0), "q/a.png (1 / 3)");
    let far = vec![file("/other/y.png", 0)];
    app.open_directory(&media_path("/other"), &far, 0);
    assert_eq!(app.title_text(None, 0), "other/y.png (1 / 1)");
}

#[test]
fn the_title_tells_of_videos_and_slideshows() {
    let mut app = at_video(125 * SECOND);
    assert_eq!(app.title_text(None, 0), "q/c.mp4 (3 / 3) [再生中 Vol:100%] [0:00 / 2:05]");
    if let Some(player) = &mut app.video_player {
        player.toggle_pause(0, true);
        player.playback_start_pts = 61 * SECOND;
    }
    assert_eq!(app.title_text(None, 0), "q/c.mp4 (3 / 3) [一時停止 Vol:100%] [1:01 / 2:05]");
    if let Some(player) = &mut app.video_player {
        player.stop();
        player.playback_start_pts = -5;
    }
    assert_eq!(app.title_text(None, 0), "q/c.mp4 (3 / 3) [終了 Vol:100%] [0:00 / 2:05]");
    app.switch_slideshow(true, 0);
    assert!(app.title_text(None, 0).ends_with("2:05]"));
    app.next_image(0);
    assert_eq!(app.title_text(None, 0), "q/a.png (1 / 3) <自動: 3.0s>");
}

#[test]
fn a_video_takes_the_saved_volume() {
    let mut settings = Settings::default();
    settings.volume = 35;
    let mut app = ViewerApp::new(settings, 4096);
    app.open_file(&media_path("/p/q/c.mp4"), &entries(), 0);
    app.video_opened(Ok(video(SECOND)));
    assert_eq!(app.video_player.as_ref().unwrap().volume(), 35);
    assert_eq!(app.image_size, Some((640, 480)));
    app.settings.volume = 999;
    app.video_opened(Ok(video(SECOND)));
    assert_eq!(app.video_player.as_ref().unwrap().volume(), 200);
}

#[test]
fn the_wheel_changes_the_volume() {
    let mut app = at_video(SECOND);
    assert!(app.scroll_volume(true));
    assert_eq!(app.settings.volume, 105);
    for _ in 0..30 {
        app.scroll_volume(true);
    }
    assert_eq!(app.video_player.as_ref().unwrap().volume(), 200);
    for _ in 0..60 {
        app.scroll_volume(false);
    }
    assert_eq!(app.settings.volume, 0);
    app.next_image(0);
    assert!(!app.scroll_volume(true));
}

#[test]
fn seeking_beyond_a_video_leaves_it() {
    let app = at_video(60 * SECOND);
    assert_eq!(app.seek_by(10 * SECOND, None, 0), SeekPlan::PlayFrom(10 * SECOND));
    assert_eq!(app.seek_by(60 * SECOND, None, 0), SeekPlan::NextFile);
    assert_eq!(app.seek_by(-1, None, 0), SeekPlan::PrevFile);
    assert_eq!(viewer().seek_by(SECOND, None, 0), SeekPlan::Nothing);
}

#[test]
fn arrow_keys_move_or_seek() {
    let mut k = no_keys();
    assert_eq!(key_move(&k, false), None);
    k.right = true;
    assert_eq!(key_move(&k, false), Some(Move::NextFile));
    assert_eq!(key_move(&k, true), Some(Move::SeekBy(10 * SECOND)));
    k.ctrl = true;
    assert_eq!(key_move(&k, true), Some(Move::NextFile));
    let mut l = no_keys();
    l.left = true;
    assert_eq!(key_move(&l, false), Some(Move::PrevFile));
    assert_eq!(key_move(&l, true), Some(Move::SeekBy(-10 * SECOND)));
}

#[test]
fn vertical_keys_change_the_folder_or_the_branch() {
    let mut k = no_keys();
    k.up = true;
    assert_eq!(key_move(&k, true), Some(Move::PrevFolder));
    k.shift = true;
    assert_eq!(key_move(&k, false), Some(Move::PrevBranch));
    let mut l = no_keys();
    l.down = true;
    assert_eq!(key_move(&l, false), Some(Move::NextFolder));
    l.shift = true;
    assert_eq!(key_move(&l, true), Some(Move::NextBranch));
}

#[test]
fn page_keys_turn_pages_or_seek_far() {
    let mut k = no_keys();
    k.page_up = true;
    assert_eq!(key_move(&k, false), Some(Move::Page(PageKey::Up)));
    assert_eq!(key_move(&k, true), Some(Move::SeekBy(-300 * SECOND)));
    let mut l = no_keys();
    l.page_down = true;
    assert_eq!(key_move(&l, false), Some(Move::Page(PageKey::Down)));
    assert_eq!(key_move(&l, true), Some(Move::SeekBy(300 * SECOND)));
}

#[test]
fn shift_turns_keys_round() {
    let mut k = no_keys();
    assert_eq!((key_turn(&k), key_slideshow(&k)), (None, None));
    k.r = true;
    k.s = true;
    assert_eq!((key_turn(&k), key_slideshow(&k)), (Some(true), Some(true)));
    k.shift = true;
    assert_eq!((key_turn(&k), key_slideshow(&k)), (Some(false), Some(false)));
}

#[test]
fn the_interval_has_several_keys() {
    let mut k = no_keys();
    k.d = true;
    k.f = true;
    assert_eq!(key_interval(&k), None);
    k.s_held = true;
    assert_eq!(key_interval(&k), Some(true));
    k.d = false;
    assert_eq!(key_interval(&k), Some(false));
    let mut plus = no_keys();
    plus.equals = true;
    assert_eq!(key_interval(&plus), Some(true));
    let mut minus = no_keys();
    minus.minus = true;
    assert_eq!(key_interval(&minus), Some(false));
}

#[test]
fn pressing_keys_moves_and_turns() {
    let mut app = viewer();
    let mut k = no_keys();
    k.right = true;
    k.r = true;
    let outcome = press(&mut app, k, 12);
    assert_eq!(planned_or_none(&outcome.plan), "decode b.png");
    assert!(outcome.save);
    assert_eq!(app.transform.rotation, 90);
    assert_eq!(app.settings.rotation, 90);
    assert!(!outcome.pause && !outcome.diagnose);
    assert_eq!(outcome.folder, None);
}

#[test]
fn pressing_keys_at_a_video_seeks() {
    let mut app = at_video(60 * SECOND);
    let mut k = no_keys();
    k.right = true;
    k.space = true;
    k.f12 = true;
    let outcome = press(&mut app, k, 0);
    assert_eq!(outcome.play_from, Some(10 * SECOND));
    assert_eq!(planned_or_none(&outcome.plan), "no plan");
    assert!(outcome.pause && outcome.diagnose);
    let mut page = no_keys();
    page.page_down = true;
    let past = press(&mut app, page, 0);
    assert_eq!(past.play_from, None);
    assert_eq!(planned_or_none(&past.plan), "decode a.png");
}

#[test]
fn pressing_keys_asks_for_a_folder() {
    let mut app = viewer();
    let mut k = no_keys();
    k.down = true;
    let outcome = press(&mut app, k, 0);
    assert_eq!(outcome.folder, Some(Move::NextFolder));
    assert!(!outcome.save);
    let known = vec![
        FolderNode { dir: media_path("/p/q"), children: Vec::new(), has_images: true },
        FolderNode {
            dir: media_path("/p"),
            children: vec![media_path("/p/q"), media_path("/p/r")],
            has_images: false,
        },
        FolderNode { dir: media_path("/p/r"), children: Vec::new(), has_images: true },
    ];
    assert_eq!(app.find_folder(Move::NextFolder, &known), Search::Found(media_path("/p/r")));
    assert_eq!(app.find_folder(Move::PrevFolder, &known), Search::Unread(media_path("/")));
    assert_eq!(app.find_folder(Move::NextBranch, &known), Search::Unread(media_path("/")));
    assert_eq!(app.find_folder(Move::NextFile, &known), Search::NotFound);
    let empty = ViewerApp::new(Settings::default(), 4096);
    assert_eq!(empty.find_folder(Move::NextFolder, &known), Search::NotFound);
}

#[test]
fn keys_switch_and_pace_the_slideshow() {
    let mut app = viewer();
    let mut k = no_keys();
    k.s = true;
    k.s_held = true;
    k.d = true;
    let outcome = press(&mut app, k, 77);
    assert!(app.slideshow.active);
    assert_eq!(app.slideshow.last_advance, 77);
    assert_eq!(app.slideshow.tenths, 31);
    assert_eq!(app.settings.slideshow_tenths, 31);
    assert!(outcome.save);
    let mut again = no_keys();
    again.s = true;
    press(&mut app, again, 99);
    assert_eq!(app.slideshow.last_advance, 77);
    let mut off = no_keys();
    off.s = true;
    off.shift = true;
    assert!(!press(&mut app, off, 100).save);
    assert!(!app.slideshow.active);
}

#[test]
fn the_slideshow_moves_on_in_time() {
    let mut app = viewer();
    assert_eq!(planned_or_none(&app.tick_slideshow(100 * SECOND)), "no plan");
    app.switch_slideshow(true, 0);
    assert_eq!(planned_or_none(&app.tick_slideshow(3 * SECOND - 1)), "no plan");
    assert_eq!(planned_or_none(&app.tick_slideshow(3 * SECOND)), "decode b.png");
    app.prev_image(4 * SECOND);
    assert_eq!(planned_or_none(&app.tick_slideshow(6 * SECOND)), "no plan");
    assert_eq!(planned_or_none(&app.tick_slideshow(7 * SECOND)), "decode b.png");
}

#[test]
fn the_slideshow_waits_for_a_video() {
    let mut app = at_video(60 * SECOND);
    app.switch_slideshow(true, 0);
    assert_eq!(planned_or_none(&app.tick_slideshow(500 * SECOND)), "no plan");
    if let Some(player) = &mut app.video_player {
        player.stop();
    }
    assert_eq!(planned_or_none(&app.tick_slideshow(500 * SECOND)), "decode a.png");
    assert_eq!(planned_or_none(&app.tick_slideshow(500 * SECOND)), "no plan");
}

#[test]
fn a_video_alone_ends_the_slideshow_once() {
    let mut app = ViewerApp::new(Settings::default(), 4096);
    app.open_file(&media_path("/p/c.mp4"), &vec![file("/p/c.mp4", 0)], 0);
    app.video_opened(Ok(video(SECOND)));
    app.switch_slideshow(true, 0);
    if let Some(player) = &mut app.video_player {
        player.stop();
    }
    assert!(!app.slideshow.end_handled);
    assert_eq!(planned_or_none(&app.tick_slideshow(SECOND)), "no plan");
    assert!(app.slideshow.end_handled);
    assert_eq!(app.video_player.as_ref().unwrap().state, PlaybackState::Finished);
}

#[test]
fn the_menu_sorts_and_saves() {
    let mut app = viewer();
    assert!(!app.sort_folders(SortKey::Name, SortOrder::Ascending));
    assert!(app.sort_folders(SortKey::ModifiedDate, SortOrder::Ascending));
    assert_eq!(app.settings.sort_key, SortKeySetting::ModifiedDate);
    assert!(!app.group_folders(GroupBy::Off));
    assert!(app.group_folders(GroupBy::ModifiedDate));
    assert_eq!(app.settings.group_by, GroupBySetting::ModifiedDate);
    assert!(!app.sort_files(SortKey::Name, SortOrder::Ascending, &entries()));
    assert!(app.sort_files(SortKey::ModifiedDate, SortOrder::Descending, &entries()));
    assert_eq!(app.settings.file_sort_key, SortKeySetting::ModifiedDate);
    assert_eq!(app.settings.file_sort_order, SortOrderSetting::Descending);
    assert_eq!(current(&app), "a.png");
    assert_eq!(app.file_list.as_ref().unwrap().current_index(), 0);
    assert_eq!(app.file_sort_order(), SortOrder::Descending);
}

#[test]
fn the_menu_without_a_list_saves_nothing_of_it() {
    let mut app = ViewerApp::new(Settings::default(), 4096);
    assert!(app.sort_folders(SortKey::ModifiedDate, SortOrder::Ascending));
    assert_eq!(app.settings.sort_key, SortKeySetting::Name);
    assert!(app.sort_files(SortKey::ModifiedDate, SortOrder::Ascending, &Vec::new()));
    assert_eq!(app.settings.file_sort_key, SortKeySetting::Name);
    assert_eq!(app.folder_group(), GroupBy::Off);
}

#[test]
fn the_menu_turns_fits_and_paces() {
    let mut app = viewer();
    assert!(!app.choose_rotation(0));
    assert!(app.choose_rotation(270));
    assert_eq!(app.settings.rotation, 270);
    assert!(!app.choose_fit(FitMode::FitToWindow));
    assert!(app.choose_fit(FitMode::OriginalSize));
    assert_eq!(app.settings.fit_mode, FitModeSetting::OriginalSize);
    app.choose_interval(5);
    assert_eq!((app.slideshow.tenths, app.settings.slideshow_tenths), (10, 10));
    app.choose_interval(301);
    assert_eq!(app.settings.slideshow_tenths, 300);
    app.choose_audio_offset(-500);
    assert_eq!(app.settings.audio_offset_ms, -200);
    assert_eq!(app.av_offset(), -200_000);
    app.choose_audio_offset(500);
    assert_eq!(app.settings.audio_offset_ms, 200);
    app.choose_audio_offset(15);
    assert_eq!(app.av_offset(), 15_000);
}

#[test]
fn a_maximized_window_may_be_remembered() {
    let mut app = viewer();
    app.toggle_maximized(false);
    assert!(app.is_maximized);
    assert!(!app.settings.maximized);
    app.toggle_maximized(true);
    assert!(!app.is_maximized);
    app.toggle_maximized(true);
    assert!(app.settings.maximized);
}

#[test]
fn saved_settings_bring_back_what_was_shown() {
    let mut app = viewer();
    app.rotate(false);
    app.choose_fit(FitMode::OriginalSize);
    app.sort_files(SortKey::ModifiedDate, SortOrder::Descending, &entries());
    app.change_interval(false);
    app.switch_slideshow(true, 0);
    app.save_settings();
    let mut next = ViewerApp::new(app.settings, 4096);
    next.open_directory(&media_path("/p/q"), &entries(), 0);
    assert_eq!(next.transform.rotation, 270);
    assert_eq!(next.fit_mode, FitMode::OriginalSize);
    assert_eq!(next.slideshow.tenths, 29);
    assert!(!next.slideshow.active);
    assert_eq!(next.file_sort_key(), SortKey::ModifiedDate);
    assert_eq!(next.file_sort_order(), SortOrder::Descending);
}

#[test]
fn files_near_the_current_one_are_preloaded_and_uploaded() {
    let mut app = viewer();
    assert!(app.can_look_around());
    assert_eq!(app.start_preload(), vec![media_path("/p/q/a.png"), media_path("/p/q/b.png")]);
    assert_eq!(app.start_preload(), Vec::<MediaPath>::new());
    assert_eq!(app.next_upload(&Vec::new()), None);
    app.image_decoded(&media_path("/p/q/b.png"), Ok(image()));
    assert_eq!(app.next_upload(&Vec::new()), Some(media_path("/p/q/b.png")));
    assert_eq!(app.next_upload(&vec![media_path("/p/q/b.png")]), None);
    let uploaded = vec![media_path("/far.png"), media_path("/p/q/b.png")];
    assert_eq!(app.distant_textures(&uploaded), vec![media_path("/far.png")]);
    let empty = ViewerApp::new(Settings::default(), 4096);
    assert_eq!(empty.distant_textures(&uploaded), uploaded);
}

#[test]
fn a_place_far_behind_the_list_has_no_neighbours() {
    let mut app = viewer();
    if let Some(list) = &mut app.file_list {
        list.current_index = 6;
    }
    assert!(app.can_look_around());
    if let Some(list) = &mut app.file_list {
        list.current_index = 7;
    }
    assert!(!app.can_look_around());
}

#[test]
fn textures_are_made_anew_for_another_size() {
    assert!(needs_new_texture(None, 2, 3));
    assert!(!needs_new_texture(Some((2, 3)), 2, 3));
    assert!(needs_new_texture(Some((3, 3)), 2, 3));
    assert!(needs_new_texture(Some((2, 2)), 2, 3));
}

#[test]
fn the_diagnosis_tells_what_is_shown() {
    let app = viewer();
    assert_eq!(app.diagnostics("/p/q/a.png", None, 0), "File: /p/q/a.png\nNo video player active\n");
    let empty = ViewerApp::new(Settings::default(), 4096);
    assert_eq!(empty.diagnostics("", None, 0), "No video player active\n");
    let mut playing = at_video(61_234_567);
    if let Some(player) = &mut playing.video_player {
        player.playback_start_pts = -1_500;
    }
    assert_eq!(
        playing.diagnostics("c", None, 0),
        "File: c\nVideo: x\nState: \"Playing\"\nPTS: -0.002\nDuration: 61.235"
    );
}

#[test]
fn an_image_turns_round() {
    let mut t = ViewTransform { rotation: 0 };
    assert_eq!(t.rotated_uvs(), [(0, 0), (1, 0), (1, 1), (0, 1)]);
    assert!(!t.is_rotated_90_or_270());
    t.rotate_cw();
    assert_eq!(t.rotation, 90);
    assert_eq!(t.rotated_uvs(), [(0, 1), (0, 0), (1, 0), (1, 1)]);
    assert!(t.is_rotated_90_or_270());
    t.rotate_cw();
    assert_eq!(t.rotated_uvs(), [(1, 1), (0, 1), (0, 0), (1, 0)]);
    t.rotate_cw();
    assert_eq!(t.rotated_uvs(), [(1, 0), (1, 1), (0, 1), (0, 0)]);
    t.rotate_cw();
    assert_eq!(t.rotation, 0);
    t.rotate_ccw();
    assert_eq!(t.rotation, 270);
    t.rotate_ccw();
    t.reset_all();
    assert_eq!(t.rotation, 0);
    let odd = ViewTransform { rotation: 45 };
    assert_eq!(odd.rotated_uvs(), [(0, 0), (1, 0), (1, 1), (0, 1)]);
}

#[test]
fn a_window_is_resized_at_its_corners_first() {
    assert_eq!(resize_edge(true, false, true, false), Some(ResizeEdge::NorthWest));
    assert_eq!(resize_edge(false, true, true, false), Some(ResizeEdge::NorthEast));
    assert_eq!(resize_edge(true, false, false, true), Some(ResizeEdge::SouthWest));
    assert_eq!(resize_edge(false, true, false, true), Some(ResizeEdge::SouthEast));
    assert_eq!(resize_edge(true, false, false, false), Some(ResizeEdge::West));
    assert_eq!(resize_edge(false, true, false, false), Some(ResizeEdge::East));
    assert_eq!(resize_edge(false, false, true, false), Some(ResizeEdge::North));
    assert_eq!(resize_edge(false, false, false, true), Some(ResizeEdge::South));
    assert_eq!(resize_edge(false, false, false, false), None);
    assert_eq!(resize_edge(true, true, true, true), Some(ResizeEdge::NorthWest));
}
