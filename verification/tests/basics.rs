use std::path::{Component, Path};
use visual_media_viewer::ipc::{ipc_address, open_request, requested_path};
use visual_media_viewer::path::{position_of, MediaPath, PathPart};
use visual_media_viewer::settings::{
    default_volume, FitModeSetting, GroupBySetting, Settings, SortKeySetting, SortOrderSetting,
};
use visual_media_viewer::slideshow::{Slideshow, VideoStatus};
use visual_media_viewer::text::{decimal_text, is_text_ignoring_case, trimmed, two_digit_text};
use visual_media_viewer::title::{
    next_title_root, one_decimal_text, precise_time_text, time_text, window_title_text,
};

fn media_path(text: &str) -> MediaPath {
    let mut parts: Vec<PathPart> = Vec::new();
    for part in Path::new(text).components() {
        parts.push(match part {
            Component::Prefix(p) => PathPart::Prefix(p.as_os_str().to_string_lossy().into_owned()),
            Component::RootDir => PathPart::Root,
            Component::CurDir => PathPart::Current,
            Component::ParentDir => PathPart::Above,
            Component::Normal(n) => PathPart::Name(n.to_string_lossy().into_owned()),
        });
    }
    MediaPath::new(parts)
}

#[test]
fn a_path_has_a_parent_and_a_name() {
    let p = media_path("/a/b.tar.gz");
    assert_eq!(p.parent(), Some(media_path("/a")));
    assert_eq!(p.file_name(), Some("b.tar.gz"));
    assert_eq!(p.extension(), Some("gz"));
    assert_eq!(p.display("/"), "/a/b.tar.gz");
    assert_eq!(media_path("/").parent(), None);
    assert_eq!(media_path("/").file_name(), None);
    assert_eq!(media_path("a").parent(), Some(media_path("")));
    assert_eq!(media_path("..").file_name(), None);
    assert_eq!(media_path("../x").display("/"), "../x");
    assert_eq!(media_path("/a.").extension(), Some(""));
}

#[test]
fn paths_are_told_apart_by_their_parts() {
    assert!(media_path("/a/b").starts_with(&media_path("/a")));
    assert!(media_path("/a").starts_with(&media_path("/a")));
    assert!(!media_path("/ab").starts_with(&media_path("/a")));
    assert!(!media_path("/a").starts_with(&media_path("/a/b")));
    assert_eq!(media_path("/a/b/c").common_ancestor(&media_path("/a/b/d")), media_path("/a/b"));
    assert_eq!(media_path("/a").common_ancestor(&media_path("/b")), media_path("/"));
    assert_eq!(
        position_of(&vec![media_path("/a"), media_path("/b")], &media_path("/b")),
        Some(1)
    );
    assert_eq!(position_of(&vec![media_path("/a")], &media_path("/b")), None);
}

#[test]
fn texts_are_compared_and_cut() {
    assert!(is_text_ignoring_case("JpG", "jpg"));
    assert!(!is_text_ignoring_case("jpgx", "jpg"));
    assert!(!is_text_ignoring_case("Ä", "ä"));
    assert_eq!(trimmed(" \t a b\r\n"), "a b");
    assert_eq!(trimmed("\u{3000}x\u{2003}"), "x");
    assert_eq!(trimmed("  \n"), "");
    assert_eq!(decimal_text(0), "0");
    assert_eq!(decimal_text(18446744073709551615), "18446744073709551615");
    assert_eq!(two_digit_text(5), "05");
    assert_eq!(two_digit_text(59), "59");
}

#[test]
fn times_are_written_out() {
    assert_eq!(time_text(0), "0:00");
    assert_eq!(time_text(59_999_999), "0:59");
    assert_eq!(time_text(60_000_000), "1:00");
    assert_eq!(time_text(3_661_000_000), "61:01");
    assert_eq!(time_text(-5), "0:00");
    assert_eq!(one_decimal_text(10), "1.0");
    assert_eq!(one_decimal_text(305), "30.5");
    assert_eq!(precise_time_text(1_234_499), "1.234");
    assert_eq!(precise_time_text(1_234_500), "1.235");
    assert_eq!(precise_time_text(5_000), "0.005");
    assert_eq!(precise_time_text(-33_367), "-0.033");
    assert_eq!(precise_time_text(i64::MIN), "-9223372036854.776");
}

#[test]
fn a_window_is_named_after_its_file() {
    assert_eq!(window_title_text(None), "Visual Media Viewer");
    assert_eq!(window_title_text(Some(&media_path("/p/a.png"))), "a.png - Visual Media Viewer");
    assert_eq!(
        window_title_text(Some(&media_path("/"))),
        "Visual Media Viewer - Visual Media Viewer"
    );
}

#[test]
fn the_root_of_the_title_follows_the_folders() {
    let start = next_title_root(None, &media_path("/p/a/x"));
    assert_eq!(start, media_path("/p/a/x"));
    let up = next_title_root(Some(&start), &media_path("/p/a/y"));
    assert_eq!(up, media_path("/p/a"));
    let same = next_title_root(Some(&up), &media_path("/p/a/y/z"));
    assert_eq!(same, media_path("/p/a"));
    let far = next_title_root(Some(&same), &media_path("/q/b"));
    assert_eq!(far, media_path("/q/b"));
}

#[test]
fn the_running_viewer_is_asked_to_open_a_file() {
    assert_eq!(ipc_address(), "127.0.0.1:52384");
    let request = open_request("/p/a b.png");
    assert_eq!(request, "/p/a b.png\n");
    assert_eq!(requested_path(&request), "/p/a b.png");
    assert_eq!(requested_path("  x\r\n"), "x");
}

#[test]
fn settings_start_as_documented() {
    let s = Settings::default();
    assert_eq!(s.rotation, 0);
    assert_eq!(s.fit_mode, FitModeSetting::FitToWindow);
    assert_eq!(s.sort_key, SortKeySetting::Name);
    assert_eq!(s.sort_order, SortOrderSetting::Ascending);
    assert_eq!(s.group_by, GroupBySetting::Off);
    assert_eq!(s.file_sort_key, SortKeySetting::default());
    assert_eq!(s.file_sort_order, SortOrderSetting::default());
    assert_eq!(s.volume, default_volume());
    assert_eq!(s.volume, 100);
    assert_eq!(s.slideshow_tenths, 30);
    assert_eq!(GroupBySetting::default(), GroupBySetting::Off);
}

#[test]
fn settings_are_read_or_initial() {
    let mut s = Settings::default();
    s.volume = 7;
    s.rotation = 270;
    s.fit_mode = FitModeSetting::OriginalSize;
    s.sort_key = SortKeySetting::ModifiedDate;
    s.sort_order = SortOrderSetting::Descending;
    s.group_by = GroupBySetting::ModifiedDate;
    s.maximized = true;
    assert_eq!(Settings::load(Some(s.stored())), s);
    assert_eq!(Settings::load(None), Settings::default());
}

#[test]
fn settings_that_are_missing_are_initial() {
    let mut s = Settings::default();
    s.rotation = 90;
    s.volume = 7;
    s.group_by = GroupBySetting::ModifiedDate;
    s.file_sort_key = SortKeySetting::ModifiedDate;
    s.file_sort_order = SortOrderSetting::Descending;
    let mut stored = s.stored();
    stored.group_by = None;
    stored.file_sort_key = None;
    stored.file_sort_order = None;
    stored.volume = None;
    stored.slideshow_tenths = None;
    let mut expected = Settings::default();
    expected.rotation = 90;
    assert!(stored.is_complete());
    assert_eq!(Settings::load(Some(stored)), expected);

    for i in 0..4 {
        let mut stored = s.stored();
        match i {
            0 => stored.rotation = None,
            1 => stored.fit_mode = None,
            2 => stored.sort_key = None,
            _ => stored.sort_order = None,
        }
        assert!(!stored.is_complete());
        assert_eq!(Settings::load(Some(stored)), Settings::default());
    }
}

#[test]
fn settings_have_a_place() {
    assert_eq!(
        Settings::path(Some(media_path("/data")), Some(media_path("/home/u"))),
        media_path("/data/visual-media-viewer/settings.json")
    );
    assert_eq!(
        Settings::path(None, Some(media_path("/home/u"))),
        media_path("/home/u/.config/visual-media-viewer/settings.json")
    );
    assert_eq!(Settings::path(None, None), media_path("settings.json"));
}

#[test]
fn the_interval_stays_in_its_range() {
    let mut s = Slideshow::new(0);
    assert_eq!(s.tenths, 10);
    s.adjust(false);
    assert_eq!(s.tenths, 10);
    s.adjust(true);
    assert_eq!(s.tenths, 11);
    s.set_interval(1000);
    assert_eq!(s.tenths, 300);
    s.adjust(true);
    assert_eq!(s.tenths, 300);
}

#[test]
fn the_slideshow_is_switched() {
    let mut s = Slideshow::new(30);
    assert!(!s.active);
    s.toggle(5);
    assert!(s.active);
    assert_eq!(s.last_advance, 5);
    s.start(9);
    assert_eq!(s.last_advance, 5);
    s.toggle(10);
    assert!(!s.active);
    s.stop();
    assert!(!s.active);
}

#[test]
fn the_slideshow_ticks() {
    let mut s = Slideshow::new(20);
    s.start(0);
    assert!(!s.tick(VideoStatus::Absent, 1_999_999));
    assert_eq!(s.time_left(1_999_999), 10_000);
    assert_eq!(s.time_left(500_000), 1_500_000);
    assert!(s.tick(VideoStatus::Absent, 2_000_000));
    assert_eq!(s.last_advance, 2_000_000);
    assert!(!s.tick(VideoStatus::Running, 90_000_000));
    assert!(s.tick(VideoStatus::Ended, 90_000_000));
    assert!(!s.tick(VideoStatus::Ended, 95_000_000));
    assert!(!s.tick(VideoStatus::Running, 96_000_000));
    assert!(s.tick(VideoStatus::Ended, 97_000_000));
    s.restart(98_000_000);
    assert!(!s.tick(VideoStatus::Absent, 99_000_000));
}
