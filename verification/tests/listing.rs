use std::cmp::Ordering;
use std::path::{Component, Path};
use visual_media_viewer::file_list::{
    classify_date_group, compare_logical, directory_has_images, is_supported_image, is_video_file,
    sorted_child_dirs, DateGroup, DirEntry, FileList, FileTime, GroupBy, PageKey, SortKey,
    SortOrder, SortRule,
};
use visual_media_viewer::ordering::Precedence;
use visual_media_viewer::path::{MediaPath, PathPart};

fn media_path(text: &str) -> MediaPath {
    let mut parts: Vec<PathPart> = Vec::new();
    for part in Path::new(text).components() {
        parts.push(match part {
            Component::Prefix(p) => PathPart::Prefix(p.as_os_str().to_string_lossy().into_owned()),
            Component::RootDir => PathPart::Root,
            Component::CurDir => PathPart::Current,
            Component::ParentDir => PathPart::Above,
            Component::Normal(n) => PathPart::Name(n.to_string_lossy().into_owned()),
        });
    }
    MediaPath::new(parts)
}

fn file(text: &str, secs: i64) -> DirEntry {
    DirEntry {
        path: media_path(text),
        is_file: true,
        is_dir: false,
        modified: FileTime { secs, nanos: 0 },
        system_place: None,
    }
}

fn folder(text: &str, secs: i64) -> DirEntry {
    DirEntry {
        path: media_path(text),
        is_file: false,
        is_dir: true,
        modified: FileTime { secs, nanos: 0 },
        system_place: None,
    }
}

fn names(paths: &Vec<MediaPath>) -> Vec<String> {
    paths.iter().map(|p| p.file_name_text()).collect()
}

fn natural(a: &str, b: &str) -> Ordering {
    match compare_logical(a, b) {
        Precedence::Before => Ordering::Less,
        Precedence::Same => Ordering::Equal,
        Precedence::After => Ordering::Greater,
    }
}

fn ten_files() -> FileList {
    let mut entries: Vec<DirEntry> = Vec::new();
    for i in 0..10 {
        entries.push(file(&format!("/p/f{}.png", i), i));
    }
    FileList::from_directory(&media_path("/p"), &entries)
}

#[test]
fn test_is_supported_image() {
    assert!(is_supported_image(&media_path("photo.jpg")));
    assert!(is_supported_image(&media_path("photo.JPEG")));
    assert!(is_supported_image(&media_path("photo.Png")));
    assert!(is_supported_image(&media_path("photo.gif")));
    assert!(is_supported_image(&media_path("photo.bmp")));
    assert!(is_supported_image(&media_path("photo.webp")));
    assert!(is_supported_image(&media_path("photo.tiff")));
    assert!(is_supported_image(&media_path("photo.TIF")));
    assert!(!is_supported_image(&media_path("photo.txt")));
    assert!(!is_supported_image(&media_path("noext")));
}

#[test]
fn heic_images_are_supported() {
    assert!(is_supported_image(&media_path("photo.heic")));
    assert!(is_supported_image(&media_path("photo.HEIF")));
}

#[test]
fn a_name_that_is_only_an_extension_has_none() {
    assert!(!is_supported_image(&media_path(".jpg")));
    assert!(is_supported_image(&media_path(".hidden.jpg")));
    assert!(!is_supported_image(&media_path("photo.jpg.txt")));
    assert!(!is_supported_image(&media_path("/")));
}

#[test]
fn videos_are_told_by_their_extension() {
    for name in ["a.mp4", "a.WEBM", "a.mkv", "a.avi", "a.Mov", "a.wmv"] {
        assert!(is_video_file(&media_path(name)));
        assert!(!is_supported_image(&media_path(name)));
    }
    assert!(!is_video_file(&media_path("a.jpg")));
}

#[test]
fn test_natural_sort_basic_numbers() {
    let mut names = vec!["file10.jpg", "file2.jpg", "file1.jpg", "file20.jpg"];
    names.sort_by(|a, b| natural(a, b));
    assert_eq!(names, vec!["file1.jpg", "file2.jpg", "file10.jpg", "file20.jpg"]);
}

#[test]
fn test_natural_sort_parenthesized_numbers() {
    let mut names = vec!["image(10).jpg", "image(2).jpg", "image(1).jpg"];
    names.sort_by(|a, b| natural(a, b));
    assert_eq!(names, vec!["image(1).jpg", "image(2).jpg", "image(10).jpg"]);
}

#[test]
fn test_natural_sort_multiple_number_groups() {
    let mut names = vec!["vol2ch10.jpg", "vol2ch2.jpg", "vol1ch10.jpg"];
    names.sort_by(|a, b| natural(a, b));
    assert_eq!(names, vec!["vol1ch10.jpg", "vol2ch2.jpg", "vol2ch10.jpg"]);
}

#[test]
fn natural_order_ignores_case() {
    assert_eq!(compare_logical("ABC", "abc"), Precedence::Same);
    assert_eq!(compare_logical("a", "B"), Precedence::Before);
    assert_eq!(compare_logical("B", "a"), Precedence::After);
}

#[test]
fn a_folder_lists_its_images_and_videos_by_name() {
    let entries = vec![
        file("/p/img10.png", 5),
        folder("/p/sub.png", 6),
        file("/p/img2.png", 9),
        file("/p/notes.txt", 1),
        file("/p/clip.mp4", 2),
    ];
    let list = FileList::from_directory(&media_path("/p"), &entries);
    assert_eq!(names(&list.files), vec!["clip.mp4", "img2.png", "img10.png"]);
    assert_eq!(list.file_count(), 3);
    assert_eq!(list.current_index(), 0);
    assert_eq!(list.current_path(), Some(&media_path("/p/clip.mp4")));
    assert_eq!(list.directory(), &media_path("/p"));
}

#[test]
fn files_are_sorted_by_date_and_the_current_one_stays() {
    let entries = vec![file("/p/a.png", 30), file("/p/b.png", 10), file("/p/c.png", 20)];
    let mut list = FileList::from_directory(&media_path("/p"), &entries);
    list.set_current(&media_path("/p/c.png"));
    assert_eq!(list.current_index(), 2);
    list.re_sort_files(SortKey::ModifiedDate, SortOrder::Ascending, &entries);
    assert_eq!(names(&list.files), vec!["b.png", "c.png", "a.png"]);
    assert_eq!(list.current_path(), Some(&media_path("/p/c.png")));
    list.re_sort_files(SortKey::ModifiedDate, SortOrder::Descending, &entries);
    assert_eq!(names(&list.files), vec!["a.png", "c.png", "b.png"]);
    assert_eq!(list.current_index(), 1);
}

#[test]
fn files_that_sort_alike_keep_their_order() {
    let entries = vec![file("/p/b.png", 7), file("/p/a.png", 7), file("/p/c.png", 7)];
    let mut list = FileList::from_directory(&media_path("/p"), &entries);
    list.re_sort_files(SortKey::ModifiedDate, SortOrder::Descending, &entries);
    assert_eq!(names(&list.files), vec!["b.png", "a.png", "c.png"]);
}

#[test]
fn a_file_that_is_not_listed_does_not_become_current() {
    let mut list = ten_files();
    list.next();
    list.set_current(&media_path("/p/other.png"));
    assert_eq!(list.current_index(), 1);
}

#[test]
fn next_and_previous_loop() {
    let mut list = ten_files();
    assert!(list.prev());
    assert_eq!(list.current_index(), 9);
    assert!(list.next());
    assert_eq!(list.current_index(), 0);
    for _ in 0..10 {
        assert!(list.next());
    }
    assert_eq!(list.current_index(), 0);
}

#[test]
fn a_single_file_has_no_neighbour() {
    let entries = vec![file("/p/a.png", 1)];
    let mut list = FileList::from_directory(&media_path("/p"), &entries);
    assert!(!list.next());
    assert!(!list.prev());
    assert!(!list.page(PageKey::Down));
    assert_eq!(list.current_index(), 0);
}

#[test]
fn an_empty_folder_has_no_current_file() {
    let entries: Vec<DirEntry> = Vec::new();
    let mut list = FileList::from_directory(&media_path("/p"), &entries);
    assert_eq!(list.file_count(), 0);
    assert_eq!(list.current_path(), None);
    assert!(!list.next());
}

#[test]
fn page_keys_stop_at_the_edge_and_then_wrap() {
    let mut list = ten_files();
    assert!(list.page(PageKey::Down));
    assert_eq!(list.current_index(), 5);
    assert!(list.page(PageKey::Down));
    assert_eq!(list.current_index(), 9);
    assert!(list.page(PageKey::Down));
    assert_eq!(list.current_index(), 0);
    assert!(!list.page(PageKey::Up));
    assert_eq!(list.current_index(), 0);
    assert!(list.page(PageKey::Up));
    assert_eq!(list.current_index(), 9);
    assert!(list.page(PageKey::Up));
    assert_eq!(list.current_index(), 4);
    assert!(list.page(PageKey::Up));
    assert_eq!(list.current_index(), 0);
}

#[test]
fn another_move_between_page_keys_prevents_wrapping() {
    let mut list = ten_files();
    list.page(PageKey::Down);
    list.page(PageKey::Down);
    assert_eq!(list.current_index(), 9);
    list.prev();
    list.next();
    assert!(!list.page(PageKey::Down));
    assert_eq!(list.current_index(), 9);
    assert!(list.page(PageKey::Down));
    assert_eq!(list.current_index(), 0);
}

#[test]
fn nearby_files_are_cut_off_at_the_ends() {
    let mut list = ten_files();
    assert_eq!(names(&list.nearby_paths(3)), vec!["f0.png", "f1.png", "f2.png", "f3.png"]);
    list.set_current(&media_path("/p/f5.png"));
    assert_eq!(
        names(&list.nearby_paths(3)),
        vec!["f2.png", "f3.png", "f4.png", "f5.png", "f6.png", "f7.png", "f8.png"]
    );
    list.set_current(&media_path("/p/f9.png"));
    assert_eq!(names(&list.nearby_paths(3)), vec!["f6.png", "f7.png", "f8.png", "f9.png"]);
}

#[test]
fn dates_fall_into_groups() {
    let day = 86400;
    let now = FileTime { secs: 1000 * day + 50, nanos: 0 };
    let group = |days_ago: i64| {
        classify_date_group(FileTime { secs: (1000 - days_ago) * day, nanos: 0 }, now)
    };
    assert_eq!(group(-1), DateGroup::Today);
    assert_eq!(group(0), DateGroup::Today);
    assert_eq!(group(1), DateGroup::LastWeek);
    assert_eq!(group(7), DateGroup::LastWeek);
    assert_eq!(group(8), DateGroup::LastMonth);
    assert_eq!(group(30), DateGroup::LastMonth);
    assert_eq!(group(31), DateGroup::ThisYear);
    assert_eq!(group(365), DateGroup::ThisYear);
    assert_eq!(group(366), DateGroup::LongAgo);
    assert_eq!(classify_date_group(FileTime { secs: -5, nanos: 0 }, now), DateGroup::LongAgo);
}

#[test]
fn folders_are_sorted_within_date_groups() {
    let day = 86400;
    let now = FileTime { secs: 1000 * day, nanos: 0 };
    let entries = vec![
        folder("/p/old_a", 100 * day),
        folder("/p/new_b", 1000 * day),
        folder("/p/old_b", 90 * day),
        folder("/p/new_a", 1000 * day),
        file("/p/file.png", 0),
    ];
    let rule = |sort_order: SortOrder, group_by: GroupBy| SortRule {
        sort_key: SortKey::Name,
        sort_order,
        group_by,
    };
    assert_eq!(
        names(&sorted_child_dirs(&entries, rule(SortOrder::Ascending, GroupBy::Off), now)),
        vec!["new_a", "new_b", "old_a", "old_b"]
    );
    assert_eq!(
        names(&sorted_child_dirs(&entries, rule(SortOrder::Ascending, GroupBy::ModifiedDate), now)),
        vec!["new_a", "new_b", "old_a", "old_b"]
    );
    assert_eq!(
        names(&sorted_child_dirs(&entries, rule(SortOrder::Descending, GroupBy::ModifiedDate), now)),
        vec!["old_b", "old_a", "new_b", "new_a"]
    );
    assert_eq!(
        names(&sorted_child_dirs(
            &entries,
            SortRule {
                sort_key: SortKey::ModifiedDate,
                sort_order: SortOrder::Ascending,
                group_by: GroupBy::Off,
            },
            now
        )),
        vec!["old_b", "old_a", "new_b", "new_a"]
    );
}

#[test]
fn only_still_images_make_a_folder_an_image_folder() {
    assert!(directory_has_images(&vec![file("/p/a.txt", 0), file("/p/a.png", 0)]));
    assert!(!directory_has_images(&vec![file("/p/a.mp4", 0), folder("/p/a.png", 0)]));
    assert!(!directory_has_images(&Vec::new()));
}

#[test]
fn names_follow_the_systems_own_order_where_it_has_one() {
    let placed = |text: &str, secs: i64, place: u32| DirEntry {
        system_place: Some(place),
        ..folder(text, secs)
    };
    let entries = vec![placed("/r/a1", 3, 2), placed("/r/a2", 2, 0), placed("/r/a10", 1, 1)];
    let now = FileTime { secs: 10, nanos: 0 };
    let sorted = |sort_key: SortKey, sort_order: SortOrder| {
        let rule = SortRule { sort_key, sort_order, group_by: GroupBy::Off };
        names(&sorted_child_dirs(&entries, rule, now))
    };
    assert_eq!(sorted(SortKey::Name, SortOrder::Ascending), ["a2", "a10", "a1"]);
    assert_eq!(sorted(SortKey::Name, SortOrder::Descending), ["a1", "a10", "a2"]);
    assert_eq!(sorted(SortKey::ModifiedDate, SortOrder::Ascending), ["a10", "a2", "a1"]);

    let unplaced = vec![folder("/r/a10", 1), folder("/r/a2", 2), placed("/r/b", 3, 0)];
    let rule = SortRule {
        sort_key: SortKey::Name,
        sort_order: SortOrder::Ascending,
        group_by: GroupBy::Off,
    };
    assert_eq!(names(&sorted_child_dirs(&unplaced, rule, now)), ["b", "a2", "a10"]);
}
