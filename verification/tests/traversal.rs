use std::path::{Component, Path};
use visual_media_viewer::file_list::{
    DirEntry, FileList, FileTime, GroupBy, SortKey, SortOrder, SortRule,
};
use visual_media_viewer::folders::{
    first_image_dir_under, last_image_dir_in_subtree, next_branch_from, next_image_dir_from,
    prev_branch_from, prev_image_dir_from, FolderNode, Search,
};
use visual_media_viewer::path::{MediaPath, PathPart};

fn media_path(text: &str) -> MediaPath {
    let mut parts: Vec<PathPart> = Vec::new();
    for part in Path::new(text).components() {
        parts.push(match part {
            Component::Prefix(p) => PathPart::Prefix(p.as_os_str().to_string_lossy().into_owned()),
            Component::RootDir => PathPart::Root,
            Component::CurDir => PathPart::Current,
            Component::ParentDir => PathPart::Above,
            Component::Normal(n) => PathPart::Name(n.to_string_lossy().into_owned()),
        });
    }
    MediaPath::new(parts)
}

fn node(dir: &str, children: &[&str], has_images: bool) -> FolderNode {
    let top = media_path(dir);
    FolderNode {
        children: children.iter().map(|c| top.child(c)).collect(),
        dir: top,
        has_images,
    }
}

fn found(text: &str) -> Search {
    Search::Found(media_path(text))
}

/// `/`, with `a` (which holds `a1` and `a2`), `b` (which holds `b1`) and `c`.
fn tree() -> Vec<FolderNode> {
    vec![
        node("/", &["a", "b", "c"], false),
        node("/a", &["a1", "a2"], true),
        node("/a/a1", &[], false),
        node("/a/a2", &["deep"], true),
        node("/a/a2/deep", &[], true),
        node("/b", &["b1"], false),
        node("/b/b1", &[], true),
        node("/c", &[], true),
    ]
}

#[test]
fn folders_are_visited_in_order_and_back() {
    let known = tree();
    let order = ["/a", "/a/a2", "/a/a2/deep", "/b/b1", "/c"];
    for pair in order.windows(2) {
        assert_eq!(next_image_dir_from(&known, &media_path(pair[0])), found(pair[1]));
        assert_eq!(prev_image_dir_from(&known, &media_path(pair[1])), found(pair[0]));
    }
    assert_eq!(next_image_dir_from(&known, &media_path("/c")), Search::NotFound);
    assert_eq!(prev_image_dir_from(&known, &media_path("/a")), Search::NotFound);
}

#[test]
fn a_folder_without_images_leads_to_its_neighbours_too() {
    let known = tree();
    assert_eq!(next_image_dir_from(&known, &media_path("/b")), found("/b/b1"));
    assert_eq!(prev_image_dir_from(&known, &media_path("/b")), found("/a/a2/deep"));
}

#[test]
fn branches_do_not_loop() {
    let known = tree();
    assert_eq!(next_branch_from(&known, &media_path("/a/a2")), found("/b/b1"));
    assert_eq!(prev_branch_from(&known, &media_path("/a/a2")), Search::NotFound);
    assert_eq!(next_branch_from(&known, &media_path("/b/b1")), found("/c"));
    assert_eq!(prev_branch_from(&known, &media_path("/b/b1")), found("/a/a2/deep"));
    assert_eq!(next_branch_from(&known, &media_path("/c")), Search::NotFound);
    assert_eq!(prev_branch_from(&known, &media_path("/")), Search::NotFound);
}

#[test]
fn a_search_asks_for_what_it_has_not_seen() {
    let mut known: Vec<FolderNode> = Vec::new();
    let start = media_path("/a");
    let mut asked: Vec<MediaPath> = Vec::new();
    let result = loop {
        match next_image_dir_from(&known, &start) {
            Search::Unread(dir) => {
                let read = tree().into_iter().find(|n| n.dir == dir).unwrap();
                asked.push(dir);
                known.push(read);
            }
            other => break other,
        }
    };
    assert_eq!(result, found("/a/a2"));
    assert_eq!(asked, vec![media_path("/a"), media_path("/a/a1"), media_path("/a/a2")]);
}

#[test]
fn subtrees_have_a_first_and_a_last_folder() {
    let known = tree();
    assert_eq!(first_image_dir_under(&known, &media_path("/"), 0), found("/a"));
    assert_eq!(first_image_dir_under(&known, &media_path("/b"), 0), found("/b/b1"));
    assert_eq!(first_image_dir_under(&known, &media_path("/c"), 0), Search::NotFound);
    assert_eq!(first_image_dir_under(&known, &media_path("/"), 10), Search::NotFound);
    assert_eq!(last_image_dir_in_subtree(&known, &media_path("/a"), 0), found("/a/a2/deep"));
    assert_eq!(last_image_dir_in_subtree(&known, &media_path("/a"), 10), found("/a"));
    assert_eq!(last_image_dir_in_subtree(&known, &media_path("/a"), usize::MAX), found("/a"));
    assert_eq!(last_image_dir_in_subtree(&known, &media_path("/a/a1"), 0), Search::NotFound);
}

#[test]
fn the_search_goes_ten_levels_down() {
    let chain = |levels: usize| -> Vec<FolderNode> {
        let mut known: Vec<FolderNode> = Vec::new();
        let mut dir = media_path("/top");
        for level in 0..=levels {
            let children = if level < levels { vec![dir.child("d")] } else { Vec::new() };
            let next = dir.child("d");
            known.push(FolderNode { dir, children, has_images: level == levels });
            dir = next;
        }
        known.push(FolderNode {
            dir: media_path("/"),
            children: vec![media_path("/top")],
            has_images: false,
        });
        known
    };
    let mut tenth = media_path("/top");
    for _ in 0..10 {
        tenth = tenth.child("d");
    }
    assert_eq!(next_image_dir_from(&chain(10), &media_path("/top")), Search::Found(tenth));
    assert_eq!(next_image_dir_from(&chain(11), &media_path("/top")), Search::NotFound);
}

#[test]
fn a_list_searches_from_its_own_folder() {
    let entry = |text: &str, is_file: bool| DirEntry {
        path: media_path(text),
        is_file,
        is_dir: !is_file,
        modified: FileTime { secs: 0, nanos: 0 },
        system_place: None,
    };
    let entries = vec![entry("/b/b1/x.png", true)];
    let list = FileList::from_directory(&media_path("/b/b1"), &entries);
    let known = tree();
    assert_eq!(list.next_image_dir(&known), found("/c"));
    assert_eq!(list.prev_image_dir(&known), found("/a/a2/deep"));
    assert_eq!(list.next_branch_dir(&known), found("/c"));
    assert_eq!(list.prev_branch_dir(&known), found("/a/a2/deep"));
    let read = list.read_folder(
        &media_path("/d"),
        &vec![entry("/d/10", false), entry("/d/9", false), entry("/d/x.jpg", true)],
        FileTime { secs: 0, nanos: 0 },
    );
    assert_eq!(read.children, vec![media_path("/d/9"), media_path("/d/10")]);
    assert!(read.has_images);
}

#[test]
fn a_folder_is_read_by_the_rule() {
    let entry = |text: &str, secs: i64| DirEntry {
        path: media_path(text),
        is_file: false,
        is_dir: true,
        modified: FileTime { secs, nanos: 0 },
        system_place: None,
    };
    let read = FolderNode::new(
        &media_path("/d"),
        &vec![entry("/d/a", 1), entry("/d/b", 3), entry("/d/c", 2)],
        SortRule {
            sort_key: SortKey::ModifiedDate,
            sort_order: SortOrder::Descending,
            group_by: GroupBy::Off,
        },
        FileTime { secs: 0, nanos: 0 },
    );
    assert_eq!(read.children, vec![media_path("/d/b"), media_path("/d/c"), media_path("/d/a")]);
    assert!(!read.has_images);
}
