//! The search for the next and the previous folder with images.
//!
//! Folders are visited in depth-first order, each before the folders it holds. The search works
//! on the folders that have been read so far and says which folder it has to see next; the caller
//! reads that folder and asks again. An answer does not change when more folders are read.

use vstd::prelude::*;

use crate::file_list::{
    directory_has_images, sorted_child_dirs, DirEntry, FileList, FileTime, SortRule,
};
use crate::path::{position_of, MediaPath};

verus! {

use crate::file_list::{entry_views, holds_image, is_folder_listing};
use crate::path::{parent_of, path_views, PathView};

/// How many levels the search goes down, and how many it goes up.
pub const MAX_DEPTH: usize = 10;

/// A folder that has been read.
#[derive(Clone, Debug, PartialEq, Eq)]
pub struct FolderNode {
    pub dir: MediaPath,
    /// The folders it holds, in listing order.
    pub children: Vec<MediaPath>,
    pub has_images: bool,
}

/// The mathematical form of a folder that has been read.
pub struct NodeView {
    pub dir: PathView,
    pub children: Seq<PathView>,
    pub has_images: bool,
}

impl View for FolderNode {
    type V = NodeView;

    open spec fn view(&self) -> NodeView {
        NodeView {
            dir: self.dir@,
            children: path_views(self.children@),
            has_images: self.has_images,
        }
    }
}

/// The views of the folders that have been read.
pub open spec fn node_views(nodes: Seq<FolderNode>) -> Seq<NodeView> {
    nodes.map_values(|n: FolderNode| n@)
}

/// What a search comes to.
#[derive(Clone, Debug, PartialEq, Eq)]
pub enum Search {
    /// The folder that was looked for.
    Found(MediaPath),
    /// There is no such folder.
    NotFound,
    /// This folder has to be read before the search can go on.
    Unread(MediaPath),
}

/// The mathematical form of what a search comes to.
pub enum SearchView {
    Found(PathView),
    NotFound,
    Unread(PathView),
}

impl View for Search {
    type V = SearchView;

    open spec fn view(&self) -> SearchView {
        match *self {
            Search::Found(p) => SearchView::Found(p@),
            Search::NotFound => SearchView::NotFound,
            Search::Unread(p) => SearchView::Unread(p@),
        }
    }
}

/// What has been read of a folder.
pub open spec fn lookup(known: Seq<NodeView>, dir: PathView) -> Option<NodeView>
    decreases known.len(),
{
    if known.len() == 0 {
        None
    } else if known[0].dir == dir {
        Some(known[0])
    } else {
        lookup(known.drop_first(), dir)
    }
}

/// The first folder with images in the subtrees of `list` from place `i` on, each tree visited
/// from its top down to the level limit.
pub open spec fn first_in(known: Seq<NodeView>, list: Seq<PathView>, i: int, depth: int) -> SearchView
    decreases MAX_DEPTH - depth, 1int, list.len() - i,
{
    if i < 0 || i >= list.len() {
        SearchView::NotFound
    } else {
        match lookup(known, list[i]) {
            None => SearchView::Unread(list[i]),
            Some(node) => if node.has_images {
                SearchView::Found(list[i])
            } else if depth + 1 >= MAX_DEPTH {
                first_in(known, list, i + 1, depth)
            } else {
                match first_in(known, node.children, 0, depth + 1) {
                    SearchView::NotFound => first_in(known, list, i + 1, depth),
                    other => other,
                }
            },
        }
    }
}

/// The first folder with images under `dir`, itself not counted.
pub open spec fn first_under(known: Seq<NodeView>, dir: PathView, depth: int) -> SearchView {
    if depth >= MAX_DEPTH {
        SearchView::NotFound
    } else {
        match lookup(known, dir) {
            None => SearchView::Unread(dir),
            Some(node) => first_in(known, node.children, 0, depth),
        }
    }
}

/// The last folder with images in the subtree of `dir`, which itself comes before the folders
/// it holds.
pub open spec fn last_in_tree(known: Seq<NodeView>, dir: PathView, depth: int) -> SearchView
    decreases MAX_DEPTH - depth, 1int, 0int,
{
    match lookup(known, dir) {
        None => SearchView::Unread(dir),
        Some(node) => {
            let below = if depth >= MAX_DEPTH {
                SearchView::NotFound
            } else {
                last_among(known, node.children, node.children.len() as int, depth + 1)
            };
            match below {
                SearchView::NotFound => if node.has_images {
                    SearchView::Found(dir)
                } else {
                    SearchView::NotFound
                },
                other => other,
            }
        },
    }
}

/// The last folder with images in the subtrees of the first `n` folders of `list`.
pub open spec fn last_among(known: Seq<NodeView>, list: Seq<PathView>, n: int, depth: int) -> SearchView
    decreases MAX_DEPTH - depth, 2int, n,
{
    if n <= 0 || n > list.len() || depth > MAX_DEPTH {
        SearchView::NotFound
    } else {
        match last_in_tree(known, list[n - 1], depth) {
            SearchView::NotFound => last_among(known, list, n - 1, depth),
            other => other,
        }
    }
}

/// The first folder with images that comes after the subtree of `dir`, up to `steps` levels up.
pub open spec fn next_above(known: Seq<NodeView>, dir: PathView, steps: nat) -> SearchView
    decreases steps,
{
    if steps == 0 {
        SearchView::NotFound
    } else {
        match parent_of(dir) {
            None => SearchView::NotFound,
            Some(parent) => match lookup(known, parent) {
                None => SearchView::Unread(parent),
                Some(node) => {
                    let beside = if node.children.contains(dir) {
                        first_in(known, node.children, node.children.index_of_first(dir)->0 + 1, -1)
                    } else {
                        SearchView::NotFound
                    };
                    match beside {
                        SearchView::NotFound => next_above(known, parent, (steps - 1) as nat),
                        other => other,
                    }
                },
            },
        }
    }
}

/// The last folder with images that comes before `dir`, up to `steps` levels up.
pub open spec fn prev_above(known: Seq<NodeView>, dir: PathView, steps: nat) -> SearchView
    decreases steps,
{
    if steps == 0 {
        SearchView::NotFound
    } else {
        match parent_of(dir) {
            None => SearchView::NotFound,
            Some(parent) => match lookup(known, parent) {
                None => SearchView::Unread(parent),
                Some(node) => {
                    let beside = if node.children.contains(dir) {
                        last_among(known, node.children, node.children.index_of_first(dir)->0, 0)
                    } else {
                        SearchView::NotFound
                    };
                    match beside {
                        SearchView::NotFound => if node.has_images {
                            SearchView::Found(parent)
                        } else {
                            prev_above(known, parent, (steps - 1) as nat)
                        },
                        other => other,
                    }
                },
            },
        }
    }
}

/// The next folder with images after `dir`.
pub open spec fn next_folder(known: Seq<NodeView>, dir: PathView) -> SearchView {
    match first_under(known, dir, 0) {
        SearchView::NotFound => next_above(known, dir, MAX_DEPTH as nat),
        other => other,
    }
}

/// The previous folder with images before `dir`.
pub open spec fn prev_folder(known: Seq<NodeView>, dir: PathView) -> SearchView {
    prev_above(known, dir, MAX_DEPTH as nat)
}

/// The next folder with images in a branch beside the parent of `dir`.
pub open spec fn next_branch(known: Seq<NodeView>, dir: PathView) -> SearchView {
    match parent_of(dir) {
        None => SearchView::NotFound,
        Some(parent) => match parent_of(parent) {
            None => SearchView::NotFound,
            Some(above) => match lookup(known, above) {
                None => SearchView::Unread(above),
                Some(node) => if node.children.contains(parent) {
                    first_in(known, node.children, node.children.index_of_first(parent)->0 + 1, -1)
                } else {
                    SearchView::NotFound
                },
            },
        },
    }
}

/// The last folder with images in the branches before the parent of `dir`.
pub open spec fn prev_branch(known: Seq<NodeView>, dir: PathView) -> SearchView {
    match parent_of(dir) {
        None => SearchView::NotFound,
        Some(parent) => match parent_of(parent) {
            None => SearchView::NotFound,
            Some(above) => match lookup(known, above) {
                None => SearchView::Unread(above),
                Some(node) => if node.children.contains(parent) {
                    last_among(known, node.children, node.children.index_of_first(parent)->0, 0)
                } else {
                    SearchView::NotFound
                },
            },
        },
    }
}

proof fn lemma_lookup_at(known: Seq<NodeView>, dir: PathView, i: int)
    requires
        0 <= i < known.len(),
        known[i].dir == dir,
        forall|j: int| 0 <= j < i ==> (#[trigger] known[j]).dir != dir,
    ensures
        lookup(known, dir) == Some(known[i]),
    decreases known.len(),
{
    if i > 0 {
        assert(known[0].dir != dir);
        let rest = known.drop_first();
        assert forall|j: int| 0 <= j < i - 1 implies (#[trigger] rest[j]).dir != dir by {
            assert(known[j + 1].dir != dir);
        }
        lemma_lookup_at(rest, dir, i - 1);
    }
}

proof fn lemma_lookup_none(known: Seq<NodeView>, dir: PathView)
    requires
        forall|j: int| 0 <= j < known.len() ==> (#[trigger] known[j]).dir != dir,
    ensures
        lookup(known, dir) is None,
    decreases known.len(),
{
    if known.len() > 0 {
        assert(known[0].dir != dir);
        let rest = known.drop_first();
        assert forall|j: int| 0 <= j < rest.len() implies (#[trigger] rest[j]).dir != dir by {
            assert(known[j + 1].dir != dir);
        }
        lemma_lookup_none(rest, dir);
    }
}

impl FolderNode {
    /// The folder `dir` with the given entries, seen from `now`.
    pub fn new(dir: &MediaPath, entries: &Vec<DirEntry>, rule: SortRule, now: FileTime) -> (r:
        FolderNode)
        ensures
            r@.dir == dir@,
            is_folder_listing(r@.children, entry_views(entries@), rule, now),
            r@.has_images == holds_image(entry_views(entries@)),
    {
        FolderNode {
            dir: dir.copied(),
            children: sorted_child_dirs(entries, rule, now),
            has_images: directory_has_images(entries),
        }
    }
}

/// Finds what has been read of a folder.
fn find_node<'a>(known: &'a Vec<FolderNode>, dir: &MediaPath) -> (r: Option<&'a FolderNode>)
    ensures
        match r {
            Some(node) => lookup(node_views(known@), dir@) == Some(node@),
            None => lookup(node_views(known@), dir@) is None,
        },
{
    let ghost views = node_views(known@);
    let n: usize = known.len();
    let mut i: usize = 0;
    while i < n
        invariant
            i <= n,
            n == known@.len(),
            views == node_views(known@),
            forall|j: int| 0 <= j < i ==> (#[trigger] views[j]).dir != dir@,
        decreases n - i,
    {
        if known[i].dir.same(dir) {
            proof {
                lemma_lookup_at(views, dir@, i as int);
            }
            return Some(&known[i]);
        }
        i += 1;
    }
    proof {
        lemma_lookup_none(views, dir@);
    }
    None
}

/// Finds the first place of a folder in a list of folders.
fn place_in(list: &Vec<MediaPath>, dir: &MediaPath) -> (r: Option<usize>)
    ensures
        match r {
            Some(i) => {
                &&& i < list@.len() <= usize::MAX
                &&& path_views(list@).contains(dir@)
                &&& path_views(list@).index_of_first(dir@) == Some(i as int)
            },
            None => !path_views(list@).contains(dir@),
        },
{
    let r = position_of(list, dir);
    let n: usize = list.len();
    assert(list@.len() == n);
    proof {
        let views = path_views(list@);
        views.index_of_first_ensures(dir@);
        match r {
            Some(i) => {
                assert(views[i as int] == dir@);
                let k = views.index_of_first(dir@)->0;
                if k < i {
                    assert(list@[k]@ != dir@);
                }
            },
            None => {
                if views.contains(dir@) {
                    let k = choose|k: int| 0 <= k < views.len() && views[k] == dir@;
                    assert(list@[k]@ != dir@);
                }
            },
        }
    }
    r
}

/// Visits the subtrees of the folders of `list` from place `from` on; `below` is how many more
/// levels it may go down.
fn search_first_in(known: &Vec<FolderNode>, list: &Vec<MediaPath>, from: usize, below: usize) -> (r:
    Search)
    requires
        from <= list@.len(),
        below <= MAX_DEPTH,
    ensures
        r@ == first_in(node_views(known@), path_views(list@), from as int, MAX_DEPTH - 1 - below),
    decreases below, 1int,
{
    let ghost views = path_views(list@);
    let ghost nodes = node_views(known@);
    let n: usize = list.len();
    let mut i: usize = from;
    while i < n
        invariant
            i <= n,
            n == list@.len(),
            below <= MAX_DEPTH,
            views == path_views(list@),
            nodes == node_views(known@),
            first_in(nodes, views, from as int, MAX_DEPTH - 1 - below) == first_in(
                nodes,
                views,
                i as int,
                MAX_DEPTH - 1 - below,
            ),
        decreases n - i,
    {
        assert(views[i as int] == list@[i as int]@);
        match find_node(known, &list[i]) {
            None => {
                return Search::Unread(list[i].copied());
            },
            Some(node) => {
                if node.has_images {
                    return Search::Found(list[i].copied());
                }
                if below > 0 {
                    match search_first_in(known, &node.children, 0, below - 1) {
                        Search::NotFound => {},
                        other => {
                            return other;
                        },
                    }
                }
            },
        }
        i += 1;
    }
    Search::NotFound
}

/// The first folder with images under `dir`, itself not counted; `depth` is how many levels the
/// search has gone down already.
pub fn first_image_dir_under(known: &Vec<FolderNode>, dir: &MediaPath, depth: usize) -> (r: Search)
    ensures
        r@ == first_under(node_views(known@), dir@, depth as int),
{
    if depth >= MAX_DEPTH {
        return Search::NotFound;
    }
    match find_node(known, dir) {
        None => Search::Unread(dir.copied()),
        Some(node) => search_first_in(known, &node.children, 0, MAX_DEPTH - 1 - depth),
    }
}

/// The last folder with images in the subtree of `dir`; `depth` is how many levels the search has
/// gone down already.
pub fn last_image_dir_in_subtree(known: &Vec<FolderNode>, dir: &MediaPath, depth: usize) -> (r:
    Search)
    ensures
        r@ == last_in_tree(node_views(known@), dir@, depth as int),
    decreases
        if depth < MAX_DEPTH {
            MAX_DEPTH - depth
        } else {
            0
        },
        1int,
{
    match find_node(known, dir) {
        None => Search::Unread(dir.copied()),
        Some(node) => {
            if depth < MAX_DEPTH {
                match search_last_among(known, &node.children, node.children.len(), depth + 1) {
                    Search::NotFound => {},
                    other => {
                        return other;
                    },
                }
            }
            if node.has_images {
                Search::Found(dir.copied())
            } else {
                Search::NotFound
            }
        },
    }
}

fn search_last_among(known: &Vec<FolderNode>, list: &Vec<MediaPath>, count: usize, depth: usize) -> (r:
    Search)
    requires
        count <= list@.len(),
        depth <= MAX_DEPTH,
    ensures
        r@ == last_among(node_views(known@), path_views(list@), count as int, depth as int),
    decreases MAX_DEPTH - depth, 2int,
{
    let ghost views = path_views(list@);
    let ghost nodes = node_views(known@);
    let mut n: usize = count;
    while n > 0
        invariant
            n <= list@.len(),
            depth <= MAX_DEPTH,
            views == path_views(list@),
            nodes == node_views(known@),
            last_among(nodes, views, count as int, depth as int) == last_among(
                nodes,
                views,
                n as int,
                depth as int,
            ),
        decreases n,
    {
        assert(views[n - 1] == list@[n - 1]@);
        match last_image_dir_in_subtree(known, &list[n - 1], depth) {
            Search::NotFound => {},
            other => {
                return other;
            },
        }
        n -= 1;
    }
    Search::NotFound
}

/// The next folder with images after `current`.
pub fn next_image_dir_from(known: &Vec<FolderNode>, current: &MediaPath) -> (r: Search)
    ensures
        r@ == next_folder(node_views(known@), current@),
{
    let ghost nodes = node_views(known@);
    match first_image_dir_under(known, current, 0) {
        Search::NotFound => {},
        other => {
            return other;
        },
    }
    let mut dir = current.copied();
    let mut steps: usize = MAX_DEPTH;
    while steps > 0
        invariant
            steps <= MAX_DEPTH,
            nodes == node_views(known@),
            next_folder(nodes, current@) == next_above(nodes, dir@, steps as nat),
        decreases steps,
    {
        let parent = match dir.parent() {
            Some(p) => p,
            None => {
                return Search::NotFound;
            },
        };
        match find_node(known, &parent) {
            None => {
                return Search::Unread(parent);
            },
            Some(node) => {
                if let Some(place) = place_in(&node.children, &dir) {
                    match search_first_in(known, &node.children, place + 1, MAX_DEPTH) {
                        Search::NotFound => {},
                        other => {
                            return other;
                        },
                    }
                }
            },
        }
        dir = parent;
        steps -= 1;
    }
    Search::NotFound
}

/// The previous folder with images before `current`.
pub fn prev_image_dir_from(known: &Vec<FolderNode>, current: &MediaPath) -> (r: Search)
    ensures
        r@ == prev_folder(node_views(known@), current@),
{
    let ghost nodes = node_views(known@);
    let mut dir = current.copied();
    let mut steps: usize = MAX_DEPTH;
    while steps > 0
        invariant
            steps <= MAX_DEPTH,
            nodes == node_views(known@),
            prev_folder(nodes, current@) == prev_above(nodes, dir@, steps as nat),
        decreases steps,
    {
        let parent = match dir.parent() {
            Some(p) => p,
            None => {
                return Search::NotFound;
            },
        };
        match find_node(known, &parent) {
            None => {
                return Search::Unread(parent);
            },
            Some(node) => {
                if let Some(place) = place_in(&node.children, &dir) {
                    match search_last_among(known, &node.children, place, 0) {
                        Search::NotFound => {},
                        other => {
                            return other;
                        },
                    }
                }
                if node.has_images {
                    return Search::Found(parent);
                }
            },
        }
        dir = parent;
        steps -= 1;
    }
    Search::NotFound
}

/// The next folder with images in a branch beside the parent of `current`.
pub fn next_branch_from(known: &Vec<FolderNode>, current: &MediaPath) -> (r: Search)
    ensures
        r@ == next_branch(node_views(known@), current@),
{
    let parent = match current.parent() {
        Some(p) => p,
        None => {
            return Search::NotFound;
        },
    };
    let above = match parent.parent() {
        Some(p) => p,
        None => {
            return Search::NotFound;
        },
    };
    match find_node(known, &above) {
        None => Search::Unread(above),
        Some(node) => match place_in(&node.children, &parent) {
            Some(place) => search_first_in(known, &node.children, place + 1, MAX_DEPTH),
            None => Search::NotFound,
        },
    }
}

/// The last folder with images in the branches before the parent of `current`.
pub fn prev_branch_from(known: &Vec<FolderNode>, current: &MediaPath) -> (r: Search)
    ensures
        r@ == prev_branch(node_views(known@), current@),
{
    let parent = match current.parent() {
        Some(p) => p,
        None => {
            return Search::NotFound;
        },
    };
    let above = match parent.parent() {
        Some(p) => p,
        None => {
            return Search::NotFound;
        },
    };
    match find_node(known, &above) {
        None => Search::Unread(above),
        Some(node) => match place_in(&node.children, &parent) {
            Some(place) => search_last_among(known, &node.children, place, 0),
            None => Search::NotFound,
        },
    }
}

impl FileList {
    /// The folder `dir` with the given entries, as this list sorts folders.
    pub fn read_folder(&self, dir: &MediaPath, entries: &Vec<DirEntry>, now: FileTime) -> (r:
        FolderNode)
        ensures
            r@.dir == dir@,
            is_folder_listing(r@.children, entry_views(entries@), self.folder_rule(), now),
            r@.has_images == holds_image(entry_views(entries@)),
    {
        FolderNode::new(
            dir,
            entries,
            SortRule {
                sort_key: self.sort_key,
                sort_order: self.sort_order,
                group_by: self.group_by,
            },
            now,
        )
    }

    /// The next folder with images after the folder of this list.
    pub fn next_image_dir(&self, known: &Vec<FolderNode>) -> (r: Search)
        ensures
            r@ == next_folder(node_views(known@), self.dir()),
    {
        next_image_dir_from(known, &self.directory)
    }

    /// The previous folder with images before the folder of this list.
    pub fn prev_image_dir(&self, known: &Vec<FolderNode>) -> (r: Search)
        ensures
            r@ == prev_folder(node_views(known@), self.dir()),
    {
        prev_image_dir_from(known, &self.directory)
    }

    /// The next folder with images in a branch beside the parent of this list's folder.
    pub fn next_branch_dir(&self, known: &Vec<FolderNode>) -> (r: Search)
        ensures
            r@ == next_branch(node_views(known@), self.dir()),
    {
        next_branch_from(known, &self.directory)
    }

    /// The last folder with images in the branches before the parent of this list's folder.
    pub fn prev_branch_dir(&self, known: &Vec<FolderNode>) -> (r: Search)
        ensures
            r@ == prev_branch(node_views(known@), self.dir()),
    {
        prev_branch_from(known, &self.directory)
    }
}

/// Whether everything that `known` says of folders, `more` says too.
pub open spec fn extends(more: Seq<NodeView>, known: Seq<NodeView>) -> bool {
    forall|d: PathView|
        #![trigger lookup(known, d)]
        lookup(known, d) is Some ==> lookup(more, d) == lookup(known, d)
}

/// What holds of every outcome of a search over `known`: a folder found has images, a folder to
/// be read has not been read, and an answer is the same over any `more`.
pub open spec fn is_sound(known: Seq<NodeView>, more: Seq<NodeView>, over_known: SearchView, over_more: SearchView) -> bool {
    match over_known {
        SearchView::Found(d) => lookup(known, d) is Some && lookup(known, d)->0.has_images
            && over_more == over_known,
        SearchView::NotFound => over_more == over_known,
        SearchView::Unread(d) => lookup(known, d) is None,
    }
}

proof fn lemma_first_in_sound(known: Seq<NodeView>, more: Seq<NodeView>, list: Seq<PathView>, i: int, depth: int)
    requires
        extends(more, known),
    ensures
        is_sound(known, more, first_in(known, list, i, depth), first_in(more, list, i, depth)),
    decreases MAX_DEPTH - depth, 1int, list.len() - i,
{
    if 0 <= i < list.len() {
        match lookup(known, list[i]) {
            None => {},
            Some(node) => {
                assert(lookup(more, list[i]) == Some(node));
                if !node.has_images {
                    lemma_first_in_sound(known, more, list, i + 1, depth);
                    if depth + 1 < MAX_DEPTH {
                        lemma_first_in_sound(known, more, node.children, 0, depth + 1);
                    }
                }
            },
        }
    }
}

proof fn lemma_last_in_tree_sound(known: Seq<NodeView>, more: Seq<NodeView>, dir: PathView, depth: int)
    requires
        extends(more, known),
    ensures
        is_sound(known, more, last_in_tree(known, dir, depth), last_in_tree(more, dir, depth)),
    decreases MAX_DEPTH - depth, 1int, 0int,
{
    match lookup(known, dir) {
        None => {},
        Some(node) => {
            assert(lookup(more, dir) == Some(node));
            if depth < MAX_DEPTH {
                lemma_last_among_sound(known, more, node.children, node.children.len() as int, depth + 1);
            }
        },
    }
}

proof fn lemma_last_among_sound(known: Seq<NodeView>, more: Seq<NodeView>, list: Seq<PathView>, n: int, depth: int)
    requires
        extends(more, known),
    ensures
        is_sound(known, more, last_among(known, list, n, depth), last_among(more, list, n, depth)),
    decreases MAX_DEPTH - depth, 2int, n,
{
    if 0 < n <= list.len() && depth <= MAX_DEPTH {
        lemma_last_in_tree_sound(known, more, list[n - 1], depth);
        lemma_last_among_sound(known, more, list, n - 1, depth);
    }
}

proof fn lemma_next_above_sound(known: Seq<NodeView>, more: Seq<NodeView>, dir: PathView, steps: nat)
    requires
        extends(more, known),
    ensures
        is_sound(known, more, next_above(known, dir, steps), next_above(more, dir, steps)),
    decreases steps,
{
    if steps > 0 && parent_of(dir) is Some {
        let parent = parent_of(dir)->0;
        match lookup(known, parent) {
            None => {},
            Some(node) => {
                assert(lookup(more, parent) == Some(node));
                lemma_first_in_sound(
                    known,
                    more,
                    node.children,
                    node.children.index_of_first(dir)->0 + 1,
                    -1,
                );
                lemma_next_above_sound(known, more, parent, (steps - 1) as nat);
            },
        }
    }
}

proof fn lemma_prev_above_sound(known: Seq<NodeView>, more: Seq<NodeView>, dir: PathView, steps: nat)
    requires
        extends(more, known),
    ensures
        is_sound(known, more, prev_above(known, dir, steps), prev_above(more, dir, steps)),
    decreases steps,
{
    if steps > 0 && parent_of(dir) is Some {
        let parent = parent_of(dir)->0;
        match lookup(known, parent) {
            None => {},
            Some(node) => {
                assert(lookup(more, parent) == Some(node));
                lemma_last_among_sound(
                    known,
                    more,
                    node.children,
                    node.children.index_of_first(dir)->0,
                    0,
                );
                lemma_prev_above_sound(known, more, parent, (steps - 1) as nat);
            },
        }
    }
}

/// The search for the next or the previous folder, or for a neighbouring branch, only ever
/// answers with a folder that holds an image, only ever asks for a folder that has not been
/// read, and answers the same when more folders have been read.
pub proof fn lemma_search_sound(known: Seq<NodeView>, more: Seq<NodeView>, dir: PathView)
    requires
        extends(more, known),
    ensures
        is_sound(known, more, next_folder(known, dir), next_folder(more, dir)),
        is_sound(known, more, prev_folder(known, dir), prev_folder(more, dir)),
        is_sound(known, more, next_branch(known, dir), next_branch(more, dir)),
        is_sound(known, more, prev_branch(known, dir), prev_branch(more, dir)),
{
    match lookup(known, dir) {
        None => {},
        Some(node) => {
            assert(lookup(more, dir) == Some(node));
            lemma_first_in_sound(known, more, node.children, 0, 0);
        },
    }
    lemma_next_above_sound(known, more, dir, MAX_DEPTH as nat);
    lemma_prev_above_sound(known, more, dir, MAX_DEPTH as nat);
    if parent_of(dir) is Some && parent_of(parent_of(dir)->0) is Some {
        let parent = parent_of(dir)->0;
        let above = parent_of(parent)->0;
        match lookup(known, above) {
            None => {},
            Some(node) => {
                assert(lookup(more, above) == Some(node));
                let place = node.children.index_of_first(parent)->0;
                lemma_first_in_sound(known, more, node.children, place + 1, -1);
                lemma_last_among_sound(known, more, node.children, place, 0);
            },
        }
    }
}

/// Reading one more folder adds to what is known, and takes nothing from it.
pub proof fn lemma_reading_extends(known: Seq<NodeView>, node: NodeView)
    ensures
        extends(known.push(node), known),
        lookup(known.push(node), node.dir) is Some,
    decreases known.len(),
{
    if known.len() == 0 {
        assert(known.push(node)[0] == node);
    } else {
        let rest = known.drop_first();
        lemma_reading_extends(rest, node);
        assert(known.push(node).drop_first() =~= rest.push(node));
        assert(known.push(node)[0] == known[0]);
        assert forall|d: PathView| #![trigger lookup(known, d)] lookup(known, d) is Some implies
            lookup(known.push(node), d) == lookup(known, d) by {
            if known[0].dir != d {
                assert(lookup(rest, d) == lookup(known, d));
                assert(lookup(rest.push(node), d) == lookup(rest, d));
            }
        }
    }
}

} // verus!
