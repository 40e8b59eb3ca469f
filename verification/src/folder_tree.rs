//! The order in which the folders of a tree are visited.
//!
//! The searches of [`crate::folders`] go from folder to folder by what lies below, beside and above
//! each one. This module states what that comes to: in a tree that has been read and is not
//! deeper than the searches go, they visit the folders with images one after the other, each
//! folder before the ones it holds, and backwards the other way round.

use vstd::prelude::*;

verus! {

use crate::folders::{
    first_in, first_under, last_among, last_in_tree, lookup, next_above, next_branch, next_folder,
    prev_above, prev_branch, prev_folder, NodeView, SearchView, MAX_DEPTH,
};
use crate::path::{parent_of, PathView};

/// The folders below `dir` have been read, down to at most `height` levels; below that there are
/// none. Each is listed once, in the folder that it is in.
pub open spec fn is_tree(known: Seq<NodeView>, dir: PathView, height: nat) -> bool
    decreases height,
{
    match lookup(known, dir) {
        None => false,
        Some(node) => {
            &&& node.children.no_duplicates()
            &&& forall|i: int|
                0 <= i < node.children.len() ==> parent_of(#[trigger] node.children[i]) == Some(dir)
            &&& if height == 0 {
                node.children.len() == 0
            } else {
                forall|i: int|
                    0 <= i < node.children.len() ==> is_tree(
                        known,
                        #[trigger] node.children[i],
                        (height - 1) as nat,
                    )
            }
        },
    }
}

/// Every folder of the list is the top of a tree.
pub open spec fn are_trees(known: Seq<NodeView>, list: Seq<PathView>, height: nat) -> bool {
    forall|i: int| 0 <= i < list.len() ==> is_tree(known, #[trigger] list[i], height)
}

/// The folders with images in the tree below `dir`, `dir` among them, each before the ones it
/// holds.
pub open spec fn visited(known: Seq<NodeView>, dir: PathView, height: nat) -> Seq<PathView>
    decreases height, 0int, 0int,
{
    match lookup(known, dir) {
        None => Seq::empty(),
        Some(node) => (if node.has_images {
            seq![dir]
        } else {
            Seq::empty()
        }) + (if height == 0 {
            Seq::empty()
        } else {
            visited_in(known, node.children, (height - 1) as nat)
        }),
    }
}

/// The folders with images in the trees of a list, one tree after the other.
pub open spec fn visited_in(known: Seq<NodeView>, list: Seq<PathView>, height: nat) -> Seq<PathView>
    decreases height, 1int, list.len(),
{
    if list.len() == 0 {
        Seq::empty()
    } else {
        visited(known, list[0], height) + visited_in(known, list.drop_first(), height)
    }
}

/// What a search comes to that looks for the first of `s`.
pub open spec fn first_of(s: Seq<PathView>) -> SearchView {
    if s.len() > 0 {
        SearchView::Found(s[0])
    } else {
        SearchView::NotFound
    }
}

/// What a search comes to that looks for the last of `s`.
pub open spec fn last_of(s: Seq<PathView>) -> SearchView {
    if s.len() > 0 {
        SearchView::Found(s.last())
    } else {
        SearchView::NotFound
    }
}

proof fn lemma_visited_join(known: Seq<NodeView>, a: Seq<PathView>, b: Seq<PathView>, height: nat)
    ensures
        visited_in(known, a + b, height) == visited_in(known, a, height) + visited_in(
            known,
            b,
            height,
        ),
    decreases a.len(),
{
    if a.len() == 0 {
        assert(a + b =~= b);
        assert(visited_in(known, a, height) + visited_in(known, b, height) =~= visited_in(
            known,
            b,
            height,
        ));
    } else {
        lemma_visited_join(known, a.drop_first(), b, height);
        assert((a + b).drop_first() =~= a.drop_first() + b);
        assert((a + b)[0] == a[0]);
        assert(visited_in(known, a + b, height) =~= visited_in(known, a, height) + visited_in(
            known,
            b,
            height,
        ));
    }
}

/// The trees of a list fall into those before a place, the one at it, and those after it.
proof fn lemma_visited_split(known: Seq<NodeView>, list: Seq<PathView>, j: int, height: nat)
    requires
        0 <= j < list.len(),
    ensures
        visited_in(known, list, height) == visited_in(known, list.take(j), height) + visited(
            known,
            list[j],
            height,
        ) + visited_in(known, list.skip(j + 1), height),
{
    assert(list =~= list.take(j) + list.skip(j));
    lemma_visited_join(known, list.take(j), list.skip(j), height);
    assert(list.skip(j).drop_first() =~= list.skip(j + 1));
    assert(list.skip(j)[0] == list[j]);
    assert(visited_in(known, list, height) =~= visited_in(known, list.take(j), height) + visited(
        known,
        list[j],
        height,
    ) + visited_in(known, list.skip(j + 1), height));
}

/// The search for the first folder with images finds the first that is visited.
proof fn lemma_first_in(
    known: Seq<NodeView>,
    list: Seq<PathView>,
    i: int,
    depth: int,
    height: nat,
)
    requires
        are_trees(known, list, height),
        0 <= i <= list.len(),
        -1 <= depth,
        depth + height + 1 <= MAX_DEPTH,
    ensures
        first_in(known, list, i, depth) == first_of(visited_in(known, list.skip(i), height)),
    decreases height, list.len() - i,
{
    if i < list.len() {
        let dir = list[i];
        let rest = list.skip(i);
        assert(is_tree(known, dir, height));
        assert(rest[0] == dir);
        assert(rest.drop_first() =~= list.skip(i + 1));
        lemma_first_in(known, list, i + 1, depth, height);
        let node = lookup(known, dir)->0;
        let here = visited(known, dir, height);
        if node.has_images {
            assert(here[0] == dir);
        } else if height == 0 {
            assert(here =~= Seq::empty());
            assert(first_in(known, node.children, 0, depth + 1) is NotFound);
        } else {
            let low = (height - 1) as nat;
            assert(are_trees(known, node.children, low));
            lemma_first_in(known, node.children, 0, depth + 1, low);
            assert(node.children.skip(0) =~= node.children);
            assert(here =~= visited_in(known, node.children, low));
        }
        let others = visited_in(known, list.skip(i + 1), height);
        assert(visited_in(known, rest, height) == here + others);
        if here.len() == 0 {
            assert(here + others =~= others);
        }
    } else {
        assert(list.skip(i) =~= Seq::empty());
    }
}

/// The search for the last folder with images finds the last that is visited.
proof fn lemma_last_in_tree(known: Seq<NodeView>, dir: PathView, depth: int, height: nat)
    requires
        is_tree(known, dir, height),
        0 <= depth,
        depth + height <= MAX_DEPTH,
    ensures
        last_in_tree(known, dir, depth) == last_of(visited(known, dir, height)),
    decreases height, 0int, 0int,
{
    let node = lookup(known, dir)->0;
    if height > 0 {
        assert(are_trees(known, node.children, (height - 1) as nat));
        lemma_last_among(
            known,
            node.children,
            node.children.len() as int,
            depth + 1,
            (height - 1) as nat,
        );
        assert(node.children.take(node.children.len() as int) =~= node.children);
    }
}

proof fn lemma_last_among(
    known: Seq<NodeView>,
    list: Seq<PathView>,
    n: int,
    depth: int,
    height: nat,
)
    requires
        are_trees(known, list, height),
        0 <= n <= list.len(),
        0 <= depth,
        depth + height <= MAX_DEPTH,
    ensures
        last_among(known, list, n, depth) == last_of(visited_in(known, list.take(n), height)),
    decreases height, 1int, n,
{
    if n > 0 {
        assert(is_tree(known, list[n - 1], height));
        lemma_last_in_tree(known, list[n - 1], depth, height);
        lemma_last_among(known, list, n - 1, depth, height);
        let taken = list.take(n);
        assert(taken.take(n - 1) =~= list.take(n - 1));
        assert(taken.skip(n) =~= Seq::empty());
        lemma_visited_split(known, taken, n - 1, height);
        assert(visited_in(known, taken.skip(n), height) =~= Seq::empty());
    } else {
        assert(list.take(n) =~= Seq::empty());
    }
}

/// Where a search goes on from a folder of a list, it goes on at the next place.
proof fn lemma_place_in_list(list: Seq<PathView>, j: int)
    requires
        list.no_duplicates(),
        0 <= j < list.len(),
    ensures
        list.contains(list[j]),
        list.index_of_first(list[j]) == Some(j),
{
    list.index_of_first_ensures(list[j]);
}

/// All folders of the tree below `dir`, `dir` among them, each before the ones it holds.
pub open spec fn folders_of(known: Seq<NodeView>, dir: PathView, height: nat) -> Seq<PathView>
    decreases height, 0int, 0int,
{
    match lookup(known, dir) {
        None => seq![dir],
        Some(node) => seq![dir] + (if height == 0 {
            Seq::empty()
        } else {
            folders_in(known, node.children, (height - 1) as nat)
        }),
    }
}

/// All folders of the trees of a list, one tree after the other.
pub open spec fn folders_in(known: Seq<NodeView>, list: Seq<PathView>, height: nat) -> Seq<PathView>
    decreases height, 1int, list.len(),
{
    if list.len() == 0 {
        Seq::empty()
    } else {
        folders_of(known, list[0], height) + folders_in(known, list.drop_first(), height)
    }
}

/// Whether a folder that has been read holds images.
pub open spec fn has_images(known: Seq<NodeView>, dir: PathView) -> bool {
    lookup(known, dir) matches Some(node) && node.has_images
}

/// The folders with images among some folders.
pub open spec fn with_images(known: Seq<NodeView>, dirs: Seq<PathView>) -> Seq<PathView> {
    dirs.filter(|d: PathView| has_images(known, d))
}

proof fn lemma_with_images_join(known: Seq<NodeView>, a: Seq<PathView>, b: Seq<PathView>)
    ensures
        with_images(known, a + b) == with_images(known, a) + with_images(known, b),
{
    Seq::filter_distributes_over_add(a, b, |d: PathView| has_images(known, d));
}

proof fn lemma_with_images_one(known: Seq<NodeView>, dir: PathView)
    ensures
        with_images(known, seq![dir]) == if has_images(known, dir) {
            seq![dir]
        } else {
            Seq::empty()
        },
{
    reveal(Seq::filter);
    lemma_with_images_none(known);
    assert(seq![dir].drop_last() =~= Seq::empty());
    assert(seq![dir].last() == dir);
    assert(with_images(known, seq![dir]) =~= if has_images(known, dir) {
        seq![dir]
    } else {
        Seq::empty()
    });
}

proof fn lemma_with_images_none(known: Seq<NodeView>)
    ensures
        with_images(known, Seq::empty()) == Seq::<PathView>::empty(),
{
    reveal(Seq::filter);
}

/// The folders that are visited are those of the tree that hold images.
pub proof fn lemma_visited_have_images(known: Seq<NodeView>, dir: PathView, height: nat)
    ensures
        visited(known, dir, height) == with_images(known, folders_of(known, dir, height)),
    decreases height, 0int, 0int,
{
    lemma_with_images_one(known, dir);
    if let Some(node) = lookup(known, dir) {
        let below = if height == 0 {
            Seq::empty()
        } else {
            folders_in(known, node.children, (height - 1) as nat)
        };
        lemma_with_images_join(known, seq![dir], below);
        if height == 0 {
            lemma_with_images_none(known);
        } else {
            lemma_all_visited_have_images(known, node.children, (height - 1) as nat);
        }
    }
}

proof fn lemma_all_visited_have_images(known: Seq<NodeView>, list: Seq<PathView>, height: nat)
    ensures
        visited_in(known, list, height) == with_images(known, folders_in(known, list, height)),
    decreases height, 1int, list.len(),
{
    if list.len() == 0 {
        lemma_with_images_none(known);
    } else {
        lemma_visited_have_images(known, list[0], height);
        lemma_all_visited_have_images(known, list.drop_first(), height);
        lemma_with_images_join(
            known,
            folders_of(known, list[0], height),
            folders_in(known, list.drop_first(), height),
        );
    }
}

/// The tree of a list in which the `i`th folder is, and what comes before and after it.
proof fn lemma_folder_place(known: Seq<NodeView>, list: Seq<PathView>, height: nat, i: int) -> (j:
    int)
    requires
        0 <= i < folders_in(known, list, height).len(),
    ensures
        0 <= j < list.len(),
        ({
            let before = folders_in(known, list.take(j), height);
            let here = folders_of(known, list[j], height);
            let after = folders_in(known, list.skip(j + 1), height);
            &&& folders_in(known, list, height) == before + here + after
            &&& before.len() <= i < before.len() + here.len()
        }),
    decreases list.len(),
{
    let all = folders_in(known, list, height);
    let here = folders_of(known, list[0], height);
    let rest = list.drop_first();
    if i < here.len() {
        assert(list.take(0) =~= Seq::empty());
        assert(list.skip(1) =~= rest);
        assert(all =~= Seq::empty() + here + folders_in(known, rest, height));
        0
    } else {
        let j = lemma_folder_place(known, rest, height, i - here.len());
        assert(list.take(j + 1).drop_first() =~= rest.take(j));
        assert(list.take(j + 1)[0] == list[0]);
        assert(rest[j] == list[j + 1]);
        assert(list.skip(j + 2) =~= rest.skip(j + 1));
        let before = folders_in(known, list.take(j + 1), height);
        assert(before == here + folders_in(known, rest.take(j), height));
        assert(all =~= before + folders_of(known, list[j + 1], height) + folders_in(
            known,
            list.skip(j + 2),
            height,
        ));
        j + 1
    }
}

/// From a folder of the tree below `root`, the search goes to the first one with images that comes
/// after it; where there is none, it climbs `k` levels to `root` and goes on from there.
proof fn lemma_next_in_tree(known: Seq<NodeView>, root: PathView, height: nat, i: int) -> (k: nat)
    requires
        is_tree(known, root, height),
        height <= MAX_DEPTH,
        0 <= i < folders_of(known, root, height).len(),
    ensures
        k <= height,
        ({
            let all = folders_of(known, root, height);
            let rest = with_images(known, all.skip(i + 1));
            &&& rest.len() > 0 ==> next_folder(known, all[i]) == SearchView::Found(rest[0])
            &&& rest.len() == 0 ==> first_under(known, all[i], 0) is NotFound
            &&& rest.len() == 0 ==> forall|s: nat|
                s >= k ==> #[trigger] next_above(known, all[i], s) == next_above(
                    known,
                    root,
                    (s - k) as nat,
                )
        }),
    decreases height,
{
    let all = folders_of(known, root, height);
    let node = lookup(known, root)->0;
    if height == 0 {
        assert(all =~= seq![root]);
        assert(all.skip(1) =~= Seq::empty());
        lemma_with_images_none(known);
        0
    } else if i == 0 {
        let low = (height - 1) as nat;
        assert(are_trees(known, node.children, low));
        lemma_first_in(known, node.children, 0, 0, low);
        assert(node.children.skip(0) =~= node.children);
        assert(all.skip(1) =~= folders_in(known, node.children, low));
        lemma_all_visited_have_images(known, node.children, low);
        0
    } else {
        let low = (height - 1) as nat;
        let below = folders_in(known, node.children, low);
        assert(are_trees(known, node.children, low));
        let j = lemma_folder_place(known, node.children, low, i - 1);
        let child = node.children[j];
        assert(is_tree(known, child, low));
        let before = folders_in(known, node.children.take(j), low);
        let here = folders_of(known, child, low);
        let after = folders_in(known, node.children.skip(j + 1), low);
        let local = i - 1 - before.len();
        let k = lemma_next_in_tree(known, child, low, local);
        assert(all[i] == below[i - 1]);
        assert(below[i - 1] == here[local]);
        assert(all.skip(i + 1) =~= here.skip(local + 1) + after);
        lemma_with_images_join(known, here.skip(local + 1), after);
        lemma_all_visited_have_images(known, node.children.skip(j + 1), low);
        let inside = with_images(known, here.skip(local + 1));
        let beside = with_images(known, after);
        if inside.len() == 0 {
            assert(inside + beside =~= beside);
            lemma_place_in_list(node.children, j);
            lemma_first_in(known, node.children, j + 1, -1, low);
            assert(parent_of(child) == Some(root));
            assert forall|s: nat| s >= k + 1 implies #[trigger] next_above(known, all[i], s) == (
            match first_of(beside) {
                SearchView::NotFound => next_above(known, root, (s - (k + 1)) as nat),
                other => other,
            }) by {
                assert(next_above(known, all[i], s) == next_above(known, child, (s - k) as nat));
            }
            if beside.len() > 0 {
                assert(next_above(known, all[i], MAX_DEPTH as nat) == SearchView::Found(beside[0]));
            }
        }
        k + 1
    }
}

/// Where a search backwards has climbed from `dir` to the `j`th folder of `root`, it goes on with the
/// folders before that one, then with `root` itself, and then from there.
proof fn lemma_climb_back(
    known: Seq<NodeView>,
    root: PathView,
    height: nat,
    j: int,
    dir: PathView,
    k: nat,
)
    requires
        is_tree(known, root, height),
        0 < height <= MAX_DEPTH,
        0 <= j < lookup(known, root)->0.children.len(),
        forall|s: nat|
            s >= k ==> #[trigger] prev_above(known, dir, s) == prev_above(
                known,
                lookup(known, root)->0.children[j],
                (s - k) as nat,
            ),
    ensures
        forall|s: nat|
            s >= k + 1 ==> #[trigger] prev_above(known, dir, s) == (match last_of(
                visited_in(
                    known,
                    lookup(known, root)->0.children.take(j),
                    (height - 1) as nat,
                ),
            ) {
                SearchView::NotFound => if has_images(known, root) {
                    SearchView::Found(root)
                } else {
                    prev_above(known, root, (s - (k + 1)) as nat)
                },
                other => other,
            }),
{
    let children = lookup(known, root)->0.children;
    let low = (height - 1) as nat;
    assert(are_trees(known, children, low));
    lemma_place_in_list(children, j);
    lemma_last_among(known, children, j, 0, low);
    assert(parent_of(children[j]) == Some(root));
}

/// The folders with images among `root`, some folders after it, and some after those.
proof fn lemma_images_before(
    known: Seq<NodeView>,
    root: PathView,
    before: Seq<PathView>,
    part: Seq<PathView>,
)
    ensures
        ({
            let all = with_images(known, (seq![root] + before) + part);
            let (beside, inside) = (with_images(known, before), with_images(known, part));
            &&& inside.len() > 0 ==> all.len() > 0 && all.last() == inside.last()
            &&& inside.len() == 0 && beside.len() > 0 ==> all.len() > 0 && all.last()
                == beside.last()
            &&& inside.len() == 0 && beside.len() == 0 ==> all == if has_images(known, root) {
                seq![root]
            } else {
                Seq::empty()
            }
        }),
{
    lemma_with_images_join(known, seq![root] + before, part);
    lemma_with_images_join(known, seq![root], before);
    lemma_with_images_one(known, root);
    let all = with_images(known, (seq![root] + before) + part);
    let own = with_images(known, seq![root]);
    let (beside, inside) = (with_images(known, before), with_images(known, part));
    if inside.len() == 0 {
        assert(all =~= own + beside);
        if beside.len() == 0 {
            assert(all =~= own);
        }
    }
}

/// From a folder of the tree below `root`, the search backwards goes to the last one with images
/// that comes before it; where there is none, it climbs `k` levels to `root` and goes on from there.
proof fn lemma_prev_in_tree(known: Seq<NodeView>, root: PathView, height: nat, i: int) -> (k: nat)
    requires
        is_tree(known, root, height),
        height <= MAX_DEPTH,
        0 <= i < folders_of(known, root, height).len(),
    ensures
        k <= height,
        ({
            let all = folders_of(known, root, height);
            let rest = with_images(known, all.take(i));
            &&& rest.len() > 0 ==> prev_folder(known, all[i]) == SearchView::Found(rest.last())
            &&& rest.len() == 0 ==> forall|s: nat|
                s >= k ==> #[trigger] prev_above(known, all[i], s) == prev_above(
                    known,
                    root,
                    (s - k) as nat,
                )
        }),
    decreases height,
{
    let all = folders_of(known, root, height);
    let node = lookup(known, root)->0;
    if i == 0 {
        assert(all[0] == root);
        assert(all.take(0) =~= Seq::empty());
        lemma_with_images_none(known);
        0
    } else {
        let low = (height - 1) as nat;
        let below = folders_in(known, node.children, low);
        assert(are_trees(known, node.children, low));
        let j = lemma_folder_place(known, node.children, low, i - 1);
        let child = node.children[j];
        assert(is_tree(known, child, low));
        let before = folders_in(known, node.children.take(j), low);
        let here = folders_of(known, child, low);
        let local = i - 1 - before.len();
        let k = lemma_prev_in_tree(known, child, low, local);
        assert(all[i] == below[i - 1]);
        assert(below[i - 1] == here[local]);
        assert(all.take(i) =~= (seq![root] + before) + here.take(local));
        lemma_images_before(known, root, before, here.take(local));
        lemma_all_visited_have_images(known, node.children.take(j), low);
        if with_images(known, here.take(local)).len() == 0 {
            lemma_climb_back(known, root, height, j, all[i], k);
            assert(prev_above(known, all[i], MAX_DEPTH as nat) == prev_folder(known, all[i]));
        }
        k + 1
    }
}

/// In a tree that has been read and is no deeper than the searches go, the way on from any folder,
/// with images or without, leads to the first folder with images that comes after it, and the way
/// back to the last one that comes before it. At the ends of a tree whose top lies in no other
/// folder, neither leads anywhere.
pub proof fn lemma_neighbours(known: Seq<NodeView>, root: PathView, height: nat, i: int)
    requires
        is_tree(known, root, height),
        height <= MAX_DEPTH,
        0 <= i < folders_of(known, root, height).len(),
    ensures
        ({
            let all = folders_of(known, root, height);
            let after = with_images(known, all.skip(i + 1));
            let before = with_images(known, all.take(i));
            &&& after.len() > 0 || parent_of(root) is None ==> next_folder(known, all[i])
                == first_of(after)
            &&& before.len() > 0 || parent_of(root) is None ==> prev_folder(known, all[i])
                == last_of(before)
        }),
{
    let all = folders_of(known, root, height);
    let most = MAX_DEPTH as nat;
    let k = lemma_next_in_tree(known, root, height, i);
    let l = lemma_prev_in_tree(known, root, height, i);
    if with_images(known, all.skip(i + 1)).len() == 0 {
        assert(next_above(known, all[i], most) == next_above(known, root, (most - k) as nat));
    }
    if with_images(known, all.take(i)).len() == 0 {
        assert(prev_above(known, all[i], most) == prev_above(known, root, (most - l) as nat));
    }
}

/// Where among some folders the `i`th one with images is.
proof fn lemma_image_folder_place(known: Seq<NodeView>, dirs: Seq<PathView>, i: int) -> (j: int)
    requires
        0 <= i < with_images(known, dirs).len(),
    ensures
        0 <= j < dirs.len(),
        dirs[j] == with_images(known, dirs)[i],
        with_images(known, dirs.take(j)) == with_images(known, dirs).take(i),
        with_images(known, dirs.skip(j + 1)) == with_images(known, dirs).skip(i + 1),
    decreases dirs.len(),
{
    let all = with_images(known, dirs);
    if dirs.len() == 0 {
        lemma_with_images_none(known);
        0
    } else {
        let rest = dirs.drop_first();
        let own = with_images(known, seq![dirs[0]]);
        assert(dirs =~= seq![dirs[0]] + rest);
        lemma_with_images_join(known, seq![dirs[0]], rest);
        lemma_with_images_one(known, dirs[0]);
        if i < own.len() {
            assert(dirs.take(0) =~= Seq::empty());
            lemma_with_images_none(known);
            assert(dirs.skip(1) =~= rest);
            assert(all.take(0) =~= Seq::empty());
            assert(all.skip(1) =~= with_images(known, rest));
            0
        } else {
            let j = lemma_image_folder_place(known, rest, i - own.len());
            assert(dirs.take(j + 1) =~= seq![dirs[0]] + rest.take(j));
            lemma_with_images_join(known, seq![dirs[0]], rest.take(j));
            assert(dirs.skip(j + 2) =~= rest.skip(j + 1));
            assert(all.take(i) =~= own + with_images(known, rest).take(i - own.len()));
            assert(all.skip(i + 1) =~= with_images(known, rest).skip(i + 1 - own.len()));
            j + 1
        }
    }
}

/// In a tree that has been read and is no deeper than the searches go, the next and the previous
/// folder are neighbours: from each folder with images but the last, the search goes on to the one
/// that is visited next, and from there it leads back. From the last one of a tree whose top lies
/// in no other folder, nothing is next, and nothing comes before the first one.
pub proof fn lemma_folders_in_order(known: Seq<NodeView>, root: PathView, height: nat, i: int)
    requires
        is_tree(known, root, height),
        height <= MAX_DEPTH,
        0 <= i < visited(known, root, height).len(),
    ensures
        ({
            let all = visited(known, root, height);
            &&& i + 1 < all.len() ==> next_folder(known, all[i]) == SearchView::Found(all[i + 1])
            &&& i + 1 < all.len() ==> prev_folder(known, all[i + 1]) == SearchView::Found(all[i])
            &&& parent_of(root) is None ==> next_folder(known, all.last()) is NotFound
            &&& parent_of(root) is None ==> prev_folder(known, all[0]) is NotFound
        }),
{
    let dirs = folders_of(known, root, height);
    lemma_visited_have_images(known, root, height);
    let all = visited(known, root, height);
    let here = lemma_image_folder_place(known, dirs, i);
    lemma_neighbours(known, root, height, here);
    if i + 1 < all.len() {
        let there = lemma_image_folder_place(known, dirs, i + 1);
        lemma_neighbours(known, root, height, there);
        assert(all.skip(i + 1)[0] == all[i + 1]);
        assert(all.take(i + 1).last() == all[i]);
    }
    let first = lemma_image_folder_place(known, dirs, 0);
    let last = lemma_image_folder_place(known, dirs, all.len() - 1);
    lemma_neighbours(known, root, height, first);
    lemma_neighbours(known, root, height, last);
}

/// The way to the next branch leads to the first folder with images in the branches after that of
/// the parent, the way to the previous one to the last in the branches before it; where there is
/// none, neither leads anywhere, and neither comes back to the parent's own branch.
pub proof fn lemma_branches_in_order(
    known: Seq<NodeView>,
    above: PathView,
    height: nat,
    j: int,
    dir: PathView,
)
    requires
        is_tree(known, above, height),
        0 < height <= MAX_DEPTH,
        0 <= j < lookup(known, above)->0.children.len(),
        parent_of(dir) == Some(lookup(known, above)->0.children[j]),
    ensures
        ({
            let branches = lookup(known, above)->0.children;
            let low = (height - 1) as nat;
            &&& next_branch(known, dir) == first_of(visited_in(known, branches.skip(j + 1), low))
            &&& prev_branch(known, dir) == last_of(visited_in(known, branches.take(j), low))
            &&& visited_in(known, branches, low) == visited_in(known, branches.take(j), low)
                + visited(known, branches[j], low) + visited_in(known, branches.skip(j + 1), low)
        }),
{
    let branches = lookup(known, above)->0.children;
    let low = (height - 1) as nat;
    assert(are_trees(known, branches, low));
    assert(parent_of(branches[j]) == Some(above));
    lemma_place_in_list(branches, j);
    lemma_first_in(known, branches, j + 1, -1, low);
    lemma_last_among(known, branches, j, 0, low);
    lemma_visited_split(known, branches, j, low);
}

} // verus!
