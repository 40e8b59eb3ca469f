//! Decoded images, kept up to a number of bytes; the ones least recently used leave first.

use vstd::prelude::*;

use crate::file_list::is_video_file;
use crate::image_decode::ColorImage;
use crate::path::MediaPath;

verus! {

use crate::file_list::is_video_path;
use crate::path::{path_views, PathView};

/// An image and the path it was decoded from.
pub struct CacheEntry {
    pub path: MediaPath,
    pub image: ColorImage,
}

/// The number of bytes that an image takes.
pub open spec fn byte_count(image: ColorImage) -> nat {
    image.pixels@.len() * 4
}

/// The number of bytes that an image takes.
pub fn image_bytes(image: &ColorImage) -> (r: usize)
    requires
        image.wf(),
    ensures
        r == byte_count(*image),
{
    image.pixels.len() * 4
}

/// The mathematical form of the cached images: paths and images, the least recently used first.
pub type Cached = Seq<(PathView, ColorImage)>;

/// The views of a sequence of entries.
pub open spec fn cached_views(entries: Seq<CacheEntry>) -> Cached {
    entries.map_values(|e: CacheEntry| (e.path@, e.image))
}

/// The number of bytes that all images take.
pub open spec fn total(entries: Cached) -> nat
    decreases entries.len(),
{
    if entries.len() == 0 {
        0
    } else {
        total(entries.drop_first()) + byte_count(entries[0].1)
    }
}

/// Whether an image with this path is among the entries.
pub open spec fn holds(entries: Cached, path: PathView) -> bool {
    exists|i: int| 0 <= i < entries.len() && (#[trigger] entries[i]).0 == path
}

/// The place of the image with this path.
pub open spec fn place(entries: Cached, path: PathView) -> int {
    choose|i: int| 0 <= i < entries.len() && (#[trigger] entries[i]).0 == path
}

/// The entries without the one with this path.
pub open spec fn without(entries: Cached, path: PathView) -> Cached {
    if holds(entries, path) {
        entries.remove(place(entries, path))
    } else {
        entries
    }
}

/// The entries with the one with this path moved to the end.
pub open spec fn touched(entries: Cached, path: PathView) -> Cached {
    if holds(entries, path) {
        without(entries, path).push(entries[place(entries, path)])
    } else {
        entries
    }
}

/// The entries that stay when room is made for `new_bytes`: the first ones leave, one by one,
/// until the rest and the new bytes fit, or none is left.
pub open spec fn after_eviction(entries: Cached, new_bytes: nat, max_bytes: nat) -> Cached
    decreases entries.len(),
{
    if entries.len() == 0 || total(entries) + new_bytes <= max_bytes {
        entries
    } else {
        after_eviction(entries.drop_first(), new_bytes, max_bytes)
    }
}

/// The entries after an image has been put in.
pub open spec fn inserted(entries: Cached, path: PathView, image: ColorImage, max_bytes: nat) -> Cached {
    after_eviction(without(entries, path), byte_count(image), max_bytes).push((path, image))
}

/// No path occurs twice.
pub open spec fn distinct(entries: Cached) -> bool {
    forall|i: int, j: int|
        0 <= i < j < entries.len() ==> (#[trigger] entries[i]).0 != (#[trigger] entries[j]).0
}

/// What decoding a file in the background came to.
pub struct DecodeResult {
    pub path: MediaPath,
    pub result: Result<ColorImage, String>,
}

/// Decoded images by path, and the paths that are being decoded.
pub struct ImageCache {
    /// The images, the least recently used first.
    pub entries: Vec<CacheEntry>,
    pub total_bytes: usize,
    pub max_bytes: usize,
    /// The paths that are being decoded in the background.
    pub pending: Vec<MediaPath>,
    /// The largest side of a texture.
    pub max_texture_dim: u32,
}

proof fn lemma_total_push(entries: Cached, e: (PathView, ColorImage))
    ensures
        total(entries.push(e)) == total(entries) + byte_count(e.1),
    decreases entries.len(),
{
    if entries.len() == 0 {
        assert(entries.push(e).drop_first() =~= Seq::empty());
        assert(total(Seq::<(PathView, ColorImage)>::empty()) == 0);
    } else {
        lemma_total_push(entries.drop_first(), e);
        assert(entries.push(e).drop_first() =~= entries.drop_first().push(e));
    }
}

proof fn lemma_total_remove(entries: Cached, i: int)
    requires
        0 <= i < entries.len(),
    ensures
        total(entries) == total(entries.remove(i)) + byte_count(entries[i].1),
    decreases entries.len(),
{
    if i == 0 {
        assert(entries.remove(0) =~= entries.drop_first());
    } else {
        let rest = entries.drop_first();
        lemma_total_remove(rest, i - 1);
        assert(entries.remove(i).drop_first() =~= rest.remove(i - 1));
        assert(entries.remove(i)[0] == entries[0]);
    }
}

proof fn lemma_place_unique(entries: Cached, path: PathView, i: int)
    requires
        distinct(entries),
        0 <= i < entries.len(),
        entries[i].0 == path,
    ensures
        holds(entries, path),
        place(entries, path) == i,
{
    let p = place(entries, path);
    assert(entries[p].0 == path);
    if p < i {
        assert(entries[p].0 != entries[i].0);
    } else if i < p {
        assert(entries[i].0 != entries[p].0);
    }
}

proof fn lemma_without_distinct(entries: Cached, path: PathView)
    requires
        distinct(entries),
    ensures
        distinct(without(entries, path)),
        !holds(without(entries, path), path),
        forall|p: PathView| #[trigger]
            holds(without(entries, path), p) == (holds(entries, p) && p != path),
{
    let after = without(entries, path);
    if holds(entries, path) {
        let k = place(entries, path);
        assert forall|i: int, j: int| 0 <= i < j < after.len() implies (#[trigger] after[i]).0 != (
        #[trigger] after[j]).0 by {
            let (a, b) = (
                if i < k {
                    i
                } else {
                    i + 1
                },
                if j < k {
                    j
                } else {
                    j + 1
                },
            );
            assert(entries[a].0 != entries[b].0);
        }
        assert forall|p: PathView| #[trigger] holds(after, p) == (holds(entries, p) && p != path) by {
            if holds(after, p) {
                let i = place(after, p);
                assert(after[i].0 == p);
                let a = if i < k {
                    i
                } else {
                    i + 1
                };
                assert(entries[a].0 == p);
                if p == path {
                    lemma_place_unique(entries, path, a);
                }
            }
            if holds(entries, p) && p != path {
                let i = place(entries, p);
                assert(entries[i].0 == p);
                let a = if i < k {
                    i
                } else {
                    i - 1
                };
                assert(after[a].0 == p);
            }
        }
    }
}

/// What stays after an eviction is an end part of what was there.
pub proof fn lemma_eviction_keeps_recent(entries: Cached, new_bytes: nat, max_bytes: nat)
    ensures
        ({
            let kept = after_eviction(entries, new_bytes, max_bytes);
            &&& kept.len() <= entries.len()
            &&& kept == entries.skip(entries.len() - kept.len())
            &&& kept.len() == 0 || total(kept) + new_bytes <= max_bytes
        }),
    decreases entries.len(),
{
    if entries.len() == 0 || total(entries) + new_bytes <= max_bytes {
        assert(entries.skip(0) =~= entries);
    } else {
        let rest = entries.drop_first();
        lemma_eviction_keeps_recent(rest, new_bytes, max_bytes);
        let kept = after_eviction(rest, new_bytes, max_bytes);
        assert(entries.skip(entries.len() - kept.len()) =~= rest.skip(rest.len() - kept.len()));
    }
}

/// An eviction throws out no more than it must: with one more image kept, the new one would not
/// fit.
pub proof fn lemma_eviction_is_least(entries: Cached, new_bytes: nat, max_bytes: nat, n: int)
    requires
        after_eviction(entries, new_bytes, max_bytes).len() < n <= entries.len(),
    ensures
        total(entries.skip(entries.len() - n)) + new_bytes > max_bytes,
    decreases entries.len(),
{
    if entries.len() == 0 || total(entries) + new_bytes <= max_bytes {
    } else if n == entries.len() {
        assert(entries.skip(0) =~= entries);
    } else {
        let rest = entries.drop_first();
        lemma_eviction_is_least(rest, new_bytes, max_bytes, n);
        assert(entries.skip(entries.len() - n) =~= rest.skip(rest.len() - n));
    }
}

proof fn lemma_inserted_wf(entries: Cached, path: PathView, image: ColorImage, max_bytes: nat)
    requires
        distinct(entries),
    ensures
        distinct(inserted(entries, path, image, max_bytes)),
        total(inserted(entries, path, image, max_bytes)) <= max_bytes || inserted(
            entries,
            path,
            image,
            max_bytes,
        ).len() == 1,
{
    let rest = without(entries, path);
    lemma_without_distinct(entries, path);
    lemma_eviction_keeps_recent(rest, byte_count(image), max_bytes);
    let kept = after_eviction(rest, byte_count(image), max_bytes);
    let after = kept.push((path, image));
    lemma_total_push(kept, (path, image));
    assert forall|i: int, j: int| 0 <= i < j < after.len() implies (#[trigger] after[i]).0 != (
    #[trigger] after[j]).0 by {
        let off = rest.len() - kept.len();
        assert(kept[i] == rest[off + i]);
        if j < kept.len() {
            assert(kept[j] == rest[off + j]);
        } else {
            assert(!holds(rest, path));
        }
    }
}

impl ImageCache {
    /// The cached paths and images, the least recently used first.
    pub open spec fn cached(&self) -> Cached {
        cached_views(self.entries@)
    }

    /// The paths that are being decoded.
    pub open spec fn awaited(&self) -> Set<PathView> {
        path_views(self.pending@).to_set()
    }

    /// No path is cached twice, the bytes are counted right, and they stay within the limit
    /// unless a single image exceeds it.
    pub open spec fn wf(&self) -> bool {
        &&& distinct(self.cached())
        &&& self.total_bytes == total(self.cached())
        &&& total(self.cached()) <= self.max_bytes || self.cached().len() <= 1
        &&& forall|i: int| 0 <= i < self.entries@.len() ==> (#[trigger] self.entries@[i]).image.wf()
    }

    /// An empty cache.
    pub fn new(max_bytes: usize, max_texture_dim: u32) -> (r: ImageCache)
        ensures
            r.wf(),
            r.cached() == Cached::empty(),
            r.awaited() == Set::<PathView>::empty(),
            r.max_bytes == max_bytes,
            r.max_texture_dim == max_texture_dim,
    {
        let r = ImageCache {
            entries: Vec::new(),
            total_bytes: 0,
            max_bytes,
            pending: Vec::new(),
            max_texture_dim,
        };
        assert(r.cached() =~= Seq::empty());
        assert(r.awaited() =~= Set::empty());
        r
    }

    /// Forgets everything.
    pub fn clear(&mut self)
        ensures
            final(self).wf(),
            final(self).cached() == Cached::empty(),
            final(self).awaited() == Set::<PathView>::empty(),
            final(self).max_bytes == old(self).max_bytes,
            final(self).max_texture_dim == old(self).max_texture_dim,
    {
        self.entries = Vec::new();
        self.total_bytes = 0;
        self.pending = Vec::new();
        assert(self.cached() =~= Seq::empty());
        assert(self.awaited() =~= Set::empty());
    }

    fn find(&self, path: &MediaPath) -> (r: Option<usize>)
        requires
            distinct(self.cached()),
        ensures
            match r {
                Some(i) => {
                    &&& i < self.entries@.len()
                    &&& holds(self.cached(), path@)
                    &&& place(self.cached(), path@) == i
                },
                None => !holds(self.cached(), path@),
            },
    {
        let n: usize = self.entries.len();
        let mut i: usize = 0;
        while i < n
            invariant
                i <= n,
                n == self.entries@.len(),
                distinct(self.cached()),
                forall|j: int| 0 <= j < i ==> (#[trigger] self.cached()[j]).0 != path@,
            decreases n - i,
        {
            if self.entries[i].path.same(path) {
                proof {
                    lemma_place_unique(self.cached(), path@, i as int);
                }
                return Some(i);
            }
            i += 1;
        }
        None
    }

    /// Whether an image with this path is cached.
    pub fn contains(&self, path: &MediaPath) -> (r: bool)
        requires
            self.wf(),
        ensures
            r == holds(self.cached(), path@),
    {
        self.find(path).is_some()
    }

    /// The image with this path, which becomes the one most recently used.
    pub fn get(&mut self, path: &MediaPath) -> (r: Option<&ColorImage>)
        requires
            old(self).wf(),
        ensures
            final(self).wf(),
            final(self).cached() == touched(old(self).cached(), path@),
            final(self).awaited() == old(self).awaited(),
            final(self).max_bytes == old(self).max_bytes,
            final(self).max_texture_dim == old(self).max_texture_dim,
            match r {
                Some(image) => holds(old(self).cached(), path@) && *image == old(
                    self,
                ).cached()[place(old(self).cached(), path@)].1,
                None => !holds(old(self).cached(), path@),
            },
    {
        match self.find(path) {
            Some(i) => {
                let ghost before = self.cached();
                let entry = self.entries.remove(i);
                let ghost middle = self.cached();
                self.entries.push(entry);
                proof {
                    assert(middle =~= without(before, path@));
                    assert(self.cached() =~= middle.push(before[i as int]));
                    lemma_total_remove(before, i as int);
                    lemma_total_push(middle, before[i as int]);
                    lemma_without_distinct(before, path@);
                    assert(!holds(middle, path@));
                }
                Some(&self.entries[self.entries.len() - 1].image)
            },
            None => None,
        }
    }
}

/// The paths of a list without one of them.
fn without_path(paths: &Vec<MediaPath>, path: &MediaPath) -> (r: Vec<MediaPath>)
    ensures
        path_views(r@).to_set() == path_views(paths@).to_set().remove(path@),
{
    let mut r: Vec<MediaPath> = Vec::new();
    let n: usize = paths.len();
    let mut i: usize = 0;
    while i < n
        invariant
            i <= n,
            n == paths@.len(),
            forall|j: int|
                0 <= j < i && (#[trigger] paths@[j])@ != path@ ==> path_views(r@).contains(
                    paths@[j]@,
                ),
            forall|k: int|
                0 <= k < r@.len() ==> (#[trigger] r@[k])@ != path@ && path_views(paths@).contains(
                    r@[k]@,
                ),
        decreases n - i,
    {
        if !paths[i].same(path) {
            let ghost before = r@;
            r.push(paths[i].copied());
            proof {
                assert(path_views(r@) =~= path_views(before).push(paths@[i as int]@));
                assert(path_views(paths@)[i as int] == paths@[i as int]@);
                assert(path_views(r@)[before.len() as int] == paths@[i as int]@);
                assert forall|j: int| 0 <= j < i && (#[trigger] paths@[j])@ != path@ implies path_views(
                    r@,
                ).contains(paths@[j]@) by {
                    let m = choose|m: int|
                        0 <= m < path_views(before).len() && path_views(before)[m] == paths@[j]@;
                    assert(path_views(r@)[m] == paths@[j]@);
                }
            }
        }
        i += 1;
    }
    proof {
        let (a, b) = (path_views(r@).to_set(), path_views(paths@).to_set().remove(path@));
        assert forall|p: PathView| a.contains(p) == b.contains(p) by {
            if a.contains(p) {
                let k = choose|k: int| 0 <= k < path_views(r@).len() && path_views(r@)[k] == p;
                assert(r@[k]@ == p);
            }
            if b.contains(p) {
                let j = choose|j: int| 0 <= j < path_views(paths@).len() && path_views(paths@)[j] == p;
                assert(paths@[j]@ == p);
            }
        }
        assert(a =~= b);
    }
    r
}

/// Cached images and awaited paths together.
pub struct CacheState {
    pub cached: Cached,
    pub awaited: Set<PathView>,
}

/// What a decoded file adds: its image, if it could be decoded. It is awaited no longer.
pub open spec fn after_result(s: CacheState, r: DecodeResult, max_bytes: nat) -> CacheState {
    CacheState {
        cached: match r.result {
            Ok(image) => inserted(s.cached, r.path@, image, max_bytes),
            Err(_) => s.cached,
        },
        awaited: s.awaited.remove(r.path@),
    }
}

/// What a sequence of decoded files adds, one after the other.
pub open spec fn after_results(s: CacheState, results: Seq<DecodeResult>, max_bytes: nat) -> CacheState
    decreases results.len(),
{
    if results.len() == 0 {
        s
    } else {
        after_result(after_results(s, results.drop_last(), max_bytes), results.last(), max_bytes)
    }
}

/// The files of `paths` whose decoding starts: those that are neither cached nor awaited nor
/// videos, each once.
pub open spec fn to_start(paths: Seq<PathView>, cached: Cached, awaited: Set<PathView>) -> Seq<PathView>
    decreases paths.len(),
{
    if paths.len() == 0 {
        Seq::empty()
    } else {
        let before = to_start(paths.drop_last(), cached, awaited);
        let p = paths.last();
        if holds(cached, p) || awaited.contains(p) || before.contains(p) || is_video_path(p) {
            before
        } else {
            before.push(p)
        }
    }
}

/// A file whose decoding starts is one of the paths asked for, is neither cached nor awaited, is
/// not a video, and is started once.
pub proof fn lemma_to_start(paths: Seq<PathView>, cached: Cached, awaited: Set<PathView>)
    ensures
        ({
            let started = to_start(paths, cached, awaited);
            &&& started.no_duplicates()
            &&& forall|p: PathView| #[trigger]
                started.contains(p) <==> paths.contains(p) && !holds(cached, p)
                    && !awaited.contains(p) && !is_video_path(p)
        }),
    decreases paths.len(),
{
    let started = to_start(paths, cached, awaited);
    if paths.len() == 0 {
    } else {
        let front = paths.drop_last();
        let before = to_start(front, cached, awaited);
        let last = paths.last();
        lemma_to_start(front, cached, awaited);
        assert(paths =~= front.push(last));
        assert forall|p: PathView| #[trigger] started.contains(p) <==> paths.contains(p) && !holds(
            cached,
            p,
        ) && !awaited.contains(p) && !is_video_path(p) by {
            assert(paths.contains(p) == (front.contains(p) || p == last)) by {
                if front.contains(p) {
                    let k = choose|k: int| 0 <= k < front.len() && front[k] == p;
                    assert(paths[k] == p);
                }
                if p == last {
                    assert(paths[paths.len() - 1] == p);
                }
            }
            if started == before.push(last) {
                assert(started.contains(p) == (before.contains(p) || p == last)) by {
                    if before.contains(p) {
                        let k = choose|k: int| 0 <= k < before.len() && before[k] == p;
                        assert(started[k] == p);
                    }
                    if p == last {
                        assert(started[before.len() as int] == p);
                    }
                }
            } else {
                assert(started == before);
            }
        }
    }
}

impl ImageCache {
    /// Cached images and awaited paths together.
    pub open spec fn state(&self) -> CacheState {
        CacheState { cached: self.cached(), awaited: self.awaited() }
    }

    /// Puts an image in. Images leave, the least recently used first, until it fits.
    pub fn insert(&mut self, path: &MediaPath, image: ColorImage)
        requires
            old(self).wf(),
            image.wf(),
        ensures
            final(self).wf(),
            final(self).cached() == inserted(
                old(self).cached(),
                path@,
                image,
                old(self).max_bytes as nat,
            ),
            final(self).awaited() == old(self).awaited().remove(path@),
            final(self).max_bytes == old(self).max_bytes,
            final(self).max_texture_dim == old(self).max_texture_dim,
    {
        let new_bytes: usize = image_bytes(&image);
        let ghost before = self.cached();
        let ghost max = self.max_bytes as nat;
        proof {
            lemma_inserted_wf(before, path@, image, max);
        }
        if let Some(i) = self.find(path) {
            proof {
                lemma_total_remove(before, i as int);
            }
            let old_entry = self.entries.remove(i);
            self.total_bytes = self.total_bytes - image_bytes(&old_entry.image);
            assert(self.cached() =~= without(before, path@));
        }
        let ghost rest = without(before, path@);
        while !self.entries.is_empty() && (self.total_bytes > self.max_bytes || new_bytes
            > self.max_bytes - self.total_bytes)
            invariant
                self.total_bytes == total(self.cached()),
                self.max_bytes == max,
                self.max_texture_dim == old(self).max_texture_dim,
                self.pending == old(self).pending,
                new_bytes == byte_count(image),
                after_eviction(rest, new_bytes as nat, max) == after_eviction(
                    self.cached(),
                    new_bytes as nat,
                    max,
                ),
                forall|i: int|
                    0 <= i < self.entries@.len() ==> (#[trigger] self.entries@[i]).image.wf(),
            decreases self.entries@.len(),
        {
            let ghost now = self.cached();
            let oldest = self.entries.remove(0);
            self.total_bytes = self.total_bytes - image_bytes(&oldest.image);
            assert(self.cached() =~= now.drop_first());
        }
        let ghost kept = self.cached();
        proof {
            lemma_total_push(kept, (path@, image));
        }
        self.total_bytes = self.total_bytes + new_bytes;
        self.entries.push(CacheEntry { path: path.copied(), image });
        assert(self.cached() =~= kept.push((path@, image)));
        self.pending = without_path(&self.pending, path);
    }

    /// Marks the files whose decoding starts, and returns them.
    pub fn preload(&mut self, paths: &Vec<MediaPath>) -> (started: Vec<MediaPath>)
        requires
            old(self).wf(),
        ensures
            final(self).wf(),
            path_views(started@) == to_start(
                path_views(paths@),
                old(self).cached(),
                old(self).awaited(),
            ),
            final(self).cached() == old(self).cached(),
            final(self).awaited() == old(self).awaited().union(path_views(started@).to_set()),
            final(self).max_bytes == old(self).max_bytes,
            final(self).max_texture_dim == old(self).max_texture_dim,
    {
        let ghost all = path_views(paths@);
        let ghost cached = self.cached();
        let ghost awaited = self.awaited();
        let mut started: Vec<MediaPath> = Vec::new();
        let n: usize = paths.len();
        let mut i: usize = 0;
        assert(all.take(0) =~= Seq::empty());
        assert(path_views(started@) =~= Seq::empty());
        assert(self.awaited() =~= awaited.union(path_views(started@).to_set()));
        while i < n
            invariant
                i <= n,
                n == paths@.len(),
                all == path_views(paths@),
                self.wf(),
                self.cached() == cached,
                self.max_bytes == old(self).max_bytes,
                self.max_texture_dim == old(self).max_texture_dim,
                path_views(started@) == to_start(all.take(i as int), cached, awaited),
                self.awaited() == awaited.union(path_views(started@).to_set()),
            decreases n - i,
        {
            let path = &paths[i];
            let ghost before = path_views(started@);
            assert(all.take(i + 1).drop_last() =~= all.take(i as int));
            assert(all.take(i + 1).last() == path@);
            let awaiting = match crate::path::position_of(&self.pending, path) {
                Some(k) => {
                    assert(path_views(self.pending@)[k as int] == path@);
                    true
                },
                None => {
                    assert(!self.awaited().contains(path@)) by {
                        if self.awaited().contains(path@) {
                            let v = path_views(self.pending@);
                            let k = choose|k: int| 0 <= k < v.len() && v[k] == path@;
                            assert(self.pending@[k]@ == path@);
                        }
                    }
                    false
                },
            };
            assert(awaiting == self.awaited().contains(path@));
            assert(awaiting == (awaited.contains(path@) || before.contains(path@)));
            if !awaiting && !self.contains(path) && !is_video_file(path) {
                let ghost pend = self.pending@;
                self.pending.push(path.copied());
                started.push(path.copied());
                proof {
                    assert(path_views(started@) =~= before.push(path@));
                    assert(path_views(self.pending@) =~= path_views(pend).push(path@));
                    assert(self.cached() == cached);
                    let (a, b) = (
                        self.awaited(),
                        awaited.union(path_views(started@).to_set()),
                    );
                    lemma_push_to_set(path_views(pend), path@);
                    lemma_push_to_set(before, path@);
                    assert(a =~= b);
                }
            }
            i += 1;
        }
        assert(all.take(n as int) =~= all);
        started
    }

    /// Takes in what decoding in the background came to.
    pub fn poll(&mut self, results: Vec<DecodeResult>)
        requires
            old(self).wf(),
            forall|i: int|
                0 <= i < results@.len() && (#[trigger] results@[i]).result is Ok
                    ==> results@[i].result->Ok_0.wf(),
        ensures
            final(self).wf(),
            final(self).state() == after_results(
                old(self).state(),
                results@,
                old(self).max_bytes as nat,
            ),
            final(self).max_bytes == old(self).max_bytes,
            final(self).max_texture_dim == old(self).max_texture_dim,
    {
        let ghost all = results@;
        let ghost start = self.state();
        let ghost max = self.max_bytes as nat;
        let mut rest = results;
        assert(all.skip(0) =~= all);
        assert(all.take(0) =~= Seq::empty());
        while !rest.is_empty()
            invariant
                self.wf(),
                self.max_bytes == max,
                self.max_texture_dim == old(self).max_texture_dim,
                rest@.len() <= all.len(),
                rest@ == all.skip(all.len() - rest@.len()),
                forall|i: int|
                    0 <= i < all.len() && (#[trigger] all[i]).result is Ok
                        ==> all[i].result->Ok_0.wf(),
                self.state() == after_results(start, all.take(all.len() - rest@.len()), max),
            decreases rest@.len(),
        {
            let ghost k = all.len() - rest@.len();
            let one = rest.remove(0);
            assert(rest@ =~= all.skip(k + 1));
            assert(one == all[k]);
            assert(all.take(k + 1).drop_last() =~= all.take(k));
            assert(all.take(k + 1).last() == one);
            self.pending = without_path(&self.pending, &one.path);
            let ghost middle = self.awaited();
            match one.result {
                Ok(image) => {
                    self.insert(&one.path, image);
                    assert(middle.remove(one.path@) =~= middle);
                },
                Err(_) => {},
            }
        }
        assert(all.take(all.len() as int) =~= all);
    }
}

proof fn lemma_push_to_set(s: Seq<PathView>, p: PathView)
    ensures
        s.push(p).to_set() == s.to_set().insert(p),
{
    assert forall|q: PathView| s.push(p).to_set().contains(q) == s.to_set().insert(p).contains(q) by {
        if s.contains(q) {
            let k = choose|k: int| 0 <= k < s.len() && s[k] == q;
            assert(s.push(p)[k] == q);
        }
        if q == p {
            assert(s.push(p)[s.len() as int] == q);
        }
    }
    assert(s.push(p).to_set() =~= s.to_set().insert(p));
}

/// What was put in is there to be got: the image that an insertion left under a path is the one
/// that was put in, and it is the one most recently used.
pub proof fn lemma_insert_then_get(
    entries: Cached,
    path: PathView,
    image: ColorImage,
    max_bytes: nat,
)
    requires
        distinct(entries),
    ensures
        ({
            let after = inserted(entries, path, image, max_bytes);
            &&& holds(after, path)
            &&& after[place(after, path)] == (path, image)
            &&& place(after, path) == after.len() - 1
        }),
{
    let after = inserted(entries, path, image, max_bytes);
    lemma_inserted_wf(entries, path, image, max_bytes);
    lemma_place_unique(after, path, after.len() - 1);
}

/// An insertion brings in no image but the one put in, changes none that stays, and keeps within
/// the limit unless the new image alone exceeds it.
pub proof fn lemma_insert_changes_no_other(
    entries: Cached,
    path: PathView,
    image: ColorImage,
    max_bytes: nat,
    other: PathView,
)
    requires
        distinct(entries),
        other != path,
    ensures
        ({
            let after = inserted(entries, path, image, max_bytes);
            &&& holds(after, other) ==> holds(entries, other) && after[place(after, other)]
                == entries[place(entries, other)]
            &&& total(after) <= max_bytes || after == seq![(path, image)]
        }),
{
    let rest = without(entries, path);
    lemma_without_distinct(entries, path);
    lemma_eviction_keeps_recent(rest, byte_count(image), max_bytes);
    let kept = after_eviction(rest, byte_count(image), max_bytes);
    let after = inserted(entries, path, image, max_bytes);
    lemma_inserted_wf(entries, path, image, max_bytes);
    lemma_total_push(kept, (path, image));
    if kept.len() == 0 {
        assert(after =~= seq![(path, image)]);
    }
    if holds(after, other) {
        let i = place(after, other);
        assert(after[i].0 == other);
        let r = rest.len() - kept.len() + i;
        assert(kept[i] == rest[r]);
        if holds(entries, path) {
            let k = place(entries, path);
            let e = if r < k {
                r
            } else {
                r + 1
            };
            assert(entries[e] == rest[r]);
            lemma_place_unique(entries, other, e);
        } else {
            lemma_place_unique(entries, other, r);
        }
    }
}

/// Getting an image changes no image and loses none; the one that was got becomes the last to
/// leave.
pub proof fn lemma_get_keeps_images(entries: Cached, path: PathView, other: PathView)
    requires
        distinct(entries),
    ensures
        ({
            let after = touched(entries, path);
            &&& after.len() == entries.len()
            &&& holds(after, other) == holds(entries, other)
            &&& holds(entries, other) ==> after[place(after, other)] == entries[place(
                entries,
                other,
            )]
            &&& holds(entries, path) ==> place(after, path) == after.len() - 1
        }),
{
    let after = touched(entries, path);
    if holds(entries, path) {
        let k = place(entries, path);
        let rest = without(entries, path);
        lemma_without_distinct(entries, path);
        assert forall|i: int, j: int| 0 <= i < j < after.len() implies (#[trigger] after[i]).0 != (
        #[trigger] after[j]).0 by {
            if j == rest.len() {
                assert(rest[i].0 == after[i].0);
                assert(!holds(rest, path));
            } else {
                assert(rest[i].0 != rest[j].0);
            }
        }
        assert(after[after.len() - 1].0 == path);
        lemma_place_unique(after, path, after.len() - 1);
        if other != path {
            if holds(entries, other) {
                let e = place(entries, other);
                let r = if e < k {
                    e
                } else {
                    e - 1
                };
                assert(after[r] == entries[e]);
                lemma_place_unique(after, other, r);
            }
            if holds(after, other) {
                let i = place(after, other);
                assert(after[i].0 == other);
                let e = if i < k {
                    i
                } else {
                    i + 1
                };
                assert(entries[e] == after[i]);
            }
        }
    }
}

} // verus!
