//! Which decoded images are kept, and which files are decoded ahead.

use vstd::prelude::*;

verus! {

use crate::audio::{joined, AudioChunk};
use crate::cache::{
    after_eviction, after_result, after_results, byte_count, distinct, holds, inserted,
    lemma_eviction_is_least, lemma_eviction_keeps_recent, lemma_to_start, place, to_start, total, touched,
    without, CacheState, Cached, DecodeResult,
};
use crate::file_list::is_video_path;
use crate::image_decode::ColorImage;
use crate::path::PathView;
use crate::viewer::{files_at_hand, first_upload, AppView, ViewerApp};

/// An image takes four bytes for each of its pixels, and images together take what each takes.
pub proof fn law_bytes(image: ColorImage, a: Cached, b: Cached, path: PathView)
    requires
        image.wf(),
    ensures
        byte_count(image) == image.size[0] * image.size[1] * 4,
        total(seq![(path, image)]) == byte_count(image),
        total(a + b) == total(a) + total(b),
        total(Cached::empty()) == 0,
    decreases a.len(),
{
    let one: Cached = seq![(path, image)];
    assert(one.drop_first() =~= Cached::empty());
    assert(total(Cached::empty()) == 0);
    if a.len() == 0 {
        assert(a + b =~= b);
    } else {
        law_bytes(image, a.drop_first(), b, path);
        assert((a + b).drop_first() =~= a.drop_first() + b);
        assert((a + b)[0] == a[0]);
    }
}

/// An image that is put in is there, and the last to leave. Of the others, apart from an older image
/// of the same file, the most recently used stay, as many as fit beside it, and in their order.
pub proof fn law_insert(entries: Cached, path: PathView, image: ColorImage, max_bytes: nat)
    requires
        distinct(entries),
    ensures
        ({
            let after = inserted(entries, path, image, max_bytes);
            let others = entries.filter(|e: (PathView, ColorImage)| e.0 != path);
            let kept = after.len() - 1;
            &&& 0 <= kept <= others.len()
            &&& after[kept] == (path, image)
            &&& after.take(kept) == others.skip(others.len() - kept)
            &&& kept > 0 ==> total(others.skip(others.len() - kept)) + byte_count(image) <= max_bytes
            &&& kept < others.len() ==> total(others.skip(others.len() - kept - 1)) + byte_count(
                image,
            ) > max_bytes
        }),
{
    let after = inserted(entries, path, image, max_bytes);
    let others = entries.filter(|e: (PathView, ColorImage)| e.0 != path);
    lemma_without_is_filter(entries, path);
    lemma_eviction_keeps_recent(others, byte_count(image), max_bytes);
    let stay = after_eviction(others, byte_count(image), max_bytes);
    assert(after == stay.push((path, image)));
    assert(after.take(after.len() - 1) =~= stay);
    if stay.len() < others.len() {
        lemma_eviction_is_least(others, byte_count(image), max_bytes, (stay.len() + 1) as int);
    }
}

proof fn lemma_all_pass(entries: Cached, path: PathView)
    requires
        forall|i: int| 0 <= i < entries.len() ==> (#[trigger] entries[i]).0 != path,
    ensures
        entries.filter(|e: (PathView, ColorImage)| e.0 != path) == entries,
    decreases entries.len(),
{
    reveal(Seq::filter);
    if entries.len() > 0 {
        let front = entries.drop_last();
        assert forall|i: int| 0 <= i < front.len() implies (#[trigger] front[i]).0 != path by {
            assert(front[i] == entries[i]);
        }
        lemma_all_pass(front, path);
        assert(entries[entries.len() - 1].0 != path);
        assert(front.push(entries.last()) =~= entries);
    }
}

proof fn lemma_without_is_filter(entries: Cached, path: PathView)
    requires
        distinct(entries),
    ensures
        without(entries, path) == entries.filter(|e: (PathView, ColorImage)| e.0 != path),
{
    let pred = |e: (PathView, ColorImage)| e.0 != path;
    if holds(entries, path) {
        let k = place(entries, path);
        assert(entries[k].0 == path);
        let (a, b) = (entries.take(k), entries.skip(k + 1));
        let one: Cached = seq![entries[k]];
        assert forall|i: int| 0 <= i < a.len() implies (#[trigger] a[i]).0 != path by {
            assert(entries[i].0 != entries[k].0);
        }
        assert forall|i: int| 0 <= i < b.len() implies (#[trigger] b[i]).0 != path by {
            assert(entries[k].0 != entries[k + 1 + i].0);
        }
        lemma_all_pass(a, path);
        lemma_all_pass(b, path);
        assert(entries =~= (a + one) + b);
        Seq::filter_distributes_over_add(a + one, b, pred);
        Seq::filter_distributes_over_add(a, one, pred);
        assert(one.filter(pred) =~= Cached::empty()) by {
            reveal(Seq::filter);
            assert(one.drop_last() =~= Cached::empty());
            assert(one.last() == entries[k]);
            assert(Cached::empty().filter(pred) =~= Cached::empty());
        }
        assert(entries.remove(k) =~= a + b);
    } else {
        assert forall|i: int| 0 <= i < entries.len() implies (#[trigger] entries[i]).0 != path by {
            if entries[i].0 == path {
                assert(holds(entries, path));
            }
        }
        lemma_all_pass(entries, path);
    }
}

/// An image that is got becomes the last to leave; the others keep their order.
pub proof fn law_get(entries: Cached, path: PathView, i: int)
    requires
        distinct(entries),
        0 <= i < entries.len(),
        entries[i].0 == path,
    ensures
        ({
            let others = entries.filter(|e: (PathView, ColorImage)| e.0 != path);
            touched(entries, path) == others.push(entries[i])
        }),
{
    assert(holds(entries, path));
    let k = place(entries, path);
    assert(entries[k].0 == path);
    if k < i {
        assert(entries[k].0 != entries[i].0);
    }
    if i < k {
        assert(entries[i].0 != entries[k].0);
    }
    lemma_without_is_filter(entries, path);
}

/// A decoded file is awaited no longer. Its image is put in, if there is one; an error leaves the
/// images as they are.
pub proof fn law_decoded_file(s: CacheState, r: DecodeResult, max_bytes: nat, other: PathView)
    ensures
        ({
            let after = after_result(s, r, max_bytes);
            &&& !after.awaited.contains(r.path@)
            &&& other != r.path@ ==> after.awaited.contains(other) == s.awaited.contains(other)
            &&& r.result is Err ==> after.cached == s.cached
            &&& r.result matches Ok(image) ==> after.cached == inserted(
                s.cached,
                r.path@,
                image,
                max_bytes,
            ) && after.cached.last() == (r.path@, image)
        }),
{
}

/// Three files before the current one and three after it are at hand, the current one among them,
/// as far as there are so many.
pub proof fn law_files_at_hand(a: AppView, j: int)
    requires
        a.list is Some,
        0 <= a.list->0.index < a.list->0.files.len(),
        0 <= j < a.list->0.files.len(),
    ensures
        ({
            let l = a.list->0;
            let near = files_at_hand(a);
            let first = if l.index >= 3 {
                l.index - 3
            } else {
                0
            };
            let last = if l.index + 3 < l.files.len() {
                l.index + 3
            } else {
                l.files.len() - 1
            };
            &&& near.len() == last - first + 1
            &&& first <= j <= last ==> near[j - first] == l.files[j]
        }),
{
}

/// Decoding starts for each image at hand that is neither cached nor being decoded, once, and for
/// nothing else.
pub proof fn law_decoding_ahead(paths: Seq<PathView>, cached: Cached, awaited: Set<PathView>, p: PathView)
    ensures
        ({
            let started = to_start(paths, cached, awaited);
            let is_cached = exists|i: int| 0 <= i < cached.len() && (#[trigger] cached[i]).0 == p;
            &&& started.no_duplicates()
            &&& started.contains(p) <==> paths.contains(p) && !is_cached && !awaited.contains(p)
                && !is_video_path(p)
        }),
{
    lemma_to_start(paths, cached, awaited);
}

/// The image that is uploaded next is the first at hand that is cached and not uploaded yet; where
/// there is none, none is.
pub proof fn law_next_upload(paths: Seq<PathView>, uploaded: Seq<PathView>, cache: CacheState)
    ensures
        match first_upload(paths, uploaded, cache) {
            Some(p) => exists|i: int|
                {
                    &&& 0 <= i < paths.len() && #[trigger] paths[i] == p
                    &&& !is_video_path(p) && !uploaded.contains(p) && holds(cache.cached, p)
                    &&& forall|j: int|
                        0 <= j < i ==> is_video_path(#[trigger] paths[j]) || uploaded.contains(
                            paths[j],
                        ) || !holds(cache.cached, paths[j])
                },
            None => forall|j: int|
                0 <= j < paths.len() ==> is_video_path(#[trigger] paths[j]) || uploaded.contains(
                    paths[j],
                ) || !holds(cache.cached, paths[j]),
        },
    decreases paths.len(),
{
    if paths.len() > 0 {
        let rest = paths.drop_first();
        law_next_upload(rest, uploaded, cache);
        if !is_video_path(paths[0]) && !uploaded.contains(paths[0]) && holds(
            cache.cached,
            paths[0],
        ) {
            assert(paths[0] == paths[0]);
        } else {
            assert forall|j: int| 0 < j < paths.len() implies #[trigger] paths[j] == rest[j - 1] by {}
            match first_upload(rest, uploaded, cache) {
                Some(p) => {
                    let i = choose|i: int|
                        {
                            &&& 0 <= i < rest.len() && #[trigger] rest[i] == p
                            &&& !is_video_path(p) && !uploaded.contains(p) && holds(cache.cached, p)
                            &&& forall|j: int|
                                0 <= j < i ==> is_video_path(#[trigger] rest[j])
                                    || uploaded.contains(rest[j]) || !holds(cache.cached, rest[j])
                        };
                    assert(paths[i + 1] == p);
                    assert forall|j: int| 0 <= j < i + 1 implies is_video_path(#[trigger] paths[j])
                        || uploaded.contains(paths[j]) || !holds(cache.cached, paths[j]) by {
                        if j > 0 {
                            assert(rest[j - 1] == paths[j]);
                        }
                    }
                },
                None => {
                    assert forall|j: int| 0 <= j < paths.len() implies is_video_path(
                        #[trigger] paths[j],
                    ) || uploaded.contains(paths[j]) || !holds(cache.cached, paths[j]) by {
                        if j > 0 {
                            assert(rest[j - 1] == paths[j]);
                        }
                    }
                },
            }
        }
    }
}

/// Chunks of audio are heard one after the other, each with all its samples.
pub proof fn law_chunks_join<T>(a: Seq<AudioChunk<T>>, b: Seq<AudioChunk<T>>, c: AudioChunk<T>)
    ensures
        joined(a + b) == joined(a) + joined(b),
        joined(seq![c]) == c.samples@,
    decreases a.len(),
{
    let one: Seq<AudioChunk<T>> = seq![c];
    assert(one.drop_first() =~= Seq::empty());
    assert(joined(one.drop_first()) =~= Seq::empty());
    assert(joined(one) =~= c.samples@);
    if a.len() == 0 {
        assert(a + b =~= b);
        assert(joined(a) + joined(b) =~= joined(b));
    } else {
        law_chunks_join(a.drop_first(), b, c);
        assert((a + b).drop_first() =~= a.drop_first() + b);
        assert((a + b)[0] == a[0]);
        assert(joined(a + b) =~= joined(a) + joined(b));
    }
}

/// Files that have been decoded are taken up in the order in which they come: those that come later
/// find what the earlier ones left.
pub proof fn law_decoded_files(
    s: CacheState,
    a: Seq<DecodeResult>,
    b: Seq<DecodeResult>,
    r: DecodeResult,
    max_bytes: nat,
)
    ensures
        after_results(s, Seq::empty(), max_bytes) == s,
        after_results(s, seq![r], max_bytes) == after_result(s, r, max_bytes),
        after_results(s, a + b, max_bytes) == after_results(
            after_results(s, a, max_bytes),
            b,
            max_bytes,
        ),
    decreases b.len(),
{
    reveal_with_fuel(after_results, 2);
    assert(seq![r].drop_last() =~= Seq::<DecodeResult>::empty());
    assert(seq![r].last() == r);
    if b.len() == 0 {
        assert(a + b =~= a);
    } else {
        law_decoded_files(s, a, b.drop_last(), r, max_bytes);
        assert((a + b).drop_last() =~= a + b.drop_last());
    }
}

/// Around a file of the list, and where there is no list, one can look for files; far behind the end
/// of the list one cannot.
pub proof fn law_looking_around(app: ViewerApp)
    ensures
        app@.list is None ==> app.has_files_at_hand(),
        app@.list matches Some(l) ==> {
            &&& 0 <= l.index < l.files.len() <= usize::MAX - 3 ==> app.has_files_at_hand()
            &&& l.index > l.files.len() + 3 ==> !app.has_files_at_hand()
        },
{
}

} // verus!
