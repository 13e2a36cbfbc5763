//! Summary counts and histograms over a collection.
use vstd::prelude::*;
use crate::format::{is_raw_file, is_raw_path};
use crate::pairing::{count_pairs, lemma_linked_kinds_balance, lemma_linked_set, linked_set, link_after, opt_str, paired};
use crate::photo::Photo;

verus! {

/// The aggregates of a collection: counts, and how often each camera model
/// and each lens model occurs (in order of first occurrence).
#[derive(Clone, Debug)]
pub struct PhotoStats {
    pub total_photos: usize,
    pub raw_count: usize,
    pub jpeg_count: usize,
    pub paired_count: usize,
    pub cameras: Vec<(String, usize)>,
    pub lenses: Vec<(String, usize)>,
}

/// Number of RAW files in `s`.
pub open spec fn count_raw(s: Seq<Photo>) -> nat
    decreases s.len(),
{
    if s.len() == 0 {
        0
    } else {
        count_raw(s.drop_last()) + if is_raw_path(s.last().file_path@) {
            1nat
        } else {
            0nat
        }
    }
}

/// Number of photos in `s` that carry a link.
pub open spec fn count_paired(s: Seq<Photo>) -> nat
    decreases s.len(),
{
    if s.len() == 0 {
        0
    } else {
        count_paired(s.drop_last()) + if s.last().paired_with is Some {
            1nat
        } else {
            0nat
        }
    }
}

/// The lens model (`lens`) or the camera model of a photo.
pub open spec fn model_of(p: Photo, lens: bool) -> Option<Seq<char>> {
    let m = if lens {
        p.exif.lens_model
    } else {
        p.exif.camera_model
    };
    match m {
        Some(v) => Some(v@),
        None => None,
    }
}

/// Number of photos in `s` whose model (see `model_of`) is `key`.
pub open spec fn count_key(s: Seq<Photo>, lens: bool, key: Seq<char>) -> nat
    decreases s.len(),
{
    if s.len() == 0 {
        0
    } else {
        count_key(s.drop_last(), lens, key) + if model_of(s.last(), lens) == Some(key) {
            1nat
        } else {
            0nat
        }
    }
}

/// `h` lists each model that occurs in `s` once, with how often it occurs,
/// and nothing else.
pub open spec fn is_histogram(s: Seq<Photo>, lens: bool, h: Seq<(String, usize)>) -> bool {
    &&& forall|a: int, b: int| 0 <= a < b < h.len() ==> h[a].0@ != h[b].0@
    &&& forall|e: int|
        0 <= e < h.len() ==> #[trigger] h[e].1 == count_key(s, lens, h[e].0@) && h[e].1 > 0
    &&& forall|key: Seq<char>|
        #[trigger] count_key(s, lens, key) > 0 ==> exists|e: int| 0 <= e < h.len() && h[e].0@ == key
}

/// The aggregates of `photos`.
pub open spec fn stats_of(photos: Seq<Photo>, st: PhotoStats) -> bool {
    &&& st.total_photos == photos.len()
    &&& st.raw_count == count_raw(photos)
    &&& st.jpeg_count == photos.len() - count_raw(photos)
    &&& st.paired_count == count_paired(photos)
    &&& is_histogram(photos, false, st.cameras@)
    &&& is_histogram(photos, true, st.lenses@)
}

/// Every entry of `h` is found in `g`, with the same count.
pub open spec fn histogram_within(h: Seq<(String, usize)>, g: Seq<(String, usize)>) -> bool {
    forall|e: int| 0 <= e < h.len() ==> has_entry(g, (#[trigger] h[e]).0@, h[e].1)
}

/// `g` lists `key` with count `c`.
pub open spec fn has_entry(g: Seq<(String, usize)>, key: Seq<char>, c: usize) -> bool {
    exists|f: int| 0 <= f < g.len() && g[f].0@ == key && g[f].1 == c
}

proof fn lemma_histogram_within(s: Seq<Photo>, lens: bool, h: Seq<(String, usize)>, g: Seq<(String, usize)>)
    requires
        is_histogram(s, lens, h),
        is_histogram(s, lens, g),
    ensures
        histogram_within(h, g),
{
    assert forall|e: int| 0 <= e < h.len() implies has_entry(g, (#[trigger] h[e]).0@, h[e].1) by {
        let key = h[e].0@;
        assert(h[e].1 == count_key(s, lens, key));
        assert(count_key(s, lens, key) > 0);
        let f = choose|f: int| 0 <= f < g.len() && g[f].0@ == key;
        assert(g[f].1 == count_key(s, lens, g[f].0@));
    }
}

/// The aggregates of a collection are determined by it: two results for the
/// same collection agree on every count and list the same models with the
/// same counts.
pub proof fn lemma_stats_deterministic(s: Seq<Photo>, a: PhotoStats, b: PhotoStats)
    requires
        stats_of(s, a),
        stats_of(s, b),
    ensures
        a.total_photos == b.total_photos,
        a.raw_count == b.raw_count,
        a.jpeg_count == b.jpeg_count,
        a.paired_count == b.paired_count,
        histogram_within(a.cameras@, b.cameras@),
        histogram_within(b.cameras@, a.cameras@),
        histogram_within(a.lenses@, b.lenses@),
        histogram_within(b.lenses@, a.lenses@),
{
    lemma_histogram_within(s, false, a.cameras@, b.cameras@);
    lemma_histogram_within(s, false, b.cameras@, a.cameras@);
    lemma_histogram_within(s, true, a.lenses@, b.lenses@);
    lemma_histogram_within(s, true, b.lenses@, a.lenses@);
}

proof fn lemma_count_paired_prefix(before: Seq<Photo>, after: Seq<Photo>, n: int)
    requires
        paired(before, after),
        forall|i: int| 0 <= i < before.len() ==> (#[trigger] before[i]).paired_with is None,
        0 <= n <= before.len(),
    ensures
        count_paired(after.take(n)) == linked_set(before, true, n).len() + linked_set(
            before,
            false,
            n,
        ).len(),
    decreases n,
{
    lemma_linked_set(before, true, n);
    lemma_linked_set(before, false, n);
    if n > 0 {
        lemma_count_paired_prefix(before, after, n - 1);
        assert(after.take(n).drop_last() =~= after.take(n - 1));
        assert(after.take(n).last() == after[n - 1]);
        assert(before[n - 1].paired_with is None);
        assert(opt_str(after[n - 1].paired_with) == link_after(before, n - 1));
    }
}

/// When no photo carried a link before pairing, the linked photos counted
/// afterwards are twice the pairs formed.
pub proof fn lemma_paired_count_is_twice_pairs(before: Seq<Photo>, after: Seq<Photo>)
    requires
        paired(before, after),
        forall|i: int| 0 <= i < before.len() ==> (#[trigger] before[i]).paired_with is None,
    ensures
        count_paired(after) == 2 * count_pairs(before),
{
    lemma_count_paired_prefix(before, after, before.len() as int);
    assert(after.take(before.len() as int) =~= after);
    lemma_linked_kinds_balance(before);
}

/// Number of photos in `s` that satisfy `pred`.
pub open spec fn count_where(s: Seq<Photo>, pred: spec_fn(Photo) -> bool) -> nat
    decreases s.len(),
{
    if s.len() == 0 {
        0
    } else {
        count_where(s.drop_last(), pred) + if pred(s.last()) {
            1nat
        } else {
            0nat
        }
    }
}

proof fn lemma_count_where_remove(s: Seq<Photo>, pred: spec_fn(Photo) -> bool, i: int)
    requires
        0 <= i < s.len(),
    ensures
        count_where(s, pred) == count_where(s.remove(i), pred) + if pred(s[i]) {
            1nat
        } else {
            0nat
        },
    decreases s.len(),
{
    if i < s.len() - 1 {
        assert(s.remove(i).drop_last() =~= s.drop_last().remove(i));
        assert(s.remove(i).last() == s.last());
        lemma_count_where_remove(s.drop_last(), pred, i);
    } else {
        assert(s.remove(i) =~= s.drop_last());
    }
}

/// Counting is blind to order: two collections with the same elements, in
/// any order, give the same count.
pub proof fn lemma_count_where_permutation(
    s: Seq<Photo>,
    t: Seq<Photo>,
    pred: spec_fn(Photo) -> bool,
)
    requires
        s.to_multiset() == t.to_multiset(),
    ensures
        count_where(s, pred) == count_where(t, pred),
    decreases s.len(),
{
    broadcast use vstd::seq_lib::group_to_multiset_ensures;
    broadcast use vstd::multiset::group_multiset_axioms;

    if s.len() == 0 {
        vstd::seq_lib::to_multiset_len(s);
        vstd::seq_lib::to_multiset_len(t);
        assert(t.len() == 0);
    } else {
        let x = s.last();
        let rest = s.drop_last();
        assert(s =~= rest.push(x));
        assert(s.to_multiset() == rest.to_multiset().insert(x));
        assert(rest.to_multiset() =~= s.to_multiset().remove(x));
        assert(s.contains(x)) by {
            assert(s[s.len() - 1] == x);
        }
        assert(t.to_multiset().count(x) > 0);
        assert(t.contains(x));
        let j = choose|j: int| 0 <= j < t.len() && t[j] == x;
        assert(t.remove(j).to_multiset() == t.to_multiset().remove(t[j]));
        lemma_count_where_permutation(rest, t.remove(j), pred);
        lemma_count_where_remove(t, pred, j);
    }
}

proof fn lemma_counts_as_count_where(s: Seq<Photo>, lens: bool, key: Seq<char>)
    ensures
        count_raw(s) == count_where(s, |p: Photo| is_raw_path(p.file_path@)),
        count_paired(s) == count_where(s, |p: Photo| p.paired_with is Some),
        count_key(s, lens, key) == count_where(s, |p: Photo| model_of(p, lens) == Some(key)),
    decreases s.len(),
{
    if s.len() > 0 {
        lemma_counts_as_count_where(s.drop_last(), lens, key);
    }
}

proof fn lemma_histogram_moves(s: Seq<Photo>, t: Seq<Photo>, lens: bool, h: Seq<(String, usize)>)
    requires
        is_histogram(s, lens, h),
        forall|l: bool, key: Seq<char>| #[trigger] count_key(s, l, key) == count_key(t, l, key),
    ensures
        is_histogram(t, lens, h),
{
    assert forall|e: int| 0 <= e < h.len() implies #[trigger] h[e].1 == count_key(t, lens, h[e].0@)
        && h[e].1 > 0 by {
        assert(count_key(s, lens, h[e].0@) == count_key(t, lens, h[e].0@));
    }
    assert forall|key: Seq<char>| #[trigger] count_key(t, lens, key) > 0 implies exists|e: int|
        0 <= e < h.len() && h[e].0@ == key by {
        assert(count_key(s, lens, key) == count_key(t, lens, key));
    }
}

/// The aggregates of a collection do not depend on its order: for two
/// orderings of the same photos they agree on every count and list the same
/// models with the same counts.
pub proof fn lemma_stats_permutation(s: Seq<Photo>, t: Seq<Photo>, a: PhotoStats, b: PhotoStats)
    requires
        s.to_multiset() == t.to_multiset(),
        stats_of(s, a),
        stats_of(t, b),
    ensures
        a.total_photos == b.total_photos,
        a.raw_count == b.raw_count,
        a.jpeg_count == b.jpeg_count,
        a.paired_count == b.paired_count,
        histogram_within(a.cameras@, b.cameras@),
        histogram_within(b.cameras@, a.cameras@),
        histogram_within(a.lenses@, b.lenses@),
        histogram_within(b.lenses@, a.lenses@),
{
    broadcast use vstd::seq_lib::group_to_multiset_ensures;

    assert(s.len() == t.len()) by {
        assert(s.len() == s.to_multiset().len());
        assert(t.len() == t.to_multiset().len());
    }
    let k = Seq::<char>::empty();
    lemma_counts_as_count_where(s, false, k);
    lemma_counts_as_count_where(t, false, k);
    lemma_count_where_permutation(s, t, |p: Photo| is_raw_path(p.file_path@));
    lemma_count_where_permutation(s, t, |p: Photo| p.paired_with is Some);
    assert forall|lens: bool, key: Seq<char>| #[trigger] count_key(s, lens, key) == count_key(
        t,
        lens,
        key,
    ) by {
        lemma_counts_as_count_where(s, lens, key);
        lemma_counts_as_count_where(t, lens, key);
        lemma_count_where_permutation(s, t, |p: Photo| model_of(p, lens) == Some(key));
    }
    lemma_histogram_moves(s, t, false, a.cameras@);
    lemma_histogram_moves(s, t, true, a.lenses@);
    lemma_histogram_within(t, false, a.cameras@, b.cameras@);
    lemma_histogram_within(t, false, b.cameras@, a.cameras@);
    lemma_histogram_within(t, true, a.lenses@, b.lenses@);
    lemma_histogram_within(t, true, b.lenses@, a.lenses@);
}

proof fn lemma_count_key_bound(s: Seq<Photo>, lens: bool, key: Seq<char>)
    ensures
        count_key(s, lens, key) <= s.len(),
    decreases s.len(),
{
    if s.len() > 0 {
        lemma_count_key_bound(s.drop_last(), lens, key);
    }
}

/// Position of `m` among the keys of `h`, or the length of `h`.
fn find_key(h: &Vec<(String, usize)>, m: &String) -> (r: usize)
    ensures
        r <= h@.len(),
        r < h@.len() ==> h@[r as int].0@ == m@,
        r == h@.len() ==> forall|e: int| 0 <= e < h@.len() ==> h@[e].0@ != m@,
{
    let mut j: usize = 0;
    while j < h.len()
        invariant
            j <= h@.len(),
            forall|e: int| 0 <= e < j ==> h@[e].0@ != m@,
        decreases h.len() - j,
    {
        if h[j].0 == *m {
            return j;
        }
        j = j + 1;
    }
    j
}

/// How often each model occurs in `photos`.
fn tally(photos: &Vec<Photo>, lens: bool) -> (h: Vec<(String, usize)>)
    ensures
        is_histogram(photos@, lens, h@),
{
    let ghost s = photos@;
    let mut h: Vec<(String, usize)> = Vec::new();
    let mut i: usize = 0;
    while i < photos.len()
        invariant
            s == photos@,
            i <= s.len(),
            is_histogram(s.take(i as int), lens, h@),
        decreases s.len() - i,
    {
        let ghost before = s.take(i as int);
        let ghost after = s.take(i + 1);
        proof {
            assert(after.drop_last() =~= before);
            assert(after.last() == s[i as int]);
        }
        let field = if lens {
            &photos[i].exif.lens_model
        } else {
            &photos[i].exif.camera_model
        };
        assert(field == if lens {
            s[i as int].exif.lens_model
        } else {
            s[i as int].exif.camera_model
        });
        match field {
            None => {
                proof {
                    assert forall|key: Seq<char>|
                        count_key(after, lens, key) == count_key(before, lens, key) by {}
                    assert forall|key: Seq<char>|
                        #[trigger] count_key(after, lens, key) > 0 implies exists|e: int|
                            0 <= e < h@.len() && h@[e].0@ == key by {
                        assert(count_key(before, lens, key) > 0);
                    }
                }
            },
            Some(m) => {
                let ghost mk = m@;
                let j = find_key(&h, m);
                proof {
                    lemma_count_key_bound(before, lens, mk);
                }
                if j < h.len() {
                    assert(h@[j as int].0@ == mk);
                    let ghost old_h = h@;
                    let (k, c) = h.remove(j);
                    h.insert(j, (k, c + 1));
                    proof {
                        assert forall|e: int| 0 <= e < h@.len() && e != j implies h@[e] == old_h[e] by {}
                        assert forall|e: int|
                            0 <= e < h@.len() implies #[trigger] h@[e].1 == count_key(
                                after,
                                lens,
                                h@[e].0@,
                            ) && h@[e].1 > 0 by {
                            assert(h@[e].0@ == old_h[e].0@);
                        }
                        assert forall|key: Seq<char>|
                            #[trigger] count_key(after, lens, key) > 0 implies exists|e: int|
                                0 <= e < h@.len() && h@[e].0@ == key by {
                            if key == mk {
                                assert(h@[j as int].0@ == key);
                            } else {
                                assert(count_key(before, lens, key) > 0);
                                let e = choose|e: int| 0 <= e < old_h.len() && old_h[e].0@ == key;
                                assert(h@[e].0@ == key);
                            }
                        }
                    }
                } else {
                    let ghost old_h = h@;
                    assert(count_key(before, lens, mk) == 0);
                    h.push((m.clone(), 1));
                    proof {
                        assert forall|e: int|
                            0 <= e < h@.len() implies #[trigger] h@[e].1 == count_key(
                                after,
                                lens,
                                h@[e].0@,
                            ) && h@[e].1 > 0 by {
                            if e < old_h.len() {
                                assert(h@[e] == old_h[e]);
                            }
                        }
                        assert forall|key: Seq<char>|
                            #[trigger] count_key(after, lens, key) > 0 implies exists|e: int|
                                0 <= e < h@.len() && h@[e].0@ == key by {
                            if key == mk {
                                assert(h@[old_h.len() as int].0@ == key);
                            } else {
                                assert(count_key(before, lens, key) > 0);
                                let e = choose|e: int| 0 <= e < old_h.len() && old_h[e].0@ == key;
                                assert(h@[e].0@ == key);
                            }
                        }
                    }
                }
            },
        }
        i = i + 1;
    }
    assert(s.take(s.len() as int) =~= s);
    h
}

/// The aggregates of a collection: its size, how many files are RAW and how
/// many are not, how many carry a link, and the camera and lens histograms.
pub fn get_photo_stats(photos: &Vec<Photo>) -> (st: PhotoStats)
    ensures
        stats_of(photos@, st),
{
    let ghost s = photos@;
    let mut raw: usize = 0;
    let mut linked: usize = 0;
    let mut i: usize = 0;
    while i < photos.len()
        invariant
            s == photos@,
            i <= s.len(),
            raw == count_raw(s.take(i as int)),
            linked == count_paired(s.take(i as int)),
            raw <= i,
            linked <= i,
        decreases s.len() - i,
    {
        proof {
            assert(s.take(i + 1).drop_last() =~= s.take(i as int));
        }
        if is_raw_file(photos[i].file_path.as_str()) {
            raw = raw + 1;
        }
        if photos[i].paired_with.is_some() {
            linked = linked + 1;
        }
        i = i + 1;
    }
    assert(s.take(s.len() as int) =~= s);
    let total = photos.len();
    PhotoStats {
        total_photos: total,
        raw_count: raw,
        jpeg_count: total - raw,
        paired_count: linked,
        cameras: tally(photos, false),
        lenses: tally(photos, true),
    }
}

} // verus!
