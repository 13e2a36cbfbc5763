//! The per-file record builder and the bookkeeping of a scan.
//!
//! The caller walks the folder, reads each file, and hands the results here.
//! A `ScanSession` holds the supported paths that were discovered and hands
//! them out in batches, each only once the one before has finished. It counts
//! every path once as it finishes and keeps the photo made of it in the
//! path's place. Once all are in, it pairs the photos, in the paths' order.
use vstd::prelude::*;
use base64::Engine;
use crate::format::{display_name, display_name_of, file_type, file_type_of, is_supported_file, is_supported_path};
use crate::pairing::{pair_raw_jpeg, paired};
use crate::photo::{ExifData, Photo, ScanProgress, UtcTime};

verus! {

/// Number of files that are processed together before the next ones start.
pub const BATCH_SIZE: usize = 50;

/// What the file system tells of a file: its size, and its modification
/// time where that can be read.
#[derive(Clone, Copy, Debug, PartialEq, Eq, Structural)]
pub struct FileStat {
    pub size: u64,
    pub modified: Option<UtcTime>,
}

/// `p` is the record of the file at `path`, built at time `now`.
pub open spec fn photo_for(
    path: Seq<char>,
    stat: FileStat,
    exif: ExifData,
    thumbnail: Option<String>,
    now: UtcTime,
    p: Photo,
) -> bool {
    &&& p.file_path@ == path
    &&& p.file_name@ == display_name_of(path)
    &&& p.file_size == stat.size
    &&& p.file_type@ == file_type_of(path)
    &&& p.thumbnail == thumbnail
    &&& p.exif == exif
    &&& p.created_at == now
    &&& p.modified_at == match stat.modified {
        Some(t) => t,
        None => now,
    }
    &&& p.paired_with is None
}

/// The record of one file, with the given identifier; none where the file
/// is not supported or its size and time could not be read.
pub fn build_photo(
    path: &str,
    stat: Option<FileStat>,
    exif: ExifData,
    thumbnail: Option<String>,
    id: String,
    now: UtcTime,
) -> (r: Option<Photo>)
    ensures
        r is Some <==> (is_supported_path(path@) && stat is Some),
        r matches Some(p) ==> photo_for(path@, stat->0, exif, thumbnail, now, p) && p.id == id,
{
    if !is_supported_file(path) {
        return None;
    }
    match stat {
        None => None,
        Some(st) => {
            let modified_at = match st.modified {
                Some(t) => t,
                None => now,
            };
            Some(
                Photo {
                    id,
                    file_path: path.to_owned(),
                    file_name: display_name(path),
                    file_size: st.size,
                    file_type: file_type(path),
                    thumbnail,
                    exif,
                    created_at: now,
                    modified_at,
                    paired_with: None,
                },
            )
        },
    }
}

/// Relies on `uuid::Uuid::new_v4` for a random identifier, shown in its
/// hyphenated form of 36 characters.
#[verifier::external_body]
fn fresh_id() -> (r: String)
    ensures
        r@.len() == 36,
{
    uuid::Uuid::new_v4().to_string()
}

/// The record of one file, under a fresh random identifier; none where the
/// file is not supported or its size and time could not be read.
pub fn process_photo_parallel(
    path: &str,
    stat: Option<FileStat>,
    exif: ExifData,
    thumbnail: Option<String>,
    now: UtcTime,
) -> (r: Option<Photo>)
    ensures
        r is Some <==> (is_supported_path(path@) && stat is Some),
        r matches Some(p) ==> photo_for(path@, stat->0, exif, thumbnail, now, p) && p.id@.len()
            == 36,
{
    let id = fresh_id();
    build_photo(path, stat, exif, thumbnail, id, now)
}

/// The Base64 text (standard alphabet, padded) of a byte sequence.
pub uninterp spec fn base64_of(b: Seq<u8>) -> Seq<char>;

/// Relies on the standard engine of `base64`: four characters for each
/// started group of three bytes.
#[verifier::external_body]
fn base64_standard(b: &Vec<u8>) -> (r: String)
    ensures
        r@ == base64_of(b@),
        r@.len() == 4 * ((b@.len() + 2) / 3),
{
    base64::engine::general_purpose::STANDARD.encode(b)
}

/// The preview of a photo as inline text, from its encoded image where one
/// could be made.
pub fn encode_thumbnail(image: Option<Vec<u8>>) -> (r: Option<String>)
    ensures
        match image {
            Some(b) => r matches Some(t) && t@ == base64_of(b@) && t@.len() == 4 * ((b@.len() + 2)
                / 3),
            None => r is None,
        },
{
    match image {
        Some(b) => Some(base64_standard(&b)),
        None => None,
    }
}

/// The state of one scan.
pub struct ScanSession {
    paths: Vec<String>,
    next: usize,
    processed: usize,
    done: Vec<bool>,
    slots: Vec<Option<Photo>>,
}

/// One finished file moves the count on by one and reports it.
pub open spec fn progress_step(a: ScanSession, b: ScanSession, ev: ScanProgress) -> bool {
    &&& b.processed() == a.processed() + 1
    &&& b.total() == a.total()
    &&& ev.current == b.processed()
    &&& ev.total == b.total()
}

/// Number of `true` entries in `s`.
pub open spec fn count_true(s: Seq<bool>) -> nat
    decreases s.len(),
{
    if s.len() == 0 {
        0
    } else {
        count_true(s.drop_last()) + if s.last() {
            1nat
        } else {
            0nat
        }
    }
}

/// The photos among `s`, in order.
pub open spec fn somes(s: Seq<Option<Photo>>) -> Seq<Photo>
    decreases s.len(),
{
    if s.len() == 0 {
        Seq::empty()
    } else {
        let rest = somes(s.drop_last());
        match s.last() {
            Some(p) => rest.push(p),
            None => rest,
        }
    }
}

proof fn lemma_count_true_bound(s: Seq<bool>)
    ensures
        count_true(s) <= s.len(),
    decreases s.len(),
{
    if s.len() > 0 {
        lemma_count_true_bound(s.drop_last());
    }
}

proof fn lemma_count_true_set(s: Seq<bool>, i: int)
    requires
        0 <= i < s.len(),
        !s[i],
    ensures
        count_true(s.update(i, true)) == count_true(s) + 1,
    decreases s.len(),
{
    let t = s.update(i, true);
    if i < s.len() - 1 {
        assert(t.drop_last() =~= s.drop_last().update(i, true));
        lemma_count_true_set(s.drop_last(), i);
    } else {
        assert(t.drop_last() =~= s.drop_last());
    }
}

/// A sequence whose entries from `k` on are all false, and which holds `k`
/// true entries, is true below `k`.
proof fn lemma_count_true_full(s: Seq<bool>, k: int)
    requires
        0 <= k <= s.len(),
        forall|i: int| k <= i < s.len() ==> !s[i],
        count_true(s) == k,
    ensures
        forall|i: int| 0 <= i < k ==> s[i],
    decreases s.len(),
{
    if s.len() > k {
        lemma_count_true_full(s.drop_last(), k);
        assert forall|i: int| 0 <= i < k implies s[i] by {
            assert(s.drop_last()[i] == s[i]);
        }
    } else if k > 0 {
        lemma_count_true_bound(s.drop_last());
        assert(s.last());
        lemma_count_true_full(s.drop_last(), k - 1);
        assert forall|i: int| 0 <= i < k implies s[i] by {
            if i < k - 1 {
                assert(s.drop_last()[i] == s[i]);
            }
        }
    }
}

impl ScanSession {
    /// The supported paths of the scan, in the order they were discovered.
    pub closed spec fn queued(&self) -> Seq<String> {
        self.paths@
    }

    /// Number of files in the scan.
    pub open spec fn total(&self) -> nat {
        self.queued().len()
    }

    /// How many paths have been handed out.
    pub closed spec fn handed_out(&self) -> nat {
        self.next as nat
    }

    /// How many files have finished.
    pub closed spec fn processed(&self) -> nat {
        self.processed as nat
    }

    /// Which queued paths have finished.
    pub closed spec fn finished(&self) -> Seq<bool> {
        self.done@
    }

    /// For each queued path, the photo made of it, where one was.
    pub closed spec fn outcomes(&self) -> Seq<Option<Photo>> {
        self.slots@
    }

    pub closed spec fn wf(&self) -> bool {
        &&& self.next <= self.paths@.len()
        &&& self.done@.len() == self.paths@.len()
        &&& self.slots@.len() == self.paths@.len()
        &&& self.processed == count_true(self.done@)
        &&& forall|i: int| 0 <= i < self.done@.len() && #[trigger] self.done@[i] ==> i < self.next
        &&& forall|i: int|
            0 <= i < self.slots@.len() ==> (#[trigger] self.slots@[i] matches Some(p) ==> (
            self.done@[i] && p.file_path@ == self.paths@[i]@))
    }

    /// Facts that every well-formed session shows.
    pub proof fn lemma_wf(&self)
        requires
            self.wf(),
        ensures
            self.handed_out() <= self.total(),
            self.processed() <= self.handed_out(),
            self.finished().len() == self.total(),
            self.outcomes().len() == self.total(),
            forall|i: int|
                0 <= i < self.total() && #[trigger] self.finished()[i] ==> i < self.handed_out(),
            forall|i: int|
                0 <= i < self.total() ==> (#[trigger] self.outcomes()[i] matches Some(p) ==> (
                self.finished()[i] && p.file_path@ == self.queued()[i]@)),
            self.processed() == self.handed_out() ==> forall|i: int|
                0 <= i < self.handed_out() ==> #[trigger] self.finished()[i],
    {
        let d = self.done@;
        let n = self.next as int;
        lemma_count_true_bound(d.take(n));
        assert forall|i: int| n <= i < d.len() implies !d[i] by {}
        lemma_count_le_prefix(d, n);
        if self.processed() == self.handed_out() {
            lemma_count_true_full(d, n);
        }
    }

    /// A scan of the discovered paths; those that are not supported are
    /// dropped.
    pub fn new(discovered: Vec<String>) -> (r: ScanSession)
        ensures
            r.wf(),
            r.queued() == discovered@.filter(|s: String| is_supported_path(s@)),
            r.handed_out() == 0,
            r.processed() == 0,
            r.finished() == Seq::new(r.total(), |i: int| false),
            r.outcomes() == Seq::new(r.total(), |i: int| None::<Photo>),
    {
        let ghost orig = discovered@;
        let mut paths: Vec<String> = Vec::new();
        for p in it: discovered.into_iter()
            invariant
                it.seq() == orig,
                paths@ == orig.take(it.index() as int).filter(|s: String| is_supported_path(s@)),
        {
            let ghost idx = it.index();
            let ghost q = p;
            let keep = is_supported_file(p.as_str());
            if keep {
                paths.push(p);
            }
            proof {
                reveal(Seq::filter);
                assert(orig.take(idx + 1).drop_last() =~= orig.take(idx as int));
                assert(orig.take(idx + 1).last() == q);
            }
        }
        proof {
            assert(orig.take(orig.len() as int) =~= orig);
        }
        let n = paths.len();
        let mut done: Vec<bool> = Vec::new();
        let mut slots: Vec<Option<Photo>> = Vec::new();
        let mut i: usize = 0;
        while i < n
            invariant
                i <= n,
                done@ =~= Seq::new(i as nat, |k: int| false),
                slots@ =~= Seq::new(i as nat, |k: int| None::<Photo>),
            decreases n - i,
        {
            done.push(false);
            slots.push(None);
            i = i + 1;
        }
        proof {
            lemma_count_all_false(done@);
        }
        ScanSession { paths, next: 0, processed: 0, done, slots }
    }

    /// Number of files in the scan.
    pub fn total_files(&self) -> (r: usize)
        ensures
            r == self.total(),
    {
        self.paths.len()
    }

    /// Number of files that have finished.
    pub fn files_done(&self) -> (r: usize)
        ensures
            r == self.processed(),
    {
        self.processed
    }

    /// Number of paths handed out so far.
    pub fn files_handed_out(&self) -> (r: usize)
        ensures
            r == self.handed_out(),
    {
        self.next
    }

    /// Whether the queued path at `index` has finished.
    pub fn is_finished(&self, index: usize) -> (r: bool)
        requires
            self.wf(),
            index < self.total(),
        ensures
            r == self.finished()[index as int],
    {
        self.done[index]
    }

    /// The next batch of paths, with their positions: up to `BATCH_SIZE` of
    /// them, in order; empty once all have been handed out. A batch is only
    /// handed out once every earlier one has finished.
    pub fn next_batch(&mut self) -> (r: Vec<(usize, String)>)
        requires
            old(self).wf(),
            old(self).processed() == old(self).handed_out(),
        ensures
            final(self).wf(),
            ({
                let start = old(self).handed_out() as int;
                let end = if start + BATCH_SIZE < old(self).total() {
                    start + BATCH_SIZE
                } else {
                    old(self).total() as int
                };
                &&& r@.len() == end - start
                &&& forall|j: int|
                    0 <= j < r@.len() ==> (#[trigger] r@[j]).0 == start + j && r@[j].1
                        == old(self).queued()[start + j]
                &&& final(self).handed_out() == end
            }),
            final(self).queued() == old(self).queued(),
            final(self).processed() == old(self).processed(),
            final(self).finished() == old(self).finished(),
            final(self).outcomes() == old(self).outcomes(),
    {
        let n = self.paths.len();
        let start = self.next;
        let end = if n - start > BATCH_SIZE {
            start + BATCH_SIZE
        } else {
            n
        };
        let mut r: Vec<(usize, String)> = Vec::new();
        let mut i = start;
        while i < end
            invariant
                start <= i <= end <= self.paths@.len(),
                r@.len() == i - start,
                forall|j: int|
                    0 <= j < r@.len() ==> (#[trigger] r@[j]).0 == start + j && r@[j].1
                        == self.paths@[start + j],
            decreases end - i,
        {
            r.push((i, self.paths[i].clone()));
            i = i + 1;
        }
        self.next = end;
        r
    }

    /// Records that the handed-out path at `index` has finished, with the
    /// photo made of it where one was, and reports the progress.
    pub fn file_done(&mut self, index: usize, result: Option<Photo>) -> (r: ScanProgress)
        requires
            old(self).wf(),
            index < old(self).handed_out(),
            !old(self).finished()[index as int],
            result matches Some(p) ==> p.file_path@ == old(self).queued()[index as int]@,
        ensures
            final(self).wf(),
            progress_step(*old(self), *final(self), r),
            r.current_file matches Some(n) && n@ == display_name_of(
                old(self).queued()[index as int]@,
            ),
            final(self).queued() == old(self).queued(),
            final(self).handed_out() == old(self).handed_out(),
            final(self).finished() == old(self).finished().update(index as int, true),
            final(self).outcomes() == old(self).outcomes().update(index as int, result),
    {
        let n = self.paths.len();
        proof {
            lemma_count_true_set(self.done@, index as int);
            lemma_count_true_bound(self.done@.update(index as int, true));
        }
        self.processed = self.processed + 1;
        self.done.set(index, true);
        self.slots.set(index, result);
        ScanProgress {
            current: self.processed,
            total: n,
            current_file: Some(display_name(self.paths[index].as_str())),
        }
    }

    /// Ends the scan once every file has finished: the photos made, one per
    /// queued path at most and in the order of the paths, paired; and the
    /// closing report, which counts every file as done.
    pub fn finish(self) -> (r: (Vec<Photo>, ScanProgress))
        requires
            self.wf(),
            self.processed() == self.total(),
        ensures
            forall|i: int| 0 <= i < self.total() ==> #[trigger] self.finished()[i],
            forall|i: int|
                0 <= i < self.total() ==> (#[trigger] self.outcomes()[i] matches Some(p)
                    ==> p.file_path@ == self.queued()[i]@),
            paired(somes(self.outcomes()), r.0@),
            r.1.current == self.total(),
            r.1.total == self.total(),
            r.1.current_file is None,
    {
        proof {
            self.lemma_wf();
        }
        let total = self.paths.len();
        let ghost slots = self.slots@;
        let mut photos: Vec<Photo> = Vec::new();
        for o in it: self.slots.into_iter()
            invariant
                it.seq() == slots,
                photos@ == somes(slots.take(it.index() as int)),
        {
            let ghost idx = it.index();
            let ghost q = o;
            match o {
                Some(p) => photos.push(p),
                None => {},
            }
            proof {
                assert(slots.take(idx + 1).drop_last() =~= slots.take(idx as int));
                assert(slots.take(idx + 1).last() == q);
            }
        }
        proof {
            assert(slots.take(slots.len() as int) =~= slots);
        }
        pair_raw_jpeg(&mut photos);
        (photos, ScanProgress { current: total, total, current_file: None })
    }
}

proof fn lemma_count_all_false(s: Seq<bool>)
    requires
        forall|i: int| 0 <= i < s.len() ==> !s[i],
    ensures
        count_true(s) == 0,
    decreases s.len(),
{
    if s.len() > 0 {
        lemma_count_all_false(s.drop_last());
    }
}

/// Entries from `k` on being false, the count is that of the first `k`.
proof fn lemma_count_le_prefix(s: Seq<bool>, k: int)
    requires
        0 <= k <= s.len(),
        forall|i: int| k <= i < s.len() ==> !s[i],
    ensures
        count_true(s) == count_true(s.take(k)),
    decreases s.len(),
{
    if s.len() > k {
        assert(s.drop_last().take(k) =~= s.take(k));
        lemma_count_le_prefix(s.drop_last(), k);
    } else {
        assert(s.take(k) =~= s);
    }
}

/// Across any run of finished files, the reported counts rise by one each
/// time, never pass the total, and the total stays the same; a run over all
/// the files of a fresh scan ends with the count equal to the total.
pub proof fn lemma_progress_monotone(states: Seq<ScanSession>, events: Seq<ScanProgress>)
    requires
        states.len() == events.len() + 1,
        forall|k: int| 0 <= k < events.len() ==> progress_step(states[k], states[k + 1], events[k]),
        forall|k: int| 0 <= k < states.len() ==> #[trigger] states[k].processed() <= states[k].total(),
    ensures
        forall|k: int|
            0 <= k < events.len() ==> #[trigger] events[k].current == states[0].processed() + k + 1
                && events[k].total == states[0].total(),
        forall|i: int, j: int| 0 <= i < j < events.len() ==> events[i].current < events[j].current,
        forall|k: int| 0 <= k < events.len() ==> #[trigger] events[k].current <= events[k].total,
        states[0].processed() == 0 && events.len() == states[0].total() && events.len() > 0
            ==> events.last().current == events.last().total && events.last().total
            == events.len(),
    decreases events.len(),
{
    if events.len() > 0 {
        let n = events.len() - 1;
        lemma_progress_monotone(states.take(n + 1), events.take(n));
        assert forall|k: int|
            0 <= k < events.len() implies #[trigger] events[k].current == states[0].processed() + k
            + 1 && events[k].total == states[0].total() by {
            if k < n {
                assert(events.take(n)[k] == events[k]);
                assert(states.take(n + 1)[0] == states[0]);
                assert(progress_step(states[k], states[k + 1], events[k]));
            } else {
                assert(progress_step(states[n], states[n + 1], events[n]));
                assert(states.take(n + 1)[n] == states[n]);
                assert(states.take(n + 1).last() == states[n]);
            }
        }
    }
}

} // verus!
