//! Linking of RAW and raster files of the same shot.
//!
//! Photos are grouped by the stem of their path. Within a group the last RAW
//! member and the last raster member (in collection order) are linked to each
//! other, when the group has both; every other photo keeps its link as it was.
use vstd::prelude::*;
use crate::format::{chars_equal, chars_of, file_stem, is_raw_file, is_raw_path, stem_of};
use crate::photo::Photo;

verus! {

pub open spec fn opt_str(o: Option<String>) -> Option<Seq<char>> {
    match o {
        Some(s) => Some(s@),
        None => None,
    }
}

pub open spec fn opt_chars(o: Option<Vec<char>>) -> Option<Seq<char>> {
    match o {
        Some(s) => Some(s@),
        None => None,
    }
}

/// Index of the last photo among the first `n` whose stem is `st` and whose
/// RAW-ness is `raw`, or -1.
pub open spec fn last_of_kind(s: Seq<Photo>, st: Seq<char>, raw: bool, n: int) -> int
    decreases n,
{
    if n <= 0 {
        -1
    } else if stem_of(s[n - 1].file_path@) == Some(st) && is_raw_path(s[n - 1].file_path@)
        == raw {
        n - 1
    } else {
        last_of_kind(s, st, raw, n - 1)
    }
}

/// The photo that photo `i` is linked to by pairing, if any.
pub open spec fn partner_of(s: Seq<Photo>, i: int) -> Option<int> {
    match stem_of(s[i].file_path@) {
        None => None,
        Some(st) => {
            let r = last_of_kind(s, st, true, s.len() as int);
            let j = last_of_kind(s, st, false, s.len() as int);
            if r >= 0 && j >= 0 {
                if i == r {
                    Some(j)
                } else if i == j {
                    Some(r)
                } else {
                    None
                }
            } else {
                None
            }
        },
    }
}

/// Two records agree on everything but their link.
pub open spec fn same_but_link(a: Photo, b: Photo) -> bool {
    &&& a.id == b.id
    &&& a.file_path == b.file_path
    &&& a.file_name == b.file_name
    &&& a.file_size == b.file_size
    &&& a.file_type == b.file_type
    &&& a.thumbnail == b.thumbnail
    &&& a.exif == b.exif
    &&& a.created_at == b.created_at
    &&& a.modified_at == b.modified_at
}

/// The link that photo `i` carries after pairing.
pub open spec fn link_after(s: Seq<Photo>, i: int) -> Option<Seq<char>> {
    match partner_of(s, i) {
        Some(k) => Some(s[k].id@),
        None => opt_str(s[i].paired_with),
    }
}

/// `after` is `before` with the pairing links set.
pub open spec fn paired(before: Seq<Photo>, after: Seq<Photo>) -> bool {
    &&& after.len() == before.len()
    &&& forall|i: int|
        0 <= i < before.len() ==> same_but_link(#[trigger] before[i], after[i])
            && opt_str(after[i].paired_with) == link_after(before, i)
}

proof fn lemma_last_of_kind_bounds(s: Seq<Photo>, st: Seq<char>, raw: bool, n: int)
    requires
        0 <= n <= s.len(),
    ensures
        -1 <= last_of_kind(s, st, raw, n) < n,
        last_of_kind(s, st, raw, n) >= 0 ==> stem_of(s[last_of_kind(s, st, raw, n)].file_path@)
            == Some(st) && is_raw_path(s[last_of_kind(s, st, raw, n)].file_path@) == raw,
    decreases n,
{
    if n > 0 {
        lemma_last_of_kind_bounds(s, st, raw, n - 1);
    }
}

/// Pairing links each photo to at most one other, of the other kind and of
/// the same stem, and the link goes both ways.
pub proof fn lemma_partner_symmetric(s: Seq<Photo>, i: int)
    requires
        0 <= i < s.len(),
        partner_of(s, i) is Some,
    ensures
        0 <= partner_of(s, i)->0 < s.len(),
        partner_of(s, i)->0 != i,
        partner_of(s, partner_of(s, i)->0) == Some(i),
        is_raw_path(s[i].file_path@) != is_raw_path(s[partner_of(s, i)->0].file_path@),
        stem_of(s[i].file_path@) == stem_of(s[partner_of(s, i)->0].file_path@),
{
    let st = stem_of(s[i].file_path@)->0;
    lemma_last_of_kind_bounds(s, st, true, s.len() as int);
    lemma_last_of_kind_bounds(s, st, false, s.len() as int);
}

/// After pairing, a photo that was linked points at its partner, which
/// points back at it; the two share a stem and differ in kind.
pub proof fn lemma_links_symmetric(before: Seq<Photo>, after: Seq<Photo>, i: int)
    requires
        paired(before, after),
        0 <= i < before.len(),
        partner_of(before, i) is Some,
    ensures
        ({
            let k = partner_of(before, i)->0;
            &&& 0 <= k < after.len()
            &&& k != i
            &&& opt_str(after[i].paired_with) == Some(after[k].id@)
            &&& opt_str(after[k].paired_with) == Some(after[i].id@)
            &&& is_raw_path(after[i].file_path@) != is_raw_path(after[k].file_path@)
            &&& stem_of(after[i].file_path@) == stem_of(after[k].file_path@)
        }),
{
    lemma_partner_symmetric(before, i);
    let k = partner_of(before, i)->0;
    assert(same_but_link(before[i], after[i]));
    assert(same_but_link(before[k], after[k]));
}

/// The indices below `n` of the photos that pairing links and whose
/// RAW-ness is `raw`.
pub open spec fn linked_set(s: Seq<Photo>, raw: bool, n: int) -> Set<int>
    decreases n,
{
    if n <= 0 {
        Set::empty()
    } else if partner_of(s, n - 1) is Some && is_raw_path(s[n - 1].file_path@) == raw {
        linked_set(s, raw, n - 1).insert(n - 1)
    } else {
        linked_set(s, raw, n - 1)
    }
}

/// Number of pairs that pairing forms in `s`: one for each RAW photo it links.
pub open spec fn count_pairs(s: Seq<Photo>) -> nat {
    linked_set(s, true, s.len() as int).len()
}

pub proof fn lemma_linked_set(s: Seq<Photo>, raw: bool, n: int)
    requires
        0 <= n <= s.len(),
    ensures
        linked_set(s, raw, n).finite(),
        forall|i: int|
            #[trigger] linked_set(s, raw, n).contains(i) <==> 0 <= i < n && partner_of(s, i) is Some
                && is_raw_path(s[i].file_path@) == raw,
        n > 0 ==> linked_set(s, raw, n).len() == linked_set(s, raw, n - 1).len() + if partner_of(
            s,
            n - 1,
        ) is Some && is_raw_path(s[n - 1].file_path@) == raw {
            1nat
        } else {
            0nat
        },
    decreases n,
{
    if n > 0 {
        lemma_linked_set(s, raw, n - 1);
        assert(!linked_set(s, raw, n - 1).contains(n - 1));
    }
}

/// Pairing links as many RAW photos as non-RAW ones: each link joins one
/// of each.
pub proof fn lemma_linked_kinds_balance(s: Seq<Photo>)
    ensures
        linked_set(s, false, s.len() as int).len() == count_pairs(s),
{
    let n = s.len() as int;
    let a = linked_set(s, true, n);
    let b = linked_set(s, false, n);
    lemma_linked_set(s, true, n);
    lemma_linked_set(s, false, n);
    let f = |i: int| partner_of(s, i)->0;
    assert forall|i: int| a.contains(i) implies b.contains(f(i)) by {
        lemma_partner_symmetric(s, i);
        lemma_partner_symmetric(s, f(i));
    }
    assert forall|k: int| b.contains(k) implies a.map(f).contains(k) by {
        lemma_partner_symmetric(s, k);
        let j = partner_of(s, k)->0;
        lemma_partner_symmetric(s, j);
        assert(a.contains(j) && f(j) == k);
    }
    assert(a.map(f) =~= b);
    assert forall|x: int, y: int| a.contains(x) && a.contains(y) && #[trigger] f(x) == #[trigger] f(
        y,
    ) implies x == y by {
        lemma_partner_symmetric(s, x);
        lemma_partner_symmetric(s, y);
    }
    vstd::set_lib::lemma_map_size(a, b, f);
}

proof fn lemma_last_of_kind_is(s: Seq<Photo>, st: Seq<char>, raw: bool, n: int, i: int)
    requires
        0 <= i < n <= s.len(),
        stem_of(s[i].file_path@) == Some(st),
        is_raw_path(s[i].file_path@) == raw,
        forall|j: int|
            i < j < n ==> !(stem_of(#[trigger] s[j].file_path@) == Some(st) && is_raw_path(
                s[j].file_path@,
            ) == raw),
    ensures
        last_of_kind(s, st, raw, n) == i,
    decreases n,
{
    if n - 1 > i {
        lemma_last_of_kind_is(s, st, raw, n - 1, i);
    }
}

/// A RAW file and a non-RAW file that are alone with their stem are linked to
/// each other.
pub proof fn lemma_lone_siblings_paired(before: Seq<Photo>, after: Seq<Photo>, a: int, b: int)
    requires
        paired(before, after),
        0 <= a < before.len(),
        0 <= b < before.len(),
        stem_of(before[a].file_path@) is Some,
        stem_of(before[a].file_path@) == stem_of(before[b].file_path@),
        is_raw_path(before[a].file_path@),
        !is_raw_path(before[b].file_path@),
        forall|j: int|
            0 <= j < before.len() && j != a && j != b ==> stem_of(#[trigger] before[j].file_path@)
                != stem_of(before[a].file_path@),
    ensures
        opt_str(after[a].paired_with) == Some(before[b].id@),
        opt_str(after[b].paired_with) == Some(before[a].id@),
{
    let st = stem_of(before[a].file_path@)->0;
    let n = before.len() as int;
    lemma_last_of_kind_is(before, st, true, n, a);
    lemma_last_of_kind_is(before, st, false, n, b);
    assert(same_but_link(before[a], after[a]));
    assert(same_but_link(before[b], after[b]));
}

/// In a group of same-stem photos that holds both kinds, exactly two are
/// linked, one RAW and one not, to each other; every other member keeps the
/// link it had.
pub proof fn lemma_group_links_exactly_two(
    before: Seq<Photo>,
    after: Seq<Photo>,
    st: Seq<char>,
    a: int,
    b: int,
)
    requires
        paired(before, after),
        0 <= a < before.len(),
        0 <= b < before.len(),
        stem_of(before[a].file_path@) == Some(st),
        stem_of(before[b].file_path@) == Some(st),
        is_raw_path(before[a].file_path@),
        !is_raw_path(before[b].file_path@),
    ensures
        exists|r: int, k: int|
            0 <= r < before.len() && 0 <= k < before.len() && is_raw_path(before[r].file_path@)
                && !is_raw_path(before[k].file_path@) && stem_of(before[r].file_path@) == Some(st)
                && stem_of(before[k].file_path@) == Some(st) && opt_str(after[r].paired_with)
                == Some(before[k].id@) && opt_str(after[k].paired_with) == Some(before[r].id@)
                && forall|i: int|
                0 <= i < before.len() && i != r && i != k && stem_of(
                    #[trigger] before[i].file_path@,
                ) == Some(st) ==> opt_str(after[i].paired_with) == opt_str(before[i].paired_with),
{
    let n = before.len() as int;
    lemma_last_of_kind_bounds(before, st, true, n);
    lemma_last_of_kind_bounds(before, st, false, n);
    let r = last_of_kind(before, st, true, n);
    let k = last_of_kind(before, st, false, n);
    if r < 0 {
        lemma_last_of_kind_none(before, st, true, n, a);
    }
    if k < 0 {
        lemma_last_of_kind_none(before, st, false, n, b);
    }
    assert(same_but_link(before[r], after[r]));
    assert(same_but_link(before[k], after[k]));
    assert forall|i: int|
        0 <= i < before.len() && i != r && i != k && stem_of(#[trigger] before[i].file_path@)
            == Some(st) implies opt_str(after[i].paired_with) == opt_str(
        before[i].paired_with,
    ) by {
        assert(same_but_link(before[i], after[i]));
        assert(partner_of(before, i) is None);
    }
}

proof fn lemma_last_of_kind_none(s: Seq<Photo>, st: Seq<char>, raw: bool, n: int, i: int)
    requires
        0 <= i < n <= s.len(),
        stem_of(s[i].file_path@) == Some(st),
        is_raw_path(s[i].file_path@) == raw,
    ensures
        last_of_kind(s, st, raw, n) >= 0,
    decreases n,
{
    if n - 1 > i {
        lemma_last_of_kind_none(s, st, raw, n - 1, i);
    }
}

/// The stem of each path, and whether each is a RAW file.
fn stems_and_kinds(photos: &Vec<Photo>) -> (r: (Vec<Option<Vec<char>>>, Vec<bool>))
    ensures
        r.0@.len() == photos@.len(),
        r.1@.len() == photos@.len(),
        forall|j: int|
            0 <= j < photos@.len() ==> opt_chars(#[trigger] r.0@[j]) == stem_of(
                photos@[j].file_path@,
            ) && r.1@[j] == is_raw_path(photos@[j].file_path@),
{
    let mut stems: Vec<Option<Vec<char>>> = Vec::new();
    let mut kinds: Vec<bool> = Vec::new();
    let mut j: usize = 0;
    while j < photos.len()
        invariant
            j <= photos@.len(),
            stems@.len() == j,
            kinds@.len() == j,
            forall|k: int|
                0 <= k < j ==> opt_chars(#[trigger] stems@[k]) == stem_of(photos@[k].file_path@)
                    && kinds@[k] == is_raw_path(photos@[k].file_path@),
        decreases photos.len() - j,
    {
        let path = photos[j].file_path.as_str();
        let st = match file_stem(path) {
            Some(s) => Some(chars_of(s)),
            None => None,
        };
        stems.push(st);
        kinds.push(is_raw_file(path));
        j = j + 1;
    }
    (stems, kinds)
}

/// The index that photo `i` is to be linked to.
fn partner_index(
    photos: &Vec<Photo>,
    stems: &Vec<Option<Vec<char>>>,
    kinds: &Vec<bool>,
    i: usize,
) -> (r: Option<usize>)
    requires
        i < photos@.len(),
        stems@.len() == photos@.len(),
        kinds@.len() == photos@.len(),
        forall|j: int|
            0 <= j < photos@.len() ==> opt_chars(#[trigger] stems@[j]) == stem_of(
                photos@[j].file_path@,
            ) && kinds@[j] == is_raw_path(photos@[j].file_path@),
    ensures
        match r {
            Some(k) => partner_of(photos@, i as int) == Some(k as int),
            None => partner_of(photos@, i as int) is None,
        },
{
    let st = match &stems[i] {
        Some(st) => st,
        None => {
            assert(opt_chars(stems@[i as int]) is None);
            return None;
        },
    };
    assert(opt_chars(stems@[i as int]) == Some(st@));
    let ghost s = photos@;
    let mut raw_idx: Option<usize> = None;
    let mut raster_idx: Option<usize> = None;
    let mut j: usize = 0;
    while j < photos.len()
        invariant
            j <= s.len(),
            s == photos@,
            stems@.len() == s.len(),
            kinds@.len() == s.len(),
            forall|k: int|
                0 <= k < s.len() ==> opt_chars(#[trigger] stems@[k]) == stem_of(s[k].file_path@)
                    && kinds@[k] == is_raw_path(s[k].file_path@),
            match raw_idx {
                Some(r) => r as int == last_of_kind(s, st@, true, j as int),
                None => last_of_kind(s, st@, true, j as int) == -1,
            },
            match raster_idx {
                Some(r) => r as int == last_of_kind(s, st@, false, j as int),
                None => last_of_kind(s, st@, false, j as int) == -1,
            },
        decreases s.len() - j,
    {
        let same = match &stems[j] {
            Some(o) => chars_equal(o, st),
            None => false,
        };
        assert(same == (stem_of(s[j as int].file_path@) == Some(st@)));
        if same {
            if kinds[j] {
                raw_idx = Some(j);
            } else {
                raster_idx = Some(j);
            }
        }
        j = j + 1;
    }
    match (raw_idx, raster_idx) {
        (Some(r), Some(k)) => {
            if i == r {
                Some(k)
            } else if i == k {
                Some(r)
            } else {
                None
            }
        },
        _ => None,
    }
}

/// Links the RAW and raster files of each shot to each other.
pub fn pair_raw_jpeg(photos: &mut Vec<Photo>)
    ensures
        paired(old(photos)@, final(photos)@),
{
    let ghost before = photos@;
    let (stems, kinds) = stems_and_kinds(photos);
    let n = photos.len();
    let mut partners: Vec<Option<usize>> = Vec::new();
    let mut i: usize = 0;
    while i < n
        invariant
            n == before.len(),
            photos@ == before,
            i <= n,
            stems@.len() == n,
            kinds@.len() == n,
            forall|j: int|
                0 <= j < n ==> opt_chars(#[trigger] stems@[j]) == stem_of(before[j].file_path@)
                    && kinds@[j] == is_raw_path(before[j].file_path@),
            partners@.len() == i,
            forall|j: int|
                0 <= j < i ==> match #[trigger] partners@[j] {
                    Some(k) => partner_of(before, j) == Some(k as int),
                    None => partner_of(before, j) is None,
                },
        decreases n - i,
    {
        partners.push(partner_index(photos, &stems, &kinds, i));
        i = i + 1;
    }
    i = 0;
    while i < n
        invariant
            n == before.len(),
            i <= n,
            photos@.len() == n,
            partners@.len() == n,
            forall|j: int|
                0 <= j < n ==> match #[trigger] partners@[j] {
                    Some(k) => partner_of(before, j) == Some(k as int),
                    None => partner_of(before, j) is None,
                },
            forall|j: int| 0 <= j < n ==> same_but_link(#[trigger] before[j], photos@[j]),
            forall|j: int|
                0 <= j < i ==> opt_str((#[trigger] photos@[j]).paired_with) == link_after(
                    before,
                    j,
                ),
            forall|j: int| i <= j < n ==> (#[trigger] photos@[j]).paired_with == before[j].paired_with,
        decreases n - i,
    {
        if let Some(k) = partners[i] {
            proof {
                lemma_partner_symmetric(before, i as int);
            }
            let id = photos[k].id.clone();
            let mut p = photos.remove(i);
            p.paired_with = Some(id);
            photos.insert(i, p);
        }
        i = i + 1;
    }
}

} // verus!
