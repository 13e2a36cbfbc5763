//! Subsetting a collection by metadata constraints.
//!
//! Every constraint that a filter specifies must hold (they are joined by
//! AND); a photo that lacks the field a constraint reads fails it. Text
//! constraints match by case-sensitive substring, ranges are inclusive, and
//! the file type must match exactly. The date range is carried by the filter
//! but not consulted. A rational reading or bound with a zero denominator is
//! not a number and satisfies no range.
use vstd::prelude::*;
use crate::format::{chars_equal, chars_of};
use crate::photo::{Photo, PhotoFilter, Rational};

verus! {

/// `needle` occurs in `hay` at index `i`.
pub open spec fn occurs_at(hay: Seq<char>, needle: Seq<char>, i: int) -> bool {
    0 <= i && i + needle.len() <= hay.len() && hay.subrange(i, i + needle.len()) =~= needle
}

/// `needle` occurs somewhere in `hay`.
pub open spec fn contains_seq(hay: Seq<char>, needle: Seq<char>) -> bool {
    exists|i: int| occurs_at(hay, needle, i)
}

pub open spec fn text_ok(field: Option<String>, want: Option<String>) -> bool {
    match want {
        None => true,
        Some(w) => match field {
            Some(f) => contains_seq(f@, w@),
            None => false,
        },
    }
}

pub open spec fn ratio_le(a: Rational, b: Rational) -> bool {
    a.num as int * b.denom as int <= b.num as int * a.denom as int
}

pub open spec fn ratio_in(x: Rational, lo: Rational, hi: Rational) -> bool {
    x.denom > 0 && lo.denom > 0 && hi.denom > 0 && ratio_le(lo, x) && ratio_le(x, hi)
}

pub open spec fn ratio_ok(v: Option<Rational>, range: Option<(Rational, Rational)>) -> bool {
    match range {
        None => true,
        Some((lo, hi)) => match v {
            Some(x) => ratio_in(x, lo, hi),
            None => false,
        },
    }
}

pub open spec fn iso_ok(v: Option<u32>, range: Option<(u32, u32)>) -> bool {
    match range {
        None => true,
        Some((lo, hi)) => match v {
            Some(x) => lo <= x && x <= hi,
            None => false,
        },
    }
}

pub open spec fn type_ok(t: String, want: Option<String>) -> bool {
    match want {
        None => true,
        Some(w) => t@ == w@,
    }
}

/// A photo satisfies every constraint that the filter specifies.
pub open spec fn photo_matches(p: Photo, f: PhotoFilter) -> bool {
    &&& text_ok(p.exif.camera_make, f.camera_make)
    &&& text_ok(p.exif.camera_model, f.camera_model)
    &&& text_ok(p.exif.lens_model, f.lens_model)
    &&& ratio_ok(p.exif.focal_length, f.focal_length_range)
    &&& ratio_ok(p.exif.aperture, f.aperture_range)
    &&& iso_ok(p.exif.iso, f.iso_range)
    &&& type_ok(p.file_type, f.file_type)
}

/// The photos of `s` that satisfy `f`, in their order.
pub open spec fn filtered(s: Seq<Photo>, f: PhotoFilter) -> Seq<Photo> {
    s.filter(|p: Photo| photo_matches(p, f))
}

/// A photo that lacks a field fails every constraint on that field.
pub proof fn lemma_absent_field_fails(p: Photo, f: PhotoFilter)
    ensures
        f.camera_make is Some && p.exif.camera_make is None ==> !photo_matches(p, f),
        f.camera_model is Some && p.exif.camera_model is None ==> !photo_matches(p, f),
        f.lens_model is Some && p.exif.lens_model is None ==> !photo_matches(p, f),
        f.focal_length_range is Some && p.exif.focal_length is None ==> !photo_matches(p, f),
        f.aperture_range is Some && p.exif.aperture is None ==> !photo_matches(p, f),
        f.iso_range is Some && p.exif.iso is None ==> !photo_matches(p, f),
{
}

pub open spec fn pick<T>(a: Option<T>, b: Option<T>) -> Option<T> {
    if a is Some {
        a
    } else {
        b
    }
}

pub open spec fn at_most_one<T>(a: Option<T>, b: Option<T>) -> bool {
    !(a is Some && b is Some)
}

/// `g` holds the constraints of `f1` and of `f2`, which constrain disjoint
/// fields.
pub open spec fn is_union(f1: PhotoFilter, f2: PhotoFilter, g: PhotoFilter) -> bool {
    &&& at_most_one(f1.camera_make, f2.camera_make)
    &&& at_most_one(f1.camera_model, f2.camera_model)
    &&& at_most_one(f1.lens_model, f2.lens_model)
    &&& at_most_one(f1.focal_length_range, f2.focal_length_range)
    &&& at_most_one(f1.aperture_range, f2.aperture_range)
    &&& at_most_one(f1.iso_range, f2.iso_range)
    &&& at_most_one(f1.file_type, f2.file_type)
    &&& g.camera_make == pick(f1.camera_make, f2.camera_make)
    &&& g.camera_model == pick(f1.camera_model, f2.camera_model)
    &&& g.lens_model == pick(f1.lens_model, f2.lens_model)
    &&& g.focal_length_range == pick(f1.focal_length_range, f2.focal_length_range)
    &&& g.aperture_range == pick(f1.aperture_range, f2.aperture_range)
    &&& g.iso_range == pick(f1.iso_range, f2.iso_range)
    &&& g.file_type == pick(f1.file_type, f2.file_type)
}

proof fn lemma_filter_filter(
    s: Seq<Photo>,
    a: spec_fn(Photo) -> bool,
    b: spec_fn(Photo) -> bool,
    c: spec_fn(Photo) -> bool,
)
    requires
        forall|x: Photo| #[trigger] c(x) == (a(x) && b(x)),
    ensures
        s.filter(a).filter(b) == s.filter(c),
    decreases s.len(),
{
    reveal(Seq::filter);
    if s.len() > 0 {
        lemma_filter_filter(s.drop_last(), a, b, c);
        if a(s.last()) {
            assert(s.filter(a).drop_last() =~= s.drop_last().filter(a));
        }
    }
}

/// Filtering by the union of two filters on disjoint fields keeps exactly
/// what filtering by one and then by the other keeps.
pub proof fn lemma_filter_composition(s: Seq<Photo>, f1: PhotoFilter, f2: PhotoFilter, g: PhotoFilter)
    requires
        is_union(f1, f2, g),
    ensures
        filtered(s, g) == filtered(filtered(s, f1), f2),
        forall|p: Photo| photo_matches(p, g) <==> photo_matches(p, f1) && photo_matches(p, f2),
{
    assert forall|p: Photo| photo_matches(p, g) <==> photo_matches(p, f1) && photo_matches(p, f2) by {}
    lemma_filter_filter(
        s,
        |p: Photo| photo_matches(p, f1),
        |p: Photo| photo_matches(p, f2),
        |p: Photo| photo_matches(p, g),
    );
}

/// Filtering a filtered collection again by the same filter changes nothing.
pub proof fn lemma_filter_idempotent(s: Seq<Photo>, f: PhotoFilter)
    ensures
        filtered(filtered(s, f), f) == filtered(s, f),
{
    let m = |p: Photo| photo_matches(p, f);
    lemma_filter_filter(s, m, m, m);
}

/// Whether `needle` occurs in `hay`.
pub fn contains_chars(hay: &Vec<char>, needle: &Vec<char>) -> (r: bool)
    ensures
        r == contains_seq(hay@, needle@),
{
    let h = hay.len();
    let m = needle.len();
    if m > h {
        assert forall|i: int| !occurs_at(hay@, needle@, i) by {}
        return false;
    }
    let mut i: usize = 0;
    while i <= h - m
        invariant
            h == hay@.len(),
            m == needle@.len(),
            m <= h,
            i <= h - m + 1,
            forall|j: int| 0 <= j < i ==> !occurs_at(hay@, needle@, j),
        decreases h - m + 1 - i,
    {
        let mut k: usize = 0;
        let mut same = true;
        while k < m
            invariant
                h == hay@.len(),
                m == needle@.len(),
                i + m <= h,
                k <= m,
                same == forall|t: int| 0 <= t < k ==> hay@[i + t] == needle@[t],
            decreases m - k,
        {
            if hay[i + k] != needle[k] {
                same = false;
            }
            k = k + 1;
        }
        if same {
            assert(occurs_at(hay@, needle@, i as int));
            return true;
        }
        assert(!occurs_at(hay@, needle@, i as int)) by {
            if occurs_at(hay@, needle@, i as int) {
                assert forall|t: int| 0 <= t < m implies hay@[i + t] == needle@[t] by {
                    assert(hay@.subrange(i as int, i + m)[t] == needle@[t]);
                }
            }
        }
        i = i + 1;
    }
    assert forall|j: int| !occurs_at(hay@, needle@, j) by {
        if 0 <= j && j < i {
        }
    }
    false
}

fn text_matches(field: &Option<String>, want: &Option<String>) -> (r: bool)
    ensures
        r == text_ok(*field, *want),
{
    match want {
        None => true,
        Some(w) => match field {
            Some(f) => contains_chars(&chars_of(f.as_str()), &chars_of(w.as_str())),
            None => false,
        },
    }
}

proof fn lemma_product_fits(x: u32, y: u32)
    ensures
        (x as int) * (y as int) <= u64::MAX,
{
    assert((x as int) * (y as int) <= 0xffff_ffff * 0xffff_ffff) by (nonlinear_arith)
        requires
            x <= 0xffff_ffff,
            y <= 0xffff_ffff,
    ;
}

fn ratio_le_exec(a: Rational, b: Rational) -> (r: bool)
    ensures
        r == ratio_le(a, b),
{
    proof {
        lemma_product_fits(a.num, b.denom);
        lemma_product_fits(b.num, a.denom);
    }
    let x: u64 = (a.num as u64) * (b.denom as u64);
    let y: u64 = (b.num as u64) * (a.denom as u64);
    x <= y
}

fn ratio_matches(v: Option<Rational>, range: Option<(Rational, Rational)>) -> (r: bool)
    ensures
        r == ratio_ok(v, range),
{
    match range {
        None => true,
        Some((lo, hi)) => match v {
            Some(x) => x.denom > 0 && lo.denom > 0 && hi.denom > 0 && ratio_le_exec(lo, x)
                && ratio_le_exec(x, hi),
            None => false,
        },
    }
}

/// Whether one photo satisfies every constraint of the filter.
pub fn matches_filter(p: &Photo, f: &PhotoFilter) -> (r: bool)
    ensures
        r == photo_matches(*p, *f),
{
    if !text_matches(&p.exif.camera_make, &f.camera_make) {
        return false;
    }
    if !text_matches(&p.exif.camera_model, &f.camera_model) {
        return false;
    }
    if !text_matches(&p.exif.lens_model, &f.lens_model) {
        return false;
    }
    if !ratio_matches(p.exif.focal_length, f.focal_length_range) {
        return false;
    }
    if !ratio_matches(p.exif.aperture, f.aperture_range) {
        return false;
    }
    match f.iso_range {
        Some((lo, hi)) => match p.exif.iso {
            Some(iso) => {
                if iso < lo || iso > hi {
                    return false;
                }
            },
            None => {
                return false;
            },
        },
        None => {},
    }
    match &f.file_type {
        Some(t) => chars_equal(&chars_of(p.file_type.as_str()), &chars_of(t.as_str())),
        None => true,
    }
}

/// The photos that satisfy every constraint of the filter, in their order.
pub fn filter_photos_parallel(photos: Vec<Photo>, filter: PhotoFilter) -> (r: Vec<Photo>)
    ensures
        r@ == filtered(photos@, filter),
{
    let ghost orig = photos@;
    let mut out: Vec<Photo> = Vec::new();
    for p in it: photos.into_iter()
        invariant
            it.seq() == orig,
            out@ == filtered(orig.take(it.index() as int), filter),
    {
        let ghost idx = it.index();
        let ghost q = p;
        let keep = matches_filter(&p, &filter);
        if keep {
            out.push(p);
        }
        proof {
            reveal(Seq::filter);
            assert(orig.take(idx + 1).drop_last() =~= orig.take(idx as int));
            assert(orig.take(idx + 1).last() == q);
            assert(photo_matches(q, filter) == keep);
        }
    }
    proof {
        assert(orig.take(orig.len() as int) =~= orig);
    }
    out
}

/// The photos that satisfy every constraint of the filter, in their order.
pub fn filter_photos(photos: Vec<Photo>, filter: PhotoFilter) -> (r: Vec<Photo>)
    ensures
        r@ == filtered(photos@, filter),
{
    filter_photos_parallel(photos, filter)
}

} // verus!
