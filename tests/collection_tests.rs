use photo_scan::filter::filter_photos;
use photo_scan::pairing::pair_raw_jpeg;
use photo_scan::photo::{ExifData, Photo, PhotoFilter, Rational, UtcTime};
use photo_scan::stats::get_photo_stats;

fn photo(id: &str, path: &str) -> Photo {
    let t = UtcTime { secs: 1_700_000_000, nanos: 0 };
    let ext = path.rsplit('.').next().unwrap_or("").to_uppercase();
    Photo {
        id: id.to_string(),
        file_path: path.to_string(),
        file_name: path.rsplit('/').next().unwrap_or("").to_string(),
        file_size: 1000,
        file_type: ext,
        thumbnail: None,
        exif: ExifData::default(),
        created_at: t,
        modified_at: t,
        paired_with: None,
    }
}

fn with_make(mut p: Photo, make: &str) -> Photo {
    p.exif.camera_make = Some(make.to_string());
    p
}

fn with_iso(mut p: Photo, iso: u32) -> Photo {
    p.exif.iso = Some(iso);
    p
}

fn with_aperture(mut p: Photo, num: u32, denom: u32) -> Photo {
    p.exif.aperture = Some(Rational { num, denom });
    p
}

fn with_models(mut p: Photo, camera: Option<&str>, lens: Option<&str>) -> Photo {
    p.exif.camera_model = camera.map(|s| s.to_string());
    p.exif.lens_model = lens.map(|s| s.to_string());
    p
}

fn no_filter() -> PhotoFilter {
    PhotoFilter {
        camera_make: None,
        camera_model: None,
        lens_model: None,
        focal_length_range: None,
        aperture_range: None,
        iso_range: None,
        date_range: None,
        file_type: None,
    }
}

fn ids(photos: &[Photo]) -> Vec<String> {
    photos.iter().map(|p| p.id.clone()).collect()
}

fn link(photos: &[Photo], id: &str) -> Option<String> {
    photos.iter().find(|p| p.id == id).unwrap().paired_with.clone()
}

#[test]
fn raw_and_jpeg_siblings_are_paired() {
    let mut photos = vec![
        photo("r", "/shoot/raw/IMG_1.CR2"),
        photo("x", "/shoot/other.png"),
        photo("j", "/shoot/jpg/IMG_1.JPG"),
    ];
    pair_raw_jpeg(&mut photos);
    assert_eq!(link(&photos, "r"), Some("j".to_string()));
    assert_eq!(link(&photos, "j"), Some("r".to_string()));
    assert_eq!(link(&photos, "x"), None);
}

#[test]
fn mixed_group_of_three_pairs_the_last_of_each_kind() {
    let mut photos = vec![
        photo("raw", "/a/IMG_2.NEF"),
        photo("jpg", "/a/IMG_2.jpg"),
        photo("png", "/b/IMG_2.png"),
    ];
    pair_raw_jpeg(&mut photos);
    assert_eq!(link(&photos, "raw"), Some("png".to_string()));
    assert_eq!(link(&photos, "png"), Some("raw".to_string()));
    assert_eq!(link(&photos, "jpg"), None);
}

#[test]
fn same_kind_groups_and_singletons_stay_unpaired() {
    let mut photos = vec![
        photo("a", "/a/IMG_3.CR2"),
        photo("b", "/b/IMG_3.NEF"),
        photo("c", "/a/IMG_4.jpg"),
        photo("d", "/b/IMG_4.png"),
        photo("e", "/a/IMG_5.jpg"),
    ];
    pair_raw_jpeg(&mut photos);
    assert!(photos.iter().all(|p| p.paired_with.is_none()));
    assert_eq!(ids(&photos), vec!["a", "b", "c", "d", "e"]);
}

#[test]
fn filter_by_make_is_substring() {
    let photos = vec![
        with_make(photo("1", "/a/1.jpg"), "Canon EOS R5"),
        with_make(photo("2", "/a/2.jpg"), "Nikon Z9"),
        photo("3", "/a/3.jpg"),
    ];
    let mut f = no_filter();
    f.camera_make = Some("Canon".to_string());
    assert_eq!(ids(&filter_photos(photos.clone(), f.clone())), vec!["1"]);
    f.camera_make = Some("canon".to_string());
    assert!(filter_photos(photos, f).is_empty());
}

#[test]
fn absent_field_fails_every_constraint() {
    let photos = vec![photo("1", "/a/1.jpg")];
    let mut f = no_filter();
    f.iso_range = Some((0, u32::MAX));
    assert!(filter_photos(photos.clone(), f).is_empty());
    let mut f = no_filter();
    f.aperture_range = Some((Rational { num: 0, denom: 1 }, Rational { num: 100, denom: 1 }));
    assert!(filter_photos(photos.clone(), f).is_empty());
    let mut f = no_filter();
    f.lens_model = Some(String::new());
    assert!(filter_photos(photos.clone(), f).is_empty());
    assert_eq!(filter_photos(photos, no_filter()).len(), 1);
}

#[test]
fn composed_filter_is_intersection() {
    let photos = vec![
        with_iso(photo("1", "/a/1.JPG"), 100),
        with_iso(photo("2", "/a/2.JPG"), 800),
        with_iso(photo("3", "/a/3.CR2"), 200),
        with_iso(photo("4", "/a/4.JPG"), 400),
        photo("5", "/a/5.JPG"),
    ];
    let mut by_iso = no_filter();
    by_iso.iso_range = Some((100, 400));
    let mut by_type = no_filter();
    by_type.file_type = Some("JPG".to_string());
    let mut both = by_iso.clone();
    both.file_type = Some("JPG".to_string());
    let combined = ids(&filter_photos(photos.clone(), both));
    let stepwise = ids(&filter_photos(filter_photos(photos.clone(), by_iso), by_type));
    assert_eq!(combined, vec!["1", "4"]);
    assert_eq!(combined, stepwise);
}

#[test]
fn aperture_range_is_inclusive() {
    let photos = vec![
        with_aperture(photo("1", "/a/1.jpg"), 28, 10),
        with_aperture(photo("2", "/a/2.jpg"), 4, 1),
        with_aperture(photo("3", "/a/3.jpg"), 56, 10),
        with_aperture(photo("4", "/a/4.jpg"), 1, 0),
    ];
    let mut f = no_filter();
    f.aperture_range = Some((Rational { num: 14, denom: 5 }, Rational { num: 4, denom: 1 }));
    assert_eq!(ids(&filter_photos(photos, f)), vec!["1", "2"]);
}

#[test]
fn date_range_is_not_consulted() {
    let photos = vec![photo("1", "/a/1.jpg")];
    let mut f = no_filter();
    let t = UtcTime { secs: 0, nanos: 0 };
    f.date_range = Some((t, t));
    assert_eq!(filter_photos(photos, f).len(), 1);
}

#[test]
fn filter_twice_gives_the_same_result() {
    let photos = vec![
        with_iso(photo("1", "/a/1.JPG"), 100),
        with_iso(photo("2", "/a/2.JPG"), 800),
    ];
    let mut f = no_filter();
    f.iso_range = Some((50, 200));
    let a = ids(&filter_photos(photos.clone(), f.clone()));
    let b = ids(&filter_photos(photos.clone(), f.clone()));
    assert_eq!(a, b);
    let again = ids(&filter_photos(filter_photos(photos, f.clone()), f));
    assert_eq!(a, again);
}

#[test]
fn stats_of_five_photos() {
    let mut photos = vec![
        photo("a1", "/s/A.CR2"),
        photo("a2", "/s/A.JPG"),
        photo("b", "/s/B.NEF"),
        photo("c", "/s/C.JPG"),
        photo("d", "/s/D.png"),
    ];
    pair_raw_jpeg(&mut photos);
    let st = get_photo_stats(&photos);
    assert_eq!(st.total_photos, 5);
    assert_eq!(st.raw_count, 2);
    assert_eq!(st.jpeg_count, 3);
    assert_eq!(st.paired_count, 2);
}

#[test]
fn stats_count_each_linked_photo() {
    let mut photos = vec![
        photo("a1", "/s/A.CR2"),
        photo("a2", "/s/A.JPG"),
        photo("b1", "/s/B.NEF"),
        photo("b2", "/s/B.JPG"),
        photo("c", "/s/C.JPG"),
    ];
    pair_raw_jpeg(&mut photos);
    let st = get_photo_stats(&photos);
    assert_eq!(st.paired_count, 4);
    assert_eq!(st.raw_count, 2);
    assert_eq!(st.jpeg_count, 3);
}

#[test]
fn stats_histograms() {
    let photos = vec![
        with_models(photo("1", "/a/1.jpg"), Some("EOS R5"), Some("RF 50mm")),
        with_models(photo("2", "/a/2.jpg"), Some("Z9"), None),
        with_models(photo("3", "/a/3.jpg"), Some("EOS R5"), Some("RF 24-70")),
        with_models(photo("4", "/a/4.jpg"), None, Some("RF 50mm")),
    ];
    let st = get_photo_stats(&photos);
    assert_eq!(
        st.cameras,
        vec![("EOS R5".to_string(), 2), ("Z9".to_string(), 1)]
    );
    assert_eq!(
        st.lenses,
        vec![("RF 50mm".to_string(), 2), ("RF 24-70".to_string(), 1)]
    );
}

#[test]
fn stats_of_empty_collection() {
    let st = get_photo_stats(&Vec::new());
    assert_eq!(st.total_photos, 0);
    assert_eq!(st.raw_count, 0);
    assert_eq!(st.jpeg_count, 0);
    assert_eq!(st.paired_count, 0);
    assert!(st.cameras.is_empty());
    assert!(st.lenses.is_empty());
}

#[test]
fn stats_twice_give_the_same_result() {
    let photos = vec![
        with_models(photo("1", "/a/1.CR2"), Some("EOS R5"), None),
        with_models(photo("2", "/a/2.jpg"), Some("Z9"), None),
    ];
    let a = get_photo_stats(&photos);
    let b = get_photo_stats(&photos);
    assert_eq!(
        (a.total_photos, a.raw_count, a.jpeg_count, a.paired_count),
        (b.total_photos, b.raw_count, b.jpeg_count, b.paired_count)
    );
    assert_eq!(a.cameras, b.cameras);
    assert_eq!(a.lenses, b.lenses);
}

#[test]
fn stats_do_not_depend_on_order() {
    let photos = vec![
        with_models(photo("1", "/a/1.CR2"), Some("EOS R5"), Some("RF 50mm")),
        with_models(photo("2", "/a/2.jpg"), Some("Z9"), None),
        with_models(photo("3", "/a/3.jpg"), Some("EOS R5"), None),
    ];
    let mut reversed = photos.clone();
    reversed.reverse();
    let a = get_photo_stats(&photos);
    let b = get_photo_stats(&reversed);
    assert_eq!(
        (a.total_photos, a.raw_count, a.jpeg_count, a.paired_count),
        (b.total_photos, b.raw_count, b.jpeg_count, b.paired_count)
    );
    let mut ca = a.cameras.clone();
    let mut cb = b.cameras.clone();
    ca.sort();
    cb.sort();
    assert_eq!(ca, cb);
    assert_eq!(ca, vec![("EOS R5".to_string(), 2), ("Z9".to_string(), 1)]);
}
