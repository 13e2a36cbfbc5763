use photo_scan::metadata::{complete_exif, exif_from_readings, extract_exif_data, needs_dimension_probe, FieldReading, FieldReadings, FieldValue};
use photo_scan::photo::Rational;

fn reading(text: &str, value: FieldValue) -> Option<FieldReading> {
    Some(FieldReading { text: text.to_string(), value })
}

fn none_read() -> FieldReadings {
    FieldReadings {
        make: None,
        model: None,
        lens_model: None,
        focal_length: None,
        f_number: None,
        sensitivity: None,
        exposure_time: None,
        width: None,
        length: None,
    }
}

/// A little-endian TIFF whose first directory holds a Make and an ImageWidth.
fn tiny_tiff() -> Vec<u8> {
    let mut b = vec![b'I', b'I', 42, 0, 8, 0, 0, 0];
    b.extend_from_slice(&[2, 0]);
    b.extend_from_slice(&[0x0f, 0x01, 2, 0, 6, 0, 0, 0, 38, 0, 0, 0]);
    b.extend_from_slice(&[0x00, 0x01, 4, 0, 1, 0, 0, 0, 0x80, 0x02, 0, 0]);
    b.extend_from_slice(&[0, 0, 0, 0]);
    b.extend_from_slice(b"Canon\0");
    b
}

#[test]
fn readings_become_a_record() {
    let mut r = none_read();
    r.make = reading("Canon", FieldValue::Other);
    r.focal_length = reading("50", FieldValue::Rationals(vec![Rational { num: 50, denom: 1 }, Rational { num: 1, denom: 1 }]));
    r.f_number = reading("1.8", FieldValue::Rationals(vec![Rational { num: 18, denom: 10 }]));
    r.sensitivity = reading("400", FieldValue::Shorts(vec![400, 800]));
    r.exposure_time = reading("1/200", FieldValue::Rationals(vec![Rational { num: 1, denom: 200 }]));
    r.width = reading("6000", FieldValue::Longs(vec![6000]));
    r.length = reading("4000", FieldValue::Shorts(vec![4000]));
    let e = exif_from_readings(r);
    assert_eq!(e.camera_make.as_deref(), Some("Canon"));
    assert_eq!(e.focal_length, Some(Rational { num: 50, denom: 1 }));
    assert_eq!(e.aperture, Some(Rational { num: 18, denom: 10 }));
    assert_eq!(e.iso, Some(400));
    assert_eq!(e.shutter_speed.as_deref(), Some("1/200"));
    assert_eq!(e.width, Some(6000));
    assert_eq!(e.height, None);
    assert!(e.camera_model.is_none() && e.lens_model.is_none());
}

#[test]
fn wrong_shapes_count_as_absent() {
    let mut r = none_read();
    r.focal_length = reading("50", FieldValue::Longs(vec![50]));
    r.sensitivity = reading("400", FieldValue::Longs(vec![400]));
    r.f_number = reading("", FieldValue::Rationals(Vec::new()));
    let e = exif_from_readings(r);
    assert!(e.focal_length.is_none() && e.iso.is_none() && e.aperture.is_none());
}

#[test]
fn parses_a_tiff_container() {
    let e = extract_exif_data(&tiny_tiff()).unwrap();
    assert_eq!(e.camera_make.as_deref(), Some("\"Canon\""));
    assert_eq!(e.width, Some(640));
    assert_eq!(e.height, None);
    assert!(needs_dimension_probe(&e));
    let done = complete_exif(Some(e), Some((641, 480)));
    assert_eq!((done.width, done.height), (Some(641), Some(480)));
    assert_eq!(done.camera_make.as_deref(), Some("\"Canon\""));
}

#[test]
fn complete_record_keeps_its_size() {
    let mut r = none_read();
    r.width = reading("10", FieldValue::Longs(vec![10]));
    r.length = reading("20", FieldValue::Longs(vec![20]));
    let e = exif_from_readings(r);
    assert!(!needs_dimension_probe(&e));
    let done = complete_exif(Some(e), Some((1, 2)));
    assert_eq!((done.width, done.height), (Some(10), Some(20)));
    let e2 = exif_from_readings(none_read());
    let kept = complete_exif(Some(e2), None);
    assert_eq!((kept.width, kept.height), (None, None));
}
