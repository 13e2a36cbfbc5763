use photo_scan::metadata::{complete_exif, extract_exif_data};
use photo_scan::photo::{ExifData, UtcTime};
use photo_scan::scan::{build_photo, encode_thumbnail, process_photo_parallel, FileStat, ScanSession, BATCH_SIZE};

fn now() -> UtcTime {
    UtcTime { secs: 1_700_000_000, nanos: 5 }
}

#[test]
fn build_photo_fills_every_field() {
    let stat = FileStat { size: 2048, modified: Some(UtcTime { secs: 10, nanos: 0 }) };
    let p = build_photo("/pics/IMG_7.jpeg", Some(stat), ExifData::default(), None, "id-7".to_string(), now())
        .unwrap();
    assert_eq!(p.id, "id-7");
    assert_eq!(p.file_path, "/pics/IMG_7.jpeg");
    assert_eq!(p.file_name, "IMG_7.jpeg");
    assert_eq!(p.file_size, 2048);
    assert_eq!(p.file_type, "JPEG");
    assert_eq!(p.modified_at, UtcTime { secs: 10, nanos: 0 });
    assert_eq!(p.created_at, now());
    assert!(p.paired_with.is_none());
    assert!(p.thumbnail.is_none());
}

#[test]
fn build_photo_falls_back_to_now_for_modification_time() {
    let stat = FileStat { size: 0, modified: None };
    let p = build_photo("/pics/a.png", Some(stat), ExifData::default(), None, "x".to_string(), now()).unwrap();
    assert_eq!(p.modified_at, now());
}

#[test]
fn build_photo_skips_unsupported_or_unreadable_files() {
    let stat = FileStat { size: 1, modified: None };
    assert!(build_photo("/pics/a.gif", Some(stat), ExifData::default(), None, "x".to_string(), now()).is_none());
    assert!(build_photo("/pics/a.jpg", None, ExifData::default(), None, "x".to_string(), now()).is_none());
}

#[test]
fn processed_photos_get_distinct_ids() {
    let stat = FileStat { size: 1, modified: None };
    let a = process_photo_parallel("/p/a.NEF", Some(stat), ExifData::default(), None, now()).unwrap();
    let b = process_photo_parallel("/p/a.NEF", Some(stat), ExifData::default(), None, now()).unwrap();
    assert_eq!(a.id.len(), 36);
    assert_ne!(a.id, b.id);
    assert_eq!(a.file_type, "NEF");
}

#[test]
fn zero_byte_file_gives_empty_record() {
    let parsed = extract_exif_data(&Vec::new());
    assert!(parsed.is_none());
    let e = complete_exif(parsed, Some((10, 20)));
    assert!(e.width.is_none() && e.height.is_none() && e.camera_make.is_none());
    let stat = FileStat { size: 0, modified: None };
    let p = process_photo_parallel("/p/empty.jpg", Some(stat), e, encode_thumbnail(None), now()).unwrap();
    assert!(p.thumbnail.is_none());
    assert!(p.exif.iso.is_none());
}

#[test]
fn corrupt_bytes_give_no_metadata() {
    assert!(extract_exif_data(&vec![0xff, 0xd8, 0x00, 0x01, 0x02]).is_none());
    assert!(extract_exif_data(&b"not an image at all".to_vec()).is_none());
}

#[test]
fn thumbnail_text_is_base64() {
    assert_eq!(encode_thumbnail(Some(b"abc".to_vec())), Some("YWJj".to_string()));
    assert_eq!(encode_thumbnail(Some(b"ab".to_vec())), Some("YWI=".to_string()));
    assert_eq!(encode_thumbnail(Some(Vec::new())), Some(String::new()));
    assert_eq!(encode_thumbnail(None), None);
}

#[test]
fn session_keeps_supported_paths_and_batches_them() {
    let mut discovered = Vec::new();
    for i in 0..120 {
        discovered.push(format!("/d/img{}.jpg", i));
        discovered.push(format!("/d/note{}.txt", i));
    }
    let mut s = ScanSession::new(discovered);
    assert_eq!(s.total_files(), 120);
    let mut finish_all = |s: &mut ScanSession, b: &Vec<(usize, String)>| {
        for (i, _) in b {
            s.file_done(*i, None);
        }
    };
    let b1 = s.next_batch();
    finish_all(&mut s, &b1);
    let b2 = s.next_batch();
    finish_all(&mut s, &b2);
    let b3 = s.next_batch();
    finish_all(&mut s, &b3);
    let b4 = s.next_batch();
    assert_eq!((b1.len(), b2.len(), b3.len(), b4.len()), (BATCH_SIZE, BATCH_SIZE, 20, 0));
    assert_eq!(b1[0], (0, "/d/img0.jpg".to_string()));
    assert_eq!(b2[0], (50, "/d/img50.jpg".to_string()));
    assert_eq!(b3[19], (119, "/d/img119.jpg".to_string()));
}

#[test]
fn progress_rises_and_ends_at_total() {
    let paths: Vec<String> = vec!["/d/A.CR2", "/d/A.JPG", "/d/b.png"].into_iter().map(String::from).collect();
    let mut s = ScanSession::new(paths);
    let batch = s.next_batch();
    let mut currents = Vec::new();
    for (i, p) in batch.iter().rev() {
        let stat = FileStat { size: 1, modified: None };
        let photo = if *i == 2 { None } else { process_photo_parallel(p, Some(stat), ExifData::default(), None, now()) };
        let ev = s.file_done(*i, photo);
        assert_eq!(ev.total, 3);
        currents.push(ev.current);
        assert_eq!(ev.current_file.as_deref(), Some(p.rsplit('/').next().unwrap()));
    }
    assert_eq!(currents, vec![1, 2, 3]);
    let (photos, last) = s.finish();
    assert_eq!((last.current, last.total), (3, 3));
    assert!(last.current_file.is_none());
    assert_eq!(photos.len(), 2);
    assert_eq!(photos[0].file_path, "/d/A.CR2");
    assert_eq!(photos[1].file_path, "/d/A.JPG");
    assert_eq!(photos[0].paired_with.as_ref(), Some(&photos[1].id));
    assert_eq!(photos[1].paired_with.as_ref(), Some(&photos[0].id));
}

#[test]
fn empty_scan_reports_zero_of_zero() {
    let mut s = ScanSession::new(Vec::new());
    assert!(s.next_batch().is_empty());
    let (photos, last) = s.finish();
    assert!(photos.is_empty());
    assert_eq!((last.current, last.total), (0, 0));
}
