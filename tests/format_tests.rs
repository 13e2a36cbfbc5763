use photo_scan::format::{display_name, file_extension, file_stem, file_type, is_raw_file, is_supported_file};

#[test]
fn supported_extensions_in_any_case() {
    for p in [
        "a/IMG.JpG", "b.jpeg", "c.JPEG", "d.png", "e.TIFF", "f.tif", "g.Cr2", "h.cr3", "i.ARW",
        "j.nef", "k.DnG",
    ] {
        assert!(is_supported_file(p), "{}", p);
    }
}

#[test]
fn unsupported_extensions_rejected() {
    for p in ["x.gif", "noext", ".jpg", "dir.jpg/file", "x.", "a/b/..", "x.jpgx", "x.mov", ""] {
        assert!(!is_supported_file(p), "{}", p);
    }
}

#[test]
fn raw_and_raster_are_disjoint() {
    for p in ["a.cr2", "a.CR3", "a.arw", "a.NEF", "a.dng"] {
        assert!(is_raw_file(p));
        assert!(is_supported_file(p));
    }
    for p in ["a.jpg", "a.JPEG", "a.png", "a.tiff", "a.TIF", "a.gif", "noext"] {
        assert!(!is_raw_file(p));
    }
}

#[test]
fn path_parts() {
    assert_eq!(file_extension("/photos/2024/IMG_01.CR2"), Some("CR2"));
    assert_eq!(file_extension("/photos/archive.tar.gz"), Some("gz"));
    assert_eq!(file_extension("/photos/.hidden"), None);
    assert_eq!(file_stem("/photos/2024/IMG_01.CR2"), Some("IMG_01"));
    assert_eq!(file_stem("/photos/.hidden"), Some(".hidden"));
    assert_eq!(file_stem("/photos/"), None);
    assert_eq!(display_name("/photos/2024/IMG_01.CR2"), "IMG_01.CR2");
    assert_eq!(display_name("/photos/"), "unknown");
}

#[test]
fn file_type_is_upper_case_extension() {
    assert_eq!(file_type("/a/b.jpeg"), "JPEG");
    assert_eq!(file_type("/a/b.Cr2"), "CR2");
    assert_eq!(file_type("/a/noext"), "unknown");
}
