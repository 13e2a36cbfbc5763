//! The records that a scan produces and that filters and statistics read.
use vstd::prelude::*;

verus! {

/// An instant in UTC: whole seconds since the Unix epoch and the nanoseconds
/// past that second.
#[derive(Clone, Copy, Debug, PartialEq, Eq, Structural)]
pub struct UtcTime {
    pub secs: i64,
    pub nanos: u32,
}

/// An unsigned rational reading, as capture metadata stores it.
#[derive(Clone, Copy, Debug, PartialEq, Eq, Structural)]
pub struct Rational {
    pub num: u32,
    pub denom: u32,
}

/// Capture metadata; every field is independently optional.
#[derive(Clone, Debug)]
pub struct ExifData {
    pub camera_make: Option<String>,
    pub camera_model: Option<String>,
    pub lens_model: Option<String>,
    pub focal_length: Option<Rational>,
    pub aperture: Option<Rational>,
    pub shutter_speed: Option<String>,
    pub iso: Option<u32>,
    pub exposure_mode: Option<String>,
    pub flash: Option<String>,
    pub white_balance: Option<String>,
    pub date_taken: Option<UtcTime>,
    pub width: Option<u32>,
    pub height: Option<u32>,
    pub orientation: Option<u16>,
}

/// The record with every field absent.
pub open spec fn is_empty_exif(e: ExifData) -> bool {
    &&& e.camera_make is None
    &&& e.camera_model is None
    &&& e.lens_model is None
    &&& e.focal_length is None
    &&& e.aperture is None
    &&& e.shutter_speed is None
    &&& e.iso is None
    &&& e.exposure_mode is None
    &&& e.flash is None
    &&& e.white_balance is None
    &&& e.date_taken is None
    &&& e.width is None
    &&& e.height is None
    &&& e.orientation is None
}

impl Default for ExifData {
    fn default() -> (r: ExifData)
        ensures
            is_empty_exif(r),
    {
        ExifData {
            camera_make: None,
            camera_model: None,
            lens_model: None,
            focal_length: None,
            aperture: None,
            shutter_speed: None,
            iso: None,
            exposure_mode: None,
            flash: None,
            white_balance: None,
            date_taken: None,
            width: None,
            height: None,
            orientation: None,
        }
    }
}

/// One indexed file.
#[derive(Clone, Debug)]
pub struct Photo {
    pub id: String,
    pub file_path: String,
    pub file_name: String,
    pub file_size: u64,
    pub file_type: String,
    pub thumbnail: Option<String>,
    pub exif: ExifData,
    pub created_at: UtcTime,
    pub modified_at: UtcTime,
    pub paired_with: Option<String>,
}

/// A filter over a collection; an absent field places no constraint.
#[derive(Clone, Debug)]
pub struct PhotoFilter {
    pub camera_make: Option<String>,
    pub camera_model: Option<String>,
    pub lens_model: Option<String>,
    pub focal_length_range: Option<(Rational, Rational)>,
    pub aperture_range: Option<(Rational, Rational)>,
    pub iso_range: Option<(u32, u32)>,
    pub date_range: Option<(UtcTime, UtcTime)>,
    pub file_type: Option<String>,
}

/// A snapshot of a running scan: how many files are done, out of how many,
/// and which one finished last (none in the closing snapshot).
#[derive(Clone, Debug)]
pub struct ScanProgress {
    pub current: usize,
    pub total: usize,
    pub current_file: Option<String>,
}

} // verus!
