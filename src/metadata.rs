//! Extraction of capture metadata from the bytes of an image file.
//!
//! The container is parsed by the `exif` crate. Each field is then read on
//! its own: the text fields keep the crate's display form, and the numeric
//! ones take the first value of the expected shape; a field of another shape
//! counts as absent. When the pixel size is incomplete, the caller may probe
//! the image itself and complete the record.
use vstd::prelude::*;
use crate::photo::{ExifData, Rational};

verus! {

#[verifier::external_type_specification]
#[verifier::external_body]
pub struct ExExif(exif::Exif);

/// The value of one metadata field, by shape.
#[derive(Clone, Debug)]
pub enum FieldValue {
    Rationals(Vec<Rational>),
    Shorts(Vec<u16>),
    Longs(Vec<u32>),
    Other,
}

/// One metadata field: its display text and its value.
#[derive(Clone, Debug)]
pub struct FieldReading {
    pub text: String,
    pub value: FieldValue,
}

/// The readings of the primary image's fields, each absent where the
/// metadata lacks it.
#[derive(Clone, Debug)]
pub struct FieldReadings {
    pub make: Option<FieldReading>,
    pub model: Option<FieldReading>,
    pub lens_model: Option<FieldReading>,
    pub focal_length: Option<FieldReading>,
    pub f_number: Option<FieldReading>,
    pub sensitivity: Option<FieldReading>,
    pub exposure_time: Option<FieldReading>,
    pub width: Option<FieldReading>,
    pub length: Option<FieldReading>,
}

pub open spec fn text_of(r: Option<FieldReading>) -> Option<Seq<char>> {
    match r {
        Some(f) => Some(f.text@),
        None => None,
    }
}

pub open spec fn first_rational(r: Option<FieldReading>) -> Option<Rational> {
    match r {
        Some(FieldReading { value: FieldValue::Rationals(v), .. }) => if v@.len() > 0 {
            Some(v@[0])
        } else {
            None
        },
        _ => None,
    }
}

pub open spec fn first_short(r: Option<FieldReading>) -> Option<u32> {
    match r {
        Some(FieldReading { value: FieldValue::Shorts(v), .. }) => if v@.len() > 0 {
            Some(v@[0] as u32)
        } else {
            None
        },
        _ => None,
    }
}

pub open spec fn first_long(r: Option<FieldReading>) -> Option<u32> {
    match r {
        Some(FieldReading { value: FieldValue::Longs(v), .. }) => if v@.len() > 0 {
            Some(v@[0])
        } else {
            None
        },
        _ => None,
    }
}

pub open spec fn opt_text(o: Option<String>) -> Option<Seq<char>> {
    match o {
        Some(s) => Some(s@),
        None => None,
    }
}

/// `e` is the record that the readings `r` describe.
pub open spec fn exif_of_readings(r: FieldReadings, e: ExifData) -> bool {
    &&& opt_text(e.camera_make) == text_of(r.make)
    &&& opt_text(e.camera_model) == text_of(r.model)
    &&& opt_text(e.lens_model) == text_of(r.lens_model)
    &&& e.focal_length == first_rational(r.focal_length)
    &&& e.aperture == first_rational(r.f_number)
    &&& e.iso == first_short(r.sensitivity)
    &&& opt_text(e.shutter_speed) == text_of(r.exposure_time)
    &&& e.width == first_long(r.width)
    &&& e.height == first_long(r.length)
    &&& e.exposure_mode is None
    &&& e.flash is None
    &&& e.white_balance is None
    &&& e.date_taken is None
    &&& e.orientation is None
}

#[verifier::external_type_specification]
#[verifier::external_body]
pub struct ExTag(exif::Tag);

/// Relies on `exif::Exif::get_field` for the primary image, and on the
/// field's `display_value` for its text.
#[verifier::external_body]
fn read_field(e: &exif::Exif, tag: exif::Tag) -> (r: Option<FieldReading>) {
    e.get_field(tag, exif::In::PRIMARY).map(|f| FieldReading {
        text: f.display_value().to_string(),
        value: match &f.value {
            exif::Value::Rational(v) => FieldValue::Rationals(
                v.iter().map(|x| Rational { num: x.num, denom: x.denom }).collect(),
            ),
            exif::Value::Short(v) => FieldValue::Shorts(v.clone()),
            exif::Value::Long(v) => FieldValue::Longs(v.clone()),
            _ => FieldValue::Other,
        },
    })
}

/// What the `exif` crate reads from an image file's bytes: the readings of
/// the primary image's fields, or `None` where no metadata container is found.
pub uninterp spec fn exif_readings_of(data: Seq<u8>) -> Option<FieldReadings>;

/// Relies on `exif::Reader::read_from_container`, which finds the metadata
/// in a TIFF, JPEG, PNG, HEIF or WebP container and refuses an empty input,
/// and on the field readings above, under the `exif::Tag` constants.
#[verifier::external_body]
fn read_readings(data: &Vec<u8>) -> (r: Option<FieldReadings>)
    ensures
        r == exif_readings_of(data@),
        data@.len() == 0 ==> r is None,
{
    let mut cursor = std::io::Cursor::new(data.as_slice());
    let e = exif::Reader::new().read_from_container(&mut cursor).ok()?;
    Some(FieldReadings {
        make: read_field(&e, exif::Tag::Make),
        model: read_field(&e, exif::Tag::Model),
        lens_model: read_field(&e, exif::Tag::LensModel),
        focal_length: read_field(&e, exif::Tag::FocalLength),
        f_number: read_field(&e, exif::Tag::FNumber),
        sensitivity: read_field(&e, exif::Tag::PhotographicSensitivity),
        exposure_time: read_field(&e, exif::Tag::ExposureTime),
        width: read_field(&e, exif::Tag::ImageWidth),
        length: read_field(&e, exif::Tag::ImageLength),
    })
}

fn take_text(r: Option<FieldReading>) -> (t: Option<String>)
    ensures
        opt_text(t) == text_of(r),
{
    match r {
        Some(f) => Some(f.text),
        None => None,
    }
}

fn take_rational(r: &Option<FieldReading>) -> (x: Option<Rational>)
    ensures
        x == first_rational(*r),
{
    match r {
        Some(FieldReading { value: FieldValue::Rationals(v), .. }) => if v.len() > 0 {
            Some(v[0])
        } else {
            None
        },
        _ => None,
    }
}

fn take_short(r: &Option<FieldReading>) -> (x: Option<u32>)
    ensures
        x == first_short(*r),
{
    match r {
        Some(FieldReading { value: FieldValue::Shorts(v), .. }) => if v.len() > 0 {
            Some(v[0] as u32)
        } else {
            None
        },
        _ => None,
    }
}

fn take_long(r: &Option<FieldReading>) -> (x: Option<u32>)
    ensures
        x == first_long(*r),
{
    match r {
        Some(FieldReading { value: FieldValue::Longs(v), .. }) => if v.len() > 0 {
            Some(v[0])
        } else {
            None
        },
        _ => None,
    }
}

/// The record that a set of field readings describes.
pub fn exif_from_readings(r: FieldReadings) -> (e: ExifData)
    ensures
        exif_of_readings(r, e),
{
    let focal_length = take_rational(&r.focal_length);
    let aperture = take_rational(&r.f_number);
    let iso = take_short(&r.sensitivity);
    let width = take_long(&r.width);
    let height = take_long(&r.length);
    ExifData {
        camera_make: take_text(r.make),
        camera_model: take_text(r.model),
        lens_model: take_text(r.lens_model),
        focal_length,
        aperture,
        shutter_speed: take_text(r.exposure_time),
        iso,
        exposure_mode: None,
        flash: None,
        white_balance: None,
        date_taken: None,
        width,
        height,
        orientation: None,
    }
}

/// The metadata of an image file's bytes, or `None` where no metadata
/// container can be parsed from them (an empty file among others).
pub fn extract_exif_data(data: &Vec<u8>) -> (r: Option<ExifData>)
    ensures
        r is Some <==> exif_readings_of(data@) is Some,
        r matches Some(e) ==> exif_of_readings(exif_readings_of(data@)->0, e),
        data@.len() == 0 ==> r is None,
{
    match read_readings(data) {
        None => None,
        Some(readings) => Some(exif_from_readings(readings)),
    }
}

/// Whether a parsed record lacks its width or its height, so that the image
/// itself must be probed for them.
pub fn needs_dimension_probe(e: &ExifData) -> (r: bool)
    ensures
        r == (e.width is None || e.height is None),
{
    e.width.is_none() || e.height.is_none()
}

/// The final metadata record of a file: empty where no metadata was parsed;
/// otherwise the parsed record, whose pixel size is replaced by the probed
/// one where it was incomplete and a probe succeeded.
pub fn complete_exif(parsed: Option<ExifData>, probed: Option<(u32, u32)>) -> (e: ExifData)
    ensures
        match parsed {
            None => crate::photo::is_empty_exif(e),
            Some(p) => {
                let incomplete = p.width is None || p.height is None;
                &&& match probed {
                    Some((w, h)) if incomplete => e.width == Some(w) && e.height == Some(h),
                    _ => e.width == p.width && e.height == p.height,
                }
                &&& e.camera_make == p.camera_make && e.camera_model == p.camera_model
                &&& e.lens_model == p.lens_model && e.focal_length == p.focal_length
                &&& e.aperture == p.aperture && e.shutter_speed == p.shutter_speed
                &&& e.iso == p.iso && e.exposure_mode == p.exposure_mode && e.flash == p.flash
                &&& e.white_balance == p.white_balance && e.date_taken == p.date_taken
                &&& e.orientation == p.orientation
            },
        },
{
    match parsed {
        None => ExifData::default(),
        Some(mut p) => {
            if needs_dimension_probe(&p) {
                if let Some((w, h)) = probed {
                    p.width = Some(w);
                    p.height = Some(h);
                }
            }
            p
        },
    }
}

} // verus!
