//! Lossless export of a raster with embedded provenance metadata.
//!
//! The exporter produces the bytes of a single-channel, 8-bit-depth PNG
//! file whose metadata section carries one text record per parameter
//! field, keys fixed per calibration mode, written ahead of the pixel
//! data. Writing those bytes to a filesystem is the caller's business;
//! the record formatting, its inverse, and the buffer checks live here
//! and are verified.

use vstd::prelude::*;
use vstd::string::StringExecFns;
use crate::parameters::{CalibrationMode, SimulationParameters};
use crate::units::{
    dec_digits, format_decimal, format_milli, lemma_milli_roundtrip, milli_chars, parse_int,
    parse_milli, spec_parse_int, spec_parse_milli,
};

verus! {

/// Why an export failed.
#[derive(Clone, Copy, PartialEq, Eq, Structural, Debug)]
pub enum ExportError {
    /// A filesystem failure while writing the encoded bytes out; raised
    /// by callers that do the writing, never by the in-memory encoder.
    Io,
    /// The raster buffer does not describe an encodable image: its
    /// length does not equal `width * height`, a dimension is zero, or
    /// the encoder refused the data.
    Encoding,
}

/// The metadata records for a parameter set, in file order: one
/// `(key, value)` per field, keys fixed by the calibration mode, values
/// in canonical decimal.
pub open spec fn spec_records(p: SimulationParameters) -> Seq<(Seq<char>, Seq<char>)>
    recommends
        p.wf(),
{
    match p.mode {
        CalibrationMode::Probe { current_na, resolution, distance_mm } => seq![
            ("Energy_keV"@, milli_chars(p.energy_kev as nat)),
            ("Current_nA"@, milli_chars(current_na as nat)),
            ("Resolution"@, dec_digits(resolution as nat)),
            ("Distance_mm"@, milli_chars(distance_mm as nat)),
        ],
        CalibrationMode::Specimen { thickness_um, angle_spread_rad, electron_count } => seq![
            ("Energy_keV"@, milli_chars(p.energy_kev as nat)),
            ("Thickness_um"@, milli_chars(thickness_um as nat)),
            ("AngleSpread_rad"@, milli_chars(angle_spread_rad as nat)),
            ("NumElectrons"@, dec_digits(electron_count as nat)),
        ],
    }
}

/// The views of a list of owned text records.
pub open spec fn text_views(ts: Seq<(String, String)>) -> Seq<(Seq<char>, Seq<char>)> {
    ts.map_values(|t: (String, String)| (t.0@, t.1@))
}

/// Renders the metadata records of a parameter set.
pub fn metadata_records(params: &SimulationParameters) -> (r: Vec<(String, String)>)
    requires
        params.wf(),
    ensures
        text_views(r@) == spec_records(*params),
{
    let mut out: Vec<(String, String)> = Vec::new();
    out.push((String::from_str("Energy_keV"), format_milli(params.energy_kev as u64)));
    match params.mode {
        CalibrationMode::Probe { current_na, resolution, distance_mm } => {
            out.push((String::from_str("Current_nA"), format_milli(current_na as u64)));
            out.push((String::from_str("Resolution"), format_decimal(resolution as u64)));
            out.push((String::from_str("Distance_mm"), format_milli(distance_mm as u64)));
        },
        CalibrationMode::Specimen { thickness_um, angle_spread_rad, electron_count } => {
            out.push((String::from_str("Thickness_um"), format_milli(thickness_um as u64)));
            out.push(
                (String::from_str("AngleSpread_rad"), format_milli(angle_spread_rad as u64)),
            );
            out.push((String::from_str("NumElectrons"), format_decimal(electron_count)));
        },
    }
    proof {
        assert(text_views(out@) =~= spec_records(*params));
    }
    out
}

/// What a list of metadata records denotes: the exact parameter set
/// whose records they are, when the keys are one calibration mode's
/// fixed set in file order, every value parses, and the parsed fields
/// pass validation; nothing otherwise.
pub open spec fn spec_params_from_records(rs: Seq<(Seq<char>, Seq<char>)>) -> Option<
    SimulationParameters,
> {
    if rs.len() != 4 || rs[0].0 != "Energy_keV"@ {
        None
    } else {
        match spec_parse_milli(rs[0].1) {
            None => None,
            Some(energy) => {
                if energy > i64::MAX {
                    None
                } else if rs[1].0 == "Current_nA"@ && rs[2].0 == "Resolution"@ && rs[3].0
                    == "Distance_mm"@ {
                    spec_probe_from_values(energy as i64, rs[1].1, rs[2].1, rs[3].1)
                } else if rs[1].0 == "Thickness_um"@ && rs[2].0 == "AngleSpread_rad"@ && rs[3].0
                    == "NumElectrons"@ {
                    spec_specimen_from_values(energy as i64, rs[1].1, rs[2].1, rs[3].1)
                } else {
                    None
                }
            },
        }
    }
}

/// The probe-mode half of `spec_params_from_records`.
pub open spec fn spec_probe_from_values(
    energy: i64,
    current: Seq<char>,
    resolution: Seq<char>,
    distance: Seq<char>,
) -> Option<SimulationParameters> {
    match (spec_parse_milli(current), spec_parse_int(resolution), spec_parse_milli(distance)) {
        (Some(c), Some(res), Some(d)) => {
            if c > i64::MAX || res > i32::MAX || d > i64::MAX {
                None
            } else {
                let p = SimulationParameters {
                    energy_kev: energy,
                    mode: CalibrationMode::Probe {
                        current_na: c as i64,
                        resolution: res as i32,
                        distance_mm: d as i64,
                    },
                };
                if p.wf() {
                    Some(p)
                } else {
                    None
                }
            }
        },
        _ => None,
    }
}

/// The specimen-mode half of `spec_params_from_records`.
pub open spec fn spec_specimen_from_values(
    energy: i64,
    thickness: Seq<char>,
    spread: Seq<char>,
    electrons: Seq<char>,
) -> Option<SimulationParameters> {
    match (spec_parse_milli(thickness), spec_parse_milli(spread), spec_parse_int(electrons)) {
        (Some(t), Some(a), Some(n)) => {
            if t > i64::MAX || a > i64::MAX {
                None
            } else {
                let p = SimulationParameters {
                    energy_kev: energy,
                    mode: CalibrationMode::Specimen {
                        thickness_um: t as i64,
                        angle_spread_rad: a as i64,
                        electron_count: n,
                    },
                };
                if p.wf() {
                    Some(p)
                } else {
                    None
                }
            }
        },
        _ => None,
    }
}

/// Whether an owned string equals a literal key.
fn key_is(s: &String, key: &str) -> (r: bool)
    ensures
        r == (s@ == key@),
{
    let owned = String::from_str(key);
    *s == owned
}

/// Reads a parameter set back out of metadata records, accepting
/// exactly what `metadata_records` writes.
pub fn params_from_records(recs: &Vec<(String, String)>) -> (r: Option<SimulationParameters>)
    ensures
        r == spec_params_from_records(text_views(recs@)),
{
    let ghost rs = text_views(recs@);
    if recs.len() != 4 {
        return None;
    }
    proof {
        assert(rs[0] == (recs@[0].0@, recs@[0].1@));
        assert(rs[1] == (recs@[1].0@, recs@[1].1@));
        assert(rs[2] == (recs@[2].0@, recs@[2].1@));
        assert(rs[3] == (recs@[3].0@, recs@[3].1@));
    }
    if !key_is(&recs[0].0, "Energy_keV") {
        return None;
    }
    let energy = match parse_milli(recs[0].1.as_str()) {
        Some(e) => e,
        None => {
            return None;
        },
    };
    if energy > 0x7fff_ffff_ffff_ffff {
        return None;
    }
    if key_is(&recs[1].0, "Current_nA") && key_is(&recs[2].0, "Resolution") && key_is(
        &recs[3].0,
        "Distance_mm",
    ) {
        let c = match parse_milli(recs[1].1.as_str()) {
            Some(v) => v,
            None => {
                return None;
            },
        };
        let res = match parse_int(recs[2].1.as_str()) {
            Some(v) => v,
            None => {
                return None;
            },
        };
        let d = match parse_milli(recs[3].1.as_str()) {
            Some(v) => v,
            None => {
                return None;
            },
        };
        if c > 0x7fff_ffff_ffff_ffff || res > 0x7fff_ffff || d > 0x7fff_ffff_ffff_ffff {
            return None;
        }
        let p = SimulationParameters {
            energy_kev: energy as i64,
            mode: CalibrationMode::Probe {
                current_na: c as i64,
                resolution: res as i32,
                distance_mm: d as i64,
            },
        };
        if p.energy_kev >= 1000 && p.energy_kev <= 100_000 && c > 0 && res > 0 && d > 0 {
            Some(p)
        } else {
            None
        }
    } else if key_is(&recs[1].0, "Thickness_um") && key_is(&recs[2].0, "AngleSpread_rad")
        && key_is(&recs[3].0, "NumElectrons") {
        let t = match parse_milli(recs[1].1.as_str()) {
            Some(v) => v,
            None => {
                return None;
            },
        };
        let a = match parse_milli(recs[2].1.as_str()) {
            Some(v) => v,
            None => {
                return None;
            },
        };
        let n = match parse_int(recs[3].1.as_str()) {
            Some(v) => v,
            None => {
                return None;
            },
        };
        if t > 0x7fff_ffff_ffff_ffff || a > 0x7fff_ffff_ffff_ffff {
            return None;
        }
        let p = SimulationParameters {
            energy_kev: energy as i64,
            mode: CalibrationMode::Specimen {
                thickness_um: t as i64,
                angle_spread_rad: a as i64,
                electron_count: n,
            },
        };
        if p.energy_kev >= 1000 && p.energy_kev <= 100_000 && t > 0 && n > 0 {
            Some(p)
        } else {
            None
        }
    } else {
        None
    }
}

/// The byte content of the PNG file that encodes these pixels,
/// dimensions and text records: grayscale, 8-bit depth, text chunks
/// ahead of the pixel data. Encoding is deterministic, so the file is a
/// function of its inputs alone; its exact bytes are the encoder's
/// business and are not spelled out here.
pub uninterp spec fn png_encoding(
    pixels: Seq<u8>,
    width: nat,
    height: nat,
    texts: Seq<(Seq<char>, Seq<char>)>,
) -> Seq<u8>;

/// Whether one metadata record can be written as a tEXt chunk: the
/// keyword must give 1 to 79 bytes of Latin-1, and both halves must be
/// Latin-1 (every character at most U+00FF).
pub open spec fn record_encodable(key: Seq<char>, value: Seq<char>) -> bool {
    &&& 1 <= key.len() <= 79
    &&& forall|i: int| 0 <= i < key.len() ==> (#[trigger] key[i]) as u32 <= 255
    &&& forall|i: int| 0 <= i < value.len() ==> (#[trigger] value[i]) as u32 <= 255
}

/// Whether every record of a list is encodable.
pub open spec fn records_encodable(rs: Seq<(Seq<char>, Seq<char>)>) -> bool {
    forall|i: int| 0 <= i < rs.len() ==> record_encodable((#[trigger] rs[i]).0, rs[i].1)
}

/// Relies on `png::Encoder` writing into a `Vec<u8>`: with grayscale
/// color, 8-bit depth, one tEXt chunk per record, the encoded file is a
/// deterministic function of the pixels, the dimensions and the text
/// records. The encoder succeeds whenever both dimensions are non-zero,
/// the buffer holds one byte per pixel, and every record is encodable:
/// its only failure paths are a zero dimension at the header, a buffer
/// of the wrong length at the image write, and a non-Latin-1 or
/// wrongly-sized keyword or non-Latin-1 text at the tEXt encode; writes
/// go into a `Vec`, which cannot raise an I/O error.
#[verifier::external_body]
fn encode_grayscale_png(
    buffer: &Vec<u8>,
    width: u32,
    height: u32,
    texts: &Vec<(String, String)>,
) -> (r: Result<Vec<u8>, ExportError>)
    ensures
        r matches Ok(bytes) ==> bytes@ == png_encoding(
            buffer@,
            width as nat,
            height as nat,
            text_views(texts@),
        ),
        width > 0 && height > 0 && buffer@.len() == width * height && records_encodable(
            text_views(texts@),
        ) ==> r is Ok,
{
    let mut out: Vec<u8> = Vec::new();
    let mut enc = png::Encoder::new(&mut out, width, height);
    enc.set_color(png::ColorType::Grayscale);
    enc.set_depth(png::BitDepth::Eight);
    for t in texts.iter() {
        if enc.add_text_chunk(t.0.clone(), t.1.clone()).is_err() {
            return Err(ExportError::Encoding);
        }
    }
    let mut w = match enc.write_header() { Ok(w) => w, Err(_) => return Err(ExportError::Encoding) };
    if w.write_image_data(buffer).is_err() || w.finish().is_err() {
        return Err(ExportError::Encoding);
    }
    Ok(out)
}

/// Encodes a raw grayscale raster as PNG file bytes, with no metadata.
/// Succeeds exactly when the buffer holds one byte per pixel of a
/// non-empty `width × height` image; fails with `Encoding` otherwise.
pub fn save_png(buffer: &Vec<u8>, width: u32, height: u32) -> (r: Result<Vec<u8>, ExportError>)
    ensures
        buffer@.len() != width * height || width == 0 || height == 0 ==> r == Err::<
            Vec<u8>,
            ExportError,
        >(ExportError::Encoding),
        buffer@.len() == width * height && width > 0 && height > 0 ==> r is Ok,
        r matches Ok(bytes) ==> buffer@.len() == width * height && width > 0 && height > 0
            && bytes@ == png_encoding(
            buffer@,
            width as nat,
            height as nat,
            Seq::<(Seq<char>, Seq<char>)>::empty(),
        ),
{
    if width == 0 || height == 0 {
        return Err(ExportError::Encoding);
    }
    proof {
        assert((width as int) * (height as int) < 0x1_0000_0000 * 0x1_0000_0000) by (
        nonlinear_arith)
            requires
                0 < width < 0x1_0000_0000,
                0 < height < 0x1_0000_0000,
        ;
    }
    if (buffer.len() as u128) != (width as u128) * (height as u128) {
        return Err(ExportError::Encoding);
    }
    let texts: Vec<(String, String)> = Vec::new();
    proof {
        assert(text_views(texts@) =~= Seq::<(Seq<char>, Seq<char>)>::empty());
    }
    encode_grayscale_png(buffer, width, height, &texts)
}

/// Encodes a raw grayscale raster as PNG file bytes with the parameter
/// set embedded as text metadata, one record per field, ahead of the
/// pixel data. Succeeds exactly when the buffer holds one byte per
/// pixel of a non-empty `width × height` image; fails with `Encoding`
/// otherwise.
pub fn save_png_with_metadata(
    buffer: &Vec<u8>,
    width: u32,
    height: u32,
    params: &SimulationParameters,
) -> (r: Result<Vec<u8>, ExportError>)
    requires
        params.wf(),
    ensures
        buffer@.len() != width * height || width == 0 || height == 0 ==> r == Err::<
            Vec<u8>,
            ExportError,
        >(ExportError::Encoding),
        buffer@.len() == width * height && width > 0 && height > 0 ==> r is Ok,
        r matches Ok(bytes) ==> buffer@.len() == width * height && width > 0 && height > 0
            && bytes@ == png_encoding(
            buffer@,
            width as nat,
            height as nat,
            spec_records(*params),
        ),
{
    if width == 0 || height == 0 {
        return Err(ExportError::Encoding);
    }
    proof {
        assert((width as int) * (height as int) < 0x1_0000_0000 * 0x1_0000_0000) by (
        nonlinear_arith)
            requires
                0 < width < 0x1_0000_0000,
                0 < height < 0x1_0000_0000,
        ;
    }
    if (buffer.len() as u128) != (width as u128) * (height as u128) {
        return Err(ExportError::Encoding);
    }
    let texts = metadata_records(params);
    proof {
        lemma_spec_records_encodable(*params);
    }
    encode_grayscale_png(buffer, width, height, &texts)
}

/// The records written for a valid parameter set are always encodable:
/// fixed short ASCII keys, decimal ASCII values.
proof fn lemma_spec_records_encodable(p: SimulationParameters)
    requires
        p.wf(),
    ensures
        records_encodable(spec_records(p)),
{
    reveal_strlit("Energy_keV");
    reveal_strlit("Current_nA");
    reveal_strlit("Resolution");
    reveal_strlit("Distance_mm");
    reveal_strlit("Thickness_um");
    reveal_strlit("AngleSpread_rad");
    reveal_strlit("NumElectrons");
    let rs = spec_records(p);
    crate::units::lemma_milli_chars_latin1(p.energy_kev as nat);
    match p.mode {
        CalibrationMode::Probe { current_na, resolution, distance_mm } => {
            crate::units::lemma_milli_chars_latin1(current_na as nat);
            crate::units::lemma_dec_digits_latin1(resolution as nat);
            crate::units::lemma_milli_chars_latin1(distance_mm as nat);
        },
        CalibrationMode::Specimen { thickness_um, angle_spread_rad, electron_count } => {
            crate::units::lemma_milli_chars_latin1(thickness_um as nat);
            crate::units::lemma_milli_chars_latin1(angle_spread_rad as nat);
            crate::units::lemma_dec_digits_latin1(electron_count as nat);
        },
    }
    assert forall|i: int| 0 <= i < rs.len() implies record_encodable(
        (#[trigger] rs[i]).0,
        rs[i].1,
    ) by {
        assert(record_encodable(rs[0].0, rs[0].1));
        assert(record_encodable(rs[1].0, rs[1].1));
        assert(record_encodable(rs[2].0, rs[2].1));
        assert(record_encodable(rs[3].0, rs[3].1));
    }
}

/// Law: reading back the records written for a valid parameter set
/// yields that parameter set exactly, field for field.
#[verifier::rlimit(90)]
pub proof fn lemma_records_roundtrip(p: SimulationParameters)
    requires
        p.wf(),
    ensures
        spec_params_from_records(spec_records(p)) == Some(p),
{
    lemma_milli_roundtrip(p.energy_kev as u64);
    let rs = spec_records(p);
    assert(rs.len() == 4);
    assert(rs[0].0 == "Energy_keV"@);
    assert(rs[0].1 == milli_chars(p.energy_kev as nat));
    assert((p.energy_kev as u64) as nat == p.energy_kev as nat);
    assert(spec_parse_milli(rs[0].1) == Some(p.energy_kev as u64));
    match p.mode {
        CalibrationMode::Probe { current_na, resolution, distance_mm } => {
            lemma_milli_roundtrip(current_na as u64);
            crate::units::lemma_int_roundtrip(resolution as u64);
            lemma_milli_roundtrip(distance_mm as u64);
            assert(rs[1].0 == "Current_nA"@);
            assert(rs[2].0 == "Resolution"@);
            assert(rs[3].0 == "Distance_mm"@);
            assert(rs[1].1 == milli_chars(current_na as nat));
            assert(spec_parse_milli(rs[1].1) == Some(current_na as u64));
            assert(rs[2].1 == dec_digits(resolution as nat));
            assert(spec_parse_int(rs[2].1) == Some(resolution as u64));
            assert(spec_parse_milli(rs[3].1) == Some(distance_mm as u64));
            assert(spec_probe_from_values(p.energy_kev, rs[1].1, rs[2].1, rs[3].1) == Some(p));
            assert(spec_params_from_records(rs) == Some(p));
        },
        CalibrationMode::Specimen { thickness_um, angle_spread_rad, electron_count } => {
            lemma_milli_roundtrip(thickness_um as u64);
            lemma_milli_roundtrip(angle_spread_rad as u64);
            crate::units::lemma_int_roundtrip(electron_count);
            assert(rs[1].0 == "Thickness_um"@);
            assert(rs[2].0 == "AngleSpread_rad"@);
            assert(rs[3].0 == "NumElectrons"@);
            assert(spec_parse_milli(rs[1].1) == Some(thickness_um as u64));
            assert(spec_parse_milli(rs[2].1) == Some(angle_spread_rad as u64));
            assert(spec_parse_int(rs[3].1) == Some(electron_count));
            assert(spec_specimen_from_values(p.energy_kev, rs[1].1, rs[2].1, rs[3].1) == Some(
                p,
            ));
            assert(rs[1].0 != "Current_nA"@) by {
                reveal_strlit("Thickness_um");
                reveal_strlit("Current_nA");
            }
            assert(spec_params_from_records(rs) == Some(p));
        },
    }
}

} // verus!
