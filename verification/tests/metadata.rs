use quantfocus::export::{
    metadata_records, params_from_records, save_png, save_png_with_metadata, ExportError,
};
use quantfocus::engine::ScatterData;
use quantfocus::parameters::{CalibrationMode, SimulationParameters};
use quantfocus::results::SimulationResult;
use quantfocus::units::{format_decimal, format_milli, parse_int, parse_milli};

fn milli(v: f64) -> i64 {
    (v * 1000.0).round() as i64
}

#[test]
fn milli_values_render_like_a_float_formatter() {
    assert_eq!(format_milli(20_000), "20");
    assert_eq!(format_milli(8_500), "8.5");
    assert_eq!(format_milli(8_505), "8.505");
    assert_eq!(format_milli(50), "0.05");
    assert_eq!(format_milli(5), "0.005");
    assert_eq!(format_milli(0), "0");
    assert_eq!(format_decimal(0), "0");
    assert_eq!(format_decimal(256), "256");
    assert_eq!(format_decimal(18_446_744_073_709_551_615), "18446744073709551615");
}

#[test]
fn milli_values_parse_back() {
    for v in [0u64, 1, 5, 50, 999, 1000, 8_505, 20_000, 123_456_789] {
        assert_eq!(parse_milli(&format_milli(v)), Some(v));
    }
    assert_eq!(parse_milli("20"), Some(20_000));
    assert_eq!(parse_milli("8.5"), Some(8_500));
    assert_eq!(parse_milli(""), None);
    assert_eq!(parse_milli("1.2345"), None);
    assert_eq!(parse_milli("abc"), None);
    assert_eq!(parse_milli("1."), None);
    assert_eq!(parse_milli(".5"), None);
    assert_eq!(parse_int("256"), Some(256));
    assert_eq!(parse_int("2.5"), None);
    assert_eq!(parse_int(""), None);
}

#[test]
fn records_round_trip_without_a_file() {
    let p = SimulationParameters::new(milli(20.0), milli(5.5), 256, milli(10.0)).unwrap();
    let records = metadata_records(&p);
    assert_eq!(records[0].0, "Energy_keV");
    assert_eq!(records[0].1, "20");
    assert_eq!(records[1].0, "Current_nA");
    assert_eq!(records[1].1, "5.5");
    assert_eq!(records[2].0, "Resolution");
    assert_eq!(records[2].1, "256");
    assert_eq!(records[3].0, "Distance_mm");
    assert_eq!(records[3].1, "10");
    let back = params_from_records(&records).expect("records parse back");
    assert_eq!(back, p);
}

#[test]
fn specimen_records_round_trip() {
    let p = SimulationParameters::new_specimen(milli(30.0), milli(0.2), 3142, 100_000).unwrap();
    let records = metadata_records(&p);
    assert_eq!(records[1].0, "Thickness_um");
    assert_eq!(records[1].1, "0.2");
    assert_eq!(records[2].0, "AngleSpread_rad");
    assert_eq!(records[2].1, "3.142");
    assert_eq!(records[3].0, "NumElectrons");
    assert_eq!(records[3].1, "100000");
    let back = params_from_records(&records).expect("records parse back");
    assert_eq!(back, p);
}

#[test]
fn mangled_records_do_not_parse() {
    let p = SimulationParameters::new(milli(20.0), milli(5.0), 256, milli(10.0)).unwrap();
    let mut records = metadata_records(&p);
    records[0].1 = String::from("not a number");
    assert!(params_from_records(&records).is_none());
    let mut shuffled = metadata_records(&p);
    shuffled.swap(1, 2);
    assert!(params_from_records(&shuffled).is_none());
    let mut short = metadata_records(&p);
    short.pop();
    assert!(params_from_records(&short).is_none());
    // An in-range but renamed key is no record of ours.
    let mut renamed = metadata_records(&p);
    renamed[3].0 = String::from("Distance_km");
    assert!(params_from_records(&renamed).is_none());
}

#[test]
fn exported_png_round_trips_pixels_and_metadata() {
    let p = SimulationParameters::new(milli(17.5), milli(2.25), 64, milli(9.001)).unwrap();
    let buffer: Vec<u8> = (0..64u16).map(|v| (v * 4) as u8).collect();
    let bytes = save_png_with_metadata(&buffer, 8, 8, &p).expect("encoding succeeds");

    let decoder = png::Decoder::new(std::io::Cursor::new(&bytes[..]));
    let mut reader = decoder.read_info().expect("valid png");
    let mut pixels = vec![0u8; reader.output_buffer_size().unwrap()];
    let info = reader.next_frame(&mut pixels).expect("frame");
    assert_eq!((info.width, info.height), (8, 8));
    pixels.truncate(info.buffer_size());
    assert_eq!(pixels, buffer);

    let records: Vec<(String, String)> = reader
        .info()
        .uncompressed_latin1_text
        .iter()
        .map(|chunk| (chunk.keyword.clone(), chunk.text.clone()))
        .collect();
    let back = params_from_records(&records).expect("metadata parses back");
    assert_eq!(back, p);
    assert_eq!(back.energy_kev, milli(17.5));
    match back.mode {
        CalibrationMode::Probe { current_na, resolution, distance_mm } => {
            assert_eq!(current_na, milli(2.25));
            assert_eq!(resolution, 64);
            assert_eq!(distance_mm, milli(9.001));
        }
        _ => panic!("expected probe calibration"),
    }
}

#[test]
fn plain_png_export_round_trips_pixels() {
    let buffer: Vec<u8> = vec![0, 128, 255, 7, 9, 200];
    let bytes = save_png(&buffer, 3, 2).expect("encoding succeeds");
    let decoder = png::Decoder::new(std::io::Cursor::new(&bytes[..]));
    let mut reader = decoder.read_info().expect("valid png");
    let mut pixels = vec![0u8; reader.output_buffer_size().unwrap()];
    let info = reader.next_frame(&mut pixels).expect("frame");
    assert_eq!((info.width, info.height), (3, 2));
    pixels.truncate(info.buffer_size());
    assert_eq!(pixels, buffer);
    assert!(reader.info().uncompressed_latin1_text.is_empty());
}

#[test]
fn export_refuses_a_mismatched_buffer() {
    let p = SimulationParameters::new(milli(20.0), milli(5.0), 256, milli(10.0)).unwrap();
    assert_eq!(
        save_png_with_metadata(&vec![0u8; 5], 2, 2, &p),
        Err(ExportError::Encoding)
    );
    assert_eq!(save_png(&vec![0u8; 5], 2, 2), Err(ExportError::Encoding));
    assert_eq!(save_png(&vec![], 0, 2), Err(ExportError::Encoding));
}

#[test]
fn result_save_png_embeds_its_own_parameters() {
    let p = SimulationParameters::new(milli(12.0), milli(1.0), 2, milli(3.0)).unwrap();
    let scatter = ScatterData::from_raw(vec![9, 9, 9, 9], 2, 2).unwrap();
    let image = ScatterData::from_raw(vec![0, 100, 200, 300], 2, 2).unwrap();
    let result = SimulationResult::from_scatter(scatter, &p, image);
    assert_eq!(result.params, p);
    assert_eq!((result.width, result.height), (2, 2));
    let bytes = result.save_png().expect("encoding succeeds");
    let decoder = png::Decoder::new(std::io::Cursor::new(&bytes[..]));
    let reader = decoder.read_info().expect("valid png");
    let records: Vec<(String, String)> = reader
        .info()
        .uncompressed_latin1_text
        .iter()
        .map(|chunk| (chunk.keyword.clone(), chunk.text.clone()))
        .collect();
    assert_eq!(params_from_records(&records), Some(p));
}
