use quantfocus::engine::{advance, EngineCommand, EngineFault, EnginePhase, ScatterData};
use quantfocus::formation::{to_grayscale_bytes, LookupTable, TransferCurve, MAX_DIM, MIN_DIM};
use quantfocus::manager::{EngineOutput, SimulationManager};
use quantfocus::parameters::{CalibrationMode, SimulationParameters};
use quantfocus::results::SimulationResult;

fn milli(v: f64) -> i64 {
    (v * 1000.0).round() as i64
}

fn grid(data: Vec<u64>, rows: i64, cols: i64) -> ScatterData {
    ScatterData::from_raw(data, rows, cols).expect("valid grid")
}

#[test]
fn test_simulation_param_creation() {
    let params = SimulationParameters::new(milli(20.0), milli(5.0), 256, milli(10.0));
    assert!(params.is_ok());
    let params = params.unwrap();
    assert_eq!(params.energy_kev, milli(20.0));
    match params.mode {
        CalibrationMode::Probe { current_na, resolution, distance_mm } => {
            assert_eq!(current_na, milli(5.0));
            assert_eq!(resolution, 256);
            assert_eq!(distance_mm, milli(10.0));
        }
        _ => panic!("expected probe calibration"),
    }
}

#[test]
fn energy_below_one_kev_is_rejected() {
    let r = SimulationParameters::new(milli(0.5), milli(5.0), 256, milli(10.0));
    match r {
        Err(e) => {
            assert_eq!(e.field, "energy_kev");
        }
        Ok(_) => panic!("0.5 keV must be rejected"),
    }
}

#[test]
fn each_probe_field_names_its_error() {
    assert_eq!(
        SimulationParameters::new(milli(200.0), 1, 1, 1).unwrap_err().field,
        "energy_kev"
    );
    assert_eq!(
        SimulationParameters::new(milli(20.0), 0, 1, 1).unwrap_err().field,
        "current_na"
    );
    assert_eq!(
        SimulationParameters::new(milli(20.0), 1, 0, 1).unwrap_err().field,
        "resolution"
    );
    assert_eq!(
        SimulationParameters::new(milli(20.0), 1, 1, -3).unwrap_err().field,
        "distance_mm"
    );
}

#[test]
fn each_specimen_field_names_its_error() {
    assert_eq!(
        SimulationParameters::new_specimen(0, 1, 0, 1).unwrap_err().field,
        "energy_kev"
    );
    assert_eq!(
        SimulationParameters::new_specimen(milli(20.0), 0, 0, 1).unwrap_err().field,
        "thickness_um"
    );
    assert_eq!(
        SimulationParameters::new_specimen(milli(20.0), 1, -1, 1).unwrap_err().field,
        "angle_spread_rad"
    );
    assert_eq!(
        SimulationParameters::new_specimen(milli(20.0), 1, 0, 0).unwrap_err().field,
        "electron_count"
    );
}

#[test]
fn degrees_convert_before_validation() {
    // 180 degrees is pi radians: 3141.59... thousandths round to 3142.
    let p = SimulationParameters::from_degrees(milli(20.0), milli(1.0), milli(180.0), 1000)
        .expect("valid specimen parameters");
    match p.mode {
        CalibrationMode::Specimen { angle_spread_rad, .. } => {
            assert_eq!(angle_spread_rad, 3142);
        }
        _ => panic!("expected specimen calibration"),
    }
    // A negative spread must still be rejected, not silently converted.
    let bad = SimulationParameters::from_degrees(milli(20.0), milli(1.0), milli(-10.0), 1000);
    assert_eq!(bad.unwrap_err().field, "angle_spread_rad");
}

#[test]
fn formation_matches_reference_scenario() {
    // grid [[0, 255], [128, 64]], identity curve, no lookup table.
    let data: Vec<u64> = vec![0, 255, 128, 64];
    let curve = TransferCurve::linear();
    let raster = to_grayscale_bytes(&data, 2, 2, &curve, None);
    assert_eq!(raster.width, 2);
    assert_eq!(raster.height, 2);
    assert_eq!(raster.buffer, vec![0u8, 255, 128, 64]);
}

#[test]
fn constant_grid_forms_black() {
    let data: Vec<u64> = vec![77; 9];
    let curve = TransferCurve::linear();
    let raster = to_grayscale_bytes(&data, 3, 3, &curve, None);
    assert!(raster.buffer.iter().all(|&b| b == 0));
}

#[test]
fn formation_is_monotone_in_the_input() {
    let data: Vec<u64> = vec![5, 9, 9, 13, 40, 1000, 0, 500, 499];
    let curve = TransferCurve::linear();
    let raster = to_grayscale_bytes(&data, 3, 3, &curve, None);
    for i in 0..data.len() {
        for j in 0..data.len() {
            if data[i] <= data[j] {
                assert!(raster.buffer[i] <= raster.buffer[j]);
            }
        }
    }
}

#[test]
fn lookup_table_remaps_every_byte() {
    let inverted: Vec<u8> = (0..=255u8).rev().collect();
    let lut = LookupTable::from_entries(inverted).expect("256 entries");
    let data: Vec<u64> = vec![0, 255, 128, 64];
    let curve = TransferCurve::linear();
    let raster = to_grayscale_bytes(&data, 2, 2, &curve, Some(&lut));
    assert_eq!(raster.buffer, vec![255u8, 0, 127, 191]);
}

#[test]
fn lookup_table_needs_exactly_256_entries() {
    assert_eq!(LookupTable::from_entries(vec![0u8; 255]).err(), Some(255));
    assert!(LookupTable::from_entries(vec![0u8; 256]).is_ok());
}

#[test]
fn transfer_curve_rejects_bad_samplings() {
    assert!(TransferCurve::from_levels(vec![0u8; 100]).is_none());
    let mut starts_high = vec![0u8; 256];
    starts_high[0] = 1;
    assert!(TransferCurve::from_levels(starts_high).is_none());
    let mut decreasing: Vec<u8> = (0..=255u8).collect();
    decreasing[200] = 0;
    assert!(TransferCurve::from_levels(decreasing).is_none());
    let identity: Vec<u8> = (0..=255u8).collect();
    assert!(TransferCurve::from_levels(identity).is_some());
}

#[test]
fn oversized_grid_is_downscaled_to_the_ceiling() {
    // A 8192-wide, 2-tall ramp: the larger side must land on MAX_DIM and
    // the smaller side on the MIN_DIM floor.
    let width = 8192usize;
    let height = 2usize;
    let data: Vec<u64> = (0..(width * height) as u64).collect();
    let curve = TransferCurve::linear();
    let raster = to_grayscale_bytes(&data, height, width, &curve, None);
    assert_eq!(raster.width, MAX_DIM);
    assert_eq!(raster.height, MIN_DIM);
    assert_eq!(raster.buffer.len(), MAX_DIM * MIN_DIM);
    // Nearest-neighbour sampling: output pixel (y, x) comes from source
    // (y * height / out_h, x * width / out_w).
    let sx = 100 * width / MAX_DIM;
    let expected = {
        let v = data[sx] as f64;
        let max = (width * height - 1) as f64;
        (v / max * 255.0).round() as u8
    };
    assert_eq!(raster.buffer[100], expected);
}

#[test]
fn aspect_ratio_is_kept_within_rounding() {
    // 10000 x 5000 halves exactly: 4096 x 2048.
    let width = 10000usize;
    let height = 5000usize;
    let data: Vec<u64> = vec![1; width * height];
    let curve = TransferCurve::linear();
    let raster = to_grayscale_bytes(&data, height, width, &curve, None);
    assert_eq!(raster.width, 4096);
    assert_eq!(raster.height, 2048);
}

#[test]
fn run_all_returns_results_in_enqueue_order() {
    let mut manager = SimulationManager::new();
    let first = SimulationParameters::new(milli(10.0), milli(5.0), 4, milli(10.0)).unwrap();
    let second = SimulationParameters::new(milli(20.0), milli(5.0), 4, milli(10.0)).unwrap();
    manager.enqueue(first);
    manager.enqueue(second);
    let outputs = vec![
        EngineOutput {
            scatter: grid(vec![1, 2, 3, 4], 2, 2),
            image: grid(vec![10, 20, 30, 40], 2, 2),
        },
        EngineOutput {
            scatter: grid(vec![5, 6, 7, 8], 2, 2),
            image: grid(vec![40, 30, 20, 10], 2, 2),
        },
    ];
    let results: Vec<SimulationResult> = manager.run_all(outputs);
    assert_eq!(results.len(), 2);
    assert_eq!(results[0].params.energy_kev, milli(10.0));
    assert_eq!(results[1].params.energy_kev, milli(20.0));
    assert_eq!(results[0].scatter.data, vec![1, 2, 3, 4]);
    assert_eq!(results[1].scatter.data, vec![5, 6, 7, 8]);
    // The rasters are the formed rendered grids, in the same order.
    assert_eq!(results[0].image_buffer, vec![0u8, 85, 170, 255]);
    assert_eq!(results[1].image_buffer, vec![255u8, 170, 85, 0]);
    // The taken queue is gone: running again with no outputs yields nothing.
    let empty: Vec<SimulationResult> = manager.run_all(Vec::new());
    assert_eq!(empty.len(), 0);
}

#[test]
fn clear_discards_pending_jobs() {
    let mut manager = SimulationManager::new();
    let p = SimulationParameters::new(milli(10.0), milli(5.0), 4, milli(10.0)).unwrap();
    manager.enqueue(p);
    manager.clear();
    let results = manager.run_all(Vec::new());
    assert_eq!(results.len(), 0);
}

#[test]
fn engine_grid_validation() {
    match ScatterData::from_raw(vec![], 0, 5) {
        Err(EngineFault::BadDimensions { rows, cols }) => {
            assert_eq!((rows, cols), (0, 5));
        }
        _ => panic!("zero rows must be a fault"),
    }
    match ScatterData::from_raw(vec![1, 2, 3], 2, 2) {
        Err(EngineFault::LengthMismatch { expected, actual }) => {
            assert_eq!(expected, 4);
            assert_eq!(actual, 3);
        }
        _ => panic!("short buffer must be a fault"),
    }
    let g = ScatterData::from_raw(vec![1, 2, 3, 4, 5, 6], 2, 3).unwrap();
    assert_eq!((g.rows, g.cols), (2, 3));
}

#[test]
fn engine_sequence_admits_only_the_contract_order() {
    let mut phase = EnginePhase::Idle;
    for cmd in [
        EngineCommand::Initialize,
        EngineCommand::Execute,
        EngineCommand::FetchScatter,
        EngineCommand::FetchImage,
    ] {
        phase = advance(phase, cmd).expect("legal step");
    }
    assert!(matches!(phase, EnginePhase::ImageFetched));
    // Out-of-order commands are refused...
    assert!(advance(EnginePhase::Idle, EngineCommand::Execute).is_none());
    assert!(advance(EnginePhase::Initialized, EngineCommand::FetchScatter).is_none());
    assert!(advance(EnginePhase::Executed, EngineCommand::FetchImage).is_none());
    // ...but re-initialization is always a legal recovery.
    assert!(advance(EnginePhase::Executed, EngineCommand::Initialize).is_some());
}
