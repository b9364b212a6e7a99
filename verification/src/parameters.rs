//! Validated, immutable parameters for a single simulation run.
//!
//! Every physical magnitude is a fixed-point count of thousandths of its
//! unit (see `units`). Construction is the only validation point: a
//! `SimulationParameters` value exists only with every field inside its
//! documented range.

use vstd::prelude::*;
use vstd::string::StringExecFns;
use crate::units::deg_to_rad_milli;
use crate::units::degrees_to_radians;

verus! {

/// Rejection of one constructor argument: the offending field and the
/// constraint it broke.
#[derive(Clone, Debug)]
pub struct InvalidParameter {
    pub field: String,
    pub constraint: String,
}

/// The calibration-mode-specific half of a parameter set. The engine's
/// call signature and the exported metadata keys both follow the active
/// variant.
#[derive(Clone, Copy, PartialEq, Eq, Structural, Debug)]
pub enum CalibrationMode {
    /// Probe calibration: beam current (thousandths of nA), image
    /// resolution (pixels), and working distance (thousandths of mm).
    Probe { current_na: i64, resolution: i32, distance_mm: i64 },
    /// Specimen calibration: sample thickness (thousandths of µm),
    /// angular spread (thousandths of rad), and electron count.
    Specimen { thickness_um: i64, angle_spread_rad: i64, electron_count: u64 },
}

/// One simulation run's validated description: the beam energy
/// (thousandths of keV) and the mode-specific field group.
#[derive(Clone, Copy, PartialEq, Eq, Structural, Debug)]
pub struct SimulationParameters {
    pub energy_kev: i64,
    pub mode: CalibrationMode,
}

/// Lowest valid beam energy: 1 keV, in thousandths.
pub const ENERGY_MIN: i64 = 1_000;

/// Highest valid beam energy: 100 keV, in thousandths.
pub const ENERGY_MAX: i64 = 100_000;

impl SimulationParameters {
    /// Every field inside its documented range; established by the
    /// constructors and never broken afterwards.
    pub open spec fn wf(&self) -> bool {
        &&& ENERGY_MIN <= self.energy_kev <= ENERGY_MAX
        &&& match self.mode {
            CalibrationMode::Probe { current_na, resolution, distance_mm } => {
                &&& current_na > 0
                &&& resolution > 0
                &&& distance_mm > 0
            },
            CalibrationMode::Specimen { thickness_um, angle_spread_rad, electron_count } => {
                &&& thickness_um > 0
                &&& angle_spread_rad >= 0
                &&& electron_count > 0
            },
        }
    }

    /// Probe-calibrated parameters. Succeeds exactly when the energy
    /// lies in [1, 100] keV and current, resolution and distance are
    /// strictly positive; otherwise names the first offending field.
    pub fn new(energy_kev: i64, current_na: i64, resolution: i32, distance_mm: i64) -> (r: Result<
        SimulationParameters,
        InvalidParameter,
    >)
        ensures
            r is Ok <==> (ENERGY_MIN <= energy_kev <= ENERGY_MAX && current_na > 0 && resolution
                > 0 && distance_mm > 0),
            r matches Ok(p) ==> p.wf() && p.energy_kev == energy_kev && p.mode
                == (CalibrationMode::Probe { current_na, resolution, distance_mm }),
            !(ENERGY_MIN <= energy_kev <= ENERGY_MAX) ==> (r matches Err(e) && e.field@
                == "energy_kev"@),
            ENERGY_MIN <= energy_kev <= ENERGY_MAX && current_na <= 0 ==> (r matches Err(e)
                && e.field@ == "current_na"@),
            ENERGY_MIN <= energy_kev <= ENERGY_MAX && current_na > 0 && resolution <= 0 ==> (
            r matches Err(e) && e.field@ == "resolution"@),
            ENERGY_MIN <= energy_kev <= ENERGY_MAX && current_na > 0 && resolution > 0
                && distance_mm <= 0 ==> (r matches Err(e) && e.field@ == "distance_mm"@),
    {
        if energy_kev < ENERGY_MIN || energy_kev > ENERGY_MAX {
            return Err(invalid("energy_kev", "must lie in [1, 100] keV"));
        }
        if current_na <= 0 {
            return Err(invalid("current_na", "must be a positive current in nA"));
        }
        if resolution <= 0 {
            return Err(invalid("resolution", "must be a positive pixel count"));
        }
        if distance_mm <= 0 {
            return Err(invalid("distance_mm", "must be a positive distance in mm"));
        }
        Ok(
            SimulationParameters {
                energy_kev,
                mode: CalibrationMode::Probe { current_na, resolution, distance_mm },
            },
        )
    }

    /// Specimen-calibrated parameters. Succeeds exactly when the energy
    /// lies in [1, 100] keV, thickness and electron count are strictly
    /// positive, and the angular spread is non-negative.
    pub fn new_specimen(
        energy_kev: i64,
        thickness_um: i64,
        angle_spread_rad: i64,
        electron_count: u64,
    ) -> (r: Result<SimulationParameters, InvalidParameter>)
        ensures
            r is Ok <==> (ENERGY_MIN <= energy_kev <= ENERGY_MAX && thickness_um > 0
                && angle_spread_rad >= 0 && electron_count > 0),
            r matches Ok(p) ==> p.wf() && p.energy_kev == energy_kev && p.mode
                == (CalibrationMode::Specimen { thickness_um, angle_spread_rad, electron_count }),
            !(ENERGY_MIN <= energy_kev <= ENERGY_MAX) ==> (r matches Err(e) && e.field@
                == "energy_kev"@),
            ENERGY_MIN <= energy_kev <= ENERGY_MAX && thickness_um <= 0 ==> (r matches Err(e)
                && e.field@ == "thickness_um"@),
            ENERGY_MIN <= energy_kev <= ENERGY_MAX && thickness_um > 0 && angle_spread_rad < 0
                ==> (r matches Err(e) && e.field@ == "angle_spread_rad"@),
            ENERGY_MIN <= energy_kev <= ENERGY_MAX && thickness_um > 0 && angle_spread_rad >= 0
                && electron_count == 0 ==> (r matches Err(e) && e.field@ == "electron_count"@),
    {
        if energy_kev < ENERGY_MIN || energy_kev > ENERGY_MAX {
            return Err(invalid("energy_kev", "must lie in [1, 100] keV"));
        }
        if thickness_um <= 0 {
            return Err(invalid("thickness_um", "must be a positive thickness in um"));
        }
        if angle_spread_rad < 0 {
            return Err(invalid("angle_spread_rad", "must be a non-negative angle"));
        }
        if electron_count == 0 {
            return Err(invalid("electron_count", "must be a positive count"));
        }
        Ok(
            SimulationParameters {
                energy_kev,
                mode: CalibrationMode::Specimen {
                    thickness_um,
                    angle_spread_rad,
                    electron_count,
                },
            },
        )
    }

    /// Specimen-calibrated parameters with the angular spread given in
    /// thousandths of a degree. The spread is converted to thousandths
    /// of a radian first and then validated like every other field:
    /// the conversion cannot bypass validation.
    pub fn from_degrees(
        energy_kev: i64,
        thickness_um: i64,
        angle_spread_deg: i64,
        electron_count: u64,
    ) -> (r: Result<SimulationParameters, InvalidParameter>)
        ensures
            r is Ok <==> (ENERGY_MIN <= energy_kev <= ENERGY_MAX && thickness_um > 0
                && angle_spread_deg >= 0 && electron_count > 0),
            r matches Ok(p) ==> p.wf() && p.energy_kev == energy_kev && p.mode
                == (CalibrationMode::Specimen {
                thickness_um,
                angle_spread_rad: deg_to_rad_milli(angle_spread_deg as int) as i64,
                electron_count,
            }),
    {
        let rad = degrees_to_radians(angle_spread_deg);
        proof {
            if angle_spread_deg >= 0 {
                vstd::arithmetic::div_mod::lemma_div_pos_is_pos(
                    2 * (angle_spread_deg as int) * (
                    crate::units::MILLIRAD_PER_MILLIDEG_NUM as int) + (
                    crate::units::MILLIRAD_PER_MILLIDEG_DEN as int),
                    2 * (crate::units::MILLIRAD_PER_MILLIDEG_DEN as int),
                );
            }
        }
        SimulationParameters::new_specimen(energy_kev, thickness_um, rad, electron_count)
    }
}

/// Builds an `InvalidParameter` from the field name and its constraint.
fn invalid(field: &str, constraint: &str) -> (r: InvalidParameter)
    ensures
        r.field@ == field@,
        r.constraint@ == constraint@,
{
    InvalidParameter { field: String::from_str(field), constraint: String::from_str(constraint) }
}

} // verus!
