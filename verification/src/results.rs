//! The outcome of one completed simulation job.

use vstd::prelude::*;
use crate::engine::ScatterData;
use crate::formation::{
    identity_levels, is_formed_raster, to_grayscale_bytes, RasterImage, TransferCurve,
};
use crate::parameters::SimulationParameters;

verus! {

/// One job's complete outcome: the parameters that drove it, the raw
/// scattering grid, and the 8-bit raster formed from the engine's own
/// rendered grid. Immutable once created.
pub struct SimulationResult {
    pub params: SimulationParameters,
    pub scatter: ScatterData,
    pub image_buffer: Vec<u8>,
    pub width: usize,
    pub height: usize,
}

impl SimulationResult {
    /// The raster invariant, and a sound scatter grid underneath it.
    pub open spec fn wf(&self) -> bool {
        &&& self.scatter.wf()
        &&& self.image_buffer@.len() == self.width * self.height
    }

    /// Whether this result is what forming `image` under `params`
    /// produces: the raster is the identity-curve, no-lookup formation
    /// of the rendered grid, and the scatter grid rides along
    /// untouched.
    pub open spec fn is_result_of(
        &self,
        params: SimulationParameters,
        scatter: ScatterData,
        image: ScatterData,
    ) -> bool {
        &&& self.params == params
        &&& self.scatter == scatter
        &&& is_formed_raster(
            image.data@,
            image.cols as int,
            image.rows as int,
            identity_levels(),
            None,
            self.image_buffer@,
            self.width as int,
            self.height as int,
        )
    }

    /// Builds the result for one job from the engine's two grids,
    /// forming the raster from the rendered grid with the identity
    /// curve and no lookup table.
    pub fn from_scatter(scatter: ScatterData, params: &SimulationParameters, image: ScatterData)
        -> (r: SimulationResult)
        requires
            scatter.wf(),
            image.wf(),
        ensures
            r.wf(),
            r.is_result_of(*params, scatter, image),
    {
        let curve = TransferCurve::linear();
        let raster: RasterImage = to_grayscale_bytes(
            &image.data,
            image.rows,
            image.cols,
            &curve,
            None,
        );
        SimulationResult {
            params: *params,
            scatter,
            image_buffer: raster.buffer,
            width: raster.width,
            height: raster.height,
        }
    }

    /// Encodes this result's raster as PNG file bytes with its
    /// parameters embedded as metadata; the caller writes them out.
    pub fn save_png(&self) -> (r: Result<Vec<u8>, crate::export::ExportError>)
        requires
            self.params.wf(),
            self.width <= u32::MAX,
            self.height <= u32::MAX,
        ensures
            self.image_buffer@.len() != self.width * self.height || self.width == 0
                || self.height == 0 ==> r == Err::<Vec<u8>, crate::export::ExportError>(
                crate::export::ExportError::Encoding,
            ),
            self.image_buffer@.len() == self.width * self.height && self.width > 0 && self.height
                > 0 ==> r is Ok,
            r matches Ok(bytes) ==> self.image_buffer@.len() == self.width * self.height
                && bytes@ == crate::export::png_encoding(
                self.image_buffer@,
                self.width as nat,
                self.height as nat,
                crate::export::spec_records(self.params),
            ),
    {
        crate::export::save_png_with_metadata(
            &self.image_buffer,
            self.width as u32,
            self.height as u32,
            &self.params,
        )
    }
}

} // verus!
