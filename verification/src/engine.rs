//! The gateway contract to the external computation engine.
//!
//! The engine is a global, stateful, non-reentrant resource: each job
//! must run its whole command sequence — initialize, execute, fetch the
//! scatter grid, fetch the rendered grid — without another job's
//! commands interleaved. This module holds the two decidable halves of
//! that contract: which command is legal in which phase, and whether a
//! fetched buffer honours the engine's interface. The calls themselves
//! are foreign and live outside the library; their results are handed
//! in as plain values.

use vstd::prelude::*;

verus! {

/// A violation of the engine's interface contract. Fatal for the job in
/// flight: the engine's state is of unknown validity afterwards and a
/// full re-initialization is required before any further job.
#[derive(Clone, Copy, PartialEq, Eq, Structural, Debug)]
pub enum EngineFault {
    /// The engine reported a null result pointer.
    NullData,
    /// The engine reported a non-positive dimension.
    BadDimensions { rows: i64, cols: i64 },
    /// The flattened buffer does not hold `rows * cols` values.
    LengthMismatch { expected: u128, actual: usize },
}

/// A raw row-major intensity grid copied out of the engine, as
/// fixed-point sample values. Owned by the caller from the moment of
/// receipt; nothing aliases engine storage.
#[derive(Clone, Debug)]
pub struct ScatterData {
    pub data: Vec<u64>,
    pub rows: usize,
    pub cols: usize,
}

impl ScatterData {
    /// Strictly positive dimensions and one sample per cell.
    pub open spec fn wf(&self) -> bool {
        &&& self.rows > 0
        &&& self.cols > 0
        &&& self.data@.len() == self.rows * self.cols
    }

    /// Accepts a buffer the engine handed over, exactly when the
    /// reported dimensions are strictly positive and match the buffer
    /// length; anything else is the engine breaking its contract.
    pub fn from_raw(data: Vec<u64>, rows: i64, cols: i64) -> (r: Result<ScatterData, EngineFault>)
        ensures
            r matches Ok(g) ==> g.wf() && g.data@ == data@ && g.rows == rows && g.cols == cols,
            r is Ok <==> (0 < rows <= usize::MAX && 0 < cols <= usize::MAX && data@.len() == rows
                * cols),
            rows <= 0 || cols <= 0 ==> r == Err::<ScatterData, EngineFault>(
                EngineFault::BadDimensions { rows, cols },
            ),
    {
        if rows <= 0 || cols <= 0 {
            return Err(EngineFault::BadDimensions { rows, cols });
        }
        proof {
            assert((rows as int) * (cols as int) < 0x8000_0000_0000_0000 * 0x8000_0000_0000_0000)
                by (nonlinear_arith)
                requires
                    0 < rows < 0x8000_0000_0000_0000,
                    0 < cols < 0x8000_0000_0000_0000,
            ;
        }
        let expected: u128 = (rows as u128) * (cols as u128);
        if rows as u128 > usize::MAX as u128 || cols as u128 > usize::MAX as u128 || (data.len()
            as u128) != expected {
            return Err(EngineFault::LengthMismatch { expected, actual: data.len() });
        }
        Ok(ScatterData { data, rows: rows as usize, cols: cols as usize })
    }
}

/// Where the engine stands in one job's command sequence.
#[derive(Clone, Copy, PartialEq, Eq, Structural, Debug)]
pub enum EnginePhase {
    /// No job in flight.
    Idle,
    /// Global state configured for the current job.
    Initialized,
    /// The computation ran to completion.
    Executed,
    /// The scattering output was copied out.
    ScatterFetched,
    /// The rendered grid was copied out; the sequence is complete.
    ImageFetched,
}

/// One command of the engine's narrow interface.
#[derive(Clone, Copy, PartialEq, Eq, Structural, Debug)]
pub enum EngineCommand {
    Initialize,
    Execute,
    FetchScatter,
    FetchImage,
}

/// Which command the engine contract admits in which phase.
/// Initialization is always legal — it is also the only recovery from a
/// fault — while every other command requires exactly the phase that
/// precedes it.
pub open spec fn step_allowed(phase: EnginePhase, cmd: EngineCommand) -> bool {
    match cmd {
        EngineCommand::Initialize => true,
        EngineCommand::Execute => phase is Initialized,
        EngineCommand::FetchScatter => phase is Executed,
        EngineCommand::FetchImage => phase is ScatterFetched,
    }
}

/// The phase a legal command leads to.
pub open spec fn phase_after(cmd: EngineCommand) -> EnginePhase {
    match cmd {
        EngineCommand::Initialize => EnginePhase::Initialized,
        EngineCommand::Execute => EnginePhase::Executed,
        EngineCommand::FetchScatter => EnginePhase::ScatterFetched,
        EngineCommand::FetchImage => EnginePhase::ImageFetched,
    }
}

/// Advances the engine sequence by one command, refusing any command
/// the contract does not admit in the current phase.
pub fn advance(phase: EnginePhase, cmd: EngineCommand) -> (r: Option<EnginePhase>)
    ensures
        r is Some <==> step_allowed(phase, cmd),
        r matches Some(p) ==> p == phase_after(cmd),
{
    let allowed = match cmd {
        EngineCommand::Initialize => true,
        EngineCommand::Execute => matches!(phase, EnginePhase::Initialized),
        EngineCommand::FetchScatter => matches!(phase, EnginePhase::Executed),
        EngineCommand::FetchImage => matches!(phase, EnginePhase::ScatterFetched),
    };
    if allowed {
        Some(
            match cmd {
                EngineCommand::Initialize => EnginePhase::Initialized,
                EngineCommand::Execute => EnginePhase::Executed,
                EngineCommand::FetchScatter => EnginePhase::ScatterFetched,
                EngineCommand::FetchImage => EnginePhase::ImageFetched,
            },
        )
    } else {
        None
    }
}

} // verus!
