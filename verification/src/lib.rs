//! Delta-sampling utilization metrics for a Linux host.
//!
//! The crate models the accounting data that Linux exposes as text (the
//! system-wide and per-core counter lines, per-process tick counters, the
//! memory summary and the mount table) and computes normalized utilization
//! ratios from two cumulative-counter snapshots taken at different times.
//! All parsing and all delta arithmetic lives here; reading the files
//! themselves is left to the caller.

use vstd::prelude::*;

pub mod disk;
pub mod memory;
pub mod process;
pub mod processor;
pub mod text;

verus! {

/// Upper bound accepted for a single raw counter or size field (ticks or
/// kilobytes). The bound is far beyond anything a real host can report
/// (2^44 ticks is thousands of years of scheduler time) and keeps every sum
/// and product that the engine forms inside the fixed-width integer types.
pub const FIELD_LIMIT: u64 = 0x1000_0000_0000;

/// Largest core count the per-process engine accepts; no machine comes near
/// it, and it keeps `core_count * tick_delta` inside `u64`.
pub const CORE_LIMIT: usize = 0x10000;

/// The error taxonomy of the library.
///
/// - `NotFound`: the accounting source or the target entity disappeared,
///   for example a process that exited between two samples.
/// - `MalformedData`: a line has fewer fields than required, a field fails
///   numeric parsing or exceeds [`FIELD_LIMIT`], or a cumulative counter
///   decreased between two samples (counter reset or identifier reuse).
/// - `CountMismatch`: the core count changed between two samples of a
///   processor set; the caller must re-enumerate.
#[derive(Clone, Copy, Debug, PartialEq, Eq, Structural)]
pub enum SysError {
    NotFound,
    MalformedData,
    CountMismatch,
}

/// A utilization ratio, kept exact as `num / den` with `den >= 1`.
///
/// A zero-length sampling window is a valid measurement, not a fault: it is
/// represented as the exact zero ratio `0 / 1`, and no division is ever
/// performed to produce it.
#[derive(Clone, Copy, Debug, PartialEq, Eq, Structural)]
pub struct Usage {
    pub num: u64,
    pub den: u64,
}

impl Usage {
    /// Validity: the denominator is a positive elapsed-time delta (or the
    /// placeholder 1 of the zero ratio), so the ratio is always defined.
    pub open spec fn wf(self) -> bool {
        1 <= self.den
    }

    /// The ratio reported before any delta exists or over an empty window.
    pub open spec fn spec_zero() -> Usage {
        Usage { num: 0, den: 1 }
    }

    /// The zero ratio, used for the first sample of every entity.
    pub fn zero() -> (u: Usage)
        ensures
            u == Usage::spec_zero(),
    {
        Usage { num: 0, den: 1 }
    }
}

} // verus!
