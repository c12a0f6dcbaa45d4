//! Error taxonomy of the panel driver core.

use vstd::prelude::*;

verus! {

/// Failures that the panel-refresh subsystem can report.
///
/// Pin writes themselves cannot fail with the GPIO backend used here, so a
/// scan that has started always runs to completion; the two recoverable
/// failure classes are invalid coordinates and invalid configuration.
#[derive(Clone, Copy, Debug, PartialEq, Eq, Structural)]
pub enum DriverError {
    /// A pixel or row coordinate lies outside the configured dimensions.
    OutOfRange,
    /// The pin assignment or panel geometry is invalid, or the GPIO
    /// peripheral is unavailable. Fatal at construction.
    Configuration,
}

} // verus!
