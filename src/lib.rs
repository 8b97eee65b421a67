//! Deterministic transcendental functions (natural, binary, decimal and
//! arbitrary-base logarithms, the exponential, and real powers) over
//! fixed-point decimals, computed in the 36-digit `PreciseDecimal` tier and
//! exposed on both it and the 18-digit `Decimal` tier.

pub mod exponential;
pub mod fixed;
pub mod logarithm;
pub mod power;

pub use exponential::{ExponentialDecimal, ExponentialPreciseDecimal};
pub use fixed::{Decimal, PreciseDecimal, I192, I256};
pub use logarithm::{LogarithmDecimal, LogarithmPreciseDecimal};
pub use power::{PowerDecimal, PowerPreciseDecimal};
