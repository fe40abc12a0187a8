//! Baseband processing: correlation with the sync fingerprint, peak detection and
//! symbol decision thresholds.

pub mod filter;
pub mod fingerprint;
pub mod numeric;
pub mod smooth;
pub mod sync;
