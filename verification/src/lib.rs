//! Frame synchronisation for a digital land-mobile-radio receiver, in fixed point.
//!
//! The receiver hands this crate demodulated baseband samples, one at a time. The crate
//! finds the frame sync word in the stream by cross-correlation, confirms it with a
//! threshold that follows the signal's power, and derives from the samples of the sync
//! word the levels at which later stages slice samples into symbols. It also reads the
//! fields of the header that opens a voice call.
//!
//! Samples are signed 32-bit integers in whatever unit the caller chooses; every result
//! is in that unit (powers in its square). Where a quotient is not whole it is rounded
//! toward zero, and each contract states the value that comes out exactly.

pub mod baseband;
pub mod voice;
