//! Decoding of AIFF audio containers and tempo estimation from the
//! energy of the decoded signal.
//!
//! Samples are kept as Q15 fixed-point integers (`value / 32768` is the
//! normalised amplitude in `[-1, 1)`), and normalised window energies as
//! fixed-point integers in units of `1 / UNIT`.
mod bytes;
pub mod error;
pub mod extended;
pub mod pcm;
pub mod aiff;
pub mod energy;
pub mod peaks;
pub mod tempo;

pub use error::{AiffError, ChunkId};
pub use extended::{decode_extended, Extended};
pub use aiff::{read_aiff, AiffData};
pub use energy::{normalize_energies, reference_signal, window_energies, UNIT};
pub use peaks::{detect_peaks, dynamic_threshold, Threshold};
pub use tempo::{calculate_bpm_energy_dynamic_threshold, calculate_bpm_energy_manual_threshold, estimate_tempo, Bpm};
