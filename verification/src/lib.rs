//! The decisions of a fretboard tuner's audio engine, verified: sample-rate arithmetic,
//! the input picker (parsing `pactl` output, classifying and ordering inputs), note
//! labels, the take recorder's and replay's bookkeeping, s16le stream framing, and the
//! audio thread's command plans.
use vstd::prelude::*;

pub mod analysis_math;
pub mod capture;
pub mod devices;
pub mod drone;
pub mod engine;
pub mod history;
pub mod note_labels;
pub mod onset;
pub mod order;
pub mod output;
pub mod recorder;
pub mod replay;
pub mod sample_rate;
pub mod text;
pub mod workers;

verus! {

} // verus!
