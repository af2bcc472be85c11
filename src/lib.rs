//! Sample-accurate sequencing and capture for recording a multi-sampled instrument:
//! a note sweep driven one audio frame at a time, the decisions of the real-time
//! capture callback and of the file writer, MIDI messages and note names, and the
//! key and velocity ranges of the finished sample set.

pub mod mapping;
pub mod midi;
pub mod runtime;
pub mod select;
pub mod sequencer;

pub use sequencer::{AdvanceResult, Config, Sequencer, SequencerError, SequencerIntoIter};
