//! How rendered audio leaves the process. The engine only chooses the
//! destination; the sink itself (hardware playback or a file writer) is an
//! external collaborator around the library.

use vstd::prelude::*;

verus! {

/// Where the 8-bit sample stream should go.
#[derive(Debug)]
pub enum AudioMode {
    /// Straight to the audio hardware.
    Play,
    /// Into a waveform file with this stem name.
    Record(String),
}

} // verus!
