use vstd::prelude::*;

verus! {

/// One finished capture segment: a video file and an audio file, with the
/// wall-clock instants (ms since the Unix epoch) at which each stream's first
/// frame began, and an instant that both streams are known to reach.
pub struct FfmpegRecording {
    pub video_path: String,
    pub video_start_time: u128,
    pub audio_path: String,
    pub audio_start_time: u128,
    /// The audio and the video are guaranteed to extend at least to this instant.
    pub early_end_time: u128,
}

/// Why an operation of the capture core failed.
#[derive(Debug, PartialEq, Eq, Structural)]
pub enum KaptureError {
    /// A capture or transcode process could not be started.
    ProcessSpawnError,
    /// A stream ended without ever reporting its start instant.
    MissingStartTime,
    /// The requested end instant precedes every buffered chunk.
    OutOfRange,
    /// A transcode or concat step failed.
    ExtractionFailed,
}

} // verus!
