//! Audio stem separation: stem kinds, the separator's configuration and the
//! overlapping chunks audio is separated in.

use vstd::prelude::*;
use crate::ai::audio_classify::{analysis_windows, window_at};
use crate::ai::error::AiError;
use crate::ai::upscale::tile_count;

verus! {

/// Configuration for stem separation.
#[derive(Debug, Clone, Copy)]
pub struct StemSeparationConfig {
    /// Chunk size in samples per channel (about 7 seconds at 44.1 kHz).
    pub chunk_size: usize,
    /// Overlap between chunks in samples per channel (about 1 second).
    pub overlap: usize,
}

impl Default for StemSeparationConfig {
    fn default() -> (c: Self)
        ensures
            c.chunk_size == 308_700,
            c.overlap == 44_100,
    {
        StemSeparationConfig { chunk_size: 308_700, overlap: 44_100 }
    }
}

/// Identifies which stem is being referred to.
#[derive(Debug, Clone, Copy, PartialEq, Eq, Structural, Hash)]
pub enum StemType {
    /// Singing and speech.
    Vocals,
    /// Percussion.
    Drums,
    /// Bass line.
    Bass,
    /// Everything else.
    Other,
}

impl StemType {
    /// The text of [`Self::display_name`].
    pub open spec fn label(self) -> Seq<char> {
        match self {
            StemType::Vocals => "Vocals"@,
            StemType::Drums => "Drums"@,
            StemType::Bass => "Bass"@,
            StemType::Other => "Other"@,
        }
    }

    /// Display name for the UI.
    pub fn display_name(&self) -> (r: &'static str)
        ensures
            r@ == self.label(),
    {
        match self {
            StemType::Vocals => "Vocals",
            StemType::Drums => "Drums",
            StemType::Bass => "Bass",
            StemType::Other => "Other",
        }
    }
}

impl StemType {
    /// All stem types, in output order.
    pub fn all() -> (r: [StemType; 4])
        ensures
            r@ == seq![StemType::Vocals, StemType::Drums, StemType::Bass, StemType::Other],
    {
        [StemType::Vocals, StemType::Drums, StemType::Bass, StemType::Other]
    }
}

/// Audio stem separator (Demucs v4 with a CPU fallback).
pub struct StemSeparator {
    config: StemSeparationConfig,
}

impl StemSeparator {
    /// The separator's configuration.
    pub closed spec fn configuration(&self) -> StemSeparationConfig {
        self.config
    }

    /// Create a new stem separator.
    pub fn new(config: StemSeparationConfig) -> (s: Self)
        ensures
            s.configuration() == config,
    {
        StemSeparator { config }
    }

    /// The configuration.
    pub fn config(&self) -> (c: &StemSeparationConfig)
        ensures
            *c == self.configuration(),
    {
        &self.config
    }
}


/// Distance in samples between the starts of neighbouring chunks: the chunk
/// length less the overlap, and at least one frame of `channels` samples.
pub open spec fn chunk_step(config: StemSeparationConfig, channels: nat) -> nat {
    let chunk = config.chunk_size * channels;
    let overlap = config.overlap * channels;
    let step = if chunk > overlap { (chunk - overlap) as nat } else { 0 };
    if step > channels { step } else { channels }
}

impl StemSeparator {
    /// The chunks interleaved audio of `total_samples` samples and `channels`
    /// channels is separated in: `(start, end)` sample ranges of
    /// `chunk_size` frames whose starts lie `chunk_step` samples apart, the
    /// last cut short at the end. An empty buffer or one without channels is
    /// refused.
    pub fn chunk_windows(&self, total_samples: usize, channels: u16) -> (r: Result<Vec<(usize, usize)>, AiError>)
        requires
            self.configuration().chunk_size * channels <= usize::MAX,
            self.configuration().overlap * channels <= usize::MAX,
            total_samples + chunk_step(self.configuration(), channels as nat) <= usize::MAX,
        ensures
            total_samples == 0 ==> (r matches Err(AiError::PreprocessError(m)) && m@ == "Empty audio buffer"@),
            total_samples > 0 && channels == 0 ==> (r matches Err(AiError::PreprocessError(m)) && m@
                == "Zero channels"@),
            total_samples > 0 && channels > 0 ==> (r matches Ok(w) && {
                let step = chunk_step(self.configuration(), channels as nat);
                let chunk = self.configuration().chunk_size * channels;
                &&& w.len() == tile_count(total_samples as nat, step)
                &&& forall|k: int|
                    0 <= k < w.len() ==> (#[trigger] w[k]).0 == window_at(total_samples as nat, chunk as nat, step, k as nat).0
                        && w[k].1 == window_at(total_samples as nat, chunk as nat, step, k as nat).1
                &&& forall|k: int| 0 <= k < w.len() ==> (#[trigger] w[k]).0 < total_samples && w[k].0 <= w[k].1 <= total_samples
            }),
    {
        if total_samples == 0 {
            return Err(AiError::PreprocessError(String::from_str("Empty audio buffer")));
        }
        if channels == 0 {
            return Err(AiError::PreprocessError(String::from_str("Zero channels")));
        }
        let ch = channels as usize;
        let chunk = self.config.chunk_size * ch;
        let overlap = self.config.overlap * ch;
        let shortened = if chunk > overlap { chunk - overlap } else { 0 };
        let step = if shortened > ch { shortened } else { ch };
        Ok(analysis_windows(total_samples, chunk, step))
    }
}

} // verus!
