//! Audio classification: segment categories, quality issues, the windows
//! audio is analysed in, and how classified windows merge into segments.

use vstd::prelude::*;
use crate::ai::upscale::{lemma_positions, tile_count};

verus! {

/// Type of audio content in a segment.
#[derive(Debug, Clone, Copy, PartialEq, Eq, Structural, Hash)]
pub enum AudioSegmentType {
    /// Human speech / dialogue.
    Dialogue,
    /// Music (instrumental or vocal).
    Music,
    /// Ambient / atmospheric sounds.
    Ambient,
    /// Silence or very low energy.
    Silence,
    /// Sound effects (transient, non-speech, non-music).
    SoundEffect,
    /// Indeterminate.
    Unknown,
}

impl AudioSegmentType {
    /// The text of [`Self::display_name`].
    pub open spec fn label(self) -> Seq<char> {
        match self {
            AudioSegmentType::Dialogue => "Dialogue"@,
            AudioSegmentType::Music => "Music"@,
            AudioSegmentType::Ambient => "Ambient"@,
            AudioSegmentType::Silence => "Silence"@,
            AudioSegmentType::SoundEffect => "Sound Effect"@,
            AudioSegmentType::Unknown => "Unknown"@,
        }
    }

    /// Display name for the UI.
    pub fn display_name(&self) -> (r: &'static str)
        ensures
            r@ == self.label(),
    {
        match self {
            AudioSegmentType::Dialogue => "Dialogue",
            AudioSegmentType::Music => "Music",
            AudioSegmentType::Ambient => "Ambient",
            AudioSegmentType::Silence => "Silence",
            AudioSegmentType::SoundEffect => "Sound Effect",
            AudioSegmentType::Unknown => "Unknown",
        }
    }
}

/// Types of audio quality issues.
#[derive(Debug, Clone, Copy, PartialEq, Eq, Structural)]
pub enum QualityIssueType {
    /// Audio clipping (samples at or near full scale).
    Clipping,
    /// Wind noise (low-frequency rumble).
    WindNoise,
    /// Room tone inconsistency between segments.
    RoomToneMismatch,
    /// Excessive background noise.
    BackgroundNoise,
    /// Audio level too low.
    LowLevel,
}

impl QualityIssueType {
    /// The text of [`Self::display_name`].
    pub open spec fn label(self) -> Seq<char> {
        match self {
            QualityIssueType::Clipping => "Audio Clipping"@,
            QualityIssueType::WindNoise => "Wind Noise"@,
            QualityIssueType::RoomToneMismatch => "Room Tone Mismatch"@,
            QualityIssueType::BackgroundNoise => "Background Noise"@,
            QualityIssueType::LowLevel => "Low Audio Level"@,
        }
    }

    /// Display name for the UI.
    pub fn display_name(&self) -> (r: &'static str)
        ensures
            r@ == self.label(),
    {
        match self {
            QualityIssueType::Clipping => "Audio Clipping",
            QualityIssueType::WindNoise => "Wind Noise",
            QualityIssueType::RoomToneMismatch => "Room Tone Mismatch",
            QualityIssueType::BackgroundNoise => "Background Noise",
            QualityIssueType::LowLevel => "Low Audio Level",
        }
    }
}


/// Window `k` of a walk over `len` samples: it starts `k * step` samples in
/// and holds `window` samples, cut short at the end of the audio.
pub open spec fn window_at(len: nat, window: nat, step: nat, k: nat) -> (nat, nat) {
    let start = k * step;
    (start, if start + window < len { start + window } else { len })
}

/// The windows audio is analysed in: starting at sample 0 and every `step`
/// samples after it while the start lies inside the audio, each `window`
/// samples long or up to the end of the audio, as `(start, end)` pairs.
pub fn analysis_windows(len: usize, window: usize, step: usize) -> (w: Vec<(usize, usize)>)
    requires
        step >= 1,
        len + step <= usize::MAX,
    ensures
        w.len() == tile_count(len as nat, step as nat),
        forall|k: int|
            0 <= k < w.len() ==> (#[trigger] w[k]).0 == window_at(len as nat, window as nat, step as nat, k as nat).0
                && w[k].1 == window_at(len as nat, window as nat, step as nat, k as nat).1,
        forall|k: int| 0 <= k < w.len() ==> (#[trigger] w[k]).0 < len && w[k].0 <= w[k].1 <= len,
{
    let mut w: Vec<(usize, usize)> = Vec::new();
    let mut pos: usize = 0;
    assert(w.len() * step == 0) by (nonlinear_arith)
        requires
            w.len() == 0,
    ;
    while pos < len
        invariant
            step >= 1,
            len + step <= usize::MAX,
            pos == w.len() * step,
            pos < len + step,
            w.len() <= tile_count(len as nat, step as nat),
            forall|k: int|
                0 <= k < w.len() ==> (#[trigger] w[k]).0 == window_at(len as nat, window as nat, step as nat, k as nat).0
                    && w[k].1 == window_at(len as nat, window as nat, step as nat, k as nat).1,
            forall|k: int| 0 <= k < w.len() ==> (#[trigger] w[k]).0 < len && w[k].0 <= w[k].1 <= len,
        decreases len + step - pos,
    {
        proof {
            lemma_positions(w.len() as nat, len as nat, step as nat);
        }
        let end = if window < len - pos { pos + window } else { len };
        w.push((pos, end));
        proof {
            assert((w.len() - 1) * step + step == w.len() * step) by (nonlinear_arith);
        }
        pos = pos + step;
    }
    proof {
        lemma_positions(w.len() as nat, len as nat, step as nat);
    }
    w
}

/// Windows at least a step long leave no sample out: sample `s` lies in
/// window `s / step`.
pub proof fn lemma_windows_cover(len: nat, window: nat, step: nat, s: nat)
    requires
        1 <= step <= window,
        s < len,
    ensures
        s / step < tile_count(len, step),
        window_at(len, window, step, s / step).0 <= s < window_at(len, window, step, s / step).1,
{
    let k = s / step;
    assert(k * step <= s < k * step + step) by (nonlinear_arith)
        requires
            step >= 1,
            k == s / step,
    ;
    lemma_positions(k, len, step);
}

/// `runs` splits the positions `0..n` into consecutive stretches
/// `(first, last)`, each holding a single type, with neighbouring stretches
/// of different types: the maximal runs of equal types.
pub open spec fn are_runs(types: Seq<AudioSegmentType>, runs: Seq<(usize, usize)>) -> bool {
    &&& types.len() == 0 ==> runs.len() == 0
    &&& types.len() > 0 ==> {
        &&& runs.len() > 0
        &&& runs[0].0 == 0
        &&& runs.last().1 == types.len() - 1
    }
    &&& forall|i: int| 0 <= i < runs.len() ==> (#[trigger] runs[i]).0 <= runs[i].1
    &&& forall|i: int| 0 <= i < runs.len() - 1 ==> #[trigger] runs[i + 1].0 == runs[i].1 + 1
    &&& forall|i: int, j: int|
        #![trigger runs[i], types[j]]
        0 <= i < runs.len() && runs[i].0 <= j <= runs[i].1 ==> types[j] == types[runs[i].0 as int]
    &&& forall|i: int|
        0 <= i < runs.len() - 1 ==> types[(#[trigger] runs[i]).1 as int] != types[runs[i + 1].0 as int]
}

/// Group the classified windows into segments: the maximal runs of
/// neighbouring windows of the same type, as `(first, last)` window numbers.
pub fn group_runs(types: &Vec<AudioSegmentType>) -> (runs: Vec<(usize, usize)>)
    ensures
        are_runs(types@, runs@),
{
    let n = types.len();
    let mut runs: Vec<(usize, usize)> = Vec::new();
    if n == 0 {
        return runs;
    }
    let mut first: usize = 0;
    let mut i: usize = 1;
    while i < n
        invariant
            n == types.len(),
            0 <= first < i <= n,
            runs.len() == 0 ==> first == 0,
            runs.len() > 0 ==> runs@.last().1 + 1 == first,
            forall|k: int| 0 <= k < runs.len() ==> (#[trigger] runs[k]).0 <= runs[k].1,
            runs.len() > 0 ==> runs[0].0 == 0,
            forall|k: int| 0 <= k < runs.len() - 1 ==> #[trigger] runs[k + 1].0 == runs[k].1 + 1,
            forall|k: int, j: int|
                #![trigger runs[k], types@[j]]
                0 <= k < runs.len() && runs[k].0 <= j <= runs[k].1 ==> types@[j] == types@[runs[k].0 as int],
            forall|k: int|
                0 <= k < runs.len() - 1 ==> types@[(#[trigger] runs[k]).1 as int] != types@[runs[k + 1].0 as int],
            runs.len() > 0 ==> types@[runs@.last().1 as int] != types@[first as int],
            forall|j: int| first <= j < i ==> #[trigger] types@[j] == types@[first as int],
        decreases n - i,
    {
        if types[i] != types[first] {
            let ghost old_runs = runs@;
            runs.push((first, i - 1));
            proof {
                assert forall|k: int| 0 <= k < runs.len() - 1 implies #[trigger] runs[k + 1].0 == runs[k].1 + 1 by {
                    if k < old_runs.len() - 1 {
                        assert(runs[k] == old_runs[k]);
                        assert(runs[k + 1] == old_runs[k + 1]);
                    } else {
                        assert(runs[k] == old_runs.last());
                    }
                }
                assert forall|k: int|
                    0 <= k < runs.len() - 1 implies types@[(#[trigger] runs[k]).1 as int] != types@[runs[k + 1].0 as int] by {
                    if k < old_runs.len() - 1 {
                        assert(runs[k] == old_runs[k]);
                        assert(runs[k + 1] == old_runs[k + 1]);
                    } else {
                        assert(runs[k] == old_runs.last());
                    }
                }
            }
            first = i;
        }
        i = i + 1;
    }
    let ghost old_runs = runs@;
    runs.push((first, n - 1));
    proof {
        assert forall|k: int| 0 <= k < runs.len() - 1 implies #[trigger] runs[k + 1].0 == runs[k].1 + 1 by {
            if k < old_runs.len() - 1 {
                assert(runs[k] == old_runs[k]);
                assert(runs[k + 1] == old_runs[k + 1]);
            } else {
                assert(runs[k] == old_runs.last());
            }
        }
        assert forall|k: int|
            0 <= k < runs.len() - 1 implies types@[(#[trigger] runs[k]).1 as int] != types@[runs[k + 1].0 as int] by {
            if k < old_runs.len() - 1 {
                assert(runs[k] == old_runs[k]);
                assert(runs[k + 1] == old_runs[k + 1]);
            } else {
                assert(runs[k] == old_runs.last());
            }
        }
    }
    runs
}

} // verus!
