//! Background analysis ingest pipeline: its stages and their share of the progress bar.

use crate::ai::paths::{file_name, make_file_name};
use crate::foundation::timecode::{decimal, push_decimal};
use vstd::prelude::*;

verus! {

/// Pipeline stages.
#[derive(Debug, Clone, Copy, PartialEq, Eq, Structural)]
pub enum IngestStage {
    /// Detecting scene boundaries.
    SceneDetection,
    /// Transcribing audio.
    Transcription,
    /// Identifying speakers.
    SpeakerDiarization,
    /// Indexing visual content.
    VisualIndexing,
    /// Classifying audio segments.
    AudioClassification,
    /// Saving results.
    Saving,
    /// All done.
    Complete,
}

impl IngestStage {
    /// The text of [`Self::display_name`].
    pub open spec fn label(self) -> Seq<char> {
        match self {
            IngestStage::SceneDetection => "Detecting scenes"@,
            IngestStage::Transcription => "Transcribing audio"@,
            IngestStage::SpeakerDiarization => "Identifying speakers"@,
            IngestStage::VisualIndexing => "Indexing visual content"@,
            IngestStage::AudioClassification => "Classifying audio"@,
            IngestStage::Saving => "Saving results"@,
            IngestStage::Complete => "Analysis complete"@,
        }
    }

    /// Display name for the stage.
    pub fn display_name(&self) -> (r: &'static str)
        ensures
            r@ == self.label(),
    {
        match self {
            IngestStage::SceneDetection => "Detecting scenes",
            IngestStage::Transcription => "Transcribing audio",
            IngestStage::SpeakerDiarization => "Identifying speakers",
            IngestStage::VisualIndexing => "Indexing visual content",
            IngestStage::AudioClassification => "Classifying audio",
            IngestStage::Saving => "Saving results",
            IngestStage::Complete => "Analysis complete",
        }
    }
}

impl IngestStage {
    /// Share of this stage in overall progress, in percent.
    pub open spec fn share(self) -> nat {
        match self {
            IngestStage::SceneDetection => 15,
            IngestStage::Transcription => 35,
            IngestStage::SpeakerDiarization => 15,
            IngestStage::VisualIndexing => 20,
            IngestStage::AudioClassification => 10,
            IngestStage::Saving => 5,
            IngestStage::Complete => 0,
        }
    }

    /// Weight of this stage in overall progress, out of 100.
    pub fn weight(&self) -> (w: u32)
        ensures
            w == self.share(),
    {
        match self {
            IngestStage::SceneDetection => 15,
            IngestStage::Transcription => 35,
            IngestStage::SpeakerDiarization => 15,
            IngestStage::VisualIndexing => 20,
            IngestStage::AudioClassification => 10,
            IngestStage::Saving => 5,
            IngestStage::Complete => 0,
        }
    }
}

/// The stages that do work, in the order the pipeline runs them.
pub open spec fn working_stages() -> Seq<IngestStage> {
    seq![
        IngestStage::SceneDetection,
        IngestStage::Transcription,
        IngestStage::SpeakerDiarization,
        IngestStage::VisualIndexing,
        IngestStage::AudioClassification,
        IngestStage::Saving,
    ]
}

/// Sum of the shares of a list of stages.
pub open spec fn total_share(stages: Seq<IngestStage>) -> nat
    decreases stages.len(),
{
    if stages.len() == 0 {
        0
    } else {
        total_share(stages.drop_last()) + stages.last().share()
    }
}

/// The working stages' weights add up to the whole progress bar, and the
/// final stage carries none.
pub proof fn lemma_weights_sum_to_100()
    ensures
        total_share(working_stages()) == 100,
        IngestStage::Complete.share() == 0,
{
    reveal_with_fuel(total_share, 7);
    assert(working_stages().drop_last().drop_last().drop_last().drop_last().drop_last().drop_last()
        =~= Seq::<IngestStage>::empty());
}

/// Position of a stage in the pipeline, from 0 for scene detection to 6 for
/// completion.
pub open spec fn stage_index(s: IngestStage) -> nat {
    match s {
        IngestStage::SceneDetection => 0,
        IngestStage::Transcription => 1,
        IngestStage::SpeakerDiarization => 2,
        IngestStage::VisualIndexing => 3,
        IngestStage::AudioClassification => 4,
        IngestStage::Saving => 5,
        IngestStage::Complete => 6,
    }
}

/// The stage after `s`; completion is followed by itself.
pub open spec fn next_stage(s: IngestStage) -> IngestStage {
    match s {
        IngestStage::SceneDetection => IngestStage::Transcription,
        IngestStage::Transcription => IngestStage::SpeakerDiarization,
        IngestStage::SpeakerDiarization => IngestStage::VisualIndexing,
        IngestStage::VisualIndexing => IngestStage::AudioClassification,
        IngestStage::AudioClassification => IngestStage::Saving,
        IngestStage::Saving => IngestStage::Complete,
        IngestStage::Complete => IngestStage::Complete,
    }
}

/// Percent of the work done when a stage starts: the shares of the stages
/// before it.
pub open spec fn completed_before(s: IngestStage) -> nat {
    total_share(working_stages().take(stage_index(s) as int))
}

impl IngestStage {
    /// The stage that follows this one; `Complete` is last and stays.
    pub fn next(&self) -> (n: IngestStage)
        ensures
            n == next_stage(*self),
    {
        match self {
            IngestStage::SceneDetection => IngestStage::Transcription,
            IngestStage::Transcription => IngestStage::SpeakerDiarization,
            IngestStage::SpeakerDiarization => IngestStage::VisualIndexing,
            IngestStage::VisualIndexing => IngestStage::AudioClassification,
            IngestStage::AudioClassification => IngestStage::Saving,
            IngestStage::Saving => IngestStage::Complete,
            IngestStage::Complete => IngestStage::Complete,
        }
    }

    /// Overall progress, in percent, when this stage starts.
    pub fn progress_before(&self) -> (p: u32)
        ensures
            p == completed_before(*self),
    {
        proof {
            reveal_with_fuel(total_share, 7);
            let w = working_stages();
            assert(w.take(0) =~= Seq::<IngestStage>::empty());
            assert(w.take(1).drop_last() =~= w.take(0));
            assert(w.take(2).drop_last() =~= w.take(1));
            assert(w.take(3).drop_last() =~= w.take(2));
            assert(w.take(4).drop_last() =~= w.take(3));
            assert(w.take(5).drop_last() =~= w.take(4));
            assert(w.take(6).drop_last() =~= w.take(5));
        }
        match self {
            IngestStage::SceneDetection => 0,
            IngestStage::Transcription => 15,
            IngestStage::SpeakerDiarization => 50,
            IngestStage::VisualIndexing => 65,
            IngestStage::AudioClassification => 85,
            IngestStage::Saving => 95,
            IngestStage::Complete => 100,
        }
    }

    /// The status message reported when this stage starts.
    pub fn start_message(&self) -> (m: &'static str)
        ensures
            m@ == start_text(*self),
    {
        match self {
            IngestStage::SceneDetection => "Analyzing scenes...",
            IngestStage::Transcription => "Transcribing audio...",
            IngestStage::SpeakerDiarization => "Identifying speakers...",
            IngestStage::VisualIndexing => "Indexing visual content...",
            IngestStage::AudioClassification => "Classifying audio...",
            IngestStage::Saving => "Saving analysis results...",
            IngestStage::Complete => "Analysis complete",
        }
    }
}

/// The status message reported when a stage starts.
pub open spec fn start_text(s: IngestStage) -> Seq<char> {
    match s {
        IngestStage::SceneDetection => "Analyzing scenes..."@,
        IngestStage::Transcription => "Transcribing audio..."@,
        IngestStage::SpeakerDiarization => "Identifying speakers..."@,
        IngestStage::VisualIndexing => "Indexing visual content..."@,
        IngestStage::AudioClassification => "Classifying audio..."@,
        IngestStage::Saving => "Saving analysis results..."@,
        IngestStage::Complete => "Analysis complete"@,
    }
}

/// Progress through the pipeline only grows: each stage starts where the one
/// before it started plus that stage's share, the first at zero and the last
/// at one hundred percent.
pub proof fn lemma_progress_steps(s: IngestStage)
    ensures
        completed_before(IngestStage::SceneDetection) == 0,
        completed_before(IngestStage::Complete) == 100,
        s != IngestStage::Complete ==> completed_before(next_stage(s)) == completed_before(s) + s.share(),
{
    reveal_with_fuel(total_share, 7);
    let w = working_stages();
    assert(w.take(0) =~= Seq::<IngestStage>::empty());
    assert(w.take(6) =~= w);
    lemma_weights_sum_to_100();
    if s != IngestStage::Complete {
        let i = stage_index(s) as int;
        assert(w.take(i + 1).drop_last() =~= w.take(i));
    }
}

/// A frame picked for visual indexing: its position among the input frames
/// and the range of frame numbers it stands for.
#[derive(Debug, Clone, Copy, PartialEq, Eq, Structural)]
pub struct VisualSample {
    /// Position of the frame among the input frames.
    pub index: usize,
    /// First frame number the sample stands for.
    pub start_frame: i64,
    /// Frame number just past the range the sample stands for.
    pub end_frame: i64,
}

/// How many of `frame_count` frames are sampled when every `interval`-th one
/// is taken, starting with the first.
pub open spec fn sample_count(frame_count: nat, interval: nat) -> nat
    recommends
        interval > 0,
{
    ((frame_count + interval - 1) / interval as int) as nat
}

proof fn lemma_sample_count(n: nat, d: nat, len: nat)
    requires
        d > 0,
        n <= len * d,
        len == 0 || (len - 1) * d < n,
    ensures
        len == sample_count(n, d),
{
    let q = (n + d - 1) / d as int;
    if len == 0 {
        assert(n == 0);
        assert(q == 0) by (nonlinear_arith) requires n == 0, d > 0, q == (n + d - 1) / d as int;
    } else {
        assert(q == len) by (nonlinear_arith)
            requires
                d > 0,
                len > 0,
                n <= len * d,
                (len - 1) * d < n,
                q == (n + d - 1) / d as int,
        {
            assert((len - 1) * d + d == len * d);
            assert(len * d <= n + d - 1);
            assert(n + d - 1 < len * d + d);
        }
    }
}

/// Sample `k` of a plan with the given interval: frame `k * interval`,
/// standing for the frames up to the next sample.
pub open spec fn is_sample(s: VisualSample, k: int, interval: int) -> bool {
    &&& s.index == k * interval
    &&& s.start_frame == k * interval
    &&& s.end_frame == k * interval + interval
}

/// The frames visited by visual indexing: every `sample_interval`-th of the
/// `frame_count` input frames, starting with the first. Sample `k` is frame
/// `k * sample_interval` and stands for the frames up to the next sample.
pub fn visual_sample_plan(frame_count: usize, sample_interval: usize) -> (plan: Vec<VisualSample>)
    requires
        sample_interval >= 1,
        frame_count + sample_interval <= i64::MAX,
        frame_count + sample_interval <= usize::MAX,
    ensures
        plan.len() == sample_count(frame_count as nat, sample_interval as nat),
        forall|k: int|
            0 <= k < plan.len() ==> is_sample(#[trigger] plan[k], k, sample_interval as int),
{
    let mut plan: Vec<VisualSample> = Vec::new();
    let mut i: usize = 0;
    assert(plan.len() * sample_interval == 0) by (nonlinear_arith)
        requires
            plan.len() == 0,
    ;
    while i < frame_count
        invariant
            sample_interval >= 1,
            frame_count + sample_interval <= i64::MAX,
            frame_count + sample_interval <= usize::MAX,
            i == plan.len() * sample_interval,
            plan.len() == 0 || (plan.len() - 1) * sample_interval < frame_count,
            forall|k: int|
                0 <= k < plan.len() ==> is_sample(#[trigger] plan[k], k, sample_interval as int),
        decreases frame_count + sample_interval - i,
    {
        let sample = VisualSample {
            index: i,
            start_frame: i as i64,
            end_frame: (i + sample_interval) as i64,
        };
        proof {
            assert((plan.len() + 1) * sample_interval == plan.len() * sample_interval + sample_interval)
                by (nonlinear_arith);
        }
        plan.push(sample);
        i = i + sample_interval;
        assert(is_sample(plan[plan.len() - 1], plan.len() - 1, sample_interval as int));
    }
    proof {
        lemma_sample_count(frame_count as nat, sample_interval as nat, plan.len() as nat);
    }
    plan
}

/// The samples of a plan are exactly the frames whose index is a multiple of
/// the interval: frame `i` with `i % interval == 0` is sample `i / interval`,
/// and sample `k` is a frame below `frame_count`.
pub proof fn lemma_samples_are_multiples(frame_count: nat, interval: nat, i: nat, k: nat)
    requires
        interval > 0,
    ensures
        i < frame_count && i % interval == 0 ==> i / interval < sample_count(frame_count, interval)
            && (i / interval) * interval == i,
        k < sample_count(frame_count, interval) ==> k * interval < frame_count && (k * interval)
            % interval == 0,
{
    let n = frame_count as int;
    let d = interval as int;
    if i < frame_count && i % interval == 0 {
        let q = i as int / d;
        assert(q * d == i) by (nonlinear_arith)
            requires
                d > 0,
                i as int % d == 0,
                q == i as int / d,
        ;
        assert(q < (n + d - 1) / d) by (nonlinear_arith)
            requires
                d > 0,
                q * d < n,
                q >= 0,
        ;
    }
    if k < sample_count(frame_count, interval) {
        let kk = k as int;
        assert(kk * d < n) by (nonlinear_arith)
            requires
                d > 0,
                kk >= 0,
                kk < (n + d - 1) / d,
        ;
        assert((kk * d) % d == 0) by (nonlinear_arith)
            requires
                d > 0,
                kk >= 0,
        ;
    }
}

/// The status message while visual indexing visits frame `index`.
pub open spec fn indexing_text(index: nat, frame_count: nat, interval: nat) -> Seq<char> {
    "Indexing frame "@ + decimal(index / interval + 1) + "/"@ + decimal(frame_count / interval)
        + "..."@
}

/// The status message while visual indexing visits frame `index`: the
/// sample's ordinal and the number of whole intervals among the frames.
pub fn indexing_message(index: usize, frame_count: usize, sample_interval: usize) -> (m: String)
    requires
        sample_interval >= 1,
        index < frame_count,
    ensures
        m@ == indexing_text(index as nat, frame_count as nat, sample_interval as nat),
{
    proof {
        reveal_strlit("Indexing frame ");
        reveal_strlit("/");
        reveal_strlit("...");
    }
    let mut out = String::from_str("Indexing frame ");
    assert(index / sample_interval <= index) by (nonlinear_arith)
        requires
            sample_interval >= 1,
    ;
    push_decimal(&mut out, (index / sample_interval) as u64 + 1);
    out.append("/");
    push_decimal(&mut out, (frame_count / sample_interval) as u64);
    out.append("...");
    out
}

/// The embeddings file recorded with an analysis: `<asset_id>.emb` when any
/// frame was indexed, none otherwise.
pub fn embeddings_file(asset_id: &str, indexed: usize) -> (f: Option<String>)
    ensures
        indexed == 0 ==> f is None,
        indexed > 0 ==> f is Some && f->0@ == file_name(asset_id@, "emb"@),
{
    if indexed == 0 {
        None
    } else {
        Some(make_file_name(asset_id, "emb"))
    }
}

/// The timestamp recorded with an analysis.
pub fn chrono_now_placeholder() -> (r: String)
    ensures
        r@ == "2025-01-01T00:00:00Z"@,
{
    String::from_str("2025-01-01T00:00:00Z")
}

} // verus!
