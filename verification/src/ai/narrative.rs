//! Narrative intelligence: target formats, pacing vocabulary and the analyzer.

use vstd::prelude::*;
use crate::ai::error::AiError;

verus! {

/// Target format for the video.
#[derive(Debug, Clone, Copy, PartialEq, Eq, Structural)]
pub enum TargetFormat {
    /// YouTube long-form video.
    YouTubeVideo,
    /// YouTube Shorts / TikTok / Reels.
    ShortForm,
    /// Documentary.
    Documentary,
    /// Social media advertisement.
    SocialAd,
    /// Corporate / training video.
    Corporate,
    /// Film / narrative.
    Film,
    /// Podcast / talking head.
    Podcast,
    /// Custom / unspecified.
    Custom,
}

impl TargetFormat {
    /// The text of [`Self::display_name`].
    pub open spec fn label(self) -> Seq<char> {
        match self {
            TargetFormat::YouTubeVideo => "YouTube Video"@,
            TargetFormat::ShortForm => "Short Form (TikTok/Reels)"@,
            TargetFormat::Documentary => "Documentary"@,
            TargetFormat::SocialAd => "Social Ad"@,
            TargetFormat::Corporate => "Corporate"@,
            TargetFormat::Film => "Film / Narrative"@,
            TargetFormat::Podcast => "Podcast"@,
            TargetFormat::Custom => "Custom"@,
        }
    }

    /// Display name for the UI.
    pub fn display_name(&self) -> (r: &'static str)
        ensures
            r@ == self.label(),
    {
        match self {
            TargetFormat::YouTubeVideo => "YouTube Video",
            TargetFormat::ShortForm => "Short Form (TikTok/Reels)",
            TargetFormat::Documentary => "Documentary",
            TargetFormat::SocialAd => "Social Ad",
            TargetFormat::Corporate => "Corporate",
            TargetFormat::Film => "Film / Narrative",
            TargetFormat::Podcast => "Podcast",
            TargetFormat::Custom => "Custom",
        }
    }
}

/// Types of emotion detected in the edit.
#[derive(Debug, Clone, Copy, PartialEq, Eq, Structural)]
pub enum EmotionType {
    /// Neutral.
    Neutral,
    /// Excitement.
    Excitement,
    /// Tension.
    Tension,
    /// Joy.
    Joy,
    /// Sadness.
    Sadness,
    /// Surprise.
    Surprise,
    /// Calm.
    Calm,
}

/// Pacing rhythm classification.
#[derive(Debug, Clone, Copy, PartialEq, Eq, Structural)]
pub enum PacingRhythm {
    /// Consistent, steady pacing.
    Steady,
    /// Gradually accelerating.
    BuildingTension,
    /// Alternating fast and slow.
    Dynamic,
    /// Erratic, inconsistent.
    Erratic,
}

/// Severity level for a suggestion.
#[derive(Debug, Clone, Copy, PartialEq, Eq, Structural)]
pub enum Severity {
    /// Informational observation.
    Info,
    /// Recommended improvement.
    Suggestion,
    /// Potential issue that should be addressed.
    Warning,
}

/// Configuration for the narrative analyzer.
#[derive(Debug, Clone)]
pub struct NarrativeConfig {
    /// API endpoint URL.
    pub api_url: String,
    /// API key (kept out of project files).
    pub api_key: String,
    /// Model to use for analysis; empty until the caller names one.
    pub model: String,
    /// Maximum tokens for the response.
    pub max_tokens: u32,
}

impl Default for NarrativeConfig {
    fn default() -> (c: Self)
        ensures
            c.api_url@ == "https://api.anthropic.com/v1/messages"@,
            c.api_key@ == Seq::<char>::empty(),
            c.model@ == Seq::<char>::empty(),
            c.max_tokens == 4096,
    {
        proof {
            reveal_strlit("");
        }
        NarrativeConfig {
            api_url: String::from_str("https://api.anthropic.com/v1/messages"),
            api_key: String::from_str(""),
            model: String::new(),
            max_tokens: 4096,
        }
    }
}

/// Narrative intelligence analyzer (cloud-based, opt-in).
pub struct NarrativeAnalyzer {
    config: NarrativeConfig,
}

impl NarrativeAnalyzer {
    /// The analyzer's configuration.
    pub closed spec fn configuration(&self) -> NarrativeConfig {
        self.config
    }

    /// Create an analyzer; an empty API key is refused.
    pub fn new(config: NarrativeConfig) -> (r: Result<Self, AiError>)
        ensures
            config.api_key@.len() == 0 <==> r is Err,
            r matches Err(e) ==> e matches AiError::CloudApiError(m)
                && m@ == "API key is required for narrative analysis"@,
            r matches Ok(a) ==> a.configuration() == config,
    {
        if config.api_key.as_str().is_empty() {
            return Err(AiError::CloudApiError(
                String::from_str("API key is required for narrative analysis"),
            ));
        }
        Ok(NarrativeAnalyzer { config })
    }

    /// Whether the analyzer has an API key.
    pub fn is_configured(&self) -> (b: bool)
        ensures
            b == (self.configuration().api_key@.len() != 0),
    {
        !self.config.api_key.as_str().is_empty()
    }

    /// The configuration.
    pub fn config(&self) -> (c: &NarrativeConfig)
        ensures
            *c == self.configuration(),
    {
        &self.config
    }
}

} // verus!
