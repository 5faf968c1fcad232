//! AI features: analysis vocabularies, masks and segmentation, upscaling
//! tiles, scene cuts, sampling statistics, analysis windows, the ingest
//! pipeline's stages and the model catalogue.

pub mod analysis_store;
pub mod audio_classify;
pub mod auto_color;
pub mod content_index;
pub mod engine;
pub mod error;
pub mod filler_detect;
pub mod ingest_pipeline;
pub mod memory_bank;
pub mod model_manager;
pub mod narrative;
pub mod paths;
pub mod rotoscope;
pub mod scene_detect;
pub mod segmentation;
pub mod stem_separation;
pub mod transcribe;
pub mod upscale;
