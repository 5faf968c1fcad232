//! The model catalogue and the cache directory that holds model files.

use vstd::prelude::*;
use crate::ai::paths::{join_path, joined};
use crate::foundation::timecode::decimal;

verus! {

/// Identifies a specific AI model.
#[derive(Debug, Clone, Copy, PartialEq, Eq, Structural, Hash)]
pub enum ModelId {
    /// TransNetV2 scene detection model.
    TransNetV2,
    /// Whisper large-v3-turbo speech recognition.
    Whisper3Turbo,
    /// SAM 2 ViT-B segmentation model.
    SAM2ViTB,
    /// RIFE v4 frame interpolation model.
    RIFEv4,
    /// Real-ESRGAN 4x upscaling model.
    RealESRGAN4x,
    /// Demucs v4 stem separation model.
    DemucsV4,
    /// Speaker diarization model.
    SpeakerDiarize,
    /// CLIP ViT-B/32 embedding model.
    CLIPViTB32,
}

/// Specification for an AI model.
pub struct ModelSpec {
    /// Unique identifier.
    pub id: ModelId,
    /// Filename in the cache directory.
    pub filename: &'static str,
    /// Download URL.
    pub url: &'static str,
    /// Expected SHA-256 hash.
    pub sha256: &'static str,
    /// Expected file size in bytes.
    pub size_bytes: u64,
}

/// Where every model is downloaded from: the filename follows this prefix.
pub open spec fn download_prefix() -> Seq<char> {
    "https://huggingface.co/proedit/models/resolve/main/"@
}

/// The cache filename of a model.
pub open spec fn model_filename(m: ModelId) -> Seq<char> {
    match m {
        ModelId::TransNetV2 => "transnetv2.onnx"@,
        ModelId::Whisper3Turbo => "whisper-large-v3-turbo.bin"@,
        ModelId::SAM2ViTB => "sam2_vit_b.onnx"@,
        ModelId::RIFEv4 => "rife_v4.onnx"@,
        ModelId::RealESRGAN4x => "realesrgan_4x.onnx"@,
        ModelId::DemucsV4 => "demucs_v4.onnx"@,
        ModelId::SpeakerDiarize => "speaker_diarize.onnx"@,
        ModelId::CLIPViTB32 => "clip_vit_b32.onnx"@,
    }
}

/// The download URL of a model.
pub open spec fn model_url(m: ModelId) -> Seq<char> {
    match m {
        ModelId::TransNetV2 => "https://huggingface.co/proedit/models/resolve/main/transnetv2.onnx"@,
        ModelId::Whisper3Turbo =>
            "https://huggingface.co/proedit/models/resolve/main/whisper-large-v3-turbo.bin"@,
        ModelId::SAM2ViTB => "https://huggingface.co/proedit/models/resolve/main/sam2_vit_b.onnx"@,
        ModelId::RIFEv4 => "https://huggingface.co/proedit/models/resolve/main/rife_v4.onnx"@,
        ModelId::RealESRGAN4x =>
            "https://huggingface.co/proedit/models/resolve/main/realesrgan_4x.onnx"@,
        ModelId::DemucsV4 => "https://huggingface.co/proedit/models/resolve/main/demucs_v4.onnx"@,
        ModelId::SpeakerDiarize =>
            "https://huggingface.co/proedit/models/resolve/main/speaker_diarize.onnx"@,
        ModelId::CLIPViTB32 =>
            "https://huggingface.co/proedit/models/resolve/main/clip_vit_b32.onnx"@,
    }
}

/// The expected file size of a model, in bytes.
pub open spec fn model_size_bytes(m: ModelId) -> nat {
    match m {
        ModelId::TransNetV2 => 4_000_000,
        ModelId::Whisper3Turbo => 750_000_000,
        ModelId::SAM2ViTB => 350_000_000,
        ModelId::RIFEv4 => 120_000_000,
        ModelId::RealESRGAN4x => 64_000_000,
        ModelId::DemucsV4 => 300_000_000,
        ModelId::SpeakerDiarize => 150_000_000,
        ModelId::CLIPViTB32 => 400_000_000,
    }
}

/// The human-readable size of a model.
pub open spec fn size_label(m: ModelId) -> Seq<char> {
    match m {
        ModelId::TransNetV2 => "4 MB"@,
        ModelId::Whisper3Turbo => "750 MB"@,
        ModelId::SAM2ViTB => "350 MB"@,
        ModelId::RIFEv4 => "120 MB"@,
        ModelId::RealESRGAN4x => "64 MB"@,
        ModelId::DemucsV4 => "300 MB"@,
        ModelId::SpeakerDiarize => "150 MB"@,
        ModelId::CLIPViTB32 => "400 MB"@,
    }
}

impl ModelId {
    /// Get the specification for this model.
    pub fn spec(&self) -> (s: ModelSpec)
        ensures
            s.id == *self,
            s.filename@ == model_filename(*self),
            s.url@ == model_url(*self),
            s.sha256@ == "placeholder_hash"@,
            s.size_bytes == model_size_bytes(*self),
    {
        match self {
            ModelId::TransNetV2 => ModelSpec {
                id: *self,
                filename: "transnetv2.onnx",
                url: "https://huggingface.co/proedit/models/resolve/main/transnetv2.onnx",
                sha256: "placeholder_hash",
                size_bytes: 4_000_000,
            },
            ModelId::Whisper3Turbo => ModelSpec {
                id: *self,
                filename: "whisper-large-v3-turbo.bin",
                url: "https://huggingface.co/proedit/models/resolve/main/whisper-large-v3-turbo.bin",
                sha256: "placeholder_hash",
                size_bytes: 750_000_000,
            },
            ModelId::SAM2ViTB => ModelSpec {
                id: *self,
                filename: "sam2_vit_b.onnx",
                url: "https://huggingface.co/proedit/models/resolve/main/sam2_vit_b.onnx",
                sha256: "placeholder_hash",
                size_bytes: 350_000_000,
            },
            ModelId::RIFEv4 => ModelSpec {
                id: *self,
                filename: "rife_v4.onnx",
                url: "https://huggingface.co/proedit/models/resolve/main/rife_v4.onnx",
                sha256: "placeholder_hash",
                size_bytes: 120_000_000,
            },
            ModelId::RealESRGAN4x => ModelSpec {
                id: *self,
                filename: "realesrgan_4x.onnx",
                url: "https://huggingface.co/proedit/models/resolve/main/realesrgan_4x.onnx",
                sha256: "placeholder_hash",
                size_bytes: 64_000_000,
            },
            ModelId::DemucsV4 => ModelSpec {
                id: *self,
                filename: "demucs_v4.onnx",
                url: "https://huggingface.co/proedit/models/resolve/main/demucs_v4.onnx",
                sha256: "placeholder_hash",
                size_bytes: 300_000_000,
            },
            ModelId::SpeakerDiarize => ModelSpec {
                id: *self,
                filename: "speaker_diarize.onnx",
                url: "https://huggingface.co/proedit/models/resolve/main/speaker_diarize.onnx",
                sha256: "placeholder_hash",
                size_bytes: 150_000_000,
            },
            ModelId::CLIPViTB32 => ModelSpec {
                id: *self,
                filename: "clip_vit_b32.onnx",
                url: "https://huggingface.co/proedit/models/resolve/main/clip_vit_b32.onnx",
                sha256: "placeholder_hash",
                size_bytes: 400_000_000,
            },
        }
    }

    /// Human-readable model size.
    pub fn size_human(&self) -> (s: &'static str)
        ensures
            s@ == size_label(*self),
    {
        match self {
            ModelId::TransNetV2 => "4 MB",
            ModelId::Whisper3Turbo => "750 MB",
            ModelId::SAM2ViTB => "350 MB",
            ModelId::RIFEv4 => "120 MB",
            ModelId::RealESRGAN4x => "64 MB",
            ModelId::DemucsV4 => "300 MB",
            ModelId::SpeakerDiarize => "150 MB",
            ModelId::CLIPViTB32 => "400 MB",
        }
    }
}

/// Every model is downloaded from the same place, under its cache filename.
pub proof fn lemma_url_ends_with_filename(m: ModelId)
    ensures
        model_url(m) == download_prefix() + model_filename(m),
{
    reveal_strlit("https://huggingface.co/proedit/models/resolve/main/");
    match m {
        ModelId::TransNetV2 => {
            reveal_strlit("transnetv2.onnx");
            reveal_strlit("https://huggingface.co/proedit/models/resolve/main/transnetv2.onnx");
        },
        ModelId::Whisper3Turbo => {
            reveal_strlit("whisper-large-v3-turbo.bin");
            reveal_strlit(
                "https://huggingface.co/proedit/models/resolve/main/whisper-large-v3-turbo.bin",
            );
        },
        ModelId::SAM2ViTB => {
            reveal_strlit("sam2_vit_b.onnx");
            reveal_strlit("https://huggingface.co/proedit/models/resolve/main/sam2_vit_b.onnx");
        },
        ModelId::RIFEv4 => {
            reveal_strlit("rife_v4.onnx");
            reveal_strlit("https://huggingface.co/proedit/models/resolve/main/rife_v4.onnx");
        },
        ModelId::RealESRGAN4x => {
            reveal_strlit("realesrgan_4x.onnx");
            reveal_strlit("https://huggingface.co/proedit/models/resolve/main/realesrgan_4x.onnx");
        },
        ModelId::DemucsV4 => {
            reveal_strlit("demucs_v4.onnx");
            reveal_strlit("https://huggingface.co/proedit/models/resolve/main/demucs_v4.onnx");
        },
        ModelId::SpeakerDiarize => {
            reveal_strlit("speaker_diarize.onnx");
            reveal_strlit(
                "https://huggingface.co/proedit/models/resolve/main/speaker_diarize.onnx",
            );
        },
        ModelId::CLIPViTB32 => {
            reveal_strlit("clip_vit_b32.onnx");
            reveal_strlit("https://huggingface.co/proedit/models/resolve/main/clip_vit_b32.onnx");
        },
    }
    assert(model_url(m) =~= download_prefix() + model_filename(m));
}

/// The human-readable size is the byte size in whole megabytes, followed by ` MB`.
pub proof fn lemma_size_label_matches_bytes(m: ModelId)
    ensures
        size_label(m) == decimal(model_size_bytes(m) / 1_000_000) + " MB"@,
{
    reveal_strlit(" MB");
    reveal_with_fuel(decimal, 4);
    match m {
        ModelId::TransNetV2 => reveal_strlit("4 MB"),
        ModelId::Whisper3Turbo => reveal_strlit("750 MB"),
        ModelId::SAM2ViTB => reveal_strlit("350 MB"),
        ModelId::RIFEv4 => reveal_strlit("120 MB"),
        ModelId::RealESRGAN4x => reveal_strlit("64 MB"),
        ModelId::DemucsV4 => reveal_strlit("300 MB"),
        ModelId::SpeakerDiarize => reveal_strlit("150 MB"),
        ModelId::CLIPViTB32 => reveal_strlit("400 MB"),
    }
    assert(size_label(m) =~= decimal(model_size_bytes(m) / 1_000_000) + " MB"@);
}

/// Manages the directory where AI model files are cached.
pub struct ModelManager {
    cache_dir: String,
}

impl ModelManager {
    /// The cache directory.
    pub closed spec fn dir(&self) -> Seq<char> {
        self.cache_dir@
    }

    /// Create a new model manager with the given cache directory.
    pub fn new(cache_dir: String) -> (m: Self)
        ensures
            m.dir() == cache_dir@,
    {
        ModelManager { cache_dir }
    }

    /// Get the local path for a model (the file may not exist yet).
    pub fn model_path(&self, model: ModelId) -> (p: String)
        ensures
            p@ == joined(self.dir(), model_filename(model)),
    {
        let spec = model.spec();
        join_path(self.cache_dir.as_str(), spec.filename)
    }

    /// Get the cache directory path.
    pub fn cache_dir(&self) -> (d: &str)
        ensures
            d@ == self.dir(),
    {
        self.cache_dir.as_str()
    }
}

} // verus!
