use proedit::ai::analysis_store::{asset_id_of, AnalysisStore};
use proedit::ai::auto_color::{channel_histograms, channel_sums, luma_histogram, percentile_index};
use proedit::ai::audio_classify::{analysis_windows, group_runs, AudioSegmentType, QualityIssueType};
use proedit::ai::content_index::{bucket_color, color_histogram, luma_sum, top_buckets, CameraMotion, ShotType};
use proedit::ai::engine::AIEngine;
use proedit::ai::filler_detect::{detect_filler_marks, normalize_word, FillerCategory, FillerDetectConfig};
use proedit::ai::ingest_pipeline::{embeddings_file, indexing_message, visual_sample_plan, IngestStage, VisualSample};
use proedit::ai::memory_bank::FrameMemoryBank;
use proedit::ai::model_manager::{ModelId, ModelManager};
use proedit::ai::narrative::{NarrativeAnalyzer, NarrativeConfig, TargetFormat};
use proedit::ai::rotoscope::{color_distance, MaskBuffer};
use proedit::ai::scene_detect::{frame_difference, keep_spaced_cuts};
use proedit::ai::segmentation::{propagate_mask, segment_by_color, PixelClick};
use proedit::ai::stem_separation::{StemSeparationConfig, StemSeparator, StemType};
use proedit::ai::transcribe::{
    choose_whisper_binary, ffmpeg_extract_args, segment_words, split_words, transcript_language, Transcriber, TranscriberConfig,
};
use proedit::ai::upscale::{split_into_tiles, UpscaleConfig, Upscaler};
use proedit::color::color_space::ColorSpace;
use proedit::foundation::frame::{FrameBuffer, PixelFormat};

fn make_solid_frame(w: u32, h: u32, r: u8, g: u8, b: u8) -> FrameBuffer {
    let mut frame = FrameBuffer::new(w, h, PixelFormat::Rgba8);
    let plane = frame.primary_plane_mut();
    for y in 0..h {
        let row = plane.row_mut(y);
        for x in 0..w as usize {
            let base = x * 4;
            if base + 3 < row.len() {
                row[base] = r;
                row[base + 1] = g;
                row[base + 2] = b;
                row[base + 3] = 255;
            }
        }
    }
    frame
}

fn mad(a: &FrameBuffer, b: &FrameBuffer) -> Option<f32> {
    frame_difference(a, b).map(|(total, count)| {
        if count == 0 {
            0.0
        } else {
            (total as f64 / (count as f64 * 3.0 * 255.0)) as f32
        }
    })
}

fn words(list: &[&str]) -> Vec<String> {
    list.iter().map(|w| w.to_string()).collect()
}

#[test]
fn test_segment_type_display() {
    assert_eq!(AudioSegmentType::Dialogue.display_name(), "Dialogue");
    assert_eq!(AudioSegmentType::Music.display_name(), "Music");
}

#[test]
fn test_quality_issue_display() {
    assert_eq!(QualityIssueType::Clipping.display_name(), "Audio Clipping");
    assert_eq!(QualityIssueType::WindNoise.display_name(), "Wind Noise");
}

#[test]
fn test_shot_type_display() {
    assert_eq!(ShotType::CloseUp.display_name(), "Close-Up");
    assert_eq!(ShotType::Wide.display_name(), "Wide");
    assert_eq!(ShotType::Aerial.display_name(), "Aerial");
}

#[test]
fn test_camera_motion_display() {
    assert_eq!(CameraMotion::Static.display_name(), "Static");
    assert_eq!(CameraMotion::PanLeft.display_name(), "Pan Left");
}

#[test]
fn test_ingest_stage_display() {
    assert_eq!(IngestStage::SceneDetection.display_name(), "Detecting scenes");
    assert_eq!(IngestStage::Complete.display_name(), "Analysis complete");
}

#[test]
fn test_ingest_stage_weights_sum_to_100() {
    let stages = [
        IngestStage::SceneDetection,
        IngestStage::Transcription,
        IngestStage::SpeakerDiarization,
        IngestStage::VisualIndexing,
        IngestStage::AudioClassification,
        IngestStage::Saving,
    ];
    let total: u32 = stages.iter().map(|s| s.weight()).sum();
    assert_eq!(total, 100);
}

#[test]
fn test_target_format_display() {
    assert_eq!(TargetFormat::YouTubeVideo.display_name(), "YouTube Video");
    assert_eq!(TargetFormat::ShortForm.display_name(), "Short Form (TikTok/Reels)");
}

#[test]
fn test_narrative_config_default() {
    let config = NarrativeConfig::default();
    assert!(!config.api_url.is_empty());
    assert!(config.api_key.is_empty());
}

#[test]
fn test_analyzer_requires_api_key() {
    let config = NarrativeConfig::default();
    let result = NarrativeAnalyzer::new(config);
    assert!(result.is_err());
}

#[test]
fn test_analyzer_creation_with_key() {
    let config = NarrativeConfig { api_key: "test-key".into(), ..Default::default() };
    let analyzer = NarrativeAnalyzer::new(config).unwrap();
    assert!(analyzer.is_configured());
}

#[test]
fn test_stem_type_display() {
    assert_eq!(StemType::Vocals.display_name(), "Vocals");
    assert_eq!(StemType::Drums.display_name(), "Drums");
    assert_eq!(StemType::Bass.display_name(), "Bass");
    assert_eq!(StemType::Other.display_name(), "Other");
}

#[test]
fn test_mask_buffer_basic() {
    let mut mask = MaskBuffer::new(10, 10);
    assert_eq!(mask.get(5, 5), 0);
    mask.set(5, 5, 255);
    assert_eq!(mask.get(5, 5), 255);
    assert_eq!(mask.get(0, 0), 0);
}

#[test]
fn test_mask_invert() {
    let mut mask = MaskBuffer::new(4, 4);
    mask.set(0, 0, 255);
    mask.invert();
    assert_eq!(mask.get(0, 0), 0);
    assert_eq!(mask.get(1, 1), 255);
}

#[test]
fn test_mask_foreground_ratio() {
    let ratio = |m: &MaskBuffer| -> f32 {
        if m.data.is_empty() {
            0.0
        } else {
            m.foreground_count() as f32 / m.data.len() as f32
        }
    };
    let mut mask = MaskBuffer::new(10, 10);
    assert_eq!(ratio(&mask), 0.0);

    let full = MaskBuffer::opaque(10, 10);
    assert_eq!(ratio(&full), 1.0);

    for i in 0..50 {
        mask.data[i] = 255;
    }
    assert!((ratio(&mask) - 0.5).abs() < 0.01);
}

#[test]
fn test_mask_expand_contract() {
    let mut mask = MaskBuffer::new(10, 10);
    mask.set(5, 5, 255);
    mask.expand_contract(1);
    assert_eq!(mask.get(5, 5), 255);
    assert_eq!(mask.get(4, 5), 255);
    assert_eq!(mask.get(6, 5), 255);
    assert_eq!(mask.get(5, 4), 255);
    assert_eq!(mask.get(5, 6), 255);
}

#[test]
fn test_memory_bank() {
    let mut bank = FrameMemoryBank::new(3);
    assert!(bank.is_empty());

    bank.store_frame(0, vec![1.0f32], MaskBuffer::new(2, 2));
    bank.store_frame(5, vec![2.0], MaskBuffer::new(2, 2));
    bank.store_frame(10, vec![3.0], MaskBuffer::new(2, 2));
    assert_eq!(bank.len(), 3);

    let (emb, _mask) = bank.nearest_before(7).unwrap();
    assert_eq!(emb[0], 2.0);

    bank.store_frame(15, vec![4.0], MaskBuffer::new(2, 2));
    assert_eq!(bank.len(), 3);
    assert!(bank.nearest_before(1).is_none());
}

#[test]
fn test_color_distance() {
    assert_eq!(color_distance(&[0, 0, 0], &[0, 0, 0]), 0);
    assert_eq!(color_distance(&[255, 0, 0], &[0, 0, 0]), 255 * 255);
}

#[test]
fn test_model_specs_all_defined() {
    let models = [
        ModelId::TransNetV2,
        ModelId::Whisper3Turbo,
        ModelId::SAM2ViTB,
        ModelId::RIFEv4,
        ModelId::RealESRGAN4x,
        ModelId::DemucsV4,
        ModelId::SpeakerDiarize,
        ModelId::CLIPViTB32,
    ];
    for model in models {
        let spec = model.spec();
        assert!(!spec.filename.is_empty());
        assert!(!spec.url.is_empty());
        assert!(spec.size_bytes > 0);
    }
}

#[test]
fn test_model_path_construction() {
    let mgr = ModelManager::new("/tmp/proedit-models".to_string());
    let path = mgr.model_path(ModelId::TransNetV2);
    assert!(path.ends_with("transnetv2.onnx"));
    assert_eq!(path, "/tmp/proedit-models/transnetv2.onnx");
}

#[test]
fn test_size_human_all_defined() {
    let models = [
        ModelId::TransNetV2,
        ModelId::Whisper3Turbo,
        ModelId::SAM2ViTB,
        ModelId::RIFEv4,
        ModelId::RealESRGAN4x,
        ModelId::DemucsV4,
        ModelId::SpeakerDiarize,
        ModelId::CLIPViTB32,
    ];
    for model in models {
        let size = model.size_human();
        assert!(size.contains("MB"), "Size should contain 'MB', got: {size}");
    }
}

#[test]
fn test_split_into_tiles() {
    let frame = make_solid_frame(64, 64, 100, 100, 100);
    let tiles = split_into_tiles(&frame, 32, 0);
    assert_eq!(tiles.len(), 4, "64x64 frame with 32x32 tiles = 4 tiles");
    for tile in &tiles {
        assert_eq!(tile.width, 32);
        assert_eq!(tile.height, 32);
    }
}

#[test]
fn test_split_with_overlap() {
    let frame = make_solid_frame(64, 64, 100, 100, 100);
    let tiles = split_into_tiles(&frame, 32, 8);
    assert!(tiles.len() >= 4, "Overlapping tiles should produce >= 4 tiles");
}

#[test]
fn test_identical_frames_zero_difference() {
    let a = make_solid_frame(64, 64, 128, 128, 128);
    let b = make_solid_frame(64, 64, 128, 128, 128);
    let diff = mad(&a, &b).expect("should compute diff");
    assert!((diff - 0.0).abs() < 1e-6);
}

#[test]
fn test_opposite_frames_max_difference() {
    let a = make_solid_frame(64, 64, 0, 0, 0);
    let b = make_solid_frame(64, 64, 255, 255, 255);
    let diff = mad(&a, &b).expect("should compute diff");
    assert!((diff - 1.0).abs() < 1e-6);
}

#[test]
fn test_different_sizes_returns_none() {
    let a = make_solid_frame(64, 64, 0, 0, 0);
    let b = make_solid_frame(32, 32, 0, 0, 0);
    assert!(mad(&a, &b).is_none());
}

#[test]
fn test_detect_hesitation_fillers() {
    let w = words(&["so", "um", "I", "think", "uh", "yes"]);
    let marks = detect_filler_marks(&w, &FillerDetectConfig::default());
    let hesitations: Vec<_> = marks.iter().filter(|f| f.category == FillerCategory::Hesitation).collect();
    assert_eq!(hesitations.len(), 2);
    assert_eq!(hesitations[0].word, "um");
    assert_eq!(hesitations[1].word, "uh");
}

#[test]
fn test_detect_verbal_fillers() {
    let w = words(&["I", "like", "think", "basically", "yes"]);
    let marks = detect_filler_marks(&w, &FillerDetectConfig::default());
    let verbal: Vec<_> = marks.iter().filter(|f| f.category == FillerCategory::Verbal).collect();
    assert!(verbal.len() >= 2);
}

#[test]
fn test_detect_repetitions() {
    let w = words(&["I", "I", "think", "the", "the", "answer"]);
    let marks = detect_filler_marks(&w, &FillerDetectConfig::default());
    let reps: Vec<_> = marks.iter().filter(|f| f.category == FillerCategory::Repetition).collect();
    assert_eq!(reps.len(), 2);
}

#[test]
fn test_no_fillers_in_clean_speech() {
    let w = words(&["the", "quick", "brown", "fox"]);
    let marks = detect_filler_marks(&w, &FillerDetectConfig::default());
    assert!(marks.is_empty());
}

#[test]
fn test_custom_filler_words() {
    let w = words(&["and", "stuff", "things"]);
    let config = FillerDetectConfig { custom_filler_words: vec!["stuff".to_string()], ..Default::default() };
    let marks = detect_filler_marks(&w, &config);
    assert_eq!(marks.len(), 1);
    assert_eq!(marks[0].word, "stuff");
}

#[test]
fn test_is_linear() {
    assert!(ColorSpace::LinearSRGB.is_linear());
    assert!(ColorSpace::ACEScg.is_linear());
    assert!(!ColorSpace::SRGB.is_linear());
}

#[test]
fn test_color_space_names() {
    assert_eq!(ColorSpace::SRGB.name(), "sRGB");
    assert_eq!(ColorSpace::ACEScg.name(), "ACEScg");
}

// Further cases of the library's own.

#[test]
fn fillers_are_flagged_once_in_order_with_positions() {
    let w = words(&["  Um ", "LIKE", "like", "x", "x", ""]);
    let marks = detect_filler_marks(&w, &FillerDetectConfig::default());
    let got: Vec<(usize, &str, FillerCategory)> =
        marks.iter().map(|m| (m.index, m.word.as_str(), m.category)).collect();
    assert_eq!(
        got,
        vec![
            (0, "um", FillerCategory::Hesitation),
            (1, "like", FillerCategory::Verbal),
            (2, "like", FillerCategory::Verbal),
            (4, "x", FillerCategory::Repetition),
        ]
    );
}

#[test]
fn disabled_filler_tests_flag_nothing() {
    let w = words(&["um", "like", "I", "I"]);
    let config = FillerDetectConfig {
        detect_hesitations: false,
        detect_verbal_fillers: false,
        detect_repetitions: false,
        custom_filler_words: vec![],
    };
    assert!(detect_filler_marks(&w, &config).is_empty());
    assert_eq!(normalize_word("  HeLLo\t"), "hello");
}

#[test]
fn tiles_cover_the_frame_with_overlap() {
    let frame = make_solid_frame(10, 7, 1, 2, 3);
    let tiles = split_into_tiles(&frame, 4, 1);
    // Step 3: starts 0, 3, 6, 9 across and 0, 3, 6 down.
    assert_eq!(tiles.len(), 12);
    assert_eq!((tiles[3].src_x, tiles[3].src_y, tiles[3].width, tiles[3].height), (9, 0, 1, 4));
    assert_eq!((tiles[11].src_x, tiles[11].src_y, tiles[11].width, tiles[11].height), (9, 6, 1, 1));
    for x in 0..10u32 {
        for y in 0..7u32 {
            assert!(tiles.iter().any(|t| t.src_x <= x && x < t.src_x + t.width && t.src_y <= y
                && y < t.src_y + t.height));
        }
    }
    assert_eq!(tiles[0].pixels.len(), 4 * 4 * 4);
    assert_eq!(tiles[0].pixels[0..4], [1, 2, 3, 255]);
}

#[test]
fn zero_sized_tiles_cover_nothing() {
    let frame = make_solid_frame(2, 2, 0, 0, 0);
    let tiles = split_into_tiles(&frame, 0, 0);
    assert_eq!(tiles.len(), 4);
    assert!(tiles.iter().all(|t| t.width == 0 && t.height == 0 && t.pixels.is_empty()));
}

#[test]
fn upscaler_keeps_its_configuration() {
    let cfg = UpscaleConfig::default();
    assert_eq!((cfg.scale, cfg.tile_size, cfg.tile_overlap), (4, 512, 32));
    let up = Upscaler::new(UpscaleConfig { scale: 2, tile_size: 16, tile_overlap: 0 });
    assert_eq!(up.config().scale, 2);
}

#[test]
fn frame_difference_counts_rgb_only() {
    let a = make_solid_frame(3, 2, 10, 20, 30);
    let mut b = make_solid_frame(3, 2, 10, 20, 30);
    b.primary_plane_mut().row_mut(1)[3] = 99; // alpha of pixel 0 in row 1
    b.primary_plane_mut().row_mut(1)[4] = 15; // red of pixel 1 in row 1
    assert_eq!(frame_difference(&a, &b), Some((5, 6)));
    let empty = FrameBuffer::new(0, 5, PixelFormat::Rgba8);
    assert_eq!(frame_difference(&empty, &empty), Some((0, 0)));
}

#[test]
fn rapid_cuts_are_spaced_out() {
    let frames: Vec<i64> = (1..30).collect();
    let kept = keep_spaced_cuts(&frames, 10);
    let kept_frames: Vec<i64> = kept.iter().map(|&k| frames[k]).collect();
    assert_eq!(kept_frames, vec![1, 11, 21]);
    assert_eq!(keep_spaced_cuts(&vec![3, 5], 0), vec![0, 1]);
    assert!(keep_spaced_cuts(&vec![], 5).is_empty());
}

#[test]
fn click_on_a_region_selects_its_color() {
    let mut frame = make_solid_frame(32, 32, 0, 0, 0);
    let plane = frame.primary_plane_mut();
    for y in 10..20 {
        let row = plane.row_mut(y);
        for x in 10..20usize {
            row[x * 4] = 255;
            row[x * 4 + 1] = 0;
            row[x * 4 + 2] = 0;
        }
    }
    let clicks = [PixelClick { x: 15, y: 15, is_positive: true }];
    let mask = segment_by_color(&frame, &clicks);
    assert_eq!(mask.get(15, 15), 255);
    assert_eq!(mask.get(12, 18), 255);
    assert_eq!(mask.get(5, 5), 0);

    let excluded = [
        PixelClick { x: 15, y: 15, is_positive: true },
        PixelClick { x: 11, y: 11, is_positive: false },
    ];
    assert_eq!(segment_by_color(&frame, &excluded).get(15, 15), 0);
    assert_eq!(segment_by_color(&frame, &[]).foreground_count(), 0);

    let carried = propagate_mask(32, 32, &mask);
    assert_eq!(carried.get(21, 15), 255);
    assert_eq!(carried.get(22, 15), 0);
    assert_eq!(propagate_mask(16, 16, &mask).foreground_count(), 0);
}

#[test]
fn memory_bank_replaces_a_frame_stored_twice() {
    let mut bank: FrameMemoryBank<u8> = FrameMemoryBank::new(2);
    bank.store_frame(4, 1, MaskBuffer::new(1, 1));
    bank.store_frame(4, 2, MaskBuffer::new(1, 1));
    assert_eq!(bank.len(), 1);
    assert_eq!(*bank.nearest_before(5).unwrap().0, 2);
    assert!(bank.nearest_before(4).is_none());
    bank.clear();
    assert!(bank.is_empty());
}

#[test]
fn store_then_nearest_before_next_frame_finds_it() {
    let mut bank: FrameMemoryBank<i32> = FrameMemoryBank::new(1);
    for f in [3i64, 9, 2] {
        bank.store_frame(f, f as i32 * 10, MaskBuffer::new(1, 1));
        assert_eq!(*bank.nearest_before(f + 1).unwrap().0, f as i32 * 10);
        assert_eq!(bank.len(), 1);
    }
}

#[test]
fn analysis_files_live_in_the_project() {
    let store = AnalysisStore::new("/work/film");
    assert_eq!(store.analysis_dir(), "/work/film/.proedit/analysis");
    assert_eq!(store.json_path("a1"), "/work/film/.proedit/analysis/a1.json");
    assert_eq!(store.embeddings_path("a1"), "/work/film/.proedit/analysis/a1.emb");
    let names = vec!["a.json".to_string(), "b.emb".to_string(), ".json".to_string(), "c.d.json".to_string()];
    assert_eq!(AnalysisStore::analyzed_asset_ids(&names), vec!["a".to_string(), "c.d".to_string()]);
    assert_eq!(asset_id_of("x.JSON"), None);
}

#[test]
fn engine_starts_uninitialized() {
    let mut engine = AIEngine::new("/models/".to_string());
    assert!(!engine.is_initialized());
    engine.set_initialized();
    assert!(engine.is_initialized());
    assert_eq!(engine.model_manager().cache_dir(), "/models/");
    assert_eq!(engine.model_manager().model_path(ModelId::RIFEv4), "/models/rife_v4.onnx");
}

#[test]
fn whisper_command_line() {
    assert_eq!(choose_whisper_binary(&[false, true, true]), "whisper");
    assert_eq!(choose_whisper_binary(&[false, false, false]), "whisper-cpp");
    let config = TranscriberConfig {
        whisper_binary: "whisper".to_string(),
        model_path: "m.bin".to_string(),
        language: None,
        threads: 8,
    };
    assert_eq!(
        config.whisper_args("a.wav"),
        vec!["-m", "m.bin", "-f", "a.wav", "--output-json", "-pp", "-t", "8", "-l", "auto"]
    );
    let t = Transcriber::new(TranscriberConfig { language: Some("de".to_string()), ..config });
    assert_eq!(t.config().whisper_args("b.wav")[9], "de");
    assert!(TranscriberConfig::for_binary("whisper-cpp".to_string()).threads >= 1);
}

#[test]
fn model_sizes_match_their_labels() {
    for model in [ModelId::TransNetV2, ModelId::Whisper3Turbo, ModelId::RealESRGAN4x] {
        let spec = model.spec();
        assert_eq!(format!("{} MB", spec.size_bytes / 1_000_000), model.size_human());
        assert!(spec.url.ends_with(spec.filename));
    }
}

#[test]
fn visual_sample_plan_takes_every_interval_frame() {
    let plan = visual_sample_plan(10, 3);
    let expected: Vec<VisualSample> = [0usize, 3, 6, 9]
        .iter()
        .map(|&i| VisualSample { index: i, start_frame: i as i64, end_frame: i as i64 + 3 })
        .collect();
    assert_eq!(plan, expected);
}

#[test]
fn visual_sample_plan_edges() {
    assert!(visual_sample_plan(0, 4).is_empty());
    assert_eq!(visual_sample_plan(4, 4).len(), 1);
    assert_eq!(visual_sample_plan(5, 4).len(), 2);
    assert_eq!(visual_sample_plan(3, 1).len(), 3);
}

#[test]
fn indexing_message_counts_samples() {
    assert_eq!(indexing_message(0, 10, 3), "Indexing frame 1/3...");
    assert_eq!(indexing_message(9, 10, 3), "Indexing frame 4/3...");
    assert_eq!(indexing_message(24, 25, 1), "Indexing frame 25/25...");
}

#[test]
fn embeddings_file_only_when_indexed() {
    assert_eq!(embeddings_file("asset-1", 0), None);
    assert_eq!(embeddings_file("asset-1", 2), Some("asset-1.emb".to_string()));
}

fn average_brightness(frame: &FrameBuffer) -> f32 {
    let (sum, count) = luma_sum(frame);
    if count == 0 { 0.0 } else { (sum as f64 / 1000.0 / count as f64 / 255.0) as f32 }
}

#[test]
fn test_extract_dominant_colors() {
    let frame = make_solid_frame(64, 64, 200, 100, 50);
    let hist = color_histogram(&frame);
    let total: u64 = hist.iter().sum();
    let top = top_buckets(&hist, 3);
    assert!(!top.is_empty());
    let weight = hist[top[0]] as f32 / total as f32;
    assert!(weight > 0.5);
}

#[test]
fn test_average_brightness() {
    let black = make_solid_frame(32, 32, 0, 0, 0);
    assert!(average_brightness(&black) < 0.01);

    let white = make_solid_frame(32, 32, 255, 255, 255);
    assert!((average_brightness(&white) - 1.0).abs() < 0.01);

    let mid = make_solid_frame(32, 32, 128, 128, 128);
    let brightness = average_brightness(&mid);
    assert!((brightness - 0.502).abs() < 0.02, "Mid-gray brightness should be ~0.5, got {brightness}");
}

#[test]
fn color_histogram_counts_every_fourth_pixel() {
    // 64x64 frame: rows 0,4,...,60 and columns 0,4,...,60 are sampled.
    let frame = make_solid_frame(64, 64, 200, 100, 50);
    let hist = color_histogram(&frame);
    assert_eq!(hist.len(), 64);
    // 200/64 = 3, 100/64 = 1, 50/64 = 0 -> bucket 3*16 + 1*4 + 0 = 52.
    assert_eq!(hist[52], 256);
    assert_eq!(hist.iter().sum::<u64>(), 256);
    assert_eq!(bucket_color(52), (224, 96, 32));
}

#[test]
fn color_histogram_rounds_sample_counts_up() {
    // 5x5 frame: rows 0 and 4, columns 0 and 4.
    let frame = make_solid_frame(5, 5, 0, 0, 0);
    assert_eq!(color_histogram(&frame)[0], 4);
    assert_eq!(luma_sum(&frame), (0, 4));
    let empty = make_solid_frame(0, 0, 0, 0, 0);
    assert_eq!(luma_sum(&empty), (0, 0));
}

#[test]
fn luma_sum_is_exact() {
    let frame = make_solid_frame(8, 8, 10, 20, 30);
    // 4 samples, each 299*10 + 587*20 + 114*30 = 18150.
    assert_eq!(luma_sum(&frame), (4 * 18150, 4));
}

#[test]
fn top_buckets_rank_by_count_then_number() {
    let mut hist = vec![0u64; 64];
    hist[5] = 3;
    hist[2] = 7;
    hist[9] = 3;
    hist[40] = 1;
    assert_eq!(top_buckets(&hist, 3), vec![2, 5, 9]);
    assert_eq!(top_buckets(&hist, 10), vec![2, 5, 9, 40]);
    assert_eq!(top_buckets(&hist, 0), Vec::<usize>::new());
    assert_eq!(top_buckets(&vec![0u64; 64], 5), Vec::<usize>::new());
}

#[test]
fn analysis_windows_overlap_and_stop_at_the_end() {
    assert_eq!(analysis_windows(10, 4, 2), vec![(0, 4), (2, 6), (4, 8), (6, 10), (8, 10)]);
    assert_eq!(analysis_windows(10, 5, 5), vec![(0, 5), (5, 10)]);
    assert_eq!(analysis_windows(0, 4, 2), Vec::<(usize, usize)>::new());
    assert_eq!(analysis_windows(3, 0, 1), vec![(0, 0), (1, 1), (2, 2)]);
}

#[test]
fn group_runs_merges_neighbours_of_one_type() {
    let (d, m, s) = (AudioSegmentType::Dialogue, AudioSegmentType::Music, AudioSegmentType::Silence);
    assert_eq!(group_runs(&vec![]), Vec::<(usize, usize)>::new());
    assert_eq!(group_runs(&vec![m]), vec![(0, 0)]);
    assert_eq!(
        group_runs(&vec![d, d, m, s, s, s, d]),
        vec![(0, 1), (2, 2), (3, 5), (6, 6)]
    );
}

fn white_balance(frame: &FrameBuffer) -> [f32; 3] {
    let total = frame.width as f64 * frame.height as f64;
    let (sr, sg, sb) = channel_sums(frame);
    let avg = [sr as f64 / total, sg as f64 / total, sb as f64 / total];
    let lum = (avg[0] + avg[1] + avg[2]) / 3.0;
    if lum < 1.0 {
        return [1.0; 3];
    }
    [(lum / avg[0]).clamp(0.5, 2.0) as f32, (lum / avg[1]).clamp(0.5, 2.0) as f32, (lum / avg[2]).clamp(0.5, 2.0) as f32]
}

#[test]
fn test_auto_white_balance_neutral() {
    let frame = make_solid_frame(64, 64, 128, 128, 128);
    let wb = white_balance(&frame);
    assert!((wb[0] - 1.0).abs() < 0.01);
    assert!((wb[1] - 1.0).abs() < 0.01);
    assert!((wb[2] - 1.0).abs() < 0.01);
}

#[test]
fn test_auto_white_balance_color_cast() {
    let frame = make_solid_frame(64, 64, 100, 100, 200);
    let wb = white_balance(&frame);
    assert!(wb[0] > 1.0);
    assert!(wb[1] > 1.0);
    assert!(wb[2] < 1.0);
}

#[test]
fn test_auto_levels_full_range() {
    let mut frame = FrameBuffer::new(256, 1, PixelFormat::Rgba8);
    let row = frame.primary_plane_mut().row_mut(0);
    for x in 0..256 {
        row[x * 4] = x as u8;
        row[x * 4 + 1] = x as u8;
        row[x * 4 + 2] = x as u8;
        row[x * 4 + 3] = 255;
    }
    let (hr, _, _) = channel_histograms(&frame);
    let total = 256u64;
    let black = percentile_index(&hr, (total as f64 * 0.001) as u64).map_or(1.0, |i| i as f32 / 255.0);
    let white = percentile_index(&hr, (total as f64 * 0.999) as u64).map_or(1.0, |i| i as f32 / 255.0);
    assert!(black < 0.01);
    assert!(white > 0.99);
}

#[test]
fn test_auto_contrast() {
    // A solid frame has all its luminance in one bin: no spread to stretch.
    let frame = make_solid_frame(64, 64, 128, 128, 128);
    let hist = luma_histogram(&frame);
    assert_eq!(hist[128], 64 * 64);
    assert_eq!(hist.iter().sum::<u64>(), 64 * 64);
}

#[test]
fn channel_statistics_are_exact() {
    let frame = make_solid_frame(3, 2, 10, 20, 30);
    assert_eq!(channel_sums(&frame), (60, 120, 180));
    let (hr, hg, hb) = channel_histograms(&frame);
    assert_eq!((hr[10], hg[20], hb[30]), (6, 6, 6));
    // (77*10 + 150*20 + 29*30) / 256 = 4640 / 256 = 18
    assert_eq!(luma_histogram(&frame)[18], 6);
}

#[test]
fn percentile_index_finds_first_reaching_entry() {
    let hist = vec![2u64, 0, 3, 5];
    assert_eq!(percentile_index(&hist, 0), Some(0));
    assert_eq!(percentile_index(&hist, 2), Some(0));
    assert_eq!(percentile_index(&hist, 3), Some(2));
    assert_eq!(percentile_index(&hist, 10), Some(3));
    assert_eq!(percentile_index(&hist, 11), None);
    assert_eq!(percentile_index(&vec![], 0), None);
}

#[test]
fn stem_chunks_overlap_by_the_configured_frames() {
    let sep = StemSeparator::new(StemSeparationConfig { chunk_size: 4, overlap: 1 });
    // Stereo: chunks of 8 samples starting 6 samples apart.
    assert_eq!(sep.chunk_windows(10, 2).unwrap(), vec![(0, 8), (6, 10)]);
    // An overlap as long as the chunk still advances one frame at a time.
    let tight = StemSeparator::new(StemSeparationConfig { chunk_size: 2, overlap: 5 });
    assert_eq!(tight.chunk_windows(3, 1).unwrap(), vec![(0, 2), (1, 3), (2, 3)]);
}

#[test]
fn stem_chunks_refuse_empty_audio() {
    let sep = StemSeparator::new(StemSeparationConfig::default());
    assert_eq!(sep.chunk_windows(0, 2).unwrap_err().message(), "Preprocessing error: Empty audio buffer");
    assert_eq!(sep.chunk_windows(5, 0).unwrap_err().message(), "Preprocessing error: Zero channels");
}

#[test]
fn test_merge_segments() {
    let raw = vec![
        (0.0, 1.0, AudioSegmentType::Dialogue, 0.8),
        (1.0, 2.0, AudioSegmentType::Dialogue, 0.9),
        (2.0, 3.0, AudioSegmentType::Music, 0.7),
        (3.0, 4.0, AudioSegmentType::Music, 0.8),
    ];
    let types: Vec<AudioSegmentType> = raw.iter().map(|r| r.2).collect();
    let merged = group_runs(&types);
    assert_eq!(merged.len(), 2);
    assert_eq!(raw[merged[0].0].2, AudioSegmentType::Dialogue);
    assert!((raw[merged[0].1].1 - 2.0f64).abs() < 0.001);
    assert_eq!(raw[merged[1].0].2, AudioSegmentType::Music);
}

#[test]
fn test_separate_empty_fails() {
    let separator = StemSeparator::new(StemSeparationConfig::default());
    assert!(separator.chunk_windows(0, 2).is_err());
}

#[test]
fn split_words_takes_runs_between_white_space() {
    assert_eq!(split_words(" Hello world"), vec!["Hello".to_string(), "world".to_string()]);
    assert_eq!(split_words("a\t\tb\nc  "), vec!["a".to_string(), "b".to_string(), "c".to_string()]);
    assert_eq!(split_words("   "), Vec::<String>::new());
    assert_eq!(split_words(""), Vec::<String>::new());
    // No-break space separates words as `split_whitespace` does.
    assert_eq!(split_words("um\u{a0}so"), vec!["um".to_string(), "so".to_string()]);
}

#[test]
fn analysis_windows_leave_no_sample_out() {
    let windows = analysis_windows(11, 3, 3);
    for s in 0..11 {
        assert!(windows.iter().any(|&(a, b)| a <= s && s < b));
        let k = s / 3;
        assert!(windows[k].0 <= s && s < windows[k].1);
    }
}

#[test]
fn bucket_counts_add_up_to_the_samples() {
    let frame = make_solid_frame(10, 9, 70, 140, 210);
    let hist = color_histogram(&frame);
    let (_, count) = luma_sum(&frame);
    assert_eq!(hist.iter().sum::<u64>(), count);
}

#[test]
fn sampled_frames_are_the_multiples_of_the_interval() {
    let plan = visual_sample_plan(20, 6);
    let indices: Vec<usize> = plan.iter().map(|s| s.index).collect();
    let multiples: Vec<usize> = (0..20).filter(|i| i % 6 == 0).collect();
    assert_eq!(indices, multiples);
}

#[test]
fn segment_words_skip_a_missing_or_blank_text() {
    assert_eq!(segment_words(Some("  so   um hello\t")), vec!["so".to_string(), "um".to_string(), "hello".to_string()]);
    assert!(segment_words(Some(" \n ")).is_empty());
    assert!(segment_words(None).is_empty());
}

#[test]
fn transcript_language_defaults_to_english() {
    assert_eq!(transcript_language(None), "en");
    assert_eq!(transcript_language(Some("de")), "de");
}

#[test]
fn memory_bank_count_grows_by_one_up_to_capacity() {
    let mut bank: FrameMemoryBank<u8> = FrameMemoryBank::new(2);
    bank.store_frame(7, 1, MaskBuffer::new(1, 1));
    assert_eq!(bank.len(), 1);
    bank.store_frame(3, 2, MaskBuffer::new(1, 1));
    assert_eq!(bank.len(), 2);
    bank.store_frame(9, 3, MaskBuffer::new(1, 1));
    assert_eq!(bank.len(), 2);
    assert!(bank.nearest_before(7).is_none());
    assert_eq!(*bank.nearest_before(9).unwrap().0, 1);
    assert_eq!(*bank.nearest_before(100).unwrap().0, 3);
}

#[test]
fn threads_follow_the_cpu_count() {
    let c = TranscriberConfig::with_cpu_count("whisper".to_string(), 8);
    assert_eq!(c.threads, 8);
    assert_eq!(c.whisper_binary, "whisper");
    assert!(c.language.is_none());
    assert!(c.model_path.is_empty());
    assert_eq!(TranscriberConfig::with_cpu_count("w".to_string(), usize::MAX).threads, u32::MAX);
}

#[test]
fn ffmpeg_extracts_sixteen_kilohertz_mono() {
    assert_eq!(
        ffmpeg_extract_args("in.mov", "/tmp/a.wav"),
        vec!["-i", "in.mov", "-ar", "16000", "-ac", "1", "-vn", "/tmp/a.wav", "-y"]
    );
}
