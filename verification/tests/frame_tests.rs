use proedit::compositor::{layer_order, render_black_frame, render_plan, CompositorConfig, PlanNode};
use proedit::foundation::color::{ColorConfig, ColorSpace as CoreColorSpace, TransferFunction};
use proedit::foundation::error::ProEditError;
use proedit::foundation::frame::{FrameBuffer, FramePlane, PixelFormat};

#[test]
fn test_rgba8_frame_size() {
    let frame = FrameBuffer::new(1920, 1080, PixelFormat::Rgba8);
    assert!(frame.memory_size() >= 1920 * 1080 * 4);
}

#[test]
fn test_yuv420p_planes() {
    let frame = FrameBuffer::new(1920, 1080, PixelFormat::Yuv420P);
    assert_eq!(frame.planes.len(), 3);
    assert_eq!(frame.planes[0].width, 1920);
    assert_eq!(frame.planes[1].width, 960);
    assert_eq!(frame.planes[2].width, 960);
}

#[test]
fn test_test_pattern() {
    let frame = FrameBuffer::test_pattern(1920, 1080);
    assert_eq!(frame.width, 1920);
    assert_eq!(frame.height, 1080);
    let row = frame.primary_plane().row(0);
    assert_eq!(row[0..4], [255, 255, 255, 255]);
}

#[test]
fn test_render_black_frame() {
    let frame = render_black_frame(4, 4);
    assert_eq!(frame.len(), 64);
    assert!(frame.iter().all(|&b| b == 0));
}

#[test]
fn pixel_format_sizes() {
    assert_eq!(PixelFormat::Rgba8.bytes_per_pixel(), 4);
    assert_eq!(PixelFormat::Rgba32F.bytes_per_pixel(), 16);
    assert_eq!(PixelFormat::Nv12.plane_count(), 2);
    assert_eq!(PixelFormat::Yuv420P.plane_count(), 3);
    assert_eq!(PixelFormat::Rgba8.frame_size(10, 10), 400);
    assert_eq!(PixelFormat::Yuv420P.frame_size(4, 4), 24);
    assert_eq!(PixelFormat::default(), PixelFormat::Rgba8);
}

#[test]
fn plane_rows_are_aligned_to_64_bytes() {
    let p = FramePlane::new(10, 3, 4);
    assert_eq!(p.stride, 64);
    assert_eq!(p.data.len(), 192);
    // The row length is estimated from the stride: 64 / 10 = 6 bytes a pixel.
    assert_eq!(p.row(2).len(), 60);
}

#[test]
fn writing_a_row_changes_only_that_row() {
    let mut p = FramePlane::new(2, 2, 4);
    p.row_mut(1)[0] = 9;
    assert_eq!(p.row(1)[0], 9);
    assert_eq!(p.row(0)[0], 0);
    assert_eq!(p.data[64], 9);
}

#[test]
fn test_pattern_shows_eight_bars() {
    let frame = FrameBuffer::test_pattern(16, 2);
    let row = frame.primary_plane().row(1);
    let expected: [[u8; 4]; 8] = [
        [255, 255, 255, 255],
        [255, 255, 0, 255],
        [0, 255, 255, 255],
        [0, 255, 0, 255],
        [255, 0, 255, 255],
        [255, 0, 0, 255],
        [0, 0, 255, 255],
        [0, 0, 0, 255],
    ];
    for x in 0..16usize {
        assert_eq!(row[x * 4..x * 4 + 4], expected[x / 2]);
    }
    let narrow = FrameBuffer::test_pattern(10, 1);
    assert!(narrow.primary_plane().data[40..64].iter().all(|&b| b == 0));
    assert_eq!(narrow.primary_plane().data[36..40], [0, 0, 0, 255]);
}

#[test]
fn nv12_frame_has_half_size_chroma() {
    let frame = FrameBuffer::new(8, 6, PixelFormat::Nv12);
    assert_eq!(frame.planes.len(), 2);
    assert_eq!(frame.planes[1].width, 4);
    assert_eq!(frame.planes[1].height, 3);
    assert_eq!(frame.memory_size(), 64 * 6 + 64 * 3);
}

#[test]
fn compositor_defaults_to_full_hd() {
    let c = CompositorConfig::default();
    assert_eq!(c.width, 1920);
    assert_eq!(c.height, 1080);
}

#[test]
fn color_config_presets() {
    let c = ColorConfig::default();
    assert_eq!(c.space, CoreColorSpace::Srgb);
    assert_eq!(c.transfer, TransferFunction::Srgb);
    assert_eq!(ColorConfig::linear_srgb().transfer, TransferFunction::Linear);
    assert_eq!(ColorConfig::rec709().space, CoreColorSpace::Rec709);
    assert_eq!(ColorConfig::new(CoreColorSpace::DciP3, TransferFunction::Pq).space, CoreColorSpace::DciP3);
}

#[test]
fn error_messages_name_their_kind() {
    assert_eq!(ProEditError::Media("bad file".to_string()).message(), "Media error: bad file");
    assert_eq!(ProEditError::Shader("x".to_string()).message(), "Shader compilation error: x");
    assert_eq!(ProEditError::NotFound("clip".to_string()).message(), "Resource not found: clip");
    let io = ProEditError::Io(std::io::Error::new(std::io::ErrorKind::Other, "disk"));
    assert!(io.message().starts_with("I/O error: "));
}

#[test]
fn test_build_graph_empty() {
    // A black source and the output.
    assert_eq!(render_plan(0), vec![PlanNode::Source { frame_id: 0 }, PlanNode::Output { input: 0 }]);
}

#[test]
fn test_build_graph_single_clip() {
    assert_eq!(render_plan(1).len(), 2);
}

#[test]
fn test_build_graph_two_clips_overlapping() {
    let plan = render_plan(2);
    assert_eq!(plan.len(), 4);
    assert_eq!(
        plan,
        vec![
            PlanNode::Source { frame_id: 0 },
            PlanNode::Source { frame_id: 1 },
            PlanNode::Composite { below: 0, above: 1 },
            PlanNode::Output { input: 2 },
        ]
    );
}

#[test]
fn render_plan_chains_composites() {
    let plan = render_plan(3);
    assert_eq!(plan.len(), 6);
    assert_eq!(plan[3], PlanNode::Composite { below: 0, above: 1 });
    assert_eq!(plan[4], PlanNode::Composite { below: 3, above: 2 });
    assert_eq!(plan[5], PlanNode::Output { input: 4 });
}

#[test]
fn layers_paint_back_to_front() {
    // Higher tracks are further back; one track keeps its clips' order.
    assert_eq!(layer_order(&vec![0, 2, 1, 2]), vec![1, 3, 2, 0]);
    assert_eq!(layer_order(&vec![]), Vec::<usize>::new());
    assert_eq!(layer_order(&vec![5, 5, 5]), vec![0, 1, 2]);
}

#[test]
fn render_plan_is_in_dependency_order() {
    for n in 0..5usize {
        let plan = render_plan(n);
        for (k, node) in plan.iter().enumerate() {
            match *node {
                PlanNode::Source { .. } => {}
                PlanNode::Composite { below, above } => assert!(below < k && above < k),
                PlanNode::Output { input } => assert!(input < k),
            }
        }
        assert!(matches!(plan[plan.len() - 1], PlanNode::Output { .. }));
    }
}
