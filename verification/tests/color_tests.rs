use proedit::color::color_space::ColorSpace;
use proedit::color::error::ColorError;
use proedit::color::pipeline::{build_steps, ColorStep};
use proedit::color::lut::{parse_cube, LutKind};
use proedit::color::tonemapping::ToneMapOperator;
use proedit::effects::transitions::{CrossDissolve, DipToBlack, Iris, IrisShape, Push, PushDirection, Wipe};

#[test]
fn test_1d_wrong_size() {
    let cube = "LUT_1D_SIZE 5\n0.0 0.0 0.0\n1.0 1.0 1.0\n";
    assert!(parse_cube(cube, LutKind::OneD).is_err());
}

#[test]
fn test_3d_wrong_type() {
    let cube = "LUT_1D_SIZE 3\n0.0 0.0 0.0\n0.5 0.5 0.5\n1.0 1.0 1.0\n";
    assert!(parse_cube(cube, LutKind::ThreeD).is_err());
}

#[test]
fn one_d_cube_keeps_its_rows_as_text() {
    let cube = "TITLE \"x\"\n# comment\r\nLUT_1D_SIZE 3\r\n0.0 0.0 0.0\n0.5 0.5 0.5\n1.0 1.0 1.0\n";
    let t = parse_cube(cube, LutKind::OneD).unwrap();
    assert_eq!(t.size, 3);
    assert_eq!(t.rows.len(), 3);
    assert_eq!(t.rows[1], vec!["0.5", "0.5", "0.5"]);
    assert!(t.domain_min.is_none());
}

#[test]
fn three_d_cube_needs_size_cubed_rows() {
    let mut cube = String::from("LUT_3D_SIZE 2\nDOMAIN_MIN 0 0 0\nDOMAIN_MAX 1 1 1e0\n");
    for b in 0..2 {
        for g in 0..2 {
            for r in 0..2 {
                cube.push_str(&format!("{r}.0 {g}.0 {b}.0\n"));
            }
        }
    }
    let t = parse_cube(&cube, LutKind::ThreeD).unwrap();
    assert_eq!(t.size, 2);
    assert_eq!(t.rows.len(), 8);
    assert_eq!(t.domain_max, Some(vec!["1".to_string(), "1".to_string(), "1e0".to_string()]));
    match parse_cube("LUT_3D_SIZE 2\n0 0 0\n", LutKind::ThreeD) {
        Err(ColorError::DimensionMismatch { expected, got }) => {
            assert_eq!((expected, got), (8, 1));
        },
        other => panic!("unexpected {:?}", other),
    }
}

#[test]
fn cube_errors_carry_their_messages() {
    match parse_cube("0 0 0\n", LutKind::ThreeD) {
        Err(ColorError::InvalidLut(m)) => assert_eq!(m, "missing LUT_3D_SIZE"),
        other => panic!("unexpected {:?}", other),
    }
    match parse_cube("LUT_1D_SIZE x\n", LutKind::OneD) {
        Err(ColorError::Parse(m)) => assert_eq!(m, "bad LUT_1D_SIZE: invalid digit found in string"),
        other => panic!("unexpected {:?}", other),
    }
    match parse_cube("0 0 0\n", LutKind::OneD) {
        Err(ColorError::InvalidLut(m)) => assert_eq!(m, "LUT must have at least 2 entries"),
        other => panic!("unexpected {:?}", other),
    }
    match parse_cube("LUT_3D_SIZE 2\n", LutKind::OneD) {
        Err(e) => assert_eq!(e.message(), "invalid LUT format: expected 1D LUT, got 3D"),
        other => panic!("unexpected {:?}", other),
    }
}

#[test]
fn rows_that_are_not_three_numbers_are_skipped() {
    let cube = "1 2\n0 0 0 0\nnan -inf +1.5e-3\n1 x 2\n.5 5. 1E+2\n";
    let t = parse_cube(cube, LutKind::OneD).unwrap();
    assert_eq!(t.rows.len(), 2);
    assert_eq!(t.rows[0], vec!["nan", "-inf", "+1.5e-3"]);
    assert_eq!(t.rows[1], vec![".5", "5.", "1E+2"]);
}

#[test]
fn dimension_error_message() {
    let e = ColorError::DimensionMismatch { expected: 8, got: 1 };
    assert_eq!(e.message(), "dimension mismatch: expected 8, got 1");
}

#[test]
fn tone_map_names() {
    assert_eq!(ToneMapOperator::Hable.name(), "Hable (Uncharted 2)");
    assert_eq!(ToneMapOperator::AcesFilmic.name(), "ACES Filmic");
}

#[test]
fn transitions_are_named() {
    assert_eq!(CrossDissolve.name(), "Cross Dissolve");
    assert_eq!(DipToBlack.name(), "Dip to Black");
    assert_eq!(Iris::default().shape, IrisShape::Circle);
    assert_eq!(Iris { shape: IrisShape::Diamond }.name(), "Iris");
    assert_eq!(Push::default().direction, PushDirection::Left);
    assert_eq!(Wipe::default().name(), "Wipe");
}

#[test]
fn pipeline_steps_go_through_xyz() {
    let (srgb, rec709, aces, lin) = (ColorSpace::SRGB, ColorSpace::Rec709, ColorSpace::ACEScg, ColorSpace::LinearSRGB);
    assert_eq!(build_steps(srgb, srgb, srgb), vec![]);
    assert_eq!(
        build_steps(srgb, aces, rec709),
        vec![
            ColorStep::ToLinear(srgb),
            ColorStep::ToXyz(srgb),
            ColorStep::FromXyz(aces),
            ColorStep::ToXyz(aces),
            ColorStep::FromXyz(rec709),
            ColorStep::FromLinear(rec709),
        ]
    );
    assert_eq!(build_steps(lin, lin, aces), vec![ColorStep::ToXyz(lin), ColorStep::FromXyz(aces)]);
}

#[test]
fn test_identity_pipeline() {
    assert!(build_steps(ColorSpace::SRGB, ColorSpace::SRGB, ColorSpace::SRGB).is_empty());
}

#[test]
fn test_srgb_to_acescg_pipeline() {
    let steps = build_steps(ColorSpace::SRGB, ColorSpace::ACEScg, ColorSpace::SRGB);
    assert!(!steps.is_empty());
    // Decode, to XYZ, into ACEScg, back to XYZ, into sRGB, encode.
    assert_eq!(steps.len(), 6);
    assert_eq!(steps[0], ColorStep::ToLinear(ColorSpace::SRGB));
    assert_eq!(steps[5], ColorStep::FromLinear(ColorSpace::SRGB));
}
