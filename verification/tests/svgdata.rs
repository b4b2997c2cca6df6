use svg2cetz::error::ConvertError;
use svg2cetz::svgdata::{
    parse_path, parse_transform, segment_from_piece, segments_from_pieces, transform_from_parts,
    RawSegment, Segment, SegmentKind,
};

fn coefficients(text: &str) -> Result<[i64; 6], ConvertError> {
    parse_transform(text.as_bytes())
        .map(|t| [t.a.raw(), t.b.raw(), t.c.raw(), t.d.raw(), t.e.raw(), t.f.raw()])
}

const ONE: i64 = 1_000_000_000;

fn parts(texts: &[&str]) -> Vec<Vec<u8>> {
    texts.iter().map(|t| t.as_bytes().to_vec()).collect()
}

fn piece(kind: SegmentKind, texts: &[&str]) -> RawSegment {
    RawSegment { kind, numbers: parts(texts) }
}

fn whole(n: i64) -> svg2cetz::fixed::Fixed {
    svg2cetz::fixed::Fixed::from_raw(n * ONE)
}

#[test]
fn matrix_is_read_as_written() {
    assert_eq!(
        coefficients("matrix(1 2 3 4 5 6)"),
        Ok([ONE, 2 * ONE, 3 * ONE, 4 * ONE, 5 * ONE, 6 * ONE])
    );
    assert_eq!(
        coefficients("matrix(0.01,0,0,-0.01,0,0)"),
        Ok([10_000_000, 0, 0, -10_000_000, 0, 0])
    );
}

#[test]
fn transform_lists_are_multiplied_out() {
    assert_eq!(coefficients("translate(10 20)"), Ok([ONE, 0, 0, ONE, 10 * ONE, 20 * ONE]));
    assert_eq!(coefficients("translate(10)"), Ok([ONE, 0, 0, ONE, 10 * ONE, 0]));
    assert_eq!(coefficients("scale(2)"), Ok([2 * ONE, 0, 0, 2 * ONE, 0, 0]));
    assert_eq!(
        coefficients("translate(10 20) scale(2 3)"),
        Ok([2 * ONE, 0, 0, 3 * ONE, 10 * ONE, 20 * ONE])
    );
    assert_eq!(coefficients("rotate(90)"), Ok([0, ONE, -ONE, 0, 0, 0]));
    assert_eq!(coefficients(""), Ok([ONE, 0, 0, ONE, 0, 0]));
}

#[test]
fn malformed_transforms_are_refused() {
    assert_eq!(coefficients("spin(3)"), Err(ConvertError::MalformedTransform));
    assert_eq!(coefficients("matrix(1 2 3)"), Err(ConvertError::MalformedTransform));
    assert_eq!(coefficients("translate(a)"), Err(ConvertError::MalformedTransform));
    assert_eq!(
        parse_transform(&[0x74, 0xff, 0x28, 0x31, 0x29]).map(|t| t.a.raw()),
        Err(ConvertError::MalformedTransform)
    );
}

#[test]
fn transform_needs_six_numbers() {
    let t = transform_from_parts(&parts(&["1", "0", "0", "-1", "2.5", "-0"])).unwrap();
    assert_eq!(
        [t.a.raw(), t.b.raw(), t.c.raw(), t.d.raw(), t.e.raw(), t.f.raw()],
        [ONE, 0, 0, -ONE, 2_500_000_000, 0]
    );
    assert_eq!(
        transform_from_parts(&parts(&["1", "0", "0", "1", "0"])).err(),
        Some(ConvertError::MalformedTransform)
    );
    assert_eq!(
        transform_from_parts(&parts(&["1", "0", "0", "1", "0", "0", "0"])).err(),
        Some(ConvertError::MalformedTransform)
    );
    assert_eq!(
        transform_from_parts(&parts(&["1", "0", "0", "1", "0", "NaN"])).err(),
        Some(ConvertError::MalformedTransform)
    );
    assert_eq!(
        transform_from_parts(&parts(&["inf", "0", "0", "1", "0", "0"])).err(),
        Some(ConvertError::MalformedTransform)
    );
}

#[test]
fn path_data_is_read_in_absolute_coordinates() {
    assert_eq!(
        parse_path(b"M0 0 L10 0 L10 10"),
        Ok(vec![
            Segment::MoveTo { x: whole(0), y: whole(0) },
            Segment::LineTo { x: whole(10), y: whole(0) },
            Segment::LineTo { x: whole(10), y: whole(10) },
        ])
    );
    assert_eq!(
        parse_path(b"m 1 1 l 2 2 h 3 v 4 z"),
        Ok(vec![
            Segment::MoveTo { x: whole(1), y: whole(1) },
            Segment::LineTo { x: whole(3), y: whole(3) },
            Segment::LineTo { x: whole(6), y: whole(3) },
            Segment::LineTo { x: whole(6), y: whole(7) },
            Segment::ClosePath,
        ])
    );
    assert_eq!(
        parse_path(b"M 0 0 C 1 2 3 4 5 6"),
        Ok(vec![
            Segment::MoveTo { x: whole(0), y: whole(0) },
            Segment::CurveTo {
                x1: whole(1),
                y1: whole(2),
                x2: whole(3),
                y2: whole(4),
                x: whole(5),
                y: whole(6),
            },
        ])
    );
    assert_eq!(parse_path(b""), Ok(vec![]));
}

#[test]
fn arcs_come_as_curves() {
    let segments = parse_path(b"M 0 0 A 5 5 0 0 1 10 0").unwrap();
    assert!(segments.len() >= 2);
    assert_eq!(segments[0], Segment::MoveTo { x: whole(0), y: whole(0) });
    for s in &segments[1..] {
        assert!(matches!(s, Segment::CurveTo { .. }));
    }
    match segments[segments.len() - 1] {
        Segment::CurveTo { x, y, .. } => {
            assert!((x.raw() - 10 * ONE).abs() <= 10);
            assert!(y.raw().abs() <= 10);
        }
        _ => unreachable!(),
    }
}

#[test]
fn malformed_paths_are_refused() {
    assert_eq!(parse_path(b"L 1 1"), Err(ConvertError::MalformedPath));
    assert_eq!(parse_path(b"M 0 0 L 1"), Err(ConvertError::MalformedPath));
    assert_eq!(parse_path(b"M 0 0 X"), Err(ConvertError::MalformedPath));
    assert_eq!(parse_path(&[0x4d, 0xff]), Err(ConvertError::MalformedPath));
}

#[test]
fn quadratic_curves_are_not_supported() {
    assert_eq!(parse_path(b"M 0 0 Q 1 1 2 2"), Err(ConvertError::MalformedPath));
    assert_eq!(parse_path(b"M 0 0 T 2 2"), Err(ConvertError::MalformedPath));
    assert_eq!(segment_from_piece(&piece(SegmentKind::Quadratic, &["1", "1", "2", "2"])), None);
}

#[test]
fn pieces_need_the_right_count_of_numbers() {
    assert_eq!(
        segment_from_piece(&piece(SegmentKind::Move, &["1", "2"])),
        Some(Segment::MoveTo { x: whole(1), y: whole(2) })
    );
    assert_eq!(
        segment_from_piece(&piece(SegmentKind::Line, &["1.5", "-2"])),
        Some(Segment::LineTo {
            x: svg2cetz::fixed::Fixed::from_raw(1_500_000_000),
            y: whole(-2)
        })
    );
    assert_eq!(segment_from_piece(&piece(SegmentKind::Close, &[])), Some(Segment::ClosePath));
    assert_eq!(segment_from_piece(&piece(SegmentKind::Move, &["1"])), None);
    assert_eq!(segment_from_piece(&piece(SegmentKind::Move, &["1", "2", "3"])), None);
    assert_eq!(segment_from_piece(&piece(SegmentKind::Line, &["1", "x"])), None);
    assert_eq!(segment_from_piece(&piece(SegmentKind::Curve, &["1", "2", "3", "4", "5"])), None);
    assert_eq!(segment_from_piece(&piece(SegmentKind::Close, &["1"])), None);
    assert_eq!(
        segments_from_pieces(&vec![
            piece(SegmentKind::Move, &["1", "2"]),
            piece(SegmentKind::Line, &["NaN", "2"]),
        ]),
        Err(ConvertError::MalformedPath)
    );
    assert_eq!(
        segments_from_pieces(&vec![
            piece(SegmentKind::Move, &["1", "2"]),
            piece(SegmentKind::Close, &[]),
        ]),
        Ok(vec![Segment::MoveTo { x: whole(1), y: whole(2) }, Segment::ClosePath])
    );
}

#[test]
fn arcs_need_moderate_numbers() {
    for d in [
        &b"M0 0A1 1 0 0 1 1e-200 0"[..],
        b"M0 0A1 1 0 0 1 1e-21 0",
        b"M0 0A1 1 0 0 1 1e10 0",
        b"M0 0A1 1 0 0 1 1E+10 0",
        b"M0 0A1 1 0 0 1 10e9 0",
        b"M0 0A1 1 0 0 1 1234567890.5e1 0",
        b"M0 0A1 1 0 0 1 1e100 0",
        b"M1e-200 0A1 1 0 0 1 0 0",
        b"M0 0A10000000000 1 0 0 1 1 0",
        b"M0 0A.0001 12345678901 0 0 1 1 0",
        b"M0 0A1 1 0 0 1 .00000000000000000000000000000000000000001 0",
    ] {
        assert!(!svg2cetz::svgdata::is_tame(d), "{:?}", std::str::from_utf8(d));
        assert_eq!(parse_path(d), Err(ConvertError::MalformedPath));
    }
    for d in [
        &b"M0 0 a1 1 0 0 1 1E2 0"[..],
        b"M0 0 a1 1 0 0 1 1e-20 0",
        b"M0 0 a1 1 0 0 1 1e+5 0",
        b"M0 0 a1 1 0 0 1 1e6 0",
        b"M0 0 a1.5e1.5e1 0 0 1 2.5e-1-3",
        b"M0 0A1 1 0 0 1 0.000000000000000001 0",
        b"M0 0A1 1 0 0 1 0.0000000000000000000000000000000000000001 0",
        b"M0 0A1234567890.12345678901234567 1 0 0 1 1 0",
        b"M0 0 a12.5,12.5 0 1,0 25,0 a12.5,12.5 0 1,0 -25,0 z",
    ] {
        assert!(svg2cetz::svgdata::is_tame(d), "{:?}", std::str::from_utf8(d));
        assert!(parse_path(d).is_ok(), "{:?}", std::str::from_utf8(d));
    }
    for d in [
        &b"M0 0A1 1 0 0 1 1e9 0"[..],
        b"M0 0A1 1 0 0 1 .5e10 0",
        b"M0 0A1 1 0 0 1 99e08 0",
        b"M0 0A1 1 0 0 1 9999999999.9 0",
        b"M0 0A1 1 0 0 1 0000000001 0",
    ] {
        assert!(svg2cetz::svgdata::is_tame(d), "{:?}", std::str::from_utf8(d));
    }
    // Without an arc every number goes to the parser.
    assert!(svg2cetz::svgdata::is_tame(b"M0 0 L1e-200 0"));
    assert!(svg2cetz::svgdata::is_tame(b"M0 0 L12345678901234567890 1e30"));
    assert_eq!(
        parse_path(b"M0 0 L1e2 0"),
        Ok(vec![
            Segment::MoveTo { x: whole(0), y: whole(0) },
            Segment::LineTo { x: whole(100), y: whole(0) },
        ])
    );
}

#[test]
fn arc_with_unlike_radii_comes_to_few_curves() {
    // The radii grow by the ratio of the distance to the smaller of them, and
    // the number of curves with the sixth root of the larger.
    let segments = parse_path(b"M0 0A.01 10 0 0 1 10 0").unwrap();
    assert_eq!(segments[0], Segment::MoveTo { x: whole(0), y: whole(0) });
    assert!(segments.len() > 2 && segments.len() < 100, "{}", segments.len());
    // Where they grow beyond the range of numbers, so do the curves.
    assert_eq!(parse_path(b"M0 0A.0001 1000 0 0 1 1000 0"), Err(ConvertError::MalformedPath));
}

#[test]
fn long_stretches_of_arcs_and_close_commands_are_refused() {
    let mut d = b"M0 0 L1 1".to_vec();
    for _ in 0..64 {
        d.extend_from_slice(b" z");
    }
    assert!(svg2cetz::svgdata::is_tame(&d));
    assert_eq!(parse_path(&d).map(|v| v.len()), Ok(3));
    d.extend_from_slice(b"\n\tZ");
    assert!(!svg2cetz::svgdata::is_tame(&d));
    assert_eq!(parse_path(&d), Err(ConvertError::MalformedPath));

    let mut many = Vec::new();
    for _ in 0..3000 {
        many.extend_from_slice(b"M0 0 L1 1 z ");
    }
    assert!(svg2cetz::svgdata::is_tame(&many));
    assert_eq!(parse_path(&many).map(|v| v.len()), Ok(9000));

    let mut still = b"M0 0".to_vec();
    for _ in 0..18 {
        still.extend_from_slice(b" a 1 1 0 0 0 0.00000000000000001 0");
    }
    assert!(svg2cetz::svgdata::is_tame(&still));
    assert_eq!(parse_path(&still).map(|v| v.len()), Ok(1));
    still.extend_from_slice(b" a 1 1 0 0 0 0.00000000000000001 0");
    assert!(!svg2cetz::svgdata::is_tame(&still));
    assert_eq!(parse_path(&still), Err(ConvertError::MalformedPath));

    let mut rounded = b"M0 0".to_vec();
    for _ in 0..2000 {
        rounded.extend_from_slice(b" a5 5 0 0 1 5 5 h10 a5 5 0 0 1 5 -5 z");
    }
    assert!(svg2cetz::svgdata::is_tame(&rounded));
    assert!(parse_path(&rounded).is_ok());

    let mut repeated = b"M0 0 a".to_vec();
    for _ in 0..64 {
        repeated.extend_from_slice(b"1 1 0 0 1 1 1 ");
    }
    assert!(svg2cetz::svgdata::is_tame(&repeated));
    repeated.extend_from_slice(b"1 1 0 0 1 1 1 ");
    assert!(!svg2cetz::svgdata::is_tame(&repeated));
}
