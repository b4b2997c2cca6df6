use svg2cetz::affine::Transform;
use svg2cetz::convert::convert;
use svg2cetz::error::ConvertError;
use svg2cetz::fixed::Fixed;

fn n(units: i64) -> Fixed {
    Fixed::from_raw(units)
}

fn flipped_hundredth() -> Transform {
    Transform::new(n(10_000_000), n(0), n(0), n(-10_000_000), n(0), n(0))
}

fn render(document: &str, root: &Transform) -> Result<String, ConvertError> {
    let mut out = Vec::new();
    convert(document.as_bytes(), root, n(270_000_000), &mut out)?;
    Ok(String::from_utf8(out).unwrap())
}

#[test]
fn rect_under_scaled_root() {
    let svg = r#"<svg><rect x="0" y="0" width="100" height="50"/></svg>"#;
    assert_eq!(
        render(svg, &flipped_hundredth()).unwrap(),
        "rect((0, 0), (1, -0.5), stroke: none, )\n"
    );
}

#[test]
fn circle_under_identity() {
    let svg = r#"<svg><circle cx="10" cy="10" r="5"/></svg>"#;
    assert_eq!(
        render(svg, &Transform::identity()).unwrap(),
        "circle((10, 10), radius: 5, stroke: none, )\n"
    );
}

#[test]
fn text_content_is_escaped() {
    let svg = r#"<svg><text x="5" y="5">A$B</text></svg>"#;
    assert_eq!(
        render(svg, &Transform::identity()).unwrap(),
        "content((5, 5), anchor: \"south-west\", [A\\$B])\n"
    );
}

#[test]
fn span_places_each_character() {
    let svg = r#"<svg><text><tspan x="0 10 20" y="0 0 0">xyz</tspan></text></svg>"#;
    assert_eq!(
        render(svg, &Transform::identity()).unwrap(),
        "content((0, 0), anchor: \"south-west\", [x])\n\
         content((10, 0), anchor: \"south-west\", [y])\n\
         content((20, 0), anchor: \"south-west\", [z])\n"
    );
}

#[test]
fn unfilled_path_draws_separate_lines() {
    let svg = r##"<svg><path d="M0 0 L10 0 L10 10" style="fill:none;stroke:#000;stroke-width:1px"/></svg>"##;
    assert_eq!(
        render(svg, &Transform::identity()).unwrap(),
        "line((0, 0), (10, 0), stroke: (paint: #000, thickness: 1pt, ), )\n\
         line((10, 0), (10, 10), stroke: (paint: #000, thickness: 1pt, ), )\n"
    );
}

#[test]
fn filled_path_is_one_group() {
    let svg = r##"<svg><path d="M0 0 L10 0 C 10 5 5 10 0 10 Z" style="fill:#f00"/></svg>"##;
    assert_eq!(
        render(svg, &Transform::identity()).unwrap(),
        "merge-path(fill: #f00, stroke: none, {\n\
         line((0, 0), (10, 0), )\n\
         bezier((10,0), (0,10), (10,5), (5,10), )\n\
         })\n"
    );
}

#[test]
fn group_transform_composes_with_root() {
    let svg = r#"<svg><g transform="translate(10 20)"><rect x="1" y="2" width="3" height="4"/></g><rect x="1" y="2" width="3" height="4"/></svg>"#;
    assert_eq!(
        render(svg, &flipped_hundredth()).unwrap(),
        "rect((0.11, -0.22), (0.14, -0.26), stroke: none, )\n\
         rect((0.01, -0.02), (0.04, -0.06), stroke: none, )\n"
    );
}

#[test]
fn ellipse_has_two_radii() {
    let svg = r#"<svg><ellipse cx="10" cy="20" rx="3" ry="4" style="fill:blue"/></svg>"#;
    assert_eq!(
        render(svg, &flipped_hundredth()).unwrap(),
        "circle((0.1, -0.2), radius: (0.03, -0.04), fill: blue, stroke: none, )\n"
    );
}

#[test]
fn text_style_is_written() {
    let svg = r#"<svg><text x="1px" y="2" style="font-size:10px;font-family:'Fira Code', monospace;fill:#333">a</text></svg>"#;
    assert_eq!(
        render(svg, &Transform::identity()).unwrap(),
        "content((1, 2), anchor: \"south-west\", text(size: 2.7pt, font: (\"Fira Code\", ), fill: #333, )[a])\n"
    );
}

#[test]
fn span_inherits_style_of_text() {
    let svg = r#"<svg><text x="1" y="2" style="font-size:10px"><tspan x="3" y="4">ab</tspan></text></svg>"#;
    assert_eq!(
        render(svg, &Transform::identity()).unwrap(),
        "content((3, 4), anchor: \"south-west\", text(size: 2.7pt, )[ab])\n"
    );
}

#[test]
fn text_outside_text_element_fails() {
    let svg = r#"<svg><g>stray</g></svg>"#;
    assert_eq!(
        render(svg, &Transform::identity()),
        Err(ConvertError::MissingTextContainer)
    );
}

#[test]
fn span_without_positions_fails() {
    let svg = r#"<svg><text x="1" y="2"><tspan>ab</tspan></text></svg>"#;
    assert_eq!(
        render(svg, &Transform::identity()),
        Err(ConvertError::MissingTextAnchor)
    );
}

#[test]
fn malformed_number_fails() {
    let svg = r#"<svg><rect x="abc"/></svg>"#;
    assert_eq!(
        render(svg, &Transform::identity()),
        Err(ConvertError::MalformedNumeric)
    );
}

#[test]
fn malformed_transform_fails() {
    let svg = r#"<svg><g transform="spin(3)"></g></svg>"#;
    assert_eq!(
        render(svg, &Transform::identity()),
        Err(ConvertError::MalformedTransform)
    );
}

#[test]
fn malformed_style_fails() {
    let svg = r#"<svg><rect style="fill"/></svg>"#;
    assert_eq!(
        render(svg, &Transform::identity()),
        Err(ConvertError::MalformedStyleSyntax)
    );
}

#[test]
fn malformed_path_fails() {
    let svg = r#"<svg><path d="L 1 1"/></svg>"#;
    assert_eq!(
        render(svg, &Transform::identity()),
        Err(ConvertError::MalformedPath)
    );
}

#[test]
fn malformed_markup_fails() {
    let svg = r#"<svg><rect x="1" x="2"/></svg>"#;
    assert_eq!(
        render(svg, &Transform::identity()),
        Err(ConvertError::MalformedMarkup)
    );
}

#[test]
fn unbalanced_nesting_is_tolerated() {
    let svg = r#"<svg><g><g><rect/>"#;
    assert_eq!(
        render(svg, &Transform::identity()).unwrap(),
        "rect((0, 0), (0, 0), stroke: none, )\n"
    );
}

#[test]
fn output_before_an_error_stays() {
    let mut out = Vec::new();
    let svg = r#"<svg><rect/><rect x="?"/></svg>"#;
    let r = convert(svg.as_bytes(), &Transform::identity(), n(1_000_000_000), &mut out);
    assert_eq!(r, Err(ConvertError::MalformedNumeric));
    assert_eq!(out, b"rect((0, 0), (0, 0), stroke: none, )\n".to_vec());
}

#[test]
fn escapes_in_values_are_resolved() {
    let svg = r#"<svg><rect style="fill:&quot;a&amp;b&quot;"/></svg>"#;
    assert_eq!(
        render(svg, &Transform::identity()).unwrap(),
        "rect((0, 0), (0, 0), fill: \"a&b\", stroke: none, )\n"
    );
}

#[test]
fn unknown_escape_in_a_read_element_fails() {
    let svg = r#"<svg><rect id="&bogus;"/></svg>"#;
    assert_eq!(render(svg, &Transform::identity()), Err(ConvertError::MalformedMarkup));
    let svg = r#"<svg><g transform="&bogus;"/><g transform="&bogus;"></g></svg>"#;
    assert_eq!(render(svg, &Transform::identity()), Err(ConvertError::MalformedMarkup));
}

#[test]
fn group_decodes_its_transform_alone() {
    let svg = r#"<svg><g id="&bogus;" transform="translate(1&#32;2)"><rect/></g></svg>"#;
    assert_eq!(
        render(svg, &Transform::identity()).unwrap(),
        "rect((1, 2), (1, 2), stroke: none, )\n"
    );
}

#[test]
fn elements_that_are_not_read_may_hold_anything() {
    let svg = r#"<svg a="1" a="2"><defs x="&bogus;"/><rect/></svg>"#;
    assert_eq!(
        render(svg, &Transform::identity()).unwrap(),
        "rect((0, 0), (0, 0), stroke: none, )\n"
    );
}

#[test]
fn white_space_around_text_is_dropped() {
    let svg = "<svg><text x=\"1\" y=\"2\">\n   a b  \n</text>\n  <text x=\"3\" y=\"4\">  </text></svg>";
    assert_eq!(
        render(svg, &Transform::identity()).unwrap(),
        "content((1, 2), anchor: \"south-west\", [a b])\n"
    );
}

#[test]
fn text_is_taken_as_it_stands() {
    let svg = "<svg><text x=\"1\" y=\"2\">a&lt;b</text></svg>";
    assert_eq!(
        render(svg, &Transform::identity()).unwrap(),
        "content((1, 2), anchor: \"south-west\", [a])\ncontent((1, 2), anchor: \"south-west\", [b])\n"
    );
}

#[test]
fn comments_and_declarations_are_passed_over() {
    let svg = "<?xml version=\"1.0\"?><!-- c --><svg><![CDATA[stray]]><rect/></svg>";
    assert_eq!(
        render(svg, &Transform::identity()).unwrap(),
        "rect((0, 0), (0, 0), stroke: none, )\n"
    );
}

#[test]
fn mismatched_end_tag_fails() {
    let svg = "<svg><g></svg>";
    assert_eq!(render(svg, &Transform::identity()), Err(ConvertError::MalformedMarkup));
}

#[test]
fn empty_document_draws_nothing() {
    assert_eq!(render("", &Transform::identity()).unwrap(), "");
    assert_eq!(render("   \n", &Transform::identity()).unwrap(), "");
}

#[test]
fn rotation_is_read_within_rounding() {
    let svg = r#"<svg><g transform="rotate(90)"><rect x="1" y="0" width="1" height="1"/></g></svg>"#;
    assert_eq!(
        render(svg, &Transform::identity()).unwrap(),
        "rect((0, 1), (-1, 2), stroke: none, )\n"
    );
}

#[test]
fn written_coordinates_agree_with_floating_point() {
    let svg = r#"<svg><rect x="12.5" y="-3.25" width="100.125" height="0.001"/></svg>"#;
    let out = render(svg, &flipped_hundredth()).unwrap();
    let numbers: Vec<f64> = out
        .split(|c: char| !(c.is_ascii_digit() || c == '.' || c == '-'))
        .filter(|s| !s.is_empty())
        .map(|s| s.parse().unwrap())
        .collect();
    let expected = [12.5 * 0.01, -3.25 * -0.01, (12.5 + 100.125) * 0.01, (-3.25 + 0.001) * -0.01];
    assert_eq!(numbers.len(), 4);
    for (got, want) in numbers.iter().zip(expected) {
        assert!((got - want).abs() < 1e-8, "{} {}", got, want);
    }
}

#[test]
fn shape_with_an_end_tag_is_passed_over() {
    let svg = r#"<svg><rect x="1"></rect><circle r="1"/></svg>"#;
    assert_eq!(
        render(svg, &Transform::identity()).unwrap(),
        "circle((0, 0), radius: 1, stroke: none, )\n"
    );
}

#[test]
fn prefixed_names_are_other_names() {
    let svg = r#"<svg:svg><svg:rect x="oops"/><rect x='1px'/></svg:svg>"#;
    assert_eq!(render(svg, &Transform::identity()), Err(ConvertError::MalformedNumeric));
    let svg = r#"<svg:svg><svg:rect x="oops"/><text x='1px'>t</text></svg:svg>"#;
    assert_eq!(
        render(svg, &Transform::identity()).unwrap(),
        "content((1, 0), anchor: \"south-west\", [t])\n"
    );
}

#[test]
fn a_whole_drawing() {
    let svg = r##"<?xml version="1.0" encoding="UTF-8"?>
<svg xmlns="http://www.w3.org/2000/svg" width="100" height="100">
  <g transform="translate(10,10)">
    <rect x="0" y="0" width="80" height="80" style="fill:#eee;stroke:#333;stroke-width:2px"/>
    <g transform="scale(0.5)">
      <circle cx="80" cy="80" r="40" style="fill:none;stroke:red;stroke-dasharray:5,5"/>
      <path d="M 0 0 h 10 v 10 z" style="fill:blue;fill-rule:evenodd"/>
    </g>
    <text x="5" y="95" style="font-size:10px;font-family:'DejaVu Sans', monospace;fill:#000">Label #1
      <tspan x="5 15" y="99 99">ab</tspan>
    </text>
  </g>
</svg>
"##;
    let expected = "\
rect((0.1, -0.1), (0.9, -0.9), fill: #eee, stroke: (paint: #333, thickness: 2pt, ), )
circle((0.5, -0.5), radius: 0.2, fill: none, stroke: (paint: red, dash: \"dashed\", ), )
merge-path(fill: blue, stroke: none, {
line((0.1, -0.1), (0.15, -0.1), )
line((0.15, -0.1), (0.15, -0.15), )
})
content((0.15, -1.05), anchor: \"south-west\", text(size: 2.7pt, font: (\"DejaVu Sans\", ), fill: #000, )[Label \\#1])
content((0.15, -1.09), anchor: \"south-west\", text(size: 2.7pt, font: (\"DejaVu Sans\", ), fill: #000, )[a])
content((0.25, -1.09), anchor: \"south-west\", text(size: 2.7pt, font: (\"DejaVu Sans\", ), fill: #000, )[b])
";
    assert_eq!(render(svg, &flipped_hundredth()).unwrap(), expected);
}

#[test]
fn numbers_out_of_range_are_refused() {
    let svg = r#"<svg><rect x="1e30"/></svg>"#;
    assert_eq!(render(svg, &Transform::identity()), Err(ConvertError::MalformedNumeric));
    let svg = r#"<svg><g transform="scale(1e30)"><rect/></g></svg>"#;
    assert_eq!(render(svg, &Transform::identity()), Err(ConvertError::MalformedTransform));
    let svg = r#"<svg><path d="M 0 0 L 1e30 0"/></svg>"#;
    assert_eq!(render(svg, &Transform::identity()), Err(ConvertError::MalformedPath));
}

#[test]
fn arc_with_a_vanishing_distance_is_refused() {
    let svg = r#"<svg><path d="M0 0A1 1 0 0 1 1e-200 0"/></svg>"#;
    assert_eq!(render(svg, &Transform::identity()), Err(ConvertError::MalformedPath));
}

#[test]
fn results_out_of_range_end_the_conversion() {
    let big = Transform::new(n(1_000_000_000_000), n(0), n(0), n(1_000_000_000_000), n(0), n(0));
    let svg = r#"<svg><rect x="1" width="2"/><rect x="1000000" width="1"/><rect/></svg>"#;
    let mut out = Vec::new();
    assert_eq!(
        convert(svg.as_bytes(), &big, n(270_000_000), &mut out),
        Err(ConvertError::MalformedNumeric)
    );
    assert_eq!(String::from_utf8(out).unwrap(), "rect((1000, 0), (3000, 0), stroke: none, )\n");
    let svg = r#"<svg><g transform="scale(1000000)"><g transform="scale(1000000)"><rect/></g></g></svg>"#;
    assert_eq!(render(svg, &big), Err(ConvertError::MalformedNumeric));
    let svg = r#"<svg><g transform="scale(1000000)"><rect width="1"/></g></svg>"#;
    assert_eq!(
        render(svg, &big).unwrap(),
        "rect((0, 0), (1000000000, 0), stroke: none, )\n"
    );
    let svg = r#"<svg><path d="M0 0 H1000001"/></svg>"#;
    assert_eq!(render(svg, &big), Err(ConvertError::MalformedNumeric));
    let svg = r#"<svg><text x="0" y="0" style="font-size:600000000px">A</text></svg>"#;
    let mut out = Vec::new();
    assert_eq!(
        convert(svg.as_bytes(), &Transform::identity(), n(2_000_000_000), &mut out),
        Err(ConvertError::MalformedNumeric)
    );
    assert!(out.is_empty());
}
