use svg2cetz::emit::{
    gen_content, matches_at, replace_all, write_bezier, write_circle, write_ellipse, write_escaped,
    write_line, write_point, write_rect,
};
use svg2cetz::fixed::Fixed;
use svg2cetz::style::SvgStyle;

fn whole(n: i64) -> Fixed {
    Fixed::from_raw(n * 1_000_000_000)
}

fn at(x: i64, y: i64) -> (Fixed, Fixed) {
    (whole(x), whole(y))
}

fn style(text: &str) -> SvgStyle {
    SvgStyle::from_str(text.as_bytes()).unwrap()
}

fn content(style_text: Option<&str>, text: &str, scale: i64) -> String {
    let mut out = Vec::new();
    let s = style_text.map(style);
    gen_content(at(1, 2), &s, text.as_bytes(), Fixed::from_raw(scale), &mut out);
    String::from_utf8(out).unwrap()
}

#[test]
fn escapes_each_special_character_once() {
    let mut out = Vec::new();
    write_escaped(b"a$b[c]d/e#f\\g", &mut out);
    assert_eq!(out, b"a\\$b\\[c\\]d\\/e\\#f\\g".to_vec());
    let mut out = Vec::new();
    write_escaped(b"$$", &mut out);
    assert_eq!(out, b"\\$\\$".to_vec());
    let mut out = b"kept".to_vec();
    write_escaped(b"", &mut out);
    assert_eq!(out, b"kept".to_vec());
}

#[test]
fn content_without_style_has_no_annotation() {
    assert_eq!(content(None, "A$B", 1), "content((1, 2), anchor: \"south-west\", [A\\$B])\n");
}

#[test]
fn content_with_empty_style_has_empty_annotation() {
    assert_eq!(content(Some(""), "x", 1), "content((1, 2), anchor: \"south-west\", text()[x])\n");
}

#[test]
fn font_size_is_scaled() {
    assert_eq!(
        content(Some("font-size:10px"), "x", 270_000_000),
        "content((1, 2), anchor: \"south-west\", text(size: 2.7pt, )[x])\n"
    );
    assert_eq!(
        content(Some("font-size:3"), "x", 1),
        "content((1, 2), anchor: \"south-west\", text(size: 0.000000003pt, )[x])\n"
    );
}

#[test]
fn font_family_is_rewritten() {
    assert_eq!(
        content(Some("font-family:'Fira Code', monospace"), "x", 1),
        "content((1, 2), anchor: \"south-west\", text(font: (\"Fira Code\", ), )[x])\n"
    );
    assert_eq!(
        content(Some("font-family:monospace, monospace, 'a', monospace"), "x", 1),
        "content((1, 2), anchor: \"south-west\", text(font: (monospace, \"a\", ), )[x])\n"
    );
}

#[test]
fn text_fill_none_is_left_out() {
    assert_eq!(
        content(Some("fill:none"), "x", 1),
        "content((1, 2), anchor: \"south-west\", text()[x])\n"
    );
    assert_eq!(
        content(Some("fill:#123"), "x", 1),
        "content((1, 2), anchor: \"south-west\", text(fill: #123, )[x])\n"
    );
}

#[test]
fn replace_all_goes_left_to_right_without_overlap() {
    assert_eq!(replace_all(b"aaaa", b"aa", b"b"), b"bb".to_vec());
    assert_eq!(replace_all(b"aaa", b"aa", b"b"), b"ba".to_vec());
    assert_eq!(replace_all(b"abc", b"", b"x"), b"abc".to_vec());
    assert_eq!(replace_all(b"abc", b"abcd", b"x"), b"abc".to_vec());
    assert_eq!(replace_all(b"", b"a", b"x"), b"".to_vec());
    assert_eq!(replace_all(b"a'b'", b"'", b"\""), b"a\"b\"".to_vec());
    assert_eq!(replace_all(b"xyxy", b"xy", b""), b"".to_vec());
}

#[test]
fn matches_at_compares_in_place() {
    assert!(matches_at(b"hello", 1, b"ell"));
    assert!(!matches_at(b"hello", 1, b"elo"));
    assert!(!matches_at(b"hello", 3, b"low"));
    assert!(matches_at(b"hello", 5, b""));
}

#[test]
fn shapes_are_written_as_commands() {
    let mut out = Vec::new();
    write_point(at(-3, 4), &mut out);
    assert_eq!(out, b"(-3, 4)".to_vec());

    let mut out = Vec::new();
    write_rect(at(0, 0), at(1, 2), &style("fill:red;stroke:blue"), &mut out);
    assert_eq!(
        String::from_utf8(out).unwrap(),
        "rect((0, 0), (1, 2), fill: red, stroke: (paint: blue, ), )\n"
    );

    let mut out = Vec::new();
    write_circle(at(1, 1), whole(5), &style(""), &mut out);
    assert_eq!(String::from_utf8(out).unwrap(), "circle((1, 1), radius: 5, stroke: none, )\n");

    let mut out = Vec::new();
    write_ellipse(at(1, 1), at(2, 3), &style(""), &mut out);
    assert_eq!(
        String::from_utf8(out).unwrap(),
        "circle((1, 1), radius: (2, 3), stroke: none, )\n"
    );
}

#[test]
fn strokes_are_written_with_optional_style() {
    let mut out = Vec::new();
    write_line(at(0, 0), at(1, 1), None, &mut out);
    assert_eq!(String::from_utf8(out).unwrap(), "line((0, 0), (1, 1), )\n");

    let s = style("stroke-width:2px");
    let mut out = Vec::new();
    write_line(at(0, 0), at(1, 1), Some(&s), &mut out);
    assert_eq!(
        String::from_utf8(out).unwrap(),
        "line((0, 0), (1, 1), stroke: (thickness: 2pt, ), )\n"
    );

    let mut out = Vec::new();
    write_bezier(at(0, 0), at(3, 3), at(1, 0), at(2, 3), None, &mut out);
    assert_eq!(String::from_utf8(out).unwrap(), "bezier((0,0), (3,3), (1,0), (2,3), )\n");
}

#[test]
fn text_without_a_line_feed_is_one_line() {
    for (style_text, text) in [
        (None, "plain"),
        (Some("font-family:'Fira Code', monospace;fill:#333;font-size:10px"), "a$b#c"),
        (Some("fill:none"), ""),
    ] {
        let line = content(style_text, text, 270_000_000);
        assert!(line.ends_with('\n'));
        assert_eq!(line.matches('\n').count(), 1);
    }
    // A line feed that the text or its style holds is written as it stands.
    assert_eq!(content(None, "a\nb", 1).matches('\n').count(), 2);
    assert_eq!(content(Some("fill:re\nd"), "ab", 1).matches('\n').count(), 2);
}
