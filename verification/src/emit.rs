//! The drawing commands and how they are written.

use vstd::prelude::*;
use vstd::string::StringSliceAdditionalSpecFns;
use crate::decimal::{decimal_text, lemma_decimal_text_is_plain, write_decimal};
use crate::fixed::{dot_units, in_range, Fixed};
use crate::style::{fill_text, stroke_text, StyleModel, SvgStyle};
use crate::text::{is_text, push_bytes, push_text};

verus! {

/// A line or a curve from `from` to `to`, in output space.
pub enum Stroke {
    /// A straight line.
    LineSeg { from: (int, int), to: (int, int) },
    /// A cubic curve with two control points.
    Bezier { from: (int, int), to: (int, int), ctrl1: (int, int), ctrl2: (int, int) },
}

/// A drawing command. Every coordinate is in output space already.
pub enum Primitive {
    /// A rectangle between two opposite corners.
    Rect { near: (int, int), far: (int, int), style: StyleModel },
    /// A circle with one radius.
    CircleIso { center: (int, int), radius: int, style: StyleModel },
    /// A circle with a radius for each axis.
    CircleAniso { center: (int, int), radii: (int, int), style: StyleModel },
    /// A line or a curve of its own, with the stroke of its style if it has one.
    Segment { stroke: Stroke, own_style: Option<StyleModel> },
    /// Lines and curves that enclose one filled region.
    FilledPathGroup { style: StyleModel, strokes: Seq<Stroke> },
    /// Text whose south-west corner stands at `position`.
    Content { position: (int, int), text_style: Option<StyleModel>, text: Seq<u8> },
}

/// A point as it is written.
pub open spec fn point_text(p: (int, int)) -> Seq<u8> {
    "(".spec_bytes() + decimal_text(p.0) + ", ".spec_bytes() + decimal_text(p.1) + ")".spec_bytes()
}

/// A point of a curve as it is written.
pub open spec fn curve_point_text(p: (int, int)) -> Seq<u8> {
    "(".spec_bytes() + decimal_text(p.0) + ",".spec_bytes() + decimal_text(p.1) + ")".spec_bytes()
}

/// The stroke of a style, or nothing where there is no style.
pub open spec fn optional_stroke_text(style: Option<StyleModel>) -> Seq<u8> {
    match style {
        Some(s) => stroke_text(s),
        None => Seq::empty(),
    }
}

/// A line or a curve as it is written, on a line of its own.
#[verifier::opaque]
pub open spec fn stroke_line(stroke: Stroke, style: Option<StyleModel>) -> Seq<u8> {
    match stroke {
        Stroke::LineSeg { from, to } => "line(".spec_bytes() + point_text(from) + ", ".spec_bytes()
            + point_text(to) + ", ".spec_bytes() + optional_stroke_text(style)
            + ")\n".spec_bytes(),
        Stroke::Bezier { from, to, ctrl1, ctrl2 } => "bezier(".spec_bytes() + curve_point_text(from)
            + ", ".spec_bytes() + curve_point_text(to) + ", ".spec_bytes() + curve_point_text(
            ctrl1,
        ) + ", ".spec_bytes() + curve_point_text(ctrl2) + ", ".spec_bytes()
            + optional_stroke_text(style) + ")\n".spec_bytes(),
    }
}

/// Lines and curves as they are written, one after another, each with the
/// stroke of `style` if there is a style.
pub open spec fn strokes_text(strokes: Seq<Stroke>, style: Option<StyleModel>) -> Seq<u8>
    decreases strokes.len(),
{
    if strokes.len() == 0 {
        Seq::empty()
    } else {
        strokes_text(strokes.drop_last(), style) + stroke_line(strokes.last(), style)
    }
}

/// The byte `b` as it stands in written text: a backslash goes before each
/// of `$`, `[`, `]`, `/` and `#`.
pub open spec fn escaped_byte(b: u8) -> Seq<u8> {
    if b == '$' as u8 || b == '[' as u8 || b == ']' as u8 || b == '/' as u8 || b == '#' as u8 {
        seq!['\\' as u8, b]
    } else {
        seq![b]
    }
}

/// Text with each of its bytes escaped.
pub open spec fn escaped(s: Seq<u8>) -> Seq<u8>
    decreases s.len(),
{
    if s.len() == 0 {
        Seq::empty()
    } else {
        escaped(s.drop_last()) + escaped_byte(s.last())
    }
}

/// Whether `pat` stands in `s` at position `at`.
pub open spec fn occurs_at(s: Seq<u8>, at: int, pat: Seq<u8>) -> bool {
    0 <= at && at + pat.len() <= s.len() && s.subrange(at, at + pat.len()) == pat
}

/// `s` with `rep` in place of each `pat`, found from left to right, no two
/// overlapping. An empty `pat` is found nowhere.
pub open spec fn replaced(s: Seq<u8>, pat: Seq<u8>, rep: Seq<u8>) -> Seq<u8>
    decreases s.len(),
{
    if s.len() == 0 {
        Seq::empty()
    } else if pat.len() > 0 && occurs_at(s, 0, pat) {
        rep + replaced(s.skip(pat.len() as int), pat, rep)
    } else {
        seq![s[0]] + replaced(s.skip(1), pat, rep)
    }
}

/// A font family as it is written: double quotes for single ones, and no
/// `, monospace`.
pub open spec fn family_text(family: Seq<u8>) -> Seq<u8> {
    replaced(
        replaced(family, "'".spec_bytes(), "\"".spec_bytes()),
        ", monospace".spec_bytes(),
        Seq::empty(),
    )
}

/// The size of text as it is written: the font size times `font_scale`.
pub open spec fn size_text(style: StyleModel, font_scale: int) -> Seq<u8> {
    match style.font_size {
        Some(size) => "size: ".spec_bytes() + decimal_text(dot_units(size, font_scale, 0, 0))
            + "pt, ".spec_bytes(),
        None => Seq::empty(),
    }
}

/// The font of text as it is written.
pub open spec fn font_text(style: StyleModel) -> Seq<u8> {
    match style.font_family {
        Some(family) => "font: (".spec_bytes() + family_text(family) + ", ), ".spec_bytes(),
        None => Seq::empty(),
    }
}

/// The fill of text as it is written: none where the paint is `none`.
pub open spec fn text_fill_text(style: StyleModel) -> Seq<u8> {
    match style.fill {
        Some(paint) => if paint == "none".spec_bytes() {
            Seq::empty()
        } else {
            "fill: ".spec_bytes() + paint + ", ".spec_bytes()
        },
        None => Seq::empty(),
    }
}

/// The style of text as it is written, or nothing where there is no style.
pub open spec fn text_style_text(style: Option<StyleModel>, font_scale: int) -> Seq<u8> {
    match style {
        Some(s) => "text(".spec_bytes() + size_text(s, font_scale) + font_text(s) + text_fill_text(
            s,
        ) + ")".spec_bytes(),
        None => Seq::empty(),
    }
}

/// A drawing command as it is written. Font sizes are multiplied by
/// `font_scale`.
#[verifier::opaque]
pub open spec fn emit_text(p: Primitive, font_scale: int) -> Seq<u8> {
    match p {
        Primitive::Rect { near, far, style } => "rect(".spec_bytes() + point_text(near)
            + ", ".spec_bytes() + point_text(far) + ", ".spec_bytes() + fill_text(style)
            + stroke_text(style) + ")\n".spec_bytes(),
        Primitive::CircleIso { center, radius, style } => "circle(".spec_bytes() + point_text(
            center,
        ) + ", radius: ".spec_bytes() + decimal_text(radius) + ", ".spec_bytes() + fill_text(style)
            + stroke_text(style) + ")\n".spec_bytes(),
        Primitive::CircleAniso { center, radii, style } => "circle(".spec_bytes() + point_text(
            center,
        ) + ", radius: ".spec_bytes() + point_text(radii) + ", ".spec_bytes() + fill_text(style)
            + stroke_text(style) + ")\n".spec_bytes(),
        Primitive::Segment { stroke, own_style } => stroke_line(stroke, own_style),
        Primitive::FilledPathGroup { style, strokes } => "merge-path(".spec_bytes() + fill_text(
            style,
        ) + stroke_text(style) + "{\n".spec_bytes() + strokes_text(strokes, None) + "})\n".spec_bytes(),
        Primitive::Content { position, text_style, text } => "content(".spec_bytes() + point_text(
            position,
        ) + ", anchor: \"south-west\", ".spec_bytes() + text_style_text(text_style, font_scale)
            + "[".spec_bytes() + escaped(text) + "])\n".spec_bytes(),
    }
}

/// The model of an optional style.
pub open spec fn style_model(o: Option<SvgStyle>) -> Option<StyleModel> {
    match o {
        Some(s) => Some(s@),
        None => None,
    }
}

/// The units of a point.
pub open spec fn point_units(p: (Fixed, Fixed)) -> (int, int) {
    (p.0@, p.1@)
}

/// Starts a piece of output with the text `s`.
fn begin(s: &str) -> (buf: Vec<u8>)
    ensures
        buf@ == s.spec_bytes(),
{
    let mut buf: Vec<u8> = Vec::new();
    push_text(&mut buf, s);
    assert(buf@ =~= s.spec_bytes());
    buf
}

/// Writes a point.
pub fn write_point(p: (Fixed, Fixed), out: &mut Vec<u8>)
    ensures
        final(out)@ == old(out)@ + point_text(point_units(p)),
{
    let mut buf = begin("(");
    write_decimal(p.0, &mut buf);
    push_text(&mut buf, ", ");
    write_decimal(p.1, &mut buf);
    push_text(&mut buf, ")");
    push_bytes(out, buf.as_slice());
}

/// Writes a point of a curve.
pub fn write_curve_point(p: (Fixed, Fixed), out: &mut Vec<u8>)
    ensures
        final(out)@ == old(out)@ + curve_point_text(point_units(p)),
{
    let mut buf = begin("(");
    write_decimal(p.0, &mut buf);
    push_text(&mut buf, ",");
    write_decimal(p.1, &mut buf);
    push_text(&mut buf, ")");
    push_bytes(out, buf.as_slice());
}

/// Writes `text` with each of `$`, `[`, `]`, `/` and `#` behind a backslash.
pub fn write_escaped(text: &[u8], out: &mut Vec<u8>)
    ensures
        final(out)@ == old(out)@ + escaped(text@),
{
    let mut i: usize = 0;
    assert(text@.take(0) =~= Seq::<u8>::empty());
    while i < text.len()
        invariant
            i <= text.len(),
            out@ == old(out)@ + escaped(text@.take(i as int)),
        decreases text.len() - i,
    {
        let b = text[i];
        if b == '$' as u8 || b == '[' as u8 || b == ']' as u8 || b == '/' as u8 || b == '#' as u8 {
            out.push('\\' as u8);
        }
        out.push(b);
        proof {
            let next = text@.take(i + 1);
            assert(next.drop_last() =~= text@.take(i as int));
            assert(out@ =~= old(out)@ + escaped(next));
        }
        i += 1;
    }
    assert(text@.take(text.len() as int) =~= text@);
}

/// Whether `pat` stands in `s` at position `at`.
pub fn matches_at(s: &[u8], at: usize, pat: &[u8]) -> (r: bool)
    requires
        at <= s.len(),
    ensures
        r == occurs_at(s@, at as int, pat@),
{
    if pat.len() > s.len() - at {
        return false;
    }
    let mut k: usize = 0;
    while k < pat.len()
        invariant
            k <= pat.len(),
            at + pat.len() <= s.len(),
            forall|j: int| 0 <= j < k ==> s[at + j] == pat[j],
        decreases pat.len() - k,
    {
        if s[at + k] != pat[k] {
            assert(s@.subrange(at as int, at + pat.len())[k as int] == s[at + k]);
            return false;
        }
        k += 1;
    }
    assert(s@.subrange(at as int, at + pat.len()) =~= pat@);
    true
}

/// `s` with `rep` in place of each `pat`.
pub fn replace_all(s: &[u8], pat: &[u8], rep: &[u8]) -> (r: Vec<u8>)
    ensures
        r@ == replaced(s@, pat@, rep@),
{
    let mut r: Vec<u8> = Vec::new();
    let mut i: usize = 0;
    assert(s@.skip(0) =~= s@);
    while i < s.len()
        invariant
            i <= s.len(),
            replaced(s@, pat@, rep@) == r@ + replaced(s@.skip(i as int), pat@, rep@),
        decreases s.len() - i,
    {
        let ghost tail = s@.skip(i as int);
        let found = pat.len() > 0 && matches_at(s, i, pat);
        proof {
            if pat.len() > 0 && i + pat.len() <= s.len() {
                assert(tail.subrange(0, pat.len() as int) =~= s@.subrange(
                    i as int,
                    i + pat.len(),
                ));
            }
        }
        if found {
            push_bytes(&mut r, rep);
            assert(tail.skip(pat.len() as int) =~= s@.skip(i + pat.len()));
            i += pat.len();
        } else {
            r.push(s[i]);
            assert(tail.skip(1) =~= s@.skip(i + 1));
            i += 1;
        }
        assert(replaced(s@, pat@, rep@) =~= r@ + replaced(s@.skip(i as int), pat@, rep@));
    }
    assert(r@ + Seq::<u8>::empty() =~= r@);
    r
}

/// The model of a style that may be lent.
pub open spec fn lent_style_model(o: Option<&SvgStyle>) -> Option<StyleModel> {
    match o {
        Some(s) => Some(s@),
        None => None,
    }
}

/// Writes a rectangle between the opposite corners `near` and `far`.
pub fn write_rect(near: (Fixed, Fixed), far: (Fixed, Fixed), style: &SvgStyle, out: &mut Vec<u8>)
    ensures
        final(out)@ == old(out)@ + emit_text(
            Primitive::Rect { near: point_units(near), far: point_units(far), style: style@ },
            0,
        ),
{
    reveal(emit_text);
    let mut buf = begin("rect(");
    write_point(near, &mut buf);
    push_text(&mut buf, ", ");
    write_point(far, &mut buf);
    push_text(&mut buf, ", ");
    style.format_fill(&mut buf);
    style.format_stroke(&mut buf);
    push_text(&mut buf, ")\n");
    push_bytes(out, buf.as_slice());
}

/// Writes a circle with one radius.
pub fn write_circle(center: (Fixed, Fixed), radius: Fixed, style: &SvgStyle, out: &mut Vec<u8>)
    ensures
        final(out)@ == old(out)@ + emit_text(
            Primitive::CircleIso { center: point_units(center), radius: radius@, style: style@ },
            0,
        ),
{
    reveal(emit_text);
    let mut buf = begin("circle(");
    write_point(center, &mut buf);
    push_text(&mut buf, ", radius: ");
    write_decimal(radius, &mut buf);
    push_text(&mut buf, ", ");
    style.format_fill(&mut buf);
    style.format_stroke(&mut buf);
    push_text(&mut buf, ")\n");
    push_bytes(out, buf.as_slice());
}

/// Writes a circle with a radius for each axis.
pub fn write_ellipse(
    center: (Fixed, Fixed),
    radii: (Fixed, Fixed),
    style: &SvgStyle,
    out: &mut Vec<u8>,
)
    ensures
        final(out)@ == old(out)@ + emit_text(
            Primitive::CircleAniso {
                center: point_units(center),
                radii: point_units(radii),
                style: style@,
            },
            0,
        ),
{
    reveal(emit_text);
    let mut buf = begin("circle(");
    write_point(center, &mut buf);
    push_text(&mut buf, ", radius: ");
    write_point(radii, &mut buf);
    push_text(&mut buf, ", ");
    style.format_fill(&mut buf);
    style.format_stroke(&mut buf);
    push_text(&mut buf, ")\n");
    push_bytes(out, buf.as_slice());
}

/// Writes the stroke of `style`, if there is a style.
fn write_optional_stroke(style: Option<&SvgStyle>, out: &mut Vec<u8>)
    ensures
        final(out)@ == old(out)@ + optional_stroke_text(lent_style_model(style)),
{
    match style {
        Some(s) => {
            s.format_stroke(out);
        },
        None => {
            assert(out@ =~= old(out)@ + Seq::<u8>::empty());
        },
    }
}

/// Writes a line, with the stroke of `style` if there is one.
pub fn write_line(
    from: (Fixed, Fixed),
    to: (Fixed, Fixed),
    style: Option<&SvgStyle>,
    out: &mut Vec<u8>,
)
    ensures
        final(out)@ == old(out)@ + stroke_line(
            Stroke::LineSeg { from: point_units(from), to: point_units(to) },
            lent_style_model(style),
        ),
{
    reveal(stroke_line);
    let mut buf = begin("line(");
    write_point(from, &mut buf);
    push_text(&mut buf, ", ");
    write_point(to, &mut buf);
    push_text(&mut buf, ", ");
    write_optional_stroke(style, &mut buf);
    push_text(&mut buf, ")\n");
    push_bytes(out, buf.as_slice());
}

/// Writes a cubic curve, with the stroke of `style` if there is one.
pub fn write_bezier(
    from: (Fixed, Fixed),
    to: (Fixed, Fixed),
    ctrl1: (Fixed, Fixed),
    ctrl2: (Fixed, Fixed),
    style: Option<&SvgStyle>,
    out: &mut Vec<u8>,
)
    ensures
        final(out)@ == old(out)@ + stroke_line(
            Stroke::Bezier {
                from: point_units(from),
                to: point_units(to),
                ctrl1: point_units(ctrl1),
                ctrl2: point_units(ctrl2),
            },
            lent_style_model(style),
        ),
{
    reveal(stroke_line);
    let mut buf = begin("bezier(");
    write_curve_point(from, &mut buf);
    push_text(&mut buf, ", ");
    write_curve_point(to, &mut buf);
    push_text(&mut buf, ", ");
    write_curve_point(ctrl1, &mut buf);
    push_text(&mut buf, ", ");
    write_curve_point(ctrl2, &mut buf);
    push_text(&mut buf, ", ");
    write_optional_stroke(style, &mut buf);
    push_text(&mut buf, ")\n");
    push_bytes(out, buf.as_slice());
}

/// Writes the size of text.
fn write_size(style: &SvgStyle, font_scale: Fixed, out: &mut Vec<u8>)
    ensures
        final(out)@ == old(out)@ + size_text(style@, font_scale@),
{
    match style.font_size {
        Some(font_size) => {
            let mut buf = begin("size: ");
            write_decimal(font_size.times(font_scale), &mut buf);
            push_text(&mut buf, "pt, ");
            push_bytes(out, buf.as_slice());
        },
        None => {
            assert(out@ =~= old(out)@ + Seq::<u8>::empty());
        },
    }
}

/// The text of no bytes.
fn no_bytes() -> (r: Vec<u8>)
    ensures
        r@ == Seq::<u8>::empty(),
{
    Vec::new()
}

/// Writes the font of text.
fn write_font(style: &SvgStyle, out: &mut Vec<u8>)
    ensures
        final(out)@ == old(out)@ + font_text(style@),
{
    match &style.font_family {
        Some(font_family) => {
            let mut buf = begin("font: (");
            let quoted = replace_all(font_family.as_slice(), "'".as_bytes(), "\"".as_bytes());
            let nothing = no_bytes();
            let family = replace_all(
                quoted.as_slice(),
                ", monospace".as_bytes(),
                nothing.as_slice(),
            );
            push_bytes(&mut buf, family.as_slice());
            push_text(&mut buf, ", ), ");
            push_bytes(out, buf.as_slice());
        },
        None => {
            assert(out@ =~= old(out)@ + Seq::<u8>::empty());
        },
    }
}

/// Writes the fill of text.
fn write_text_fill(style: &SvgStyle, out: &mut Vec<u8>)
    ensures
        final(out)@ == old(out)@ + text_fill_text(style@),
{
    match &style.fill {
        Some(fill) => {
            if is_text(fill.as_slice(), "none") {
                assert(out@ =~= old(out)@ + Seq::<u8>::empty());
            } else {
                let mut buf = begin("fill: ");
                push_bytes(&mut buf, fill.as_slice());
                push_text(&mut buf, ", ");
                push_bytes(out, buf.as_slice());
            }
        },
        None => {
            assert(out@ =~= old(out)@ + Seq::<u8>::empty());
        },
    }
}

/// Writes the style of text, if there is a style.
fn write_text_style(style: &Option<SvgStyle>, font_scale: Fixed, out: &mut Vec<u8>)
    ensures
        final(out)@ == old(out)@ + text_style_text(style_model(*style), font_scale@),
{
    match style {
        Some(s) => {
            let mut buf = begin("text(");
            write_size(s, font_scale, &mut buf);
            write_font(s, &mut buf);
            write_text_fill(s, &mut buf);
            push_text(&mut buf, ")");
            push_bytes(out, buf.as_slice());
        },
        None => {
            assert(out@ =~= old(out)@ + Seq::<u8>::empty());
        },
    }
}

/// Writes text whose south-west corner stands at `pos`, in the given style
/// if there is one, with font sizes multiplied by `font_scale`.
pub fn gen_content(
    pos: (Fixed, Fixed),
    style: &Option<SvgStyle>,
    text_content: &[u8],
    font_scale: Fixed,
    out: &mut Vec<u8>,
)
    ensures
        final(out)@ == old(out)@ + emit_text(
            Primitive::Content {
                position: point_units(pos),
                text_style: style_model(*style),
                text: text_content@,
            },
            font_scale@,
        ),
{
    reveal(emit_text);
    let mut buf = begin("content(");
    write_point(pos, &mut buf);
    push_text(&mut buf, ", anchor: \"south-west\", ");
    write_text_style(style, font_scale, &mut buf);
    push_text(&mut buf, "[");
    write_escaped(text_content, &mut buf);
    push_text(&mut buf, "])\n");
    push_bytes(out, buf.as_slice());
}

/// Whether `s` holds no line feed.
pub open spec fn is_unbroken(s: Seq<u8>) -> bool {
    forall|i: int| 0 <= i < s.len() ==> #[trigger] s[i] != '\n' as u8
}

/// Whether `s` is one line: it ends in a line feed and holds no other.
pub open spec fn is_one_line(s: Seq<u8>) -> bool {
    s.len() > 0 && s.last() == '\n' as u8 && is_unbroken(s.drop_last())
}

/// Whether the font family and the fill of a style, as far as it has them,
/// hold no line feed.
pub open spec fn is_unbroken_style(style: Option<StyleModel>) -> bool {
    match style {
        Some(s) => (s.font_family is Some ==> is_unbroken(s.font_family->0)) && (s.fill is Some
            ==> is_unbroken(s.fill->0)),
        None => true,
    }
}

/// The fixed parts of written text hold no line feed.
proof fn lemma_fixed_parts_are_unbroken()
    ensures
        is_unbroken("content(".spec_bytes()),
        is_unbroken("(".spec_bytes()),
        is_unbroken(", ".spec_bytes()),
        is_unbroken(")".spec_bytes()),
        is_unbroken(", anchor: \"south-west\", ".spec_bytes()),
        is_unbroken("text(".spec_bytes()),
        is_unbroken("size: ".spec_bytes()),
        is_unbroken("pt, ".spec_bytes()),
        is_unbroken("font: (".spec_bytes()),
        is_unbroken(", ), ".spec_bytes()),
        is_unbroken("fill: ".spec_bytes()),
        is_unbroken("[".spec_bytes()),
        is_unbroken("\"".spec_bytes()),
        "])\n".spec_bytes() =~= seq![']' as u8, ')' as u8, '\n' as u8],
{
    reveal_strlit("content(");
    reveal_strlit("(");
    reveal_strlit(", ");
    reveal_strlit(")");
    reveal_strlit(", anchor: \"south-west\", ");
    reveal_strlit("text(");
    reveal_strlit("size: ");
    reveal_strlit("pt, ");
    reveal_strlit("font: (");
    reveal_strlit(", ), ");
    reveal_strlit("fill: ");
    reveal_strlit("[");
    reveal_strlit("\"");
    reveal_strlit("])\n");
    vstd::string::is_ascii_spec_bytes("content(");
    vstd::string::is_ascii_spec_bytes("(");
    vstd::string::is_ascii_spec_bytes(", ");
    vstd::string::is_ascii_spec_bytes(")");
    vstd::string::is_ascii_spec_bytes(", anchor: \"south-west\", ");
    vstd::string::is_ascii_spec_bytes("text(");
    vstd::string::is_ascii_spec_bytes("size: ");
    vstd::string::is_ascii_spec_bytes("pt, ");
    vstd::string::is_ascii_spec_bytes("font: (");
    vstd::string::is_ascii_spec_bytes(", ), ");
    vstd::string::is_ascii_spec_bytes("fill: ");
    vstd::string::is_ascii_spec_bytes("[");
    vstd::string::is_ascii_spec_bytes("\"");
    vstd::string::is_ascii_spec_bytes("])\n");
}

/// A number is written without a line feed.
proof fn lemma_number_is_unbroken(v: int)
    requires
        in_range(v),
    ensures
        is_unbroken(decimal_text(v)),
{
    lemma_decimal_text_is_plain(v);
}

/// A point is written without a line feed.
proof fn lemma_point_is_unbroken(p: (int, int))
    requires
        in_range(p.0),
        in_range(p.1),
    ensures
        is_unbroken(point_text(p)),
{
    lemma_fixed_parts_are_unbroken();
    lemma_number_is_unbroken(p.0);
    lemma_number_is_unbroken(p.1);
}

/// Escaping adds no line feed.
proof fn lemma_escaped_is_unbroken(s: Seq<u8>)
    requires
        is_unbroken(s),
    ensures
        is_unbroken(escaped(s)),
    decreases s.len(),
{
    if s.len() > 0 {
        lemma_escaped_is_unbroken(s.drop_last());
        assert(s.last() != '\n' as u8);
    }
}

/// Replacing adds no line feed, if what is put in holds none.
proof fn lemma_replaced_is_unbroken(s: Seq<u8>, pat: Seq<u8>, rep: Seq<u8>)
    requires
        is_unbroken(s),
        is_unbroken(rep),
    ensures
        is_unbroken(replaced(s, pat, rep)),
    decreases s.len(),
{
    if s.len() == 0 {
    } else if pat.len() > 0 && occurs_at(s, 0, pat) {
        let rest = s.skip(pat.len() as int);
        assert forall|i: int| 0 <= i < rest.len() implies #[trigger] rest[i] != '\n' as u8 by {
            assert(rest[i] == s[i + pat.len()]);
        }
        lemma_replaced_is_unbroken(rest, pat, rep);
    } else {
        let rest = s.skip(1);
        assert forall|i: int| 0 <= i < rest.len() implies #[trigger] rest[i] != '\n' as u8 by {
            assert(rest[i] == s[i + 1]);
        }
        lemma_replaced_is_unbroken(rest, pat, rep);
        assert(s[0] != '\n' as u8);
    }
}

/// The style of text is written without a line feed, if its font family and
/// its fill hold none.
proof fn lemma_text_style_is_unbroken(style: Option<StyleModel>, font_scale: int)
    requires
        is_unbroken_style(style),
    ensures
        is_unbroken(text_style_text(style, font_scale)),
{
    lemma_fixed_parts_are_unbroken();
    match style {
        Some(s) => {
            match s.font_size {
                Some(size) => {
                    lemma_number_is_unbroken(dot_units(size, font_scale, 0, 0));
                },
                None => {},
            }
            assert(is_unbroken(size_text(s, font_scale)));
            match s.font_family {
                Some(family) => {
                    let quoted = replaced(family, "'".spec_bytes(), "\"".spec_bytes());
                    lemma_replaced_is_unbroken(family, "'".spec_bytes(), "\"".spec_bytes());
                    lemma_replaced_is_unbroken(quoted, ", monospace".spec_bytes(), Seq::empty());
                },
                None => {},
            }
            assert(is_unbroken(font_text(s)));
            assert(is_unbroken(text_fill_text(s)));
        },
        None => {},
    }
}

/// Text is written as one line, where neither the text nor the font family
/// and the fill of its style hold a line feed.
pub proof fn law_text_is_one_line(
    position: (int, int),
    text_style: Option<StyleModel>,
    text: Seq<u8>,
    font_scale: int,
)
    requires
        in_range(position.0),
        in_range(position.1),
        is_unbroken(text),
        is_unbroken_style(text_style),
    ensures
        is_one_line(emit_text(Primitive::Content { position, text_style, text }, font_scale)),
{
    reveal(emit_text);
    lemma_fixed_parts_are_unbroken();
    lemma_point_is_unbroken(position);
    lemma_text_style_is_unbroken(text_style, font_scale);
    lemma_escaped_is_unbroken(text);
    let head = "content(".spec_bytes() + point_text(position)
        + ", anchor: \"south-west\", ".spec_bytes() + text_style_text(text_style, font_scale)
        + "[".spec_bytes() + escaped(text);
    assert(is_unbroken(head));
    let line = emit_text(Primitive::Content { position, text_style, text }, font_scale);
    assert(line == head + "])\n".spec_bytes());
    assert(line.drop_last() =~= head + seq![']' as u8, ')' as u8]);
}

} // verus!
