//! The traversal: a stack of scopes that follows the nesting of the markup,
//! and what each piece of markup does to it and draws.

use vstd::prelude::*;
use vstd::string::StringSliceAdditionalSpecFns;
use crate::affine::{
    apply, apply_transform, apply_transform_exact, applies_in_range, Affine, Transform,
};
use crate::attrs::{
    number_models, optional_segments, read_attributes, Attrs, AttrsModel, ElementKind,
};
use crate::emit::{
    emit_text, gen_content, lent_style_model, point_units, stroke_line, strokes_text, style_model,
    write_bezier, write_circle, write_ellipse, write_line, write_rect, Primitive, Stroke,
};
use crate::error::ConvertError;
use crate::fixed::{in_range, rescale, Fixed};
use crate::markup::{attribute_models, Attribute, AttributeModel, Token, TokenModel};
use crate::style::{StyleModel, SvgStyle};
use crate::svgdata::{segment_models, Segment, SegmentModel};
use crate::text::{is_text, push_bytes, push_text};

verus! {

/// What opened a scope.
#[derive(Clone, Copy, Debug, PartialEq, Eq, Structural)]
pub enum FrameKind {
    /// The document itself. Nothing closes it.
    Root,
    /// A `g` element.
    Group,
    /// A `text` element.
    Text,
    /// A `tspan` element.
    Span,
}

/// A scope of the traversal: the map in effect in it, which is fixed when
/// the scope opens, the positions that its text goes to, and its style.
#[derive(Debug)]
pub struct Frame {
    pub kind: FrameKind,
    pub transform: Transform,
    pub positions: Option<Vec<(Fixed, Fixed)>>,
    pub style: Option<SvgStyle>,
}

/// What a [`Frame`] holds.
pub struct FrameModel {
    pub kind: FrameKind,
    pub transform: Affine,
    pub positions: Option<Seq<(int, int)>>,
    pub style: Option<StyleModel>,
}

/// The units of a list of points.
pub open spec fn point_models(v: Seq<(Fixed, Fixed)>) -> Seq<(int, int)> {
    Seq::new(v.len(), |i: int| point_units(v[i]))
}

/// The units of an optional list of points.
pub open spec fn optional_points(o: Option<Vec<(Fixed, Fixed)>>) -> Option<Seq<(int, int)>> {
    match o {
        Some(v) => Some(point_models(v@)),
        None => None,
    }
}

impl View for Frame {
    type V = FrameModel;

    open spec fn view(&self) -> FrameModel {
        FrameModel {
            kind: self.kind,
            transform: self.transform@,
            positions: optional_points(self.positions),
            style: style_model(self.style),
        }
    }
}

/// What a stack of frames holds, the innermost scope last.
pub open spec fn frame_models(v: Seq<Frame>) -> Seq<FrameModel> {
    Seq::new(v.len(), |i: int| v[i]@)
}

/// Whether an end tag of the given name closes a scope of the given kind.
pub open spec fn closes(kind: FrameKind, name: Seq<u8>) -> bool {
    match kind {
        FrameKind::Root => false,
        FrameKind::Group => name == "g".spec_bytes(),
        FrameKind::Text => name == "text".spec_bytes(),
        FrameKind::Span => name == "tspan".spec_bytes(),
    }
}

/// Whether text can stand in a scope of this kind.
pub open spec fn holds_text(kind: FrameKind) -> bool {
    kind == FrameKind::Text || kind == FrameKind::Span
}

/// The innermost scope that text can stand in, by its place in the stack.
pub open spec fn nearest_text(frames: Seq<FrameModel>) -> Option<int>
    decreases frames.len(),
{
    if frames.len() == 0 {
        None
    } else if holds_text(frames.last().kind) {
        Some(frames.len() - 1)
    } else {
        nearest_text(frames.drop_last())
    }
}

/// The innermost scope that has a style, by its place in the stack.
pub open spec fn nearest_styled(frames: Seq<FrameModel>) -> Option<int>
    decreases frames.len(),
{
    if frames.len() == 0 {
        None
    } else if frames.last().style is Some {
        Some(frames.len() - 1)
    } else {
        nearest_styled(frames.drop_last())
    }
}

/// The style in effect in the innermost scope: its own, or else that of the
/// nearest scope around it that has one.
pub open spec fn inherited_style(frames: Seq<FrameModel>) -> Option<StyleModel> {
    match nearest_styled(frames) {
        Some(i) => frames[i].style,
        None => None,
    }
}

/// The points whose coordinates two lists give, as far as both reach.
pub open spec fn paired(xs: Seq<int>, ys: Seq<int>) -> Seq<(int, int)> {
    Seq::new(if xs.len() <= ys.len() { xs.len() } else { ys.len() }, |i: int| (xs[i], ys[i]))
}

/// The style of a shape: the one it specifies, or one that specifies
/// nothing.
pub open spec fn shape_style(o: Option<StyleModel>) -> StyleModel {
    match o {
        Some(s) => s,
        None => StyleModel::empty(),
    }
}

/// The stack after a start tag. A `g` opens a scope under the map of the
/// scope around it composed with its own transforms; a `text` opens one at
/// its position with its own style; a `tspan` opens one at its positions with
/// the inherited style. Any other start tag changes nothing.
pub open spec fn step_open(frames: Seq<FrameModel>, name: Seq<u8>, attrs: Seq<AttributeModel>)
    -> Result<Seq<FrameModel>, ConvertError>
    recommends
        frames.len() > 0,
{
    let around = frames.last().transform;
    if name == "g".spec_bytes() {
        match read_attributes(ElementKind::Group, around, attrs) {
            Ok(a) => Ok(
                frames.push(
                    FrameModel {
                        kind: FrameKind::Group,
                        transform: a.transform,
                        positions: None,
                        style: None,
                    },
                ),
            ),
            Err(e) => Err(e),
        }
    } else if name == "text".spec_bytes() {
        match read_attributes(ElementKind::Text, around, attrs) {
            Ok(a) => Ok(
                frames.push(
                    FrameModel {
                        kind: FrameKind::Text,
                        transform: around,
                        positions: Some(seq![(a.x, a.y)]),
                        style: a.style,
                    },
                ),
            ),
            Err(e) => Err(e),
        }
    } else if name == "tspan".spec_bytes() {
        match read_attributes(ElementKind::Span, around, attrs) {
            Ok(a) => Ok(
                frames.push(
                    FrameModel {
                        kind: FrameKind::Span,
                        transform: around,
                        positions: Some(paired(a.xs, a.ys)),
                        style: inherited_style(frames),
                    },
                ),
            ),
            Err(e) => Err(e),
        }
    } else {
        Ok(frames)
    }
}

/// The stack after an end tag: the innermost scope goes if the tag closes
/// it; otherwise nothing changes.
pub open spec fn step_close(frames: Seq<FrameModel>, name: Seq<u8>) -> Seq<FrameModel>
    recommends
        frames.len() > 0,
{
    if closes(frames.last().kind, name) {
        frames.drop_last()
    } else {
        frames
    }
}

/// The text of one byte each that goes to each of several positions: as many
/// as there are bytes and positions both.
pub open spec fn glyphs(
    t: Affine,
    positions: Seq<(int, int)>,
    style: Option<StyleModel>,
    content: Seq<u8>,
) -> Seq<Primitive> {
    Seq::new(
        if content.len() <= positions.len() {
            content.len()
        } else {
            positions.len()
        },
        |i: int|
            Primitive::Content {
                position: apply(t, positions[i]),
                text_style: style,
                text: seq![content[i]],
            },
    )
}

/// Whether the map `t` sends each of the first `n` of `points`, as far as
/// there are so many, somewhere in range, with nothing cut off on the way.
pub open spec fn all_apply(t: Affine, points: Seq<(int, int)>, n: int) -> bool {
    forall|i: int| 0 <= i < n && i < points.len() ==> applies_in_range(t, #[trigger] points[i])
}

/// Whether the font size of a style, multiplied by `font_scale`, is in
/// range.
pub open spec fn size_fits(style: Option<StyleModel>, font_scale: int) -> bool {
    match style {
        Some(s) => s.font_size is Some ==> in_range(rescale(s.font_size->0 * font_scale)),
        None => true,
    }
}

/// What character data draws. It belongs to the innermost `text` or `tspan`
/// scope, is placed under the map of the innermost scope of all, and has
/// the style that is in effect in the scope it belongs to. In a `text`, or
/// a `tspan` with one position, it is drawn whole at the first position; in
/// a `tspan` with more positions, byte by byte. A font size or a position
/// that would be cut off is a malformed number.
pub open spec fn step_text(frames: Seq<FrameModel>, content: Seq<u8>, font_scale: int) -> Result<
    Seq<Primitive>,
    ConvertError,
>
    recommends
        frames.len() > 0,
{
    match nearest_text(frames) {
        None => Err(ConvertError::MissingTextContainer),
        Some(i) => {
            let parent = frames[i];
            let t = frames.last().transform;
            let style = inherited_style(frames.take(i + 1));
            if parent.positions is None || parent.positions->0.len() == 0 {
                Err(ConvertError::MissingTextAnchor)
            } else if !size_fits(style, font_scale) {
                Err(ConvertError::MalformedNumeric)
            } else if parent.kind == FrameKind::Span && parent.positions->0.len() > 1 {
                if all_apply(t, parent.positions->0, content.len() as int) {
                    Ok(glyphs(t, parent.positions->0, style, content))
                } else {
                    Err(ConvertError::MalformedNumeric)
                }
            } else if !applies_in_range(t, parent.positions->0[0]) {
                Err(ConvertError::MalformedNumeric)
            } else {
                Ok(
                    seq![
                        Primitive::Content {
                            position: apply(t, parent.positions->0[0]),
                            text_style: style,
                            text: content,
                        },
                    ],
                )
            }
        },
    }
}

/// Where the pen stands after the segments `segs`, in output space. It
/// starts at the origin of output space.
pub open spec fn pen_after(t: Affine, segs: Seq<SegmentModel>) -> (int, int)
    decreases segs.len(),
{
    if segs.len() == 0 {
        (0, 0)
    } else {
        match segs.last() {
            SegmentModel::MoveTo { to } => apply(t, to),
            SegmentModel::LineTo { to } => apply(t, to),
            SegmentModel::CurveTo { ctrl1, ctrl2, to } => apply(t, to),
            SegmentModel::ClosePath => pen_after(t, segs.drop_last()),
        }
    }
}

/// The lines and curves that the segments `segs` draw, in output space. Each
/// starts where the pen stands and ends at its own mapped end point; a move
/// and a close draw nothing.
pub open spec fn strokes_of(t: Affine, segs: Seq<SegmentModel>) -> Seq<Stroke>
    decreases segs.len(),
{
    if segs.len() == 0 {
        Seq::empty()
    } else {
        let before = strokes_of(t, segs.drop_last());
        let pen = pen_after(t, segs.drop_last());
        match segs.last() {
            SegmentModel::MoveTo { to } => before,
            SegmentModel::LineTo { to } => before.push(Stroke::LineSeg { from: pen, to: apply(t, to) }),
            SegmentModel::CurveTo { ctrl1, ctrl2, to } => before.push(
                Stroke::Bezier {
                    from: pen,
                    to: apply(t, to),
                    ctrl1: apply(t, ctrl1),
                    ctrl2: apply(t, ctrl2),
                },
            ),
            SegmentModel::ClosePath => before,
        }
    }
}

/// Whether a style fills: it has a fill, and the fill is not `none`.
pub open spec fn is_filled(style: Option<StyleModel>) -> bool {
    match style {
        Some(s) => s.fill is Some && s.fill->0 != "none".spec_bytes(),
        None => false,
    }
}

/// Each stroke as a drawing command of its own, with the given style.
pub open spec fn separate(strokes: Seq<Stroke>, style: Option<StyleModel>) -> Seq<Primitive> {
    Seq::new(strokes.len(), |i: int| Primitive::Segment { stroke: strokes[i], own_style: style })
}

/// Whether the map `t` sends every point of a segment somewhere in range,
/// with nothing cut off on the way.
pub open spec fn segment_fits(t: Affine, segment: SegmentModel) -> bool {
    match segment {
        SegmentModel::MoveTo { to } => applies_in_range(t, to),
        SegmentModel::LineTo { to } => applies_in_range(t, to),
        SegmentModel::CurveTo { ctrl1, ctrl2, to } => applies_in_range(t, ctrl1)
            && applies_in_range(t, ctrl2) && applies_in_range(t, to),
        SegmentModel::ClosePath => true,
    }
}

/// Whether the map `t` sends every point of a path somewhere in range.
pub open spec fn path_fits(t: Affine, segs: Seq<SegmentModel>) -> bool {
    forall|i: int| 0 <= i < segs.len() ==> segment_fits(t, #[trigger] segs[i])
}

/// Whether the path that the attributes hold, if any, fits under `t`.
pub open spec fn segments_fit(t: Affine, segments: Option<Seq<SegmentModel>>) -> bool {
    match segments {
        Some(segs) => path_fits(t, segs),
        None => true,
    }
}

/// Whether a corner `(x, y)` and the corner `(x + w, y + h)` opposite to it
/// are in range, before the map `t` and after it, with nothing cut off on
/// the way.
pub open spec fn corners_fit(t: Affine, x: int, y: int, w: int, h: int) -> bool {
    &&& in_range(x + w)
    &&& in_range(y + h)
    &&& applies_in_range(t, (x, y))
    &&& applies_in_range(t, (x + w, y + h))
}

/// Whether a circle fits under `t`: its centre, the point that gives its
/// radius, and the radius.
pub open spec fn circle_fits(t: Affine, a: AttrsModel) -> bool {
    &&& corners_fit(t, a.cx, a.cy, a.r, a.r)
    &&& in_range(apply(t, (a.cx + a.r, a.cy + a.r)).0 - apply(t, (a.cx, a.cy)).0)
}

/// Whether an ellipse fits under `t`: its centre, the point that gives its
/// radii, and the radii.
pub open spec fn ellipse_fits(t: Affine, a: AttrsModel) -> bool {
    &&& corners_fit(t, a.cx, a.cy, a.rx, a.ry)
    &&& in_range(apply(t, (a.cx + a.rx, a.cy + a.ry)).0 - apply(t, (a.cx, a.cy)).0)
    &&& in_range(apply(t, (a.cx + a.rx, a.cy + a.ry)).1 - apply(t, (a.cx, a.cy)).1)
}

/// What a path draws: nothing without data; one filled group if its style
/// fills; else each line and curve by itself, with the style of the path.
pub open spec fn path_primitives(
    t: Affine,
    style: Option<StyleModel>,
    segments: Option<Seq<SegmentModel>>,
) -> Seq<Primitive> {
    match segments {
        None => Seq::empty(),
        Some(segs) => if is_filled(style) {
            seq![Primitive::FilledPathGroup { style: style->0, strokes: strokes_of(t, segs) }]
        } else {
            separate(strokes_of(t, segs), style)
        },
    }
}

/// The rectangle that the attributes `a` describe, under the map `t`: its
/// two corners are mapped one by one.
pub open spec fn rect_primitive(t: Affine, a: AttrsModel) -> Primitive {
    Primitive::Rect {
        near: apply(t, (a.x, a.y)),
        far: apply(t, (a.x + a.width, a.y + a.height)),
        style: shape_style(a.style),
    }
}

/// The circle that the attributes `a` describe, under the map `t`: its
/// radius is how far the map moves the point `(cx + r, cy + r)` from the
/// centre along the first axis.
pub open spec fn circle_primitive(t: Affine, a: AttrsModel) -> Primitive {
    let center = apply(t, (a.cx, a.cy));
    let edge = apply(t, (a.cx + a.r, a.cy + a.r));
    Primitive::CircleIso {
        center,
        radius: edge.0 - center.0,
        style: shape_style(a.style),
    }
}

/// The ellipse that the attributes `a` describe, under the map `t`: its
/// radii are how far the map moves the point `(cx + rx, cy + ry)` from the
/// centre along each axis.
pub open spec fn ellipse_primitive(t: Affine, a: AttrsModel) -> Primitive {
    let center = apply(t, (a.cx, a.cy));
    let edge = apply(t, (a.cx + a.rx, a.cy + a.ry));
    Primitive::CircleAniso {
        center,
        radii: (edge.0 - center.0, edge.1 - center.1),
        style: shape_style(a.style),
    }
}

/// What an empty element draws: a `rect`, a `path`, an `ellipse` and a
/// `circle` draw their shape under the map of the innermost scope; any other
/// element draws nothing. A shape with a coordinate or a measure that would
/// be cut off is a malformed number.
pub open spec fn step_empty(frames: Seq<FrameModel>, name: Seq<u8>, attrs: Seq<AttributeModel>)
    -> Result<Seq<Primitive>, ConvertError>
    recommends
        frames.len() > 0,
{
    let t = frames.last().transform;
    if name == "rect".spec_bytes() {
        match read_attributes(ElementKind::Rect, t, attrs) {
            Ok(a) => if corners_fit(t, a.x, a.y, a.width, a.height) {
                Ok(seq![rect_primitive(t, a)])
            } else {
                Err(ConvertError::MalformedNumeric)
            },
            Err(e) => Err(e),
        }
    } else if name == "path".spec_bytes() {
        match read_attributes(ElementKind::Path, t, attrs) {
            Ok(a) => if segments_fit(t, a.segments) {
                Ok(path_primitives(t, a.style, a.segments))
            } else {
                Err(ConvertError::MalformedNumeric)
            },
            Err(e) => Err(e),
        }
    } else if name == "ellipse".spec_bytes() {
        match read_attributes(ElementKind::Ellipse, t, attrs) {
            Ok(a) => if ellipse_fits(t, a) {
                Ok(seq![ellipse_primitive(t, a)])
            } else {
                Err(ConvertError::MalformedNumeric)
            },
            Err(e) => Err(e),
        }
    } else if name == "circle".spec_bytes() {
        match read_attributes(ElementKind::Circle, t, attrs) {
            Ok(a) => if circle_fits(t, a) {
                Ok(seq![circle_primitive(t, a)])
            } else {
                Err(ConvertError::MalformedNumeric)
            },
            Err(e) => Err(e),
        }
    } else {
        Ok(Seq::empty())
    }
}

/// What one piece of markup does: the stack after it and what it draws, or
/// the error that ends the conversion. Font sizes are multiplied by
/// `font_scale`.
#[verifier::opaque]
pub open spec fn step(frames: Seq<FrameModel>, token: TokenModel, font_scale: int) -> Result<
    (Seq<FrameModel>, Seq<Primitive>),
    ConvertError,
>
    recommends
        frames.len() > 0,
{
    match token {
        TokenModel::Open { name, attributes } => match step_open(frames, name, attributes) {
            Ok(next) => Ok((next, Seq::empty())),
            Err(e) => Err(e),
        },
        TokenModel::Close { name } => Ok((step_close(frames, name), Seq::empty())),
        TokenModel::Empty { name, attributes } => match step_empty(frames, name, attributes) {
            Ok(drawn) => Ok((frames, drawn)),
            Err(e) => Err(e),
        },
        TokenModel::Text { content } => match step_text(frames, content, font_scale) {
            Ok(drawn) => Ok((frames, drawn)),
            Err(e) => Err(e),
        },
        TokenModel::Eof => Ok((frames, Seq::empty())),
        TokenModel::Other => Ok((frames, Seq::empty())),
    }
}

/// A piece of markup opens one scope, closes the innermost one, or leaves the
/// stack alone; every scope that stays open stays as it was when it opened,
/// and the root scope always stays.
pub proof fn law_open_scopes_are_fixed(
    frames: Seq<FrameModel>,
    token: TokenModel,
    font_scale: int,
)
    requires
        frames.len() > 0,
        frames[0].kind == FrameKind::Root,
        step(frames, token, font_scale) is Ok,
    ensures
        ({
            let next = step(frames, token, font_scale)->Ok_0.0;
            &&& next.len() > 0
            &&& next[0] == frames[0]
            &&& frames.len() - 1 <= next.len() <= frames.len() + 1
            &&& forall|i: int| 0 <= i < frames.len() && i < next.len() ==> next[i] == frames[i]
        }),
{
    reveal(step);
}

/// Only an empty element and character data draw; only a start tag and an
/// end tag change the stack.
pub proof fn law_tokens_draw_or_nest(frames: Seq<FrameModel>, token: TokenModel, font_scale: int)
    requires
        step(frames, token, font_scale) is Ok,
    ensures
        (token is Open || token is Close || token is Eof || token is Other) ==> step(
            frames,
            token,
            font_scale,
        )->Ok_0.1.len() == 0,
        (token is Empty || token is Text || token is Eof || token is Other) ==> step(
            frames,
            token,
            font_scale,
        )->Ok_0.0 == frames,
{
    reveal(step);
}

/// Drawing commands as they are written, one after another.
pub open spec fn emit_all(drawn: Seq<Primitive>, font_scale: int) -> Seq<u8>
    decreases drawn.len(),
{
    if drawn.len() == 0 {
        Seq::empty()
    } else {
        emit_all(drawn.drop_last(), font_scale) + emit_text(drawn.last(), font_scale)
    }
}

/// One drawing command is written as itself.
proof fn lemma_emit_one(p: Primitive, font_scale: int)
    ensures
        emit_all(seq![p], font_scale) == emit_text(p, font_scale),
{
    reveal_with_fuel(emit_all, 2);
    assert(seq![p].drop_last() =~= Seq::<Primitive>::empty());
    assert(seq![p].last() == p);
    assert(Seq::<u8>::empty() + emit_text(p, font_scale) =~= emit_text(p, font_scale));
}

/// Strokes drawn one by one are written as the strokes themselves.
proof fn lemma_emit_separate(strokes: Seq<Stroke>, style: Option<StyleModel>, font_scale: int)
    ensures
        emit_all(separate(strokes, style), font_scale) == strokes_text(strokes, style),
    decreases strokes.len(),
{
    if strokes.len() > 0 {
        lemma_emit_separate(strokes.drop_last(), style, font_scale);
        assert(separate(strokes, style).drop_last() =~= separate(strokes.drop_last(), style));
        reveal(emit_text);
    }
}

/// What one more segment adds to the pen and to what is written.
proof fn lemma_stroke_step(t: Affine, segs: Seq<SegmentModel>, i: int, style: Option<StyleModel>)
    requires
        0 <= i < segs.len(),
    ensures
        match segs[i] {
            SegmentModel::MoveTo { to } => pen_after(t, segs.take(i + 1)) == apply(t, to)
                && strokes_of(t, segs.take(i + 1)) == strokes_of(t, segs.take(i)),
            SegmentModel::LineTo { to } => pen_after(t, segs.take(i + 1)) == apply(t, to)
                && strokes_text(strokes_of(t, segs.take(i + 1)), style) == strokes_text(
                strokes_of(t, segs.take(i)),
                style,
            ) + stroke_line(Stroke::LineSeg { from: pen_after(t, segs.take(i)), to: apply(t, to) }, style),
            SegmentModel::CurveTo { ctrl1, ctrl2, to } => pen_after(t, segs.take(i + 1)) == apply(
                t,
                to,
            ) && strokes_text(strokes_of(t, segs.take(i + 1)), style) == strokes_text(
                strokes_of(t, segs.take(i)),
                style,
            ) + stroke_line(
                Stroke::Bezier {
                    from: pen_after(t, segs.take(i)),
                    to: apply(t, to),
                    ctrl1: apply(t, ctrl1),
                    ctrl2: apply(t, ctrl2),
                },
                style,
            ),
            SegmentModel::ClosePath => pen_after(t, segs.take(i + 1)) == pen_after(t, segs.take(i))
                && strokes_of(t, segs.take(i + 1)) == strokes_of(t, segs.take(i)),
        },
{
    let before = segs.take(i);
    let next = segs.take(i + 1);
    assert(next.drop_last() =~= before);
    assert(next.last() == segs[i]);
    let drawn = strokes_of(t, next);
    match segs[i] {
        SegmentModel::LineTo { to } => {
            assert(drawn.drop_last() =~= strokes_of(t, before));
        },
        SegmentModel::CurveTo { ctrl1, ctrl2, to } => {
            assert(drawn.drop_last() =~= strokes_of(t, before));
        },
        _ => {},
    }
}

/// The style to draw under, lent.
fn lend(style: &Option<SvgStyle>) -> (r: Option<&SvgStyle>)
    ensures
        lent_style_model(r) == style_model(*style),
{
    match style {
        Some(s) => Some(s),
        None => None,
    }
}

/// Whether a style fills.
fn fills(style: &Option<SvgStyle>) -> (r: bool)
    ensures
        r == is_filled(style_model(*style)),
{
    match style {
        Some(s) => match &s.fill {
            Some(paint) => !is_text(paint.as_slice(), "none"),
            None => false,
        },
        None => false,
    }
}

/// Whether the map `t` sends every point of a segment somewhere in range.
fn fits_segment(t: &Transform, segment: &Segment) -> (r: bool)
    ensures
        r == segment_fits(t@, segment@),
{
    match segment {
        Segment::MoveTo { x, y } => apply_transform_exact((*x, *y), t).is_some(),
        Segment::LineTo { x, y } => apply_transform_exact((*x, *y), t).is_some(),
        Segment::CurveTo { x1, y1, x2, y2, x, y } => apply_transform_exact((*x1, *y1), t).is_some()
            && apply_transform_exact((*x2, *y2), t).is_some() && apply_transform_exact(
            (*x, *y),
            t,
        ).is_some(),
        Segment::ClosePath => true,
    }
}

/// Whether the map `t` sends every point of a path somewhere in range.
fn fits_path(t: &Transform, segments: &Option<Vec<Segment>>) -> (r: bool)
    ensures
        r == segments_fit(t@, optional_segments(*segments)),
{
    match segments {
        None => true,
        Some(segs) => {
            let ghost models = segment_models(segs@);
            let mut i: usize = 0;
            while i < segs.len()
                invariant
                    i <= segs.len(),
                    models == segment_models(segs@),
                    optional_segments(*segments) == Some(models),
                    forall|k: int| 0 <= k < i ==> segment_fits(t@, #[trigger] models[k]),
                decreases segs.len() - i,
            {
                if !fits_segment(t, &segs[i]) {
                    assert(models[i as int] == segs[i as int]@);
                    assert(!segment_fits(t@, models[i as int]));
                    assert(!path_fits(t@, models));
                    return false;
                }
                i += 1;
            }
            true
        },
    }
}

/// Whether the map `t` sends each of the first `n` of `points` somewhere in
/// range.
fn fits_points(t: &Transform, points: &Vec<(Fixed, Fixed)>, n: usize) -> (r: bool)
    requires
        n <= points.len(),
    ensures
        r == all_apply(t@, point_models(points@), n as int),
{
    let ghost models = point_models(points@);
    let mut i: usize = 0;
    while i < n
        invariant
            i <= n,
            n <= points.len(),
            models == point_models(points@),
            forall|k: int| 0 <= k < i ==> applies_in_range(t@, #[trigger] models[k]),
        decreases n - i,
    {
        if apply_transform_exact(points[i], t).is_none() {
            assert(!applies_in_range(t@, models[i as int]));
            return false;
        }
        i += 1;
    }
    true
}

/// What the map `t` makes of the corner `(x, y)` and of the corner
/// `(x + w, y + h)` opposite to it, if nothing is cut off on the way.
fn map_corners(t: &Transform, x: Fixed, y: Fixed, w: Fixed, h: Fixed) -> (r: Option<
    ((Fixed, Fixed), (Fixed, Fixed)),
>)
    ensures
        match r {
            Some((near, far)) => corners_fit(t@, x@, y@, w@, h@) && point_units(near) == apply(
                t@,
                (x@, y@),
            ) && point_units(far) == apply(t@, (x@ + w@, y@ + h@)),
            None => !corners_fit(t@, x@, y@, w@, h@),
        },
{
    let far_x = x.plus_exact(w)?;
    let far_y = y.plus_exact(h)?;
    let near = apply_transform_exact((x, y), t)?;
    let far = apply_transform_exact((far_x, far_y), t)?;
    Some((near, far))
}

/// Whether the font size of a style, multiplied by `font_scale`, is in
/// range.
fn fits_size(style: &Option<SvgStyle>, font_scale: Fixed) -> (r: bool)
    ensures
        r == size_fits(style_model(*style), font_scale@),
{
    match style {
        Some(s) => match s.font_size {
            Some(size) => size.times_exact(font_scale).is_some(),
            None => true,
        },
        None => true,
    }
}

/// Writes the lines and curves of a path that fits, each with the stroke of
/// `style` if there is a style.
fn draw_strokes(t: &Transform, segs: &Vec<Segment>, style: Option<&SvgStyle>, out: &mut Vec<u8>)
    requires
        path_fits(t@, segment_models(segs@)),
    ensures
        final(out)@ == old(out)@ + strokes_text(
            strokes_of(t@, segment_models(segs@)),
            lent_style_model(style),
        ),
{
    let ghost models = segment_models(segs@);
    let ghost look = lent_style_model(style);
    let mut pen = (Fixed::zero(), Fixed::zero());
    let mut i: usize = 0;
    assert(models.take(0) =~= Seq::<SegmentModel>::empty());
    assert(out@ =~= old(out)@ + Seq::<u8>::empty());
    while i < segs.len()
        invariant
            i <= segs.len(),
            models == segment_models(segs@),
            look == lent_style_model(style),
            point_units(pen) == pen_after(t@, models.take(i as int)),
            out@ == old(out)@ + strokes_text(strokes_of(t@, models.take(i as int)), look),
        decreases segs.len() - i,
    {
        proof {
            lemma_stroke_step(t@, models, i as int, look);
        }
        let ghost done = strokes_text(strokes_of(t@, models.take(i as int)), look);
        match segs[i] {
            Segment::MoveTo { x, y } => {
                pen = apply_transform((x, y), t);
            },
            Segment::LineTo { x, y } => {
                let to = apply_transform((x, y), t);
                let ghost line = stroke_line(
                    Stroke::LineSeg { from: point_units(pen), to: point_units(to) },
                    look,
                );
                write_line(pen, to, style, out);
                assert(out@ =~= old(out)@ + (done + line));
                pen = to;
            },
            Segment::CurveTo { x1, y1, x2, y2, x, y } => {
                let ctrl1 = apply_transform((x1, y1), t);
                let ctrl2 = apply_transform((x2, y2), t);
                let to = apply_transform((x, y), t);
                let ghost curve = stroke_line(
                    Stroke::Bezier {
                        from: point_units(pen),
                        to: point_units(to),
                        ctrl1: point_units(ctrl1),
                        ctrl2: point_units(ctrl2),
                    },
                    look,
                );
                write_bezier(pen, to, ctrl1, ctrl2, style, out);
                assert(out@ =~= old(out)@ + (done + curve));
                pen = to;
            },
            Segment::ClosePath => {},
        }
        i += 1;
    }
    assert(models.take(segs.len() as int) =~= models);
}

/// Writes what a path that fits draws.
fn draw_path(
    t: &Transform,
    style: &Option<SvgStyle>,
    segments: &Option<Vec<Segment>>,
    font_scale: Fixed,
    out: &mut Vec<u8>,
)
    requires
        segments_fit(t@, optional_segments(*segments)),
    ensures
        final(out)@ == old(out)@ + emit_all(
            path_primitives(t@, style_model(*style), optional_segments(*segments)),
            font_scale@,
        ),
{
    match segments {
        None => {
            assert(out@ =~= old(out)@ + Seq::<u8>::empty());
        },
        Some(segs) => {
            let ghost strokes = strokes_of(t@, segment_models(segs@));
            if fills(style) {
                match style {
                    Some(s) => {
                        let mut buf: Vec<u8> = Vec::new();
                        push_text(&mut buf, "merge-path(");
                        assert(buf@ =~= "merge-path(".spec_bytes());
                        s.format_fill(&mut buf);
                        s.format_stroke(&mut buf);
                        push_text(&mut buf, "{\n");
                        draw_strokes(t, segs, None, &mut buf);
                        push_text(&mut buf, "})\n");
                        push_bytes(out, buf.as_slice());
                        proof {
                            reveal(emit_text);
                            lemma_emit_one(
                                Primitive::FilledPathGroup { style: s@, strokes },
                                font_scale@,
                            );
                        }
                    },
                    None => {},
                }
            } else {
                draw_strokes(t, segs, lend(style), out);
                proof {
                    lemma_emit_separate(strokes, style_model(*style), font_scale@);
                }
            }
        },
    }
}

/// The points whose coordinates two lists give, as far as both reach.
fn pair_up(xs: &Vec<Fixed>, ys: &Vec<Fixed>) -> (r: Vec<(Fixed, Fixed)>)
    ensures
        point_models(r@) == paired(number_models(xs@), number_models(ys@)),
{
    let n = if xs.len() <= ys.len() { xs.len() } else { ys.len() };
    let mut r: Vec<(Fixed, Fixed)> = Vec::new();
    let mut i: usize = 0;
    while i < n
        invariant
            i <= n,
            n <= xs.len(),
            n <= ys.len(),
            r.len() == i,
            forall|k: int| 0 <= k < i ==> (#[trigger] r[k]).0 == xs[k] && r[k].1 == ys[k],
        decreases n - i,
    {
        r.push((xs[i], ys[i]));
        i += 1;
    }
    assert(point_models(r@) =~= paired(number_models(xs@), number_models(ys@)));
    r
}

/// The traversal of one document: the stack of open scopes, the outermost
/// first, and the factor that font sizes are multiplied by.
pub struct Engine {
    stack: Vec<Frame>,
    font_scale: Fixed,
}

impl Engine {
    /// The open scopes, the innermost last.
    pub closed spec fn frames(&self) -> Seq<FrameModel> {
        frame_models(self.stack@)
    }

    /// Whether the stack stands on the root scope. Every traversal that
    /// `new` makes and `handle_event` moves on does.
    pub open spec fn wf(&self) -> bool {
        self.frames().len() > 0 && self.frames()[0].kind == FrameKind::Root
    }

    /// The factor that font sizes are multiplied by, in units.
    pub closed spec fn font_scale(&self) -> int {
        self.font_scale@
    }

    /// A traversal that has read nothing: the root scope alone, under the map
    /// `root`, without position or style.
    pub fn new(root: Transform, font_scale: Fixed) -> (r: Engine)
        ensures
            r.wf(),
            r.font_scale() == font_scale@,
            r.frames() == seq![
                FrameModel {
                    kind: FrameKind::Root,
                    transform: root@,
                    positions: None,
                    style: None,
                },
            ],
    {
        let mut stack: Vec<Frame> = Vec::new();
        stack.push(Frame { kind: FrameKind::Root, transform: root, positions: None, style: None });
        let r = Engine { stack, font_scale };
        assert(r.frames() =~= seq![
            FrameModel { kind: FrameKind::Root, transform: root@, positions: None, style: None },
        ]);
        r
    }

    /// How many scopes are open, the root among them.
    pub fn depth(&self) -> (r: usize)
        ensures
            r == self.frames().len(),
    {
        self.stack.len()
    }

    /// The map of the innermost scope.
    pub fn current_transform(&self) -> (r: Transform)
        requires
            self.wf(),
        ensures
            r@ == self.frames().last().transform,
    {
        self.stack[self.stack.len() - 1].transform
    }

    /// The style in effect in the scope at depth `depth`, counted from one.
    fn inherited(&self, depth: usize) -> (r: Option<SvgStyle>)
        requires
            depth <= self.frames().len(),
        ensures
            style_model(r) == inherited_style(self.frames().take(depth as int)),
    {
        let ghost frames = self.frames().take(depth as int);
        let mut i: usize = depth;
        assert(frames.take(i as int) =~= frames);
        while i > 0
            invariant
                i <= depth <= self.stack.len(),
                frames == frame_models(self.stack@).take(depth as int),
                nearest_styled(frames) == nearest_styled(frames.take(i as int)),
            decreases i,
        {
            i -= 1;
            assert(frames.take(i + 1).drop_last() =~= frames.take(i as int));
            assert(frames.take(i + 1).last() == self.stack[i as int]@);
            if let Some(s) = &self.stack[i].style {
                return Some(s.duplicate());
            }
        }
        None
    }

    /// The place in the stack of the innermost scope that text can stand in.
    fn text_scope(&self) -> (r: Option<usize>)
        ensures
            match r {
                Some(i) => nearest_text(self.frames()) == Some(i as int) && i < self.frames().len(),
                None => nearest_text(self.frames()) is None,
            },
    {
        let ghost frames = self.frames();
        let mut i: usize = self.stack.len();
        assert(frames.take(i as int) =~= frames);
        while i > 0
            invariant
                i <= self.stack.len(),
                frames == frame_models(self.stack@),
                nearest_text(frames) == nearest_text(frames.take(i as int)),
            decreases i,
        {
            i -= 1;
            assert(frames.take(i + 1).drop_last() =~= frames.take(i as int));
            assert(frames.take(i + 1).last() == self.stack[i as int]@);
            match self.stack[i].kind {
                FrameKind::Text => { return Some(i); },
                FrameKind::Span => { return Some(i); },
                _ => {},
            }
        }
        None
    }

    /// Takes in a start tag.
    fn open_element(&mut self, name: &[u8], attributes: &Vec<Attribute>) -> (r: Result<
        (),
        ConvertError,
    >)
        requires
            old(self).wf(),
        ensures
            final(self).wf(),
            final(self).font_scale() == old(self).font_scale(),
            match step_open(old(self).frames(), name@, attribute_models(attributes@)) {
                Ok(frames) => r is Ok && final(self).frames() == frames,
                Err(e) => r == Err::<(), ConvertError>(e) && final(self).frames() == old(
                    self,
                ).frames(),
            },
    {
        let ghost before = self.frames();
        let around = self.stack[self.stack.len() - 1].transform;
        assert(before.last().transform == around@);
        if is_text(name, "g") {
            let a = Attrs::read(ElementKind::Group, &around, attributes)?;
            let frame = Frame {
                kind: FrameKind::Group,
                transform: a.transform,
                positions: None,
                style: None,
            };
            let ghost model = frame@;
            self.stack.push(frame);
            assert(self.frames() =~= before.push(model));
        } else if is_text(name, "text") {
            let a = Attrs::read(ElementKind::Text, &around, attributes)?;
            let mut positions: Vec<(Fixed, Fixed)> = Vec::new();
            positions.push((a.x, a.y));
            assert(point_models(positions@) =~= seq![(a.x@, a.y@)]);
            let frame = Frame {
                kind: FrameKind::Text,
                transform: around,
                positions: Some(positions),
                style: a.style,
            };
            let ghost model = frame@;
            self.stack.push(frame);
            assert(self.frames() =~= before.push(model));
        } else if is_text(name, "tspan") {
            let a = Attrs::read(ElementKind::Span, &around, attributes)?;
            assert(before.take(before.len() as int) =~= before);
            let style = self.inherited(self.stack.len());
            let positions = pair_up(&a.xs, &a.ys);
            let frame = Frame {
                kind: FrameKind::Span,
                transform: around,
                positions: Some(positions),
                style,
            };
            let ghost model = frame@;
            self.stack.push(frame);
            assert(self.frames() =~= before.push(model));
        }
        Ok(())
    }

    /// Takes in an end tag.
    fn close_element(&mut self, name: &[u8])
        requires
            old(self).wf(),
        ensures
            final(self).wf(),
            final(self).font_scale() == old(self).font_scale(),
            final(self).frames() == step_close(old(self).frames(), name@),
    {
        let ghost before = self.frames();
        let top = self.stack.len() - 1;
        assert(before.last().kind == self.stack[top as int].kind);
        let closing = match self.stack[top].kind {
            FrameKind::Root => false,
            FrameKind::Group => is_text(name, "g"),
            FrameKind::Text => is_text(name, "text"),
            FrameKind::Span => is_text(name, "tspan"),
        };
        if closing {
            self.stack.pop();
            assert(self.frames() =~= before.drop_last());
        }
    }

    /// Writes the text `content` byte by byte, each byte at its position,
    /// where the positions and the font size fit.
    fn draw_glyphs(
        &self,
        t: &Transform,
        positions: &Vec<(Fixed, Fixed)>,
        style: &Option<SvgStyle>,
        content: &[u8],
        out: &mut Vec<u8>,
    )
        requires
            size_fits(style_model(*style), self.font_scale()),
            all_apply(t@, point_models(positions@), content@.len() as int),
        ensures
            final(out)@ == old(out)@ + emit_all(
                glyphs(t@, point_models(positions@), style_model(*style), content@),
                self.font_scale(),
            ),
    {
        let ghost all = glyphs(t@, point_models(positions@), style_model(*style), content@);
        let n = if content.len() <= positions.len() { content.len() } else { positions.len() };
        let mut k: usize = 0;
        assert(all.take(0) =~= Seq::<Primitive>::empty());
        assert(out@ =~= old(out)@ + Seq::<u8>::empty());
        while k < n
            invariant
                k <= n,
                n == all.len(),
                n <= content.len(),
                n <= positions.len(),
                all == glyphs(t@, point_models(positions@), style_model(*style), content@),
                out@ == old(out)@ + emit_all(all.take(k as int), self.font_scale()),
            decreases n - k,
        {
            let mut one: Vec<u8> = Vec::new();
            one.push(content[k]);
            assert(one@ =~= seq![content@[k as int]]);
            let at = apply_transform(positions[k], t);
            let ghost done = emit_all(all.take(k as int), self.font_scale());
            gen_content(at, style, one.as_slice(), self.font_scale, out);
            proof {
                assert(all.take(k + 1).drop_last() =~= all.take(k as int));
                assert(all.take(k + 1).last() == all[k as int]);
                assert(out@ =~= old(out)@ + (done + emit_text(all[k as int], self.font_scale())));
            }
            k += 1;
        }
        assert(all.take(n as int) =~= all);
    }

    /// Takes in character data.
    fn draw_text(&self, content: &[u8], out: &mut Vec<u8>) -> (r: Result<(), ConvertError>)
        requires
            self.wf(),
        ensures
            match step_text(self.frames(), content@, self.font_scale()) {
                Ok(drawn) => r is Ok && final(out)@ == old(out)@ + emit_all(
                    drawn,
                    self.font_scale(),
                ),
                Err(e) => r == Err::<(), ConvertError>(e) && final(out)@ == old(out)@,
            },
    {
        let t = self.current_transform();
        let i = match self.text_scope() {
            Some(i) => i,
            None => { return Err(ConvertError::MissingTextContainer); },
        };
        let parent = &self.stack[i];
        assert(self.frames()[i as int] == parent@);
        let positions = match &parent.positions {
            Some(positions) => positions,
            None => {
                return Err(ConvertError::MissingTextAnchor);
            },
        };
        if positions.len() == 0 {
            return Err(ConvertError::MissingTextAnchor);
        }
        let spread = match parent.kind {
            FrameKind::Span => positions.len() > 1,
            _ => false,
        };
        assert(i < self.stack.len());
        let style = self.inherited(i + 1);
        if !fits_size(&style, self.font_scale) {
            return Err(ConvertError::MalformedNumeric);
        }
        if spread {
            let n = if content.len() <= positions.len() { content.len() } else { positions.len() };
            if !fits_points(&t, positions, n) {
                return Err(ConvertError::MalformedNumeric);
            }
            self.draw_glyphs(&t, positions, &style, content, out);
        } else {
            if !fits_points(&t, positions, 1) {
                return Err(ConvertError::MalformedNumeric);
            }
            let at = apply_transform(positions[0], &t);
            gen_content(at, &style, content, self.font_scale, out);
            proof {
                lemma_emit_one(
                    Primitive::Content {
                        position: point_units(at),
                        text_style: style_model(style),
                        text: content@,
                    },
                    self.font_scale(),
                );
            }
        }
        Ok(())
    }

    /// Takes in an empty element.
    fn draw_shape(&self, name: &[u8], attributes: &Vec<Attribute>, out: &mut Vec<u8>) -> (r:
        Result<(), ConvertError>)
        requires
            self.wf(),
        ensures
            match step_empty(self.frames(), name@, attribute_models(attributes@)) {
                Ok(drawn) => r is Ok && final(out)@ == old(out)@ + emit_all(
                    drawn,
                    self.font_scale(),
                ),
                Err(e) => r == Err::<(), ConvertError>(e) && final(out)@ == old(out)@,
            },
    {
        let t = self.current_transform();
        let ghost scale = self.font_scale();
        if is_text(name, "rect") {
            let a = Attrs::read(ElementKind::Rect, &t, attributes)?;
            let (near, far) = match map_corners(&t, a.x, a.y, a.width, a.height) {
                Some(corners) => corners,
                None => { return Err(ConvertError::MalformedNumeric); },
            };
            let style = plain_if_absent(a.style);
            write_rect(near, far, &style, out);
            proof {
                lemma_shape_ignores_scale(rect_primitive(t@, a@), 0, scale);
                lemma_emit_one(rect_primitive(t@, a@), scale);
            }
        } else if is_text(name, "path") {
            let a = Attrs::read(ElementKind::Path, &t, attributes)?;
            if !fits_path(&t, &a.segments) {
                return Err(ConvertError::MalformedNumeric);
            }
            draw_path(&t, &a.style, &a.segments, self.font_scale, out);
        } else if is_text(name, "ellipse") {
            let a = Attrs::read(ElementKind::Ellipse, &t, attributes)?;
            let (center, edge) = match map_corners(&t, a.cx, a.cy, a.rx, a.ry) {
                Some(corners) => corners,
                None => { return Err(ConvertError::MalformedNumeric); },
            };
            let radii = match (edge.0.minus_exact(center.0), edge.1.minus_exact(center.1)) {
                (Some(rx), Some(ry)) => (rx, ry),
                _ => { return Err(ConvertError::MalformedNumeric); },
            };
            let style = plain_if_absent(a.style);
            write_ellipse(center, radii, &style, out);
            proof {
                lemma_shape_ignores_scale(ellipse_primitive(t@, a@), 0, scale);
                lemma_emit_one(ellipse_primitive(t@, a@), scale);
            }
        } else if is_text(name, "circle") {
            let a = Attrs::read(ElementKind::Circle, &t, attributes)?;
            let (center, edge) = match map_corners(&t, a.cx, a.cy, a.r, a.r) {
                Some(corners) => corners,
                None => { return Err(ConvertError::MalformedNumeric); },
            };
            let radius = match edge.0.minus_exact(center.0) {
                Some(radius) => radius,
                None => { return Err(ConvertError::MalformedNumeric); },
            };
            let style = plain_if_absent(a.style);
            write_circle(center, radius, &style, out);
            proof {
                lemma_shape_ignores_scale(circle_primitive(t@, a@), 0, scale);
                lemma_emit_one(circle_primitive(t@, a@), scale);
            }
        } else {
            assert(out@ =~= old(out)@ + Seq::<u8>::empty());
        }
        Ok(())
    }

    /// Takes in one piece of markup: updates the stack of scopes and appends
    /// to `out` what the piece draws. On an error nothing changes.
    pub fn handle_event(&mut self, token: &Token, out: &mut Vec<u8>) -> (r: Result<
        (),
        ConvertError,
    >)
        requires
            old(self).wf(),
        ensures
            final(self).wf(),
            final(self).font_scale() == old(self).font_scale(),
            match step(old(self).frames(), token@, old(self).font_scale()) {
                Ok((frames, drawn)) => r is Ok && final(self).frames() == frames && final(out)@
                    == old(out)@ + emit_all(drawn, old(self).font_scale()),
                Err(e) => r == Err::<(), ConvertError>(e) && final(self).frames() == old(
                    self,
                ).frames() && final(out)@ == old(out)@,
            },
    {
        reveal(step);
        match token {
            Token::Open { name, attributes } => {
                let r = self.open_element(name.as_slice(), attributes);
                assert(out@ =~= old(out)@ + Seq::<u8>::empty());
                r
            },
            Token::Close { name } => {
                self.close_element(name.as_slice());
                assert(out@ =~= old(out)@ + Seq::<u8>::empty());
                Ok(())
            },
            Token::Empty { name, attributes } => self.draw_shape(name.as_slice(), attributes, out),
            Token::Text { content } => self.draw_text(content.as_slice(), out),
            Token::Eof => {
                assert(out@ =~= old(out)@ + Seq::<u8>::empty());
                Ok(())
            },
            Token::Other => {
                assert(out@ =~= old(out)@ + Seq::<u8>::empty());
                Ok(())
            },
        }
    }
}

/// The style of a shape: the one it specifies, or one that specifies
/// nothing.
fn plain_if_absent(style: Option<SvgStyle>) -> (r: SvgStyle)
    ensures
        r@ == shape_style(style_model(style)),
{
    match style {
        Some(s) => s,
        None => SvgStyle::new(),
    }
}

/// Only text is written with regard to the scale of fonts.
proof fn lemma_shape_ignores_scale(p: Primitive, s1: int, s2: int)
    requires
        !(p is Content),
    ensures
        emit_text(p, s1) == emit_text(p, s2),
{
    reveal(emit_text);
}

} // verus!