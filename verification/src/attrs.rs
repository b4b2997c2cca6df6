//! The attributes of an element, read into a typed record.

use vstd::prelude::*;
use vstd::string::StringSliceAdditionalSpecFns;
use crate::affine::{compose, composes_in_range, transform_multiply_exact, Affine, Transform};
use crate::decimal::{parse_decimal, parse_units};
use crate::emit::style_model;
use crate::error::ConvertError;
use crate::fixed::Fixed;
use crate::markup::{attribute_models, Attribute, AttributeModel};
use crate::style::{length_units, parse_length, parse_style, StyleModel, SvgStyle};
use crate::svgdata::{path_of, segment_models, transform_of, Segment, SegmentModel};
use crate::text::{copy_range, is_text};

verus! {

/// The elements whose attributes are read.
#[derive(Clone, Copy, Debug, PartialEq, Eq, Structural)]
pub enum ElementKind {
    /// `g`
    Group,
    /// `text`
    Text,
    /// `tspan`
    Span,
    /// `rect`
    Rect,
    /// `circle`
    Circle,
    /// `ellipse`
    Ellipse,
    /// `path`
    Path,
}

/// What the attributes of an element say. A number that no attribute gives
/// is zero, a list is empty.
#[derive(Debug)]
pub struct Attrs {
    pub x: Fixed,
    pub y: Fixed,
    pub width: Fixed,
    pub height: Fixed,
    pub cx: Fixed,
    pub cy: Fixed,
    pub r: Fixed,
    pub rx: Fixed,
    pub ry: Fixed,
    pub xs: Vec<Fixed>,
    pub ys: Vec<Fixed>,
    pub style: Option<SvgStyle>,
    pub segments: Option<Vec<Segment>>,
    pub transform: Transform,
}

/// What an [`Attrs`] holds.
pub struct AttrsModel {
    pub x: int,
    pub y: int,
    pub width: int,
    pub height: int,
    pub cx: int,
    pub cy: int,
    pub r: int,
    pub rx: int,
    pub ry: int,
    pub xs: Seq<int>,
    pub ys: Seq<int>,
    pub style: Option<StyleModel>,
    pub segments: Option<Seq<SegmentModel>>,
    pub transform: Affine,
}

/// The units of a list of numbers.
pub open spec fn number_models(v: Seq<Fixed>) -> Seq<int> {
    Seq::new(v.len(), |i: int| v[i]@)
}

/// What an optional list of segments holds.
pub open spec fn optional_segments(o: Option<Vec<Segment>>) -> Option<Seq<SegmentModel>> {
    match o {
        Some(v) => Some(segment_models(v@)),
        None => None,
    }
}

impl View for Attrs {
    type V = AttrsModel;

    open spec fn view(&self) -> AttrsModel {
        AttrsModel {
            x: self.x@,
            y: self.y@,
            width: self.width@,
            height: self.height@,
            cx: self.cx@,
            cy: self.cy@,
            r: self.r@,
            rx: self.rx@,
            ry: self.ry@,
            xs: number_models(self.xs@),
            ys: number_models(self.ys@),
            style: style_model(self.style),
            segments: optional_segments(self.segments),
            transform: self.transform@,
        }
    }
}

impl AttrsModel {
    /// The record before any attribute is read, in a scope whose map is
    /// `transform`.
    pub open spec fn initial(transform: Affine) -> AttrsModel {
        AttrsModel {
            x: 0,
            y: 0,
            width: 0,
            height: 0,
            cx: 0,
            cy: 0,
            r: 0,
            rx: 0,
            ry: 0,
            xs: Seq::empty(),
            ys: Seq::empty(),
            style: None,
            segments: None,
            transform,
        }
    }
}

/// Whether three bytes are the UTF-8 form of a white space character beyond
/// U+00FF: U+1680, U+2000 to U+200A, U+2028, U+2029, U+202F, U+205F, U+3000.
pub open spec fn is_wide_space(a: u8, b: u8, c: u8) -> bool {
    ||| a == 0xE1 && b == 0x9A && c == 0x80
    ||| a == 0xE2 && b == 0x80 && (0x80 <= c <= 0x8A || c == 0xA8 || c == 0xA9 || c == 0xAF)
    ||| a == 0xE2 && b == 0x81 && c == 0x9F
    ||| a == 0xE3 && b == 0x80 && c == 0x80
}

/// How many bytes the white space character takes that `s` starts with, in
/// UTF-8: none where `s` starts with no white space. White space is what
/// Unicode calls so: the ASCII characters U+0009 to U+000D and the space,
/// U+0085, U+00A0 and the wide ones.
pub open spec fn space_len(s: Seq<u8>) -> nat {
    if s.len() >= 1 && (s[0] == ' ' as u8 || (9 <= s[0] <= 13)) {
        1
    } else if s.len() >= 2 && s[0] == 0xC2 && (s[1] == 0x85 || s[1] == 0xA0) {
        2
    } else if s.len() >= 3 && is_wide_space(s[0], s[1], s[2]) {
        3
    } else {
        0
    }
}

/// How many bytes at the start of `s` stand before any white space.
pub open spec fn word_len(s: Seq<u8>) -> nat
    decreases s.len(),
{
    if s.len() == 0 || space_len(s) > 0 {
        0
    } else {
        1 + word_len(s.skip(1))
    }
}

/// A word is no longer than the text it starts.
pub proof fn lemma_word_len(s: Seq<u8>)
    ensures
        word_len(s) <= s.len(),
    decreases s.len(),
{
    if s.len() != 0 && space_len(s) == 0 {
        lemma_word_len(s.skip(1));
    }
}

/// The lengths that `s` lists after those in `acc`: words that white space
/// separates, each a length.
pub open spec fn length_list_after(acc: Seq<int>, s: Seq<u8>) -> Result<Seq<int>, ConvertError>
    decreases s.len(),
{
    if s.len() == 0 {
        Ok(acc)
    } else if space_len(s) > 0 {
        length_list_after(acc, s.skip(space_len(s) as int))
    } else {
        match length_units(s.take(word_len(s) as int)) {
            Some(v) => {
                proof {
                    lemma_word_len(s);
                }
                length_list_after(acc.push(v), s.skip(word_len(s) as int))
            },
            None => Err(ConvertError::MalformedNumeric),
        }
    }
}

/// The lengths that `s` lists.
pub open spec fn length_list(s: Seq<u8>) -> Result<Seq<int>, ConvertError> {
    length_list_after(Seq::empty(), s)
}

/// The units of a plain number, or the error of a malformed one.
pub open spec fn number_units(s: Seq<u8>) -> Result<int, ConvertError> {
    match parse_units(s) {
        Some(v) => Ok(v),
        None => Err(ConvertError::MalformedNumeric),
    }
}

/// The units of a length, or the error of a malformed one.
pub open spec fn length_or_error(s: Seq<u8>) -> Result<int, ConvertError> {
    match length_units(s) {
        Some(v) => Ok(v),
        None => Err(ConvertError::MalformedNumeric),
    }
}

/// The record `acc` after one attribute of an element of the given kind. An
/// attribute that the element does not know changes nothing. The `transform`
/// of a group and the `d` of a path count as `svgtypes` has read them. A
/// transform whose composition with the map around it is out of range is a
/// malformed number.
#[verifier::opaque]
pub open spec fn apply_attribute(kind: ElementKind, acc: AttrsModel, attr: AttributeModel) -> Result<
    AttrsModel,
    ConvertError,
> {
    let key = attr.key;
    let value = attr.value;
    let is_style = key == "style".spec_bytes() && kind != ElementKind::Group && kind
        != ElementKind::Span;
    if is_style {
        match parse_style(value) {
            Ok(s) => Ok(AttrsModel { style: Some(s), ..acc }),
            Err(e) => Err(e),
        }
    } else {
        match kind {
            ElementKind::Group => if key == "transform".spec_bytes() {
                match transform_of(attr.reading) {
                    Ok(m) => if composes_in_range(acc.transform, m) {
                        Ok(AttrsModel { transform: compose(acc.transform, m), ..acc })
                    } else {
                        Err(ConvertError::MalformedNumeric)
                    },
                    Err(e) => Err(e),
                }
            } else {
                Ok(acc)
            },
            ElementKind::Text => if key == "x".spec_bytes() {
                match length_or_error(value) {
                    Ok(v) => Ok(AttrsModel { x: v, ..acc }),
                    Err(e) => Err(e),
                }
            } else if key == "y".spec_bytes() {
                match length_or_error(value) {
                    Ok(v) => Ok(AttrsModel { y: v, ..acc }),
                    Err(e) => Err(e),
                }
            } else {
                Ok(acc)
            },
            ElementKind::Span => if key == "x".spec_bytes() {
                match length_list(value) {
                    Ok(v) => Ok(AttrsModel { xs: v, ..acc }),
                    Err(e) => Err(e),
                }
            } else if key == "y".spec_bytes() {
                match length_list(value) {
                    Ok(v) => Ok(AttrsModel { ys: v, ..acc }),
                    Err(e) => Err(e),
                }
            } else {
                Ok(acc)
            },
            ElementKind::Rect => if key == "x".spec_bytes() {
                match number_units(value) {
                    Ok(v) => Ok(AttrsModel { x: v, ..acc }),
                    Err(e) => Err(e),
                }
            } else if key == "y".spec_bytes() {
                match number_units(value) {
                    Ok(v) => Ok(AttrsModel { y: v, ..acc }),
                    Err(e) => Err(e),
                }
            } else if key == "width".spec_bytes() {
                match number_units(value) {
                    Ok(v) => Ok(AttrsModel { width: v, ..acc }),
                    Err(e) => Err(e),
                }
            } else if key == "height".spec_bytes() {
                match number_units(value) {
                    Ok(v) => Ok(AttrsModel { height: v, ..acc }),
                    Err(e) => Err(e),
                }
            } else {
                Ok(acc)
            },
            ElementKind::Circle => if key == "cx".spec_bytes() {
                match number_units(value) {
                    Ok(v) => Ok(AttrsModel { cx: v, ..acc }),
                    Err(e) => Err(e),
                }
            } else if key == "cy".spec_bytes() {
                match number_units(value) {
                    Ok(v) => Ok(AttrsModel { cy: v, ..acc }),
                    Err(e) => Err(e),
                }
            } else if key == "r".spec_bytes() {
                match number_units(value) {
                    Ok(v) => Ok(AttrsModel { r: v, ..acc }),
                    Err(e) => Err(e),
                }
            } else {
                Ok(acc)
            },
            ElementKind::Ellipse => if key == "cx".spec_bytes() {
                match number_units(value) {
                    Ok(v) => Ok(AttrsModel { cx: v, ..acc }),
                    Err(e) => Err(e),
                }
            } else if key == "cy".spec_bytes() {
                match number_units(value) {
                    Ok(v) => Ok(AttrsModel { cy: v, ..acc }),
                    Err(e) => Err(e),
                }
            } else if key == "rx".spec_bytes() {
                match number_units(value) {
                    Ok(v) => Ok(AttrsModel { rx: v, ..acc }),
                    Err(e) => Err(e),
                }
            } else if key == "ry".spec_bytes() {
                match number_units(value) {
                    Ok(v) => Ok(AttrsModel { ry: v, ..acc }),
                    Err(e) => Err(e),
                }
            } else {
                Ok(acc)
            },
            ElementKind::Path => if key == "d".spec_bytes() {
                match path_of(attr.reading) {
                    Ok(v) => Ok(AttrsModel { segments: Some(v), ..acc }),
                    Err(e) => Err(e),
                }
            } else {
                Ok(acc)
            },
        }
    }
}

/// The record `acc` after the attributes `attrs`, taken in their order. The
/// first one that fails decides the error.
pub open spec fn apply_attributes(kind: ElementKind, acc: AttrsModel, attrs: Seq<AttributeModel>)
    -> Result<AttrsModel, ConvertError>
    decreases attrs.len(),
{
    if attrs.len() == 0 {
        Ok(acc)
    } else {
        match apply_attributes(kind, acc, attrs.drop_last()) {
            Ok(before) => apply_attribute(kind, before, attrs.last()),
            Err(e) => Err(e),
        }
    }
}

/// What the attributes `attrs` of an element say, in a scope whose map is
/// `transform`.
pub open spec fn read_attributes(kind: ElementKind, transform: Affine, attrs: Seq<AttributeModel>)
    -> Result<AttrsModel, ConvertError> {
    apply_attributes(kind, AttrsModel::initial(transform), attrs)
}

/// Reads a plain number.
pub fn parse_number(s: &[u8]) -> (r: Result<Fixed, ConvertError>)
    ensures
        match number_units(s@) {
            Ok(v) => r matches Ok(f) && f@ == v,
            Err(e) => r matches Err(x) && x == e,
        },
{
    match parse_decimal(s) {
        Some(f) => Ok(f),
        None => Err(ConvertError::MalformedNumeric),
    }
}

/// How many bytes the white space character takes that stands at `at`.
fn space_at(s: &[u8], at: usize) -> (r: usize)
    requires
        at <= s.len(),
    ensures
        r == space_len(s@.skip(at as int)),
        at + r <= s.len(),
{
    let n = s.len() - at;
    let ghost tail = s@.skip(at as int);
    if n >= 1 && (s[at] == ' ' as u8 || (9 <= s[at] && s[at] <= 13)) {
        1
    } else if n >= 2 && s[at] == 0xC2 && (s[at + 1] == 0x85 || s[at + 1] == 0xA0) {
        2
    } else if n >= 3 {
        let a = s[at];
        let b = s[at + 1];
        let c = s[at + 2];
        assert(tail[0] == a && tail[1] == b && tail[2] == c);
        let wide = (a == 0xE1 && b == 0x9A && c == 0x80) || (a == 0xE2 && b == 0x80 && ((0x80 <= c
            && c <= 0x8A) || c == 0xA8 || c == 0xA9 || c == 0xAF)) || (a == 0xE2 && b == 0x81 && c
            == 0x9F) || (a == 0xE3 && b == 0x80 && c == 0x80);
        if wide {
            3
        } else {
            0
        }
    } else {
        0
    }
}

/// Where the word that starts at `from` ends.
fn word_end(s: &[u8], from: usize) -> (end: usize)
    requires
        from <= s.len(),
    ensures
        end == from + word_len(s@.skip(from as int)),
        end <= s.len(),
{
    let mut i: usize = from;
    while i < s.len() && space_at(s, i) == 0
        invariant
            from <= i <= s.len(),
            word_len(s@.skip(from as int)) == (i - from) + word_len(s@.skip(i as int)),
        decreases s.len() - i,
    {
        assert(s@.skip(i as int).skip(1) =~= s@.skip(i + 1));
        i += 1;
    }
    i
}

/// Reads a list of lengths that white space separates.
pub fn parse_length_list(s: &[u8]) -> (r: Result<Vec<Fixed>, ConvertError>)
    ensures
        match length_list(s@) {
            Ok(m) => r matches Ok(v) && number_models(v@) == m,
            Err(e) => r matches Err(x) && x == e,
        },
{
    let mut v: Vec<Fixed> = Vec::new();
    let mut i: usize = 0;
    assert(s@.skip(0) =~= s@);
    assert(number_models(v@) =~= Seq::<int>::empty());
    while i < s.len()
        invariant
            i <= s.len(),
            length_list(s@) == length_list_after(number_models(v@), s@.skip(i as int)),
        decreases s.len() - i,
    {
        let ghost tail = s@.skip(i as int);
        let space = space_at(s, i);
        if space > 0 {
            assert(tail.skip(space as int) =~= s@.skip(i + space));
            i += space;
        } else {
            let end = word_end(s, i);
            let word = copy_range(s, i, end);
            assert(word@ =~= tail.take(word_len(tail) as int));
            let length = parse_length(word.as_slice())?;
            let ghost before = number_models(v@);
            v.push(length);
            assert(number_models(v@) =~= before.push(length@));
            assert(tail.skip(word_len(tail) as int) =~= s@.skip(end as int));
            i = end;
        }
    }
    Ok(v)
}

impl Attrs {
    /// The record before any attribute is read, in a scope whose map is
    /// `transform`.
    pub fn new(transform: Transform) -> (r: Attrs)
        ensures
            r@ == AttrsModel::initial(transform@),
    {
        let r = Attrs {
            x: Fixed::zero(),
            y: Fixed::zero(),
            width: Fixed::zero(),
            height: Fixed::zero(),
            cx: Fixed::zero(),
            cy: Fixed::zero(),
            r: Fixed::zero(),
            rx: Fixed::zero(),
            ry: Fixed::zero(),
            xs: Vec::new(),
            ys: Vec::new(),
            style: None,
            segments: None,
            transform,
        };
        assert(number_models(r.xs@) =~= Seq::<int>::empty());
        assert(number_models(r.ys@) =~= Seq::<int>::empty());
        r
    }

    /// Takes in an attribute of a group, a text or a span.
    fn apply_to_scope(&mut self, kind: ElementKind, attr: &Attribute) -> (r: Result<
        (),
        ConvertError,
    >)
        requires
            kind == ElementKind::Group || kind == ElementKind::Text || kind == ElementKind::Span,
            !(attr.key@ == "style".spec_bytes() && kind == ElementKind::Text),
        ensures
            match apply_attribute(kind, old(self)@, attr@) {
                Ok(m) => r is Ok && final(self)@ == m,
                Err(e) => r == Err::<(), ConvertError>(e),
            },
    {
        reveal(apply_attribute);
        let key = attr.key.as_slice();
        let value = attr.value.as_slice();
        match kind {
            ElementKind::Group => {
                if is_text(key, "transform") {
                    let m = attr.reading.transform()?;
                    match transform_multiply_exact(&self.transform, &m) {
                        Some(t) => {
                            self.transform = t;
                        },
                        None => { return Err(ConvertError::MalformedNumeric); },
                    }
                }
            },
            ElementKind::Text => {
                if is_text(key, "x") {
                    self.x = parse_length(value)?;
                } else if is_text(key, "y") {
                    self.y = parse_length(value)?;
                }
            },
            _ => {
                if is_text(key, "x") {
                    self.xs = parse_length_list(value)?;
                } else if is_text(key, "y") {
                    self.ys = parse_length_list(value)?;
                }
            },
        }
        Ok(())
    }

    /// Takes in an attribute of a shape.
    fn apply_to_shape(&mut self, kind: ElementKind, attr: &Attribute) -> (r: Result<
        (),
        ConvertError,
    >)
        requires
            kind == ElementKind::Rect || kind == ElementKind::Circle || kind
                == ElementKind::Ellipse || kind == ElementKind::Path,
            attr.key@ != "style".spec_bytes(),
        ensures
            match apply_attribute(kind, old(self)@, attr@) {
                Ok(m) => r is Ok && final(self)@ == m,
                Err(e) => r == Err::<(), ConvertError>(e),
            },
    {
        reveal(apply_attribute);
        let key = attr.key.as_slice();
        let value = attr.value.as_slice();
        match kind {
            ElementKind::Rect => {
                if is_text(key, "x") {
                    self.x = parse_number(value)?;
                } else if is_text(key, "y") {
                    self.y = parse_number(value)?;
                } else if is_text(key, "width") {
                    self.width = parse_number(value)?;
                } else if is_text(key, "height") {
                    self.height = parse_number(value)?;
                }
            },
            ElementKind::Circle => {
                if is_text(key, "cx") {
                    self.cx = parse_number(value)?;
                } else if is_text(key, "cy") {
                    self.cy = parse_number(value)?;
                } else if is_text(key, "r") {
                    self.r = parse_number(value)?;
                }
            },
            ElementKind::Ellipse => {
                if is_text(key, "cx") {
                    self.cx = parse_number(value)?;
                } else if is_text(key, "cy") {
                    self.cy = parse_number(value)?;
                } else if is_text(key, "rx") {
                    self.rx = parse_number(value)?;
                } else if is_text(key, "ry") {
                    self.ry = parse_number(value)?;
                }
            },
            _ => {
                if is_text(key, "d") {
                    self.segments = Some(attr.reading.segments()?);
                }
            },
        }
        Ok(())
    }

    /// Takes in one attribute of an element of the given kind.
    pub fn apply(&mut self, kind: ElementKind, attr: &Attribute) -> (r: Result<(), ConvertError>)
        ensures
            match apply_attribute(kind, old(self)@, attr@) {
                Ok(m) => r is Ok && final(self)@ == m,
                Err(e) => r == Err::<(), ConvertError>(e),
            },
    {
        reveal(apply_attribute);
        let scope = match kind {
            ElementKind::Group => true,
            ElementKind::Text => true,
            ElementKind::Span => true,
            _ => false,
        };
        let styled = match kind {
            ElementKind::Group => false,
            ElementKind::Span => false,
            _ => true,
        };
        if styled && is_text(attr.key.as_slice(), "style") {
            self.style = Some(SvgStyle::from_str(attr.value.as_slice())?);
            Ok(())
        } else if scope {
            self.apply_to_scope(kind, attr)
        } else {
            self.apply_to_shape(kind, attr)
        }
    }

    /// Reads the attributes of an element of the given kind, in a scope whose
    /// map is `transform`.
    pub fn read(kind: ElementKind, transform: &Transform, attributes: &Vec<Attribute>) -> (r:
        Result<Attrs, ConvertError>)
        ensures
            match read_attributes(kind, transform@, attribute_models(attributes@)) {
                Ok(m) => r matches Ok(a) && a@ == m,
                Err(e) => r matches Err(x) && x == e,
            },
    {
        let mut acc = Attrs::new(*transform);
        let mut i: usize = 0;
        let ghost all = attribute_models(attributes@);
        while i < attributes.len()
            invariant
                i <= attributes.len(),
                all == attribute_models(attributes@),
                apply_attributes(kind, AttrsModel::initial(transform@), all.take(i as int)) == Ok::<
                    AttrsModel,
                    ConvertError,
                >(acc@),
            decreases attributes.len() - i,
        {
            let ghost next = all.take(i + 1);
            assert(next.drop_last() =~= all.take(i as int));
            assert(next.last() == attributes[i as int]@);
            match acc.apply(kind, &attributes[i]) {
                Ok(()) => {},
                Err(e) => {
                    proof {
                        lemma_failure_stays(kind, AttrsModel::initial(transform@), all, i + 1);
                    }
                    return Err(e);
                },
            }
            i += 1;
        }
        assert(all.take(attributes.len() as int) =~= all);
        Ok(acc)
    }
}

/// Once the attributes up to some point have failed, all of them fail alike.
proof fn lemma_failure_stays(kind: ElementKind, acc: AttrsModel, attrs: Seq<AttributeModel>, n: int)
    requires
        0 <= n <= attrs.len(),
        apply_attributes(kind, acc, attrs.take(n)) is Err,
    ensures
        apply_attributes(kind, acc, attrs) == apply_attributes(kind, acc, attrs.take(n)),
    decreases attrs.len() - n,
{
    if n < attrs.len() {
        assert(attrs.take(n + 1).drop_last() =~= attrs.take(n));
        lemma_failure_stays(kind, acc, attrs, n + 1);
    } else {
        assert(attrs.take(n) =~= attrs);
    }
}

} // verus!
