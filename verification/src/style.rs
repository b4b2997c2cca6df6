//! Inline presentation styles.

use vstd::prelude::*;
use vstd::string::StringSliceAdditionalSpecFns;
use crate::decimal::{
    decimal_text, law_written_number_reads_back, lemma_decimal_text_is_plain, parse_decimal,
    parse_units, write_decimal,
};
use crate::error::ConvertError;
use crate::fixed::{in_range, Fixed};
use crate::text::{
    copy_range, find_byte, first_index, is_text, lemma_first_index, lemma_first_index_is,
    push_bytes, push_text,
};

verus! {

/// What a style says, field by field. An absent field is not specified here;
/// that differs from a paint that is specified as `none`.
pub struct StyleModel {
    pub fill: Option<Seq<u8>>,
    pub fill_rule: Option<Seq<u8>>,
    pub stroke_width: Option<int>,
    pub stroke: Option<Seq<u8>>,
    pub font_family: Option<Seq<u8>>,
    pub font_size: Option<int>,
    pub dash_array: Option<Seq<u8>>,
}

impl StyleModel {
    /// The style that specifies nothing.
    pub open spec fn empty() -> StyleModel {
        StyleModel {
            fill: None,
            fill_rule: None,
            stroke_width: None,
            stroke: None,
            font_family: None,
            font_size: None,
            dash_array: None,
        }
    }
}

/// The contents of an optional byte string.
pub open spec fn bytes_model(o: Option<Vec<u8>>) -> Option<Seq<u8>> {
    match o {
        Some(v) => Some(v@),
        None => None,
    }
}

/// The units of an optional number.
pub open spec fn number_model(o: Option<Fixed>) -> Option<int> {
    match o {
        Some(v) => Some(v@),
        None => None,
    }
}

/// A parsed inline style.
#[derive(Debug, Clone)]
pub struct SvgStyle {
    pub fill: Option<Vec<u8>>,
    pub fill_rule: Option<Vec<u8>>,
    pub stroke_width: Option<Fixed>,
    pub stroke: Option<Vec<u8>>,
    pub font_family: Option<Vec<u8>>,
    pub font_size: Option<Fixed>,
    pub dash_array: Option<Vec<u8>>,
}

impl View for SvgStyle {
    type V = StyleModel;

    open spec fn view(&self) -> StyleModel {
        StyleModel {
            fill: bytes_model(self.fill),
            fill_rule: bytes_model(self.fill_rule),
            stroke_width: number_model(self.stroke_width),
            stroke: bytes_model(self.stroke),
            font_family: bytes_model(self.font_family),
            font_size: number_model(self.font_size),
            dash_array: bytes_model(self.dash_array),
        }
    }
}

/// A value without its unit: a trailing `px` or `pt` is dropped.
pub open spec fn without_unit(s: Seq<u8>) -> Seq<u8> {
    if s.len() >= 2 && s[s.len() - 2] == 'p' as u8 && (s[s.len() - 1] == 'x' as u8 || s[s.len()
        - 1] == 't' as u8) {
        s.take(s.len() - 2)
    } else {
        s
    }
}

/// The units of a length: a decimal number that `px` or `pt` may follow.
pub open spec fn length_units(s: Seq<u8>) -> Option<int> {
    parse_units(without_unit(s))
}

/// Reads a length: a decimal number that `px` or `pt` may follow.
pub fn parse_length(s: &[u8]) -> (r: Result<Fixed, ConvertError>)
    ensures
        match length_units(s@) {
            Some(v) => r matches Ok(f) && f@ == v,
            None => r == Err::<Fixed, ConvertError>(ConvertError::MalformedNumeric),
        },
{
    let n = s.len();
    let end: usize = if n >= 2 && s[n - 2] == 'p' as u8 && (s[n - 1] == 'x' as u8 || s[n - 1]
        == 't' as u8) {
        n - 2
    } else {
        n
    };
    let number = copy_range(s, 0, end);
    assert(number@ =~= without_unit(s@));
    match parse_decimal(number.as_slice()) {
        Some(f) => Ok(f),
        None => Err(ConvertError::MalformedNumeric),
    }
}

/// The style `acc` after the property `key` is set to `value`. A key that is
/// not known changes nothing.
pub open spec fn set_property(acc: StyleModel, key: Seq<u8>, value: Seq<u8>) -> Result<
    StyleModel,
    ConvertError,
> {
    if key == "fill".spec_bytes() {
        Ok(StyleModel { fill: Some(value), ..acc })
    } else if key == "fill-rule".spec_bytes() {
        Ok(StyleModel { fill_rule: Some(value), ..acc })
    } else if key == "stroke-width".spec_bytes() {
        match length_units(value) {
            Some(v) => Ok(StyleModel { stroke_width: Some(v), ..acc }),
            None => Err(ConvertError::MalformedNumeric),
        }
    } else if key == "stroke".spec_bytes() {
        Ok(StyleModel { stroke: Some(value), ..acc })
    } else if key == "font-family".spec_bytes() {
        Ok(StyleModel { font_family: Some(value), ..acc })
    } else if key == "font-size".spec_bytes() {
        match length_units(value) {
            Some(v) => Ok(StyleModel { font_size: Some(v), ..acc }),
            None => Err(ConvertError::MalformedNumeric),
        }
    } else if key == "stroke-dasharray".spec_bytes() {
        Ok(StyleModel { dash_array: Some(value), ..acc })
    } else {
        Ok(acc)
    }
}

/// The style `acc` after one declaration. An empty declaration changes
/// nothing; any other needs a colon. The key is what stands before the first
/// colon, the value what stands between it and the next colon or the end.
pub open spec fn apply_declaration(acc: StyleModel, decl: Seq<u8>) -> Result<
    StyleModel,
    ConvertError,
> {
    let colon = first_index(decl, ':' as u8);
    if decl.len() == 0 {
        Ok(acc)
    } else if colon >= decl.len() {
        Err(ConvertError::MalformedStyleSyntax)
    } else {
        let rest = decl.skip(colon as int + 1);
        set_property(acc, decl.take(colon as int), rest.take(first_index(rest, ':' as u8) as int))
    }
}

/// The style `acc` after the declarations of `s`, which semicolons separate,
/// taken from left to right. The first one that fails decides the error.
pub open spec fn apply_declarations(acc: StyleModel, s: Seq<u8>) -> Result<StyleModel, ConvertError>
    decreases s.len(),
{
    let end = first_index(s, ';' as u8);
    match apply_declaration(acc, s.take(end as int)) {
        Err(e) => Err(e),
        Ok(next) => if end >= s.len() {
            Ok(next)
        } else {
            apply_declarations(next, s.skip(end as int + 1))
        },
    }
}

/// What the style text `s` says.
pub open spec fn parse_style(s: Seq<u8>) -> Result<StyleModel, ConvertError> {
    apply_declarations(StyleModel::empty(), s)
}

/// The fill of a shape as it is written: nothing where no fill is specified.
pub open spec fn fill_text(style: StyleModel) -> Seq<u8> {
    match style.fill {
        Some(paint) => "fill: ".spec_bytes() + paint + ", ".spec_bytes(),
        None => Seq::empty(),
    }
}

/// The paint of a stroke as it is written.
pub open spec fn paint_text(style: StyleModel) -> Seq<u8> {
    match style.stroke {
        Some(paint) => "paint: ".spec_bytes() + paint + ", ".spec_bytes(),
        None => Seq::empty(),
    }
}

/// The thickness of a stroke as it is written, in points.
pub open spec fn thickness_text(style: StyleModel) -> Seq<u8> {
    match style.stroke_width {
        Some(width) => "thickness: ".spec_bytes() + decimal_text(width) + "pt, ".spec_bytes(),
        None => Seq::empty(),
    }
}

/// The dash of a stroke as it is written: only that there is one.
pub open spec fn dash_text(style: StyleModel) -> Seq<u8> {
    match style.dash_array {
        Some(_) => "dash: \"dashed\", ".spec_bytes(),
        None => Seq::empty(),
    }
}

/// The stroke of a shape as it is written: the mark of no stroke where
/// neither paint, thickness nor dash is specified, else those that are.
pub open spec fn stroke_text(style: StyleModel) -> Seq<u8> {
    if style.stroke is None && style.stroke_width is None && style.dash_array is None {
        "stroke: none, ".spec_bytes()
    } else {
        "stroke: (".spec_bytes() + paint_text(style) + thickness_text(style) + dash_text(style)
            + "), ".spec_bytes()
    }
}

impl Default for SvgStyle {
    /// The style that specifies nothing.
    fn default() -> (r: SvgStyle)
        ensures
            r@ == StyleModel::empty(),
    {
        SvgStyle::new()
    }
}

impl SvgStyle {
    /// The style that specifies nothing.
    pub fn new() -> (r: SvgStyle)
        ensures
            r@ == StyleModel::empty(),
    {
        SvgStyle {
            fill: None,
            fill_rule: None,
            stroke_width: None,
            stroke: None,
            font_family: None,
            font_size: None,
            dash_array: None,
        }
    }

    /// A copy of this style.
    pub fn duplicate(&self) -> (r: SvgStyle)
        ensures
            r@ == self@,
    {
        SvgStyle {
            fill: duplicate_bytes(&self.fill),
            fill_rule: duplicate_bytes(&self.fill_rule),
            stroke_width: self.stroke_width,
            stroke: duplicate_bytes(&self.stroke),
            font_family: duplicate_bytes(&self.font_family),
            font_size: self.font_size,
            dash_array: duplicate_bytes(&self.dash_array),
        }
    }

    /// Sets the property `key` to `value`.
    fn set(&mut self, key: &[u8], value: Vec<u8>) -> (r: Result<(), ConvertError>)
        ensures
            match set_property(old(self)@, key@, value@) {
                Ok(next) => r is Ok && final(self)@ == next,
                Err(e) => r == Err::<(), ConvertError>(e),
            },
    {
        if is_text(key, "fill") {
            self.fill = Some(value);
        } else if is_text(key, "fill-rule") {
            self.fill_rule = Some(value);
        } else if is_text(key, "stroke-width") {
            let width = parse_length(value.as_slice())?;
            self.stroke_width = Some(width);
        } else if is_text(key, "stroke") {
            self.stroke = Some(value);
        } else if is_text(key, "font-family") {
            self.font_family = Some(value);
        } else if is_text(key, "font-size") {
            let size = parse_length(value.as_slice())?;
            self.font_size = Some(size);
        } else if is_text(key, "stroke-dasharray") {
            self.dash_array = Some(value);
        }
        Ok(())
    }

    /// Writes the fill, if one is specified.
    pub fn format_fill(&self, out: &mut Vec<u8>)
        ensures
            final(out)@ == old(out)@ + fill_text(self@),
    {
        match &self.fill {
            Some(fill) => {
                let mut buf = labelled("fill: ", fill.as_slice());
                push_text(&mut buf, ", ");
                push_bytes(out, buf.as_slice());
            },
            None => {
                assert(out@ =~= old(out)@ + Seq::<u8>::empty());
            },
        }
    }

    /// Writes the paint of the stroke, if one is specified.
    fn format_paint(&self, out: &mut Vec<u8>)
        ensures
            final(out)@ == old(out)@ + paint_text(self@),
    {
        match &self.stroke {
            Some(stroke) => {
                let mut buf = labelled("paint: ", stroke.as_slice());
                push_text(&mut buf, ", ");
                push_bytes(out, buf.as_slice());
            },
            None => {
                assert(out@ =~= old(out)@ + Seq::<u8>::empty());
            },
        }
    }

    /// Writes the thickness of the stroke, if one is specified.
    fn format_thickness(&self, out: &mut Vec<u8>)
        ensures
            final(out)@ == old(out)@ + thickness_text(self@),
    {
        match self.stroke_width {
            Some(thickness) => {
                let mut number: Vec<u8> = Vec::new();
                write_decimal(thickness, &mut number);
                assert(number@ =~= decimal_text(thickness@));
                let mut buf = labelled("thickness: ", number.as_slice());
                push_text(&mut buf, "pt, ");
                push_bytes(out, buf.as_slice());
            },
            None => {
                assert(out@ =~= old(out)@ + Seq::<u8>::empty());
            },
        }
    }

    /// Writes that the stroke is dashed, if a dash is specified.
    fn format_dash(&self, out: &mut Vec<u8>)
        ensures
            final(out)@ == old(out)@ + dash_text(self@),
    {
        if self.dash_array.is_some() {
            push_text(out, "dash: \"dashed\", ");
        } else {
            assert(out@ =~= old(out)@ + Seq::<u8>::empty());
        }
    }

    /// Writes the stroke, or the mark of no stroke.
    pub fn format_stroke(&self, out: &mut Vec<u8>)
        ensures
            final(out)@ == old(out)@ + stroke_text(self@),
    {
        if self.stroke.is_some() || self.stroke_width.is_some() || self.dash_array.is_some() {
            let none: Vec<u8> = Vec::new();
            let mut buf = labelled("stroke: (", none.as_slice());
            assert(buf@ =~= "stroke: (".spec_bytes());
            self.format_paint(&mut buf);
            self.format_thickness(&mut buf);
            self.format_dash(&mut buf);
            push_text(&mut buf, "), ");
            push_bytes(out, buf.as_slice());
        } else {
            push_text(out, "stroke: none, ");
        }
    }

    /// Applies one declaration.
    fn declare(&mut self, decl: &[u8]) -> (r: Result<(), ConvertError>)
        ensures
            match apply_declaration(old(self)@, decl@) {
                Ok(next) => r is Ok && final(self)@ == next,
                Err(e) => r == Err::<(), ConvertError>(e),
            },
    {
        if decl.len() == 0 {
            return Ok(());
        }
        let colon = find_byte(decl, 0, ':' as u8);
        assert(decl@.skip(0) =~= decl@);
        if colon >= decl.len() {
            return Err(ConvertError::MalformedStyleSyntax);
        }
        let stop = find_byte(decl, colon + 1, ':' as u8);
        let key = copy_range(decl, 0, colon);
        let value = copy_range(decl, colon + 1, stop);
        proof {
            let rest = decl@.skip(colon as int + 1);
            assert(key@ =~= decl@.take(colon as int));
            assert(value@ =~= rest.take(first_index(rest, ':' as u8) as int));
        }
        self.set(key.as_slice(), value)
    }

    /// Reads a style: declarations of the form `key:value`, which semicolons
    /// separate. Keys that are not known are passed over.
    pub fn from_str(s: &[u8]) -> (r: Result<SvgStyle, ConvertError>)
        ensures
            match parse_style(s@) {
                Ok(model) => r matches Ok(style) && style@ == model,
                Err(e) => r matches Err(x) && x == e,
            },
    {
        let mut style = SvgStyle::new();
        let mut pos: usize = 0;
        assert(s@.skip(0) =~= s@);
        loop
            invariant
                pos <= s.len(),
                parse_style(s@) == apply_declarations(style@, s@.skip(pos as int)),
            decreases s.len() - pos,
        {
            let end = find_byte(s, pos, ';' as u8);
            let decl = copy_range(s, pos, end);
            let ghost tail = s@.skip(pos as int);
            assert(decl@ =~= tail.take(end - pos));
            match style.declare(decl.as_slice()) {
                Ok(()) => {},
                Err(e) => { return Err(e); },
            }
            if end >= s.len() {
                return Ok(style);
            }
            assert(tail.skip(end - pos + 1) =~= s@.skip(end + 1));
            pos = end + 1;
        }
    }
}

/// Whether `key` names a property that a style holds.
pub open spec fn is_known_key(key: Seq<u8>) -> bool {
    key == "fill".spec_bytes() || key == "fill-rule".spec_bytes() || key
        == "stroke-width".spec_bytes() || key == "stroke".spec_bytes() || key
        == "font-family".spec_bytes() || key == "font-size".spec_bytes() || key
        == "stroke-dasharray".spec_bytes()
}

/// A declaration whose key is not known never fails and changes nothing.
pub proof fn law_unknown_key_is_passed_over(acc: StyleModel, decl: Seq<u8>)
    requires
        first_index(decl, ':' as u8) < decl.len(),
        !is_known_key(decl.take(first_index(decl, ':' as u8) as int)),
    ensures
        apply_declaration(acc, decl) == Ok::<StyleModel, ConvertError>(acc),
{
}

/// Reading what is left of a style does not depend on how it is reached:
/// a style is read declaration by declaration.
pub proof fn law_style_reads_by_declaration(acc: StyleModel, first: Seq<u8>, rest: Seq<u8>)
    requires
        forall|k: int| 0 <= k < first.len() ==> first[k] != ';' as u8,
    ensures
        apply_declarations(acc, first + seq![';' as u8] + rest) == match apply_declaration(
            acc,
            first,
        ) {
            Ok(next) => apply_declarations(next, rest),
            Err(e) => Err(e),
        },
{
    let s = first + seq![';' as u8] + rest;
    assert forall|k: int| 0 <= k < first.len() implies s[k] != ';' as u8 by {
        assert(s[k] == first[k]);
    }
    assert(s[first.len() as int] == ';' as u8);
    lemma_first_index_is(s, ';' as u8, first.len() as int);
    assert(s.take(first.len() as int) =~= first);
    assert(s.skip(first.len() as int + 1) =~= rest);
}

/// An empty style specifies nothing.
pub proof fn law_empty_style_is_all_absent()
    ensures
        parse_style(Seq::empty()) == Ok::<StyleModel, ConvertError>(StyleModel::empty()),
{
    let s = Seq::<u8>::empty();
    assert(s.take(0) =~= s);
}

/// A semicolon at the end of a style changes nothing.
pub proof fn law_trailing_semicolon_changes_nothing(acc: StyleModel, s: Seq<u8>)
    ensures
        apply_declarations(acc, s.push(';' as u8)) == apply_declarations(acc, s),
    decreases s.len(),
{
    let semi = ';' as u8;
    let longer = s.push(semi);
    let end = first_index(s, semi) as int;
    lemma_first_index(s, semi);
    assert forall|k: int| 0 <= k < end implies longer[k] != semi by {
        assert(longer[k] == s[k]);
    }
    assert(longer[end] == semi);
    lemma_first_index_is(longer, semi, end);
    assert(longer.take(end) =~= s.take(end));
    match apply_declaration(acc, s.take(end)) {
        Err(e) => {},
        Ok(next) => {
            if end >= s.len() {
                let nothing = longer.skip(end + 1);
                assert(nothing =~= Seq::<u8>::empty());
                assert(nothing.take(0) =~= nothing);
                assert(first_index(nothing, semi) == 0);
                assert(apply_declaration(next, nothing) == Ok::<StyleModel, ConvertError>(next));
                assert(apply_declarations(next, nothing) == Ok::<StyleModel, ConvertError>(next));
                assert(apply_declarations(acc, longer) == apply_declarations(next, nothing));
            } else {
                assert(longer.skip(end + 1) =~= s.skip(end + 1).push(semi));
                law_trailing_semicolon_changes_nothing(next, s.skip(end + 1));
                assert(apply_declarations(acc, longer) == apply_declarations(
                    next,
                    longer.skip(end + 1),
                ));
            }
        },
    }
}

/// A style whose first declaration is not empty and has no colon is
/// malformed, whatever follows it.
pub proof fn law_missing_colon_is_malformed(acc: StyleModel, s: Seq<u8>)
    requires
        first_index(s, ';' as u8) > 0,
        forall|k: int| 0 <= k < first_index(s, ';' as u8) ==> s[k] != ':' as u8,
    ensures
        apply_declarations(acc, s) == Err::<StyleModel, ConvertError>(
            ConvertError::MalformedStyleSyntax,
        ),
{
    let end = first_index(s, ';' as u8) as int;
    lemma_first_index(s, ';' as u8);
    let decl = s.take(end);
    assert forall|k: int| 0 <= k < decl.len() implies decl[k] != ':' as u8 by {
        assert(decl[k] == s[k]);
    }
    lemma_first_index_is(decl, ':' as u8, decl.len() as int);
}

/// One optional field over another: the upper one where it is specified,
/// else the lower one.
pub open spec fn over<T>(lower: Option<T>, upper: Option<T>) -> Option<T> {
    if upper is Some {
        upper
    } else {
        lower
    }
}

/// The style `upper` laid over the style `lower`: each field is that of
/// `upper` where `upper` specifies it, else that of `lower`.
pub open spec fn overlaid(lower: StyleModel, upper: StyleModel) -> StyleModel {
    StyleModel {
        fill: over(lower.fill, upper.fill),
        fill_rule: over(lower.fill_rule, upper.fill_rule),
        stroke_width: over(lower.stroke_width, upper.stroke_width),
        stroke: over(lower.stroke, upper.stroke),
        font_family: over(lower.font_family, upper.font_family),
        font_size: over(lower.font_size, upper.font_size),
        dash_array: over(lower.dash_array, upper.dash_array),
    }
}

/// The outcome of reading with the style `lower` laid under it.
pub open spec fn laid_over(lower: StyleModel, r: Result<StyleModel, ConvertError>) -> Result<
    StyleModel,
    ConvertError,
> {
    match r {
        Ok(upper) => Ok(overlaid(lower, upper)),
        Err(e) => Err(e),
    }
}

/// Declarations do to a style with another laid under it what they do to
/// the style alone.
proof fn lemma_declarations_over(lower: StyleModel, acc: StyleModel, s: Seq<u8>)
    ensures
        apply_declarations(overlaid(lower, acc), s) == laid_over(lower, apply_declarations(acc, s)),
    decreases s.len(),
{
    let end = first_index(s, ';' as u8) as int;
    let decl = s.take(end);
    assert(apply_declaration(overlaid(lower, acc), decl) == laid_over(
        lower,
        apply_declaration(acc, decl),
    ));
    match apply_declaration(acc, decl) {
        Ok(next) => {
            if end < s.len() {
                lemma_declarations_over(lower, next, s.skip(end + 1));
            }
        },
        Err(e) => {},
    }
}

/// Two texts joined by a semicolon are read one after the other.
proof fn lemma_joined(acc: StyleModel, a: Seq<u8>, b: Seq<u8>)
    ensures
        apply_declarations(acc, a + seq![';' as u8] + b) == match apply_declarations(acc, a) {
            Ok(next) => apply_declarations(next, b),
            Err(e) => Err(e),
        },
    decreases a.len(),
{
    let semi = ';' as u8;
    let end = first_index(a, semi) as int;
    lemma_first_index(a, semi);
    let first = a.take(end);
    assert forall|k: int| 0 <= k < first.len() implies first[k] != semi by {
        assert(first[k] == a[k]);
    }
    if end >= a.len() {
        assert(first =~= a);
        law_style_reads_by_declaration(acc, a, b);
    } else {
        let rest = a.skip(end + 1);
        assert(a + seq![semi] + b =~= first + seq![semi] + (rest + seq![semi] + b));
        law_style_reads_by_declaration(acc, first, rest + seq![semi] + b);
        match apply_declaration(acc, first) {
            Ok(next) => {
                lemma_joined(next, rest, b);
            },
            Err(e) => {},
        }
    }
}

/// A style joined to another by a semicolon reads as the second laid over
/// the first, and fails where either fails.
pub proof fn law_joined_styles_overlay(a: Seq<u8>, b: Seq<u8>)
    ensures
        parse_style(a + seq![';' as u8] + b) == match parse_style(a) {
            Ok(lower) => laid_over(lower, parse_style(b)),
            Err(e) => Err(e),
        },
{
    lemma_joined(StyleModel::empty(), a, b);
    match parse_style(a) {
        Ok(lower) => {
            lemma_declarations_over(lower, StyleModel::empty(), b);
            assert(overlaid(lower, StyleModel::empty()) == lower);
        },
        Err(e) => {},
    }
}

/// Reading is idempotent: a style joined with itself by a semicolon reads as
/// the style itself.
pub proof fn law_style_read_twice(s: Seq<u8>)
    ensures
        parse_style(s + seq![';' as u8] + s) == parse_style(s),
{
    law_joined_styles_overlay(s, s);
    match parse_style(s) {
        Ok(style) => {
            assert(overlaid(style, style) == style);
        },
        Err(e) => {},
    }
}

/// Whether `s` holds neither a colon nor a semicolon.
pub open spec fn is_plain(s: Seq<u8>) -> bool {
    forall|k: int| 0 <= k < s.len() ==> s[k] != ':' as u8 && s[k] != ';' as u8
}

/// A declaration in canonical form, before the text `rest`: the key, a
/// colon, the value and a semicolon; nothing where there is no value.
pub open spec fn declared(key: Seq<u8>, value: Option<Seq<u8>>, rest: Seq<u8>) -> Seq<u8> {
    match value {
        Some(v) => key + seq![':' as u8] + v + seq![';' as u8] + rest,
        None => rest,
    }
}

/// An optional number in decimal notation.
pub open spec fn number_text(o: Option<int>) -> Option<Seq<u8>> {
    match o {
        Some(v) => Some(decimal_text(v)),
        None => None,
    }
}

/// A style in canonical form: a declaration for each field that is
/// specified, in the order of the fields, numbers without a unit.
pub open spec fn canonical_text(m: StyleModel) -> Seq<u8> {
    declared(
        "fill".spec_bytes(),
        m.fill,
        declared(
            "fill-rule".spec_bytes(),
            m.fill_rule,
            declared(
                "stroke-width".spec_bytes(),
                number_text(m.stroke_width),
                declared(
                    "stroke".spec_bytes(),
                    m.stroke,
                    declared(
                        "font-family".spec_bytes(),
                        m.font_family,
                        declared(
                            "font-size".spec_bytes(),
                            number_text(m.font_size),
                            declared("stroke-dasharray".spec_bytes(), m.dash_array, Seq::empty()),
                        ),
                    ),
                ),
            ),
        ),
    )
}

/// Whether a style can be written in canonical form: its texts hold neither
/// colon nor semicolon, and its numbers are in range.
pub open spec fn is_canonical(m: StyleModel) -> bool {
    &&& m.fill matches Some(v) ==> is_plain(v)
    &&& m.fill_rule matches Some(v) ==> is_plain(v)
    &&& m.stroke matches Some(v) ==> is_plain(v)
    &&& m.font_family matches Some(v) ==> is_plain(v)
    &&& m.dash_array matches Some(v) ==> is_plain(v)
    &&& m.stroke_width matches Some(v) ==> in_range(v)
    &&& m.font_size matches Some(v) ==> in_range(v)
}

/// What the names of the properties are made of.
proof fn lemma_keys()
    ensures
        "fill".spec_bytes().len() == 4,
        "fill-rule".spec_bytes().len() == 9,
        "stroke-width".spec_bytes().len() == 12,
        "stroke".spec_bytes().len() == 6,
        "font-family".spec_bytes().len() == 11,
        "font-size".spec_bytes().len() == 9,
        "stroke-dasharray".spec_bytes().len() == 16,
        "fill-rule".spec_bytes()[1] == 'i' as u8,
        "font-size".spec_bytes()[1] == 'o' as u8,
        is_plain("fill".spec_bytes()),
        is_plain("fill-rule".spec_bytes()),
        is_plain("stroke-width".spec_bytes()),
        is_plain("stroke".spec_bytes()),
        is_plain("font-family".spec_bytes()),
        is_plain("font-size".spec_bytes()),
        is_plain("stroke-dasharray".spec_bytes()),
{
    reveal_strlit("fill");
    reveal_strlit("fill-rule");
    reveal_strlit("stroke-width");
    reveal_strlit("stroke");
    reveal_strlit("font-family");
    reveal_strlit("font-size");
    reveal_strlit("stroke-dasharray");
    vstd::string::is_ascii_spec_bytes("fill");
    vstd::string::is_ascii_spec_bytes("fill-rule");
    vstd::string::is_ascii_spec_bytes("stroke-width");
    vstd::string::is_ascii_spec_bytes("stroke");
    vstd::string::is_ascii_spec_bytes("font-family");
    vstd::string::is_ascii_spec_bytes("font-size");
    vstd::string::is_ascii_spec_bytes("stroke-dasharray");
}

/// A declaration in canonical form sets its property, and what follows it is
/// read after it.
proof fn lemma_declared(acc: StyleModel, key: Seq<u8>, value: Seq<u8>, rest: Seq<u8>)
    requires
        is_plain(key),
        is_plain(value),
        key.len() > 0,
    ensures
        apply_declarations(acc, declared(key, Some(value), rest)) == match set_property(
            acc,
            key,
            value,
        ) {
            Ok(next) => apply_declarations(next, rest),
            Err(e) => Err(e),
        },
{
    let first = key + seq![':' as u8] + value;
    assert(declared(key, Some(value), rest) =~= first + seq![';' as u8] + rest);
    assert forall|k: int| 0 <= k < first.len() implies first[k] != ';' as u8 by {
        if k < key.len() {
            assert(first[k] == key[k]);
        } else if k > key.len() {
            assert(first[k] == value[k - key.len() - 1]);
        }
    }
    law_style_reads_by_declaration(acc, first, rest);
    assert forall|k: int| 0 <= k < key.len() implies first[k] != ':' as u8 by {
        assert(first[k] == key[k]);
    }
    lemma_first_index_is(first, ':' as u8, key.len() as int);
    assert(first.take(key.len() as int) =~= key);
    let after = first.skip(key.len() as int + 1);
    assert(after =~= value);
    lemma_first_index_is(value, ':' as u8, value.len() as int);
    assert(value.take(value.len() as int) =~= value);
}

/// A number in decimal notation reads back as a length.
proof fn lemma_number_is_a_length(v: int)
    requires
        in_range(v),
    ensures
        is_plain(decimal_text(v)),
        length_units(decimal_text(v)) == Some(v),
{
    lemma_decimal_text_is_plain(v);
    law_written_number_reads_back(v);
    let t = decimal_text(v);
    if t.len() >= 2 {
        assert(t[t.len() - 2] != 'p' as u8);
    }
}

/// A text field in canonical form sets that field, and what follows it is
/// read after it.
proof fn lemma_field(
    acc: StyleModel,
    next: StyleModel,
    key: Seq<u8>,
    value: Option<Seq<u8>>,
    rest: Seq<u8>,
)
    requires
        is_plain(key),
        key.len() > 0,
        value matches Some(v) ==> is_plain(v) && set_property(acc, key, v) == Ok::<
            StyleModel,
            ConvertError,
        >(next),
        value is None ==> next == acc,
    ensures
        apply_declarations(acc, declared(key, value, rest)) == apply_declarations(next, rest),
{
    if value is Some {
        lemma_declared(acc, key, value->0, rest);
    }
}

/// What setting each of the text properties does.
proof fn lemma_set_text(acc: StyleModel, v: Seq<u8>)
    ensures
        set_property(acc, "fill".spec_bytes(), v) == Ok::<StyleModel, ConvertError>(
            StyleModel { fill: Some(v), ..acc },
        ),
        set_property(acc, "fill-rule".spec_bytes(), v) == Ok::<StyleModel, ConvertError>(
            StyleModel { fill_rule: Some(v), ..acc },
        ),
        set_property(acc, "stroke".spec_bytes(), v) == Ok::<StyleModel, ConvertError>(
            StyleModel { stroke: Some(v), ..acc },
        ),
        set_property(acc, "font-family".spec_bytes(), v) == Ok::<StyleModel, ConvertError>(
            StyleModel { font_family: Some(v), ..acc },
        ),
        set_property(acc, "stroke-dasharray".spec_bytes(), v) == Ok::<StyleModel, ConvertError>(
            StyleModel { dash_array: Some(v), ..acc },
        ),
{
    lemma_keys();
}

/// What setting each of the numeric properties does.
proof fn lemma_set_number(acc: StyleModel, n: int)
    requires
        in_range(n),
    ensures
        is_plain(decimal_text(n)),
        set_property(acc, "stroke-width".spec_bytes(), decimal_text(n)) == Ok::<
            StyleModel,
            ConvertError,
        >(StyleModel { stroke_width: Some(n), ..acc }),
        set_property(acc, "font-size".spec_bytes(), decimal_text(n)) == Ok::<
            StyleModel,
            ConvertError,
        >(StyleModel { font_size: Some(n), ..acc }),
{
    lemma_keys();
    lemma_number_is_a_length(n);
}

/// Reading is stable on canonical text: a style that is written in canonical
/// form reads back as itself, so that writing and reading it again changes
/// nothing.
pub proof fn law_canonical_text_reads_back(m: StyleModel)
    requires
        is_canonical(m),
    ensures
        parse_style(canonical_text(m)) == Ok::<StyleModel, ConvertError>(m),
{
    let t7 = Seq::<u8>::empty();
    let t6 = declared("stroke-dasharray".spec_bytes(), m.dash_array, t7);
    let t5 = declared("font-size".spec_bytes(), number_text(m.font_size), t6);
    let t4 = declared("font-family".spec_bytes(), m.font_family, t5);
    let t3 = declared("stroke".spec_bytes(), m.stroke, t4);
    let t2 = declared("stroke-width".spec_bytes(), number_text(m.stroke_width), t3);
    let t1 = declared("fill-rule".spec_bytes(), m.fill_rule, t2);
    let t0 = declared("fill".spec_bytes(), m.fill, t1);
    let a0 = StyleModel::empty();
    let a1 = StyleModel { fill: m.fill, ..a0 };
    let a2 = StyleModel { fill_rule: m.fill_rule, ..a1 };
    let a3 = StyleModel { stroke_width: m.stroke_width, ..a2 };
    let a4 = StyleModel { stroke: m.stroke, ..a3 };
    let a5 = StyleModel { font_family: m.font_family, ..a4 };
    let a6 = StyleModel { font_size: m.font_size, ..a5 };
    let a7 = StyleModel { dash_array: m.dash_array, ..a6 };
    lemma_keys();
    assert(apply_declarations(a0, t0) == apply_declarations(a1, t1)) by {
        if m.fill is Some {
            lemma_set_text(a0, m.fill->0);
        }
        lemma_field(a0, a1, "fill".spec_bytes(), m.fill, t1);
    }
    assert(apply_declarations(a1, t1) == apply_declarations(a2, t2)) by {
        if m.fill_rule is Some {
            lemma_set_text(a1, m.fill_rule->0);
        }
        lemma_field(a1, a2, "fill-rule".spec_bytes(), m.fill_rule, t2);
    }
    assert(apply_declarations(a2, t2) == apply_declarations(a3, t3)) by {
        if m.stroke_width is Some {
            lemma_set_number(a2, m.stroke_width->0);
        }
        lemma_field(a2, a3, "stroke-width".spec_bytes(), number_text(m.stroke_width), t3);
    }
    assert(apply_declarations(a3, t3) == apply_declarations(a4, t4)) by {
        if m.stroke is Some {
            lemma_set_text(a3, m.stroke->0);
        }
        lemma_field(a3, a4, "stroke".spec_bytes(), m.stroke, t4);
    }
    assert(apply_declarations(a4, t4) == apply_declarations(a5, t5)) by {
        if m.font_family is Some {
            lemma_set_text(a4, m.font_family->0);
        }
        lemma_field(a4, a5, "font-family".spec_bytes(), m.font_family, t5);
    }
    assert(apply_declarations(a5, t5) == apply_declarations(a6, t6)) by {
        if m.font_size is Some {
            lemma_set_number(a5, m.font_size->0);
        }
        lemma_field(a5, a6, "font-size".spec_bytes(), number_text(m.font_size), t6);
    }
    assert(apply_declarations(a6, t6) == apply_declarations(a7, t7)) by {
        if m.dash_array is Some {
            lemma_set_text(a6, m.dash_array->0);
        }
        lemma_field(a6, a7, "stroke-dasharray".spec_bytes(), m.dash_array, t7);
    }
    assert(apply_declarations(a7, t7) == Ok::<StyleModel, ConvertError>(a7)) by {
        assert(t7.take(0) =~= t7);
    }
    assert(a7 == m);
    assert(canonical_text(m) == t0);
}

/// The text `label` and the bytes `value` after it.
fn labelled(label: &str, value: &[u8]) -> (buf: Vec<u8>)
    ensures
        buf@ == label.spec_bytes() + value@,
{
    let mut buf: Vec<u8> = Vec::new();
    push_text(&mut buf, label);
    assert(buf@ =~= label.spec_bytes());
    push_bytes(&mut buf, value);
    buf
}

fn duplicate_bytes(o: &Option<Vec<u8>>) -> (r: Option<Vec<u8>>)
    ensures
        bytes_model(r) == bytes_model(*o),
{
    match o {
        Some(v) => Some(copy_range(v.as_slice(), 0, v.len())),
        None => None,
    }
}

} // verus!
