//! The pieces of markup that the conversion reads, and the `quick_xml`
//! reader that cuts a document into them.

use vstd::prelude::*;
use vstd::string::StringSliceAdditionalSpecFns;
use std::str::from_utf8;
use quick_xml::events::attributes::Attributes;
use quick_xml::events::Event;
use quick_xml::reader::Reader;
use crate::error::ConvertError;
use crate::markup::EventKind::{Empty, End, Eof, Other, Start, Text};
use crate::svgdata::{Reading, ReadingModel};
use crate::text::{copy_range, is_text};

verus! {

/// An attribute of an element: its name, its value, unescaped, and what
/// `svgtypes` made of the value, where it was asked.
#[derive(Debug)]
pub struct Attribute {
    pub key: Vec<u8>,
    pub value: Vec<u8>,
    pub reading: Reading,
}

/// What an [`Attribute`] holds.
pub struct AttributeModel {
    pub key: Seq<u8>,
    pub value: Seq<u8>,
    pub reading: ReadingModel,
}

impl View for Attribute {
    type V = AttributeModel;

    open spec fn view(&self) -> AttributeModel {
        AttributeModel { key: self.key@, value: self.value@, reading: self.reading@ }
    }
}

impl Attribute {
    /// An attribute whose value `svgtypes` has not read.
    pub fn new(key: Vec<u8>, value: Vec<u8>) -> (r: Attribute)
        ensures
            r@ == (AttributeModel { key: key@, value: value@, reading: ReadingModel::Unread }),
    {
        Attribute { key, value, reading: Reading::Unread }
    }
}

/// What a list of attributes holds.
pub open spec fn attribute_models(v: Seq<Attribute>) -> Seq<AttributeModel> {
    Seq::new(v.len(), |i: int| v[i]@)
}

/// A piece of markup.
#[derive(Debug)]
pub enum Token {
    /// The start tag of an element.
    Open { name: Vec<u8>, attributes: Vec<Attribute> },
    /// The end tag of an element.
    Close { name: Vec<u8> },
    /// An element without content, written as one tag.
    Empty { name: Vec<u8>, attributes: Vec<Attribute> },
    /// Character data.
    Text { content: Vec<u8> },
    /// The end of the document.
    Eof,
    /// Anything else: a comment, a declaration, a reference.
    Other,
}

/// What a [`Token`] holds.
pub enum TokenModel {
    Open { name: Seq<u8>, attributes: Seq<AttributeModel> },
    Close { name: Seq<u8> },
    Empty { name: Seq<u8>, attributes: Seq<AttributeModel> },
    Text { content: Seq<u8> },
    Eof,
    Other,
}

impl View for Token {
    type V = TokenModel;

    open spec fn view(&self) -> TokenModel {
        match self {
            Token::Open { name, attributes } => TokenModel::Open {
                name: name@,
                attributes: attribute_models(attributes@),
            },
            Token::Close { name } => TokenModel::Close { name: name@ },
            Token::Empty { name, attributes } => TokenModel::Empty {
                name: name@,
                attributes: attribute_models(attributes@),
            },
            Token::Text { content } => TokenModel::Text { content: content@ },
            Token::Eof => TokenModel::Eof,
            Token::Other => TokenModel::Other,
        }
    }
}

/// The kinds of event that the reader reports, as far as they matter here.
#[derive(Clone, Copy, Debug, PartialEq, Eq, Structural)]
pub enum EventKind {
    Start,
    End,
    Empty,
    Text,
    Eof,
    Other,
}

/// `quick_xml::reader::Reader`, carried through unseen.
#[verifier::external_type_specification]
#[verifier::external_body]
#[verifier::reject_recursive_types(R)]
pub struct ExReader<R>(Reader<R>);

/// `quick_xml::Error`, carried through unseen.
#[verifier::external_type_specification]
#[verifier::external_body]
pub struct ExMarkupError(quick_xml::Error);

/// What the reader reports of one piece of a document: its kind; the name of
/// the element of a tag, or the bytes of text as they stand in the document,
/// or nothing; and what stands in a start tag or an empty element after the
/// name, which is where the attributes are.
#[derive(Debug)]
pub struct Report {
    pub kind: EventKind,
    pub bytes: Vec<u8>,
    pub rest: Vec<u8>,
}

/// What a [`Report`] holds.
pub struct ReportModel {
    pub kind: EventKind,
    pub bytes: Seq<u8>,
    pub rest: Seq<u8>,
}

impl View for Report {
    type V = ReportModel;

    open spec fn view(&self) -> ReportModel {
        ReportModel { kind: self.kind, bytes: self.bytes@, rest: self.rest@ }
    }
}

/// What there is to read: the reports to come, in order, and whether they
/// reach the end of the document. They end with the end of the document, or
/// before the first piece that cannot be read.
pub struct Stream {
    pub reports: Seq<ReportModel>,
    pub whole: bool,
}

impl Stream {
    /// Whether the end of the document is the last report of a whole stream
    /// and stands nowhere else.
    pub open spec fn ends_once(self) -> bool {
        &&& self.whole ==> self.reports.len() > 0 && self.reports.last().kind == EventKind::Eof
        &&& forall|k: int|
            0 <= k < self.reports.len() - 1 ==> (#[trigger] self.reports[k]).kind != EventKind::Eof
        &&& !self.whole && self.reports.len() > 0 ==> self.reports.last().kind != EventKind::Eof
    }

    /// What is left after the first report.
    pub open spec fn rest(self) -> Stream {
        Stream { reports: self.reports.skip(1), whole: self.whole }
    }
}

/// What a `quick_xml` reader that trims text reports of the document `input`.
pub uninterp spec fn reports_of(input: Seq<u8>) -> Stream;

/// What a reader has yet to report.
pub uninterp spec fn pending(reader: Reader<&[u8]>) -> Stream;

/// The attributes that stand in `rest`, the part of a tag after the name of
/// its element, names and values as they stand there and nothing read by
/// `svgtypes`; `None` where they are malformed.
pub uninterp spec fn attributes_in(rest: Seq<u8>) -> Option<Seq<AttributeModel>>;

/// The value of an attribute with its escapes resolved; `None` where they
/// cannot be.
pub uninterp spec fn unescaped(value: Seq<u8>) -> Option<Seq<u8>>;

/// Makes a reader over `input` with `quick_xml::reader::Reader::from_reader`
/// and turns on `trim_text` in its configuration, so that it drops the white
/// space around text. The reader has the whole document to report; what that
/// is, is a matter of the bytes alone.
#[verifier::external_body]
pub(crate) fn open_reader<'a>(input: &'a [u8]) -> (reader: Reader<&'a [u8]>)
    ensures
        pending(reader) == reports_of(input@),
        pending(reader).ends_once(),
{
    let mut reader = Reader::from_reader(input);
    reader.config_mut().trim_text(true);
    reader
}

/// Calls `Reader::read_event` and hands out what the event holds: its kind,
/// the name that `BytesStart::name` or `BytesEnd::name` gives or the bytes of
/// the text, and what `BytesStart::attributes_raw` gives. It is the first of
/// the reports to come; an error stands where they end short of the end of
/// the document. Not to be called once the end was reported.
#[verifier::external_body]
pub(crate) fn next_report(reader: &mut Reader<&[u8]>) -> (r: Result<Report, quick_xml::Error>)
    requires
        pending(*old(reader)).reports.len() > 0 || !pending(*old(reader)).whole,
    ensures
        match r {
            Ok(report) => pending(*old(reader)).reports.len() > 0 && report@ == pending(
                *old(reader),
            ).reports[0] && pending(*final(reader)) == pending(*old(reader)).rest(),
            Err(_) => pending(*old(reader)).reports.len() == 0,
        },
{
    let event = reader.read_event()?;
    let none: &[u8] = &[];
    let (kind, bytes, rest) = match &event {
        Event::Start(e) => (Start, e.name().0, e.attributes_raw()),
        Event::Empty(e) => (Empty, e.name().0, e.attributes_raw()),
        Event::End(e) => (End, e.name().0, none),
        Event::Text(t) => (Text, &t[..], none),
        Event::Eof => (Eof, none, none),
        _ => (Other, none, none),
    };
    Ok(Report { kind, bytes: bytes.to_vec(), rest: rest.to_vec() })
}

/// The attributes that stand in the part of a tag after the name of its
/// element, as the iterator that `Attributes::new` makes yields them, names
/// and values as they stand there; `None` where the bytes are not UTF-8 or
/// the iterator reports an error.
#[verifier::external_body]
pub(crate) fn split_attributes(rest: &[u8]) -> (r: Option<Vec<Attribute>>)
    ensures
        match r {
            Some(v) => attributes_in(rest@) == Some(attribute_models(v@)),
            None => attributes_in(rest@) is None,
        },
{
    Attributes::new(from_utf8(rest).ok()?, 0).map(|a| {
        let a = a.ok()?;
        Some(Attribute { key: a.key.0.to_vec(), value: a.value.to_vec(), reading: Reading::Unread })
    }).collect()
}

/// The value of an attribute with its escapes resolved by
/// `Attribute::unescape_value`, which reads the value as UTF-8.
#[verifier::external_body]
pub(crate) fn unescape_value(value: &[u8]) -> (r: Result<Vec<u8>, quick_xml::Error>)
    ensures
        match r {
            Ok(v) => unescaped(value@) == Some(v@),
            Err(_) => unescaped(value@) is None,
        },
{
    let raw = quick_xml::events::attributes::Attribute::from((&[][..], value));
    Ok(raw.unescape_value()?.as_bytes().to_vec())
}

/// Whether a start tag of this name opens a scope.
pub open spec fn is_scope_name(name: Seq<u8>) -> bool {
    name == "g".spec_bytes() || name == "text".spec_bytes() || name == "tspan".spec_bytes()
}

/// Whether an empty element of this name is a shape.
pub open spec fn is_shape_name(name: Seq<u8>) -> bool {
    name == "rect".spec_bytes() || name == "path".spec_bytes() || name == "ellipse".spec_bytes()
        || name == "circle".spec_bytes()
}

/// Whether a start tag of this name opens a scope.
pub fn opens_scope(name: &[u8]) -> (r: bool)
    ensures
        r == is_scope_name(name@),
{
    is_text(name, "g") || is_text(name, "text") || is_text(name, "tspan")
}

/// Whether an empty element of this name is a shape.
pub fn draws_shape(name: &[u8]) -> (r: bool)
    ensures
        r == is_shape_name(name@),
{
    is_text(name, "rect") || is_text(name, "path") || is_text(name, "ellipse") || is_text(
        name,
        "circle",
    )
}

/// Whether the value of the attribute `key` is unescaped: in a group that of
/// `transform` alone, elsewhere every value.
pub open spec fn wants_unescaping(group: bool, key: Seq<u8>) -> bool {
    !group || key == "transform".spec_bytes()
}

/// An attribute after unescaping: the same name, the value unescaped where
/// it is to be, and no reading yet; `None` where the value cannot be
/// unescaped.
pub open spec fn unescape_one(group: bool, raw: AttributeModel) -> Option<AttributeModel> {
    if wants_unescaping(group, raw.key) {
        match unescaped(raw.value) {
            Some(value) => Some(
                AttributeModel { key: raw.key, value, reading: ReadingModel::Unread },
            ),
            None => None,
        }
    } else {
        Some(AttributeModel { key: raw.key, value: raw.value, reading: ReadingModel::Unread })
    }
}

/// The attributes `raw` after unescaping, one for one and in order; `None`
/// where one of them cannot be unescaped.
pub open spec fn unescape_all(group: bool, raw: Seq<AttributeModel>) -> Option<
    Seq<AttributeModel>,
>
    decreases raw.len(),
{
    if raw.len() == 0 {
        Some(Seq::empty())
    } else {
        match (unescape_all(group, raw.drop_last()), unescape_one(group, raw.last())) {
            (Some(before), Some(last)) => Some(before.push(last)),
            _ => None,
        }
    }
}

/// The attributes of an element whose attributes count: those that stand in
/// the document, unescaped; `None` where they are malformed or cannot be
/// unescaped.
pub open spec fn counted_attributes(group: bool, raw: Option<Seq<AttributeModel>>) -> Option<
    Seq<AttributeModel>,
> {
    match raw {
        Some(a) => unescape_all(group, a),
        None => None,
    }
}

/// The token of a report; `None` where the markup cannot be read. An end
/// tag, text, the end of the document and anything else come out as they
/// are. A start tag and an empty element keep their name; their attributes
/// count only where the element is a scope or a shape, and there they are
/// unescaped: all of them, or, of a group, those named `transform` alone.
pub open spec fn token_model_of(report: ReportModel) -> Option<TokenModel> {
    let name = report.bytes;
    match report.kind {
        EventKind::Start => if is_scope_name(name) {
            match counted_attributes(name == "g".spec_bytes(), attributes_in(report.rest)) {
                Some(attributes) => Some(TokenModel::Open { name, attributes }),
                None => None,
            }
        } else {
            Some(TokenModel::Open { name, attributes: Seq::empty() })
        },
        EventKind::End => Some(TokenModel::Close { name }),
        EventKind::Empty => if is_shape_name(name) {
            match counted_attributes(false, attributes_in(report.rest)) {
                Some(attributes) => Some(TokenModel::Empty { name, attributes }),
                None => None,
            }
        } else {
            Some(TokenModel::Empty { name, attributes: Seq::empty() })
        },
        EventKind::Text => Some(TokenModel::Text { content: name }),
        EventKind::Eof => Some(TokenModel::Eof),
        EventKind::Other => Some(TokenModel::Other),
    }
}

/// Once the attributes up to some point cannot be unescaped, all of them
/// cannot.
proof fn lemma_unescape_fails(group: bool, raw: Seq<AttributeModel>, n: int)
    requires
        0 <= n <= raw.len(),
        unescape_all(group, raw.take(n)) is None,
    ensures
        unescape_all(group, raw) is None,
    decreases raw.len() - n,
{
    if n < raw.len() {
        assert(raw.take(n + 1).drop_last() =~= raw.take(n));
        lemma_unescape_fails(group, raw, n + 1);
    } else {
        assert(raw.take(n) =~= raw);
    }
}

/// The attributes of an element with their values unescaped: all of them,
/// or, of a group, those named `transform` alone. `raw` holds the attributes
/// as they stand in the document. A value that cannot be unescaped is markup
/// that cannot be read.
fn element_attributes(raw: &Vec<Attribute>, group: bool) -> (r: Result<Vec<Attribute>, ConvertError>)
    ensures
        match unescape_all(group, attribute_models(raw@)) {
            Some(read) => r matches Ok(v) && attribute_models(v@) == read,
            None => r matches Err(e) && e == ConvertError::MalformedMarkup,
        },
{
    let ghost all = attribute_models(raw@);
    let mut attributes: Vec<Attribute> = Vec::new();
    let mut i: usize = 0;
    assert(all.take(0) =~= Seq::<AttributeModel>::empty());
    assert(attribute_models(attributes@) =~= Seq::<AttributeModel>::empty());
    while i < raw.len()
        invariant
            i <= raw.len(),
            all == attribute_models(raw@),
            unescape_all(group, all.take(i as int)) == Some(attribute_models(attributes@)),
        decreases raw.len() - i,
    {
        let a = &raw[i];
        let ghost before = attribute_models(attributes@);
        assert(all.take(i + 1).drop_last() =~= all.take(i as int));
        assert(all.take(i + 1).last() == a@);
        let key = copy_range(a.key.as_slice(), 0, a.key.len());
        assert(key@ =~= a.key@);
        let value = if !group || is_text(key.as_slice(), "transform") {
            match unescape_value(a.value.as_slice()) {
                Ok(value) => value,
                Err(_) => {
                    proof {
                        lemma_unescape_fails(group, all, i + 1);
                    }
                    return Err(ConvertError::MalformedMarkup);
                },
            }
        } else {
            let kept = copy_range(a.value.as_slice(), 0, a.value.len());
            assert(kept@ =~= a.value@);
            kept
        };
        let read = Attribute::new(key, value);
        let ghost model = read@;
        attributes.push(read);
        assert(attribute_models(attributes@) =~= before.push(model));
        i += 1;
    }
    assert(all.take(raw.len() as int) =~= all);
    Ok(attributes)
}

/// The attributes of an element whose attributes count, unescaped; malformed
/// attributes are markup that cannot be read. `rest` is what stands in the
/// tag after the name.
fn unescaped_attributes(rest: &[u8], group: bool) -> (r: Result<Vec<Attribute>, ConvertError>)
    ensures
        match counted_attributes(group, attributes_in(rest@)) {
            Some(read) => r matches Ok(v) && attribute_models(v@) == read,
            None => r matches Err(e) && e == ConvertError::MalformedMarkup,
        },
{
    match split_attributes(rest) {
        Some(raw) => element_attributes(&raw, group),
        None => Err(ConvertError::MalformedMarkup),
    }
}

/// No attributes.
fn no_attributes() -> (r: Vec<Attribute>)
    ensures
        attribute_models(r@) == Seq::<AttributeModel>::empty(),
{
    let r: Vec<Attribute> = Vec::new();
    assert(attribute_models(r@) =~= Seq::<AttributeModel>::empty());
    r
}

/// Makes a token of what the reader reported of a piece of the document.
pub fn token_of(report: Report) -> (r: Result<Token, ConvertError>)
    ensures
        match token_model_of(report@) {
            Some(token) => r matches Ok(t) && t@ == token,
            None => r matches Err(e) && e == ConvertError::MalformedMarkup,
        },
{
    let Report { kind, bytes, rest } = report;
    match kind {
        EventKind::Start => {
            let read = if opens_scope(bytes.as_slice()) {
                unescaped_attributes(rest.as_slice(), is_text(bytes.as_slice(), "g"))?
            } else {
                no_attributes()
            };
            Ok(Token::Open { name: bytes, attributes: read })
        },
        EventKind::End => Ok(Token::Close { name: bytes }),
        EventKind::Empty => {
            let read = if draws_shape(bytes.as_slice()) {
                unescaped_attributes(rest.as_slice(), false)?
            } else {
                no_attributes()
            };
            Ok(Token::Empty { name: bytes, attributes: read })
        },
        EventKind::Text => Ok(Token::Text { content: bytes }),
        EventKind::Eof => Ok(Token::Eof),
        EventKind::Other => Ok(Token::Other),
    }
}

/// What an attribute needs from `svgtypes`.
pub enum Need {
    /// To be read as a transform list.
    Matrix,
    /// To be read as path data.
    Path,
    /// Nothing.
    Nothing,
}

/// What the attribute `key` of an element needs: the `transform` of a `g` is
/// a transform list, the `d` of a `path` is path data, and nothing else is
/// for `svgtypes` to read. `opening` tells a start tag from an empty element.
pub open spec fn need_of(opening: bool, name: Seq<u8>, key: Seq<u8>) -> Need {
    if opening && name == "g".spec_bytes() && key == "transform".spec_bytes() {
        Need::Matrix
    } else if !opening && name == "path".spec_bytes() && key == "d".spec_bytes() {
        Need::Path
    } else {
        Need::Nothing
    }
}

/// Whether `after` is the attribute `before` with the reading it needs.
pub open spec fn is_read(opening: bool, name: Seq<u8>, before: AttributeModel, after: AttributeModel)
    -> bool {
    &&& after.key == before.key
    &&& after.value == before.value
    &&& match need_of(opening, name, before.key) {
        Need::Matrix => after.reading is Matrix,
        Need::Path => after.reading is Path,
        Need::Nothing => after.reading is Unread,
    }
}

/// Whether `after` is the attributes `before`, each with the reading it
/// needs.
pub open spec fn are_read(
    opening: bool,
    name: Seq<u8>,
    before: Seq<AttributeModel>,
    after: Seq<AttributeModel>,
) -> bool {
    after.len() == before.len() && forall|i: int|
        0 <= i < before.len() ==> is_read(opening, name, before[i], #[trigger] after[i])
}

/// Whether `after` is the token `before` with `svgtypes` consulted: the same
/// markup, and with each attribute the reading it needs.
pub open spec fn is_consulted(before: TokenModel, after: TokenModel) -> bool {
    match before {
        TokenModel::Open { name, attributes } => after matches TokenModel::Open {
            name: n,
            attributes: a,
        } && n == name && are_read(true, name, attributes, a),
        TokenModel::Empty { name, attributes } => after matches TokenModel::Empty {
            name: n,
            attributes: a,
        } && n == name && are_read(false, name, attributes, a),
        _ => after == before,
    }
}

/// Has `svgtypes` read the attributes of an element that need it.
fn consult_attributes(opening: bool, name: &[u8], attributes: &Vec<Attribute>) -> (r: Vec<Attribute>)
    ensures
        are_read(opening, name@, attribute_models(attributes@), attribute_models(r@)),
{
    let transforms = opening && is_text(name, "g");
    let paths = !opening && is_text(name, "path");
    let mut r: Vec<Attribute> = Vec::new();
    let mut i: usize = 0;
    while i < attributes.len()
        invariant
            i <= attributes.len(),
            r.len() == i,
            transforms == (opening && name@ == "g".spec_bytes()),
            paths == (!opening && name@ == "path".spec_bytes()),
            forall|k: int|
                0 <= k < i ==> is_read(opening, name@, attributes[k]@, (#[trigger] r[k])@),
        decreases attributes.len() - i,
    {
        let a = &attributes[i];
        let key = copy_range(a.key.as_slice(), 0, a.key.len());
        let value = copy_range(a.value.as_slice(), 0, a.value.len());
        assert(key@ =~= a.key@);
        assert(value@ =~= a.value@);
        let reading = if transforms && is_text(key.as_slice(), "transform") {
            Reading::of_transform(value.as_slice())
        } else if paths && is_text(key.as_slice(), "d") {
            Reading::of_path(value.as_slice())
        } else {
            Reading::Unread
        };
        r.push(Attribute { key, value, reading });
        i += 1;
    }
    assert forall|k: int| 0 <= k < attributes.len() implies is_read(
        opening,
        name@,
        attribute_models(attributes@)[k],
        #[trigger] attribute_models(r@)[k],
    ) by {
        assert(is_read(opening, name@, attributes[k]@, r[k]@));
    }
    r
}

impl Token {
    /// The same token with `svgtypes` consulted: the `transform` attributes
    /// of a `g` are read as transform lists, the `d` attributes of a `path`
    /// as path data. What `svgtypes` makes of them is for it to say.
    pub fn consult(self) -> (r: Token)
        ensures
            is_consulted(self@, r@),
    {
        match self {
            Token::Open { name, attributes } => {
                let read = consult_attributes(true, name.as_slice(), &attributes);
                Token::Open { name, attributes: read }
            },
            Token::Empty { name, attributes } => {
                let read = consult_attributes(false, name.as_slice(), &attributes);
                Token::Empty { name, attributes: read }
            },
            other => other,
        }
    }
}

} // verus!
