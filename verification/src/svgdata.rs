//! Transform lists and path data, read by the `svgtypes` crate.

use vstd::prelude::*;
use std::str::{from_utf8, FromStr};
use svgtypes::SimplePathSegment::{ClosePath, CurveTo, LineTo, MoveTo, Quadratic};
use svgtypes::SimplifyingPathParser;
use crate::affine::{Affine, Transform};
use crate::decimal::{is_digit, parse_decimal, parse_units};
use crate::error::ConvertError;
use crate::fixed::Fixed;

verus! {

/// The contents of a list of byte strings.
pub open spec fn texts(v: Seq<Vec<u8>>) -> Seq<Seq<u8>> {
    Seq::new(v.len(), |i: int| v[i]@)
}

/// Calls `svgtypes::Transform::from_str` on `text` read as UTF-8 and hands out
/// its coefficients `a` to `f` as they print; `None` where the text is not
/// UTF-8 or `svgtypes` refuses it. Nothing is claimed of the coefficients:
/// rotations and skews go through the trigonometry of the platform.
#[verifier::external_body]
pub(crate) fn read_matrix(text: &[u8]) -> (r: Option<Vec<Vec<u8>>>) {
    let t = svgtypes::Transform::from_str(from_utf8(text).ok()?).ok()?;
    Some(vec![t.a, t.b, t.c, t.d, t.e, t.f].iter().map(|v| v.to_string().into_bytes()).collect())
}

/// The matrix with the given coefficients: there must be six of them, each a
/// decimal number.
pub open spec fn matrix_of(parts: Seq<Seq<u8>>) -> Result<Affine, ConvertError> {
    if parts.len() == 6 && parse_units(parts[0]) is Some && parse_units(parts[1]) is Some
        && parse_units(parts[2]) is Some && parse_units(parts[3]) is Some && parse_units(parts[4])
        is Some && parse_units(parts[5]) is Some {
        Ok(
            Affine {
                a: parse_units(parts[0])->0,
                b: parse_units(parts[1])->0,
                c: parse_units(parts[2])->0,
                d: parse_units(parts[3])->0,
                e: parse_units(parts[4])->0,
                f: parse_units(parts[5])->0,
            },
        )
    } else {
        Err(ConvertError::MalformedTransform)
    }
}

fn coefficient(parts: &Vec<Vec<u8>>, i: usize) -> (r: Result<Fixed, ConvertError>)
    requires
        i < parts.len(),
    ensures
        match parse_units(parts[i as int]@) {
            Some(v) => r matches Ok(f) && f@ == v,
            None => r == Err::<Fixed, ConvertError>(ConvertError::MalformedTransform),
        },
{
    match parse_decimal(parts[i].as_slice()) {
        Some(f) => Ok(f),
        None => Err(ConvertError::MalformedTransform),
    }
}

/// Builds a map from its six coefficients in decimal notation.
pub fn transform_from_parts(parts: &Vec<Vec<u8>>) -> (r: Result<Transform, ConvertError>)
    ensures
        match matrix_of(texts(parts@)) {
            Ok(m) => r matches Ok(t) && t@ == m,
            Err(e) => r matches Err(x) && x == e,
        },
{
    if parts.len() != 6 {
        return Err(ConvertError::MalformedTransform);
    }
    let a = coefficient(parts, 0)?;
    let b = coefficient(parts, 1)?;
    let c = coefficient(parts, 2)?;
    let d = coefficient(parts, 3)?;
    let e = coefficient(parts, 4)?;
    let f = coefficient(parts, 5)?;
    Ok(Transform::new(a, b, c, d, e, f))
}

/// The kinds of segment that simplified path data is made of.
#[derive(Clone, Copy, Debug, PartialEq, Eq, Structural)]
pub enum SegmentKind {
    /// Moves the pen.
    Move,
    /// A straight line.
    Line,
    /// A cubic curve.
    Curve,
    /// A quadratic curve.
    Quadratic,
    /// Closes the subpath.
    Close,
}

/// A segment of a path with its numbers still in decimal notation: control
/// points first, the end point last.
#[derive(Debug)]
pub struct RawSegment {
    pub kind: SegmentKind,
    pub numbers: Vec<Vec<u8>>,
}

/// What a [`RawSegment`] holds.
pub struct PathPiece {
    pub kind: SegmentKind,
    pub numbers: Seq<Seq<u8>>,
}

impl View for RawSegment {
    type V = PathPiece;

    open spec fn view(&self) -> PathPiece {
        PathPiece { kind: self.kind, numbers: texts(self.numbers@) }
    }
}

/// What a list of raw segments holds.
pub open spec fn pieces(v: Seq<RawSegment>) -> Seq<PathPiece> {
    Seq::new(v.len(), |i: int| v[i]@)
}

/// Runs `svgtypes::SimplifyingPathParser` over `d` read as UTF-8 and hands out
/// each segment with its numbers as they print; `None` where the data is not
/// UTF-8 or `svgtypes` reports an error in it. Nothing is claimed of the
/// segments: arcs go through the trigonometry of the platform. The data must
/// be tame, which keeps the parser from calling itself long and `kurbo` from
/// arcs whose numbers it cannot handle.
#[verifier::external_body]
pub(crate) fn read_path(d: &[u8]) -> (r: Option<Vec<RawSegment>>)
    requires
        is_tame_path(d@),
{
    SimplifyingPathParser::from(from_utf8(d).ok()?).map(|s| {
        let (kind, v) = match s.ok()? {
            MoveTo { x, y } => (SegmentKind::Move, vec![x, y]),
            LineTo { x, y } => (SegmentKind::Line, vec![x, y]),
            CurveTo { x1, y1, x2, y2, x, y } => (SegmentKind::Curve, vec![x1, y1, x2, y2, x, y]),
            Quadratic { x1, y1, x, y } => (SegmentKind::Quadratic, vec![x1, y1, x, y]),
            ClosePath => (SegmentKind::Close, vec![]),
        };
        Some(RawSegment { kind, numbers: v.iter().map(|n| n.to_string().into_bytes()).collect() })
    }).collect()
}

/// A segment of a path, in the coordinates of its element.
#[derive(Clone, Copy, Debug, PartialEq, Eq, Structural)]
pub enum Segment {
    /// Moves the pen.
    MoveTo { x: Fixed, y: Fixed },
    /// A line from the pen to a point.
    LineTo { x: Fixed, y: Fixed },
    /// A cubic curve from the pen to a point, with two control points.
    CurveTo { x1: Fixed, y1: Fixed, x2: Fixed, y2: Fixed, x: Fixed, y: Fixed },
    /// Closes the subpath; nothing is drawn for it.
    ClosePath,
}

/// What a [`Segment`] holds, in units.
pub enum SegmentModel {
    MoveTo { to: (int, int) },
    LineTo { to: (int, int) },
    CurveTo { ctrl1: (int, int), ctrl2: (int, int), to: (int, int) },
    ClosePath,
}

impl View for Segment {
    type V = SegmentModel;

    open spec fn view(&self) -> SegmentModel {
        match *self {
            Segment::MoveTo { x, y } => SegmentModel::MoveTo { to: (x@, y@) },
            Segment::LineTo { x, y } => SegmentModel::LineTo { to: (x@, y@) },
            Segment::CurveTo { x1, y1, x2, y2, x, y } => SegmentModel::CurveTo {
                ctrl1: (x1@, y1@),
                ctrl2: (x2@, y2@),
                to: (x@, y@),
            },
            Segment::ClosePath => SegmentModel::ClosePath,
        }
    }
}

/// What a list of segments holds.
pub open spec fn segment_models(v: Seq<Segment>) -> Seq<SegmentModel> {
    Seq::new(v.len(), |i: int| v[i]@)
}

/// Whether `numbers` holds `n` decimal numbers.
pub open spec fn all_numbers(numbers: Seq<Seq<u8>>, n: int) -> bool {
    numbers.len() == n && forall|i: int| 0 <= i < n ==> parse_units(#[trigger] numbers[i]) is Some
}

/// The segment that a piece denotes: a move and a line have two numbers, a
/// cubic curve six, a close none. A quadratic curve is not supported.
pub open spec fn segment_of(piece: PathPiece) -> Option<SegmentModel> {
    let n = piece.numbers;
    match piece.kind {
        SegmentKind::Move => if all_numbers(n, 2) {
            Some(SegmentModel::MoveTo { to: (parse_units(n[0])->0, parse_units(n[1])->0) })
        } else {
            None
        },
        SegmentKind::Line => if all_numbers(n, 2) {
            Some(SegmentModel::LineTo { to: (parse_units(n[0])->0, parse_units(n[1])->0) })
        } else {
            None
        },
        SegmentKind::Curve => if all_numbers(n, 6) {
            Some(
                SegmentModel::CurveTo {
                    ctrl1: (parse_units(n[0])->0, parse_units(n[1])->0),
                    ctrl2: (parse_units(n[2])->0, parse_units(n[3])->0),
                    to: (parse_units(n[4])->0, parse_units(n[5])->0),
                },
            )
        } else {
            None
        },
        SegmentKind::Quadratic => None,
        SegmentKind::Close => if n.len() == 0 {
            Some(SegmentModel::ClosePath)
        } else {
            None
        },
    }
}

/// The segments that a list of pieces denotes, if each piece denotes one.
pub open spec fn segments_of(p: Seq<PathPiece>) -> Result<Seq<SegmentModel>, ConvertError> {
    if forall|i: int| 0 <= i < p.len() ==> segment_of(#[trigger] p[i]) is Some {
        Ok(Seq::new(p.len(), |i: int| segment_of(p[i])->0))
    } else {
        Err(ConvertError::MalformedPath)
    }
}

/// Reads `n` numbers.
fn read_numbers(numbers: &Vec<Vec<u8>>, n: usize) -> (r: Option<Vec<Fixed>>)
    ensures
        match r {
            Some(v) => all_numbers(texts(numbers@), n as int) && v.len() == n && forall|i: int|
                0 <= i < n ==> parse_units(texts(numbers@)[i]) == Some((#[trigger] v[i])@),
            None => !all_numbers(texts(numbers@), n as int),
        },
{
    if numbers.len() != n {
        return None;
    }
    let mut v: Vec<Fixed> = Vec::new();
    let mut i: usize = 0;
    while i < n
        invariant
            i <= n,
            numbers.len() == n,
            v.len() == i,
            forall|k: int| 0 <= k < i ==> parse_units(texts(numbers@)[k]) == Some((#[trigger] v[k])@),
        decreases n - i,
    {
        match parse_decimal(numbers[i].as_slice()) {
            Some(f) => {
                v.push(f);
            },
            None => {
                assert(parse_units(texts(numbers@)[i as int]) is None);
                return None;
            },
        }
        i += 1;
    }
    assert forall|k: int| 0 <= k < n implies parse_units(#[trigger] texts(numbers@)[k]) is Some by {
        assert(parse_units(texts(numbers@)[k]) == Some(v[k]@));
    }
    Some(v)
}

/// Reads one segment.
pub fn segment_from_piece(piece: &RawSegment) -> (r: Option<Segment>)
    ensures
        match segment_of(piece@) {
            Some(m) => r matches Some(s) && s@ == m,
            None => r is None,
        },
{
    match piece.kind {
        SegmentKind::Move => {
            let v = read_numbers(&piece.numbers, 2)?;
            Some(Segment::MoveTo { x: v[0], y: v[1] })
        },
        SegmentKind::Line => {
            let v = read_numbers(&piece.numbers, 2)?;
            Some(Segment::LineTo { x: v[0], y: v[1] })
        },
        SegmentKind::Curve => {
            let v = read_numbers(&piece.numbers, 6)?;
            Some(Segment::CurveTo { x1: v[0], y1: v[1], x2: v[2], y2: v[3], x: v[4], y: v[5] })
        },
        SegmentKind::Quadratic => None,
        SegmentKind::Close => {
            if piece.numbers.len() == 0 {
                Some(Segment::ClosePath)
            } else {
                None
            }
        },
    }
}

/// Reads the segments of a path from its pieces.
pub fn segments_from_pieces(p: &Vec<RawSegment>) -> (r: Result<Vec<Segment>, ConvertError>)
    ensures
        match segments_of(pieces(p@)) {
            Ok(m) => r matches Ok(v) && segment_models(v@) == m,
            Err(e) => r matches Err(x) && x == e,
        },
{
    let mut v: Vec<Segment> = Vec::new();
    let mut i: usize = 0;
    while i < p.len()
        invariant
            i <= p.len(),
            v.len() == i,
            forall|k: int| 0 <= k < i ==> segment_of(#[trigger] pieces(p@)[k]) == Some(v[k]@),
        decreases p.len() - i,
    {
        match segment_from_piece(&p[i]) {
            Some(s) => {
                v.push(s);
            },
            None => {
                assert(segment_of(pieces(p@)[i as int]) is None);
                return Err(ConvertError::MalformedPath);
            },
        }
        i += 1;
    }
    assert(segment_models(v@) =~= segments_of(pieces(p@))->Ok_0);
    Ok(v)
}

/// What `svgtypes` made of the value of an attribute.
#[derive(Debug)]
pub enum Reading {
    /// The value was not handed to `svgtypes`.
    Unread,
    /// The value read as a transform list: the six coefficients of its
    /// matrix in decimal notation, or `None` where it is no transform list.
    Matrix(Option<Vec<Vec<u8>>>),
    /// The value read as path data: its segments, or `None` where it is no
    /// path data.
    Path(Option<Vec<RawSegment>>),
}

/// What a [`Reading`] holds.
pub enum ReadingModel {
    Unread,
    Matrix(Option<Seq<Seq<u8>>>),
    Path(Option<Seq<PathPiece>>),
}

impl View for Reading {
    type V = ReadingModel;

    open spec fn view(&self) -> ReadingModel {
        match self {
            Reading::Unread => ReadingModel::Unread,
            Reading::Matrix(Some(parts)) => ReadingModel::Matrix(Some(texts(parts@))),
            Reading::Matrix(None) => ReadingModel::Matrix(None),
            Reading::Path(Some(p)) => ReadingModel::Path(Some(pieces(p@))),
            Reading::Path(None) => ReadingModel::Path(None),
        }
    }
}

/// The map that a reading denotes: it must be that of a transform list, with
/// six decimal coefficients.
pub open spec fn transform_of(reading: ReadingModel) -> Result<Affine, ConvertError> {
    match reading {
        ReadingModel::Matrix(Some(parts)) => matrix_of(parts),
        _ => Err(ConvertError::MalformedTransform),
    }
}

/// The segments that a reading denotes: it must be that of path data, each
/// piece a supported segment with decimal numbers.
pub open spec fn path_of(reading: ReadingModel) -> Result<Seq<SegmentModel>, ConvertError> {
    match reading {
        ReadingModel::Path(Some(p)) => segments_of(p),
        _ => Err(ConvertError::MalformedPath),
    }
}

impl Reading {
    /// Has `svgtypes` read `text` as a transform list.
    pub fn of_transform(text: &[u8]) -> (r: Reading)
        ensures
            r is Matrix,
    {
        Reading::Matrix(read_matrix(text))
    }

    /// Has `svgtypes` read `d` as path data. Data that is not tame is not
    /// handed on and counts as no path data.
    pub fn of_path(d: &[u8]) -> (r: Reading)
        ensures
            r is Path,
            !is_tame_path(d@) ==> r@ == ReadingModel::Path(None),
    {
        if is_tame(d) {
            Reading::Path(read_path(d))
        } else {
            Reading::Path(None)
        }
    }

    /// The map that this reading denotes.
    pub fn transform(&self) -> (r: Result<Transform, ConvertError>)
        ensures
            match transform_of(self@) {
                Ok(m) => r matches Ok(t) && t@ == m,
                Err(e) => r matches Err(x) && x == e,
            },
    {
        match self {
            Reading::Matrix(Some(parts)) => transform_from_parts(parts),
            _ => Err(ConvertError::MalformedTransform),
        }
    }

    /// The segments that this reading denotes.
    pub fn segments(&self) -> (r: Result<Vec<Segment>, ConvertError>)
        ensures
            match path_of(self@) {
                Ok(m) => r matches Ok(v) && segment_models(v@) == m,
                Err(e) => r matches Err(x) && x == e,
            },
    {
        match self {
            Reading::Path(Some(p)) => segments_from_pieces(p),
            _ => Err(ConvertError::MalformedPath),
        }
    }
}

/// Reads a `transform` attribute. What `svgtypes` makes of the text decides;
/// every failure is that of a malformed transform.
pub fn parse_transform(text: &[u8]) -> (r: Result<Transform, ConvertError>)
    ensures
        r matches Err(e) ==> e == ConvertError::MalformedTransform,
{
    Reading::of_transform(text).transform()
}

/// Reads the attribute `d` of a path. What `svgtypes` makes of the data
/// decides; every failure is that of a malformed path, and data that is not
/// tame always fails.
pub fn parse_path(d: &[u8]) -> (r: Result<Vec<Segment>, ConvertError>)
    ensures
        r matches Err(e) ==> e == ConvertError::MalformedPath,
        !is_tame_path(d@) ==> r is Err,
{
    Reading::of_path(d).segments()
}

/// Whether `b` is the command of an elliptical arc.
pub open spec fn is_arc_command(b: u8) -> bool {
    b == 'A' as u8 || b == 'a' as u8
}

/// Whether `b` closes a subpath.
pub open spec fn is_close_command(b: u8) -> bool {
    b == 'Z' as u8 || b == 'z' as u8
}

/// Whether `b` is a command each of whose segments is handed out as it
/// stands or fails: a move, a line or a curve.
pub open spec fn is_sure_command(b: u8) -> bool {
    b == 'M' as u8 || b == 'm' as u8 || b == 'L' as u8 || b == 'l' as u8 || b == 'H' as u8 || b
        == 'h' as u8 || b == 'V' as u8 || b == 'v' as u8 || b == 'C' as u8 || b == 'c' as u8 || b
        == 'S' as u8 || b == 's' as u8 || b == 'Q' as u8 || b == 'q' as u8 || b == 'T' as u8 || b
        == 't' as u8
}

/// What a byte of path data is part of, as far as numbers go.
#[derive(Clone, Copy, Debug, PartialEq, Eq, Structural)]
pub enum Part {
    /// No number, or the sign of one.
    Other,
    /// The digits before the decimal point.
    Whole,
    /// The decimal point.
    Point,
    /// The digits after the decimal point.
    Fraction,
    /// The `e` or `E` before an exponent.
    Mark,
    /// The sign of an exponent.
    MarkSign,
    /// The digits of an exponent.
    Exponent,
}

/// What a scan of path data has seen so far.
#[derive(Clone, Copy, Debug, PartialEq, Eq, Structural)]
pub struct Scan {
    /// Whether an arc command was seen.
    pub arc: bool,
    /// Whether every number so far is moderate.
    pub moderate: bool,
    /// Whether no stretch so far is too heavy.
    pub calm: bool,
    /// What the last byte was part of.
    pub part: Part,
    /// How many digits the run of digits has that the last byte stands in,
    /// cut off at 41.
    pub run: u16,
    /// How many digits the number that the last byte stands in has before
    /// its point, cut off at 11.
    pub whole: u16,
    /// The exponent as far as it is read, cut off at 21.
    pub exponent: u16,
    /// Whether the exponent is negative.
    pub down: bool,
    /// Whether the last command was an arc, or a close command after one.
    pub arcs: bool,
    /// The weight of the stretch since the last sure command, in sevenths,
    /// cut off at 449.
    pub weight: u16,
}

/// `x + k`, cut off just beyond `cap`.
pub open spec fn bumped(x: u16, k: int, cap: int) -> u16 {
    if x + k > cap {
        (cap + 1) as u16
    } else {
        (x + k) as u16
    }
}

/// Before the first byte.
pub open spec fn scan_start() -> Scan {
    Scan {
        arc: false,
        moderate: true,
        calm: true,
        part: Part::Other,
        run: 0,
        whole: 0,
        exponent: 0,
        down: false,
        arcs: false,
        weight: 0,
    }
}

/// What a digit is part of after a byte that was part of `before`.
pub open spec fn digit_part(before: Part) -> Part {
    match before {
        Part::Other => Part::Whole,
        Part::Whole => Part::Whole,
        Part::Point => Part::Fraction,
        Part::Fraction => Part::Fraction,
        Part::Mark => Part::Exponent,
        Part::MarkSign => Part::Exponent,
        Part::Exponent => Part::Exponent,
    }
}

/// Whether a run of digits is that of a moderate number: no more than 10
/// digits before the point, no more than 40 after it, and an exponent of no
/// more than two digits that is no less than -20 and, together with the
/// number of digits before the point, no more than 10. A moderate number
/// that is not zero has a magnitude between 1e-60 and 1e10.
pub open spec fn is_moderate_run(part: Part, run: u16, whole: u16, exponent: u16, down: bool)
    -> bool {
    match part {
        Part::Whole => whole <= 10,
        Part::Fraction => run <= 40,
        Part::Exponent => run <= 2 && if down {
            exponent <= 20
        } else {
            whole + exponent <= 10
        },
        _ => true,
    }
}

/// Whether a byte that is no digit and part of `part` goes on with the
/// number that the byte before it, part of `before`, stands in: a point
/// after the digits before it, and what marks an exponent.
pub open spec fn continues_number(before: Part, part: Part) -> bool {
    (part == Part::Point && before == Part::Whole) || part == Part::Mark || part == Part::MarkSign
}

/// The scan after one more byte. Digits count towards their run, and, after
/// an arc command, towards the weight of the stretch: every seven of them
/// may be an arc. A close command weighs as much as an arc. A sure command
/// starts a new stretch.
pub open spec fn scan_step(s: Scan, b: u8) -> Scan {
    if is_digit(b) {
        let part = digit_part(s.part);
        let run = if part == s.part { bumped(s.run, 1, 40) } else { 1u16 };
        let whole = if part != Part::Whole {
            s.whole
        } else if s.part == Part::Whole {
            bumped(s.whole, 1, 10)
        } else {
            1u16
        };
        let exponent = if part != Part::Exponent {
            0u16
        } else if s.part == Part::Exponent {
            bumped((s.exponent * 10) as u16, b - '0' as u8, 20)
        } else {
            (b - '0' as u8) as u16
        };
        let weight = if s.arcs { bumped(s.weight, 1, 448) } else { s.weight };
        Scan {
            moderate: s.moderate && is_moderate_run(part, run, whole, exponent, s.down),
            calm: s.calm && weight <= 448,
            part,
            run,
            whole,
            exponent,
            weight,
            ..s
        }
    } else {
        let part = if b == '.' as u8 {
            Part::Point
        } else if b == 'e' as u8 || b == 'E' as u8 {
            Part::Mark
        } else if s.part == Part::Mark && (b == '+' as u8 || b == '-' as u8) {
            Part::MarkSign
        } else {
            Part::Other
        };
        let whole = if continues_number(s.part, part) { s.whole } else { 0u16 };
        let weight = if is_sure_command(b) {
            0u16
        } else if is_close_command(b) {
            bumped(s.weight, 7, 448)
        } else {
            s.weight
        };
        Scan {
            arc: s.arc || is_arc_command(b),
            moderate: s.moderate,
            calm: s.calm && weight <= 448,
            part,
            run: 0,
            whole,
            exponent: 0,
            down: part == Part::MarkSign && b == '-' as u8,
            arcs: is_arc_command(b) || (s.arcs && !is_sure_command(b)),
            weight,
        }
    }
}

/// The scan of the first `n` bytes of `d`.
pub open spec fn scan_up_to(d: Seq<u8>, n: int) -> Scan
    decreases n,
{
    if 0 < n <= d.len() {
        scan_step(scan_up_to(d, n - 1), d[n - 1])
    } else {
        scan_start()
    }
}

/// Whether path data is fit to be handed to `svgtypes`.
///
/// No stretch of it is heavy: between two sure commands, close commands and
/// what may be arcs are no more than 64. The parser calls itself for each
/// close command that follows another and for each arc that comes to no
/// curve, and only a segment that is handed out, or an error, ends that.
///
/// And if it holds an arc, its numbers are moderate: `kurbo`, which turns
/// arcs into curves, asserts that a sum of squares of products of radii and
/// distances is not zero, and cuts an arc into the more curves the larger
/// its radii and the distance it spans are. Numbers of ten digits before
/// the point reach beyond every number that is read here.
pub open spec fn is_tame_path(d: Seq<u8>) -> bool {
    let s = scan_up_to(d, d.len() as int);
    s.calm && (!s.arc || s.moderate)
}

impl Scan {
    /// Before the first byte.
    pub fn start() -> (r: Scan)
        ensures
            r == scan_start(),
    {
        Scan {
            arc: false,
            moderate: true,
            calm: true,
            part: Part::Other,
            run: 0,
            whole: 0,
            exponent: 0,
            down: false,
            arcs: false,
            weight: 0,
        }
    }

    /// Whether the counts are within their cuts.
    pub open spec fn bounded(self) -> bool {
        self.run <= 41 && self.whole <= 11 && self.exponent <= 21 && self.weight <= 449
    }

    /// The scan after one more byte.
    pub fn step(self, b: u8) -> (r: Scan)
        requires
            self.bounded(),
        ensures
            r == scan_step(self, b),
            r.bounded(),
    {
        if b >= '0' as u8 && b <= '9' as u8 {
            let part = match self.part {
                Part::Other => Part::Whole,
                Part::Whole => Part::Whole,
                Part::Point => Part::Fraction,
                Part::Fraction => Part::Fraction,
                Part::Mark => Part::Exponent,
                Part::MarkSign => Part::Exponent,
                Part::Exponent => Part::Exponent,
            };
            let run: u16 = if part == self.part {
                if self.run >= 40 { 41 } else { self.run + 1 }
            } else {
                1
            };
            let whole: u16 = match part {
                Part::Whole => match self.part {
                    Part::Whole => if self.whole >= 10 { 11 } else { self.whole + 1 },
                    _ => 1,
                },
                _ => self.whole,
            };
            let digit: u16 = (b - '0' as u8) as u16;
            let exponent: u16 = if part != Part::Exponent {
                0
            } else if self.part == Part::Exponent {
                if self.exponent * 10 + digit > 20 { 21 } else { self.exponent * 10 + digit }
            } else {
                digit
            };
            let weight: u16 = if self.arcs {
                if self.weight >= 448 { 449 } else { self.weight + 1 }
            } else {
                self.weight
            };
            let moderate_run = match part {
                Part::Whole => whole <= 10,
                Part::Fraction => run <= 40,
                Part::Exponent => run <= 2 && if self.down {
                    exponent <= 20
                } else {
                    whole + exponent <= 10
                },
                _ => true,
            };
            Scan {
                arc: self.arc,
                moderate: self.moderate && moderate_run,
                calm: self.calm && weight <= 448,
                part,
                run,
                whole,
                exponent,
                down: self.down,
                arcs: self.arcs,
                weight,
            }
        } else {
            let part = if b == '.' as u8 {
                Part::Point
            } else if b == 'e' as u8 || b == 'E' as u8 {
                Part::Mark
            } else if self.part == Part::Mark && (b == '+' as u8 || b == '-' as u8) {
                Part::MarkSign
            } else {
                Part::Other
            };
            let whole: u16 = match (self.part, part) {
                (Part::Whole, Part::Point) => self.whole,
                (_, Part::Mark) => self.whole,
                (_, Part::MarkSign) => self.whole,
                _ => 0,
            };
            let arc = b == 'A' as u8 || b == 'a' as u8;
            let close = b == 'Z' as u8 || b == 'z' as u8;
            let sure = b == 'M' as u8 || b == 'm' as u8 || b == 'L' as u8 || b == 'l' as u8 || b
                == 'H' as u8 || b == 'h' as u8 || b == 'V' as u8 || b == 'v' as u8 || b
                == 'C' as u8 || b == 'c' as u8 || b == 'S' as u8 || b == 's' as u8 || b
                == 'Q' as u8 || b == 'q' as u8 || b == 'T' as u8 || b == 't' as u8;
            let weight: u16 = if sure {
                0
            } else if close {
                if self.weight + 7 > 448 { 449 } else { self.weight + 7 }
            } else {
                self.weight
            };
            Scan {
                arc: self.arc || arc,
                moderate: self.moderate,
                calm: self.calm && weight <= 448,
                part,
                run: 0,
                whole,
                exponent: 0,
                down: part == Part::MarkSign && b == '-' as u8,
                arcs: arc || (self.arcs && !sure),
                weight,
            }
        }
    }
}

/// Whether path data is fit to be handed to `svgtypes`.
pub fn is_tame(d: &[u8]) -> (r: bool)
    ensures
        r == is_tame_path(d@),
{
    let mut s = Scan::start();
    let mut i: usize = 0;
    while i < d.len()
        invariant
            i <= d.len(),
            s == scan_up_to(d@, i as int),
            s.bounded(),
        decreases d.len() - i,
    {
        s = s.step(d[i]);
        i += 1;
    }
    s.calm && (!s.arc || s.moderate)
}

} // verus!
