//! EasyEDA schematic shapes -> a one-symbol `.kicad_sym` library.
//!
//! A shape is read from its record, measured, and written as a form. Numbers
//! stay the texts they are written in: those of a [`Shape`] are in EasyEDA
//! units with y growing downwards, those of a [`Drawn`] are in millimetres with
//! y growing upwards, relative to the schematic origin.

use vstd::prelude::*;
use vstd::string::*;

use crate::online;
use crate::online::easyeda;
use crate::online::easyeda::{groups, Component, Record};
use crate::online::sanitize;
use crate::online::svgpath;
use crate::online::svgpath::{parse_path, parse_points, Step};
use crate::sexpr;
use crate::sexpr::{one, paren, place, places, plain, plain_pair, plain_pairs, quote};
use crate::symlib;
use crate::text;
use crate::text::{eq_ignore_ascii_case, number, pieces, same, slice, to_chars, trimmed};

verus! {

// ------------------------------------------------------------------ reading

/// A schematic shape as its record gives it.
pub enum Shape {
    Pin {
        x: String,
        y: String,
        /// The pin's own path, which says which way it points and how long it is.
        steps: Vec<Step>,
        label: PinLabel,
    },
    Rectangle { x: String, y: String, width: String, height: String, style: Style },
    Ellipse { x: String, y: String, rx: String, ry: String, style: Style },
    Polyline { points: Vec<(String, String)>, polygon: bool, style: Style },
    Path { steps: Vec<Step>, style: Style },
    Other,
}

/// What a pin says about itself.
pub struct PinLabel {
    pub code: String,
    pub name: String,
    pub number: String,
    pub inverted: bool,
    pub clock: bool,
    pub hidden: bool,
}

/// How a shape is drawn: its stroke width and its fill colour.
pub struct Style {
    pub stroke: String,
    pub fill: String,
}

#[verifier::ext_equal]
pub struct LabelView {
    pub code: Seq<char>,
    pub name: Seq<char>,
    pub number: Seq<char>,
    pub inverted: bool,
    pub clock: bool,
    pub hidden: bool,
}

#[verifier::ext_equal]
pub struct StyleView {
    pub stroke: Seq<char>,
    pub fill: Seq<char>,
}

pub enum ShapeView {
    Pin { x: Seq<char>, y: Seq<char>, steps: Seq<svgpath::StepView>, label: LabelView },
    Rectangle {
        x: Seq<char>,
        y: Seq<char>,
        width: Seq<char>,
        height: Seq<char>,
        style: StyleView,
    },
    Ellipse { x: Seq<char>, y: Seq<char>, rx: Seq<char>, ry: Seq<char>, style: StyleView },
    Polyline { points: Seq<(Seq<char>, Seq<char>)>, polygon: bool, style: StyleView },
    Path { steps: Seq<svgpath::StepView>, style: StyleView },
    Other,
}

impl View for PinLabel {
    type V = LabelView;

    open spec fn view(&self) -> LabelView {
        LabelView {
            code: self.code@,
            name: self.name@,
            number: self.number@,
            inverted: self.inverted,
            clock: self.clock,
            hidden: self.hidden,
        }
    }
}

impl View for Style {
    type V = StyleView;

    open spec fn view(&self) -> StyleView {
        StyleView { stroke: self.stroke@, fill: self.fill@ }
    }
}

impl View for Shape {
    type V = ShapeView;

    open spec fn view(&self) -> ShapeView {
        match *self {
            Shape::Pin { x, y, steps, label } => ShapeView::Pin {
                x: x@,
                y: y@,
                steps: svgpath::step_views(steps@),
                label: label@,
            },
            Shape::Rectangle { x, y, width, height, style } => ShapeView::Rectangle {
                x: x@,
                y: y@,
                width: width@,
                height: height@,
                style: style@,
            },
            Shape::Ellipse { x, y, rx, ry, style } => ShapeView::Ellipse {
                x: x@,
                y: y@,
                rx: rx@,
                ry: ry@,
                style: style@,
            },
            Shape::Polyline { points, polygon, style } => ShapeView::Polyline {
                points: svgpath::pair_views(points@),
                polygon,
                style: style@,
            },
            Shape::Path { steps, style } => ShapeView::Path {
                steps: svgpath::step_views(steps@),
                style: style@,
            },
            Shape::Other => ShapeView::Other,
        }
    }
}

/// A group of a record; one past the end reads as empty.
pub open spec fn group(parts: Seq<Seq<char>>, i: int) -> Seq<char> {
    if 0 <= i < parts.len() {
        parts[i]
    } else {
        Seq::empty()
    }
}

/// The text of a pin label, a group like `visible~x~y~rotation~text~anchor~…`.
pub open spec fn label_text(g: Seq<char>) -> Seq<char> {
    text::trim(easyeda::field(easyeda::record_of(g), 4))
}

pub open spec fn or_text(value: Seq<char>, other: Seq<char>) -> Seq<char> {
    if value.len() == 0 {
        other
    } else {
        value
    }
}

/// A coordinate of a pin: that of its connection point, or else the one in its
/// settings.
pub open spec fn pin_coordinate(
    dot: Seq<Seq<char>>,
    i: int,
    settings: Seq<Seq<char>>,
    k: int,
) -> Seq<char> {
    match easyeda::number_in(dot, i) {
        Some(t) => t,
        None => easyeda::number_or_zero(settings, k),
    }
}

/// The pin a record describes.
pub open spec fn pin_of(shape: Seq<char>) -> ShapeView {
    let parts = easyeda::groups_of(shape);
    let settings = easyeda::record_of(group(parts, 0));
    let dot = easyeda::record_of(group(parts, 1));
    ShapeView::Pin {
        x: pin_coordinate(dot, 0, settings, 4),
        y: pin_coordinate(dot, 1, settings, 5),
        steps: svgpath::steps_of(text::split(group(parts, 2), '~')[0]),
        label: LabelView {
            code: easyeda::field(settings, 2),
            name: or_text(label_text(group(parts, 3)), "~"@),
            number: or_text(label_text(group(parts, 4)), easyeda::field(settings, 3)),
            inverted: easyeda::field(easyeda::record_of(group(parts, 5)), 0) == "1"@,
            clock: easyeda::field(easyeda::record_of(group(parts, 6)), 0) == "1"@,
            hidden: easyeda::field(settings, 1) != "show"@,
        },
    }
}

pub open spec fn style_of(r: Seq<Seq<char>>, stroke: int, fill: int) -> StyleView {
    StyleView { stroke: easyeda::number_or_zero(r, stroke), fill: easyeda::field(r, fill) }
}

/// The shape a record describes. Pins carry `^^` groups; every other shape is a
/// flat record.
pub open spec fn shape_of(s: Seq<char>) -> ShapeView {
    let r = easyeda::record_of(group(easyeda::groups_of(s), 0));
    let kind = easyeda::field(r, 0);
    if kind == "P"@ {
        pin_of(s)
    } else if kind == "R"@ {
        // R~x~y~rx~ry~width~height~stroke~strokeWidth~strokeStyle~fill~id~locked
        ShapeView::Rectangle {
            x: easyeda::number_or_zero(r, 1),
            y: easyeda::number_or_zero(r, 2),
            width: easyeda::number_or_zero(r, 5),
            height: easyeda::number_or_zero(r, 6),
            style: style_of(r, 8, 10),
        }
    } else if kind == "E"@ {
        // E~cx~cy~rx~ry~stroke~strokeWidth~strokeStyle~fill~id~locked
        ShapeView::Ellipse {
            x: easyeda::number_or_zero(r, 1),
            y: easyeda::number_or_zero(r, 2),
            rx: easyeda::number_or_zero(r, 3),
            ry: easyeda::number_or_zero(r, 4),
            style: style_of(r, 6, 8),
        }
    } else if kind == "PL"@ || kind == "PG"@ {
        // PL/PG~points~stroke~strokeWidth~strokeStyle~fill~id~locked
        ShapeView::Polyline {
            points: svgpath::points_of(easyeda::field(r, 1)),
            polygon: kind == "PG"@,
            style: style_of(r, 3, 5),
        }
    } else if kind == "PT"@ || kind == "A"@ {
        // A free path and an arc both hold an SVG path in the first field.
        ShapeView::Path {
            steps: svgpath::steps_of(easyeda::field(r, 1)),
            style: style_of(r, 3, 5),
        }
    } else {
        ShapeView::Other
    }
}

fn part(parts: &Vec<String>, i: usize) -> (r: String)
    ensures
        r@ == group(text::views(parts@), i as int),
{
    if i < parts.len() {
        parts[i].clone()
    } else {
        let none = String::new();
        assert(none@ =~= Seq::<char>::empty());
        none
    }
}

fn text_of(g: &str) -> (r: String)
    ensures
        r@ == label_text(g@),
{
    let record = Record::new(g);
    let raw = record.str(4);
    trimmed(raw.as_str())
}

fn coordinate(dot: &Record, i: usize, settings: &Record, k: usize) -> (r: String)
    ensures
        r@ == pin_coordinate(dot@, i as int, settings@, k as int),
{
    match dot.opt_num(i) {
        Some(t) => t,
        None => settings.num(k),
    }
}

fn is_one(g: &str) -> (r: bool)
    ensures
        r == (easyeda::field(easyeda::record_of(g@), 0) == "1"@),
{
    let record = Record::new(g);
    let first = record.str(0);
    same(first.as_str(), "1")
}

fn pin(shape: &str) -> (r: Shape)
    ensures
        r@ == pin_of(shape@),
{
    let parts = groups(shape);
    let settings = Record::new(part(&parts, 0).as_str());
    let dot = Record::new(part(&parts, 1).as_str());
    let path_group = part(&parts, 2);
    let path = pieces(path_group.as_str(), '~');
    proof {
        text::lemma_split_len(path_group@, '~');
        assert(text::views(path@).len() == path@.len());
        assert(text::views(path@)[0] == path@[0]@);
    }
    let mut name = text_of(part(&parts, 3).as_str());
    if name.as_str().is_empty() {
        name = "~".to_string();
    }
    let mut label = text_of(part(&parts, 4).as_str());
    if label.as_str().is_empty() {
        label = settings.str(3);
    }
    let shown = settings.str(1);
    Shape::Pin {
        x: coordinate(&dot, 0, &settings, 4),
        y: coordinate(&dot, 1, &settings, 5),
        steps: parse_path(path[0].as_str()),
        label: PinLabel {
            code: settings.str(2),
            name,
            number: label,
            inverted: is_one(part(&parts, 5).as_str()),
            clock: is_one(part(&parts, 6).as_str()),
            hidden: !same(shown.as_str(), "show"),
        },
    }
}

fn style(record: &Record, stroke: usize, fill: usize) -> (r: Style)
    ensures
        r@ == style_of(record@, stroke as int, fill as int),
{
    Style { stroke: record.num(stroke), fill: record.str(fill) }
}

/// Reads a schematic shape from its record.
pub fn read_shape(text: &str) -> (r: Shape)
    ensures
        r@ == shape_of(text@),
{
    let parts = groups(text);
    let record = Record::new(part(&parts, 0).as_str());
    let kind = record.kind();
    let k = kind.as_str();
    if same(k, "P") {
        pin(text)
    } else if same(k, "R") {
        Shape::Rectangle {
            x: record.num(1),
            y: record.num(2),
            width: record.num(5),
            height: record.num(6),
            style: style(&record, 8, 10),
        }
    } else if same(k, "E") {
        Shape::Ellipse {
            x: record.num(1),
            y: record.num(2),
            rx: record.num(3),
            ry: record.num(4),
            style: style(&record, 6, 8),
        }
    } else if same(k, "PL") || same(k, "PG") {
        let points = record.str(1);
        Shape::Polyline {
            points: parse_points(points.as_str()),
            polygon: same(k, "PG"),
            style: style(&record, 3, 5),
        }
    } else if same(k, "PT") || same(k, "A") {
        let path = record.str(1);
        Shape::Path { steps: parse_path(path.as_str()), style: style(&record, 3, 5) }
    } else {
        Shape::Other
    }
}

// ------------------------------------------------------------------ drawing

/// One piece of a drawn path.
pub enum Piece {
    /// `joined` when it starts where the piece before it ended.
    Line { from: (String, String), to: (String, String), joined: bool },
    /// Through `mid`, from `from` to `to`.
    Arc { from: (String, String), mid: (String, String), to: (String, String) },
}

/// A schematic shape that has been measured. The stroke in its style is in
/// millimetres, `0` for KiCad's default.
pub enum Drawn {
    Rectangle { from: (String, String), to: (String, String), style: Style },
    Circle { at: (String, String), radius: String, style: Style },
    /// `closed` when its last point is its first.
    Polyline { points: Vec<(String, String)>, polygon: bool, closed: bool, style: Style },
    Path { pieces: Vec<Piece>, style: Style },
    Pin { at: (String, String), angle: String, length: String, label: PinLabel },
}

pub enum PieceView {
    Line { from: (Seq<char>, Seq<char>), to: (Seq<char>, Seq<char>), joined: bool },
    Arc { from: (Seq<char>, Seq<char>), mid: (Seq<char>, Seq<char>), to: (Seq<char>, Seq<char>) },
}

pub enum DrawnView {
    Rectangle { from: (Seq<char>, Seq<char>), to: (Seq<char>, Seq<char>), style: StyleView },
    Circle { at: (Seq<char>, Seq<char>), radius: Seq<char>, style: StyleView },
    Polyline {
        points: Seq<(Seq<char>, Seq<char>)>,
        polygon: bool,
        closed: bool,
        style: StyleView,
    },
    Path { pieces: Seq<PieceView>, style: StyleView },
    Pin { at: (Seq<char>, Seq<char>), angle: Seq<char>, length: Seq<char>, label: LabelView },
}

pub open spec fn pair(p: (String, String)) -> (Seq<char>, Seq<char>) {
    (p.0@, p.1@)
}

impl View for Piece {
    type V = PieceView;

    open spec fn view(&self) -> PieceView {
        match *self {
            Piece::Line { from, to, joined } => PieceView::Line {
                from: pair(from),
                to: pair(to),
                joined,
            },
            Piece::Arc { from, mid, to } => PieceView::Arc {
                from: pair(from),
                mid: pair(mid),
                to: pair(to),
            },
        }
    }
}

pub open spec fn piece_views(list: Seq<Piece>) -> Seq<PieceView> {
    list.map_values(|p: Piece| p@)
}

impl View for Drawn {
    type V = DrawnView;

    open spec fn view(&self) -> DrawnView {
        match *self {
            Drawn::Rectangle { from, to, style } => DrawnView::Rectangle {
                from: pair(from),
                to: pair(to),
                style: style@,
            },
            Drawn::Circle { at, radius, style } => DrawnView::Circle {
                at: pair(at),
                radius: radius@,
                style: style@,
            },
            Drawn::Polyline { points, polygon, closed, style } => DrawnView::Polyline {
                points: sexpr::pair_views(points@),
                polygon,
                closed,
                style: style@,
            },
            Drawn::Path { pieces, style } => DrawnView::Path {
                pieces: piece_views(pieces@),
                style: style@,
            },
            Drawn::Pin { at, angle, length, label } => DrawnView::Pin {
                at: pair(at),
                angle: angle@,
                length: length@,
                label: label@,
            },
        }
    }
}

pub open spec fn drawn_views(list: Seq<Drawn>) -> Seq<DrawnView> {
    list.map_values(|d: Drawn| d@)
}

// ------------------------------------------------------------------- styling

pub open spec fn fill_kind(color: Seq<char>) -> Seq<char> {
    if color.len() == 0 || text::same_letters(color, "none"@) {
        "none"@
    } else {
        "background"@
    }
}

/// The stroke and fill of a shape.
pub open spec fn style_text(style: StyleView) -> Seq<char> {
    "        "@ + sexpr::form(
        "stroke "@ + sexpr::entry("width"@, style.stroke) + " "@ + sexpr::form("type default"@),
    ) + "\n        "@ + sexpr::form(
        "fill "@ + sexpr::entry("type"@, fill_kind(style.fill)),
    ) + "\n"@
}

/// A shape as one form on lines of its own: `head`, then its style.
pub open spec fn shape_text(head: Seq<char>, style: StyleView) -> Seq<char> {
    "      "@ + sexpr::form(head + "\n"@ + style_text(style) + "      "@) + "\n"@
}

fn fill(color: &str) -> (r: &'static str)
    ensures
        r@ == fill_kind(color@),
{
    if color.is_empty() || eq_ignore_ascii_case(color, "none") {
        "none"
    } else {
        "background"
    }
}

fn write_style(style: &Style) -> (r: String)
    ensures
        r@ == style_text(style@),
{
    let mut out = "        ".to_string();
    let mut stroke = "stroke ".to_string();
    let width = one("width", style.stroke.as_str());
    stroke.append(width.as_str());
    stroke.append(" ");
    stroke.append(paren("type default").as_str());
    out.append(paren(stroke.as_str()).as_str());
    out.append("\n        ");
    let mut inner = "fill ".to_string();
    let kind = one("type", fill(style.fill.as_str()));
    inner.append(kind.as_str());
    out.append(paren(inner.as_str()).as_str());
    out.append("\n");
    out
}

fn write_shape(head: &str, style: &Style) -> (r: String)
    ensures
        r@ == shape_text(head@, style@),
{
    let mut out = "      ".to_string();
    let mut inner = head.to_string();
    let drawn = write_style(style);
    inner.append("\n");
    inner.append(drawn.as_str());
    inner.append("      ");
    out.append(paren(inner.as_str()).as_str());
    out.append("\n");
    out
}

// ------------------------------------------------------------------- shapes

pub open spec fn polyline_text(points: Seq<(Seq<char>, Seq<char>)>, style: StyleView) -> Seq<
    char,
> {
    shape_text(
        "polyline\n        "@ + sexpr::entry("pts"@, sexpr::spots(points)),
        style,
    )
}

pub open spec fn arc_text(
    from: (Seq<char>, Seq<char>),
    mid: (Seq<char>, Seq<char>),
    to: (Seq<char>, Seq<char>),
    style: StyleView,
) -> Seq<char> {
    shape_text(
        "arc "@ + sexpr::spot("start"@, from) + " "@ + sexpr::spot("mid"@, mid) + " "@
            + sexpr::spot("end"@, to),
        style,
    )
}

/// A run of lines that has come to its end. One point draws nothing.
pub open spec fn flushed(
    out: Seq<char>,
    run: Seq<(Seq<char>, Seq<char>)>,
    style: StyleView,
) -> Seq<char> {
    if run.len() >= 2 {
        out + polyline_text(run, style)
    } else {
        out
    }
}

/// What the first `n` pieces have drawn, and the run of lines still open.
pub open spec fn traced(pieces: Seq<PieceView>, style: StyleView, n: int) -> (
    Seq<char>,
    Seq<(Seq<char>, Seq<char>)>,
)
    decreases n,
{
    if n <= 0 {
        (Seq::empty(), Seq::empty())
    } else {
        let (out, run) = traced(pieces, style, n - 1);
        match pieces[n - 1] {
            PieceView::Line { from, to, joined } => if run.len() > 0 && joined {
                (out, run.push(to))
            } else {
                (flushed(out, run, style), seq![from, to])
            },
            PieceView::Arc { from, mid, to } => (
                flushed(out, run, style) + arc_text(from, mid, to, style),
                Seq::empty(),
            ),
        }
    }
}

pub open spec fn path_text(pieces: Seq<PieceView>, style: StyleView) -> Seq<char> {
    let (out, run) = traced(pieces, style, pieces.len() as int);
    flushed(out, run, style)
}

pub open spec fn electrical_type(code: Seq<char>) -> Seq<char> {
    if code == "1"@ {
        "input"@
    } else if code == "2"@ {
        "output"@
    } else if code == "3"@ {
        "bidirectional"@
    } else if code == "4"@ {
        "power_in"@
    } else {
        "unspecified"@
    }
}

pub open spec fn pin_style(inverted: bool, clock: bool) -> Seq<char> {
    if inverted && clock {
        "inverted_clock"@
    } else if inverted {
        "inverted"@
    } else if clock {
        "clock"@
    } else {
        "line"@
    }
}

pub open spec fn effects() -> Seq<char> {
    sexpr::entry("effects"@, sexpr::entry("font"@, sexpr::form("size 1.27 1.27"@)))
}

/// A name or number of a pin.
pub open spec fn tag(word: Seq<char>, value: Seq<char>) -> Seq<char> {
    sexpr::form(word + " "@ + sexpr::literal(value) + " "@ + effects())
}

pub open spec fn hide_text(hidden: bool) -> Seq<char> {
    if hidden {
        " hide"@
    } else {
        ""@
    }
}

pub open spec fn pin_text(
    at: (Seq<char>, Seq<char>),
    angle: Seq<char>,
    length: Seq<char>,
    label: LabelView,
) -> Seq<char> {
    "      "@ + sexpr::form(
        "pin "@ + electrical_type(label.code) + " "@ + pin_style(label.inverted, label.clock)
            + " "@ + sexpr::form("at "@ + at.0 + " "@ + at.1 + " "@ + angle) + " "@ + sexpr::entry(
            "length"@,
            length,
        ) + hide_text(label.hidden) + "\n        "@ + tag("name"@, label.name) + "\n        "@
            + tag("number"@, label.number) + "\n      "@,
    ) + "\n"@
}

/// The points of a polyline; a polygon is a closed one.
pub open spec fn ring(points: Seq<(Seq<char>, Seq<char>)>, polygon: bool, closed: bool) -> Seq<
    (Seq<char>, Seq<char>),
> {
    if polygon && !closed {
        points.push(points[0])
    } else {
        points
    }
}

/// The drawing of a shape, unless it is a pin.
pub open spec fn graphic_of(d: DrawnView) -> Seq<char> {
    match d {
        DrawnView::Rectangle { from, to, style } => shape_text(
            "rectangle "@ + sexpr::spot("start"@, from) + " "@ + sexpr::spot("end"@, to),
            style,
        ),
        DrawnView::Circle { at, radius, style } => shape_text(
            "circle "@ + sexpr::spot("center"@, at) + " "@ + sexpr::entry("radius"@, radius),
            style,
        ),
        DrawnView::Polyline { points, polygon, closed, style } => if points.len() < 2 {
            Seq::empty()
        } else {
            polyline_text(ring(points, polygon, closed), style)
        },
        DrawnView::Path { pieces, style } => path_text(pieces, style),
        DrawnView::Pin { at, angle, length, label } => Seq::empty(),
    }
}

/// The drawing of a pin.
pub open spec fn pin_drawn(d: DrawnView) -> Seq<char> {
    match d {
        DrawnView::Pin { at, angle, length, label } => pin_text(at, angle, length, label),
        _ => Seq::empty(),
    }
}

pub open spec fn graphics_of(list: Seq<DrawnView>) -> Seq<char>
    decreases list.len(),
{
    if list.len() == 0 {
        Seq::empty()
    } else {
        graphics_of(list.drop_last()) + graphic_of(list.last())
    }
}

pub open spec fn pins_of(list: Seq<DrawnView>) -> Seq<char>
    decreases list.len(),
{
    if list.len() == 0 {
        Seq::empty()
    } else {
        pins_of(list.drop_last()) + pin_drawn(list.last())
    }
}

fn write_polyline(points: &Vec<(String, String)>, style: &Style) -> (r: String)
    ensures
        r@ == polyline_text(sexpr::pair_views(points@), style@),
{
    let mut head = "polyline\n        ".to_string();
    let all = places(points);
    head.append(one("pts", all.as_str()).as_str());
    write_shape(head.as_str(), style)
}

fn write_arc(
    from: &(String, String),
    mid: &(String, String),
    to: &(String, String),
    style: &Style,
) -> (r: String)
    ensures
        r@ == arc_text(pair(*from), pair(*mid), pair(*to), style@),
{
    let mut head = "arc ".to_string();
    head.append(place("start", from.0.as_str(), from.1.as_str()).as_str());
    head.append(" ");
    head.append(place("mid", mid.0.as_str(), mid.1.as_str()).as_str());
    head.append(" ");
    head.append(place("end", to.0.as_str(), to.1.as_str()).as_str());
    write_shape(head.as_str(), style)
}

fn flush(out: &mut String, run: &Vec<(String, String)>, style: &Style)
    ensures
        final(out)@ == flushed(old(out)@, sexpr::pair_views(run@), style@),
{
    assert(sexpr::pair_views(run@).len() == run@.len());
    if run.len() >= 2 {
        let line = write_polyline(run, style);
        out.append(line.as_str());
    }
}

fn clone_pair(p: &(String, String)) -> (r: (String, String))
    ensures
        pair(r) == pair(*p),
{
    (p.0.clone(), p.1.clone())
}

/// A free path: lines that meet are one polyline, arcs stand alone.
fn write_path(pieces: &Vec<Piece>, style: &Style) -> (r: String)
    ensures
        r@ == path_text(piece_views(pieces@), style@),
{
    let ghost all = piece_views(pieces@);
    let mut out = String::new();
    let mut run: Vec<(String, String)> = Vec::new();
    let mut i: usize = 0;
    assert(sexpr::pair_views(run@) =~= Seq::<(Seq<char>, Seq<char>)>::empty());
    assert(out@ =~= Seq::<char>::empty());
    while i < pieces.len()
        invariant
            i <= pieces@.len(),
            all == piece_views(pieces@),
            (out@, sexpr::pair_views(run@)) == traced(all, style@, i as int),
        decreases pieces.len() - i,
    {
        assert(all[i as int] == pieces@[i as int]@);
        assert(sexpr::pair_views(run@).len() == run@.len());
        let ghost was = sexpr::pair_views(run@);
        match &pieces[i] {
            Piece::Line { from, to, joined } => {
                if run.len() > 0 && *joined {
                    run.push(clone_pair(to));
                    assert(sexpr::pair_views(run@) =~= was.push(pair(*to)));
                } else {
                    flush(&mut out, &run, style);
                    run = Vec::new();
                    run.push(clone_pair(from));
                    run.push(clone_pair(to));
                    assert(sexpr::pair_views(run@) =~= seq![pair(*from), pair(*to)]);
                }
            },
            Piece::Arc { from, mid, to } => {
                flush(&mut out, &run, style);
                let arc = write_arc(from, mid, to, style);
                out.append(arc.as_str());
                run = Vec::new();
                assert(sexpr::pair_views(run@) =~= Seq::<(Seq<char>, Seq<char>)>::empty());
            },
        }
        i += 1;
    }
    flush(&mut out, &run, style);
    out
}

fn electrical(code: &str) -> (r: &'static str)
    ensures
        r@ == electrical_type(code@),
{
    if same(code, "1") {
        "input"
    } else if same(code, "2") {
        "output"
    } else if same(code, "3") {
        "bidirectional"
    } else if same(code, "4") {
        "power_in"
    } else {
        "unspecified"
    }
}

fn look(inverted: bool, clock: bool) -> (r: &'static str)
    ensures
        r@ == pin_style(inverted, clock),
{
    if inverted && clock {
        "inverted_clock"
    } else if inverted {
        "inverted"
    } else if clock {
        "clock"
    } else {
        "line"
    }
}

fn write_effects() -> (r: String)
    ensures
        r@ == effects(),
{
    let size = paren("size 1.27 1.27");
    let font = one("font", size.as_str());
    one("effects", font.as_str())
}

fn write_tag(word: &str, value: &str) -> (r: String)
    ensures
        r@ == tag(word@, value@),
{
    let mut inner = word.to_string();
    inner.append(" ");
    inner.append(quote(value).as_str());
    inner.append(" ");
    inner.append(write_effects().as_str());
    paren(inner.as_str())
}

pub(crate) fn hide_word(hidden: bool) -> (r: &'static str)
    ensures
        r@ == hide_text(hidden),
{
    if hidden {
        " hide"
    } else {
        ""
    }
}

fn write_pin(at: &(String, String), angle: &str, length: &str, label: &PinLabel) -> (r: String)
    ensures
        r@ == pin_text(pair(*at), angle@, length@, label@),
{
    let mut spot = "at ".to_string();
    spot.append(at.0.as_str());
    spot.append(" ");
    spot.append(at.1.as_str());
    spot.append(" ");
    spot.append(angle);
    let mut inner = "pin ".to_string();
    inner.append(electrical(label.code.as_str()));
    inner.append(" ");
    inner.append(look(label.inverted, label.clock));
    inner.append(" ");
    inner.append(paren(spot.as_str()).as_str());
    inner.append(" ");
    inner.append(one("length", length).as_str());
    inner.append(hide_word(label.hidden));
    inner.append("\n        ");
    inner.append(write_tag("name", label.name.as_str()).as_str());
    inner.append("\n        ");
    inner.append(write_tag("number", label.number.as_str()).as_str());
    inner.append("\n      ");
    let mut out = "      ".to_string();
    out.append(paren(inner.as_str()).as_str());
    out.append("\n");
    out
}

fn write_graphic(d: &Drawn) -> (r: String)
    ensures
        r@ == graphic_of(d@),
{
    match d {
        Drawn::Rectangle { from, to, style } => {
            let mut head = "rectangle ".to_string();
            head.append(place("start", from.0.as_str(), from.1.as_str()).as_str());
            head.append(" ");
            head.append(place("end", to.0.as_str(), to.1.as_str()).as_str());
            write_shape(head.as_str(), style)
        },
        Drawn::Circle { at, radius, style } => {
            let mut head = "circle ".to_string();
            head.append(place("center", at.0.as_str(), at.1.as_str()).as_str());
            head.append(" ");
            head.append(one("radius", radius.as_str()).as_str());
            write_shape(head.as_str(), style)
        },
        Drawn::Polyline { points, polygon, closed, style } => {
            assert(sexpr::pair_views(points@).len() == points@.len());
            if points.len() < 2 {
                let none = String::new();
                assert(none@ =~= Seq::<char>::empty());
                return none;
            }
            let mut all: Vec<(String, String)> = Vec::new();
            let mut i: usize = 0;
            while i < points.len()
                invariant
                    i <= points@.len(),
                    all@.len() == i,
                    forall|j: int| 0 <= j < i ==> pair(#[trigger] all@[j]) == pair(points@[j]),
                decreases points.len() - i,
            {
                all.push(clone_pair(&points[i]));
                i += 1;
            }
            if *polygon && !*closed {
                all.push(clone_pair(&points[0]));
            }
            assert(sexpr::pair_views(all@) =~= ring(
                sexpr::pair_views(points@),
                *polygon,
                *closed,
            ));
            write_polyline(&all, style)
        },
        Drawn::Path { pieces, style } => write_path(pieces, style),
        Drawn::Pin { at: _, angle: _, length: _, label: _ } => {
            let none = String::new();
            assert(none@ =~= Seq::<char>::empty());
            none
        },
    }
}

fn write_drawn_pin(d: &Drawn) -> (r: String)
    ensures
        r@ == pin_drawn(d@),
{
    match d {
        Drawn::Pin { at, angle, length, label } => write_pin(
            at,
            angle.as_str(),
            length.as_str(),
            label,
        ),
        _ => {
            let none = String::new();
            assert(none@ =~= Seq::<char>::empty());
            none
        },
    }
}

// ------------------------------------------------------------- the library

/// A reference without its question marks, `U` when nothing is left.
pub open spec fn without_marks(s: Seq<char>) -> Seq<char>
    decreases s.len(),
{
    if s.len() > 0 && s.last() == '?' {
        without_marks(s.drop_last())
    } else {
        s
    }
}

pub open spec fn reference_of(prefix: Seq<char>) -> Seq<char> {
    or_text(without_marks(prefix), "U"@)
}

pub open spec fn property_text(key: Seq<char>, value: Seq<char>, id: nat, hidden: bool) -> Seq<
    char,
> {
    "    "@ + sexpr::form(
        "property "@ + sexpr::literal(key) + " "@ + sexpr::literal(value) + " "@ + sexpr::entry(
            "id"@,
            text::decimal(id),
        ) + " "@ + sexpr::form("at 0 0 0"@) + "\n      "@ + sexpr::form(
            "effects "@ + sexpr::entry("font"@, sexpr::form("size 1.27 1.27"@)) + hide_text(hidden),
        ) + "\n    "@,
    ) + "\n"@
}

pub open spec fn properties_of(
    c: easyeda::ComponentView,
    name: Seq<char>,
    footprint: Seq<char>,
) -> Seq<char> {
    let first = property_text("Reference"@, reference_of(c.prefix), 0, false) + property_text(
        "Value"@,
        name,
        1,
        false,
    ) + property_text("Footprint"@, footprint, 2, true) + property_text(
        "Datasheet"@,
        c.datasheet,
        3,
        true,
    ) + property_text("LCSC"@, c.lcsc, 4, true);
    if c.manufacturer.len() == 0 {
        first
    } else {
        first + property_text("Manufacturer"@, c.manufacturer, 5, true)
    }
}

/// One unit of a symbol. KiCad splits a symbol into a shared graphic unit
/// (`_0_1`) and one unit per gate (`_1_1`); LCSC parts are single-gate.
pub open spec fn unit_text(name: Seq<char>, suffix: Seq<char>, body: Seq<char>) -> Seq<char> {
    "    "@ + sexpr::form(
        "symbol "@ + sexpr::literal(name + suffix) + "\n"@ + body + "    "@,
    ) + "\n"@
}

/// The inside of the symbol form.
pub open spec fn symbol_inner(
    c: easyeda::ComponentView,
    footprint: Seq<char>,
    list: Seq<DrawnView>,
) -> Seq<char> {
    let name = online::sanitized(c.title);
    "symbol "@ + sexpr::literal(name) + " "@ + sexpr::entry(
        "pin_names"@,
        sexpr::form("offset 0.254"@),
    ) + " "@ + sexpr::form("in_bom yes"@) + " "@ + sexpr::form("on_board yes"@) + "\n"@
        + properties_of(c, name, footprint) + unit_text(name, "_0_1"@, graphics_of(list))
        + unit_text(name, "_1_1"@, pins_of(list)) + "  "@
}

pub open spec fn is_plain_piece(p: PieceView) -> bool {
    match p {
        PieceView::Line { from, to, joined } => sexpr::is_plain_pair(from) && sexpr::is_plain_pair(
            to,
        ),
        PieceView::Arc { from, mid, to } => sexpr::is_plain_pair(from) && sexpr::is_plain_pair(mid)
            && sexpr::is_plain_pair(to),
    }
}

/// The measures of a shape are plain: no parenthesis and no quote.
pub open spec fn is_measured(d: DrawnView) -> bool {
    match d {
        DrawnView::Rectangle { from, to, style } => sexpr::is_plain_pair(from)
            && sexpr::is_plain_pair(to) && sexpr::is_plain(style.stroke),
        DrawnView::Circle { at, radius, style } => sexpr::is_plain_pair(at) && sexpr::is_plain(
            radius,
        ) && sexpr::is_plain(style.stroke),
        DrawnView::Polyline { points, polygon, closed, style } => sexpr::is_plain(style.stroke)
            && forall|i: int| 0 <= i < points.len() ==> sexpr::is_plain_pair(#[trigger] points[i]),
        DrawnView::Path { pieces, style } => sexpr::is_plain(style.stroke) && forall|i: int|
            0 <= i < pieces.len() ==> is_plain_piece(#[trigger] pieces[i]),
        DrawnView::Pin { at, angle, length, label } => sexpr::is_plain_pair(at) && sexpr::is_plain(
            angle,
        ) && sexpr::is_plain(length),
    }
}

/// The shapes whose measures can be written. Any other is left out rather than
/// breaking the file.
pub open spec fn measured(list: Seq<DrawnView>) -> Seq<DrawnView>
    decreases list.len(),
{
    if list.len() == 0 {
        Seq::empty()
    } else if is_measured(list.last()) {
        measured(list.drop_last()).push(list.last())
    } else {
        measured(list.drop_last())
    }
}

/// A complete `.kicad_sym` containing this one component.
pub open spec fn converted(
    c: easyeda::ComponentView,
    footprint: Option<Seq<char>>,
    list: Seq<DrawnView>,
) -> Seq<char> {
    let f = match footprint {
        Some(t) => t,
        None => ""@,
    };
    symlib::DEFAULT_HEADER@ + "\n  "@ + sexpr::form(symbol_inner(c, f, measured(list)))
        + "\n)\n"@
}

fn strip_marks(s: &str) -> (r: String)
    ensures
        r@ == without_marks(s@),
{
    let chars = to_chars(s);
    let mut n: usize = chars.len();
    assert(chars@.take(n as int) =~= s@);
    while n > 0 && chars[n - 1] == '?'
        invariant
            n <= chars@.len(),
            without_marks(chars@.take(n as int)) == without_marks(s@),
        decreases n,
    {
        assert(chars@.take(n as int).drop_last() =~= chars@.take(n - 1));
        n -= 1;
    }
    assert(n > 0 ==> chars@.take(n as int).last() == chars@[n - 1]);
    assert(chars@.subrange(0, n as int) =~= chars@.take(n as int));
    slice(&chars, 0, n)
}

fn write_property(key: &str, value: &str, id: u128, hidden: bool) -> (r: String)
    ensures
        r@ == property_text(key@, value@, id as nat, hidden),
{
    let digits = number(id);
    let size = paren("size 1.27 1.27");
    let mut look = "effects ".to_string();
    look.append(one("font", size.as_str()).as_str());
    look.append(hide_word(hidden));
    let mut inner = "property ".to_string();
    inner.append(quote(key).as_str());
    inner.append(" ");
    inner.append(quote(value).as_str());
    inner.append(" ");
    inner.append(one("id", digits.as_str()).as_str());
    inner.append(" ");
    inner.append(paren("at 0 0 0").as_str());
    inner.append("\n      ");
    inner.append(paren(look.as_str()).as_str());
    inner.append("\n    ");
    let mut out = "    ".to_string();
    out.append(paren(inner.as_str()).as_str());
    out.append("\n");
    out
}

fn write_properties(c: &Component, name: &str, footprint: &str) -> (r: String)
    ensures
        r@ == properties_of(c@, name@, footprint@),
{
    let mut reference = strip_marks(c.prefix.as_str());
    if reference.as_str().is_empty() {
        reference = "U".to_string();
    }
    let mut out = write_property("Reference", reference.as_str(), 0, false);
    out.append(write_property("Value", name, 1, false).as_str());
    out.append(write_property("Footprint", footprint, 2, true).as_str());
    out.append(write_property("Datasheet", c.datasheet.as_str(), 3, true).as_str());
    out.append(write_property("LCSC", c.lcsc.as_str(), 4, true).as_str());
    if !c.manufacturer.as_str().is_empty() {
        out.append(write_property("Manufacturer", c.manufacturer.as_str(), 5, true).as_str());
    }
    out
}

fn write_unit(name: &str, suffix: &str, body: &str) -> (r: String)
    ensures
        r@ == unit_text(name@, suffix@, body@),
{
    let mut whole = name.to_string();
    whole.append(suffix);
    let mut inner = "symbol ".to_string();
    inner.append(quote(whole.as_str()).as_str());
    inner.append("\n");
    inner.append(body);
    inner.append("    ");
    let mut out = "    ".to_string();
    out.append(paren(inner.as_str()).as_str());
    out.append("\n");
    out
}

pub(crate) fn plain_pieces(list: &Vec<Piece>) -> (r: bool)
    ensures
        r == (forall|i: int|
            0 <= i < piece_views(list@).len() ==> is_plain_piece(
                #[trigger] piece_views(list@)[i],
            )),
{
    let ghost all = piece_views(list@);
    let mut i: usize = 0;
    while i < list.len()
        invariant
            i <= list@.len(),
            all == piece_views(list@),
            forall|j: int| 0 <= j < i ==> is_plain_piece(#[trigger] all[j]),
        decreases list.len() - i,
    {
        assert(all[i as int] == list@[i as int]@);
        let fits = match &list[i] {
            Piece::Line { from, to, joined: _ } => plain_pair(from) && plain_pair(to),
            Piece::Arc { from, mid, to } => plain_pair(from) && plain_pair(mid) && plain_pair(to),
        };
        if !fits {
            assert(!is_plain_piece(piece_views(list@)[i as int]));
            return false;
        }
        i += 1;
    }
    true
}

fn can_be_written(d: &Drawn) -> (r: bool)
    ensures
        r == is_measured(d@),
{
    let r = match d {
        Drawn::Rectangle { from, to, style } => plain_pair(from) && plain_pair(to) && plain(
            style.stroke.as_str(),
        ),
        Drawn::Circle { at, radius, style } => plain_pair(at) && plain(radius.as_str()) && plain(
            style.stroke.as_str(),
        ),
        Drawn::Polyline { points, polygon: _, closed: _, style } => plain(style.stroke.as_str())
            && plain_pairs(points),
        Drawn::Path { pieces, style } => plain(style.stroke.as_str()) && plain_pieces(pieces),
        Drawn::Pin { at, angle, length, label: _ } => plain_pair(at) && plain(angle.as_str())
            && plain(length.as_str()),
    };
    assert(r == is_measured(d@)) by {
        match d@ {
            DrawnView::Rectangle { from, to, style } => {},
            DrawnView::Circle { at, radius, style } => {},
            DrawnView::Polyline { points, polygon, closed, style } => {},
            DrawnView::Path { pieces, style } => {},
            DrawnView::Pin { at, angle, length, label } => {},
        }
    }
    r
}

/// Renders a complete `.kicad_sym` containing this one component. A shape whose
/// measures are no numbers is left out.
pub fn convert(component: &Component, footprint_ref: Option<&str>, shapes: &Vec<Drawn>) -> (r:
    String)
    ensures
        r@ == converted(
            component@,
            match footprint_ref {
                Some(t) => Some(t@),
                None => None,
            },
            drawn_views(shapes@),
        ),
{
    let name = sanitize(component.title.as_str());
    let ghost all = drawn_views(shapes@);
    let mut graphics = String::new();
    let mut pins = String::new();
    let mut i: usize = 0;
    assert(all.take(0) =~= Seq::<DrawnView>::empty());
    while i < shapes.len()
        invariant
            i <= shapes@.len(),
            all == drawn_views(shapes@),
            graphics@ == graphics_of(measured(all.take(i as int))),
            pins@ == pins_of(measured(all.take(i as int))),
        decreases shapes.len() - i,
    {
        assert(all.take(i + 1).drop_last() =~= all.take(i as int));
        assert(all.take(i + 1).last() == shapes@[i as int]@);
        if can_be_written(&shapes[i]) {
            let ghost before = measured(all.take(i as int));
            assert(before.push(shapes@[i as int]@).drop_last() =~= before);
            graphics.append(write_graphic(&shapes[i]).as_str());
            pins.append(write_drawn_pin(&shapes[i]).as_str());
        }
        i += 1;
    }
    assert(all.take(i as int) =~= all);
    let footprint = match footprint_ref {
        Some(t) => t,
        None => "",
    };
    let offset = paren("offset 0.254");
    let mut inner = "symbol ".to_string();
    inner.append(quote(name.as_str()).as_str());
    inner.append(" ");
    inner.append(one("pin_names", offset.as_str()).as_str());
    inner.append(" ");
    inner.append(paren("in_bom yes").as_str());
    inner.append(" ");
    inner.append(paren("on_board yes").as_str());
    inner.append("\n");
    inner.append(write_properties(component, name.as_str(), footprint).as_str());
    inner.append(write_unit(name.as_str(), "_0_1", graphics.as_str()).as_str());
    inner.append(write_unit(name.as_str(), "_1_1", pins.as_str()).as_str());
    inner.append("  ");
    let mut out = symlib::DEFAULT_HEADER.to_string();
    out.append("\n  ");
    out.append(paren(inner.as_str()).as_str());
    out.append("\n)\n");
    out
}

// -------------------------------------------------------------------- laws

proof fn lemma_shape_words()
    ensures
        sexpr::is_level("        "@),
        sexpr::is_level("stroke "@),
        sexpr::is_level("width"@),
        sexpr::is_level(" "@),
        sexpr::is_level("type default"@),
        sexpr::is_level("\n        "@),
        sexpr::is_level("fill "@),
        sexpr::is_level("type"@),
        sexpr::is_level("none"@),
        sexpr::is_level("background"@),
        sexpr::is_level("\n"@),
        sexpr::is_level("      "@),
        sexpr::is_level("polyline\n        "@),
        sexpr::is_level("pts"@),
        sexpr::is_level("arc "@),
        sexpr::is_level("start"@),
        sexpr::is_level("mid"@),
        sexpr::is_level("end"@),
        sexpr::is_level("rectangle "@),
        sexpr::is_level("circle "@),
        sexpr::is_level("center"@),
        sexpr::is_level("radius"@),
{
    reveal_with_fuel(sexpr::inert_upto, 20);
    reveal_strlit("        ");
    reveal_strlit("stroke ");
    reveal_strlit("width");
    reveal_strlit(" ");
    reveal_strlit("type default");
    reveal_strlit("\n        ");
    reveal_strlit("fill ");
    reveal_strlit("type");
    reveal_strlit("none");
    reveal_strlit("background");
    reveal_strlit("\n");
    reveal_strlit("      ");
    reveal_strlit("polyline\n        ");
    reveal_strlit("pts");
    reveal_strlit("arc ");
    reveal_strlit("start");
    reveal_strlit("mid");
    reveal_strlit("end");
    reveal_strlit("rectangle ");
    reveal_strlit("circle ");
    reveal_strlit("center");
    reveal_strlit("radius");
    sexpr::lemma_level_word("        "@);
    sexpr::lemma_level_word("stroke "@);
    sexpr::lemma_level_word("width"@);
    sexpr::lemma_level_word(" "@);
    sexpr::lemma_level_word("type default"@);
    sexpr::lemma_level_word("\n        "@);
    sexpr::lemma_level_word("fill "@);
    sexpr::lemma_level_word("type"@);
    sexpr::lemma_level_word("none"@);
    sexpr::lemma_level_word("background"@);
    sexpr::lemma_level_word("\n"@);
    sexpr::lemma_level_word("      "@);
    sexpr::lemma_level_word("polyline\n        "@);
    sexpr::lemma_level_word("pts"@);
    sexpr::lemma_level_word("arc "@);
    sexpr::lemma_level_word("start"@);
    sexpr::lemma_level_word("mid"@);
    sexpr::lemma_level_word("end"@);
    sexpr::lemma_level_word("rectangle "@);
    sexpr::lemma_level_word("circle "@);
    sexpr::lemma_level_word("center"@);
    sexpr::lemma_level_word("radius"@);
}

proof fn lemma_shape_level(head: Seq<char>, style: StyleView)
    requires
        sexpr::is_level(head),
        sexpr::is_plain(style.stroke),
    ensures
        sexpr::is_level(shape_text(head, style)),
{
    broadcast use sexpr::group_level;

    lemma_shape_words();
    sexpr::lemma_plain_level(style.stroke);
}

proof fn lemma_polyline_level(points: Seq<(Seq<char>, Seq<char>)>, style: StyleView)
    requires
        forall|i: int| 0 <= i < points.len() ==> sexpr::is_plain_pair(#[trigger] points[i]),
        sexpr::is_plain(style.stroke),
    ensures
        sexpr::is_level(polyline_text(points, style)),
{
    broadcast use sexpr::group_level;

    lemma_shape_words();
    assert forall|i: int| 0 <= i < points.len() implies sexpr::is_plain((#[trigger] points[i]).0)
        && sexpr::is_plain(points[i].1) by {
        assert(sexpr::is_plain_pair(points[i]));
    }
    sexpr::lemma_level_spots(points);
    lemma_shape_level(
        "polyline\n        "@ + sexpr::entry("pts"@, sexpr::spots(points)),
        style,
    );
}

proof fn lemma_spot_level(word: Seq<char>, at: (Seq<char>, Seq<char>))
    requires
        sexpr::is_level(word),
        sexpr::is_plain_pair(at),
    ensures
        sexpr::is_level(sexpr::spot(word, at)),
{
    broadcast use sexpr::group_level;

    lemma_shape_words();
    sexpr::lemma_plain_level(at.0);
    sexpr::lemma_plain_level(at.1);
}

proof fn lemma_traced_level(pieces: Seq<PieceView>, style: StyleView, n: int)
    requires
        0 <= n <= pieces.len(),
        sexpr::is_plain(style.stroke),
        forall|i: int| 0 <= i < pieces.len() ==> is_plain_piece(#[trigger] pieces[i]),
    ensures
        sexpr::is_level(traced(pieces, style, n).0),
        sexpr::is_level(flushed(traced(pieces, style, n).0, traced(pieces, style, n).1, style)),
        forall|i: int|
            0 <= i < traced(pieces, style, n).1.len() ==> sexpr::is_plain_pair(
                #[trigger] traced(pieces, style, n).1[i],
            ),
    decreases n,
{
    sexpr::lemma_level_empty();
    if n > 0 {
        lemma_traced_level(pieces, style, n - 1);
        let (out, run) = traced(pieces, style, n - 1);
        let (now, open) = traced(pieces, style, n);
        assert(is_plain_piece(pieces[n - 1]));
        match pieces[n - 1] {
            PieceView::Line { from, to, joined } => {
                assert forall|i: int| 0 <= i < open.len() implies sexpr::is_plain_pair(
                    #[trigger] open[i],
                ) by {
                    if run.len() > 0 && joined && i < run.len() {
                        assert(open[i] == run[i]);
                    }
                }
            },
            PieceView::Arc { from, mid, to } => {
                lemma_shape_words();
                lemma_spot_level("start"@, from);
                lemma_spot_level("mid"@, mid);
                lemma_spot_level("end"@, to);
                assert(sexpr::is_level(arc_text(from, mid, to, style))) by {
                    broadcast use sexpr::group_level;

                    lemma_shape_level(
                        "arc "@ + sexpr::spot("start"@, from) + " "@ + sexpr::spot("mid"@, mid)
                            + " "@ + sexpr::spot("end"@, to),
                        style,
                    );
                }
                sexpr::lemma_level_add(
                    flushed(out, run, style),
                    arc_text(from, mid, to, style),
                );
            },
        }
        if open.len() >= 2 {
            lemma_polyline_level(open, style);
            sexpr::lemma_level_add(now, polyline_text(open, style));
        }
    }
}

proof fn lemma_graphic_level(d: DrawnView)
    requires
        is_measured(d),
    ensures
        sexpr::is_level(graphic_of(d)),
{
    lemma_shape_words();
    sexpr::lemma_level_empty();
    match d {
        DrawnView::Rectangle { from, to, style } => {
            broadcast use sexpr::group_level;

            lemma_spot_level("start"@, from);
            lemma_spot_level("end"@, to);
            lemma_shape_level(
                "rectangle "@ + sexpr::spot("start"@, from) + " "@ + sexpr::spot("end"@, to),
                style,
            );
        },
        DrawnView::Circle { at, radius, style } => {
            broadcast use sexpr::group_level;

            lemma_spot_level("center"@, at);
            sexpr::lemma_plain_level(radius);
            lemma_shape_level(
                "circle "@ + sexpr::spot("center"@, at) + " "@ + sexpr::entry(
                    "radius"@,
                    radius,
                ),
                style,
            );
        },
        DrawnView::Polyline { points, polygon, closed, style } => {
            if points.len() >= 2 {
                let all = ring(points, polygon, closed);
                assert forall|i: int| 0 <= i < all.len() implies sexpr::is_plain_pair(
                    #[trigger] all[i],
                ) by {
                    if i < points.len() {
                        assert(all[i] == points[i]);
                    } else {
                        assert(all[i] == points[0]);
                    }
                }
                lemma_polyline_level(all, style);
            }
        },
        DrawnView::Path { pieces, style } => {
            lemma_traced_level(pieces, style, pieces.len() as int);
        },
        DrawnView::Pin { at, angle, length, label } => {},
    }
}

proof fn lemma_pin_words()
    ensures
        sexpr::is_level("pin "@),
        sexpr::is_level("input"@),
        sexpr::is_level("output"@),
        sexpr::is_level("bidirectional"@),
        sexpr::is_level("power_in"@),
        sexpr::is_level("unspecified"@),
        sexpr::is_level("inverted_clock"@),
        sexpr::is_level("inverted"@),
        sexpr::is_level("clock"@),
        sexpr::is_level("line"@),
        sexpr::is_level("at "@),
        sexpr::is_level("length"@),
        sexpr::is_level(" hide"@),
        sexpr::is_level(""@),
        sexpr::is_level("name"@),
        sexpr::is_level("number"@),
        sexpr::is_level("\n      "@),
        sexpr::is_level("effects"@),
        sexpr::is_level("font"@),
        sexpr::is_level("size 1.27 1.27"@),
{
    reveal_with_fuel(sexpr::inert_upto, 16);
    reveal_strlit("pin ");
    reveal_strlit("input");
    reveal_strlit("output");
    reveal_strlit("bidirectional");
    reveal_strlit("power_in");
    reveal_strlit("unspecified");
    reveal_strlit("inverted_clock");
    reveal_strlit("inverted");
    reveal_strlit("clock");
    reveal_strlit("line");
    reveal_strlit("at ");
    reveal_strlit("length");
    reveal_strlit(" hide");
    reveal_strlit("");
    reveal_strlit("name");
    reveal_strlit("number");
    reveal_strlit("\n      ");
    reveal_strlit("effects");
    reveal_strlit("font");
    reveal_strlit("size 1.27 1.27");
    sexpr::lemma_level_word("pin "@);
    sexpr::lemma_level_word("input"@);
    sexpr::lemma_level_word("output"@);
    sexpr::lemma_level_word("bidirectional"@);
    sexpr::lemma_level_word("power_in"@);
    sexpr::lemma_level_word("unspecified"@);
    sexpr::lemma_level_word("inverted_clock"@);
    sexpr::lemma_level_word("inverted"@);
    sexpr::lemma_level_word("clock"@);
    sexpr::lemma_level_word("line"@);
    sexpr::lemma_level_word("at "@);
    sexpr::lemma_level_word("length"@);
    sexpr::lemma_level_word(" hide"@);
    sexpr::lemma_level_word(""@);
    sexpr::lemma_level_word("name"@);
    sexpr::lemma_level_word("number"@);
    sexpr::lemma_level_word("\n      "@);
    sexpr::lemma_level_word("effects"@);
    sexpr::lemma_level_word("font"@);
    sexpr::lemma_level_word("size 1.27 1.27"@);
}

proof fn lemma_pin_level(d: DrawnView)
    requires
        is_measured(d),
    ensures
        sexpr::is_level(pin_drawn(d)),
{
    sexpr::lemma_level_empty();
    if let DrawnView::Pin { at, angle, length, label } = d {
        broadcast use sexpr::group_level;

        lemma_shape_words();
        lemma_pin_words();
        sexpr::lemma_plain_level(at.0);
        sexpr::lemma_plain_level(at.1);
        sexpr::lemma_plain_level(angle);
        sexpr::lemma_plain_level(length);
        assert(sexpr::is_level(effects()));
        assert(sexpr::is_level(tag("name"@, label.name)));
        assert(sexpr::is_level(tag("number"@, label.number)));
    }
}

proof fn lemma_bodies_level(list: Seq<DrawnView>)
    requires
        forall|i: int| 0 <= i < list.len() ==> is_measured(#[trigger] list[i]),
    ensures
        sexpr::is_level(graphics_of(list)),
        sexpr::is_level(pins_of(list)),
    decreases list.len(),
{
    sexpr::lemma_level_empty();
    if list.len() > 0 {
        let init = list.drop_last();
        assert(forall|i: int| 0 <= i < init.len() ==> init[i] == list[i]);
        lemma_bodies_level(init);
        assert(is_measured(list[list.len() - 1]));
        lemma_graphic_level(list.last());
        lemma_pin_level(list.last());
        sexpr::lemma_level_add(graphics_of(init), graphic_of(list.last()));
        sexpr::lemma_level_add(pins_of(init), pin_drawn(list.last()));
    }
}

proof fn lemma_library_words()
    ensures
        sexpr::is_level("    "@),
        sexpr::is_level("property "@),
        sexpr::is_level("id"@),
        sexpr::is_level("at 0 0 0"@),
        sexpr::is_level("effects "@),
        sexpr::is_level("\n    "@),
        sexpr::is_level("symbol "@),
        sexpr::is_level("pin_names"@),
        sexpr::is_level("offset 0.254"@),
        sexpr::is_level("in_bom yes"@),
        sexpr::is_level("on_board yes"@),
        sexpr::is_level("  "@),
{
    reveal_with_fuel(sexpr::inert_upto, 16);
    reveal_strlit("    ");
    reveal_strlit("property ");
    reveal_strlit("id");
    reveal_strlit("at 0 0 0");
    reveal_strlit("effects ");
    reveal_strlit("\n    ");
    reveal_strlit("symbol ");
    reveal_strlit("pin_names");
    reveal_strlit("offset 0.254");
    reveal_strlit("in_bom yes");
    reveal_strlit("on_board yes");
    reveal_strlit("  ");
    sexpr::lemma_level_word("    "@);
    sexpr::lemma_level_word("property "@);
    sexpr::lemma_level_word("id"@);
    sexpr::lemma_level_word("at 0 0 0"@);
    sexpr::lemma_level_word("effects "@);
    sexpr::lemma_level_word("\n    "@);
    sexpr::lemma_level_word("symbol "@);
    sexpr::lemma_level_word("pin_names"@);
    sexpr::lemma_level_word("offset 0.254"@);
    sexpr::lemma_level_word("in_bom yes"@);
    sexpr::lemma_level_word("on_board yes"@);
    sexpr::lemma_level_word("  "@);
}

proof fn lemma_property_level(key: Seq<char>, value: Seq<char>, id: nat, hidden: bool)
    ensures
        sexpr::is_level(property_text(key, value, id, hidden)),
{
    broadcast use sexpr::group_level;

    lemma_shape_words();
    lemma_pin_words();
    lemma_library_words();
    sexpr::lemma_level_decimal(id);
}

proof fn lemma_unit_level(name: Seq<char>, suffix: Seq<char>, body: Seq<char>)
    requires
        sexpr::is_level(body),
    ensures
        sexpr::is_level(unit_text(name, suffix, body)),
{
    broadcast use sexpr::group_level;

    lemma_shape_words();
    lemma_library_words();
}

proof fn lemma_inner_level(
    c: easyeda::ComponentView,
    footprint: Seq<char>,
    list: Seq<DrawnView>,
)
    requires
        forall|i: int| 0 <= i < list.len() ==> is_measured(#[trigger] list[i]),
    ensures
        sexpr::is_level(symbol_inner(c, footprint, list)),
{
    let name = online::sanitized(c.title);
    lemma_bodies_level(list);
    lemma_unit_level(name, "_0_1"@, graphics_of(list));
    lemma_unit_level(name, "_1_1"@, pins_of(list));
    lemma_property_level("Reference"@, reference_of(c.prefix), 0, false);
    lemma_property_level("Value"@, name, 1, false);
    lemma_property_level("Footprint"@, footprint, 2, true);
    lemma_property_level("Datasheet"@, c.datasheet, 3, true);
    lemma_property_level("LCSC"@, c.lcsc, 4, true);
    lemma_property_level("Manufacturer"@, c.manufacturer, 5, true);
    lemma_shape_words();
    lemma_library_words();
    assert(sexpr::is_level(properties_of(c, name, footprint))) by {
        broadcast use sexpr::group_level;

    }
    broadcast use sexpr::group_level;

}

proof fn lemma_shift(p: Seq<char>, a: Seq<char>, b: Seq<char>)
    ensures
        p + a + b == p + (a + b),
{
    assert(p + a + b =~= p + (a + b));
}

/// What a symbol holds after its name.
proof fn lemma_inner_starts(
    c: easyeda::ComponentView,
    footprint: Seq<char>,
    list: Seq<DrawnView>,
) -> (rest: Seq<char>)
    ensures
        symbol_inner(c, footprint, list) == "symbol "@ + sexpr::literal(online::sanitized(c.title))
            + rest,
{
    let name = online::sanitized(c.title);
    let p = "symbol "@ + sexpr::literal(name);
    let x1 = " "@;
    let x2 = sexpr::entry("pin_names"@, sexpr::form("offset 0.254"@));
    let x3 = sexpr::form("in_bom yes"@);
    let x4 = sexpr::form("on_board yes"@);
    let x5 = properties_of(c, name, footprint);
    let x6 = unit_text(name, "_0_1"@, graphics_of(list));
    let x7 = unit_text(name, "_1_1"@, pins_of(list));
    let a2 = x1 + x2;
    lemma_shift(p, x1, x2);
    lemma_shift(p, a2, " "@);
    lemma_shift(p, a2 + " "@, x3);
    lemma_shift(p, a2 + " "@ + x3, " "@);
    lemma_shift(p, a2 + " "@ + x3 + " "@, x4);
    let a4 = a2 + " "@ + x3 + " "@ + x4;
    lemma_shift(p, a4, "\n"@);
    lemma_shift(p, a4 + "\n"@, x5);
    lemma_shift(p, a4 + "\n"@ + x5, x6);
    lemma_shift(p, a4 + "\n"@ + x5 + x6, x7);
    lemma_shift(p, a4 + "\n"@ + x5 + x6 + x7, "  "@);
    a4 + "\n"@ + x5 + x6 + x7 + "  "@
}

/// A symbol form is read as a symbol of the name it starts with.
proof fn lemma_named(name: Seq<char>, rest: Seq<char>)
    ensures
        symlib::is_symbol(sexpr::form("symbol "@ + sexpr::literal(name) + rest)),
        symlib::name_of(sexpr::form("symbol "@ + sexpr::literal(name) + rest)) == Some(name),
{
    let block = sexpr::form("symbol "@ + sexpr::literal(name) + rest);
    let after = online::escaped(name) + seq!['"'] + (rest + seq![')']);
    reveal_strlit("symbol ");
    assert(block =~= seq!['(', 's', 'y', 'm', 'b', 'o', 'l', ' ', '"'] + after);
    online::lemma_escaped_read_back(name, rest + seq![')']);
    lemma_first_name(block, after);
    lemma_head(block);
}

/// A library of one symbol, as it is written.
proof fn lemma_one_written(header: Seq<char>, name: Seq<char>, block: Seq<char>)
    requires
        block.len() > 0,
        block.last() == ')',
    ensures
        symlib::rendered(
            (symlib::LibView { header, symbols: seq![symlib::BlockView { name, text: block }] }),
        ) == header + "\n  "@ + block + "\n)\n"@,
{
    let symbols = seq![symlib::BlockView { name, text: block }];
    assert(symbols.drop_last() =~= Seq::<symlib::BlockView>::empty());
    assert(text::trim_end(block) == block);
    reveal_strlit("  ");
    reveal_strlit(")\n");
    reveal_strlit("\n  ");
    reveal_strlit("\n)\n");
    reveal_with_fuel(symlib::lines, 2);
    assert(symlib::lines(symbols) =~= "  "@ + block + seq!['\n']);
    assert(symlib::rendered((symlib::LibView { header, symbols })) =~= header + "\n  "@ + block
        + "\n)\n"@);
}

proof fn lemma_measured(list: Seq<DrawnView>)
    ensures
        forall|i: int| 0 <= i < measured(list).len() ==> is_measured(#[trigger] measured(list)[i]),
        (forall|i: int| 0 <= i < list.len() ==> is_measured(#[trigger] list[i])) ==> measured(list)
            == list,
    decreases list.len(),
{
    if list.len() > 0 {
        let init = list.drop_last();
        lemma_measured(init);
        assert forall|i: int| 0 <= i < measured(list).len() implies is_measured(
            #[trigger] measured(list)[i],
        ) by {
            if i < measured(init).len() {
                assert(measured(list)[i] == measured(init)[i]);
            }
        }
        assert(list =~= init.push(list.last()));
        if forall|i: int| 0 <= i < list.len() ==> is_measured(#[trigger] list[i]) {
            assert(forall|i: int| 0 <= i < init.len() ==> init[i] == list[i]);
            assert(is_measured(list[list.len() - 1]));
        }
    }
}

/// A converted component is a library that holds exactly one symbol, under the
/// component's sanitized title, whatever its texts and its measures hold. With
/// plain measures no shape is left out.
pub proof fn lemma_loadable(
    c: easyeda::ComponentView,
    footprint: Option<Seq<char>>,
    list: Seq<DrawnView>,
)
    ensures
        (forall|i: int| 0 <= i < list.len() ==> is_measured(#[trigger] list[i])) ==> measured(list)
            == list,
        match symlib::parsed(converted(c, footprint, list)) {
            Ok(lib) => lib.symbols.len() == 1 && lib.symbols[0].name == online::sanitized(c.title)
                && lib.header == symlib::DEFAULT_HEADER@,
            Err(_) => false,
        },
{
    let f = match footprint {
        Some(t) => t,
        None => ""@,
    };
    let kept = measured(list);
    lemma_measured(list);
    let inner = symbol_inner(c, f, kept);
    let name = online::sanitized(c.title);
    lemma_inner_level(c, f, kept);
    sexpr::lemma_form_block(inner);
    let rest = lemma_inner_starts(c, f, kept);
    lemma_named(name, rest);
    lemma_one_loads(name, sexpr::form(inner));
}

proof fn lemma_one_loads(name: Seq<char>, block: Seq<char>)
    requires
        symlib::is_block(block),
        symlib::is_symbol(block),
        symlib::name_of(block) == Some(name),
        block.len() > 0,
        block.last() == ')',
    ensures
        match symlib::parsed(symlib::DEFAULT_HEADER@ + "\n  "@ + block + "\n)\n"@) {
            Ok(lib) => lib.symbols.len() == 1 && lib.symbols[0].name == name && lib.header
                == symlib::DEFAULT_HEADER@,
            Err(_) => false,
        },
{
    let lib = symlib::LibView {
        header: symlib::DEFAULT_HEADER@,
        symbols: seq![symlib::BlockView { name, text: block }],
    };
    symlib::lemma_blank_sound();
    assert(symlib::is_sound_block(lib.symbols[0]));
    assert(symlib::is_sound(lib));
    symlib::lemma_round_trip(lib);
    lemma_one_written(lib.header, name, block);
}

proof fn lemma_first_name(block: Seq<char>, after: Seq<char>)
    requires
        block == seq!['(', 's', 'y', 'm', 'b', 'o', 'l', ' ', '"'] + after,
    ensures
        symlib::name_of(block) == symlib::quoted_text(after),
{
    let b1 = block.drop_first();
    let b2 = b1.drop_first();
    let b3 = b2.drop_first();
    let b4 = b3.drop_first();
    let b5 = b4.drop_first();
    let b6 = b5.drop_first();
    let b7 = b6.drop_first();
    let b8 = b7.drop_first();
    assert(symlib::name_of(block) == symlib::name_of(b1));
    assert(symlib::name_of(b1) == symlib::name_of(b2));
    assert(symlib::name_of(b2) == symlib::name_of(b3));
    assert(symlib::name_of(b3) == symlib::name_of(b4));
    assert(symlib::name_of(b4) == symlib::name_of(b5));
    assert(symlib::name_of(b5) == symlib::name_of(b6));
    assert(symlib::name_of(b6) == symlib::name_of(b7));
    assert(symlib::name_of(b7) == symlib::name_of(b8));
    assert(b8.drop_first() =~= after);
}

proof fn lemma_head(block: Seq<char>)
    requires
        block.len() > 8,
        block[0] == '(',
        block[1] == 's',
        block[2] == 'y',
        block[3] == 'm',
        block[4] == 'b',
        block[5] == 'o',
        block[6] == 'l',
        block[7] == ' ',
    ensures
        symlib::is_symbol(block),
{
    let a = block.drop_first();
    assert(text::trim_start(a) == a);
    let a1 = a.drop_first();
    let a2 = a1.drop_first();
    let a3 = a2.drop_first();
    let a4 = a3.drop_first();
    let a5 = a4.drop_first();
    let a6 = a5.drop_first();
    assert(symlib::atom(a6) =~= Seq::<char>::empty());
    assert(symlib::atom(a5) =~= seq!['l']);
    assert(symlib::atom(a4) =~= seq!['o', 'l']);
    assert(symlib::atom(a3) =~= seq!['b', 'o', 'l']);
    assert(symlib::atom(a2) =~= seq!['m', 'b', 'o', 'l']);
    assert(symlib::atom(a1) =~= seq!['y', 'm', 'b', 'o', 'l']);
    assert(symlib::atom(a) =~= seq!['s', 'y', 'm', 'b', 'o', 'l']);
    reveal_strlit("symbol");
    assert("symbol"@ =~= seq!['s', 'y', 'm', 'b', 'o', 'l']);
}

} // verus!
