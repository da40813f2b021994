//! EasyEDA package shapes -> a `.kicad_mod` footprint.
//!
//! As on the symbol side a shape is read from its record, measured, and written
//! as a form, and numbers stay the texts they are written in.

use vstd::prelude::*;
use vstd::string::*;

use crate::json;
use crate::online::easyeda;
use crate::online::easyeda::{Component, Record};
use crate::online::svgpath;
use crate::online::svgpath::{parse_path, parse_points, Step};
use crate::online::symbol;
use crate::online::symbol::{plain_pieces, Piece};
use crate::sexpr;
use crate::sexpr::{one, paren, place, places, plain, plain_pair, plain_pairs, quote};
use crate::symlib;
use crate::text;
use crate::text::{eq_ignore_ascii_case, has_prefix, pieces, same, slice, to_chars, to_uppercase};

verus! {

/// KiCad footprint file format version this writes.
pub const FORMAT_VERSION: &'static str = "20221018";

// ------------------------------------------------------------------ reading

/// The outline of a pad. KiCad custom pads need a full primitive list; a
/// polygon's bounding rectangle keeps the copper right even if the outline is
/// simplified.
pub enum Outline {
    Ellipse,
    Oval,
    Rect,
}

/// What a pad says about itself.
pub struct PadLabel {
    pub outline: Outline,
    pub layer: String,
    pub number: String,
    pub plated: bool,
}

/// A package shape as its record gives it.
pub enum Shape {
    Pad {
        x: String,
        y: String,
        width: String,
        height: String,
        hole_radius: String,
        hole_length: String,
        rotation: String,
        label: PadLabel,
    },
    Track { stroke: String, layer: String, points: Vec<(String, String)> },
    Circle { x: String, y: String, radius: String, stroke: String, layer: String },
    Arc { stroke: String, layer: String, steps: Vec<Step> },
    Rect { x: String, y: String, width: String, height: String, layer: String },
    Region { layer: String, steps: Vec<Step>, cutout: bool },
    Hole { x: String, y: String, radius: String },
    Via { x: String, y: String, diameter: String, hole_radius: String },
    Other,
}

#[verifier::ext_equal]
pub struct PadLabelView {
    pub outline: Outline,
    pub layer: Seq<char>,
    pub number: Seq<char>,
    pub plated: bool,
}

pub enum ShapeView {
    Pad {
        x: Seq<char>,
        y: Seq<char>,
        width: Seq<char>,
        height: Seq<char>,
        hole_radius: Seq<char>,
        hole_length: Seq<char>,
        rotation: Seq<char>,
        label: PadLabelView,
    },
    Track { stroke: Seq<char>, layer: Seq<char>, points: Seq<(Seq<char>, Seq<char>)> },
    Circle { x: Seq<char>, y: Seq<char>, radius: Seq<char>, stroke: Seq<char>, layer: Seq<char> },
    Arc { stroke: Seq<char>, layer: Seq<char>, steps: Seq<svgpath::StepView> },
    Rect { x: Seq<char>, y: Seq<char>, width: Seq<char>, height: Seq<char>, layer: Seq<char> },
    Region { layer: Seq<char>, steps: Seq<svgpath::StepView>, cutout: bool },
    Hole { x: Seq<char>, y: Seq<char>, radius: Seq<char> },
    Via { x: Seq<char>, y: Seq<char>, diameter: Seq<char>, hole_radius: Seq<char> },
    Other,
}

impl View for PadLabel {
    type V = PadLabelView;

    open spec fn view(&self) -> PadLabelView {
        PadLabelView {
            outline: self.outline,
            layer: self.layer@,
            number: self.number@,
            plated: self.plated,
        }
    }
}

impl View for Shape {
    type V = ShapeView;

    open spec fn view(&self) -> ShapeView {
        match *self {
            Shape::Pad { x, y, width, height, hole_radius, hole_length, rotation, label } =>
            ShapeView::Pad {
                x: x@,
                y: y@,
                width: width@,
                height: height@,
                hole_radius: hole_radius@,
                hole_length: hole_length@,
                rotation: rotation@,
                label: label@,
            },
            Shape::Track { stroke, layer, points } => ShapeView::Track {
                stroke: stroke@,
                layer: layer@,
                points: svgpath::pair_views(points@),
            },
            Shape::Circle { x, y, radius, stroke, layer } => ShapeView::Circle {
                x: x@,
                y: y@,
                radius: radius@,
                stroke: stroke@,
                layer: layer@,
            },
            Shape::Arc { stroke, layer, steps } => ShapeView::Arc {
                stroke: stroke@,
                layer: layer@,
                steps: svgpath::step_views(steps@),
            },
            Shape::Rect { x, y, width, height, layer } => ShapeView::Rect {
                x: x@,
                y: y@,
                width: width@,
                height: height@,
                layer: layer@,
            },
            Shape::Region { layer, steps, cutout } => ShapeView::Region {
                layer: layer@,
                steps: svgpath::step_views(steps@),
                cutout,
            },
            Shape::Hole { x, y, radius } => ShapeView::Hole { x: x@, y: y@, radius: radius@ },
            Shape::Via { x, y, diameter, hole_radius } => ShapeView::Via {
                x: x@,
                y: y@,
                diameter: diameter@,
                hole_radius: hole_radius@,
            },
            Shape::Other => ShapeView::Other,
        }
    }
}

pub open spec fn outline_of(word: Seq<char>) -> Outline {
    let w = text::upper(word);
    if w == "ELLIPSE"@ {
        Outline::Ellipse
    } else if w == "OVAL"@ {
        Outline::Oval
    } else {
        Outline::Rect
    }
}

/// The pad a record describes.
pub open spec fn pad_of(r: Seq<Seq<char>>) -> ShapeView {
    // PAD~shape~cx~cy~w~h~layer~net~number~holeR~points~rot~id~holeLen~holePt~plated
    ShapeView::Pad {
        x: easyeda::number_or_zero(r, 2),
        y: easyeda::number_or_zero(r, 3),
        width: easyeda::number_or_zero(r, 4),
        height: easyeda::number_or_zero(r, 5),
        hole_radius: easyeda::number_or_zero(r, 9),
        hole_length: easyeda::number_or_zero(r, 13),
        rotation: easyeda::number_or_zero(r, 11),
        label: PadLabelView {
            outline: outline_of(easyeda::field(r, 1)),
            layer: easyeda::field(r, 6),
            number: easyeda::field(r, 8),
            plated: !text::same_letters(easyeda::field(r, 15), "N"@),
        },
    }
}

/// The shape a record describes.
pub open spec fn shape_of(s: Seq<char>) -> ShapeView {
    let r = easyeda::record_of(s);
    let kind = easyeda::field(r, 0);
    if kind == "PAD"@ {
        pad_of(r)
    } else if kind == "TRACK"@ {
        // TRACK~strokeWidth~layer~net~points~id~locked
        ShapeView::Track {
            stroke: easyeda::number_or_zero(r, 1),
            layer: easyeda::field(r, 2),
            points: svgpath::points_of(easyeda::field(r, 4)),
        }
    } else if kind == "CIRCLE"@ {
        // CIRCLE~cx~cy~radius~strokeWidth~layer~id~locked
        ShapeView::Circle {
            x: easyeda::number_or_zero(r, 1),
            y: easyeda::number_or_zero(r, 2),
            radius: easyeda::number_or_zero(r, 3),
            stroke: easyeda::number_or_zero(r, 4),
            layer: easyeda::field(r, 5),
        }
    } else if kind == "ARC"@ {
        // ARC~strokeWidth~layer~net~path~helperDots~id~locked
        ShapeView::Arc {
            stroke: easyeda::number_or_zero(r, 1),
            layer: easyeda::field(r, 2),
            steps: svgpath::steps_of(easyeda::field(r, 4)),
        }
    } else if kind == "RECT"@ {
        // RECT~x~y~width~height~layer~id~…
        ShapeView::Rect {
            x: easyeda::number_or_zero(r, 1),
            y: easyeda::number_or_zero(r, 2),
            width: easyeda::number_or_zero(r, 3),
            height: easyeda::number_or_zero(r, 4),
            layer: easyeda::field(r, 5),
        }
    } else if kind == "SOLIDREGION"@ {
        // SOLIDREGION~layer~net~path~type~id~…
        ShapeView::Region {
            layer: easyeda::field(r, 1),
            steps: svgpath::steps_of(easyeda::field(r, 3)),
            cutout: text::same_letters(easyeda::field(r, 4), "cutout"@),
        }
    } else if kind == "HOLE"@ {
        // HOLE~cx~cy~radius~id~locked
        ShapeView::Hole {
            x: easyeda::number_or_zero(r, 1),
            y: easyeda::number_or_zero(r, 2),
            radius: easyeda::number_or_zero(r, 3),
        }
    } else if kind == "VIA"@ {
        // VIA~cx~cy~diameter~net~holeRadius~id~locked
        ShapeView::Via {
            x: easyeda::number_or_zero(r, 1),
            y: easyeda::number_or_zero(r, 2),
            diameter: easyeda::number_or_zero(r, 3),
            hole_radius: easyeda::number_or_zero(r, 5),
        }
    } else {
        // TEXT is left out: the reference and value of the footprint replace
        // the silkscreen labels EasyEDA bakes into the package.
        ShapeView::Other
    }
}

fn outline(word: &str) -> (r: Outline)
    ensures
        r == outline_of(word@),
{
    let w = to_uppercase(word);
    if same(w.as_str(), "ELLIPSE") {
        Outline::Ellipse
    } else if same(w.as_str(), "OVAL") {
        Outline::Oval
    } else {
        Outline::Rect
    }
}

fn pad(record: &Record) -> (r: Shape)
    ensures
        r@ == pad_of(record@),
{
    let word = record.str(1);
    let plating = record.str(15);
    Shape::Pad {
        x: record.num(2),
        y: record.num(3),
        width: record.num(4),
        height: record.num(5),
        hole_radius: record.num(9),
        hole_length: record.num(13),
        rotation: record.num(11),
        label: PadLabel {
            outline: outline(word.as_str()),
            layer: record.str(6),
            number: record.str(8),
            plated: !eq_ignore_ascii_case(plating.as_str(), "N"),
        },
    }
}

/// Reads a package shape from its record.
pub fn read_shape(text: &str) -> (r: Shape)
    ensures
        r@ == shape_of(text@),
{
    let record = Record::new(text);
    let kind = record.kind();
    let k = kind.as_str();
    if same(k, "PAD") {
        pad(&record)
    } else if same(k, "TRACK") {
        let points = record.str(4);
        Shape::Track {
            stroke: record.num(1),
            layer: record.str(2),
            points: parse_points(points.as_str()),
        }
    } else if same(k, "CIRCLE") {
        Shape::Circle {
            x: record.num(1),
            y: record.num(2),
            radius: record.num(3),
            stroke: record.num(4),
            layer: record.str(5),
        }
    } else if same(k, "ARC") {
        let path = record.str(4);
        Shape::Arc { stroke: record.num(1), layer: record.str(2), steps: parse_path(path.as_str()) }
    } else if same(k, "RECT") {
        Shape::Rect {
            x: record.num(1),
            y: record.num(2),
            width: record.num(3),
            height: record.num(4),
            layer: record.str(5),
        }
    } else if same(k, "SOLIDREGION") {
        let path = record.str(3);
        let sort = record.str(4);
        Shape::Region {
            layer: record.str(1),
            steps: parse_path(path.as_str()),
            cutout: eq_ignore_ascii_case(sort.as_str(), "cutout"),
        }
    } else if same(k, "HOLE") {
        Shape::Hole { x: record.num(1), y: record.num(2), radius: record.num(3) }
    } else if same(k, "VIA") {
        Shape::Via {
            x: record.num(1),
            y: record.num(2),
            diameter: record.num(3),
            hole_radius: record.num(5),
        }
    } else {
        Shape::Other
    }
}

// ---------------------------------------------------------------- 3D models

/// The 3D model a package names: where it stands, in EasyEDA units, and how it
/// is turned, in degrees.
pub struct Model3d {
    pub uuid: String,
    pub origin: (String, String),
    pub rotation: (String, String, String),
}

#[verifier::ext_equal]
pub struct Model3dView {
    pub uuid: Seq<char>,
    pub origin: (Seq<char>, Seq<char>),
    pub rotation: (Seq<char>, Seq<char>, Seq<char>),
}

impl View for Model3d {
    type V = Model3dView;

    open spec fn view(&self) -> Model3dView {
        Model3dView {
            uuid: self.uuid@,
            origin: (self.origin.0@, self.origin.1@),
            rotation: (self.rotation.0@, self.rotation.1@, self.rotation.2@),
        }
    }
}

pub open spec fn model_view(m: Option<Model3d>) -> Option<Model3dView> {
    match m {
        Some(model) => Some(model@),
        None => None,
    }
}

/// The number at `i` in a list with commas; what is no number counts as zero.
pub open spec fn listed(s: Seq<char>, i: int) -> Seq<char> {
    easyeda::number_or_zero(text::split(s, ','), i)
}

/// The text under a key of a node's attributes, empty in its absence.
pub open spec fn attribute(node: Seq<char>, key: Seq<char>) -> Seq<char> {
    json::or_text(json::text_at(json::at(node, "attrs"@), key), ""@)
}

/// The 3D model one record names, if it is such a record.
pub open spec fn named_model(shape: Seq<char>) -> Option<Model3dView> {
    if !text::starts_with(shape, "SVGNODE~"@) {
        None
    } else {
        let node = shape.skip("SVGNODE~"@.len() as int);
        let uuid = attribute(node, "uuid"@);
        if json::json_fault(node) is Some || uuid.len() == 0 {
            None
        } else {
            let origin = attribute(node, "c_origin"@);
            let rotation = attribute(node, "c_rotation"@);
            Some(
                Model3dView {
                    uuid,
                    origin: (listed(origin, 0), listed(origin, 1)),
                    rotation: (listed(rotation, 0), listed(rotation, 1), listed(rotation, 2)),
                },
            )
        }
    }
}

/// The first 3D model that the records from `i` on name.
pub open spec fn model_from(shapes: Seq<Seq<char>>, i: int) -> Option<Model3dView>
    decreases shapes.len() - i,
{
    if i < 0 || i >= shapes.len() {
        None
    } else {
        match named_model(shapes[i]) {
            Some(m) => Some(m),
            None => model_from(shapes, i + 1),
        }
    }
}

fn read_attribute(node: &str, key: &str) -> (r: String)
    ensures
        r@ == attribute(node@, key@),
{
    let attrs = json::get(node, "attrs");
    json::or_else(json::get_text(attrs.as_str(), key), "")
}

/// Reads the `SVGNODE` record that names a 3D model.
fn read_model(shape: &str) -> (r: Option<Model3d>)
    ensures
        model_view(r) == named_model(shape@),
{
    let prefix = "SVGNODE~";
    if !has_prefix(shape, prefix) {
        return None;
    }
    let chars = to_chars(shape);
    proof {
        reveal_strlit("SVGNODE~");
    }
    let node = slice(&chars, 8, chars.len());
    assert(node@ =~= shape@.skip(8));
    if let Some(_) = json::fault(node.as_str()) {
        return None;
    }
    let uuid = read_attribute(node.as_str(), "uuid");
    if uuid.as_str().is_empty() {
        return None;
    }
    let origin = read_attribute(node.as_str(), "c_origin");
    let rotation = read_attribute(node.as_str(), "c_rotation");
    let o = Record { fields: pieces(origin.as_str(), ',') };
    let t = Record { fields: pieces(rotation.as_str(), ',') };
    Some(Model3d { uuid, origin: (o.num(0), o.num(1)), rotation: (t.num(0), t.num(1), t.num(2)) })
}

/// Reads the `SVGNODE` record that names the component's 3D model. Its `z`
/// field reports where the model's underside already sits: it describes the
/// model rather than asking for a shift, and is not read.
pub fn model_info(component: &Component) -> (r: Option<Model3d>)
    ensures
        model_view(r) == model_from(component@.package_shapes, 0),
{
    let shapes = &component.package_shapes;
    let ghost all = component@.package_shapes;
    let mut i: usize = 0;
    while i < shapes.len()
        invariant
            i <= shapes@.len(),
            all == text::views(shapes@),
            all == component@.package_shapes,
            model_from(all, i as int) == model_from(all, 0),
        decreases shapes.len() - i,
    {
        assert(all[i as int] == shapes@[i as int]@);
        let found = read_model(shapes[i].as_str());
        if found.is_some() {
            return found;
        }
        i += 1;
    }
    None
}

// ------------------------------------------------------------------ drawing

/// How a pad is drilled.
pub enum Drill {
    /// Not at all: it sits on the surface.
    Surface,
    Round { diameter: String },
    /// A slotted hole.
    Slot { length: String, diameter: String },
}

/// A package shape that has been measured, in millimetres with y growing
/// upwards, relative to the package origin. Shapes without an extent are left
/// out when they are measured.
pub enum Drawn {
    /// `angle` when it is turned, `even` when its two sizes are the same.
    Pad {
        at: (String, String),
        angle: Option<String>,
        size: (String, String),
        even: bool,
        drill: Drill,
        label: PadLabel,
    },
    Track { points: Vec<(String, String)>, width: String, layer: String },
    /// Through `end`, around `center`.
    Circle { center: (String, String), end: (String, String), width: String, layer: String },
    Path { pieces: Vec<Piece>, width: String, layer: String },
    Rect { from: (String, String), to: (String, String), width: String, layer: String },
    Region { points: Vec<(String, String)>, layer: String, cutout: bool },
    Hole { at: (String, String), diameter: String },
    Via { at: (String, String), outer: String, bore: String },
}

pub enum DrillView {
    Surface,
    Round { diameter: Seq<char> },
    Slot { length: Seq<char>, diameter: Seq<char> },
}

pub enum DrawnView {
    Pad {
        at: (Seq<char>, Seq<char>),
        angle: Option<Seq<char>>,
        size: (Seq<char>, Seq<char>),
        even: bool,
        drill: DrillView,
        label: PadLabelView,
    },
    Track { points: Seq<(Seq<char>, Seq<char>)>, width: Seq<char>, layer: Seq<char> },
    Circle {
        center: (Seq<char>, Seq<char>),
        end: (Seq<char>, Seq<char>),
        width: Seq<char>,
        layer: Seq<char>,
    },
    Path { pieces: Seq<symbol::PieceView>, width: Seq<char>, layer: Seq<char> },
    Rect {
        from: (Seq<char>, Seq<char>),
        to: (Seq<char>, Seq<char>),
        width: Seq<char>,
        layer: Seq<char>,
    },
    Region { points: Seq<(Seq<char>, Seq<char>)>, layer: Seq<char>, cutout: bool },
    Hole { at: (Seq<char>, Seq<char>), diameter: Seq<char> },
    Via { at: (Seq<char>, Seq<char>), outer: Seq<char>, bore: Seq<char> },
}

impl View for Drill {
    type V = DrillView;

    open spec fn view(&self) -> DrillView {
        match *self {
            Drill::Surface => DrillView::Surface,
            Drill::Round { diameter } => DrillView::Round { diameter: diameter@ },
            Drill::Slot { length, diameter } => DrillView::Slot {
                length: length@,
                diameter: diameter@,
            },
        }
    }
}

impl View for Drawn {
    type V = DrawnView;

    open spec fn view(&self) -> DrawnView {
        match *self {
            Drawn::Pad { at, angle, size, even, drill, label } => DrawnView::Pad {
                at: symbol::pair(at),
                angle: text::opt_view(angle),
                size: symbol::pair(size),
                even,
                drill: drill@,
                label: label@,
            },
            Drawn::Track { points, width, layer } => DrawnView::Track {
                points: sexpr::pair_views(points@),
                width: width@,
                layer: layer@,
            },
            Drawn::Circle { center, end, width, layer } => DrawnView::Circle {
                center: symbol::pair(center),
                end: symbol::pair(end),
                width: width@,
                layer: layer@,
            },
            Drawn::Path { pieces, width, layer } => DrawnView::Path {
                pieces: symbol::piece_views(pieces@),
                width: width@,
                layer: layer@,
            },
            Drawn::Rect { from, to, width, layer } => DrawnView::Rect {
                from: symbol::pair(from),
                to: symbol::pair(to),
                width: width@,
                layer: layer@,
            },
            Drawn::Region { points, layer, cutout } => DrawnView::Region {
                points: sexpr::pair_views(points@),
                layer: layer@,
                cutout,
            },
            Drawn::Hole { at, diameter } => DrawnView::Hole {
                at: symbol::pair(at),
                diameter: diameter@,
            },
            Drawn::Via { at, outer, bore } => DrawnView::Via {
                at: symbol::pair(at),
                outer: outer@,
                bore: bore@,
            },
        }
    }
}

pub open spec fn drawn_views(list: Seq<Drawn>) -> Seq<DrawnView> {
    list.map_values(|d: Drawn| d@)
}

/// The KiCad layer of an EasyEDA layer id. 99–101 are EasyEDA's component and
/// lead outline layers, which correspond to KiCad's fabrication layer.
pub open spec fn layer_of(id: Seq<char>) -> Seq<char> {
    if id == "1"@ {
        "F.Cu"@
    } else if id == "2"@ {
        "B.Cu"@
    } else if id == "3"@ {
        "F.SilkS"@
    } else if id == "4"@ {
        "B.SilkS"@
    } else if id == "5"@ {
        "F.Paste"@
    } else if id == "6"@ {
        "B.Paste"@
    } else if id == "7"@ {
        "F.Mask"@
    } else if id == "8"@ {
        "B.Mask"@
    } else if id == "10"@ || id == "11"@ {
        "Edge.Cuts"@
    } else if id == "12"@ {
        "Cmts.User"@
    } else if id == "13"@ || id == "99"@ || id == "100"@ || id == "101"@ {
        "F.Fab"@
    } else if id == "14"@ {
        "B.Fab"@
    } else {
        "Dwgs.User"@
    }
}

fn layer_name(id: &str) -> (r: &'static str)
    ensures
        r@ == layer_of(id@),
{
    if same(id, "1") {
        "F.Cu"
    } else if same(id, "2") {
        "B.Cu"
    } else if same(id, "3") {
        "F.SilkS"
    } else if same(id, "4") {
        "B.SilkS"
    } else if same(id, "5") {
        "F.Paste"
    } else if same(id, "6") {
        "B.Paste"
    } else if same(id, "7") {
        "F.Mask"
    } else if same(id, "8") {
        "B.Mask"
    } else if same(id, "10") || same(id, "11") {
        "Edge.Cuts"
    } else if same(id, "12") {
        "Cmts.User"
    } else if same(id, "13") || same(id, "99") || same(id, "100") || same(id, "101") {
        "F.Fab"
    } else if same(id, "14") {
        "B.Fab"
    } else {
        "Dwgs.User"
    }
}

/// `name` as a layer form.
pub open spec fn layer_form(name: Seq<char>) -> Seq<char> {
    sexpr::entry("layer"@, sexpr::literal(name))
}

pub open spec fn stroke_form(width: Seq<char>) -> Seq<char> {
    sexpr::form("stroke "@ + sexpr::entry("width"@, width) + " "@ + sexpr::form("type solid"@))
}

fn write_layer(name: &str) -> (r: String)
    ensures
        r@ == layer_form(name@),
{
    one("layer", quote(name).as_str())
}

fn write_stroke(width: &str) -> (r: String)
    ensures
        r@ == stroke_form(width@),
{
    let mut inner = "stroke ".to_string();
    inner.append(one("width", width).as_str());
    inner.append(" ");
    inner.append(paren("type solid").as_str());
    paren(inner.as_str())
}

/// A form on a line of its own.
pub open spec fn row(inner: Seq<char>) -> Seq<char> {
    "  "@ + sexpr::form(inner) + "\n"@
}

fn write_row(inner: &str) -> (r: String)
    ensures
        r@ == row(inner@),
{
    let mut out = "  ".to_string();
    out.append(paren(inner).as_str());
    out.append("\n");
    out
}

// --------------------------------------------------------------------- pads

pub open spec fn pad_outline(outline: Outline, even: bool) -> Seq<char> {
    match outline {
        Outline::Ellipse => if even {
            "circle"@
        } else {
            "oval"@
        },
        Outline::Oval => "oval"@,
        Outline::Rect => "rect"@,
    }
}

pub open spec fn pad_type(drill: DrillView, plated: bool) -> Seq<char> {
    if drill is Surface {
        "smd"@
    } else if plated {
        "thru_hole"@
    } else {
        "np_thru_hole"@
    }
}

pub open spec fn through_layers() -> Seq<char> {
    "layers "@ + sexpr::literal("*.Cu"@) + " "@ + sexpr::literal("*.Mask"@)
}

/// The layers of a surface pad, on the back or on the front.
pub open spec fn surface_layers(back: bool) -> Seq<char> {
    if back {
        "layers "@ + sexpr::literal("B.Cu"@) + " "@ + sexpr::literal("B.Paste"@) + " "@
            + sexpr::literal("B.Mask"@)
    } else {
        "layers "@ + sexpr::literal("F.Cu"@) + " "@ + sexpr::literal("F.Paste"@) + " "@
            + sexpr::literal("F.Mask"@)
    }
}

pub open spec fn pad_layers(drill: DrillView, layer: Seq<char>) -> Seq<char> {
    if drill !is Surface {
        through_layers()
    } else {
        surface_layers(layer == "2"@)
    }
}

pub open spec fn pad_place(at: (Seq<char>, Seq<char>), angle: Option<Seq<char>>) -> Seq<char> {
    match angle {
        None => sexpr::spot("at"@, at),
        Some(a) => sexpr::form("at "@ + at.0 + " "@ + at.1 + " "@ + a),
    }
}

pub open spec fn drill_text(drill: DrillView) -> Seq<char> {
    match drill {
        DrillView::Surface => ""@,
        DrillView::Round { diameter } => " "@ + sexpr::entry("drill"@, diameter),
        DrillView::Slot { length, diameter } => " "@ + sexpr::spot(
            "drill oval"@,
            (length, diameter),
        ),
    }
}

/// A pad with its number, sort and outline, then its place, size, drill and
/// layers.
pub open spec fn pad_row(
    number: Seq<char>,
    sort: Seq<char>,
    outline: Seq<char>,
    place: Seq<char>,
    size: (Seq<char>, Seq<char>),
    drill: Seq<char>,
    layers: Seq<char>,
) -> Seq<char> {
    row(
        "pad "@ + sexpr::literal(number) + " "@ + sort + " "@ + outline + " "@ + place + " "@
            + sexpr::spot("size"@, size) + drill + " "@ + sexpr::form(layers),
    )
}

fn write_pad_row(
    number: &str,
    sort: &str,
    outline: &str,
    spot: &str,
    size: (&str, &str),
    drill: &str,
    layers: &str,
) -> (r: String)
    ensures
        r@ == pad_row(number@, sort@, outline@, spot@, (size.0@, size.1@), drill@, layers@),
{
    let mut inner = "pad ".to_string();
    inner.append(quote(number).as_str());
    inner.append(" ");
    inner.append(sort);
    inner.append(" ");
    inner.append(outline);
    inner.append(" ");
    inner.append(spot);
    inner.append(" ");
    inner.append(place("size", size.0, size.1).as_str());
    inner.append(drill);
    inner.append(" ");
    inner.append(paren(layers).as_str());
    write_row(inner.as_str())
}

fn write_through_layers() -> (r: String)
    ensures
        r@ == through_layers(),
{
    let mut out = "layers ".to_string();
    out.append(quote("*.Cu").as_str());
    out.append(" ");
    out.append(quote("*.Mask").as_str());
    out
}

fn write_pad_layers(drill: &Drill, layer: &str) -> (r: String)
    ensures
        r@ == pad_layers(drill@, layer@),
{
    let surface = match drill {
        Drill::Surface => true,
        _ => false,
    };
    if !surface {
        return write_through_layers();
    }
    let mut out = "layers ".to_string();
    if same(layer, "2") {
        out.append(quote("B.Cu").as_str());
        out.append(" ");
        out.append(quote("B.Paste").as_str());
        out.append(" ");
        out.append(quote("B.Mask").as_str());
    } else {
        out.append(quote("F.Cu").as_str());
        out.append(" ");
        out.append(quote("F.Paste").as_str());
        out.append(" ");
        out.append(quote("F.Mask").as_str());
    }
    out
}

fn write_drill(drill: &Drill) -> (r: String)
    ensures
        r@ == drill_text(drill@),
{
    match drill {
        Drill::Surface => "".to_string(),
        Drill::Round { diameter } => {
            let mut out = " ".to_string();
            out.append(one("drill", diameter.as_str()).as_str());
            out
        },
        Drill::Slot { length, diameter } => {
            let mut out = " ".to_string();
            out.append(place("drill oval", length.as_str(), diameter.as_str()).as_str());
            out
        },
    }
}

fn write_pad_place(at: &(String, String), angle: &Option<String>) -> (r: String)
    ensures
        r@ == pad_place(symbol::pair(*at), text::opt_view(*angle)),
{
    match angle {
        None => place("at", at.0.as_str(), at.1.as_str()),
        Some(a) => {
            let mut inner = "at ".to_string();
            inner.append(at.0.as_str());
            inner.append(" ");
            inner.append(at.1.as_str());
            inner.append(" ");
            inner.append(a.as_str());
            paren(inner.as_str())
        },
    }
}

fn pad_word(outline: &Outline, even: bool) -> (r: &'static str)
    ensures
        r@ == pad_outline(*outline, even),
{
    match outline {
        Outline::Ellipse => if even {
            "circle"
        } else {
            "oval"
        },
        Outline::Oval => "oval",
        Outline::Rect => "rect",
    }
}

fn pad_sort(drill: &Drill, plated: bool) -> (r: &'static str)
    ensures
        r@ == pad_type(drill@, plated),
{
    match drill {
        Drill::Surface => "smd",
        _ => if plated {
            "thru_hole"
        } else {
            "np_thru_hole"
        },
    }
}

// ----------------------------------------------------------------- graphics

/// A line or an arc: its word and its points, then stroke and layer.
pub open spec fn open_row(points: Seq<char>, width: Seq<char>, layer: Seq<char>) -> Seq<char> {
    row(points + " "@ + stroke_form(width) + " "@ + layer_form(layer))
}

/// A shape with an inside: its word and its points, then stroke, fill and layer.
pub open spec fn closed_row(
    points: Seq<char>,
    width: Seq<char>,
    fill: Seq<char>,
    layer: Seq<char>,
) -> Seq<char> {
    row(
        points + " "@ + stroke_form(width) + " "@ + sexpr::entry("fill"@, fill) + " "@ + layer_form(
            layer,
        ),
    )
}

pub open spec fn line_row(
    from: (Seq<char>, Seq<char>),
    to: (Seq<char>, Seq<char>),
    width: Seq<char>,
    layer: Seq<char>,
) -> Seq<char> {
    open_row(
        "fp_line "@ + sexpr::spot("start"@, from) + " "@ + sexpr::spot("end"@, to),
        width,
        layer,
    )
}

pub open spec fn arc_row(
    from: (Seq<char>, Seq<char>),
    mid: (Seq<char>, Seq<char>),
    to: (Seq<char>, Seq<char>),
    width: Seq<char>,
    layer: Seq<char>,
) -> Seq<char> {
    open_row(
        "fp_arc "@ + sexpr::spot("start"@, from) + " "@ + sexpr::spot("mid"@, mid) + " "@
            + sexpr::spot("end"@, to),
        width,
        layer,
    )
}

/// The lines between neighbours among the first `n` points.
pub open spec fn track_rows(
    points: Seq<(Seq<char>, Seq<char>)>,
    width: Seq<char>,
    layer: Seq<char>,
    n: int,
) -> Seq<char>
    decreases n,
{
    if n < 2 {
        Seq::empty()
    } else {
        track_rows(points, width, layer, n - 1) + line_row(points[n - 2], points[n - 1], width, layer)
    }
}

pub open spec fn path_rows(pieces: Seq<symbol::PieceView>, width: Seq<char>, layer: Seq<char>) -> Seq<
    char,
>
    decreases pieces.len(),
{
    if pieces.len() == 0 {
        Seq::empty()
    } else {
        path_rows(pieces.drop_last(), width, layer) + match pieces.last() {
            symbol::PieceView::Line { from, to, joined } => line_row(from, to, width, layer),
            symbol::PieceView::Arc { from, mid, to } => arc_row(from, mid, to, width, layer),
        }
    }
}

/// A filled region. Cutouts subtract from a region; KiCad has no equivalent, and
/// drawing them filled would be worse than leaving them out.
pub open spec fn region_row(points: Seq<(Seq<char>, Seq<char>)>, layer: Seq<char>, cutout: bool) -> Seq<
    char,
> {
    if cutout || points.len() < 3 {
        Seq::empty()
    } else {
        closed_row(
            "fp_poly "@ + sexpr::entry("pts"@, sexpr::spots(points)),
            "0"@,
            "solid"@,
            layer,
        )
    }
}

/// The rows of one shape.
pub open spec fn rows_of(d: DrawnView) -> Seq<char> {
    match d {
        DrawnView::Pad { at, angle, size, even, drill, label } => pad_row(
            label.number,
            pad_type(drill, label.plated),
            pad_outline(label.outline, even),
            pad_place(at, angle),
            size,
            drill_text(drill),
            pad_layers(drill, label.layer),
        ),
        DrawnView::Track { points, width, layer } => track_rows(
            points,
            width,
            layer_of(layer),
            points.len() as int,
        ),
        DrawnView::Circle { center, end, width, layer } => closed_row(
            "fp_circle "@ + sexpr::spot("center"@, center) + " "@ + sexpr::spot("end"@, end),
            width,
            "none"@,
            layer_of(layer),
        ),
        DrawnView::Path { pieces, width, layer } => path_rows(pieces, width, layer_of(layer)),
        DrawnView::Rect { from, to, width, layer } => closed_row(
            "fp_rect "@ + sexpr::spot("start"@, from) + " "@ + sexpr::spot("end"@, to),
            width,
            "none"@,
            layer_of(layer),
        ),
        DrawnView::Region { points, layer, cutout } => region_row(points, layer_of(layer), cutout),
        DrawnView::Hole { at, diameter } => pad_row(
            ""@,
            "np_thru_hole"@,
            "circle"@,
            sexpr::spot("at"@, at),
            (diameter, diameter),
            " "@ + sexpr::entry("drill"@, diameter),
            through_layers(),
        ),
        DrawnView::Via { at, outer, bore } => pad_row(
            ""@,
            "thru_hole"@,
            "circle"@,
            sexpr::spot("at"@, at),
            (outer, outer),
            " "@ + sexpr::entry("drill"@, bore),
            through_layers(),
        ),
    }
}

pub open spec fn body_of(list: Seq<DrawnView>) -> Seq<char>
    decreases list.len(),
{
    if list.len() == 0 {
        Seq::empty()
    } else {
        body_of(list.drop_last()) + rows_of(list.last())
    }
}

fn write_open_row(points: &str, width: &str, layer: &str) -> (r: String)
    ensures
        r@ == open_row(points@, width@, layer@),
{
    let mut inner = points.to_string();
    inner.append(" ");
    inner.append(write_stroke(width).as_str());
    inner.append(" ");
    inner.append(write_layer(layer).as_str());
    write_row(inner.as_str())
}

fn write_closed_row(points: &str, width: &str, fill: &str, layer: &str) -> (r: String)
    ensures
        r@ == closed_row(points@, width@, fill@, layer@),
{
    let mut inner = points.to_string();
    inner.append(" ");
    inner.append(write_stroke(width).as_str());
    inner.append(" ");
    inner.append(one("fill", fill).as_str());
    inner.append(" ");
    inner.append(write_layer(layer).as_str());
    write_row(inner.as_str())
}

/// `word`, then the two ends of a shape under the names they go by.
fn ends(
    word: &str,
    first: &str,
    from: &(String, String),
    second: &str,
    to: &(String, String),
) -> (r: String)
    ensures
        r@ == word@ + sexpr::spot(first@, symbol::pair(*from)) + " "@ + sexpr::spot(
            second@,
            symbol::pair(*to),
        ),
{
    let mut out = word.to_string();
    out.append(place(first, from.0.as_str(), from.1.as_str()).as_str());
    out.append(" ");
    out.append(place(second, to.0.as_str(), to.1.as_str()).as_str());
    out
}

fn line(from: &(String, String), to: &(String, String), width: &str, layer: &str) -> (r: String)
    ensures
        r@ == line_row(symbol::pair(*from), symbol::pair(*to), width@, layer@),
{
    let points = ends("fp_line ", "start", from, "end", to);
    write_open_row(points.as_str(), width, layer)
}

fn arc(
    from: &(String, String),
    mid: &(String, String),
    to: &(String, String),
    width: &str,
    layer: &str,
) -> (r: String)
    ensures
        r@ == arc_row(symbol::pair(*from), symbol::pair(*mid), symbol::pair(*to), width@, layer@),
{
    let mut points = ends("fp_arc ", "start", from, "mid", mid);
    points.append(" ");
    points.append(place("end", to.0.as_str(), to.1.as_str()).as_str());
    write_open_row(points.as_str(), width, layer)
}

fn track(points: &Vec<(String, String)>, width: &str, layer: &str) -> (r: String)
    ensures
        r@ == track_rows(sexpr::pair_views(points@), width@, layer@, points@.len() as int),
{
    let ghost all = sexpr::pair_views(points@);
    let mut out = String::new();
    assert(out@ =~= Seq::<char>::empty());
    if points.len() < 2 {
        return out;
    }
    let mut i: usize = 1;
    while i < points.len()
        invariant
            1 <= i <= points@.len(),
            all == sexpr::pair_views(points@),
            out@ == track_rows(all, width@, layer@, i as int),
        decreases points.len() - i,
    {
        assert(all[i - 1] == symbol::pair(points@[i - 1]));
        assert(all[i as int] == symbol::pair(points@[i as int]));
        out.append(line(&points[i - 1], &points[i], width, layer).as_str());
        i += 1;
    }
    out
}

fn path(pieces: &Vec<Piece>, width: &str, layer: &str) -> (r: String)
    ensures
        r@ == path_rows(symbol::piece_views(pieces@), width@, layer@),
{
    let ghost all = symbol::piece_views(pieces@);
    let mut out = String::new();
    let mut i: usize = 0;
    assert(all.take(0) =~= Seq::<symbol::PieceView>::empty());
    assert(out@ =~= Seq::<char>::empty());
    while i < pieces.len()
        invariant
            i <= pieces@.len(),
            all == symbol::piece_views(pieces@),
            out@ == path_rows(all.take(i as int), width@, layer@),
        decreases pieces.len() - i,
    {
        assert(all.take(i + 1).drop_last() =~= all.take(i as int));
        assert(all.take(i + 1).last() == pieces@[i as int]@);
        match &pieces[i] {
            Piece::Line { from, to, joined: _ } => {
                out.append(line(from, to, width, layer).as_str());
            },
            Piece::Arc { from, mid, to } => {
                out.append(arc(from, mid, to, width, layer).as_str());
            },
        }
        i += 1;
    }
    assert(all.take(i as int) =~= all);
    out
}

fn region(points: &Vec<(String, String)>, layer: &str, cutout: bool) -> (r: String)
    ensures
        r@ == region_row(sexpr::pair_views(points@), layer@, cutout),
{
    assert(sexpr::pair_views(points@).len() == points@.len());
    if cutout || points.len() < 3 {
        let none = String::new();
        assert(none@ =~= Seq::<char>::empty());
        return none;
    }
    let all = places(points);
    let mut head = "fp_poly ".to_string();
    head.append(one("pts", all.as_str()).as_str());
    write_closed_row(head.as_str(), "0", "solid", layer)
}

/// A round pad that belongs to no pin.
fn ring(sort: &str, at: &(String, String), size: &str, drill: &str) -> (r: String)
    ensures
        r@ == pad_row(
            ""@,
            sort@,
            "circle"@,
            sexpr::spot("at"@, symbol::pair(*at)),
            (size@, size@),
            " "@ + sexpr::entry("drill"@, drill@),
            through_layers(),
        ),
{
    let spot = place("at", at.0.as_str(), at.1.as_str());
    let mut bore = " ".to_string();
    bore.append(one("drill", drill).as_str());
    let layers = write_through_layers();
    write_pad_row("", sort, "circle", spot.as_str(), (size, size), bore.as_str(), layers.as_str())
}

fn write_drawn(d: &Drawn) -> (r: String)
    ensures
        r@ == rows_of(d@),
{
    match d {
        Drawn::Pad { at, angle, size, even, drill, label } => {
            let spot = write_pad_place(at, angle);
            let bore = write_drill(drill);
            let layers = write_pad_layers(drill, label.layer.as_str());
            write_pad_row(
                label.number.as_str(),
                pad_sort(drill, label.plated),
                pad_word(&label.outline, *even),
                spot.as_str(),
                (size.0.as_str(), size.1.as_str()),
                bore.as_str(),
                layers.as_str(),
            )
        },
        Drawn::Track { points, width, layer } => {
            assert(sexpr::pair_views(points@).len() == points@.len());
            track(points, width.as_str(), layer_name(layer.as_str()))
        },
        Drawn::Circle { center, end, width, layer } => {
            let points = ends("fp_circle ", "center", center, "end", end);
            write_closed_row(points.as_str(), width.as_str(), "none", layer_name(layer.as_str()))
        },
        Drawn::Path { pieces, width, layer } => path(
            pieces,
            width.as_str(),
            layer_name(layer.as_str()),
        ),
        Drawn::Rect { from, to, width, layer } => {
            let points = ends("fp_rect ", "start", from, "end", to);
            write_closed_row(points.as_str(), width.as_str(), "none", layer_name(layer.as_str()))
        },
        Drawn::Region { points, layer, cutout } => region(
            points,
            layer_name(layer.as_str()),
            *cutout,
        ),
        Drawn::Hole { at, diameter } => ring(
            "np_thru_hole",
            at,
            diameter.as_str(),
            diameter.as_str(),
        ),
        Drawn::Via { at, outer, bore } => ring("thru_hole", at, outer.as_str(), bore.as_str()),
    }
}

// ------------------------------------------------------------ the footprint

/// Where a 3D model stands, in millimetres, and how it is turned, in degrees.
/// It keeps its height.
pub struct Placement {
    pub offset: (String, String),
    pub rotation: (String, String, String),
}

#[verifier::ext_equal]
pub struct PlacementView {
    pub offset: (Seq<char>, Seq<char>),
    pub rotation: (Seq<char>, Seq<char>, Seq<char>),
}

impl View for Placement {
    type V = PlacementView;

    open spec fn view(&self) -> PlacementView {
        PlacementView {
            offset: symbol::pair(self.offset),
            rotation: (self.rotation.0@, self.rotation.1@, self.rotation.2@),
        }
    }
}

pub open spec fn placement_view(p: Option<Placement>) -> Option<PlacementView> {
    match p {
        Some(place) => Some(place@),
        None => None,
    }
}

/// Whether some pad is soldered through the board, or none but on it.
pub open spec fn has_pad(list: Seq<DrawnView>, through: bool) -> bool {
    exists|i: int|
        0 <= i < list.len() && match #[trigger] list[i] {
            DrawnView::Pad { at, angle, size, even, drill, label } => (drill !is Surface) == through,
            _ => false,
        }
}

/// Mixed pad kinds claim neither.
pub open spec fn attribute_row(list: Seq<DrawnView>) -> Seq<char> {
    if has_pad(list, false) && !has_pad(list, true) {
        row("attr smd"@)
    } else if has_pad(list, true) && !has_pad(list, false) {
        row("attr through_hole"@)
    } else {
        ""@
    }
}

pub open spec fn text_effects() -> Seq<char> {
    sexpr::entry(
        "effects"@,
        sexpr::form(
            "font "@ + sexpr::form("size 1 1"@) + " "@ + sexpr::form("thickness 0.15"@),
        ),
    )
}

/// A text of the footprint.
pub open spec fn text_row(sort: Seq<char>, value: Seq<char>, layer: Seq<char>, hidden: bool) -> Seq<
    char,
> {
    row(
        "fp_text "@ + sort + " "@ + sexpr::literal(value) + " "@ + sexpr::form("at 0 0"@) + " "@
            + layer_form(layer) + symbol::hide_text(hidden) + "\n    "@ + text_effects() + "\n  "@,
    )
}

pub open spec fn triple_form(t: (Seq<char>, Seq<char>, Seq<char>)) -> Seq<char> {
    sexpr::form("xyz "@ + t.0 + " "@ + t.1 + " "@ + t.2)
}

pub open spec fn model_row(path: Seq<char>, p: PlacementView) -> Seq<char> {
    row(
        "model "@ + sexpr::literal(path) + "\n    "@ + sexpr::entry(
            "offset"@,
            triple_form((p.offset.0, p.offset.1, "0"@)),
        ) + "\n    "@ + sexpr::entry("scale"@, triple_form(("1"@, "1"@, "1"@))) + "\n    "@
            + sexpr::entry("rotate"@, triple_form(p.rotation)) + "\n  "@,
    )
}

/// The model record, when there is a model and a place for its file.
pub open spec fn model_rows(path: Option<Seq<char>>, placement: Option<PlacementView>) -> Seq<char> {
    match (path, placement) {
        (Some(at), Some(p)) => model_row(at, p),
        _ => ""@,
    }
}

/// The inside of the footprint form.
pub open spec fn footprint_inner(
    c: easyeda::ComponentView,
    name: Seq<char>,
    path: Option<Seq<char>>,
    placement: Option<PlacementView>,
    list: Seq<DrawnView>,
) -> Seq<char> {
    "footprint "@ + sexpr::literal(name) + " "@ + sexpr::entry("version"@, FORMAT_VERSION@) + " "@
        + sexpr::form("generator cse-importer"@) + "\n"@ + row("layer "@ + sexpr::literal("F.Cu"@))
        + row("descr "@ + sexpr::literal(c.title)) + row(
        "tags "@ + sexpr::literal(c.lcsc + " "@ + c.package_name),
    ) + attribute_row(list) + text_row("reference"@, "REF**"@, "F.SilkS"@, false) + text_row(
        "value"@,
        name,
        "F.Fab"@,
        true,
    ) + body_of(list) + model_rows(path, placement)
}

/// The measures of a shape are plain: no parenthesis and no quote.
pub open spec fn is_measured(d: DrawnView) -> bool {
    match d {
        DrawnView::Pad { at, angle, size, even, drill, label } => sexpr::is_plain_pair(at)
            && sexpr::is_plain_pair(size) && (angle matches Some(a) ==> sexpr::is_plain(a))
            && match drill {
            DrillView::Surface => true,
            DrillView::Round { diameter } => sexpr::is_plain(diameter),
            DrillView::Slot { length, diameter } => sexpr::is_plain(length) && sexpr::is_plain(
                diameter,
            ),
        },
        DrawnView::Track { points, width, layer } => sexpr::is_plain(width) && forall|i: int|
            0 <= i < points.len() ==> sexpr::is_plain_pair(#[trigger] points[i]),
        DrawnView::Circle { center, end, width, layer } => sexpr::is_plain_pair(center)
            && sexpr::is_plain_pair(end) && sexpr::is_plain(width),
        DrawnView::Path { pieces, width, layer } => sexpr::is_plain(width) && forall|i: int|
            0 <= i < pieces.len() ==> symbol::is_plain_piece(#[trigger] pieces[i]),
        DrawnView::Rect { from, to, width, layer } => sexpr::is_plain_pair(from)
            && sexpr::is_plain_pair(to) && sexpr::is_plain(width),
        DrawnView::Region { points, layer, cutout } => forall|i: int|
            0 <= i < points.len() ==> sexpr::is_plain_pair(#[trigger] points[i]),
        DrawnView::Hole { at, diameter } => sexpr::is_plain_pair(at) && sexpr::is_plain(diameter),
        DrawnView::Via { at, outer, bore } => sexpr::is_plain_pair(at) && sexpr::is_plain(outer)
            && sexpr::is_plain(bore),
    }
}

pub open spec fn is_placed(p: Option<PlacementView>) -> bool {
    p matches Some(m) ==> sexpr::is_plain_pair(m.offset) && sexpr::is_plain(m.rotation.0)
        && sexpr::is_plain(m.rotation.1) && sexpr::is_plain(m.rotation.2)
}

/// The shapes whose measures can be written. Any other is left out rather than
/// breaking the file.
pub open spec fn measured(list: Seq<DrawnView>) -> Seq<DrawnView>
    decreases list.len(),
{
    if list.len() == 0 {
        Seq::empty()
    } else if is_measured(list.last()) {
        measured(list.drop_last()).push(list.last())
    } else {
        measured(list.drop_last())
    }
}

/// The placement, where it can be written.
pub open spec fn placed(p: Option<PlacementView>) -> Option<PlacementView> {
    if is_placed(p) {
        p
    } else {
        None
    }
}

/// A complete `.kicad_mod`.
pub open spec fn converted(
    c: easyeda::ComponentView,
    name: Seq<char>,
    path: Option<Seq<char>>,
    placement: Option<PlacementView>,
    list: Seq<DrawnView>,
) -> Seq<char> {
    sexpr::form(footprint_inner(c, name, path, placed(placement), measured(list))) + "\n"@
}

fn write_text(sort: &str, value: &str, layer: &str, hidden: bool) -> (r: String)
    ensures
        r@ == text_row(sort@, value@, layer@, hidden),
{
    let mut font = "font ".to_string();
    font.append(paren("size 1 1").as_str());
    font.append(" ");
    font.append(paren("thickness 0.15").as_str());
    let look = one("effects", paren(font.as_str()).as_str());
    let mut inner = "fp_text ".to_string();
    inner.append(sort);
    inner.append(" ");
    inner.append(quote(value).as_str());
    inner.append(" ");
    inner.append(paren("at 0 0").as_str());
    inner.append(" ");
    inner.append(write_layer(layer).as_str());
    inner.append(symbol::hide_word(hidden));
    inner.append("\n    ");
    inner.append(look.as_str());
    inner.append("\n  ");
    write_row(inner.as_str())
}

fn write_triple(x: &str, y: &str, z: &str) -> (r: String)
    ensures
        r@ == triple_form((x@, y@, z@)),
{
    let mut inner = "xyz ".to_string();
    inner.append(x);
    inner.append(" ");
    inner.append(y);
    inner.append(" ");
    inner.append(z);
    paren(inner.as_str())
}

fn write_model(path: &str, p: &Placement) -> (r: String)
    ensures
        r@ == model_row(path@, p@),
{
    let offset = write_triple(p.offset.0.as_str(), p.offset.1.as_str(), "0");
    let scale = write_triple("1", "1", "1");
    let turn = write_triple(p.rotation.0.as_str(), p.rotation.1.as_str(), p.rotation.2.as_str());
    let mut inner = "model ".to_string();
    inner.append(quote(path).as_str());
    inner.append("\n    ");
    inner.append(one("offset", offset.as_str()).as_str());
    inner.append("\n    ");
    inner.append(one("scale", scale.as_str()).as_str());
    inner.append("\n    ");
    inner.append(one("rotate", turn.as_str()).as_str());
    inner.append("\n  ");
    write_row(inner.as_str())
}

fn write_attribute(smd: bool, through: bool) -> (r: String)
    ensures
        r@ == (if smd && !through {
            row("attr smd"@)
        } else if through && !smd {
            row("attr through_hole"@)
        } else {
            ""@
        }),
{
    if smd && !through {
        write_row("attr smd")
    } else if through && !smd {
        write_row("attr through_hole")
    } else {
        "".to_string()
    }
}

fn can_be_written(d: &Drawn) -> (r: bool)
    ensures
        r == is_measured(d@),
{
    let r = match d {
        Drawn::Pad { at, angle, size, even: _, drill, label: _ } => {
            let turned = match angle {
                Some(a) => plain(a.as_str()),
                None => true,
            };
            let bored = match drill {
                Drill::Surface => true,
                Drill::Round { diameter } => plain(diameter.as_str()),
                Drill::Slot { length, diameter } => plain(length.as_str()) && plain(
                    diameter.as_str(),
                ),
            };
            plain_pair(at) && plain_pair(size) && turned && bored
        },
        Drawn::Track { points, width, layer: _ } => plain(width.as_str()) && plain_pairs(points),
        Drawn::Circle { center, end, width, layer: _ } => plain_pair(center) && plain_pair(end)
            && plain(width.as_str()),
        Drawn::Path { pieces, width, layer: _ } => plain(width.as_str()) && plain_pieces(pieces),
        Drawn::Rect { from, to, width, layer: _ } => plain_pair(from) && plain_pair(to) && plain(
            width.as_str(),
        ),
        Drawn::Region { points, layer: _, cutout: _ } => plain_pairs(points),
        Drawn::Hole { at, diameter } => plain_pair(at) && plain(diameter.as_str()),
        Drawn::Via { at, outer, bore } => plain_pair(at) && plain(outer.as_str()) && plain(
            bore.as_str(),
        ),
    };
    assert(r == is_measured(d@)) by {
        match d@ {
            DrawnView::Pad { at, angle, size, even, drill, label } => {},
            DrawnView::Track { points, width, layer } => {},
            DrawnView::Circle { center, end, width, layer } => {},
            DrawnView::Path { pieces, width, layer } => {},
            DrawnView::Rect { from, to, width, layer } => {},
            DrawnView::Region { points, layer, cutout } => {},
            DrawnView::Hole { at, diameter } => {},
            DrawnView::Via { at, outer, bore } => {},
        }
    }
    r
}

fn can_be_placed(p: &Placement) -> (r: bool)
    ensures
        r == is_placed(Some(p@)),
{
    plain_pair(&p.offset) && plain(p.rotation.0.as_str()) && plain(p.rotation.1.as_str()) && plain(
        p.rotation.2.as_str(),
    )
}

/// Renders the footprint. A shape whose measures are no numbers is left out, and
/// so is such a placement. `model_path` is written into the `(model …)` record
/// when the part has a 3D model, with the placement measured from it.
pub fn convert(
    component: &Component,
    name: &str,
    model_path: Option<&str>,
    placement: &Option<Placement>,
    shapes: &Vec<Drawn>,
) -> (r: String)
    ensures
        r@ == converted(
            component@,
            name@,
            match model_path {
                Some(t) => Some(t@),
                None => None,
            },
            placement_view(*placement),
            drawn_views(shapes@),
        ),
{
    let ghost all = drawn_views(shapes@);
    let mut body = String::new();
    let mut has_smd = false;
    let mut has_through_hole = false;
    let mut i: usize = 0;
    assert(all.take(0) =~= Seq::<DrawnView>::empty());
    assert(body@ =~= Seq::<char>::empty());
    while i < shapes.len()
        invariant
            i <= shapes@.len(),
            all == drawn_views(shapes@),
            body@ == body_of(measured(all.take(i as int))),
            has_smd == has_pad(measured(all.take(i as int)), false),
            has_through_hole == has_pad(measured(all.take(i as int)), true),
        decreases shapes.len() - i,
    {
        assert(all.take(i + 1).drop_last() =~= all.take(i as int));
        assert(all.take(i + 1).last() == shapes@[i as int]@);
        if can_be_written(&shapes[i]) {
            let ghost before = measured(all.take(i as int));
            let ghost now = before.push(shapes@[i as int]@);
            assert(now.drop_last() =~= before);
            body.append(write_drawn(&shapes[i]).as_str());
            proof {
                lemma_has_pad(now, false);
                lemma_has_pad(now, true);
            }
            if let Drawn::Pad { at: _, angle: _, size: _, even: _, drill, label: _ } = &shapes[i] {
                match drill {
                    Drill::Surface => {
                        has_smd = true;
                    },
                    _ => {
                        has_through_hole = true;
                    },
                }
            }
        }
        i += 1;
    }
    assert(all.take(i as int) =~= all);
    let mut tags = component.lcsc.clone();
    tags.append(" ");
    tags.append(component.package_name.as_str());
    let mut first = "layer ".to_string();
    first.append(quote("F.Cu").as_str());
    let mut descr = "descr ".to_string();
    descr.append(quote(component.title.as_str()).as_str());
    let mut tagged = "tags ".to_string();
    tagged.append(quote(tags.as_str()).as_str());
    let mut inner = "footprint ".to_string();
    inner.append(quote(name).as_str());
    inner.append(" ");
    inner.append(one("version", FORMAT_VERSION).as_str());
    inner.append(" ");
    inner.append(paren("generator cse-importer").as_str());
    inner.append("\n");
    inner.append(write_row(first.as_str()).as_str());
    inner.append(write_row(descr.as_str()).as_str());
    inner.append(write_row(tagged.as_str()).as_str());
    inner.append(write_attribute(has_smd, has_through_hole).as_str());
    inner.append(write_text("reference", "REF**", "F.SilkS", false).as_str());
    inner.append(write_text("value", name, "F.Fab", true).as_str());
    inner.append(body.as_str());
    let model = match (model_path, placement) {
        (Some(at), Some(p)) => {
            if can_be_placed(p) {
                write_model(at, p)
            } else {
                "".to_string()
            }
        },
        _ => "".to_string(),
    };
    inner.append(model.as_str());
    let mut out = paren(inner.as_str());
    out.append("\n");
    out
}

proof fn lemma_has_pad(list: Seq<DrawnView>, through: bool)
    requires
        list.len() > 0,
    ensures
        has_pad(list, through) == (has_pad(list.drop_last(), through) || match list.last() {
            DrawnView::Pad { at, angle, size, even, drill, label } => (drill !is Surface) == through,
            _ => false,
        }),
{
    let init = list.drop_last();
    assert(forall|i: int| 0 <= i < init.len() ==> #[trigger] init[i] == list[i]);
    if has_pad(init, through) {
        let i = choose|i: int|
            0 <= i < init.len() && match #[trigger] init[i] {
                DrawnView::Pad { at, angle, size, even, drill, label } => (drill !is Surface)
                    == through,
                _ => false,
            };
        assert(list[i] == init[i]);
    }
    if has_pad(list, through) {
        let i = choose|i: int|
            0 <= i < list.len() && match #[trigger] list[i] {
                DrawnView::Pad { at, angle, size, even, drill, label } => (drill !is Surface)
                    == through,
                _ => false,
            };
        if i < list.len() - 1 {
            assert(init[i] == list[i]);
        }
    }
    assert(list[list.len() - 1] == list.last());
}

// -------------------------------------------------------------------- laws

proof fn lemma_pad_words()
    ensures
        sexpr::is_level("  "@),
        sexpr::is_level("\n"@),
        sexpr::is_level(" "@),
        sexpr::is_level("pad "@),
        sexpr::is_level("smd"@),
        sexpr::is_level("thru_hole"@),
        sexpr::is_level("np_thru_hole"@),
        sexpr::is_level("circle"@),
        sexpr::is_level("oval"@),
        sexpr::is_level("rect"@),
        sexpr::is_level("at"@),
        sexpr::is_level("at "@),
        sexpr::is_level("size"@),
        sexpr::is_level("drill"@),
        sexpr::is_level("drill oval"@),
        sexpr::is_level("layers "@),
        sexpr::is_level(""@),
{
    reveal_with_fuel(sexpr::inert_upto, 14);
    reveal_strlit("  ");
    reveal_strlit("\n");
    reveal_strlit(" ");
    reveal_strlit("pad ");
    reveal_strlit("smd");
    reveal_strlit("thru_hole");
    reveal_strlit("np_thru_hole");
    reveal_strlit("circle");
    reveal_strlit("oval");
    reveal_strlit("rect");
    reveal_strlit("at");
    reveal_strlit("at ");
    reveal_strlit("size");
    reveal_strlit("drill");
    reveal_strlit("drill oval");
    reveal_strlit("layers ");
    reveal_strlit("");
    sexpr::lemma_level_word("  "@);
    sexpr::lemma_level_word("\n"@);
    sexpr::lemma_level_word(" "@);
    sexpr::lemma_level_word("pad "@);
    sexpr::lemma_level_word("smd"@);
    sexpr::lemma_level_word("thru_hole"@);
    sexpr::lemma_level_word("np_thru_hole"@);
    sexpr::lemma_level_word("circle"@);
    sexpr::lemma_level_word("oval"@);
    sexpr::lemma_level_word("rect"@);
    sexpr::lemma_level_word("at"@);
    sexpr::lemma_level_word("at "@);
    sexpr::lemma_level_word("size"@);
    sexpr::lemma_level_word("drill"@);
    sexpr::lemma_level_word("drill oval"@);
    sexpr::lemma_level_word("layers "@);
    sexpr::lemma_level_word(""@);
}

proof fn lemma_graphic_words()
    ensures
        sexpr::is_level("  "@),
        sexpr::is_level("\n"@),
        sexpr::is_level(" "@),
        sexpr::is_level("layer"@),
        sexpr::is_level("stroke "@),
        sexpr::is_level("width"@),
        sexpr::is_level("type solid"@),
        sexpr::is_level("fill"@),
        sexpr::is_level("none"@),
        sexpr::is_level("solid"@),
        sexpr::is_level("0"@),
        sexpr::is_level("pts"@),
        sexpr::is_level("start"@),
        sexpr::is_level("mid"@),
        sexpr::is_level("end"@),
        sexpr::is_level("center"@),
        sexpr::is_level("fp_line "@),
        sexpr::is_level("fp_arc "@),
        sexpr::is_level("fp_circle "@),
        sexpr::is_level("fp_rect "@),
        sexpr::is_level("fp_poly "@),
{
    reveal_with_fuel(sexpr::inert_upto, 12);
    reveal_strlit("  ");
    reveal_strlit("\n");
    reveal_strlit(" ");
    reveal_strlit("layer");
    reveal_strlit("stroke ");
    reveal_strlit("width");
    reveal_strlit("type solid");
    reveal_strlit("fill");
    reveal_strlit("none");
    reveal_strlit("solid");
    reveal_strlit("0");
    reveal_strlit("pts");
    reveal_strlit("start");
    reveal_strlit("mid");
    reveal_strlit("end");
    reveal_strlit("center");
    reveal_strlit("fp_line ");
    reveal_strlit("fp_arc ");
    reveal_strlit("fp_circle ");
    reveal_strlit("fp_rect ");
    reveal_strlit("fp_poly ");
    sexpr::lemma_level_word("  "@);
    sexpr::lemma_level_word("\n"@);
    sexpr::lemma_level_word(" "@);
    sexpr::lemma_level_word("layer"@);
    sexpr::lemma_level_word("stroke "@);
    sexpr::lemma_level_word("width"@);
    sexpr::lemma_level_word("type solid"@);
    sexpr::lemma_level_word("fill"@);
    sexpr::lemma_level_word("none"@);
    sexpr::lemma_level_word("solid"@);
    sexpr::lemma_level_word("0"@);
    sexpr::lemma_level_word("pts"@);
    sexpr::lemma_level_word("start"@);
    sexpr::lemma_level_word("mid"@);
    sexpr::lemma_level_word("end"@);
    sexpr::lemma_level_word("center"@);
    sexpr::lemma_level_word("fp_line "@);
    sexpr::lemma_level_word("fp_arc "@);
    sexpr::lemma_level_word("fp_circle "@);
    sexpr::lemma_level_word("fp_rect "@);
    sexpr::lemma_level_word("fp_poly "@);
}

proof fn lemma_file_words()
    ensures
        sexpr::is_level("  "@),
        sexpr::is_level("\n"@),
        sexpr::is_level(" "@),
        sexpr::is_level(""@),
        sexpr::is_level("0"@),
        sexpr::is_level("1"@),
        sexpr::is_level("layer"@),
        sexpr::is_level("layer "@),
        sexpr::is_level("attr smd"@),
        sexpr::is_level("attr through_hole"@),
        sexpr::is_level("effects"@),
        sexpr::is_level("font "@),
        sexpr::is_level("size 1 1"@),
        sexpr::is_level("thickness 0.15"@),
        sexpr::is_level("fp_text "@),
        sexpr::is_level("at 0 0"@),
        sexpr::is_level(" hide"@),
        sexpr::is_level("\n    "@),
        sexpr::is_level("\n  "@),
        sexpr::is_level("xyz "@),
        sexpr::is_level("model "@),
        sexpr::is_level("offset"@),
        sexpr::is_level("scale"@),
        sexpr::is_level("rotate"@),
        sexpr::is_level("reference"@),
        sexpr::is_level("value"@),
{
    reveal_with_fuel(sexpr::inert_upto, 19);
    reveal_strlit("  ");
    reveal_strlit("\n");
    reveal_strlit(" ");
    reveal_strlit("");
    reveal_strlit("0");
    reveal_strlit("1");
    reveal_strlit("layer");
    reveal_strlit("layer ");
    reveal_strlit("attr smd");
    reveal_strlit("attr through_hole");
    reveal_strlit("effects");
    reveal_strlit("font ");
    reveal_strlit("size 1 1");
    reveal_strlit("thickness 0.15");
    reveal_strlit("fp_text ");
    reveal_strlit("at 0 0");
    reveal_strlit(" hide");
    reveal_strlit("\n    ");
    reveal_strlit("\n  ");
    reveal_strlit("xyz ");
    reveal_strlit("model ");
    reveal_strlit("offset");
    reveal_strlit("scale");
    reveal_strlit("rotate");
    reveal_strlit("reference");
    reveal_strlit("value");
    sexpr::lemma_level_word("  "@);
    sexpr::lemma_level_word("\n"@);
    sexpr::lemma_level_word(" "@);
    sexpr::lemma_level_word(""@);
    sexpr::lemma_level_word("0"@);
    sexpr::lemma_level_word("1"@);
    sexpr::lemma_level_word("layer"@);
    sexpr::lemma_level_word("layer "@);
    sexpr::lemma_level_word("attr smd"@);
    sexpr::lemma_level_word("attr through_hole"@);
    sexpr::lemma_level_word("effects"@);
    sexpr::lemma_level_word("font "@);
    sexpr::lemma_level_word("size 1 1"@);
    sexpr::lemma_level_word("thickness 0.15"@);
    sexpr::lemma_level_word("fp_text "@);
    sexpr::lemma_level_word("at 0 0"@);
    sexpr::lemma_level_word(" hide"@);
    sexpr::lemma_level_word("\n    "@);
    sexpr::lemma_level_word("\n  "@);
    sexpr::lemma_level_word("xyz "@);
    sexpr::lemma_level_word("model "@);
    sexpr::lemma_level_word("offset"@);
    sexpr::lemma_level_word("scale"@);
    sexpr::lemma_level_word("rotate"@);
    sexpr::lemma_level_word("reference"@);
    sexpr::lemma_level_word("value"@);
}

proof fn lemma_head_words()
    ensures
        sexpr::is_level("footprint "@),
        sexpr::is_level("version"@),
        sexpr::is_level("20221018"@),
        sexpr::is_level("generator cse-importer"@),
        sexpr::is_level("descr "@),
        sexpr::is_level("tags "@),
{
    reveal_with_fuel(sexpr::inert_upto, 24);
    reveal_strlit("footprint ");
    reveal_strlit("version");
    reveal_strlit("20221018");
    reveal_strlit("generator cse-importer");
    reveal_strlit("descr ");
    reveal_strlit("tags ");
    sexpr::lemma_level_word("footprint "@);
    sexpr::lemma_level_word("version"@);
    sexpr::lemma_level_word("20221018"@);
    sexpr::lemma_level_word("generator cse-importer"@);
    sexpr::lemma_level_word("descr "@);
    sexpr::lemma_level_word("tags "@);
}

proof fn lemma_pad_level(
    number: Seq<char>,
    sort: Seq<char>,
    outline: Seq<char>,
    place: Seq<char>,
    size: (Seq<char>, Seq<char>),
    drill: Seq<char>,
    layers: Seq<char>,
)
    requires
        sexpr::is_level(sort),
        sexpr::is_level(outline),
        sexpr::is_level(place),
        sexpr::is_plain_pair(size),
        sexpr::is_level(drill),
        sexpr::is_level(layers),
    ensures
        sexpr::is_level(pad_row(number, sort, outline, place, size, drill, layers)),
{
    broadcast use sexpr::group_level;

    lemma_pad_words();
    sexpr::lemma_plain_level(size.0);
    sexpr::lemma_plain_level(size.1);
}

proof fn lemma_layers_level(drill: DrillView, layer: Seq<char>)
    ensures
        sexpr::is_level(through_layers()),
        sexpr::is_level(pad_layers(drill, layer)),
{
    broadcast use sexpr::group_level;

    lemma_pad_words();
}

proof fn lemma_spot_level(word: Seq<char>, at: (Seq<char>, Seq<char>))
    requires
        sexpr::is_level(word),
        sexpr::is_plain_pair(at),
    ensures
        sexpr::is_level(sexpr::spot(word, at)),
{
    broadcast use sexpr::group_level;

    lemma_pad_words();
    sexpr::lemma_plain_level(at.0);
    sexpr::lemma_plain_level(at.1);
}

proof fn lemma_rows_level(points: Seq<char>, width: Seq<char>, fill: Seq<char>, layer: Seq<char>)
    requires
        sexpr::is_level(points),
        sexpr::is_plain(width),
        sexpr::is_level(fill),
    ensures
        sexpr::is_level(open_row(points, width, layer)),
        sexpr::is_level(closed_row(points, width, fill, layer)),
{
    broadcast use sexpr::group_level;

    lemma_graphic_words();
    sexpr::lemma_plain_level(width);
}

proof fn lemma_line_level(
    word: Seq<char>,
    first: Seq<char>,
    from: (Seq<char>, Seq<char>),
    second: Seq<char>,
    to: (Seq<char>, Seq<char>),
)
    requires
        sexpr::is_level(word),
        sexpr::is_level(first),
        sexpr::is_level(second),
        sexpr::is_plain_pair(from),
        sexpr::is_plain_pair(to),
    ensures
        sexpr::is_level(word + sexpr::spot(first, from) + " "@ + sexpr::spot(second, to)),
{
    broadcast use sexpr::group_level;

    lemma_graphic_words();
    lemma_spot_level(first, from);
    lemma_spot_level(second, to);
}

proof fn lemma_piece_level(p: symbol::PieceView, width: Seq<char>, layer: Seq<char>)
    requires
        symbol::is_plain_piece(p),
        sexpr::is_plain(width),
    ensures
        match p {
            symbol::PieceView::Line { from, to, joined } => sexpr::is_level(
                line_row(from, to, width, layer),
            ),
            symbol::PieceView::Arc { from, mid, to } => sexpr::is_level(
                arc_row(from, mid, to, width, layer),
            ),
        },
{
    lemma_graphic_words();
    match p {
        symbol::PieceView::Line { from, to, joined } => {
            lemma_line_level("fp_line "@, "start"@, from, "end"@, to);
            lemma_rows_level(
                "fp_line "@ + sexpr::spot("start"@, from) + " "@ + sexpr::spot("end"@, to),
                width,
                "none"@,
                layer,
            );
        },
        symbol::PieceView::Arc { from, mid, to } => {
            let head = "fp_arc "@ + sexpr::spot("start"@, from) + " "@ + sexpr::spot("mid"@, mid);
            lemma_line_level("fp_arc "@, "start"@, from, "mid"@, mid);
            lemma_spot_level("end"@, to);
            sexpr::lemma_level_add(head, " "@);
            sexpr::lemma_level_add(head + " "@, sexpr::spot("end"@, to));
            lemma_rows_level(head + " "@ + sexpr::spot("end"@, to), width, "none"@, layer);
        },
    }
}

proof fn lemma_path_level(pieces: Seq<symbol::PieceView>, width: Seq<char>, layer: Seq<char>)
    requires
        sexpr::is_plain(width),
        forall|i: int| 0 <= i < pieces.len() ==> symbol::is_plain_piece(#[trigger] pieces[i]),
    ensures
        sexpr::is_level(path_rows(pieces, width, layer)),
    decreases pieces.len(),
{
    sexpr::lemma_level_empty();
    if pieces.len() > 0 {
        let init = pieces.drop_last();
        assert(forall|i: int| 0 <= i < init.len() ==> init[i] == pieces[i]);
        lemma_path_level(init, width, layer);
        assert(symbol::is_plain_piece(pieces[pieces.len() - 1]));
        lemma_piece_level(pieces.last(), width, layer);
        match pieces.last() {
            symbol::PieceView::Line { from, to, joined } => {
                sexpr::lemma_level_add(
                    path_rows(init, width, layer),
                    line_row(from, to, width, layer),
                );
            },
            symbol::PieceView::Arc { from, mid, to } => {
                sexpr::lemma_level_add(
                    path_rows(init, width, layer),
                    arc_row(from, mid, to, width, layer),
                );
            },
        }
    }
}

proof fn lemma_track_level(
    points: Seq<(Seq<char>, Seq<char>)>,
    width: Seq<char>,
    layer: Seq<char>,
    n: int,
)
    requires
        n <= points.len(),
        sexpr::is_plain(width),
        forall|i: int| 0 <= i < points.len() ==> sexpr::is_plain_pair(#[trigger] points[i]),
    ensures
        sexpr::is_level(track_rows(points, width, layer, n)),
    decreases n,
{
    sexpr::lemma_level_empty();
    if n >= 2 {
        lemma_track_level(points, width, layer, n - 1);
        let from = points[n - 2];
        let to = points[n - 1];
        lemma_piece_level(
            symbol::PieceView::Line { from, to, joined: false },
            width,
            layer,
        );
        sexpr::lemma_level_add(
            track_rows(points, width, layer, n - 1),
            line_row(from, to, width, layer),
        );
    }
}

proof fn lemma_region_level(points: Seq<(Seq<char>, Seq<char>)>, layer: Seq<char>, cutout: bool)
    requires
        forall|i: int| 0 <= i < points.len() ==> sexpr::is_plain_pair(#[trigger] points[i]),
    ensures
        sexpr::is_level(region_row(points, layer, cutout)),
{
    broadcast use sexpr::group_level;

    lemma_graphic_words();
    sexpr::lemma_level_empty();
    reveal_strlit("0");
    assert forall|i: int| 0 <= i < points.len() implies sexpr::is_plain((#[trigger] points[i]).0)
        && sexpr::is_plain(points[i].1) by {
        assert(sexpr::is_plain_pair(points[i]));
    }
    sexpr::lemma_level_spots(points);
    lemma_rows_level(
        "fp_poly "@ + sexpr::entry("pts"@, sexpr::spots(points)),
        "0"@,
        "solid"@,
        layer,
    );
}

proof fn lemma_drawn_level(d: DrawnView)
    requires
        is_measured(d),
    ensures
        sexpr::is_level(rows_of(d)),
{
    match d {
        DrawnView::Pad { at, angle, size, even, drill, label } => {
            lemma_pad_words();
            lemma_layers_level(drill, label.layer);
            lemma_spot_level("at"@, at);
            assert(sexpr::is_level(pad_place(at, angle))) by {
                broadcast use sexpr::group_level;

                sexpr::lemma_plain_level(at.0);
                sexpr::lemma_plain_level(at.1);
                if let Some(a) = angle {
                    sexpr::lemma_plain_level(a);
                }
            }
            assert(sexpr::is_level(drill_text(drill))) by {
                broadcast use sexpr::group_level;

                match drill {
                    DrillView::Surface => {},
                    DrillView::Round { diameter } => {
                        sexpr::lemma_plain_level(diameter);
                    },
                    DrillView::Slot { length, diameter } => {
                        lemma_spot_level("drill oval"@, (length, diameter));
                    },
                }
            }
            lemma_pad_level(
                label.number,
                pad_type(drill, label.plated),
                pad_outline(label.outline, even),
                pad_place(at, angle),
                size,
                drill_text(drill),
                pad_layers(drill, label.layer),
            );
        },
        DrawnView::Track { points, width, layer } => {
            lemma_track_level(points, width, layer_of(layer), points.len() as int);
        },
        DrawnView::Circle { center, end, width, layer } => {
            lemma_graphic_words();
            lemma_line_level("fp_circle "@, "center"@, center, "end"@, end);
            lemma_rows_level(
                "fp_circle "@ + sexpr::spot("center"@, center) + " "@ + sexpr::spot("end"@, end),
                width,
                "none"@,
                layer_of(layer),
            );
        },
        DrawnView::Path { pieces, width, layer } => {
            lemma_path_level(pieces, width, layer_of(layer));
        },
        DrawnView::Rect { from, to, width, layer } => {
            lemma_graphic_words();
            lemma_line_level("fp_rect "@, "start"@, from, "end"@, to);
            lemma_rows_level(
                "fp_rect "@ + sexpr::spot("start"@, from) + " "@ + sexpr::spot("end"@, to),
                width,
                "none"@,
                layer_of(layer),
            );
        },
        DrawnView::Region { points, layer, cutout } => {
            lemma_region_level(points, layer_of(layer), cutout);
        },
        DrawnView::Hole { at, diameter } => {
            lemma_ring_level("np_thru_hole"@, at, diameter, diameter);
        },
        DrawnView::Via { at, outer, bore } => {
            lemma_ring_level("thru_hole"@, at, outer, bore);
        },
    }
}

proof fn lemma_ring_level(
    sort: Seq<char>,
    at: (Seq<char>, Seq<char>),
    size: Seq<char>,
    bore: Seq<char>,
)
    requires
        sort == "np_thru_hole"@ || sort == "thru_hole"@,
        sexpr::is_plain_pair(at),
        sexpr::is_plain(size),
        sexpr::is_plain(bore),
    ensures
        sexpr::is_level(
            pad_row(
                ""@,
                sort,
                "circle"@,
                sexpr::spot("at"@, at),
                (size, size),
                " "@ + sexpr::entry("drill"@, bore),
                through_layers(),
            ),
        ),
{
    broadcast use sexpr::group_level;

    lemma_pad_words();
    lemma_layers_level(DrillView::Surface, ""@);
    lemma_spot_level("at"@, at);
    sexpr::lemma_plain_level(bore);
    lemma_pad_level(
        ""@,
        sort,
        "circle"@,
        sexpr::spot("at"@, at),
        (size, size),
        " "@ + sexpr::entry("drill"@, bore),
        through_layers(),
    );
}

proof fn lemma_body_level(list: Seq<DrawnView>)
    requires
        forall|i: int| 0 <= i < list.len() ==> is_measured(#[trigger] list[i]),
    ensures
        sexpr::is_level(body_of(list)),
    decreases list.len(),
{
    sexpr::lemma_level_empty();
    if list.len() > 0 {
        let init = list.drop_last();
        assert(forall|i: int| 0 <= i < init.len() ==> init[i] == list[i]);
        lemma_body_level(init);
        assert(is_measured(list[list.len() - 1]));
        lemma_drawn_level(list.last());
        sexpr::lemma_level_add(body_of(init), rows_of(list.last()));
    }
}

proof fn lemma_text_level(sort: Seq<char>, value: Seq<char>, layer: Seq<char>, hidden: bool)
    requires
        sexpr::is_level(sort),
    ensures
        sexpr::is_level(text_row(sort, value, layer, hidden)),
{
    broadcast use sexpr::group_level;

    lemma_file_words();
}

proof fn lemma_model_level(path: Option<Seq<char>>, placement: Option<PlacementView>)
    requires
        is_placed(placement),
    ensures
        sexpr::is_level(model_rows(path, placement)),
{
    broadcast use sexpr::group_level;

    lemma_file_words();
    if let Some(p) = placement {
        sexpr::lemma_plain_level(p.offset.0);
        sexpr::lemma_plain_level(p.offset.1);
        sexpr::lemma_plain_level(p.rotation.0);
        sexpr::lemma_plain_level(p.rotation.1);
        sexpr::lemma_plain_level(p.rotation.2);
    }
}

proof fn lemma_measured(list: Seq<DrawnView>)
    ensures
        forall|i: int| 0 <= i < measured(list).len() ==> is_measured(#[trigger] measured(list)[i]),
        (forall|i: int| 0 <= i < list.len() ==> is_measured(#[trigger] list[i])) ==> measured(list)
            == list,
    decreases list.len(),
{
    if list.len() > 0 {
        let init = list.drop_last();
        lemma_measured(init);
        assert forall|i: int| 0 <= i < measured(list).len() implies is_measured(
            #[trigger] measured(list)[i],
        ) by {
            if i < measured(init).len() {
                assert(measured(list)[i] == measured(init)[i]);
            }
        }
        assert(list =~= init.push(list.last()));
        if forall|i: int| 0 <= i < list.len() ==> is_measured(#[trigger] list[i]) {
            assert(forall|i: int| 0 <= i < init.len() ==> init[i] == list[i]);
            assert(is_measured(list[list.len() - 1]));
        }
    }
}

/// A converted package is one form, opened and closed evenly whatever its names
/// and its measures hold, and a line break. With plain measures no shape is left
/// out.
pub proof fn lemma_balanced(
    c: easyeda::ComponentView,
    name: Seq<char>,
    path: Option<Seq<char>>,
    placement: Option<PlacementView>,
    list: Seq<DrawnView>,
)
    ensures
        (forall|i: int| 0 <= i < list.len() ==> is_measured(#[trigger] list[i])) ==> measured(list)
            == list,
        exists|form: Seq<char>|
            #[trigger] symlib::is_block(form) && converted(c, name, path, placement, list) == form
                + "\n"@,
{
    let kept = measured(list);
    let model = placed(placement);
    lemma_measured(list);
    lemma_body_level(kept);
    lemma_model_level(path, model);
    lemma_file_words();
    lemma_head_words();
    lemma_text_level("reference"@, "REF**"@, "F.SilkS"@, false);
    lemma_text_level("value"@, name, "F.Fab"@, true);
    let inner = footprint_inner(c, name, path, model, kept);
    assert(sexpr::is_level(attribute_row(kept))) by {
        broadcast use sexpr::group_level;

    }
    assert(sexpr::is_level(inner)) by {
        broadcast use sexpr::group_level;

    }
    sexpr::lemma_form_block(inner);
    assert(symlib::is_block(sexpr::form(inner)));
}

/// A cutout adds nothing to a footprint: KiCad has no subtractive primitive, and
/// drawing it would be worse than leaving it out.
pub proof fn lemma_cutout_dropped(
    before: Seq<DrawnView>,
    points: Seq<(Seq<char>, Seq<char>)>,
    layer: Seq<char>,
)
    ensures
        body_of(before.push(DrawnView::Region { points, layer, cutout: true })) == body_of(before),
{
    let cut = DrawnView::Region { points, layer, cutout: true };
    assert(before.push(cut).drop_last() =~= before);
    assert(rows_of(cut) =~= Seq::<char>::empty());
    assert(body_of(before) + Seq::<char>::empty() =~= body_of(before));
}

} // verus!
