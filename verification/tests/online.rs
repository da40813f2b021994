//! Components from the catalogue: how their records are read, and the files they
//! become once they have been measured.

use std::collections::BTreeMap;

use kilib::config::Config;
use kilib::importer::{Action, Extracted, Kind, Pending};
use kilib::manifest::Manifest;
use kilib::online::easyeda::Component;
use kilib::online::footprint::{self, Drill, Model3d, Placement};
use kilib::online::svgpath::Step;
use kilib::online::symbol::{self, Piece, Style};
use kilib::online::Measured;
use kilib::online::{easyeda, svgpath};
use kilib::{importer, manifest, online, symlib};

// -------------------------------------------------------------- measurements

/// One EasyEDA unit, in millimetres.
const UNIT_MM: f64 = 0.254;
/// KiCad's default silkscreen line width, used when EasyEDA gives none.
const DEFAULT_LINE_MM: f64 = 0.12;

// ------------------------------------------------------------------ numbers

/// EasyEDA units -> millimetres.
fn mm(units: f64) -> f64 {
    units * UNIT_MM
}

/// Three decimals is finer than any KiCad grid and avoids `-0`.
fn num(value: f64) -> String {
    let rounded = (value * 1000.0).round() / 1000.0;
    let rounded = if rounded == 0.0 { 0.0 } else { rounded };
    let mut text = format!("{rounded:.3}");
    if text.contains('.') {
        text = text.trim_end_matches('0').trim_end_matches('.').to_string();
    }
    text
}

/// EasyEDA units -> millimetres, formatted for a KiCad s-expression.
fn to_mm(units: f64) -> String {
    num(mm(units))
}

fn round2(value: f64) -> f64 {
    (value * 100.0).round() / 100.0
}

/// A number as a record writes it.
fn number(text: &str) -> f64 {
    text.trim().parse().unwrap_or(0.0)
}

/// A number as JSON gives it: plain, or in quotes.
fn json_number(text: &str) -> f64 {
    match serde_json::from_str::<serde_json::Value>(text) {
        Ok(value) => value
            .as_f64()
            .or_else(|| value.as_str().and_then(|s| s.parse().ok()))
            .unwrap_or(0.0),
        Err(_) => 0.0,
    }
}

// -------------------------------------------------------------------- paths

#[derive(Debug, Clone, Copy, PartialEq)]
struct Point {
    x: f64,
    y: f64,
}

impl Point {
    fn new(x: f64, y: f64) -> Self {
        Point { x, y }
    }

    /// In millimetres from the origin, with y growing upwards.
    fn placed(self, ox: f64, oy: f64) -> (String, String) {
        (to_mm(self.x - ox), to_mm(oy - self.y))
    }
}

#[derive(Debug, Clone, Copy, PartialEq)]
enum Seg {
    Line { from: Point, to: Point },
    /// KiCad's arc form: through `mid`, from `from` to `to`.
    Arc { from: Point, mid: Point, to: Point },
}

fn offset(cursor: Point, x: f64, y: f64, relative: bool) -> Point {
    if relative {
        Point::new(cursor.x + x, cursor.y + y)
    } else {
        Point::new(x, y)
    }
}

/// Follows the steps of a path.
fn segments(steps: &[Step]) -> Vec<Seg> {
    let mut segs = Vec::new();
    let mut cursor = Point::new(0.0, 0.0);
    let mut start = cursor;
    for step in steps {
        let to = match step {
            Step::Move { x, y, relative } => {
                cursor = offset(cursor, number(x), number(y), *relative);
                start = cursor;
                continue;
            }
            Step::Line { x, y, relative } => offset(cursor, number(x), number(y), *relative),
            Step::Horizontal { x, relative } => {
                let x = number(x);
                Point::new(if *relative { cursor.x + x } else { x }, cursor.y)
            }
            Step::Vertical { y, relative } => {
                let y = number(y);
                Point::new(cursor.x, if *relative { cursor.y + y } else { y })
            }
            Step::Arc { rx, ry, rotation, large, sweep, x, y, relative } => {
                let to = offset(cursor, number(x), number(y), *relative);
                let arcs = arc_segments(
                    cursor,
                    to,
                    (number(rx), number(ry)),
                    number(rotation),
                    number(large) != 0.0,
                    number(sweep) != 0.0,
                );
                if arcs.is_empty() {
                    // Degenerate arc (zero radius): SVG says draw a line.
                    segs.push(Seg::Line { from: cursor, to });
                } else {
                    segs.extend(arcs);
                }
                cursor = to;
                continue;
            }
            Step::Close => {
                if cursor != start {
                    segs.push(Seg::Line { from: cursor, to: start });
                }
                cursor = start;
                continue;
            }
        };
        segs.push(Seg::Line { from: cursor, to });
        cursor = to;
    }
    segs
}

/// The vertices a path visits, for shapes that become filled polygons.
fn path_points(steps: &[Step]) -> Vec<Point> {
    let mut points = Vec::new();
    for seg in segments(steps) {
        let (from, to) = match seg {
            Seg::Line { from, to } => (from, to),
            // A filled region's arc is approximated by its chord plus midpoint;
            // good enough for the courtyard/fab outlines this is used for.
            Seg::Arc { from, mid, to } => {
                if points.last() != Some(&from) {
                    points.push(from);
                }
                points.push(mid);
                (mid, to)
            }
        };
        if points.last() != Some(&from) {
            points.push(from);
        }
        points.push(to);
    }
    points.dedup();
    points
}

/// A path as the pieces a file draws it in.
fn pieces(steps: &[Step], ox: f64, oy: f64) -> Vec<Piece> {
    let mut out = Vec::new();
    let mut end: Option<Point> = None;
    for seg in segments(steps) {
        match seg {
            Seg::Line { from, to } => {
                out.push(Piece::Line {
                    from: from.placed(ox, oy),
                    to: to.placed(ox, oy),
                    joined: end == Some(from),
                });
                end = Some(to);
            }
            Seg::Arc { from, mid, to } => {
                out.push(Piece::Arc {
                    from: from.placed(ox, oy),
                    mid: mid.placed(ox, oy),
                    to: to.placed(ox, oy),
                });
                end = None;
            }
        }
    }
    out
}

/// One SVG elliptical arc as one or two KiCad three-point arcs.
///
/// A sweep wider than a half turn is split in two: KiCad infers the direction
/// from the midpoint, so a nearly complete circle expressed as a single arc
/// would collapse — its start and end almost coincide.
fn arc_segments(
    from: Point,
    to: Point,
    radii: (f64, f64),
    rotation_deg: f64,
    large_arc: bool,
    sweep: bool,
) -> Vec<Seg> {
    let Some(arc) = centre_form(from, to, radii, rotation_deg, large_arc, sweep) else {
        return Vec::new();
    };
    let at = |fraction: f64| arc.point(arc.theta + arc.delta * fraction);

    if arc.delta.abs() <= std::f64::consts::PI {
        vec![Seg::Arc { from, mid: at(0.5), to }]
    } else {
        let middle = at(0.5);
        vec![
            Seg::Arc { from, mid: at(0.25), to: middle },
            Seg::Arc { from: middle, mid: at(0.75), to },
        ]
    }
}

/// An arc in centre form.
struct Arc {
    centre: Point,
    rx: f64,
    ry: f64,
    phi: f64,
    theta: f64,
    delta: f64,
}

impl Arc {
    fn point(&self, theta: f64) -> Point {
        let (sin_phi, cos_phi) = self.phi.sin_cos();
        let (sin_t, cos_t) = theta.sin_cos();
        Point::new(
            self.centre.x + self.rx * cos_phi * cos_t - self.ry * sin_phi * sin_t,
            self.centre.y + self.rx * sin_phi * cos_t + self.ry * cos_phi * sin_t,
        )
    }
}

/// SVG endpoint-to-centre arc conversion.
fn centre_form(
    from: Point,
    to: Point,
    radii: (f64, f64),
    rotation_deg: f64,
    large_arc: bool,
    sweep: bool,
) -> Option<Arc> {
    let (mut rx, mut ry) = (radii.0.abs(), radii.1.abs());
    if rx == 0.0 || ry == 0.0 || (from.x == to.x && from.y == to.y) {
        return None;
    }
    let phi = rotation_deg.to_radians();
    let (sin_phi, cos_phi) = phi.sin_cos();

    let dx = (from.x - to.x) / 2.0;
    let dy = (from.y - to.y) / 2.0;
    let x1p = cos_phi * dx + sin_phi * dy;
    let y1p = -sin_phi * dx + cos_phi * dy;

    // Enlarge the radii if they are too small to span the two endpoints.
    let lambda = (x1p * x1p) / (rx * rx) + (y1p * y1p) / (ry * ry);
    if lambda > 1.0 {
        let scale = lambda.sqrt();
        rx *= scale;
        ry *= scale;
    }

    let numerator = rx * rx * ry * ry - rx * rx * y1p * y1p - ry * ry * x1p * x1p;
    let denominator = rx * rx * y1p * y1p + ry * ry * x1p * x1p;
    if denominator == 0.0 {
        return None;
    }
    let sign = if large_arc == sweep { -1.0 } else { 1.0 };
    let coefficient = sign * (numerator / denominator).max(0.0).sqrt();

    let cxp = coefficient * rx * y1p / ry;
    let cyp = -coefficient * ry * x1p / rx;
    let cx = cos_phi * cxp - sin_phi * cyp + (from.x + to.x) / 2.0;
    let cy = sin_phi * cxp + cos_phi * cyp + (from.y + to.y) / 2.0;

    let start_vec = ((x1p - cxp) / rx, (y1p - cyp) / ry);
    let end_vec = ((-x1p - cxp) / rx, (-y1p - cyp) / ry);
    let theta = angle((1.0, 0.0), start_vec);
    let mut delta = angle(start_vec, end_vec) % (2.0 * std::f64::consts::PI);
    if !sweep && delta > 0.0 {
        delta -= 2.0 * std::f64::consts::PI;
    } else if sweep && delta < 0.0 {
        delta += 2.0 * std::f64::consts::PI;
    }

    Some(Arc { centre: Point::new(cx, cy), rx, ry, phi, theta, delta })
}

fn angle(u: (f64, f64), v: (f64, f64)) -> f64 {
    let dot = u.0 * v.0 + u.1 * v.1;
    let len = (u.0 * u.0 + u.1 * u.1).sqrt() * (v.0 * v.0 + v.1 * v.1).sqrt();
    if len == 0.0 {
        return 0.0;
    }
    let sign = if u.0 * v.1 - u.1 * v.0 < 0.0 { -1.0 } else { 1.0 };
    sign * (dot / len).clamp(-1.0, 1.0).acos()
}

// ------------------------------------------------------------------ symbols

/// EasyEDA stroke widths are in the same 10-mil units as coordinates; `0`
/// tells KiCad to use its default, which is what a hairline should be.
fn stroked(style: Style) -> Style {
    let width = number(&style.stroke);
    let stroke = if width > 1.0 { to_mm(width) } else { "0".to_string() };
    Style { stroke, fill: style.fill }
}

fn snap_angle(degrees: f64) -> i32 {
    ((degrees / 90.0).round() as i32 * 90).rem_euclid(360)
}

fn numbers(points: &[(String, String)]) -> Vec<Point> {
    points.iter().map(|p| Point::new(number(&p.0), number(&p.1))).collect()
}

fn measure_symbol(shape: symbol::Shape, ox: f64, oy: f64) -> Option<symbol::Drawn> {
    match shape {
        symbol::Shape::Pin { x, y, steps, label } => {
            let segs = segments(&steps);
            let (dx, dy) = match (segs.first(), segs.last()) {
                (Some(first), Some(last)) => {
                    let start = match first {
                        Seg::Line { from, .. } | Seg::Arc { from, .. } => *from,
                    };
                    let end = match last {
                        Seg::Line { to, .. } | Seg::Arc { to, .. } => *to,
                    };
                    (end.x - start.x, end.y - start.y)
                }
                // No path: fall back to a default-length pin pointing at the body.
                _ => (10.0, 0.0),
            };
            let length = (dx * dx + dy * dy).sqrt();
            let length = if length <= 0.0 { 10.0 } else { length };
            // KiCad's angle points from the connection end towards the body, in
            // a y-up frame — hence the negated dy.
            let angle = snap_angle((-dy).atan2(dx).to_degrees());
            Some(symbol::Drawn::Pin {
                at: Point::new(number(&x), number(&y)).placed(ox, oy),
                angle: angle.to_string(),
                length: to_mm(length),
                label,
            })
        }
        symbol::Shape::Rectangle { x, y, width, height, style } => {
            let (x, y) = (number(&x), number(&y));
            Some(symbol::Drawn::Rectangle {
                from: Point::new(x, y).placed(ox, oy),
                to: Point::new(x + number(&width), y + number(&height)).placed(ox, oy),
                style: stroked(style),
            })
        }
        symbol::Shape::Ellipse { x, y, rx, ry, style } => {
            // KiCad symbols have no ellipse primitive; the mean radius is the
            // closest faithful circle.
            let radius = (number(&rx).abs() + number(&ry).abs()) / 2.0;
            Some(symbol::Drawn::Circle {
                at: Point::new(number(&x), number(&y)).placed(ox, oy),
                radius: to_mm(radius),
                style: stroked(style),
            })
        }
        symbol::Shape::Polyline { points, polygon, style } => {
            let points = numbers(&points);
            Some(symbol::Drawn::Polyline {
                closed: points.first() == points.last(),
                points: points.iter().map(|p| p.placed(ox, oy)).collect(),
                polygon,
                style: stroked(style),
            })
        }
        symbol::Shape::Path { steps, style } => {
            Some(symbol::Drawn::Path { pieces: pieces(&steps, ox, oy), style: stroked(style) })
        }
        symbol::Shape::Other => None,
    }
}

// --------------------------------------------------------------- footprints

fn line_width(units: f64) -> String {
    let width = mm(units);
    num(if width <= 0.0 { DEFAULT_LINE_MM } else { width })
}

fn measure_package(shape: footprint::Shape, ox: f64, oy: f64) -> Option<footprint::Drawn> {
    match shape {
        footprint::Shape::Pad {
            x,
            y,
            width,
            height,
            hole_radius,
            hole_length,
            rotation,
            label,
        } => {
            let (width, height) = (number(&width), number(&height));
            let radius = number(&hole_radius);
            let length = number(&hole_length);
            if width <= 0.0 && height <= 0.0 && radius <= 0.0 {
                return None;
            }
            // EasyEDA rotates clockwise on a y-down canvas; KiCad rotates
            // counter-clockwise on a y-up board.
            let angle = (360.0 - number(&rotation)).rem_euclid(360.0);
            let drill = if radius > 0.0 {
                let diameter = to_mm(radius * 2.0);
                if length > 0.0 {
                    // A slotted hole: EasyEDA gives the extra length, KiCad
                    // wants both axes.
                    Drill::Slot { length: to_mm(length), diameter }
                } else {
                    Drill::Round { diameter }
                }
            } else {
                Drill::Surface
            };
            Some(footprint::Drawn::Pad {
                at: Point::new(number(&x), number(&y)).placed(ox, oy),
                angle: if angle == 0.0 { None } else { Some(num(angle)) },
                size: (to_mm(width), to_mm(height)),
                even: (width - height).abs() < 1e-6,
                drill,
                label,
            })
        }
        footprint::Shape::Track { stroke, layer, points } => Some(footprint::Drawn::Track {
            points: numbers(&points).iter().map(|p| p.placed(ox, oy)).collect(),
            width: line_width(number(&stroke)),
            layer,
        }),
        footprint::Shape::Circle { x, y, radius, stroke, layer } => {
            let (x, y, radius) = (number(&x), number(&y), number(&radius));
            if radius <= 0.0 {
                return None;
            }
            Some(footprint::Drawn::Circle {
                center: Point::new(x, y).placed(ox, oy),
                end: Point::new(x + radius, y).placed(ox, oy),
                width: line_width(number(&stroke)),
                layer,
            })
        }
        footprint::Shape::Arc { stroke, layer, steps } => Some(footprint::Drawn::Path {
            pieces: pieces(&steps, ox, oy),
            width: line_width(number(&stroke)),
            layer,
        }),
        footprint::Shape::Rect { x, y, width, height, layer } => {
            let (x, y) = (number(&x), number(&y));
            let (width, height) = (number(&width), number(&height));
            if width == 0.0 || height == 0.0 {
                return None;
            }
            Some(footprint::Drawn::Rect {
                from: Point::new(x, y).placed(ox, oy),
                to: Point::new(x + width, y + height).placed(ox, oy),
                width: num(DEFAULT_LINE_MM),
                layer,
            })
        }
        footprint::Shape::Region { layer, steps, cutout } => Some(footprint::Drawn::Region {
            points: path_points(&steps).iter().map(|p| p.placed(ox, oy)).collect(),
            layer,
            cutout,
        }),
        footprint::Shape::Hole { x, y, radius } => {
            let diameter = mm(number(&radius) * 2.0);
            if diameter <= 0.0 {
                return None;
            }
            Some(footprint::Drawn::Hole {
                at: Point::new(number(&x), number(&y)).placed(ox, oy),
                diameter: num(diameter),
            })
        }
        footprint::Shape::Via { x, y, diameter, hole_radius } => {
            let outer = mm(number(&diameter));
            if outer <= 0.0 {
                return None;
            }
            let bore = mm(number(&hole_radius) * 2.0);
            Some(footprint::Drawn::Via {
                at: Point::new(number(&x), number(&y)).placed(ox, oy),
                outer: num(outer),
                bore: num(bore.max(0.1)),
            })
        }
        footprint::Shape::Other => None,
    }
}

/// Where a 3D model sits on its footprint. KiCad's 3D viewer is y-up like the
/// board, EasyEDA's data is y-down like the canvas.
fn measure_model(model: &Model3d, fx: f64, fy: f64) -> Placement {
    let turned = |text: &str| num((360.0 - number(text)) % 360.0);
    Placement {
        offset: (
            num(round2(mm(number(&model.origin.0) - fx))),
            num(round2(-mm(number(&model.origin.1) - fy))),
        ),
        rotation: (
            turned(&model.rotation.0),
            turned(&model.rotation.1),
            turned(&model.rotation.2),
        ),
    }
}

// --------------------------------------------------------------- components

fn measure(component: &Component) -> Measured {
    let (ox, oy) =
        (json_number(&component.symbol_origin.0), json_number(&component.symbol_origin.1));
    let (fx, fy) =
        (json_number(&component.package_origin.0), json_number(&component.package_origin.1));
    Measured {
        symbol: component
            .symbol_shapes
            .iter()
            .filter_map(|s| measure_symbol(symbol::read_shape(s), ox, oy))
            .collect(),
        package: component
            .package_shapes
            .iter()
            .filter_map(|s| measure_package(footprint::read_shape(s), fx, fy))
            .collect(),
        placement: footprint::model_info(component).map(|m| measure_model(&m, fx, fy)),
    }
}


// ------------------------------------------------------------------- records

/// A component in the shape the EasyEDA API returns, without the network.
fn stub_component() -> Component {
    Component {
        lcsc: "C7420".to_string(),
        title: "NC7SZ125M5X".to_string(),
        manufacturer: "onsemi".to_string(),
        datasheet: "https://lcsc.com/product-detail/C7420.html".to_string(),
        prefix: "U?".to_string(),
        symbol_origin: ("400.0".to_string(), "300.0".to_string()),
        symbol_shapes: vec![
            // An input pin on the left, pointing right towards the body.
            "P~show~1~1~380~310~180~gge11~0^^380~310^^M 380 310 h 20~#880000\
             ^^1~402~313~0~OE~start~~~#0000FF^^1~395~309~0~1~end~~~#0000FF^^0~397~310^^0~"
                .to_string(),
            // A power pin on the right, pointing left, drawn with a bubble.
            "P~show~4~2~470~300~0~gge18~0^^470~300^^M 470 300 h -20~#880000\
             ^^1~448~303~0~VCC~end~~~#0000FF^^1~455~299~0~2~start~~~#0000FF^^1~467~300^^0~"
                .to_string(),
            "R~400~300~~~50~40~#000000~1~0~none~gge60~0~".to_string(),
        ],
        package_name: "SOT-23-5".to_string(),
        package_origin: ("100.0".to_string(), "100.0".to_string()),
        package_shapes: vec![
            "PAD~RECT~110~90~4~2~1~~1~0~~0~gge1~0~~Y".to_string(),
            "PAD~ELLIPSE~90~110~6~6~11~~2~1.5~~0~gge2~0~~Y".to_string(),
            "TRACK~1~3~~100 100 110 100~gge3~0".to_string(),
            "SOLIDREGION~99~~M 100 100 L 110 100 L 110 110 Z~solid~gge4~~~~0".to_string(),
            "HOLE~100~100~2~gge5~0".to_string(),
            r#"SVGNODE~{"gId":"g1_outline","attrs":{"c_origin":"100,100","z":"-13.7795","c_rotation":"0,0,180","uuid":"abc123","title":"SOT-23-5"}}"#.to_string(),
        ],
    }
}

fn symbol_text(component: &Component, footprint_ref: Option<&str>) -> String {
    symbol::convert(component, footprint_ref, &measure(component).symbol)
}

fn footprint_text(component: &Component, name: &str, model_path: Option<&str>) -> String {
    let m = measure(component);
    footprint::convert(component, name, model_path, &m.placement, &m.package)
}

#[test]
fn svg_paths_flatten_to_lines_and_close_subpaths() {
    let segs = segments(&svgpath::parse_path("M 10 10 L 20 10 v 10 Z"));
    assert_eq!(segs.len(), 3, "{segs:?}");
    let Seg::Line { from, to } = segs[0] else {
        panic!("expected a line, got {:?}", segs[0]);
    };
    assert_eq!((from.x, from.y), (10.0, 10.0));
    assert_eq!((to.x, to.y), (20.0, 10.0));
    // `Z` closes back to the start of the subpath.
    let Seg::Line { to, .. } = segs[2] else {
        panic!("expected a closing line");
    };
    assert_eq!((to.x, to.y), (10.0, 10.0));
}

#[test]
fn a_full_circle_arc_becomes_two_kicad_arcs() {
    // EasyEDA draws pin-1 dots as one arc whose end almost meets its start.
    let segs = segments(&svgpath::parse_path("M 0 1 A 1 1 0 1 1 0.01 1"));
    assert_eq!(segs.len(), 2, "a >180 degree sweep must be split: {segs:?}");
    for seg in &segs {
        let Seg::Arc { from, mid, to } = seg else {
            panic!("expected arcs, got {seg:?}");
        };
        // Every point stays on the unit circle centred at the origin.
        for p in [from, mid, to] {
            let radius = (p.x * p.x + p.y * p.y).sqrt();
            assert!((radius - 1.0).abs() < 0.02, "{p:?} is not on the circle");
        }
        // A midpoint that coincides with an endpoint is the collapse this
        // split exists to prevent.
        assert!((mid.x - from.x).abs() + (mid.y - from.y).abs() > 0.1);
    }
}

#[test]
fn a_path_ends_at_what_it_does_not_know() {
    let steps = svgpath::parse_path("M1-2e1L.5,3 4 C 9 9 L 1 1");
    assert_eq!(steps.len(), 2, "the odd number and everything past C are left out");
    let segs = segments(&steps);
    assert_eq!(
        segs,
        vec![Seg::Line { from: Point::new(1.0, -20.0), to: Point::new(0.5, 3.0) }]
    );
    // The next move starts a subpath of its own.
    let steps = svgpath::parse_path("M 0 0 L 1 0 Q 5 5 6 6 L 7 7 M 10 10 L 11 10");
    assert_eq!(
        segments(&steps),
        vec![
            Seg::Line { from: Point::new(0.0, 0.0), to: Point::new(1.0, 0.0) },
            Seg::Line { from: Point::new(10.0, 10.0), to: Point::new(11.0, 10.0) },
        ]
    );
    let steps = svgpath::parse_path("M 5 L 1 1 M 2 2 L 3 3");
    assert_eq!(
        segments(&steps),
        vec![Seg::Line { from: Point::new(2.0, 2.0), to: Point::new(3.0, 3.0) }]
    );
    let steps = svgpath::parse_path("m 1 1 2 2 h3 V 9");
    let segs = segments(&steps);
    assert_eq!(segs.len(), 3);
    assert_eq!(segs[0], Seg::Line { from: Point::new(1.0, 1.0), to: Point::new(3.0, 3.0) });
    assert_eq!(segs[2], Seg::Line { from: Point::new(6.0, 3.0), to: Point::new(6.0, 9.0) });
    assert_eq!(
        svgpath::parse_points("1 2, x 3\n4 5"),
        vec![("1".to_string(), "2".to_string()), ("3".to_string(), "4".to_string())]
    );
}

#[test]
fn a_shape_that_cannot_be_written_is_left_out() {
    let mut component = stub_component();
    component.title = "a)\"b(".to_string();
    let plain = symbol_text(&component, None);
    let mut shapes = measure(&component).symbol;
    shapes.push(symbol::Drawn::Circle {
        at: ("0".to_string(), "0) (".to_string()),
        radius: "1".to_string(),
        style: Style { stroke: "0".to_string(), fill: "none".to_string() },
    });
    let text = symbol::convert(&component, None, &shapes);
    assert_eq!(text, plain);
    let lib = symlib::parse(&text).ok().unwrap();
    assert_eq!(lib.symbols.len(), 1);
    assert_eq!(lib.symbols[0].name, online::sanitize("a)\"b("));
}

#[test]
fn short_easyeda_records_do_not_panic() {
    let record = easyeda::Record::new("PAD~RECT~110");
    assert_eq!(record.kind(), "PAD");
    assert_eq!(number(&record.num(2)), 110.0);
    // Fields past the end read as empty/zero rather than failing the import.
    assert_eq!(record.str(9), "");
    assert_eq!(number(&record.num(9)), 0.0);
    assert_eq!(record.opt_num(9), None);
}

#[test]
fn numbers_are_what_a_float_reads() {
    for text in ["1", "-1.5", "+.5", "5.", "1e9", "1E-3", "inf", "-Infinity", "NaN"] {
        assert!(easyeda::reads_as_number(text), "{text}");
        assert!(text.parse::<f64>().is_ok(), "{text}");
    }
    for text in ["", ".", "1e", "e5", "1.2.3", "0x10", "1 ", "--1", "infinit"] {
        assert!(!easyeda::reads_as_number(text), "{text}");
        assert!(text.parse::<f64>().is_err(), "{text}");
    }
}

// --------------------------------------------------------------- conversions

#[test]
fn symbol_conversion_produces_a_loadable_library() {
    let component = stub_component();
    let text = symbol_text(&component, Some("footprints:SOT-23-5"));

    // It must survive the same parser the merged library uses.
    let lib = symlib::parse(&text).ok().expect("generated symbol should parse");
    assert_eq!(lib.symbols.len(), 1, "one top-level symbol");
    assert_eq!(lib.symbols[0].name, "NC7SZ125M5X");

    assert!(text.contains(r#"(property "Footprint" "footprints:SOT-23-5""#));
    assert!(text.contains(r#"(property "LCSC" "C7420""#));

    // Origin (400,300), pin dot at (380,310): 20 units left and 10 below, and
    // the y axis flips. The path runs +20 units in x, so the body is to the
    // right, which is KiCad's angle 0.
    assert!(
        text.contains(r#"(pin input line (at -5.08 -2.54 0) (length 5.08)"#),
        "{text}"
    );
    assert!(text.contains(r#"(name "OE""#));
    // The right-hand pin points back at the body, and its bubble makes it
    // an inverted pin.
    assert!(
        text.contains(r#"(pin power_in inverted (at 17.78 0 180) (length 5.08)"#),
        "{text}"
    );
    // Body rectangle: (400,300) to (450,340) with y flipped.
    assert!(
        text.contains("(rectangle (start 0 0) (end 12.7 -10.16))")
            || text.contains("(rectangle (start 0 0) (end 12.7 -10.16)"),
        "{text}"
    );
}

#[test]
fn the_symbol_file_is_written_to_the_letter() {
    let mut component = stub_component();
    component.symbol_shapes = vec![
        "R~400~300~~~50~40~#000000~2~0~#FFF~gge60~0~".to_string(),
        "PG~400 300 410 300 410 310~#000~1~0~none~g~0".to_string(),
        "PT~M 400 300 L 410 300 L 410 310~#000~1~0~none~g~0".to_string(),
    ];
    component.manufacturer = String::new();
    let text = symbol_text(&component, None);
    let expected = r#"(kicad_symbol_lib (version 20211014) (generator cse-importer)
  (symbol "NC7SZ125M5X" (pin_names (offset 0.254)) (in_bom yes) (on_board yes)
    (property "Reference" "U" (id 0) (at 0 0 0)
      (effects (font (size 1.27 1.27)))
    )
    (property "Value" "NC7SZ125M5X" (id 1) (at 0 0 0)
      (effects (font (size 1.27 1.27)))
    )
    (property "Footprint" "" (id 2) (at 0 0 0)
      (effects (font (size 1.27 1.27)) hide)
    )
    (property "Datasheet" "https://lcsc.com/product-detail/C7420.html" (id 3) (at 0 0 0)
      (effects (font (size 1.27 1.27)) hide)
    )
    (property "LCSC" "C7420" (id 4) (at 0 0 0)
      (effects (font (size 1.27 1.27)) hide)
    )
    (symbol "NC7SZ125M5X_0_1"
      (rectangle (start 0 0) (end 12.7 -10.16)
        (stroke (width 0.508) (type default))
        (fill (type background))
      )
      (polyline
        (pts (xy 0 0) (xy 2.54 0) (xy 2.54 -2.54) (xy 0 0))
        (stroke (width 0) (type default))
        (fill (type none))
      )
      (polyline
        (pts (xy 0 0) (xy 2.54 0) (xy 2.54 -2.54))
        (stroke (width 0) (type default))
        (fill (type none))
      )
    )
    (symbol "NC7SZ125M5X_1_1"
    )
  )
)
"#;
    assert_eq!(text, expected);
}

#[test]
fn footprint_conversion_maps_pads_layers_and_holes() {
    let component = stub_component();
    let text = footprint_text(&component, "SOT-23-5", None);

    // Surface pad: 10 units right and 10 up from the origin, 4x2 units.
    assert!(
        text.contains(r#"(pad "1" smd rect (at 2.54 2.54) (size 1.016 0.508) (layers "F.Cu" "F.Paste" "F.Mask"))"#),
        "{text}"
    );
    // Through-hole pad: a 1.5-unit hole radius becomes a 3-unit drill.
    assert!(
        text.contains(r#"(pad "2" thru_hole circle (at -2.54 -2.54) (size 1.524 1.524) (drill 0.762) (layers "*.Cu" "*.Mask"))"#),
        "{text}"
    );
    assert!(text.contains(r#"(fp_line (start 0 0) (end 2.54 0)"#), "{text}");
    assert!(text.contains(r#"(layer "F.SilkS")"#));
    // EasyEDA layer 99 is a component outline, which is KiCad's fab layer.
    assert!(
        text.contains(r#"(fp_poly"#) && text.contains(r#"(layer "F.Fab")"#),
        "{text}"
    );
    assert!(text.contains(r#"np_thru_hole circle (at 0 0)"#), "{text}");
    // Mixed pad kinds must not claim to be a pure SMD footprint.
    assert!(!text.contains("(attr smd)"), "{text}");
}

#[test]
fn every_package_shape_has_its_line() {
    let mut component = stub_component();
    component.package_shapes = vec![
        "PAD~OVAL~100~100~4~2~2~~3~0~~90~gge1~0~~Y".to_string(),
        "PAD~ELLIPSE~100~100~4~2~11~~4~1~~0~gge1~5~~N".to_string(),
        "PAD~RECT~100~100~0~0~1~~9~0~~0~g~0~~Y".to_string(),
        "CIRCLE~100~100~5~0~12~g~0".to_string(),
        "ARC~1~3~~M 100 99 A 1 1 0 0 1 101 100~~g~0".to_string(),
        "RECT~100~100~10~5~13~g".to_string(),
        "VIA~100~100~4~~0~g~0".to_string(),
        "SOLIDREGION~3~~M 100 100 L 110 100 L 110 110 Z~cutout~g".to_string(),
        "TEXT~whatever".to_string(),
    ];
    let text = footprint_text(&component, "X", None);
    for line in [
        r#"  (pad "3" smd oval (at 0 0 270) (size 1.016 0.508) (layers "B.Cu" "B.Paste" "B.Mask"))"#,
        r#"  (pad "4" np_thru_hole oval (at 0 0) (size 1.016 0.508) (drill oval 1.27 0.508) (layers "*.Cu" "*.Mask"))"#,
        r#"  (fp_circle (center 0 0) (end 1.27 0) (stroke (width 0.12) (type solid)) (fill none) (layer "Cmts.User"))"#,
        r#"  (fp_arc (start 0 0.254) (mid 0.18 0.18) (end 0.254 0) (stroke (width 0.254) (type solid)) (layer "F.SilkS"))"#,
        r#"  (fp_rect (start 0 0) (end 2.54 -1.27) (stroke (width 0.12) (type solid)) (fill none) (layer "F.Fab"))"#,
        r#"  (pad "" thru_hole circle (at 0 0) (size 1.016 1.016) (drill 0.1) (layers "*.Cu" "*.Mask"))"#,
    ] {
        assert!(text.lines().any(|l| l == line), "{line}\nis not in\n{text}");
    }
    assert!(!text.contains("pad \"9\""), "a pad without any extent is left out");
    assert!(!text.contains("fp_poly"), "a cutout is left out");
    assert!(!text.contains("(attr"), "both kinds of pad are there");
}

#[test]
fn the_3d_model_reference_ignores_the_easyeda_z_field() {
    let component = stub_component();
    let model = footprint::model_info(&component).expect("stub has an SVGNODE");
    assert_eq!(model.uuid, "abc123");
    // z is descriptive, not an offset.
    let placed = measure(&component).placement.expect("it has a place");
    assert_eq!((number(&placed.offset.0), number(&placed.offset.1)), (0.0, 0.0));
    let turned = (
        number(&placed.rotation.0),
        number(&placed.rotation.1),
        number(&placed.rotation.2),
    );
    assert_eq!(turned, (0.0, 0.0, 180.0));

    let text = footprint_text(&component, "SOT-23-5", Some("/lib/3dmodels/X.stp"));
    assert!(text.contains(r#"(model "/lib/3dmodels/X.stp""#), "{text}");
    assert!(text.contains("(offset (xyz 0 0 0))"), "{text}");
    assert!(text.contains("(rotate (xyz 0 0 180))"), "{text}");
}

#[test]
fn a_node_that_is_no_json_is_passed_over() {
    let mut component = stub_component();
    component.package_shapes = vec![
        "SVGNODE~{nonsense".to_string(),
        r#"SVGNODE~{"attrs":{"uuid":""}}"#.to_string(),
        r#"SVGNODE~{"attrs":{"uuid":"u1","c_origin":"110,80"}}"#.to_string(),
    ];
    let model = footprint::model_info(&component).expect("the last one counts");
    assert_eq!(model.uuid, "u1");
    let placed = measure(&component).placement.unwrap();
    assert_eq!(placed.offset, ("2.54".to_string(), "5.08".to_string()));
}

// ------------------------------------------------------------------ the tree

fn config_for(root: &str) -> Config {
    let lib = format!("{root}/lib");
    Config {
        download_dir: format!("{root}/downloads"),
        symbol_dir: format!("{lib}/symbols"),
        footprint_dir: format!("{lib}/footprints.pretty"),
        model_dir: format!("{lib}/3dmodels"),
        temp_dir: format!("{lib}/cache"),
        archive_dir: format!("{lib}/archive"),
        merged_symbol_lib: Some(format!("{lib}/murky-informis.kicad_sym")),
        manifest_path: format!("{lib}/library.json"),
        per_part_footprint_dirs: true,
        backup_before_overwrite: true,
        delete_zip_after_import: false,
        projects: Vec::new(),
        library_root: lib,
    }
}

/// Places staged files, on a disk that is a map from paths to contents.
fn install(
    cfg: &Config,
    part: &str,
    source: &str,
    files: Vec<Extracted>,
    disk: &mut BTreeMap<String, Vec<u8>>,
) -> (importer::ImportSummary, Manifest) {
    let mut staged = Vec::new();
    for f in files {
        disk.insert(f.item.path.clone(), f.contents);
        staged.push(f.item);
    }
    let pending = Pending {
        part: part.to_string(),
        source: source.to_string(),
        staged,
        staging: importer::prepare_staging(cfg, "web-C7420"),
        conflicts: Vec::new(),
        zip: None,
    };
    let mut m = Manifest::default();
    let mut run = importer::install(cfg, pending);
    loop {
        let record = run.record();
        let reply = match run.next() {
            None => break,
            Some(task) => match &task.action {
                Action::ReadSymbol { path } => {
                    let bytes = disk.get(path).unwrap().clone();
                    importer::Reply::Text(String::from_utf8(bytes).unwrap())
                }
                Action::ReadLibrary { path, .. } => importer::Reply::Existing(
                    disk.get(path).map(|b| String::from_utf8(b.clone()).unwrap()),
                ),
                Action::WriteLibrary { path, text, .. } => {
                    disk.insert(path.clone(), text.clone().into_bytes());
                    importer::Reply::Done
                }
                Action::Rename { from, to } => {
                    let bytes = disk.remove(from).unwrap();
                    disk.insert(to.clone(), bytes);
                    importer::Reply::Done
                }
                Action::Copy { from, to } => {
                    let bytes = disk.get(from).unwrap().clone();
                    disk.insert(to.clone(), bytes);
                    importer::Reply::Done
                }
                Action::Record => {
                    m = manifest::record(Manifest::default(), cfg, record);
                    importer::Reply::Done
                }
                _ => importer::Reply::Done,
            },
        };
        assert!(run.reply(reply).is_ok());
    }
    (importer::finish(&run).ok().unwrap(), m)
}

#[test]
fn a_downloaded_part_lands_in_the_same_tree_as_a_zip_import() {
    let cfg = config_for("/work");
    let component = stub_component();

    // Exactly what a download stages, without the network.
    let staging = importer::prepare_staging(&cfg, "web-C7420");
    let symbol = symbol_text(&component, Some("footprints.pretty:SOT-23-5"));
    let package = footprint_text(&component, "SOT-23-5", None);
    let staged = vec![
        importer::stage(&staging, Kind::Symbol, "NC7SZ125M5X.kicad_sym", symbol.into_bytes()),
        importer::stage(&staging, Kind::Footprint, "SOT-23-5.kicad_mod", package.into_bytes()),
        importer::stage(&staging, Kind::Model, "NC7SZ125M5X.stp", b"ISO-10303-21;".to_vec()),
    ];

    let mut disk = BTreeMap::new();
    let (summary, m) = install(&cfg, "NC7SZ125M5X", "LCSC C7420", staged, &mut disk);
    assert_eq!(summary.symbols.len(), 1);
    assert_eq!(summary.merged_symbols, vec!["NC7SZ125M5X".to_string()]);

    let is_file = |path: &str| disk.contains_key(path);
    assert!(is_file("/work/lib/symbols/NC7SZ125M5X.kicad_sym"));
    assert!(is_file("/work/lib/footprints.pretty/SOT-23-5.kicad_mod"));
    assert!(is_file("/work/lib/footprints.pretty/NC7SZ125M5X.pretty/SOT-23-5.kicad_mod"));
    assert!(is_file("/work/lib/3dmodels/NC7SZ125M5X.stp"));

    // The merged library gained the part, and the manifest records where it
    // came from.
    let merged = disk.get("/work/lib/murky-informis.kicad_sym").unwrap().clone();
    let merged = String::from_utf8(merged).unwrap();
    assert!(merged.contains(r#"(symbol "NC7SZ125M5X""#));

    let part = m.parts.iter().find(|p| p.name == "NC7SZ125M5X").unwrap();
    assert_eq!(part.source, "LCSC C7420");
    assert_eq!(part.symbol_file.as_deref(), Some("symbols/NC7SZ125M5X.kicad_sym"));
    assert_eq!(part.models, vec!["3dmodels/NC7SZ125M5X.stp".to_string()]);
    assert!(part.footprints.contains(&"footprints.pretty/SOT-23-5.kicad_mod".to_string()));
    assert!(!part.imported_at.is_empty());
}

#[test]
fn a_fetched_part_is_staged_under_its_own_names() {
    let cfg = config_for("/work");
    let component = stub_component();
    let plan = online::plan(&cfg, "C7420", &component).ok().unwrap();
    assert_eq!(plan.name, "NC7SZ125M5X");
    assert_eq!(plan.model_reference.as_deref(), Some("/work/lib/3dmodels/NC7SZ125M5X.stp"));
    assert_eq!(plan.footprint_ref.as_deref(), Some("footprints:SOT-23-5"));

    let measured = measure(&component);
    let step = Ok(b"ISO-10303-21;".to_vec());
    let part = online::fetch(&cfg, "C7420", &component, &measured, step).ok().unwrap();
    assert_eq!(part.description, "NC7SZ125M5X · onsemi · SOT-23-5");
    let (pending, files) = online::prepare(&cfg, part);
    assert_eq!(pending.source, "LCSC C7420");
    assert_eq!(pending.staging, "/work/lib/cache/web-C7420");
    let names: Vec<&str> = files.iter().map(|f| f.item.name.as_str()).collect();
    assert_eq!(names, vec!["NC7SZ125M5X.kicad_sym", "SOT-23-5.kicad_mod", "NC7SZ125M5X.stp"]);

    // A part without a 3D model is normal.
    let part = online::fetch(&cfg, "C7420", &component, &measured, Err("gone".to_string()));
    assert!(part.ok().unwrap().model.is_none());

    let mut nameless = stub_component();
    nameless.title = "德".to_string();
    let err = online::fetch(&cfg, "C1", &nameless, &measured, Err(String::new())).err();
    assert_eq!(err, Some("C1: component has no usable name".to_string()));
}

// ------------------------------------------------------------- the catalogue

#[test]
fn the_catalogue_is_asked_and_read() {
    assert_eq!(easyeda::search_url("  ", 25), None);
    let url = easyeda::search_url("NE 555", 25).unwrap();
    assert!(url.starts_with("https://easyeda.com/api/eda/product/search?"), "{url}");
    assert!(url.contains("NE%20555"), "{url}");

    let body = r#"{"success":true,"result":{"productList":[
        {"number":"C46749","mpn":"NE555P","manufacturer":"TI","package":"DIP-8",
         "url":"/product-detail/Timers_x.html","stock":12},
        {"mpn":"no number"}
    ]}}"#;
    let hits = online::search("NE555P", Ok(body.to_string())).ok().unwrap();
    assert_eq!(hits.len(), 1);
    assert_eq!(hits[0].id, "C46749");
    assert_eq!(hits[0].mpn, "NE555P");
    assert_eq!(hits[0].stock, 12);
    assert!(online::search("x", Ok("not json".to_string())).is_err());
    assert_eq!(online::search("x", Err("offline".to_string())).err(), Some("offline".to_string()));
    assert_eq!(online::search("  ", Err("offline".to_string())).ok().map(|l| l.len()), Some(0));
}

#[test]
fn a_component_is_read_from_its_reply() {
    let body = r##"{"success":true,"result":{"title":"NE555P","lcsc":{"number":"C46749"},
        "dataStr":{"head":{"x":400,"y":"300.5","c_para":{"pre":"U?","Manufacturer":"TI"}},
                   "shape":["R~1~2"]},
        "packageDetail":{"title":"DIP-8","dataStr":{"head":{"x":1,"y":2},"shape":["HOLE~1~2~3"]}}}}"##;
    let c = easyeda::component("c46749", body).ok().unwrap();
    assert_eq!(c.title, "NE555P");
    assert_eq!(json_number(&c.symbol_origin.0), 400.0);
    assert_eq!(json_number(&c.symbol_origin.1), 300.5);
    assert_eq!(c.symbol_shapes, vec!["R~1~2".to_string()]);
    assert_eq!(c.package_shapes, vec!["HOLE~1~2~3".to_string()]);
    assert!(easyeda::component("C1", r#"{"success":false}"#).is_err());
    assert!(easyeda::component("C1", "not json").is_err());
    assert!(easyeda::component_url("  ").is_err());
    assert!(easyeda::step_url("u1").ends_with("/u1"));
    assert!(easyeda::step_model("u1", b"ISO-10303-21;".to_vec()).is_ok());
    assert!(easyeda::step_model("u1", b"<html>".to_vec()).is_err());
}
