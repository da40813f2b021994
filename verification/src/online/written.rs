//! What is written into the KiCad files: each value behind the word that names
//! it.

use vstd::prelude::*;
use vstd::string::*;

use crate::online;
use crate::online::easyeda;
use crate::online::symbol;

verus! {

/// `part` stands somewhere in `whole`.
#[verifier::opaque]
pub open spec fn shows(whole: Seq<char>, part: Seq<char>) -> bool {
    exists|a: Seq<char>, b: Seq<char>| whole == #[trigger] (a + part + b)
}

pub broadcast proof fn lemma_shows_either(a: Seq<char>, b: Seq<char>, part: Seq<char>)
    requires
        shows(a, part) || shows(b, part),
    ensures
        #[trigger] shows(a + b, part),
{
    reveal(shows);
    if shows(a, part) {
        let (x, y) = choose|x: Seq<char>, y: Seq<char>| a == #[trigger] (x + part + y);
        assert(a + b =~= x + part + (y + b));
    } else {
        let (x, y) = choose|x: Seq<char>, y: Seq<char>| b == #[trigger] (x + part + y);
        assert(a + b =~= (a + x) + part + y);
    }
}

pub broadcast proof fn lemma_shows_itself(a: Seq<char>)
    ensures
        #[trigger] shows(a, a),
{
    reveal(shows);
    assert(a =~= Seq::<char>::empty() + a + Seq::<char>::empty());
}

pub broadcast group group_shows {
    lemma_shows_either,
    lemma_shows_itself,
}

/// What shows a text shows every part of it.
pub proof fn lemma_shows_through(whole: Seq<char>, middle: Seq<char>, part: Seq<char>)
    requires
        shows(whole, middle),
        shows(middle, part),
    ensures
        shows(whole, part),
{
    reveal(shows);
    let (a, b) = choose|a: Seq<char>, b: Seq<char>| whole == #[trigger] (a + middle + b);
    let (x, y) = choose|x: Seq<char>, y: Seq<char>| middle == #[trigger] (x + part + y);
    assert(whole =~= (a + x) + part + (y + b));
}

/// A text between quotes, its own quotes and backslashes escaped.
pub open spec fn quoted(value: Seq<char>) -> Seq<char> {
    seq!['"'] + online::escaped(value) + seq!['"']
}

// ------------------------------------------------------------------- pins

/// The word for what a pin does.
pub open spec fn is_role(code: Seq<char>, word: Seq<char>) -> bool {
    &&& code == "1"@ ==> word == "input"@
    &&& code == "2"@ ==> word == "output"@
    &&& code == "3"@ ==> word == "bidirectional"@
    &&& code == "4"@ ==> word == "power_in"@
    &&& code != "1"@ && code != "2"@ && code != "3"@ && code != "4"@ ==> word == "unspecified"@
}

/// The word for how a pin is drawn.
pub open spec fn is_mark(inverted: bool, clock: bool, word: Seq<char>) -> bool {
    &&& inverted && clock ==> word == "inverted_clock"@
    &&& inverted && !clock ==> word == "inverted"@
    &&& !inverted && clock ==> word == "clock"@
    &&& !inverted && !clock ==> word == "line"@
}

proof fn lemma_roles(code: Seq<char>)
    ensures
        is_role(code, symbol::electrical_type(code)),
{
    reveal_strlit("1");
    reveal_strlit("2");
    reveal_strlit("3");
    reveal_strlit("4");
    assert("1"@[0] == '1' && "2"@[0] == '2' && "3"@[0] == '3' && "4"@[0] == '4');
}

/// The words that follow the length of a pin, up to its name.
pub open spec fn hidden_word(hidden: bool) -> Seq<char> {
    if hidden {
        " hide"@
    } else {
        Seq::empty()
    }
}

/// A text between parentheses.
pub open spec fn boxed(inner: Seq<char>) -> Seq<char> {
    seq!['('] + inner + seq![')']
}

/// A word and a quoted value, in the size KiCad writes texts in.
pub open spec fn labelled(word: Seq<char>, value: Seq<char>) -> Seq<char> {
    boxed(
        word + " "@ + quoted(value) + " "@ + boxed(
            "effects"@ + " "@ + boxed("font"@ + " "@ + boxed("size 1.27 1.27"@)),
        ),
    )
}

/// The pin as its file has it: what it does, how it is drawn, where it stands,
/// how long it is, then its own name and its own number.
pub open spec fn pin_form(
    role: Seq<char>,
    mark: Seq<char>,
    at: (Seq<char>, Seq<char>),
    angle: Seq<char>,
    length: Seq<char>,
    label: symbol::LabelView,
) -> Seq<char> {
    "pin "@ + role + " "@ + mark + " "@ + boxed("at "@ + at.0 + " "@ + at.1 + " "@ + angle) + " "@
        + boxed("length"@ + " "@ + length) + hidden_word(label.hidden) + "\n        "@ + labelled(
        "name"@,
        label.name,
    ) + "\n        "@ + labelled("number"@, label.number) + "\n      "@
}

proof fn lemma_pin_text(
    at: (Seq<char>, Seq<char>),
    angle: Seq<char>,
    length: Seq<char>,
    label: symbol::LabelView,
)
    ensures
        exists|role: Seq<char>, mark: Seq<char>|
            is_role(label.code, role) && is_mark(label.inverted, label.clock, mark) && shows(
                symbol::pin_text(at, angle, length, label),
                #[trigger] pin_form(role, mark, at, angle, length, label),
            ),
{
    let role = symbol::electrical_type(label.code);
    let mark = symbol::pin_style(label.inverted, label.clock);
    lemma_roles(label.code);
    let f = pin_form(role, mark, at, angle, length, label);
    let whole = symbol::pin_text(at, angle, length, label);
    reveal_strlit("");
    assert(hidden_word(label.hidden) =~= symbol::hide_text(label.hidden));
    assert(labelled("name"@, label.name) == symbol::tag("name"@, label.name));
    assert(labelled("number"@, label.number) == symbol::tag("number"@, label.number));
    assert(whole == "      "@ + boxed(f) + "\n"@);
    assert(shows(whole, f)) by {
        broadcast use group_shows;

    }
}

proof fn lemma_pins(list: Seq<symbol::DrawnView>, i: int)
    requires
        0 <= i < list.len(),
    ensures
        shows(symbol::pins_of(list), symbol::pin_drawn(list[i])),
    decreases list.len(),
{
    broadcast use group_shows;

    if i < list.len() - 1 {
        lemma_pins(list.drop_last(), i);
        assert(list.drop_last()[i] == list[i]);
    }
}

proof fn lemma_kept(list: Seq<symbol::DrawnView>, i: int) -> (k: int)
    requires
        0 <= i < list.len(),
        symbol::is_measured(list[i]),
    ensures
        0 <= k < symbol::measured(list).len(),
        symbol::measured(list)[k] == list[i],
    decreases list.len(),
{
    if i < list.len() - 1 {
        assert(list.drop_last()[i] == list[i]);
        lemma_kept(list.drop_last(), i)
    } else {
        symbol::measured(list).len() - 1
    }
}

/// Every pin of a component stands in its symbol, with its own name, its own
/// number, its own place, and what it does and how it looks in KiCad's words.
pub proof fn lemma_pin_written(
    c: easyeda::ComponentView,
    footprint: Option<Seq<char>>,
    list: Seq<symbol::DrawnView>,
    i: int,
)
    requires
        0 <= i < list.len(),
        symbol::is_measured(list[i]),
        list[i] is Pin,
    ensures
        list[i] matches symbol::DrawnView::Pin { at, angle, length, label } ==> exists|
            role: Seq<char>,
            mark: Seq<char>,
        |
            is_role(label.code, role) && is_mark(label.inverted, label.clock, mark) && shows(
                symbol::converted(c, footprint, list),
                #[trigger] pin_form(role, mark, at, angle, length, label),
            ),
{
    if let symbol::DrawnView::Pin { at, angle, length, label } = list[i] {
        let k = lemma_kept(list, i);
        let kept = symbol::measured(list);
        lemma_pins(kept, k);
        lemma_pin_text(at, angle, length, label);
        let whole = symbol::converted(c, footprint, list);
        let pin = symbol::pin_text(at, angle, length, label);
        let (role, mark) = choose|role: Seq<char>, mark: Seq<char>|
            is_role(label.code, role) && is_mark(label.inverted, label.clock, mark) && shows(
                pin,
                #[trigger] pin_form(role, mark, at, angle, length, label),
            );
        let form = pin_form(role, mark, at, angle, length, label);
        lemma_shows_through(symbol::pins_of(kept), pin, form);
        lemma_pins_shown(c, footprint, list);
        lemma_shows_through(whole, symbol::pins_of(kept), form);
    }
}

proof fn lemma_pins_shown(
    c: easyeda::ComponentView,
    footprint: Option<Seq<char>>,
    list: Seq<symbol::DrawnView>,
)
    ensures
        shows(
            symbol::converted(c, footprint, list),
            symbol::pins_of(symbol::measured(list)),
        ),
{
    broadcast use group_shows;

    let f = match footprint {
        Some(t) => t,
        None => ""@,
    };
    let kept = symbol::measured(list);
    let name = online::sanitized(c.title);
    let pins = symbol::pins_of(kept);
    assert(shows(symbol::unit_text(name, "_1_1"@, pins), pins));
    assert(shows(symbol::symbol_inner(c, f, kept), pins));
}

// -------------------------------------------------------------- properties

/// A property of a symbol, up to its value.
pub open spec fn property(key: Seq<char>, value: Seq<char>) -> Seq<char> {
    "property "@ + quoted(key) + " "@ + quoted(value)
}

proof fn lemma_property_shown(key: Seq<char>, value: Seq<char>, id: nat, hidden: bool)
    ensures
        shows(symbol::property_text(key, value, id, hidden), property(key, value)),
{
    broadcast use group_shows;

}

proof fn lemma_properties_shown(
    c: easyeda::ComponentView,
    footprint: Option<Seq<char>>,
    list: Seq<symbol::DrawnView>,
)
    ensures
        shows(
            symbol::converted(c, footprint, list),
            symbol::properties_of(
                c,
                online::sanitized(c.title),
                match footprint {
                    Some(t) => t,
                    None => ""@,
                },
            ),
        ),
{
    broadcast use group_shows;

    let f = match footprint {
        Some(t) => t,
        None => ""@,
    };
    let props = symbol::properties_of(c, online::sanitized(c.title), f);
    assert(shows(symbol::symbol_inner(c, f, symbol::measured(list)), props));
}

proof fn lemma_without_marks(base: Seq<char>, marks: Seq<char>)
    requires
        base.len() > 0 ==> base.last() != '?',
        forall|i: int| 0 <= i < marks.len() ==> #[trigger] marks[i] == '?',
    ensures
        symbol::without_marks(base + marks) == base,
    decreases marks.len(),
{
    let s = base + marks;
    if marks.len() > 0 {
        assert(s.last() == marks[marks.len() - 1]);
        assert(s.drop_last() =~= base + marks.drop_last());
        lemma_without_marks(base, marks.drop_last());
    } else {
        assert(s =~= base);
    }
}

/// The properties of a symbol: its value is its own name, its footprint the one
/// it is given, its data sheet, part number and manufacturer those of the
/// component, and its reference the prefix without its question marks.
pub proof fn lemma_properties_written(
    c: easyeda::ComponentView,
    footprint: Seq<char>,
    list: Seq<symbol::DrawnView>,
    base: Seq<char>,
    marks: Seq<char>,
)
    requires
        c.prefix == base + marks,
        base.len() > 0 ==> base.last() != '?',
        forall|i: int| 0 <= i < marks.len() ==> #[trigger] marks[i] == '?',
    ensures
        ({
            let out = symbol::converted(c, Some(footprint), list);
            &&& base.len() > 0 ==> shows(out, property("Reference"@, base))
            &&& base.len() == 0 ==> shows(out, property("Reference"@, "U"@))
            &&& shows(out, property("Value"@, online::sanitized(c.title)))
            &&& shows(out, property("Footprint"@, footprint))
            &&& shows(out, property("Datasheet"@, c.datasheet))
            &&& shows(out, property("LCSC"@, c.lcsc))
            &&& c.manufacturer.len() > 0 ==> shows(out, property("Manufacturer"@, c.manufacturer))
            &&& shows(symbol::converted(c, None, list), property("Footprint"@, ""@))
        }),
{
    let name = online::sanitized(c.title);
    let out = symbol::converted(c, Some(footprint), list);
    let bare = symbol::converted(c, None, list);
    let all = symbol::properties_of(c, name, footprint);
    let few = symbol::properties_of(c, name, ""@);
    lemma_without_marks(base, marks);
    lemma_properties_shown(c, Some(footprint), list);
    lemma_properties_shown(c, None, list);
    let r = if base.len() > 0 {
        base
    } else {
        "U"@
    };
    lemma_property_shown("Reference"@, r, 0, false);
    lemma_property_shown("Value"@, name, 1, false);
    lemma_property_shown("Footprint"@, footprint, 2, true);
    lemma_property_shown("Footprint"@, ""@, 2, true);
    lemma_property_shown("Datasheet"@, c.datasheet, 3, true);
    lemma_property_shown("LCSC"@, c.lcsc, 4, true);
    lemma_property_shown("Manufacturer"@, c.manufacturer, 5, true);
    assert(shows(all, property("Reference"@, r)) && shows(all, property("Value"@, name)) && shows(
        all,
        property("Footprint"@, footprint),
    ) && shows(all, property("Datasheet"@, c.datasheet)) && shows(
        all,
        property("LCSC"@, c.lcsc),
    ) && (c.manufacturer.len() > 0 ==> shows(all, property("Manufacturer"@, c.manufacturer)))
        && shows(few, property("Footprint"@, ""@))) by {
        broadcast use lemma_shows_either;

    }
    lemma_shows_through(out, all, property("Reference"@, r));
    lemma_shows_through(out, all, property("Value"@, name));
    lemma_shows_through(out, all, property("Footprint"@, footprint));
    lemma_shows_through(out, all, property("Datasheet"@, c.datasheet));
    lemma_shows_through(out, all, property("LCSC"@, c.lcsc));
    if c.manufacturer.len() > 0 {
        lemma_shows_through(out, all, property("Manufacturer"@, c.manufacturer));
    }
    lemma_shows_through(bare, few, property("Footprint"@, ""@));
}

// ---------------------------------------------------------- the schematic

/// A point behind its word.
pub open spec fn point(word: Seq<char>, at: (Seq<char>, Seq<char>)) -> Seq<char> {
    boxed(word + " "@ + at.0 + " "@ + at.1)
}

/// How a shape is filled: a colour fills it, `none` and nothing do not.
pub open spec fn is_filling(color: Seq<char>, word: Seq<char>) -> bool {
    &&& color.len() == 0 || color == "none"@ || color == "NONE"@ ==> word == "none"@
    &&& color.len() > 0 && color.len() != 4 ==> word == "background"@
}

/// A shape of the schematic: what it is and where, then its stroke and filling.
pub open spec fn figure(head: Seq<char>, stroke: Seq<char>, filling: Seq<char>) -> Seq<char> {
    head + "\n"@ + ("        "@ + boxed(
        "stroke "@ + boxed("width"@ + " "@ + stroke) + " "@ + boxed("type default"@),
    ) + "\n        "@ + boxed("fill "@ + boxed("type"@ + " "@ + filling)) + "\n"@)
}

proof fn lemma_filling(color: Seq<char>)
    ensures
        is_filling(color, symbol::fill_kind(color)),
{
    reveal_strlit("none");
    reveal_strlit("NONE");
    reveal_strlit("background");
    crate::text::lemma_letters("NONE"@, "none"@);
    crate::text::lemma_letters(color, "none"@);
    assert forall|i: int| 0 <= i < 4 implies crate::text::lower_char(#[trigger] "NONE"@[i])
        == crate::text::lower_char("none"@[i]) by {}
}

proof fn lemma_figure(head: Seq<char>, style: symbol::StyleView)
    ensures
        shows(
            symbol::shape_text(head, style),
            figure(head, style.stroke, symbol::fill_kind(style.fill)),
        ),
{
    broadcast use group_shows;

    let f = figure(head, style.stroke, symbol::fill_kind(style.fill));
    assert(f == head + "\n"@ + symbol::style_text(style));
    assert(symbol::shape_text(head, style) == "      "@ + boxed(f + "      "@) + "\n"@);
}

proof fn lemma_graphics(list: Seq<symbol::DrawnView>, i: int)
    requires
        0 <= i < list.len(),
    ensures
        shows(symbol::graphics_of(list), symbol::graphic_of(list[i])),
    decreases list.len(),
{
    broadcast use group_shows;

    if i < list.len() - 1 {
        lemma_graphics(list.drop_last(), i);
        assert(list.drop_last()[i] == list[i]);
    }
}

proof fn lemma_graphic_shown(
    c: easyeda::ComponentView,
    footprint: Option<Seq<char>>,
    list: Seq<symbol::DrawnView>,
    i: int,
)
    requires
        0 <= i < list.len(),
        symbol::is_measured(list[i]),
    ensures
        shows(symbol::converted(c, footprint, list), symbol::graphic_of(list[i])),
{
    broadcast use group_shows;

    let f = match footprint {
        Some(t) => t,
        None => ""@,
    };
    let k = lemma_kept(list, i);
    let kept = symbol::measured(list);
    let name = online::sanitized(c.title);
    let all = symbol::graphics_of(kept);
    lemma_graphics(kept, k);
    assert(shows(symbol::unit_text(name, "_0_1"@, all), all));
    assert(shows(symbol::symbol_inner(c, f, kept), all));
    assert(shows(symbol::converted(c, footprint, list), all));
    lemma_shows_through(symbol::converted(c, footprint, list), all, symbol::graphic_of(list[i]));
}

/// Every rectangle and circle of a schematic stands in its symbol, between its
/// own corners or about its own centre, with its own stroke and filling.
pub proof fn lemma_outline_written(
    c: easyeda::ComponentView,
    footprint: Option<Seq<char>>,
    list: Seq<symbol::DrawnView>,
    i: int,
)
    requires
        0 <= i < list.len(),
        symbol::is_measured(list[i]),
    ensures
        list[i] matches symbol::DrawnView::Rectangle { from, to, style } ==> exists|
            filling: Seq<char>,
        |
            is_filling(style.fill, filling) && shows(
                symbol::converted(c, footprint, list),
                #[trigger] figure(
                    "rectangle "@ + point("start"@, from) + " "@ + point("end"@, to),
                    style.stroke,
                    filling,
                ),
            ),
        list[i] matches symbol::DrawnView::Circle { at, radius, style } ==> exists|
            filling: Seq<char>,
        |
            is_filling(style.fill, filling) && shows(
                symbol::converted(c, footprint, list),
                #[trigger] figure(
                    "circle "@ + point("center"@, at) + " "@ + boxed("radius"@ + " "@ + radius),
                    style.stroke,
                    filling,
                ),
            ),
{
    let out = symbol::converted(c, footprint, list);
    lemma_graphic_shown(c, footprint, list, i);
    match list[i] {
        symbol::DrawnView::Rectangle { from, to, style } => {
            let head = "rectangle "@ + point("start"@, from) + " "@ + point("end"@, to);
            lemma_filling(style.fill);
            lemma_figure(head, style);
            let f = figure(head, style.stroke, symbol::fill_kind(style.fill));
            lemma_shows_through(out, symbol::shape_text(head, style), f);
        },
        symbol::DrawnView::Circle { at, radius, style } => {
            let head = "circle "@ + point("center"@, at) + " "@ + boxed("radius"@ + " "@ + radius);
            lemma_filling(style.fill);
            lemma_figure(head, style);
            let f = figure(head, style.stroke, symbol::fill_kind(style.fill));
            lemma_shows_through(out, symbol::shape_text(head, style), f);
        },
        _ => {},
    }
}

proof fn lemma_spots(points: Seq<(Seq<char>, Seq<char>)>, i: int)
    requires
        0 <= i < points.len(),
    ensures
        shows(crate::sexpr::spots(points), point("xy"@, points[i])),
        i + 1 < points.len() ==> shows(
            crate::sexpr::spots(points),
            point("xy"@, points[i]) + " "@ + point("xy"@, points[i + 1]),
        ),
    decreases points.len(),
{
    broadcast use group_shows;

    let n = points.len() as int;
    if n > 1 {
        let init = points.drop_last();
        if i < n - 1 {
            lemma_spots(init, i);
            assert(init[i] == points[i]);
            if i + 1 < n - 1 {
                assert(init[i + 1] == points[i + 1]);
            } else {
                let last = point("xy"@, points[n - 1]);
                let p = point("xy"@, points[i]);
                if n == 2 {
                    assert(crate::sexpr::spots(init) == p);
                    assert(crate::sexpr::spots(points) == p + " "@ + last);
                } else {
                    let more = crate::sexpr::spots(init.drop_last()) + " "@;
                    assert(crate::sexpr::spots(init) == more + p);
                    assert(crate::sexpr::spots(points) =~= more + (p + " "@ + last));
                }
            }
        }
    }
}

/// A polyline goes through its own points in their own order, and a polygon back
/// to its first unless it is there already.
pub proof fn lemma_polyline_written(
    c: easyeda::ComponentView,
    footprint: Option<Seq<char>>,
    list: Seq<symbol::DrawnView>,
    i: int,
    k: int,
)
    requires
        0 <= i < list.len(),
        symbol::is_measured(list[i]),
        list[i] is Polyline,
        list[i]->Polyline_points.len() >= 2,
        0 <= k < list[i]->Polyline_points.len(),
    ensures
        list[i] matches symbol::DrawnView::Polyline { points, polygon, closed, style } ==> {
            let out = symbol::converted(c, footprint, list);
            &&& k + 1 < points.len() ==> shows(
                out,
                point("xy"@, points[k]) + " "@ + point("xy"@, points[k + 1]),
            )
            &&& polygon && !closed ==> shows(
                out,
                point("xy"@, points.last()) + " "@ + point("xy"@, points[0]),
            )
        },
{
    broadcast use group_shows;

    let out = symbol::converted(c, footprint, list);
    lemma_graphic_shown(c, footprint, list, i);
    if let symbol::DrawnView::Polyline { points, polygon, closed, style } = list[i] {
        let all = symbol::ring(points, polygon, closed);
        let text = symbol::polyline_text(all, style);
        let inside = crate::sexpr::spots(all);
        assert(shows(crate::sexpr::entry("pts"@, inside), inside));
        assert(shows(text, inside));
        lemma_shows_through(out, text, inside);
        if k + 1 < points.len() {
            lemma_spots(all, k);
            lemma_shows_through(
                out,
                inside,
                point("xy"@, points[k]) + " "@ + point("xy"@, points[k + 1]),
            );
        }
        if polygon && !closed {
            lemma_spots(all, points.len() - 1);
            lemma_shows_through(
                out,
                inside,
                point("xy"@, points.last()) + " "@ + point("xy"@, points[0]),
            );
        }
    }
}

proof fn lemma_arc_traced(
    pieces: Seq<symbol::PieceView>,
    style: symbol::StyleView,
    n: int,
    k: int,
)
    requires
        0 <= k < n <= pieces.len(),
        pieces[k] is Arc,
    ensures
        pieces[k] matches symbol::PieceView::Arc { from, mid, to } ==> shows(
            symbol::traced(pieces, style, n).0,
            symbol::arc_text(from, mid, to, style),
        ),
    decreases n,
{
    broadcast use group_shows;

    if k < n - 1 {
        lemma_arc_traced(pieces, style, n - 1, k);
    }
}

/// Every arc of a path stands in the symbol, from its own start through its own
/// middle to its own end.
pub proof fn lemma_arc_written(
    c: easyeda::ComponentView,
    footprint: Option<Seq<char>>,
    list: Seq<symbol::DrawnView>,
    i: int,
    k: int,
)
    requires
        0 <= i < list.len(),
        symbol::is_measured(list[i]),
        list[i] is Path,
        0 <= k < list[i]->pieces.len(),
        list[i]->pieces[k] is Arc,
    ensures
        list[i]->pieces[k] matches symbol::PieceView::Arc { from, mid, to } ==> shows(
            symbol::converted(c, footprint, list),
            "arc "@ + point("start"@, from) + " "@ + point("mid"@, mid) + " "@ + point("end"@, to),
        ),
{
    let out = symbol::converted(c, footprint, list);
    lemma_graphic_shown(c, footprint, list, i);
    if let symbol::DrawnView::Path { pieces, style } = list[i] {
        lemma_arc_traced(pieces, style, pieces.len() as int, k);
        if let symbol::PieceView::Arc { from, mid, to } = pieces[k] {
            let head = "arc "@ + point("start"@, from) + " "@ + point("mid"@, mid) + " "@ + point(
                "end"@,
                to,
            );
            let text = symbol::arc_text(from, mid, to, style);
            assert(shows(text, head) && shows(symbol::path_text(pieces, style), text)) by {
                broadcast use group_shows;

            }
            lemma_shows_through(out, symbol::path_text(pieces, style), text);
            lemma_shows_through(out, text, head);
        }
    }
}

/// A stretch from `p` to `q` has been drawn, or is in the run of lines still open.
spec fn is_drawn(
    out: Seq<char>,
    run: Seq<(Seq<char>, Seq<char>)>,
    p: (Seq<char>, Seq<char>),
    q: (Seq<char>, Seq<char>),
) -> bool {
    ||| shows(out, point("xy"@, p) + " "@ + point("xy"@, q))
    ||| exists|j: int| 0 <= j && j + 1 < run.len() && #[trigger] run[j] == p && run[j + 1] == q
}

proof fn lemma_flushed(
    out: Seq<char>,
    run: Seq<(Seq<char>, Seq<char>)>,
    style: symbol::StyleView,
    p: (Seq<char>, Seq<char>),
    q: (Seq<char>, Seq<char>),
)
    requires
        is_drawn(out, run, p, q),
    ensures
        shows(symbol::flushed(out, run, style), point("xy"@, p) + " "@ + point("xy"@, q)),
{
    broadcast use group_shows;

    let pair = point("xy"@, p) + " "@ + point("xy"@, q);
    if !shows(out, pair) {
        let j = choose|j: int|
            0 <= j && j + 1 < run.len() && #[trigger] run[j] == p && run[j + 1] == q;
        let inside = crate::sexpr::spots(run);
        let text = symbol::polyline_text(run, style);
        lemma_spots(run, j);
        assert(shows(crate::sexpr::entry("pts"@, inside), inside));
        assert(shows(text, inside));
        lemma_shows_through(text, inside, pair);
    }
}

/// Where a line of a path starts: where the line before it ended when the two are
/// joined, and else at its own start.
pub open spec fn line_start(pieces: Seq<symbol::PieceView>, k: int) -> (Seq<char>, Seq<char>) {
    match pieces[k] {
        symbol::PieceView::Line { from, to, joined } => if joined && k > 0 {
            match pieces[k - 1] {
                symbol::PieceView::Line { from: f, to: t, joined: j } => t,
                _ => from,
            }
        } else {
            from
        },
        symbol::PieceView::Arc { from, mid, to } => from,
    }
}

proof fn lemma_open_run(pieces: Seq<symbol::PieceView>, style: symbol::StyleView, n: int)
    requires
        0 < n <= pieces.len(),
    ensures
        ({
            let run = symbol::traced(pieces, style, n).1;
            match pieces[n - 1] {
                symbol::PieceView::Line { from, to, joined } => run.len() >= 2 && run.last() == to
                    && run[run.len() - 2] == line_start(pieces, n - 1),
                symbol::PieceView::Arc { from, mid, to } => run.len() == 0,
            }
        }),
    decreases n,
{
    reveal_with_fuel(symbol::traced, 2);
    if n > 1 {
        lemma_open_run(pieces, style, n - 1);
    }
}

proof fn lemma_line_traced(
    pieces: Seq<symbol::PieceView>,
    style: symbol::StyleView,
    n: int,
    k: int,
    to: (Seq<char>, Seq<char>),
)
    requires
        0 <= k < n <= pieces.len(),
        pieces[k] matches symbol::PieceView::Line { from: f, to: t, joined: j } && t == to,
    ensures
        is_drawn(
            symbol::traced(pieces, style, n).0,
            symbol::traced(pieces, style, n).1,
            line_start(pieces, k),
            to,
        ),
    decreases n,
{
    let (out, run) = symbol::traced(pieces, style, n);
    let p = line_start(pieces, k);
    let pair = point("xy"@, p) + " "@ + point("xy"@, to);
    if k == n - 1 {
        lemma_open_run(pieces, style, n);
        let j = run.len() - 2;
        assert(run[j] == p && run[j + 1] == to);
    } else {
        let (before, open) = symbol::traced(pieces, style, n - 1);
        lemma_line_traced(pieces, style, n - 1, k, to);
        lemma_flushed(before, open, style, p, to);
        match pieces[n - 1] {
            symbol::PieceView::Line { from: f, to: t, joined: j } => {
                if open.len() > 0 && j && !shows(before, pair) {
                    let m = choose|m: int|
                        0 <= m && m + 1 < open.len() && #[trigger] open[m] == p && open[m + 1] == to;
                    assert(run[m] == p && run[m + 1] == to);
                }
            },
            symbol::PieceView::Arc { from: f, mid: m, to: t } => {
                lemma_shows_either(
                    symbol::flushed(before, open, style),
                    symbol::arc_text(f, m, t, style),
                    pair,
                );
            },
        }
    }
}

/// Every line of a path stands in the symbol, from where the path was to its own
/// end.
pub proof fn lemma_line_written(
    c: easyeda::ComponentView,
    footprint: Option<Seq<char>>,
    list: Seq<symbol::DrawnView>,
    i: int,
    k: int,
)
    requires
        0 <= i < list.len(),
        symbol::is_measured(list[i]),
        list[i] is Path,
        0 <= k < list[i]->pieces.len(),
        list[i]->pieces[k] is Line,
    ensures
        list[i]->pieces[k] matches symbol::PieceView::Line { from, to, joined } ==> shows(
            symbol::converted(c, footprint, list),
            point("xy"@, line_start(list[i]->pieces, k)) + " "@ + point("xy"@, to),
        ),
{
    let out = symbol::converted(c, footprint, list);
    lemma_graphic_shown(c, footprint, list, i);
    if let symbol::DrawnView::Path { pieces, style } = list[i] {
        if let symbol::PieceView::Line { from, to, joined } = pieces[k] {
            let n = pieces.len() as int;
            let (done, open) = symbol::traced(pieces, style, n);
            lemma_line_traced(pieces, style, n, k, to);
            lemma_flushed(done, open, style, line_start(pieces, k), to);
            lemma_shows_through(
                out,
                symbol::path_text(pieces, style),
                point("xy"@, line_start(pieces, k)) + " "@ + point("xy"@, to),
            );
        }
    }
}

/// A symbol is called by the component's own name, and so are its two units: the
/// drawing and, numbered as KiCad does, the pins.
pub proof fn lemma_symbol_named(
    c: easyeda::ComponentView,
    footprint: Option<Seq<char>>,
    list: Seq<symbol::DrawnView>,
)
    ensures
        ({
            let out = symbol::converted(c, footprint, list);
            let name = online::sanitized(c.title);
            &&& shows(out, "symbol "@ + quoted(name) + " "@)
            &&& shows(out, "symbol "@ + quoted(name + "_0_1"@) + "\n"@)
            &&& shows(out, "symbol "@ + quoted(name + "_1_1"@) + "\n"@)
        }),
{
    broadcast use group_shows;

    let name = online::sanitized(c.title);
    let f = match footprint {
        Some(t) => t,
        None => ""@,
    };
    let kept = symbol::measured(list);
    let inner = symbol::symbol_inner(c, f, kept);
    let out = symbol::converted(c, footprint, list);
    assert(shows(out, inner));
    let first = symbol::unit_text(name, "_0_1"@, symbol::graphics_of(kept));
    let second = symbol::unit_text(name, "_1_1"@, symbol::pins_of(kept));
    assert(shows(inner, first) && shows(inner, second));
    assert(shows(first, "symbol "@ + quoted(name + "_0_1"@) + "\n"@));
    assert(shows(second, "symbol "@ + quoted(name + "_1_1"@) + "\n"@));
    lemma_shows_through(inner, first, "symbol "@ + quoted(name + "_0_1"@) + "\n"@);
    lemma_shows_through(inner, second, "symbol "@ + quoted(name + "_1_1"@) + "\n"@);
    lemma_shows_through(out, inner, "symbol "@ + quoted(name + "_0_1"@) + "\n"@);
    lemma_shows_through(out, inner, "symbol "@ + quoted(name + "_1_1"@) + "\n"@);
    assert(shows(inner, "symbol "@ + quoted(name) + " "@));
    lemma_shows_through(out, inner, "symbol "@ + quoted(name) + " "@);
}

} // verus!
