//! What a shape record says is what is read from it.
//!
//! A record is its fields with `~` between neighbours, and a pin is seven groups
//! of such fields with `^^` between them. Each law writes a record down field by
//! field, and says which field each part of the shape is.

use vstd::prelude::*;
use vstd::string::*;

use crate::json;
use crate::online::catalogue;
use crate::online::easyeda;
use crate::online::footprint;
use crate::online::footprint::Outline;
use crate::online::svgpath;
use crate::online::symbol;
use crate::text;

verus! {

/// Fields that can stand in a record: none holds the mark between them.
pub open spec fn are_fields(f: Seq<Seq<char>>) -> bool {
    f.len() > 0 && forall|i: int| 0 <= i < f.len() ==> !(#[trigger] f[i]).contains('~')
}

/// The record with these fields.
pub open spec fn record(f: Seq<Seq<char>>) -> Seq<char> {
    text::join(f, seq!['~'])
}

/// The field at `i` is `t`; a field that is not there is empty.
pub open spec fn is_field(f: Seq<Seq<char>>, i: int, t: Seq<char>) -> bool {
    if i < f.len() {
        f[i] == t
    } else {
        t.len() == 0
    }
}

/// The field at `i` gives the number `n`: as it is written, without the blanks
/// around it, and `0` where it is no number.
pub open spec fn is_measure(f: Seq<Seq<char>>, i: int, n: Seq<char>) -> bool {
    if i < f.len() && easyeda::is_number(text::trim(f[i])) {
        n == text::trim(f[i])
    } else {
        n == "0"@
    }
}

proof fn lemma_fields(f: Seq<Seq<char>>)
    requires
        are_fields(f),
    ensures
        easyeda::record_of(record(f)) == f,
        !easyeda::is_number(Seq::<char>::empty()),
{
    text::lemma_split_join(f, '~');
    lemma_empty_is_no_number();
}

proof fn lemma_empty_is_no_number()
    ensures
        !easyeda::is_number(Seq::<char>::empty()),
        text::trim(Seq::<char>::empty()) == Seq::<char>::empty(),
{
    let s = Seq::<char>::empty();
    reveal_strlit("inf");
    reveal_strlit("infinity");
    reveal_strlit("nan");
    assert(s.skip(0) =~= s);
    assert(text::ascii_lower(s).len() == 0);
    assert(text::ascii_lower("inf"@).len() == 3);
    assert(text::ascii_lower("infinity"@).len() == 8);
    assert(text::ascii_lower("nan"@).len() == 3);
}

proof fn lemma_kinds()
    ensures
        "PAD"@ != "TRACK"@,
        "PAD"@ != "CIRCLE"@,
        "PAD"@ != "ARC"@,
        "PAD"@ != "RECT"@,
        "PAD"@ != "SOLIDREGION"@,
        "PAD"@ != "HOLE"@,
        "PAD"@ != "VIA"@,
        "TRACK"@ != "CIRCLE"@,
        "TRACK"@ != "ARC"@,
        "TRACK"@ != "RECT"@,
        "TRACK"@ != "SOLIDREGION"@,
        "TRACK"@ != "HOLE"@,
        "TRACK"@ != "VIA"@,
        "CIRCLE"@ != "ARC"@,
        "CIRCLE"@ != "RECT"@,
        "CIRCLE"@ != "SOLIDREGION"@,
        "CIRCLE"@ != "HOLE"@,
        "CIRCLE"@ != "VIA"@,
        "ARC"@ != "RECT"@,
        "ARC"@ != "SOLIDREGION"@,
        "ARC"@ != "HOLE"@,
        "ARC"@ != "VIA"@,
        "RECT"@ != "SOLIDREGION"@,
        "RECT"@ != "HOLE"@,
        "RECT"@ != "VIA"@,
        "SOLIDREGION"@ != "HOLE"@,
        "SOLIDREGION"@ != "VIA"@,
        "HOLE"@ != "VIA"@,
{
    reveal_strlit("PAD");
    reveal_strlit("TRACK");
    reveal_strlit("CIRCLE");
    reveal_strlit("ARC");
    reveal_strlit("RECT");
    reveal_strlit("SOLIDREGION");
    reveal_strlit("HOLE");
    reveal_strlit("VIA");
    assert("PAD"@[0] == 'P' && "TRACK"@[0] == 'T' && "CIRCLE"@[0] == 'C' && "ARC"@[0] == 'A'
        && "RECT"@[0] == 'R' && "SOLIDREGION"@[0] == 'S' && "HOLE"@[0] == 'H' && "VIA"@[0] == 'V');
}

// ------------------------------------------------------------- the package

/// A pad stands at its second and third field, is as wide as its fourth and as
/// high as its fifth, and carries the layer of its sixth and the number of its
/// eighth. Its ninth is the radius of its hole, its eleventh how it is turned,
/// its thirteenth how long its hole is; an `N` in its fifteenth leaves it bare.
pub proof fn lemma_pad(f: Seq<Seq<char>>)
    requires
        are_fields(f),
        f[0] == "PAD"@,
    ensures
        footprint::shape_of(record(f)) matches footprint::ShapeView::Pad {
            x,
            y,
            width,
            height,
            hole_radius,
            hole_length,
            rotation,
            label,
        } && is_measure(f, 2, x) && is_measure(f, 3, y) && is_measure(f, 4, width) && is_measure(
            f,
            5,
            height,
        ) && is_measure(f, 9, hole_radius) && is_measure(f, 13, hole_length) && is_measure(
            f,
            11,
            rotation,
        ) && is_field(f, 6, label.layer) && is_field(f, 8, label.number) && (f.len() > 15 && (f[15]
            == seq!['N'] || f[15] == seq!['n']) ==> !label.plated) && (f.len() <= 15 || f[15].len()
            != 1 ==> label.plated),
{
    lemma_fields(f);
    lemma_empty_is_no_number();
    reveal_strlit("N");
    assert(text::ascii_lower("N"@).len() == 1);
    assert(text::ascii_lower(Seq::<char>::empty()).len() == 0);
    if f.len() > 15 {
        assert(text::ascii_lower(f[15]).len() == f[15].len());
        if f[15] == seq!['N'] || f[15] == seq!['n'] {
            assert(text::ascii_lower(f[15]) =~= text::ascii_lower("N"@));
        }
    }
}

/// The outline of a pad: an ellipse, an oval, and for anything else the
/// rectangle around it.
pub proof fn lemma_pad_outline(f: Seq<Seq<char>>)
    requires
        are_fields(f),
        f[0] == "PAD"@,
        f.len() > 1,
    ensures
        footprint::shape_of(record(f)) matches footprint::ShapeView::Pad { label, .. } && {
            &&& text::upper(f[1]) == "ELLIPSE"@ <==> label.outline == Outline::Ellipse
            &&& text::upper(f[1]) == "OVAL"@ <==> label.outline == Outline::Oval
        },
{
    lemma_fields(f);
    reveal_strlit("ELLIPSE");
    reveal_strlit("OVAL");
    assert("ELLIPSE"@[0] == 'E' && "OVAL"@[0] == 'O');
}

/// A track is as wide as its first field, on the layer of its second, through
/// the points of its fourth; an arc is read in the same way.
pub proof fn lemma_track(f: Seq<Seq<char>>)
    requires
        are_fields(f),
        f.len() > 4,
    ensures
        f[0] == "TRACK"@ ==> (footprint::shape_of(record(f)) matches footprint::ShapeView::Track {
            stroke,
            layer,
            points,
        } && is_measure(f, 1, stroke) && layer == f[2] && points == svgpath::points_of(f[4])),
        f[0] == "ARC"@ ==> (footprint::shape_of(record(f)) matches footprint::ShapeView::Arc {
            stroke,
            layer,
            steps,
        } && is_measure(f, 1, stroke) && layer == f[2] && steps == svgpath::steps_of(f[4])),
{
    lemma_fields(f);
    lemma_kinds();
}

/// A circle stands at its first two fields, with the radius of its third, the
/// stroke of its fourth and the layer of its fifth. A rectangle has its size in
/// its third and fourth field instead.
pub proof fn lemma_outlines(f: Seq<Seq<char>>)
    requires
        are_fields(f),
    ensures
        f[0] == "CIRCLE"@ ==> (footprint::shape_of(record(f)) matches footprint::ShapeView::Circle {
            x,
            y,
            radius,
            stroke,
            layer,
        } && is_measure(f, 1, x) && is_measure(f, 2, y) && is_measure(f, 3, radius) && is_measure(
            f,
            4,
            stroke,
        ) && is_field(f, 5, layer)),
        f[0] == "RECT"@ ==> (footprint::shape_of(record(f)) matches footprint::ShapeView::Rect {
            x,
            y,
            width,
            height,
            layer,
        } && is_measure(f, 1, x) && is_measure(f, 2, y) && is_measure(f, 3, width) && is_measure(
            f,
            4,
            height,
        ) && is_field(f, 5, layer)),
{
    lemma_fields(f);
    lemma_kinds();
    lemma_empty_is_no_number();
}

/// A hole has its radius in its third field. A via has its diameter there, and
/// the radius of its hole in its fifth.
pub proof fn lemma_holes(f: Seq<Seq<char>>)
    requires
        are_fields(f),
    ensures
        f[0] == "HOLE"@ ==> (footprint::shape_of(record(f)) matches footprint::ShapeView::Hole {
            x,
            y,
            radius,
        } && is_measure(f, 1, x) && is_measure(f, 2, y) && is_measure(f, 3, radius)),
        f[0] == "VIA"@ ==> (footprint::shape_of(record(f)) matches footprint::ShapeView::Via {
            x,
            y,
            diameter,
            hole_radius,
        } && is_measure(f, 1, x) && is_measure(f, 2, y) && is_measure(f, 3, diameter) && is_measure(
            f,
            5,
            hole_radius,
        )),
{
    lemma_fields(f);
    lemma_kinds();
    lemma_empty_is_no_number();
}

/// A region is on the layer of its first field, along the path of its third, and
/// is a cutout when its fourth says so.
pub proof fn lemma_region(f: Seq<Seq<char>>)
    requires
        are_fields(f),
        f.len() > 4,
        f[0] == "SOLIDREGION"@,
    ensures
        footprint::shape_of(record(f)) matches footprint::ShapeView::Region {
            layer,
            steps,
            cutout,
        } && layer == f[1] && steps == svgpath::steps_of(f[3]) && (f[4] == "cutout"@ ==> cutout)
            && (f[4] == "solid"@ ==> !cutout) && (f[4] == "npth"@ ==> !cutout),
{
    lemma_fields(f);
    lemma_kinds();
    reveal_strlit("cutout");
    reveal_strlit("solid");
    reveal_strlit("npth");
    assert(text::ascii_lower("cutout"@).len() == 6);
    assert(text::ascii_lower("solid"@).len() == 5);
    assert(text::ascii_lower("npth"@).len() == 4);
}

/// The texts of a package, and any kind of record that is not known, are no
/// shape.
pub proof fn lemma_unknown(f: Seq<Seq<char>>)
    requires
        are_fields(f),
        f[0] != "PAD"@,
        f[0] != "TRACK"@,
        f[0] != "CIRCLE"@,
        f[0] != "ARC"@,
        f[0] != "RECT"@,
        f[0] != "SOLIDREGION"@,
        f[0] != "HOLE"@,
        f[0] != "VIA"@,
    ensures
        footprint::shape_of(record(f)) is Other,
{
    lemma_fields(f);
}

// ----------------------------------------------------------- the 3D model

/// The record of a 3D model gives its key, where it stands and how it is turned,
/// each from its own attribute, in the order across, up, and about the third
/// axis.
pub proof fn lemma_model(
    node: Seq<char>,
    attrs: Seq<char>,
    uuid: Seq<char>,
    place: Seq<Seq<char>>,
    turn: Seq<Seq<char>>,
)
    requires
        json::json_fault(node) is None,
        catalogue::under(node, "attrs"@, attrs),
        catalogue::says(attrs, "uuid"@, uuid),
        uuid.len() > 0,
        place.len() >= 2,
        turn.len() >= 3,
        forall|i: int| 0 <= i < place.len() ==> !(#[trigger] place[i]).contains(','),
        forall|i: int| 0 <= i < turn.len() ==> !(#[trigger] turn[i]).contains(','),
        catalogue::says(attrs, "c_origin"@, text::join(place, seq![','])),
        catalogue::says(attrs, "c_rotation"@, text::join(turn, seq![','])),
    ensures
        footprint::named_model("SVGNODE~"@ + node) matches Some(m) && m.uuid == uuid && is_measure(
            place,
            0,
            m.origin.0,
        ) && is_measure(place, 1, m.origin.1) && is_measure(turn, 0, m.rotation.0) && is_measure(
            turn,
            1,
            m.rotation.1,
        ) && is_measure(turn, 2, m.rotation.2),
{
    let shape = "SVGNODE~"@ + node;
    assert(shape.take("SVGNODE~"@.len() as int) =~= "SVGNODE~"@);
    assert(shape.skip("SVGNODE~"@.len() as int) =~= node);
    text::lemma_split_join(place, ',');
    text::lemma_split_join(turn, ',');
}

/// Of several models the first counts, and a record of another kind is passed
/// over.
pub proof fn lemma_first_model(shapes: Seq<Seq<char>>, k: int)
    requires
        0 <= k < shapes.len(),
        footprint::named_model(shapes[k]) is Some,
        forall|i: int|
            0 <= i < k ==> footprint::named_model(#[trigger] shapes[i]) is None,
    ensures
        footprint::model_from(shapes, 0) == footprint::named_model(shapes[k]),
{
    lemma_model_from(shapes, 0, k);
}

proof fn lemma_model_from(shapes: Seq<Seq<char>>, i: int, k: int)
    requires
        0 <= i <= k < shapes.len(),
        footprint::named_model(shapes[k]) is Some,
        forall|j: int| 0 <= j < k ==> footprint::named_model(#[trigger] shapes[j]) is None,
    ensures
        footprint::model_from(shapes, i) == footprint::named_model(shapes[k]),
    decreases k - i,
{
    if i < k {
        assert(footprint::named_model(shapes[i]) is None);
        lemma_model_from(shapes, i + 1, k);
    }
}

/// A record that does not start as a node of a drawing names no model.
pub proof fn lemma_no_model(f: Seq<Seq<char>>)
    requires
        are_fields(f),
        f[0] != "SVGNODE"@,
    ensures
        footprint::named_model(record(f)) is None,
{
    let s = record(f);
    let word = "SVGNODE~"@;
    reveal_strlit("SVGNODE~");
    reveal_strlit("SVGNODE");
    if text::starts_with(s, word) {
        let rest = s.skip(8);
        assert(s =~= "SVGNODE"@.push('~') + rest) by {
            assert forall|i: int| 0 <= i < 8 implies s[i] == word[i] by {
                assert(s.take(8)[i] == s[i]);
            }
        }
        text::lemma_split_append("SVGNODE"@, rest, '~');
        text::lemma_split_plain("SVGNODE"@, '~');
        text::lemma_split_join(f, '~');
        assert(text::split(s, '~')[0] == "SVGNODE"@);
    }
}

// ------------------------------------------------------------ the schematic

/// Groups that can stand in a pin record.
pub open spec fn are_groups(g: Seq<Seq<char>>) -> bool {
    g.len() > 0 && forall|i: int| 0 <= i < g.len() ==> !(#[trigger] g[i]).contains('^')
}

/// The pin record with these groups.
pub open spec fn pin_record(g: Seq<Seq<char>>) -> Seq<char> {
    text::join(g, seq!['^', '^'])
}

proof fn lemma_groups(g: Seq<Seq<char>>)
    requires
        are_groups(g),
    ensures
        easyeda::groups_of(pin_record(g)) == g,
{
    reveal_strlit("^^");
    assert("^^"@ =~= seq!['^', '^']);
    text::lemma_split_on_join(g, "^^"@);
}

/// A pin is named by the fifth field of its fourth group and numbered by the
/// fifth field of its fifth group, whatever the other says. Without such a
/// number it takes the one among its settings; without a name it has none, which
/// is written `~`.
pub proof fn lemma_pin_label(
    g: Seq<Seq<char>>,
    settings: Seq<Seq<char>>,
    name: Seq<Seq<char>>,
    number: Seq<Seq<char>>,
)
    requires
        are_groups(g),
        g.len() >= 5,
        are_fields(settings),
        are_fields(name),
        are_fields(number),
        g[0] == record(settings),
        g[3] == record(name),
        g[4] == record(number),
        settings[0] == "P"@,
    ensures
        symbol::shape_of(pin_record(g)) matches symbol::ShapeView::Pin { label, .. } && {
            &&& number.len() > 4 && text::trim(number[4]).len() > 0 ==> label.number == text::trim(
                number[4],
            )
            &&& number.len() <= 4 || text::trim(number[4]).len() == 0 ==> is_field(
                settings,
                3,
                label.number,
            )
            &&& name.len() > 4 && text::trim(name[4]).len() > 0 ==> label.name == text::trim(
                name[4],
            )
            &&& name.len() <= 4 || text::trim(name[4]).len() == 0 ==> label.name == "~"@
            &&& is_field(settings, 2, label.code)
            &&& settings.len() > 1 ==> (label.hidden <==> settings[1] != "show"@)
        },
{
    lemma_groups(g);
    lemma_fields(settings);
    lemma_fields(name);
    lemma_fields(number);
    lemma_empty_is_no_number();
}

/// A pin without its number group takes the number among its settings.
pub proof fn lemma_short_pin(g: Seq<Seq<char>>, settings: Seq<Seq<char>>)
    requires
        are_groups(g),
        g.len() < 5,
        are_fields(settings),
        g[0] == record(settings),
        settings[0] == "P"@,
    ensures
        symbol::shape_of(pin_record(g)) matches symbol::ShapeView::Pin { label, .. } && is_field(
            settings,
            3,
            label.number,
        ),
{
    lemma_groups(g);
    lemma_fields(settings);
    lemma_empty_is_no_number();
    let none = Seq::<char>::empty();
    text::lemma_split_plain(none, '~');
}

/// A pin is drawn along the path of its third group and connected at the point
/// of its second, first across and then up, or else at the fourth and fifth of
/// its settings. A `1` that starts its sixth group inverts it, and one that
/// starts its seventh makes it a clock.
pub proof fn lemma_pin_place(
    g: Seq<Seq<char>>,
    settings: Seq<Seq<char>>,
    dot: Seq<Seq<char>>,
    path: Seq<Seq<char>>,
    bubble: Seq<Seq<char>>,
    clock: Seq<Seq<char>>,
)
    requires
        are_groups(g),
        g.len() >= 7,
        are_fields(settings),
        are_fields(dot),
        are_fields(path),
        are_fields(bubble),
        are_fields(clock),
        g[0] == record(settings),
        g[1] == record(dot),
        g[2] == record(path),
        g[5] == record(bubble),
        g[6] == record(clock),
        settings[0] == "P"@,
    ensures
        symbol::shape_of(pin_record(g)) matches symbol::ShapeView::Pin { x, y, steps, label } && {
            &&& easyeda::is_number(text::trim(dot[0])) ==> x == text::trim(dot[0])
            &&& dot.len() > 1 && easyeda::is_number(text::trim(dot[1])) ==> y == text::trim(dot[1])
            &&& !easyeda::is_number(text::trim(dot[0])) ==> is_measure(settings, 4, x)
            &&& dot.len() <= 1 || !easyeda::is_number(text::trim(dot[1])) ==> is_measure(
                settings,
                5,
                y,
            )
            &&& steps == svgpath::steps_of(path[0])
            &&& label.inverted <==> bubble[0] == "1"@
            &&& label.clock <==> clock[0] == "1"@
        },
{
    lemma_groups(g);
    lemma_fields(settings);
    lemma_fields(dot);
    lemma_fields(path);
    lemma_fields(bubble);
    lemma_fields(clock);
    lemma_empty_is_no_number();
}

proof fn lemma_flat(f: Seq<Seq<char>>)
    requires
        are_fields(f),
        !record(f).contains('^'),
    ensures
        easyeda::groups_of(record(f)) == seq![record(f)],
        easyeda::record_of(record(f)) == f,
        "P"@ != "R"@ && "P"@ != "E"@ && "P"@ != "PL"@ && "P"@ != "PG"@ && "P"@ != "PT"@ && "P"@
            != "A"@,
        "R"@ != "E"@ && "R"@ != "PL"@ && "R"@ != "PG"@ && "R"@ != "PT"@ && "R"@ != "A"@,
        "E"@ != "PL"@ && "E"@ != "PG"@ && "E"@ != "PT"@ && "E"@ != "A"@,
        "PL"@ != "PG"@ && "PL"@ != "PT"@ && "PL"@ != "A"@,
        "PG"@ != "PT"@ && "PG"@ != "A"@,
{
    let one = seq![record(f)];
    assert(text::join(one, seq!['^', '^']) == record(f));
    lemma_groups(one);
    lemma_fields(f);
    reveal_strlit("P");
    reveal_strlit("R");
    reveal_strlit("E");
    reveal_strlit("PL");
    reveal_strlit("PG");
    reveal_strlit("PT");
    reveal_strlit("A");
    assert("P"@.len() == 1 && "PL"@.len() == 2 && "PG"@.len() == 2 && "PT"@.len() == 2);
    assert("P"@[0] == 'P' && "R"@[0] == 'R' && "E"@[0] == 'E' && "A"@[0] == 'A' && "PL"@[1] == 'L'
        && "PG"@[1] == 'G' && "PT"@[1] == 'T');
}

/// A rectangle of the schematic stands at its first two fields, and has its
/// width in its fifth and its height in its sixth; an ellipse has its radii in
/// its third and fourth. Stroke and fill have fields of their own.
pub proof fn lemma_schematic_outlines(f: Seq<Seq<char>>)
    requires
        are_fields(f),
        !record(f).contains('^'),
    ensures
        f[0] == "R"@ ==> (symbol::shape_of(record(f)) matches symbol::ShapeView::Rectangle {
            x,
            y,
            width,
            height,
            style,
        } && is_measure(f, 1, x) && is_measure(f, 2, y) && is_measure(f, 5, width) && is_measure(
            f,
            6,
            height,
        ) && is_measure(f, 8, style.stroke) && is_field(f, 10, style.fill)),
        f[0] == "E"@ ==> (symbol::shape_of(record(f)) matches symbol::ShapeView::Ellipse {
            x,
            y,
            rx,
            ry,
            style,
        } && is_measure(f, 1, x) && is_measure(f, 2, y) && is_measure(f, 3, rx) && is_measure(
            f,
            4,
            ry,
        ) && is_measure(f, 6, style.stroke) && is_field(f, 8, style.fill)),
{
    lemma_flat(f);
    lemma_empty_is_no_number();
}

/// The lines of the schematic: a polyline and a polygon through the points of
/// their first field, a path and an arc along the path of theirs.
pub proof fn lemma_schematic_lines(f: Seq<Seq<char>>)
    requires
        are_fields(f),
        f.len() > 1,
        !record(f).contains('^'),
    ensures
        f[0] == "PL"@ || f[0] == "PG"@ ==> (symbol::shape_of(
            record(f),
        ) matches symbol::ShapeView::Polyline { points, polygon, style } && points
            == svgpath::points_of(f[1]) && (polygon <==> f[0] == "PG"@) && is_measure(
            f,
            3,
            style.stroke,
        ) && is_field(f, 5, style.fill)),
        f[0] == "PT"@ || f[0] == "A"@ ==> (symbol::shape_of(
            record(f),
        ) matches symbol::ShapeView::Path { steps, style } && steps == svgpath::steps_of(f[1])
            && is_measure(f, 3, style.stroke) && is_field(f, 5, style.fill)),
{
    lemma_flat(f);
    lemma_empty_is_no_number();
}

// ------------------------------------------------------------------ numbers

/// Nothing but digits, and at least one.
pub open spec fn are_digits(s: Seq<char>) -> bool {
    s.len() > 0 && forall|i: int| 0 <= i < s.len() ==> '0' <= #[trigger] s[i] && s[i] <= '9'
}

proof fn lemma_digits_until(s: Seq<char>, i: int, j: int)
    requires
        0 <= i <= j <= s.len(),
        forall|k: int| i <= k < j ==> '0' <= #[trigger] s[k] && s[k] <= '9',
        j < s.len() ==> !('0' <= s[j] && s[j] <= '9'),
    ensures
        easyeda::digits_end(s, i) == j,
    decreases j - i,
{
    if i < j {
        lemma_digits_until(s, i + 1, j);
    }
}

/// What counts as a number: digits, with a point among them, with a sign before
/// them, and with an exponent behind them. No text is none.
pub proof fn lemma_numbers(a: Seq<char>, b: Seq<char>, c: char)
    requires
        are_digits(a),
        are_digits(b),
        c == '-' || c == '+',
    ensures
        easyeda::is_number(a),
        easyeda::is_number(seq![c] + a),
        easyeda::is_number(a + seq!['.'] + b),
        easyeda::is_number(seq!['.'] + b),
        easyeda::is_number(a + seq!['e'] + b),
        !easyeda::is_number(Seq::<char>::empty()),
{
    lemma_digits_until(a, 0, a.len() as int);
    let signed = seq![c] + a;
    assert forall|k: int| 1 <= k < signed.len() implies '0' <= #[trigger] signed[k] && signed[k]
        <= '9' by {
        assert(signed[k] == a[k - 1]);
    }
    lemma_digits_until(signed, 1, signed.len() as int);
    let point = a + seq!['.'] + b;
    let n = a.len() as int;
    assert forall|k: int| n + 1 <= k < point.len() implies '0' <= #[trigger] point[k] && point[k]
        <= '9' by {
        assert(point[k] == b[k - n - 1]);
    }
    assert forall|k: int| 0 <= k < n implies '0' <= #[trigger] point[k] && point[k] <= '9' by {
        assert(point[k] == a[k]);
    }
    lemma_digits_until(point, 0, n);
    lemma_digits_until(point, n + 1, point.len() as int);
    assert(point[0] == a[0]);
    assert(a[0] != '+' && a[0] != '-');
    let bare = seq!['.'] + b;
    assert forall|k: int| 1 <= k < bare.len() implies '0' <= #[trigger] bare[k] && bare[k] <= '9' by {
        assert(bare[k] == b[k - 1]);
    }
    lemma_digits_until(bare, 0, 0);
    lemma_digits_until(bare, 1, bare.len() as int);
    let power = a + seq!['e'] + b;
    assert forall|k: int| n + 1 <= k < power.len() implies '0' <= #[trigger] power[k] && power[k]
        <= '9' by {
        assert(power[k] == b[k - n - 1]);
    }
    assert forall|k: int| 0 <= k < n implies '0' <= #[trigger] power[k] && power[k] <= '9' by {
        assert(power[k] == a[k]);
    }
    lemma_digits_until(power, 0, n);
    lemma_digits_until(power, n + 1, power.len() as int);
    assert(power[0] == a[0]);
    assert(power[n] == 'e');
    assert(power[n + 1] == b[0]);
    let none = Seq::<char>::empty();
    assert(none.skip(0) =~= none);
    reveal_strlit("inf");
    reveal_strlit("infinity");
    reveal_strlit("nan");
    text::lemma_letters(none, "inf"@);
    text::lemma_letters(none, "infinity"@);
    text::lemma_letters(none, "nan"@);
    lemma_digits_until(none, 0, 0);
}

/// A word that starts with a letter is no number, unless it is one of the words
/// for an infinity or for no number at all.
pub proof fn lemma_no_number(s: Seq<char>)
    requires
        s.len() > 0,
        'a' <= s[0] && s[0] <= 'z' || 'A' <= s[0] && s[0] <= 'Z',
        s[0] != 'i' && s[0] != 'I' && s[0] != 'n' && s[0] != 'N',
    ensures
        !easyeda::is_number(s),
{
    lemma_digits_until(s, 0, 0);
    assert(s.skip(0) =~= s);
    reveal_strlit("inf");
    reveal_strlit("infinity");
    reveal_strlit("nan");
    text::lemma_letters(s, "inf"@);
    text::lemma_letters(s, "infinity"@);
    text::lemma_letters(s, "nan"@);
    assert(text::lower_char('i') == 'i' && text::lower_char('n') == 'n');
    if text::same_letters(s, "inf"@) || text::same_letters(s, "infinity"@) {
        assert(text::lower_char(s[0]) == 'i');
    }
    if text::same_letters(s, "nan"@) {
        assert(text::lower_char(s[0]) == 'n');
    }
}

} // verus!
