//! What is written into a footprint: the pads with their own numbers and places,
//! the lines on their own layers, the 3D model where it stands, and whether the
//! part is soldered on the board or through it.

use vstd::prelude::*;
use vstd::string::*;

use crate::online::easyeda;
use crate::online::footprint;
use crate::online::footprint::{DrawnView, DrillView, Outline};
use crate::online::symbol;
use crate::online::written;

verus! {

/// A form on a line of its own, two blanks in.
pub open spec fn line(inner: Seq<char>) -> Seq<char> {
    "  "@ + written::boxed(inner) + "\n"@
}

proof fn lemma_kept(list: Seq<DrawnView>, i: int) -> (k: int)
    requires
        0 <= i < list.len(),
        footprint::is_measured(list[i]),
    ensures
        0 <= k < footprint::measured(list).len(),
        footprint::measured(list)[k] == list[i],
    decreases list.len(),
{
    if i < list.len() - 1 {
        assert(list.drop_last()[i] == list[i]);
        lemma_kept(list.drop_last(), i)
    } else {
        footprint::measured(list).len() - 1
    }
}

proof fn lemma_origin(list: Seq<DrawnView>, k: int) -> (i: int)
    requires
        0 <= k < footprint::measured(list).len(),
    ensures
        0 <= i < list.len(),
        footprint::is_measured(list[i]),
        footprint::measured(list)[k] == list[i],
    decreases list.len(),
{
    let init = list.drop_last();
    if k < footprint::measured(init).len() {
        let i = lemma_origin(init, k);
        assert(init[i] == list[i]);
        i
    } else {
        list.len() - 1
    }
}

// ------------------------------------------------------------- the attribute

/// One of the shapes is a pad that can be written, drilled or not.
pub open spec fn holds_pad(list: Seq<DrawnView>, drilled: bool) -> bool {
    exists|i: int|
        0 <= i < list.len() && footprint::is_measured(#[trigger] list[i]) && (
        list[i] matches DrawnView::Pad { at, angle, size, even, drill, label } && (drill is Surface)
            != drilled)
}

/// What a footprint starts with, whatever its shapes are.
pub open spec fn heading(c: easyeda::ComponentView, name: Seq<char>) -> Seq<char> {
    "footprint "@ + written::quoted(name) + " "@ + written::boxed("version"@ + " "@ + "20221018"@)
        + " "@ + written::boxed("generator cse-importer"@) + "\n"@ + line(
        "layer "@ + written::quoted("F.Cu"@),
    ) + line("descr "@ + written::quoted(c.title)) + line(
        "tags "@ + written::quoted(c.lcsc + " "@ + c.package_name),
    )
}

proof fn lemma_has_pad(list: Seq<DrawnView>, drilled: bool)
    ensures
        footprint::has_pad(footprint::measured(list), drilled) == holds_pad(list, drilled),
{
    let kept = footprint::measured(list);
    if footprint::has_pad(kept, drilled) {
        let k = choose|k: int|
            0 <= k < kept.len() && match #[trigger] kept[k] {
                DrawnView::Pad { at, angle, size, even, drill, label } => (drill !is Surface)
                    == drilled,
                _ => false,
            };
        let i = lemma_origin(list, k);
        assert(list[i] == kept[k]);
    }
    if holds_pad(list, drilled) {
        let i = choose|i: int|
            0 <= i < list.len() && footprint::is_measured(#[trigger] list[i]) && (
            list[i] matches DrawnView::Pad { at, angle, size, even, drill, label } && (
            drill is Surface) != drilled);
        let k = lemma_kept(list, i);
        assert(kept[k] == list[i]);
    }
}

/// What follows the heading of a footprint is how it is soldered: `attr smd`
/// where every pad is undrilled, `attr through_hole` where every pad is drilled,
/// and neither where it has both or none. Right after that come its texts.
#[verifier::rlimit(40)]
pub proof fn lemma_attribute(
    c: easyeda::ComponentView,
    name: Seq<char>,
    path: Option<Seq<char>>,
    placement: Option<footprint::PlacementView>,
    list: Seq<DrawnView>,
)
    ensures
        exists|rest: Seq<char>|
            footprint::converted(c, name, path, placement, list) == seq!['('] + heading(c, name) + (
            if holds_pad(list, false) && !holds_pad(list, true) {
                line("attr smd"@)
            } else if holds_pad(list, true) && !holds_pad(list, false) {
                line("attr through_hole"@)
            } else {
                Seq::<char>::empty()
            }) + "  (fp_text reference "@ + #[trigger] (rest + "\n"@),
        line("attr smd"@) != line("attr through_hole"@),
{
    lemma_has_pad(list, true);
    lemma_has_pad(list, false);
    lemma_attributes_differ();
    let kept = footprint::measured(list);
    let attr = footprint::attribute_row(kept);
    lemma_attribute_row(kept);
    let first = footprint::text_row("reference"@, "REF**"@, "F.SilkS"@, false);
    let second = footprint::text_row("value"@, name, "F.Fab"@, true);
    let body = footprint::body_of(kept);
    let last = footprint::model_rows(path, footprint::placed(placement));
    lemma_inner(c, name, path, footprint::placed(placement), kept);
    lemma_text_start();
    lemma_regroup(
        heading(c, name),
        attr,
        first,
        second,
        body,
        last,
        "  (fp_text reference "@,
        "\n"@,
    );
}

proof fn lemma_attributes_differ()
    ensures
        line("attr smd"@) != line("attr through_hole"@),
{
    reveal_strlit("attr smd");
    reveal_strlit("attr through_hole");
    assert(line("attr smd"@).len() == "  "@.len() + 10 + "\n"@.len());
    assert(line("attr through_hole"@).len() == "  "@.len() + 19 + "\n"@.len());
}

proof fn lemma_attribute_row(list: Seq<DrawnView>)
    ensures
        footprint::attribute_row(list) == (if footprint::has_pad(list, false)
            && !footprint::has_pad(list, true) {
            line("attr smd"@)
        } else if footprint::has_pad(list, true) && !footprint::has_pad(list, false) {
            line("attr through_hole"@)
        } else {
            Seq::<char>::empty()
        }),
{
    reveal_strlit("");
    assert(""@ =~= Seq::<char>::empty());
}

proof fn lemma_inner(
    c: easyeda::ComponentView,
    name: Seq<char>,
    path: Option<Seq<char>>,
    model: Option<footprint::PlacementView>,
    kept: Seq<DrawnView>,
)
    ensures
        footprint::footprint_inner(c, name, path, model, kept) == heading(c, name)
            + footprint::attribute_row(kept) + footprint::text_row(
            "reference"@,
            "REF**"@,
            "F.SilkS"@,
            false,
        ) + footprint::text_row("value"@, name, "F.Fab"@, true) + footprint::body_of(kept)
            + footprint::model_rows(path, model),
{
}

proof fn lemma_regroup(
    head: Seq<char>,
    attr: Seq<char>,
    first: Seq<char>,
    second: Seq<char>,
    body: Seq<char>,
    last: Seq<char>,
    start: Seq<char>,
    end: Seq<char>,
)
    requires
        start.len() <= first.len(),
        first.take(start.len() as int) == start,
    ensures
        exists|rest: Seq<char>|
            seq!['('] + (head + attr + first + second + body + last) + seq![')'] + end == seq!['(']
                + head + attr + start + #[trigger] (rest + end),
{
    let tail = first.skip(start.len() as int);
    assert(first =~= start + tail);
    let rest = tail + second + body + last + seq![')'];
    assert(seq!['('] + (head + attr + first + second + body + last) + seq![')'] + end =~= seq!['(']
        + head + attr + start + (rest + end));
}

proof fn lemma_text_start()
    ensures
        "  (fp_text reference "@.len() <= footprint::text_row(
            "reference"@,
            "REF**"@,
            "F.SilkS"@,
            false,
        ).len(),
        footprint::text_row("reference"@, "REF**"@, "F.SilkS"@, false).take(
            "  (fp_text reference "@.len() as int,
        ) == "  (fp_text reference "@,
{
    let row = footprint::text_row("reference"@, "REF**"@, "F.SilkS"@, false);
    reveal_strlit("  (fp_text reference ");
    reveal_strlit("  ");
    reveal_strlit("fp_text ");
    reveal_strlit("reference");
    reveal_strlit(" ");
    let front = "  "@ + seq!['('] + "fp_text "@ + "reference"@ + " "@;
    assert(front =~= "  (fp_text reference "@);
    let inner = "fp_text "@ + "reference"@ + " "@;
    let rest = crate::sexpr::literal("REF**"@) + " "@ + crate::sexpr::form("at 0 0"@) + " "@
        + footprint::layer_form("F.SilkS"@) + symbol::hide_text(false) + "\n    "@
        + footprint::text_effects() + "\n  "@;
    assert(row =~= "  "@ + (seq!['('] + (inner + rest) + seq![')']) + "\n"@);
    assert(row.take(front.len() as int) =~= front);
}

// ------------------------------------------------------------------ shapes

proof fn lemma_rows(list: Seq<DrawnView>, i: int)
    requires
        0 <= i < list.len(),
    ensures
        written::shows(footprint::body_of(list), footprint::rows_of(list[i])),
    decreases list.len(),
{
    broadcast use written::group_shows;

    if i < list.len() - 1 {
        lemma_rows(list.drop_last(), i);
        assert(list.drop_last()[i] == list[i]);
    }
}

proof fn lemma_rows_shown(
    c: easyeda::ComponentView,
    name: Seq<char>,
    path: Option<Seq<char>>,
    placement: Option<footprint::PlacementView>,
    list: Seq<DrawnView>,
    i: int,
)
    requires
        0 <= i < list.len(),
        footprint::is_measured(list[i]),
    ensures
        written::shows(
            footprint::converted(c, name, path, placement, list),
            footprint::rows_of(list[i]),
        ),
{
    broadcast use written::group_shows;

    let k = lemma_kept(list, i);
    let kept = footprint::measured(list);
    let model = footprint::placed(placement);
    lemma_rows(kept, k);
    let body = footprint::body_of(kept);
    assert(written::shows(footprint::footprint_inner(c, name, path, model, kept), body));
    assert(written::shows(footprint::converted(c, name, path, placement, list), body));
    written::lemma_shows_through(
        footprint::converted(c, name, path, placement, list),
        body,
        footprint::rows_of(list[i]),
    );
}

/// The word for how a pad is soldered.
pub open spec fn is_sort(drill: DrillView, plated: bool, word: Seq<char>) -> bool {
    &&& drill is Surface ==> word == "smd"@
    &&& !(drill is Surface) && plated ==> word == "thru_hole"@
    &&& !(drill is Surface) && !plated ==> word == "np_thru_hole"@
}

/// The word for the outline of a pad.
pub open spec fn is_outline(outline: Outline, even: bool, word: Seq<char>) -> bool {
    &&& outline == Outline::Ellipse && even ==> word == "circle"@
    &&& outline == Outline::Ellipse && !even ==> word == "oval"@
    &&& outline == Outline::Oval ==> word == "oval"@
    &&& outline == Outline::Rect ==> word == "rect"@
}

/// Where a pad stands, and how it is turned.
pub open spec fn spot(at: (Seq<char>, Seq<char>), angle: Option<Seq<char>>) -> Seq<char> {
    match angle {
        None => written::point("at"@, at),
        Some(a) => written::boxed("at "@ + at.0 + " "@ + at.1 + " "@ + a),
    }
}

/// The hole of a pad: nothing, a bore, or a slot, its length before its width.
pub open spec fn hole(drill: DrillView) -> Seq<char> {
    match drill {
        DrillView::Surface => ""@,
        DrillView::Round { diameter } => " "@ + written::boxed("drill"@ + " "@ + diameter),
        DrillView::Slot { length, diameter } => " "@ + written::point(
            "drill oval"@,
            (length, diameter),
        ),
    }
}

/// The layers of a pad: all copper where it is drilled, and otherwise those of
/// the side it is on, the back for the second layer.
pub open spec fn is_layers(drill: DrillView, layer: Seq<char>, t: Seq<char>) -> bool {
    &&& !(drill is Surface) ==> t == "layers "@ + written::quoted("*.Cu"@) + " "@ + written::quoted(
        "*.Mask"@,
    )
    &&& drill is Surface && layer == "2"@ ==> t == "layers "@ + written::quoted("B.Cu"@) + " "@
        + written::quoted("B.Paste"@) + " "@ + written::quoted("B.Mask"@)
    &&& drill is Surface && layer != "2"@ ==> t == "layers "@ + written::quoted("F.Cu"@) + " "@
        + written::quoted("F.Paste"@) + " "@ + written::quoted("F.Mask"@)
}

/// A pad as its file has it.
pub open spec fn pad_line(
    number: Seq<char>,
    sort: Seq<char>,
    outline: Seq<char>,
    spot: Seq<char>,
    size: (Seq<char>, Seq<char>),
    hole: Seq<char>,
    layers: Seq<char>,
) -> Seq<char> {
    line(
        "pad "@ + written::quoted(number) + " "@ + sort + " "@ + outline + " "@ + spot + " "@
            + written::point("size"@, size) + hole + " "@ + written::boxed(layers),
    )
}

/// Every pad of a package stands in its footprint, under its own number, at its
/// own place, in its own size, with its own hole, on its own side.
pub proof fn lemma_pad_written(
    c: easyeda::ComponentView,
    name: Seq<char>,
    path: Option<Seq<char>>,
    placement: Option<footprint::PlacementView>,
    list: Seq<DrawnView>,
    i: int,
)
    requires
        0 <= i < list.len(),
        footprint::is_measured(list[i]),
    ensures
        list[i] matches DrawnView::Pad { at, angle, size, even, drill, label } ==> exists|
            sort: Seq<char>,
            outline: Seq<char>,
            layers: Seq<char>,
        |
            is_sort(drill, label.plated, sort) && is_outline(label.outline, even, outline)
                && is_layers(drill, label.layer, layers) && written::shows(
                footprint::converted(c, name, path, placement, list),
                #[trigger] pad_line(
                    label.number,
                    sort,
                    outline,
                    spot(at, angle),
                    size,
                    hole(drill),
                    layers,
                ),
            ),
{
    lemma_rows_shown(c, name, path, placement, list, i);
    if let DrawnView::Pad { at, angle, size, even, drill, label } = list[i] {
        let sort = footprint::pad_type(drill, label.plated);
        let outline = footprint::pad_outline(label.outline, even);
        let layers = footprint::pad_layers(drill, label.layer);
        assert(footprint::rows_of(list[i]) == pad_line(
            label.number,
            sort,
            outline,
            spot(at, angle),
            size,
            hole(drill),
            layers,
        ));
    }
}

/// A hole is bare and as wide as its bore. A via is plated, as wide as its rim
/// and bored by its bore. Neither has a number.
pub proof fn lemma_hole_written(
    c: easyeda::ComponentView,
    name: Seq<char>,
    path: Option<Seq<char>>,
    placement: Option<footprint::PlacementView>,
    list: Seq<DrawnView>,
    i: int,
)
    requires
        0 <= i < list.len(),
        footprint::is_measured(list[i]),
    ensures
        list[i] matches DrawnView::Hole { at, diameter } ==> written::shows(
            footprint::converted(c, name, path, placement, list),
            pad_line(
                ""@,
                "np_thru_hole"@,
                "circle"@,
                written::point("at"@, at),
                (diameter, diameter),
                " "@ + written::boxed("drill"@ + " "@ + diameter),
                "layers "@ + written::quoted("*.Cu"@) + " "@ + written::quoted("*.Mask"@),
            ),
        ),
        list[i] matches DrawnView::Via { at, outer, bore } ==> written::shows(
            footprint::converted(c, name, path, placement, list),
            pad_line(
                ""@,
                "thru_hole"@,
                "circle"@,
                written::point("at"@, at),
                (outer, outer),
                " "@ + written::boxed("drill"@ + " "@ + bore),
                "layers "@ + written::quoted("*.Cu"@) + " "@ + written::quoted("*.Mask"@),
            ),
        ),
{
    lemma_rows_shown(c, name, path, placement, list, i);
}

/// The KiCad layer of an EasyEDA layer.
pub open spec fn is_layer(id: Seq<char>, name: Seq<char>) -> bool {
    &&& id == "1"@ ==> name == "F.Cu"@
    &&& id == "2"@ ==> name == "B.Cu"@
    &&& id == "3"@ ==> name == "F.SilkS"@
    &&& id == "4"@ ==> name == "B.SilkS"@
    &&& id == "5"@ ==> name == "F.Paste"@
    &&& id == "6"@ ==> name == "B.Paste"@
    &&& id == "7"@ ==> name == "F.Mask"@
    &&& id == "8"@ ==> name == "B.Mask"@
    &&& id == "10"@ ==> name == "Edge.Cuts"@
    &&& id == "11"@ ==> name == "Edge.Cuts"@
    &&& id == "12"@ ==> name == "Cmts.User"@
    &&& id == "13"@ ==> name == "F.Fab"@
    &&& id == "14"@ ==> name == "B.Fab"@
    &&& id == "99"@ ==> name == "F.Fab"@
    &&& id == "100"@ ==> name == "F.Fab"@
    &&& id == "101"@ ==> name == "F.Fab"@
    &&& id.len() == 0 || id.len() > 3 ==> name == "Dwgs.User"@
}

proof fn lemma_layer(id: Seq<char>)
    ensures
        is_layer(id, footprint::layer_of(id)),
{
    reveal_strlit("1");
    reveal_strlit("2");
    reveal_strlit("3");
    reveal_strlit("4");
    reveal_strlit("5");
    reveal_strlit("6");
    reveal_strlit("7");
    reveal_strlit("8");
    reveal_strlit("10");
    reveal_strlit("11");
    reveal_strlit("12");
    reveal_strlit("13");
    reveal_strlit("14");
    reveal_strlit("99");
    reveal_strlit("100");
    reveal_strlit("101");
    assert("1"@[0] == '1' && "2"@[0] == '2' && "3"@[0] == '3' && "4"@[0] == '4' && "5"@[0] == '5'
        && "6"@[0] == '6' && "7"@[0] == '7' && "8"@[0] == '8');
    assert("10"@[1] == '0' && "11"@[1] == '1' && "12"@[1] == '2' && "13"@[1] == '3' && "14"@[1]
        == '4' && "99"@[1] == '9' && "100"@[2] == '0' && "101"@[2] == '1');
    assert("1"@.len() == 1 && "2"@.len() == 1 && "3"@.len() == 1 && "4"@.len() == 1 && "5"@.len()
        == 1 && "6"@.len() == 1 && "7"@.len() == 1 && "8"@.len() == 1 && "10"@.len() == 2
        && "11"@.len() == 2 && "12"@.len() == 2 && "13"@.len() == 2 && "14"@.len() == 2
        && "99"@.len() == 2 && "100"@.len() == 3 && "101"@.len() == 3);
}

/// A line or arc: its word and points, its own stroke, its own layer.
pub open spec fn stroke_line(points: Seq<char>, width: Seq<char>, layer: Seq<char>) -> Seq<char> {
    line(
        points + " "@ + written::boxed(
            "stroke "@ + written::boxed("width"@ + " "@ + width) + " "@ + written::boxed(
                "type solid"@,
            ),
        ) + " "@ + written::boxed("layer"@ + " "@ + written::quoted(layer)),
    )
}

/// A closed outline: its word and points, its stroke, its filling, its layer.
pub open spec fn area_line(
    points: Seq<char>,
    width: Seq<char>,
    filling: Seq<char>,
    layer: Seq<char>,
) -> Seq<char> {
    line(
        points + " "@ + written::boxed(
            "stroke "@ + written::boxed("width"@ + " "@ + width) + " "@ + written::boxed(
                "type solid"@,
            ),
        ) + " "@ + written::boxed("fill"@ + " "@ + filling) + " "@ + written::boxed(
            "layer"@ + " "@ + written::quoted(layer),
        ),
    )
}

proof fn lemma_track_rows(
    points: Seq<(Seq<char>, Seq<char>)>,
    width: Seq<char>,
    layer: Seq<char>,
    n: int,
    k: int,
)
    requires
        0 <= k < k + 1 < n <= points.len(),
    ensures
        written::shows(
            footprint::track_rows(points, width, layer, n),
            footprint::line_row(points[k], points[k + 1], width, layer),
        ),
    decreases n,
{
    broadcast use written::group_shows;

    if k + 1 < n - 1 {
        lemma_track_rows(points, width, layer, n - 1, k);
    }
}

/// Every stretch of a track stands in the footprint, from each of its points to
/// the next, in its own width and on its own layer.
pub proof fn lemma_track_written(
    c: easyeda::ComponentView,
    name: Seq<char>,
    path: Option<Seq<char>>,
    placement: Option<footprint::PlacementView>,
    list: Seq<DrawnView>,
    i: int,
    k: int,
)
    requires
        0 <= i < list.len(),
        footprint::is_measured(list[i]),
        list[i] is Track,
        0 <= k < k + 1 < list[i]->Track_points.len(),
    ensures
        list[i] matches DrawnView::Track { points, width, layer } ==> exists|on: Seq<char>|
            is_layer(layer, on) && written::shows(
                footprint::converted(c, name, path, placement, list),
                #[trigger] stroke_line(
                    "fp_line "@ + written::point("start"@, points[k]) + " "@ + written::point(
                        "end"@,
                        points[k + 1],
                    ),
                    width,
                    on,
                ),
            ),
{
    let out = footprint::converted(c, name, path, placement, list);
    lemma_rows_shown(c, name, path, placement, list, i);
    if let DrawnView::Track { points, width, layer } = list[i] {
        let on = footprint::layer_of(layer);
        lemma_layer(layer);
        lemma_track_rows(points, width, on, points.len() as int, k);
        let row = footprint::line_row(points[k], points[k + 1], width, on);
        written::lemma_shows_through(out, footprint::rows_of(list[i]), row);
        assert(row == stroke_line(
            "fp_line "@ + written::point("start"@, points[k]) + " "@ + written::point(
                "end"@,
                points[k + 1],
            ),
            width,
            on,
        ));
    }
}

proof fn lemma_path_rows(
    pieces: Seq<symbol::PieceView>,
    width: Seq<char>,
    layer: Seq<char>,
    k: int,
)
    requires
        0 <= k < pieces.len(),
    ensures
        pieces[k] matches symbol::PieceView::Line { from, to, joined } ==> written::shows(
            footprint::path_rows(pieces, width, layer),
            footprint::line_row(from, to, width, layer),
        ),
        pieces[k] matches symbol::PieceView::Arc { from, mid, to } ==> written::shows(
            footprint::path_rows(pieces, width, layer),
            footprint::arc_row(from, mid, to, width, layer),
        ),
    decreases pieces.len(),
{
    broadcast use written::group_shows;

    if k < pieces.len() - 1 {
        lemma_path_rows(pieces.drop_last(), width, layer, k);
        assert(pieces.drop_last()[k] == pieces[k]);
    } else {
        assert(pieces.last() == pieces[k]);
    }
}

/// Every piece of a path stands in the footprint: a line from its start to its
/// end, an arc through its middle.
pub proof fn lemma_path_written(
    c: easyeda::ComponentView,
    name: Seq<char>,
    path: Option<Seq<char>>,
    placement: Option<footprint::PlacementView>,
    list: Seq<DrawnView>,
    i: int,
    k: int,
)
    requires
        0 <= i < list.len(),
        footprint::is_measured(list[i]),
        list[i] is Path,
        0 <= k < list[i]->pieces.len(),
    ensures
        list[i] matches DrawnView::Path { pieces, width, layer } ==> exists|on: Seq<char>|
            #![trigger is_layer(layer, on)]
            is_layer(layer, on) && match pieces[k] {
                symbol::PieceView::Line { from, to, joined } => written::shows(
                    footprint::converted(c, name, path, placement, list),
                    stroke_line(
                        "fp_line "@ + written::point("start"@, from) + " "@ + written::point(
                            "end"@,
                            to,
                        ),
                        width,
                        on,
                    ),
                ),
                symbol::PieceView::Arc { from, mid, to } => written::shows(
                    footprint::converted(c, name, path, placement, list),
                    stroke_line(
                        "fp_arc "@ + written::point("start"@, from) + " "@ + written::point(
                            "mid"@,
                            mid,
                        ) + " "@ + written::point("end"@, to),
                        width,
                        on,
                    ),
                ),
            },
{
    let out = footprint::converted(c, name, path, placement, list);
    lemma_rows_shown(c, name, path, placement, list, i);
    if let DrawnView::Path { pieces, width, layer } = list[i] {
        let on = footprint::layer_of(layer);
        lemma_layer(layer);
        lemma_path_rows(pieces, width, on, k);
        match pieces[k] {
            symbol::PieceView::Line { from, to, joined } => {
                let row = footprint::line_row(from, to, width, on);
                written::lemma_shows_through(out, footprint::rows_of(list[i]), row);
            },
            symbol::PieceView::Arc { from, mid, to } => {
                let row = footprint::arc_row(from, mid, to, width, on);
                written::lemma_shows_through(out, footprint::rows_of(list[i]), row);
            },
        }
    }
}

/// Circles, rectangles and regions stand in the footprint, at their own places
/// and on their own layers; only a region is filled.
pub proof fn lemma_area_written(
    c: easyeda::ComponentView,
    name: Seq<char>,
    path: Option<Seq<char>>,
    placement: Option<footprint::PlacementView>,
    list: Seq<DrawnView>,
    i: int,
)
    requires
        0 <= i < list.len(),
        footprint::is_measured(list[i]),
    ensures
        list[i] matches DrawnView::Circle { center, end, width, layer } ==> exists|on: Seq<char>|
            is_layer(layer, on) && written::shows(
                footprint::converted(c, name, path, placement, list),
                #[trigger] area_line(
                    "fp_circle "@ + written::point("center"@, center) + " "@ + written::point(
                        "end"@,
                        end,
                    ),
                    width,
                    "none"@,
                    on,
                ),
            ),
        list[i] matches DrawnView::Rect { from, to, width, layer } ==> exists|on: Seq<char>|
            is_layer(layer, on) && written::shows(
                footprint::converted(c, name, path, placement, list),
                #[trigger] area_line(
                    "fp_rect "@ + written::point("start"@, from) + " "@ + written::point("end"@, to),
                    width,
                    "none"@,
                    on,
                ),
            ),
        list[i] matches DrawnView::Region { points, layer, cutout } ==> !cutout && points.len() >= 3
            ==> exists|on: Seq<char>|
            is_layer(layer, on) && written::shows(
                footprint::converted(c, name, path, placement, list),
                #[trigger] area_line(
                    "fp_poly "@ + written::boxed("pts"@ + " "@ + crate::sexpr::spots(points)),
                    "0"@,
                    "solid"@,
                    on,
                ),
            ),
{
    lemma_rows_shown(c, name, path, placement, list, i);
    match list[i] {
        DrawnView::Circle { center, end, width, layer } => {
            lemma_layer(layer);
            assert(footprint::rows_of(list[i]) == area_line(
                "fp_circle "@ + written::point("center"@, center) + " "@ + written::point(
                    "end"@,
                    end,
                ),
                width,
                "none"@,
                footprint::layer_of(layer),
            ));
        },
        DrawnView::Rect { from, to, width, layer } => {
            lemma_layer(layer);
            assert(footprint::rows_of(list[i]) == area_line(
                "fp_rect "@ + written::point("start"@, from) + " "@ + written::point("end"@, to),
                width,
                "none"@,
                footprint::layer_of(layer),
            ));
        },
        DrawnView::Region { points, layer, cutout } => {
            lemma_layer(layer);
            if !cutout && points.len() >= 3 {
                assert(footprint::rows_of(list[i]) == area_line(
                    "fp_poly "@ + written::boxed("pts"@ + " "@ + crate::sexpr::spots(points)),
                    "0"@,
                    "solid"@,
                    footprint::layer_of(layer),
                ));
            }
        },
        _ => {},
    }
}

/// A part with a model points at it by its path, moved across and up as it is
/// placed, not in height, in its own size, turned as it is turned. A footprint
/// without a path or without a placement points at none.
#[verifier::rlimit(40)]
pub proof fn lemma_model_written(
    c: easyeda::ComponentView,
    name: Seq<char>,
    path: Seq<char>,
    p: footprint::PlacementView,
    list: Seq<DrawnView>,
)
    requires
        footprint::is_placed(Some(p)),
    ensures
        written::shows(
            footprint::converted(c, name, Some(path), Some(p), list),
            line(
                "model "@ + written::quoted(path) + "\n    "@ + written::boxed(
                    "offset"@ + " "@ + written::boxed(
                        "xyz "@ + p.offset.0 + " "@ + p.offset.1 + " "@ + "0"@,
                    ),
                ) + "\n    "@ + written::boxed(
                    "scale"@ + " "@ + written::boxed("xyz "@ + "1"@ + " "@ + "1"@ + " "@ + "1"@),
                ) + "\n    "@ + written::boxed(
                    "rotate"@ + " "@ + written::boxed(
                        "xyz "@ + p.rotation.0 + " "@ + p.rotation.1 + " "@ + p.rotation.2,
                    ),
                ) + "\n  "@,
            ),
        ),
        footprint::converted(c, name, None, Some(p), list) == footprint::converted(
            c,
            name,
            Some(path),
            None,
            list,
        ),
        footprint::converted(c, name, Some(path), Some(p), list) != footprint::converted(
            c,
            name,
            None,
            None,
            list,
        ),
{
    broadcast use written::group_shows;

    let kept = footprint::measured(list);
    let row = footprint::model_row(path, p);
    let inner = footprint::footprint_inner(c, name, Some(path), Some(p), kept);
    let bare = footprint::footprint_inner(c, name, None, None, kept);
    assert(written::shows(inner, row));
    reveal_strlit("");
    reveal_strlit("  ");
    assert(inner.len() == bare.len() + row.len());
    assert(row.len() > 0);
    assert(footprint::converted(c, name, Some(path), Some(p), list).len() == inner.len() + 2
        + "\n"@.len());
    assert(footprint::converted(c, name, None, None, list).len() == bare.len() + 2 + "\n"@.len());
}

/// Every footprint has the two texts that KiCad asks for: the reference on the
/// silk screen, to be filled in, and its own name as the value, which is hidden.
#[verifier::rlimit(40)]
pub proof fn lemma_texts_written(
    c: easyeda::ComponentView,
    name: Seq<char>,
    path: Option<Seq<char>>,
    placement: Option<footprint::PlacementView>,
    list: Seq<DrawnView>,
)
    ensures
        written::shows(
            footprint::converted(c, name, path, placement, list),
            "fp_text "@ + "reference"@ + " "@ + written::quoted("REF**"@) + " "@ + written::boxed(
                "at 0 0"@,
            ) + " "@ + written::boxed("layer"@ + " "@ + written::quoted("F.SilkS"@)) + ""@,
        ),
        written::shows(
            footprint::converted(c, name, path, placement, list),
            "fp_text "@ + "value"@ + " "@ + written::quoted(name) + " "@ + written::boxed("at 0 0"@)
                + " "@ + written::boxed("layer"@ + " "@ + written::quoted("F.Fab"@)) + " hide"@,
        ),
{
    broadcast use written::group_shows;

    let kept = footprint::measured(list);
    let inner = footprint::footprint_inner(c, name, path, footprint::placed(placement), kept);
    let first = footprint::text_row("reference"@, "REF**"@, "F.SilkS"@, false);
    let second = footprint::text_row("value"@, name, "F.Fab"@, true);
    assert(written::shows(inner, first));
    assert(written::shows(inner, second));
    let one = "fp_text "@ + "reference"@ + " "@ + written::quoted("REF**"@) + " "@ + written::boxed(
        "at 0 0"@,
    ) + " "@ + written::boxed("layer"@ + " "@ + written::quoted("F.SilkS"@)) + ""@;
    let two = "fp_text "@ + "value"@ + " "@ + written::quoted(name) + " "@ + written::boxed(
        "at 0 0"@,
    ) + " "@ + written::boxed("layer"@ + " "@ + written::quoted("F.Fab"@)) + " hide"@;
    assert(written::shows(first, one));
    assert(written::shows(second, two));
    written::lemma_shows_through(inner, first, one);
    written::lemma_shows_through(inner, second, two);
}

} // verus!
