//! The main screen: what the library holds, the queue of archives waiting to be
//! imported, and the parts already in it, side by side.

use vstd::prelude::*;
use vstd::string::*;

use crate::app;
use crate::app::panes;
use crate::app::steps;
use crate::app::steps::{both, count};
use crate::app::{App, Focus};
use crate::config;
use crate::library;
use crate::library::is_found;
use crate::manifest;
use crate::manifest::Part;
use crate::scan;
use crate::scan::ZipEntry;
use crate::text;
use crate::text::{has, has_prefix, joined, pieces};
use crate::ui;
use crate::ui::{
    fit, hints, human_size, minus, pad, truncate, Color, Line, Lines, Look, Panel,
};

verus! {

// ------------------------------------------------------------------ summary

pub open spec fn count_span(value: int, noun: Seq<char>) -> ui::SpanView {
    ui::SpanView {
        text: text::decimal(value as nat) + " "@ + noun + if value == 1 {
            ""@
        } else {
            "s"@
        },
        look: ui::strong(
            if value == 0 {
                Color::Muted
            } else {
                Color::Accent
            },
        ),
    }
}

pub open spec fn dot() -> ui::SpanView {
    ui::SpanView { text: "  ·  "@, look: ui::tinted(Color::Muted) }
}

/// Where the library is and what is in it — the two facts worth permanent screen
/// space. Which library the counts belong to rides in the title.
pub open spec fn summary_of(a: app::AppView, width: int) -> ui::PanelView {
    ui::PanelView {
        title: match config::active(a.config) {
            Some(i) => " KiCad Library — "@ + a.config.projects[i].name + " "@,
            None => " KiCad Library "@,
        },
        lines: seq![
            seq![
                count_span(a.totals.parts, "part"@),
                dot(),
                count_span(a.totals.symbols, "symbol"@),
                dot(),
                count_span(a.totals.footprints, "footprint"@),
                dot(),
                count_span(a.totals.models, "model"@),
            ],
            ui::said(
                ui::fitted(a.config.library_root, ui::less(width, 2)),
                ui::tinted(Color::Muted),
            ),
        ],
    }
}

fn put_count(line: &mut Line, value: usize, noun: &str)
    ensures
        final(line)@ == old(line)@.push(count_span(value as int, noun@)),
{
    let plural = if value == 1 {
        ""
    } else {
        "s"
    };
    let mut text = count("", value as u128, " ");
    text.append(noun);
    text.append(plural);
    proof {
        reveal_strlit("");
        assert(text@ =~= count_span(value as int, noun@).text);
    }
    let color = if value == 0 {
        Color::Muted
    } else {
        Color::Accent
    };
    line.put(text, Look::strong(color));
}

fn put_dot(line: &mut Line)
    ensures
        final(line)@ == old(line)@.push(dot()),
{
    line.put("  ·  ".to_string(), Look::tint(Color::Muted));
}

/// Where the library is and what is in it, in a box `width` wide.
pub fn summary(app: &App, width: u16) -> (r: Panel)
    ensures
        r@ == summary_of(app@, width as int),
{
    let mut counts = Line::empty();
    put_count(&mut counts, app.totals.parts, "part");
    put_dot(&mut counts);
    put_count(&mut counts, app.totals.symbols, "symbol");
    put_dot(&mut counts);
    put_count(&mut counts, app.totals.footprints, "footprint");
    put_dot(&mut counts);
    put_count(&mut counts, app.totals.models, "model");
    assert(counts@ =~= summary_of(app@, width as int).lines[0]);
    let title = match app.config.active_project() {
        Some(project) => {
            let mut out = both(" KiCad Library — ", project.name.as_str());
            out.append(" ");
            out
        },
        None => " KiCad Library ".to_string(),
    };
    // Counts first: on a short terminal the layout squeezes this block, and the
    // second line is the one that gets dropped.
    let mut lines = Lines::new();
    lines.put(counts);
    let root = fit(app.config.library_root.as_str(), minus(width as usize, 2));
    lines.say(root.as_str(), Look::tint(Color::Muted));
    let panel = Panel { title, lines };
    assert(panel@.lines =~= summary_of(app@, width as int).lines);
    panel
}

// ------------------------------------------------------------------- filter

/// The filter row only exists while it is in use, so the lists keep their height
/// in the common case.
pub open spec fn has_filter(a: app::AppView) -> bool {
    a.filtering || a.filter.len() > 0
}

pub fn filter_height(app: &App) -> (r: u16)
    ensures
        r == (if has_filter(app@) {
            3u16
        } else {
            0u16
        }),
{
    if app.filtering || !app.filter.as_str().is_empty() {
        3
    } else {
        0
    }
}

pub open spec fn filter_of(a: app::AppView) -> ui::PanelView {
    ui::PanelView {
        title: " Filter "@,
        lines: seq![
            ui::said(
                "  "@ + a.filter + if a.filtering {
                    "_"@
                } else {
                    ""@
                },
                ui::strong(Color::Yellow),
            ),
        ],
    }
}

pub fn filter_box(app: &App) -> (r: Panel)
    ensures
        r@ == filter_of(app@),
{
    let mut text = both("  ", app.filter.as_str());
    text.append(
        if app.filtering {
            "_"
        } else {
            ""
        },
    );
    let mut lines = Lines::new();
    lines.put(Line::of(text, Look::strong(Color::Yellow)));
    let panel = Panel { title: " Filter ".to_string(), lines };
    assert(panel@.lines =~= filter_of(app@).lines);
    panel
}

// -------------------------------------------------------------------- lists

/// How many rows a list shows, and of how many when it is filtered.
pub open spec fn list_title(name: Seq<char>, shown: int, whole: int, filtered: bool) -> Seq<char> {
    if filtered {
        steps::counted(" "@ + name + " ("@, shown, "/"@) + steps::counted(""@, whole, ") "@)
    } else {
        steps::counted(" "@ + name + " ("@, whole, ") "@)
    }
}

fn write_title(name: &str, shown: usize, whole: usize, filtered: bool) -> (r: String)
    ensures
        r@ == list_title(name@, shown as int, whole as int, filtered),
{
    let mut head = both(" ", name);
    head.append(" (");
    if filtered {
        let mut out = count(head.as_str(), shown as u128, "/");
        out.append(count("", whole as u128, ") ").as_str());
        out
    } else {
        count(head.as_str(), whole as u128, ") ")
    }
}

pub open spec fn muted(text: Seq<char>) -> Seq<ui::SpanView> {
    ui::said(text, ui::tinted(Color::Muted))
}

pub open spec fn no_match(filter: Seq<char>) -> Seq<Seq<ui::SpanView>> {
    seq![ui::gap(), muted("  Nothing matches \""@ + filter + "\"."@)]
}

fn write_no_match(filter: &str) -> (r: Lines)
    ensures
        r@ == no_match(filter@),
{
    let mut lines = Lines::new();
    lines.skip();
    let mut text = both("  Nothing matches \"", filter);
    text.append("\".");
    lines.put(Line::of(text, Look::tint(Color::Muted)));
    assert(lines@ =~= no_match(filter@));
    lines
}

/// A list, or what is said in its place while it is empty.
pub struct Listing {
    pub panel: Panel,
    pub focused: bool,
    /// The lines are rows that can be selected.
    pub rows: bool,
}

#[verifier::ext_equal]
pub struct ListingView {
    pub panel: ui::PanelView,
    pub focused: bool,
    pub rows: bool,
}

impl View for Listing {
    type V = ListingView;

    open spec fn view(&self) -> ListingView {
        ListingView { panel: self.panel@, focused: self.focused, rows: self.rows }
    }
}

/// What is said when no archive is waiting.
pub open spec fn no_zips(dir: Seq<char>, width: int) -> Seq<Seq<ui::SpanView>> {
    seq![
        ui::gap(),
        ui::said("  No ZIP files found."@, ui::tinted(Color::Yellow)),
        ui::gap(),
        muted("  Drop Component Search Engine archives into"@),
        muted("  "@ + ui::fitted(dir, ui::less(width, 4))),
        ui::gap(),
        muted("  or press [W] to search for a part online."@),
    ]
}

pub open spec fn zip_row(z: scan::ZipView) -> Seq<ui::SpanView> {
    seq![
        ui::SpanView { text: z.display, look: ui::plain() },
        ui::SpanView { text: "  "@ + ui::sized(z.size as int), look: ui::tinted(Color::Muted) },
    ]
}

/// The first `n` rows of the queue.
pub open spec fn zip_rows(a: app::AppView, n: int) -> Seq<Seq<ui::SpanView>>
    decreases n,
{
    if n <= 0 {
        Seq::empty()
    } else {
        match panes::zip_at(a, n - 1) {
            Some(z) => zip_rows(a, n - 1).push(zip_row(z)),
            None => zip_rows(a, n - 1),
        }
    }
}

pub open spec fn queue_of(a: app::AppView, width: int) -> ListingView {
    ListingView {
        panel: ui::PanelView {
            title: list_title(
                "ZIP Queue"@,
                a.queue_view.len() as int,
                a.zips.len() as int,
                a.filter.len() > 0,
            ),
            lines: if a.queue_view.len() > 0 {
                zip_rows(a, a.queue_view.len() as int)
            } else if a.zips.len() == 0 {
                no_zips(a.config.download_dir, width)
            } else {
                no_match(a.filter)
            },
        },
        focused: a.focus == Focus::Queue,
        rows: a.queue_view.len() > 0,
    }
}

fn write_no_zips(dir: &str, width: u16) -> (r: Lines)
    ensures
        r@ == no_zips(dir@, width as int),
{
    let mut lines = Lines::new();
    lines.skip();
    lines.say("  No ZIP files found.", Look::tint(Color::Yellow));
    lines.skip();
    lines.say("  Drop Component Search Engine archives into", Look::tint(Color::Muted));
    let short = fit(dir, minus(width as usize, 4));
    let place = both("  ", short.as_str());
    lines.put(Line::of(place, Look::tint(Color::Muted)));
    lines.skip();
    lines.say("  or press [W] to search for a part online.", Look::tint(Color::Muted));
    assert(lines@ =~= no_zips(dir@, width as int));
    lines
}

fn write_zip(z: &ZipEntry) -> (r: Line)
    ensures
        r@ == zip_row(z@),
{
    let mut line = Line::empty();
    line.put(z.display.clone(), Look::plain());
    let size = human_size(z.size);
    line.put(both("  ", size.as_str()), Look::tint(Color::Muted));
    assert(line@ =~= zip_row(z@));
    line
}

/// The queue, in a box `width` wide.
pub fn queue(app: &App, width: u16) -> (r: Listing)
    ensures
        r@ == queue_of(app@, width as int),
{
    let ghost a = app@;
    let shown: usize = app.queue_view.len();
    let whole: usize = app.zips.len();
    assert(a.queue_view.len() == shown && a.zips.len() == whole);
    let title = write_title("ZIP Queue", shown, whole, !app.filter.as_str().is_empty());
    let lines = if shown > 0 {
        let mut lines = Lines::new();
        let mut i: usize = 0;
        while i < shown
            invariant
                i <= shown,
                a == app@,
                lines@ == zip_rows(a, i as int),
            decreases shown - i,
        {
            if let Some(z) = app.zip_in(i) {
                lines.put(write_zip(z));
            }
            i += 1;
        }
        lines
    } else if whole == 0 {
        write_no_zips(app.config.download_dir.as_str(), width)
    } else {
        write_no_match(app.filter.as_str())
    };
    Listing { panel: Panel { title, lines }, focused: app.focus == Focus::Queue, rows: shown > 0 }
}

/// Which of the three file kinds a part has, so a part missing a 3D model is
/// visible at a glance.
pub open spec fn have(letter: Seq<char>, present: bool) -> ui::SpanView {
    ui::SpanView {
        text: if present {
            letter + " "@
        } else {
            "· "@
        },
        look: ui::tinted(
            if present {
                Color::Green
            } else {
                Color::Muted
            },
        ),
    }
}

/// A part of the library. One found in the folders rather than imported is
/// dimmed, so the pane shows the whole library without claiming credit for it.
pub open spec fn part_row(p: manifest::PartView) -> Seq<ui::SpanView> {
    seq![
        ui::SpanView {
            text: ui::padded(ui::cut(p.name, 24), 24),
            look: if p.source == library::FOUND@ {
                ui::tinted(Color::Muted)
            } else {
                ui::plain()
            },
        },
        have("S"@, p.symbol_file is Some),
        have("F"@, p.footprints.len() > 0),
        have("M"@, p.models.len() > 0),
        ui::SpanView { text: "  "@ + p.source, look: ui::tinted(Color::Muted) },
    ]
}

/// The first `n` rows of the library.
pub open spec fn part_rows(a: app::AppView, n: int) -> Seq<Seq<ui::SpanView>>
    decreases n,
{
    if n <= 0 {
        Seq::empty()
    } else {
        match panes::part_at(a, n - 1) {
            Some(p) => part_rows(a, n - 1).push(part_row(p)),
            None => part_rows(a, n - 1),
        }
    }
}

pub open spec fn no_parts() -> Seq<Seq<ui::SpanView>> {
    seq![
        ui::gap(),
        muted("  Nothing imported yet."@),
        ui::gap(),
        muted("  Import an archive, or press [W] to search"@),
        muted("  the LCSC catalogue and add a part directly."@),
    ]
}

pub open spec fn library_of(a: app::AppView) -> ListingView {
    ListingView {
        panel: ui::PanelView {
            title: list_title(
                "Library"@,
                a.library_view.len() as int,
                a.library.len() as int,
                a.filter.len() > 0,
            ),
            lines: if a.library_view.len() > 0 {
                part_rows(a, a.library_view.len() as int)
            } else if a.library.len() == 0 {
                no_parts()
            } else {
                no_match(a.filter)
            },
        },
        focused: a.focus == Focus::Library,
        rows: a.library_view.len() > 0,
    }
}

fn put_have(line: &mut Line, letter: &str, present: bool)
    ensures
        final(line)@ == old(line)@.push(have(letter@, present)),
{
    if present {
        line.put(both(letter, " "), Look::tint(Color::Green));
    } else {
        line.put("· ".to_string(), Look::tint(Color::Muted));
    }
}

fn write_part(p: &Part) -> (r: Line)
    ensures
        r@ == part_row(p@),
{
    let mut line = Line::empty();
    let short = truncate(p.name.as_str(), 24);
    let name = pad(short.as_str(), 24);
    let look = if is_found(p) {
        Look::tint(Color::Muted)
    } else {
        Look::plain()
    };
    line.put(name, look);
    assert(p@.footprints.len() == p.footprints@.len());
    assert(p@.models.len() == p.models@.len());
    put_have(&mut line, "S", p.symbol_file.is_some());
    put_have(&mut line, "F", p.footprints.len() > 0);
    put_have(&mut line, "M", p.models.len() > 0);
    line.put(both("  ", p.source.as_str()), Look::tint(Color::Muted));
    assert(line@ =~= part_row(p@));
    line
}

fn write_no_parts() -> (r: Lines)
    ensures
        r@ == no_parts(),
{
    let mut lines = Lines::new();
    lines.skip();
    lines.say("  Nothing imported yet.", Look::tint(Color::Muted));
    lines.skip();
    lines.say("  Import an archive, or press [W] to search", Look::tint(Color::Muted));
    lines.say("  the LCSC catalogue and add a part directly.", Look::tint(Color::Muted));
    assert(lines@ =~= no_parts());
    lines
}

/// The parts of the library.
pub fn library_list(app: &App) -> (r: Listing)
    ensures
        r@ == library_of(app@),
{
    let ghost a = app@;
    let shown: usize = app.library_view.len();
    let whole: usize = app.library.len();
    assert(a.library_view.len() == shown && a.library.len() == whole);
    let title = write_title("Library", shown, whole, !app.filter.as_str().is_empty());
    let lines = if shown > 0 {
        let mut lines = Lines::new();
        let mut i: usize = 0;
        while i < shown
            invariant
                i <= shown,
                a == app@,
                lines@ == part_rows(a, i as int),
            decreases shown - i,
        {
            if let Some(p) = app.part_in(i) {
                lines.put(write_part(p));
            }
            i += 1;
        }
        lines
    } else if whole == 0 {
        write_no_parts()
    } else {
        write_no_match(app.filter.as_str())
    };
    Listing { panel: Panel { title, lines }, focused: app.focus == Focus::Library, rows: shown > 0 }
}

// ------------------------------------------------------------------ details

/// One kind of file of a part.
pub open spec fn detail_line(label: Seq<char>, values: Seq<Seq<char>>, width: int) -> Seq<
    ui::SpanView,
> {
    let text = if values.len() == 0 {
        "none"@
    } else {
        text::join(values, ", "@)
    };
    let head = label + ": "@;
    seq![
        ui::SpanView { text: head, look: ui::tinted(Color::Muted) },
        ui::SpanView {
            text: ui::fitted(text, ui::less(width, head.len() as int)),
            look: ui::plain(),
        },
    ]
}

fn write_detail(label: &str, values: &Vec<String>, width: usize) -> (r: Line)
    ensures
        r@ == detail_line(label@, text::views(values@), width as int),
{
    assert(text::views(values@).len() == values@.len());
    let text = if values.len() == 0 {
        "none".to_string()
    } else {
        joined(values, ", ")
    };
    let head = both(label, ": ");
    let room: usize = minus(width, crate::text::to_chars(head.as_str()).len());
    let mut line = Line::empty();
    let value = fit(text.as_str(), room);
    line.put(head, Look::tint(Color::Muted));
    line.put(value, Look::plain());
    assert(line@ =~= detail_line(label@, text::views(values@), width as int));
    line
}

pub open spec fn zip_details(z: scan::ZipView, width: int) -> Seq<Seq<ui::SpanView>> {
    seq![
        seq![
            ui::SpanView { text: z.display, look: ui::strong(Color::Accent) },
            ui::SpanView {
                text: "   "@ + ui::sized(z.size as int),
                look: ui::tinted(Color::Muted),
            },
        ],
        muted(ui::fitted(z.path, width)),
        ui::gap(),
        muted("[Enter] imports this archive; [A] imports the whole queue."@),
    ]
}

/// Where a part came from and when. A found part has no provenance to report,
/// only a file date.
pub open spec fn provenance(p: manifest::PartView) -> Seq<char> {
    let date = text::split(p.imported_at, 'T')[0];
    if p.source == library::FOUND@ {
        "   already in the library   "@ + date
    } else {
        "   from "@ + p.source + "   on "@ + date
    }
}

pub open spec fn part_details(p: manifest::PartView, width: int) -> Seq<Seq<ui::SpanView>> {
    seq![
        seq![
            ui::SpanView { text: p.name, look: ui::strong(Color::Accent) },
            ui::SpanView { text: provenance(p), look: ui::tinted(Color::Muted) },
        ],
        detail_line(
            "symbol"@,
            match p.symbol_file {
                Some(f) => seq![f],
                None => Seq::empty(),
            },
            width,
        ),
        detail_line("footprint"@, p.footprints, width),
        detail_line("model"@, p.models, width),
    ]
}

/// Whatever the focused pane is pointing at, in full.
pub open spec fn details_of(a: app::AppView, width: int) -> ui::PanelView {
    let room = ui::less(width, 2);
    ui::PanelView {
        title: " Details "@,
        lines: match a.focus {
            Focus::Queue => match panes::zip_selected(a) {
                Some(z) => zip_details(z, room),
                None => seq![muted("No archive selected."@)],
            },
            Focus::Library => match panes::part_selected(a) {
                Some(p) => part_details(p, room),
                None => seq![muted("No part selected."@)],
            },
        },
    }
}

fn write_zip_details(z: &ZipEntry, width: usize) -> (r: Lines)
    ensures
        r@ == zip_details(z@, width as int),
{
    let mut lines = Lines::new();
    let mut head = Line::empty();
    head.put(z.display.clone(), Look::strong(Color::Accent));
    let size = human_size(z.size);
    head.put(both("   ", size.as_str()), Look::tint(Color::Muted));
    assert(head@ =~= zip_details(z@, width as int)[0]);
    lines.put(head);
    lines.put(Line::of(fit(z.path.as_str(), width), Look::tint(Color::Muted)));
    lines.skip();
    lines.say(
        "[Enter] imports this archive; [A] imports the whole queue.",
        Look::tint(Color::Muted),
    );
    assert(lines@ =~= zip_details(z@, width as int));
    lines
}

fn write_provenance(p: &Part) -> (r: String)
    ensures
        r@ == provenance(p@),
{
    let parts = pieces(p.imported_at.as_str(), 'T');
    proof {
        text::lemma_split_len(p.imported_at@, 'T');
        assert(text::views(parts@).len() == parts@.len());
        assert(text::views(parts@)[0] == parts@[0]@);
    }
    if is_found(p) {
        both("   already in the library   ", parts[0].as_str())
    } else {
        let mut out = both("   from ", p.source.as_str());
        out.append("   on ");
        out.append(parts[0].as_str());
        out
    }
}

fn write_part_details(p: &Part, width: usize) -> (r: Lines)
    ensures
        r@ == part_details(p@, width as int),
{
    let mut lines = Lines::new();
    let mut head = Line::empty();
    head.put(p.name.clone(), Look::strong(Color::Accent));
    head.put(write_provenance(p), Look::tint(Color::Muted));
    assert(head@ =~= part_details(p@, width as int)[0]);
    lines.put(head);
    let mut symbols: Vec<String> = Vec::new();
    if let Some(f) = &p.symbol_file {
        symbols.push(f.clone());
    }
    assert(text::views(symbols@) =~= match p@.symbol_file {
        Some(f) => seq![f],
        None => Seq::empty(),
    });
    lines.put(write_detail("symbol", &symbols, width));
    lines.put(write_detail("footprint", &p.footprints, width));
    lines.put(write_detail("model", &p.models, width));
    assert(lines@ =~= part_details(p@, width as int));
    lines
}

/// Whatever the focused pane is pointing at, in a box `width` wide.
pub fn details(app: &App, width: u16) -> (r: Panel)
    ensures
        r@ == details_of(app@, width as int),
{
    let room: usize = minus(width as usize, 2);
    let lines = match app.focus {
        Focus::Queue => match app.selected_zip() {
            Some(z) => write_zip_details(z, room),
            None => {
                let mut lines = Lines::new();
                lines.say("No archive selected.", Look::tint(Color::Muted));
                assert(lines@ =~= seq![muted("No archive selected."@)]);
                lines
            },
        },
        Focus::Library => match app.selected_part() {
            Some(p) => write_part_details(p, room),
            None => {
                let mut lines = Lines::new();
                lines.say("No part selected.", Look::tint(Color::Muted));
                assert(lines@ =~= seq![muted("No part selected."@)]);
                lines
            },
        },
    };
    Panel { title: " Details ".to_string(), lines }
}

// ------------------------------------------------------------------- status

/// The status reports something that went wrong.
pub open spec fn is_trouble(status: Seq<char>) -> bool {
    ||| text::starts_with(status, "Import"@) && text::contains(status, "failed"@)
    ||| text::starts_with(status, "Scan error"@)
    ||| text::starts_with(status, "Watch failed"@)
}

/// What is being watched, and the last thing that happened. Fixed two lines,
/// never wrapped, so a long path cannot push the status message out of the box.
pub open spec fn status_of(a: app::AppView, width: int, present: bool) -> ui::PanelView {
    let room = ui::less(width, 2);
    let watching = if present {
        a.config.download_dir
    } else {
        a.config.download_dir + " (missing)"@
    };
    ui::PanelView {
        title: " Status "@,
        lines: seq![
            seq![
                ui::SpanView { text: "Watching  "@, look: ui::tinted(Color::Muted) },
                ui::SpanView {
                    text: ui::fitted(watching, ui::less(room, 10)),
                    look: ui::plain(),
                },
            ],
            ui::said(
                ui::fitted(a.status, room),
                ui::tinted(
                    if is_trouble(a.status) {
                        Color::Red
                    } else {
                        Color::Green
                    },
                ),
            ),
        ],
    }
}

fn trouble(status: &str) -> (r: bool)
    ensures
        r == is_trouble(status@),
{
    (has_prefix(status, "Import") && has(status, "failed")) || has_prefix(status, "Scan error")
        || has_prefix(status, "Watch failed")
}

/// What is being watched, given whether it is there, and the last thing that
/// happened, in a box `width` wide.
pub fn status(app: &App, width: u16, present: bool) -> (r: Panel)
    ensures
        r@ == status_of(app@, width as int, present),
{
    let room: usize = minus(width as usize, 2);
    let watching = if present {
        app.config.download_dir.clone()
    } else {
        both(app.config.download_dir.as_str(), " (missing)")
    };
    let mut first = Line::empty();
    first.put("Watching  ".to_string(), Look::tint(Color::Muted));
    first.put(fit(watching.as_str(), minus(room, 10)), Look::plain());
    assert(first@ =~= status_of(app@, width as int, present).lines[0]);
    let color = if trouble(app.status.as_str()) {
        Color::Red
    } else {
        Color::Green
    };
    let mut lines = Lines::new();
    lines.put(first);
    lines.put(Line::of(fit(app.status.as_str(), room), Look::tint(color)));
    assert(lines@ =~= status_of(app@, width as int, present).lines);
    Panel { title: " Status ".to_string(), lines }
}

/// The name of the job under way, on a line `width` wide.
pub open spec fn progress_of(import: app::ImportView, width: int) -> Seq<ui::SpanView> {
    ui::said(ui::fitted(import.name, width), ui::strong(Color::Yellow))
}

/// The name of the job under way, on a line `width` wide.
pub fn progress(import: &app::ImportState, width: u16) -> (r: Line)
    ensures
        r@ == progress_of(import@, width as int),
{
    Line::of(fit(import.name.as_str(), width as usize), Look::strong(Color::Yellow))
}

// ------------------------------------------------------------------ key bar

pub open spec fn main_hints(a: app::AppView) -> Seq<(Seq<char>, Seq<char>)> {
    if a.filtering {
        seq![("Type"@, "Filter"@), ("Enter"@, "Keep"@), ("Esc"@, "Clear"@)]
    } else {
        let rest = seq![
            ("W"@, "Search"@),
            ("P"@, "Project"@),
            ("Tab"@, "Pane"@),
            ("/"@, "Filter"@),
            ("R"@, "Rescan"@),
            ("S"@, "Settings"@),
            ("F12"@, "Diag"@),
            ("Q"@, "Quit"@),
        ];
        if a.focus == Focus::Queue {
            seq![("Enter"@, "Import"@), ("A"@, "All"@)] + rest
        } else {
            rest
        }
    }
}

pub fn main_keys(app: &App, width: u16) -> (r: Line)
    ensures
        r@ == ui::bar_line(ui::shown_hints(main_hints(app@), width as int)),
{
    let mut items: Vec<(&'static str, &'static str)> = Vec::new();
    if app.filtering {
        items.push(("Type", "Filter"));
        items.push(("Enter", "Keep"));
        items.push(("Esc", "Clear"));
    } else {
        if app.focus == Focus::Queue {
            items.push(("Enter", "Import"));
            items.push(("A", "All"));
        }
        items.push(("W", "Search"));
        items.push(("P", "Project"));
        items.push(("Tab", "Pane"));
        items.push(("/", "Filter"));
        items.push(("R", "Rescan"));
        items.push(("S", "Settings"));
        items.push(("F12", "Diag"));
        items.push(("Q", "Quit"));
    }
    assert(ui::hint_views(items@) =~= main_hints(app@));
    hints(&items, width)
}

} // verus!
