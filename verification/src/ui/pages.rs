//! The screens behind the main one: settings, projects, search, the folder
//! browser and diagnostics.

use vstd::prelude::*;
use vstd::string::*;

use crate::app;
use crate::app::keys;
use crate::app::panes;
use crate::app::settings;
use crate::app::steps;
use crate::app::steps::{both, count};
use crate::app::{App, Naming, Projects, Search, Settings};
use crate::config;
use crate::config::{Config, Field, Project};
use crate::online::easyeda;
use crate::online::easyeda::Hit;
use crate::paths;
use crate::paths::{file_name, same_path};
use crate::picker;
use crate::picker::Picker;
use crate::text;
use crate::text::{has_prefix, joined, number, slice, to_chars};
use crate::ui;
use crate::ui::home;
use crate::ui::{fit, height, hints, minus, pad, Color, Line, Lines, Look, Page, Panel};

verus! {

pub open spec fn keys_line(items: Seq<(Seq<char>, Seq<char>)>, width: int) -> Seq<ui::SpanView> {
    ui::bar_line(ui::shown_hints(items, width))
}

/// The first row to show, so that the one at `cursor` is the last that fits.
pub open spec fn first_row(cursor: int, visible: int) -> int {
    ui::less(cursor, ui::less(visible, 1))
}

/// How many entries of `per` rows fit into a box of `height`, at least one.
pub open spec fn room_for(height: int, per: int) -> int {
    let n = ui::less(height, 2) / per;
    if n > 1 {
        n
    } else {
        1
    }
}

fn fits_in(height: u16, per: usize) -> (r: usize)
    requires
        per > 0,
    ensures
        r as int == room_for(height as int, per as int),
        1 <= r <= 0xffff,
{
    let inner: usize = minus(height as usize, 2);
    let n: usize = inner / per;
    assert(n <= inner) by (nonlinear_arith)
        requires
            n == inner / per,
            per >= 1,
    ;
    if n > 1 {
        n
    } else {
        1
    }
}

// ----------------------------------------------------------------- settings

/// The row being typed into shows the buffer plus a caret. While editing, the
/// tail stays visible so the cursor position is meaningful.
pub open spec fn typed_value(buffer: Seq<char>, width: int) -> Seq<char> {
    if buffer.len() <= width {
        buffer + "_"@
    } else if width < 1 {
        "_"@
    } else {
        buffer.skip(buffer.len() - width + 1) + "_"@
    }
}

pub open spec fn setting_value(s: app::SettingsView, i: int, width: int) -> Seq<char> {
    if s.editing is Some && i == s.cursor {
        typed_value(s.editing->Some_0, width)
    } else {
        ui::fitted(settings::field_at(i).shown(s.draft), width)
    }
}

/// A field: its label, its value, and a blank line.
pub open spec fn setting_lines(s: app::SettingsView, i: int, width: int) -> Seq<Seq<ui::SpanView>> {
    let selected = i == s.cursor;
    let look = if selected {
        ui::strong(Color::Accent)
    } else {
        ui::tinted(Color::Muted)
    };
    let value_look = if selected && s.editing is Some {
        ui::strong(Color::Yellow)
    } else if selected {
        ui::tinted(Color::White)
    } else {
        ui::plain()
    };
    seq![
        seq![
            ui::SpanView {
                text: if selected {
                    "> "@
                } else {
                    "  "@
                },
                look,
            },
            ui::SpanView { text: settings::field_at(i).caption(), look },
        ],
        ui::said("    "@ + setting_value(s, i, width), value_look),
        ui::gap(),
    ]
}

/// The fields from `first` up to `n`.
pub open spec fn settings_lines(s: app::SettingsView, first: int, n: int, width: int) -> Seq<
    Seq<ui::SpanView>,
>
    decreases n - first,
{
    if n <= first {
        Seq::empty()
    } else {
        settings_lines(s, first, n - 1, width) + setting_lines(s, n - 1, width)
    }
}

pub open spec fn settings_title(s: app::SettingsView) -> Seq<char> {
    steps::counted(" SETTINGS  ("@, s.cursor + 1, "/12)"@) + if s.dirty {
        "  •unsaved "@
    } else {
        " "@
    }
}

/// What the last edit did beyond its own row, or where the file lives.
pub open spec fn settings_footer(s: app::SettingsView, config_path: Seq<char>, width: int) -> Seq<
    Seq<ui::SpanView>,
> {
    if s.note.len() == 0 {
        seq![
            home::muted(
                "The library lives under its root; changing the root moves it all. [P] switches projects."@,
            ),
            ui::said("  "@ + ui::fitted(config_path, ui::less(width, 4)), ui::plain()),
        ]
    } else {
        seq![
            ui::said(ui::fitted(s.note, ui::less(width, 2)), ui::strong(Color::Yellow)),
            home::muted("Nothing is written until [S]ave."@),
        ]
    }
}

pub open spec fn settings_hints(editing: bool) -> Seq<(Seq<char>, Seq<char>)> {
    if editing {
        seq![("Enter"@, "Commit"@), ("Esc"@, "Cancel edit"@)]
    } else {
        seq![
            ("E"@, "Edit"@),
            ("Space"@, "Toggle"@),
            ("Tab"@, "Next"@),
            ("Enter"@, "Browse"@),
            ("S"@, "Save"@),
            ("Esc"@, "Cancel"@),
        ]
    }
}

/// The Settings screen, in a box of `width` by `height`. It scrolls by whole
/// fields, so the cursor is always on screen.
pub open spec fn settings_of(s: app::SettingsView, width: int, height: int) -> ui::PageView {
    let visible = room_for(height, 3);
    let first = first_row(s.cursor, visible);
    let last = if first + visible < 12 {
        first + visible
    } else {
        12
    };
    ui::PageView {
        panel: ui::PanelView {
            title: settings_title(s),
            lines: settings_lines(s, first, last, ui::less(width, 6)),
        },
        keys: keys_line(settings_hints(s.editing is Some), width),
    }
}

fn write_typed(buffer: &str, width: usize) -> (r: String)
    ensures
        r@ == typed_value(buffer@, width as int),
{
    let chars = to_chars(buffer);
    let n: usize = chars.len();
    if n <= width {
        return both(buffer, "_");
    }
    if width < 1 {
        return "_".to_string();
    }
    let from: usize = n - (width - 1);
    let tail = slice(&chars, from, n);
    assert(tail@ =~= buffer@.skip(from as int));
    both(tail.as_str(), "_")
}

fn write_setting(lines: &mut Lines, s: &Settings, i: usize, width: usize)
    requires
        i < 12,
    ensures
        final(lines)@ == old(lines)@ + setting_lines(s@, i as int, width as int),
{
    let ghost was = lines@;
    let field = Field::ALL[i];
    let selected = i == s.cursor;
    let look = if selected {
        Look::strong(Color::Accent)
    } else {
        Look::tint(Color::Muted)
    };
    let mut head = Line::empty();
    head.put(
        if selected {
            "> ".to_string()
        } else {
            "  ".to_string()
        },
        look,
    );
    head.put(field.label().to_string(), look);
    assert(head@ =~= setting_lines(s@, i as int, width as int)[0]);
    let value = match &s.editing {
        Some(buffer) => if selected {
            write_typed(buffer.as_str(), width)
        } else {
            let shown = field.display(&s.draft);
            fit(shown.as_str(), width)
        },
        None => {
            let shown = field.display(&s.draft);
            fit(shown.as_str(), width)
        },
    };
    let value_look = if selected && s.editing.is_some() {
        Look::strong(Color::Yellow)
    } else if selected {
        Look::tint(Color::White)
    } else {
        Look::plain()
    };
    lines.put(head);
    lines.put(Line::of(both("    ", value.as_str()), value_look));
    lines.skip();
    assert(lines@ =~= was + setting_lines(s@, i as int, width as int));
}

/// The lines under the settings, in a box `width` wide.
pub fn settings_note(s: &Settings, config_path: &str, width: u16) -> (r: Lines)
    ensures
        r@ == settings_footer(s@, config_path@, width as int),
{
    let mut lines = Lines::new();
    if s.note.as_str().is_empty() {
        lines.say(
            "The library lives under its root; changing the root moves it all. [P] switches projects.",
            Look::tint(Color::Muted),
        );
        let short = fit(config_path, minus(width as usize, 4));
        lines.put(Line::of(both("  ", short.as_str()), Look::plain()));
    } else {
        lines.put(
            Line::of(fit(s.note.as_str(), minus(width as usize, 2)), Look::strong(Color::Yellow)),
        );
        lines.say("Nothing is written until [S]ave.", Look::tint(Color::Muted));
    }
    assert(lines@ =~= settings_footer(s@, config_path@, width as int));
    lines
}

fn settings_keys(editing: bool, width: u16) -> (r: Line)
    ensures
        r@ == keys_line(settings_hints(editing), width as int),
{
    let mut items: Vec<(&'static str, &'static str)> = Vec::new();
    if editing {
        items.push(("Enter", "Commit"));
        items.push(("Esc", "Cancel edit"));
    } else {
        items.push(("E", "Edit"));
        items.push(("Space", "Toggle"));
        items.push(("Tab", "Next"));
        items.push(("Enter", "Browse"));
        items.push(("S", "Save"));
        items.push(("Esc", "Cancel"));
    }
    assert(ui::hint_views(items@) =~= settings_hints(editing));
    hints(&items, width)
}

/// The Settings screen, in a box of `width` by `height`.
pub fn settings_page(s: &Settings, width: u16, height: u16) -> (r: Page)
    requires
        s@.cursor < 12,
    ensures
        r@ == settings_of(s@, width as int, height as int),
{
    let room: usize = minus(width as usize, 6);
    let visible: usize = fits_in(height, 3);
    let first: usize = minus(s.cursor, minus(visible, 1));
    let last: usize = if first + visible < 12 {
        first + visible
    } else {
        12
    };
    let mut lines = Lines::new();
    let mut i: usize = first;
    while i < last
        invariant
            first <= i,
            i <= last || i == first,
            last <= 12,
            lines@ == settings_lines(s@, first as int, i as int, room as int),
        decreases last - i,
    {
        write_setting(&mut lines, s, i, room);
        i += 1;
    }
    let mut title = count(" SETTINGS  (", s.cursor as u128 + 1, "/12)");
    title.append(
        if s.dirty {
            "  •unsaved "
        } else {
            " "
        },
    );
    assert(lines@ == settings_lines(s@, first as int, last as int, room as int));
    Page { panel: Panel { title, lines }, keys: settings_keys(s.editing.is_some(), width) }
}

// ----------------------------------------------------------------- projects

/// The box a name is typed into.
pub open spec fn naming_of(n: app::NamingView) -> ui::PanelView {
    ui::PanelView {
        title: if n.target is Some {
            " Rename Project "@
        } else {
            " Name This Location "@
        },
        lines: seq![ui::said("  "@ + n.buffer + "_"@, ui::strong(Color::Yellow))],
    }
}

/// What is said while nothing is saved.
pub open spec fn no_projects() -> Seq<Seq<ui::SpanView>> {
    seq![
        ui::gap(),
        ui::said("  No saved projects yet."@, ui::tinted(Color::Yellow)),
        ui::gap(),
        home::muted("  [N] saves where you are now, so you can come back to it"@),
        home::muted("  in one keypress. [B] browses to another library and saves"@),
        home::muted("  that one too."@),
        ui::gap(),
        home::muted("  Switching moves the symbol, footprint, 3D, temp and"@),
        home::muted("  archive folders along with the root."@),
    ]
}

/// A project: its name and marker, then where it lives. A bookmark can outlive
/// the folder it points at, and that is said beside it.
pub open spec fn project_lines(
    p: config::ProjectView,
    selected: bool,
    active: bool,
    exists: bool,
    width: int,
) -> Seq<Seq<ui::SpanView>> {
    let look = if selected {
        ui::barred()
    } else if active {
        ui::strong(Color::Green)
    } else {
        ui::plain()
    };
    let missing = "  (missing)"@;
    let room = if exists {
        width
    } else {
        ui::less(width, 11)
    };
    seq![
        seq![
            ui::SpanView {
                text: if selected {
                    "> "@
                } else {
                    "  "@
                },
                look,
            },
            ui::SpanView {
                text: if active {
                    "● "@
                } else {
                    "  "@
                },
                look,
            },
            ui::SpanView { text: p.name, look },
        ],
        seq![
            ui::SpanView { text: "    "@, look: ui::plain() },
            ui::SpanView {
                text: ui::fitted(p.library_root, room),
                look: ui::tinted(
                    if exists {
                        Color::Muted
                    } else {
                        Color::Red
                    },
                ),
            },
            ui::SpanView {
                text: if exists {
                    ""@
                } else {
                    missing
                },
                look: ui::tinted(Color::Red),
            },
        ],
    ]
}

/// The projects from `first` up to `n`.
pub open spec fn projects_lines(
    cfg: config::ConfigView,
    cursor: int,
    exists: Seq<bool>,
    first: int,
    n: int,
    width: int,
) -> Seq<Seq<ui::SpanView>>
    decreases n - first,
{
    if n <= first {
        Seq::empty()
    } else {
        let i = n - 1;
        projects_lines(cfg, cursor, exists, first, i, width) + project_lines(
            cfg.projects[i],
            i == cursor,
            paths::same_place(cfg.projects[i].library_root, cfg.library_root),
            i < exists.len() && exists[i],
            width,
        )
    }
}

pub open spec fn projects_hints(naming: bool) -> Seq<(Seq<char>, Seq<char>)> {
    if naming {
        seq![("Enter"@, "Save Name"@), ("Ctrl-U"@, "Clear"@), ("Esc"@, "Cancel"@)]
    } else {
        seq![
            ("Enter"@, "Switch"@),
            ("B"@, "Browse"@),
            ("N"@, "Save Current"@),
            ("E"@, "Rename"@),
            ("D"@, "Forget"@),
            ("↑↓"@, "Move"@),
            ("Esc"@, "Back"@),
        ]
    }
}

/// The Projects screen, in a box of `width` by `height`, given which of the
/// projects' folders exist.
pub open spec fn projects_of(
    p: app::ProjectsView,
    cfg: config::ConfigView,
    exists: Seq<bool>,
    width: int,
    height: int,
) -> ui::PageView {
    let count = cfg.projects.len() as int;
    let visible = room_for(height, 2);
    let first = first_row(p.cursor, visible);
    let last = if first + visible < count {
        first + visible
    } else {
        count
    };
    ui::PageView {
        panel: if count == 0 {
            ui::PanelView { title: " Projects "@, lines: no_projects() }
        } else {
            ui::PanelView {
                title: steps::counted(" Projects ("@, p.cursor + 1, "/"@) + steps::counted(
                    ""@,
                    count,
                    ") "@,
                ),
                lines: projects_lines(cfg, p.cursor, exists, first, last, ui::less(width, 6)),
            }
        },
        keys: keys_line(projects_hints(p.naming is Some), width),
    }
}

/// What was last said, and where the library is now.
pub open spec fn projects_footer(p: app::ProjectsView, root: Seq<char>, width: int) -> Seq<
    Seq<ui::SpanView>,
> {
    seq![
        ui::said(ui::fitted(p.message, ui::less(width, 2)), ui::tinted(Color::Green)),
        home::muted("Now:"@),
        ui::said("  "@ + ui::fitted(root, ui::less(width, 4)), ui::plain()),
    ]
}

/// The box a name is typed into.
pub fn naming_box(n: &Naming) -> (r: Panel)
    ensures
        r@ == naming_of(n@),
{
    let title = if n.target.is_some() {
        " Rename Project "
    } else {
        " Name This Location "
    };
    let mut text = both("  ", n.buffer.as_str());
    text.append("_");
    let mut lines = Lines::new();
    lines.put(Line::of(text, Look::strong(Color::Yellow)));
    assert(lines@ =~= naming_of(n@).lines);
    Panel { title: title.to_string(), lines }
}

fn write_no_projects() -> (r: Lines)
    ensures
        r@ == no_projects(),
{
    let mut lines = Lines::new();
    lines.skip();
    lines.say("  No saved projects yet.", Look::tint(Color::Yellow));
    lines.skip();
    lines.say(
        "  [N] saves where you are now, so you can come back to it",
        Look::tint(Color::Muted),
    );
    lines.say(
        "  in one keypress. [B] browses to another library and saves",
        Look::tint(Color::Muted),
    );
    lines.say("  that one too.", Look::tint(Color::Muted));
    lines.skip();
    lines.say("  Switching moves the symbol, footprint, 3D, temp and", Look::tint(Color::Muted));
    lines.say("  archive folders along with the root.", Look::tint(Color::Muted));
    assert(lines@ =~= no_projects());
    lines
}

fn write_project(
    lines: &mut Lines,
    p: &Project,
    selected: bool,
    active: bool,
    exists: bool,
    width: usize,
)
    ensures
        final(lines)@ == old(lines)@ + project_lines(p@, selected, active, exists, width as int),
{
    let ghost was = lines@;
    let look = if selected {
        Look::bar()
    } else if active {
        Look::strong(Color::Green)
    } else {
        Look::plain()
    };
    let mut head = Line::empty();
    head.put(
        if selected {
            "> ".to_string()
        } else {
            "  ".to_string()
        },
        look,
    );
    head.put(
        if active {
            "● ".to_string()
        } else {
            "  ".to_string()
        },
        look,
    );
    head.put(p.name.clone(), look);
    assert(head@ =~= project_lines(p@, selected, active, exists, width as int)[0]);
    // The marker gets its own room so it is never the thing that falls off the
    // right edge.
    let room: usize = if exists {
        width
    } else {
        minus(width, 11)
    };
    let color = if exists {
        Color::Muted
    } else {
        Color::Red
    };
    let mut place = Line::empty();
    place.put("    ".to_string(), Look::plain());
    place.put(fit(p.library_root.as_str(), room), Look::tint(color));
    place.put(
        if exists {
            "".to_string()
        } else {
            "  (missing)".to_string()
        },
        Look::tint(Color::Red),
    );
    assert(place@ =~= project_lines(p@, selected, active, exists, width as int)[1]);
    lines.put(head);
    lines.put(place);
    assert(lines@ =~= was + project_lines(p@, selected, active, exists, width as int));
}

/// The lines under the projects, in a box `width` wide.
pub fn projects_note(p: &Projects, root: &str, width: u16) -> (r: Lines)
    ensures
        r@ == projects_footer(p@, root@, width as int),
{
    let mut lines = Lines::new();
    lines.put(
        Line::of(fit(p.message.as_str(), minus(width as usize, 2)), Look::tint(Color::Green)),
    );
    lines.say("Now:", Look::tint(Color::Muted));
    let short = fit(root, minus(width as usize, 4));
    lines.put(Line::of(both("  ", short.as_str()), Look::plain()));
    assert(lines@ =~= projects_footer(p@, root@, width as int));
    lines
}

fn projects_keys(naming: bool, width: u16) -> (r: Line)
    ensures
        r@ == keys_line(projects_hints(naming), width as int),
{
    let mut items: Vec<(&'static str, &'static str)> = Vec::new();
    if naming {
        items.push(("Enter", "Save Name"));
        items.push(("Ctrl-U", "Clear"));
        items.push(("Esc", "Cancel"));
    } else {
        items.push(("Enter", "Switch"));
        items.push(("B", "Browse"));
        items.push(("N", "Save Current"));
        items.push(("E", "Rename"));
        items.push(("D", "Forget"));
        items.push(("↑↓", "Move"));
        items.push(("Esc", "Back"));
    }
    assert(ui::hint_views(items@) =~= projects_hints(naming));
    hints(&items, width)
}

/// The Projects screen, in a box of `width` by `height`, given which of the
/// projects' folders exist.
pub fn projects_page(p: &Projects, cfg: &Config, exists: &Vec<bool>, width: u16, height: u16) -> (r:
    Page)
    ensures
        r@ == projects_of(p@, cfg@, exists@, width as int, height as int),
{
    let total: usize = cfg.projects.len();
    assert(cfg@.projects.len() == total);
    let keys = projects_keys(p.naming.is_some(), width);
    if total == 0 {
        let panel = Panel { title: " Projects ".to_string(), lines: write_no_projects() };
        return Page { panel, keys };
    }
    let room: usize = minus(width as usize, 6);
    let visible: usize = fits_in(height, 2);
    let first: usize = minus(p.cursor, minus(visible, 1));
    let last: usize = if (first as u128) + (visible as u128) < total as u128 {
        first + visible
    } else {
        total
    };
    let mut lines = Lines::new();
    let mut i: usize = first;
    while i < last
        invariant
            first <= i,
            i <= last || i == first,
            last <= total == cfg.projects@.len(),
            cfg@.projects.len() == total,
            lines@ == projects_lines(
                cfg@,
                p.cursor as int,
                exists@,
                first as int,
                i as int,
                room as int,
            ),
        decreases last - i,
    {
        let project = &cfg.projects[i];
        assert(cfg@.projects[i as int] == project@);
        let active = same_path(project.library_root.as_str(), cfg.library_root.as_str());
        let present = i < exists.len() && exists[i];
        write_project(&mut lines, project, i == p.cursor, active, present, room);
        i += 1;
    }
    assert(lines@ == projects_lines(
        cfg@,
        p.cursor as int,
        exists@,
        first as int,
        last as int,
        room as int,
    ));
    let mut title = count(" Projects (", p.cursor as u128 + 1, "/");
    title.append(count("", total as u128, ") ").as_str());
    Page { panel: Panel { title, lines }, keys }
}

// ------------------------------------------------------------------- search

/// The query box. The caret only shows while the box has focus.
pub open spec fn query_of(s: app::SearchView) -> ui::PanelView {
    ui::PanelView {
        title: " Search LCSC / EasyEDA "@,
        lines: seq![
            ui::said(
                "  "@ + s.query + if s.editing {
                    "_"@
                } else {
                    ""@
                },
                if s.editing {
                    ui::strong(Color::Yellow)
                } else {
                    ui::plain()
                },
            ),
        ],
    }
}

pub open spec fn stock_text(stock: u64) -> Seq<char> {
    if stock > 0 {
        steps::counted(""@, stock as int, " in stock"@)
    } else {
        "no stock"@
    }
}

/// The texts that are not empty.
pub open spec fn full(list: Seq<Seq<char>>) -> Seq<Seq<char>>
    decreases list.len(),
{
    if list.len() == 0 {
        Seq::empty()
    } else if list.last().len() == 0 {
        full(list.drop_last())
    } else {
        full(list.drop_last()).push(list.last())
    }
}

/// A search result on one line. One that the library already has is marked, so a
/// long list does not lead to re-adding it.
pub open spec fn hit_text(h: easyeda::HitView, owned: bool) -> Seq<char> {
    let detail = text::join(
        full(seq![h.manufacturer, h.package, h.category, stock_text(h.stock)]),
        "  ·  "@,
    );
    (if owned {
        "✓ "@
    } else {
        "  "@
    }) + ui::padded(h.id, 10) + " "@ + ui::padded(h.mpn, 24) + " "@ + detail
}

pub open spec fn hit_line(h: easyeda::HitView, owned: bool, selected: bool, width: int) -> Seq<
    ui::SpanView,
> {
    let text = ui::fitted(hit_text(h, owned), width);
    if selected {
        ui::said("> "@ + text, ui::barred())
    } else if owned {
        ui::said("  "@ + text, ui::tinted(Color::Green))
    } else {
        ui::said("  "@ + text, ui::plain())
    }
}

/// The results from `first` up to `n`.
pub open spec fn hit_lines(a: app::AppView, s: app::SearchView, first: int, n: int, width: int) -> Seq<
    Seq<ui::SpanView>,
>
    decreases n - first,
{
    if n <= first {
        Seq::empty()
    } else {
        hit_lines(a, s, first, n - 1, width).push(
            hit_line(
                s.results[n - 1],
                panes::has_hit(a.library, s.results[n - 1]),
                n - 1 == s.cursor,
                width,
            ),
        )
    }
}

pub open spec fn search_hints(editing: bool) -> Seq<(Seq<char>, Seq<char>)> {
    if editing {
        seq![("Enter"@, "Search"@), ("↓"@, "Results"@), ("Esc"@, "Back"@)]
    } else {
        seq![
            ("Enter"@, "Add to Library"@),
            ("↑↓"@, "Move"@),
            ("/"@, "Edit Query"@),
            ("Esc"@, "Back"@),
        ]
    }
}

/// The results, in a box of `width` by `height`.
pub open spec fn search_of(a: app::AppView, s: app::SearchView, width: int, height: int) -> ui::PageView {
    let count = s.results.len() as int;
    ui::PageView {
        panel: ui::PanelView {
            title: steps::counted(" Results ("@, count, ") "@),
            lines: if count == 0 {
                seq![ui::gap(), home::muted("  "@ + s.message)]
            } else {
                hit_lines(
                    a,
                    s,
                    first_row(s.cursor, ui::less(height, 2)),
                    count,
                    ui::less(width, 4),
                )
            },
        },
        keys: keys_line(search_hints(s.editing), width),
    }
}

/// What came of the last search or import.
pub open spec fn search_footer(s: app::SearchView, width: int) -> Seq<Seq<ui::SpanView>> {
    let trouble = text::starts_with(s.message, "Search failed"@) || text::starts_with(
        s.message,
        "Import failed"@,
    );
    seq![
        ui::said(
            ui::fitted(s.message, ui::less(width, 2)),
            ui::tinted(
                if trouble {
                    Color::Red
                } else {
                    Color::Green
                },
            ),
        ),
        home::muted("Symbols, footprints and STEP models go into the configured library."@),
    ]
}

/// The query box.
pub fn query_box(s: &Search) -> (r: Panel)
    ensures
        r@ == query_of(s@),
{
    let mut text = both("  ", s.query.as_str());
    text.append(
        if s.editing {
            "_"
        } else {
            ""
        },
    );
    let look = if s.editing {
        Look::strong(Color::Yellow)
    } else {
        Look::plain()
    };
    let mut lines = Lines::new();
    lines.put(Line::of(text, look));
    assert(lines@ =~= query_of(s@).lines);
    Panel { title: " Search LCSC / EasyEDA ".to_string(), lines }
}

fn push_full(list: &mut Vec<String>, value: &str, Ghost(all): Ghost<Seq<Seq<char>>>)
    requires
        text::views(old(list)@) == full(all),
    ensures
        text::views(final(list)@) == full(all.push(value@)),
{
    assert(all.push(value@).drop_last() =~= all);
    if !value.is_empty() {
        let ghost was = text::views(list@);
        list.push(value.to_string());
        assert(text::views(list@) =~= was.push(value@));
    }
}

fn write_hit(h: &Hit, owned: bool) -> (r: String)
    ensures
        r@ == hit_text(h@, owned),
{
    let stock = if h.stock > 0 {
        count("", h.stock as u128, " in stock")
    } else {
        "no stock".to_string()
    };
    let mut parts: Vec<String> = Vec::new();
    let ghost none = Seq::<Seq<char>>::empty();
    assert(text::views(parts@) =~= full(none));
    push_full(&mut parts, h.manufacturer.as_str(), Ghost(none));
    push_full(&mut parts, h.package.as_str(), Ghost(none.push(h.manufacturer@)));
    push_full(
        &mut parts,
        h.category.as_str(),
        Ghost(none.push(h.manufacturer@).push(h.package@)),
    );
    push_full(
        &mut parts,
        stock.as_str(),
        Ghost(none.push(h.manufacturer@).push(h.package@).push(h.category@)),
    );
    assert(none.push(h.manufacturer@).push(h.package@).push(h.category@).push(stock@) =~= seq![
        h.manufacturer@,
        h.package@,
        h.category@,
        stock@,
    ]);
    let detail = joined(&parts, "  ·  ");
    let mut out = if owned {
        "✓ ".to_string()
    } else {
        "  ".to_string()
    };
    out.append(pad(h.id.as_str(), 10).as_str());
    out.append(" ");
    out.append(pad(h.mpn.as_str(), 24).as_str());
    out.append(" ");
    out.append(detail.as_str());
    out
}

fn write_hit_line(h: &Hit, owned: bool, selected: bool, width: usize) -> (r: Line)
    ensures
        r@ == hit_line(h@, owned, selected, width as int),
{
    let whole = write_hit(h, owned);
    let text = fit(whole.as_str(), width);
    if selected {
        Line::of(both("> ", text.as_str()), Look::bar())
    } else if owned {
        Line::of(both("  ", text.as_str()), Look::tint(Color::Green))
    } else {
        Line::of(both("  ", text.as_str()), Look::plain())
    }
}

fn search_keys(editing: bool, width: u16) -> (r: Line)
    ensures
        r@ == keys_line(search_hints(editing), width as int),
{
    let mut items: Vec<(&'static str, &'static str)> = Vec::new();
    if editing {
        items.push(("Enter", "Search"));
        items.push(("↓", "Results"));
        items.push(("Esc", "Back"));
    } else {
        items.push(("Enter", "Add to Library"));
        items.push(("↑↓", "Move"));
        items.push(("/", "Edit Query"));
        items.push(("Esc", "Back"));
    }
    assert(ui::hint_views(items@) =~= search_hints(editing));
    hints(&items, width)
}

/// The results, in a box of `width` by `height`.
pub fn search_page(app: &App, s: &Search, width: u16, height: u16) -> (r: Page)
    ensures
        r@ == search_of(app@, s@, width as int, height as int),
{
    let total: usize = s.results.len();
    assert(s@.results.len() == total);
    let title = count(" Results (", total as u128, ") ");
    let keys = search_keys(s.editing, width);
    let mut lines = Lines::new();
    if total == 0 {
        lines.skip();
        lines.put(Line::of(both("  ", s.message.as_str()), Look::tint(Color::Muted)));
        assert(lines@ =~= seq![ui::gap(), home::muted("  "@ + s.message@)]);
    } else {
        let room: usize = minus(width as usize, 4);
        let inner: usize = minus(height as usize, 2);
        let first: usize = minus(s.cursor, minus(inner, 1));
        let mut i: usize = first;
        while i < total
            invariant
                first <= i,
                i <= total || i == first,
                total == s.results@.len(),
                s@.results.len() == total,
                lines@ == hit_lines(app@, s@, first as int, i as int, room as int),
            decreases total - i,
        {
            let hit = &s.results[i];
            assert(s@.results[i as int] == hit@);
            let owned = app.library_has(hit);
            lines.put(write_hit_line(hit, owned, i == s.cursor, room));
            i += 1;
        }
        assert(lines@ == hit_lines(app@, s@, first as int, total as int, room as int));
    }
    Page { panel: Panel { title, lines }, keys }
}

/// The lines under the results, in a box `width` wide.
pub fn search_note(s: &Search, width: u16) -> (r: Lines)
    ensures
        r@ == search_footer(s@, width as int),
{
    let trouble = has_prefix(s.message.as_str(), "Search failed") || has_prefix(
        s.message.as_str(),
        "Import failed",
    );
    let color = if trouble {
        Color::Red
    } else {
        Color::Green
    };
    let mut lines = Lines::new();
    lines.put(Line::of(fit(s.message.as_str(), minus(width as usize, 2)), Look::tint(color)));
    lines.say(
        "Symbols, footprints and STEP models go into the configured library.",
        Look::tint(Color::Muted),
    );
    assert(lines@ =~= search_footer(s@, width as int));
    lines
}

// ------------------------------------------------------------------- picker

/// Which setting a folder is being chosen for, and where the picker is.
pub open spec fn picker_head(p: picker::PickerView) -> ui::PanelView {
    ui::PanelView {
        title: " Current Directory "@,
        lines: seq![
            ui::said("Choosing: "@ + p.target.caption(), ui::strong(Color::Accent)),
            ui::said(p.cwd, ui::plain()),
        ],
    }
}

pub open spec fn folder_line(path: Seq<char>, selected: bool) -> Seq<ui::SpanView> {
    let name = match paths::leaf_of(path) {
        Some(n) => n,
        None => ""@,
    };
    if selected {
        ui::said("> "@ + name + "/"@, ui::barred())
    } else {
        ui::said("  "@ + name + "/"@, ui::plain())
    }
}

/// The folders from `first` up to `n`.
pub open spec fn folder_lines(p: picker::PickerView, first: int, n: int) -> Seq<Seq<ui::SpanView>>
    decreases n - first,
{
    if n <= first {
        Seq::empty()
    } else {
        folder_lines(p, first, n - 1).push(folder_line(p.entries[n - 1], n - 1 == p.selected))
    }
}

pub open spec fn picker_hints() -> Seq<(Seq<char>, Seq<char>)> {
    seq![
        ("↑↓"@, "Move"@),
        ("Enter"@, "Open Folder"@),
        ("Backspace"@, "Parent"@),
        ("Space"@, "Select This Folder"@),
        ("Esc"@, "Cancel"@),
    ]
}

/// The folders, or why they cannot be shown, in a box of `width` by `height`. The
/// highlighted row stays on screen in long directories.
pub open spec fn picker_of(p: picker::PickerView, width: int, height: int) -> ui::PageView {
    ui::PageView {
        panel: match p.error {
            Some(e) => ui::PanelView {
                title: ""@,
                lines: seq![ui::said(e, ui::tinted(Color::Red))],
            },
            None => ui::PanelView {
                title: " Folders "@,
                lines: if p.entries.len() > 0 {
                    folder_lines(
                        p,
                        first_row(p.selected, ui::less(height, 2)),
                        p.entries.len() as int,
                    )
                } else if first_row(p.selected, ui::less(height, 2)) > 0 {
                    Seq::empty()
                } else {
                    seq![home::muted("  (no subfolders)"@)]
                },
            },
        },
        keys: keys_line(picker_hints(), width),
    }
}

/// Which setting a folder is being chosen for, and where the picker is.
pub fn picker_box(p: &Picker) -> (r: Panel)
    ensures
        r@ == picker_head(p@),
{
    let mut lines = Lines::new();
    lines.put(Line::of(both("Choosing: ", p.target.label()), Look::strong(Color::Accent)));
    lines.put(Line::of(p.cwd.clone(), Look::plain()));
    assert(lines@ =~= picker_head(p@).lines);
    Panel { title: " Current Directory ".to_string(), lines }
}

fn write_folder(path: &str, selected: bool) -> (r: Line)
    ensures
        r@ == folder_line(path@, selected),
{
    let name = match file_name(path) {
        Some(n) => n,
        None => "".to_string(),
    };
    if selected {
        let mut text = both("> ", name.as_str());
        text.append("/");
        Line::of(text, Look::bar())
    } else {
        let mut text = both("  ", name.as_str());
        text.append("/");
        Line::of(text, Look::plain())
    }
}

fn picker_keys(width: u16) -> (r: Line)
    ensures
        r@ == keys_line(picker_hints(), width as int),
{
    let mut items: Vec<(&'static str, &'static str)> = Vec::new();
    items.push(("↑↓", "Move"));
    items.push(("Enter", "Open Folder"));
    items.push(("Backspace", "Parent"));
    items.push(("Space", "Select This Folder"));
    items.push(("Esc", "Cancel"));
    assert(ui::hint_views(items@) =~= picker_hints());
    hints(&items, width)
}

/// The folders, or why they cannot be shown, in a box of `width` by `height`.
pub fn picker_page(p: &Picker, width: u16, height: u16) -> (r: Page)
    ensures
        r@ == picker_of(p@, width as int, height as int),
{
    let keys = picker_keys(width);
    let mut lines = Lines::new();
    if let Some(e) = &p.error {
        lines.put(Line::of(e.clone(), Look::tint(Color::Red)));
        assert(lines@ =~= seq![ui::said(e@, ui::tinted(Color::Red))]);
        return Page { panel: Panel { title: "".to_string(), lines }, keys };
    }
    let total: usize = p.entries.len();
    assert(p@.entries.len() == total);
    let inner: usize = minus(height as usize, 2);
    let first: usize = minus(p.selected, minus(inner, 1));
    if total > 0 {
        let mut i: usize = first;
        while i < total
            invariant
                first <= i,
                i <= total || i == first,
                total == p.entries@.len(),
                p@.entries.len() == total,
                lines@ == folder_lines(p@, first as int, i as int),
            decreases total - i,
        {
            assert(p@.entries[i as int] == p.entries@[i as int]@);
            lines.put(write_folder(p.entries[i].as_str(), i == p.selected));
            i += 1;
        }
        assert(lines@ == folder_lines(p@, first as int, total as int));
    } else if first == 0 {
        lines.say("  (no subfolders)", Look::tint(Color::Muted));
        assert(lines@ =~= seq![home::muted("  (no subfolders)"@)]);
    }
    Page { panel: Panel { title: " Folders ".to_string(), lines }, keys }
}

// -------------------------------------------------------------- diagnostics

/// An entry: a label on its own line and the full value indented beneath, so that
/// wrapping only ever breaks the value.
pub open spec fn entry(label: Seq<char>, value: Seq<char>) -> Seq<Seq<ui::SpanView>> {
    seq![
        ui::said(label, ui::tinted(Color::Accent)),
        ui::said("  "@ + value, ui::plain()),
    ]
}

/// A setting with what became of it on disk.
pub open spec fn checked_entry(
    field: Field,
    cfg: config::ConfigView,
    mark: Seq<char>,
    color: Color,
) -> Seq<Seq<ui::SpanView>> {
    seq![
        seq![
            ui::SpanView { text: field.caption(), look: ui::tinted(Color::Accent) },
            ui::SpanView { text: mark, look: ui::tinted(color) },
        ],
        ui::said("  "@ + field.shown(cfg), ui::plain()),
    ]
}

pub open spec fn dir_entry(field: Field, cfg: config::ConfigView, exists: bool) -> Seq<
    Seq<ui::SpanView>,
> {
    if exists {
        checked_entry(field, cfg, "  [ok]"@, Color::Green)
    } else {
        checked_entry(field, cfg, "  [MISSING]"@, Color::Red)
    }
}

/// A file setting: present or not yet created, neither is an error.
pub open spec fn file_entry(field: Field, cfg: config::ConfigView, exists: bool) -> Seq<
    Seq<ui::SpanView>,
> {
    if field.get(cfg) is None {
        checked_entry(field, cfg, "  [disabled]"@, Color::Muted)
    } else if exists {
        checked_entry(field, cfg, "  [ok]"@, Color::Green)
    } else {
        checked_entry(field, cfg, "  [not created yet]"@, Color::Yellow)
    }
}

/// The directories, the first `n` of them.
pub open spec fn dir_entries(cfg: config::ConfigView, exists: Seq<bool>, n: int) -> Seq<
    Seq<ui::SpanView>,
>
    decreases n,
{
    if n <= 0 {
        Seq::empty()
    } else {
        dir_entries(cfg, exists, n - 1) + dir_entry(
            Field::DIRS@[n - 1],
            cfg,
            n - 1 < exists.len() && exists[n - 1],
        )
    }
}

pub open spec fn bookmark_line(p: config::ProjectView, root: Seq<char>) -> Seq<ui::SpanView> {
    ui::said(
        "  "@ + (if paths::same_place(p.library_root, root) {
            "●"@
        } else {
            " "@
        }) + " "@ + p.name + " — "@ + p.library_root,
        ui::plain(),
    )
}

pub open spec fn bookmark_lines(cfg: config::ConfigView, n: int) -> Seq<Seq<ui::SpanView>>
    decreases n,
{
    if n <= 0 {
        Seq::empty()
    } else {
        bookmark_lines(cfg, n - 1).push(bookmark_line(cfg.projects[n - 1], cfg.library_root))
    }
}

pub open spec fn bookmark_entries(cfg: config::ConfigView) -> Seq<Seq<ui::SpanView>> {
    if cfg.projects.len() == 0 {
        entry("Saved Projects"@, "none"@)
    } else {
        seq![ui::said("Saved Projects"@, ui::tinted(Color::Accent))] + bookmark_lines(
            cfg,
            cfg.projects.len() as int,
        )
    }
}

pub open spec fn contents_text(t: app::TotalsView) -> Seq<char> {
    steps::counted(""@, t.parts, " part(s), "@) + steps::counted(""@, t.symbols, " symbol(s), "@)
        + steps::counted(""@, t.footprints, " footprint(s), "@) + steps::counted(
        ""@,
        t.models,
        " model(s)"@,
    )
}

/// The last errors, the latest first, down to the one at `to`.
pub open spec fn error_lines(errors: Seq<Seq<char>>, to: int) -> Seq<Seq<ui::SpanView>>
    decreases errors.len() - to,
{
    if to < 0 || to >= errors.len() {
        Seq::empty()
    } else {
        error_lines(errors, to + 1).push(
            ui::said("  "@ + errors[to], ui::tinted(Color::Red)),
        )
    }
}

pub open spec fn error_entries(errors: Seq<Seq<char>>) -> Seq<Seq<ui::SpanView>> {
    if errors.len() == 0 {
        seq![ui::said("No filesystem errors recorded."@, ui::tinted(Color::Green))]
    } else {
        seq![
            ui::said(
                steps::counted("Filesystem errors ("@, errors.len() as int, "):"@),
                ui::strong(Color::Red),
            ),
        ] + error_lines(errors, ui::less(errors.len() as int, 10))
    }
}

pub open spec fn or_word(value: Option<Seq<char>>, word: Seq<char>) -> Seq<char> {
    match value {
        Some(t) => t,
        None => word,
    }
}

/// What is on disk of what the configuration names.
pub struct Present {
    /// The directories, in the order of [`Field::DIRS`].
    pub dirs: Vec<bool>,
    pub merged: bool,
    pub manifest: bool,
}

/// Everything on the Diagnostics page. Paths are shown in full on purpose: this
/// page exists to debug them.
pub open spec fn diagnostics_lines(
    a: app::AppView,
    log: Option<Seq<char>>,
    present: Present,
) -> Seq<Seq<ui::SpanView>> {
    let cfg = a.config;
    (entry("Working Directory"@, a.cwd) + entry("Executable"@, a.exe) + entry(
        "Config File"@,
        a.config_path,
    ) + entry("Log File"@, or_word(log, "<not initialised>"@))).push(ui::gap()) + dir_entries(
        cfg,
        present.dirs@,
        7,
    ) + file_entry(Field::MergedSymbolLib, cfg, present.merged) + file_entry(
        Field::ManifestPath,
        cfg,
        present.manifest,
    ) + switch_entries(cfg).push(ui::gap()) + bookmark_entries(cfg).push(ui::gap()) + scan_entries(
        a,
    ).push(ui::gap()) + error_entries(a.fs_errors)
}

pub open spec fn switch_entries(cfg: config::ConfigView) -> Seq<Seq<ui::SpanView>> {
    entry(
        Field::PerPartFootprintDirs.caption(),
        Field::PerPartFootprintDirs.shown(cfg),
    ) + entry(
        Field::BackupBeforeOverwrite.caption(),
        Field::BackupBeforeOverwrite.shown(cfg),
    ) + entry(Field::DeleteZip.caption(), Field::DeleteZip.shown(cfg))
}

pub open spec fn scan_entries(a: app::AppView) -> Seq<Seq<ui::SpanView>> {
    entry("ZIP Files Found"@, text::decimal(a.zips.len())) + entry(
        "Library Contents"@,
        contents_text(a.totals),
    ) + entry("Last Scan"@, or_word(a.last_scan, "never"@))
}

/// How tall the page is when its lines are wrapped in a box `width` wide.
pub open spec fn diagnostics_height(lines: Seq<Seq<ui::SpanView>>, width: int) -> int {
    let inner = if ui::less(width, 2) > 1 {
        ui::less(width, 2)
    } else {
        1
    };
    ui::capped(ui::height_of(lines, inner), 0xffff)
}

pub open spec fn diagnostics_hints() -> Seq<(Seq<char>, Seq<char>)> {
    seq![("↑↓"@, "Scroll"@), ("Esc"@, "Back"@), ("F12"@, "Back"@)]
}

/// The line the page is scrolled to.
pub open spec fn scroll_of(scroll: int, total: int, view: int) -> int {
    ui::capped(scroll, ui::less(total, view))
}

pub open spec fn diagnostics_title(scroll: int, total: int, view: int) -> Seq<char> {
    if total > view {
        steps::counted(" DIAGNOSTICS  (line "@, scroll + 1, "/"@) + steps::counted(
            ""@,
            total,
            ") "@,
        )
    } else {
        " DIAGNOSTICS "@
    }
}

fn put_entry(lines: &mut Lines, label: &str, value: &str)
    ensures
        final(lines)@ == old(lines)@ + entry(label@, value@),
{
    let ghost was = lines@;
    lines.say(label, Look::tint(Color::Accent));
    lines.put(Line::of(both("  ", value), Look::plain()));
    assert(lines@ =~= was + entry(label@, value@));
}

fn put_checked(lines: &mut Lines, field: Field, cfg: &Config, mark: &str, color: Color)
    ensures
        final(lines)@ == old(lines)@ + checked_entry(field, cfg@, mark@, color),
{
    let ghost was = lines@;
    let mut head = Line::empty();
    head.put(field.label().to_string(), Look::tint(Color::Accent));
    head.put(mark.to_string(), Look::tint(color));
    assert(head@ =~= checked_entry(field, cfg@, mark@, color)[0]);
    lines.put(head);
    let shown = field.display(cfg);
    lines.put(Line::of(both("  ", shown.as_str()), Look::plain()));
    assert(lines@ =~= was + checked_entry(field, cfg@, mark@, color));
}

fn put_dirs(lines: &mut Lines, cfg: &Config, exists: &Vec<bool>)
    ensures
        final(lines)@ == old(lines)@ + dir_entries(cfg@, exists@, 7),
{
    let ghost was = lines@;
    let mut i: usize = 0;
    assert(was + dir_entries(cfg@, exists@, 0) =~= was);
    while i < 7
        invariant
            i <= 7,
            lines@ == was + dir_entries(cfg@, exists@, i as int),
        decreases 7 - i,
    {
        let field = Field::DIRS[i];
        let ghost now = lines@;
        if i < exists.len() && exists[i] {
            put_checked(lines, field, cfg, "  [ok]", Color::Green);
        } else {
            put_checked(lines, field, cfg, "  [MISSING]", Color::Red);
        }
        i += 1;
        assert(lines@ =~= was + dir_entries(cfg@, exists@, i as int));
    }
}

fn put_file(lines: &mut Lines, field: Field, cfg: &Config, exists: bool)
    ensures
        final(lines)@ == old(lines)@ + file_entry(field, cfg@, exists),
{
    if field.path(cfg).is_none() {
        put_checked(lines, field, cfg, "  [disabled]", Color::Muted);
    } else if exists {
        put_checked(lines, field, cfg, "  [ok]", Color::Green);
    } else {
        put_checked(lines, field, cfg, "  [not created yet]", Color::Yellow);
    }
}

fn put_switches(lines: &mut Lines, cfg: &Config)
    ensures
        final(lines)@ == old(lines)@ + switch_entries(cfg@),
{
    let ghost was = lines@;
    let a = Field::PerPartFootprintDirs;
    let b = Field::BackupBeforeOverwrite;
    let c = Field::DeleteZip;
    put_entry(lines, a.label(), a.display(cfg).as_str());
    put_entry(lines, b.label(), b.display(cfg).as_str());
    put_entry(lines, c.label(), c.display(cfg).as_str());
    assert(lines@ =~= was + switch_entries(cfg@));
}

fn write_bookmark(p: &Project, root: &str) -> (r: Line)
    ensures
        r@ == bookmark_line(p@, root@),
{
    let mut text = "  ".to_string();
    text.append(
        if same_path(p.library_root.as_str(), root) {
            "●"
        } else {
            " "
        },
    );
    text.append(" ");
    text.append(p.name.as_str());
    text.append(" — ");
    text.append(p.library_root.as_str());
    Line::of(text, Look::plain())
}

fn put_bookmarks(lines: &mut Lines, cfg: &Config)
    ensures
        final(lines)@ == old(lines)@ + bookmark_entries(cfg@),
{
    let ghost was = lines@;
    let total: usize = cfg.projects.len();
    assert(cfg@.projects.len() == total);
    if total == 0 {
        put_entry(lines, "Saved Projects", "none");
        return;
    }
    lines.say("Saved Projects", Look::tint(Color::Accent));
    let ghost head = seq![ui::said("Saved Projects"@, ui::tinted(Color::Accent))];
    let mut i: usize = 0;
    assert(lines@ =~= was + (head + bookmark_lines(cfg@, 0)));
    while i < total
        invariant
            i <= total == cfg.projects@.len(),
            cfg@.projects.len() == total,
            lines@ == was + (head + bookmark_lines(cfg@, i as int)),
        decreases total - i,
    {
        assert(cfg@.projects[i as int] == cfg.projects@[i as int]@);
        lines.put(write_bookmark(&cfg.projects[i], cfg.library_root.as_str()));
        i += 1;
        assert(lines@ =~= was + (head + bookmark_lines(cfg@, i as int)));
    }
}

fn put_scan(lines: &mut Lines, app: &App)
    ensures
        final(lines)@ == old(lines)@ + scan_entries(app@),
{
    let ghost was = lines@;
    assert(app@.zips.len() == app.zips@.len());
    let zips = number(app.zips.len() as u128);
    put_entry(lines, "ZIP Files Found", zips.as_str());
    let mut contents = count("", app.totals.parts as u128, " part(s), ");
    contents.append(count("", app.totals.symbols as u128, " symbol(s), ").as_str());
    contents.append(count("", app.totals.footprints as u128, " footprint(s), ").as_str());
    contents.append(count("", app.totals.models as u128, " model(s)").as_str());
    put_entry(lines, "Library Contents", contents.as_str());
    let at = match &app.last_scan {
        Some(t) => t.clone(),
        None => "never".to_string(),
    };
    put_entry(lines, "Last Scan", at.as_str());
    assert(lines@ =~= was + scan_entries(app@));
}

fn put_errors(lines: &mut Lines, errors: &Vec<String>)
    ensures
        final(lines)@ == old(lines)@ + error_entries(text::views(errors@)),
{
    let ghost was = lines@;
    let ghost all = text::views(errors@);
    let total: usize = errors.len();
    assert(all.len() == total);
    if total == 0 {
        lines.say("No filesystem errors recorded.", Look::tint(Color::Green));
        assert(lines@ =~= was + error_entries(all));
        return;
    }
    lines.put(
        Line::of(count("Filesystem errors (", total as u128, "):"), Look::strong(Color::Red)),
    );
    let ghost head = seq![
        ui::said(
            steps::counted("Filesystem errors ("@, total as int, "):"@),
            ui::strong(Color::Red),
        ),
    ];
    let least: usize = minus(total, 10);
    let mut i: usize = total;
    assert(lines@ =~= was + (head + error_lines(all, total as int)));
    while i > least
        invariant
            least <= i <= total == errors@.len(),
            all == text::views(errors@),
            all.len() == total,
            lines@ == was + (head + error_lines(all, i as int)),
        decreases i,
    {
        i -= 1;
        assert(all[i as int] == errors@[i as int]@);
        lines.put(Line::of(both("  ", errors[i].as_str()), Look::tint(Color::Red)));
        assert(lines@ =~= was + (head + error_lines(all, i as int)));
    }
}

fn write_diagnostics(app: &App, log: &Option<String>, present: &Present) -> (r: Lines)
    ensures
        r@ == diagnostics_lines(app@, text::opt_view(*log), *present),
{
    let cfg = &app.config;
    let mut lines = Lines::new();
    put_entry(&mut lines, "Working Directory", app.cwd.as_str());
    assert(lines@ =~= entry("Working Directory"@, app.cwd@));
    put_entry(&mut lines, "Executable", app.exe.as_str());
    put_entry(&mut lines, "Config File", app.config_path.as_str());
    let path = match log {
        Some(t) => t.clone(),
        None => "<not initialised>".to_string(),
    };
    put_entry(&mut lines, "Log File", path.as_str());
    lines.skip();
    put_dirs(&mut lines, cfg, &present.dirs);
    put_file(&mut lines, Field::MergedSymbolLib, cfg, present.merged);
    put_file(&mut lines, Field::ManifestPath, cfg, present.manifest);
    let ghost a = lines@;
    put_switches(&mut lines, cfg);
    lines.skip();
    assert(lines@ =~= a + switch_entries(cfg@).push(ui::gap()));
    let ghost b = lines@;
    put_bookmarks(&mut lines, cfg);
    lines.skip();
    assert(lines@ =~= b + bookmark_entries(cfg@).push(ui::gap()));
    let ghost c = lines@;
    put_scan(&mut lines, app);
    lines.skip();
    assert(lines@ =~= c + scan_entries(app@).push(ui::gap()));
    put_errors(&mut lines, &app.fs_errors);
    lines
}

/// The Diagnostics page in a box of `width` by `height`, and the line it is
/// scrolled to. How tall it is is kept, so that scrolling can be clamped.
pub fn diagnostics_page(
    app: &mut App,
    log: &Option<String>,
    present: &Present,
    width: u16,
    height: u16,
) -> (r: (Page, u16))
    ensures
        ({
            let lines = diagnostics_lines(old(app)@, text::opt_view(*log), *present);
            let total = diagnostics_height(lines, width as int);
            let view = ui::less(height as int, 2);
            let scroll = scroll_of(old(app)@.diag_scroll as int, total, view);
            &&& r.0@ == (ui::PageView {
                panel: ui::PanelView { title: diagnostics_title(scroll, total, view), lines },
                keys: keys_line(diagnostics_hints(), width as int),
            })
            &&& r.1 == scroll
            &&& final(app)@ == (app::AppView {
                diag_lines: total as u16,
                diag_view: view as u16,
                ..old(app)@
            })
        }),
        steps::is_sound(old(app)@) ==> steps::is_sound(final(app)@),
{
    let lines = write_diagnostics(app, log, present);
    let room: u16 = minus(width as usize, 2) as u16;
    let inner: u16 = if room > 1 {
        room
    } else {
        1
    };
    let total: u16 = ui::height(&lines, inner, 0xffff);
    let view: u16 = minus(height as usize, 2) as u16;
    proof {
        assert(total == diagnostics_height(lines@, width as int));
    }
    let end: u16 = minus(total as usize, view as usize) as u16;
    let scroll: u16 = if app.diag_scroll < end {
        app.diag_scroll
    } else {
        end
    };
    app.diag_lines = total;
    app.diag_view = view;
    let title = if total > view {
        let mut out = count(" DIAGNOSTICS  (line ", scroll as u128 + 1, "/");
        out.append(count("", total as u128, ") ").as_str());
        out
    } else {
        " DIAGNOSTICS ".to_string()
    };
    let mut items: Vec<(&'static str, &'static str)> = Vec::new();
    items.push(("↑↓", "Scroll"));
    items.push(("Esc", "Back"));
    items.push(("F12", "Back"));
    assert(ui::hint_views(items@) =~= diagnostics_hints());
    let keys = hints(&items, width);
    (Page { panel: Panel { title, lines }, keys }, scroll)
}

} // verus!
