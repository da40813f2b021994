//! What stands where on the screens: every row shows what it is the row of, and
//! every value stands behind its own label.

use vstd::prelude::*;
use vstd::string::*;

use crate::app;
use crate::app::panes;
use crate::app::Focus;
use crate::config;
use crate::config::Field;
use crate::importer;
use crate::library;
use crate::online::easyeda;
use crate::paths;
use crate::picker;
use crate::text;
use crate::ui;
use crate::ui::home;
use crate::ui::pages;
use crate::ui::prompts;
use crate::ui::Color;

verus! {

// --------------------------------------------------------------- dashboard

/// A number of things: one of them has no `s` behind it.
pub open spec fn number_of(n: int, noun: Seq<char>) -> Seq<char> {
    text::decimal(n as nat) + " "@ + noun + if n == 1 {
        ""@
    } else {
        "s"@
    }
}

/// The dashboard counts parts, symbols, footprints and models, in that order, and
/// names the root and the project that they belong to.
pub proof fn lemma_summary(a: app::AppView, width: int)
    ensures
        ({
            let p = home::summary_of(a, width);
            let counts = p.lines[0];
            &&& counts.len() == 7
            &&& counts[0].text == number_of(a.totals.parts, "part"@)
            &&& counts[2].text == number_of(a.totals.symbols, "symbol"@)
            &&& counts[4].text == number_of(a.totals.footprints, "footprint"@)
            &&& counts[6].text == number_of(a.totals.models, "model"@)
            &&& p.lines[1][0].text == ui::fitted(a.config.library_root, ui::less(width, 2))
            &&& config::active(a.config) matches Some(i) ==> p.title == " KiCad Library — "@
                + a.config.projects[i].name + " "@
            &&& config::active(a.config) is None ==> p.title == " KiCad Library "@
        }),
{
}

proof fn lemma_zip_rows(a: app::AppView, n: int)
    requires
        0 <= n <= a.queue_view.len(),
        forall|i: int| 0 <= i < a.queue_view.len() ==> 0 <= #[trigger] a.queue_view[i] < a.zips.len(),
    ensures
        home::zip_rows(a, n).len() == n,
        forall|i: int|
            0 <= i < n ==> #[trigger] home::zip_rows(a, n)[i] == home::zip_row(
                a.zips[a.queue_view[i]],
            ),
    decreases n,
{
    if n > 0 {
        lemma_zip_rows(a, n - 1);
    }
}

/// Row `i` of the queue names the archive it stands for and its size.
pub proof fn lemma_queue_row(a: app::AppView, i: int, width: int)
    requires
        0 <= i < a.queue_view.len(),
        forall|k: int| 0 <= k < a.queue_view.len() ==> 0 <= #[trigger] a.queue_view[k] < a.zips.len(),
    ensures
        ({
            let list = home::queue_of(a, width);
            let zip = a.zips[a.queue_view[i]];
            &&& list.panel.lines.len() == a.queue_view.len()
            &&& list.rows
            &&& list.focused == (a.focus == Focus::Queue)
            &&& list.panel.lines[i][0].text == zip.display
            &&& list.panel.lines[i][1].text == "  "@ + ui::sized(zip.size as int)
        }),
{
    lemma_zip_rows(a, a.queue_view.len() as int);
}

proof fn lemma_part_rows(a: app::AppView, n: int)
    requires
        0 <= n <= a.library_view.len(),
        forall|i: int|
            0 <= i < a.library_view.len() ==> 0 <= #[trigger] a.library_view[i] < a.library.len(),
    ensures
        home::part_rows(a, n).len() == n,
        forall|i: int|
            0 <= i < n ==> #[trigger] home::part_rows(a, n)[i] == home::part_row(
                a.library[a.library_view[i]],
            ),
    decreases n,
{
    if n > 0 {
        lemma_part_rows(a, n - 1);
    }
}

/// Row `i` of the library names the part it stands for, which of the three kinds
/// of file it has, and where it came from.
pub proof fn lemma_library_row(a: app::AppView, i: int)
    requires
        0 <= i < a.library_view.len(),
        forall|k: int|
            0 <= k < a.library_view.len() ==> 0 <= #[trigger] a.library_view[k] < a.library.len(),
    ensures
        ({
            let list = home::library_of(a);
            let part = a.library[a.library_view[i]];
            let row = list.panel.lines[i];
            &&& list.panel.lines.len() == a.library_view.len()
            &&& list.rows
            &&& list.focused == (a.focus == Focus::Library)
            &&& row.len() == 5
            &&& row[0].text == ui::padded(ui::cut(part.name, 24), 24)
            &&& row[1].text == (if part.symbol_file is Some {
                "S"@ + " "@
            } else {
                "· "@
            })
            &&& row[2].text == (if part.footprints.len() > 0 {
                "F"@ + " "@
            } else {
                "· "@
            })
            &&& row[3].text == (if part.models.len() > 0 {
                "M"@ + " "@
            } else {
                "· "@
            })
            &&& row[4].text == "  "@ + part.source
        }),
{
    lemma_part_rows(a, a.library_view.len() as int);
}

/// The titles of the two lists count their rows, of all there are while a filter
/// is set.
pub proof fn lemma_titles(a: app::AppView, width: int)
    ensures
        a.filter.len() == 0 ==> home::queue_of(a, width).panel.title == " "@ + "ZIP Queue"@ + " ("@
            + text::decimal(a.zips.len()) + ") "@,
        a.filter.len() == 0 ==> home::library_of(a).panel.title == " "@ + "Library"@ + " ("@
            + text::decimal(a.library.len()) + ") "@,
        a.filter.len() > 0 ==> home::queue_of(a, width).panel.title == " "@ + "ZIP Queue"@ + " ("@
            + text::decimal(a.queue_view.len()) + "/"@ + (""@ + text::decimal(a.zips.len()) + ") "@),
        a.filter.len() > 0 ==> home::library_of(a).panel.title == " "@ + "Library"@ + " ("@
            + text::decimal(a.library_view.len()) + "/"@ + (""@ + text::decimal(a.library.len())
            + ") "@),
{
}

/// The Details box shows the archive that the queue points at while the queue has
/// the focus.
pub proof fn lemma_zip_details(a: app::AppView, row: int, width: int)
    requires
        a.focus == Focus::Queue,
        a.list == Some(row),
        0 <= row < a.queue_view.len(),
        0 <= a.queue_view[row] < a.zips.len(),
    ensures
        ({
            let lines = home::details_of(a, width).lines;
            let zip = a.zips[a.queue_view[row]];
            &&& lines[0][0].text == zip.display
            &&& lines[0][1].text == "   "@ + ui::sized(zip.size as int)
            &&& lines[1][0].text == ui::fitted(zip.path, ui::less(width, 2))
        }),
{
}

/// The Details box shows the part that the library points at while the library
/// has the focus: its name and source, and its files, each behind its own label.
pub proof fn lemma_part_details(a: app::AppView, row: int, width: int)
    requires
        a.focus == Focus::Library,
        a.library_list == Some(row),
        0 <= row < a.library_view.len(),
        0 <= a.library_view[row] < a.library.len(),
    ensures
        ({
            let lines = home::details_of(a, width).lines;
            let part = a.library[a.library_view[row]];
            let room = ui::less(width, 2);
            &&& lines.len() == 4
            &&& lines[0][0].text == part.name
            &&& part.source != library::FOUND@ ==> lines[0][1].text == "   from "@ + part.source
                + "   on "@ + text::split(part.imported_at, 'T')[0]
            &&& part.source == library::FOUND@ ==> lines[0][1].text == "   already in the library   "@
                + text::split(part.imported_at, 'T')[0]
            &&& lines[1][0].text == "symbol"@ + ": "@
            &&& lines[1][1].text == ui::fitted(
                match part.symbol_file {
                    Some(f) => f,
                    None => "none"@,
                },
                ui::less(room, ("symbol"@ + ": "@).len() as int),
            )
            &&& lines[2][0].text == "footprint"@ + ": "@
            &&& lines[2][1].text == ui::fitted(
                if part.footprints.len() == 0 {
                    "none"@
                } else {
                    text::join(part.footprints, ", "@)
                },
                ui::less(room, ("footprint"@ + ": "@).len() as int),
            )
            &&& lines[3][0].text == "model"@ + ": "@
            &&& lines[3][1].text == ui::fitted(
                if part.models.len() == 0 {
                    "none"@
                } else {
                    text::join(part.models, ", "@)
                },
                ui::less(room, ("model"@ + ": "@).len() as int),
            )
        }),
{
    let part = a.library[a.library_view[row]];
    if let Some(f) = part.symbol_file {
        assert(text::join(seq![f], ", "@) == f);
    }
}

/// The status box names the folder that is watched, and what happened last; it is
/// red where that is a failure.
pub proof fn lemma_status(a: app::AppView, width: int, present: bool)
    ensures
        ({
            let lines = home::status_of(a, width, present).lines;
            let room = ui::less(width, 2);
            &&& present ==> lines[0][1].text == ui::fitted(a.config.download_dir, ui::less(room, 10))
            &&& !present ==> lines[0][1].text == ui::fitted(
                a.config.download_dir + " (missing)"@,
                ui::less(room, 10),
            )
            &&& lines[1][0].text == ui::fitted(a.status, room)
            &&& text::starts_with(a.status, "Scan error"@) || text::starts_with(
                a.status,
                "Watch failed"@,
            ) || text::starts_with(a.status, "Import"@) && text::contains(a.status, "failed"@)
                <==> lines[1][0].look.color == Color::Red
        }),
{
}

/// The progress bar names the job under way.
pub proof fn lemma_progress_named(import: app::ImportView, width: int)
    ensures
        home::progress_of(import, width).len() == 1,
        home::progress_of(import, width)[0].text == ui::fitted(import.name, width),
{
}

/// The filter is shown as it was typed, with a caret while it is being typed.
pub proof fn lemma_filter_shown(a: app::AppView)
    ensures
        home::has_filter(a) <==> a.filtering || a.filter.len() > 0,
        a.filtering ==> home::filter_of(a).lines[0][0].text == "  "@ + a.filter + "_"@,
        !a.filtering ==> home::filter_of(a).lines[0][0].text == "  "@ + a.filter + ""@,
{
}

// ----------------------------------------------------------------- settings

proof fn lemma_settings_rows(s: app::SettingsView, first: int, n: int, width: int, i: int)
    requires
        0 <= first <= i < n,
    ensures
        pages::settings_lines(s, first, n, width).len() == 3 * (n - first),
        pages::settings_lines(s, first, n, width)[3 * (i - first)] == pages::setting_lines(
            s,
            i,
            width,
        )[0],
        pages::settings_lines(s, first, n, width)[3 * (i - first) + 1] == pages::setting_lines(
            s,
            i,
            width,
        )[1],
    decreases n,
{
    reveal_with_fuel(pages::settings_lines, 2);
    if i < n - 1 {
        lemma_settings_rows(s, first, n - 1, width, i);
    } else if first < n - 1 {
        lemma_settings_rows(s, first, n - 1, width, first);
    }
}

/// Every field on the Settings screen stands behind its own label, with the value
/// it has in the draft; the one under the cursor is marked and, while it is typed
/// into, shows what was typed. The field under the cursor is on the screen.
#[verifier::rlimit(40)]
pub proof fn lemma_settings_shown(s: app::SettingsView, width: int, height: int, first: int, i: int)
    requires
        0 <= s.cursor < 12,
        height >= 0,
        first == pages::first_row(s.cursor, pages::room_for(height, 3)),
        first <= i < 12,
        i < first + pages::room_for(height, 3),
    ensures
        ({
            let lines = pages::settings_of(s, width, height).panel.lines;
            let at = 3 * (i - first);
            let room = ui::less(width, 6);
            &&& 0 <= first <= s.cursor < first + pages::room_for(height, 3)
            &&& lines[at][0].text == (if i == s.cursor {
                "> "@
            } else {
                "  "@
            })
            &&& lines[at][1].text == Field::ALL@[i].caption()
            &&& i != s.cursor || s.editing is None ==> lines[at + 1][0].text == "    "@ + ui::fitted(
                Field::ALL@[i].shown(s.draft),
                room,
            )
            &&& i == s.cursor ==> (s.editing matches Some(typed) ==> (typed.len() <= room
                ==> lines[at + 1][0].text == "    "@ + (typed + "_"@)))
        }),
{
    let visible = pages::room_for(height, 3);
    let last = if first + visible < 12 {
        first + visible
    } else {
        12
    };
    lemma_settings_rows(s, first, last, ui::less(width, 6), i);
}

/// What the last edit did is said under the fields; else where the file is.
pub proof fn lemma_settings_said(s: app::SettingsView, config_path: Seq<char>, width: int)
    ensures
        s.note.len() > 0 ==> pages::settings_footer(s, config_path, width)[0][0].text == ui::fitted(
            s.note,
            ui::less(width, 2),
        ),
        s.note.len() == 0 ==> pages::settings_footer(s, config_path, width)[1][0].text == "  "@
            + ui::fitted(config_path, ui::less(width, 4)),
        pages::settings_title(s) == " SETTINGS  ("@ + text::decimal((s.cursor + 1) as nat) + "/12)"@
            + if s.dirty {
            "  •unsaved "@
        } else {
            " "@
        },
{
}

// ----------------------------------------------------------------- projects

proof fn lemma_projects_rows(
    cfg: config::ConfigView,
    cursor: int,
    exists: Seq<bool>,
    first: int,
    n: int,
    width: int,
    i: int,
)
    requires
        0 <= first <= i < n,
    ensures
        pages::projects_lines(cfg, cursor, exists, first, n, width).len() == 2 * (n - first),
        pages::projects_lines(cfg, cursor, exists, first, n, width)[2 * (i - first)]
            == pages::project_lines(
            cfg.projects[i],
            i == cursor,
            paths::same_place(cfg.projects[i].library_root, cfg.library_root),
            i < exists.len() && exists[i],
            width,
        )[0],
        pages::projects_lines(cfg, cursor, exists, first, n, width)[2 * (i - first) + 1]
            == pages::project_lines(
            cfg.projects[i],
            i == cursor,
            paths::same_place(cfg.projects[i].library_root, cfg.library_root),
            i < exists.len() && exists[i],
            width,
        )[1],
    decreases n,
{
    reveal_with_fuel(pages::projects_lines, 2);
    if i < n - 1 {
        lemma_projects_rows(cfg, cursor, exists, first, n - 1, width, i);
    } else if first < n - 1 {
        lemma_projects_rows(cfg, cursor, exists, first, n - 1, width, first);
    }
}

/// Every project shows its own name and root. The one under the cursor is marked,
/// those where the library is are too, and one whose folder is gone says so.
#[verifier::rlimit(40)]
pub proof fn lemma_projects_shown(
    p: app::ProjectsView,
    cfg: config::ConfigView,
    exists: Seq<bool>,
    width: int,
    height: int,
    first: int,
    i: int,
)
    requires
        0 <= p.cursor < cfg.projects.len(),
        height >= 0,
        exists.len() == cfg.projects.len(),
        first == pages::first_row(p.cursor, pages::room_for(height, 2)),
        first <= i < cfg.projects.len(),
        i < first + pages::room_for(height, 2),
    ensures
        ({
            let lines = pages::projects_of(p, cfg, exists, width, height).panel.lines;
            let at = 2 * (i - first);
            let room = ui::less(width, 6);
            &&& 0 <= first <= p.cursor < first + pages::room_for(height, 2)
            &&& lines[at][0].text == (if i == p.cursor {
                "> "@
            } else {
                "  "@
            })
            &&& lines[at][1].text == (if paths::same_place(
                cfg.projects[i].library_root,
                cfg.library_root,
            ) {
                "● "@
            } else {
                "  "@
            })
            &&& lines[at][2].text == cfg.projects[i].name
            &&& exists[i] ==> lines[at + 1][1].text == ui::fitted(cfg.projects[i].library_root, room)
                && lines[at + 1][2].text == ""@
            &&& !exists[i] ==> lines[at + 1][1].text == ui::fitted(
                cfg.projects[i].library_root,
                ui::less(room, 11),
            ) && lines[at + 1][2].text == "  (missing)"@
        }),
{
    let count = cfg.projects.len() as int;
    let visible = pages::room_for(height, 2);
    let last = if first + visible < count {
        first + visible
    } else {
        count
    };
    lemma_projects_rows(cfg, p.cursor, exists, first, last, ui::less(width, 6), i);
}

/// Under the projects stand what was last said and where the library is.
pub proof fn lemma_projects_said(p: app::ProjectsView, root: Seq<char>, width: int)
    ensures
        pages::projects_footer(p, root, width)[0][0].text == ui::fitted(
            p.message,
            ui::less(width, 2),
        ),
        pages::projects_footer(p, root, width)[2][0].text == "  "@ + ui::fitted(
            root,
            ui::less(width, 4),
        ),
{
}

// ------------------------------------------------------------------- search

proof fn lemma_hit_rows(
    a: app::AppView,
    s: app::SearchView,
    first: int,
    n: int,
    width: int,
    i: int,
)
    requires
        0 <= first <= i < n,
    ensures
        pages::hit_lines(a, s, first, n, width).len() == n - first,
        pages::hit_lines(a, s, first, n, width)[i - first] == pages::hit_line(
            s.results[i],
            panes::has_hit(a.library, s.results[i]),
            i == s.cursor,
            width,
        ),
    decreases n,
{
    reveal_with_fuel(pages::hit_lines, 2);
    if i < n - 1 {
        lemma_hit_rows(a, s, first, n - 1, width, i);
    } else if first < n - 1 {
        lemma_hit_rows(a, s, first, n - 1, width, first);
    }
}

/// What is said of a result: a mark where the library has it, its number, its
/// part number, who makes it, its package, its category and its stock.
pub proof fn lemma_hit_text(h: easyeda::HitView, owned: bool)
    requires
        h.manufacturer.len() > 0,
        h.package.len() > 0,
        h.category.len() > 0,
    ensures
        ({
            let dot = "  ·  "@;
            let stock = if h.stock > 0 {
                ""@ + text::decimal(h.stock as nat) + " in stock"@
            } else {
                "no stock"@
            };
            let mark = if owned {
                "✓ "@
            } else {
                "  "@
            };
            pages::hit_text(h, owned) == mark + ui::padded(h.id, 10) + " "@ + ui::padded(h.mpn, 24)
                + " "@ + (h.manufacturer + dot + h.package + dot + h.category + dot + stock)
        }),
{
    let dot = "  ·  "@;
    let stock = pages::stock_text(h.stock);
    reveal_strlit(" in stock");
    reveal_strlit("no stock");
    assert(stock.len() > 0);
    let all = seq![h.manufacturer, h.package, h.category, stock];
    let one = Seq::<Seq<char>>::empty().push(h.manufacturer);
    let two = one.push(h.package);
    let three = two.push(h.category);
    let four = three.push(stock);
    assert(all =~= four);
    assert(four.drop_last() =~= three);
    assert(three.drop_last() =~= two);
    assert(two.drop_last() =~= one);
    assert(one.drop_last() =~= Seq::<Seq<char>>::empty());
    assert(pages::full(Seq::<Seq<char>>::empty()) =~= Seq::<Seq<char>>::empty());
    assert(pages::full(one) == one);
    assert(pages::full(two) == two);
    assert(pages::full(three) == three);
    assert(pages::full(four) == four);
    assert(text::join(one, dot) == h.manufacturer);
    assert(text::join(two, dot) == h.manufacturer + dot + h.package);
    assert(text::join(three, dot) == h.manufacturer + dot + h.package + dot + h.category);
}

/// Every result stands on a row of its own, in order; the one under the cursor is
/// marked and on the screen, and those that the library has are marked too.
pub proof fn lemma_hits_shown(a: app::AppView, s: app::SearchView, width: int, height: int, first: int, i: int)
    requires
        0 <= s.cursor < s.results.len(),
        first == pages::first_row(s.cursor, ui::less(height, 2)),
        first <= i < s.results.len(),
    ensures
        ({
            let lines = pages::search_of(a, s, width, height).panel.lines;
            let owned = panes::has_hit(a.library, s.results[i]);
            let words = ui::fitted(pages::hit_text(s.results[i], owned), ui::less(width, 4));
            &&& 0 <= first <= s.cursor
            &&& height > 2 ==> s.cursor < first + (height - 2)
            &&& lines.len() == s.results.len() - first
            &&& i == s.cursor ==> lines[i - first][0].text == "> "@ + words
            &&& i != s.cursor ==> lines[i - first][0].text == "  "@ + words
        }),
{
    lemma_hit_rows(a, s, first, s.results.len() as int, ui::less(width, 4), i);
}

/// The query is shown as it was typed, and what came of it under the results.
pub proof fn lemma_search_said(s: app::SearchView, width: int)
    ensures
        s.editing ==> pages::query_of(s).lines[0][0].text == "  "@ + s.query + "_"@,
        !s.editing ==> pages::query_of(s).lines[0][0].text == "  "@ + s.query + ""@,
        pages::search_footer(s, width)[0][0].text == ui::fitted(s.message, ui::less(width, 2)),
        text::starts_with(s.message, "Search failed"@) || text::starts_with(
            s.message,
            "Import failed"@,
        ) <==> pages::search_footer(s, width)[0][0].look.color == Color::Red,
{
}

// ------------------------------------------------------------------- picker

proof fn lemma_folder_rows(p: picker::PickerView, first: int, n: int, i: int)
    requires
        0 <= first <= i < n,
    ensures
        pages::folder_lines(p, first, n).len() == n - first,
        pages::folder_lines(p, first, n)[i - first] == pages::folder_line(
            p.entries[i],
            i == p.selected,
        ),
    decreases n,
{
    reveal_with_fuel(pages::folder_lines, 2);
    if i < n - 1 {
        lemma_folder_rows(p, first, n - 1, i);
    } else if first < n - 1 {
        lemma_folder_rows(p, first, n - 1, first);
    }
}

/// Every folder stands on a row of its own, under its name; the highlighted one is
/// on the screen. What the folder is chosen for, and where one is, stand above.
pub proof fn lemma_folders_shown(p: picker::PickerView, width: int, height: int, first: int, i: int, name: Seq<char>)
    requires
        p.error is None,
        0 <= p.selected < p.entries.len(),
        first == pages::first_row(p.selected, ui::less(height, 2)),
        first <= i < p.entries.len(),
        paths::leaf_of(p.entries[i]) == Some(name),
    ensures
        ({
            let lines = pages::picker_of(p, width, height).panel.lines;
            &&& 0 <= first <= p.selected
            &&& height > 2 ==> p.selected < first + (height - 2)
            &&& lines.len() == p.entries.len() - first
            &&& i == p.selected ==> lines[i - first][0].text == "> "@ + name + "/"@
            &&& i != p.selected ==> lines[i - first][0].text == "  "@ + name + "/"@
        }),
        pages::picker_head(p).lines[1][0].text == p.cwd,
        p.target matches picker::Target::Setting(f) ==> pages::picker_head(p).lines[0][0].text
            == "Choosing: "@ + f.caption(),
        p.target matches picker::Target::Validation(f) ==> pages::picker_head(p).lines[0][0].text
            == "Choosing: "@ + f.caption(),
{
    lemma_folder_rows(p, first, p.entries.len() as int, i);
}

/// A folder that cannot be read says why.
pub proof fn lemma_folder_fault(p: picker::PickerView, width: int, height: int, e: Seq<char>)
    requires
        p.error == Some(e),
    ensures
        pages::picker_of(p, width, height).panel.lines[0][0].text == e,
{
}

// -------------------------------------------------------------- diagnostics

proof fn lemma_dir_rows(cfg: config::ConfigView, exists: Seq<bool>, n: int, i: int)
    requires
        0 <= i < n,
    ensures
        pages::dir_entries(cfg, exists, n).len() == 2 * n,
        pages::dir_entries(cfg, exists, n)[2 * i] == pages::dir_entry(
            Field::DIRS@[i],
            cfg,
            i < exists.len() && exists[i],
        )[0],
        pages::dir_entries(cfg, exists, n)[2 * i + 1] == pages::dir_entry(
            Field::DIRS@[i],
            cfg,
            i < exists.len() && exists[i],
        )[1],
    decreases n,
{
    reveal_with_fuel(pages::dir_entries, 2);
    if i < n - 1 {
        lemma_dir_rows(cfg, exists, n - 1, i);
    } else if n > 1 {
        lemma_dir_rows(cfg, exists, n - 1, 0);
    }
}

/// The page opens with where the program runs from and which files it uses.
#[verifier::rlimit(40)]
pub proof fn lemma_diagnostics_head(a: app::AppView, log: Seq<char>, present: pages::Present)
    ensures
        ({
            let lines = pages::diagnostics_lines(a, Some(log), present);
            &&& lines.len() > 8
            &&& lines[0][0].text == "Working Directory"@
            &&& lines[1][0].text == "  "@ + a.cwd
            &&& lines[2][0].text == "Executable"@
            &&& lines[3][0].text == "  "@ + a.exe
            &&& lines[4][0].text == "Config File"@
            &&& lines[5][0].text == "  "@ + a.config_path
            &&& lines[6][0].text == "Log File"@
            &&& lines[7][0].text == "  "@ + log
        }),
{
}

/// Every folder of the configuration follows, behind its own label, with whether
/// it is there.
#[verifier::rlimit(40)]
pub proof fn lemma_diagnostics_dirs(a: app::AppView, log: Option<Seq<char>>, present: pages::Present, i: int)
    requires
        0 <= i < 7,
        present.dirs@.len() == 7,
    ensures
        ({
            let lines = pages::diagnostics_lines(a, log, present);
            let field = Field::DIRS@[i];
            &&& Field::DIRS@ == seq![
                Field::LibraryRoot,
                Field::DownloadDir,
                Field::SymbolDir,
                Field::FootprintDir,
                Field::ModelDir,
                Field::TempDir,
                Field::ArchiveDir,
            ]
            &&& lines.len() > 9 + 2 * i + 1
            &&& lines[9 + 2 * i][0].text == field.caption()
            &&& lines[9 + 2 * i][1].text == (if present.dirs@[i] {
                "  [ok]"@
            } else {
                "  [MISSING]"@
            })
            &&& lines[9 + 2 * i + 1][0].text == "  "@ + field.shown(a.config)
        }),
{
    lemma_dir_rows(a.config, present.dirs@, 7, i);
    let dirs = pages::dir_entries(a.config, present.dirs@, 7);
    let lines = pages::diagnostics_lines(a, log, present);
    assert(lines[9 + 2 * i] == dirs[2 * i]);
    assert(lines[9 + 2 * i + 1] == dirs[2 * i + 1]);
}

/// The merged library and the manifest say whether they are there yet, or turned
/// off.
pub proof fn lemma_diagnostics_files(cfg: config::ConfigView, field: Field, exists: bool)
    ensures
        pages::file_entry(field, cfg, exists)[0][0].text == field.caption(),
        pages::file_entry(field, cfg, exists)[1][0].text == "  "@ + field.shown(cfg),
        field.get(cfg) is None ==> pages::file_entry(field, cfg, exists)[0][1].text
            == "  [disabled]"@,
        field.get(cfg) is Some && exists ==> pages::file_entry(field, cfg, exists)[0][1].text
            == "  [ok]"@,
        field.get(cfg) is Some && !exists ==> pages::file_entry(field, cfg, exists)[0][1].text
            == "  [not created yet]"@,
{
}

/// What the last scan found stands behind its labels.
pub proof fn lemma_diagnostics_scan(a: app::AppView)
    ensures
        ({
            let lines = pages::scan_entries(a);
            &&& lines.len() == 6
            &&& lines[0][0].text == "ZIP Files Found"@
            &&& lines[1][0].text == "  "@ + text::decimal(a.zips.len())
            &&& lines[2][0].text == "Library Contents"@
            &&& lines[3][0].text == "  "@ + ((""@ + text::decimal(a.totals.parts as nat) + " part(s), "@)
                + (""@ + text::decimal(a.totals.symbols as nat) + " symbol(s), "@) + (""@
                + text::decimal(a.totals.footprints as nat) + " footprint(s), "@) + (""@
                + text::decimal(a.totals.models as nat) + " model(s)"@))
            &&& lines[4][0].text == "Last Scan"@
            &&& a.last_scan matches Some(at) ==> lines[5][0].text == "  "@ + at
            &&& a.last_scan is None ==> lines[5][0].text == "  "@ + "never"@
        }),
{
}

/// The last ten errors are listed, the latest first.
pub proof fn lemma_errors_listed(errors: Seq<Seq<char>>, k: int)
    requires
        0 <= k < errors.len(),
        k < 10,
    ensures
        pages::error_entries(errors).len() == 1 + if errors.len() < 10 {
            errors.len() as int
        } else {
            10
        },
        pages::error_entries(errors)[1 + k][0].text == "  "@ + errors[errors.len() - 1 - k],
{
    lemma_error_lines(errors, ui::less(errors.len() as int, 10), k);
}

proof fn lemma_error_lines(errors: Seq<Seq<char>>, to: int, k: int)
    requires
        0 <= to < errors.len(),
        0 <= k < errors.len() - to,
    ensures
        pages::error_lines(errors, to).len() == errors.len() - to,
        pages::error_lines(errors, to)[k] == ui::said(
            "  "@ + errors[errors.len() - 1 - k],
            ui::tinted(Color::Red),
        ),
    decreases errors.len() - to,
{
    reveal_with_fuel(pages::error_lines, 2);
    if to + 1 < errors.len() {
        lemma_error_lines(errors, to + 1, if k < errors.len() - to - 1 {
            k
        } else {
            0
        });
    }
}

proof fn lemma_bookmark_lines(cfg: config::ConfigView, n: int, i: int)
    requires
        0 <= i < n,
    ensures
        pages::bookmark_lines(cfg, n).len() == n,
        pages::bookmark_lines(cfg, n)[i] == pages::bookmark_line(
            cfg.projects[i],
            cfg.library_root,
        ),
    decreases n,
{
    reveal_with_fuel(pages::bookmark_lines, 2);
    if i < n - 1 {
        lemma_bookmark_lines(cfg, n - 1, i);
    } else if n > 1 {
        lemma_bookmark_lines(cfg, n - 1, 0);
    }
}

/// Every saved project is listed with its root, marked where the library is.
pub proof fn lemma_bookmarks_listed(cfg: config::ConfigView, i: int)
    requires
        0 <= i < cfg.projects.len(),
    ensures
        ({
            let lines = pages::bookmark_entries(cfg);
            let mark = if paths::same_place(cfg.projects[i].library_root, cfg.library_root) {
                "●"@
            } else {
                " "@
            };
            &&& lines.len() == 1 + cfg.projects.len()
            &&& lines[1 + i][0].text == "  "@ + mark + " "@ + cfg.projects[i].name + " — "@
                + cfg.projects[i].library_root
        }),
{
    lemma_bookmark_lines(cfg, cfg.projects.len() as int, i);
}

// ------------------------------------------------------------------ prompts

proof fn lemma_conflict_lines(list: Seq<Seq<char>>, n: int, width: int, i: int)
    requires
        0 <= i < n,
    ensures
        prompts::conflict_lines(list, n, width).len() == n,
        prompts::conflict_lines(list, n, width)[i] == ui::said(
            "  "@ + ui::fitted(list[i], width),
            ui::plain(),
        ),
    decreases n,
{
    reveal_with_fuel(prompts::conflict_lines, 2);
    if i < n - 1 {
        lemma_conflict_lines(list, n - 1, width, i);
    } else if n > 1 {
        lemma_conflict_lines(list, n - 1, width, 0);
    }
}

/// The prompt names the part and every file that it would replace, as far as
/// there is room for them, and how many there are.
#[verifier::rlimit(40)]
pub proof fn lemma_overwrite_shown(
    p: importer::PendingView,
    run: Option<app::RunView>,
    width: int,
    height: int,
    i: int,
)
    requires
        p.part.len() > 0,
        width >= 76,
        height >= 13,
        0 <= i < p.conflicts.len(),
        i < height - 12,
    ensures
        ({
            let lines = prompts::overwrite_of(p, run, width, height).panel.lines;
            &&& lines.len() > 3 + i
            &&& lines[0][0].text == p.part + " is already in the library."@
            &&& lines[2][0].text == "Importing it replaces "@ + text::decimal(p.conflicts.len())
                + " file(s):"@
            &&& lines[3 + i][0].text == "  "@ + ui::fitted(p.conflicts[i], 72)
        }),
{
    let shown = ui::capped(p.conflicts.len() as int, height - 12);
    lemma_conflict_lines(p.conflicts, shown, 72, i);
    let head = prompts::overwrite_head(p);
    let files = prompts::overwrite_files(p, height - 12, 72);
    let lines = prompts::overwrite_of(p, run, width, height).panel.lines;
    assert(files[i] == prompts::conflict_lines(p.conflicts, shown, 72)[i]);
    assert(lines[3 + i] == files[i]);
}

/// The question about a missing location shows its path and what it is.
pub proof fn lemma_missing_shown(cfg: config::ConfigView, field: Field, remaining: int, width: int, height: int)
    ensures
        ({
            let lines = prompts::validate_of(cfg, field, remaining, width, height).panel.lines;
            &&& lines.len() > 4
            &&& lines[2][0].text == "  "@ + field.shown(cfg)
            &&& lines[3][0].text == "  ("@ + field.caption() + ")"@
        }),
{
    let lines = prompts::validate_of(cfg, field, remaining, width, height).panel.lines;
    let head = prompts::missing_lines(cfg, field);
    assert(lines[2] == head[2]);
    assert(lines[3] == head[3]);
}

/// The keys that the main screen offers, each with what it does.
pub proof fn lemma_main_keys(a: app::AppView)
    ensures
        a.filtering ==> home::main_hints(a) == seq![
            ("Type"@, "Filter"@),
            ("Enter"@, "Keep"@),
            ("Esc"@, "Clear"@),
        ],
        !a.filtering && a.focus == Focus::Queue ==> home::main_hints(a)[0] == ("Enter"@, "Import"@)
            && home::main_hints(a)[1] == ("A"@, "All"@) && home::main_hints(a).skip(2) == seq![
            ("W"@, "Search"@),
            ("P"@, "Project"@),
            ("Tab"@, "Pane"@),
            ("/"@, "Filter"@),
            ("R"@, "Rescan"@),
            ("S"@, "Settings"@),
            ("F12"@, "Diag"@),
            ("Q"@, "Quit"@),
        ],
        !a.filtering && a.focus == Focus::Library ==> home::main_hints(a) == seq![
            ("W"@, "Search"@),
            ("P"@, "Project"@),
            ("Tab"@, "Pane"@),
            ("/"@, "Filter"@),
            ("R"@, "Rescan"@),
            ("S"@, "Settings"@),
            ("F12"@, "Diag"@),
            ("Q"@, "Quit"@),
        ],
{
    let rest = seq![
        ("W"@, "Search"@),
        ("P"@, "Project"@),
        ("Tab"@, "Pane"@),
        ("/"@, "Filter"@),
        ("R"@, "Rescan"@),
        ("S"@, "Settings"@),
        ("F12"@, "Diag"@),
        ("Q"@, "Quit"@),
    ];
    if !a.filtering && a.focus == Focus::Queue {
        assert(home::main_hints(a).skip(2) =~= rest);
    }
}

/// The prompt offers to answer for the whole run only while there is more than
/// one job in it.
pub proof fn lemma_prompt_keys(run: app::RunView)
    ensures
        run.total > 1 ==> prompts::overwrite_hints(prompts::is_queued(Some(run))) == seq![
            ("Y"@, "Overwrite"@),
            ("A"@, "Overwrite All"@),
            ("S"@, "Skip"@),
            ("N"@, "Cancel"@),
        ],
        run.total <= 1 ==> prompts::overwrite_hints(prompts::is_queued(Some(run))) == seq![
            ("Y"@, "Overwrite"@),
            ("N"@, "Cancel"@),
        ],
        prompts::overwrite_hints(prompts::is_queued(None)) == seq![
            ("Y"@, "Overwrite"@),
            ("N"@, "Cancel"@),
        ],
{
}

/// The keys that the other screens offer, each with what it does.
pub proof fn lemma_screen_keys()
    ensures
        pages::settings_hints(false) == seq![
            ("E"@, "Edit"@),
            ("Space"@, "Toggle"@),
            ("Tab"@, "Next"@),
            ("Enter"@, "Browse"@),
            ("S"@, "Save"@),
            ("Esc"@, "Cancel"@),
        ],
        pages::settings_hints(true) == seq![("Enter"@, "Commit"@), ("Esc"@, "Cancel edit"@)],
        pages::projects_hints(false) == seq![
            ("Enter"@, "Switch"@),
            ("B"@, "Browse"@),
            ("N"@, "Save Current"@),
            ("E"@, "Rename"@),
            ("D"@, "Forget"@),
            ("↑↓"@, "Move"@),
            ("Esc"@, "Back"@),
        ],
        pages::projects_hints(true) == seq![
            ("Enter"@, "Save Name"@),
            ("Ctrl-U"@, "Clear"@),
            ("Esc"@, "Cancel"@),
        ],
        pages::search_hints(false) == seq![
            ("Enter"@, "Add to Library"@),
            ("↑↓"@, "Move"@),
            ("/"@, "Edit Query"@),
            ("Esc"@, "Back"@),
        ],
        pages::search_hints(true) == seq![
            ("Enter"@, "Search"@),
            ("↓"@, "Results"@),
            ("Esc"@, "Back"@),
        ],
        pages::picker_hints() == seq![
            ("↑↓"@, "Move"@),
            ("Enter"@, "Open Folder"@),
            ("Backspace"@, "Parent"@),
            ("Space"@, "Select This Folder"@),
            ("Esc"@, "Cancel"@),
        ],
        pages::diagnostics_hints() == seq![
            ("↑↓"@, "Scroll"@),
            ("Esc"@, "Back"@),
            ("F12"@, "Back"@),
        ],
{
}

/// The keys of the question about a missing location: all of them at once only
/// where there is more than one.
pub proof fn lemma_missing_keys(remaining: int)
    ensures
        remaining > 1 ==> prompts::validate_hints(remaining) == seq![
            ("Y"@, "Create"@),
            ("A"@, "Create All"@),
            ("C"@, "Change Path"@),
            ("Q"@, "Quit"@),
        ],
        remaining <= 1 ==> prompts::validate_hints(remaining) == seq![
            ("Y"@, "Create"@),
            ("C"@, "Change Path"@),
            ("Q"@, "Quit"@),
        ],
{
}

/// The box that a name is typed into says what is being named.
pub proof fn lemma_naming_shown(n: app::NamingView)
    ensures
        n.target is Some ==> pages::naming_of(n).title == " Rename Project "@,
        n.target is None ==> pages::naming_of(n).title == " Name This Location "@,
        pages::naming_of(n).lines[0][0].text == "  "@ + n.buffer + "_"@,
{
}

/// A path that is too long for its row while it is typed shows its end, where the
/// caret is.
pub proof fn lemma_typed_end(buffer: Seq<char>, width: int)
    requires
        1 <= width < buffer.len(),
    ensures
        pages::typed_value(buffer, width).len() == width,
        pages::typed_value(buffer, width).drop_last() == buffer.skip(buffer.len() - width + 1),
        pages::typed_value(buffer, width).last() == '_',
{
    reveal_strlit("_");
    let shown = pages::typed_value(buffer, width);
    assert(shown.drop_last() =~= buffer.skip(buffer.len() - width + 1));
}

/// The folders that come with a missing library root are named, and no others
/// with another location; how many locations are left is said too.
pub proof fn lemma_missing_said(cfg: config::ConfigView, remaining: int)
    ensures
        prompts::comes_with(cfg, Field::DownloadDir).len() == 0,
        prompts::comes_with(cfg, Field::LibraryRoot) == prompts::folder_names(
            seq![
                cfg.symbol_dir,
                cfg.footprint_dir,
                cfg.model_dir,
                cfg.temp_dir,
                cfg.archive_dir,
            ],
        ),
        remaining > 1 ==> prompts::remaining_lines(remaining)[0][0].text == ""@ + text::decimal(
            (remaining - 1) as nat,
        ) + " more location needs attention."@,
        remaining <= 1 ==> prompts::remaining_lines(remaining).len() == 0,
{
    assert(config::folders(cfg).skip(1) =~= seq![
        cfg.symbol_dir,
        cfg.footprint_dir,
        cfg.model_dir,
        cfg.temp_dir,
        cfg.archive_dir,
    ]);
}

/// A key and what it does, as they are written on the key bar.
pub proof fn lemma_key_written(items: Seq<(Seq<char>, Seq<char>)>)
    requires
        items.len() > 0,
    ensures
        ({
            let line = ui::bar_line(items);
            &&& line.len() >= 2
            &&& line[line.len() - 2].text == "["@ + items.last().0 + "]"@
            &&& line[line.len() - 1].text == " "@ + items.last().1
        }),
{
}

// -------------------------------------------------------------------- sizes

proof fn lemma_precise(n: int)
    requires
        0 <= n < 0x20_0000_0000_0000,
    ensures
        ui::rounded(n) == n,
{
    reveal_with_fuel(ui::precision, 2);
    assert(ui::precision(n, 1, 11) == 1);
}

proof fn lemma_nearest(n: int, unit: int)
    requires
        0 <= n,
        0 < unit,
    ensures
        -unit <= 2 * (n - ui::nearest(n, unit) * unit) <= unit,
        ui::nearest(n, unit) >= 0,
{
    let q = n / unit;
    let rest = n % unit;
    vstd::arithmetic::div_mod::lemma_fundamental_div_mod(n, unit);
    assert(n == q * unit + rest) by (nonlinear_arith)
        requires
            n == unit * q + rest,
    ;
    assert((q + 1) * unit == q * unit + unit) by (nonlinear_arith);
    assert(q >= 0) by (nonlinear_arith)
        requires
            q == n / unit,
            n >= 0,
            unit > 0,
    ;
}

/// A size is told in bytes below a thousand and twenty-four, and else in the
/// largest unit that fits, to the nearest tenth: `tenths` of them.
pub proof fn lemma_sized(n: int) -> (tenths: int)
    requires
        0 <= n < 0x20_0000_0000_0000,
    ensures
        n < 1024 ==> ui::sized(n) == text::decimal(n as nat) + " B"@,
        tenths >= 0,
        ({
            let shown = text::decimal((tenths / 10) as nat) + "."@ + text::decimal(
                (tenths % 10) as nat,
            );
            &&& 1024 <= n < 1024 * 1024 ==> ui::sized(n) == shown + " KB"@ && -1024 <= 2 * (10 * n
                - 1024 * tenths) <= 1024
            &&& 1024 * 1024 <= n < 1024 * 1024 * 1024 ==> ui::sized(n) == shown + " MB"@ && -1048576
                <= 2 * (10 * n - 1048576 * tenths) <= 1048576
            &&& 1024 * 1024 * 1024 <= n ==> ui::sized(n) == shown + " GB"@ && -1073741824 <= 2 * (10
                * n - 1073741824 * tenths) <= 1073741824
        }),
{
    lemma_precise(n);
    let unit: int = if n < 0x10_0000 {
        0x400
    } else if n < 0x4000_0000 {
        0x10_0000
    } else {
        0x4000_0000
    };
    lemma_nearest(n * 10, unit);
    ui::nearest(n * 10, unit)
}

/// A text that is cut keeps its beginning and fits.
pub proof fn lemma_cut(s: Seq<char>, max: int)
    requires
        max >= 1,
    ensures
        s.len() <= max ==> ui::cut(s, max) == s,
        s.len() > max ==> ui::cut(s, max).len() == max && ui::cut(s, max).take(max - 1) == s.take(
            max - 1,
        ) && ui::cut(s, max).last() == '…',
{
    reveal_strlit("…");
    if s.len() > max {
        assert(ui::cut(s, max).take(max - 1) =~= s.take(max - 1));
    }
}

} // verus!
