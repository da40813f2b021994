//! The two boxes that ask something: about a directory that does not exist, and
//! about files an import would replace.

use vstd::prelude::*;
use vstd::string::*;

use crate::app;
use crate::app::steps;
use crate::app::steps::{both, count};
use crate::app::{Run, Validate};
use crate::config;
use crate::config::{Config, Field};
use crate::importer;
use crate::importer::Pending;
use crate::paths;
use crate::paths::file_name;
use crate::text;
use crate::text::joined;
use crate::ui;
use crate::ui::home;
use crate::ui::pages;
use crate::ui::{fit, height, hints, minus, Color, Line, Lines, Look, Panel};

verus! {

/// A box in the middle of the screen.
pub struct Prompt {
    pub panel: Panel,
    pub x: u16,
    pub y: u16,
    pub width: u16,
    pub height: u16,
}

#[verifier::ext_equal]
pub struct PromptView {
    pub panel: ui::PanelView,
    pub x: int,
    pub y: int,
    pub width: int,
    pub height: int,
}

impl View for Prompt {
    type V = PromptView;

    open spec fn view(&self) -> PromptView {
        PromptView {
            panel: self.panel@,
            x: self.x as int,
            y: self.y as int,
            width: self.width as int,
            height: self.height as int,
        }
    }
}

/// A box of at most `wide` by `tall` in the middle of a screen of `width` by
/// `height`.
pub open spec fn centered(panel: ui::PanelView, wide: int, tall: int, width: int, height: int) -> PromptView {
    let w = ui::capped(wide, width);
    let h = ui::capped(tall, height);
    PromptView { panel, x: (width - w) / 2, y: (height - h) / 2, width: w, height: h }
}

/// At least one.
pub open spec fn positive(n: int) -> int {
    if n > 1 {
        n
    } else {
        1
    }
}

/// The lines in a box of at most `wide` columns, as tall as they are when they
/// are wrapped: the key bar must never be the part that is cut off.
pub open spec fn boxed(panel: ui::PanelView, wide: int, width: int, height: int) -> PromptView {
    let inner = positive(ui::less(ui::capped(wide, width), 2));
    centered(panel, wide, ui::height_of(panel.lines, inner) + 2, width, height)
}

fn enclose(panel: Panel, wide: u16, width: u16, height: u16) -> (r: Prompt)
    ensures
        r@ == boxed(panel@, wide as int, width as int, height as int),
{
    let w: u16 = if wide < width {
        wide
    } else {
        width
    };
    let room: u16 = minus(w as usize, 2) as u16;
    let inner: u16 = if room > 1 {
        room
    } else {
        1
    };
    let rows: u16 = ui::height(&panel.lines, inner, height);
    let tall: u32 = rows as u32 + 2;
    let h: u16 = if tall < height as u32 {
        tall as u16
    } else {
        height
    };
    Prompt { panel, x: (width - w) / 2, y: (height - h) / 2, width: w, height: h }
}

// --------------------------------------------------------- overwrite prompt

/// The files an import would replace, the first `n` of them.
pub open spec fn conflict_lines(list: Seq<Seq<char>>, n: int, width: int) -> Seq<Seq<ui::SpanView>>
    decreases n,
{
    if n <= 0 {
        Seq::empty()
    } else {
        conflict_lines(list, n - 1, width).push(
            ui::said("  "@ + ui::fitted(list[n - 1], width), ui::plain()),
        )
    }
}

/// [A] and [S] only mean something while there is a queue behind the prompt.
pub open spec fn overwrite_hints(queued: bool) -> Seq<(Seq<char>, Seq<char>)> {
    if queued {
        seq![
            ("Y"@, "Overwrite"@),
            ("A"@, "Overwrite All"@),
            ("S"@, "Skip"@),
            ("N"@, "Cancel"@),
        ]
    } else {
        seq![("Y"@, "Overwrite"@), ("N"@, "Cancel"@)]
    }
}

pub open spec fn is_queued(run: Option<app::RunView>) -> bool {
    run matches Some(r) && r.total > 1
}

/// What the prompt says before it lists the files.
pub open spec fn overwrite_head(p: importer::PendingView) -> Seq<Seq<ui::SpanView>> {
    seq![
        ui::said(
            importer::pending_label(p) + " is already in the library."@,
            ui::strong(Color::Yellow),
        ),
        ui::gap(),
        home::muted(
            steps::counted("Importing it replaces "@, p.conflicts.len() as int, " file(s):"@),
        ),
    ]
}

/// As many of the doomed files as fit, and how many are left.
pub open spec fn overwrite_files(p: importer::PendingView, room: int, width: int) -> Seq<
    Seq<ui::SpanView>,
> {
    let shown = ui::capped(p.conflicts.len() as int, room);
    let listed = conflict_lines(p.conflicts, shown, width);
    if p.conflicts.len() > shown {
        listed.push(
            home::muted(steps::counted("  … and "@, p.conflicts.len() - shown, " more"@)),
        )
    } else {
        listed
    }
}

pub open spec fn overwrite_tail(run: Option<app::RunView>, width: int) -> Seq<Seq<ui::SpanView>> {
    let keys = pages::keys_line(overwrite_hints(is_queued(run)), width);
    match run {
        Some(r) => if r.total > 1 {
            seq![
                ui::gap(),
                home::muted(
                    steps::counted("Job "@, r.done + 1, " of "@) + steps::counted(
                        ""@,
                        r.total,
                        "."@,
                    ),
                ),
                ui::gap(),
                keys,
            ]
        } else {
            seq![ui::gap(), keys]
        },
        None => seq![ui::gap(), keys],
    }
}

/// The overwrite prompt on a screen of `width` by `height`.
pub open spec fn overwrite_of(
    p: importer::PendingView,
    run: Option<app::RunView>,
    width: int,
    height: int,
) -> PromptView {
    let inner = positive(ui::less(ui::capped(76, width), 2));
    boxed(
        ui::PanelView {
            title: " Already In The Library "@,
            lines: overwrite_head(p) + overwrite_files(
                p,
                positive(ui::less(height, 12)),
                ui::less(inner, 2),
            ) + overwrite_tail(run, inner),
        },
        76,
        width,
        height,
    )
}

fn put_files(lines: &mut Lines, p: &Pending, room: usize, width: usize)
    ensures
        final(lines)@ == old(lines)@ + overwrite_files(p@, room as int, width as int),
{
    let ghost was = lines@;
    let ghost all = p@.conflicts;
    let total: usize = p.conflicts.len();
    assert(all.len() == total);
    let shown: usize = if total < room {
        total
    } else {
        room
    };
    let mut i: usize = 0;
    assert(was + conflict_lines(all, 0, width as int) =~= was);
    while i < shown
        invariant
            i <= shown <= total == p.conflicts@.len(),
            all == text::views(p.conflicts@),
            lines@ == was + conflict_lines(all, i as int, width as int),
        decreases shown - i,
    {
        assert(all[i as int] == p.conflicts@[i as int]@);
        let short = fit(p.conflicts[i].as_str(), width);
        lines.put(Line::of(both("  ", short.as_str()), Look::plain()));
        i += 1;
        assert(lines@ =~= was + conflict_lines(all, i as int, width as int));
    }
    if total > shown {
        let more: usize = total - shown;
        lines.put(Line::of(count("  … and ", more as u128, " more"), Look::tint(Color::Muted)));
    }
    assert(lines@ =~= was + overwrite_files(p@, room as int, width as int));
}

fn overwrite_keys(queued: bool, width: u16) -> (r: Line)
    ensures
        r@ == pages::keys_line(overwrite_hints(queued), width as int),
{
    let mut items: Vec<(&'static str, &'static str)> = Vec::new();
    items.push(("Y", "Overwrite"));
    if queued {
        items.push(("A", "Overwrite All"));
        items.push(("S", "Skip"));
    }
    items.push(("N", "Cancel"));
    assert(ui::hint_views(items@) =~= overwrite_hints(queued));
    hints(&items, width)
}

fn put_tail(lines: &mut Lines, run: &Option<Run>, width: u16)
    ensures
        final(lines)@ == old(lines)@ + overwrite_tail(app::opt(*run), width as int),
{
    let ghost was = lines@;
    lines.skip();
    let mut queued = false;
    if let Some(r) = run {
        if r.total > 1 {
            queued = true;
            let mut text = count("Job ", r.done as u128 + 1, " of ");
            text.append(count("", r.total as u128, ".").as_str());
            lines.put(Line::of(text, Look::tint(Color::Muted)));
            lines.skip();
        }
    }
    lines.put(overwrite_keys(queued, width));
    assert(lines@ =~= was + overwrite_tail(app::opt(*run), width as int));
}

/// The overwrite prompt on a screen of `width` by `height`.
pub fn overwrite(p: &Pending, run: &Option<Run>, width: u16, height: u16) -> (r: Prompt)
    ensures
        r@ == overwrite_of(p@, app::opt(*run), width as int, height as int),
{
    let wide: u16 = if 76 < width {
        76
    } else {
        width
    };
    let space: u16 = minus(wide as usize, 2) as u16;
    let inner: u16 = if space > 1 {
        space
    } else {
        1
    };
    let left: usize = minus(height as usize, 12);
    let room: usize = if left > 1 {
        left
    } else {
        1
    };
    let mut lines = Lines::new();
    let label = p.label();
    lines.put(
        Line::of(both(label.as_str(), " is already in the library."), Look::strong(Color::Yellow)),
    );
    lines.skip();
    assert(p@.conflicts.len() == p.conflicts@.len());
    lines.put(
        Line::of(
            count("Importing it replaces ", p.conflicts.len() as u128, " file(s):"),
            Look::tint(Color::Muted),
        ),
    );
    assert(lines@ =~= overwrite_head(p@));
    put_files(&mut lines, p, room, minus(inner as usize, 2));
    put_tail(&mut lines, run, inner);
    let panel = Panel { title: " Already In The Library ".to_string(), lines };
    enclose(panel, 76, width, height)
}

// -------------------------------------------------------- startup validation

/// The names of folders, without those that have none.
pub open spec fn folder_names(list: Seq<Seq<char>>) -> Seq<Seq<char>>
    decreases list.len(),
{
    if list.len() == 0 {
        Seq::empty()
    } else {
        match paths::leaf_of(list.last()) {
            Some(name) => folder_names(list.drop_last()).push(name),
            None => folder_names(list.drop_last()),
        }
    }
}

/// The folders that come with a location: those the library is made of with its
/// root.
pub open spec fn comes_with(cfg: config::ConfigView, field: Field) -> Seq<Seq<char>> {
    if field == Field::LibraryRoot {
        folder_names(config::folders(cfg).skip(1))
    } else {
        Seq::empty()
    }
}

pub open spec fn validate_hints(remaining: int) -> Seq<(Seq<char>, Seq<char>)> {
    if remaining > 1 {
        seq![
            ("Y"@, "Create"@),
            ("A"@, "Create All"@),
            ("C"@, "Change Path"@),
            ("Q"@, "Quit"@),
        ]
    } else {
        seq![("Y"@, "Create"@), ("C"@, "Change Path"@), ("Q"@, "Quit"@)]
    }
}

/// The location that is missing, and what it is for.
pub open spec fn missing_lines(cfg: config::ConfigView, field: Field) -> Seq<Seq<ui::SpanView>> {
    seq![
        ui::said("Directory does not exist:"@, ui::strong(Color::Yellow)),
        ui::gap(),
        ui::said("  "@ + field.shown(cfg), ui::plain()),
        home::muted("  ("@ + field.caption() + ")"@),
        ui::gap(),
    ]
}

pub open spec fn inside_lines(names: Seq<Seq<char>>) -> Seq<Seq<ui::SpanView>> {
    if names.len() == 0 {
        Seq::empty()
    } else {
        seq![
            home::muted("[Y] creates it and the library folders inside it:"@),
            ui::said("  "@ + text::join(names, ", "@), ui::plain()),
            ui::gap(),
        ]
    }
}

pub open spec fn remaining_lines(remaining: int) -> Seq<Seq<ui::SpanView>> {
    if remaining > 1 {
        seq![
            home::muted(
                steps::counted(""@, remaining - 1, " more location needs attention."@),
            ),
            ui::gap(),
        ]
    } else {
        Seq::empty()
    }
}

/// The question about a missing location, on a screen of `width` by `height`.
pub open spec fn validate_of(
    cfg: config::ConfigView,
    field: Field,
    remaining: int,
    width: int,
    height: int,
) -> PromptView {
    let keys = pages::keys_line(
        validate_hints(remaining),
        ui::less(ui::capped(74, width), 2),
    );
    boxed(
        ui::PanelView {
            title: " Startup Validation "@,
            lines: (missing_lines(cfg, field) + inside_lines(comes_with(cfg, field))
                + remaining_lines(remaining)).push(keys),
        },
        74,
        width,
        height,
    )
}

fn names_inside(cfg: &Config, field: Field) -> (r: Vec<String>)
    ensures
        text::views(r@) == comes_with(cfg@, field),
{
    let mut out: Vec<String> = Vec::new();
    assert(text::views(out@) =~= Seq::<Seq<char>>::empty());
    if field != Field::LibraryRoot {
        return out;
    }
    let dirs = cfg.library_dirs();
    let ghost all = text::views(dirs@);
    let ghost inner = all.skip(1);
    assert(all.len() == dirs@.len());
    let mut i: usize = 1;
    assert(inner.take(0) =~= Seq::<Seq<char>>::empty());
    while i < dirs.len()
        invariant
            1 <= i <= dirs@.len(),
            all == text::views(dirs@),
            all.len() == dirs@.len(),
            inner == all.skip(1),
            text::views(out@) == folder_names(inner.take(i - 1)),
        decreases dirs.len() - i,
    {
        assert(inner.take(i as int).drop_last() =~= inner.take(i - 1));
        assert(inner.take(i as int).last() == dirs@[i as int]@);
        if let Some(name) = file_name(dirs[i].as_str()) {
            let ghost was = text::views(out@);
            out.push(name);
            assert(text::views(out@) =~= was.push(name@));
        }
        i += 1;
    }
    assert(inner.take(i - 1) =~= inner);
    out
}

fn validate_keys(remaining: usize, width: u16) -> (r: Line)
    ensures
        r@ == pages::keys_line(validate_hints(remaining as int), width as int),
{
    let mut items: Vec<(&'static str, &'static str)> = Vec::new();
    items.push(("Y", "Create"));
    if remaining > 1 {
        items.push(("A", "Create All"));
    }
    items.push(("C", "Change Path"));
    items.push(("Q", "Quit"));
    assert(ui::hint_views(items@) =~= validate_hints(remaining as int));
    hints(&items, width)
}

fn put_inside(lines: &mut Lines, names: &Vec<String>)
    ensures
        final(lines)@ == old(lines)@ + inside_lines(text::views(names@)),
{
    let ghost was = lines@;
    assert(text::views(names@).len() == names@.len());
    if names.len() > 0 {
        lines.say("[Y] creates it and the library folders inside it:", Look::tint(Color::Muted));
        let list = joined(names, ", ");
        lines.put(Line::of(both("  ", list.as_str()), Look::plain()));
        lines.skip();
    }
    assert(lines@ =~= was + inside_lines(text::views(names@)));
}

fn put_remaining(lines: &mut Lines, remaining: usize)
    ensures
        final(lines)@ == old(lines)@ + remaining_lines(remaining as int),
{
    let ghost was = lines@;
    if remaining > 1 {
        let more: usize = remaining - 1;
        lines.put(
            Line::of(
                count("", more as u128, " more location needs attention."),
                Look::tint(Color::Muted),
            ),
        );
        lines.skip();
    }
    assert(lines@ =~= was + remaining_lines(remaining as int));
}

/// The question about a missing location, on a screen of `width` by `height`, if
/// there is one to ask. Only the two locations the user chooses are ever asked
/// about; the folders inside the library come with the root, and this says so.
pub fn validate(v: &Validate, cfg: &Config, width: u16, height: u16) -> (r: Option<Prompt>)
    ensures
        match r {
            Some(p) => v@.index < v@.missing.len() && p@ == validate_of(
                cfg@,
                v@.missing[v@.index],
                v@.missing.len() as int,
                width as int,
                height as int,
            ),
            None => v@.index >= v@.missing.len(),
        },
{
    if v.index >= v.missing.len() {
        return None;
    }
    let field = v.missing[v.index];
    let remaining: usize = v.missing.len();
    let wide: u16 = if 74 < width {
        74
    } else {
        width
    };
    let mut lines = Lines::new();
    lines.say("Directory does not exist:", Look::strong(Color::Yellow));
    lines.skip();
    let shown = field.display(cfg);
    lines.put(Line::of(both("  ", shown.as_str()), Look::plain()));
    let mut caption = both("  (", field.label());
    caption.append(")");
    lines.put(Line::of(caption, Look::tint(Color::Muted)));
    lines.skip();
    assert(lines@ =~= missing_lines(cfg@, field));
    let names = names_inside(cfg, field);
    put_inside(&mut lines, &names);
    put_remaining(&mut lines, remaining);
    lines.put(validate_keys(remaining, minus(wide as usize, 2) as u16));
    let panel = Panel { title: " Startup Validation ".to_string(), lines };
    Some(enclose(panel, 74, width, height))
}

/// A prompt never leaves the screen.
pub proof fn lemma_on_screen(panel: ui::PanelView, wide: int, tall: int, width: int, height: int)
    requires
        0 <= wide,
        0 <= tall,
        0 <= width,
        0 <= height,
    ensures
        0 <= centered(panel, wide, tall, width, height).x,
        0 <= centered(panel, wide, tall, width, height).y,
        centered(panel, wide, tall, width, height).x + centered(
            panel,
            wide,
            tall,
            width,
            height,
        ).width <= width,
        centered(panel, wide, tall, width, height).y + centered(
            panel,
            wide,
            tall,
            width,
            height,
        ).height <= height,
{
}

} // verus!
