//! The Settings screen, and the folder browser that fills it in.

use vstd::prelude::*;
use vstd::string::*;

use crate::app;
use crate::app::keys;
use crate::app::keys::{either, lengthen, shorten, step_back, step_on};
use crate::app::projects;
use crate::app::steps;
use crate::app::steps::both;
use crate::app::{App, Key, Saving, Screen, Settings, Step};
use crate::config;
use crate::config::{project_name_for, resolve_in, Config, Field, Kind};
use crate::paths;
use crate::paths::{file_name, join_path, parent};
use crate::picker;
use crate::picker::Target;
use crate::text;
use crate::text::{joined, same, to_lowercase, trimmed};

verus! {

// ----------------------------------------------------------------- the draft

/// The captions of fields, in a row.
pub open spec fn captions(fields: Seq<Field>) -> Seq<char> {
    text::join(fields.map_values(|f: Field| f.caption()), ", "@)
}

fn write_captions(fields: &Vec<Field>) -> (r: String)
    ensures
        r@ == captions(fields@),
{
    let mut labels: Vec<String> = Vec::new();
    let mut i: usize = 0;
    while i < fields.len()
        invariant
            i <= fields@.len(),
            labels@.len() == i,
            forall|j: int| 0 <= j < i ==> (#[trigger] labels@[j])@ == fields@[j].caption(),
        decreases fields.len() - i,
    {
        labels.push(fields[i].label().to_string());
        i += 1;
    }
    assert(text::views(labels@) =~= fields@.map_values(|f: Field| f.caption()));
    joined(&labels, ", ")
}

/// What is said of fields that were pulled back inside the root.
pub open spec fn contain_note(strays: Seq<Field>) -> Seq<char> {
    if strays.len() == 0 {
        Seq::empty()
    } else {
        "A library lives under its root, so this went inside it: "@ + captions(strays)
    }
}

/// What is said of fields that followed the root.
pub open spec fn rebase_note(moved: Seq<Field>) -> Seq<char> {
    if moved.len() == 0 {
        "Nothing else was inside the old root, so no other path moved."@
    } else {
        "Moved with the root: "@ + captions(moved)
    }
}

/// A field of the draft set to a path, and the draft kept inside its root.
pub open spec fn field_set(s: app::SettingsView, field: Field, value: Seq<char>) -> app::SettingsView {
    let draft = field.put(s.draft, value);
    app::SettingsView {
        draft: config::contained(draft),
        dirty: true,
        note: contain_note(config::strays(draft)),
        ..s
    }
}

/// A new library root drags every path inside the old tree along with it.
pub open spec fn root_set(s: app::SettingsView, root: Seq<char>) -> app::SettingsView {
    app::SettingsView {
        draft: config::rebased(s.draft, root),
        dirty: true,
        note: rebase_note(config::rebase_moves(s.draft, root)),
        ..s
    }
}

pub open spec fn is_yes(word: Seq<char>) -> bool {
    let w = text::lower(word);
    w == "true"@ || w == "yes"@ || w == "1"@ || w == "on"@
}

/// A typed value taken over, with `~` expanded and relative input resolved.
pub open spec fn committed(
    s: app::SettingsView,
    field: Field,
    typed: Seq<char>,
    config_path: Seq<char>,
    home: Seq<char>,
) -> app::SettingsView {
    let word = text::trim(typed);
    if field.sort_of() == Kind::Bool {
        app::SettingsView { draft: field.flagged(s.draft, is_yes(word)), dirty: true, ..s }
    } else if word.len() == 0 {
        // Clearing an optional file field disables it; a required directory
        // keeps its previous value rather than becoming empty.
        if field == Field::MergedSymbolLib {
            app::SettingsView { draft: field.put(s.draft, Seq::empty()), dirty: true, ..s }
        } else {
            s
        }
    } else {
        let value = config::resolved(word, config::anchor_of(config_path, home), home);
        if field == Field::LibraryRoot {
            root_set(s, value)
        } else {
            field_set(s, field, value)
        }
    }
}

fn contain_draft(draft: &mut Config) -> (r: String)
    ensures
        final(draft)@ == config::contained(old(draft)@),
        r@ == contain_note(config::strays(old(draft)@)),
{
    let moved = draft.contain();
    if moved.len() == 0 {
        let none = String::new();
        assert(none@ =~= Seq::<char>::empty());
        return none;
    }
    let list = write_captions(&moved);
    both("A library lives under its root, so this went inside it: ", list.as_str())
}

fn set_field(settings: Settings, field: Field, value: String) -> (r: Settings)
    ensures
        r@ == field_set(settings@, field, value@),
{
    let mut s = settings;
    field.set_path(&mut s.draft, value);
    s.dirty = true;
    s.note = contain_draft(&mut s.draft);
    s
}

fn rebase_draft(settings: Settings, root: &str) -> (r: Settings)
    ensures
        r@ == root_set(settings@, root@),
{
    let mut s = settings;
    let moved = s.draft.rebase(root);
    s.note = if moved.len() == 0 {
        "Nothing else was inside the old root, so no other path moved.".to_string()
    } else {
        let list = write_captions(&moved);
        both("Moved with the root: ", list.as_str())
    };
    s.dirty = true;
    s
}

fn says_yes(word: &str) -> (r: bool)
    ensures
        r == is_yes(word@),
{
    let w = to_lowercase(word);
    same(w.as_str(), "true") || same(w.as_str(), "yes") || same(w.as_str(), "1") || same(
        w.as_str(),
        "on",
    )
}

/// Applies a typed value, expanding `~` and resolving relative input.
fn commit_field(settings: Settings, field: Field, typed: &str, config_path: &str, home: &str) -> (r:
    Settings)
    ensures
        r@ == committed(settings@, field, typed@, config_path@, home@),
{
    let mut s = settings;
    let word = trimmed(typed);
    if field.kind() == Kind::Bool {
        field.set_bool(&mut s.draft, says_yes(word.as_str()));
        s.dirty = true;
        return s;
    }
    if word.as_str().is_empty() {
        if field == Field::MergedSymbolLib {
            let none = String::new();
            assert(none@ =~= Seq::<char>::empty());
            field.set_path(&mut s.draft, none);
            s.dirty = true;
        }
        return s;
    }
    let base = match parent(config_path) {
        Some(dir) => dir,
        None => home.to_string(),
    };
    let value = resolve_in(word.as_str(), base.as_str(), home);
    if field == Field::LibraryRoot {
        rebase_draft(s, value.as_str())
    } else {
        set_field(s, field, value)
    }
}

// ------------------------------------------------------------------ the keys

/// The state with the Settings screen changed.
pub open spec fn editing(a: app::AppView, s: app::SettingsView) -> app::AppView {
    app::AppView { settings: Some(s), ..a }
}

/// The field under the cursor.
pub open spec fn field_at(cursor: int) -> Field {
    Field::ALL@[cursor]
}

/// Text entry swallows most keys.
pub open spec fn entry_key(
    a: app::AppView,
    s: app::SettingsView,
    buffer: Seq<char>,
    k: Key,
) -> app::AppView {
    match k {
        Key::Char(c) => editing(a, app::SettingsView { editing: Some(buffer.push(c)), ..s }),
        Key::Backspace => editing(
            a,
            app::SettingsView { editing: Some(keys::shortened(buffer)), ..s },
        ),
        Key::Enter => editing(
            a,
            committed(
                app::SettingsView { editing: None, ..s },
                field_at(s.cursor),
                buffer,
                a.config_path,
                a.home,
            ),
        ),
        Key::Esc => editing(a, app::SettingsView { editing: None, ..s }),
        _ => editing(a, app::SettingsView { editing: Some(buffer), ..s }),
    }
}

/// A switch is flipped; a path is opened for typing. A disabled optional path
/// starts from an empty buffer.
pub open spec fn field_edited(a: app::AppView, s: app::SettingsView, space: bool) -> app::AppView {
    let field = field_at(s.cursor);
    if field.sort_of() == Kind::Bool {
        editing(
            a,
            app::SettingsView {
                draft: field.flagged(s.draft, !field.flag(s.draft)),
                dirty: true,
                ..s
            },
        )
    } else if !space {
        editing(
            a,
            app::SettingsView {
                editing: Some(
                    match field.get(s.draft) {
                        Some(p) => p,
                        None => ""@,
                    },
                ),
                ..s
            },
        )
    } else {
        editing(a, s)
    }
}

/// Where browsing for a field starts. For a file field the folder it is in is
/// chosen; the file name is preserved on the way back.
pub open spec fn browse_start(
    field: Field,
    draft: config::ConfigView,
    home: Seq<char>,
) -> Seq<char> {
    let start = match field.get(draft) {
        Some(p) => p,
        None => home,
    };
    if field.sort_of() == Kind::File {
        match paths::parent_of(start) {
            Some(up) => up,
            None => home,
        }
    } else {
        start
    }
}

pub open spec fn field_browsed(a: app::AppView, s: app::SettingsView) -> app::AppView {
    let field = field_at(s.cursor);
    if field.sort_of() == Kind::Bool {
        editing(a, s)
    } else {
        app::AppView {
            settings: Some(s),
            todo: a.todo.push(
                app::StepView::Browse {
                    start: browse_start(field, s.draft, a.home),
                    target: Target::Setting(field),
                },
            ),
            ..a
        }
    }
}

pub open spec fn row_key(a: app::AppView, s: app::SettingsView, k: Key) -> app::AppView {
    if k == Key::Esc {
        app::AppView {
            settings: None,
            screen: Screen::Main,
            status: "Settings discarded"@,
            ..a
        }
    } else if k == Key::Tab || k == Key::Down || k == Key::Char('j') {
        editing(a, app::SettingsView { cursor: keys::next_in(s.cursor, 12), ..s })
    } else if k == Key::BackTab || k == Key::Up || k == Key::Char('k') {
        editing(a, app::SettingsView { cursor: keys::before_in(s.cursor, 12), ..s })
    } else if keys::is_either(k, 'e', 'E') || k == Key::Char(' ') {
        field_edited(a, s, k == Key::Char(' '))
    } else if k == Key::Enter {
        field_browsed(a, s)
    } else if keys::is_either(k, 's', 'S') {
        app::AppView {
            settings: None,
            todo: a.todo.push(
                app::StepView::Save { saving: app::SavingView::Settings { settings: s } },
            ),
            ..a
        }
    } else {
        editing(a, s)
    }
}

#[verifier::opaque]
pub open spec fn settings_key(a: app::AppView, k: Key) -> app::AppView {
    match a.settings {
        None => app::AppView { screen: Screen::Main, ..a },
        Some(s) => match s.editing {
            Some(buffer) => entry_key(a, s, buffer, k),
            None => row_key(a, s, k),
        },
    }
}

impl App {
    fn on_key_entry(&mut self, settings: Settings, buffer: String, k: Key)
        requires
            settings@.cursor < 12,
        ensures
            final(self)@ == entry_key(old(self)@, settings@, buffer@, k),
    {
        let mut s = settings;
        match k {
            Key::Char(c) => {
                s.editing = Some(lengthen(buffer.as_str(), c));
                self.settings = Some(s);
            },
            Key::Backspace => {
                s.editing = Some(shorten(buffer.as_str()));
                self.settings = Some(s);
            },
            Key::Enter => {
                let field = Field::ALL[s.cursor];
                s.editing = None;
                let done = commit_field(
                    s,
                    field,
                    buffer.as_str(),
                    self.config_path.as_str(),
                    self.home.as_str(),
                );
                self.settings = Some(done);
            },
            Key::Esc => {
                s.editing = None;
                self.settings = Some(s);
            },
            _ => {
                s.editing = Some(buffer);
                self.settings = Some(s);
            },
        }
    }

    fn edit_field(&mut self, settings: Settings, space: bool)
        requires
            settings@.cursor < 12,
        ensures
            final(self)@ == field_edited(old(self)@, settings@, space),
    {
        let mut s = settings;
        let field = Field::ALL[s.cursor];
        if field.kind() == Kind::Bool {
            field.toggle(&mut s.draft);
            s.dirty = true;
        } else if !space {
            let current = match field.path(&s.draft) {
                Some(p) => p,
                None => "".to_string(),
            };
            s.editing = Some(current);
        }
        self.settings = Some(s);
    }

    fn browse_field(&mut self, settings: Settings)
        requires
            settings@.cursor < 12,
        ensures
            final(self)@ == field_browsed(old(self)@, settings@),
    {
        let s = settings;
        let field = Field::ALL[s.cursor];
        if field.kind() == Kind::Bool {
            self.settings = Some(s);
            return;
        }
        let path = match field.path(&s.draft) {
            Some(p) => p,
            None => self.home.clone(),
        };
        let start = if field.kind() == Kind::File {
            match parent(path.as_str()) {
                Some(up) => up,
                None => self.home.clone(),
            }
        } else {
            path
        };
        self.settings = Some(s);
        self.later(Step::Browse { start, target: Target::Setting(field) });
    }

    fn on_key_row(&mut self, settings: Settings, k: Key)
        requires
            settings@.cursor < 12,
        ensures
            final(self)@ == row_key(app::AppView { settings: None, ..old(self)@ }, settings@, k),
    {
        self.settings = None;
        let mut s = settings;
        if k == Key::Esc {
            self.screen = Screen::Main;
            self.status = "Settings discarded".to_string();
        } else if k == Key::Tab || k == Key::Down || k == Key::Char('j') {
            s.cursor = step_on(s.cursor, 12);
            self.settings = Some(s);
        } else if k == Key::BackTab || k == Key::Up || k == Key::Char('k') {
            s.cursor = step_back(s.cursor, 12);
            self.settings = Some(s);
        } else if either(k, 'e', 'E') || k == Key::Char(' ') {
            self.edit_field(s, k == Key::Char(' '));
        } else if k == Key::Enter {
            self.browse_field(s);
        } else if either(k, 's', 'S') {
            self.later(Step::Save { saving: Saving::Settings { settings: s } });
        } else {
            self.settings = Some(s);
        }
    }

    pub(crate) fn on_key_settings(&mut self, k: Key)
        requires
            old(self)@.settings matches Some(s) ==> s.cursor < 12,
        ensures
            final(self)@ == settings_key(old(self)@, k),
    {
        reveal(settings_key);
        let ghost a = self@;
        match self.settings.take() {
            None => {
                self.screen = Screen::Main;
            },
            Some(settings) => {
                let ghost seen = settings@;
                let mut s = settings;
                match s.editing.take() {
                    Some(buffer) => {
                        let ghost typed = buffer@;
                        self.on_key_entry(s, buffer, k);
                        proof {
                            lemma_entry(a, seen, typed, k);
                        }
                    },
                    None => {
                        self.on_key_row(s, k);
                        proof {
                            lemma_row(a, seen, k);
                        }
                    },
                }
            },
        }
    }
}

proof fn lemma_entry(a: app::AppView, s: app::SettingsView, buffer: Seq<char>, k: Key)
    ensures
        entry_key(
            app::AppView { settings: None, ..a },
            app::SettingsView { editing: None, ..s },
            buffer,
            k,
        ) == entry_key(a, s, buffer, k),
{
}

proof fn lemma_row(a: app::AppView, s: app::SettingsView, k: Key)
    ensures
        row_key(app::AppView { settings: None, ..a }, s, k) == row_key(a, s, k),
{
}

// ---------------------------------------------------------------- the picker

/// The path a chosen folder stands for. The picker returns a folder; a file
/// field keeps its name.
pub open spec fn picked_path(field: Field, draft: config::ConfigView, chosen: Seq<char>) -> Seq<
    char,
> {
    if field.sort_of() == Kind::File {
        match field.get(draft) {
            Some(p) => match paths::leaf_of(p) {
                Some(name) => paths::below(chosen, name),
                None => chosen,
            },
            None => chosen,
        }
    } else {
        chosen
    }
}

/// A setting takes the chosen folder.
pub open spec fn setting_picked(a: app::AppView, field: Field, chosen: Seq<char>) -> app::AppView {
    app::AppView {
        settings: match a.settings {
            Some(s) => Some(
                if field == Field::LibraryRoot {
                    root_set(s, chosen)
                } else {
                    field_set(s, field, picked_path(field, s.draft, chosen))
                },
            ),
            None => None,
        },
        screen: Screen::Settings,
        ..a
    }
}

/// `cfg` with one location at the chosen folder. Repointing the root moves the
/// library with it, exactly as it does everywhere else.
pub open spec fn relocated(cfg: config::ConfigView, field: Field, chosen: Seq<char>) ->
    config::ConfigView {
    if field == Field::LibraryRoot {
        config::rebased(cfg, chosen)
    } else {
        config::contained(field.put(cfg, chosen))
    }
}

/// A missing location takes the chosen folder, in use and on file.
pub open spec fn location_picked(a: app::AppView, field: Field, chosen: Seq<char>) -> app::AppView {
    app::AppView {
        config: relocated(a.config, field, chosen),
        stored: relocated(a.stored, field, chosen),
        todo: a.todo.push(app::StepView::Save { saving: app::SavingView::Validation }),
        ..a
    }
}

/// Browsing to a folder both moves there and bookmarks it, so getting back is
/// one keypress next time.
pub open spec fn root_picked(a: app::AppView, chosen: Seq<char>) -> app::AppView {
    let there = config::rebased(a.config, chosen);
    let name = config::unique_name(there, config::suggested_name(chosen));
    projects::relocated(
        projects::bookmarked(
            app::AppView { stored: config::rebased(a.stored, chosen), ..a },
            config::remembered(there, name),
        ),
        "Switched to "@ + name,
        config::rebase_moves(a.config, chosen).len() as int,
    )
}

pub open spec fn picked(a: app::AppView, target: Target, chosen: Seq<char>) -> app::AppView {
    match target {
        Target::Setting(field) => setting_picked(a, field, chosen),
        Target::Validation(field) => location_picked(a, field, chosen),
        Target::ProjectRoot => root_picked(a, chosen),
    }
}

/// The screen a picker came from.
pub open spec fn screen_behind(target: Target) -> Screen {
    match target {
        Target::Setting(_) => Screen::Settings,
        Target::Validation(_) => Screen::Validate,
        Target::ProjectRoot => Screen::Projects,
    }
}

/// The picker shows another folder as soon as it has been listed.
pub open spec fn entering(a: app::AppView, p: picker::PickerView, dir: Seq<char>) -> app::AppView {
    app::AppView {
        picker: Some(picker::PickerView { cwd: dir, ..p }),
        todo: a.todo.push(app::StepView::List { path: dir }),
        ..a
    }
}

#[verifier::opaque]
pub open spec fn picker_key(a: app::AppView, k: Key) -> app::AppView {
    match a.picker {
        None => app::AppView { screen: Screen::Main, ..a },
        Some(p) => if k == Key::Down || k == Key::Char('j') {
            app::AppView { picker: Some(picker::stepped(p, 1)), ..a }
        } else if k == Key::Up || k == Key::Char('k') {
            app::AppView { picker: Some(picker::stepped(p, -1)), ..a }
        } else if k == Key::Enter {
            if p.selected < p.entries.len() {
                entering(a, p, p.entries[p.selected])
            } else {
                a
            }
        } else if k == Key::Backspace {
            match paths::parent_of(p.cwd) {
                Some(up) => entering(a, p, up),
                None => a,
            }
        } else if k == Key::Char(' ') {
            picked(app::AppView { picker: None, ..a }, p.target, p.cwd)
        } else if k == Key::Esc {
            app::AppView { picker: None, screen: screen_behind(p.target), ..a }
        } else {
            a
        },
    }
}

fn relocate(cfg: &mut Config, field: Field, chosen: &str)
    ensures
        final(cfg)@ == relocated(old(cfg)@, field, chosen@),
{
    if field == Field::LibraryRoot {
        let _ = cfg.rebase(chosen);
    } else {
        field.set_path(cfg, chosen.to_string());
        let _ = cfg.contain();
    }
}

fn path_picked(field: Field, draft: &Config, chosen: &str) -> (r: String)
    ensures
        r@ == picked_path(field, draft@, chosen@),
{
    if field.kind() == Kind::File {
        if let Some(p) = field.path(draft) {
            if let Some(name) = file_name(p.as_str()) {
                return join_path(chosen, name.as_str());
            }
        }
    }
    chosen.to_string()
}

impl App {
    fn pick_setting(&mut self, field: Field, chosen: &str)
        ensures
            final(self)@ == setting_picked(old(self)@, field, chosen@),
    {
        if let Some(s) = self.settings.take() {
            let done = if field == Field::LibraryRoot {
                rebase_draft(s, chosen)
            } else {
                let value = path_picked(field, &s.draft, chosen);
                set_field(s, field, value)
            };
            self.settings = Some(done);
        }
        self.screen = Screen::Settings;
    }

    fn pick_location(&mut self, field: Field, chosen: &str)
        ensures
            final(self)@ == location_picked(old(self)@, field, chosen@),
    {
        relocate(&mut self.config, field, chosen);
        relocate(&mut self.stored, field, chosen);
        self.later(Step::Save { saving: Saving::Validation });
    }

    fn pick_root(&mut self, chosen: &str)
        ensures
            final(self)@ == root_picked(old(self)@, chosen@),
    {
        let moved = self.config.rebase(chosen);
        let _ = self.stored.rebase(chosen);
        let base = project_name_for(chosen);
        let name = self.config.unique_project_name(base.as_str());
        let _ = self.config.remember_project(name.as_str());
        self.keep_projects();
        let what = both("Switched to ", name.as_str());
        self.after_location_change(what.as_str(), moved.len());
    }

    fn accept_pick(&mut self, target: Target, chosen: &str)
        ensures
            final(self)@ == picked(old(self)@, target, chosen@),
    {
        match target {
            Target::Setting(field) => self.pick_setting(field, chosen),
            Target::Validation(field) => self.pick_location(field, chosen),
            Target::ProjectRoot => self.pick_root(chosen),
        }
    }

    pub(crate) fn on_key_picker(&mut self, k: Key)
        requires
            old(self)@.picker matches Some(p) ==> picker::is_valid(p),
        ensures
            final(self)@ == picker_key(old(self)@, k),
    {
        reveal(picker_key);
        match self.picker.take() {
            None => {
                self.screen = Screen::Main;
            },
            Some(taken) => {
                let mut p = taken;
                if k == Key::Down || k == Key::Char('j') {
                    p.move_by(1);
                    self.picker = Some(p);
                } else if k == Key::Up || k == Key::Char('k') {
                    p.move_by(-1);
                    self.picker = Some(p);
                } else if k == Key::Enter {
                    let dir = p.open();
                    self.picker = Some(p);
                    if let Some(path) = dir {
                        self.later(Step::List { path });
                    }
                } else if k == Key::Backspace {
                    let dir = p.parent();
                    self.picker = Some(p);
                    if let Some(path) = dir {
                        self.later(Step::List { path });
                    }
                } else if k == Key::Char(' ') {
                    let chosen = p.selection();
                    self.accept_pick(p.target, chosen.as_str());
                } else if k == Key::Esc {
                    self.screen = match p.target {
                        Target::Setting(_) => Screen::Settings,
                        Target::Validation(_) => Screen::Validate,
                        Target::ProjectRoot => Screen::Projects,
                    };
                } else {
                    self.picker = Some(p);
                }
            },
        }
    }
}

} // verus!
