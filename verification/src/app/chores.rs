//! What the keys of the settings, projects, folder and startup screens lead to,
//! and what the replies to them change.

use vstd::prelude::*;
use vstd::string::*;

use crate::app;
use crate::app::deeds;
use crate::app::keys;
use crate::app::panes;
use crate::app::projects;
use crate::app::prompts;
use crate::app::settings;
use crate::app::steps;
use crate::app::{Key, KeyPress, Screen};
use crate::config;
use crate::config::Field;
use crate::manifest;
use crate::paths;
use crate::picker;
use crate::picker::Target;
use crate::text;

verus! {

// ----------------------------------------------------------------- settings

/// The Settings screen waits for a key, with the cursor on `field` and nothing
/// being typed.
pub open spec fn on_row(a: app::AppView, s: app::SettingsView, field: Field) -> bool {
    &&& deeds::is_up(a, Screen::Settings)
    &&& a.settings == Some(s)
    &&& s.editing is None
    &&& 0 <= s.cursor < 12
    &&& Field::ALL@[s.cursor] == field
}

/// The rows of the Settings screen, from the top.
pub proof fn lemma_rows()
    ensures
        Field::ALL@ == seq![
            Field::LibraryRoot,
            Field::DownloadDir,
            Field::SymbolDir,
            Field::FootprintDir,
            Field::ModelDir,
            Field::TempDir,
            Field::ArchiveDir,
            Field::MergedSymbolLib,
            Field::ManifestPath,
            Field::PerPartFootprintDirs,
            Field::BackupBeforeOverwrite,
            Field::DeleteZip,
        ],
{
}

pub open spec fn is_edit(key: Key) -> bool {
    key == Key::Char('e') || key == Key::Char('E')
}

/// A switch is flipped by `E` and by the space bar: the one under the cursor, in
/// the draft, and no other.
pub proof fn lemma_flipped(a: app::AppView, s: app::SettingsView, field: Field, key: Key)
    requires
        on_row(a, s, field),
        is_edit(key) || key == Key::Char(' '),
    ensures
        field == Field::PerPartFootprintDirs ==> deeds::only_shows(
            a,
            key,
            app::AppView {
                settings: Some(
                    app::SettingsView {
                        draft: config::ConfigView {
                            per_part_footprint_dirs: !s.draft.per_part_footprint_dirs,
                            ..s.draft
                        },
                        dirty: true,
                        ..s
                    },
                ),
                ..a
            },
        ),
        field == Field::BackupBeforeOverwrite ==> deeds::only_shows(
            a,
            key,
            app::AppView {
                settings: Some(
                    app::SettingsView {
                        draft: config::ConfigView {
                            backup_before_overwrite: !s.draft.backup_before_overwrite,
                            ..s.draft
                        },
                        dirty: true,
                        ..s
                    },
                ),
                ..a
            },
        ),
        field == Field::DeleteZip ==> deeds::only_shows(
            a,
            key,
            app::AppView {
                settings: Some(
                    app::SettingsView {
                        draft: config::ConfigView {
                            delete_zip_after_import: !s.draft.delete_zip_after_import,
                            ..s.draft
                        },
                        dirty: true,
                        ..s
                    },
                ),
                ..a
            },
        ),
{
    reveal(keys::screen_key);
    reveal(settings::settings_key);
}

/// A path is opened for typing by `E`, and starts from what it is now; a library
/// that is turned off starts from nothing. The space bar opens no path.
pub proof fn lemma_opened_for_typing(a: app::AppView, s: app::SettingsView, field: Field, key: Key)
    requires
        on_row(a, s, field),
        is_edit(key),
        field != Field::PerPartFootprintDirs && field != Field::BackupBeforeOverwrite && field
            != Field::DeleteZip,
    ensures
        deeds::only_shows(
            a,
            key,
            app::AppView {
                settings: Some(
                    app::SettingsView {
                        editing: Some(
                            match field.get(s.draft) {
                                Some(path) => path,
                                None => ""@,
                            },
                        ),
                        ..s
                    },
                ),
                ..a
            },
        ),
        deeds::only_shows(a, Key::Char(' '), a),
{
    reveal(keys::screen_key);
    reveal(settings::settings_key);
}

/// What is typed into a path is kept aside until `Enter`; `Esc` drops it.
pub proof fn lemma_path_typed(a: app::AppView, s: app::SettingsView, typed: Seq<char>, c: char)
    requires
        deeds::is_up(a, Screen::Settings),
        a.settings == Some(s),
        s.editing == Some(typed),
    ensures
        deeds::only_shows(
            a,
            Key::Char(c),
            app::AppView {
                settings: Some(app::SettingsView { editing: Some(typed.push(c)), ..s }),
                ..a
            },
        ),
        typed.len() > 0 ==> deeds::only_shows(
            a,
            Key::Backspace,
            app::AppView {
                settings: Some(app::SettingsView { editing: Some(typed.drop_last()), ..s }),
                ..a
            },
        ),
        deeds::only_shows(
            a,
            Key::Esc,
            app::AppView { settings: Some(app::SettingsView { editing: None, ..s }), ..a },
        ),
{
    reveal(keys::screen_key);
    reveal(settings::settings_key);
}

proof fn lemma_commit(a: app::AppView, s: app::SettingsView, typed: Seq<char>)
    requires
        deeds::is_up(a, Screen::Settings),
        a.settings == Some(s),
        s.editing == Some(typed),
    ensures
        keys::handled(a, deeds::plain(Key::Enter)) == (
            settings::editing(
                a,
                settings::committed(
                    app::SettingsView { editing: None, ..s },
                    settings::field_at(s.cursor),
                    typed,
                    a.config_path,
                    a.home,
                ),
            ),
            Seq::<app::EffectView>::empty(),
        ),
{
    reveal(keys::screen_key);
    reveal(settings::settings_key);
}

/// `Enter` takes a typed path over into the draft, absolute, at the field under
/// the cursor: the ZIP folder as it is, the library root with everything in it,
/// and every other path as far as it stays inside the root. Nothing but blanks
/// leaves the path as it was, and turns the merged library off.
#[verifier::rlimit(40)]
pub proof fn lemma_path_taken(a: app::AppView, s: app::SettingsView, typed: Seq<char>, field: Field)
    requires
        deeds::is_up(a, Screen::Settings),
        a.settings == Some(s),
        s.editing == Some(typed),
        0 <= s.cursor < 12,
        Field::ALL@[s.cursor] == field,
        field != Field::PerPartFootprintDirs && field != Field::BackupBeforeOverwrite && field
            != Field::DeleteZip,
    ensures
        deeds::asked(a, Key::Enter).len() == 0,
        deeds::after(a, Key::Enter).config == a.config,
        deeds::after(a, Key::Enter).settings matches Some(t) && {
            let word = text::trim(typed);
            let value = config::resolved(word, config::anchor_of(a.config_path, a.home), a.home);
            &&& t.editing is None
            &&& t.cursor == s.cursor
            &&& word.len() > 0 ==> t.dirty
            &&& word.len() > 0 && field == Field::DownloadDir ==> t.draft == config::contained(
                config::ConfigView { download_dir: value, ..s.draft },
            ) && t.draft.download_dir == value
            &&& word.len() > 0 && field == Field::LibraryRoot ==> t.draft == config::rebased(
                s.draft,
                value,
            ) && t.draft.library_root == value
            &&& word.len() > 0 && config::inside().contains(field) && value.len() > 0
                && paths::within(value, s.draft.library_root) ==> field.get(t.draft) == Some(value)
            &&& word.len() == 0 && field == Field::MergedSymbolLib ==> t.draft == (
            config::ConfigView { merged_symbol_lib: None, ..s.draft })
            &&& word.len() == 0 && field != Field::MergedSymbolLib ==> t.draft == s.draft
        },
{
    let word = text::trim(typed);
    let value = config::resolved(word, config::anchor_of(a.config_path, a.home), a.home);
    lemma_commit(a, s, typed);
    if word.len() > 0 {
        config::lemma_contained(field.put(s.draft, value));
        config::lemma_rebased(s.draft, value);
    }
}

/// `Enter` on a path browses for it, from where it is now, and remembers which
/// row asked. For a file that is the folder it is in.
pub proof fn lemma_browses(a: app::AppView, s: app::SettingsView, field: Field, path: Seq<char>)
    requires
        on_row(a, s, field),
        field.get(s.draft) == Some(path),
        field != Field::PerPartFootprintDirs && field != Field::BackupBeforeOverwrite && field
            != Field::DeleteZip,
    ensures
        ({
            let is_file = field == Field::MergedSymbolLib || field == Field::ManifestPath;
            let start = if is_file {
                match paths::parent_of(path) {
                    Some(up) => up,
                    None => a.home,
                }
            } else {
                path
            };
            &&& deeds::asked(a, Key::Enter) == seq![app::EffectView::Browse { start }]
            &&& deeds::after(a, Key::Enter) == (app::AppView {
                waiting: Some(app::StepView::Browse { start, target: Target::Setting(field) }),
                ..a
            })
        }),
{
    reveal(keys::screen_key);
    reveal(settings::settings_key);
    let b = keys::struck(a, deeds::plain(Key::Enter));
    assert(steps::begun(b).todo =~= a.todo);
    assert(steps::begun(b) == a);
}

/// `S` writes the draft to the configuration file. Once it is written it is the
/// configuration in use, and the main screen comes back.
#[verifier::rlimit(40)]
pub proof fn lemma_saved(a: app::AppView, s: app::SettingsView, field: Field, key: Key)
    requires
        on_row(a, s, field),
        key == Key::Char('s') || key == Key::Char('S'),
    ensures
        deeds::asked(a, key) == seq![app::EffectView::Save { cfg: s.draft, path: a.config_path }],
        ({
            let b = deeds::after(a, key);
            let c = steps::answered(b, app::ReplyView::Saved(Ok(()))).0;
            &&& b.config == a.config && b.settings is None
            &&& c.config == s.draft
            &&& c.stored == s.draft
            &&& c.screen == Screen::Main
            &&& steps::answered(b, app::ReplyView::Saved(Ok(()))).1 == seq![
                app::EffectView::Check {
                    root: s.draft.library_root,
                    download: s.draft.download_dir,
                },
            ]
        }),
{
    reveal(keys::screen_key);
    reveal(settings::settings_key);
    let b = keys::struck(a, deeds::plain(key));
    let saving = app::SavingView::Settings { settings: s };
    assert(b.todo[0] == app::StepView::Save { saving });
    assert(steps::begun(b).todo =~= a.todo);
    let c = deeds::after(a, key);
    let d = steps::replied(c, app::ReplyView::Saved(Ok(())));
    assert(d.todo[0] == app::StepView::Check { clear: false });
}

/// `Esc` drops the draft, and the arrows move through the rows, around the ends.
pub proof fn lemma_settings_moves(a: app::AppView, s: app::SettingsView, field: Field, key: Key)
    requires
        on_row(a, s, field),
    ensures
        deeds::only_shows(
            a,
            Key::Esc,
            app::AppView {
                settings: None,
                screen: Screen::Main,
                status: "Settings discarded"@,
                ..a
            },
        ),
        deeds::is_step(key) ==> deeds::only_shows(
            a,
            key,
            app::AppView {
                settings: Some(
                    app::SettingsView { cursor: deeds::stepped(s.cursor, 12, key), ..s },
                ),
                ..a
            },
        ),
        key == Key::Tab ==> deeds::after(a, key) == deeds::after(a, Key::Down),
        key == Key::BackTab ==> deeds::after(a, key) == deeds::after(a, Key::Up),
{
    reveal(keys::screen_key);
    reveal(settings::settings_key);
    deeds::lemma_around(s.cursor, 12);
}

/// What an edit says it did beyond its own row: the captions of the fields that
/// were pulled in, or that followed the root.
pub proof fn lemma_edit_said(s: app::SettingsView, field: Field, value: Seq<char>)
    ensures
        ({
            let pulled = config::strays(field.put(s.draft, value));
            let note = settings::field_set(s, field, value).note;
            &&& pulled.len() == 0 ==> note.len() == 0
            &&& pulled.len() == 1 ==> note
                == "A library lives under its root, so this went inside it: "@
                + pulled[0].caption()
        }),
        ({
            let moved = config::rebase_moves(s.draft, value);
            let note = settings::root_set(s, value).note;
            &&& moved.len() == 0 ==> note
                == "Nothing else was inside the old root, so no other path moved."@
            &&& moved.len() == 1 ==> note == "Moved with the root: "@ + moved[0].caption()
            &&& moved.len() == 2 ==> note == "Moved with the root: "@ + (moved[0].caption() + ", "@
                + moved[1].caption())
        }),
{
    let pulled = config::strays(field.put(s.draft, value));
    let moved = config::rebase_moves(s.draft, value);
    let a = pulled.map_values(|f: Field| f.caption());
    let b = moved.map_values(|f: Field| f.caption());
    if pulled.len() == 1 {
        assert(text::join(a, ", "@) == a[0]);
    }
    if moved.len() == 1 {
        assert(text::join(b, ", "@) == b[0]);
    }
    if moved.len() == 2 {
        assert(b.drop_last().len() == 1);
        assert(text::join(b.drop_last(), ", "@) == b[0]);
        assert(text::join(b, ", "@) == b[0] + ", "@ + b[1]);
    }
}

// ------------------------------------------------------------------- picker

/// A folder that was opened is the one that is shown, for what asked for it.
pub proof fn lemma_folder_opened(
    a: app::AppView,
    start: Seq<char>,
    target: Target,
    cwd: Seq<char>,
    listing: Result<Seq<picker::SeenView>, Seq<char>>,
)
    requires
        a.todo.len() == 0,
        a.waiting == Some(app::StepView::Browse { start, target }),
    ensures
        ({
            let (b, effects) = steps::answered(a, app::ReplyView::Opened { cwd, listing });
            &&& effects.len() == 0
            &&& b.picker matches Some(p) && {
                &&& p.cwd == cwd
                &&& p.target == target
                &&& p.selected == 0
                &&& listing is Err <==> p.error is Some
                &&& listing is Err ==> p.entries.len() == 0
                &&& listing matches Ok(list) ==> p.entries == picker::entries_of(cwd, list)
                &&& b == (app::AppView {
                    picker: Some(p),
                    screen: Screen::Picker,
                    waiting: None,
                    ..a
                })
            }
        }),
{
}

/// A folder that was listed shows what is in it, from its first row; one that
/// cannot be read says so, by its path.
pub proof fn lemma_folder_listed(
    a: app::AppView,
    p: picker::PickerView,
    path: Seq<char>,
    list: Seq<picker::SeenView>,
    e: Seq<char>,
)
    requires
        a.todo.len() == 0,
        a.waiting == Some(app::StepView::List { path }),
        a.picker == Some(p),
    ensures
        steps::answered(a, app::ReplyView::Listed(Ok(list))) == (
            app::AppView {
                waiting: None,
                picker: Some(
                    picker::PickerView {
                        entries: picker::entries_of(p.cwd, list),
                        selected: 0,
                        error: None,
                        ..p
                    },
                ),
                ..a
            },
            Seq::<app::EffectView>::empty(),
        ),
        steps::answered(a, app::ReplyView::Listed(Err(e))).0.picker == Some(
            picker::PickerView {
                entries: Seq::empty(),
                selected: 0,
                error: Some("cannot open "@ + p.cwd + ": "@ + e),
                ..p
            },
        ),
{
}

/// `Enter` goes into the folder of the highlighted row, `Backspace` to the folder
/// above, and `Esc` back to where browsing began.
#[verifier::rlimit(40)]
pub proof fn lemma_folders_walked(a: app::AppView, p: picker::PickerView, row: int)
    requires
        deeds::is_up(a, Screen::Picker),
        a.picker == Some(p),
        p.selected == row,
    ensures
        0 <= row < p.entries.len() ==> {
            &&& deeds::asked(a, Key::Enter) == seq![app::EffectView::List { path: p.entries[row] }]
            &&& deeds::after(a, Key::Enter) == (app::AppView {
                picker: Some(picker::PickerView { cwd: p.entries[row], ..p }),
                waiting: Some(app::StepView::List { path: p.entries[row] }),
                ..a
            })
        },
        paths::parent_of(p.cwd) matches Some(up) ==> {
            &&& deeds::asked(a, Key::Backspace) == seq![app::EffectView::List { path: up }]
            &&& deeds::after(a, Key::Backspace) == (app::AppView {
                picker: Some(picker::PickerView { cwd: up, ..p }),
                waiting: Some(app::StepView::List { path: up }),
                ..a
            })
        },
        deeds::only_shows(
            a,
            Key::Esc,
            app::AppView {
                picker: None,
                screen: match p.target {
                    Target::Setting(_) => Screen::Settings,
                    Target::Validation(_) => Screen::Validate,
                    Target::ProjectRoot => Screen::Projects,
                },
                ..a
            },
        ),
{
    reveal(keys::screen_key);
    reveal(settings::picker_key);
    let b = keys::struck(a, deeds::plain(Key::Enter));
    if b.todo.len() > 0 {
        assert(steps::begun(b).todo =~= a.todo);
        assert(steps::begun(b) == (app::AppView { picker: b.picker, ..a }));
    }
    let c = keys::struck(a, deeds::plain(Key::Backspace));
    if c.todo.len() > 0 {
        assert(steps::begun(c).todo =~= a.todo);
        assert(steps::begun(c) == (app::AppView { picker: c.picker, ..a }));
    }
}

/// The arrows move through the folders, around the ends.
pub proof fn lemma_folders_browsed(a: app::AppView, p: picker::PickerView, key: Key)
    requires
        deeds::is_up(a, Screen::Picker),
        a.picker == Some(p),
        0 <= p.selected < p.entries.len(),
        deeds::is_step(key),
    ensures
        deeds::only_shows(
            a,
            key,
            app::AppView {
                picker: Some(
                    picker::PickerView {
                        selected: deeds::stepped(p.selected, p.entries.len() as int, key),
                        ..p
                    },
                ),
                ..a
            },
        ),
{
    reveal(keys::screen_key);
    reveal(settings::picker_key);
    deeds::lemma_around(p.selected, p.entries.len() as int);
}

proof fn lemma_taken(a: app::AppView, p: picker::PickerView)
    requires
        deeds::is_up(a, Screen::Picker),
        a.picker == Some(p),
    ensures
        keys::struck(a, deeds::plain(Key::Char(' '))) == settings::picked(
            app::AppView { picker: None, ..a },
            p.target,
            p.cwd,
        ),
{
    reveal(keys::screen_key);
    reveal(settings::picker_key);
}

proof fn lemma_chosen_value(s: app::SettingsView, field: Field, cwd: Seq<char>)
    ensures
        field == Field::DownloadDir ==> settings::field_set(
            s,
            field,
            settings::picked_path(field, s.draft, cwd),
        ).draft.download_dir == cwd,
        config::inside().contains(field) && field != Field::MergedSymbolLib && field
            != Field::ManifestPath && paths::within(cwd, s.draft.library_root) ==> field.get(
            settings::field_set(s, field, settings::picked_path(field, s.draft, cwd)).draft,
        ) == Some(cwd),
        field == Field::ManifestPath ==> (paths::leaf_of(s.draft.manifest_path) matches Some(name)
            ==> (paths::within(paths::below(cwd, name), s.draft.library_root)
            ==> settings::field_set(
            s,
            field,
            settings::picked_path(field, s.draft, cwd),
        ).draft.manifest_path == paths::below(cwd, name))),
{
    let value = settings::picked_path(field, s.draft, cwd);
    let draft = field.put(s.draft, value);
    config::lemma_contained(draft);
    assert(config::inside()[6] == Field::ManifestPath);
    assert(config::inside().contains(Field::ManifestPath));
    if field == Field::ManifestPath {
        assert(field.get(config::contained(draft)) == Some(config::contained(draft).manifest_path));
    }
}

/// The space bar takes the folder that is shown for the setting that asked: the
/// ZIP folder as it is, the library root with everything in it, another folder as
/// far as it is inside the root. A file keeps its name in the folder.
#[verifier::rlimit(40)]
pub proof fn lemma_setting_chosen(
    a: app::AppView,
    p: picker::PickerView,
    s: app::SettingsView,
    field: Field,
)
    requires
        deeds::is_up(a, Screen::Picker),
        a.picker == Some(p),
        p.target == Target::Setting(field),
        a.settings == Some(s),
    ensures
        ({
            let b = deeds::after(a, Key::Char(' '));
            &&& deeds::asked(a, Key::Char(' ')).len() == 0
            &&& b.screen == Screen::Settings
            &&& b.picker is None
            &&& b.config == a.config
            &&& b.settings matches Some(t) && {
                &&& t.dirty
                &&& t.cursor == s.cursor
                &&& field == Field::DownloadDir ==> t.draft.download_dir == p.cwd
                &&& field == Field::LibraryRoot ==> t.draft == config::rebased(s.draft, p.cwd)
                    && t.draft.library_root == p.cwd
                &&& config::inside().contains(field) && field != Field::MergedSymbolLib && field
                    != Field::ManifestPath && paths::within(p.cwd, s.draft.library_root)
                    ==> field.get(t.draft) == Some(p.cwd)
                &&& field == Field::ManifestPath ==> (paths::leaf_of(
                    s.draft.manifest_path,
                ) matches Some(name) ==> (paths::within(
                    paths::below(p.cwd, name),
                    s.draft.library_root,
                ) ==> t.draft.manifest_path == paths::below(p.cwd, name)))
            }
        }),
{
    lemma_taken(a, p);
    lemma_chosen_value(s, field, p.cwd);
    config::lemma_rebased(s.draft, p.cwd);
}

/// A missing location takes the folder that is shown, in use and on file, and is
/// written straight away.
#[verifier::rlimit(40)]
pub proof fn lemma_location_chosen(a: app::AppView, p: picker::PickerView, field: Field)
    requires
        deeds::is_up(a, Screen::Picker),
        a.picker == Some(p),
        p.target == Target::Validation(field),
    ensures
        ({
            let b = deeds::after(a, Key::Char(' '));
            &&& b.picker is None
            &&& deeds::asked(a, Key::Char(' ')) == seq![
                app::EffectView::Save { cfg: b.stored, path: a.config_path },
            ]
            &&& field == Field::LibraryRoot ==> b.config == config::rebased(a.config, p.cwd)
                && b.stored == config::rebased(a.stored, p.cwd) && b.config.library_root == p.cwd
                && b.stored.library_root == p.cwd
            &&& field == Field::DownloadDir ==> b.config.download_dir == p.cwd
                && b.stored.download_dir == p.cwd
        }),
{
    lemma_taken(a, p);
    let b = keys::struck(a, deeds::plain(Key::Char(' ')));
    assert(b.todo[0] == app::StepView::Save { saving: app::SavingView::Validation });
    config::lemma_contained(field.put(a.config, p.cwd));
    config::lemma_contained(field.put(a.stored, p.cwd));
    config::lemma_rebased(a.config, p.cwd);
    config::lemma_rebased(a.stored, p.cwd);
}

/// A library root chosen from the Projects screen becomes the location in use and
/// on file, is saved among the projects under a free name, and is written.
#[verifier::rlimit(40)]
pub proof fn lemma_root_chosen(a: app::AppView, p: picker::PickerView)
    requires
        deeds::is_up(a, Screen::Picker),
        a.picker == Some(p),
        p.target == Target::ProjectRoot,
    ensures
        ({
            let b = deeds::after(a, Key::Char(' '));
            let there = config::rebased(a.config, p.cwd);
            let name = config::unique_name(there, config::suggested_name(p.cwd));
            &&& b.picker is None
            &&& b.config == config::remembered(there, name)
            &&& b.config.library_root == p.cwd
            &&& b.stored.library_root == p.cwd
            &&& b.stored.projects == b.config.projects
            &&& b.config.projects[config::remembered_at(there, name)].library_root == p.cwd
            &&& deeds::asked(a, Key::Char(' ')) == seq![
                app::EffectView::Save { cfg: b.stored, path: a.config_path },
            ]
        }),
{
    lemma_taken(a, p);
    let b = keys::struck(a, deeds::plain(Key::Char(' ')));
    let there = config::rebased(a.config, p.cwd);
    let name = config::unique_name(there, config::suggested_name(p.cwd));
    assert(b.todo[0] is Save);
    config::lemma_rebased(a.config, p.cwd);
    config::lemma_rebased(a.stored, p.cwd);
    config::lemma_remembered(there, name);
}

// ----------------------------------------------------------------- projects

/// The Projects screen waits for a key, with the cursor on row `i` and nothing
/// being typed.
pub open spec fn on_project(a: app::AppView, p: app::ProjectsView, i: int) -> bool {
    &&& deeds::is_up(a, Screen::Projects)
    &&& a.projects == Some(p)
    &&& p.naming is None
    &&& p.cursor == i
    &&& 0 <= i < a.config.projects.len()
}

/// `Enter` moves to the project under the cursor, whichever it is: its root is
/// the library's, its ZIP folder the one in use where it names one, and the
/// location is written straight away.
#[verifier::rlimit(40)]
pub proof fn lemma_project_entered(a: app::AppView, p: app::ProjectsView, i: int)
    requires
        on_project(a, p, i),
    ensures
        ({
            let b = deeds::after(a, Key::Enter);
            let project = a.config.projects[i];
            &&& b.config == config::switched(a.config, project)
            &&& b.config.library_root == project.library_root
            &&& b.stored == config::switched(a.stored, project)
            &&& b.stored.library_root == project.library_root
            &&& b.config.projects == a.config.projects
            &&& b.projects is None
            &&& deeds::asked(a, Key::Enter) == seq![
                app::EffectView::Save { cfg: b.stored, path: a.config_path },
            ]
        }),
{
    reveal(keys::screen_key);
    reveal(projects::projects_key);
    let b = keys::struck(a, deeds::plain(Key::Enter));
    assert(b.todo[0] is Save);
    config::lemma_rebased(a.config, a.config.projects[i].library_root);
    config::lemma_rebased(a.stored, a.config.projects[i].library_root);
}

/// Moving to a project says where it went and how much came along, once the
/// locations have been looked at; a failed save is said instead.
#[verifier::rlimit(40)]
pub proof fn lemma_project_said(a: app::AppView, p: app::ProjectsView, i: int, e: Seq<char>)
    requires
        on_project(a, p, i),
    ensures
        ({
            let b = deeds::after(a, Key::Enter);
            let project = a.config.projects[i];
            let moved = config::switch_moves(a.config, project).len();
            let words = "Switched to "@ + project.name + (" — "@ + text::decimal(moved)
                + " path(s) moved with it"@);
            let (c, good) = steps::answered(b, app::ReplyView::Saved(Ok(())));
            let (d, bad) = steps::answered(b, app::ReplyView::Saved(Err(e)));
            let check = app::EffectView::Check {
                root: b.config.library_root,
                download: b.config.download_dir,
            };
            &&& good == seq![check] && bad == seq![check]
            &&& c.todo == seq![app::StepView::Say { text: words }]
            &&& d.todo == seq![app::StepView::Say { text: "Save failed: "@ + e }]
            &&& c.fs_errors == a.fs_errors && d.fs_errors == a.fs_errors.push(e)
        }),
{
    reveal(keys::screen_key);
    reveal(projects::projects_key);
    let s = keys::struck(a, deeds::plain(Key::Enter));
    assert(s.todo[0] is Save);
    assert(steps::begun(s).todo =~= a.todo);
    let b = deeds::after(a, Key::Enter);
    let c = steps::replied(b, app::ReplyView::Saved(Ok(())));
    let d = steps::replied(b, app::ReplyView::Saved(Err(e)));
    assert(c.todo[0] is Check);
    assert(d.todo[0] is Check);
    assert(steps::begun(c).todo =~= seq![c.todo[1]]);
    assert(steps::begun(d).todo =~= seq![d.todo[1]]);
}

/// How many paths moving to a project is said to move: those that the root moves,
/// and the ZIP folder where the project names another.
pub proof fn lemma_moves_counted(cfg: config::ConfigView, project: config::ProjectView)
    ensures
        ({
            let n = config::rebase_moves(cfg, project.library_root).len();
            let moved = config::switch_moves(cfg, project).len();
            &&& project.download_dir is None ==> moved == n
            &&& project.download_dir matches Some(dir) ==> moved == n + if paths::same_place(
                cfg.download_dir,
                dir,
            ) {
                0int
            } else {
                1
            }
        }),
{
}

/// `D` forgets the project under the cursor and no other, and writes that down.
#[verifier::rlimit(40)]
pub proof fn lemma_project_forgotten(a: app::AppView, p: app::ProjectsView, i: int, key: Key)
    requires
        on_project(a, p, i),
        key == Key::Char('d') || key == Key::Char('D') || key == Key::Delete,
    ensures
        ({
            let b = deeds::after(a, key);
            let left = a.config.projects.take(i) + a.config.projects.skip(i + 1);
            &&& b.config == (config::ConfigView { projects: left, ..a.config })
            &&& b.stored == (config::ConfigView { projects: left, ..a.stored })
            &&& deeds::asked(a, key) == seq![
                app::EffectView::Save { cfg: b.stored, path: a.config_path },
            ]
            &&& b.projects matches Some(q) && {
                &&& i < left.len() ==> q.cursor == i
                &&& i == left.len() && i > 0 ==> q.cursor == i - 1
                &&& left.len() == 0 ==> q.cursor == 0
                &&& q.naming is None
            }
        }),
{
    reveal(keys::screen_key);
    reveal(projects::projects_key);
    let b = keys::struck(a, deeds::plain(key));
    assert(b.todo[0] is Save);
    assert(a.config.projects.remove(i) =~= a.config.projects.take(i) + a.config.projects.skip(
        i + 1,
    ));
}

/// `E` renames the project under the cursor, starting from the name it has; `B`
/// browses for another root from the one in use.
#[verifier::rlimit(40)]
pub proof fn lemma_project_edited(a: app::AppView, p: app::ProjectsView, i: int, key: Key)
    requires
        on_project(a, p, i),
    ensures
        key == Key::Char('e') || key == Key::Char('E') || key == Key::F(2) && !keys::is_typing(a)
            ==> deeds::only_shows(
            a,
            key,
            app::AppView {
                projects: Some(
                    app::ProjectsView {
                        naming: Some(
                            app::NamingView { buffer: a.config.projects[i].name, target: Some(i) },
                        ),
                        message: "Rename, then press Enter."@,
                        ..p
                    },
                ),
                ..a
            },
        ),
        key == Key::Char('b') || key == Key::Char('B') || key == Key::Char(' ') ==> deeds::asked(a, key)
            == seq![app::EffectView::Browse { start: a.config.library_root }] && deeds::after(a, key)
            == (app::AppView {
            waiting: Some(
                app::StepView::Browse {
                    start: a.config.library_root,
                    target: Target::ProjectRoot,
                },
            ),
            ..a
        }),
        key == Key::Esc ==> deeds::only_shows(
            a,
            key,
            app::AppView { projects: None, screen: Screen::Main, ..a },
        ),
{
    reveal(keys::screen_key);
    reveal(projects::projects_key);
    let b = keys::struck(a, deeds::plain(key));
    if key == Key::Char('b') || key == Key::Char('B') || key == Key::Char(' ') {
        assert(steps::begun(b).todo =~= a.todo);
        assert(steps::begun(b) == a);
    }
}

/// The arrows, `Home` and `End` move through the projects.
pub proof fn lemma_projects_browsed(a: app::AppView, p: app::ProjectsView, i: int, key: Key)
    requires
        on_project(a, p, i),
        deeds::is_step(key) || key == Key::Home || key == Key::End,
    ensures
        deeds::only_shows(
            a,
            key,
            app::AppView {
                projects: Some(
                    app::ProjectsView {
                        cursor: deeds::stepped(i, a.config.projects.len() as int, key),
                        ..p
                    },
                ),
                ..a
            },
        ),
{
    reveal(keys::screen_key);
    reveal(projects::projects_key);
    deeds::lemma_around(i, a.config.projects.len() as int);
}

/// `N` offers a name for the location in use: the one it is saved under, or one
/// that no project elsewhere has.
pub proof fn lemma_name_offered(a: app::AppView, p: app::ProjectsView, key: Key)
    requires
        deeds::is_up(a, Screen::Projects),
        a.projects == Some(p),
        p.naming is None,
        key == Key::Char('n') || key == Key::Char('N'),
    ensures
        deeds::asked(a, key).len() == 0,
        deeds::after(a, key).projects matches Some(q) && (q.naming matches Some(n) && {
            &&& n.target is None
            &&& config::active(a.config) matches Some(i) ==> n.buffer == a.config.projects[i].name
            &&& config::active(a.config) is None ==> n.buffer == config::unique_name(
                a.config,
                config::suggested_name(a.config.library_root),
            )
        }),
{
    reveal(keys::screen_key);
    reveal(projects::projects_key);
}

/// A name that was typed goes to the project being renamed, without the blanks
/// around it; where that is saved nothing else changes.
#[verifier::rlimit(40)]
pub proof fn lemma_renamed(a: app::AppView, p: app::ProjectsView, n: app::NamingView, i: int)
    requires
        deeds::is_up(a, Screen::Projects),
        a.projects == Some(p),
        p.naming == Some(n),
        n.target == Some(i),
        0 <= i < a.config.projects.len(),
        text::trim(n.buffer).len() > 0,
    ensures
        ({
            let b = deeds::after(a, Key::Enter);
            &&& b.config.projects.len() == a.config.projects.len()
            &&& b.config.projects[i].name == text::trim(n.buffer)
            &&& b.config.projects[i].library_root == a.config.projects[i].library_root
            &&& b.config.projects[i].download_dir == a.config.projects[i].download_dir
            &&& forall|j: int|
                0 <= j < a.config.projects.len() && j != i ==> #[trigger] b.config.projects[j]
                    == a.config.projects[j]
            &&& b.config == (config::ConfigView { projects: b.config.projects, ..a.config })
            &&& b.stored == (config::ConfigView { projects: b.config.projects, ..a.stored })
            &&& b.projects matches Some(q) && q.naming is None
            &&& deeds::asked(a, Key::Enter) == seq![
                app::EffectView::Save { cfg: b.stored, path: a.config_path },
            ]
        }),
{
    reveal(keys::screen_key);
    reveal(projects::projects_key);
    let b = keys::struck(a, deeds::plain(Key::Enter));
    assert(b.todo[0] is Save);
}

/// A name that was typed for the location in use saves it under that name: its
/// root and its ZIP folder.
#[verifier::rlimit(40)]
pub proof fn lemma_location_named(a: app::AppView, p: app::ProjectsView, n: app::NamingView)
    requires
        deeds::is_up(a, Screen::Projects),
        a.projects == Some(p),
        p.naming == Some(n),
        n.target is None,
        text::trim(n.buffer).len() > 0,
    ensures
        ({
            let b = deeds::after(a, Key::Enter);
            &&& b.projects matches Some(q) && q.naming is None && 0 <= q.cursor
                < b.config.projects.len() && b.config.projects[q.cursor] == (config::ProjectView {
                name: text::trim(n.buffer),
                library_root: a.config.library_root,
                download_dir: Some(a.config.download_dir),
            })
            &&& b.config == config::remembered(a.config, n.buffer)
            &&& b.stored == (config::ConfigView { projects: b.config.projects, ..a.stored })
            &&& deeds::asked(a, Key::Enter) == seq![
                app::EffectView::Save { cfg: b.stored, path: a.config_path },
            ]
        }),
{
    reveal(keys::screen_key);
    reveal(projects::projects_key);
    let name = text::trim(n.buffer);
    lemma_trimmed_once(n.buffer);
    let b = keys::struck(a, deeds::plain(Key::Enter));
    assert(b.todo[0] is Save);
    config::lemma_remembered(a.config, name);
    config::lemma_named(a.config.projects, name);
}

/// Trimming what has been trimmed changes nothing.
proof fn lemma_trimmed_once(s: Seq<char>)
    ensures
        text::trim(text::trim(s)) == text::trim(s),
{
    text::lemma_trim(s);
    text::lemma_trim_plain(text::trim(s));
}

/// A name is typed a character at a time; `Esc` leaves every name as it is.
#[verifier::rlimit(40)]
pub proof fn lemma_name_typed(a: app::AppView, p: app::ProjectsView, n: app::NamingView, c: char)
    requires
        deeds::is_up(a, Screen::Projects),
        a.projects == Some(p),
        p.naming == Some(n),
    ensures
        deeds::only_shows(
            a,
            Key::Char(c),
            app::AppView {
                projects: Some(
                    app::ProjectsView {
                        naming: Some(app::NamingView { buffer: n.buffer.push(c), ..n }),
                        ..p
                    },
                ),
                ..a
            },
        ),
        n.buffer.len() > 0 ==> deeds::only_shows(
            a,
            Key::Backspace,
            app::AppView {
                projects: Some(
                    app::ProjectsView {
                        naming: Some(app::NamingView { buffer: n.buffer.drop_last(), ..n }),
                        ..p
                    },
                ),
                ..a
            },
        ),
        deeds::only_shows(
            a,
            Key::Esc,
            app::AppView {
                projects: Some(app::ProjectsView { naming: None, message: "Cancelled."@, ..p }),
                ..a
            },
        ),
        text::trim(n.buffer).len() == 0 ==> deeds::asked(a, Key::Enter).len() == 0
            && deeds::after(a, Key::Enter).config == a.config && (deeds::after(
            a,
            Key::Enter,
        ).projects matches Some(q) && q.naming == Some(n)),
        keys::handled(
            a,
            app::EventView::Key(KeyPress { key: Key::Char('u'), control: true, press: true }),
        ).0.projects matches Some(q) && (q.naming matches Some(m) && m.buffer.len() == 0 && m.target
            == n.target),
{
    reveal(keys::screen_key);
    reveal(projects::projects_key);
}

/// The Projects screen opens on the project in use, if it is a saved one.
pub proof fn lemma_projects_opened(a: app::AppView, key: Key)
    requires
        deeds::is_home(a),
        key == Key::Char('p') || key == Key::Char('P'),
    ensures
        deeds::asked(a, key).len() == 0,
        deeds::after(a, key).projects matches Some(p) && {
            &&& p.naming is None
            &&& config::active(a.config) matches Some(i) ==> p.cursor == i && p.message
                == "Working in "@ + "\""@ + a.config.projects[i].name + "\""@ + "."@
            &&& config::active(a.config) is None ==> p.cursor == 0
            &&& deeds::after(a, key) == (app::AppView {
                projects: Some(p),
                screen: Screen::Projects,
                ..a
            })
        },
{
    reveal(keys::screen_key);
    reveal(keys::main_key);
}

// ----------------------------------------------------------------- startup

/// The two chosen locations are looked at on disk; those that are missing are
/// asked about, the library root first. With neither missing the main screen
/// comes, and everything is scanned and watched.
pub proof fn lemma_checked(a: app::AppView, clear: bool, root: bool, download: bool)
    requires
        a.todo.len() == 0,
        a.waiting == Some(app::StepView::Check { clear }),
    ensures
        ({
            let (b, effects) = steps::answered(a, app::ReplyView::Checked { root, download });
            &&& root && download ==> b.screen == Screen::Main && effects == seq![
                app::EffectView::Scan { cfg: a.config },
            ] && b.todo == seq![app::StepView::Watch, app::StepView::Ready] && b.validate == (
            if clear {
                None
            } else {
                a.validate
            })
            &&& !(root && download) ==> b.screen == Screen::Validate && effects.len() == 0
                && b.validate == Some(
                app::ValidateView {
                    missing: if !root && !download {
                        seq![Field::LibraryRoot, Field::DownloadDir]
                    } else if !root {
                        seq![Field::LibraryRoot]
                    } else {
                        seq![Field::DownloadDir]
                    },
                    index: 0,
                },
            )
        }),
{
    let b = steps::replied(a, app::ReplyView::Checked { root, download });
    if root && download {
        assert(b.todo[0] == app::StepView::Scan);
        assert(steps::begun(b).todo =~= seq![app::StepView::Watch, app::StepView::Ready]);
    } else if !root && !download {
        assert(config::missing(root, download) =~= seq![Field::LibraryRoot, Field::DownloadDir]);
    } else if root {
        assert(config::missing(root, download) =~= seq![Field::DownloadDir]);
    }
}

/// `Y` creates the location that is asked about: for the library root the whole
/// library, for the ZIP folder just that. `C` browses for it from where it is
/// meant to be. `Q` leaves.
#[verifier::rlimit(40)]
pub proof fn lemma_missing_answered(a: app::AppView, v: app::ValidateView, field: Field, key: Key)
    requires
        deeds::is_up(a, Screen::Validate),
        a.validate == Some(v),
        0 <= v.index < v.missing.len(),
        v.missing[v.index] == field,
    ensures
        key == Key::Char('y') || key == Key::Char('Y') ==> {
            &&& field == Field::LibraryRoot ==> deeds::asked(a, key) == seq![
                app::EffectView::Create {
                    paths: seq![
                        a.config.library_root,
                        a.config.symbol_dir,
                        a.config.footprint_dir,
                        a.config.model_dir,
                        a.config.temp_dir,
                        a.config.archive_dir,
                    ],
                },
            ]
            &&& field == Field::DownloadDir ==> deeds::asked(a, key) == seq![
                app::EffectView::Create { paths: seq![a.config.download_dir] },
            ]
        },
        key == Key::Char('c') || key == Key::Char('C') ==> {
            &&& field == Field::LibraryRoot ==> deeds::asked(a, key) == seq![
                app::EffectView::Browse { start: a.config.library_root },
            ]
            &&& field == Field::DownloadDir ==> deeds::asked(a, key) == seq![
                app::EffectView::Browse { start: a.config.download_dir },
            ]
            &&& deeds::after(a, key).waiting matches Some(step) && step is Browse && step->target
                == Target::Validation(field)
        },
        key == Key::Char('q') || key == Key::Char('Q') ==> deeds::only_shows(
            a,
            key,
            app::AppView { should_quit: true, ..a },
        ),
{
    reveal(keys::screen_key);
    reveal(prompts::validate_key);
    let b = keys::struck(a, deeds::plain(key));
    if b.todo.len() > 0 {
        assert(steps::begun(b).todo =~= a.todo);
    }
}

/// `A` creates all that is missing: the whole library for its root.
pub proof fn lemma_missing_all(a: app::AppView, v: app::ValidateView, key: Key)
    requires
        deeds::is_up(a, Screen::Validate),
        a.validate == Some(v),
        0 <= v.index < v.missing.len(),
        v.missing[0] == Field::LibraryRoot,
        key == Key::Char('a') || key == Key::Char('A'),
    ensures
        deeds::asked(a, key) == seq![
            app::EffectView::Create {
                paths: seq![
                    a.config.library_root,
                    a.config.symbol_dir,
                    a.config.footprint_dir,
                    a.config.model_dir,
                    a.config.temp_dir,
                    a.config.archive_dir,
                ],
            },
        ],
        deeds::after(a, key) == (app::AppView {
            waiting: Some(app::StepView::CreateAll { left: v.missing, made: Seq::empty() }),
            ..a
        }),
{
    reveal(keys::screen_key);
    reveal(prompts::validate_key);
    let s = keys::struck(a, deeds::plain(key));
    assert(s.todo[0] == app::StepView::CreateAll { left: v.missing, made: Seq::empty() });
    assert(steps::begun(s).todo =~= a.todo);
    assert(steps::begun(s) == a);
}

/// Once a location is there the next one that is missing is created.
pub proof fn lemma_missing_next(a: app::AppView, left: Seq<Field>, made: Seq<Field>)
    requires
        a.todo.len() == 0,
        a.waiting == Some(app::StepView::CreateAll { left, made }),
        left.len() > 1,
        left[0] == Field::LibraryRoot,
        left[1] == Field::DownloadDir,
    ensures
        ({
            let (b, effects) = steps::answered(a, app::ReplyView::Created(Ok(())));
            &&& effects == seq![app::EffectView::Create { paths: seq![a.config.download_dir] }]
            &&& b.waiting == Some(
                app::StepView::CreateAll { left: left.drop_first(), made: made.push(left[0]) },
            )
            &&& b.todo.len() == 0
            &&& b.config == a.config
        }),
{
    let c = steps::replied(a, app::ReplyView::Created(Ok(())));
    assert(c.todo[0] == app::StepView::CreateAll {
        left: left.drop_first(),
        made: made.push(left[0]),
    });
    assert(steps::begun(c).todo =~= a.todo);
}

/// Once the last one is there the locations are looked at again, and how many
/// folders that made is said.
#[verifier::rlimit(40)]
pub proof fn lemma_missing_done(a: app::AppView, left: Seq<Field>, made: Seq<Field>)
    requires
        a.todo.len() == 0,
        a.waiting == Some(app::StepView::CreateAll { left, made }),
        left == seq![Field::DownloadDir],
        made == seq![Field::LibraryRoot],
    ensures
        ({
            let (b, effects) = steps::answered(a, app::ReplyView::Created(Ok(())));
            &&& effects == seq![
                app::EffectView::Check {
                    root: a.config.library_root,
                    download: a.config.download_dir,
                },
            ]
            &&& b.todo == seq![
                app::StepView::Say { text: "Created "@ + text::decimal(7) + " folder(s)"@ },
            ]
            &&& b.waiting == Some(app::StepView::Check { clear: true })
        }),
{
    let c = steps::replied(a, app::ReplyView::Created(Ok(())));
    let rest = left.drop_first();
    let all = made.push(left[0]);
    assert(rest.len() == 0);
    assert(c.todo[0] == app::StepView::CreateAll { left: rest, made: all });
    assert(steps::begun(c).todo =~= a.todo);
    lemma_seven(a.config, all);
    assert(seq![
        app::StepView::Say { text: "Created "@ + text::decimal(7) + " folder(s)"@ },
    ] + a.todo =~= seq![
        app::StepView::Say { text: "Created "@ + text::decimal(7) + " folder(s)"@ },
    ]);
}

proof fn lemma_seven(cfg: config::ConfigView, made: Seq<Field>)
    requires
        made == seq![Field::LibraryRoot].push(Field::DownloadDir),
    ensures
        steps::folder_count(cfg, made) == 7,
{
    reveal_with_fuel(steps::folder_count, 3);
    assert(made.drop_last() =~= seq![Field::LibraryRoot]);
    assert(seq![Field::LibraryRoot].drop_last() =~= Seq::<Field>::empty());
}

/// Folders that were created are said so, and everything is looked at again.
pub proof fn lemma_created(a: app::AppView, field: Field)
    requires
        a.todo.len() == 0,
        a.waiting == Some(app::StepView::CreateOne { field }),
        field == Field::LibraryRoot || field == Field::DownloadDir,
    ensures
        ({
            let (b, effects) = steps::answered(a, app::ReplyView::Created(Ok(())));
            let words = if field == Field::DownloadDir {
                "Created "@ + a.config.download_dir
            } else {
                "Created "@ + a.config.library_root + (" and the "@ + text::decimal(5)
                    + " folders inside it"@)
            };
            &&& effects == seq![
                app::EffectView::Check {
                    root: a.config.library_root,
                    download: a.config.download_dir,
                },
            ]
            &&& b.status == words
            &&& b.todo == seq![app::StepView::Say { text: words }]
            &&& b.waiting == Some(app::StepView::Check { clear: true })
        }),
{
    let c = steps::replied(a, app::ReplyView::Created(Ok(())));
    assert(c.todo[0] == app::StepView::Check { clear: true });
    assert(steps::begun(c).todo =~= seq![app::StepView::Say { text: c.status }]);
}

/// A folder that could not be created is said so, by its path and the reason.
pub proof fn lemma_not_created(a: app::AppView, field: Field, path: Seq<char>, e: Seq<char>)
    requires
        a.todo.len() == 0,
        a.waiting == Some(app::StepView::CreateOne { field }),
    ensures
        ({
            let (b, effects) = steps::answered(a, app::ReplyView::Created(Err((path, e))));
            let words = "could not create "@ + path + ": "@ + e;
            &&& effects.len() == 0
            &&& b.status == words
            &&& b.fs_errors == a.fs_errors.push(words)
            &&& b.screen == a.screen
            &&& b.validate == a.validate
        }),
{
}

// ------------------------------------------------------------------ replies

/// A scan is shown as it came: its archives, its errors and its time, and the
/// library that the manifest and the folders make together.
pub proof fn lemma_scan_shown(a: app::AppView, found: app::FoundView)
    requires
        a.todo.len() == 0,
        a.waiting == Some(app::StepView::Scan),
        panes::is_shown(a),
    ensures
        ({
            let (b, effects) = steps::answered(a, app::ReplyView::Scanned(found));
            &&& effects.len() == 0
            &&& b.zips == found.entries
            &&& b.fs_errors == found.errors
            &&& b.last_scan == Some(found.at)
            &&& b.library == panes::library_of(found.recorded, found.present)
            &&& b.totals.parts == b.library.len()
            &&& b.totals.symbols == manifest::distinct(manifest::all_symbols(b.library))
            &&& b.totals.footprints == manifest::distinct(manifest::all_footprints(b.library))
            &&& b.totals.models == manifest::distinct(manifest::all_models(b.library))
            &&& panes::is_shown(b)
            &&& b.config == a.config && b.run == a.run && b.screen == a.screen
            &&& found.errors.len() > 0 ==> b.status == "Scan error: "@ + found.errors[0]
            &&& found.errors.len() == 0 ==> b.status == a.status
        }),
{
}

/// The program starts with the configuration it is given, in use and on file, and
/// asks about the first location that is missing; where none is, everything is
/// scanned, then watched, and then the list with something in it gets the focus.
pub proof fn lemma_started(
    cfg: config::ConfigView,
    stored: config::ConfigView,
    config_path: Seq<char>,
    cwd: Seq<char>,
    exe: Seq<char>,
    home: Seq<char>,
    missing: Seq<Field>,
)
    ensures
        ({
            let a = keys::started(cfg, stored, config_path, cwd, exe, home, missing);
            let (b, effects) = steps::proceeded(a);
            &&& b.config == cfg && b.stored == stored && b.config_path == config_path
            &&& b.cwd == cwd && b.exe == exe && b.home == home
            &&& !b.should_quit && b.run is None && b.pending is None && b.filter.len() == 0
            &&& b.zips.len() == 0 && b.library.len() == 0
            &&& missing.len() > 0 ==> b.screen == Screen::Validate && effects.len() == 0 && b.validate
                == Some(app::ValidateView { missing, index: 0 })
            &&& missing.len() == 0 ==> b.screen == Screen::Main && b.validate is None && effects
                == seq![app::EffectView::Scan { cfg }] && b.todo == seq![
                app::StepView::Watch,
                app::StepView::Focus,
            ]
        }),
{
    let a = keys::started(cfg, stored, config_path, cwd, exe, home, missing);
    if missing.len() == 0 {
        assert(a.todo[0] == app::StepView::Scan);
        assert(steps::begun(a).todo =~= seq![app::StepView::Watch, app::StepView::Focus]);
    }
}

/// What is to be said is said on the status line, and nothing else changes.
pub proof fn lemma_said(a: app::AppView, words: Seq<char>)
    ensures
        steps::shown_by(a, app::StepView::Say { text: words }) == (app::AppView {
            status: words,
            ..a
        }),
{
}

/// When all went well the status says so; an error that was found stays on it.
/// The program starts on whichever list has something in it.
pub proof fn lemma_ready(a: app::AppView)
    ensures
        a.fs_errors.len() == 0 ==> steps::shown_by(a, app::StepView::Ready) == (app::AppView {
            status: "Ready"@,
            ..a
        }),
        a.fs_errors.len() > 0 ==> steps::shown_by(a, app::StepView::Ready) == a,
        a.zips.len() == 0 && a.library.len() > 0 ==> steps::shown_by(a, app::StepView::Focus) == (
        app::AppView { focus: app::Focus::Library, ..a }),
        a.zips.len() > 0 || a.library.len() == 0 ==> steps::shown_by(a, app::StepView::Focus) == a,
{
}

/// The ZIP folder of the configuration in use is the one that is watched, and a
/// watch that failed is said so.
pub proof fn lemma_watched(a: app::AppView, e: Seq<char>)
    requires
        a.todo == seq![app::StepView::Watch],
    ensures
        steps::proceeded(a).1 == seq![app::EffectView::Watch { dir: a.config.download_dir }],
        ({
            let b = steps::proceeded(a).0;
            &&& steps::answered(b, app::ReplyView::Watching(Err(e))).0.status == "Watch failed: "@ + e
            &&& steps::answered(b, app::ReplyView::Watching(Err(e))).0.fs_errors == a.fs_errors.push(e)
            &&& steps::answered(b, app::ReplyView::Watching(Ok(()))).0.fs_errors == a.fs_errors
        }),
{
    let b = steps::begun(a);
    assert(b.todo.len() == 0);
}

} // verus!
