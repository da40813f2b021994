//! What the screens say.

use kilib::app::{
    App, Effect, Event, Found, ImportState, Key, KeyPress, Naming, Projects, Reply, Run, Screen,
    Search, Settings,
};
use kilib::config::{Config, Field, Project};
use kilib::importer::Pending;
use kilib::manifest::Part;
use kilib::online::easyeda::Hit;
use kilib::picker::{Picker, Seen, Target};
use kilib::scan::{ScanResult, ZipEntry};
use kilib::ui::home;
use kilib::ui::pages::{self, Present};
use kilib::ui::{prompts, Color, Line, Lines};

fn config_for(root: &str) -> Config {
    let lib = format!("{root}/lib");
    Config {
        download_dir: format!("{root}/downloads"),
        symbol_dir: format!("{lib}/symbols"),
        footprint_dir: format!("{lib}/footprints.pretty"),
        model_dir: format!("{lib}/3dmodels"),
        temp_dir: format!("{lib}/cache"),
        archive_dir: format!("{lib}/archive"),
        merged_symbol_lib: Some(format!("{lib}/murky-informis.kicad_sym")),
        manifest_path: format!("{lib}/library.json"),
        per_part_footprint_dirs: true,
        backup_before_overwrite: true,
        delete_zip_after_import: false,
        projects: Vec::new(),
        library_root: lib,
    }
}

fn text(line: &Line) -> String {
    line.spans.iter().map(|s| s.text.as_str()).collect()
}

fn texts(lines: &Lines) -> Vec<String> {
    lines.list.iter().map(text).collect()
}

fn strings(list: &[&str]) -> Vec<String> {
    list.iter().map(|s| s.to_string()).collect()
}

fn part(name: &str) -> Part {
    Part {
        name: name.to_string(),
        source: format!("LIB_{name}.zip"),
        imported_at: "2026-07-26T10:11:12+00:00".to_string(),
        symbol_file: Some(format!("symbols/{name}.kicad_sym")),
        symbol_names: strings(&[name]),
        footprints: Vec::new(),
        models: strings(&["3dmodels/a.stp", "3dmodels/b.stp"]),
    }
}

fn zip(display: &str, size: u64) -> ZipEntry {
    ZipEntry { path: format!("/work/downloads/{display}"), display: display.to_string(), size }
}

/// The application after its first scan.
fn app_with(cfg: Config, zips: Vec<ZipEntry>, recorded: Vec<Part>) -> App {
    let (mut app, effects) = App::new(
        cfg.clone(),
        cfg,
        "/work/config.toml".to_string(),
        "/work".to_string(),
        "/usr/bin/kilib".to_string(),
        "/home/u".to_string(),
        true,
        true,
    );
    assert_eq!(effects.len(), 1);
    assert!(matches!(effects[0], Effect::Scan { .. }));
    let found = Found {
        zips: ScanResult { entries: zips, errors: Vec::new() },
        recorded,
        present: Vec::new(),
        at: "2026-07-26 12:00:00".to_string(),
    };
    let more = app.reply(Reply::Scanned(found));
    assert_eq!(more.len(), 1);
    assert!(matches!(more[0], Effect::Watch { .. }));
    assert!(app.reply(Reply::Watching(Ok(()))).is_empty());
    app
}

fn press(app: &mut App, key: Key) -> Vec<Effect> {
    app.handle(Event::Key(KeyPress { key, control: false, press: true }))
}

// --------------------------------------------------------------- main screen

#[test]
fn the_summary_counts_and_names_the_library() {
    let mut cfg = config_for("/work");
    cfg.remember_project("synth");
    let app = app_with(cfg, Vec::new(), vec![part("NE555P")]);
    let panel = home::summary(&app, 80);
    assert_eq!(panel.title, " KiCad Library — synth ");
    assert_eq!(
        texts(&panel.lines),
        strings(&["1 part  ·  1 symbol  ·  0 footprints  ·  2 models", "/work/lib"])
    );
    assert_eq!(panel.lines.list[0].spans[0].look.color, Color::Accent);
    assert_eq!(panel.lines.list[0].spans[4].look.color, Color::Muted);
}

#[test]
fn an_empty_queue_says_where_to_put_archives() {
    let app = app_with(config_for("/work"), Vec::new(), Vec::new());
    let list = home::queue(&app, 60);
    assert_eq!(list.panel.title, " ZIP Queue (0) ");
    assert!(!list.rows);
    assert_eq!(
        texts(&list.panel.lines),
        strings(&[
            "",
            "  No ZIP files found.",
            "",
            "  Drop Component Search Engine archives into",
            "  /work/downloads",
            "",
            "  or press [W] to search for a part online.",
        ])
    );
    assert_eq!(
        texts(&home::library_list(&app).panel.lines),
        strings(&[
            "",
            "  Nothing imported yet.",
            "",
            "  Import an archive, or press [W] to search",
            "  the LCSC catalogue and add a part directly.",
        ])
    );
    assert_eq!(texts(&home::details(&app, 60).lines), strings(&["No archive selected."]));
}

#[test]
fn the_lists_show_one_row_per_entry() {
    let mut app =
        app_with(config_for("/work"), vec![zip("A.zip", 2048), zip("b.zip", 3)], vec![part("NE555P")]);
    let list = home::queue(&app, 60);
    assert_eq!(list.panel.title, " ZIP Queue (2) ");
    assert!(list.rows && list.focused);
    assert_eq!(texts(&list.panel.lines), strings(&["A.zip  2.0 KB", "b.zip  3 B"]));
    let shelf = home::library_list(&app);
    assert!(!shelf.focused);
    assert_eq!(
        texts(&shelf.panel.lines),
        vec![format!("{:<24}S · M   LIB_NE555P.zip", "NE555P")]
    );
    assert_eq!(
        texts(&home::details(&app, 80).lines),
        strings(&[
            "A.zip   2.0 KB",
            "/work/downloads/A.zip",
            "",
            "[Enter] imports this archive; [A] imports the whole queue.",
        ])
    );

    press(&mut app, Key::Tab);
    assert_eq!(
        texts(&home::details(&app, 80).lines),
        strings(&[
            "NE555P   from LIB_NE555P.zip   on 2026-07-26",
            "symbol: symbols/NE555P.kicad_sym",
            "footprint: none",
            "model: 3dmodels/a.stp, 3dmodels/b.stp",
        ])
    );

    // Filtering shows how much is left, and the filter box its caret.
    assert_eq!(home::filter_height(&app), 0);
    press(&mut app, Key::Char('/'));
    press(&mut app, Key::Char('a'));
    assert_eq!(home::filter_height(&app), 3);
    assert_eq!(texts(&home::filter_box(&app).lines), strings(&["  a_"]));
    assert_eq!(home::queue(&app, 60).panel.title, " ZIP Queue (1/2) ");
    assert_eq!(text(&home::main_keys(&app, 80)), "[Type] Filter  [Enter] Keep  [Esc] Clear");
    press(&mut app, Key::Char('x'));
    assert_eq!(
        texts(&home::queue(&app, 60).panel.lines),
        strings(&["", "  Nothing matches \"ax\"."])
    );
    press(&mut app, Key::Esc);
    assert_eq!(app.filter, "");
    assert_eq!(home::queue(&app, 60).panel.title, " ZIP Queue (2) ");
}

#[test]
fn the_status_says_what_is_watched() {
    let app = app_with(config_for("/work"), Vec::new(), Vec::new());
    assert_eq!(
        texts(&home::status(&app, 60, true).lines),
        strings(&["Watching  /work/downloads", "Ready"])
    );
    assert_eq!(
        texts(&home::status(&app, 60, false).lines)[0],
        "Watching  /work/downloads (missing)"
    );
    let import = ImportState { name: "(1/2) NE555P".to_string(), part: 500, whole: 2000 };
    assert_eq!(text(&home::progress(&import, 40)), "(1/2) NE555P");
    assert!(text(&home::main_keys(&app, 200)).starts_with("[Enter] Import  [A] All  [W] Search"));
}

#[test]
fn a_failed_watch_is_shown_and_recorded() {
    let (mut app, _) = App::new(
        config_for("/work"),
        config_for("/work"),
        "/work/config.toml".to_string(),
        "/work".to_string(),
        "exe".to_string(),
        "/home/u".to_string(),
        true,
        true,
    );
    let found = Found {
        zips: ScanResult { entries: Vec::new(), errors: strings(&["walk error: x"]) },
        recorded: Vec::new(),
        present: Vec::new(),
        at: "now".to_string(),
    };
    app.reply(Reply::Scanned(found));
    assert_eq!(app.status, "Scan error: walk error: x");
    app.reply(Reply::Watching(Err("watching /work/downloads: no".to_string())));
    assert_eq!(app.status, "Watch failed: watching /work/downloads: no");
    assert_eq!(app.fs_errors.len(), 2);
    let line = &home::status(&app, 80, true).lines.list[1];
    assert_eq!(line.spans[0].look.color, Color::Red);
    // A reply nobody asked for changes nothing.
    assert!(app.reply(Reply::Saved(Ok(()))).is_empty());
}

// --------------------------------------------------------------- other screens

#[test]
fn the_settings_show_every_field() {
    let s = Settings {
        cursor: 0,
        editing: None,
        draft: config_for("/work"),
        dirty: false,
        note: String::new(),
    };
    let page = pages::settings_page(&s, 80, 60);
    assert_eq!(page.panel.title, " SETTINGS  (1/12) ");
    let lines = texts(&page.panel.lines);
    assert_eq!(lines.len(), 36);
    assert_eq!(lines[0], "> Library Root");
    assert_eq!(lines[1], "    /work/lib");
    assert_eq!(lines[3], "  ZIP Folder");
    assert_eq!(
        text(&page.keys),
        "[E] Edit  [Space] Toggle  [Tab] Next  [Enter] Browse  [S] Save  [Esc] Cancel"
    );
    assert_eq!(
        texts(&pages::settings_note(&s, "/work/config.toml", 100)),
        strings(&[
            "The library lives under its root; changing the root moves it all. [P] switches projects.",
            "  /work/config.toml",
        ])
    );

    let typed = Settings {
        cursor: 11,
        editing: Some("/x".to_string()),
        draft: config_for("/work"),
        dirty: true,
        note: "Moved".to_string(),
    };
    let page = pages::settings_page(&typed, 80, 8);
    assert_eq!(page.panel.title, " SETTINGS  (12/12)  •unsaved ");
    let lines = texts(&page.panel.lines);
    assert_eq!(lines.len(), 6, "two fields fit, the last with the cursor: {lines:?}");
    assert_eq!(lines[4], "    /x_");
    assert_eq!(text(&page.keys), "[Enter] Commit  [Esc] Cancel edit");
    assert_eq!(
        texts(&pages::settings_note(&typed, "/c", 80)),
        strings(&["Moved", "Nothing is written until [S]ave."])
    );
}

#[test]
fn the_projects_are_listed_with_their_state() {
    let mut cfg = config_for("/work");
    let mut p = Projects { cursor: 0, naming: None, message: "Hello".to_string() };
    let page = pages::projects_page(&p, &cfg, &Vec::new(), 80, 20);
    assert_eq!(page.panel.title, " Projects ");
    assert_eq!(texts(&page.panel.lines)[1], "  No saved projects yet.");

    cfg.remember_project("here");
    cfg.projects.push(Project {
        name: "gone".to_string(),
        library_root: "/gone".to_string(),
        download_dir: None,
    });
    let page = pages::projects_page(&p, &cfg, &vec![true, false], 80, 20);
    assert_eq!(page.panel.title, " Projects (1/2) ");
    assert_eq!(
        texts(&page.panel.lines),
        strings(&["> ● here", "    /work/lib", "    gone", "    /gone  (missing)"])
    );
    assert!(page.panel.lines.list[0].spans[0].look.bar);
    assert_eq!(
        texts(&pages::projects_note(&p, "/work/lib", 80)),
        strings(&["Hello", "Now:", "  /work/lib"])
    );
    p.naming = Some(Naming { buffer: "syn".to_string(), target: None });
    let naming = pages::naming_box(p.naming.as_ref().unwrap());
    assert_eq!(naming.title, " Name This Location ");
    assert_eq!(texts(&naming.lines), strings(&["  syn_"]));
    let page = pages::projects_page(&p, &cfg, &vec![true, false], 80, 20);
    assert_eq!(text(&page.keys), "[Enter] Save Name  [Ctrl-U] Clear  [Esc] Cancel");
}

#[test]
fn the_search_results_are_marked() {
    let app = app_with(config_for("/work"), Vec::new(), vec![part("NE555P")]);
    let hit = |id: &str, mpn: &str, stock: u64| Hit {
        id: id.to_string(),
        mpn: mpn.to_string(),
        manufacturer: "TI".to_string(),
        package: String::new(),
        category: "Timers".to_string(),
        stock,
    };
    let mut s = Search {
        query: "NE".to_string(),
        editing: true,
        results: Vec::new(),
        cursor: 0,
        searching: false,
        message: "Type".to_string(),
    };
    assert_eq!(texts(&pages::query_box(&s).lines), strings(&["  NE_"]));
    let page = pages::search_page(&app, &s, 80, 10);
    assert_eq!(page.panel.title, " Results (0) ");
    assert_eq!(texts(&page.panel.lines), strings(&["", "  Type"]));
    assert_eq!(text(&page.keys), "[Enter] Search  [↓] Results  [Esc] Back");

    s.editing = false;
    s.results = vec![hit("C1", "NE555P", 12), hit("C2", "LM358", 0)];
    s.cursor = 1;
    let page = pages::search_page(&app, &s, 100, 10);
    assert_eq!(
        texts(&page.panel.lines),
        vec![
            format!("  ✓ {:<10} {:<24} TI  ·  Timers  ·  12 in stock", "C1", "NE555P"),
            format!(">   {:<10} {:<24} TI  ·  Timers  ·  no stock", "C2", "LM358"),
        ]
    );
    assert_eq!(page.panel.lines.list[0].spans[0].look.color, Color::Green);
    s.message = "Search failed: x".to_string();
    let note = pages::search_note(&s, 80);
    assert_eq!(note.list[0].spans[0].look.color, Color::Red);
    assert_eq!(
        texts(&note)[1],
        "Symbols, footprints and STEP models go into the configured library."
    );
}

#[test]
fn the_picker_keeps_its_selection_on_screen() {
    let seen = |name: &str| Seen { name: name.to_string(), is_dir: true };
    let listing = Ok(vec![seen("a"), seen("b"), seen("c"), seen(".hidden")]);
    let mut p = Picker::new("/x".to_string(), Target::Setting(Field::SymbolDir), listing);
    assert_eq!(
        texts(&pages::picker_box(&p).lines),
        strings(&["Choosing: Symbols", "/x"])
    );
    assert_eq!(
        texts(&pages::picker_page(&p, 80, 10).panel.lines),
        strings(&["> a/", "  b/", "  c/"])
    );
    p.move_by(2);
    assert_eq!(
        texts(&pages::picker_page(&p, 80, 4).panel.lines),
        strings(&["  b/", "> c/"])
    );
    p.reload(Ok(Vec::new()));
    assert_eq!(
        texts(&pages::picker_page(&p, 80, 10).panel.lines),
        strings(&["  (no subfolders)"])
    );
    p.reload(Err("denied".to_string()));
    assert_eq!(
        texts(&pages::picker_page(&p, 80, 10).panel.lines),
        strings(&["cannot open /x: denied"])
    );
}

#[test]
fn the_diagnostics_page_scrolls() {
    let mut cfg = config_for("/work");
    cfg.merged_symbol_lib = None;
    let mut app = app_with(cfg, vec![zip("a.zip", 1)], Vec::new());
    press(&mut app, Key::F(12));
    assert_eq!(app.screen, Screen::Diagnostics);
    let present = Present { dirs: vec![true, true, false, true, true, true, true], merged: false, manifest: false };
    let (page, scroll) = pages::diagnostics_page(&mut app, &None, &present, 80, 100);
    assert_eq!(scroll, 0);
    assert_eq!(page.panel.title, " DIAGNOSTICS ");
    let lines = texts(&page.panel.lines);
    for line in [
        "Working Directory",
        "  /work",
        "  <not initialised>",
        "Symbols  [MISSING]",
        "Merged Symbol Library  [disabled]",
        "Manifest (JSON)  [not created yet]",
        "  none",
        "ZIP Files Found",
        "  1",
        "  0 part(s), 0 symbol(s), 0 footprint(s), 0 model(s)",
        "  2026-07-26 12:00:00",
        "No filesystem errors recorded.",
    ] {
        assert!(lines.iter().any(|l| l == line), "{line} is not in {lines:#?}");
    }

    let log = Some("/work/importer.log".to_string());
    let (page, scroll) = pages::diagnostics_page(&mut app, &log, &present, 80, 12);
    assert_eq!(scroll, 0);
    assert!(page.panel.title.starts_with(" DIAGNOSTICS  (line 1/"), "{}", page.panel.title);
    press(&mut app, Key::Down);
    let (_, scroll) = pages::diagnostics_page(&mut app, &log, &present, 80, 12);
    assert_eq!(scroll, 1);
    press(&mut app, Key::Esc);
    assert_eq!(app.screen, Screen::Main);
}

#[test]
fn the_overwrite_prompt_offers_what_makes_sense() {
    let pending = Pending {
        part: "P".to_string(),
        source: "p.zip".to_string(),
        staged: Vec::new(),
        staging: "/tmp/p".to_string(),
        conflicts: strings(&["a", "b", "c"]),
        zip: None,
    };
    let run = Run {
        jobs: Vec::new(),
        total: 3,
        done: 1,
        imported: 1,
        skipped: 0,
        failures: Vec::new(),
        overwrite_all: false,
    };
    let alone = texts(&prompts::overwrite(&pending, &None, 100, 40).panel.lines);
    assert_eq!(alone[0], "P is already in the library.");
    assert_eq!(alone[2], "Importing it replaces 3 file(s):");
    assert_eq!(alone[3], "  a");
    assert_eq!(alone.last().unwrap(), "[Y] Overwrite  [N] Cancel");
    let queued = texts(&prompts::overwrite(&pending, &Some(run), 100, 40).panel.lines);
    assert!(queued.iter().any(|l| l == "Job 2 of 3."), "{queued:?}");
    assert_eq!(queued.last().unwrap(), "[Y] Overwrite  [A] Overwrite All  [S] Skip  [N] Cancel");
    // Only as many files as fit are named.
    let short = texts(&prompts::overwrite(&pending, &None, 100, 13).panel.lines);
    assert!(short.iter().any(|l| l == "  … and 2 more"), "{short:?}");
}

// ----------------------------------------------------------------------- laws

#[test]
fn ctrl_c_quits_and_a_release_does_nothing() {
    let mut app = app_with(config_for("/work"), Vec::new(), Vec::new());
    press(&mut app, Key::Char('s'));
    app.handle(Event::Key(KeyPress { key: Key::Char('c'), control: true, press: false }));
    assert!(!app.should_quit);
    app.handle(Event::Key(KeyPress { key: Key::Char('c'), control: true, press: true }));
    assert!(app.should_quit);
    for key in [Key::Char('q'), Key::Char('Q')] {
        let mut app = app_with(config_for("/work"), Vec::new(), Vec::new());
        press(&mut app, key);
        assert!(app.should_quit);
    }
}

#[test]
fn settings_are_a_draft_until_they_are_saved() {
    let mut app = app_with(config_for("/work"), Vec::new(), Vec::new());
    press(&mut app, Key::Char('s'));
    press(&mut app, Key::Up);
    press(&mut app, Key::Char(' '));
    assert!(app.settings.as_ref().unwrap().draft.delete_zip_after_import);
    assert!(!app.config.delete_zip_after_import);
    // A save that fails brings the draft back.
    let effects = press(&mut app, Key::Char('s'));
    assert_eq!(effects.len(), 1);
    assert!(matches!(effects[0], Effect::Save { .. }));
    app.reply(Reply::Saved(Err("read-only".to_string())));
    assert!(!app.config.delete_zip_after_import);
    assert!(app.settings.as_ref().unwrap().draft.delete_zip_after_import);
    press(&mut app, Key::Esc);
    assert!(app.settings.is_none());
    assert_eq!(app.screen, Screen::Main);
}

#[test]
fn forgetting_a_project_only_drops_the_bookmark() {
    let mut cfg = config_for("/work");
    cfg.remember_project("here");
    let mut app = app_with(cfg, Vec::new(), Vec::new());
    press(&mut app, Key::Char('p'));
    let effects = press(&mut app, Key::Char('d'));
    assert!(app.config.projects.is_empty());
    assert_eq!(effects.len(), 1);
    match &effects[0] {
        Effect::Save { cfg, path } => {
            assert_eq!(path, "/work/config.toml");
            assert!(cfg.projects.is_empty());
            assert_eq!(cfg.library_root, "/work/lib");
        }
        _ => panic!("only the configuration is written"),
    }
}

#[test]
fn a_queue_goes_on_past_a_bad_archive() {
    let mut app = app_with(config_for("/work"), vec![zip("a.zip", 1), zip("b.zip", 1)], Vec::new());
    let effects = press(&mut app, Key::Char('a'));
    assert_eq!(effects.len(), 1);
    assert!(matches!(effects[0], Effect::Prepare { index: 0, total: 2, .. }));
    app.handle(Event::ImportProgress {
        index: 0,
        total: 2,
        part: 1,
        whole: 3,
        name: "a".to_string(),
    });
    let import = app.import.as_ref().unwrap();
    assert_eq!((import.name.as_str(), import.part, import.whole), ("(1/2) a", 1, 6));
    app.handle(Event::ImportProgress {
        index: 1,
        total: 2,
        part: 2,
        whole: 7,
        name: "b".to_string(),
    });
    let import = app.import.as_ref().unwrap();
    assert_eq!((import.name.as_str(), import.part, import.whole), ("(2/2) b", 9, 14));
    let effects = app.handle(Event::ImportPrepared(Err("broken".to_string())));
    assert!(matches!(effects[0], Effect::Scan { .. }));
    let found = Found {
        zips: ScanResult { entries: vec![zip("b.zip", 1)], errors: Vec::new() },
        recorded: Vec::new(),
        present: Vec::new(),
        at: "later".to_string(),
    };
    let effects = app.reply(Reply::Scanned(found));
    assert!(matches!(effects[0], Effect::Prepare { index: 1, total: 2, .. }));
    assert_eq!(app.run.as_ref().unwrap().failures, strings(&["broken"]));
}

#[test]
fn a_search_hands_its_results_the_focus() {
    let mut app = app_with(config_for("/work"), Vec::new(), Vec::new());
    press(&mut app, Key::Char('w'));
    assert_eq!(app.screen, Screen::Search);
    for c in "NE".chars() {
        press(&mut app, Key::Char(c));
    }
    let effects = press(&mut app, Key::Enter);
    match &effects[0] {
        Effect::Find { query, limit } => assert_eq!((query.as_str(), *limit), ("NE", 25)),
        _ => panic!("a search is asked for"),
    }
    app.handle(Event::SearchDone(Ok(Vec::new())));
    assert_eq!(app.search.as_ref().unwrap().message, "No results for \"NE\".");
    app.handle(Event::SearchDone(Err("offline".to_string())));
    assert_eq!(app.search.as_ref().unwrap().message, "Search failed: offline");
    let hit = Hit {
        id: "C1".to_string(),
        mpn: "NE555P".to_string(),
        manufacturer: String::new(),
        package: String::new(),
        category: String::new(),
        stock: 1,
    };
    app.handle(Event::SearchDone(Ok(vec![hit])));
    assert!(!app.search.as_ref().unwrap().editing);
    let effects = press(&mut app, Key::Enter);
    assert!(matches!(effects[0], Effect::Prepare { .. }));
}
