//! Paths, configuration, symbol libraries, names and the text of the screens.

use kilib::cli::Overrides;
use kilib::config::{Config, Field, Project, Reading};
use kilib::importer::{ImportSummary, Kind, Pending, Staged};
use kilib::manifest::Part;
use kilib::online::easyeda::Hit;
use kilib::picker::{Picker, Seen, Target};
use kilib::scan::Met;
use kilib::ui::{Line, Lines, Look};
use kilib::{
    app, cli, config, http, importer, json, library, manifest, online, order, paths, picker,
    scan, symlib, text, ui,
};

fn join(base: &str, leaf: &str) -> String {
    format!("{base}/{leaf}")
}

fn strings(list: &[&str]) -> Vec<String> {
    list.iter().map(|s| s.to_string()).collect()
}

fn config_for(root: &str) -> Config {
    let lib = join(root, "lib");
    Config {
        download_dir: join(root, "downloads"),
        symbol_dir: join(&lib, "symbols"),
        footprint_dir: join(&lib, "footprints.pretty"),
        model_dir: join(&lib, "3dmodels"),
        temp_dir: join(&lib, "cache"),
        archive_dir: join(&lib, "archive"),
        merged_symbol_lib: Some(join(&lib, "murky-informis.kicad_sym")),
        manifest_path: join(&lib, "library.json"),
        per_part_footprint_dirs: true,
        backup_before_overwrite: true,
        delete_zip_after_import: false,
        projects: Vec::new(),
        library_root: lib,
    }
}

fn kicad_sym(part: &str) -> String {
    format!(
        r#"(kicad_symbol_lib (version 20211014) (generator SamacSys_ECAD_Model)
  (symbol "{part}" (in_bom yes) (on_board yes)
    (property "Reference" "IC" (at 0 0 0)
      (effects (font (size 1.27 1.27)) (justify left top))
    )
    (property "Value" "{part}" (at 0 -2.54 0)
      (effects (font (size 1.27 1.27)) (justify left top))
    )
    (symbol "{part}_0_0"
      (rectangle (start 0 0) (end 10 -10))
    )
  )
)
"#
    )
}

// ------------------------------------------------------------------- paths

#[test]
fn tilde_expands_to_home() {
    let home = config::home_dir();
    assert_eq!(config::expand_tilde("~"), home);
    assert_eq!(
        config::expand_tilde("~/Downloads/KiCad"),
        paths::join_path(&home, "Downloads/KiCad")
    );
    // A bare `~foo` is a username reference, not this user's home.
    assert_eq!(config::expand_tilde("~other/x"), "~other/x");
}

#[test]
fn relative_paths_resolve_against_base_not_cwd() {
    let base = "/etc/cse-importer";
    assert_eq!(config::resolve("lib", base), "/etc/cse-importer/lib");
    // Absolute input is left alone.
    assert_eq!(config::resolve("/srv/lib", base), "/srv/lib");
}

#[test]
fn a_home_that_is_not_known_is_the_root() {
    assert_eq!(config::home_from(Some("/home/u".to_string())), "/home/u");
    assert_eq!(config::home_from(None), "/");
    assert_eq!(
        config::config_path_from(Some("/home/u/.config".to_string()), "/home/u"),
        "/home/u/.config/KiLib/config.toml"
    );
    assert_eq!(
        config::config_path_from(None, "/home/u"),
        "/home/u/.config/KiLib/config.toml"
    );
    assert!(config::default_config_path().ends_with("KiLib/config.toml"));
}

#[test]
fn paths_are_compared_by_their_parts() {
    assert!(paths::same_path("/a//b/./c/", "/a/b/c"));
    assert!(!paths::same_path("a/b", "/a/b"));
    assert!(paths::starts_with("/a/b/c", "/a/b"));
    assert!(!paths::starts_with("/a/bc", "/a/b"));
    assert_eq!(paths::strip_prefix("/a/b/c", "/a"), Some("b/c".to_string()));
    assert_eq!(paths::strip_prefix("/a/b/c", "/x"), None);
    assert_eq!(paths::parent("/a/b"), Some("/a".to_string()));
    assert_eq!(paths::parent("/"), None);
    assert_eq!(paths::file_name("/a/b.tar.gz"), Some("b.tar.gz".to_string()));
    assert_eq!(paths::file_stem("/a/b.tar.gz"), Some("b.tar".to_string()));
    assert_eq!(paths::extension("/a/.hidden"), None);
    assert_eq!(paths::with_extension("/a/b.kicad_sym", "bak"), "/a/b.bak");
    assert_eq!(paths::join_path("/a", "/b"), "/b");
}

// ------------------------------------------------------------ configuration

#[test]
fn two_libraries_called_lib_keep_separate_bookmarks() {
    // A generic leaf folder is named after its parent, which is what the user
    // actually calls the project.
    assert_eq!(config::project_name_for("/home/u/pcb/synth/lib"), "synth");
    assert_eq!(config::project_name_for("/home/u/pcb/synth"), "synth");

    let mut cfg = Config { library_root: "/a/synth/lib".to_string(), ..Default::default() };
    let first = cfg.unique_project_name(&config::project_name_for(&cfg.library_root));
    assert_eq!(first, "synth");
    cfg.remember_project(&first);

    cfg.library_root = "/b/synth/lib".to_string();
    let second = cfg.unique_project_name(&config::project_name_for(&cfg.library_root));
    assert_eq!(
        second, "synth 2",
        "a different folder must not overwrite the first bookmark"
    );
    cfg.remember_project(&second);
    assert_eq!(cfg.projects.len(), 2);

    // Re-saving a location under the name it already has updates it in place.
    cfg.remember_project("synth 2");
    assert_eq!(cfg.projects.len(), 2);
    assert_eq!(cfg.projects[1].library_root, "/b/synth/lib");
}

#[test]
fn every_library_file_is_kept_under_the_library_root() {
    let root = "/work";
    let lib = join(root, "lib");
    let mut cfg = config_for(root);

    // Scattered by hand, the way a half-finished config file looks.
    cfg.symbol_dir = join(root, "stray/sym");
    cfg.model_dir = "/var/tmp/models".to_string();
    cfg.merged_symbol_lib = Some(join(root, "shared/all-parts.kicad_sym"));
    cfg.manifest_path = join(root, "index.json");

    let moved = cfg.contain();
    assert_eq!(moved.len(), 4, "moved: {moved:?}");

    // Each keeps the name the user chose, under the root it belongs to.
    assert_eq!(cfg.symbol_dir, join(&lib, "sym"));
    assert_eq!(cfg.model_dir, join(&lib, "models"));
    assert_eq!(cfg.merged_symbol_lib, Some(join(&lib, "all-parts.kicad_sym")));
    assert_eq!(cfg.manifest_path, join(&lib, "index.json"));
    // Untouched: they were already inside.
    assert_eq!(cfg.footprint_dir, join(&lib, "footprints.pretty"));
    assert_eq!(cfg.archive_dir, join(&lib, "archive"));
    // ZIPs are the input, not part of the library, so this stays outside.
    assert_eq!(cfg.download_dir, join(root, "downloads"));

    // Already contained, so a second pass is a no-op.
    assert!(cfg.contain().is_empty());
}

#[test]
fn moving_the_root_brings_a_stray_folder_in_with_it() {
    let root = "/work";
    let mut cfg = config_for(root);
    // Nested deeper than the default, and one folder left outside entirely.
    cfg.symbol_dir = join(&cfg.library_root, "kicad/symbols");
    cfg.model_dir = join(root, "elsewhere/3dmodels");

    let target = join(root, "moved");
    let moved = cfg.rebase(&target);

    assert_eq!(cfg.library_root, target);
    // A nested layout keeps its shape.
    assert_eq!(cfg.symbol_dir, join(&target, "kicad/symbols"));
    // The stray is pulled in rather than left behind.
    assert_eq!(cfg.model_dir, join(&target, "3dmodels"));
    assert_eq!(cfg.footprint_dir, join(&target, "footprints.pretty"));
    assert!(moved.contains(&Field::ModelDir));
    assert!(moved.contains(&Field::SymbolDir));
    assert!(!moved.contains(&Field::DownloadDir));
}

#[test]
fn an_empty_merged_library_means_no_merging() {
    let mut cfg = config_for("/work");
    cfg.merged_symbol_lib = Some(String::new());
    cfg.normalize_in("/work/config.toml", "/home/u");
    assert_eq!(cfg.merged_symbol_lib, None);
}

#[test]
fn relative_settings_are_taken_against_the_config_file() {
    let mut cfg = config_for("/work");
    cfg.library_root = "parts".to_string();
    cfg.download_dir = "~/zips".to_string();
    cfg.normalize_in("/etc/kilib/config.toml", "/home/u");
    assert_eq!(cfg.library_root, "/etc/kilib/parts");
    assert_eq!(cfg.download_dir, "/home/u/zips");
    assert_eq!(cfg.symbol_dir, "/etc/kilib/parts/symbols");
}

#[test]
fn switching_keeps_the_name_and_the_zip_folder_of_the_project() {
    let mut cfg = config_for("/work");
    let p = Project {
        name: "synth".to_string(),
        library_root: "/pcb/synth".to_string(),
        download_dir: Some("/pcb/zips".to_string()),
    };
    cfg.projects.push(p.clone());
    cfg.switch_to(&p);
    assert_eq!(cfg.library_root, "/pcb/synth");
    assert_eq!(cfg.download_dir, "/pcb/zips");
    assert_eq!(cfg.active_project().map(|p| p.name.as_str()), Some("synth"));
    assert_eq!(cfg.find_project(" SYNTH ").map(|p| p.name.as_str()), Some("synth"));
    assert!(cfg.find_project("other").is_none());
}

#[test]
fn fields_show_what_they_hold() {
    let mut cfg = config_for("/work");
    assert_eq!(Field::LibraryRoot.display(&cfg), "/work/lib");
    cfg.merged_symbol_lib = None;
    assert_eq!(Field::MergedSymbolLib.path(&cfg), None);
    assert!(!Field::DeleteZip.bool_value(&cfg));
    Field::DeleteZip.toggle(&mut cfg);
    assert!(cfg.delete_zip_after_import);
    Field::SymbolDir.set_path(&mut cfg, "/x".to_string());
    assert_eq!(cfg.symbol_dir, "/x");
    assert_eq!(Field::SymbolDir.dir(&cfg).map(|d| d.as_str()), Some("/x"));
    assert!(Field::ManifestPath.dir(&cfg).is_none());
}

// ------------------------------------------------------- symbol libraries

#[test]
fn symlib_parses_header_and_symbols() {
    let lib = symlib::parse(&kicad_sym("TPD12S016PWR")).ok().unwrap();
    assert!(lib.header.starts_with("(kicad_symbol_lib (version 20211014)"));
    // The nested unit symbol must not be mistaken for a top-level one.
    assert_eq!(lib.symbols.len(), 1);
    assert_eq!(lib.symbols[0].name, "TPD12S016PWR");
    assert!(lib.symbols[0].text.contains("TPD12S016PWR_0_0"));
}

#[test]
fn symlib_round_trips_through_render() {
    let original = kicad_sym("PART_A");
    let first = symlib::parse(&original).ok().unwrap();
    let reparsed = symlib::parse(&symlib::render(&first)).ok().unwrap();
    assert_eq!(reparsed.symbols.len(), 1);
    assert_eq!(reparsed.symbols[0].name, "PART_A");
    assert_eq!(reparsed.symbols[0].text, first.symbols[0].text);
    assert_eq!(reparsed.header, first.header);
}

#[test]
fn a_symbol_name_keeps_its_escapes_and_its_accents() {
    let text = "(kicad_symbol_lib (version 1)\n  (symbol \"µ\\\"x\" (a))\n)\n";
    assert_eq!(symlib::symbol_names(text), strings(&["µ\"x"]));
    assert!(symlib::symbol_names("nonsense").is_empty());
}

#[test]
fn a_library_that_cannot_be_read_is_not_overwritten() {
    let source = kicad_sym("A");
    let r = symlib::merge_into("/l.kicad_sym", &source, Err("denied".to_string()));
    assert!(r.is_err());
    let r = symlib::merge_into("/l.kicad_sym", &source, Ok(Some("garbage".to_string())));
    assert!(r.is_err());
    let r = symlib::merge_into("/l.kicad_sym", "garbage", Ok(None));
    assert!(r.is_err());
    let m = symlib::merge_into("/l.kicad_sym", "(kicad_symbol_lib (version 1))", Ok(None)).ok().unwrap();
    assert!(m.text.is_none(), "nothing to add, nothing to write");
}

// ----------------------------------------------------------------- library

#[test]
fn a_part_is_recorded_once_whatever_its_case() {
    let mut m = manifest::Manifest::default();
    m.upsert(Part { name: "b".to_string(), ..Default::default() });
    m.upsert(Part { name: "A".to_string(), ..Default::default() });
    m.upsert(Part { name: "b".to_string(), source: "new".to_string(), ..Default::default() });
    let names: Vec<&str> = m.parts.iter().map(|p| p.name.as_str()).collect();
    assert_eq!(names, vec!["A", "b"]);
    assert_eq!(m.parts[1].source, "new");
    let cfg = config_for("/work");
    let stamped = manifest::record(m, &cfg, Part::default());
    assert!(!stamped.generated.is_empty());
    assert_eq!(manifest::rel("/work/lib", "/work/lib/symbols/a"), "symbols/a");
    assert_eq!(manifest::rel("/work/lib", "/else/a"), "/else/a");
}

#[test]
fn a_symbol_file_names_the_footprints_it_uses() {
    let text = "(symbol\n  (property \"Footprint\" \"lib:SOT-23\" (at 0))\n  (property \"Footprint\" \"\")\n";
    assert_eq!(library::declared_footprints(text), strings(&["SOT-23"]));
}

#[test]
fn only_kicad_files_are_taken() {
    assert!(importer::classify("P/KiCad/a.KICAD_SYM") == Some(Kind::Symbol));
    assert!(importer::classify("P/KiCad/a.kicad_mod") == Some(Kind::Footprint));
    assert!(importer::classify("P/3d/a.STEP") == Some(Kind::Model));
    assert!(importer::classify("P/a.step").is_none());
    assert!(importer::classify("P/a.pdf").is_none());
    assert!(importer::classify("P/none").is_none());
    assert_eq!(importer::part_name_from("P/KiCad/a.kicad_sym"), Some("P".to_string()));
    assert_eq!(importer::part_name_from("./P//a.kicad_sym"), Some("P".to_string()));
    assert_eq!(importer::part_name_from("a.kicad_sym"), None);
    assert_eq!(importer::part_name_from("./a.kicad_sym"), None);
    assert_eq!(importer::part_name_from(""), None);
}

#[test]
fn a_footprint_goes_to_two_places() {
    let cfg = config_for("/work");
    let item = Staged {
        kind: Kind::Footprint,
        name: "QFN.kicad_mod".to_string(),
        path: "/tmp/QFN.kicad_mod".to_string(),
    };
    assert_eq!(
        importer::destinations(&cfg, "P", &item),
        strings(&[
            "/work/lib/footprints.pretty/P.pretty/QFN.kicad_mod",
            "/work/lib/footprints.pretty/QFN.kicad_mod"
        ])
    );
    assert_eq!(
        importer::last_destination(&cfg, "P", &item),
        "/work/lib/footprints.pretty/QFN.kicad_mod"
    );
    assert_eq!(
        importer::conflicts(&cfg, "P", &vec![item], &vec![false, true]),
        strings(&["footprints.pretty/QFN.kicad_mod"])
    );
}

#[test]
fn progress_is_the_exact_fraction_of_the_members_read() {
    assert_eq!(importer::portion(0, 0), (0, 1));
    assert_eq!(importer::portion(1, 3), (1, 3));
    assert_eq!(importer::portion(3, 3), (3, 3));
}

// ------------------------------------------------------------------- names

#[test]
fn names_are_made_safe_for_files_and_kicad() {
    assert_eq!(online::sanitize("NE555P"), "NE555P");
    assert_eq!(online::sanitize("TI(德州仪器) / 555"), "TI_555");
    assert_eq!(online::sanitize("  2.54-1*5  "), "2.54-1_5");
    assert_eq!(online::escape(r#"a"b\c"#), r#"a\"b\\c"#);
}

#[test]
fn letters_are_compared_without_their_case() {
    let keys = strings(&["zebra", "Äpfel", "apple", "Zoo"]);
    assert_eq!(order::rank(&keys), vec![3, 2, 0, 1]);
    // Beyond ASCII, and where the lower case has more letters than the upper.
    let cfg = config_for("/work");
    let met = ["ÄB.zip", "äa.zip", "İ.zip"]
        .iter()
        .map(|n| Met::File { path: join("/work/downloads", n), size: 1 })
        .collect();
    let found = scan::scan(&cfg, true, &met).entries;
    let names: Vec<&str> = found.iter().map(|e| e.display.as_str()).collect();
    assert_eq!(names, vec!["İ.zip", "äa.zip", "ÄB.zip"]);
    // A manufacturer part number is asked for in capitals.
    assert_eq!(
        online::easyeda::component_url("c7420"),
        Ok("https://easyeda.com/api/products/C7420/components?version=6.4.19.5".to_string())
    );
    assert_eq!(text::replaced("a-b-c", "-", "+"), "a+b+c");
    assert_eq!(text::trimmed("\u{a0} x\t"), "x");
    assert_eq!(text::number(0), "0");
    assert_eq!(text::number(340282366920938463463374607431768211455), "340282366920938463463374607431768211455");
    assert_eq!(text::pieces("a~b~", '~'), strings(&["a", "b", ""]));
}

// -------------------------------------------------------------------- http

#[test]
fn replies_that_are_no_text_are_refused() {
    assert_eq!(http::get_string("http://x", b"ok \xc3\xa9".to_vec()), Ok("ok é".to_string()));
    assert!(http::get_string("http://x", vec![0xff, 0xfe]).is_err());
    assert_eq!(http::get_bytes("http://x", Ok(vec![1, 2])), Ok(vec![1, 2]));
    assert!(http::get_bytes("http://x", Err("refused".to_string())).is_err());
    assert_eq!(http::encode("a b&é"), "a%20b%26%C3%A9");
    assert_eq!(http::encode("~€😀%"), "~%E2%82%AC%F0%9F%98%80%25");
}

#[test]
fn json_is_read_by_its_own_parser() {
    assert_eq!(json::get(r#"{"a": {"b": 1}}"#, "a"), r#"{"b": 1}"#);
    assert!(json::null(&json::get("{}", "a")));
    assert_eq!(json::get_text(r#"{"a": "x\ny"}"#, "a"), Some("x\ny".to_string()));
    assert_eq!(json::get_text(r#"{"a": 1}"#, "a"), None);
    assert_eq!(json::strings(r#"["p", 1, "q"]"#), strings(&["p", "q"]));
    assert_eq!(json::or_else(None, "d"), "d");
}

// ------------------------------------------------------------------ picker

fn seen(name: &str, is_dir: bool) -> Seen {
    Seen { name: name.to_string(), is_dir }
}

#[test]
fn the_picker_lists_folders_and_walks_between_them() {
    let list = picker::candidates("/a/b/c");
    assert_eq!(list[0], "/a/b/c");
    assert_eq!(picker::nearest(&list, &vec![false, true, true, true][..list.len()].to_vec()), "/a/b");

    let listing = Ok(vec![
        seen("zed", true),
        seen("file", false),
        seen("Alpha", true),
    ]);
    let mut p = Picker::new("/a".to_string(), Target::ProjectRoot, listing);
    assert_eq!(p.entries, strings(&["/a/Alpha", "/a/zed"]));
    assert!(p.error.is_none());
    p.move_by(1);
    assert_eq!(p.open(), Some("/a/zed".to_string()));
    p.reload(Err("denied".to_string()));
    assert!(p.error.is_some());
    assert!(p.entries.is_empty());
    assert_eq!(p.parent(), Some("/a".to_string()));
}

// ------------------------------------------------------------------ screens

fn width_of(line: &Line) -> usize {
    let text: String = line.spans.iter().map(|s| s.text.as_str()).collect();
    ratatui::text::Span::raw(text).width()
}

fn text_of(line: &Line) -> String {
    line.spans.iter().map(|s| s.text.as_str()).collect()
}

#[test]
fn the_key_bar_drops_hints_to_fit_but_never_the_last_one() {
    let keys = vec![
        ("Enter", "Import"),
        ("A", "All"),
        ("W", "Search"),
        ("Tab", "Pane"),
        ("/", "Filter"),
        ("R", "Rescan"),
        ("S", "Settings"),
        ("F12", "Diag"),
        ("Q", "Quit"),
    ];

    let full = ui::hints(&keys, 200);
    assert!(width_of(&full) <= 200);
    assert!(width_of(&full) > 80, "a wide terminal shows every hint");

    for width in [80u16, 40, 20, 8] {
        let line = ui::hints(&keys, width);
        assert!(
            width_of(&line) <= width as usize,
            "{width} columns produced {} columns",
            width_of(&line)
        );
        let text = text_of(&line);
        assert!(text.contains("[Q] Quit"), "the way out survives at {width}: {text}");
    }

    // Hints are dropped from the end inwards, so the leading ones stay as long
    // as there is room for them at all.
    assert_eq!(text_of(&ui::hints(&keys, 40)), "[Enter] Import  [A] All  [Q] Quit");
}

fn fields(cfg: &Config) -> Vec<Option<String>> {
    Field::ALL.iter().map(|f| f.path(cfg)).collect()
}

#[test]
fn a_saved_configuration_loads_back_with_merging_off() {
    let mut cfg = Config::default_in("/home/u");
    cfg.merged_symbol_lib = None;
    cfg.symbol_dir = "/elsewhere/parts".to_string();
    cfg.download_dir = "~/inbox".to_string();
    cfg.delete_zip_after_import = true;
    cfg.projects =
        vec![Project { name: "a".to_string(), library_root: "b".to_string(), download_dir: None }];
    let moved = cfg.normalize_in("/etc/KiLib/config.toml", "/home/u");
    assert_eq!(moved, vec![Field::SymbolDir]);

    let read = cfg.for_file();
    assert_eq!(read.merged_symbol_lib, Some(String::new()));
    let loaded = Config::load_in(Reading::Parsed(read), "/etc/KiLib/config.toml", "/home/u");
    assert!(loaded.moved.is_empty());
    assert!(!loaded.write);
    assert_eq!(fields(&loaded.config), fields(&cfg));
    assert_eq!(loaded.config.merged_symbol_lib, None);
    assert_eq!(loaded.config.symbol_dir, "/home/u/KiCad/lib/parts");
    assert!(loaded.config.delete_zip_after_import);
    assert_eq!(loaded.config.projects[0].library_root, "/etc/KiLib/b");

    // Normalizing once more changes nothing.
    let mut again = loaded.config.clone();
    assert!(again.normalize_in("/etc/KiLib/config.toml", "/home/u").is_empty());
    assert_eq!(fields(&again), fields(&cfg));
}

#[test]
fn an_empty_root_is_moved_to_and_back_from() {
    let mut cfg = config_for("/work");
    cfg.rebase("");
    assert_eq!(cfg.symbol_dir, "symbols");
    assert_eq!(cfg.merged_symbol_lib, Some("murky-informis.kicad_sym".to_string()));
    cfg.rebase("/work/lib");
    assert_eq!(fields(&cfg), fields(&config_for("/work")));
}

#[test]
fn long_names_are_cut_in_the_middle_and_sizes_are_readable() {
    assert_eq!(ui::fit("short", 10), "short");
    assert_eq!(ui::fit("/a/very/long/path/name", 11).chars().count(), 11);
    assert_eq!(ui::fit("/a/very/long/path/name", 6), "/...me");
    assert_eq!(ui::fit("/a/very/long/path/name", 5), "/name", "no room for dots: the end");
    assert_eq!(ui::fit("/a/very/long/path/name", 0), "");
    assert_eq!(ui::truncate("abcdef", 4), "abc…");
    assert_eq!(ui::human_size(0), "0 B");
    assert_eq!(ui::human_size(1023), "1023 B");
    assert_eq!(ui::human_size(1024), "1.0 KB");
    assert_eq!(ui::human_size(1536), "1.5 KB");
    assert_eq!(ui::human_size(5 * 1024 * 1024), "5.0 MB");
}

#[test]
fn wide_letters_take_two_columns() {
    let mut lines = Lines::new();
    lines.say("德州仪器", Look::plain());
    lines.skip();
    assert_eq!(ui::height(&lines, 8, 100), 2);
    assert_eq!(ui::height(&lines, 7, 100), 3);
    assert_eq!(ui::height(&lines, 1, 5), 5, "no more than asked for");
}

#[test]
fn a_prompt_stays_on_the_screen() {
    let p = Pending {
        part: "P".to_string(),
        source: "p.zip".to_string(),
        staged: Vec::new(),
        staging: "/tmp/p".to_string(),
        conflicts: strings(&["symbols/P.kicad_sym"]),
        zip: None,
    };
    for (w, h) in [(120u16, 40u16), (20, 6), (0, 0)] {
        let prompt = ui::prompts::overwrite(&p, &None, w, h);
        assert!(prompt.x as u32 + prompt.width as u32 <= w as u32);
        assert!(prompt.y as u32 + prompt.height as u32 <= h as u32);
    }
    let all = ui::prompts::overwrite(&p, &None, 120, 40);
    let text: Vec<String> = all.panel.lines.list.iter().map(|l| text_of(l)).collect();
    assert!(text.iter().any(|l| l.contains("symbols/P.kicad_sym")), "{text:?}");

    let v = app::Validate { missing: vec![Field::LibraryRoot, Field::DownloadDir], index: 0 };
    let asked = ui::prompts::validate(&v, &config_for("/work"), 120, 40);
    let lines = asked.expect("there is a question").panel.lines.list;
    let text: Vec<String> = lines.iter().map(|l| text_of(l)).collect();
    assert!(text.iter().any(|l| l.contains("Create All")), "{text:?}");
    let done = app::Validate { missing: Vec::new(), index: 0 };
    assert!(ui::prompts::validate(&done, &config_for("/work"), 120, 40).is_none());
}

// ------------------------------------------------------------ command line

#[test]
fn overrides_are_applied_from_the_project_down() {
    let mut cfg = config_for("/work");
    cfg.projects.push(Project {
        name: "synth".to_string(),
        library_root: "/pcb/synth".to_string(),
        download_dir: Some("/pcb/zips".to_string()),
    });
    let o = Overrides {
        project: Some("Synth".to_string()),
        download_dir: Some("zips".to_string()),
        library_root: None,
    };
    let out = cli::apply(cfg.clone(), &o, "/here", "/home/u").ok().unwrap();
    assert_eq!(out.library_root, "/pcb/synth");
    assert_eq!(out.download_dir, "/here/zips", "the single setting wins");

    let o = Overrides {
        project: None,
        download_dir: None,
        library_root: Some("~/moved".to_string()),
    };
    let out = cli::apply(cfg.clone(), &o, "/here", "/home/u").ok().unwrap();
    assert_eq!(out.library_root, "/home/u/moved");
    assert_eq!(out.symbol_dir, "/home/u/moved/symbols");

    let o = Overrides { project: Some("other".to_string()), download_dir: None, library_root: None };
    assert_eq!(cli::apply(cfg.clone(), &o, "/here", "/home/u").err(), Some("other".to_string()));
    assert_eq!(
        cli::unknown_project(&cfg, "other"),
        strings(&["no saved project called \"other\".", "known projects: synth"])
    );
    assert_eq!(
        cli::unknown_project(&config_for("/work"), "x")[1],
        "no projects are saved yet; press [P] in the interface to save one."
    );
}

#[test]
fn the_headless_modes_print_one_line_each() {
    let mut cfg = config_for("/work");
    assert_eq!(
        cli::list_projects(&cfg),
        strings(&["No saved projects. Press [P] in the interface to save one."])
    );
    cfg.remember_project("here");
    cfg.projects.push(Project {
        name: "there".to_string(),
        library_root: "/else".to_string(),
        download_dir: None,
    });
    assert_eq!(
        cli::list_projects(&cfg),
        vec![format!("* {:<24} /work/lib", "here"), format!("  {:<24} /else", "there")]
    );
    assert_eq!(cli::run_search("x", &Vec::new()), strings(&["No results for \"x\"."]));
    let h = Hit {
        id: "C1".to_string(),
        mpn: "NE555P".to_string(),
        manufacturer: "TI".to_string(),
        package: "DIP-8".to_string(),
        category: "Timers".to_string(),
        stock: 12,
    };
    assert_eq!(
        cli::run_search("x", &vec![h]),
        vec![format!("{:<12} {:<26} {:<20} {:<18} 12 in stock", "C1", "NE555P", "TI", "DIP-8")]
    );
    let s = ImportSummary {
        part: "P".to_string(),
        symbols: strings(&["a"]),
        footprints: strings(&["b", "c"]),
        models: Vec::new(),
        merged_symbols: Vec::new(),
        archived_to: None,
        deleted_zip: false,
    };
    assert_eq!(
        cli::summary_line("Imported", &s),
        "Imported P: 1 symbol(s), 2 footprint(s), 0 model(s)"
    );
}

#[test]
fn the_log_sits_beside_the_configuration() {
    assert_eq!(cli::log_file("/etc/kilib/config.toml", "/here"), "/etc/kilib/importer.log");
    assert_eq!(cli::log_file("/", "/here"), "/here/importer.log");
    let usual = "/home/u/.config/x.toml".to_string();
    assert_eq!(cli::config_file(&None, "/here", "/home/u", usual.clone()), usual);
    assert_eq!(
        cli::config_file(&Some("c.toml".to_string()), "/here", "/home/u", usual),
        "/here/c.toml"
    );
}
