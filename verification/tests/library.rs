//! What imports, scans and the screens do to a library, on a disk that is held
//! in memory.

use std::collections::{BTreeMap, BTreeSet};
use std::io::Write;

use kilib::app::{App, Effect, Event, Focus, Found, Job, Key, KeyPress, Reply, Screen};
use kilib::config::{Config, Field, Project, Reading};
use kilib::importer::{Action, Extracted, ImportSummary, Pending};
use kilib::library::{Folder, Listed};
use kilib::manifest::{Manifest, Part};
use kilib::online::easyeda::Hit;
use kilib::picker::Seen;
use kilib::scan::{Met, ScanResult, ZipEntry};
use kilib::{config, importer, library, manifest, paths, picker, scan, symlib};

const HOME: &str = "/home/u";
const NOW: &str = "2026-07-26T00:00:00+00:00";

// ------------------------------------------------------------------ the disk

struct Disk {
    files: BTreeMap<String, Vec<u8>>,
    dirs: BTreeSet<String>,
    /// What the manifest files hold; `None` stands for one that is no JSON.
    manifests: BTreeMap<String, Option<Manifest>>,
    configs: BTreeMap<String, Config>,
}

fn inside(path: &str, dir: &str) -> bool {
    path.starts_with(&format!("{dir}/"))
}

fn parent_of(path: &str) -> String {
    path[..path.rfind('/').unwrap()].to_string()
}

fn leaf_of(path: &str) -> String {
    path[path.rfind('/').unwrap() + 1..].to_string()
}

impl Disk {
    fn new() -> Disk {
        let mut disk = Disk {
            files: BTreeMap::new(),
            dirs: BTreeSet::new(),
            manifests: BTreeMap::new(),
            configs: BTreeMap::new(),
        };
        disk.make_dir("/work");
        disk
    }

    fn make_dir(&mut self, path: &str) {
        let mut at = path.to_string();
        while !at.is_empty() {
            self.dirs.insert(at.clone());
            at = parent_of(&at);
        }
    }

    fn is_dir(&self, path: &str) -> bool {
        self.dirs.contains(path)
    }

    fn is_file(&self, path: &str) -> bool {
        self.files.contains_key(path) || self.manifests.contains_key(path)
    }

    fn there(&self, path: &str) -> bool {
        self.is_dir(path) || self.is_file(path)
    }

    fn touch(&mut self, path: &str, bytes: &[u8]) {
        self.make_dir(&parent_of(path));
        self.files.insert(path.to_string(), bytes.to_vec());
    }

    fn write(&mut self, path: &str, bytes: Vec<u8>) -> Result<(), String> {
        if !self.is_dir(&parent_of(path)) {
            return Err("No such file or directory".to_string());
        }
        self.files.insert(path.to_string(), bytes);
        Ok(())
    }

    fn text(&self, path: &str) -> Result<String, String> {
        match self.files.get(path) {
            Some(bytes) => Ok(String::from_utf8(bytes.clone()).unwrap()),
            None => Err("No such file or directory".to_string()),
        }
    }

    fn copy(&mut self, from: &str, to: &str) -> Result<(), String> {
        match self.files.get(from).cloned() {
            Some(bytes) => self.write(to, bytes),
            None => Err("No such file or directory".to_string()),
        }
    }

    fn remove(&mut self, path: &str) -> Result<(), String> {
        match self.files.remove(path) {
            Some(_) => Ok(()),
            None => Err("No such file or directory".to_string()),
        }
    }

    fn remove_tree(&mut self, path: &str) {
        self.files.retain(|p, _| !inside(p, path));
        self.dirs.retain(|d| d != path && !inside(d, path));
    }

    fn children(&self, dir: &str) -> Vec<String> {
        let mut out: Vec<String> = Vec::new();
        for p in self.files.keys().chain(self.manifests.keys()) {
            if parent_of(p) == dir {
                out.push(p.clone());
            }
        }
        for d in &self.dirs {
            if parent_of(d) == dir {
                out.push(d.clone());
            }
        }
        out
    }

    fn listing(&self, dir: &str) -> Result<Vec<Seen>, String> {
        if !self.is_dir(dir) {
            return Err("No such file or directory".to_string());
        }
        let mut out = Vec::new();
        for p in self.children(dir) {
            out.push(Seen { name: leaf_of(&p), is_dir: self.is_dir(&p) });
        }
        Ok(out)
    }

    fn listed(&self, dir: &str) -> Vec<Listed> {
        let mut out = Vec::new();
        for p in self.children(dir) {
            out.push(Listed {
                name: leaf_of(&p),
                is_file: self.is_file(&p),
                modified: NOW.to_string(),
                text: self.text(&p).unwrap_or_default(),
            });
        }
        out
    }

    // ------------------------------------------------------ what the app asks

    fn scan(&self, cfg: &Config) -> ScanResult {
        let mut met = Vec::new();
        for (p, bytes) in &self.files {
            if inside(p, &cfg.download_dir) && !scan::skips(cfg, p) {
                met.push(Met::File { path: p.clone(), size: bytes.len() as u64 });
            }
        }
        scan::scan(cfg, self.is_dir(&cfg.download_dir), &met)
    }

    fn scan_library(&self, cfg: &Config) -> Vec<Part> {
        let mut folders = Vec::new();
        for p in self.children(&cfg.footprint_dir) {
            if self.is_dir(&p) {
                folders.push(Folder { name: leaf_of(&p), files: self.listed(&p) });
            }
        }
        library::scan(
            cfg,
            &self.listed(&cfg.symbol_dir),
            &self.listed(&cfg.model_dir),
            &folders,
            &self.listed(&cfg.footprint_dir),
        )
    }

    fn manifest(&self, cfg: &Config) -> Manifest {
        let read = match self.manifests.get(&cfg.manifest_path) {
            Some(Some(m)) => Some(copy_manifest(m)),
            _ => None,
        };
        Manifest::load(read)
    }

    fn record(&mut self, cfg: &Config, part: Part) {
        let m = manifest::record_at(self.manifest(cfg), cfg, part, NOW.to_string());
        self.manifests.insert(cfg.manifest_path.clone(), Some(m));
    }

    fn found(&self, cfg: &Config) -> Found {
        Found {
            zips: self.scan(cfg),
            recorded: self.manifest(cfg).parts,
            present: self.scan_library(cfg),
            at: "12:00:00".to_string(),
        }
    }

    fn unpack(&mut self, cfg: &Config, pending: Pending, files: Vec<Extracted>) -> Pending {
        self.remove_tree(&pending.staging);
        self.make_dir(&pending.staging);
        for f in files {
            let path = f.item.path.clone();
            self.make_dir(&parent_of(&path));
            self.write(&path, f.contents).unwrap();
        }
        let mut present = Vec::new();
        for p in importer::all_destinations(cfg, &pending.part, &pending.staged) {
            present.push(self.there(&p));
        }
        let conflicts = importer::conflicts(cfg, &pending.part, &pending.staged, &present);
        Pending { conflicts, ..pending }
    }

    fn prepare(&mut self, cfg: &Config, zip: &str) -> Result<Pending, String> {
        let bytes = self.files.get(zip).unwrap().clone();
        let (pending, files) = importer::prepare(cfg, zip, &bytes)?;
        Ok(self.unpack(cfg, pending, files))
    }

    fn act(&mut self, cfg: &Config, action: &Action, part: Part) -> importer::Reply {
        let done = match action {
            Action::MakeDir { path } => {
                self.make_dir(path);
                Ok(())
            }
            Action::ReadSymbol { path } => {
                return match self.text(path) {
                    Ok(t) => importer::Reply::Text(t),
                    Err(e) => importer::Reply::Failed(e),
                };
            }
            Action::ReadLibrary { path, .. } => {
                return importer::Reply::Existing(self.text(path).ok());
            }
            Action::Backup { from, to } => {
                if self.is_file(from) {
                    self.copy(from, to)
                } else {
                    Ok(())
                }
            }
            Action::WriteLibrary { path, text, .. } => self.write(path, text.clone().into_bytes()),
            Action::Rename { from, to } => self.copy(from, to).and_then(|_| self.remove(from)),
            Action::Copy { from, to } => self.copy(from, to),
            Action::Remove { path } => self.remove(path),
            Action::RemoveTree { path } => {
                self.remove_tree(path);
                Ok(())
            }
            Action::Record => {
                self.record(cfg, part);
                Ok(())
            }
        };
        match done {
            Ok(()) => importer::Reply::Done,
            Err(e) => importer::Reply::Failed(e),
        }
    }

    fn finish(&mut self, cfg: &Config, pending: Pending) -> Result<ImportSummary, String> {
        let mut install = importer::install(cfg, pending);
        loop {
            let part = install.record_at(NOW.to_string());
            let reply = match install.next() {
                None => break,
                Some(task) => self.act(cfg, &task.action, part),
            };
            install.reply(reply)?;
        }
        importer::finish(&install)
    }

    fn import(&mut self, cfg: &Config, zip: &str) -> Result<ImportSummary, String> {
        let pending = self.prepare(cfg, zip)?;
        self.finish(cfg, pending)
    }
}

fn copy_manifest(m: &Manifest) -> Manifest {
    let mut out = Manifest::default();
    out.parts = m.parts.clone();
    out.generated = m.generated.clone();
    out.library_root = m.library_root.clone();
    out.layout.symbols = m.layout.symbols.clone();
    out.layout.footprints = m.layout.footprints.clone();
    out.layout.models = m.layout.models.clone();
    out.layout.merged_symbol_lib = m.layout.merged_symbol_lib.clone();
    out.layout.archive = m.layout.archive.clone();
    out.layout.per_part_footprint_dirs = m.layout.per_part_footprint_dirs;
    out
}

// ------------------------------------------------------------------- helpers

fn join(base: &str, leaf: &str) -> String {
    format!("{base}/{leaf}")
}

fn config_for(root: &str) -> Config {
    let lib = join(root, "lib");
    Config {
        download_dir: join(root, "downloads"),
        symbol_dir: join(&lib, "symbols"),
        footprint_dir: join(&lib, "footprints.pretty"),
        model_dir: join(&lib, "3dmodels"),
        temp_dir: join(&lib, "cache"),
        archive_dir: join(&lib, "archive"),
        merged_symbol_lib: Some(join(&lib, "murky-informis.kicad_sym")),
        manifest_path: join(&lib, "library.json"),
        per_part_footprint_dirs: true,
        backup_before_overwrite: true,
        delete_zip_after_import: false,
        projects: Vec::new(),
        library_root: lib,
    }
}

fn make_dirs(disk: &mut Disk, cfg: &Config) {
    for field in Field::DIRS {
        disk.make_dir(field.dir(cfg).unwrap());
    }
}

fn ready() -> (Disk, Config) {
    let mut disk = Disk::new();
    let cfg = config_for("/work");
    make_dirs(&mut disk, &cfg);
    (disk, cfg)
}

/// A single-symbol library in the shape SamacSys actually emits.
fn kicad_sym(part: &str) -> String {
    format!(
        r#"(kicad_symbol_lib (version 20211014) (generator SamacSys_ECAD_Model)
  (symbol "{part}" (in_bom yes) (on_board yes)
    (property "Reference" "IC" (at 0 0 0)
      (effects (font (size 1.27 1.27)) (justify left top))
    )
    (property "Value" "{part}" (at 0 -2.54 0)
      (effects (font (size 1.27 1.27)) (justify left top))
    )
    (symbol "{part}_0_0"
      (rectangle (start 0 0) (end 10 -10))
    )
  )
)
"#
    )
}

fn zip_of(members: &[(String, String)]) -> Vec<u8> {
    let mut zip = zip::ZipWriter::new(std::io::Cursor::new(Vec::new()));
    let opts = zip::write::SimpleFileOptions::default();
    for (name, body) in members {
        zip.start_file(name.clone(), opts).unwrap();
        zip.write_all(body.as_bytes()).unwrap();
    }
    zip.finish().unwrap().into_inner()
}

/// Builds a ZIP shaped like a real Component Search Engine export.
fn cse_zip(part: &str, footprint: &str) -> Vec<u8> {
    zip_of(&[
        (format!("{part}/KiCad/{part}.kicad_sym"), kicad_sym(part)),
        (format!("{part}/KiCad/{footprint}.kicad_mod"), "(footprint)".to_string()),
        (format!("{part}/KiCad/{part}.lib"), "legacy".to_string()),
        (format!("{part}/KiCad/{part}.dcm"), "legacy docs".to_string()),
        (format!("{part}/3D/{part}.stp"), "ISO-10303-21;".to_string()),
        // Decoys from the other EDA tool trees that must not be imported.
        (format!("{part}/Altium/{part}.SchLib"), "altium".to_string()),
        (format!("{part}/How_To_Use_Models.pdf"), "%PDF-1.4".to_string()),
        ("license.txt".to_string(), "license".to_string()),
    ])
}

fn write_cse_zip(disk: &mut Disk, path: &str, part: &str, footprint: &str) {
    disk.touch(path, &cse_zip(part, footprint));
}

fn part(name: &str, source: &str) -> Part {
    Part { name: name.to_string(), source: source.to_string(), ..Default::default() }
}

fn hit(id: &str, mpn: &str) -> Hit {
    Hit {
        id: id.to_string(),
        mpn: mpn.to_string(),
        manufacturer: String::new(),
        package: String::new(),
        category: String::new(),
        stock: 0,
    }
}

// ---------------------------------------------------------------- the driver

/// Does what the app asked for, and everything that follows from the replies.
/// What background work comes to is left in `later`.
fn serve(app: &mut App, disk: &mut Disk, effects: Vec<Effect>, later: &mut Vec<Event>) {
    for effect in effects {
        let reply = match effect {
            Effect::Scan { cfg } => Reply::Scanned(disk.found(&cfg)),
            Effect::Watch { .. } => Reply::Watching(Ok(())),
            Effect::Check { root, download } => {
                Reply::Checked { root: disk.is_dir(&root), download: disk.is_dir(&download) }
            }
            Effect::Save { cfg, path } => {
                disk.configs.insert(path, cfg);
                Reply::Saved(Ok(()))
            }
            Effect::Create { paths } => {
                for p in paths {
                    disk.make_dir(&p);
                }
                Reply::Created(Ok(()))
            }
            Effect::Browse { start } => {
                let list = picker::candidates(&start);
                let present: Vec<bool> = list.iter().map(|p| disk.is_dir(p)).collect();
                let cwd = picker::nearest(&list, &present);
                let listing = disk.listing(&cwd);
                Reply::Opened { cwd, listing }
            }
            Effect::List { path } => Reply::Listed(disk.listing(&path)),
            Effect::Prepare { job, cfg, .. } => {
                let result = match job {
                    Job::Zip(entry) => disk.prepare(&cfg, &entry.path),
                    Job::Web(_) => Err("offline".to_string()),
                };
                later.push(Event::ImportPrepared(result));
                continue;
            }
            Effect::Finish { pending, cfg } => {
                let result = disk.finish(&cfg, pending);
                later.push(Event::ImportDone(result));
                continue;
            }
            Effect::Discard { pending } => {
                if let Action::RemoveTree { path } = importer::discard(&pending) {
                    disk.remove_tree(&path);
                }
                continue;
            }
            Effect::Find { .. } => {
                later.push(Event::SearchDone(Err("offline".to_string())));
                continue;
            }
        };
        let more = app.reply(reply);
        serve(app, disk, more, later);
    }
}

fn start(disk: &mut Disk, cfg: &Config, root: &str) -> (App, Vec<Event>) {
    start_over(disk, cfg, cfg, root)
}

/// Starts with a configuration that the command line made of the one on file.
fn start_over(
    disk: &mut Disk,
    cfg: &Config,
    stored: &Config,
    root: &str,
) -> (App, Vec<Event>) {
    let (mut app, effects) = App::new(
        cfg.clone(),
        stored.clone(),
        join(root, "config.toml"),
        root.to_string(),
        "/usr/bin/kilib".to_string(),
        HOME.to_string(),
        disk.is_dir(&cfg.library_root),
        disk.is_dir(&cfg.download_dir),
    );
    let mut later = Vec::new();
    serve(&mut app, disk, effects, &mut later);
    (app, later)
}

fn app_for(disk: &mut Disk, cfg: &Config) -> App {
    start(disk, cfg, "/work").0
}

fn tell(app: &mut App, disk: &mut Disk, event: Event) -> Vec<Event> {
    let effects = app.handle(event);
    let mut later = Vec::new();
    serve(app, disk, effects, &mut later);
    later
}

fn press(app: &mut App, disk: &mut Disk, key: Key) -> Vec<Event> {
    tell(app, disk, Event::Key(KeyPress { key, control: false, press: true }))
}

fn type_text(app: &mut App, disk: &mut Disk, text: &str) {
    for c in text.chars() {
        press(app, disk, Key::Char(c));
    }
}

/// Hands the events on until the import settles — finished, or stopped on a
/// question for the user.
fn pump(app: &mut App, disk: &mut Disk, mut later: Vec<Event>) {
    while app.pending.is_none() && app.run.is_some() {
        assert!(!later.is_empty(), "no progress from the import");
        let event = later.remove(0);
        later.extend(tell(app, disk, event));
    }
}

fn strings(list: &[&str]) -> Vec<String> {
    list.iter().map(|s| s.to_string()).collect()
}

// -------------------------------------------------------------- configuration

fn text_in(table: &toml::Table, key: &str) -> Option<String> {
    table.get(key).and_then(|v| v.as_str()).map(|s| s.to_string())
}

fn flag_in(table: &toml::Table, key: &str, other: bool) -> bool {
    table.get(key).and_then(|v| v.as_bool()).unwrap_or(other)
}

fn config_from(text: &str) -> Config {
    let table: toml::Table = text.parse().unwrap();
    let mut cfg = Config::default();
    for (field, key) in [
        (Field::LibraryRoot, "library_root"),
        (Field::DownloadDir, "download_dir"),
        (Field::SymbolDir, "symbol_dir"),
        (Field::FootprintDir, "footprint_dir"),
        (Field::ModelDir, "model_dir"),
        (Field::TempDir, "temp_dir"),
        (Field::ArchiveDir, "archive_dir"),
        (Field::MergedSymbolLib, "merged_symbol_lib"),
        (Field::ManifestPath, "manifest_path"),
    ] {
        if let Some(value) = text_in(&table, key) {
            field.set_path(&mut cfg, value);
        }
    }
    cfg.delete_zip_after_import = flag_in(&table, "delete_zip_after_import", false);
    if let Some(list) = table.get("projects").and_then(|v| v.as_array()) {
        for entry in list {
            let t = entry.as_table().unwrap();
            cfg.projects.push(Project {
                name: text_in(t, "name").unwrap(),
                library_root: text_in(t, "library_root").unwrap(),
                download_dir: text_in(t, "download_dir"),
            });
        }
    }
    cfg
}

fn put(table: &mut toml::Table, key: &str, value: &str) {
    table.insert(key.to_string(), toml::Value::String(value.to_string()));
}

fn config_to(cfg: &Config) -> String {
    let mut table = toml::Table::new();
    put(&mut table, "library_root", &cfg.library_root);
    put(&mut table, "download_dir", &cfg.download_dir);
    put(&mut table, "symbol_dir", &cfg.symbol_dir);
    put(&mut table, "footprint_dir", &cfg.footprint_dir);
    put(&mut table, "model_dir", &cfg.model_dir);
    put(&mut table, "temp_dir", &cfg.temp_dir);
    put(&mut table, "archive_dir", &cfg.archive_dir);
    put(&mut table, "merged_symbol_lib", &cfg.merged_symbol_lib.clone().unwrap_or_default());
    put(&mut table, "manifest_path", &cfg.manifest_path);
    table.insert(
        "delete_zip_after_import".to_string(),
        toml::Value::Boolean(cfg.delete_zip_after_import),
    );
    let mut projects = Vec::new();
    for p in &cfg.projects {
        let mut t = toml::Table::new();
        put(&mut t, "name", &p.name);
        put(&mut t, "library_root", &p.library_root);
        if let Some(dir) = &p.download_dir {
            put(&mut t, "download_dir", dir);
        }
        projects.push(toml::Value::Table(t));
    }
    table.insert("projects".to_string(), toml::Value::Array(projects));
    toml::to_string(&table).unwrap()
}

fn load(text: &str, path: &str) -> Config {
    Config::load(Reading::Parsed(config_from(text)), path).config
}

#[test]
fn config_round_trips_through_toml_with_tilde_expanded() {
    let cfg = load(
        r#"
library_root = "~/KiCad/lib"
download_dir = "~/Downloads/KiCad"
symbol_dir = "~/KiCad/lib/symbols"
footprint_dir = "~/KiCad/lib/footprints"
model_dir = "~/KiCad/lib/3dmodels"
temp_dir = "~/KiCad/lib/cache"
archive_dir = "~/KiCad/lib/archive"
delete_zip_after_import = true
"#,
        "/work/config.toml",
    );
    let home = config::home_dir();
    assert_eq!(cfg.download_dir, paths::join_path(&home, "Downloads/KiCad"));
    assert_eq!(cfg.symbol_dir, paths::join_path(&home, "KiCad/lib/symbols"));
    assert!(cfg.delete_zip_after_import);

    // Saving and reloading must not drift.
    let reloaded = load(&config_to(&cfg), "/work/second.toml");
    assert_eq!(reloaded.download_dir, cfg.download_dir);
    assert_eq!(reloaded.model_dir, cfg.model_dir);
}

#[test]
fn projects_survive_a_config_round_trip() {
    let mut cfg = config_for("/work");
    cfg.remember_project("main");
    cfg.library_root = "/work/other".to_string();
    cfg.remember_project("other");

    // TOML arrays of tables swallow every key written after them, so `projects`
    // has to be the last field serialised.
    let text = config_to(&cfg);
    assert!(text.contains("[[projects]]"), "{text}");
    let table = text.find("[[projects]]").unwrap();
    assert!(
        !text[table..].contains("library_root = ") || text[table..].contains("name = "),
        "plain settings must not follow the project tables"
    );

    let back = load(&text, "/work/config.toml");
    assert_eq!(back.projects.len(), 2);
    assert_eq!(back.projects[0].name, "main");
    assert_eq!(back.projects[0].library_root, "/work/lib");
    assert_eq!(back.projects[1].library_root, "/work/other");
    assert_eq!(back.library_root, "/work/other");
    // The root was moved without the folders under it, which loading corrects:
    // a library is always one self-contained tree.
    assert_eq!(back.symbol_dir, "/work/other/symbols");
    assert_eq!(back.manifest_path, "/work/other/library.json");
}

#[test]
fn missing_dirs_only_covers_the_locations_the_user_chooses() {
    let mut disk = Disk::new();
    let cfg = config_for("/work");
    let missing = |disk: &Disk| {
        cfg.missing_dirs(disk.is_dir(&cfg.library_root), disk.is_dir(&cfg.download_dir))
    };
    // Nothing exists yet, but only the library root and the ZIP folder are the
    // user's to answer for — the rest are inside the root.
    assert_eq!(missing(&disk), vec![Field::LibraryRoot, Field::DownloadDir]);

    disk.make_dir(&cfg.download_dir);
    assert_eq!(missing(&disk), vec![Field::LibraryRoot]);

    disk.make_dir(&cfg.library_root);
    assert!(
        missing(&disk).is_empty(),
        "an absent symbols folder is not a question for the user: {:?}",
        missing(&disk)
    );
}

// ---------------------------------------------------------------- discovery

#[test]
fn scan_finds_zips_in_nested_subdirectories() {
    let mut disk = Disk::new();
    let cfg = config_for("/work");
    disk.make_dir(&cfg.download_dir);
    disk.touch(&join(&cfg.download_dir, "STM32.zip"), b"x");
    disk.touch(&join(&cfg.download_dir, "Memory/MT41K128.zip"), b"x");
    disk.touch(&join(&cfg.download_dir, "USB/deep/nested/USB3343.zip"), b"x");
    disk.touch(&join(&cfg.download_dir, "notes.txt"), b"x");

    let result = disk.scan(&cfg);
    assert!(result.errors.is_empty(), "unexpected errors: {:?}", result.errors);

    let found: Vec<&str> = result.entries.iter().map(|e| e.display.as_str()).collect();
    assert_eq!(found.len(), 3, "found: {found:?}");
    assert!(found.contains(&"STM32.zip"));
    assert!(found.contains(&"Memory/MT41K128.zip"));
    assert!(found.contains(&"USB/deep/nested/USB3343.zip"));
}

#[test]
fn scan_matches_uppercase_extension() {
    let mut disk = Disk::new();
    let cfg = config_for("/work");
    disk.make_dir(&cfg.download_dir);
    disk.touch(&join(&cfg.download_dir, "PART.ZIP"), b"x");

    assert_eq!(disk.scan(&cfg).entries.len(), 1);
}

#[test]
fn scan_skips_archive_and_temp_subtrees() {
    let mut disk = Disk::new();
    let mut cfg = config_for("/work");
    // Put archive and temp *inside* the download dir, the worst case.
    cfg.archive_dir = join(&cfg.download_dir, "archive");
    cfg.temp_dir = join(&cfg.download_dir, "cache");
    disk.make_dir(&cfg.download_dir);

    disk.touch(&join(&cfg.download_dir, "live.zip"), b"x");
    disk.touch(&join(&cfg.archive_dir, "already-imported.zip"), b"x");
    disk.touch(&join(&cfg.temp_dir, "scratch.zip"), b"x");

    let entries = disk.scan(&cfg).entries;
    assert_eq!(entries.len(), 1);
    assert_eq!(entries[0].display, "live.zip");
}

#[test]
fn scan_reports_missing_directory_instead_of_returning_empty_silently() {
    let disk = Disk::new();
    let cfg = config_for("/work"); // download_dir was never created
    let result = disk.scan(&cfg);
    assert!(result.entries.is_empty());
    assert_eq!(result.errors.len(), 1);
    assert!(result.errors[0].contains("does not exist"));
}

#[test]
fn a_walk_error_does_not_hide_the_rest() {
    let cfg = config_for("/work");
    let met = vec![
        Met::Error {
            at: Some("/work/downloads/locked".to_string()),
            message: "Permission denied".to_string(),
        },
        Met::Error { at: None, message: "loop".to_string() },
        Met::Other { path: "/work/downloads/folder.zip".to_string() },
        Met::File { path: "/work/downloads/b.zip".to_string(), size: 7 },
        Met::File { path: "/work/downloads/A.zip".to_string(), size: 9 },
    ];
    let result = scan::scan(&cfg, true, &met);
    assert_eq!(
        result.errors,
        strings(&[
            "cannot read /work/downloads/locked: Permission denied",
            "walk error: loop"
        ])
    );
    // Sorted without regard to case.
    let found: Vec<&str> = result.entries.iter().map(|e| e.display.as_str()).collect();
    assert_eq!(found, vec!["A.zip", "b.zip"]);
    assert_eq!(result.entries[1].size, 7);
}

// ------------------------------------------------------------------ import

#[test]
fn import_places_files_in_configured_directories() {
    let (mut disk, cfg) = ready();
    let zip_path = join(&cfg.download_dir, "LIB_TPD12S016PWR.zip");
    write_cse_zip(&mut disk, &zip_path, "TPD12S016PWR", "SOP65P640X120-24N");

    let summary = disk.import(&cfg, &zip_path).ok().unwrap();

    assert_eq!(summary.symbols, vec!["TPD12S016PWR.kicad_sym"]);
    assert_eq!(summary.footprints, vec!["SOP65P640X120-24N.kicad_mod"]);
    assert_eq!(summary.models, vec!["TPD12S016PWR.stp"]);

    assert!(disk.is_file(&join(&cfg.symbol_dir, "TPD12S016PWR.kicad_sym")));
    assert!(disk.is_file(&join(&cfg.footprint_dir, "SOP65P640X120-24N.kicad_mod")));
    assert!(disk.is_file(&join(&cfg.model_dir, "TPD12S016PWR.stp")));

    // The Altium/PDF/legacy decoys must not have been copied anywhere.
    assert!(!disk.there(&join(&cfg.symbol_dir, "TPD12S016PWR.lib")));
    assert!(!disk.there(&join(&cfg.footprint_dir, "TPD12S016PWR.SchLib")));

    // Source zip archived, staging cleaned up.
    assert!(!disk.there(&zip_path));
    assert!(disk.is_file(&join(&cfg.archive_dir, "LIB_TPD12S016PWR.zip")));
    assert!(!disk.there(&join(&cfg.temp_dir, "LIB_TPD12S016PWR")));
    assert_eq!(summary.archived_to, Some(join(&cfg.archive_dir, "LIB_TPD12S016PWR.zip")));
}

#[test]
fn import_deletes_source_zip_when_configured() {
    let (mut disk, mut cfg) = ready();
    cfg.delete_zip_after_import = true;
    let zip_path = join(&cfg.download_dir, "LIB_PART.zip");
    write_cse_zip(&mut disk, &zip_path, "PART", "QFN");

    let summary = disk.import(&cfg, &zip_path).ok().unwrap();
    assert!(summary.deleted_zip);
    assert!(!disk.there(&zip_path));
    assert!(disk.children(&cfg.archive_dir).is_empty());
}

#[test]
fn import_creates_target_dirs_and_reports_progress() {
    let mut disk = Disk::new();
    let cfg = config_for("/work");
    // Only the download dir exists; the importer must create the rest.
    disk.make_dir(&cfg.download_dir);
    disk.make_dir(&cfg.temp_dir);

    let zip_path = join(&cfg.download_dir, "LIB_PART.zip");
    let archive = cse_zip("PART", "QFN");
    disk.touch(&zip_path, &archive);

    let total = importer::member_count(&zip_path, &archive).unwrap();
    let mut seen: Vec<f64> = Vec::new();
    for i in 0..=total {
        let (part, whole) = importer::portion(i, total);
        seen.push(part as f64 / whole as f64);
    }
    disk.import(&cfg, &zip_path).ok().unwrap();

    assert!(seen.len() > 1);
    assert!(seen.iter().all(|f| (0.0..=1.0).contains(f)));
    assert_eq!(seen.last().copied(), Some(1.0));
    assert!(disk.is_file(&join(&cfg.symbol_dir, "PART.kicad_sym")));
}

#[test]
fn import_fails_loudly_when_archive_has_no_kicad_files() {
    let (mut disk, cfg) = ready();
    let zip_path = join(&cfg.download_dir, "LIB_NOTHING.zip");
    let bytes = zip_of(&[("readme.txt".to_string(), "nothing here".to_string())]);
    disk.touch(&zip_path, &bytes);

    let err = disk.import(&cfg, &zip_path).err().unwrap();
    assert!(err.contains("no KiCad files"), "got: {err}");
    // The source must be left untouched so the user can inspect it.
    assert!(disk.there(&zip_path));
}

#[test]
fn an_archive_that_is_no_zip_is_refused() {
    let (mut disk, cfg) = ready();
    let zip_path = join(&cfg.download_dir, "broken.zip");
    disk.touch(&zip_path, b"this is no archive");
    let err = disk.import(&cfg, &zip_path).err().unwrap();
    assert!(err.starts_with("reading /work/downloads/broken.zip: "), "got: {err}");
}

#[test]
fn what_comes_out_of_an_archive_is_what_went_in() {
    let cfg = config_for("/work");
    let bytes = zip_of(&[
        ("P/KiCad/P.kicad_sym".to_string(), "first".to_string()),
        ("../evil/KiCad/Q.kicad_mod".to_string(), "second".to_string()),
        ("P/loose.step".to_string(), "not below 3D".to_string()),
        ("P/3d/P.WRL".to_string(), "third".to_string()),
    ]);
    let (pending, files) = importer::prepare(&cfg, "/work/downloads/LIB_P.zip", &bytes).ok().unwrap();
    assert_eq!(pending.part, "P");
    assert_eq!(pending.source, "LIB_P.zip");
    assert_eq!(pending.staging, "/work/lib/cache/LIB_P");
    assert_eq!(pending.zip, Some("/work/downloads/LIB_P.zip".to_string()));
    // A path that leads out of the archive is left out.
    assert_eq!(files.len(), 2);
    assert_eq!(files[0].item.name, "P.kicad_sym");
    assert_eq!(files[0].contents, b"first".to_vec());
    assert_eq!(files[1].item.name, "P.WRL");
    assert_eq!(files[1].contents, b"third".to_vec());
    assert!(files[1].item.kind == importer::Kind::Model);
}

#[test]
fn a_rename_across_filesystems_is_a_copy_and_a_removal() {
    let cfg = config_for("/work");
    let bytes = cse_zip("PART", "QFN");
    let (pending, _) = importer::prepare(&cfg, "/work/downloads/LIB_PART.zip", &bytes).ok().unwrap();
    let mut install = importer::install(&cfg, pending);
    let mut copied: Vec<String> = Vec::new();
    let mut removed: Vec<String> = Vec::new();
    loop {
        let reply = match install.next() {
            None => break,
            Some(task) => match &task.action {
                Action::Rename { .. } => importer::Reply::Failed("cross-device link".to_string()),
                Action::ReadSymbol { .. } => importer::Reply::Text(kicad_sym("PART")),
                Action::ReadLibrary { .. } => importer::Reply::Existing(None),
                Action::Copy { from, .. } => {
                    copied.push(from.clone());
                    importer::Reply::Done
                }
                Action::Remove { path } => {
                    removed.push(path.clone());
                    importer::Reply::Done
                }
                _ => importer::Reply::Done,
            },
        };
        assert!(install.reply(reply).is_ok());
    }
    assert_eq!(removed.len(), 4, "three files and the archive: {removed:?}");
    for path in &removed {
        assert!(copied.contains(path), "{path} was removed and never copied");
    }
    assert!(importer::finish(&install).is_ok());
}

#[test]
fn a_failed_copy_fails_the_import_and_a_failed_merge_does_not() {
    let cfg = config_for("/work");
    let bytes = cse_zip("PART", "QFN");
    let (pending, _) = importer::prepare(&cfg, "/work/downloads/LIB_PART.zip", &bytes).ok().unwrap();
    let mut install = importer::install(&cfg, pending.clone());
    let mut failed = None;
    while let Some(task) = install.next() {
        let reply = match &task.action {
            Action::MakeDir { .. } => importer::Reply::Failed("disk full".to_string()),
            _ => importer::Reply::Done,
        };
        if let Err(e) = install.reply(reply) {
            failed = Some(e);
            break;
        }
    }
    let e = failed.expect("a folder that cannot be created is fatal");
    assert!(e.ends_with(": disk full"), "got: {e}");

    let mut install = importer::install(&cfg, pending);
    while let Some(task) = install.next() {
        let reply = match &task.action {
            Action::ReadSymbol { .. } => importer::Reply::Text("not an s-expression".to_string()),
            _ => importer::Reply::Done,
        };
        assert!(install.reply(reply).is_ok());
    }
    let summary = importer::finish(&install).ok().unwrap();
    assert!(summary.merged_symbols.is_empty());
    assert_eq!(summary.symbols.len(), 1);
}

#[test]
fn nothing_staged_is_nothing_to_install() {
    let cfg = config_for("/work");
    let install = importer::install(
        &cfg,
        Pending {
            part: "X".to_string(),
            source: "x.zip".to_string(),
            staged: Vec::new(),
            staging: "/work/lib/cache/x".to_string(),
            conflicts: Vec::new(),
            zip: None,
        },
    );
    assert_eq!(importer::finish(&install).err(), Some("X: nothing to install".to_string()));
}

// ------------------------------------------------------- symbol library merge

fn merge_into(disk: &mut Disk, lib: &str, source: &str, backup: bool) -> Vec<String> {
    let merge = symlib::merge_into(lib, source, Ok(disk.text(lib).ok())).ok().unwrap();
    if let Some(text) = merge.text {
        if backup {
            if let Some(to) = symlib::backup_file(lib, disk.is_file(lib)) {
                disk.copy(lib, &to).unwrap();
            }
        }
        disk.write(lib, text.into_bytes()).unwrap();
    }
    merge.names
}

#[test]
fn symlib_merge_accumulates_parts_and_replaces_by_name() {
    let mut disk = Disk::new();
    let lib = "/work/murky-informis.kicad_sym";

    let added = merge_into(&mut disk, lib, &kicad_sym("PART_A"), false);
    assert_eq!(added, vec!["PART_A"]);
    merge_into(&mut disk, lib, &kicad_sym("PART_B"), false);

    let parsed = symlib::parse(&disk.text(lib).unwrap()).ok().unwrap();
    let names: Vec<&str> = parsed.symbols.iter().map(|s| s.name.as_str()).collect();
    assert_eq!(names, vec!["PART_A", "PART_B"]);

    // Re-importing the same part replaces it rather than duplicating it.
    merge_into(&mut disk, lib, &kicad_sym("PART_A"), false);
    let parsed = symlib::parse(&disk.text(lib).unwrap()).ok().unwrap();
    assert_eq!(parsed.symbols.len(), 2);
}

#[test]
fn symlib_merge_writes_bak_and_rejects_garbage() {
    let mut disk = Disk::new();
    let lib = "/work/murky-informis.kicad_sym";
    merge_into(&mut disk, lib, &kicad_sym("PART_A"), true);
    // Nothing to back up on first write.
    assert!(!disk.there("/work/murky-informis.bak"));

    merge_into(&mut disk, lib, &kicad_sym("PART_B"), true);
    let backup = "/work/murky-informis.bak";
    assert!(disk.is_file(backup));
    // The backup holds the previous revision, with only the first part.
    let previous = symlib::parse(&disk.text(backup).unwrap()).ok().unwrap();
    assert_eq!(previous.symbols.len(), 1);

    assert!(symlib::parse("not an s-expression").is_err());
}

// -------------------------------------------------------------- library tree

#[test]
fn import_produces_the_configured_library_tree() {
    let (mut disk, cfg) = ready();
    write_cse_zip(
        &mut disk,
        &join(&cfg.download_dir, "LIB_LFE5UM5G-85F-8MG285C.zip"),
        "LFE5UM5G-85F-8MG285C",
        "BGA285C50P18X18_1000X1000X130",
    );
    write_cse_zip(
        &mut disk,
        &join(&cfg.download_dir, "LIB_MT41K128M16JT-125_K.zip"),
        "MT41K128M16JT-125_K",
        "BGA96C80P9X16_800X1400X120",
    );

    for entry in disk.scan(&cfg).entries {
        disk.import(&cfg, &entry.path).ok().unwrap();
    }

    // Symbols: one file per part.
    assert!(disk.is_file(&join(&cfg.symbol_dir, "LFE5UM5G-85F-8MG285C.kicad_sym")));
    assert!(disk.is_file(&join(&cfg.symbol_dir, "MT41K128M16JT-125_K.kicad_sym")));

    // Footprints: flat in the .pretty library *and* in a per-part .pretty.
    let fp = &cfg.footprint_dir;
    assert!(disk.is_file(&join(fp, "BGA285C50P18X18_1000X1000X130.kicad_mod")));
    assert!(disk.is_file(&join(fp, "BGA96C80P9X16_800X1400X120.kicad_mod")));
    assert!(disk.is_file(&join(
        fp,
        "LFE5UM5G-85F-8MG285C.pretty/BGA285C50P18X18_1000X1000X130.kicad_mod"
    )));
    assert!(disk.is_file(&join(
        fp,
        "MT41K128M16JT-125_K.pretty/BGA96C80P9X16_800X1400X120.kicad_mod"
    )));

    // 3D models keep the archive's own file names.
    assert!(disk.is_file(&join(&cfg.model_dir, "LFE5UM5G-85F-8MG285C.stp")));
    assert!(disk.is_file(&join(&cfg.model_dir, "MT41K128M16JT-125_K.stp")));

    // Both parts landed in the one merged library at the root.
    let merged = cfg.merged_symbol_lib.clone().unwrap();
    let parsed = symlib::parse(&disk.text(&merged).unwrap()).ok().unwrap();
    let names: Vec<&str> = parsed.symbols.iter().map(|s| s.name.as_str()).collect();
    assert_eq!(names, vec!["LFE5UM5G-85F-8MG285C", "MT41K128M16JT-125_K"]);
}

#[test]
fn per_part_footprint_dirs_can_be_turned_off() {
    let (mut disk, mut cfg) = ready();
    cfg.per_part_footprint_dirs = false;
    let zip = join(&cfg.download_dir, "LIB_PART.zip");
    write_cse_zip(&mut disk, &zip, "PART", "QFN_7050_6pins");
    disk.import(&cfg, &zip).ok().unwrap();

    assert!(disk.is_file(&join(&cfg.footprint_dir, "QFN_7050_6pins.kicad_mod")));
    assert!(!disk.there(&join(&cfg.footprint_dir, "PART.pretty")));
}

#[test]
fn merged_library_can_be_disabled() {
    let (mut disk, mut cfg) = ready();
    cfg.merged_symbol_lib = None;
    let zip = join(&cfg.download_dir, "LIB_PART.zip");
    write_cse_zip(&mut disk, &zip, "PART", "QFN");
    disk.import(&cfg, &zip).ok().unwrap();

    assert!(disk.is_file(&join(&cfg.symbol_dir, "PART.kicad_sym")));
    assert!(!disk.there("/work/lib/murky-informis.kicad_sym"));

    // Symbol names still reach the manifest without merging.
    let m = disk.manifest(&cfg);
    assert_eq!(m.parts[0].symbol_names, vec!["PART"]);
}

// ----------------------------------------------------------------- manifest

#[test]
fn manifest_records_layout_and_parts_relative_to_root() {
    let (mut disk, cfg) = ready();
    let zip = join(&cfg.download_dir, "LIB_TPD12S016PWR.zip");
    write_cse_zip(&mut disk, &zip, "TPD12S016PWR", "SOP65P640X120-24N");
    disk.import(&cfg, &zip).ok().unwrap();

    assert!(disk.is_file(&cfg.manifest_path));
    let m = disk.manifest(&cfg);

    assert_eq!(m.library_root, cfg.library_root);
    assert_eq!(m.layout.symbols, "symbols");
    assert_eq!(m.layout.footprints, "footprints.pretty");
    assert_eq!(m.layout.models, "3dmodels");
    assert_eq!(m.layout.merged_symbol_lib.as_deref(), Some("murky-informis.kicad_sym"));
    assert!(m.layout.per_part_footprint_dirs);

    assert_eq!(m.parts.len(), 1);
    let part = &m.parts[0];
    assert_eq!(part.name, "TPD12S016PWR");
    assert_eq!(part.source, "LIB_TPD12S016PWR.zip");
    assert_eq!(part.symbol_file.as_deref(), Some("symbols/TPD12S016PWR.kicad_sym"));
    assert_eq!(part.symbol_names, vec!["TPD12S016PWR"]);
    assert_eq!(part.models, vec!["3dmodels/TPD12S016PWR.stp"]);
    // Both footprint destinations are recorded, per-part first.
    assert!(part.footprints.contains(
        &"footprints.pretty/TPD12S016PWR.pretty/SOP65P640X120-24N.kicad_mod".to_string()
    ));
    assert!(part.footprints.contains(&"footprints.pretty/SOP65P640X120-24N.kicad_mod".to_string()));
    assert!(!part.imported_at.is_empty());
}

#[test]
fn manifest_replaces_a_part_on_reimport_rather_than_duplicating() {
    let (mut disk, cfg) = ready();
    for _ in 0..2 {
        let zip = join(&cfg.download_dir, "LIB_PART.zip");
        write_cse_zip(&mut disk, &zip, "PART", "QFN");
        disk.import(&cfg, &zip).ok().unwrap();
    }

    let m = disk.manifest(&cfg);
    assert_eq!(m.parts.len(), 1, "part duplicated in manifest");

    // The second import backed up the symbol file it replaced.
    assert!(disk.is_file(&join(&cfg.symbol_dir, "PART.bak")));
}

#[test]
fn manifest_survives_a_corrupt_file() {
    let (mut disk, cfg) = ready();
    disk.manifests.insert(cfg.manifest_path.clone(), None);

    let zip = join(&cfg.download_dir, "LIB_PART.zip");
    write_cse_zip(&mut disk, &zip, "PART", "QFN");
    disk.import(&cfg, &zip).ok().unwrap();

    let m = disk.manifest(&cfg);
    assert_eq!(m.parts.len(), 1);
}

#[test]
fn manifest_totals_count_each_file_once() {
    let mut disk = Disk::new();
    let cfg = config_for("/work");

    // A footprint is deliberately written twice — flat, and in the part's own
    // .pretty folder — but it is still one footprint.
    disk.record(
        &cfg,
        Part {
            name: "NE555P".to_string(),
            source: "LCSC C46749".to_string(),
            imported_at: "2026-07-26T00:00:00+00:00".to_string(),
            symbol_file: Some("symbols/NE555P.kicad_sym".to_string()),
            symbol_names: vec!["NE555P".to_string()],
            footprints: vec![
                "footprints.pretty/NE555P.pretty/DIP-8.kicad_mod".to_string(),
                "footprints.pretty/DIP-8.kicad_mod".to_string(),
            ],
            models: vec!["3dmodels/NE555P.stp".to_string()],
        },
    );

    let totals = manifest::totals(&disk.manifest(&cfg).parts);
    assert_eq!(totals.parts, 1);
    assert_eq!(totals.symbols, 1);
    assert_eq!(totals.footprints, 1, "the same file in two places is one file");
    assert_eq!(totals.models, 1);
}

// ----------------------------------------------------------- main screen

#[test]
fn the_main_screen_shows_the_queue_and_the_library_together() {
    let (mut disk, cfg) = ready();
    disk.touch(&join(&cfg.download_dir, "LIB_TPD12S016PWR.zip"), b"x");
    disk.touch(&join(&cfg.download_dir, "Memory/LIB_MT41K128M16.zip"), b"x");
    disk.record(&cfg, part("NE555P", "LCSC C46749"));

    let app = app_for(&mut disk, &cfg);
    assert_eq!(app.screen, Screen::Main);
    assert_eq!(app.queue_view.len(), 2);
    assert_eq!(app.library_view.len(), 1);
    assert_eq!(app.totals.parts, 1);
    // Both panes start with something selected, so Details is never blank.
    assert!(app.selected_zip().is_some());
    assert!(app.selected_part().is_some());
}

#[test]
fn the_filter_narrows_both_panes_and_keeps_selections_valid() {
    let (mut disk, cfg) = ready();
    disk.touch(&join(&cfg.download_dir, "LIB_TPD12S016PWR.zip"), b"x");
    disk.touch(&join(&cfg.download_dir, "Memory/LIB_MT41K128M16.zip"), b"x");
    for name in ["NE555P", "MT41K128M16"] {
        disk.record(&cfg, part(name, &format!("LIB_{name}.zip")));
    }

    let mut app = app_for(&mut disk, &cfg);
    // Point at the last row, then filter it away: the selection must follow.
    app.library_list = Some(1);
    app.filter = "tpd".to_string();
    app.recompute_views();

    assert_eq!(app.queue_view.len(), 1);
    assert_eq!(app.selected_zip().unwrap().display, "LIB_TPD12S016PWR.zip");
    assert!(app.library_view.is_empty());
    assert!(app.selected_part().is_none(), "no row means no selection");

    // Matching is case-insensitive and covers the recorded source.
    app.filter = "MT41K".to_string();
    app.recompute_views();
    assert_eq!(app.queue_view.len(), 1);
    assert_eq!(app.library_view.len(), 1);
    assert_eq!(app.selected_part().unwrap().name, "MT41K128M16");

    app.filter.clear();
    app.recompute_views();
    assert_eq!(app.queue_view.len(), 2);
    assert_eq!(app.library_view.len(), 2);
}

#[test]
fn search_results_already_in_the_library_are_recognised() {
    let (mut disk, cfg) = ready();
    disk.record(&cfg, part("NE555P", "LCSC C46749"));

    let app = app_for(&mut disk, &cfg);
    let owned = hit("C46749", "NE555P");
    // A different LCSC code for the same manufacturer part still counts, and an
    // unrelated part does not.
    let same_part = hit("C99999", "NE555P");
    let other = hit("C7420", "NC7SZ125M5X");

    assert!(app.library_has(&owned));
    assert!(app.library_has(&same_part));
    assert!(!app.library_has(&other));
}

#[test]
fn an_empty_queue_starts_focus_on_the_library() {
    let (mut disk, cfg) = ready();
    disk.record(&cfg, part("NE555P", "LCSC C46749"));

    assert_eq!(app_for(&mut disk, &cfg).focus, Focus::Library);

    // With archives waiting, importing them is the more likely next action.
    disk.touch(&join(&cfg.download_dir, "LIB_X.zip"), b"x");
    assert_eq!(app_for(&mut disk, &cfg).focus, Focus::Queue);
}

// ------------------------------------------------------------------ projects

fn project(name: &str, root: &str) -> Project {
    Project { name: name.to_string(), library_root: root.to_string(), download_dir: None }
}

fn saved(disk: &Disk) -> Config {
    let cfg = disk.configs.get("/work/config.toml").unwrap().clone();
    Config::load(Reading::Parsed(cfg), "/work/config.toml").config
}

#[test]
fn a_saved_project_switches_the_whole_tree_in_one_keypress() {
    let (mut disk, mut cfg) = ready();

    // A second library, laid out the same way, one directory over.
    let other = "/work/other-project";
    let mut other_cfg = cfg.clone();
    other_cfg.rebase(other);
    make_dirs(&mut disk, &other_cfg);

    cfg.projects = vec![project("here", &cfg.library_root), project("there", other)];

    let mut app = app_for(&mut disk, &cfg);
    assert_eq!(app.config.active_project().map(|p| p.name.as_str()), Some("here"));

    press(&mut app, &mut disk, Key::Char('p'));
    assert_eq!(app.screen, Screen::Projects);
    press(&mut app, &mut disk, Key::Down);
    press(&mut app, &mut disk, Key::Enter);

    assert_eq!(
        app.screen,
        Screen::Main,
        "the other tree exists, so nothing needs confirming"
    );
    assert_eq!(app.config.library_root, other);
    assert_eq!(app.config.symbol_dir, join(other, "symbols"));
    assert_eq!(app.config.footprint_dir, join(other, "footprints.pretty"));
    assert_eq!(app.config.model_dir, join(other, "3dmodels"));
    assert_eq!(app.config.archive_dir, join(other, "archive"));
    assert_eq!(app.config.manifest_path, join(other, "library.json"));
    assert_eq!(app.config.merged_symbol_lib, Some(join(other, "murky-informis.kicad_sym")));
    // The ZIP folder was parked outside the library on purpose, so it stayed.
    assert_eq!(app.config.download_dir, "/work/downloads");

    // Persisted, so the next run opens where this one left off.
    let saved = saved(&disk);
    assert_eq!(saved.library_root, other);
    assert_eq!(saved.symbol_dir, join(other, "symbols"));
    assert_eq!(saved.projects.len(), 2);
}

/// A run in `/work/over`, by the command line, of a library kept in `/work/lib`.
fn overridden() -> (Disk, App, Config) {
    let (mut disk, mut stored) = ready();
    stored.projects = vec![project("here", "/work/lib"), project("there", "/work/there")];
    let mut over = stored.clone();
    over.rebase("/work/over");
    over.download_dir = "/work/inbox".to_string();
    let mut there = stored.clone();
    there.rebase("/work/there");
    make_dirs(&mut disk, &over);
    make_dirs(&mut disk, &there);
    disk.make_dir("/work/inbox");
    let (app, _) = start_over(&mut disk, &over, &stored, "/work");
    assert_eq!(app.config.library_root, "/work/over");
    (disk, app, stored)
}

#[test]
fn what_the_command_line_overrides_is_not_written_with_the_projects() {
    let (mut disk, mut app, stored) = overridden();
    press(&mut app, &mut disk, Key::Char('p'));
    press(&mut app, &mut disk, Key::Char('d'));

    let saved = saved(&disk);
    assert_eq!(saved.projects.len(), 1);
    assert_eq!(saved.projects[0].name, "there");
    assert_eq!(saved.library_root, stored.library_root);
    assert_eq!(saved.symbol_dir, stored.symbol_dir);
    assert_eq!(saved.download_dir, stored.download_dir);
    assert_eq!(app.config.library_root, "/work/over", "the run goes on where it was");
    assert_eq!(app.config.download_dir, "/work/inbox");
}

#[test]
fn switching_writes_the_new_root_but_not_an_overridden_zip_folder() {
    let (mut disk, mut app, stored) = overridden();
    press(&mut app, &mut disk, Key::Char('p'));
    press(&mut app, &mut disk, Key::End);
    press(&mut app, &mut disk, Key::Enter);

    assert_eq!(app.config.library_root, "/work/there");
    assert_eq!(app.config.download_dir, "/work/inbox");
    let saved = saved(&disk);
    assert_eq!(saved.library_root, "/work/there");
    assert_eq!(saved.symbol_dir, "/work/there/symbols");
    assert_eq!(saved.download_dir, stored.download_dir);
    assert_eq!(saved.projects.len(), 2);
}

#[test]
fn saving_from_settings_writes_what_was_overridden() {
    let (mut disk, mut app, _) = overridden();
    press(&mut app, &mut disk, Key::Char('s'));
    assert_eq!(app.screen, Screen::Settings);
    press(&mut app, &mut disk, Key::Char('s'));

    let saved = saved(&disk);
    assert_eq!(saved.library_root, "/work/over");
    assert_eq!(saved.download_dir, "/work/inbox");
    assert_eq!(app.stored.library_root, "/work/over");
}

#[test]
fn a_folder_that_is_no_pretty_folder_is_no_part() {
    let (mut disk, cfg) = ready();
    disk.touch(&join(&cfg.footprint_dir, "misc/DIP-8.kicad_mod"), b"(footprint)");
    disk.touch(&join(&cfg.footprint_dir, "NE555P.pretty/DIP-8.kicad_mod"), b"(footprint)");
    disk.touch(&join(&cfg.footprint_dir, "EMPTY.pretty/notes.txt"), b"x");
    let names: Vec<String> = disk.scan_library(&cfg).into_iter().map(|p| p.name).collect();
    assert_eq!(names, vec!["NE555P".to_string()]);
}

#[test]
fn a_flat_archive_is_named_after_its_file() {
    let (mut disk, cfg) = ready();
    let flat = zip_of(&[
        ("./NE555P.kicad_sym".to_string(), kicad_sym("NE555P")),
        ("DIP-8.kicad_mod".to_string(), "(footprint)".to_string()),
    ]);
    let zip = join(&cfg.download_dir, "LIB_NE555.zip");
    disk.touch(&zip, &flat);
    let pending = disk.prepare(&cfg, &zip).ok().unwrap();
    assert_eq!(pending.part, "NE555");
    assert_eq!(pending.staged.len(), 2);
}

#[test]
fn switching_to_a_new_project_asks_before_creating_its_tree() {
    let (mut disk, mut cfg) = ready();
    let fresh = "/work/fresh";
    cfg.projects = vec![project("fresh", fresh)];

    let mut app = app_for(&mut disk, &cfg);
    press(&mut app, &mut disk, Key::Char('p'));
    press(&mut app, &mut disk, Key::Enter);

    assert_eq!(app.screen, Screen::Validate);
    assert!(!disk.there(fresh), "nothing is created before the user answers");
    // One question, not seven: only the root is the user's to decide.
    assert_eq!(
        app.validate.as_ref().map(|v| v.missing.clone()),
        Some(vec![Field::LibraryRoot])
    );

    // Approving the root creates the folders that make up the library.
    press(&mut app, &mut disk, Key::Char('y'));
    assert_eq!(app.screen, Screen::Main);
    assert_eq!(app.config.symbol_dir, join(fresh, "symbols"));
    for field in Field::DIRS {
        let dir = field.dir(&app.config).unwrap();
        assert!(disk.is_dir(dir), "{dir} was not created");
    }
}

#[test]
fn naming_a_location_saves_it_and_marks_it_active() {
    let (mut disk, cfg) = ready();
    let mut app = app_for(&mut disk, &cfg);
    assert!(app.config.active_project().is_none());

    press(&mut app, &mut disk, Key::Char('p'));
    press(&mut app, &mut disk, Key::Char('n'));
    // The suggested name is the folder's, which the user can replace outright.
    let suggested = app
        .projects
        .as_ref()
        .and_then(|p| p.naming.as_ref())
        .map(|n| n.buffer.clone())
        .unwrap();
    assert_eq!(suggested, config::project_name_for(&app.config.library_root));
    for _ in 0..suggested.chars().count() {
        press(&mut app, &mut disk, Key::Backspace);
    }
    type_text(&mut app, &mut disk, "Synth VCO");
    press(&mut app, &mut disk, Key::Enter);

    assert_eq!(app.config.active_project().map(|p| p.name.as_str()), Some("Synth VCO"));
    assert_eq!(saved(&disk).projects.len(), 1, "a saved project outlives the session");
}

#[test]
fn editing_the_library_root_in_settings_moves_the_paths_under_it() {
    let (mut disk, cfg) = ready();
    let mut app = app_for(&mut disk, &cfg);

    press(&mut app, &mut disk, Key::Char('s'));
    assert_eq!(app.screen, Screen::Settings);
    // Row zero is the library root.
    press(&mut app, &mut disk, Key::Char('e'));
    let current = app.settings.as_ref().and_then(|s| s.editing.clone()).unwrap();
    for _ in 0..current.chars().count() {
        press(&mut app, &mut disk, Key::Backspace);
    }
    let target = "/work/elsewhere";
    type_text(&mut app, &mut disk, target);
    press(&mut app, &mut disk, Key::Enter);

    let settings = app.settings.as_ref().unwrap();
    assert_eq!(settings.draft.library_root, target);
    assert_eq!(settings.draft.symbol_dir, join(target, "symbols"));
    assert_eq!(settings.draft.footprint_dir, join(target, "footprints.pretty"));
    assert_eq!(settings.draft.model_dir, join(target, "3dmodels"));
    assert_eq!(settings.draft.temp_dir, join(target, "cache"));
    assert_eq!(settings.draft.archive_dir, join(target, "archive"));
    assert_eq!(settings.draft.manifest_path, join(target, "library.json"));
    assert_eq!(
        settings.draft.merged_symbol_lib,
        Some(join(target, "murky-informis.kicad_sym"))
    );
    // Outside the old root, so deliberately left where it was.
    assert_eq!(settings.draft.download_dir, "/work/downloads");
    assert!(
        settings.note.contains("Symbols"),
        "the screen says what moved: {}",
        settings.note
    );
}

#[test]
fn a_setting_pointed_outside_the_root_is_pulled_back_in() {
    let (mut disk, cfg) = ready();
    let mut app = app_for(&mut disk, &cfg);

    press(&mut app, &mut disk, Key::Char('s'));
    // Row 2 is Symbols.
    press(&mut app, &mut disk, Key::Down);
    press(&mut app, &mut disk, Key::Down);
    press(&mut app, &mut disk, Key::Char('e'));
    let current = app.settings.as_ref().and_then(|s| s.editing.clone()).unwrap();
    for _ in 0..current.chars().count() {
        press(&mut app, &mut disk, Key::Backspace);
    }
    type_text(&mut app, &mut disk, "/var/tmp/some-other-place");
    press(&mut app, &mut disk, Key::Enter);

    let settings = app.settings.as_ref().unwrap();
    assert_eq!(
        settings.draft.symbol_dir,
        join(&cfg.library_root, "some-other-place"),
        "the folder name is kept, the location is not"
    );
    assert!(
        settings.note.contains("Symbols"),
        "the screen says what happened: {}",
        settings.note
    );
}

// ------------------------------------------------ existing libraries on disk

#[test]
fn a_library_built_elsewhere_shows_up_without_a_manifest() {
    let (mut disk, cfg) = ready();

    // A library laid out by hand, or by an older tool: no library.json at all.
    // Its symbol declares the footprint it uses, the way KiCad's do.
    let symbol = kicad_sym("NE555P").replace(
        "(property \"Value\"",
        "(property \"Footprint\" \"footprints:DIP-8_THT\" (at 0 0 0))\n    (property \"Value\"",
    );
    disk.touch(&join(&cfg.symbol_dir, "NE555P.kicad_sym"), symbol.as_bytes());
    disk.touch(&join(&cfg.symbol_dir, "NE555P.bak"), b"a backup, not a part");
    disk.touch(&join(&cfg.model_dir, "NE555P.stp"), b"ISO-10303-21;");
    disk.touch(&join(&cfg.footprint_dir, "NE555P.pretty/DIP-8_THT.kicad_mod"), b"(footprint)");
    disk.touch(&join(&cfg.footprint_dir, "DIP-8_THT.kicad_mod"), b"(footprint)");
    // Nobody's symbol asks for this one, so it belongs to no part.
    disk.touch(&join(&cfg.footprint_dir, "SOT-23.kicad_mod"), b"(footprint)");
    // A part with only a 3D model is still worth listing.
    disk.touch(&join(&cfg.model_dir, "USB3343.step"), b"ISO-10303-21;");

    let found = disk.scan_library(&cfg);
    let names: Vec<&str> = found.iter().map(|p| p.name.as_str()).collect();
    assert_eq!(names, vec!["NE555P", "USB3343"], "found: {names:?}");

    let ne555 = &found[0];
    assert_eq!(ne555.source, library::FOUND);
    assert_eq!(ne555.symbol_file.as_deref(), Some("symbols/NE555P.kicad_sym"));
    assert_eq!(ne555.symbol_names, vec!["NE555P"]);
    assert_eq!(ne555.models.len(), 1);
    assert_eq!(
        ne555.footprints,
        vec![
            "footprints.pretty/NE555P.pretty/DIP-8_THT.kicad_mod",
            "footprints.pretty/DIP-8_THT.kicad_mod",
        ],
        "the per-part copy, and the flat one the symbol asks for"
    );
    assert!(!ne555.imported_at.is_empty(), "the file date stands in");

    // And the pane shows them, with each file counted once.
    let app = app_for(&mut disk, &cfg);
    assert_eq!(app.library.len(), 2);
    assert_eq!(app.totals.parts, 2);
    assert_eq!(app.totals.footprints, 1);
    assert_eq!(app.totals.models, 2);
    assert_eq!(app.focus, Focus::Library, "an empty queue starts on the library");
}

#[test]
fn an_imported_part_keeps_its_provenance_over_the_disk_scan() {
    let (mut disk, cfg) = ready();
    let zip = join(&cfg.download_dir, "LIB_NE555P.zip");
    write_cse_zip(&mut disk, &zip, "NE555P", "DIP-8");
    disk.import(&cfg, &zip).ok().unwrap();

    // A second part that only exists as files.
    disk.touch(&join(&cfg.symbol_dir, "MT41K128.kicad_sym"), kicad_sym("MT41K128").as_bytes());

    let app = app_for(&mut disk, &cfg);
    let by_name = |name: &str| {
        app.library
            .iter()
            .find(|p| p.name == name)
            .unwrap_or_else(|| panic!("{name} missing"))
    };
    assert_eq!(by_name("NE555P").source, "LIB_NE555P.zip");
    assert!(!library::is_found(by_name("NE555P")));
    assert!(library::is_found(by_name("MT41K128")));
    assert_eq!(app.library.len(), 2, "no part is listed twice");

    // A file dropped in beside an imported part still shows up against it,
    // without disturbing where the part came from.
    disk.touch(&join(&cfg.model_dir, "NE555P.wrl"), b"a model added by hand");
    let mut app = app_for(&mut disk, &cfg);
    app.refresh(disk.found(&cfg));
    let ne555 = app.library.iter().find(|p| p.name == "NE555P").unwrap();
    assert_eq!(ne555.source, "LIB_NE555P.zip");
    assert!(
        ne555.models.iter().any(|m| m.ends_with("NE555P.wrl")),
        "models: {:?}",
        ne555.models
    );
}

// ------------------------------------------------------ overwrite protection

#[test]
fn an_import_that_would_replace_files_names_them_before_touching_anything() {
    let (mut disk, cfg) = ready();
    let zip = join(&cfg.download_dir, "LIB_NE555P.zip");
    write_cse_zip(&mut disk, &zip, "NE555P", "DIP-8");

    // First time through there is nothing to replace.
    let first = disk.prepare(&cfg, &zip).ok().unwrap();
    assert!(first.conflicts.is_empty(), "{:?}", first.conflicts);
    disk.finish(&cfg, first).ok().unwrap();

    // The archive was filed away, so import the same part a second time.
    let again = join(&cfg.download_dir, "LIB_NE555P.zip");
    write_cse_zip(&mut disk, &again, "NE555P", "DIP-8");
    let second = disk.prepare(&cfg, &again).ok().unwrap();
    assert_eq!(
        second.conflicts,
        vec![
            "symbols/NE555P.kicad_sym",
            "footprints.pretty/NE555P.pretty/DIP-8.kicad_mod",
            "footprints.pretty/DIP-8.kicad_mod",
            "3dmodels/NE555P.stp",
        ]
    );

    // Preparing does not write to the library, and discarding leaves both the
    // library and the source archive exactly as they were.
    let before = disk.text(&join(&cfg.symbol_dir, "NE555P.kicad_sym")).unwrap();
    match importer::discard(&second) {
        Action::RemoveTree { path } => {
            assert_eq!(path, join(&cfg.temp_dir, "LIB_NE555P"));
            disk.remove_tree(&path);
        }
        _ => panic!("only the staging folder goes"),
    }
    assert_eq!(disk.text(&join(&cfg.symbol_dir, "NE555P.kicad_sym")).unwrap(), before);
    assert!(disk.is_file(&again), "a cancelled import leaves the zip alone");
}

#[test]
fn importing_over_an_existing_part_asks_first() {
    let (mut disk, cfg) = ready();
    let symbol = join(&cfg.symbol_dir, "NE555P.kicad_sym");
    // A symbol already in the library, with contents worth not losing.
    disk.touch(&symbol, b"mine, hand-edited");
    write_cse_zip(&mut disk, &join(&cfg.download_dir, "LIB_NE555P.zip"), "NE555P", "DIP-8");

    let mut app = app_for(&mut disk, &cfg);
    let later = press(&mut app, &mut disk, Key::Enter);
    pump(&mut app, &mut disk, later);

    assert_eq!(app.screen, Screen::Overwrite);
    let pending = app.pending.as_ref().expect("waiting on an answer");
    assert_eq!(pending.conflicts, vec!["symbols/NE555P.kicad_sym"]);
    assert_eq!(
        disk.text(&symbol).unwrap(),
        "mine, hand-edited",
        "nothing is written while the question is on screen"
    );

    // Saying no leaves the library untouched.
    let later = press(&mut app, &mut disk, Key::Char('n'));
    pump(&mut app, &mut disk, later);
    assert_eq!(app.screen, Screen::Main);
    assert!(app.pending.is_none());
    assert!(app.run.is_none());
    assert_eq!(disk.text(&symbol).unwrap(), "mine, hand-edited");
    assert!(app.status.contains("unchanged"), "status: {}", app.status);
}

#[test]
fn confirming_the_overwrite_completes_the_import() {
    let (mut disk, cfg) = ready();
    let symbol = join(&cfg.symbol_dir, "NE555P.kicad_sym");
    disk.touch(&symbol, b"old");
    write_cse_zip(&mut disk, &join(&cfg.download_dir, "LIB_NE555P.zip"), "NE555P", "DIP-8");

    let mut app = app_for(&mut disk, &cfg);
    let later = press(&mut app, &mut disk, Key::Enter);
    pump(&mut app, &mut disk, later);
    assert_eq!(app.screen, Screen::Overwrite);

    let later = press(&mut app, &mut disk, Key::Char('y'));
    pump(&mut app, &mut disk, later);

    assert_eq!(app.screen, Screen::Main);
    let written = disk.text(&symbol).unwrap();
    assert!(written.contains("kicad_symbol_lib"), "the import went through");
    assert_eq!(app.totals.parts, 1);
}

#[test]
fn a_fresh_import_is_not_interrupted_by_the_prompt() {
    let (mut disk, cfg) = ready();
    write_cse_zip(&mut disk, &join(&cfg.download_dir, "LIB_NE555P.zip"), "NE555P", "DIP-8");

    let mut app = app_for(&mut disk, &cfg);
    let later = press(&mut app, &mut disk, Key::Enter);
    pump(&mut app, &mut disk, later);

    assert_eq!(app.screen, Screen::Main, "nothing existed, so nothing to ask");
    assert!(app.pending.is_none());
    assert_eq!(app.totals.parts, 1);
    assert!(app.status.starts_with("Added NE555P"), "status: {}", app.status);
}

#[test]
fn overwriting_all_asks_once() {
    let (mut disk, cfg) = ready();
    for name in ["A1", "B2", "C3"] {
        disk.touch(&join(&cfg.symbol_dir, &format!("{name}.kicad_sym")), b"old");
        let zip = join(&cfg.download_dir, &format!("LIB_{name}.zip"));
        write_cse_zip(&mut disk, &zip, name, "QFN");
    }
    let mut app = app_for(&mut disk, &cfg);
    let later = press(&mut app, &mut disk, Key::Char('a'));
    pump(&mut app, &mut disk, later);
    assert_eq!(app.screen, Screen::Overwrite);

    let later = press(&mut app, &mut disk, Key::Char('a'));
    pump(&mut app, &mut disk, later);
    assert_eq!(app.screen, Screen::Main);
    assert!(app.run.is_none());
    assert_eq!(app.totals.parts, 3);
    assert_eq!(app.zips.len(), 0);
}

#[test]
fn cancelling_the_overwrite_stops_the_run() {
    let (mut disk, cfg) = ready();
    for name in ["A1", "B2"] {
        disk.touch(&join(&cfg.symbol_dir, &format!("{name}.kicad_sym")), b"old");
        let zip = join(&cfg.download_dir, &format!("LIB_{name}.zip"));
        write_cse_zip(&mut disk, &zip, name, "QFN");
    }
    let mut app = app_for(&mut disk, &cfg);
    let later = press(&mut app, &mut disk, Key::Char('a'));
    pump(&mut app, &mut disk, later);
    let later = press(&mut app, &mut disk, Key::Esc);
    pump(&mut app, &mut disk, later);
    assert!(app.run.is_none());
    assert_eq!(app.screen, Screen::Main);
    assert_eq!(disk.text(&join(&cfg.symbol_dir, "A1.kicad_sym")).unwrap(), "old");
    assert_eq!(disk.text(&join(&cfg.symbol_dir, "B2.kicad_sym")).unwrap(), "old");
    assert_eq!(app.zips.len(), 2);
}

#[test]
fn a_missing_library_is_asked_about_at_the_start() {
    let mut disk = Disk::new();
    let cfg = config_for("/work");
    let mut app = app_for(&mut disk, &cfg);
    assert_eq!(app.screen, Screen::Validate);

    // All of it, in one answer.
    press(&mut app, &mut disk, Key::Char('a'));
    assert_eq!(app.screen, Screen::Main);
    assert!(disk.is_dir(&cfg.download_dir));
    assert!(disk.is_dir(&cfg.symbol_dir));
}

#[test]
fn the_picker_chooses_a_folder_for_a_setting() {
    let (mut disk, cfg) = ready();
    disk.make_dir("/work/zips/inner");
    let mut app = app_for(&mut disk, &cfg);
    press(&mut app, &mut disk, Key::Char('s'));
    press(&mut app, &mut disk, Key::Down);
    press(&mut app, &mut disk, Key::Enter);
    assert_eq!(app.screen, Screen::Picker);
    assert_eq!(app.picker.as_ref().unwrap().cwd, "/work/downloads");
    press(&mut app, &mut disk, Key::Backspace);
    let p = app.picker.as_ref().unwrap();
    assert_eq!(p.cwd, "/work");
    assert_eq!(p.entries, strings(&["/work/downloads", "/work/lib", "/work/zips"]));
    press(&mut app, &mut disk, Key::Down);
    press(&mut app, &mut disk, Key::Down);
    press(&mut app, &mut disk, Key::Enter);
    assert_eq!(app.picker.as_ref().unwrap().entries, strings(&["/work/zips/inner"]));
    press(&mut app, &mut disk, Key::Char(' '));
    assert_eq!(app.screen, Screen::Settings);
    assert_eq!(app.settings.as_ref().unwrap().draft.download_dir, "/work/zips");
    assert_eq!(app.config.download_dir, "/work/downloads", "only the draft changes");
    // Saving makes the draft the configuration.
    press(&mut app, &mut disk, Key::Char('s'));
    assert_eq!(app.config.download_dir, "/work/zips");
    assert_eq!(saved(&disk).download_dir, "/work/zips");
}

#[test]
fn the_watcher_waits_until_the_folder_is_quiet() {
    let (mut disk, cfg) = ready();
    let mut app = app_for(&mut disk, &cfg);
    assert_eq!(app.zips.len(), 0);
    disk.touch(&join(&cfg.download_dir, "LIB_X.zip"), b"x");
    tell(&mut app, &mut disk, Event::FsChanged { now: 1000 });
    tell(&mut app, &mut disk, Event::Tick { now: 1100 });
    assert_eq!(app.zips.len(), 0, "a burst of changes is one rescan");
    tell(&mut app, &mut disk, Event::Tick { now: 1400 });
    assert_eq!(app.zips.len(), 1);
}

#[test]
fn a_broken_or_missing_configuration_falls_back_to_the_defaults() {
    let missing = Config::load_in(Reading::Missing, "/work/config.toml", HOME);
    assert!(missing.write);
    let broken = Config::load_in(Reading::Broken, "/work/config.toml", HOME);
    assert!(!broken.write);
    assert_eq!(missing.config.library_root, broken.config.library_root);
    assert!(missing.moved.is_empty());
    let mut cfg = config_for("/work");
    cfg.symbol_dir = "/elsewhere/sym".to_string();
    let read = Config::load_in(Reading::Parsed(cfg), "/work/config.toml", HOME);
    assert!(!read.write);
    assert_eq!(read.moved, vec![Field::SymbolDir]);
    assert_eq!(read.config.symbol_dir, "/work/lib/sym");
}

#[test]
fn a_zip_entry_keeps_its_place() {
    let entry = ZipEntry { path: "/a/b.zip".to_string(), display: "b.zip".to_string(), size: 3 };
    let job = Job::Zip(entry.clone());
    assert_eq!(job.label(), "b.zip");
}

#[test]
fn no_backup_is_made_when_they_are_switched_off() {
    let (mut disk, mut cfg) = ready();
    cfg.backup_before_overwrite = false;
    for _ in 0..2 {
        let zip = join(&cfg.download_dir, "LIB_PART.zip");
        write_cse_zip(&mut disk, &zip, "PART", "QFN");
        disk.import(&cfg, &zip).ok().unwrap();
    }
    assert!(!disk.there(&join(&cfg.symbol_dir, "PART.bak")));
    assert!(!disk.there("/work/lib/murky-informis.bak"));

    cfg.backup_before_overwrite = true;
    let zip = join(&cfg.download_dir, "LIB_PART.zip");
    write_cse_zip(&mut disk, &zip, "PART", "QFN");
    disk.import(&cfg, &zip).ok().unwrap();
    assert!(disk.is_file(&join(&cfg.symbol_dir, "PART.bak")));
    assert!(disk.is_file("/work/lib/murky-informis.bak"));
}

#[test]
fn what_is_recorded_moves_with_the_library() {
    let cfg = config_for("/work");
    let mut moved = cfg.clone();
    moved.rebase("/elsewhere/tree");
    let bytes = cse_zip("PART", "QFN");
    let zip = "/work/downloads/LIB_PART.zip";
    let (a, _) = importer::prepare(&cfg, zip, &bytes).ok().unwrap();
    let (b, _) = importer::prepare(&moved, zip, &bytes).ok().unwrap();
    let here = importer::install(&cfg, a).record_at(NOW.to_string());
    let there = importer::install(&moved, b).record_at(NOW.to_string());
    assert_eq!(here.symbol_file, there.symbol_file);
    assert_eq!(here.footprints, there.footprints);
    assert_eq!(here.models, there.models);
    assert_eq!(here.models, strings(&["3dmodels/PART.stp"]));
}

#[test]
fn nothing_is_created_or_saved_without_a_key() {
    let mut disk = Disk::new();
    let cfg = config_for("/work");
    let mut app = app_for(&mut disk, &cfg);
    assert_eq!(app.screen, Screen::Validate);
    tell(&mut app, &mut disk, Event::FsChanged { now: 0 });
    tell(&mut app, &mut disk, Event::Tick { now: 1000 });
    tell(&mut app, &mut disk, Event::SearchDone(Err("late".to_string())));
    assert!(!disk.there(&cfg.library_root));
    assert!(disk.configs.is_empty());
    press(&mut app, &mut disk, Key::Char('y'));
    assert!(disk.is_dir(&cfg.symbol_dir));
    assert!(!disk.there(&cfg.download_dir), "one location, one answer");
}
