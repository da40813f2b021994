//! Every filesystem location the application touches lives here.
//!
//! No path is hardcoded at a use site. Defaults are *derived* at runtime from
//! the user's home directory, persisted to `config.toml`, and every consumer
//! reads them back off the [`Config`] struct.

use vstd::prelude::*;
use vstd::string::*;

use crate::paths;
use crate::paths::{absolute, file_name, join_path, parent, same_path, starts_with, strip_prefix};
use crate::text;
use crate::text::{eq_ignore_ascii_case, number, same, slice, to_chars, to_lowercase, trimmed};

verus! {

// ------------------------------------------------------------ outside calls

/// `dirs::home_dir`: the user's home directory, if the system names one. The
/// environment decides it, so nothing is claimed of the result.
#[verifier::external_body]
fn found_home() -> (r: Option<String>) {
    dirs::home_dir().map(|p| p.to_string_lossy().into_owned())
}

/// `dirs::config_dir`: the user's configuration directory, if the system names
/// one. The environment decides it, so nothing is claimed of the result.
#[verifier::external_body]
fn found_config_dir() -> (r: Option<String>) {
    dirs::config_dir().map(|p| p.to_string_lossy().into_owned())
}

// ------------------------------------------------------------------ fields

/// What a [`Field`] holds, which decides how the Settings screen edits it and
/// whether startup validation checks it.
#[derive(Clone, Copy, PartialEq, Eq, Debug, Structural)]
pub enum Kind {
    /// A directory that must exist before importing.
    Dir,
    /// A file path. Its parent must exist; the file itself is created on demand.
    File,
    Bool,
}

/// Every configurable setting, in the order the Settings screen shows them.
#[derive(Clone, Copy, PartialEq, Eq, Debug, Structural)]
pub enum Field {
    LibraryRoot,
    DownloadDir,
    SymbolDir,
    FootprintDir,
    ModelDir,
    TempDir,
    ArchiveDir,
    MergedSymbolLib,
    ManifestPath,
    PerPartFootprintDirs,
    BackupBeforeOverwrite,
    DeleteZip,
}

/// A saved library location.
///
/// Everything below the root is derived by [`Config::rebase`], so a project is
/// only a name and where its tree lives — switching is one keypress rather than
/// nine path edits.
pub struct Project {
    pub name: String,
    pub library_root: String,
    /// The ZIP folder to read while this project is active. Absent means "keep
    /// whatever is configured", which is what a shared download folder wants.
    pub download_dir: Option<String>,
}

pub struct Config {
    pub library_root: String,
    pub download_dir: String,
    pub symbol_dir: String,
    /// KiCad footprint libraries are directories named `*.pretty`.
    pub footprint_dir: String,
    pub model_dir: String,
    pub temp_dir: String,
    pub archive_dir: String,
    /// Combined symbol library every imported symbol is also appended to.
    /// `None` (an empty string in TOML) disables merging.
    pub merged_symbol_lib: Option<String>,
    /// JSON description of the library's file structure.
    pub manifest_path: String,
    /// Also write each footprint to `<footprint_dir>/<PART>.pretty/`.
    pub per_part_footprint_dirs: bool,
    /// Copy an existing symbol file to `<stem>.bak` before replacing it.
    pub backup_before_overwrite: bool,
    pub delete_zip_after_import: bool,
    /// Saved library locations, in the order the Projects screen shows them.
    pub projects: Vec<Project>,
}

#[verifier::ext_equal]
pub struct ProjectView {
    pub name: Seq<char>,
    pub library_root: Seq<char>,
    pub download_dir: Option<Seq<char>>,
}

#[verifier::ext_equal]
pub struct ConfigView {
    pub library_root: Seq<char>,
    pub download_dir: Seq<char>,
    pub symbol_dir: Seq<char>,
    pub footprint_dir: Seq<char>,
    pub model_dir: Seq<char>,
    pub temp_dir: Seq<char>,
    pub archive_dir: Seq<char>,
    pub merged_symbol_lib: Option<Seq<char>>,
    pub manifest_path: Seq<char>,
    pub per_part_footprint_dirs: bool,
    pub backup_before_overwrite: bool,
    pub delete_zip_after_import: bool,
    pub projects: Seq<ProjectView>,
}

impl View for Project {
    type V = ProjectView;

    open spec fn view(&self) -> ProjectView {
        ProjectView {
            name: self.name@,
            library_root: self.library_root@,
            download_dir: text::opt_view(self.download_dir),
        }
    }
}

pub open spec fn project_views(list: Seq<Project>) -> Seq<ProjectView> {
    list.map_values(|p: Project| p@)
}

impl View for Config {
    type V = ConfigView;

    open spec fn view(&self) -> ConfigView {
        ConfigView {
            library_root: self.library_root@,
            download_dir: self.download_dir@,
            symbol_dir: self.symbol_dir@,
            footprint_dir: self.footprint_dir@,
            model_dir: self.model_dir@,
            temp_dir: self.temp_dir@,
            archive_dir: self.archive_dir@,
            merged_symbol_lib: text::opt_view(self.merged_symbol_lib),
            manifest_path: self.manifest_path@,
            per_part_footprint_dirs: self.per_part_footprint_dirs,
            backup_before_overwrite: self.backup_before_overwrite,
            delete_zip_after_import: self.delete_zip_after_import,
            projects: project_views(self.projects@),
        }
    }
}

pub(crate) fn clone_opt(value: &Option<String>) -> (r: Option<String>)
    ensures
        text::opt_view(r) == text::opt_view(*value),
{
    match value {
        Some(s) => Some(s.clone()),
        None => None,
    }
}

impl Clone for Project {
    fn clone(&self) -> (r: Project)
        ensures
            r@ == self@,
    {
        Project {
            name: self.name.clone(),
            library_root: self.library_root.clone(),
            download_dir: clone_opt(&self.download_dir),
        }
    }
}

pub(crate) fn copy_projects(list: &Vec<Project>) -> (r: Vec<Project>)
    ensures
        project_views(r@) == project_views(list@),
{
    let mut projects: Vec<Project> = Vec::new();
    let mut i: usize = 0;
    while i < list.len()
        invariant
            i <= list@.len(),
            projects@.len() == i,
            forall|j: int| 0 <= j < i ==> (#[trigger] projects@[j])@ == list@[j]@,
        decreases list.len() - i,
    {
        projects.push(list[i].clone());
        i += 1;
    }
    assert(project_views(projects@) =~= project_views(list@));
    projects
}

impl Clone for Config {
    fn clone(&self) -> (r: Config)
        ensures
            r@ == self@,
    {
        let projects = copy_projects(&self.projects);
        Config {
            library_root: self.library_root.clone(),
            download_dir: self.download_dir.clone(),
            symbol_dir: self.symbol_dir.clone(),
            footprint_dir: self.footprint_dir.clone(),
            model_dir: self.model_dir.clone(),
            temp_dir: self.temp_dir.clone(),
            archive_dir: self.archive_dir.clone(),
            merged_symbol_lib: clone_opt(&self.merged_symbol_lib),
            manifest_path: self.manifest_path.clone(),
            per_part_footprint_dirs: self.per_part_footprint_dirs,
            backup_before_overwrite: self.backup_before_overwrite,
            delete_zip_after_import: self.delete_zip_after_import,
            projects,
        }
    }
}

impl Field {
    pub const ALL: [Field; 12] = [
        Field::LibraryRoot,
        Field::DownloadDir,
        Field::SymbolDir,
        Field::FootprintDir,
        Field::ModelDir,
        Field::TempDir,
        Field::ArchiveDir,
        Field::MergedSymbolLib,
        Field::ManifestPath,
        Field::PerPartFootprintDirs,
        Field::BackupBeforeOverwrite,
        Field::DeleteZip,
    ];

    /// The only two locations the user actually chooses.
    ///
    /// Everything else is inside the library root, so it follows from this
    /// answer; asking about each folder in turn is noise, not consent.
    pub const ASKED: [Field; 2] = [Field::LibraryRoot, Field::DownloadDir];

    /// Every directory the application uses. Reported on the Diagnostics page.
    pub const DIRS: [Field; 7] = [
        Field::LibraryRoot,
        Field::DownloadDir,
        Field::SymbolDir,
        Field::FootprintDir,
        Field::ModelDir,
        Field::TempDir,
        Field::ArchiveDir,
    ];

    /// Everything the library owns, and therefore everything that has to live
    /// under the library root.
    ///
    /// The ZIP folder is deliberately absent: archives are the *input*, they
    /// come from wherever the browser puts them.
    pub const INSIDE: [Field; 7] = [
        Field::SymbolDir,
        Field::FootprintDir,
        Field::ModelDir,
        Field::TempDir,
        Field::ArchiveDir,
        Field::MergedSymbolLib,
        Field::ManifestPath,
    ];

    pub open spec fn leaf(self) -> Seq<char> {
        match self {
            Field::SymbolDir => "symbols"@,
            Field::FootprintDir => "footprints.pretty"@,
            Field::ModelDir => "3dmodels"@,
            Field::TempDir => "cache"@,
            Field::ArchiveDir => "archive"@,
            Field::MergedSymbolLib => "murky-informis.kicad_sym"@,
            Field::ManifestPath => "library.json"@,
            _ => ""@,
        }
    }

    /// Where this field sits relative to the library root by default. Used as a
    /// fallback when a path is pulled back inside and has no usable name.
    pub fn default_leaf(self) -> (r: &'static str)
        ensures
            r@ == self.leaf(),
    {
        match self {
            Field::SymbolDir => "symbols",
            Field::FootprintDir => "footprints.pretty",
            Field::ModelDir => "3dmodels",
            Field::TempDir => "cache",
            Field::ArchiveDir => "archive",
            Field::MergedSymbolLib => "murky-informis.kicad_sym",
            Field::ManifestPath => "library.json",
            _ => "",
        }
    }

    pub open spec fn caption(self) -> Seq<char> {
        match self {
            Field::LibraryRoot => "Library Root"@,
            Field::DownloadDir => "ZIP Folder"@,
            Field::SymbolDir => "Symbols"@,
            Field::FootprintDir => "Footprints (.pretty)"@,
            Field::ModelDir => "3D Models"@,
            Field::TempDir => "Temp"@,
            Field::ArchiveDir => "Archive"@,
            Field::MergedSymbolLib => "Merged Symbol Library"@,
            Field::ManifestPath => "Manifest (JSON)"@,
            Field::PerPartFootprintDirs => "Per-part .pretty folders"@,
            Field::BackupBeforeOverwrite => "Backup before overwrite"@,
            Field::DeleteZip => "Delete ZIP after import"@,
        }
    }

    pub fn label(self) -> (r: &'static str)
        ensures
            r@ == self.caption(),
    {
        match self {
            Field::LibraryRoot => "Library Root",
            Field::DownloadDir => "ZIP Folder",
            Field::SymbolDir => "Symbols",
            Field::FootprintDir => "Footprints (.pretty)",
            Field::ModelDir => "3D Models",
            Field::TempDir => "Temp",
            Field::ArchiveDir => "Archive",
            Field::MergedSymbolLib => "Merged Symbol Library",
            Field::ManifestPath => "Manifest (JSON)",
            Field::PerPartFootprintDirs => "Per-part .pretty folders",
            Field::BackupBeforeOverwrite => "Backup before overwrite",
            Field::DeleteZip => "Delete ZIP after import",
        }
    }

    pub open spec fn sort_of(self) -> Kind {
        match self {
            Field::MergedSymbolLib | Field::ManifestPath => Kind::File,
            Field::PerPartFootprintDirs | Field::BackupBeforeOverwrite | Field::DeleteZip => {
                Kind::Bool
            },
            _ => Kind::Dir,
        }
    }

    pub fn kind(self) -> (r: Kind)
        ensures
            r == self.sort_of(),
    {
        match self {
            Field::LibraryRoot
            | Field::DownloadDir
            | Field::SymbolDir
            | Field::FootprintDir
            | Field::ModelDir
            | Field::TempDir
            | Field::ArchiveDir => Kind::Dir,
            Field::MergedSymbolLib | Field::ManifestPath => Kind::File,
            Field::PerPartFootprintDirs | Field::BackupBeforeOverwrite | Field::DeleteZip => {
                Kind::Bool
            },
        }
    }

    /// The directory this field names in `cfg`.
    pub open spec fn folder(self, cfg: ConfigView) -> Option<Seq<char>> {
        match self {
            Field::LibraryRoot => Some(cfg.library_root),
            Field::DownloadDir => Some(cfg.download_dir),
            Field::SymbolDir => Some(cfg.symbol_dir),
            Field::FootprintDir => Some(cfg.footprint_dir),
            Field::ModelDir => Some(cfg.model_dir),
            Field::TempDir => Some(cfg.temp_dir),
            Field::ArchiveDir => Some(cfg.archive_dir),
            _ => None,
        }
    }

    /// The directory this field names, for the fields that name one.
    pub fn dir(self, cfg: &Config) -> (r: Option<&String>)
        ensures
            match r {
                Some(p) => Some(p@),
                None => None,
            } == self.folder(cfg@),
    {
        match self {
            Field::LibraryRoot => Some(&cfg.library_root),
            Field::DownloadDir => Some(&cfg.download_dir),
            Field::SymbolDir => Some(&cfg.symbol_dir),
            Field::FootprintDir => Some(&cfg.footprint_dir),
            Field::ModelDir => Some(&cfg.model_dir),
            Field::TempDir => Some(&cfg.temp_dir),
            Field::ArchiveDir => Some(&cfg.archive_dir),
            _ => None,
        }
    }

    /// The value of this field in `cfg` as a path.
    pub open spec fn get(self, cfg: ConfigView) -> Option<Seq<char>> {
        match self {
            Field::MergedSymbolLib => cfg.merged_symbol_lib,
            Field::ManifestPath => Some(cfg.manifest_path),
            _ => self.folder(cfg),
        }
    }

    /// Current value as a path, for both `Dir` and `File` fields.
    pub fn path(self, cfg: &Config) -> (r: Option<String>)
        ensures
            text::opt_view(r) == self.get(cfg@),
    {
        match self {
            Field::MergedSymbolLib => clone_opt(&cfg.merged_symbol_lib),
            Field::ManifestPath => Some(cfg.manifest_path.clone()),
            other => match other.dir(cfg) {
                Some(p) => Some(p.clone()),
                None => None,
            },
        }
    }

    /// `cfg` with this field set to `value`. An empty path turns the merged
    /// library off.
    pub open spec fn put(self, cfg: ConfigView, value: Seq<char>) -> ConfigView {
        match self {
            Field::LibraryRoot => ConfigView { library_root: value, ..cfg },
            Field::DownloadDir => ConfigView { download_dir: value, ..cfg },
            Field::SymbolDir => ConfigView { symbol_dir: value, ..cfg },
            Field::FootprintDir => ConfigView { footprint_dir: value, ..cfg },
            Field::ModelDir => ConfigView { model_dir: value, ..cfg },
            Field::TempDir => ConfigView { temp_dir: value, ..cfg },
            Field::ArchiveDir => ConfigView { archive_dir: value, ..cfg },
            Field::MergedSymbolLib => ConfigView {
                merged_symbol_lib: if value.len() == 0 {
                    None
                } else {
                    Some(value)
                },
                ..cfg
            },
            Field::ManifestPath => ConfigView { manifest_path: value, ..cfg },
            _ => cfg,
        }
    }

    pub fn set_path(self, cfg: &mut Config, value: String)
        ensures
            final(cfg)@ == self.put(old(cfg)@, value@),
    {
        match self {
            Field::LibraryRoot => cfg.library_root = value,
            Field::DownloadDir => cfg.download_dir = value,
            Field::SymbolDir => cfg.symbol_dir = value,
            Field::FootprintDir => cfg.footprint_dir = value,
            Field::ModelDir => cfg.model_dir = value,
            Field::TempDir => cfg.temp_dir = value,
            Field::ArchiveDir => cfg.archive_dir = value,
            // An empty path turns the merged library off.
            Field::MergedSymbolLib => {
                if value.as_str().is_empty() {
                    cfg.merged_symbol_lib = None;
                } else {
                    cfg.merged_symbol_lib = Some(value);
                }
            },
            Field::ManifestPath => cfg.manifest_path = value,
            _ => {},
        }
    }

    pub open spec fn flag(self, cfg: ConfigView) -> bool {
        match self {
            Field::PerPartFootprintDirs => cfg.per_part_footprint_dirs,
            Field::BackupBeforeOverwrite => cfg.backup_before_overwrite,
            _ => cfg.delete_zip_after_import,
        }
    }

    pub fn bool_value(self, cfg: &Config) -> (r: bool)
        ensures
            r == self.flag(cfg@),
    {
        match self {
            Field::PerPartFootprintDirs => cfg.per_part_footprint_dirs,
            Field::BackupBeforeOverwrite => cfg.backup_before_overwrite,
            _ => cfg.delete_zip_after_import,
        }
    }

    pub open spec fn flagged(self, cfg: ConfigView, value: bool) -> ConfigView {
        match self {
            Field::PerPartFootprintDirs => ConfigView { per_part_footprint_dirs: value, ..cfg },
            Field::BackupBeforeOverwrite => ConfigView { backup_before_overwrite: value, ..cfg },
            Field::DeleteZip => ConfigView { delete_zip_after_import: value, ..cfg },
            _ => cfg,
        }
    }

    pub fn set_bool(self, cfg: &mut Config, value: bool)
        ensures
            final(cfg)@ == self.flagged(old(cfg)@, value),
    {
        match self {
            Field::PerPartFootprintDirs => cfg.per_part_footprint_dirs = value,
            Field::BackupBeforeOverwrite => cfg.backup_before_overwrite = value,
            Field::DeleteZip => cfg.delete_zip_after_import = value,
            _ => {},
        }
    }

    pub fn toggle(self, cfg: &mut Config)
        ensures
            final(cfg)@ == self.flagged(old(cfg)@, !self.flag(old(cfg)@)),
    {
        if self.kind() == Kind::Bool {
            let value = !self.bool_value(cfg);
            self.set_bool(cfg, value);
        }
    }

    /// How the value of this field reads on screen.
    pub open spec fn shown(self, cfg: ConfigView) -> Seq<char> {
        if self.sort_of() == Kind::Bool {
            if self.flag(cfg) {
                "true"@
            } else {
                "false"@
            }
        } else {
            match self.get(cfg) {
                Some(p) => p,
                None => "(disabled)"@,
            }
        }
    }

    pub fn display(self, cfg: &Config) -> (r: String)
        ensures
            r@ == self.shown(cfg@),
    {
        if self.kind() == Kind::Bool {
            if self.bool_value(cfg) {
                "true".to_string()
            } else {
                "false".to_string()
            }
        } else {
            match self.path(cfg) {
                Some(p) => p,
                None => "(disabled)".to_string(),
            }
        }
    }
}

// ---------------------------------------------------------------- locations

/// The fields the library owns, in the order they are looked at.
pub open spec fn inside() -> Seq<Field> {
    seq![
        Field::SymbolDir,
        Field::FootprintDir,
        Field::ModelDir,
        Field::TempDir,
        Field::ArchiveDir,
        Field::MergedSymbolLib,
        Field::ManifestPath,
    ]
}

/// The name a stray path keeps when it is pulled in: its own, or the field's
/// usual one when it has none.
pub open spec fn kept_name(field: Field, path: Seq<char>) -> Seq<char> {
    match paths::leaf_of(path) {
        Some(name) => name,
        None => field.leaf(),
    }
}

/// The field points outside the library root.
pub open spec fn is_stray(cfg: ConfigView, field: Field) -> bool {
    match field.get(cfg) {
        Some(path) => !paths::within(path, cfg.library_root),
        None => false,
    }
}

/// `cfg` with `field` brought under the library root.
pub open spec fn pulled_in(cfg: ConfigView, field: Field) -> ConfigView {
    if is_stray(cfg, field) {
        field.put(
            cfg,
            paths::below(cfg.library_root, kept_name(field, field.get(cfg).unwrap())),
        )
    } else {
        cfg
    }
}

/// The first `n` library fields brought under the root.
pub open spec fn contained_upto(cfg: ConfigView, n: int) -> ConfigView
    decreases n,
{
    if n <= 0 {
        cfg
    } else {
        pulled_in(contained_upto(cfg, n - 1), inside()[n - 1])
    }
}

/// Every library field brought under the root.
pub open spec fn contained(cfg: ConfigView) -> ConfigView {
    contained_upto(cfg, 7)
}

/// Those of the first `n` library fields that point outside the root.
pub open spec fn strays_upto(cfg: ConfigView, n: int) -> Seq<Field>
    decreases n,
{
    if n <= 0 {
        Seq::empty()
    } else if is_stray(cfg, inside()[n - 1]) {
        strays_upto(cfg, n - 1).push(inside()[n - 1])
    } else {
        strays_upto(cfg, n - 1)
    }
}

/// The library fields that point outside the root.
pub open spec fn strays(cfg: ConfigView) -> Seq<Field> {
    strays_upto(cfg, 7)
}

/// Where a path inside the old tree sits in the new one.
pub open spec fn carried_path(path: Seq<char>, from: Seq<char>, to: Seq<char>) -> Seq<char> {
    paths::below(to, paths::rest_of(path, from))
}

/// The field is inside the library and moves when the root does.
pub open spec fn is_carried(cfg: ConfigView, root: Seq<char>, field: Field) -> bool {
    match field.get(cfg) {
        Some(path) => paths::within(path, cfg.library_root) && !paths::same_place(
            carried_path(path, cfg.library_root, root),
            path,
        ),
        None => false,
    }
}

/// `cfg` with `field` carried to the tree at `root`.
pub open spec fn carried(cfg: ConfigView, root: Seq<char>, field: Field) -> ConfigView {
    if is_carried(cfg, root, field) {
        field.put(cfg, carried_path(field.get(cfg).unwrap(), cfg.library_root, root))
    } else {
        cfg
    }
}

pub open spec fn carried_upto(cfg: ConfigView, root: Seq<char>, n: int) -> ConfigView
    decreases n,
{
    if n <= 0 {
        cfg
    } else {
        carried(carried_upto(cfg, root, n - 1), root, inside()[n - 1])
    }
}

pub open spec fn carries_upto(cfg: ConfigView, root: Seq<char>, n: int) -> Seq<Field>
    decreases n,
{
    if n <= 0 {
        Seq::empty()
    } else if is_carried(cfg, root, inside()[n - 1]) {
        carries_upto(cfg, root, n - 1).push(inside()[n - 1])
    } else {
        carries_upto(cfg, root, n - 1)
    }
}

/// `cfg` with what was inside the old tree carried to `root`, and the root
/// there.
pub open spec fn relocated(cfg: ConfigView, root: Seq<char>) -> ConfigView {
    ConfigView { library_root: root, ..carried_upto(cfg, root, 7) }
}

/// `cfg` with the library root at `root`, and the whole library under it.
pub open spec fn rebased(cfg: ConfigView, root: Seq<char>) -> ConfigView {
    contained(relocated(cfg, root))
}

/// `list` with those of the first `n` of `more` that it does not hold yet.
pub open spec fn joined_with(list: Seq<Field>, more: Seq<Field>, n: int) -> Seq<Field>
    decreases n,
{
    if n <= 0 {
        list
    } else {
        let before = joined_with(list, more, n - 1);
        if before.contains(more[n - 1]) {
            before
        } else {
            before.push(more[n - 1])
        }
    }
}

/// The fields that move when the root does: those carried, then those pulled in.
pub open spec fn rebase_moves(cfg: ConfigView, root: Seq<char>) -> Seq<Field> {
    let pulled = strays(relocated(cfg, root));
    joined_with(carries_upto(cfg, root, 7), pulled, pulled.len() as int)
}

/// The first saved project whose root is the configured one.
pub open spec fn active_upto(cfg: ConfigView, n: int) -> Option<int>
    decreases n,
{
    if n <= 0 {
        None
    } else {
        match active_upto(cfg, n - 1) {
            Some(i) => Some(i),
            None => if paths::same_place(cfg.projects[n - 1].library_root, cfg.library_root) {
                Some(n - 1)
            } else {
                None
            },
        }
    }
}

/// The saved project the configuration is sitting in.
pub open spec fn active(cfg: ConfigView) -> Option<int> {
    active_upto(cfg, cfg.projects.len() as int)
}

/// `cfg` moved to `project`.
pub open spec fn switched(cfg: ConfigView, project: ProjectView) -> ConfigView {
    let there = rebased(cfg, project.library_root);
    match project.download_dir {
        Some(dir) => if paths::same_place(there.download_dir, dir) {
            there
        } else {
            ConfigView { download_dir: dir, ..there }
        },
        None => there,
    }
}

pub open spec fn switch_moves(cfg: ConfigView, project: ProjectView) -> Seq<Field> {
    let moves = rebase_moves(cfg, project.library_root);
    match project.download_dir {
        Some(dir) => if paths::same_place(cfg.download_dir, dir) {
            moves
        } else {
            moves.push(Field::DownloadDir)
        },
        None => moves,
    }
}

/// The first of the first `n` projects called `name`, whatever its case.
pub open spec fn named_upto(projects: Seq<ProjectView>, name: Seq<char>, n: int) -> Option<int>
    decreases n,
{
    if n <= 0 {
        None
    } else {
        match named_upto(projects, name, n - 1) {
            Some(i) => Some(i),
            None => if text::same_letters(projects[n - 1].name, name) {
                Some(n - 1)
            } else {
                None
            },
        }
    }
}

pub open spec fn named(projects: Seq<ProjectView>, name: Seq<char>) -> Option<int> {
    named_upto(projects, name, projects.len() as int)
}

/// Where the configuration is now, as a project called `name`.
pub open spec fn bookmark(cfg: ConfigView, name: Seq<char>) -> ProjectView {
    ProjectView {
        name: text::trim(name),
        library_root: cfg.library_root,
        download_dir: Some(cfg.download_dir),
    }
}

/// `cfg` with its location saved under `name`.
pub open spec fn remembered(cfg: ConfigView, name: Seq<char>) -> ConfigView {
    match named(cfg.projects, text::trim(name)) {
        Some(i) => ConfigView { projects: cfg.projects.update(i, bookmark(cfg, name)), ..cfg },
        None => ConfigView { projects: cfg.projects.push(bookmark(cfg, name)), ..cfg },
    }
}

/// Where it landed.
pub open spec fn remembered_at(cfg: ConfigView, name: Seq<char>) -> int {
    match named(cfg.projects, text::trim(name)) {
        Some(i) => i,
        None => cfg.projects.len() as int,
    }
}

/// No project pointing somewhere else is called `name`.
pub open spec fn is_free(cfg: ConfigView, name: Seq<char>) -> bool {
    forall|i: int|
        0 <= i < cfg.projects.len() ==> !text::same_letters((#[trigger] cfg.projects[i]).name, name)
            || paths::same_place(cfg.projects[i].library_root, cfg.library_root)
}

/// The smallest number that makes `base` free when it is put behind it.
pub open spec fn least_free(cfg: ConfigView, base: Seq<char>) -> nat {
    choose|n: nat|
        n >= 2 && is_free(cfg, #[trigger] numbered(base, n)) && forall|m: nat|
            2 <= m < n ==> !is_free(cfg, #[trigger] numbered(base, m))
}

/// `base`, or with the smallest number behind it that makes it free.
pub open spec fn unique_name(cfg: ConfigView, base: Seq<char>) -> Seq<char> {
    if is_free(cfg, base) {
        base
    } else {
        numbered(base, least_free(cfg, base))
    }
}

proof fn lemma_least_free(cfg: ConfigView, base: Seq<char>, n: nat)
    requires
        n >= 2,
        is_free(cfg, numbered(base, n)),
        forall|m: nat| 2 <= m < n ==> !is_free(cfg, #[trigger] numbered(base, m)),
    ensures
        least_free(cfg, base) == n,
{
    let k = least_free(cfg, base);
    assert(k >= 2 && is_free(cfg, numbered(base, k)) && forall|m: nat|
        2 <= m < k ==> !is_free(cfg, #[trigger] numbered(base, m)));
}

/// `base 2`, `base 3`, …
pub open spec fn numbered(base: Seq<char>, n: nat) -> Seq<char> {
    base + " "@ + text::decimal(n)
}

// ------------------------------------------------------------------- laws

/// Every fallback name is a name.
pub proof fn lemma_leaf_is_name(field: Field)
    requires
        inside().contains(field),
    ensures
        paths::is_name(field.leaf()),
{
    reveal_strlit("symbols");
    reveal_strlit("footprints.pretty");
    reveal_strlit("3dmodels");
    reveal_strlit("cache");
    reveal_strlit("archive");
    reveal_strlit("murky-informis.kicad_sym");
    reveal_strlit("library.json");
    reveal_with_fuel(text::lacks, 26);
    let s = field.leaf();
    assert(text::lacks(s, '/', s.len() as int));
    text::lemma_lacks(s, '/', s.len() as int);
    assert(s.len() > 1);
}

proof fn lemma_kept_name(field: Field, path: Seq<char>)
    requires
        inside().contains(field),
    ensures
        paths::is_name(kept_name(field, path)),
{
    lemma_leaf_is_name(field);
    paths::lemma_leaf(path);
}

/// What pulling in does to one field.
pub open spec fn inside_path(root: Seq<char>, field: Field, path: Seq<char>) -> Seq<char> {
    if paths::within(path, root) {
        path
    } else {
        paths::below(root, kept_name(field, path))
    }
}

pub open spec fn inside_value(root: Seq<char>, field: Field, value: Option<Seq<char>>) -> Option<
    Seq<char>,
> {
    match value {
        Some(path) => Some(inside_path(root, field, path)),
        None => None,
    }
}

/// The parts of a configuration that are no library field.
pub open spec fn same_outside(a: ConfigView, b: ConfigView) -> bool {
    &&& a.library_root == b.library_root
    &&& a.download_dir == b.download_dir
    &&& a.per_part_footprint_dirs == b.per_part_footprint_dirs
    &&& a.backup_before_overwrite == b.backup_before_overwrite
    &&& a.delete_zip_after_import == b.delete_zip_after_import
    &&& a.projects == b.projects
}

/// Setting one library field changes that one alone.
proof fn lemma_put(cfg: ConfigView, field: Field, value: Seq<char>)
    requires
        field != Field::LibraryRoot,
        field != Field::DownloadDir,
        field.sort_of() != Kind::Bool,
    ensures
        same_outside(field.put(cfg, value), cfg),
        field.get(field.put(cfg, value)) == (if field == Field::MergedSymbolLib && value.len()
            == 0 {
            None
        } else {
            Some(value)
        }),
        forall|other: Field|
            other != field ==> #[trigger] other.get(field.put(cfg, value)) == other.get(cfg),
{
}

proof fn lemma_inside(i: int)
    requires
        0 <= i < 7,
    ensures
        inside().contains(inside()[i]),
        inside()[i] != Field::LibraryRoot,
        inside()[i] != Field::DownloadDir,
        inside()[i].sort_of() != Kind::Bool,
        forall|k: int| 0 <= k < 7 && k != i ==> #[trigger] inside()[k] != inside()[i],
{
}

#[verifier::spinoff_prover]
proof fn lemma_contained_upto(cfg: ConfigView, n: int)
    requires
        0 <= n <= 7,
    ensures
        same_outside(contained_upto(cfg, n), cfg),
        forall|i: int|
            0 <= i < 7 ==> (#[trigger] inside()[i]).get(contained_upto(cfg, n)) == (if i < n {
                inside_value(cfg.library_root, inside()[i], inside()[i].get(cfg))
            } else {
                inside()[i].get(cfg)
            }),
    decreases n,
{
    if n > 0 {
        lemma_contained_upto(cfg, n - 1);
        let before = contained_upto(cfg, n - 1);
        let field = inside()[n - 1];
        lemma_inside(n - 1);
        assert(field.get(before) == field.get(cfg));
        if is_stray(before, field) {
            let path = field.get(cfg).unwrap();
            let target = paths::below(cfg.library_root, kept_name(field, path));
            lemma_kept_name(field, path);
            paths::lemma_below_name(cfg.library_root, kept_name(field, path));
            if target.len() == 0 {
                paths::lemma_empty();
                assert(target =~= Seq::<char>::empty());
            }
            lemma_put(before, field, target);
        }
    }
}

/// Containing leaves every library field under the root, changes exactly those
/// that were outside, and touches nothing else.
pub proof fn lemma_contained(cfg: ConfigView)
    ensures
        same_outside(contained(cfg), cfg),
        forall|f: Field| #[trigger]
            inside().contains(f) ==> f.get(contained(cfg)) == inside_value(
                cfg.library_root,
                f,
                f.get(cfg),
            ),
        forall|f: Field| #[trigger] inside().contains(f) ==> !is_stray(contained(cfg), f),
        forall|f: Field| #[trigger]
            inside().contains(f) && !is_stray(cfg, f) ==> f.get(contained(cfg)) == f.get(cfg),
{
    lemma_contained_upto(cfg, 7);
    assert forall|f: Field| #[trigger] inside().contains(f) implies f.get(contained(cfg))
        == inside_value(cfg.library_root, f, f.get(cfg)) && !is_stray(contained(cfg), f) by {
        let i = inside().index_of(f);
        assert(inside()[i] == f);
        if let Some(path) = f.get(cfg) {
            lemma_kept_name(f, path);
            paths::lemma_below_name(cfg.library_root, kept_name(f, path));
        }
    }
}

/// A contained configuration stays as it is.
pub proof fn lemma_contained_once(cfg: ConfigView)
    ensures
        contained(contained(cfg)) == contained(cfg),
        strays(contained(cfg)) == Seq::<Field>::empty(),
{
    lemma_contained(cfg);
    lemma_unmoved(contained(cfg), 7);
}

proof fn lemma_unmoved(cfg: ConfigView, n: int)
    requires
        0 <= n <= 7,
        forall|f: Field| #[trigger] inside().contains(f) ==> !is_stray(cfg, f),
    ensures
        contained_upto(cfg, n) == cfg,
        strays_upto(cfg, n) == Seq::<Field>::empty(),
    decreases n,
{
    if n > 0 {
        lemma_unmoved(cfg, n - 1);
        assert(inside().contains(inside()[n - 1]));
    }
}

/// What moving the root does to one field.
spec fn moved_value(
    from: Seq<char>,
    to: Seq<char>,
    field: Field,
    value: Option<Seq<char>>,
) -> Option<Seq<char>> {
    match value {
        Some(path) => {
            let target = carried_path(path, from, to);
            if !paths::within(path, from) || paths::same_place(target, path) {
                Some(path)
            } else if field == Field::MergedSymbolLib && target.len() == 0 {
                None
            } else {
                Some(target)
            }
        },
        None => None,
    }
}

#[verifier::spinoff_prover]
proof fn lemma_carried_upto(cfg: ConfigView, root: Seq<char>, n: int)
    requires
        0 <= n <= 7,
    ensures
        same_outside(carried_upto(cfg, root, n), cfg),
        forall|i: int|
            0 <= i < 7 ==> (#[trigger] inside()[i]).get(carried_upto(cfg, root, n)) == (if i < n {
                moved_value(cfg.library_root, root, inside()[i], inside()[i].get(cfg))
            } else {
                inside()[i].get(cfg)
            }),
    decreases n,
{
    if n > 0 {
        lemma_carried_upto(cfg, root, n - 1);
        let before = carried_upto(cfg, root, n - 1);
        let field = inside()[n - 1];
        lemma_inside(n - 1);
        assert(field.get(before) == field.get(cfg));
        if is_carried(before, root, field) {
            let path = field.get(cfg).unwrap();
            lemma_put(before, field, carried_path(path, cfg.library_root, root));
        }
    }
}

/// The field has a place that can be kept when the root moves to `root`. Two
/// have none: what an empty root does not hold, as it starts elsewhere, and a
/// merged library that is the root itself, when the new root is empty, for
/// there an empty path turns it off.
pub open spec fn keeps_place(cfg: ConfigView, root: Seq<char>, field: Field) -> bool {
    match field.get(cfg) {
        Some(path) => {
            &&& cfg.library_root.len() > 0 || paths::head(path).len() == 0
            &&& root.len() > 0 || field != Field::MergedSymbolLib || !paths::same_place(
                path,
                cfg.library_root,
            )
        },
        None => true,
    }
}

/// Moving the root takes the whole library with it: a path inside the old tree
/// keeps its position in the new one, everything ends up under the new root,
/// and the ZIP folder, the switches and the saved projects stay.
pub proof fn lemma_rebased(cfg: ConfigView, root: Seq<char>)
    ensures
        same_outside(rebased(cfg, root), ConfigView { library_root: root, ..cfg }),
        forall|f: Field| #[trigger] inside().contains(f) ==> !is_stray(rebased(cfg, root), f),
        forall|f: Field| #[trigger]
            inside().contains(f) && !is_stray(cfg, f) && keeps_place(cfg, root, f) ==> match f.get(
                cfg,
            ) {
                Some(path) => match f.get(rebased(cfg, root)) {
                    Some(now) => paths::components(now) == paths::components(root)
                        + paths::components(path).skip(
                        paths::components(cfg.library_root).len() as int,
                    ),
                    None => false,
                },
                None => f.get(rebased(cfg, root)) is None,
            },
{
    lemma_carried_upto(cfg, root, 7);
    lemma_contained(relocated(cfg, root));
    assert forall|f: Field| #[trigger]
        inside().contains(f) && !is_stray(cfg, f) && keeps_place(cfg, root, f) implies match f.get(
        cfg,
    ) {
        Some(path) => match f.get(rebased(cfg, root)) {
            Some(now) => paths::components(now) == paths::components(root) + paths::components(
                path,
            ).skip(paths::components(cfg.library_root).len() as int),
            None => false,
        },
        None => f.get(rebased(cfg, root)) is None,
    } by {
        let i = inside().index_of(f);
        assert(inside()[i] == f);
        if let Some(path) = f.get(cfg) {
            let from = paths::components(cfg.library_root);
            let target = carried_path(path, cfg.library_root, root);
            paths::lemma_moved(path, cfg.library_root, root);
            if target.len() == 0 {
                assert(target =~= Seq::<char>::empty());
                paths::lemma_empty();
                assert(paths::components(root).len() == 0);
                paths::lemma_only_empty(root);
                assert(paths::components(path).skip(from.len() as int).len() == 0);
                assert(paths::components(path).take(from.len() as int) =~= paths::components(
                    path,
                ));
            }
        }
    }
}

/// Moving the root away and back again leaves every library field where it was.
pub proof fn lemma_rebased_back(cfg: ConfigView, root: Seq<char>)
    ensures
        forall|f: Field| #[trigger]
            inside().contains(f) && !is_stray(cfg, f) && keeps_place(cfg, root, f) && keeps_place(
                cfg,
                cfg.library_root,
                f,
            ) ==> match f.get(cfg) {
                Some(path) => match f.get(rebased(rebased(cfg, root), cfg.library_root)) {
                    Some(now) => paths::same_place(now, path),
                    None => false,
                },
                None => f.get(rebased(rebased(cfg, root), cfg.library_root)) is None,
            },
{
    let away = rebased(cfg, root);
    let back = rebased(away, cfg.library_root);
    lemma_rebased(cfg, root);
    lemma_rebased(away, cfg.library_root);
    assert forall|f: Field| #[trigger]
        inside().contains(f) && !is_stray(cfg, f) && keeps_place(cfg, root, f) && keeps_place(
        cfg,
        cfg.library_root,
        f,
    ) implies match f.get(cfg) {
        Some(path) => match f.get(back) {
            Some(now) => paths::same_place(now, path),
            None => false,
        },
        None => f.get(back) is None,
    } by {
        assert(!is_stray(away, f));
        if let Some(path) = f.get(cfg) {
            let there = f.get(away).unwrap();
            let old = paths::components(cfg.library_root);
            let new = paths::components(root);
            let rest = paths::components(path).skip(old.len() as int);
            assert((new + rest).skip(new.len() as int) =~= rest);
            assert(paths::components(path) =~= old + rest);
            if old.len() == 0 {
                paths::lemma_only_empty(cfg.library_root);
            }
            if root.len() == 0 {
                assert(root =~= Seq::<char>::empty());
                paths::lemma_empty();
                paths::lemma_names(path);
                paths::lemma_names(there);
                if rest.len() > 0 {
                    assert(rest[0] == paths::components(path)[old.len() as int]);
                    assert(paths::components(there)[0] == rest[0]);
                }
            }
            if paths::same_place(there, root) {
                assert(rest.len() == 0);
                assert(paths::components(path) =~= old);
            }
            assert(keeps_place(away, cfg.library_root, f));
        }
    }
}

impl Config {
    /// Pulls every library file back under the library root.
    ///
    /// A KiCad library is one self-contained folder: the symbols, footprints, 3D
    /// models, merged library and manifest all belong inside it, so the root can
    /// be moved, copied or handed to someone else in one piece. A path pointing
    /// somewhere else keeps its own name but is re-anchored under the root.
    ///
    /// Returns the fields that had to be moved.
    pub fn contain(&mut self) -> (moved: Vec<Field>)
        ensures
            final(self)@ == contained(old(self)@),
            moved@ == strays(old(self)@),
    {
        let ghost cfg = self@;
        let root = self.library_root.clone();
        let mut moved: Vec<Field> = Vec::new();
        let mut i: usize = 0;
        assert(Field::INSIDE@ =~= inside());
        while i < 7
            invariant
                i <= 7,
                Field::INSIDE@ == inside(),
                self@ == contained_upto(cfg, i as int),
                moved@ == strays_upto(cfg, i as int),
                root@ == cfg.library_root,
            decreases 7 - i,
        {
            let field = Field::INSIDE[i];
            proof {
                lemma_contained_upto(cfg, i as int);
                assert(inside()[i as int].get(self@) == inside()[i as int].get(cfg));
            }
            if let Some(current) = field.path(self) {
                if !starts_with(current.as_str(), root.as_str()) {
                    // The user's own name for the folder or file is worth
                    // keeping; only a path with no usable last component falls
                    // back to the default.
                    let leaf = match file_name(current.as_str()) {
                        Some(name) => name,
                        None => field.default_leaf().to_string(),
                    };
                    let target = join_path(root.as_str(), leaf.as_str());
                    field.set_path(self, target);
                    moved.push(field);
                }
            }
            i += 1;
        }
        moved
    }

    /// Moves the library root to `root`, taking the whole library with it.
    ///
    /// A path already inside the old tree keeps its position within it, so a
    /// nested layout survives the move. Anything else is pulled in by
    /// [`Config::contain`]. Returns the fields that moved, for the status line
    /// and the log.
    pub fn rebase(&mut self, root: &str) -> (moved: Vec<Field>)
        ensures
            final(self)@ == rebased(old(self)@, root@),
            moved@ == rebase_moves(old(self)@, root@),
    {
        let ghost cfg = self@;
        let from = self.library_root.clone();
        let mut moved: Vec<Field> = Vec::new();
        let mut i: usize = 0;
        assert(Field::INSIDE@ =~= inside());
        while i < 7
            invariant
                i <= 7,
                Field::INSIDE@ == inside(),
                self@ == carried_upto(cfg, root@, i as int),
                moved@ == carries_upto(cfg, root@, i as int),
                from@ == cfg.library_root,
                self@.library_root == cfg.library_root,
                forall|k: int|
                    i <= k < 7 ==> (#[trigger] inside()[k]).get(self@) == inside()[k].get(cfg),
            decreases 7 - i,
        {
            let field = Field::INSIDE[i];
            assert(field == inside()[i as int]);
            if let Some(current) = field.path(self) {
                if let Some(rest) = strip_prefix(current.as_str(), from.as_str()) {
                    let target = join_path(root, rest.as_str());
                    if !same_path(target.as_str(), current.as_str()) {
                        field.set_path(self, target);
                        moved.push(field);
                    }
                }
            }
            i += 1;
        }
        self.library_root = root.to_string();
        assert(self@ == relocated(cfg, root@));
        let pulled = self.contain();
        let mut k: usize = 0;
        while k < pulled.len()
            invariant
                k <= pulled@.len(),
                moved@ == joined_with(carries_upto(cfg, root@, 7), pulled@, k as int),
            decreases pulled.len() - k,
        {
            if !holds(&moved, pulled[k]) {
                moved.push(pulled[k]);
            }
            k += 1;
        }
        moved
    }

    /// Where the saved project the live configuration is currently sitting in
    /// stands in the list.
    pub fn active_index(&self) -> (r: Option<usize>)
        ensures
            match r {
                Some(i) => active(self@) == Some(i as int) && i < self.projects@.len(),
                None => active(self@) is None,
            },
    {
        let mut i: usize = 0;
        while i < self.projects.len()
            invariant
                i <= self.projects@.len(),
                active_upto(self@, i as int) is None,
            decreases self.projects.len() - i,
        {
            if same_path(self.projects[i].library_root.as_str(), self.library_root.as_str()) {
                proof {
                    lemma_active_stays(self@, i + 1, self.projects@.len() as int);
                }
                return Some(i);
            }
            i += 1;
        }
        None
    }

    /// The saved project the live configuration is currently sitting in.
    pub fn active_project(&self) -> (r: Option<&Project>)
        ensures
            match r {
                Some(p) => active(self@) is Some && p@
                    == self@.projects[active(self@).unwrap()],
                None => active(self@) is None,
            },
    {
        match self.active_index() {
            Some(i) => Some(&self.projects[i]),
            None => None,
        }
    }

    /// Switches to a saved project: rebases onto its root, and takes its ZIP
    /// folder when it has one of its own.
    pub fn switch_to(&mut self, project: &Project) -> (moved: Vec<Field>)
        ensures
            final(self)@ == switched(old(self)@, project@),
            moved@ == switch_moves(old(self)@, project@),
    {
        let ghost cfg = self@;
        let mut moved = self.rebase(project.library_root.as_str());
        proof {
            lemma_rebased_outside(cfg, project.library_root@);
        }
        if let Some(dir) = &project.download_dir {
            if !same_path(self.download_dir.as_str(), dir.as_str()) {
                self.download_dir = dir.clone();
                moved.push(Field::DownloadDir);
            }
        }
        moved
    }
}

/// Moving the root never touches the ZIP folder, the switches or the saved
/// projects.
pub proof fn lemma_rebased_outside(cfg: ConfigView, root: Seq<char>)
    ensures
        same_outside(rebased(cfg, root), ConfigView { library_root: root, ..cfg }),
{
    lemma_carried_outside(cfg, root, 7);
    lemma_contained(relocated(cfg, root));
}

proof fn lemma_carried_outside(cfg: ConfigView, root: Seq<char>, n: int)
    requires
        0 <= n <= 7,
    ensures
        same_outside(carried_upto(cfg, root, n), cfg),
    decreases n,
{
    if n > 0 {
        lemma_carried_outside(cfg, root, n - 1);
    }
}

proof fn lemma_active_stays(cfg: ConfigView, n: int, m: int)
    requires
        n <= m,
        active_upto(cfg, n) is Some,
    ensures
        active_upto(cfg, m) == active_upto(cfg, n),
    decreases m - n,
{
    if n < m {
        lemma_active_stays(cfg, n, m - 1);
    }
}

pub(crate) fn holds(list: &Vec<Field>, field: Field) -> (r: bool)
    ensures
        r == list@.contains(field),
{
    let mut i: usize = 0;
    while i < list.len()
        invariant
            i <= list@.len(),
            forall|j: int| 0 <= j < i ==> list@[j] != field,
        decreases list.len() - i,
    {
        if list[i] == field {
            assert(list@[i as int] == field);
            return true;
        }
        i += 1;
    }
    false
}

// ---------------------------------------------------------------- projects

proof fn lemma_named_upto(projects: Seq<ProjectView>, name: Seq<char>, n: int)
    requires
        0 <= n <= projects.len(),
    ensures
        match named_upto(projects, name, n) {
            Some(i) => 0 <= i < n && text::same_letters(projects[i].name, name) && forall|j: int|
                0 <= j < i ==> !text::same_letters((#[trigger] projects[j]).name, name),
            None => forall|j: int|
                0 <= j < n ==> !text::same_letters((#[trigger] projects[j]).name, name),
        },
    decreases n,
{
    if n > 0 {
        lemma_named_upto(projects, name, n - 1);
    }
}

/// A name finds the first project that has it, whatever the case of its letters.
pub proof fn lemma_named(projects: Seq<ProjectView>, name: Seq<char>)
    ensures
        match named(projects, name) {
            Some(i) => 0 <= i < projects.len() && text::same_letters(projects[i].name, name)
                && forall|j: int|
                0 <= j < i ==> !text::same_letters((#[trigger] projects[j]).name, name),
            None => forall|j: int|
                0 <= j < projects.len() ==> !text::same_letters(
                    (#[trigger] projects[j]).name,
                    name,
                ),
        },
{
    lemma_named_upto(projects, name, projects.len() as int);
}

proof fn lemma_named_at(projects: Seq<ProjectView>, name: Seq<char>, i: int, n: int)
    requires
        0 <= i < n <= projects.len(),
        text::same_letters(projects[i].name, name),
        forall|j: int| 0 <= j < i ==> !text::same_letters((#[trigger] projects[j]).name, name),
    ensures
        named_upto(projects, name, n) == Some(i),
    decreases n,
{
    lemma_named_upto(projects, name, i);
    if n > i + 1 {
        lemma_named_at(projects, name, i, n - 1);
    }
}

/// No two projects share a name.
pub open spec fn names_differ(projects: Seq<ProjectView>) -> bool {
    forall|i: int, j: int|
        0 <= i < j < projects.len() ==> !text::same_letters(
            (#[trigger] projects[i]).name,
            (#[trigger] projects[j]).name,
        )
}

/// A location saved under a name is what the name finds; every other bookmark
/// stays, and names that differed still differ.
pub proof fn lemma_remembered(cfg: ConfigView, name: Seq<char>)
    ensures
        named(remembered(cfg, name).projects, text::trim(name)) == Some(remembered_at(cfg, name)),
        remembered(cfg, name).projects[remembered_at(cfg, name)] == bookmark(cfg, name),
        forall|i: int|
            0 <= i < cfg.projects.len() && i != remembered_at(cfg, name)
                ==> #[trigger] remembered(cfg, name).projects[i] == cfg.projects[i],
        names_differ(cfg.projects) ==> names_differ(remembered(cfg, name).projects),
{
    let short = text::trim(name);
    let at = remembered_at(cfg, name);
    let after = remembered(cfg, name).projects;
    lemma_named_upto(cfg.projects, short, cfg.projects.len() as int);
    assert forall|j: int| 0 <= j < at implies !text::same_letters(
        (#[trigger] after[j]).name,
        short,
    ) by {
        assert(after[j] == cfg.projects[j]);
    }
    lemma_named_at(after, short, at, after.len() as int);
    if names_differ(cfg.projects) {
        assert forall|i: int, j: int| 0 <= i < j < after.len() implies !text::same_letters(
            (#[trigger] after[i]).name,
            (#[trigger] after[j]).name,
        ) by {
            if i != at && j != at {
                assert(after[i] == cfg.projects[i] && after[j] == cfg.projects[j]);
            } else if j == at {
                assert(after[i] == cfg.projects[i]);
            } else {
                assert(after[j] == cfg.projects[j]);
                assert(!text::same_letters(cfg.projects[i].name, cfg.projects[j].name));
            }
        }
    }
}

/// Saving under a free name leaves every bookmark to another place alone.
pub proof fn lemma_free_name_keeps(cfg: ConfigView, name: Seq<char>)
    requires
        is_free(cfg, text::trim(name)),
    ensures
        forall|i: int|
            0 <= i < cfg.projects.len() && !paths::same_place(
                (#[trigger] cfg.projects[i]).library_root,
                cfg.library_root,
            ) ==> remembered(cfg, name).projects[i] == cfg.projects[i],
{
    lemma_named_upto(cfg.projects, text::trim(name), cfg.projects.len() as int);
}

proof fn lemma_digits(n: nat)
    ensures
        text::decimal(n).len() > 0,
        forall|i: int|
            0 <= i < text::decimal(n).len() ==> '0' <= #[trigger] text::decimal(n)[i]
                && text::decimal(n)[i] <= '9',
    decreases n,
{
    if n >= 10 {
        lemma_digits(n / 10);
    }
}

/// Different numbers are written differently.
pub proof fn lemma_decimal_differs(a: nat, b: nat)
    requires
        text::decimal(a) == text::decimal(b),
    ensures
        a == b,
    decreases a,
{
    lemma_digits(a);
    lemma_digits(b);
    let x = text::decimal(a);
    let y = text::decimal(b);
    if a >= 10 {
        lemma_digits(a / 10);
        assert(x.drop_last() =~= text::decimal(a / 10));
    }
    if b >= 10 {
        lemma_digits(b / 10);
        assert(y.drop_last() =~= text::decimal(b / 10));
    }
    assert(x.last() == text::digit(a % 10));
    assert(y.last() == text::digit(b % 10));
    if a >= 10 && b >= 10 {
        lemma_decimal_differs(a / 10, b / 10);
    }
}

proof fn lemma_numbered_differs(base: Seq<char>, a: nat, b: nat)
    requires
        text::same_letters(numbered(base, a), numbered(base, b)),
    ensures
        a == b,
{
    let x = numbered(base, a);
    let y = numbered(base, b);
    let da = text::decimal(a);
    let db = text::decimal(b);
    lemma_digits(a);
    lemma_digits(b);
    assert(text::ascii_lower(x).len() == x.len());
    assert(text::ascii_lower(y).len() == y.len());
    assert(x.len() == y.len());
    assert(da.len() == db.len());
    let k = (base + " "@).len();
    assert forall|i: int| 0 <= i < da.len() implies da[i] == db[i] by {
        assert(x[k + i] == da[i]);
        assert(y[k + i] == db[i]);
        assert(text::ascii_lower(x)[k + i] == text::lower_char(da[i]));
        assert(text::ascii_lower(y)[k + i] == text::lower_char(db[i]));
    }
    assert(da =~= db);
    lemma_decimal_differs(a, b);
}

/// The first `n` projects take the name `base m`.
spec fn is_taken(projects: Seq<ProjectView>, base: Seq<char>, m: nat, n: int) -> bool {
    exists|i: int|
        0 <= i < n && text::same_letters((#[trigger] projects[i]).name, numbered(base, m))
}

/// So many projects take no more numbered names than there are projects.
proof fn lemma_taken_few(projects: Seq<ProjectView>, base: Seq<char>, wanted: Set<nat>, n: int)
    requires
        0 <= n <= projects.len(),
        wanted.finite(),
        forall|m: nat| #[trigger] wanted.contains(m) ==> is_taken(projects, base, m, n),
    ensures
        wanted.len() <= n,
    decreases n,
{
    if n == 0 {
        assert forall|m: nat| !wanted.contains(m) by {
            if wanted.contains(m) {
                assert(is_taken(projects, base, m, n));
            }
        }
        assert(wanted =~= Set::empty());
    } else {
        let last = projects[n - 1];
        if exists|m: nat|
            wanted.contains(m) && #[trigger] text::same_letters(last.name, numbered(base, m)) {
            let m0 = choose|m: nat|
                wanted.contains(m) && #[trigger] text::same_letters(last.name, numbered(base, m));
            let fewer = wanted.remove(m0);
            assert forall|m: nat| #[trigger] fewer.contains(m) implies is_taken(
                projects,
                base,
                m,
                n - 1,
            ) by {
                assert(wanted.contains(m));
                let i = choose|i: int|
                    0 <= i < n && text::same_letters(
                        (#[trigger] projects[i]).name,
                        numbered(base, m),
                    );
                if i == n - 1 {
                    lemma_numbered_differs(base, m, m0);
                }
                assert(0 <= i < n - 1 && text::same_letters(projects[i].name, numbered(base, m)));
            }
            lemma_taken_few(projects, base, fewer, n - 1);
        } else {
            assert forall|m: nat| #[trigger] wanted.contains(m) implies is_taken(
                projects,
                base,
                m,
                n - 1,
            ) by {
                let i = choose|i: int|
                    0 <= i < n && text::same_letters(
                        (#[trigger] projects[i]).name,
                        numbered(base, m),
                    );
                assert(0 <= i < n - 1 && text::same_letters(projects[i].name, numbered(base, m)));
            }
            lemma_taken_few(projects, base, wanted, n - 1);
        }
    }
}

spec fn tried(n: nat) -> Set<nat> {
    Set::new(|m: nat| 2 <= m < n)
}

proof fn lemma_tried(n: nat)
    requires
        n >= 2,
    ensures
        tried(n).finite(),
        tried(n).len() == n - 2,
    decreases n,
{
    if n == 2 {
        assert(tried(n) =~= Set::empty());
    } else {
        lemma_tried((n - 1) as nat);
        assert(tried(n) =~= tried((n - 1) as nat).insert((n - 1) as nat));
    }
}

/// Some numbered name is not taken.
proof fn lemma_untaken(cfg: ConfigView, base: Seq<char>, n: nat)
    requires
        n >= 2,
        forall|m: nat| 2 <= m < n ==> !is_free(cfg, #[trigger] numbered(base, m)),
    ensures
        n <= cfg.projects.len() + 2,
{
    lemma_tried(n);
    assert forall|m: nat| #[trigger] tried(n).contains(m) implies is_taken(
        cfg.projects,
        base,
        m,
        cfg.projects.len() as int,
    ) by {
        assert(!is_free(cfg, numbered(base, m)));
        let i = choose|i: int|
            0 <= i < cfg.projects.len() && !(!text::same_letters(
                (#[trigger] cfg.projects[i]).name,
                numbered(base, m),
            ) || paths::same_place(cfg.projects[i].library_root, cfg.library_root));
        assert(text::same_letters(cfg.projects[i].name, numbered(base, m)));
    }
    lemma_taken_few(cfg.projects, base, tried(n), cfg.projects.len() as int);
}

proof fn lemma_free_from(cfg: ConfigView, base: Seq<char>, n: nat) -> (k: nat)
    requires
        n >= 2,
        forall|m: nat| 2 <= m < n ==> !is_free(cfg, #[trigger] numbered(base, m)),
    ensures
        k >= 2,
        is_free(cfg, numbered(base, k)),
        forall|m: nat| 2 <= m < k ==> !is_free(cfg, #[trigger] numbered(base, m)),
    decreases cfg.projects.len() + 3 - n,
{
    lemma_untaken(cfg, base, n);
    if is_free(cfg, numbered(base, n)) {
        n
    } else {
        lemma_free_from(cfg, base, n + 1)
    }
}

/// A name that is offered is taken by no project elsewhere. It is the one that
/// was suggested, or that one with the smallest number behind it that will do.
pub proof fn lemma_unique_name(cfg: ConfigView, base: Seq<char>, i: int) -> (n: nat)
    ensures
        0 <= i < cfg.projects.len() && !paths::same_place(
            cfg.projects[i].library_root,
            cfg.library_root,
        ) ==> !text::same_letters(cfg.projects[i].name, unique_name(cfg, base)),
        unique_name(cfg, base) == base || n >= 2 && unique_name(cfg, base) == base + " "@
            + text::decimal(n),
        (forall|j: int|
            0 <= j < cfg.projects.len() ==> !text::same_letters(
                (#[trigger] cfg.projects[j]).name,
                base,
            )) ==> unique_name(cfg, base) == base,
{
    if is_free(cfg, base) {
        0
    } else {
        let k = lemma_free_from(cfg, base, 2);
        lemma_least_free(cfg, base, k);
        assert(is_free(cfg, unique_name(cfg, base)));
        k
    }
}

impl Config {
    /// Where the first project called `name` stands.
    fn position(&self, name: &str) -> (r: Option<usize>)
        ensures
            match r {
                Some(i) => named(self@.projects, name@) == Some(i as int) && i
                    < self.projects@.len(),
                None => named(self@.projects, name@) is None,
            },
    {
        let mut i: usize = 0;
        while i < self.projects.len()
            invariant
                i <= self.projects@.len(),
                forall|j: int|
                    0 <= j < i ==> !text::same_letters((#[trigger] self@.projects[j]).name, name@),
            decreases self.projects.len() - i,
        {
            if eq_ignore_ascii_case(self.projects[i].name.as_str(), name) {
                proof {
                    lemma_named_at(self@.projects, name@, i as int, self@.projects.len() as int);
                }
                return Some(i);
            }
            i += 1;
        }
        proof {
            lemma_named_upto(self@.projects, name@, self@.projects.len() as int);
        }
        None
    }

    /// Saves the current location under `name`, replacing any project already
    /// using it. Returns the index it landed at.
    ///
    /// Insertion order is preserved rather than sorted: the user's own ordering
    /// of their projects is more useful than an alphabetical one.
    pub fn remember_project(&mut self, name: &str) -> (at: usize)
        ensures
            final(self)@ == remembered(old(self)@, name@),
            at == remembered_at(old(self)@, name@),
    {
        let ghost cfg = self@;
        let name = trimmed(name);
        let at = self.position(name.as_str());
        let project = Project {
            name,
            library_root: self.library_root.clone(),
            download_dir: Some(self.download_dir.clone()),
        };
        match at {
            Some(i) => {
                self.projects.set(i, project);
                assert(self@.projects =~= cfg.projects.update(i as int, project@));
                i
            },
            None => {
                let n: usize = self.projects.len();
                self.projects.push(project);
                assert(self@.projects =~= cfg.projects.push(project@));
                n
            },
        }
    }

    fn free(&self, name: &str) -> (r: bool)
        ensures
            r == is_free(self@, name@),
    {
        let mut i: usize = 0;
        while i < self.projects.len()
            invariant
                i <= self.projects@.len(),
                forall|j: int|
                    0 <= j < i ==> !text::same_letters((#[trigger] self@.projects[j]).name, name@)
                        || paths::same_place(self@.projects[j].library_root, self@.library_root),
            decreases self.projects.len() - i,
        {
            if eq_ignore_ascii_case(self.projects[i].name.as_str(), name) && !same_path(
                self.projects[i].library_root.as_str(),
                self.library_root.as_str(),
            ) {
                assert(text::same_letters(self@.projects[i as int].name, name@));
                return false;
            }
            i += 1;
        }
        true
    }

    /// `base`, or `base 2`, `base 3`… — whatever is not already taken by a
    /// project pointing somewhere else. Two different folders both called `lib`
    /// must not overwrite each other's bookmark.
    pub fn unique_project_name(&self, base: &str) -> (r: String)
        ensures
            r@ == unique_name(self@, base@),
            is_free(self@, r@),
            is_free(self@, base@) ==> r@ == base@,
            !is_free(self@, base@) ==> exists|n: nat|
                n >= 2 && r@ == #[trigger] numbered(base@, n) && forall|m: nat|
                    2 <= m < n ==> !is_free(self@, #[trigger] numbered(base@, m)),
    {
        if self.free(base) {
            return base.to_string();
        }
        let mut n: u128 = 2;
        let total: u128 = self.projects.len() as u128;
        loop
            invariant
                2 <= n <= total + 2,
                total == self@.projects.len(),
                total <= usize::MAX,
                !is_free(self@, base@),
                forall|m: nat| 2 <= m < n ==> !is_free(self@, #[trigger] numbered(base@, m)),
            decreases total + 3 - n,
        {
            let mut name = base.to_string();
            let digits = number(n);
            name.append(" ");
            name.append(digits.as_str());
            assert(name@ == numbered(base@, n as nat));
            if self.free(name.as_str()) {
                proof {
                    lemma_least_free(self@, base@, n as nat);
                }
                return name;
            }
            n = n + 1;
            proof {
                assert forall|m: nat| 2 <= m < n implies !is_free(
                    self@,
                    #[trigger] numbered(base@, m),
                ) by {
                    if m == n - 1 {
                        assert(numbered(base@, m) == name@);
                    }
                }
                lemma_untaken(self@, base@, n as nat);
            }
        }
    }

    pub fn find_project(&self, name: &str) -> (r: Option<&Project>)
        ensures
            match r {
                Some(p) => named(self@.projects, text::trim(name@)) is Some && p@
                    == self@.projects[named(self@.projects, text::trim(name@)).unwrap()],
                None => named(self@.projects, text::trim(name@)) is None,
            },
    {
        let name = trimmed(name);
        match self.position(name.as_str()) {
            Some(i) => Some(&self.projects[i]),
            None => None,
        }
    }

    /// The chosen locations that are not present on disk, given which of the two
    /// are directories.
    ///
    /// Only [`Field::ASKED`] is checked. The folders inside the library are
    /// created along with the root, and the importer creates any that are
    /// missing later, so prompting for them individually asks the same question
    /// five times over.
    pub fn missing_dirs(&self, root_exists: bool, download_exists: bool) -> (r: Vec<Field>)
        ensures
            r@ == missing(root_exists, download_exists),
    {
        let mut out: Vec<Field> = Vec::new();
        if !root_exists {
            out.push(Field::ASKED[0]);
        }
        if !download_exists {
            out.push(Field::ASKED[1]);
        }
        assert(out@ =~= missing(root_exists, download_exists));
        out
    }

    /// The library's own folders, in the order they would be created.
    pub fn library_dirs(&self) -> (r: Vec<String>)
        ensures
            text::views(r@) == folders(self@),
    {
        let mut out: Vec<String> = Vec::new();
        out.push(self.library_root.clone());
        out.push(self.symbol_dir.clone());
        out.push(self.footprint_dir.clone());
        out.push(self.model_dir.clone());
        out.push(self.temp_dir.clone());
        out.push(self.archive_dir.clone());
        assert(text::views(out@) =~= folders(self@));
        out
    }
}

/// Which of the two chosen locations are missing.
pub open spec fn missing(root_exists: bool, download_exists: bool) -> Seq<Field> {
    let root = if root_exists {
        Seq::empty()
    } else {
        seq![Field::LibraryRoot]
    };
    if download_exists {
        root
    } else {
        root.push(Field::DownloadDir)
    }
}

/// The folders a library is made of.
pub open spec fn folders(cfg: ConfigView) -> Seq<Seq<char>> {
    seq![
        cfg.library_root,
        cfg.symbol_dir,
        cfg.footprint_dir,
        cfg.model_dir,
        cfg.temp_dir,
        cfg.archive_dir,
    ]
}

// --------------------------------------------------------------- resolution

/// `~` and `~/…` stand for the home directory.
pub open spec fn is_tilde(path: Seq<char>) -> bool {
    path == "~"@ || text::starts_with(path, "~/"@)
}

/// `path` with a leading `~` replaced by `home`.
pub open spec fn expanded(path: Seq<char>, home: Seq<char>) -> Seq<char> {
    if path == "~"@ {
        home
    } else if text::starts_with(path, "~/"@) {
        paths::below(home, path.skip(2))
    } else {
        path
    }
}

/// `path` made absolute: `~` against `home`, anything relative against `base`.
pub open spec fn resolved(path: Seq<char>, base: Seq<char>, home: Seq<char>) -> Seq<char> {
    let whole = expanded(path, home);
    if paths::is_absolute(whole) {
        whole
    } else {
        paths::below(base, whole)
    }
}

pub open spec fn resolved_project(p: ProjectView, base: Seq<char>, home: Seq<char>) -> ProjectView {
    ProjectView {
        name: p.name,
        library_root: resolved(p.library_root, base, home),
        download_dir: match p.download_dir {
            Some(dir) => Some(resolved(dir, base, home)),
            None => None,
        },
    }
}

/// Every path in `cfg` made absolute. An empty merged library stays off.
pub open spec fn resolved_all(cfg: ConfigView, base: Seq<char>, home: Seq<char>) -> ConfigView {
    ConfigView {
        library_root: resolved(cfg.library_root, base, home),
        download_dir: resolved(cfg.download_dir, base, home),
        symbol_dir: resolved(cfg.symbol_dir, base, home),
        footprint_dir: resolved(cfg.footprint_dir, base, home),
        model_dir: resolved(cfg.model_dir, base, home),
        temp_dir: resolved(cfg.temp_dir, base, home),
        archive_dir: resolved(cfg.archive_dir, base, home),
        merged_symbol_lib: match cfg.merged_symbol_lib {
            Some(path) => if path.len() == 0 || resolved(path, base, home).len() == 0 {
                None
            } else {
                Some(resolved(path, base, home))
            },
            None => None,
        },
        manifest_path: resolved(cfg.manifest_path, base, home),
        projects: cfg.projects.map_values(|p: ProjectView| resolved_project(p, base, home)),
        ..cfg
    }
}

/// The directory relative paths are read against: that of the config file.
pub open spec fn anchor_of(config_path: Seq<char>, home: Seq<char>) -> Seq<char> {
    match paths::parent_of(config_path) {
        Some(dir) => dir,
        None => home,
    }
}

/// `cfg` as it stands once loaded from `config_path`.
pub open spec fn normalized(cfg: ConfigView, config_path: Seq<char>, home: Seq<char>) -> ConfigView {
    contained(resolved_all(cfg, anchor_of(config_path, home), home))
}

/// The home directory, given what the system names.
pub open spec fn home_of(found: Option<Seq<char>>) -> Seq<char> {
    match found {
        Some(dir) => dir,
        None => "/"@,
    }
}

/// The configuration a first run starts from.
pub open spec fn defaults(home: Seq<char>) -> ConfigView {
    let root = paths::below(paths::below(home, "KiCad"@), "lib"@);
    ConfigView {
        library_root: root,
        download_dir: paths::below(paths::below(home, "Downloads"@), "KiCad"@),
        symbol_dir: paths::below(root, "symbols"@),
        footprint_dir: paths::below(root, "footprints.pretty"@),
        model_dir: paths::below(root, "3dmodels"@),
        temp_dir: paths::below(root, "cache"@),
        archive_dir: paths::below(root, "archive"@),
        merged_symbol_lib: Some(paths::below(root, "murky-informis.kicad_sym"@)),
        manifest_path: paths::below(root, "library.json"@),
        per_part_footprint_dirs: true,
        backup_before_overwrite: true,
        delete_zip_after_import: false,
        projects: Seq::empty(),
    }
}

/// Where the configuration is kept, given what the system names.
pub open spec fn config_path_of(found: Option<Seq<char>>, home: Seq<char>) -> Seq<char> {
    let dir = match found {
        Some(dir) => dir,
        None => paths::below(home, ".config"@),
    };
    paths::below(paths::below(dir, "KiLib"@), "config.toml"@)
}

/// The first run already keeps every library file under the root.
pub proof fn lemma_defaults_contained(home: Seq<char>)
    ensures
        forall|f: Field| #[trigger] inside().contains(f) ==> !is_stray(defaults(home), f),
{
    let root = defaults(home).library_root;
    assert forall|f: Field| #[trigger] inside().contains(f) implies !is_stray(
        defaults(home),
        f,
    ) by {
        lemma_leaf_is_name(f);
        paths::lemma_below_name(root, f.leaf());
    }
}

/// A loaded configuration keeps every library file under the root.
pub proof fn lemma_normalized_contained(cfg: ConfigView, config_path: Seq<char>, home: Seq<char>)
    ensures
        forall|f: Field| #[trigger]
            inside().contains(f) ==> !is_stray(normalized(cfg, config_path, home), f),
        normalized(cfg, config_path, home).download_dir == resolved(
            cfg.download_dir,
            anchor_of(config_path, home),
            home,
        ),
{
    lemma_contained(resolved_all(cfg, anchor_of(config_path, home), home));
}

/// Against an absolute base and home, resolving leaves nothing relative.
pub proof fn lemma_resolved_absolute(path: Seq<char>, base: Seq<char>, home: Seq<char>)
    requires
        paths::is_absolute(base),
        paths::is_absolute(home),
    ensures
        paths::is_absolute(resolved(path, base, home)),
{
}

/// Relative paths have a place to be read against that stays the same: the
/// config file is in an absolute directory, or in none that it names.
pub open spec fn is_anchored(config_path: Seq<char>, home: Seq<char>) -> bool {
    let base = anchor_of(config_path, home);
    paths::is_absolute(base) || base.len() == 0 && paths::is_absolute(home)
}

/// Resolving leaves the path as it is.
spec fn is_settled(path: Seq<char>, base: Seq<char>) -> bool {
    paths::is_absolute(path) || base.len() == 0 && !is_tilde(path)
}

proof fn lemma_settled(path: Seq<char>, base: Seq<char>, home: Seq<char>)
    requires
        paths::is_absolute(base) || base.len() == 0 && paths::is_absolute(home),
    ensures
        is_settled(resolved(path, base, home), base),
        is_settled(path, base) ==> resolved(path, base, home) == path,
{
    reveal_strlit("~");
    reveal_strlit("~/");
    if paths::is_absolute(path) {
        assert(path != "~"@);
        if text::starts_with(path, "~/"@) {
            assert(path.take(2)[0] == path[0]);
        }
    }
}

proof fn lemma_settled_below(root: Seq<char>, name: Seq<char>, base: Seq<char>)
    requires
        is_settled(root, base),
        root.len() > 0,
        paths::is_name(name),
    ensures
        is_settled(paths::below(root, name), base),
{
    reveal_strlit("~");
    reveal_strlit("~/");
    paths::lemma_name(name);
    let whole = paths::below(root, name);
    assert(whole[0] == root[0]);
    if is_tilde(whole) {
        if whole != "~"@ {
            assert(whole.take(2)[0] == whole[0]);
        }
        if root.len() >= 2 {
            assert(whole.take(2)[1] == root[1]);
            assert(root.take(2) =~= "~/"@);
        } else if root[0] != '/' {
            assert(root =~= "~"@);
        }
    }
}

/// Every path of `cfg` is settled.
spec fn all_settled(cfg: ConfigView, base: Seq<char>) -> bool {
    &&& is_settled(cfg.library_root, base)
    &&& is_settled(cfg.download_dir, base)
    &&& forall|i: int|
        0 <= i < 7 ==> ((#[trigger] inside()[i]).get(cfg) matches Some(path) ==> is_settled(
            path,
            base,
        ))
    &&& cfg.merged_symbol_lib matches Some(path) ==> path.len() > 0
    &&& forall|i: int|
        0 <= i < cfg.projects.len() ==> is_settled(
            (#[trigger] cfg.projects[i]).library_root,
            base,
        ) && (cfg.projects[i].download_dir matches Some(dir) ==> is_settled(dir, base))
}

proof fn lemma_resolved_settled(cfg: ConfigView, base: Seq<char>, home: Seq<char>)
    requires
        paths::is_absolute(base) || base.len() == 0 && paths::is_absolute(home),
    ensures
        all_settled(resolved_all(cfg, base, home), base),
{
    let r = resolved_all(cfg, base, home);
    lemma_settled(cfg.library_root, base, home);
    lemma_settled(cfg.download_dir, base, home);
    lemma_settled(cfg.symbol_dir, base, home);
    lemma_settled(cfg.footprint_dir, base, home);
    lemma_settled(cfg.model_dir, base, home);
    lemma_settled(cfg.temp_dir, base, home);
    lemma_settled(cfg.archive_dir, base, home);
    lemma_settled(cfg.manifest_path, base, home);
    if let Some(path) = cfg.merged_symbol_lib {
        lemma_settled(path, base, home);
    }
    assert forall|i: int| 0 <= i < r.projects.len() implies is_settled(
        (#[trigger] r.projects[i]).library_root,
        base,
    ) && (r.projects[i].download_dir matches Some(dir) ==> is_settled(dir, base)) by {
        let p = cfg.projects[i];
        assert(r.projects[i] == resolved_project(p, base, home));
        lemma_settled(p.library_root, base, home);
        if let Some(dir) = p.download_dir {
            lemma_settled(dir, base, home);
        }
    }
}

proof fn lemma_contained_settled(cfg: ConfigView, base: Seq<char>)
    requires
        all_settled(cfg, base),
    ensures
        all_settled(contained(cfg), base),
{
    lemma_contained(cfg);
    let root = cfg.library_root;
    assert forall|i: int| 0 <= i < 7 implies ((#[trigger] inside()[i]).get(contained(cfg)) matches
        Some(path) ==> is_settled(path, base) && path.len() > 0 || !is_stray(cfg, inside()[i])
            && inside()[i].get(cfg) == Some(path)) by {
        let f = inside()[i];
        assert(inside().contains(f));
        if is_stray(cfg, f) {
            let path = f.get(cfg).unwrap();
            if root.len() == 0 {
                assert(root =~= Seq::<char>::empty());
                paths::lemma_empty();
                assert(paths::components(path).take(0) =~= paths::components(root));
            }
            lemma_kept_name(f, path);
            lemma_settled_below(root, kept_name(f, path), base);
            paths::lemma_below_name(root, kept_name(f, path));
            assert(!paths::within(path, root));
        }
    }
    assert(inside()[5] == Field::MergedSymbolLib);
}

proof fn lemma_settled_all(cfg: ConfigView, base: Seq<char>, home: Seq<char>)
    requires
        paths::is_absolute(base) || base.len() == 0 && paths::is_absolute(home),
        all_settled(cfg, base),
    ensures
        resolved_all(cfg, base, home) == cfg,
{
    let r = resolved_all(cfg, base, home);
    assert forall|i: int| 0 <= i < 7 implies ((#[trigger] inside()[i]).get(cfg) matches Some(path)
        ==> resolved(path, base, home) == path) by {
        if let Some(path) = inside()[i].get(cfg) {
            lemma_settled(path, base, home);
        }
    }
    let list = inside();
    assert(list[0] == Field::SymbolDir && list[1] == Field::FootprintDir && list[2]
        == Field::ModelDir && list[3] == Field::TempDir && list[4] == Field::ArchiveDir && list[5]
        == Field::MergedSymbolLib && list[6] == Field::ManifestPath);
    lemma_settled(cfg.library_root, base, home);
    lemma_settled(cfg.download_dir, base, home);
    assert forall|i: int| 0 <= i < cfg.projects.len() implies r.projects[i] == (
    #[trigger] cfg.projects[i]) by {
        let p = cfg.projects[i];
        assert(r.projects[i] == resolved_project(p, base, home));
        lemma_settled(p.library_root, base, home);
        if let Some(dir) = p.download_dir {
            lemma_settled(dir, base, home);
        }
    }
    assert(r.projects =~= cfg.projects);
}

/// Normalizing a configuration once is enough: a second time changes nothing,
/// and finds nothing outside the library root.
pub proof fn lemma_normalized_once(cfg: ConfigView, config_path: Seq<char>, home: Seq<char>)
    requires
        is_anchored(config_path, home),
    ensures
        normalized(normalized(cfg, config_path, home), config_path, home) == normalized(
            cfg,
            config_path,
            home,
        ),
        strays(
            resolved_all(
                normalized(cfg, config_path, home),
                anchor_of(config_path, home),
                home,
            ),
        ) == Seq::<Field>::empty(),
{
    let base = anchor_of(config_path, home);
    let r = resolved_all(cfg, base, home);
    lemma_resolved_settled(cfg, base, home);
    lemma_contained_settled(r, base);
    lemma_settled_all(contained(r), base, home);
    lemma_contained_once(r);
}

/// What the file holds of `cfg`. Without a merged library that is an empty
/// path, so that reading it back does not fall back to the usual one.
pub open spec fn filed(cfg: ConfigView) -> ConfigView {
    ConfigView {
        merged_symbol_lib: Some(
            match cfg.merged_symbol_lib {
                Some(path) => path,
                None => Seq::empty(),
            },
        ),
        ..cfg
    }
}

/// A normalized configuration that is saved and loaded again comes back in every
/// field, a merged library that is off included, and nothing has to be moved.
pub proof fn lemma_saved_loads(
    cfg: ConfigView,
    reading: Reading,
    config_path: Seq<char>,
    home: Seq<char>,
)
    requires
        is_anchored(config_path, home),
        reading matches Reading::Parsed(read) && read@ == filed(
            normalized(cfg, config_path, home),
        ),
    ensures
        normalized(read_config(reading, home), config_path, home) == normalized(
            cfg,
            config_path,
            home,
        ),
        strays(
            resolved_all(read_config(reading, home), anchor_of(config_path, home), home),
        ) == Seq::<Field>::empty(),
{
    let n = normalized(cfg, config_path, home);
    let base = anchor_of(config_path, home);
    lemma_normalized_once(cfg, config_path, home);
    assert(resolved_all(filed(n), base, home) =~= resolved_all(n, base, home));
}

/// The home directory, given what the system names.
pub fn home_from(found: Option<String>) -> (r: String)
    ensures
        r@ == home_of(text::opt_view(found)),
{
    match found {
        Some(dir) => dir,
        None => "/".to_string(),
    }
}

pub fn home_dir() -> (r: String)
    ensures
        exists|found: Option<Seq<char>>| r@ == #[trigger] home_of(found),
{
    let found = found_home();
    let ghost seen = text::opt_view(found);
    let r = home_from(found);
    assert(r@ == home_of(seen));
    r
}

/// Where the configuration is kept, given what the system names.
pub fn config_path_from(found: Option<String>, home: &str) -> (r: String)
    ensures
        r@ == config_path_of(text::opt_view(found), home@),
{
    let dir = match found {
        Some(dir) => dir,
        None => join_path(home, ".config"),
    };
    let folder = join_path(dir.as_str(), "KiLib");
    join_path(folder.as_str(), "config.toml")
}

/// Default config location: `$XDG_CONFIG_HOME/KiLib/config.toml`.
pub fn default_config_path() -> (r: String)
    ensures
        exists|found: Option<Seq<char>>, home: Seq<char>|
            r@ == #[trigger] config_path_of(found, home),
{
    let found = found_config_dir();
    let home = home_dir();
    let ghost seen = text::opt_view(found);
    let r = config_path_from(found, home.as_str());
    assert(r@ == config_path_of(seen, home@));
    r
}

/// `path` with a leading `~` replaced by `home`.
pub fn expand_tilde_in(path: &str, home: &str) -> (r: String)
    ensures
        r@ == expanded(path@, home@),
{
    if same(path, "~") {
        return home.to_string();
    }
    if text::has_prefix(path, "~/") {
        proof {
            reveal_strlit("~/");
        }
        let chars = to_chars(path);
        let n: usize = chars.len();
        let rest = slice(&chars, 2, n);
        assert(rest@ =~= path@.skip(2));
        return join_path(home, rest.as_str());
    }
    path.to_string()
}

pub fn expand_tilde(path: &str) -> (r: String)
    ensures
        exists|home: Seq<char>| r@ == #[trigger] expanded(path@, home),
        !is_tilde(path@) ==> r@ == path@,
{
    let home = home_dir();
    expand_tilde_in(path, home.as_str())
}

/// `path` made absolute: `~` against `home`, anything relative against `base`.
pub fn resolve_in(path: &str, base: &str, home: &str) -> (r: String)
    ensures
        r@ == resolved(path@, base@, home@),
{
    let whole = expand_tilde_in(path, home);
    if absolute(whole.as_str()) {
        whole
    } else {
        join_path(base, whole.as_str())
    }
}

/// `~/foo` and `~` expand against the home directory; relative paths are
/// anchored to `base` (the config file's directory) rather than the cwd.
pub fn resolve(path: &str, base: &str) -> (r: String)
    ensures
        exists|home: Seq<char>| r@ == #[trigger] resolved(path@, base@, home),
        !is_tilde(path@) ==> r@ == paths::below(base@, path@),
{
    let home = home_dir();
    resolve_in(path, base, home.as_str())
}

impl Config {
    /// The configuration a first run starts from.
    pub fn default_in(home: &str) -> (r: Config)
        ensures
            r@ == defaults(home@),
    {
        let kicad = join_path(home, "KiCad");
        let root = join_path(kicad.as_str(), "lib");
        let downloads = join_path(home, "Downloads");
        let none: Vec<Project> = Vec::new();
        assert(project_views(none@) =~= Seq::<ProjectView>::empty());
        Config {
            download_dir: join_path(downloads.as_str(), "KiCad"),
            symbol_dir: join_path(root.as_str(), "symbols"),
            footprint_dir: join_path(root.as_str(), "footprints.pretty"),
            model_dir: join_path(root.as_str(), "3dmodels"),
            temp_dir: join_path(root.as_str(), "cache"),
            archive_dir: join_path(root.as_str(), "archive"),
            merged_symbol_lib: Some(join_path(root.as_str(), "murky-informis.kicad_sym")),
            manifest_path: join_path(root.as_str(), "library.json"),
            per_part_footprint_dirs: true,
            backup_before_overwrite: true,
            delete_zip_after_import: false,
            projects: none,
            library_root: root,
        }
    }

    /// Expands `~` against `home` and resolves any remaining relative path so
    /// that later filesystem calls never depend on the process working
    /// directory. Returns the fields that were outside the library root.
    pub fn normalize_in(&mut self, config_path: &str, home: &str) -> (moved: Vec<Field>)
        ensures
            final(self)@ == normalized(old(self)@, config_path@, home@),
            moved@ == strays(resolved_all(old(self)@, anchor_of(config_path@, home@), home@)),
    {
        let ghost cfg = self@;
        let dir = match parent(config_path) {
            Some(dir) => dir,
            None => home.to_string(),
        };
        let base = dir.as_str();
        self.library_root = resolve_in(self.library_root.as_str(), base, home);
        self.download_dir = resolve_in(self.download_dir.as_str(), base, home);
        self.symbol_dir = resolve_in(self.symbol_dir.as_str(), base, home);
        self.footprint_dir = resolve_in(self.footprint_dir.as_str(), base, home);
        self.model_dir = resolve_in(self.model_dir.as_str(), base, home);
        self.temp_dir = resolve_in(self.temp_dir.as_str(), base, home);
        self.archive_dir = resolve_in(self.archive_dir.as_str(), base, home);
        self.manifest_path = resolve_in(self.manifest_path.as_str(), base, home);
        if let Some(path) = clone_opt(&self.merged_symbol_lib) {
            if path.as_str().is_empty() {
                self.merged_symbol_lib = None;
            } else {
                let whole = resolve_in(path.as_str(), base, home);
                Field::MergedSymbolLib.set_path(self, whole);
            }
        }
        self.projects = resolve_projects(&self.projects, base, home);
        assert(self@ =~= resolved_all(cfg, dir@, home@));
        // A hand-edited file can put a library folder anywhere; the root is the
        // authority, so bring the strays in and say which ones moved.
        self.contain()
    }

    /// Expands `~` and resolves any remaining relative path so that later
    /// filesystem calls never depend on the process working directory.
    pub fn normalize(&mut self, config_path: &str) -> (moved: Vec<Field>)
        ensures
            exists|home: Seq<char>|
                final(self)@ == #[trigger] normalized(old(self)@, config_path@, home) && moved@
                    == strays(resolved_all(old(self)@, anchor_of(config_path@, home), home)),
    {
        let home = home_dir();
        self.normalize_in(config_path, home.as_str())
    }
}

/// What reading the configuration file came to.
pub enum Reading {
    Parsed(Config),
    /// It is there, but not valid.
    Broken,
    Missing,
}

/// A configuration that has been read, and what is to be said and done about it.
pub struct Loaded {
    pub config: Config,
    /// The fields that were outside the library root.
    pub moved: Vec<Field>,
    /// It is written out, so that there is something to edit.
    pub write: bool,
}

impl Config {
    /// What the file holds of the configuration.
    pub fn for_file(&self) -> (r: Config)
        ensures
            r@ == filed(self@),
    {
        let mut r = self.clone();
        let merged = match clone_opt(&self.merged_symbol_lib) {
            Some(path) => path,
            None => String::new(),
        };
        r.merged_symbol_lib = Some(merged);
        assert(r@ =~= filed(self@));
        r
    }
}

/// What a reading starts from: the defaults, where there is nothing valid.
pub open spec fn read_config(reading: Reading, home: Seq<char>) -> ConfigView {
    match reading {
        Reading::Parsed(cfg) => cfg@,
        _ => defaults(home),
    }
}

impl Config {
    /// Takes a reading over, falling back to defaults when there is no valid
    /// file. A missing file is to be written out.
    pub fn load_in(reading: Reading, config_path: &str, home: &str) -> (r: Loaded)
        ensures
            r.config@ == normalized(read_config(reading, home@), config_path@, home@),
            r.moved@ == strays(
                resolved_all(
                    read_config(reading, home@),
                    anchor_of(config_path@, home@),
                    home@,
                ),
            ),
            r.write == (reading is Missing),
    {
        let write = match &reading {
            Reading::Missing => true,
            _ => false,
        };
        let mut config = match reading {
            Reading::Parsed(cfg) => cfg,
            _ => Config::default_in(home),
        };
        let moved = config.normalize_in(config_path, home);
        Loaded { config, moved, write }
    }

    /// Takes a reading over, falling back to defaults when there is no valid
    /// file. A missing file is to be written out.
    pub fn load(reading: Reading, config_path: &str) -> (r: Loaded)
        ensures
            exists|home: Seq<char>|
                r.config@ == #[trigger] normalized(read_config(reading, home), config_path@, home)
                    && r.moved@ == strays(
                    resolved_all(
                        read_config(reading, home),
                        anchor_of(config_path@, home),
                        home,
                    ),
                ),
            r.write == (reading is Missing),
    {
        let home = home_dir();
        Config::load_in(reading, config_path, home.as_str())
    }
}

impl Default for Config {
    fn default() -> (r: Config)
        ensures
            exists|home: Seq<char>| r@ == #[trigger] defaults(home),
    {
        let home = home_dir();
        Config::default_in(home.as_str())
    }
}

fn resolve_projects(list: &Vec<Project>, base: &str, home: &str) -> (r: Vec<Project>)
    ensures
        project_views(r@) == project_views(list@).map_values(
            |p: ProjectView| resolved_project(p, base@, home@),
        ),
{
    let mut out: Vec<Project> = Vec::new();
    let mut i: usize = 0;
    while i < list.len()
        invariant
            i <= list@.len(),
            out@.len() == i,
            forall|j: int|
                0 <= j < i ==> (#[trigger] out@[j])@ == resolved_project(list@[j]@, base@, home@),
        decreases list.len() - i,
    {
        let download_dir = match &list[i].download_dir {
            Some(dir) => Some(resolve_in(dir.as_str(), base, home)),
            None => None,
        };
        out.push(
            Project {
                name: list[i].name.clone(),
                library_root: resolve_in(list[i].library_root.as_str(), base, home),
                download_dir,
            },
        );
        i += 1;
    }
    assert(project_views(out@) =~= project_views(list@).map_values(
        |p: ProjectView| resolved_project(p, base@, home@),
    ));
    out
}

/// A folder name that says nothing about the project it holds.
pub open spec fn is_generic(name: Seq<char>) -> bool {
    let n = text::lower(name);
    n == "lib"@ || n == "libs"@ || n == "library"@ || n == "libraries"@ || n == "kicad"@ || n
        == "kicad-lib"@
}

/// A name to offer for the library at `root`.
pub open spec fn suggested_name(root: Seq<char>) -> Seq<char> {
    match paths::leaf_of(root) {
        Some(name) => if is_generic(name) {
            match paths::parent_of(root) {
                Some(up) => match paths::leaf_of(up) {
                    Some(outer) => outer,
                    None => name,
                },
                None => name,
            }
        } else {
            name
        },
        None => "library"@,
    }
}

fn generic(name: &str) -> (r: bool)
    ensures
        r == is_generic(name@),
{
    let n = to_lowercase(name);
    same(n.as_str(), "lib") || same(n.as_str(), "libs") || same(n.as_str(), "library") || same(
        n.as_str(),
        "libraries",
    ) || same(n.as_str(), "kicad") || same(n.as_str(), "kicad-lib")
}

/// A name to offer when saving `root` as a project.
///
/// The leaf folder is usually the right answer, except when it is a generic
/// container — `~/pcb/synth/lib` is the synth project, not the "lib" project.
pub fn project_name_for(root: &str) -> (r: String)
    ensures
        r@ == suggested_name(root@),
{
    match file_name(root) {
        Some(name) => {
            if generic(name.as_str()) {
                if let Some(up) = parent(root) {
                    if let Some(outer) = file_name(up.as_str()) {
                        return outer;
                    }
                }
            }
            name
        },
        None => "library".to_string(),
    }
}

} // verus!
