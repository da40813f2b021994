//! Application state and its transitions.
//!
//! [`App::handle`] takes one event and says what is to be done outside: files
//! to scan, folders to create, a job to prepare. What came of it is handed back
//! through [`App::reply`], and the application goes on from there. Nothing here
//! touches the disk or the terminal.

pub mod chores;
pub mod deeds;
pub mod filed;
pub mod keys;
pub mod laws;
pub mod panes;
pub mod projects;
pub mod prompts;
pub mod quiet;
pub mod settings;
pub mod steps;

use vstd::prelude::*;
use vstd::string::*;

use crate::config;
use crate::config::{Config, Field};
use crate::importer;
use crate::importer::{ImportSummary, Pending};
use crate::manifest;
use crate::manifest::{Part, Totals};
use crate::online::easyeda;
use crate::online::easyeda::Hit;
use crate::picker;
use crate::picker::{Picker, Seen, Target};
use crate::scan;
use crate::scan::{ScanResult, ZipEntry};
use crate::text;

verus! {

// -------------------------------------------------------------------- state

#[derive(Clone, Copy, PartialEq, Eq, Debug, Structural)]
pub enum Screen {
    Main,
    Settings,
    Picker,
    Diagnostics,
    Validate,
    Search,
    Projects,
    Overwrite,
}

/// Which of the two main-screen lists the keyboard drives.
#[derive(Clone, Copy, PartialEq, Eq, Debug, Structural)]
pub enum Focus {
    Queue,
    Library,
}

/// How far an import has come: `part` of `whole`.
pub struct ImportState {
    pub name: String,
    pub part: u128,
    pub whole: u128,
}

/// One thing to import. A ZIP and a catalogue part differ only in how their
/// files are produced, so they queue and confirm identically.
pub enum Job {
    Zip(ZipEntry),
    Web(Hit),
}

/// An import run: one job or a whole queue of them, tracked the same way so
/// there is a single path through preparation, confirmation and installation.
pub struct Run {
    pub jobs: Vec<Job>,
    pub total: usize,
    pub done: usize,
    pub imported: usize,
    pub skipped: usize,
    pub failures: Vec<String>,
    /// Set by [A] on the overwrite prompt: stop asking for the rest of this run.
    pub overwrite_all: bool,
}

pub struct Settings {
    pub cursor: usize,
    /// `Some` while a row is being typed into.
    pub editing: Option<String>,
    /// Working copy; only written to disk on [S]ave.
    pub draft: Config,
    pub dirty: bool,
    /// What the last edit did beyond the row itself — currently the list of
    /// paths a Library Root change carried with it.
    pub note: String,
}

/// Saved library locations. Switching between them is what makes the settings
/// worth opening often, so it has its own screen rather than a settings row.
pub struct Projects {
    pub cursor: usize,
    /// `Some` while a name is being typed.
    pub naming: Option<Naming>,
    pub message: String,
}

pub struct Naming {
    pub buffer: String,
    /// The project being renamed, or `None` to save the current location as a
    /// new one.
    pub target: Option<usize>,
}

pub struct Validate {
    pub missing: Vec<Field>,
    pub index: usize,
}

/// Online component search: a query box above a result list.
pub struct Search {
    pub query: String,
    /// `true` while the query box has focus, `false` while browsing results.
    pub editing: bool,
    pub results: Vec<Hit>,
    pub cursor: usize,
    /// A search request is in flight.
    pub searching: bool,
    pub message: String,
}

pub struct App {
    pub config: Config,
    /// The configuration as the file is to hold it: without what the command
    /// line overrides for this run.
    pub stored: Config,
    pub config_path: String,
    pub screen: Screen,
    pub zips: Vec<ZipEntry>,
    /// The selected row of the queue.
    pub list: Option<usize>,
    pub last_scan: Option<String>,
    pub fs_errors: Vec<String>,
    /// Parts already in the library.
    pub library: Vec<Part>,
    /// The selected row of the library.
    pub library_list: Option<usize>,
    pub totals: Totals,
    pub focus: Focus,
    /// Incremental filter over both lists. Empty means "show all".
    pub filter: String,
    /// `true` while the filter is being typed.
    pub filtering: bool,
    /// Indices into `zips` / `library` that survive the filter.
    pub queue_view: Vec<usize>,
    pub library_view: Vec<usize>,
    pub status: String,
    pub import: Option<ImportState>,
    pub settings: Option<Settings>,
    pub picker: Option<Picker>,
    pub validate: Option<Validate>,
    pub search: Option<Search>,
    pub projects: Option<Projects>,
    /// The import run in progress, if any.
    pub run: Option<Run>,
    /// An unpacked import waiting for the user to confirm an overwrite.
    pub pending: Option<Pending>,
    /// The screen the overwrite prompt interrupted, and returns to.
    pub behind: Screen,
    pub cwd: String,
    pub exe: String,
    pub home: String,
    /// Diagnostics is scrollable: paths are shown in full there, so on a small
    /// terminal the content can exceed the viewport.
    pub diag_scroll: u16,
    /// Rendered line count, written when the page is drawn so that scrolling can
    /// be clamped.
    pub diag_lines: u16,
    pub diag_view: u16,
    /// When a change on disk asked for a rescan, in milliseconds.
    pub pending_rescan: Option<u64>,
    pub should_quit: bool,
    /// What is still to be done, in order.
    pub todo: Vec<Step>,
    /// The step that a reply is owed to.
    pub waiting: Option<Step>,
}

// -------------------------------------------------------------------- steps

/// What a save is for, and so what follows it.
pub enum Saving {
    /// The saved locations changed.
    Projects,
    /// The library moved; the status to show in the end.
    Move { status: String },
    /// The settings, to be handed back if the save fails.
    Settings { settings: Settings },
    /// A location was chosen during validation.
    Validation,
}

/// One thing to be done.
pub enum Step {
    // These ask outside and go on with the reply.
    Scan,
    Watch,
    Check { clear: bool },
    Save { saving: Saving },
    CreateOne { field: Field },
    CreateAll { left: Vec<Field>, made: Vec<Field> },
    Browse { start: String, target: Target },
    List { path: String },
    // These are handed out and report back as events.
    Job,
    Finish { pending: Pending },
    Discard { pending: Pending },
    Find { query: String },
    // These only change what is shown.
    Focus,
    Rescanned,
    Ready,
    Say { text: String },
    /// On the status line and on the search screen.
    Report { text: String },
}

/// What is to be done outside.
pub enum Effect {
    /// Scan the ZIP folder and the library folders.
    Scan { cfg: Config },
    /// Watch the ZIP folder, in place of what was watched before.
    Watch { dir: String },
    /// Say whether the two chosen locations are folders.
    Check { root: String, download: String },
    /// Write the configuration.
    Save { cfg: Config, path: String },
    /// Create the folders, in order, and stop at the first that fails.
    Create { paths: Vec<String> },
    /// List the nearest existing folder at or above `start`.
    Browse { start: String },
    /// List a folder.
    List { path: String },
    /// Unpack or download a job, as number `index` of `total`.
    Prepare { job: Job, cfg: Config, index: usize, total: usize },
    /// Place an unpacked import into the library.
    Finish { pending: Pending, cfg: Config },
    /// Remove the staged files of an import that was turned down.
    Discard { pending: Pending },
    /// Search the catalogue.
    Find { query: String, limit: usize },
}

// ------------------------------------------------------------------- events

#[derive(Clone, Copy, PartialEq, Eq, Debug, Structural)]
pub enum Key {
    Char(char),
    Enter,
    Esc,
    Backspace,
    Tab,
    BackTab,
    Up,
    Down,
    Left,
    Right,
    Home,
    End,
    PageUp,
    PageDown,
    Delete,
    F(u8),
    Other,
}

#[derive(Clone, Copy, PartialEq, Eq, Debug, Structural)]
pub struct KeyPress {
    pub key: Key,
    pub control: bool,
    /// Pressed, rather than released or repeated.
    pub press: bool,
}

/// Messages funnelled into the single event loop. Times are in milliseconds on
/// one clock.
pub enum Event {
    Key(KeyPress),
    /// The watcher saw something change under the download directory.
    FsChanged { now: u64 },
    /// A job has done `part` of `whole` of its own work.
    ImportProgress { index: usize, total: usize, part: usize, whole: usize, name: String },
    /// One job has been unpacked and knows what it would overwrite. Nothing has
    /// been written to the library yet.
    ImportPrepared(Result<Pending, String>),
    ImportDone(Result<ImportSummary, String>),
    /// An online catalogue search finished.
    SearchDone(Result<Vec<Hit>, String>),
    Tick { now: u64 },
}

/// What a scan found.
pub struct Found {
    pub zips: ScanResult,
    /// The parts the manifest records.
    pub recorded: Vec<Part>,
    /// The parts the library folders hold.
    pub present: Vec<Part>,
    /// When it was made.
    pub at: String,
}

/// What came of an effect.
pub enum Reply {
    Scanned(Found),
    Watching(Result<(), String>),
    Checked { root: bool, download: bool },
    Saved(Result<(), String>),
    /// The folder that could not be created, and why.
    Created(Result<(), (String, String)>),
    /// The folder that was opened, and what is in it.
    Opened { cwd: String, listing: Result<Vec<Seen>, String> },
    Listed(Result<Vec<Seen>, String>),
}

// -------------------------------------------------------------------- views

/// What an option holds, seen as its view.
pub open spec fn opt<T: View>(value: Option<T>) -> Option<T::V> {
    match value {
        Some(x) => Some(x@),
        None => None,
    }
}

/// What a list holds, seen as views.
pub open spec fn all<T: View>(list: Seq<T>) -> Seq<T::V> {
    list.map_values(|x: T| x@)
}

pub open spec fn ints(list: Seq<usize>) -> Seq<int> {
    list.map_values(|i: usize| i as int)
}

pub open spec fn opt_int(value: Option<usize>) -> Option<int> {
    match value {
        Some(i) => Some(i as int),
        None => None,
    }
}

#[verifier::ext_equal]
pub struct ImportView {
    pub name: Seq<char>,
    pub part: int,
    pub whole: int,
}

pub enum JobView {
    Zip(scan::ZipView),
    Web(easyeda::HitView),
}

#[verifier::ext_equal]
pub struct RunView {
    pub jobs: Seq<JobView>,
    pub total: int,
    pub done: int,
    pub imported: int,
    pub skipped: int,
    pub failures: Seq<Seq<char>>,
    pub overwrite_all: bool,
}

#[verifier::ext_equal]
pub struct SettingsView {
    pub cursor: int,
    pub editing: Option<Seq<char>>,
    pub draft: config::ConfigView,
    pub dirty: bool,
    pub note: Seq<char>,
}

#[verifier::ext_equal]
pub struct NamingView {
    pub buffer: Seq<char>,
    pub target: Option<int>,
}

#[verifier::ext_equal]
pub struct ProjectsView {
    pub cursor: int,
    pub naming: Option<NamingView>,
    pub message: Seq<char>,
}

#[verifier::ext_equal]
pub struct ValidateView {
    pub missing: Seq<Field>,
    pub index: int,
}

#[verifier::ext_equal]
pub struct SearchView {
    pub query: Seq<char>,
    pub editing: bool,
    pub results: Seq<easyeda::HitView>,
    pub cursor: int,
    pub searching: bool,
    pub message: Seq<char>,
}

#[verifier::ext_equal]
pub struct TotalsView {
    pub parts: int,
    pub symbols: int,
    pub footprints: int,
    pub models: int,
}

pub enum SavingView {
    Projects,
    Move { status: Seq<char> },
    Settings { settings: SettingsView },
    Validation,
}

pub enum StepView {
    Scan,
    Watch,
    Check { clear: bool },
    Save { saving: SavingView },
    CreateOne { field: Field },
    CreateAll { left: Seq<Field>, made: Seq<Field> },
    Browse { start: Seq<char>, target: Target },
    List { path: Seq<char> },
    Job,
    Finish { pending: importer::PendingView },
    Discard { pending: importer::PendingView },
    Find { query: Seq<char> },
    Focus,
    Rescanned,
    Ready,
    Say { text: Seq<char> },
    Report { text: Seq<char> },
}

pub enum EffectView {
    Scan { cfg: config::ConfigView },
    Watch { dir: Seq<char> },
    Check { root: Seq<char>, download: Seq<char> },
    Save { cfg: config::ConfigView, path: Seq<char> },
    Create { paths: Seq<Seq<char>> },
    Browse { start: Seq<char> },
    List { path: Seq<char> },
    Prepare { job: JobView, cfg: config::ConfigView, index: int, total: int },
    Finish { pending: importer::PendingView, cfg: config::ConfigView },
    Discard { pending: importer::PendingView },
    Find { query: Seq<char>, limit: int },
}

#[verifier::ext_equal]
pub struct FoundView {
    pub entries: Seq<scan::ZipView>,
    pub errors: Seq<Seq<char>>,
    pub recorded: Seq<manifest::PartView>,
    pub present: Seq<manifest::PartView>,
    pub at: Seq<char>,
}

pub enum ReplyView {
    Scanned(FoundView),
    Watching(Result<(), Seq<char>>),
    Checked { root: bool, download: bool },
    Saved(Result<(), Seq<char>>),
    Created(Result<(), (Seq<char>, Seq<char>)>),
    Opened { cwd: Seq<char>, listing: Result<Seq<picker::SeenView>, Seq<char>> },
    Listed(Result<Seq<picker::SeenView>, Seq<char>>),
}

pub enum EventView {
    Key(KeyPress),
    FsChanged { now: u64 },
    ImportProgress { index: int, total: int, part: int, whole: int, name: Seq<char> },
    ImportPrepared(Result<importer::PendingView, Seq<char>>),
    ImportDone(Result<importer::SummaryView, Seq<char>>),
    SearchDone(Result<Seq<easyeda::HitView>, Seq<char>>),
    Tick { now: u64 },
}

#[verifier::ext_equal]
pub struct AppView {
    pub config: config::ConfigView,
    pub stored: config::ConfigView,
    pub config_path: Seq<char>,
    pub screen: Screen,
    pub zips: Seq<scan::ZipView>,
    pub list: Option<int>,
    pub last_scan: Option<Seq<char>>,
    pub fs_errors: Seq<Seq<char>>,
    pub library: Seq<manifest::PartView>,
    pub library_list: Option<int>,
    pub totals: TotalsView,
    pub focus: Focus,
    pub filter: Seq<char>,
    pub filtering: bool,
    pub queue_view: Seq<int>,
    pub library_view: Seq<int>,
    pub status: Seq<char>,
    pub import: Option<ImportView>,
    pub settings: Option<SettingsView>,
    pub picker: Option<picker::PickerView>,
    pub validate: Option<ValidateView>,
    pub search: Option<SearchView>,
    pub projects: Option<ProjectsView>,
    pub run: Option<RunView>,
    pub pending: Option<importer::PendingView>,
    pub behind: Screen,
    pub cwd: Seq<char>,
    pub exe: Seq<char>,
    pub home: Seq<char>,
    pub diag_scroll: u16,
    pub diag_lines: u16,
    pub diag_view: u16,
    pub pending_rescan: Option<u64>,
    pub should_quit: bool,
    pub todo: Seq<StepView>,
    pub waiting: Option<StepView>,
}

impl View for ImportState {
    type V = ImportView;

    open spec fn view(&self) -> ImportView {
        ImportView { name: self.name@, part: self.part as int, whole: self.whole as int }
    }
}

impl View for Job {
    type V = JobView;

    open spec fn view(&self) -> JobView {
        match *self {
            Job::Zip(entry) => JobView::Zip(entry@),
            Job::Web(hit) => JobView::Web(hit@),
        }
    }
}

impl View for Run {
    type V = RunView;

    open spec fn view(&self) -> RunView {
        RunView {
            jobs: all(self.jobs@),
            total: self.total as int,
            done: self.done as int,
            imported: self.imported as int,
            skipped: self.skipped as int,
            failures: text::views(self.failures@),
            overwrite_all: self.overwrite_all,
        }
    }
}

impl View for Settings {
    type V = SettingsView;

    open spec fn view(&self) -> SettingsView {
        SettingsView {
            cursor: self.cursor as int,
            editing: text::opt_view(self.editing),
            draft: self.draft@,
            dirty: self.dirty,
            note: self.note@,
        }
    }
}

impl View for Naming {
    type V = NamingView;

    open spec fn view(&self) -> NamingView {
        NamingView { buffer: self.buffer@, target: opt_int(self.target) }
    }
}

impl View for Projects {
    type V = ProjectsView;

    open spec fn view(&self) -> ProjectsView {
        ProjectsView {
            cursor: self.cursor as int,
            naming: opt(self.naming),
            message: self.message@,
        }
    }
}

impl View for Validate {
    type V = ValidateView;

    open spec fn view(&self) -> ValidateView {
        ValidateView { missing: self.missing@, index: self.index as int }
    }
}

impl View for Search {
    type V = SearchView;

    open spec fn view(&self) -> SearchView {
        SearchView {
            query: self.query@,
            editing: self.editing,
            results: easyeda::hit_views(self.results@),
            cursor: self.cursor as int,
            searching: self.searching,
            message: self.message@,
        }
    }
}

pub open spec fn totals_view(t: Totals) -> TotalsView {
    TotalsView {
        parts: t.parts as int,
        symbols: t.symbols as int,
        footprints: t.footprints as int,
        models: t.models as int,
    }
}

impl View for Saving {
    type V = SavingView;

    open spec fn view(&self) -> SavingView {
        match *self {
            Saving::Projects => SavingView::Projects,
            Saving::Move { status } => SavingView::Move { status: status@ },
            Saving::Settings { settings } => SavingView::Settings { settings: settings@ },
            Saving::Validation => SavingView::Validation,
        }
    }
}

impl View for Step {
    type V = StepView;

    open spec fn view(&self) -> StepView {
        match *self {
            Step::Scan => StepView::Scan,
            Step::Watch => StepView::Watch,
            Step::Check { clear } => StepView::Check { clear },
            Step::Save { saving } => StepView::Save { saving: saving@ },
            Step::CreateOne { field } => StepView::CreateOne { field },
            Step::CreateAll { left, made } => StepView::CreateAll { left: left@, made: made@ },
            Step::Browse { start, target } => StepView::Browse { start: start@, target },
            Step::List { path } => StepView::List { path: path@ },
            Step::Job => StepView::Job,
            Step::Finish { pending } => StepView::Finish { pending: pending@ },
            Step::Discard { pending } => StepView::Discard { pending: pending@ },
            Step::Find { query } => StepView::Find { query: query@ },
            Step::Focus => StepView::Focus,
            Step::Rescanned => StepView::Rescanned,
            Step::Ready => StepView::Ready,
            Step::Say { text } => StepView::Say { text: text@ },
            Step::Report { text } => StepView::Report { text: text@ },
        }
    }
}

impl View for Effect {
    type V = EffectView;

    open spec fn view(&self) -> EffectView {
        match *self {
            Effect::Scan { cfg } => EffectView::Scan { cfg: cfg@ },
            Effect::Watch { dir } => EffectView::Watch { dir: dir@ },
            Effect::Check { root, download } => EffectView::Check {
                root: root@,
                download: download@,
            },
            Effect::Save { cfg, path } => EffectView::Save { cfg: cfg@, path: path@ },
            Effect::Create { paths } => EffectView::Create { paths: text::views(paths@) },
            Effect::Browse { start } => EffectView::Browse { start: start@ },
            Effect::List { path } => EffectView::List { path: path@ },
            Effect::Prepare { job, cfg, index, total } => EffectView::Prepare {
                job: job@,
                cfg: cfg@,
                index: index as int,
                total: total as int,
            },
            Effect::Finish { pending, cfg } => EffectView::Finish { pending: pending@, cfg: cfg@ },
            Effect::Discard { pending } => EffectView::Discard { pending: pending@ },
            Effect::Find { query, limit } => EffectView::Find { query: query@, limit: limit as int },
        }
    }
}

impl View for Found {
    type V = FoundView;

    open spec fn view(&self) -> FoundView {
        FoundView {
            entries: scan::zip_views(self.zips.entries@),
            errors: text::views(self.zips.errors@),
            recorded: manifest::part_views(self.recorded@),
            present: manifest::part_views(self.present@),
            at: self.at@,
        }
    }
}

pub open spec fn unit_view(r: Result<(), String>) -> Result<(), Seq<char>> {
    match r {
        Ok(_) => Ok(()),
        Err(e) => Err(e@),
    }
}

impl View for Reply {
    type V = ReplyView;

    open spec fn view(&self) -> ReplyView {
        match *self {
            Reply::Scanned(found) => ReplyView::Scanned(found@),
            Reply::Watching(r) => ReplyView::Watching(unit_view(r)),
            Reply::Checked { root, download } => ReplyView::Checked { root, download },
            Reply::Saved(r) => ReplyView::Saved(unit_view(r)),
            Reply::Created(r) => ReplyView::Created(
                match r {
                    Ok(_) => Ok(()),
                    Err(e) => Err((e.0@, e.1@)),
                },
            ),
            Reply::Opened { cwd, listing } => ReplyView::Opened {
                cwd: cwd@,
                listing: picker::listing_view(listing),
            },
            Reply::Listed(listing) => ReplyView::Listed(picker::listing_view(listing)),
        }
    }
}

/// What an import came to.
pub open spec fn outcome_view(r: Result<ImportSummary, String>) -> Result<
    importer::SummaryView,
    Seq<char>,
> {
    match r {
        Ok(s) => Ok(s@),
        Err(e) => Err(e@),
    }
}

/// What a search came to.
pub open spec fn hits_view(r: Result<Vec<Hit>, String>) -> Result<
    Seq<easyeda::HitView>,
    Seq<char>,
> {
    match r {
        Ok(list) => Ok(easyeda::hit_views(list@)),
        Err(e) => Err(e@),
    }
}

impl View for Event {
    type V = EventView;

    open spec fn view(&self) -> EventView {
        match *self {
            Event::Key(key) => EventView::Key(key),
            Event::FsChanged { now } => EventView::FsChanged { now },
            Event::ImportProgress { index, total, part, whole, name } => EventView::ImportProgress {
                index: index as int,
                total: total as int,
                part: part as int,
                whole: whole as int,
                name: name@,
            },
            Event::ImportPrepared(r) => EventView::ImportPrepared(
                match r {
                    Ok(p) => Ok(p@),
                    Err(e) => Err(e@),
                },
            ),
            Event::ImportDone(r) => EventView::ImportDone(outcome_view(r)),
            Event::SearchDone(r) => EventView::SearchDone(hits_view(r)),
            Event::Tick { now } => EventView::Tick { now },
        }
    }
}

impl View for App {
    type V = AppView;

    open spec fn view(&self) -> AppView {
        AppView {
            config: self.config@,
            stored: self.stored@,
            config_path: self.config_path@,
            screen: self.screen,
            zips: scan::zip_views(self.zips@),
            list: opt_int(self.list),
            last_scan: text::opt_view(self.last_scan),
            fs_errors: text::views(self.fs_errors@),
            library: manifest::part_views(self.library@),
            library_list: opt_int(self.library_list),
            totals: totals_view(self.totals),
            focus: self.focus,
            filter: self.filter@,
            filtering: self.filtering,
            queue_view: ints(self.queue_view@),
            library_view: ints(self.library_view@),
            status: self.status@,
            import: opt(self.import),
            settings: opt(self.settings),
            picker: opt(self.picker),
            validate: opt(self.validate),
            search: opt(self.search),
            projects: opt(self.projects),
            run: opt(self.run),
            pending: opt(self.pending),
            behind: self.behind,
            cwd: self.cwd@,
            exe: self.exe@,
            home: self.home@,
            diag_scroll: self.diag_scroll,
            diag_lines: self.diag_lines,
            diag_view: self.diag_view,
            pending_rescan: self.pending_rescan,
            should_quit: self.should_quit,
            todo: all(self.todo@),
            waiting: opt(self.waiting),
        }
    }
}

} // verus!
