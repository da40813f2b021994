//! What the keys do, screen by screen.

use vstd::prelude::*;
use vstd::string::*;

use crate::app;
use crate::app::panes;
use crate::app::projects;
use crate::app::prompts;
use crate::app::settings;
use crate::app::steps;
use crate::app::steps::{both, count};
use crate::app::{
    App, Effect, Event, Focus, ImportState, Job, Key, KeyPress, Projects, Screen, Search,
    Settings, Step, Validate,
};
use crate::config;
use crate::config::{Config, Field};
use crate::manifest::{Part, Totals};
use crate::online::easyeda;
use crate::online::easyeda::Hit;
use crate::paths;
use crate::picker;
use crate::picker::Picker;
use crate::scan;
use crate::scan::ZipEntry;
use crate::text;
use crate::text::{slice, to_chars, trimmed};

verus! {

// ------------------------------------------------------------------- typing

/// One of two characters was pressed.
pub open spec fn is_either(k: Key, a: char, b: char) -> bool {
    k == Key::Char(a) || k == Key::Char(b)
}

pub(crate) fn either(k: Key, a: char, b: char) -> (r: bool)
    ensures
        r == is_either(k, a, b),
{
    k == Key::Char(a) || k == Key::Char(b)
}

/// `s` without its last character.
pub open spec fn shortened(s: Seq<char>) -> Seq<char> {
    if s.len() == 0 {
        s
    } else {
        s.drop_last()
    }
}

pub(crate) fn shorten(s: &str) -> (r: String)
    ensures
        r@ == shortened(s@),
{
    let chars = to_chars(s);
    let n: usize = chars.len();
    if n == 0 {
        assert(s@ =~= Seq::<char>::empty());
        return String::new();
    }
    assert(s@.drop_last() =~= chars@.subrange(0, n - 1));
    slice(&chars, 0, n - 1)
}

pub(crate) fn lengthen(s: &str, c: char) -> (r: String)
    ensures
        r@ == s@.push(c),
{
    let mut out = s.to_string();
    out.push(c);
    out
}

/// `text` between quotation marks.
pub open spec fn quoted(before: Seq<char>, text: Seq<char>, after: Seq<char>) -> Seq<char> {
    before + "\""@ + text + "\""@ + after
}

pub(crate) fn quote(before: &str, text: &str, after: &str) -> (r: String)
    ensures
        r@ == quoted(before@, text@, after@),
{
    let mut out = before.to_string();
    out.append("\"");
    out.append(text);
    out.append("\"");
    out.append(after);
    out
}

/// The place after `at` in a ring of `len`, or before it.
pub open spec fn next_in(at: int, len: int) -> int {
    (at + 1) % len
}

pub open spec fn before_in(at: int, len: int) -> int {
    (at + len - 1) % len
}

pub(crate) fn step_on(at: usize, len: usize) -> (r: usize)
    requires
        len > 0,
    ensures
        r as int == next_in(at as int, len as int),
        r < len,
{
    let sum: u128 = at as u128 + 1;
    (sum % len as u128) as usize
}

pub(crate) fn step_back(at: usize, len: usize) -> (r: usize)
    requires
        len > 0,
    ensures
        r as int == before_in(at as int, len as int),
        r < len,
{
    let sum: u128 = at as u128 + len as u128 - 1;
    (sum % len as u128) as usize
}

// -------------------------------------------------------------- diagnostics

/// The last line Diagnostics can be scrolled to.
pub open spec fn scroll_end(a: app::AppView) -> int {
    if a.diag_lines > a.diag_view {
        a.diag_lines - a.diag_view
    } else {
        0
    }
}

pub open spec fn page(a: app::AppView) -> int {
    if a.diag_view > 1 {
        a.diag_view as int
    } else {
        1
    }
}

/// `n` lines on, but never past the last.
pub open spec fn scrolled_on(a: app::AppView, n: int) -> app::AppView {
    let to = a.diag_scroll + n;
    app::AppView {
        diag_scroll: if to < scroll_end(a) {
            to as u16
        } else {
            scroll_end(a) as u16
        },
        ..a
    }
}

/// `n` lines back, but never past the first.
pub open spec fn scrolled_back(a: app::AppView, n: int) -> app::AppView {
    app::AppView {
        diag_scroll: if a.diag_scroll > n {
            (a.diag_scroll - n) as u16
        } else {
            0
        },
        ..a
    }
}

#[verifier::opaque]
pub open spec fn diagnostics_key(a: app::AppView, k: Key) -> app::AppView {
    if k == Key::Esc || k == Key::Char('q') {
        app::AppView { screen: Screen::Main, ..a }
    } else if k == Key::Down || k == Key::Char('j') {
        scrolled_on(a, 1)
    } else if k == Key::Up || k == Key::Char('k') {
        scrolled_back(a, 1)
    } else if k == Key::PageDown {
        scrolled_on(a, page(a))
    } else if k == Key::PageUp {
        scrolled_back(a, page(a))
    } else if k == Key::Home {
        app::AppView { diag_scroll: 0, ..a }
    } else if k == Key::End {
        app::AppView { diag_scroll: scroll_end(a) as u16, ..a }
    } else {
        a
    }
}

impl App {
    fn scroll_end(&self) -> (r: u16)
        ensures
            r as int == scroll_end(self@),
    {
        if self.diag_lines > self.diag_view {
            self.diag_lines - self.diag_view
        } else {
            0
        }
    }

    fn scroll_on(&mut self, n: u16)
        ensures
            final(self)@ == scrolled_on(old(self)@, n as int),
    {
        let end: u16 = self.scroll_end();
        let to: u32 = self.diag_scroll as u32 + n as u32;
        self.diag_scroll = if to < end as u32 {
            to as u16
        } else {
            end
        };
    }

    fn scroll_back(&mut self, n: u16)
        ensures
            final(self)@ == scrolled_back(old(self)@, n as int),
    {
        self.diag_scroll = if self.diag_scroll > n {
            self.diag_scroll - n
        } else {
            0
        };
    }

    fn on_key_diagnostics(&mut self, k: Key)
        ensures
            final(self)@ == diagnostics_key(old(self)@, k),
    {
        reveal(diagnostics_key);
        let page: u16 = if self.diag_view > 1 {
            self.diag_view
        } else {
            1
        };
        if k == Key::Esc || k == Key::Char('q') {
            self.screen = Screen::Main;
        } else if k == Key::Down || k == Key::Char('j') {
            self.scroll_on(1);
        } else if k == Key::Up || k == Key::Char('k') {
            self.scroll_back(1);
        } else if k == Key::PageDown {
            self.scroll_on(page);
        } else if k == Key::PageUp {
            self.scroll_back(page);
        } else if k == Key::Home {
            self.diag_scroll = 0;
        } else if k == Key::End {
            self.diag_scroll = self.scroll_end();
        }
    }
}

// -------------------------------------------------------------- main screen

/// The filter is an incremental text field, so it takes character keys before
/// any single-letter shortcut can see them.
pub open spec fn filter_key(a: app::AppView, k: Key) -> app::AppView {
    match k {
        Key::Char(c) => panes::recomputed(app::AppView { filter: a.filter.push(c), ..a }),
        Key::Backspace => panes::recomputed(app::AppView { filter: shortened(a.filter), ..a }),
        // Enter keeps the filter and hands the keyboard back to the list.
        Key::Enter | Key::Down | Key::Up => app::AppView { filtering: false, ..a },
        Key::Esc => panes::recomputed(
            app::AppView { filtering: false, filter: Seq::empty(), ..a },
        ),
        _ => a,
    }
}

pub open spec fn new_settings(cfg: config::ConfigView) -> app::SettingsView {
    app::SettingsView {
        cursor: 0,
        editing: None,
        draft: cfg,
        dirty: false,
        note: Seq::empty(),
    }
}

pub open spec fn new_search() -> app::SearchView {
    app::SearchView {
        query: Seq::empty(),
        editing: true,
        results: Seq::empty(),
        cursor: 0,
        searching: false,
        message: "Type a part number or description, then press Enter."@,
    }
}

/// The Projects screen, with the cursor on wherever the library is now.
pub open spec fn projects_opened(a: app::AppView) -> app::AppView {
    app::AppView {
        projects: Some(
            app::ProjectsView {
                cursor: match config::active(a.config) {
                    Some(i) => i,
                    None => 0,
                },
                naming: None,
                message: match config::active(a.config) {
                    Some(i) => quoted("Working in "@, a.config.projects[i].name, "."@),
                    None => "This location is not saved yet — [N] names it."@,
                },
            },
        ),
        screen: Screen::Projects,
        ..a
    }
}

/// Importing is a queue action; pressing Enter in the library pane does not
/// silently act on some other list's selection.
pub open spec fn import_started(a: app::AppView) -> app::AppView {
    if a.focus == Focus::Library {
        app::AppView {
            status: "Switch to the queue [Tab] to import, or [W] to search online"@,
            ..a
        }
    } else {
        match panes::zip_selected(a) {
            None => app::AppView { status: "Nothing to import"@, ..a },
            Some(entry) => steps::run_started(a, seq![app::JobView::Zip(entry)]),
        }
    }
}

/// The jobs of the first `n` rows of the queue.
pub open spec fn queue_jobs(a: app::AppView, n: int) -> Seq<app::JobView>
    decreases n,
{
    if n <= 0 {
        Seq::empty()
    } else {
        match panes::zip_at(a, n - 1) {
            Some(entry) => queue_jobs(a, n - 1).push(app::JobView::Zip(entry)),
            None => queue_jobs(a, n - 1),
        }
    }
}

pub open spec fn all_started(a: app::AppView) -> app::AppView {
    let jobs = queue_jobs(a, a.queue_view.len() as int);
    if jobs.len() == 0 {
        app::AppView { status: "Nothing to import"@, ..a }
    } else {
        steps::run_started(a, jobs)
    }
}

#[verifier::opaque]
pub open spec fn main_key(a: app::AppView, k: Key) -> app::AppView {
    if a.filtering {
        filter_key(a, k)
    } else if is_either(k, 'q', 'Q') {
        app::AppView { should_quit: true, ..a }
    } else if k == Key::Esc {
        // Esc clears a filter first; only an unfiltered view quits.
        if a.filter.len() == 0 {
            app::AppView { should_quit: true, ..a }
        } else {
            panes::recomputed(app::AppView { filter: Seq::empty(), ..a })
        }
    } else if k == Key::Char('/') {
        app::AppView { filtering: true, ..a }
    } else if k == Key::Tab || k == Key::BackTab || k == Key::Left || k == Key::Right {
        app::AppView {
            focus: match a.focus {
                Focus::Queue => Focus::Library,
                Focus::Library => Focus::Queue,
            },
            ..a
        }
    } else if is_either(k, 'r', 'R') {
        app::AppView {
            todo: a.todo.push(app::StepView::Scan).push(app::StepView::Rescanned),
            ..a
        }
    } else if is_either(k, 's', 'S') {
        app::AppView {
            settings: Some(new_settings(a.config)),
            screen: Screen::Settings,
            ..a
        }
    } else if is_either(k, 'p', 'P') {
        projects_opened(a)
    } else if is_either(k, 'w', 'W') {
        app::AppView { search: Some(new_search()), screen: Screen::Search, ..a }
    } else if k == Key::Down || k == Key::Char('j') {
        panes::moved(a, 1)
    } else if k == Key::Up || k == Key::Char('k') {
        panes::moved(a, -1)
    } else if k == Key::Home {
        panes::jumped(a, false)
    } else if k == Key::End {
        panes::jumped(a, true)
    } else if k == Key::Enter || k == Key::Char('i') {
        import_started(a)
    } else if is_either(k, 'a', 'A') {
        all_started(a)
    } else {
        a
    }
}

impl Settings {
    fn new(draft: Config) -> (r: Settings)
        ensures
            r@ == new_settings(draft@),
    {
        let note = String::new();
        assert(note@ =~= Seq::<char>::empty());
        Settings { cursor: 0, editing: None, draft, dirty: false, note }
    }
}

impl Search {
    fn new() -> (r: Search)
        ensures
            r@ == new_search(),
    {
        let results: Vec<Hit> = Vec::new();
        let query = String::new();
        assert(easyeda::hit_views(results@) =~= Seq::<easyeda::HitView>::empty());
        assert(query@ =~= Seq::<char>::empty());
        Search {
            query,
            editing: true,
            results,
            cursor: 0,
            searching: false,
            message: "Type a part number or description, then press Enter.".to_string(),
        }
    }
}

impl App {
    fn set_filter(&mut self, filter: String)
        ensures
            final(self)@ == panes::recomputed(app::AppView { filter: filter@, ..old(self)@ }),
            panes::is_shown(final(self)@),
    {
        self.filter = filter;
        self.recompute_views();
    }

    fn on_key_filter(&mut self, k: Key)
        requires
            panes::is_shown(old(self)@),
        ensures
            final(self)@ == filter_key(old(self)@, k),
            panes::is_shown(final(self)@),
    {
        match k {
            Key::Char(c) => {
                let longer = lengthen(self.filter.as_str(), c);
                self.set_filter(longer);
            },
            Key::Backspace => {
                let shorter = shorten(self.filter.as_str());
                self.set_filter(shorter);
            },
            Key::Enter | Key::Down | Key::Up => {
                self.filtering = false;
            },
            Key::Esc => {
                self.filtering = false;
                let none = String::new();
                assert(none@ =~= Seq::<char>::empty());
                self.set_filter(none);
            },
            _ => {},
        }
    }

    /// Opens the Projects screen with the cursor on wherever we are now.
    fn open_projects(&mut self)
        ensures
            final(self)@ == projects_opened(old(self)@),
    {
        let cursor: usize = match self.config.active_index() {
            Some(i) => i,
            None => 0,
        };
        let message = match self.config.active_project() {
            Some(p) => quote("Working in ", p.name.as_str(), "."),
            None => "This location is not saved yet — [N] names it.".to_string(),
        };
        self.projects = Some(Projects { cursor, naming: None, message });
        self.screen = Screen::Projects;
    }

    fn start_import(&mut self)
        ensures
            final(self)@ == import_started(old(self)@),
    {
        if self.focus == Focus::Library {
            self.status =
            "Switch to the queue [Tab] to import, or [W] to search online".to_string();
            return;
        }
        let mut jobs: Vec<Job> = Vec::new();
        match self.selected_zip() {
            None => {
                self.status = "Nothing to import".to_string();
                return;
            },
            Some(entry) => {
                jobs.push(Job::Zip(entry.clone()));
                assert(app::all(jobs@) =~= seq![app::JobView::Zip(entry@)]);
            },
        }
        self.start_run(jobs);
    }

    /// Imports every ZIP currently listed in the queue, one after another.
    fn start_import_all(&mut self)
        ensures
            final(self)@ == all_started(old(self)@),
    {
        let ghost a = self@;
        let mut jobs: Vec<Job> = Vec::new();
        let mut i: usize = 0;
        let n: usize = self.queue_view.len();
        assert(a.queue_view.len() == n);
        assert(app::all(jobs@) =~= Seq::<app::JobView>::empty());
        while i < n
            invariant
                i <= n,
                self@ == a,
                app::all(jobs@) == queue_jobs(a, i as int),
            decreases n - i,
        {
            if let Some(entry) = self.zip_in(i) {
                let ghost was = app::all(jobs@);
                jobs.push(Job::Zip(entry.clone()));
                assert(app::all(jobs@) =~= was.push(app::JobView::Zip(entry@)));
            }
            i += 1;
        }
        assert(app::all(jobs@).len() == jobs@.len());
        if jobs.len() == 0 {
            self.status = "Nothing to import".to_string();
            return;
        }
        self.start_run(jobs);
    }

    fn on_key_main(&mut self, k: Key)
        requires
            panes::is_shown(old(self)@),
        ensures
            final(self)@ == main_key(old(self)@, k),
    {
        reveal(main_key);
        if self.filtering {
            self.on_key_filter(k);
        } else if either(k, 'q', 'Q') {
            self.should_quit = true;
        } else if k == Key::Esc {
            if self.filter.as_str().is_empty() {
                self.should_quit = true;
            } else {
                let none = String::new();
                assert(none@ =~= Seq::<char>::empty());
                self.set_filter(none);
            }
        } else if k == Key::Char('/') {
            self.filtering = true;
        } else if k == Key::Tab || k == Key::BackTab || k == Key::Left || k == Key::Right {
            self.focus = match self.focus {
                Focus::Queue => Focus::Library,
                Focus::Library => Focus::Queue,
            };
        } else if either(k, 'r', 'R') {
            self.later(Step::Scan);
            self.later(Step::Rescanned);
        } else if either(k, 's', 'S') {
            self.settings = Some(Settings::new(self.config.clone()));
            self.screen = Screen::Settings;
        } else if either(k, 'p', 'P') {
            self.open_projects();
        } else if either(k, 'w', 'W') {
            self.search = Some(Search::new());
            self.screen = Screen::Search;
        } else {
            self.on_key_lists(k);
        }
    }

    /// The keys that act on the two lists.
    fn on_key_lists(&mut self, k: Key)
        requires
            panes::is_shown(old(self)@),
        ensures
            final(self)@ == (if k == Key::Down || k == Key::Char('j') {
                panes::moved(old(self)@, 1)
            } else if k == Key::Up || k == Key::Char('k') {
                panes::moved(old(self)@, -1)
            } else if k == Key::Home {
                panes::jumped(old(self)@, false)
            } else if k == Key::End {
                panes::jumped(old(self)@, true)
            } else if k == Key::Enter || k == Key::Char('i') {
                import_started(old(self)@)
            } else if is_either(k, 'a', 'A') {
                all_started(old(self)@)
            } else {
                old(self)@
            }),
    {
        if k == Key::Down || k == Key::Char('j') {
            self.move_selection(1);
        } else if k == Key::Up || k == Key::Char('k') {
            self.move_selection(-1);
        } else if k == Key::Home {
            self.set_selection(false);
        } else if k == Key::End {
            self.set_selection(true);
        } else if k == Key::Enter || k == Key::Char('i') {
            self.start_import();
        } else if either(k, 'a', 'A') {
            self.start_import_all();
        }
    }
}

// --------------------------------------------------------------- web search

/// The state with the search screen changed.
pub open spec fn searching(a: app::AppView, s: app::SearchView) -> app::AppView {
    app::AppView { search: Some(s), ..a }
}

/// The query is handed out, unless it is empty or one is under way.
pub open spec fn search_run(a: app::AppView, s: app::SearchView) -> app::AppView {
    let query = text::trim(s.query);
    if query.len() == 0 {
        searching(a, app::SearchView { message: "Enter something to search for."@, ..s })
    } else if s.searching {
        a
    } else {
        app::AppView {
            search: Some(
                app::SearchView {
                    searching: true,
                    message: quoted("Searching for "@, query, "..."@),
                    ..s
                },
            ),
            todo: a.todo.push(app::StepView::Find { query }),
            ..a
        }
    }
}

/// The highlighted result is downloaded through the same pipeline as a ZIP, so a
/// part already in the library asks before replacing it here too.
pub open spec fn result_added(a: app::AppView, s: app::SearchView) -> app::AppView {
    if a.run is Some {
        a
    } else if s.cursor >= s.results.len() {
        searching(a, app::SearchView { message: "Nothing selected."@, ..s })
    } else {
        let hit = s.results[s.cursor];
        let said = searching(
            a,
            app::SearchView { message: "Adding "@ + hit.mpn + " ("@ + hit.id + ")..."@, ..s },
        );
        app::AppView {
            status: "Downloading "@ + hit.id + "..."@,
            ..steps::run_started(said, seq![app::JobView::Web(hit)])
        }
    }
}

pub open spec fn search_closed(a: app::AppView) -> app::AppView {
    app::AppView { search: None, screen: Screen::Main, ..a }
}

/// Typing the query swallows character keys, so the shortcuts only apply while
/// the result list has focus.
pub open spec fn query_key(a: app::AppView, s: app::SearchView, k: Key) -> app::AppView {
    match k {
        Key::Char(c) => searching(a, app::SearchView { query: s.query.push(c), ..s }),
        Key::Backspace => searching(a, app::SearchView { query: shortened(s.query), ..s }),
        Key::Enter => search_run(a, s),
        Key::Down | Key::Tab => if s.results.len() > 0 {
            searching(a, app::SearchView { editing: false, ..s })
        } else {
            a
        },
        Key::Esc => search_closed(a),
        _ => a,
    }
}

pub open spec fn results_key(a: app::AppView, s: app::SearchView, k: Key) -> app::AppView {
    let len = s.results.len() as int;
    if k == Key::Esc || k == Key::Char('q') {
        search_closed(a)
    } else if k == Key::Char('/') || k == Key::Char('e') || k == Key::Tab {
        searching(a, app::SearchView { editing: true, ..s })
    } else if k == Key::Down || k == Key::Char('j') {
        if len > 0 {
            searching(a, app::SearchView { cursor: next_in(s.cursor, len), ..s })
        } else {
            a
        }
    } else if k == Key::Up || k == Key::Char('k') {
        if len > 0 {
            searching(a, app::SearchView { cursor: before_in(s.cursor, len), ..s })
        } else {
            a
        }
    } else if k == Key::Enter {
        result_added(a, s)
    } else {
        a
    }
}

#[verifier::opaque]
pub open spec fn search_key(a: app::AppView, k: Key) -> app::AppView {
    match a.search {
        None => app::AppView { screen: Screen::Main, ..a },
        Some(s) => if s.editing {
            query_key(a, s, k)
        } else {
            results_key(a, s, k)
        },
    }
}

/// The search screen once the catalogue has answered. Results take focus, so
/// that Enter adds a part rather than repeating the search.
pub open spec fn search_answered(
    s: app::SearchView,
    r: Result<Seq<easyeda::HitView>, Seq<char>>,
) -> app::SearchView {
    match r {
        Ok(hits) => app::SearchView {
            searching: false,
            cursor: 0,
            message: if hits.len() == 0 {
                quoted("No results for "@, s.query, "."@)
            } else {
                steps::counted(""@, hits.len() as int, " result(s)."@)
            },
            editing: s.editing && hits.len() == 0,
            results: hits,
            ..s
        },
        Err(e) => app::SearchView { searching: false, message: "Search failed: "@ + e, ..s },
    }
}

impl App {
    fn run_search(&mut self, search: Search)
        ensures
            final(self)@ == search_run(searching(old(self)@, search@), search@),
    {
        let mut s = search;
        let query = trimmed(s.query.as_str());
        if query.as_str().is_empty() {
            s.message = "Enter something to search for.".to_string();
            self.search = Some(s);
        } else if s.searching {
            self.search = Some(s);
        } else {
            s.searching = true;
            s.message = quote("Searching for ", query.as_str(), "...");
            self.search = Some(s);
            self.later(Step::Find { query });
        }
    }

    fn add_selected_result(&mut self, search: Search)
        ensures
            final(self)@ == result_added(searching(old(self)@, search@), search@),
    {
        let mut s = search;
        if self.run.is_some() {
            self.search = Some(s);
            return;
        }
        assert(s@.results.len() == s.results@.len());
        if s.cursor >= s.results.len() {
            s.message = "Nothing selected.".to_string();
            self.search = Some(s);
            return;
        }
        let hit = s.results[s.cursor].clone();
        assert(hit@ == s@.results[s.cursor as int]);
        let mut message = both("Adding ", hit.mpn.as_str());
        message.append(" (");
        message.append(hit.id.as_str());
        message.append(")...");
        s.message = message;
        self.search = Some(s);
        let mut status = both("Downloading ", hit.id.as_str());
        status.append("...");
        let mut jobs: Vec<Job> = Vec::new();
        let ghost wanted = hit@;
        jobs.push(Job::Web(hit));
        assert(app::all(jobs@) =~= seq![app::JobView::Web(wanted)]);
        self.start_run(jobs);
        self.status = status;
    }

    fn close_search(&mut self)
        ensures
            final(self)@ == search_closed(old(self)@),
    {
        self.search = None;
        self.screen = Screen::Main;
    }

    fn on_key_query(&mut self, search: Search, k: Key)
        ensures
            final(self)@ == query_key(searching(old(self)@, search@), search@, k),
    {
        let mut s = search;
        match k {
            Key::Char(c) => {
                s.query = lengthen(s.query.as_str(), c);
                self.search = Some(s);
            },
            Key::Backspace => {
                s.query = shorten(s.query.as_str());
                self.search = Some(s);
            },
            Key::Enter => {
                self.run_search(s);
            },
            Key::Down | Key::Tab => {
                assert(s@.results.len() == s.results@.len());
                if s.results.len() > 0 {
                    s.editing = false;
                }
                self.search = Some(s);
            },
            Key::Esc => {
                self.close_search();
            },
            _ => {
                self.search = Some(s);
            },
        }
    }

    fn on_key_results(&mut self, search: Search, k: Key)
        ensures
            final(self)@ == results_key(searching(old(self)@, search@), search@, k),
    {
        let mut s = search;
        let len: usize = s.results.len();
        assert(s@.results.len() == len);
        if k == Key::Esc || k == Key::Char('q') {
            self.close_search();
        } else if k == Key::Char('/') || k == Key::Char('e') || k == Key::Tab {
            s.editing = true;
            self.search = Some(s);
        } else if k == Key::Down || k == Key::Char('j') {
            if len > 0 {
                s.cursor = step_on(s.cursor, len);
            }
            self.search = Some(s);
        } else if k == Key::Up || k == Key::Char('k') {
            if len > 0 {
                s.cursor = step_back(s.cursor, len);
            }
            self.search = Some(s);
        } else if k == Key::Enter {
            self.add_selected_result(s);
        } else {
            self.search = Some(s);
        }
    }

    fn on_key_search(&mut self, k: Key)
        ensures
            final(self)@ == search_key(old(self)@, k),
    {
        reveal(search_key);
        match self.search.take() {
            None => {
                self.screen = Screen::Main;
            },
            Some(search) => {
                if search.editing {
                    self.on_key_query(search, k);
                } else {
                    self.on_key_results(search, k);
                }
            },
        }
    }

    fn on_search_done(&mut self, r: Result<Vec<Hit>, String>)
        ensures
            final(self)@ == match old(self)@.search {
                None => old(self)@,
                Some(s) => searching(old(self)@, search_answered(s, app::hits_view(r))),
            },
    {
        if let Some(mut s) = self.search.take() {
            s.searching = false;
            match r {
                Ok(hits) => {
                    assert(easyeda::hit_views(hits@).len() == hits@.len());
                    s.cursor = 0;
                    s.message = if hits.len() == 0 {
                        quote("No results for ", s.query.as_str(), ".")
                    } else {
                        s.editing = false;
                        count("", hits.len() as u128, " result(s).")
                    };
                    s.results = hits;
                },
                Err(e) => {
                    s.message = both("Search failed: ", e.as_str());
                },
            }
            self.search = Some(s);
        }
    }
}

// ------------------------------------------------------------------ any key

/// A text field has the keyboard.
pub open spec fn is_typing(a: app::AppView) -> bool {
    ||| a.settings matches Some(s) && s.editing is Some
    ||| a.search matches Some(s) && s.editing
    ||| a.projects matches Some(p) && p.naming is Some
    ||| a.filtering
}

/// Diagnostics is opened, or left for the main screen.
pub open spec fn diagnostics_toggled(a: app::AppView) -> app::AppView {
    if a.screen == Screen::Diagnostics {
        app::AppView { screen: Screen::Main, ..a }
    } else {
        app::AppView { screen: Screen::Diagnostics, diag_scroll: 0, ..a }
    }
}

/// What a key does on the screen that is up.
#[verifier::opaque]
pub open spec fn screen_key(a: app::AppView, k: KeyPress) -> app::AppView {
    match a.screen {
        Screen::Main => main_key(a, k.key),
        Screen::Settings => settings::settings_key(a, k.key),
        Screen::Picker => settings::picker_key(a, k.key),
        Screen::Diagnostics => diagnostics_key(a, k.key),
        Screen::Validate => prompts::validate_key(a, k.key),
        Screen::Search => search_key(a, k.key),
        Screen::Projects => projects::projects_key(a, k),
        Screen::Overwrite => prompts::overwrite_key(a, k.key),
    }
}

/// What a key does. Ctrl-C always exits; F12 toggles diagnostics from anywhere
/// except a text edit.
pub open spec fn keyed(a: app::AppView, k: KeyPress) -> app::AppView {
    if k.control && k.key == Key::Char('c') {
        app::AppView { should_quit: true, ..a }
    } else if k.key == Key::F(12) && !is_typing(a) {
        diagnostics_toggled(a)
    } else {
        screen_key(a, k)
    }
}

impl App {
    fn is_editing(&self) -> (r: bool)
        ensures
            r == is_typing(self@),
    {
        let settings = match &self.settings {
            Some(s) => s.editing.is_some(),
            None => false,
        };
        let search = match &self.search {
            Some(s) => s.editing,
            None => false,
        };
        let naming = match &self.projects {
            Some(p) => p.naming.is_some(),
            None => false,
        };
        settings || search || naming || self.filtering
    }

    fn on_key(&mut self, k: KeyPress)
        requires
            steps::is_sound(old(self)@),
        ensures
            final(self)@ == keyed(old(self)@, k),
    {
        if k.control && k.key == Key::Char('c') {
            self.should_quit = true;
            return;
        }
        if k.key == Key::F(12) && !self.is_editing() {
            if self.screen == Screen::Diagnostics {
                self.screen = Screen::Main;
            } else {
                self.diag_scroll = 0;
                self.screen = Screen::Diagnostics;
            }
            return;
        }
        reveal(screen_key);
        match self.screen {
            Screen::Main => self.on_key_main(k.key),
            Screen::Settings => self.on_key_settings(k.key),
            Screen::Picker => self.on_key_picker(k.key),
            Screen::Diagnostics => self.on_key_diagnostics(k.key),
            Screen::Validate => self.on_key_validate(k.key),
            Screen::Search => self.on_key_search(k.key),
            Screen::Projects => self.on_key_projects(k),
            Screen::Overwrite => self.on_key_overwrite(k.key),
        }
    }
}

// ------------------------------------------------------------------- events

/// How long a change on disk waits for others before a rescan, in milliseconds.
/// Editors and browsers emit several events per saved file.
pub const SETTLE: u64 = 300;

/// A rescan is due: it was asked for long enough ago.
pub open spec fn is_due(asked: Option<u64>, now: u64) -> bool {
    asked matches Some(at) && now >= at && now - at >= SETTLE
}

/// What an event makes of the state, before what it leaves to be done.
pub open spec fn struck(a: app::AppView, event: app::EventView) -> app::AppView {
    match event {
        app::EventView::Key(k) => if k.press {
            keyed(a, k)
        } else {
            a
        },
        app::EventView::FsChanged { now } => app::AppView { pending_rescan: Some(now), ..a },
        app::EventView::ImportProgress { index, total, part, whole, name } => app::AppView {
            // One job's progress is a slice of the whole run.
            import: Some(
                app::ImportView {
                    name: steps::labelled(index, total, name),
                    part: index * whole + part,
                    whole: total * whole,
                },
            ),
            ..a
        },
        app::EventView::ImportPrepared(r) => match r {
            Ok(p) => steps::after_prepared(a, p),
            Err(e) => steps::after_job(a, Err(e)),
        },
        app::EventView::ImportDone(r) => steps::after_job(a, r),
        app::EventView::SearchDone(r) => match a.search {
            None => a,
            Some(s) => searching(a, search_answered(s, r)),
        },
        app::EventView::Tick { now } => if is_due(a.pending_rescan, now) {
            app::AppView { pending_rescan: None, todo: a.todo.push(app::StepView::Scan), ..a }
        } else {
            a
        },
    }
}

/// The state after an event, and what is to be done outside.
pub open spec fn handled(a: app::AppView, event: app::EventView) -> (
    app::AppView,
    Seq<app::EffectView>,
) {
    steps::proceeded(struck(a, event))
}

/// The state the application starts in.
pub open spec fn started(
    cfg: config::ConfigView,
    stored: config::ConfigView,
    config_path: Seq<char>,
    cwd: Seq<char>,
    exe: Seq<char>,
    home: Seq<char>,
    missing: Seq<Field>,
) -> app::AppView {
    app::AppView {
        config: cfg,
        stored,
        config_path,
        screen: if missing.len() == 0 {
            Screen::Main
        } else {
            Screen::Validate
        },
        zips: Seq::empty(),
        list: None,
        last_scan: None,
        fs_errors: Seq::empty(),
        library: Seq::empty(),
        library_list: None,
        totals: app::TotalsView { parts: 0, symbols: 0, footprints: 0, models: 0 },
        focus: Focus::Queue,
        filter: Seq::empty(),
        filtering: false,
        queue_view: Seq::empty(),
        library_view: Seq::empty(),
        status: "Ready"@,
        import: None,
        settings: None,
        picker: None,
        validate: if missing.len() == 0 {
            None
        } else {
            Some(app::ValidateView { missing, index: 0 })
        },
        search: None,
        projects: None,
        run: None,
        pending: None,
        behind: Screen::Main,
        cwd,
        exe,
        home,
        diag_scroll: 0,
        diag_lines: 0,
        diag_view: 0,
        pending_rescan: None,
        should_quit: false,
        // Scanning and watching only start once the directories are known good.
        todo: if missing.len() == 0 {
            seq![app::StepView::Scan, app::StepView::Watch, app::StepView::Focus]
        } else {
            Seq::empty()
        },
        waiting: None,
    }
}

impl App {
    /// The application as it starts, given the configuration it runs with, the
    /// one on file and which of the two chosen locations exist, and what is to
    /// be done first.
    pub fn new(
        config: Config,
        stored: Config,
        config_path: String,
        cwd: String,
        exe: String,
        home: String,
        root_exists: bool,
        download_exists: bool,
    ) -> (r: (App, Vec<Effect>))
        ensures
            (r.0@, app::all(r.1@)) == steps::proceeded(
                started(
                    config@,
                    stored@,
                    config_path@,
                    cwd@,
                    exe@,
                    home@,
                    config::missing(root_exists, download_exists),
                ),
            ),
            steps::is_sound(r.0@),
    {
        let missing = config.missing_dirs(root_exists, download_exists);
        let ghost wanted = missing@;
        let ready = missing.len() == 0;
        let mut todo: Vec<Step> = Vec::new();
        if ready {
            todo.push(Step::Scan);
            todo.push(Step::Watch);
            todo.push(Step::Focus);
        }
        let validate = if ready {
            None
        } else {
            Some(Validate { missing, index: 0 })
        };
        let zips: Vec<ZipEntry> = Vec::new();
        let library: Vec<Part> = Vec::new();
        let fs_errors: Vec<String> = Vec::new();
        let rows: Vec<usize> = Vec::new();
        let lines: Vec<usize> = Vec::new();
        let filter = String::new();
        let mut app = App {
            config,
            stored,
            config_path,
            screen: if ready {
                Screen::Main
            } else {
                Screen::Validate
            },
            zips,
            list: None,
            last_scan: None,
            fs_errors,
            library,
            library_list: None,
            totals: Totals { parts: 0, symbols: 0, footprints: 0, models: 0 },
            focus: Focus::Queue,
            filter,
            filtering: false,
            queue_view: rows,
            library_view: lines,
            status: "Ready".to_string(),
            import: None,
            settings: None,
            picker: None,
            validate,
            search: None,
            projects: None,
            run: None,
            pending: None,
            behind: Screen::Main,
            cwd,
            exe,
            home,
            diag_scroll: 0,
            diag_lines: 0,
            diag_view: 0,
            pending_rescan: None,
            should_quit: false,
            todo,
            waiting: None,
        };
        let ghost a = started(
            config@,
            stored@,
            config_path@,
            cwd@,
            exe@,
            home@,
            config::missing(root_exists, download_exists),
        );
        proof {
            assert(app@.todo =~= a.todo);
            assert(app@ =~= a);
            assert(steps::is_sound(a));
            steps::lemma_sound_proceeded(a);
        }
        let mut out: Vec<Effect> = Vec::new();
        assert(app::all(out@) =~= Seq::<app::EffectView>::empty());
        app.proceed(&mut out);
        assert(app::all(out@) =~= steps::proceeded(a).1);
        (app, out)
    }

    fn strike(&mut self, event: Event)
        requires
            steps::is_sound(old(self)@),
        ensures
            final(self)@ == struck(old(self)@, event@),
    {
        match event {
            Event::Key(k) => {
                if k.press {
                    self.on_key(k);
                }
            },
            Event::FsChanged { now } => {
                self.pending_rescan = Some(now);
            },
            Event::ImportProgress { index, total, part, whole, name } => {
                proof {
                    lemma_fits(index, whole);
                    lemma_fits(total, whole);
                }
                self.import = Some(
                    ImportState {
                        name: steps::step_label(index, total, name.as_str()),
                        part: index as u128 * whole as u128 + part as u128,
                        whole: total as u128 * whole as u128,
                    },
                );
            },
            Event::ImportPrepared(r) => match r {
                Ok(pending) => self.on_prepared(pending),
                Err(e) => self.job_done(Err(e)),
            },
            Event::ImportDone(r) => self.job_done(r),
            Event::SearchDone(r) => self.on_search_done(r),
            Event::Tick { now } => {
                if let Some(at) = self.pending_rescan {
                    if now >= at && now - at >= SETTLE {
                        self.pending_rescan = None;
                        self.later(Step::Scan);
                    }
                }
            },
        }
    }

    /// Takes one event, and says what is to be done outside. Of the effects only
    /// the last can be one that a reply is owed to.
    pub fn handle(&mut self, event: Event) -> (out: Vec<Effect>)
        requires
            steps::is_sound(old(self)@),
        ensures
            (final(self)@, app::all(out@)) == handled(old(self)@, event@),
            steps::is_sound(final(self)@),
    {
        let ghost a = self@;
        let ghost seen = event@;
        let mut out: Vec<Effect> = Vec::new();
        assert(app::all(out@) =~= Seq::<app::EffectView>::empty());
        self.strike(event);
        proof {
            lemma_sound_struck(a, seen);
            steps::lemma_sound_proceeded(struck(a, seen));
        }
        self.proceed(&mut out);
        assert(app::all(out@) =~= handled(a, seen).1);
        out
    }
}

// -------------------------------------------------------------------- laws

proof fn lemma_fits(a: usize, b: usize)
    ensures
        0 <= a * b,
        a * b + usize::MAX <= u128::MAX,
{
    assert(0 <= a * b <= u64::MAX * u64::MAX) by (nonlinear_arith)
        requires
            0 <= a <= u64::MAX,
            0 <= b <= u64::MAX,
    ;
}

/// The progress of one job stays in its own slice of the run: it starts where
/// the jobs before it end, and comes no further than where the next one starts.
pub proof fn lemma_progress(
    a: app::AppView,
    index: int,
    total: int,
    part: int,
    whole: int,
    name: Seq<char>,
)
    requires
        0 <= index < total,
        0 <= part <= whole,
    ensures
        ({
            let event = app::EventView::ImportProgress { index, total, part, whole, name };
            &&& struck(a, event).import matches Some(shown)
            &&& index * whole <= shown.part <= (index + 1) * whole <= shown.whole
            &&& shown.part == index * whole <==> part == 0
            &&& shown.part == (index + 1) * whole <==> part == whole
        }),
{
    assert((index + 1) * whole == index * whole + whole) by (nonlinear_arith);
    assert((index + 1) * whole <= total * whole) by (nonlinear_arith)
        requires
            index + 1 <= total,
            0 <= whole,
    ;
}

#[verifier::spinoff_prover]
#[verifier::rlimit(60)]
proof fn lemma_sound_main(a: app::AppView, k: Key)
    requires
        steps::is_sound(a),
    ensures
        steps::is_sound(main_key(a, k)),
{
    reveal(main_key);
    let len = panes::pane_len(a);
    if len > 0 {
        let at = match panes::selected(a) {
            Some(i) => i,
            None => 0,
        };
        vstd::arithmetic::div_mod::lemma_mod_bound(at + 1, len);
        vstd::arithmetic::div_mod::lemma_mod_bound(at - 1, len);
    }
}

proof fn lemma_sound_search(a: app::AppView, k: Key)
    requires
        steps::is_sound(a),
    ensures
        steps::is_sound(search_key(a, k)),
{
    reveal(search_key);
    if let Some(s) = a.search {
        let len = s.results.len() as int;
        if len > 0 {
            vstd::arithmetic::div_mod::lemma_mod_bound(s.cursor + 1, len);
            vstd::arithmetic::div_mod::lemma_mod_bound(s.cursor + len - 1, len);
        }
    }
}

proof fn lemma_sound_settings(a: app::AppView, k: Key)
    requires
        steps::is_sound(a),
    ensures
        steps::is_sound(settings::settings_key(a, k)),
{
    reveal(settings::settings_key);
}

proof fn lemma_sound_picker(a: app::AppView, k: Key)
    requires
        steps::is_sound(a),
    ensures
        steps::is_sound(settings::picker_key(a, k)),
{
    reveal(settings::picker_key);
    if let Some(p) = a.picker {
        picker::lemma_stepped(p, 1);
        picker::lemma_stepped(p, -1);
    }
}

proof fn lemma_sound_projects(a: app::AppView, k: KeyPress)
    requires
        steps::is_sound(a),
    ensures
        steps::is_sound(projects::projects_key(a, k)),
{
    reveal(projects::projects_key);
}

proof fn lemma_sound_prompts(a: app::AppView, k: Key)
    requires
        steps::is_sound(a),
    ensures
        steps::is_sound(prompts::validate_key(a, k)),
        steps::is_sound(prompts::overwrite_key(a, k)),
{
    reveal(prompts::overwrite_key);
    reveal(prompts::validate_key);
}

proof fn lemma_sound_struck(a: app::AppView, event: app::EventView)
    requires
        steps::is_sound(a),
    ensures
        steps::is_sound(struck(a, event)),
{
    match event {
        app::EventView::Key(k) => {
            lemma_sound_screen(a, k);
        },
        app::EventView::ImportPrepared(r) => {
            if let Err(e) = r {
                lemma_sound_job_done(a, Err(e));
            }
        },
        app::EventView::ImportDone(r) => {
            lemma_sound_job_done(a, r);
        },
        _ => {},
    }
}

proof fn lemma_sound_job_done(
    a: app::AppView,
    r: Result<crate::importer::SummaryView, Seq<char>>,
)
    requires
        steps::is_sound(a),
    ensures
        steps::is_sound(steps::after_job(a, r)),
{
}

proof fn lemma_sound_screen(a: app::AppView, k: KeyPress)
    requires
        steps::is_sound(a),
    ensures
        steps::is_sound(screen_key(a, k)),
{
    reveal(screen_key);
    match a.screen {
        Screen::Main => lemma_sound_main(a, k.key),
        Screen::Settings => lemma_sound_settings(a, k.key),
        Screen::Picker => lemma_sound_picker(a, k.key),
        Screen::Diagnostics => {
            reveal(diagnostics_key);
        },
        Screen::Validate => lemma_sound_prompts(a, k.key),
        Screen::Search => lemma_sound_search(a, k.key),
        Screen::Projects => lemma_sound_projects(a, k),
        Screen::Overwrite => lemma_sound_prompts(a, k.key),
    }
}

} // verus!
