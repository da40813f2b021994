//! What follows an event: the steps it leaves to be done, the effects they ask
//! for, and how the application goes on with the replies.

use vstd::prelude::*;
use vstd::string::*;

use crate::app;
use crate::app::panes;
use crate::app::{
    App, Effect, Focus, ImportState, Job, Projects, Reply, Run, Saving, Screen, Settings, Step,
    Validate,
};
use crate::config;
use crate::config::{Config, Field};
use crate::importer;
use crate::importer::{ImportSummary, Pending};
use crate::online;
use crate::picker;
use crate::picker::Picker;
use crate::text;
use crate::text::{joined, number};

verus! {

// --------------------------------------------------------------- small talk

/// A count in words around it.
pub open spec fn counted(before: Seq<char>, n: int, after: Seq<char>) -> Seq<char> {
    before + text::decimal(n as nat) + after
}

/// A count in words around it.
pub(crate) fn count(before: &str, n: u128, after: &str) -> (r: String)
    ensures
        r@ == counted(before@, n as int, after@),
{
    let mut out = before.to_string();
    out.append(number(n).as_str());
    out.append(after);
    out
}

/// `a` and `b`, one after the other.
pub(crate) fn both(a: &str, b: &str) -> (r: String)
    ensures
        r@ == a@ + b@,
{
    let mut out = a.to_string();
    out.append(b);
    out
}

/// A count moved on by one. It stops at the largest number there is.
pub open spec fn bumped(n: int) -> int {
    if n < usize::MAX {
        n + 1
    } else {
        n
    }
}

pub(crate) fn bump(n: usize) -> (r: usize)
    ensures
        r as int == bumped(n as int),
{
    if n < usize::MAX {
        n + 1
    } else {
        n
    }
}

// ------------------------------------------------------------------ the run

/// How a job is called while it is under way.
pub open spec fn job_label(job: app::JobView) -> Seq<char> {
    match job {
        app::JobView::Zip(entry) => entry.display,
        app::JobView::Web(hit) => hit.mpn + " ("@ + hit.id + ")"@,
    }
}

/// `(2/5) NE555P` while a run has more than one job in it.
pub open spec fn labelled(index: int, total: int, name: Seq<char>) -> Seq<char> {
    if total <= 1 {
        name
    } else {
        "("@ + text::decimal((index + 1) as nat) + "/"@ + text::decimal(total as nat) + ") "@ + name
    }
}

/// The state once the next job of the run is under way.
pub open spec fn under_way(a: app::AppView, run: app::RunView) -> app::AppView {
    app::AppView {
        import: Some(
            app::ImportView {
                name: labelled(run.done, run.total, job_label(run.jobs[0])),
                part: run.done,
                whole: run.total,
            },
        ),
        run: Some(app::RunView { jobs: run.jobs.drop_first(), ..run }),
        ..a
    }
}

/// What a run of several jobs came to.
pub open spec fn tally(run: app::RunView) -> Seq<char> {
    let first = seq![counted("Imported "@, run.imported, ""@)];
    let second = if run.skipped > 0 {
        first.push(counted(""@, run.skipped, " skipped"@))
    } else {
        first
    };
    let third = if run.failures.len() > 0 {
        second.push(counted(""@, run.failures.len() as int, " failed — see [F12] Diagnostics"@))
    } else {
        second
    };
    text::join(third, ", "@)
}

/// What is said at the end of a run. A single job has already reported itself in
/// full; only a real queue needs a tally.
pub open spec fn closing(run: app::RunView) -> Seq<app::StepView> {
    if run.total > 1 {
        seq![app::StepView::Say { text: tally(run) }]
    } else {
        Seq::empty()
    }
}

/// The state once the run is over: a rescan comes next, then the closing words.
pub open spec fn ended(a: app::AppView, run: app::RunView) -> app::AppView {
    app::AppView { run: None, import: None, todo: closing(run) + a.todo, ..a }
}

/// What a job that was placed reports.
pub open spec fn added_text(s: importer::SummaryView) -> Seq<char> {
    "Added "@ + s.part + counted(": "@, s.symbols.len() as int, " symbol(s), "@) + counted(
        ""@,
        s.footprints.len() as int,
        " footprint(s), "@,
    ) + counted(""@, s.models.len() as int, " model(s)"@)
}

/// The run after one of its jobs has ended.
pub open spec fn run_after(
    run: app::RunView,
    outcome: Result<importer::SummaryView, Seq<char>>,
) -> app::RunView {
    let counted_run = app::RunView { done: bumped(run.done), ..run };
    match outcome {
        Ok(s) => app::RunView { imported: bumped(run.imported), ..counted_run },
        Err(e) => app::RunView { failures: run.failures.push(e), ..counted_run },
    }
}

/// What a job reports when it is the only one.
pub open spec fn reports(
    run: app::RunView,
    outcome: Result<importer::SummaryView, Seq<char>>,
) -> Seq<app::StepView> {
    if run.total != 1 {
        Seq::empty()
    } else {
        match outcome {
            Ok(s) => seq![app::StepView::Report { text: added_text(s) }],
            Err(e) => seq![app::StepView::Report { text: "Import failed: "@ + e }],
        }
    }
}

/// The state after a job has ended, successfully or not: a rescan, its report,
/// and the next job. One bad archive does not abandon the rest of the queue.
pub open spec fn after_job(
    a: app::AppView,
    outcome: Result<importer::SummaryView, Seq<char>>,
) -> app::AppView {
    match a.run {
        None => app::AppView { todo: a.todo + seq![app::StepView::Scan, app::StepView::Job], ..a },
        Some(run) => app::AppView {
            run: Some(run_after(run, outcome)),
            fs_errors: match outcome {
                Ok(_) => a.fs_errors,
                Err(e) => a.fs_errors.push(e),
            },
            todo: a.todo + (seq![app::StepView::Scan] + reports(run, outcome)).push(
                app::StepView::Job,
            ),
            ..a
        },
    }
}

/// The import would replace files, and nobody has agreed to that yet.
pub open spec fn must_ask(a: app::AppView, p: importer::PendingView) -> bool {
    p.conflicts.len() > 0 && !(a.run is Some && a.run->Some_0.overwrite_all)
}

/// The state once a job has been unpacked. Anything it would replace is
/// confirmed first.
pub open spec fn after_prepared(a: app::AppView, p: importer::PendingView) -> app::AppView {
    if must_ask(a, p) {
        app::AppView {
            import: None,
            status: importer::pending_label(p) + counted(
                " would replace "@,
                p.conflicts.len() as int,
                " existing file(s)"@,
            ),
            pending: Some(p),
            behind: a.screen,
            screen: Screen::Overwrite,
            ..a
        }
    } else {
        app::AppView { todo: a.todo.push(app::StepView::Finish { pending: p }), ..a }
    }
}

/// The state once a run of `jobs` has begun, unless one is under way.
pub open spec fn run_started(a: app::AppView, jobs: Seq<app::JobView>) -> app::AppView {
    if a.run is Some {
        app::AppView { status: "An import is already running"@, ..a }
    } else {
        app::AppView {
            run: Some(
                app::RunView {
                    jobs,
                    total: jobs.len() as int,
                    done: 0,
                    imported: 0,
                    skipped: 0,
                    failures: Seq::empty(),
                    overwrite_all: false,
                },
            ),
            status: if jobs.len() == 1 {
                "Importing..."@
            } else {
                counted("Importing "@, jobs.len() as int, " archive(s)..."@)
            },
            todo: a.todo.push(app::StepView::Job),
            ..a
        }
    }
}

impl Job {
    pub fn label(&self) -> (r: String)
        ensures
            r@ == job_label(self@),
    {
        match self {
            Job::Zip(entry) => entry.display.clone(),
            Job::Web(hit) => {
                let mut out = hit.mpn.clone();
                out.append(" (");
                out.append(hit.id.as_str());
                out.append(")");
                out
            },
        }
    }
}

/// `(2/5) NE555P` while a run has more than one job in it.
pub fn step_label(index: usize, total: usize, name: &str) -> (r: String)
    ensures
        r@ == labelled(index as int, total as int, name@),
{
    if total <= 1 {
        return name.to_string();
    }
    let mut out = "(".to_string();
    out.append(number(index as u128 + 1).as_str());
    out.append("/");
    out.append(number(total as u128).as_str());
    out.append(") ");
    out.append(name);
    out
}

fn write_tally(run: &Run) -> (r: String)
    ensures
        r@ == tally(run@),
{
    let mut parts: Vec<String> = Vec::new();
    parts.push(count("Imported ", run.imported as u128, ""));
    assert(text::views(parts@) =~= seq![counted("Imported "@, run.imported as int, ""@)]);
    if run.skipped > 0 {
        let ghost was = text::views(parts@);
        parts.push(count("", run.skipped as u128, " skipped"));
        assert(text::views(parts@) =~= was.push(counted(""@, run.skipped as int, " skipped"@)));
    }
    assert(run@.failures.len() == run.failures@.len());
    if run.failures.len() > 0 {
        let ghost was = text::views(parts@);
        parts.push(count("", run.failures.len() as u128, " failed — see [F12] Diagnostics"));
        assert(text::views(parts@) =~= was.push(
            counted(""@, run.failures@.len() as int, " failed — see [F12] Diagnostics"@),
        ));
    }
    joined(&parts, ", ")
}

fn write_added(s: &ImportSummary) -> (r: String)
    ensures
        r@ == added_text(s@),
{
    assert(s@.symbols.len() == s.symbols@.len());
    assert(s@.footprints.len() == s.footprints@.len());
    assert(s@.models.len() == s.models@.len());
    let mut out = both("Added ", s.part.as_str());
    out.append(count(": ", s.symbols.len() as u128, " symbol(s), ").as_str());
    out.append(count("", s.footprints.len() as u128, " footprint(s), ").as_str());
    out.append(count("", s.models.len() as u128, " model(s)").as_str());
    out
}

impl App {
    /// Leaves a step to be done after those that are left already.
    pub(crate) fn later(&mut self, step: Step)
        ensures
            final(self)@ == (app::AppView { todo: old(self)@.todo.push(step@), ..old(self)@ }),
    {
        let ghost was = self@.todo;
        self.todo.push(step);
        assert(self@.todo =~= was.push(step@));
    }

    /// Leaves steps to be done before those that are left already.
    pub(crate) fn sooner(&mut self, steps: Vec<Step>)
        ensures
            final(self)@ == (app::AppView {
                todo: app::all(steps@) + old(self)@.todo,
                ..old(self)@
            }),
    {
        let ghost was = self@.todo;
        let ghost first = steps@;
        let mut list = steps;
        list.append(&mut self.todo);
        self.todo = list;
        assert(self@.todo =~= app::all(first) + was);
    }

    /// Begins a run. Every import goes through here, whether it is one archive,
    /// a whole queue or a part from the catalogue.
    pub(crate) fn start_run(&mut self, jobs: Vec<Job>)
        ensures
            final(self)@ == run_started(old(self)@, app::all(jobs@)),
    {
        if self.run.is_some() {
            self.status = "An import is already running".to_string();
            return;
        }
        assert(app::all(jobs@).len() == jobs@.len());
        let total: usize = jobs.len();
        let failures: Vec<String> = Vec::new();
        assert(text::views(failures@) =~= Seq::<Seq<char>>::empty());
        self.run = Some(
            Run {
                jobs,
                total,
                done: 0,
                imported: 0,
                skipped: 0,
                failures,
                overwrite_all: false,
            },
        );
        self.status = if total == 1 {
            "Importing...".to_string()
        } else {
            count("Importing ", total as u128, " archive(s)...")
        };
        self.later(Step::Job);
    }

    /// Leaves the closing words of a run to be said.
    pub(crate) fn close_run(&mut self, run: &Run)
        ensures
            final(self)@ == (app::AppView {
                todo: old(self)@.todo + closing(run@),
                ..old(self)@
            }),
    {
        let ghost was = self@;
        if run.total > 1 {
            self.later(Step::Say { text: write_tally(run) });
        }
        assert(self@.todo =~= was.todo + closing(run@));
    }

    /// A job finished, successfully or not; move on to the next.
    pub(crate) fn job_done(&mut self, outcome: Result<ImportSummary, String>)
        ensures
            final(self)@ == after_job(old(self)@, app::outcome_view(outcome)),
    {
        let ghost was = self@;
        self.later(Step::Scan);
        match self.run.take() {
            None => {
                self.later(Step::Job);
                assert(self@.todo =~= was.todo + seq![app::StepView::Scan, app::StepView::Job]);
            },
            Some(run) => {
                let ghost before = run@;
                let ghost seen = app::outcome_view(outcome);
                let mut now = run;
                let single = now.total == 1;
                now.done = bump(now.done);
                match outcome {
                    Ok(s) => {
                        now.imported = bump(now.imported);
                        if single {
                            self.later(Step::Report { text: write_added(&s) });
                        }
                    },
                    Err(e) => {
                        let ghost failed = now@.failures;
                        let ghost errors = self@.fs_errors;
                        now.failures.push(e.clone());
                        assert(now@.failures =~= failed.push(e@));
                        self.fs_errors.push(e.clone());
                        assert(self@.fs_errors =~= errors.push(e@));
                        if single {
                            self.later(Step::Report { text: both("Import failed: ", e.as_str()) });
                        }
                    },
                }
                assert(now@ =~= run_after(before, seen));
                self.run = Some(now);
                self.later(Step::Job);
                assert(self@.todo =~= was.todo + (seq![app::StepView::Scan] + reports(
                    before,
                    seen,
                )).push(app::StepView::Job));
            },
        }
    }

    /// An unpacked job is ready. Anything it would replace is confirmed first.
    pub(crate) fn on_prepared(&mut self, pending: Pending)
        ensures
            final(self)@ == after_prepared(old(self)@, pending@),
    {
        let agreed = match &self.run {
            Some(run) => run.overwrite_all,
            None => false,
        };
        assert(pending@.conflicts.len() == pending.conflicts@.len());
        if pending.conflicts.len() > 0 && !agreed {
            // The job is paused, not running; a progress bar behind the prompt
            // would say otherwise.
            self.import = None;
            let label = pending.label();
            let rest = count(
                " would replace ",
                pending.conflicts.len() as u128,
                " existing file(s)",
            );
            self.status = both(label.as_str(), rest.as_str());
            self.pending = Some(pending);
            self.behind = self.screen;
            self.screen = Screen::Overwrite;
        } else {
            self.later(Step::Finish { pending });
        }
    }
}

// ------------------------------------------------------------------ folders

/// The folders to create for a location. Approving the library root approves
/// the library: the folders it is made of are created with it.
pub open spec fn folders_for(cfg: config::ConfigView, field: Field) -> Option<Seq<Seq<char>>> {
    if field == Field::LibraryRoot {
        Some(config::folders(cfg))
    } else {
        match field.folder(cfg) {
            Some(dir) => Some(seq![dir]),
            None => None,
        }
    }
}

/// What is said of folders that were created.
pub open spec fn created_text(cfg: config::ConfigView, paths: Seq<Seq<char>>) -> Seq<char> {
    if paths.len() == 1 {
        "Created "@ + paths[0]
    } else {
        "Created "@ + cfg.library_root + counted(
            " and the "@,
            paths.len() - 1,
            " folders inside it"@,
        )
    }
}

/// How many folders the locations came to.
pub open spec fn folder_count(cfg: config::ConfigView, fields: Seq<Field>) -> int
    decreases fields.len(),
{
    if fields.len() == 0 {
        0
    } else {
        folder_count(cfg, fields.drop_last()) + match folders_for(cfg, fields.last()) {
            Some(paths) => paths.len() as int,
            None => 0,
        }
    }
}

pub open spec fn not_created_text(path: Seq<char>, e: Seq<char>) -> Seq<char> {
    "could not create "@ + path + ": "@ + e
}

fn paths_for(cfg: &Config, field: Field) -> (r: Option<Vec<String>>)
    ensures
        match r {
            Some(paths) => folders_for(cfg@, field) == Some(text::views(paths@)) && 1
                <= paths@.len() <= 6,
            None => folders_for(cfg@, field) is None,
        },
{
    if field == Field::LibraryRoot {
        let paths = cfg.library_dirs();
        assert(text::views(paths@).len() == paths@.len());
        return Some(paths);
    }
    match field.dir(cfg) {
        Some(dir) => {
            let mut paths: Vec<String> = Vec::new();
            paths.push(dir.clone());
            assert(text::views(paths@) =~= seq![dir@]);
            Some(paths)
        },
        None => None,
    }
}

fn write_created(cfg: &Config, paths: &Vec<String>) -> (r: String)
    requires
        paths@.len() >= 1,
    ensures
        r@ == created_text(cfg@, text::views(paths@)),
{
    assert(text::views(paths@).len() == paths@.len());
    if paths.len() == 1 {
        assert(text::views(paths@)[0] == paths@[0]@);
        return both("Created ", paths[0].as_str());
    }
    let mut out = both("Created ", cfg.library_root.as_str());
    let n: usize = paths.len() - 1;
    out.append(count(" and the ", n as u128, " folders inside it").as_str());
    out
}

fn count_folders(cfg: &Config, fields: &Vec<Field>) -> (r: u128)
    ensures
        r as int == folder_count(cfg@, fields@),
{
    let mut total: u128 = 0;
    let mut i: usize = 0;
    assert(fields@.take(0) =~= Seq::<Field>::empty());
    while i < fields.len()
        invariant
            i <= fields@.len(),
            total as int == folder_count(cfg@, fields@.take(i as int)),
            total <= 6 * i,
        decreases fields.len() - i,
    {
        assert(fields@.take(i + 1).drop_last() =~= fields@.take(i as int));
        assert(fields@.take(i + 1).last() == fields@[i as int]);
        if let Some(paths) = paths_for(cfg, fields[i]) {
            assert(text::views(paths@).len() == paths@.len());
            total = total + paths.len() as u128;
        }
        i += 1;
    }
    assert(fields@.take(i as int) =~= fields@);
    total
}

// --------------------------------------------------------------- proceeding

/// The first step is taken off the list.
pub open spec fn begun(a: app::AppView) -> app::AppView {
    app::AppView { todo: a.todo.drop_first(), ..a }
}

/// A reply is owed to `step`.
pub open spec fn awaiting(a: app::AppView, step: app::StepView) -> app::AppView {
    app::AppView { waiting: Some(step), ..a }
}

/// The state, and one thing to be done outside.
pub open spec fn asks(a: app::AppView, step: app::StepView, effect: app::EffectView) -> (
    app::AppView,
    Seq<app::EffectView>,
) {
    (awaiting(a, step), seq![effect])
}

pub open spec fn check_effect(a: app::AppView) -> app::EffectView {
    app::EffectView::Check { root: a.config.library_root, download: a.config.download_dir }
}

/// The locations are looked at again, and then `text` is said.
pub open spec fn rechecks(a: app::AppView, text: Seq<char>) -> (app::AppView, Seq<app::EffectView>) {
    asks(
        app::AppView { todo: seq![app::StepView::Say { text }] + a.todo, ..a },
        app::StepView::Check { clear: true },
        check_effect(a),
    )
}

/// Startup begins on whichever pane has something in it.
pub open spec fn focused(a: app::AppView) -> app::AppView {
    if a.zips.len() == 0 && a.library.len() > 0 {
        app::AppView { focus: Focus::Library, ..a }
    } else {
        a
    }
}

/// What a rescan by hand says.
pub open spec fn rescanned(a: app::AppView) -> app::AppView {
    if a.fs_errors.len() == 0 {
        app::AppView {
            status: counted("Rescanned: "@, a.zips.len() as int, " ZIP file(s), "@) + counted(
                ""@,
                a.totals.parts,
                " part(s) in library"@,
            ),
            ..a
        }
    } else {
        a
    }
}

pub open spec fn readied(a: app::AppView) -> app::AppView {
    if a.fs_errors.len() == 0 {
        app::AppView { status: "Ready"@, ..a }
    } else {
        a
    }
}

/// An outcome is shown on the status line and on the search screen.
pub open spec fn reported(a: app::AppView, text: Seq<char>) -> app::AppView {
    app::AppView {
        status: text,
        search: match a.search {
            Some(s) => Some(app::SearchView { message: text, ..s }),
            None => None,
        },
        ..a
    }
}

/// What a step that only changes what is shown makes of the state.
pub open spec fn shown_by(a: app::AppView, step: app::StepView) -> app::AppView {
    match step {
        app::StepView::Focus => focused(a),
        app::StepView::Rescanned => rescanned(a),
        app::StepView::Ready => readied(a),
        app::StepView::Say { text } => app::AppView { status: text, ..a },
        app::StepView::Report { text } => reported(a, text),
        _ => a,
    }
}

/// The configuration a save writes: from the Settings screen what stands there,
/// from any other what the file is to hold.
pub open spec fn saved_by(a: app::AppView, saving: app::SavingView) -> config::ConfigView {
    match saving {
        app::SavingView::Settings { settings } => settings.draft,
        _ => a.stored,
    }
}

/// The step waits for the reply to its effect.
pub open spec fn is_question(step: app::StepView) -> bool {
    match step {
        app::StepView::Scan => true,
        app::StepView::Watch => true,
        app::StepView::Check { clear } => true,
        app::StepView::Save { saving } => true,
        app::StepView::Browse { start, target } => true,
        app::StepView::List { path } => true,
        _ => false,
    }
}

/// The step hands its effect out and is done.
pub open spec fn is_order(step: app::StepView) -> bool {
    match step {
        app::StepView::Finish { pending } => true,
        app::StepView::Discard { pending } => true,
        app::StepView::Find { query } => true,
        _ => false,
    }
}

/// What a question or an order asks to be done.
pub open spec fn effect_of(a: app::AppView, step: app::StepView) -> app::EffectView {
    match step {
        app::StepView::Watch => app::EffectView::Watch { dir: a.config.download_dir },
        app::StepView::Check { clear } => check_effect(a),
        app::StepView::Save { saving } => app::EffectView::Save {
            cfg: saved_by(a, saving),
            path: a.config_path,
        },
        app::StepView::Browse { start, target } => app::EffectView::Browse { start },
        app::StepView::List { path } => app::EffectView::List { path },
        app::StepView::Finish { pending } => app::EffectView::Finish { pending, cfg: a.config },
        app::StepView::Discard { pending } => app::EffectView::Discard { pending },
        app::StepView::Find { query } => app::EffectView::Find {
            query,
            limit: online::SEARCH_LIMIT as int,
        },
        _ => app::EffectView::Scan { cfg: a.config },
    }
}

/// What starting the next job asks to be done.
pub open spec fn prepare_effect(a: app::AppView, run: app::RunView) -> app::EffectView {
    app::EffectView::Prepare {
        job: run.jobs[0],
        cfg: a.config,
        index: run.done,
        total: run.total,
    }
}

/// The steps that are left, done in order: up to the first that has to wait for
/// a reply, or to the last.
pub open spec fn proceeded(a: app::AppView) -> (app::AppView, Seq<app::EffectView>)
    decreases a.todo.len(), 0int,
{
    if a.todo.len() == 0 {
        (a, Seq::empty())
    } else {
        let step = a.todo[0];
        let b = begun(a);
        if is_question(step) {
            asks(b, step, effect_of(b, step))
        } else if is_order(step) {
            let (c, more) = proceeded(b);
            (c, seq![effect_of(b, step)] + more)
        } else {
            match step {
                app::StepView::CreateOne { field } => match folders_for(b.config, field) {
                    Some(paths) => asks(b, step, app::EffectView::Create { paths }),
                    None => proceeded(b),
                },
                app::StepView::CreateAll { left, made } => if left.len() == 0 {
                    rechecks(b, counted("Created "@, folder_count(b.config, made), " folder(s)"@))
                } else {
                    match folders_for(b.config, left[0]) {
                        Some(paths) => asks(b, step, app::EffectView::Create { paths }),
                        None => rechecks(b, b.status),
                    }
                },
                app::StepView::Job => job_started(b),
                _ => proceeded(shown_by(b, step)),
            }
        }
    }
}

/// The next job of the run is started, or the run ends when there is none left.
pub open spec fn job_started(a: app::AppView) -> (app::AppView, Seq<app::EffectView>)
    decreases a.todo.len(), 1int,
{
    match a.run {
        None => proceeded(a),
        Some(run) => if run.jobs.len() == 0 {
            asks(
                ended(a, run),
                app::StepView::Scan,
                app::EffectView::Scan { cfg: a.config },
            )
        } else {
            let (c, more) = proceeded(under_way(a, run));
            (c, seq![prepare_effect(a, run)] + more)
        },
    }
}

impl App {
    /// Shows what a step that asks nothing has to show.
    fn show(&mut self, step: Step)
        ensures
            final(self)@ == shown_by(old(self)@, step@),
    {
        assert(self@.zips.len() == self.zips@.len());
        assert(self@.library.len() == self.library@.len());
        assert(self@.fs_errors.len() == self.fs_errors@.len());
        match step {
            Step::Focus => {
                // Only at startup — moving focus under the user later would be
                // worse than a dead pane.
                if self.zips.len() == 0 && self.library.len() > 0 {
                    self.focus = Focus::Library;
                }
            },
            Step::Rescanned => {
                if self.fs_errors.len() == 0 {
                    let mut status = count(
                        "Rescanned: ",
                        self.zips.len() as u128,
                        " ZIP file(s), ",
                    );
                    status.append(
                        count("", self.totals.parts as u128, " part(s) in library").as_str(),
                    );
                    self.status = status;
                }
            },
            Step::Ready => {
                if self.fs_errors.len() == 0 {
                    self.status = "Ready".to_string();
                }
            },
            Step::Say { text } => {
                self.status = text;
            },
            Step::Report { text } => {
                if let Some(mut search) = self.search.take() {
                    search.message = text.clone();
                    self.search = Some(search);
                }
                self.status = text;
            },
            _ => {},
        }
    }

    fn check(&self) -> (r: Effect)
        ensures
            r@ == check_effect(self@),
    {
        Effect::Check {
            root: self.config.library_root.clone(),
            download: self.config.download_dir.clone(),
        }
    }

    /// Looks at the locations again, and says `text` in the end.
    fn recheck(&mut self, text: String, out: &mut Vec<Effect>)
        ensures
            final(self)@ == rechecks(old(self)@, text@).0,
            app::all(final(out)@) == app::all(old(out)@) + rechecks(old(self)@, text@).1,
    {
        let effect = self.check();
        emit(out, effect);
        let mut steps: Vec<Step> = Vec::new();
        steps.push(Step::Say { text });
        assert(app::all(steps@) =~= seq![app::StepView::Say { text: text@ }]);
        self.sooner(steps);
        self.waiting = Some(Step::Check { clear: true });
    }

    /// What a question or an order asks to be done.
    fn effect_for(&self, step: &Step) -> (r: Effect)
        requires
            is_question(step@) || is_order(step@),
        ensures
            r@ == effect_of(self@, step@),
    {
        match step {
            Step::Watch => Effect::Watch { dir: self.config.download_dir.clone() },
            Step::Check { clear: _ } => self.check(),
            Step::Save { saving } => {
                let cfg = match saving {
                    Saving::Settings { settings } => settings.draft.clone(),
                    _ => self.stored.clone(),
                };
                Effect::Save { cfg, path: self.config_path.clone() }
            },
            Step::Browse { start, target: _ } => Effect::Browse { start: start.clone() },
            Step::List { path } => Effect::List { path: path.clone() },
            Step::Finish { pending } => Effect::Finish {
                pending: pending.clone(),
                cfg: self.config.clone(),
            },
            Step::Discard { pending } => Effect::Discard { pending: pending.clone() },
            Step::Find { query } => Effect::Find {
                query: query.clone(),
                limit: online::SEARCH_LIMIT,
            },
            _ => Effect::Scan { cfg: self.config.clone() },
        }
    }

    /// Does the steps that are left, in order, up to the first that has to wait
    /// for a reply.
    pub(crate) fn proceed(&mut self, out: &mut Vec<Effect>)
        ensures
            final(self)@ == proceeded(old(self)@).0,
            app::all(final(out)@) == app::all(old(out)@) + proceeded(old(self)@).1,
        decreases old(self).todo@.len(), 0int,
    {
        let ghost a = self@;
        let ghost before = app::all(out@);
        assert(a.todo.len() == self.todo@.len());
        if self.todo.len() == 0 {
            assert(before + Seq::<app::EffectView>::empty() =~= before);
            return;
        }
        assert(a.todo[0] == self.todo@[0]@);
        let step = self.todo.remove(0);
        assert(self@.todo =~= a.todo.drop_first());
        let ghost b = self@;
        assert(b == begun(a));
        if question(&step) {
            let effect = self.effect_for(&step);
            emit(out, effect);
            self.waiting = Some(step);
        } else if order(&step) {
            let effect = self.effect_for(&step);
            emit(out, effect);
            self.proceed(out);
            assert(app::all(out@) =~= before + (seq![effect@] + proceeded(b).1));
        } else {
            self.act(step, out);
        }
    }

    /// Does one step that is no plain question and no order, and what follows.
    fn act(&mut self, step: Step, out: &mut Vec<Effect>)
        requires
            !is_question(step@),
            !is_order(step@),
        ensures
            ({
                let b = old(self)@;
                let r = match step@ {
                    app::StepView::CreateOne { field } => match folders_for(b.config, field) {
                        Some(paths) => asks(b, step@, app::EffectView::Create { paths }),
                        None => proceeded(b),
                    },
                    app::StepView::CreateAll { left, made } => if left.len() == 0 {
                        rechecks(
                            b,
                            counted("Created "@, folder_count(b.config, made), " folder(s)"@),
                        )
                    } else {
                        match folders_for(b.config, left[0]) {
                            Some(paths) => asks(b, step@, app::EffectView::Create { paths }),
                            None => rechecks(b, b.status),
                        }
                    },
                    app::StepView::Job => job_started(b),
                    _ => proceeded(shown_by(b, step@)),
                };
                final(self)@ == r.0 && app::all(final(out)@) == app::all(old(out)@) + r.1
            }),
        decreases old(self).todo@.len(), 2int,
    {
        match step {
            Step::CreateOne { field } => {
                match paths_for(&self.config, field) {
                    Some(paths) => {
                        emit(out, Effect::Create { paths });
                        self.waiting = Some(Step::CreateOne { field });
                    },
                    None => {
                        self.proceed(out);
                    },
                }
            },
            Step::CreateAll { left, made } => {
                if left.len() == 0 {
                    let n = count_folders(&self.config, &made);
                    self.recheck(count("Created ", n, " folder(s)"), out);
                } else {
                    match paths_for(&self.config, left[0]) {
                        Some(paths) => {
                            emit(out, Effect::Create { paths });
                            self.waiting = Some(Step::CreateAll { left, made });
                        },
                        None => {
                            self.recheck(self.status.clone(), out);
                        },
                    }
                }
            },
            Step::Job => self.next_job(out),
            other => {
                self.show(other);
                assert(self@.todo.len() == self.todo@.len());
                self.proceed(out);
            },
        }
    }

    /// Starts unpacking the next job, or finishes the run when there are none
    /// left. Unpacking never writes to the library.
    fn next_job(&mut self, out: &mut Vec<Effect>)
        ensures
            final(self)@ == job_started(old(self)@).0,
            app::all(final(out)@) == app::all(old(out)@) + job_started(old(self)@).1,
        decreases old(self).todo@.len(), 1int,
    {
        let ghost a = self@;
        let ghost before = app::all(out@);
        match self.run.take() {
            None => {
                assert(self@ == a);
                self.proceed(out);
            },
            Some(taken) => {
                let ghost seen = taken@;
                let mut run = taken;
                assert(seen.jobs.len() == run.jobs@.len());
                if run.jobs.len() == 0 {
                    self.import = None;
                    let mut steps: Vec<Step> = Vec::new();
                    if run.total > 1 {
                        steps.push(Step::Say { text: write_tally(&run) });
                    }
                    assert(app::all(steps@) =~= closing(seen));
                    self.sooner(steps);
                    assert(self@ =~= ended(a, seen));
                    emit(out, Effect::Scan { cfg: self.config.clone() });
                    self.waiting = Some(Step::Scan);
                } else {
                    assert(seen.jobs[0] == run.jobs@[0]@);
                    let job = run.jobs.remove(0);
                    assert(run@.jobs =~= seen.jobs.drop_first());
                    let label = job.label();
                    self.import = Some(
                        ImportState {
                            name: step_label(run.done, run.total, label.as_str()),
                            part: run.done as u128,
                            whole: run.total as u128,
                        },
                    );
                    let index: usize = run.done;
                    let total: usize = run.total;
                    self.run = Some(run);
                    assert(self@ =~= under_way(a, seen));
                    let effect = Effect::Prepare { job, cfg: self.config.clone(), index, total };
                    emit(out, effect);
                    self.proceed(out);
                    assert(app::all(out@) =~= before + (seq![prepare_effect(a, seen)] + proceeded(
                        under_way(a, seen),
                    ).1));
                }
            },
        }
    }
}

fn question(step: &Step) -> (r: bool)
    ensures
        r == is_question(step@),
{
    match step {
        Step::Scan => true,
        Step::Watch => true,
        Step::Check { clear: _ } => true,
        Step::Save { saving: _ } => true,
        Step::Browse { start: _, target: _ } => true,
        Step::List { path: _ } => true,
        _ => false,
    }
}

fn order(step: &Step) -> (r: bool)
    ensures
        r == is_order(step@),
{
    match step {
        Step::Finish { pending: _ } => true,
        Step::Discard { pending: _ } => true,
        Step::Find { query: _ } => true,
        _ => false,
    }
}

pub(crate) fn emit(out: &mut Vec<Effect>, effect: Effect)
    ensures
        app::all(final(out)@) == app::all(old(out)@) + seq![effect@],
{
    let ghost was = app::all(out@);
    out.push(effect);
    assert(app::all(out@) =~= was + seq![effect@]);
}

// ------------------------------------------------------------------ replies

/// The reply is one to what was asked.
pub open spec fn fits(waiting: Option<app::StepView>, reply: app::ReplyView) -> bool {
    match waiting {
        None => false,
        Some(step) => match reply {
            app::ReplyView::Scanned(_) => step is Scan,
            app::ReplyView::Watching(_) => step is Watch,
            app::ReplyView::Checked { root, download } => step is Check,
            app::ReplyView::Saved(_) => step is Save,
            app::ReplyView::Created(_) => step is CreateOne || (step matches app::StepView::CreateAll {
                left,
                made,
            } && left.len() > 0),
            app::ReplyView::Opened { cwd, listing } => step is Browse,
            app::ReplyView::Listed(_) => step is List,
        },
    }
}

/// The state with steps to be done before those that are left already.
pub open spec fn first(a: app::AppView, steps: Seq<app::StepView>) -> app::AppView {
    app::AppView { todo: steps + a.todo, ..a }
}

/// The watcher could not be set up.
pub open spec fn unwatched(a: app::AppView, e: Seq<char>) -> app::AppView {
    app::AppView {
        fs_errors: a.fs_errors.push(e),
        status: "Watch failed: "@ + e,
        ..a
    }
}

/// What a changed configuration asks for: a rescan, a new watch, and a word when
/// all went well.
pub open spec fn reconfigured() -> Seq<app::StepView> {
    seq![app::StepView::Scan, app::StepView::Watch, app::StepView::Ready]
}

/// The state once it is known which locations are missing. With none missing it
/// is the main screen; else the question about the first of them.
pub open spec fn checked(a: app::AppView, clear: bool, missing: Seq<Field>) -> app::AppView {
    if missing.len() == 0 {
        first(
            app::AppView {
                validate: if clear {
                    None
                } else {
                    a.validate
                },
                screen: Screen::Main,
                ..a
            },
            reconfigured(),
        )
    } else {
        app::AppView {
            validate: Some(app::ValidateView { missing, index: 0 }),
            screen: Screen::Validate,
            ..a
        }
    }
}

pub open spec fn unsaved_text(e: Seq<char>) -> Seq<char> {
    "Save failed: "@ + e
}

/// The state with a message on the Projects screen, if it is open.
pub open spec fn with_message(a: app::AppView, text: Seq<char>) -> app::AppView {
    app::AppView {
        projects: match a.projects {
            Some(p) => Some(app::ProjectsView { message: text, ..p }),
            None => None,
        },
        ..a
    }
}

/// The state once a save has been tried.
pub open spec fn saved(
    a: app::AppView,
    saving: app::SavingView,
    r: Result<(), Seq<char>>,
) -> app::AppView {
    let noted = match r {
        Ok(_) => a,
        Err(e) => app::AppView { fs_errors: a.fs_errors.push(e), ..a },
    };
    match saving {
        app::SavingView::Projects => match r {
            Ok(_) => a,
            Err(e) => with_message(noted, unsaved_text(e)),
        },
        app::SavingView::Move { status } => first(
            noted,
            seq![
                app::StepView::Check { clear: false },
                app::StepView::Say {
                    text: match r {
                        Ok(_) => status,
                        Err(e) => unsaved_text(e),
                    },
                },
            ],
        ),
        app::SavingView::Settings { settings } => match r {
            Ok(_) => first(
                app::AppView {
                    config: settings.draft,
                    stored: settings.draft,
                    screen: Screen::Main,
                    status: "Settings saved"@,
                    ..a
                },
                seq![app::StepView::Check { clear: false }],
            ),
            // The draft is handed back rather than the saved configuration, so
            // a failed write does not also discard the edits.
            Err(e) => app::AppView {
                status: unsaved_text(e),
                settings: Some(app::SettingsView { editing: None, dirty: true, ..settings }),
                ..a
            },
        },
        app::SavingView::Validation => first(noted, seq![app::StepView::Check { clear: true }]),
    }
}

/// The state once a folder could not be created.
pub open spec fn uncreated(a: app::AppView, text: Seq<char>) -> app::AppView {
    app::AppView { fs_errors: a.fs_errors.push(text), status: text, ..a }
}

/// The state once the folders of one location have been created, or not.
pub open spec fn created_one(
    a: app::AppView,
    field: Field,
    r: Result<(), (Seq<char>, Seq<char>)>,
) -> app::AppView {
    match r {
        Ok(_) => match folders_for(a.config, field) {
            Some(paths) => {
                let text = created_text(a.config, paths);
                first(
                    app::AppView { status: text, ..a },
                    seq![app::StepView::Check { clear: true }, app::StepView::Say { text }],
                )
            },
            None => a,
        },
        Err(e) => uncreated(a, not_created_text(e.0, e.1)),
    }
}

/// The state once the folders of the first of several locations have been
/// created, or not.
pub open spec fn created_next(
    a: app::AppView,
    left: Seq<Field>,
    made: Seq<Field>,
    r: Result<(), (Seq<char>, Seq<char>)>,
) -> app::AppView {
    match r {
        Ok(_) => match folders_for(a.config, left[0]) {
            Some(paths) => first(
                app::AppView { status: created_text(a.config, paths), ..a },
                seq![
                    app::StepView::CreateAll {
                        left: left.drop_first(),
                        made: made.push(left[0]),
                    },
                ],
            ),
            None => a,
        },
        Err(e) => {
            let text = not_created_text(e.0, e.1);
            first(
                uncreated(a, text),
                seq![app::StepView::Check { clear: true }, app::StepView::Say { text }],
            )
        },
    }
}

/// A folder browser that has just been opened.
pub open spec fn opened(
    cwd: Seq<char>,
    target: crate::picker::Target,
    listing: Result<Seq<picker::SeenView>, Seq<char>>,
) -> picker::PickerView {
    picker::reloaded(
        picker::PickerView { cwd, entries: Seq::empty(), selected: 0, target, error: None },
        listing,
    )
}

/// What a fitting reply makes of the state.
pub open spec fn replied(a: app::AppView, reply: app::ReplyView) -> app::AppView {
    let b = app::AppView { waiting: None, ..a };
    let step = a.waiting->Some_0;
    match reply {
        app::ReplyView::Scanned(found) => panes::refreshed(b, found),
        app::ReplyView::Watching(r) => match r {
            Ok(_) => b,
            Err(e) => unwatched(b, e),
        },
        app::ReplyView::Checked { root, download } => checked(
            b,
            step->clear,
            config::missing(root, download),
        ),
        app::ReplyView::Saved(r) => saved(b, step->saving, r),
        app::ReplyView::Created(r) => match step {
            app::StepView::CreateOne { field } => created_one(b, field, r),
            app::StepView::CreateAll { left, made } => created_next(b, left, made, r),
            _ => b,
        },
        app::ReplyView::Opened { cwd, listing } => app::AppView {
            picker: Some(opened(cwd, step->target, listing)),
            screen: Screen::Picker,
            ..b
        },
        app::ReplyView::Listed(listing) => app::AppView {
            picker: match b.picker {
                Some(p) => Some(picker::reloaded(p, listing)),
                None => None,
            },
            ..b
        },
    }
}

/// The state after a reply, and what is to be done next. A reply to something
/// that was not asked changes nothing.
pub open spec fn answered(a: app::AppView, reply: app::ReplyView) -> (
    app::AppView,
    Seq<app::EffectView>,
) {
    if fits(a.waiting, reply) {
        proceeded(replied(a, reply))
    } else {
        (a, Seq::empty())
    }
}

// ---------------------------------------------------------------- soundness

pub open spec fn is_sound_step(step: app::StepView) -> bool {
    match step {
        app::StepView::Save { saving } => match saving {
            app::SavingView::Settings { settings } => 0 <= settings.cursor < 12,
            _ => true,
        },
        _ => true,
    }
}

/// What every state keeps: the lists show what the filter lets through, and
/// every cursor is on a row of its list.
pub open spec fn is_sound(a: app::AppView) -> bool {
    &&& panes::is_shown(a)
    &&& a.settings matches Some(s) ==> 0 <= s.cursor < 12
    &&& a.picker matches Some(p) ==> picker::is_valid(p)
    &&& a.search matches Some(s) ==> (s.results.len() > 0 ==> 0 <= s.cursor < s.results.len())
    &&& a.waiting matches Some(step) ==> is_sound_step(step)
    &&& forall|i: int| 0 <= i < a.todo.len() ==> is_sound_step(#[trigger] a.todo[i])
}

proof fn lemma_sound_first(a: app::AppView, steps: Seq<app::StepView>)
    requires
        is_sound(a),
        forall|i: int| 0 <= i < steps.len() ==> is_sound_step(#[trigger] steps[i]),
    ensures
        is_sound(first(a, steps)),
{
    let b = first(a, steps);
    assert forall|i: int| 0 <= i < b.todo.len() implies is_sound_step(#[trigger] b.todo[i]) by {
        if i < steps.len() {
            assert(b.todo[i] == steps[i]);
        } else {
            assert(b.todo[i] == a.todo[i - steps.len()]);
        }
    }
}

/// Doing what is left keeps the state sound.
pub(crate) proof fn lemma_sound_proceeded(a: app::AppView)
    requires
        is_sound(a),
    ensures
        is_sound(proceeded(a).0),
    decreases a.todo.len(), 0int,
{
    if a.todo.len() > 0 {
        let step = a.todo[0];
        let b = begun(a);
        assert(is_sound_step(step));
        assert forall|i: int| 0 <= i < b.todo.len() implies is_sound_step(#[trigger] b.todo[i]) by {
            assert(b.todo[i] == a.todo[i + 1]);
        }
        assert(is_sound(b));
        if is_question(step) {
        } else if is_order(step) {
            lemma_sound_proceeded(b);
        } else {
            match step {
                app::StepView::CreateOne { field } => {
                    if folders_for(b.config, field) is None {
                        lemma_sound_proceeded(b);
                    }
                },
                app::StepView::CreateAll { left, made } => {
                    let text = if left.len() == 0 {
                        counted("Created "@, folder_count(b.config, made), " folder(s)"@)
                    } else {
                        b.status
                    };
                    lemma_sound_first(b, seq![app::StepView::Say { text }]);
                },
                app::StepView::Job => {
                    lemma_sound_job(b);
                },
                _ => {
                    let c = shown_by(b, step);
                    assert(c.todo == b.todo);
                    assert(is_sound(c));
                    lemma_sound_proceeded(c);
                    assert(proceeded(a) == proceeded(c));
                },
            }
        }
    }
}

proof fn lemma_sound_job(b: app::AppView)
    requires
        is_sound(b),
    ensures
        is_sound(job_started(b).0),
    decreases b.todo.len(), 1int,
{
    match b.run {
        None => {
            lemma_sound_proceeded(b);
        },
        Some(run) => {
            if run.jobs.len() == 0 {
                let quiet = app::AppView { run: None, import: None, ..b };
                lemma_sound_first(quiet, closing(run));
                assert(ended(b, run) == first(quiet, closing(run)));
            } else {
                lemma_sound_proceeded(under_way(b, run));
            }
        },
    }
}

/// A fitting reply keeps the state sound.
proof fn lemma_sound_replied(a: app::AppView, reply: app::ReplyView)
    requires
        is_sound(a),
        fits(a.waiting, reply),
    ensures
        is_sound(replied(a, reply)),
{
    let b = app::AppView { waiting: None, ..a };
    let step = a.waiting->Some_0;
    assert(is_sound(b));
    match reply {
        app::ReplyView::Scanned(found) => {},
        app::ReplyView::Watching(r) => {},
        app::ReplyView::Checked { root, download } => {
            let c = app::AppView {
                validate: if step->clear {
                    None
                } else {
                    b.validate
                },
                screen: Screen::Main,
                ..b
            };
            lemma_sound_first(c, reconfigured());
        },
        app::ReplyView::Saved(r) => {
            lemma_sound_saved(b, step->saving, r);
        },
        app::ReplyView::Created(r) => {
            match step {
                app::StepView::CreateOne { field } => {
                    if let Some(paths) = folders_for(b.config, field) {
                        let text = created_text(b.config, paths);
                        lemma_sound_first(
                            app::AppView { status: text, ..b },
                            seq![
                                app::StepView::Check { clear: true },
                                app::StepView::Say { text },
                            ],
                        );
                    }
                },
                app::StepView::CreateAll { left, made } => {
                    if let Some(paths) = folders_for(b.config, left[0]) {
                        lemma_sound_first(
                            app::AppView { status: created_text(b.config, paths), ..b },
                            seq![
                                app::StepView::CreateAll {
                                    left: left.drop_first(),
                                    made: made.push(left[0]),
                                },
                            ],
                        );
                    }
                    if let Err(e) = r {
                        let text = not_created_text(e.0, e.1);
                        lemma_sound_first(
                            uncreated(b, text),
                            seq![
                                app::StepView::Check { clear: true },
                                app::StepView::Say { text },
                            ],
                        );
                    }
                },
                _ => {},
            }
        },
        app::ReplyView::Opened { cwd, listing } => {},
        app::ReplyView::Listed(listing) => {},
    }
}

proof fn lemma_sound_saved(a: app::AppView, saving: app::SavingView, r: Result<(), Seq<char>>)
    requires
        is_sound(a),
        is_sound_step(app::StepView::Save { saving }),
    ensures
        is_sound(saved(a, saving, r)),
{
    let noted = match r {
        Ok(_) => a,
        Err(e) => app::AppView { fs_errors: a.fs_errors.push(e), ..a },
    };
    match saving {
        app::SavingView::Projects => {},
        app::SavingView::Move { status } => {
            let text = match r {
                Ok(_) => status,
                Err(e) => unsaved_text(e),
            };
            lemma_sound_first(
                noted,
                seq![app::StepView::Check { clear: false }, app::StepView::Say { text }],
            );
        },
        app::SavingView::Settings { settings } => {
            lemma_sound_first(
                app::AppView {
                    config: settings.draft,
                    stored: settings.draft,
                    screen: Screen::Main,
                    status: "Settings saved"@,
                    ..a
                },
                seq![app::StepView::Check { clear: false }],
            );
        },
        app::SavingView::Validation => {
            lemma_sound_first(noted, seq![app::StepView::Check { clear: true }]);
        },
    }
}

impl App {
    fn note_error(&mut self, e: &str)
        ensures
            final(self)@ == (app::AppView {
                fs_errors: old(self)@.fs_errors.push(e@),
                ..old(self)@
            }),
    {
        let ghost was = self@.fs_errors;
        self.fs_errors.push(e.to_string());
        assert(self@.fs_errors =~= was.push(e@));
    }

    fn on_watching(&mut self, r: Result<(), String>)
        ensures
            final(self)@ == match app::unit_view(r) {
                Ok(_) => old(self)@,
                Err(e) => unwatched(old(self)@, e),
            },
    {
        if let Err(e) = r {
            self.note_error(e.as_str());
            self.status = both("Watch failed: ", e.as_str());
        }
    }

    fn on_checked(&mut self, clear: bool, root: bool, download: bool)
        ensures
            final(self)@ == checked(old(self)@, clear, config::missing(root, download)),
    {
        let missing = self.config.missing_dirs(root, download);
        if missing.len() == 0 {
            if clear {
                self.validate = None;
            }
            self.screen = Screen::Main;
            let mut steps: Vec<Step> = Vec::new();
            steps.push(Step::Scan);
            steps.push(Step::Watch);
            steps.push(Step::Ready);
            assert(app::all(steps@) =~= reconfigured());
            self.sooner(steps);
        } else {
            // A brand-new project's tree does not exist yet. The same prompt
            // that runs at startup asks before anything is created.
            self.validate = Some(Validate { missing, index: 0 });
            self.screen = Screen::Validate;
        }
    }

    fn check_then_say(&mut self, clear: bool, text: String)
        ensures
            final(self)@ == first(
                old(self)@,
                seq![app::StepView::Check { clear }, app::StepView::Say { text: text@ }],
            ),
    {
        let mut steps: Vec<Step> = Vec::new();
        steps.push(Step::Check { clear });
        steps.push(Step::Say { text });
        assert(app::all(steps@) =~= seq![
            app::StepView::Check { clear },
            app::StepView::Say { text: text@ },
        ]);
        self.sooner(steps);
    }

    fn check_only(&mut self, clear: bool)
        ensures
            final(self)@ == first(old(self)@, seq![app::StepView::Check { clear }]),
    {
        let mut steps: Vec<Step> = Vec::new();
        steps.push(Step::Check { clear });
        assert(app::all(steps@) =~= seq![app::StepView::Check { clear }]);
        self.sooner(steps);
    }

    fn on_settings_saved(&mut self, settings: Settings, r: Result<(), String>)
        ensures
            final(self)@ == saved(
                old(self)@,
                app::SavingView::Settings { settings: settings@ },
                app::unit_view(r),
            ),
    {
        match r {
            Ok(_) => {
                self.config = settings.draft.clone();
                self.stored = settings.draft;
                self.screen = Screen::Main;
                self.status = "Settings saved".to_string();
                // A saved path may point somewhere that does not exist yet.
                self.check_only(false);
            },
            Err(e) => {
                self.status = both("Save failed: ", e.as_str());
                self.settings = Some(
                    Settings {
                        cursor: settings.cursor,
                        editing: None,
                        draft: settings.draft,
                        dirty: true,
                        note: settings.note,
                    },
                );
            },
        }
    }

    fn on_projects_saved(&mut self, r: Result<(), String>)
        ensures
            final(self)@ == saved(old(self)@, app::SavingView::Projects, app::unit_view(r)),
    {
        if let Err(e) = r {
            self.note_error(e.as_str());
            if let Some(mut projects) = self.projects.take() {
                projects.message = both("Save failed: ", e.as_str());
                self.projects = Some(projects);
            }
        }
    }

    fn on_saved(&mut self, saving: Saving, r: Result<(), String>)
        ensures
            final(self)@ == saved(old(self)@, saving@, app::unit_view(r)),
    {
        match saving {
            Saving::Projects => self.on_projects_saved(r),
            Saving::Move { status } => {
                let text = match r {
                    Ok(_) => status,
                    Err(e) => {
                        self.note_error(e.as_str());
                        both("Save failed: ", e.as_str())
                    },
                };
                self.check_then_say(false, text);
            },
            Saving::Settings { settings } => self.on_settings_saved(settings, r),
            Saving::Validation => {
                if let Err(e) = r {
                    self.note_error(e.as_str());
                }
                self.check_only(true);
            },
        }
    }

    fn not_created(&mut self, path: &str, e: &str) -> (r: String)
        ensures
            r@ == not_created_text(path@, e@),
            final(self)@ == uncreated(old(self)@, not_created_text(path@, e@)),
    {
        let mut text = both("could not create ", path);
        text.append(": ");
        text.append(e);
        self.note_error(text.as_str());
        self.status = text.clone();
        text
    }

    fn on_created_one(&mut self, field: Field, r: Result<(), (String, String)>)
        ensures
            final(self)@ == created_one(
                old(self)@,
                field,
                match r {
                    Ok(_) => Ok(()),
                    Err(e) => Err((e.0@, e.1@)),
                },
            ),
    {
        match r {
            Ok(_) => {
                if let Some(paths) = paths_for(&self.config, field) {
                    let text = write_created(&self.config, &paths);
                    self.status = text.clone();
                    self.check_then_say(true, text);
                }
            },
            Err(e) => {
                let _ = self.not_created(e.0.as_str(), e.1.as_str());
            },
        }
    }

    fn on_created_next(
        &mut self,
        left: Vec<Field>,
        made: Vec<Field>,
        r: Result<(), (String, String)>,
    )
        requires
            left@.len() > 0,
        ensures
            final(self)@ == created_next(
                old(self)@,
                left@,
                made@,
                match r {
                    Ok(_) => Ok(()),
                    Err(e) => Err((e.0@, e.1@)),
                },
            ),
    {
        match r {
            Ok(_) => {
                if let Some(paths) = paths_for(&self.config, left[0]) {
                    self.status = write_created(&self.config, &paths);
                    let ghost all = left@;
                    let mut rest = left;
                    let mut done = made;
                    let field = rest.remove(0);
                    assert(rest@ =~= all.drop_first());
                    done.push(field);
                    let mut steps: Vec<Step> = Vec::new();
                    steps.push(Step::CreateAll { left: rest, made: done });
                    assert(app::all(steps@) =~= seq![
                        app::StepView::CreateAll {
                            left: all.drop_first(),
                            made: made@.push(all[0]),
                        },
                    ]);
                    self.sooner(steps);
                }
            },
            Err(e) => {
                let text = self.not_created(e.0.as_str(), e.1.as_str());
                self.check_then_say(true, text);
            },
        }
    }

    /// Takes in what came of an effect, and says what is to be done next.
    pub fn reply(&mut self, reply: Reply) -> (out: Vec<Effect>)
        requires
            is_sound(old(self)@),
        ensures
            (final(self)@, app::all(out@)) == answered(old(self)@, reply@),
            is_sound(final(self)@),
    {
        let ghost a = self@;
        let mut out: Vec<Effect> = Vec::new();
        assert(app::all(out@) =~= Seq::<app::EffectView>::empty());
        if !answers(&self.waiting, &reply) {
            return out;
        }
        proof {
            lemma_sound_replied(a, reply@);
            lemma_sound_proceeded(replied(a, reply@));
        }
        self.take_in(reply);
        self.proceed(&mut out);
        assert(app::all(out@) =~= proceeded(replied(a, reply@)).1);
        out
    }

    #[verifier::rlimit(60)]
    fn take_in(&mut self, reply: Reply)
        requires
            fits(old(self)@.waiting, reply@),
        ensures
            final(self)@ == replied(old(self)@, reply@),
    {
        let step = self.waiting.take();
        match reply {
            Reply::Scanned(found) => {
                self.refresh(found);
            },
            Reply::Watching(r) => {
                self.on_watching(r);
            },
            Reply::Checked { root, download } => {
                if let Some(Step::Check { clear }) = step {
                    self.on_checked(clear, root, download);
                }
            },
            Reply::Saved(r) => {
                if let Some(Step::Save { saving }) = step {
                    self.on_saved(saving, r);
                }
            },
            Reply::Created(r) => {
                match step {
                    Some(Step::CreateOne { field }) => {
                        self.on_created_one(field, r);
                    },
                    Some(Step::CreateAll { left, made }) => {
                        self.on_created_next(left, made, r);
                    },
                    _ => {},
                }
            },
            Reply::Opened { cwd, listing } => {
                if let Some(Step::Browse { start: _, target }) = step {
                    self.picker = Some(Picker::new(cwd, target, listing));
                    self.screen = Screen::Picker;
                }
            },
            Reply::Listed(listing) => {
                if let Some(mut picker) = self.picker.take() {
                    picker.reload(listing);
                    self.picker = Some(picker);
                }
            },
        }
    }
}

fn answers(waiting: &Option<Step>, reply: &Reply) -> (r: bool)
    ensures
        r == fits(app::opt(*waiting), reply@),
{
    match waiting {
        None => false,
        Some(step) => match reply {
            Reply::Scanned(_) => match step {
                Step::Scan => true,
                _ => false,
            },
            Reply::Watching(_) => match step {
                Step::Watch => true,
                _ => false,
            },
            Reply::Checked { root: _, download: _ } => match step {
                Step::Check { clear: _ } => true,
                _ => false,
            },
            Reply::Saved(_) => match step {
                Step::Save { saving: _ } => true,
                _ => false,
            },
            Reply::Created(_) => match step {
                Step::CreateOne { field: _ } => true,
                Step::CreateAll { left, made: _ } => left.len() > 0,
                _ => false,
            },
            Reply::Opened { cwd: _, listing: _ } => match step {
                Step::Browse { start: _, target: _ } => true,
                _ => false,
            },
            Reply::Listed(_) => match step {
                Step::List { path: _ } => true,
                _ => false,
            },
        },
    }
}

} // verus!
