//! What the keys of the main, search and overwrite screens lead to, from the
//! state before a key to the state after it and what is asked for outside.

use vstd::prelude::*;
use vstd::string::*;

use crate::app;
use crate::app::keys;
use crate::app::panes;
use crate::app::projects;
use crate::app::prompts;
use crate::app::settings;
use crate::app::steps;
use crate::app::{Focus, Key, KeyPress, Screen};
use crate::importer;
use crate::manifest;
use crate::online::easyeda;
use crate::text;

verus! {

/// A key pressed on its own.
pub open spec fn plain(key: Key) -> app::EventView {
    app::EventView::Key(KeyPress { key, control: false, press: true })
}

/// The state after a key.
pub open spec fn after(a: app::AppView, key: Key) -> app::AppView {
    keys::handled(a, plain(key)).0
}

/// What a key asks to be done outside.
pub open spec fn asked(a: app::AppView, key: Key) -> Seq<app::EffectView> {
    keys::handled(a, plain(key)).1
}

/// A key changes nothing but what is shown.
pub open spec fn only_shows(a: app::AppView, key: Key, b: app::AppView) -> bool {
    after(a, key) == b && asked(a, key).len() == 0
}

/// A screen waits for a key: nothing is left to be done.
pub open spec fn is_up(a: app::AppView, screen: Screen) -> bool {
    a.screen == screen && a.todo.len() == 0
}

/// The main screen waits for a key, and the filter is not being typed.
pub open spec fn is_home(a: app::AppView) -> bool {
    is_up(a, Screen::Main) && !a.filtering
}

// --------------------------------------------------------------------- runs

/// A run of `total` jobs with nothing done yet and `jobs` still to be started.
pub open spec fn fresh(jobs: Seq<app::JobView>, total: int) -> app::RunView {
    app::RunView {
        jobs,
        total,
        done: 0,
        imported: 0,
        skipped: 0,
        failures: Seq::empty(),
        overwrite_all: false,
    }
}

/// The next job of a run is the first of those that are left. It is prepared
/// with the configuration in use, under its number, and the others stay.
pub proof fn lemma_next_job(a: app::AppView, run: app::RunView)
    requires
        a.todo == seq![app::StepView::Job],
        a.run == Some(run),
        run.jobs.len() > 0,
    ensures
        steps::proceeded(a).1 == seq![
            app::EffectView::Prepare {
                job: run.jobs[0],
                cfg: a.config,
                index: run.done,
                total: run.total,
            },
        ],
        steps::proceeded(a).0 == (app::AppView {
            todo: Seq::empty(),
            run: Some(app::RunView { jobs: run.jobs.drop_first(), ..run }),
            import: steps::proceeded(a).0.import,
            ..a
        }),
{
    reveal_with_fuel(steps::proceeded, 3);
    reveal_with_fuel(steps::job_started, 2);
    let b = steps::begun(a);
    assert(b.todo =~= Seq::empty());
    let c = steps::under_way(b, run);
    let one = seq![steps::prepare_effect(b, run)];
    assert(one + Seq::<app::EffectView>::empty() =~= one);
}

/// What is shown of a job that has just been started: an archive by its name, a
/// catalogue part by its part number with its order number, and its place in the
/// run where there are several.
pub proof fn lemma_shown_job(a: app::AppView, run: app::RunView)
    requires
        run.jobs.len() > 0,
    ensures
        steps::under_way(a, run).import matches Some(shown) && {
            let name = match run.jobs[0] {
                app::JobView::Zip(entry) => entry.display,
                app::JobView::Web(hit) => hit.mpn + " ("@ + hit.id + ")"@,
            };
            &&& shown.part == run.done
            &&& shown.whole == run.total
            &&& run.total == 1 ==> shown.name == name
            &&& run.total > 1 ==> shown.name == "("@ + text::decimal((run.done + 1) as nat) + "/"@
                + text::decimal(run.total as nat) + ") "@ + name
        },
{
}

/// Every job ends the same way for the run: it counts as done, and as imported or
/// as failed. With none left the library is scanned and the run is over.
pub proof fn lemma_job_ended(
    a: app::AppView,
    run: app::RunView,
    outcome: Result<importer::SummaryView, Seq<char>>,
)
    requires
        a.run == Some(run),
        a.todo.len() == 0,
        0 <= run.done < usize::MAX,
        0 <= run.imported < usize::MAX,
    ensures
        ({
            let (b, effects) = keys::handled(a, app::EventView::ImportDone(outcome));
            &&& effects == seq![app::EffectView::Scan { cfg: a.config }]
            &&& b.waiting == Some(app::StepView::Scan)
            &&& b.run matches Some(next) && {
                &&& next.jobs == run.jobs
                &&& next.total == run.total
                &&& next.done == run.done + 1
                &&& next.skipped == run.skipped
                &&& next.overwrite_all == run.overwrite_all
                &&& next.imported == run.imported + if outcome is Ok {
                    1int
                } else {
                    0
                }
                &&& next.failures == match outcome {
                    Ok(_) => run.failures,
                    Err(e) => run.failures.push(e),
                }
            }
            &&& b.todo.last() == app::StepView::Job
            &&& b.fs_errors == match outcome {
                Ok(_) => a.fs_errors,
                Err(e) => a.fs_errors.push(e),
            }
        }),
{
    reveal_with_fuel(steps::proceeded, 2);
    let b = keys::struck(a, app::EventView::ImportDone(outcome));
    assert(b.todo[0] == app::StepView::Scan);
    assert(b.todo.last() == app::StepView::Job);
    assert(steps::begun(b).todo.last() == b.todo.last());
}

/// What a single job says of itself, on the status line and on the search screen:
/// how many symbols, footprints and models were added, or why it failed.
pub proof fn lemma_single_report(
    a: app::AppView,
    run: app::RunView,
    outcome: Result<importer::SummaryView, Seq<char>>,
)
    requires
        a.run == Some(run),
        run.total == 1,
    ensures
        ({
            let words = match outcome {
                Ok(s) => "Added "@ + s.part + (": "@ + text::decimal(s.symbols.len()) + " symbol(s), "@)
                    + (""@ + text::decimal(s.footprints.len()) + " footprint(s), "@) + (""@
                    + text::decimal(s.models.len()) + " model(s)"@),
                Err(e) => "Import failed: "@ + e,
            };
            let report = app::StepView::Report { text: words };
            &&& steps::after_job(a, outcome).todo == a.todo + seq![
                app::StepView::Scan,
                report,
                app::StepView::Job,
            ]
            &&& steps::shown_by(a, report).status == words
            &&& a.search matches Some(s) ==> steps::shown_by(a, report).search == Some(
                app::SearchView { message: words, ..s },
            )
        }),
{
    let todo = steps::after_job(a, outcome).todo;
    let report = steps::reports(run, outcome)[0];
    assert(todo =~= a.todo + seq![app::StepView::Scan, report, app::StepView::Job]);
}

/// What a run of several jobs says in the end.
pub proof fn lemma_tally(a: app::AppView, run: app::RunView)
    requires
        a.todo == seq![app::StepView::Job],
        a.run == Some(run),
        run.jobs.len() == 0,
        run.total > 1,
    ensures
        ({
            let b = steps::proceeded(a).0;
            let head = "Imported "@ + text::decimal(run.imported as nat) + ""@;
            let passed = ""@ + text::decimal(run.skipped as nat) + " skipped"@;
            let lost = ""@ + text::decimal(run.failures.len()) + " failed — see [F12] Diagnostics"@;
            let words = if run.skipped <= 0 && run.failures.len() == 0 {
                head
            } else if run.failures.len() == 0 {
                head + ", "@ + passed
            } else if run.skipped <= 0 {
                head + ", "@ + lost
            } else {
                head + ", "@ + passed + ", "@ + lost
            };
            &&& steps::proceeded(a).1 == seq![app::EffectView::Scan { cfg: a.config }]
            &&& b.run is None
            &&& b.import is None
            &&& b.todo == seq![app::StepView::Say { text: words }]
        }),
{
    reveal_with_fuel(steps::proceeded, 2);
    reveal_with_fuel(steps::job_started, 2);
    let b = steps::begun(a);
    assert(b.todo.len() == 0);
    let sep = ", "@;
    let head = steps::counted("Imported "@, run.imported, ""@);
    let passed = steps::counted(""@, run.skipped, " skipped"@);
    let lost = steps::counted(""@, run.failures.len() as int, " failed — see [F12] Diagnostics"@);
    let one = seq![head];
    assert(text::join(one, sep) == head);
    let two = one.push(passed);
    assert(two.drop_last() =~= one);
    assert(text::join(two, sep) == head + sep + passed);
    let other = one.push(lost);
    assert(other.drop_last() =~= one);
    assert(text::join(other, sep) == head + sep + lost);
    let three = two.push(lost);
    assert(three.drop_last() =~= two);
    assert(text::join(three, sep) == head + sep + passed + sep + lost);
    assert(steps::ended(b, run).todo =~= seq![app::StepView::Say { text: steps::tally(run) }]);
}

// -------------------------------------------------------------- main screen

/// `Enter` or `i` with the queue in focus imports the archive of the selected
/// row, whichever row it is, and no other.
pub proof fn lemma_import_selected(a: app::AppView, row: int, key: Key)
    requires
        is_home(a),
        a.focus == Focus::Queue,
        a.list == Some(row),
        0 <= row < a.queue_view.len(),
        0 <= a.queue_view[row] < a.zips.len(),
        a.run is None,
        key == Key::Enter || key == Key::Char('i'),
    ensures
        keys::struck(a, plain(key)).run == Some(
            fresh(seq![app::JobView::Zip(a.zips[a.queue_view[row]])], 1),
        ),
        asked(a, key) == seq![
            app::EffectView::Prepare {
                job: app::JobView::Zip(a.zips[a.queue_view[row]]),
                cfg: a.config,
                index: 0,
                total: 1,
            },
        ],
        after(a, key).run == Some(fresh(Seq::empty(), 1)),
{
    reveal(keys::screen_key);
    reveal(keys::main_key);
    let jobs = seq![app::JobView::Zip(a.zips[a.queue_view[row]])];
    let b = keys::struck(a, plain(key));
    assert(b.todo =~= seq![app::StepView::Job]);
    lemma_next_job(b, fresh(jobs, 1));
    assert(jobs.drop_first() =~= Seq::empty());
}

proof fn lemma_queue_jobs(a: app::AppView, n: int)
    requires
        0 <= n <= a.queue_view.len(),
        forall|i: int| 0 <= i < a.queue_view.len() ==> 0 <= #[trigger] a.queue_view[i] < a.zips.len(),
    ensures
        keys::queue_jobs(a, n).len() == n,
        forall|i: int|
            0 <= i < n ==> #[trigger] keys::queue_jobs(a, n)[i] == app::JobView::Zip(
                a.zips[a.queue_view[i]],
            ),
    decreases n,
{
    if n > 0 {
        lemma_queue_jobs(a, n - 1);
    }
}

/// `A` imports every archive the queue shows, each once, from the top.
#[verifier::rlimit(40)]
pub proof fn lemma_import_all(a: app::AppView, key: Key)
    requires
        is_home(a),
        a.queue_view.len() > 0,
        forall|i: int| 0 <= i < a.queue_view.len() ==> 0 <= #[trigger] a.queue_view[i] < a.zips.len(),
        a.run is None,
        key == Key::Char('a') || key == Key::Char('A'),
    ensures
        ({
            let n = a.queue_view.len() as int;
            &&& keys::struck(a, plain(key)).run matches Some(run) && {
                &&& run == fresh(run.jobs, n)
                &&& run.jobs.len() == n
                &&& forall|i: int|
                    0 <= i < n ==> #[trigger] run.jobs[i] == app::JobView::Zip(
                        a.zips[a.queue_view[i]],
                    )
                &&& after(a, key).run == Some(fresh(run.jobs.drop_first(), n))
            }
            &&& asked(a, key) == seq![
                app::EffectView::Prepare {
                    job: app::JobView::Zip(a.zips[a.queue_view[0]]),
                    cfg: a.config,
                    index: 0,
                    total: n,
                },
            ]
        }),
{
    reveal(keys::screen_key);
    reveal(keys::main_key);
    let n = a.queue_view.len() as int;
    lemma_queue_jobs(a, n);
    let jobs = keys::queue_jobs(a, n);
    let b = keys::struck(a, plain(key));
    assert(b.todo =~= seq![app::StepView::Job]);
    lemma_next_job(b, fresh(jobs, n));
    assert(jobs[0] == app::JobView::Zip(a.zips[a.queue_view[0]]));
}

/// While one run is under way no other is started, by a key of the main screen or
/// of the search screen.
#[verifier::rlimit(40)]
pub proof fn lemma_one_run(a: app::AppView, key: Key)
    requires
        a.run is Some,
        a.todo.len() == 0,
        a.screen == Screen::Main || a.screen == Screen::Search,
        !(key is F),
    ensures
        after(a, key).run == a.run,
        forall|i: int| 0 <= i < asked(a, key).len() ==> !((#[trigger] asked(a, key)[i]) is Prepare),
{
    reveal(keys::screen_key);
    reveal(keys::main_key);
    reveal(keys::search_key);
    reveal_with_fuel(steps::proceeded, 3);
}

/// In the library there is nothing to import, and an empty queue has nothing to
/// start.
pub proof fn lemma_nothing_to_import(a: app::AppView, key: Key)
    requires
        is_home(a),
        a.focus == Focus::Library && (key == Key::Enter || key == Key::Char('i'))
            || a.queue_view.len() == 0 && (key == Key::Enter || key == Key::Char('i') || key
            == Key::Char('a') || key == Key::Char('A')),
    ensures
        only_shows(a, key, app::AppView { status: after(a, key).status, ..a }),
{
    reveal(keys::screen_key);
    reveal(keys::main_key);
}

/// `Q` leaves the program. `Esc` clears the filter first, where there is one.
pub proof fn lemma_quit(a: app::AppView, key: Key)
    requires
        is_home(a),
        key == Key::Char('q') || key == Key::Char('Q') || key == Key::Esc,
    ensures
        key == Key::Esc && a.filter.len() > 0 ==> !after(a, key).should_quit || a.should_quit,
        key == Key::Esc && a.filter.len() > 0 ==> after(a, key).filter.len() == 0,
        key != Key::Esc || a.filter.len() == 0 ==> only_shows(
            a,
            key,
            app::AppView { should_quit: true, ..a },
        ),
{
    reveal(keys::screen_key);
    reveal(keys::main_key);
}

/// The keys of the main screen that open another one, each with a fresh copy of
/// what it works on.
#[verifier::rlimit(40)]
pub proof fn lemma_openers(a: app::AppView)
    requires
        is_home(a),
        !keys::is_typing(a),
    ensures
        forall|k: Key|
            k == Key::Char('s') || k == Key::Char('S') ==> #[trigger] only_shows(
                a,
                k,
                app::AppView {
                    screen: Screen::Settings,
                    settings: Some(
                        app::SettingsView {
                            cursor: 0,
                            editing: None,
                            draft: a.config,
                            dirty: false,
                            note: Seq::empty(),
                        },
                    ),
                    ..a
                },
            ),
        forall|k: Key|
            k == Key::Char('w') || k == Key::Char('W') ==> #[trigger] only_shows(
                a,
                k,
                app::AppView {
                    screen: Screen::Search,
                    search: Some(
                        app::SearchView {
                            query: Seq::empty(),
                            editing: true,
                            results: Seq::empty(),
                            cursor: 0,
                            searching: false,
                            message: "Type a part number or description, then press Enter."@,
                        },
                    ),
                    ..a
                },
            ),
        forall|k: Key|
            k == Key::Char('p') || k == Key::Char('P') ==> (#[trigger] after(a, k)).screen
                == Screen::Projects && after(a, k).projects is Some && asked(a, k).len() == 0,
        only_shows(
            a,
            Key::F(12),
            app::AppView { screen: Screen::Diagnostics, diag_scroll: 0, ..a },
        ),
        only_shows(a, Key::Char('/'), app::AppView { filtering: true, ..a }),
{
    reveal(keys::screen_key);
    reveal(keys::main_key);
}

/// `F12` opens Diagnostics from every screen where nothing is being typed, and
/// from Diagnostics goes to the main screen. A field being typed into keeps it.
pub proof fn lemma_diagnostics(a: app::AppView)
    requires
        a.todo.len() == 0,
        !keys::is_typing(a),
    ensures
        a.screen != Screen::Diagnostics ==> only_shows(
            a,
            Key::F(12),
            app::AppView { screen: Screen::Diagnostics, diag_scroll: 0, ..a },
        ),
        a.screen == Screen::Diagnostics ==> only_shows(
            a,
            Key::F(12),
            app::AppView { screen: Screen::Main, ..a },
        ),
{
}

/// A field that is being typed into keeps `F12` from opening anything.
pub proof fn lemma_typing_undisturbed(a: app::AppView)
    requires
        a.todo.len() == 0,
    ensures
        a.screen == Screen::Main && a.filtering ==> only_shows(a, Key::F(12), a),
        a.screen == Screen::Search && (a.search matches Some(s) && s.editing) ==> only_shows(
            a,
            Key::F(12),
            a,
        ),
        a.screen == Screen::Settings && (a.settings matches Some(s) && s.editing is Some)
            ==> only_shows(a, Key::F(12), a),
        a.screen == Screen::Projects && (a.projects matches Some(p) && p.naming is Some)
            ==> only_shows(a, Key::F(12), a),
{
    reveal(keys::screen_key);
    reveal(keys::main_key);
    reveal(keys::search_key);
    reveal(settings::settings_key);
    reveal(projects::projects_key);
}

/// A key counts once: letting it go does nothing.
pub proof fn lemma_released(a: app::AppView, k: KeyPress)
    requires
        a.todo.len() == 0,
        !k.press,
    ensures
        keys::handled(a, app::EventView::Key(k)) == (a, Seq::<app::EffectView>::empty()),
{
}

/// `Tab`, and the arrows to the sides, go from one list to the other and back.
pub proof fn lemma_other_list(a: app::AppView, key: Key)
    requires
        is_home(a),
        key == Key::Tab || key == Key::BackTab || key == Key::Left || key == Key::Right,
    ensures
        a.focus == Focus::Queue ==> only_shows(
            a,
            key,
            app::AppView { focus: Focus::Library, ..a },
        ),
        a.focus == Focus::Library ==> only_shows(a, key, app::AppView { focus: Focus::Queue, ..a }),
{
    reveal(keys::screen_key);
    reveal(keys::main_key);
}

/// The row a step of one goes to in a list of `len` rows, around the ends.
pub open spec fn stepped(row: int, len: int, key: Key) -> int {
    if key == Key::Home {
        0
    } else if key == Key::End {
        len - 1
    } else if key == Key::Down || key == Key::Char('j') {
        if row == len - 1 {
            0
        } else {
            row + 1
        }
    } else {
        if row == 0 {
            len - 1
        } else {
            row - 1
        }
    }
}

pub open spec fn is_step(key: Key) -> bool {
    key == Key::Down || key == Key::Char('j') || key == Key::Up || key == Key::Char('k')
}

/// A step of one around the ends of a list.
pub proof fn lemma_around(row: int, len: int)
    requires
        0 <= row < len,
    ensures
        (row + 1) % len == stepped(row, len, Key::Down),
        (row - 1) % len == stepped(row, len, Key::Up),
        (row + -1) % len == stepped(row, len, Key::Up),
        (row + len - 1) % len == stepped(row, len, Key::Up),
{
    if row == len - 1 {
        assert(len % len == 0) by (nonlinear_arith)
            requires
                len > 0,
        ;
    } else {
        vstd::arithmetic::div_mod::lemma_small_mod((row + 1) as nat, len as nat);
    }
    if row == 0 {
        vstd::arithmetic::div_mod::lemma_small_mod((len - 1) as nat, len as nat);
        assert((-1int) % len == len - 1) by (nonlinear_arith)
            requires
                len > 0,
        ;
    } else {
        vstd::arithmetic::div_mod::lemma_small_mod((row - 1) as nat, len as nat);
        vstd::arithmetic::div_mod::lemma_mod_add_multiples_vanish(row - 1, len);
        assert(len + (row - 1) == row + len - 1);
    }
}

/// The arrows, `Home` and `End` move in the list in focus, and the other list
/// stays where it is.
#[verifier::rlimit(40)]
pub proof fn lemma_moves(a: app::AppView, row: int, key: Key)
    requires
        is_home(a),
        is_step(key) || key == Key::Home || key == Key::End,
    ensures
        a.focus == Focus::Queue && a.list == Some(row) && 0 <= row < a.queue_view.len()
            ==> only_shows(
            a,
            key,
            app::AppView { list: Some(stepped(row, a.queue_view.len() as int, key)), ..a },
        ),
        a.focus == Focus::Library && a.library_list == Some(row) && 0 <= row < a.library_view.len()
            ==> only_shows(
            a,
            key,
            app::AppView { library_list: Some(stepped(row, a.library_view.len() as int, key)), ..a },
        ),
{
    reveal(keys::screen_key);
    reveal(keys::main_key);
    if 0 <= row < a.queue_view.len() {
        lemma_around(row, a.queue_view.len() as int);
    }
    if 0 <= row < a.library_view.len() {
        lemma_around(row, a.library_view.len() as int);
    }
}

/// `R` scans again, with the configuration in use, and then says what is there.
pub proof fn lemma_rescan(a: app::AppView, key: Key)
    requires
        is_home(a),
        key == Key::Char('r') || key == Key::Char('R'),
    ensures
        asked(a, key) == seq![app::EffectView::Scan { cfg: a.config }],
        after(a, key) == (app::AppView {
            todo: seq![app::StepView::Rescanned],
            waiting: Some(app::StepView::Scan),
            ..a
        }),
        a.fs_errors.len() == 0 ==> steps::shown_by(a, app::StepView::Rescanned).status
            == "Rescanned: "@ + text::decimal(a.zips.len()) + " ZIP file(s), "@ + (""@
            + text::decimal(a.totals.parts as nat) + " part(s) in library"@),
{
    reveal(keys::screen_key);
    reveal(keys::main_key);
    let b = keys::struck(a, plain(key));
    assert(b.todo[0] == app::StepView::Scan);
    assert(steps::begun(b).todo =~= seq![app::StepView::Rescanned]);
}

// ------------------------------------------------------------------- filter

/// The filter is typed a character at a time. Each one narrows both lists at
/// once; `Esc` brings everything back, and `Enter` leaves the filter standing.
#[verifier::rlimit(40)]
pub proof fn lemma_filter_typed(a: app::AppView, c: char)
    requires
        is_up(a, Screen::Main),
        a.filtering,
        panes::is_shown(a),
    ensures
        ({
            let b = after(a, Key::Char(c));
            &&& b.filter == a.filter.push(c)
            &&& b.filtering
            &&& b.zips == a.zips && b.library == a.library && b.focus == a.focus
            &&& panes::is_shown(b)
            &&& asked(a, Key::Char(c)).len() == 0
        }),
        ({
            let b = after(a, Key::Backspace);
            &&& a.filter.len() > 0 ==> b.filter == a.filter.drop_last()
            &&& b.filtering
            &&& panes::is_shown(b)
        }),
        ({
            let b = after(a, Key::Esc);
            &&& b.filter.len() == 0
            &&& !b.filtering
            &&& b.should_quit == a.should_quit
            &&& panes::is_shown(b)
        }),
        only_shows(a, Key::Enter, app::AppView { filtering: false, ..a }),
{
    reveal(keys::screen_key);
    reveal(keys::main_key);
}

/// A list that changes keeps its selected row where it still has one, goes to its
/// last row where it has become shorter, and has none when it is empty.
pub proof fn lemma_selection_kept(a: app::AppView, c: char)
    requires
        is_up(a, Screen::Main),
        a.filtering,
        panes::is_shown(a),
    ensures
        ({
            let b = after(a, Key::Char(c));
            let n = b.queue_view.len() as int;
            let m = b.library_view.len() as int;
            &&& n == 0 ==> b.list is None
            &&& n > 0 ==> (a.list matches Some(i) ==> b.list == Some(
                if i < n {
                    i
                } else {
                    n - 1
                },
            ))
            &&& n > 0 && a.list is None ==> b.list == Some(0int)
            &&& m == 0 ==> b.library_list is None
            &&& m > 0 ==> (a.library_list matches Some(i) ==> b.library_list == Some(
                if i < m {
                    i
                } else {
                    m - 1
                },
            ))
            &&& m > 0 && a.library_list is None ==> b.library_list == Some(0int)
        }),
{
    reveal(keys::screen_key);
    reveal(keys::main_key);
}

/// A row is shown exactly where what it is called holds the filter's text,
/// whatever the case of either; with no filter every row is.
pub proof fn lemma_shown_rows(a: app::AppView, i: int)
    requires
        panes::is_shown(a),
    ensures
        0 <= i < a.zips.len() ==> (a.queue_view.contains(i) <==> text::contains(
            text::lower(a.zips[i].display),
            text::lower(text::trim(a.filter)),
        )),
        0 <= i < a.library.len() ==> (a.library_view.contains(i) <==> (text::contains(
            text::lower(a.library[i].name),
            text::lower(text::trim(a.filter)),
        ) || text::contains(
            text::lower(a.library[i].source),
            text::lower(text::trim(a.filter)),
        ))),
{
    let needle = text::lower(text::trim(a.filter));
    panes::lemma_matching_zips(a.zips, needle);
    panes::lemma_matching_parts(a.library, needle);
    if needle.len() == 0 {
        if 0 <= i < a.zips.len() {
            lemma_holds_nothing(text::lower(a.zips[i].display), needle);
        }
        if 0 <= i < a.library.len() {
            lemma_holds_nothing(text::lower(a.library[i].name), needle);
        }
    }
}

proof fn lemma_holds_nothing(s: Seq<char>, needle: Seq<char>)
    requires
        needle.len() == 0,
    ensures
        text::contains(s, needle),
{
    assert(s.subrange(0, 0) =~= needle);
    assert(text::occurs_at(s, needle, 0));
}

// ------------------------------------------------------------------- search

/// `Enter` on the result list with the cursor on a row starts a run whose only
/// job is the web job of the result on that row, whichever row it is.
#[verifier::rlimit(40)]
pub proof fn lemma_result_added(a: app::AppView, s: app::SearchView, i: int)
    requires
        is_up(a, Screen::Search),
        a.search == Some(s),
        !s.editing,
        0 <= i < s.results.len(),
        s.cursor == i,
        a.run is None,
    ensures
        keys::struck(a, plain(Key::Enter)).run == Some(
            fresh(seq![app::JobView::Web(s.results[i])], 1),
        ),
        asked(a, Key::Enter) == seq![
            app::EffectView::Prepare {
                job: app::JobView::Web(s.results[i]),
                cfg: a.config,
                index: 0,
                total: 1,
            },
        ],
        after(a, Key::Enter).run == Some(fresh(Seq::empty(), 1)),
        after(a, Key::Enter).screen == Screen::Search,
        after(a, Key::Enter).search == Some(
            app::SearchView {
                message: "Adding "@ + s.results[i].mpn + " ("@ + s.results[i].id + ")..."@,
                ..s
            },
        ),
        after(a, Key::Enter).status == "Downloading "@ + s.results[i].id + "..."@,
{
    reveal(keys::screen_key);
    reveal(keys::search_key);
    let jobs = seq![app::JobView::Web(s.results[i])];
    let b = keys::struck(a, plain(Key::Enter));
    assert(b.todo =~= seq![app::StepView::Job]);
    lemma_next_job(b, fresh(jobs, 1));
    assert(jobs.drop_first() =~= Seq::empty());
}

/// `Enter` in the query box searches the catalogue for what was typed, without
/// the blanks around it. Nothing but blanks asks for nothing, and so does a
/// search that is under way.
#[verifier::rlimit(40)]
pub proof fn lemma_search_run(a: app::AppView, s: app::SearchView)
    requires
        is_up(a, Screen::Search),
        a.search == Some(s),
        s.editing,
    ensures
        text::trim(s.query).len() > 0 && !s.searching ==> {
            &&& asked(a, Key::Enter) == seq![
                app::EffectView::Find { query: text::trim(s.query), limit: 25 },
            ]
            &&& after(a, Key::Enter) == (app::AppView {
                search: Some(
                    app::SearchView {
                        searching: true,
                        message: "Searching for "@ + "\""@ + text::trim(s.query) + "\""@ + "..."@,
                        ..s
                    },
                ),
                ..a
            })
        },
        text::trim(s.query).len() == 0 || s.searching ==> asked(a, Key::Enter).len() == 0,
        a.run == after(a, Key::Enter).run,
{
    reveal(keys::screen_key);
    reveal(keys::search_key);
    reveal_with_fuel(steps::proceeded, 3);
    let b = keys::struck(a, plain(Key::Enter));
    let find = app::EffectView::Find { query: text::trim(s.query), limit: 25 };
    assert(seq![find] + Seq::<app::EffectView>::empty() =~= seq![find]);
    if b.todo.len() > 0 {
        assert(steps::begun(b).todo =~= a.todo);
        assert(steps::begun(b) == (app::AppView { search: b.search, ..a }));
    }
}

/// The query is typed a character at a time, and taken back the same way.
pub proof fn lemma_query_typed(a: app::AppView, s: app::SearchView, c: char)
    requires
        is_up(a, Screen::Search),
        a.search == Some(s),
        s.editing,
    ensures
        only_shows(
            a,
            Key::Char(c),
            app::AppView { search: Some(app::SearchView { query: s.query.push(c), ..s }), ..a },
        ),
        s.query.len() > 0 ==> only_shows(
            a,
            Key::Backspace,
            app::AppView { search: Some(app::SearchView { query: s.query.drop_last(), ..s }), ..a },
        ),
        s.results.len() > 0 ==> only_shows(
            a,
            Key::Down,
            app::AppView { search: Some(app::SearchView { editing: false, ..s }), ..a },
        ),
        only_shows(a, Key::Esc, app::AppView { search: None, screen: Screen::Main, ..a }),
{
    reveal(keys::screen_key);
    reveal(keys::search_key);
}

/// The arrows move through the results, around the ends; `/` goes back to the
/// query, and `Esc` to the main screen.
pub proof fn lemma_results_browsed(a: app::AppView, s: app::SearchView, key: Key)
    requires
        is_up(a, Screen::Search),
        a.search == Some(s),
        !s.editing,
        0 <= s.cursor < s.results.len(),
    ensures
        is_step(key) ==> only_shows(
            a,
            key,
            app::AppView {
                search: Some(
                    app::SearchView {
                        cursor: stepped(s.cursor, s.results.len() as int, key),
                        ..s
                    },
                ),
                ..a
            },
        ),
        only_shows(
            a,
            Key::Char('/'),
            app::AppView { search: Some(app::SearchView { editing: true, ..s }), ..a },
        ),
        only_shows(a, Key::Esc, app::AppView { search: None, screen: Screen::Main, ..a }),
{
    reveal(keys::screen_key);
    reveal(keys::search_key);
    lemma_around(s.cursor, s.results.len() as int);
}

/// What the catalogue answers is what is listed, from its first row, and the
/// list takes the keyboard. A search that failed keeps the results of the last.
pub proof fn lemma_search_answered(
    a: app::AppView,
    s: app::SearchView,
    hits: Seq<easyeda::HitView>,
    e: Seq<char>,
)
    requires
        a.todo.len() == 0,
        a.search == Some(s),
    ensures
        ({
            let (b, effects) = keys::handled(a, app::EventView::SearchDone(Ok(hits)));
            &&& effects.len() == 0
            &&& b.search matches Some(t) && {
                &&& t.results == hits
                &&& t.cursor == 0
                &&& !t.searching
                &&& t.query == s.query
                &&& hits.len() > 0 ==> !t.editing && t.message == ""@ + text::decimal(hits.len())
                    + " result(s)."@
                &&& hits.len() == 0 ==> t.editing == s.editing && t.message == "No results for "@
                    + "\""@ + s.query + "\""@ + "."@
                &&& b == (app::AppView { search: Some(t), ..a })
            }
        }),
        keys::handled(a, app::EventView::SearchDone(Err(e))) == (
            app::AppView {
                search: Some(
                    app::SearchView { searching: false, message: "Search failed: "@ + e, ..s },
                ),
                ..a
            },
            Seq::<app::EffectView>::empty(),
        ),
{
}

/// A result is marked as being in the library where a part came from LCSC under
/// its number, or is called what the result would be called.
pub proof fn lemma_marked(parts: Seq<manifest::PartView>, hit: easyeda::HitView, i: int)
    requires
        0 <= i < parts.len(),
    ensures
        parts[i].source == "LCSC "@ + hit.id ==> panes::has_hit(parts, hit),
        parts[i].name == crate::online::sanitized(hit.mpn) && parts[i].name.len() > 0
            ==> panes::has_hit(parts, hit),
        (forall|k: int|
            0 <= k < parts.len() ==> (#[trigger] parts[k]).source != "LCSC "@ + hit.id
                && parts[k].name != crate::online::sanitized(hit.mpn)) ==> !panes::has_hit(parts, hit),
{
    if parts[i].source == "LCSC "@ + hit.id || (parts[i].name == crate::online::sanitized(hit.mpn)
        && parts[i].name.len() > 0) {
        assert(panes::is_hit(parts[i], hit));
    }
}

// ---------------------------------------------------------------- overwrite

/// An import that would replace files waits for an answer, on a screen of its
/// own, and remembers which screen it interrupted.
pub proof fn lemma_asks(a: app::AppView, p: importer::PendingView)
    requires
        a.todo.len() == 0,
        p.conflicts.len() > 0,
        a.run matches Some(run) ==> !run.overwrite_all,
    ensures
        ({
            let (b, effects) = keys::handled(a, app::EventView::ImportPrepared(Ok(p)));
            &&& effects.len() == 0
            &&& b.screen == Screen::Overwrite
            &&& b.behind == a.screen
            &&& b.pending == Some(p)
            &&& b.run == a.run
            &&& b.config == a.config
            &&& b.status == (if p.part.len() > 0 {
                p.part
            } else {
                p.source
            }) + (" would replace "@ + text::decimal(p.conflicts.len()) + " existing file(s)"@)
        }),
{
}

/// `Y` places this import and goes back; the next one asks again.
pub proof fn lemma_replaced(a: app::AppView, p: importer::PendingView, key: Key)
    requires
        is_up(a, Screen::Overwrite),
        a.pending == Some(p),
        key == Key::Char('y') || key == Key::Char('Y'),
    ensures
        asked(a, key) == seq![app::EffectView::Finish { pending: p, cfg: a.config }],
        after(a, key) == (app::AppView { pending: None, screen: a.behind, ..a }),
{
    reveal(keys::screen_key);
    reveal(prompts::overwrite_key);
    reveal_with_fuel(steps::proceeded, 3);
    let finish = app::EffectView::Finish { pending: p, cfg: a.config };
    assert(seq![finish] + Seq::<app::EffectView>::empty() =~= seq![finish]);
    let b = keys::struck(a, plain(key));
    assert(steps::begun(b).todo =~= a.todo);
    assert(steps::begun(b) == (app::AppView { pending: None, screen: a.behind, ..a }));
}

/// `A` places this import, and the rest of the run asks no more.
pub proof fn lemma_replaced_all(
    a: app::AppView,
    p: importer::PendingView,
    run: app::RunView,
    key: Key,
)
    requires
        is_up(a, Screen::Overwrite),
        a.pending == Some(p),
        a.run == Some(run),
        key == Key::Char('a') || key == Key::Char('A'),
    ensures
        asked(a, key) == seq![app::EffectView::Finish { pending: p, cfg: a.config }],
        after(a, key) == (app::AppView {
            pending: None,
            screen: a.behind,
            run: Some(app::RunView { overwrite_all: true, ..run }),
            ..a
        }),
{
    reveal(keys::screen_key);
    reveal(prompts::overwrite_key);
    reveal_with_fuel(steps::proceeded, 3);
    let finish = app::EffectView::Finish { pending: p, cfg: a.config };
    assert(seq![finish] + Seq::<app::EffectView>::empty() =~= seq![finish]);
    let b = keys::struck(a, plain(key));
    assert(steps::begun(b).todo =~= a.todo);
    assert(steps::begun(b) == (app::AppView {
        pending: None,
        screen: a.behind,
        run: Some(app::RunView { overwrite_all: true, ..run }),
        ..a
    }));
}

/// `S` leaves the library as it is, throws away what was staged, counts the job
/// as skipped, and goes on with the next one.
#[verifier::rlimit(40)]
pub proof fn lemma_skipped(a: app::AppView, p: importer::PendingView, run: app::RunView, key: Key)
    requires
        is_up(a, Screen::Overwrite),
        a.pending == Some(p),
        a.run == Some(run),
        run.jobs.len() > 0,
        0 <= run.done < usize::MAX,
        0 <= run.skipped < usize::MAX,
        key == Key::Char('s') || key == Key::Char('S'),
    ensures
        asked(a, key) == seq![
            app::EffectView::Discard { pending: p },
            app::EffectView::Prepare {
                job: run.jobs[0],
                cfg: a.config,
                index: run.done + 1,
                total: run.total,
            },
        ],
        after(a, key).pending is None,
        after(a, key).screen == a.behind,
        p.part.len() > 0 ==> after(a, key).status == "Skipped "@ + p.part + "; nothing was replaced"@,
        after(a, key).run == Some(
            app::RunView {
                jobs: run.jobs.drop_first(),
                done: run.done + 1,
                skipped: run.skipped + 1,
                ..run
            },
        ),
{
    reveal(keys::screen_key);
    reveal(prompts::overwrite_key);
    reveal_with_fuel(steps::proceeded, 2);
    let b = keys::struck(a, plain(key));
    assert(b.todo[0] == app::StepView::Discard { pending: p });
    let c = steps::begun(b);
    assert(c.todo =~= seq![app::StepView::Job]);
    let next = app::RunView { done: run.done + 1, skipped: run.skipped + 1, ..run };
    lemma_next_job(c, next);
    assert(steps::proceeded(b).1 =~= seq![
        app::EffectView::Discard { pending: p },
        app::EffectView::Prepare {
            job: run.jobs[0],
            cfg: a.config,
            index: run.done + 1,
            total: run.total,
        },
    ]);
}

/// Any other key leaves the question where it is.
pub proof fn lemma_still_asking(a: app::AppView, key: Key)
    requires
        is_up(a, Screen::Overwrite),
        a.pending is Some,
        !(key is Char) && !(key is Esc) && !(key is F),
    ensures
        only_shows(a, key, a),
{
    reveal(keys::screen_key);
    reveal(prompts::overwrite_key);
}

// -------------------------------------------------------------- diagnostics

/// Diagnostics scrolls by a line or by a page, and never past either end.
#[verifier::rlimit(40)]
pub proof fn lemma_scrolled(a: app::AppView, end: int)
    requires
        is_up(a, Screen::Diagnostics),
        end == (if a.diag_lines > a.diag_view {
            a.diag_lines - a.diag_view
        } else {
            0
        }),
        a.diag_scroll <= end,
        a.diag_view > 0,
    ensures
        only_shows(a, Key::Home, app::AppView { diag_scroll: 0, ..a }),
        only_shows(a, Key::End, app::AppView { diag_scroll: end as u16, ..a }),
        a.diag_scroll < end ==> only_shows(
            a,
            Key::Down,
            app::AppView { diag_scroll: (a.diag_scroll + 1) as u16, ..a },
        ),
        a.diag_scroll == end ==> only_shows(a, Key::Down, a),
        a.diag_scroll > 0 ==> only_shows(
            a,
            Key::Up,
            app::AppView { diag_scroll: (a.diag_scroll - 1) as u16, ..a },
        ),
        a.diag_scroll == 0 ==> only_shows(a, Key::Up, a),
        a.diag_scroll + a.diag_view <= end ==> only_shows(
            a,
            Key::PageDown,
            app::AppView { diag_scroll: (a.diag_scroll + a.diag_view) as u16, ..a },
        ),
        a.diag_scroll + a.diag_view > end ==> only_shows(
            a,
            Key::PageDown,
            app::AppView { diag_scroll: end as u16, ..a },
        ),
        a.diag_scroll >= a.diag_view ==> only_shows(
            a,
            Key::PageUp,
            app::AppView { diag_scroll: (a.diag_scroll - a.diag_view) as u16, ..a },
        ),
        a.diag_scroll < a.diag_view ==> only_shows(
            a,
            Key::PageUp,
            app::AppView { diag_scroll: 0, ..a },
        ),
        only_shows(a, Key::Esc, app::AppView { screen: Screen::Main, ..a }),
{
    reveal(keys::screen_key);
    reveal(keys::diagnostics_key);
}

// -------------------------------------------------------------------- watch

/// A change on disk is followed by one rescan, once nothing has changed for
/// three tenths of a second.
#[verifier::rlimit(40)]
pub proof fn lemma_settled(a: app::AppView, at: u64, now: u64)
    requires
        a.todo.len() == 0,
        at <= now,
    ensures
        keys::handled(a, app::EventView::FsChanged { now: at }).0.pending_rescan == Some(at),
        keys::handled(a, app::EventView::FsChanged { now: at }).1.len() == 0,
        a.pending_rescan == Some(at) && now - at >= 300 ==> keys::handled(
            a,
            app::EventView::Tick { now },
        ) == (
            app::AppView { pending_rescan: None, waiting: Some(app::StepView::Scan), ..a },
            seq![app::EffectView::Scan { cfg: a.config }],
        ),
        a.pending_rescan == Some(at) && now - at < 300 ==> keys::handled(
            a,
            app::EventView::Tick { now },
        ) == (a, Seq::<app::EffectView>::empty()),
        a.pending_rescan is None ==> keys::handled(a, app::EventView::Tick { now }) == (
            a,
            Seq::<app::EffectView>::empty(),
        ),
{
    let b = keys::struck(a, app::EventView::Tick { now });
    if b.todo.len() > 0 {
        assert(steps::begun(b).todo =~= a.todo);
        assert(steps::begun(b) == (app::AppView { pending_rescan: None, ..a }));
    }
}

} // verus!
