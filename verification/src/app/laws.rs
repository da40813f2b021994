//! What holds of the application as a whole.

use vstd::prelude::*;

use crate::app;
use crate::app::keys;
use crate::app::projects;
use crate::app::prompts;
use crate::app::settings;
use crate::app::steps;
use crate::app::{Key, KeyPress, Screen};
use crate::config;
use crate::config::Field;
use crate::importer;

verus! {

// ------------------------------------------------------- asking before writing

/// No import is about to be placed.
pub open spec fn places_nothing(todo: Seq<app::StepView>) -> bool {
    forall|i: int| 0 <= i < todo.len() ==> !((#[trigger] todo[i]) is Finish)
}

/// What is asked for outside places nothing into the library.
pub open spec fn is_harmless(effects: Seq<app::EffectView>) -> bool {
    forall|i: int| 0 <= i < effects.len() ==> !((#[trigger] effects[i]) is Finish)
}

proof fn lemma_harmless_join(first: app::EffectView, more: Seq<app::EffectView>)
    requires
        !(first is Finish),
        is_harmless(more),
    ensures
        is_harmless(seq![first] + more),
{
    let whole = seq![first] + more;
    assert forall|i: int| 0 <= i < whole.len() implies !((#[trigger] whole[i]) is Finish) by {
        if i > 0 {
            assert(whole[i] == more[i - 1]);
        }
    }
}

proof fn lemma_proceed_harmless(a: app::AppView)
    requires
        places_nothing(a.todo),
    ensures
        is_harmless(steps::proceeded(a).1),
        places_nothing(steps::proceeded(a).0.todo),
    decreases a.todo.len(), 0int,
{
    if a.todo.len() > 0 {
        let step = a.todo[0];
        let b = steps::begun(a);
        assert(!(step is Finish));
        assert forall|i: int| 0 <= i < b.todo.len() implies !((#[trigger] b.todo[i]) is Finish) by {
            assert(b.todo[i] == a.todo[i + 1]);
        }
        if steps::is_question(step) {
        } else if steps::is_order(step) {
            lemma_proceed_harmless(b);
            lemma_harmless_join(steps::effect_of(b, step), steps::proceeded(b).1);
        } else {
            match step {
                app::StepView::CreateOne { field } => {
                    if steps::folders_for(b.config, field) is None {
                        lemma_proceed_harmless(b);
                    }
                },
                app::StepView::CreateAll { left, made } => {},
                app::StepView::Job => {
                    lemma_job_harmless(b);
                },
                _ => {
                    let c = steps::shown_by(b, step);
                    assert(c.todo == b.todo);
                    lemma_proceed_harmless(c);
                    assert(steps::proceeded(a) == steps::proceeded(c));
                },
            }
        }
    }
}

proof fn lemma_job_harmless(b: app::AppView)
    requires
        places_nothing(b.todo),
    ensures
        is_harmless(steps::job_started(b).1),
        places_nothing(steps::job_started(b).0.todo),
    decreases b.todo.len(), 1int,
{
    match b.run {
        None => {
            lemma_proceed_harmless(b);
        },
        Some(run) => {
            if run.jobs.len() > 0 {
                let c = steps::under_way(b, run);
                assert(c.todo == b.todo);
                lemma_proceed_harmless(c);
                lemma_harmless_join(steps::prepare_effect(b, run), steps::proceeded(c).1);
            }
        },
    }
}

proof fn lemma_main_harmless(a: app::AppView, k: Key)
    requires
        places_nothing(a.todo),
    ensures
        places_nothing(keys::main_key(a, k).todo),
{
    reveal(keys::main_key);
}

proof fn lemma_search_harmless(a: app::AppView, k: Key)
    requires
        places_nothing(a.todo),
    ensures
        places_nothing(keys::search_key(a, k).todo),
{
    reveal(keys::search_key);
}

proof fn lemma_settings_harmless(a: app::AppView, k: Key)
    requires
        places_nothing(a.todo),
    ensures
        places_nothing(settings::settings_key(a, k).todo),
        places_nothing(settings::picker_key(a, k).todo),
{
    reveal(settings::settings_key);
    reveal(settings::picker_key);
}

proof fn lemma_projects_harmless(a: app::AppView, k: KeyPress)
    requires
        places_nothing(a.todo),
    ensures
        places_nothing(projects::projects_key(a, k).todo),
{
    reveal(projects::projects_key);
}

proof fn lemma_other_harmless(a: app::AppView, k: Key)
    requires
        places_nothing(a.todo),
    ensures
        places_nothing(prompts::validate_key(a, k).todo),
        places_nothing(keys::diagnostics_key(a, k).todo),
{
    reveal(prompts::validate_key);
    reveal(keys::diagnostics_key);
}

proof fn lemma_overwrite_harmless(a: app::AppView, k: Key)
    requires
        places_nothing(a.todo),
        !(keys::is_either(k, 'y', 'Y') || keys::is_either(k, 'a', 'A')),
    ensures
        places_nothing(prompts::overwrite_key(a, k).todo),
{
    reveal(prompts::overwrite_key);
    if let Some(p) = a.pending {
        if let Some(run) = a.run {
            let end = steps::closing(prompts::run_declined(run));
            assert(places_nothing(end));
        }
    }
}

/// A key on the overwrite prompt that agrees to it.
pub open spec fn is_agreement(a: app::AppView, k: KeyPress) -> bool {
    k.press && a.screen == Screen::Overwrite && a.pending is Some && (keys::is_either(
        k.key,
        'y',
        'Y',
    ) || keys::is_either(k.key, 'a', 'A'))
}

proof fn lemma_key_harmless(a: app::AppView, k: KeyPress)
    requires
        places_nothing(a.todo),
        k.press,
        !is_agreement(a, k),
    ensures
        places_nothing(keys::keyed(a, k).todo),
{
    reveal(keys::screen_key);
    match a.screen {
        Screen::Main => lemma_main_harmless(a, k.key),
        Screen::Settings => lemma_settings_harmless(a, k.key),
        Screen::Picker => lemma_settings_harmless(a, k.key),
        Screen::Diagnostics => lemma_other_harmless(a, k.key),
        Screen::Validate => lemma_other_harmless(a, k.key),
        Screen::Search => lemma_search_harmless(a, k.key),
        Screen::Projects => lemma_projects_harmless(a, k),
        Screen::Overwrite => {
            if a.pending is None {
                reveal(prompts::overwrite_key);
            } else {
                lemma_overwrite_harmless(a, k.key);
            }
        },
    }
}

/// Nothing is placed into the library but by an unpacked import that replaces no
/// file, by one of a run that was told not to ask, or by agreeing to the prompt
/// that names the files.
pub proof fn lemma_asked_first(a: app::AppView, event: app::EventView)
    requires
        places_nothing(a.todo),
        match event {
            app::EventView::Key(k) => !is_agreement(a, k),
            app::EventView::ImportPrepared(Ok(p)) => steps::must_ask(a, p),
            _ => true,
        },
    ensures
        is_harmless(keys::handled(a, event).1),
        places_nothing(keys::handled(a, event).0.todo),
{
    let b = keys::struck(a, event);
    match event {
        app::EventView::Key(k) => {
            if k.press {
                lemma_key_harmless(a, k);
            }
        },
        app::EventView::ImportPrepared(r) => {
            if let Err(e) = r {
                lemma_done_harmless(a, Err(e));
            }
        },
        app::EventView::ImportDone(r) => {
            lemma_done_harmless(a, r);
        },
        _ => {},
    }
    assert(places_nothing(b.todo));
    lemma_proceed_harmless(b);
}

proof fn lemma_done_harmless(
    a: app::AppView,
    r: Result<importer::SummaryView, Seq<char>>,
)
    requires
        places_nothing(a.todo),
    ensures
        places_nothing(steps::after_job(a, r).todo),
{
    if let Some(run) = a.run {
        assert(places_nothing(steps::reports(run, r)));
    }
}

/// Neither does any reply place something.
pub proof fn lemma_reply_harmless(a: app::AppView, reply: app::ReplyView)
    requires
        places_nothing(a.todo),
    ensures
        is_harmless(steps::answered(a, reply).1),
        places_nothing(steps::answered(a, reply).0.todo),
{
    if steps::fits(a.waiting, reply) {
        let b = steps::replied(a, reply);
        lemma_replied_harmless(a, reply);
        lemma_proceed_harmless(b);
    }
}

proof fn lemma_first_harmless(a: app::AppView, list: Seq<app::StepView>)
    requires
        places_nothing(a.todo),
        places_nothing(list),
    ensures
        places_nothing(steps::first(a, list).todo),
{
    let whole = steps::first(a, list).todo;
    assert forall|i: int| 0 <= i < whole.len() implies !((#[trigger] whole[i]) is Finish) by {
        if i < list.len() {
            assert(whole[i] == list[i]);
        } else {
            assert(whole[i] == a.todo[i - list.len()]);
        }
    }
}

proof fn lemma_replied_harmless(a: app::AppView, reply: app::ReplyView)
    requires
        places_nothing(a.todo),
        steps::fits(a.waiting, reply),
    ensures
        places_nothing(steps::replied(a, reply).todo),
{
    let b = app::AppView { waiting: None, ..a };
    let step = a.waiting->Some_0;
    match reply {
        app::ReplyView::Checked { root, download } => {
            lemma_first_harmless(b, steps::reconfigured());
        },
        app::ReplyView::Saved(r) => {
            match step->saving {
                app::SavingView::Move { status } => {
                    let text = match r {
                        Ok(_) => status,
                        Err(e) => steps::unsaved_text(e),
                    };
                    lemma_first_harmless(
                        b,
                        seq![app::StepView::Check { clear: false }, app::StepView::Say { text }],
                    );
                },
                app::SavingView::Settings { settings } => {
                    lemma_first_harmless(b, seq![app::StepView::Check { clear: false }]);
                },
                app::SavingView::Validation => {
                    lemma_first_harmless(b, seq![app::StepView::Check { clear: true }]);
                },
                app::SavingView::Projects => {},
            }
        },
        app::ReplyView::Created(r) => {
            match step {
                app::StepView::CreateOne { field } => {
                    if let Some(paths) = steps::folders_for(b.config, field) {
                        let text = steps::created_text(b.config, paths);
                        lemma_first_harmless(
                            b,
                            seq![
                                app::StepView::Check { clear: true },
                                app::StepView::Say { text },
                            ],
                        );
                    }
                },
                app::StepView::CreateAll { left, made } => {
                    lemma_first_harmless(
                        b,
                        seq![
                            app::StepView::CreateAll {
                                left: left.drop_first(),
                                made: made.push(left[0]),
                            },
                        ],
                    );
                    if let Err(e) = r {
                        let text = steps::not_created_text(e.0, e.1);
                        lemma_first_harmless(
                            b,
                            seq![
                                app::StepView::Check { clear: true },
                                app::StepView::Say { text },
                            ],
                        );
                    }
                },
                _ => {},
            }
        },
        _ => {},
    }
}

/// An import that would replace files is held back, and the prompt names it.
pub proof fn lemma_held_back(a: app::AppView, p: importer::PendingView)
    requires
        a.todo.len() == 0,
        p.conflicts.len() > 0,
        !(a.run is Some && a.run->Some_0.overwrite_all),
    ensures
        keys::handled(a, app::EventView::ImportPrepared(Ok(p))).0.pending == Some(p),
        keys::handled(a, app::EventView::ImportPrepared(Ok(p))).0.screen == Screen::Overwrite,
        keys::handled(a, app::EventView::ImportPrepared(Ok(p))).1.len() == 0,
{
}

/// An import that replaces nothing is not interrupted by the prompt: it is placed
/// at once.
pub proof fn lemma_not_interrupted(a: app::AppView, p: importer::PendingView)
    requires
        a.todo.len() == 0,
        p.conflicts.len() == 0,
    ensures
        keys::handled(a, app::EventView::ImportPrepared(Ok(p))) == (
            a,
            seq![app::EffectView::Finish { pending: p, cfg: a.config }],
        ),
{
    let b = keys::struck(a, app::EventView::ImportPrepared(Ok(p)));
    let c = steps::begun(b);
    assert(c.todo =~= a.todo);
    assert(c =~= a);
    reveal_with_fuel(steps::proceeded, 2);
    assert(seq![app::EffectView::Finish { pending: p, cfg: a.config }] + Seq::<
        app::EffectView,
    >::empty() =~= seq![app::EffectView::Finish { pending: p, cfg: a.config }]);
}

/// Cancelling removes what was staged and rescans; no other job is started and
/// nothing is written.
pub proof fn lemma_cancelled(a: app::AppView, k: KeyPress)
    requires
        a.todo.len() == 0,
        a.screen == Screen::Overwrite,
        a.pending is Some,
        k.press,
        k.key == Key::Esc || keys::is_either(k.key, 'n', 'N'),
    ensures
        keys::handled(a, app::EventView::Key(k)).0.run is None,
        keys::handled(a, app::EventView::Key(k)).0.pending is None,
        keys::handled(a, app::EventView::Key(k)).0.screen == a.behind,
        keys::handled(a, app::EventView::Key(k)).1 == (if a.run is Some {
            seq![
                app::EffectView::Discard { pending: a.pending->Some_0 },
                app::EffectView::Scan { cfg: a.config },
            ]
        } else {
            seq![app::EffectView::Discard { pending: a.pending->Some_0 }]
        }),
{
    reveal(keys::screen_key);
    reveal(prompts::overwrite_key);
    reveal_with_fuel(steps::proceeded, 3);
    let p = a.pending->Some_0;
    let b = keys::struck(a, app::EventView::Key(k));
    assert(b == prompts::cancelled(a, p));
    assert(b.todo[0] == app::StepView::Discard { pending: p });
    let c = steps::begun(b);
    assert(c.todo[0] == b.todo[1]);
    if a.run is Some {
        assert(c.todo[0] == app::StepView::Scan);
        assert(seq![app::EffectView::Discard { pending: p }] + seq![
            app::EffectView::Scan { cfg: a.config },
        ] =~= seq![
            app::EffectView::Discard { pending: p },
            app::EffectView::Scan { cfg: a.config },
        ]);
    } else {
        assert(seq![app::EffectView::Discard { pending: p }] + Seq::<app::EffectView>::empty()
            =~= seq![app::EffectView::Discard { pending: p }]);
    }
}

/// One bad archive does not abandon the rest of the queue: every job that was
/// waiting still is, and the next is to be started.
pub proof fn lemma_goes_on(a: app::AppView, e: Seq<char>)
    requires
        a.run is Some,
    ensures
        steps::after_job(a, Err(e)).run is Some,
        steps::after_job(a, Err(e)).run->Some_0.jobs == a.run->Some_0.jobs,
        steps::after_job(a, Err(e)).run->Some_0.failures == a.run->Some_0.failures.push(e),
        steps::after_job(a, Err(e)).todo.last() == app::StepView::Job,
{
}

// --------------------------------------------------------------- other promises

/// Ctrl-C exits, whatever screen is up and whatever is being typed.
pub proof fn lemma_ctrl_c(a: app::AppView)
    requires
        a.todo.len() == 0,
    ensures
        keys::handled(
            a,
            app::EventView::Key(KeyPress { key: Key::Char('c'), control: true, press: true }),
        ) == (app::AppView { should_quit: true, ..a }, Seq::<app::EffectView>::empty()),
{
}

/// Nothing typed on the Settings screen reaches the configuration before it is
/// saved: the configuration stays, and only `S` asks for a save.
pub proof fn lemma_draft_only(a: app::AppView, k: Key)
    requires
        a.todo.len() == 0,
    ensures
        settings::settings_key(a, k).config == a.config,
        !keys::is_either(k, 's', 'S') || (a.settings matches Some(s) && s.editing is Some) ==> forall|
            i: int,
        |
            0 <= i < settings::settings_key(a, k).todo.len() ==> !((
            #[trigger] settings::settings_key(a, k).todo[i]) is Save),
{
    reveal(settings::settings_key);
}

/// A save that fails loses nothing: the draft comes back, and the configuration
/// is what it was.
pub proof fn lemma_save_failed(a: app::AppView, s: app::SettingsView, e: Seq<char>)
    ensures
        steps::saved(a, app::SavingView::Settings { settings: s }, Err(e)).config == a.config,
        steps::saved(a, app::SavingView::Settings { settings: s }, Err(e)).settings matches Some(t)
            && t.draft == s.draft && t.cursor == s.cursor && t.dirty,
{
}

/// Whatever a path field or the root is set to, the draft's library stays inside
/// its root.
pub proof fn lemma_draft_inside(s: app::SettingsView, field: Field, value: Seq<char>)
    ensures
        forall|f: Field| #[trigger]
            config::inside().contains(f) ==> !config::is_stray(
                settings::field_set(s, field, value).draft,
                f,
            ) && !config::is_stray(settings::root_set(s, value).draft, f),
{
    config::lemma_contained(field.put(s.draft, value));
    config::lemma_contained(config::relocated(s.draft, value));
}

/// Switching to a saved project moves the whole configuration there, in use and
/// on file, and writes it straight away.
pub proof fn lemma_switched(a: app::AppView, p: app::ProjectsView)
    requires
        a.todo.len() == 0,
        0 <= p.cursor < a.config.projects.len(),
    ensures
        ({
            let r = steps::proceeded(projects::switched(a, p));
            &&& r.0.config == config::switched(a.config, a.config.projects[p.cursor])
            &&& r.1 == seq![
                app::EffectView::Save {
                    cfg: config::switched(a.stored, a.config.projects[p.cursor]),
                    path: a.config_path,
                },
            ]
        }),
{
}

/// Forgetting a project removes the bookmark and nothing else: the rest of the
/// configuration stays, and only the configuration is written.
pub proof fn lemma_forgotten(a: app::AppView, p: app::ProjectsView)
    requires
        a.todo.len() == 0,
        0 <= p.cursor < a.config.projects.len(),
    ensures
        ({
            let r = steps::proceeded(projects::forgotten(a, p));
            &&& r.0.config == (config::ConfigView {
                projects: a.config.projects.remove(p.cursor),
                ..a.config
            })
            &&& r.1 == seq![
                app::EffectView::Save {
                    cfg: config::ConfigView {
                        projects: a.config.projects.remove(p.cursor),
                        ..a.stored
                    },
                    path: a.config_path,
                },
            ]
        }),
{
}

} // verus!
