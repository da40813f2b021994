//! Settings are written and folders created only because a key asked for it.

use vstd::prelude::*;

use crate::app;
use crate::app::keys;
use crate::app::prompts;
use crate::app::steps;
use crate::app::{Key, KeyPress, Screen};
use crate::config;
use crate::config::Field;
use crate::importer;

verus! {

/// A step that neither saves nor creates.
pub open spec fn is_quiet_step(step: app::StepView) -> bool {
    !(step is Save) && !(step is CreateOne) && !(step is CreateAll)
}

pub open spec fn is_quiet(todo: Seq<app::StepView>) -> bool {
    forall|i: int| 0 <= i < todo.len() ==> is_quiet_step(#[trigger] todo[i])
}

/// Neither the configuration is written nor a folder created.
pub open spec fn leaves_alone(effects: Seq<app::EffectView>) -> bool {
    forall|i: int|
        0 <= i < effects.len() ==> !((#[trigger] effects[i]) is Save) && !(effects[i] is Create)
}

/// No batch of folders is being created.
pub open spec fn is_idle(a: app::AppView) -> bool {
    is_quiet(a.todo) && !(a.waiting matches Some(step) && step is CreateAll)
}

proof fn lemma_join(first: app::EffectView, more: Seq<app::EffectView>)
    requires
        !(first is Save) && !(first is Create),
        leaves_alone(more),
    ensures
        leaves_alone(seq![first] + more),
{
    let whole = seq![first] + more;
    assert forall|i: int| 0 <= i < whole.len() implies !((#[trigger] whole[i]) is Save) && !(
    whole[i] is Create) by {
        if i > 0 {
            assert(whole[i] == more[i - 1]);
        }
    }
}

proof fn lemma_proceed(a: app::AppView)
    requires
        is_idle(a),
    ensures
        leaves_alone(steps::proceeded(a).1),
        is_idle(steps::proceeded(a).0),
    decreases a.todo.len(), 0int,
{
    if a.todo.len() > 0 {
        let step = a.todo[0];
        let b = steps::begun(a);
        assert(is_quiet_step(step));
        assert forall|i: int| 0 <= i < b.todo.len() implies is_quiet_step(#[trigger] b.todo[i]) by {
            assert(b.todo[i] == a.todo[i + 1]);
        }
        if steps::is_question(step) {
        } else if steps::is_order(step) {
            lemma_proceed(b);
            lemma_join(steps::effect_of(b, step), steps::proceeded(b).1);
        } else if step is Job {
            lemma_job(b);
        } else {
            let c = steps::shown_by(b, step);
            assert(c.todo == b.todo && c.waiting == b.waiting);
            lemma_proceed(c);
            assert(steps::proceeded(a) == steps::proceeded(c));
        }
    }
}

proof fn lemma_job(b: app::AppView)
    requires
        is_idle(b),
    ensures
        leaves_alone(steps::job_started(b).1),
        is_idle(steps::job_started(b).0),
    decreases b.todo.len(), 1int,
{
    match b.run {
        None => {
            lemma_proceed(b);
        },
        Some(run) => {
            if run.jobs.len() > 0 {
                let c = steps::under_way(b, run);
                assert(c.todo == b.todo && c.waiting == b.waiting);
                lemma_proceed(c);
                lemma_join(steps::prepare_effect(b, run), steps::proceeded(c).1);
            } else {
                let end = steps::closing(run);
                assert(is_quiet(end));
            }
        },
    }
}

proof fn lemma_done(a: app::AppView, r: Result<importer::SummaryView, Seq<char>>)
    requires
        is_idle(a),
    ensures
        is_idle(steps::after_job(a, r)),
{
    if let Some(run) = a.run {
        assert(is_quiet(steps::reports(run, r)));
    }
}

/// The screens whose keys neither save nor create.
pub open spec fn is_plain_screen(screen: Screen) -> bool {
    screen == Screen::Main || screen == Screen::Search || screen == Screen::Diagnostics || screen
        == Screen::Overwrite
}

proof fn lemma_main_key(a: app::AppView, k: Key)
    requires
        is_idle(a),
    ensures
        is_idle(keys::main_key(a, k)),
{
    reveal(keys::main_key);
}

proof fn lemma_search_key(a: app::AppView, k: Key)
    requires
        is_idle(a),
    ensures
        is_idle(keys::search_key(a, k)),
{
    reveal(keys::search_key);
}

proof fn lemma_diagnostics_key(a: app::AppView, k: Key)
    requires
        is_idle(a),
    ensures
        is_idle(keys::diagnostics_key(a, k)),
{
    reveal(keys::diagnostics_key);
}

proof fn lemma_overwrite_key(a: app::AppView, k: Key)
    requires
        is_idle(a),
    ensures
        is_idle(prompts::overwrite_key(a, k)),
{
    reveal(prompts::overwrite_key);
    if let Some(p) = a.pending {
        if let Some(run) = a.run {
            assert(is_quiet(steps::closing(prompts::run_declined(run))));
        }
    }
}

proof fn lemma_key(a: app::AppView, k: KeyPress)
    requires
        is_idle(a),
        is_plain_screen(a.screen),
    ensures
        is_idle(keys::keyed(a, k)),
{
    reveal(keys::screen_key);
    match a.screen {
        Screen::Main => lemma_main_key(a, k.key),
        Screen::Search => lemma_search_key(a, k.key),
        Screen::Diagnostics => lemma_diagnostics_key(a, k.key),
        _ => lemma_overwrite_key(a, k.key),
    }
}

/// Nothing but a key on the Settings, Projects, Validate or Picker screens leads
/// to the configuration being written or a folder being created.
pub proof fn lemma_only_by_key(a: app::AppView, event: app::EventView)
    requires
        is_idle(a),
        event is Key ==> is_plain_screen(a.screen),
    ensures
        leaves_alone(keys::handled(a, event).1),
        is_idle(keys::handled(a, event).0),
{
    let b = keys::struck(a, event);
    match event {
        app::EventView::Key(k) => {
            if k.press {
                lemma_key(a, k);
            }
        },
        app::EventView::ImportPrepared(r) => {
            if let Err(e) = r {
                lemma_done(a, Err(e));
            }
        },
        app::EventView::ImportDone(r) => {
            lemma_done(a, r);
        },
        _ => {},
    }
    assert(is_idle(b));
    lemma_proceed(b);
}

proof fn lemma_first(a: app::AppView, list: Seq<app::StepView>)
    requires
        is_quiet(a.todo),
        is_quiet(list),
    ensures
        is_quiet(steps::first(a, list).todo),
{
    let whole = steps::first(a, list).todo;
    assert forall|i: int| 0 <= i < whole.len() implies is_quiet_step(#[trigger] whole[i]) by {
        if i < list.len() {
            assert(whole[i] == list[i]);
        } else {
            assert(whole[i] == a.todo[i - list.len()]);
        }
    }
}

/// No reply leads to it either, except that a batch of folders goes on.
pub proof fn lemma_not_by_reply(a: app::AppView, reply: app::ReplyView)
    requires
        is_idle(a),
    ensures
        leaves_alone(steps::answered(a, reply).1),
        is_idle(steps::answered(a, reply).0),
{
    if steps::fits(a.waiting, reply) {
        let b = app::AppView { waiting: None, ..a };
        let step = a.waiting->Some_0;
        match reply {
            app::ReplyView::Checked { root, download } => {
                lemma_first(b, steps::reconfigured());
            },
            app::ReplyView::Saved(r) => {
                match step->saving {
                    app::SavingView::Move { status } => {
                        let text = match r {
                            Ok(_) => status,
                            Err(e) => steps::unsaved_text(e),
                        };
                        lemma_first(
                            b,
                            seq![
                                app::StepView::Check { clear: false },
                                app::StepView::Say { text },
                            ],
                        );
                    },
                    app::SavingView::Settings { settings } => {
                        lemma_first(b, seq![app::StepView::Check { clear: false }]);
                    },
                    app::SavingView::Validation => {
                        lemma_first(b, seq![app::StepView::Check { clear: true }]);
                    },
                    app::SavingView::Projects => {},
                }
            },
            app::ReplyView::Created(r) => {
                if let app::StepView::CreateOne { field } = step {
                    if let Some(paths) = steps::folders_for(b.config, field) {
                        let text = steps::created_text(b.config, paths);
                        lemma_first(
                            b,
                            seq![
                                app::StepView::Check { clear: true },
                                app::StepView::Say { text },
                            ],
                        );
                    }
                }
            },
            _ => {},
        }
        assert(is_idle(steps::replied(a, reply)));
        lemma_proceed(steps::replied(a, reply));
    }
}

/// Starting up writes nothing and creates nothing: what the command line
/// overrides holds for that run, and a missing location is asked about first.
pub proof fn lemma_start(
    cfg: config::ConfigView,
    stored: config::ConfigView,
    config_path: Seq<char>,
    cwd: Seq<char>,
    exe: Seq<char>,
    home: Seq<char>,
    missing: Seq<Field>,
)
    ensures
        ({
            let a = keys::started(cfg, stored, config_path, cwd, exe, home, missing);
            let r = steps::proceeded(a);
            &&& leaves_alone(r.1)
            &&& is_idle(r.0)
            &&& missing.len() > 0 ==> r.1.len() == 0 && r.0.screen == Screen::Validate
        }),
{
    let a = keys::started(cfg, stored, config_path, cwd, exe, home, missing);
    assert(is_idle(a));
    lemma_proceed(a);
}

} // verus!
