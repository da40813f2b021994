//! What reaches the config file: what the user chose, and nothing that the
//! command line overrides, unless it is saved from the Settings screen.

use vstd::prelude::*;

use crate::app;
use crate::app::keys;
use crate::app::projects;
use crate::app::prompts;
use crate::app::settings;
use crate::app::steps;
use crate::app::{Key, KeyPress, Screen};
use crate::config;
use crate::picker::Target;
use crate::text;

verus! {

/// Both configurations, the one in use and the one on file, are what they were.
pub open spec fn is_kept(a: app::AppView, b: app::AppView) -> bool {
    b.config == a.config && b.stored == a.stored
}

/// They differ in their saved projects at most.
pub open spec fn same_but_projects(x: config::ConfigView, y: config::ConfigView) -> bool {
    y == config::ConfigView { projects: y.projects, ..x }
}

/// What is written is what the state says the file is to hold, or what stands on
/// the Settings screen it is saved from.
pub open spec fn writes_own(r: (app::AppView, Seq<app::EffectView>)) -> bool {
    forall|i: int|
        0 <= i < r.1.len() ==> ((#[trigger] r.1[i]) matches app::EffectView::Save { cfg, path }
            ==> (r.0.waiting matches Some(step) && step is Save && cfg == steps::saved_by(
            r.0,
            step->saving,
        )))
}

proof fn lemma_joined(first: app::EffectView, r: (app::AppView, Seq<app::EffectView>))
    requires
        !(first is Save),
        writes_own(r),
    ensures
        writes_own((r.0, seq![first] + r.1)),
{
    let whole = seq![first] + r.1;
    assert forall|i: int| 0 <= i < whole.len() implies ((
    #[trigger] whole[i]) matches app::EffectView::Save { cfg, path } ==> (r.0.waiting matches Some(
        step,
    ) && step is Save && cfg == steps::saved_by(r.0, step->saving))) by {
        if i > 0 {
            assert(whole[i] == r.1[i - 1]);
        }
    }
}

/// Doing what is left changes neither configuration, and writes what the state
/// says.
pub proof fn lemma_proceeded(a: app::AppView)
    ensures
        is_kept(a, steps::proceeded(a).0),
        writes_own(steps::proceeded(a)),
    decreases a.todo.len(), 0int,
{
    if a.todo.len() > 0 {
        let step = a.todo[0];
        let b = steps::begun(a);
        if steps::is_question(step) {
        } else if steps::is_order(step) {
            lemma_proceeded(b);
            lemma_joined(steps::effect_of(b, step), steps::proceeded(b));
        } else if step is Job {
            lemma_job(b);
        } else if step is CreateOne {
            if steps::folders_for(b.config, step->CreateOne_field) is None {
                lemma_proceeded(b);
            }
        } else if step is CreateAll {
        } else {
            let c = steps::shown_by(b, step);
            assert(c.todo == b.todo && is_kept(b, c));
            lemma_proceeded(c);
            assert(steps::proceeded(a) == steps::proceeded(c));
        }
    }
}

proof fn lemma_job(b: app::AppView)
    ensures
        is_kept(b, steps::job_started(b).0),
        writes_own(steps::job_started(b)),
    decreases b.todo.len(), 1int,
{
    match b.run {
        None => {
            lemma_proceeded(b);
        },
        Some(run) => {
            if run.jobs.len() > 0 {
                let c = steps::under_way(b, run);
                assert(c.todo == b.todo && is_kept(b, c));
                lemma_proceeded(c);
                lemma_joined(steps::prepare_effect(b, run), steps::proceeded(c));
            }
        },
    }
}

/// The screens whose keys change no configuration.
pub open spec fn is_reading(screen: Screen) -> bool {
    screen != Screen::Projects && screen != Screen::Picker
}

proof fn lemma_main(a: app::AppView, k: Key)
    ensures
        is_kept(a, keys::main_key(a, k)),
{
    reveal(keys::main_key);
}

proof fn lemma_search(a: app::AppView, k: Key)
    ensures
        is_kept(a, keys::search_key(a, k)),
{
    reveal(keys::search_key);
}

proof fn lemma_diagnostics(a: app::AppView, k: Key)
    ensures
        is_kept(a, keys::diagnostics_key(a, k)),
{
    reveal(keys::diagnostics_key);
}

proof fn lemma_settings(a: app::AppView, k: Key)
    ensures
        is_kept(a, settings::settings_key(a, k)),
{
    reveal(settings::settings_key);
}

proof fn lemma_validate(a: app::AppView, k: Key)
    ensures
        is_kept(a, prompts::validate_key(a, k)),
{
    reveal(prompts::validate_key);
}

proof fn lemma_overwrite(a: app::AppView, k: Key)
    ensures
        is_kept(a, prompts::overwrite_key(a, k)),
{
    reveal(prompts::overwrite_key);
}

/// No key changes a configuration but on the Projects screen and where a folder
/// is picked.
pub proof fn lemma_reading(a: app::AppView, k: KeyPress)
    requires
        is_reading(a.screen),
    ensures
        is_kept(a, keys::keyed(a, k)),
{
    reveal(keys::screen_key);
    match a.screen {
        Screen::Main => lemma_main(a, k.key),
        Screen::Search => lemma_search(a, k.key),
        Screen::Diagnostics => lemma_diagnostics(a, k.key),
        Screen::Settings => lemma_settings(a, k.key),
        Screen::Validate => lemma_validate(a, k.key),
        _ => lemma_overwrite(a, k.key),
    }
}

/// Where `a` and `b` started alike but for the configuration in use, they still
/// file alike; and where `a` had its own on file, it still has.
spec fn files_alike(a: app::AppView, b: app::AppView, plain: bool) -> bool {
    &&& same_but_projects(a.stored, b.stored)
    &&& plain ==> a.config == a.stored
}

proof fn lemma_switched(a: app::AppView, b: app::AppView, p: app::ProjectsView)
    requires
        b == (app::AppView { config: b.config, ..a }),
        b.config.projects == a.config.projects,
    ensures
        files_alike(
            projects::switched(a, p),
            projects::switched(b, p),
            a.config == a.stored,
        ),
{
}

proof fn lemma_forgotten(a: app::AppView, b: app::AppView, p: app::ProjectsView)
    requires
        b == (app::AppView { config: b.config, ..a }),
        b.config.projects == a.config.projects,
    ensures
        files_alike(
            projects::forgotten(a, p),
            projects::forgotten(b, p),
            a.config == a.stored,
        ),
{
}

proof fn lemma_named(
    a: app::AppView,
    b: app::AppView,
    p: app::ProjectsView,
    target: Option<int>,
    name: Seq<char>,
)
    requires
        b == (app::AppView { config: b.config, ..a }),
        b.config.projects == a.config.projects,
    ensures
        files_alike(
            projects::name_given(a, p, target, name),
            projects::name_given(b, p, target, name),
            a.config == a.stored,
        ),
{
}

/// The bookmark under the cursor is to be forgotten.
spec fn is_forgotten(a: app::AppView, p: app::ProjectsView, k: Key) -> bool {
    (keys::is_either(k, 'd', 'D') || k == Key::Delete) && p.cursor < a.config.projects.len()
}

proof fn lemma_naming(a: app::AppView, p: app::ProjectsView, n: app::NamingView, k: KeyPress)
    ensures
        if k.key == Key::Enter && text::trim(n.buffer).len() > 0 {
            projects::naming_key(a, p, n, k) == projects::name_given(
                a,
                p,
                n.target,
                text::trim(n.buffer),
            )
        } else {
            is_kept(a, projects::naming_key(a, p, n, k))
        },
{
}

proof fn lemma_listing(a: app::AppView, p: app::ProjectsView, k: Key)
    ensures
        if k == Key::Enter {
            projects::list_key(a, p, k) == projects::switched(a, p)
        } else if is_forgotten(a, p, k) {
            projects::list_key(a, p, k) == projects::forgotten(a, p)
        } else {
            is_kept(a, projects::list_key(a, p, k))
        },
{
}

proof fn lemma_projects(a: app::AppView, b: app::AppView, k: KeyPress)
    requires
        b == (app::AppView { config: b.config, ..a }),
        b.config.projects == a.config.projects,
    ensures
        files_alike(
            projects::projects_key(a, k),
            projects::projects_key(b, k),
            a.config == a.stored,
        ),
{
    reveal(projects::projects_key);
    if let Some(p) = a.projects {
        match p.naming {
            Some(n) => {
                lemma_naming(a, p, n, k);
                lemma_naming(b, p, n, k);
                lemma_named(a, b, p, n.target, text::trim(n.buffer));
            },
            None => {
                lemma_listing(a, p, k.key);
                lemma_listing(b, p, k.key);
                lemma_switched(a, b, p);
                lemma_forgotten(a, b, p);
            },
        }
    }
}

proof fn lemma_picked(a: app::AppView, b: app::AppView, target: Target, chosen: Seq<char>)
    requires
        b == (app::AppView { config: b.config, ..a }),
        b.config.projects == a.config.projects,
    ensures
        files_alike(
            settings::picked(a, target, chosen),
            settings::picked(b, target, chosen),
            a.config == a.stored,
        ),
{
}

proof fn lemma_picking(a: app::AppView, k: Key)
    ensures
        if a.picker is Some && k == Key::Char(' ') {
            settings::picker_key(a, k) == settings::picked(
                app::AppView { picker: None, ..a },
                a.picker->Some_0.target,
                a.picker->Some_0.cwd,
            )
        } else {
            is_kept(a, settings::picker_key(a, k))
        },
{
    reveal(settings::picker_key);
}

proof fn lemma_picker(a: app::AppView, b: app::AppView, k: Key)
    requires
        b == (app::AppView { config: b.config, ..a }),
        b.config.projects == a.config.projects,
    ensures
        files_alike(
            settings::picker_key(a, k),
            settings::picker_key(b, k),
            a.config == a.stored,
        ),
{
    lemma_picking(a, k);
    lemma_picking(b, k);
    if let Some(p) = a.picker {
        lemma_picked(
            app::AppView { picker: None, ..a },
            app::AppView { picker: None, ..b },
            p.target,
            p.cwd,
        );
    }
}

/// What the command line overrides does not reach the file by any key: two runs
/// that differ in nothing but the configuration in use, with the same projects
/// saved, come to write the same, but for a location that is itself saved as a
/// project.
pub proof fn lemma_overrides_unwritten(a: app::AppView, b: app::AppView, k: KeyPress)
    requires
        b == (app::AppView { config: b.config, ..a }),
        b.config.projects == a.config.projects,
    ensures
        same_but_projects(
            steps::proceeded(keys::keyed(a, k)).0.stored,
            steps::proceeded(keys::keyed(b, k)).0.stored,
        ),
        writes_own(steps::proceeded(keys::keyed(a, k))),
{
    lemma_proceeded(keys::keyed(a, k));
    lemma_proceeded(keys::keyed(b, k));
    if is_reading(a.screen) {
        lemma_reading(a, k);
        lemma_reading(b, k);
    } else {
        reveal(keys::screen_key);
        lemma_projects(a, b, k);
        lemma_picker(a, b, k.key);
    }
}

/// Without overrides the file holds what is in use, after every event.
pub proof fn lemma_filed_event(a: app::AppView, event: app::EventView)
    requires
        a.config == a.stored,
    ensures
        keys::handled(a, event).0.config == keys::handled(a, event).0.stored,
        writes_own(keys::handled(a, event)),
{
    let b = keys::struck(a, event);
    if let app::EventView::Key(k) = event {
        if is_reading(a.screen) {
            lemma_reading(a, k);
        } else {
            reveal(keys::screen_key);
            lemma_projects(a, a, k);
            lemma_picker(a, a, k.key);
        }
    }
    lemma_proceeded(b);
}

/// A reply changes a configuration only where one was saved from the Settings
/// screen: then that one is both in use and on file.
pub proof fn lemma_filed_reply(a: app::AppView, reply: app::ReplyView)
    ensures
        is_kept(a, steps::answered(a, reply).0) || (a.waiting matches Some(step)
            && step matches app::StepView::Save { saving }
            && saving matches app::SavingView::Settings { settings }
            && steps::answered(a, reply).0.config == settings.draft
            && steps::answered(a, reply).0.stored == settings.draft),
        writes_own(steps::answered(a, reply)),
{
    if steps::fits(a.waiting, reply) {
        lemma_proceeded(steps::replied(a, reply));
    }
}

} // verus!
