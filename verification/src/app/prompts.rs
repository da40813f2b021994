//! The two questions the application asks: about directories that do not exist,
//! and about files an import would replace.

use vstd::prelude::*;
use vstd::string::*;

use crate::app;
use crate::app::keys;
use crate::app::keys::either;
use crate::app::steps;
use crate::app::steps::{both, bump};
use crate::app::{App, Key, Run, Screen, Step};
use crate::config::Field;
use crate::importer;
use crate::importer::Pending;
use crate::picker::Target;
use crate::text;

verus! {

// --------------------------------------------------------------- validation

#[verifier::opaque]
pub open spec fn validate_key(a: app::AppView, k: Key) -> app::AppView {
    match a.validate {
        None => app::AppView { screen: Screen::Main, ..a },
        Some(v) => if v.index >= v.missing.len() {
            app::AppView { todo: a.todo.push(app::StepView::Check { clear: true }), ..a }
        } else {
            let field = v.missing[v.index];
            if keys::is_either(k, 'y', 'Y') {
                app::AppView { todo: a.todo.push(app::StepView::CreateOne { field }), ..a }
            } else if keys::is_either(k, 'a', 'A') {
                app::AppView {
                    todo: a.todo.push(
                        app::StepView::CreateAll { left: v.missing, made: Seq::empty() },
                    ),
                    ..a
                }
            } else if keys::is_either(k, 'c', 'C') {
                app::AppView {
                    todo: a.todo.push(
                        app::StepView::Browse {
                            start: match field.folder(a.config) {
                                Some(dir) => dir,
                                None => a.home,
                            },
                            target: Target::Validation(field),
                        },
                    ),
                    ..a
                }
            } else if keys::is_either(k, 'q', 'Q') {
                app::AppView { should_quit: true, ..a }
            } else {
                a
            }
        },
    }
}

fn copy_fields(list: &Vec<Field>) -> (r: Vec<Field>)
    ensures
        r@ == list@,
{
    let mut out: Vec<Field> = Vec::new();
    let mut i: usize = 0;
    while i < list.len()
        invariant
            i <= list@.len(),
            out@ == list@.take(i as int),
        decreases list.len() - i,
    {
        out.push(list[i]);
        i += 1;
        assert(out@ =~= list@.take(i as int));
    }
    assert(list@.take(i as int) =~= list@);
    out
}

impl App {
    pub(crate) fn on_key_validate(&mut self, k: Key)
        ensures
            final(self)@ == validate_key(old(self)@, k),
    {
        reveal(validate_key);
        let (field, all) = match &self.validate {
            None => {
                self.screen = Screen::Main;
                return;
            },
            Some(v) => if v.index < v.missing.len() {
                (v.missing[v.index], copy_fields(&v.missing))
            } else {
                self.later(Step::Check { clear: true });
                return;
            },
        };
        if either(k, 'y', 'Y') {
            self.later(Step::CreateOne { field });
        } else if either(k, 'a', 'A') {
            let made: Vec<Field> = Vec::new();
            assert(made@ =~= Seq::<Field>::empty());
            self.later(Step::CreateAll { left: all, made });
        } else if either(k, 'c', 'C') {
            let start = match field.dir(&self.config) {
                Some(dir) => dir.clone(),
                None => self.home.clone(),
            };
            self.later(Step::Browse { start, target: Target::Validation(field) });
        } else if either(k, 'q', 'Q') {
            self.should_quit = true;
        }
    }
}

// -------------------------------------------------------- overwrite prompt

/// The prompt goes away and what it interrupted comes back.
pub open spec fn decided(a: app::AppView) -> app::AppView {
    app::AppView { pending: None, screen: a.behind, ..a }
}

/// The import is placed.
pub open spec fn confirmed(a: app::AppView, p: importer::PendingView) -> app::AppView {
    let b = decided(a);
    app::AppView { todo: b.todo.push(app::StepView::Finish { pending: p }), ..b }
}

/// The run does not ask again.
pub open spec fn unasked(a: app::AppView) -> app::AppView {
    app::AppView {
        run: match a.run {
            Some(run) => Some(app::RunView { overwrite_all: true, ..run }),
            None => None,
        },
        ..a
    }
}

/// A run after one of its jobs was turned down.
pub open spec fn run_declined(run: app::RunView) -> app::RunView {
    app::RunView { skipped: steps::bumped(run.skipped), done: steps::bumped(run.done), ..run }
}

/// This job is turned down, and the next one comes.
pub open spec fn skipped(a: app::AppView, p: importer::PendingView) -> app::AppView {
    let b = decided(a);
    app::AppView {
        run: match b.run {
            Some(run) => Some(run_declined(run)),
            None => None,
        },
        status: "Skipped "@ + importer::pending_label(p) + "; nothing was replaced"@,
        todo: b.todo.push(app::StepView::Discard { pending: p }).push(app::StepView::Job),
        ..b
    }
}

/// This job is turned down and the whole run with it: one overwrite was shown
/// and refused, so ploughing on through the rest would be worse.
pub open spec fn cancelled(a: app::AppView, p: importer::PendingView) -> app::AppView {
    let b = decided(a);
    let said = app::StepView::Say {
        text: "Cancelled at "@ + importer::pending_label(p) + "; the library is unchanged"@,
    };
    match b.run {
        None => app::AppView {
            todo: b.todo.push(app::StepView::Discard { pending: p }).push(said),
            ..b
        },
        Some(run) => app::AppView {
            run: None,
            import: None,
            todo: (b.todo.push(app::StepView::Discard { pending: p }).push(app::StepView::Scan)
                + steps::closing(run_declined(run))).push(said),
            ..b
        },
    }
}

#[verifier::opaque]
pub open spec fn overwrite_key(a: app::AppView, k: Key) -> app::AppView {
    match a.pending {
        None => app::AppView { screen: Screen::Main, ..a },
        Some(p) => if keys::is_either(k, 'y', 'Y') {
            confirmed(a, p)
        } else if keys::is_either(k, 'a', 'A') {
            confirmed(unasked(a), p)
        } else if keys::is_either(k, 's', 'S') {
            skipped(a, p)
        } else if keys::is_either(k, 'n', 'N') || k == Key::Esc || k == Key::Char('q') {
            cancelled(a, p)
        } else {
            // Any other key leaves the question on screen.
            app::AppView { screen: Screen::Overwrite, ..a }
        },
    }
}

fn decline(run: Run) -> (r: Run)
    ensures
        r@ == run_declined(run@),
{
    let mut now = run;
    now.skipped = bump(now.skipped);
    now.done = bump(now.done);
    now
}

impl App {
    fn skip_pending(&mut self, pending: Pending)
        requires
            old(self)@.pending is None,
        ensures
            final(self)@ == skipped(
                app::AppView { pending: Some(pending@), ..old(self)@ },
                pending@,
            ),
    {
        self.screen = self.behind;
        let label = pending.label();
        let mut status = both("Skipped ", label.as_str());
        status.append("; nothing was replaced");
        self.status = status;
        if let Some(run) = self.run.take() {
            self.run = Some(decline(run));
        }
        self.later(Step::Discard { pending });
        self.later(Step::Job);
    }

    fn cancel_pending(&mut self, pending: Pending)
        requires
            old(self)@.pending is None,
        ensures
            final(self)@ == cancelled(
                app::AppView { pending: Some(pending@), ..old(self)@ },
                pending@,
            ),
    {
        self.screen = self.behind;
        let label = pending.label();
        let mut text = both("Cancelled at ", label.as_str());
        text.append("; the library is unchanged");
        self.later(Step::Discard { pending });
        if let Some(run) = self.run.take() {
            let declined = decline(run);
            self.import = None;
            self.later(Step::Scan);
            self.close_run(&declined);
        }
        self.later(Step::Say { text });
    }

    fn on_key_overwrite_choice(&mut self, pending: Pending, k: Key)
        requires
            old(self)@.pending is None,
        ensures
            final(self)@ == overwrite_key(
                app::AppView { pending: Some(pending@), ..old(self)@ },
                k,
            ),
    {
        reveal(overwrite_key);
        if either(k, 'y', 'Y') {
            self.screen = self.behind;
            self.later(Step::Finish { pending });
        } else if either(k, 'a', 'A') {
            self.screen = self.behind;
            if let Some(mut run) = self.run.take() {
                run.overwrite_all = true;
                self.run = Some(run);
            }
            self.later(Step::Finish { pending });
        } else if either(k, 's', 'S') {
            self.skip_pending(pending);
        } else if either(k, 'n', 'N') || k == Key::Esc || k == Key::Char('q') {
            self.cancel_pending(pending);
        } else {
            self.pending = Some(pending);
            self.screen = Screen::Overwrite;
        }
    }

    pub(crate) fn on_key_overwrite(&mut self, k: Key)
        ensures
            final(self)@ == overwrite_key(old(self)@, k),
    {
        reveal(overwrite_key);
        match self.pending.take() {
            None => {
                self.screen = Screen::Main;
            },
            Some(pending) => {
                self.on_key_overwrite_choice(pending, k);
            },
        }
    }
}

} // verus!
