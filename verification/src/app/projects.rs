//! The Projects screen: saved library locations, and moving between them.

use vstd::prelude::*;
use vstd::string::*;

use crate::app;
use crate::app::keys;
use crate::app::keys::{either, lengthen, quote, shorten, step_back, step_on};
use crate::app::steps;
use crate::app::steps::{both, count};
use crate::app::{App, Key, KeyPress, Naming, Projects, Saving, Screen, Step};
use crate::config;
use crate::config::{copy_projects, project_name_for};
use crate::picker::Target;
use crate::text;
use crate::text::trimmed;

verus! {

/// The state with the Projects screen changed.
pub open spec fn listing(a: app::AppView, p: app::ProjectsView) -> app::AppView {
    app::AppView { projects: Some(p), ..a }
}

/// The state with `cfg` in use, and its saved projects on file too.
pub open spec fn bookmarked(a: app::AppView, cfg: config::ConfigView) -> app::AppView {
    app::AppView {
        config: cfg,
        stored: config::ConfigView { projects: cfg.projects, ..a.stored },
        ..a
    }
}

/// The state with a save of the locations to be done.
pub open spec fn saving(a: app::AppView) -> app::AppView {
    app::AppView {
        todo: a.todo.push(app::StepView::Save { saving: app::SavingView::Projects }),
        ..a
    }
}

/// The shared tail of every location change: what moved is saved, and then
/// either everything is scanned again or the missing directories are asked for.
pub open spec fn relocated(a: app::AppView, what: Seq<char>, moved: int) -> app::AppView {
    app::AppView {
        projects: None,
        todo: a.todo.push(
            app::StepView::Save {
                saving: app::SavingView::Move {
                    status: what + steps::counted(" — "@, moved, " path(s) moved with it"@),
                },
            },
        ),
        ..a
    }
}

/// `cfg` with one of its projects called `name`.
pub open spec fn renamed(cfg: config::ConfigView, i: int, name: Seq<char>) -> config::ConfigView {
    config::ConfigView {
        projects: cfg.projects.update(i, config::ProjectView { name, ..cfg.projects[i] }),
        ..cfg
    }
}

/// The name that was typed is given: to the project being renamed, or to the
/// current location.
pub open spec fn name_given(
    a: app::AppView,
    p: app::ProjectsView,
    target: Option<int>,
    name: Seq<char>,
) -> app::AppView {
    let plain = app::ProjectsView { naming: None, ..p };
    match target {
        Some(i) => if i < a.config.projects.len() {
            saving(
                listing(
                    bookmarked(a, renamed(a.config, i, name)),
                    app::ProjectsView { message: keys::quoted("Renamed to "@, name, "."@), ..plain },
                ),
            )
        } else {
            saving(listing(a, app::ProjectsView { message: "That project is gone."@, ..plain }))
        },
        None => saving(
            listing(
                bookmarked(a, config::remembered(a.config, name)),
                app::ProjectsView {
                    cursor: config::remembered_at(a.config, name),
                    message: keys::quoted("Saved this location as "@, name, "."@),
                    ..plain
                },
            ),
        ),
    }
}

/// Naming is a text field, so it swallows keys before any shortcut.
pub open spec fn naming_key(
    a: app::AppView,
    p: app::ProjectsView,
    n: app::NamingView,
    k: KeyPress,
) -> app::AppView {
    if k.key == Key::Char('u') && k.control {
        listing(
            a,
            app::ProjectsView {
                naming: Some(app::NamingView { buffer: Seq::empty(), ..n }),
                ..p
            },
        )
    } else {
        match k.key {
            Key::Char(c) => listing(
                a,
                app::ProjectsView {
                    naming: Some(app::NamingView { buffer: n.buffer.push(c), ..n }),
                    ..p
                },
            ),
            Key::Backspace => listing(
                a,
                app::ProjectsView {
                    naming: Some(app::NamingView { buffer: keys::shortened(n.buffer), ..n }),
                    ..p
                },
            ),
            Key::Esc => listing(
                a,
                app::ProjectsView { naming: None, message: "Cancelled."@, ..p },
            ),
            Key::Enter => {
                let name = text::trim(n.buffer);
                if name.len() == 0 {
                    listing(
                        a,
                        app::ProjectsView {
                            naming: Some(n),
                            message: "A project needs a name."@,
                            ..p
                        },
                    )
                } else {
                    name_given(a, p, n.target, name)
                }
            },
            _ => listing(a, app::ProjectsView { naming: Some(n), ..p }),
        }
    }
}

/// The name offered for the current location. Somewhere already saved offers its
/// own, so confirming updates that bookmark instead of adding a duplicate.
pub open spec fn offered_name(cfg: config::ConfigView) -> Seq<char> {
    match config::active(cfg) {
        Some(i) => cfg.projects[i].name,
        None => config::unique_name(cfg, config::suggested_name(cfg.library_root)),
    }
}

/// The bookmark under the cursor is forgotten. The library on disk is untouched.
pub open spec fn forgotten(a: app::AppView, p: app::ProjectsView) -> app::AppView {
    let left = a.config.projects.remove(p.cursor);
    let last = if left.len() > 0 {
        left.len() - 1
    } else {
        0
    };
    saving(
        listing(
            bookmarked(a, config::ConfigView { projects: left, ..a.config }),
            app::ProjectsView {
                cursor: if p.cursor < last {
                    p.cursor
                } else {
                    last
                },
                message: keys::quoted(
                    "Forgot "@,
                    a.config.projects[p.cursor].name,
                    " — its files are untouched."@,
                ),
                ..p
            },
        ),
    )
}

/// The project under the cursor becomes the current location.
pub open spec fn switched(a: app::AppView, p: app::ProjectsView) -> app::AppView {
    if p.cursor < a.config.projects.len() {
        let project = a.config.projects[p.cursor];
        relocated(
            app::AppView {
                config: config::switched(a.config, project),
                stored: config::switched(a.stored, project),
                ..a
            },
            "Switched to "@ + project.name,
            config::switch_moves(a.config, project).len() as int,
        )
    } else {
        listing(
            a,
            app::ProjectsView {
                message: "No projects saved yet — [N] saves this one."@,
                ..p
            },
        )
    }
}

pub open spec fn renaming(a: app::AppView, p: app::ProjectsView) -> app::AppView {
    if p.cursor < a.config.projects.len() {
        listing(
            a,
            app::ProjectsView {
                naming: Some(
                    app::NamingView {
                        buffer: a.config.projects[p.cursor].name,
                        target: Some(p.cursor),
                    },
                ),
                message: "Rename, then press Enter."@,
                ..p
            },
        )
    } else {
        listing(a, app::ProjectsView { message: "Nothing to rename."@, ..p })
    }
}

/// The keys that act on the project under the cursor, or on the location.
pub open spec fn project_key(a: app::AppView, p: app::ProjectsView, k: Key) -> app::AppView {
    let count = a.config.projects.len() as int;
    if is_name_key(k) {
        listing(
            a,
            app::ProjectsView {
                naming: Some(
                    app::NamingView { buffer: offered_name(a.config), target: None },
                ),
                message: "Name this location, then press Enter."@,
                ..p
            },
        )
    } else if keys::is_either(k, 'e', 'E') || k == Key::F(2) {
        renaming(a, p)
    } else if (keys::is_either(k, 'd', 'D') || k == Key::Delete) && p.cursor < count {
        forgotten(a, p)
    } else if keys::is_either(k, 'b', 'B') || k == Key::Char(' ') {
        app::AppView {
            projects: Some(p),
            todo: a.todo.push(
                app::StepView::Browse {
                    start: a.config.library_root,
                    target: Target::ProjectRoot,
                },
            ),
            ..a
        }
    } else if k == Key::Enter {
        switched(a, p)
    } else {
        listing(a, p)
    }
}

pub open spec fn is_name_key(k: Key) -> bool {
    keys::is_either(k, 'n', 'N')
}

pub open spec fn list_key(a: app::AppView, p: app::ProjectsView, k: Key) -> app::AppView {
    let count = a.config.projects.len() as int;
    if k == Key::Esc || k == Key::Char('q') {
        app::AppView { projects: None, screen: Screen::Main, ..a }
    } else if (k == Key::Down || k == Key::Char('j')) && count > 0 {
        listing(a, app::ProjectsView { cursor: keys::next_in(p.cursor, count), ..p })
    } else if (k == Key::Up || k == Key::Char('k')) && count > 0 {
        listing(a, app::ProjectsView { cursor: keys::before_in(p.cursor, count), ..p })
    } else if k == Key::Home {
        listing(a, app::ProjectsView { cursor: 0, ..p })
    } else if k == Key::End {
        listing(a, app::ProjectsView { cursor: if count > 0 {
            count - 1
        } else {
            0
        }, ..p })
    } else {
        project_key(a, p, k)
    }
}

#[verifier::opaque]
pub open spec fn projects_key(a: app::AppView, k: KeyPress) -> app::AppView {
    match a.projects {
        None => app::AppView { screen: Screen::Main, ..a },
        Some(p) => match p.naming {
            Some(n) => naming_key(a, p, n, k),
            None => list_key(a, p, k.key),
        },
    }
}

impl App {
    /// Takes the saved projects over into what the file is to hold.
    pub(crate) fn keep_projects(&mut self)
        ensures
            final(self)@ == bookmarked(old(self)@, old(self)@.config),
    {
        self.stored.projects = copy_projects(&self.config.projects);
    }

    fn save_projects(&mut self)
        ensures
            final(self)@ == saving(old(self)@),
    {
        self.later(Step::Save { saving: Saving::Projects });
    }

    /// The shared tail of every location change.
    pub(crate) fn after_location_change(&mut self, what: &str, moved: usize)
        ensures
            final(self)@ == relocated(old(self)@, what@, moved as int),
    {
        self.projects = None;
        let rest = count(" — ", moved as u128, " path(s) moved with it");
        let status = both(what, rest.as_str());
        self.later(Step::Save { saving: Saving::Move { status } });
    }

    /// Renames a saved project, in use and on file.
    fn call_project(&mut self, i: usize, name: &str)
        requires
            i < old(self)@.config.projects.len(),
        ensures
            final(self)@ == bookmarked(
                old(self)@,
                renamed(old(self)@.config, i as int, name@),
            ),
    {
        let ghost cfg = self@.config;
        let mut project = self.config.projects[i].clone();
        project.name = name.to_string();
        self.config.projects.set(i, project);
        assert(self@.config.projects =~= cfg.projects.update(
            i as int,
            config::ProjectView { name: name@, ..cfg.projects[i as int] },
        ));
        assert(self@.config == renamed(cfg, i as int, name@));
        self.keep_projects();
    }

    /// Saves the current location under `name`, in use and on file.
    fn bookmark(&mut self, name: &str) -> (r: usize)
        ensures
            final(self)@ == bookmarked(
                old(self)@,
                config::remembered(old(self)@.config, name@),
            ),
            r as int == config::remembered_at(old(self)@.config, name@),
    {
        let r: usize = self.config.remember_project(name);
        self.keep_projects();
        r
    }

    fn give_name(&mut self, projects: Projects, target: Option<usize>, name: &str)
        ensures
            final(self)@ == name_given(old(self)@, projects@, app::opt_int(target), name@),
    {
        let ghost a = self@;
        let mut p = projects;
        p.naming = None;
        assert(a.config.projects.len() == self.config.projects@.len());
        match target {
            Some(i) => {
                if i < self.config.projects.len() {
                    self.call_project(i, name);
                    p.message = quote("Renamed to ", name, ".");
                } else {
                    p.message = "That project is gone.".to_string();
                }
            },
            None => {
                p.cursor = self.bookmark(name);
                p.message = quote("Saved this location as ", name, ".");
            },
        }
        self.projects = Some(p);
        self.save_projects();
    }

    fn on_key_naming(&mut self, projects: Projects, naming: Naming, k: KeyPress)
        ensures
            final(self)@ == naming_key(old(self)@, projects@, naming@, k),
    {
        let mut p = projects;
        let mut n = naming;
        if k.key == Key::Char('u') && k.control {
            let none = String::new();
            assert(none@ =~= Seq::<char>::empty());
            n.buffer = none;
            p.naming = Some(n);
            self.projects = Some(p);
            return;
        }
        match k.key {
            Key::Char(c) => {
                n.buffer = lengthen(n.buffer.as_str(), c);
                p.naming = Some(n);
                self.projects = Some(p);
            },
            Key::Backspace => {
                n.buffer = shorten(n.buffer.as_str());
                p.naming = Some(n);
                self.projects = Some(p);
            },
            Key::Esc => {
                p.naming = None;
                p.message = "Cancelled.".to_string();
                self.projects = Some(p);
            },
            Key::Enter => {
                let name = trimmed(n.buffer.as_str());
                if name.as_str().is_empty() {
                    p.message = "A project needs a name.".to_string();
                    p.naming = Some(n);
                    self.projects = Some(p);
                } else {
                    self.give_name(p, n.target, name.as_str());
                }
            },
            _ => {
                p.naming = Some(n);
                self.projects = Some(p);
            },
        }
    }

    fn offer_name(&self) -> (r: String)
        ensures
            r@ == offered_name(self@.config),
    {
        match self.config.active_project() {
            Some(project) => project.name.clone(),
            None => {
                let base = project_name_for(self.config.library_root.as_str());
                self.config.unique_project_name(base.as_str())
            },
        }
    }

    fn forget(&mut self, projects: Projects)
        requires
            projects@.cursor < old(self)@.config.projects.len(),
        ensures
            final(self)@ == forgotten(old(self)@, projects@),
    {
        let ghost a = self@;
        let mut p = projects;
        assert(a.config.projects.len() == self.config.projects@.len());
        assert(a.config.projects[p.cursor as int] == self.config.projects@[p.cursor as int]@);
        let gone = self.config.projects.remove(p.cursor);
        assert(self@.config.projects =~= a.config.projects.remove(p.cursor as int));
        self.keep_projects();
        let left: usize = self.config.projects.len();
        let last: usize = if left > 0 {
            left - 1
        } else {
            0
        };
        if p.cursor >= last {
            p.cursor = last;
        }
        p.message = quote("Forgot ", gone.name.as_str(), " — its files are untouched.");
        self.projects = Some(p);
        self.save_projects();
    }

    fn switch(&mut self, projects: Projects)
        ensures
            final(self)@ == switched(old(self)@, projects@),
    {
        let mut p = projects;
        assert(self@.config.projects.len() == self.config.projects@.len());
        if p.cursor < self.config.projects.len() {
            let project = self.config.projects[p.cursor].clone();
            assert(project@ == self@.config.projects[p.cursor as int]);
            let moved = self.config.switch_to(&project);
            let _ = self.stored.switch_to(&project);
            let what = both("Switched to ", project.name.as_str());
            self.after_location_change(what.as_str(), moved.len());
        } else {
            p.message = "No projects saved yet — [N] saves this one.".to_string();
            self.projects = Some(p);
        }
    }

    fn rename(&mut self, projects: Projects)
        ensures
            final(self)@ == renaming(old(self)@, projects@),
    {
        let mut p = projects;
        assert(self@.config.projects.len() == self.config.projects@.len());
        if p.cursor < self.config.projects.len() {
            p.naming = Some(
                Naming {
                    buffer: self.config.projects[p.cursor].name.clone(),
                    target: Some(p.cursor),
                },
            );
            p.message = "Rename, then press Enter.".to_string();
        } else {
            p.message = "Nothing to rename.".to_string();
        }
        self.projects = Some(p);
    }

    fn on_key_project(&mut self, projects: Projects, k: Key)
        ensures
            final(self)@ == project_key(old(self)@, projects@, k),
    {
        let mut p = projects;
        assert(self@.config.projects.len() == self.config.projects@.len());
        if either(k, 'n', 'N') {
            p.naming = Some(Naming { buffer: self.offer_name(), target: None });
            p.message = "Name this location, then press Enter.".to_string();
            self.projects = Some(p);
        } else if either(k, 'e', 'E') || k == Key::F(2) {
            self.rename(p);
        } else if (either(k, 'd', 'D') || k == Key::Delete) && p.cursor
            < self.config.projects.len() {
            self.forget(p);
        } else if either(k, 'b', 'B') || k == Key::Char(' ') {
            let start = self.config.library_root.clone();
            self.projects = Some(p);
            self.later(Step::Browse { start, target: Target::ProjectRoot });
        } else if k == Key::Enter {
            self.switch(p);
        } else {
            self.projects = Some(p);
        }
    }

    fn on_key_project_list(&mut self, projects: Projects, k: Key)
        ensures
            final(self)@ == list_key(app::AppView { projects: None, ..old(self)@ }, projects@, k),
    {
        self.projects = None;
        let mut p = projects;
        let count: usize = self.config.projects.len();
        assert(self@.config.projects.len() == count);
        if k == Key::Esc || k == Key::Char('q') {
            // The screen is rebuilt from the live configuration next time it is
            // opened.
            self.screen = Screen::Main;
        } else if (k == Key::Down || k == Key::Char('j')) && count > 0 {
            p.cursor = step_on(p.cursor, count);
            self.projects = Some(p);
        } else if (k == Key::Up || k == Key::Char('k')) && count > 0 {
            p.cursor = step_back(p.cursor, count);
            self.projects = Some(p);
        } else if k == Key::Home {
            p.cursor = 0;
            self.projects = Some(p);
        } else if k == Key::End {
            p.cursor = if count > 0 {
                count - 1
            } else {
                0
            };
            self.projects = Some(p);
        } else {
            self.on_key_project(p, k);
        }
    }

    pub(crate) fn on_key_projects(&mut self, k: KeyPress)
        ensures
            final(self)@ == projects_key(old(self)@, k),
    {
        reveal(projects_key);
        let ghost a = self@;
        match self.projects.take() {
            None => {
                self.screen = Screen::Main;
            },
            Some(projects) => {
                let ghost seen = projects@;
                let mut p = projects;
                match p.naming.take() {
                    Some(naming) => {
                        let ghost n = naming@;
                        self.on_key_naming(p, naming, k);
                        proof {
                            lemma_naming(a, seen, app::ProjectsView { naming: None, ..seen }, n, k);
                        }
                    },
                    None => {
                        self.on_key_project_list(p, k.key);
                        proof {
                            lemma_list(a, seen, k.key);
                        }
                    },
                }
            },
        }
    }
}

/// What a key does while a name is typed does not depend on what the screen held
/// before.
proof fn lemma_naming(
    a: app::AppView,
    p: app::ProjectsView,
    q: app::ProjectsView,
    n: app::NamingView,
    k: KeyPress,
)
    requires
        q == (app::ProjectsView { naming: None, ..p }),
    ensures
        naming_key(app::AppView { projects: None, ..a }, q, n, k) == naming_key(a, p, n, k),
{
}

proof fn lemma_list(a: app::AppView, p: app::ProjectsView, k: Key)
    ensures
        list_key(app::AppView { projects: None, ..a }, p, k) == list_key(a, p, k),
{
}

} // verus!
