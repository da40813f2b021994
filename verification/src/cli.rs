//! What the command line does to the configuration, and what the headless modes
//! print.

use vstd::prelude::*;
use vstd::string::*;

use crate::app::steps;
use crate::app::steps::{both, count};
use crate::config;
use crate::config::{resolve_in, Config, Project};
use crate::importer;
use crate::importer::ImportSummary;
use crate::online::easyeda;
use crate::online::easyeda::Hit;
use crate::paths;
use crate::paths::{join_path, parent, same_path};
use crate::text;
use crate::text::joined;
use crate::ui;
use crate::ui::pad;

verus! {

// --------------------------------------------------------------- locations

/// The configuration file: the one that was named, against the working
/// directory, or the default.
pub open spec fn chosen_config(
    named: Option<Seq<char>>,
    cwd: Seq<char>,
    home: Seq<char>,
    usual: Seq<char>,
) -> Seq<char> {
    match named {
        Some(p) => config::resolved(p, cwd, home),
        None => usual,
    }
}

/// The configuration file: the one that was named, against the working
/// directory, or `usual`.
pub fn config_file(named: &Option<String>, cwd: &str, home: &str, usual: String) -> (r: String)
    ensures
        r@ == chosen_config(text::opt_view(*named), cwd@, home@, usual@),
{
    match named {
        Some(p) => resolve_in(p.as_str(), cwd, home),
        None => usual,
    }
}

/// The log sits beside the configuration file.
pub open spec fn log_beside(config_path: Seq<char>, cwd: Seq<char>) -> Seq<char> {
    paths::below(
        match paths::parent_of(config_path) {
            Some(dir) => dir,
            None => cwd,
        },
        "importer.log"@,
    )
}

/// The log sits beside the configuration file.
pub fn log_file(config_path: &str, cwd: &str) -> (r: String)
    ensures
        r@ == log_beside(config_path@, cwd@),
{
    match parent(config_path) {
        Some(dir) => join_path(dir.as_str(), "importer.log"),
        None => join_path(cwd, "importer.log"),
    }
}

// --------------------------------------------------------------- overrides

/// What the command line overrides for one run.
pub struct Overrides {
    pub project: Option<String>,
    pub download_dir: Option<String>,
    pub library_root: Option<String>,
}

/// The configuration with a ZIP folder taken from the command line.
pub open spec fn with_downloads(
    cfg: config::ConfigView,
    dir: Option<Seq<char>>,
    cwd: Seq<char>,
    home: Seq<char>,
) -> config::ConfigView {
    match dir {
        Some(d) => config::ConfigView { download_dir: config::resolved(d, cwd, home), ..cfg },
        None => cfg,
    }
}

/// The configuration with a library root taken from the command line. Everything
/// that lived inside the old root follows it; leaving the symbol and footprint
/// folders behind would write this run's parts into the previous library.
pub open spec fn with_root(
    cfg: config::ConfigView,
    root: Option<Seq<char>>,
    cwd: Seq<char>,
    home: Seq<char>,
) -> config::ConfigView {
    match root {
        Some(d) => config::rebased(cfg, config::resolved(d, cwd, home)),
        None => cfg,
    }
}

/// The configuration a run works with, or the project that is not known. A
/// project moves the whole tree, so it is applied before the individual
/// overrides — those are meant to win.
pub open spec fn overridden(
    cfg: config::ConfigView,
    project: Option<Seq<char>>,
    download_dir: Option<Seq<char>>,
    library_root: Option<Seq<char>>,
    cwd: Seq<char>,
    home: Seq<char>,
) -> Result<config::ConfigView, Seq<char>> {
    match project {
        Some(name) => match config::named(cfg.projects, text::trim(name)) {
            Some(i) => Ok(
                with_root(
                    with_downloads(config::switched(cfg, cfg.projects[i]), download_dir, cwd, home),
                    library_root,
                    cwd,
                    home,
                ),
            ),
            None => Err(name),
        },
        None => Ok(
            with_root(with_downloads(cfg, download_dir, cwd, home), library_root, cwd, home),
        ),
    }
}

/// The configuration a run works with, or the project that is not known.
pub fn apply(cfg: Config, o: &Overrides, cwd: &str, home: &str) -> (r: Result<Config, String>)
    ensures
        match r {
            Ok(c) => Ok(c@),
            Err(e) => Err(e@),
        } == overridden(
            cfg@,
            text::opt_view(o.project),
            text::opt_view(o.download_dir),
            text::opt_view(o.library_root),
            cwd@,
            home@,
        ),
{
    let mut cfg = cfg;
    if let Some(name) = &o.project {
        let found = match cfg.find_project(name.as_str()) {
            Some(p) => p.clone(),
            None => {
                return Err(name.clone());
            },
        };
        let _ = cfg.switch_to(&found);
    }
    if let Some(dir) = &o.download_dir {
        cfg.download_dir = resolve_in(dir.as_str(), cwd, home);
    }
    if let Some(dir) = &o.library_root {
        let root = resolve_in(dir.as_str(), cwd, home);
        let _ = cfg.rebase(root.as_str());
    }
    Ok(cfg)
}

pub open spec fn project_names(projects: Seq<config::ProjectView>) -> Seq<Seq<char>> {
    projects.map_values(|p: config::ProjectView| p.name)
}

/// What is said of a project that is not known.
pub open spec fn unknown_text(cfg: config::ConfigView, name: Seq<char>) -> Seq<Seq<char>> {
    seq![
        "no saved project called \""@ + name + "\"."@,
        if cfg.projects.len() == 0 {
            "no projects are saved yet; press [P] in the interface to save one."@
        } else {
            "known projects: "@ + text::join(project_names(cfg.projects), ", "@)
        },
    ]
}

/// What is said of a project that is not known.
pub fn unknown_project(cfg: &Config, name: &str) -> (r: Vec<String>)
    ensures
        text::views(r@) == unknown_text(cfg@, name@),
{
    let mut first = both("no saved project called \"", name);
    first.append("\".");
    assert(cfg@.projects.len() == cfg.projects@.len());
    let second = if cfg.projects.len() == 0 {
        "no projects are saved yet; press [P] in the interface to save one.".to_string()
    } else {
        let mut names: Vec<String> = Vec::new();
        let mut i: usize = 0;
        while i < cfg.projects.len()
            invariant
                i <= cfg.projects@.len(),
                names@.len() == i,
                forall|j: int| 0 <= j < i ==> (#[trigger] names@[j])@ == cfg.projects@[j].name@,
            decreases cfg.projects.len() - i,
        {
            names.push(cfg.projects[i].name.clone());
            i += 1;
        }
        assert(text::views(names@) =~= project_names(cfg@.projects));
        let list = joined(&names, ", ");
        both("known projects: ", list.as_str())
    };
    let mut out: Vec<String> = Vec::new();
    out.push(first);
    out.push(second);
    assert(text::views(out@) =~= unknown_text(cfg@, name@));
    out
}

// ----------------------------------------------------------------- printing

/// A saved project, marked when it is the current location.
pub open spec fn project_line(p: config::ProjectView, root: Seq<char>) -> Seq<char> {
    (if paths::same_place(p.library_root, root) {
        "*"@
    } else {
        " "@
    }) + " "@ + ui::padded(p.name, 24) + " "@ + p.library_root
}

/// The saved projects, one to a line.
pub open spec fn project_list(cfg: config::ConfigView) -> Seq<Seq<char>> {
    if cfg.projects.len() == 0 {
        seq!["No saved projects. Press [P] in the interface to save one."@]
    } else {
        cfg.projects.map_values(|p: config::ProjectView| project_line(p, cfg.library_root))
    }
}

fn write_project(p: &Project, root: &str) -> (r: String)
    ensures
        r@ == project_line(p@, root@),
{
    let mut out = if same_path(p.library_root.as_str(), root) {
        "*".to_string()
    } else {
        " ".to_string()
    };
    out.append(" ");
    out.append(pad(p.name.as_str(), 24).as_str());
    out.append(" ");
    out.append(p.library_root.as_str());
    out
}

/// The saved projects, one to a line.
pub fn list_projects(cfg: &Config) -> (r: Vec<String>)
    ensures
        text::views(r@) == project_list(cfg@),
{
    let mut out: Vec<String> = Vec::new();
    assert(cfg@.projects.len() == cfg.projects@.len());
    if cfg.projects.len() == 0 {
        out.push("No saved projects. Press [P] in the interface to save one.".to_string());
        assert(text::views(out@) =~= project_list(cfg@));
        return out;
    }
    let mut i: usize = 0;
    while i < cfg.projects.len()
        invariant
            i <= cfg.projects@.len(),
            out@.len() == i,
            forall|j: int|
                0 <= j < i ==> (#[trigger] out@[j])@ == project_line(
                    cfg.projects@[j]@,
                    cfg.library_root@,
                ),
        decreases cfg.projects.len() - i,
    {
        out.push(write_project(&cfg.projects[i], cfg.library_root.as_str()));
        i += 1;
    }
    assert(text::views(out@) =~= project_list(cfg@));
    out
}

/// A search result, in columns.
pub open spec fn hit_row(h: easyeda::HitView) -> Seq<char> {
    ui::padded(h.id, 12) + " "@ + ui::padded(h.mpn, 26) + " "@ + ui::padded(h.manufacturer, 20)
        + " "@ + ui::padded(h.package, 18) + steps::counted(" "@, h.stock as int, " in stock"@)
}

/// What a search prints.
pub open spec fn search_rows(query: Seq<char>, hits: Seq<easyeda::HitView>) -> Seq<Seq<char>> {
    if hits.len() == 0 {
        seq!["No results for \""@ + query + "\"."@]
    } else {
        hits.map_values(|h: easyeda::HitView| hit_row(h))
    }
}

fn write_hit(h: &Hit) -> (r: String)
    ensures
        r@ == hit_row(h@),
{
    let mut out = pad(h.id.as_str(), 12);
    out.append(" ");
    out.append(pad(h.mpn.as_str(), 26).as_str());
    out.append(" ");
    out.append(pad(h.manufacturer.as_str(), 20).as_str());
    out.append(" ");
    out.append(pad(h.package.as_str(), 18).as_str());
    out.append(count(" ", h.stock as u128, " in stock").as_str());
    out
}

/// What a search prints.
pub fn run_search(query: &str, hits: &Vec<Hit>) -> (r: Vec<String>)
    ensures
        text::views(r@) == search_rows(query@, easyeda::hit_views(hits@)),
{
    let mut out: Vec<String> = Vec::new();
    let ghost all = easyeda::hit_views(hits@);
    assert(all.len() == hits@.len());
    if hits.len() == 0 {
        let mut none = both("No results for \"", query);
        none.append("\".");
        out.push(none);
        assert(text::views(out@) =~= search_rows(query@, all));
        return out;
    }
    let mut i: usize = 0;
    while i < hits.len()
        invariant
            i <= hits@.len(),
            out@.len() == i,
            forall|j: int| 0 <= j < i ==> (#[trigger] out@[j])@ == hit_row(hits@[j]@),
        decreases hits.len() - i,
    {
        out.push(write_hit(&hits[i]));
        i += 1;
    }
    assert(text::views(out@) =~= search_rows(query@, all));
    out
}

/// What an import by hand or a download prints, after the word for it.
pub open spec fn summary_row(verb: Seq<char>, s: importer::SummaryView) -> Seq<char> {
    verb + " "@ + s.part + steps::counted(": "@, s.symbols.len() as int, " symbol(s), "@)
        + steps::counted(""@, s.footprints.len() as int, " footprint(s), "@) + steps::counted(
        ""@,
        s.models.len() as int,
        " model(s)"@,
    )
}

/// What an import by hand or a download prints, after the word for it.
pub fn summary_line(verb: &str, s: &ImportSummary) -> (r: String)
    ensures
        r@ == summary_row(verb@, s@),
{
    assert(s@.symbols.len() == s.symbols@.len());
    assert(s@.footprints.len() == s.footprints@.len());
    assert(s@.models.len() == s.models@.len());
    let mut out = both(verb, " ");
    out.append(s.part.as_str());
    out.append(count(": ", s.symbols.len() as u128, " symbol(s), ").as_str());
    out.append(count("", s.footprints.len() as u128, " footprint(s), ").as_str());
    out.append(count("", s.models.len() as u128, " model(s)").as_str());
    out
}

} // verus!
