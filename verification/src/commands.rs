//! What the command line changes for one run, and what it prints.

use vstd::prelude::*;
use vstd::string::*;

use crate::cli;
use crate::config;
use crate::http;
use crate::importer;
use crate::online::easyeda;
use crate::paths;
use crate::text;
use crate::ui;

verus! {

// ---------------------------------------------------------------- overrides

/// A library root from the command line is the one of the run, with the library
/// in it, whatever project is named beside it.
pub proof fn lemma_root_wins(
    cfg: config::ConfigView,
    project: Option<Seq<char>>,
    download_dir: Option<Seq<char>>,
    root: Seq<char>,
    cwd: Seq<char>,
    home: Seq<char>,
)
    ensures
        cli::overridden(cfg, project, download_dir, Some(root), cwd, home) matches Ok(run) ==> {
            &&& run.library_root == config::resolved(root, cwd, home)
            &&& forall|f: config::Field| #[trigger]
                config::inside().contains(f) ==> !config::is_stray(run, f)
            &&& run.projects == cfg.projects
        },
{
    let there = config::resolved(root, cwd, home);
    match project {
        Some(name) => {
            if let Some(i) = config::named(cfg.projects, text::trim(name)) {
                let moved = config::switched(cfg, cfg.projects[i]);
                config::lemma_rebased(cfg, cfg.projects[i].library_root);
                config::lemma_rebased(cli::with_downloads(moved, download_dir, cwd, home), there);
            }
        },
        None => {
            config::lemma_rebased(cli::with_downloads(cfg, download_dir, cwd, home), there);
        },
    }
}

/// A ZIP folder from the command line is the one of the run, whatever project is
/// named beside it.
pub proof fn lemma_downloads_win(
    cfg: config::ConfigView,
    project: Option<Seq<char>>,
    dir: Seq<char>,
    library_root: Option<Seq<char>>,
    cwd: Seq<char>,
    home: Seq<char>,
)
    ensures
        cli::overridden(cfg, project, Some(dir), library_root, cwd, home) matches Ok(run)
            ==> run.download_dir == config::resolved(dir, cwd, home),
{
    let base = match project {
        Some(name) => match config::named(cfg.projects, text::trim(name)) {
            Some(i) => config::switched(cfg, cfg.projects[i]),
            None => cfg,
        },
        None => cfg,
    };
    if let Some(root) = library_root {
        config::lemma_rebased(
            cli::with_downloads(base, Some(dir), cwd, home),
            config::resolved(root, cwd, home),
        );
    }
}

/// A project from the command line is found by its name, whatever its case, and
/// the run is at its root. One that is not saved is refused by the name given.
pub proof fn lemma_project_used(
    cfg: config::ConfigView,
    name: Seq<char>,
    download_dir: Option<Seq<char>>,
    cwd: Seq<char>,
    home: Seq<char>,
)
    ensures
        match cli::overridden(cfg, Some(name), download_dir, None, cwd, home) {
            Ok(run) => exists|i: int|
                0 <= i < cfg.projects.len() && text::same_letters(
                    (#[trigger] cfg.projects[i]).name,
                    text::trim(name),
                ) && run.library_root == cfg.projects[i].library_root,
            Err(e) => e == name && forall|i: int|
                0 <= i < cfg.projects.len() ==> !text::same_letters(
                    (#[trigger] cfg.projects[i]).name,
                    text::trim(name),
                ),
        },
{
    config::lemma_named(cfg.projects, text::trim(name));
    if let Some(i) = config::named(cfg.projects, text::trim(name)) {
        config::lemma_rebased(cfg, cfg.projects[i].library_root);
        let run = cli::overridden(cfg, Some(name), download_dir, None, cwd, home)->Ok_0;
        assert(run.library_root == cfg.projects[i].library_root);
    }
}

/// With nothing on the command line the run is what is configured.
pub proof fn lemma_nothing_overridden(cfg: config::ConfigView, cwd: Seq<char>, home: Seq<char>)
    ensures
        cli::overridden(cfg, None, None, None, cwd, home) == Ok::<config::ConfigView, Seq<char>>(
            cfg,
        ),
{
}

/// The configuration file is the one that was named, seen from the working
/// directory, or the usual one.
pub proof fn lemma_config_named(named: Seq<char>, cwd: Seq<char>, home: Seq<char>, usual: Seq<char>)
    ensures
        cli::chosen_config(None, cwd, home, usual) == usual,
        paths::is_absolute(named) ==> cli::chosen_config(Some(named), cwd, home, usual) == named,
        named.len() > 0 && named[0] != '/' && named[0] != '~' ==> cli::chosen_config(
            Some(named),
            cwd,
            home,
            usual,
        ) == paths::below(cwd, named),
{
    reveal_strlit("~");
    reveal_strlit("~/");
    if named.len() > 0 && named[0] != '~' {
        assert(named != "~"@);
        if named.len() >= 2 {
            assert(named.take(2)[0] == named[0]);
        }
    }
}

/// The log is in the folder of the configuration file.
pub proof fn lemma_log(config_path: Seq<char>, cwd: Seq<char>)
    ensures
        paths::parent_of(config_path) matches Some(dir) ==> cli::log_beside(config_path, cwd)
            == paths::below(dir, "importer.log"@),
        paths::parent_of(config_path) is None ==> cli::log_beside(config_path, cwd)
            == paths::below(cwd, "importer.log"@),
{
}

// ------------------------------------------------------------------- output

/// The list of projects has one line for each, in order: its name and where it
/// is, with a mark on those that are where the library is.
pub proof fn lemma_projects_listed(cfg: config::ConfigView, i: int)
    requires
        0 <= i < cfg.projects.len(),
    ensures
        cli::project_list(cfg).len() == cfg.projects.len(),
        paths::same_place(cfg.projects[i].library_root, cfg.library_root) ==> cli::project_list(
            cfg,
        )[i] == "*"@ + " "@ + ui::padded(cfg.projects[i].name, 24) + " "@
            + cfg.projects[i].library_root,
        !paths::same_place(cfg.projects[i].library_root, cfg.library_root) ==> cli::project_list(
            cfg,
        )[i] == " "@ + " "@ + ui::padded(cfg.projects[i].name, 24) + " "@
            + cfg.projects[i].library_root,
{
}

/// A project that is not known is named, beside those that are.
pub proof fn lemma_unknown(cfg: config::ConfigView, name: Seq<char>, only: config::ProjectView)
    ensures
        cli::unknown_text(cfg, name)[0] == "no saved project called \""@ + name + "\"."@,
        cfg.projects.len() == 0 ==> cli::unknown_text(cfg, name)[1]
            == "no projects are saved yet; press [P] in the interface to save one."@,
        cfg.projects == seq![only] ==> cli::unknown_text(cfg, name)[1] == "known projects: "@
            + only.name,
        cfg.projects.len() > 0 ==> exists|names: Seq<Seq<char>>|
            cli::unknown_text(cfg, name)[1] == "known projects: "@ + #[trigger] text::join(
                names,
                ", "@,
            ) && names.len() == cfg.projects.len() && forall|i: int|
                0 <= i < names.len() ==> #[trigger] names[i] == cfg.projects[i].name,
{
    let names = cli::project_names(cfg.projects);
    if cfg.projects == seq![only] {
        assert(names =~= seq![only.name]);
        assert(text::join(names, ", "@) == only.name);
    }
    if cfg.projects.len() > 0 {
        assert(cli::unknown_text(cfg, name)[1] == "known projects: "@ + text::join(names, ", "@));
    }
}

/// A search prints one line for each result, in order: its number, its part
/// number, who makes it, its package and how many there are.
pub proof fn lemma_hits_listed(query: Seq<char>, hits: Seq<easyeda::HitView>, i: int)
    ensures
        0 <= i < hits.len() ==> cli::search_rows(query, hits).len() == hits.len()
            && cli::search_rows(query, hits)[i] == ui::padded(hits[i].id, 12) + " "@ + ui::padded(
            hits[i].mpn,
            26,
        ) + " "@ + ui::padded(hits[i].manufacturer, 20) + " "@ + ui::padded(hits[i].package, 18) + (
        " "@ + text::decimal(hits[i].stock as nat) + " in stock"@),
        hits.len() == 0 ==> cli::search_rows(query, hits) == seq![
            "No results for \""@ + query + "\"."@,
        ],
{
}

/// A column is filled up with blanks behind its text, and a text that is too long
/// for it is kept whole.
pub proof fn lemma_column(s: Seq<char>, n: int)
    ensures
        text::starts_with(ui::padded(s, n), s),
        s.len() >= n ==> ui::padded(s, n) == s,
        s.len() < n ==> ui::padded(s, n).len() == n && forall|i: int|
            s.len() <= i < n ==> #[trigger] ui::padded(s, n)[i] == ' ',
{
    assert(ui::padded(s, n).take(s.len() as int) =~= s);
}

/// What an import prints: the part, and how many files of each kind it brought.
pub proof fn lemma_summary_printed(verb: Seq<char>, s: importer::SummaryView)
    ensures
        cli::summary_row(verb, s) == verb + " "@ + s.part + (": "@ + text::decimal(s.symbols.len())
            + " symbol(s), "@) + (""@ + text::decimal(s.footprints.len()) + " footprint(s), "@) + (
        ""@ + text::decimal(s.models.len()) + " model(s)"@),
{
}

// ---------------------------------------------------------------- downloads

/// A body is used as it came unless it is larger than 64 MiB or could not be
/// read; the address is named either way.
pub proof fn lemma_body(url: Seq<char>, bytes: Seq<u8>, e: Seq<char>)
    ensures
        bytes.len() <= 64 * 1024 * 1024 ==> http::body_of(url, Ok(bytes)) == Ok::<
            Seq<u8>,
            Seq<char>,
        >(bytes),
        bytes.len() > 64 * 1024 * 1024 ==> http::body_of(url, Ok(bytes)) is Err,
        http::body_of(url, Err(e)) == Err::<Seq<u8>, Seq<char>>(
            "reading body of "@ + url + ": "@ + e,
        ),
{
}

/// A body is text where it is UTF-8, and then the text that it encodes.
pub proof fn lemma_body_text(url: Seq<char>, words: Seq<char>)
    ensures
        http::text_of(url, vstd::utf8::encode_utf8(words)) == Ok::<Seq<char>, Seq<char>>(words),
{
    vstd::utf8::encode_utf8_valid_utf8(words);
    vstd::utf8::encode_utf8_decode_utf8(words);
}

} // verus!
