//! The settings one by one: which place or switch each of them is, what it is
//! without a configuration, and how places are written, named and found again.

use vstd::prelude::*;
use vstd::string::*;

use crate::config;
use crate::config::{Field, Kind};
use crate::order;
use crate::paths;
use crate::picker;
use crate::text;

verus! {

// ------------------------------------------------------------------- fields

/// Each path setting reads the place it is called after.
pub proof fn lemma_read(cfg: config::ConfigView)
    ensures
        Field::LibraryRoot.get(cfg) == Some(cfg.library_root),
        Field::DownloadDir.get(cfg) == Some(cfg.download_dir),
        Field::SymbolDir.get(cfg) == Some(cfg.symbol_dir),
        Field::FootprintDir.get(cfg) == Some(cfg.footprint_dir),
        Field::ModelDir.get(cfg) == Some(cfg.model_dir),
        Field::TempDir.get(cfg) == Some(cfg.temp_dir),
        Field::ArchiveDir.get(cfg) == Some(cfg.archive_dir),
        Field::MergedSymbolLib.get(cfg) == cfg.merged_symbol_lib,
        Field::ManifestPath.get(cfg) == Some(cfg.manifest_path),
        Field::PerPartFootprintDirs.flag(cfg) == cfg.per_part_footprint_dirs,
        Field::BackupBeforeOverwrite.flag(cfg) == cfg.backup_before_overwrite,
        Field::DeleteZip.flag(cfg) == cfg.delete_zip_after_import,
{
}

/// Each path setting sets the place it reads and no other.
pub proof fn lemma_set(cfg: config::ConfigView, value: Seq<char>)
    ensures
        Field::LibraryRoot.put(cfg, value) == (config::ConfigView { library_root: value, ..cfg }),
        Field::DownloadDir.put(cfg, value) == (config::ConfigView { download_dir: value, ..cfg }),
        Field::SymbolDir.put(cfg, value) == (config::ConfigView { symbol_dir: value, ..cfg }),
        Field::FootprintDir.put(cfg, value) == (config::ConfigView { footprint_dir: value, ..cfg }),
        Field::ModelDir.put(cfg, value) == (config::ConfigView { model_dir: value, ..cfg }),
        Field::TempDir.put(cfg, value) == (config::ConfigView { temp_dir: value, ..cfg }),
        Field::ArchiveDir.put(cfg, value) == (config::ConfigView { archive_dir: value, ..cfg }),
        Field::ManifestPath.put(cfg, value) == (config::ConfigView { manifest_path: value, ..cfg }),
        value.len() > 0 ==> Field::MergedSymbolLib.put(cfg, value) == (config::ConfigView {
            merged_symbol_lib: Some(value),
            ..cfg
        }),
        value.len() == 0 ==> Field::MergedSymbolLib.put(cfg, value) == (config::ConfigView {
            merged_symbol_lib: None,
            ..cfg
        }),
{
}

/// Setting one field and reading another: they do not meet.
pub proof fn lemma_apart(cfg: config::ConfigView, f: Field, g: Field, value: Seq<char>)
    requires
        f.sort_of() != Kind::Bool,
        g.sort_of() != Kind::Bool,
        value.len() > 0,
    ensures
        f.get(f.put(cfg, value)) == Some(value),
        f != g ==> g.get(f.put(cfg, value)) == g.get(cfg),
{
}

/// Each switch sets what it reads and no other.
pub proof fn lemma_switch(cfg: config::ConfigView, on: bool)
    ensures
        Field::PerPartFootprintDirs.flagged(cfg, on) == (config::ConfigView {
            per_part_footprint_dirs: on,
            ..cfg
        }),
        Field::BackupBeforeOverwrite.flagged(cfg, on) == (config::ConfigView {
            backup_before_overwrite: on,
            ..cfg
        }),
        Field::DeleteZip.flagged(cfg, on) == (config::ConfigView {
            delete_zip_after_import: on,
            ..cfg
        }),
{
}

/// What each setting is called, and what kind of thing it is.
pub proof fn lemma_called()
    ensures
        Field::LibraryRoot.caption() == "Library Root"@,
        Field::DownloadDir.caption() == "ZIP Folder"@,
        Field::SymbolDir.caption() == "Symbols"@,
        Field::FootprintDir.caption() == "Footprints (.pretty)"@,
        Field::ModelDir.caption() == "3D Models"@,
        Field::TempDir.caption() == "Temp"@,
        Field::ArchiveDir.caption() == "Archive"@,
        Field::MergedSymbolLib.caption() == "Merged Symbol Library"@,
        Field::ManifestPath.caption() == "Manifest (JSON)"@,
        Field::PerPartFootprintDirs.caption() == "Per-part .pretty folders"@,
        Field::BackupBeforeOverwrite.caption() == "Backup before overwrite"@,
        Field::DeleteZip.caption() == "Delete ZIP after import"@,
        forall|f: Field|
            #![trigger f.sort_of()]
            f.sort_of() == Kind::Bool <==> f == Field::PerPartFootprintDirs || f
                == Field::BackupBeforeOverwrite || f == Field::DeleteZip,
        forall|f: Field|
            #![trigger f.sort_of()]
            f.sort_of() == Kind::File <==> f == Field::MergedSymbolLib || f == Field::ManifestPath,
{
}

/// How a setting reads on screen: a path as it is, a switch as `true` or
/// `false`, a library that is turned off as such.
pub proof fn lemma_shown(cfg: config::ConfigView, field: Field)
    ensures
        field.sort_of() != Kind::Bool ==> (field.get(cfg) matches Some(path) ==> field.shown(cfg)
            == path),
        cfg.merged_symbol_lib is None ==> Field::MergedSymbolLib.shown(cfg) == "(disabled)"@,
        Field::PerPartFootprintDirs.shown(cfg) == (if cfg.per_part_footprint_dirs {
            "true"@
        } else {
            "false"@
        }),
        Field::BackupBeforeOverwrite.shown(cfg) == (if cfg.backup_before_overwrite {
            "true"@
        } else {
            "false"@
        }),
        Field::DeleteZip.shown(cfg) == (if cfg.delete_zip_after_import {
            "true"@
        } else {
            "false"@
        }),
{
}

/// What the library owns, and so what lives under its root: everything but the
/// root itself, the ZIP folder and the switches.
pub proof fn lemma_owned(field: Field)
    ensures
        config::inside().contains(field) <==> field.sort_of() != Kind::Bool && field
            != Field::LibraryRoot && field != Field::DownloadDir,
{
    let list = config::inside();
    assert(list[0] == Field::SymbolDir && list[1] == Field::FootprintDir && list[2]
        == Field::ModelDir && list[3] == Field::TempDir && list[4] == Field::ArchiveDir && list[5]
        == Field::MergedSymbolLib && list[6] == Field::ManifestPath);
    if config::inside().contains(field) {
        let i = choose|i: int| 0 <= i < list.len() && list[i] == field;
        assert(i == 0 || i == 1 || i == 2 || i == 3 || i == 4 || i == 5 || i == 6);
    }
}

/// A path of the library that points outside its root keeps its own name right
/// under the root; with no name of its own it gets the usual one.
pub proof fn lemma_pulled_in(cfg: config::ConfigView, field: Field, path: Seq<char>)
    requires
        field.sort_of() != Kind::Bool,
        field != Field::LibraryRoot,
        field != Field::DownloadDir,
        field.get(cfg) == Some(path),
        !paths::within(path, cfg.library_root),
    ensures
        paths::leaf_of(path) matches Some(name) ==> field.get(config::contained(cfg)) == Some(
            paths::below(cfg.library_root, name),
        ),
        paths::leaf_of(path) is None && field == Field::SymbolDir ==> config::contained(
            cfg,
        ).symbol_dir == paths::below(cfg.library_root, "symbols"@),
        paths::leaf_of(path) is None && field == Field::FootprintDir ==> config::contained(
            cfg,
        ).footprint_dir == paths::below(cfg.library_root, "footprints.pretty"@),
        paths::leaf_of(path) is None && field == Field::ModelDir ==> config::contained(cfg).model_dir
            == paths::below(cfg.library_root, "3dmodels"@),
        paths::leaf_of(path) is None && field == Field::TempDir ==> config::contained(cfg).temp_dir
            == paths::below(cfg.library_root, "cache"@),
        paths::leaf_of(path) is None && field == Field::ArchiveDir ==> config::contained(
            cfg,
        ).archive_dir == paths::below(cfg.library_root, "archive"@),
        paths::leaf_of(path) is None && field == Field::ManifestPath ==> config::contained(
            cfg,
        ).manifest_path == paths::below(cfg.library_root, "library.json"@),
{
    lemma_owned(field);
    config::lemma_contained(cfg);
}

/// The fields that are reported as pulled in are those that were outside.
pub proof fn lemma_reported(cfg: config::ConfigView, field: Field)
    requires
        config::inside().contains(field),
    ensures
        config::strays(cfg).contains(field) <==> (field.get(cfg) matches Some(path)
            && !paths::within(path, cfg.library_root)),
{
    lemma_strays_upto(cfg, 7, field);
    let i = config::inside().index_of(field);
    assert(config::inside()[i] == field);
}

proof fn lemma_strays_upto(cfg: config::ConfigView, n: int, field: Field)
    requires
        0 <= n <= 7,
    ensures
        config::strays_upto(cfg, n).contains(field) <==> config::is_stray(cfg, field) && exists|i: int|
            0 <= i < n && #[trigger] config::inside()[i] == field,
    decreases n,
{
    if n > 0 {
        lemma_strays_upto(cfg, n - 1, field);
        let before = config::strays_upto(cfg, n - 1);
        let last = config::inside()[n - 1];
        if config::is_stray(cfg, last) {
            let now = before.push(last);
            if before.contains(field) {
                let k = before.index_of(field);
                assert(now[k] == field);
            }
            if last == field {
                assert(now[now.len() - 1] == field);
            }
            if now.contains(field) {
                let k = now.index_of(field);
                if k < before.len() {
                    assert(before[k] == field);
                }
            }
        }
    }
}

/// What is reported as moved with the root is what did move: a path that was
/// inside the old root and is somewhere else now, or one that was outside the
/// new root and has been pulled in.
pub proof fn lemma_moves_reported(cfg: config::ConfigView, root: Seq<char>, field: Field)
    requires
        config::inside().contains(field),
    ensures
        config::rebase_moves(cfg, root).contains(field) <==> (config::is_carried(cfg, root, field)
            || config::is_stray(config::relocated(cfg, root), field)),
        field.get(cfg) matches Some(path) ==> (config::is_carried(cfg, root, field)
            <==> paths::within(path, cfg.library_root) && !paths::same_place(
            paths::below(root, paths::rest_of(path, cfg.library_root)),
            path,
        )),
        field.get(cfg) is None ==> !config::is_carried(cfg, root, field),
{
    let pulled = config::strays(config::relocated(cfg, root));
    lemma_carries_upto(cfg, root, 7, field);
    lemma_strays_upto(config::relocated(cfg, root), 7, field);
    let i = config::inside().index_of(field);
    assert(config::inside()[i] == field);
    lemma_joined(config::carries_upto(cfg, root, 7), pulled, pulled.len() as int, field);
    if pulled.contains(field) {
        let k = pulled.index_of(field);
        assert(pulled[k] == field);
    }
}

proof fn lemma_carries_upto(cfg: config::ConfigView, root: Seq<char>, n: int, field: Field)
    requires
        0 <= n <= 7,
    ensures
        config::carries_upto(cfg, root, n).contains(field) <==> config::is_carried(cfg, root, field)
            && exists|i: int| 0 <= i < n && #[trigger] config::inside()[i] == field,
    decreases n,
{
    if n > 0 {
        lemma_carries_upto(cfg, root, n - 1, field);
        let before = config::carries_upto(cfg, root, n - 1);
        let last = config::inside()[n - 1];
        if config::is_carried(cfg, root, last) {
            let now = before.push(last);
            if before.contains(field) {
                let k = before.index_of(field);
                assert(now[k] == field);
            }
            if last == field {
                assert(now[now.len() - 1] == field);
            }
            if now.contains(field) {
                let k = now.index_of(field);
                if k < before.len() {
                    assert(before[k] == field);
                }
            }
        }
    }
}

proof fn lemma_joined(list: Seq<Field>, more: Seq<Field>, n: int, field: Field)
    requires
        0 <= n <= more.len(),
    ensures
        config::joined_with(list, more, n).contains(field) <==> list.contains(field) || exists|i: int|
            0 <= i < n && #[trigger] more[i] == field,
    decreases n,
{
    if n > 0 {
        lemma_joined(list, more, n - 1, field);
        let before = config::joined_with(list, more, n - 1);
        if !before.contains(more[n - 1]) {
            let now = before.push(more[n - 1]);
            if before.contains(field) {
                let k = before.index_of(field);
                assert(now[k] == field);
            }
            if more[n - 1] == field {
                assert(now[now.len() - 1] == field);
            }
            if now.contains(field) {
                let k = now.index_of(field);
                if k < before.len() {
                    assert(before[k] == field);
                }
            }
        }
    }
}

// ----------------------------------------------------------------- defaults

/// What a first run starts from, in the home folder.
pub proof fn lemma_defaults(home: Seq<char>)
    ensures
        ({
            let cfg = config::defaults(home);
            let root = paths::below(paths::below(home, "KiCad"@), "lib"@);
            &&& cfg.library_root == root
            &&& cfg.download_dir == paths::below(paths::below(home, "Downloads"@), "KiCad"@)
            &&& cfg.symbol_dir == paths::below(root, "symbols"@)
            &&& cfg.footprint_dir == paths::below(root, "footprints.pretty"@)
            &&& cfg.model_dir == paths::below(root, "3dmodels"@)
            &&& cfg.temp_dir == paths::below(root, "cache"@)
            &&& cfg.archive_dir == paths::below(root, "archive"@)
            &&& cfg.merged_symbol_lib == Some(paths::below(root, "murky-informis.kicad_sym"@))
            &&& cfg.manifest_path == paths::below(root, "library.json"@)
            &&& cfg.per_part_footprint_dirs
            &&& cfg.backup_before_overwrite
            &&& !cfg.delete_zip_after_import
            &&& cfg.projects.len() == 0
        }),
{
}

/// The configuration file stands in the `KiLib` folder of the system's place for
/// configuration, or of `.config` in the home folder where it names none.
pub proof fn lemma_config_path(dir: Seq<char>, home: Seq<char>)
    ensures
        config::config_path_of(Some(dir), home) == paths::below(
            paths::below(dir, "KiLib"@),
            "config.toml"@,
        ),
        config::config_path_of(None, home) == paths::below(
            paths::below(paths::below(home, ".config"@), "KiLib"@),
            "config.toml"@,
        ),
{
}

/// What the file holds is what is read back: a library that is turned off is
/// written as an empty path, and read as turned off.
pub proof fn lemma_turned_off(cfg: config::ConfigView, base: Seq<char>, home: Seq<char>)
    ensures
        cfg.merged_symbol_lib is None ==> config::filed(cfg).merged_symbol_lib == Some(
            Seq::<char>::empty(),
        ) && config::resolved_all(config::filed(cfg), base, home).merged_symbol_lib is None,
        config::filed(cfg) == (config::ConfigView {
            merged_symbol_lib: config::filed(cfg).merged_symbol_lib,
            ..cfg
        }),
        cfg.merged_symbol_lib is Some ==> config::filed(cfg) == cfg,
{
}

// ---------------------------------------------------------------- resolving

/// A path is read against the home folder where it starts with `~`, as it is
/// where it is absolute, and else against the folder of the configuration file.
pub proof fn lemma_resolved(rest: Seq<char>, base: Seq<char>, home: Seq<char>)
    requires
        paths::is_absolute(home),
    ensures
        config::resolved("~"@, base, home) == home,
        config::resolved("~/"@ + rest, base, home) == paths::below(home, rest),
        paths::is_absolute(rest) ==> config::resolved(rest, base, home) == rest,
        rest.len() > 0 && rest[0] != '/' && rest[0] != '~' ==> config::resolved(rest, base, home)
            == paths::below(base, rest),
{
    reveal_strlit("~");
    reveal_strlit("~/");
    let p = "~/"@ + rest;
    assert(p.len() >= 2);
    assert(p != "~"@);
    assert(p.take(2) =~= "~/"@);
    assert(p.skip(2) =~= rest);
    if rest.len() > 0 && rest[0] != '~' {
        assert(rest != "~"@);
        if rest.len() >= 2 {
            assert(rest.take(2)[0] == rest[0]);
        }
    }
    assert(paths::is_absolute(paths::below(home, rest)));
}

/// Every path of a configuration is read that way, each into its own place, and
/// so is every saved project.
pub proof fn lemma_resolved_all(cfg: config::ConfigView, base: Seq<char>, home: Seq<char>, i: int)
    ensures
        ({
            let r = config::resolved_all(cfg, base, home);
            &&& r.library_root == config::resolved(cfg.library_root, base, home)
            &&& r.download_dir == config::resolved(cfg.download_dir, base, home)
            &&& r.symbol_dir == config::resolved(cfg.symbol_dir, base, home)
            &&& r.footprint_dir == config::resolved(cfg.footprint_dir, base, home)
            &&& r.model_dir == config::resolved(cfg.model_dir, base, home)
            &&& r.temp_dir == config::resolved(cfg.temp_dir, base, home)
            &&& r.archive_dir == config::resolved(cfg.archive_dir, base, home)
            &&& r.manifest_path == config::resolved(cfg.manifest_path, base, home)
            &&& cfg.merged_symbol_lib matches Some(path) ==> (path.len() > 0 && config::resolved(
                path,
                base,
                home,
            ).len() > 0 ==> r.merged_symbol_lib == Some(config::resolved(path, base, home)))
            &&& cfg.merged_symbol_lib is None ==> r.merged_symbol_lib is None
            &&& r.per_part_footprint_dirs == cfg.per_part_footprint_dirs
            &&& r.backup_before_overwrite == cfg.backup_before_overwrite
            &&& r.delete_zip_after_import == cfg.delete_zip_after_import
            &&& r.projects.len() == cfg.projects.len()
            &&& 0 <= i < cfg.projects.len() ==> {
                &&& r.projects[i].name == cfg.projects[i].name
                &&& r.projects[i].library_root == config::resolved(
                    cfg.projects[i].library_root,
                    base,
                    home,
                )
                &&& cfg.projects[i].download_dir is None ==> r.projects[i].download_dir is None
                &&& cfg.projects[i].download_dir matches Some(dir) ==> r.projects[i].download_dir
                    == Some(config::resolved(dir, base, home))
            }
        }),
{
}

/// Relative paths are read against the folder that the configuration file is in.
pub proof fn lemma_anchor(dir: Seq<char>, name: Seq<char>, home: Seq<char>)
    requires
        paths::is_name(dir),
        dir != seq!['.', '.'],
        paths::is_name(name),
    ensures
        config::anchor_of(seq!['/'] + dir + seq!['/'] + name, home) == seq!['/'] + dir,
{
    let p = seq!['/'] + dir + seq!['/'] + name;
    let empty = Seq::<char>::empty();
    text::lemma_split_append(empty, dir + seq!['/'] + name, '/');
    assert(empty.push('/') + (dir + seq!['/'] + name) =~= p);
    text::lemma_split_append(dir, name, '/');
    assert(dir.push('/') + name =~= dir + seq!['/'] + name);
    lemma_one_segment(dir);
    lemma_one_segment(name);
    lemma_one_segment(empty);
    let segs = seq![empty, dir, name];
    assert(paths::segments(p) =~= segs);
    assert(paths::settled(segs) == segs);
    let up = segs.drop_last();
    assert(up =~= seq![empty, dir]);
    assert(paths::settled(up) == up);
    assert(up.drop_last() =~= seq![empty]);
    assert(text::join(seq![empty], paths::slash()) == empty);
    assert(text::join(up, paths::slash()) == empty + paths::slash() + dir);
    assert(empty + paths::slash() + dir =~= seq!['/'] + dir);
}

proof fn lemma_one_segment(s: Seq<char>)
    requires
        !s.contains('/'),
    ensures
        text::split(s, '/') == seq![s],
    decreases s.len(),
{
    if s.len() > 0 {
        assert(s.contains(s.last()));
        let init = s.drop_last();
        assert forall|i: int| 0 <= i < init.len() implies init[i] != '/' by {
            assert(s.contains(s[i]));
        }
        lemma_one_segment(init);
        assert(init.push(s.last()) =~= s);
        let before = seq![init];
        assert(before.last() == init);
        assert(before.drop_last() =~= Seq::empty());
        assert(text::split(s, '/') =~= seq![s]);
    } else {
        assert(s =~= Seq::<char>::empty());
    }
}

// ----------------------------------------------------------------- projects

/// Moving to a project sets the library root to its root. Its ZIP folder comes
/// into use where it names one and stays as it was where it does not.
pub proof fn lemma_moved_to(cfg: config::ConfigView, project: config::ProjectView)
    ensures
        config::switched(cfg, project).library_root == project.library_root,
        project.download_dir is None ==> config::switched(cfg, project).download_dir
            == cfg.download_dir,
        project.download_dir matches Some(dir) ==> paths::same_place(
            config::switched(cfg, project).download_dir,
            dir,
        ),
        config::switched(cfg, project).projects == cfg.projects,
        config::switched(cfg, project).per_part_footprint_dirs == cfg.per_part_footprint_dirs,
        config::switched(cfg, project).backup_before_overwrite == cfg.backup_before_overwrite,
        config::switched(cfg, project).delete_zip_after_import == cfg.delete_zip_after_import,
{
    config::lemma_rebased(cfg, project.library_root);
}

/// The project in use is the first one whose root is the library's.
pub proof fn lemma_in_use(cfg: config::ConfigView)
    ensures
        match config::active(cfg) {
            Some(i) => 0 <= i < cfg.projects.len() && paths::same_place(
                cfg.projects[i].library_root,
                cfg.library_root,
            ) && forall|j: int|
                0 <= j < i ==> !paths::same_place(
                    (#[trigger] cfg.projects[j]).library_root,
                    cfg.library_root,
                ),
            None => forall|j: int|
                0 <= j < cfg.projects.len() ==> !paths::same_place(
                    (#[trigger] cfg.projects[j]).library_root,
                    cfg.library_root,
                ),
        },
{
    lemma_in_use_upto(cfg, cfg.projects.len() as int);
}

proof fn lemma_in_use_upto(cfg: config::ConfigView, n: int)
    requires
        0 <= n <= cfg.projects.len(),
    ensures
        match config::active_upto(cfg, n) {
            Some(i) => 0 <= i < n && paths::same_place(
                cfg.projects[i].library_root,
                cfg.library_root,
            ) && forall|j: int|
                0 <= j < i ==> !paths::same_place(
                    (#[trigger] cfg.projects[j]).library_root,
                    cfg.library_root,
                ),
            None => forall|j: int|
                0 <= j < n ==> !paths::same_place(
                    (#[trigger] cfg.projects[j]).library_root,
                    cfg.library_root,
                ),
        },
    decreases n,
{
    if n > 0 {
        lemma_in_use_upto(cfg, n - 1);
    }
}

/// A location is saved under its name without blanks, with its root and its ZIP
/// folder, and nothing else of the configuration changes.
pub proof fn lemma_saved_location(cfg: config::ConfigView, name: Seq<char>)
    ensures
        ({
            let at = config::remembered_at(cfg, name);
            let r = config::remembered(cfg, name);
            &&& 0 <= at < r.projects.len()
            &&& r.projects[at].name == text::trim(name)
            &&& r.projects[at].library_root == cfg.library_root
            &&& r.projects[at].download_dir == Some(cfg.download_dir)
            &&& r == (config::ConfigView { projects: r.projects, ..cfg })
            &&& r.projects.len() == cfg.projects.len() || r.projects.len() == cfg.projects.len() + 1
                && at == cfg.projects.len()
        }),
{
    config::lemma_named(cfg.projects, text::trim(name));
}

/// The name offered for a library is the one of its folder. A folder called
/// `lib` says nothing, and the folder above is offered instead.
pub proof fn lemma_offered(outer: Seq<char>, name: Seq<char>)
    requires
        paths::is_name(outer),
        outer != seq!['.', '.'],
        paths::is_name(name),
        name != seq!['.', '.'],
    ensures
        ({
            let n = text::lower(name);
            let plain = n != "lib"@ && n != "libs"@ && n != "library"@ && n != "libraries"@ && n
                != "kicad"@ && n != "kicad-lib"@;
            config::suggested_name(seq!['/'] + outer + seq!['/'] + name) == (if plain {
                name
            } else {
                outer
            })
        }),
{
    let p = seq!['/'] + outer + seq!['/'] + name;
    let empty = Seq::<char>::empty();
    text::lemma_split_append(empty, outer + seq!['/'] + name, '/');
    assert(empty.push('/') + (outer + seq!['/'] + name) =~= p);
    text::lemma_split_append(outer, name, '/');
    assert(outer.push('/') + name =~= outer + seq!['/'] + name);
    lemma_one_segment(outer);
    lemma_one_segment(name);
    lemma_one_segment(empty);
    let segs = seq![empty, outer, name];
    assert(paths::segments(p) =~= segs);
    assert(paths::settled(segs) == segs);
    lemma_anchor(outer, name, empty);
    let up = seq!['/'] + outer;
    assert(paths::parent_of(p) == Some(up));
    text::lemma_split_append(empty, outer, '/');
    assert(empty.push('/') + outer =~= up);
    assert(paths::segments(up) =~= seq![empty, outer]);
    assert(paths::settled(seq![empty, outer]) == seq![empty, outer]);
}

// ------------------------------------------------------------------ folders

/// Browsing starts at the nearest folder that is there: the first of the list
/// that exists, and the root of the disk where none does.
pub proof fn lemma_nearest(list: Seq<Seq<char>>, present: Seq<bool>, i: int)
    requires
        list.len() == present.len(),
        0 <= i <= list.len(),
        forall|j: int| 0 <= j < i ==> !(#[trigger] present[j]),
        i < list.len() ==> present[i],
    ensures
        i < list.len() ==> picker::nearest_from(list, present, 0) == list[i],
        i == list.len() ==> picker::nearest_from(list, present, 0) == "/"@,
{
    lemma_nearest_from(list, present, i, 0);
}

proof fn lemma_nearest_from(list: Seq<Seq<char>>, present: Seq<bool>, i: int, k: int)
    requires
        list.len() == present.len(),
        0 <= k <= i <= list.len(),
        forall|j: int| 0 <= j < i ==> !(#[trigger] present[j]),
        i < list.len() ==> present[i],
    ensures
        i < list.len() ==> picker::nearest_from(list, present, k) == list[i],
        i == list.len() ==> picker::nearest_from(list, present, k) == "/"@,
    decreases i - k,
{
    if k < i {
        lemma_nearest_from(list, present, i, k + 1);
    }
}

/// The folders above a folder: itself first, and then each one's own parent.
pub proof fn lemma_ancestors(start: Seq<char>, k: int)
    requires
        0 <= k < picker::ancestors_of(start).len(),
    ensures
        picker::ancestors_of(start)[0] == start,
        k > 0 ==> paths::parent_of(picker::ancestors_of(start)[k - 1]) == Some(
            picker::ancestors_of(start)[k],
        ),
    decreases start.len(),
{
    if let Some(up) = paths::parent_of(start) {
        if up.len() < start.len() {
            let rest = picker::ancestors_of(up);
            assert(rest.len() > 0);
            if k > 0 {
                lemma_ancestors(up, k - 1);
                assert(picker::ancestors_of(start)[k] == rest[k - 1]);
                if k > 1 {
                    assert(picker::ancestors_of(start)[k - 1] == rest[k - 2]);
                } else {
                    assert(rest[0] == up);
                }
            }
        }
    }
}

/// The listing holds the folder `name`, and it is shown.
pub open spec fn is_listed(list: Seq<picker::SeenView>, name: Seq<char>) -> bool {
    exists|i: int|
        0 <= i < list.len() && (#[trigger] list[i]).is_dir && list[i].name == name && !(name.len()
            > 0 && name[0] == '.')
}

proof fn lemma_shown_folders(list: Seq<picker::SeenView>)
    ensures
        forall|name: Seq<char>| #[trigger]
            picker::shown(list).contains(name) <==> is_listed(list, name),
    decreases list.len(),
{
    if list.len() > 0 {
        let init = list.drop_last();
        lemma_shown_folders(init);
        assert forall|name: Seq<char>| #[trigger] picker::shown(list).contains(name) <==> is_listed(
            list,
            name,
        ) by {
            let before = picker::shown(init);
            assert(before.contains(name) <==> is_listed(init, name));
            let last = list.last();
            assert(list[list.len() - 1] == last);
            if is_listed(init, name) {
                let i = choose|i: int|
                    0 <= i < init.len() && (#[trigger] init[i]).is_dir && init[i].name == name && !(
                    name.len() > 0 && name[0] == '.');
                assert(list[i] == init[i]);
            }
            if is_listed(list, name) && !is_listed(init, name) {
                let i = choose|i: int|
                    0 <= i < list.len() && (#[trigger] list[i]).is_dir && list[i].name == name && !(
                    name.len() > 0 && name[0] == '.');
                if i < init.len() {
                    assert(init[i] == list[i]);
                }
                assert(i == list.len() - 1);
                assert(before.push(last.name)[before.len() as int] == name);
            }
            if picker::shown(list).contains(name) {
                let k = picker::shown(list).index_of(name);
                if k < before.len() {
                    assert(before[k] == name);
                }
            }
            if before.contains(name) {
                let k = before.index_of(name);
                assert(picker::shown(list)[k] == name);
            }
        }
    }
}

/// The name that row `k` of a folder browser stands for.
pub open spec fn row_name(list: Seq<picker::SeenView>, k: int) -> Seq<char> {
    picker::shown(list)[order::ranking(picker::lowered(picker::shown(list)))[k]]
}

/// The rows of a folder browser are the folders inside the one that is shown,
/// those that are not hidden and nothing that is a file, in the order of their
/// names without regard to case.
pub proof fn lemma_entries(cwd: Seq<char>, list: Seq<picker::SeenView>, name: Seq<char>, j: int, k: int)
    ensures
        is_listed(list, name) ==> picker::entries_of(cwd, list).contains(paths::below(cwd, name)),
        0 <= k < picker::entries_of(cwd, list).len() ==> is_listed(list, row_name(list, k))
            && picker::entries_of(cwd, list)[k] == paths::below(cwd, row_name(list, k)),
        0 <= j < k < picker::entries_of(cwd, list).len() ==> !text::precedes(
            text::lower(row_name(list, k)),
            text::lower(row_name(list, j)),
        ),
{
    let names = picker::shown(list);
    let keys = picker::lowered(names);
    let rows = picker::entries_of(cwd, list);
    lemma_shown_folders(list);
    order::lemma_ranking(keys);
    let r = order::ranking(keys);
    assert(rows.len() == names.len());
    assert(forall|i: int|
        0 <= i < rows.len() ==> #[trigger] rows[i] == paths::below(cwd, names[r[i]]));
    if is_listed(list, name) {
        assert(names.contains(name));
        let i = names.index_of(name);
        assert(r.contains(i));
        let at = r.index_of(i);
        assert(rows[at] == paths::below(cwd, name));
    }
    if 0 <= k < rows.len() {
        assert(names.contains(names[r[k]]));
    }
    if 0 <= j < k < rows.len() {
        assert(order::in_order(keys, r[j], r[k]));
    }
}

} // verus!
