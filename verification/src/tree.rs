//! What an import leaves of the library tree, whichever way it came in.

use vstd::prelude::*;
use vstd::string::*;

use crate::config;
use crate::config::Field;
use crate::importer;
use crate::manifest;
use crate::online;
use crate::online::easyeda;
use crate::online::footprint;
use crate::online::symbol;
use crate::paths;

verus! {

/// The files an import writes are the ones its staged files are destined for.
proof fn lemma_within_destinations(
    cfg: config::ConfigView,
    part: Seq<char>,
    staged: Seq<importer::StagedView>,
    k: int,
)
    requires
        0 <= k < staged.len(),
    ensures
        forall|to: Seq<char>| #[trigger]
            importer::destinations_of(cfg, part, staged[k]).contains(to)
                ==> importer::all_destinations_of(cfg, part, staged).contains(to),
    decreases staged.len(),
{
    let init = staged.drop_last();
    let before = importer::all_destinations_of(cfg, part, init);
    let after = importer::all_destinations_of(cfg, part, staged);
    let more = importer::destinations_of(cfg, part, staged.last());
    assert(after == before + more);
    if k < init.len() {
        lemma_within_destinations(cfg, part, init, k);
        assert(init[k] == staged[k]);
    }
    assert forall|to: Seq<char>| #[trigger]
        importer::destinations_of(cfg, part, staged[k]).contains(to) implies after.contains(to) by {
        if k < init.len() {
            assert(before.contains(to));
            let j = before.index_of(to);
            assert(after[j] == to);
        } else {
            let j = more.index_of(to);
            assert(after[before.len() + j] == to);
        }
    }
}

/// Every file of the library that placing an import would replace is named
/// beforehand: what the staged files are moved or copied onto is on the list
/// that was checked, and whatever of it is there is a conflict.
pub proof fn lemma_named_first(
    cfg: config::ConfigView,
    p: importer::PendingView,
    present: Seq<bool>,
    footprints: bool,
)
    requires
        present.len() == importer::all_destinations_of(cfg, p.part, p.staged).len(),
    ensures
        forall|i: int|
            0 <= i < importer::items_tasks(cfg, p.part, p.staged, footprints).len()
                ==> match importer::written_by(
                #[trigger] importer::items_tasks(cfg, p.part, p.staged, footprints)[i],
            ) {
                Some(to) => exists|j: int|
                    #![trigger importer::all_destinations_of(cfg, p.part, p.staged)[j]]
                    0 <= j < present.len() && importer::all_destinations_of(
                        cfg,
                        p.part,
                        p.staged,
                    )[j] == to && (present[j] ==> importer::conflicts_of(
                        cfg,
                        p.part,
                        p.staged,
                        present,
                    ).contains(manifest::relative(cfg.library_root, to))),
                None => true,
            },
{
    let tasks = importer::items_tasks(cfg, p.part, p.staged, footprints);
    let all = importer::all_destinations_of(cfg, p.part, p.staged);
    importer::lemma_items_tasks(cfg, p.part, p.staged, footprints);
    importer::lemma_conflicts(cfg.library_root, all, present);
    assert forall|i: int| 0 <= i < tasks.len() implies match importer::written_by(
        #[trigger] tasks[i],
    ) {
        Some(to) => exists|j: int|
            #![trigger all[j]]
            0 <= j < present.len() && all[j] == to && (present[j] ==> importer::conflicts_of(
                cfg,
                p.part,
                p.staged,
                present,
            ).contains(manifest::relative(cfg.library_root, to))),
        None => true,
    } by {
        if let Some(to) = importer::written_by(tasks[i]) {
            let k = choose|k: int|
                0 <= k < p.staged.len() && importer::destinations_of(
                    cfg,
                    p.part,
                    #[trigger] p.staged[k],
                ).contains(to);
            lemma_within_destinations(cfg, p.part, p.staged, k);
            let j = all.index_of(to);
            assert(all[j] == to);
        }
    }
}

/// No task copies a file aside.
pub open spec fn keeps_no_backup(tasks: Seq<importer::TaskView>) -> bool {
    forall|i: int|
        0 <= i < tasks.len() ==> !((#[trigger] tasks[i]).action is Backup)
}

proof fn lemma_items_unsaved(
    cfg: config::ConfigView,
    part: Seq<char>,
    staged: Seq<importer::StagedView>,
    footprints: bool,
)
    requires
        !cfg.backup_before_overwrite,
    ensures
        keeps_no_backup(importer::items_tasks(cfg, part, staged, footprints)),
    decreases staged.len(),
{
    if staged.len() > 0 {
        lemma_items_unsaved(cfg, part, staged.drop_last(), footprints);
    }
}

/// With the `.bak` copies switched off, none is made: neither of a symbol file
/// nor of the merged library.
pub proof fn lemma_no_backups(
    cfg: config::ConfigView,
    p: importer::PendingView,
    lib: Seq<char>,
    source: Seq<char>,
    existing: Option<Seq<char>>,
)
    requires
        !cfg.backup_before_overwrite,
    ensures
        keeps_no_backup(importer::agenda_of(cfg, p)),
        keeps_no_backup(importer::merge_start(cfg, source)),
        keeps_no_backup(importer::merge_rest(cfg, lib, source, existing)),
{
    lemma_items_unsaved(cfg, p.part, p.staged, false);
    lemma_items_unsaved(cfg, p.part, p.staged, true);
}

/// With the per-part folders switched off, a footprint goes to one place like any
/// other file, and nothing is copied.
pub proof fn lemma_flat(cfg: config::ConfigView, part: Seq<char>, item: importer::StagedView)
    requires
        !cfg.per_part_footprint_dirs,
    ensures
        importer::destinations_of(cfg, part, item).len() == 1,
        forall|i: int|
            0 <= i < importer::item_tasks(cfg, part, item).len() ==> !((
            #[trigger] importer::item_tasks(cfg, part, item)[i]).action is Copy),
{
}

/// Once something is imported, the source archive is moved to the archive folder,
/// or deleted when that is what is configured; either way the staging area goes
/// last.
pub proof fn lemma_filed(cfg: config::ConfigView, p: importer::PendingView, zip: Seq<char>)
    requires
        p.staged.len() > 0,
        p.zip == Some(zip),
    ensures
        cfg.delete_zip_after_import ==> importer::agenda_of(cfg, p).contains(
            importer::fatal(
                importer::ActionView::Remove { path: zip },
                "deleting "@ + zip + ": "@,
            ),
        ),
        !cfg.delete_zip_after_import ==> importer::agenda_of(cfg, p).contains(
            importer::moves(zip, paths::below(cfg.archive_dir, p.source)),
        ),
        importer::agenda_of(cfg, p).last().action == (importer::ActionView::RemoveTree {
            path: p.staging,
        }),
{
    let all = importer::agenda_of(cfg, p);
    let close = importer::closing_tasks(cfg, p);
    let before = all.len() - close.len();
    assert(all[all.len() - 1] == close[close.len() - 1]);
    if cfg.delete_zip_after_import {
        assert(all[before] == close[0]);
    } else {
        let placed = importer::place_tasks(zip, paths::below(cfg.archive_dir, p.source));
        assert(close[placed.len() as int] == placed.last());
        assert(all[before + placed.len()] == close[placed.len() as int]);
    }
}

/// What is recorded of a part does not change when the library is moved: every
/// file of it, seen from the root, stays in the same place.
pub proof fn lemma_movable(
    cfg: config::ConfigView,
    root: Seq<char>,
    part: Seq<char>,
    item: importer::StagedView,
)
    requires
        cfg.library_root.len() > 0,
        importer::is_placeable(part, item),
        forall|f: Field| #[trigger] config::inside().contains(f) ==> !config::is_stray(cfg, f),
    ensures
        ({
            let moved = config::rebased(cfg, root);
            let old = importer::destinations_of(cfg, part, item);
            let new = importer::destinations_of(moved, part, item);
            &&& old.len() == new.len()
            &&& forall|i: int|
                0 <= i < old.len() ==> paths::same_place(
                    manifest::relative(moved.library_root, #[trigger] new[i]),
                    manifest::relative(cfg.library_root, old[i]),
                )
        }),
{
    let moved = config::rebased(cfg, root);
    config::lemma_rebased(cfg, root);
    importer::lemma_destinations_inside(cfg, part, item);
    importer::lemma_destinations_inside(moved, part, item);
    let inside = config::inside();
    assert(inside[0] == Field::SymbolDir && inside.contains(Field::SymbolDir));
    assert(inside[1] == Field::FootprintDir && inside.contains(Field::FootprintDir));
    assert(inside[2] == Field::ModelDir && inside.contains(Field::ModelDir));
    lemma_seen_alike(cfg, moved, cfg.symbol_dir, moved.symbol_dir, item.name);
    lemma_seen_alike(cfg, moved, cfg.footprint_dir, moved.footprint_dir, item.name);
    lemma_seen_alike(cfg, moved, cfg.model_dir, moved.model_dir, item.name);
    importer::lemma_pretty_name(part);
    let folder = part + ".pretty"@;
    paths::lemma_below_name(cfg.footprint_dir, folder);
    paths::lemma_below_name(moved.footprint_dir, folder);
    paths::lemma_within(
        importer::pretty_folder(cfg, part),
        cfg.footprint_dir,
        cfg.library_root,
    );
    assert(paths::components(importer::pretty_folder(moved, part)) =~= paths::components(root)
        + paths::components(importer::pretty_folder(cfg, part)).skip(
        paths::components(cfg.library_root).len() as int,
    ));
    lemma_seen_alike(
        cfg,
        moved,
        importer::pretty_folder(cfg, part),
        importer::pretty_folder(moved, part),
        item.name,
    );
}

proof fn lemma_seen_alike(
    cfg: config::ConfigView,
    moved: config::ConfigView,
    dir: Seq<char>,
    now: Seq<char>,
    name: Seq<char>,
)
    requires
        cfg.library_root.len() > 0,
        paths::is_name(name),
        paths::within(dir, cfg.library_root),
        paths::components(now) == paths::components(moved.library_root) + paths::components(
            dir,
        ).skip(paths::components(cfg.library_root).len() as int),
    ensures
        paths::same_place(
            manifest::relative(moved.library_root, paths::below(now, name)),
            manifest::relative(cfg.library_root, paths::below(dir, name)),
        ),
{
    let a = paths::below(dir, name);
    let b = paths::below(now, name);
    let from = paths::components(cfg.library_root);
    let to = paths::components(moved.library_root);
    paths::lemma_below_name(dir, name);
    paths::lemma_below_name(now, name);
    paths::lemma_within(a, dir, cfg.library_root);
    assert(paths::components(b).take(to.len() as int) =~= to);
    paths::lemma_rest(a, cfg.library_root);
    if moved.library_root.len() == 0 {
        assert(moved.library_root =~= Seq::<char>::empty());
        paths::lemma_empty();
        paths::lemma_names(a);
        paths::lemma_names(b);
        if from.len() == 0 {
            paths::lemma_only_empty(cfg.library_root);
        }
        assert(paths::components(b)[0] == paths::components(a)[from.len() as int]);
    }
    paths::lemma_rest(b, moved.library_root);
    assert(paths::components(b).skip(to.len() as int) =~= paths::components(a).skip(
        from.len() as int,
    ));
}

// ------------------------------------------------------------- what is staged

/// The top-level folder of an archive member is a plain name.
proof fn lemma_top_folder(name: Seq<char>)
    ensures
        importer::top_folder(name) matches Some(top) ==> !top.contains('/'),
{
    paths::lemma_names(name);
    if importer::top_folder(name) is Some {
        let at = paths::head(name).len() as int;
        assert(paths::components(name)[at] == paths::naming(paths::segments(name))[0]);
    }
}

/// What has been read so far can be placed.
spec fn is_fit(u: importer::UnpackingView, staging: Seq<char>) -> bool {
    &&& !u.part.contains('/')
    &&& forall|i: int|
        0 <= i < u.files.len() ==> paths::is_name((#[trigger] u.files[i]).item.name)
            && paths::within(u.files[i].item.path, staging)
}

proof fn lemma_members_fit(zip: Seq<char>, staging: Seq<char>, archive: Seq<u8>, n: nat)
    ensures
        importer::members_read(zip, staging, archive, n) matches Ok(u) ==> is_fit(u, staging),
    decreases n,
{
    if n > 0 {
        let i = (n - 1) as nat;
        lemma_members_fit(zip, staging, archive, i);
        if let Ok(u) = importer::members_read(zip, staging, archive, i) {
            if let Ok(name) = importer::zip_name(archive, i) {
                if let Some((kind, path, file)) = importer::wanted_member(name) {
                    paths::lemma_leaf(path);
                    paths::lemma_below_name(staging, file);
                    lemma_top_folder(name);
                }
            }
        }
    }
}

proof fn lemma_without_lib(s: Seq<char>)
    requires
        !s.contains('/'),
    ensures
        !importer::without_lib(s).contains('/'),
    decreases s.len(),
{
    if s.len() >= 4 && s.take(4) == "LIB_"@ {
        let rest = s.skip(4);
        assert forall|i: int| 0 <= i < rest.len() implies rest[i] != '/' by {
            assert(s.contains(s[i + 4]));
        }
        lemma_without_lib(rest);
    }
}

proof fn lemma_last_dot(name: Seq<char>)
    ensures
        paths::last_dot(name) matches Some(i) ==> 0 <= i < name.len(),
    decreases name.len(),
{
    if name.len() > 0 {
        lemma_last_dot(name.drop_last());
    }
}

proof fn lemma_archive_stem(zip: Seq<char>)
    ensures
        !importer::archive_stem(zip).contains('/'),
{
    paths::lemma_leaf(zip);
    reveal_strlit("archive");
    if let Some(name) = paths::leaf_of(zip) {
        let stem = paths::name_stem(name);
        lemma_last_dot(name);
        assert forall|i: int| 0 <= i < stem.len() implies stem[i] != '/' by {
            assert(name.contains(name[i]));
        }
    }
}

/// Whatever an archive holds, what is taken out of it waits inside the staging
/// area, and can be placed inside the library: no member's name leads elsewhere.
pub proof fn lemma_zip_stays_inside(cfg: config::ConfigView, zip: Seq<char>, archive: Seq<u8>)
    ensures
        importer::prepared(cfg, zip, archive) matches Ok((p, files)) ==> forall|k: int|
            0 <= k < p.staged.len() ==> importer::is_placeable(p.part, #[trigger] p.staged[k])
                && paths::within(p.staged[k].path, p.staging),
{
    let staging = importer::staging_of(cfg, importer::archive_stem(zip));
    if let Ok(n) = importer::zip_size(archive) {
        lemma_members_fit(zip, staging, archive, n);
        lemma_archive_stem(zip);
        lemma_without_lib(importer::archive_stem(zip));
        if let Ok(u) = importer::members_read(zip, staging, archive, n) {
            if let Ok(p) = importer::unpacked(u, zip, staging) {
                assert forall|k: int| 0 <= k < p.staged.len() implies importer::is_placeable(
                    p.part,
                    #[trigger] p.staged[k],
                ) && paths::within(p.staged[k].path, p.staging) by {
                    assert(p.staged[k] == u.files[k].item);
                }
            }
        }
    }
}

proof fn lemma_safe_name(name: Seq<char>, ending: Seq<char>)
    requires
        online::is_clean(name),
        ending.len() >= 2,
        !ending.contains('/'),
    ensures
        !name.contains('/'),
        paths::is_name(name + ending),
{
    let whole = name + ending;
    assert forall|i: int| 0 <= i < name.len() implies name[i] != '/' by {
        assert(online::is_safe(name[i]));
    }
    assert forall|i: int| 0 <= i < whole.len() implies whole[i] != '/' by {
        if i >= name.len() {
            assert(whole[i] == ending[i - name.len()]);
            assert(ending.contains(ending[i - name.len()]));
        }
    }
    assert(whole.len() >= 2);
    assert(seq!['.'].len() == 1);
}

proof fn lemma_waiting_fit(cfg: config::ConfigView, part: online::RemotePartView)
    requires
        !part.name.contains('/'),
        paths::is_name(part.symbol.0),
        part.footprint matches Some(f) ==> paths::is_name(f.0),
        part.model matches Some(m) ==> paths::is_name(m.0),
    ensures
        forall|k: int|
            0 <= k < online::waiting_files(cfg, part).len() ==> importer::is_placeable(
                part.name,
                (#[trigger] online::waiting_files(cfg, part)[k]).item,
            ),
{
}

/// The names of the files a component becomes.
proof fn lemma_assembled_names(
    c: easyeda::ComponentView,
    plan: online::PlanView,
    drawn: Seq<symbol::DrawnView>,
    package: Seq<footprint::DrawnView>,
    placement: Option<footprint::PlacementView>,
    step: Option<Seq<u8>>,
)
    ensures
        ({
            let part = online::assembled(c, plan, drawn, package, placement, step);
            &&& part.name == plan.name
            &&& part.symbol.0 == plan.name + ".kicad_sym"@
            &&& part.footprint matches Some(f) ==> f.0 == plan.footprint_name + ".kicad_mod"@
            &&& part.model matches Some(m) ==> m.0 == plan.name + ".stp"@
        }),
{
}

proof fn lemma_planned_fit(cfg: config::ConfigView, lcsc: Seq<char>, c: easyeda::ComponentView)
    ensures
        online::planned(cfg, lcsc, c) matches Ok(plan) ==> !plan.name.contains('/')
            && paths::is_name(plan.name + ".kicad_sym"@) && paths::is_name(
            plan.name + ".stp"@,
        ) && paths::is_name(plan.footprint_name + ".kicad_mod"@),
{
    online::lemma_sanitized_clean(c.title);
    online::lemma_sanitized_clean(c.package_name);
    reveal_strlit(".kicad_sym");
    reveal_strlit(".kicad_mod");
    reveal_strlit(".stp");
    lemma_safe_name(online::sanitized(c.title), ".kicad_sym"@);
    lemma_safe_name(online::sanitized(c.title), ".stp"@);
    lemma_safe_name(online::sanitized(c.package_name), ".kicad_mod"@);
}

/// Whatever the catalogue calls a component, its files can be placed inside the
/// library like those of an archive.
pub proof fn lemma_web_stays_inside(
    cfg: config::ConfigView,
    lcsc: Seq<char>,
    c: easyeda::ComponentView,
    drawn: Seq<symbol::DrawnView>,
    package: Seq<footprint::DrawnView>,
    placement: Option<footprint::PlacementView>,
    step: Option<Seq<u8>>,
)
    ensures
        online::planned(cfg, lcsc, c) matches Ok(plan) ==> {
            let part = online::assembled(c, plan, drawn, package, placement, step);
            let files = online::waiting_files(cfg, part);
            forall|k: int|
                0 <= k < files.len() ==> importer::is_placeable(
                    part.name,
                    (#[trigger] files[k]).item,
                )
        },
{
    lemma_planned_fit(cfg, lcsc, c);
    if let Ok(plan) = online::planned(cfg, lcsc, c) {
        lemma_assembled_names(c, plan, drawn, package, placement, step);
        lemma_waiting_fit(cfg, online::assembled(c, plan, drawn, package, placement, step));
    }
}

} // verus!
