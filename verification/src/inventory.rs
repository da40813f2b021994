//! What a scan of the library folders tells of each part: which files it has and
//! where they are.

use vstd::prelude::*;

use crate::app::panes;
use crate::config;
use crate::importer::Kind;
use crate::library;
use crate::manifest;
use crate::order;
use crate::paths;
use crate::symlib;
use crate::text;

verus! {

/// `b` begins with `a`.
pub open spec fn begins(b: Seq<Seq<char>>, a: Seq<Seq<char>>) -> bool {
    a.len() <= b.len() && forall|j: int| 0 <= j < a.len() ==> #[trigger] b[j] == a[j]
}

/// A part with files added: what it had is still there.
pub open spec fn has_grown(b: manifest::PartView, a: manifest::PartView) -> bool {
    &&& b.name == a.name
    &&& b.symbol_file == a.symbol_file
    &&& b.symbol_names == a.symbol_names
    &&& a.imported_at.len() > 0 ==> b.imported_at == a.imported_at
    &&& begins(b.models, a.models)
    &&& begins(b.footprints, a.footprints)
}

/// Parts with parts and files added.
pub open spec fn all_grown(b: Seq<manifest::PartView>, a: Seq<manifest::PartView>) -> bool {
    a.len() <= b.len() && forall|i: int| 0 <= i < a.len() ==> has_grown(#[trigger] b[i], a[i])
}

proof fn lemma_grown_twice(
    a: Seq<manifest::PartView>,
    b: Seq<manifest::PartView>,
    c: Seq<manifest::PartView>,
)
    requires
        all_grown(b, a),
        all_grown(c, b),
    ensures
        all_grown(c, a),
{
    assert forall|i: int| 0 <= i < a.len() implies has_grown(#[trigger] c[i], a[i]) by {
        assert(has_grown(b[i], a[i]));
        assert(has_grown(c[i], b[i]));
        assert forall|j: int| 0 <= j < a[i].models.len() implies #[trigger] c[i].models[j]
            == a[i].models[j] by {
            assert(b[i].models[j] == a[i].models[j]);
        }
        assert forall|j: int| 0 <= j < a[i].footprints.len() implies #[trigger] c[i].footprints[j]
            == a[i].footprints[j] by {
            assert(b[i].footprints[j] == a[i].footprints[j]);
        }
    }
}

/// Where a part called `name` is, or is put.
proof fn lemma_entry(parts: Seq<manifest::PartView>, name: Seq<char>)
    ensures
        ({
            let all = library::with_entry(parts, name);
            let i = library::entry_at(parts, name);
            &&& 0 <= i < all.len()
            &&& all[i].name == name
            &&& all_grown(all, parts)
        }),
{
    library::lemma_place(parts, name, parts.len() as int);
}

proof fn lemma_model_step(
    parts: Seq<manifest::PartView>,
    root: Seq<char>,
    dir: Seq<char>,
    f: library::ListedView,
)
    ensures
        all_grown(library::add_model(parts, root, dir, f), parts),
{
    lemma_entry(parts, paths::name_stem(f.name));
}

proof fn lemma_models_grow(
    parts: Seq<manifest::PartView>,
    root: Seq<char>,
    dir: Seq<char>,
    files: Seq<library::ListedView>,
)
    ensures
        all_grown(library::models_added(parts, root, dir, files), parts),
    decreases files.len(),
{
    if files.len() > 0 {
        let before = library::models_added(parts, root, dir, files.drop_last());
        lemma_models_grow(parts, root, dir, files.drop_last());
        lemma_model_step(before, root, dir, files.last());
        lemma_grown_twice(parts, before, library::models_added(parts, root, dir, files));
    }
}

proof fn lemma_fill(
    part: manifest::PartView,
    root: Seq<char>,
    dir: Seq<char>,
    files: Seq<library::ListedView>,
)
    ensures
        has_grown(library::fill_folder(part, root, dir, files), part),
    decreases files.len(),
{
    if files.len() > 0 {
        lemma_fill(part, root, dir, files.drop_last());
    }
}

proof fn lemma_filled(
    part: manifest::PartView,
    root: Seq<char>,
    dir: Seq<char>,
    files: Seq<library::ListedView>,
    k: int,
)
    requires
        0 <= k < files.len(),
    ensures
        library::fill_folder(part, root, dir, files).footprints.contains(
            manifest::relative(root, paths::below(dir, files[k].name)),
        ),
    decreases files.len(),
{
    let before = library::fill_folder(part, root, dir, files.drop_last());
    let now = library::fill_folder(part, root, dir, files);
    let path = manifest::relative(root, paths::below(dir, files[k].name));
    if k == files.len() - 1 {
        assert(now.footprints[before.footprints.len() as int] == path);
    } else {
        lemma_filled(part, root, dir, files.drop_last(), k);
        let i = before.footprints.index_of(path);
        assert(now.footprints[i] == path);
    }
}

proof fn lemma_folder_step(
    parts: Seq<manifest::PartView>,
    root: Seq<char>,
    dir: Seq<char>,
    folder: library::FolderView,
)
    ensures
        all_grown(library::add_folder(parts, root, dir, folder), parts),
{
    if library::has_footprint(folder) {
        let name = paths::name_stem(folder.name);
        lemma_entry(parts, name);
        let all = library::with_entry(parts, name);
        let i = library::entry_at(parts, name);
        let files = library::files_of(folder.files, Kind::Footprint);
        let filled = library::fill_folder(all[i], root, paths::below(dir, folder.name), files);
        lemma_fill(all[i], root, paths::below(dir, folder.name), files);
        assert(all_grown(all.update(i, filled), all));
        lemma_grown_twice(parts, all, all.update(i, filled));
    }
}

proof fn lemma_folders_grow(
    parts: Seq<manifest::PartView>,
    root: Seq<char>,
    dir: Seq<char>,
    folders: Seq<library::FolderView>,
)
    ensures
        all_grown(library::folders_added(parts, root, dir, folders), parts),
    decreases folders.len(),
{
    if folders.len() > 0 {
        let before = library::folders_added(parts, root, dir, folders.drop_last());
        lemma_folders_grow(parts, root, dir, folders.drop_last());
        lemma_folder_step(before, root, dir, folders.last());
        lemma_grown_twice(parts, before, library::folders_added(parts, root, dir, folders));
    }
}

proof fn lemma_attach_grows(
    parts: Seq<manifest::PartView>,
    owners: Seq<Seq<char>>,
    path: Seq<char>,
)
    ensures
        all_grown(library::attach(parts, owners, path), parts),
    decreases owners.len(),
{
    if owners.len() > 0 {
        let before = library::attach(parts, owners.drop_last(), path);
        lemma_attach_grows(parts, owners.drop_last(), path);
        library::lemma_place(before, owners.last(), before.len() as int);
        lemma_grown_twice(parts, before, library::attach(parts, owners, path));
    }
}

proof fn lemma_flats_grow(
    parts: Seq<manifest::PartView>,
    root: Seq<char>,
    dir: Seq<char>,
    symbols: Seq<library::ListedView>,
    files: Seq<library::ListedView>,
)
    ensures
        all_grown(library::flats_added(parts, root, dir, symbols, files), parts),
    decreases files.len(),
{
    if files.len() > 0 {
        let before = library::flats_added(parts, root, dir, symbols, files.drop_last());
        lemma_flats_grow(parts, root, dir, symbols, files.drop_last());
        lemma_attach_grows(
            before,
            library::owners(symbols, paths::name_stem(files.last().name)),
            manifest::relative(root, paths::below(dir, files.last().name)),
        );
        lemma_grown_twice(parts, before, library::flats_added(parts, root, dir, symbols, files));
    }
}

// ------------------------------------------------------------------ symbols

proof fn lemma_symbol_kept(
    root: Seq<char>,
    dir: Seq<char>,
    files: Seq<library::ListedView>,
    k: int,
) -> (i: int)
    requires
        0 <= k < files.len(),
        forall|j: int|
            k < j < files.len() ==> paths::name_stem((#[trigger] files[j]).name) != paths::name_stem(
                files[k].name,
            ),
    ensures
        ({
            let parts = library::symbols_added(root, dir, files);
            &&& 0 <= i < parts.len()
            &&& parts[i].name == paths::name_stem(files[k].name)
            &&& parts[i].symbol_file == Some(
                manifest::relative(root, paths::below(dir, files[k].name)),
            )
            &&& parts[i].symbol_names == symlib::symbol_names_in(files[k].text)
            &&& parts[i].imported_at == files[k].modified
        }),
    decreases files.len(),
{
    let init = files.drop_last();
    let before = library::symbols_added(root, dir, init);
    let name = paths::name_stem(files.last().name);
    lemma_entry(before, name);
    if k == files.len() - 1 {
        library::entry_at(before, name)
    } else {
        let i = lemma_symbol_kept(root, dir, init, k);
        assert(files[files.len() - 1] == files.last());
        let all = library::with_entry(before, name);
        assert(has_grown(all[i], before[i]));
        assert(library::entry_at(before, name) != i);
        assert(all[i] == before[i]);
        i
    }
}

/// Where a part of the gathered ones is in what a scan lists.
proof fn lemma_listed(
    cfg: config::ConfigView,
    symbols: Seq<library::ListedView>,
    models: Seq<library::ListedView>,
    folders: Seq<library::FolderView>,
    footprints: Seq<library::ListedView>,
    m: int,
) -> (i: int)
    requires
        0 <= m < library::gathered(cfg, symbols, models, folders, footprints).len(),
    ensures
        0 <= i < library::scanned(cfg, symbols, models, folders, footprints).len(),
        library::scanned(cfg, symbols, models, folders, footprints)[i] == library::gathered(
            cfg,
            symbols,
            models,
            folders,
            footprints,
        )[m],
{
    let d = library::gathered(cfg, symbols, models, folders, footprints);
    let names = library::part_names(d);
    order::lemma_ranking(names);
    assert(order::ranking(names).contains(m));
    order::ranking(names).index_of(m)
}

/// A symbol file makes a part of its name. The part has that file, seen from the
/// root, the symbols that are in it, and its date.
pub proof fn lemma_symbol_listed(
    cfg: config::ConfigView,
    symbols: Seq<library::ListedView>,
    models: Seq<library::ListedView>,
    folders: Seq<library::FolderView>,
    footprints: Seq<library::ListedView>,
    k: int,
) -> (i: int)
    requires
        0 <= k < library::files_of(symbols, Kind::Symbol).len(),
        forall|j: int|
            k < j < library::files_of(symbols, Kind::Symbol).len() ==> paths::name_stem(
                (#[trigger] library::files_of(symbols, Kind::Symbol)[j]).name,
            ) != paths::name_stem(library::files_of(symbols, Kind::Symbol)[k].name),
    ensures
        ({
            let parts = library::scanned(cfg, symbols, models, folders, footprints);
            let file = library::files_of(symbols, Kind::Symbol)[k];
            &&& 0 <= i < parts.len()
            &&& parts[i].name == paths::name_stem(file.name)
            &&& parts[i].symbol_file == Some(
                manifest::relative(cfg.library_root, paths::below(cfg.symbol_dir, file.name)),
            )
            &&& parts[i].symbol_names == symlib::symbol_names_in(file.text)
            &&& file.modified.len() > 0 ==> parts[i].imported_at == file.modified
        }),
{
    let root = cfg.library_root;
    let files = library::files_of(symbols, Kind::Symbol);
    let a = library::symbols_added(root, cfg.symbol_dir, files);
    let boxes = library::files_of(models, Kind::Model);
    let b = library::models_added(a, root, cfg.model_dir, boxes);
    let own = library::folders_of(folders);
    let c = library::folders_added(b, root, cfg.footprint_dir, own);
    let flat = library::files_of(footprints, Kind::Footprint);
    let d = library::flats_added(c, root, cfg.footprint_dir, files, flat);
    let m = lemma_symbol_kept(root, cfg.symbol_dir, files, k);
    lemma_models_grow(a, root, cfg.model_dir, boxes);
    lemma_folders_grow(b, root, cfg.footprint_dir, own);
    lemma_flats_grow(c, root, cfg.footprint_dir, files, flat);
    lemma_grown_twice(a, b, c);
    lemma_grown_twice(a, c, d);
    assert(has_grown(d[m], a[m]));
    lemma_listed(cfg, symbols, models, folders, footprints, m)
}

// ------------------------------------------------------------------- models

proof fn lemma_model_kept(
    parts: Seq<manifest::PartView>,
    root: Seq<char>,
    dir: Seq<char>,
    files: Seq<library::ListedView>,
    k: int,
) -> (i: int)
    requires
        0 <= k < files.len(),
    ensures
        ({
            let all = library::models_added(parts, root, dir, files);
            &&& 0 <= i < all.len()
            &&& all[i].name == paths::name_stem(files[k].name)
            &&& all[i].models.contains(manifest::relative(root, paths::below(dir, files[k].name)))
        }),
    decreases files.len(),
{
    let init = files.drop_last();
    let before = library::models_added(parts, root, dir, init);
    let all = library::models_added(parts, root, dir, files);
    let name = paths::name_stem(files.last().name);
    let path = manifest::relative(root, paths::below(dir, files[k].name));
    lemma_entry(before, name);
    lemma_model_step(before, root, dir, files.last());
    if k == files.len() - 1 {
        let i = library::entry_at(before, name);
        let had = library::with_entry(before, name)[i];
        assert(all[i].models[had.models.len() as int] == path);
        i
    } else {
        let i = lemma_model_kept(parts, root, dir, init, k);
        assert(has_grown(all[i], before[i]));
        let j = before[i].models.index_of(path);
        assert(all[i].models[j] == path);
        i
    }
}

/// A 3D model belongs to the part of its name, and is listed with it where it is,
/// seen from the root.
pub proof fn lemma_model_listed(
    cfg: config::ConfigView,
    symbols: Seq<library::ListedView>,
    models: Seq<library::ListedView>,
    folders: Seq<library::FolderView>,
    footprints: Seq<library::ListedView>,
    k: int,
) -> (i: int)
    requires
        0 <= k < library::files_of(models, Kind::Model).len(),
    ensures
        ({
            let parts = library::scanned(cfg, symbols, models, folders, footprints);
            let file = library::files_of(models, Kind::Model)[k];
            &&& 0 <= i < parts.len()
            &&& parts[i].name == paths::name_stem(file.name)
            &&& parts[i].models.contains(
                manifest::relative(cfg.library_root, paths::below(cfg.model_dir, file.name)),
            )
        }),
{
    let root = cfg.library_root;
    let files = library::files_of(symbols, Kind::Symbol);
    let a = library::symbols_added(root, cfg.symbol_dir, files);
    let boxes = library::files_of(models, Kind::Model);
    let b = library::models_added(a, root, cfg.model_dir, boxes);
    let own = library::folders_of(folders);
    let c = library::folders_added(b, root, cfg.footprint_dir, own);
    let flat = library::files_of(footprints, Kind::Footprint);
    let d = library::flats_added(c, root, cfg.footprint_dir, files, flat);
    let m = lemma_model_kept(a, root, cfg.model_dir, boxes, k);
    lemma_folders_grow(b, root, cfg.footprint_dir, own);
    lemma_flats_grow(c, root, cfg.footprint_dir, files, flat);
    lemma_grown_twice(b, c, d);
    assert(has_grown(d[m], b[m]));
    let path = manifest::relative(root, paths::below(cfg.model_dir, boxes[k].name));
    let j = b[m].models.index_of(path);
    assert(d[m].models[j] == path);
    lemma_listed(cfg, symbols, models, folders, footprints, m)
}

// --------------------------------------------------------------- footprints

proof fn lemma_folder_kept(
    parts: Seq<manifest::PartView>,
    root: Seq<char>,
    dir: Seq<char>,
    folders: Seq<library::FolderView>,
    k: int,
    n: int,
) -> (i: int)
    requires
        0 <= k < folders.len(),
        library::is_pretty(folders[k].name),
        0 <= n < library::files_of(folders[k].files, Kind::Footprint).len(),
    ensures
        ({
            let all = library::folders_added(parts, root, dir, folders);
            let file = library::files_of(folders[k].files, Kind::Footprint)[n];
            &&& 0 <= i < all.len()
            &&& all[i].name == paths::name_stem(folders[k].name)
            &&& all[i].footprints.contains(
                manifest::relative(
                    root,
                    paths::below(paths::below(dir, folders[k].name), file.name),
                ),
            )
        }),
    decreases folders.len(),
{
    let init = folders.drop_last();
    let before = library::folders_added(parts, root, dir, init);
    let all = library::folders_added(parts, root, dir, folders);
    let files = library::files_of(folders[k].files, Kind::Footprint);
    let there = paths::below(dir, folders[k].name);
    let path = manifest::relative(root, paths::below(there, files[n].name));
    lemma_folder_step(before, root, dir, folders.last());
    if k == folders.len() - 1 {
        let name = paths::name_stem(folders.last().name);
        lemma_entry(before, name);
        let i = library::entry_at(before, name);
        let had = library::with_entry(before, name)[i];
        lemma_fill(had, root, there, files);
        lemma_filled(had, root, there, files, n);
        i
    } else {
        let i = lemma_folder_kept(parts, root, dir, init, k, n);
        assert(has_grown(all[i], before[i]));
        let j = before[i].footprints.index_of(path);
        assert(all[i].footprints[j] == path);
        i
    }
}

/// A footprint in a part's own folder belongs to that part, and is listed with it
/// where it is, seen from the root.
pub proof fn lemma_own_footprint_listed(
    cfg: config::ConfigView,
    symbols: Seq<library::ListedView>,
    models: Seq<library::ListedView>,
    folders: Seq<library::FolderView>,
    footprints: Seq<library::ListedView>,
    k: int,
    n: int,
) -> (i: int)
    requires
        0 <= k < library::folders_of(folders).len(),
        library::is_pretty(library::folders_of(folders)[k].name),
        0 <= n < library::files_of(library::folders_of(folders)[k].files, Kind::Footprint).len(),
    ensures
        ({
            let parts = library::scanned(cfg, symbols, models, folders, footprints);
            let folder = library::folders_of(folders)[k];
            let file = library::files_of(folder.files, Kind::Footprint)[n];
            &&& 0 <= i < parts.len()
            &&& parts[i].name == paths::name_stem(folder.name)
            &&& parts[i].footprints.contains(
                manifest::relative(
                    cfg.library_root,
                    paths::below(paths::below(cfg.footprint_dir, folder.name), file.name),
                ),
            )
        }),
{
    let root = cfg.library_root;
    let files = library::files_of(symbols, Kind::Symbol);
    let a = library::symbols_added(root, cfg.symbol_dir, files);
    let boxes = library::files_of(models, Kind::Model);
    let b = library::models_added(a, root, cfg.model_dir, boxes);
    let own = library::folders_of(folders);
    let c = library::folders_added(b, root, cfg.footprint_dir, own);
    let flat = library::files_of(footprints, Kind::Footprint);
    let d = library::flats_added(c, root, cfg.footprint_dir, files, flat);
    let m = lemma_folder_kept(b, root, cfg.footprint_dir, own, k, n);
    lemma_flats_grow(c, root, cfg.footprint_dir, files, flat);
    assert(has_grown(d[m], c[m]));
    let file = library::files_of(own[k].files, Kind::Footprint)[n];
    let path = manifest::relative(
        root,
        paths::below(paths::below(cfg.footprint_dir, own[k].name), file.name),
    );
    let j = c[m].footprints.index_of(path);
    assert(d[m].footprints[j] == path);
    lemma_listed(cfg, symbols, models, folders, footprints, m)
}

proof fn lemma_attach_len(parts: Seq<manifest::PartView>, owners: Seq<Seq<char>>, path: Seq<char>)
    ensures
        library::attach(parts, owners, path).len() == parts.len(),
    decreases owners.len(),
{
    if owners.len() > 0 {
        let before = library::attach(parts, owners.drop_last(), path);
        lemma_attach_len(parts, owners.drop_last(), path);
        library::lemma_place(before, owners.last(), before.len() as int);
    }
}

proof fn lemma_flats_len(
    parts: Seq<manifest::PartView>,
    root: Seq<char>,
    dir: Seq<char>,
    symbols: Seq<library::ListedView>,
    files: Seq<library::ListedView>,
)
    ensures
        library::flats_added(parts, root, dir, symbols, files).len() == parts.len(),
    decreases files.len(),
{
    if files.len() > 0 {
        lemma_flats_len(parts, root, dir, symbols, files.drop_last());
        lemma_attach_len(
            library::flats_added(parts, root, dir, symbols, files.drop_last()),
            library::owners(symbols, paths::name_stem(files.last().name)),
            manifest::relative(root, paths::below(dir, files.last().name)),
        );
    }
}

proof fn lemma_flat_kept(
    parts: Seq<manifest::PartView>,
    root: Seq<char>,
    dir: Seq<char>,
    symbols: Seq<library::ListedView>,
    files: Seq<library::ListedView>,
    k: int,
    m: int,
) -> (i: int)
    requires
        0 <= k < files.len(),
        library::askers(symbols, paths::name_stem(files[k].name)).len() == 0,
        0 <= m < parts.len(),
        parts[m].name == paths::name_stem(files[k].name),
    ensures
        ({
            let all = library::flats_added(parts, root, dir, symbols, files);
            &&& 0 <= i < all.len()
            &&& all[i].name == paths::name_stem(files[k].name)
            &&& all[i].footprints.contains(
                manifest::relative(root, paths::below(dir, files[k].name)),
            )
        }),
    decreases files.len(),
{
    let init = files.drop_last();
    let before = library::flats_added(parts, root, dir, symbols, init);
    let all = library::flats_added(parts, root, dir, symbols, files);
    let last = files.last();
    let stem = paths::name_stem(last.name);
    let path = manifest::relative(root, paths::below(dir, files[k].name));
    let here = manifest::relative(root, paths::below(dir, last.name));
    lemma_flats_grow(parts, root, dir, symbols, init);
    lemma_attach_grows(before, library::owners(symbols, stem), here);
    if k == files.len() - 1 {
        assert(has_grown(before[m], parts[m]));
        let one = seq![stem];
        assert(one.drop_last() =~= Seq::<Seq<char>>::empty());
        assert(library::attach(before, one.drop_last(), here) == before);
        library::lemma_place(before, stem, before.len() as int);
        let i = library::place_of(before, stem)->Some_0;
        assert(all[i].footprints[before[i].footprints.len() as int] == path);
        i
    } else {
        let i = lemma_flat_kept(parts, root, dir, symbols, init, k, m);
        assert(has_grown(all[i], before[i]));
        let j = before[i].footprints.index_of(path);
        assert(all[i].footprints[j] == path);
        i
    }
}

/// A footprint that no symbol asks for belongs to the part of its own name, where
/// there is one, and is listed with it.
pub proof fn lemma_namesake_listed(
    cfg: config::ConfigView,
    symbols: Seq<library::ListedView>,
    models: Seq<library::ListedView>,
    folders: Seq<library::FolderView>,
    footprints: Seq<library::ListedView>,
    k: int,
) -> (i: int)
    requires
        0 <= k < library::files_of(footprints, Kind::Footprint).len(),
        library::askers(
            library::files_of(symbols, Kind::Symbol),
            paths::name_stem(library::files_of(footprints, Kind::Footprint)[k].name),
        ).len() == 0,
        library::is_named(
            symbols,
            models,
            folders,
            paths::name_stem(library::files_of(footprints, Kind::Footprint)[k].name),
        ),
    ensures
        ({
            let parts = library::scanned(cfg, symbols, models, folders, footprints);
            let file = library::files_of(footprints, Kind::Footprint)[k];
            &&& 0 <= i < parts.len()
            &&& parts[i].name == paths::name_stem(file.name)
            &&& parts[i].footprints.contains(
                manifest::relative(cfg.library_root, paths::below(cfg.footprint_dir, file.name)),
            )
        }),
{
    let root = cfg.library_root;
    let files = library::files_of(symbols, Kind::Symbol);
    let a = library::symbols_added(root, cfg.symbol_dir, files);
    let boxes = library::files_of(models, Kind::Model);
    let b = library::models_added(a, root, cfg.model_dir, boxes);
    let own = library::folders_of(folders);
    let c = library::folders_added(b, root, cfg.footprint_dir, own);
    let flat = library::files_of(footprints, Kind::Footprint);
    let d = library::flats_added(c, root, cfg.footprint_dir, files, flat);
    let out = library::scanned(cfg, symbols, models, folders, footprints);
    let stem = paths::name_stem(flat[k].name);
    library::lemma_scanned(cfg, symbols, models, folders, footprints);
    assert(library::part_names(out).contains(stem));
    let at = library::part_names(out).index_of(stem);
    order::lemma_ranking(library::part_names(d));
    let m = order::ranking(library::part_names(d))[at];
    assert(out[at] == d[m]);
    lemma_flats_grow(c, root, cfg.footprint_dir, files, flat);
    lemma_flats_len(c, root, cfg.footprint_dir, files, flat);
    assert(has_grown(d[m], c[m]));
    let n = lemma_flat_kept(c, root, cfg.footprint_dir, files, flat, k, m);
    lemma_listed(cfg, symbols, models, folders, footprints, n)
}

// ------------------------------------------------------------------ library

/// `b` is the part `a` with every file that `a` has.
pub open spec fn covers(b: manifest::PartView, a: manifest::PartView) -> bool {
    &&& b.name == a.name
    &&& a.symbol_file is Some ==> b.symbol_file is Some
    &&& forall|f: Seq<char>| a.symbol_names.contains(f) ==> #[trigger] b.symbol_names.contains(f)
    &&& forall|f: Seq<char>| a.footprints.contains(f) ==> #[trigger] b.footprints.contains(f)
    &&& forall|f: Seq<char>| a.models.contains(f) ==> #[trigger] b.models.contains(f)
}

proof fn lemma_found_added(parts: Seq<manifest::PartView>, found: manifest::PartView) -> (at: int)
    ensures
        ({
            let out = panes::with_found(parts, found);
            &&& 0 <= at < out.len()
            &&& covers(out[at], found)
            &&& parts.len() <= out.len()
            &&& forall|i: int| 0 <= i < parts.len() ==> covers(#[trigger] out[i], parts[i])
        }),
{
    library::lemma_place(parts, found.name, parts.len() as int);
    match library::place_of(parts, found.name) {
        Some(i) => {
            panes::lemma_united(parts[i].symbol_names, found.symbol_names);
            panes::lemma_united(parts[i].footprints, found.footprints);
            panes::lemma_united(parts[i].models, found.models);
            i
        },
        None => parts.len() as int,
    }
}

proof fn lemma_covered_twice(
    c: manifest::PartView,
    b: manifest::PartView,
    a: manifest::PartView,
)
    requires
        covers(c, b),
        covers(b, a),
    ensures
        covers(c, a),
{
    assert forall|f: Seq<char>| a.symbol_names.contains(f) implies #[trigger] c.symbol_names.contains(
        f,
    ) by {
        assert(b.symbol_names.contains(f));
    }
    assert forall|f: Seq<char>| a.footprints.contains(f) implies #[trigger] c.footprints.contains(
        f,
    ) by {
        assert(b.footprints.contains(f));
    }
    assert forall|f: Seq<char>| a.models.contains(f) implies #[trigger] c.models.contains(f) by {
        assert(b.models.contains(f));
    }
}

proof fn lemma_recorded_covered(
    recorded: Seq<manifest::PartView>,
    present: Seq<manifest::PartView>,
    i: int,
)
    requires
        0 <= i < recorded.len(),
    ensures
        i < panes::with_all(recorded, present).len(),
        covers(panes::with_all(recorded, present)[i], recorded[i]),
    decreases present.len(),
{
    if present.len() > 0 {
        let before = panes::with_all(recorded, present.drop_last());
        lemma_recorded_covered(recorded, present.drop_last(), i);
        lemma_found_added(before, present.last());
        lemma_covered_twice(panes::with_all(recorded, present)[i], before[i], recorded[i]);
    }
}

proof fn lemma_present_covered(
    recorded: Seq<manifest::PartView>,
    present: Seq<manifest::PartView>,
    k: int,
) -> (i: int)
    requires
        0 <= k < present.len(),
    ensures
        0 <= i < panes::with_all(recorded, present).len(),
        covers(panes::with_all(recorded, present)[i], present[k]),
    decreases present.len(),
{
    let before = panes::with_all(recorded, present.drop_last());
    let at = lemma_found_added(before, present.last());
    if k == present.len() - 1 {
        at
    } else {
        let i = lemma_present_covered(recorded, present.drop_last(), k);
        lemma_covered_twice(panes::with_all(recorded, present)[i], before[i], present[k]);
        i
    }
}

proof fn lemma_sorted_in(
    recorded: Seq<manifest::PartView>,
    present: Seq<manifest::PartView>,
    m: int,
) -> (i: int)
    requires
        0 <= m < panes::with_all(recorded, present).len(),
    ensures
        0 <= i < panes::library_of(recorded, present).len(),
        panes::library_of(recorded, present)[i] == panes::with_all(recorded, present)[m],
{
    let keys = manifest::part_keys(panes::with_all(recorded, present));
    order::lemma_ranking(keys);
    assert(order::ranking(keys).contains(m));
    order::ranking(keys).index_of(m)
}

/// What the library lists has every file of a part that the manifest records, and
/// of one that its folders hold, under the part's own name.
pub proof fn lemma_nothing_missing(
    recorded: Seq<manifest::PartView>,
    present: Seq<manifest::PartView>,
    from_disk: bool,
    k: int,
) -> (i: int)
    requires
        from_disk ==> 0 <= k < present.len(),
        !from_disk ==> 0 <= k < recorded.len(),
    ensures
        0 <= i < panes::library_of(recorded, present).len(),
        from_disk ==> covers(panes::library_of(recorded, present)[i], present[k]),
        !from_disk ==> covers(panes::library_of(recorded, present)[i], recorded[k]),
{
    if from_disk {
        let m = lemma_present_covered(recorded, present, k);
        lemma_sorted_in(recorded, present, m)
    } else {
        lemma_recorded_covered(recorded, present, k);
        lemma_sorted_in(recorded, present, k)
    }
}

// -------------------------------------------------------------------- files

/// The files of one kind in a folder: those with its extension, whatever the case
/// of that, and no others, by name.
pub proof fn lemma_kinds(f: library::ListedView, ext: Seq<char>)
    requires
        paths::name_extension(f.name) == Some(ext),
    ensures
        library::is_wanted(Kind::Symbol, f) <==> f.is_file && text::lower(ext) == "kicad_sym"@,
        library::is_wanted(Kind::Footprint, f) <==> f.is_file && text::lower(ext) == "kicad_mod"@,
        library::is_wanted(Kind::Model, f) <==> f.is_file && (text::lower(ext) == "stp"@
            || text::lower(ext) == "step"@ || text::lower(ext) == "wrl"@),
        library::is_pretty(f.name) <==> text::lower(ext) == "pretty"@,
{
}

proof fn lemma_wanted(list: Seq<library::ListedView>, kind: Kind, f: library::ListedView)
    ensures
        library::wanted_of(list, kind).contains(f) <==> list.contains(f) && library::is_wanted(
            kind,
            f,
        ),
    decreases list.len(),
{
    if list.len() > 0 {
        let init = list.drop_last();
        let before = library::wanted_of(init, kind);
        let all = library::wanted_of(list, kind);
        lemma_wanted(init, kind, f);
        if before.contains(f) {
            let i = before.index_of(f);
            assert(all[i] == f);
        }
        if all.contains(f) {
            let i = all.index_of(f);
            if i < before.len() {
                assert(before[i] == f);
            }
        }
        if init.contains(f) {
            let i = init.index_of(f);
            assert(list[i] == f);
        }
        if list.contains(f) {
            let i = list.index_of(f);
            if i < init.len() {
                assert(init[i] == f);
            } else if library::is_wanted(kind, f) {
                assert(all[all.len() - 1] == f);
            }
        }
        assert(list[list.len() - 1] == list.last());
    }
}

/// A folder's files of one kind are exactly those of that kind that it lists, in
/// the order of their names.
pub proof fn lemma_files(list: Seq<library::ListedView>, kind: Kind, f: library::ListedView, i: int, j: int)
    ensures
        library::files_of(list, kind).contains(f) <==> list.contains(f) && library::is_wanted(
            kind,
            f,
        ),
        0 <= i < j < library::files_of(list, kind).len() ==> !text::precedes(
            library::files_of(list, kind)[j].name,
            library::files_of(list, kind)[i].name,
        ),
{
    let all = library::wanted_of(list, kind);
    let names = library::listed_names(all);
    let out = library::files_of(list, kind);
    let r = order::ranking(names);
    lemma_wanted(list, kind, f);
    order::lemma_ranking(names);
    if all.contains(f) {
        let m = all.index_of(f);
        assert(r.contains(m));
        assert(out[r.index_of(m)] == f);
    }
    if out.contains(f) {
        let m = out.index_of(f);
        assert(all[r[m]] == f);
    }
    if 0 <= i < j < out.len() {
        assert(order::in_order(names, r[i], r[j]));
    }
}

/// The footprint that a line of a symbol file asks for stands behind the name of
/// the library that it is in.
pub proof fn lemma_asked_footprint(blank: Seq<char>, lib: Seq<char>, name: Seq<char>, rest: Seq<char>)
    requires
        forall|i: int| 0 <= i < blank.len() ==> text::is_white(#[trigger] blank[i]),
        !lib.contains('"') && !lib.contains(':'),
        !name.contains('"') && !name.contains(':'),
    ensures
        library::declared_in(
            blank + ("(property \"Footprint\""@ + (" \""@ + lib + ":"@ + name + "\""@ + rest)),
        ) == Some(name),
{
    let key = "(property \"Footprint\""@;
    let inner = lib + ":"@ + name;
    let body = " \""@ + lib + ":"@ + name + "\""@ + rest;
    let line = key + body;
    reveal_strlit("(property \"Footprint\"");
    reveal_strlit(" \"");
    reveal_strlit(":");
    reveal_strlit("\"");
    lemma_blank(blank, line);
    assert(line.take(key.len() as int) =~= key);
    assert(line.skip(key.len() as int) =~= body);
    let one = seq![' '];
    assert(one.push('"') + (inner + seq!['"'] + rest) =~= body);
    text::lemma_split_append(one, inner + seq!['"'] + rest, '"');
    text::lemma_split_append(inner, rest, '"');
    assert(inner.push('"') + rest =~= inner + seq!['"'] + rest);
    assert forall|i: int| 0 <= i < inner.len() implies inner[i] != '"' by {
        if i < lib.len() {
            assert(lib.contains(lib[i]));
        } else if i > lib.len() {
            assert(name.contains(name[i - lib.len() - 1]));
        }
    }
    text::lemma_split_plain(inner, '"');
    text::lemma_split_plain(one, '"');
    let parts = text::split(body, '"');
    assert(parts[1] == inner);
    text::lemma_split_append(lib, name, ':');
    assert(lib.push(':') + name =~= inner);
    text::lemma_split_plain(name, ':');
    assert(text::split(inner, ':').last() == name);
}

proof fn lemma_blank(blank: Seq<char>, line: Seq<char>)
    requires
        forall|i: int| 0 <= i < blank.len() ==> text::is_white(#[trigger] blank[i]),
        line.len() > 0,
        !text::is_white(line[0]),
    ensures
        text::trim_start(blank + line) == line,
    decreases blank.len(),
{
    let s = blank + line;
    if blank.len() == 0 {
        assert(s =~= line);
    } else {
        assert(text::is_white(blank[0]));
        assert(s[0] == blank[0]);
        let rest = blank.drop_first();
        assert(forall|i: int| 0 <= i < rest.len() ==> rest[i] == blank[i + 1]);
        lemma_blank(rest, line);
        assert(s.drop_first() =~= rest + line);
    }
}

} // verus!
