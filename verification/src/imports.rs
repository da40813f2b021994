//! An import from end to end: what of an archive is kept, where each file goes,
//! what is done on the way, and what is recorded of it.

use vstd::prelude::*;
use vstd::string::*;

use crate::config;
use crate::importer;
use crate::importer::Kind;
use crate::manifest;
use crate::order;
use crate::paths;
use crate::scan;
use crate::symlib;
use crate::text;

verus! {

// -------------------------------------------------------------------- names

proof fn lemma_last_dot(a: Seq<char>, b: Seq<char>)
    requires
        !b.contains('.'),
    ensures
        paths::last_dot(a + seq!['.'] + b) == Some(a.len() as int),
    decreases b.len(),
{
    let s = a + seq!['.'] + b;
    if b.len() == 0 {
        assert(s.last() == '.');
    } else {
        assert(s.last() == b.last());
        assert(b.contains(b.last()));
        let c = b.drop_last();
        assert forall|i: int| 0 <= i < c.len() implies c[i] != '.' by {
            assert(b.contains(b[i]));
        }
        assert(s.drop_last() =~= a + seq!['.'] + c);
        lemma_last_dot(a, c);
    }
}

/// What stands behind the last dot of a name is its extension, and what stands
/// before it the rest.
pub proof fn lemma_extension(stem: Seq<char>, ext: Seq<char>)
    requires
        stem.len() > 0,
        !ext.contains('.'),
    ensures
        paths::name_extension(stem + seq!['.'] + ext) == Some(ext),
        paths::name_stem(stem + seq!['.'] + ext) == stem,
{
    lemma_last_dot(stem, ext);
    let s = stem + seq!['.'] + ext;
    assert(s.skip(stem.len() as int + 1) =~= ext);
    assert(s.take(stem.len() as int) =~= stem);
}

/// The last name of a path, in a folder or alone.
pub proof fn lemma_leaf(base: Seq<char>, name: Seq<char>)
    requires
        paths::is_name(name),
        name != seq!['.', '.'],
    ensures
        paths::leaf_of(base + seq!['/'] + name) == Some(name),
        paths::leaf_of(name) == Some(name),
        paths::settled(paths::segments(base + seq!['/'] + name)) == paths::segments(base).push(name),
{
    text::lemma_split_append(base, name, '/');
    assert(base.push('/') + name =~= base + seq!['/'] + name);
    text::lemma_split_plain(name, '/');
    let segs = paths::segments(base).push(name);
    assert(paths::segments(base + seq!['/'] + name) =~= segs);
    assert(paths::settled(segs) == segs);
    assert(paths::settled(seq![name]) == seq![name]);
}

/// The folder that a file is in.
pub proof fn lemma_parent(base: Seq<char>, name: Seq<char>)
    requires
        paths::is_name(name),
        name != seq!['.', '.'],
        !paths::is_idle(paths::segments(base).last()),
    ensures
        paths::parent_of(base + seq!['/'] + name) == Some(base),
{
    lemma_leaf(base, name);
    let segs = paths::segments(base);
    text::lemma_split_len(base, '/');
    assert(segs.push(name).drop_last() =~= segs);
    assert(paths::settled(segs) == segs);
    text::lemma_join_split(base, '/');
}

/// The copy of a file that is about to be replaced stands beside it, with the
/// extension `bak`.
pub proof fn lemma_backup_beside(base: Seq<char>, stem: Seq<char>, ext: Seq<char>)
    requires
        paths::is_name(stem + seq!['.'] + ext),
        stem + seq!['.'] + ext != seq!['.', '.'],
        stem.len() > 0,
        !ext.contains('.'),
    ensures
        importer::backup_path(base + seq!['/'] + (stem + seq!['.'] + ext)) == base + seq!['/'] + (stem
            + seq!['.'] + "bak"@),
{
    let name = stem + seq!['.'] + ext;
    let new = stem + seq!['.'] + "bak"@;
    lemma_leaf(base, name);
    lemma_extension(stem, ext);
    let segs = paths::segments(base);
    text::lemma_split_len(base, '/');
    assert(segs.push(name).drop_last() =~= segs);
    text::lemma_join_split(base, '/');
    assert(segs.push(new).drop_last() =~= segs);
    assert(text::join(segs.push(new), paths::slash()) == text::join(segs, paths::slash())
        + paths::slash() + new);
}

// ----------------------------------------------------------------- archives

/// What a member is goes by its extension, whatever its case: a symbol library, a
/// footprint, or a model, which has to stand in a folder called `3D`.
pub proof fn lemma_kind(path: Seq<char>, ext: Seq<char>)
    requires
        paths::extension_of(path) == Some(ext),
    ensures
        text::lower(ext) == "kicad_sym"@ ==> importer::kind_of(path) == Some(Kind::Symbol),
        text::lower(ext) == "kicad_mod"@ ==> importer::kind_of(path) == Some(Kind::Footprint),
        (text::lower(ext) == "stp"@ || text::lower(ext) == "step"@ || text::lower(ext) == "wrl"@)
            && (exists|i: int|
            0 <= i < paths::components(path).len() && text::same_letters(
                #[trigger] paths::components(path)[i],
                "3D"@,
            )) ==> importer::kind_of(path) == Some(Kind::Model),
        importer::kind_of(path) is None || text::lower(ext) == "kicad_sym"@ || text::lower(ext)
            == "kicad_mod"@ || text::lower(ext) == "stp"@ || text::lower(ext) == "step"@
            || text::lower(ext) == "wrl"@,
        importer::kind_of(path) == Some(Kind::Model) ==> exists|i: int|
            0 <= i < paths::components(path).len() && text::same_letters(
                #[trigger] paths::components(path)[i],
                "3D"@,
            ),
{
    reveal_strlit("kicad_sym");
    reveal_strlit("kicad_mod");
    reveal_strlit("stp");
    reveal_strlit("step");
    reveal_strlit("wrl");
    assert("kicad_sym"@[6] == 's' && "kicad_mod"@[6] == 'm');
    assert("kicad_sym"@ != "kicad_mod"@);
    assert("stp"@.len() == 3 && "step"@.len() == 4 && "wrl"@.len() == 3);
    assert("kicad_sym"@.len() == 9 && "kicad_mod"@.len() == 9);
}

/// A file without an extension is nothing to the library.
pub proof fn lemma_no_kind(path: Seq<char>)
    requires
        paths::extension_of(path) is None,
    ensures
        importer::kind_of(path) is None,
{
}

/// A member's path is used as it is unless it starts at the root, goes up, or
/// holds a NUL.
pub proof fn lemma_enclosed(name: Seq<char>)
    requires
        !name.contains('\0'),
        forall|i: int|
            0 <= i < paths::components(name).len() ==> (#[trigger] paths::components(name)[i]) != seq![
                '/',
            ] && paths::components(name)[i] != seq!['.', '.'],
    ensures
        importer::enclosed(name) == Some(name),
{
    lemma_depth(paths::components(name), paths::components(name).len() as int);
}

proof fn lemma_depth(comps: Seq<Seq<char>>, n: int)
    requires
        0 <= n <= comps.len(),
        forall|i: int|
            0 <= i < comps.len() ==> (#[trigger] comps[i]) != seq!['/'] && comps[i] != seq!['.', '.'],
    ensures
        importer::depth_after(comps, n) is Some,
    decreases n,
{
    if n > 0 {
        lemma_depth(comps, n - 1);
    }
}

/// A member that the library wants is kept: as what it is, under its own file
/// name, in the staging folder, with what the archive holds of it. Any other
/// member leaves nothing.
pub proof fn lemma_member(
    u: importer::UnpackingView,
    zip: Seq<char>,
    staging: Seq<char>,
    i: nat,
    name: Seq<char>,
    bytes: Seq<u8>,
)
    requires
        importer::enclosed(name) == Some(name),
    ensures
        ({
            let r = importer::member_read(u, zip, staging, i, Ok(name), Ok(bytes));
            let folder = name.len() > 0 && (name.last() == '/' || name.last() == '\\');
            let kind = importer::kind_of(name);
            let file = paths::leaf_of(name);
            &&& !folder && kind is Some && file is Some ==> (r matches Ok(v) && {
                &&& v.files.len() == u.files.len() + 1
                &&& v.files.take(u.files.len() as int) == u.files
                &&& v.files.last().item.kind == kind->Some_0
                &&& v.files.last().item.name == file->Some_0
                &&& v.files.last().item.path == paths::below(staging, file->Some_0)
                &&& v.files.last().contents == bytes
                &&& u.part.len() > 0 ==> v.part == u.part
            })
            &&& folder || kind is None || file is None ==> r == Ok::<
                importer::UnpackingView,
                Seq<char>,
            >(u)
        }),
{
    let r = importer::member_read(u, zip, staging, i, Ok(name), Ok(bytes));
    if let Ok(v) = r {
        if v.files.len() == u.files.len() + 1 {
            assert(v.files.take(u.files.len() as int) =~= u.files);
        }
    }
}

/// The part is called after the folder that the first kept member stands in.
pub proof fn lemma_part_folder(
    u: importer::UnpackingView,
    zip: Seq<char>,
    staging: Seq<char>,
    i: nat,
    name: Seq<char>,
    bytes: Seq<u8>,
)
    requires
        u.part.len() == 0,
        importer::wanted_member(name) is Some,
    ensures
        importer::member_read(u, zip, staging, i, Ok(name), Ok(bytes)) matches Ok(v) && {
            let names = paths::naming(paths::segments(name));
            &&& names.len() > 1 ==> v.part == names[0]
            &&& names.len() <= 1 ==> v.part.len() == 0
        },
{
}

/// A member that cannot be read fails the whole archive, and says which it was.
pub proof fn lemma_unreadable(
    u: importer::UnpackingView,
    zip: Seq<char>,
    staging: Seq<char>,
    i: nat,
    name: Seq<char>,
    e: Seq<char>,
    contents: Result<Seq<u8>, Seq<char>>,
)
    ensures
        importer::member_read(u, zip, staging, i, Err(e), contents) == Err::<
            importer::UnpackingView,
            Seq<char>,
        >("reading entry "@ + text::decimal(i) + " of "@ + zip + ": "@ + e),
        importer::wanted_member(name) matches Some(w) ==> importer::member_read(
            u,
            zip,
            staging,
            i,
            Ok(name),
            Err(e),
        ) == Err::<importer::UnpackingView, Seq<char>>("extracting "@ + w.1 + ": "@ + e),
{
}

/// Every wanted member of an archive that was read is among its files, with its
/// own contents.
pub proof fn lemma_all_kept(
    zip: Seq<char>,
    staging: Seq<char>,
    archive: Seq<u8>,
    n: nat,
    i: nat,
    name: Seq<char>,
) -> (k: int)
    requires
        i < n,
        importer::members_read(zip, staging, archive, n) is Ok,
        importer::zip_name(archive, i) == Ok::<Seq<char>, Seq<char>>(name),
        importer::wanted_member(name) is Some,
    ensures
        ({
            let u = importer::members_read(zip, staging, archive, n)->Ok_0;
            let (kind, path, file) = importer::wanted_member(name)->Some_0;
            &&& 0 <= k < u.files.len()
            &&& u.files[k].item == (importer::StagedView {
                kind,
                name: file,
                path: paths::below(staging, file),
            })
            &&& importer::zip_content(archive, i) == Ok::<Seq<u8>, Seq<char>>(u.files[k].contents)
        }),
    decreases n,
{
    let before = importer::members_read(zip, staging, archive, (n - 1) as nat);
    if i == n - 1 {
        before->Ok_0.files.len() as int
    } else {
        lemma_all_kept(zip, staging, archive, (n - 1) as nat, i, name)
    }
}

/// What an archive comes to: it is recorded under its own file name, staged in a
/// folder called after it, and is the archive to be filed away.
pub proof fn lemma_prepared(cfg: config::ConfigView, zip: Seq<char>, archive: Seq<u8>)
    requires
        importer::prepared(cfg, zip, archive) is Ok,
        paths::leaf_of(zip) is Some,
    ensures
        ({
            let (p, files) = importer::prepared(cfg, zip, archive)->Ok_0;
            let name = paths::leaf_of(zip)->Some_0;
            &&& p.source == name
            &&& p.zip == Some(zip)
            &&& p.staging == paths::below(cfg.temp_dir, paths::name_stem(name))
            &&& p.conflicts.len() == 0
            &&& files.len() > 0
            &&& p.staged.len() == files.len()
            &&& forall|i: int|
                0 <= i < files.len() ==> (#[trigger] p.staged[i]) == files[i].item
            &&& importer::zip_size(archive) matches Ok(n) && (importer::members_read(
                zip,
                p.staging,
                archive,
                n,
            ) matches Ok(u) && u.files == files && (u.part.len() > 0 ==> p.part == u.part) && (
            u.part.len() == 0 ==> p.part == importer::without_lib(paths::name_stem(name))))
        }),
{
}

/// An archive with nothing for the library is refused by name.
pub proof fn lemma_empty_archive(u: importer::UnpackingView, zip: Seq<char>, staging: Seq<char>)
    requires
        u.files.len() == 0,
    ensures
        importer::unpacked(u, zip, staging) == Err::<importer::PendingView, Seq<char>>(
            "no KiCad files found in "@ + zip + " (expected */KiCad/*.kicad_sym)"@,
        ),
{
}

/// Bytes that are no archive are refused by the name of the file, with the reason.
pub proof fn lemma_no_archive(cfg: config::ConfigView, zip: Seq<char>, archive: Seq<u8>, e: Seq<char>)
    requires
        importer::zip_size(archive) == Err::<nat, Seq<char>>(e),
    ensures
        importer::prepared(cfg, zip, archive) == Err::<
            (importer::PendingView, Seq<importer::ExtractedView>),
            Seq<char>,
        >("reading "@ + zip + ": "@ + e),
{
}

/// Turning an import down removes what was staged for it, and nothing else. An
/// import that goes through removes that last of all.
pub proof fn lemma_staging_cleared(cfg: config::ConfigView, p: importer::PendingView)
    ensures
        importer::discarded(p) == (importer::ActionView::RemoveTree { path: p.staging }),
        p.staged.len() > 0 ==> importer::agenda_of(cfg, p).last().action == (
        importer::ActionView::RemoveTree { path: p.staging }),
{
    let close = importer::closing_tasks(cfg, p);
    if p.staged.len() > 0 {
        let all = importer::agenda_of(cfg, p);
        assert(all.last() == close.last());
    }
}

/// An import of nothing fails, and says of what.
pub proof fn lemma_nothing_installed(st: importer::InstallView)
    requires
        st.pending.staged.len() == 0,
    ensures
        importer::installed(st) == Err::<importer::SummaryView, Seq<char>>(
            st.pending.part + ": nothing to install"@,
        ),
{
}

/// An import is called by its part on screen, or by where it came from where it
/// has no name.
pub proof fn lemma_label(p: importer::PendingView)
    ensures
        p.part.len() > 0 ==> importer::pending_label(p) == p.part,
        p.part.len() == 0 ==> importer::pending_label(p) == p.source,
{
}

/// The name of an archive loses the `LIB_` it starts with, and nothing else.
pub proof fn lemma_without_lib(s: Seq<char>)
    ensures
        importer::without_lib("LIB_"@ + s) == importer::without_lib(s),
        !text::starts_with(s, "LIB_"@) ==> importer::without_lib(s) == s,
{
    reveal_strlit("LIB_");
    assert(("LIB_"@ + s).take(4) =~= "LIB_"@);
    assert(("LIB_"@ + s).skip(4) =~= s);
}

// ------------------------------------------------------------------- places

/// Where a staged file goes: a symbol to the symbols, a model to the models, a
/// footprint to the footprints and, where that is switched on, to the part's own
/// folder among them first.
pub proof fn lemma_places(cfg: config::ConfigView, part: Seq<char>, name: Seq<char>, path: Seq<char>)
    ensures
        importer::destinations_of(
            cfg,
            part,
            importer::StagedView { kind: Kind::Symbol, name, path },
        ) == seq![paths::below(cfg.symbol_dir, name)],
        importer::destinations_of(
            cfg,
            part,
            importer::StagedView { kind: Kind::Model, name, path },
        ) == seq![paths::below(cfg.model_dir, name)],
        cfg.per_part_footprint_dirs && part.len() > 0 ==> importer::destinations_of(
            cfg,
            part,
            importer::StagedView { kind: Kind::Footprint, name, path },
        ) == seq![
            paths::below(paths::below(cfg.footprint_dir, part + ".pretty"@), name),
            paths::below(cfg.footprint_dir, name),
        ],
        !cfg.per_part_footprint_dirs || part.len() == 0 ==> importer::destinations_of(
            cfg,
            part,
            importer::StagedView { kind: Kind::Footprint, name, path },
        ) == seq![paths::below(cfg.footprint_dir, name)],
{
}

/// A symbol is read for its names, an older one is copied aside where that is
/// switched on, and only then is the new one moved in.
pub proof fn lemma_symbol_tasks(
    cfg: config::ConfigView,
    part: Seq<char>,
    item: importer::StagedView,
)
    requires
        item.kind == Kind::Symbol,
    ensures
        ({
            let tasks = importer::item_tasks(cfg, part, item);
            let dest = paths::below(cfg.symbol_dir, item.name);
            &&& tasks.len() >= 2
            &&& tasks[0].action == (importer::ActionView::ReadSymbol { path: item.path })
            &&& tasks.last().action == (importer::ActionView::Rename { from: item.path, to: dest })
            &&& cfg.backup_before_overwrite ==> tasks.len() >= 3 && tasks[1].action == (
            importer::ActionView::Backup { from: dest, to: importer::backup_path(dest) })
            &&& !cfg.backup_before_overwrite ==> forall|i: int|
                0 <= i < tasks.len() ==> !((#[trigger] tasks[i]).action is Backup)
        }),
{
}

/// A footprint is copied to the part's own folder before it is moved, as it is no
/// longer there afterwards; without such a folder it is just moved. A model is
/// just moved.
pub proof fn lemma_other_tasks(
    cfg: config::ConfigView,
    part: Seq<char>,
    item: importer::StagedView,
)
    requires
        item.kind != Kind::Symbol,
    ensures
        ({
            let tasks = importer::item_tasks(cfg, part, item);
            let own = paths::below(paths::below(cfg.footprint_dir, part + ".pretty"@), item.name);
            let dest = if item.kind == Kind::Model {
                paths::below(cfg.model_dir, item.name)
            } else {
                paths::below(cfg.footprint_dir, item.name)
            };
            &&& tasks.len() >= 1
            &&& tasks.last().action == (importer::ActionView::Rename { from: item.path, to: dest })
            &&& item.kind == Kind::Footprint && cfg.per_part_footprint_dirs && part.len() > 0 ==> {
                let at = if paths::parent_of(own) is Some {
                    1int
                } else {
                    0
                };
                &&& tasks.len() >= at + 2
                &&& tasks[at].action == (importer::ActionView::Copy { from: item.path, to: own })
                &&& paths::parent_of(own) matches Some(dir) ==> tasks[0].action == (
                importer::ActionView::MakeDir { path: dir })
            }
            &&& item.kind == Kind::Model || !cfg.per_part_footprint_dirs || part.len() == 0 ==> forall|
                i: int,
            |
                0 <= i < tasks.len() ==> !((#[trigger] tasks[i]).action is Copy)
        }),
{
}

/// An import begins with the three folders of the library and records itself once
/// everything has been placed, before the archive is filed and the staging area
/// goes.
pub proof fn lemma_frame(cfg: config::ConfigView, p: importer::PendingView)
    requires
        p.staged.len() > 0,
    ensures
        ({
            let all = importer::agenda_of(cfg, p);
            let close = importer::closing_tasks(cfg, p);
            let at = all.len() - close.len() - 1;
            &&& all.len() >= 5
            &&& all[0].action == (importer::ActionView::MakeDir { path: cfg.symbol_dir })
            &&& all[1].action == (importer::ActionView::MakeDir { path: cfg.footprint_dir })
            &&& all[2].action == (importer::ActionView::MakeDir { path: cfg.model_dir })
            &&& 3 <= at && all[at].action is Record
            &&& p.zip is None ==> close.len() == 1
        }),
{
    let all = importer::agenda_of(cfg, p);
    let close = importer::closing_tasks(cfg, p);
    let head = importer::opening_tasks(cfg) + importer::items_tasks(cfg, p.part, p.staged, false)
        + importer::items_tasks(cfg, p.part, p.staged, true);
    assert(all[0] == importer::opening_tasks(cfg)[0]);
    assert(all[1] == importer::opening_tasks(cfg)[1]);
    assert(all[2] == importer::opening_tasks(cfg)[2]);
    assert(all[head.len() as int].action is Record);
}

// ----------------------------------------------------------------- going on

/// A file that cannot be moved, as between two disks, is copied and then removed.
pub proof fn lemma_copied_instead(
    st: importer::InstallView,
    from: Seq<char>,
    to: Seq<char>,
    e: Seq<char>,
)
    requires
        st.agenda.len() > 0,
        st.agenda[0].action == (importer::ActionView::Rename { from, to }),
        st.agenda[0].blame is Retry,
    ensures
        importer::answered(st, importer::ReplyView::Failed(e)) matches Ok(next) && {
            &&& next.agenda.len() == st.agenda.len() + 1
            &&& next.agenda[0].action == (importer::ActionView::Copy { from, to })
            &&& next.agenda[1].action == (importer::ActionView::Remove { path: from })
            &&& next.agenda.skip(2) == st.agenda.skip(1)
        },
{
    let next = importer::answered(st, importer::ReplyView::Failed(e))->Ok_0;
    assert(next.agenda.skip(2) =~= st.agenda.skip(1));
}

/// Any other failure ends the import with its reason, unless it may be passed
/// over.
pub proof fn lemma_failed(st: importer::InstallView, words: Seq<char>, e: Seq<char>)
    requires
        st.agenda.len() > 0,
    ensures
        st.agenda[0].blame == importer::BlameView::Fatal(words) ==> importer::answered(
            st,
            importer::ReplyView::Failed(e),
        ) == Err::<importer::InstallView, Seq<char>>(words + e),
        st.agenda[0].blame is Ignored ==> importer::answered(st, importer::ReplyView::Failed(e))
            == Ok::<importer::InstallView, Seq<char>>(
            importer::InstallView { agenda: st.agenda.drop_first(), ..st },
        ),
{
}

/// A symbol file that was read adds its symbols' names to the record. Where there
/// is a merged library and something for it, that is read next.
pub proof fn lemma_symbol_read(st: importer::InstallView, path: Seq<char>, source: Seq<char>)
    requires
        st.agenda.len() > 0,
        st.agenda[0].action == (importer::ActionView::ReadSymbol { path }),
    ensures
        importer::answered(st, importer::ReplyView::Text(source)) matches Ok(next) && {
            &&& next.symbol_names == st.symbol_names + symlib::symbol_names_in(source)
            &&& st.cfg.merged_symbol_lib is None ==> next.agenda == st.agenda.drop_first()
            &&& st.cfg.merged_symbol_lib matches Some(lib) ==> (symlib::parsed(source) matches Ok(
                incoming,
            ) ==> (incoming.symbols.len() > 0 ==> next.agenda.len() == st.agenda.len()
                && next.agenda[0].action == (importer::ActionView::ReadLibrary {
                path: lib,
                source,
            }) && next.agenda.skip(1) == st.agenda.skip(1)))
            &&& next.pending == st.pending && next.cfg == st.cfg
        },
{
    let next = importer::answered(st, importer::ReplyView::Text(source))->Ok_0;
    if st.cfg.merged_symbol_lib is None {
        assert(next.agenda =~= st.agenda.drop_first());
    }
    if next.agenda.len() == st.agenda.len() {
        assert(next.agenda.skip(1) =~= st.agenda.skip(1));
    }
}

/// The merged library is written where it is configured to be, last of what its
/// merge does, behind a copy of the old one where that is switched on.
pub proof fn lemma_library_merged(
    cfg: config::ConfigView,
    lib: Seq<char>,
    source: Seq<char>,
    existing: Option<Seq<char>>,
    names: Seq<Seq<char>>,
    whole: Seq<char>,
)
    requires
        symlib::merge_of(lib, source, Ok(existing)) == Ok::<_, Seq<char>>((names, Some(whole))),
    ensures
        ({
            let tasks = importer::merge_rest(cfg, lib, source, existing);
            &&& tasks.len() > 0
            &&& tasks.last().action == (importer::ActionView::WriteLibrary {
                path: lib,
                text: whole,
                names,
            })
            &&& cfg.backup_before_overwrite ==> tasks.len() > 1 && tasks[0].action == (
            importer::ActionView::Backup { from: lib, to: importer::backup_path(lib) })
            &&& !cfg.backup_before_overwrite ==> forall|i: int|
                0 <= i < tasks.len() ==> !((#[trigger] tasks[i]).action is Backup)
        }),
{
}

/// Once the merged library has been written, its new symbols count as merged; any
/// other task that is done is just behind.
pub proof fn lemma_library_written(
    st: importer::InstallView,
    path: Seq<char>,
    whole: Seq<char>,
    names: Seq<Seq<char>>,
)
    requires
        st.agenda.len() > 0,
    ensures
        st.agenda[0].action == (importer::ActionView::WriteLibrary { path, text: whole, names })
            ==> importer::answered(st, importer::ReplyView::Done) == Ok::<
            importer::InstallView,
            Seq<char>,
        >(
            importer::InstallView {
                agenda: st.agenda.drop_first(),
                merged_symbols: st.merged_symbols + names,
                ..st
            },
        ),
        !(st.agenda[0].action is WriteLibrary) ==> importer::answered(st, importer::ReplyView::Done)
            == Ok::<importer::InstallView, Seq<char>>(
            importer::InstallView { agenda: st.agenda.drop_first(), ..st },
        ),
{
}

/// The merged library that was read is merged with the symbols at hand, next of
/// all.
pub proof fn lemma_library_read(
    st: importer::InstallView,
    path: Seq<char>,
    source: Seq<char>,
    existing: Option<Seq<char>>,
)
    requires
        st.agenda.len() > 0,
        st.agenda[0].action == (importer::ActionView::ReadLibrary { path, source }),
    ensures
        importer::answered(st, importer::ReplyView::Existing(existing)) == Ok::<
            importer::InstallView,
            Seq<char>,
        >(
            importer::InstallView {
                agenda: importer::merge_rest(st.cfg, path, source, existing) + st.agenda.drop_first(),
                ..st
            },
        ),
{
}

/// A merge that fails drops what is left of it and nothing behind it.
pub proof fn lemma_merge_dropped(
    st: importer::InstallView,
    merge: Seq<importer::TaskView>,
    rest: Seq<importer::TaskView>,
    e: Seq<char>,
)
    requires
        merge.len() > 0,
        forall|i: int| 0 <= i < merge.len() ==> (#[trigger] merge[i]).blame is Merge,
        rest.len() > 0 ==> !(rest[0].blame is Merge),
        st.agenda == merge + rest,
    ensures
        importer::answered(st, importer::ReplyView::Failed(e)) == Ok::<
            importer::InstallView,
            Seq<char>,
        >(importer::InstallView { agenda: rest, ..st }),
{
    assert(st.agenda[0] == merge[0]);
    assert(st.agenda.drop_first() =~= merge.drop_first() + rest);
    lemma_past_merge(merge.drop_first(), rest);
}

proof fn lemma_past_merge(merge: Seq<importer::TaskView>, rest: Seq<importer::TaskView>)
    requires
        forall|i: int| 0 <= i < merge.len() ==> (#[trigger] merge[i]).blame is Merge,
        rest.len() > 0 ==> !(rest[0].blame is Merge),
    ensures
        importer::past_merge(merge + rest) == rest,
    decreases merge.len(),
{
    let all = merge + rest;
    if merge.len() == 0 {
        assert(all =~= rest);
    } else {
        assert(all[0] == merge[0]);
        assert(all.drop_first() =~= merge.drop_first() + rest);
        lemma_past_merge(merge.drop_first(), rest);
    }
}

// ------------------------------------------------------------------ records

proof fn lemma_names(staged: Seq<importer::StagedView>, kind: Kind, k: int)
    requires
        0 <= k < staged.len(),
        staged[k].kind == kind,
    ensures
        importer::names_of_kind(staged, kind).contains(staged[k].name),
    decreases staged.len(),
{
    let init = staged.drop_last();
    let all = importer::names_of_kind(staged, kind);
    if k == staged.len() - 1 {
        assert(all[all.len() - 1] == staged[k].name);
    } else {
        lemma_names(init, kind, k);
        let before = importer::names_of_kind(init, kind);
        assert(init[k] == staged[k]);
        let i = before.index_of(staged[k].name);
        assert(all[i] == staged[k].name);
    }
}

proof fn lemma_only_names(staged: Seq<importer::StagedView>, kind: Kind, j: int) -> (k: int)
    requires
        0 <= j < importer::names_of_kind(staged, kind).len(),
    ensures
        0 <= k < staged.len(),
        staged[k].kind == kind,
        staged[k].name == importer::names_of_kind(staged, kind)[j],
    decreases staged.len(),
{
    let init = staged.drop_last();
    let before = importer::names_of_kind(init, kind);
    if j < before.len() {
        lemma_only_names(init, kind, j)
    } else {
        staged.len() - 1
    }
}

/// The summary of an import lists each file under what it is.
pub proof fn lemma_summary(st: importer::InstallView, k: int)
    requires
        0 <= k < st.pending.staged.len(),
    ensures
        importer::installed(st) matches Ok(s) && {
            let item = st.pending.staged[k];
            &&& s.part == st.pending.part
            &&& item.kind == Kind::Symbol ==> s.symbols.contains(item.name)
            &&& item.kind == Kind::Footprint ==> s.footprints.contains(item.name)
            &&& item.kind == Kind::Model ==> s.models.contains(item.name)
            &&& s.symbols.len() + s.footprints.len() + s.models.len() == st.pending.staged.len()
            &&& s.merged_symbols == st.merged_symbols
            &&& st.pending.zip is None ==> s.archived_to is None && !s.deleted_zip
            &&& st.pending.zip is Some && st.cfg.delete_zip_after_import ==> s.archived_to is None
                && s.deleted_zip
            &&& st.pending.zip is Some && !st.cfg.delete_zip_after_import ==> s.archived_to == Some(
                paths::below(st.cfg.archive_dir, st.pending.source),
            ) && !s.deleted_zip
        },
{
    lemma_names(st.pending.staged, st.pending.staged[k].kind, k);
    lemma_kinds_add_up(st.pending.staged);
}

proof fn lemma_kinds_add_up(staged: Seq<importer::StagedView>)
    ensures
        importer::names_of_kind(staged, Kind::Symbol).len() + importer::names_of_kind(
            staged,
            Kind::Footprint,
        ).len() + importer::names_of_kind(staged, Kind::Model).len() == staged.len(),
    decreases staged.len(),
{
    if staged.len() > 0 {
        lemma_kinds_add_up(staged.drop_last());
    }
}

/// Every name that a summary lists is that of a staged file of that kind.
pub proof fn lemma_summary_only(st: importer::InstallView, kind: Kind, j: int) -> (k: int)
    requires
        st.pending.staged.len() > 0,
        0 <= j < (match kind {
            Kind::Symbol => importer::installed(st)->Ok_0.symbols,
            Kind::Footprint => importer::installed(st)->Ok_0.footprints,
            Kind::Model => importer::installed(st)->Ok_0.models,
        }).len(),
    ensures
        0 <= k < st.pending.staged.len(),
        st.pending.staged[k].kind == kind,
        st.pending.staged[k].name == (match kind {
            Kind::Symbol => importer::installed(st)->Ok_0.symbols,
            Kind::Footprint => importer::installed(st)->Ok_0.footprints,
            Kind::Model => importer::installed(st)->Ok_0.models,
        })[j],
{
    lemma_only_names(st.pending.staged, kind, j)
}

proof fn lemma_recorded_places(
    cfg: config::ConfigView,
    part: Seq<char>,
    staged: Seq<importer::StagedView>,
    kind: Kind,
    k: int,
    j: int,
)
    requires
        0 <= k < staged.len(),
        staged[k].kind == kind,
        0 <= j < importer::destinations_of(cfg, part, staged[k]).len(),
    ensures
        importer::places_of_kind(cfg, part, staged, kind).contains(
            manifest::relative(
                cfg.library_root,
                importer::destinations_of(cfg, part, staged[k])[j],
            ),
        ),
    decreases staged.len(),
{
    let init = staged.drop_last();
    let before = importer::places_of_kind(cfg, part, init, kind);
    let all = importer::places_of_kind(cfg, part, staged, kind);
    let to = manifest::relative(
        cfg.library_root,
        importer::destinations_of(cfg, part, staged[k])[j],
    );
    if k == staged.len() - 1 {
        assert(all[before.len() + j] == to);
    } else {
        lemma_recorded_places(cfg, part, init, kind, k, j);
        assert(init[k] == staged[k]);
        let i = before.index_of(to);
        assert(all[i] == to);
    }
}

/// The record of an import: the part's name and where it came from, the time, and
/// every place that its files went to, each under what it is, seen from the root.
pub proof fn lemma_record(st: importer::InstallView, now: Seq<char>, k: int)
    requires
        0 <= k < st.pending.staged.len(),
    ensures
        ({
            let r = importer::record_of(st, now);
            let item = st.pending.staged[k];
            let root = st.cfg.library_root;
            &&& r.name == st.pending.part
            &&& r.source == st.pending.source
            &&& r.imported_at == now
            &&& r.symbol_names == st.symbol_names
            &&& item.kind == Kind::Footprint ==> r.footprints.contains(
                manifest::relative(root, paths::below(st.cfg.footprint_dir, item.name)),
            )
            &&& item.kind == Kind::Footprint && st.cfg.per_part_footprint_dirs
                && st.pending.part.len() > 0 ==> r.footprints.contains(
                manifest::relative(
                    root,
                    paths::below(
                        paths::below(st.cfg.footprint_dir, st.pending.part + ".pretty"@),
                        item.name,
                    ),
                ),
            )
            &&& item.kind == Kind::Model ==> r.models.contains(
                manifest::relative(root, paths::below(st.cfg.model_dir, item.name)),
            )
            &&& item.kind == Kind::Symbol ==> r.symbol_file is Some
        }),
{
    let p = st.pending;
    let item = p.staged[k];
    let all = importer::destinations_of(st.cfg, p.part, item);
    lemma_recorded_places(st.cfg, p.part, p.staged, item.kind, k, 0);
    lemma_recorded_places(st.cfg, p.part, p.staged, item.kind, k, all.len() - 1);
    if item.kind == Kind::Symbol {
        let symbols = importer::places_of_kind(st.cfg, p.part, p.staged, Kind::Symbol);
        assert(symbols.len() > 0);
    }
}

proof fn lemma_symbol_place(
    cfg: config::ConfigView,
    part: Seq<char>,
    staged: Seq<importer::StagedView>,
    k: int,
)
    requires
        0 <= k < staged.len(),
        staged[k].kind == Kind::Symbol,
        forall|i: int| k < i < staged.len() ==> (#[trigger] staged[i]).kind != Kind::Symbol,
    ensures
        importer::places_of_kind(cfg, part, staged, Kind::Symbol).len() > 0,
        importer::places_of_kind(cfg, part, staged, Kind::Symbol).last() == manifest::relative(
            cfg.library_root,
            paths::below(cfg.symbol_dir, staged[k].name),
        ),
    decreases staged.len(),
{
    if k < staged.len() - 1 {
        lemma_symbol_place(cfg, part, staged.drop_last(), k);
    }
}

/// The symbol file of a record is the place of the last symbol file there was.
pub proof fn lemma_record_symbol(st: importer::InstallView, now: Seq<char>, k: int)
    requires
        0 <= k < st.pending.staged.len(),
        st.pending.staged[k].kind == Kind::Symbol,
        forall|i: int|
            k < i < st.pending.staged.len() ==> (#[trigger] st.pending.staged[i]).kind
                != Kind::Symbol,
    ensures
        importer::record_of(st, now).symbol_file == Some(
            manifest::relative(
                st.cfg.library_root,
                paths::below(st.cfg.symbol_dir, st.pending.staged[k].name),
            ),
        ),
{
    lemma_symbol_place(st.cfg, st.pending.part, st.pending.staged, k);
}

// ----------------------------------------------------------------- manifest

/// The manifest describes where everything is: each folder in its own place, seen
/// from the root that it names, and at the time that it was written.
pub proof fn lemma_layout(m: manifest::ManifestView, cfg: config::ConfigView, now: Seq<char>)
    ensures
        ({
            let s = manifest::synced(m, cfg, now);
            let root = cfg.library_root;
            &&& s.generated == now
            &&& s.library_root == root
            &&& s.parts == m.parts
            &&& s.layout.symbols == manifest::relative(root, cfg.symbol_dir)
            &&& s.layout.footprints == manifest::relative(root, cfg.footprint_dir)
            &&& s.layout.models == manifest::relative(root, cfg.model_dir)
            &&& s.layout.archive == manifest::relative(root, cfg.archive_dir)
            &&& s.layout.per_part_footprint_dirs == cfg.per_part_footprint_dirs
            &&& cfg.merged_symbol_lib is None ==> s.layout.merged_symbol_lib is None
            &&& cfg.merged_symbol_lib matches Some(lib) ==> s.layout.merged_symbol_lib == Some(
                manifest::relative(root, lib),
            )
        }),
{
}

/// Recording a part writes the layout down too, and the part in place of the one
/// of its name.
pub proof fn lemma_recorded(
    m: manifest::ManifestView,
    cfg: config::ConfigView,
    part: manifest::PartView,
    now: Seq<char>,
    other: manifest::PartView,
)
    ensures
        ({
            let r = manifest::recorded(m, cfg, part, now);
            &&& r.parts.contains(part)
            &&& other.name == part.name && r.parts.contains(other) ==> other == part
            &&& other.name != part.name ==> (r.parts.contains(other) <==> m.parts.contains(other))
            &&& r.layout == manifest::synced(m, cfg, now).layout
            &&& r.generated == now
            &&& r.library_root == cfg.library_root
        }),
{
    manifest::lemma_with_part(m.parts, part);
}

/// The file name at the end of a manifest path.
pub proof fn lemma_leaf_name(dir: Seq<char>, name: Seq<char>)
    requires
        !name.contains('/'),
    ensures
        manifest::leaf_name(dir + seq!['/'] + name) == name,
        manifest::leaf_name(name) == name,
{
    text::lemma_split_append(dir, name, '/');
    assert(dir.push('/') + name =~= dir + seq!['/'] + name);
    text::lemma_split_plain(name, '/');
}

/// What the totals count: every symbol, footprint and model of every part, each
/// under what it is.
pub proof fn lemma_counted(parts: Seq<manifest::PartView>, i: int, name: Seq<char>)
    requires
        0 <= i < parts.len(),
    ensures
        parts[i].symbol_names.contains(name) ==> manifest::all_symbols(parts).contains(name),
        parts[i].footprints.contains(name) ==> manifest::all_footprints(parts).contains(
            manifest::leaf_name(name),
        ),
        parts[i].models.contains(name) ==> manifest::all_models(parts).contains(
            manifest::leaf_name(name),
        ),
    decreases parts.len(),
{
    let init = parts.drop_last();
    let last = parts.last();
    let leaf = manifest::leaf_name(name);
    if i == parts.len() - 1 {
        if last.symbol_names.contains(name) {
            let k = last.symbol_names.index_of(name);
            assert(manifest::all_symbols(parts)[manifest::all_symbols(init).len() + k] == name);
        }
        if last.footprints.contains(name) {
            let k = last.footprints.index_of(name);
            assert(manifest::all_footprints(parts)[manifest::all_footprints(init).len() + k]
                == leaf);
        }
        if last.models.contains(name) {
            let k = last.models.index_of(name);
            assert(manifest::all_models(parts)[manifest::all_models(init).len() + k] == leaf);
        }
    } else {
        lemma_counted(init, i, name);
        assert(init[i] == parts[i]);
        if parts[i].symbol_names.contains(name) {
            let k = manifest::all_symbols(init).index_of(name);
            assert(manifest::all_symbols(parts)[k] == name);
        }
        if parts[i].footprints.contains(name) {
            let k = manifest::all_footprints(init).index_of(leaf);
            assert(manifest::all_footprints(parts)[k] == leaf);
        }
        if parts[i].models.contains(name) {
            let k = manifest::all_models(init).index_of(leaf);
            assert(manifest::all_models(parts)[k] == leaf);
        }
    }
}

// -------------------------------------------------------------------- queue

/// An archive that was met in the ZIP folder is queued once, with its path and
/// size, and is shown by where it is in that folder. The archive and the staging
/// folders of the library are passed over.
pub proof fn lemma_queued(cfg: config::ConfigView, met: Seq<scan::MetView>, k: int, path: Seq<char>, size: u64)
    requires
        0 <= k < met.len(),
        met[k] == (scan::MetView::File { path, size }),
        paths::extension_of(path) matches Some(e) && text::same_letters(e, "zip"@),
        paths::within(path, cfg.download_dir),
        !paths::within(path, cfg.archive_dir),
        !paths::within(path, cfg.temp_dir),
    ensures
        scan::queue_of(cfg, met).contains(
            scan::ZipView { path, display: paths::rest_of(path, cfg.download_dir), size },
        ),
{
    let all = scan::zips_met(cfg, met);
    let keys = scan::display_keys(all);
    let entry = scan::ZipView { path, display: paths::rest_of(path, cfg.download_dir), size };
    scan::lemma_zips_met(cfg, met);
    assert(all.contains(entry));
    let i = all.index_of(entry);
    order::lemma_ranking(keys);
    assert(order::ranking(keys).contains(i));
    let at = order::ranking(keys).index_of(i);
    assert(scan::queue_of(cfg, met)[at] == entry);
}

/// The queue is in the order of what it shows, without regard to case, and holds
/// archives only.
pub proof fn lemma_queue_order(cfg: config::ConfigView, met: Seq<scan::MetView>, i: int, j: int)
    requires
        0 <= i < j < scan::queue_of(cfg, met).len(),
    ensures
        ({
            let queue = scan::queue_of(cfg, met);
            &&& !text::precedes(text::lower(queue[j].display), text::lower(queue[i].display))
            &&& paths::extension_of(queue[i].path) matches Some(e) && text::same_letters(e, "zip"@)
            &&& !(paths::within(cfg.archive_dir, cfg.download_dir) && paths::within(
                queue[i].path,
                cfg.archive_dir,
            ))
            &&& !(paths::within(cfg.temp_dir, cfg.download_dir) && paths::within(
                queue[i].path,
                cfg.temp_dir,
            ))
        }),
{
    let all = scan::zips_met(cfg, met);
    let keys = scan::display_keys(all);
    let r = order::ranking(keys);
    order::lemma_ranking(keys);
    scan::lemma_zips_met(cfg, met);
    assert(scan::queue_of(cfg, met)[i] == all[r[i]]);
    assert(scan::queue_of(cfg, met)[j] == all[r[j]]);
    assert(order::in_order(keys, r[i], r[j]));
}

/// A folder that cannot be read is reported and hides nothing else.
pub proof fn lemma_unreadable_folder(
    cfg: config::ConfigView,
    met: Seq<scan::MetView>,
    at: Seq<char>,
    message: Seq<char>,
)
    ensures
        scan::errors_met(met.push(scan::MetView::Error { at: Some(at), message })) == scan::errors_met(
            met,
        ).push("cannot read "@ + at + ": "@ + message),
        scan::errors_met(met.push(scan::MetView::Error { at: None, message })) == scan::errors_met(
            met,
        ).push("walk error: "@ + message),
        scan::queue_of(cfg, met.push(scan::MetView::Error { at: Some(at), message }))
            == scan::queue_of(cfg, met),
{
    let one = met.push(scan::MetView::Error { at: Some(at), message });
    let two = met.push(scan::MetView::Error { at: None, message });
    assert(one.drop_last() =~= met);
    assert(two.drop_last() =~= met);
}

} // verus!
