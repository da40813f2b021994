//! Extracts a Component Search Engine / Samacsys archive into the configured
//! KiCad library folders.
//!
//! Archive layout produced by CSE:
//!
//! ```text
//! <PART>/KiCad/<PART>.kicad_sym      -> symbol_dir
//! <PART>/KiCad/<FOOTPRINT>.kicad_mod -> footprint_dir
//! <PART>/3D/<PART>.stp               -> model_dir
//! ```
//!
//! Resulting library tree:
//!
//! ```text
//! 3dmodels/<PART>.stp
//! footprints.pretty/<FOOTPRINT>.kicad_mod
//! footprints.pretty/<PART>.pretty/<FOOTPRINT>.kicad_mod
//! symbols/<PART>.kicad_sym
//! <merged>.kicad_sym
//! library.json
//! ```

use std::io::Read;

use vstd::prelude::*;
use vstd::string::*;

use crate::config;
use crate::config::{clone_opt, Config};
use crate::manifest;
use crate::manifest::{clone_texts, rel, Part};
use crate::paths;
use crate::paths::{extension, file_name, file_stem, join_path, names, parent, split_path};
use crate::symlib;
use crate::text;
use crate::text::{eq_ignore_ascii_case, number, pieces, same, slice, to_chars, to_lowercase};

verus! {

// ------------------------------------------------------------ outside calls

/// How many members `zip::ZipArchive::new` finds in an archive, or why it
/// refuses the bytes.
pub uninterp spec fn zip_size(archive: Seq<u8>) -> Result<nat, Seq<char>>;

/// `zip::ZipArchive::new` and `ZipArchive::len`: how many members the archive
/// holds. The bytes alone decide it.
#[verifier::external_body]
fn archive_len(archive: &Vec<u8>) -> (r: Result<usize, String>)
    ensures
        match r {
            Ok(n) => zip_size(archive@) == Ok::<nat, Seq<char>>(n as nat),
            Err(e) => zip_size(archive@) == Err::<nat, Seq<char>>(e@),
        },
{
    match zip::ZipArchive::new(std::io::Cursor::new(archive)) {
        Ok(zip) => Ok(zip.len()),
        Err(e) => Err(e.to_string()),
    }
}

/// The name that `zip::ZipArchive::by_index` gives a member, or why it refuses.
pub uninterp spec fn zip_name(archive: Seq<u8>, i: nat) -> Result<Seq<char>, Seq<char>>;

/// `ZipArchive::by_index`, `ZipFile::name`, `ZipFile::is_dir` and
/// `ZipFile::enclosed_name`: the member's name, whether it ends like a folder's,
/// and the name as a path that stays inside the folder it is read against. The
/// last is refused for a name with a NUL in it, for an absolute one, and for one
/// whose `..` would leave the folder at any point.
#[verifier::external_body]
fn archive_member(archive: &Vec<u8>, i: usize) -> (r: Result<Member, String>)
    ensures
        match r {
            Ok(m) => zip_name(archive@, i as nat) == Ok::<Seq<char>, Seq<char>>(m.name@)
                && m.is_dir == ends_like_folder(m.name@) && text::opt_view(m.enclosed)
                == enclosed(m.name@),
            Err(e) => zip_name(archive@, i as nat) == Err::<Seq<char>, Seq<char>>(e@),
        },
{
    let mut zip = zip::ZipArchive::new(std::io::Cursor::new(archive)).map_err(|e| e.to_string())?;
    let member = zip.by_index(i).map_err(|e| e.to_string())?;
    Ok(Member {
        name: member.name().to_string(),
        is_dir: member.is_dir(),
        enclosed: member.enclosed_name().map(|p| p.to_string_lossy().into_owned()),
    })
}

/// What reading a member to its end gives, or why that fails.
pub uninterp spec fn zip_content(archive: Seq<u8>, i: nat) -> Result<Seq<u8>, Seq<char>>;

/// `ZipArchive::by_index` and `Read::read_to_end` on the member: its contents,
/// decompressed. The bytes of the archive alone decide it.
#[verifier::external_body]
fn archive_content(archive: &Vec<u8>, i: usize) -> (r: Result<Vec<u8>, String>)
    ensures
        match r {
            Ok(c) => zip_content(archive@, i as nat) == Ok::<Seq<u8>, Seq<char>>(c@),
            Err(e) => zip_content(archive@, i as nat) == Err::<Seq<u8>, Seq<char>>(e@),
        },
{
    let mut zip = zip::ZipArchive::new(std::io::Cursor::new(archive)).map_err(|e| e.to_string())?;
    let mut member = zip.by_index(i).map_err(|e| e.to_string())?;
    let mut contents = Vec::new();
    member.read_to_end(&mut contents).map_err(|e| e.to_string())?;
    Ok(contents)
}

// ------------------------------------------------------------------- types

/// A member of an archive.
pub struct Member {
    pub name: String,
    pub is_dir: bool,
    /// The name as a path inside the folder it is extracted to; absent when it
    /// would lead out of it.
    pub enclosed: Option<String>,
}

pub struct ImportSummary {
    pub part: String,
    pub symbols: Vec<String>,
    pub footprints: Vec<String>,
    pub models: Vec<String>,
    /// Symbol names appended to the merged library.
    pub merged_symbols: Vec<String>,
    pub archived_to: Option<String>,
    pub deleted_zip: bool,
}

#[derive(Clone, Copy, PartialEq, Eq, Debug, Structural)]
pub enum Kind {
    Symbol,
    Footprint,
    Model,
}

/// A file waiting in the staging area to be placed into the library.
///
/// Both sources — an extracted CSE archive and a component downloaded from the
/// web — end up as a list of these, so [`install`] is the single place that
/// decides where anything in the library goes.
pub struct Staged {
    pub kind: Kind,
    pub name: String,
    pub path: String,
}

/// An import that has been unpacked but not yet placed into the library.
///
/// Splitting the work here is what allows the library files that are about to be
/// replaced to be named *before* anything is overwritten.
pub struct Pending {
    pub part: String,
    pub source: String,
    pub staged: Vec<Staged>,
    pub staging: String,
    /// Library files this import would replace, relative to the library root.
    pub conflicts: Vec<String>,
    /// The archive to file away once the import goes through.
    pub zip: Option<String>,
}

#[verifier::ext_equal]
pub struct SummaryView {
    pub part: Seq<char>,
    pub symbols: Seq<Seq<char>>,
    pub footprints: Seq<Seq<char>>,
    pub models: Seq<Seq<char>>,
    pub merged_symbols: Seq<Seq<char>>,
    pub archived_to: Option<Seq<char>>,
    pub deleted_zip: bool,
}

#[verifier::ext_equal]
pub struct StagedView {
    pub kind: Kind,
    pub name: Seq<char>,
    pub path: Seq<char>,
}

#[verifier::ext_equal]
pub struct PendingView {
    pub part: Seq<char>,
    pub source: Seq<char>,
    pub staged: Seq<StagedView>,
    pub staging: Seq<char>,
    pub conflicts: Seq<Seq<char>>,
    pub zip: Option<Seq<char>>,
}

impl View for ImportSummary {
    type V = SummaryView;

    open spec fn view(&self) -> SummaryView {
        SummaryView {
            part: self.part@,
            symbols: text::views(self.symbols@),
            footprints: text::views(self.footprints@),
            models: text::views(self.models@),
            merged_symbols: text::views(self.merged_symbols@),
            archived_to: text::opt_view(self.archived_to),
            deleted_zip: self.deleted_zip,
        }
    }
}

impl View for Staged {
    type V = StagedView;

    open spec fn view(&self) -> StagedView {
        StagedView { kind: self.kind, name: self.name@, path: self.path@ }
    }
}

pub open spec fn staged_views(list: Seq<Staged>) -> Seq<StagedView> {
    list.map_values(|s: Staged| s@)
}

impl View for Pending {
    type V = PendingView;

    open spec fn view(&self) -> PendingView {
        PendingView {
            part: self.part@,
            source: self.source@,
            staged: staged_views(self.staged@),
            staging: self.staging@,
            conflicts: text::views(self.conflicts@),
            zip: text::opt_view(self.zip),
        }
    }
}

impl Clone for Staged {
    fn clone(&self) -> (r: Staged)
        ensures
            r@ == self@,
    {
        Staged { kind: self.kind, name: self.name.clone(), path: self.path.clone() }
    }
}

pub(crate) fn clone_staged(list: &Vec<Staged>) -> (r: Vec<Staged>)
    ensures
        staged_views(r@) == staged_views(list@),
{
    let mut out: Vec<Staged> = Vec::new();
    let mut i: usize = 0;
    while i < list.len()
        invariant
            i <= list@.len(),
            out@.len() == i,
            forall|j: int| 0 <= j < i ==> (#[trigger] out@[j])@ == list@[j]@,
        decreases list.len() - i,
    {
        out.push(list[i].clone());
        i += 1;
    }
    assert(staged_views(out@) =~= staged_views(list@));
    out
}

impl Clone for Pending {
    fn clone(&self) -> (r: Pending)
        ensures
            r@ == self@,
    {
        Pending {
            part: self.part.clone(),
            source: self.source.clone(),
            staged: clone_staged(&self.staged),
            staging: self.staging.clone(),
            conflicts: clone_texts(&self.conflicts),
            zip: clone_opt(&self.zip),
        }
    }
}

impl ImportSummary {
    pub fn total(&self) -> (r: usize)
        requires
            self.symbols@.len() + self.footprints@.len() + self.models@.len() <= usize::MAX,
        ensures
            r == self.symbols@.len() + self.footprints@.len() + self.models@.len(),
    {
        self.symbols.len() + self.footprints.len() + self.models.len()
    }
}

/// How a pending import is called on screen.
pub open spec fn pending_label(p: PendingView) -> Seq<char> {
    if p.part.len() == 0 {
        p.source
    } else {
        p.part
    }
}

impl Pending {
    /// A short description for the confirmation prompt and the status line.
    pub fn label(&self) -> (r: String)
        ensures
            r@ == pending_label(self@),
    {
        if self.part.as_str().is_empty() {
            self.source.clone()
        } else {
            self.part.clone()
        }
    }
}

// ---------------------------------------------------------------- sorting

pub open spec fn ends_like_folder(name: Seq<char>) -> bool {
    name.len() > 0 && (name.last() == '/' || name.last() == '\\')
}

/// How far below its starting folder a path stands after its first `n`
/// components; nothing once it has been above it or started elsewhere.
pub open spec fn depth_after(comps: Seq<Seq<char>>, n: int) -> Option<nat>
    decreases n,
{
    if n <= 0 {
        Some(0)
    } else {
        match depth_after(comps, n - 1) {
            None => None,
            Some(d) => if comps[n - 1] == seq!['/'] {
                None
            } else if comps[n - 1] == seq!['.', '.'] {
                if d == 0 {
                    None
                } else {
                    Some((d - 1) as nat)
                }
            } else if comps[n - 1] == seq!['.'] {
                Some(d)
            } else {
                Some(d + 1)
            },
        }
    }
}

/// A member's name as a path that stays inside the folder it is read against.
pub open spec fn enclosed(name: Seq<char>) -> Option<Seq<char>> {
    let comps = paths::components(name);
    if name.contains('\0') || depth_after(comps, comps.len() as int) is None {
        None
    } else {
        Some(name)
    }
}

/// A component of `path` is called `name`, whatever its case.
pub open spec fn in_folder(path: Seq<char>, name: Seq<char>) -> bool {
    exists|i: int|
        0 <= i < paths::components(path).len() && text::same_letters(
            #[trigger] paths::components(path)[i],
            name,
        )
}

/// What an archive member is, if it belongs in the library.
pub open spec fn kind_of(path: Seq<char>) -> Option<Kind> {
    match paths::extension_of(path) {
        None => None,
        Some(e) => {
            let ext = text::lower(e);
            if ext == "kicad_sym"@ {
                Some(Kind::Symbol)
            } else if ext == "kicad_mod"@ {
                Some(Kind::Footprint)
            } else if (ext == "stp"@ || ext == "step"@ || ext == "wrl"@) && in_folder(
                path,
                "3D"@,
            ) {
                Some(Kind::Model)
            } else {
                None
            }
        },
    }
}

fn has_component(path: &str, name: &str) -> (r: bool)
    ensures
        r == in_folder(path@, name@),
{
    let comps = split_path(path);
    let ghost all = paths::components(path@);
    let mut i: usize = 0;
    while i < comps.len()
        invariant
            i <= comps@.len(),
            all == text::views(comps@),
            all == paths::components(path@),
            forall|j: int| 0 <= j < i ==> !text::same_letters(#[trigger] all[j], name@),
        decreases comps.len() - i,
    {
        if eq_ignore_ascii_case(comps[i].as_str(), name) {
            assert(text::same_letters(all[i as int], name@));
            return true;
        }
        i += 1;
    }
    false
}

/// Decides where an archive member belongs, or `None` to ignore it.
///
/// Only KiCad-relevant files are taken; the Altium/OrCAD/EAGLE trees and the
/// bundled PDF are skipped.
pub fn classify(path: &str) -> (r: Option<Kind>)
    ensures
        r == kind_of(path@),
{
    let ext = match extension(path) {
        Some(e) => to_lowercase(e.as_str()),
        None => {
            return None;
        },
    };
    let e = ext.as_str();
    if same(e, "kicad_sym") {
        Some(Kind::Symbol)
    } else if same(e, "kicad_mod") {
        Some(Kind::Footprint)
    } else if same(e, "stp") || same(e, "step") || same(e, "wrl") {
        if has_component(path, "3D") {
            Some(Kind::Model)
        } else {
            None
        }
    } else {
        None
    }
}

/// The top-level folder of an archive member: the first name of its path, where
/// another follows. A member beside the folders has none.
pub open spec fn top_folder(entry: Seq<char>) -> Option<Seq<char>> {
    let names = paths::naming(paths::segments(entry));
    if names.len() > 1 {
        Some(names[0])
    } else {
        None
    }
}

/// The part name is the archive's top-level folder, e.g. `TPD12S016PWR`.
pub fn part_name_from(entry: &str) -> (r: Option<String>)
    ensures
        text::opt_view(r) == top_folder(entry@),
{
    let list = pieces(entry, '/');
    let found = names(&list);
    assert(text::views(found@).len() == found@.len());
    if found.len() > 1 {
        assert(text::views(found@)[0] == found@[0]@);
        Some(found[0].clone())
    } else {
        None
    }
}

// ------------------------------------------------------------ destinations

/// The folder a part's own footprints are copied to.
pub open spec fn pretty_folder(cfg: config::ConfigView, part: Seq<char>) -> Seq<char> {
    paths::below(cfg.footprint_dir, part + ".pretty"@)
}

/// Every library path a staged file will occupy.
pub open spec fn destinations_of(
    cfg: config::ConfigView,
    part: Seq<char>,
    item: StagedView,
) -> Seq<Seq<char>> {
    match item.kind {
        Kind::Symbol => seq![paths::below(cfg.symbol_dir, item.name)],
        Kind::Model => seq![paths::below(cfg.model_dir, item.name)],
        Kind::Footprint => if cfg.per_part_footprint_dirs && part.len() > 0 {
            seq![
                paths::below(pretty_folder(cfg, part), item.name),
                paths::below(cfg.footprint_dir, item.name),
            ]
        } else {
            seq![paths::below(cfg.footprint_dir, item.name)]
        },
    }
}

/// Every library path a staged file will occupy.
///
/// The single source of truth for both the overwrite check and [`install`], so
/// the two cannot disagree about what is about to be written. The last entry is
/// where the staged file itself is moved; any earlier ones are copies.
pub fn destinations(cfg: &Config, part: &str, item: &Staged) -> (r: Vec<String>)
    ensures
        text::views(r@) == destinations_of(cfg@, part@, item@),
        r@.len() == destinations_of(cfg@, part@, item@).len(),
{
    let mut out: Vec<String> = Vec::new();
    match item.kind {
        Kind::Symbol => {
            out.push(join_path(cfg.symbol_dir.as_str(), item.name.as_str()));
        },
        Kind::Model => {
            out.push(join_path(cfg.model_dir.as_str(), item.name.as_str()));
        },
        Kind::Footprint => {
            if cfg.per_part_footprint_dirs && !part.is_empty() {
                let mut folder = part.to_string();
                folder.append(".pretty");
                let dir = join_path(cfg.footprint_dir.as_str(), folder.as_str());
                out.push(join_path(dir.as_str(), item.name.as_str()));
            }
            out.push(join_path(cfg.footprint_dir.as_str(), item.name.as_str()));
        },
    }
    assert(text::views(out@) =~= destinations_of(cfg@, part@, item@));
    out
}

/// Where a staged file itself ends up, as opposed to the copies made of it.
pub open spec fn target_of(cfg: config::ConfigView, part: Seq<char>, item: StagedView) -> Seq<
    char,
> {
    destinations_of(cfg, part, item).last()
}

/// Every library path an import will occupy.
pub open spec fn all_destinations_of(
    cfg: config::ConfigView,
    part: Seq<char>,
    staged: Seq<StagedView>,
) -> Seq<Seq<char>>
    decreases staged.len(),
{
    if staged.len() == 0 {
        Seq::empty()
    } else {
        all_destinations_of(cfg, part, staged.drop_last()) + destinations_of(
            cfg,
            part,
            staged.last(),
        )
    }
}

/// Every library path an import will occupy, in the order they are checked.
pub fn all_destinations(cfg: &Config, part: &str, staged: &Vec<Staged>) -> (r: Vec<String>)
    ensures
        text::views(r@) == all_destinations_of(cfg@, part@, staged_views(staged@)),
{
    let ghost all = staged_views(staged@);
    let mut out: Vec<String> = Vec::new();
    let mut i: usize = 0;
    assert(all.take(0) =~= Seq::<StagedView>::empty());
    assert(text::views(out@) =~= Seq::<Seq<char>>::empty());
    while i < staged.len()
        invariant
            i <= staged@.len(),
            all == staged_views(staged@),
            text::views(out@) == all_destinations_of(cfg@, part@, all.take(i as int)),
        decreases staged.len() - i,
    {
        assert(all.take(i + 1).drop_last() =~= all.take(i as int));
        assert(all.take(i + 1).last() == staged@[i as int]@);
        let mut more = destinations(cfg, part, &staged[i]);
        let ghost a = out@;
        let ghost b = more@;
        out.append(&mut more);
        assert(text::views(out@) =~= text::views(a) + text::views(b));
        i += 1;
    }
    assert(all.take(i as int) =~= all);
    out
}

/// Those of the paths that exist, as the manifest writes them.
pub open spec fn existing_of(root: Seq<char>, list: Seq<Seq<char>>, present: Seq<bool>) -> Seq<
    Seq<char>,
>
    decreases list.len(),
{
    if list.len() == 0 {
        Seq::empty()
    } else {
        let before = existing_of(root, list.drop_last(), present);
        if present[list.len() - 1] {
            before.push(manifest::relative(root, list.last()))
        } else {
            before
        }
    }
}

/// The library files an import would replace.
pub open spec fn conflicts_of(
    cfg: config::ConfigView,
    part: Seq<char>,
    staged: Seq<StagedView>,
    present: Seq<bool>,
) -> Seq<Seq<char>> {
    existing_of(cfg.library_root, all_destinations_of(cfg, part, staged), present)
}

/// The library files this import would replace, relative to the library root,
/// given which of [`all_destinations`] exist.
pub fn conflicts(cfg: &Config, part: &str, staged: &Vec<Staged>, present: &Vec<bool>) -> (r: Vec<
    String,
>)
    requires
        present@.len() == all_destinations_of(cfg@, part@, staged_views(staged@)).len(),
    ensures
        text::views(r@) == conflicts_of(cfg@, part@, staged_views(staged@), present@),
{
    let list = all_destinations(cfg, part, staged);
    let ghost all = text::views(list@);
    assert(all.len() == list@.len());
    let mut found: Vec<String> = Vec::new();
    let mut i: usize = 0;
    assert(all.take(0) =~= Seq::<Seq<char>>::empty());
    assert(text::views(found@) =~= Seq::<Seq<char>>::empty());
    while i < list.len()
        invariant
            i <= list@.len() == present@.len(),
            all == text::views(list@),
            text::views(found@) == existing_of(cfg@.library_root, all.take(i as int), present@),
        decreases list.len() - i,
    {
        assert(all.take(i + 1).drop_last() =~= all.take(i as int));
        assert(all.take(i + 1).last() == list@[i as int]@);
        if present[i] {
            let ghost was = text::views(found@);
            let path = rel(cfg.library_root.as_str(), list[i].as_str());
            found.push(path);
            assert(text::views(found@) =~= was.push(path@));
        }
        i += 1;
    }
    assert(all.take(i as int) =~= all);
    found
}

/// A file name and a part name that a library path can be made of.
pub open spec fn is_placeable(part: Seq<char>, item: StagedView) -> bool {
    paths::is_name(item.name) && !part.contains('/')
}

/// A part's own folder has a name of its own.
pub(crate) proof fn lemma_pretty_name(part: Seq<char>)
    requires
        !part.contains('/'),
    ensures
        paths::is_name(part + ".pretty"@),
{
    let folder = part + ".pretty"@;
    reveal_strlit(".pretty");
    assert(folder.len() >= 7);
    assert forall|i: int| 0 <= i < folder.len() implies folder[i] != '/' by {
        if i < part.len() {
            assert(part.contains(part[i]));
        } else {
            assert(folder[i] == ".pretty"@[i - part.len()]);
        }
    }
}

/// With the library contained, nothing is ever placed outside the root.
pub proof fn lemma_destinations_inside(
    cfg: config::ConfigView,
    part: Seq<char>,
    item: StagedView,
)
    requires
        is_placeable(part, item),
        forall|f: config::Field| #[trigger]
            config::inside().contains(f) ==> !config::is_stray(cfg, f),
    ensures
        destinations_of(cfg, part, item).len() > 0,
        forall|i: int|
            0 <= i < destinations_of(cfg, part, item).len() ==> paths::within(
                #[trigger] destinations_of(cfg, part, item)[i],
                cfg.library_root,
            ),
{
    assert(config::inside()[0] == config::Field::SymbolDir);
    assert(config::inside()[1] == config::Field::FootprintDir);
    assert(config::inside()[2] == config::Field::ModelDir);
    assert(config::inside().contains(config::Field::SymbolDir));
    assert(config::inside().contains(config::Field::FootprintDir));
    assert(config::inside().contains(config::Field::ModelDir));
    assert(!config::is_stray(cfg, config::Field::SymbolDir));
    assert(!config::is_stray(cfg, config::Field::FootprintDir));
    assert(!config::is_stray(cfg, config::Field::ModelDir));
    let root = cfg.library_root;
    paths::lemma_below_name(cfg.symbol_dir, item.name);
    paths::lemma_below_name(cfg.model_dir, item.name);
    paths::lemma_below_name(cfg.footprint_dir, item.name);
    paths::lemma_within(paths::below(cfg.symbol_dir, item.name), cfg.symbol_dir, root);
    paths::lemma_within(paths::below(cfg.model_dir, item.name), cfg.model_dir, root);
    paths::lemma_within(paths::below(cfg.footprint_dir, item.name), cfg.footprint_dir, root);
    let folder = part + ".pretty"@;
    lemma_pretty_name(part);
    paths::lemma_below_name(cfg.footprint_dir, folder);
    let dir = pretty_folder(cfg, part);
    paths::lemma_below_name(dir, item.name);
    paths::lemma_within(paths::below(dir, item.name), dir, cfg.footprint_dir);
    paths::lemma_within(paths::below(dir, item.name), cfg.footprint_dir, root);
}

/// What is named as a conflict is a place the import would write to, and every
/// such place that exists is named.
pub proof fn lemma_conflicts(root: Seq<char>, list: Seq<Seq<char>>, present: Seq<bool>)
    requires
        present.len() == list.len(),
    ensures
        forall|c: Seq<char>| #[trigger]
            existing_of(root, list, present).contains(c) ==> exists|i: int|
                0 <= i < list.len() && present[i] && c == manifest::relative(
                    root,
                    #[trigger] list[i],
                ),
        forall|i: int|
            0 <= i < list.len() && present[i] ==> existing_of(root, list, present).contains(
                manifest::relative(root, #[trigger] list[i]),
            ),
    decreases list.len(),
{
    lemma_conflicts_upto(root, list, present);
}

proof fn lemma_conflicts_upto(root: Seq<char>, list: Seq<Seq<char>>, present: Seq<bool>)
    requires
        present.len() >= list.len(),
    ensures
        forall|c: Seq<char>| #[trigger]
            existing_of(root, list, present).contains(c) ==> exists|i: int|
                0 <= i < list.len() && present[i] && c == manifest::relative(
                    root,
                    #[trigger] list[i],
                ),
        forall|i: int|
            0 <= i < list.len() && present[i] ==> existing_of(root, list, present).contains(
                manifest::relative(root, #[trigger] list[i]),
            ),
    decreases list.len(),
{
    if list.len() > 0 {
        let init = list.drop_last();
        lemma_conflicts_upto(root, init, present);
        let before = existing_of(root, init, present);
        let after = existing_of(root, list, present);
        assert forall|c: Seq<char>| #[trigger] after.contains(c) implies exists|i: int|
            0 <= i < list.len() && present[i] && c == manifest::relative(
                root,
                #[trigger] list[i],
            ) by {
            let k = after.index_of(c);
            if k < before.len() {
                assert(before[k] == c);
                assert(before.contains(c));
                let i = choose|i: int|
                    0 <= i < init.len() && present[i] && c == manifest::relative(
                        root,
                        #[trigger] init[i],
                    );
                assert(list[i] == init[i]);
            } else {
                assert(c == manifest::relative(root, list[list.len() - 1]));
            }
        }
        assert forall|i: int| 0 <= i < list.len() && present[i] implies after.contains(
            manifest::relative(root, #[trigger] list[i]),
        ) by {
            let c = manifest::relative(root, list[i]);
            if i < init.len() {
                assert(init[i] == list[i]);
                assert(before.contains(c));
                let k = before.index_of(c);
                assert(after[k] == c);
            } else {
                assert(after[after.len() - 1] == c);
            }
        }
    }
}

// --------------------------------------------------------------- unpacking

/// A file taken out of an archive, and where it waits.
pub struct Extracted {
    pub item: Staged,
    pub contents: Vec<u8>,
}

/// An archive being read, member by member.
pub struct Unpacking {
    pub part: String,
    pub files: Vec<Extracted>,
}

#[verifier::ext_equal]
pub struct ExtractedView {
    pub item: StagedView,
    pub contents: Seq<u8>,
}

#[verifier::ext_equal]
pub struct UnpackingView {
    pub part: Seq<char>,
    pub files: Seq<ExtractedView>,
}

impl View for Extracted {
    type V = ExtractedView;

    open spec fn view(&self) -> ExtractedView {
        ExtractedView { item: self.item@, contents: self.contents@ }
    }
}

pub open spec fn extracted_views(list: Seq<Extracted>) -> Seq<ExtractedView> {
    list.map_values(|f: Extracted| f@)
}

impl View for Unpacking {
    type V = UnpackingView;

    open spec fn view(&self) -> UnpackingView {
        UnpackingView { part: self.part@, files: extracted_views(self.files@) }
    }
}

/// What a member is to the library: its kind, its path, and its file name.
pub open spec fn wanted_member(name: Seq<char>) -> Option<(Kind, Seq<char>, Seq<char>)> {
    if ends_like_folder(name) {
        None
    } else {
        match enclosed(name) {
            None => None,
            Some(path) => match (kind_of(path), paths::leaf_of(path)) {
                (Some(kind), Some(file)) => Some((kind, path, file)),
                _ => None,
            },
        }
    }
}

/// One member added to what has been read.
pub open spec fn with_member(
    u: UnpackingView,
    staging: Seq<char>,
    kind: Kind,
    path: Seq<char>,
    file: Seq<char>,
    contents: Seq<u8>,
) -> UnpackingView {
    UnpackingView {
        part: if u.part.len() == 0 {
            match top_folder(path) {
                Some(name) => name,
                None => u.part,
            }
        } else {
            u.part
        },
        files: u.files.push(
            ExtractedView {
                item: StagedView { kind, name: file, path: paths::below(staging, file) },
                contents,
            },
        ),
    }
}

/// Reading one member: `name` and `contents` are what the archive gives.
pub open spec fn member_read(
    u: UnpackingView,
    zip: Seq<char>,
    staging: Seq<char>,
    i: nat,
    name: Result<Seq<char>, Seq<char>>,
    contents: Result<Seq<u8>, Seq<char>>,
) -> Result<UnpackingView, Seq<char>> {
    match name {
        Err(e) => Err("reading entry "@ + text::decimal(i) + " of "@ + zip + ": "@ + e),
        Ok(name) => match wanted_member(name) {
            None => Ok(u),
            Some((kind, path, file)) => match contents {
                Err(e) => Err("extracting "@ + path + ": "@ + e),
                Ok(bytes) => Ok(with_member(u, staging, kind, path, file, bytes)),
            },
        },
    }
}

/// The first `n` members read.
pub open spec fn members_read(
    zip: Seq<char>,
    staging: Seq<char>,
    archive: Seq<u8>,
    n: nat,
) -> Result<UnpackingView, Seq<char>>
    decreases n,
{
    if n == 0 {
        Ok(UnpackingView { part: Seq::empty(), files: Seq::empty() })
    } else {
        let i = (n - 1) as nat;
        match members_read(zip, staging, archive, i) {
            Err(e) => Err(e),
            Ok(u) => member_read(
                u,
                zip,
                staging,
                i,
                zip_name(archive, i),
                zip_content(archive, i),
            ),
        }
    }
}

/// The name a staging folder has for an archive.
pub open spec fn archive_stem(zip: Seq<char>) -> Seq<char> {
    match paths::stem_of(zip) {
        Some(stem) => stem,
        None => "archive"@,
    }
}

/// `s` without any `LIB_` it starts with.
pub open spec fn without_lib(s: Seq<char>) -> Seq<char>
    decreases s.len(),
{
    if s.len() >= 4 && s.take(4) == "LIB_"@ {
        without_lib(s.skip(4))
    } else {
        s
    }
}

/// What an archive that has been read to its end comes to. Conflicts are not
/// known yet.
pub open spec fn unpacked(u: UnpackingView, zip: Seq<char>, staging: Seq<char>) -> Result<
    PendingView,
    Seq<char>,
> {
    if u.files.len() == 0 {
        Err(
            "no KiCad files found in "@ + zip + " (expected */KiCad/*.kicad_sym)"@,
        )
    } else {
        Ok(
            PendingView {
                part: if u.part.len() == 0 {
                    without_lib(archive_stem(zip))
                } else {
                    u.part
                },
                source: match paths::leaf_of(zip) {
                    Some(name) => name,
                    None => Seq::empty(),
                },
                staged: u.files.map_values(|f: ExtractedView| f.item),
                staging,
                conflicts: Seq::empty(),
                zip: Some(zip),
            },
        )
    }
}

pub open spec fn pending_result(r: Result<Pending, String>) -> Result<PendingView, Seq<char>> {
    match r {
        Ok(p) => Ok(p@),
        Err(e) => Err(e@),
    }
}

/// A member the library wants.
pub struct Wanted {
    pub kind: Kind,
    pub path: String,
    pub file: String,
}

pub open spec fn wanted_view(r: Option<Wanted>) -> Option<(Kind, Seq<char>, Seq<char>)> {
    match r {
        Some(w) => Some((w.kind, w.path@, w.file@)),
        None => None,
    }
}

/// A member whose flags say what its name says.
pub open spec fn is_member(m: Member) -> bool {
    m.is_dir == ends_like_folder(m.name@) && text::opt_view(m.enclosed) == enclosed(m.name@)
}

/// What a member is to the library. Folders, paths that lead out of the archive
/// and files that are no KiCad file are nothing to it.
pub fn sort_member(m: &Member) -> (r: Option<Wanted>)
    requires
        is_member(*m),
    ensures
        wanted_view(r) == wanted_member(m.name@),
{
    if m.is_dir {
        return None;
    }
    let path = match &m.enclosed {
        Some(path) => path.clone(),
        None => {
            return None;
        },
    };
    match (classify(path.as_str()), file_name(path.as_str())) {
        (Some(kind), Some(file)) => Some(Wanted { kind, path, file }),
        _ => None,
    }
}

impl Unpacking {
    pub fn new() -> (r: Unpacking)
        ensures
            r@ == (UnpackingView { part: Seq::empty(), files: Seq::empty() }),
    {
        let r = Unpacking { part: String::new(), files: Vec::new() };
        assert(r@ =~= (UnpackingView { part: Seq::empty(), files: Seq::empty() }));
        r
    }

    /// Adds a member that has been read.
    pub fn keep(&mut self, staging: &str, wanted: Wanted, contents: Vec<u8>)
        ensures
            final(self)@ == with_member(
                old(self)@,
                staging@,
                wanted.kind,
                wanted.path@,
                wanted.file@,
                contents@,
            ),
    {
        if self.part.as_str().is_empty() {
            if let Some(found) = part_name_from(wanted.path.as_str()) {
                self.part = found;
            }
        }
        let ghost was = extracted_views(self.files@);
        let path = join_path(staging, wanted.file.as_str());
        let file = Extracted {
            item: Staged { kind: wanted.kind, name: wanted.file, path },
            contents,
        };
        let ghost now = file@;
        self.files.push(file);
        assert(extracted_views(self.files@) =~= was.push(now));
    }

    /// Reads one member of an archive.
    pub fn take(&mut self, zip_path: &str, staging: &str, archive: &Vec<u8>, i: usize) -> (r: Result<
        (),
        String,
    >)
        ensures
            match r {
                Ok(_) => Ok(final(self)@),
                Err(e) => Err(e@),
            } == member_read(
                old(self)@,
                zip_path@,
                staging@,
                i as nat,
                zip_name(archive@, i as nat),
                zip_content(archive@, i as nat),
            ),
    {
        let member = match archive_member(archive, i) {
            Ok(m) => m,
            Err(e) => {
                let mut out = "reading entry ".to_string();
                let digits = number(i as u128);
                out.append(digits.as_str());
                out.append(" of ");
                out.append(zip_path);
                out.append(": ");
                out.append(e.as_str());
                return Err(out);
            },
        };
        if let Some(wanted) = sort_member(&member) {
            match archive_content(archive, i) {
                Ok(contents) => {
                    self.keep(staging, wanted, contents);
                },
                Err(e) => {
                    let mut out = "extracting ".to_string();
                    out.append(wanted.path.as_str());
                    out.append(": ");
                    out.append(e.as_str());
                    return Err(out);
                },
            }
        }
        Ok(())
    }

    /// What the archive comes to once every member has been read.
    pub fn done(&self, zip_path: &str, staging: &str) -> (r: Result<Pending, String>)
        ensures
            pending_result(r) == unpacked(self@, zip_path@, staging@),
    {
        assert(extracted_views(self.files@).len() == self.files@.len());
        if self.files.len() == 0 {
            let mut out = "no KiCad files found in ".to_string();
            out.append(zip_path);
            out.append(" (expected */KiCad/*.kicad_sym)");
            return Err(out);
        }
        let part = if self.part.as_str().is_empty() {
            strip_lib(stem_for(zip_path).as_str())
        } else {
            self.part.clone()
        };
        let source = match file_name(zip_path) {
            Some(name) => name,
            None => String::new(),
        };
        let mut staged: Vec<Staged> = Vec::new();
        let mut i: usize = 0;
        while i < self.files.len()
            invariant
                i <= self.files@.len(),
                staged@.len() == i,
                forall|j: int| 0 <= j < i ==> (#[trigger] staged@[j])@ == self.files@[j].item@,
            decreases self.files.len() - i,
        {
            staged.push(self.files[i].item.clone());
            i += 1;
        }
        let none: Vec<String> = Vec::new();
        assert(text::views(none@) =~= Seq::<Seq<char>>::empty());
        assert(staged_views(staged@) =~= self@.files.map_values(|f: ExtractedView| f.item));
        let pending = Pending {
            part,
            source,
            staged,
            staging: staging.to_string(),
            conflicts: none,
            zip: Some(zip_path.to_string()),
        };
        Ok(pending)
    }
}

fn stem_for(zip_path: &str) -> (r: String)
    ensures
        r@ == archive_stem(zip_path@),
{
    match file_stem(zip_path) {
        Some(stem) => stem,
        None => "archive".to_string(),
    }
}

fn strip_lib(s: &str) -> (r: String)
    ensures
        r@ == without_lib(s@),
{
    let chars = to_chars(s);
    let n: usize = chars.len();
    let mut i: usize = 0;
    let key = to_chars("LIB_");
    proof {
        reveal_strlit("LIB_");
        assert(chars@.skip(0) =~= s@);
    }
    while text::stands_at(&chars, &key, i)
        invariant
            i <= n == chars@.len(),
            key@ == "LIB_"@,
            key@.len() == 4,
            without_lib(chars@.skip(i as int)) == without_lib(s@),
        decreases n - i,
    {
        assert(chars@.skip(i as int).take(4) =~= chars@.subrange(i as int, i + 4));
        assert(chars@.skip(i as int).skip(4) =~= chars@.skip(i + 4));
        i += 4;
    }
    proof {
        let here = chars@.skip(i as int);
        if here.len() >= 4 && here.take(4) == "LIB_"@ {
            assert(chars@.subrange(i as int, i + 4) =~= here.take(4));
        }
        assert(chars@.subrange(i as int, n as int) =~= here);
    }
    slice(&chars, i, n)
}

/// The folder an import of `group` is staged in.
pub open spec fn staging_of(cfg: config::ConfigView, group: Seq<char>) -> Seq<char> {
    paths::below(cfg.temp_dir, group)
}

/// The per-import scratch folder under the configured temporary directory. It is
/// emptied before use, so a previous failed run cannot leak stale files into the
/// library.
pub fn prepare_staging(cfg: &Config, group: &str) -> (r: String)
    ensures
        r@ == staging_of(cfg@, group@),
{
    join_path(cfg.temp_dir.as_str(), group)
}

/// The scratch folder an archive is unpacked into.
pub fn staging_for(cfg: &Config, zip_path: &str) -> (r: String)
    ensures
        r@ == staging_of(cfg@, archive_stem(zip_path@)),
{
    let stem = stem_for(zip_path);
    prepare_staging(cfg, stem.as_str())
}

/// How many members an archive holds.
pub fn member_count(zip_path: &str, archive: &Vec<u8>) -> (r: Result<usize, String>)
    ensures
        match r {
            Ok(n) => zip_size(archive@) == Ok::<nat, Seq<char>>(n as nat),
            Err(e) => zip_size(archive@) is Err && e@ == "reading "@ + zip_path@ + ": "@
                + zip_size(archive@)->Err_0,
        },
{
    match archive_len(archive) {
        Ok(n) => Ok(n),
        Err(e) => {
            let mut out = "reading ".to_string();
            out.append(zip_path);
            out.append(": ");
            out.append(e.as_str());
            Err(out)
        },
    }
}

/// What the bytes of an archive come to.
pub open spec fn prepared(cfg: config::ConfigView, zip: Seq<char>, archive: Seq<u8>) -> Result<
    (PendingView, Seq<ExtractedView>),
    Seq<char>,
> {
    let staging = staging_of(cfg, archive_stem(zip));
    match zip_size(archive) {
        Err(e) => Err("reading "@ + zip + ": "@ + e),
        Ok(n) => match members_read(zip, staging, archive, n) {
            Err(e) => Err(e),
            Ok(u) => match unpacked(u, zip, staging) {
                Err(e) => Err(e),
                Ok(p) => Ok((p, u.files)),
            },
        },
    }
}

proof fn lemma_members_failed(
    zip: Seq<char>,
    staging: Seq<char>,
    archive: Seq<u8>,
    i: nat,
    n: nat,
)
    requires
        i <= n,
        members_read(zip, staging, archive, i) is Err,
    ensures
        members_read(zip, staging, archive, n) == members_read(zip, staging, archive, i),
    decreases n,
{
    if i < n {
        lemma_members_failed(zip, staging, archive, i, (n - 1) as nat);
    }
}

/// How far the reading of an archive has come when `done` of its `total` members
/// have been read: the two terms of a fraction. An archive without members has a
/// whole all the same.
pub fn portion(done: usize, total: usize) -> (r: (usize, usize))
    ensures
        r.0 == done,
        r.1 == if total == 0 {
            1
        } else {
            total
        },
{
    if total == 0 {
        (done, 1)
    } else {
        (done, total)
    }
}

/// Unpacks the bytes of a ZIP: what it holds for the library, and the files to
/// be written into the staging area. Nothing in the library is touched.
pub fn prepare(cfg: &Config, zip_path: &str, archive: &Vec<u8>) -> (r: Result<
    (Pending, Vec<Extracted>),
    String,
>)
    ensures
        match r {
            Ok((p, files)) => Ok((p@, extracted_views(files@))),
            Err(e) => Err(e@),
        } == prepared(cfg@, zip_path@, archive@),
{
    let staging = staging_for(cfg, zip_path);
    let total = member_count(zip_path, archive)?;
    let mut u = Unpacking::new();
    let mut i: usize = 0;
    while i < total
        invariant
            i <= total,
            members_read(zip_path@, staging@, archive@, i as nat) == Ok::<
                UnpackingView,
                Seq<char>,
            >(u@),
            zip_size(archive@) == Ok::<nat, Seq<char>>(total as nat),
            staging@ == staging_of(cfg@, archive_stem(zip_path@)),
        decreases total - i,
    {
        match u.take(zip_path, staging.as_str(), archive, i) {
            Ok(_) => {},
            Err(e) => {
                proof {
                    lemma_members_failed(
                        zip_path@,
                        staging@,
                        archive@,
                        (i + 1) as nat,
                        total as nat,
                    );
                }
                return Err(e);
            },
        }
        i += 1;
    }
    match u.done(zip_path, staging.as_str()) {
        Ok(p) => Ok((p, u.files)),
        Err(e) => Err(e),
    }
}

/// A file downloaded rather than extracted, and where it waits.
pub fn stage(dir: &str, kind: Kind, name: &str, contents: Vec<u8>) -> (r: Extracted)
    ensures
        r@ == (ExtractedView {
            item: StagedView { kind, name: name@, path: paths::below(dir@, name@) },
            contents: contents@,
        }),
{
    Extracted {
        item: Staged { kind, name: name.to_string(), path: join_path(dir, name) },
        contents,
    }
}

// -------------------------------------------------------------- installing

/// One thing to be done on disk.
pub enum Action {
    /// Create a folder and every missing one above it.
    MakeDir { path: String },
    /// Read a staged symbol file.
    ReadSymbol { path: String },
    /// Read the merged library, if there is one, to add `source` to it.
    ReadLibrary { path: String, source: String },
    /// Copy `from` to `to` when `from` is a file.
    Backup { from: String, to: String },
    /// Write the merged library; `names` are the symbols it gained.
    WriteLibrary { path: String, text: String, names: Vec<String> },
    Rename { from: String, to: String },
    Copy { from: String, to: String },
    Remove { path: String },
    /// Remove a folder with everything in it.
    RemoveTree { path: String },
    /// Record the part in `library.json`.
    Record,
}

/// What a failure means.
pub enum Blame {
    /// The import fails, with the error behind this text.
    Fatal(String),
    /// The merge is given up; the import goes on.
    Merge,
    /// The file is copied and then removed instead, as it has to be when the
    /// two places live on different filesystems.
    Retry,
    Ignored,
}

pub struct Task {
    pub action: Action,
    pub blame: Blame,
}

/// What came of a task.
pub enum Reply {
    Done,
    Text(String),
    Existing(Option<String>),
    Failed(String),
}

pub enum ActionView {
    MakeDir { path: Seq<char> },
    ReadSymbol { path: Seq<char> },
    ReadLibrary { path: Seq<char>, source: Seq<char> },
    Backup { from: Seq<char>, to: Seq<char> },
    WriteLibrary { path: Seq<char>, text: Seq<char>, names: Seq<Seq<char>> },
    Rename { from: Seq<char>, to: Seq<char> },
    Copy { from: Seq<char>, to: Seq<char> },
    Remove { path: Seq<char> },
    RemoveTree { path: Seq<char> },
    Record,
}

pub enum BlameView {
    Fatal(Seq<char>),
    Merge,
    Retry,
    Ignored,
}

pub struct TaskView {
    pub action: ActionView,
    pub blame: BlameView,
}

pub enum ReplyView {
    Done,
    Text(Seq<char>),
    Existing(Option<Seq<char>>),
    Failed(Seq<char>),
}

impl View for Action {
    type V = ActionView;

    open spec fn view(&self) -> ActionView {
        match *self {
            Action::MakeDir { path } => ActionView::MakeDir { path: path@ },
            Action::ReadSymbol { path } => ActionView::ReadSymbol { path: path@ },
            Action::ReadLibrary { path, source } => ActionView::ReadLibrary {
                path: path@,
                source: source@,
            },
            Action::Backup { from, to } => ActionView::Backup { from: from@, to: to@ },
            Action::WriteLibrary { path, text, names } => ActionView::WriteLibrary {
                path: path@,
                text: text@,
                names: text::views(names@),
            },
            Action::Rename { from, to } => ActionView::Rename { from: from@, to: to@ },
            Action::Copy { from, to } => ActionView::Copy { from: from@, to: to@ },
            Action::Remove { path } => ActionView::Remove { path: path@ },
            Action::RemoveTree { path } => ActionView::RemoveTree { path: path@ },
            Action::Record => ActionView::Record,
        }
    }
}

impl View for Blame {
    type V = BlameView;

    open spec fn view(&self) -> BlameView {
        match *self {
            Blame::Fatal(t) => BlameView::Fatal(t@),
            Blame::Merge => BlameView::Merge,
            Blame::Retry => BlameView::Retry,
            Blame::Ignored => BlameView::Ignored,
        }
    }
}

impl View for Task {
    type V = TaskView;

    open spec fn view(&self) -> TaskView {
        TaskView { action: self.action@, blame: self.blame@ }
    }
}

impl View for Reply {
    type V = ReplyView;

    open spec fn view(&self) -> ReplyView {
        match *self {
            Reply::Done => ReplyView::Done,
            Reply::Text(t) => ReplyView::Text(t@),
            Reply::Existing(t) => ReplyView::Existing(text::opt_view(t)),
            Reply::Failed(e) => ReplyView::Failed(e@),
        }
    }
}

pub open spec fn task_views(list: Seq<Task>) -> Seq<TaskView> {
    list.map_values(|t: Task| t@)
}

pub open spec fn fatal(action: ActionView, blame: Seq<char>) -> TaskView {
    TaskView { action, blame: BlameView::Fatal(blame) }
}

pub open spec fn dir_task(path: Seq<char>) -> TaskView {
    fatal(ActionView::MakeDir { path }, "creating "@ + path + ": "@)
}

pub open spec fn copy_task(from: Seq<char>, to: Seq<char>) -> TaskView {
    fatal(ActionView::Copy { from, to }, "copying to "@ + to + ": "@)
}

pub open spec fn backup_path(path: Seq<char>) -> Seq<char> {
    paths::re_extended(path, "bak"@)
}

/// Moving a file to its place.
pub open spec fn place_tasks(from: Seq<char>, to: Seq<char>) -> Seq<TaskView> {
    let go = TaskView { action: ActionView::Rename { from, to }, blame: BlameView::Retry };
    match paths::parent_of(to) {
        Some(dir) => seq![dir_task(dir), go],
        None => seq![go],
    }
}

/// What one staged file asks for.
pub open spec fn item_tasks(cfg: config::ConfigView, part: Seq<char>, item: StagedView) -> Seq<
    TaskView,
> {
    let all = destinations_of(cfg, part, item);
    let dest = all.last();
    match item.kind {
        Kind::Symbol => {
            let read = fatal(
                ActionView::ReadSymbol { path: item.path },
                "reading "@ + item.path + ": "@,
            );
            let save = fatal(
                ActionView::Backup { from: dest, to: backup_path(dest) },
                "backing up "@ + dest + " to "@ + backup_path(dest) + ": "@,
            );
            if cfg.backup_before_overwrite {
                seq![read, save] + place_tasks(item.path, dest)
            } else {
                seq![read] + place_tasks(item.path, dest)
            }
        },
        Kind::Model => place_tasks(item.path, dest),
        Kind::Footprint => if all.len() > 1 {
            let copy = seq![copy_task(item.path, all[0])];
            let made = match paths::parent_of(all[0]) {
                Some(dir) => seq![
                    fatal(
                        ActionView::MakeDir { path: dir },
                        "creating per-part footprint folder: "@,
                    ),
                ],
                None => Seq::empty(),
            };
            made + copy + place_tasks(item.path, dest)
        } else {
            place_tasks(item.path, dest)
        },
    }
}

/// What the staged files ask for, those of a footprint or those of the others.
pub open spec fn items_tasks(
    cfg: config::ConfigView,
    part: Seq<char>,
    staged: Seq<StagedView>,
    footprints: bool,
) -> Seq<TaskView>
    decreases staged.len(),
{
    if staged.len() == 0 {
        Seq::empty()
    } else {
        let before = items_tasks(cfg, part, staged.drop_last(), footprints);
        if (staged.last().kind == Kind::Footprint) == footprints {
            before + item_tasks(cfg, part, staged.last())
        } else {
            before
        }
    }
}

/// The source archive filed away and the staging area cleared.
pub open spec fn closing_tasks(cfg: config::ConfigView, p: PendingView) -> Seq<TaskView> {
    let clear = seq![
        TaskView {
            action: ActionView::RemoveTree { path: p.staging },
            blame: BlameView::Ignored,
        },
    ];
    match p.zip {
        None => clear,
        Some(zip) => if cfg.delete_zip_after_import {
            seq![fatal(ActionView::Remove { path: zip }, "deleting "@ + zip + ": "@)] + clear
        } else {
            seq![dir_task(cfg.archive_dir)] + place_tasks(
                zip,
                paths::below(cfg.archive_dir, p.source),
            ) + clear
        },
    }
}

/// The folders every import needs.
pub open spec fn opening_tasks(cfg: config::ConfigView) -> Seq<TaskView> {
    seq![dir_task(cfg.symbol_dir), dir_task(cfg.footprint_dir), dir_task(cfg.model_dir)]
}

/// Everything an import asks for, from the first folder to the cleared staging
/// area. Footprints come last; they go to two places.
pub open spec fn agenda_of(cfg: config::ConfigView, p: PendingView) -> Seq<TaskView> {
    if p.staged.len() == 0 {
        opening_tasks(cfg)
    } else {
        opening_tasks(cfg) + items_tasks(cfg, p.part, p.staged, false) + items_tasks(
            cfg,
            p.part,
            p.staged,
            true,
        ) + seq![TaskView { action: ActionView::Record, blame: BlameView::Ignored }]
            + closing_tasks(cfg, p)
    }
}

#[verifier::ext_equal]
pub struct InstallView {
    pub cfg: config::ConfigView,
    pub pending: PendingView,
    pub agenda: Seq<TaskView>,
    pub symbol_names: Seq<Seq<char>>,
    pub merged_symbols: Seq<Seq<char>>,
}

/// An import on its way into the library: what is left to do, and what is known
/// so far.
pub struct Install {
    pub cfg: Config,
    pub pending: Pending,
    pub agenda: Vec<Task>,
    pub symbol_names: Vec<String>,
    pub merged_symbols: Vec<String>,
}

impl View for Install {
    type V = InstallView;

    open spec fn view(&self) -> InstallView {
        InstallView {
            cfg: self.cfg@,
            pending: self.pending@,
            agenda: task_views(self.agenda@),
            symbol_names: text::views(self.symbol_names@),
            merged_symbols: text::views(self.merged_symbols@),
        }
    }
}

/// The tasks behind those of a merge.
pub open spec fn past_merge(agenda: Seq<TaskView>) -> Seq<TaskView>
    decreases agenda.len(),
{
    if agenda.len() > 0 && agenda[0].blame == BlameView::Merge {
        past_merge(agenda.drop_first())
    } else {
        agenda
    }
}

/// What reading a symbol file adds: the merged library has to be read, unless
/// there is none or the file has nothing for it.
pub open spec fn merge_start(cfg: config::ConfigView, source: Seq<char>) -> Seq<TaskView> {
    match (cfg.merged_symbol_lib, symlib::parsed(source)) {
        (Some(lib), Ok(incoming)) => if incoming.symbols.len() > 0 {
            seq![
                TaskView {
                    action: ActionView::ReadLibrary { path: lib, source },
                    blame: BlameView::Merge,
                },
            ]
        } else {
            Seq::empty()
        },
        _ => Seq::empty(),
    }
}

pub open spec fn for_merge(action: ActionView) -> TaskView {
    TaskView { action, blame: BlameView::Merge }
}

/// What reading the merged library adds: the new text, behind a backup of the
/// old one. A malformed library must not lose the import.
pub open spec fn merge_rest(
    cfg: config::ConfigView,
    lib: Seq<char>,
    source: Seq<char>,
    existing: Option<Seq<char>>,
) -> Seq<TaskView> {
    match symlib::merge_of(lib, source, Ok(existing)) {
        Ok((names, Some(t))) => {
            let save = if cfg.backup_before_overwrite {
                seq![for_merge(ActionView::Backup { from: lib, to: backup_path(lib) })]
            } else {
                Seq::empty()
            };
            let made = match paths::parent_of(lib) {
                Some(dir) => seq![for_merge(ActionView::MakeDir { path: dir })],
                None => Seq::empty(),
            };
            save + made + seq![
                for_merge(ActionView::WriteLibrary { path: lib, text: t, names }),
            ]
        },
        _ => Seq::empty(),
    }
}

/// The import after the first task on its agenda has been answered.
pub open spec fn answered(st: InstallView, reply: ReplyView) -> Result<InstallView, Seq<char>> {
    let task = st.agenda[0];
    let rest = st.agenda.drop_first();
    match reply {
        ReplyView::Failed(e) => match task.blame {
            BlameView::Fatal(t) => Err(t + e),
            BlameView::Merge => Ok(InstallView { agenda: past_merge(rest), ..st }),
            BlameView::Ignored => Ok(InstallView { agenda: rest, ..st }),
            BlameView::Retry => match task.action {
                ActionView::Rename { from, to } => Ok(
                    InstallView {
                        agenda: seq![
                            copy_task(from, to),
                            fatal(
                                ActionView::Remove { path: from },
                                "removing "@ + from + ": "@,
                            ),
                        ] + rest,
                        ..st
                    },
                ),
                _ => Ok(InstallView { agenda: rest, ..st }),
            },
        },
        ReplyView::Text(t) => match task.action {
            ActionView::ReadSymbol { path } => Ok(
                InstallView {
                    symbol_names: st.symbol_names + symlib::symbol_names_in(t),
                    agenda: merge_start(st.cfg, t) + rest,
                    ..st
                },
            ),
            _ => Ok(InstallView { agenda: rest, ..st }),
        },
        ReplyView::Existing(x) => match task.action {
            ActionView::ReadLibrary { path, source } => Ok(
                InstallView { agenda: merge_rest(st.cfg, path, source, x) + rest, ..st },
            ),
            _ => Ok(InstallView { agenda: rest, ..st }),
        },
        ReplyView::Done => match task.action {
            ActionView::WriteLibrary { path, text, names } => Ok(
                InstallView {
                    merged_symbols: st.merged_symbols + names,
                    agenda: rest,
                    ..st
                },
            ),
            _ => Ok(InstallView { agenda: rest, ..st }),
        },
    }
}

pub open spec fn names_of_kind(staged: Seq<StagedView>, kind: Kind) -> Seq<Seq<char>>
    decreases staged.len(),
{
    if staged.len() == 0 {
        Seq::empty()
    } else if staged.last().kind == kind {
        names_of_kind(staged.drop_last(), kind).push(staged.last().name)
    } else {
        names_of_kind(staged.drop_last(), kind)
    }
}

/// The library paths of one kind of file, as the manifest writes them.
pub open spec fn places_of_kind(
    cfg: config::ConfigView,
    part: Seq<char>,
    staged: Seq<StagedView>,
    kind: Kind,
) -> Seq<Seq<char>>
    decreases staged.len(),
{
    if staged.len() == 0 {
        Seq::empty()
    } else {
        let before = places_of_kind(cfg, part, staged.drop_last(), kind);
        if staged.last().kind == kind {
            before + destinations_of(cfg, part, staged.last()).map_values(
                |p: Seq<char>| manifest::relative(cfg.library_root, p),
            )
        } else {
            before
        }
    }
}

/// The part as the manifest records it.
pub open spec fn record_of(st: InstallView, now: Seq<char>) -> manifest::PartView {
    let p = st.pending;
    let symbols = places_of_kind(st.cfg, p.part, p.staged, Kind::Symbol);
    manifest::PartView {
        name: p.part,
        source: p.source,
        imported_at: now,
        symbol_file: if symbols.len() > 0 {
            Some(symbols.last())
        } else {
            None
        },
        symbol_names: st.symbol_names,
        footprints: places_of_kind(st.cfg, p.part, p.staged, Kind::Footprint),
        models: places_of_kind(st.cfg, p.part, p.staged, Kind::Model),
    }
}

/// What the import comes to once nothing is left to do.
pub open spec fn installed(st: InstallView) -> Result<SummaryView, Seq<char>> {
    let p = st.pending;
    if p.staged.len() == 0 {
        Err(p.part + ": nothing to install"@)
    } else {
        Ok(
            SummaryView {
                part: p.part,
                symbols: names_of_kind(p.staged, Kind::Symbol),
                footprints: names_of_kind(p.staged, Kind::Footprint),
                models: names_of_kind(p.staged, Kind::Model),
                merged_symbols: st.merged_symbols,
                archived_to: match p.zip {
                    Some(_) => if st.cfg.delete_zip_after_import {
                        None
                    } else {
                        Some(paths::below(st.cfg.archive_dir, p.source))
                    },
                    None => None,
                },
                deleted_zip: p.zip is Some && st.cfg.delete_zip_after_import,
            },
        )
    }
}

/// Cancelling clears the staging area and does nothing else.
pub open spec fn discarded(p: PendingView) -> ActionView {
    ActionView::RemoveTree { path: p.staging }
}

/// `a`, then `b`, then `c`.
fn text3(a: &str, b: &str, c: &str) -> (r: String)
    ensures
        r@ == a@ + b@ + c@,
{
    let mut out = a.to_string();
    out.append(b);
    out.append(c);
    out
}

fn make_dir(path: &str) -> (r: Task)
    ensures
        r@ == dir_task(path@),
{
    Task {
        action: Action::MakeDir { path: path.to_string() },
        blame: Blame::Fatal(text3("creating ", path, ": ")),
    }
}

fn make_copy(from: &str, to: &str) -> (r: Task)
    ensures
        r@ == copy_task(from@, to@),
{
    Task {
        action: Action::Copy { from: from.to_string(), to: to.to_string() },
        blame: Blame::Fatal(text3("copying to ", to, ": ")),
    }
}

fn push_task(list: &mut Vec<Task>, task: Task)
    ensures
        task_views(final(list)@) == task_views(old(list)@).push(task@),
{
    let ghost was = task_views(list@);
    list.push(task);
    assert(task_views(list@) =~= was.push(task@));
}

fn push_all(list: &mut Vec<Task>, more: Vec<Task>)
    ensures
        task_views(final(list)@) == task_views(old(list)@) + task_views(more@),
{
    let ghost a = list@;
    let ghost b = more@;
    let mut tail = more;
    list.append(&mut tail);
    assert(task_views(list@) =~= task_views(a) + task_views(b));
}

fn no_tasks() -> (r: Vec<Task>)
    ensures
        task_views(r@) == Seq::<TaskView>::empty(),
{
    let out: Vec<Task> = Vec::new();
    assert(task_views(out@) =~= Seq::<TaskView>::empty());
    out
}

/// Moves `from` to `to`, falling back to copy and delete when the two live on
/// different filesystems.
fn place(from: &str, to: &str) -> (r: Vec<Task>)
    ensures
        task_views(r@) == place_tasks(from@, to@),
{
    let mut out = no_tasks();
    if let Some(dir) = parent(to) {
        push_task(&mut out, make_dir(dir.as_str()));
    }
    push_task(
        &mut out,
        Task {
            action: Action::Rename { from: from.to_string(), to: to.to_string() },
            blame: Blame::Retry,
        },
    );
    assert(task_views(out@) =~= place_tasks(from@, to@));
    out
}

fn backup_of(path: &str) -> (r: String)
    ensures
        r@ == backup_path(path@),
{
    proof {
        reveal_strlit("bak");
    }
    paths::with_extension(path, "bak")
}

/// Where a staged file itself ends up, as opposed to the copies made of it.
pub fn last_destination(cfg: &Config, part: &str, item: &Staged) -> (r: String)
    ensures
        r@ == target_of(cfg@, part@, item@),
{
    let dests = destinations(cfg, part, item);
    assert(text::views(dests@).last() == dests@.last()@);
    dests[dests.len() - 1].clone()
}

fn tasks_for(cfg: &Config, part: &str, item: &Staged) -> (r: Vec<Task>)
    ensures
        task_views(r@) == item_tasks(cfg@, part@, item@),
{
    let dests = destinations(cfg, part, item);
    let ghost all = destinations_of(cfg@, part@, item@);
    assert(text::views(dests@).last() == dests@.last()@);
    let dest = dests[dests.len() - 1].clone();
    let mut out = no_tasks();
    match item.kind {
        Kind::Symbol => {
            push_task(
                &mut out,
                Task {
                    action: Action::ReadSymbol { path: item.path.clone() },
                    blame: Blame::Fatal(text3("reading ", item.path.as_str(), ": ")),
                },
            );
            if cfg.backup_before_overwrite {
                let kept = backup_of(dest.as_str());
                let mut blame = text3("backing up ", dest.as_str(), " to ");
                blame.append(kept.as_str());
                blame.append(": ");
                push_task(
                    &mut out,
                    Task {
                        action: Action::Backup { from: dest.clone(), to: kept },
                        blame: Blame::Fatal(blame),
                    },
                );
            }
            push_all(&mut out, place(item.path.as_str(), dest.as_str()));
        },
        Kind::Model => {
            push_all(&mut out, place(item.path.as_str(), dest.as_str()));
        },
        Kind::Footprint => {
            if dests.len() > 1 {
                assert(all[0] == dests@[0]@);
                if let Some(dir) = parent(dests[0].as_str()) {
                    push_task(
                        &mut out,
                        Task {
                            action: Action::MakeDir { path: dir },
                            blame: Blame::Fatal(
                                "creating per-part footprint folder: ".to_string(),
                            ),
                        },
                    );
                }
                push_task(&mut out, make_copy(item.path.as_str(), dests[0].as_str()));
            }
            push_all(&mut out, place(item.path.as_str(), dest.as_str()));
        },
    }
    assert(task_views(out@) =~= item_tasks(cfg@, part@, item@));
    out
}

fn tasks_for_all(cfg: &Config, part: &str, staged: &Vec<Staged>, footprints: bool) -> (r: Vec<Task>)
    ensures
        task_views(r@) == items_tasks(cfg@, part@, staged_views(staged@), footprints),
{
    let ghost all = staged_views(staged@);
    let mut out = no_tasks();
    let mut i: usize = 0;
    assert(all.take(0) =~= Seq::<StagedView>::empty());
    while i < staged.len()
        invariant
            i <= staged@.len(),
            all == staged_views(staged@),
            task_views(out@) == items_tasks(cfg@, part@, all.take(i as int), footprints),
        decreases staged.len() - i,
    {
        assert(all.take(i + 1).drop_last() =~= all.take(i as int));
        assert(all.take(i + 1).last() == staged@[i as int]@);
        if (staged[i].kind == Kind::Footprint) == footprints {
            let more = tasks_for(cfg, part, &staged[i]);
            push_all(&mut out, more);
        }
        i += 1;
    }
    assert(all.take(i as int) =~= all);
    out
}

fn tasks_to_close(cfg: &Config, pending: &Pending) -> (r: Vec<Task>)
    ensures
        task_views(r@) == closing_tasks(cfg@, pending@),
{
    let mut out = no_tasks();
    if let Some(zip) = &pending.zip {
        if cfg.delete_zip_after_import {
            push_task(
                &mut out,
                Task {
                    action: Action::Remove { path: zip.clone() },
                    blame: Blame::Fatal(text3("deleting ", zip.as_str(), ": ")),
                },
            );
        } else {
            push_task(&mut out, make_dir(cfg.archive_dir.as_str()));
            let dest = join_path(cfg.archive_dir.as_str(), pending.source.as_str());
            let more = place(zip.as_str(), dest.as_str());
            push_all(&mut out, more);
        }
    }
    push_task(
        &mut out,
        Task {
            action: Action::RemoveTree { path: pending.staging.clone() },
            blame: Blame::Ignored,
        },
    );
    assert(task_views(out@) =~= closing_tasks(cfg@, pending@));
    out
}

/// Sets out to place a prepared import into the library, replacing what it
/// conflicts with, and to file the source archive away.
pub fn install(cfg: &Config, pending: Pending) -> (r: Install)
    ensures
        r@ == (InstallView {
            cfg: cfg@,
            pending: pending@,
            agenda: agenda_of(cfg@, pending@),
            symbol_names: Seq::empty(),
            merged_symbols: Seq::empty(),
        }),
{
    let mut agenda = no_tasks();
    push_task(&mut agenda, make_dir(cfg.symbol_dir.as_str()));
    push_task(&mut agenda, make_dir(cfg.footprint_dir.as_str()));
    push_task(&mut agenda, make_dir(cfg.model_dir.as_str()));
    assert(task_views(agenda@) =~= opening_tasks(cfg@));
    assert(staged_views(pending.staged@).len() == pending.staged@.len());
    if pending.staged.len() > 0 {
        let first = tasks_for_all(cfg, pending.part.as_str(), &pending.staged, false);
        push_all(&mut agenda, first);
        // Footprints go to two places, so they are handled after the others.
        let second = tasks_for_all(cfg, pending.part.as_str(), &pending.staged, true);
        push_all(&mut agenda, second);
        push_task(&mut agenda, Task { action: Action::Record, blame: Blame::Ignored });
        let third = tasks_to_close(cfg, &pending);
        push_all(&mut agenda, third);
        assert(task_views(agenda@) =~= agenda_of(cfg@, pending@));
    }
    let r = Install {
        cfg: cfg.clone(),
        pending,
        agenda,
        symbol_names: Vec::new(),
        merged_symbols: Vec::new(),
    };
    assert(text::views(r.symbol_names@) =~= Seq::<Seq<char>>::empty());
    assert(text::views(r.merged_symbols@) =~= Seq::<Seq<char>>::empty());
    r
}

fn add_texts(list: &mut Vec<String>, more: Vec<String>)
    ensures
        text::views(final(list)@) == text::views(old(list)@) + text::views(more@),
{
    let ghost a = list@;
    let ghost b = more@;
    let mut tail = more;
    list.append(&mut tail);
    assert(text::views(list@) =~= text::views(a) + text::views(b));
}

impl Install {
    /// The next thing to do, if anything is left.
    pub fn next(&self) -> (r: Option<&Task>)
        ensures
            match r {
                Some(t) => self@.agenda.len() > 0 && t@ == self@.agenda[0],
                None => self@.agenda.len() == 0,
            },
    {
        if self.agenda.len() == 0 {
            None
        } else {
            Some(&self.agenda[0])
        }
    }

    /// Puts `front` before everything that is left.
    fn put_first(&mut self, front: Vec<Task>)
        ensures
            final(self)@ == (InstallView {
                agenda: task_views(front@) + old(self)@.agenda,
                ..old(self)@
            }),
    {
        let ghost was = self@;
        let mut all = front;
        let ghost a = all@;
        let ghost b = self.agenda@;
        all.append(&mut self.agenda);
        assert(task_views(all@) =~= task_views(a) + task_views(b));
        self.agenda = all;
        assert(self@ =~= (InstallView { agenda: task_views(a) + was.agenda, ..was }));
    }

    fn drop_merge(&mut self)
        ensures
            final(self)@ == (InstallView { agenda: past_merge(old(self)@.agenda), ..old(self)@ }),
    {
        let ghost was = self@;
        loop
            invariant
                was == old(self)@,
                past_merge(self@.agenda) == past_merge(was.agenda),
                self@ == (InstallView { agenda: self@.agenda, ..was }),
            decreases self.agenda.len(),
        {
            if self.agenda.len() == 0 {
                return;
            }
            assert(self@.agenda[0] == self.agenda@[0]@);
            match &self.agenda[0].blame {
                Blame::Merge => {},
                _ => {
                    return;
                },
            }
            let ghost before = self@.agenda;
            let _ = self.agenda.remove(0);
            assert(self@.agenda =~= before.drop_first());
        }
    }

    fn start_merge(&self, source: &str) -> (r: Vec<Task>)
        ensures
            task_views(r@) == merge_start(self@.cfg, source@),
    {
        let mut out = no_tasks();
        if let Some(lib) = &self.cfg.merged_symbol_lib {
            if let Ok(incoming) = symlib::parse(source) {
                assert(symlib::block_views(incoming.symbols@).len() == incoming.symbols@.len());
                if incoming.symbols.len() > 0 {
                    push_task(
                        &mut out,
                        Task {
                            action: Action::ReadLibrary {
                                path: lib.clone(),
                                source: source.to_string(),
                            },
                            blame: Blame::Merge,
                        },
                    );
                }
            }
        }
        assert(task_views(out@) =~= merge_start(self@.cfg, source@));
        out
    }

    fn go_on_merging(&self, lib: &str, source: &str, existing: Option<String>) -> (r: Vec<Task>)
        ensures
            task_views(r@) == merge_rest(self@.cfg, lib@, source@, text::opt_view(existing)),
    {
        let mut out = no_tasks();
        let ghost seen = text::opt_view(existing);
        if let Ok(m) = symlib::merge_into(lib, source, Ok(existing)) {
            if let Some(t) = m.text {
                if self.cfg.backup_before_overwrite {
                    push_task(
                        &mut out,
                        Task {
                            action: Action::Backup { from: lib.to_string(), to: backup_of(lib) },
                            blame: Blame::Merge,
                        },
                    );
                }
                if let Some(dir) = parent(lib) {
                    push_task(
                        &mut out,
                        Task { action: Action::MakeDir { path: dir }, blame: Blame::Merge },
                    );
                }
                push_task(
                    &mut out,
                    Task {
                        action: Action::WriteLibrary {
                            path: lib.to_string(),
                            text: t,
                            names: m.names,
                        },
                        blame: Blame::Merge,
                    },
                );
            }
        }
        assert(task_views(out@) =~= merge_rest(self@.cfg, lib@, source@, seen));
        out
    }

    /// Takes what came of the first task on the agenda.
    pub fn reply(&mut self, reply: Reply) -> (r: Result<(), String>)
        requires
            old(self)@.agenda.len() > 0,
        ensures
            match r {
                Ok(_) => Ok(final(self)@),
                Err(e) => Err(e@),
            } == answered(old(self)@, reply@),
    {
        let ghost was = self@;
        let task = self.agenda.remove(0);
        assert(was.agenda[0] == task@);
        assert(self@.agenda =~= was.agenda.drop_first());
        assert(self@ =~= (InstallView { agenda: was.agenda.drop_first(), ..was }));
        match reply {
            Reply::Failed(e) => match task.blame {
                Blame::Fatal(t) => {
                    let mut out = t;
                    out.append(e.as_str());
                    return Err(out);
                },
                Blame::Merge => {
                    self.drop_merge();
                },
                Blame::Ignored => {},
                Blame::Retry => {
                    if let Action::Rename { from, to } = task.action {
                        let mut front = no_tasks();
                        push_task(&mut front, make_copy(from.as_str(), to.as_str()));
                        push_task(
                            &mut front,
                            Task {
                                action: Action::Remove { path: from.clone() },
                                blame: Blame::Fatal(text3("removing ", from.as_str(), ": ")),
                            },
                        );
                        assert(task_views(front@) =~= seq![
                            copy_task(from@, to@),
                            fatal(
                                ActionView::Remove { path: from@ },
                                "removing "@ + from@ + ": "@,
                            ),
                        ]);
                        self.put_first(front);
                    }
                },
            },
            Reply::Text(t) => {
                if let Action::ReadSymbol { path } = task.action {
                    let found = symlib::symbol_names(t.as_str());
                    let front = self.start_merge(t.as_str());
                    add_texts(&mut self.symbol_names, found);
                    self.put_first(front);
                }
            },
            Reply::Existing(x) => {
                if let Action::ReadLibrary { path, source } = task.action {
                    let front = self.go_on_merging(path.as_str(), source.as_str(), x);
                    self.put_first(front);
                }
            },
            Reply::Done => {
                if let Action::WriteLibrary { path, text, names } = task.action {
                    add_texts(&mut self.merged_symbols, names);
                }
            },
        }
        Ok(())
    }

    /// The part as the manifest records it at the time `now`.
    pub fn record_at(&self, now: String) -> (r: Part)
        ensures
            r@ == record_of(self@, now@),
    {
        let part = self.pending.part.as_str();
        let staged = &self.pending.staged;
        let symbols = places(&self.cfg, part, staged, Kind::Symbol);
        let ghost all = text::views(symbols@);
        assert(all.len() == symbols@.len());
        let symbol_file = if symbols.len() > 0 {
            assert(all.last() == symbols@.last()@);
            Some(symbols[symbols.len() - 1].clone())
        } else {
            None
        };
        Part {
            name: self.pending.part.clone(),
            source: self.pending.source.clone(),
            imported_at: now,
            symbol_file,
            symbol_names: clone_texts(&self.symbol_names),
            footprints: places(&self.cfg, part, staged, Kind::Footprint),
            models: places(&self.cfg, part, staged, Kind::Model),
        }
    }

    /// The part as the manifest records it.
    pub fn record(&self) -> (r: Part)
        ensures
            exists|now: Seq<char>| r@ == #[trigger] record_of(self@, now),
    {
        let stamp = manifest::now();
        self.record_at(stamp)
    }
}

fn places(cfg: &Config, part: &str, staged: &Vec<Staged>, kind: Kind) -> (r: Vec<String>)
    ensures
        text::views(r@) == places_of_kind(cfg@, part@, staged_views(staged@), kind),
{
    let ghost all = staged_views(staged@);
    let mut out: Vec<String> = Vec::new();
    let mut i: usize = 0;
    assert(all.take(0) =~= Seq::<StagedView>::empty());
    assert(text::views(out@) =~= Seq::<Seq<char>>::empty());
    while i < staged.len()
        invariant
            i <= staged@.len(),
            all == staged_views(staged@),
            text::views(out@) == places_of_kind(cfg@, part@, all.take(i as int), kind),
        decreases staged.len() - i,
    {
        assert(all.take(i + 1).drop_last() =~= all.take(i as int));
        assert(all.take(i + 1).last() == staged@[i as int]@);
        if staged[i].kind == kind {
            let dests = destinations(cfg, part, &staged[i]);
            let ghost before = text::views(out@);
            let ghost more = text::views(dests@).map_values(
                |p: Seq<char>| manifest::relative(cfg@.library_root, p),
            );
            let mut k: usize = 0;
            assert(before + more.take(0) =~= before);
            while k < dests.len()
                invariant
                    k <= dests@.len(),
                    more == text::views(dests@).map_values(
                        |p: Seq<char>| manifest::relative(cfg@.library_root, p),
                    ),
                    text::views(out@) == before + more.take(k as int),
                decreases dests.len() - k,
            {
                let ghost was = text::views(out@);
                let path = rel(cfg.library_root.as_str(), dests[k].as_str());
                out.push(path);
                assert(text::views(out@) =~= was.push(path@));
                assert(before + more.take(k + 1) =~= was.push(path@));
                k += 1;
            }
            assert(more.take(k as int) =~= more);
        }
        i += 1;
    }
    assert(all.take(i as int) =~= all);
    out
}

fn names_of(staged: &Vec<Staged>, kind: Kind) -> (r: Vec<String>)
    ensures
        text::views(r@) == names_of_kind(staged_views(staged@), kind),
{
    let ghost all = staged_views(staged@);
    let mut out: Vec<String> = Vec::new();
    let mut i: usize = 0;
    assert(all.take(0) =~= Seq::<StagedView>::empty());
    assert(text::views(out@) =~= Seq::<Seq<char>>::empty());
    while i < staged.len()
        invariant
            i <= staged@.len(),
            all == staged_views(staged@),
            text::views(out@) == names_of_kind(all.take(i as int), kind),
        decreases staged.len() - i,
    {
        assert(all.take(i + 1).drop_last() =~= all.take(i as int));
        assert(all.take(i + 1).last() == staged@[i as int]@);
        if staged[i].kind == kind {
            let ghost was = text::views(out@);
            out.push(staged[i].name.clone());
            assert(text::views(out@) =~= was.push(staged@[i as int].name@));
        }
        i += 1;
    }
    assert(all.take(i as int) =~= all);
    out
}

/// What an import comes to once nothing is left to do.
pub fn finish(done: &Install) -> (r: Result<ImportSummary, String>)
    ensures
        match r {
            Ok(s) => Ok(s@),
            Err(e) => Err(e@),
        } == installed(done@),
{
    let p = &done.pending;
    assert(staged_views(p.staged@).len() == p.staged@.len());
    if p.staged.len() == 0 {
        let mut out = p.part.clone();
        out.append(": nothing to install");
        return Err(out);
    }
    let archived_to = match &p.zip {
        Some(_) => {
            if done.cfg.delete_zip_after_import {
                None
            } else {
                Some(join_path(done.cfg.archive_dir.as_str(), p.source.as_str()))
            }
        },
        None => None,
    };
    Ok(
        ImportSummary {
            part: p.part.clone(),
            symbols: names_of(&p.staged, Kind::Symbol),
            footprints: names_of(&p.staged, Kind::Footprint),
            models: names_of(&p.staged, Kind::Model),
            merged_symbols: clone_texts(&done.merged_symbols),
            archived_to,
            deleted_zip: p.zip.is_some() && done.cfg.delete_zip_after_import,
        },
    )
}

/// Throws away a prepared import: the staging area is removed, and the library
/// and the source archive are left exactly as they were.
pub fn discard(pending: &Pending) -> (r: Action)
    ensures
        r@ == discarded(pending@),
{
    Action::RemoveTree { path: pending.staging.clone() }
}

// ------------------------------------------------------------------ laws

/// Where a task puts a file, if it puts one anywhere.
pub open spec fn written_by(task: TaskView) -> Option<Seq<char>> {
    match task.action {
        ActionView::Rename { from, to } => Some(to),
        ActionView::Copy { from, to } => Some(to),
        _ => None,
    }
}

pub open spec fn moves(from: Seq<char>, to: Seq<char>) -> TaskView {
    TaskView { action: ActionView::Rename { from, to }, blame: BlameView::Retry }
}

proof fn lemma_item_tasks(cfg: config::ConfigView, part: Seq<char>, item: StagedView)
    ensures
        item_tasks(cfg, part, item).contains(moves(item.path, target_of(cfg, part, item))),
        forall|i: int|
            0 <= i < item_tasks(cfg, part, item).len() ==> match written_by(
                #[trigger] item_tasks(cfg, part, item)[i],
            ) {
                Some(to) => destinations_of(cfg, part, item).contains(to),
                None => true,
            },
{
    let list = item_tasks(cfg, part, item);
    let dest = target_of(cfg, part, item);
    let all = destinations_of(cfg, part, item);
    assert(all[all.len() - 1] == dest);
    assert(list[list.len() - 1] == moves(item.path, dest));
    assert forall|i: int| 0 <= i < list.len() implies match written_by(#[trigger] list[i]) {
        Some(to) => all.contains(to),
        None => true,
    } by {
        assert(all.contains(dest));
        assert(all.contains(all[0]));
    }
}

/// The files of the wanted kind are all moved to their own places.
proof fn lemma_items_moved(
    cfg: config::ConfigView,
    part: Seq<char>,
    staged: Seq<StagedView>,
    footprints: bool,
)
    ensures
        forall|k: int|
            0 <= k < staged.len() && ((#[trigger] staged[k]).kind == Kind::Footprint)
                == footprints ==> items_tasks(cfg, part, staged, footprints).contains(
                moves(staged[k].path, target_of(cfg, part, staged[k])),
            ),
    decreases staged.len(),
{
    if staged.len() > 0 {
        let init = staged.drop_last();
        let before = items_tasks(cfg, part, init, footprints);
        let after = items_tasks(cfg, part, staged, footprints);
        let more = item_tasks(cfg, part, staged.last());
        lemma_items_moved(cfg, part, init, footprints);
        lemma_item_tasks(cfg, part, staged.last());
        assert forall|k: int|
            0 <= k < staged.len() && ((#[trigger] staged[k]).kind == Kind::Footprint)
                == footprints implies after.contains(
            moves(staged[k].path, target_of(cfg, part, staged[k])),
        ) by {
            let t = moves(staged[k].path, target_of(cfg, part, staged[k]));
            if k < init.len() {
                assert(init[k] == staged[k]);
                assert(before.contains(t));
                let j = before.index_of(t);
                assert(after[j] == t);
            } else {
                let j = more.index_of(t);
                assert(after[before.len() + j] == t);
            }
        }
    }
}

/// One of the staged files goes to `to`.
pub open spec fn is_destination(
    cfg: config::ConfigView,
    part: Seq<char>,
    staged: Seq<StagedView>,
    to: Seq<char>,
) -> bool {
    exists|k: int|
        0 <= k < staged.len() && destinations_of(cfg, part, #[trigger] staged[k]).contains(to)
}

/// Whatever is put somewhere is put where one of the files goes.
proof fn lemma_items_written(
    cfg: config::ConfigView,
    part: Seq<char>,
    staged: Seq<StagedView>,
    footprints: bool,
)
    ensures
        forall|i: int|
            0 <= i < items_tasks(cfg, part, staged, footprints).len() ==> match written_by(
                #[trigger] items_tasks(cfg, part, staged, footprints)[i],
            ) {
                Some(to) => is_destination(cfg, part, staged, to),
                None => true,
            },
    decreases staged.len(),
{
    if staged.len() > 0 {
        let init = staged.drop_last();
        let before = items_tasks(cfg, part, init, footprints);
        let after = items_tasks(cfg, part, staged, footprints);
        let more = item_tasks(cfg, part, staged.last());
        lemma_items_written(cfg, part, init, footprints);
        lemma_item_tasks(cfg, part, staged.last());
        assert forall|i: int| 0 <= i < after.len() implies match written_by(#[trigger] after[i]) {
            Some(to) => is_destination(cfg, part, staged, to),
            None => true,
        } by {
            if let Some(to) = written_by(after[i]) {
                if i < before.len() {
                    assert(after[i] == before[i]);
                    let k = choose|k: int|
                        0 <= k < init.len() && destinations_of(
                            cfg,
                            part,
                            #[trigger] init[k],
                        ).contains(to);
                    assert(staged[k] == init[k]);
                } else {
                    assert(after[i] == more[i - before.len()]);
                    assert(destinations_of(cfg, part, staged[staged.len() - 1]).contains(to));
                }
            }
        }
    }
}

pub(crate) proof fn lemma_items_tasks(
    cfg: config::ConfigView,
    part: Seq<char>,
    staged: Seq<StagedView>,
    footprints: bool,
)
    ensures
        forall|k: int|
            0 <= k < staged.len() && ((#[trigger] staged[k]).kind == Kind::Footprint)
                == footprints ==> items_tasks(cfg, part, staged, footprints).contains(
                moves(staged[k].path, target_of(cfg, part, staged[k])),
            ),
        forall|i: int|
            0 <= i < items_tasks(cfg, part, staged, footprints).len() ==> match written_by(
                #[trigger] items_tasks(cfg, part, staged, footprints)[i],
            ) {
                Some(to) => is_destination(cfg, part, staged, to),
                None => true,
            },
{
    lemma_items_moved(cfg, part, staged, footprints);
    lemma_items_written(cfg, part, staged, footprints);
}

/// Every staged file is moved to its own place in the library.
pub proof fn lemma_everything_placed(cfg: config::ConfigView, p: PendingView, k: int)
    requires
        0 <= k < p.staged.len(),
    ensures
        agenda_of(cfg, p).contains(
            moves(p.staged[k].path, target_of(cfg, p.part, p.staged[k])),
        ),
{
    let item = p.staged[k];
    let t = moves(item.path, target_of(cfg, p.part, item));
    let a = opening_tasks(cfg);
    let b = items_tasks(cfg, p.part, p.staged, false);
    let c = items_tasks(cfg, p.part, p.staged, true);
    lemma_items_tasks(cfg, p.part, p.staged, false);
    lemma_items_tasks(cfg, p.part, p.staged, true);
    let all = agenda_of(cfg, p);
    if item.kind == Kind::Footprint {
        let j = c.index_of(t);
        assert(c.contains(t));
        assert(all[a.len() + b.len() + j] == t);
    } else {
        let j = b.index_of(t);
        assert(b.contains(t));
        assert(all[a.len() + j] == t);
    }
}

/// With the library contained, no staged file is put outside the root.
pub proof fn lemma_nothing_outside(
    cfg: config::ConfigView,
    part: Seq<char>,
    staged: Seq<StagedView>,
    footprints: bool,
)
    requires
        forall|k: int| 0 <= k < staged.len() ==> is_placeable(part, #[trigger] staged[k]),
        forall|f: config::Field| #[trigger]
            config::inside().contains(f) ==> !config::is_stray(cfg, f),
    ensures
        forall|i: int|
            0 <= i < items_tasks(cfg, part, staged, footprints).len() ==> match written_by(
                #[trigger] items_tasks(cfg, part, staged, footprints)[i],
            ) {
                Some(to) => paths::within(to, cfg.library_root),
                None => true,
            },
{
    let list = items_tasks(cfg, part, staged, footprints);
    lemma_items_tasks(cfg, part, staged, footprints);
    assert forall|i: int| 0 <= i < list.len() implies match written_by(#[trigger] list[i]) {
        Some(to) => paths::within(to, cfg.library_root),
        None => true,
    } by {
        if let Some(to) = written_by(list[i]) {
            let k = choose|k: int|
                0 <= k < staged.len() && destinations_of(
                    cfg,
                    part,
                    #[trigger] staged[k],
                ).contains(to);
            lemma_destinations_inside(cfg, part, staged[k]);
            let all = destinations_of(cfg, part, staged[k]);
            let j = all.index_of(to);
            assert(all[j] == to);
        }
    }
}

/// A merge never loses the import: whatever fails in it, the import goes on.
pub proof fn lemma_merge_is_harmless(
    cfg: config::ConfigView,
    lib: Seq<char>,
    source: Seq<char>,
    existing: Option<Seq<char>>,
    st: InstallView,
    e: Seq<char>,
)
    ensures
        forall|i: int|
            0 <= i < merge_start(cfg, source).len() ==> (#[trigger] merge_start(
                cfg,
                source,
            )[i]).blame == BlameView::Merge,
        forall|i: int|
            0 <= i < merge_rest(cfg, lib, source, existing).len() ==> (#[trigger] merge_rest(
                cfg,
                lib,
                source,
                existing,
            )[i]).blame == BlameView::Merge,
        st.agenda.len() > 0 && st.agenda[0].blame == BlameView::Merge ==> answered(
            st,
            ReplyView::Failed(e),
        ) is Ok,
{
}

} // verus!
