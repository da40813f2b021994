//! What is actually sitting in the library folders, as opposed to what
//! `library.json` says was imported.
//!
//! Pointing the application at a library someone else built — or one from
//! before this tool existed — should show that library, not an empty screen. The
//! files on disk are the truth; the manifest only adds provenance to the parts
//! it knows about.

use vstd::prelude::*;
use vstd::string::*;

use crate::config;
use crate::config::Config;
use crate::importer::Kind;
use crate::manifest;
use crate::manifest::{rel, Part};
use crate::order;
use crate::paths;
use crate::paths::{extension_of_name, join_path, stem_of_name};
use crate::symlib;
use crate::text;
use crate::text::{has_prefix, pieces, same, slice, to_chars, to_lowercase, trimmed_start};

verus! {

/// The `source` recorded for a part that was found rather than imported.
pub const FOUND: &'static str = "found on disk";

/// Whether this part was discovered on disk rather than imported.
pub fn is_found(part: &Part) -> (r: bool)
    ensures
        r == (part@.source == FOUND@),
{
    same(part.source.as_str(), FOUND)
}

/// One entry of a directory listing.
pub struct Listed {
    pub name: String,
    pub is_file: bool,
    /// When the file last changed; empty when that is not known.
    pub modified: String,
    /// What a symbol file holds; empty when it could not be read.
    pub text: String,
}

/// A directory inside the footprint folder, with what it lists.
pub struct Folder {
    pub name: String,
    pub files: Vec<Listed>,
}

#[verifier::ext_equal]
pub struct ListedView {
    pub name: Seq<char>,
    pub is_file: bool,
    pub modified: Seq<char>,
    pub text: Seq<char>,
}

#[verifier::ext_equal]
pub struct FolderView {
    pub name: Seq<char>,
    pub files: Seq<ListedView>,
}

impl View for Listed {
    type V = ListedView;

    open spec fn view(&self) -> ListedView {
        ListedView {
            name: self.name@,
            is_file: self.is_file,
            modified: self.modified@,
            text: self.text@,
        }
    }
}

pub open spec fn listed_views(list: Seq<Listed>) -> Seq<ListedView> {
    list.map_values(|f: Listed| f@)
}

impl View for Folder {
    type V = FolderView;

    open spec fn view(&self) -> FolderView {
        FolderView { name: self.name@, files: listed_views(self.files@) }
    }
}

pub open spec fn folder_views(list: Seq<Folder>) -> Seq<FolderView> {
    list.map_values(|f: Folder| f@)
}

impl Clone for Listed {
    fn clone(&self) -> (r: Listed)
        ensures
            r@ == self@,
    {
        Listed {
            name: self.name.clone(),
            is_file: self.is_file,
            modified: self.modified.clone(),
            text: self.text.clone(),
        }
    }
}

// ---------------------------------------------------------------- listings

/// The file extensions, in lower case, that hold one kind of library file.
pub open spec fn extension_fits(kind: Kind, extension: Seq<char>) -> bool {
    match kind {
        Kind::Symbol => extension == "kicad_sym"@,
        Kind::Footprint => extension == "kicad_mod"@,
        Kind::Model => extension == "stp"@ || extension == "step"@ || extension == "wrl"@,
    }
}

/// A file of the wanted kind.
///
/// Matching on extension is what keeps the `.bak` copies this tool writes from
/// being mistaken for parts of their own.
pub open spec fn is_wanted(kind: Kind, f: ListedView) -> bool {
    f.is_file && match paths::name_extension(f.name) {
        Some(e) => extension_fits(kind, text::lower(e)),
        None => false,
    }
}

pub open spec fn wanted_of(list: Seq<ListedView>, kind: Kind) -> Seq<ListedView>
    decreases list.len(),
{
    if list.len() == 0 {
        Seq::empty()
    } else if is_wanted(kind, list.last()) {
        wanted_of(list.drop_last(), kind).push(list.last())
    } else {
        wanted_of(list.drop_last(), kind)
    }
}

pub open spec fn listed_names(list: Seq<ListedView>) -> Seq<Seq<char>> {
    list.map_values(|f: ListedView| f.name)
}

/// The files of one kind in a directory, by name.
pub open spec fn files_of(list: Seq<ListedView>, kind: Kind) -> Seq<ListedView> {
    order::arranged(wanted_of(list, kind), listed_names(wanted_of(list, kind)))
}

pub open spec fn folder_names(list: Seq<FolderView>) -> Seq<Seq<char>> {
    list.map_values(|f: FolderView| f.name)
}

/// The directories, by name.
pub open spec fn folders_of(list: Seq<FolderView>) -> Seq<FolderView> {
    order::arranged(list, folder_names(list))
}

// ---------------------------------------------------- declared footprints

pub open spec fn strip_cr(line: Seq<char>) -> Seq<char> {
    if line.len() > 0 && line.last() == '\r' {
        line.drop_last()
    } else {
        line
    }
}

/// The lines of a text, without their endings.
pub open spec fn lines_of(s: Seq<char>) -> Seq<Seq<char>> {
    let all = text::split(s, '\n');
    let ended = all.drop_last().map_values(|l: Seq<char>| strip_cr(l));
    if all.last().len() == 0 {
        ended
    } else {
        ended.push(all.last())
    }
}

/// The footprint a line asks for: the value of its `Footprint` property, with
/// KiCad's `library:` prefix stripped.
pub open spec fn declared_in(line: Seq<char>) -> Option<Seq<char>> {
    let start = text::trim_start(line);
    let key = "(property \"Footprint\""@;
    let parts = text::split(start.skip(key.len() as int), '"');
    if text::starts_with(start, key) && parts.len() > 1 && parts[1].len() > 0 {
        Some(text::split(parts[1], ':').last())
    } else {
        None
    }
}

pub open spec fn declared_by(lines: Seq<Seq<char>>) -> Seq<Seq<char>>
    decreases lines.len(),
{
    if lines.len() == 0 {
        Seq::empty()
    } else {
        match declared_in(lines.last()) {
            Some(f) => declared_by(lines.drop_last()).push(f),
            None => declared_by(lines.drop_last()),
        }
    }
}

/// The footprints a symbol file asks for.
pub open spec fn declared(s: Seq<char>) -> Seq<Seq<char>> {
    declared_by(lines_of(s))
}

// ------------------------------------------------------------------ scanning

/// A part known only by its name.
pub open spec fn found_part(name: Seq<char>) -> manifest::PartView {
    manifest::PartView { name, source: FOUND@, ..manifest::empty_part() }
}

/// Where the part called `name` stands among the first `n`.
pub open spec fn place_upto(parts: Seq<manifest::PartView>, name: Seq<char>, n: int) -> Option<int>
    decreases n,
{
    if n <= 0 {
        None
    } else {
        match place_upto(parts, name, n - 1) {
            Some(i) => Some(i),
            None => if parts[n - 1].name == name {
                Some(n - 1)
            } else {
                None
            },
        }
    }
}

pub open spec fn place_of(parts: Seq<manifest::PartView>, name: Seq<char>) -> Option<int> {
    place_upto(parts, name, parts.len() as int)
}

/// `parts` with an entry called `name`.
pub open spec fn with_entry(parts: Seq<manifest::PartView>, name: Seq<char>) -> Seq<
    manifest::PartView,
> {
    match place_of(parts, name) {
        Some(_) => parts,
        None => parts.push(found_part(name)),
    }
}

pub open spec fn entry_at(parts: Seq<manifest::PartView>, name: Seq<char>) -> int {
    match place_of(parts, name) {
        Some(i) => i,
        None => parts.len() as int,
    }
}

pub open spec fn or_else(a: Seq<char>, b: Seq<char>) -> Seq<char> {
    if a.len() == 0 {
        b
    } else {
        a
    }
}

/// A symbol file names its part, gives its symbols, and dates it.
pub open spec fn add_symbol(
    parts: Seq<manifest::PartView>,
    root: Seq<char>,
    dir: Seq<char>,
    f: ListedView,
) -> Seq<manifest::PartView> {
    let name = paths::name_stem(f.name);
    let all = with_entry(parts, name);
    let i = entry_at(parts, name);
    all.update(
        i,
        manifest::PartView {
            symbol_file: Some(manifest::relative(root, paths::below(dir, f.name))),
            symbol_names: symlib::symbol_names_in(f.text),
            imported_at: f.modified,
            ..all[i]
        },
    )
}

/// A 3D model names its part, and dates it when nothing else has.
pub open spec fn add_model(
    parts: Seq<manifest::PartView>,
    root: Seq<char>,
    dir: Seq<char>,
    f: ListedView,
) -> Seq<manifest::PartView> {
    let name = paths::name_stem(f.name);
    let all = with_entry(parts, name);
    let i = entry_at(parts, name);
    all.update(
        i,
        manifest::PartView {
            models: all[i].models.push(manifest::relative(root, paths::below(dir, f.name))),
            imported_at: or_else(all[i].imported_at, f.modified),
            ..all[i]
        },
    )
}

/// A footprint in a per-part folder belongs to that part.
pub open spec fn fill_folder(
    part: manifest::PartView,
    root: Seq<char>,
    dir: Seq<char>,
    files: Seq<ListedView>,
) -> manifest::PartView
    decreases files.len(),
{
    if files.len() == 0 {
        part
    } else {
        let before = fill_folder(part, root, dir, files.drop_last());
        let f = files.last();
        manifest::PartView {
            footprints: before.footprints.push(
                manifest::relative(root, paths::below(dir, f.name)),
            ),
            imported_at: or_else(before.imported_at, f.modified),
            ..before
        }
    }
}

/// The folder of one part's footprints, by its name.
pub open spec fn is_pretty(name: Seq<char>) -> bool {
    match paths::name_extension(name) {
        Some(e) => text::lower(e) == "pretty"@,
        None => false,
    }
}

/// A per-part `.pretty` folder names the part directly. An empty one, and any
/// other folder, says nothing.
pub open spec fn add_folder(
    parts: Seq<manifest::PartView>,
    root: Seq<char>,
    dir: Seq<char>,
    folder: FolderView,
) -> Seq<manifest::PartView> {
    let files = files_of(folder.files, Kind::Footprint);
    if !has_footprint(folder) {
        parts
    } else {
        let name = paths::name_stem(folder.name);
        let all = with_entry(parts, name);
        let i = entry_at(parts, name);
        all.update(i, fill_folder(all[i], root, paths::below(dir, folder.name), files))
    }
}

/// The folder is one part's and holds a footprint, so it names that part.
pub open spec fn has_footprint(folder: FolderView) -> bool {
    is_pretty(folder.name) && files_of(folder.files, Kind::Footprint).len() > 0
}

/// The stem once for every time the list holds `footprint`.
pub open spec fn repeats(list: Seq<Seq<char>>, footprint: Seq<char>, stem: Seq<char>) -> Seq<
    Seq<char>,
>
    decreases list.len(),
{
    if list.len() == 0 {
        Seq::empty()
    } else if list.last() == footprint {
        repeats(list.drop_last(), footprint, stem).push(stem)
    } else {
        repeats(list.drop_last(), footprint, stem)
    }
}

/// Every part whose symbol asks for `footprint`. One footprint serving a dozen
/// parts is the normal case in a real library.
pub open spec fn askers(symbols: Seq<ListedView>, footprint: Seq<char>) -> Seq<Seq<char>>
    decreases symbols.len(),
{
    if symbols.len() == 0 {
        Seq::empty()
    } else {
        let f = symbols.last();
        askers(symbols.drop_last(), footprint) + repeats(
            declared(f.text),
            footprint,
            paths::name_stem(f.name),
        )
    }
}

/// The parts a flat footprint belongs to: those whose symbols ask for it, or,
/// failing that, the part of the same name.
pub open spec fn owners(symbols: Seq<ListedView>, footprint: Seq<char>) -> Seq<Seq<char>> {
    if askers(symbols, footprint).len() == 0 {
        seq![footprint]
    } else {
        askers(symbols, footprint)
    }
}

/// A footprint attached to each of its owners that is a part.
pub open spec fn attach(
    parts: Seq<manifest::PartView>,
    owners: Seq<Seq<char>>,
    path: Seq<char>,
) -> Seq<manifest::PartView>
    decreases owners.len(),
{
    if owners.len() == 0 {
        parts
    } else {
        let before = attach(parts, owners.drop_last(), path);
        match place_of(before, owners.last()) {
            Some(i) => before.update(
                i,
                manifest::PartView { footprints: before[i].footprints.push(path), ..before[i] },
            ),
            None => before,
        }
    }
}

pub open spec fn symbols_added(root: Seq<char>, dir: Seq<char>, files: Seq<ListedView>) -> Seq<
    manifest::PartView,
>
    decreases files.len(),
{
    if files.len() == 0 {
        Seq::empty()
    } else {
        add_symbol(symbols_added(root, dir, files.drop_last()), root, dir, files.last())
    }
}

pub open spec fn models_added(
    parts: Seq<manifest::PartView>,
    root: Seq<char>,
    dir: Seq<char>,
    files: Seq<ListedView>,
) -> Seq<manifest::PartView>
    decreases files.len(),
{
    if files.len() == 0 {
        parts
    } else {
        add_model(models_added(parts, root, dir, files.drop_last()), root, dir, files.last())
    }
}

pub open spec fn folders_added(
    parts: Seq<manifest::PartView>,
    root: Seq<char>,
    dir: Seq<char>,
    folders: Seq<FolderView>,
) -> Seq<manifest::PartView>
    decreases folders.len(),
{
    if folders.len() == 0 {
        parts
    } else {
        add_folder(
            folders_added(parts, root, dir, folders.drop_last()),
            root,
            dir,
            folders.last(),
        )
    }
}

pub open spec fn flats_added(
    parts: Seq<manifest::PartView>,
    root: Seq<char>,
    dir: Seq<char>,
    symbols: Seq<ListedView>,
    files: Seq<ListedView>,
) -> Seq<manifest::PartView>
    decreases files.len(),
{
    if files.len() == 0 {
        parts
    } else {
        let f = files.last();
        attach(
            flats_added(parts, root, dir, symbols, files.drop_last()),
            owners(symbols, paths::name_stem(f.name)),
            manifest::relative(root, paths::below(dir, f.name)),
        )
    }
}

/// The parts in the order they turn up.
pub open spec fn gathered(
    cfg: config::ConfigView,
    symbols: Seq<ListedView>,
    models: Seq<ListedView>,
    folders: Seq<FolderView>,
    footprints: Seq<ListedView>,
) -> Seq<manifest::PartView> {
    let root = cfg.library_root;
    let symbol_files = files_of(symbols, Kind::Symbol);
    let a = symbols_added(root, cfg.symbol_dir, symbol_files);
    let b = models_added(a, root, cfg.model_dir, files_of(models, Kind::Model));
    let c = folders_added(b, root, cfg.footprint_dir, folders_of(folders));
    flats_added(c, root, cfg.footprint_dir, symbol_files, files_of(footprints, Kind::Footprint))
}

pub open spec fn part_names(parts: Seq<manifest::PartView>) -> Seq<Seq<char>> {
    parts.map_values(|p: manifest::PartView| p.name)
}

/// Every part the library folders contain, by name.
pub open spec fn scanned(
    cfg: config::ConfigView,
    symbols: Seq<ListedView>,
    models: Seq<ListedView>,
    folders: Seq<FolderView>,
    footprints: Seq<ListedView>,
) -> Seq<manifest::PartView> {
    let all = gathered(cfg, symbols, models, folders, footprints);
    order::arranged(all, part_names(all))
}

// ------------------------------------------------------------ executable

fn fits(kind: Kind, extension: &str) -> (r: bool)
    ensures
        r == extension_fits(kind, extension@),
{
    match kind {
        Kind::Symbol => same(extension, "kicad_sym"),
        Kind::Footprint => same(extension, "kicad_mod"),
        Kind::Model => same(extension, "stp") || same(extension, "step") || same(extension, "wrl"),
    }
}

/// Whether a listing entry is a file of the wanted kind.
pub fn wanted(kind: Kind, f: &Listed) -> (r: bool)
    ensures
        r == is_wanted(kind, f@),
{
    if !f.is_file {
        return false;
    }
    match extension_of_name(f.name.as_str()) {
        Some(e) => {
            let low = to_lowercase(e.as_str());
            fits(kind, low.as_str())
        },
        None => false,
    }
}

/// The files of one kind in a directory, by name.
pub fn files_in(list: &Vec<Listed>, kind: Kind) -> (r: Vec<Listed>)
    ensures
        listed_views(r@) == files_of(listed_views(list@), kind),
{
    let ghost all = listed_views(list@);
    let mut found: Vec<Listed> = Vec::new();
    let mut keys: Vec<String> = Vec::new();
    let mut i: usize = 0;
    assert(all.take(0) =~= Seq::<ListedView>::empty());
    assert(listed_views(found@) =~= Seq::<ListedView>::empty());
    while i < list.len()
        invariant
            i <= list@.len(),
            all == listed_views(list@),
            listed_views(found@) == wanted_of(all.take(i as int), kind),
            keys@.len() == found@.len(),
            forall|j: int| 0 <= j < keys@.len() ==> (#[trigger] keys@[j])@ == found@[j].name@,
        decreases list.len() - i,
    {
        let ghost was = listed_views(found@);
        assert(all.take(i + 1).drop_last() =~= all.take(i as int));
        assert(all.take(i + 1).last() == list@[i as int]@);
        if wanted(kind, &list[i]) {
            found.push(list[i].clone());
            keys.push(list[i].name.clone());
            assert(listed_views(found@) =~= was.push(list@[i as int]@));
        }
        i += 1;
    }
    assert(all.take(i as int) =~= all);
    let ghost picked = listed_views(found@);
    assert(text::views(keys@) =~= listed_names(picked));
    let ranks = order::rank(&keys);
    let mut out: Vec<Listed> = Vec::new();
    let mut n: usize = 0;
    while n < ranks.len()
        invariant
            n <= ranks@.len() == found@.len(),
            picked == listed_views(found@),
            out@.len() == n,
            forall|m: int| 0 <= m < ranks@.len() ==> (#[trigger] ranks@[m]) < found@.len(),
            forall|m: int| 0 <= m < n ==> (#[trigger] out@[m])@ == picked[ranks@[m] as int],
        decreases ranks.len() - n,
    {
        out.push(found[ranks[n]].clone());
        n += 1;
    }
    assert(listed_views(out@) =~= order::arranged(picked, listed_names(picked)));
    out
}

fn text_lines(s: &str) -> (r: Vec<String>)
    ensures
        text::views(r@) == lines_of(s@),
{
    let list = pieces(s, '\n');
    let ghost all = text::views(list@);
    proof {
        text::lemma_split_len(s@, '\n');
        assert(all.len() == list@.len());
    }
    let last: usize = list.len() - 1;
    let mut out: Vec<String> = Vec::new();
    let mut i: usize = 0;
    let ghost ended = all.drop_last().map_values(|l: Seq<char>| strip_cr(l));
    assert(ended.take(0) =~= Seq::<Seq<char>>::empty());
    assert(text::views(out@) =~= ended.take(0));
    while i < last
        invariant
            i <= last < list@.len(),
            last == list@.len() - 1,
            all == text::views(list@),
            ended == all.drop_last().map_values(|l: Seq<char>| strip_cr(l)),
            text::views(out@) == ended.take(i as int),
        decreases last - i,
    {
        let chars = to_chars(list[i].as_str());
        let n: usize = chars.len();
        let ghost was = text::views(out@);
        let line = if n > 0 && chars[n - 1] == '\r' {
            assert(chars@.subrange(0, n - 1) =~= chars@.drop_last());
            slice(&chars, 0, n - 1)
        } else {
            list[i].clone()
        };
        assert(line@ == ended[i as int]);
        out.push(line);
        assert(text::views(out@) =~= was.push(line@));
        assert(ended.take(i + 1) =~= was.push(line@));
        i += 1;
    }
    assert(ended.take(i as int) =~= ended);
    assert(all.last() == list@[last as int]@);
    if !list[last].as_str().is_empty() {
        let ghost was = text::views(out@);
        out.push(list[last].clone());
        assert(text::views(out@) =~= was.push(all.last()));
    }
    out
}

fn declared_on(line: &str) -> (r: Option<String>)
    ensures
        text::opt_view(r) == declared_in(line@),
{
    let start = trimmed_start(line);
    let key = "(property \"Footprint\"";
    if !has_prefix(start.as_str(), key) {
        return None;
    }
    let chars = to_chars(start.as_str());
    let skip: usize = to_chars(key).len();
    let rest = slice(&chars, skip, chars.len());
    assert(rest@ =~= start@.skip(key@.len() as int));
    let quoted = pieces(rest.as_str(), '"');
    assert(text::views(quoted@).len() == quoted@.len());
    if quoted.len() < 2 || quoted[1].as_str().is_empty() {
        return None;
    }
    assert(text::views(quoted@)[1] == quoted@[1]@);
    let value = pieces(quoted[1].as_str(), ':');
    proof {
        text::lemma_split_len(quoted@[1]@, ':');
        assert(text::views(value@).len() == value@.len());
        assert(text::views(value@).last() == value@.last()@);
    }
    Some(value[value.len() - 1].clone())
}

/// The footprints a symbol file asks for: the value of each `Footprint`
/// property, with KiCad's `library:` prefix stripped.
pub fn declared_footprints(text: &str) -> (r: Vec<String>)
    ensures
        text::views(r@) == declared(text@),
{
    let lines = text_lines(text);
    let ghost all = text::views(lines@);
    let mut found: Vec<String> = Vec::new();
    let mut i: usize = 0;
    assert(all.take(0) =~= Seq::<Seq<char>>::empty());
    assert(text::views(found@) =~= Seq::<Seq<char>>::empty());
    while i < lines.len()
        invariant
            i <= lines@.len(),
            all == text::views(lines@),
            text::views(found@) == declared_by(all.take(i as int)),
        decreases lines.len() - i,
    {
        let ghost was = text::views(found@);
        assert(all.take(i + 1).drop_last() =~= all.take(i as int));
        assert(all.take(i + 1).last() == lines@[i as int]@);
        if let Some(f) = declared_on(lines[i].as_str()) {
            found.push(f);
            assert(text::views(found@) =~= was.push(f@));
        }
        i += 1;
    }
    assert(all.take(i as int) =~= all);
    found
}

/// A part known only by its name.
fn blank(name: &str) -> (r: Part)
    ensures
        r@ == found_part(name@),
{
    let mut part = Part::default();
    part.name = name.to_string();
    part.source = FOUND.to_string();
    part
}

pub(crate) proof fn lemma_place(parts: Seq<manifest::PartView>, name: Seq<char>, n: int)
    requires
        0 <= n <= parts.len(),
    ensures
        match place_upto(parts, name, n) {
            Some(i) => 0 <= i < n && parts[i].name == name && forall|j: int|
                0 <= j < i ==> (#[trigger] parts[j]).name != name,
            None => forall|j: int| 0 <= j < n ==> (#[trigger] parts[j]).name != name,
        },
    decreases n,
{
    if n > 0 {
        lemma_place(parts, name, n - 1);
    }
}

proof fn lemma_place_at(parts: Seq<manifest::PartView>, name: Seq<char>, i: int, n: int)
    requires
        0 <= i < n <= parts.len(),
        parts[i].name == name,
        forall|j: int| 0 <= j < i ==> (#[trigger] parts[j]).name != name,
    ensures
        place_upto(parts, name, n) == Some(i),
    decreases n,
{
    lemma_place(parts, name, i);
    if n > i + 1 {
        lemma_place_at(parts, name, i, n - 1);
    }
}

pub(crate) fn find(parts: &Vec<Part>, name: &str) -> (r: Option<usize>)
    ensures
        match r {
            Some(i) => i < parts@.len() && place_of(manifest::part_views(parts@), name@) == Some(
                i as int,
            ),
            None => place_of(manifest::part_views(parts@), name@) is None,
        },
{
    let ghost all = manifest::part_views(parts@);
    let mut i: usize = 0;
    while i < parts.len()
        invariant
            i <= parts@.len(),
            all == manifest::part_views(parts@),
            forall|j: int| 0 <= j < i ==> (#[trigger] all[j]).name != name@,
        decreases parts.len() - i,
    {
        if same(parts[i].name.as_str(), name) {
            proof {
                lemma_place_at(all, name@, i as int, all.len() as int);
            }
            return Some(i);
        }
        i += 1;
    }
    proof {
        lemma_place(all, name@, all.len() as int);
    }
    None
}

/// Where the part called `name` stands, once there is one.
fn entry(parts: &mut Vec<Part>, name: &str) -> (r: usize)
    ensures
        manifest::part_views(final(parts)@) == with_entry(
            manifest::part_views(old(parts)@),
            name@,
        ),
        r == entry_at(manifest::part_views(old(parts)@), name@),
        r < final(parts)@.len(),
{
    match find(parts, name) {
        Some(i) => i,
        None => {
            let n: usize = parts.len();
            let ghost was = manifest::part_views(parts@);
            let part = blank(name);
            parts.push(part);
            assert(manifest::part_views(parts@) =~= was.push(part@));
            n
        },
    }
}

fn take_symbol(parts: &mut Vec<Part>, root: &str, dir: &str, f: &Listed)
    ensures
        manifest::part_views(final(parts)@) == add_symbol(
            manifest::part_views(old(parts)@),
            root@,
            dir@,
            f@,
        ),
{
    let stem = stem_of_name(f.name.as_str());
    let i = entry(parts, stem.as_str());
    let path = join_path(dir, f.name.as_str());
    let ghost was = manifest::part_views(parts@);
    let mut part = parts[i].clone();
    part.symbol_file = Some(rel(root, path.as_str()));
    part.symbol_names = symlib::symbol_names(f.text.as_str());
    part.imported_at = f.modified.clone();
    let ghost now = part@;
    parts.set(i, part);
    assert(manifest::part_views(parts@) =~= was.update(i as int, now));
}

fn take_model(parts: &mut Vec<Part>, root: &str, dir: &str, f: &Listed)
    ensures
        manifest::part_views(final(parts)@) == add_model(
            manifest::part_views(old(parts)@),
            root@,
            dir@,
            f@,
        ),
{
    let stem = stem_of_name(f.name.as_str());
    let i = entry(parts, stem.as_str());
    let path = join_path(dir, f.name.as_str());
    let ghost was = manifest::part_views(parts@);
    let mut part = parts[i].clone();
    let ghost models = text::views(part.models@);
    let written = rel(root, path.as_str());
    part.models.push(written);
    assert(text::views(part.models@) =~= models.push(written@));
    if part.imported_at.as_str().is_empty() {
        part.imported_at = f.modified.clone();
    }
    let ghost now = part@;
    parts.set(i, part);
    assert(manifest::part_views(parts@) =~= was.update(i as int, now));
}

fn names_pretty(name: &str) -> (r: bool)
    ensures
        r == is_pretty(name@),
{
    match extension_of_name(name) {
        Some(e) => same(to_lowercase(e.as_str()).as_str(), "pretty"),
        None => false,
    }
}

fn take_folder(parts: &mut Vec<Part>, root: &str, dir: &str, folder: &Folder)
    ensures
        manifest::part_views(final(parts)@) == add_folder(
            manifest::part_views(old(parts)@),
            root@,
            dir@,
            folder@,
        ),
{
    let files = files_in(&folder.files, Kind::Footprint);
    let ghost all = listed_views(files@);
    assert(all.len() == files@.len());
    if !names_pretty(folder.name.as_str()) || files.len() == 0 {
        return;
    }
    let stem = stem_of_name(folder.name.as_str());
    let i = entry(parts, stem.as_str());
    let inner = join_path(dir, folder.name.as_str());
    let ghost was = manifest::part_views(parts@);
    let mut part = parts[i].clone();
    let ghost start = part@;
    let mut k: usize = 0;
    assert(all.take(0) =~= Seq::<ListedView>::empty());
    while k < files.len()
        invariant
            k <= files@.len(),
            all == listed_views(files@),
            part@ == fill_folder(start, root@, inner@, all.take(k as int)),
        decreases files.len() - k,
    {
        assert(all.take(k + 1).drop_last() =~= all.take(k as int));
        assert(all.take(k + 1).last() == files@[k as int]@);
        let path = join_path(inner.as_str(), files[k].name.as_str());
        let written = rel(root, path.as_str());
        let ghost footprints = text::views(part.footprints@);
        part.footprints.push(written);
        assert(text::views(part.footprints@) =~= footprints.push(written@));
        if part.imported_at.as_str().is_empty() {
            part.imported_at = files[k].modified.clone();
        }
        k += 1;
    }
    assert(all.take(k as int) =~= all);
    let ghost now = part@;
    parts.set(i, part);
    assert(manifest::part_views(parts@) =~= was.update(i as int, now));
}

/// The parts a flat footprint belongs to.
fn owners_of(symbols: &Vec<Listed>, footprint: &str) -> (r: Vec<String>)
    ensures
        text::views(r@) == owners(listed_views(symbols@), footprint@),
{
    let ghost all = listed_views(symbols@);
    let mut out: Vec<String> = Vec::new();
    let mut i: usize = 0;
    assert(all.take(0) =~= Seq::<ListedView>::empty());
    assert(text::views(out@) =~= Seq::<Seq<char>>::empty());
    while i < symbols.len()
        invariant
            i <= symbols@.len(),
            all == listed_views(symbols@),
            text::views(out@) == askers(all.take(i as int), footprint@),
        decreases symbols.len() - i,
    {
        assert(all.take(i + 1).drop_last() =~= all.take(i as int));
        assert(all.take(i + 1).last() == symbols@[i as int]@);
        let stem = stem_of_name(symbols[i].name.as_str());
        let wants = declared_footprints(symbols[i].text.as_str());
        let ghost list = text::views(wants@);
        let ghost before = text::views(out@);
        let mut k: usize = 0;
        assert(list.take(0) =~= Seq::<Seq<char>>::empty());
        assert(before + repeats(list.take(0), footprint@, stem@) =~= before);
        while k < wants.len()
            invariant
                k <= wants@.len(),
                list == text::views(wants@),
                text::views(out@) == before + repeats(list.take(k as int), footprint@, stem@),
            decreases wants.len() - k,
        {
            assert(list.take(k + 1).drop_last() =~= list.take(k as int));
            assert(list.take(k + 1).last() == wants@[k as int]@);
            if same(wants[k].as_str(), footprint) {
                let ghost was = text::views(out@);
                out.push(stem.clone());
                assert(text::views(out@) =~= was.push(stem@));
                assert(text::views(out@) =~= before + repeats(
                    list.take(k + 1),
                    footprint@,
                    stem@,
                ));
            }
            k += 1;
        }
        assert(list.take(k as int) =~= list);
        i += 1;
    }
    assert(all.take(i as int) =~= all);
    assert(text::views(out@).len() == out@.len());
    if out.len() == 0 {
        out.push(footprint.to_string());
        assert(text::views(out@) =~= seq![footprint@]);
    }
    out
}

fn give(parts: &mut Vec<Part>, owners: &Vec<String>, path: &str)
    ensures
        manifest::part_views(final(parts)@) == attach(
            manifest::part_views(old(parts)@),
            text::views(owners@),
            path@,
        ),
{
    let ghost start = manifest::part_views(parts@);
    let ghost all = text::views(owners@);
    let mut k: usize = 0;
    assert(all.take(0) =~= Seq::<Seq<char>>::empty());
    while k < owners.len()
        invariant
            k <= owners@.len(),
            all == text::views(owners@),
            manifest::part_views(parts@) == attach(start, all.take(k as int), path@),
        decreases owners.len() - k,
    {
        assert(all.take(k + 1).drop_last() =~= all.take(k as int));
        assert(all.take(k + 1).last() == owners@[k as int]@);
        if let Some(i) = find(parts, owners[k].as_str()) {
            let ghost was = manifest::part_views(parts@);
            let mut part = parts[i].clone();
            let ghost footprints = text::views(part.footprints@);
            part.footprints.push(path.to_string());
            assert(text::views(part.footprints@) =~= footprints.push(path@));
            let ghost now = part@;
            parts.set(i, part);
            assert(manifest::part_views(parts@) =~= was.update(i as int, now));
        }
        k += 1;
    }
    assert(all.take(k as int) =~= all);
}

/// The directories inside the footprint folder, by name, as positions in the
/// listing.
fn subdirs(folders: &Vec<Folder>) -> (r: Vec<usize>)
    ensures
        r@.len() == folders@.len(),
        forall|i: int| 0 <= i < r@.len() ==> (#[trigger] r@[i]) < folders@.len(),
        forall|i: int|
            0 <= i < r@.len() ==> folders@[(#[trigger] r@[i]) as int]@ == folders_of(
                folder_views(folders@),
            )[i],
{
    let mut keys: Vec<String> = Vec::new();
    let mut j: usize = 0;
    while j < folders.len()
        invariant
            j <= folders@.len(),
            keys@.len() == j,
            forall|m: int| 0 <= m < j ==> (#[trigger] keys@[m])@ == folders@[m].name@,
        decreases folders.len() - j,
    {
        keys.push(folders[j].name.clone());
        j += 1;
    }
    assert(text::views(keys@) =~= folder_names(folder_views(folders@)));
    order::rank(&keys)
}

/// Every part the library folders contain, keyed by part name, given what the
/// symbol, 3D model and footprint folders list.
///
/// A part is named by its symbol file, its 3D model or its per-part `.pretty`
/// folder — all three are `<PART>.<something>`. A flat footprint is named after
/// the *footprint*, so it is attached to whichever part's symbol asks for it,
/// and otherwise left alone rather than invented into a part of its own.
pub fn scan(
    cfg: &Config,
    symbols: &Vec<Listed>,
    models: &Vec<Listed>,
    folders: &Vec<Folder>,
    footprints: &Vec<Listed>,
) -> (r: Vec<Part>)
    ensures
        manifest::part_views(r@) == scanned(
            cfg@,
            listed_views(symbols@),
            listed_views(models@),
            folder_views(folders@),
            listed_views(footprints@),
        ),
{
    let root = cfg.library_root.as_str();
    let mut parts: Vec<Part> = Vec::new();

    let symbol_files = files_in(symbols, Kind::Symbol);
    let ghost a = listed_views(symbol_files@);
    let mut i: usize = 0;
    assert(a.take(0) =~= Seq::<ListedView>::empty());
    assert(manifest::part_views(parts@) =~= Seq::<manifest::PartView>::empty());
    while i < symbol_files.len()
        invariant
            i <= symbol_files@.len(),
            a == listed_views(symbol_files@),
            root@ == cfg@.library_root,
            manifest::part_views(parts@) == symbols_added(root@, cfg@.symbol_dir, a.take(i as int)),
        decreases symbol_files.len() - i,
    {
        assert(a.take(i + 1).drop_last() =~= a.take(i as int));
        assert(a.take(i + 1).last() == symbol_files@[i as int]@);
        take_symbol(&mut parts, root, cfg.symbol_dir.as_str(), &symbol_files[i]);
        i += 1;
    }
    assert(a.take(i as int) =~= a);

    let model_files = files_in(models, Kind::Model);
    let ghost b = listed_views(model_files@);
    let ghost p1 = manifest::part_views(parts@);
    i = 0;
    assert(b.take(0) =~= Seq::<ListedView>::empty());
    while i < model_files.len()
        invariant
            i <= model_files@.len(),
            b == listed_views(model_files@),
            root@ == cfg@.library_root,
            manifest::part_views(parts@) == models_added(
                p1,
                root@,
                cfg@.model_dir,
                b.take(i as int),
            ),
        decreases model_files.len() - i,
    {
        assert(b.take(i + 1).drop_last() =~= b.take(i as int));
        assert(b.take(i + 1).last() == model_files@[i as int]@);
        take_model(&mut parts, root, cfg.model_dir.as_str(), &model_files[i]);
        i += 1;
    }
    assert(b.take(i as int) =~= b);

    // Per-part `.pretty` folders name the part directly.
    let picks = subdirs(folders);
    let ghost c = folders_of(folder_views(folders@));
    let ghost p2 = manifest::part_views(parts@);
    i = 0;
    assert(c.take(0) =~= Seq::<FolderView>::empty());
    while i < picks.len()
        invariant
            i <= picks@.len(),
            c == folders_of(folder_views(folders@)),
            picks@.len() == c.len(),
            root@ == cfg@.library_root,
            forall|j: int| 0 <= j < picks@.len() ==> (#[trigger] picks@[j]) < folders@.len(),
            forall|j: int|
                0 <= j < picks@.len() ==> folders@[(#[trigger] picks@[j]) as int]@ == c[j],
            manifest::part_views(parts@) == folders_added(
                p2,
                root@,
                cfg@.footprint_dir,
                c.take(i as int),
            ),
        decreases picks.len() - i,
    {
        assert(c.take(i + 1).drop_last() =~= c.take(i as int));
        assert(c.take(i + 1).last() == c[i as int]);
        take_folder(&mut parts, root, cfg.footprint_dir.as_str(), &folders[picks[i]]);
        i += 1;
    }
    assert(c.take(i as int) =~= c);

    // A flat footprint is named after the footprint, so it belongs to the part
    // whose symbol asks for it — or, failing that, to a part of the same name.
    let flat = files_in(footprints, Kind::Footprint);
    let ghost d = listed_views(flat@);
    let ghost p3 = manifest::part_views(parts@);
    i = 0;
    assert(d.take(0) =~= Seq::<ListedView>::empty());
    while i < flat.len()
        invariant
            i <= flat@.len(),
            d == listed_views(flat@),
            a == listed_views(symbol_files@),
            root@ == cfg@.library_root,
            manifest::part_views(parts@) == flats_added(
                p3,
                root@,
                cfg@.footprint_dir,
                a,
                d.take(i as int),
            ),
        decreases flat.len() - i,
    {
        assert(d.take(i + 1).drop_last() =~= d.take(i as int));
        assert(d.take(i + 1).last() == flat@[i as int]@);
        let stem = stem_of_name(flat[i].name.as_str());
        let holders = owners_of(&symbol_files, stem.as_str());
        let path = join_path(cfg.footprint_dir.as_str(), flat[i].name.as_str());
        let written = rel(root, path.as_str());
        give(&mut parts, &holders, written.as_str());
        i += 1;
    }
    assert(d.take(i as int) =~= d);

    by_name(&parts)
}

fn by_name(parts: &Vec<Part>) -> (r: Vec<Part>)
    ensures
        manifest::part_views(r@) == order::arranged(
            manifest::part_views(parts@),
            part_names(manifest::part_views(parts@)),
        ),
{
    let mut keys: Vec<String> = Vec::new();
    let mut j: usize = 0;
    while j < parts.len()
        invariant
            j <= parts@.len(),
            keys@.len() == j,
            forall|m: int| 0 <= m < j ==> (#[trigger] keys@[m])@ == parts@[m].name@,
        decreases parts.len() - j,
    {
        keys.push(parts[j].name.clone());
        j += 1;
    }
    let ghost all = manifest::part_views(parts@);
    assert(text::views(keys@) =~= part_names(all));
    let ranks = order::rank(&keys);
    let mut out: Vec<Part> = Vec::new();
    let mut n: usize = 0;
    while n < ranks.len()
        invariant
            n <= ranks@.len() == parts@.len(),
            all == manifest::part_views(parts@),
            out@.len() == n,
            forall|m: int| 0 <= m < ranks@.len() ==> (#[trigger] ranks@[m]) < parts@.len(),
            forall|m: int| 0 <= m < n ==> (#[trigger] out@[m])@ == all[ranks@[m] as int],
        decreases ranks.len() - n,
    {
        out.push(parts[ranks[n]].clone());
        n += 1;
    }
    assert(manifest::part_views(out@) =~= order::arranged(all, part_names(all)));
    out
}

// ------------------------------------------------------------------ laws

/// No name twice, and every part found rather than imported.
pub open spec fn is_tidy(parts: Seq<manifest::PartView>) -> bool {
    &&& forall|i: int, j: int|
        0 <= i < j < parts.len() ==> (#[trigger] parts[i]).name != (#[trigger] parts[j]).name
    &&& forall|i: int| 0 <= i < parts.len() ==> (#[trigger] parts[i]).source == FOUND@
}

/// The parts of `a` are still there in `b`, in the same places.
spec fn extends(b: Seq<manifest::PartView>, a: Seq<manifest::PartView>) -> bool {
    &&& a.len() <= b.len()
    &&& forall|i: int| 0 <= i < a.len() ==> (#[trigger] b[i]).name == a[i].name
}

/// One of the files is called `name`, but for its extension.
pub open spec fn has_stem(files: Seq<ListedView>, name: Seq<char>) -> bool {
    exists|k: int|
        0 <= k < files.len() && paths::name_stem((#[trigger] files[k]).name) == name
}

/// One of the folders is the part's own and holds a footprint.
pub open spec fn has_folder(folders: Seq<FolderView>, name: Seq<char>) -> bool {
    exists|k: int|
        0 <= k < folders.len() && has_footprint(#[trigger] folders[k]) && paths::name_stem(
            folders[k].name,
        ) == name
}

/// A symbol file, a 3D model or a per-part folder with a footprint is called
/// `name`.
pub open spec fn is_named(
    symbols: Seq<ListedView>,
    models: Seq<ListedView>,
    folders: Seq<FolderView>,
    name: Seq<char>,
) -> bool {
    ||| has_stem(files_of(symbols, Kind::Symbol), name)
    ||| has_stem(files_of(models, Kind::Model), name)
    ||| has_folder(folders_of(folders), name)
}

proof fn lemma_stem_kept(files: Seq<ListedView>, name: Seq<char>)
    requires
        files.len() > 0,
        has_stem(files.drop_last(), name),
    ensures
        has_stem(files, name),
{
    let init = files.drop_last();
    let k = choose|k: int|
        0 <= k < init.len() && paths::name_stem((#[trigger] init[k]).name) == name;
    assert(files[k] == init[k]);
}

proof fn lemma_folder_kept(folders: Seq<FolderView>, name: Seq<char>)
    requires
        folders.len() > 0,
        has_folder(folders.drop_last(), name),
    ensures
        has_folder(folders, name),
{
    let init = folders.drop_last();
    let k = choose|k: int|
        0 <= k < init.len() && has_footprint(#[trigger] init[k]) && paths::name_stem(init[k].name)
            == name;
    assert(folders[k] == init[k]);
}

proof fn lemma_still_listed(
    b: Seq<manifest::PartView>,
    a: Seq<manifest::PartView>,
    name: Seq<char>,
)
    requires
        extends(b, a),
        part_names(a).contains(name),
    ensures
        part_names(b).contains(name),
{
    let i = part_names(a).index_of(name);
    assert(b[i].name == a[i].name);
    assert(part_names(b)[i] == name);
}

proof fn lemma_entry(parts: Seq<manifest::PartView>, name: Seq<char>)
    requires
        is_tidy(parts),
    ensures
        is_tidy(with_entry(parts, name)),
        extends(with_entry(parts, name), parts),
        0 <= entry_at(parts, name) < with_entry(parts, name).len(),
        with_entry(parts, name)[entry_at(parts, name)].name == name,
{
    lemma_place(parts, name, parts.len() as int);
}

proof fn lemma_fill_keeps(
    part: manifest::PartView,
    root: Seq<char>,
    dir: Seq<char>,
    files: Seq<ListedView>,
)
    ensures
        fill_folder(part, root, dir, files).name == part.name,
        fill_folder(part, root, dir, files).source == part.source,
    decreases files.len(),
{
    if files.len() > 0 {
        lemma_fill_keeps(part, root, dir, files.drop_last());
    }
}

proof fn lemma_symbols_added(root: Seq<char>, dir: Seq<char>, files: Seq<ListedView>)
    ensures
        is_tidy(symbols_added(root, dir, files)),
        forall|k: int|
            0 <= k < files.len() ==> part_names(symbols_added(root, dir, files)).contains(
                paths::name_stem((#[trigger] files[k]).name),
            ),
        forall|i: int|
            0 <= i < symbols_added(root, dir, files).len() ==> has_stem(
                files,
                (#[trigger] symbols_added(root, dir, files)[i]).name,
            ),
    decreases files.len(),
{
    if files.len() > 0 {
        let before = symbols_added(root, dir, files.drop_last());
        let after = symbols_added(root, dir, files);
        let stem = paths::name_stem(files.last().name);
        lemma_symbols_added(root, dir, files.drop_last());
        lemma_entry(before, stem);
        assert(extends(after, before));
        assert forall|i: int| 0 <= i < after.len() implies has_stem(
            files,
            (#[trigger] after[i]).name,
        ) by {
            if i < before.len() {
                assert(after[i].name == before[i].name);
                lemma_stem_kept(files, before[i].name);
            } else {
                assert(paths::name_stem(files[files.len() - 1].name) == after[i].name);
            }
        }
        assert forall|k: int| 0 <= k < files.len() implies part_names(after).contains(
            paths::name_stem((#[trigger] files[k]).name),
        ) by {
            if k < files.len() - 1 {
                lemma_still_listed(after, before, paths::name_stem(files.drop_last()[k].name));
            } else {
                assert(part_names(after)[entry_at(before, stem)] == stem);
            }
        }
    }
}

proof fn lemma_models_added(
    parts: Seq<manifest::PartView>,
    root: Seq<char>,
    dir: Seq<char>,
    files: Seq<ListedView>,
)
    requires
        is_tidy(parts),
    ensures
        is_tidy(models_added(parts, root, dir, files)),
        extends(models_added(parts, root, dir, files), parts),
        forall|k: int|
            0 <= k < files.len() ==> part_names(models_added(parts, root, dir, files)).contains(
                paths::name_stem((#[trigger] files[k]).name),
            ),
        forall|i: int|
            parts.len() <= i < models_added(parts, root, dir, files).len() ==> has_stem(
                files,
                (#[trigger] models_added(parts, root, dir, files)[i]).name,
            ),
    decreases files.len(),
{
    if files.len() > 0 {
        let before = models_added(parts, root, dir, files.drop_last());
        let after = models_added(parts, root, dir, files);
        let stem = paths::name_stem(files.last().name);
        lemma_models_added(parts, root, dir, files.drop_last());
        lemma_entry(before, stem);
        assert forall|i: int| parts.len() <= i < after.len() implies has_stem(
            files,
            (#[trigger] after[i]).name,
        ) by {
            if i < before.len() {
                assert(after[i].name == before[i].name);
                lemma_stem_kept(files, before[i].name);
            } else {
                assert(paths::name_stem(files[files.len() - 1].name) == after[i].name);
            }
        }
        assert forall|k: int| 0 <= k < files.len() implies part_names(after).contains(
            paths::name_stem((#[trigger] files[k]).name),
        ) by {
            if k < files.len() - 1 {
                lemma_still_listed(after, before, paths::name_stem(files.drop_last()[k].name));
            } else {
                assert(part_names(after)[entry_at(before, stem)] == stem);
            }
        }
    }
}

proof fn lemma_folders_added(
    parts: Seq<manifest::PartView>,
    root: Seq<char>,
    dir: Seq<char>,
    folders: Seq<FolderView>,
)
    requires
        is_tidy(parts),
    ensures
        is_tidy(folders_added(parts, root, dir, folders)),
        extends(folders_added(parts, root, dir, folders), parts),
        forall|k: int|
            0 <= k < folders.len() && has_footprint(#[trigger] folders[k]) ==> part_names(
                folders_added(parts, root, dir, folders),
            ).contains(paths::name_stem(folders[k].name)),
        forall|i: int|
            parts.len() <= i < folders_added(parts, root, dir, folders).len() ==> has_folder(
                folders,
                (#[trigger] folders_added(parts, root, dir, folders)[i]).name,
            ),
    decreases folders.len(),
{
    if folders.len() > 0 {
        let before = folders_added(parts, root, dir, folders.drop_last());
        let folder = folders.last();
        let name = paths::name_stem(folder.name);
        lemma_folders_added(parts, root, dir, folders.drop_last());
        lemma_entry(before, name);
        lemma_fill_keeps(
            with_entry(before, name)[entry_at(before, name)],
            root,
            paths::below(dir, folder.name),
            files_of(folder.files, Kind::Footprint),
        );
        let after = folders_added(parts, root, dir, folders);
        assert forall|i: int| parts.len() <= i < after.len() implies has_folder(
            folders,
            (#[trigger] after[i]).name,
        ) by {
            if i < before.len() {
                assert(after[i].name == before[i].name);
                lemma_folder_kept(folders, before[i].name);
            } else {
                assert(has_footprint(folders[folders.len() - 1]));
                assert(paths::name_stem(folders[folders.len() - 1].name) == after[i].name);
            }
        }
        assert forall|k: int|
            0 <= k < folders.len() && has_footprint(#[trigger] folders[k]) implies part_names(
            after,
        ).contains(paths::name_stem(folders[k].name)) by {
            if k < folders.len() - 1 {
                lemma_still_listed(after, before, paths::name_stem(folders.drop_last()[k].name));
            } else {
                assert(part_names(after)[entry_at(before, name)] == name);
            }
        }
    }
}

proof fn lemma_attach(
    parts: Seq<manifest::PartView>,
    holders: Seq<Seq<char>>,
    path: Seq<char>,
)
    requires
        is_tidy(parts),
    ensures
        is_tidy(attach(parts, holders, path)),
        attach(parts, holders, path).len() == parts.len(),
        extends(attach(parts, holders, path), parts),
    decreases holders.len(),
{
    if holders.len() > 0 {
        let before = attach(parts, holders.drop_last(), path);
        lemma_attach(parts, holders.drop_last(), path);
        lemma_place(before, holders.last(), before.len() as int);
    }
}

proof fn lemma_flats_added(
    parts: Seq<manifest::PartView>,
    root: Seq<char>,
    dir: Seq<char>,
    symbols: Seq<ListedView>,
    files: Seq<ListedView>,
)
    requires
        is_tidy(parts),
    ensures
        is_tidy(flats_added(parts, root, dir, symbols, files)),
        flats_added(parts, root, dir, symbols, files).len() == parts.len(),
        extends(flats_added(parts, root, dir, symbols, files), parts),
    decreases files.len(),
{
    if files.len() > 0 {
        lemma_flats_added(parts, root, dir, symbols, files.drop_last());
        lemma_attach(
            flats_added(parts, root, dir, symbols, files.drop_last()),
            owners(symbols, paths::name_stem(files.last().name)),
            manifest::relative(root, paths::below(dir, files.last().name)),
        );
    }
}

/// A scan lists no part twice, marks every part as found and orders them by
/// name. It lists a part exactly where a symbol file, a 3D model or a per-part
/// folder that holds a footprint names it: a flat footprint is invented into no
/// part of its own.
pub proof fn lemma_scanned(
    cfg: config::ConfigView,
    symbols: Seq<ListedView>,
    models: Seq<ListedView>,
    folders: Seq<FolderView>,
    footprints: Seq<ListedView>,
)
    ensures
        is_tidy(scanned(cfg, symbols, models, folders, footprints)),
        forall|i: int, j: int|
            0 <= i < j < scanned(cfg, symbols, models, folders, footprints).len()
                ==> text::precedes(
                (#[trigger] scanned(cfg, symbols, models, folders, footprints)[i]).name,
                (#[trigger] scanned(cfg, symbols, models, folders, footprints)[j]).name,
            ),
        forall|name: Seq<char>|
            part_names(scanned(cfg, symbols, models, folders, footprints)).contains(name) <==>
                #[trigger] is_named(symbols, models, folders, name),
{
    let root = cfg.library_root;
    let files = files_of(symbols, Kind::Symbol);
    let a = symbols_added(root, cfg.symbol_dir, files);
    let b = models_added(a, root, cfg.model_dir, files_of(models, Kind::Model));
    let c = folders_added(b, root, cfg.footprint_dir, folders_of(folders));
    let flat = files_of(footprints, Kind::Footprint);
    let d = flats_added(c, root, cfg.footprint_dir, files, flat);
    lemma_symbols_added(root, cfg.symbol_dir, files);
    lemma_models_added(a, root, cfg.model_dir, files_of(models, Kind::Model));
    lemma_folders_added(b, root, cfg.footprint_dir, folders_of(folders));
    lemma_flats_added(c, root, cfg.footprint_dir, files, flat);
    let names = part_names(d);
    let out = scanned(cfg, symbols, models, folders, footprints);
    order::lemma_ranking(names);
    let r = order::ranking(names);
    assert forall|i: int, j: int| 0 <= i < j < out.len() implies (#[trigger] out[i]).name
        != (#[trigger] out[j]).name && text::precedes(out[i].name, out[j].name) by {
        assert(out[i] == d[r[i]] && out[j] == d[r[j]]);
        assert(order::in_order(names, r[i], r[j]));
        assert(r[i] != r[j]);
        if r[i] < r[j] {
            assert(d[r[i]].name != d[r[j]].name);
        } else {
            assert(d[r[j]].name != d[r[i]].name);
        }
        order::lemma_precedes(out[i].name, out[j].name);
    }
    assert forall|i: int| 0 <= i < out.len() implies (#[trigger] out[i]).source == FOUND@ by {
        assert(out[i] == d[r[i]]);
    }
    assert forall|k: int| 0 <= k < files.len() implies part_names(out).contains(
        paths::name_stem((#[trigger] files[k]).name),
    ) by {
        let stem = paths::name_stem(files[k].name);
        lemma_still_listed(b, a, stem);
        lemma_still_listed(c, b, stem);
        lemma_still_listed(d, c, stem);
        lemma_arranged(d, stem);
    }
    let boxes = files_of(models, Kind::Model);
    assert forall|k: int| 0 <= k < boxes.len() implies part_names(out).contains(
        paths::name_stem((#[trigger] boxes[k]).name),
    ) by {
        let stem = paths::name_stem(boxes[k].name);
        lemma_still_listed(c, b, stem);
        lemma_still_listed(d, c, stem);
        lemma_arranged(d, stem);
    }
    let own = folders_of(folders);
    assert forall|k: int|
        0 <= k < own.len() && has_footprint(#[trigger] own[k]) implies part_names(out).contains(
        paths::name_stem(own[k].name),
    ) by {
        let stem = paths::name_stem(own[k].name);
        lemma_still_listed(d, c, stem);
        lemma_arranged(d, stem);
    }
    assert forall|name: Seq<char>|
        part_names(out).contains(name) <==> #[trigger] is_named(
            symbols,
            models,
            folders,
            name,
        ) by {
        if part_names(out).contains(name) {
            let i = part_names(out).index_of(name);
            assert(out[i] == d[r[i]]);
            assert(d[r[i]].name == c[r[i]].name);
            if r[i] < b.len() {
                assert(c[r[i]].name == b[r[i]].name);
                if r[i] < a.len() {
                    assert(b[r[i]].name == a[r[i]].name);
                }
            }
        }
    }
}

/// Ordering the parts loses none.
proof fn lemma_arranged(parts: Seq<manifest::PartView>, name: Seq<char>)
    requires
        part_names(parts).contains(name),
    ensures
        part_names(order::arranged(parts, part_names(parts))).contains(name),
{
    let names = part_names(parts);
    order::lemma_ranking(names);
    let r = order::ranking(names);
    let m = names.index_of(name);
    assert(r.contains(m));
    let i = r.index_of(m);
    let out = order::arranged(parts, names);
    assert(out[i] == parts[r[i]]);
    assert(part_names(out)[i] == name);
}

/// A part called `name` is listed with the footprint at `path`.
pub open spec fn lists_footprint(
    parts: Seq<manifest::PartView>,
    name: Seq<char>,
    path: Seq<char>,
) -> bool {
    exists|i: int|
        0 <= i < parts.len() && (#[trigger] parts[i]).name == name && parts[i].footprints.contains(
            path,
        )
}

proof fn lemma_repeats(list: Seq<Seq<char>>, footprint: Seq<char>, stem: Seq<char>)
    requires
        list.contains(footprint),
    ensures
        repeats(list, footprint, stem).contains(stem),
    decreases list.len(),
{
    let init = list.drop_last();
    let before = repeats(init, footprint, stem);
    if list.last() == footprint {
        assert(before.push(stem)[before.len() as int] == stem);
    } else {
        let i = list.index_of(footprint);
        assert(init[i] == footprint);
        lemma_repeats(init, footprint, stem);
    }
}

proof fn lemma_askers(symbols: Seq<ListedView>, footprint: Seq<char>, j: int)
    requires
        0 <= j < symbols.len(),
        declared(symbols[j].text).contains(footprint),
    ensures
        askers(symbols, footprint).contains(paths::name_stem(symbols[j].name)),
    decreases symbols.len(),
{
    let stem = paths::name_stem(symbols[j].name);
    let before = askers(symbols.drop_last(), footprint);
    let more = repeats(
        declared(symbols.last().text),
        footprint,
        paths::name_stem(symbols.last().name),
    );
    let whole = askers(symbols, footprint);
    if j < symbols.len() - 1 {
        lemma_askers(symbols.drop_last(), footprint, j);
        let i = before.index_of(stem);
        assert(whole[i] == stem);
    } else {
        lemma_repeats(declared(symbols.last().text), footprint, stem);
        let i = more.index_of(stem);
        assert(whole[before.len() + i] == stem);
    }
}

proof fn lemma_attach_keeps(
    parts: Seq<manifest::PartView>,
    holders: Seq<Seq<char>>,
    path: Seq<char>,
    name: Seq<char>,
    other: Seq<char>,
)
    requires
        is_tidy(parts),
        lists_footprint(parts, name, other),
    ensures
        lists_footprint(attach(parts, holders, path), name, other),
    decreases holders.len(),
{
    if holders.len() > 0 {
        let before = attach(parts, holders.drop_last(), path);
        let after = attach(parts, holders, path);
        lemma_attach_keeps(parts, holders.drop_last(), path, name, other);
        lemma_attach(parts, holders.drop_last(), path);
        lemma_place(before, holders.last(), before.len() as int);
        let i = choose|i: int|
            0 <= i < before.len() && (#[trigger] before[i]).name == name
                && before[i].footprints.contains(other);
        let k = before[i].footprints.index_of(other);
        assert(after[i].name == name);
        assert(after[i].footprints[k] == other);
    }
}

proof fn lemma_attach_lists(
    parts: Seq<manifest::PartView>,
    holders: Seq<Seq<char>>,
    path: Seq<char>,
    name: Seq<char>,
)
    requires
        is_tidy(parts),
        part_names(parts).contains(name),
        holders.contains(name),
    ensures
        lists_footprint(attach(parts, holders, path), name, path),
    decreases holders.len(),
{
    let init = holders.drop_last();
    let before = attach(parts, init, path);
    let after = attach(parts, holders, path);
    lemma_attach(parts, init, path);
    lemma_place(before, holders.last(), before.len() as int);
    if holders.last() == name {
        lemma_still_listed(before, parts, name);
        let m = part_names(before).index_of(name);
        assert(before[m].name == name);
        let i = place_of(before, name)->Some_0;
        assert(after[i].name == name);
        assert(after[i].footprints[before[i].footprints.len() as int] == path);
    } else {
        let i = holders.index_of(name);
        assert(init[i] == name);
        lemma_attach_lists(parts, init, path, name);
        let k = choose|k: int|
            0 <= k < before.len() && (#[trigger] before[k]).name == name
                && before[k].footprints.contains(path);
        let n = before[k].footprints.index_of(path);
        assert(after[k].name == name);
        assert(after[k].footprints[n] == path);
    }
}

proof fn lemma_flats_listed(
    parts: Seq<manifest::PartView>,
    root: Seq<char>,
    dir: Seq<char>,
    symbols: Seq<ListedView>,
    files: Seq<ListedView>,
    k: int,
    j: int,
)
    requires
        is_tidy(parts),
        0 <= k < files.len(),
        0 <= j < symbols.len(),
        declared(symbols[j].text).contains(paths::name_stem(files[k].name)),
        part_names(parts).contains(paths::name_stem(symbols[j].name)),
    ensures
        lists_footprint(
            flats_added(parts, root, dir, symbols, files),
            paths::name_stem(symbols[j].name),
            manifest::relative(root, paths::below(dir, files[k].name)),
        ),
    decreases files.len(),
{
    let init = files.drop_last();
    let before = flats_added(parts, root, dir, symbols, init);
    let name = paths::name_stem(symbols[j].name);
    let f = files.last();
    let holders = owners(symbols, paths::name_stem(f.name));
    let path = manifest::relative(root, paths::below(dir, f.name));
    lemma_flats_added(parts, root, dir, symbols, init);
    if k < init.len() {
        assert(init[k] == files[k]);
        lemma_flats_listed(parts, root, dir, symbols, init, k, j);
        let other = manifest::relative(root, paths::below(dir, files[k].name));
        lemma_attach_keeps(before, holders, path, name, other);
    } else {
        lemma_askers(symbols, paths::name_stem(f.name), j);
        lemma_still_listed(before, parts, name);
        lemma_attach_lists(before, holders, path, name);
    }
}

/// A flat footprint is listed against every part whose symbol asks for it.
pub proof fn lemma_flat_attached(
    cfg: config::ConfigView,
    symbols: Seq<ListedView>,
    models: Seq<ListedView>,
    folders: Seq<FolderView>,
    footprints: Seq<ListedView>,
    k: int,
    j: int,
)
    requires
        0 <= k < files_of(footprints, Kind::Footprint).len(),
        0 <= j < files_of(symbols, Kind::Symbol).len(),
        declared(files_of(symbols, Kind::Symbol)[j].text).contains(
            paths::name_stem(files_of(footprints, Kind::Footprint)[k].name),
        ),
    ensures
        lists_footprint(
            scanned(cfg, symbols, models, folders, footprints),
            paths::name_stem(files_of(symbols, Kind::Symbol)[j].name),
            manifest::relative(
                cfg.library_root,
                paths::below(
                    cfg.footprint_dir,
                    files_of(footprints, Kind::Footprint)[k].name,
                ),
            ),
        ),
{
    let root = cfg.library_root;
    let files = files_of(symbols, Kind::Symbol);
    let flat = files_of(footprints, Kind::Footprint);
    let a = symbols_added(root, cfg.symbol_dir, files);
    let b = models_added(a, root, cfg.model_dir, files_of(models, Kind::Model));
    let c = folders_added(b, root, cfg.footprint_dir, folders_of(folders));
    let d = flats_added(c, root, cfg.footprint_dir, files, flat);
    let name = paths::name_stem(files[j].name);
    let path = manifest::relative(root, paths::below(cfg.footprint_dir, flat[k].name));
    lemma_symbols_added(root, cfg.symbol_dir, files);
    lemma_models_added(a, root, cfg.model_dir, files_of(models, Kind::Model));
    lemma_folders_added(b, root, cfg.footprint_dir, folders_of(folders));
    lemma_still_listed(b, a, name);
    lemma_still_listed(c, b, name);
    lemma_flats_listed(c, root, cfg.footprint_dir, files, flat, k, j);
    let names = part_names(d);
    order::lemma_ranking(names);
    let r = order::ranking(names);
    let m = choose|m: int|
        0 <= m < d.len() && (#[trigger] d[m]).name == name && d[m].footprints.contains(path);
    assert(r.contains(m));
    let i = r.index_of(m);
    assert(scanned(cfg, symbols, models, folders, footprints)[i] == d[m]);
}

} // verus!
