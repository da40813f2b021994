//! `library.json` — a machine-readable description of the KiCad library's file
//! structure and everything that has been imported into it.
//!
//! Paths are stored relative to the library root so the file stays valid if the
//! whole tree is moved.

use vstd::prelude::*;
use vstd::string::*;

use crate::config;
use crate::config::{clone_opt, Config};
use crate::order;
use crate::paths;
use crate::paths::strip_prefix;
use crate::text;
use crate::text::{pieces, same, to_lowercase};

verus! {

/// `chrono::Local::now` and `chrono::DateTime::to_rfc3339`: the time of the
/// call, in the machine's time zone. Nothing is claimed of the result.
#[verifier::external_body]
pub(crate) fn now() -> (r: String) {
    chrono::Local::now().to_rfc3339()
}

#[derive(Clone, Copy, Debug, Default, PartialEq, Eq, Structural)]
pub struct Totals {
    pub parts: usize,
    pub symbols: usize,
    pub footprints: usize,
    pub models: usize,
}

pub struct Layout {
    pub symbols: String,
    pub footprints: String,
    pub models: String,
    pub merged_symbol_lib: Option<String>,
    pub archive: String,
    pub per_part_footprint_dirs: bool,
}

pub struct Part {
    pub name: String,
    /// Where the part came from: a ZIP file name, or an online catalogue entry
    /// such as `LCSC C7420`.
    pub source: String,
    pub imported_at: String,
    pub symbol_file: Option<String>,
    pub symbol_names: Vec<String>,
    pub footprints: Vec<String>,
    pub models: Vec<String>,
}

pub struct Manifest {
    pub generated: String,
    pub library_root: String,
    pub layout: Layout,
    pub parts: Vec<Part>,
}

#[verifier::ext_equal]
pub struct LayoutView {
    pub symbols: Seq<char>,
    pub footprints: Seq<char>,
    pub models: Seq<char>,
    pub merged_symbol_lib: Option<Seq<char>>,
    pub archive: Seq<char>,
    pub per_part_footprint_dirs: bool,
}

#[verifier::ext_equal]
pub struct PartView {
    pub name: Seq<char>,
    pub source: Seq<char>,
    pub imported_at: Seq<char>,
    pub symbol_file: Option<Seq<char>>,
    pub symbol_names: Seq<Seq<char>>,
    pub footprints: Seq<Seq<char>>,
    pub models: Seq<Seq<char>>,
}

#[verifier::ext_equal]
pub struct ManifestView {
    pub generated: Seq<char>,
    pub library_root: Seq<char>,
    pub layout: LayoutView,
    pub parts: Seq<PartView>,
}

impl View for Layout {
    type V = LayoutView;

    open spec fn view(&self) -> LayoutView {
        LayoutView {
            symbols: self.symbols@,
            footprints: self.footprints@,
            models: self.models@,
            merged_symbol_lib: text::opt_view(self.merged_symbol_lib),
            archive: self.archive@,
            per_part_footprint_dirs: self.per_part_footprint_dirs,
        }
    }
}

impl View for Part {
    type V = PartView;

    open spec fn view(&self) -> PartView {
        PartView {
            name: self.name@,
            source: self.source@,
            imported_at: self.imported_at@,
            symbol_file: text::opt_view(self.symbol_file),
            symbol_names: text::views(self.symbol_names@),
            footprints: text::views(self.footprints@),
            models: text::views(self.models@),
        }
    }
}

pub open spec fn part_views(list: Seq<Part>) -> Seq<PartView> {
    list.map_values(|p: Part| p@)
}

impl View for Manifest {
    type V = ManifestView;

    open spec fn view(&self) -> ManifestView {
        ManifestView {
            generated: self.generated@,
            library_root: self.library_root@,
            layout: self.layout@,
            parts: part_views(self.parts@),
        }
    }
}

pub(crate) fn clone_texts(list: &Vec<String>) -> (r: Vec<String>)
    ensures
        text::views(r@) == text::views(list@),
{
    let mut out: Vec<String> = Vec::new();
    let mut i: usize = 0;
    while i < list.len()
        invariant
            i <= list@.len(),
            out@.len() == i,
            forall|j: int| 0 <= j < i ==> (#[trigger] out@[j])@ == list@[j]@,
        decreases list.len() - i,
    {
        out.push(list[i].clone());
        i += 1;
    }
    assert(text::views(out@) =~= text::views(list@));
    out
}

impl Clone for Part {
    fn clone(&self) -> (r: Part)
        ensures
            r@ == self@,
    {
        Part {
            name: self.name.clone(),
            source: self.source.clone(),
            imported_at: self.imported_at.clone(),
            symbol_file: clone_opt(&self.symbol_file),
            symbol_names: clone_texts(&self.symbol_names),
            footprints: clone_texts(&self.footprints),
            models: clone_texts(&self.models),
        }
    }
}

/// A part with nothing filled in.
pub open spec fn empty_part() -> PartView {
    PartView {
        name: Seq::empty(),
        source: Seq::empty(),
        imported_at: Seq::empty(),
        symbol_file: None,
        symbol_names: Seq::empty(),
        footprints: Seq::empty(),
        models: Seq::empty(),
    }
}

impl Default for Part {
    fn default() -> (r: Part)
        ensures
            r@ == empty_part(),
    {
        let part = Part {
            name: String::new(),
            source: String::new(),
            imported_at: String::new(),
            symbol_file: None,
            symbol_names: Vec::new(),
            footprints: Vec::new(),
            models: Vec::new(),
        };
        assert(part@ =~= empty_part());
        part
    }
}

/// A manifest that describes nothing yet.
pub open spec fn empty_manifest() -> ManifestView {
    ManifestView {
        generated: Seq::empty(),
        library_root: Seq::empty(),
        layout: LayoutView {
            symbols: Seq::empty(),
            footprints: Seq::empty(),
            models: Seq::empty(),
            merged_symbol_lib: None,
            archive: Seq::empty(),
            per_part_footprint_dirs: false,
        },
        parts: Seq::empty(),
    }
}

impl Default for Manifest {
    fn default() -> (r: Manifest)
        ensures
            r@ == empty_manifest(),
    {
        let manifest = Manifest {
            generated: String::new(),
            library_root: String::new(),
            layout: Layout {
                symbols: String::new(),
                footprints: String::new(),
                models: String::new(),
                merged_symbol_lib: None,
                archive: String::new(),
                per_part_footprint_dirs: false,
            },
            parts: Vec::new(),
        };
        assert(manifest@ =~= empty_manifest());
        manifest
    }
}

// ------------------------------------------------------------------ layout

/// `path` as the manifest writes it: relative to `root` when it lives inside.
pub open spec fn relative(root: Seq<char>, path: Seq<char>) -> Seq<char> {
    if paths::within(path, root) {
        paths::rest_of(path, root)
    } else {
        path
    }
}

/// `path` relative to `root` when it lives inside it, else the absolute path.
pub fn rel(root: &str, path: &str) -> (r: String)
    ensures
        r@ == relative(root@, path@),
{
    match strip_prefix(path, root) {
        Some(rest) => rest,
        None => path.to_string(),
    }
}

/// A relative path read against the root is the place it was made from.
pub proof fn lemma_relative(root: Seq<char>, path: Seq<char>)
    requires
        root.len() > 0,
        paths::within(path, root),
    ensures
        paths::same_place(paths::below(root, relative(root, path)), path),
{
    paths::lemma_moved(path, root, root);
    let n = paths::components(root).len() as int;
    assert(paths::components(path) =~= paths::components(root) + paths::components(path).skip(n));
}

/// The layout a configuration describes.
pub open spec fn layout_of(cfg: config::ConfigView) -> LayoutView {
    let root = cfg.library_root;
    LayoutView {
        symbols: relative(root, cfg.symbol_dir),
        footprints: relative(root, cfg.footprint_dir),
        models: relative(root, cfg.model_dir),
        merged_symbol_lib: match cfg.merged_symbol_lib {
            Some(p) => Some(relative(root, p)),
            None => None,
        },
        archive: relative(root, cfg.archive_dir),
        per_part_footprint_dirs: cfg.per_part_footprint_dirs,
    }
}

/// `m` with its layout taken from `cfg` at the time `now`.
pub open spec fn synced(m: ManifestView, cfg: config::ConfigView, now: Seq<char>) -> ManifestView {
    ManifestView {
        generated: now,
        library_root: cfg.library_root,
        layout: layout_of(cfg),
        parts: m.parts,
    }
}

// ------------------------------------------------------------------- parts

/// The parts that are not called `name`.
pub open spec fn not_called(parts: Seq<PartView>, name: Seq<char>) -> Seq<PartView>
    decreases parts.len(),
{
    if parts.len() == 0 {
        Seq::empty()
    } else if parts.last().name == name {
        not_called(parts.drop_last(), name)
    } else {
        not_called(parts.drop_last(), name).push(parts.last())
    }
}

pub open spec fn part_keys(parts: Seq<PartView>) -> Seq<Seq<char>> {
    parts.map_values(|p: PartView| text::lower(p.name))
}

/// The parts ordered by name, without regard to case.
pub open spec fn sorted_parts(parts: Seq<PartView>) -> Seq<PartView> {
    order::arranged(parts, part_keys(parts))
}

/// The parts once `part` has taken its place among them.
pub open spec fn with_part(parts: Seq<PartView>, part: PartView) -> Seq<PartView> {
    sorted_parts(not_called(parts, part.name).push(part))
}

pub(crate) fn sort_parts(list: &Vec<Part>) -> (r: Vec<Part>)
    ensures
        part_views(r@) == sorted_parts(part_views(list@)),
{
    let mut keys: Vec<String> = Vec::new();
    let mut j: usize = 0;
    while j < list.len()
        invariant
            j <= list@.len(),
            keys@.len() == j,
            forall|m: int| 0 <= m < j ==> (#[trigger] keys@[m])@ == text::lower(list@[m].name@),
        decreases list.len() - j,
    {
        keys.push(to_lowercase(list[j].name.as_str()));
        j += 1;
    }
    let ghost all = part_views(list@);
    assert(text::views(keys@) =~= part_keys(all));
    let ranks = order::rank(&keys);
    let mut out: Vec<Part> = Vec::new();
    let mut n: usize = 0;
    while n < ranks.len()
        invariant
            n <= ranks@.len() == list@.len(),
            all == part_views(list@),
            out@.len() == n,
            forall|m: int| 0 <= m < ranks@.len() ==> (#[trigger] ranks@[m]) < list@.len(),
            forall|m: int| 0 <= m < n ==> (#[trigger] out@[m])@ == all[ranks@[m] as int],
        decreases ranks.len() - n,
    {
        out.push(list[ranks[n]].clone());
        n += 1;
    }
    assert(part_views(out@) =~= sorted_parts(all));
    out
}

impl Manifest {
    /// The manifest that was read, or an empty one when it was absent or
    /// unreadable. A corrupt manifest is never fatal — it is rebuilt as parts
    /// are imported.
    pub fn load(read: Option<Manifest>) -> (r: Manifest)
        ensures
            r@ == match read {
                Some(m) => m@,
                None => empty_manifest(),
            },
    {
        match read {
            Some(m) => m,
            None => Manifest::default(),
        }
    }

    /// Refreshes the layout section from the configuration, at the time `now`.
    pub fn sync_layout_at(&mut self, cfg: &Config, now: String)
        ensures
            final(self)@ == synced(old(self)@, cfg@, now@),
    {
        let root = cfg.library_root.as_str();
        self.library_root = cfg.library_root.clone();
        self.layout = Layout {
            symbols: rel(root, cfg.symbol_dir.as_str()),
            footprints: rel(root, cfg.footprint_dir.as_str()),
            models: rel(root, cfg.model_dir.as_str()),
            merged_symbol_lib: match &cfg.merged_symbol_lib {
                Some(p) => Some(rel(root, p.as_str())),
                None => None,
            },
            archive: rel(root, cfg.archive_dir.as_str()),
            per_part_footprint_dirs: cfg.per_part_footprint_dirs,
        };
        self.generated = now;
    }

    /// Refreshes the layout section from the live configuration.
    pub fn sync_layout(&mut self, cfg: &Config)
        ensures
            exists|now: Seq<char>| final(self)@ == #[trigger] synced(old(self)@, cfg@, now),
    {
        let stamp = now();
        self.sync_layout_at(cfg, stamp);
    }

    /// Inserts a part, replacing any earlier entry with the same name.
    pub fn upsert(&mut self, part: Part)
        ensures
            final(self)@ == (ManifestView {
                parts: with_part(old(self)@.parts, part@),
                ..old(self)@
            }),
    {
        let ghost all = part_views(self.parts@);
        let mut kept: Vec<Part> = Vec::new();
        let mut i: usize = 0;
        assert(all.take(0) =~= Seq::<PartView>::empty());
        while i < self.parts.len()
            invariant
                i <= self.parts@.len(),
                all == part_views(self.parts@),
                part_views(kept@) == not_called(all.take(i as int), part@.name),
            decreases self.parts.len() - i,
        {
            let ghost was = part_views(kept@);
            assert(all.take(i + 1).drop_last() =~= all.take(i as int));
            assert(all.take(i + 1).last() == self.parts@[i as int]@);
            if !same(self.parts[i].name.as_str(), part.name.as_str()) {
                kept.push(self.parts[i].clone());
                assert(part_views(kept@) =~= was.push(self.parts@[i as int]@));
            }
            i += 1;
        }
        assert(all.take(i as int) =~= all);
        let ghost was = part_views(kept@);
        kept.push(part);
        assert(part_views(kept@) =~= was.push(part@));
        self.parts = sort_parts(&kept);
    }
}

/// A manifest with a part recorded in it at the time `now`.
pub open spec fn recorded(
    m: ManifestView,
    cfg: config::ConfigView,
    part: PartView,
    now: Seq<char>,
) -> ManifestView {
    ManifestView { parts: with_part(m.parts, part), ..synced(m, cfg, now) }
}

/// Brings a loaded manifest up to date at the time `now`: the layout from the
/// configuration, and `part` in its place.
pub fn record_at(manifest: Manifest, cfg: &Config, part: Part, now: String) -> (r: Manifest)
    ensures
        r@ == recorded(manifest@, cfg@, part@, now@),
{
    let mut m = manifest;
    m.sync_layout_at(cfg, now);
    m.upsert(part);
    m
}

/// Brings a loaded manifest up to date: the layout from the configuration, and
/// `part` in its place.
pub fn record(manifest: Manifest, cfg: &Config, part: Part) -> (r: Manifest)
    ensures
        exists|now: Seq<char>| r@ == #[trigger] recorded(manifest@, cfg@, part@, now),
{
    let stamp = now();
    record_at(manifest, cfg, part, stamp)
}

proof fn lemma_not_called(parts: Seq<PartView>, name: Seq<char>)
    ensures
        forall|p: PartView|
            #[trigger] not_called(parts, name).contains(p) <==> parts.contains(p) && p.name
                != name,
    decreases parts.len(),
{
    if parts.len() > 0 {
        let init = parts.drop_last();
        lemma_not_called(init, name);
        let out = not_called(parts, name);
        assert forall|p: PartView| #[trigger] out.contains(p) <==> parts.contains(p) && p.name
            != name by {
            if parts.contains(p) && p.name != name {
                let i = parts.index_of(p);
                if i < init.len() {
                    assert(init[i] == p);
                    assert(not_called(init, name).contains(p));
                    let j = not_called(init, name).index_of(p);
                    assert(out[j] == p);
                } else {
                    assert(out[out.len() - 1] == p);
                }
            }
            if out.contains(p) {
                let i = out.index_of(p);
                if i < not_called(init, name).len() {
                    assert(not_called(init, name)[i] == p);
                    assert(not_called(init, name).contains(p));
                    let j = init.index_of(p);
                    assert(parts[j] == p);
                } else {
                    assert(parts[parts.len() - 1] == p);
                }
            }
        }
    }
}

/// Sorting neither adds nor drops a part, and orders them by name.
pub proof fn lemma_sorted_parts(parts: Seq<PartView>)
    ensures
        sorted_parts(parts).len() == parts.len(),
        forall|p: PartView| #[trigger] sorted_parts(parts).contains(p) <==> parts.contains(p),
        forall|i: int, j: int|
            0 <= i < j < parts.len() ==> !text::precedes(
                text::lower((#[trigger] sorted_parts(parts)[j]).name),
                text::lower((#[trigger] sorted_parts(parts)[i]).name),
            ),
{
    let keys = part_keys(parts);
    let out = sorted_parts(parts);
    order::lemma_ranking(keys);
    let r = order::ranking(keys);
    assert forall|p: PartView| #[trigger] out.contains(p) <==> parts.contains(p) by {
        if out.contains(p) {
            let i = out.index_of(p);
            assert(out[i] == parts[r[i]]);
        }
        if parts.contains(p) {
            let k = parts.index_of(p);
            assert(r.contains(k));
            let i = r.index_of(k);
            assert(out[i] == p);
        }
    }
    assert forall|i: int, j: int| 0 <= i < j < parts.len() implies !text::precedes(
        text::lower((#[trigger] out[j]).name),
        text::lower((#[trigger] out[i]).name),
    ) by {
        assert(order::in_order(keys, r[i], r[j]));
    }
}

/// Recording a part leaves exactly that one entry under its name, keeps every
/// other, and orders them by name without regard to case.
pub proof fn lemma_with_part(parts: Seq<PartView>, part: PartView)
    ensures
        forall|p: PartView|
            #[trigger] with_part(parts, part).contains(p) <==> p == part || (parts.contains(p)
                && p.name != part.name),
        forall|i: int, j: int|
            0 <= i < with_part(parts, part).len() && 0 <= j < with_part(parts, part).len()
                && #[trigger] with_part(parts, part)[i].name == part.name
                && #[trigger] with_part(parts, part)[j].name == part.name ==> i == j,
        forall|i: int, j: int|
            0 <= i < j < with_part(parts, part).len() ==> !text::precedes(
                text::lower((#[trigger] with_part(parts, part)[j]).name),
                text::lower((#[trigger] with_part(parts, part)[i]).name),
            ),
{
    let kept = not_called(parts, part.name);
    let pool = kept.push(part);
    let out = with_part(parts, part);
    lemma_not_called(parts, part.name);
    lemma_sorted_parts(pool);
    assert forall|p: PartView| #[trigger] out.contains(p) <==> p == part || (parts.contains(p)
        && p.name != part.name) by {
        if pool.contains(p) {
            let k = pool.index_of(p);
            if k < kept.len() {
                assert(kept[k] == p);
                assert(kept.contains(p));
            }
        }
        if p == part {
            assert(pool[kept.len() as int] == p);
        }
        if parts.contains(p) && p.name != part.name {
            assert(kept.contains(p));
            let k = kept.index_of(p);
            assert(pool[k] == p);
        }
    }
    let keys = part_keys(pool);
    order::lemma_ranking(keys);
    let r = order::ranking(keys);
    assert forall|i: int, j: int|
        0 <= i < out.len() && 0 <= j < out.len() && #[trigger] out[i].name == part.name
            && #[trigger] out[j].name == part.name implies i == j by {
        assert(out[i] == pool[r[i]] && out[j] == pool[r[j]]);
        assert(forall|k: int| 0 <= k < kept.len() ==> kept.contains(#[trigger] kept[k]));
        if r[i] < kept.len() {
            assert(kept.contains(kept[r[i]]));
        }
        if r[j] < kept.len() {
            assert(kept.contains(kept[r[j]]));
        }
        assert(r[i] == kept.len() && r[j] == kept.len());
        if i < j {
            assert(r[i] != r[j]);
        } else if j < i {
            assert(r[j] != r[i]);
        }
    }
}

// ------------------------------------------------------------------ totals

/// The file name at the end of a manifest path.
pub open spec fn leaf_name(path: Seq<char>) -> Seq<char> {
    text::split(path, '/').last()
}

pub open spec fn leaf_names(list: Seq<Seq<char>>) -> Seq<Seq<char>> {
    list.map_values(|p: Seq<char>| leaf_name(p))
}

pub open spec fn all_symbols(parts: Seq<PartView>) -> Seq<Seq<char>>
    decreases parts.len(),
{
    if parts.len() == 0 {
        Seq::empty()
    } else {
        all_symbols(parts.drop_last()) + parts.last().symbol_names
    }
}

pub open spec fn all_footprints(parts: Seq<PartView>) -> Seq<Seq<char>>
    decreases parts.len(),
{
    if parts.len() == 0 {
        Seq::empty()
    } else {
        all_footprints(parts.drop_last()) + leaf_names(parts.last().footprints)
    }
}

pub open spec fn all_models(parts: Seq<PartView>) -> Seq<Seq<char>>
    decreases parts.len(),
{
    if parts.len() == 0 {
        Seq::empty()
    } else {
        all_models(parts.drop_last()) + leaf_names(parts.last().models)
    }
}

/// How many different names a list holds.
pub open spec fn distinct(names: Seq<Seq<char>>) -> nat {
    names.to_set().len()
}

fn leaf(path: &str) -> (r: String)
    ensures
        r@ == leaf_name(path@),
{
    let list = pieces(path, '/');
    proof {
        text::lemma_split_len(path@, '/');
        assert(text::views(list@).len() == list@.len());
        assert(text::views(list@).last() == list@.last()@);
    }
    list[list.len() - 1].clone()
}

pub(crate) fn known(list: &Vec<String>, name: &str) -> (r: bool)
    ensures
        r == text::views(list@).contains(name@),
{
    let mut i: usize = 0;
    while i < list.len()
        invariant
            i <= list@.len(),
            forall|j: int| 0 <= j < i ==> (#[trigger] list@[j])@ != name@,
        decreases list.len() - i,
    {
        if same(list[i].as_str(), name) {
            assert(text::views(list@)[i as int] == name@);
            return true;
        }
        i += 1;
    }
    assert forall|j: int| 0 <= j < list@.len() implies text::views(list@)[j] != name@ by {
        assert(list@[j]@ != name@);
    }
    false
}

/// `seen` holds every name of `names` once.
spec fn holds_once(seen: Seq<String>, names: Seq<Seq<char>>) -> bool {
    &&& text::views(seen).no_duplicates()
    &&& text::views(seen).to_set() == names.to_set()
}

proof fn lemma_set_push(names: Seq<Seq<char>>, name: Seq<char>)
    ensures
        names.push(name).to_set() == names.to_set().insert(name),
{
    let a = names.push(name).to_set();
    let b = names.to_set().insert(name);
    assert forall|x: Seq<char>| a.contains(x) <==> b.contains(x) by {
        if names.push(name).contains(x) {
            let i = names.push(name).index_of(x);
            if i < names.len() {
                assert(names[i] == x);
            }
        }
        if names.contains(x) {
            let i = names.index_of(x);
            assert(names.push(name)[i] == x);
        }
        if x == name {
            assert(names.push(name)[names.len() as int] == x);
        }
    }
    assert(a =~= b);
}

fn note(seen: &mut Vec<String>, name: String, Ghost(names): Ghost<Seq<Seq<char>>>)
    requires
        holds_once(old(seen)@, names),
    ensures
        holds_once(final(seen)@, names.push(name@)),
{
    proof {
        lemma_set_push(names, name@);
        lemma_set_push(text::views(seen@), name@);
    }
    if !known(seen, name.as_str()) {
        let ghost was = text::views(seen@);
        seen.push(name);
        assert(text::views(seen@) =~= was.push(name@));
        assert(text::views(seen@).no_duplicates());
    } else {
        assert(text::views(seen@).to_set().insert(name@) =~= text::views(seen@).to_set());
    }
}

proof fn lemma_count(seen: Seq<String>, names: Seq<Seq<char>>)
    requires
        holds_once(seen, names),
    ensures
        seen.len() == distinct(names),
{
    text::views(seen).unique_seq_to_set();
}

/// What a set of parts holds, for the dashboard.
///
/// Files are counted once even though a footprint is deliberately written to
/// both the flat `.pretty` library and a per-part folder.
pub fn totals(parts: &Vec<Part>) -> (r: Totals)
    ensures
        r.parts == parts@.len(),
        r.symbols == distinct(all_symbols(part_views(parts@))),
        r.footprints == distinct(all_footprints(part_views(parts@))),
        r.models == distinct(all_models(part_views(parts@))),
{
    let ghost all = part_views(parts@);
    let mut symbols: Vec<String> = Vec::new();
    let mut footprints: Vec<String> = Vec::new();
    let mut models: Vec<String> = Vec::new();
    let mut i: usize = 0;
    proof {
        assert(all.take(0) =~= Seq::<PartView>::empty());
        assert(text::views(symbols@) =~= Seq::<Seq<char>>::empty());
        assert(text::views(footprints@) =~= Seq::<Seq<char>>::empty());
        assert(text::views(models@) =~= Seq::<Seq<char>>::empty());
    }
    while i < parts.len()
        invariant
            i <= parts@.len(),
            all == part_views(parts@),
            holds_once(symbols@, all_symbols(all.take(i as int))),
            holds_once(footprints@, all_footprints(all.take(i as int))),
            holds_once(models@, all_models(all.take(i as int))),
        decreases parts.len() - i,
    {
        proof {
            assert(all.take(i + 1).drop_last() =~= all.take(i as int));
            assert(all.take(i + 1).last() == parts@[i as int]@);
        }
        note_all(&mut symbols, &parts[i].symbol_names, Ghost(all_symbols(all.take(i as int))));
        note_leaves(&mut footprints, &parts[i].footprints, Ghost(all_footprints(all.take(i as int))));
        note_leaves(&mut models, &parts[i].models, Ghost(all_models(all.take(i as int))));
        i += 1;
    }
    proof {
        assert(all.take(i as int) =~= all);
        lemma_count(symbols@, all_symbols(all));
        lemma_count(footprints@, all_footprints(all));
        lemma_count(models@, all_models(all));
    }
    Totals {
        parts: parts.len(),
        symbols: symbols.len(),
        footprints: footprints.len(),
        models: models.len(),
    }
}

fn note_all(seen: &mut Vec<String>, list: &Vec<String>, Ghost(names): Ghost<Seq<Seq<char>>>)
    requires
        holds_once(old(seen)@, names),
    ensures
        holds_once(final(seen)@, names + text::views(list@)),
{
    let mut i: usize = 0;
    let ghost more = text::views(list@);
    assert(names + more.take(0) =~= names);
    while i < list.len()
        invariant
            i <= list@.len(),
            more == text::views(list@),
            holds_once(seen@, names + more.take(i as int)),
        decreases list.len() - i,
    {
        note(seen, list[i].clone(), Ghost(names + more.take(i as int)));
        assert((names + more.take(i as int)).push(list@[i as int]@) =~= names + more.take(i + 1));
        i += 1;
    }
    assert(more.take(i as int) =~= more);
}

fn note_leaves(seen: &mut Vec<String>, list: &Vec<String>, Ghost(names): Ghost<Seq<Seq<char>>>)
    requires
        holds_once(old(seen)@, names),
    ensures
        holds_once(final(seen)@, names + leaf_names(text::views(list@))),
{
    let mut i: usize = 0;
    let ghost more = leaf_names(text::views(list@));
    assert(names + more.take(0) =~= names);
    while i < list.len()
        invariant
            i <= list@.len(),
            more == leaf_names(text::views(list@)),
            holds_once(seen@, names + more.take(i as int)),
        decreases list.len() - i,
    {
        note(seen, leaf(list[i].as_str()), Ghost(names + more.take(i as int)));
        assert((names + more.take(i as int)).push(leaf_name(list@[i as int]@)) =~= names
            + more.take(i + 1));
        i += 1;
    }
    assert(more.take(i as int) =~= more);
}

/// A file listed in two places is one file: paths that end in the same name are
/// counted once.
pub proof fn lemma_counted_once(parts: Seq<PartView>)
    ensures
        distinct(all_footprints(parts)) <= all_footprints(parts).len(),
        forall|a: int, b: int|
            0 <= a < b < all_footprints(parts).len() && #[trigger] all_footprints(parts)[a]
                == #[trigger] all_footprints(parts)[b] ==> distinct(all_footprints(parts))
                < all_footprints(parts).len(),
{
    let names = all_footprints(parts);
    names.lemma_cardinality_of_set();
    assert forall|a: int, b: int|
        0 <= a < b < names.len() && #[trigger] names[a] == #[trigger] names[b] implies distinct(
        names,
    ) < names.len() by {
        if distinct(names) == names.len() {
            names.lemma_no_dup_set_cardinality();
        }
    }
}

} // verus!
