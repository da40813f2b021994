//! The two lists of the main screen: the archives waiting to be imported and
//! the parts the library holds.

use vstd::prelude::*;
use vstd::string::*;

use crate::app;
use crate::app::{App, Focus, Found};
use crate::library;
use crate::manifest;
use crate::manifest::{clone_texts, known, sort_parts, totals, Part};
use crate::online;
use crate::online::easyeda;
use crate::online::easyeda::Hit;
use crate::online::sanitize;
use crate::scan;
use crate::scan::ZipEntry;
use crate::text;
use crate::text::{has, same, to_lowercase, trimmed};

verus! {

// ------------------------------------------------------------- the library

/// `a` and then whatever of `b` is not in it yet.
pub open spec fn united(a: Seq<Seq<char>>, b: Seq<Seq<char>>) -> Seq<Seq<char>>
    decreases b.len(),
{
    if b.len() == 0 {
        a
    } else {
        let before = united(a, b.drop_last());
        if before.contains(b.last()) {
            before
        } else {
            before.push(b.last())
        }
    }
}

/// A recorded part together with the files found beside it. It keeps its own
/// name, source, date and symbol file.
pub open spec fn absorbed(known: manifest::PartView, found: manifest::PartView) -> manifest::PartView {
    manifest::PartView {
        symbol_file: if known.symbol_file is None {
            found.symbol_file
        } else {
            known.symbol_file
        },
        symbol_names: united(known.symbol_names, found.symbol_names),
        footprints: united(known.footprints, found.footprints),
        models: united(known.models, found.models),
        ..known
    }
}

/// The parts once a found one has been added, or taken into the one of its name.
pub open spec fn with_found(parts: Seq<manifest::PartView>, found: manifest::PartView) -> Seq<
    manifest::PartView,
> {
    match library::place_of(parts, found.name) {
        Some(i) => parts.update(i, absorbed(parts[i], found)),
        None => parts.push(found),
    }
}

pub open spec fn with_all(
    recorded: Seq<manifest::PartView>,
    present: Seq<manifest::PartView>,
) -> Seq<manifest::PartView>
    decreases present.len(),
{
    if present.len() == 0 {
        recorded
    } else {
        with_found(with_all(recorded, present.drop_last()), present.last())
    }
}

/// What the library pane lists: the parts the manifest records, plus anything
/// else already sitting in the tree.
pub open spec fn library_of(
    recorded: Seq<manifest::PartView>,
    present: Seq<manifest::PartView>,
) -> Seq<manifest::PartView> {
    manifest::sorted_parts(with_all(recorded, present))
}

pub open spec fn totals_of(parts: Seq<manifest::PartView>) -> app::TotalsView {
    app::TotalsView {
        parts: parts.len() as int,
        symbols: manifest::distinct(manifest::all_symbols(parts)) as int,
        footprints: manifest::distinct(manifest::all_footprints(parts)) as int,
        models: manifest::distinct(manifest::all_models(parts)) as int,
    }
}

fn unite(list: &mut Vec<String>, more: &Vec<String>)
    ensures
        text::views(final(list)@) == united(text::views(old(list)@), text::views(more@)),
{
    let ghost first = text::views(list@);
    let ghost all = text::views(more@);
    let mut i: usize = 0;
    assert(all.take(0) =~= Seq::<Seq<char>>::empty());
    while i < more.len()
        invariant
            i <= more@.len(),
            all == text::views(more@),
            text::views(list@) == united(first, all.take(i as int)),
        decreases more.len() - i,
    {
        assert(all.take(i + 1).drop_last() =~= all.take(i as int));
        assert(all.take(i + 1).last() == more@[i as int]@);
        if !known(list, more[i].as_str()) {
            let ghost was = text::views(list@);
            list.push(more[i].clone());
            assert(text::views(list@) =~= was.push(more@[i as int]@));
        }
        i += 1;
    }
    assert(all.take(i as int) =~= all);
}

/// Adds files found on disk to a part the manifest already knows, keeping the
/// manifest's provenance and never listing the same file twice.
pub fn absorb(part: &Part, found: &Part) -> (r: Part)
    ensures
        r@ == absorbed(part@, found@),
{
    let mut out = part.clone();
    if out.symbol_file.is_none() {
        out.symbol_file = crate::config::clone_opt(&found.symbol_file);
    }
    let mut names = clone_texts(&out.symbol_names);
    unite(&mut names, &found.symbol_names);
    out.symbol_names = names;
    let mut footprints = clone_texts(&out.footprints);
    unite(&mut footprints, &found.footprints);
    out.footprints = footprints;
    let mut models = clone_texts(&out.models);
    unite(&mut models, &found.models);
    out.models = models;
    out
}

/// What the library pane lists.
pub fn merge_library(recorded: Vec<Part>, present: &Vec<Part>) -> (r: Vec<Part>)
    ensures
        manifest::part_views(r@) == library_of(
            manifest::part_views(recorded@),
            manifest::part_views(present@),
        ),
{
    let ghost first = manifest::part_views(recorded@);
    let ghost all = manifest::part_views(present@);
    let mut parts = recorded;
    let mut i: usize = 0;
    assert(all.take(0) =~= Seq::<manifest::PartView>::empty());
    while i < present.len()
        invariant
            i <= present@.len(),
            all == manifest::part_views(present@),
            manifest::part_views(parts@) == with_all(first, all.take(i as int)),
        decreases present.len() - i,
    {
        let ghost was = manifest::part_views(parts@);
        assert(all.take(i + 1).drop_last() =~= all.take(i as int));
        assert(all.take(i + 1).last() == present@[i as int]@);
        match library::find(&parts, present[i].name.as_str()) {
            // An imported part can still have files beside it the manifest never
            // recorded — a model dropped in by hand, a footprint left from an
            // earlier import. The folders are the truth.
            Some(k) => {
                let whole = absorb(&parts[k], &present[i]);
                parts.set(k, whole);
                assert(manifest::part_views(parts@) =~= was.update(k as int, whole@));
            },
            None => {
                parts.push(present[i].clone());
                assert(manifest::part_views(parts@) =~= was.push(present@[i as int]@));
            },
        }
        i += 1;
    }
    assert(all.take(i as int) =~= all);
    sort_parts(&parts)
}

// --------------------------------------------------------------- the filter

/// What the filter looks for.
pub open spec fn needle_of(filter: Seq<char>) -> Seq<char> {
    text::lower(text::trim(filter))
}

pub open spec fn is_match(haystack: Seq<char>, needle: Seq<char>) -> bool {
    needle.len() == 0 || text::contains(text::lower(haystack), needle)
}

/// The positions of the archives that match.
pub open spec fn matching_zips(zips: Seq<scan::ZipView>, needle: Seq<char>) -> Seq<int>
    decreases zips.len(),
{
    if zips.len() == 0 {
        Seq::empty()
    } else {
        let before = matching_zips(zips.drop_last(), needle);
        if is_match(zips.last().display, needle) {
            before.push(zips.len() - 1)
        } else {
            before
        }
    }
}

/// The positions of the parts whose name or source matches.
pub open spec fn matching_parts(parts: Seq<manifest::PartView>, needle: Seq<char>) -> Seq<int>
    decreases parts.len(),
{
    if parts.len() == 0 {
        Seq::empty()
    } else {
        let before = matching_parts(parts.drop_last(), needle);
        if is_match(parts.last().name, needle) || is_match(parts.last().source, needle) {
            before.push(parts.len() - 1)
        } else {
            before
        }
    }
}

/// A selection made valid for a list of `len` rows.
pub open spec fn clamped(at: Option<int>, len: int) -> Option<int> {
    if len == 0 {
        None
    } else {
        match at {
            None => Some(0),
            Some(i) => Some(if i < len {
                i
            } else {
                len - 1
            }),
        }
    }
}

/// The state with both lists filtered and both selections inside them.
pub open spec fn recomputed(a: app::AppView) -> app::AppView {
    let needle = needle_of(a.filter);
    let queue = matching_zips(a.zips, needle);
    let parts = matching_parts(a.library, needle);
    app::AppView {
        list: clamped(a.list, queue.len() as int),
        library_list: clamped(a.library_list, parts.len() as int),
        queue_view: queue,
        library_view: parts,
        ..a
    }
}

/// The state after a rescan.
pub open spec fn refreshed(a: app::AppView, found: app::FoundView) -> app::AppView {
    let library = library_of(found.recorded, found.present);
    let shown = recomputed(
        app::AppView {
            fs_errors: found.errors,
            zips: found.entries,
            last_scan: Some(found.at),
            library,
            totals: totals_of(library),
            ..a
        },
    );
    if found.errors.len() > 0 {
        app::AppView { status: "Scan error: "@ + found.errors[0], ..shown }
    } else {
        shown
    }
}

fn matches(haystack: &str, needle: &str) -> (r: bool)
    ensures
        r == is_match(haystack@, needle@),
{
    if needle.is_empty() {
        return true;
    }
    let low = to_lowercase(haystack);
    has(low.as_str(), needle)
}

fn match_zips(zips: &Vec<ZipEntry>, needle: &str) -> (r: Vec<usize>)
    ensures
        app::ints(r@) == matching_zips(scan::zip_views(zips@), needle@),
{
    let ghost all = scan::zip_views(zips@);
    let mut out: Vec<usize> = Vec::new();
    let mut i: usize = 0;
    assert(all.take(0) =~= Seq::<scan::ZipView>::empty());
    assert(app::ints(out@) =~= Seq::<int>::empty());
    while i < zips.len()
        invariant
            i <= zips@.len(),
            all == scan::zip_views(zips@),
            app::ints(out@) == matching_zips(all.take(i as int), needle@),
        decreases zips.len() - i,
    {
        assert(all.take(i + 1).drop_last() =~= all.take(i as int));
        assert(all.take(i + 1).last() == zips@[i as int]@);
        if matches(zips[i].display.as_str(), needle) {
            let ghost was = app::ints(out@);
            out.push(i);
            assert(app::ints(out@) =~= was.push(i as int));
        }
        i += 1;
    }
    assert(all.take(i as int) =~= all);
    out
}

fn match_parts(parts: &Vec<Part>, needle: &str) -> (r: Vec<usize>)
    ensures
        app::ints(r@) == matching_parts(manifest::part_views(parts@), needle@),
{
    let ghost all = manifest::part_views(parts@);
    let mut out: Vec<usize> = Vec::new();
    let mut i: usize = 0;
    assert(all.take(0) =~= Seq::<manifest::PartView>::empty());
    assert(app::ints(out@) =~= Seq::<int>::empty());
    while i < parts.len()
        invariant
            i <= parts@.len(),
            all == manifest::part_views(parts@),
            app::ints(out@) == matching_parts(all.take(i as int), needle@),
        decreases parts.len() - i,
    {
        assert(all.take(i + 1).drop_last() =~= all.take(i as int));
        assert(all.take(i + 1).last() == parts@[i as int]@);
        if matches(parts[i].name.as_str(), needle) || matches(parts[i].source.as_str(), needle) {
            let ghost was = app::ints(out@);
            out.push(i);
            assert(app::ints(out@) =~= was.push(i as int));
        }
        i += 1;
    }
    assert(all.take(i as int) =~= all);
    out
}

/// Keeps a list selection valid after the list behind it changed length.
fn clamp(at: Option<usize>, len: usize) -> (r: Option<usize>)
    ensures
        app::opt_int(r) == clamped(app::opt_int(at), len as int),
{
    if len == 0 {
        return None;
    }
    match at {
        None => Some(0),
        Some(i) => if i < len {
            Some(i)
        } else {
            Some(len - 1)
        },
    }
}

// ----------------------------------------------------------- the selections

/// The row of the focused list that is selected.
pub open spec fn selected(a: app::AppView) -> Option<int> {
    match a.focus {
        Focus::Queue => a.list,
        Focus::Library => a.library_list,
    }
}

/// How many rows the focused list shows.
pub open spec fn pane_len(a: app::AppView) -> int {
    match a.focus {
        Focus::Queue => a.queue_view.len() as int,
        Focus::Library => a.library_view.len() as int,
    }
}

/// The state with a row of the focused list selected.
pub open spec fn with_selected(a: app::AppView, at: Option<int>) -> app::AppView {
    match a.focus {
        Focus::Queue => app::AppView { list: at, ..a },
        Focus::Library => app::AppView { library_list: at, ..a },
    }
}

/// The selection of the focused list moved by `delta`, around the ends.
pub open spec fn moved(a: app::AppView, delta: int) -> app::AppView {
    let len = pane_len(a);
    let at = match selected(a) {
        Some(i) => i,
        None => 0,
    };
    if len == 0 {
        a
    } else {
        with_selected(a, Some((at + delta) % len))
    }
}

/// The selection of the focused list at its first or its last row.
pub open spec fn jumped(a: app::AppView, last: bool) -> app::AppView {
    let len = pane_len(a);
    if len == 0 {
        a
    } else {
        with_selected(a, Some(if last {
            len - 1
        } else {
            0
        }))
    }
}

/// A selection that points at a row, if there is one to point at.
pub open spec fn is_selection(at: Option<int>, len: int) -> bool {
    match at {
        None => len == 0,
        Some(i) => 0 <= i < len,
    }
}

/// The lists show what the filter lets through, and both selections are rows of
/// theirs.
pub open spec fn is_shown(a: app::AppView) -> bool {
    &&& a.queue_view == matching_zips(a.zips, needle_of(a.filter))
    &&& a.library_view == matching_parts(a.library, needle_of(a.filter))
    &&& is_selection(a.list, a.queue_view.len() as int)
    &&& is_selection(a.library_list, a.library_view.len() as int)
}

/// The archive a row of the queue stands for.
pub open spec fn zip_at(a: app::AppView, row: int) -> Option<scan::ZipView> {
    if 0 <= row < a.queue_view.len() && 0 <= a.queue_view[row] < a.zips.len() {
        Some(a.zips[a.queue_view[row]])
    } else {
        None
    }
}

/// The part a row of the library stands for.
pub open spec fn part_at(a: app::AppView, row: int) -> Option<manifest::PartView> {
    if 0 <= row < a.library_view.len() && 0 <= a.library_view[row] < a.library.len() {
        Some(a.library[a.library_view[row]])
    } else {
        None
    }
}

/// The ZIP the queue pane is pointing at.
pub open spec fn zip_selected(a: app::AppView) -> Option<scan::ZipView> {
    match a.list {
        Some(row) => zip_at(a, row),
        None => None,
    }
}

/// The library entry the library pane is pointing at.
pub open spec fn part_selected(a: app::AppView) -> Option<manifest::PartView> {
    match a.library_list {
        Some(row) => part_at(a, row),
        None => None,
    }
}

/// A part of the library is the one a search result names.
pub open spec fn is_hit(part: manifest::PartView, hit: easyeda::HitView) -> bool {
    let name = online::sanitized(hit.mpn);
    part.source == "LCSC "@ + hit.id || (name.len() > 0 && part.name == name)
}

/// Whether a search result is already in the library.
pub open spec fn has_hit(parts: Seq<manifest::PartView>, hit: easyeda::HitView) -> bool {
    exists|i: int| 0 <= i < parts.len() && is_hit(#[trigger] parts[i], hit)
}

impl App {
    /// Applies the filter and keeps both selections inside their lists.
    pub fn recompute_views(&mut self)
        ensures
            final(self)@ == recomputed(old(self)@),
            is_shown(final(self)@),
    {
        let short = trimmed(self.filter.as_str());
        let needle = to_lowercase(short.as_str());
        self.queue_view = match_zips(&self.zips, needle.as_str());
        self.library_view = match_parts(&self.library, needle.as_str());
        self.list = clamp(self.list, self.queue_view.len());
        self.library_list = clamp(self.library_list, self.library_view.len());
        assert(self@.queue_view.len() == self.queue_view@.len());
        assert(self@.library_view.len() == self.library_view@.len());
    }

    /// The library pane shows what the folders actually contain: the parts the
    /// manifest records, plus anything else already sitting in the tree. A
    /// library built before this tool existed is still a library.
    pub fn reload_library(&mut self, recorded: Vec<Part>, present: &Vec<Part>)
        ensures
            final(self)@ == (app::AppView {
                library: library_of(
                    manifest::part_views(recorded@),
                    manifest::part_views(present@),
                ),
                totals: totals_of(
                    library_of(manifest::part_views(recorded@), manifest::part_views(present@)),
                ),
                ..old(self)@
            }),
    {
        let parts = merge_library(recorded, present);
        self.totals = totals(&parts);
        self.library = parts;
        assert(self@.library.len() == self.library@.len());
    }

    /// Takes in a full rescan of the ZIP folder and of the library, so both
    /// panes stay in step.
    pub fn refresh(&mut self, found: Found)
        ensures
            final(self)@ == refreshed(old(self)@, found@),
            is_shown(final(self)@),
    {
        self.fs_errors = found.zips.errors;
        self.zips = found.zips.entries;
        self.last_scan = Some(found.at);
        self.reload_library(found.recorded, &found.present);
        self.recompute_views();
        assert(self@.fs_errors.len() == self.fs_errors@.len());
        // Deliberately does not reset the status line on success: a rescan is
        // often triggered by the watcher moments after an import, and would
        // otherwise wipe the result the user is trying to read.
        if self.fs_errors.len() > 0 {
            let mut status = "Scan error: ".to_string();
            status.append(self.fs_errors[0].as_str());
            self.status = status;
        }
    }

    /// The ZIP the queue pane is pointing at.
    pub fn selected_zip(&self) -> (r: Option<&ZipEntry>)
        ensures
            match r {
                Some(z) => zip_selected(self@) == Some(z@),
                None => zip_selected(self@) is None,
            },
    {
        let row = match self.list {
            Some(row) => row,
            None => {
                return None;
            },
        };
        self.zip_in(row)
    }

    /// The ZIP a row of the queue stands for.
    pub fn zip_in(&self, row: usize) -> (r: Option<&ZipEntry>)
        ensures
            match r {
                Some(z) => zip_at(self@, row as int) == Some(z@),
                None => zip_at(self@, row as int) is None,
            },
    {
        assert(self@.queue_view.len() == self.queue_view@.len());
        if row < self.queue_view.len() {
            let index: usize = self.queue_view[row];
            assert(self@.queue_view[row as int] == index);
            if index < self.zips.len() {
                assert(self@.zips[index as int] == self.zips@[index as int]@);
                return Some(&self.zips[index]);
            }
        }
        None
    }

    /// The library entry the library pane is pointing at.
    pub fn selected_part(&self) -> (r: Option<&Part>)
        ensures
            match r {
                Some(p) => part_selected(self@) == Some(p@),
                None => part_selected(self@) is None,
            },
    {
        let row = match self.library_list {
            Some(row) => row,
            None => {
                return None;
            },
        };
        self.part_in(row)
    }

    /// The part a row of the library stands for.
    pub fn part_in(&self, row: usize) -> (r: Option<&Part>)
        ensures
            match r {
                Some(p) => part_at(self@, row as int) == Some(p@),
                None => part_at(self@, row as int) is None,
            },
    {
        assert(self@.library_view.len() == self.library_view@.len());
        if row < self.library_view.len() {
            let index: usize = self.library_view[row];
            assert(self@.library_view[row as int] == index);
            if index < self.library.len() {
                assert(self@.library[index as int] == self.library@[index as int]@);
                return Some(&self.library[index]);
            }
        }
        None
    }

    /// Whether a search result is already in the library, matched on the
    /// recorded source first because that is exact.
    pub fn library_has(&self, hit: &Hit) -> (r: bool)
        ensures
            r == has_hit(self@.library, hit@),
    {
        let mut source = "LCSC ".to_string();
        source.append(hit.id.as_str());
        let name = sanitize(hit.mpn.as_str());
        let named = !name.as_str().is_empty();
        let ghost parts = self@.library;
        let mut i: usize = 0;
        while i < self.library.len()
            invariant
                i <= self.library@.len(),
                parts == manifest::part_views(self.library@),
                source@ == "LCSC "@ + hit@.id,
                name@ == online::sanitized(hit@.mpn),
                named == (name@.len() > 0),
                forall|j: int| 0 <= j < i ==> !is_hit(#[trigger] parts[j], hit@),
            decreases self.library.len() - i,
        {
            assert(parts[i as int] == self.library@[i as int]@);
            if same(self.library[i].source.as_str(), source.as_str()) || (named && same(
                self.library[i].name.as_str(),
                name.as_str(),
            )) {
                assert(is_hit(parts[i as int], hit@));
                return true;
            }
            i += 1;
        }
        false
    }

    pub(crate) fn move_selection(&mut self, delta: isize)
        requires
            is_shown(old(self)@),
        ensures
            final(self)@ == moved(old(self)@, delta as int),
            is_shown(final(self)@),
    {
        assert(self@.queue_view.len() == self.queue_view@.len());
        assert(self@.library_view.len() == self.library_view@.len());
        match self.focus {
            Focus::Queue => {
                if let Some(at) = self.list {
                    self.list = Some(
                        crate::picker::around(at, delta, self.queue_view.len()),
                    );
                }
            },
            Focus::Library => {
                if let Some(at) = self.library_list {
                    self.library_list = Some(
                        crate::picker::around(at, delta, self.library_view.len()),
                    );
                }
            },
        }
    }

    pub(crate) fn set_selection(&mut self, last: bool)
        requires
            is_shown(old(self)@),
        ensures
            final(self)@ == jumped(old(self)@, last),
            is_shown(final(self)@),
    {
        assert(self@.queue_view.len() == self.queue_view@.len());
        assert(self@.library_view.len() == self.library_view@.len());
        match self.focus {
            Focus::Queue => {
                let len: usize = self.queue_view.len();
                if len > 0 {
                    let row: usize = if last {
                        len - 1
                    } else {
                        0
                    };
                    self.list = Some(row);
                }
            },
            Focus::Library => {
                let len: usize = self.library_view.len();
                if len > 0 {
                    let row: usize = if last {
                        len - 1
                    } else {
                        0
                    };
                    self.library_list = Some(row);
                }
            },
        }
    }
}

// -------------------------------------------------------------------- laws

/// Uniting two lists keeps the first as it is, adds only what the second holds,
/// leaves nothing out, and repeats nothing.
pub proof fn lemma_united(a: Seq<Seq<char>>, b: Seq<Seq<char>>)
    ensures
        united(a, b).len() >= a.len(),
        united(a, b).take(a.len() as int) == a,
        forall|x: Seq<char>| #[trigger] united(a, b).contains(x) <==> a.contains(x) || b.contains(x),
        a.no_duplicates() ==> united(a, b).no_duplicates(),
    decreases b.len(),
{
    if b.len() == 0 {
        assert(united(a, b).take(a.len() as int) =~= a);
    } else {
        let init = b.drop_last();
        let before = united(a, init);
        let out = united(a, b);
        lemma_united(a, init);
        assert(out.take(a.len() as int) =~= before.take(a.len() as int));
        assert forall|x: Seq<char>| #[trigger] out.contains(x) <==> a.contains(x) || b.contains(
            x,
        ) by {
            if out.contains(x) {
                let i = out.index_of(x);
                if i < before.len() {
                    assert(before[i] == x);
                    assert(before.contains(x));
                    if init.contains(x) {
                        let j = init.index_of(x);
                        assert(b[j] == x);
                    }
                } else {
                    assert(b[b.len() - 1] == x);
                }
            }
            if a.contains(x) {
                assert(before.contains(x));
                let i = before.index_of(x);
                assert(out[i] == x);
            }
            if b.contains(x) {
                let j = b.index_of(x);
                if j < init.len() {
                    assert(init[j] == x);
                    assert(before.contains(x));
                    let i = before.index_of(x);
                    assert(out[i] == x);
                } else if before.contains(x) {
                    let i = before.index_of(x);
                    assert(out[i] == x);
                } else {
                    assert(out[out.len() - 1] == x);
                }
            }
        }
        if a.no_duplicates() && !before.contains(b.last()) {
            assert forall|i: int, j: int|
                0 <= i < out.len() && 0 <= j < out.len() && i != j implies out[i] != out[j] by {
                if i < before.len() && j < before.len() {
                    assert(out[i] == before[i] && out[j] == before[j]);
                } else if i < before.len() {
                    assert(before.contains(before[i]));
                } else {
                    assert(before.contains(before[j]));
                }
            }
        }
    }
}

/// Files found on disk are added to an imported part without touching where it
/// came from or when, without losing a file it listed, and without listing any
/// twice.
pub proof fn lemma_absorbed(known: manifest::PartView, found: manifest::PartView)
    ensures
        absorbed(known, found).name == known.name,
        absorbed(known, found).source == known.source,
        absorbed(known, found).imported_at == known.imported_at,
        known.symbol_file is Some ==> absorbed(known, found).symbol_file == known.symbol_file,
        forall|f: Seq<char>|
            #[trigger] absorbed(known, found).footprints.contains(f) <==> known.footprints.contains(
                f,
            ) || found.footprints.contains(f),
        forall|f: Seq<char>|
            #[trigger] absorbed(known, found).models.contains(f) <==> known.models.contains(f)
                || found.models.contains(f),
        known.footprints.no_duplicates() ==> absorbed(known, found).footprints.no_duplicates(),
        known.models.no_duplicates() ==> absorbed(known, found).models.no_duplicates(),
        known.symbol_names.no_duplicates() ==> absorbed(known, found).symbol_names.no_duplicates(),
{
    lemma_united(known.symbol_names, found.symbol_names);
    lemma_united(known.footprints, found.footprints);
    lemma_united(known.models, found.models);
}

proof fn lemma_with_all(recorded: Seq<manifest::PartView>, present: Seq<manifest::PartView>)
    ensures
        with_all(recorded, present).len() >= recorded.len(),
        forall|i: int|
            0 <= i < recorded.len() ==> {
                let p = #[trigger] with_all(recorded, present)[i];
                p.name == recorded[i].name && p.source == recorded[i].source && p.imported_at
                    == recorded[i].imported_at
            },
        forall|k: int|
            0 <= k < present.len() ==> exists|i: int|
                0 <= i < with_all(recorded, present).len() && #[trigger] with_all(
                    recorded,
                    present,
                )[i].name == (#[trigger] present[k]).name,
    decreases present.len(),
{
    if present.len() > 0 {
        let init = present.drop_last();
        let last = present.last();
        let before = with_all(recorded, init);
        let out = with_all(recorded, present);
        lemma_with_all(recorded, init);
        library::lemma_place(before, last.name, before.len() as int);
        let at = match library::place_of(before, last.name) {
            Some(i) => i,
            None => before.len() as int,
        };
        assert(out[at].name == last.name);
        assert forall|k: int| 0 <= k < present.len() implies exists|i: int|
            0 <= i < out.len() && #[trigger] out[i].name == (#[trigger] present[k]).name by {
            if k < init.len() {
                assert(present[k] == init[k]);
                let i = choose|i: int|
                    0 <= i < before.len() && #[trigger] before[i].name == init[k].name;
                assert(out[i].name == before[i].name);
            } else {
                assert(out[at].name == present[k].name);
            }
        }
    }
}

/// Everything the manifest records is listed with the provenance it has there,
/// and everything the folders hold is listed too.
pub proof fn lemma_library(recorded: Seq<manifest::PartView>, present: Seq<manifest::PartView>)
    ensures
        forall|i: int|
            0 <= i < recorded.len() ==> exists|p: manifest::PartView|
                #[trigger] library_of(recorded, present).contains(p) && p.name == (
                #[trigger] recorded[i]).name && p.source == recorded[i].source && p.imported_at
                    == recorded[i].imported_at,
        forall|k: int|
            0 <= k < present.len() ==> exists|p: manifest::PartView|
                #[trigger] library_of(recorded, present).contains(p) && p.name == (
                #[trigger] present[k]).name,
{
    let whole = with_all(recorded, present);
    lemma_with_all(recorded, present);
    manifest::lemma_sorted_parts(whole);
    assert forall|i: int| 0 <= i < recorded.len() implies exists|p: manifest::PartView|
        #[trigger] library_of(recorded, present).contains(p) && p.name == (
        #[trigger] recorded[i]).name && p.source == recorded[i].source && p.imported_at
            == recorded[i].imported_at by {
        assert(whole.contains(whole[i]));
        assert(library_of(recorded, present).contains(whole[i]));
    }
    assert forall|k: int| 0 <= k < present.len() implies exists|p: manifest::PartView|
        #[trigger] library_of(recorded, present).contains(p) && p.name == (
        #[trigger] present[k]).name by {
        let i = choose|i: int|
            0 <= i < whole.len() && #[trigger] whole[i].name == present[k].name;
        assert(whole.contains(whole[i]));
        assert(library_of(recorded, present).contains(whole[i]));
    }
}

/// The filter keeps exactly the archives that match, in their order, and an
/// empty one keeps them all.
pub proof fn lemma_matching_zips(zips: Seq<scan::ZipView>, needle: Seq<char>)
    ensures
        forall|i: int| #[trigger]
            matching_zips(zips, needle).contains(i) <==> 0 <= i < zips.len() && is_match(
                zips[i].display,
                needle,
            ),
        forall|j: int, k: int|
            0 <= j < k < matching_zips(zips, needle).len() ==> #[trigger] matching_zips(
                zips,
                needle,
            )[j] < #[trigger] matching_zips(zips, needle)[k],
        needle.len() == 0 ==> matching_zips(zips, needle).len() == zips.len(),
    decreases zips.len(),
{
    if zips.len() > 0 {
        let init = zips.drop_last();
        let before = matching_zips(init, needle);
        let out = matching_zips(zips, needle);
        lemma_matching_zips(init, needle);
        assert(forall|j: int| 0 <= j < before.len() ==> before.contains(#[trigger] before[j]));
        assert forall|i: int| #[trigger] out.contains(i) <==> 0 <= i < zips.len() && is_match(
            zips[i].display,
            needle,
        ) by {
            if out.contains(i) {
                let j = out.index_of(i);
                if j < before.len() {
                    assert(before[j] == i);
                    assert(before.contains(i));
                    assert(init[i] == zips[i]);
                }
            }
            if 0 <= i < zips.len() && is_match(zips[i].display, needle) {
                if i < init.len() {
                    assert(init[i] == zips[i]);
                    assert(before.contains(i));
                    let j = before.index_of(i);
                    assert(out[j] == i);
                } else {
                    assert(out[out.len() - 1] == i);
                }
            }
        }
    }
}

/// The filter keeps exactly the parts whose name or source matches, in their
/// order, and an empty one keeps them all.
pub proof fn lemma_matching_parts(parts: Seq<manifest::PartView>, needle: Seq<char>)
    ensures
        forall|i: int| #[trigger]
            matching_parts(parts, needle).contains(i) <==> 0 <= i < parts.len() && (is_match(
                parts[i].name,
                needle,
            ) || is_match(parts[i].source, needle)),
        forall|j: int, k: int|
            0 <= j < k < matching_parts(parts, needle).len() ==> #[trigger] matching_parts(
                parts,
                needle,
            )[j] < #[trigger] matching_parts(parts, needle)[k],
        needle.len() == 0 ==> matching_parts(parts, needle).len() == parts.len(),
    decreases parts.len(),
{
    if parts.len() > 0 {
        let init = parts.drop_last();
        let before = matching_parts(init, needle);
        let out = matching_parts(parts, needle);
        lemma_matching_parts(init, needle);
        assert(forall|j: int| 0 <= j < before.len() ==> before.contains(#[trigger] before[j]));
        assert forall|i: int| #[trigger] out.contains(i) <==> 0 <= i < parts.len() && (is_match(
            parts[i].name,
            needle,
        ) || is_match(parts[i].source, needle)) by {
            if out.contains(i) {
                let j = out.index_of(i);
                if j < before.len() {
                    assert(before[j] == i);
                    assert(before.contains(i));
                    assert(init[i] == parts[i]);
                }
            }
            if 0 <= i < parts.len() && (is_match(parts[i].name, needle) || is_match(
                parts[i].source,
                needle,
            )) {
                if i < init.len() {
                    assert(init[i] == parts[i]);
                    assert(before.contains(i));
                    let j = before.index_of(i);
                    assert(out[j] == i);
                } else {
                    assert(out[out.len() - 1] == i);
                }
            }
        }
    }
}

} // verus!
