//! Built-in filesystem browser used whenever a path needs choosing.

use vstd::prelude::*;
use vstd::string::*;

use crate::config::Field;
use crate::order;
use crate::paths;
use crate::paths::join_path;
use crate::text;
use crate::text::{to_chars, to_lowercase};

verus! {

/// Where the chosen directory should be written back to.
#[derive(Clone, Copy, PartialEq, Eq, Structural)]
pub enum Target {
    /// A row on the Settings screen.
    Setting(Field),
    /// The "[C] Change Path" branch of startup validation.
    Validation(Field),
    /// A library root chosen from the Projects screen. Everything under the old
    /// root follows it, and the location is saved as a project.
    ProjectRoot,
}

impl Target {
    pub open spec fn caption(self) -> Seq<char> {
        match self {
            Target::Setting(f) => f.caption(),
            Target::Validation(f) => f.caption(),
            Target::ProjectRoot => "Library Root for a project"@,
        }
    }

    pub fn label(self) -> (r: &'static str)
        ensures
            r@ == self.caption(),
    {
        match self {
            Target::Setting(f) => f.label(),
            Target::Validation(f) => f.label(),
            Target::ProjectRoot => "Library Root for a project",
        }
    }
}

/// One entry of a directory listing.
pub struct Seen {
    pub name: String,
    pub is_dir: bool,
}

#[verifier::ext_equal]
pub struct SeenView {
    pub name: Seq<char>,
    pub is_dir: bool,
}

impl View for Seen {
    type V = SeenView;

    open spec fn view(&self) -> SeenView {
        SeenView { name: self.name@, is_dir: self.is_dir }
    }
}

pub open spec fn seen_views(list: Seq<Seen>) -> Seq<SeenView> {
    list.map_values(|s: Seen| s@)
}

/// What listing a directory came to.
pub open spec fn listing_view(r: Result<Vec<Seen>, String>) -> Result<Seq<SeenView>, Seq<char>> {
    match r {
        Ok(list) => Ok(seen_views(list@)),
        Err(e) => Err(e@),
    }
}

pub struct Picker {
    pub cwd: String,
    pub entries: Vec<String>,
    pub selected: usize,
    pub target: Target,
    pub error: Option<String>,
}

#[verifier::ext_equal]
pub struct PickerView {
    pub cwd: Seq<char>,
    pub entries: Seq<Seq<char>>,
    pub selected: int,
    pub target: Target,
    pub error: Option<Seq<char>>,
}

impl View for Picker {
    type V = PickerView;

    open spec fn view(&self) -> PickerView {
        PickerView {
            cwd: self.cwd@,
            entries: text::views(self.entries@),
            selected: self.selected as int,
            target: self.target,
            error: text::opt_view(self.error),
        }
    }
}

/// `start` and every folder above it, nearest first.
pub open spec fn ancestors_of(start: Seq<char>) -> Seq<Seq<char>>
    decreases start.len(),
{
    match paths::parent_of(start) {
        Some(up) => if up.len() < start.len() {
            seq![start] + ancestors_of(up)
        } else {
            seq![start]
        },
        None => seq![start],
    }
}

/// The first of the folders from `i` on that exists, or the root.
pub open spec fn nearest_from(list: Seq<Seq<char>>, present: Seq<bool>, i: int) -> Seq<char>
    decreases list.len() - i,
{
    if i >= list.len() {
        "/"@
    } else if i < present.len() && present[i] {
        list[i]
    } else {
        nearest_from(list, present, i + 1)
    }
}

/// A folder that is shown: not a file, and not hidden.
pub open spec fn is_shown(s: SeenView) -> bool {
    s.is_dir && !(s.name.len() > 0 && s.name[0] == '.')
}

pub open spec fn shown(list: Seq<SeenView>) -> Seq<Seq<char>>
    decreases list.len(),
{
    if list.len() == 0 {
        Seq::empty()
    } else if is_shown(list.last()) {
        shown(list.drop_last()).push(list.last().name)
    } else {
        shown(list.drop_last())
    }
}

pub open spec fn lowered(list: Seq<Seq<char>>) -> Seq<Seq<char>> {
    list.map_values(|n: Seq<char>| text::lower(n))
}

/// The folders inside `cwd`, ordered by name without regard to case.
pub open spec fn entries_of(cwd: Seq<char>, list: Seq<SeenView>) -> Seq<Seq<char>> {
    order::arranged(shown(list), lowered(shown(list))).map_values(
        |n: Seq<char>| paths::below(cwd, n),
    )
}

/// `p` showing what listing its folder came to.
pub open spec fn reloaded(p: PickerView, listing: Result<Seq<SeenView>, Seq<char>>) -> PickerView {
    match listing {
        Ok(list) => PickerView {
            entries: entries_of(p.cwd, list),
            selected: 0,
            error: None,
            ..p
        },
        Err(e) => PickerView {
            entries: Seq::empty(),
            selected: 0,
            error: Some("cannot open "@ + p.cwd + ": "@ + e),
            ..p
        },
    }
}

/// The selection moved by `delta`, around the ends.
pub open spec fn stepped(p: PickerView, delta: int) -> PickerView {
    if p.entries.len() == 0 {
        p
    } else {
        PickerView { selected: (p.selected + delta) % (p.entries.len() as int), ..p }
    }
}

/// The highlighted row exists, if any row does.
pub open spec fn is_valid(p: PickerView) -> bool {
    p.entries.len() > 0 ==> 0 <= p.selected < p.entries.len()
}

/// The folders to try when opening at `start`: itself and everything above it,
/// nearest first.
pub fn candidates(start: &str) -> (r: Vec<String>)
    ensures
        text::views(r@) == ancestors_of(start@),
{
    let mut out: Vec<String> = Vec::new();
    let mut here = start.to_string();
    assert(text::views(out@) + ancestors_of(here@) =~= ancestors_of(start@));
    loop
        invariant
            text::views(out@) + ancestors_of(here@) == ancestors_of(start@),
        decreases here@.len(),
    {
        let ghost was = text::views(out@);
        let ghost now = here@;
        proof {
            paths::lemma_parent_shorter(now);
        }
        let above = paths::parent(here.as_str());
        out.push(here);
        assert(text::views(out@) =~= was.push(now));
        match above {
            Some(up) => {
                assert(was + (seq![now] + ancestors_of(up@)) =~= was.push(now) + ancestors_of(up@));
                here = up;
            },
            None => {
                assert(was + seq![now] =~= was.push(now));
                return out;
            },
        }
    }
}

/// The nearest of the folders that exists, given which do.
pub fn nearest(list: &Vec<String>, present: &Vec<bool>) -> (r: String)
    ensures
        r@ == nearest_from(text::views(list@), present@, 0),
{
    let ghost all = text::views(list@);
    let mut i: usize = 0;
    while i < list.len()
        invariant
            i <= list@.len(),
            all == text::views(list@),
            nearest_from(all, present@, i as int) == nearest_from(all, present@, 0),
        decreases list.len() - i,
    {
        if i < present.len() && present[i] {
            return list[i].clone();
        }
        i += 1;
    }
    "/".to_string()
}

fn shown_names(list: &Vec<Seen>) -> (r: Vec<String>)
    ensures
        text::views(r@) == shown(seen_views(list@)),
{
    let ghost all = seen_views(list@);
    let mut out: Vec<String> = Vec::new();
    let mut i: usize = 0;
    assert(all.take(0) =~= Seq::<SeenView>::empty());
    assert(text::views(out@) =~= Seq::<Seq<char>>::empty());
    while i < list.len()
        invariant
            i <= list@.len(),
            all == seen_views(list@),
            text::views(out@) == shown(all.take(i as int)),
        decreases list.len() - i,
    {
        assert(all.take(i + 1).drop_last() =~= all.take(i as int));
        assert(all.take(i + 1).last() == list@[i as int]@);
        let chars = to_chars(list[i].name.as_str());
        let hidden = chars.len() > 0 && chars[0] == '.';
        // Directories only: the picker selects folders.
        if list[i].is_dir && !hidden {
            let ghost was = text::views(out@);
            out.push(list[i].name.clone());
            assert(text::views(out@) =~= was.push(list@[i as int].name@));
        }
        i += 1;
    }
    assert(all.take(i as int) =~= all);
    out
}

fn sorted_entries(cwd: &str, list: &Vec<Seen>) -> (r: Vec<String>)
    ensures
        text::views(r@) == entries_of(cwd@, seen_views(list@)),
{
    let names = shown_names(list);
    let ghost all = text::views(names@);
    let mut keys: Vec<String> = Vec::new();
    let mut j: usize = 0;
    while j < names.len()
        invariant
            j <= names@.len(),
            keys@.len() == j,
            forall|m: int| 0 <= m < j ==> (#[trigger] keys@[m])@ == text::lower(names@[m]@),
        decreases names.len() - j,
    {
        keys.push(to_lowercase(names[j].as_str()));
        j += 1;
    }
    assert(text::views(keys@) =~= lowered(all));
    let ranks = order::rank(&keys);
    let mut out: Vec<String> = Vec::new();
    let mut n: usize = 0;
    while n < ranks.len()
        invariant
            n <= ranks@.len() == names@.len(),
            all == text::views(names@),
            out@.len() == n,
            forall|m: int| 0 <= m < ranks@.len() ==> (#[trigger] ranks@[m]) < names@.len(),
            forall|m: int|
                0 <= m < n ==> (#[trigger] out@[m])@ == paths::below(cwd@, all[ranks@[m] as int]),
        decreases ranks.len() - n,
    {
        out.push(join_path(cwd, names[ranks[n]].as_str()));
        n += 1;
    }
    assert(text::views(out@) =~= entries_of(cwd@, seen_views(list@)));
    out
}

impl Picker {
    /// Opens at `cwd`, the nearest existing ancestor of the configured path, and
    /// shows what listing it came to.
    pub fn new(cwd: String, target: Target, listing: Result<Vec<Seen>, String>) -> (r: Picker)
        ensures
            r@ == reloaded(
                PickerView {
                    cwd: cwd@,
                    entries: Seq::empty(),
                    selected: 0,
                    target,
                    error: None,
                },
                listing_view(listing),
            ),
            is_valid(r@),
    {
        let mut picker = Picker { cwd, entries: Vec::new(), selected: 0, target, error: None };
        assert(text::views(picker.entries@) =~= Seq::<Seq<char>>::empty());
        picker.reload(listing);
        picker
    }

    /// Shows what listing the current folder came to.
    pub fn reload(&mut self, listing: Result<Vec<Seen>, String>)
        ensures
            final(self)@ == reloaded(old(self)@, listing_view(listing)),
            is_valid(final(self)@),
    {
        match listing {
            Ok(list) => {
                self.entries = sorted_entries(self.cwd.as_str(), &list);
                self.error = None;
            },
            Err(e) => {
                let mut msg = "cannot open ".to_string();
                msg.append(self.cwd.as_str());
                msg.append(": ");
                msg.append(e.as_str());
                self.entries = Vec::new();
                assert(text::views(self.entries@) =~= Seq::<Seq<char>>::empty());
                self.error = Some(msg);
            },
        }
        self.selected = 0;
    }

    pub fn move_by(&mut self, delta: isize)
        requires
            is_valid(old(self)@),
        ensures
            final(self)@ == stepped(old(self)@, delta as int),
            is_valid(final(self)@),
    {
        let len: usize = self.entries.len();
        assert(text::views(self.entries@).len() == len);
        if len == 0 {
            return;
        }
        self.selected = around(self.selected, delta, len);
    }

    /// Enter: descend into the highlighted folder. The folder to list, if there
    /// is one.
    pub fn open(&mut self) -> (r: Option<String>)
        ensures
            match r {
                Some(dir) => old(self)@.selected < old(self)@.entries.len() && dir@
                    == old(self)@.entries[old(self)@.selected] && final(self)@ == (PickerView {
                    cwd: dir@,
                    ..old(self)@
                }),
                None => old(self)@.selected >= old(self)@.entries.len() && final(self)@
                    == old(self)@,
            },
    {
        assert(text::views(self.entries@).len() == self.entries@.len());
        if self.selected < self.entries.len() {
            let path = self.entries[self.selected].clone();
            self.cwd = path.clone();
            Some(path)
        } else {
            None
        }
    }

    /// Backspace: go to the parent folder. The folder to list, if there is one.
    pub fn parent(&mut self) -> (r: Option<String>)
        ensures
            text::opt_view(r) == paths::parent_of(old(self)@.cwd),
            match r {
                Some(dir) => final(self)@ == (PickerView { cwd: dir@, ..old(self)@ }),
                None => final(self)@ == old(self)@,
            },
    {
        match paths::parent(self.cwd.as_str()) {
            Some(up) => {
                self.cwd = up.clone();
                Some(up)
            },
            None => None,
        }
    }

    /// Space: accept the current directory.
    pub fn selection(&self) -> (r: String)
        ensures
            r@ == self@.cwd,
    {
        self.cwd.clone()
    }
}

/// `at` moved by `delta` around a ring of `len`.
pub(crate) fn around(at: usize, delta: isize, len: usize) -> (r: usize)
    requires
        at < len,
    ensures
        r == (at + delta) % (len as int),
        r < len,
{
    let ring: u128 = len as u128;
    let place: u128 = at as u128;
    if delta >= 0 {
        let far: u128 = delta as u128;
        let sum: u128 = place + far;
        assert(sum == at + delta);
        (sum % ring) as usize
    } else {
        let wide: i128 = delta as i128;
        let back: u128 = (-wide) as u128;
        let left: u128 = back % ring;
        let turned: u128 = place + ring - left;
        proof {
            lemma_ring(at as int, back as int, len as int);
        }
        (turned % ring) as usize
    }
}

proof fn lemma_ring(at: int, back: int, len: int)
    requires
        0 <= at < len,
        0 <= back,
    ensures
        (at + len - back % len) % len == (at - back) % len,
{
    vstd::arithmetic::div_mod::lemma_fundamental_div_mod(back, len);
    let q = back / len;
    assert(at + len - back % len == (at - back) + (q + 1) * len) by (nonlinear_arith)
        requires
            back == len * q + back % len,
    ;
    vstd::arithmetic::div_mod::lemma_mod_multiples_vanish(q + 1, at - back, len);
    assert((q + 1) * len + (at - back) == len * (q + 1) + (at - back)) by (nonlinear_arith);
}

/// Stepping forward and back again leaves the selection where it was, and a step
/// past either end comes in at the other.
pub proof fn lemma_stepped(p: PickerView, delta: int)
    requires
        is_valid(p),
    ensures
        is_valid(stepped(p, delta)),
        stepped(stepped(p, delta), -delta) == p,
        p.entries.len() > 0 && p.selected == 0 ==> stepped(p, -1).selected == p.entries.len() - 1,
        p.entries.len() > 0 && p.selected == p.entries.len() - 1 ==> stepped(p, 1).selected == 0,
{
    if p.entries.len() > 0 {
        let n = p.entries.len() as int;
        let there = (p.selected + delta) % n;
        vstd::arithmetic::div_mod::lemma_mod_bound(p.selected + delta, n);
        vstd::arithmetic::div_mod::lemma_add_mod_noop(p.selected + delta, -delta, n);
        vstd::arithmetic::div_mod::lemma_add_mod_noop(there, -delta, n);
        vstd::arithmetic::div_mod::lemma_mod_twice(p.selected + delta, n);
        vstd::arithmetic::div_mod::lemma_small_mod(p.selected as nat, n as nat);
        assert((there + (-delta)) % n == p.selected % n);
        if p.selected == 0 {
            vstd::arithmetic::div_mod::lemma_mod_multiples_vanish(-1, n - 1, n);
            vstd::arithmetic::div_mod::lemma_small_mod((n - 1) as nat, n as nat);
            assert(n * (-1) + (n - 1) == -1) by (nonlinear_arith);
        }
        if p.selected == n - 1 {
            vstd::arithmetic::div_mod::lemma_mod_self_0(n);
        }
        assert(stepped(stepped(p, delta), -delta) =~= p);
    }
}

} // verus!
