//! Unix paths, kept as text.
//!
//! A path is the text a user typed or a directory listing gave. Two texts name
//! the same place when their components agree: separators may be doubled or
//! trail, and a `.` inside a path stands for nothing.

use vstd::prelude::*;
use vstd::string::*;

use crate::text;
use crate::text::{joined, pieces, same, slice, to_chars};

verus! {

// ---------------------------------------------------------------- components

pub open spec fn is_absolute(p: Seq<char>) -> bool {
    p.len() > 0 && p[0] == '/'
}

/// The texts between the separators.
pub open spec fn segments(p: Seq<char>) -> Seq<Seq<char>> {
    text::split(p, '/')
}

/// A segment that names nothing: doubled separators leave an empty one, and `.`
/// is where the path already is.
pub open spec fn is_idle(segment: Seq<char>) -> bool {
    segment.len() == 0 || segment == seq!['.']
}

/// The segments that name something, in order.
pub open spec fn naming(segments: Seq<Seq<char>>) -> Seq<Seq<char>>
    decreases segments.len(),
{
    if segments.len() == 0 {
        Seq::empty()
    } else if is_idle(segments.last()) {
        naming(segments.drop_last())
    } else {
        naming(segments.drop_last()).push(segments.last())
    }
}

/// Where a path starts: at the root, at an explicit `.`, or at neither.
pub open spec fn anchor(p: Seq<char>) -> Seq<char> {
    if is_absolute(p) {
        seq!['/']
    } else if segments(p)[0] == seq!['.'] {
        seq!['.']
    } else {
        Seq::empty()
    }
}

pub open spec fn head(p: Seq<char>) -> Seq<Seq<char>> {
    if anchor(p).len() == 0 {
        Seq::empty()
    } else {
        seq![anchor(p)]
    }
}

/// The components of a path: where it starts, and the names that follow.
pub open spec fn components(p: Seq<char>) -> Seq<Seq<char>> {
    head(p) + naming(segments(p))
}

/// Both texts name the same place.
pub open spec fn same_place(a: Seq<char>, b: Seq<char>) -> bool {
    components(a) == components(b)
}

/// `p` is `base` or lies below it.
pub open spec fn within(p: Seq<char>, base: Seq<char>) -> bool {
    components(base).len() <= components(p).len() && components(p).take(
        components(base).len() as int,
    ) == components(base)
}

/// A single name that can stand as the last component of a path.
pub open spec fn is_name(s: Seq<char>) -> bool {
    !is_idle(s) && !s.contains('/')
}

// ------------------------------------------------------------ taking apart

/// The segments without the idle ones at the end.
pub open spec fn settled(segments: Seq<Seq<char>>) -> Seq<Seq<char>>
    decreases segments.len(),
{
    if segments.len() > 0 && is_idle(segments.last()) {
        settled(segments.drop_last())
    } else {
        segments
    }
}

/// What follows the first `n` names, starting at a name.
pub open spec fn following(segments: Seq<Seq<char>>, n: nat) -> Seq<Seq<char>>
    decreases segments.len(),
{
    if segments.len() == 0 {
        segments
    } else if is_idle(segments[0]) {
        following(segments.drop_first(), n)
    } else if n == 0 {
        segments
    } else {
        following(segments.drop_first(), (n - 1) as nat)
    }
}

pub open spec fn slash() -> Seq<char> {
    seq!['/']
}

/// The path that ends with the last of `segments`, or the start of `p` when
/// none is left.
pub open spec fn reaching(p: Seq<char>, segments: Seq<Seq<char>>) -> Seq<char> {
    if segments.len() == 0 {
        anchor(p)
    } else {
        text::join(segments, slash())
    }
}

/// The path that `p` hangs from; the root and the empty path hang from nothing.
pub open spec fn parent_of(p: Seq<char>) -> Option<Seq<char>> {
    let kept = settled(segments(p));
    if kept.len() > 0 {
        Some(reaching(p, settled(kept.drop_last())))
    } else if anchor(p) == seq!['.'] {
        Some(Seq::empty())
    } else {
        None
    }
}

/// The last name in `p`, unless that is `..` or there is none.
pub open spec fn leaf_of(p: Seq<char>) -> Option<Seq<char>> {
    let kept = settled(segments(p));
    if kept.len() > 0 && kept.last() != seq!['.', '.'] {
        Some(kept.last())
    } else {
        None
    }
}

/// What is left of `p` when `base` is taken off its front.
pub open spec fn rest_of(p: Seq<char>, base: Seq<char>) -> Seq<char> {
    let taken = components(base).len();
    if taken == 0 {
        reaching(p, settled(segments(p)))
    } else {
        text::join(settled(following(segments(p), (taken - head(p).len()) as nat)), slash())
    }
}

/// The place of the last `.` in a name, if it has one.
pub open spec fn last_dot(name: Seq<char>) -> Option<int>
    decreases name.len(),
{
    if name.len() == 0 {
        None
    } else if name.last() == '.' {
        Some(name.len() - 1)
    } else {
        last_dot(name.drop_last())
    }
}

/// A name without its extension. A leading `.` does not start an extension.
pub open spec fn name_stem(name: Seq<char>) -> Seq<char> {
    match last_dot(name) {
        Some(i) => if i > 0 {
            name.take(i)
        } else {
            name
        },
        None => name,
    }
}

pub open spec fn name_extension(name: Seq<char>) -> Option<Seq<char>> {
    match last_dot(name) {
        Some(i) => if i > 0 {
            Some(name.skip(i + 1))
        } else {
            None
        },
        None => None,
    }
}

pub open spec fn stem_of(p: Seq<char>) -> Option<Seq<char>> {
    match leaf_of(p) {
        Some(name) => Some(name_stem(name)),
        None => None,
    }
}

pub open spec fn extension_of(p: Seq<char>) -> Option<Seq<char>> {
    match leaf_of(p) {
        Some(name) => name_extension(name),
        None => None,
    }
}

// ------------------------------------------------------- putting together

/// `p` seen from `base`; an absolute `p` needs no base.
pub open spec fn below(base: Seq<char>, p: Seq<char>) -> Seq<char> {
    if is_absolute(p) || base.len() == 0 {
        p
    } else if base.last() == '/' {
        base + p
    } else {
        base + slash() + p
    }
}

/// `p` with the extension of its last name replaced by `extension`, which is not
/// empty. A path without a last name stays as it is.
pub open spec fn re_extended(p: Seq<char>, extension: Seq<char>) -> Seq<char> {
    match leaf_of(p) {
        Some(name) => text::join(
            settled(segments(p)).drop_last().push(name_stem(name) + seq!['.'] + extension),
            slash(),
        ),
        None => p,
    }
}

// ------------------------------------------------------------ laws

proof fn lemma_naming_append(a: Seq<Seq<char>>, b: Seq<Seq<char>>)
    ensures
        naming(a + b) == naming(a) + naming(b),
    decreases b.len(),
{
    if b.len() == 0 {
        assert(a + b =~= a);
    } else {
        lemma_naming_append(a, b.drop_last());
        assert((a + b).drop_last() =~= a + b.drop_last());
        assert((naming(a) + naming(b.drop_last())).push(b.last()) =~= naming(a) + naming(
            b.drop_last(),
        ).push(b.last()));
    }
}

proof fn lemma_naming_none()
    ensures
        naming(seq![Seq::<char>::empty()]) == Seq::<Seq<char>>::empty(),
{
    let none = seq![Seq::<char>::empty()];
    assert(naming(none.drop_last()) =~= Seq::<Seq<char>>::empty());
}

proof fn lemma_naming_first(list: Seq<Seq<char>>)
    requires
        list.len() > 0,
    ensures
        naming(list) == (if is_idle(list[0]) {
            naming(list.drop_first())
        } else {
            seq![list[0]] + naming(list.drop_first())
        }),
{
    assert(list =~= seq![list[0]] + list.drop_first());
    lemma_naming_append(seq![list[0]], list.drop_first());
    assert(seq![list[0]].drop_last() =~= Seq::<Seq<char>>::empty());
    assert(naming(seq![list[0]].drop_last()) =~= Seq::<Seq<char>>::empty());
    if is_idle(list[0]) {
        assert(naming(seq![list[0]]) =~= Seq::<Seq<char>>::empty());
    } else {
        assert(naming(seq![list[0]]) =~= seq![list[0]]);
    }
    assert(naming(list) =~= naming(seq![list[0]]) + naming(list.drop_first()));
}

proof fn lemma_settled(list: Seq<Seq<char>>)
    ensures
        settled(list).len() <= list.len(),
        settled(list) == list.take(settled(list).len() as int),
        settled(list).len() > 0 ==> !is_idle(settled(list).last()),
        naming(settled(list)) == naming(list),
    decreases list.len(),
{
    if list.len() > 0 && is_idle(list.last()) {
        lemma_settled(list.drop_last());
        assert(settled(list) =~= list.take(settled(list).len() as int));
    } else {
        assert(list.take(list.len() as int) =~= list);
    }
}

proof fn lemma_following(list: Seq<Seq<char>>, n: nat)
    requires
        n <= naming(list).len(),
    ensures
        following(list, n).len() <= list.len(),
        following(list, n) == list.skip(list.len() - following(list, n).len()),
        following(list, n).len() > 0 ==> !is_idle(following(list, n)[0]),
        naming(following(list, n)) == naming(list).skip(n as int),
    decreases list.len(),
{
    if list.len() == 0 {
        assert(list.skip(0) =~= list);
        assert(naming(list).skip(0) =~= naming(list));
    } else {
        lemma_naming_first(list);
        let rest = list.drop_first();
        if is_idle(list[0]) {
            lemma_following(rest, n);
            let k = following(rest, n).len();
            assert(rest.skip(rest.len() - k) =~= list.skip(list.len() - k));
        } else if n == 0 {
            assert(list.skip(0) =~= list);
            assert(naming(list).skip(0) =~= naming(list));
        } else {
            lemma_following(rest, (n - 1) as nat);
            let k = following(rest, (n - 1) as nat).len();
            assert(rest.skip(rest.len() - k) =~= list.skip(list.len() - k));
            assert(naming(rest).skip(n - 1) =~= naming(list).skip(n as int));
        }
    }
}

/// Joining adds the names of the second path to the components of the first.
pub proof fn lemma_below(base: Seq<char>, p: Seq<char>)
    requires
        base.len() > 0,
        !is_absolute(p),
    ensures
        components(below(base, p)) == components(base) + naming(segments(p)),
{
    let whole = below(base, p);
    text::lemma_split_len(base, '/');
    if base.last() == '/' {
        let init = base.drop_last();
        assert(base =~= init.push('/'));
        text::lemma_split_append(init, p, '/');
        text::lemma_split_append(init, Seq::empty(), '/');
        assert(init.push('/') + Seq::<char>::empty() =~= base);
        text::lemma_split_len(init, '/');
        let none = seq![Seq::<char>::empty()];
        assert(segments(base) == segments(init) + none);
        lemma_naming_append(segments(init), none);
        lemma_naming_none();
        assert(naming(segments(base)) =~= naming(segments(init)));
        lemma_naming_append(segments(init), segments(p));
        assert(segments(whole)[0] == segments(init)[0]);
        assert(segments(base)[0] == segments(init)[0]);
    } else {
        assert(whole =~= base.push('/') + p);
        text::lemma_split_append(base, p, '/');
        lemma_naming_append(segments(base), segments(p));
        assert(segments(whole)[0] == segments(base)[0]);
    }
    assert(whole[0] == base[0]);
    assert(components(whole) =~= components(base) + naming(segments(p)));
}

/// A name stands for one component.
pub proof fn lemma_name(name: Seq<char>)
    requires
        is_name(name),
    ensures
        !is_absolute(name),
        naming(segments(name)) == seq![name],
        components(name) == seq![name],
{
    if is_absolute(name) {
        assert(name.contains(name[0]));
    }
    text::lemma_split_plain(name, '/');
    lemma_naming_first(seq![name]);
    assert(seq![name].drop_first() =~= Seq::<Seq<char>>::empty());
    assert(naming(seq![name]) =~= seq![name]);
    assert(components(name) =~= seq![name]);
}

/// A name joined to a path is the path's components with the name at the end.
pub proof fn lemma_below_name(base: Seq<char>, name: Seq<char>)
    requires
        is_name(name),
    ensures
        components(below(base, name)) == components(base).push(name),
        within(below(base, name), base),
{
    lemma_name(name);
    if base.len() == 0 {
        lemma_empty();
        assert(base =~= Seq::<char>::empty());
        assert(components(base).push(name) =~= seq![name]);
    } else {
        lemma_below(base, name);
        assert(components(base) + seq![name] =~= components(base).push(name));
    }
    assert(components(below(base, name)).take(components(base).len() as int) =~= components(base));
}

/// The empty path has no components.
pub proof fn lemma_empty()
    ensures
        components(Seq::empty()) == Seq::<Seq<char>>::empty(),
{
    let none = seq![Seq::<char>::empty()];
    assert(segments(Seq::empty()) == none);
    lemma_naming_none();
    assert(components(Seq::empty()) =~= Seq::<Seq<char>>::empty());
}

/// A path without components is the empty path.
pub proof fn lemma_only_empty(p: Seq<char>)
    requires
        components(p).len() == 0,
    ensures
        p.len() == 0,
{
    if p.len() > 0 {
        text::lemma_split_first(p, '/');
        text::lemma_split_len(p, '/');
        lemma_naming_first(segments(p));
    }
}

/// The last name of a path is a name.
pub proof fn lemma_leaf(p: Seq<char>)
    ensures
        leaf_of(p) matches Some(name) ==> is_name(name),
{
    lemma_settled(segments(p));
    text::lemma_split_free(p, '/');
    let kept = settled(segments(p));
    if kept.len() > 0 {
        assert(kept.last() == segments(p)[kept.len() - 1]);
    }
}

proof fn lemma_naming_names(list: Seq<Seq<char>>)
    requires
        forall|i: int| 0 <= i < list.len() ==> !(#[trigger] list[i]).contains('/'),
    ensures
        forall|i: int| 0 <= i < naming(list).len() ==> is_name(#[trigger] naming(list)[i]),
    decreases list.len(),
{
    if list.len() > 0 {
        let init = list.drop_last();
        assert forall|i: int| 0 <= i < init.len() implies !(#[trigger] init[i]).contains('/') by {
            assert(init[i] == list[i]);
        }
        lemma_naming_names(init);
        let before = naming(init);
        let out = naming(list);
        assert forall|i: int| 0 <= i < out.len() implies is_name(#[trigger] out[i]) by {
            if i < before.len() {
                assert(out[i] == before[i]);
            } else {
                assert(out[i] == list[list.len() - 1]);
            }
        }
    }
}

/// Every component but the one a path may start at is a name.
pub proof fn lemma_names(p: Seq<char>)
    ensures
        forall|i: int|
            head(p).len() <= i < components(p).len() ==> is_name(#[trigger] components(p)[i]),
        head(p).len() == 0 <==> components(p).len() == 0 || is_name(components(p)[0]),
{
    text::lemma_split_free(p, '/');
    lemma_naming_names(segments(p));
    assert forall|i: int| head(p).len() <= i < components(p).len() implies is_name(
        #[trigger] components(p)[i],
    ) by {
        assert(components(p)[i] == naming(segments(p))[i - head(p).len()]);
    }
    if head(p).len() > 0 {
        assert(components(p)[0] == anchor(p));
        assert(seq!['/'].contains(seq!['/'][0]));
    }
}

/// What is left below `base` holds the components that `base` does not. Below
/// the empty path that is so of a path that starts with a name.
pub proof fn lemma_rest(p: Seq<char>, base: Seq<char>)
    requires
        base.len() > 0 || head(p).len() == 0,
        within(p, base),
    ensures
        !is_absolute(rest_of(p, base)),
        naming(segments(rest_of(p, base))) == components(p).skip(components(base).len() as int),
        components(rest_of(p, base)) == components(p).skip(components(base).len() as int),
{
    if components(base).len() == 0 {
        lemma_only_empty(base);
    }
    if base.len() == 0 {
        lemma_empty();
        assert(base =~= Seq::<char>::empty());
        if p.len() > 0 {
            text::lemma_split_first(p, '/');
        } else {
            text::lemma_split_plain(p, '/');
            assert(segments(p).drop_last() =~= Seq::<Seq<char>>::empty());
            assert(settled(segments(p).drop_last()).len() == 0);
        }
    }
    let taken = components(base).len();
    let all = segments(p);
    let n = (taken - head(p).len()) as nat;
    lemma_following(all, n);
    let after = following(all, n);
    lemma_settled(after);
    let kept = settled(after);
    let rest = rest_of(p, base);
    text::lemma_split_free(p, '/');
    assert(components(p).skip(taken as int) =~= naming(all).skip(n as int));
    if kept.len() == 0 {
        assert(rest =~= Seq::<char>::empty());
        lemma_empty();
        assert(naming(kept) =~= Seq::<Seq<char>>::empty());
        let none = seq![Seq::<char>::empty()];
        assert(segments(rest) == none);
        lemma_naming_none();
    } else {
        assert forall|i: int| 0 <= i < kept.len() implies !(#[trigger] kept[i]).contains('/') by {
            assert(kept[i] == all[all.len() - after.len() + i]);
        }
        text::lemma_split_join(kept, '/');
        assert(kept[0] == after[0]);
        if is_absolute(rest) {
            text::lemma_split_first(rest, '/');
        }
        assert(components(rest) =~= naming(kept));
    }
}

/// Taking a path off one root and putting it under another keeps its place.
pub proof fn lemma_moved(p: Seq<char>, from: Seq<char>, to: Seq<char>)
    requires
        from.len() > 0 || head(p).len() == 0,
        within(p, from),
    ensures
        components(below(to, rest_of(p, from))) == components(to) + components(p).skip(
            components(from).len() as int,
        ),
        within(below(to, rest_of(p, from)), to),
{
    lemma_rest(p, from);
    let target = below(to, rest_of(p, from));
    if to.len() == 0 {
        lemma_empty();
        assert(to =~= Seq::<char>::empty());
        assert(components(to) + components(p).skip(components(from).len() as int) =~= components(
            p,
        ).skip(components(from).len() as int));
    } else {
        lemma_below(to, rest_of(p, from));
    }
    assert(components(target).take(components(to).len() as int) =~= components(to));
}

/// `within` is reflexive and transitive.
pub proof fn lemma_within(a: Seq<char>, b: Seq<char>, c: Seq<char>)
    ensures
        within(a, a),
        within(a, b) && within(b, c) ==> within(a, c),
{
    assert(components(a).take(components(a).len() as int) =~= components(a));
    if within(a, b) && within(b, c) {
        assert(components(a).take(components(c).len() as int) =~= components(b).take(
            components(c).len() as int,
        ));
    }
}

proof fn lemma_join_longer(list: Seq<Seq<char>>, k: int)
    requires
        0 < k < list.len(),
    ensures
        text::join(list.take(k), slash()).len() < text::join(list, slash()).len(),
    decreases list.len(),
{
    let init = list.drop_last();
    if k < init.len() {
        lemma_join_longer(init, k);
        assert(init.take(k) =~= list.take(k));
    } else {
        assert(list.take(k) =~= init);
    }
}

/// A parent is a shorter path.
pub proof fn lemma_parent_shorter(p: Seq<char>)
    ensures
        parent_of(p) matches Some(up) ==> up.len() < p.len(),
{
    let all = segments(p);
    let kept = settled(all);
    text::lemma_join_split(p, '/');
    text::lemma_split_len(p, '/');
    lemma_settled(all);
    if kept.len() > 0 {
        let up = settled(kept.drop_last());
        lemma_settled(kept.drop_last());
        if up.len() > 0 {
            assert(up =~= all.take(up.len() as int));
            lemma_join_longer(all, up.len() as int);
        } else if anchor(p).len() > 0 {
            // A name follows the start of the path.
            if p.len() == 1 {
                let init = p.drop_last();
                assert(init =~= Seq::<char>::empty());
                lemma_short(p);
                assert(false);
            }
        } else if p.len() == 0 {
            assert(p =~= Seq::<char>::empty());
            assert(all =~= seq![Seq::<char>::empty()]);
            assert(false);
        }
    } else if p.len() == 0 {
        assert(p =~= Seq::<char>::empty());
        assert(all =~= seq![Seq::<char>::empty()]);
    }
}

/// A path of one character that starts somewhere holds no name.
proof fn lemma_short(p: Seq<char>)
    requires
        p.len() == 1,
        anchor(p).len() > 0,
    ensures
        settled(segments(p)).len() == 0,
{
    let init = p.drop_last();
    assert(init =~= Seq::<char>::empty());
    let none = Seq::<char>::empty();
    assert(segments(init) =~= seq![none]);
    reveal_with_fuel(settled, 4);
    if p[0] == '/' {
        assert(segments(p) =~= seq![none, none]);
        let one = seq![none, none].drop_last();
        assert(one =~= seq![none]);
        assert(one.drop_last() =~= Seq::<Seq<char>>::empty());
        assert(settled(one).len() == 0);
    } else {
        assert(segments(p)[0] =~= p);
        assert(segments(p) =~= seq![p]);
        assert(seq![p].drop_last() =~= Seq::<Seq<char>>::empty());
        assert(is_idle(p));
    }
}

// ------------------------------------------------------------ executable

fn idle(segment: &str) -> (r: bool)
    ensures
        r == is_idle(segment@),
{
    proof {
        reveal_strlit(".");
        assert("."@ =~= seq!['.']);
    }
    segment.is_empty() || same(segment, ".")
}

pub fn absolute(p: &str) -> (r: bool)
    ensures
        r == is_absolute(p@),
{
    let chars = to_chars(p);
    chars.len() > 0 && chars[0] == '/'
}

pub(crate) fn names(list: &Vec<String>) -> (r: Vec<String>)
    ensures
        text::views(r@) == naming(text::views(list@)),
{
    let mut out: Vec<String> = Vec::new();
    let mut i: usize = 0;
    assert(text::views(list@).take(0) =~= Seq::<Seq<char>>::empty());
    while i < list.len()
        invariant
            i <= list.len(),
            text::views(out@) == naming(text::views(list@).take(i as int)),
        decreases list.len() - i,
    {
        let ghost next = text::views(list@).take(i + 1);
        let ghost was = text::views(out@);
        assert(next.drop_last() =~= text::views(list@).take(i as int));
        if !idle(list[i].as_str()) {
            out.push(list[i].clone());
            assert(text::views(out@) =~= was.push(list@[i as int]@));
        }
        i += 1;
    }
    assert(text::views(list@).take(i as int) =~= text::views(list@));
    out
}

fn start(p: &str) -> (r: String)
    ensures
        r@ == anchor(p@),
{
    let list = pieces(p, '/');
    proof {
        text::lemma_split_len(p@, '/');
        assert(text::views(list@).len() == list@.len());
        assert(text::views(list@)[0] == list@[0]@);
        reveal_strlit(".");
        assert("."@ =~= seq!['.']);
    }
    let mut out = String::new();
    if absolute(p) {
        out.push('/');
        assert(out@ =~= seq!['/']);
    } else if same(list[0].as_str(), ".") {
        out.push('.');
        assert(out@ =~= seq!['.']);
    }
    out
}

/// The components of a path.
pub fn split_path(p: &str) -> (r: Vec<String>)
    ensures
        text::views(r@) == components(p@),
{
    let list = pieces(p, '/');
    let mut body = names(&list);
    let first = start(p);
    let mut out: Vec<String> = Vec::new();
    if !first.as_str().is_empty() {
        out.push(first);
    }
    assert(text::views(out@) =~= head(p@));
    let ghost a = out@;
    let ghost b = body@;
    out.append(&mut body);
    assert(text::views(out@) =~= text::views(a) + text::views(b));
    out
}

fn same_lists(a: &Vec<String>, b: &Vec<String>, n: usize) -> (r: bool)
    requires
        n <= a@.len(),
        n <= b@.len(),
    ensures
        r == (text::views(a@).take(n as int) == text::views(b@).take(n as int)),
{
    let mut i: usize = 0;
    while i < n
        invariant
            i <= n <= a@.len(),
            n <= b@.len(),
            forall|j: int| 0 <= j < i ==> a@[j]@ == b@[j]@,
        decreases n - i,
    {
        if !same(a[i].as_str(), b[i].as_str()) {
            assert(text::views(a@).take(n as int)[i as int] != text::views(b@).take(n as int)[i as int]);
            return false;
        }
        i += 1;
    }
    assert(text::views(a@).take(n as int) =~= text::views(b@).take(n as int));
    true
}

/// Whether both texts name the same place.
pub fn same_path(a: &str, b: &str) -> (r: bool)
    ensures
        r == same_place(a@, b@),
{
    let x = split_path(a);
    let y = split_path(b);
    assert(text::views(x@).len() == x@.len());
    assert(text::views(y@).len() == y@.len());
    if x.len() != y.len() {
        return false;
    }
    assert(text::views(x@).take(x@.len() as int) =~= text::views(x@));
    assert(text::views(y@).take(y@.len() as int) =~= text::views(y@));
    same_lists(&x, &y, x.len())
}

/// Whether `p` is `base` or lies below it.
pub fn starts_with(p: &str, base: &str) -> (r: bool)
    ensures
        r == within(p@, base@),
{
    let x = split_path(p);
    let y = split_path(base);
    assert(text::views(x@).len() == x@.len());
    assert(text::views(y@).len() == y@.len());
    if x.len() < y.len() {
        return false;
    }
    assert(text::views(y@).take(y@.len() as int) =~= text::views(y@));
    same_lists(&x, &y, y.len())
}

/// `p` seen from `base`.
pub fn join_path(base: &str, p: &str) -> (r: String)
    ensures
        r@ == below(base@, p@),
{
    let chars = to_chars(base);
    if absolute(p) || chars.len() == 0 {
        return p.to_string();
    }
    let mut out = base.to_string();
    if chars[chars.len() - 1] != '/' {
        out.push('/');
        assert(out@ =~= base@ + slash());
    }
    out.append(p);
    out
}

/// The first `to` texts of a list, with the idle ones at their end left out.
fn settle(list: &Vec<String>, to: usize) -> (r: Vec<String>)
    requires
        to <= list@.len(),
    ensures
        text::views(r@) == settled(text::views(list@).take(to as int)),
{
    let mut n: usize = to;
    while n > 0 && idle(list[n - 1].as_str())
        invariant
            n <= to <= list@.len(),
            settled(text::views(list@).take(n as int)) == settled(text::views(list@).take(to as int)),
        decreases n,
    {
        assert(text::views(list@).take(n as int).drop_last() =~= text::views(list@).take(n - 1));
        n -= 1;
    }
    let out = copy_range(list, 0, n);
    assert(text::views(list@).subrange(0, n as int) =~= text::views(list@).take(n as int));
    out
}

fn copy_range(list: &Vec<String>, from: usize, to: usize) -> (r: Vec<String>)
    requires
        from <= to <= list@.len(),
    ensures
        text::views(r@) == text::views(list@).subrange(from as int, to as int),
{
    let mut out: Vec<String> = Vec::new();
    let mut i: usize = from;
    while i < to
        invariant
            from <= i <= to <= list@.len(),
            text::views(out@) == text::views(list@).subrange(from as int, i as int),
        decreases to - i,
    {
        let ghost was = text::views(out@);
        out.push(list[i].clone());
        assert(text::views(out@) =~= was.push(list@[i as int]@));
        assert(text::views(out@) =~= text::views(list@).subrange(from as int, i + 1));
        i += 1;
    }
    out
}

fn reach(p: &str, list: &Vec<String>) -> (r: String)
    ensures
        r@ == reaching(p@, text::views(list@)),
{
    assert(text::views(list@).len() == list@.len());
    if list.len() == 0 {
        start(p)
    } else {
        proof {
            reveal_strlit("/");
            assert("/"@ =~= slash());
        }
        joined(list, "/")
    }
}

fn settled_pieces(p: &str) -> (r: Vec<String>)
    ensures
        text::views(r@) == settled(segments(p@)),
        r@.len() == settled(segments(p@)).len(),
{
    let list = pieces(p, '/');
    assert(text::views(list@).take(list@.len() as int) =~= text::views(list@));
    let r = settle(&list, list.len());
    assert(text::views(r@).len() == r@.len());
    r
}

/// The path that `p` hangs from.
pub fn parent(p: &str) -> (r: Option<String>)
    ensures
        text::opt_view(r) == parent_of(p@),
{
    let kept = settled_pieces(p);
    if kept.len() > 0 {
        assert(text::views(kept@).take(kept@.len() - 1) =~= text::views(kept@).drop_last());
        let up = settle(&kept, kept.len() - 1);
        Some(reach(p, &up))
    } else {
        let first = start(p);
        proof {
            reveal_strlit(".");
            assert("."@ =~= seq!['.']);
        }
        if same(first.as_str(), ".") {
            let none = String::new();
            assert(none@ =~= Seq::<char>::empty());
            Some(none)
        } else {
            None
        }
    }
}

/// The last name in `p`.
pub fn file_name(p: &str) -> (r: Option<String>)
    ensures
        text::opt_view(r) == leaf_of(p@),
{
    let kept = settled_pieces(p);
    if kept.len() == 0 {
        return None;
    }
    let name = kept[kept.len() - 1].clone();
    proof {
        assert(text::views(kept@).last() == kept@.last()@);
        reveal_strlit("..");
        assert(".."@ =~= seq!['.', '.']);
    }
    if same(name.as_str(), "..") {
        None
    } else {
        Some(name)
    }
}

/// What is left of `p` below `base`; nothing when `p` is elsewhere.
pub fn strip_prefix(p: &str, base: &str) -> (r: Option<String>)
    ensures
        text::opt_view(r) == (if within(p@, base@) {
            Some(rest_of(p@, base@))
        } else {
            None
        }),
{
    if !starts_with(p, base) {
        return None;
    }
    let whole = split_path(base);
    assert(text::views(whole@).len() == whole@.len());
    if whole.len() == 0 {
        let kept = settled_pieces(p);
        return Some(reach(p, &kept));
    }
    let first = start(p);
    let mut n: usize = whole.len();
    assert(head(p@).len() <= 1);
    if !first.as_str().is_empty() {
        n -= 1;
    }
    let list = pieces(p, '/');
    let mut i: usize = 0;
    let ghost wanted = following(text::views(list@), n as nat);
    assert(text::views(list@).skip(0) =~= text::views(list@));
    while i < list.len()
        invariant_except_break
            i <= list.len(),
            following(text::views(list@).skip(i as int), n as nat) == wanted,
        ensures
            i <= list.len(),
            text::views(list@).skip(i as int) == wanted,
        decreases list.len() - i,
    {
        let ghost here = text::views(list@).skip(i as int);
        assert(here.drop_first() =~= text::views(list@).skip(i + 1));
        assert(here[0] == list@[i as int]@);
        if !idle(list[i].as_str()) {
            if n == 0 {
                break;
            }
            n -= 1;
        }
        i += 1;
    }
    let after = copy_range(&list, i, list.len());
    assert(text::views(list@).subrange(i as int, list@.len() as int) =~= text::views(list@).skip(i as int));
    assert(text::views(after@).take(after@.len() as int) =~= text::views(after@));
    let kept = settle(&after, after.len());
    proof {
        reveal_strlit("/");
        assert("/"@ =~= slash());
    }
    Some(joined(&kept, "/"))
}

fn find_dot(name: &Vec<char>) -> (r: Option<usize>)
    ensures
        match r {
            Some(i) => last_dot(name@) == Some(i as int) && i < name@.len(),
            None => last_dot(name@) is None,
        },
{
    let mut n: usize = name.len();
    assert(name@.take(n as int) =~= name@);
    while n > 0
        invariant
            n <= name@.len(),
            last_dot(name@.take(n as int)) == last_dot(name@),
        decreases n,
    {
        assert(name@.take(n as int).drop_last() =~= name@.take(n - 1));
        if name[n - 1] == '.' {
            return Some(n - 1);
        }
        n -= 1;
    }
    None
}

/// A name without its extension.
pub fn stem_of_name(name: &str) -> (r: String)
    ensures
        r@ == name_stem(name@),
{
    let chars = to_chars(name);
    match find_dot(&chars) {
        Some(i) => {
            if i > 0 {
                assert(chars@.subrange(0, i as int) =~= chars@.take(i as int));
                slice(&chars, 0, i)
            } else {
                name.to_string()
            }
        },
        None => name.to_string(),
    }
}

/// What follows the last `.` of a name.
pub fn extension_of_name(name: &str) -> (r: Option<String>)
    ensures
        text::opt_view(r) == name_extension(name@),
{
    let chars = to_chars(name);
    match find_dot(&chars) {
        Some(i) => {
            if i > 0 {
                let n: usize = chars.len();
                assert(chars@.subrange(i + 1, n as int) =~= chars@.skip(i + 1));
                Some(slice(&chars, i + 1, n))
            } else {
                None
            }
        },
        None => None,
    }
}

/// The last name in `p` without its extension.
pub fn file_stem(p: &str) -> (r: Option<String>)
    ensures
        text::opt_view(r) == stem_of(p@),
{
    match file_name(p) {
        None => None,
        Some(name) => Some(stem_of_name(name.as_str())),
    }
}

/// What follows the last `.` of the last name in `p`.
pub fn extension(p: &str) -> (r: Option<String>)
    ensures
        text::opt_view(r) == extension_of(p@),
{
    match file_name(p) {
        None => None,
        Some(name) => extension_of_name(name.as_str()),
    }
}

/// `p` with its extension replaced.
pub fn with_extension(p: &str, extension: &str) -> (r: String)
    requires
        extension@.len() > 0,
    ensures
        r@ == re_extended(p@, extension@),
{
    match file_stem(p) {
        None => p.to_string(),
        Some(stem) => {
            let kept = settled_pieces(p);
            let mut out = copy_range(&kept, 0, kept.len() - 1);
            assert(text::views(kept@).subrange(0, kept@.len() - 1) =~= text::views(kept@).drop_last());
            let mut name = stem;
            name.push('.');
            assert(name@ =~= stem@ + seq!['.']);
            name.append(extension);
            let ghost was = text::views(out@);
            out.push(name);
            assert(text::views(out@) =~= was.push(name@));
            proof {
                reveal_strlit("/");
                assert("/"@ =~= slash());
            }
            joined(&out, "/")
        },
    }
}

} // verus!
