//! Writing s-expressions.
//!
//! A form is built from its parts, so a text made here opens and closes evenly
//! whatever names and numbers go into it.

use vstd::prelude::*;
use vstd::string::*;

use crate::online;
use crate::online::escape;
use crate::symlib;
use crate::text;
use crate::text::to_chars;

verus! {

/// `inner` as a form.
pub open spec fn form(inner: Seq<char>) -> Seq<char> {
    seq!['('] + inner + seq![')']
}

/// `value` as a string literal.
pub open spec fn literal(value: Seq<char>) -> Seq<char> {
    seq!['"'] + online::escaped(value) + seq!['"']
}

/// `inner` as a form.
pub fn paren(inner: &str) -> (r: String)
    ensures
        r@ == form(inner@),
{
    let mut out = String::new();
    out.push('(');
    assert(out@ =~= seq!['(']);
    out.append(inner);
    out.push(')');
    assert(out@ =~= form(inner@));
    out
}

/// `value` as a string literal.
pub fn quote(value: &str) -> (r: String)
    ensures
        r@ == literal(value@),
{
    let mut out = String::new();
    let inner = escape(value);
    out.push('"');
    assert(out@ =~= seq!['"']);
    out.append(inner.as_str());
    out.push('"');
    assert(out@ =~= literal(value@));
    out
}

/// A form of a word and one value.
pub open spec fn entry(word: Seq<char>, value: Seq<char>) -> Seq<char> {
    form(word + " "@ + value)
}

/// A form of a word and one value.
pub fn one(word: &str, value: &str) -> (r: String)
    ensures
        r@ == entry(word@, value@),
{
    let mut inner = word.to_string();
    inner.append(" ");
    inner.append(value);
    paren(inner.as_str())
}

/// A form of a word and a pair of coordinates.
pub open spec fn spot(word: Seq<char>, at: (Seq<char>, Seq<char>)) -> Seq<char> {
    form(word + " "@ + at.0 + " "@ + at.1)
}

/// A form of a word and a pair of coordinates.
pub fn place(word: &str, x: &str, y: &str) -> (r: String)
    ensures
        r@ == spot(word@, (x@, y@)),
{
    let mut inner = word.to_string();
    inner.append(" ");
    inner.append(x);
    inner.append(" ");
    inner.append(y);
    paren(inner.as_str())
}

/// The points as `(xy …)` forms, with a space between neighbours.
pub open spec fn spots(points: Seq<(Seq<char>, Seq<char>)>) -> Seq<char>
    decreases points.len(),
{
    if points.len() == 0 {
        Seq::empty()
    } else if points.len() == 1 {
        spot("xy"@, points[0])
    } else {
        spots(points.drop_last()) + " "@ + spot("xy"@, points.last())
    }
}

pub open spec fn pair_views(list: Seq<(String, String)>) -> Seq<(Seq<char>, Seq<char>)> {
    list.map_values(|p: (String, String)| (p.0@, p.1@))
}

/// The points as `(xy …)` forms, with a space between neighbours.
pub fn places(points: &Vec<(String, String)>) -> (r: String)
    ensures
        r@ == spots(pair_views(points@)),
{
    let ghost all = pair_views(points@);
    let mut out = String::new();
    let mut i: usize = 0;
    assert(all.take(0) =~= Seq::<(Seq<char>, Seq<char>)>::empty());
    while i < points.len()
        invariant
            i <= points@.len(),
            all == pair_views(points@),
            out@ == spots(all.take(i as int)),
        decreases points.len() - i,
    {
        let ghost next = all.take(i + 1);
        assert(next.drop_last() =~= all.take(i as int));
        let here = place("xy", points[i].0.as_str(), points[i].1.as_str());
        assert(next.last() == (points@[i as int].0@, points@[i as int].1@));
        if i > 0 {
            out.append(" ");
        }
        out.append(here.as_str());
        assert(i == 0 ==> out@ =~= here@);
        i += 1;
    }
    assert(all.take(i as int) =~= all);
    out
}

// ----------------------------------------------------------- plain measures

/// Neither opens nor closes anything.
pub open spec fn is_inert(c: char) -> bool {
    c != '(' && c != ')' && c != '"'
}

/// Nothing in the text opens or closes anything.
pub open spec fn is_plain(t: Seq<char>) -> bool {
    forall|i: int| 0 <= i < t.len() ==> is_inert(#[trigger] t[i])
}

pub open spec fn is_plain_pair(p: (Seq<char>, Seq<char>)) -> bool {
    is_plain(p.0) && is_plain(p.1)
}

pub(crate) fn plain(t: &str) -> (r: bool)
    ensures
        r == is_plain(t@),
{
    let chars = to_chars(t);
    let mut i: usize = 0;
    while i < chars.len()
        invariant
            i <= chars@.len(),
            chars@ == t@,
            forall|j: int| 0 <= j < i ==> is_inert(#[trigger] chars@[j]),
        decreases chars.len() - i,
    {
        let c = chars[i];
        if c == '(' || c == ')' || c == '"' {
            assert(!is_inert(t@[i as int]));
            return false;
        }
        i += 1;
    }
    true
}

pub(crate) fn plain_pair(p: &(String, String)) -> (r: bool)
    ensures
        r == is_plain_pair((p.0@, p.1@)),
{
    plain(p.0.as_str()) && plain(p.1.as_str())
}

pub(crate) fn plain_pairs(list: &Vec<(String, String)>) -> (r: bool)
    ensures
        r == (forall|i: int|
            0 <= i < pair_views(list@).len() ==> is_plain_pair(
                #[trigger] pair_views(list@)[i],
            )),
{
    let ghost all = pair_views(list@);
    let mut i: usize = 0;
    while i < list.len()
        invariant
            i <= list@.len(),
            all == pair_views(list@),
            forall|j: int| 0 <= j < i ==> is_plain_pair(#[trigger] all[j]),
        decreases list.len() - i,
    {
        assert(all[i as int] == (list@[i as int].0@, list@[i as int].1@));
        if !plain_pair(&list[i]) {
            assert(!is_plain_pair(pair_views(list@)[i as int]));
            return false;
        }
        i += 1;
    }
    true
}

// ------------------------------------------------------------------- laws

/// Reading `t` between two forms ends where it began and never leaves the form
/// around it.
#[verifier::opaque]
pub open spec fn is_level(t: Seq<char>) -> bool {
    forall|d: nat|
        d >= 1 ==> {
            &&& #[trigger] symlib::nest_from(symlib::plain(d), t, t.len() as int)
                == symlib::plain(d)
            &&& stays(t, d)
        }
}

/// Reading `t` from depth `d` stays at that depth or deeper.
pub open spec fn stays(t: Seq<char>, d: nat) -> bool {
    forall|i: int|
        0 <= i <= t.len() ==> (#[trigger] symlib::nest_from(symlib::plain(d), t, i)).depth >= d
}

/// Nothing in the first `n` characters opens or closes anything.
pub open spec fn inert_upto(t: Seq<char>, n: int) -> bool
    decreases n,
{
    n <= 0 || (is_inert(t[n - 1]) && inert_upto(t, n - 1))
}

pub proof fn lemma_inert_upto(t: Seq<char>, n: int)
    requires
        inert_upto(t, n),
    ensures
        forall|i: int| 0 <= i < n ==> is_inert(#[trigger] t[i]),
    decreases n,
{
    if n > 0 {
        lemma_inert_upto(t, n - 1);
    }
}

/// Plain text is level.
pub proof fn lemma_plain_level(t: Seq<char>)
    requires
        is_plain(t),
    ensures
        is_level(t),
{
    reveal(is_level);
    assert forall|d: nat| d >= 1 implies {
        &&& #[trigger] symlib::nest_from(symlib::plain(d), t, t.len() as int) == symlib::plain(d)
        &&& stays(t, d)
    } by {
        assert forall|i: int| 0 <= i <= t.len() implies (#[trigger] symlib::nest_from(
            symlib::plain(d),
            t,
            i,
        )).depth >= d by {
            lemma_plain_run(t, d, i);
        }
        lemma_plain_run(t, d, t.len() as int);
    }
}

proof fn lemma_plain_run(t: Seq<char>, d: nat, i: int)
    requires
        is_plain(t),
        0 <= i <= t.len(),
    ensures
        symlib::nest_from(symlib::plain(d), t, i) == symlib::plain(d),
    decreases i,
{
    if i > 0 {
        lemma_plain_run(t, d, i - 1);
        assert(is_inert(t[i - 1]));
    }
}

/// Reading a prefix does not depend on what follows.
proof fn lemma_prefix(from: symlib::Nest, a: Seq<char>, b: Seq<char>, i: int)
    requires
        0 <= i <= a.len(),
    ensures
        symlib::nest_from(from, a + b, i) == symlib::nest_from(from, a, i),
    decreases i,
{
    if i > 0 {
        lemma_prefix(from, a, b, i - 1);
    }
}

proof fn lemma_suffix(from: symlib::Nest, a: Seq<char>, b: Seq<char>, k: int)
    requires
        0 <= k <= b.len(),
    ensures
        symlib::nest_from(from, a + b, a.len() + k) == symlib::nest_from(
            symlib::nest_from(from, a, a.len() as int),
            b,
            k,
        ),
{
    let n = a.len() as int;
    symlib::lemma_nest_split(from, a + b, n, n + b.len(), k);
    assert((a + b).subrange(n, n + b.len()) =~= b);
    lemma_prefix(from, a, b, n);
}

/// Level texts put one after the other are level.
pub proof fn lemma_level_add(a: Seq<char>, b: Seq<char>)
    requires
        is_level(a),
        is_level(b),
    ensures
        is_level(a + b),
{
    reveal(is_level);
    let t = a + b;
    assert forall|d: nat| d >= 1 implies {
        &&& #[trigger] symlib::nest_from(symlib::plain(d), t, t.len() as int) == symlib::plain(d)
        &&& stays(t, d)
    } by {
        let p = symlib::plain(d);
        assert(symlib::nest_from(p, a, a.len() as int) == p);
        assert(symlib::nest_from(p, b, b.len() as int) == p);
        assert(stays(a, d) && stays(b, d));
        lemma_suffix(p, a, b, b.len() as int);
        assert forall|i: int| 0 <= i <= t.len() implies (#[trigger] symlib::nest_from(
            p,
            t,
            i,
        )).depth >= d by {
            if i <= a.len() {
                lemma_prefix(p, a, b, i);
                assert(symlib::nest_from(p, a, i).depth >= d);
            } else {
                lemma_suffix(p, a, b, i - a.len());
                assert(symlib::nest_from(p, b, i - a.len()).depth >= d);
            }
        }
    }
}

/// Where reading a form around `inner` stands after `k` of its characters.
proof fn lemma_inside_form(inner: Seq<char>, d: nat, k: int)
    requires
        is_level(inner),
        0 <= k <= inner.len(),
    ensures
        symlib::nest_from(symlib::plain(d), form(inner), k + 1) == symlib::nest_from(
            symlib::plain(d + 1),
            inner,
            k,
        ),
        symlib::nest_from(symlib::plain(d), form(inner), k + 1).depth >= d + 1,
{
    reveal(is_level);
    let open = seq!['('];
    let t = form(inner);
    let p = symlib::plain(d);
    assert(t =~= open + (inner + seq![')']));
    assert(symlib::nest_from(p, open, 0) == p);
    assert(symlib::nest_from(p, open, 1) == symlib::plain(d + 1));
    lemma_suffix(p, open, inner + seq![')'], k);
    lemma_prefix(symlib::plain(d + 1), inner, seq![')'], k);
    assert(symlib::nest_from(
        symlib::plain((d + 1) as nat),
        inner,
        inner.len() as int,
    ) == symlib::plain(d + 1));
    assert(stays(inner, d + 1));
}

/// A form around level text is level.
pub proof fn lemma_level_form(inner: Seq<char>)
    requires
        is_level(inner),
    ensures
        is_level(form(inner)),
{
    reveal(is_level);
    let t = form(inner);
    assert forall|d: nat| d >= 1 implies {
        &&& #[trigger] symlib::nest_from(symlib::plain(d), t, t.len() as int) == symlib::plain(d)
        &&& stays(t, d)
    } by {
        let p = symlib::plain(d);
        let n = inner.len() as int;
        lemma_inside_form(inner, d, n);
        assert(symlib::nest_from(symlib::plain((d + 1) as nat), inner, inner.len() as int)
            == symlib::plain(d + 1));
        assert(t[n + 1] == ')');
        assert(symlib::nest_from(p, t, n + 2) == p);
        assert forall|i: int| 0 <= i <= t.len() implies (#[trigger] symlib::nest_from(
            p,
            t,
            i,
        )).depth >= d by {
            if i > 0 && i < n + 2 {
                lemma_inside_form(inner, d, i - 1);
            }
        }
    }
}

/// Reading the inside of a string literal, from behind its opening quote.
proof fn lemma_in_literal(s: Seq<char>, d: nat, i: int)
    requires
        0 <= i <= online::escaped(s).len(),
    ensures
        ({
            let open = symlib::Nest { depth: d, quoted: true, escaped: false };
            let now = symlib::nest_from(open, online::escaped(s), i);
            &&& now.quoted
            &&& now.depth == d
            &&& i == online::escaped(s).len() ==> !now.escaped
        }),
    decreases s.len(), i,
{
    let open = symlib::Nest { depth: d, quoted: true, escaped: false };
    if s.len() == 0 {
        assert(i == 0);
    } else {
        let init = online::escaped(s.drop_last());
        let last = online::escaped_char(s.last());
        let t = online::escaped(s);
        let n = init.len() as int;
        assert(t =~= init + last);
        if i <= n {
            lemma_in_literal(s.drop_last(), d, i);
            lemma_prefix(open, init, last, i);
        }
        lemma_in_literal(s.drop_last(), d, n);
        lemma_prefix(open, init, last, n);
        if i > n {
            assert(symlib::nest_from(open, t, n) == open);
            assert(t[n] == last[0]);
            assert(symlib::nest_from(open, t, n + 1) == symlib::step(open, last[0]));
            if i == n + 2 {
                assert(t[n + 1] == last[1]);
                assert(symlib::nest_from(open, t, n + 2) == symlib::step(
                    symlib::nest_from(open, t, n + 1),
                    last[1],
                ));
            }
        }
    }
}

/// A string literal is level, whatever it holds.
pub proof fn lemma_level_literal(s: Seq<char>)
    ensures
        is_level(literal(s)),
{
    reveal(is_level);
    let t = literal(s);
    let inner = online::escaped(s);
    let n = inner.len() as int;
    assert forall|d: nat| d >= 1 implies {
        &&& #[trigger] symlib::nest_from(symlib::plain(d), t, t.len() as int) == symlib::plain(d)
        &&& stays(t, d)
    } by {
        let p = symlib::plain(d);
        let open = symlib::Nest { depth: d, quoted: true, escaped: false };
        let lead = seq!['"'];
        assert(t =~= lead + (inner + seq!['"']));
        assert(symlib::nest_from(p, lead, 0) == p);
        assert(symlib::nest_from(p, lead, 1) == open);
        assert forall|i: int| 0 < i <= n + 1 implies (#[trigger] symlib::nest_from(p, t, i)).depth
            == d by {
            let k = i - 1;
            lemma_suffix(p, lead, inner + seq!['"'], k);
            lemma_prefix(open, inner, seq!['"'], k);
            lemma_in_literal(s, d, k);
        }
        lemma_suffix(p, lead, inner + seq!['"'], n);
        lemma_prefix(open, inner, seq!['"'], n);
        lemma_in_literal(s, d, n);
        assert(t[n + 1] == '"');
        assert(symlib::nest_from(p, t, n + 2) == p);
        assert forall|i: int| 0 <= i <= t.len() implies (#[trigger] symlib::nest_from(
            p,
            t,
            i,
        )).depth >= d by {
        }
    }
}

/// Plain text is level, and what is built from level texts is too.
pub broadcast proof fn lemma_level_parts(a: Seq<char>, b: Seq<char>)
    requires
        is_level(a),
        is_level(b),
    ensures
        #[trigger] is_level(a + b),
{
    lemma_level_add(a, b);
}

pub broadcast proof fn lemma_level_forms(inner: Seq<char>)
    requires
        is_level(inner),
    ensures
        #[trigger] is_level(form(inner)),
{
    lemma_level_form(inner);
}

pub broadcast proof fn lemma_level_literals(s: Seq<char>)
    ensures
        #[trigger] is_level(literal(s)),
{
    lemma_level_literal(s);
}

pub broadcast group group_level {
    lemma_level_parts,
    lemma_level_forms,
    lemma_level_literals,
}

/// A text whose characters are all inert is level.
pub proof fn lemma_level_word(t: Seq<char>)
    requires
        inert_upto(t, t.len() as int),
    ensures
        is_plain(t),
        is_level(t),
{
    lemma_inert_upto(t, t.len() as int);
    lemma_plain_level(t);
}

pub proof fn lemma_level_empty()
    ensures
        is_level(Seq::<char>::empty()),
{
    lemma_plain_level(Seq::<char>::empty());
}

/// A number written out is plain.
pub proof fn lemma_level_decimal(n: nat)
    ensures
        is_plain(text::decimal(n)),
        is_level(text::decimal(n)),
    decreases n,
{
    if n >= 10 {
        lemma_level_decimal(n / 10);
    }
    lemma_plain_level(text::decimal(n));
}

/// Points with plain coordinates are written level.
pub proof fn lemma_level_spots(points: Seq<(Seq<char>, Seq<char>)>)
    requires
        forall|i: int|
            0 <= i < points.len() ==> is_plain((#[trigger] points[i]).0) && is_plain(points[i].1),
    ensures
        is_level(spots(points)),
    decreases points.len(),
{
    broadcast use group_level;

    reveal_strlit("xy");
    reveal_strlit(" ");
    reveal_with_fuel(inert_upto, 4);
    lemma_level_word("xy"@);
    lemma_level_word(" "@);
    lemma_level_empty();
    if points.len() > 0 {
        let p = points[points.len() - 1];
        lemma_plain_level(p.0);
        lemma_plain_level(p.1);
        if points.len() > 1 {
            let init = points.drop_last();
            assert(forall|i: int| 0 <= i < init.len() ==> init[i] == points[i]);
            lemma_level_spots(init);
        } else {
            assert(points[0] == p);
        }
    }
}

/// A form around level text is a block of a library.
pub proof fn lemma_form_block(inner: Seq<char>)
    requires
        is_level(inner),
    ensures
        symlib::is_block(form(inner)),
{
    reveal(is_level);
    let t = form(inner);
    lemma_level_form(inner);
    assert(symlib::nest_from(symlib::plain(1), t, t.len() as int) == symlib::plain(1));
    assert forall|i: int| 0 < i < t.len() implies (#[trigger] symlib::nest_from(
        symlib::plain(1),
        t,
        i,
    )).depth >= 2 by {
        lemma_inside_form(inner, 1, i - 1);
    }
}

} // verus!
