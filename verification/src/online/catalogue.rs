//! What the catalogue says is what a result and a component hold.
//!
//! Each law takes the answer as JSON says it, key by key, and says where each
//! value ends up.

use vstd::prelude::*;
use vstd::string::*;

use crate::http;
use crate::json;
use crate::online;
use crate::online::easyeda;
use crate::text;

verus! {

/// The JSON object `s` has the value `v` under `key`.
pub open spec fn under(s: Seq<char>, key: Seq<char>, v: Seq<char>) -> bool {
    json::json_member(s, key) == Some(v)
}

/// The JSON object `s` has the text `t` under `key`.
pub open spec fn says(s: Seq<char>, key: Seq<char>, t: Seq<char>) -> bool {
    json::json_member(s, key) matches Some(v) && json::json_text(v) == Some(t)
}

/// The JSON object `s` has no text under `key`: neither there nor in the `null`
/// that stands for what is missing.
pub open spec fn is_silent(s: Seq<char>, key: Seq<char>) -> bool {
    match json::json_member(s, key) {
        Some(v) => json::json_text(v) is None,
        None => json::json_text("null"@) is None,
    }
}

// ---------------------------------------------------------------- searching

/// A product with a part number is a result, and says of itself what the
/// product says: each value under its own key, an absent text as an empty one.
pub proof fn lemma_product(item: Seq<char>, id: Seq<char>)
    requires
        says(item, "number"@, id),
    ensures
        easyeda::hit_in(item) matches Some(h) && h.id == id,
        forall|t: Seq<char>|
            #[trigger] says(item, "mpn"@, t) ==> easyeda::hit_in(item)->Some_0.mpn == t,
        forall|t: Seq<char>|
            #[trigger] says(item, "manufacturer"@, t) ==> easyeda::hit_in(
                item,
            )->Some_0.manufacturer == t,
        forall|t: Seq<char>|
            #[trigger] says(item, "package"@, t) ==> easyeda::hit_in(item)->Some_0.package == t,
        is_silent(item, "mpn"@) ==> easyeda::hit_in(item)->Some_0.mpn == ""@,
        is_silent(item, "manufacturer"@) ==> easyeda::hit_in(item)->Some_0.manufacturer == ""@,
        is_silent(item, "package"@) ==> easyeda::hit_in(item)->Some_0.package == ""@,
        forall|v: Seq<char>, n: u64|
            #[trigger] under(item, "stock"@, v) && #[trigger] is_count(v, n) ==> easyeda::hit_in(
                item,
            )->Some_0.stock == n,
{
}

/// The JSON value `v` is the number `n`.
pub open spec fn is_count(v: Seq<char>, n: u64) -> bool {
    json::json_unsigned(v) == Some(n)
}

/// A product without a part number is no result.
pub proof fn lemma_no_product(item: Seq<char>)
    requires
        is_silent(item, "number"@),
    ensures
        easyeda::hit_in(item) is None,
{
}

/// How many of the first `n` products have a number.
pub open spec fn numbered_upto(items: Seq<Seq<char>>, n: int) -> int
    decreases n,
{
    if n <= 0 {
        0
    } else if is_silent(items[n - 1], "number"@) {
        numbered_upto(items, n - 1)
    } else {
        numbered_upto(items, n - 1) + 1
    }
}

proof fn lemma_numbered_positive(items: Seq<Seq<char>>, n: int)
    ensures
        0 <= numbered_upto(items, n),
    decreases n,
{
    if n > 0 {
        lemma_numbered_positive(items, n - 1);
    }
}

proof fn lemma_hits_in(items: Seq<Seq<char>>, n: int)
    requires
        0 <= n <= items.len(),
    ensures
        easyeda::hits_in(items.take(n)).len() == numbered_upto(items, n),
        forall|i: int|
            0 <= i < n && !is_silent(#[trigger] items[i], "number"@) ==> 0 <= numbered_upto(
                items,
                i,
            ) < numbered_upto(items, n) && easyeda::hit_in(items[i]) == Some(
                easyeda::hits_in(items.take(n))[numbered_upto(items, i)],
            ),
    decreases n,
{
    if n > 0 {
        let now = items.take(n);
        let before = items.take(n - 1);
        assert(now.drop_last() =~= before);
        assert(now.last() == items[n - 1]);
        lemma_hits_in(items, n - 1);
        lemma_numbered_positive(items, n - 1);
        assert(is_silent(items[n - 1], "number"@) <==> easyeda::hit_in(items[n - 1]) is None);
        assert forall|i: int| 0 <= i < n && !is_silent(#[trigger] items[i], "number"@) implies 0
            <= numbered_upto(items, i) < numbered_upto(items, n) && easyeda::hit_in(items[i])
            == Some(easyeda::hits_in(now)[numbered_upto(items, i)]) by {
            if i < n - 1 {
                assert(easyeda::hits_in(now)[numbered_upto(items, i)] == easyeda::hits_in(
                    before,
                )[numbered_upto(items, i)]);
            }
        }
    } else {
        assert(items.take(0) =~= Seq::<Seq<char>>::empty());
    }
}

/// The answer to a search lists the products that have a number, all of them and
/// no others, in the order in which the catalogue gives them, and each says of
/// itself what its own product says.
pub proof fn lemma_search(
    query: Seq<char>,
    body: Seq<char>,
    result: Seq<char>,
    list: Seq<char>,
    items: Seq<Seq<char>>,
)
    requires
        exists|i: int| 0 <= i < query.len() && !text::is_white(#[trigger] query[i]),
        json::json_fault(body) is None,
        under(body, "result"@, result),
        under(result, "productList"@, list),
        json::json_items(list) == Some(items),
    ensures
        online::found(query, Ok(body)) matches Ok(hits) && hits.len() == numbered_upto(
            items,
            items.len() as int,
        ) && forall|i: int|
            0 <= i < items.len() && !is_silent(#[trigger] items[i], "number"@) ==> 0
                <= numbered_upto(items, i) < hits.len() && is_about(
                hits[numbered_upto(items, i)],
                items[i],
            ),
{
    text::lemma_trim(query);
    if text::trim(query).len() == 0 {
        let i = choose|i: int| 0 <= i < query.len() && !text::is_white(#[trigger] query[i]);
        assert(text::is_white(query[i]));
    }
    lemma_hits_in(items, items.len() as int);
    assert(items.take(items.len() as int) =~= items);
    let hits = easyeda::hits_in(items);
    assert forall|i: int| 0 <= i < items.len() && !is_silent(#[trigger] items[i], "number"@) implies
        0 <= numbered_upto(items, i) < hits.len() && is_about(
        hits[numbered_upto(items, i)],
        items[i],
    ) by {
        let h = hits[numbered_upto(items, i)];
        assert(easyeda::hit_in(items[i]) == Some(h));
    }
}

/// The result `h` says what the product says, key by key.
pub open spec fn is_about(h: easyeda::HitView, item: Seq<char>) -> bool {
    &&& forall|t: Seq<char>| #[trigger] says(item, "number"@, t) ==> h.id == t
    &&& forall|t: Seq<char>| #[trigger] says(item, "mpn"@, t) ==> h.mpn == t
    &&& forall|t: Seq<char>| #[trigger] says(item, "manufacturer"@, t) ==> h.manufacturer == t
    &&& forall|t: Seq<char>| #[trigger] says(item, "package"@, t) ==> h.package == t
    &&& is_silent(item, "mpn"@) ==> h.mpn == ""@
    &&& is_silent(item, "manufacturer"@) ==> h.manufacturer == ""@
    &&& is_silent(item, "package"@) ==> h.package == ""@
    &&& forall|v: Seq<char>, n: u64| #[trigger]
        under(item, "stock"@, v) && #[trigger] is_count(v, n) ==> h.stock == n
    &&& forall|v: Seq<char>| #[trigger]
        under(item, "stock"@, v) && json::json_unsigned(v) is None ==> h.stock == 0
    &&& forall|t: Seq<char>| #[trigger]
        says(item, "url"@, t) ==> h.category == easyeda::category_of(t)
}

/// A query of nothing but white space finds nothing, whatever is answered; any
/// other that fails, fails with the words it failed with.
pub proof fn lemma_search_edges(query: Seq<char>, answer: Result<Seq<char>, Seq<char>>, e: Seq<char>)
    ensures
        (forall|i: int| 0 <= i < query.len() ==> text::is_white(#[trigger] query[i]))
            ==> online::found(query, answer) == Ok::<Seq<easyeda::HitView>, Seq<char>>(
            Seq::empty(),
        ),
        (exists|i: int| 0 <= i < query.len() && !text::is_white(#[trigger] query[i]))
            ==> online::found(query, Err(e)) == Err::<Seq<easyeda::HitView>, Seq<char>>(e),
{
    text::lemma_trim(query);
    let t = text::trim(query);
    let (a, b) = choose|a: int, b: int|
        0 <= a <= b <= query.len() && t == #[trigger] query.subrange(a, b) && (forall|i: int|
            0 <= i < a || b <= i < query.len() ==> text::is_white(#[trigger] query[i]));
    if t.len() > 0 {
        assert(t[0] == query[a]);
    } else if exists|i: int| 0 <= i < query.len() && !text::is_white(#[trigger] query[i]) {
        let i = choose|i: int| 0 <= i < query.len() && !text::is_white(#[trigger] query[i]);
        assert(text::is_white(query[i]));
    }
}

/// The address of a search holds the trimmed query, encoded, as its keyword and
/// the limit as its limit: two searches that differ in either ask differently.
pub proof fn lemma_search_address(query: Seq<char>, limit: nat)
    requires
        text::trim(query).len() > 0,
    ensures
        easyeda::search_address(query, limit) matches Some(url) && exists|middle: Seq<char>|
            url == "https://easyeda.com/api/eda/product/search"@ + "?keyword="@ + http::encoded(
                text::trim(query),
            ) + #[trigger] (middle + "&limit="@) + text::decimal(limit),
{
    let middle = "&version="@ + easyeda::SEARCH_VERSION@ + "&page=1"@;
    reveal_strlit("&page=1");
    reveal_strlit("&limit=");
    reveal_strlit("&page=1&limit=");
    assert("&page=1"@ + "&limit="@ =~= "&page=1&limit="@);
    let url = easyeda::search_address(query, limit)->Some_0;
    assert(url =~= "https://easyeda.com/api/eda/product/search"@ + "?keyword="@ + http::encoded(
        text::trim(query),
    ) + (middle + "&limit="@) + text::decimal(limit));
}

/// Hyphens stand alone inside the text, and not at its ends.
pub open spec fn is_hyphenated(g: Seq<char>) -> bool {
    &&& g.len() > 0 ==> g[0] != '-' && g.last() != '-'
    &&& forall|i: int, j: int|
        0 <= i && j == i + 1 && j < g.len() && #[trigger] g[i] == '-' ==> #[trigger] g[j] != '-'
}

pub open spec fn spaced(c: char) -> char {
    if c == '-' {
        ' '
    } else {
        c
    }
}

proof fn lemma_split_groups(s: Seq<char>, from: int, groups: Seq<Seq<char>>, needle: Seq<char>)
    requires
        0 <= from <= s.len(),
        groups.len() > 0,
        needle == seq!['-', '-', '-'],
        forall|i: int| 0 <= i < groups.len() ==> is_hyphenated(#[trigger] groups[i]),
        s.skip(from) == text::join(groups, needle),
    ensures
        text::split_from(s, needle, from) == groups,
    decreases groups.len(),
{
    let first = groups[0];
    let rest = s.skip(from);
    text::lemma_joined_ends(groups, needle);
    text::lemma_find_from(s, needle, from);
    let at = text::find_from(s, needle, from);
    let k = from + first.len();
    assert(is_hyphenated(groups[0]));
    assert(forall|j: int| 0 <= j < first.len() ==> #[trigger] rest[j] == first[j]);
    if at < s.len() && at < k {
        let t = s.subrange(at, at + 3);
        assert(t[0] == s[at] && t[1] == s[at + 1]);
        assert(rest[at - from] == s[at]);
        assert(first[at - from] == '-');
        if at + 1 < k {
            assert(rest[at + 1 - from] == s[at + 1]);
            assert(first[at + 1 - from] == '-');
        } else {
            assert(first.last() == '-');
        }
    }
    if groups.len() == 1 {
        assert(groups =~= seq![s.skip(from)]);
    } else {
        let tail = groups.drop_first();
        assert(rest =~= first + needle + text::join(tail, needle));
        assert(s.subrange(k, k + 3) =~= needle) by {
            assert forall|j: int| 0 <= j < 3 implies s[k + j] == needle[j] by {
                assert(rest[first.len() + j] == s[k + j]);
            }
        }
        assert(text::occurs_at(s, needle, k));
        assert(at == k);
        assert(s.subrange(from, at) =~= first) by {
            assert forall|j: int| 0 <= j < first.len() implies s[from + j] == first[j] by {
                assert(rest[j] == s[from + j]);
            }
        }
        assert(s.skip(k + 3) =~= text::join(tail, needle)) by {
            assert forall|j: int| 0 <= j < text::join(tail, needle).len() implies s[k + 3 + j]
                == text::join(tail, needle)[j] by {
                assert(rest[first.len() + 3 + j] == s[k + 3 + j]);
            }
        }
        assert forall|i: int| 0 <= i < tail.len() implies is_hyphenated(#[trigger] tail[i]) by {
            assert(tail[i] == groups[i + 1]);
        }
        lemma_split_groups(s, k + 3, tail, needle);
        assert(seq![first] + tail =~= groups);
    }
}

proof fn lemma_spaced(s: Seq<char>, from: int)
    requires
        0 <= from <= s.len(),
    ensures
        text::split_from(s, seq!['-'], from).len() > 0,
        text::join(text::split_from(s, seq!['-'], from), seq![' ']) == s.skip(from).map_values(
            |c: char| spaced(c),
        ),
    decreases s.len() - from,
{
    let needle = seq!['-'];
    let parts = text::split_from(s, needle, from);
    let want = s.skip(from).map_values(|c: char| spaced(c));
    text::lemma_find_from(s, needle, from);
    let at = text::find_from(s, needle, from);
    assert forall|i: int| from <= i < at implies s[i] != '-' by {
        if s[i] == '-' {
            assert(s.subrange(i, i + 1) =~= needle);
            assert(text::occurs_at(s, needle, i));
        }
    }
    if at < s.len() {
        assert(s.subrange(at, at + 1)[0] == s[at]);
        lemma_spaced(s, at + 1);
        let tail = text::split_from(s, needle, at + 1);
        assert(parts.drop_first() =~= tail);
        text::lemma_joined_ends(parts, seq![' ']);
        assert(text::join(parts, seq![' ']) =~= want);
    } else {
        assert(parts =~= seq![s.skip(from)]);
        assert(text::join(parts, seq![' ']) =~= want);
    }
}

/// The category in a product address is what stands before the first underscore
/// of its last name: three hyphens part it, and a single one is a blank.
pub proof fn lemma_category(front: Seq<char>, groups: Seq<Seq<char>>, rest: Seq<char>)
    requires
        groups.len() > 0,
        forall|i: int| 0 <= i < groups.len() ==> is_hyphenated(#[trigger] groups[i]),
        !text::join(groups, "---"@).contains('/'),
        !text::join(groups, "---"@).contains('_'),
        !rest.contains('/'),
    ensures
        easyeda::category_of(front + "/"@ + text::join(groups, "---"@) + "_"@ + rest)
            == text::join(groups, " / "@).map_values(|c: char| spaced(c)),
{
    let slug = text::join(groups, "---"@);
    let tail = slug + "_"@ + rest;
    let url = front + "/"@ + slug + "_"@ + rest;
    reveal_strlit("/");
    reveal_strlit("_");
    reveal_strlit("---");
    reveal_strlit("-");
    reveal_strlit(" ");
    assert(url =~= front.push('/') + tail);
    text::lemma_split_append(front, tail, '/');
    assert forall|i: int| 0 <= i < tail.len() implies tail[i] != '/' by {
        if i < slug.len() {
            assert(slug.contains(slug[i]));
        } else if i > slug.len() {
            assert(rest.contains(rest[i - slug.len() - 1]));
        }
    }
    text::lemma_split_plain(tail, '/');
    assert(text::split(url, '/').last() == tail);
    assert(tail =~= slug.push('_') + rest);
    text::lemma_split_append(slug, rest, '_');
    text::lemma_split_plain(slug, '_');
    assert(text::split(tail, '_')[0] == slug);
    assert("---"@ =~= seq!['-', '-', '-']);
    assert("-"@ =~= seq!['-']);
    assert(" "@ =~= seq![' ']);
    assert(slug.skip(0) =~= slug);
    lemma_split_groups(slug, 0, groups, "---"@);
    let wide = text::join(groups, " / "@);
    assert(wide.skip(0) =~= wide);
    lemma_spaced(wide, 0);
}

// ---------------------------------------------------------------- fetching

/// The answer to the question for a component is one, and holds `result`.
pub open spec fn is_answer(body: Seq<char>, result: Seq<char>) -> bool {
    &&& json::json_fault(body) is None
    &&& under(body, "result"@, result)
    &&& result != "null"@
    &&& match json::json_member(body, "success"@) {
        Some(v) => json::json_bool(v) != Some(false),
        None => json::json_bool("null"@) != Some(false),
    }
}

/// What a component is read from: the schematic, its head with its parameters,
/// and the package with its own head.
pub open spec fn is_laid_out(
    result: Seq<char>,
    data: Seq<char>,
    head: Seq<char>,
    para: Seq<char>,
    detail: Seq<char>,
    package: Seq<char>,
    package_head: Seq<char>,
) -> bool {
    &&& under(result, "dataStr"@, data)
    &&& under(data, "head"@, head)
    &&& under(head, "c_para"@, para)
    &&& under(result, "packageDetail"@, detail)
    &&& under(detail, "dataStr"@, package)
    &&& under(package, "head"@, package_head)
}

/// A component holds what the catalogue says of it, each value from its own
/// place: the origin of the schematic and of the package from their own heads,
/// first across and then up; the title, prefix, manufacturer and data sheet from
/// their own keys.
pub proof fn lemma_component(
    lcsc: Seq<char>,
    body: Seq<char>,
    result: Seq<char>,
    data: Seq<char>,
    head: Seq<char>,
    para: Seq<char>,
    detail: Seq<char>,
    package: Seq<char>,
    package_head: Seq<char>,
)
    requires
        text::upper(text::trim(lcsc)).len() > 0,
        is_answer(body, result),
        is_laid_out(result, data, head, para, detail, package, package_head),
    ensures
        easyeda::component_of(lcsc, body) matches Ok(c) && {
            &&& c.lcsc == text::upper(text::trim(lcsc))
            &&& forall|v: Seq<char>| #[trigger] under(head, "x"@, v) ==> c.symbol_origin.0 == v
            &&& forall|v: Seq<char>| #[trigger] under(head, "y"@, v) ==> c.symbol_origin.1 == v
            &&& forall|v: Seq<char>| #[trigger]
                under(package_head, "x"@, v) ==> c.package_origin.0 == v
            &&& forall|v: Seq<char>| #[trigger]
                under(package_head, "y"@, v) ==> c.package_origin.1 == v
            &&& forall|t: Seq<char>| #[trigger]
                says(result, "title"@, t) && t.len() > 0 ==> c.title == t
            &&& forall|t: Seq<char>| #[trigger]
                says(para, "name"@, t) && is_silent(result, "title"@) ==> c.title == t
            &&& forall|t: Seq<char>| #[trigger]
                says(para, "name"@, t) && says(result, "title"@, Seq::empty()) ==> c.title == t
            &&& is_silent(result, "title"@) && is_silent(para, "name"@) ==> c.title == c.lcsc
            &&& forall|t: Seq<char>| #[trigger]
                says(para, "Manufacturer"@, t) ==> c.manufacturer == t
            &&& is_silent(para, "Manufacturer"@) ==> c.manufacturer == ""@
            &&& forall|t: Seq<char>| #[trigger] says(para, "pre"@, t) ==> c.prefix == t
            &&& is_silent(para, "pre"@) ==> c.prefix == "U?"@
            &&& forall|sheet: Seq<char>, t: Seq<char>| #[trigger]
                under(result, "lcsc"@, sheet) && #[trigger] says(sheet, "url"@, t) ==> c.datasheet
                    == t
            &&& forall|t: Seq<char>| #[trigger] says(detail, "title"@, t) ==> c.package_name == t
            &&& forall|t: Seq<char>| #[trigger]
                says(para, "package"@, t) && is_silent(detail, "title"@) ==> c.package_name == t
        },
{
}

/// The JSON array `v` holds nothing but the texts `texts`, in that order.
pub open spec fn lists(v: Seq<char>, texts: Seq<Seq<char>>) -> bool {
    json::json_items(v) matches Some(items) && items.len() == texts.len() && forall|i: int|
        0 <= i < items.len() ==> json::json_text(#[trigger] items[i]) == Some(texts[i])
}

proof fn lemma_texts_in(items: Seq<Seq<char>>, texts: Seq<Seq<char>>)
    requires
        items.len() == texts.len(),
        forall|i: int| 0 <= i < items.len() ==> json::json_text(#[trigger] items[i]) == Some(texts[i]),
    ensures
        json::texts_in(items) == texts,
    decreases items.len(),
{
    if items.len() > 0 {
        let a = items.drop_last();
        let b = texts.drop_last();
        assert forall|i: int| 0 <= i < a.len() implies json::json_text(#[trigger] a[i]) == Some(
            b[i],
        ) by {
            assert(a[i] == items[i]);
        }
        lemma_texts_in(a, b);
        assert(json::json_text(items[items.len() - 1]) == Some(texts[items.len() - 1]));
        assert(b.push(texts.last()) =~= texts);
    } else {
        assert(texts =~= Seq::<Seq<char>>::empty());
    }
}

/// The shapes of the schematic are those of the schematic and those of the
/// package are those of the package, each in the order it is given in.
pub proof fn lemma_component_shapes(
    lcsc: Seq<char>,
    body: Seq<char>,
    result: Seq<char>,
    data: Seq<char>,
    detail: Seq<char>,
    package: Seq<char>,
    drawn: Seq<char>,
    pads: Seq<char>,
    drawn_texts: Seq<Seq<char>>,
    pad_texts: Seq<Seq<char>>,
)
    requires
        text::upper(text::trim(lcsc)).len() > 0,
        is_answer(body, result),
        under(result, "dataStr"@, data),
        under(data, "shape"@, drawn),
        under(result, "packageDetail"@, detail),
        under(detail, "dataStr"@, package),
        under(package, "shape"@, pads),
        lists(drawn, drawn_texts),
        lists(pads, pad_texts),
    ensures
        easyeda::component_of(lcsc, body) matches Ok(c) && c.symbol_shapes == drawn_texts
            && c.package_shapes == pad_texts,
{
    lemma_texts_in(json::json_items(drawn)->Some_0, drawn_texts);
    lemma_texts_in(json::json_items(pads)->Some_0, pad_texts);
}

/// When there is no component: no part number, an answer that is no JSON, one
/// that says it did not succeed, or one without a result.
pub proof fn lemma_no_component(lcsc: Seq<char>, body: Seq<char>, e: Seq<char>)
    ensures
        text::upper(text::trim(lcsc)).len() == 0 ==> easyeda::component_of(lcsc, body) is Err
            && easyeda::component_address(lcsc) is Err,
        json::json_fault(body) is Some ==> easyeda::component_of(lcsc, body) is Err,
        forall|v: Seq<char>|
            #[trigger] under(body, "success"@, v) && json::json_bool(v) == Some(false)
                ==> easyeda::component_of(lcsc, body) is Err,
        under(body, "result"@, "null"@) ==> easyeda::component_of(lcsc, body) is Err,
        forall|v: Seq<char>|
            #[trigger] under(body, "success"@, v) && json::json_bool(v) == Some(false) && says(
                body,
                "message"@,
                e,
            ) && json::json_fault(body) is None && text::upper(text::trim(lcsc)).len() > 0
                ==> easyeda::component_of(lcsc, body) == Err::<easyeda::ComponentView, Seq<char>>(
                text::upper(text::trim(lcsc)) + ": "@ + e,
            ),
{
}

/// A component is asked for under its own part number, in capitals and without
/// the blanks around it.
pub proof fn lemma_component_address(lcsc: Seq<char>)
    requires
        text::upper(text::trim(lcsc)).len() > 0,
    ensures
        easyeda::component_address(lcsc) matches Ok(url) && exists|rest: Seq<char>|
            url == #[trigger] ("https://easyeda.com/api/products"@ + "/"@ + text::upper(
                text::trim(lcsc),
            ) + "/components"@ + rest),
{
    let rest = "?version="@ + easyeda::COMPONENT_VERSION@;
    reveal_strlit("/components");
    reveal_strlit("?version=");
    reveal_strlit("/components?version=");
    assert("/components"@ + "?version="@ =~= "/components?version="@);
    let url = easyeda::component_address(lcsc)->Ok_0;
    assert(url =~= "https://easyeda.com/api/products"@ + "/"@ + text::upper(text::trim(lcsc))
        + "/components"@ + rest);
}

// ---------------------------------------------------------------- 3D models

/// A STEP model is fetched by its own key.
pub proof fn lemma_step_address(uuid: Seq<char>)
    ensures
        easyeda::step_address(uuid)
            == "https://modules.easyeda.com/qAxj6KHrDKw4blvCG8QJPs7Y"@ + "/"@ + uuid,
{
}

/// A STEP model is taken as it is, and only where it starts as one does.
pub proof fn lemma_step_model(uuid: Seq<char>, rest: Seq<u8>, body: Seq<u8>)
    ensures
        easyeda::model_of(uuid, vstd::utf8::encode_utf8("ISO-10303-21"@) + rest) == Ok::<
            Seq<u8>,
            Seq<char>,
        >(vstd::utf8::encode_utf8("ISO-10303-21"@) + rest),
        easyeda::model_of(uuid, body) matches Ok(bytes) ==> bytes == body && body.take(
            vstd::utf8::encode_utf8("ISO-10303-21"@).len() as int,
        ) == vstd::utf8::encode_utf8("ISO-10303-21"@),
{
    let iso = vstd::utf8::encode_utf8("ISO-10303-21"@);
    let xml = vstd::utf8::encode_utf8("<?xml"@);
    let whole = iso + rest;
    assert(whole.take(iso.len() as int) =~= iso);
    reveal_strlit("ISO-10303-21");
    reveal_strlit("<?xml");
    vstd::utf8::is_ascii_chars_encode_utf8("ISO-10303-21"@);
    vstd::utf8::is_ascii_chars_encode_utf8("<?xml"@);
    if whole.take(xml.len() as int) == xml {
        assert(whole.take(xml.len() as int)[0] == whole[0]);
        assert(whole[0] == iso[0]);
    }
}

} // verus!
