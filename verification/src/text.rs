//! Text, seen as a sequence of characters.
//!
//! Every rule in this crate that reads or writes text is stated over
//! `Seq<char>`; this module holds the operations those rules share.

use vstd::prelude::*;
use vstd::string::*;

verus! {

// ------------------------------------------------------------ outside calls

/// `String::push` appends one character to the end of the text.
pub assume_specification[ String::push ](target: &mut String, c: char)
    ensures
        final(target)@ == old(target)@.push(c),
;

/// What `str::to_lowercase` makes of a text. Unicode's lower-casing tables fix
/// it, so it is named here rather than written out.
pub uninterp spec fn lowercase(s: Seq<char>) -> Seq<char>;

/// `str::to_lowercase`: the Unicode lower-casing of `text`. On a text of ASCII
/// characters that is the mapping of `A`–`Z` to `a`–`z`.
#[verifier::external_body]
pub(crate) fn to_lowercase(text: &str) -> (r: String)
    ensures
        r@ == (if all_ascii(text@) {
            ascii_lower(text@)
        } else {
            lowercase(text@)
        }),
{
    text.to_lowercase()
}

/// What `str::to_uppercase` makes of a text.
pub uninterp spec fn uppercase(s: Seq<char>) -> Seq<char>;

/// `str::to_uppercase`: the Unicode upper-casing of `text`. On a text of ASCII
/// characters that is the mapping of `a`–`z` to `A`–`Z`.
#[verifier::external_body]
pub(crate) fn to_uppercase(text: &str) -> (r: String)
    ensures
        r@ == (if all_ascii(text@) {
            ascii_upper(text@)
        } else {
            uppercase(text@)
        }),
{
    text.to_uppercase()
}

// ---------------------------------------------------------------- vocabulary

/// The contents of a list of texts.
pub open spec fn views(list: Seq<String>) -> Seq<Seq<char>> {
    list.map_values(|s: String| s@)
}

/// The contents of an optional text.
pub open spec fn opt_view(value: Option<String>) -> Option<Seq<char>> {
    match value {
        Some(s) => Some(s@),
        None => None,
    }
}

pub open spec fn all_ascii(s: Seq<char>) -> bool {
    forall|i: int| 0 <= i < s.len() ==> (#[trigger] s[i] as u32) < 128
}

pub open spec fn lower_char(c: char) -> char {
    if 'A' <= c && c <= 'Z' {
        ((c as u8 + 32) as u8) as char
    } else {
        c
    }
}

pub open spec fn upper_char(c: char) -> char {
    if 'a' <= c && c <= 'z' {
        ((c as u8 - 32) as u8) as char
    } else {
        c
    }
}

/// `A`–`Z` become `a`–`z`; every other character stays.
pub open spec fn ascii_lower(s: Seq<char>) -> Seq<char> {
    s.map_values(|c: char| lower_char(c))
}

/// `a`–`z` become `A`–`Z`; every other character stays.
pub open spec fn ascii_upper(s: Seq<char>) -> Seq<char> {
    s.map_values(|c: char| upper_char(c))
}

/// `s` in lower case.
pub open spec fn lower(s: Seq<char>) -> Seq<char> {
    if all_ascii(s) {
        ascii_lower(s)
    } else {
        lowercase(s)
    }
}

/// `s` in upper case.
pub open spec fn upper(s: Seq<char>) -> Seq<char> {
    if all_ascii(s) {
        ascii_upper(s)
    } else {
        uppercase(s)
    }
}

/// Equal when the case of `A`–`Z` is ignored.
pub open spec fn same_letters(a: Seq<char>, b: Seq<char>) -> bool {
    ascii_lower(a) == ascii_lower(b)
}

/// The characters with Unicode's White_Space property.
pub open spec fn is_white(c: char) -> bool {
    ||| '\u{9}' <= c && c <= '\u{d}'
    ||| c == ' '
    ||| c == '\u{85}'
    ||| c == '\u{a0}'
    ||| c == '\u{1680}'
    ||| '\u{2000}' <= c && c <= '\u{200a}'
    ||| c == '\u{2028}'
    ||| c == '\u{2029}'
    ||| c == '\u{202f}'
    ||| c == '\u{205f}'
    ||| c == '\u{3000}'
}

/// `s` without the white space it starts with.
pub open spec fn trim_start(s: Seq<char>) -> Seq<char>
    decreases s.len(),
{
    if s.len() > 0 && is_white(s[0]) {
        trim_start(s.drop_first())
    } else {
        s
    }
}

/// `s` without the white space it ends with.
pub open spec fn trim_end(s: Seq<char>) -> Seq<char>
    decreases s.len(),
{
    if s.len() > 0 && is_white(s.last()) {
        trim_end(s.drop_last())
    } else {
        s
    }
}

pub open spec fn trim(s: Seq<char>) -> Seq<char> {
    trim_end(trim_start(s))
}

pub open spec fn starts_with(s: Seq<char>, prefix: Seq<char>) -> bool {
    prefix.len() <= s.len() && s.take(prefix.len() as int) == prefix
}

/// `needle` stands somewhere in `s`.
pub open spec fn contains(s: Seq<char>, needle: Seq<char>) -> bool {
    exists|i: int| 0 <= i && occurs_at(s, needle, i)
}

pub open spec fn occurs_at(s: Seq<char>, needle: Seq<char>, i: int) -> bool {
    i + needle.len() <= s.len() && s.subrange(i, i + needle.len()) == needle
}

/// The pieces between the separators, one more than there are separators.
pub open spec fn split(s: Seq<char>, sep: char) -> Seq<Seq<char>>
    decreases s.len(),
{
    if s.len() == 0 {
        seq![Seq::<char>::empty()]
    } else {
        let before = split(s.drop_last(), sep);
        if s.last() == sep {
            before.push(Seq::<char>::empty())
        } else {
            before.update(before.len() - 1, before.last().push(s.last()))
        }
    }
}

/// The pieces put together again, with `sep` between neighbours.
pub open spec fn join(parts: Seq<Seq<char>>, sep: Seq<char>) -> Seq<char>
    decreases parts.len(),
{
    if parts.len() == 0 {
        Seq::empty()
    } else if parts.len() == 1 {
        parts[0]
    } else {
        join(parts.drop_last(), sep) + sep + parts.last()
    }
}

/// The first place at or after `from` where `needle` stands, or the length of
/// `s` when there is none.
pub open spec fn find_from(s: Seq<char>, needle: Seq<char>, from: int) -> int
    decreases s.len() - from,
{
    if from >= s.len() {
        s.len() as int
    } else if occurs_at(s, needle, from) {
        from
    } else {
        find_from(s, needle, from + 1)
    }
}

/// The pieces of `s` from `from` on, between the occurrences of `needle` met
/// when reading from left to right.
pub open spec fn split_from(s: Seq<char>, needle: Seq<char>, from: int) -> Seq<Seq<char>>
    decreases s.len() - from,
{
    if needle.len() == 0 || from < 0 || from > s.len() {
        Seq::empty()
    } else {
        let at = find_from(s, needle, from);
        if from <= at && at + needle.len() <= s.len() {
            seq![s.subrange(from, at)] + split_from(s, needle, at + needle.len())
        } else {
            seq![s.skip(from)]
        }
    }
}

/// The pieces of `s` between the occurrences of `needle`.
pub open spec fn split_on(s: Seq<char>, needle: Seq<char>) -> Seq<Seq<char>> {
    split_from(s, needle, 0)
}

/// Every occurrence of `needle` replaced by `with`.
pub open spec fn replace(s: Seq<char>, needle: Seq<char>, with: Seq<char>) -> Seq<char> {
    join(split_on(s, needle), with)
}

pub open spec fn digit(n: nat) -> char
    recommends
        n < 10,
{
    (('0' as u8 + n) as u8) as char
}

/// `n` in decimal.
pub open spec fn decimal(n: nat) -> Seq<char>
    decreases n,
{
    if n < 10 {
        seq![digit(n)]
    } else {
        decimal(n / 10).push(digit(n % 10))
    }
}

/// Dictionary order by code point, which is the order of the UTF-8 bytes.
pub open spec fn precedes(a: Seq<char>, b: Seq<char>) -> bool
    decreases a.len(),
{
    if b.len() == 0 {
        false
    } else if a.len() == 0 {
        true
    } else if a[0] == b[0] {
        precedes(a.drop_first(), b.drop_first())
    } else {
        a[0] < b[0]
    }
}

/// None of the first `n` characters is `c`.
pub open spec fn lacks(s: Seq<char>, c: char, n: int) -> bool
    decreases n,
{
    n <= 0 || (s[n - 1] != c && lacks(s, c, n - 1))
}

pub proof fn lemma_lacks(s: Seq<char>, c: char, n: int)
    requires
        lacks(s, c, n),
        n == s.len(),
    ensures
        !s.contains(c),
{
    lemma_lacks_first(s, c, n);
}

proof fn lemma_lacks_first(s: Seq<char>, c: char, n: int)
    requires
        lacks(s, c, n),
    ensures
        forall|j: int| 0 <= j < n ==> s[j] != c,
    decreases n,
{
    if n > 0 {
        lemma_lacks_first(s, c, n - 1);
    }
}

// ------------------------------------------------------------ characters

/// The characters of `text`, in order.
pub fn to_chars(text: &str) -> (r: Vec<char>)
    ensures
        r@ == text@,
{
    let mut out: Vec<char> = Vec::new();
    for c in it: text.chars()
        invariant
            out@ == it.seq().take(it.index() as int),
            it.seq() == text@,
    {
        out.push(c);
    }
    out
}

/// The text made of `chars[from..to]`.
pub fn slice(chars: &Vec<char>, from: usize, to: usize) -> (r: String)
    requires
        from <= to <= chars@.len(),
    ensures
        r@ == chars@.subrange(from as int, to as int),
{
    let mut out = String::new();
    let mut i: usize = from;
    while i < to
        invariant
            from <= i <= to <= chars@.len(),
            out@ == chars@.subrange(from as int, i as int),
        decreases to - i,
    {
        out.push(chars[i]);
        i += 1;
    }
    out
}

/// The text made of all of `chars`.
pub fn of_chars(chars: &Vec<char>) -> (r: String)
    ensures
        r@ == chars@,
{
    let r = slice(chars, 0, chars.len());
    assert(r@ =~= chars@);
    r
}

/// The UTF-8 encoding of `text`.
pub fn to_bytes(text: &str) -> (r: Vec<u8>)
    ensures
        r@ == vstd::utf8::encode_utf8(text@),
{
    let bytes = text.as_bytes();
    let mut out: Vec<u8> = Vec::new();
    let mut i: usize = 0;
    while i < bytes.len()
        invariant
            i <= bytes@.len(),
            out@ == bytes@.take(i as int),
        decreases bytes.len() - i,
    {
        out.push(bytes[i]);
        assert(out@ =~= bytes@.take(i + 1));
        i += 1;
    }
    assert(bytes@.take(i as int) =~= bytes@);
    out
}

pub fn is_white_char(c: char) -> (r: bool)
    ensures
        r == is_white(c),
{
    ('\u{9}' <= c && c <= '\u{d}') || c == ' ' || c == '\u{85}' || c == '\u{a0}' || c
        == '\u{1680}' || ('\u{2000}' <= c && c <= '\u{200a}') || c == '\u{2028}' || c
        == '\u{2029}' || c == '\u{202f}' || c == '\u{205f}' || c == '\u{3000}'
}

pub fn to_lower_char(c: char) -> (r: char)
    ensures
        r == lower_char(c),
{
    if 'A' <= c && c <= 'Z' {
        (c as u8 + 32) as char
    } else {
        c
    }
}

// ------------------------------------------------------------ comparing

/// Whether two texts are the same.
pub fn same(a: &str, b: &str) -> (r: bool)
    ensures
        r == (a@ == b@),
{
    let x = to_chars(a);
    let y = to_chars(b);
    if x.len() != y.len() {
        return false;
    }
    let mut i: usize = 0;
    while i < x.len()
        invariant
            i <= x.len() == y.len(),
            x@.take(i as int) == y@.take(i as int),
            x@ == a@,
            y@ == b@,
        decreases x.len() - i,
    {
        if x[i] != y[i] {
            return false;
        }
        i += 1;
    }
    assert(x@.take(i as int) =~= x@);
    assert(y@.take(i as int) =~= y@);
    true
}

/// Whether two texts are the same when the case of `A`–`Z` is ignored.
pub fn eq_ignore_ascii_case(a: &str, b: &str) -> (r: bool)
    ensures
        r == same_letters(a@, b@),
{
    let x = to_chars(a);
    let y = to_chars(b);
    if x.len() != y.len() {
        assert(ascii_lower(a@).len() != ascii_lower(b@).len());
        return false;
    }
    let mut i: usize = 0;
    while i < x.len()
        invariant
            i <= x.len() == y.len(),
            forall|j: int| 0 <= j < i ==> lower_char(x@[j]) == lower_char(y@[j]),
            x@ == a@,
            y@ == b@,
        decreases x.len() - i,
    {
        if to_lower_char(x[i]) != to_lower_char(y[i]) {
            assert(ascii_lower(a@)[i as int] != ascii_lower(b@)[i as int]);
            return false;
        }
        i += 1;
    }
    assert(ascii_lower(a@) =~= ascii_lower(b@));
    true
}

/// Whether `text` begins with `prefix`.
pub fn has_prefix(text: &str, prefix: &str) -> (r: bool)
    ensures
        r == starts_with(text@, prefix@),
{
    let x = to_chars(text);
    let y = to_chars(prefix);
    if x.len() < y.len() {
        return false;
    }
    let mut i: usize = 0;
    while i < y.len()
        invariant
            i <= y.len() <= x.len(),
            x@.take(i as int) == y@.take(i as int),
            x@ == text@,
            y@ == prefix@,
        decreases y.len() - i,
    {
        if x[i] != y[i] {
            assert(x@.take(y.len() as int)[i as int] != y@[i as int]);
            return false;
        }
        i += 1;
    }
    assert(y@.take(i as int) =~= y@);
    true
}

/// Dictionary order by code point.
pub fn is_before(a: &Vec<char>, b: &Vec<char>) -> (r: bool)
    ensures
        r == precedes(a@, b@),
{
    let mut i: usize = 0;
    assert(a@.skip(0) =~= a@);
    assert(b@.skip(0) =~= b@);
    loop
        invariant
            i <= a.len(),
            i <= b.len(),
            precedes(a@, b@) == precedes(a@.skip(i as int), b@.skip(i as int)),
        decreases a.len() - i,
    {
        if i >= b.len() {
            return false;
        }
        if i >= a.len() {
            return true;
        }
        if a[i] != b[i] {
            return a[i] < b[i];
        }
        assert(a@.skip(i as int).drop_first() =~= a@.skip(i + 1));
        assert(b@.skip(i as int).drop_first() =~= b@.skip(i + 1));
        i += 1;
    }
}

// ------------------------------------------------------------ trimming

proof fn lemma_trim_start_step(s: Seq<char>, i: int)
    requires
        0 <= i < s.len(),
        is_white(s[i]),
    ensures
        trim_start(s.skip(i)) == trim_start(s.skip(i + 1)),
{
    assert(s.skip(i).drop_first() =~= s.skip(i + 1));
}

proof fn lemma_trim_end_step(s: Seq<char>, i: int)
    requires
        0 < i <= s.len(),
        is_white(s[i - 1]),
    ensures
        trim_end(s.take(i)) == trim_end(s.take(i - 1)),
{
    assert(s.take(i).drop_last() =~= s.take(i - 1));
}

/// `text` without the white space it ends with.
pub fn trimmed_end(text: &str) -> (r: String)
    ensures
        r@ == trim_end(text@),
{
    let chars = to_chars(text);
    let mut to: usize = chars.len();
    assert(chars@.take(to as int) =~= text@);
    while to > 0 && is_white_char(chars[to - 1])
        invariant
            to <= chars.len(),
            trim_end(chars@.take(to as int)) == trim_end(text@),
        decreases to,
    {
        proof {
            lemma_trim_end_step(chars@, to as int);
        }
        to -= 1;
    }
    assert(chars@.take(to as int) =~= chars@.subrange(0, to as int));
    slice(&chars, 0, to)
}

/// `text` without the white space it starts with.
pub fn trimmed_start(text: &str) -> (r: String)
    ensures
        r@ == trim_start(text@),
{
    let chars = to_chars(text);
    let mut from: usize = 0;
    assert(chars@.skip(0) =~= text@);
    while from < chars.len() && is_white_char(chars[from])
        invariant
            from <= chars.len(),
            trim_start(chars@.skip(from as int)) == trim_start(text@),
        decreases chars.len() - from,
    {
        proof {
            lemma_trim_start_step(chars@, from as int);
        }
        from += 1;
    }
    assert(chars@.skip(from as int) =~= chars@.subrange(from as int, chars@.len() as int));
    slice(&chars, from, chars.len())
}

/// `text` without the white space around it.
pub fn trimmed(text: &str) -> (r: String)
    ensures
        r@ == trim(text@),
{
    let start = trimmed_start(text);
    trimmed_end(start.as_str())
}

// ------------------------------------------------------------ searching

/// Whether `needle` stands at `i`.
pub fn stands_at(chars: &Vec<char>, needle: &Vec<char>, i: usize) -> (r: bool)
    ensures
        r == occurs_at(chars@, needle@, i as int),
{
    if needle.len() > chars.len() || i > chars.len() - needle.len() {
        return false;
    }
    let mut j: usize = 0;
    while j < needle.len()
        invariant
            i + needle.len() <= chars.len(),
            j <= needle.len(),
            chars@.subrange(i as int, i + j) == needle@.take(j as int),
        decreases needle.len() - j,
    {
        if chars[i + j] != needle[j] {
            assert(chars@.subrange(i as int, i + needle@.len())[j as int] != needle@[j as int]);
            return false;
        }
        j += 1;
    }
    assert(needle@.take(j as int) =~= needle@);
    true
}

/// The first place at or after `from` where `needle` stands, or the length of
/// the text.
pub fn find_at(chars: &Vec<char>, needle: &Vec<char>, from: usize) -> (r: usize)
    requires
        from <= chars@.len(),
    ensures
        r == find_from(chars@, needle@, from as int),
        from <= r <= chars@.len(),
        r < chars@.len() ==> occurs_at(chars@, needle@, r as int),
{
    let mut i: usize = from;
    while i < chars.len()
        invariant
            from <= i <= chars.len(),
            find_from(chars@, needle@, from as int) == find_from(chars@, needle@, i as int),
        decreases chars.len() - i,
    {
        if stands_at(chars, needle, i) {
            return i;
        }
        i += 1;
    }
    i
}

/// Nothing before the place found matches.
pub proof fn lemma_find_from(s: Seq<char>, needle: Seq<char>, from: int)
    requires
        0 <= from <= s.len(),
    ensures
        from <= find_from(s, needle, from) <= s.len(),
        forall|i: int|
            from <= i < find_from(s, needle, from) ==> !occurs_at(s, needle, i),
        find_from(s, needle, from) < s.len() ==> occurs_at(
            s,
            needle,
            find_from(s, needle, from),
        ),
    decreases s.len() - from,
{
    if from < s.len() && !occurs_at(s, needle, from) {
        lemma_find_from(s, needle, from + 1);
    }
}

/// Whether `needle` stands somewhere in `text`.
pub fn has(text: &str, needle: &str) -> (r: bool)
    ensures
        r == contains(text@, needle@),
{
    let chars = to_chars(text);
    let wanted = to_chars(needle);
    if wanted.len() == 0 {
        assert(text@.subrange(0, 0) =~= needle@);
        assert(occurs_at(text@, needle@, 0));
        return true;
    }
    let at = find_at(&chars, &wanted, 0);
    proof {
        lemma_find_from(chars@, wanted@, 0);
    }
    at < chars.len()
}

// ------------------------------------------------------------ splitting

pub proof fn lemma_split_len(s: Seq<char>, sep: char)
    ensures
        split(s, sep).len() >= 1,
    decreases s.len(),
{
    if s.len() > 0 {
        lemma_split_len(s.drop_last(), sep);
    }
}

/// A separator between two texts separates their pieces.
pub proof fn lemma_split_append(a: Seq<char>, b: Seq<char>, sep: char)
    ensures
        split(a.push(sep) + b, sep) == split(a, sep) + split(b, sep),
    decreases b.len(),
{
    let whole = a.push(sep) + b;
    if b.len() == 0 {
        assert(whole =~= a.push(sep));
        assert(whole.drop_last() =~= a);
        assert(split(a, sep).push(Seq::empty()) =~= split(a, sep) + seq![Seq::<char>::empty()]);
    } else {
        lemma_split_append(a, b.drop_last(), sep);
        lemma_split_len(b.drop_last(), sep);
        assert(whole.drop_last() =~= a.push(sep) + b.drop_last());
        let before = split(b.drop_last(), sep);
        if b.last() == sep {
            assert((split(a, sep) + before).push(Seq::empty()) =~= split(a, sep) + before.push(
                Seq::empty(),
            ));
        } else {
            let longer = before.last().push(b.last());
            assert((split(a, sep) + before).update(split(a, sep).len() + before.len() - 1, longer)
                =~= split(a, sep) + before.update(before.len() - 1, longer));
        }
    }
}

/// A text without separators is its own only piece.
pub proof fn lemma_split_plain(s: Seq<char>, sep: char)
    requires
        !s.contains(sep),
    ensures
        split(s, sep) == seq![s],
    decreases s.len(),
{
    if s.len() > 0 {
        let init = s.drop_last();
        assert forall|i: int| 0 <= i < init.len() implies init[i] != sep by {
            assert(s.contains(s[i]));
        }
        lemma_split_plain(init, sep);
        assert(s.contains(s.last()));
        assert(init.push(s.last()) =~= s);
        assert(split(init, sep).update(0, s) =~= seq![s]);
    } else {
        assert(s =~= Seq::<char>::empty());
    }
}

/// No piece holds a separator.
pub proof fn lemma_split_free(s: Seq<char>, sep: char)
    ensures
        forall|i: int| 0 <= i < split(s, sep).len() ==> !(#[trigger] split(s, sep)[i]).contains(sep),
    decreases s.len(),
{
    if s.len() > 0 {
        let before = split(s.drop_last(), sep);
        lemma_split_free(s.drop_last(), sep);
        lemma_split_len(s.drop_last(), sep);
        assert forall|i: int| 0 <= i < split(s, sep).len() implies !(#[trigger] split(
            s,
            sep,
        )[i]).contains(sep) by {
            if s.last() != sep && i == before.len() - 1 {
                let longer = before.last().push(s.last());
                assert(!before[before.len() - 1].contains(sep));
                assert forall|j: int| 0 <= j < longer.len() implies longer[j] != sep by {
                    if j < before.last().len() {
                        assert(before.last().contains(before.last()[j]));
                    }
                }
            } else if i < before.len() {
                assert(split(s, sep)[i] == before[i]);
            }
        }
    }
}

/// A text that starts with a separator has an empty first piece.
pub proof fn lemma_split_first(s: Seq<char>, sep: char)
    requires
        s.len() > 0,
    ensures
        s[0] == sep <==> split(s, sep)[0].len() == 0,
        s[0] == sep ==> split(s, sep).len() > 1,
        s[0] != sep ==> split(s, sep)[0][0] == s[0],
    decreases s.len(),
{
    lemma_split_len(s.drop_last(), sep);
    if s.len() > 1 {
        lemma_split_first(s.drop_last(), sep);
    } else {
        assert(s.drop_last() =~= Seq::<char>::empty());
    }
}

/// Pieces that hold no separator come back out of the text they are joined to.
pub proof fn lemma_split_join(parts: Seq<Seq<char>>, sep: char)
    requires
        parts.len() > 0,
        forall|i: int| 0 <= i < parts.len() ==> !(#[trigger] parts[i]).contains(sep),
    ensures
        split(join(parts, seq![sep]), sep) == parts,
    decreases parts.len(),
{
    let last = parts.last();
    assert(!parts[parts.len() - 1].contains(sep));
    lemma_split_plain(last, sep);
    if parts.len() == 1 {
        assert(parts =~= seq![last]);
    } else {
        let init = parts.drop_last();
        assert forall|i: int| 0 <= i < init.len() implies !(#[trigger] init[i]).contains(sep) by {
            assert(init[i] == parts[i]);
        }
        lemma_split_join(init, sep);
        let a = join(init, seq![sep]);
        lemma_split_append(a, last, sep);
        assert(a + seq![sep] + last =~= a.push(sep) + last);
        assert(init + seq![last] =~= parts);
    }
}

/// The pieces of a text, joined again, are that text.
pub proof fn lemma_join_split(s: Seq<char>, sep: char)
    ensures
        join(split(s, sep), seq![sep]) == s,
    decreases s.len(),
{
    if s.len() > 0 {
        let init = s.drop_last();
        let before = split(init, sep);
        lemma_join_split(init, sep);
        lemma_split_len(init, sep);
        let now = split(s, sep);
        if s.last() == sep {
            assert(now.drop_last() =~= before);
            assert(join(now, seq![sep]) =~= init + seq![sep] + Seq::<char>::empty());
            assert(join(now, seq![sep]) =~= s);
        } else {
            assert(now.drop_last() =~= before.drop_last());
            assert(now.last() == before.last().push(s.last()));
            if before.len() == 1 {
                assert(now[0] == init.push(s.last()));
                assert(init.push(s.last()) =~= s);
                assert(now.len() == 1);
                assert(join(now, seq![sep]) == now[0]);
            } else {
                let short = join(before.drop_last(), seq![sep]) + seq![sep];
                assert(join(now, seq![sep]) =~= short + before.last().push(s.last()));
                assert(short + before.last() == init);
                assert(short + before.last().push(s.last()) =~= (short + before.last()).push(
                    s.last(),
                ));
                assert(init.push(s.last()) =~= s);
            }
        }
    }
}

/// The pieces of `text` between the separators.
pub fn pieces(text: &str, sep: char) -> (r: Vec<String>)
    ensures
        views(r@) == split(text@, sep),
{
    let chars = to_chars(text);
    let mut out: Vec<String> = Vec::new();
    let mut piece = String::new();
    let mut i: usize = 0;
    assert(chars@.take(0) =~= Seq::<char>::empty());
    assert(views(out@).push(piece@) =~= split(chars@.take(0), sep));
    while i < chars.len()
        invariant
            i <= chars.len(),
            views(out@).push(piece@) == split(chars@.take(i as int), sep),
        decreases chars.len() - i,
    {
        let c = chars[i];
        let ghost before = split(chars@.take(i as int), sep);
        assert(chars@.take(i + 1).drop_last() =~= chars@.take(i as int));
        assert(before.drop_last() =~= views(out@));
        if c == sep {
            let ghost was = views(out@);
            out.push(piece);
            assert(views(out@) =~= was.push(piece@));
            piece = String::new();
        } else {
            piece.push(c);
            assert(views(out@).push(piece@) =~= before.update(before.len() - 1, piece@));
        }
        i += 1;
    }
    assert(chars@.take(i as int) =~= text@);
    let ghost was = views(out@);
    out.push(piece);
    assert(views(out@) =~= was.push(piece@));
    out
}

/// The pieces of `text` between the occurrences of `needle`.
pub fn pieces_on(text: &str, needle: &str) -> (r: Vec<String>)
    requires
        needle@.len() > 0,
    ensures
        views(r@) == split_on(text@, needle@),
{
    let chars = to_chars(text);
    let wanted = to_chars(needle);
    let mut out: Vec<String> = Vec::new();
    let mut from: usize = 0;
    assert(views(out@) + split_from(chars@, wanted@, 0) =~= split_from(chars@, wanted@, 0));
    loop
        invariant
            wanted.len() > 0,
            from <= chars.len(),
            views(out@) + split_from(chars@, wanted@, from as int) == split_from(
                chars@,
                wanted@,
                0,
            ),
            text@ == chars@,
            needle@ == wanted@,
        decreases chars.len() - from,
    {
        let at = find_at(&chars, &wanted, from);
        let ghost was = views(out@);
        if at < chars.len() {
            let piece = slice(&chars, from, at);
            out.push(piece);
            assert(views(out@) =~= was.push(piece@));
            from = at + wanted.len();
            assert(views(out@) + split_from(chars@, wanted@, from as int) =~= was + (seq![piece@]
                + split_from(chars@, wanted@, from as int)));
        } else {
            let piece = slice(&chars, from, chars.len());
            assert(piece@ =~= chars@.skip(from as int));
            out.push(piece);
            assert(views(out@) =~= was + seq![piece@]);
            return out;
        }
    }
}

// ------------------------------------------------------------ joining

/// The texts put together, with `sep` between neighbours.
pub fn joined(parts: &Vec<String>, sep: &str) -> (r: String)
    ensures
        r@ == join(views(parts@), sep@),
{
    let mut out = String::new();
    let mut i: usize = 0;
    assert(views(parts@).take(0) =~= Seq::<Seq<char>>::empty());
    while i < parts.len()
        invariant
            i <= parts.len(),
            out@ == join(views(parts@).take(i as int), sep@),
        decreases parts.len() - i,
    {
        let ghost next = views(parts@).take(i + 1);
        assert(next.drop_last() =~= views(parts@).take(i as int));
        if i > 0 {
            out.append(sep);
        }
        out.append(parts[i].as_str());
        assert(i == 0 ==> out@ =~= parts@[0]@);
        i += 1;
    }
    assert(views(parts@).take(i as int) =~= views(parts@));
    out
}

/// Every occurrence of `needle` replaced by `with`.
pub fn replaced(text: &str, needle: &str, with: &str) -> (r: String)
    requires
        needle@.len() > 0,
    ensures
        r@ == replace(text@, needle@, with@),
{
    let parts = pieces_on(text, needle);
    joined(&parts, with)
}

/// `n` in decimal.
pub fn number(n: u128) -> (r: String)
    ensures
        r@ == decimal(n as nat),
    decreases n,
{
    let mut out = if n < 10 {
        String::new()
    } else {
        number(n / 10)
    };
    let d: u8 = (n % 10) as u8;
    out.push((48 + d) as char);
    assert(n < 10 ==> out@ =~= seq![digit(n as nat)]);
    out
}

// --------------------------------------------------------------- more laws

/// Trimming takes white space off both ends and nothing else: what is left
/// neither starts nor ends with any, and what is taken off is nothing else.
pub proof fn lemma_trim(s: Seq<char>)
    ensures
        exists|a: int, b: int|
            0 <= a <= b <= s.len() && trim(s) == #[trigger] s.subrange(a, b) && (forall|i: int|
                0 <= i < a || b <= i < s.len() ==> is_white(#[trigger] s[i])),
        trim(s).len() > 0 ==> !is_white(trim(s)[0]) && !is_white(trim(s).last()),
{
    lemma_trim_start(s);
    let t = trim_start(s);
    let a = s.len() - t.len();
    lemma_trim_end_cut(t);
    let b = a + trim(s).len();
    assert(trim(s) =~= s.subrange(a, b));
    assert forall|i: int| 0 <= i < a || b <= i < s.len() implies is_white(#[trigger] s[i]) by {
        if i >= b {
            assert(t[i - a] == s[i]);
        }
    }
    if trim(s).len() > 0 {
        assert(trim(s)[0] == t[0]);
    }
}

proof fn lemma_trim_start(s: Seq<char>)
    ensures
        trim_start(s).len() <= s.len(),
        trim_start(s) == s.skip(s.len() - trim_start(s).len()),
        forall|i: int|
            0 <= i < s.len() - trim_start(s).len() ==> is_white(#[trigger] s[i]),
        trim_start(s).len() > 0 ==> !is_white(trim_start(s)[0]),
    decreases s.len(),
{
    if s.len() > 0 && is_white(s[0]) {
        let rest = s.drop_first();
        lemma_trim_start(rest);
        let k = trim_start(s).len();
        assert(rest.skip(rest.len() - k) =~= s.skip(s.len() - k));
        assert forall|i: int| 0 <= i < s.len() - k implies is_white(#[trigger] s[i]) by {
            if i > 0 {
                assert(rest[i - 1] == s[i]);
            }
        }
    } else {
        assert(s.skip(0) =~= s);
    }
}

proof fn lemma_trim_end_cut(s: Seq<char>)
    ensures
        trim_end(s).len() <= s.len(),
        trim_end(s) == s.take(trim_end(s).len() as int),
        forall|i: int| trim_end(s).len() <= i < s.len() ==> is_white(#[trigger] s[i]),
        trim_end(s).len() > 0 ==> !is_white(trim_end(s).last()),
    decreases s.len(),
{
    if s.len() > 0 && is_white(s.last()) {
        let init = s.drop_last();
        lemma_trim_end_cut(init);
        let k = trim_end(s).len();
        assert(init.take(k as int) =~= s.take(k as int));
        assert forall|i: int| k <= i < s.len() implies is_white(#[trigger] s[i]) by {
            if i < init.len() {
                assert(init[i] == s[i]);
            }
        }
    } else {
        assert(s.take(s.len() as int) =~= s);
    }
}

/// A text without white space at its ends is its own trimmed form.
pub proof fn lemma_trim_plain(s: Seq<char>)
    requires
        s.len() > 0 ==> !is_white(s[0]) && !is_white(s.last()),
    ensures
        trim(s) == s,
{
}

proof fn lemma_join_first(parts: Seq<Seq<char>>, sep: Seq<char>)
    requires
        parts.len() > 1,
    ensures
        join(parts, sep) == parts[0] + sep + join(parts.drop_first(), sep),
    decreases parts.len(),
{
    if parts.len() == 2 {
        assert(parts.drop_last() =~= seq![parts[0]]);
        assert(parts.drop_first() =~= seq![parts[1]]);
        assert(join(parts.drop_last(), sep) == parts[0]);
        assert(join(parts.drop_first(), sep) == parts[1]);
    } else {
        lemma_join_first(parts.drop_last(), sep);
        assert(parts.drop_last().drop_first() =~= parts.drop_first().drop_last());
        assert(join(parts, sep) =~= parts[0] + sep + join(parts.drop_first(), sep));
    }
}

proof fn lemma_split_from_join(
    s: Seq<char>,
    from: int,
    parts: Seq<Seq<char>>,
    needle: Seq<char>,
)
    requires
        0 <= from <= s.len(),
        parts.len() > 0,
        needle.len() > 0,
        forall|i: int| 0 <= i < parts.len() ==> !(#[trigger] parts[i]).contains(needle[0]),
        s.skip(from) == join(parts, needle),
    ensures
        split_from(s, needle, from) == parts,
    decreases parts.len(),
{
    let first = parts[0];
    let rest = s.skip(from);
    lemma_find_from(s, needle, from);
    let at = find_from(s, needle, from);
    if parts.len() == 1 {
        assert(rest == first);
        if at < s.len() {
            assert(s.subrange(at, at + needle.len())[0] == s[at]);
            assert(rest[at - from] == s[at]);
            assert(first.contains(needle[0]));
        }
        assert(parts =~= seq![s.skip(from)]);
    } else {
        lemma_join_first(parts, needle);
        let tail = parts.drop_first();
        let k = from + first.len();
        assert(rest =~= first + needle + join(tail, needle));
        assert(s.len() == from + rest.len());
        assert(s.subrange(k, k + needle.len()) =~= needle) by {
            assert forall|j: int| 0 <= j < needle.len() implies s[k + j] == needle[j] by {
                assert(rest[first.len() + j] == s[k + j]);
            }
        }
        assert(occurs_at(s, needle, k));
        if at < k {
            assert(s.subrange(at, at + needle.len())[0] == s[at]);
            assert(rest[at - from] == s[at]);
            assert(rest[at - from] == first[at - from]);
            assert(first.contains(needle[0]));
        }
        assert(at == k);
        assert(s.subrange(from, at) =~= first) by {
            assert forall|j: int| 0 <= j < first.len() implies s[from + j] == first[j] by {
                assert(rest[j] == s[from + j]);
            }
        }
        assert(s.skip(k + needle.len()) =~= join(tail, needle)) by {
            assert forall|j: int| 0 <= j < join(tail, needle).len() implies s[k + needle.len() + j]
                == join(tail, needle)[j] by {
                assert(rest[first.len() + needle.len() + j] == s[k + needle.len() + j]);
            }
        }
        assert forall|i: int| 0 <= i < tail.len() implies !(#[trigger] tail[i]).contains(
            needle[0],
        ) by {
            assert(tail[i] == parts[i + 1]);
        }
        lemma_split_from_join(s, k + needle.len(), tail, needle);
        assert(seq![first] + tail =~= parts);
    }
}

/// Pieces that do not hold the first character of `needle` come back out of the
/// text they are joined to.
pub proof fn lemma_split_on_join(parts: Seq<Seq<char>>, needle: Seq<char>)
    requires
        parts.len() > 0,
        needle.len() > 0,
        forall|i: int| 0 <= i < parts.len() ==> !(#[trigger] parts[i]).contains(needle[0]),
    ensures
        split_on(join(parts, needle), needle) == parts,
{
    let s = join(parts, needle);
    assert(s.skip(0) =~= s);
    lemma_split_from_join(s, 0, parts, needle);
}

/// The first of two joined texts comes first.
pub proof fn lemma_joined_ends(parts: Seq<Seq<char>>, sep: Seq<char>)
    requires
        parts.len() > 0,
    ensures
        starts_with(join(parts, sep), parts[0]),
        parts.len() > 1 ==> join(parts, sep) == parts[0] + sep + join(parts.drop_first(), sep),
{
    if parts.len() > 1 {
        lemma_join_first(parts, sep);
    }
    assert(join(parts, sep).take(parts[0].len() as int) =~= parts[0]);
}

/// Two texts are equal but for the case of their letters when they are as long
/// as each other and agree letter by letter.
pub proof fn lemma_letters(a: Seq<char>, b: Seq<char>)
    ensures
        same_letters(a, b) <==> a.len() == b.len() && forall|i: int|
            0 <= i < a.len() ==> lower_char(#[trigger] a[i]) == lower_char(b[i]),
{
    if same_letters(a, b) {
        assert(ascii_lower(a).len() == ascii_lower(b).len());
        assert forall|i: int| 0 <= i < a.len() implies lower_char(#[trigger] a[i]) == lower_char(
            b[i],
        ) by {
            assert(ascii_lower(a)[i] == ascii_lower(b)[i]);
        }
    } else if a.len() == b.len() && forall|i: int|
        0 <= i < a.len() ==> lower_char(#[trigger] a[i]) == lower_char(b[i]) {
        assert(ascii_lower(a) =~= ascii_lower(b));
    }
}

/// Lower case is made of the letters `A` to `Z` alone, and upper case of `a` to
/// `z`, in a text of ASCII characters; each is thirty-two places from the other.
pub proof fn lemma_case(s: Seq<char>, i: int)
    requires
        all_ascii(s),
        0 <= i < s.len(),
    ensures
        lower(s).len() == s.len(),
        upper(s).len() == s.len(),
        'A' <= s[i] && s[i] <= 'Z' ==> lower(s)[i] as int == s[i] as int + 32 && upper(s)[i] == s[i],
        'a' <= s[i] && s[i] <= 'z' ==> upper(s)[i] as int == s[i] as int - 32 && lower(s)[i] == s[i],
        !('A' <= s[i] && s[i] <= 'Z') && !('a' <= s[i] && s[i] <= 'z') ==> lower(s)[i] == s[i]
            && upper(s)[i] == s[i],
{
}

/// The number that decimal digits spell.
pub open spec fn spelled_by(s: Seq<char>) -> int
    decreases s.len(),
{
    if s.len() == 0 {
        0
    } else {
        10 * spelled_by(s.drop_last()) + (s.last() as int - '0' as int)
    }
}

/// A number is written in the digits that spell it, with none too many in front.
pub proof fn lemma_decimal(n: nat)
    ensures
        spelled_by(decimal(n)) == n,
        decimal(n).len() > 0,
        n > 0 ==> decimal(n)[0] != '0',
        forall|i: int| 0 <= i < decimal(n).len() ==> '0' <= #[trigger] decimal(n)[i] <= '9',
    decreases n,
{
    if n < 10 {
        assert(decimal(n) =~= seq![digit(n)]);
        assert(decimal(n).drop_last() =~= Seq::<char>::empty());
        assert(spelled_by(Seq::<char>::empty()) == 0);
    } else {
        lemma_decimal(n / 10);
        assert(decimal(n).drop_last() =~= decimal(n / 10));
    }
}

} // verus!
