//! Minimal s-expression handling for KiCad `.kicad_sym` libraries.
//!
//! Enough to split a library into its top-level `(symbol "NAME" ...)` blocks
//! and splice them into a combined library, without reformatting the parts of
//! the file we do not touch.

use vstd::prelude::*;
use vstd::string::*;

use crate::order;
use crate::paths;
use crate::paths::with_extension;
use crate::text;
use crate::text::{
    is_white_char, number, same, slice, to_chars, to_lowercase, trimmed_end, trimmed_start,
};

verus! {

pub const DEFAULT_HEADER: &'static str =
    "(kicad_symbol_lib (version 20211014) (generator cse-importer)";

pub struct SymbolBlock {
    pub name: String,
    /// Verbatim source text, from the opening `(` to its matching `)`.
    pub text: String,
}

pub struct SymbolLib {
    /// Everything before the first symbol, i.e. `(kicad_symbol_lib (version …)`
    /// together with any non-symbol children such as `(generator …)`.
    pub header: String,
    pub symbols: Vec<SymbolBlock>,
}

#[verifier::ext_equal]
pub struct BlockView {
    pub name: Seq<char>,
    pub text: Seq<char>,
}

#[verifier::ext_equal]
pub struct LibView {
    pub header: Seq<char>,
    pub symbols: Seq<BlockView>,
}

impl View for SymbolBlock {
    type V = BlockView;

    open spec fn view(&self) -> BlockView {
        BlockView { name: self.name@, text: self.text@ }
    }
}

impl View for SymbolLib {
    type V = LibView;

    open spec fn view(&self) -> LibView {
        LibView { header: self.header@, symbols: block_views(self.symbols@) }
    }
}

impl Clone for SymbolBlock {
    fn clone(&self) -> (r: SymbolBlock)
        ensures
            r@ == self@,
    {
        SymbolBlock { name: self.name.clone(), text: self.text.clone() }
    }
}

pub open spec fn block_views(list: Seq<SymbolBlock>) -> Seq<BlockView> {
    list.map_values(|b: SymbolBlock| b@)
}

// ----------------------------------------------------------------- nesting

/// Where a reader of an s-expression stands: how many forms are open, and
/// whether it is inside a quoted string or behind a backslash in one.
pub struct Nest {
    pub depth: nat,
    pub quoted: bool,
    pub escaped: bool,
}

pub open spec fn plain(depth: nat) -> Nest {
    Nest { depth, quoted: false, escaped: false }
}

/// Where the reader stands after one more character.
pub open spec fn step(n: Nest, c: char) -> Nest {
    if n.quoted {
        Nest {
            depth: n.depth,
            quoted: n.escaped || c != '"',
            escaped: !n.escaped && c == '\\',
        }
    } else if c == '"' {
        Nest { depth: n.depth, quoted: true, escaped: false }
    } else if c == '(' {
        plain(n.depth + 1)
    } else if c == ')' && n.depth > 0 {
        plain((n.depth - 1) as nat)
    } else {
        plain(n.depth)
    }
}

/// Where a reader that stood at `from` stands after the first `i` characters.
pub open spec fn nest_from(from: Nest, s: Seq<char>, i: int) -> Nest
    decreases i,
{
    if i <= 0 {
        from
    } else {
        step(nest_from(from, s, i - 1), s[i - 1])
    }
}

pub open spec fn nest(s: Seq<char>, i: int) -> Nest {
    nest_from(plain(0), s, i)
}

/// A form directly inside the library form opens at `i`.
pub open spec fn opens(s: Seq<char>, i: int) -> bool {
    nest(s, i) == plain(1) && s[i] == '('
}

/// A form directly inside the library form ends with the character at `i`.
pub open spec fn ends(s: Seq<char>, i: int) -> bool {
    nest(s, i) == plain(2) && s[i] == ')'
}

/// The library form itself ends with the character at `i`.
pub open spec fn closes(s: Seq<char>, i: int) -> bool {
    nest(s, i) == plain(1) && s[i] == ')'
}

/// Where the last form before `i` directly inside the library form opened.
pub open spec fn opened(s: Seq<char>, i: int) -> int
    decreases i,
{
    if i <= 0 {
        0
    } else if opens(s, i - 1) {
        i - 1
    } else {
        opened(s, i - 1)
    }
}

/// The forms directly inside the library form that have ended before `i`, each
/// by where it begins and where it ends.
pub open spec fn children(s: Seq<char>, i: int) -> Seq<(int, int)>
    decreases i,
{
    if i <= 0 {
        Seq::empty()
    } else if ends(s, i - 1) {
        children(s, i - 1).push((opened(s, i - 1), i))
    } else {
        children(s, i - 1)
    }
}

/// The first place at or after `from` where the library form ends, or the
/// length of the text.
pub open spec fn close_from(s: Seq<char>, from: int) -> int
    decreases s.len() - from,
{
    if from >= s.len() {
        s.len() as int
    } else if closes(s, from) {
        from
    } else {
        close_from(s, from + 1)
    }
}

// ----------------------------------------------------------------- blocks

pub open spec fn is_delimiter(c: char) -> bool {
    text::is_white(c) || c == '(' || c == ')'
}

/// The characters up to the first delimiter.
pub open spec fn atom(s: Seq<char>) -> Seq<char>
    decreases s.len(),
{
    if s.len() == 0 || is_delimiter(s[0]) {
        Seq::empty()
    } else {
        seq![s[0]] + atom(s.drop_first())
    }
}

/// The form is a `(symbol …)`.
pub open spec fn is_symbol(block: Seq<char>) -> bool {
    block.len() > 0 && block[0] == '(' && atom(text::trim_start(block.drop_first())) == "symbol"@
}

/// The text up to the closing quote, with escapes unwrapped.
pub open spec fn quoted_text(s: Seq<char>) -> Option<Seq<char>>
    decreases s.len(),
{
    if s.len() == 0 {
        None
    } else if s[0] == '"' {
        Some(Seq::empty())
    } else if s[0] == '\\' {
        if s.len() == 1 {
            None
        } else {
            match quoted_text(s.skip(2)) {
                Some(rest) => Some(seq![s[1]] + rest),
                None => None,
            }
        }
    } else {
        match quoted_text(s.drop_first()) {
            Some(rest) => Some(seq![s[0]] + rest),
            None => None,
        }
    }
}

/// The first double-quoted string in a form.
pub open spec fn name_of(block: Seq<char>) -> Option<Seq<char>>
    decreases block.len(),
{
    if block.len() == 0 {
        None
    } else if block[0] == '"' {
        quoted_text(block.drop_first())
    } else {
        name_of(block.drop_first())
    }
}

/// The symbols among the first `n` forms.
pub open spec fn symbols_in(s: Seq<char>, forms: Seq<(int, int)>) -> Seq<(int, int)> {
    forms.filter(|f: (int, int)| is_symbol(s.subrange(f.0, f.1)))
}

pub open spec fn block_at(s: Seq<char>, form: (int, int)) -> BlockView {
    let block = s.subrange(form.0, form.1);
    BlockView { name: name_of(block).unwrap(), text: block }
}

/// How many bytes a character takes in UTF-8.
pub open spec fn utf8_width(c: char) -> nat {
    if c as u32 <= 0x7f {
        1
    } else if c as u32 <= 0x7ff {
        2
    } else if c as u32 <= 0xffff {
        3
    } else {
        4
    }
}

/// How many bytes the first `i` characters take in UTF-8.
pub open spec fn byte_offset(s: Seq<char>, i: int) -> nat
    decreases i,
{
    if i <= 0 {
        0
    } else {
        byte_offset(s, i - 1) + utf8_width(s[i - 1])
    }
}

pub open spec fn is_ascii_space(c: char) -> bool {
    c == ' ' || c == '\t' || c == '\n' || c == '\r' || c == '\u{c}'
}

/// The first character at or after `from` that is not ASCII white space.
pub open spec fn first_solid(s: Seq<char>, from: int) -> int
    decreases s.len() - from,
{
    if from >= s.len() || !is_ascii_space(s[from]) {
        from
    } else {
        first_solid(s, from + 1)
    }
}

/// The first of the forms that has no name, as a place in the list.
pub open spec fn first_nameless(s: Seq<char>, forms: Seq<(int, int)>) -> Option<int>
    decreases forms.len(),
{
    if forms.len() == 0 {
        None
    } else {
        match first_nameless(s, forms.drop_last()) {
            Some(i) => Some(i),
            None => if name_of(s.subrange(forms.last().0, forms.last().1)) is None {
                Some(forms.len() - 1)
            } else {
                None
            },
        }
    }
}

/// What a `.kicad_sym` text says.
pub open spec fn parsed(s: Seq<char>) -> Result<LibView, Seq<char>> {
    let at = first_solid(s, 0);
    let close = close_from(s, 0);
    let symbols = symbols_in(s, children(s, close));
    if at >= s.len() || s[at] != '(' {
        Err("not a kicad_symbol_lib: no opening '('"@)
    } else if first_nameless(s, symbols) is Some {
        let start = symbols[first_nameless(s, symbols).unwrap()].0;
        Err("symbol at byte "@ + text::decimal(byte_offset(s, start)) + " has no name"@)
    } else if close >= s.len() {
        Err("unbalanced parentheses: library never closes"@)
    } else {
        let end = if symbols.len() > 0 {
            symbols[0].0
        } else {
            close
        };
        Ok(
            LibView {
                header: text::trim_end(s.take(end)),
                symbols: symbols.map_values(|f: (int, int)| block_at(s, f)),
            },
        )
    }
}

pub open spec fn lib_view(r: Result<SymbolLib, String>) -> Result<LibView, Seq<char>> {
    match r {
        Ok(lib) => Ok(lib@),
        Err(e) => Err(e@),
    }
}

/// The symbols as lines, one level of indentation in.
pub open spec fn lines(symbols: Seq<BlockView>) -> Seq<char>
    decreases symbols.len(),
{
    if symbols.len() == 0 {
        Seq::empty()
    } else {
        lines(symbols.drop_last()) + "  "@ + text::trim_end(symbols.last().text) + seq!['\n']
    }
}

/// The text of a library.
pub open spec fn rendered(lib: LibView) -> Seq<char> {
    lib.header + seq!['\n'] + lines(lib.symbols) + ")\n"@
}

// ----------------------------------------------------------------- merging

pub open spec fn names(symbols: Seq<BlockView>) -> Seq<Seq<char>> {
    symbols.map_values(|b: BlockView| b.name)
}

/// The symbols whose names are not among `taken`.
pub open spec fn others(symbols: Seq<BlockView>, taken: Seq<Seq<char>>) -> Seq<BlockView>
    decreases symbols.len(),
{
    if symbols.len() == 0 {
        Seq::empty()
    } else if taken.contains(symbols.last().name) {
        others(symbols.drop_last(), taken)
    } else {
        others(symbols.drop_last(), taken).push(symbols.last())
    }
}

/// What both libraries hold once the incoming symbols have replaced those of
/// the same name.
pub open spec fn pooled(old: Seq<BlockView>, incoming: Seq<BlockView>) -> Seq<BlockView> {
    others(old, names(incoming)) + incoming
}

pub open spec fn sort_keys(symbols: Seq<BlockView>) -> Seq<Seq<char>> {
    symbols.map_values(|b: BlockView| text::lower(b.name))
}

/// `old` with the incoming symbols in it, ordered by name without regard to
/// case.
pub open spec fn merged(old: LibView, incoming: Seq<BlockView>) -> LibView {
    let pool = pooled(old.symbols, incoming);
    LibView { header: old.header, symbols: order::arranged(pool, sort_keys(pool)) }
}

pub open spec fn blank() -> LibView {
    LibView { header: DEFAULT_HEADER@, symbols: Seq::empty() }
}

// ------------------------------------------------------------ executable

/// Whether a form is a `(symbol …)`.
fn head_is_symbol(block: &str) -> (r: bool)
    ensures
        r == is_symbol(block@),
{
    let chars = to_chars(block);
    if chars.len() == 0 || chars[0] != '(' {
        return false;
    }
    let inner = slice(&chars, 1, chars.len());
    assert(inner@ =~= block@.drop_first());
    let rest = trimmed_start(inner.as_str());
    let word = head_atom(rest.as_str());
    same(word.as_str(), "symbol")
}

/// The characters of `rest` up to the first delimiter.
fn head_atom(rest: &str) -> (r: String)
    ensures
        r@ == atom(rest@),
{
    let chars = to_chars(rest);
    let mut out = String::new();
    let mut i: usize = 0;
    assert(chars@.skip(0) =~= chars@);
    assert(out@ + atom(chars@.skip(0)) =~= atom(chars@));
    while i < chars.len()
        invariant
            i <= chars@.len(),
            rest@ == chars@,
            out@ + atom(chars@.skip(i as int)) == atom(chars@),
        decreases chars.len() - i,
    {
        let c = chars[i];
        let ghost here = chars@.skip(i as int);
        if is_white_char(c) || c == '(' || c == ')' {
            assert(out@ + atom(here) =~= out@);
            return out;
        }
        let ghost was = out@;
        out.push(c);
        assert(here.drop_first() =~= chars@.skip(i + 1));
        assert(was + atom(here) =~= out@ + atom(chars@.skip(i + 1)));
        i += 1;
    }
    assert(out@ + atom(chars@.skip(i as int)) =~= out@);
    out
}

/// The first double-quoted string in a form, with escapes unwrapped.
fn first_quoted(block: &str) -> (r: Option<String>)
    ensures
        text::opt_view(r) == name_of(block@),
{
    let chars = to_chars(block);
    let mut i: usize = 0;
    assert(chars@.skip(0) =~= chars@);
    while i < chars.len() && chars[i] != '"'
        invariant
            i <= chars@.len(),
            name_of(chars@.skip(i as int)) == name_of(chars@),
        decreases chars.len() - i,
    {
        assert(chars@.skip(i as int).drop_first() =~= chars@.skip(i + 1));
        i += 1;
    }
    if i >= chars.len() {
        return None;
    }
    let ghost quote = i as int;
    assert(chars@.skip(quote).drop_first() =~= chars@.skip(quote + 1));
    i += 1;
    let mut out = String::new();
    let ghost wanted = quoted_text(chars@.skip(quote + 1));
    assert(wanted is Some ==> out@ + wanted.unwrap() =~= wanted.unwrap());
    while i < chars.len()
        invariant
            i <= chars@.len(),
            wanted == name_of(chars@),
            block@ == chars@,
            match quoted_text(chars@.skip(i as int)) {
                Some(rest) => wanted == Some(out@ + rest),
                None => wanted is None,
            },
        decreases chars.len() - i,
    {
        let c = chars[i];
        let ghost here = chars@.skip(i as int);
        let ghost was = out@;
        assert(here.drop_first() =~= chars@.skip(i + 1));
        if c == '"' {
            assert(out@ + Seq::<char>::empty() =~= out@);
            return Some(out);
        } else if c == '\\' {
            if i + 1 >= chars.len() {
                return None;
            }
            out.push(chars[i + 1]);
            assert(here.skip(2) =~= chars@.skip(i + 2));
            assert(here[1] == chars@[i + 1]);
            proof {
                if let Some(rest) = quoted_text(chars@.skip(i + 2)) {
                    assert(was + (seq![here[1]] + rest) =~= out@ + rest);
                }
            }
            i += 2;
        } else {
            out.push(c);
            proof {
                if let Some(rest) = quoted_text(chars@.skip(i + 1)) {
                    assert(was + (seq![here[0]] + rest) =~= out@ + rest);
                }
            }
            i += 1;
        }
    }
    None
}

fn width(c: char) -> (r: u128)
    ensures
        r == utf8_width(c),
        1 <= r <= 4,
{
    if c as u32 <= 0x7f {
        1
    } else if c as u32 <= 0x7ff {
        2
    } else if c as u32 <= 0xffff {
        3
    } else {
        4
    }
}

/// How many bytes the first `i` characters take in UTF-8.
fn bytes_before(chars: &Vec<char>, i: usize) -> (r: u128)
    requires
        i <= chars@.len(),
    ensures
        r == byte_offset(chars@, i as int),
{
    let mut sum: u128 = 0;
    let mut k: usize = 0;
    while k < i
        invariant
            k <= i <= chars@.len(),
            sum == byte_offset(chars@, k as int),
            sum <= 4 * k,
        decreases i - k,
    {
        sum = sum + width(chars[k]);
        k += 1;
    }
    sum
}

proof fn lemma_first_solid(s: Seq<char>, from: int)
    requires
        0 <= from <= s.len(),
    ensures
        from <= first_solid(s, from) <= s.len(),
        forall|j: int| from <= j < first_solid(s, from) ==> is_ascii_space(#[trigger] s[j]),
        first_solid(s, from) < s.len() ==> !is_ascii_space(s[first_solid(s, from)]),
    decreases s.len() - from,
{
    if from < s.len() && is_ascii_space(s[from]) {
        lemma_first_solid(s, from + 1);
    }
}

/// Nothing opens or closes in leading white space.
proof fn lemma_leading(s: Seq<char>, k: int)
    requires
        0 <= k <= s.len(),
        forall|j: int| 0 <= j < k ==> is_ascii_space(#[trigger] s[j]),
    ensures
        nest(s, k) == plain(0),
        children(s, k) == Seq::<(int, int)>::empty(),
        close_from(s, 0) == close_from(s, k),
    decreases k,
{
    if k > 0 {
        lemma_leading(s, k - 1);
    }
}

proof fn lemma_children_grow(s: Seq<char>, i: int, j: int) -> (more: Seq<(int, int)>)
    requires
        0 <= i <= j,
    ensures
        children(s, j) == children(s, i) + more,
    decreases j,
{
    if i == j {
        assert(children(s, j) =~= children(s, i) + Seq::<(int, int)>::empty());
        Seq::empty()
    } else {
        let before = lemma_children_grow(s, i, j - 1);
        if ends(s, j - 1) {
            let form = (opened(s, j - 1), j);
            assert((children(s, i) + before).push(form) =~= children(s, i) + before.push(form));
            before.push(form)
        } else {
            before
        }
    }
}

proof fn lemma_nameless_stays(s: Seq<char>, a: Seq<(int, int)>, b: Seq<(int, int)>)
    ensures
        first_nameless(s, a) is Some ==> first_nameless(s, a + b) == first_nameless(s, a),
    decreases b.len(),
{
    if b.len() == 0 {
        assert(a + b =~= a);
    } else {
        lemma_nameless_stays(s, a, b.drop_last());
        assert((a + b).drop_last() =~= a + b.drop_last());
    }
}

proof fn lemma_close_from(s: Seq<char>, from: int)
    requires
        0 <= from <= s.len(),
    ensures
        from <= close_from(s, from) <= s.len(),
        forall|j: int| from <= j < close_from(s, from) ==> !closes(s, j),
        close_from(s, from) < s.len() ==> closes(s, close_from(s, from)),
    decreases s.len() - from,
{
    if from < s.len() && !closes(s, from) {
        lemma_close_from(s, from + 1);
    }
}

/// Splits a `.kicad_sym` file into its header and top-level symbol blocks.
pub fn parse(text: &str) -> (r: Result<SymbolLib, String>)
    ensures
        lib_view(r) == parsed(text@),
{
    let chars = to_chars(text);
    let ghost s = chars@;
    let n: usize = chars.len();
    let mut at: usize = 0;
    while at < n && is_space(chars[at])
        invariant
            at <= n == chars@.len(),
            s == chars@,
            first_solid(s, 0) == first_solid(s, at as int),
        decreases n - at,
    {
        at += 1;
    }
    if at >= n || chars[at] != '(' {
        return Err("not a kicad_symbol_lib: no opening '('".to_string());
    }
    proof {
        lemma_first_solid(s, 0);
        lemma_leading(s, at as int);
    }
    let mut i: usize = at + 1;
    let mut depth: usize = 1;
    let mut quoted = false;
    let mut escaped = false;
    let mut start: usize = 0;
    let mut first: usize = 0;
    let mut symbols: Vec<SymbolBlock> = Vec::new();
    let ghost mut forms: Seq<(int, int)> = Seq::empty();
    assert(children(s, i as int) =~= Seq::<(int, int)>::empty());
    assert(symbols_in(s, children(s, i as int)) =~= forms);
    assert(block_views(symbols@) =~= forms.map_values(|f: (int, int)| block_at(s, f)));
    while i < n && !(depth == 1 && !quoted && chars[i] == ')')
        invariant
            i <= n == chars@.len(),
            s == chars@,
            s == text@,
            1 <= depth <= i,
            nest(s, i as int) == (Nest { depth: depth as nat, quoted, escaped }),
            !quoted ==> !escaped,
            depth >= 2 ==> start == opened(s, i as int),
            depth >= 2 ==> start < i,
            close_from(s, 0) == close_from(s, i as int),
            forms == symbols_in(s, children(s, i as int)),
            first_nameless(s, forms) is None,
            block_views(symbols@) == forms.map_values(|f: (int, int)| block_at(s, f)),
            forms.len() == symbols@.len(),
            forms.len() > 0 ==> first == forms[0].0 && first <= n,
            first_solid(s, 0) < s.len() && s[first_solid(s, 0)] == '(',
        decreases n - i,
    {
        let c = chars[i];
        if quoted {
            if escaped {
                escaped = false;
            } else if c == '\\' {
                escaped = true;
            } else if c == '"' {
                quoted = false;
            }
        } else if c == '"' {
            quoted = true;
        } else if c == '(' {
            depth += 1;
            if depth == 2 {
                start = i;
            }
        } else if c == ')' {
            depth -= 1;
            if depth == 1 {
                let block = slice(&chars, start, i + 1);
                let ghost form = (start as int, i + 1);
                proof {
                    let before = children(s, i as int);
                    assert(children(s, i + 1) == before.push(form));
                    lemma_symbols_push(s, before, form);
                }
                if head_is_symbol(block.as_str()) {
                    let ghost grown = forms.push(form);
                    assert(grown.drop_last() =~= forms);
                    match first_quoted(block.as_str()) {
                        None => {
                            proof {
                                lemma_close_from(s, i as int);
                                let close = close_from(s, 0);
                                let more = lemma_children_grow(s, i + 1, close);
                                lemma_symbols_add(s, children(s, i + 1), more);
                                lemma_nameless_stays(s, grown, symbols_in(s, more));
                                assert(symbols_in(s, children(s, close)) == grown + symbols_in(
                                    s,
                                    more,
                                ));
                                assert((grown + symbols_in(s, more))[grown.len() - 1] == form);
                            }
                            let mut e = "symbol at byte ".to_string();
                            let digits = number(bytes_before(&chars, start));
                            e.append(digits.as_str());
                            e.append(" has no name");
                            return Err(e);
                        },
                        Some(name) => {
                            if symbols.len() == 0 {
                                first = start;
                            }
                            let ghost was = block_views(symbols@);
                            symbols.push(SymbolBlock { name, text: block });
                            proof {
                                assert(block_views(symbols@) =~= was.push(block_at(s, form)));
                                assert(grown.map_values(|f: (int, int)| block_at(s, f))
                                    =~= forms.map_values(|f: (int, int)| block_at(s, f)).push(
                                    block_at(s, form),
                                ));
                                forms = grown;
                            }
                        },
                    }
                }
            }
        }
        i += 1;
    }
    proof {
        lemma_close_from(s, i as int);
    }
    if i >= n {
        return Err("unbalanced parentheses: library never closes".to_string());
    }
    let end: usize = if symbols.len() > 0 {
        first
    } else {
        i
    };
    let before = slice(&chars, 0, end);
    assert(before@ =~= s.take(end as int));
    Ok(SymbolLib { header: trimmed_end(before.as_str()), symbols })
}

fn is_space(c: char) -> (r: bool)
    ensures
        r == is_ascii_space(c),
{
    c == ' ' || c == '\t' || c == '\n' || c == '\r' || c == '\u{c}'
}

proof fn lemma_symbols_push(s: Seq<char>, forms: Seq<(int, int)>, form: (int, int))
    ensures
        symbols_in(s, forms.push(form)) == (if is_symbol(s.subrange(form.0, form.1)) {
            symbols_in(s, forms).push(form)
        } else {
            symbols_in(s, forms)
        }),
{
    reveal(Seq::filter);
    assert(forms.push(form).drop_last() =~= forms);
}

proof fn lemma_symbols_add(s: Seq<char>, a: Seq<(int, int)>, b: Seq<(int, int)>)
    ensures
        symbols_in(s, a + b) == symbols_in(s, a) + symbols_in(s, b),
    decreases b.len(),
{
    if b.len() == 0 {
        reveal(Seq::filter);
        assert(a + b =~= a);
        assert(symbols_in(s, b) =~= Seq::<(int, int)>::empty());
        assert(symbols_in(s, a) + symbols_in(s, b) =~= symbols_in(s, a));
    } else {
        let init = b.drop_last();
        lemma_symbols_add(s, a, init);
        lemma_symbols_push(s, a + init, b.last());
        lemma_symbols_push(s, init, b.last());
        assert((a + init).push(b.last()) =~= a + b);
        assert(init.push(b.last()) =~= b);
        assert((symbols_in(s, a) + symbols_in(s, init)).push(b.last()) =~= symbols_in(s, a)
            + symbols_in(s, init).push(b.last()));
    }
}

/// Serialises a library back to `.kicad_sym` text.
pub fn render(lib: &SymbolLib) -> (r: String)
    ensures
        r@ == rendered(lib@),
{
    let mut out = lib.header.clone();
    out.push('\n');
    assert(out@ =~= lib.header@ + seq!['\n']);
    let ghost start = out@;
    let ghost all = block_views(lib.symbols@);
    let mut i: usize = 0;
    assert(all.take(0) =~= Seq::<BlockView>::empty());
    assert(start + lines(all.take(0)) =~= start);
    while i < lib.symbols.len()
        invariant
            i <= lib.symbols@.len(),
            all == block_views(lib.symbols@),
            out@ == start + lines(all.take(i as int)),
        decreases lib.symbols.len() - i,
    {
        // Top-level symbols sit at one level of indentation.
        let line = trimmed_end(lib.symbols[i].text.as_str());
        let ghost was = out@;
        out.append("  ");
        out.append(line.as_str());
        out.push('\n');
        assert(all.take(i + 1).drop_last() =~= all.take(i as int));
        assert(all.take(i + 1).last() == lib.symbols@[i as int]@);
        assert(out@ =~= start + lines(all.take(i + 1)));
        i += 1;
    }
    assert(all.take(i as int) =~= all);
    out.append(")\n");
    out
}

/// What merging leaves to be done.
pub struct Merge {
    /// The names merged, in the order the source has them.
    pub names: Vec<String>,
    /// The new text of the library; nothing is written without one.
    pub text: Option<String>,
}

/// What merging the symbols of `source` into the library at `path` comes to.
///
/// `existing` is what the library file holds: nothing when it does not exist
/// yet, and the error when it could not be read.
pub open spec fn merge_of(
    path: Seq<char>,
    source: Seq<char>,
    existing: Result<Option<Seq<char>>, Seq<char>>,
) -> Result<(Seq<Seq<char>>, Option<Seq<char>>), Seq<char>> {
    match parsed(source) {
        Err(e) => Err(e),
        Ok(incoming) => if incoming.symbols.len() == 0 {
            Ok((Seq::empty(), None))
        } else {
            match existing {
                Err(e) => Err("reading "@ + path + ": "@ + e),
                Ok(None) => Ok(
                    (
                        names(incoming.symbols),
                        Some(rendered(merged(blank(), incoming.symbols))),
                    ),
                ),
                Ok(Some(old)) => match parsed(old) {
                    Err(e) => Err("parsing "@ + path + ": "@ + e),
                    Ok(target) => Ok(
                        (
                            names(incoming.symbols),
                            Some(rendered(merged(target, incoming.symbols))),
                        ),
                    ),
                },
            }
        },
    }
}

pub open spec fn merge_view(r: Result<Merge, String>) -> Result<
    (Seq<Seq<char>>, Option<Seq<char>>),
    Seq<char>,
> {
    match r {
        Ok(m) => Ok((text::views(m.names@), text::opt_view(m.text))),
        Err(e) => Err(e@),
    }
}

pub open spec fn existing_view(r: Result<Option<String>, String>) -> Result<
    Option<Seq<char>>,
    Seq<char>,
> {
    match r {
        Ok(t) => Ok(text::opt_view(t)),
        Err(e) => Err(e@),
    }
}

/// Adds every symbol in `source_text` to the library at `lib_path`, replacing
/// any symbol already present under the same name.
pub fn merge_into(
    lib_path: &str,
    source_text: &str,
    existing: Result<Option<String>, String>,
) -> (r: Result<Merge, String>)
    ensures
        merge_view(r) == merge_of(lib_path@, source_text@, existing_view(existing)),
{
    let incoming = match parse(source_text) {
        Ok(lib) => lib,
        Err(e) => {
            return Err(e);
        },
    };
    assert(block_views(incoming.symbols@).len() == incoming.symbols@.len());
    if incoming.symbols.len() == 0 {
        let none: Vec<String> = Vec::new();
        assert(text::views(none@) =~= Seq::<Seq<char>>::empty());
        return Ok(Merge { names: none, text: None });
    }
    let target = match existing {
        Err(e) => {
            let mut out = "reading ".to_string();
            out.append(lib_path);
            out.append(": ");
            out.append(e.as_str());
            return Err(out);
        },
        Ok(None) => {
            let fresh = SymbolLib { header: DEFAULT_HEADER.to_string(), symbols: Vec::new() };
            assert(block_views(fresh.symbols@) =~= Seq::<BlockView>::empty());
            fresh
        },
        Ok(Some(old)) => match parse(old.as_str()) {
            Ok(lib) => lib,
            Err(e) => {
                let mut out = "parsing ".to_string();
                out.append(lib_path);
                out.append(": ");
                out.append(e.as_str());
                return Err(out);
            },
        },
    };
    let list = names_of(&incoming.symbols);
    let joint = merge(&target, &incoming.symbols);
    Ok(Merge { names: list, text: Some(render(&joint)) })
}

fn names_of(symbols: &Vec<SymbolBlock>) -> (r: Vec<String>)
    ensures
        text::views(r@) == names(block_views(symbols@)),
{
    let mut out: Vec<String> = Vec::new();
    let mut i: usize = 0;
    while i < symbols.len()
        invariant
            i <= symbols@.len(),
            out@.len() == i,
            forall|j: int| 0 <= j < i ==> (#[trigger] out@[j])@ == symbols@[j].name@,
        decreases symbols.len() - i,
    {
        out.push(symbols[i].name.clone());
        i += 1;
    }
    assert(text::views(out@) =~= names(block_views(symbols@)));
    out
}

fn is_listed(list: &Vec<SymbolBlock>, name: &str) -> (r: bool)
    ensures
        r == names(block_views(list@)).contains(name@),
{
    let mut i: usize = 0;
    while i < list.len()
        invariant
            i <= list@.len(),
            forall|j: int| 0 <= j < i ==> (#[trigger] list@[j]).name@ != name@,
        decreases list.len() - i,
    {
        if same(list[i].name.as_str(), name) {
            assert(names(block_views(list@))[i as int] == name@);
            return true;
        }
        i += 1;
    }
    assert forall|j: int| 0 <= j < list@.len() implies names(block_views(list@))[j] != name@ by {
        assert(list@[j].name@ != name@);
    }
    false
}

/// `target` with the incoming symbols in it.
pub fn merge(target: &SymbolLib, incoming: &Vec<SymbolBlock>) -> (r: SymbolLib)
    ensures
        r@ == merged(target@, block_views(incoming@)),
{
    let ghost new = block_views(incoming@);
    let ghost old = block_views(target.symbols@);
    let ghost taken = names(new);
    let mut pool: Vec<SymbolBlock> = Vec::new();
    let mut i: usize = 0;
    assert(old.take(0) =~= Seq::<BlockView>::empty());
    while i < target.symbols.len()
        invariant
            i <= target.symbols@.len(),
            old == block_views(target.symbols@),
            taken == names(block_views(incoming@)),
            block_views(pool@) == others(old.take(i as int), taken),
        decreases target.symbols.len() - i,
    {
        let ghost was = block_views(pool@);
        assert(old.take(i + 1).drop_last() =~= old.take(i as int));
        assert(old.take(i + 1).last() == target.symbols@[i as int]@);
        if !is_listed(incoming, target.symbols[i].name.as_str()) {
            pool.push(target.symbols[i].clone());
            assert(block_views(pool@) =~= was.push(target.symbols@[i as int]@));
        }
        i += 1;
    }
    assert(old.take(i as int) =~= old);
    let ghost kept = block_views(pool@);
    let mut k: usize = 0;
    assert(kept + new.take(0) =~= kept);
    while k < incoming.len()
        invariant
            k <= incoming@.len(),
            new == block_views(incoming@),
            block_views(pool@) == kept + new.take(k as int),
        decreases incoming.len() - k,
    {
        let ghost was = block_views(pool@);
        pool.push(incoming[k].clone());
        assert(block_views(pool@) =~= was.push(incoming@[k as int]@));
        assert(kept + new.take(k + 1) =~= was.push(new[k as int]));
        k += 1;
    }
    assert(new.take(k as int) =~= new);
    let mut keys: Vec<String> = Vec::new();
    let mut j: usize = 0;
    while j < pool.len()
        invariant
            j <= pool@.len(),
            keys@.len() == j,
            forall|m: int|
                0 <= m < j ==> (#[trigger] keys@[m])@ == text::lower(pool@[m].name@),
        decreases pool.len() - j,
    {
        keys.push(to_lowercase(pool[j].name.as_str()));
        j += 1;
    }
    let ghost all = block_views(pool@);
    assert(text::views(keys@) =~= sort_keys(all));
    let ranks = order::rank(&keys);
    let mut out: Vec<SymbolBlock> = Vec::new();
    let mut n: usize = 0;
    while n < ranks.len()
        invariant
            n <= ranks@.len() == pool@.len(),
            all == block_views(pool@),
            out@.len() == n,
            forall|m: int| 0 <= m < ranks@.len() ==> (#[trigger] ranks@[m]) < pool@.len(),
            forall|m: int| 0 <= m < n ==> (#[trigger] out@[m])@ == all[ranks@[m] as int],
        decreases ranks.len() - n,
    {
        out.push(pool[ranks[n]].clone());
        n += 1;
    }
    assert(block_views(out@) =~= order::arranged(all, sort_keys(all)));
    SymbolLib { header: target.header.clone(), symbols: out }
}

/// Where an existing library is copied before it is replaced: `<stem>.bak`,
/// matching how KiCad itself keeps a previous revision alongside a library.
pub fn backup_file(path: &str, exists: bool) -> (r: Option<String>)
    ensures
        text::opt_view(r) == (if exists {
            Some(paths::re_extended(path@, "bak"@))
        } else {
            None
        }),
{
    if !exists {
        return None;
    }
    proof {
        reveal_strlit("bak");
    }
    Some(with_extension(path, "bak"))
}

/// The names of the top-level symbols in a library, for the manifest.
pub fn symbol_names(text: &str) -> (r: Vec<String>)
    ensures
        text::views(r@) == symbol_names_in(text@),
{
    match parse(text) {
        Ok(lib) => names_of(&lib.symbols),
        Err(_) => {
            let none: Vec<String> = Vec::new();
            assert(text::views(none@) =~= Seq::<Seq<char>>::empty());
            none
        },
    }
}

/// The symbols a text holds; none when it cannot be read.
pub open spec fn symbol_names_in(s: Seq<char>) -> Seq<Seq<char>> {
    match parsed(s) {
        Ok(lib) => names(lib.symbols),
        Err(_) => Seq::empty(),
    }
}

// ------------------------------------------------------------------ laws

/// A form that ends where it began: one level deep inside the library.
pub open spec fn is_block(t: Seq<char>) -> bool {
    &&& t.len() >= 2
    &&& t[0] == '('
    &&& t.last() == ')'
    &&& nest_from(plain(1), t, t.len() as int) == plain(1)
    &&& forall|i: int| 0 < i < t.len() ==> (#[trigger] nest_from(plain(1), t, i)).depth >= 2
}

pub open spec fn is_sound_block(b: BlockView) -> bool {
    is_block(b.text) && is_symbol(b.text) && name_of(b.text) == Some(b.name)
}

/// The header opens the library form, leaves it open, and holds no symbol.
pub open spec fn is_sound_header(h: Seq<char>) -> bool {
    &&& text::trim_end(h) == h
    &&& first_solid(h, 0) < h.len()
    &&& h[first_solid(h, 0)] == '('
    &&& nest(h, h.len() as int) == plain(1)
    &&& forall|j: int| 0 <= j < h.len() ==> !closes(h, j)
    &&& symbols_in(h, children(h, h.len() as int)).len() == 0
}

/// A library that its own text gives back.
pub open spec fn is_sound(lib: LibView) -> bool {
    is_sound_header(lib.header) && forall|i: int|
        0 <= i < lib.symbols.len() ==> is_sound_block(#[trigger] lib.symbols[i])
}

pub(crate) proof fn lemma_calm(from: Nest, s: Seq<char>, i: int)
    requires
        !from.quoted ==> !from.escaped,
    ensures
        !nest_from(from, s, i).quoted ==> !nest_from(from, s, i).escaped,
    decreases i,
{
    if i > 0 {
        lemma_calm(from, s, i - 1);
    }
}

pub(crate) proof fn lemma_nest_split(from: Nest, s: Seq<char>, a: int, b: int, k: int)
    requires
        0 <= a,
        0 <= k,
        a + k <= b <= s.len(),
    ensures
        nest_from(from, s, a + k) == nest_from(nest_from(from, s, a), s.subrange(a, b), k),
    decreases k,
{
    if k > 0 {
        lemma_nest_split(from, s, a, b, k - 1);
        assert(s.subrange(a, b)[k - 1] == s[a + k - 1]);
    }
}

/// Reading depends only on what has been read.
proof fn lemma_agree(s: Seq<char>, t: Seq<char>, i: int)
    requires
        0 <= i <= s.len(),
        i <= t.len(),
        forall|j: int| 0 <= j < i ==> s[j] == t[j],
    ensures
        nest(s, i) == nest(t, i),
        opened(s, i) == opened(t, i),
        children(s, i) == children(t, i),
        forall|j: int| 0 <= j < i ==> closes(s, j) == closes(t, j),
    decreases i,
{
    if i > 0 {
        lemma_agree(s, t, i - 1);
    }
}

proof fn lemma_opened(s: Seq<char>, i: int)
    requires
        0 <= i <= s.len(),
        nest(s, i).depth >= 2,
    ensures
        0 <= opened(s, i) < i,
        opens(s, opened(s, i)),
        forall|j: int| opened(s, i) < j <= i ==> (#[trigger] nest(s, j)).depth >= 2,
    decreases i,
{
    assert(i > 0);
    if !opens(s, i - 1) {
        lemma_calm(plain(0), s, i - 1);
        lemma_opened(s, i - 1);
    }
}

proof fn lemma_children(s: Seq<char>, i: int)
    requires
        0 <= i <= s.len(),
    ensures
        forall|m: int|
            0 <= m < children(s, i).len() ==> {
                let f = #[trigger] children(s, i)[m];
                &&& 0 <= f.0 < f.1 <= i
                &&& is_block(s.subrange(f.0, f.1))
            },
    decreases i,
{
    if i > 0 {
        lemma_children(s, i - 1);
        if ends(s, i - 1) {
            lemma_opened(s, i - 1);
            let a = opened(s, i - 1);
            let t = s.subrange(a, i);
            assert forall|k: int| 0 <= k <= t.len() implies nest_from(plain(1), t, k) == nest(
                s,
                a + k,
            ) by {
                lemma_nest_split(plain(0), s, a, i, k);
            }
            assert(nest(s, i) == plain(1));
            assert(t.last() == ')');
            assert(is_block(t));
        }
        assert forall|m: int| 0 <= m < children(s, i).len() implies {
            let f = #[trigger] children(s, i)[m];
            &&& 0 <= f.0 < f.1 <= i
            &&& is_block(s.subrange(f.0, f.1))
        } by {
            if m < children(s, i - 1).len() {
                assert(children(s, i)[m] == children(s, i - 1)[m]);
            }
        }
    }
}

proof fn lemma_filter_member(s: Seq<char>, forms: Seq<(int, int)>)
    ensures
        forall|m: int|
            0 <= m < symbols_in(s, forms).len() ==> forms.contains(
                #[trigger] symbols_in(s, forms)[m],
            ) && is_symbol(
                s.subrange(symbols_in(s, forms)[m].0, symbols_in(s, forms)[m].1),
            ),
    decreases forms.len(),
{
    reveal(Seq::filter);
    if forms.len() > 0 {
        let init = forms.drop_last();
        lemma_filter_member(s, init);
        lemma_symbols_push(s, init, forms.last());
        assert(init.push(forms.last()) =~= forms);
        assert forall|m: int| 0 <= m < symbols_in(s, forms).len() implies forms.contains(
            #[trigger] symbols_in(s, forms)[m],
        ) && is_symbol(s.subrange(symbols_in(s, forms)[m].0, symbols_in(s, forms)[m].1)) by {
            let f = symbols_in(s, forms)[m];
            if m < symbols_in(s, init).len() {
                assert(f == symbols_in(s, init)[m]);
                let k = init.index_of(f);
                assert(forms[k] == f);
            } else {
                assert(forms[forms.len() - 1] == f);
            }
        }
    }
}

proof fn lemma_nameless_none(s: Seq<char>, forms: Seq<(int, int)>)
    ensures
        first_nameless(s, forms) is None <==> (forall|m: int|
            0 <= m < forms.len() ==> name_of(
                s.subrange((#[trigger] forms[m]).0, forms[m].1),
            ) is Some),
    decreases forms.len(),
{
    if forms.len() > 0 {
        let init = forms.drop_last();
        lemma_nameless_none(s, init);
        assert(forall|m: int| 0 <= m < init.len() ==> init[m] == forms[m]);
        if first_nameless(s, forms) is None {
            assert forall|m: int| 0 <= m < forms.len() implies name_of(
                s.subrange((#[trigger] forms[m]).0, forms[m].1),
            ) is Some by {
                if m < init.len() {
                    assert(init[m] == forms[m]);
                }
            }
        } else if first_nameless(s, init) is Some {
            let m = choose|m: int|
                0 <= m < init.len() && name_of(
                    s.subrange((#[trigger] init[m]).0, init[m].1),
                ) is None;
            assert(forms[m] == init[m]);
        } else {
            assert(name_of(
                s.subrange(forms[forms.len() - 1].0, forms[forms.len() - 1].1),
            ) is None);
        }
    }
}

pub proof fn lemma_trim_end(s: Seq<char>)
    ensures
        text::trim_end(s).len() <= s.len(),
        text::trim_end(s) == s.take(text::trim_end(s).len() as int),
        text::trim_end(text::trim_end(s)) == text::trim_end(s),
        forall|j: int| text::trim_end(s).len() <= j < s.len() ==> text::is_white(#[trigger] s[j]),
    decreases s.len(),
{
    if s.len() > 0 && text::is_white(s.last()) {
        lemma_trim_end(s.drop_last());
        assert(text::trim_end(s) =~= s.take(text::trim_end(s).len() as int));
        assert forall|j: int| text::trim_end(s).len() <= j < s.len() implies text::is_white(
            #[trigger] s[j],
        ) by {
            if j < s.len() - 1 {
                assert(s.drop_last()[j] == s[j]);
            }
        }
    } else {
        assert(s.take(s.len() as int) =~= s);
    }
}

/// White space at the end is trimmed away.
proof fn lemma_trim_white(s: Seq<char>, w: Seq<char>)
    requires
        text::trim_end(s) == s,
        forall|j: int| 0 <= j < w.len() ==> text::is_white(#[trigger] w[j]),
    ensures
        text::trim_end(s + w) == s,
    decreases w.len(),
{
    if w.len() == 0 {
        assert(s + w =~= s);
    } else {
        assert((s + w).drop_last() =~= s + w.drop_last());
        assert((s + w).last() == w[w.len() - 1]);
        assert forall|j: int| 0 <= j < w.drop_last().len() implies text::is_white(
            #[trigger] w.drop_last()[j],
        ) by {
            assert(w.drop_last()[j] == w[j]);
        }
        lemma_trim_white(s, w.drop_last());
    }
}

proof fn lemma_solid_at(s: Seq<char>, from: int, at: int)
    requires
        0 <= from <= at < s.len(),
        forall|j: int| from <= j < at ==> is_ascii_space(#[trigger] s[j]),
        !is_ascii_space(s[at]),
    ensures
        first_solid(s, from) == at,
    decreases at - from,
{
    if from < at {
        lemma_solid_at(s, from + 1, at);
    }
}

/// Going back over white space from between two forms.
proof fn lemma_back(s: Seq<char>, h: int, e: int)
    requires
        0 <= h <= e <= s.len(),
        nest(s, e) == plain(1),
        forall|j: int| h <= j < e ==> text::is_white(#[trigger] s[j]),
    ensures
        nest(s, h) == plain(1),
        children(s, h) == children(s, e),
    decreases e - h,
{
    if h < e {
        lemma_calm(plain(0), s, e - 1);
        assert(text::is_white(s[e - 1]));
        assert(nest(s, e) == step(nest(s, e - 1), s[e - 1]));
        assert(nest(s, e - 1) == plain(1));
        lemma_back(s, h, e - 1);
    }
}

/// Reading a text gives a sound library.
pub proof fn lemma_parsed_sound(s: Seq<char>)
    ensures
        parsed(s) matches Ok(lib) ==> is_sound(lib),
{
    if let Ok(lib) = parsed(s) {
        let at = first_solid(s, 0);
        let close = close_from(s, 0);
        lemma_close_from(s, 0);
        lemma_first_solid(s, 0);
        let forms = children(s, close);
        let symbols = symbols_in(s, forms);
        lemma_children(s, close);
        lemma_filter_member(s, forms);
        lemma_nameless_none(s, symbols);
        assert forall|i: int| 0 <= i < lib.symbols.len() implies is_sound_block(
            #[trigger] lib.symbols[i],
        ) by {
            let f = symbols[i];
            assert(forms.contains(f));
            let k = forms.index_of(f);
            assert(forms[k] == f);
            assert(lib.symbols[i] == block_at(s, f));
        }
        let end = if symbols.len() > 0 {
            symbols[0].0
        } else {
            close
        };
        assert(nest(s, end) == plain(1) && end <= close) by {
            if symbols.len() > 0 {
                let f = symbols[0];
                assert(forms.contains(f));
                let k = forms.index_of(f);
                assert(forms[k] == f);
                lemma_child_start(s, close, k);
            }
        }
        let whole = s.take(end);
        lemma_trim_end(whole);
        let h = lib.header;
        let n = h.len() as int;
        assert(h == whole.take(n));
        assert forall|j: int| n <= j < end implies text::is_white(#[trigger] s[j]) by {
            assert(whole[j] == s[j]);
        }
        lemma_back(s, n, end);
        assert(forall|j: int| 0 <= j < n ==> h[j] == s[j]);
        lemma_agree(h, s, n);
        assert(nest(h, n) == plain(1));
        assert forall|j: int| 0 <= j < h.len() implies !closes(h, j) by {
            assert(closes(h, j) == closes(s, j));
        }
        // The library form opens inside the header.
        lemma_leading(s, at);
        assert(at < n) by {
            if n <= at {
                lemma_leading(s, n);
            }
        }
        assert forall|j: int| 0 <= j < at implies is_ascii_space(#[trigger] h[j]) by {
            assert(h[j] == s[j]);
        }
        lemma_solid_at(h, 0, at);
        // No symbol has ended before the first one began.
        lemma_children(s, n);
        let early = children(s, n);
        let more = lemma_children_grow(s, n, close);
        lemma_symbols_add(s, early, more);
        lemma_filter_member(s, early);
        assert(symbols_in(s, early).len() == 0) by {
            if symbols_in(s, early).len() > 0 {
                let f = symbols_in(s, early)[0];
                assert(symbols[0] == f);
                assert(early.contains(f));
                let k = early.index_of(f);
                assert(early[k] == f);
                assert(false);
            }
        }
        lemma_same_symbols(h, s, early);
    }
}

/// A form starts directly inside the library form.
proof fn lemma_child_start(s: Seq<char>, i: int, m: int)
    requires
        0 <= i <= s.len(),
        0 <= m < children(s, i).len(),
    ensures
        nest(s, children(s, i)[m].0) == plain(1),
    decreases i,
{
    if ends(s, i - 1) && m == children(s, i).len() - 1 {
        lemma_opened(s, i - 1);
    } else {
        lemma_child_start(s, i - 1, m);
    }
}

/// Forms read the same in two texts that agree on them.
proof fn lemma_same_symbols(s: Seq<char>, t: Seq<char>, forms: Seq<(int, int)>)
    requires
        forall|m: int|
            0 <= m < forms.len() ==> 0 <= (#[trigger] forms[m]).0 <= forms[m].1 <= s.len()
                && forms[m].1 <= t.len(),
        s.len() <= t.len(),
        forall|j: int| 0 <= j < s.len() ==> s[j] == t[j],
    ensures
        symbols_in(s, forms) == symbols_in(t, forms),
    decreases forms.len(),
{
    reveal(Seq::filter);
    if forms.len() > 0 {
        let init = forms.drop_last();
        assert(forall|m: int| 0 <= m < init.len() ==> init[m] == forms[m]);
        lemma_same_symbols(s, t, init);
        let f = forms[forms.len() - 1];
        assert(s.subrange(f.0, f.1) =~= t.subrange(f.0, f.1));
        lemma_symbols_push(s, init, f);
        lemma_symbols_push(t, init, f);
        assert(init.push(f) =~= forms);
    }
}

/// Neither opens nor closes anything.
spec fn is_inert(c: char) -> bool {
    c != '(' && c != ')' && c != '"'
}

/// Characters between forms change nothing.
proof fn lemma_over_inert(q: Seq<char>, a: int, b: int)
    requires
        0 <= a <= b <= q.len(),
        nest(q, a) == plain(1),
        forall|j: int| a <= j < b ==> is_inert(#[trigger] q[j]),
    ensures
        nest(q, b) == plain(1),
        children(q, b) == children(q, a),
        forall|j: int| a <= j < b ==> !closes(q, j),
    decreases b - a,
{
    if a < b {
        lemma_over_inert(q, a, b - 1);
        assert(is_inert(q[b - 1]));
    }
}

proof fn lemma_into_block(q: Seq<char>, a: int, t: Seq<char>, k: int)
    requires
        0 <= a,
        a + t.len() <= q.len(),
        nest(q, a) == plain(1),
        q.subrange(a, a + t.len()) == t,
        is_block(t),
        0 < k < t.len(),
    ensures
        nest(q, a + k) == nest_from(plain(1), t, k),
        children(q, a + k) == children(q, a),
        opened(q, a + k) == a,
        forall|j: int| a <= j < a + k ==> !closes(q, j),
    decreases k,
{
    lemma_nest_split(plain(0), q, a, a + t.len(), k);
    assert(q[a + k - 1] == t[k - 1]);
    if k == 1 {
        assert(opens(q, a));
        assert(!closes(q, a));
    } else {
        lemma_into_block(q, a, t, k - 1);
        assert(nest_from(plain(1), t, k).depth >= 2);
        assert(nest_from(plain(1), t, k - 1).depth >= 2);
        assert(!ends(q, a + k - 1));
    }
}

/// A block between forms is one more form.
proof fn lemma_over_block(q: Seq<char>, a: int, t: Seq<char>)
    requires
        0 <= a,
        a + t.len() <= q.len(),
        nest(q, a) == plain(1),
        q.subrange(a, a + t.len()) == t,
        is_block(t),
    ensures
        nest(q, a + t.len()) == plain(1),
        children(q, a + t.len()) == children(q, a).push((a, a + t.len())),
        forall|j: int| a <= j < a + t.len() ==> !closes(q, j),
{
    let n = t.len() as int;
    lemma_into_block(q, a, t, n - 1);
    lemma_nest_split(plain(0), q, a, a + n, n);
    lemma_calm(plain(1), t, n - 1);
    assert(q[a + n - 1] == t[n - 1]);
    assert(nest_from(plain(1), t, n) == step(nest_from(plain(1), t, n - 1), ')'));
    assert(nest_from(plain(1), t, n - 1).depth >= 2);
    assert(ends(q, a + n - 1));
}

/// The text of a library up to and with its first `k` symbols.
spec fn built(lib: LibView, k: int) -> Seq<char> {
    lib.header + seq!['\n'] + lines(lib.symbols.take(k))
}

#[verifier::spinoff_prover]
#[verifier::rlimit(60)]
proof fn lemma_built(lib: LibView, k: int)
    requires
        is_sound(lib),
        0 <= k <= lib.symbols.len(),
    ensures
        ({
            let p = built(lib, k);
            let n = p.len() as int;
            let h = lib.header.len() as int;
            let forms = symbols_in(p, children(p, n));
            &&& n > h
            &&& p.take(h + 1) == lib.header + seq!['\n']
            &&& k > 0 ==> n > h + 3 && p.take(h + 3) == lib.header + seq!['\n', ' ', ' ']
            &&& nest(p, n) == plain(1)
            &&& forall|j: int| 0 <= j < n ==> !closes(p, j)
            &&& forms.len() == k
            &&& k > 0 ==> forms[0].0 == h + 3
            &&& forall|m: int|
                0 <= m < k ==> 0 <= (#[trigger] forms[m]).0 <= forms[m].1 <= n && p.subrange(
                    forms[m].0,
                    forms[m].1,
                ) == lib.symbols[m].text
        }),
    decreases k,
{
    let p = built(lib, k);
    let n = p.len() as int;
    let h = lib.header.len() as int;
    if k == 0 {
        assert(lib.symbols.take(0) =~= Seq::<BlockView>::empty());
        assert(p =~= lib.header + seq!['\n']);
        assert(p.take(h + 1) =~= p);
        lemma_agree(lib.header, p, h);
        lemma_over_inert(p, h, h + 1);
        assert forall|j: int| 0 <= j < n implies !closes(p, j) by {
            if j < h {
                assert(closes(lib.header, j) == closes(p, j));
            }
        }
        lemma_children(lib.header, h);
        lemma_same_symbols(lib.header, p, children(lib.header, h));
    } else {
        let q = built(lib, k - 1);
        let m0 = q.len() as int;
        let block = lib.symbols[k - 1];
        let t = block.text;
        lemma_built(lib, k - 1);
        assert(is_sound_block(lib.symbols[k - 1]));
        assert(lib.symbols.take(k).drop_last() =~= lib.symbols.take(k - 1));
        assert(lib.symbols.take(k).last() == block);
        reveal_strlit("  ");
        assert(text::trim_end(t) == t);
        assert(p =~= q + "  "@ + t + seq!['\n']);
        let w = m0 + 2;
        let e = w + t.len();
        assert(n == e + 1);
        assert(forall|j: int| 0 <= j < m0 ==> q[j] == p[j]);
        lemma_agree(q, p, m0);
        lemma_over_inert(p, m0, w);
        assert(p.subrange(w, e) =~= t);
        lemma_over_block(p, w, t);
        lemma_over_inert(p, e, n);
        assert forall|j: int| 0 <= j < n implies !closes(p, j) by {
            if j < m0 {
                assert(closes(q, j) == closes(p, j));
            }
        }
        let old = children(q, m0);
        lemma_children(q, m0);
        lemma_same_symbols(q, p, old);
        assert(children(p, n) == old.push((w, e)));
        lemma_symbols_push(p, old, (w, e));
        let before = symbols_in(q, old);
        let forms = symbols_in(p, children(p, n));
        assert(forms == before.push((w, e)));
        assert forall|m: int| 0 <= m < k implies 0 <= (#[trigger] forms[m]).0 <= forms[m].1 <= n
            && p.subrange(forms[m].0, forms[m].1) == lib.symbols[m].text by {
            if m < k - 1 {
                assert(forms[m] == before[m]);
                assert(p.subrange(forms[m].0, forms[m].1) =~= q.subrange(forms[m].0, forms[m].1));
            }
        }
        assert(p.take(h + 1) =~= q.take(h + 1));
        if k == 1 {
            assert(lib.symbols.take(0) =~= Seq::<BlockView>::empty());
            assert(q =~= lib.header + seq!['\n']);
            assert(p.take(h + 3) =~= lib.header + seq!['\n', ' ', ' ']);
        } else {
            assert(forms[0] == before[0]);
            assert(p.take(h + 3) =~= q.take(h + 3));
        }
    }
}

proof fn lemma_close_at(s: Seq<char>, from: int, c: int)
    requires
        0 <= from <= c < s.len(),
        closes(s, c),
        forall|j: int| from <= j < c ==> !closes(s, j),
    ensures
        close_from(s, from) == c,
    decreases c - from,
{
    if from < c {
        lemma_close_at(s, from + 1, c);
    }
}

proof fn lemma_rendered_forms(lib: LibView)
    requires
        is_sound(lib),
    ensures
        ({
            let r = rendered(lib);
            let n = r.len() - 2;
            let forms = symbols_in(r, children(r, n));
            &&& n == built(lib, lib.symbols.len() as int).len()
            &&& r.take(n) == built(lib, lib.symbols.len() as int)
            &&& close_from(r, 0) == n
            &&& first_nameless(r, forms) is None
            &&& forms.map_values(|f: (int, int)| block_at(r, f)) == lib.symbols
            &&& lib.symbols.len() > 0 ==> forms[0].0 == lib.header.len() + 3
        }),
{
    let k = lib.symbols.len() as int;
    let p = built(lib, k);
    let n = p.len() as int;
    let r = rendered(lib);
    lemma_built(lib, k);
    assert(lib.symbols.take(k) =~= lib.symbols);
    reveal_strlit(")\n");
    assert(r =~= p + ")\n"@);
    assert(forall|j: int| 0 <= j < n ==> p[j] == r[j]);
    assert(r.take(n) =~= p);
    lemma_agree(p, r, n);
    assert(closes(r, n));
    assert forall|j: int| 0 <= j < n implies !closes(r, j) by {
        assert(closes(p, j) == closes(r, j));
    }
    lemma_close_at(r, 0, n);
    lemma_children(p, n);
    lemma_same_symbols(p, r, children(p, n));
    let forms = symbols_in(r, children(r, n));
    assert forall|m: int| 0 <= m < forms.len() implies r.subrange(
        (#[trigger] forms[m]).0,
        forms[m].1,
    ) == lib.symbols[m].text by {
        assert(r.subrange(forms[m].0, forms[m].1) =~= p.subrange(forms[m].0, forms[m].1));
    }
    lemma_nameless_none(r, forms);
    assert forall|m: int| 0 <= m < forms.len() implies name_of(
        r.subrange((#[trigger] forms[m]).0, forms[m].1),
    ) is Some by {
        assert(is_sound_block(lib.symbols[m]));
    }
    let found = forms.map_values(|f: (int, int)| block_at(r, f));
    assert forall|m: int| 0 <= m < found.len() implies found[m] == lib.symbols[m] by {
        assert(is_sound_block(lib.symbols[m]));
        assert(forms[m].0 <= forms[m].1);
    }
    assert(found =~= lib.symbols);
}

/// A sound library is what its own text says.
pub proof fn lemma_round_trip(lib: LibView)
    requires
        is_sound(lib),
    ensures
        parsed(rendered(lib)) == Ok::<LibView, Seq<char>>(lib),
{
    let k = lib.symbols.len() as int;
    let p = built(lib, k);
    let n = p.len() as int;
    let h = lib.header.len() as int;
    let r = rendered(lib);
    lemma_rendered_forms(lib);
    lemma_built(lib, k);
    // The form opens where it opens in the header.
    let at = first_solid(lib.header, 0);
    lemma_first_solid(lib.header, 0);
    assert forall|j: int| 0 <= j <= at implies r[j] == lib.header[j] by {
        assert(r.take(n)[j] == p[j]);
        assert(p.take(h + 1)[j] == lib.header[j]);
    }
    assert forall|j: int| 0 <= j < at implies is_ascii_space(#[trigger] r[j]) by {
        assert(is_ascii_space(lib.header[j]));
    }
    lemma_solid_at(r, 0, at);
    // What stands before the first symbol is the header and white space.
    if k > 0 {
        assert(r.take(h + 3) =~= p.take(h + 3)) by {
            assert(forall|j: int| 0 <= j < n ==> r[j] == r.take(n)[j]);
        }
        lemma_trim_white(lib.header, seq!['\n', ' ', ' ']);
        assert(text::trim_end(r.take(h + 3)) == lib.header);
    } else {
        assert(lib.symbols.take(k) =~= Seq::<BlockView>::empty());
        assert(r.take(n) =~= p.take(h + 1));
        lemma_trim_white(lib.header, seq!['\n']);
        assert(text::trim_end(r.take(n)) == lib.header);
    }
}

proof fn lemma_others(symbols: Seq<BlockView>, taken: Seq<Seq<char>>)
    ensures
        forall|b: BlockView|
            #[trigger] others(symbols, taken).contains(b) <==> symbols.contains(b)
                && !taken.contains(b.name),
    decreases symbols.len(),
{
    if symbols.len() > 0 {
        let init = symbols.drop_last();
        let last = symbols.last();
        lemma_others(init, taken);
        let out = others(symbols, taken);
        assert forall|b: BlockView| #[trigger] out.contains(b) <==> symbols.contains(b)
            && !taken.contains(b.name) by {
            if symbols.contains(b) && !taken.contains(b.name) {
                let i = symbols.index_of(b);
                if i < init.len() {
                    assert(init[i] == b);
                    assert(others(init, taken).contains(b));
                    let j = others(init, taken).index_of(b);
                    assert(out[j] == b);
                } else {
                    assert(out[out.len() - 1] == b);
                }
            }
            if out.contains(b) {
                let i = out.index_of(b);
                if i < others(init, taken).len() {
                    assert(others(init, taken)[i] == b);
                    assert(others(init, taken).contains(b));
                    let j = init.index_of(b);
                    assert(symbols[j] == b);
                } else {
                    assert(symbols[symbols.len() - 1] == b);
                }
            }
        }
    }
}

/// Merging replaces the symbols of the same name and keeps every other; the
/// result is ordered by name without regard to case.
pub proof fn lemma_merged(old: LibView, incoming: Seq<BlockView>)
    ensures
        merged(old, incoming).header == old.header,
        forall|b: BlockView|
            #[trigger] merged(old, incoming).symbols.contains(b) <==> incoming.contains(b) || (
            old.symbols.contains(b) && !names(incoming).contains(b.name)),
        merged(old, incoming).symbols.len() == pooled(old.symbols, incoming).len(),
        forall|i: int, j: int|
            0 <= i < j < merged(old, incoming).symbols.len() ==> !text::precedes(
                text::lower((#[trigger] merged(old, incoming).symbols[j]).name),
                text::lower((#[trigger] merged(old, incoming).symbols[i]).name),
            ),
{
    let kept = others(old.symbols, names(incoming));
    let pool = pooled(old.symbols, incoming);
    let keys = sort_keys(pool);
    let out = merged(old, incoming).symbols;
    lemma_others(old.symbols, names(incoming));
    order::lemma_ranking(keys);
    let r = order::ranking(keys);
    assert forall|b: BlockView| #[trigger] out.contains(b) <==> incoming.contains(b) || (
    old.symbols.contains(b) && !names(incoming).contains(b.name)) by {
        if out.contains(b) {
            let i = out.index_of(b);
            assert(out[i] == pool[r[i]]);
            assert(pool.contains(b));
            let k = r[i];
            if k < kept.len() {
                assert(kept[k] == b);
                assert(kept.contains(b));
            } else {
                assert(incoming[k - kept.len()] == b);
            }
        }
        if incoming.contains(b) {
            let k = incoming.index_of(b) + kept.len();
            assert(pool[k] == b);
            assert(r.contains(k));
            let i = r.index_of(k);
            assert(out[i] == b);
        }
        if old.symbols.contains(b) && !names(incoming).contains(b.name) {
            assert(kept.contains(b));
            let k = kept.index_of(b);
            assert(pool[k] == b);
            assert(r.contains(k));
            let i = r.index_of(k);
            assert(out[i] == b);
        }
    }
    assert forall|i: int, j: int| 0 <= i < j < out.len() implies !text::precedes(
        text::lower((#[trigger] out[j]).name),
        text::lower((#[trigger] out[i]).name),
    ) by {
        assert(out[i] == pool[r[i]] && out[j] == pool[r[j]]);
        assert(order::in_order(keys, r[i], r[j]));
    }
}

spec fn all_inert(s: Seq<char>, a: int, b: int) -> bool
    decreases b - a,
{
    a >= b || (is_inert(s[b - 1]) && all_inert(s, a, b - 1))
}

proof fn lemma_all_inert(s: Seq<char>, a: int, b: int)
    requires
        all_inert(s, a, b),
    ensures
        forall|j: int| a <= j < b ==> is_inert(#[trigger] s[j]),
    decreases b - a,
{
    if a < b {
        lemma_all_inert(s, a, b - 1);
    }
}

proof fn lemma_flat_block(t: Seq<char>, k: int)
    requires
        0 < k < t.len(),
        t[0] == '(',
        forall|j: int| 0 < j < t.len() - 1 ==> is_inert(#[trigger] t[j]),
    ensures
        nest_from(plain(1), t, k) == plain(2),
    decreases k,
{
    assert(nest_from(plain(1), t, 0) == plain(1));
    if k > 1 {
        lemma_flat_block(t, k - 1);
        assert(is_inert(t[k - 1]));
    }
}

/// A form without forms or strings inside, standing in `s` from `a` to `b`.
proof fn lemma_flat(s: Seq<char>, a: int, b: int)
    requires
        0 <= a,
        a + 2 <= b <= s.len(),
        s[a] == '(',
        s[b - 1] == ')',
        all_inert(s, a + 1, b - 1),
        !text::is_white(s[a + 1]),
        s[a + 1] != 's',
        a + 2 < b,
    ensures
        is_block(s.subrange(a, b)),
        !is_symbol(s.subrange(a, b)),
{
    let t = s.subrange(a, b);
    lemma_all_inert(s, a + 1, b - 1);
    assert forall|j: int| 0 < j < t.len() - 1 implies is_inert(#[trigger] t[j]) by {
        assert(is_inert(s[a + j]));
    }
    assert forall|k: int| 0 < k < t.len() implies (#[trigger] nest_from(plain(1), t, k)).depth
        >= 2 by {
        lemma_flat_block(t, k);
    }
    lemma_flat_block(t, t.len() - 1);
    let inner = t.drop_first();
    assert(inner[0] == s[a + 1]);
    assert(is_inert(t[1]));
    assert(text::trim_start(inner) == inner);
    assert(atom(inner)[0] == s[a + 1]);
    reveal_strlit("symbol");
}

/// The library a first merge starts from is sound.
pub proof fn lemma_blank_sound()
    ensures
        is_sound(blank()),
{
    let h = DEFAULT_HEADER@;
    reveal_strlit("(kicad_symbol_lib (version 20211014) (generator cse-importer)");
    reveal_with_fuel(all_inert, 64);
    assert(h.len() == 61);
    assert(first_solid(h, 0) == 0);
    assert(nest(h, 0) == plain(0));
    assert(nest(h, 1) == plain(1));
    assert(children(h, 0) =~= Seq::<(int, int)>::empty());
    assert(children(h, 1) =~= Seq::<(int, int)>::empty());
    assert(all_inert(h, 1, 18));
    lemma_all_inert(h, 1, 18);
    lemma_over_inert(h, 1, 18);
    lemma_flat(h, 18, 36);
    lemma_over_block(h, 18, h.subrange(18, 36));
    lemma_over_inert(h, 36, 37);
    lemma_flat(h, 37, 61);
    lemma_over_block(h, 37, h.subrange(37, 61));
    let none = Seq::<(int, int)>::empty();
    assert(children(h, 61) == none.push((18int, 36int)).push((37int, 61int)));
    reveal(Seq::filter);
    assert(symbols_in(h, none) =~= none);
    lemma_symbols_push(h, none, (18int, 36int));
    lemma_symbols_push(h, none.push((18int, 36int)), (37int, 61int));
}

/// What a text says survives being written out and read again.
pub proof fn lemma_reread(s: Seq<char>)
    ensures
        parsed(s) matches Ok(lib) ==> parsed(rendered(lib)) == Ok::<LibView, Seq<char>>(lib),
{
    lemma_parsed_sound(s);
    if let Ok(lib) = parsed(s) {
        lemma_round_trip(lib);
    }
}

/// Merging sound libraries gives a sound one, so the merged text can be merged
/// into again.
pub proof fn lemma_merged_sound(old: LibView, incoming: LibView)
    requires
        is_sound(old),
        is_sound(incoming),
    ensures
        is_sound(merged(old, incoming.symbols)),
        parsed(rendered(merged(old, incoming.symbols))) == Ok::<LibView, Seq<char>>(
            merged(old, incoming.symbols),
        ),
{
    let joint = merged(old, incoming.symbols);
    lemma_merged(old, incoming.symbols);
    assert forall|i: int| 0 <= i < joint.symbols.len() implies is_sound_block(
        #[trigger] joint.symbols[i],
    ) by {
        let b = joint.symbols[i];
        assert(joint.symbols.contains(b));
        if incoming.symbols.contains(b) {
            let k = incoming.symbols.index_of(b);
            assert(is_sound_block(incoming.symbols[k]));
        } else {
            let k = old.symbols.index_of(b);
            assert(is_sound_block(old.symbols[k]));
        }
    }
    lemma_round_trip(joint);
}

/// No two symbols share a name.
pub open spec fn is_unique(symbols: Seq<BlockView>) -> bool {
    forall|i: int, j: int|
        0 <= i < j < symbols.len() ==> (#[trigger] symbols[i]).name != (#[trigger] symbols[j]).name
}

proof fn lemma_others_unique(symbols: Seq<BlockView>, taken: Seq<Seq<char>>)
    requires
        is_unique(symbols),
    ensures
        is_unique(others(symbols, taken)),
    decreases symbols.len(),
{
    if symbols.len() > 0 {
        let init = symbols.drop_last();
        let last = symbols.last();
        let before = others(init, taken);
        let out = others(symbols, taken);
        assert forall|i: int, j: int| 0 <= i < j < init.len() implies (#[trigger] init[i]).name != (
        #[trigger] init[j]).name by {
            assert(init[i] == symbols[i] && init[j] == symbols[j]);
        }
        lemma_others_unique(init, taken);
        lemma_others(init, taken);
        assert forall|i: int, j: int| 0 <= i < j < out.len() implies (#[trigger] out[i]).name != (
        #[trigger] out[j]).name by {
            assert(out[i] == before[i]);
            if j < before.len() {
                assert(out[j] == before[j]);
            } else {
                assert(before.contains(before[i]));
                let k = init.index_of(before[i]);
                assert(symbols[k].name != symbols[symbols.len() - 1].name);
            }
        }
    }
}

/// Merging never duplicates a symbol, however often it is done.
pub proof fn lemma_merged_unique(old: LibView, incoming: Seq<BlockView>)
    requires
        is_unique(old.symbols),
        is_unique(incoming),
    ensures
        is_unique(merged(old, incoming).symbols),
{
    let taken = names(incoming);
    let kept = others(old.symbols, taken);
    let pool = pooled(old.symbols, incoming);
    let out = merged(old, incoming).symbols;
    lemma_others_unique(old.symbols, taken);
    lemma_others(old.symbols, taken);
    assert forall|i: int, j: int| 0 <= i < j < pool.len() implies (#[trigger] pool[i]).name != (
    #[trigger] pool[j]).name by {
        if j < kept.len() {
            assert(pool[i] == kept[i] && pool[j] == kept[j]);
        } else if i >= kept.len() {
            assert(pool[i] == incoming[i - kept.len()] && pool[j] == incoming[j - kept.len()]);
        } else {
            assert(kept.contains(kept[i]));
            assert(pool[j] == incoming[j - kept.len()]);
            assert(taken[j - kept.len()] == pool[j].name);
        }
    }
    let keys = sort_keys(pool);
    order::lemma_ranking(keys);
    let r = order::ranking(keys);
    assert forall|i: int, j: int| 0 <= i < j < out.len() implies (#[trigger] out[i]).name != (
    #[trigger] out[j]).name by {
        assert(out[i] == pool[r[i]] && out[j] == pool[r[j]]);
        if r[i] < r[j] {
            assert(pool[r[i]].name != pool[r[j]].name);
        } else {
            assert(pool[r[j]].name != pool[r[i]].name);
        }
    }
}

/// What a merge writes reads back as the library with every symbol of the source
/// in it, and with every symbol it held before under another name.
pub proof fn lemma_merge_written(
    path: Seq<char>,
    source: Seq<char>,
    existing: Option<Seq<char>>,
)
    ensures
        match merge_of(path, source, Ok(existing)) {
            Ok((found, Some(t))) => {
                let incoming = parsed(source)->Ok_0.symbols;
                let before = match existing {
                    Some(old) => parsed(old)->Ok_0.symbols,
                    None => Seq::empty(),
                };
                &&& parsed(source) is Ok && (existing matches Some(old) ==> parsed(old) is Ok)
                &&& found == names(incoming)
                &&& parsed(t) matches Ok(lib) && forall|b: BlockView| #[trigger]
                    lib.symbols.contains(b) <==> incoming.contains(b) || (before.contains(b)
                        && !found.contains(b.name))
            },
            _ => true,
        },
{
    if let Ok((found, Some(t))) = merge_of(path, source, Ok(existing)) {
        let incoming = parsed(source)->Ok_0;
        lemma_parsed_sound(source);
        let old = match existing {
            Some(x) => {
                lemma_parsed_sound(x);
                parsed(x)->Ok_0
            },
            None => {
                lemma_blank_sound();
                blank()
            },
        };
        lemma_merged_sound(old, incoming);
        lemma_merged(old, incoming.symbols);
        assert(parsed(t) == Ok::<LibView, Seq<char>>(merged(old, incoming.symbols)));
    }
}

} // verus!
