//! What a symbol library says and how two of them become one, in terms of their
//! texts.

use vstd::prelude::*;
use vstd::string::*;

use crate::online::written;
use crate::symlib;
use crate::text;

verus! {

// -------------------------------------------------------------------- names

proof fn lemma_quoted(name: Seq<char>, rest: Seq<char>)
    requires
        !name.contains('"'),
        !name.contains('\\'),
    ensures
        symlib::quoted_text(name + seq!['"'] + rest) == Some(name),
    decreases name.len(),
{
    let s = name + seq!['"'] + rest;
    if name.len() == 0 {
        assert(s[0] == '"');
        assert(name =~= Seq::<char>::empty());
    } else {
        assert(name.contains(name[0]));
        assert(s[0] == name[0]);
        let tail = name.drop_first();
        assert forall|i: int| 0 <= i < tail.len() implies tail[i] != '"' && tail[i] != '\\' by {
            assert(name.contains(name[i + 1]));
        }
        lemma_quoted(tail, rest);
        assert(s.drop_first() =~= tail + seq!['"'] + rest);
        assert(seq![name[0]] + tail =~= name);
    }
}

/// A symbol is called what its first string says, whatever follows it.
pub proof fn lemma_symbol_name(name: Seq<char>, rest: Seq<char>)
    requires
        !name.contains('"'),
        !name.contains('\\'),
    ensures
        symlib::name_of("(symbol \""@ + (name + seq!['"'] + rest)) == Some(name),
        symlib::is_symbol("(symbol \""@ + (name + seq!['"'] + rest)),
{
    let tail = name + seq!['"'] + rest;
    let s = "(symbol \""@ + tail;
    reveal_strlit("(symbol \"");
    reveal_strlit("symbol");
    lemma_quoted(name, rest);
    assert(s.skip(9) =~= tail);
    assert(s.len() >= 9);
    assert(s[0] == '(' && s[1] == 's' && s[2] == 'y' && s[3] == 'm' && s[4] == 'b' && s[5] == 'o'
        && s[6] == 'l' && s[7] == ' ' && s[8] == '"');
    assert(s.skip(8).drop_first() =~= s.skip(9));
    assert(symlib::name_of(s.skip(8)) == Some(name));
    assert(s.skip(7).drop_first() =~= s.skip(8));
    assert(symlib::name_of(s.skip(7)) == Some(name));
    assert(s.skip(6).drop_first() =~= s.skip(7));
    assert(symlib::name_of(s.skip(6)) == Some(name));
    assert(s.skip(5).drop_first() =~= s.skip(6));
    assert(symlib::name_of(s.skip(5)) == Some(name));
    assert(s.skip(4).drop_first() =~= s.skip(5));
    assert(symlib::name_of(s.skip(4)) == Some(name));
    assert(s.skip(3).drop_first() =~= s.skip(4));
    assert(symlib::name_of(s.skip(3)) == Some(name));
    assert(s.skip(2).drop_first() =~= s.skip(3));
    assert(symlib::name_of(s.skip(2)) == Some(name));
    assert(s.skip(1).drop_first() =~= s.skip(2));
    assert(symlib::name_of(s.skip(1)) == Some(name));
    assert(s.skip(0) =~= s);
    assert(s.drop_first() =~= s.skip(1));
    let inner = s.drop_first();
    assert(text::trim_start(inner) == inner);
    assert(symlib::atom(s.skip(7)) =~= Seq::<char>::empty());
    assert(symlib::atom(s.skip(6)) =~= seq!['l']);
    assert(symlib::atom(s.skip(5)) =~= seq!['o', 'l']);
    assert(symlib::atom(s.skip(4)) =~= seq!['b', 'o', 'l']);
    assert(symlib::atom(s.skip(3)) =~= seq!['m', 'b', 'o', 'l']);
    assert(symlib::atom(s.skip(2)) =~= seq!['y', 'm', 'b', 'o', 'l']);
    assert(symlib::atom(s.skip(1)) =~= seq!['s', 'y', 'm', 'b', 'o', 'l']);
    assert("symbol"@ =~= seq!['s', 'y', 'm', 'b', 'o', 'l']);
}

/// A sound library's symbols are called what their own texts say.
pub proof fn lemma_sound_names(lib: symlib::LibView, i: int)
    requires
        symlib::is_sound(lib),
        0 <= i < lib.symbols.len(),
    ensures
        symlib::name_of(lib.symbols[i].text) == Some(lib.symbols[i].name),
        symlib::is_symbol(lib.symbols[i].text),
{
    assert(symlib::is_sound_block(lib.symbols[i]));
}

// ------------------------------------------------------------------ writing

proof fn lemma_lines(symbols: Seq<symlib::BlockView>, i: int)
    requires
        0 <= i < symbols.len(),
    ensures
        written::shows(symlib::lines(symbols), "  "@ + text::trim_end(symbols[i].text) + seq!['\n']),
    decreases symbols.len(),
{
    reveal(written::shows);
    let init = symbols.drop_last();
    let before = symlib::lines(init);
    let line = "  "@ + text::trim_end(symbols[i].text) + seq!['\n'];
    if i == symbols.len() - 1 {
        assert(symlib::lines(symbols) =~= before + line + Seq::<char>::empty());
    } else {
        lemma_lines(init, i);
        let (a, b) = choose|a: Seq<char>, b: Seq<char>| before == #[trigger] (a + line + b);
        let last = "  "@ + text::trim_end(symbols.last().text) + seq!['\n'];
        assert(symlib::lines(symbols) =~= before + last);
        assert(symlib::lines(symbols) =~= a + line + (b + last));
    }
}

/// The text of a library opens with its header, holds the text of every symbol on
/// a line of its own, and closes.
pub proof fn lemma_library_text(lib: symlib::LibView, i: int)
    ensures
        text::starts_with(symlib::rendered(lib), lib.header + seq!['\n']),
        0 <= i < lib.symbols.len() ==> written::shows(
            symlib::rendered(lib),
            "  "@ + text::trim_end(lib.symbols[i].text) + seq!['\n'],
        ),
        symlib::rendered(lib).skip(symlib::rendered(lib).len() - 2) == ")\n"@,
{
    reveal_strlit(")\n");
    let whole = symlib::rendered(lib);
    let head = lib.header + seq!['\n'];
    let body = symlib::lines(lib.symbols);
    assert(whole =~= head + body + ")\n"@);
    assert(whole.take(head.len() as int) =~= head);
    assert(whole.skip(whole.len() - 2) =~= ")\n"@);
    if 0 <= i < lib.symbols.len() {
        lemma_lines(lib.symbols, i);
        reveal(written::shows);
        let line = "  "@ + text::trim_end(lib.symbols[i].text) + seq!['\n'];
        let (a, b) = choose|a: Seq<char>, b: Seq<char>| body == #[trigger] (a + line + b);
        assert(whole =~= (head + a) + line + (b + ")\n"@));
    }
}

/// A library that is not there yet starts as an empty one of the version that the
/// symbols are written in.
pub proof fn lemma_new_library()
    ensures
        symlib::blank().symbols.len() == 0,
        symlib::blank().header == "(kicad_symbol_lib (version 20211014) (generator cse-importer)"@,
{
}

// ------------------------------------------------------------------ merging

/// What merging comes to where something is in the way: the reason, and nothing
/// is written. A source without symbols leaves the library alone.
pub proof fn lemma_not_merged(
    path: Seq<char>,
    source: Seq<char>,
    old: Seq<char>,
    incoming: symlib::LibView,
    e: Seq<char>,
    existing: Result<Option<Seq<char>>, Seq<char>>,
)
    ensures
        symlib::parsed(source) == Err::<symlib::LibView, Seq<char>>(e) ==> symlib::merge_of(
            path,
            source,
            existing,
        ) == Err::<(Seq<Seq<char>>, Option<Seq<char>>), Seq<char>>(e),
        symlib::parsed(source) == Ok::<symlib::LibView, Seq<char>>(incoming)
            && incoming.symbols.len() == 0 ==> (symlib::merge_of(path, source, existing) matches Ok(
            (found, whole),
        ) && found.len() == 0 && whole is None),
        symlib::parsed(source) == Ok::<symlib::LibView, Seq<char>>(incoming)
            && incoming.symbols.len() > 0 ==> symlib::merge_of(path, source, Err(e)) == Err::<
            (Seq<Seq<char>>, Option<Seq<char>>),
            Seq<char>,
        >("reading "@ + path + ": "@ + e),
        symlib::parsed(source) == Ok::<symlib::LibView, Seq<char>>(incoming)
            && incoming.symbols.len() > 0 && symlib::parsed(old) == Err::<
            symlib::LibView,
            Seq<char>,
        >(e) ==> symlib::merge_of(path, source, Ok(Some(old))) == Err::<
            (Seq<Seq<char>>, Option<Seq<char>>),
            Seq<char>,
        >("parsing "@ + path + ": "@ + e),
{
}

/// A merge goes through wherever both texts can be read and there is something to
/// merge, and keeps the header of the library that was there.
pub proof fn lemma_merges(
    path: Seq<char>,
    source: Seq<char>,
    old: Seq<char>,
    incoming: symlib::LibView,
    target: symlib::LibView,
)
    requires
        symlib::parsed(source) == Ok::<symlib::LibView, Seq<char>>(incoming),
        symlib::parsed(old) == Ok::<symlib::LibView, Seq<char>>(target),
        incoming.symbols.len() > 0,
    ensures
        symlib::merge_of(path, source, Ok(Some(old))) matches Ok((found, Some(whole)))
            && text::starts_with(whole, target.header + seq!['\n']),
        symlib::merge_of(path, source, Ok(None)) matches Ok((found, Some(whole)))
            && text::starts_with(whole, symlib::blank().header + seq!['\n']),
{
    lemma_library_text(symlib::merged(target, incoming.symbols), 0);
    lemma_library_text(symlib::merged(symlib::blank(), incoming.symbols), 0);
}

/// A text that opens with anything but a form is no library.
pub proof fn lemma_no_library(s: Seq<char>)
    requires
        s.len() == 0 || !symlib::is_ascii_space(s[0]) && s[0] != '(',
    ensures
        symlib::parsed(s) is Err,
        symlib::symbol_names_in(s).len() == 0,
{
}

} // verus!
