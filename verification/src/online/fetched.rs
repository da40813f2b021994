//! From a component to the files that wait to be placed: what they are called,
//! what they hold, and how they point at one another.

use vstd::prelude::*;
use vstd::string::*;

use crate::config;
use crate::importer;
use crate::importer::Kind;
use crate::online;
use crate::online::easyeda;
use crate::online::footprint;
use crate::online::symbol;
use crate::paths;
use crate::text;

verus! {

// -------------------------------------------------------------------- names

/// A letter, a digit, or one of `-`, `.` and `+`.
pub open spec fn is_plain_letter(c: char) -> bool {
    ||| 'a' <= c && c <= 'z'
    ||| 'A' <= c && c <= 'Z'
    ||| '0' <= c && c <= '9'
    ||| c == '-'
    ||| c == '.'
    ||| c == '+'
}

pub open spec fn is_plain_word(s: Seq<char>) -> bool {
    s.len() > 0 && forall|i: int| 0 <= i < s.len() ==> is_plain_letter(#[trigger] s[i])
}

proof fn lemma_squeezed_plain(s: Seq<char>)
    requires
        forall|i: int, j: int|
            0 <= i && j == i + 1 && j < s.len() ==> !(#[trigger] s[i] == '_' && #[trigger] s[j]
                == '_'),
    ensures
        online::squeezed(s) == s,
    decreases s.len(),
{
    if s.len() > 0 {
        let init = s.drop_last();
        assert(forall|i: int| 0 <= i < init.len() ==> init[i] == s[i]);
        lemma_squeezed_plain(init);
        if init.len() > 0 {
            assert(init.last() == s[s.len() - 2]);
            assert(s.last() == s[s.len() - 1]);
        }
        assert(init.push(s.last()) =~= s);
    }
}

/// A plain word stays as it is, and two plain words with one other character
/// between them have one underscore there. Blanks around a name are dropped.
pub proof fn lemma_sanitized_words(a: Seq<char>, c: char, b: Seq<char>)
    requires
        is_plain_word(a),
        is_plain_word(b),
        !is_plain_letter(c),
    ensures
        online::sanitized(a) == a,
        online::sanitized(a + seq![c] + b) == a + seq!['_'] + b,
        online::sanitized(seq![' '] + a + seq![' ']) == a,
{
    let clean = |c: char| online::safe_char(c);
    assert(is_plain_letter(a[0]) && is_plain_letter(a[a.len() - 1]) && is_plain_letter(b[b.len()
        - 1]));
    let am = a.map_values(clean);
    assert(am =~= a) by {
        assert forall|i: int| 0 <= i < a.len() implies am[i] == a[i] by {
            assert(is_plain_letter(a[i]));
        }
    }
    lemma_squeezed_plain(a);
    assert(text::trim_start(a) == a && text::trim_end(a) == a);
    assert(online::bare_start(a) == a && online::bare_end(a) == a);
    let s = a + seq![c] + b;
    let t = a + seq!['_'] + b;
    let sm = s.map_values(clean);
    assert(sm =~= t) by {
        assert forall|i: int| 0 <= i < s.len() implies sm[i] == t[i] by {
            if i < a.len() {
                assert(s[i] == a[i]);
                assert(is_plain_letter(a[i]));
            } else if i > a.len() {
                assert(s[i] == b[i - a.len() - 1]);
                assert(is_plain_letter(b[i - a.len() - 1]));
            }
        }
    }
    assert(s[0] == a[0]);
    assert(s.last() == b[b.len() - 1]);
    assert(text::trim_start(s) == s && text::trim_end(s) == s);
    assert forall|i: int, j: int| 0 <= i && j == i + 1 && j < t.len() implies !(#[trigger] t[i]
        == '_' && #[trigger] t[j] == '_') by {
        if i < a.len() {
            assert(is_plain_letter(a[i]));
        } else {
            assert(is_plain_letter(b[j - a.len() - 1]));
        }
    }
    lemma_squeezed_plain(t);
    assert(t[0] == a[0] && t.last() == b[b.len() - 1]);
    assert(online::bare_start(t) == t && online::bare_end(t) == t);
    let w = seq![' '] + a + seq![' '];
    assert(w.drop_first() =~= a + seq![' ']);
    let v = a + seq![' '];
    assert(v[0] == a[0]);
    assert(text::trim_start(v) == v);
    assert(text::trim_start(w) == v);
    assert(v.drop_last() =~= a);
    assert(text::trim_end(v) == a);
}

// -------------------------------------------------------------------- files

/// A component gets three files at most. Its symbol and its model are named
/// after its own name, its footprint after its package. The symbol holds the
/// schematic, the footprint the package, the model the bytes that came.
pub proof fn lemma_files(
    cfg: config::ConfigView,
    lcsc: Seq<char>,
    c: easyeda::ComponentView,
    drawn: Seq<symbol::DrawnView>,
    package: Seq<footprint::DrawnView>,
    placement: Option<footprint::PlacementView>,
    step: Option<Seq<u8>>,
)
    requires
        online::sanitized(c.title).len() > 0,
    ensures
        online::planned(cfg, lcsc, c) matches Ok(p) && {
            let part = online::assembled(c, p, drawn, package, placement, step);
            let name = online::sanitized(c.title);
            let under = online::sanitized(c.package_name);
            &&& p.name == name
            &&& p.footprint_name == under
            &&& p.model == footprint::model_from(c.package_shapes, 0)
            &&& part.name == name
            &&& part.lcsc == c.lcsc
            &&& part.description == online::described(c)
            &&& part.symbol.0 == name + ".kicad_sym"@
            &&& part.symbol.1 == symbol::converted(c, p.footprint_ref, drawn)
            &&& part.footprint is Some <==> under.len() > 0
            &&& part.footprint matches Some(f) ==> f.0 == under + ".kicad_mod"@ && f.1
                == footprint::converted(c, under, p.model_reference, placement, package)
            &&& part.model is Some <==> step is Some && footprint::model_from(
                c.package_shapes,
                0,
            ) is Some
            &&& part.model matches Some(m) ==> m.0 == name + ".stp"@ && Some(m.1) == step
        },
{
}

/// A title without a usable character is refused, by the number it was asked for
/// under.
pub proof fn lemma_nameless(cfg: config::ConfigView, lcsc: Seq<char>, c: easyeda::ComponentView)
    requires
        online::sanitized(c.title).len() == 0,
    ensures
        online::planned(cfg, lcsc, c) matches Err(e) && text::starts_with(e, lcsc + ":"@),
{
    reveal_strlit(": component has no usable name");
    reveal_strlit(":");
    let e = lcsc + ": component has no usable name"@;
    assert(e.take((lcsc + ":"@).len() as int) =~= lcsc + ":"@);
}

/// The footprint points at its 3D model where that model is about to be placed,
/// and the symbol points at its footprint by the name of the folder that it goes
/// to and its own.
pub proof fn lemma_references(
    cfg: config::ConfigView,
    lcsc: Seq<char>,
    c: easyeda::ComponentView,
    path: Seq<char>,
    folder: Seq<char>,
)
    requires
        online::sanitized(c.title).len() > 0,
        paths::leaf_of(cfg.footprint_dir) == Some(folder + ".pretty"@),
        folder.len() > 0,
        !folder.contains('.'),
    ensures
        online::planned(cfg, lcsc, c) matches Ok(p) && {
            let name = online::sanitized(c.title);
            let under = online::sanitized(c.package_name);
            let item = importer::StagedView { kind: Kind::Model, name: name + ".stp"@, path };
            &&& p.model_reference is Some <==> footprint::model_from(c.package_shapes, 0) is Some
            &&& p.model_reference matches Some(at) ==> importer::destinations_of(cfg, name, item)
                == seq![at] && at == paths::below(cfg.model_dir, name + ".stp"@)
            &&& under.len() > 0 ==> p.footprint_ref == Some(folder + ":"@ + under)
            &&& under.len() == 0 ==> p.footprint_ref is None
        },
{
    let leaf = folder + ".pretty"@;
    reveal_strlit(".pretty");
    reveal_strlit("");
    reveal_strlit("pretty");
    assert(!"pretty"@.contains('.'));
    lemma_dot(folder, "pretty"@);
    assert(leaf =~= folder.push('.') + "pretty"@);
    assert(leaf.take(folder.len() as int) =~= folder);
}

proof fn lemma_dot(a: Seq<char>, b: Seq<char>)
    requires
        !b.contains('.'),
    ensures
        paths::last_dot(a.push('.') + b) == Some(a.len() as int),
    decreases b.len(),
{
    let s = a.push('.') + b;
    if b.len() == 0 {
        assert(s =~= a.push('.'));
    } else {
        assert(s.last() == b.last());
        assert(b.contains(b.last()));
        let c = b.drop_last();
        assert forall|i: int| 0 <= i < c.len() implies c[i] != '.' by {
            assert(b.contains(b[i]));
        }
        assert(s.drop_last() =~= a.push('.') + c);
        lemma_dot(a, c);
    }
}

/// The description of a component: its title, then its manufacturer and its
/// package where it has them.
pub proof fn lemma_described(c: easyeda::ComponentView)
    ensures
        c.manufacturer.len() == 0 && c.package_name.len() == 0 ==> online::described(c) == c.title,
        c.manufacturer.len() > 0 && c.package_name.len() == 0 ==> online::described(c) == c.title
            + " · "@ + c.manufacturer,
        c.manufacturer.len() == 0 && c.package_name.len() > 0 ==> online::described(c) == c.title
            + " · "@ + c.package_name,
        c.manufacturer.len() > 0 && c.package_name.len() > 0 ==> online::described(c) == c.title
            + " · "@ + c.manufacturer + " · "@ + c.package_name,
{
    let dot = " · "@;
    let one = seq![c.title];
    assert(text::join(one, dot) == c.title);
    let two = one.push(c.manufacturer);
    assert(two.drop_last() =~= one);
    assert(text::join(two, dot) == c.title + dot + c.manufacturer);
    let other = one.push(c.package_name);
    assert(other.drop_last() =~= one);
    assert(text::join(other, dot) == c.title + dot + c.package_name);
    let three = two.push(c.package_name);
    assert(three.drop_last() =~= two);
    assert(text::join(three, dot) == c.title + dot + c.manufacturer + dot + c.package_name);
}

// ------------------------------------------------------------------ staging

/// What waits for a remote part is what was made of it: a symbol, then a
/// footprint and a model where it has them, each under its own name with its own
/// contents, in one folder named after its part number. It is recorded as coming
/// from LCSC under that number, and there is no archive to file away.
pub proof fn lemma_staged(cfg: config::ConfigView, part: online::RemotePartView)
    ensures
        ({
            let p = online::staged_part(cfg, part);
            let files = online::waiting_files(cfg, part);
            let dir = paths::below(cfg.temp_dir, "web-"@ + part.lcsc);
            let count = 1 + if part.footprint is Some {
                1int
            } else {
                0
            } + if part.model is Some {
                1int
            } else {
                0
            };
            &&& p.part == part.name
            &&& p.source == "LCSC "@ + part.lcsc
            &&& p.zip is None
            &&& p.staging == dir
            &&& files.len() == count
            &&& p.staged.len() == count
            &&& forall|i: int|
                0 <= i < count ==> (#[trigger] p.staged[i]) == files[i].item && p.staged[i].path
                    == paths::below(dir, p.staged[i].name)
            &&& files[0].item.kind == Kind::Symbol && files[0].item.name == part.symbol.0
                && vstd::utf8::decode_utf8(files[0].contents) == part.symbol.1
            &&& part.footprint matches Some(f) ==> files[1].item.kind == Kind::Footprint
                && files[1].item.name == f.0 && vstd::utf8::decode_utf8(files[1].contents) == f.1
            &&& part.model matches Some(m) ==> files.last().item.kind == Kind::Model
                && files.last().item.name == m.0 && files.last().contents == m.1
        }),
{
    vstd::utf8::encode_utf8_decode_utf8(part.symbol.1);
    if let Some(f) = part.footprint {
        vstd::utf8::encode_utf8_decode_utf8(f.1);
    }
}

} // verus!
