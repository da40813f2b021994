//! Turning a component found on the web into KiCad files.
//!
//! The provider is LCSC/EasyEDA, whose catalogue is public and needs no API
//! key. A search returns [`easyeda::Hit`]s; fetching one produces a
//! [`RemotePart`] holding the same three file kinds a Component Search Engine
//! ZIP would have contained, which is what lets
//! [`crate::importer::install`] place both through exactly the same code.

pub mod catalogue;
pub mod easyeda;
pub mod fetched;
pub mod footprint;
pub mod package;
pub mod records;
pub mod strokes;
pub mod svgpath;
pub mod symbol;
pub mod written;

use vstd::prelude::*;
use vstd::string::*;

use crate::config;
use crate::config::Config;
use crate::importer;
use crate::importer::{prepare_staging, stage, Extracted, Kind, Pending, Staged};
use crate::online::easyeda::{Component, Hit};
use crate::online::footprint::{model_info, Model3d, Placement};
use crate::paths;
use crate::paths::{file_stem, join_path};
use crate::symlib;
use crate::text;
use crate::text::{joined, of_chars, slice, to_bytes, to_chars, trimmed};

verus! {

/// How many search results to ask the catalogue for.
pub const SEARCH_LIMIT: usize = 25;

// ------------------------------------------------------------------- names

/// A character that is safe in a file name and in a KiCad identifier.
pub open spec fn is_safe(c: char) -> bool {
    ||| 'a' <= c && c <= 'z'
    ||| 'A' <= c && c <= 'Z'
    ||| '0' <= c && c <= '9'
    ||| c == '-'
    ||| c == '_'
    ||| c == '.'
    ||| c == '+'
}

pub open spec fn safe_char(c: char) -> char {
    if is_safe(c) {
        c
    } else {
        '_'
    }
}

/// `s` with every run of underscores made one.
pub open spec fn squeezed(s: Seq<char>) -> Seq<char>
    decreases s.len(),
{
    if s.len() == 0 {
        s
    } else {
        let before = squeezed(s.drop_last());
        if s.last() == '_' && before.len() > 0 && before.last() == '_' {
            before
        } else {
            before.push(s.last())
        }
    }
}

/// `s` without the underscores it starts with.
pub open spec fn bare_start(s: Seq<char>) -> Seq<char>
    decreases s.len(),
{
    if s.len() > 0 && s[0] == '_' {
        bare_start(s.drop_first())
    } else {
        s
    }
}

/// `s` without the underscores it ends with.
pub open spec fn bare_end(s: Seq<char>) -> Seq<char>
    decreases s.len(),
{
    if s.len() > 0 && s.last() == '_' {
        bare_end(s.drop_last())
    } else {
        s
    }
}

/// `name` made safe as both a file name and a KiCad library identifier.
pub open spec fn sanitized(name: Seq<char>) -> Seq<char> {
    bare_end(bare_start(squeezed(text::trim(name).map_values(|c: char| safe_char(c)))))
}

fn safe(c: char) -> (r: char)
    ensures
        r == safe_char(c),
{
    if ('a' <= c && c <= 'z') || ('A' <= c && c <= 'Z') || ('0' <= c && c <= '9') || c == '-' || c
        == '_' || c == '.' || c == '+' {
        c
    } else {
        '_'
    }
}

/// Makes a name safe as both a file name and a KiCad library identifier.
pub fn sanitize(name: &str) -> (r: String)
    ensures
        r@ == sanitized(name@),
{
    let short = trimmed(name);
    let chars = to_chars(short.as_str());
    let ghost clean = chars@.map_values(|c: char| safe_char(c));
    // Collapse the runs of underscores that punctuation-heavy titles produce.
    let mut out: Vec<char> = Vec::new();
    let mut i: usize = 0;
    assert(clean.take(0) =~= Seq::<char>::empty());
    while i < chars.len()
        invariant
            i <= chars@.len(),
            clean == chars@.map_values(|c: char| safe_char(c)),
            out@ == squeezed(clean.take(i as int)),
        decreases chars.len() - i,
    {
        assert(clean.take(i + 1).drop_last() =~= clean.take(i as int));
        assert(clean.take(i + 1).last() == safe_char(chars@[i as int]));
        let c = safe(chars[i]);
        let doubled = c == '_' && out.len() > 0 && out[out.len() - 1] == '_';
        if !doubled {
            out.push(c);
        }
        i += 1;
    }
    assert(clean.take(i as int) =~= clean);
    let mut from: usize = 0;
    assert(out@.skip(0) =~= out@);
    while from < out.len() && out[from] == '_'
        invariant
            from <= out@.len(),
            bare_start(out@.skip(from as int)) == bare_start(out@),
        decreases out.len() - from,
    {
        assert(out@.skip(from as int).drop_first() =~= out@.skip(from + 1));
        from += 1;
    }
    let mut to: usize = out.len();
    let ghost rest = out@.skip(from as int);
    assert(rest =~= out@.subrange(from as int, to as int));
    while to > from && out[to - 1] == '_'
        invariant
            from <= to <= out@.len(),
            rest == bare_start(out@),
            bare_end(out@.subrange(from as int, to as int)) == bare_end(rest),
        decreases to - from,
    {
        assert(out@.subrange(from as int, to as int).drop_last() =~= out@.subrange(
            from as int,
            to - 1,
        ));
        to -= 1;
    }
    assert(to > from ==> out@.subrange(from as int, to as int).last() == out@[to - 1]);
    slice(&out, from, to)
}

/// What stands for a character in a KiCad s-expression literal.
pub open spec fn escaped_char(c: char) -> Seq<char> {
    if c == '\\' {
        seq!['\\', '\\']
    } else if c == '"' {
        seq!['\\', '"']
    } else {
        seq![c]
    }
}

/// `s` as the inside of a KiCad s-expression literal.
pub open spec fn escaped(s: Seq<char>) -> Seq<char>
    decreases s.len(),
{
    if s.len() == 0 {
        Seq::empty()
    } else {
        escaped(s.drop_last()) + escaped_char(s.last())
    }
}

/// Escapes a string for a KiCad s-expression literal.
pub fn escape(value: &str) -> (r: String)
    ensures
        r@ == escaped(value@),
{
    let chars = to_chars(value);
    let mut out: Vec<char> = Vec::new();
    let mut i: usize = 0;
    assert(chars@.take(0) =~= Seq::<char>::empty());
    while i < chars.len()
        invariant
            i <= chars@.len(),
            out@ == escaped(chars@.take(i as int)),
        decreases chars.len() - i,
    {
        let c = chars[i];
        let ghost was = out@;
        assert(chars@.take(i + 1).drop_last() =~= chars@.take(i as int));
        assert(chars@.take(i + 1).last() == c);
        if c == '\\' || c == '"' {
            out.push('\\');
        }
        out.push(c);
        assert(out@ =~= was + escaped_char(c));
        i += 1;
    }
    assert(chars@.take(i as int) =~= value@);
    of_chars(&out)
}

// ------------------------------------------------------------------- laws

/// No two underscores stand together.
pub open spec fn no_run(s: Seq<char>) -> bool {
    forall|i: int, j: int|
        0 <= i < s.len() && j == i + 1 && j < s.len() && #[trigger] s[i] == '_'
            ==> #[trigger] s[j] != '_'
}

/// Safe characters only, no two underscores together, and none at either end.
pub open spec fn is_clean(s: Seq<char>) -> bool {
    &&& forall|i: int| 0 <= i < s.len() ==> is_safe(#[trigger] s[i])
    &&& no_run(s)
    &&& s.len() > 0 ==> s[0] != '_' && s.last() != '_'
}

proof fn lemma_squeezed(s: Seq<char>)
    requires
        forall|i: int| 0 <= i < s.len() ==> is_safe(#[trigger] s[i]),
    ensures
        forall|i: int| 0 <= i < squeezed(s).len() ==> is_safe(#[trigger] squeezed(s)[i]),
        no_run(squeezed(s)),
    decreases s.len(),
{
    if s.len() > 0 {
        let init = s.drop_last();
        let before = squeezed(init);
        let after = squeezed(s);
        assert forall|i: int| 0 <= i < init.len() implies is_safe(#[trigger] init[i]) by {
            assert(init[i] == s[i]);
        }
        lemma_squeezed(init);
        assert(is_safe(s[s.len() - 1]));
        assert forall|i: int| 0 <= i < after.len() implies is_safe(#[trigger] after[i]) by {
            if i < before.len() {
                assert(after[i] == before[i]);
            }
        }
        assert forall|i: int, j: int|
            0 <= i < after.len() && j == i + 1 && j < after.len() && #[trigger] after[i]
                == '_' implies #[trigger] after[j] != '_' by {
            assert(after[i] == before[i]);
            if j < before.len() {
                assert(after[j] == before[j]);
            }
        }
    }
}

proof fn lemma_bare(s: Seq<char>)
    ensures
        bare_start(s).len() <= s.len(),
        bare_start(s) == s.skip(s.len() - bare_start(s).len()),
        bare_start(s).len() > 0 ==> bare_start(s)[0] != '_',
        bare_end(s).len() <= s.len(),
        bare_end(s) == s.take(bare_end(s).len() as int),
        bare_end(s).len() > 0 ==> bare_end(s).last() != '_',
    decreases s.len(),
{
    if s.len() > 0 && s[0] == '_' {
        lemma_bare(s.drop_first());
        let k = bare_start(s).len();
        assert(s.drop_first().skip(s.drop_first().len() - k) =~= s.skip(s.len() - k));
    } else {
        assert(s.skip(0) =~= s);
    }
    if s.len() > 0 && s.last() == '_' {
        lemma_bare(s.drop_last());
        let k = bare_end(s).len();
        assert(s.drop_last().take(k as int) =~= s.take(k as int));
    } else {
        assert(s.take(s.len() as int) =~= s);
    }
}

/// A sanitized name holds safe characters only, no run of underscores, and none
/// at either end.
pub proof fn lemma_sanitized_clean(name: Seq<char>)
    ensures
        is_clean(sanitized(name)),
{
    let clean = text::trim(name).map_values(|c: char| safe_char(c));
    assert(forall|i: int| 0 <= i < clean.len() ==> is_safe(#[trigger] clean[i]));
    let a = squeezed(clean);
    lemma_squeezed(clean);
    lemma_bare(a);
    let b = bare_start(a);
    lemma_bare(b);
    let c = bare_end(b);
    let k = a.len() - b.len();
    assert(forall|i: int| 0 <= i < b.len() ==> b[i] == a[i + k]);
    assert(forall|i: int| 0 <= i < c.len() ==> c[i] == b[i]);
    assert forall|i: int| 0 <= i < c.len() implies is_safe(#[trigger] c[i]) by {
        assert(is_safe(a[i + k]));
    }
    assert forall|i: int, j: int|
        0 <= i < c.len() && j == i + 1 && j < c.len() && #[trigger] c[i]
            == '_' implies #[trigger] c[j] != '_' by {
        assert(a[i + k] == '_');
        assert(a[j + k] == c[j]);
    }
}

proof fn lemma_clean_kept(s: Seq<char>)
    requires
        forall|i: int| 0 <= i < s.len() ==> is_safe(#[trigger] s[i]),
        no_run(s),
    ensures
        squeezed(s) == s,
        s.map_values(|c: char| safe_char(c)) == s,
    decreases s.len(),
{
    if s.len() > 0 {
        let init = s.drop_last();
        assert(forall|i: int| 0 <= i < init.len() ==> init[i] == s[i]);
        lemma_clean_kept(init);
        assert(s[s.len() - 1] == s.last());
        if s.len() > 1 {
            assert(init.last() == s[s.len() - 2]);
        }
        assert(init.push(s.last()) =~= s);
    }
    assert forall|i: int| 0 <= i < s.len() implies safe_char(#[trigger] s[i]) == s[i] by {
        assert(is_safe(s[i]));
    }
    assert(s.map_values(|c: char| safe_char(c)) =~= s);
}

/// A name that has been sanitized stays as it is.
pub proof fn lemma_sanitized_once(name: Seq<char>)
    ensures
        sanitized(sanitized(name)) == sanitized(name),
{
    let s = sanitized(name);
    lemma_sanitized_clean(name);
    assert(text::trim_start(s) == s) by {
        if s.len() > 0 {
            assert(is_safe(s[0]));
        }
    }
    assert(text::trim_end(s) == s) by {
        if s.len() > 0 {
            assert(is_safe(s[s.len() - 1]));
        }
    }
    lemma_clean_kept(s);
}

proof fn lemma_escaped_first(s: Seq<char>)
    requires
        s.len() > 0,
    ensures
        escaped(s) == escaped_char(s[0]) + escaped(s.drop_first()),
    decreases s.len(),
{
    let init = s.drop_last();
    if s.len() == 1 {
        assert(init =~= Seq::<char>::empty());
        assert(s.drop_first() =~= Seq::<char>::empty());
        assert(escaped(s) =~= escaped_char(s[0]) + escaped(s.drop_first()));
    } else {
        lemma_escaped_first(init);
        assert(init.drop_first() =~= s.drop_first().drop_last());
        assert(s.drop_first().last() == s.last());
        assert(escaped(s) =~= escaped_char(s[0]) + escaped(s.drop_first()));
    }
}

/// What is escaped into a literal is what reading the literal gives back.
pub proof fn lemma_escaped_read_back(s: Seq<char>, rest: Seq<char>)
    ensures
        symlib::quoted_text(escaped(s) + seq!['"'] + rest) == Some(s),
    decreases s.len(),
{
    let whole = escaped(s) + seq!['"'] + rest;
    if s.len() == 0 {
        assert(whole[0] == '"');
        assert(s =~= Seq::<char>::empty());
    } else {
        let tail = s.drop_first();
        let after = escaped(tail) + seq!['"'] + rest;
        lemma_escaped_first(s);
        lemma_escaped_read_back(tail, rest);
        assert(seq![s[0]] + tail =~= s);
        if s[0] == '\\' || s[0] == '"' {
            assert(whole[0] == '\\');
            assert(whole[1] == s[0]);
            assert(whole.skip(2) =~= after);
        } else {
            assert(whole[0] == s[0]);
            assert(whole.drop_first() =~= after);
        }
    }
}

// ------------------------------------------------------------------ searching

/// What a search comes to, given what the catalogue answered to it. An empty
/// query finds nothing and asks nothing.
pub open spec fn found(query: Seq<char>, answer: Result<Seq<char>, Seq<char>>) -> Result<
    Seq<easyeda::HitView>,
    Seq<char>,
> {
    if text::trim(query).len() == 0 {
        Ok(Seq::empty())
    } else {
        match answer {
            Ok(body) => easyeda::hits_of(body),
            Err(e) => Err(e),
        }
    }
}

/// What a search comes to, given what the catalogue answered to it.
pub fn search(query: &str, answer: Result<String, String>) -> (r: Result<Vec<Hit>, String>)
    ensures
        match r {
            Ok(list) => Ok(easyeda::hit_views(list@)),
            Err(e) => Err(e@),
        } == found(
            query@,
            match answer {
                Ok(body) => Ok(body@),
                Err(e) => Err(e@),
            },
        ),
{
    let q = trimmed(query);
    if q.as_str().is_empty() {
        let none: Vec<Hit> = Vec::new();
        assert(easyeda::hit_views(none@) =~= Seq::<easyeda::HitView>::empty());
        return Ok(none);
    }
    match answer {
        Ok(body) => easyeda::search(body.as_str()),
        Err(e) => Err(e),
    }
}

// ------------------------------------------------------------------- fetching

/// A component downloaded and converted, ready to be written into the library.
pub struct RemotePart {
    pub name: String,
    pub lcsc: String,
    pub description: String,
    /// `(<file name>, <contents>)`.
    pub symbol: (String, String),
    pub footprint: Option<(String, String)>,
    pub model: Option<(String, Vec<u8>)>,
}

#[verifier::ext_equal]
pub struct RemotePartView {
    pub name: Seq<char>,
    pub lcsc: Seq<char>,
    pub description: Seq<char>,
    pub symbol: (Seq<char>, Seq<char>),
    pub footprint: Option<(Seq<char>, Seq<char>)>,
    pub model: Option<(Seq<char>, Seq<u8>)>,
}

impl View for RemotePart {
    type V = RemotePartView;

    open spec fn view(&self) -> RemotePartView {
        RemotePartView {
            name: self.name@,
            lcsc: self.lcsc@,
            description: self.description@,
            symbol: (self.symbol.0@, self.symbol.1@),
            footprint: match self.footprint {
                Some(f) => Some((f.0@, f.1@)),
                None => None,
            },
            model: match self.model {
                Some(m) => Some((m.0@, m.1@)),
                None => None,
            },
        }
    }
}

/// The names the files of a component get, and the 3D model it points at.
pub struct Plan {
    pub name: String,
    pub model: Option<Model3d>,
    /// The absolute path the 3D model is about to occupy, so that the reference
    /// to it stays valid wherever the library is configured.
    pub model_reference: Option<String>,
    pub footprint_name: String,
    /// `<library nickname>:<footprint>`, the way KiCad addresses a footprint.
    pub footprint_ref: Option<String>,
}

#[verifier::ext_equal]
pub struct PlanView {
    pub name: Seq<char>,
    pub model: Option<footprint::Model3dView>,
    pub model_reference: Option<Seq<char>>,
    pub footprint_name: Seq<char>,
    pub footprint_ref: Option<Seq<char>>,
}

impl View for Plan {
    type V = PlanView;

    open spec fn view(&self) -> PlanView {
        PlanView {
            name: self.name@,
            model: footprint::model_view(self.model),
            model_reference: text::opt_view(self.model_reference),
            footprint_name: self.footprint_name@,
            footprint_ref: text::opt_view(self.footprint_ref),
        }
    }
}

/// The shapes of a component, measured.
pub struct Measured {
    pub symbol: Vec<symbol::Drawn>,
    pub package: Vec<footprint::Drawn>,
    pub placement: Option<Placement>,
}

/// A footprint as KiCad addresses it. The nickname of the library is the name of
/// its folder, without the extension.
pub open spec fn reference_to(footprint_dir: Seq<char>, name: Seq<char>) -> Option<Seq<char>> {
    let nickname = match paths::stem_of(footprint_dir) {
        Some(stem) => stem,
        None => ""@,
    };
    if name.len() == 0 {
        None
    } else if nickname.len() == 0 {
        Some(name)
    } else {
        Some(nickname + ":"@ + name)
    }
}

/// The names the files of a component get.
pub open spec fn planned(cfg: config::ConfigView, lcsc: Seq<char>, c: easyeda::ComponentView) -> Result<
    PlanView,
    Seq<char>,
> {
    let name = sanitized(c.title);
    let model = footprint::model_from(c.package_shapes, 0);
    let footprint_name = sanitized(c.package_name);
    if name.len() == 0 {
        Err(lcsc + ": component has no usable name"@)
    } else {
        Ok(
            PlanView {
                name,
                model,
                model_reference: if model is Some {
                    Some(paths::below(cfg.model_dir, name + ".stp"@))
                } else {
                    None
                },
                footprint_name,
                footprint_ref: reference_to(cfg.footprint_dir, footprint_name),
            },
        )
    }
}

/// Works out what the files of a component will be called.
pub fn plan(cfg: &Config, lcsc: &str, component: &Component) -> (r: Result<Plan, String>)
    ensures
        match r {
            Ok(p) => Ok(p@),
            Err(e) => Err(e@),
        } == planned(cfg@, lcsc@, component@),
{
    let name = sanitize(component.title.as_str());
    if name.as_str().is_empty() {
        let mut out = lcsc.to_string();
        out.append(": component has no usable name");
        return Err(out);
    }
    let model = model_info(component);
    let model_reference = if model.is_some() {
        let mut file = name.clone();
        file.append(".stp");
        Some(join_path(cfg.model_dir.as_str(), file.as_str()))
    } else {
        None
    };
    let footprint_name = sanitize(component.package_name.as_str());
    let nickname = match file_stem(cfg.footprint_dir.as_str()) {
        Some(stem) => stem,
        None => "".to_string(),
    };
    let footprint_ref = if footprint_name.as_str().is_empty() {
        None
    } else if nickname.as_str().is_empty() {
        Some(footprint_name.clone())
    } else {
        let mut out = nickname;
        out.append(":");
        out.append(footprint_name.as_str());
        Some(out)
    };
    proof {
        reveal_strlit("");
    }
    Ok(Plan { name, model, model_reference, footprint_name, footprint_ref })
}

/// A component in a few words: its title, manufacturer and package.
pub open spec fn described(c: easyeda::ComponentView) -> Seq<char> {
    let first = seq![c.title];
    let second = if c.manufacturer.len() == 0 {
        first
    } else {
        first.push(c.manufacturer)
    };
    let third = if c.package_name.len() == 0 {
        second
    } else {
        second.push(c.package_name)
    };
    text::join(third, " · "@)
}

fn describe(component: &Component) -> (r: String)
    ensures
        r@ == described(component@),
{
    let mut parts: Vec<String> = Vec::new();
    parts.push(component.title.clone());
    assert(text::views(parts@) =~= seq![component.title@]);
    if !component.manufacturer.as_str().is_empty() {
        let ghost was = text::views(parts@);
        parts.push(component.manufacturer.clone());
        assert(text::views(parts@) =~= was.push(component.manufacturer@));
    }
    if !component.package_name.as_str().is_empty() {
        let ghost was = text::views(parts@);
        parts.push(component.package_name.clone());
        assert(text::views(parts@) =~= was.push(component.package_name@));
    }
    joined(&parts, " · ")
}

/// A component's files: its symbol, its footprint where its package has a name,
/// and its 3D model where it could be had. A part without a model is normal and
/// fails nothing.
pub open spec fn assembled(
    c: easyeda::ComponentView,
    p: PlanView,
    drawn: Seq<symbol::DrawnView>,
    package: Seq<footprint::DrawnView>,
    placement: Option<footprint::PlacementView>,
    step: Option<Seq<u8>>,
) -> RemotePartView {
    RemotePartView {
        name: p.name,
        lcsc: c.lcsc,
        description: described(c),
        symbol: (p.name + ".kicad_sym"@, symbol::converted(c, p.footprint_ref, drawn)),
        footprint: if p.footprint_name.len() == 0 {
            None
        } else {
            Some(
                (
                    p.footprint_name + ".kicad_mod"@,
                    footprint::converted(
                        c,
                        p.footprint_name,
                        p.model_reference,
                        placement,
                        package,
                    ),
                ),
            )
        },
        model: match step {
            Some(bytes) => if p.model is Some {
                Some((p.name + ".stp"@, bytes))
            } else {
                None
            },
            None => None,
        },
    }
}

/// Converts a downloaded component to KiCad files.
///
/// `cfg` is needed only to work out the absolute path the footprint's 3D model
/// reference should point at — the same configured model directory the file
/// itself is about to be written into. `step` is what came of downloading the
/// model.
pub fn fetch(
    cfg: &Config,
    lcsc: &str,
    component: &Component,
    measured: &Measured,
    step: Result<Vec<u8>, String>,
) -> (r: Result<RemotePart, String>)
    ensures
        match planned(cfg@, lcsc@, component@) {
            Err(e) => r matches Err(x) && x@ == e,
            Ok(p) => r matches Ok(part) && part@ == assembled(
                component@,
                p,
                symbol::drawn_views(measured.symbol@),
                footprint::drawn_views(measured.package@),
                footprint::placement_view(measured.placement),
                match step {
                    Ok(bytes) => Some(bytes@),
                    Err(_) => None,
                },
            ),
        },
{
    let p = plan(cfg, lcsc, component)?;
    let reference = match &p.model_reference {
        Some(t) => Some(t.as_str()),
        None => None,
    };
    let footprint = if p.footprint_name.as_str().is_empty() {
        None
    } else {
        let mut file = p.footprint_name.clone();
        file.append(".kicad_mod");
        let text = footprint::convert(
            component,
            p.footprint_name.as_str(),
            reference,
            &measured.placement,
            &measured.package,
        );
        Some((file, text))
    };
    let footprint_ref = match &p.footprint_ref {
        Some(t) => Some(t.as_str()),
        None => None,
    };
    let symbol_text = symbol::convert(component, footprint_ref, &measured.symbol);
    let mut symbol_file = p.name.clone();
    symbol_file.append(".kicad_sym");
    let model = match step {
        Ok(bytes) => if p.model.is_some() {
            let mut file = p.name.clone();
            file.append(".stp");
            Some((file, bytes))
        } else {
            None
        },
        Err(_) => None,
    };
    Ok(
        RemotePart {
            name: p.name,
            lcsc: component.lcsc.clone(),
            description: describe(component),
            symbol: (symbol_file, symbol_text),
            footprint,
            model,
        },
    )
}

/// A file of a remote part, waiting in the staging area.
pub open spec fn waiting(dir: Seq<char>, kind: Kind, name: Seq<char>, contents: Seq<u8>) -> importer::ExtractedView {
    importer::ExtractedView {
        item: importer::StagedView { kind, name, path: paths::below(dir, name) },
        contents,
    }
}

/// The files of a remote part, waiting in the staging area.
pub open spec fn waiting_files(cfg: config::ConfigView, part: RemotePartView) -> Seq<
    importer::ExtractedView,
> {
    let dir = importer::staging_of(cfg, "web-"@ + part.lcsc);
    let first = seq![
        waiting(
            dir,
            Kind::Symbol,
            part.symbol.0,
            vstd::utf8::encode_utf8(part.symbol.1),
        ),
    ];
    let second = match part.footprint {
        Some(f) => first.push(
            waiting(dir, Kind::Footprint, f.0, vstd::utf8::encode_utf8(f.1)),
        ),
        None => first,
    };
    match part.model {
        Some(m) => second.push(waiting(dir, Kind::Model, m.0, m.1)),
        None => second,
    }
}

/// The import a remote part is. There is no archive behind it.
pub open spec fn staged_part(cfg: config::ConfigView, part: RemotePartView) -> importer::PendingView {
    importer::PendingView {
        part: part.name,
        source: "LCSC "@ + part.lcsc,
        staged: waiting_files(cfg, part).map_values(|f: importer::ExtractedView| f.item),
        staging: importer::staging_of(cfg, "web-"@ + part.lcsc),
        conflicts: Seq::empty(),
        zip: None,
    }
}

/// Stages a converted component, without touching the library. Goes through the
/// same staging area a ZIP import uses, so both routes are placed by the same
/// code. What it would replace is for [`importer::conflicts`] to say.
pub fn prepare(cfg: &Config, part: RemotePart) -> (r: (Pending, Vec<Extracted>))
    ensures
        importer::extracted_views(r.1@) == waiting_files(cfg@, part@),
        r.0@ == staged_part(cfg@, part@),
{
    let ghost whole = part@;
    let mut group = "web-".to_string();
    group.append(part.lcsc.as_str());
    let staging = prepare_staging(cfg, group.as_str());
    let dir = staging.as_str();
    let mut files: Vec<Extracted> = Vec::new();
    files.push(stage(dir, Kind::Symbol, part.symbol.0.as_str(), to_bytes(part.symbol.1.as_str())));
    assert(importer::extracted_views(files@) =~= seq![
        waiting(
            dir@,
            Kind::Symbol,
            whole.symbol.0,
            vstd::utf8::encode_utf8(whole.symbol.1),
        ),
    ]);
    if let Some(f) = &part.footprint {
        let ghost was = importer::extracted_views(files@);
        files.push(stage(dir, Kind::Footprint, f.0.as_str(), to_bytes(f.1.as_str())));
        assert(importer::extracted_views(files@) =~= was.push(
            waiting(dir@, Kind::Footprint, f.0@, vstd::utf8::encode_utf8(f.1@)),
        ));
    }
    if let Some(m) = part.model {
        let ghost was = importer::extracted_views(files@);
        let name = m.0;
        files.push(stage(dir, Kind::Model, name.as_str(), m.1));
        assert(importer::extracted_views(files@) =~= was.push(
            waiting(dir@, Kind::Model, name@, m.1@),
        ));
    }
    let staged = items_of(&files);
    let mut source = "LCSC ".to_string();
    source.append(part.lcsc.as_str());
    let conflicts: Vec<String> = Vec::new();
    assert(text::views(conflicts@) =~= Seq::<Seq<char>>::empty());
    (Pending { part: part.name, source, staged, staging, conflicts, zip: None }, files)
}

fn items_of(files: &Vec<Extracted>) -> (r: Vec<Staged>)
    ensures
        importer::staged_views(r@) == importer::extracted_views(files@).map_values(
            |f: importer::ExtractedView| f.item,
        ),
{
    let mut out: Vec<Staged> = Vec::new();
    let mut i: usize = 0;
    while i < files.len()
        invariant
            i <= files@.len(),
            out@.len() == i,
            forall|j: int| 0 <= j < i ==> (#[trigger] out@[j])@ == files@[j].item@,
        decreases files.len() - i,
    {
        out.push(files[i].item.clone());
        i += 1;
    }
    assert(importer::staged_views(out@) =~= importer::extracted_views(files@).map_values(
        |f: importer::ExtractedView| f.item,
    ));
    out
}

} // verus!
