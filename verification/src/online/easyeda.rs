//! LCSC / EasyEDA component API.
//!
//! Two public endpoints are used, both anonymous:
//!
//! * `easyeda.com/api/eda/product/search` — keyword search over the LCSC catalogue
//! * `easyeda.com/api/products/<LCSC>/components` — symbol + footprint geometry
//! * `modules.easyeda.com/qAxj…/<uuid>` — the STEP model referenced by the footprint
//!
//! The geometry is stored as `~`-delimited records; [`Record`] is the shared
//! reader for them. A number is kept as the text it is written in.

use vstd::prelude::*;
use vstd::string::*;

use crate::http;
use crate::json;
use crate::text;
use crate::text::{
    eq_ignore_ascii_case, number, pieces, pieces_on, replaced, slice, to_bytes, to_chars,
    to_uppercase, trimmed,
};

verus! {

pub const SEARCH_URL: &'static str = "https://easyeda.com/api/eda/product/search";

pub const COMPONENT_URL: &'static str = "https://easyeda.com/api/products";

pub const STEP_URL: &'static str = "https://modules.easyeda.com/qAxj6KHrDKw4blvCG8QJPs7Y";

pub const SEARCH_VERSION: &'static str = "6.5.31";

pub const COMPONENT_VERSION: &'static str = "6.4.19.5";

// ----------------------------------------------------------------- numbers

pub open spec fn is_digit(c: char) -> bool {
    '0' <= c && c <= '9'
}

/// Where the digits that start at `i` end.
pub open spec fn digits_end(s: Seq<char>, i: int) -> int
    decreases s.len() - i,
{
    if 0 <= i < s.len() && is_digit(s[i]) {
        digits_end(s, i + 1)
    } else {
        i
    }
}

pub open spec fn after_sign(s: Seq<char>, i: int) -> int {
    if 0 <= i < s.len() && (s[i] == '+' || s[i] == '-') {
        i + 1
    } else {
        i
    }
}

/// An exponent, or nothing, stands from `i` to the end.
pub open spec fn is_exponent(s: Seq<char>, i: int) -> bool {
    i == s.len() || ((s[i] == 'e' || s[i] == 'E') && after_sign(s, i + 1) < digits_end(
        s,
        after_sign(s, i + 1),
    ) && digits_end(s, after_sign(s, i + 1)) == s.len())
}

/// Digits with a point among them or without, and perhaps an exponent.
pub open spec fn is_plain_number(s: Seq<char>, i: int) -> bool {
    let a = digits_end(s, i);
    if a < s.len() && s[a] == '.' {
        let b = digits_end(s, a + 1);
        (a > i || b > a + 1) && is_exponent(s, b)
    } else {
        a > i && is_exponent(s, a)
    }
}

/// The text reads as a floating-point number: a sign or none, and then digits, an
/// infinity or a not-a-number.
pub open spec fn is_number(s: Seq<char>) -> bool {
    let i = after_sign(s, 0);
    let word = s.skip(i);
    ||| text::same_letters(word, "inf"@)
    ||| text::same_letters(word, "infinity"@)
    ||| text::same_letters(word, "nan"@)
    ||| is_plain_number(s, i)
}

fn skip_digits(chars: &Vec<char>, i: usize) -> (r: usize)
    requires
        i <= chars@.len(),
    ensures
        r == digits_end(chars@, i as int),
        i <= r <= chars@.len(),
{
    let mut k: usize = i;
    while k < chars.len() && '0' <= chars[k] && chars[k] <= '9'
        invariant
            i <= k <= chars@.len(),
            digits_end(chars@, k as int) == digits_end(chars@, i as int),
        decreases chars.len() - k,
    {
        k += 1;
    }
    k
}

fn skip_sign(chars: &Vec<char>, i: usize) -> (r: usize)
    requires
        i <= chars@.len(),
    ensures
        r == after_sign(chars@, i as int),
        i <= r <= chars@.len(),
{
    if i < chars.len() && (chars[i] == '+' || chars[i] == '-') {
        i + 1
    } else {
        i
    }
}

fn exponent(chars: &Vec<char>, i: usize) -> (r: bool)
    requires
        i <= chars@.len(),
    ensures
        r == is_exponent(chars@, i as int),
{
    let n: usize = chars.len();
    if i == n {
        return true;
    }
    if chars[i] != 'e' && chars[i] != 'E' {
        return false;
    }
    let from = skip_sign(chars, i + 1);
    let to = skip_digits(chars, from);
    from < to && to == n
}

/// Whether the text reads as a floating-point number.
pub fn reads_as_number(s: &str) -> (r: bool)
    ensures
        r == is_number(s@),
{
    let chars = to_chars(s);
    let n: usize = chars.len();
    let i = skip_sign(&chars, 0);
    let word = slice(&chars, i, n);
    assert(word@ =~= s@.skip(i as int));
    if eq_ignore_ascii_case(word.as_str(), "inf") || eq_ignore_ascii_case(
        word.as_str(),
        "infinity",
    ) || eq_ignore_ascii_case(word.as_str(), "nan") {
        return true;
    }
    let a = skip_digits(&chars, i);
    if a < n && chars[a] == '.' {
        let b = skip_digits(&chars, a + 1);
        (a > i || b > a + 1) && exponent(&chars, b)
    } else {
        a > i && exponent(&chars, a)
    }
}

// ----------------------------------------------------------------- records

/// One EasyEDA shape record, e.g. `PAD~RECT~3973.133~…`.
///
/// Records are `~`-delimited, and pins additionally split into `^^` groups.
/// Missing trailing fields are normal, so every accessor tolerates a short
/// record rather than failing the whole import.
pub struct Record {
    pub fields: Vec<String>,
}

impl View for Record {
    type V = Seq<Seq<char>>;

    open spec fn view(&self) -> Seq<Seq<char>> {
        text::views(self.fields@)
    }
}

/// A field of a record; one past the end reads as empty.
pub open spec fn field(record: Seq<Seq<char>>, index: int) -> Seq<char> {
    if 0 <= index < record.len() {
        record[index]
    } else {
        Seq::empty()
    }
}

/// The number in a field, if there is one.
pub open spec fn number_in(record: Seq<Seq<char>>, index: int) -> Option<Seq<char>> {
    let t = text::trim(field(record, index));
    if is_number(t) {
        Some(t)
    } else {
        None
    }
}

/// The number in a field; what is no number counts as zero.
pub open spec fn number_or_zero(record: Seq<Seq<char>>, index: int) -> Seq<char> {
    match number_in(record, index) {
        Some(t) => t,
        None => "0"@,
    }
}

/// The fields of a record.
pub open spec fn record_of(s: Seq<char>) -> Seq<Seq<char>> {
    text::split(s, '~')
}

impl Record {
    pub fn new(text: &str) -> (r: Record)
        ensures
            r@ == record_of(text@),
    {
        Record { fields: pieces(text, '~') }
    }

    pub fn kind(&self) -> (r: String)
        ensures
            r@ == field(self@, 0),
    {
        self.str(0)
    }

    pub fn str(&self, index: usize) -> (r: String)
        ensures
            r@ == field(self@, index as int),
    {
        if index < self.fields.len() {
            self.fields[index].clone()
        } else {
            let none = String::new();
            assert(none@ =~= Seq::<char>::empty());
            none
        }
    }

    /// The number in a field; what is no number counts as zero.
    pub fn num(&self, index: usize) -> (r: String)
        ensures
            r@ == number_or_zero(self@, index as int),
    {
        match self.opt_num(index) {
            Some(t) => t,
            None => "0".to_string(),
        }
    }

    /// A field that must be present and numeric for the shape to mean anything.
    pub fn opt_num(&self, index: usize) -> (r: Option<String>)
        ensures
            text::opt_view(r) == number_in(self@, index as int),
    {
        let raw = self.str(index);
        let t = trimmed(raw.as_str());
        if reads_as_number(t.as_str()) {
            Some(t)
        } else {
            None
        }
    }
}

/// The `^^` groups of a pin record.
pub open spec fn groups_of(s: Seq<char>) -> Seq<Seq<char>> {
    text::split_on(s, "^^"@)
}

/// Splits a pin record into its `^^` groups.
pub fn groups(text: &str) -> (r: Vec<String>)
    ensures
        text::views(r@) == groups_of(text@),
{
    proof {
        reveal_strlit("^^");
    }
    pieces_on(text, "^^")
}

// ------------------------------------------------------------------ searching

pub struct Hit {
    /// LCSC part number, e.g. `C7420`. This is what [`component`] takes.
    pub id: String,
    pub mpn: String,
    pub manufacturer: String,
    pub package: String,
    pub category: String,
    pub stock: u64,
}

#[verifier::ext_equal]
pub struct HitView {
    pub id: Seq<char>,
    pub mpn: Seq<char>,
    pub manufacturer: Seq<char>,
    pub package: Seq<char>,
    pub category: Seq<char>,
    pub stock: u64,
}

impl View for Hit {
    type V = HitView;

    open spec fn view(&self) -> HitView {
        HitView {
            id: self.id@,
            mpn: self.mpn@,
            manufacturer: self.manufacturer@,
            package: self.package@,
            category: self.category@,
            stock: self.stock,
        }
    }
}

pub open spec fn hit_views(list: Seq<Hit>) -> Seq<HitView> {
    list.map_values(|h: Hit| h@)
}

impl Clone for Hit {
    fn clone(&self) -> (r: Hit)
        ensures
            r@ == self@,
    {
        Hit {
            id: self.id.clone(),
            mpn: self.mpn.clone(),
            manufacturer: self.manufacturer.clone(),
            package: self.package.clone(),
            category: self.category.clone(),
            stock: self.stock,
        }
    }
}

/// The address a search asks, unless there is nothing to search for.
pub open spec fn search_address(query: Seq<char>, limit: nat) -> Option<Seq<char>> {
    let q = text::trim(query);
    if q.len() == 0 {
        None
    } else {
        Some(
            SEARCH_URL@ + "?keyword="@ + http::encoded(q) + "&version="@ + SEARCH_VERSION@
                + "&page=1&limit="@ + text::decimal(limit),
        )
    }
}

/// The address a search asks, unless there is nothing to search for.
pub fn search_url(query: &str, limit: usize) -> (r: Option<String>)
    ensures
        text::opt_view(r) == search_address(query@, limit as nat),
{
    let q = trimmed(query);
    if q.as_str().is_empty() {
        return None;
    }
    let mut url = SEARCH_URL.to_string();
    let word = http::encode(q.as_str());
    let count = number(limit as u128);
    url.append("?keyword=");
    url.append(word.as_str());
    url.append("&version=");
    url.append(SEARCH_VERSION);
    url.append("&page=1&limit=");
    url.append(count.as_str());
    Some(url)
}

/// The category inside a product address.
pub open spec fn category_of(url: Seq<char>) -> Seq<char> {
    let slug = text::split(text::split(url, '/').last(), '_')[0];
    text::replace(text::replace(slug, "---"@, " / "@), "-"@, " "@)
}

/// The catalogue category is only present inside the product URL, as in
/// `/product-detail/555-Timers---Counters_YONGYUTAI-NE555_C52195098.html`.
pub fn category_from_url(url: &str) -> (r: String)
    ensures
        r@ == category_of(url@),
{
    let parts = pieces(url, '/');
    proof {
        text::lemma_split_len(url@, '/');
        assert(text::views(parts@).len() == parts@.len());
        assert(text::views(parts@).last() == parts@.last()@);
        reveal_strlit("---");
        reveal_strlit("-");
    }
    let tail = &parts[parts.len() - 1];
    let slugs = pieces(tail.as_str(), '_');
    proof {
        text::lemma_split_len(tail@, '_');
        assert(text::views(slugs@).len() == slugs@.len());
        assert(text::views(slugs@)[0] == slugs@[0]@);
    }
    let wide = replaced(slugs[0].as_str(), "---", " / ");
    replaced(wide.as_str(), "-", " ")
}

/// One search result, from the fields of its entry. An entry without a part
/// number is none.
pub open spec fn hit_of(
    id: Option<Seq<char>>,
    mpn: Option<Seq<char>>,
    manufacturer: Option<Seq<char>>,
    package: Option<Seq<char>>,
    url: Option<Seq<char>>,
    stock: Option<u64>,
) -> Option<HitView> {
    match id {
        None => None,
        Some(id) => Some(
            HitView {
                id,
                mpn: json::or_text(mpn, ""@),
                manufacturer: json::or_text(manufacturer, ""@),
                package: json::or_text(package, ""@),
                category: category_of(json::or_text(url, ""@)),
                stock: match stock {
                    Some(n) => n,
                    None => 0,
                },
            },
        ),
    }
}

pub open spec fn hit_option(r: Option<Hit>) -> Option<HitView> {
    match r {
        Some(h) => Some(h@),
        None => None,
    }
}

/// One search result, from the fields of its entry.
pub fn hit_from(
    id: Option<String>,
    mpn: Option<String>,
    manufacturer: Option<String>,
    package: Option<String>,
    url: Option<String>,
    stock: Option<u64>,
) -> (r: Option<Hit>)
    ensures
        hit_option(r) == hit_of(
            text::opt_view(id),
            text::opt_view(mpn),
            text::opt_view(manufacturer),
            text::opt_view(package),
            text::opt_view(url),
            stock,
        ),
{
    match id {
        None => None,
        Some(id) => {
            let address = json::or_else(url, "");
            Some(
                Hit {
                    id,
                    mpn: json::or_else(mpn, ""),
                    manufacturer: json::or_else(manufacturer, ""),
                    package: json::or_else(package, ""),
                    category: category_from_url(address.as_str()),
                    stock: match stock {
                        Some(n) => n,
                        None => 0,
                    },
                },
            )
        },
    }
}

/// The search result an entry of the product list is.
pub open spec fn hit_in(item: Seq<char>) -> Option<HitView> {
    hit_of(
        json::text_at(item, "number"@),
        json::text_at(item, "mpn"@),
        json::text_at(item, "manufacturer"@),
        json::text_at(item, "package"@),
        json::text_at(item, "url"@),
        json::json_unsigned(json::at(item, "stock"@)),
    )
}

pub open spec fn hits_in(items: Seq<Seq<char>>) -> Seq<HitView>
    decreases items.len(),
{
    if items.len() == 0 {
        Seq::empty()
    } else {
        match hit_in(items.last()) {
            Some(h) => hits_in(items.drop_last()).push(h),
            None => hits_in(items.drop_last()),
        }
    }
}

/// The results in the answer to a search.
pub open spec fn hits_of(body: Seq<char>) -> Result<Seq<HitView>, Seq<char>> {
    match json::json_fault(body) {
        Some(e) => Err("search response was not JSON: "@ + e),
        None => match json::json_items(
            json::at(json::at(body, "result"@), "productList"@),
        ) {
            None => Err("search response had no productList"@),
            Some(items) => Ok(hits_in(items)),
        },
    }
}

fn hit_at(item: &str) -> (r: Option<Hit>)
    ensures
        hit_option(r) == hit_in(item@),
{
    let stock = json::get(item, "stock");
    hit_from(
        json::get_text(item, "number"),
        json::get_text(item, "mpn"),
        json::get_text(item, "manufacturer"),
        json::get_text(item, "package"),
        json::get_text(item, "url"),
        json::as_unsigned(stock.as_str()),
    )
}

/// The results in the answer to a search.
pub fn search(body: &str) -> (r: Result<Vec<Hit>, String>)
    ensures
        match r {
            Ok(list) => Ok(hit_views(list@)),
            Err(e) => Err(e@),
        } == hits_of(body@),
{
    if let Some(e) = json::fault(body) {
        let mut out = "search response was not JSON: ".to_string();
        out.append(e.as_str());
        return Err(out);
    }
    let result = json::get(body, "result");
    let list = json::get(result.as_str(), "productList");
    let items = match json::items(list.as_str()) {
        Some(items) => items,
        None => {
            return Err("search response had no productList".to_string());
        },
    };
    let ghost all = text::views(items@);
    let mut hits: Vec<Hit> = Vec::new();
    let mut i: usize = 0;
    assert(all.take(0) =~= Seq::<Seq<char>>::empty());
    assert(hit_views(hits@) =~= Seq::<HitView>::empty());
    while i < items.len()
        invariant
            i <= items@.len(),
            all == text::views(items@),
            hit_views(hits@) == hits_in(all.take(i as int)),
        decreases items.len() - i,
    {
        assert(all.take(i + 1).drop_last() =~= all.take(i as int));
        assert(all.take(i + 1).last() == items@[i as int]@);
        if let Some(h) = hit_at(items[i].as_str()) {
            let ghost was = hit_views(hits@);
            hits.push(h);
            assert(hit_views(hits@) =~= was.push(h@));
        }
        i += 1;
    }
    assert(all.take(i as int) =~= all);
    Ok(hits)
}

// ------------------------------------------------------------------ fetching

/// Everything the converters need about one component.
pub struct Component {
    pub lcsc: String,
    pub title: String,
    pub manufacturer: String,
    pub datasheet: String,
    pub prefix: String,
    /// Schematic origin, in EasyEDA units, as the JSON values that give it.
    pub symbol_origin: (String, String),
    pub symbol_shapes: Vec<String>,
    pub package_name: String,
    /// Footprint origin, in EasyEDA units, as the JSON values that give it.
    pub package_origin: (String, String),
    pub package_shapes: Vec<String>,
}

#[verifier::ext_equal]
pub struct ComponentView {
    pub lcsc: Seq<char>,
    pub title: Seq<char>,
    pub manufacturer: Seq<char>,
    pub datasheet: Seq<char>,
    pub prefix: Seq<char>,
    pub symbol_origin: (Seq<char>, Seq<char>),
    pub symbol_shapes: Seq<Seq<char>>,
    pub package_name: Seq<char>,
    pub package_origin: (Seq<char>, Seq<char>),
    pub package_shapes: Seq<Seq<char>>,
}

impl View for Component {
    type V = ComponentView;

    open spec fn view(&self) -> ComponentView {
        ComponentView {
            lcsc: self.lcsc@,
            title: self.title@,
            manufacturer: self.manufacturer@,
            datasheet: self.datasheet@,
            prefix: self.prefix@,
            symbol_origin: (self.symbol_origin.0@, self.symbol_origin.1@),
            symbol_shapes: text::views(self.symbol_shapes@),
            package_name: self.package_name@,
            package_origin: (self.package_origin.0@, self.package_origin.1@),
            package_shapes: text::views(self.package_shapes@),
        }
    }
}

/// The part number as the catalogue writes it.
pub open spec fn part_number(lcsc: Seq<char>) -> Seq<char> {
    text::upper(text::trim(lcsc))
}

/// The address a component is fetched from.
pub open spec fn component_address(lcsc: Seq<char>) -> Result<Seq<char>, Seq<char>> {
    let n = part_number(lcsc);
    if n.len() == 0 {
        Err("no LCSC part number given"@)
    } else {
        Ok(COMPONENT_URL@ + "/"@ + n + "/components?version="@ + COMPONENT_VERSION@)
    }
}

/// The address a component is fetched from.
pub fn component_url(lcsc: &str) -> (r: Result<String, String>)
    ensures
        http::string_result(r) == component_address(lcsc@),
{
    let short = trimmed(lcsc);
    let n = to_uppercase(short.as_str());
    if n.as_str().is_empty() {
        return Err("no LCSC part number given".to_string());
    }
    let mut url = COMPONENT_URL.to_string();
    url.append("/");
    url.append(n.as_str());
    url.append("/components?version=");
    url.append(COMPONENT_VERSION);
    Ok(url)
}

/// The first of three names that says something.
pub open spec fn title_of(
    title: Option<Seq<char>>,
    name: Option<Seq<char>>,
    lcsc: Seq<char>,
) -> Seq<char> {
    match title {
        Some(t) => if t.len() > 0 {
            t
        } else {
            json::or_text(name, lcsc)
        },
        None => json::or_text(name, lcsc),
    }
}

/// The first of three names that says something.
pub fn pick_title(title: Option<String>, name: Option<String>, lcsc: &str) -> (r: String)
    ensures
        r@ == title_of(text::opt_view(title), text::opt_view(name), lcsc@),
{
    if let Some(t) = title {
        if !t.as_str().is_empty() {
            return t;
        }
    }
    json::or_else(name, lcsc)
}

pub open spec fn package_title(title: Option<Seq<char>>, package: Option<Seq<char>>) -> Seq<char> {
    match title {
        Some(t) => t,
        None => json::or_text(package, ""@),
    }
}

/// The component that the value under `result` describes.
pub open spec fn component_in(lcsc: Seq<char>, result: Seq<char>) -> ComponentView {
    let data = json::at(result, "dataStr"@);
    let head = json::at(data, "head"@);
    let para = json::at(head, "c_para"@);
    let detail = json::at(result, "packageDetail"@);
    let package = json::at(detail, "dataStr"@);
    let package_head = json::at(package, "head"@);
    ComponentView {
        lcsc,
        title: title_of(
            json::text_at(result, "title"@),
            json::text_at(para, "name"@),
            lcsc,
        ),
        manufacturer: json::or_text(json::text_at(para, "Manufacturer"@), ""@),
        datasheet: json::or_text(json::text_at(json::at(result, "lcsc"@), "url"@), ""@),
        prefix: json::or_text(json::text_at(para, "pre"@), "U?"@),
        symbol_origin: (json::at(head, "x"@), json::at(head, "y"@)),
        symbol_shapes: json::texts_of(json::at(data, "shape"@)),
        package_name: package_title(
            json::text_at(detail, "title"@),
            json::text_at(para, "package"@),
        ),
        package_origin: (json::at(package_head, "x"@), json::at(package_head, "y"@)),
        package_shapes: json::texts_of(json::at(package, "shape"@)),
    }
}

/// What the answer about a component comes to.
pub open spec fn component_of(lcsc: Seq<char>, body: Seq<char>) -> Result<
    ComponentView,
    Seq<char>,
> {
    let n = part_number(lcsc);
    let result = json::at(body, "result"@);
    if n.len() == 0 {
        Err("no LCSC part number given"@)
    } else {
        match json::json_fault(body) {
            Some(e) => Err("component response was not JSON: "@ + e),
            None => if json::json_bool(json::at(body, "success"@)) == Some(false) {
                Err(
                    n + ": "@ + json::or_text(
                        json::text_at(body, "message"@),
                        "component not found"@,
                    ),
                )
            } else if json::is_null(result) {
                Err(n + ": no such component on LCSC"@)
            } else {
                Ok(component_in(n, result))
            },
        }
    }
}

fn read_component(lcsc: String, result: &str) -> (r: Component)
    ensures
        r@ == component_in(lcsc@, result@),
{
    let data = json::get(result, "dataStr");
    let head = json::get(data.as_str(), "head");
    let para = json::get(head.as_str(), "c_para");
    let detail = json::get(result, "packageDetail");
    let package = json::get(detail.as_str(), "dataStr");
    let package_head = json::get(package.as_str(), "head");
    let sheet = json::get(result, "lcsc");
    let shapes = json::get(data.as_str(), "shape");
    let package_shapes = json::get(package.as_str(), "shape");
    let title = pick_title(
        json::get_text(result, "title"),
        json::get_text(para.as_str(), "name"),
        lcsc.as_str(),
    );
    let package_name = match json::get_text(detail.as_str(), "title") {
        Some(t) => t,
        None => json::or_else(json::get_text(para.as_str(), "package"), ""),
    };
    Component {
        title,
        manufacturer: json::or_else(json::get_text(para.as_str(), "Manufacturer"), ""),
        datasheet: json::or_else(json::get_text(sheet.as_str(), "url"), ""),
        prefix: json::or_else(json::get_text(para.as_str(), "pre"), "U?"),
        symbol_origin: (json::get(head.as_str(), "x"), json::get(head.as_str(), "y")),
        symbol_shapes: json::strings(shapes.as_str()),
        package_name,
        package_origin: (
            json::get(package_head.as_str(), "x"),
            json::get(package_head.as_str(), "y"),
        ),
        package_shapes: json::strings(package_shapes.as_str()),
        lcsc,
    }
}

/// What the answer about a component comes to.
pub fn component(lcsc: &str, body: &str) -> (r: Result<Component, String>)
    ensures
        match r {
            Ok(c) => Ok(c@),
            Err(e) => Err(e@),
        } == component_of(lcsc@, body@),
{
    let short = trimmed(lcsc);
    let n = to_uppercase(short.as_str());
    if n.as_str().is_empty() {
        return Err("no LCSC part number given".to_string());
    }
    if let Some(e) = json::fault(body) {
        let mut out = "component response was not JSON: ".to_string();
        out.append(e.as_str());
        return Err(out);
    }
    let success = json::get(body, "success");
    if let Some(ok) = json::as_bool(success.as_str()) {
        if !ok {
            let message = json::or_else(json::get_text(body, "message"), "component not found");
            let mut out = n.clone();
            out.append(": ");
            out.append(message.as_str());
            return Err(out);
        }
    }
    let result = json::get(body, "result");
    if json::null(result.as_str()) {
        let mut out = n.clone();
        out.append(": no such component on LCSC");
        return Err(out);
    }
    Ok(read_component(n, result.as_str()))
}

/// The address a STEP model is fetched from.
pub open spec fn step_address(uuid: Seq<char>) -> Seq<char> {
    STEP_URL@ + "/"@ + uuid
}

/// Where the STEP model a footprint points at is published.
pub fn step_url(uuid: &str) -> (r: String)
    ensures
        r@ == step_address(uuid@),
{
    let mut url = STEP_URL.to_string();
    url.append("/");
    url.append(uuid);
    url
}

/// The bytes start with the ASCII text.
pub open spec fn begins_with(bytes: Seq<u8>, start: Seq<char>) -> bool {
    let lead = vstd::utf8::encode_utf8(start);
    lead.len() <= bytes.len() && bytes.take(lead.len() as int) == lead
}

fn begins(bytes: &Vec<u8>, start: &str) -> (r: bool)
    ensures
        r == begins_with(bytes@, start@),
{
    let lead = to_bytes(start);
    if lead.len() > bytes.len() {
        return false;
    }
    let mut i: usize = 0;
    while i < lead.len()
        invariant
            i <= lead@.len() <= bytes@.len(),
            lead@ == vstd::utf8::encode_utf8(start@),
            forall|j: int| 0 <= j < i ==> lead@[j] == bytes@[j],
        decreases lead.len() - i,
    {
        if lead[i] != bytes[i] {
            assert(bytes@.take(lead@.len() as int)[i as int] != lead@[i as int]);
            return false;
        }
        i += 1;
    }
    assert(bytes@.take(lead@.len() as int) =~= lead@);
    true
}

/// The STEP model in the answer for `uuid`. The CDN answers a missing key with
/// an XML error document and HTTP 200.
pub open spec fn model_of(uuid: Seq<char>, body: Seq<u8>) -> Result<Seq<u8>, Seq<char>> {
    if begins_with(body, "<?xml"@) || !begins_with(body, "ISO-10303-21"@) {
        Err("no STEP model published for "@ + uuid)
    } else {
        Ok(body)
    }
}

/// The STEP model in the answer for `uuid`.
pub fn step_model(uuid: &str, body: Vec<u8>) -> (r: Result<Vec<u8>, String>)
    ensures
        http::bytes_result(r) == model_of(uuid@, body@),
{
    if begins(&body, "<?xml") || !begins(&body, "ISO-10303-21") {
        let mut out = "no STEP model published for ".to_string();
        out.append(uuid);
        return Err(out);
    }
    Ok(body)
}

} // verus!
