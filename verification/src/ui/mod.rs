//! What the screens show: their lines, titles and key bars, from the state of
//! the application and the room there is.
//!
//! A line is a row of texts, each with a [`Look`]. Nothing here draws: where the
//! lines go on the terminal is decided outside.

pub mod home;
pub mod pages;
pub mod prompts;
pub mod sights;

use vstd::prelude::*;
use vstd::string::*;

use crate::text;
use crate::text::{number, slice, to_chars};

verus! {

// ------------------------------------------------------------ outside calls

/// How many columns of a terminal `ratatui` gives a text.
pub uninterp spec fn columns(s: Seq<char>) -> nat;

/// `ratatui::text::Span::raw` and `Span::width`: how many columns the text takes.
/// The text alone decides it.
#[verifier::external_body]
fn width_of(text: &str) -> (r: usize)
    ensures
        r as nat == columns(text@),
{
    ratatui::text::Span::raw(text).width()
}

// -------------------------------------------------------------------- lines

#[derive(Clone, Copy, PartialEq, Eq, Debug, Structural)]
pub enum Color {
    Plain,
    Accent,
    Muted,
    Yellow,
    Green,
    Red,
    White,
}

/// How a text looks.
#[derive(Clone, Copy, PartialEq, Eq, Debug, Structural)]
pub struct Look {
    pub color: Color,
    pub bold: bool,
    /// On a bar of the accent color, in black.
    pub bar: bool,
}

pub struct Span {
    pub text: String,
    pub look: Look,
}

pub struct Line {
    pub spans: Vec<Span>,
}

pub struct Lines {
    pub list: Vec<Line>,
}

#[verifier::ext_equal]
pub struct SpanView {
    pub text: Seq<char>,
    pub look: Look,
}

impl View for Span {
    type V = SpanView;

    open spec fn view(&self) -> SpanView {
        SpanView { text: self.text@, look: self.look }
    }
}

impl View for Line {
    type V = Seq<SpanView>;

    open spec fn view(&self) -> Seq<SpanView> {
        self.spans@.map_values(|s: Span| s@)
    }
}

impl View for Lines {
    type V = Seq<Seq<SpanView>>;

    open spec fn view(&self) -> Seq<Seq<SpanView>> {
        self.list@.map_values(|l: Line| l@)
    }
}

pub open spec fn plain() -> Look {
    Look { color: Color::Plain, bold: false, bar: false }
}

pub open spec fn tinted(color: Color) -> Look {
    Look { color, bold: false, bar: false }
}

pub open spec fn strong(color: Color) -> Look {
    Look { color, bold: true, bar: false }
}

/// The highlighted row.
pub open spec fn barred() -> Look {
    Look { color: Color::Plain, bold: true, bar: true }
}

/// A line of one text.
pub open spec fn said(text: Seq<char>, look: Look) -> Seq<SpanView> {
    seq![SpanView { text, look }]
}

/// A line without text.
pub open spec fn gap() -> Seq<SpanView> {
    Seq::empty()
}

impl Look {
    pub fn plain() -> (r: Look)
        ensures
            r == plain(),
    {
        Look { color: Color::Plain, bold: false, bar: false }
    }

    pub fn tint(color: Color) -> (r: Look)
        ensures
            r == tinted(color),
    {
        Look { color, bold: false, bar: false }
    }

    pub fn strong(color: Color) -> (r: Look)
        ensures
            r == strong(color),
    {
        Look { color, bold: true, bar: false }
    }

    pub fn bar() -> (r: Look)
        ensures
            r == barred(),
    {
        Look { color: Color::Plain, bold: true, bar: true }
    }
}

impl Line {
    pub fn empty() -> (r: Line)
        ensures
            r@ == gap(),
    {
        let line = Line { spans: Vec::new() };
        assert(line@ =~= gap());
        line
    }

    pub fn of(text: String, look: Look) -> (r: Line)
        ensures
            r@ == said(text@, look),
    {
        let mut line = Line::empty();
        line.put(text, look);
        assert(line@ =~= said(text@, look));
        line
    }

    pub fn put(&mut self, text: String, look: Look)
        ensures
            final(self)@ == old(self)@.push(SpanView { text: text@, look }),
    {
        let ghost was = self@;
        self.spans.push(Span { text, look });
        assert(self@ =~= was.push(SpanView { text: text@, look }));
    }
}

impl Lines {
    pub fn new() -> (r: Lines)
        ensures
            r@ == Seq::<Seq<SpanView>>::empty(),
    {
        let lines = Lines { list: Vec::new() };
        assert(lines@ =~= Seq::<Seq<SpanView>>::empty());
        lines
    }

    pub fn put(&mut self, line: Line)
        ensures
            final(self)@ == old(self)@.push(line@),
    {
        let ghost was = self@;
        self.list.push(line);
        assert(self@ =~= was.push(line@));
    }

    pub fn say(&mut self, text: &str, look: Look)
        ensures
            final(self)@ == old(self)@.push(said(text@, look)),
    {
        self.put(Line::of(text.to_string(), look));
    }

    pub fn skip(&mut self)
        ensures
            final(self)@ == old(self)@.push(gap()),
    {
        self.put(Line::empty());
    }
}

/// A box with a title.
pub struct Panel {
    pub title: String,
    pub lines: Lines,
}

#[verifier::ext_equal]
pub struct PanelView {
    pub title: Seq<char>,
    pub lines: Seq<Seq<SpanView>>,
}

impl View for Panel {
    type V = PanelView;

    open spec fn view(&self) -> PanelView {
        PanelView { title: self.title@, lines: self.lines@ }
    }
}

/// A screen that is one box above a key bar.
pub struct Page {
    pub panel: Panel,
    pub keys: Line,
}

#[verifier::ext_equal]
pub struct PageView {
    pub panel: PanelView,
    pub keys: Seq<SpanView>,
}

impl View for Page {
    type V = PageView;

    open spec fn view(&self) -> PageView {
        PageView { panel: self.panel@, keys: self.keys@ }
    }
}

// ------------------------------------------------------------------ fitting

/// `n` less `m`, but not below nothing.
pub open spec fn less(n: int, m: int) -> int {
    if n > m {
        n - m
    } else {
        0
    }
}

pub(crate) fn minus(n: usize, m: usize) -> (r: usize)
    ensures
        r as int == less(n as int, m as int),
{
    if n > m {
        n - m
    } else {
        0
    }
}

/// How much of the end a fitted text keeps. It holds the directory names that
/// disambiguate paths.
pub open spec fn tail_room(max: int) -> int {
    (max - 3) * 2 / 3
}

/// `s` in at most `max` characters, with the middle left out. Where there is no
/// room for three dots between two ends, only the end stays.
pub open spec fn fitted(s: Seq<char>, max: int) -> Seq<char> {
    if s.len() <= max {
        s
    } else if max < 6 {
        s.skip(s.len() - max)
    } else {
        s.take(max - 3 - tail_room(max)) + "..."@ + s.skip(s.len() - tail_room(max))
    }
}

/// Middle-ellipsises `text` to at most `max` columns, keeping the tail.
pub fn fit(text: &str, max: usize) -> (r: String)
    ensures
        r@ == fitted(text@, max as int),
{
    let chars = to_chars(text);
    let n: usize = chars.len();
    if n <= max {
        return text.to_string();
    }
    if max < 6 {
        let end = slice(&chars, n - max, n);
        assert(end@ =~= text@.skip(n - max));
        return end;
    }
    let wide: u128 = (max - 3) as u128 * 2 / 3;
    let tail: usize = wide as usize;
    let head: usize = max - 3 - tail;
    let mut out = slice(&chars, 0, head);
    assert(out@ =~= text@.take(head as int));
    let end = slice(&chars, n - tail, n);
    assert(end@ =~= text@.skip(n - tail));
    out.append("...");
    out.append(end.as_str());
    out
}

/// A fitted text is never longer than the room for it, and one that fits is
/// left as it is. One that does not fit takes all the room there is.
pub proof fn lemma_fitted(s: Seq<char>, max: nat)
    ensures
        fitted(s, max as int).len() <= max,
        s.len() <= max ==> fitted(s, max as int) == s,
        s.len() > max ==> fitted(s, max as int).len() == max,
{
    reveal_strlit("...");
}

/// `s` in at most `max` characters, with the end left out.
pub open spec fn cut(s: Seq<char>, max: int) -> Seq<char> {
    if s.len() <= max {
        s
    } else {
        s.take(less(max, 1)) + "…"@
    }
}

pub fn truncate(text: &str, max: usize) -> (r: String)
    ensures
        r@ == cut(text@, max as int),
{
    let chars = to_chars(text);
    if chars.len() <= max {
        return text.to_string();
    }
    let keep: usize = minus(max, 1);
    let mut out = slice(&chars, 0, keep);
    assert(out@ =~= text@.take(keep as int));
    out.append("…");
    out
}

/// `s` with blanks behind it, up to a length of `width`.
pub open spec fn padded(s: Seq<char>, width: int) -> Seq<char> {
    s + Seq::new(less(width, s.len() as int) as nat, |i: int| ' ')
}

pub(crate) fn pad(text: &str, width: usize) -> (r: String)
    ensures
        r@ == padded(text@, width as int),
{
    let n: usize = to_chars(text).len();
    let mut out = text.to_string();
    let mut i: usize = n;
    assert(out@ =~= text@ + Seq::new(0, |i: int| ' '));
    while i < width
        invariant
            n == text@.len(),
            n <= i,
            i <= width || i == n,
            out@ == text@ + Seq::new((i - n) as nat, |i: int| ' '),
        decreases width - i,
    {
        out.push(' ');
        i += 1;
        assert(out@ =~= text@ + Seq::new((i - n) as nat, |i: int| ' '));
    }
    out
}

// ------------------------------------------------------------------ heights

/// How many columns a line takes.
pub open spec fn line_width(line: Seq<SpanView>) -> int
    decreases line.len(),
{
    if line.len() == 0 {
        0
    } else {
        line_width(line.drop_last()) + columns(line.last().text)
    }
}

/// How many rows a line takes when it is wrapped at `width`.
pub open spec fn rows_of(line: Seq<SpanView>, width: int) -> int {
    let wide = if line_width(line) < 1 {
        1
    } else {
        line_width(line)
    };
    (wide + width - 1) / width
}

/// How many rows lines take when they are wrapped at `width`.
pub open spec fn height_of(lines: Seq<Seq<SpanView>>, width: int) -> int
    decreases lines.len(),
{
    if lines.len() == 0 {
        0
    } else {
        height_of(lines.drop_last(), width) + rows_of(lines.last(), width)
    }
}

/// A count of rows, as far as it can be told.
pub open spec fn capped(n: int, most: int) -> int {
    if n < most {
        n
    } else {
        most
    }
}

fn measure_line(line: &Line, most: u128) -> (r: u128)
    requires
        most <= 0xffff_ffff_ffff_ffff,
    ensures
        r as int == capped(line_width(line@), most as int),
{
    let ghost all = line@;
    let mut total: u128 = 0;
    let mut i: usize = 0;
    assert(all.take(0) =~= Seq::<SpanView>::empty());
    while i < line.spans.len()
        invariant
            i <= line.spans@.len(),
            all == line@,
            most <= 0xffff_ffff_ffff_ffff,
            total as int == capped(line_width(all.take(i as int)), most as int),
        decreases line.spans.len() - i,
    {
        assert(all.take(i + 1).drop_last() =~= all.take(i as int));
        assert(all.take(i + 1).last() == line.spans@[i as int]@);
        let here = width_of(line.spans[i].text.as_str());
        let sum: u128 = total + here as u128;
        total = if sum < most {
            sum
        } else {
            most
        };
        i += 1;
    }
    assert(all.take(i as int) =~= all);
    total
}

proof fn lemma_rows_capped(wide: int, width: int, most: int)
    requires
        width >= 1,
        most >= 1,
        wide >= 1,
    ensures
        capped((wide + width - 1) / width, most) == capped(
            (capped(wide, most * width) + width - 1) / width,
            most,
        ),
{
    if wide >= most * width {
        assert((wide + width - 1) / width >= most) by (nonlinear_arith)
            requires
                wide >= most * width,
                width >= 1,
        ;
        assert((most * width + width - 1) / width >= most) by (nonlinear_arith)
            requires
                width >= 1,
        ;
    }
}

proof fn lemma_width_bound(line: Seq<SpanView>)
    ensures
        line_width(line) >= 0,
    decreases line.len(),
{
    if line.len() > 0 {
        lemma_width_bound(line.drop_last());
    }
}

proof fn lemma_rows_bound(line: Seq<SpanView>, width: int)
    requires
        width >= 1,
    ensures
        rows_of(line, width) >= 1,
{
    lemma_width_bound(line);
    let wide = if line_width(line) < 1 {
        1
    } else {
        line_width(line)
    };
    assert((wide + width - 1) / width >= 1) by (nonlinear_arith)
        requires
            wide >= 1,
            width >= 1,
    ;
}

proof fn lemma_height_bound(lines: Seq<Seq<SpanView>>, width: int)
    requires
        width >= 1,
    ensures
        height_of(lines, width) >= 0,
    decreases lines.len(),
{
    if lines.len() > 0 {
        lemma_height_bound(lines.drop_last(), width);
        lemma_rows_bound(lines.last(), width);
    }
}

fn measure_rows(line: &Line, width: u16, most: u16) -> (r: u128)
    requires
        width >= 1,
        most >= 1,
    ensures
        r as int == capped(rows_of(line@, width as int), most as int),
        1 <= r <= most,
{
    assert(width * most <= 0xffff * 0xffff) by (nonlinear_arith)
        requires
            width <= 0xffff,
            most <= 0xffff,
    ;
    let room: u128 = width as u128 * most as u128;
    assert(1 <= room <= 0xffff_ffff_ffff_ffff) by (nonlinear_arith)
        requires
            1 <= width <= 0xffff,
            1 <= most <= 0xffff,
            room == width * most,
    ;
    let measured = measure_line(line, room);
    let wide: u128 = if measured < 1 {
        1
    } else {
        measured
    };
    let ghost full = if line_width(line@) < 1 {
        1
    } else {
        line_width(line@)
    };
    proof {
        lemma_width_bound(line@);
        lemma_rows_bound(line@, width as int);
        assert(wide == capped(full, room as int));
        assert(most as int * width as int == room as int) by (nonlinear_arith)
            requires
                room == width * most,
        ;
        lemma_rows_capped(full, width as int, most as int);
    }
    let rows: u128 = (wide + width as u128 - 1) / width as u128;
    if rows < most as u128 {
        rows
    } else {
        most as u128
    }
}

/// How many rows the lines take when they are wrapped at `width`, or `most` when
/// it is at least that many.
pub fn height(lines: &Lines, width: u16, most: u16) -> (r: u16)
    requires
        width >= 1,
    ensures
        r as int == capped(height_of(lines@, width as int), most as int),
{
    let ghost all = lines@;
    proof {
        lemma_height_bound(all, width as int);
    }
    if most == 0 {
        return 0;
    }
    let mut total: u128 = 0;
    let mut i: usize = 0;
    assert(all.take(0) =~= Seq::<Seq<SpanView>>::empty());
    while i < lines.list.len()
        invariant
            i <= lines.list@.len(),
            all == lines@,
            width >= 1,
            most >= 1,
            total as int == capped(height_of(all.take(i as int), width as int), most as int),
        decreases lines.list.len() - i,
    {
        assert(all.take(i + 1).drop_last() =~= all.take(i as int));
        assert(all.take(i + 1).last() == lines.list@[i as int]@);
        proof {
            lemma_height_bound(all.take(i as int), width as int);
            lemma_rows_bound(lines.list@[i as int]@, width as int);
        }
        let here = measure_rows(&lines.list[i], width, most);
        let sum: u128 = total + here;
        total = if sum < most as u128 {
            sum
        } else {
            most as u128
        };
        i += 1;
    }
    assert(all.take(i as int) =~= all);
    total as u16
}

// ------------------------------------------------------------------ key bar

/// The columns between two hints.
pub const HINT_GAP: usize = 2;

/// How many columns a hint takes, as `[key] action`.
pub open spec fn hint_cost(item: (Seq<char>, Seq<char>)) -> int {
    (item.0.len() + item.1.len() + 3) as int
}

/// How many columns hints take, with gaps between them.
pub open spec fn bar_width(items: Seq<(Seq<char>, Seq<char>)>) -> int
    decreases items.len(),
{
    if items.len() == 0 {
        0
    } else if items.len() == 1 {
        hint_cost(items[0])
    } else {
        bar_width(items.drop_last()) + HINT_GAP + hint_cost(items.last())
    }
}

/// The first `n` hints and the last one.
pub open spec fn trimmed_bar(items: Seq<(Seq<char>, Seq<char>)>, n: int) -> Seq<
    (Seq<char>, Seq<char>),
> {
    items.take(n).push(items.last())
}

/// How many of the hints before the last are kept: as many of the first `n` as
/// fit beside it.
pub open spec fn kept(items: Seq<(Seq<char>, Seq<char>)>, width: int, n: int) -> int
    decreases n,
{
    if n <= 0 {
        0
    } else if bar_width(trimmed_bar(items, n)) <= width {
        n
    } else {
        kept(items, width, n - 1)
    }
}

/// The hints that are shown.
pub open spec fn shown_hints(items: Seq<(Seq<char>, Seq<char>)>, width: int) -> Seq<
    (Seq<char>, Seq<char>),
> {
    if items.len() == 0 {
        items
    } else {
        trimmed_bar(items, kept(items, width, items.len() - 1))
    }
}

/// Hints as a line.
pub open spec fn bar_line(items: Seq<(Seq<char>, Seq<char>)>) -> Seq<SpanView>
    decreases items.len(),
{
    if items.len() == 0 {
        gap()
    } else {
        let before = bar_line(items.drop_last());
        let led = if items.len() == 1 {
            before
        } else {
            before.push(SpanView { text: "  "@, look: plain() })
        };
        led.push(
            SpanView { text: "["@ + items.last().0 + "]"@, look: strong(Color::Accent) },
        ).push(SpanView { text: " "@ + items.last().1, look: plain() })
    }
}

pub open spec fn hint_views(items: Seq<(&'static str, &'static str)>) -> Seq<(Seq<char>, Seq<char>)> {
    items.map_values(|h: (&'static str, &'static str)| (h.0@, h.1@))
}

fn cost(item: (&'static str, &'static str)) -> (r: u128)
    ensures
        r as int == hint_cost((item.0@, item.1@)),
        r <= 0x2_0000_0000_0000_0003,
{
    let key: usize = to_chars(item.0).len();
    let action: usize = to_chars(item.1).len();
    key as u128 + action as u128 + 3
}

proof fn lemma_bar_drop(items: Seq<(Seq<char>, Seq<char>)>, n: int)
    requires
        0 < n < items.len(),
    ensures
        bar_width(trimmed_bar(items, n)) == bar_width(trimmed_bar(items, n - 1)) + HINT_GAP
            + hint_cost(items[n - 1]),
{
    let a = trimmed_bar(items, n);
    let b = trimmed_bar(items, n - 1);
    assert(a.drop_last() =~= items.take(n));
    assert(b.drop_last() =~= items.take(n - 1));
    assert(items.take(n).drop_last() =~= items.take(n - 1));
    assert(items.take(n).last() == items[n - 1]);
    assert(a.last() == items.last() && b.last() == items.last());
    if n == 1 {
        assert(bar_width(items.take(1)) == hint_cost(items[0]));
        assert(bar_width(b) == hint_cost(items.last()));
    } else {
        assert(bar_width(items.take(n)) == bar_width(items.take(n - 1)) + HINT_GAP + hint_cost(
            items[n - 1],
        ));
        assert(bar_width(b) == bar_width(items.take(n - 1)) + HINT_GAP + hint_cost(items.last()));
    }
}

/// More hints take more room.
proof fn lemma_bar_grows(items: Seq<(Seq<char>, Seq<char>)>, n: int, m: int)
    requires
        0 <= n <= m < items.len(),
    ensures
        bar_width(trimmed_bar(items, n)) <= bar_width(trimmed_bar(items, m)),
    decreases m - n,
{
    if n < m {
        lemma_bar_grows(items, n, m - 1);
        lemma_bar_drop(items, m);
    }
}

/// The first number of hints that is too many decides how many are kept.
proof fn lemma_kept_at(items: Seq<(Seq<char>, Seq<char>)>, width: int, n: int, m: int)
    requires
        0 <= n <= m < items.len(),
        n == 0 || bar_width(trimmed_bar(items, n)) <= width,
        n < m ==> bar_width(trimmed_bar(items, n + 1)) > width,
    ensures
        kept(items, width, m) == n,
    decreases m - n,
{
    if n < m {
        lemma_bar_grows(items, n + 1, m);
        lemma_kept_at(items, width, n, m - 1);
    }
}

/// The key bar, trimmed to fit.
///
/// When the bar is wider than the terminal, hints are dropped from the end
/// inwards but the last one is always kept — it is `[Q] Quit` or `[Esc] Back`,
/// the one a stuck user needs most.
pub fn hints(items: &Vec<(&'static str, &'static str)>, width: u16) -> (r: Line)
    ensures
        r@ == bar_line(shown_hints(hint_views(items@), width as int)),
{
    let ghost all = hint_views(items@);
    assert(all.len() == items@.len());
    if items.len() == 0 {
        return Line::empty();
    }
    let last: usize = items.len() - 1;
    assert(all[last as int] == (items@[last as int].0@, items@[last as int].1@));
    let mut total: u128 = cost(items[last]);
    let mut n: usize = 0;
    assert(trimmed_bar(all, 0) =~= seq![all.last()]);
    assert(bar_width(trimmed_bar(all, 0)) == total);
    while n < last && total + cost(items[n]) + HINT_GAP as u128 <= width as u128
        invariant
            n <= last,
            last + 1 == items@.len(),
            all == hint_views(items@),
            total as int == bar_width(trimmed_bar(all, n as int)),
            total <= 0x2_0000_0000_0000_0003 || total <= width,
            n == 0 || total <= width,
        decreases last - n,
    {
        proof {
            lemma_bar_drop(all, n + 1);
        }
        assert(all[n as int] == (items@[n as int].0@, items@[n as int].1@));
        total = total + cost(items[n]) + HINT_GAP as u128;
        n += 1;
    }
    proof {
        if n < last {
            lemma_bar_drop(all, n + 1);
            assert(all[n as int] == (items@[n as int].0@, items@[n as int].1@));
        }
        lemma_kept_at(all, width as int, n as int, last as int);
    }
    let ghost shown = trimmed_bar(all, n as int);
    let mut line = Line::empty();
    let mut j: usize = 0;
    assert(shown.take(0) =~= Seq::<(Seq<char>, Seq<char>)>::empty());
    while j <= n
        invariant
            j <= n + 1,
            n <= last,
            last < usize::MAX,
            last + 1 == items@.len(),
            all == hint_views(items@),
            shown == trimmed_bar(all, n as int),
            line@ == bar_line(shown.take(j as int)),
        decreases n + 1 - j,
    {
        assert(shown.take(j + 1).drop_last() =~= shown.take(j as int));
        let at: usize = if j < n {
            j
        } else {
            last
        };
        assert(shown.take(j + 1).last() == (items@[at as int].0@, items@[at as int].1@));
        if j > 0 {
            line.put("  ".to_string(), Look::plain());
        }
        let mut key = "[".to_string();
        key.append(items[at].0);
        key.append("]");
        line.put(key, Look::strong(Color::Accent));
        let mut action = " ".to_string();
        action.append(items[at].1);
        line.put(action, Look::plain());
        j += 1;
    }
    assert(shown.take(j as int) =~= shown);
    line
}

proof fn lemma_kept(items: Seq<(Seq<char>, Seq<char>)>, width: int, n: int)
    requires
        0 <= n < items.len(),
    ensures
        0 <= kept(items, width, n) <= n,
        kept(items, width, n) > 0 ==> bar_width(trimmed_bar(items, kept(items, width, n)))
            <= width,
    decreases n,
{
    if n > 0 && bar_width(trimmed_bar(items, n)) > width {
        lemma_kept(items, width, n - 1);
    }
}

/// The key bar always ends with its last hint, shows the others from the first
/// on, and is never wider than the terminal unless that last hint alone is.
pub proof fn lemma_hints(items: Seq<(Seq<char>, Seq<char>)>, width: int)
    requires
        items.len() > 0,
    ensures
        shown_hints(items, width).last() == items.last(),
        exists|n: int|
            0 <= n < items.len() && shown_hints(items, width) == #[trigger] trimmed_bar(items, n),
        bar_width(shown_hints(items, width)) <= width || shown_hints(items, width) == seq![
            items.last(),
        ],
        bar_width(items) <= width ==> shown_hints(items, width) == items,
{
    let n = kept(items, width, items.len() - 1);
    lemma_kept(items, width, items.len() - 1);
    assert(shown_hints(items, width) == trimmed_bar(items, n));
    if n == 0 {
        assert(trimmed_bar(items, 0) =~= seq![items.last()]);
    }
    assert(trimmed_bar(items, items.len() - 1) =~= items);
}

// -------------------------------------------------------------------- sizes

/// The unit in which a number has at most 53 binary digits, doubling `unit` at
/// most `left` times.
pub open spec fn precision(n: int, unit: int, left: nat) -> int
    decreases left,
{
    if left == 0 || n < 0x20_0000_0000_0000 * unit {
        unit
    } else {
        precision(n, 2 * unit, (left - 1) as nat)
    }
}

/// `n` divided by `unit` and rounded to the nearest whole number, of two as near
/// to the even one.
pub open spec fn nearest(n: int, unit: int) -> int {
    let q = n / unit;
    let rest = n % unit;
    if 2 * rest > unit || (2 * rest == unit && q % 2 == 1) {
        q + 1
    } else {
        q
    }
}

/// A number of bytes to the precision it is divided with: 53 binary digits.
pub open spec fn rounded(bytes: int) -> int {
    let unit = precision(bytes, 1, 11);
    nearest(bytes, unit) * unit
}

/// `tenths` tenths, with one digit behind the point.
pub open spec fn with_point(tenths: int) -> Seq<char> {
    text::decimal((tenths / 10) as nat) + "."@ + text::decimal((tenths % 10) as nat)
}

/// A number of bytes for people.
pub open spec fn sized(bytes: int) -> Seq<char> {
    let n = rounded(bytes);
    if n < 0x400 {
        text::decimal(bytes as nat) + " B"@
    } else if n < 0x10_0000 {
        with_point(nearest(n * 10, 0x400)) + " KB"@
    } else if n < 0x4000_0000 {
        with_point(nearest(n * 10, 0x10_0000)) + " MB"@
    } else {
        with_point(nearest(n * 10, 0x4000_0000)) + " GB"@
    }
}

fn divide(n: u128, unit: u128) -> (r: u128)
    requires
        1 <= unit <= 0x4000_0000,
        n <= 0xffff_ffff_ffff_ffff_ffff,
    ensures
        r as int == nearest(n as int, unit as int),
        r <= n + 1,
{
    let q: u128 = n / unit;
    let rest: u128 = n % unit;
    assert(q <= n) by (nonlinear_arith)
        requires
            q == n / unit,
            unit >= 1,
    ;
    if 2 * rest > unit || (2 * rest == unit && q % 2 == 1) {
        q + 1
    } else {
        q
    }
}

fn write_point(tenths: u128, name: &str) -> (r: String)
    ensures
        r@ == with_point(tenths as int) + name@,
{
    let mut out = number(tenths / 10);
    out.append(".");
    out.append(number(tenths % 10).as_str());
    out.append(name);
    out
}

fn round(bytes: u64) -> (r: u128)
    ensures
        r as int == rounded(bytes as int),
        r <= 0x1_0000_0000_0000_0800,
{
    let n: u128 = bytes as u128;
    let mut unit: u128 = 1;
    let mut left: usize = 11;
    while left > 0 && n >= 0x20_0000_0000_0000 * unit
        invariant
            left <= 11,
            n <= 0xffff_ffff_ffff_ffff,
            1 <= unit,
            left == 11 ==> unit == 1,
            left == 10 ==> unit == 2,
            left == 9 ==> unit == 4,
            left == 8 ==> unit == 8,
            left == 7 ==> unit == 16,
            left == 6 ==> unit == 32,
            left == 5 ==> unit == 64,
            left == 4 ==> unit == 128,
            left == 3 ==> unit == 256,
            left == 2 ==> unit == 512,
            left == 1 ==> unit == 1024,
            left == 0 ==> unit == 2048,
            precision(n as int, unit as int, left as nat) == precision(n as int, 1, 11),
        decreases left,
    {
        unit = 2 * unit;
        left -= 1;
    }
    let q = divide(n, unit);
    assert(n < 0x20_0000_0000_0000 * unit);
    assert(q <= 0x20_0000_0000_0000) by {
        assert(n / unit < 0x20_0000_0000_0000) by (nonlinear_arith)
            requires
                n < 0x20_0000_0000_0000 * unit,
                unit >= 1,
        ;
    }
    assert(q * unit <= 0x1_0000_0000_0000_0000) by (nonlinear_arith)
        requires
            q <= 0x20_0000_0000_0000,
            unit <= 2048,
    ;
    q * unit
}

/// A number of bytes for people.
pub fn human_size(bytes: u64) -> (r: String)
    ensures
        r@ == sized(bytes as int),
{
    let n = round(bytes);
    if n < 0x400 {
        let mut out = number(bytes as u128);
        out.append(" B");
        out
    } else if n < 0x10_0000 {
        write_point(divide(n * 10, 0x400), " KB")
    } else if n < 0x4000_0000 {
        write_point(divide(n * 10, 0x10_0000), " MB")
    } else {
        write_point(divide(n * 10, 0x4000_0000), " GB")
    }
}

} // verus!
