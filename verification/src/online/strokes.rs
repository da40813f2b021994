//! What is written as points and as a path is what is read from them.

use vstd::prelude::*;

use crate::online::easyeda;
use crate::online::svgpath;
use crate::online::svgpath::{StepView, TokenView};
use crate::text;

verus! {

// ------------------------------------------------------------------- points

/// A number that stands alone: no gap in it.
pub open spec fn is_word(n: Seq<char>) -> bool {
    easyeda::is_number(n) && !n.contains(' ') && !n.contains(',') && !n.contains('\n')
        && !n.contains('\t')
}

proof fn lemma_words(s: Seq<char>, n: int)
    requires
        0 <= n <= s.len(),
        !s.contains(','),
        !s.contains('\n'),
        !s.contains('\t'),
    ensures
        svgpath::words_upto(s, n) == text::split(s.take(n), ' '),
    decreases n,
{
    if n > 0 {
        lemma_words(s, n - 1);
        assert(s.take(n).drop_last() =~= s.take(n - 1));
        assert(s.take(n).last() == s[n - 1]);
        assert(s.contains(s[n - 1]));
    } else {
        assert(s.take(0) =~= Seq::<char>::empty());
    }
}

proof fn lemma_numbers(words: Seq<Seq<char>>)
    requires
        forall|i: int| 0 <= i < words.len() ==> easyeda::is_number(#[trigger] words[i]),
    ensures
        svgpath::numbers_in(words) == words,
    decreases words.len(),
{
    if words.len() > 0 {
        let init = words.drop_last();
        assert forall|i: int| 0 <= i < init.len() implies easyeda::is_number(
            #[trigger] init[i],
        ) by {
            assert(init[i] == words[i]);
        }
        lemma_numbers(init);
        assert(easyeda::is_number(words[words.len() - 1]));
        assert(init.push(words.last()) =~= words);
    }
}

proof fn lemma_joined_free(words: Seq<Seq<char>>, c: char)
    requires
        c != ' ',
        forall|i: int| 0 <= i < words.len() ==> !(#[trigger] words[i]).contains(c),
    ensures
        !text::join(words, seq![' ']).contains(c),
    decreases words.len(),
{
    let all = text::join(words, seq![' ']);
    if words.len() == 1 {
        assert(!words[0].contains(c));
    } else if words.len() > 1 {
        let init = words.drop_last();
        assert forall|i: int| 0 <= i < init.len() implies !(#[trigger] init[i]).contains(c) by {
            assert(init[i] == words[i]);
        }
        lemma_joined_free(init, c);
        let head = text::join(init, seq![' ']);
        let last = words[words.len() - 1];
        assert(!last.contains(c));
        assert forall|i: int| 0 <= i < all.len() implies all[i] != c by {
            if i < head.len() {
                assert(head.contains(head[i]));
            } else if i > head.len() {
                assert(last.contains(last[i - head.len() - 1]));
            }
        }
    }
}

/// Numbers with a blank between neighbours are points two by two: first across,
/// then up, and none is lost but one left over at the end.
pub proof fn lemma_points(words: Seq<Seq<char>>)
    requires
        words.len() > 0,
        forall|i: int| 0 <= i < words.len() ==> is_word(#[trigger] words[i]),
    ensures
        svgpath::points_of(text::join(words, seq![' '])).len() == words.len() / 2,
        forall|k: int|
            0 <= k < words.len() / 2 ==> (#[trigger] svgpath::points_of(
                text::join(words, seq![' ']),
            )[k]).0 == words[2 * k] && svgpath::points_of(text::join(words, seq![' ']))[k].1
                == words[2 * k + 1],
{
    let s = text::join(words, seq![' ']);
    lemma_joined_free(words, ',');
    lemma_joined_free(words, '\n');
    lemma_joined_free(words, '\t');
    lemma_words(s, s.len() as int);
    assert(s.take(s.len() as int) =~= s);
    text::lemma_split_join(words, ' ');
    lemma_numbers(words);
}

// -------------------------------------------------------------------- paths

/// A plain figure: it starts as a number does, and goes on with digits and
/// points.
pub open spec fn is_figure(n: Seq<char>) -> bool {
    &&& n.len() > 0
    &&& easyeda::is_number(n)
    &&& svgpath::starts_number(n[0])
    &&& forall|i: int| 1 <= i < n.len() ==> easyeda::is_digit(#[trigger] n[i]) || n[i] == '.'
}

pub open spec fn cased(upper: char, lower: char, relative: bool) -> char {
    if relative {
        lower
    } else {
        upper
    }
}

/// The letter of a step: a small one where it is relative.
pub open spec fn letter(step: StepView) -> char {
    match step {
        StepView::Move { x, y, relative } => cased('M', 'm', relative),
        StepView::Line { x, y, relative } => cased('L', 'l', relative),
        StepView::Horizontal { x, relative } => cased('H', 'h', relative),
        StepView::Vertical { y, relative } => cased('V', 'v', relative),
        StepView::Arc { rx, ry, rotation, large, sweep, x, y, relative } => cased(
            'A',
            'a',
            relative,
        ),
        StepView::Close => 'Z',
    }
}

/// The numbers of a step, in the order in which they are written.
pub open spec fn figures(step: StepView) -> Seq<Seq<char>> {
    match step {
        StepView::Move { x, y, relative } => seq![x, y],
        StepView::Line { x, y, relative } => seq![x, y],
        StepView::Horizontal { x, relative } => seq![x],
        StepView::Vertical { y, relative } => seq![y],
        StepView::Arc { rx, ry, rotation, large, sweep, x, y, relative } => seq![
            rx,
            ry,
            rotation,
            large,
            sweep,
            x,
            y,
        ],
        StepView::Close => Seq::empty(),
    }
}

pub open spec fn are_figures(list: Seq<Seq<char>>) -> bool {
    forall|i: int| 0 <= i < list.len() ==> is_figure(#[trigger] list[i])
}

/// Each number with a blank before it.
pub open spec fn spelled(list: Seq<Seq<char>>) -> Seq<char>
    decreases list.len(),
{
    if list.len() == 0 {
        Seq::empty()
    } else {
        seq![' '] + list[0] + spelled(list.drop_first())
    }
}

/// The path with these steps: each its letter and its numbers.
pub open spec fn path(steps: Seq<StepView>) -> Seq<char>
    decreases steps.len(),
{
    if steps.len() == 0 {
        Seq::empty()
    } else {
        seq![letter(steps[0])] + spelled(figures(steps[0])) + path(steps.drop_first())
    }
}

spec fn nums(list: Seq<Seq<char>>) -> Seq<TokenView> {
    list.map_values(|n: Seq<char>| TokenView::Num(n))
}

spec fn tokens(steps: Seq<StepView>) -> Seq<TokenView>
    decreases steps.len(),
{
    if steps.len() == 0 {
        Seq::empty()
    } else {
        seq![TokenView::Cmd(letter(steps[0]))] + nums(figures(steps[0])) + tokens(
            steps.drop_first(),
        )
    }
}

proof fn lemma_end_shift(s: Seq<char>, k: int, i: int)
    requires
        0 <= k <= s.len(),
        0 <= i,
    ensures
        svgpath::number_end(s, k + i) == k + svgpath::number_end(s.skip(k), i),
    decreases s.len() - k - i,
{
    if k + i < s.len() {
        assert(s.skip(k)[i] == s[k + i]);
        if k + i + 1 < s.len() {
            assert(s.skip(k)[i + 1] == s[k + i + 1]);
            lemma_end_shift(s, k, i + 2);
        }
        lemma_end_shift(s, k, i + 1);
    }
}

proof fn lemma_end_after(s: Seq<char>, i: int)
    ensures
        svgpath::number_end(s, i) >= i,
    decreases s.len() - i,
{
    if 0 <= i < s.len() {
        lemma_end_after(s, i + 1);
        if i + 1 < s.len() {
            lemma_end_after(s, i + 2);
        }
    }
}

proof fn lemma_tokens_shift(s: Seq<char>, k: int, i: int)
    requires
        0 <= k <= s.len(),
        0 <= i,
    ensures
        svgpath::tokens_from(s, k + i) == svgpath::tokens_from(s.skip(k), i),
    decreases s.len() - k - i,
{
    if k + i < s.len() {
        let t = s.skip(k);
        assert(t[i] == s[k + i]);
        lemma_end_shift(s, k, i + 1);
        lemma_end_after(t, i + 1);
        let e = svgpath::number_end(t, i + 1);
        lemma_tokens_shift(s, k, i + 1);
        if e <= t.len() {
            lemma_tokens_shift(s, k, e);
            assert(t.subrange(i, e) =~= s.subrange(k + i, k + e));
        }
    }
}

proof fn lemma_run_shift(t: Seq<TokenView>, k: int, i: int)
    requires
        0 <= k <= t.len(),
        0 <= i,
    ensures
        svgpath::run_from(t, k + i) == svgpath::run_from(t.skip(k), i),
    decreases t.len() - k - i,
{
    if k + i < t.len() {
        assert(t.skip(k)[i] == t[k + i]);
        lemma_run_shift(t, k, i + 1);
    }
}

proof fn lemma_steps_shift(t: Seq<TokenView>, k: int, i: int, lost: bool)
    requires
        0 <= k <= t.len(),
        0 <= i,
    ensures
        svgpath::steps_from(t, k + i, lost) == svgpath::steps_from(t.skip(k), i, lost),
    decreases t.len() - k - i,
{
    if k + i < t.len() {
        assert(t.skip(k)[i] == t[k + i]);
        lemma_run_shift(t, k, i + 1);
        lemma_steps_shift(t, k, i + 1, true);
        lemma_steps_shift(t, k, i + 1, false);
        lemma_steps_shift(t, k, i + 1, lost);
    }
}

/// Neither goes on with a number nor is one's exponent.
spec fn ends_figure(c: char) -> bool {
    !easyeda::is_digit(c) && c != '.' && c != 'e' && c != 'E'
}

proof fn lemma_figure_end(s: Seq<char>, i: int, n: Seq<char>)
    requires
        is_figure(n),
        1 <= i <= n.len() <= s.len(),
        s.take(n.len() as int) == n,
        n.len() < s.len() ==> ends_figure(s[n.len() as int]),
    ensures
        svgpath::number_end(s, i) == n.len(),
    decreases n.len() - i,
{
    if i < n.len() {
        assert(s.take(n.len() as int)[i] == s[i]);
        lemma_figure_end(s, i + 1, n);
    }
}

proof fn lemma_figure_read(n: Seq<char>, rest: Seq<char>)
    requires
        is_figure(n),
        rest.len() > 0 ==> ends_figure(rest[0]),
    ensures
        svgpath::tokens_from(seq![' '] + n + rest, 0) == seq![TokenView::Num(n)]
            + svgpath::tokens_from(rest, 0),
{
    let s = seq![' '] + n + rest;
    let t = n + rest;
    assert(s.skip(1) =~= t);
    lemma_tokens_shift(s, 1, 0);
    assert(svgpath::tokens_from(s, 0) == svgpath::tokens_from(t, 0));
    assert(t.take(n.len() as int) =~= n);
    lemma_figure_end(t, 1, n);
    assert(t.subrange(0, n.len() as int) =~= n);
    assert(t[0] == n[0]);
    assert(t.skip(n.len() as int) =~= rest);
    lemma_tokens_shift(t, n.len() as int, 0);
}

proof fn lemma_spelled_read(list: Seq<Seq<char>>, rest: Seq<char>)
    requires
        are_figures(list),
        rest.len() > 0 ==> ends_figure(rest[0]),
    ensures
        svgpath::tokens_from(spelled(list) + rest, 0) == nums(list) + svgpath::tokens_from(rest, 0),
    decreases list.len(),
{
    if list.len() == 0 {
        assert(spelled(list) + rest =~= rest);
        assert(nums(list) + svgpath::tokens_from(rest, 0) =~= svgpath::tokens_from(rest, 0));
    } else {
        let tail = list.drop_first();
        assert forall|i: int| 0 <= i < tail.len() implies is_figure(#[trigger] tail[i]) by {
            assert(tail[i] == list[i + 1]);
        }
        assert(is_figure(list[0]));
        lemma_spelled_read(tail, rest);
        let after = spelled(tail) + rest;
        if tail.len() > 0 {
            assert(spelled(tail)[0] == ' ');
        } else {
            assert(after =~= rest);
        }
        lemma_figure_read(list[0], after);
        assert(spelled(list) + rest =~= seq![' '] + list[0] + after);
        assert(nums(list) =~= seq![TokenView::Num(list[0])] + nums(tail));
        assert(seq![TokenView::Num(list[0])] + (nums(tail) + svgpath::tokens_from(rest, 0))
            =~= nums(list) + svgpath::tokens_from(rest, 0));
    }
}

proof fn lemma_path_tokens(steps: Seq<StepView>)
    requires
        forall|i: int| 0 <= i < steps.len() ==> are_figures(figures(#[trigger] steps[i])),
    ensures
        svgpath::tokens_from(path(steps), 0) == tokens(steps),
    decreases steps.len(),
{
    if steps.len() > 0 {
        let tail = steps.drop_first();
        assert forall|i: int| 0 <= i < tail.len() implies are_figures(
            figures(#[trigger] tail[i]),
        ) by {
            assert(tail[i] == steps[i + 1]);
        }
        lemma_path_tokens(tail);
        let rest = path(tail);
        if tail.len() > 0 {
            assert(rest[0] == letter(tail[0]));
        }
        assert(are_figures(figures(steps[0])));
        lemma_spelled_read(figures(steps[0]), rest);
        let s = path(steps);
        assert(s.skip(1) =~= spelled(figures(steps[0])) + rest);
        lemma_tokens_shift(s, 1, 0);
        assert(s[0] == letter(steps[0]));
        assert(svgpath::tokens_from(s, 0) =~= tokens(steps));
    }
}

proof fn lemma_run(list: Seq<Seq<char>>, rest: Seq<TokenView>)
    requires
        rest.len() > 0 ==> rest[0] is Cmd,
    ensures
        svgpath::run_from(nums(list) + rest, 0) == list,
        forall|lost: bool|
            svgpath::steps_from(nums(list) + rest, 0, lost) == #[trigger] svgpath::steps_from(
                rest,
                0,
                lost,
            ),
    decreases list.len(),
{
    let t = nums(list) + rest;
    if list.len() == 0 {
        assert(t =~= rest);
        assert(list =~= Seq::<Seq<char>>::empty());
    } else {
        let tail = list.drop_first();
        lemma_run(tail, rest);
        assert(t.skip(1) =~= nums(tail) + rest);
        lemma_run_shift(t, 1, 0);
        assert(t[0] == TokenView::Num(list[0]));
        assert(seq![list[0]] + tail =~= list);
        assert forall|lost: bool|
            svgpath::steps_from(t, 0, lost) == #[trigger] svgpath::steps_from(rest, 0, lost) by {
            lemma_steps_shift(t, 1, 0, lost);
        }
    }
}

proof fn lemma_tokens_steps(steps: Seq<StepView>)
    ensures
        svgpath::steps_from(tokens(steps), 0, false) == steps,
    decreases steps.len(),
{
    let t = tokens(steps);
    if steps.len() == 0 {
        assert(steps =~= Seq::<StepView>::empty());
    } else {
        let step = steps[0];
        let tail = steps.drop_first();
        lemma_tokens_steps(tail);
        let rest = tokens(tail);
        if tail.len() > 0 {
            assert(rest[0] == TokenView::Cmd(letter(tail[0])));
        }
        let f = figures(step);
        lemma_run(f, rest);
        assert(t.skip(1) =~= nums(f) + rest);
        lemma_run_shift(t, 1, 0);
        lemma_steps_shift(t, 1, 0, false);
        assert(t[0] == TokenView::Cmd(letter(step)));
        assert(svgpath::run_from(t, 1) == f);
        assert(svgpath::steps_from(t, 1, false) == tail);
        let c = letter(step);
        let one = seq![step];
        assert(one + tail =~= steps);
        match step {
            StepView::Move { x, y, relative } => {
                assert(svgpath::lines_of(f.skip(2), relative) =~= Seq::<StepView>::empty());
                assert(svgpath::steps_from(t, 0, false) =~= one + tail);
            },
            StepView::Line { x, y, relative } => {
                assert(svgpath::lines_of(f, relative) =~= one);
            },
            StepView::Horizontal { x, relative } => {
                assert(svgpath::horizontals_of(f, relative) =~= one);
            },
            StepView::Vertical { y, relative } => {
                assert(svgpath::verticals_of(f, relative) =~= one);
            },
            StepView::Arc { rx, ry, rotation, large, sweep, x, y, relative } => {
                assert(svgpath::arcs_of(f, relative) =~= one);
            },
            StepView::Close => {},
        }
    }
}

/// A path reads back step by step as it was written: each letter for its own
/// kind of step, a small one for a relative step, and its numbers in their
/// order.
pub proof fn lemma_path_read_back(steps: Seq<StepView>)
    requires
        forall|i: int| 0 <= i < steps.len() ==> are_figures(figures(#[trigger] steps[i])),
    ensures
        svgpath::steps_of(path(steps)) == steps,
{
    lemma_path_tokens(steps);
    lemma_tokens_steps(steps);
}

} // verus!
