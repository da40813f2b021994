//! How an SVG path reads, the little bit of it EasyEDA data needs.
//!
//! EasyEDA stores tracks, regions and arcs as SVG path strings. A path is read
//! into its steps here; where the steps lead is left to the geometry.

use vstd::prelude::*;
use vstd::string::*;

use crate::online::easyeda;
use crate::online::easyeda::reads_as_number;
use crate::text;
use crate::text::{slice, to_chars};

verus! {

// ------------------------------------------------------------------- points

pub open spec fn is_gap(c: char) -> bool {
    c == ' ' || c == ',' || c == '\n' || c == '\t'
}

/// The words between the gaps, with the one still being read at the end.
pub open spec fn words_upto(s: Seq<char>, n: int) -> Seq<Seq<char>>
    decreases n,
{
    if n <= 0 {
        seq![Seq::<char>::empty()]
    } else {
        let before = words_upto(s, n - 1);
        if is_gap(s[n - 1]) {
            before.push(Seq::empty())
        } else {
            before.update(before.len() - 1, before.last().push(s[n - 1]))
        }
    }
}

/// Those of the words that are numbers.
pub open spec fn numbers_in(words: Seq<Seq<char>>) -> Seq<Seq<char>>
    decreases words.len(),
{
    if words.len() == 0 {
        Seq::empty()
    } else if easyeda::is_number(words.last()) {
        numbers_in(words.drop_last()).push(words.last())
    } else {
        numbers_in(words.drop_last())
    }
}

/// The numbers two by two; one left over at the end is dropped.
pub open spec fn pairs_of(numbers: Seq<Seq<char>>) -> Seq<(Seq<char>, Seq<char>)> {
    Seq::new(numbers.len() / 2, |i: int| (numbers[2 * i], numbers[2 * i + 1]))
}

/// The points a list of coordinates names.
pub open spec fn points_of(s: Seq<char>) -> Seq<(Seq<char>, Seq<char>)> {
    pairs_of(numbers_in(words_upto(s, s.len() as int)))
}

pub open spec fn pair_views(list: Seq<(String, String)>) -> Seq<(Seq<char>, Seq<char>)> {
    list.map_values(|p: (String, String)| (p.0@, p.1@))
}

fn words(text: &str) -> (r: Vec<String>)
    ensures
        text::views(r@) == words_upto(text@, text@.len() as int),
{
    let chars = to_chars(text);
    let mut out: Vec<String> = Vec::new();
    let mut word = String::new();
    let mut i: usize = 0;
    assert(text::views(out@).push(word@) =~= words_upto(chars@, 0));
    while i < chars.len()
        invariant
            i <= chars@.len(),
            text::views(out@).push(word@) == words_upto(chars@, i as int),
        decreases chars.len() - i,
    {
        let c = chars[i];
        let ghost before = words_upto(chars@, i as int);
        assert(before.drop_last() =~= text::views(out@));
        if c == ' ' || c == ',' || c == '\n' || c == '\t' {
            let ghost was = text::views(out@);
            out.push(word);
            assert(text::views(out@) =~= was.push(word@));
            word = String::new();
        } else {
            word.push(c);
            assert(text::views(out@).push(word@) =~= before.update(before.len() - 1, word@));
        }
        i += 1;
    }
    let ghost was = text::views(out@);
    out.push(word);
    assert(text::views(out@) =~= was.push(word@));
    out
}

fn numbers(list: &Vec<String>) -> (r: Vec<String>)
    ensures
        text::views(r@) == numbers_in(text::views(list@)),
{
    let ghost all = text::views(list@);
    let mut out: Vec<String> = Vec::new();
    let mut i: usize = 0;
    assert(all.take(0) =~= Seq::<Seq<char>>::empty());
    assert(text::views(out@) =~= Seq::<Seq<char>>::empty());
    while i < list.len()
        invariant
            i <= list@.len(),
            all == text::views(list@),
            text::views(out@) == numbers_in(all.take(i as int)),
        decreases list.len() - i,
    {
        assert(all.take(i + 1).drop_last() =~= all.take(i as int));
        assert(all.take(i + 1).last() == list@[i as int]@);
        if reads_as_number(list[i].as_str()) {
            let ghost was = text::views(out@);
            out.push(list[i].clone());
            assert(text::views(out@) =~= was.push(list@[i as int]@));
        }
        i += 1;
    }
    assert(all.take(i as int) =~= all);
    out
}

/// Splits `"3981.36 2998.27 3981.36 2996.70"` into points.
pub fn parse_points(text: &str) -> (r: Vec<(String, String)>)
    ensures
        pair_views(r@) == points_of(text@),
{
    let list = words(text);
    let nums = numbers(&list);
    let ghost all = text::views(nums@);
    let mut out: Vec<(String, String)> = Vec::new();
    let mut i: usize = 0;
    let n: usize = nums.len();
    let half: usize = n / 2;
    while i < half
        invariant
            i <= half,
            n == nums@.len(),
            half == n / 2,
            out@.len() == i,
            forall|j: int|
                0 <= j < i ==> (#[trigger] out@[j]).0@ == nums@[2 * j]@ && out@[j].1@ == nums@[2 * j
                    + 1]@,
        decreases half - i,
    {
        out.push((nums[2 * i].clone(), nums[2 * i + 1].clone()));
        i += 1;
    }
    assert(pair_views(out@) =~= pairs_of(all));
    out
}

// ------------------------------------------------------------------- tokens

pub enum Token {
    Cmd(char),
    Num(String),
}

pub enum TokenView {
    Cmd(char),
    Num(Seq<char>),
}

impl View for Token {
    type V = TokenView;

    open spec fn view(&self) -> TokenView {
        match *self {
            Token::Cmd(c) => TokenView::Cmd(c),
            Token::Num(t) => TokenView::Num(t@),
        }
    }
}

pub open spec fn token_views(list: Seq<Token>) -> Seq<TokenView> {
    list.map_values(|t: Token| t@)
}

pub open spec fn is_letter(c: char) -> bool {
    ('a' <= c && c <= 'z') || ('A' <= c && c <= 'Z')
}

pub open spec fn starts_number(c: char) -> bool {
    easyeda::is_digit(c) || c == '-' || c == '+' || c == '.'
}

/// Where the number being read at `i` ends. A `-` only continues it as an
/// exponent sign.
pub open spec fn number_end(s: Seq<char>, i: int) -> int
    decreases s.len() - i,
{
    if i < 0 || i >= s.len() {
        i
    } else if easyeda::is_digit(s[i]) || s[i] == '.' {
        number_end(s, i + 1)
    } else if (s[i] == 'e' || s[i] == 'E') && i + 1 < s.len() {
        if s[i + 1] == '-' || s[i + 1] == '+' {
            number_end(s, i + 2)
        } else {
            number_end(s, i + 1)
        }
    } else {
        i
    }
}

/// The commands and numbers from `i` on. What reads like a number and is none is
/// passed over, and so is everything else.
pub open spec fn tokens_from(s: Seq<char>, i: int) -> Seq<TokenView>
    decreases s.len() - i,
{
    if i < 0 || i >= s.len() {
        Seq::empty()
    } else if is_letter(s[i]) {
        seq![TokenView::Cmd(s[i])] + tokens_from(s, i + 1)
    } else if starts_number(s[i]) {
        let e = number_end(s, i + 1);
        if e <= i || e > s.len() {
            Seq::empty()
        } else if easyeda::is_number(s.subrange(i, e)) {
            seq![TokenView::Num(s.subrange(i, e))] + tokens_from(s, e)
        } else {
            tokens_from(s, e)
        }
    } else {
        tokens_from(s, i + 1)
    }
}

fn letter(c: char) -> (r: bool)
    ensures
        r == is_letter(c),
{
    ('a' <= c && c <= 'z') || ('A' <= c && c <= 'Z')
}

fn find_number_end(chars: &Vec<char>, i: usize) -> (r: usize)
    requires
        i <= chars@.len(),
    ensures
        r == number_end(chars@, i as int),
        i <= r <= chars@.len(),
{
    let mut k: usize = i;
    while k < chars.len()
        invariant_except_break
            i <= k <= chars@.len(),
            number_end(chars@, k as int) == number_end(chars@, i as int),
        ensures
            i <= k <= chars@.len(),
            k == number_end(chars@, i as int),
        decreases chars.len() - k,
    {
        let d = chars[k];
        if ('0' <= d && d <= '9') || d == '.' {
            k += 1;
        } else if (d == 'e' || d == 'E') && k + 1 < chars.len() {
            k += 1;
            if chars[k] == '-' || chars[k] == '+' {
                k += 1;
            }
        } else {
            break;
        }
    }
    k
}

/// The commands and numbers of a path.
pub fn tokenize(path: &str) -> (r: Vec<Token>)
    ensures
        token_views(r@) == tokens_from(path@, 0),
{
    let chars = to_chars(path);
    let mut tokens: Vec<Token> = Vec::new();
    let mut i: usize = 0;
    assert(token_views(tokens@) + tokens_from(chars@, 0) =~= tokens_from(chars@, 0));
    while i < chars.len()
        invariant
            i <= chars@.len(),
            token_views(tokens@) + tokens_from(chars@, i as int) == tokens_from(chars@, 0),
        decreases chars.len() - i,
    {
        let c = chars[i];
        let ghost was = token_views(tokens@);
        if letter(c) {
            tokens.push(Token::Cmd(c));
            assert(token_views(tokens@) =~= was.push(TokenView::Cmd(c)));
            assert(was + (seq![TokenView::Cmd(c)] + tokens_from(chars@, i + 1)) =~= was.push(
                TokenView::Cmd(c),
            ) + tokens_from(chars@, i + 1));
            i += 1;
        } else if ('0' <= c && c <= '9') || c == '-' || c == '+' || c == '.' {
            let e = find_number_end(&chars, i + 1);
            let text = slice(&chars, i, e);
            if reads_as_number(text.as_str()) {
                let ghost t = text@;
                tokens.push(Token::Num(text));
                assert(token_views(tokens@) =~= was.push(TokenView::Num(t)));
                assert(was + (seq![TokenView::Num(t)] + tokens_from(chars@, e as int))
                    =~= was.push(TokenView::Num(t)) + tokens_from(chars@, e as int));
            }
            i = e;
        } else {
            i += 1;
        }
    }
    assert(token_views(tokens@) + tokens_from(chars@, i as int) =~= token_views(tokens@));
    tokens
}

// -------------------------------------------------------------------- steps

/// One step of a path, with its numbers as they are written.
pub enum Step {
    Move { x: String, y: String, relative: bool },
    Line { x: String, y: String, relative: bool },
    Horizontal { x: String, relative: bool },
    Vertical { y: String, relative: bool },
    Arc {
        rx: String,
        ry: String,
        rotation: String,
        large: String,
        sweep: String,
        x: String,
        y: String,
        relative: bool,
    },
    Close,
}

pub enum StepView {
    Move { x: Seq<char>, y: Seq<char>, relative: bool },
    Line { x: Seq<char>, y: Seq<char>, relative: bool },
    Horizontal { x: Seq<char>, relative: bool },
    Vertical { y: Seq<char>, relative: bool },
    Arc {
        rx: Seq<char>,
        ry: Seq<char>,
        rotation: Seq<char>,
        large: Seq<char>,
        sweep: Seq<char>,
        x: Seq<char>,
        y: Seq<char>,
        relative: bool,
    },
    Close,
}

impl View for Step {
    type V = StepView;

    open spec fn view(&self) -> StepView {
        match *self {
            Step::Move { x, y, relative } => StepView::Move { x: x@, y: y@, relative },
            Step::Line { x, y, relative } => StepView::Line { x: x@, y: y@, relative },
            Step::Horizontal { x, relative } => StepView::Horizontal { x: x@, relative },
            Step::Vertical { y, relative } => StepView::Vertical { y: y@, relative },
            Step::Arc { rx, ry, rotation, large, sweep, x, y, relative } => StepView::Arc {
                rx: rx@,
                ry: ry@,
                rotation: rotation@,
                large: large@,
                sweep: sweep@,
                x: x@,
                y: y@,
                relative,
            },
            Step::Close => StepView::Close,
        }
    }
}

pub open spec fn step_views(list: Seq<Step>) -> Seq<StepView> {
    list.map_values(|s: Step| s@)
}

/// The numbers that follow one another from `i` on.
pub open spec fn run_from(tokens: Seq<TokenView>, i: int) -> Seq<Seq<char>>
    decreases tokens.len() - i,
{
    if 0 <= i < tokens.len() {
        match tokens[i] {
            TokenView::Num(t) => seq![t] + run_from(tokens, i + 1),
            TokenView::Cmd(_) => Seq::empty(),
        }
    } else {
        Seq::empty()
    }
}

/// Lines to the points the numbers name, two by two.
pub open spec fn lines_of(numbers: Seq<Seq<char>>, relative: bool) -> Seq<StepView> {
    Seq::new(
        numbers.len() / 2,
        |i: int| StepView::Line { x: numbers[2 * i], y: numbers[2 * i + 1], relative },
    )
}

pub open spec fn horizontals_of(numbers: Seq<Seq<char>>, relative: bool) -> Seq<StepView> {
    numbers.map_values(|x: Seq<char>| StepView::Horizontal { x, relative })
}

pub open spec fn verticals_of(numbers: Seq<Seq<char>>, relative: bool) -> Seq<StepView> {
    numbers.map_values(|y: Seq<char>| StepView::Vertical { y, relative })
}

/// Arcs, seven numbers each.
pub open spec fn arcs_of(numbers: Seq<Seq<char>>, relative: bool) -> Seq<StepView> {
    Seq::new(
        numbers.len() / 7,
        |i: int|
            StepView::Arc {
                rx: numbers[7 * i],
                ry: numbers[7 * i + 1],
                rotation: numbers[7 * i + 2],
                large: numbers[7 * i + 3],
                sweep: numbers[7 * i + 4],
                x: numbers[7 * i + 5],
                y: numbers[7 * i + 6],
                relative,
            },
    )
}

/// Starts a subpath.
pub open spec fn is_move(c: char) -> bool {
    c == 'M' || c == 'm'
}

/// The steps from `i` on. A number that follows no command is passed over. A
/// move without a point, and a command that is not known, end the subpath: what
/// follows is `lost`, up to the next move.
pub open spec fn steps_from(tokens: Seq<TokenView>, i: int, lost: bool) -> Seq<StepView>
    decreases tokens.len() - i,
{
    if i < 0 || i >= tokens.len() {
        Seq::empty()
    } else {
        match tokens[i] {
            TokenView::Num(_) => steps_from(tokens, i + 1, lost),
            TokenView::Cmd(c) => {
                let relative = 'a' <= c && c <= 'z';
                let numbers = run_from(tokens, i + 1);
                let rest = steps_from(tokens, i + 1, false);
                if is_move(c) && numbers.len() >= 2 {
                    // Extra coordinate pairs after a moveto are implicit
                    // linetos.
                    seq![
                        StepView::Move { x: numbers[0], y: numbers[1], relative },
                    ] + lines_of(numbers.skip(2), relative) + rest
                } else if is_move(c) || lost {
                    steps_from(tokens, i + 1, true)
                } else if c == 'L' || c == 'l' {
                    lines_of(numbers, relative) + rest
                } else if c == 'H' || c == 'h' {
                    horizontals_of(numbers, relative) + rest
                } else if c == 'V' || c == 'v' {
                    verticals_of(numbers, relative) + rest
                } else if c == 'A' || c == 'a' {
                    arcs_of(numbers, relative) + rest
                } else if c == 'Z' || c == 'z' {
                    seq![StepView::Close] + rest
                } else {
                    steps_from(tokens, i + 1, true)
                }
            },
        }
    }
}

/// The steps of a path.
pub open spec fn steps_of(path: Seq<char>) -> Seq<StepView> {
    steps_from(tokens_from(path, 0), 0, false)
}

/// A subpath that was given up ends at the next move: from there on the path
/// reads as if nothing had been lost before it.
pub proof fn lemma_lost_until_move(tokens: Seq<TokenView>, i: int, j: int)
    requires
        0 <= i <= j < tokens.len(),
        tokens[j] matches TokenView::Cmd(c) && is_move(c),
        forall|k: int|
            i <= k < j ==> !(#[trigger] tokens[k] matches TokenView::Cmd(c) && is_move(c)),
    ensures
        steps_from(tokens, i, true) == steps_from(tokens, j, false),
    decreases j - i,
{
    if i < j {
        assert(!(tokens[i] matches TokenView::Cmd(c) && is_move(c)));
        lemma_lost_until_move(tokens, i + 1, j);
    }
}

/// The numbers that follow one another from `from` on.
fn take_run(tokens: &Vec<Token>, from: usize) -> (r: Vec<String>)
    requires
        from <= tokens@.len(),
    ensures
        text::views(r@) == run_from(token_views(tokens@), from as int),
{
    let ghost all = token_views(tokens@);
    let mut out: Vec<String> = Vec::new();
    let mut i: usize = from;
    assert(text::views(out@) + run_from(all, i as int) =~= run_from(all, from as int));
    while i < tokens.len()
        invariant
            from <= i <= tokens@.len(),
            all == token_views(tokens@),
            text::views(out@) + run_from(all, i as int) == run_from(all, from as int),
        decreases tokens.len() - i,
    {
        assert(all[i as int] == tokens@[i as int]@);
        match &tokens[i] {
            Token::Num(t) => {
                let ghost was = text::views(out@);
                out.push(t.clone());
                assert(text::views(out@) =~= was.push(t@));
                assert(was + (seq![t@] + run_from(all, i + 1)) =~= was.push(t@) + run_from(
                    all,
                    i + 1,
                ));
            },
            Token::Cmd(_) => {
                assert(text::views(out@) + Seq::<Seq<char>>::empty() =~= text::views(out@));
                return out;
            },
        }
        i += 1;
    }
    assert(text::views(out@) + run_from(all, i as int) =~= text::views(out@));
    out
}

fn push_step(out: &mut Vec<Step>, step: Step)
    ensures
        step_views(final(out)@) == step_views(old(out)@).push(step@),
{
    let ghost was = step_views(out@);
    out.push(step);
    assert(step_views(out@) =~= was.push(step@));
}

fn push_lines(out: &mut Vec<Step>, numbers: &Vec<String>, from: usize, relative: bool)
    requires
        from <= numbers@.len(),
    ensures
        step_views(final(out)@) == step_views(old(out)@) + lines_of(
            text::views(numbers@).skip(from as int),
            relative,
        ),
{
    let n: usize = numbers.len();
    let ghost rest = text::views(numbers@).skip(from as int);
    let ghost all = lines_of(rest, relative);
    let ghost start = step_views(out@);
    let mut i: usize = from;
    let ghost mut k: int = 0;
    assert(start + all.take(0) =~= start);
    while n - i >= 2
        invariant
            from <= i <= n == numbers@.len(),
            i == from + 2 * k,
            0 <= k <= all.len(),
            rest == text::views(numbers@).skip(from as int),
            all == lines_of(rest, relative),
            all.len() == rest.len() / 2,
            rest.len() == n - from,
            step_views(out@) == start + all.take(k),
        decreases n - i,
    {
        let step = Step::Line { x: numbers[i].clone(), y: numbers[i + 1].clone(), relative };
        assert(step@ == all[k]);
        let ghost was = step_views(out@);
        push_step(out, step);
        assert(start + all.take(k + 1) =~= was.push(all[k]));
        proof {
            k = k + 1;
        }
        i += 2;
    }
    assert(all.take(k) =~= all);
}

fn push_arcs(out: &mut Vec<Step>, numbers: &Vec<String>, relative: bool)
    ensures
        step_views(final(out)@) == step_views(old(out)@) + arcs_of(
            text::views(numbers@),
            relative,
        ),
{
    let n: usize = numbers.len();
    let ghost rest = text::views(numbers@);
    let ghost all = arcs_of(rest, relative);
    let ghost start = step_views(out@);
    let mut i: usize = 0;
    let ghost mut k: int = 0;
    assert(start + all.take(0) =~= start);
    while n - i >= 7
        invariant
            i <= n == numbers@.len(),
            i == 7 * k,
            0 <= k <= all.len(),
            rest == text::views(numbers@),
            all == arcs_of(rest, relative),
            all.len() == n / 7,
            step_views(out@) == start + all.take(k),
        decreases n - i,
    {
        let step = Step::Arc {
            rx: numbers[i].clone(),
            ry: numbers[i + 1].clone(),
            rotation: numbers[i + 2].clone(),
            large: numbers[i + 3].clone(),
            sweep: numbers[i + 4].clone(),
            x: numbers[i + 5].clone(),
            y: numbers[i + 6].clone(),
            relative,
        };
        assert(step@ == all[k]);
        let ghost was = step_views(out@);
        push_step(out, step);
        assert(start + all.take(k + 1) =~= was.push(all[k]));
        proof {
            k = k + 1;
        }
        i += 7;
    }
    assert(all.take(k) =~= all);
}

fn push_straight(out: &mut Vec<Step>, numbers: &Vec<String>, across: bool, relative: bool)
    ensures
        step_views(final(out)@) == step_views(old(out)@) + (if across {
            horizontals_of(text::views(numbers@), relative)
        } else {
            verticals_of(text::views(numbers@), relative)
        }),
{
    let ghost all = if across {
        horizontals_of(text::views(numbers@), relative)
    } else {
        verticals_of(text::views(numbers@), relative)
    };
    let ghost start = step_views(out@);
    let mut i: usize = 0;
    assert(start + all.take(0) =~= start);
    while i < numbers.len()
        invariant
            i <= numbers@.len() == all.len(),
            all == (if across {
                horizontals_of(text::views(numbers@), relative)
            } else {
                verticals_of(text::views(numbers@), relative)
            }),
            step_views(out@) == start + all.take(i as int),
        decreases numbers.len() - i,
    {
        let step = if across {
            Step::Horizontal { x: numbers[i].clone(), relative }
        } else {
            Step::Vertical { y: numbers[i].clone(), relative }
        };
        assert(step@ == all[i as int]);
        let ghost was = step_views(out@);
        push_step(out, step);
        assert(start + all.take(i + 1) =~= was.push(all[i as int]));
        i += 1;
    }
    assert(all.take(i as int) =~= all);
}

/// Reads an SVG path into its steps.
///
/// Supports the commands EasyEDA actually emits: `M`/`m`, `L`/`l`, `H`/`h`,
/// `V`/`v`, `A`/`a` and `Z`/`z`. Anything else ends the current subpath rather
/// than producing wrong geometry; the path goes on at the next move.
pub fn parse_path(path: &str) -> (r: Vec<Step>)
    ensures
        step_views(r@) == steps_of(path@),
{
    let tokens = tokenize(path);
    let ghost all = token_views(tokens@);
    let mut out: Vec<Step> = Vec::new();
    let mut i: usize = 0;
    let mut lost = false;
    assert(step_views(out@) + steps_from(all, 0, false) =~= steps_from(all, 0, false));
    while i < tokens.len()
        invariant
            i <= tokens@.len(),
            all == token_views(tokens@),
            all == tokens_from(path@, 0),
            step_views(out@) + steps_from(all, i as int, lost) == steps_from(all, 0, false),
        decreases tokens.len() - i,
    {
        assert(all[i as int] == tokens@[i as int]@);
        let ghost was = step_views(out@);
        let ghost rest = steps_from(all, i + 1, false);
        match &tokens[i] {
            // A bare number here means an implicit repeat of the previous
            // command, which EasyEDA does not emit; skip it rather than guess.
            Token::Num(_) => {},
            Token::Cmd(cmd) => {
                let c = *cmd;
                let relative = 'a' <= c && c <= 'z';
                let numbers = take_run(&tokens, i + 1);
                let ghost run = run_from(all, i + 1);
                assert(run.len() == numbers@.len());
                let moves = c == 'M' || c == 'm';
                if moves && numbers.len() >= 2 {
                    lost = false;
                    let ghost first = StepView::Move { x: run[0], y: run[1], relative };
                    push_step(
                        &mut out,
                        Step::Move { x: numbers[0].clone(), y: numbers[1].clone(), relative },
                    );
                    push_lines(&mut out, &numbers, 2, relative);
                    assert(was + (seq![first] + lines_of(run.skip(2), relative) + rest)
                        =~= step_views(out@) + rest);
                } else if moves || lost {
                    lost = true;
                } else if c == 'L' || c == 'l' {
                    push_lines(&mut out, &numbers, 0, relative);
                    assert(run.skip(0) =~= run);
                    assert(was + (lines_of(run, relative) + rest) =~= step_views(out@) + rest);
                } else if c == 'H' || c == 'h' {
                    push_straight(&mut out, &numbers, true, relative);
                    assert(was + (horizontals_of(run, relative) + rest) =~= step_views(out@)
                        + rest);
                } else if c == 'V' || c == 'v' {
                    push_straight(&mut out, &numbers, false, relative);
                    assert(was + (verticals_of(run, relative) + rest) =~= step_views(out@) + rest);
                } else if c == 'A' || c == 'a' {
                    push_arcs(&mut out, &numbers, relative);
                    assert(was + (arcs_of(run, relative) + rest) =~= step_views(out@) + rest);
                } else if c == 'Z' || c == 'z' {
                    push_step(&mut out, Step::Close);
                    assert(was + (seq![StepView::Close] + rest) =~= step_views(out@) + rest);
                } else {
                    lost = true;
                }
            },
        }
        i += 1;
    }
    assert(step_views(out@) + steps_from(all, i as int, lost) =~= step_views(out@));
    out
}

} // verus!
