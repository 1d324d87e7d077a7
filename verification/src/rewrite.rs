//! Rewriting a text by one rule, from left to right.
//!
//! A rule looks for a shape and says what to write in its place. The text
//! is scanned once: at each position either the shape is found there, its
//! replacement is written and the scan goes on behind what was matched, or
//! the character at that position is copied. What a rule has written is
//! never scanned again by the same rule.

use vstd::prelude::*;
use crate::text::{all_digits, digits_value, is_digit, is_letter, push_all, read_index, rows};

verus! {

/// A class of characters.
#[derive(Clone, Copy, Debug, PartialEq, Eq)]
pub enum CharClass {
    /// `0` to `9`.
    Digit,
    /// `a` to `z` and `A` to `Z`.
    Letter,
}

impl CharClass {
    pub open spec fn has(self, c: char) -> bool {
        match self {
            CharClass::Digit => is_digit(c),
            CharClass::Letter => is_letter(c),
        }
    }

    /// Whether `c` belongs to the class.
    pub fn holds(&self, c: char) -> (r: bool)
        ensures
            r == self.has(c),
    {
        match self {
            CharClass::Digit => is_digit(c),
            CharClass::Letter => is_letter(c),
        }
    }
}

/// A rewriting rule.
#[derive(Debug)]
pub enum Rule {
    /// Every occurrence of `pattern` becomes `with`.
    Exact { pattern: Vec<char>, with: Vec<char> },
    /// Every `open`, followed by one or more characters of `class` and then
    /// by `close`, becomes `with`.
    Enclosed { open: Vec<char>, class: CharClass, close: char, with: Vec<char> },
    /// Every `{n}`, with `n` written in digits, becomes the parameter of
    /// index `n`, counted from zero; where there is no such parameter, the
    /// digits stay and the braces go.
    Placeholder { params: Vec<Vec<char>> },
}

/// What a rule is, as plain values.
pub enum RuleView {
    Exact { pattern: Seq<char>, with: Seq<char> },
    Enclosed { open: Seq<char>, class: CharClass, close: char, with: Seq<char> },
    Placeholder { params: Seq<Seq<char>> },
}

impl View for Rule {
    type V = RuleView;

    open spec fn view(&self) -> RuleView {
        match *self {
            Rule::Exact { pattern, with } => RuleView::Exact { pattern: pattern@, with: with@ },
            Rule::Enclosed { open, class, close, with } => RuleView::Enclosed {
                open: open@,
                class,
                close,
                with: with@,
            },
            Rule::Placeholder { params } => RuleView::Placeholder { params: rows(params@) },
        }
    }
}

/// Whether `p` stands in `s` at position `i`.
pub open spec fn found_at(s: Seq<char>, p: Seq<char>, i: int) -> bool {
    0 <= i && i + p.len() <= s.len() && s.subrange(i, i + p.len()) == p
}

/// Where the longest run of characters of `class` that starts at `i` ends.
pub open spec fn run_end(s: Seq<char>, class: CharClass, i: int) -> int
    decreases s.len() - i,
{
    if 0 <= i < s.len() && class.has(s[i]) {
        run_end(s, class, i + 1)
    } else {
        i
    }
}

/// Where `open`, a run of `class` and `close` end when they start at `i`;
/// `i` itself when they do not stand there.
pub open spec fn enclosed_end(
    s: Seq<char>,
    open: Seq<char>,
    class: CharClass,
    close: char,
    i: int,
) -> int {
    let e = run_end(s, class, i + open.len());
    if found_at(s, open, i) && e > i + open.len() && e < s.len() && s[e] == close {
        e + 1
    } else {
        i
    }
}

impl RuleView {
    /// Where the match that starts at `i` ends; `i` itself when the shape
    /// does not stand at `i`.
    pub open spec fn match_end(self, s: Seq<char>, i: int) -> int {
        match self {
            RuleView::Exact { pattern, with } => if pattern.len() > 0 && found_at(s, pattern, i) {
                i + pattern.len()
            } else {
                i
            },
            RuleView::Enclosed { open, class, close, with } => enclosed_end(
                s,
                open,
                class,
                close,
                i,
            ),
            RuleView::Placeholder { params } => enclosed_end(
                s,
                seq!['{'],
                CharClass::Digit,
                '}',
                i,
            ),
        }
    }

    /// What is written in place of `matched`.
    pub open spec fn fill(self, matched: Seq<char>) -> Seq<char> {
        match self {
            RuleView::Exact { pattern, with } => with,
            RuleView::Enclosed { open, class, close, with } => with,
            RuleView::Placeholder { params } => {
                let digits = matched.subrange(1, matched.len() - 1);
                if digits_value(digits) < params.len() {
                    params[digits_value(digits) as int]
                } else {
                    digits
                }
            },
        }
    }

    /// Whether the shape stands nowhere in `s`.
    pub open spec fn absent(self, s: Seq<char>) -> bool {
        forall|i: int| 0 <= i < s.len() ==> #[trigger] self.match_end(s, i) == i
    }
}

/// What becomes of `s` from position `i` on.
pub open spec fn rewrite_from(rule: RuleView, s: Seq<char>, i: int) -> Seq<char>
    decreases s.len() - i,
{
    if i < 0 || i >= s.len() {
        Seq::empty()
    } else {
        let e = rule.match_end(s, i);
        if e > i {
            rule.fill(s.subrange(i, e)) + rewrite_from(rule, s, e)
        } else {
            seq![s[i]] + rewrite_from(rule, s, i + 1)
        }
    }
}

/// What becomes of `s` under `rule`.
pub open spec fn rewritten(rule: RuleView, s: Seq<char>) -> Seq<char> {
    rewrite_from(rule, s, 0)
}

/// A run holds characters of its class only and ends inside the text.
pub proof fn lemma_run_end(s: Seq<char>, class: CharClass, i: int)
    requires
        0 <= i <= s.len(),
    ensures
        i <= run_end(s, class, i) <= s.len(),
        forall|j: int| i <= j < run_end(s, class, i) ==> class.has(#[trigger] s[j]),
        run_end(s, class, i) < s.len() ==> !class.has(s[run_end(s, class, i)]),
    decreases s.len() - i,
{
    if i < s.len() && class.has(s[i]) {
        lemma_run_end(s, class, i + 1);
    }
}

/// A run that is known to reach `j` ends where the run from `j` ends.
pub proof fn lemma_run_end_step(s: Seq<char>, class: CharClass, i: int, j: int)
    requires
        0 <= i <= j <= s.len(),
        forall|k: int| i <= k < j ==> class.has(#[trigger] s[k]),
    ensures
        run_end(s, class, i) == run_end(s, class, j),
    decreases j - i,
{
    if i < j {
        lemma_run_end_step(s, class, i + 1, j);
    }
}

/// A text in which the shape of a rule stands nowhere is left as it is.
pub proof fn lemma_absent_unchanged(rule: RuleView, s: Seq<char>)
    requires
        rule.absent(s),
    ensures
        rewritten(rule, s) == s,
{
    lemma_absent_unchanged_from(rule, s, 0);
    assert(s.skip(0) == s);
}

proof fn lemma_absent_unchanged_from(rule: RuleView, s: Seq<char>, i: int)
    requires
        rule.absent(s),
        0 <= i <= s.len(),
    ensures
        rewrite_from(rule, s, i) == s.skip(i),
    decreases s.len() - i,
{
    if i < s.len() {
        lemma_absent_unchanged_from(rule, s, i + 1);
        assert(rule.match_end(s, i) == i);
        assert(seq![s[i]] + s.skip(i + 1) =~= s.skip(i));
    } else {
        assert(s.skip(i) =~= Seq::<char>::empty());
    }
}

/// Whether `p` stands in `s` at position `i`.
pub fn starts_at(s: &Vec<char>, p: &Vec<char>, i: usize) -> (r: bool)
    requires
        i <= s.len(),
    ensures
        r == found_at(s@, p@, i as int),
{
    if p.len() > s.len() - i {
        return false;
    }
    let mut k: usize = 0;
    while k < p.len()
        invariant
            0 <= k <= p.len(),
            i + p.len() <= s.len(),
            forall|j: int| 0 <= j < k ==> s@[i + j] == p@[j],
        decreases p.len() - k,
    {
        if s[i + k] != p[k] {
            assert(s@.subrange(i as int, i + p.len())[k as int] != p@[k as int]);
            return false;
        }
        k = k + 1;
    }
    assert(s@.subrange(i as int, i + p.len()) =~= p@);
    true
}

/// Where `open`, a run of `class` and `close` end when they start at `i`.
pub fn find_enclosed_end(
    s: &Vec<char>,
    open: &Vec<char>,
    class: CharClass,
    close: char,
    i: usize,
) -> (e: usize)
    requires
        i < s.len(),
    ensures
        e == enclosed_end(s@, open@, class, close, i as int),
        i <= e <= s.len(),
{
    if !starts_at(s, open, i) {
        return i;
    }
    let start: usize = i + open.len();
    let mut j: usize = start;
    while j < s.len() && class.holds(s[j])
        invariant
            start <= j <= s.len(),
            forall|k: int| start <= k < j ==> class.has(#[trigger] s@[k]),
        decreases s.len() - j,
    {
        j = j + 1;
    }
    proof {
        lemma_run_end_step(s@, class, start as int, j as int);
    }
    if j > start && j < s.len() && s[j] == close {
        j + 1
    } else {
        i
    }
}

impl Rule {
    /// Where the match that starts at `i` ends; `i` when there is none.
    pub fn find_end(&self, s: &Vec<char>, i: usize) -> (e: usize)
        requires
            i < s.len(),
        ensures
            e == self@.match_end(s@, i as int),
            i <= e <= s.len(),
    {
        match self {
            Rule::Exact { pattern, with } => {
                if pattern.len() > 0 && starts_at(s, pattern, i) {
                    i + pattern.len()
                } else {
                    i
                }
            },
            Rule::Enclosed { open, class, close, with } => find_enclosed_end(
                s,
                open,
                *class,
                *close,
                i,
            ),
            Rule::Placeholder { params } => {
                let open: Vec<char> = vec!['{'];
                assert(open@ =~= seq!['{']);
                find_enclosed_end(s, &open, CharClass::Digit, '}', i)
            },
        }
    }

    /// Writes to `out` what stands for the match `s[i..e]`.
    pub fn push_fill(&self, out: &mut Vec<char>, s: &Vec<char>, i: usize, e: usize)
        requires
            i < e <= s.len(),
            e == self@.match_end(s@, i as int),
        ensures
            final(out)@ == old(out)@ + self@.fill(s@.subrange(i as int, e as int)),
    {
        match self {
            Rule::Exact { pattern, with } => {
                push_all(out, with);
                assert(self@.fill(s@.subrange(i as int, e as int)) == with@);
            },
            Rule::Enclosed { open, class, close, with } => {
                push_all(out, with);
                assert(self@.fill(s@.subrange(i as int, e as int)) == with@);
            },
            Rule::Placeholder { params } => {
                let ghost matched = s@.subrange(i as int, e as int);
                let ghost digits = matched.subrange(1, matched.len() - 1);
                proof {
                    lemma_run_end(s@, CharClass::Digit, i + 1);
                    assert(digits =~= s@.subrange(i + 1, e - 1));
                    assert(all_digits(digits)) by {
                        assert forall|k: int| 0 <= k < digits.len() implies is_digit(
                            #[trigger] digits[k],
                        ) by {
                            assert(CharClass::Digit.has(s@[i + 1 + k]));
                        }
                    }
                }
                let index: Option<usize> = read_index(s, i + 1, e - 1);
                assert(self@.fill(matched) == if digits_value(digits) < params.len() {
                    rows(params@)[digits_value(digits) as int]
                } else {
                    digits
                });
                match index {
                    Some(n) => {
                        if n < params.len() {
                            assert(rows(params@)[n as int] == params@[n as int]@);
                            push_all(out, &params[n]);
                            assert(out@ == old(out)@ + self@.fill(matched));
                        } else {
                            push_range(out, s, i + 1, e - 1);
                            assert(out@ == old(out)@ + self@.fill(matched));
                        }
                    },
                    None => {
                        push_range(out, s, i + 1, e - 1);
                        assert(out@ == old(out)@ + self@.fill(matched));
                    },
                }
            },
        }
    }

    /// Rewrites `input` by this rule.
    pub fn apply(&self, input: &Vec<char>) -> (out: Vec<char>)
        ensures
            out@ == rewritten(self@, input@),
    {
        let mut out: Vec<char> = Vec::new();
        let mut i: usize = 0;
        while i < input.len()
            invariant
                0 <= i <= input.len(),
                out@ + rewrite_from(self@, input@, i as int) == rewritten(self@, input@),
            decreases input.len() - i,
        {
            let ghost before = out@;
            let ghost rest = rewrite_from(self@, input@, i as int);
            let e: usize = self.find_end(input, i);
            if e > i {
                self.push_fill(&mut out, input, i, e);
                assert(out@ + rewrite_from(self@, input@, e as int) =~= before + rest);
                i = e;
            } else {
                out.push(input[i]);
                assert(out@ + rewrite_from(self@, input@, i + 1) =~= before + rest);
                i = i + 1;
            }
        }
        assert(out@ + Seq::<char>::empty() =~= out@);
        out
    }
}

/// Appends `s[from..to]` to `out`.
pub fn push_range(out: &mut Vec<char>, s: &Vec<char>, from: usize, to: usize)
    requires
        from <= to <= s.len(),
    ensures
        final(out)@ == old(out)@ + s@.subrange(from as int, to as int),
{
    let mut k: usize = from;
    while k < to
        invariant
            from <= k <= to <= s.len(),
            out@ == old(out)@ + s@.subrange(from as int, k as int),
        decreases to - k,
    {
        out.push(s[k]);
        assert(s@.subrange(from as int, k + 1) =~= s@.subrange(from as int, k as int).push(
            s@[k as int],
        ));
        k = k + 1;
    }
    assert(s@.subrange(from as int, from as int) =~= Seq::<char>::empty());
}

} // verus!
