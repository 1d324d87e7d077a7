//! Rendering of description templates.
//!
//! A template is rendered in three steps, each on the whole text: the
//! numbered placeholders are filled in, the size and colour markup is
//! taken out, and the line breaks are turned into the separators of one
//! line. Every step is a fixed list of rules, applied in order, each to
//! what the one before has left.

use vstd::prelude::*;
use crate::rewrite::{
    found_at,
    lemma_absent_unchanged,
    rewrite_from,
    rewritten,
    CharClass,
    Rule,
    RuleView,
};
use crate::text::{chars_of, chars_of_each, push_all, same_text, string_from_chars, texts};

verus! {

/// The rule that puts `with` wherever `pattern` stands.
pub open spec fn swap(pattern: Seq<char>, with: Seq<char>) -> RuleView {
    RuleView::Exact { pattern, with }
}

/// The rule that takes out `open`, a run of `class` and `>`.
pub open spec fn erase_tag(open: Seq<char>, class: CharClass) -> RuleView {
    RuleView::Enclosed { open, class, close: '>', with: Seq::empty() }
}

/// The rule that fills in the numbered placeholders from `params`.
pub open spec fn fill_in(params: Seq<Seq<char>>) -> RuleView {
    RuleView::Placeholder { params }
}

/// The rule that puts `with` in place of every numbered placeholder,
/// whatever its number.
pub open spec fn fill_all(with: Seq<char>) -> RuleView {
    RuleView::Enclosed { open: seq!['{'], class: CharClass::Digit, close: '}', with }
}

/// `s` with every `{n}` replaced by parameter `n`; an `{n}` without a
/// parameter leaves its digits.
pub open spec fn substituted(s: Seq<char>, params: Seq<Seq<char>>) -> Seq<char> {
    rewritten(fill_in(params), s)
}

/// `s` without its size and colour tags: first the opening size tags, then
/// the opening colour tags, then the closing ones.
pub open spec fn without_markup(s: Seq<char>) -> Seq<char> {
    let a = rewritten(erase_tag("<size="@, CharClass::Digit), s);
    let b = rewritten(erase_tag("<color="@, CharClass::Letter), a);
    let c = rewritten(swap("</size>"@, Seq::empty()), b);
    rewritten(swap("</color>"@, Seq::empty()), c)
}

/// `s` on one line: a break behind `Attack` or `Counter` becomes a colon
/// and a space, a break before `-` a space, a break behind a full stop or
/// a space is dropped, and any other break becomes a colon and a space.
pub open spec fn on_one_line(s: Seq<char>) -> Seq<char> {
    let a = rewritten(swap("Attack\n"@, "Attack: "@), s);
    let b = rewritten(swap("Counter\n"@, "Counter: "@), a);
    let c = rewritten(swap("\n-"@, " -"@), b);
    let d = rewritten(swap(".\n"@, "."@), c);
    let e = rewritten(swap(" \n"@, " "@), d);
    rewritten(swap("\n"@, ": "@), e)
}

/// What a template renders to with the given parameters.
pub open spec fn rendered(template: Seq<char>, params: Seq<Seq<char>>) -> Seq<char> {
    on_one_line(without_markup(substituted(template, params)))
}

/// Whether `s` holds no line break.
pub open spec fn unbroken(s: Seq<char>) -> bool {
    forall|i: int| 0 <= i < s.len() ==> s[i] != '\n'
}

/// Whether `s` holds neither a numbered placeholder nor a size or colour
/// tag.
pub open spec fn plain(s: Seq<char>) -> bool {
    &&& fill_in(Seq::empty()).absent(s)
    &&& erase_tag("<size="@, CharClass::Digit).absent(s)
    &&& erase_tag("<color="@, CharClass::Letter).absent(s)
    &&& swap("</size>"@, Seq::empty()).absent(s)
    &&& swap("</color>"@, Seq::empty()).absent(s)
}

fn swap_rule(pattern: &str, with: &str) -> (r: Rule)
    ensures
        r@ == swap(pattern@, with@),
{
    Rule::Exact { pattern: chars_of(pattern), with: chars_of(with) }
}

fn drop_rule(pattern: &str) -> (r: Rule)
    ensures
        r@ == swap(pattern@, Seq::empty()),
{
    Rule::Exact { pattern: chars_of(pattern), with: Vec::new() }
}

fn erase_rule(open: &str, class: CharClass) -> (r: Rule)
    ensures
        r@ == erase_tag(open@, class),
{
    Rule::Enclosed { open: chars_of(open), class, close: '>', with: Vec::new() }
}

/// Takes the size and colour tags out of `s`.
pub fn strip_markup(s: &Vec<char>) -> (r: Vec<char>)
    ensures
        r@ == without_markup(s@),
{
    let a: Vec<char> = erase_rule("<size=", CharClass::Digit).apply(s);
    let b: Vec<char> = erase_rule("<color=", CharClass::Letter).apply(&a);
    let c: Vec<char> = drop_rule("</size>").apply(&b);
    drop_rule("</color>").apply(&c)
}

/// Puts `s` on one line.
pub fn join_lines(s: &Vec<char>) -> (r: Vec<char>)
    ensures
        r@ == on_one_line(s@),
{
    let a: Vec<char> = swap_rule("Attack\n", "Attack: ").apply(s);
    let b: Vec<char> = swap_rule("Counter\n", "Counter: ").apply(&a);
    let c: Vec<char> = swap_rule("\n-", " -").apply(&b);
    let d: Vec<char> = swap_rule(".\n", ".").apply(&c);
    let e: Vec<char> = swap_rule(" \n", " ").apply(&d);
    swap_rule("\n", ": ").apply(&e)
}

/// Renders `template` with `params`: fills in the placeholders, takes out
/// the markup, and puts the text on one line.
pub fn render_description(template: &str, params: &Vec<String>) -> (r: String)
    ensures
        r@ == rendered(template@, texts(params@)),
{
    let rule = Rule::Placeholder { params: chars_of_each(params) };
    let filled: Vec<char> = rule.apply(&chars_of(template));
    let bare: Vec<char> = strip_markup(&filled);
    let line: Vec<char> = join_lines(&bare);
    string_from_chars(&line)
}

/// What stands for every placeholder of a level's format: the first
/// parameter, or, where there is a tenth one that differs from it, both in
/// square brackets with a bar between them.
pub open spec fn level_span(first: Seq<char>, tenth: Option<Seq<char>>) -> Seq<char> {
    match tenth {
        Some(t) => if t == first {
            first
        } else {
            seq!['['] + first + seq!['|'] + t + seq![']']
        },
        None => first,
    }
}

/// A level's format with every numbered placeholder replaced by the span
/// of the level's first and tenth parameter.
pub open spec fn level_format(
    format: Seq<char>,
    first: Seq<char>,
    tenth: Option<Seq<char>>,
) -> Seq<char> {
    rewritten(fill_all(level_span(first, tenth)), format)
}

/// Fills the placeholders of a level's format with the span of `first`
/// and `tenth`.
pub fn render_level_format(format: &str, first: &str, tenth: Option<&str>) -> (r: String)
    ensures
        r@ == level_format(
            format@,
            first@,
            match tenth {
                Some(t) => Some(t@),
                None => None,
            },
        ),
{
    let mut span: Vec<char> = Vec::new();
    let head: Vec<char> = chars_of(first);
    match tenth {
        Some(t) => {
            let last: Vec<char> = chars_of(t);
            if same_text(t, first) {
                push_all(&mut span, &head);
                assert(span@ =~= first@);
            } else {
                span.push('[');
                push_all(&mut span, &head);
                span.push('|');
                push_all(&mut span, &last);
                span.push(']');
                assert(span@ =~= seq!['['] + first@ + seq!['|'] + t@ + seq![']']);
            }
        },
        None => {
            push_all(&mut span, &head);
            assert(span@ =~= first@);
        },
    }
    let open: Vec<char> = vec!['{'];
    assert(open@ =~= seq!['{']);
    let rule = Rule::Enclosed { open, class: CharClass::Digit, close: '}', with: span };
    let out: Vec<char> = rule.apply(&chars_of(format));
    string_from_chars(&out)
}

/// The last rule of `on_one_line` leaves no line break.
proof fn lemma_breaks_gone_from(s: Seq<char>, i: int)
    requires
        0 <= i <= s.len(),
    ensures
        unbroken(rewrite_from(swap("\n"@, ": "@), s, i)),
    decreases s.len() - i,
{
    reveal_strlit("\n");
    reveal_strlit(": ");
    let rule = swap("\n"@, ": "@);
    if i < s.len() {
        let e = rule.match_end(s, i);
        if e > i {
            lemma_breaks_gone_from(s, e);
        } else {
            lemma_breaks_gone_from(s, i + 1);
            if s[i] == '\n' {
                assert(s.subrange(i, i + 1) =~= "\n"@);
            }
        }
    }
}

/// What has been rendered holds no line break.
pub proof fn lemma_rendered_unbroken(template: Seq<char>, params: Seq<Seq<char>>)
    ensures
        unbroken(rendered(template, params)),
{
    let s = without_markup(substituted(template, params));
    let a = rewritten(swap("Attack\n"@, "Attack: "@), s);
    let b = rewritten(swap("Counter\n"@, "Counter: "@), a);
    let c = rewritten(swap("\n-"@, " -"@), b);
    let d = rewritten(swap(".\n"@, "."@), c);
    let e = rewritten(swap(" \n"@, " "@), d);
    lemma_breaks_gone_from(e, 0);
}

/// A pattern that holds a line break stands nowhere in a text without
/// one.
proof fn lemma_break_pattern_absent(s: Seq<char>, pattern: Seq<char>, with: Seq<char>, k: int)
    requires
        unbroken(s),
        0 <= k < pattern.len(),
        pattern[k] == '\n',
    ensures
        swap(pattern, with).absent(s),
{
    assert forall|i: int| 0 <= i < s.len() implies #[trigger] swap(pattern, with).match_end(s, i)
        == i by {
        if found_at(s, pattern, i) {
            assert(s.subrange(i, i + pattern.len())[k] == s[i + k]);
        }
    }
}

/// A text without line breaks is left as it is when put on one line.
pub proof fn lemma_unbroken_stays(s: Seq<char>)
    requires
        unbroken(s),
    ensures
        on_one_line(s) == s,
{
    reveal_strlit("Attack\n");
    reveal_strlit("Counter\n");
    reveal_strlit("\n-");
    reveal_strlit(".\n");
    reveal_strlit(" \n");
    reveal_strlit("\n");
    lemma_break_pattern_absent(s, "Attack\n"@, "Attack: "@, 6);
    lemma_absent_unchanged(swap("Attack\n"@, "Attack: "@), s);
    lemma_break_pattern_absent(s, "Counter\n"@, "Counter: "@, 7);
    lemma_absent_unchanged(swap("Counter\n"@, "Counter: "@), s);
    lemma_break_pattern_absent(s, "\n-"@, " -"@, 0);
    lemma_absent_unchanged(swap("\n-"@, " -"@), s);
    lemma_break_pattern_absent(s, ".\n"@, "."@, 1);
    lemma_absent_unchanged(swap(".\n"@, "."@), s);
    lemma_break_pattern_absent(s, " \n"@, " "@, 1);
    lemma_absent_unchanged(swap(" \n"@, " "@), s);
    lemma_break_pattern_absent(s, "\n"@, ": "@, 0);
    lemma_absent_unchanged(swap("\n"@, ": "@), s);
}

/// Where a placeholder stands does not depend on the parameters.
proof fn lemma_placeholder_absent(s: Seq<char>, params: Seq<Seq<char>>)
    requires
        fill_in(Seq::empty()).absent(s),
    ensures
        fill_in(params).absent(s),
{
    assert forall|i: int| 0 <= i < s.len() implies #[trigger] fill_in(params).match_end(s, i)
        == i by {
        assert(fill_in(Seq::empty()).match_end(s, i) == i);
    }
}

/// Rendering leaves a text as it is when the text holds no placeholder, no
/// markup and no line break, whatever the parameters.
pub proof fn lemma_plain_text_unchanged(s: Seq<char>, params: Seq<Seq<char>>)
    requires
        plain(s),
        unbroken(s),
    ensures
        rendered(s, params) == s,
{
    lemma_placeholder_absent(s, params);
    lemma_absent_unchanged(fill_in(params), s);
    lemma_absent_unchanged(erase_tag("<size="@, CharClass::Digit), s);
    lemma_absent_unchanged(erase_tag("<color="@, CharClass::Letter), s);
    lemma_absent_unchanged(swap("</size>"@, Seq::empty()), s);
    lemma_absent_unchanged(swap("</color>"@, Seq::empty()), s);
    lemma_unbroken_stays(s);
}

/// Rendering twice is rendering once: where what has been rendered holds
/// no placeholder and no markup any more, rendering it again, with any
/// parameters, gives the same text.
pub proof fn lemma_render_idempotent(
    template: Seq<char>,
    params: Seq<Seq<char>>,
    again: Seq<Seq<char>>,
)
    requires
        plain(rendered(template, params)),
    ensures
        rendered(rendered(template, params), again) == rendered(template, params),
{
    lemma_rendered_unbroken(template, params);
    lemma_plain_text_unchanged(rendered(template, params), again);
}

} // verus!
