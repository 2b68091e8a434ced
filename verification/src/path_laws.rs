//! Laws of JSONPath expressions: which of them are known to select safely, and which are not.

use vstd::prelude::*;

use crate::json::{items_view, Json};
use crate::path_safety::{
    ends_word, is_safe_path, lexeme, quote_at, scan_start, scanned, space, space_end, word_end,
    Filter, Lexeme, Reading, ScanView, Term,
};
use crate::response_assert::{path_fault, selected, JsonPath, SegmentNumber};

verus! {

/// A character of a plain name.
pub open spec fn plain_char(c: char) -> bool {
    ('a' <= c && c <= 'z') || ('A' <= c && c <= 'Z') || ('0' <= c && c <= '9') || c == '_'
}

/// A plain name.
pub open spec fn plain_name(s: Seq<char>) -> bool {
    s.len() > 0 && forall|i: int| 0 <= i < s.len() ==> plain_char(#[trigger] s[i])
}

/// A step of a path: a name behind a dot, or a name or an index in brackets.
pub struct PathStep {
    pub bracket: bool,
    pub name: Seq<char>,
}

/// How a step is written.
pub open spec fn step_text(step: PathStep) -> Seq<char> {
    if step.bracket {
        seq!['['] + step.name + seq![']']
    } else {
        seq!['.'] + step.name
    }
}

/// How steps are written, one after the other.
pub open spec fn steps_text(steps: Seq<PathStep>) -> Seq<char>
    decreases steps.len(),
{
    if steps.len() == 0 {
        Seq::empty()
    } else {
        step_text(steps[0]) + steps_text(steps.skip(1))
    }
}

proof fn lemma_word(path: Seq<char>, i: int, j: int)
    requires
        0 <= i <= j <= path.len(),
        forall|k: int| i <= k < j ==> plain_char(#[trigger] path[k]),
        j == path.len() || ends_word(path[j], false),
    ensures
        word_end(path, i, false) == j,
    decreases j - i,
{
    if i < j {
        assert(plain_char(path[i]));
        lemma_word(path, i + 1, j);
    }
}

proof fn lemma_step(path: Seq<char>, i: int, step: PathStep, s: ScanView)
    requires
        0 <= i,
        i + step_text(step).len() <= path.len(),
        path.subrange(i, i + step_text(step).len()) == step_text(step),
        i + step_text(step).len() == path.len() || path[i + step_text(step).len()] == '.'
            || path[i + step_text(step).len()] == '[',
        plain_name(step.name),
        s.reading == Reading::Path,
        s.filters.len() == 0,
    ensures
        scanned(path, i, s) == scanned(path, i + step_text(step).len(), s),
{
    let text = step_text(step);
    let n = step.name.len() as int;
    assert forall|k: int| 0 <= k < text.len() implies #[trigger] path[i + k] == text[k] by {
        assert(path.subrange(i, i + text.len())[k] == path[i + k]);
    }
    assert(path[i + 0] == text[0]);
    assert forall|k: int| i + 1 <= k < i + 1 + n implies plain_char(#[trigger] path[k]) by {
        assert(path[i + (k - i)] == text[k - i]);
        assert(text[k - i] == step.name[k - i - 1]);
        assert(plain_char(step.name[k - i - 1]));
    }
    assert(plain_char(path[i + 1]));
    if step.bracket {
        assert(path[i + (n + 1)] == text[n + 1]);
        assert(text[n + 1] == ']');
        lemma_word(path, i + 2, i + 1 + n);
        let bracket = s.now(Reading::Bracket { deep: false });
        assert(scanned(path, i, s) == scanned(path, i + 1, bracket));
        let index = s.now(Reading::Index { deep: false });
        assert(lexeme(path, i + 1, false).1 == i + 1 + n);
        assert(scanned(path, i + 1, bracket) == scanned(path, i + 1 + n, index));
        assert(scanned(path, i + 1 + n, index) == scanned(path, i + 2 + n, s));
    } else {
        lemma_word(path, i + 2, i + 1 + n);
        let dot = s.now(Reading::Dot);
        assert(scanned(path, i, s) == scanned(path, i + 1, dot));
        assert(lexeme(path, i + 1, false).1 == i + 1 + n);
        assert(scanned(path, i + 1, dot) == scanned(path, i + 1 + n, s));
    }
}

proof fn lemma_steps(path: Seq<char>, i: int, steps: Seq<PathStep>, s: ScanView)
    requires
        0 <= i,
        i + steps_text(steps).len() <= path.len(),
        path.subrange(i, i + steps_text(steps).len()) == steps_text(steps),
        i + steps_text(steps).len() == path.len() || path[i + steps_text(steps).len()] == '[',
        forall|k: int| 0 <= k < steps.len() ==> plain_name((#[trigger] steps[k]).name),
        s.reading == Reading::Path,
        s.filters.len() == 0,
    ensures
        scanned(path, i, s) == scanned(path, i + steps_text(steps).len(), s),
    decreases steps.len(),
{
    if steps.len() > 0 {
        let text = steps_text(steps);
        let first = step_text(steps[0]);
        let rest = steps_text(steps.skip(1));
        let j = i + first.len();
        assert(path.subrange(i, j) =~= first) by {
            assert(path.subrange(i, i + text.len()).take(first.len() as int) =~= path.subrange(
                i,
                j,
            ));
            assert(text.take(first.len() as int) =~= first);
        }
        assert(path.subrange(j, j + rest.len()) =~= rest) by {
            assert(path.subrange(i, i + text.len()).skip(first.len() as int) =~= path.subrange(
                j,
                j + rest.len(),
            ));
            assert(text.skip(first.len() as int) =~= rest);
        }
        if steps.len() > 1 {
            let next = step_text(steps.skip(1)[0]);
            assert(rest[0] == next[0]);
            assert(path.subrange(j, j + rest.len())[0] == path[j]);
        } else {
            assert(rest.len() == 0);
        }
        assert(plain_name(steps[0].name));
        lemma_step(path, i, steps[0], s);
        assert forall|k: int| 0 <= k < steps.skip(1).len() implies plain_name(
            (#[trigger] steps.skip(1)[k]).name,
        ) by {
            assert(plain_name(steps[k + 1].name));
        }
        lemma_steps(path, j, steps.skip(1), s);
    }
}

proof fn lemma_root(path: Seq<char>)
    requires
        path.len() > 0,
        path[0] == '$',
        path.len() == 1 || path[1] == '.' || path[1] == '[',
    ensures
        scanned(path, 0, scan_start()) == scanned(path, 1, scan_start().now(Reading::Path)),
{
    assert(word_end(path, 1, true) == 1);
}

/// A path of plain names and indexes from the root on selects safely.
pub proof fn lemma_plain_path(path: &str, steps: Seq<PathStep>, r: bool)
    requires
        call_ensures(is_safe_path, (path,), r),
        path@ == seq!['$'] + steps_text(steps),
        forall|k: int| 0 <= k < steps.len() ==> plain_name((#[trigger] steps[k]).name),
    ensures
        r,
{
    let text = steps_text(steps);
    assert(path@.subrange(1, 1 + text.len() as int) =~= text);
    if steps.len() > 0 {
        assert(text[0] == step_text(steps[0])[0]);
    }
    lemma_root(path@);
    lemma_steps(path@, 1, steps, scan_start().now(Reading::Path));
}

/// An expression that does not begin at the root is not known to select safely.
pub proof fn lemma_rootless(path: &str, r: bool)
    requires
        call_ensures(is_safe_path, (path,), r),
        path@.len() > 0,
        path@[0] != '$',
    ensures
        !r,
{
    let (l, end) = lexeme(path@, 0, false);
    lemma_lexeme(path@, 0);
    assert(scanned(path@, 0, scan_start()) == scanned(path@, end, scan_start().step(l)));
    lemma_stays_unsafe(path@, end, scan_start().now(Reading::Unsafe));
}

proof fn lemma_word_bounds(path: Seq<char>, i: int, root: bool)
    requires
        0 <= i <= path.len(),
    ensures
        i <= word_end(path, i, root) <= path.len(),
    decreases path.len() - i,
{
    if i < path.len() && !ends_word(path[i], root) {
        lemma_word_bounds(path, i + 1, root);
    }
}

proof fn lemma_space_bounds(path: Seq<char>, i: int)
    requires
        0 <= i <= path.len(),
    ensures
        i <= space_end(path, i) <= path.len(),
    decreases path.len() - i,
{
    if i < path.len() && space(path[i]) {
        lemma_space_bounds(path, i + 1);
    }
}

proof fn lemma_quote_bounds(path: Seq<char>, i: int, quote: char)
    requires
        0 <= i <= path.len(),
    ensures
        i <= quote_at(path, i, quote) <= path.len(),
    decreases path.len() - i,
{
    if i < path.len() && path[i] != quote {
        lemma_quote_bounds(path, i + 1, quote);
    }
}

proof fn lemma_lexeme(path: Seq<char>, i: int)
    requires
        0 <= i < path.len(),
    ensures
        i < lexeme(path, i, false).1 <= path.len(),
{
    lemma_word_bounds(path, i + 1, false);
    lemma_word_bounds(path, i + 1, true);
    lemma_space_bounds(path, i + 1);
    lemma_quote_bounds(path, i + 1, path[i]);
    let first = quote_at(path, i + 1, path[i]);
    if first < path.len() {
        lemma_quote_bounds(path, first + 1, path[i]);
    }
}

proof fn lemma_stays_unsafe(path: Seq<char>, i: int, s: ScanView)
    requires
        s.reading == Reading::Unsafe,
    ensures
        scanned(path, i, s).reading == Reading::Unsafe,
    decreases path.len() - i,
{
    if i < path.len() {
        let (l, end) = lexeme(path, i, s.reading == Reading::Term);
        if i < end <= path.len() {
            lemma_stays_unsafe(path, end, s.step(l));
        }
    }
}

/// A range with a step of zero does not select safely, whatever follows it.
pub proof fn lemma_zero_step(path: &str, steps: Seq<PathStep>, rest: Seq<char>, r: bool)
    requires
        call_ensures(is_safe_path, (path,), r),
        path@ == seq!['$'] + steps_text(steps) + seq!['[', ':', ':', '0', ']'] + rest,
        forall|k: int| 0 <= k < steps.len() ==> plain_name((#[trigger] steps[k]).name),
    ensures
        !r,
{
    let text = steps_text(steps);
    let s = scan_start().now(Reading::Path);
    let i: int = 1 + text.len() as int;
    let p = path@;
    assert(p.subrange(1, 1 + text.len() as int) =~= text);
    assert(p[i] == '[' && p[i + 1] == ':' && p[i + 2] == ':' && p[i + 3] == '0' && p[i + 4] == ']');
    if steps.len() > 0 {
        assert(text[0] == step_text(steps[0])[0]);
        assert(p[1] == text[0]);
    }
    lemma_root(p);
    lemma_steps(p, 1, steps, s);
    let bracket = s.now(Reading::Bracket { deep: false });
    let range = s.now(Reading::Range { deep: false, step: false });
    let step = s.now(Reading::Range { deep: false, step: true });
    assert(scanned(p, i, s) == scanned(p, i + 1, bracket));
    assert(scanned(p, i + 1, bracket) == scanned(p, i + 2, range));
    assert(scanned(p, i + 2, range) == scanned(p, i + 3, step));
    assert(word_end(p, i + 4, false) == i + 4);
    assert(p.subrange(i + 3, i + 4) =~= seq!['0']);
    assert(scanned(p, i + 3, step) == scanned(p, i + 4, s.now(Reading::Unsafe)));
    lemma_stays_unsafe(p, i + 4, s.now(Reading::Unsafe));
}

// ---------------------------------------------------------------------------------------------
// Filters
// ---------------------------------------------------------------------------------------------

/// An operator that compares.
pub open spec fn compares(op: Seq<char>) -> bool {
    ||| op == seq!['=', '='] || op == seq!['!', '='] || op == seq!['<', '='] || op == seq!['>', '=']
    ||| op == seq!['<'] || op == seq!['>']
}

/// A whole number of at most ten digits.
pub open spec fn small_number(s: Seq<char>) -> bool {
    0 < s.len() <= 10 && forall|i: int| 0 <= i < s.len() ==> '0' <= #[trigger] s[i] && s[i] <= '9'
}

/// One part of an expression was read.
proof fn lemma_read(path: Seq<char>, i: int, j: int, l: Lexeme, s: ScanView)
    requires
        0 <= i < j <= path.len(),
        lexeme(path, i, s.reading == Reading::Term) == (l, j),
    ensures
        scanned(path, i, s) == scanned(path, j, s.step(l)),
{
}

/// A filter that was just opened.
spec fn fresh_filter() -> Filter {
    Filter {
        rooted: false,
        deep: false,
        first: true,
        pending: false,
        comparing: false,
        compares: false,
        term: Term::Literal,
        keyed: false,
        lost: false,
        dirty: false,
        open: false,
    }
}

/// One filter is open, and so many terms were read.
spec fn in_filter(f: Filter, reading: Reading, terms: int) -> ScanView {
    ScanView { reading, filters: seq![f], least: terms, most: terms, brackets: 1 }
}

proof fn lemma_one_filter(f: Filter, g: Filter, reading: Reading, terms: int)
    ensures
        in_filter(f, reading, terms).with_filter(g) == in_filter(g, reading, terms),
        in_filter(f, reading, terms).filters.last() == f,
        in_filter(f, reading, terms).pushed(g) == in_filter(g, reading, terms + 1),
{
    assert(seq![f].drop_last().push(g) =~= seq![g]);
}

/// A comparison of a member with a number leaves nothing behind.
proof fn lemma_comparison_states()
    ensures
        ({
            let start = scan_start().now(Reading::Path);
            let f1 = Filter { term: Term::Relative, ..fresh_filter() };
            let f2 = Filter { keyed: true, ..f1 };
            let f3 = Filter { pending: true, comparing: true, compares: true, ..f2 };
            let f4 = Filter { first: false, term: Term::Literal, keyed: false, ..f3 };
            let f5 = Filter { pending: false, ..f4 };
            &&& start.step(Lexeme::Open) == start.now(Reading::Bracket { deep: false })
            &&& start.now(Reading::Bracket { deep: false }).step(Lexeme::Question) == start.now(
                Reading::Question { deep: false },
            )
            &&& start.now(Reading::Question { deep: false }).step(Lexeme::Enter) == in_filter(
                fresh_filter(),
                Reading::Term,
                0,
            )
            &&& in_filter(fresh_filter(), Reading::Term, 0).step(Lexeme::Element) == in_filter(
                f1,
                Reading::Path,
                1,
            )
            &&& in_filter(f1, Reading::Path, 1).step(Lexeme::Dot) == in_filter(f1, Reading::Dot, 1)
            &&& forall|zero: bool| #[trigger]
                in_filter(f1, Reading::Dot, 1).step(Lexeme::Word { zero }) == in_filter(
                    f2,
                    Reading::Path,
                    1,
                )
            &&& in_filter(f2, Reading::Path, 1).step(Lexeme::Compare) == in_filter(
                f3,
                Reading::Term,
                1,
            )
            &&& in_filter(f3, Reading::Term, 1).step(Lexeme::Number { finite: true })
                == in_filter(f4, Reading::Operator, 2)
            &&& in_filter(f4, Reading::Operator, 2).step(Lexeme::Leave) == in_filter(
                f5,
                Reading::Operator,
                1,
            )
            &&& in_filter(f5, Reading::Operator, 1).step(Lexeme::Close) == start
            &&& in_filter(f2, Reading::Path, 1).step(Lexeme::Leave) == in_filter(
                f2,
                Reading::Operator,
                1,
            )
            &&& in_filter(f2, Reading::Operator, 1).step(Lexeme::Close) == start
            &&& in_filter(f3, Reading::Term, 1).step(Lexeme::Number { finite: false }).reading
                == Reading::Unsafe
        }),
{
    let start = scan_start().now(Reading::Path);
    let f1 = Filter { term: Term::Relative, ..fresh_filter() };
    let f2 = Filter { keyed: true, ..f1 };
    let f3 = Filter { pending: true, comparing: true, compares: true, ..f2 };
    let f4 = Filter { first: false, term: Term::Literal, keyed: false, ..f3 };
    let f5 = Filter { pending: false, ..f4 };
    assert(Seq::<Filter>::empty().push(fresh_filter()) =~= seq![fresh_filter()]);
    lemma_one_filter(fresh_filter(), f1, Reading::Term, 0);
    lemma_one_filter(f1, f2, Reading::Dot, 1);
    lemma_one_filter(f2, f3, Reading::Path, 1);
    lemma_one_filter(f3, f4, Reading::Term, 1);
    lemma_one_filter(f4, f5, Reading::Operator, 2);
    assert(seq![f5].drop_last() =~= Seq::<Filter>::empty());
    assert(seq![f2].drop_last() =~= Seq::<Filter>::empty());
}

/// How a comparison of a member with a number is written.
pub open spec fn comparison_text(name: Seq<char>, op: Seq<char>, number: Seq<char>) -> Seq<char> {
    seq!['[', '?', '(', '@', '.'] + name + op + number + seq![')', ']']
}

/// How a filter by a member is written.
pub open spec fn presence_text(name: Seq<char>) -> Seq<char> {
    seq!['[', '?', '(', '@', '.'] + name + seq![')', ']']
}

/// The beginning of a filter up to the name of a member.
proof fn lemma_filter_head(p: Seq<char>, i: int, n: int)
    requires
        0 <= i,
        n > 0,
        i + 5 + n < p.len(),
        p[i] == '[' && p[i + 1] == '?' && p[i + 2] == '(' && p[i + 3] == '@' && p[i + 4] == '.',
        forall|k: int| i + 5 <= k < i + 5 + n ==> plain_char(#[trigger] p[k]),
        ends_word(p[i + 5 + n], false),
    ensures
        ({
            let start = scan_start().now(Reading::Path);
            let f2 = Filter { term: Term::Relative, keyed: true, ..fresh_filter() };
            scanned(p, i, start) == scanned(p, i + 5 + n, in_filter(f2, Reading::Path, 1))
        }),
{
    lemma_comparison_states();
    let start = scan_start().now(Reading::Path);
    let f1 = Filter { term: Term::Relative, ..fresh_filter() };
    lemma_read(p, i, i + 1, Lexeme::Open, start);
    lemma_read(p, i + 1, i + 2, Lexeme::Question, start.now(Reading::Bracket { deep: false }));
    lemma_read(p, i + 2, i + 3, Lexeme::Enter, start.now(Reading::Question { deep: false }));
    lemma_read(p, i + 3, i + 4, Lexeme::Element, in_filter(fresh_filter(), Reading::Term, 0));
    lemma_read(p, i + 4, i + 5, Lexeme::Dot, in_filter(f1, Reading::Path, 1));
    assert(plain_char(p[i + 5]));
    lemma_word(p, i + 6, i + 5 + n);
    let zero = crate::path_safety::is_zero(p.subrange(i + 5, i + 5 + n));
    lemma_read(p, i + 5, i + 5 + n, Lexeme::Word { zero }, in_filter(f1, Reading::Dot, 1));
}

/// The end of a filter that compares, from the operator on.
proof fn lemma_filter_tail(p: Seq<char>, i: int, op: Seq<char>, m: int)
    requires
        0 <= i,
        0 < m <= 10,
        compares(op),
        i + op.len() + m + 2 <= p.len(),
        forall|k: int| 0 <= k < op.len() ==> p[i + k] == #[trigger] op[k],
        forall|k: int|
            i + op.len() <= k < i + op.len() + m ==> '0' <= #[trigger] p[k] && p[k] <= '9',
        p[i + op.len() + m] == ')',
        p[i + op.len() + m + 1] == ']',
    ensures
        ({
            let start = scan_start().now(Reading::Path);
            let f2 = Filter { term: Term::Relative, keyed: true, ..fresh_filter() };
            scanned(p, i, in_filter(f2, Reading::Path, 1)) == scanned(
                p,
                i + op.len() + m + 2,
                start,
            )
        }),
{
    lemma_comparison_states();
    let f2 = Filter { term: Term::Relative, keyed: true, ..fresh_filter() };
    let f3 = Filter { pending: true, comparing: true, compares: true, ..f2 };
    let f4 = Filter { first: false, term: Term::Literal, keyed: false, ..f3 };
    let f5 = Filter { pending: false, ..f4 };
    let j = i + op.len();
    assert(p[i + 0] == op[0]);
    if op.len() == 2 {
        assert(p[i + 1] == op[1]);
    } else {
        assert('0' <= p[j] && p[j] <= '9');
    }
    lemma_read(p, i, j, Lexeme::Compare, in_filter(f2, Reading::Path, 1));
    assert('0' <= p[j] && p[j] <= '9');
    assert forall|k: int| j + 1 <= k < j + m implies plain_char(#[trigger] p[k]) by {
        assert('0' <= p[k] && p[k] <= '9');
    }
    lemma_word(p, j + 1, j + m);
    let text = p.subrange(j, j + m);
    assert(crate::path_safety::is_finite(text)) by {
        assert forall|k: int| 0 <= k < text.len() implies crate::path_safety::short_number_char(
            text,
            k,
        ) by {
            assert(text[k] == p[j + k]);
            assert('0' <= p[j + k] && p[j + k] <= '9');
        }
    }
    lemma_read(p, j, j + m, Lexeme::Number { finite: true }, in_filter(f3, Reading::Term, 1));
    lemma_read(p, j + m, j + m + 1, Lexeme::Leave, in_filter(f4, Reading::Operator, 2));
    lemma_read(p, j + m + 1, j + m + 2, Lexeme::Close, in_filter(f5, Reading::Operator, 1));
}

/// A filter that compares a member with a number selects safely, between plain steps.
pub proof fn lemma_comparison(
    path: &str,
    steps: Seq<PathStep>,
    name: Seq<char>,
    op: Seq<char>,
    number: Seq<char>,
    more: Seq<PathStep>,
    r: bool,
)
    requires
        call_ensures(is_safe_path, (path,), r),
        plain_name(name),
        compares(op),
        small_number(number),
        forall|k: int| 0 <= k < steps.len() ==> plain_name((#[trigger] steps[k]).name),
        forall|k: int| 0 <= k < more.len() ==> plain_name((#[trigger] more[k]).name),
        path@ == seq!['$'] + steps_text(steps) + comparison_text(name, op, number) + steps_text(more),
    ensures
        r,
{
    let p = path@;
    let text = steps_text(steps);
    let filter = comparison_text(name, op, number);
    let i: int = 1 + text.len() as int;
    let n = name.len() as int;
    let m = number.len() as int;
    let start = scan_start().now(Reading::Path);
    lemma_to_filter(p, steps, filter, steps_text(more));
    assert forall|k: int| 0 <= k < filter.len() implies #[trigger] p[i + k] == filter[k] by {}
    assert(p[i + 0] == '[' && p[i + 1] == '?' && p[i + 2] == '(' && p[i + 3] == '@' && p[i + 4]
        == '.');
    assert forall|k: int| i + 5 <= k < i + 5 + n implies plain_char(#[trigger] p[k]) by {
        assert(p[i + (k - i)] == filter[k - i]);
        assert(filter[k - i] == name[k - i - 5]);
        assert(plain_char(name[k - i - 5]));
    }
    let j = i + 5 + n;
    assert forall|k: int| 0 <= k < op.len() implies p[j + k] == #[trigger] op[k] by {
        assert(p[i + (5 + n + k)] == filter[5 + n + k]);
    }
    assert forall|k: int| j + op.len() <= k < j + op.len() + m implies '0' <= #[trigger] p[k]
        && p[k] <= '9' by {
        let at = k - j - op.len();
        assert(p[i + (k - i)] == filter[k - i]);
        assert(filter[k - i] == number[at]);
        assert('0' <= number[at] && number[at] <= '9');
    }
    assert(p[i + (5 + n + op.len() + m)] == ')');
    assert(p[i + (5 + n + op.len() + m + 1)] == ']');
    assert(p[j + 0] == op[0]);
    lemma_filter_head(p, i, n);
    lemma_filter_tail(p, j, op, m);
    let end = j + op.len() + m + 2;
    assert(p.subrange(end, end + steps_text(more).len()) =~= steps_text(more));
    lemma_steps(p, end, more, start);
}

/// The way to a filter: the root and plain steps.
proof fn lemma_to_filter(p: Seq<char>, steps: Seq<PathStep>, filter: Seq<char>, rest: Seq<char>)
    requires
        p == seq!['$'] + steps_text(steps) + filter + rest,
        filter.len() > 0,
        filter[0] == '[',
        forall|k: int| 0 <= k < steps.len() ==> plain_name((#[trigger] steps[k]).name),
    ensures
        scanned(p, 0, scan_start()) == scanned(
            p,
            1 + steps_text(steps).len() as int,
            scan_start().now(Reading::Path),
        ),
{
    let text = steps_text(steps);
    assert(p.subrange(1, 1 + text.len() as int) =~= text);
    assert(p[1 + text.len() as int] == filter[0]);
    if steps.len() > 0 {
        assert(text[0] == step_text(steps[0])[0]);
        assert(p[1] == text[0]);
    }
    lemma_root(p);
    lemma_steps(p, 1, steps, scan_start().now(Reading::Path));
}

/// A comparison that is joined to the one before: the sign stands twice.
pub struct Joined {
    pub sign: char,
    pub name: Seq<char>,
    pub op: Seq<char>,
    pub number: Seq<char>,
}

/// A comparison as it can be joined to another.
pub open spec fn joinable(c: Joined) -> bool {
    (c.sign == '&' || c.sign == '|') && plain_name(c.name) && compares(c.op) && small_number(
        c.number,
    )
}

/// How a comparison is written that is joined to another.
pub open spec fn joined_text(c: Joined) -> Seq<char> {
    seq![c.sign, c.sign, '@', '.'] + c.name + c.op + c.number
}

/// How comparisons are written that are joined to another.
pub open spec fn all_joined_text(list: Seq<Joined>) -> Seq<char>
    decreases list.len(),
{
    if list.len() == 0 {
        Seq::empty()
    } else {
        joined_text(list[0]) + all_joined_text(list.skip(1))
    }
}

/// The number of a comparison was read.
spec fn compared() -> ScanView {
    in_filter(
        (Filter {
            first: false,
            pending: true,
            comparing: true,
            compares: true,
            ..fresh_filter()
        }),
        Reading::Operator,
        2,
    )
}

proof fn lemma_joined_states()
    ensures
        ({
            let j1 = Filter {
                first: false,
                pending: true,
                compares: true,
                ..fresh_filter()
            };
            let j2 = Filter { term: Term::Relative, ..j1 };
            let j3 = Filter { keyed: true, ..j2 };
            let j5 = Filter { comparing: true, ..j3 };
            &&& compared().step(Lexeme::Join) == in_filter(j1, Reading::Term, 1)
            &&& in_filter(j1, Reading::Term, 1).step(Lexeme::Element) == in_filter(
                j2,
                Reading::Path,
                2,
            )
            &&& in_filter(j2, Reading::Path, 2).step(Lexeme::Dot) == in_filter(j2, Reading::Dot, 2)
            &&& forall|zero: bool| #[trigger]
                in_filter(j2, Reading::Dot, 2).step(Lexeme::Word { zero }) == in_filter(
                    j3,
                    Reading::Path,
                    2,
                )
            &&& in_filter(j3, Reading::Path, 2).step(Lexeme::Compare) == in_filter(
                j5,
                Reading::Term,
                1,
            )
            &&& in_filter(j5, Reading::Term, 1).step(Lexeme::Number { finite: true }) == compared()
        }),
{
    let f4 = compared().filters[0];
    let f5 = Filter { pending: false, ..f4 };
    let j1 = Filter { first: false, pending: true, compares: true, ..fresh_filter() };
    let j2 = Filter { term: Term::Relative, ..j1 };
    let j3 = Filter { keyed: true, ..j2 };
    let j4 = Filter { pending: false, ..j3 };
    let j5 = Filter { comparing: true, ..j3 };
    lemma_one_filter(f4, f5, Reading::Operator, 2);
    lemma_one_filter(f5, j1, Reading::Operator, 1);
    lemma_one_filter(j1, j2, Reading::Term, 1);
    lemma_one_filter(j2, j3, Reading::Dot, 2);
    lemma_one_filter(j3, j4, Reading::Path, 2);
    lemma_one_filter(j4, j5, Reading::Path, 1);
    lemma_one_filter(j5, f4, Reading::Term, 1);
}

/// An operator and a number, up to what ends the number.
proof fn lemma_operand(p: Seq<char>, i: int, op: Seq<char>, m: int, s: ScanView, t: ScanView)
    requires
        0 <= i,
        0 < m <= 10,
        compares(op),
        i + op.len() + m < p.len(),
        forall|k: int| 0 <= k < op.len() ==> p[i + k] == #[trigger] op[k],
        forall|k: int|
            i + op.len() <= k < i + op.len() + m ==> '0' <= #[trigger] p[k] && p[k] <= '9',
        p[i + op.len() + m] == ')' || p[i + op.len() + m] == '&' || p[i + op.len() + m] == '|',
        s.reading == Reading::Path,
        s.step(Lexeme::Compare) == t,
        t.reading == Reading::Term,
    ensures
        scanned(p, i, s) == scanned(p, i + op.len() + m, t.step(Lexeme::Number { finite: true })),
{
    let j = i + op.len();
    assert(p[i + 0] == op[0]);
    if op.len() == 2 {
        assert(p[i + 1] == op[1]);
    } else {
        assert('0' <= p[j] && p[j] <= '9');
    }
    lemma_read(p, i, j, Lexeme::Compare, s);
    assert('0' <= p[j] && p[j] <= '9');
    assert forall|k: int| j + 1 <= k < j + m implies plain_char(#[trigger] p[k]) by {
        assert('0' <= p[k] && p[k] <= '9');
    }
    lemma_word(p, j + 1, j + m);
    let text = p.subrange(j, j + m);
    assert(crate::path_safety::is_finite(text)) by {
        assert forall|k: int| 0 <= k < text.len() implies crate::path_safety::short_number_char(
            text,
            k,
        ) by {
            assert(text[k] == p[j + k]);
            assert('0' <= p[j + k] && p[j + k] <= '9');
        }
    }
    lemma_read(p, j, j + m, Lexeme::Number { finite: true }, t);
}

/// One more comparison leads back to where the one before ended.
proof fn lemma_joined_one(p: Seq<char>, i: int, c: Joined)
    requires
        0 <= i,
        joinable(c),
        i + joined_text(c).len() < p.len(),
        forall|k: int| 0 <= k < joined_text(c).len() ==> #[trigger] p[i + k] == joined_text(c)[k],
        p[i + joined_text(c).len()] == ')' || p[i + joined_text(c).len()] == '&' || p[i
            + joined_text(c).len()] == '|',
    ensures
        scanned(p, i, compared()) == scanned(p, i + joined_text(c).len(), compared()),
{
    lemma_joined_states();
    let text = joined_text(c);
    let n = c.name.len() as int;
    let m = c.number.len() as int;
    let j1 = Filter { first: false, pending: true, compares: true, ..fresh_filter() };
    let j2 = Filter { term: Term::Relative, ..j1 };
    let j3 = Filter { keyed: true, ..j2 };
    let j5 = Filter { comparing: true, ..j3 };
    assert(p[i + 0] == c.sign && p[i + 1] == c.sign && p[i + 2] == '@' && p[i + 3] == '.');
    lemma_read(p, i, i + 2, Lexeme::Join, compared());
    lemma_read(p, i + 2, i + 3, Lexeme::Element, in_filter(j1, Reading::Term, 1));
    lemma_read(p, i + 3, i + 4, Lexeme::Dot, in_filter(j2, Reading::Path, 2));
    assert forall|k: int| i + 4 <= k < i + 4 + n implies plain_char(#[trigger] p[k]) by {
        assert(p[i + (k - i)] == text[k - i]);
        assert(text[k - i] == c.name[k - i - 4]);
        assert(plain_char(c.name[k - i - 4]));
    }
    assert(plain_char(p[i + 4]));
    let j = i + 4 + n;
    assert forall|k: int| 0 <= k < c.op.len() implies p[j + k] == #[trigger] c.op[k] by {
        assert(p[i + (4 + n + k)] == text[4 + n + k]);
    }
    assert forall|k: int| j + c.op.len() <= k < j + c.op.len() + m implies '0' <= #[trigger] p[k]
        && p[k] <= '9' by {
        let at = k - j - c.op.len();
        assert(p[i + (k - i)] == text[k - i]);
        assert(text[k - i] == c.number[at]);
        assert('0' <= c.number[at] && c.number[at] <= '9');
    }
    assert(p[j + 0] == c.op[0]);
    lemma_word(p, i + 5, j);
    let zero = crate::path_safety::is_zero(p.subrange(i + 4, j));
    lemma_read(p, i + 4, j, Lexeme::Word { zero }, in_filter(j2, Reading::Dot, 2));
    lemma_operand(
        p,
        j,
        c.op,
        m,
        in_filter(j3, Reading::Path, 2),
        in_filter(j5, Reading::Term, 1),
    );
}

proof fn lemma_joined_all(p: Seq<char>, i: int, list: Seq<Joined>)
    requires
        0 <= i,
        forall|k: int| 0 <= k < list.len() ==> joinable(#[trigger] list[k]),
        i + all_joined_text(list).len() < p.len(),
        p.subrange(i, i + all_joined_text(list).len()) == all_joined_text(list),
        p[i + all_joined_text(list).len()] == ')',
    ensures
        scanned(p, i, compared()) == scanned(p, i + all_joined_text(list).len(), compared()),
    decreases list.len(),
{
    if list.len() > 0 {
        let all = all_joined_text(list);
        let first = joined_text(list[0]);
        let rest = all_joined_text(list.skip(1));
        let j = i + first.len();
        assert forall|k: int| 0 <= k < all.len() implies #[trigger] p[i + k] == all[k] by {
            assert(p.subrange(i, i + all.len())[k] == p[i + k]);
        }
        assert forall|k: int| 0 <= k < first.len() implies #[trigger] p[i + k] == first[k] by {
            assert(all[k] == first[k]);
        }
        assert(p.subrange(j, j + rest.len()) =~= rest) by {
            assert forall|k: int| 0 <= k < rest.len() implies p.subrange(j, j + rest.len())[k]
                == rest[k] by {
                assert(p[i + (first.len() + k)] == all[first.len() + k]);
            }
        }
        assert(joinable(list[0]));
        if list.len() > 1 {
            let next = list.skip(1)[0];
            assert(joinable(list[1]));
            assert(next == list[1]);
            assert(rest[0] == joined_text(next)[0]);
            assert(p.subrange(j, j + rest.len())[0] == p[j]);
        } else {
            assert(rest.len() == 0);
        }
        lemma_joined_one(p, i, list[0]);
        assert forall|k: int| 0 <= k < list.skip(1).len() implies joinable(
            #[trigger] list.skip(1)[k],
        ) by {
            assert(joinable(list[k + 1]));
        }
        lemma_joined_all(p, j, list.skip(1));
    }
}

/// A filter of any number of comparisons, joined by `&&` and `||`, selects safely between plain
/// steps.
pub proof fn lemma_joined_comparisons(
    path: &str,
    steps: Seq<PathStep>,
    name: Seq<char>,
    op: Seq<char>,
    number: Seq<char>,
    list: Seq<Joined>,
    more: Seq<PathStep>,
    r: bool,
)
    requires
        call_ensures(is_safe_path, (path,), r),
        plain_name(name),
        compares(op),
        small_number(number),
        forall|k: int| 0 <= k < list.len() ==> joinable(#[trigger] list[k]),
        forall|k: int| 0 <= k < steps.len() ==> plain_name((#[trigger] steps[k]).name),
        forall|k: int| 0 <= k < more.len() ==> plain_name((#[trigger] more[k]).name),
        path@ == seq!['$'] + steps_text(steps) + (seq!['[', '?', '(', '@', '.'] + name + op + number
            + all_joined_text(list) + seq![')', ']']) + steps_text(more),
    ensures
        r,
{
    let p = path@;
    let joins = all_joined_text(list);
    let filter = seq!['[', '?', '(', '@', '.'] + name + op + number + joins + seq![')', ']'];
    let i: int = 1 + steps_text(steps).len() as int;
    let n = name.len() as int;
    let m = number.len() as int;
    let start = scan_start().now(Reading::Path);
    lemma_to_filter(p, steps, filter, steps_text(more));
    assert forall|k: int| 0 <= k < filter.len() implies #[trigger] p[i + k] == filter[k] by {}
    assert(p[i + 0] == '[' && p[i + 1] == '?' && p[i + 2] == '(' && p[i + 3] == '@' && p[i + 4]
        == '.');
    assert forall|k: int| i + 5 <= k < i + 5 + n implies plain_char(#[trigger] p[k]) by {
        assert(p[i + (k - i)] == filter[k - i]);
        assert(filter[k - i] == name[k - i - 5]);
        assert(plain_char(name[k - i - 5]));
    }
    let j = i + 5 + n;
    assert forall|k: int| 0 <= k < op.len() implies p[j + k] == #[trigger] op[k] by {
        assert(p[i + (5 + n + k)] == filter[5 + n + k]);
    }
    assert forall|k: int| j + op.len() <= k < j + op.len() + m implies '0' <= #[trigger] p[k]
        && p[k] <= '9' by {
        let at = k - j - op.len();
        assert(p[i + (k - i)] == filter[k - i]);
        assert(filter[k - i] == number[at]);
        assert('0' <= number[at] && number[at] <= '9');
    }
    let q: int = j + op.len() + m;
    let e: int = q + joins.len();
    assert(p.subrange(q, e) =~= joins) by {
        assert forall|k: int| 0 <= k < joins.len() implies p.subrange(q, e)[k] == joins[k] by {
            assert(p[i + (5 + n + op.len() + m + k)] == filter[5 + n + op.len() + m + k]);
        }
    }
    assert(p[i + (5 + n + op.len() + m + joins.len())] == ')');
    assert(p[i + (5 + n + op.len() + m + joins.len() + 1)] == ']');
    assert(p[j + 0] == op[0]);
    if list.len() > 0 {
        assert(joinable(list[0]));
        assert(joins[0] == joined_text(list[0])[0]);
        assert(p.subrange(q, e)[0] == p[q]);
    }
    lemma_filter_head(p, i, n);
    lemma_comparison_states();
    let f2 = Filter { term: Term::Relative, keyed: true, ..fresh_filter() };
    let f3 = Filter { pending: true, comparing: true, compares: true, ..f2 };
    lemma_operand(
        p,
        j,
        op,
        m,
        in_filter(f2, Reading::Path, 1),
        in_filter(f3, Reading::Term, 1),
    );
    lemma_joined_all(p, q, list);
    let f4 = Filter { first: false, term: Term::Literal, keyed: false, ..f3 };
    let f5 = Filter { pending: false, ..f4 };
    assert(compared() == in_filter(f4, Reading::Operator, 2));
    lemma_read(p, e, e + 1, Lexeme::Leave, compared());
    lemma_read(p, e + 1, e + 2, Lexeme::Close, in_filter(f5, Reading::Operator, 1));
    let end = e + 2;
    assert(p.subrange(end, end + steps_text(more).len()) =~= steps_text(more));
    lemma_steps(p, end, more, start);
}

/// A filter by whether a member is there selects safely, between plain steps.
pub proof fn lemma_presence(
    path: &str,
    steps: Seq<PathStep>,
    name: Seq<char>,
    more: Seq<PathStep>,
    r: bool,
)
    requires
        call_ensures(is_safe_path, (path,), r),
        plain_name(name),
        forall|k: int| 0 <= k < steps.len() ==> plain_name((#[trigger] steps[k]).name),
        forall|k: int| 0 <= k < more.len() ==> plain_name((#[trigger] more[k]).name),
        path@ == seq!['$'] + steps_text(steps) + presence_text(name) + steps_text(more),
    ensures
        r,
{
    let p = path@;
    let text = steps_text(steps);
    let filter = presence_text(name);
    let i: int = 1 + text.len() as int;
    let n = name.len() as int;
    let start = scan_start().now(Reading::Path);
    let f2 = Filter { term: Term::Relative, keyed: true, ..fresh_filter() };
    lemma_to_filter(p, steps, filter, steps_text(more));
    assert forall|k: int| 0 <= k < filter.len() implies #[trigger] p[i + k] == filter[k] by {}
    assert(p[i + 0] == '[' && p[i + 1] == '?' && p[i + 2] == '(' && p[i + 3] == '@' && p[i + 4]
        == '.');
    assert forall|k: int| i + 5 <= k < i + 5 + n implies plain_char(#[trigger] p[k]) by {
        assert(p[i + (k - i)] == filter[k - i]);
        assert(filter[k - i] == name[k - i - 5]);
        assert(plain_char(name[k - i - 5]));
    }
    let j = i + 5 + n;
    assert(p[i + (5 + n)] == ')');
    assert(p[i + (5 + n + 1)] == ']');
    lemma_filter_head(p, i, n);
    lemma_comparison_states();
    lemma_read(p, j, j + 1, Lexeme::Leave, in_filter(f2, Reading::Path, 1));
    lemma_read(p, j + 1, j + 2, Lexeme::Close, in_filter(f2, Reading::Operator, 1));
    assert(p.subrange(j + 2, j + 2 + steps_text(more).len()) =~= steps_text(more));
    lemma_steps(p, j + 2, more, start);
}

/// An index in a filter that compares is not known to select safely, whatever follows it.
pub proof fn lemma_indexed_comparison(
    path: &str,
    steps: Seq<PathStep>,
    name: Seq<char>,
    index: Seq<char>,
    op: Seq<char>,
    number: Seq<char>,
    rest: Seq<char>,
    r: bool,
)
    requires
        call_ensures(is_safe_path, (path,), r),
        plain_name(name),
        plain_name(index),
        compares(op),
        small_number(number),
        forall|k: int| 0 <= k < steps.len() ==> plain_name((#[trigger] steps[k]).name),
        path@ == seq!['$'] + steps_text(steps) + (seq!['[', '?', '(', '@', '.'] + name + seq!['[']
            + index + seq![']'] + op + number + seq![')', ']']) + rest,
    ensures
        !r,
{
    let p = path@;
    let filter = seq!['[', '?', '(', '@', '.'] + name + seq!['['] + index + seq![']'] + op + number
        + seq![')', ']'];
    let i: int = 1 + steps_text(steps).len() as int;
    let n = name.len() as int;
    let x = index.len() as int;
    let m = number.len() as int;
    lemma_to_filter(p, steps, filter, rest);
    assert forall|k: int| 0 <= k < filter.len() implies #[trigger] p[i + k] == filter[k] by {}
    assert(p[i + 0] == '[' && p[i + 1] == '?' && p[i + 2] == '(' && p[i + 3] == '@' && p[i + 4]
        == '.');
    assert forall|k: int| i + 5 <= k < i + 5 + n implies plain_char(#[trigger] p[k]) by {
        assert(p[i + (k - i)] == filter[k - i]);
        assert(filter[k - i] == name[k - i - 5]);
        assert(plain_char(name[k - i - 5]));
    }
    let j = i + 5 + n;
    assert(p[i + (5 + n)] == '[');
    assert forall|k: int| j + 1 <= k < j + 1 + x implies plain_char(#[trigger] p[k]) by {
        assert(p[i + (k - i)] == filter[k - i]);
        assert(filter[k - i] == index[k - j - 1]);
        assert(plain_char(index[k - j - 1]));
    }
    assert(p[i + (6 + n + x)] == ']');
    lemma_filter_head(p, i, n);
    let f2 = Filter { term: Term::Relative, keyed: true, ..fresh_filter() };
    let g = Filter { lost: true, dirty: true, ..f2 };
    let s0 = in_filter(f2, Reading::Path, 1);
    let s1 = in_filter(f2, Reading::Bracket { deep: false }, 1);
    let s2 = in_filter(f2, Reading::Index { deep: false }, 1);
    let s3 = ScanView {
        reading: Reading::Path,
        filters: seq![g],
        least: 0,
        most: 1,
        brackets: 1,
    };
    assert(seq![f2].drop_last().push(g) =~= seq![g]);
    assert(s0.step(Lexeme::Open) == s1);
    assert(plain_char(p[j + 1]));
    lemma_word(p, j + 2, j + 1 + x);
    let zero = crate::path_safety::is_zero(p.subrange(j + 1, j + 1 + x));
    assert(s1.step(Lexeme::Word { zero }) == s2);
    assert(s2.step(Lexeme::Close) == s3);
    lemma_read(p, j, j + 1, Lexeme::Open, s0);
    lemma_read(p, j + 1, j + 1 + x, Lexeme::Word { zero }, s1);
    lemma_read(p, j + 1 + x, j + 2 + x, Lexeme::Close, s2);
    let k0 = j + 2 + x;
    assert(filter.skip(k0 - i) =~= op + number + seq![')', ']']);
    lemma_lost_comparison(p, k0, op, m, g, filter, i, number);
}

/// A comparison with a term that may be lost is not known to select safely.
proof fn lemma_lost_comparison(
    p: Seq<char>,
    i: int,
    op: Seq<char>,
    m: int,
    g: Filter,
    filter: Seq<char>,
    from: int,
    number: Seq<char>,
)
    requires
        0 <= from < i,
        compares(op),
        small_number(number),
        m == number.len(),
        g == (Filter {
            term: Term::Relative,
            keyed: true,
            lost: true,
            dirty: true,
            ..fresh_filter()
        }),
        i + op.len() + m + 2 <= p.len(),
        filter.len() == i + op.len() + m + 2 - from,
        forall|k: int| 0 <= k < filter.len() ==> #[trigger] p[from + k] == filter[k],
        filter.skip(i - from) == op + number + seq![')', ']'],
    ensures
        scanned(
            p,
            i,
            (ScanView {
                reading: Reading::Path,
                filters: seq![g],
                least: 0,
                most: 1,
                brackets: 1,
            }),
        ).reading == Reading::Unsafe,
{
    let tail = op + number + seq![')', ']'];
    assert forall|k: int| 0 <= k < tail.len() implies #[trigger] p[i + k] == tail[k] by {
        assert(p[from + (i - from + k)] == filter[i - from + k]);
        assert(filter.skip(i - from)[k] == filter[i - from + k]);
    }
    let j = i + op.len();
    let s3 = ScanView { reading: Reading::Path, filters: seq![g], least: 0, most: 1, brackets: 1 };
    let h = Filter { pending: true, comparing: true, compares: true, ..g };
    let s4 = ScanView { reading: Reading::Term, filters: seq![h], least: 0, most: 1, brackets: 1 };
    let q = Filter { first: false, term: Term::Literal, keyed: false, lost: false, ..h };
    let s5 = ScanView {
        reading: Reading::Operator,
        filters: seq![q],
        least: 1,
        most: 2,
        brackets: 1,
    };
    assert(seq![g].drop_last().push(h) =~= seq![h]);
    assert(seq![h].drop_last().push(q) =~= seq![q]);
    assert(s3.step(Lexeme::Compare) == s4);
    assert(s4.step(Lexeme::Number { finite: true }) == s5);
    assert(s5.step(Lexeme::Leave).reading == Reading::Unsafe);
    assert(p[i + 0] == op[0]);
    assert forall|k: int| 0 <= k < m implies '0' <= #[trigger] p[j + k] && p[j + k] <= '9' by {
        assert(p[i + (op.len() + k)] == tail[op.len() + k]);
        assert(tail[op.len() + k] == number[k]);
    }
    assert('0' <= p[j + 0] && p[j + 0] <= '9');
    if op.len() == 2 {
        assert(p[i + 1] == op[1]);
    }
    assert(p[i + (op.len() + m)] == ')');
    lemma_read(p, i, j, Lexeme::Compare, s3);
    assert forall|k: int| j + 1 <= k < j + m implies plain_char(#[trigger] p[k]) by {
        assert('0' <= p[j + (k - j)] && p[j + (k - j)] <= '9');
    }
    lemma_word(p, j + 1, j + m);
    let text = p.subrange(j, j + m);
    assert(crate::path_safety::is_finite(text)) by {
        assert forall|k: int| 0 <= k < text.len() implies crate::path_safety::short_number_char(
            text,
            k,
        ) by {
            assert(text[k] == p[j + k]);
        }
    }
    lemma_read(p, j, j + m, Lexeme::Number { finite: true }, s4);
    lemma_read(p, j + m, j + m + 1, Lexeme::Leave, s5);
    lemma_stays_unsafe(p, j + m + 1, s5.step(Lexeme::Leave));
}

/// An expression is kept as it is written, where it is one; otherwise the reason is told.
pub proof fn lemma_path_read(value: &str, r: Result<JsonPath, String>, text: &str, safe: bool, same: bool)
    requires
        call_ensures(JsonPath::try_from, (value,), r),
        r matches Ok(p) ==> call_ensures(JsonPath::path, (&p,), text),
        r matches Ok(p) ==> call_ensures(JsonPath::is_safe, (&p,), safe),
        call_ensures(is_safe_path, (value,), same),
    ensures
        r is Ok <==> path_fault(value@) is None,
        r is Ok ==> text@ == value@ && safe == same,
        r matches Err(e) ==> e@ == "Error creating json path: "@ + path_fault(value@)->0,
{
}

/// An expression selects the same of equal values, whoever asks.
pub proof fn lemma_path_selects(
    value: &str,
    path: JsonPath,
    json: Json,
    r: Result<Vec<Json>, String>,
)
    requires
        call_ensures(JsonPath::try_from, (value,), Ok(path)),
        crate::path_safety::selects_safely(value@),
        call_ensures(JsonPath::select, (&path, &json), r),
    ensures
        match r {
            Ok(found) => selected(value@, json@) == Ok::<_, Seq<char>>(items_view(found@)),
            Err(e) => selected(value@, json@) == Err::<Seq<crate::json::JsonView>, _>(e@),
        },
{
}

/// The number of a segment is any but zero.
pub proof fn lemma_segment_number(n: u8, r: Option<SegmentNumber>, got: u8)
    requires
        call_ensures(SegmentNumber::new, (n,), r),
        r matches Some(s) ==> call_ensures(SegmentNumber::get, (&s,), got),
    ensures
        r is Some <==> n > 0,
        r is Some ==> got == n,
{
}

} // verus!
