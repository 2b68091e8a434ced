//! On which JSONPath expressions selection does not panic.
//!
//! `jsonpath_lib` evaluates an expression as it is written, from left to right, and keeps the terms
//! of filters on a stack. Selection panics
//!
//! - on a range with step zero,
//! - on a number in a filter that is infinite,
//! - on a range, or a list of names or numbers, while there are terms on the stack,
//! - where an operator finds fewer than two terms, since a step of a path took one away,
//! - where a step of a path finds a term on the stack that is no part of the document.
//!
//! Here an expression is read in the same order, and the number of terms is followed: how many there
//! are at least, and at most, whatever the document holds. An expression is taken as safe only where
//! selection panics on no document. Left out besides are a few expressions with filters in filters,
//! in which several steps take terms away, or a path from the root on goes on behind its filter.

use vstd::prelude::*;

use crate::text::{chars_of, text_of};

verus! {

// ---------------------------------------------------------------------------------------------
// Words and signs
// ---------------------------------------------------------------------------------------------

/// A part of an expression.
#[derive(Clone, Copy, Debug, PartialEq, Eq, Structural)]
pub enum Lexeme {
    /// `$`
    Root,
    /// `@`
    Element,
    /// `.`
    Dot,
    /// `*`
    Star,
    /// `[`
    Open,
    /// `]`
    Close,
    /// `(`
    Enter,
    /// `)`
    Leave,
    /// `?`
    Question,
    /// `,`
    Comma,
    /// `:`
    Colon,
    /// One of `==`, `!=`, `<`, `<=`, `>` and `>=`.
    Compare,
    /// `&&` or `||`
    Join,
    /// White space.
    Space,
    /// A text in quotes.
    Quoted,
    /// A name, an index, or a truth value; whether it is zero.
    Word { zero: bool },
    /// A number in a filter; whether it is finite.
    Number { finite: bool },
    /// What is no part of an expression.
    Fault,
}

/// White space, as Unicode has it.
pub open spec fn space(c: char) -> bool {
    ||| '\t' <= c <= '\r'
    ||| c == ' ' || c == '\u{85}' || c == '\u{a0}' || c == '\u{1680}'
    ||| '\u{2000}' <= c <= '\u{200a}'
    ||| c == '\u{2028}' || c == '\u{2029}' || c == '\u{202f}' || c == '\u{205f}' || c == '\u{3000}'
}

fn is_space(c: char) -> (r: bool)
    ensures
        r == space(c),
{
    ('\t' <= c && c <= '\r') || c == ' ' || c == '\u{85}' || c == '\u{a0}' || c == '\u{1680}' || (
    '\u{2000}' <= c && c <= '\u{200a}') || c == '\u{2028}' || c == '\u{2029}' || c == '\u{202f}'
        || c == '\u{205f}' || c == '\u{3000}'
}

/// A character that ends a word. In a word that begins with `$`, another one does not.
pub open spec fn ends_word(c: char, root: bool) -> bool {
    ||| c == '.' || c == '*' || c == '[' || c == ']' || c == '(' || c == ')' || c == '@'
    ||| c == '?' || c == ',' || c == ':' || c == '<' || c == '>' || c == '=' || c == '&'
    ||| c == '|' || c == '!' || space(c)
    ||| c == '$' && !root
}

fn is_word_end(c: char, root: bool) -> (r: bool)
    ensures
        r == ends_word(c, root),
{
    c == '.' || c == '*' || c == '[' || c == ']' || c == '(' || c == ')' || c == '@' || c == '?'
        || c == ',' || c == ':' || c == '<' || c == '>' || c == '=' || c == '&' || c == '|' || c
        == '!' || is_space(c) || (c == '$' && !root)
}

/// Where a word that goes on at `i` ends.
pub open spec fn word_end(path: Seq<char>, i: int, root: bool) -> int
    decreases path.len() - i,
{
    if i >= path.len() || ends_word(path[i], root) {
        i
    } else {
        word_end(path, i + 1, root)
    }
}

fn find_word_end(path: &Vec<char>, i: usize, root: bool) -> (r: usize)
    requires
        i <= path@.len(),
    ensures
        r == word_end(path@, i as int, root),
        i <= r <= path@.len(),
{
    let mut r: usize = i;
    while r < path.len() && !is_word_end(path[r], root)
        invariant
            i <= r <= path@.len(),
            word_end(path@, i as int, root) == word_end(path@, r as int, root),
        decreases path@.len() - r,
    {
        r += 1;
    }
    r
}

/// Where white space that goes on at `i` ends.
pub open spec fn space_end(path: Seq<char>, i: int) -> int
    decreases path.len() - i,
{
    if i >= path.len() || !space(path[i]) {
        i
    } else {
        space_end(path, i + 1)
    }
}

fn find_space_end(path: &Vec<char>, i: usize) -> (r: usize)
    requires
        i <= path@.len(),
    ensures
        r == space_end(path@, i as int),
        i <= r <= path@.len(),
{
    let mut r: usize = i;
    while r < path.len() && is_space(path[r])
        invariant
            i <= r <= path@.len(),
            space_end(path@, i as int) == space_end(path@, r as int),
        decreases path@.len() - r,
    {
        r += 1;
    }
    r
}

/// Where the next `quote` is, from `i` on.
pub open spec fn quote_at(path: Seq<char>, i: int, quote: char) -> int
    decreases path.len() - i,
{
    if i >= path.len() || path[i] == quote {
        i
    } else {
        quote_at(path, i + 1, quote)
    }
}

fn find_quote(path: &Vec<char>, i: usize, quote: char) -> (r: usize)
    requires
        i <= path@.len(),
    ensures
        r == quote_at(path@, i as int, quote),
        i <= r <= path@.len(),
{
    let mut r: usize = i;
    while r < path.len() && path[r] != quote
        invariant
            i <= r <= path@.len(),
            quote_at(path@, i as int, quote) == quote_at(path@, r as int, quote),
        decreases path@.len() - r,
    {
        r += 1;
    }
    r
}

/// The quote that ends a text which begins behind `i`, if there is one. One quote may stand in the
/// text, behind a backslash.
pub open spec fn closing_quote(path: Seq<char>, i: int) -> Option<int> {
    let first = quote_at(path, i + 1, path[i]);
    if first >= path.len() {
        None
    } else if first > i + 1 && path[first - 1] == '\\' {
        let second = quote_at(path, first + 1, path[i]);
        if second >= path.len() {
            None
        } else {
            Some(second)
        }
    } else {
        Some(first)
    }
}

fn find_closing_quote(path: &Vec<char>, i: usize) -> (r: Option<usize>)
    requires
        i < path@.len(),
    ensures
        match r {
            Some(end) => closing_quote(path@, i as int) == Some(end as int) && i < end
                < path@.len(),
            None => closing_quote(path@, i as int) is None,
        },
{
    let length = path.len();
    let quote = path[i];
    let first = find_quote(path, i + 1, quote);
    if first >= length {
        return None;
    }
    if first > i + 1 && path[first - 1] == '\\' {
        let second = find_quote(path, first + 1, quote);
        if second >= length {
            None
        } else {
            Some(second)
        }
    } else {
        Some(first)
    }
}

/// Nothing but zeros, behind a plus sign perhaps.
pub open spec fn is_zero(word: Seq<char>) -> bool {
    forall|i: int| 0 <= i < word.len() ==> #[trigger] word[i] == '0' || (i == 0 && word[i] == '+')
}

fn word_is_zero(path: &Vec<char>, from: usize, to: usize) -> (r: bool)
    requires
        from <= to <= path@.len(),
    ensures
        r == is_zero(path@.subrange(from as int, to as int)),
{
    let ghost word = path@.subrange(from as int, to as int);
    let mut i: usize = from;
    while i < to
        invariant
            from <= i <= to <= path@.len(),
            word == path@.subrange(from as int, to as int),
            forall|k: int|
                0 <= k < i - from ==> #[trigger] word[k] == '0' || (k == 0 && word[k] == '+'),
        decreases to - i,
    {
        let c = path[i];
        assert(word[i - from] == c);
        if c != '0' && !(i == from && c == '+') {
            return false;
        }
        i += 1;
    }
    true
}

pub open spec fn begins_number(c: char) -> bool {
    '0' <= c <= '9' || c == '-'
}

/// The text is a number that is not infinite.
pub uninterp spec fn json_number(text: Seq<char>) -> bool;

/// Whether `str::parse` reads a number of which `serde_json::Number::from_f64` makes one: it is not
/// infinite then. That is a function of the text: [`json_number`].
#[verifier::external_body]
fn is_json_number(text: &str) -> (r: bool)
    ensures
        r == json_number(text@),
{
    text.parse().ok().and_then(serde_json::Number::from_f64).is_some()
}

/// A number of at most 200 characters, with an exponent of at most two.
pub open spec fn is_short_number(text: Seq<char>) -> bool {
    text.len() <= 200 && forall|i: int| 0 <= i < text.len() ==> short_number_char(text, i)
}

pub open spec fn short_number_char(text: Seq<char>, i: int) -> bool {
    let c = text[i];
    ||| '0' <= c <= '9'
    ||| c == '.' || c == '-' || c == '+'
    ||| (c == 'e' || c == 'E') && i + 3 >= text.len()
}

/// A number that is not infinite.
pub open spec fn is_finite(text: Seq<char>) -> bool {
    is_short_number(text) || json_number(text)
}

fn number_is_finite(path: &Vec<char>, from: usize, to: usize) -> (r: bool)
    requires
        from <= to <= path@.len(),
    ensures
        r == is_finite(path@.subrange(from as int, to as int)),
{
    let ghost text = path@.subrange(from as int, to as int);
    let mut short = to - from <= 200;
    let mut i: usize = from;
    while i < to && short
        invariant
            from <= i <= to <= path@.len(),
            text == path@.subrange(from as int, to as int),
            short ==> text.len() <= 200,
            short ==> forall|k: int| 0 <= k < i - from ==> short_number_char(text, k),
            !short ==> !is_short_number(text),
        decreases to - i,
    {
        let c = path[i];
        assert(text[i - from] == c);
        let fine = ('0' <= c && c <= '9') || c == '.' || c == '-' || c == '+' || ((c == 'e' || c
            == 'E') && to - i <= 3);
        if !fine {
            assert(!short_number_char(text, i - from));
            short = false;
        }
        i += 1;
    }
    short || is_json_number(text_of(path, from, to).as_str())
}

/// Where a number ends that begins at `i`: with a word, or with two and a dot between them.
pub open spec fn number_end(path: Seq<char>, i: int) -> int {
    let end = word_end(path, i + 1, false);
    if end < path.len() && path[end] == '.' {
        word_end(path, end + 1, false)
    } else {
        end
    }
}

/// A sign of two characters: the first twice, or the first and an equals sign.
pub open spec fn followed_by(path: Seq<char>, i: int, c: char) -> bool {
    i + 1 < path.len() && path[i + 1] == c
}

/// The part of an expression that begins at `i`, and where it ends. A number is read as one where a
/// term of a filter is to come (`term`).
pub open spec fn lexeme(path: Seq<char>, i: int, term: bool) -> (Lexeme, int) {
    let c = path[i];
    if c == '$' {
        let end = word_end(path, i + 1, true);
        (
            if end == i + 1 {
                Lexeme::Root
            } else {
                Lexeme::Word { zero: false }
            },
            end,
        )
    } else if c == '.' {
        (Lexeme::Dot, i + 1)
    } else if c == '*' {
        (Lexeme::Star, i + 1)
    } else if c == '[' {
        (Lexeme::Open, i + 1)
    } else if c == ']' {
        (Lexeme::Close, i + 1)
    } else if c == '(' {
        (Lexeme::Enter, i + 1)
    } else if c == ')' {
        (Lexeme::Leave, i + 1)
    } else if c == '@' {
        (Lexeme::Element, i + 1)
    } else if c == '?' {
        (Lexeme::Question, i + 1)
    } else if c == ',' {
        (Lexeme::Comma, i + 1)
    } else if c == ':' {
        (Lexeme::Colon, i + 1)
    } else if c == '\'' || c == '"' {
        match closing_quote(path, i) {
            Some(end) => (Lexeme::Quoted, end + 1),
            None => (Lexeme::Fault, i + 1),
        }
    } else if c == '=' || c == '!' {
        if followed_by(path, i, '=') {
            (Lexeme::Compare, i + 2)
        } else {
            (Lexeme::Fault, i + 1)
        }
    } else if c == '<' || c == '>' {
        if followed_by(path, i, '=') {
            (Lexeme::Compare, i + 2)
        } else {
            (Lexeme::Compare, i + 1)
        }
    } else if c == '&' || c == '|' {
        if followed_by(path, i, c) {
            (Lexeme::Join, i + 2)
        } else {
            (Lexeme::Fault, i + 1)
        }
    } else if space(c) {
        (Lexeme::Space, space_end(path, i + 1))
    } else if term && begins_number(c) {
        let end = number_end(path, i);
        (Lexeme::Number { finite: is_finite(path.subrange(i, end)) }, end)
    } else {
        let end = word_end(path, i + 1, false);
        (Lexeme::Word { zero: is_zero(path.subrange(i, end)) }, end)
    }
}

fn next_lexeme(path: &Vec<char>, i: usize, term: bool) -> (r: (Lexeme, usize))
    requires
        i < path@.len(),
    ensures
        lexeme(path@, i as int, term) == (r.0, r.1 as int),
        i < r.1 <= path@.len(),
{
    let length = path.len();
    let c = path[i];
    if c == '$' {
        let end = find_word_end(path, i + 1, true);
        if end == i + 1 {
            (Lexeme::Root, end)
        } else {
            (Lexeme::Word { zero: false }, end)
        }
    } else if c == '.' {
        (Lexeme::Dot, i + 1)
    } else if c == '*' {
        (Lexeme::Star, i + 1)
    } else if c == '[' {
        (Lexeme::Open, i + 1)
    } else if c == ']' {
        (Lexeme::Close, i + 1)
    } else if c == '(' {
        (Lexeme::Enter, i + 1)
    } else if c == ')' {
        (Lexeme::Leave, i + 1)
    } else if c == '@' {
        (Lexeme::Element, i + 1)
    } else if c == '?' {
        (Lexeme::Question, i + 1)
    } else if c == ',' {
        (Lexeme::Comma, i + 1)
    } else if c == ':' {
        (Lexeme::Colon, i + 1)
    } else if c == '\'' || c == '"' {
        match find_closing_quote(path, i) {
            Some(end) => (Lexeme::Quoted, end + 1),
            None => (Lexeme::Fault, i + 1),
        }
    } else if c == '=' || c == '!' {
        if i + 1 < length && path[i + 1] == '=' {
            (Lexeme::Compare, i + 2)
        } else {
            (Lexeme::Fault, i + 1)
        }
    } else if c == '<' || c == '>' {
        if i + 1 < length && path[i + 1] == '=' {
            (Lexeme::Compare, i + 2)
        } else {
            (Lexeme::Compare, i + 1)
        }
    } else if c == '&' || c == '|' {
        if i + 1 < length && path[i + 1] == c {
            (Lexeme::Join, i + 2)
        } else {
            (Lexeme::Fault, i + 1)
        }
    } else if is_space(c) {
        (Lexeme::Space, find_space_end(path, i + 1))
    } else if term && (('0' <= c && c <= '9') || c == '-') {
        let word = find_word_end(path, i + 1, false);
        let end = if word < length && path[word] == '.' {
            find_word_end(path, word + 1, false)
        } else {
            word
        };
        (Lexeme::Number { finite: number_is_finite(path, i, end) }, end)
    } else {
        let end = find_word_end(path, i + 1, false);
        (Lexeme::Word { zero: word_is_zero(path, i, end) }, end)
    }
}

// ---------------------------------------------------------------------------------------------
// Steps of paths, and terms of filters
// ---------------------------------------------------------------------------------------------

/// What is being read of an expression. `deep` is whether there are two dots before a bracket.
#[derive(Clone, Copy, Debug, PartialEq, Eq, Structural)]
pub enum Reading {
    /// The root of the document is to come.
    Start,
    /// A path that may go on.
    Path,
    /// A dot.
    Dot,
    /// Two dots.
    Dots,
    /// An open bracket.
    Bracket { deep: bool },
    /// An index.
    Index { deep: bool },
    /// A list of indexes.
    Indexes { deep: bool },
    /// A range, and whether its step is to come.
    Range { deep: bool, step: bool },
    /// An asterisk in brackets.
    All { deep: bool },
    /// A name in brackets.
    Name { deep: bool },
    /// A list of names.
    Names { deep: bool },
    /// The question mark of a filter.
    Question { deep: bool },
    /// A term of a filter is to come.
    Term,
    /// A text as a term.
    Text,
    /// An operator, or the end of a filter, is to come.
    Operator,
    /// The end: what follows is not evaluated.
    Done,
    /// Something on which selection may panic, or which is no expression.
    Unsafe,
}

/// A term of a filter.
#[derive(Clone, Copy, Debug, PartialEq, Eq, Structural)]
pub enum Term {
    /// A number, a text or a truth value; or none yet.
    Literal,
    /// A path from the element on that is filtered.
    Relative,
    /// A path from the root on.
    Absolute,
    /// A path from the root on that holds a filter.
    Filtered,
}

/// A filter.
#[derive(Clone, Copy, Debug, PartialEq, Eq, Structural)]
pub struct Filter {
    /// It stands in a path from the root on, in a filter.
    pub rooted: bool,
    /// There are two dots before it, and no path from the element on was met yet.
    pub deep: bool,
    /// Every term is a path from the element on, and no operator has taken any.
    pub first: bool,
    /// An operator waits for the term that is being read.
    pub pending: bool,
    /// That operator compares.
    pub comparing: bool,
    /// There is an operator.
    pub compares: bool,
    /// What is being read, or was read last.
    pub term: Term,
    /// A name was met in that term.
    pub keyed: bool,
    /// That term may have been taken from the stack.
    pub lost: bool,
    /// Some term may have been taken from the stack.
    pub dirty: bool,
    /// A path from the root on is not ended yet: it takes up literals.
    pub open: bool,
}

/// How far an expression is read.
pub struct ScanView {
    pub reading: Reading,
    /// The filters that are open.
    pub filters: Seq<Filter>,
    /// The least number of terms.
    pub least: int,
    /// The greatest number of terms.
    pub most: int,
    /// How many brackets are known to be open.
    pub brackets: int,
}

pub open spec fn less(n: int, k: int) -> int {
    if n > k {
        n - k
    } else {
        0
    }
}

/// Where a step of a path is made.
#[derive(Clone, Copy, Debug, PartialEq, Eq, Structural)]
pub enum Place {
    /// Outside of filters, or in a path from the root on: no term is touched.
    Plain,
    /// In a path from the filtered element on.
    Inside,
    /// Where no step can be made.
    Nowhere,
}

/// What is on top of the stack.
#[derive(Clone, Copy, Debug, PartialEq, Eq, Structural)]
pub enum Held {
    /// A part of the document, or a truth value.
    Value,
    /// The mark of the filtered element.
    Mark,
    Unknown,
}

pub open spec fn held_by_term(f: Filter) -> Held {
    if f.lost {
        Held::Unknown
    } else if f.keyed {
        Held::Value
    } else {
        Held::Mark
    }
}

pub open spec fn held_by_filter(f: Filter) -> Held {
    if f.compares {
        Held::Value
    } else {
        held_by_term(f)
    }
}

impl ScanView {
    pub open spec fn now(self, reading: Reading) -> ScanView {
        ScanView { reading, ..self }
    }

    pub open spec fn with_filter(self, f: Filter) -> ScanView {
        ScanView { filters: self.filters.drop_last().push(f), ..self }
    }

    pub open spec fn place(self) -> Place {
        if self.filters.len() == 0 {
            Place::Plain
        } else {
            match self.filters.last().term {
                Term::Absolute => Place::Plain,
                Term::Relative => Place::Inside,
                _ => Place::Nowhere,
            }
        }
    }

    /// The terms on the stack are all parts of the document, or marks.
    pub open spec fn all_first(self) -> bool {
        forall|i: int| 0 <= i < self.filters.len() ==> (#[trigger] self.filters[i]).first
    }

    /// What is on top of the stack may be no part of the document.
    pub open spec fn shaky(self) -> bool {
        self.filters.last().lost && !self.all_first()
    }

    /// The term that is being read may have been taken, `least` to `most` terms in all.
    pub open spec fn taken(self, least: int, most: int) -> ScanView {
        ScanView {
            least: less(self.least, most),
            most: less(self.most, least),
            ..self.with_filter((Filter { lost: true, dirty: true, ..self.filters.last() }))
        }
    }

    /// The end of a bracket takes what is on top of the stack; and a mark is taken with what is
    /// below it, where the bracket stands in another. Where that is a text or a number, it may take
    /// one more.
    pub open spec fn dropped(self, held: Held) -> ScanView {
        ScanView {
            least: less(
                self.least,
                if self.brackets < 2 || held == Held::Value {
                    1
                } else if self.all_first() {
                    2
                } else {
                    3
                },
            ),
            most: less(
                self.most,
                if self.brackets >= 2 && held == Held::Mark {
                    2
                } else {
                    1
                },
            ),
            brackets: less(self.brackets, 1),
            ..self
        }
    }

    /// A name.
    pub open spec fn after_name(self) -> ScanView {
        match self.place() {
            Place::Plain => self.now(Reading::Path),
            Place::Inside => if self.shaky() {
                self.now(Reading::Unsafe)
            } else {
                self.with_filter((Filter { keyed: true, ..self.filters.last() })).now(Reading::Path)
            },
            Place::Nowhere => self.now(Reading::Unsafe),
        }
    }

    /// An index in brackets.
    pub open spec fn after_index(self, deep: bool) -> ScanView {
        match self.place() {
            Place::Plain => self.now(Reading::Path),
            Place::Inside => self.taken(
                if deep {
                    1
                } else {
                    0
                },
                1,
            ).now(Reading::Path),
            Place::Nowhere => self.now(Reading::Unsafe),
        }
    }

    /// A name in brackets.
    pub open spec fn after_bracket_name(self, deep: bool) -> ScanView {
        if self.place() == Place::Inside && deep {
            self.taken(1, 1).now(Reading::Path)
        } else if self.place() == Place::Inside && self.brackets == 0 {
            self.taken(0, 1).now(Reading::Path)
        } else {
            self.after_name()
        }
    }

    /// An asterisk in brackets.
    pub open spec fn after_bracket_all(self) -> ScanView {
        match self.place() {
            Place::Plain => self.now(Reading::Path),
            Place::Inside => if self.shaky() {
                self.now(Reading::Unsafe)
            } else {
                self.dropped(held_by_term(self.filters.last())).taken(0, 0).now(Reading::Path)
            },
            Place::Nowhere => self.now(Reading::Unsafe),
        }
    }

    /// A range or a list in brackets.
    pub open spec fn after_list(self, deep: bool) -> ScanView {
        match self.place() {
            Place::Plain => self.now(Reading::Path),
            Place::Inside => if self.most > 0 {
                self.now(Reading::Unsafe)
            } else {
                ScanView {
                    brackets: if deep {
                        self.brackets
                    } else {
                        less(self.brackets, 1)
                    },
                    reading: Reading::Path,
                    ..self
                }
            },
            Place::Nowhere => self.now(Reading::Unsafe),
        }
    }

    /// A filter begins.
    pub open spec fn opened(self, deep: bool) -> ScanView {
        let inside = self.filters.len() > 0;
        let rooted = inside && self.place() == Place::Plain;
        let nowhere = inside && self.filters.last().term == Term::Literal;
        if nowhere || (inside && self.shaky()) || (rooted && self.filters.last().deep) {
            self.now(Reading::Unsafe)
        } else {
            ScanView {
                filters: self.filters.push(
                    Filter {
                        rooted,
                        deep: deep && !rooted,
                        first: true,
                        pending: false,
                        comparing: false,
                        compares: false,
                        term: Term::Literal,
                        keyed: false,
                        lost: false,
                        dirty: false,
                        open: rooted,
                    },
                ),
                brackets: if rooted {
                    self.brackets
                } else {
                    self.brackets + 1
                },
                reading: Reading::Term,
                ..self
            }
        }
    }

    /// One more term.
    pub open spec fn pushed(self, f: Filter) -> ScanView {
        ScanView { least: self.least + 1, most: self.most + 1, ..self.with_filter(f) }
    }

    /// A path from the filtered element on begins.
    pub open spec fn relative(self) -> ScanView {
        self.pushed(
            Filter {
                deep: false,
                term: Term::Relative,
                keyed: false,
                lost: false,
                open: false,
                ..self.filters.last()
            },
        ).now(Reading::Path)
    }

    /// A path from the root on begins.
    pub open spec fn absolute(self) -> ScanView {
        self.pushed(
            Filter {
                first: false,
                term: Term::Absolute,
                keyed: false,
                lost: false,
                open: true,
                ..self.filters.last()
            },
        ).now(Reading::Path)
    }

    /// A literal. It is lost where a path from the root on takes it up, or where it is a text and no
    /// bracket is known to be open.
    pub open spec fn literal(self, text: bool) -> ScanView {
        let f = self.filters.last();
        let g = Filter { first: false, term: Term::Literal, keyed: false, lost: false, ..f };
        let next = if text {
            Reading::Text
        } else {
            Reading::Operator
        };
        if f.open || (text && self.brackets == 0) {
            self.with_filter((Filter { dirty: true, ..g })).now(next)
        } else {
            self.pushed(g).now(next)
        }
    }

    /// An operator that has its second term takes both and gives one.
    pub open spec fn settled(self) -> ScanView {
        let f = self.filters.last();
        if !f.pending {
            self
        } else if self.least < 2 {
            self.now(Reading::Unsafe)
        } else {
            ScanView {
                least: self.least - 1,
                most: less(self.most, 1),
                ..self.with_filter(
                    (Filter {
                        pending: false,
                        first: false,
                        open: f.open && !f.comparing,
                        ..f
                    }),
                )
            }
        }
    }

    /// An operator; whether it compares.
    pub open spec fn operator(self, compare: bool) -> ScanView {
        let f = self.filters.last();
        if self.reading == Reading::Unsafe {
            self
        } else {
            self.with_filter(
                (Filter { pending: true, comparing: compare, compares: true, ..f }),
            ).now(Reading::Term)
        }
    }

    /// A filter ends: what it came to is taken from the stack.
    pub open spec fn closed(self) -> ScanView {
        let f = self.filters.last();
        let held = held_by_filter(f);
        let left = if f.deep {
            ScanView {
                least: less(self.least, 1),
                most: less(self.most, 1),
                brackets: less(self.brackets, 2),
                ..self
            }
        } else {
            self.dropped(held)
        };
        let outer = ScanView { filters: self.filters.drop_last(), ..left };
        if self.reading == Reading::Unsafe || (!f.compares && self.shaky()) {
            self.now(Reading::Unsafe)
        } else if outer.filters.len() == 0 {
            if outer.most > 0 || outer.brackets > 0 {
                outer.now(Reading::Unsafe)
            } else {
                outer.now(Reading::Path)
            }
        } else {
            let g = outer.filters.last();
            let lost = f.dirty || (held == Held::Mark && self.brackets >= 2);
            outer.with_filter(
                (Filter {
                    lost: g.lost || lost,
                    dirty: g.dirty || lost,
                    term: if f.rooted {
                        Term::Filtered
                    } else {
                        g.term
                    },
                    open: g.open && !f.rooted,
                    ..g
                }),
            ).now(Reading::Path)
        }
    }

    /// What follows a term.
    pub open spec fn after_term(self, l: Lexeme) -> ScanView {
        match l {
            Lexeme::Space => self.now(Reading::Operator),
            Lexeme::Leave => {
                let s = self.settled();
                if s.reading == Reading::Unsafe {
                    s
                } else {
                    s.now(Reading::Operator)
                }
            },
            Lexeme::Compare => self.settled().operator(true),
            Lexeme::Join => self.settled().operator(false),
            Lexeme::Close => self.settled().closed(),
            _ => self.now(Reading::Unsafe),
        }
    }

    /// One more part of what stands in brackets.
    pub open spec fn bracket_step(self, l: Lexeme) -> ScanView {
        match self.reading {
            Reading::Bracket { deep } => match l {
                Lexeme::Space => self,
                Lexeme::Question => self.now(Reading::Question { deep }),
                Lexeme::Star => self.now(Reading::All { deep }),
                Lexeme::Colon => self.now(Reading::Range { deep, step: false }),
                Lexeme::Quoted => self.now(Reading::Name { deep }),
                Lexeme::Word { .. } => self.now(Reading::Index { deep }),
                _ => self.now(Reading::Unsafe),
            },
            Reading::Index { deep } => match l {
                Lexeme::Space => self,
                Lexeme::Comma => self.now(Reading::Indexes { deep }),
                Lexeme::Colon => self.now(Reading::Range { deep, step: false }),
                Lexeme::Close => self.after_index(deep),
                _ => self.now(Reading::Unsafe),
            },
            Reading::Indexes { deep } => match l {
                Lexeme::Space => self,
                Lexeme::Comma => self,
                Lexeme::Word { .. } => self,
                Lexeme::Close => self.after_list(deep),
                _ => self.now(Reading::Unsafe),
            },
            Reading::Range { deep, step } => match l {
                Lexeme::Space => self,
                Lexeme::Colon => self.now(Reading::Range { deep, step: true }),
                Lexeme::Word { zero } => if step && zero {
                    self.now(Reading::Unsafe)
                } else {
                    self
                },
                Lexeme::Close => self.after_list(deep),
                _ => self.now(Reading::Unsafe),
            },
            Reading::All { .. } => match l {
                Lexeme::Space => self,
                Lexeme::Close => self.after_bracket_all(),
                _ => self.now(Reading::Unsafe),
            },
            Reading::Name { deep } => match l {
                Lexeme::Space => self,
                Lexeme::Comma => self.now(Reading::Names { deep }),
                Lexeme::Close => self.after_bracket_name(deep),
                _ => self.now(Reading::Unsafe),
            },
            Reading::Names { deep } => match l {
                Lexeme::Space => self,
                Lexeme::Comma => self,
                Lexeme::Quoted => self,
                Lexeme::Close => self.after_list(deep),
                _ => self.now(Reading::Unsafe),
            },
            _ => self,
        }
    }

    /// One more part of a filter.
    pub open spec fn filter_step(self, l: Lexeme) -> ScanView {
        match self.reading {
            Reading::Term => match l {
                Lexeme::Space => self,
                Lexeme::Enter => self,
                Lexeme::Element => self.relative(),
                Lexeme::Root => self.absolute(),
                Lexeme::Quoted => self.literal(true),
                Lexeme::Number { finite } => if finite {
                    self.literal(false)
                } else {
                    self.now(Reading::Unsafe)
                },
                Lexeme::Word { .. } => self.literal(false),
                _ => self.now(Reading::Unsafe),
            },
            _ => self.after_term(l),
        }
    }

    /// One more part of the expression.
    pub open spec fn step(self, l: Lexeme) -> ScanView {
        match self.reading {
            Reading::Start => match l {
                Lexeme::Root => self.now(Reading::Path),
                _ => self.now(Reading::Unsafe),
            },
            Reading::Path => match l {
                Lexeme::Dot => self.now(Reading::Dot),
                Lexeme::Open => self.now(Reading::Bracket { deep: false }),
                _ => if self.filters.len() == 0 {
                    self.now(Reading::Done)
                } else {
                    self.after_term(l)
                },
            },
            Reading::Dot => match l {
                Lexeme::Dot => self.now(Reading::Dots),
                Lexeme::Star => self.now(Reading::Path),
                Lexeme::Word { .. } => self.after_name(),
                Lexeme::Open => self.now(Reading::Bracket { deep: false }),
                _ => self.now(Reading::Unsafe),
            },
            Reading::Dots => match l {
                Lexeme::Star => self.now(Reading::Path),
                Lexeme::Word { .. } => self.after_name(),
                Lexeme::Open => self.now(Reading::Bracket { deep: true }),
                _ => self.now(Reading::Unsafe),
            },
            Reading::Question { deep } => match l {
                Lexeme::Enter => self.opened(deep),
                _ => self.now(Reading::Unsafe),
            },
            Reading::Term => self.filter_step(l),
            Reading::Text => self.filter_step(l),
            Reading::Operator => self.filter_step(l),
            Reading::Done => self,
            Reading::Unsafe => self,
            _ => self.bracket_step(l),
        }
    }
}

/// The end of an expression, read from `i` on.
pub open spec fn scanned(path: Seq<char>, i: int, s: ScanView) -> ScanView
    decreases path.len() - i,
{
    if i >= path.len() {
        s
    } else {
        let (l, end) = lexeme(path, i, s.reading == Reading::Term);
        if i < end <= path.len() {
            scanned(path, end, s.step(l))
        } else {
            s
        }
    }
}

/// Nothing was read yet.
pub open spec fn scan_start() -> ScanView {
    ScanView { reading: Reading::Start, filters: Seq::empty(), least: 0, most: 0, brackets: 0 }
}

/// Selection with the expression panics on no document, as far as reading it shows.
pub open spec fn selects_safely(path: Seq<char>) -> bool {
    scanned(path, 0, scan_start()).reading != Reading::Unsafe
}

// ---------------------------------------------------------------------------------------------
// Reading an expression
// ---------------------------------------------------------------------------------------------

struct Scan {
    reading: Reading,
    filters: Vec<Filter>,
    least: u64,
    most: u64,
    brackets: u64,
}

fn reduced(n: u64, k: u64) -> (r: u64)
    ensures
        r == less(n as int, k as int),
{
    if n > k {
        n - k
    } else {
        0
    }
}

impl View for Scan {
    type V = ScanView;

    closed spec fn view(&self) -> ScanView {
        ScanView {
            reading: self.reading,
            filters: self.filters@,
            least: self.least as int,
            most: self.most as int,
            brackets: self.brackets as int,
        }
    }
}

impl ScanView {
    /// There is a filter where one is read, and no count is above `n`.
    pub open spec fn within(self, n: int) -> bool {
        &&& self.reading == Reading::Term || self.reading == Reading::Text || self.reading
            == Reading::Operator ==> self.filters.len() > 0
        &&& 0 <= self.least <= n
        &&& 0 <= self.most <= n
        &&& 0 <= self.brackets <= n
    }
}

proof fn lemma_after_term(s: ScanView, l: Lexeme, n: int)
    requires
        s.within(n),
        s.filters.len() > 0,
    ensures
        s.after_term(l).within(n),
{
}

proof fn lemma_bracket_step(s: ScanView, l: Lexeme, n: int)
    requires
        s.within(n),
    ensures
        s.bracket_step(l).within(n),
{
}

proof fn lemma_filter_step(s: ScanView, l: Lexeme, n: int)
    requires
        s.within(n),
        s.filters.len() > 0,
    ensures
        s.filter_step(l).within(n + 1),
{
    lemma_after_term(s, l, n);
}

proof fn lemma_step(s: ScanView, l: Lexeme, n: int)
    requires
        s.within(n),
    ensures
        s.step(l).within(n + 1),
{
    lemma_bracket_step(s, l, n);
    if s.filters.len() > 0 {
        lemma_filter_step(s, l, n);
        lemma_after_term(s, l, n);
    }
}

impl Scan {
    fn new() -> (r: Scan)
        ensures
            r@ == scan_start(),
    {
        let r = Scan {
            reading: Reading::Start,
            filters: Vec::new(),
            least: 0,
            most: 0,
            brackets: 0,
        };
        assert(r@.filters =~= Seq::empty());
        r
    }

    fn go(&mut self, reading: Reading)
        ensures
            final(self)@ == old(self)@.now(reading),
    {
        self.reading = reading;
    }

    fn last(&self) -> (r: Filter)
        requires
            self@.filters.len() > 0,
        ensures
            r == self@.filters.last(),
    {
        self.filters[self.filters.len() - 1]
    }

    fn put(&mut self, f: Filter)
        requires
            old(self)@.filters.len() > 0,
        ensures
            final(self)@ == old(self)@.with_filter(f),
    {
        let _ = self.filters.pop();
        self.filters.push(f);
        assert(self@.filters =~= old(self)@.filters.drop_last().push(f));
    }

    fn place(&self) -> (r: Place)
        ensures
            r == self@.place(),
    {
        if self.filters.len() == 0 {
            Place::Plain
        } else {
            match self.last().term {
                Term::Absolute => Place::Plain,
                Term::Relative => Place::Inside,
                _ => Place::Nowhere,
            }
        }
    }

    fn all_first(&self) -> (r: bool)
        ensures
            r == self@.all_first(),
    {
        let mut i: usize = 0;
        while i < self.filters.len()
            invariant
                i <= self.filters@.len(),
                self@.filters == self.filters@,
                forall|k: int| 0 <= k < i ==> (#[trigger] self.filters@[k]).first,
            decreases self.filters@.len() - i,
        {
            if !self.filters[i].first {
                assert(!self@.filters[i as int].first);
                return false;
            }
            i += 1;
        }
        true
    }

    fn shaky(&self) -> (r: bool)
        requires
            self@.filters.len() > 0,
        ensures
            r == self@.shaky(),
    {
        self.last().lost && !self.all_first()
    }

    fn take(&mut self, least: u64, most: u64)
        requires
            old(self)@.filters.len() > 0,
        ensures
            final(self)@ == old(self)@.taken(least as int, most as int),
    {
        let f = self.last();
        self.put(Filter { lost: true, dirty: true, ..f });
        self.least = reduced(self.least, most);
        self.most = reduced(self.most, least);
    }

    fn drop(&mut self, held: Held)
        ensures
            final(self)@ == old(self)@.dropped(held),
    {
        let nested = self.brackets >= 2;
        let value = match held {
            Held::Value => true,
            _ => false,
        };
        let mark = match held {
            Held::Mark => true,
            _ => false,
        };
        self.least = reduced(
            self.least,
            if !nested || value {
                1
            } else if self.all_first() {
                2
            } else {
                3
            },
        );
        self.most = reduced(
            self.most,
            if nested && mark {
                2
            } else {
                1
            },
        );
        self.brackets = reduced(self.brackets, 1);
    }

    fn name(&mut self)
        ensures
            final(self)@ == old(self)@.after_name(),
    {
        match self.place() {
            Place::Plain => self.go(Reading::Path),
            Place::Inside => if self.shaky() {
                self.go(Reading::Unsafe)
            } else {
                let f = self.last();
                self.put(Filter { keyed: true, ..f });
                self.go(Reading::Path)
            },
            Place::Nowhere => self.go(Reading::Unsafe),
        }
    }

    fn index(&mut self, deep: bool)
        ensures
            final(self)@ == old(self)@.after_index(deep),
    {
        match self.place() {
            Place::Plain => self.go(Reading::Path),
            Place::Inside => {
                self.take(
                    if deep {
                        1
                    } else {
                        0
                    },
                    1,
                );
                self.go(Reading::Path)
            },
            Place::Nowhere => self.go(Reading::Unsafe),
        }
    }

    fn bracket_name(&mut self, deep: bool)
        ensures
            final(self)@ == old(self)@.after_bracket_name(deep),
    {
        let inside = match self.place() {
            Place::Inside => true,
            _ => false,
        };
        if inside && deep {
            self.take(1, 1);
            self.go(Reading::Path)
        } else if inside && self.brackets == 0 {
            self.take(0, 1);
            self.go(Reading::Path)
        } else {
            self.name()
        }
    }

    fn bracket_all(&mut self)
        ensures
            final(self)@ == old(self)@.after_bracket_all(),
    {
        match self.place() {
            Place::Plain => self.go(Reading::Path),
            Place::Inside => if self.shaky() {
                self.go(Reading::Unsafe)
            } else {
                self.drop(term_holds(self.last()));
                self.take(0, 0);
                self.go(Reading::Path)
            },
            Place::Nowhere => self.go(Reading::Unsafe),
        }
    }

    fn list(&mut self, deep: bool)
        ensures
            final(self)@ == old(self)@.after_list(deep),
    {
        match self.place() {
            Place::Plain => self.go(Reading::Path),
            Place::Inside => if self.most > 0 {
                self.go(Reading::Unsafe)
            } else {
                if !deep {
                    self.brackets = reduced(self.brackets, 1);
                }
                self.go(Reading::Path)
            },
            Place::Nowhere => self.go(Reading::Unsafe),
        }
    }

    fn open(&mut self, deep: bool)
        requires
            old(self).brackets < u64::MAX,
        ensures
            final(self)@ == old(self)@.opened(deep),
    {
        let place = self.place();
        let inside = self.filters.len() > 0;
        let plain = match place {
            Place::Plain => true,
            _ => false,
        };
        let rooted = inside && plain;
        let nowhere = inside && match self.last().term {
            Term::Literal => true,
            _ => false,
        };
        if nowhere || (inside && self.shaky()) || (rooted && self.last().deep) {
            self.go(Reading::Unsafe)
        } else {
            self.filters.push(
                Filter {
                    rooted,
                    deep: deep && !rooted,
                    first: true,
                    pending: false,
                    comparing: false,
                    compares: false,
                    term: Term::Literal,
                    keyed: false,
                    lost: false,
                    dirty: false,
                    open: rooted,
                },
            );
            if !rooted {
                self.brackets = self.brackets + 1;
            }
            self.go(Reading::Term)
        }
    }

    fn push(&mut self, f: Filter)
        requires
            old(self)@.filters.len() > 0,
            old(self).least < u64::MAX,
            old(self).most < u64::MAX,
        ensures
            final(self)@ == old(self)@.pushed(f),
    {
        self.put(f);
        self.least = self.least + 1;
        self.most = self.most + 1;
    }

    fn relative(&mut self)
        requires
            old(self)@.filters.len() > 0,
            old(self).least < u64::MAX,
            old(self).most < u64::MAX,
        ensures
            final(self)@ == old(self)@.relative(),
    {
        let f = self.last();
        self.push(
            Filter {
                deep: false,
                term: Term::Relative,
                keyed: false,
                lost: false,
                open: false,
                ..f
            },
        );
        self.go(Reading::Path)
    }

    fn absolute(&mut self)
        requires
            old(self)@.filters.len() > 0,
            old(self).least < u64::MAX,
            old(self).most < u64::MAX,
        ensures
            final(self)@ == old(self)@.absolute(),
    {
        let f = self.last();
        self.push(
            Filter {
                first: false,
                term: Term::Absolute,
                keyed: false,
                lost: false,
                open: true,
                ..f
            },
        );
        self.go(Reading::Path)
    }

    fn literal(&mut self, text: bool)
        requires
            old(self)@.filters.len() > 0,
            old(self).least < u64::MAX,
            old(self).most < u64::MAX,
        ensures
            final(self)@ == old(self)@.literal(text),
    {
        let f = self.last();
        let g = Filter { first: false, term: Term::Literal, keyed: false, lost: false, ..f };
        if f.open || (text && self.brackets == 0) {
            self.put(Filter { dirty: true, ..g });
        } else {
            self.push(g);
        }
        self.go(
            if text {
                Reading::Text
            } else {
                Reading::Operator
            },
        )
    }

    fn settle(&mut self)
        requires
            old(self)@.filters.len() > 0,
        ensures
            final(self)@ == old(self)@.settled(),
    {
        let f = self.last();
        if f.pending {
            if self.least < 2 {
                self.go(Reading::Unsafe)
            } else {
                self.put(
                    Filter {
                        pending: false,
                        first: false,
                        open: f.open && !f.comparing,
                        ..f
                    },
                );
                self.least = self.least - 1;
                self.most = reduced(self.most, 1);
            }
        }
    }

    fn is_unsafe(&self) -> (r: bool)
        ensures
            r == (self@.reading == Reading::Unsafe),
    {
        match self.reading {
            Reading::Unsafe => true,
            _ => false,
        }
    }

    fn operator(&mut self, compare: bool)
        requires
            old(self)@.filters.len() > 0,
        ensures
            final(self)@ == old(self)@.operator(compare),
    {
        if !self.is_unsafe() {
            let f = self.last();
            self.put(Filter { pending: true, comparing: compare, compares: true, ..f });
            self.go(Reading::Term)
        }
    }

    fn close(&mut self)
        requires
            old(self)@.filters.len() > 0,
        ensures
            final(self)@ == old(self)@.closed(),
    {
        let f = self.last();
        if self.is_unsafe() || (!f.compares && self.shaky()) {
            self.go(Reading::Unsafe);
            return;
        }
        let held = if f.compares {
            Held::Value
        } else {
            term_holds(f)
        };
        let mark = match held {
            Held::Mark => true,
            _ => false,
        };
        let lost = f.dirty || (mark && self.brackets >= 2);
        if f.deep {
            self.least = reduced(self.least, 1);
            self.most = reduced(self.most, 1);
            self.brackets = reduced(self.brackets, 2);
        } else {
            self.drop(held);
        }
        let _ = self.filters.pop();
        assert(self@.filters =~= old(self)@.filters.drop_last());
        if self.filters.len() == 0 {
            if self.most > 0 || self.brackets > 0 {
                self.go(Reading::Unsafe)
            } else {
                self.go(Reading::Path)
            }
        } else {
            let g = self.last();
            let term = if f.rooted {
                Term::Filtered
            } else {
                g.term
            };
            self.put(
                Filter {
                    lost: g.lost || lost,
                    dirty: g.dirty || lost,
                    term,
                    open: g.open && !f.rooted,
                    ..g
                },
            );
            self.go(Reading::Path)
        }
    }

    fn after_term(&mut self, l: Lexeme)
        requires
            old(self)@.filters.len() > 0,
        ensures
            final(self)@ == old(self)@.after_term(l),
    {
        match l {
            Lexeme::Space => self.go(Reading::Operator),
            Lexeme::Leave => {
                self.settle();
                if !self.is_unsafe() {
                    self.go(Reading::Operator)
                }
            },
            Lexeme::Compare => {
                self.settle();
                self.operator(true)
            },
            Lexeme::Join => {
                self.settle();
                self.operator(false)
            },
            Lexeme::Close => {
                self.settle();
                self.close()
            },
            _ => self.go(Reading::Unsafe),
        }
    }

    fn in_term(&self) -> (r: bool)
        ensures
            r == (self@.reading == Reading::Term),
    {
        match self.reading {
            Reading::Term => true,
            _ => false,
        }
    }

    fn bracket_step(&mut self, l: Lexeme)
        ensures
            final(self)@ == old(self)@.bracket_step(l),
    {
        match self.reading {
            Reading::Bracket { deep } => match l {
                Lexeme::Space => {},
                Lexeme::Question => self.go(Reading::Question { deep }),
                Lexeme::Star => self.go(Reading::All { deep }),
                Lexeme::Colon => self.go(Reading::Range { deep, step: false }),
                Lexeme::Quoted => self.go(Reading::Name { deep }),
                Lexeme::Word { .. } => self.go(Reading::Index { deep }),
                _ => self.go(Reading::Unsafe),
            },
            Reading::Index { deep } => match l {
                Lexeme::Space => {},
                Lexeme::Comma => self.go(Reading::Indexes { deep }),
                Lexeme::Colon => self.go(Reading::Range { deep, step: false }),
                Lexeme::Close => self.index(deep),
                _ => self.go(Reading::Unsafe),
            },
            Reading::Indexes { deep } => match l {
                Lexeme::Space => {},
                Lexeme::Comma => {},
                Lexeme::Word { .. } => {},
                Lexeme::Close => self.list(deep),
                _ => self.go(Reading::Unsafe),
            },
            Reading::Range { deep, step } => match l {
                Lexeme::Space => {},
                Lexeme::Colon => self.go(Reading::Range { deep, step: true }),
                Lexeme::Word { zero } => if step && zero {
                    self.go(Reading::Unsafe)
                },
                Lexeme::Close => self.list(deep),
                _ => self.go(Reading::Unsafe),
            },
            Reading::All { .. } => match l {
                Lexeme::Space => {},
                Lexeme::Close => self.bracket_all(),
                _ => self.go(Reading::Unsafe),
            },
            Reading::Name { deep } => match l {
                Lexeme::Space => {},
                Lexeme::Comma => self.go(Reading::Names { deep }),
                Lexeme::Close => self.bracket_name(deep),
                _ => self.go(Reading::Unsafe),
            },
            Reading::Names { deep } => match l {
                Lexeme::Space => {},
                Lexeme::Comma => {},
                Lexeme::Quoted => {},
                Lexeme::Close => self.list(deep),
                _ => self.go(Reading::Unsafe),
            },
            _ => {},
        }
    }

    fn filter_step(&mut self, l: Lexeme)
        requires
            old(self)@.filters.len() > 0,
            old(self).least < u64::MAX,
            old(self).most < u64::MAX,
        ensures
            final(self)@ == old(self)@.filter_step(l),
    {
        match self.reading {
            Reading::Term => match l {
                Lexeme::Space => {},
                Lexeme::Enter => {},
                Lexeme::Element => self.relative(),
                Lexeme::Root => self.absolute(),
                Lexeme::Quoted => self.literal(true),
                Lexeme::Number { finite } => if finite {
                    self.literal(false)
                } else {
                    self.go(Reading::Unsafe)
                },
                Lexeme::Word { .. } => self.literal(false),
                _ => self.go(Reading::Unsafe),
            },
            _ => self.after_term(l),
        }
    }

    fn step(&mut self, l: Lexeme, n: Ghost<int>)
        requires
            old(self)@.within(n@),
            n@ < u64::MAX,
        ensures
            final(self)@ == old(self)@.step(l),
    {
        match self.reading {
            Reading::Start => match l {
                Lexeme::Root => self.go(Reading::Path),
                _ => self.go(Reading::Unsafe),
            },
            Reading::Path => match l {
                Lexeme::Dot => self.go(Reading::Dot),
                Lexeme::Open => self.go(Reading::Bracket { deep: false }),
                _ => if self.filters.len() == 0 {
                    self.go(Reading::Done)
                } else {
                    self.after_term(l)
                },
            },
            Reading::Dot => match l {
                Lexeme::Dot => self.go(Reading::Dots),
                Lexeme::Star => self.go(Reading::Path),
                Lexeme::Word { .. } => self.name(),
                Lexeme::Open => self.go(Reading::Bracket { deep: false }),
                _ => self.go(Reading::Unsafe),
            },
            Reading::Dots => match l {
                Lexeme::Star => self.go(Reading::Path),
                Lexeme::Word { .. } => self.name(),
                Lexeme::Open => self.go(Reading::Bracket { deep: true }),
                _ => self.go(Reading::Unsafe),
            },
            Reading::Question { deep } => match l {
                Lexeme::Enter => self.open(deep),
                _ => self.go(Reading::Unsafe),
            },
            Reading::Term => self.filter_step(l),
            Reading::Text => self.filter_step(l),
            Reading::Operator => self.filter_step(l),
            Reading::Done => {},
            Reading::Unsafe => {},
            _ => self.bracket_step(l),
        }
    }
}

fn term_holds(f: Filter) -> (r: Held)
    ensures
        r == held_by_term(f),
{
    if f.lost {
        Held::Unknown
    } else if f.keyed {
        Held::Value
    } else {
        Held::Mark
    }
}

/// Whether selection with an expression panics on no document.
pub fn is_safe_path(path: &str) -> (r: bool)
    ensures
        r == selects_safely(path@),
{
    let chars = chars_of(path);
    let mut scan = Scan::new();
    let mut i: usize = 0;
    while i < chars.len()
        invariant
            i <= chars@.len(),
            chars@ == path@,
            scan@.within(i as int),
            scanned(path@, 0, scan_start()) == scanned(path@, i as int, scan@),
        decreases chars@.len() - i,
    {
        let (l, end) = next_lexeme(&chars, i, scan.in_term());
        proof {
            lemma_step(scan@, l, i as int);
        }
        scan.step(l, Ghost(i as int));
        i = end;
    }
    !scan.is_unsafe()
}

} // verus!
