//! Regular expressions as a source of random text.

use vstd::prelude::*;

use crate::text::join2;

verus! {

/// The structure of a regular expression, as far as text is drawn from it.
#[derive(Debug)]
pub enum PatternShape {
    /// What takes no place in a text: an empty expression, an anchor, the boundary of a word.
    Nothing,
    /// The end of a line.
    LineEnd,
    /// A character.
    Literal(char),
    /// A character of one of the ranges, both ends included.
    Class(Vec<(char, char)>),
    /// `min` to `max` times the inner expression, without an upper bound where `max` is none.
    Repeat { min: u32, max: Option<u32>, greedy: bool, inner: Box<PatternShape> },
    /// A group.
    Group(Box<PatternShape>),
    /// One after the other.
    Sequence(Vec<PatternShape>),
    /// One of several.
    Choice(Vec<PatternShape>),
}

/// What parsing a regular expression yields; none where it is malformed.
pub uninterp spec fn pattern_shape(pattern: Seq<char>) -> Option<PatternShape>;

/// The bounds of a repetition in a parsed expression (`regex_syntax::hir::RepetitionKind`).
/// Nothing is claimed of the result.
#[verifier::external_body]
fn repetition_bounds(kind: &regex_syntax::hir::RepetitionKind) -> (r: (u32, Option<u32>)) {
    match kind {
        regex_syntax::hir::RepetitionKind::ZeroOrOne => (0, Some(1)),
        regex_syntax::hir::RepetitionKind::ZeroOrMore => (0, None),
        regex_syntax::hir::RepetitionKind::OneOrMore => (1, None),
        regex_syntax::hir::RepetitionKind::Range(range) => match range {
            regex_syntax::hir::RepetitionRange::Exactly(n) => (*n, Some(*n)),
            regex_syntax::hir::RepetitionRange::AtLeast(n) => (*n, None),
            regex_syntax::hir::RepetitionRange::Bounded(m, n) => (*m, Some(*n)),
        },
    }
}

/// The ranges of a class in a parsed expression (`regex_syntax::hir::Class`), one for one.
/// Nothing is claimed of the result.
#[verifier::external_body]
fn class_ranges(class: &regex_syntax::hir::Class) -> (r: Vec<(char, char)>) {
    match class {
        regex_syntax::hir::Class::Unicode(c) => c.ranges().iter().map(
            |r| (r.start(), r.end()),
        ).collect(),
        regex_syntax::hir::Class::Bytes(c) => c.ranges().iter().map(
            |r| (char::from(r.start()), char::from(r.end())),
        ).collect(),
    }
}

/// The nodes of a parsed expression (`regex_syntax::hir::Hir`) that have no parts, one for one.
/// Nothing is claimed of the result.
#[verifier::external_body]
fn atom_of(hir: &regex_syntax::hir::Hir) -> (r: PatternShape) {
    match hir.kind() {
        regex_syntax::hir::HirKind::Anchor(regex_syntax::hir::Anchor::EndLine) => {
            PatternShape::LineEnd
        },
        regex_syntax::hir::HirKind::Literal(regex_syntax::hir::Literal::Unicode(c)) => {
            PatternShape::Literal(*c)
        },
        regex_syntax::hir::HirKind::Literal(regex_syntax::hir::Literal::Byte(b)) => {
            PatternShape::Literal(char::from(*b))
        },
        regex_syntax::hir::HirKind::Class(c) => PatternShape::Class(class_ranges(c)),
        _ => PatternShape::Nothing,
    }
}

/// The nodes of a parsed expression (`regex_syntax::hir::Hir`), one for one.
/// Nothing is claimed of the result.
#[verifier::external_body]
fn shape_of(hir: &regex_syntax::hir::Hir) -> (r: PatternShape) {
    match hir.kind() {
        regex_syntax::hir::HirKind::Repetition(r) => {
            let (min, max) = repetition_bounds(&r.kind);
            PatternShape::Repeat { min, max, greedy: r.greedy, inner: Box::new(shape_of(&r.hir)) }
        },
        regex_syntax::hir::HirKind::Group(g) => PatternShape::Group(Box::new(shape_of(&g.hir))),
        regex_syntax::hir::HirKind::Concat(v) => PatternShape::Sequence(
            v.iter().map(shape_of).collect(),
        ),
        regex_syntax::hir::HirKind::Alternation(v) => PatternShape::Choice(
            v.iter().map(shape_of).collect(),
        ),
        _ => atom_of(hir),
    }
}

#[verifier::external_type_specification]
#[verifier::external_body]
pub struct ExClass(regex_syntax::hir::Class);

#[verifier::external_type_specification]
#[verifier::external_body]
pub struct ExHir(regex_syntax::hir::Hir);

#[verifier::external_type_specification]
#[verifier::external_body]
pub struct ExRepetitionKind(regex_syntax::hir::RepetitionKind);

/// Parses a regular expression with `regex_syntax::Parser::parse`. The outcome is a function of
/// the text: [`pattern_shape`].
#[verifier::external_body]
pub(crate) fn parse_pattern(pattern: &str) -> (r: Option<PatternShape>)
    ensures
        r == pattern_shape(pattern@),
{
    regex_syntax::Parser::new().parse(pattern).ok().map(|hir| shape_of(&hir))
}

/// The most often that a repetition occurs in a drawn text, where unbounded repetition stops below
/// `max_repeat`. One that is not greedy occurs as seldom as it can.
pub open spec fn most_often(min: u32, max: Option<u32>, greedy: bool, max_repeat: int) -> int {
    if greedy {
        match max {
            Some(m) => m as int,
            None => max_repeat - 1,
        }
    } else {
        min as int
    }
}

/// Random text can be drawn for the expression when unbounded repetition stops below `max_repeat`:
/// no greedy repetition that is drawn has a lower bound above its upper one. What is repeated zero
/// times is not drawn.
pub open spec fn shape_generates(shape: PatternShape, max_repeat: int) -> bool
    decreases shape,
{
    match shape {
        PatternShape::Repeat { min, max, greedy, inner } => {
            &&& min <= most_often(min, max, greedy, max_repeat)
            &&& most_often(min, max, greedy, max_repeat) > 0 ==> shape_generates(
                *inner,
                max_repeat,
            )
        },
        PatternShape::Group(inner) => shape_generates(*inner, max_repeat),
        PatternShape::Sequence(parts) => forall|i: int|
            0 <= i < parts@.len() ==> shape_generates(#[trigger] parts@[i], max_repeat),
        PatternShape::Choice(parts) => forall|i: int|
            0 <= i < parts@.len() ==> shape_generates(#[trigger] parts@[i], max_repeat),
        _ => true,
    }
}

/// Texts, one after the other.
pub open spec fn concatenated(parts: Seq<Seq<char>>) -> Seq<char>
    decreases parts.len(),
{
    if parts.len() == 0 {
        Seq::empty()
    } else {
        concatenated(parts.drop_last()) + parts.last()
    }
}

/// How often a repetition can occur in a drawn text, where unbounded repetition stops below
/// `max_repeat`.
pub open spec fn occurs(
    min: u32,
    max: Option<u32>,
    greedy: bool,
    max_repeat: int,
    times: int,
) -> bool {
    min <= times <= most_often(min, max, greedy, max_repeat)
}

/// A text that can be drawn for the expression: it is made as the expression says.
pub open spec fn shape_text(shape: PatternShape, max_repeat: int, text: Seq<char>) -> bool
    decreases shape,
{
    match shape {
        PatternShape::Nothing => text.len() == 0,
        PatternShape::LineEnd => text == seq!['\n'],
        PatternShape::Literal(c) => text == seq![c],
        PatternShape::Class(ranges) => text.len() == 1 && exists|i: int|
            0 <= i < ranges@.len() && (#[trigger] ranges@[i]).0 <= text[0] <= ranges@[i].1,
        PatternShape::Repeat { min, max, greedy, inner } => exists|parts: Seq<Seq<char>>|
            {
                &&& #[trigger] concatenated(parts) == text
                &&& occurs(min, max, greedy, max_repeat, parts.len() as int)
                &&& forall|i: int|
                    0 <= i < parts.len() ==> shape_text(*inner, max_repeat, #[trigger] parts[i])
            },
        PatternShape::Group(inner) => shape_text(*inner, max_repeat, text),
        PatternShape::Sequence(list) => exists|parts: Seq<Seq<char>>|
            {
                &&& #[trigger] concatenated(parts) == text
                &&& parts.len() == list@.len()
                &&& forall|i: int|
                    0 <= i < list@.len() ==> shape_text(
                        #[trigger] list@[i],
                        max_repeat,
                        parts[i],
                    )
            },
        PatternShape::Choice(list) => exists|i: int|
            0 <= i < list@.len() && shape_text(#[trigger] list@[i], max_repeat, text),
    }
}

/// A text that can be drawn for a pattern that is well formed.
pub open spec fn pattern_text(pattern: Seq<char>, max_repeat: int, text: Seq<char>) -> bool {
    pattern_shape(pattern) matches Some(shape) ==> shape_text(shape, max_repeat, text)
}

/// A malformed pattern draws nothing; a well formed one must be one that text can be drawn for.
pub open spec fn pattern_generates(pattern: Seq<char>) -> bool {
    pattern_shape(pattern) matches Some(shape) ==> shape_generates(
        shape,
        PATTERN_MAX_REPEAT as int,
    )
}

/// Where unbounded repetition stops.
pub const PATTERN_MAX_REPEAT: u32 = 10;

fn shapes_can_generate(parts: &Vec<PatternShape>, max_repeat: u32) -> (r: bool)
    requires
        max_repeat >= 1,
    ensures
        r == (forall|i: int|
            0 <= i < parts@.len() ==> shape_generates(#[trigger] parts@[i], max_repeat as int)),
    decreases *parts,
{
    let mut i: usize = 0;
    while i < parts.len()
        invariant
            i <= parts@.len(),
            max_repeat >= 1,
            forall|j: int|
                0 <= j < i ==> shape_generates(#[trigger] parts@[j], max_repeat as int),
        decreases parts@.len() - i,
    {
        if !shape_can_generate(&parts[i], max_repeat) {
            return false;
        }
        i += 1;
    }
    true
}

/// Whether random text can be drawn for the expression.
pub(crate) fn shape_can_generate(shape: &PatternShape, max_repeat: u32) -> (r: bool)
    requires
        max_repeat >= 1,
    ensures
        r == shape_generates(*shape, max_repeat as int),
    decreases *shape,
{
    match shape {
        PatternShape::Repeat { min, max, greedy, inner } => {
            let most: u32 = match (*greedy, max) {
                (true, Some(m)) => *m,
                (true, None) => max_repeat - 1,
                (false, _) => *min,
            };
            *min <= most && (most == 0 || shape_can_generate(inner, max_repeat))
        },
        PatternShape::Group(inner) => shape_can_generate(inner, max_repeat),
        PatternShape::Sequence(parts) => {
            assert(decreases_to!(*shape => (*shape)->Sequence_0));
            shapes_can_generate(parts, max_repeat)
        },
        PatternShape::Choice(parts) => {
            assert(decreases_to!(*shape => (*shape)->Choice_0));
            shapes_can_generate(parts, max_repeat)
        },
        _ => true,
    }
}

/// Whether random text can be drawn for a pattern, or the pattern is malformed.
pub fn pattern_can_generate(pattern: &str) -> (r: bool)
    ensures
        r == pattern_generates(pattern@),
{
    match parse_pattern(pattern) {
        Some(shape) => shape_can_generate(&shape, PATTERN_MAX_REPEAT),
        None => true,
    }
}

/// Draws text with `regex_generate::generate_from_hir`, from the expression that
/// `regex_syntax::Parser::parse` reads: where the pattern is well formed a text that is made as the
/// expression says, none where it is not. The function panics where the lower bound of a greedy
/// repetition is above its upper one.
#[verifier::external_body]
pub(crate) fn draw_matching(pattern: &str, max_repeat: u32) -> (r: Option<String>)
    requires
        max_repeat >= 1,
        pattern_shape(pattern@) matches Some(shape) ==> shape_generates(shape, max_repeat as int),
    ensures
        r is Some == pattern_shape(pattern@) is Some,
        r matches Some(text) ==> shape_text(
            pattern_shape(pattern@)->0,
            max_repeat as int,
            text@,
        ),
{
    let mut buffer: Vec<u8> = vec![];
    let mut rng = rand::thread_rng();
    let hir = regex_syntax::Parser::new().parse(pattern).ok()?;
    regex_generate::generate_from_hir(&mut buffer, &hir, &mut rng, max_repeat).ok()?;
    String::from_utf8(buffer).ok()
}

/// What stands for random text where a pattern is malformed.
pub open spec fn no_text_for(pattern: Seq<char>) -> Seq<char> {
    "Couldn't generate string for: "@ + pattern
}

/// The text that was drawn for a pattern, or a note that none could be.
pub fn drawn_or_note(pattern: &str, drawn: Option<String>) -> (r: String)
    ensures
        r@ == (match drawn {
            Some(text) => text@,
            None => no_text_for(pattern@),
        }),
{
    match drawn {
        Some(text) => text,
        None => join2("Couldn't generate string for: ", pattern),
    }
}

/// Random text for a pattern.
pub(crate) fn random_string(pattern: &str) -> (r: String)
    requires
        pattern_generates(pattern@),
    ensures
        pattern_shape(pattern@) is None ==> r@ == no_text_for(pattern@),
        pattern_text(pattern@, PATTERN_MAX_REPEAT as int, r@),
{
    drawn_or_note(pattern, draw_matching(pattern, PATTERN_MAX_REPEAT))
}

} // verus!
