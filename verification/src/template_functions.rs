//! The functions that expressions in templates can call, and the engine that knows them.

use vstd::prelude::*;

use crate::pattern::{
    draw_matching, parse_pattern, pattern_shape, pattern_text, shape_can_generate, shape_generates,
};
use crate::random::{is_letter, random_i64, random_letter};
use crate::text::{integer, integer_value, parse_i64};

verus! {

/// Where unbounded repetition in a pattern stops.
pub const TEMPLATE_MAX_REPEAT: u32 = 100;

/// How many strings an engine keeps to use again.
pub const MAX_STRINGS_INTERNED: usize = 1024;

/// A random integer from `l` up to, and without, `h`.
pub fn random_int(l: i64, h: i64) -> (r: Result<i64, String>)
    ensures
        match r {
            Ok(n) => l <= n < h,
            Err(e) => l >= h && e@ == "empty range"@,
        },
{
    if l < h {
        Ok(random_i64(l, h - 1))
    } else {
        Err("empty range".to_owned())
    }
}

pub open spec fn greater(a: int, b: int) -> int {
    if a < b {
        b
    } else {
        a
    }
}

/// Random letters: at least one, at least `min_len`, and at most `max_len` where that is more.
pub fn random_str(min_len: i64, max_len: i64) -> (r: String)
    ensures
        greater(1, min_len as int) <= r@.len() <= greater(
            greater(1, min_len as int),
            max_len as int,
        ),
        forall|i: int| 0 <= i < r@.len() ==> is_letter(#[trigger] r@[i]),
{
    let min: i64 = if min_len < 1 {
        1
    } else {
        min_len
    };
    let max: i64 = if max_len < min {
        min
    } else {
        max_len
    };
    let size: i64 = random_i64(min, max);
    let mut r = String::new();
    let mut n: i64 = 0;
    while n < size
        invariant
            0 <= n <= size,
            r@.len() == n,
            forall|i: int| 0 <= i < r@.len() ==> is_letter(#[trigger] r@[i]),
        decreases size - n,
    {
        r.push(random_letter());
        n += 1;
    }
    r
}

/// Random text can be drawn for a pattern in a template, or the pattern is malformed.
pub open spec fn pattern_drawable(pattern: Seq<char>) -> bool {
    pattern_shape(pattern) matches Some(shape) ==> shape_generates(
        shape,
        TEMPLATE_MAX_REPEAT as int,
    )
}

/// What stands for random text where a pattern is malformed.
pub const MALFORMED_PATTERN: &'static str = "could not parse expression";

/// The text that was drawn for a pattern, or a note that it is malformed.
pub fn text_or_note(drawn: Option<String>) -> (r: String)
    ensures
        r@ == (match drawn {
            Some(text) => text@,
            None => MALFORMED_PATTERN@,
        }),
{
    match drawn {
        Some(text) => text,
        None => MALFORMED_PATTERN.to_owned(),
    }
}

/// Random text for a pattern. Text cannot be drawn where a repetition must go on for longer than
/// repetitions go.
pub fn random_str_pattern(regex: &str) -> (r: Result<String, String>)
    ensures
        match r {
            Ok(text) => {
                &&& pattern_drawable(regex@)
                &&& pattern_shape(regex@) is None ==> text@ == MALFORMED_PATTERN@
                &&& pattern_text(regex@, TEMPLATE_MAX_REPEAT as int, text@)
            },
            Err(e) => !pattern_drawable(regex@) && e@ == "too many repetitions"@,
        },
{
    let drawable = match parse_pattern(regex) {
        Some(shape) => shape_can_generate(&shape, TEMPLATE_MAX_REPEAT),
        None => true,
    };
    if drawable {
        Ok(text_or_note(draw_matching(regex, TEMPLATE_MAX_REPEAT)))
    } else {
        Err("too many repetitions".to_owned())
    }
}

/// What is said of a text that is no integer of 64 bits.
pub uninterp spec fn integer_error_text(text: Seq<char>) -> Seq<char>;

/// The message of the error that `str::parse::<i64>` gives. It is a function of the text:
/// [`integer_error_text`].
#[verifier::external_body]
fn integer_error(text: &str) -> (r: String)
    ensures
        r@ == integer_error_text(text@),
{
    text.parse::<i64>().err().map(|e| e.to_string()).unwrap_or_default()
}

/// The integer that a text denotes, or what is wrong with it.
pub fn to_int(text: &str) -> (r: Result<i64, String>)
    ensures
        match r {
            Ok(n) => integer_value(text@) == Some(n as int),
            Err(e) => e@ == integer_error_text(text@) && (integer_value(text@) matches Some(n)
                ==> n < i64::MIN || n > i64::MAX),
        },
{
    match parse_i64(text) {
        Some(n) => Ok(n),
        None => Err(integer_error(text)),
    }
}

/// The text of a truth value.
pub fn truth_text(value: bool) -> (r: String)
    ensures
        r@ == (if value {
            "true"@
        } else {
            "false"@
        }),
{
    if value {
        "true".to_owned()
    } else {
        "false".to_owned()
    }
}

/// A text as it is.
fn plain_text(text: String) -> (r: String)
    ensures
        r@ == text@,
{
    text
}

/// The functions that were made known to an engine with `rhai::Engine::register_fn`: under the
/// name by which they are called, and the types of their parameters, which function it is.
pub uninterp spec fn registered(engine: rhai::Engine) -> Map<
    (Seq<char>, Seq<Seq<char>>),
    Seq<char>,
>;

/// How many strings an engine keeps to use again.
pub uninterp spec fn strings_kept(engine: rhai::Engine) -> usize;

/// The name is not one that Rhai uses for indexing: those hold a dollar sign.
pub open spec fn is_function_name(name: Seq<char>) -> bool {
    forall|i: int| 0 <= i < name.len() ==> #[trigger] name[i] != '$'
}

/// `rhai::Engine::new_raw`, with the package `rhai::packages::StandardPackage` and a limit for the
/// strings that it keeps (`rhai::Engine::set_max_strings_interned`). The functions of the package
/// are kept apart from those that are registered, of which there are none yet.
#[verifier::external_body]
fn standard_engine(strings: usize) -> (r: rhai::Engine)
    ensures
        registered(r).dom() == Set::<(Seq<char>, Seq<Seq<char>>)>::empty(),
        strings_kept(r) == strings,
{
    let mut engine = rhai::Engine::new_raw();
    engine.set_max_strings_interned(strings);
    let package = rhai::packages::StandardPackage::new();
    rhai::packages::Package::register_into_engine(&package, &mut engine);
    engine
}

/// Makes the random functions known to an engine (`rhai::Engine::register_fn`), under the given
/// names: [`random_int`], `fastrand::bool`, [`random_str`] and [`random_str_pattern`]. Each takes
/// the place of what was registered under its name and types before. Rhai panics on a function of
/// integers under a name that it uses for indexing.
#[verifier::external_body]
fn register_random(
    engine: &mut rhai::Engine,
    integer: &str,
    boolean: &str,
    letters: &str,
    pattern: &str,
)
    requires
        is_function_name(integer@),
        is_function_name(letters@),
    ensures
        registered(*final(engine)) == registered(*old(engine)).insert(
            (integer@, seq!["i64"@, "i64"@]),
            "random_int"@,
        ).insert((boolean@, Seq::empty()), "fastrand::bool"@).insert(
            (letters@, seq!["i64"@, "i64"@]),
            "random_str"@,
        ).insert((pattern@, seq!["string"@]), "random_str_pattern"@),
        strings_kept(*final(engine)) == strings_kept(*old(engine)),
{
    engine.register_fn(integer, |l: i64, h: i64| -> Result<i64, Box<rhai::EvalAltResult>> {
        random_int(l, h).map_err(|e| e.into())
    });
    engine.register_fn(boolean, fastrand::bool);
    engine.register_fn(letters, random_str);
    engine.register_fn(pattern, |p: &str| -> Result<String, Box<rhai::EvalAltResult>> {
        random_str_pattern(p).map_err(|e| e.into())
    });
}

/// Makes the conversions to text known to an engine (`rhai::Engine::register_fn`), under the given
/// name: [`integer`], [`truth_text`], a text as it is, and the `Display` of `rhai::Dynamic`. Each
/// takes the place of what was registered under its name and types before.
#[verifier::external_body]
fn register_to_text(engine: &mut rhai::Engine, name: &str)
    ensures
        registered(*final(engine)) == registered(*old(engine)).insert(
            (name@, seq!["i64"@]),
            "integer"@,
        ).insert((name@, seq!["bool"@]), "truth_text"@).insert(
            (name@, seq!["string"@]),
            "plain_text"@,
        ).insert((name@, seq!["Dynamic"@]), "rhai::Dynamic::to_string"@),
        strings_kept(*final(engine)) == strings_kept(*old(engine)),
{
    engine.register_fn(name, |v: i64| integer(v));
    engine.register_fn(name, |v: bool| truth_text(v));
    engine.register_fn(name, |v: String| plain_text(v));
    engine.register_fn(name, |v: rhai::Dynamic| v.to_string());
}

/// Makes the conversions to integers known to an engine (`rhai::Engine::register_fn`), under the
/// given name: [`to_int`], of a text and of the `Display` of `rhai::Dynamic`. Each takes the place
/// of what was registered under its name and types before.
#[verifier::external_body]
fn register_to_integer(engine: &mut rhai::Engine, name: &str)
    ensures
        registered(*final(engine)) == registered(*old(engine)).insert(
            (name@, seq!["string"@]),
            "to_int"@,
        ).insert((name@, seq!["Dynamic"@]), "to_int"@),
        strings_kept(*final(engine)) == strings_kept(*old(engine)),
{
    let number = |text: String| match to_int(&text) {
        Ok(n) => rhai::Dynamic::from_int(n),
        Err(e) => rhai::Dynamic::from(e),
    };
    engine.register_fn(name, number);
    engine.register_fn(name, move |v: rhai::Dynamic| number(v.to_string()));
}

/// The functions of templates, and the types of their parameters.
pub open spec fn template_functions() -> Map<(Seq<char>, Seq<Seq<char>>), Seq<char>> {
    map![
        ("randomInt"@, seq!["i64"@, "i64"@]) => "random_int"@,
        ("randomBool"@, Seq::empty()) => "fastrand::bool"@,
        ("randomStr"@, seq!["i64"@, "i64"@]) => "random_str"@,
        ("randomStrWithPattern"@, seq!["string"@]) => "random_str_pattern"@,
        ("toStr"@, seq!["i64"@]) => "integer"@,
        ("toStr"@, seq!["bool"@]) => "truth_text"@,
        ("toStr"@, seq!["string"@]) => "plain_text"@,
        ("toStr"@, seq!["Dynamic"@]) => "rhai::Dynamic::to_string"@,
        ("toInt"@, seq!["string"@]) => "to_int"@,
        ("toInt"@, seq!["Dynamic"@]) => "to_int"@,
    ]
}

/// An engine that knows the functions of templates: `randomInt`, `randomBool`, `randomStr`,
/// `randomStrWithPattern`, `toStr` and `toInt`.
pub fn build_engine() -> (r: rhai::Engine)
    ensures
        registered(r) == template_functions(),
        strings_kept(r) == MAX_STRINGS_INTERNED,
{
    proof {
        reveal_strlit("randomInt");
        reveal_strlit("randomStr");
    }
    let mut engine = standard_engine(MAX_STRINGS_INTERNED);
    register_random(&mut engine, "randomInt", "randomBool", "randomStr", "randomStrWithPattern");
    register_to_text(&mut engine, "toStr");
    register_to_integer(&mut engine, "toInt");
    assert(registered(engine) =~= template_functions());
    engine
}

} // verus!
