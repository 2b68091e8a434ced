//! JSON pointers: paths such as `/requests/0/url` into a document.

use vstd::prelude::*;

use crate::json::{
    find_entry, items_view, key_index, lemma_array_view, lemma_key_index, lemma_object_view,
    lemma_set_entry, lookup, put_entry, set_entry, Json, JsonView,
};
use crate::text::{
    chars_of, decimal_text, is_digit, lemma_decimal_round_trip, lemma_split_tail,
    lemma_split_whole, natural_value, parse_natural, split, split_on, text_of, texts_view,
};

verus! {

/// A step of a path, with `~1` read as `/` and `~0` as `~`.
pub open spec fn unescaped(t: Seq<char>) -> Seq<char>
    decreases t.len(),
{
    if t.len() == 0 {
        t
    } else if t.len() >= 2 && t[0] == '~' && t[1] == '1' {
        seq!['/'] + unescaped(t.skip(2))
    } else if t.len() >= 2 && t[0] == '~' && t[1] == '0' {
        seq!['~'] + unescaped(t.skip(2))
    } else {
        seq![t[0]] + unescaped(t.skip(1))
    }
}

pub open spec fn unescaped_all(parts: Seq<Seq<char>>) -> Seq<Seq<char>> {
    Seq::new(parts.len(), |i: int| unescaped(parts[i]))
}

/// The steps of a path: none for the empty path. Any other path begins with `/`.
pub open spec fn steps_of(path: Seq<char>) -> Option<Seq<Seq<char>>> {
    if path.len() == 0 {
        Some(Seq::empty())
    } else if path[0] != '/' {
        None
    } else {
        Some(unescaped_all(split_on(path.skip(1), '/')))
    }
}

/// The position that a step denotes in an array of `len` items: a number without a sign and
/// without leading zeros.
pub open spec fn position(step: Seq<char>, len: int) -> Option<int> {
    if step.len() > 0 && (step[0] == '+' || (step[0] == '0' && step.len() != 1)) {
        None
    } else {
        match natural_value(step) {
            Some(n) => if n < len {
                Some(n as int)
            } else {
                None
            },
            None => None,
        }
    }
}

/// The value that a step leads to.
pub open spec fn step_into(json: JsonView, step: Seq<char>) -> Option<JsonView> {
    match json {
        JsonView::Object(e) => lookup(e, step),
        JsonView::Array(v) => match position(step, v.len() as int) {
            Some(i) => Some(v[i]),
            None => None,
        },
        _ => None,
    }
}

/// The value at the end of the steps.
pub open spec fn resolve(json: JsonView, steps: Seq<Seq<char>>) -> Option<JsonView>
    decreases steps.len(),
{
    if steps.len() == 0 {
        Some(json)
    } else {
        match step_into(json, steps[0]) {
            Some(inner) => resolve(inner, steps.skip(1)),
            None => None,
        }
    }
}

/// A document with another value one step into it.
pub open spec fn with_inner(json: JsonView, step: Seq<char>, inner: JsonView) -> JsonView {
    match json {
        JsonView::Object(e) => JsonView::Object(set_entry(e, step, inner)),
        JsonView::Array(v) => JsonView::Array(v.update(position(step, v.len() as int)->0, inner)),
        _ => json,
    }
}

/// A document with `value` at the end of the steps; as it was where they lead nowhere.
pub open spec fn placed(json: JsonView, steps: Seq<Seq<char>>, value: JsonView) -> JsonView
    decreases steps.len(),
{
    if steps.len() == 0 {
        value
    } else {
        match step_into(json, steps[0]) {
            Some(inner) => with_inner(json, steps[0], placed(inner, steps.skip(1), value)),
            None => json,
        }
    }
}

/// A document with `value` at the end of a path; as it was where the path leads nowhere.
pub open spec fn placed_at(json: JsonView, path: Seq<char>, value: JsonView) -> JsonView {
    match steps_of(path) {
        Some(steps) => if resolve(json, steps) is Some {
            placed(json, steps, value)
        } else {
            json
        },
        None => json,
    }
}

/// The value at the end of a path.
pub open spec fn value_at(json: JsonView, path: Seq<char>) -> Option<JsonView> {
    match steps_of(path) {
        Some(steps) => resolve(json, steps),
        None => None,
    }
}

fn unescape(step: &str) -> (r: String)
    ensures
        r@ == unescaped(step@),
{
    let chars = chars_of(step);
    let mut r = String::new();
    let mut i: usize = 0;
    assert(chars@.skip(0) =~= chars@);
    while i < chars.len()
        invariant
            i <= chars@.len(),
            chars@ == step@,
            unescaped(step@) == r@ + unescaped(chars@.skip(i as int)),
        decreases chars@.len() - i,
    {
        let ghost rest = chars@.skip(i as int);
        let ghost before = r@;
        let escape = chars[i] == '~' && chars.len() - i >= 2;
        if escape && chars[i + 1] == '1' {
            r.push('/');
            i += 2;
            proof {
                assert(rest.skip(2) =~= chars@.skip(i as int));
                assert(rest[0] == '~' && rest[1] == '1');
                assert(before + (seq!['/'] + unescaped(rest.skip(2))) =~= r@ + unescaped(
                    rest.skip(2),
                ));
            }
        } else if escape && chars[i + 1] == '0' {
            r.push('~');
            i += 2;
            proof {
                assert(rest.skip(2) =~= chars@.skip(i as int));
                assert(rest[0] == '~' && rest[1] == '0');
                assert(before + (seq!['~'] + unescaped(rest.skip(2))) =~= r@ + unescaped(
                    rest.skip(2),
                ));
            }
        } else {
            r.push(chars[i]);
            i += 1;
            proof {
                assert(rest.skip(1) =~= chars@.skip(i as int));
                assert(before + (seq![rest[0]] + unescaped(rest.skip(1))) =~= r@ + unescaped(
                    rest.skip(1),
                ));
            }
        }
    }
    assert(chars@.skip(i as int) =~= Seq::empty());
    assert(r@ + Seq::<char>::empty() =~= r@);
    r
}

/// Reads the steps of a path.
fn parse_steps(path: &str) -> (r: Option<Vec<String>>)
    ensures
        match r {
            Some(steps) => steps_of(path@) == Some(texts_view(steps@)),
            None => steps_of(path@) is None,
        },
{
    let chars = chars_of(path);
    let mut steps: Vec<String> = Vec::new();
    if chars.len() == 0 {
        assert(texts_view(steps@) =~= Seq::empty());
        return Some(steps);
    }
    if chars[0] != '/' {
        return None;
    }
    let rest = text_of(&chars, 1, chars.len());
    assert(rest@ =~= path@.skip(1));
    let parts = split(rest.as_str(), '/');
    let ghost all = split_on(rest@, '/');
    let mut i: usize = 0;
    while i < parts.len()
        invariant
            i <= parts@.len(),
            texts_view(parts@) == all,
            steps@.len() == i,
            forall|k: int| 0 <= k < i ==> (#[trigger] steps@[k])@ == unescaped(all[k]),
        decreases parts@.len() - i,
    {
        assert(all[i as int] == parts@[i as int]@);
        steps.push(unescape(parts[i].as_str()));
        i += 1;
    }
    assert(texts_view(steps@) =~= unescaped_all(all));
    Some(steps)
}

fn find_position(step: &str, len: usize) -> (r: Option<usize>)
    ensures
        match r {
            Some(i) => position(step@, len as int) == Some(i as int),
            None => position(step@, len as int) is None,
        },
{
    let chars = chars_of(step);
    if chars.len() > 0 && (chars[0] == '+' || (chars[0] == '0' && chars.len() != 1)) {
        return None;
    }
    match parse_natural(step, u64::MAX) {
        Some(n) => if n < len as u64 {
            Some(n as usize)
        } else {
            None
        },
        None => None,
    }
}

/// The value at the end of the steps from `from` on.
fn resolve_from<'a>(json: &'a Json, steps: &Vec<String>, from: usize) -> (r: Option<&'a Json>)
    requires
        from <= steps@.len(),
    ensures
        match r {
            Some(v) => resolve(json@, texts_view(steps@).skip(from as int)) == Some(v@),
            None => resolve(json@, texts_view(steps@).skip(from as int)) is None,
        },
    decreases steps@.len() - from,
{
    broadcast use {lemma_array_view, lemma_object_view};

    let ghost rest = texts_view(steps@).skip(from as int);
    if from == steps.len() {
        return Some(json);
    }
    assert(rest[0] == steps@[from as int]@);
    assert(rest.skip(1) =~= texts_view(steps@).skip(from + 1));
    match json {
        Json::Object(e) => match find_entry(e, steps[from].as_str()) {
            Some(i) => resolve_from(&e[i].1, steps, from + 1),
            None => None,
        },
        Json::Array(v) => match find_position(steps[from].as_str(), v.len()) {
            Some(i) => resolve_from(&v[i], steps, from + 1),
            None => None,
        },
        _ => None,
    }
}

/// The value at the end of a path.
pub fn pointer<'a>(json: &'a Json, path: &str) -> (r: Option<&'a Json>)
    ensures
        match r {
            Some(v) => value_at(json@, path@) == Some(v@),
            None => value_at(json@, path@) is None,
        },
{
    match parse_steps(path) {
        Some(steps) => {
            assert(texts_view(steps@).skip(0) =~= texts_view(steps@));
            resolve_from(json, &steps, 0)
        },
        None => None,
    }
}

/// The document with `value` at the end of the steps from `from` on.
fn place_from(json: &Json, steps: &Vec<String>, from: usize, value: &Json) -> (r: Json)
    requires
        from <= steps@.len(),
    ensures
        r@ == placed(json@, texts_view(steps@).skip(from as int), value@),
    decreases steps@.len() - from,
{
    broadcast use {lemma_array_view, lemma_object_view};

    let ghost rest = texts_view(steps@).skip(from as int);
    if from == steps.len() {
        return value.clone();
    }
    assert(rest[0] == steps@[from as int]@);
    assert(rest.skip(1) =~= texts_view(steps@).skip(from + 1));
    let mut copy = json.clone();
    match json {
        Json::Object(e) => match find_entry(e, steps[from].as_str()) {
            Some(i) => {
                let inner = place_from(&e[i].1, steps, from + 1, value);
                if let Json::Object(mut entries) = copy {
                    put_entry(&mut entries, steps[from].clone(), inner);
                    copy = Json::Object(entries);
                }
                copy
            },
            None => copy,
        },
        Json::Array(v) => match find_position(steps[from].as_str(), v.len()) {
            Some(i) => {
                let inner = place_from(&v[i], steps, from + 1, value);
                if let Json::Array(mut items) = copy {
                    assert(items_view(items@) == items_view(v@));
                    assert(items_view(items@).len() == items@.len());
                    assert(items_view(v@).len() == v@.len());
                    let ghost before = items_view(items@);
                    items.set(i, inner);
                    assert(items_view(items@) =~= before.update(i as int, inner@));
                    copy = Json::Array(items);
                }
                copy
            },
            None => copy,
        },
        _ => copy,
    }
}

/// Puts a value at the end of a path. Where the path leads nowhere, nothing changes.
pub fn place(json: &mut Json, path: &str, value: Json)
    ensures
        final(json)@ == placed_at(old(json)@, path@, value@),
{
    if let Some(steps) = parse_steps(path) {
        assert(texts_view(steps@).skip(0) =~= texts_view(steps@));
        if resolve_from(json, &steps, 0).is_some() {
            let after = place_from(json, &steps, 0, &value);
            *json = after;
        }
    }
}

/// A value that was put at the end of the steps is found there.
pub proof fn lemma_placed(json: JsonView, steps: Seq<Seq<char>>, value: JsonView)
    requires
        resolve(json, steps) is Some,
    ensures
        resolve(placed(json, steps, value), steps) == Some(value),
    decreases steps.len(),
{
    if steps.len() > 0 {
        let step = steps[0];
        let inner = step_into(json, step)->0;
        lemma_placed(inner, steps.skip(1), value);
        let after = placed(inner, steps.skip(1), value);
        if let JsonView::Object(e) = json {
            lemma_set_entry(e, step, after);
        }
        assert(step_into(with_inner(json, step, after), step) == Some(after));
    }
}

/// A value that was put at the end of a path is found there.
pub proof fn lemma_place_and_find(json: JsonView, path: Seq<char>, value: JsonView)
    requires
        value_at(json, path) is Some,
    ensures
        value_at(placed_at(json, path, value), path) == Some(value),
{
    lemma_placed(json, steps_of(path)->0, value);
}

/// Putting the value that is there changes nothing.
pub proof fn lemma_place_same(json: JsonView, steps: Seq<Seq<char>>)
    requires
        resolve(json, steps) is Some,
    ensures
        placed(json, steps, resolve(json, steps)->0) == json,
    decreases steps.len(),
{
    if steps.len() > 0 {
        let step = steps[0];
        let inner = step_into(json, step)->0;
        lemma_place_same(inner, steps.skip(1));
        match json {
            JsonView::Object(e) => {
                lemma_key_index(e, step);
                assert(set_entry(e, step, inner) =~= e);
            },
            JsonView::Array(v) => {
                assert(v.update(position(step, v.len() as int)->0, inner) =~= v);
            },
            _ => {},
        }
    }
}

/// The value that was put last counts.
pub proof fn lemma_place_twice(
    json: JsonView,
    steps: Seq<Seq<char>>,
    first: JsonView,
    second: JsonView,
)
    requires
        resolve(json, steps) is Some,
    ensures
        placed(placed(json, steps, first), steps, second) == placed(json, steps, second),
    decreases steps.len(),
{
    if steps.len() > 0 {
        let step = steps[0];
        let inner = step_into(json, step)->0;
        lemma_place_twice(inner, steps.skip(1), first, second);
        let a = placed(inner, steps.skip(1), first);
        let b = placed(inner, steps.skip(1), second);
        match json {
            JsonView::Object(e) => {
                lemma_key_index(e, step);
                lemma_set_entry(e, step, a);
                lemma_key_index(set_entry(e, step, a), step);
                lemma_same_index(e, step, a);
                assert(set_entry(set_entry(e, step, a), step, b) =~= set_entry(e, step, b));
            },
            JsonView::Array(v) => {
                let i = position(step, v.len() as int)->0;
                assert(v.update(i, a).update(i, b) =~= v.update(i, b));
            },
            _ => {},
        }
    }
}

/// A member that is set stays where it is.
proof fn lemma_same_index(e: Seq<(Seq<char>, JsonView)>, key: Seq<char>, value: JsonView)
    requires
        key_index(e, key) >= 0,
    ensures
        key_index(set_entry(e, key, value), key) == key_index(e, key),
{
    let after = set_entry(e, key, value);
    lemma_key_index(e, key);
    lemma_key_index(after, key);
    let i = key_index(e, key);
    let k = key_index(after, key);
    assert(after[i].0 == key);
    if k > i {
        assert(after[k] == e[k]);
    }
}

/// Putting a value one step further is putting what it is part of.
pub proof fn lemma_place_push(
    json: JsonView,
    steps: Seq<Seq<char>>,
    step: Seq<char>,
    value: JsonView,
)
    requires
        resolve(json, steps) is Some,
        step_into(resolve(json, steps)->0, step) is Some,
    ensures
        placed(json, steps.push(step), value) == placed(
            json,
            steps,
            with_inner(resolve(json, steps)->0, step, value),
        ),
    decreases steps.len(),
{
    let all = steps.push(step);
    if steps.len() == 0 {
        reveal_with_fuel(placed, 2);
        assert(all.skip(1) =~= Seq::<Seq<char>>::empty());
        assert(all[0] == step);
    } else {
        assert(all[0] == steps[0]);
        assert(all.skip(1) =~= steps.skip(1).push(step));
        lemma_place_push(step_into(json, steps[0])->0, steps.skip(1), step, value);
    }
}

/// A name of a member that stands for itself in a path.
pub open spec fn is_plain(key: Seq<char>) -> bool {
    !key.contains('/') && !key.contains('~')
}

proof fn lemma_unescaped_plain(t: Seq<char>)
    requires
        !t.contains('~'),
    ensures
        unescaped(t) == t,
    decreases t.len(),
{
    if t.len() > 0 {
        assert(t.contains(t[0]));
        assert forall|i: int| 0 <= i < t.skip(1).len() implies t.skip(1)[i] != '~' by {
            assert(t.contains(t[i + 1]));
        }
        lemma_unescaped_plain(t.skip(1));
        assert(seq![t[0]] + t.skip(1) =~= t);
    }
}

/// A path that goes one step further.
pub proof fn lemma_longer_path(path: Seq<char>, key: Seq<char>)
    requires
        steps_of(path) is Some,
        is_plain(key),
    ensures
        steps_of(path + seq!['/'] + key) == Some(steps_of(path)->0.push(key)),
{
    let longer = path + seq!['/'] + key;
    lemma_unescaped_plain(key);
    if path.len() == 0 {
        assert(longer.skip(1) =~= key);
        lemma_split_whole(key, '/');
        assert(unescaped_all(seq![key]) =~= Seq::<Seq<char>>::empty().push(key));
    } else {
        assert(longer.skip(1) =~= path.skip(1) + seq!['/'] + key);
        lemma_split_tail(path.skip(1), key, '/');
        let parts = split_on(path.skip(1), '/');
        assert(unescaped_all(parts.push(key)) =~= unescaped_all(parts).push(key));
    }
}

/// Walking further is walking, and then one step more.
pub proof fn lemma_resolve_push(json: JsonView, steps: Seq<Seq<char>>, step: Seq<char>)
    ensures
        resolve(json, steps.push(step)) == (match resolve(json, steps) {
            Some(inner) => step_into(inner, step),
            None => None,
        }),
    decreases steps.len(),
{
    let all = steps.push(step);
    if steps.len() == 0 {
        reveal_with_fuel(resolve, 2);
        assert(all.skip(1) =~= Seq::<Seq<char>>::empty());
        assert(all[0] == step);
    } else {
        assert(all[0] == steps[0]);
        assert(all.skip(1) =~= steps.skip(1).push(step));
        if let Some(inner) = step_into(json, steps[0]) {
            lemma_resolve_push(inner, steps.skip(1), step);
        }
    }
}

proof fn lemma_leading_zero(n: nat)
    ensures
        decimal_text(n).len() > 0,
        decimal_text(n)[0] == '0' ==> decimal_text(n).len() == 1,
        forall|i: int| 0 <= i < decimal_text(n).len() ==> is_digit(#[trigger] decimal_text(n)[i]),
    decreases n,
{
    if n >= 10 {
        lemma_leading_zero(n / 10);
        if decimal_text(n)[0] == '0' {
            assert(decimal_text(n)[0] == decimal_text(n / 10)[0]);
            lemma_small_digit(n / 10);
        }
    }
}

proof fn lemma_small_digit(n: nat)
    requires
        n > 0,
    ensures
        decimal_text(n).len() > 0,
        decimal_text(n)[0] != '0',
    decreases n,
{
    if n >= 10 {
        lemma_small_digit(n / 10);
    }
}

/// A position in decimal leads to that position.
pub proof fn lemma_position(i: nat, len: int)
    requires
        i < len,
    ensures
        position(decimal_text(i), len) == Some(i as int),
        is_plain(decimal_text(i)),
{
    lemma_leading_zero(i);
    lemma_decimal_round_trip(i);
    let t = decimal_text(i);
    assert(is_digit(t[0]));
    assert forall|k: int| 0 <= k < t.len() implies t[k] != '/' && t[k] != '~' by {
        assert(is_digit(t[k]));
    }
}

} // verus!
