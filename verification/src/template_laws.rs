//! Laws of templates: the values of expressions are put where the expressions were found, and
//! nothing else changes.

use vstd::prelude::*;

use crate::json::{
    key_index, lemma_key_index, lemma_unique_index, set_entry, unique_keys, JsonView,
};
use crate::pointer::{
    is_plain, lemma_longer_path, lemma_place_push, lemma_place_same, lemma_place_twice,
    lemma_placed, lemma_position, lemma_resolve_push, placed, position, step_into, steps_of,
    value_at, with_inner,
};
use crate::template::{
    all_placed, chain, expression_of, expressions, inner_path, item_parts, lemma_chain_member,
    member_parts, paths_of, plain_names, templates_of, with_all, Template,
};
use crate::text::{decimal_text, lemma_decimal_round_trip};

verus! {

/// The paths of what was found.
pub open spec fn found_paths(list: Seq<(Seq<char>, Seq<char>)>) -> Seq<Seq<char>> {
    Seq::new(list.len(), |i: int| list[i].0)
}

/// The values for part `i` of what was found.
pub open spec fn values_for(
    parts: Seq<Seq<(Seq<char>, Seq<char>)>>,
    values: Seq<JsonView>,
    i: int,
) -> Seq<JsonView> {
    values.subrange(chain(parts.take(i)).len() as int, chain(parts.take(i + 1)).len() as int)
}

/// A document in which every string with an expression has given way to a value, in order.
/// Everything else is as it was.
pub open spec fn replaced(json: JsonView, path: Seq<char>, values: Seq<JsonView>) -> JsonView
    decreases json,
{
    match json {
        JsonView::String(s) => if expression_of(s) is Some {
            values[0]
        } else {
            json
        },
        JsonView::Array(v) => JsonView::Array(replaced_items(v, path, values)),
        JsonView::Object(e) => JsonView::Object(replaced_members(e, path, values)),
        _ => json,
    }
}

/// The items of an array, each with its own values.
pub open spec fn replaced_items(
    v: Seq<JsonView>,
    path: Seq<char>,
    values: Seq<JsonView>,
) -> Seq<JsonView>
    decreases v,
{
    Seq::new(
        v.len(),
        |i: int|
            if 0 <= i < v.len() {
                replaced(
                    v[i],
                    inner_path(path, decimal_text(i as nat)),
                    values_for(item_parts(v, path), values, i),
                )
            } else {
                JsonView::Null
            },
    )
}

/// The members of an object, each with its own values.
pub open spec fn replaced_members(
    e: Seq<(Seq<char>, JsonView)>,
    path: Seq<char>,
    values: Seq<JsonView>,
) -> Seq<(Seq<char>, JsonView)>
    decreases e,
{
    Seq::new(
        e.len(),
        |i: int|
            if 0 <= i < e.len() {
                (
                    e[i].0,
                    replaced(
                        e[i].1,
                        inner_path(path, e[i].0),
                        values_for(member_parts(e, path), values, i),
                    ),
                )
            } else {
                (Seq::empty(), JsonView::Null)
            },
    )
}

proof fn lemma_all_placed_chain(
    json: JsonView,
    a: Seq<Seq<char>>,
    b: Seq<Seq<char>>,
    x: Seq<JsonView>,
    y: Seq<JsonView>,
)
    requires
        a.len() == x.len(),
        b.len() == y.len(),
    ensures
        all_placed(json, a + b, x + y) == all_placed(all_placed(json, a, x), b, y),
    decreases b.len(),
{
    if b.len() == 0 {
        assert(a + b =~= a);
        assert(x + y =~= x);
    } else {
        lemma_all_placed_chain(json, a, b.drop_last(), x, y.drop_last());
        assert((a + b).drop_last() =~= a + b.drop_last());
        assert((x + y).drop_last() =~= x + y.drop_last());
        assert((a + b).last() == b.last());
        assert((x + y).last() == y.last());
    }
}

/// What is found in the first parts comes first.
proof fn lemma_chain_grows<T>(parts: Seq<Seq<T>>, i: int)
    requires
        0 <= i < parts.len(),
    ensures
        chain(parts.take(i + 1)) == chain(parts.take(i)) + parts[i],
        chain(parts.take(i + 1)).len() <= chain(parts).len(),
    decreases parts.len() - i,
{
    assert(parts.take(i + 1).drop_last() =~= parts.take(i));
    assert(parts.take(i + 1).last() == parts[i]);
    if i + 1 < parts.len() {
        lemma_chain_grows(parts, i + 1);
    } else {
        assert(parts.take(i + 1) =~= parts);
    }
}

/// One part more: its values are put into the document that the parts before it led to.
proof fn lemma_next_part(
    root: JsonView,
    parts: Seq<Seq<(Seq<char>, Seq<char>)>>,
    values: Seq<JsonView>,
    i: int,
)
    requires
        0 <= i < parts.len(),
        values.len() == chain(parts).len(),
    ensures
        ({
            let done = chain(parts.take(i));
            let next = chain(parts.take(i + 1));
            &&& done.len() <= next.len() <= values.len()
            &&& values_for(parts, values, i).len() == parts[i].len()
            &&& all_placed(root, found_paths(next), values.take(next.len() as int)) == all_placed(
                all_placed(root, found_paths(done), values.take(done.len() as int)),
                found_paths(parts[i]),
                values_for(parts, values, i),
            )
        }),
{
    lemma_chain_grows(parts, i);
    let done = chain(parts.take(i));
    let next = chain(parts.take(i + 1));
    assert(found_paths(next) =~= found_paths(done) + found_paths(parts[i]));
    assert(values.take(next.len() as int) =~= values.take(done.len() as int) + values_for(
        parts,
        values,
        i,
    ));
    lemma_all_placed_chain(
        root,
        found_paths(done),
        found_paths(parts[i]),
        values.take(done.len() as int),
        values_for(parts, values, i),
    );
}

/// The first `i` items replaced.
spec fn items_to(v: Seq<JsonView>, path: Seq<char>, values: Seq<JsonView>, i: int) -> Seq<JsonView> {
    Seq::new(
        v.len(),
        |k: int|
            if k < i {
                replaced_items(v, path, values)[k]
            } else {
                v[k]
            },
    )
}

/// The first `i` members replaced.
spec fn members_to(
    e: Seq<(Seq<char>, JsonView)>,
    path: Seq<char>,
    values: Seq<JsonView>,
    i: int,
) -> Seq<(Seq<char>, JsonView)> {
    Seq::new(
        e.len(),
        |k: int|
            if k < i {
                replaced_members(e, path, values)[k]
            } else {
                e[k]
            },
    )
}

/// Putting the values of what was found in a part of a document replaces that part.
proof fn lemma_part_replaced(
    root: JsonView,
    json: JsonView,
    path: Seq<char>,
    values: Seq<JsonView>,
)
    requires
        value_at(root, path) == Some(json),
        plain_names(json),
        values.len() == templates_of(json, path).len(),
    ensures
        all_placed(root, found_paths(templates_of(json, path)), values) == placed(
            root,
            steps_of(path)->0,
            replaced(json, path, values),
        ),
    decreases json, 0nat, 0nat,
{
    let steps = steps_of(path)->0;
    match json {
        JsonView::Array(v) => {
            let parts = item_parts(v, path);
            assert(parts.take(parts.len() as int) =~= parts);
            lemma_items_replaced(root, v, path, values, v.len() as int);
            assert(items_to(v, path, values, v.len() as int) =~= replaced_items(v, path, values));
            assert(values.take(values.len() as int) =~= values);
        },
        JsonView::Object(e) => {
            let parts = member_parts(e, path);
            assert(parts.take(parts.len() as int) =~= parts);
            lemma_members_replaced(root, e, path, values, e.len() as int);
            assert(members_to(e, path, values, e.len() as int) =~= replaced_members(
                e,
                path,
                values,
            ));
            assert(values.take(values.len() as int) =~= values);
        },
        JsonView::String(s) => {
            if expression_of(s) is Some {
                let paths = found_paths(templates_of(json, path));
                assert(paths.drop_last() =~= Seq::empty());
                assert(paths.last() == path);
                assert(all_placed(root, paths.drop_last(), values.drop_last()) == root);
                assert(values.last() == values[0]);
            } else {
                lemma_place_same(root, steps);
            }
        },
        _ => {
            lemma_place_same(root, steps);
        },
    }
}

#[verifier::rlimit(40)]
proof fn lemma_items_replaced(
    root: JsonView,
    v: Seq<JsonView>,
    path: Seq<char>,
    values: Seq<JsonView>,
    i: int,
)
    requires
        value_at(root, path) == Some(JsonView::Array(v)),
        plain_names(JsonView::Array(v)),
        values.len() == chain(item_parts(v, path)).len(),
        0 <= i <= v.len(),
    ensures
        ({
            let done = chain(item_parts(v, path).take(i));
            all_placed(root, found_paths(done), values.take(done.len() as int)) == placed(
                root,
                steps_of(path)->0,
                JsonView::Array(items_to(v, path, values, i)),
            )
        }),
    decreases v, 1nat, i,
{
    let steps = steps_of(path)->0;
    let parts = item_parts(v, path);
    if i == 0 {
        assert(parts.take(0) =~= Seq::empty());
        assert(chain(parts.take(0)).len() == 0);
        lemma_place_same(root, steps);
        assert(items_to(v, path, values, 0) =~= v);
    } else {
        let k = i - 1;
        lemma_items_replaced(root, v, path, values, k);
        lemma_next_part(root, parts, values, k);
        let done = chain(parts.take(k));
        let now = items_to(v, path, values, k);
        let before = all_placed(root, found_paths(done), values.take(done.len() as int));
        lemma_placed(root, steps, JsonView::Array(now));
        let step = decimal_text(k as nat);
        let here = inner_path(path, step);
        assert(now.len() == v.len() && now[k] == v[k]);
        assert(position(step, v.len() as int) == Some(k) && is_plain(step)) by {
            lemma_position(k as nat, v.len() as int);
        }
        assert(steps_of(here) == Some(steps.push(step))) by {
            lemma_longer_path(path, step);
        }
        assert(step_into(JsonView::Array(now), step) == Some(v[k]));
        assert(value_at(before, here) == Some(v[k])) by {
            lemma_resolve_push(before, steps, step);
        }
        assert(plain_names(v[k])) by {
            let whole = JsonView::Array(v);
            assert(plain_names(whole));
            assert(whole->Array_0 == v);
        }
        assert(parts[k] == templates_of(v[k], here));
        let inner = values_for(parts, values, k);
        assert(decreases_to!(v => v[k]));
        lemma_part_replaced(before, v[k], here, inner);
        let value = replaced(v[k], here, inner);
        lemma_place_push(before, steps, step, value);
        lemma_place_twice(
            root,
            steps,
            JsonView::Array(now),
            with_inner(JsonView::Array(now), step, value),
        );
        assert(now.update(k, value) =~= items_to(v, path, values, i));
    }
}

#[verifier::rlimit(40)]
proof fn lemma_members_replaced(
    root: JsonView,
    e: Seq<(Seq<char>, JsonView)>,
    path: Seq<char>,
    values: Seq<JsonView>,
    i: int,
)
    requires
        value_at(root, path) == Some(JsonView::Object(e)),
        plain_names(JsonView::Object(e)),
        values.len() == chain(member_parts(e, path)).len(),
        0 <= i <= e.len(),
    ensures
        ({
            let done = chain(member_parts(e, path).take(i));
            all_placed(root, found_paths(done), values.take(done.len() as int)) == placed(
                root,
                steps_of(path)->0,
                JsonView::Object(members_to(e, path, values, i)),
            )
        }),
    decreases e, 1nat, i,
{
    let steps = steps_of(path)->0;
    let parts = member_parts(e, path);
    if i == 0 {
        assert(parts.take(0) =~= Seq::empty());
        assert(chain(parts.take(0)).len() == 0);
        lemma_place_same(root, steps);
        assert(members_to(e, path, values, 0) =~= e);
    } else {
        let k = i - 1;
        lemma_members_replaced(root, e, path, values, k);
        lemma_next_part(root, parts, values, k);
        let done = chain(parts.take(k));
        let now = members_to(e, path, values, k);
        let before = all_placed(root, found_paths(done), values.take(done.len() as int));
        lemma_placed(root, steps, JsonView::Object(now));
        let step = e[k].0;
        assert(is_plain(e[k].0) && plain_names(e[k].1));
        assert forall|a: int, b: int| 0 <= a < b < now.len() implies (#[trigger] now[a]).0 != (
        #[trigger] now[b]).0 by {
            assert(now[a].0 == e[a].0 && now[b].0 == e[b].0);
        }
        assert(unique_keys(now));
        lemma_unique_index(now, k);
        lemma_longer_path(path, step);
        lemma_resolve_push(before, steps, step);
        assert(now[k] == e[k]);
        assert(step_into(JsonView::Object(now), step) == Some(e[k].1));
        assert(value_at(before, inner_path(path, step)) == Some(e[k].1));
        assert(parts[k] == templates_of(e[k].1, inner_path(path, step)));
        let inner = values_for(parts, values, k);
        assert(decreases_to!(e => e[k]));
        assert(decreases_to!(e[k] => e[k].1));
        lemma_part_replaced(before, e[k].1, inner_path(path, step), inner);
        let value = replaced(e[k].1, inner_path(path, step), inner);
        lemma_place_push(before, steps, step, value);
        lemma_place_twice(
            root,
            steps,
            JsonView::Object(now),
            with_inner(JsonView::Object(now), step, value),
        );
        assert(now.update(k, (step, value)) =~= members_to(e, path, values, i));
        assert(set_entry(now, step, value) =~= now.update(k, (step, value)));
    }
}

/// Putting the values of all expressions of a document replaces the strings that hold them, in
/// order, and leaves everything else as it was.
pub proof fn lemma_populate(json: JsonView, values: Seq<JsonView>)
    requires
        plain_names(json),
        values.len() == templates_of(json, Seq::empty()).len(),
    ensures
        all_placed(json, found_paths(templates_of(json, Seq::empty())), values) == replaced(
            json,
            Seq::empty(),
            values,
        ),
{
    assert(value_at(json, Seq::empty()) == Some(json));
    lemma_part_replaced(json, json, Seq::empty(), values);
}

/// The steps of a path begin with the given steps.
spec fn goes_through(path: Seq<char>, steps: Seq<Seq<char>>) -> bool {
    &&& steps_of(path) is Some
    &&& steps.len() <= steps_of(path)->0.len()
    &&& steps_of(path)->0.take(steps.len() as int) == steps
}

proof fn lemma_goes_through(path: Seq<char>, steps: Seq<Seq<char>>, step: Seq<char>)
    requires
        goes_through(path, steps.push(step)),
    ensures
        goes_through(path, steps),
        steps_of(path)->0[steps.len() as int] == step,
{
    let all = steps_of(path)->0;
    let longer = steps.push(step);
    assert(all.take(longer.len() as int)[steps.len() as int] == step);
    assert(all.take(steps.len() as int) =~= all.take(longer.len() as int).take(
        steps.len() as int,
    ));
    assert(longer.take(steps.len() as int) =~= steps);
}

/// What is found in a part of a document is found below the path of that part.
proof fn lemma_found_through(json: JsonView, path: Seq<char>, k: int)
    requires
        steps_of(path) is Some,
        plain_names(json),
        0 <= k < templates_of(json, path).len(),
    ensures
        goes_through(templates_of(json, path)[k].0, steps_of(path)->0),
    decreases json,
{
    let steps = steps_of(path)->0;
    match json {
        JsonView::String(s) => {
            assert(steps.take(steps.len() as int) =~= steps);
        },
        JsonView::Array(v) => {
            let parts = item_parts(v, path);
            let at = lemma_chain_member(parts, k);
            let step = decimal_text(at.0 as nat);
            lemma_position(at.0 as nat, v.len() as int);
            lemma_longer_path(path, step);
            assert(plain_names(v[at.0]));
            lemma_found_through(v[at.0], inner_path(path, step), at.1);
            lemma_goes_through(templates_of(json, path)[k].0, steps, step);
        },
        JsonView::Object(e) => {
            let parts = member_parts(e, path);
            let at = lemma_chain_member(parts, k);
            let step = e[at.0].0;
            assert(is_plain(e[at.0].0) && plain_names(e[at.0].1));
            lemma_longer_path(path, step);
            assert(decreases_to!(json => json->Object_0));
            assert(decreases_to!(e => e[at.0]));
            assert(decreases_to!(e[at.0] => e[at.0].1));
            lemma_found_through(e[at.0].1, inner_path(path, step), at.1);
            lemma_goes_through(templates_of(json, path)[k].0, steps, step);
        },
        _ => {},
    }
}

/// No two expressions of a document are found under the same path.
pub proof fn lemma_paths_differ(json: JsonView, path: Seq<char>, a: int, b: int)
    requires
        steps_of(path) is Some,
        plain_names(json),
        0 <= a < b < templates_of(json, path).len(),
    ensures
        templates_of(json, path)[a].0 != templates_of(json, path)[b].0,
    decreases json,
{
    let steps = steps_of(path)->0;
    match json {
        JsonView::Array(v) => {
            let parts = item_parts(v, path);
            let i = lemma_chain_member(parts, a);
            let j = lemma_chain_member(parts, b);
            let x = decimal_text(i.0 as nat);
            let y = decimal_text(j.0 as nat);
            lemma_position(i.0 as nat, v.len() as int);
            lemma_position(j.0 as nat, v.len() as int);
            lemma_longer_path(path, x);
            lemma_longer_path(path, y);
            assert(plain_names(v[i.0]) && plain_names(v[j.0]));
            if i.0 == j.0 {
                lemma_paths_differ(v[i.0], inner_path(path, x), i.1, j.1);
            } else {
                lemma_found_through(v[i.0], inner_path(path, x), i.1);
                lemma_found_through(v[j.0], inner_path(path, y), j.1);
                lemma_goes_through(templates_of(json, path)[a].0, steps, x);
                lemma_goes_through(templates_of(json, path)[b].0, steps, y);
                lemma_decimal_round_trip(i.0 as nat);
                lemma_decimal_round_trip(j.0 as nat);
            }
        },
        JsonView::Object(e) => {
            let parts = member_parts(e, path);
            let i = lemma_chain_member(parts, a);
            let j = lemma_chain_member(parts, b);
            let x = e[i.0].0;
            let y = e[j.0].0;
            assert(is_plain(e[i.0].0) && plain_names(e[i.0].1));
            assert(is_plain(e[j.0].0) && plain_names(e[j.0].1));
            lemma_longer_path(path, x);
            lemma_longer_path(path, y);
            if i.0 == j.0 {
                assert(decreases_to!(json => json->Object_0));
                assert(decreases_to!(e => e[i.0]));
                assert(decreases_to!(e[i.0] => e[i.0].1));
                lemma_paths_differ(e[i.0].1, inner_path(path, x), i.1, j.1);
            } else {
                lemma_found_through(e[i.0].1, inner_path(path, x), i.1);
                lemma_found_through(e[j.0].1, inner_path(path, y), j.1);
                lemma_goes_through(templates_of(json, path)[a].0, steps, x);
                lemma_goes_through(templates_of(json, path)[b].0, steps, y);
            }
        },
        _ => {},
    }
}

/// Entries with distinct names, set one after the other, are all there, in order.
proof fn lemma_with_all_distinct(list: Seq<(Seq<char>, Seq<char>)>)
    requires
        unique_keys(list),
    ensures
        with_all(Seq::empty(), list) == list,
    decreases list.len(),
{
    if list.len() == 0 {
        assert(list =~= Seq::empty());
    } else {
        let before = list.drop_last();
        assert forall|i: int, j: int| 0 <= i < j < before.len() implies (#[trigger] before[i]).0
            != (#[trigger] before[j]).0 by {
            assert(before[i] == list[i] && before[j] == list[j]);
        }
        lemma_with_all_distinct(before);
        lemma_key_index(before, list.last().0);
        let at = key_index(before, list.last().0);
        if at >= 0 {
            assert(list[at].0 == list[list.len() - 1].0);
        }
        assert(before.push(list.last()) =~= list);
    }
}

/// What is noted of the expressions of a document, with nothing noted yet, is what is found, in
/// order.
pub proof fn lemma_found_in_order(json: JsonView, entries: Seq<(Seq<char>, Template)>)
    requires
        plain_names(json),
        expressions(entries) == with_all(Seq::empty(), templates_of(json, Seq::empty())),
    ensures
        expressions(entries) == templates_of(json, Seq::empty()),
{
    let list = templates_of(json, Seq::empty());
    assert forall|i: int, j: int| 0 <= i < j < list.len() implies (#[trigger] list[i]).0 != (
    #[trigger] list[j]).0 by {
        lemma_paths_differ(json, Seq::empty(), i, j);
    }
    lemma_with_all_distinct(list);
}

/// Finding the expressions of a document with nothing noted yet, and putting values in their
/// places, replaces the strings that hold them and leaves everything else as it was. `entries` are
/// what is noted of the expressions that are found.
pub proof fn lemma_parse_and_populate(
    json: JsonView,
    entries: Seq<(Seq<char>, Template)>,
    values: Seq<JsonView>,
)
    requires
        plain_names(json),
        expressions(entries) == with_all(Seq::empty(), templates_of(json, Seq::empty())),
        values.len() == entries.len(),
    ensures
        all_placed(json, paths_of(entries), values) == replaced(json, Seq::empty(), values),
{
    let list = templates_of(json, Seq::empty());
    lemma_found_in_order(json, entries);
    assert(paths_of(entries) =~= found_paths(list)) by {
        assert(expressions(entries).len() == entries.len());
        assert forall|i: int| 0 <= i < entries.len() implies paths_of(entries)[i] == found_paths(
            list,
        )[i] by {
            assert(expressions(entries)[i] == list[i]);
        }
    }
    lemma_populate(json, values);
}

} // verus!
