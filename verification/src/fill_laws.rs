//! Laws of paths into documents and of documents with expressions: what a path leads to, and what
//! a document looks like once its expressions have given way to values.

use vstd::prelude::*;

use crate::json::{key_index, lemma_key_index, Json, JsonView};
use crate::pointer::{
    lemma_place_and_find, lemma_resolve_push, place, pointer, position, steps_of, unescaped,
    unescaped_all,
};
use crate::random::is_letter;
use crate::template::{
    chain, compile_outcomes, expression_of, expressions, find_pattern_and_compile, inner_path,
    item_parts, member_parts, parse_templates, paths_of, plain_names, populate_data, template_outcomes,
    templates_of, value_of, Template,
};
use crate::template_functions::{
    build_engine, random_int, random_str, random_str_pattern, registered, text_or_note, to_int,
    truth_text,
};
use crate::template_laws::{
    lemma_parse_and_populate, replaced, replaced_items, replaced_members, values_for,
};
use crate::text::{decimal_text, lemma_split_tail, lemma_split_whole, split_on};
use crate::text_laws::{digits, lemma_natural_worth, worth};
use crate::text_map::TextMap;

verus! {

/// The functions that an engine knows.
pub type Functions = Map<(Seq<char>, Seq<Seq<char>>), Seq<char>>;

// ---------------------------------------------------------------------------------------------
// Paths
// ---------------------------------------------------------------------------------------------

/// How a name is written in a path: `~0` for a tilde and `~1` for a slash.
pub open spec fn escaped(name: Seq<char>) -> Seq<char>
    decreases name.len(),
{
    if name.len() == 0 {
        Seq::empty()
    } else if name[0] == '~' {
        seq!['~', '0'] + escaped(name.skip(1))
    } else if name[0] == '/' {
        seq!['~', '1'] + escaped(name.skip(1))
    } else {
        seq![name[0]] + escaped(name.skip(1))
    }
}

proof fn lemma_escaped(name: Seq<char>)
    ensures
        unescaped(escaped(name)) == name,
        !escaped(name).contains('/'),
    decreases name.len(),
{
    let all = escaped(name);
    if name.len() > 0 {
        let rest = escaped(name.skip(1));
        lemma_escaped(name.skip(1));
        assert forall|i: int| 0 <= i < all.len() implies all[i] != '/' by {
            if name[0] == '~' || name[0] == '/' {
                if i >= 2 {
                    assert(all[i] == rest[i - 2]);
                    assert(rest.contains(rest[i - 2]));
                }
            } else if i >= 1 {
                assert(all[i] == rest[i - 1]);
                assert(rest.contains(rest[i - 1]));
            }
        }
        if name[0] == '~' || name[0] == '/' {
            assert(all.skip(2) =~= rest);
            assert(seq![name[0]] + name.skip(1) =~= name);
        } else {
            assert(all.skip(1) =~= rest);
            assert(all[0] == name[0]);
            assert(seq![name[0]] + name.skip(1) =~= name);
        }
    } else {
        assert(name =~= Seq::empty());
    }
}

proof fn lemma_longer(path: Seq<char>, name: Seq<char>)
    requires
        steps_of(path) is Some,
    ensures
        steps_of(path + seq!['/'] + escaped(name)) == Some(steps_of(path)->0.push(name)),
{
    let key = escaped(name);
    let longer = path + seq!['/'] + key;
    lemma_escaped(name);
    if path.len() == 0 {
        assert(longer.skip(1) =~= key);
        lemma_split_whole(key, '/');
        assert(unescaped_all(seq![key]) =~= Seq::<Seq<char>>::empty().push(name));
    } else {
        assert(longer.skip(1) =~= path.skip(1) + seq!['/'] + key);
        lemma_split_tail(path.skip(1), key, '/');
        let parts = split_on(path.skip(1), '/');
        assert(unescaped_all(parts.push(key)) =~= unescaped_all(parts).push(name));
    }
}

/// The empty path leads to the document itself, and a path that neither is empty nor begins with
/// a slash leads nowhere.
pub proof fn lemma_root(json: Json, path: &str, r: Option<&Json>)
    requires
        call_ensures(pointer, (&json, path), r),
    ensures
        path@.len() == 0 ==> r is Some && r->0@ == json@,
        path@.len() > 0 && path@[0] != '/' ==> r is None,
{
}

/// A digit or more, without zeros in front.
pub open spec fn is_index(text: Seq<char>) -> bool {
    digits(text) && (text.len() > 1 ==> text[0] != '0')
}

/// A path that goes one step further leads one step further: to the last member of that name, or
/// to the item at that position, and nowhere where there is none.
pub proof fn lemma_further(
    json: Json,
    path: &str,
    longer: &str,
    name: Seq<char>,
    outer: Option<&Json>,
    inner: Option<&Json>,
    i: int,
)
    requires
        longer@ == path@ + seq!['/'] + escaped(name),
        call_ensures(pointer, (&json, path), outer),
        call_ensures(pointer, (&json, longer), inner),
    ensures
        outer is None && path@.len() > 0 && path@[0] == '/' ==> inner is None,
        outer matches Some(o) ==> match o@ {
            JsonView::Object(e) => {
                &&& inner is Some <==> exists|k: int|
                    0 <= k < e.len() && (#[trigger] e[k]).0 == name
                &&& 0 <= i < e.len() && e[i].0 == name && (forall|k: int|
                    i < k < e.len() ==> (#[trigger] e[k]).0 != name) ==> inner is Some
                    && inner->0@ == e[i].1
            },
            JsonView::Array(v) => {
                &&& inner is Some <==> is_index(name) && worth(name) < v.len()
                &&& inner matches Some(x) ==> x@ == v[worth(name)]
            },
            _ => inner is None,
        },
{
    if let Some(steps) = steps_of(path@) {
        lemma_longer(path@, name);
        lemma_resolve_push(json@, steps, name);
        lemma_natural_worth(name);
        if let Some(o) = outer {
            if let JsonView::Object(e) = o@ {
                lemma_key_index(e, name);
                let k = key_index(e, name);
                if 0 <= i < e.len() && e[i].0 == name && (forall|k: int|
                    i < k < e.len() ==> (#[trigger] e[k]).0 != name) {
                    assert(k == i);
                }
                if k >= 0 {
                    assert(e[k].0 == name);
                }
            }
            if let JsonView::Array(v) = o@ {
                if name.len() > 0 && name[0] == '+' {
                    assert(!digits(name)) by {
                        assert(!('0' <= name[0]));
                    }
                }
            }
        }
    }
}

/// A value that is put at the end of a path is found there, where the path led somewhere;
/// otherwise nothing changes.
pub proof fn lemma_put_and_found(
    json: &mut Json,
    path: &str,
    value: Json,
    before: Option<&Json>,
    after: Option<&Json>,
)
    requires
        call_ensures(pointer, (&*old(json), path), before),
        call_ensures(place, (json, path, value), ()),
        call_ensures(pointer, (&*final(json), path), after),
    ensures
        before is Some ==> after is Some && after->0@ == value@,
        before is None ==> final(json)@ == old(json)@,
{
    if before is Some {
        lemma_place_and_find(old(json)@, path@, value@);
    }
}

// ---------------------------------------------------------------------------------------------
// Expressions
// ---------------------------------------------------------------------------------------------

/// What may stand for an expression: what it can come to, or the message of an error.
pub open spec fn may_stand(expression: Seq<char>, functions: Functions, value: JsonView) -> bool {
    ||| template_outcomes(expression, functions).contains(Ok(value))
    ||| value matches JsonView::String(message) && (template_outcomes(
        expression,
        functions,
    ).contains(Err(message)) || compile_outcomes(expression, functions).contains(Some(message)))
}

/// A document is another one in which every string with an expression has given way to a value
/// that may stand for it, and in which nothing else changed.
pub open spec fn filled(before: JsonView, after: JsonView, functions: Functions) -> bool
    decreases before,
{
    match before {
        JsonView::String(s) => match expression_of(s) {
            Some(expression) => may_stand(expression, functions, after),
            None => after == before,
        },
        JsonView::Array(v) => {
            &&& after is Array
            &&& after->Array_0.len() == v.len()
            &&& forall|i: int|
                0 <= i < v.len() ==> filled(#[trigger] v[i], after->Array_0[i], functions)
        },
        JsonView::Object(e) => {
            &&& after is Object
            &&& after->Object_0.len() == e.len()
            &&& forall|i: int|
                0 <= i < e.len() ==> after->Object_0[i].0 == (#[trigger] e[i]).0 && filled(
                    e[i].1,
                    after->Object_0[i].1,
                    functions,
                )
        },
        _ => after == before,
    }
}

proof fn lemma_chain_take<T>(parts: Seq<Seq<T>>, i: int)
    requires
        0 <= i < parts.len(),
    ensures
        chain(parts.take(i + 1)) == chain(parts.take(i)) + parts[i],
{
    assert(parts.take(i + 1).drop_last() =~= parts.take(i));
    assert(parts.take(i + 1).last() == parts[i]);
}

proof fn lemma_chain_prefix<T>(parts: Seq<Seq<T>>, i: int)
    requires
        0 <= i <= parts.len(),
    ensures
        chain(parts.take(i)).len() <= chain(parts).len(),
        forall|k: int|
            0 <= k < chain(parts.take(i)).len() ==> #[trigger] chain(parts)[k] == chain(
                parts.take(i),
            )[k],
    decreases parts.len() - i,
{
    if i < parts.len() {
        lemma_chain_take(parts, i);
        lemma_chain_prefix(parts, i + 1);
        assert forall|k: int| 0 <= k < chain(parts.take(i)).len() implies #[trigger] chain(
            parts,
        )[k] == chain(parts.take(i))[k] by {
            assert(chain(parts)[k] == chain(parts.take(i + 1))[k]);
        }
    } else {
        assert(parts.take(i) =~= parts);
    }
}

/// The values for one part of what was found suit that part.
proof fn lemma_values_suit(
    parts: Seq<Seq<(Seq<char>, Seq<char>)>>,
    values: Seq<JsonView>,
    functions: Functions,
    i: int,
)
    requires
        0 <= i < parts.len(),
        values.len() == chain(parts).len(),
        forall|k: int|
            0 <= k < values.len() ==> may_stand(
                chain(parts)[k].1,
                functions,
                #[trigger] values[k],
            ),
    ensures
        values_for(parts, values, i).len() == parts[i].len(),
        forall|k: int|
            0 <= k < parts[i].len() ==> may_stand(
                parts[i][k].1,
                functions,
                #[trigger] values_for(parts, values, i)[k],
            ),
{
    lemma_chain_take(parts, i);
    lemma_chain_prefix(parts, i + 1);
    let from = chain(parts.take(i)).len() as int;
    assert forall|k: int| 0 <= k < parts[i].len() implies may_stand(
        parts[i][k].1,
        functions,
        #[trigger] values_for(parts, values, i)[k],
    ) by {
        assert(values_for(parts, values, i)[k] == values[from + k]);
        assert(chain(parts)[from + k] == chain(parts.take(i + 1))[from + k]);
        assert(chain(parts.take(i + 1))[from + k] == parts[i][k]);
    }
}

proof fn lemma_filled(json: JsonView, path: Seq<char>, values: Seq<JsonView>, functions: Functions)
    requires
        values.len() == templates_of(json, path).len(),
        forall|k: int|
            0 <= k < values.len() ==> may_stand(
                templates_of(json, path)[k].1,
                functions,
                #[trigger] values[k],
            ),
    ensures
        filled(json, replaced(json, path, values), functions),
    decreases json,
{
    match json {
        JsonView::String(s) => {
            if let Some(expression) = expression_of(s) {
                assert(templates_of(json, path)[0] == (path, expression));
                assert(may_stand(templates_of(json, path)[0].1, functions, values[0]));
            }
        },
        JsonView::Array(v) => {
            lemma_items_filled(v, path, values, functions);
        },
        JsonView::Object(e) => {
            lemma_members_filled(e, path, values, functions);
        },
        _ => {},
    }
}

proof fn lemma_items_filled(
    v: Seq<JsonView>,
    path: Seq<char>,
    values: Seq<JsonView>,
    functions: Functions,
)
    requires
        values.len() == chain(item_parts(v, path)).len(),
        forall|k: int|
            0 <= k < values.len() ==> may_stand(
                chain(item_parts(v, path))[k].1,
                functions,
                #[trigger] values[k],
            ),
    ensures
        forall|i: int|
            0 <= i < v.len() ==> filled(
                #[trigger] v[i],
                replaced_items(v, path, values)[i],
                functions,
            ),
    decreases v,
{
    assert forall|i: int| 0 <= i < v.len() implies filled(
        #[trigger] v[i],
        replaced_items(v, path, values)[i],
        functions,
    ) by {
        let parts = item_parts(v, path);
        lemma_values_suit(parts, values, functions, i);
        let inner = inner_path(path, decimal_text(i as nat));
        assert(parts[i] == templates_of(v[i], inner));
        lemma_filled(v[i], inner, values_for(parts, values, i), functions);
    }
}

proof fn lemma_members_filled(
    e: Seq<(Seq<char>, JsonView)>,
    path: Seq<char>,
    values: Seq<JsonView>,
    functions: Functions,
)
    requires
        values.len() == chain(member_parts(e, path)).len(),
        forall|k: int|
            0 <= k < values.len() ==> may_stand(
                chain(member_parts(e, path))[k].1,
                functions,
                #[trigger] values[k],
            ),
    ensures
        forall|i: int|
            0 <= i < e.len() ==> replaced_members(e, path, values)[i].0 == (#[trigger] e[i]).0
                && filled(e[i].1, replaced_members(e, path, values)[i].1, functions),
    decreases e,
{
    assert forall|i: int| 0 <= i < e.len() implies replaced_members(e, path, values)[i].0 == (
    #[trigger] e[i]).0 && filled(e[i].1, replaced_members(e, path, values)[i].1, functions) by {
        let parts = member_parts(e, path);
        lemma_values_suit(parts, values, functions, i);
        let inner = inner_path(path, e[i].0);
        assert(parts[i] == templates_of(e[i].1, inner));
        lemma_filled(e[i].1, inner, values_for(parts, values, i), functions);
    }
}

/// Finding the expressions of a document and putting their values into it gives way to every
/// expression, and changes nothing else.
#[verifier::rlimit(40)]
pub proof fn lemma_filled_in(
    engine: rhai::Engine,
    json: &mut Json,
    path: &str,
    found: &mut TextMap<Template>,
)
    requires
        plain_names(old(json)@),
        path@.len() == 0,
        old(found).entries().len() == 0,
        call_ensures(parse_templates, (&engine, &*old(json), path, found), ()),
        call_ensures(populate_data, (&engine, json, &*final(found)), ()),
    ensures
        filled(old(json)@, final(json)@, registered(engine)),
{
    let before = old(json)@;
    let entries = final(found).entries();
    let functions = registered(engine);
    assert(path@ =~= Seq::empty());
    let list = templates_of(before, Seq::empty());
    assert(expressions(old(found).entries()) =~= Seq::empty());
    let values = choose|values: Seq<JsonView>|
        {
            &&& values.len() == entries.len()
            &&& forall|i: int|
                0 <= i < values.len() ==> crate::template::suits(
                    entries[i].1,
                    functions,
                    #[trigger] values[i],
                )
            &&& final(json)@ == #[trigger] crate::template::all_placed(
                before,
                paths_of(entries),
                values,
            )
        };
    lemma_parse_and_populate(before, entries, values);
    crate::template_laws::lemma_found_in_order(before, entries);
    assert forall|k: int| 0 <= k < values.len() implies may_stand(
        list[k].1,
        functions,
        #[trigger] values[k],
    ) by {
        assert(expressions(entries)[k] == list[k]);
        assert(crate::template::suits(entries[k].1, functions, values[k]));
        assert(entries[k].1.compiled_with(functions)) by {
            assert(!old(found).entries().contains(entries[k]));
        }
    }
    lemma_filled(before, Seq::empty(), values, functions);
}

/// The first expression of a string is kept as it is, and with what the engine says of it.
pub proof fn lemma_expression_found(
    target: &str,
    engine: rhai::Engine,
    r: Option<Template>,
    text: &str,
    program: Result<&rhai::AST, &str>,
)
    requires
        call_ensures(find_pattern_and_compile, (target, &engine), r),
        r matches Some(t) ==> call_ensures(Template::expression, (&t,), text),
        r matches Some(t) ==> call_ensures(Template::program, (&t,), program),
    ensures
        r is Some <==> expression_of(target@) is Some,
        r is Some ==> expression_of(target@) == Some(text@),
        r is Some && program is Ok ==> compile_outcomes(text@, registered(engine)).contains(None)
            && crate::template::source_of(*program->Ok_0) == text@,
        r is Some && program is Err ==> compile_outcomes(text@, registered(engine)).contains(
            Some(program->Err_0@),
        ),
{
}

/// What stands for an expression is its value, and the message where there is none.
pub proof fn lemma_value_of(outcome: Result<Json, String>, r: Json)
    requires
        call_ensures(value_of, (outcome,), r),
    ensures
        outcome matches Ok(value) ==> r@ == value@,
        outcome matches Err(message) ==> r@ == JsonView::String(message@),
{
}

// ---------------------------------------------------------------------------------------------
// The functions of expressions
// ---------------------------------------------------------------------------------------------

/// A random integer is drawn from every range that is not empty, and lies in it; the upper end
/// does not belong to it.
pub proof fn lemma_random_int(l: i64, h: i64, r: Result<i64, String>)
    requires
        call_ensures(random_int, (l, h), r),
    ensures
        r is Ok <==> l < h,
        r matches Ok(n) ==> l <= n && n <= h - 1,
        r matches Err(e) ==> e@ == "empty range"@,
{
}

/// Random text has letters only, at least one, and as many as the two lengths say where they say
/// something that can be met.
pub proof fn lemma_random_str(min: i64, max: i64, r: String)
    requires
        call_ensures(random_str, (min, max), r),
    ensures
        r@.len() >= 1,
        r@.len() >= min,
        1 <= max && min <= max ==> r@.len() <= max,
        max < min && 1 <= min ==> r@.len() == min,
        min < 1 && max < 1 ==> r@.len() == 1,
        forall|i: int|
            0 <= i < r@.len() ==> ('a' <= #[trigger] r@[i] && r@[i] <= 'z') || ('A' <= r@[i]
                && r@[i] <= 'Z'),
{
    assert forall|i: int| 0 <= i < r@.len() implies ('a' <= #[trigger] r@[i] && r@[i] <= 'z') || (
    'A' <= r@[i] && r@[i] <= 'Z') by {
        assert(is_letter(r@[i]));
    }
}

/// An integer is read from digits alone, behind a sign or not.
pub proof fn lemma_to_int(text: &str, same: Option<i64>, r: Result<i64, String>)
    requires
        call_ensures(to_int, (text,), r),
        call_ensures(crate::text::parse_i64, (text,), same),
    ensures
        r is Ok <==> same is Some,
        r matches Ok(n) ==> same == Some(n),
        r matches Err(e) ==> e@ == crate::template_functions::integer_error_text(text@),
{
}

/// Truth values are written as words.
pub proof fn lemma_truth_text(value: bool, r: String)
    requires
        call_ensures(truth_text, (value,), r),
    ensures
        value ==> r@ == "true"@,
        !value ==> r@ == "false"@,
{
}

/// Where no text can be drawn for a pattern that is malformed, a note stands for it.
pub proof fn lemma_pattern_note(drawn: Option<String>, r: String)
    requires
        call_ensures(text_or_note, (drawn,), r),
    ensures
        drawn matches Some(text) ==> r@ == text@,
        drawn is None ==> r@ == "could not parse expression"@,
{
}

/// Text for a malformed pattern is the note, and text for any other is one that can be drawn for
/// it with at most a hundred repetitions.
pub proof fn lemma_pattern_text(regex: &str, r: Result<String, String>)
    requires
        call_ensures(random_str_pattern, (regex,), r),
    ensures
        match crate::pattern::pattern_shape(regex@) {
            None => r is Ok && r->Ok_0@ == "could not parse expression"@,
            Some(shape) => {
                &&& r is Ok <==> crate::pattern::shape_generates(shape, 100)
                &&& r matches Ok(text) ==> crate::pattern::shape_text(shape, 100, text@)
                &&& r matches Err(e) ==> e@ == "too many repetitions"@
            },
        },
{
}

/// An engine knows these functions and no others.
pub proof fn lemma_engine(engine: rhai::Engine)
    requires
        call_ensures(build_engine, (), engine),
    ensures
        ({
            let known = registered(engine);
            &&& known.contains_pair(("randomInt"@, seq!["i64"@, "i64"@]), "random_int"@)
            &&& known.contains_pair(("randomBool"@, Seq::empty()), "fastrand::bool"@)
            &&& known.contains_pair(("randomStr"@, seq!["i64"@, "i64"@]), "random_str"@)
            &&& known.contains_pair(
                ("randomStrWithPattern"@, seq!["string"@]),
                "random_str_pattern"@,
            )
            &&& known.contains_pair(("toStr"@, seq!["i64"@]), "integer"@)
            &&& known.contains_pair(("toStr"@, seq!["bool"@]), "truth_text"@)
            &&& known.contains_pair(("toStr"@, seq!["string"@]), "plain_text"@)
            &&& known.contains_pair(("toStr"@, seq!["Dynamic"@]), "rhai::Dynamic::to_string"@)
            &&& known.contains_pair(("toInt"@, seq!["string"@]), "to_int"@)
            &&& known.contains_pair(("toInt"@, seq!["Dynamic"@]), "to_int"@)
        }),
        crate::template_functions::strings_kept(engine) == 1024,
        forall|k: (Seq<char>, Seq<Seq<char>>)| #[trigger]
            registered(engine).dom().contains(k) ==> k.0 == "randomInt"@ || k.0 == "randomBool"@
                || k.0 == "randomStr"@ || k.0 == "randomStrWithPattern"@ || k.0 == "toStr"@ || k.0
                == "toInt"@,
{
    reveal_strlit("randomInt");
    reveal_strlit("randomBool");
    reveal_strlit("randomStr");
    reveal_strlit("randomStrWithPattern");
    reveal_strlit("toStr");
    reveal_strlit("toInt");
    reveal_strlit("i64");
    reveal_strlit("bool");
    reveal_strlit("string");
    reveal_strlit("Dynamic");
    assert("randomInt"@.len() == 9 && "randomStr"@.len() == 9 && "randomInt"@[6] != "randomStr"@[6]);
    assert("toStr"@.len() == 5 && "toInt"@.len() == 5 && "toStr"@[2] != "toInt"@[2]);
    assert("i64"@.len() == 3 && "bool"@.len() == 4 && "string"@.len() == 6 && "Dynamic"@.len() == 7);
    let a = seq!["i64"@];
    let b = seq!["bool"@];
    let c = seq!["string"@];
    let d = seq!["Dynamic"@];
    assert(a[0] == "i64"@ && b[0] == "bool"@ && c[0] == "string"@ && d[0] == "Dynamic"@);
}

} // verus!
