//! Laws of when data can be drawn: for every document that is a schema whose ranges are not below
//! zero and whose patterns end.

use vstd::prelude::*;

use crate::external_data::ExternalData;
use crate::generate::{
    can_generate_data, integer_or_zero, ready, ready_list, try_generate_data,
};
use crate::generate_laws::{known, whole};
use crate::json::{
    key_index, lemma_get_decreases, lemma_key_index, lookup, view_get, Json, JsonView,
};
use crate::keywords::{
    constraint_of, keyword_of, keyword_text, lemma_keyword_text_inverse, Keywords,
};
use crate::pattern::{
    drawn_or_note, pattern_can_generate, pattern_shape, shape_generates,
};
use crate::schema::{
    constraints_of, constraints_suit, data_schema_from_value, properties_schema,
    property_constraints, property_schema, schema_name, DataSchema, KEY_FOR_KEYLESS_SCHEMAS,
};
use crate::text::parse_i64;

verus! {

/// Text can be drawn for a pattern with at most ten repetitions where it sets no bound.
pub open spec fn pattern_ends(v: JsonView) -> bool {
    v is String && (pattern_shape(v->String_0) matches Some(shape) ==> shape_generates(shape, 10))
}

/// Data can be drawn for a property: it is constant, or has a pattern that ends, or comes from
/// outside; otherwise no length is below zero, and what is inside can be drawn for.
pub open spec fn drawable(v: JsonView) -> bool
    decreases v,
{
    match view_get(v, "type"@) {
        Some(JsonView::String(kind)) => if kind == "string"@ {
            if view_get(v, "constant"@) is Some {
                true
            } else {
                match view_get(v, "pattern"@) {
                    Some(pattern) => pattern_ends(pattern),
                    None => view_get(v, "dataFile"@) is Some || (view_get(v, "minLength"@) matches Some(
                        n,
                    ) ==> whole(n) is Some && whole(n)->0 >= 0),
                }
            }
        } else if kind == "integer"@ {
            view_get(v, "constant"@) is Some || (view_get(v, "pattern"@) matches Some(pattern)
                ==> pattern_ends(pattern))
        } else if kind == "object"@ {
            match view_get(v, "properties"@) {
                Some(JsonView::Object(inner)) => {
                    proof {
                        lemma_get_decreases(v, "properties"@);
                    }
                    all_drawable(inner)
                },
                _ => true,
            }
        } else if kind == "array"@ {
            match view_get(v, "items"@) {
                Some(item) => {
                    proof {
                        lemma_get_decreases(v, "items"@);
                    }
                    known(item) && drawable(item)
                },
                None => true,
            }
        } else {
            true
        },
        _ => true,
    }
}

/// Data can be drawn for every property of an object.
pub open spec fn all_drawable(e: Seq<(Seq<char>, JsonView)>) -> bool
    decreases e,
{
    forall|i: int| 0 <= i < e.len() ==> drawable((#[trigger] e[i]).1)
}

proof fn lemma_read(e: Seq<(Seq<char>, JsonView)>, k: Keywords)
    requires
        constraints_suit(e),
    ensures
        constraints_of(e).contains_key(k) <==> lookup(e, keyword_text(k)) is Some,
        constraints_of(e).contains_key(k) ==> constraint_of(k, lookup(e, keyword_text(k))->0)
            == Some(constraints_of(e)[k]),
{
    let name = keyword_text(k);
    lemma_keyword_text_inverse(k);
    lemma_key_index(e, name);
    let i = key_index(e, name);
    if i >= 0 {
        assert(keyword_of(e[i].0) == Some(k));
        assert(constraint_of(k, e[i].1) is Some);
    }
}

proof fn lemma_limits(v: JsonView)
    requires
        property_constraints(v) is Ok,
    ensures
        v is Object,
        constraints_suit(v->Object_0),
        property_constraints(v)->Ok_0 == constraints_of(v->Object_0),
{
}

proof fn lemma_drawable(key: Seq<char>, v: JsonView)
    requires
        drawable(v),
    ensures
        property_schema(key, v) matches Ok(Some(s)) ==> ready(s) && schema_name(s) == Some(key),
        property_schema(key, v) matches Ok(found) ==> known(v) ==> found is Some,
    decreases v,
{
    reveal_strlit("object");
    reveal_strlit("string");
    reveal_strlit("integer");
    reveal_strlit("array");
    assert("object"@.len() == 6 && "string"@.len() == 6 && "object"@[0] != "string"@[0]);
    assert("integer"@.len() == 7 && "array"@.len() == 5);
    if let Ok(Some(s)) = property_schema(key, v) {
        let kind = view_get(v, "type"@)->0->String_0;
        if kind == "object"@ {
            if let Some(JsonView::Object(inner)) = view_get(v, "properties"@) {
                lemma_get_decreases(v, "properties"@);
                lemma_all_drawable(inner);
            }
        } else {
            lemma_limits(v);
            let e = v->Object_0;
            lemma_read(e, Keywords::MinLength);
            lemma_read(e, Keywords::MaxLength);
            lemma_read(e, Keywords::Minimum);
            lemma_read(e, Keywords::Maximum);
            lemma_read(e, Keywords::Constant);
            lemma_read(e, Keywords::Pattern);
            lemma_read(e, Keywords::DataFile);
            if kind == "array"@ {
                let item = view_get(v, "items"@)->0;
                lemma_get_decreases(v, "items"@);
                lemma_drawable(KEY_FOR_KEYLESS_SCHEMAS@, item);
                let list = s->Array_1;
                assert(list.len() == 1);
                assert(ready(list[0]) && schema_name(list[0]) == Some(KEY_FOR_KEYLESS_SCHEMAS@));
                assert(ready_list(list));
            }
        }
    }
}

proof fn lemma_all_drawable(e: Seq<(Seq<char>, JsonView)>)
    requires
        all_drawable(e),
    ensures
        properties_schema(e) matches Ok(list) ==> ready_list(list),
    decreases e,
{
    if e.len() > 0 {
        let front = e.drop_last();
        let last = e.last();
        assert(decreases_to!(e => e[e.len() - 1]));
        assert(drawable(e[e.len() - 1].1));
        assert forall|i: int| 0 <= i < front.len() implies drawable((#[trigger] front[i]).1) by {
            assert(drawable(e[i].1));
        }
        lemma_drawable(last.0, last.1);
        lemma_all_drawable(front);
        if let Ok(list) = properties_schema(e) {
            let before = properties_schema(front)->Ok_0;
            assert forall|i: int| 0 <= i < list.len() implies ready(#[trigger] list[i]) by {
                if i < before.len() {
                    assert(list[i] == before[i]);
                }
            }
        }
    }
}

/// Data is drawn for every schema whose document allows it. It is drawn exactly where it is said
/// that it can be.
pub proof fn lemma_drawn_where_possible(
    document: Json,
    schema: DataSchema,
    can: bool,
    r: Option<(Json, Option<Vec<ExternalData>>)>,
)
    requires
        call_ensures(data_schema_from_value, (&document,), Ok(schema)),
        call_ensures(can_generate_data, (&schema,), can),
        call_ensures(try_generate_data, (&schema,), r),
    ensures
        can <==> r is Some,
        all_drawable(view_get(document@, "properties"@)->0->Object_0) ==> can,
        r matches Some((value, _)) ==> value@ is Object,
{
    let e = view_get(document@, "properties"@)->0->Object_0;
    if all_drawable(e) {
        lemma_all_drawable(e);
    }
}

/// A text stands for the number that it denotes, and for zero where it denotes none.
pub proof fn lemma_number_of(text: &str, r: i64, same: Option<i64>)
    requires
        call_ensures(integer_or_zero, (text,), r),
        call_ensures(parse_i64, (text,), same),
    ensures
        same matches Some(n) ==> r == n,
        same is None ==> r == 0,
{
}

/// Text can be drawn for a pattern that is malformed, by a note; and for others with ten
/// repetitions where they set no bound.
pub proof fn lemma_pattern_drawn(pattern: &str, can: bool, drawn: Option<String>, r: String)
    requires
        call_ensures(pattern_can_generate, (pattern,), can),
        call_ensures(drawn_or_note, (pattern, drawn), r),
    ensures
        match pattern_shape(pattern@) {
            None => can,
            Some(shape) => can <==> shape_generates(shape, 10),
        },
        drawn matches Some(text) ==> r@ == text@,
        drawn is None ==> r@ == "Couldn't generate string for: "@ + pattern@,
{
}

} // verus!
