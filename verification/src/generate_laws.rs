//! Laws of random data: what is drawn for a schema fits the document that the schema was read from.

use vstd::prelude::*;

use crate::external_data::{ExternalData, ExternalView, Mention};
use crate::generate::{
    drawn, generate_data, generate_data_with_external_data, items_drawn, lemma_object_members,
    name_index, object_drawn, rounds_drawn, try_generate_data,
};
use crate::json::{
    key_index, lemma_get_decreases, lemma_key_index, lemma_unique_index, lookup, unique_keys,
    view_get, Json, JsonView, NumberView,
};
use crate::keywords::{constraint_of, keyword_text, lemma_keyword_text_inverse, Keywords};
use crate::pattern::{pattern_shape, shape_text};
use crate::schema::{
    data_schema_from_value, option_seq, properties_schema, property_constraints, property_schema,
    schema_name, DataSchema, SchemaView, KEY_FOR_KEYLESS_SCHEMAS,
};
use crate::schema_laws::{lemma_read_canonical, lemma_read_list_canonical, well_formed};
use crate::text::{decimal_text, integer_value};

verus! {

/// The integer that a value is.
pub open spec fn whole(v: JsonView) -> Option<int> {
    match v {
        JsonView::Number(NumberView::PosInt(n)) => if n <= i64::MAX {
            Some(n as int)
        } else {
            None
        },
        JsonView::Number(NumberView::NegInt(n)) => Some(n as int),
        _ => None,
    }
}

/// A letter of the Latin alphabet.
pub open spec fn latin(c: char) -> bool {
    'a' <= c <= 'z' || 'A' <= c <= 'Z'
}

/// A number is at least what stands under `low`, and at most what stands under `high`; where
/// neither is there, it lies between the defaults.
pub open spec fn between(
    v: JsonView,
    low: Seq<char>,
    high: Seq<char>,
    least: int,
    most: int,
    n: int,
) -> bool {
    &&& view_get(v, low) matches Some(x) ==> whole(x) is Some && n >= whole(x)->0
    &&& view_get(v, high) matches Some(x) ==> whole(x) is Some && n <= whole(x)->0
    &&& view_get(v, low) is None && view_get(v, high) is None ==> least <= n <= most
}

/// A text fits a property of type `string`.
pub open spec fn text_fits(v: JsonView, text: Seq<char>) -> bool {
    match view_get(v, "constant"@) {
        Some(JsonView::String(constant)) => text == constant,
        Some(_) => text == "Error: invalid constant constraint"@,
        None => match view_get(v, "pattern"@) {
            Some(pattern) => {
                &&& pattern is String
                &&& pattern_shape(pattern->String_0) is Some
                &&& shape_text(pattern_shape(pattern->String_0)->0, 10, text)
            },
            None => match view_get(v, "dataFile"@) {
                Some(column) => {
                    &&& column matches JsonView::Number(NumberView::PosInt(n))
                    &&& text == decimal_text(column->Number_0->PosInt_0 as nat)
                },
                None => {
                    &&& between(v, "minLength"@, "maxLength"@, 1, 20, text.len() as int)
                    &&& forall|i: int| 0 <= i < text.len() ==> latin(#[trigger] text[i])
                },
            },
        },
    }
}

/// The number that a text denotes, zero where it denotes none of 64 bits.
pub open spec fn denotes(text: Seq<char>, n: int) -> bool {
    match integer_value(text) {
        Some(m) => if -0x8000_0000_0000_0000 <= m <= 0x7fff_ffff_ffff_ffff {
            n == m
        } else {
            n == 0
        },
        None => n == 0,
    }
}

/// A number fits a property of type `integer`.
pub open spec fn number_fits(v: JsonView, n: int) -> bool {
    match view_get(v, "constant"@) {
        Some(constant) => match whole(constant) {
            Some(m) => n == m,
            None => n == -0x8000_0000_0000_0000,
        },
        None => match view_get(v, "pattern"@) {
            Some(pattern) => {
                &&& pattern is String
                &&& pattern_shape(pattern->String_0) is Some
                &&& exists|text: Seq<char>| #[trigger]
                    shape_text(pattern_shape(pattern->String_0)->0, 10, text) && denotes(text, n)
            },
            None => between(v, "minimum"@, "maximum"@, 0, 100, n),
        },
    }
}

/// An array has as many items as a property of type `array` allows; none where that is less than
/// none.
pub open spec fn count_fits(v: JsonView, n: int) -> bool {
    ||| between(v, "minLength"@, "maxLength"@, 1, 20, n)
    ||| n == 0 && exists|m: int| m < 0 && #[trigger] between(v, "minLength"@, "maxLength"@, 1, 20, m)
}

/// A property of a type that data is drawn for.
pub open spec fn known(v: JsonView) -> bool {
    view_get(v, "type"@) matches Some(JsonView::String(kind)) && (kind == "string"@ || kind
        == "integer"@ || kind == "object"@ || kind == "array"@)
}

/// A value fits a property as it is written in a schema document.
pub open spec fn fits(v: JsonView, value: JsonView) -> bool
    decreases v,
{
    match view_get(v, "type"@) {
        Some(JsonView::String(kind)) => if kind == "string"@ {
            value is String && text_fits(v, value->String_0)
        } else if kind == "integer"@ {
            whole(value) is Some && number_fits(v, whole(value)->0)
        } else if kind == "array"@ {
            match view_get(v, "items"@) {
                Some(item) => {
                    proof {
                        lemma_get_decreases(v, "items"@);
                    }
                    &&& value is Array
                    &&& count_fits(v, value->Array_0.len() as int)
                    &&& forall|i: int|
                        0 <= i < value->Array_0.len() ==> fits(item, #[trigger] value->Array_0[i])
                },
                None => false,
            }
        } else if kind == "object"@ {
            match view_get(v, "properties"@) {
                Some(JsonView::Object(properties)) => {
                    proof {
                        lemma_get_decreases(v, "properties"@);
                    }
                    value is Object && members_fit(properties, value->Object_0)
                },
                Some(_) => false,
                None => view_get(v, "constant"@) == Some(value),
            }
        } else {
            false
        },
        _ => false,
    }
}

/// The members of an object are the properties of a schema document, each with a value that fits it,
/// and no others.
pub open spec fn members_fit(
    properties: Seq<(Seq<char>, JsonView)>,
    members: Seq<(Seq<char>, JsonView)>,
) -> bool
    decreases properties,
{
    &&& unique_keys(members)
    &&& forall|i: int|
        0 <= i < members.len() ==> exists|j: int|
            0 <= j < properties.len() && (#[trigger] properties[j]).0 == (#[trigger] members[i]).0
                && known(properties[j].1)
    &&& forall|j: int|
        0 <= j < properties.len() && known((#[trigger] properties[j]).1) ==> exists|i: int|
            0 <= i < members.len() && (#[trigger] members[i]).0 == properties[j].0 && fits(
                properties[j].1,
                members[i].1,
            )
}

proof fn lemma_kinds()
    ensures
        "string"@ != "object"@,
        "integer"@ != "object"@,
        "integer"@ != "string"@,
        "array"@ != "object"@,
        "array"@ != "string"@,
        "array"@ != "integer"@,
{
    reveal_strlit("string");
    reveal_strlit("object");
    reveal_strlit("integer");
    reveal_strlit("array");
    assert("string"@[0] != "object"@[0]);
    assert("integer"@.len() == 7 && "string"@.len() == 6 && "object"@.len() == 6 && "array"@.len()
        == 5);
}

/// What is read of a keyword is what stands under its name.
pub proof fn lemma_keyword(v: JsonView, k: Keywords)
    requires
        property_constraints(v) is Ok,
    ensures
        v is Object,
        ({
            let c = property_constraints(v)->Ok_0;
            match view_get(v, keyword_text(k)) {
                Some(x) => c.contains_key(k) && constraint_of(k, x) == Some(c[k]),
                None => !c.contains_key(k),
            }
        }),
{
    let entries = v->Object_0;
    lemma_keyword_text_inverse(k);
    lemma_key_index(entries, keyword_text(k));
    if let Some(x) = lookup(entries, keyword_text(k)) {
        let i = key_index(entries, keyword_text(k));
        assert(crate::keywords::keyword_of(entries[i].0) == Some(k));
        assert(constraint_of(k, entries[i].1) is Some);
    }
}

proof fn lemma_text_drawn(v: JsonView, text: Seq<char>)
    requires
        property_constraints(v) is Ok,
        crate::generate::string_drawn(property_constraints(v)->Ok_0, text),
    ensures
        text_fits(v, text),
{
    lemma_keyword(v, Keywords::Constant);
    lemma_keyword(v, Keywords::Pattern);
    lemma_keyword(v, Keywords::DataFile);
    lemma_keyword(v, Keywords::MinLength);
    lemma_keyword(v, Keywords::MaxLength);
    let c = property_constraints(v)->Ok_0;
    if view_get(v, "constant"@) is None && view_get(v, "pattern"@) is None && view_get(
        v,
        "dataFile"@,
    ) is None {
        assert forall|i: int| 0 <= i < text.len() implies latin(#[trigger] text[i]) by {
            assert(crate::random::is_letter(text[i]));
        }
    }
}

proof fn lemma_number_drawn(v: JsonView, n: i64)
    requires
        property_constraints(v) is Ok,
        crate::generate::integer_drawn(property_constraints(v)->Ok_0, n),
    ensures
        number_fits(v, n as int),
{
    lemma_keyword(v, Keywords::Constant);
    lemma_keyword(v, Keywords::Pattern);
    lemma_keyword(v, Keywords::Minimum);
    lemma_keyword(v, Keywords::Maximum);
    let c = property_constraints(v)->Ok_0;
    if view_get(v, "constant"@) is None && view_get(v, "pattern"@) is Some {
        let pattern = view_get(v, "pattern"@)->0->String_0;
        assert(crate::generate::pattern_number(pattern, n));
        let text = choose|text: Seq<char>| #[trigger]
            crate::pattern::pattern_text(pattern, 10, text) && n
                == crate::generate::integer_or_zero_of(text);
        assert(shape_text(pattern_shape(pattern)->0, 10, text));
        assert(denotes(text, n as int));
    }
}

proof fn lemma_count_drawn(v: JsonView, n: int)
    requires
        property_constraints(v) is Ok,
        n >= 0,
        crate::generate::count_drawn(property_constraints(v)->Ok_0, n),
    ensures
        count_fits(v, n),
{
    lemma_keyword(v, Keywords::MinLength);
    lemma_keyword(v, Keywords::MaxLength);
    if !between(v, "minLength"@, "maxLength"@, 1, 20, n) {
        let m = whole(view_get(v, "maxLength"@)->0)->0;
        assert(between(v, "minLength"@, "maxLength"@, 1, 20, m));
    }
}

/// The schemas of the properties of an object are those of its members, one by one.
pub proof fn lemma_properties(entries: Seq<(Seq<char>, JsonView)>, list: Seq<SchemaView>)
    requires
        properties_schema(entries) == Ok::<Seq<SchemaView>, crate::schema::SchemaErrorView>(list),
    ensures
        forall|m: int|
            0 <= m < list.len() ==> exists|j: int|
                0 <= j < entries.len() && property_schema(
                    (#[trigger] entries[j]).0,
                    entries[j].1,
                ) == Ok::<Option<SchemaView>, crate::schema::SchemaErrorView>(
                    Some(#[trigger] list[m]),
                ),
        forall|j: int|
            0 <= j < entries.len() ==> property_schema((#[trigger] entries[j]).0, entries[j].1)
                is Ok,
        forall|j: int|
            0 <= j < entries.len() ==> (property_schema((#[trigger] entries[j]).0, entries[j].1)
                matches Ok(Some(s)) ==> list.contains(s)),
    decreases entries.len(),
{
    if entries.len() > 0 {
        let rest = entries.drop_last();
        let before = properties_schema(rest)->Ok_0;
        lemma_properties(rest, before);
        let last = entries.len() - 1;
        let found = property_schema(entries[last].0, entries[last].1)->Ok_0;
        assert(list == before + option_seq(found));
        assert forall|m: int| 0 <= m < list.len() implies exists|j: int|
            0 <= j < entries.len() && property_schema((#[trigger] entries[j]).0, entries[j].1)
                == Ok::<Option<SchemaView>, crate::schema::SchemaErrorView>(
                Some(#[trigger] list[m]),
            ) by {
            if m < before.len() {
                assert(list[m] == before[m]);
                let j = choose|j: int|
                    0 <= j < rest.len() && property_schema((#[trigger] rest[j]).0, rest[j].1)
                        == Ok::<Option<SchemaView>, crate::schema::SchemaErrorView>(
                        Some(before[m]),
                    );
                assert(entries[j] == rest[j]);
            } else {
                assert(property_schema(entries[last].0, entries[last].1) == Ok::<
                    Option<SchemaView>,
                    crate::schema::SchemaErrorView,
                >(Some(list[m])));
            }
        }
        assert forall|j: int| 0 <= j < entries.len() implies {
            &&& property_schema((#[trigger] entries[j]).0, entries[j].1) is Ok
            &&& property_schema(entries[j].0, entries[j].1) matches Ok(Some(s)) ==> list.contains(
                s,
            )
        } by {
            if j < last {
                assert(rest[j] == entries[j]);
                if let Ok(Some(s)) = property_schema(entries[j].0, entries[j].1) {
                    let m = choose|m: int| 0 <= m < before.len() && before[m] == s;
                    assert(list[m] == s);
                }
            } else if let Some(s) = found {
                assert(list[before.len() as int] == s);
            }
        }
    }
}

/// What is drawn for a property fits it.
#[verifier::rlimit(40)]
proof fn lemma_fits(key: Seq<char>, v: JsonView, s: SchemaView, value: JsonView, mentions: Seq<Mention>)
    requires
        well_formed(v),
        property_schema(key, v) == Ok::<Option<SchemaView>, crate::schema::SchemaErrorView>(
            Some(s),
        ),
        drawn(s, value, mentions),
    ensures
        known(v),
        fits(v, value),
    decreases v,
{
    lemma_kinds();
    let kind = view_get(v, "type"@)->0->String_0;
    if kind == "string"@ {
        lemma_text_drawn(v, value->String_0);
    } else if kind == "integer"@ {
        let n = crate::json::view_i64(value)->0;
        lemma_number_drawn(v, n);
        assert(whole(value) == Some(n as int));
    } else if kind == "array"@ {
        lemma_get_decreases(v, "items"@);
        lemma_member_formed(v, "items"@);
        let item = view_get(v, "items"@)->0;
        let found = property_schema(KEY_FOR_KEYLESS_SCHEMAS@, item)->Ok_0;
        let list = option_seq(found);
        let items = value->Array_0;
        let inner = choose|inner: Option<Seq<ExternalView>>|
            items_drawn(list, value->Array_0, inner) && mentions
                == #[trigger] crate::generate::array_mentions(s->Array_0->0, inner);
        lemma_count_drawn(v, items.len() as int);
        assert forall|i: int| 0 <= i < items.len() implies fits(item, #[trigger] items[i]) by {
            lemma_item_drawn(list, items, inner, i);
            let at = name_index(list, KEY_FOR_KEYLESS_SCHEMAS@);
            let m = choose|m: Seq<Mention>| #[trigger] drawn(list[at], items[i], m);
            assert(list[at] == found->0);
            lemma_fits(KEY_FOR_KEYLESS_SCHEMAS@, item, found->0, items[i], m);
        }
    } else {
        assert(kind == "object"@);
        if let Some(JsonView::Object(properties)) = view_get(v, "properties"@) {
            lemma_get_decreases(v, "properties"@);
            lemma_member_formed(v, "properties"@);
            let list = properties_schema(properties)->Ok_0;
            let inner = choose|inner: Option<Seq<ExternalView>>|
                object_drawn(list, value->Object_0, inner) && mentions
                    == #[trigger] crate::generate::nested_mentions(key, inner);
            lemma_members(properties, list, value->Object_0, inner);
        } else {
            let constant = view_get(v, "constant"@)->0;
            assert(keyword_text(Keywords::Constant) == "constant"@);
        }
    }
}

pub proof fn lemma_member_formed(v: JsonView, key: Seq<char>)
    requires
        well_formed(v),
    ensures
        view_get(v, key) matches Some(p) ==> well_formed(p),
{
    if let JsonView::Object(entries) = v {
        lemma_key_index(entries, key);
        let i = key_index(entries, key);
        if i >= 0 {
            assert(well_formed(entries[i].1));
        }
    }
}

/// An item of an array was drawn for the schema of its items.
proof fn lemma_item_drawn(
    list: Seq<SchemaView>,
    items: Seq<JsonView>,
    external: Option<Seq<ExternalView>>,
    i: int,
)
    requires
        items_drawn(list, items, external),
        0 <= i < items.len(),
    ensures
        0 <= name_index(list, KEY_FOR_KEYLESS_SCHEMAS@) < list.len(),
        exists|m: Seq<Mention>| #[trigger]
            drawn(list[name_index(list, KEY_FOR_KEYLESS_SCHEMAS@)], items[i], m),
{
    let (objects, rounds) = choose|
        objects: Seq<Seq<(Seq<char>, JsonView)>>,
        rounds: Seq<Option<Seq<ExternalView>>>,
    |
        {
            &&& rounds_drawn(list, items, objects, rounds)
            &&& #[trigger] objects.len() == items.len()
            &&& crate::external_data::tally_option(
                #[trigger] crate::generate::round_mentions(rounds),
                external,
            )
        };
    reveal_with_fuel(rounds_drawn, 2);
    assert(object_drawn(list, objects[i], rounds[i]));
    lemma_object_members(list, objects[i], rounds[i], KEY_FOR_KEYLESS_SCHEMAS@);
    lemma_index_below(list, KEY_FOR_KEYLESS_SCHEMAS@);
}

pub proof fn lemma_index_below(list: Seq<SchemaView>, key: Seq<char>)
    ensures
        -1 <= name_index(list, key) < list.len(),
        name_index(list, key) >= 0 ==> schema_name(list[name_index(list, key)]) == Some(key),
        forall|i: int|
            name_index(list, key) < i < list.len() ==> schema_name(#[trigger] list[i]) != Some(key),
    decreases list.len(),
{
    if list.len() > 0 && schema_name(list.last()) != Some(key) {
        lemma_index_below(list.drop_last(), key);
        assert forall|i: int| name_index(list, key) < i < list.len() implies schema_name(
            #[trigger] list[i],
        ) != Some(key) by {
            if i < list.len() - 1 {
                assert(list.drop_last()[i] == list[i]);
            }
        }
    }
}

/// What is drawn for the properties of an object fits them.
#[verifier::rlimit(40)]
proof fn lemma_members(
    properties: Seq<(Seq<char>, JsonView)>,
    list: Seq<SchemaView>,
    members: Seq<(Seq<char>, JsonView)>,
    external: Option<Seq<ExternalView>>,
)
    requires
        unique_keys(properties),
        forall|i: int| 0 <= i < properties.len() ==> well_formed((#[trigger] properties[i]).1),
        properties_schema(properties) == Ok::<Seq<SchemaView>, crate::schema::SchemaErrorView>(
            list,
        ),
        object_drawn(list, members, external),
    ensures
        members_fit(properties, members),
    decreases properties,
{
    lemma_kinds();
    lemma_properties(properties, list);
    lemma_read_list_canonical(properties);
    lemma_object_members(list, members, external, Seq::empty());
    assert forall|i: int| 0 <= i < members.len() implies exists|j: int|
        0 <= j < properties.len() && (#[trigger] properties[j]).0 == (#[trigger] members[i]).0
            && known(properties[j].1) by {
        let key = members[i].0;
        lemma_unique_index(members, i);
        lemma_object_members(list, members, external, key);
        lemma_index_below(list, key);
        let at = name_index(list, key);
        let j = choose|j: int|
            0 <= j < properties.len() && property_schema(
                (#[trigger] properties[j]).0,
                properties[j].1,
            ) == Ok::<Option<SchemaView>, crate::schema::SchemaErrorView>(Some(list[at]));
        lemma_read_canonical(properties[j].0, properties[j].1);
        assert(properties[j].0 == key);
        let m = choose|m: Seq<Mention>| #[trigger] drawn(list[at], members[i].1, m);
        lemma_drawn_known(properties[j].0, properties[j].1);
    }
    assert forall|j: int|
        0 <= j < properties.len() && known((#[trigger] properties[j]).1) implies exists|i: int|
        0 <= i < members.len() && (#[trigger] members[i]).0 == properties[j].0 && fits(
            properties[j].1,
            members[i].1,
        ) by {
        let key = properties[j].0;
        let v = properties[j].1;
        assert(well_formed(v));
        lemma_known_read(key, v);
        let s = property_schema(key, v)->Ok_0->0;
        lemma_read_canonical(key, v);
        let at = choose|at: int| 0 <= at < list.len() && list[at] == s;
        lemma_index_below(list, key);
        lemma_object_members(list, members, external, key);
        let found = name_index(list, key);
        assert(found == at) by {
            if found < at {
                assert(schema_name(list[at]) != Some(key));
            } else if at < found {
                assert(schema_name(list[at]) != schema_name(list[found]));
            }
        }
        lemma_key_index(members, key);
        let i = key_index(members, key);
        let m = choose|m: Seq<Mention>| #[trigger] drawn(list[at], members[i].1, m);
        assert(decreases_to!(properties => properties[j]));
        assert(decreases_to!(properties[j] => properties[j].1));
        lemma_fits(key, v, s, members[i].1, m);
        assert(members[i].0 == key);
    }
}

/// A property that a schema is read from has a type that data is drawn for.
proof fn lemma_drawn_known(key: Seq<char>, v: JsonView)
    requires
        property_schema(key, v) matches Ok(Some(_)),
    ensures
        known(v),
{
}

/// A property of such a type that is read gives a schema.
pub proof fn lemma_known_read(key: Seq<char>, v: JsonView)
    requires
        known(v),
        property_schema(key, v) is Ok,
    ensures
        property_schema(key, v)->Ok_0 is Some,
{
    lemma_kinds();
}

/// Whatever schema document is read, all data that is drawn for it fits the document: an object
/// with exactly its properties, texts and arrays as long as they may be, numbers in their ranges,
/// constants, texts that patterns describe, columns of the outside source, at every depth.
pub proof fn lemma_data_fits(
    document: Json,
    properties: Seq<(Seq<char>, JsonView)>,
    schema: DataSchema,
    r: (Json, Option<Vec<ExternalData>>),
)
    requires
        well_formed(document@),
        view_get(document@, "properties"@) == Some(JsonView::Object(properties)),
        call_ensures(data_schema_from_value, (&document,), Ok(schema)),
        call_ensures(generate_data, (&schema,), r),
    ensures
        r.0@ is Object,
        members_fit(properties, r.0@->Object_0),
{
    lemma_member_formed(document@, "properties"@);
    let list = properties_schema(properties)->Ok_0;
    lemma_members(
        properties,
        list,
        r.0@->Object_0,
        crate::external_data::external_option_view(r.1),
    );
}

/// Whatever may be drawn for a schema that was read fits its document.
pub proof fn lemma_drawn_fits(
    document: Json,
    properties: Seq<(Seq<char>, JsonView)>,
    schema: DataSchema,
    value: JsonView,
    external: Option<Seq<ExternalView>>,
)
    requires
        well_formed(document@),
        view_get(document@, "properties"@) == Some(JsonView::Object(properties)),
        call_ensures(data_schema_from_value, (&document,), Ok(schema)),
        crate::generate::data_drawn(schema@, value, external),
    ensures
        value is Object,
        members_fit(properties, value->Object_0),
{
    lemma_member_formed(document@, "properties"@);
    lemma_members(
        properties,
        properties_schema(properties)->Ok_0,
        value->Object_0,
        external,
    );
}

/// The same holds of the other ways to draw data for a schema.
pub proof fn lemma_other_data_fits(
    document: Json,
    properties: Seq<(Seq<char>, JsonView)>,
    schema: DataSchema,
    a: (Json, Option<Vec<ExternalData>>),
    b: (Json, Option<Vec<ExternalData>>),
)
    requires
        well_formed(document@),
        view_get(document@, "properties"@) == Some(JsonView::Object(properties)),
        call_ensures(data_schema_from_value, (&document,), Ok(schema)),
        call_ensures(generate_data_with_external_data, (&schema,), a),
        call_ensures(try_generate_data, (&schema,), Some(b)),
    ensures
        a.0@ is Object && members_fit(properties, a.0@->Object_0),
        b.0@ is Object && members_fit(properties, b.0@->Object_0),
{
    lemma_member_formed(document@, "properties"@);
    let list = properties_schema(properties)->Ok_0;
    lemma_members(
        properties,
        list,
        a.0@->Object_0,
        crate::external_data::external_option_view(a.1),
    );
    lemma_members(
        properties,
        list,
        b.0@->Object_0,
        crate::external_data::external_option_view(b.1),
    );
}

/// Under a property of type `string` with `minLength` m and `maxLength` n, and no keyword that says
/// what the text is, there is a text of m to n letters.
pub proof fn lemma_text_length(
    document: Json,
    properties: Seq<(Seq<char>, JsonView)>,
    j: int,
    m: u64,
    n: u64,
    schema: DataSchema,
    r: (Json, Option<Vec<ExternalData>>),
)
    requires
        well_formed(document@),
        view_get(document@, "properties"@) == Some(JsonView::Object(properties)),
        0 <= j < properties.len(),
        view_get(properties[j].1, "type"@) == Some(JsonView::String("string"@)),
        view_get(properties[j].1, "minLength"@) == Some(JsonView::Number(NumberView::PosInt(m))),
        view_get(properties[j].1, "maxLength"@) == Some(JsonView::Number(NumberView::PosInt(n))),
        view_get(properties[j].1, "constant"@) is None,
        view_get(properties[j].1, "pattern"@) is None,
        view_get(properties[j].1, "dataFile"@) is None,
        call_ensures(data_schema_from_value, (&document,), Ok(schema)),
        call_ensures(generate_data, (&schema,), r),
    ensures
        exists|i: int|
            0 <= i < r.0@->Object_0.len() && (#[trigger] r.0@->Object_0[i]).0 == properties[j].0 && (
            r.0@->Object_0[i].1 matches JsonView::String(text) && m <= text.len() <= n),
{
    lemma_kinds();
    lemma_data_fits(document, properties, schema, r);
    let v = properties[j].1;
    assert(known(v));
    let members = r.0@->Object_0;
    let i = choose|i: int|
        0 <= i < members.len() && (#[trigger] members[i]).0 == properties[j].0 && fits(
            v,
            members[i].1,
        );
    assert(text_fits(v, members[i].1->String_0));
}

} // verus!
