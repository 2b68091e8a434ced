//! Laws of data schemas: what is written is read back.

use vstd::prelude::*;

use crate::json::{
    has_key, json_same, key_index, lemma_get_decreases, lemma_key_index, lemma_unique_index, lookup,
    unique_keys, view_get, JsonView,
};
use crate::keywords::{
    constraint_of, constraint_value, keyword_of, keyword_text, lemma_keyword_of_text,
    lemma_keyword_text_inverse, ConstraintView, Keywords,
};
use crate::schema::{
    constraint_entries, constraints_fault, constraints_of, constraints_suit, keyword_order, named,
    option_seq, properties_schema, property_constraints, property_schema, schema_name,
    schema_of_value, schema_value, schemas_value, value_of_schema, SchemaErrorView, SchemaView,
    KEY_FOR_KEYLESS_SCHEMAS,
};

verus! {

/// Constraints as reading yields them: each suits its keyword, limits come in pairs and in order.
pub open spec fn canonical_constraints(c: Map<Keywords, ConstraintView>) -> bool {
    &&& forall|k: Keywords|
        c.contains_key(k) ==> constraint_of(k, constraint_value(#[trigger] c[k])) == Some(c[k])
    &&& constraints_fault(c, JsonView::Null) is None
}

/// A property as reading yields it, with the item schema of every array known.
pub open spec fn canonical(s: SchemaView) -> bool
    decreases s,
{
    match s {
        SchemaView::Empty => false,
        SchemaView::String(_, c) => canonical_constraints(c),
        SchemaView::Integer(_, c) => canonical_constraints(c),
        SchemaView::Object(k, list) => k is Some && canonical_list(list),
        SchemaView::ConstantObject(k, c) => {
            &&& k is Some
            &&& forall|w: Keywords| #[trigger] c.contains_key(w) <==> w == Keywords::Constant
            &&& c[Keywords::Constant] is ConstantValue
        },
        SchemaView::Array(k, list, c) => {
            &&& k is Some
            &&& list.len() == 1
            &&& schema_name(list[0]) == Some(KEY_FOR_KEYLESS_SCHEMAS@)
            &&& canonical(list[0])
            &&& canonical_constraints(c)
        },
    }
}

/// No two schemas of a list have the same name.
pub open spec fn names_distinct(list: Seq<SchemaView>) -> bool {
    forall|i: int, j: int|
        0 <= i < j < list.len() ==> schema_name(#[trigger] list[i]) != schema_name(
            #[trigger] list[j],
        )
}

/// The properties of an object as reading yields them.
pub open spec fn canonical_list(list: Seq<SchemaView>) -> bool
    decreases list,
{
    &&& names_distinct(list)
    &&& forall|i: int| 0 <= i < list.len() ==> canonical(#[trigger] list[i])
}

proof fn lemma_literals()
    ensures
        keyword_of("type"@) is None,
        keyword_of("items"@) is None,
        keyword_of("properties"@) is None,
        "type"@ != "items"@,
        "type"@ != "properties"@,
        "items"@ != "properties"@,
        "string"@ != "object"@,
        "integer"@ != "object"@,
        "integer"@ != "string"@,
        "array"@ != "object"@,
        "array"@ != "string"@,
        "array"@ != "integer"@,
{
    reveal_strlit("minLength");
    reveal_strlit("maxLength");
    reveal_strlit("minimum");
    reveal_strlit("maximum");
    reveal_strlit("constant");
    reveal_strlit("pattern");
    reveal_strlit("dataFile");
    reveal_strlit("type");
    reveal_strlit("items");
    reveal_strlit("properties");
    reveal_strlit("string");
    reveal_strlit("object");
    reveal_strlit("integer");
    reveal_strlit("array");
    assert("minLength"@.len() == 9 && "maxLength"@.len() == 9);
    assert("minimum"@.len() == 7 && "maximum"@.len() == 7 && "pattern"@.len() == 7);
    assert("constant"@.len() == 8 && "dataFile"@.len() == 8);
    assert("type"@.len() == 4 && "items"@.len() == 5 && "properties"@.len() == 10);
    assert("string"@.len() == 6 && "object"@.len() == 6 && "integer"@.len() == 7);
    assert("array"@.len() == 5);
    assert("string"@[0] != "object"@[0]);
}

proof fn lemma_text_injective(a: Keywords, b: Keywords)
    ensures
        keyword_text(a) == keyword_text(b) ==> a == b,
{
    lemma_keyword_text_inverse(a);
    lemma_keyword_text_inverse(b);
}

/// The members of a set of constraints, found by keyword.
proof fn lemma_constraint_lookup(
    order: Seq<Keywords>,
    c: Map<Keywords, ConstraintView>,
    k: Keywords,
)
    ensures
        lookup(constraint_entries(order, c), keyword_text(k)) == (if order.contains(k)
            && c.contains_key(k) {
            Some(constraint_value(c[k]))
        } else {
            None
        }),
    decreases order.len(),
{
    if order.len() > 0 {
        let rest = order.drop_last();
        lemma_constraint_lookup(rest, c, k);
        lemma_text_injective(order.last(), k);
        let entries = constraint_entries(order, c);
        let before = constraint_entries(rest, c);
        if order.last() == k {
            assert(order.contains(k));
            if c.contains_key(k) {
                assert(entries.last() == (keyword_text(k), constraint_value(c[k])));
            } else {
                assert(entries == before);
            }
        } else {
            assert(order.contains(k) <==> rest.contains(k)) by {
                if order.contains(k) {
                    let i = choose|i: int| 0 <= i < order.len() && order[i] == k;
                    assert(rest[i] == k);
                }
                if rest.contains(k) {
                    let i = choose|i: int| 0 <= i < rest.len() && rest[i] == k;
                    assert(order[i] == k);
                }
            }
            if c.contains_key(order.last()) {
                assert(entries.drop_last() =~= before);
                lemma_key_index(before, keyword_text(k));
            }
        }
    }
}

/// Each of these members is the constraint of some keyword.
proof fn lemma_constraint_member(
    order: Seq<Keywords>,
    c: Map<Keywords, ConstraintView>,
    i: int,
)
    requires
        0 <= i < constraint_entries(order, c).len(),
    ensures
        exists|k: Keywords|
            c.contains_key(k) && constraint_entries(order, c)[i] == (
                keyword_text(k),
                constraint_value(#[trigger] c[k]),
            ),
    decreases order.len(),
{
    let rest = order.drop_last();
    let before = constraint_entries(rest, c);
    if c.contains_key(order.last()) && i == before.len() {
        assert(constraint_entries(order, c)[i] == (
            keyword_text(order.last()),
            constraint_value(c[order.last()]),
        ));
    } else {
        lemma_constraint_member(rest, c, i);
        assert(constraint_entries(order, c)[i] == before[i]);
    }
}

proof fn lemma_order_complete(k: Keywords)
    ensures
        keyword_order().contains(k),
{
    let order = keyword_order();
    assert(order[0] == Keywords::MinLength);
    assert(order[1] == Keywords::MaxLength);
    assert(order[2] == Keywords::Minimum);
    assert(order[3] == Keywords::Maximum);
    assert(order[4] == Keywords::Constant);
    assert(order[5] == Keywords::Pattern);
    assert(order[6] == Keywords::DataFile);
}

/// A lookup in two lists of members, one after the other.
pub proof fn lemma_lookup_concat<T>(
    a: Seq<(Seq<char>, T)>,
    b: Seq<(Seq<char>, T)>,
    key: Seq<char>,
)
    ensures
        lookup(a + b, key) == (if has_key(b, key) {
            lookup(b, key)
        } else {
            lookup(a, key)
        }),
    decreases b.len(),
{
    lemma_key_index(b, key);
    if b.len() == 0 {
        assert(a + b =~= a);
    } else {
        let rest = b.drop_last();
        assert((a + b).drop_last() =~= a + rest);
        assert((a + b).last() == b.last());
        lemma_key_index(rest, key);
        lemma_key_index(a + rest, key);
        lemma_key_index(a, key);
        lemma_lookup_concat(a, rest, key);
    }
}

/// A lookup in two members.
proof fn lemma_lookup_pair<T>(a: (Seq<char>, T), b: (Seq<char>, T), key: Seq<char>)
    ensures
        lookup(seq![a, b], key) == (if b.0 == key {
            Some(b.1)
        } else if a.0 == key {
            Some(a.1)
        } else {
            None
        }),
{
    let pair = seq![a, b];
    assert(pair.drop_last() =~= seq![a]);
    assert(pair.drop_last().last() == a);
    assert(pair.drop_last().drop_last() =~= Seq::<(Seq<char>, T)>::empty());
    assert(key_index(pair.drop_last().drop_last(), key) == -1);
    assert(key_index(pair.drop_last(), key) == (if a.0 == key {
        0int
    } else {
        -1
    }));
}

/// Members that hold exactly the constraints `c`, and otherwise no keyword, read as `c`.
proof fn lemma_constraints_back(
    entries: Seq<(Seq<char>, JsonView)>,
    c: Map<Keywords, ConstraintView>,
)
    requires
        canonical_constraints(c),
        forall|k: Keywords| #[trigger]
            lookup(entries, keyword_text(k)) == (if c.contains_key(k) {
                Some(constraint_value(c[k]))
            } else {
                None
            }),
        forall|i: int|
            0 <= i < entries.len() ==> (keyword_of((#[trigger] entries[i]).0) matches Some(k)
                ==> c.contains_key(k) && entries[i].1 == constraint_value(c[k])),
    ensures
        property_constraints(JsonView::Object(entries)) == Ok::<
            Map<Keywords, ConstraintView>,
            SchemaErrorView,
        >(c),
{
    assert(constraints_suit(entries)) by {
        assert forall|i: int| 0 <= i < entries.len() implies (keyword_of(
            (#[trigger] entries[i]).0,
        ) matches Some(k) ==> constraint_of(k, entries[i].1) is Some) by {
            if let Some(k) = keyword_of(entries[i].0) {
                assert(constraint_of(k, constraint_value(c[k])) == Some(c[k]));
            }
        }
    }
    assert(constraints_of(entries) =~= c) by {
        assert forall|k: Keywords| constraints_of(entries).contains_key(k) == #[trigger]
            c.contains_key(k) by {
            if c.contains_key(k) {
                assert(lookup(entries, keyword_text(k)) == Some(constraint_value(c[k])));
                assert(constraint_of(k, constraint_value(c[k])) == Some(c[k]));
            } else {
                assert(lookup(entries, keyword_text(k)) is None);
            }
        }
        assert forall|k: Keywords| #[trigger] c.contains_key(k) implies constraints_of(entries)[k]
            == c[k] by {
            assert(lookup(entries, keyword_text(k)) == Some(constraint_value(c[k])));
            assert(constraint_of(k, constraint_value(c[k])) == Some(c[k]));
        }
    }
}

/// Constraints followed by a `type`.
proof fn lemma_typed_back(c: Map<Keywords, ConstraintView>, kind: JsonView)
    ensures
        ({
            let entries = constraint_entries(keyword_order(), c).push(("type"@, kind));
            &&& lookup(entries, "type"@) == Some(kind)
            &&& forall|k: Keywords| #[trigger]
                lookup(entries, keyword_text(k)) == (if c.contains_key(k) {
                    Some(constraint_value(c[k]))
                } else {
                    None
                })
            &&& lookup(entries, "properties"@) is None
            &&& canonical_constraints(c) ==> property_constraints(JsonView::Object(entries))
                == Ok::<Map<Keywords, ConstraintView>, SchemaErrorView>(c)
        }),
{
    lemma_literals();
    let before = constraint_entries(keyword_order(), c);
    let entries = before.push(("type"@, kind));
    assert(entries.drop_last() =~= before);
    assert(entries.last() == ("type"@, kind));
    assert forall|k: Keywords| #[trigger] lookup(entries, keyword_text(k)) == (if c.contains_key(
        k,
    ) {
        Some(constraint_value(c[k]))
    } else {
        None
    }) by {
        lemma_order_complete(k);
        lemma_constraint_lookup(keyword_order(), c, k);
        lemma_keyword_text_inverse(k);
        lemma_key_index(before, keyword_text(k));
    }
    lemma_key_index(before, "properties"@);
    if key_index(before, "properties"@) >= 0 {
        let i = key_index(before, "properties"@);
        lemma_constraint_member(keyword_order(), c, i);
        let k = choose|k: Keywords|
            c.contains_key(k) && before[i] == (keyword_text(k), constraint_value(#[trigger] c[k]));
        lemma_keyword_text_inverse(k);
    }
    if canonical_constraints(c) {
        assert forall|i: int| 0 <= i < entries.len() implies (keyword_of(
            (#[trigger] entries[i]).0,
        ) matches Some(k) ==> c.contains_key(k) && entries[i].1 == constraint_value(c[k])) by {
            if i < before.len() {
                lemma_constraint_member(keyword_order(), c, i);
                let k = choose|k: Keywords|
                    c.contains_key(k) && before[i] == (
                        keyword_text(k),
                        constraint_value(#[trigger] c[k]),
                    );
                lemma_keyword_text_inverse(k);
                assert(entries[i] == before[i]);
            }
        }
        lemma_constraints_back(entries, c);
    }
}

/// The members of an array property.
proof fn lemma_array_back(c: Map<Keywords, ConstraintView>, item: JsonView)
    requires
        canonical_constraints(c),
    ensures
        ({
            let entries = seq![("type"@, JsonView::String("array"@)), ("items"@, item)]
                + constraint_entries(keyword_order(), c);
            &&& lookup(entries, "type"@) == Some(JsonView::String("array"@))
            &&& lookup(entries, "items"@) == Some(item)
            &&& property_constraints(JsonView::Object(entries)) == Ok::<
                Map<Keywords, ConstraintView>,
                SchemaErrorView,
            >(c)
        }),
{
    lemma_literals();
    let head = seq![("type"@, JsonView::String("array"@)), ("items"@, item)];
    let tail = constraint_entries(keyword_order(), c);
    let entries = head + tail;
    assert forall|key: Seq<char>| #[trigger] has_key(tail, key) implies keyword_of(
        key,
    ) is Some by {
        let i = choose|i: int| 0 <= i < tail.len() && (#[trigger] tail[i]).0 == key;
        lemma_constraint_member(keyword_order(), c, i);
        let k = choose|k: Keywords|
            c.contains_key(k) && tail[i] == (keyword_text(k), constraint_value(#[trigger] c[k]));
        lemma_keyword_text_inverse(k);
    }
    lemma_lookup_concat(head, tail, "type"@);
    lemma_lookup_concat(head, tail, "items"@);
    lemma_lookup_pair(head[0], head[1], "type"@);
    lemma_lookup_pair(head[0], head[1], "items"@);
    assert(head =~= seq![head[0], head[1]]);
    assert forall|k: Keywords| #[trigger] lookup(entries, keyword_text(k)) == (if c.contains_key(
        k,
    ) {
        Some(constraint_value(c[k]))
    } else {
        None
    }) by {
        lemma_order_complete(k);
        lemma_constraint_lookup(keyword_order(), c, k);
        lemma_keyword_text_inverse(k);
        lemma_key_index(tail, keyword_text(k));
        lemma_key_index(head, keyword_text(k));
        lemma_lookup_concat(head, tail, keyword_text(k));
        assert(key_index(head, keyword_text(k)) == -1) by {
            let at = key_index(head, keyword_text(k));
            if at == 0 {
                assert(head[0].0 == keyword_text(k));
            } else if at == 1 {
                assert(head[1].0 == keyword_text(k));
            }
        }
    }
    assert forall|i: int| 0 <= i < entries.len() implies (keyword_of(
        (#[trigger] entries[i]).0,
    ) matches Some(k) ==> c.contains_key(k) && entries[i].1 == constraint_value(c[k])) by {
        if i >= 2 {
            lemma_constraint_member(keyword_order(), c, i - 2);
            let k = choose|k: Keywords|
                c.contains_key(k) && tail[i - 2] == (
                    keyword_text(k),
                    constraint_value(#[trigger] c[k]),
                );
            lemma_keyword_text_inverse(k);
            assert(entries[i] == tail[i - 2]);
        }
    }
    lemma_constraints_back(entries, c);
}

/// The properties of an object with distinct names are written one after the other.
proof fn lemma_schemas_value(list: Seq<SchemaView>)
    requires
        names_distinct(list),
        forall|i: int| 0 <= i < list.len() ==> schema_name(#[trigger] list[i]) is Some,
    ensures
        schemas_value(list) == Seq::new(
            list.len(),
            |i: int| (schema_name(list[i])->0, schema_value(list[i])),
        ),
    decreases list.len(),
{
    let whole = Seq::new(list.len(), |i: int| (schema_name(list[i])->0, schema_value(list[i])));
    if list.len() == 0 {
        assert(schemas_value(list) =~= whole);
    } else {
        let rest = list.drop_last();
        lemma_schemas_value(rest);
        let written = schemas_value(rest);
        let name = schema_name(list.last())->0;
        lemma_key_index(written, name);
        if key_index(written, name) >= 0 {
            let i = key_index(written, name);
            assert(schema_name(list[i]) != schema_name(list[list.len() - 1]));
        }
        assert(schemas_value(list) =~= whole);
    }
}

/// A property that was written is read back as it was.
pub proof fn lemma_property_round_trip(s: SchemaView)
    requires
        canonical(s),
    ensures
        schema_name(s) is Some,
        property_schema(schema_name(s)->0, schema_value(s)) == Ok::<
            Option<SchemaView>,
            SchemaErrorView,
        >(Some(s)),
    decreases s,
{
    lemma_literals();
    match s {
        SchemaView::Empty => {},
        SchemaView::String(_, c) => {
            lemma_typed_back(c, JsonView::String("string"@));
        },
        SchemaView::Integer(_, c) => {
            lemma_typed_back(c, JsonView::String("integer"@));
        },
        SchemaView::Object(k, list) => {
            lemma_properties_round_trip(list);
            let entries = seq![
                ("type"@, JsonView::String("object"@)),
                ("properties"@, JsonView::Object(schemas_value(list))),
            ];
            lemma_lookup_pair(entries[0], entries[1], "type"@);
            lemma_lookup_pair(entries[0], entries[1], "properties"@);
            assert(entries =~= seq![entries[0], entries[1]]);
            assert(lookup(entries, "type"@) == Some(JsonView::String("object"@)));
            assert(lookup(entries, "properties"@) == Some(JsonView::Object(schemas_value(list))));
        },
        SchemaView::ConstantObject(k, c) => {
            lemma_typed_back(c, JsonView::String("object"@));
            let value = c[Keywords::Constant]->ConstantValue_0;
            assert(c.contains_key(Keywords::Constant));
            let entries = constraint_entries(keyword_order(), c).push(
                ("type"@, JsonView::String("object"@)),
            );
            assert(lookup(entries, keyword_text(Keywords::Constant)) == Some(value));
            let back = Map::<Keywords, ConstraintView>::empty().insert(
                Keywords::Constant,
                ConstraintView::ConstantValue(value),
            );
            assert(back =~= c);
        },
        SchemaView::Array(k, list, c) => {
            lemma_property_round_trip(list[0]);
            assert(names_distinct(list));
            lemma_schemas_value(list);
            let written = schemas_value(list);
            assert(written.len() == 1);
            assert(written.last() == (KEY_FOR_KEYLESS_SCHEMAS@, schema_value(list[0])));
            assert(lookup(written, KEY_FOR_KEYLESS_SCHEMAS@) == Some(schema_value(list[0])));
            lemma_array_back(c, schema_value(list[0]));
            assert(option_seq(Some(list[0])) =~= list);
            let entries = seq![
                ("type"@, JsonView::String("array"@)),
                ("items"@, schema_value(list[0])),
            ] + constraint_entries(keyword_order(), c);
            assert(schema_value(s)->Object_0 =~= entries);
        },
    }
}

/// The properties of an object that were written are read back as they were.
pub proof fn lemma_properties_round_trip(list: Seq<SchemaView>)
    requires
        canonical_list(list),
    ensures
        properties_schema(schemas_value(list)) == Ok::<Seq<SchemaView>, SchemaErrorView>(list),
        unique_keys(schemas_value(list)),
    decreases list,
{
    assert forall|i: int| 0 <= i < list.len() implies schema_name(#[trigger] list[i]) is Some
        && property_schema(schema_name(list[i])->0, schema_value(list[i])) == Ok::<
        Option<SchemaView>,
        SchemaErrorView,
    >(Some(list[i])) by {
        lemma_property_round_trip(list[i]);
    }
    lemma_schemas_value(list);
    if list.len() > 0 {
        let rest = list.drop_last();
        assert(canonical_list(rest));
        lemma_properties_round_trip(rest);
        lemma_schemas_value(rest);
        let written = schemas_value(list);
        assert(written.drop_last() =~= schemas_value(rest));
        assert(written.last() == (schema_name(list.last())->0, schema_value(list.last())));
        assert(rest + option_seq(Some(list.last())) =~= list);
        assert(list[list.len() - 1] == list.last());
    } else {
        assert(schemas_value(list) =~= Seq::empty());
        assert(list =~= Seq::empty());
    }
    let written = schemas_value(list);
    assert forall|i: int, j: int| 0 <= i < j < written.len() implies (#[trigger] written[i]).0 != (
    #[trigger] written[j]).0 by {
        assert(schema_name(list[i]) != schema_name(list[j]));
    }
}

/// A data schema that was written as a document is read back as it was.
pub proof fn lemma_schema_round_trip(list: Seq<SchemaView>)
    requires
        canonical_list(list),
    ensures
        schema_of_value(value_of_schema(SchemaView::Object(None, list))) == Ok::<
            SchemaView,
            SchemaErrorView,
        >(SchemaView::Object(None, list)),
{
    lemma_properties_round_trip(list);
    let entries = seq![("properties"@, JsonView::Object(schemas_value(list)))];
    assert(entries.last().0 == "properties"@);
    assert(lookup(entries, "properties"@) == Some(JsonView::Object(schemas_value(list))));
}

// ---------------------------------------------------------------------------------------------
// What is read
// ---------------------------------------------------------------------------------------------

/// The members of every object in a value have distinct names, and negative integers are below
/// zero: true of every value that was read from JSON text.
pub open spec fn well_formed(v: JsonView) -> bool
    decreases v,
{
    match v {
        JsonView::Number(crate::json::NumberView::NegInt(n)) => n < 0,
        JsonView::Array(items) => forall|i: int|
            0 <= i < items.len() ==> well_formed(#[trigger] items[i]),
        JsonView::Object(entries) => {
            &&& unique_keys(entries)
            &&& forall|i: int| 0 <= i < entries.len() ==> well_formed((#[trigger] entries[i]).1)
        },
        _ => true,
    }
}

/// The item schema of every array is known.
pub open spec fn items_known(s: SchemaView) -> bool
    decreases s,
{
    match s {
        SchemaView::Object(_, list) => forall|i: int|
            0 <= i < list.len() ==> items_known(#[trigger] list[i]),
        SchemaView::Array(_, list, _) => list.len() == 1 && items_known(list[0]),
        _ => true,
    }
}

proof fn lemma_member_well_formed(v: JsonView, key: Seq<char>)
    requires
        well_formed(v),
    ensures
        view_get(v, key) matches Some(p) ==> well_formed(p),
{
    if let JsonView::Object(entries) = v {
        lemma_key_index(entries, key);
        let i = key_index(entries, key);
        if i >= 0 {
            assert(well_formed(entries[i].1));
        }
    }
}

/// A constraint that was read is the one that its own notation expresses.
proof fn lemma_constraint_canonical(k: Keywords, v: JsonView)
    requires
        constraint_of(k, v) is Some,
    ensures
        constraint_of(k, constraint_value(constraint_of(k, v)->0)) == constraint_of(k, v),
        well_formed(v) ==> constraint_value(constraint_of(k, v)->0) == v,
{
}

proof fn lemma_constraints_canonical(v: JsonView)
    ensures
        property_constraints(v) matches Ok(c) ==> canonical_constraints(c),
{
    if let Ok(c) = property_constraints(v) {
        let entries = v->Object_0;
        assert forall|k: Keywords| c.contains_key(k) implies constraint_of(
            k,
            constraint_value(#[trigger] c[k]),
        ) == Some(c[k]) by {
            lemma_constraint_canonical(k, lookup(entries, keyword_text(k))->0);
        }
    }
}

/// Whatever is read is named after its property and canonical, where the items of its arrays are
/// known.
pub proof fn lemma_read_canonical(key: Seq<char>, v: JsonView)
    requires
        well_formed(v),
    ensures
        property_schema(key, v) matches Ok(Some(s)) ==> schema_name(s) == Some(key) && (items_known(
            s,
        ) ==> canonical(s)),
    decreases v,
{
    lemma_literals();
    if let Ok(Some(s)) = property_schema(key, v) {
        match s {
            SchemaView::Empty => {},
            SchemaView::String(_, c) => {
                lemma_constraints_canonical(v);
            },
            SchemaView::Integer(_, c) => {
                lemma_constraints_canonical(v);
            },
            SchemaView::Object(_, list) => {
                lemma_get_decreases(v, "properties"@);
                lemma_member_well_formed(v, "properties"@);
                let inner = view_get(v, "properties"@)->0->Object_0;
                lemma_read_list_canonical(inner);
                if items_known(s) {
                    assert(canonical_list(list));
                }
            },
            SchemaView::ConstantObject(_, c) => {},
            SchemaView::Array(_, list, c) => {
                lemma_get_decreases(v, "items"@);
                lemma_member_well_formed(v, "items"@);
                lemma_constraints_canonical(v);
                lemma_read_canonical(KEY_FOR_KEYLESS_SCHEMAS@, view_get(v, "items"@)->0);
            },
        }
    }
}

/// The properties that are read have distinct names that occur in the object, and are canonical
/// where the items of their arrays are known.
pub proof fn lemma_read_list_canonical(entries: Seq<(Seq<char>, JsonView)>)
    requires
        unique_keys(entries),
        forall|i: int| 0 <= i < entries.len() ==> well_formed((#[trigger] entries[i]).1),
    ensures
        properties_schema(entries) matches Ok(list) ==> {
            &&& names_distinct(list)
            &&& forall|i: int|
                0 <= i < list.len() ==> {
                    &&& schema_name(#[trigger] list[i]) is Some
                    &&& has_key(entries, schema_name(list[i])->0)
                    &&& items_known(list[i]) ==> canonical(list[i])
                }
        },
    decreases entries,
{
    if entries.len() == 0 {
    } else if let Ok(list) = properties_schema(entries) {
        let rest = entries.drop_last();
        assert forall|i: int, j: int| 0 <= i < j < rest.len() implies (#[trigger] rest[i]).0 != (
        #[trigger] rest[j]).0 by {
            assert(rest[i] == entries[i]);
            assert(rest[j] == entries[j]);
        }
        assert forall|i: int| 0 <= i < rest.len() implies well_formed((#[trigger] rest[i]).1) by {
            assert(rest[i] == entries[i]);
        }
        lemma_read_list_canonical(rest);
        let before = properties_schema(rest)->Ok_0;
        let last = entries.last();
        assert(last == entries[entries.len() - 1]);
        assert(well_formed(last.1));
        assert(decreases_to!(entries => entries[entries.len() - 1]));
        lemma_read_canonical(last.0, last.1);
        assert forall|i: int| 0 <= i < list.len() implies {
            &&& schema_name(#[trigger] list[i]) is Some
            &&& has_key(entries, schema_name(list[i])->0)
            &&& items_known(list[i]) ==> canonical(list[i])
        } by {
            if i < before.len() {
                assert(list[i] == before[i]);
                let name = schema_name(before[i])->0;
                let j = choose|j: int| 0 <= j < rest.len() && (#[trigger] rest[j]).0 == name;
                assert(entries[j].0 == name);
            } else {
                assert(entries[entries.len() - 1].0 == last.0);
            }
        }
        assert forall|i: int, j: int| 0 <= i < j < list.len() implies schema_name(
            #[trigger] list[i],
        ) != schema_name(#[trigger] list[j]) by {
            assert(list[i] == before[i]);
            if j < before.len() {
                assert(list[j] == before[j]);
            } else {
                let name = schema_name(before[i])->0;
                let m = choose|m: int| 0 <= m < rest.len() && (#[trigger] rest[m]).0 == name;
                assert(entries[m].0 != entries[entries.len() - 1].0);
            }
        }
    }
}

/// Reading, writing and reading again yields the same schema. (Where the type of an array's items
/// is unknown they are left out when read, and cannot be written.)
pub proof fn lemma_read_write_read(document: JsonView)
    requires
        well_formed(document),
        schema_of_value(document) is Ok,
        items_known(schema_of_value(document)->Ok_0),
    ensures
        named(schema_of_value(document)->Ok_0->Object_1),
        schema_of_value(value_of_schema(schema_of_value(document)->Ok_0)) == schema_of_value(
            document,
        ),
{
    let s = schema_of_value(document)->Ok_0;
    let list = s->Object_1;
    lemma_member_well_formed(document, "properties"@);
    lemma_read_list_canonical(view_get(document, "properties"@)->0->Object_0);
    assert(canonical_list(list)) by {
        assert forall|i: int| 0 <= i < list.len() implies canonical(#[trigger] list[i]) by {
            assert(items_known(list[i]));
        }
    }
    lemma_canonical_named(list);
    lemma_schema_round_trip(list);
}

/// Canonical schemas are named at every depth, so they can be written.
pub proof fn lemma_canonical_named(list: Seq<SchemaView>)
    requires
        forall|i: int| 0 <= i < list.len() ==> canonical(#[trigger] list[i]),
    ensures
        named(list),
    decreases list,
{
    assert forall|i: int| 0 <= i < list.len() implies {
        &&& (#[trigger] list[i]) is Empty || schema_name(list[i]) is Some
        &&& list[i] is Object ==> named(list[i]->Object_1)
        &&& list[i] is Array ==> named(list[i]->Array_1)
    } by {
        assert(canonical(list[i]));
        assert(decreases_to!(list => list[i]));
        match list[i] {
            SchemaView::Object(_, inner) => {
                assert(canonical_list(inner));
                lemma_canonical_named(inner);
            },
            SchemaView::Array(_, inner, _) => {
                lemma_canonical_named(inner);
            },
            _ => {},
        }
    }
}

// ---------------------------------------------------------------------------------------------
// From a document and back
// ---------------------------------------------------------------------------------------------

/// Every member is the type, the member `other`, or a keyword where keywords are allowed.
pub open spec fn only_members(
    entries: Seq<(Seq<char>, JsonView)>,
    other: Seq<char>,
    keywords: bool,
) -> bool {
    forall|i: int|
        0 <= i < entries.len() ==> (#[trigger] entries[i]).0 == "type"@ || entries[i].0 == other
            || (keywords && keyword_of(entries[i].0) is Some)
}

/// A property that holds nothing but what a schema expresses: no description, no unknown type.
pub open spec fn tidy(v: JsonView) -> bool
    decreases v,
{
    match view_get(v, "type"@) {
        Some(JsonView::String(kind)) => {
            if kind == "object"@ {
                match view_get(v, "properties"@) {
                    Some(JsonView::Object(inner)) => {
                        proof {
                            lemma_get_decreases(v, "properties"@);
                        }
                        only_members(v->Object_0, "properties"@, false) && tidy_properties(inner)
                    },
                    Some(_) => false,
                    None => view_get(v, "constant"@) is Some && only_members(
                        v->Object_0,
                        "constant"@,
                        false,
                    ),
                }
            } else if kind == "string"@ || kind == "integer"@ {
                only_members(v->Object_0, "type"@, true)
            } else if kind == "array"@ {
                match view_get(v, "items"@) {
                    Some(item) => {
                        proof {
                            lemma_get_decreases(v, "items"@);
                        }
                        only_members(v->Object_0, "items"@, true) && tidy(item)
                    },
                    None => false,
                }
            } else {
                false
            }
        },
        _ => false,
    }
}

/// Properties that hold nothing but what a schema expresses.
pub open spec fn tidy_properties(entries: Seq<(Seq<char>, JsonView)>) -> bool
    decreases entries,
{
    forall|i: int| 0 <= i < entries.len() ==> tidy((#[trigger] entries[i]).1)
}

/// Two objects with the same names have the same number of members.
proof fn lemma_same_names_same_len<T, U>(a: Seq<(Seq<char>, T)>, b: Seq<(Seq<char>, U)>)
    requires
        unique_keys(a),
        unique_keys(b),
        forall|key: Seq<char>| #[trigger] has_key(a, key) <==> has_key(b, key),
    ensures
        a.len() == b.len(),
{
    let x = Seq::new(a.len(), |i: int| a[i].0);
    let y = Seq::new(b.len(), |i: int| b[i].0);
    assert(x.no_duplicates()) by {
        assert forall|i: int, j: int| 0 <= i < x.len() && 0 <= j < x.len() && i != j implies x[i]
            != x[j] by {
            if i < j {
                assert(a[i].0 != a[j].0);
            } else {
                assert(a[j].0 != a[i].0);
            }
        }
    }
    assert(y.no_duplicates()) by {
        assert forall|i: int, j: int| 0 <= i < y.len() && 0 <= j < y.len() && i != j implies y[i]
            != y[j] by {
            if i < j {
                assert(b[i].0 != b[j].0);
            } else {
                assert(b[j].0 != b[i].0);
            }
        }
    }
    x.unique_seq_to_set();
    y.unique_seq_to_set();
    assert(x.to_set() =~= y.to_set()) by {
        assert forall|key: Seq<char>| x.to_set().contains(key) == y.to_set().contains(key) by {
            if x.contains(key) {
                let i = choose|i: int| 0 <= i < x.len() && x[i] == key;
                assert(a[i].0 == key);
                assert(has_key(a, key));
                let j = choose|j: int| 0 <= j < b.len() && (#[trigger] b[j]).0 == key;
                assert(y[j] == key);
            }
            if y.contains(key) {
                let j = choose|j: int| 0 <= j < y.len() && y[j] == key;
                assert(b[j].0 == key);
                assert(has_key(b, key));
                assert(has_key(a, key));
                let i = choose|i: int| 0 <= i < a.len() && (#[trigger] a[i]).0 == key;
                assert(x[i] == key);
            }
        }
    }
}

/// Equality of well formed values is reflexive.
pub proof fn lemma_same_reflexive(v: JsonView)
    requires
        well_formed(v),
    ensures
        json_same(v, v),
    decreases v,
{
    match v {
        JsonView::Array(items) => {
            assert forall|i: int| 0 <= i < items.len() implies json_same(
                #[trigger] items[i],
                items[i],
            ) by {
                assert(decreases_to!(v => v->Array_0));
                assert(decreases_to!(items => items[i]));
                lemma_same_reflexive(items[i]);
            }
        },
        JsonView::Object(entries) => {
            assert forall|i: int| 0 <= i < entries.len() implies (lookup(
                entries,
                (#[trigger] entries[i]).0,
            ) matches Some(w) && json_same(entries[i].1, w)) by {
                assert(decreases_to!(v => v->Object_0));
                assert(decreases_to!(entries => entries[i]));
                lemma_unique_index(entries, i);
                lemma_same_reflexive(entries[i].1);
            }
        },
        _ => {},
    }
}

/// Two objects with the same names, whose members are equal, are equal.
proof fn lemma_objects_same(
    a: Seq<(Seq<char>, JsonView)>,
    b: Seq<(Seq<char>, JsonView)>,
)
    requires
        unique_keys(a),
        unique_keys(b),
        forall|key: Seq<char>| #[trigger] has_key(a, key) <==> has_key(b, key),
        forall|i: int|
            0 <= i < a.len() ==> (lookup(b, (#[trigger] a[i]).0) matches Some(w) && json_same(
                a[i].1,
                w,
            )),
    ensures
        json_same(JsonView::Object(a), JsonView::Object(b)),
{
    lemma_same_names_same_len(a, b);
}

/// The name is the text of one of the keywords `order`.
spec fn among(order: Seq<Keywords>, name: Seq<char>) -> bool {
    exists|m: int| 0 <= m < order.len() && keyword_text(#[trigger] order[m]) == name
}

proof fn lemma_constraint_entries_unique(order: Seq<Keywords>, c: Map<Keywords, ConstraintView>)
    requires
        order.no_duplicates(),
    ensures
        unique_keys(constraint_entries(order, c)),
        forall|i: int|
            0 <= i < constraint_entries(order, c).len() ==> among(
                order,
                (#[trigger] constraint_entries(order, c)[i]).0,
            ) && keyword_of(constraint_entries(order, c)[i].0) is Some,
    decreases order.len(),
{
    if order.len() > 0 {
        let rest = order.drop_last();
        assert(rest.no_duplicates());
        lemma_constraint_entries_unique(rest, c);
        lemma_keyword_text_inverse(order.last());
        let before = constraint_entries(rest, c);
        let after = constraint_entries(order, c);
        assert forall|i: int| 0 <= i < after.len() implies among(order, (#[trigger] after[i]).0)
            && keyword_of(after[i].0) is Some by {
            if i < before.len() {
                assert(after[i] == before[i]);
                let m = choose|m: int|
                    0 <= m < rest.len() && keyword_text(#[trigger] rest[m]) == before[i].0;
                assert(order[m] == rest[m]);
            } else {
                assert(order[order.len() - 1] == order.last());
            }
        }
        assert forall|i: int, j: int| 0 <= i < j < after.len() implies (#[trigger] after[i]).0 != (
        #[trigger] after[j]).0 by {
            assert(after[i] == before[i]);
            if j < before.len() {
                assert(after[j] == before[j]);
            } else {
                let m = choose|m: int|
                    0 <= m < rest.len() && keyword_text(#[trigger] rest[m]) == before[i].0;
                assert(order[m] == rest[m]);
                lemma_text_injective(order[m], order.last());
            }
        }
    }
}

proof fn lemma_order_no_duplicates()
    ensures
        keyword_order().no_duplicates(),
{
}

/// The members that express the constraints of a property are found in it with the same values.
proof fn lemma_constraint_member_found(v: JsonView, i: int)
    requires
        well_formed(v),
        property_constraints(v) is Ok,
        0 <= i < constraint_entries(keyword_order(), property_constraints(v)->Ok_0).len(),
    ensures
        ({
            let entry = constraint_entries(keyword_order(), property_constraints(v)->Ok_0)[i];
            &&& lookup(v->Object_0, entry.0) == Some(entry.1)
            &&& keyword_of(entry.0) is Some
            &&& well_formed(entry.1)
        }),
{
    let c = property_constraints(v)->Ok_0;
    let entries = v->Object_0;
    let written = constraint_entries(keyword_order(), c);
    lemma_constraint_member(keyword_order(), c, i);
    let k = choose|k: Keywords|
        c.contains_key(k) && written[i] == (keyword_text(k), constraint_value(#[trigger] c[k]));
    lemma_keyword_text_inverse(k);
    lemma_member_well_formed(v, keyword_text(k));
    lemma_constraint_canonical(k, lookup(entries, keyword_text(k))->0);
}

/// A keyword that a property holds is among the members that are written of it.
proof fn lemma_keyword_written(v: JsonView, key: Seq<char>)
    requires
        well_formed(v),
        property_constraints(v) is Ok,
        has_key(v->Object_0, key),
        keyword_of(key) is Some,
    ensures
        has_key(constraint_entries(keyword_order(), property_constraints(v)->Ok_0), key),
{
    let c = property_constraints(v)->Ok_0;
    let entries = v->Object_0;
    let k = keyword_of(key)->0;
    lemma_keyword_of_text(key);
    lemma_key_index(entries, key);
    let at = key_index(entries, key);
    assert(keyword_of(entries[at].0) == Some(k));
    assert(c.contains_key(k));
    lemma_order_complete(k);
    lemma_constraint_lookup(keyword_order(), c, k);
    lemma_key_index(constraint_entries(keyword_order(), c), key);
}

/// The constraints of a tidy property, its type and one more member, written back.
proof fn lemma_constraints_same(
    v: JsonView,
    written: Seq<(Seq<char>, JsonView)>,
    head: Seq<(Seq<char>, JsonView)>,
    other: Seq<char>,
)
    requires
        well_formed(v),
        v is Object,
        only_members(v->Object_0, other, true),
        property_constraints(v) is Ok,
        unique_keys(written),
        unique_keys(head),
        forall|i: int|
            0 <= i < head.len() ==> keyword_of((#[trigger] head[i]).0) is None && (lookup(
                v->Object_0,
                head[i].0,
            ) matches Some(w) && json_same(head[i].1, w)),
        has_key(head, "type"@),
        has_key(head, other),
        forall|key: Seq<char>| #[trigger]
            has_key(written, key) <==> (has_key(head, key) || has_key(
                constraint_entries(keyword_order(), property_constraints(v)->Ok_0),
                key,
            )),
        forall|i: int|
            0 <= i < written.len() ==> head.contains(#[trigger] written[i]) || constraint_entries(
                keyword_order(),
                property_constraints(v)->Ok_0,
            ).contains(written[i]),
    ensures
        json_same(JsonView::Object(written), v),
{
    let entries = v->Object_0;
    let c = property_constraints(v)->Ok_0;
    let tail = constraint_entries(keyword_order(), c);
    assert forall|i: int| 0 <= i < written.len() implies (lookup(
        entries,
        (#[trigger] written[i]).0,
    ) matches Some(w) && json_same(written[i].1, w)) by {
        if head.contains(written[i]) {
            let j = choose|j: int| 0 <= j < head.len() && head[j] == written[i];
            assert(keyword_of(head[j].0) is None);
        } else {
            let j = choose|j: int| 0 <= j < tail.len() && tail[j] == written[i];
            lemma_constraint_member_found(v, j);
            lemma_same_reflexive(tail[j].1);
        }
    }
    assert forall|key: Seq<char>| #[trigger] has_key(written, key) <==> has_key(entries, key) by {
        lemma_key_index(entries, key);
        if has_key(written, key) {
            let i = choose|i: int| 0 <= i < written.len() && (#[trigger] written[i]).0 == key;
            assert(lookup(entries, written[i].0) is Some);
        }
        if has_key(entries, key) {
            let i = choose|i: int| 0 <= i < entries.len() && (#[trigger] entries[i]).0 == key;
            if keyword_of(key) is Some {
                lemma_keyword_written(v, key);
            }
        }
    }
    lemma_objects_same(written, entries);
}

/// A tidy property is written as it was read.
pub proof fn lemma_tidy_property(key: Seq<char>, v: JsonView)
    requires
        well_formed(v),
        tidy(v),
    ensures
        property_schema(key, v) matches Ok(found) ==> found is Some && json_same(
            schema_value(found->0),
            v,
        ),
    decreases v,
{
    lemma_literals();
    lemma_keyword_text_inverse(Keywords::Constant);
    let entries = v->Object_0;
    let kind = view_get(v, "type"@)->0->String_0;
    lemma_order_no_duplicates();
    if let Ok(found) = property_schema(key, v) {
        let s = found->0;
        if kind == "object"@ {
            if view_get(v, "properties"@) is Some {
                lemma_get_decreases(v, "properties"@);
                lemma_member_well_formed(v, "properties"@);
                let inner = view_get(v, "properties"@)->0->Object_0;
                lemma_tidy_list(inner);
                let list = s->Object_1;
                let written = seq![
                    ("type"@, JsonView::String("object"@)),
                    ("properties"@, JsonView::Object(schemas_value(list))),
                ];
                assert(schema_value(s)->Object_0 =~= written);
                lemma_two_members(v, written, "properties"@);
            } else {
                let c = s->ConstantObject_1;
                let value = view_get(v, "constant"@)->0;
                lemma_member_well_formed(v, "constant"@);
                lemma_same_reflexive(value);
                lemma_constant_entries(c, value);
                let written = seq![
                    ("constant"@, value),
                    ("type"@, JsonView::String("object"@)),
                ];
                assert(schema_value(s)->Object_0 =~= written);
                lemma_two_members(v, written, "constant"@);
            }
        } else if kind == "array"@ {
            lemma_get_decreases(v, "items"@);
            lemma_member_well_formed(v, "items"@);
            let item = view_get(v, "items"@)->0;
            lemma_tidy_property(KEY_FOR_KEYLESS_SCHEMAS@, item);
            lemma_read_canonical(KEY_FOR_KEYLESS_SCHEMAS@, item);
            let list = s->Array_1;
            let c = s->Array_2;
            lemma_schemas_value(list);
            let inner = schemas_value(list);
            assert(inner.last() == (KEY_FOR_KEYLESS_SCHEMAS@, schema_value(list[0])));
            assert(lookup(inner, KEY_FOR_KEYLESS_SCHEMAS@) == Some(schema_value(list[0])));
            let head = seq![
                ("type"@, JsonView::String("array"@)),
                ("items"@, schema_value(list[0])),
            ];
            let tail = constraint_entries(keyword_order(), c);
            assert(schema_value(s)->Object_0 =~= head + tail);
            lemma_constraint_entries_unique(keyword_order(), c);
            assert(head[0].0 == "type"@ && head[1].0 == "items"@);
            lemma_concat_members(head, tail);
            lemma_constraints_same(v, head + tail, head, "items"@);
        } else {
            let c = property_constraints(v)->Ok_0;
            let tail = constraint_entries(keyword_order(), c);
            let head = seq![("type"@, JsonView::String(kind))];
            let written = tail.push(("type"@, JsonView::String(kind)));
            assert(schema_value(s)->Object_0 =~= written);
            lemma_constraint_entries_unique(keyword_order(), c);
            assert(head[0].0 == "type"@);
            lemma_push_members(head, tail);
            lemma_constraints_same(v, written, head, "type"@);
        }
    }
}

proof fn lemma_constant_entries(c: Map<Keywords, ConstraintView>, value: JsonView)
    requires
        c == Map::<Keywords, ConstraintView>::empty().insert(
            Keywords::Constant,
            ConstraintView::ConstantValue(value),
        ),
    ensures
        constraint_entries(keyword_order(), c) == seq![("constant"@, value)],
{
    let order = keyword_order();
    let none = Seq::<(Seq<char>, JsonView)>::empty();
    assert(constraint_entries(order.take(0), c) =~= none);
    assert(order.take(1).drop_last() =~= order.take(0));
    assert(order.take(2).drop_last() =~= order.take(1));
    assert(order.take(3).drop_last() =~= order.take(2));
    assert(order.take(4).drop_last() =~= order.take(3));
    assert(order.take(5).drop_last() =~= order.take(4));
    assert(order.take(6).drop_last() =~= order.take(5));
    assert(order.take(7).drop_last() =~= order.take(6));
    assert(order.take(7) =~= order);
    assert(constraint_entries(order.take(1), c) =~= none);
    assert(constraint_entries(order.take(2), c) =~= none);
    assert(constraint_entries(order.take(3), c) =~= none);
    assert(constraint_entries(order.take(4), c) =~= none);
    assert(constraint_entries(order.take(5), c) =~= seq![("constant"@, value)]);
    assert(constraint_entries(order.take(6), c) =~= seq![("constant"@, value)]);
    assert(constraint_entries(order.take(7), c) =~= seq![("constant"@, value)]);
}

/// An object property that was written with its type and one more member.
proof fn lemma_two_members(
    v: JsonView,
    written: Seq<(Seq<char>, JsonView)>,
    other: Seq<char>,
)
    requires
        well_formed(v),
        v is Object,
        other != "type"@,
        only_members(v->Object_0, other, false),
        written.len() == 2,
        (written[0].0 == "type"@ && written[1].0 == other) || (written[0].0 == other
            && written[1].0 == "type"@),
        forall|i: int|
            0 <= i < 2 ==> (lookup(v->Object_0, (#[trigger] written[i]).0) matches Some(w)
                && json_same(written[i].1, w)),
    ensures
        json_same(JsonView::Object(written), v),
{
    let entries = v->Object_0;
    assert forall|key: Seq<char>| #[trigger] has_key(written, key) <==> has_key(entries, key) by {
        lemma_key_index(entries, key);
        if has_key(written, key) {
            let i = choose|i: int| 0 <= i < written.len() && (#[trigger] written[i]).0 == key;
            assert(lookup(entries, written[i].0) is Some);
        }
        if has_key(entries, key) {
            let i = choose|i: int| 0 <= i < entries.len() && (#[trigger] entries[i]).0 == key;
            assert(written[0].0 == key || written[1].0 == key);
        }
    }
    lemma_objects_same(written, entries);
}

proof fn lemma_concat_members(
    head: Seq<(Seq<char>, JsonView)>,
    tail: Seq<(Seq<char>, JsonView)>,
)
    requires
        unique_keys(head),
        unique_keys(tail),
        forall|i: int| 0 <= i < head.len() ==> keyword_of((#[trigger] head[i]).0) is None,
        forall|i: int| 0 <= i < tail.len() ==> keyword_of((#[trigger] tail[i]).0) is Some,
    ensures
        unique_keys(head + tail),
        forall|key: Seq<char>| #[trigger]
            has_key(head + tail, key) <==> (has_key(head, key) || has_key(tail, key)),
        forall|i: int|
            0 <= i < (head + tail).len() ==> head.contains(#[trigger] (head + tail)[i])
                || tail.contains((head + tail)[i]),
{
    let written = head + tail;
    assert forall|i: int, j: int| 0 <= i < j < written.len() implies (#[trigger] written[i]).0 != (
    #[trigger] written[j]).0 by {
        if j < head.len() {
            assert(head[i].0 != head[j].0);
        } else if i >= head.len() {
            assert(tail[i - head.len()].0 != tail[j - head.len()].0);
        } else {
            assert(keyword_of(tail[j - head.len()].0) is Some);
            assert(keyword_of(head[i].0) is None);
        }
    }
    assert forall|key: Seq<char>| #[trigger] has_key(written, key) <==> (has_key(head, key)
        || has_key(tail, key)) by {
        if has_key(written, key) {
            let i = choose|i: int| 0 <= i < written.len() && (#[trigger] written[i]).0 == key;
            if i < head.len() {
                assert(head[i].0 == key);
            } else {
                assert(tail[i - head.len()].0 == key);
            }
        }
        if has_key(head, key) {
            let i = choose|i: int| 0 <= i < head.len() && (#[trigger] head[i]).0 == key;
            assert(written[i].0 == key);
        }
        if has_key(tail, key) {
            let i = choose|i: int| 0 <= i < tail.len() && (#[trigger] tail[i]).0 == key;
            assert(written[i + head.len()].0 == key);
        }
    }
    assert forall|i: int| 0 <= i < written.len() implies head.contains(#[trigger] written[i])
        || tail.contains(written[i]) by {
        if i < head.len() {
            assert(head[i] == written[i]);
        } else {
            assert(tail[i - head.len()] == written[i]);
        }
    }
}

proof fn lemma_push_members(
    head: Seq<(Seq<char>, JsonView)>,
    tail: Seq<(Seq<char>, JsonView)>,
)
    requires
        head.len() == 1,
        unique_keys(tail),
        keyword_of(head[0].0) is None,
        forall|i: int| 0 <= i < tail.len() ==> keyword_of((#[trigger] tail[i]).0) is Some,
    ensures
        unique_keys(tail.push(head[0])),
        forall|key: Seq<char>| #[trigger]
            has_key(tail.push(head[0]), key) <==> (has_key(head, key) || has_key(tail, key)),
        forall|i: int|
            0 <= i < tail.push(head[0]).len() ==> head.contains(#[trigger] tail.push(head[0])[i])
                || tail.contains(tail.push(head[0])[i]),
{
    let written = tail.push(head[0]);
    assert forall|i: int, j: int| 0 <= i < j < written.len() implies (#[trigger] written[i]).0 != (
    #[trigger] written[j]).0 by {
        assert(written[i] == tail[i]);
        if j < tail.len() {
            assert(tail[i].0 != tail[j].0);
        } else {
            assert(keyword_of(tail[i].0) is Some);
        }
    }
    assert forall|key: Seq<char>| #[trigger] has_key(written, key) <==> (has_key(head, key)
        || has_key(tail, key)) by {
        if has_key(written, key) {
            let i = choose|i: int| 0 <= i < written.len() && (#[trigger] written[i]).0 == key;
            if i < tail.len() {
                assert(tail[i].0 == key);
            } else {
                assert(head[0].0 == key);
            }
        }
        if has_key(head, key) {
            assert(written[tail.len() as int].0 == key);
        }
        if has_key(tail, key) {
            let i = choose|i: int| 0 <= i < tail.len() && (#[trigger] tail[i]).0 == key;
            assert(written[i].0 == key);
        }
    }
    assert forall|i: int| 0 <= i < written.len() implies head.contains(#[trigger] written[i])
        || tail.contains(written[i]) by {
        if i < tail.len() {
            assert(tail[i] == written[i]);
        } else {
            assert(head[0] == written[i]);
        }
    }
}

/// Tidy properties are written as they were read.
pub proof fn lemma_tidy_list(entries: Seq<(Seq<char>, JsonView)>)
    requires
        unique_keys(entries),
        forall|i: int| 0 <= i < entries.len() ==> well_formed((#[trigger] entries[i]).1),
        tidy_properties(entries),
    ensures
        properties_schema(entries) matches Ok(list) ==> {
            &&& list.len() == entries.len()
            &&& forall|i: int|
                0 <= i < list.len() ==> schema_name(#[trigger] list[i]) == Some(entries[i].0)
                    && json_same(schema_value(list[i]), entries[i].1)
            &&& json_same(JsonView::Object(schemas_value(list)), JsonView::Object(entries))
        },
    decreases entries,
{
    if entries.len() == 0 {
        if let Ok(list) = properties_schema(entries) {
            assert(schemas_value(list) =~= Seq::empty());
        }
    } else if let Ok(list) = properties_schema(entries) {
        let rest = entries.drop_last();
        assert forall|i: int, j: int| 0 <= i < j < rest.len() implies (#[trigger] rest[i]).0 != (
        #[trigger] rest[j]).0 by {
            assert(rest[i] == entries[i]);
            assert(rest[j] == entries[j]);
        }
        assert forall|i: int| 0 <= i < rest.len() implies well_formed((#[trigger] rest[i]).1)
            && tidy(rest[i].1) by {
            assert(rest[i] == entries[i]);
        }
        lemma_tidy_list(rest);
        let before = properties_schema(rest)->Ok_0;
        let last = entries[entries.len() - 1];
        assert(decreases_to!(entries => last));
        lemma_tidy_property(last.0, last.1);
        lemma_read_canonical(last.0, last.1);
        assert forall|i: int| 0 <= i < list.len() implies schema_name(#[trigger] list[i]) == Some(
            entries[i].0,
        ) && json_same(schema_value(list[i]), entries[i].1) by {
            if i < before.len() {
                assert(list[i] == before[i]);
                assert(rest[i] == entries[i]);
            }
        }
        assert(names_distinct(list)) by {
            assert forall|i: int, j: int| 0 <= i < j < list.len() implies schema_name(
                #[trigger] list[i],
            ) != schema_name(#[trigger] list[j]) by {
                assert(entries[i].0 != entries[j].0);
            }
        }
        lemma_schemas_value(list);
        let written = schemas_value(list);
        assert forall|i: int| 0 <= i < written.len() implies (lookup(
            entries,
            (#[trigger] written[i]).0,
        ) matches Some(w) && json_same(written[i].1, w)) by {
            assert(schema_name(list[i]) == Some(entries[i].0));
            lemma_unique_index(entries, i);
        }
    }
}

/// A document that holds nothing but what a schema expresses is written as it was read, up to the
/// order of its members.
pub proof fn lemma_document_round_trip(document: JsonView)
    requires
        well_formed(document),
        document is Object,
        document->Object_0.len() == 1,
        view_get(document, "properties"@) matches Some(JsonView::Object(e)) && tidy_properties(e),
    ensures
        schema_of_value(document) matches Ok(s) ==> json_same(value_of_schema(s), document),
{
    let entries = document->Object_0;
    lemma_key_index(entries, "properties"@);
    lemma_member_well_formed(document, "properties"@);
    lemma_tidy_list(view_get(document, "properties"@)->0->Object_0);
}

} // verus!
