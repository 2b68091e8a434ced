//! Laws of data from outside: what is drawn for a schema refers to exactly the places that its
//! document leaves to the outside source.

use vstd::prelude::*;

use crate::external_data::{
    external_option_view, externals_view, first_mention, rows, same_external, tally,
    ExternalData, ExternalView, Mention,
};
use crate::generate::{
    all_drawn, array_mentions, drawn, drawn_entries, generate_data, item_mentions, items_drawn,
    joined, lemma_drawn_entries, lemma_object_parts, name_index, nested_external, nested_mentions,
    object_drawn, round_mentions, rounds_drawn,
};
use crate::generate_laws::{
    lemma_index_below, lemma_keyword, lemma_known_read, lemma_member_formed, lemma_properties,
};
use crate::json::{key_index, lemma_get_decreases, lemma_key_index, view_get, Json, JsonView};
use crate::keywords::Keywords;
use crate::schema::{
    data_schema_from_value, properties_schema, property_schema, schema_name, DataSchema,
    SchemaErrorView, SchemaView, KEY_FOR_KEYLESS_SCHEMAS,
};
use crate::schema_laws::{lemma_read_list_canonical, names_distinct, well_formed};

verus! {

/// A text that comes from outside: a column is given for it, and neither a constant nor a pattern.
pub open spec fn outside(v: JsonView) -> bool {
    &&& view_get(v, "type"@) == Some(JsonView::String("string"@))
    &&& view_get(v, "constant"@) is None
    &&& view_get(v, "pattern"@) is None
    &&& view_get(v, "dataFile"@) is Some
}

/// A path leads to a text from outside, from the property `key` on: it is the name of the text, or
/// the name of an object, a dot and a path inside the object.
pub open spec fn leads_from(key: Seq<char>, v: JsonView, path: Seq<char>) -> bool
    decreases v,
{
    ||| outside(v) && path == key
    ||| view_get(v, "type"@) == Some(JsonView::String("object"@)) && match view_get(
        v,
        "properties"@,
    ) {
        Some(JsonView::Object(inner)) => {
            proof {
                lemma_get_decreases(v, "properties"@);
            }
            &&& path.len() > key.len()
            &&& path.take(key.len() as int + 1) == key + seq!['.']
            &&& leads(inner, path.skip(key.len() as int + 1))
        },
        _ => false,
    }
}

/// A path leads to a text from outside, from one of the properties of an object on.
pub open spec fn leads(e: Seq<(Seq<char>, JsonView)>, path: Seq<char>) -> bool
    decreases e,
{
    exists|i: int| 0 <= i < e.len() && leads_from((#[trigger] e[i]).0, e[i].1, path)
}

/// What was mentioned in parts was mentioned in one of them.
proof fn lemma_joined(parts: Seq<Seq<Mention>>, m: int) -> (at: (int, int))
    requires
        0 <= m < joined(parts).len(),
    ensures
        0 <= at.0 < parts.len(),
        0 <= at.1 < parts[at.0].len(),
        parts[at.0][at.1] == joined(parts)[m],
    decreases parts.len(),
{
    let before = joined(parts.drop_last());
    if m < before.len() {
        let at = lemma_joined(parts.drop_last(), m);
        assert(parts.drop_last()[at.0] == parts[at.0]);
        at
    } else {
        (parts.len() - 1, m - before.len())
    }
}

/// What was mentioned in one of the parts was mentioned.
proof fn lemma_joined_all(parts: Seq<Seq<Mention>>, i: int, k: int) -> (m: int)
    requires
        0 <= i < parts.len(),
        0 <= k < parts[i].len(),
    ensures
        0 <= m < joined(parts).len(),
        joined(parts)[m] == parts[i][k],
    decreases parts.len(),
{
    let front = parts.drop_last();
    if i < front.len() {
        assert(front[i] == parts[i]);
        lemma_joined_all(front, i, k)
    } else {
        joined(front).len() + k
    }
}

/// The property that a schema was read from.
proof fn lemma_property_of(e: Seq<(Seq<char>, JsonView)>, list: Seq<SchemaView>, m: int) -> (j: int)
    requires
        properties_schema(e) == Ok::<Seq<SchemaView>, SchemaErrorView>(list),
        0 <= m < list.len(),
    ensures
        0 <= j < e.len(),
        property_schema(e[j].0, e[j].1) == Ok::<Option<SchemaView>, SchemaErrorView>(
            Some(list[m]),
        ),
{
    lemma_properties(e, list);
    choose|j: int|
        0 <= j < e.len() && property_schema((#[trigger] e[j]).0, e[j].1) == Ok::<
            Option<SchemaView>,
            SchemaErrorView,
        >(Some(list[m]))
}

/// The schema of a property that leads somewhere.
proof fn lemma_schema_of(
    e: Seq<(Seq<char>, JsonView)>,
    list: Seq<SchemaView>,
    j: int,
    path: Seq<char>,
) -> (i: int)
    requires
        properties_schema(e) == Ok::<Seq<SchemaView>, SchemaErrorView>(list),
        0 <= j < e.len(),
        leads_from(e[j].0, e[j].1, path),
    ensures
        0 <= i < list.len(),
        property_schema(e[j].0, e[j].1) == Ok::<Option<SchemaView>, SchemaErrorView>(
            Some(list[i]),
        ),
{
    lemma_properties(e, list);
    assert(property_schema(e[j].0, e[j].1) is Ok);
    lemma_leading_known(e[j].0, e[j].1, path);
    let s = property_schema(e[j].0, e[j].1)->Ok_0->0;
    assert(list.contains(s));
    choose|i: int| 0 <= i < list.len() && list[i] == s
}

proof fn lemma_outside(key: Seq<char>, v: JsonView, s: SchemaView)
    requires
        property_schema(key, v) == Ok::<Option<SchemaView>, SchemaErrorView>(Some(s)),
    ensures
        s matches SchemaView::String(k, c) ==> k == key && (crate::generate::is_external(c)
            <==> outside(v)),
        !(s is String) ==> !outside(v),
        s is Object ==> {
            &&& s->Object_0 == Some(key)
            &&& view_get(v, "type"@) == Some(JsonView::String("object"@))
            &&& view_get(v, "properties"@) is Some && view_get(v, "properties"@)->0 is Object
            &&& properties_schema(view_get(v, "properties"@)->0->Object_0) == Ok::<
                Seq<SchemaView>,
                SchemaErrorView,
            >(s->Object_1)
        },
        s is Array ==> s->Array_0 == Some(key),
        !(s is Object) ==> !(view_get(v, "type"@) == Some(JsonView::String("object"@)) && (view_get(
            v,
            "properties"@,
        ) matches Some(JsonView::Object(_)))),
{
    reveal_strlit("object");
    reveal_strlit("string");
    reveal_strlit("integer");
    reveal_strlit("array");
    assert("object"@.len() == 6 && "string"@.len() == 6 && "object"@[0] != "string"@[0]);
    assert("integer"@.len() == 7 && "array"@.len() == 5);
    if let SchemaView::String(k, c) = s {
        lemma_keyword(v, Keywords::Constant);
        lemma_keyword(v, Keywords::Pattern);
        lemma_keyword(v, Keywords::DataFile);
    }
}

proof fn lemma_dotted(key: Seq<char>, path: Seq<char>, rest: Seq<char>)
    requires
        path == key + "."@ + rest,
    ensures
        path.len() > key.len(),
        path.take(key.len() as int + 1) == key + seq!['.'],
        path.skip(key.len() as int + 1) == rest,
{
    reveal_strlit(".");
    assert(path.take(key.len() as int + 1) =~= key + seq!['.']);
    assert(path.skip(key.len() as int + 1) =~= rest);
}

/// What is listed was mentioned.
proof fn lemma_mentioned(mentions: Seq<Mention>, list: Seq<ExternalView>, r: int) -> (m: int)
    requires
        tally(mentions, list),
        0 <= r < list.len(),
        list[r] is Object,
    ensures
        0 <= m < mentions.len(),
        mentions[m].0 is Object,
        mentions[m].0->path == list[r]->path,
{
    let m = first_mention(mentions, list[r]);
    assert(list[r] == crate::external_data::with_count(
        mentions[m].0,
        crate::external_data::rows(mentions, list[r]),
    ));
    m
}

/// What the properties of an object mention inside it are what is referred to there.
proof fn lemma_nested(key: Seq<char>, inner: Option<Seq<ExternalView>>, m: int)
    requires
        0 <= m < nested_mentions(key, inner).len(),
        nested_mentions(key, inner)[m].0 is Object,
    ensures
        inner is Some,
        0 <= m < inner->0.len(),
        inner->0[m] is Object,
        nested_mentions(key, inner)[m].0->path == key + "."@ + inner->0[m]->path,
{
    assert(nested_mentions(key, inner)[m].0 == nested_external(key, inner->0[m]));
}

/// A place that a property refers to is left to the outside source: the property itself, or a
/// place inside the object that it is.
#[verifier::rlimit(40)]
proof fn lemma_place_leads(
    key: Seq<char>,
    v: JsonView,
    s: SchemaView,
    object: Seq<(Seq<char>, JsonView)>,
    inner: Option<Seq<ExternalView>>,
    k: int,
    path: Seq<char>,
)
    requires
        property_schema(key, v) == Ok::<Option<SchemaView>, SchemaErrorView>(Some(s)),
        refers(s, object, inner, k, path),
    ensures
        leads_from(key, v, path),
    decreases v,
{
    lemma_outside(key, v, s);
    if s is Object {
        let e = view_get(v, "properties"@)->0->Object_0;
        lemma_get_decreases(v, "properties"@);
        lemma_list_leads(e, s->Object_1, object, inner, k);
        lemma_dotted(key, path, inner->0[k]->path);
    }
}

/// A property refers to a place: it is a text from outside of this name, or an object whose
/// reference `k` is to the place inside it.
spec fn refers(
    s: SchemaView,
    object: Seq<(Seq<char>, JsonView)>,
    inner: Option<Seq<ExternalView>>,
    k: int,
    path: Seq<char>,
) -> bool {
    match s {
        SchemaView::String(name, c) => crate::generate::is_external(c) && path == name,
        SchemaView::Object(Some(name), list) => {
            &&& object_drawn(list, object, inner)
            &&& inner is Some
            &&& 0 <= k < inner->0.len()
            &&& inner->0[k] is Object
            &&& path == name + "."@ + inner->0[k]->path
        },
        _ => false,
    }
}

/// What an object mentions is what is referred to inside it.
proof fn lemma_inner(s: SchemaView, value: JsonView, mentions: Seq<Mention>) -> (inner: Option<
    Seq<ExternalView>,
>)
    requires
        drawn(s, value, mentions),
        s is Object,
    ensures
        object_drawn(s->Object_1, value->Object_0, inner),
        mentions == nested_mentions(s->Object_0->0, inner),
{
    choose|inner: Option<Seq<ExternalView>>|
        object_drawn(s->Object_1, value->Object_0, inner) && mentions == #[trigger] nested_mentions(
            s->Object_0->0,
            inner,
        )
}

/// A reference from an object is one of a property of its.
proof fn lemma_by_property(
    list: Seq<SchemaView>,
    members: Seq<(Seq<char>, JsonView)>,
    external: Seq<ExternalView>,
    r: int,
) -> (at: (int, Seq<(Seq<char>, JsonView)>, Option<Seq<ExternalView>>, int))
    requires
        object_drawn(list, members, Some(external)),
        0 <= r < external.len(),
        external[r] is Object,
        forall|i: int|
            #![trigger list[i]]
            0 <= i < list.len() ==> (list[i] is Object ==> list[i]->Object_0 is Some) && (
            list[i] is Array ==> list[i]->Array_0 is Some),
    ensures
        0 <= at.0 < list.len(),
        refers(list[at.0], at.1, at.2, at.3, external[r]->path),
{
    let (values, parts, i, k) = lemma_mentioned_by(list, members, external, r);
    let found = lemma_part_refers(list, values, parts, i, k);
    (i, found.0, found.1, found.2)
}

/// A reference from an object was mentioned by one of its properties.
#[verifier::rlimit(40)]
proof fn lemma_mentioned_by(
    list: Seq<SchemaView>,
    members: Seq<(Seq<char>, JsonView)>,
    external: Seq<ExternalView>,
    r: int,
) -> (at: (Seq<JsonView>, Seq<Seq<Mention>>, int, int))
    requires
        object_drawn(list, members, Some(external)),
        0 <= r < external.len(),
        external[r] is Object,
    ensures
        all_drawn(list, at.0, at.1),
        0 <= at.2 < list.len(),
        0 <= at.3 < at.1[at.2].len(),
        at.1[at.2][at.3].0 is Object,
        at.1[at.2][at.3].0->path == external[r]->path,
{
    let (values, parts) = lemma_object_parts(list, members, Some(external));
    let m = lemma_mentioned(joined(parts), external, r);
    let at = lemma_joined(parts, m);
    (values, parts, at.0, at.1)
}

/// What a property mentions is what it refers to.
proof fn lemma_part_refers(
    list: Seq<SchemaView>,
    values: Seq<JsonView>,
    parts: Seq<Seq<Mention>>,
    i: int,
    m: int,
) -> (at: (Seq<(Seq<char>, JsonView)>, Option<Seq<ExternalView>>, int))
    requires
        all_drawn(list, values, parts),
        0 <= i < list.len(),
        0 <= m < parts[i].len(),
        parts[i][m].0 is Object,
        list[i] is Object ==> list[i]->Object_0 is Some,
        list[i] is Array ==> list[i]->Array_0 is Some,
    ensures
        refers(list[i], at.0, at.1, at.2, parts[i][m].0->path),
{
    assert(drawn(list[i], values[i], parts[i]));
    lemma_drawn_refers(list[i], values[i], parts[i], m)
}

proof fn lemma_drawn_refers(s: SchemaView, value: JsonView, part: Seq<Mention>, m: int) -> (at: (
    Seq<(Seq<char>, JsonView)>,
    Option<Seq<ExternalView>>,
    int,
))
    requires
        drawn(s, value, part),
        0 <= m < part.len(),
        part[m].0 is Object,
        s is Object ==> s->Object_0 is Some,
        s is Array ==> s->Array_0 is Some,
    ensures
        refers(s, at.0, at.1, at.2, part[m].0->path),
{
    if s is Object {
        let inner = lemma_inner(s, value, part);
        lemma_nested(s->Object_0->0, inner, m);
        (value->Object_0, inner, m)
    } else {
        lemma_flat_mention(s, value, part, m);
        (Seq::empty(), None, 0)
    }
}

/// References from the properties of an object are places that they leave to the outside source.
#[verifier::rlimit(40)]
proof fn lemma_list_leads(
    e: Seq<(Seq<char>, JsonView)>,
    list: Seq<SchemaView>,
    members: Seq<(Seq<char>, JsonView)>,
    external: Option<Seq<ExternalView>>,
    r: int,
)
    requires
        properties_schema(e) == Ok::<Seq<SchemaView>, SchemaErrorView>(list),
        object_drawn(list, members, external),
        external is Some,
        0 <= r < external->0.len(),
        external->0[r] is Object,
    ensures
        leads(e, external->0[r]->path),
    decreases e,
{
    assert forall|i: int|
        #![trigger list[i]]
        0 <= i < list.len() implies (list[i] is Object ==> list[i]->Object_0 is Some) && (
    list[i] is Array ==> list[i]->Array_0 is Some) by {
        let j = lemma_property_of(e, list, i);
        lemma_outside(e[j].0, e[j].1, list[i]);
    }
    let at = lemma_by_property(list, members, external->0, r);
    let j = lemma_property_of(e, list, at.0);
    assert(decreases_to!(e => e[j]));
    lemma_place_leads(e[j].0, e[j].1, list[at.0], at.1, at.2, at.3, external->0[r]->path);
}

/// Every place that a property leaves to the outside source is mentioned.
#[verifier::rlimit(40)]
proof fn lemma_leads_mention(
    key: Seq<char>,
    v: JsonView,
    s: SchemaView,
    value: JsonView,
    mentions: Seq<Mention>,
    path: Seq<char>,
) -> (m: int)
    requires
        property_schema(key, v) == Ok::<Option<SchemaView>, SchemaErrorView>(Some(s)),
        drawn(s, value, mentions),
        leads_from(key, v, path),
    ensures
        0 <= m < mentions.len(),
        mentions[m].0 is Object,
        mentions[m].0->path == path,
    decreases v,
{
    lemma_outside(key, v, s);
    if let SchemaView::Object(k, list) = s {
        let inner = lemma_inner(s, value, mentions);
        let e = view_get(v, "properties"@)->0->Object_0;
        lemma_get_decreases(v, "properties"@);
        let rest = path.skip(key.len() as int + 1);
        let r = lemma_leads_list(e, list, value->Object_0, inner, rest);
        assert(mentions[r].0 == nested_external(key, inner->0[r]));
        reveal_strlit(".");
        assert(key + "."@ + rest =~= path) by {
            assert("."@ =~= seq!['.']);
            assert(path =~= path.take(key.len() as int + 1) + rest);
        }
        r
    } else {
        assert(s is String);
        0
    }
}

/// Every place that the properties of an object leave to the outside source is referred to.
#[verifier::rlimit(40)]
proof fn lemma_leads_list(
    e: Seq<(Seq<char>, JsonView)>,
    list: Seq<SchemaView>,
    members: Seq<(Seq<char>, JsonView)>,
    external: Option<Seq<ExternalView>>,
    path: Seq<char>,
) -> (r: int)
    requires
        properties_schema(e) == Ok::<Seq<SchemaView>, SchemaErrorView>(list),
        object_drawn(list, members, external),
        leads(e, path),
    ensures
        external is Some,
        0 <= r < external->0.len(),
        external->0[r] is Object,
        external->0[r]->path == path,
    decreases e,
{
    let (values, parts) = choose|values: Seq<JsonView>, parts: Seq<Seq<Mention>>|
        {
            &&& all_drawn(list, values, parts)
            &&& members == #[trigger] drawn_entries(list, values)
            &&& crate::external_data::tally_option(#[trigger] joined(parts), external)
        };
    let j = choose|j: int| 0 <= j < e.len() && leads_from((#[trigger] e[j]).0, e[j].1, path);
    let i = lemma_schema_of(e, list, j, path);
    let s = list[i];
    assert(drawn(list[i], values[i], parts[i]));
    assert(decreases_to!(e => e[j]));
    let k = lemma_leads_mention(e[j].0, e[j].1, s, values[i], parts[i], path);
    let m = lemma_joined_all(parts, i, k);
    let mentions = joined(parts);
    assert(external is Some && tally(mentions, external->0));
    let r = choose|r: int|
        0 <= r < external->0.len() && same_external(mentions[m].0, #[trigger] external->0[r]);
    reveal(same_external);
    r
}

/// A property that leads somewhere is of a type that is known.
proof fn lemma_leading_known(key: Seq<char>, v: JsonView, path: Seq<char>)
    requires
        leads_from(key, v, path),
        property_schema(key, v) is Ok,
    ensures
        property_schema(key, v)->Ok_0 is Some,
{
    reveal_strlit("object");
    reveal_strlit("string");
    assert("object"@.len() == 6 && "string"@.len() == 6 && "object"@[0] != "string"@[0]);
}

/// Whatever schema document is read, the data that is drawn for it refers to the outside source
/// for every text that the document leaves to it, under the path that leads to the text, and for
/// nothing else.
pub proof fn lemma_references(
    document: Json,
    properties: Seq<(Seq<char>, JsonView)>,
    schema: DataSchema,
    r: (Json, Option<Vec<ExternalData>>),
    path: Seq<char>,
)
    requires
        view_get(document@, "properties"@) == Some(JsonView::Object(properties)),
        call_ensures(data_schema_from_value, (&document,), Ok(schema)),
        call_ensures(generate_data, (&schema,), r),
    ensures
        leads(properties, path) <==> (r.1 is Some && exists|i: int|
            0 <= i < r.1->0@.len() && ((#[trigger] r.1->0@[i]) matches ExternalData::Object {
                path: p,
                count: _,
            } && p@ == path)),
{
    let list = properties_schema(properties)->Ok_0;
    let external = external_option_view(r.1);
    if leads(properties, path) {
        let i = lemma_leads_list(properties, list, r.0@->Object_0, external, path);
        assert(externals_view(r.1->0@)[i] == r.1->0@[i]@);
        assert(r.1->0@[i] is Object);
    }
    if r.1 is Some && exists|i: int|
        0 <= i < r.1->0@.len() && ((#[trigger] r.1->0@[i]) matches ExternalData::Object {
            path: p,
            count: _,
        } && p@ == path) {
        let i = choose|i: int|
            0 <= i < r.1->0@.len() && ((#[trigger] r.1->0@[i]) matches ExternalData::Object {
                path: p,
                count: _,
            } && p@ == path);
        assert(externals_view(r.1->0@)[i] == r.1->0@[i]@);
        lemma_list_leads(properties, list, r.0@->Object_0, external, i);
    }
}

// ---------------------------------------------------------------------------------------------
// Counts
// ---------------------------------------------------------------------------------------------

/// A reference to one place.
pub open spec fn one_place(path: Seq<char>, count: nat) -> ExternalView {
    ExternalView::Object { path, count }
}

proof fn lemma_rows_alike(mentions: Seq<Mention>, path: Seq<char>, count: nat)
    requires
        forall|m: int|
            0 <= m < mentions.len() ==> #[trigger] mentions[m] == (one_place(path, 1), 1nat),
    ensures
        rows(mentions, one_place(path, count)) == mentions.len(),
    decreases mentions.len(),
{
    reveal(same_external);
    if mentions.len() > 0 {
        assert(mentions.last() == mentions[mentions.len() - 1]);
        lemma_rows_alike(mentions.drop_last(), path, count);
    }
}

/// Where one place is mentioned over and over, it is listed once, with as many rows.
proof fn lemma_listed_once(mentions: Seq<Mention>, list: Seq<ExternalView>, path: Seq<char>)
    requires
        tally(mentions, list),
        mentions.len() > 0,
        forall|m: int|
            0 <= m < mentions.len() ==> #[trigger] mentions[m] == (one_place(path, 1), 1nat),
    ensures
        list =~= seq![one_place(path, mentions.len())],
{
    assert forall|i: int| 0 <= i < list.len() implies #[trigger] list[i] == one_place(
        path,
        mentions.len(),
    ) by {
        let m = first_mention(mentions, list[i]);
        assert(mentions[m] == (one_place(path, 1), 1nat));
        let n = rows(mentions, list[i]);
        assert(list[i] == one_place(path, n));
        lemma_rows_alike(mentions, path, n);
    }
    reveal(same_external);
    assert(mentions[0].0 == one_place(path, 1));
    let i = choose|i: int|
        0 <= i < list.len() && same_external(mentions[0].0, #[trigger] list[i]);
    if list.len() > 1 {
        assert(same_external(list[0], list[1]));
    }
}

/// An item of an array whose items come from outside mentions one place, once.
proof fn lemma_item_mentions(
    c: Map<Keywords, crate::keywords::ConstraintView>,
    object: Seq<(Seq<char>, JsonView)>,
    round: Option<Seq<ExternalView>>,
)
    requires
        crate::generate::is_external(c),
        object_drawn(
            seq![SchemaView::String(KEY_FOR_KEYLESS_SCHEMAS@, c)],
            object,
            round,
        ),
    ensures
        item_mentions(round) == seq![(one_place(KEY_FOR_KEYLESS_SCHEMAS@, 1), 1nat)],
{
    let s = SchemaView::String(KEY_FOR_KEYLESS_SCHEMAS@, c);
    let (values, parts) = lemma_object_parts(seq![s], object, round);
    assert(drawn(seq![s][0], values[0], parts[0]));
    let one = (one_place(KEY_FOR_KEYLESS_SCHEMAS@, 1), 1nat);
    assert(parts[0] =~= seq![one]);
    assert(parts.drop_last() =~= Seq::empty());
    assert(joined(parts.drop_last()) =~= Seq::empty());
    let mentions = joined(parts);
    assert(mentions =~= seq![one]);
    assert forall|m: int| 0 <= m < mentions.len() implies #[trigger] mentions[m] == one by {}
    lemma_listed_once(mentions, round->0, KEY_FOR_KEYLESS_SCHEMAS@);
    assert(item_mentions(round) =~= seq![one]);
}

proof fn lemma_joined_ones(parts: Seq<Seq<Mention>>, one: Mention)
    requires
        forall|i: int| 0 <= i < parts.len() ==> #[trigger] parts[i] == seq![one],
    ensures
        joined(parts).len() == parts.len(),
        forall|m: int| 0 <= m < parts.len() ==> #[trigger] joined(parts)[m] == one,
    decreases parts.len(),
{
    if parts.len() > 0 {
        let front = parts.drop_last();
        assert forall|i: int| 0 <= i < front.len() implies #[trigger] front[i] == seq![one] by {
            assert(front[i] == parts[i]);
        }
        lemma_joined_ones(front, one);
        assert(parts.last() == parts[parts.len() - 1]);
    }
}

/// The items of an array that come from outside are counted, all of them.
#[verifier::rlimit(40)]
proof fn lemma_items_counted(
    c: Map<Keywords, crate::keywords::ConstraintView>,
    items: Seq<JsonView>,
    inner: Option<Seq<ExternalView>>,
)
    requires
        crate::generate::is_external(c),
        items.len() > 0,
        items_drawn(seq![SchemaView::String(KEY_FOR_KEYLESS_SCHEMAS@, c)], items, inner),
    ensures
        inner == Some(seq![one_place(KEY_FOR_KEYLESS_SCHEMAS@, items.len())]),
{
    let list = seq![SchemaView::String(KEY_FOR_KEYLESS_SCHEMAS@, c)];
    let (objects, rounds) = choose|
        objects: Seq<Seq<(Seq<char>, JsonView)>>,
        rounds: Seq<Option<Seq<ExternalView>>>,
    |
        {
            &&& rounds_drawn(list, items, objects, rounds)
            &&& #[trigger] objects.len() == items.len()
            &&& crate::external_data::tally_option(#[trigger] round_mentions(rounds), inner)
        };
    let parts = rounds.map_values(|r| item_mentions(r));
    let one = (one_place(KEY_FOR_KEYLESS_SCHEMAS@, 1), 1nat);
    assert forall|i: int| 0 <= i < parts.len() implies #[trigger] parts[i] == seq![one] by {
        assert(object_drawn(list, objects[i], rounds[i]));
        lemma_item_mentions(c, objects[i], rounds[i]);
    }
    lemma_joined_ones(parts, one);
    let mentions = round_mentions(rounds);
    assert(mentions == joined(parts));
    assert forall|m: int| 0 <= m < mentions.len() implies #[trigger] mentions[m] == one by {}
    lemma_listed_once(mentions, inner->0, KEY_FOR_KEYLESS_SCHEMAS@);
    assert(inner->0 =~= seq![one_place(KEY_FOR_KEYLESS_SCHEMAS@, items.len())]);
}

/// No property of an object is an object.
pub open spec fn flat(e: Seq<(Seq<char>, JsonView)>) -> bool {
    forall|i: int|
        0 <= i < e.len() ==> view_get((#[trigger] e[i]).1, "type"@) != Some(
            JsonView::String("object"@),
        )
}

/// What a property that is no object mentions is a text or an array of its name.
proof fn lemma_flat_mention(s: SchemaView, value: JsonView, mentions: Seq<Mention>, m: int)
    requires
        drawn(s, value, mentions),
        !(s is Object),
        0 <= m < mentions.len(),
        s is Array ==> s->Array_0 is Some,
    ensures
        mentions.len() == 1,
        s is String ==> mentions[m] == (one_place(s->String_0, 1), 1nat)
            && crate::generate::is_external(s->String_1),
        s is Array ==> mentions[m].0 is Array && mentions[m].0->Array_0 == s->Array_0->0 + "[*]"@,
        s is String || s is Array,
{
    if let SchemaView::Array(k, list, c) = s {
        let inner = choose|inner: Option<Seq<ExternalView>>|
            items_drawn(list, value->Array_0, inner) && mentions == #[trigger] array_mentions(
                k->0,
                inner,
            );
        assert(mentions[m].0 is Array);
    }
}

/// An array of texts from outside is referred to by its name and a mark for its items, with as many
/// rows as it has items; where no object stands beside it.
#[verifier::rlimit(40)]
pub proof fn lemma_items_referred(
    document: Json,
    properties: Seq<(Seq<char>, JsonView)>,
    j: int,
    schema: DataSchema,
    r: (Json, Option<Vec<ExternalData>>),
)
    requires
        well_formed(document@),
        view_get(document@, "properties"@) == Some(JsonView::Object(properties)),
        flat(properties),
        0 <= j < properties.len(),
        view_get(properties[j].1, "type"@) == Some(JsonView::String("array"@)),
        view_get(properties[j].1, "items"@) matches Some(item) && outside(item),
        call_ensures(data_schema_from_value, (&document,), Ok(schema)),
        call_ensures(generate_data, (&schema,), r),
    ensures
        exists|i: int|
            {
                &&& 0 <= i < r.0@->Object_0.len()
                &&& (#[trigger] r.0@->Object_0[i]).0 == properties[j].0
                &&& r.0@->Object_0[i].1 is Array
                &&& r.0@->Object_0[i].1->Array_0.len() > 0 ==> r.1 is Some && externals_view(
                    r.1->0@,
                ).contains(
                    ExternalView::Array(
                        properties[j].0 + "[*]"@,
                        seq![one_place("__"@, r.0@->Object_0[i].1->Array_0.len())],
                    ),
                )
            },
{
    let list = properties_schema(properties)->Ok_0;
    let external = external_option_view(r.1);
    let members = r.0@->Object_0;
    let key = properties[j].0;
    let v = properties[j].1;
    lemma_member_formed(document@, "properties"@);
    lemma_read_list_canonical(properties);
    let at = lemma_array_at(properties, list, j);
    let (values, parts) = lemma_object_parts(list, members, external);
    lemma_drawn_entries(list, values, key);
    lemma_index_below(list, key);
    assert(name_index(list, key) == at) by {
        let found = name_index(list, key);
        if found < at {
            assert(schema_name(list[at]) != Some(key));
        } else if at < found {
            assert(schema_name(list[at]) != schema_name(list[found]));
        }
    }
    lemma_key_index(members, key);
    let i = key_index(members, key);
    assert(members[i].0 == key && members[i].1 == values[at]);
    assert(drawn(list[at], values[at], parts[at]));
    let c = list[at]->Array_1[0]->String_1;
    let items = values[at]->Array_0;
    if items.len() > 0 {
        let inner = choose|inner: Option<Seq<ExternalView>>|
            items_drawn(list[at]->Array_1, items, inner) && parts[at]
                == #[trigger] array_mentions(key, inner);
        lemma_items_counted(c, items, inner);
        let wanted = ExternalView::Array(
            key + "[*]"@,
            seq![one_place("__"@, items.len())],
        );
        assert(parts[at] =~= seq![(wanted, 1nat)]);
        lemma_flat_parts(properties, list, values, parts);
        lemma_only_part(list, parts, external, at, wanted);
    }
}

/// The schema of an array of texts from outside.
proof fn lemma_array_at(e: Seq<(Seq<char>, JsonView)>, list: Seq<SchemaView>, j: int) -> (at: int)
    requires
        properties_schema(e) == Ok::<Seq<SchemaView>, SchemaErrorView>(list),
        0 <= j < e.len(),
        view_get(e[j].1, "type"@) == Some(JsonView::String("array"@)),
        view_get(e[j].1, "items"@) matches Some(item) && outside(item),
    ensures
        0 <= at < list.len(),
        list[at] is Array,
        list[at]->Array_0 == Some(e[j].0),
        list[at]->Array_1 == seq![
            SchemaView::String(KEY_FOR_KEYLESS_SCHEMAS@, list[at]->Array_1[0]->String_1),
        ],
        crate::generate::is_external(list[at]->Array_1[0]->String_1),
{
    lemma_properties(e, list);
    let v = e[j].1;
    assert(property_schema(e[j].0, v) is Ok);
    lemma_known_read(e[j].0, v);
    let s = property_schema(e[j].0, v)->Ok_0->0;
    assert(list.contains(s));
    let at = choose|at: int| 0 <= at < list.len() && list[at] == s;
    reveal_strlit("object");
    reveal_strlit("string");
    reveal_strlit("integer");
    reveal_strlit("array");
    assert("object"@.len() == 6 && "string"@.len() == 6 && "object"@[0] != "string"@[0]);
    assert("integer"@.len() == 7 && "array"@.len() == 5);
    let item = view_get(v, "items"@)->0;
    let inner = property_schema(KEY_FOR_KEYLESS_SCHEMAS@, item)->Ok_0->0;
    lemma_outside(KEY_FOR_KEYLESS_SCHEMAS@, item, inner);
    assert(s->Array_1 =~= seq![inner]);
    at
}

/// A property that is no object mentions at most one thing, under its name.
spec fn flat_part(s: SchemaView, part: Seq<Mention>) -> bool {
    part.len() > 0 ==> {
        &&& part.len() == 1
        &&& s is String || s is Array
        &&& s is String ==> part[0].0 is Object
        &&& s is Array ==> s->Array_0 is Some && part[0].0 is Array && part[0].0->Array_0
            == s->Array_0->0 + "[*]"@
    }
}

/// What only one property mentions is listed as that property mentions it.
#[verifier::rlimit(40)]
proof fn lemma_only_part(
    list: Seq<SchemaView>,
    parts: Seq<Seq<Mention>>,
    external: Option<Seq<ExternalView>>,
    at: int,
    wanted: ExternalView,
)
    requires
        parts.len() == list.len(),
        forall|i: int| 0 <= i < list.len() ==> flat_part(list[i], #[trigger] parts[i]),
        names_distinct(list),
        crate::external_data::tally_option(joined(parts), external),
        0 <= at < list.len(),
        list[at] is Array,
        wanted is Array,
        parts[at] == seq![(wanted, 1nat)],
    ensures
        external is Some,
        external->0.contains(wanted),
{
    let m = lemma_joined_all(parts, at, 0);
    let (i, first) = lemma_listed_as(joined(parts), external->0, m);
    let from = lemma_joined(parts, first);
    assert(flat_part(list[from.0], parts[from.0]));
    assert(flat_part(list[at], parts[at]));
    assert(from.1 == 0);
    let a = list[from.0]->Array_0->0;
    let b = list[at]->Array_0->0;
    lemma_same_start(a, b, "[*]"@);
    assert(schema_name(list[from.0]) == schema_name(list[at]));
    if from.0 < at {
        assert(schema_name(list[from.0]) != schema_name(list[at]));
    } else if at < from.0 {
        assert(schema_name(list[at]) != schema_name(list[from.0]));
    }
    assert(parts[from.0][from.1] == (wanted, 1nat));
    assert(external->0[i] == wanted);
}

proof fn lemma_same_start(a: Seq<char>, b: Seq<char>, end: Seq<char>)
    requires
        a + end == b + end,
    ensures
        a == b,
{
    assert((a + end).len() == (b + end).len());
    assert((a + end).take(a.len() as int) =~= a);
    assert((b + end).take(b.len() as int) =~= b);
}

proof fn lemma_flat_parts(
    e: Seq<(Seq<char>, JsonView)>,
    list: Seq<SchemaView>,
    values: Seq<JsonView>,
    parts: Seq<Seq<Mention>>,
)
    requires
        flat(e),
        properties_schema(e) == Ok::<Seq<SchemaView>, SchemaErrorView>(list),
        all_drawn(list, values, parts),
    ensures
        parts.len() == list.len(),
        forall|i: int| 0 <= i < list.len() ==> flat_part(list[i], #[trigger] parts[i]),
{
    assert forall|i: int| 0 <= i < list.len() implies flat_part(list[i], #[trigger] parts[i]) by {
        let p = lemma_property_of(e, list, i);
        lemma_no_object(e[p].0, e[p].1, list[i]);
        lemma_flat_part(list, values, parts, i);
    }
}

proof fn lemma_flat_part(
    list: Seq<SchemaView>,
    values: Seq<JsonView>,
    parts: Seq<Seq<Mention>>,
    i: int,
)
    requires
        all_drawn(list, values, parts),
        0 <= i < list.len(),
        !(list[i] is Object),
        list[i] is Array ==> list[i]->Array_0 is Some,
    ensures
        flat_part(list[i], parts[i]),
{
    assert(drawn(list[i], values[i], parts[i]));
    if parts[i].len() > 0 {
        lemma_flat_mention(list[i], values[i], parts[i], 0);
    }
}

/// An array that was mentioned is listed as one of its key was mentioned first.
proof fn lemma_listed_as(mentions: Seq<Mention>, list: Seq<ExternalView>, m: int) -> (at: (int, int))
    requires
        tally(mentions, list),
        0 <= m < mentions.len(),
        mentions[m].0 is Array,
    ensures
        0 <= at.0 < list.len(),
        0 <= at.1 < mentions.len(),
        list[at.0] == mentions[at.1].0,
        list[at.0] is Array,
        list[at.0]->Array_0 == mentions[m].0->Array_0,
{
    let i = choose|i: int| 0 <= i < list.len() && same_external(mentions[m].0, #[trigger] list[i]);
    reveal(same_external);
    let first = first_mention(mentions, list[i]);
    assert(list[i] == crate::external_data::with_count(
        mentions[first].0,
        rows(mentions, list[i]),
    ));
    (i, first)
}

proof fn lemma_no_object(key: Seq<char>, v: JsonView, s: SchemaView)
    requires
        property_schema(key, v) == Ok::<Option<SchemaView>, SchemaErrorView>(Some(s)),
        view_get(v, "type"@) != Some(JsonView::String("object"@)),
    ensures
        !(s is Object),
        s is Array ==> s->Array_0 is Some,
{
}

proof fn lemma_rows_added(a: Seq<Mention>, b: Seq<Mention>, e: ExternalView)
    ensures
        rows(a + b, e) == rows(a, e) + rows(b, e),
    decreases b.len(),
{
    if b.len() == 0 {
        assert(a + b =~= a);
    } else {
        lemma_rows_added(a, b.drop_last(), e);
        assert((a + b).drop_last() =~= a + b.drop_last());
        assert((a + b).last() == b.last());
    }
}

/// What one part alone mentions has the rows of that part.
proof fn lemma_rows_of_part(parts: Seq<Seq<Mention>>, e: ExternalView, at: int)
    requires
        forall|i: int| 0 <= i < parts.len() && i != at ==> rows(#[trigger] parts[i], e) == 0,
    ensures
        rows(joined(parts), e) == if 0 <= at < parts.len() {
            rows(parts[at], e)
        } else {
            0
        },
    decreases parts.len(),
{
    if parts.len() > 0 {
        let front = parts.drop_last();
        assert forall|i: int| 0 <= i < front.len() && i != at implies rows(#[trigger] front[i], e)
            == 0 by {
            assert(front[i] == parts[i]);
        }
        lemma_rows_of_part(front, e, at);
        lemma_rows_added(joined(front), parts.last(), e);
        assert(parts.last() == parts[parts.len() - 1]);
    }
}

/// A part of a property that is no object has no rows for a text of another name.
proof fn lemma_part_rows(part: Seq<Mention>, path: Seq<char>, n: nat)
    requires
        part.len() <= 1,
        part.len() == 1 ==> part[0].0 is Array || part[0].0->path != path,
    ensures
        rows(part, one_place(path, n)) == 0,
{
    reveal(same_external);
    if part.len() == 1 {
        assert(part.last() == part[0]);
        assert(part.drop_last() =~= Seq::empty());
        assert(rows(part.drop_last(), one_place(path, n)) == 0);
    }
}

/// A text from outside is referred to by its name, with one row; where no object stands beside it.
#[verifier::rlimit(40)]
pub proof fn lemma_text_referred(
    document: Json,
    properties: Seq<(Seq<char>, JsonView)>,
    j: int,
    schema: DataSchema,
    r: (Json, Option<Vec<ExternalData>>),
)
    requires
        well_formed(document@),
        view_get(document@, "properties"@) == Some(JsonView::Object(properties)),
        flat(properties),
        0 <= j < properties.len(),
        outside(properties[j].1),
        call_ensures(data_schema_from_value, (&document,), Ok(schema)),
        call_ensures(generate_data, (&schema,), r),
    ensures
        r.1 is Some,
        externals_view(r.1->0@).contains(one_place(properties[j].0, 1)),
{
    let list = properties_schema(properties)->Ok_0;
    let external = external_option_view(r.1);
    let key = properties[j].0;
    lemma_member_formed(document@, "properties"@);
    lemma_read_list_canonical(properties);
    let at = lemma_schema_of(properties, list, j, key);
    lemma_outside(key, properties[j].1, list[at]);
    let (values, parts) = lemma_object_parts(list, r.0@->Object_0, external);
    lemma_flat_parts(properties, list, values, parts);
    lemma_named_parts(list, values, parts);
    lemma_text_part(list, values, parts, at);
    lemma_only_text(list, parts, external, at, key);
}

/// What a text mentions is its own name.
spec fn named_part(s: SchemaView, part: Seq<Mention>) -> bool {
    s is String && part.len() > 0 ==> part[0] == (one_place(s->String_0, 1), 1nat)
}

proof fn lemma_named_parts(
    list: Seq<SchemaView>,
    values: Seq<JsonView>,
    parts: Seq<Seq<Mention>>,
)
    requires
        all_drawn(list, values, parts),
    ensures
        forall|i: int| 0 <= i < list.len() ==> named_part(list[i], #[trigger] parts[i]),
{
    assert forall|i: int| 0 <= i < list.len() implies named_part(list[i], #[trigger] parts[i]) by {
        assert(drawn(list[i], values[i], parts[i]));
        if list[i] is String && parts[i].len() > 0 {
            lemma_flat_mention(list[i], values[i], parts[i], 0);
        }
    }
}

proof fn lemma_text_part(
    list: Seq<SchemaView>,
    values: Seq<JsonView>,
    parts: Seq<Seq<Mention>>,
    at: int,
)
    requires
        all_drawn(list, values, parts),
        0 <= at < list.len(),
        list[at] is String,
        crate::generate::is_external(list[at]->String_1),
    ensures
        parts[at] == seq![(one_place(list[at]->String_0, 1), 1nat)],
{
    assert(drawn(list[at], values[at], parts[at]));
}

#[verifier::rlimit(40)]
proof fn lemma_only_text(
    list: Seq<SchemaView>,
    parts: Seq<Seq<Mention>>,
    external: Option<Seq<ExternalView>>,
    at: int,
    key: Seq<char>,
)
    requires
        parts.len() == list.len(),
        forall|i: int| 0 <= i < list.len() ==> flat_part(list[i], #[trigger] parts[i]),
        forall|i: int| 0 <= i < list.len() ==> named_part(list[i], #[trigger] parts[i]),
        names_distinct(list),
        crate::external_data::tally_option(joined(parts), external),
        0 <= at < list.len(),
        schema_name(list[at]) == Some(key),
        parts[at] == seq![(one_place(key, 1), 1nat)],
    ensures
        external is Some,
        external->0.contains(one_place(key, 1)),
{
    assert forall|i: int, n: nat| 0 <= i < parts.len() && i != at implies rows(
        #[trigger] parts[i],
        #[trigger] one_place(key, n),
    ) == 0 by {
        assert(flat_part(list[i], parts[i]));
        assert(named_part(list[i], parts[i]));
        assert(schema_name(list[i]) != schema_name(list[at])) by {
            if i < at {
                assert(schema_name(list[i]) != schema_name(list[at]));
            } else {
                assert(schema_name(list[at]) != schema_name(list[i]));
            }
        }
        lemma_part_rows(parts[i], key, n);
    }
    let m = lemma_joined_all(parts, at, 0);
    let (i, n) = lemma_listed_text(joined(parts), external->0, m);
    lemma_rows_of_part(parts, one_place(key, n), at);
    let part = parts[at];
    assert forall|k: int| 0 <= k < part.len() implies #[trigger] part[k] == (
        one_place(key, 1),
        1nat,
    ) by {}
    lemma_rows_alike(part, key, n);
    assert(external->0[i] == one_place(key, 1));
}

/// A text that was mentioned is listed, with all its rows.
proof fn lemma_listed_text(mentions: Seq<Mention>, list: Seq<ExternalView>, m: int) -> (at: (int, nat))
    requires
        tally(mentions, list),
        0 <= m < mentions.len(),
        mentions[m].0 is Object,
    ensures
        0 <= at.0 < list.len(),
        list[at.0] == one_place(mentions[m].0->path, at.1),
        at.1 == rows(mentions, one_place(mentions[m].0->path, at.1)),
{
    let i = choose|i: int| 0 <= i < list.len() && same_external(mentions[m].0, #[trigger] list[i]);
    reveal(same_external);
    let first = first_mention(mentions, list[i]);
    let n = rows(mentions, list[i]);
    assert(list[i] == crate::external_data::with_count(mentions[first].0, n));
    (i, n)
}

/// Nothing in a part adds rows to a place.
spec fn adds_nothing(part: Seq<Mention>, path: Seq<char>) -> bool {
    forall|m: int|
        0 <= m < part.len() ==> (#[trigger] part[m]).1 == 0 || part[m].0 is Array || part[m].0->path
            != path
}

proof fn lemma_nothing_added(part: Seq<Mention>, path: Seq<char>, n: nat)
    requires
        adds_nothing(part, path),
    ensures
        rows(part, one_place(path, n)) == 0,
    decreases part.len(),
{
    reveal(same_external);
    if part.len() > 0 {
        let front = part.drop_last();
        assert forall|m: int| 0 <= m < front.len() implies (#[trigger] front[m]).1 == 0
            || front[m].0 is Array || front[m].0->path != path by {
            assert(front[m] == part[m]);
        }
        lemma_nothing_added(front, path, n);
        assert(part.last() == part[part.len() - 1]);
    }
}

proof fn lemma_drawn_adds(s: SchemaView, value: JsonView, part: Seq<Mention>, path: Seq<char>)
    requires
        drawn(s, value, part),
        s is Array ==> s->Array_0 is Some,
        s matches SchemaView::String(k, c) ==> !(crate::generate::is_external(c) && k == path),
    ensures
        adds_nothing(part, path),
{
    assert forall|m: int| 0 <= m < part.len() implies (#[trigger] part[m]).1 == 0
        || part[m].0 is Array || part[m].0->path != path by {
        if s is Object {
            let inner = lemma_inner(s, value, part);
            assert(part[m].1 == 0);
        } else {
            lemma_flat_mention(s, value, part, m);
        }
    }
}

proof fn lemma_parts_add(
    e: Seq<(Seq<char>, JsonView)>,
    list: Seq<SchemaView>,
    values: Seq<JsonView>,
    parts: Seq<Seq<Mention>>,
    path: Seq<char>,
)
    requires
        properties_schema(e) == Ok::<Seq<SchemaView>, SchemaErrorView>(list),
        all_drawn(list, values, parts),
        forall|i: int| 0 <= i < e.len() ==> !(outside((#[trigger] e[i]).1) && e[i].0 == path),
    ensures
        parts.len() == list.len(),
        forall|i: int| 0 <= i < parts.len() ==> adds_nothing(#[trigger] parts[i], path),
{
    assert forall|i: int| 0 <= i < parts.len() implies adds_nothing(#[trigger] parts[i], path) by {
        let p = lemma_property_of(e, list, i);
        assert(!(outside(e[p].1) && e[p].0 == path));
        lemma_outside(e[p].0, e[p].1, list[i]);
        assert(drawn(list[i], values[i], parts[i]));
        lemma_drawn_adds(list[i], values[i], parts[i], path);
    }
}

/// A place inside objects, that no text beside them has as its name, is referred to without rows of
/// its own.
pub proof fn lemma_inner_text_referred(
    document: Json,
    properties: Seq<(Seq<char>, JsonView)>,
    schema: DataSchema,
    r: (Json, Option<Vec<ExternalData>>),
    i: int,
    path: Seq<char>,
    count: usize,
)
    requires
        view_get(document@, "properties"@) == Some(JsonView::Object(properties)),
        call_ensures(data_schema_from_value, (&document,), Ok(schema)),
        call_ensures(generate_data, (&schema,), r),
        forall|k: int|
            0 <= k < properties.len() ==> !(outside((#[trigger] properties[k]).1)
                && properties[k].0 == path),
        r.1 is Some,
        0 <= i < r.1->0@.len(),
        r.1->0@[i]@ == one_place(path, count as nat),
    ensures
        count == 0,
{
    let list = properties_schema(properties)->Ok_0;
    let external = external_option_view(r.1);
    let (values, parts) = lemma_object_parts(list, r.0@->Object_0, external);
    lemma_parts_add(properties, list, values, parts, path);
    assert(external->0[i] == one_place(path, count as nat));
    lemma_count_is_rows(joined(parts), external->0, i);
    lemma_no_rows(parts, path, count as nat);
}

proof fn lemma_no_rows(parts: Seq<Seq<Mention>>, path: Seq<char>, n: nat)
    requires
        forall|i: int| 0 <= i < parts.len() ==> adds_nothing(#[trigger] parts[i], path),
    ensures
        rows(joined(parts), one_place(path, n)) == 0,
{
    assert forall|i: int| 0 <= i < parts.len() && i != -1 implies rows(
        #[trigger] parts[i],
        one_place(path, n),
    ) == 0 by {
        lemma_nothing_added(parts[i], path, n);
    }
    lemma_rows_of_part(parts, one_place(path, n), -1);
}

proof fn lemma_count_is_rows(mentions: Seq<Mention>, list: Seq<ExternalView>, i: int)
    requires
        tally(mentions, list),
        0 <= i < list.len(),
        list[i] is Object,
    ensures
        list[i]->count == rows(mentions, list[i]),
{
    let first = first_mention(mentions, list[i]);
    assert(list[i] == crate::external_data::with_count(
        mentions[first].0,
        rows(mentions, list[i]),
    ));
}

} // verus!
