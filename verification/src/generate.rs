//! Random data for a schema.

use vstd::prelude::*;

use crate::external_data::{
    external_option_view, externals_view, lemma_external_array_view,
    lemma_same_external_symmetric, lemma_same_external_transitive, rows, same_external,
    tally_option, ExternalData, ExternalTally, ExternalView, Mention,
};
use crate::json::{
    entries_view, find_entry, int_view, items_view, key_index, lemma_array_view, lemma_key_index,
    lemma_object_view, lemma_set_entry, lookup, put_entry, set_entry, unique_keys, view_get,
    view_i64, Json,
    JsonView,
};
use crate::keywords::{
    constraint_i64, constraint_of, constraint_value, ConstraintSet, ConstraintView, Constraints,
    Keywords,
};
use crate::pattern::{
    no_text_for, pattern_can_generate, pattern_generates, pattern_shape, pattern_text,
    random_string, PATTERN_MAX_REPEAT,
};
use crate::random::{is_letter, random_i64, random_letter};
use crate::schema::{
    lemma_array_schema_view, lemma_object_schema_view, name_view, schema_name, schema_view,
    schemas_view, DataSchema, SchemaView, KEY_FOR_KEYLESS_SCHEMAS,
};
use crate::schema::schema_of_value;
use crate::schema_laws::{
    canonical, canonical_constraints, canonical_list, items_known, lemma_read_list_canonical,
    well_formed,
};
use crate::text::{decimal, decimal_text, integer_value, join2, parse_i64, same_text};

verus! {

pub type ConstraintMap = Map<Keywords, ConstraintView>;

/// The number under a keyword, or a default.
pub open spec fn limit(c: ConstraintMap, k: Keywords, default: i64) -> i64 {
    if c.contains_key(k) && constraint_i64(c[k]) is Some {
        constraint_i64(c[k])->0
    } else {
        default
    }
}

/// Under `pattern` stands a pattern.
pub open spec fn has_pattern(c: ConstraintMap) -> bool {
    c.contains_key(Keywords::Pattern) && c[Keywords::Pattern] is Pattern
}

/// A string comes from the outside source: a column is given, and nothing that comes before it.
pub open spec fn is_external(c: ConstraintMap) -> bool {
    &&& !c.contains_key(Keywords::Constant)
    &&& !has_pattern(c)
    &&& c.contains_key(Keywords::DataFile)
    &&& c[Keywords::DataFile] is DataFile
}

/// A string can be drawn under the constraints.
pub open spec fn string_ready(c: ConstraintMap) -> bool {
    if c.contains_key(Keywords::Constant) {
        true
    } else if has_pattern(c) {
        pattern_generates(c[Keywords::Pattern]->Pattern_0)
    } else if is_external(c) {
        true
    } else {
        0 <= limit(c, Keywords::MinLength, 1) <= limit(c, Keywords::MaxLength, 20)
    }
}

/// What a string is drawn as: the constant; for a pattern a text that it describes, or a note where
/// it is malformed; the number of the column of the outside source; else letters.
pub open spec fn string_drawn(c: ConstraintMap, text: Seq<char>) -> bool {
    if c.contains_key(Keywords::Constant) {
        text == (match c[Keywords::Constant] {
            ConstraintView::ConstantStr(s) => s,
            _ => "Error: invalid constant constraint"@,
        })
    } else if has_pattern(c) {
        let pattern = c[Keywords::Pattern]->Pattern_0;
        &&& pattern_shape(pattern) is None ==> text == no_text_for(pattern)
        &&& pattern_text(pattern, PATTERN_MAX_REPEAT as int, text)
    } else if is_external(c) {
        text == decimal_text(c[Keywords::DataFile]->DataFile_0 as nat)
    } else {
        &&& limit(c, Keywords::MinLength, 1) <= text.len() <= limit(c, Keywords::MaxLength, 20)
        &&& forall|i: int| 0 <= i < text.len() ==> is_letter(#[trigger] text[i])
    }
}

/// Draws a string, and says whether it stands for data from the outside source.
fn generate_string_data(constraints: &ConstraintSet) -> (r: (String, bool))
    requires
        string_ready(constraints@),
    ensures
        string_drawn(constraints@, r.0@),
        r.1 == is_external(constraints@),
{
    if let Some(constraint) = constraints.get(&Keywords::Constant) {
        let text = match constraint.as_str() {
            Some(s) => s.to_owned(),
            None => "Error: invalid constant constraint".to_owned(),
        };
        return (text, false);
    }
    if let Some(constraint) = constraints.get(&Keywords::Pattern) {
        if let Some(pattern) = constraint.as_pattern() {
            return (random_string(pattern.as_str()), false);
        }
    }
    if let Some(Constraints::DataFile(column)) = constraints.get(&Keywords::DataFile) {
        return (decimal(*column), true);
    }
    let min: i64 = limit_or(constraints, Keywords::MinLength, 1);
    let max: i64 = limit_or(constraints, Keywords::MaxLength, 20);
    let size: i64 = random_i64(min, max);
    let mut data = String::new();
    let mut i: i64 = 0;
    while i < size
        invariant
            0 <= i <= size,
            data@.len() == i,
            forall|j: int| 0 <= j < data@.len() ==> is_letter(#[trigger] data@[j]),
        decreases size - i,
    {
        data.push(random_letter());
        i += 1;
    }
    (data, false)
}

/// The number under a keyword, or a default.
fn limit_or(constraints: &ConstraintSet, k: Keywords, default: i64) -> (r: i64)
    ensures
        r == limit(constraints@, k, default),
{
    match constraints.get(&k) {
        Some(c) => match c.as_i64() {
            Some(n) => n,
            None => default,
        },
        None => default,
    }
}

/// An integer can be drawn under the constraints.
pub open spec fn integer_ready(c: ConstraintMap) -> bool {
    if c.contains_key(Keywords::Constant) {
        true
    } else if c.contains_key(Keywords::Pattern) {
        has_pattern(c) ==> pattern_generates(c[Keywords::Pattern]->Pattern_0)
    } else {
        limit(c, Keywords::Minimum, 0) <= limit(c, Keywords::Maximum, 100)
    }
}

/// The integer that a text denotes; zero where it denotes none, or one beyond 64 bits.
pub open spec fn integer_or_zero_of(text: Seq<char>) -> int {
    match integer_value(text) {
        Some(n) => if i64::MIN <= n <= i64::MAX {
            n
        } else {
            0
        },
        None => 0,
    }
}

/// The number can be drawn for a pattern: a text that the pattern describes denotes it.
pub open spec fn pattern_number(pattern: Seq<char>, n: i64) -> bool {
    exists|text: Seq<char>| #[trigger]
        pattern_text(pattern, PATTERN_MAX_REPEAT as int, text) && n == integer_or_zero_of(text)
}

/// What an integer is drawn as: the constant; for a pattern the number that a text denotes which
/// the pattern describes, or zero where the pattern is malformed; else a number of the range.
pub open spec fn integer_drawn(c: ConstraintMap, n: i64) -> bool {
    if c.contains_key(Keywords::Constant) {
        n == limit(c, Keywords::Constant, i64::MIN)
    } else if has_pattern(c) {
        let pattern = c[Keywords::Pattern]->Pattern_0;
        &&& pattern_shape(pattern) is None ==> n == 0
        &&& pattern_number(pattern, n)
    } else if c.contains_key(Keywords::Pattern) {
        n == limit(c, Keywords::Pattern, i64::MIN)
    } else {
        limit(c, Keywords::Minimum, 0) <= n <= limit(c, Keywords::Maximum, 100)
    }
}

/// The integer that drawn text denotes, or zero.
pub fn integer_or_zero(text: &str) -> (r: i64)
    ensures
        r == integer_or_zero_of(text@),
{
    match parse_i64(text) {
        Some(n) => n,
        None => 0,
    }
}

/// Draws an integer. It never stands for data from the outside source.
fn generate_integer_data(constraints: &ConstraintSet) -> (r: (i64, bool))
    requires
        integer_ready(constraints@),
    ensures
        integer_drawn(constraints@, r.0),
        !r.1,
{
    if let Some(constraint) = constraints.get(&Keywords::Constant) {
        let n: i64 = match constraint.as_i64() {
            Some(n) => n,
            None => i64::MIN,
        };
        return (n, false);
    }
    if let Some(constraint) = constraints.get(&Keywords::Pattern) {
        if let Some(pattern) = constraint.as_pattern() {
            let text = random_string(pattern.as_str());
            let n: i64 = integer_or_zero(text.as_str());
            proof {
                if pattern_shape(pattern@) is None {
                    reveal_strlit("Couldn't generate string for: ");
                    assert(text@[0] == 'C');
                    assert(!crate::text::is_digit(text@[0]));
                }
            }
            return (n, false);
        }
        let n: i64 = match constraint.as_i64() {
            Some(n) => n,
            None => i64::MIN,
        };
        return (n, false);
    }
    let min: i64 = limit_or(constraints, Keywords::Minimum, 0);
    let max: i64 = limit_or(constraints, Keywords::Maximum, 100);
    (random_i64(min, max), false)
}

// ---------------------------------------------------------------------------------------------
// Objects and arrays
// ---------------------------------------------------------------------------------------------

/// One of the schemas describes the items of an array.
pub open spec fn has_item(list: Seq<SchemaView>) -> bool {
    exists|i: int|
        0 <= i < list.len() && schema_name(#[trigger] list[i]) == Some(KEY_FOR_KEYLESS_SCHEMAS@)
}

/// Data can be drawn for a schema below the root: it is named, its ranges are not empty, its
/// patterns can be drawn for, and the items of its arrays are known.
pub open spec fn ready(s: SchemaView) -> bool
    decreases s,
{
    match s {
        SchemaView::Empty => true,
        SchemaView::String(_, c) => string_ready(c),
        SchemaView::Integer(_, c) => integer_ready(c),
        SchemaView::Object(k, list) => k is Some && ready_list(list),
        SchemaView::ConstantObject(k, _) => k is Some,
        SchemaView::Array(k, list, c) => {
            &&& k is Some
            &&& limit(c, Keywords::MinLength, 1) <= limit(c, Keywords::MaxLength, 20)
            &&& limit(c, Keywords::MaxLength, 20) >= 1 ==> ready_list(list) && has_item(list)
        },
    }
}

pub open spec fn ready_list(list: Seq<SchemaView>) -> bool
    decreases list,
{
    forall|i: int| 0 <= i < list.len() ==> ready(#[trigger] list[i])
}

/// The value of a constant object.
pub open spec fn constant_value(c: ConstraintMap) -> JsonView {
    if c.contains_key(Keywords::Constant) && c[Keywords::Constant] is ConstantValue {
        c[Keywords::Constant]->ConstantValue_0
    } else {
        JsonView::Object(Seq::empty())
    }
}

/// How many items an array may have. A drawn length below zero is none.
pub open spec fn count_drawn(c: ConstraintMap, n: int) -> bool {
    &&& limit(c, Keywords::MinLength, 1) <= n
    &&& n == 0 || n <= limit(c, Keywords::MaxLength, 20)
}

/// A reference from inside the object `key`: its path starts at the object. References from
/// arrays keep their key.
pub open spec fn nested_external(key: Seq<char>, e: ExternalView) -> ExternalView {
    match e {
        ExternalView::Object { path, count } => ExternalView::Object {
            path: key + "."@ + path,
            count,
        },
        _ => e,
    }
}

/// What the references inside an object add to those around it.
pub open spec fn nested_mentions(key: Seq<char>, inner: Option<Seq<ExternalView>>) -> Seq<
    Mention,
> {
    match inner {
        None => Seq::empty(),
        Some(list) => Seq::new(list.len(), |i: int| (nested_external(key, list[i]), 0)),
    }
}

/// What the references inside an array add to those around it.
pub open spec fn array_mentions(key: Seq<char>, inner: Option<Seq<ExternalView>>) -> Seq<Mention> {
    match inner {
        None => Seq::empty(),
        Some(list) => seq![(ExternalView::Array(key + "[*]"@, list), 1)],
    }
}

/// What the references of one item of an array count.
pub open spec fn item_mentions(inner: Option<Seq<ExternalView>>) -> Seq<Mention> {
    match inner {
        None => Seq::empty(),
        Some(list) => Seq::new(list.len(), |i: int| (list[i], 1)),
    }
}

/// All mentions, part after part.
pub open spec fn joined(parts: Seq<Seq<Mention>>) -> Seq<Mention>
    decreases parts.len(),
{
    if parts.len() == 0 {
        Seq::empty()
    } else {
        joined(parts.drop_last()) + parts.last()
    }
}

/// The members of an object whose properties were drawn as `values`.
pub open spec fn drawn_entries(list: Seq<SchemaView>, values: Seq<JsonView>) -> Seq<
    (Seq<char>, JsonView),
>
    decreases list.len(),
{
    if list.len() == 0 {
        Seq::empty()
    } else {
        let rest = drawn_entries(list.drop_last(), values.drop_last());
        match schema_name(list.last()) {
            Some(name) => set_entry(rest, name, values.last()),
            None => rest,
        }
    }
}

/// `value` and `mentions` may be drawn for the property `s`.
pub open spec fn drawn(s: SchemaView, value: JsonView, mentions: Seq<Mention>) -> bool
    decreases s, 0nat,
{
    match s {
        SchemaView::Empty => mentions.len() == 0,
        SchemaView::String(k, c) => {
            &&& value is String
            &&& string_drawn(c, value->String_0)
            &&& mentions == (if is_external(c) {
                seq![(ExternalView::Object { path: k, count: 1 }, 1nat)]
            } else {
                Seq::<Mention>::empty()
            })
        },
        SchemaView::Integer(_, c) => {
            &&& view_i64(value) is Some
            &&& value == int_view(view_i64(value)->0)
            &&& integer_drawn(c, view_i64(value)->0)
            &&& mentions.len() == 0
        },
        SchemaView::Object(k, list) => {
            &&& value is Object
            &&& exists|inner: Option<Seq<ExternalView>>|
                object_drawn(list, value->Object_0, inner) && mentions
                    == #[trigger] nested_mentions(k->0, inner)
        },
        SchemaView::ConstantObject(_, c) => value == constant_value(c) && mentions.len() == 0,
        SchemaView::Array(k, list, c) => {
            &&& value is Array
            &&& count_drawn(c, value->Array_0.len() as int)
            &&& exists|inner: Option<Seq<ExternalView>>|
                items_drawn(list, value->Array_0, inner) && mentions
                    == #[trigger] array_mentions(k->0, inner)
        },
    }
}

/// Each property was drawn.
pub open spec fn all_drawn(
    list: Seq<SchemaView>,
    values: Seq<JsonView>,
    parts: Seq<Seq<Mention>>,
) -> bool
    decreases list, 1nat,
{
    &&& values.len() == list.len()
    &&& parts.len() == list.len()
    &&& forall|i: int|
        0 <= i < list.len() ==> drawn(#[trigger] list[i], #[trigger] values[i], #[trigger] parts[i])
}

/// The members `entries` and the references `external` may be drawn for an object.
pub open spec fn object_drawn(
    list: Seq<SchemaView>,
    entries: Seq<(Seq<char>, JsonView)>,
    external: Option<Seq<ExternalView>>,
) -> bool
    decreases list, 2nat,
{
    exists|values: Seq<JsonView>, parts: Seq<Seq<Mention>>|
        {
            &&& all_drawn(list, values, parts)
            &&& entries == #[trigger] drawn_entries(list, values)
            &&& tally_option(#[trigger] joined(parts), external)
        }
}

/// Each item was drawn as the item member of an object.
pub open spec fn rounds_drawn(
    list: Seq<SchemaView>,
    items: Seq<JsonView>,
    objects: Seq<Seq<(Seq<char>, JsonView)>>,
    rounds: Seq<Option<Seq<ExternalView>>>,
) -> bool
    decreases list, 3nat,
{
    &&& objects.len() == items.len()
    &&& rounds.len() == items.len()
    &&& forall|i: int|
        0 <= i < items.len() ==> {
            &&& object_drawn(list, #[trigger] objects[i], rounds[i])
            &&& lookup(objects[i], KEY_FOR_KEYLESS_SCHEMAS@) == Some(items[i])
        }
}

/// All that the items of an array mention.
pub open spec fn round_mentions(rounds: Seq<Option<Seq<ExternalView>>>) -> Seq<Mention> {
    joined(rounds.map_values(|r| item_mentions(r)))
}

/// The items and the references `external` may be drawn for an array.
pub open spec fn items_drawn(
    list: Seq<SchemaView>,
    items: Seq<JsonView>,
    external: Option<Seq<ExternalView>>,
) -> bool
    decreases list, 4nat,
{
    exists|
        objects: Seq<Seq<(Seq<char>, JsonView)>>,
        rounds: Seq<Option<Seq<ExternalView>>>,
    |
        {
            &&& rounds_drawn(list, items, objects, rounds)
            &&& #[trigger] objects.len() == items.len()
            &&& tally_option(#[trigger] round_mentions(rounds), external)
        }
}

/// What was drawn part by part was drawn for the object.
proof fn lemma_object_drawn(
    list: Seq<SchemaView>,
    values: Seq<JsonView>,
    parts: Seq<Seq<Mention>>,
    external: Option<Seq<ExternalView>>,
)
    requires
        all_drawn(list, values, parts),
        tally_option(joined(parts), external),
    ensures
        object_drawn(list, drawn_entries(list, values), external),
{
    assert(all_drawn(list, values, parts));
}

/// What was drawn for an object was drawn part by part.
pub proof fn lemma_object_parts(
    list: Seq<SchemaView>,
    entries: Seq<(Seq<char>, JsonView)>,
    external: Option<Seq<ExternalView>>,
) -> (r: (Seq<JsonView>, Seq<Seq<Mention>>))
    requires
        object_drawn(list, entries, external),
    ensures
        all_drawn(list, r.0, r.1),
        entries == drawn_entries(list, r.0),
        tally_option(joined(r.1), external),
{
    choose|values: Seq<JsonView>, parts: Seq<Seq<Mention>>|
        {
            &&& all_drawn(list, values, parts)
            &&& entries == #[trigger] drawn_entries(list, values)
            &&& tally_option(#[trigger] joined(parts), external)
        }
}

/// What was drawn round by round was drawn for the array.
proof fn lemma_items_drawn(
    list: Seq<SchemaView>,
    items: Seq<JsonView>,
    objects: Seq<Seq<(Seq<char>, JsonView)>>,
    rounds: Seq<Option<Seq<ExternalView>>>,
    external: Option<Seq<ExternalView>>,
)
    requires
        rounds_drawn(list, items, objects, rounds),
        tally_option(round_mentions(rounds), external),
    ensures
        items_drawn(list, items, external),
{
    assert(objects.len() == items.len());
}

/// One more round.
proof fn lemma_rounds_push(
    list: Seq<SchemaView>,
    items: Seq<JsonView>,
    objects: Seq<Seq<(Seq<char>, JsonView)>>,
    rounds: Seq<Option<Seq<ExternalView>>>,
    item: JsonView,
    object: Seq<(Seq<char>, JsonView)>,
    round: Option<Seq<ExternalView>>,
)
    requires
        rounds_drawn(list, items, objects, rounds),
        object_drawn(list, object, round),
        lookup(object, KEY_FOR_KEYLESS_SCHEMAS@) == Some(item),
    ensures
        rounds_drawn(list, items.push(item), objects.push(object), rounds.push(round)),
{
    let a = items.push(item);
    let b = objects.push(object);
    let c = rounds.push(round);
    assert forall|i: int| 0 <= i < a.len() implies {
        &&& object_drawn(list, #[trigger] b[i], c[i])
        &&& lookup(b[i], KEY_FOR_KEYLESS_SCHEMAS@) == Some(a[i])
    } by {
        if i < items.len() {
            assert(b[i] == objects[i]);
            assert(c[i] == rounds[i]);
            assert(a[i] == items[i]);
            assert(object_drawn(list, objects[i], rounds[i]));
        }
    }
}

proof fn lemma_drawn_object(
    k: Seq<char>,
    list: Seq<SchemaView>,
    entries: Seq<(Seq<char>, JsonView)>,
    inner: Option<Seq<ExternalView>>,
)
    requires
        object_drawn(list, entries, inner),
    ensures
        drawn(
            SchemaView::Object(Some(k), list),
            JsonView::Object(entries),
            nested_mentions(k, inner),
        ),
{
    let s = SchemaView::Object(Some(k), list);
    let value = JsonView::Object(entries);
    assert(object_drawn(s->Object_1, value->Object_0, inner));
    assert(nested_mentions(k, inner) == nested_mentions(s->Object_0->0, inner));
}

proof fn lemma_drawn_array(
    k: Seq<char>,
    list: Seq<SchemaView>,
    c: ConstraintMap,
    items: Seq<JsonView>,
    inner: Option<Seq<ExternalView>>,
)
    requires
        count_drawn(c, items.len() as int),
        items_drawn(list, items, inner),
    ensures
        drawn(
            SchemaView::Array(Some(k), list, c),
            JsonView::Array(items),
            array_mentions(k, inner),
        ),
{
    let s = SchemaView::Array(Some(k), list, c);
    let value = JsonView::Array(items);
    assert(items_drawn(s->Array_1, value->Array_0, inner));
    assert(array_mentions(k, inner) == array_mentions(s->Array_0->0, inner));
}

proof fn lemma_ready_object(k: Option<Seq<char>>, list: Seq<SchemaView>)
    requires
        ready(SchemaView::Object(k, list)),
    ensures
        k is Some,
        ready_list(list),
{
}

proof fn lemma_ready_array(
    k: Option<Seq<char>>,
    list: Seq<SchemaView>,
    c: ConstraintMap,
)
    requires
        ready(SchemaView::Array(k, list, c)),
    ensures
        k is Some,
        limit(c, Keywords::MinLength, 1) <= limit(c, Keywords::MaxLength, 20),
        limit(c, Keywords::MaxLength, 20) >= 1 ==> ready_list(list) && has_item(list),
{
}

proof fn lemma_joined_push(parts: Seq<Seq<Mention>>, part: Seq<Mention>)
    ensures
        joined(parts.push(part)) == joined(parts) + part,
{
    assert(parts.push(part).drop_last() =~= parts);
}

proof fn lemma_rows_concat(a: Seq<Mention>, b: Seq<Mention>, e: ExternalView)
    ensures
        rows(a + b, e) == rows(a, e) + rows(b, e),
    decreases b.len(),
{
    if b.len() == 0 {
        assert(a + b =~= a);
    } else {
        assert((a + b).drop_last() =~= a + b.drop_last());
        lemma_rows_concat(a, b.drop_last(), e);
    }
}

/// Mentions that add nothing add no rows.
proof fn lemma_rows_zero(mentions: Seq<Mention>, e: ExternalView)
    requires
        forall|i: int| 0 <= i < mentions.len() ==> (#[trigger] mentions[i]).1 == 0,
    ensures
        rows(mentions, e) == 0,
    decreases mentions.len(),
{
    if mentions.len() > 0 {
        lemma_rows_zero(mentions.drop_last(), e);
    }
}

/// Distinct places that are mentioned once each add at most one row to a place.
proof fn lemma_rows_distinct(list: Seq<ExternalView>, n: int, e: ExternalView)
    requires
        0 <= n <= list.len(),
        forall|i: int, j: int|
            0 <= i < j < list.len() ==> !same_external(#[trigger] list[i], #[trigger] list[j]),
    ensures
        rows(Seq::new(n as nat, |i: int| (list[i], 1nat)), e) <= 1,
        rows(Seq::new(n as nat, |i: int| (list[i], 1nat)), e) == 1 ==> exists|i: int|
            0 <= i < n && same_external(#[trigger] list[i], e),
    decreases n,
{
    if n > 0 {
        let mentions = Seq::new(n as nat, |i: int| (list[i], 1nat));
        let rest = Seq::new((n - 1) as nat, |i: int| (list[i], 1nat));
        assert(mentions.drop_last() =~= rest);
        lemma_rows_distinct(list, n - 1, e);
        if same_external(list[n - 1], e) {
            if rows(rest, e) == 1 {
                let i = choose|i: int| 0 <= i < n - 1 && same_external(#[trigger] list[i], e);
                lemma_same_external_symmetric(list[n - 1], e);
                lemma_same_external_transitive(list[i], e, list[n - 1]);
            }
        }
    }
}

/// The members that were drawn are those that are named, each with the value of the last schema
/// of its name.
pub proof fn lemma_drawn_entries(list: Seq<SchemaView>, values: Seq<JsonView>, key: Seq<char>)
    requires
        values.len() == list.len(),
    ensures
        lookup(drawn_entries(list, values), key) == (if name_index(list, key) >= 0 {
            Some(values[name_index(list, key)])
        } else {
            None
        }),
        -1 <= name_index(list, key) < list.len(),
        unique_keys(drawn_entries(list, values)),
    decreases list.len(),
{
    if list.len() > 0 {
        let rest = drawn_entries(list.drop_last(), values.drop_last());
        lemma_drawn_entries(list.drop_last(), values.drop_last(), key);
        if let Some(name) = schema_name(list.last()) {
            lemma_set_entry(rest, name, values.last());
        }
    }
}

/// The last schema named `key`, or -1.
pub open spec fn name_index(list: Seq<SchemaView>, key: Seq<char>) -> int
    decreases list.len(),
{
    if list.len() == 0 {
        -1
    } else if schema_name(list.last()) == Some(key) {
        list.len() - 1
    } else {
        name_index(list.drop_last(), key)
    }
}

proof fn lemma_name_index(list: Seq<SchemaView>, key: Seq<char>)
    ensures
        -1 <= name_index(list, key) < list.len(),
        name_index(list, key) >= 0 ==> schema_name(list[name_index(list, key)]) == Some(key),
        (exists|i: int| 0 <= i < list.len() && schema_name(#[trigger] list[i]) == Some(key))
            ==> name_index(list, key) >= 0,
    decreases list.len(),
{
    if list.len() > 0 && schema_name(list.last()) != Some(key) {
        lemma_name_index(list.drop_last(), key);
        if exists|i: int| 0 <= i < list.len() && schema_name(#[trigger] list[i]) == Some(key) {
            let i = choose|i: int|
                0 <= i < list.len() && schema_name(#[trigger] list[i]) == Some(key);
            assert(list.drop_last()[i] == list[i]);
        }
    }
}

/// Drawn data has exactly the members that the schema names, each drawn for the last property of
/// its name.
pub proof fn lemma_object_members(
    list: Seq<SchemaView>,
    entries: Seq<(Seq<char>, JsonView)>,
    external: Option<Seq<ExternalView>>,
    key: Seq<char>,
)
    requires
        object_drawn(list, entries, external),
    ensures
        unique_keys(entries),
        match lookup(entries, key) {
            Some(value) => name_index(list, key) >= 0 && exists|mentions: Seq<Mention>| #[trigger]
                drawn(list[name_index(list, key)], value, mentions),
            None => name_index(list, key) == -1,
        },
{
    let (values, parts) = lemma_object_parts(list, entries, external);
    lemma_drawn_entries(list, values, key);
    let i = name_index(list, key);
    if i >= 0 {
        reveal_with_fuel(all_drawn, 2);
        assert(drawn(list[i], values[i], parts[i]));
    }
}

/// The name of a schema.
fn copied_schema_name(schema: &DataSchema) -> (r: Option<String>)
    ensures
        name_view(r) == schema_name(schema@),
{
    broadcast use {lemma_object_schema_view, lemma_array_schema_view};

    match schema {
        DataSchema::Empty => None,
        DataSchema::String(k, _) => Some(k.clone()),
        DataSchema::Integer(k, _) => Some(k.clone()),
        DataSchema::Object(k, _) => k.clone(),
        DataSchema::ConstantObject(k, _) => k.clone(),
        DataSchema::Array(k, _, _) => k.clone(),
    }
}

/// Adds the references from inside the object `key`, prefixed with its name.
fn mention_nested(tally: &mut ExternalTally, key: &String, inner: Option<Vec<ExternalData>>)
    requires
        old(tally).wf(),
        forall|e: ExternalView| #[trigger] rows(old(tally).mentions(), e) <= usize::MAX,
    ensures
        final(tally).wf(),
        final(tally).mentions() == old(tally).mentions() + nested_mentions(
            key@,
            external_option_view(inner),
        ),
        forall|e: ExternalView| #[trigger]
            rows(final(tally).mentions(), e) == rows(old(tally).mentions(), e),
{
    let ghost start = tally.mentions();
    let ghost added = nested_mentions(key@, external_option_view(inner));
    if let Some(list) = inner {
        let prefix = join2(key.as_str(), ".");
        let mut i: usize = 0;
        assert(start + added.take(0) =~= start);
        while i < list.len()
            invariant
                i <= list@.len(),
                prefix@ == key@ + "."@,
                added == nested_mentions(key@, Some(externals_view(list@))),
                tally.wf(),
                tally.mentions() == start + added.take(i as int),
                forall|e: ExternalView| #[trigger] rows(start, e) <= usize::MAX,
            decreases list@.len() - i,
        {
            proof {
                assert forall|e: ExternalView| #[trigger] rows(tally.mentions(), e) == rows(
                    start,
                    e,
                ) by {
                    lemma_rows_concat(start, added.take(i as int), e);
                    lemma_rows_zero(added.take(i as int), e);
                }
                assert(added.take(i + 1) =~= added.take(i as int).push(added[i as int]));
            }
            let entry = match &list[i] {
                ExternalData::Object { path, count } => ExternalData::Object {
                    path: join2(prefix.as_str(), path.as_str()),
                    count: *count,
                },
                other => other.clone(),
            };
            assert(entry@ == nested_external(key@, externals_view(list@)[i as int]));
            tally.mention(entry, 0);
            i += 1;
            assert(tally.mentions() =~= start + added.take(i as int));
        }
        assert(added.take(i as int) =~= added);
    } else {
        assert(start + added =~= start);
    }
    proof {
        assert forall|e: ExternalView| #[trigger] rows(tally.mentions(), e) == rows(start, e) by {
            lemma_rows_concat(start, added, e);
            lemma_rows_zero(added, e);
        }
    }
}

/// Draws the members of an object, and lists what they refer to in the outside source.
fn generate_object_data(data: &Vec<DataSchema>) -> (r: (
    Vec<(String, Json)>,
    Option<Vec<ExternalData>>,
))
    requires
        ready_list(schemas_view(data@)),
    ensures
        object_drawn(schemas_view(data@), entries_view(r.0@), external_option_view(r.1)),
    decreases *data, 0nat,
{
    broadcast use {
        lemma_object_schema_view,
        lemma_array_schema_view,
        lemma_object_view,
        lemma_array_view,
        lemma_external_array_view,
    };

    let ghost list = schemas_view(data@);
    let mut map: Vec<(String, Json)> = Vec::new();
    let mut tally = ExternalTally::new();
    let ghost mut values: Seq<JsonView> = Seq::empty();
    let ghost mut parts: Seq<Seq<Mention>> = Seq::empty();
    let mut i: usize = 0;
    proof {
        assert(list.take(0) =~= Seq::empty());
        assert(entries_view(map@) =~= Seq::empty());
    }
    while i < data.len()
        invariant
            i <= data@.len(),
            list == schemas_view(data@),
            ready_list(list),
            all_drawn(list.take(i as int), values, parts),
            entries_view(map@) == drawn_entries(list.take(i as int), values),
            tally.wf(),
            tally.mentions() == joined(parts),
            forall|e: ExternalView| #[trigger] rows(tally.mentions(), e) <= i,
        decreases data@.len() - i,
    {
        let ghost s = list[i as int];
        let ghost before = tally.mentions();
        let ghost part: Seq<Mention> = Seq::empty();
        let ghost value: JsonView = JsonView::Null;
        proof {
            assert(list.take(i + 1).drop_last() =~= list.take(i as int));
            assert(list.take(i + 1).last() == s);
            assert(ready(s));
            reveal_with_fuel(ready, 2);
            assert(s == schema_view(data@[i as int]));
        }
        let name = copied_schema_name(&data[i]);
        match &data[i] {
            DataSchema::Empty => {
                assert(before + part =~= before);
            },
            DataSchema::String(k, c) => {
                let (text, external) = generate_string_data(c);
                let item = Json::String(text);
                proof {
                    value = item@;
                }
                put_entry(&mut map, k.clone(), item);
                if external {
                    let reference = ExternalData::Object { path: k.clone(), count: 1 };
                    proof {
                        part = seq![(reference@, 1nat)];
                        lemma_rows_one(before, reference@);
                    }
                    tally.mention(reference, 1);
                    assert(tally.mentions() =~= before + part);
                } else {
                    assert(before + part =~= before);
                }
            },
            DataSchema::Integer(k, c) => {
                let item = Json::from_i64(generate_integer_data(c).0);
                proof {
                    value = item@;
                    assert(before + part =~= before);
                }
                put_entry(&mut map, k.clone(), item);
            },
            DataSchema::Object(k, inner) => {
                assert(decreases_to!(data@[i as int] => data@[i as int]->Object_1));
                proof {
                    lemma_object_schema_view(*k, *inner);
                    lemma_ready_object(name_view(*k), schemas_view(inner@));
                }
                let (entries, external) = generate_object_data(inner);
                let key = match &name {
                    Some(k) => k.clone(),
                    None => String::new(),
                };
                proof {
                    lemma_object_view(entries);
                    value = JsonView::Object(entries_view(entries@));
                    part = nested_mentions(key@, external_option_view(external));
                    lemma_drawn_object(
                        key@,
                        schemas_view(inner@),
                        entries_view(entries@),
                        external_option_view(external),
                    );
                }
                mention_nested(&mut tally, &key, external);
                put_entry(&mut map, key, Json::Object(entries));
            },
            DataSchema::Array(k, inner, c) => {
                assert(decreases_to!(data@[i as int] => data@[i as int]->Array_1));
                proof {
                    lemma_array_schema_view(*k, *inner, *c);
                    lemma_ready_array(name_view(*k), schemas_view(inner@), c@);
                }
                let (items, external) = generate_array_data(inner, c);
                let key = match &name {
                    Some(k) => k.clone(),
                    None => String::new(),
                };
                let ghost view = external_option_view(external);
                proof {
                    lemma_array_view(items);
                    value = JsonView::Array(items_view(items@));
                    part = array_mentions(key@, view);
                    lemma_drawn_array(
                        key@,
                        schemas_view(inner@),
                        c@,
                        items_view(items@),
                        view,
                    );
                }
                if let Some(list_of_items) = external {
                    let path = join2(key.as_str(), "[*]");
                    proof {
                        lemma_external_array_view(path, list_of_items);
                    }
                    let reference = ExternalData::Array(path, list_of_items);
                    proof {
                        lemma_rows_one(before, reference@);
                    }
                    tally.mention(reference, 1);
                    assert(tally.mentions() =~= before + part);
                } else {
                    assert(before + part =~= before);
                }
                put_entry(&mut map, key, Json::Array(items));
            },
            DataSchema::ConstantObject(_, c) => {
                let none: Vec<(String, Json)> = Vec::new();
                proof {
                    lemma_object_view(none);
                    assert(entries_view(none@) =~= Seq::empty());
                    assert(before + part =~= before);
                }
                let constant = match c.get(&Keywords::Constant) {
                    Some(constraint) => match constraint.as_serde_value() {
                        Some(v) => v.clone(),
                        None => Json::Object(none),
                    },
                    None => Json::Object(none),
                };
                proof {
                    value = constant@;
                }
                let key = match &name {
                    Some(k) => k.clone(),
                    None => String::new(),
                };
                put_entry(&mut map, key, constant);
            },
        }
        proof {
            assert(tally.mentions() == before + part);
            assert(drawn(s, value, part));
            lemma_joined_push(parts, part);
            assert forall|e: ExternalView| #[trigger] rows(tally.mentions(), e) <= i + 1 by {
                lemma_rows_concat(before, part, e);
                lemma_part_rows(s, value, part, e);
            }
            let old_values = values;
            let old_parts = parts;
            values = values.push(value);
            parts = parts.push(part);
            assert(values.drop_last() =~= old_values);
            lemma_all_drawn_push(list.take(i as int), old_values, old_parts, s, value, part);
            assert(list.take(i + 1) =~= list.take(i as int).push(s));
        }
        i += 1;
    }
    assert(list.take(i as int) =~= list);
    let external = tally.into_list();
    proof {
        lemma_object_drawn(list, values, parts, external_option_view(external));
    }
    (map, external)
}

proof fn lemma_rows_one(before: Seq<Mention>, e: ExternalView)
    ensures
        forall|x: ExternalView| rows(before.push((e, 1nat)), x) <= #[trigger] rows(before, x) + 1,
{
    assert forall|x: ExternalView| rows(before.push((e, 1nat)), x) <= #[trigger] rows(before, x)
        + 1 by {
        assert(before.push((e, 1nat)).drop_last() =~= before);
    }
}

/// One property adds at most one row to a place.
proof fn lemma_part_rows(s: SchemaView, value: JsonView, part: Seq<Mention>, e: ExternalView)
    requires
        drawn(s, value, part),
    ensures
        rows(part, e) <= 1,
{
    match s {
        SchemaView::Object(k, list) => {
            lemma_rows_zero(part, e);
        },
        _ => {
            assert(part.len() <= 1);
            if part.len() == 1 {
                assert(part.drop_last() =~= Seq::empty());
                assert(rows(part.drop_last(), e) == 0);
            }
        },
    }
}

proof fn lemma_all_drawn_push(
    list: Seq<SchemaView>,
    values: Seq<JsonView>,
    parts: Seq<Seq<Mention>>,
    s: SchemaView,
    value: JsonView,
    part: Seq<Mention>,
)
    requires
        all_drawn(list, values, parts),
        drawn(s, value, part),
    ensures
        all_drawn(list.push(s), values.push(value), parts.push(part)),
{
    let a = list.push(s);
    let b = values.push(value);
    let c = parts.push(part);
    assert forall|i: int| 0 <= i < a.len() implies drawn(
        #[trigger] a[i],
        #[trigger] b[i],
        #[trigger] c[i],
    ) by {
        if i < list.len() {
            assert(a[i] == list[i] && b[i] == values[i] && c[i] == parts[i]);
            assert(drawn(list[i], values[i], parts[i]));
        }
    }
}

/// Adds the references of one item of an array.
fn mention_item(tally: &mut ExternalTally, inner: Option<Vec<ExternalData>>, bound: usize)
    requires
        old(tally).wf(),
        bound < usize::MAX,
        forall|e: ExternalView| #[trigger] rows(old(tally).mentions(), e) <= bound,
        inner matches Some(list) ==> forall|i: int, j: int|
            0 <= i < j < list@.len() ==> !same_external(
                #[trigger] externals_view(list@)[i],
                #[trigger] externals_view(list@)[j],
            ),
    ensures
        final(tally).wf(),
        final(tally).mentions() == old(tally).mentions() + item_mentions(
            external_option_view(inner),
        ),
        forall|e: ExternalView| #[trigger] rows(final(tally).mentions(), e) <= bound + 1,
{
    let ghost start = tally.mentions();
    let ghost added = item_mentions(external_option_view(inner));
    if let Some(list) = inner {
        let ghost view = externals_view(list@);
        let mut i: usize = 0;
        assert(start + added.take(0) =~= start);
        while i < list.len()
            invariant
                i <= list@.len(),
                view == externals_view(list@),
                added == item_mentions(Some(view)),
                bound < usize::MAX,
                forall|e: ExternalView| #[trigger] rows(start, e) <= bound,
                forall|a: int, b: int|
                    0 <= a < b < view.len() ==> !same_external(
                        #[trigger] view[a],
                        #[trigger] view[b],
                    ),
                tally.wf(),
                tally.mentions() == start + added.take(i as int),
            decreases list@.len() - i,
        {
            let entry = list[i].clone();
            proof {
                let e = entry@;
                let done = added.take(i as int);
                assert(done =~= Seq::new(i as nat, |j: int| (view[j], 1nat)));
                lemma_rows_concat(start, done, e);
                lemma_rows_distinct(view, i as int, e);
                if rows(done, e) == 1 {
                    let j = choose|j: int| 0 <= j < i && same_external(#[trigger] view[j], e);
                    assert(!same_external(view[j], view[i as int]));
                }
                assert(added.take(i + 1) =~= done.push(added[i as int]));
            }
            tally.mention(entry, 1);
            i += 1;
            assert(tally.mentions() =~= start + added.take(i as int));
        }
        proof {
            assert(added.take(i as int) =~= added);
            assert(added =~= Seq::new(view.len(), |j: int| (view[j], 1nat)));
            assert forall|e: ExternalView| #[trigger] rows(tally.mentions(), e) <= bound + 1 by {
                lemma_rows_concat(start, added, e);
                lemma_rows_distinct(view, view.len() as int, e);
            }
        }
    } else {
        assert(start + added =~= start);
    }
}

/// Draws the items of an array, and lists what they refer to in the outside source.
fn generate_array_data(schema: &Vec<DataSchema>, constraints: &ConstraintSet) -> (r: (
    Vec<Json>,
    Option<Vec<ExternalData>>,
))
    requires
        limit(constraints@, Keywords::MinLength, 1) <= limit(constraints@, Keywords::MaxLength, 20),
        limit(constraints@, Keywords::MaxLength, 20) >= 1 ==> ready_list(schemas_view(schema@))
            && has_item(schemas_view(schema@)),
    ensures
        count_drawn(constraints@, r.0@.len() as int),
        items_drawn(schemas_view(schema@), items_view(r.0@), external_option_view(r.1)),
    decreases *schema, 1nat,
{
    let ghost list = schemas_view(schema@);
    let min: i64 = limit_or(constraints, Keywords::MinLength, 1);
    let max: i64 = limit_or(constraints, Keywords::MaxLength, 20);
    let len: i64 = random_i64(min, max);
    let mut items: Vec<Json> = Vec::new();
    let mut tally = ExternalTally::new();
    let ghost mut objects: Seq<Seq<(Seq<char>, JsonView)>> = Seq::empty();
    let ghost mut rounds: Seq<Option<Seq<ExternalView>>> = Seq::empty();
    let mut round: i64 = 0;
    proof {
        assert(rounds.map_values(|r| item_mentions(r)) =~= Seq::empty());
        assert(items_view(items@) =~= Seq::empty());
    }
    while round < len
        invariant
            0 <= round,
            round <= len || round == 0,
            len <= limit(constraints@, Keywords::MaxLength, 20),
            items@.len() == round,
            list == schemas_view(schema@),
            limit(constraints@, Keywords::MaxLength, 20) >= 1 ==> ready_list(list) && has_item(list),
            rounds_drawn(list, items_view(items@), objects, rounds),
            tally.wf(),
            tally.mentions() == round_mentions(rounds),
            forall|e: ExternalView| #[trigger] rows(tally.mentions(), e) <= items@.len(),
        decreases len - round,
    {
        let (entries, external) = generate_object_data(schema);
        let ghost object = entries_view(entries@);
        let ghost inner = external_option_view(external);
        let ghost before = items_view(items@);
        proof {
            lemma_name_index(list, KEY_FOR_KEYLESS_SCHEMAS@);
            lemma_object_members(list, object, inner, KEY_FOR_KEYLESS_SCHEMAS@);
            lemma_key_index(object, KEY_FOR_KEYLESS_SCHEMAS@);
        }
        let bound: usize = items.len();
        if let Some(at) = find_entry(&entries, KEY_FOR_KEYLESS_SCHEMAS) {
            let item = entries[at].1.clone();
            items.push(item);
            assert(items_view(items@) =~= before.push(item@));
        }
        proof {
            lemma_distinct_list(list, object, inner);
        }
        assert(items.len() == bound + 1);
        mention_item(&mut tally, external, bound);
        proof {
            let old_rounds = rounds;
            let old_objects = objects;
            rounds = rounds.push(inner);
            objects = objects.push(object);
            assert(rounds.map_values(|r| item_mentions(r)) =~= old_rounds.map_values(
                |r| item_mentions(r),
            ).push(item_mentions(inner)));
            lemma_joined_push(old_rounds.map_values(|r| item_mentions(r)), item_mentions(inner));
            lemma_rounds_push(
                list,
                before,
                old_objects,
                old_rounds,
                items_view(items@).last(),
                object,
                inner,
            );
            assert(items_view(items@) =~= before.push(items_view(items@).last()));
        }
        round += 1;
    }
    let external = tally.into_list();
    proof {
        lemma_items_drawn(
            list,
            items_view(items@),
            objects,
            rounds,
            external_option_view(external),
        );
    }
    (items, external)
}

/// The references of an object are to distinct places.
proof fn lemma_distinct_list(
    list: Seq<SchemaView>,
    entries: Seq<(Seq<char>, JsonView)>,
    external: Option<Seq<ExternalView>>,
)
    requires
        object_drawn(list, entries, external),
    ensures
        external matches Some(v) ==> forall|i: int, j: int|
            0 <= i < j < v.len() ==> !same_external(#[trigger] v[i], #[trigger] v[j]),
{
    let (values, parts) = lemma_object_parts(list, entries, external);
}

// ---------------------------------------------------------------------------------------------
// Whole documents
// ---------------------------------------------------------------------------------------------

/// Data can be drawn for a schema. (Nothing is drawn where the root is no keyless object.)
pub open spec fn can_draw(schema: SchemaView) -> bool {
    schema matches SchemaView::Object(None, list) ==> ready_list(list)
}

/// What may be drawn for a schema: an object for a keyless object, nothing for anything else.
pub open spec fn data_drawn(
    schema: SchemaView,
    value: JsonView,
    external: Option<Seq<ExternalView>>,
) -> bool {
    match schema {
        SchemaView::Object(None, list) => value is Object && object_drawn(
            list,
            value->Object_0,
            external,
        ),
        _ => value is Null && external is None,
    }
}

/// Draws data for a schema, and lists what it refers to in the outside source.
pub fn generate_data_with_external_data(schema: &DataSchema) -> (r: (
    Json,
    Option<Vec<ExternalData>>,
))
    requires
        can_draw(schema@),
    ensures
        data_drawn(schema@, r.0@, external_option_view(r.1)),
{
    broadcast use {lemma_object_schema_view, lemma_array_schema_view, lemma_object_view};

    match schema {
        DataSchema::Object(None, list) => {
            let (data, external) = generate_object_data(list);
            (Json::Object(data), external)
        },
        _ => (Json::Null, None),
    }
}

/// Draws data for a schema. There is no error: a valid schema yields valid data.
pub fn generate_data(schema: &DataSchema) -> (r: (Json, Option<Vec<ExternalData>>))
    requires
        can_draw(schema@),
    ensures
        data_drawn(schema@, r.0@, external_option_view(r.1)),
{
    generate_data_with_external_data(schema)
}

/// Whether a string can be drawn under the constraints.
fn is_string_ready(c: &ConstraintSet) -> (r: bool)
    ensures
        r == string_ready(c@),
{
    if c.get(&Keywords::Constant).is_some() {
        return true;
    }
    if let Some(constraint) = c.get(&Keywords::Pattern) {
        if let Some(pattern) = constraint.as_pattern() {
            return pattern_can_generate(pattern.as_str());
        }
    }
    if let Some(Constraints::DataFile(_)) = c.get(&Keywords::DataFile) {
        return true;
    }
    let min: i64 = limit_or(c, Keywords::MinLength, 1);
    let max: i64 = limit_or(c, Keywords::MaxLength, 20);
    0 <= min && min <= max
}

/// Whether an integer can be drawn under the constraints.
fn is_integer_ready(c: &ConstraintSet) -> (r: bool)
    ensures
        r == integer_ready(c@),
{
    if c.get(&Keywords::Constant).is_some() {
        return true;
    }
    if let Some(constraint) = c.get(&Keywords::Pattern) {
        if let Some(pattern) = constraint.as_pattern() {
            return pattern_can_generate(pattern.as_str());
        }
        return true;
    }
    limit_or(c, Keywords::Minimum, 0) <= limit_or(c, Keywords::Maximum, 100)
}

/// Whether one of the schemas describes the items of an array.
fn is_item_known(list: &Vec<DataSchema>) -> (r: bool)
    ensures
        r == has_item(schemas_view(list@)),
{
    let ghost view = schemas_view(list@);
    let mut i: usize = 0;
    while i < list.len()
        invariant
            i <= list@.len(),
            view == schemas_view(list@),
            forall|j: int|
                0 <= j < i ==> schema_name(#[trigger] view[j]) != Some(KEY_FOR_KEYLESS_SCHEMAS@),
        decreases list@.len() - i,
    {
        assert(view[i as int] == list@[i as int]@);
        if let Some(name) = copied_schema_name(&list[i]) {
            if same_text(name.as_str(), KEY_FOR_KEYLESS_SCHEMAS) {
                return true;
            }
        }
        i += 1;
    }
    false
}

/// Whether data can be drawn for each of the schemas.
fn is_list_ready(list: &Vec<DataSchema>) -> (r: bool)
    ensures
        r == ready_list(schemas_view(list@)),
    decreases *list,
{
    let ghost view = schemas_view(list@);
    let mut i: usize = 0;
    while i < list.len()
        invariant
            i <= list@.len(),
            view == schemas_view(list@),
            forall|j: int| 0 <= j < i ==> ready(#[trigger] view[j]),
        decreases list@.len() - i,
    {
        assert(view[i as int] == list@[i as int]@);
        if !is_ready(&list[i]) {
            assert(!ready(view[i as int]));
            return false;
        }
        i += 1;
    }
    true
}

/// Whether data can be drawn for a schema below the root.
fn is_ready(schema: &DataSchema) -> (r: bool)
    ensures
        r == ready(schema@),
    decreases *schema,
{
    broadcast use {lemma_object_schema_view, lemma_array_schema_view};

    match schema {
        DataSchema::Empty => true,
        DataSchema::String(_, c) => is_string_ready(c),
        DataSchema::Integer(_, c) => is_integer_ready(c),
        DataSchema::Object(k, list) => {
            assert(decreases_to!(*schema => (*schema)->Object_1));
            assert(schema@ == SchemaView::Object(name_view(*k), schemas_view(list@)));
            let inner = is_list_ready(list);
            k.is_some() && inner
        },
        DataSchema::ConstantObject(k, _) => k.is_some(),
        DataSchema::Array(k, list, c) => {
            assert(decreases_to!(*schema => (*schema)->Array_1));
            assert(schema@ == SchemaView::Array(name_view(*k), schemas_view(list@), c@));
            let min: i64 = limit_or(c, Keywords::MinLength, 1);
            let max: i64 = limit_or(c, Keywords::MaxLength, 20);
            let inner = is_list_ready(list);
            let item = is_item_known(list);
            k.is_some() && min <= max && (max < 1 || (inner && item))
        },
    }
}

/// Whether data can be drawn for a schema.
pub fn can_generate_data(schema: &DataSchema) -> (r: bool)
    ensures
        r == can_draw(schema@),
{
    broadcast use {lemma_object_schema_view, lemma_array_schema_view};

    match schema {
        DataSchema::Object(None, list) => is_list_ready(list),
        _ => true,
    }
}

/// Draws data for a schema, where that can be done.
pub fn try_generate_data(schema: &DataSchema) -> (r: Option<(Json, Option<Vec<ExternalData>>)>)
    ensures
        match r {
            Some((value, external)) => can_draw(schema@) && data_drawn(
                schema@,
                value@,
                external_option_view(external),
            ),
            None => !can_draw(schema@),
        },
{
    if can_generate_data(schema) {
        Some(generate_data(schema))
    } else {
        None
    }
}

/// What reading a schema does not check: patterns that text can be drawn for, and lengths of
/// strings that are not negative.
pub open spec fn drawable(s: SchemaView) -> bool
    decreases s,
{
    match s {
        SchemaView::String(_, c) => {
            &&& has_pattern(c) ==> pattern_generates(c[Keywords::Pattern]->Pattern_0)
            &&& limit(c, Keywords::MinLength, 1) >= 0
        },
        SchemaView::Integer(_, c) => has_pattern(c) ==> pattern_generates(
            c[Keywords::Pattern]->Pattern_0,
        ),
        SchemaView::Object(_, list) => forall|i: int|
            0 <= i < list.len() ==> drawable(#[trigger] list[i]),
        SchemaView::Array(_, list, _) => forall|i: int|
            0 <= i < list.len() ==> drawable(#[trigger] list[i]),
        _ => true,
    }
}

/// Under constraints that were read, limits are in order.
proof fn lemma_limits_in_order(c: ConstraintMap)
    requires
        canonical_constraints(c),
    ensures
        limit(c, Keywords::Minimum, 0) <= limit(c, Keywords::Maximum, 100),
        limit(c, Keywords::MinLength, 1) <= limit(c, Keywords::MaxLength, 20),
{
    assert forall|k: Keywords| c.contains_key(k) implies constraint_of(
        k,
        constraint_value(#[trigger] c[k]),
    ) == Some(c[k]) by {}
    if c.contains_key(Keywords::Minimum) {
        let a = c[Keywords::Minimum];
        let b = c[Keywords::Maximum];
    }
    if c.contains_key(Keywords::MinLength) {
        let a = c[Keywords::MinLength];
        let b = c[Keywords::MaxLength];
    }
}

/// A schema that was read is valid: data can be drawn for it.
pub proof fn lemma_canonical_ready(s: SchemaView)
    requires
        canonical(s),
        drawable(s),
    ensures
        ready(s),
    decreases s,
{
    match s {
        SchemaView::String(_, c) => {
            lemma_limits_in_order(c);
        },
        SchemaView::Integer(_, c) => {
            lemma_limits_in_order(c);
        },
        SchemaView::Object(_, list) => {
            assert(canonical_list(list));
            assert forall|i: int| 0 <= i < list.len() implies ready(#[trigger] list[i]) by {
                assert(decreases_to!(s => s->Object_1));
                assert(decreases_to!(list => list[i]));
                lemma_canonical_ready(list[i]);
            }
            assert(ready_list(list));
        },
        SchemaView::Array(_, list, c) => {
            lemma_limits_in_order(c);
            assert(decreases_to!(s => s->Array_1));
            assert(decreases_to!(list => list[0]));
            lemma_canonical_ready(list[0]);
            assert(ready_list(list));
            assert(has_item(list));
        },
        _ => {},
    }
}

/// Whatever schema is read from a document, data can be drawn for it, where the items of its
/// arrays are known, its patterns can be drawn for and no length of a string is negative.
pub proof fn lemma_read_schema_draws(document: JsonView)
    requires
        well_formed(document),
        schema_of_value(document) is Ok,
        items_known(schema_of_value(document)->Ok_0),
        drawable(schema_of_value(document)->Ok_0),
    ensures
        can_draw(schema_of_value(document)->Ok_0),
{
    let list = schema_of_value(document)->Ok_0->Object_1;
    let entries = view_get(document, "properties"@)->0->Object_0;
    let at = key_index(document->Object_0, "properties"@);
    lemma_key_index(document->Object_0, "properties"@);
    assert(well_formed(document->Object_0[at].1));
    lemma_read_list_canonical(entries);
    assert forall|i: int| 0 <= i < list.len() implies ready(#[trigger] list[i]) by {
        assert(items_known(list[i]));
        assert(drawable(list[i]));
        lemma_canonical_ready(list[i]);
    }
}

} // verus!
