//! Laws of JSON values, of the names in them and of the keywords of schemas.

use vstd::prelude::*;

use crate::json::{
    entries_view, find_entry, get_entry, key_index, lemma_array_view, lemma_key_index,
    lemma_object_view, lemma_set_entry, lookup, put_entry, Json, JsonView, Number, NumberView,
};
use crate::keywords::{
    lemma_keyword_text_inverse, parse_constraint, ConstraintSet,
    ConstraintView, Constraints, Keywords,
};
use crate::text_map::TextMap;

verus! {

// ---------------------------------------------------------------------------------------------
// Members
// ---------------------------------------------------------------------------------------------

/// The member at `i` is the last of its name.
pub open spec fn is_last(entries: Seq<(String, Json)>, i: int) -> bool {
    0 <= i < entries.len() && forall|j: int|
        i < j < entries.len() ==> (#[trigger] entries[j]).0@ != entries[i].0@
}

/// The last member of a name is the one that is found.
pub proof fn lemma_member_found(
    entries: Vec<(String, Json)>,
    key: &str,
    i: int,
    at: Option<usize>,
    value: Option<&Json>,
)
    requires
        call_ensures(find_entry, (&entries, key), at),
        call_ensures(get_entry, (&entries, key), value),
    ensures
        at is Some <==> value is Some,
        is_last(entries@, i) && entries@[i].0@ == key@ ==> at == Some(i as usize) && value->0@
            == entries@[i].1@,
        at matches Some(n) ==> n < entries@.len() && entries@[n as int].0@ == key@,
        (forall|j: int| 0 <= j < entries@.len() ==> (#[trigger] entries@[j]).0@ != key@)
            ==> at is None,
{
    let view = entries_view(entries@);
    lemma_key_index(view, key@);
    assert forall|j: int| 0 <= j < view.len() implies (#[trigger] view[j]).0 == entries@[j].0@ by {}
    let k = key_index(view, key@);
    assert(entries.len() == entries@.len());
    if is_last(entries@, i) && entries@[i].0@ == key@ {
        assert(view[i].0 == key@);
        assert(k >= i);
        if k > i {
            assert(entries@[k].0@ == key@);
        }
    }
}

/// A value that is put under a name is found under it, and every other name keeps its value.
pub proof fn lemma_member_put(
    entries: &mut Vec<(String, Json)>,
    key: String,
    value: Json,
    name: &str,
    before: Option<&Json>,
    after: Option<&Json>,
)
    requires
        call_ensures(get_entry, (&*old(entries), name), before),
        call_ensures(put_entry, (entries, key, value), ()),
        call_ensures(get_entry, (&*final(entries), name), after),
    ensures
        name@ == key@ ==> after is Some && after->0@ == value@,
        name@ != key@ ==> (after is Some <==> before is Some),
        name@ != key@ && after is Some ==> after->0@ == before->0@,
        final(entries)@.len() <= old(entries)@.len() + 1,
{
    lemma_set_entry(entries_view(old(entries)@), key@, value@);
    lemma_key_index(entries_view(old(entries)@), key@);
    assert(entries_view(final(entries)@).len() == final(entries)@.len());
    assert(entries_view(old(entries)@).len() == old(entries)@.len());
}

// ---------------------------------------------------------------------------------------------
// Values
// ---------------------------------------------------------------------------------------------

/// Values are taken for what they are. An integer is one where it fits.
pub proof fn lemma_taken(
    json: Json,
    integer: Option<i64>,
    natural: Option<u64>,
    text: Option<&str>,
    object: Option<&Vec<(String, Json)>>,
    array: Option<&Vec<Json>>,
)
    requires
        call_ensures(Json::as_i64, (&json,), integer),
        call_ensures(Json::as_u64, (&json,), natural),
        call_ensures(Json::as_str, (&json,), text),
        call_ensures(Json::as_object, (&json,), object),
        call_ensures(Json::as_array, (&json,), array),
    ensures
        json matches Json::Number(Number::PosInt(n)) ==> natural == Some(n) && (integer is Some
            <==> n <= 0x7fff_ffff_ffff_ffff) && (integer matches Some(m) ==> m == n),
        json matches Json::Number(Number::NegInt(n)) ==> natural is None && integer == Some(n),
        json matches Json::Number(Number::Float(_)) ==> natural is None && integer is None,
        !(json is Number) ==> natural is None && integer is None,
        text is Some <==> json is String,
        text matches Some(s) ==> json->String_0@ == s@,
        object is Some <==> json is Object,
        object matches Some(e) ==> json->Object_0 == *e,
        array is Some <==> json is Array,
        array matches Some(e) ==> json->Array_0 == *e,
{
}

/// What is made is what it was made from.
pub proof fn lemma_made(n: i64, s: &str, number: Json, text: Json, back: Option<i64>)
    requires
        call_ensures(Json::from_i64, (n,), number),
        call_ensures(Json::as_i64, (&number,), back),
        call_ensures(Json::text, (s,), text),
    ensures
        back == Some(n),
        n >= 0 ==> number@ == JsonView::Number(NumberView::PosInt(n as u64)),
        n < 0 ==> number@ == JsonView::Number(NumberView::NegInt(n)),
        text@ == JsonView::String(s@),
{
}

/// A copy is the same value.
pub proof fn lemma_copied(json: Json, copy: Json)
    requires
        call_ensures(Json::clone, (&json,), copy),
    ensures
        copy@ == json@,
{
}

/// Numbers are equal where they are written alike, and zeros are equal whatever their sign.
pub proof fn lemma_numbers_same(a: Number, b: Number, r: bool)
    requires
        call_ensures(Number::same, (&a, &b), r),
    ensures
        a@ == b@ ==> r,
        r && a@ != b@ ==> a is Float && b is Float && (a->Float_0@ == "0.0"@ || a->Float_0@
            == "-0.0"@) && (b->Float_0@ == "0.0"@ || b->Float_0@ == "-0.0"@),
        a is Float && b is Float && a->Float_0@ == "0.0"@ && b->Float_0@ == "-0.0"@ ==> r,
{
}

/// Values of different kinds are never equal; others are where their parts are. Arrays are
/// compared item by item, in order.
pub proof fn lemma_values_same(a: Json, b: Json, r: bool, numbers: bool, items: Seq<bool>)
    requires
        call_ensures(Json::same, (&a, &b), r),
        a is Number && b is Number ==> call_ensures(
            Number::same,
            (&a->Number_0, &b->Number_0),
            numbers,
        ),
        a is Array && b is Array && a->Array_0@.len() == b->Array_0@.len() ==> items.len()
            == a->Array_0@.len() && forall|i: int|
            0 <= i < items.len() ==> call_ensures(
                Json::same,
                (&a->Array_0@[i], &b->Array_0@[i]),
                #[trigger] items[i],
            ),
    ensures
        match (a, b) {
            (Json::Null, Json::Null) => r,
            (Json::Bool(x), Json::Bool(y)) => r == (x == y),
            (Json::Number(_), Json::Number(_)) => r == numbers,
            (Json::String(x), Json::String(y)) => r == (x@ == y@),
            (Json::Array(x), Json::Array(y)) => r <==> x@.len() == y@.len() && forall|i: int|
                0 <= i < items.len() ==> #[trigger] items[i],
            (Json::Object(x), Json::Object(y)) => r ==> x@.len() == y@.len(),
            _ => !r,
        },
{
    broadcast use {lemma_array_view, lemma_object_view};

    match (a, b) {
        (Json::Array(x), Json::Array(y)) => {
            let v = crate::json::items_view(x@);
            let w = crate::json::items_view(y@);
            assert(v.len() == x@.len() && w.len() == y@.len());
            if x@.len() == y@.len() {
                assert forall|i: int| 0 <= i < items.len() implies #[trigger] items[i]
                    == crate::json::json_same(v[i], w[i]) by {
                    assert(call_ensures(Json::same, (&x@[i], &y@[i]), items[i]));
                }
                if forall|i: int| 0 <= i < items.len() ==> #[trigger] items[i] {
                    assert forall|i: int| 0 <= i < v.len() implies crate::json::json_same(
                        #[trigger] v[i],
                        w[i],
                    ) by {
                        assert(items[i]);
                    }
                }
                if r {
                    assert forall|i: int| 0 <= i < items.len() implies #[trigger] items[i] by {
                        assert(crate::json::json_same(v[i], w[i]));
                    }
                }
            }
        },
        (Json::Object(x), Json::Object(y)) => {
            assert(entries_view(x@).len() == x@.len() && entries_view(y@).len() == y@.len());
        },
        _ => {},
    }
}

/// Objects are equal where they have as many members, and every member of one equals the last of
/// its name in the other; the order does not matter.
pub proof fn lemma_objects_same(
    x: Vec<(String, Json)>,
    y: Vec<(String, Json)>,
    r: bool,
    partners: Seq<int>,
    members: Seq<bool>,
)
    requires
        call_ensures(Json::same, (&Json::Object(x), &Json::Object(y)), r),
        x@.len() == y@.len() == partners.len() == members.len(),
        forall|i: int|
            0 <= i < x@.len() ==> is_last(y@, #[trigger] partners[i]) && y@[partners[i]].0@
                == x@[i].0@,
        forall|i: int|
            0 <= i < x@.len() ==> call_ensures(
                Json::same,
                (&x@[i].1, &y@[partners[i]].1),
                #[trigger] members[i],
            ),
    ensures
        r <==> forall|i: int| 0 <= i < members.len() ==> #[trigger] members[i],
{
    broadcast use lemma_object_view;

    let v = entries_view(x@);
    let w = entries_view(y@);
    assert(v.len() == x@.len() && w.len() == y@.len());
    assert forall|i: int| 0 <= i < x@.len() implies (#[trigger] members[i] <==> (lookup(w, v[i].0)
        matches Some(u) && crate::json::json_same(v[i].1, u))) by {
        let p = partners[i];
        assert(is_last(y@, p) && y@[p].0@ == x@[i].0@);
        assert(call_ensures(Json::same, (&x@[i].1, &y@[p].1), members[i]));
        lemma_key_index(w, v[i].0);
        assert(w[p].0 == v[i].0);
        let k = key_index(w, v[i].0);
        if k > p {
            assert(y@[k].0@ == y@[p].0@);
        }
        assert(k == p);
    }
    if forall|i: int| 0 <= i < members.len() ==> #[trigger] members[i] {
        assert forall|i: int| 0 <= i < v.len() implies (lookup(w, (#[trigger] v[i]).0) matches Some(
            u,
        ) && crate::json::json_same(v[i].1, u)) by {
            assert(members[i]);
        }
    }
    if r {
        assert forall|i: int| 0 <= i < members.len() implies #[trigger] members[i] by {
            assert(lookup(w, v[i].0) matches Some(u) && crate::json::json_same(v[i].1, u));
        }
    }
}

/// A member of a value is that of the object that it is.
pub proof fn lemma_got(json: Json, key: &str, r: Option<&Json>, same: Option<&Json>)
    requires
        call_ensures(Json::get, (&json, key), r),
        json matches Json::Object(e) ==> call_ensures(get_entry, (&e, key), same),
    ensures
        !(json is Object) ==> r is None,
        json is Object ==> (r is Some <==> same is Some),
        json is Object && r is Some ==> r->0@ == same->0@,
{
    broadcast use lemma_object_view;

}

// ---------------------------------------------------------------------------------------------
// Keywords
// ---------------------------------------------------------------------------------------------

/// How keywords are written, and that a name is recognised as a keyword exactly where it is
/// written so.
pub proof fn lemma_keywords(k: Keywords, text: &'static str, name: String, r: Result<Keywords, ()>)
    requires
        call_ensures(Keywords::as_str, (&k,), text),
        call_ensures(Keywords::try_from, (&name,), r),
    ensures
        k == Keywords::MinLength ==> text@ == "minLength"@,
        k == Keywords::MaxLength ==> text@ == "maxLength"@,
        k == Keywords::Minimum ==> text@ == "minimum"@,
        k == Keywords::Maximum ==> text@ == "maximum"@,
        k == Keywords::Constant ==> text@ == "constant"@,
        k == Keywords::Pattern ==> text@ == "pattern"@,
        k == Keywords::DataFile ==> text@ == "dataFile"@,
        r == Ok::<Keywords, ()>(k) <==> name@ == text@,
{
    lemma_keyword_text_inverse(k);
}

/// A constraint that was read under a keyword is written as it was read, and can be read again.
pub proof fn lemma_constraint_back(
    k: Keywords,
    v: Json,
    r: Option<Constraints>,
    written: Json,
    again: Option<Constraints>,
)
    requires
        call_ensures(parse_constraint, (k, &v), r),
        r is Some,
        call_ensures(Constraints::to_json, (&r->0,), written),
        call_ensures(parse_constraint, (k, &written), again),
        v@ matches JsonView::Number(NumberView::NegInt(n)) ==> n < 0,
    ensures
        written@ == v@,
        again is Some && again->0@ == r->0@,
{
}

/// Limits are integers, a pattern is a text that is one, the column of a file is a number from
/// zero on, and anything is a constant.
pub proof fn lemma_constraint_read(
    k: Keywords,
    v: Json,
    r: Option<Constraints>,
    integer: Option<i64>,
    natural: Option<u64>,
    number: Option<i64>,
    text: Option<&str>,
    pattern: Option<&String>,
    value: Option<&Json>,
)
    requires
        call_ensures(parse_constraint, (k, &v), r),
        call_ensures(Json::as_i64, (&v,), integer),
        call_ensures(Json::as_u64, (&v,), natural),
        r matches Some(c) ==> call_ensures(Constraints::as_i64, (&c,), number),
        r matches Some(c) ==> call_ensures(Constraints::as_str, (&c,), text),
        r matches Some(c) ==> call_ensures(Constraints::as_pattern, (&c,), pattern),
        r matches Some(c) ==> call_ensures(Constraints::as_serde_value, (&c,), value),
    ensures
        k == Keywords::MinLength || k == Keywords::MaxLength || k == Keywords::Minimum || k
            == Keywords::Maximum ==> (r is Some <==> integer is Some) && (r is Some ==> number
            == integer),
        k == Keywords::Pattern ==> (r is Some <==> v is String && crate::pattern::pattern_shape(
            v->String_0@,
        ) is Some) && (r is Some ==> pattern is Some && pattern->0@ == v->String_0@ && number is None
            && text is None),
        k == Keywords::DataFile ==> (r is Some <==> natural is Some) && (r is Some ==> r->0@
            == ConstraintView::DataFile(natural->0)),
        k == Keywords::Constant ==> r is Some,
        k == Keywords::Constant && integer is Some ==> number == integer && text is None
            && value is None,
        k == Keywords::Constant && v is String ==> text is Some && text->0@ == v->String_0@
            && number is None,
        k == Keywords::Constant && integer is None && !(v is String) ==> value is Some
            && value->0@ == v@ && number is None && text is None,
        r is Some && k != Keywords::Pattern ==> pattern is None,
{
}

/// A constraint is found under the keyword that it was put under, and under no other.
pub proof fn lemma_constraint_kept(
    made: ConstraintSet,
    set: &mut ConstraintSet,
    k: Keywords,
    c: Constraints,
    other: Keywords,
    empty: Option<&Constraints>,
    before: Option<&Constraints>,
    after: Option<&Constraints>,
)
    requires
        call_ensures(ConstraintSet::new, (), made),
        call_ensures(ConstraintSet::get, (&made, &other), empty),
        call_ensures(ConstraintSet::get, (&*old(set), &other), before),
        call_ensures(ConstraintSet::insert, (set, k, c), ()),
        call_ensures(ConstraintSet::get, (&*final(set), &other), after),
    ensures
        empty is None,
        other == k ==> after is Some && after->0@ == c@,
        other != k ==> (after is Some <==> before is Some),
        other != k && after is Some ==> after->0@ == before->0@,
{
}

// ---------------------------------------------------------------------------------------------
// Maps
// ---------------------------------------------------------------------------------------------

/// A map has as many entries as are counted, is empty where there are none, and gives under a key
/// what stands there.
pub proof fn lemma_map_read<T>(
    map: TextMap<T>,
    none: TextMap<T>,
    i: usize,
    key: &str,
    len: usize,
    empty: bool,
    entry: (&str, &T),
    found: Option<&T>,
)
    requires
        map.wf(),
        i < map.entries().len(),
        call_ensures(TextMap::<T>::new, (), none),
        call_ensures(TextMap::<T>::len, (&map,), len),
        call_ensures(TextMap::<T>::is_empty, (&map,), empty),
        call_ensures(TextMap::<T>::entry, (&map, i), entry),
        key@ == entry.0@,
        call_ensures(TextMap::<T>::get, (&map, key), found),
    ensures
        none.entries().len() == 0,
        len == map.entries().len(),
        !empty,
        (entry.0@, *entry.1) == map.entries()[i as int],
        found is Some && *found->0 == *entry.1,
{
    crate::json::lemma_unique_index(map.entries(), i as int);
}

/// A key that no entry has gives nothing.
pub proof fn lemma_map_miss<T>(map: TextMap<T>, key: &str, found: Option<&T>)
    requires
        forall|i: int| 0 <= i < map.entries().len() ==> (#[trigger] map.entries()[i]).0 != key@,
        call_ensures(TextMap::<T>::get, (&map, key), found),
    ensures
        found is None,
{
    lemma_key_index(map.entries(), key@);
}

/// A copy of a map has the same entries.
pub proof fn lemma_map_copied(map: TextMap<String>, copy: TextMap<String>, other: TextMap<String>)
    requires
        call_ensures(TextMap::<String>::copied, (&map,), copy),
        call_ensures(TextMap::<String>::clone, (&map,), other),
    ensures
        copy.entries() == map.entries(),
        other.entries() == map.entries(),
{
}

} // verus!
