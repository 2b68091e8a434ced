//! Laws of schema documents: which of them are schemas, what is wrong with the others, and that a
//! schema that is written is read again.

use vstd::prelude::*;

use crate::generate_laws::whole;
use crate::json::{
    key_index, lemma_get_decreases, lemma_key_index, lookup, view_get, Json, JsonView,
    NumberView,
};
use crate::keywords::{
    constraint_i64, constraint_of, keyword_of, keyword_text, lemma_keyword_of_text,
    lemma_keyword_text_inverse, Keywords,
};
use crate::pattern::pattern_shape;
use crate::schema::{
    constraints_of, constraints_suit, data_schema_from_value, data_value_from_schema,
    properties_schema, property_constraints, property_schema, schema_of_value, DataSchema,
    SchemaError, SchemaErrorView, KEY_FOR_KEYLESS_SCHEMAS,
};
use crate::schema_laws::{items_known, lemma_read_write_read, well_formed};
use crate::serde_bridge::{json_text_of, quoted_text};

verus! {

/// The value of a member suits its name, where its name says what is allowed.
pub open spec fn suits_name(name: Seq<char>, v: JsonView) -> bool {
    &&& name == "minLength"@ || name == "maxLength"@ || name == "minimum"@ || name == "maximum"@
        ==> whole(v) is Some
    &&& name == "pattern"@ ==> v is String && pattern_shape(v->String_0) is Some
    &&& name == "dataFile"@ ==> v matches JsonView::Number(NumberView::PosInt(_))
}

/// Two limits are both there, in order, or neither is.
pub open spec fn in_order(v: JsonView, low: Seq<char>, high: Seq<char>) -> bool {
    match (view_get(v, low), view_get(v, high)) {
        (None, None) => true,
        (Some(a), Some(b)) => whole(a) is Some && whole(b) is Some && whole(a)->0 <= whole(b)->0,
        _ => false,
    }
}

/// The limits of a property can be understood and met.
pub open spec fn sound(v: JsonView) -> bool {
    &&& v is Object
    &&& forall|i: int|
        0 <= i < v->Object_0.len() ==> suits_name(
            (#[trigger] v->Object_0[i]).0,
            v->Object_0[i].1,
        )
    &&& in_order(v, "minimum"@, "maximum"@)
    &&& in_order(v, "minLength"@, "maxLength"@)
}

/// A property that is understood: it names its type; an object says what is in it, an array says
/// what its items are, and limits are sound. Of other types nothing is asked.
pub open spec fn understood(v: JsonView) -> bool
    decreases v,
{
    match view_get(v, "type"@) {
        Some(JsonView::String(kind)) => if kind == "object"@ {
            match view_get(v, "properties"@) {
                Some(JsonView::Object(inner)) => {
                    proof {
                        lemma_get_decreases(v, "properties"@);
                    }
                    all_understood(inner)
                },
                Some(_) => false,
                None => view_get(v, "constant"@) is Some,
            }
        } else if kind == "array"@ {
            match view_get(v, "items"@) {
                Some(item) => {
                    proof {
                        lemma_get_decreases(v, "items"@);
                    }
                    understood(item) && sound(v)
                },
                None => false,
            }
        } else if kind == "string"@ || kind == "integer"@ {
            sound(v)
        } else {
            true
        },
        _ => false,
    }
}

/// Every property of an object is understood.
pub open spec fn all_understood(e: Seq<(Seq<char>, JsonView)>) -> bool
    decreases e,
{
    forall|i: int| 0 <= i < e.len() ==> understood((#[trigger] e[i]).1)
}

proof fn lemma_suits(name: Seq<char>, v: JsonView)
    ensures
        suits_name(name, v) <==> (keyword_of(name) matches Some(k) ==> constraint_of(k, v) is Some),
{
    lemma_keyword_of_text(name);
    lemma_keyword_text_inverse(Keywords::MinLength);
    lemma_keyword_text_inverse(Keywords::MaxLength);
    lemma_keyword_text_inverse(Keywords::Minimum);
    lemma_keyword_text_inverse(Keywords::Maximum);
    lemma_keyword_text_inverse(Keywords::Constant);
    lemma_keyword_text_inverse(Keywords::Pattern);
    lemma_keyword_text_inverse(Keywords::DataFile);
}

proof fn lemma_limit(e: Seq<(Seq<char>, JsonView)>, k: Keywords)
    requires
        constraints_suit(e),
        k == Keywords::MinLength || k == Keywords::MaxLength || k == Keywords::Minimum || k
            == Keywords::Maximum,
    ensures
        constraints_of(e).contains_key(k) <==> lookup(e, keyword_text(k)) is Some,
        constraints_of(e).contains_key(k) ==> ({
            let v = lookup(e, keyword_text(k))->0;
            &&& whole(v) is Some
            &&& constraint_i64(constraints_of(e)[k]) matches Some(n) && n == whole(v)->0
        }),
{
    let name = keyword_text(k);
    lemma_keyword_text_inverse(k);
    lemma_key_index(e, name);
    let i = key_index(e, name);
    if i >= 0 {
        assert(keyword_of(e[i].0) == Some(k));
        assert(constraint_of(k, e[i].1) is Some);
    }
}

proof fn lemma_sound(v: JsonView)
    ensures
        property_constraints(v) is Ok <==> sound(v),
{
    if let JsonView::Object(e) = v {
        assert(constraints_suit(e) <==> forall|i: int|
            0 <= i < e.len() ==> suits_name((#[trigger] e[i]).0, e[i].1)) by {
            assert forall|i: int| 0 <= i < e.len() implies (suits_name((#[trigger] e[i]).0, e[i].1)
                <==> (keyword_of(e[i].0) matches Some(k) ==> constraint_of(k, e[i].1) is Some)) by {
                lemma_suits(e[i].0, e[i].1);
            }
        }
        if constraints_suit(e) {
            lemma_limit(e, Keywords::MinLength);
            lemma_limit(e, Keywords::MaxLength);
            lemma_limit(e, Keywords::Minimum);
            lemma_limit(e, Keywords::Maximum);
        }
    }
}

proof fn lemma_understood(key: Seq<char>, v: JsonView)
    ensures
        property_schema(key, v) is Ok <==> understood(v),
    decreases v,
{
    reveal_strlit("object");
    reveal_strlit("string");
    reveal_strlit("integer");
    reveal_strlit("array");
    assert("object"@.len() == 6 && "string"@.len() == 6 && "object"@[0] != "string"@[0]);
    assert("integer"@.len() == 7 && "array"@.len() == 5);
    lemma_sound(v);
    if let Some(JsonView::String(kind)) = view_get(v, "type"@) {
        if kind == "object"@ {
            if let Some(JsonView::Object(inner)) = view_get(v, "properties"@) {
                lemma_get_decreases(v, "properties"@);
                lemma_all_understood(inner);
            }
        } else if kind == "array"@ {
            if let Some(item) = view_get(v, "items"@) {
                lemma_get_decreases(v, "items"@);
                lemma_understood(KEY_FOR_KEYLESS_SCHEMAS@, item);
            }
        }
    }
}

proof fn lemma_all_understood(e: Seq<(Seq<char>, JsonView)>)
    ensures
        properties_schema(e) is Ok <==> all_understood(e),
    decreases e,
{
    if e.len() > 0 {
        let front = e.drop_last();
        let last = e.last();
        assert(decreases_to!(e => e[e.len() - 1]));
        lemma_understood(last.0, last.1);
        lemma_all_understood(front);
        if all_understood(e) {
            assert forall|i: int| 0 <= i < front.len() implies understood(
                (#[trigger] front[i]).1,
            ) by {
                assert(understood(e[i].1));
            }
            assert(understood(e[e.len() - 1].1));
        }
        if all_understood(front) && understood(last.1) {
            assert forall|i: int| 0 <= i < e.len() implies understood((#[trigger] e[i]).1) by {
                if i < front.len() {
                    assert(understood(front[i].1));
                }
            }
        }
    }
}

/// A document is a schema exactly where it has an object of properties that are all understood.
pub proof fn lemma_accepted(document: Json, r: Result<DataSchema, SchemaError>)
    requires
        call_ensures(data_schema_from_value, (&document,), r),
    ensures
        r is Ok <==> (view_get(document@, "properties"@) matches Some(JsonView::Object(e))
            && all_understood(e)),
        r == Err::<DataSchema, SchemaError>(SchemaError::PropertiesNotFound) <== !(view_get(
            document@,
            "properties"@,
        ) matches Some(JsonView::Object(e))),
        r matches Ok(s) ==> s matches DataSchema::Object(None, _),
{
    broadcast use {
        crate::schema::lemma_object_schema_view,
        crate::schema::lemma_array_schema_view,
    };

    if let Some(JsonView::Object(e)) = view_get(document@, "properties"@) {
        lemma_all_understood(e);
    }
}

proof fn lemma_first_fault(e: Seq<(Seq<char>, JsonView)>, i: int)
    requires
        0 <= i < e.len(),
        forall|j: int| 0 <= j < i ==> understood((#[trigger] e[j]).1),
        !understood(e[i].1),
    ensures
        properties_schema(e) is Err,
        property_schema(e[i].0, e[i].1) is Err,
        properties_schema(e)->Err_0 == property_schema(e[i].0, e[i].1)->Err_0,
    decreases e.len(),
{
    let front = e.drop_last();
    lemma_understood(e[i].0, e[i].1);
    if i < e.len() - 1 {
        assert(front[i] == e[i]);
        assert forall|j: int| 0 <= j < i implies understood((#[trigger] front[j]).1) by {
            assert(understood(e[j].1));
        }
        lemma_first_fault(front, i);
    } else {
        assert(all_understood(front)) by {
            assert forall|j: int| 0 <= j < front.len() implies understood(
                (#[trigger] front[j]).1,
            ) by {
                assert(understood(e[j].1));
            }
        }
        lemma_all_understood(front);
    }
}

/// The first property that is not understood is what is wrong with a document: one without a type
/// and one without what its type needs are named, and limits that cannot be met are shown.
#[verifier::rlimit(40)]
pub proof fn lemma_refused(document: Json, i: int, r: Result<DataSchema, SchemaError>)
    requires
        call_ensures(data_schema_from_value, (&document,), r),
        view_get(document@, "properties"@) matches Some(JsonView::Object(e)) && 0 <= i < e.len()
            && !understood(e[i].1) && forall|j: int|
            0 <= j < i ==> understood((#[trigger] e[j]).1),
    ensures
        ({
            let (name, v) = view_get(document@, "properties"@)->0->Object_0[i];
            let kind = view_get(v, "type"@);
            &&& r is Err
            &&& !(kind is Some && kind->0 is String) ==> r->Err_0@ == SchemaErrorView::TypeNotFound(
                name,
            )
            &&& kind == Some(JsonView::String("array"@)) && view_get(v, "items"@) is None
                ==> r->Err_0@ == SchemaErrorView::ItemsNotFound(name)
            &&& kind == Some(JsonView::String("object"@)) && view_get(v, "properties"@) is Some
                && !(view_get(v, "properties"@)->0 is Object) ==> r->Err_0@
                == SchemaErrorView::ObjectPropertiesNotFound(name)
            &&& kind == Some(JsonView::String("object"@)) && view_get(v, "properties"@) is None
                ==> r->Err_0@ == SchemaErrorView::ObjectWithoutContent
            &&& (kind == Some(JsonView::String("string"@)) || kind == Some(
                JsonView::String("integer"@),
            )) ==> r->Err_0@ == limits_fault(v)
        }),
{
    let e = view_get(document@, "properties"@)->0->Object_0;
    lemma_first_fault(e, i);
    let (name, v) = e[i];
    reveal_strlit("object");
    reveal_strlit("string");
    reveal_strlit("integer");
    reveal_strlit("array");
    assert("object"@.len() == 6 && "string"@.len() == 6 && "object"@[0] != "string"@[0]);
    assert("integer"@.len() == 7 && "array"@.len() == 5);
    if view_get(v, "type"@) == Some(JsonView::String("string"@)) || view_get(v, "type"@) == Some(
        JsonView::String("integer"@),
    ) {
        lemma_sound(v);
        lemma_limits_fault(v);
    }
}

/// What is wrong with limits that are not sound: a value that does not suit its name, then the
/// range of numbers, then that of lengths.
pub open spec fn limits_fault(v: JsonView) -> SchemaErrorView {
    if !(v is Object) || exists|i: int|
        0 <= i < v->Object_0.len() && !suits_name((#[trigger] v->Object_0[i]).0, v->Object_0[i].1) {
        SchemaErrorView::InvalidConstraints(v)
    } else if (view_get(v, "minimum"@) is Some) != (view_get(v, "maximum"@) is Some) {
        SchemaErrorView::RangeIncomplete(v)
    } else if !in_order(v, "minimum"@, "maximum"@) {
        SchemaErrorView::RangeInverted(v)
    } else if (view_get(v, "minLength"@) is Some) != (view_get(v, "maxLength"@) is Some) {
        SchemaErrorView::LengthIncomplete(v)
    } else {
        SchemaErrorView::LengthInverted(v)
    }
}

proof fn lemma_limits_fault(v: JsonView)
    requires
        !sound(v),
    ensures
        property_constraints(v) is Err,
        property_constraints(v)->Err_0 == limits_fault(v),
{
    lemma_sound(v);
    if let JsonView::Object(e) = v {
        assert(constraints_suit(e) <==> forall|i: int|
            0 <= i < e.len() ==> suits_name((#[trigger] e[i]).0, e[i].1)) by {
            assert forall|i: int| 0 <= i < e.len() implies (suits_name((#[trigger] e[i]).0, e[i].1)
                <==> (keyword_of(e[i].0) matches Some(k) ==> constraint_of(k, e[i].1) is Some)) by {
                lemma_suits(e[i].0, e[i].1);
            }
        }
        if constraints_suit(e) {
            lemma_limit(e, Keywords::MinLength);
            lemma_limit(e, Keywords::MaxLength);
            lemma_limit(e, Keywords::Minimum);
            lemma_limit(e, Keywords::Maximum);
        }
    }
}

/// The messages of errors name the property, or show it.
pub proof fn lemma_messages(e: SchemaError, r: String)
    requires
        call_ensures(SchemaError::message, (&e,), r),
    ensures
        match e {
            SchemaError::PropertiesNotFound => r@ == "properties not found"@,
            SchemaError::TypeNotFound(k) => r@ == "type not found for "@ + k@,
            SchemaError::ObjectPropertiesNotFound(k) => r@ == "object properties not found for : "@
                + k@,
            SchemaError::ObjectWithoutContent => r@ == "object should have properties or constant"@,
            SchemaError::ItemsNotFound(k) => r@ == "array items not found for : "@ + k@,
            SchemaError::InvalidConstraints(v) => r@ == "invalid constraints: "@ + quoted_text(
                json_text_of(v@),
            ),
            SchemaError::RangeIncomplete(v) => r@
                == "requires both minimum & maximum constraints - "@ + json_text_of(v@),
            SchemaError::RangeInverted(v) => r@ == "invalid constraints - minimum > maximum - "@
                + json_text_of(v@),
            SchemaError::LengthIncomplete(v) => r@
                == "requires both minLength & maxLength constraints - "@ + json_text_of(v@),
            SchemaError::LengthInverted(v) => r@
                == "invalid constraints - minLength > maxLength - "@ + json_text_of(v@),
        },
{
}

/// A schema that was read from a document and written is read again as the same schema.
pub proof fn lemma_written_and_read(
    document: Json,
    first: Result<DataSchema, SchemaError>,
    written: Json,
    again: Result<DataSchema, SchemaError>,
)
    requires
        well_formed(document@),
        call_ensures(DataSchema::try_from, (document,), first),
        first is Ok,
        items_known(first->Ok_0@),
        call_ensures(DataSchema::into_value, (first->Ok_0,), written),
        call_ensures(DataSchema::try_from, (written,), again),
    ensures
        again is Ok,
        again->Ok_0@ == first->Ok_0@,
        view_get(written@, "properties"@) is Some,
{
    lemma_read_write_read(document@);
    let s = first->Ok_0@;
    assert(schema_of_value(written@) == schema_of_value(document@));
}

/// Writing a schema through a reference gives the same document.
pub proof fn lemma_written_same(schema: DataSchema, a: Json, b: Json)
    requires
        schema@ is Object ==> crate::schema::named(schema@->Object_1),
        call_ensures(DataSchema::into_value, (schema,), a),
        call_ensures(data_value_from_schema, (&schema,), b),
    ensures
        a@ == b@,
        !(schema@ is Object) ==> a@ == JsonView::String("{}"@),
{
}

/// The properties of an object are its schemas, in order; nothing else has any.
pub proof fn lemma_schema_data(schema: DataSchema, r: Option<&Vec<DataSchema>>, copy: DataSchema)
    requires
        call_ensures(DataSchema::data, (&schema,), r),
        call_ensures(DataSchema::clone, (&schema,), copy),
    ensures
        r is Some <==> schema@ is Object,
        r matches Some(list) ==> schema@->Object_1 == crate::schema::schemas_view(list@),
        copy@ == schema@,
{
}

} // verus!
