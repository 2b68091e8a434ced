//! Data schemas: what random data looks like, read from and written as JSON.

use vstd::prelude::*;

use crate::json::{
    entries_view, get_entry, lemma_get_decreases, lemma_key_index, lemma_object_view, lookup,
    put_entry, set_entry, view_get, view_object, Json, JsonView,
};
use crate::keywords::{
    constraint_i64, constraint_of, constraint_value, keyword_of, keyword_text,
    lemma_keyword_of_text, lemma_keyword_text_inverse, parse_constraint, ConstraintSet,
    ConstraintView, Constraints, Keywords,
};
use crate::serde_bridge::{json_text, json_text_of, quoted, quoted_text};
use crate::text::{join2, same_text};

verus! {

/// The name under which the schema of an array's items stands.
pub const KEY_FOR_KEYLESS_SCHEMAS: &'static str = "__";

/// The shape of random data.
#[derive(Debug)]
pub enum DataSchema {
    Empty,
    String(String, ConstraintSet),
    Integer(String, ConstraintSet),
    Object(Option<String>, Vec<DataSchema>),
    ConstantObject(Option<String>, ConstraintSet),
    Array(Option<String>, Vec<DataSchema>, ConstraintSet),
}

/// What a [`DataSchema`] is.
pub enum SchemaView {
    Empty,
    String(Seq<char>, Map<Keywords, ConstraintView>),
    Integer(Seq<char>, Map<Keywords, ConstraintView>),
    Object(Option<Seq<char>>, Seq<SchemaView>),
    ConstantObject(Option<Seq<char>>, Map<Keywords, ConstraintView>),
    Array(Option<Seq<char>>, Seq<SchemaView>, Map<Keywords, ConstraintView>),
}

pub open spec fn name_view(name: Option<String>) -> Option<Seq<char>> {
    match name {
        Some(n) => Some(n@),
        None => None,
    }
}

pub open spec fn schema_view(s: DataSchema) -> SchemaView
    decreases s,
{
    match s {
        DataSchema::Empty => SchemaView::Empty,
        DataSchema::String(k, c) => SchemaView::String(k@, c@),
        DataSchema::Integer(k, c) => SchemaView::Integer(k@, c@),
        DataSchema::Object(k, v) => SchemaView::Object(
            name_view(k),
            Seq::new(
                v@.len(),
                |i: int|
                    if 0 <= i < v@.len() {
                        schema_view(v@[i])
                    } else {
                        SchemaView::Empty
                    },
            ),
        ),
        DataSchema::ConstantObject(k, c) => SchemaView::ConstantObject(name_view(k), c@),
        DataSchema::Array(k, v, c) => SchemaView::Array(
            name_view(k),
            Seq::new(
                v@.len(),
                |i: int|
                    if 0 <= i < v@.len() {
                        schema_view(v@[i])
                    } else {
                        SchemaView::Empty
                    },
            ),
            c@,
        ),
    }
}

impl View for DataSchema {
    type V = SchemaView;

    open spec fn view(&self) -> SchemaView {
        schema_view(*self)
    }
}

/// The schemas of a list, viewed.
pub open spec fn schemas_view(v: Seq<DataSchema>) -> Seq<SchemaView> {
    Seq::new(v.len(), |i: int| schema_view(v[i]))
}

pub broadcast proof fn lemma_object_schema_view(k: Option<String>, v: Vec<DataSchema>)
    ensures
        #[trigger] schema_view(DataSchema::Object(k, v)) == SchemaView::Object(
            name_view(k),
            schemas_view(v@),
        ),
{
    assert(schema_view(DataSchema::Object(k, v))->Object_1 =~= schemas_view(v@));
}

pub broadcast proof fn lemma_array_schema_view(
    k: Option<String>,
    v: Vec<DataSchema>,
    c: ConstraintSet,
)
    ensures
        #[trigger] schema_view(DataSchema::Array(k, v, c)) == SchemaView::Array(
            name_view(k),
            schemas_view(v@),
            c@,
        ),
{
    assert(schema_view(DataSchema::Array(k, v, c))->Array_1 =~= schemas_view(v@));
}

impl DataSchema {
    /// A copy of the schema.
    fn copied(&self) -> (r: DataSchema)
        ensures
            r@ == self@,
        decreases *self,
    {
        broadcast use {lemma_object_schema_view, lemma_array_schema_view};

        match self {
            DataSchema::Empty => DataSchema::Empty,
            DataSchema::String(k, c) => DataSchema::String(k.clone(), c.clone()),
            DataSchema::Integer(k, c) => DataSchema::Integer(k.clone(), c.clone()),
            DataSchema::Object(k, v) => {
                assert(decreases_to!(*self => (*self)->Object_1));
                DataSchema::Object(copied_name(k), copied_list(v))
            },
            DataSchema::ConstantObject(k, c) => DataSchema::ConstantObject(
                copied_name(k),
                c.clone(),
            ),
            DataSchema::Array(k, v, c) => {
                assert(decreases_to!(*self => (*self)->Array_1));
                DataSchema::Array(copied_name(k), copied_list(v), c.clone())
            },
        }
    }
}

fn copied_name(name: &Option<String>) -> (r: Option<String>)
    ensures
        name_view(r) == name_view(*name),
{
    match name {
        Some(n) => Some(n.clone()),
        None => None,
    }
}

fn copied_list(list: &Vec<DataSchema>) -> (r: Vec<DataSchema>)
    ensures
        schemas_view(r@) == schemas_view(list@),
    decreases *list,
{
    let mut r: Vec<DataSchema> = Vec::new();
    let mut i: usize = 0;
    while i < list.len()
        invariant
            i <= list@.len(),
            r@.len() == i,
            forall|j: int| 0 <= j < i ==> schema_view(#[trigger] r@[j]) == schema_view(list@[j]),
        decreases list@.len() - i,
    {
        let schema = list[i].copied();
        r.push(schema);
        i += 1;
    }
    assert(schemas_view(r@) =~= schemas_view(list@));
    r
}

impl Clone for DataSchema {
    fn clone(&self) -> (r: DataSchema)
        ensures
            r@ == self@,
    {
        self.copied()
    }
}

impl Default for DataSchema {
    fn default() -> (r: DataSchema)
        ensures
            r@ == SchemaView::Empty,
    {
        DataSchema::Empty
    }
}

/// Why a JSON value is no data schema.
#[derive(Debug)]
pub enum SchemaError {
    /// The value has no object `properties`.
    PropertiesNotFound,
    /// The named property has no `type`.
    TypeNotFound(String),
    /// The `properties` of the named object are no object.
    ObjectPropertiesNotFound(String),
    /// An object has neither `properties` nor `constant`.
    ObjectWithoutContent,
    /// The named array has no `items`.
    ItemsNotFound(String),
    /// A keyword of the property has a value that does not suit it.
    InvalidConstraints(Json),
    /// Only one of `minimum` and `maximum` is there.
    RangeIncomplete(Json),
    /// `minimum` is above `maximum`.
    RangeInverted(Json),
    /// Only one of `minLength` and `maxLength` is there.
    LengthIncomplete(Json),
    /// `minLength` is above `maxLength`.
    LengthInverted(Json),
}

/// What a [`SchemaError`] is.
pub enum SchemaErrorView {
    PropertiesNotFound,
    TypeNotFound(Seq<char>),
    ObjectPropertiesNotFound(Seq<char>),
    ObjectWithoutContent,
    ItemsNotFound(Seq<char>),
    InvalidConstraints(JsonView),
    RangeIncomplete(JsonView),
    RangeInverted(JsonView),
    LengthIncomplete(JsonView),
    LengthInverted(JsonView),
}

impl View for SchemaError {
    type V = SchemaErrorView;

    open spec fn view(&self) -> SchemaErrorView {
        match self {
            SchemaError::PropertiesNotFound => SchemaErrorView::PropertiesNotFound,
            SchemaError::TypeNotFound(k) => SchemaErrorView::TypeNotFound(k@),
            SchemaError::ObjectPropertiesNotFound(k) => SchemaErrorView::ObjectPropertiesNotFound(
                k@,
            ),
            SchemaError::ObjectWithoutContent => SchemaErrorView::ObjectWithoutContent,
            SchemaError::ItemsNotFound(k) => SchemaErrorView::ItemsNotFound(k@),
            SchemaError::InvalidConstraints(v) => SchemaErrorView::InvalidConstraints(v@),
            SchemaError::RangeIncomplete(v) => SchemaErrorView::RangeIncomplete(v@),
            SchemaError::RangeInverted(v) => SchemaErrorView::RangeInverted(v@),
            SchemaError::LengthIncomplete(v) => SchemaErrorView::LengthIncomplete(v@),
            SchemaError::LengthInverted(v) => SchemaErrorView::LengthInverted(v@),
        }
    }
}

/// The message of an error.
pub open spec fn error_text(e: SchemaErrorView) -> Seq<char> {
    match e {
        SchemaErrorView::PropertiesNotFound => "properties not found"@,
        SchemaErrorView::TypeNotFound(k) => "type not found for "@ + k,
        SchemaErrorView::ObjectPropertiesNotFound(k) => "object properties not found for : "@ + k,
        SchemaErrorView::ObjectWithoutContent => "object should have properties or constant"@,
        SchemaErrorView::ItemsNotFound(k) => "array items not found for : "@ + k,
        SchemaErrorView::InvalidConstraints(v) => "invalid constraints: "@ + quoted_text(
            json_text_of(v),
        ),
        SchemaErrorView::RangeIncomplete(v) => "requires both minimum & maximum constraints - "@
            + json_text_of(v),
        SchemaErrorView::RangeInverted(v) => "invalid constraints - minimum > maximum - "@
            + json_text_of(v),
        SchemaErrorView::LengthIncomplete(v) => "requires both minLength & maxLength constraints - "@
            + json_text_of(v),
        SchemaErrorView::LengthInverted(v) => "invalid constraints - minLength > maxLength - "@
            + json_text_of(v),
    }
}

impl SchemaError {
    /// The message of the error.
    pub fn message(&self) -> (r: String)
        ensures
            r@ == error_text(self@),
    {
        match self {
            SchemaError::PropertiesNotFound => "properties not found".to_owned(),
            SchemaError::TypeNotFound(k) => join2("type not found for ", k.as_str()),
            SchemaError::ObjectPropertiesNotFound(k) => join2(
                "object properties not found for : ",
                k.as_str(),
            ),
            SchemaError::ObjectWithoutContent =>
                "object should have properties or constant".to_owned(),
            SchemaError::ItemsNotFound(k) => join2("array items not found for : ", k.as_str()),
            SchemaError::InvalidConstraints(v) => join2(
                "invalid constraints: ",
                quoted(json_text(v).as_str()).as_str(),
            ),
            SchemaError::RangeIncomplete(v) => join2(
                "requires both minimum & maximum constraints - ",
                json_text(v).as_str(),
            ),
            SchemaError::RangeInverted(v) => join2(
                "invalid constraints - minimum > maximum - ",
                json_text(v).as_str(),
            ),
            SchemaError::LengthIncomplete(v) => join2(
                "requires both minLength & maxLength constraints - ",
                json_text(v).as_str(),
            ),
            SchemaError::LengthInverted(v) => join2(
                "invalid constraints - minLength > maxLength - ",
                json_text(v).as_str(),
            ),
        }
    }
}

// ---------------------------------------------------------------------------------------------
// Constraints of one property
// ---------------------------------------------------------------------------------------------

/// Every member that is named by a keyword has a value that suits the keyword.
pub open spec fn constraints_suit(entries: Seq<(Seq<char>, JsonView)>) -> bool {
    forall|i: int|
        0 <= i < entries.len() ==> (keyword_of((#[trigger] entries[i]).0) matches Some(k)
            ==> constraint_of(k, entries[i].1) is Some)
}

/// The constraints that the members of a property express.
pub open spec fn constraints_of(entries: Seq<(Seq<char>, JsonView)>) -> Map<
    Keywords,
    ConstraintView,
> {
    Map::new(
        |k: Keywords|
            lookup(entries, keyword_text(k)) matches Some(v) && constraint_of(k, v) is Some,
        |k: Keywords| constraint_of(k, lookup(entries, keyword_text(k))->0)->0,
    )
}

/// `a < b`, where no number is less than any number.
pub open spec fn limit_below(a: Option<i64>, b: Option<i64>) -> bool {
    match (a, b) {
        (Some(x), Some(y)) => x < y,
        (None, Some(_)) => true,
        _ => false,
    }
}

/// Why a set of constraints contradicts itself, if it does.
pub open spec fn constraints_fault(
    c: Map<Keywords, ConstraintView>,
    property: JsonView,
) -> Option<SchemaErrorView> {
    if c.contains_key(Keywords::Minimum) != c.contains_key(Keywords::Maximum) {
        Some(SchemaErrorView::RangeIncomplete(property))
    } else if c.contains_key(Keywords::Minimum) && limit_below(
        constraint_i64(c[Keywords::Maximum]),
        constraint_i64(c[Keywords::Minimum]),
    ) {
        Some(SchemaErrorView::RangeInverted(property))
    } else if c.contains_key(Keywords::MinLength) != c.contains_key(Keywords::MaxLength) {
        Some(SchemaErrorView::LengthIncomplete(property))
    } else if c.contains_key(Keywords::MinLength) && limit_below(
        constraint_i64(c[Keywords::MaxLength]),
        constraint_i64(c[Keywords::MinLength]),
    ) {
        Some(SchemaErrorView::LengthInverted(property))
    } else {
        None
    }
}

/// The constraints of a property, or why it has none.
pub open spec fn property_constraints(property: JsonView) -> Result<
    Map<Keywords, ConstraintView>,
    SchemaErrorView,
> {
    match view_object(property) {
        None => Err(SchemaErrorView::InvalidConstraints(property)),
        Some(entries) => if !constraints_suit(entries) {
            Err(SchemaErrorView::InvalidConstraints(property))
        } else {
            match constraints_fault(constraints_of(entries), property) {
                Some(e) => Err(e),
                None => Ok(constraints_of(entries)),
            }
        },
    }
}

/// `Option<i64>`'s order.
fn less(a: Option<i64>, b: Option<i64>) -> (r: bool)
    ensures
        r == limit_below(a, b),
{
    match (a, b) {
        (Some(x), Some(y)) => x < y,
        (None, Some(_)) => true,
        _ => false,
    }
}

/// Reads the constraints of a property; none where a keyword has a value that does not suit it.
fn parse_constraints(property: &Json) -> (r: Option<ConstraintSet>)
    ensures
        match r {
            Some(c) => view_object(property@) matches Some(entries) && constraints_suit(entries)
                && c@ == constraints_of(entries),
            None => view_object(property@) matches Some(entries) ==> !constraints_suit(entries),
        },
{
    let entries = match property.as_object() {
        Some(e) => e,
        None => return None,
    };
    let ghost view = entries_view(entries@);
    let mut constraints = ConstraintSet::new();
    let mut i: usize = 0;
    proof {
        assert(view.take(0) =~= Seq::empty());
        assert(constraints@ =~= constraints_of(view.take(0)));
    }
    while i < entries.len()
        invariant
            i <= entries@.len(),
            view == entries_view(entries@),
            property@ == JsonView::Object(view),
            constraints_suit(view.take(i as int)),
            constraints@ == constraints_of(view.take(i as int)),
        decreases entries@.len() - i,
    {
        let ghost done = view.take(i as int);
        let ghost next = view.take(i + 1);
        let ghost entry = view[i as int];
        proof {
            assert(next.drop_last() =~= done);
            assert(next.last() == entry);
        }
        match Keywords::try_from(&entries[i].0) {
            Ok(keyword) => match parse_constraint(keyword, &entries[i].1) {
                Some(c) => {
                    constraints.insert(keyword, c);
                    proof {
                        lemma_keyword_of_text(entry.0);
                        lemma_keyword_text_inverse(keyword);
                        assert forall|k: Keywords| #[trigger]
                            lookup(next, keyword_text(k)) == (if k == keyword {
                            Some(entry.1)
                        } else {
                            lookup(done, keyword_text(k))
                        }) by {
                            lemma_keyword_text_inverse(k);
                            lemma_key_index(done, keyword_text(k));
                        }
                        assert(constraints@ =~= constraints_of(next));
                        assert(constraints_suit(next)) by {
                            assert forall|j: int| 0 <= j < next.len() implies (keyword_of(
                                (#[trigger] next[j]).0,
                            ) matches Some(k) ==> constraint_of(k, next[j].1) is Some) by {
                                if j < i {
                                    assert(done[j] == next[j]);
                                }
                            }
                        }
                    }
                },
                None => {
                    assert(keyword_of(view[i as int].0) == Some(keyword));
                    return None;
                },
            },
            Err(_) => {
                proof {
                    assert forall|k: Keywords| #[trigger]
                        lookup(next, keyword_text(k)) == lookup(done, keyword_text(k)) by {
                        lemma_keyword_text_inverse(k);
                        lemma_key_index(done, keyword_text(k));
                    }
                    assert(constraints@ =~= constraints_of(next));
                    assert(constraints_suit(next)) by {
                        assert forall|j: int| 0 <= j < next.len() implies (keyword_of(
                            (#[trigger] next[j]).0,
                        ) matches Some(k) ==> constraint_of(k, next[j].1) is Some) by {
                            if j < i {
                                assert(done[j] == next[j]);
                            }
                        }
                    }
                }
            },
        }
        i += 1;
    }
    assert(view.take(i as int) =~= view);
    Some(constraints)
}

/// Checks that lower and upper limits come in pairs and in order.
fn validate_constraints(constraints: &ConstraintSet, properties: &Json) -> (r: Result<
    (),
    SchemaError,
>)
    ensures
        match r {
            Ok(_) => constraints_fault(constraints@, properties@) is None,
            Err(e) => constraints_fault(constraints@, properties@) == Some(e@),
        },
{
    let min = constraints.get(&Keywords::Minimum);
    let max = constraints.get(&Keywords::Maximum);
    if min.is_some() != max.is_some() {
        return Err(SchemaError::RangeIncomplete(properties.clone()));
    }
    if let Some(min) = min {
        if let Some(max) = max {
            if less(max.as_i64(), min.as_i64()) {
                return Err(SchemaError::RangeInverted(properties.clone()));
            }
        }
    }
    let min = constraints.get(&Keywords::MinLength);
    let max = constraints.get(&Keywords::MaxLength);
    if min.is_some() != max.is_some() {
        return Err(SchemaError::LengthIncomplete(properties.clone()));
    }
    if let Some(min) = min {
        if let Some(max) = max {
            if less(max.as_i64(), min.as_i64()) {
                return Err(SchemaError::LengthInverted(properties.clone()));
            }
        }
    }
    Ok(())
}

/// Reads and checks the constraints of a property.
fn get_constraints(property: &Json) -> (r: Result<ConstraintSet, SchemaError>)
    ensures
        match r {
            Ok(c) => property_constraints(property@) == Ok::<
                Map<Keywords, ConstraintView>,
                SchemaErrorView,
            >(c@),
            Err(e) => property_constraints(property@) == Err::<
                Map<Keywords, ConstraintView>,
                SchemaErrorView,
            >(e@),
        },
{
    match parse_constraints(property) {
        None => Err(SchemaError::InvalidConstraints(property.clone())),
        Some(constraints) => match validate_constraints(&constraints, property) {
            Ok(_) => Ok(constraints),
            Err(e) => Err(e),
        },
    }
}

// ---------------------------------------------------------------------------------------------
// From JSON
// ---------------------------------------------------------------------------------------------

/// The schema of the property `key`; none where its type is not known.
pub open spec fn property_schema(key: Seq<char>, v: JsonView) -> Result<
    Option<SchemaView>,
    SchemaErrorView,
>
    decreases v,
{
    match view_get(v, "type"@) {
        Some(JsonView::String(kind)) => {
            if kind == "object"@ {
                match view_get(v, "properties"@) {
                    Some(JsonView::Object(inner)) => {
                        proof {
                            lemma_get_decreases(v, "properties"@);
                        }
                        match properties_schema(inner) {
                            Ok(list) => Ok(Some(SchemaView::Object(Some(key), list))),
                            Err(e) => Err(e),
                        }
                    },
                    Some(_) => Err(SchemaErrorView::ObjectPropertiesNotFound(key)),
                    None => match view_get(v, keyword_text(Keywords::Constant)) {
                        Some(value) => Ok(
                            Some(
                                SchemaView::ConstantObject(
                                    Some(key),
                                    Map::empty().insert(
                                        Keywords::Constant,
                                        ConstraintView::ConstantValue(value),
                                    ),
                                ),
                            ),
                        ),
                        None => Err(SchemaErrorView::ObjectWithoutContent),
                    },
                }
            } else if kind == "string"@ {
                match property_constraints(v) {
                    Ok(c) => Ok(Some(SchemaView::String(key, c))),
                    Err(e) => Err(e),
                }
            } else if kind == "integer"@ {
                match property_constraints(v) {
                    Ok(c) => Ok(Some(SchemaView::Integer(key, c))),
                    Err(e) => Err(e),
                }
            } else if kind == "array"@ {
                match view_get(v, "items"@) {
                    Some(item) => {
                        proof {
                            lemma_get_decreases(v, "items"@);
                        }
                        match property_schema(KEY_FOR_KEYLESS_SCHEMAS@, item) {
                            Ok(found) => match property_constraints(v) {
                                Ok(c) => Ok(
                                    Some(SchemaView::Array(Some(key), option_seq(found), c)),
                                ),
                                Err(e) => Err(e),
                            },
                            Err(e) => Err(e),
                        }
                    },
                    None => Err(SchemaErrorView::ItemsNotFound(key)),
                }
            } else {
                Ok(None)
            }
        },
        _ => Err(SchemaErrorView::TypeNotFound(key)),
    }
}

pub open spec fn option_seq<T>(found: Option<T>) -> Seq<T> {
    match found {
        Some(s) => seq![s],
        None => Seq::empty(),
    }
}

/// The schemas of an object's properties, in order. Properties of unknown type are left out; the
/// first property that is not understood decides the error.
pub open spec fn properties_schema(entries: Seq<(Seq<char>, JsonView)>) -> Result<
    Seq<SchemaView>,
    SchemaErrorView,
>
    decreases entries,
{
    if entries.len() == 0 {
        Ok(Seq::empty())
    } else {
        match properties_schema(entries.drop_last()) {
            Err(e) => Err(e),
            Ok(list) => match property_schema(entries.last().0, entries.last().1) {
                Err(e) => Err(e),
                Ok(found) => Ok(list + option_seq(found)),
            },
        }
    }
}

/// The schema that a JSON value describes.
pub open spec fn schema_of_value(value: JsonView) -> Result<SchemaView, SchemaErrorView> {
    match view_get(value, "properties"@) {
        Some(JsonView::Object(entries)) => match properties_schema(entries) {
            Ok(list) => Ok(SchemaView::Object(None, list)),
            Err(e) => Err(e),
        },
        _ => Err(SchemaErrorView::PropertiesNotFound),
    }
}

/// An outcome, viewed.
pub open spec fn parsed_view(r: Result<Vec<DataSchema>, SchemaError>) -> Result<
    Seq<SchemaView>,
    SchemaErrorView,
> {
    match r {
        Ok(v) => Ok(schemas_view(v@)),
        Err(e) => Err(e@),
    }
}

proof fn lemma_error_first(entries: Seq<(Seq<char>, JsonView)>, i: int)
    requires
        0 <= i < entries.len(),
        properties_schema(entries.take(i + 1)) is Err,
    ensures
        properties_schema(entries) == properties_schema(entries.take(i + 1)),
    decreases entries.len(),
{
    if entries.len() == i + 1 {
        assert(entries.take(i + 1) =~= entries);
    } else {
        assert(entries.drop_last().take(i + 1) =~= entries.take(i + 1));
        lemma_error_first(entries.drop_last(), i);
    }
}

/// Reads one property.
fn parse_property(key: &String, v: &Json) -> (r: Result<Option<DataSchema>, SchemaError>)
    ensures
        match r {
            Ok(Some(s)) => property_schema(key@, v@) == Ok::<Option<SchemaView>, SchemaErrorView>(
                Some(s@),
            ),
            Ok(None) => property_schema(key@, v@) == Ok::<Option<SchemaView>, SchemaErrorView>(None),
            Err(e) => property_schema(key@, v@) == Err::<Option<SchemaView>, SchemaErrorView>(e@),
        },
    decreases *v,
{
    broadcast use {lemma_object_schema_view, lemma_array_schema_view};

    let kind = match v.get("type") {
        Some(t) => match t.as_str() {
            Some(s) => s,
            None => return Err(SchemaError::TypeNotFound(key.clone())),
        },
        None => return Err(SchemaError::TypeNotFound(key.clone())),
    };
    if same_text(kind, "object") {
        if let Some(inner) = v.get("properties") {
            match inner.as_object() {
                Some(entries) => {
                    assert(decreases_to!(*inner => inner->Object_0));
                    match parse_properties(entries) {
                        Ok(list) => Ok(Some(DataSchema::Object(Some(key.clone()), list))),
                        Err(e) => Err(e),
                    }
                },
                None => Err(SchemaError::ObjectPropertiesNotFound(key.clone())),
            }
        } else if let Some(value) = v.get(Keywords::Constant.as_str()) {
            let mut constraints = ConstraintSet::new();
            constraints.insert(Keywords::Constant, Constraints::ConstantValue(value.clone()));
            Ok(Some(DataSchema::ConstantObject(Some(key.clone()), constraints)))
        } else {
            Err(SchemaError::ObjectWithoutContent)
        }
    } else if same_text(kind, "string") {
        match get_constraints(v) {
            Ok(c) => Ok(Some(DataSchema::String(key.clone(), c))),
            Err(e) => Err(e),
        }
    } else if same_text(kind, "integer") {
        match get_constraints(v) {
            Ok(c) => Ok(Some(DataSchema::Integer(key.clone(), c))),
            Err(e) => Err(e),
        }
    } else if same_text(kind, "array") {
        match v.get("items") {
            Some(item) => {
                let name = KEY_FOR_KEYLESS_SCHEMAS.to_owned();
                match parse_property(&name, item) {
                    Ok(found) => match get_constraints(v) {
                        Ok(c) => {
                            let mut list: Vec<DataSchema> = Vec::new();
                            if let Some(schema) = found {
                                list.push(schema);
                                assert(schemas_view(list@) =~= option_seq(Some(schema@)));
                            } else {
                                assert(schemas_view(list@) =~= option_seq::<SchemaView>(None));
                            }
                            Ok(Some(DataSchema::Array(Some(key.clone()), list, c)))
                        },
                        Err(e) => Err(e),
                    },
                    Err(e) => Err(e),
                }
            },
            None => Err(SchemaError::ItemsNotFound(key.clone())),
        }
    } else {
        Ok(None)
    }
}

/// Reads the properties of an object.
fn parse_properties(properties: &Vec<(String, Json)>) -> (r: Result<Vec<DataSchema>, SchemaError>)
    ensures
        parsed_view(r) == properties_schema(entries_view(properties@)),
    decreases *properties,
{
    let ghost view = entries_view(properties@);
    let mut data: Vec<DataSchema> = Vec::new();
    let mut i: usize = 0;
    proof {
        assert(view.take(0) =~= Seq::empty());
        assert(schemas_view(data@) =~= Seq::empty());
    }
    while i < properties.len()
        invariant
            i <= properties@.len(),
            view == entries_view(properties@),
            properties_schema(view.take(i as int)) == Ok::<Seq<SchemaView>, SchemaErrorView>(
                schemas_view(data@),
            ),
        decreases properties@.len() - i,
    {
        proof {
            assert(view.take(i + 1).drop_last() =~= view.take(i as int));
            assert(view.take(i + 1).last() == view[i as int]);
        }
        let ghost before = schemas_view(data@);
        match parse_property(&properties[i].0, &properties[i].1) {
            Ok(Some(schema)) => {
                data.push(schema);
                assert(schemas_view(data@) =~= before + option_seq(Some(schema@)));
            },
            Ok(None) => {
                assert(schemas_view(data@) =~= before + option_seq(None));
            },
            Err(e) => {
                proof {
                    lemma_error_first(view, i as int);
                }
                return Err(e);
            },
        }
        i += 1;
    }
    assert(view.take(i as int) =~= view);
    Ok(data)
}

/// Reads a data schema.
pub fn data_schema_from_value(schema: &Json) -> (r: Result<DataSchema, SchemaError>)
    ensures
        match r {
            Ok(s) => schema_of_value(schema@) == Ok::<SchemaView, SchemaErrorView>(s@),
            Err(e) => schema_of_value(schema@) == Err::<SchemaView, SchemaErrorView>(e@),
        },
{
    broadcast use lemma_object_schema_view;

    match schema.get("properties") {
        Some(properties) => match properties.as_object() {
            Some(entries) => match parse_properties(entries) {
                Ok(list) => Ok(DataSchema::Object(None, list)),
                Err(e) => Err(e),
            },
            None => Err(SchemaError::PropertiesNotFound),
        },
        None => Err(SchemaError::PropertiesNotFound),
    }
}

// ---------------------------------------------------------------------------------------------
// To JSON
// ---------------------------------------------------------------------------------------------

/// All keywords, in the order in which they are written.
pub open spec fn keyword_order() -> Seq<Keywords> {
    seq![
        Keywords::MinLength,
        Keywords::MaxLength,
        Keywords::Minimum,
        Keywords::Maximum,
        Keywords::Constant,
        Keywords::Pattern,
        Keywords::DataFile,
    ]
}

/// The members that express the constraints of the keywords `order`.
pub open spec fn constraint_entries(
    order: Seq<Keywords>,
    c: Map<Keywords, ConstraintView>,
) -> Seq<(Seq<char>, JsonView)>
    decreases order.len(),
{
    if order.len() == 0 {
        Seq::empty()
    } else if c.contains_key(order.last()) {
        constraint_entries(order.drop_last(), c).push(
            (keyword_text(order.last()), constraint_value(c[order.last()])),
        )
    } else {
        constraint_entries(order.drop_last(), c)
    }
}

/// The name of a schema.
pub open spec fn schema_name(s: SchemaView) -> Option<Seq<char>> {
    match s {
        SchemaView::Empty => None,
        SchemaView::String(k, _) => Some(k),
        SchemaView::Integer(k, _) => Some(k),
        SchemaView::Object(k, _) => k,
        SchemaView::ConstantObject(k, _) => k,
        SchemaView::Array(k, _, _) => k,
    }
}

/// The schemas below the root are named, at every depth.
pub open spec fn named(list: Seq<SchemaView>) -> bool
    decreases list,
{
    forall|i: int|
        0 <= i < list.len() ==> {
            &&& (#[trigger] list[i]) is Empty || schema_name(list[i]) is Some
            &&& list[i] is Object ==> named(list[i]->Object_1)
            &&& list[i] is Array ==> named(list[i]->Array_1)
        }
}

/// How a property is written.
pub open spec fn schema_value(s: SchemaView) -> JsonView
    decreases s,
{
    match s {
        SchemaView::Empty => JsonView::Null,
        SchemaView::String(_, c) => JsonView::Object(
            constraint_entries(keyword_order(), c).push(
                ("type"@, JsonView::String("string"@)),
            ),
        ),
        SchemaView::Integer(_, c) => JsonView::Object(
            constraint_entries(keyword_order(), c).push(
                ("type"@, JsonView::String("integer"@)),
            ),
        ),
        SchemaView::Object(_, list) => JsonView::Object(
            seq![
                ("type"@, JsonView::String("object"@)),
                ("properties"@, JsonView::Object(schemas_value(list))),
            ],
        ),
        SchemaView::ConstantObject(_, c) => JsonView::Object(
            constraint_entries(keyword_order(), c).push(
                ("type"@, JsonView::String("object"@)),
            ),
        ),
        SchemaView::Array(_, list, c) => JsonView::Object(
            seq![
                ("type"@, JsonView::String("array"@)),
                (
                    "items"@,
                    match lookup(schemas_value(list), KEY_FOR_KEYLESS_SCHEMAS@) {
                        Some(item) => item,
                        None => JsonView::String("{}"@),
                    },
                ),
            ] + constraint_entries(keyword_order(), c),
        ),
    }
}

/// How the properties of an object are written: by name, the last of a name counts.
pub open spec fn schemas_value(list: Seq<SchemaView>) -> Seq<(Seq<char>, JsonView)>
    decreases list,
{
    if list.len() == 0 {
        Seq::empty()
    } else {
        let rest = schemas_value(list.drop_last());
        match schema_name(list.last()) {
            Some(name) => set_entry(rest, name, schema_value(list.last())),
            None => rest,
        }
    }
}

/// How a data schema is written. Only an object has a schema document.
pub open spec fn value_of_schema(s: SchemaView) -> JsonView {
    match s {
        SchemaView::Object(_, list) => JsonView::Object(
            seq![("properties"@, JsonView::Object(schemas_value(list)))],
        ),
        _ => JsonView::String("{}"@),
    }
}

/// All keywords, in the order in which they are written.
fn all_keywords() -> (r: Vec<Keywords>)
    ensures
        r@ == keyword_order(),
{
    let r = vec![
        Keywords::MinLength,
        Keywords::MaxLength,
        Keywords::Minimum,
        Keywords::Maximum,
        Keywords::Constant,
        Keywords::Pattern,
        Keywords::DataFile,
    ];
    assert(r@ =~= keyword_order());
    r
}

/// Adds the members that express the constraints.
fn push_constraints(entries: &mut Vec<(String, Json)>, constraints: &ConstraintSet)
    ensures
        entries_view(final(entries)@) == entries_view(old(entries)@) + constraint_entries(
            keyword_order(),
            constraints@,
        ),
{
    let order = all_keywords();
    let ghost start = entries_view(entries@);
    let mut i: usize = 0;
    assert(order@.take(0) =~= Seq::empty());
    assert(entries_view(entries@) =~= start + constraint_entries(order@.take(0), constraints@));
    while i < order.len()
        invariant
            i <= order@.len(),
            order@ == keyword_order(),
            entries_view(entries@) == start + constraint_entries(
                order@.take(i as int),
                constraints@,
            ),
        decreases order@.len() - i,
    {
        proof {
            assert(order@.take(i + 1).drop_last() =~= order@.take(i as int));
            assert(order@.take(i + 1).last() == order@[i as int]);
        }
        let ghost before = entries_view(entries@);
        if let Some(c) = constraints.get(&order[i]) {
            let key = order[i].as_str().to_owned();
            let value = c.to_json();
            entries.push((key, value));
            assert(entries_view(entries@) =~= before.push((key@, value@)));
        }
        assert(entries_view(entries@) =~= start + constraint_entries(
            order@.take(i + 1),
            constraints@,
        ));
        i += 1;
    }
    assert(order@.take(i as int) =~= order@);
}

/// The constraints and the type of a property.
fn typed_constraints(constraints: &ConstraintSet, kind: &str) -> (r: Json)
    ensures
        r@ == JsonView::Object(
            constraint_entries(keyword_order(), constraints@).push(
                ("type"@, JsonView::String(kind@)),
            ),
        ),
{
    broadcast use lemma_object_view;

    let mut entries: Vec<(String, Json)> = Vec::new();
    assert(entries_view(entries@) =~= Seq::empty());
    push_constraints(&mut entries, constraints);
    let ghost before = entries_view(entries@);
    assert(before =~= constraint_entries(keyword_order(), constraints@));
    let key = "type".to_owned();
    let value = Json::text(kind);
    entries.push((key, value));
    assert(entries_view(entries@) =~= before.push((key@, value@)));
    Json::Object(entries)
}

/// Writes one property.
fn schema_to_value(schema: &DataSchema) -> (r: Json)
    requires
        !(schema@ is Empty),
        schema@ is Object ==> named(schema@->Object_1),
        schema@ is Array ==> named(schema@->Array_1),
    ensures
        r@ == schema_value(schema@),
    decreases *schema,
{
    broadcast use {lemma_object_schema_view, lemma_array_schema_view, lemma_object_view};

    match schema {
        DataSchema::Empty => Json::Null,
        DataSchema::String(_, c) => typed_constraints(c, "string"),
        DataSchema::Integer(_, c) => typed_constraints(c, "integer"),
        DataSchema::Object(_, list) => {
            assert(decreases_to!(*schema => (*schema)->Object_1));
            let properties = convert_data_schema_to_map(list);
            let mut entries: Vec<(String, Json)> = Vec::new();
            entries.push(("type".to_owned(), Json::text("object")));
            entries.push(("properties".to_owned(), Json::Object(properties)));
            assert(entries_view(entries@) =~= seq![
                ("type"@, JsonView::String("object"@)),
                ("properties"@, JsonView::Object(schemas_value(schemas_view(list@)))),
            ]);
            Json::Object(entries)
        },
        DataSchema::ConstantObject(_, c) => typed_constraints(c, "object"),
        DataSchema::Array(_, list, c) => {
            assert(decreases_to!(*schema => (*schema)->Array_1));
            let items = convert_data_schema_to_map(list);
            let item = match get_entry(&items, KEY_FOR_KEYLESS_SCHEMAS) {
                Some(item) => item.clone(),
                None => Json::text("{}"),
            };
            let mut entries: Vec<(String, Json)> = Vec::new();
            entries.push(("type".to_owned(), Json::text("array")));
            entries.push(("items".to_owned(), item));
            assert(entries_view(entries@) =~= seq![
                ("type"@, JsonView::String("array"@)),
                ("items"@, item@),
            ]);
            let ghost head = entries_view(entries@);
            push_constraints(&mut entries, c);
            assert(schema@ == SchemaView::Array(schema@->Array_0, schemas_view(list@), c@));
            assert(schema_value(schema@)->Object_0 == head + constraint_entries(
                keyword_order(),
                c@,
            ));
            Json::Object(entries)
        },
    }
}

/// Writes the properties of an object.
fn convert_data_schema_to_map(schemas: &Vec<DataSchema>) -> (r: Vec<(String, Json)>)
    requires
        named(schemas_view(schemas@)),
    ensures
        entries_view(r@) == schemas_value(schemas_view(schemas@)),
    decreases *schemas,
{
    broadcast use {lemma_object_schema_view, lemma_array_schema_view};

    let ghost view = schemas_view(schemas@);
    let mut properties: Vec<(String, Json)> = Vec::new();
    let mut i: usize = 0;
    proof {
        assert(view.take(0) =~= Seq::empty());
        assert(entries_view(properties@) =~= Seq::empty());
    }
    while i < schemas.len()
        invariant
            i <= schemas@.len(),
            view == schemas_view(schemas@),
            named(view),
            entries_view(properties@) == schemas_value(view.take(i as int)),
        decreases schemas@.len() - i,
    {
        proof {
            assert(view.take(i + 1).drop_last() =~= view.take(i as int));
            assert(view.take(i + 1).last() == view[i as int]);
            assert(view[i as int] == schema_view(schemas@[i as int]));
        }
        let schema = &schemas[i];
        let name: Option<String> = match schema {
            DataSchema::Empty => None,
            DataSchema::String(k, _) => Some(k.clone()),
            DataSchema::Integer(k, _) => Some(k.clone()),
            DataSchema::Object(k, _) => k.clone(),
            DataSchema::ConstantObject(k, _) => k.clone(),
            DataSchema::Array(k, _, _) => k.clone(),
        };
        assert(name_view(name) == schema_name(view[i as int]));
        if let Some(name) = name {
            let value = schema_to_value(schema);
            put_entry(&mut properties, name, value);
        }
        i += 1;
    }
    assert(view.take(i as int) =~= view);
    properties
}

impl DataSchema {
    /// The schemas of an object's properties.
    pub fn data(&self) -> (r: Option<&Vec<DataSchema>>)
        ensures
            match r {
                Some(list) => self@ matches SchemaView::Object(_, v) && v == schemas_view(list@),
                None => !(self@ is Object),
            },
    {
        broadcast use lemma_object_schema_view;

        match self {
            DataSchema::Object(_, list) => Some(list),
            _ => None,
        }
    }

    /// Reads a data schema.
    pub fn try_from(value: Json) -> (r: Result<DataSchema, SchemaError>)
        ensures
            match r {
                Ok(s) => schema_of_value(value@) == Ok::<SchemaView, SchemaErrorView>(s@),
                Err(e) => schema_of_value(value@) == Err::<SchemaView, SchemaErrorView>(e@),
            },
    {
        data_schema_from_value(&value)
    }

    /// Writes the schema as a schema document.
    pub fn into_value(self) -> (r: Json)
        requires
            self@ is Object ==> named(self@->Object_1),
        ensures
            r@ == value_of_schema(self@),
    {
        data_value_from_schema(&self)
    }
}

/// Writes a data schema as a schema document.
pub fn data_value_from_schema(schema: &DataSchema) -> (r: Json)
    requires
        schema@ is Object ==> named(schema@->Object_1),
    ensures
        r@ == value_of_schema(schema@),
{
    broadcast use {lemma_object_schema_view, lemma_object_view};

    match schema {
        DataSchema::Object(_, schemas) => {
            let map = convert_data_schema_to_map(schemas);
            let mut entries: Vec<(String, Json)> = Vec::new();
            entries.push(("properties".to_owned(), Json::Object(map)));
            assert(entries_view(entries@) =~= seq![
                ("properties"@, JsonView::Object(schemas_value(schemas_view(schemas@)))),
            ]);
            Json::Object(entries)
        },
        _ => Json::text("{}"),
    }
}

} // verus!
