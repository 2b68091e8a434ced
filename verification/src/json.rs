//! JSON values.
//!
//! A value is a tree. Objects keep their members in the order in which they were added; a lookup
//! finds the last member of a name, and setting a member replaces it in place.

use vstd::prelude::*;

use crate::text::same_text;

verus! {

/// A JSON number. A number that is no 64 bit integer is carried as its shortest decimal notation.
#[derive(Debug)]
pub enum Number {
    PosInt(u64),
    /// Always below zero.
    NegInt(i64),
    Float(String),
}

/// What a [`Number`] is.
pub enum NumberView {
    PosInt(u64),
    NegInt(i64),
    Float(Seq<char>),
}

impl View for Number {
    type V = NumberView;

    open spec fn view(&self) -> NumberView {
        match self {
            Number::PosInt(n) => NumberView::PosInt(*n),
            Number::NegInt(n) => NumberView::NegInt(*n),
            Number::Float(t) => NumberView::Float(t@),
        }
    }
}

impl Clone for Number {
    fn clone(&self) -> (r: Number)
        ensures
            r@ == self@,
    {
        match self {
            Number::PosInt(n) => Number::PosInt(*n),
            Number::NegInt(n) => Number::NegInt(*n),
            Number::Float(t) => Number::Float(t.clone()),
        }
    }
}

/// A JSON value.
#[derive(Debug)]
pub enum Json {
    Null,
    Bool(bool),
    Number(Number),
    String(String),
    Array(Vec<Json>),
    Object(Vec<(String, Json)>),
}

/// What a [`Json`] value is: the same tree over mathematical sequences.
pub enum JsonView {
    Null,
    Bool(bool),
    Number(NumberView),
    String(Seq<char>),
    Array(Seq<JsonView>),
    Object(Seq<(Seq<char>, JsonView)>),
}

pub open spec fn json_view(j: Json) -> JsonView
    decreases j,
{
    match j {
        Json::Null => JsonView::Null,
        Json::Bool(b) => JsonView::Bool(b),
        Json::Number(n) => JsonView::Number(n@),
        Json::String(s) => JsonView::String(s@),
        Json::Array(v) => JsonView::Array(
            Seq::new(
                v@.len(),
                |i: int|
                    if 0 <= i < v@.len() {
                        json_view(v@[i])
                    } else {
                        JsonView::Null
                    },
            ),
        ),
        Json::Object(v) => JsonView::Object(
            Seq::new(
                v@.len(),
                |i: int|
                    if 0 <= i < v@.len() {
                        (v@[i].0@, json_view(v@[i].1))
                    } else {
                        (Seq::empty(), JsonView::Null)
                    },
            ),
        ),
    }
}

impl View for Json {
    type V = JsonView;

    open spec fn view(&self) -> JsonView {
        json_view(*self)
    }
}

/// The values of an array, viewed.
pub open spec fn items_view(v: Seq<Json>) -> Seq<JsonView> {
    Seq::new(v.len(), |i: int| json_view(v[i]))
}

/// The members of an object, viewed.
pub open spec fn entries_view(v: Seq<(String, Json)>) -> Seq<(Seq<char>, JsonView)> {
    Seq::new(v.len(), |i: int| (v[i].0@, json_view(v[i].1)))
}

pub broadcast proof fn lemma_array_view(v: Vec<Json>)
    ensures
        #[trigger] json_view(Json::Array(v)) == JsonView::Array(items_view(v@)),
{
    assert(json_view(Json::Array(v))->Array_0 =~= items_view(v@));
}

pub broadcast proof fn lemma_object_view(v: Vec<(String, Json)>)
    ensures
        #[trigger] json_view(Json::Object(v)) == JsonView::Object(entries_view(v@)),
{
    assert(json_view(Json::Object(v))->Object_0 =~= entries_view(v@));
}

/// The position of the last member named `key`, or -1.
pub open spec fn key_index<T>(entries: Seq<(Seq<char>, T)>, key: Seq<char>) -> int
    decreases entries.len(),
{
    if entries.len() == 0 {
        -1
    } else if entries.last().0 == key {
        entries.len() - 1
    } else {
        key_index(entries.drop_last(), key)
    }
}

pub open spec fn has_key<T>(entries: Seq<(Seq<char>, T)>, key: Seq<char>) -> bool {
    exists|i: int| 0 <= i < entries.len() && (#[trigger] entries[i]).0 == key
}

/// The value of the last member named `key`.
pub open spec fn lookup<T>(entries: Seq<(Seq<char>, T)>, key: Seq<char>) -> Option<T> {
    let i = key_index(entries, key);
    if i >= 0 {
        Some(entries[i].1)
    } else {
        None
    }
}

/// The members after `key` was set to `value`: replaced in place, else added at the end.
pub open spec fn set_entry<T>(entries: Seq<(Seq<char>, T)>, key: Seq<char>, value: T) -> Seq<
    (Seq<char>, T),
> {
    let i = key_index(entries, key);
    if i >= 0 {
        entries.update(i, (key, value))
    } else {
        entries.push((key, value))
    }
}

/// No two members have the same name.
pub open spec fn unique_keys<T>(entries: Seq<(Seq<char>, T)>) -> bool {
    forall|i: int, j: int|
        0 <= i < j < entries.len() ==> (#[trigger] entries[i]).0 != (#[trigger] entries[j]).0
}

pub proof fn lemma_key_index<T>(entries: Seq<(Seq<char>, T)>, key: Seq<char>)
    ensures
        -1 <= key_index(entries, key) < entries.len(),
        key_index(entries, key) >= 0 ==> entries[key_index(entries, key)].0 == key,
        forall|i: int|
            key_index(entries, key) < i < entries.len() ==> (#[trigger] entries[i]).0 != key,
        key_index(entries, key) >= 0 <==> has_key(entries, key),
    decreases entries.len(),
{
    if entries.len() > 0 && entries.last().0 != key {
        let rest = entries.drop_last();
        lemma_key_index(rest, key);
        assert forall|i: int| key_index(entries, key) < i < entries.len() implies (
        #[trigger] entries[i]).0 != key by {
            if i < rest.len() {
                assert(rest[i].0 != key);
            }
        }
    }
}

/// With unique names the position of a name is the one member that has it.
pub proof fn lemma_unique_index<T>(entries: Seq<(Seq<char>, T)>, i: int)
    requires
        unique_keys(entries),
        0 <= i < entries.len(),
    ensures
        key_index(entries, entries[i].0) == i,
        lookup(entries, entries[i].0) == Some(entries[i].1),
{
    lemma_key_index(entries, entries[i].0);
    let k = key_index(entries, entries[i].0);
    assert(has_key(entries, entries[i].0));
    if k < i {
        assert(entries[i].0 != entries[i].0);
    }
    if i < k {
        assert(entries[i].0 != entries[k].0);
    }
}

/// Setting a member: it is found afterwards, the others are as before, names stay unique.
pub proof fn lemma_set_entry<T>(entries: Seq<(Seq<char>, T)>, key: Seq<char>, value: T)
    ensures
        lookup(set_entry(entries, key, value), key) == Some(value),
        forall|other: Seq<char>|
            other != key ==> #[trigger] lookup(set_entry(entries, key, value), other) == lookup(
                entries,
                other,
            ),
        forall|other: Seq<char>|
            #[trigger] has_key(set_entry(entries, key, value), other) <==> (other == key
                || has_key(entries, other)),
        unique_keys(entries) ==> unique_keys(set_entry(entries, key, value)),
{
    let after = set_entry(entries, key, value);
    let at = key_index(entries, key);
    lemma_key_index(entries, key);
    lemma_key_index(after, key);
    if at >= 0 {
        let k = key_index(after, key);
        assert(has_key(after, key)) by {
            assert(after[at].0 == key);
        }
        assert(k >= at) by {
            if k < at {
                assert(after[at].0 != key);
            }
        }
        if k > at {
            assert(after[k] == entries[k]);
            assert(entries[k].0 != key);
        }
    } else {
        assert(after.last().0 == key);
    }
    assert forall|other: Seq<char>| other != key implies #[trigger] lookup(after, other) == lookup(
        entries,
        other,
    ) by {
        lemma_key_index(entries, other);
        lemma_key_index(after, other);
        if at >= 0 {
            lemma_update_index(entries, at, (key, value), other);
        } else {
            assert(after.drop_last() =~= entries);
        }
    }
    assert forall|other: Seq<char>|
        #[trigger] has_key(after, other) <==> (other == key || has_key(entries, other)) by {
        if other != key {
            lemma_key_index(entries, other);
            lemma_key_index(after, other);
            assert(lookup(after, other) == lookup(entries, other));
        }
    }
    if unique_keys(entries) {
        assert forall|i: int, j: int| 0 <= i < j < after.len() implies (#[trigger] after[i]).0 != (
        #[trigger] after[j]).0 by {
            if at >= 0 {
                assert(after[i].0 == entries[i].0);
                assert(after[j].0 == entries[j].0);
            } else if j == entries.len() {
                assert(after[i] == entries[i]);
                if entries[i].0 == key {
                    assert(has_key(entries, key));
                }
            } else {
                assert(after[i] == entries[i]);
                assert(after[j] == entries[j]);
            }
        }
    }
}

proof fn lemma_update_index<T>(
    entries: Seq<(Seq<char>, T)>,
    at: int,
    entry: (Seq<char>, T),
    other: Seq<char>,
)
    requires
        0 <= at < entries.len(),
        entries[at].0 == entry.0,
        other != entry.0,
    ensures
        key_index(entries.update(at, entry), other) == key_index(entries, other),
    decreases entries.len(),
{
    let after = entries.update(at, entry);
    if at == entries.len() - 1 {
        assert(after.drop_last() =~= entries.drop_last());
    } else {
        assert(after.drop_last() =~= entries.drop_last().update(at, entry));
        if entries.last().0 != other {
            lemma_update_index(entries.drop_last(), at, entry, other);
        }
    }
}

/// Whether two numbers are the same value: zero and negative zero are.
pub open spec fn number_same(a: NumberView, b: NumberView) -> bool {
    match (a, b) {
        (NumberView::Float(x), NumberView::Float(y)) => x == y || (float_zero(x) && float_zero(y)),
        _ => a == b,
    }
}

/// The notations of zero and of negative zero.
pub open spec fn float_zero(text: Seq<char>) -> bool {
    text == "0.0"@ || text == "-0.0"@
}

/// Whether two values are equal. The order of an object's members does not matter.
pub open spec fn json_same(a: JsonView, b: JsonView) -> bool
    decreases a,
{
    match (a, b) {
        (JsonView::Null, JsonView::Null) => true,
        (JsonView::Bool(x), JsonView::Bool(y)) => x == y,
        (JsonView::Number(x), JsonView::Number(y)) => number_same(x, y),
        (JsonView::String(x), JsonView::String(y)) => x == y,
        (JsonView::Array(x), JsonView::Array(y)) => {
            &&& x.len() == y.len()
            &&& forall|i: int| 0 <= i < x.len() ==> json_same(#[trigger] x[i], y[i])
        },
        (JsonView::Object(x), JsonView::Object(y)) => {
            &&& x.len() == y.len()
            &&& forall|i: int|
                0 <= i < x.len() ==> (lookup(y, (#[trigger] x[i]).0) matches Some(v) && json_same(
                    x[i].1,
                    v,
                ))
        },
        _ => false,
    }
}

/// The integer that a value holds, where it fits 64 signed bits.
pub open spec fn view_i64(v: JsonView) -> Option<i64> {
    match v {
        JsonView::Number(NumberView::PosInt(n)) => if n <= i64::MAX {
            Some(n as i64)
        } else {
            None
        },
        JsonView::Number(NumberView::NegInt(n)) => Some(n),
        _ => None,
    }
}

pub open spec fn view_u64(v: JsonView) -> Option<u64> {
    match v {
        JsonView::Number(NumberView::PosInt(n)) => Some(n),
        _ => None,
    }
}

pub open spec fn view_str(v: JsonView) -> Option<Seq<char>> {
    match v {
        JsonView::String(s) => Some(s),
        _ => None,
    }
}

/// The members of an object.
pub open spec fn view_object(v: JsonView) -> Option<Seq<(Seq<char>, JsonView)>> {
    match v {
        JsonView::Object(e) => Some(e),
        _ => None,
    }
}

/// The member of an object by name; none of any other value.
pub open spec fn view_get(v: JsonView, key: Seq<char>) -> Option<JsonView> {
    match v {
        JsonView::Object(e) => lookup(e, key),
        _ => None,
    }
}

/// A member of an object is smaller than the object.
pub proof fn lemma_get_decreases(v: JsonView, key: Seq<char>)
    ensures
        view_get(v, key) matches Some(p) ==> decreases_to!(v => p),
{
    if let JsonView::Object(e) = v {
        lemma_key_index(e, key);
        let i = key_index(e, key);
        if i >= 0 {
            assert(decreases_to!(v => v->Object_0));
            assert(decreases_to!(e => e[i]));
        }
    }
}

/// The integer `n` as a JSON value.
pub open spec fn int_view(n: i64) -> JsonView {
    if n < 0 {
        JsonView::Number(NumberView::NegInt(n))
    } else {
        JsonView::Number(NumberView::PosInt(n as u64))
    }
}

/// Looks for the last member named `key`.
pub fn find_entry(entries: &Vec<(String, Json)>, key: &str) -> (r: Option<usize>)
    ensures
        match r {
            Some(i) => i == key_index(entries_view(entries@), key@) && i < entries@.len(),
            None => key_index(entries_view(entries@), key@) == -1,
        },
{
    let ghost view = entries_view(entries@);
    let mut n: usize = entries.len();
    assert(view.take(view.len() as int) =~= view);
    while n > 0
        invariant
            n <= entries@.len(),
            view == entries_view(entries@),
            key_index(view, key@) == key_index(view.take(n as int), key@),
        decreases n,
    {
        n -= 1;
        assert(view.take(n + 1).drop_last() =~= view.take(n as int));
        assert(view.take(n + 1).last() == view[n as int]);
        if same_text(entries[n].0.as_str(), key) {
            return Some(n);
        }
    }
    assert(view.take(0) =~= Seq::empty());
    None
}

/// The value of the last member named `key`.
pub fn get_entry<'a>(entries: &'a Vec<(String, Json)>, key: &str) -> (r: Option<&'a Json>)
    ensures
        match r {
            Some(v) => lookup(entries_view(entries@), key@) == Some(v@),
            None => lookup(entries_view(entries@), key@) is None,
        },
{
    match find_entry(entries, key) {
        Some(i) => Some(&entries[i].1),
        None => None,
    }
}

/// Sets a member: replaces it in place, or adds it at the end.
pub fn put_entry(entries: &mut Vec<(String, Json)>, key: String, value: Json)
    ensures
        entries_view(final(entries)@) == set_entry(entries_view(old(entries)@), key@, value@),
{
    let found = find_entry(entries, key.as_str());
    match found {
        Some(i) => {
            entries.set(i, (key, value));
            assert(entries_view(entries@) =~= set_entry(
                entries_view(old(entries)@),
                key@,
                value@,
            ));
        },
        None => {
            entries.push((key, value));
            assert(entries_view(entries@) =~= set_entry(
                entries_view(old(entries)@),
                key@,
                value@,
            ));
        },
    }
}

impl Clone for Json {
    fn clone(&self) -> (r: Json)
        ensures
            r@ == self@,
    {
        self.copied()
    }
}

impl Number {
    /// Whether both are the same value.
    pub fn same(&self, other: &Number) -> (r: bool)
        ensures
            r == number_same(self@, other@),
    {
        match (self, other) {
            (Number::PosInt(a), Number::PosInt(b)) => *a == *b,
            (Number::NegInt(a), Number::NegInt(b)) => *a == *b,
            (Number::Float(a), Number::Float(b)) => {
                let x = a.as_str();
                let y = b.as_str();
                same_text(x, y) || ((same_text(x, "0.0") || same_text(x, "-0.0")) && (same_text(
                    y,
                    "0.0",
                ) || same_text(y, "-0.0")))
            },
            _ => false,
        }
    }
}

impl PartialEq for Json {
    fn eq(&self, other: &Json) -> (r: bool) {
        self.same(other)
    }
}

impl vstd::std_specs::cmp::PartialEqSpecImpl for Json {
    open spec fn obeys_eq_spec() -> bool {
        true
    }

    open spec fn eq_spec(&self, other: &Json) -> bool {
        json_same(self@, other@)
    }
}

impl Json {
    /// A copy of the value.
    fn copied(&self) -> (r: Json)
        ensures
            r@ == self@,
        decreases *self,
    {
        broadcast use {lemma_array_view, lemma_object_view};

        match self {
            Json::Null => Json::Null,
            Json::Bool(b) => Json::Bool(*b),
            Json::Number(n) => Json::Number(n.clone()),
            Json::String(s) => Json::String(s.clone()),
            Json::Array(v) => {
                let mut out: Vec<Json> = Vec::new();
                let mut i: usize = 0;
                while i < v.len()
                    invariant
                        i <= v@.len(),
                        *self == Json::Array(*v),
                        items_view(out@) == items_view(v@).take(i as int),
                    decreases v@.len() - i,
                {
                    assert(decreases_to!(*self => (*self)->Array_0));
                    let item = v[i].copied();
                    let ghost before = items_view(out@);
                    out.push(item);
                    i += 1;
                    assert(items_view(out@) =~= before.push(item@));
                    assert(items_view(out@) =~= items_view(v@).take(i as int));
                }
                assert(items_view(v@).take(i as int) =~= items_view(v@));
                Json::Array(out)
            },
            Json::Object(v) => {
                let mut out: Vec<(String, Json)> = Vec::new();
                let mut i: usize = 0;
                while i < v.len()
                    invariant
                        i <= v@.len(),
                        *self == Json::Object(*v),
                        entries_view(out@) == entries_view(v@).take(i as int),
                    decreases v@.len() - i,
                {
                    let key = v[i].0.clone();
                    assert(decreases_to!(*self => (*self)->Object_0));
                    let value = v[i].1.copied();
                    let ghost before = entries_view(out@);
                    out.push((key, value));
                    i += 1;
                    assert(entries_view(out@) =~= before.push((key@, value@)));
                    assert(entries_view(out@) =~= entries_view(v@).take(i as int));
                }
                assert(entries_view(v@).take(i as int) =~= entries_view(v@));
                Json::Object(out)
            },
        }
    }

    /// The integer `n`.
    pub fn from_i64(n: i64) -> (r: Json)
        ensures
            r@ == int_view(n),
    {
        if n < 0 {
            Json::Number(Number::NegInt(n))
        } else {
            Json::Number(Number::PosInt(n as u64))
        }
    }

    /// The string `s`.
    pub fn text(s: &str) -> (r: Json)
        ensures
            r@ == JsonView::String(s@),
    {
        Json::String(s.to_owned())
    }

    pub fn as_i64(&self) -> (r: Option<i64>)
        ensures
            r == view_i64(self@),
    {
        match self {
            Json::Number(Number::PosInt(n)) => if *n <= i64::MAX as u64 {
                Some(*n as i64)
            } else {
                None
            },
            Json::Number(Number::NegInt(n)) => Some(*n),
            _ => None,
        }
    }

    pub fn as_u64(&self) -> (r: Option<u64>)
        ensures
            r == view_u64(self@),
    {
        match self {
            Json::Number(Number::PosInt(n)) => Some(*n),
            _ => None,
        }
    }

    pub fn as_str(&self) -> (r: Option<&str>)
        ensures
            match r {
                Some(s) => view_str(self@) == Some(s@),
                None => view_str(self@) is None,
            },
    {
        match self {
            Json::String(s) => Some(s.as_str()),
            _ => None,
        }
    }

    pub fn as_object(&self) -> (r: Option<&Vec<(String, Json)>>)
        ensures
            match r {
                Some(e) => self@ == JsonView::Object(entries_view(e@)) && *self == Json::Object(*e),
                None => view_object(self@) is None,
            },
    {
        broadcast use lemma_object_view;

        match self {
            Json::Object(e) => Some(e),
            _ => None,
        }
    }

    pub fn as_array(&self) -> (r: Option<&Vec<Json>>)
        ensures
            match r {
                Some(e) => self@ == JsonView::Array(items_view(e@)) && *self == Json::Array(*e),
                None => !(self@ is Array),
            },
    {
        broadcast use lemma_array_view;

        match self {
            Json::Array(e) => Some(e),
            _ => None,
        }
    }

    /// The member of an object by name; none of any other value.
    pub fn get(&self, key: &str) -> (r: Option<&Json>)
        ensures
            match r {
                Some(v) => view_get(self@, key@) == Some(v@) && decreases_to!(*self => *v),
                None => view_get(self@, key@) is None,
            },
    {
        broadcast use lemma_object_view;

        match self {
            Json::Object(e) => match find_entry(e, key) {
                Some(i) => Some(&e[i].1),
                None => None,
            },
            _ => None,
        }
    }

    /// Whether both values are equal, whatever the order of their objects' members.
    pub fn same(&self, other: &Json) -> (r: bool)
        ensures
            r == json_same(self@, other@),
        decreases *self,
    {
        broadcast use {lemma_array_view, lemma_object_view};

        match (self, other) {
            (Json::Null, Json::Null) => true,
            (Json::Bool(a), Json::Bool(b)) => *a == *b,
            (Json::Number(a), Json::Number(b)) => a.same(b),
            (Json::String(a), Json::String(b)) => same_text(a.as_str(), b.as_str()),
            (Json::Array(a), Json::Array(b)) => {
                if a.len() != b.len() {
                    return false;
                }
                let mut i: usize = 0;
                while i < a.len()
                    invariant
                        i <= a@.len() == b@.len(),
                        *self == Json::Array(*a),
                        *other == Json::Array(*b),
                        self@ == JsonView::Array(items_view(a@)),
                        other@ == JsonView::Array(items_view(b@)),
                        forall|j: int|
                            0 <= j < i ==> json_same(
                                #[trigger] items_view(a@)[j],
                                items_view(b@)[j],
                            ),
                    decreases a@.len() - i,
                {
                    if !a[i].same(&b[i]) {
                        assert(!json_same(items_view(a@)[i as int], items_view(b@)[i as int]));
                        return false;
                    }
                    i += 1;
                }
                true
            },
            (Json::Object(a), Json::Object(b)) => {
                if a.len() != b.len() {
                    return false;
                }
                let mut i: usize = 0;
                while i < a.len()
                    invariant
                        i <= a@.len() == b@.len(),
                        *self == Json::Object(*a),
                        *other == Json::Object(*b),
                        self@ == JsonView::Object(entries_view(a@)),
                        other@ == JsonView::Object(entries_view(b@)),
                        forall|j: int|
                            0 <= j < i ==> (lookup(
                                entries_view(b@),
                                (#[trigger] entries_view(a@)[j]).0,
                            ) matches Some(v) && json_same(entries_view(a@)[j].1, v)),
                    decreases a@.len() - i,
                {
                    let ghost entry = entries_view(a@)[i as int];
                    match get_entry(b, a[i].0.as_str()) {
                        Some(v) => {
                            if !a[i].1.same(v) {
                                assert(!json_same(entry.1, v@));
                                return false;
                            }
                        },
                        None => {
                            assert(lookup(entries_view(b@), entry.0) is None);
                            return false;
                        },
                    }
                    i += 1;
                }
                true
            },
            _ => false,
        }
    }
}

} // verus!
