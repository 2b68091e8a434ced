//! Checks of responses against what a request asked for.

use vstd::prelude::*;
use vstd::string::StringExecFns;

use crate::json::{items_view, json_same, Json, JsonView};
use crate::path_safety::{is_safe_path, selects_safely};
use crate::serde_bridge::{from_value, json_debug, json_debug_of, quoted, quoted_text, to_value};
use crate::text::{
    chars_of, decimal, decimal_text, first_position, join2, position_of, same_text, split, split_on,
    text_of, texts_view,
};

verus! {

// ---------------------------------------------------------------------------------------------
// The address of a request
// ---------------------------------------------------------------------------------------------

/// The parts of a request's address that checks look at.
#[derive(Clone, Debug)]
pub struct UriParts {
    pub path: String,
    pub query: Option<String>,
}

/// What [`UriParts`] are.
pub struct UriView {
    pub path: Seq<char>,
    pub query: Option<Seq<char>>,
}

pub open spec fn text_option(t: Option<String>) -> Option<Seq<char>> {
    match t {
        Some(s) => Some(s@),
        None => None,
    }
}

impl View for UriParts {
    type V = UriView;

    open spec fn view(&self) -> UriView {
        UriView { path: self.path@, query: text_option(self.query) }
    }
}

/// The path and the query of an address; none where it is no address.
pub uninterp spec fn uri_parts(text: Seq<char>) -> Option<(Seq<char>, Option<Seq<char>>)>;

/// Reads an address with `http::Uri::try_from`, and takes its `path` and `query`. The outcome is
/// a function of the text: [`uri_parts`].
#[verifier::external_body]
fn parse_uri(text: &str) -> (r: Option<(String, Option<String>)>)
    ensures
        match r {
            Some((path, query)) => uri_parts(text@) == Some((path@, text_option(query))),
            None => uri_parts(text@) is None,
        },
{
    let uri = http::Uri::try_from(text).ok()?;
    Some((uri.path().to_string(), uri.query().map(|q| q.to_string())))
}

impl UriParts {
    /// The parts of an address; none where the text is no address.
    pub fn parse(text: &str) -> (r: Option<UriParts>)
        ensures
            match r {
                Some(parts) => uri_parts(text@) == Some((parts@.path, parts@.query)),
                None => uri_parts(text@) is None,
            },
    {
        match parse_uri(text) {
            Some((path, query)) => Some(UriParts { path, query }),
            None => None,
        }
    }
}

/// Every parameter of a query has a value.
pub open spec fn query_complete(query: Option<Seq<char>>) -> bool {
    query matches Some(q) ==> params_complete(split_on(q, '&'))
}

/// Every parameter has a value.
pub open spec fn params_complete(parts: Seq<Seq<char>>) -> bool {
    forall|i: int|
        0 <= i < parts.len() ==> first_position(#[trigger] parts[i], '=') < parts[i].len()
}

/// The value of the last of the parameters `parts` that is named `name`.
pub open spec fn param_in(parts: Seq<Seq<char>>, name: Seq<char>) -> Option<Seq<char>>
    decreases parts.len(),
{
    if parts.len() == 0 {
        None
    } else {
        let part = parts.last();
        let at = first_position(part, '=');
        if part.take(at) == name {
            Some(part.skip(at + 1))
        } else {
            param_in(parts.drop_last(), name)
        }
    }
}

/// The value of a parameter of the query.
pub open spec fn query_param(query: Option<Seq<char>>, name: Seq<char>) -> Option<Seq<char>> {
    match query {
        Some(q) => param_in(split_on(q, '&'), name),
        None => None,
    }
}

impl UriParts {
    /// Whether every parameter of the query has a value.
    pub fn is_query_complete(&self) -> (r: bool)
        ensures
            r == query_complete(self@.query),
    {
        let query = match &self.query {
            Some(q) => q,
            None => return true,
        };
        let parts = split(query.as_str(), '&');
        let ghost view = split_on(query@, '&');
        let mut i: usize = 0;
        while i < parts.len()
            invariant
                i <= parts@.len(),
                texts_view(parts@) == view,
                view == split_on(query@, '&'),
                self@.query == Some(query@),
                forall|j: int|
                    0 <= j < i ==> first_position(#[trigger] view[j], '=') < view[j].len(),
            decreases parts@.len() - i,
        {
            let chars = chars_of(parts[i].as_str());
            assert(view[i as int] == chars@);
            if position_of(&chars, '=') >= chars.len() {
                return false;
            }
            i += 1;
        }
        true
    }

    /// The value of the last parameter of a name.
    fn param(&self, name: &str) -> (r: Option<String>)
        requires
            query_complete(self@.query),
        ensures
            text_option(r) == query_param(self@.query, name@),
    {
        let query = match &self.query {
            Some(q) => q,
            None => return None,
        };
        let parts = split(query.as_str(), '&');
        let ghost view = split_on(query@, '&');
        let mut n: usize = parts.len();
        assert(view.take(view.len() as int) =~= view);
        while n > 0
            invariant
                n <= parts@.len(),
                texts_view(parts@) == view,
                view == split_on(query@, '&'),
                params_complete(view),
                self@.query == Some(query@),
                param_in(view, name@) == param_in(view.take(n as int), name@),
            decreases n,
        {
            n -= 1;
            proof {
                assert(view.take(n + 1).drop_last() =~= view.take(n as int));
                assert(view.take(n + 1).last() == view[n as int]);
            }
            let chars = chars_of(parts[n].as_str());
            assert(view[n as int] == chars@);
            let at: usize = position_of(&chars, '=');
            assert(at < chars@.len() && chars.len() == chars@.len()) by {
                assert(first_position(view[n as int], '=') < view[n as int].len());
            }
            let key = text_of(&chars, 0, at);
            assert(chars@.subrange(0, at as int) =~= chars@.take(at as int));
            if same_text(key.as_str(), name) {
                let value = text_of(&chars, at + 1, chars.len());
                assert(chars@.subrange(at + 1, chars@.len() as int) =~= chars@.skip(at + 1));
                return Some(value);
            }
        }
        assert(view.take(0) =~= Seq::empty());
        None
    }
}

// ---------------------------------------------------------------------------------------------
// Paths into JSON
// ---------------------------------------------------------------------------------------------

/// Why a text is no JSONPath expression, if it is none.
pub uninterp spec fn path_fault(path: Seq<char>) -> Option<Seq<char>>;

/// What a JSONPath expression selects, or why it selects nothing.
pub uninterp spec fn selected(path: Seq<char>, value: JsonView) -> Result<
    Seq<JsonView>,
    Seq<char>,
>;

/// Compiles an expression with `jsonpath_lib::Compiled::compile`. The error, or that there is
/// none, is a function of the text: [`path_fault`].
#[verifier::external_body]
fn compile_path(path: &str) -> (r: Option<String>)
    ensures
        text_option(r) == path_fault(path@),
{
    jsonpath_lib::Compiled::compile(path).err()
}

/// Selects with `jsonpath_lib::select`. The outcome is a function of the expression and the
/// value: [`selected`]. There are expressions on which the function panics: those on which it does
/// so on some value are left out.
#[verifier::external_body]
fn select_path(path: &str, value: &Json) -> (r: Result<Vec<Json>, String>)
    requires
        selects_safely(path@),
    ensures
        selection_view(r) == selected(path@, value@),
{
    let value = to_value(value);
    match jsonpath_lib::select(&value, path) {
        Ok(found) => Ok(found.into_iter().map(from_value).collect()),
        Err(e) => Err(e.to_string()),
    }
}

/// What was selected, viewed.
pub open spec fn selection_view(r: Result<Vec<Json>, String>) -> Result<Seq<JsonView>, Seq<char>> {
    match r {
        Ok(found) => Ok(items_view(found@)),
        Err(e) => Err(e@),
    }
}

/// A JSONPath expression.
#[derive(Clone, Debug)]
pub struct JsonPath {
    path: String,
}

impl View for JsonPath {
    type V = Seq<char>;

    closed spec fn view(&self) -> Seq<char> {
        self.path@
    }
}

impl JsonPath {
    /// Reads an expression.
    pub fn try_from(value: &str) -> (r: Result<JsonPath, String>)
        ensures
            match r {
                Ok(p) => path_fault(value@) is None && p@ == value@,
                Err(e) => path_fault(value@) matches Some(fault) && e@
                    == "Error creating json path: "@ + fault,
            },
    {
        match compile_path(value) {
            None => Ok(JsonPath { path: value.to_owned() }),
            Some(fault) => Err(join2("Error creating json path: ", fault.as_str())),
        }
    }

    /// The text of the expression.
    pub fn path(&self) -> (r: &str)
        ensures
            r@ == self@,
    {
        self.path.as_str()
    }

    /// Whether selection panics on no value.
    pub fn is_safe(&self) -> (r: bool)
        ensures
            r == selects_safely(self@),
    {
        is_safe_path(self.path.as_str())
    }

    /// What the expression selects of a value.
    pub fn select(&self, value: &Json) -> (r: Result<Vec<Json>, String>)
        requires
            selects_safely(self@),
        ensures
            selection_view(r) == selected(self@, value@),
    {
        select_path(self.path.as_str(), value)
    }
}

// ---------------------------------------------------------------------------------------------
// Checks
// ---------------------------------------------------------------------------------------------

/// The number of a segment of a path, from one.
#[derive(Clone, Copy, Debug)]
pub struct SegmentNumber {
    n: u8,
}

impl View for SegmentNumber {
    type V = int;

    closed spec fn view(&self) -> int {
        self.n as int
    }
}

impl SegmentNumber {
    /// A number that is not zero.
    pub fn new(n: u8) -> (r: Option<SegmentNumber>)
        ensures
            match r {
                Some(s) => n != 0 && s@ == n,
                None => n == 0,
            },
    {
        if n == 0 {
            None
        } else {
            Some(SegmentNumber { n })
        }
    }

    pub fn get(&self) -> (r: u8)
        ensures
            r == self@,
    {
        self.n
    }
}

/// Where the expected value comes from.
#[derive(Clone, Debug)]
pub enum Expectation {
    RequestPath(SegmentNumber),
    RequestQueryParam(String),
    RequestBody(JsonPath),
    Constant(Json),
}

/// Where the actual value comes from.
#[derive(Clone, Debug)]
pub enum Actual {
    FromJsonResponse(JsonPath),
    Constant(Json),
}

/// One check of a response.
#[derive(Clone, Debug)]
pub struct Assertion {
    pub id: u32,
    pub expectation: Expectation,
    pub actual: Actual,
}

/// What an [`Expectation`] is.
pub enum ExpectationView {
    RequestPath(int),
    RequestQueryParam(Seq<char>),
    RequestBody(Seq<char>),
    Constant(JsonView),
}

/// What an [`Actual`] is.
pub enum ActualView {
    FromJsonResponse(Seq<char>),
    Constant(JsonView),
}

/// What an [`Assertion`] is.
pub struct AssertionView {
    pub id: u32,
    pub expectation: ExpectationView,
    pub actual: ActualView,
}

impl View for Expectation {
    type V = ExpectationView;

    open spec fn view(&self) -> ExpectationView {
        match self {
            Expectation::RequestPath(n) => ExpectationView::RequestPath(n@),
            Expectation::RequestQueryParam(name) => ExpectationView::RequestQueryParam(name@),
            Expectation::RequestBody(path) => ExpectationView::RequestBody(path@),
            Expectation::Constant(v) => ExpectationView::Constant(v@),
        }
    }
}

impl View for Actual {
    type V = ActualView;

    open spec fn view(&self) -> ActualView {
        match self {
            Actual::FromJsonResponse(path) => ActualView::FromJsonResponse(path@),
            Actual::Constant(v) => ActualView::Constant(v@),
        }
    }
}

impl View for Assertion {
    type V = AssertionView;

    open spec fn view(&self) -> AssertionView {
        AssertionView { id: self.id, expectation: self.expectation@, actual: self.actual@ }
    }
}

pub open spec fn assertions_view(v: Seq<Assertion>) -> Seq<AssertionView> {
    Seq::new(v.len(), |i: int| v[i]@)
}

/// The checks of a test: built in ones, and the source of a Lua function.
#[derive(Clone, Debug)]
pub struct ResponseAssertion {
    pub assertions: Vec<Assertion>,
    pub lua_assertion: Option<Vec<String>>,
}

impl Default for ResponseAssertion {
    fn default() -> (r: ResponseAssertion)
        ensures
            r.assertions@.len() == 0,
            r.lua_assertion is None,
    {
        ResponseAssertion { assertions: Vec::new(), lua_assertion: None }
    }
}

impl ResponseAssertion {
    /// Whether there is no built in check.
    pub fn is_empty(&self) -> (r: bool)
        ensures
            r == (self.assertions@.len() == 0),
    {
        self.assertions.len() == 0
    }
}

/// Why a check failed: the check's id, and what there is to say.
#[derive(Debug)]
pub enum AssertionError {
    InvalidExpectation(u32, String),
    FailedAssert(u32, String),
    InvalidActual(u32, String),
}

/// What an [`AssertionError`] is.
pub enum AssertionErrorView {
    InvalidExpectation(u32, Seq<char>),
    FailedAssert(u32, Seq<char>),
    InvalidActual(u32, Seq<char>),
}

impl View for AssertionError {
    type V = AssertionErrorView;

    open spec fn view(&self) -> AssertionErrorView {
        match self {
            AssertionError::InvalidExpectation(id, m) => AssertionErrorView::InvalidExpectation(
                *id,
                m@,
            ),
            AssertionError::FailedAssert(id, m) => AssertionErrorView::FailedAssert(*id, m@),
            AssertionError::InvalidActual(id, m) => AssertionErrorView::InvalidActual(*id, m@),
        }
    }
}

pub open spec fn errors_view(v: Seq<AssertionError>) -> Seq<AssertionErrorView> {
    Seq::new(v.len(), |i: int| v[i]@)
}

/// The id of the check that failed.
pub open spec fn error_id(e: AssertionErrorView) -> u32 {
    match e {
        AssertionErrorView::InvalidExpectation(id, _) => id,
        AssertionErrorView::FailedAssert(id, _) => id,
        AssertionErrorView::InvalidActual(id, _) => id,
    }
}

impl AssertionError {
    pub fn get_id(&self) -> (r: u32)
        ensures
            r == error_id(self@),
    {
        match self {
            AssertionError::InvalidExpectation(id, _) => *id,
            AssertionError::FailedAssert(id, _) => *id,
            AssertionError::InvalidActual(id, _) => *id,
        }
    }

    /// The kind of the error, as metrics label it.
    pub fn label(&self) -> (r: &'static str)
        ensures
            r@ == (match self@ {
                AssertionErrorView::InvalidExpectation(_, _) => "InvalidExpectation"@,
                AssertionErrorView::FailedAssert(_, _) => "FailedAssert"@,
                AssertionErrorView::InvalidActual(_, _) => "InvalidActual"@,
            }),
    {
        match self {
            AssertionError::InvalidExpectation(_, _) => "InvalidExpectation",
            AssertionError::FailedAssert(_, _) => "FailedAssert",
            AssertionError::InvalidActual(_, _) => "InvalidActual",
        }
    }
}

// ---------------------------------------------------------------------------------------------
// How checks are described
// ---------------------------------------------------------------------------------------------

pub open spec fn describe_path(path: Seq<char>) -> Seq<char> {
    "JsonPath { path: "@ + quoted_text(path) + " }"@
}

pub open spec fn describe_expectation(e: ExpectationView) -> Seq<char> {
    match e {
        ExpectationView::RequestPath(n) => "RequestPath("@ + decimal_text(n as nat) + ")"@,
        ExpectationView::RequestQueryParam(name) => "RequestQueryParam("@ + quoted_text(name)
            + ")"@,
        ExpectationView::RequestBody(path) => "RequestBody("@ + describe_path(path) + ")"@,
        ExpectationView::Constant(v) => "Constant("@ + json_debug_of(v) + ")"@,
    }
}

pub open spec fn describe_actual(a: ActualView) -> Seq<char> {
    match a {
        ActualView::FromJsonResponse(path) => "FromJsonResponse("@ + describe_path(path) + ")"@,
        ActualView::Constant(v) => "Constant("@ + json_debug_of(v) + ")"@,
    }
}

pub open spec fn describe_assertion(a: AssertionView) -> Seq<char> {
    "Assertion { id: "@ + decimal_text(a.id as nat) + ", expectation: "@ + describe_expectation(
        a.expectation,
    ) + ", actual: "@ + describe_actual(a.actual) + " }"@
}

/// The values, described, with commas between them.
pub open spec fn describe_items(values: Seq<JsonView>) -> Seq<char>
    decreases values.len(),
{
    if values.len() == 0 {
        Seq::empty()
    } else if values.len() == 1 {
        json_debug_of(values[0])
    } else {
        describe_items(values.drop_last()) + ", "@ + json_debug_of(values.last())
    }
}

pub open spec fn describe_values(values: Seq<JsonView>) -> Seq<char> {
    "["@ + describe_items(values) + "]"@
}

fn path_description(path: &JsonPath) -> (r: String)
    ensures
        r@ == describe_path(path@),
{
    let mut r = "JsonPath { path: ".to_owned();
    r.append(quoted(path.path()).as_str());
    r.append(" }");
    r
}

impl Expectation {
    fn description(&self) -> (r: String)
        ensures
            r@ == describe_expectation(self@),
    {
        let (head, inner) = match self {
            Expectation::RequestPath(n) => ("RequestPath(", decimal(n.get() as u64)),
            Expectation::RequestQueryParam(name) => (
                "RequestQueryParam(",
                quoted(name.as_str()),
            ),
            Expectation::RequestBody(path) => ("RequestBody(", path_description(path)),
            Expectation::Constant(v) => ("Constant(", json_debug(v)),
        };
        let mut r = head.to_owned();
        r.append(inner.as_str());
        r.append(")");
        r
    }
}

impl Actual {
    fn description(&self) -> (r: String)
        ensures
            r@ == describe_actual(self@),
    {
        let (head, inner) = match self {
            Actual::FromJsonResponse(path) => ("FromJsonResponse(", path_description(path)),
            Actual::Constant(v) => ("Constant(", json_debug(v)),
        };
        let mut r = head.to_owned();
        r.append(inner.as_str());
        r.append(")");
        r
    }
}

impl Assertion {
    fn description(&self) -> (r: String)
        ensures
            r@ == describe_assertion(self@),
    {
        let mut r = "Assertion { id: ".to_owned();
        r.append(decimal(self.id as u64).as_str());
        r.append(", expectation: ");
        r.append(self.expectation.description().as_str());
        r.append(", actual: ");
        r.append(self.actual.description().as_str());
        r.append(" }");
        r
    }
}

fn values_description(values: &Vec<Json>) -> (r: String)
    ensures
        r@ == describe_values(items_view(values@)),
{
    let ghost view = items_view(values@);
    let mut inner = String::new();
    let mut i: usize = 0;
    assert(view.take(0) =~= Seq::empty());
    while i < values.len()
        invariant
            i <= values@.len(),
            view == items_view(values@),
            inner@ == describe_items(view.take(i as int)),
        decreases values@.len() - i,
    {
        proof {
            assert(view.take(i + 1).drop_last() =~= view.take(i as int));
            assert(view.take(i + 1).last() == view[i as int]);
        }
        if i > 0 {
            inner.append(", ");
        }
        inner.append(json_debug(&values[i]).as_str());
        i += 1;
        assert(inner@ =~= describe_items(view.take(i as int)));
    }
    assert(view.take(i as int) =~= view);
    let mut r = "[".to_owned();
    r.append(inner.as_str());
    r.append("]");
    r
}

// ---------------------------------------------------------------------------------------------
// What a check finds
// ---------------------------------------------------------------------------------------------

/// Two lists of equal values.
pub open spec fn values_same(a: Seq<JsonView>, b: Seq<JsonView>) -> bool {
    a.len() == b.len() && forall|i: int| 0 <= i < a.len() ==> json_same(#[trigger] a[i], b[i])
}

/// The values that are expected, or why there are none. `body` is what the check's path selects
/// of the request's body, if there is one.
pub open spec fn expected_values(
    a: AssertionView,
    uri: UriView,
    body: Option<Result<Seq<JsonView>, Seq<char>>>,
) -> Result<Seq<JsonView>, AssertionErrorView> {
    let about = "Assertion: "@ + describe_assertion(a) + " - "@ + describe_expectation(
        a.expectation,
    );
    match a.expectation {
        ExpectationView::RequestPath(n) => {
            let segments = split_on(uri.path, '/');
            if segments.len() < n + 1 {
                Err(
                    AssertionErrorView::InvalidExpectation(
                        a.id,
                        about + ": SegmentNumber too big."@,
                    ),
                )
            } else {
                Ok(seq![JsonView::String(segments[n])])
            }
        },
        ExpectationView::RequestQueryParam(name) => match query_param(uri.query, name) {
            Some(value) => Ok(seq![JsonView::String(value)]),
            None => Err(
                AssertionErrorView::InvalidExpectation(a.id, about + ": query param not found."@),
            ),
        },
        ExpectationView::Constant(v) => Ok(seq![v]),
        ExpectationView::RequestBody(_) => match body {
            Some(Ok(found)) => Ok(found),
            Some(Err(e)) => Err(
                AssertionErrorView::InvalidExpectation(
                    a.id,
                    about + ": failed to extract value: "@ + e + "."@,
                ),
            ),
            None => Err(
                AssertionErrorView::InvalidExpectation(
                    a.id,
                    describe_assertion(a) + " - no request body"@,
                ),
            ),
        },
    }
}

/// What is wrong with a response, if anything. `response` is what the check's path selects of it.
pub open spec fn check_fault(
    a: AssertionView,
    uri: UriView,
    body: Option<Result<Seq<JsonView>, Seq<char>>>,
    response: Result<Seq<JsonView>, Seq<char>>,
) -> Option<AssertionErrorView> {
    match expected_values(a, uri, body) {
        Err(e) => Some(e),
        Ok(expected) => if expected.len() == 0 {
            Some(
                AssertionErrorView::InvalidExpectation(
                    a.id,
                    describe_assertion(a) + " - expectation not found or empty - "@
                        + describe_values(expected),
                ),
            )
        } else {
            match a.actual {
                ActualView::FromJsonResponse(_) => match response {
                    Ok(found) => if values_same(found, expected) {
                        None
                    } else {
                        Some(
                            AssertionErrorView::FailedAssert(
                                a.id,
                                describe_assertion(a) + " - expected: "@ + describe_values(expected)
                                    + ", actual: "@ + describe_values(found),
                            ),
                        )
                    },
                    Err(e) => Some(
                        AssertionErrorView::InvalidActual(
                            a.id,
                            describe_assertion(a) + " - "@ + describe_actual(a.actual)
                                + ": error: "@ + e,
                        ),
                    ),
                },
                ActualView::Constant(v) => if values_same(expected, seq![v]) {
                    None
                } else {
                    Some(
                        AssertionErrorView::FailedAssert(
                            a.id,
                            describe_assertion(a) + " - expected: "@ + describe_values(expected)
                                + ", actual: "@ + json_debug_of(v),
                        ),
                    )
                },
            }
        },
    }
}

fn same_values(a: &Vec<Json>, b: &Vec<Json>) -> (r: bool)
    ensures
        r == values_same(items_view(a@), items_view(b@)),
{
    if a.len() != b.len() {
        return false;
    }
    let ghost x = items_view(a@);
    let ghost y = items_view(b@);
    let mut i: usize = 0;
    while i < a.len()
        invariant
            i <= a@.len() == b@.len(),
            x == items_view(a@),
            y == items_view(b@),
            forall|j: int| 0 <= j < i ==> json_same(#[trigger] x[j], y[j]),
        decreases a@.len() - i,
    {
        if !a[i].same(&b[i]) {
            assert(!json_same(x[i as int], y[i as int]));
            return false;
        }
        i += 1;
    }
    true
}

pub open spec fn selection_option_view(r: Option<Result<Vec<Json>, String>>) -> Option<
    Result<Seq<JsonView>, Seq<char>>,
> {
    match r {
        Some(s) => Some(selection_view(s)),
        None => None,
    }
}

impl Assertion {
    /// The message of an invalid expectation.
    fn expectation_error(&self, what: &str) -> (r: AssertionError)
        ensures
            r@ == AssertionErrorView::InvalidExpectation(
                self.id,
                "Assertion: "@ + describe_assertion(self@) + " - "@ + describe_expectation(
                    self@.expectation,
                ) + what@,
            ),
    {
        let mut m = "Assertion: ".to_owned();
        m.append(self.description().as_str());
        m.append(" - ");
        m.append(self.expectation.description().as_str());
        m.append(what);
        AssertionError::InvalidExpectation(self.id, m)
    }

    /// The values that are expected.
    fn expected(&self, uri: &UriParts, body: Option<Result<Vec<Json>, String>>) -> (r: Result<
        Vec<Json>,
        AssertionError,
    >)
        requires
            self@.expectation is RequestQueryParam ==> query_complete(uri@.query),
        ensures
            match r {
                Ok(v) => expected_values(self@, uri@, selection_option_view(body)) == Ok::<
                    Seq<JsonView>,
                    AssertionErrorView,
                >(items_view(v@)),
                Err(e) => expected_values(self@, uri@, selection_option_view(body)) == Err::<
                    Seq<JsonView>,
                    AssertionErrorView,
                >(e@),
            },
    {
        match &self.expectation {
            Expectation::RequestPath(segment) => {
                let segments = split(uri.path.as_str(), '/');
                let pos: usize = segment.get() as usize;
                if segments.len() < pos + 1 {
                    Err(self.expectation_error(": SegmentNumber too big."))
                } else {
                    assert(texts_view(segments@)[pos as int] == segments@[pos as int]@);
                    let values = vec![Json::String(segments[pos].clone())];
                    assert(items_view(values@) =~= seq![
                        JsonView::String(split_on(uri@.path, '/')[pos as int]),
                    ]);
                    Ok(values)
                }
            },
            Expectation::RequestQueryParam(name) => match uri.param(name.as_str()) {
                Some(value) => {
                    let values = vec![Json::String(value)];
                    assert(items_view(values@) =~= seq![JsonView::String(value@)]);
                    Ok(values)
                },
                None => Err(self.expectation_error(": query param not found.")),
            },
            Expectation::Constant(v) => {
                let values = vec![v.clone()];
                assert(items_view(values@) =~= seq![v@]);
                Ok(values)
            },
            Expectation::RequestBody(_) => match body {
                Some(Ok(found)) => Ok(found),
                Some(Err(e)) => {
                    let mut what = ": failed to extract value: ".to_owned();
                    what.append(e.as_str());
                    what.append(".");
                    let error = self.expectation_error(what.as_str());
                    proof {
                        let about = "Assertion: "@ + describe_assertion(self@) + " - "@
                            + describe_expectation(self@.expectation);
                        assert(about + what@ =~= about + ": failed to extract value: "@ + e@
                            + "."@);
                    }
                    Err(error)
                },
                None => {
                    let m = join2(self.description().as_str(), " - no request body");
                    Err(AssertionError::InvalidExpectation(self.id, m))
                },
            },
        }
    }

    /// What is wrong with a response, if anything. `body` is what this check's path selects of
    /// the request's body, if there is one; `response` is what it selects of the response.
    pub fn check(
        &self,
        uri: &UriParts,
        body: Option<Result<Vec<Json>, String>>,
        response: Result<Vec<Json>, String>,
    ) -> (r: Option<AssertionError>)
        requires
            self@.expectation is RequestQueryParam ==> query_complete(uri@.query),
        ensures
            match r {
                Some(e) => check_fault(
                    self@,
                    uri@,
                    selection_option_view(body),
                    selection_view(response),
                ) == Some(e@),
                None => check_fault(
                    self@,
                    uri@,
                    selection_option_view(body),
                    selection_view(response),
                ) is None,
            },
    {
        let expected = match self.expected(uri, body) {
            Ok(v) => v,
            Err(e) => return Some(e),
        };
        if expected.len() == 0 {
            let mut m = self.description();
            m.append(" - expectation not found or empty - ");
            m.append(values_description(&expected).as_str());
            return Some(AssertionError::InvalidExpectation(self.id, m));
        }
        match &self.actual {
            Actual::FromJsonResponse(_) => match response {
                Ok(found) => {
                    if same_values(&found, &expected) {
                        None
                    } else {
                        let mut m = self.description();
                        m.append(" - expected: ");
                        m.append(values_description(&expected).as_str());
                        m.append(", actual: ");
                        m.append(values_description(&found).as_str());
                        Some(AssertionError::FailedAssert(self.id, m))
                    }
                },
                Err(e) => {
                    let mut m = self.description();
                    m.append(" - ");
                    m.append(self.actual.description().as_str());
                    m.append(": error: ");
                    m.append(e.as_str());
                    Some(AssertionError::InvalidActual(self.id, m))
                },
            },
            Actual::Constant(v) => {
                let values = vec![v.clone()];
                assert(items_view(values@) =~= seq![v@]);
                if same_values(&expected, &values) {
                    None
                } else {
                    let mut m = self.description();
                    m.append(" - expected: ");
                    m.append(values_description(&expected).as_str());
                    m.append(", actual: ");
                    m.append(json_debug(v).as_str());
                    Some(AssertionError::FailedAssert(self.id, m))
                }
            },
        }
    }
}

/// What a check's path selects of the request's body.
pub open spec fn body_selection(a: AssertionView, body: Option<JsonView>) -> Option<
    Result<Seq<JsonView>, Seq<char>>,
> {
    match (a.expectation, body) {
        (ExpectationView::RequestBody(path), Some(b)) => Some(selected(path, b)),
        _ => None,
    }
}

/// What a check's path selects of the response.
pub open spec fn response_selection(a: AssertionView, response: JsonView) -> Result<
    Seq<JsonView>,
    Seq<char>,
> {
    match a.actual {
        ActualView::FromJsonResponse(path) => selected(path, response),
        ActualView::Constant(_) => Ok(Seq::empty()),
    }
}

/// What is wrong with a response, check by check.
pub open spec fn response_faults(
    list: Seq<AssertionView>,
    uri: UriView,
    body: Option<JsonView>,
    response: JsonView,
) -> Seq<AssertionErrorView>
    decreases list.len(),
{
    if list.len() == 0 {
        Seq::empty()
    } else {
        let a = list.last();
        let before = response_faults(list.drop_last(), uri, body, response);
        match check_fault(a, uri, body_selection(a, body), response_selection(a, response)) {
            Some(e) => before.push(e),
            None => before,
        }
    }
}

/// What is wrong with a response, by two lists of checks one after the other: what is wrong by the
/// first, and then what is wrong by the second.
pub proof fn lemma_faults_joined(
    a: Seq<AssertionView>,
    b: Seq<AssertionView>,
    uri: UriView,
    body: Option<JsonView>,
    response: JsonView,
)
    ensures
        response_faults(a + b, uri, body, response) == response_faults(a, uri, body, response)
            + response_faults(b, uri, body, response),
    decreases b.len(),
{
    let first = response_faults(a, uri, body, response);
    if b.len() == 0 {
        assert(a + b =~= a);
        assert(first + response_faults(b, uri, body, response) =~= first);
    } else {
        lemma_faults_joined(a, b.drop_last(), uri, body, response);
        assert((a + b).drop_last() =~= a + b.drop_last());
        assert((a + b).last() == b.last());
        assert(response_faults(a + b, uri, body, response) =~= first + response_faults(
            b,
            uri,
            body,
            response,
        ));
    }
}

/// A check finds a value that is expected, so that it looks at the response.
pub open spec fn expects(a: AssertionView, uri: UriView, body: Option<JsonView>) -> bool {
    expected_values(a, uri, body_selection(a, body)) matches Ok(expected) && expected.len() > 0
}

/// A check can be made: the query has a value for every parameter where one is looked up, and the
/// paths that it follows select safely. It follows none in a body of the request that is not there,
/// and none in the response where it expects nothing.
pub open spec fn checkable(a: AssertionView, uri: UriView, body: Option<JsonView>) -> bool {
    &&& a.expectation is RequestQueryParam ==> query_complete(uri.query)
    &&& a.expectation matches ExpectationView::RequestBody(path) ==> body is Some
        ==> selects_safely(path)
    &&& a.actual matches ActualView::FromJsonResponse(path) ==> expects(a, uri, body)
        ==> selects_safely(path)
}

/// Every check of a list can be made.
pub open spec fn all_checkable(
    list: Seq<Assertion>,
    uri: UriView,
    body: Option<JsonView>,
) -> bool {
    forall|i: int| 0 <= i < list.len() ==> checkable((#[trigger] list[i])@, uri, body)
}

pub open spec fn json_option_view(v: Option<&Json>) -> Option<JsonView> {
    match v {
        Some(j) => Some(j@),
        None => None,
    }
}

impl Assertion {
    /// What this check's path selects of the body of the request.
    fn select_body(&self, body: Option<&Json>) -> (r: Option<Result<Vec<Json>, String>>)
        requires
            self@.expectation matches ExpectationView::RequestBody(path) ==> body is Some
                ==> selects_safely(path),
        ensures
            selection_option_view(r) == body_selection(self@, json_option_view(body)),
    {
        match (&self.expectation, body) {
            (Expectation::RequestBody(path), Some(b)) => Some(path.select(b)),
            _ => None,
        }
    }

    /// Whether this check finds a value that is expected.
    fn expects(&self, uri: &UriParts, body: Option<&Json>) -> (r: bool)
        requires
            self@.expectation is RequestQueryParam ==> query_complete(uri@.query),
            self@.expectation matches ExpectationView::RequestBody(path) ==> body is Some
                ==> selects_safely(path),
        ensures
            r == expects(self@, uri@, json_option_view(body)),
    {
        match self.expected(uri, self.select_body(body)) {
            Ok(values) => {
                assert(items_view(values@).len() == values@.len());
                values.len() > 0
            },
            Err(_) => false,
        }
    }

    /// Whether this check can be made.
    pub fn is_checkable(&self, uri: &UriParts, body: Option<&Json>) -> (r: bool)
        ensures
            r == checkable(self@, uri@, json_option_view(body)),
    {
        let found = match &self.expectation {
            Expectation::RequestQueryParam(_) => uri.is_query_complete(),
            Expectation::RequestBody(path) => body.is_none() || path.is_safe(),
            _ => true,
        };
        if !found {
            return false;
        }
        match &self.actual {
            Actual::FromJsonResponse(path) => path.is_safe() || !self.expects(uri, body),
            Actual::Constant(_) => true,
        }
    }

    /// What is wrong with a response, if anything.
    fn check_response(&self, uri: &UriParts, body: Option<&Json>, response: &Json) -> (r: Option<
        AssertionError,
    >)
        requires
            checkable(self@, uri@, json_option_view(body)),
        ensures
            error_option_view(r) == check_fault(
                self@,
                uri@,
                body_selection(self@, json_option_view(body)),
                response_selection(self@, response@),
            ),
    {
        let found: Result<Vec<Json>, String> = match &self.actual {
            Actual::FromJsonResponse(path) => if path.is_safe() {
                path.select(response)
            } else {
                Ok(Vec::new())
            },
            Actual::Constant(_) => Ok(Vec::new()),
        };
        proof {
            if self.actual is Constant {
                assert(items_view(found->Ok_0@) =~= Seq::empty());
            }
        }
        self.check(uri, self.select_body(body), found)
    }
}

/// An error, or none, viewed.
pub open spec fn error_option_view(e: Option<AssertionError>) -> Option<AssertionErrorView> {
    match e {
        Some(e) => Some(e@),
        None => None,
    }
}

/// What checking a response comes to: fine where every check is, else what is wrong, check by
/// check.
pub open spec fn response_checked(
    assertions: ResponseAssertion,
    uri: UriView,
    body: Option<JsonView>,
    response: JsonView,
    r: Result<(), Vec<AssertionError>>,
) -> bool {
    let faults = response_faults(assertions_view(assertions.assertions@), uri, body, response);
    match r {
        Ok(_) => faults.len() == 0,
        Err(errors) => faults.len() > 0 && errors_view(errors@) == faults,
    }
}

/// Checks a response: fine where every check is, else what is wrong, check by check.
pub fn assert_response(
    assertions: &ResponseAssertion,
    request_url: &UriParts,
    request_body: Option<&Json>,
    response: &Json,
) -> (r: Result<(), Vec<AssertionError>>)
    requires
        all_checkable(assertions.assertions@, request_url@, json_option_view(request_body)),
    ensures
        response_checked(
            *assertions,
            request_url@,
            json_option_view(request_body),
            response@,
            r,
        ),
{
    let list = &assertions.assertions;
    let ghost view = assertions_view(list@);
    let ghost body_view = json_option_view(request_body);
    let mut errors: Vec<AssertionError> = Vec::new();
    let mut i: usize = 0;
    proof {
        assert(view.take(0) =~= Seq::empty());
        assert(errors_view(errors@) =~= Seq::empty());
    }
    while i < list.len()
        invariant
            i <= list@.len(),
            view == assertions_view(list@),
            body_view == json_option_view(request_body),
            all_checkable(list@, request_url@, body_view),
            errors_view(errors@) == response_faults(
                view.take(i as int),
                request_url@,
                body_view,
                response@,
            ),
        decreases list@.len() - i,
    {
        let assertion = &list[i];
        proof {
            assert(view.take(i + 1).drop_last() =~= view.take(i as int));
            assert(view.take(i + 1).last() == list@[i as int]@);
            assert(checkable(list@[i as int]@, request_url@, body_view));
        }
        let ghost before = errors_view(errors@);
        match assertion.check_response(request_url, request_body, response) {
            Some(e) => {
                errors.push(e);
                assert(errors_view(errors@) =~= before.push(e@));
            },
            None => {},
        }
        i += 1;
    }
    assert(view.take(i as int) =~= view);
    if errors.len() == 0 {
        Ok(())
    } else {
        Err(errors)
    }
}

/// Whether every check can be made.
pub fn can_assert_response(
    assertions: &ResponseAssertion,
    request_url: &UriParts,
    request_body: Option<&Json>,
) -> (r: bool)
    ensures
        r == all_checkable(assertions.assertions@, request_url@, json_option_view(request_body)),
{
    let list = &assertions.assertions;
    let ghost body_view = json_option_view(request_body);
    let mut i: usize = 0;
    while i < list.len()
        invariant
            i <= list@.len(),
            list == &assertions.assertions,
            body_view == json_option_view(request_body),
            forall|j: int|
                0 <= j < i ==> checkable((#[trigger] list@[j])@, request_url@, body_view),
        decreases list@.len() - i,
    {
        if !list[i].is_checkable(request_url, request_body) {
            assert(!checkable(list@[i as int]@, request_url@, body_view));
            return false;
        }
        i += 1;
    }
    true
}

/// Checks a response, where every check can be made.
pub fn try_assert_response(
    assertions: &ResponseAssertion,
    request_url: &UriParts,
    request_body: Option<&Json>,
    response: &Json,
) -> (r: Option<Result<(), Vec<AssertionError>>>)
    ensures
        r is Some == all_checkable(
            assertions.assertions@,
            request_url@,
            json_option_view(request_body),
        ),
        r matches Some(checked) ==> response_checked(
            *assertions,
            request_url@,
            json_option_view(request_body),
            response@,
            checked,
        ),
{
    if can_assert_response(assertions, request_url, request_body) {
        Some(assert_response(assertions, request_url, request_body, response))
    } else {
        None
    }
}

/// A response passes exactly where each check does.
pub proof fn lemma_passes_iff_each_passes(
    list: Seq<AssertionView>,
    uri: UriView,
    body: Option<JsonView>,
    response: JsonView,
)
    ensures
        response_faults(list, uri, body, response).len() == 0 <==> forall|i: int|
            0 <= i < list.len() ==> check_fault(
                #[trigger] list[i],
                uri,
                body_selection(list[i], body),
                response_selection(list[i], response),
            ) is None,
        response_faults(list, uri, body, response).len() <= list.len(),
    decreases list.len(),
{
    if list.len() > 0 {
        let rest = list.drop_last();
        lemma_passes_iff_each_passes(rest, uri, body, response);
        assert(list[list.len() - 1] == list.last());
        if response_faults(list, uri, body, response).len() == 0 {
            assert forall|i: int| 0 <= i < list.len() implies check_fault(
                #[trigger] list[i],
                uri,
                body_selection(list[i], body),
                response_selection(list[i], response),
            ) is None by {
                if i < rest.len() {
                    assert(rest[i] == list[i]);
                }
            }
        }
        if forall|i: int|
            0 <= i < list.len() ==> check_fault(
                #[trigger] list[i],
                uri,
                body_selection(list[i], body),
                response_selection(list[i], response),
            ) is None {
            assert forall|i: int| 0 <= i < rest.len() implies check_fault(
                #[trigger] rest[i],
                uri,
                body_selection(rest[i], body),
                response_selection(rest[i], response),
            ) is None by {
                assert(rest[i] == list[i]);
            }
        }
    }
}

} // verus!
