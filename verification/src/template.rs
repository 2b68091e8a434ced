//! Templates: documents whose strings hold expressions, as in `"{{randomInt(1, 9)}}"`, and the
//! data that takes their place.

use vstd::prelude::*;
use vstd::string::StringExecFns;

use crate::json::{
    entries_view, items_view, key_index, lemma_array_view, lemma_object_view, set_entry,
    unique_keys, Json, JsonView,
};
use crate::pointer::{
    is_plain, lemma_longer_path, lemma_position, lemma_resolve_push, place, placed_at, step_into,
    steps_of, value_at,
};
use crate::serde_bridge::from_value;
use crate::template_functions::registered;
use crate::text::{decimal, decimal_text};
use crate::text_map::TextMap;

verus! {

// ---------------------------------------------------------------------------------------------
// Expressions
// ---------------------------------------------------------------------------------------------

/// An expression in a string: the shortest text between two pairs of braces, on one line.
pub const TEMPLATE_PATTERN: &'static str = "\\{\\{(.+?)}}";

/// The braces at `i` and at `j` enclose an expression.
pub open spec fn is_template(s: Seq<char>, i: int, j: int) -> bool {
    &&& 0 <= i
    &&& i + 3 <= j
    &&& j + 2 <= s.len()
    &&& s[i] == '{' && s[i + 1] == '{'
    &&& s[j] == '}' && s[j + 1] == '}'
    &&& forall|k: int| i + 2 <= k < j ==> #[trigger] s[k] != '\n'
}

/// They enclose the first expression, and as little as can be.
pub open spec fn is_first_template(s: Seq<char>, i: int, j: int) -> bool {
    &&& is_template(s, i, j)
    &&& forall|a: int, b: int| #[trigger]
        is_template(s, a, b) ==> i < a || (i == a && j <= b)
}

/// The first expression in a string.
pub open spec fn expression_of(s: Seq<char>) -> Option<Seq<char>> {
    if exists|i: int, j: int| is_first_template(s, i, j) {
        let (i, j) = choose|i: int, j: int| is_first_template(s, i, j);
        Some(s.subrange(i + 2, j))
    } else {
        None
    }
}

/// Where the first expression stands is not left open.
pub proof fn lemma_expression(s: Seq<char>, i: int, j: int)
    requires
        is_first_template(s, i, j),
    ensures
        expression_of(s) == Some(s.subrange(i + 2, j)),
{
    let (a, b) = choose|a: int, b: int| is_first_template(s, a, b);
    assert(is_first_template(s, a, b));
    assert(is_template(s, a, b));
    assert(is_template(s, i, j));
}

/// `regex::Regex::captures` on the pattern of an expression: the text of its group in the leftmost
/// match, which the lazy repetition keeps as short as it can. `Regex::new` fails on some patterns,
/// and not on this one.
#[verifier::external_body]
fn first_capture(pattern: &str, text: &str) -> (r: Option<String>)
    requires
        pattern@ == TEMPLATE_PATTERN@,
    ensures
        match r {
            Some(expression) => expression_of(text@) == Some(expression@),
            None => expression_of(text@) is None,
        },
{
    let re = regex::Regex::new(pattern).unwrap();
    re.captures(text).and_then(|c| c.get(1)).map(|m| m.as_str().to_string())
}

#[verifier::external_type_specification]
#[verifier::external_body]
pub struct ExEngine(rhai::Engine);

#[verifier::external_type_specification]
#[verifier::external_body]
pub struct ExAst(rhai::AST);

/// The expression that a program was made from.
pub uninterp spec fn source_of(program: rhai::AST) -> Seq<char>;

/// An expression of a template, and its program, or what is wrong with it.
#[derive(Debug)]
pub struct Template {
    expression: String,
    program: Result<rhai::AST, String>,
}

impl Template {
    /// The program was made from the expression.
    #[verifier::type_invariant]
    spec fn belongs(&self) -> bool {
        self.program matches Ok(program) ==> source_of(program) == self.expression@
    }

    /// The expression.
    pub closed spec fn text(&self) -> Seq<char> {
        self.expression@
    }

    /// What is wrong with the expression, if anything is.
    pub closed spec fn fault(&self) -> Option<Seq<char>> {
        match self.program {
            Ok(_) => None,
            Err(message) => Some(message@),
        }
    }

    /// What was said of the expression is what an engine with the given functions can say.
    pub open spec fn compiled_with(
        &self,
        functions: Map<(Seq<char>, Seq<Seq<char>>), Seq<char>>,
    ) -> bool {
        compile_outcomes(self.text(), functions).contains(self.fault())
    }

    /// The expression.
    pub fn expression(&self) -> (r: &str)
        ensures
            r@ == self.text(),
    {
        self.expression.as_str()
    }

    /// The program, or what is wrong with the expression.
    pub fn program(&self) -> (r: Result<&rhai::AST, &str>)
        ensures
            match r {
                Ok(program) => self.fault() is None && source_of(*program) == self.text(),
                Err(message) => self.fault() == Some(message@),
            },
    {
        proof {
            use_type_invariant(self);
        }
        match &self.program {
            Ok(program) => Ok(program),
            Err(message) => Err(message.as_str()),
        }
    }

    /// An expression, compiled by an engine.
    fn new(engine: &rhai::Engine, expression: String) -> (r: Template)
        ensures
            r.text() == expression@,
            r.compiled_with(registered(*engine)),
    {
        let program = compile(engine, expression.as_str());
        Template { expression, program }
    }
}

/// What an engine with the given functions can say of an expression when it compiles it: nothing, or
/// what is wrong with it.
pub uninterp spec fn compile_outcomes(
    expression: Seq<char>,
    functions: Map<(Seq<char>, Seq<Seq<char>>), Seq<char>>,
) -> Set<Option<Seq<char>>>;

/// What an expression can come to in an engine with the given functions: a value, or the message of
/// an error. There are many where it draws random data.
pub uninterp spec fn template_outcomes(
    expression: Seq<char>,
    functions: Map<(Seq<char>, Seq<Seq<char>>), Seq<char>>,
) -> Set<Result<JsonView, Seq<char>>>;

/// The message of the error, if compiling ended with one.
pub open spec fn compile_fault(program: Result<rhai::AST, String>) -> Option<Seq<char>> {
    match program {
        Ok(_) => None,
        Err(message) => Some(message@),
    }
}

/// `rhai::Engine::compile`: the program of an expression, or the message of the error, which is one
/// of [`compile_outcomes`].
#[verifier::external_body]
fn compile(engine: &rhai::Engine, expression: &str) -> (r: Result<rhai::AST, String>)
    ensures
        compile_outcomes(expression@, registered(*engine)).contains(compile_fault(r)),
        r matches Ok(program) ==> source_of(program) == expression@,
{
    engine.compile(expression).map_err(|e| e.to_string())
}

/// What came of running a program, viewed.
pub open spec fn run_view(outcome: Result<Json, String>) -> Result<JsonView, Seq<char>> {
    match outcome {
        Ok(value) => Ok(value@),
        Err(message) => Err(message@),
    }
}

/// `rhai::Engine::eval_ast`, with the result as JSON (`serde_json::to_value`), or the message of the
/// error: one of the [`template_outcomes`] of what the program was made from.
#[verifier::external_body]
fn run(engine: &rhai::Engine, program: &rhai::AST) -> (r: Result<Json, String>)
    ensures
        template_outcomes(source_of(*program), registered(*engine)).contains(run_view(r)),
{
    let result = engine.eval_ast::<rhai::Dynamic>(program).map_err(|e| e.to_string())?;
    let value = serde_json::to_value(result).map_err(|e| e.to_string())?;
    Ok(from_value(&value))
}

/// The compiled first expression of a string.
pub fn find_pattern_and_compile(target: &str, engine: &rhai::Engine) -> (r: Option<Template>)
    ensures
        match r {
            Some(t) => expression_of(target@) == Some(t.text()) && t.compiled_with(
                registered(*engine),
            ),
            None => expression_of(target@) is None,
        },
{
    match first_capture(TEMPLATE_PATTERN, target) {
        Some(expression) => Some(Template::new(engine, expression)),
        None => None,
    }
}

// ---------------------------------------------------------------------------------------------
// The expressions of a document
// ---------------------------------------------------------------------------------------------

/// The path of a member or an item.
pub open spec fn inner_path(path: Seq<char>, step: Seq<char>) -> Seq<char> {
    path + seq!['/'] + step
}

/// The parts, one after the other.
pub open spec fn chain<T>(parts: Seq<Seq<T>>) -> Seq<T>
    decreases parts.len(),
{
    if parts.len() == 0 {
        Seq::empty()
    } else {
        chain(parts.drop_last()) + parts.last()
    }
}

/// The paths and expressions of the strings in a document that hold one, in order.
pub open spec fn templates_of(json: JsonView, path: Seq<char>) -> Seq<(Seq<char>, Seq<char>)>
    decreases json,
{
    match json {
        JsonView::String(s) => match expression_of(s) {
            Some(expression) => seq![(path, expression)],
            None => Seq::empty(),
        },
        JsonView::Array(v) => chain(item_parts(v, path)),
        JsonView::Object(e) => chain(member_parts(e, path)),
        _ => Seq::empty(),
    }
}

/// What is found in each item of an array.
pub open spec fn item_parts(v: Seq<JsonView>, path: Seq<char>) -> Seq<Seq<(Seq<char>, Seq<char>)>>
    decreases v,
{
    Seq::new(
        v.len(),
        |i: int|
            if 0 <= i < v.len() {
                templates_of(v[i], inner_path(path, decimal_text(i as nat)))
            } else {
                Seq::empty()
            },
    )
}

/// What is found in each member of an object.
pub open spec fn member_parts(e: Seq<(Seq<char>, JsonView)>, path: Seq<char>) -> Seq<
    Seq<(Seq<char>, Seq<char>)>,
>
    decreases e,
{
    Seq::new(
        e.len(),
        |i: int|
            if 0 <= i < e.len() {
                templates_of(e[i].1, inner_path(path, e[i].0))
            } else {
                Seq::empty()
            },
    )
}

/// The paths and expressions of compiled templates.
pub open spec fn expressions(entries: Seq<(Seq<char>, Template)>) -> Seq<(Seq<char>, Seq<char>)> {
    Seq::new(entries.len(), |i: int| (entries[i].0, entries[i].1.text()))
}

/// The entries `all` with those of `list` set, one after the other.
pub open spec fn with_all(
    all: Seq<(Seq<char>, Seq<char>)>,
    list: Seq<(Seq<char>, Seq<char>)>,
) -> Seq<(Seq<char>, Seq<char>)>
    decreases list.len(),
{
    if list.len() == 0 {
        all
    } else {
        set_entry(with_all(all, list.drop_last()), list.last().0, list.last().1)
    }
}

proof fn lemma_with_all_chain(
    all: Seq<(Seq<char>, Seq<char>)>,
    a: Seq<(Seq<char>, Seq<char>)>,
    b: Seq<(Seq<char>, Seq<char>)>,
)
    ensures
        with_all(all, a + b) == with_all(with_all(all, a), b),
    decreases b.len(),
{
    if b.len() == 0 {
        assert(a + b =~= a);
    } else {
        lemma_with_all_chain(all, a, b.drop_last());
        assert((a + b).drop_last() =~= a + b.drop_last());
        assert((a + b).last() == b.last());
    }
}

proof fn lemma_expressions_index(entries: Seq<(Seq<char>, Template)>, key: Seq<char>)
    ensures
        key_index(expressions(entries), key) == key_index(entries, key),
    decreases entries.len(),
{
    if entries.len() > 0 {
        assert(expressions(entries).last().0 == entries.last().0);
        assert(expressions(entries).drop_last() =~= expressions(entries.drop_last()));
        lemma_expressions_index(entries.drop_last(), key);
    }
}

proof fn lemma_expressions_set(entries: Seq<(Seq<char>, Template)>, key: Seq<char>, t: Template)
    ensures
        expressions(set_entry(entries, key, t)) == set_entry(
            expressions(entries),
            key,
            t.text(),
        ),
{
    lemma_expressions_index(entries, key);
    crate::json::lemma_key_index(entries, key);
    assert(expressions(set_entry(entries, key, t)) =~= set_entry(
        expressions(entries),
        key,
        t.text(),
    ));
}

/// A path is among those of a list.
pub open spec fn has_path(list: Seq<(Seq<char>, Seq<char>)>, path: Seq<char>) -> bool {
    exists|k: int| 0 <= k < list.len() && (#[trigger] list[k]).0 == path
}

/// What is kept under the paths of a list was compiled with the given functions; what is kept under
/// other paths may have been there before.
pub open spec fn newly_compiled(
    before: Seq<(Seq<char>, Template)>,
    list: Seq<(Seq<char>, Seq<char>)>,
    after: Seq<(Seq<char>, Template)>,
    functions: Map<(Seq<char>, Seq<Seq<char>>), Seq<char>>,
) -> bool {
    forall|i: int|
        0 <= i < after.len() ==> (#[trigger] after[i]).1.compiled_with(functions) || (
        before.contains(after[i]) && (unique_keys(before) ==> !has_path(list, after[i].0)))
}

proof fn lemma_newly_compiled(
    before: Seq<(Seq<char>, Template)>,
    first: Seq<(Seq<char>, Seq<char>)>,
    between: Seq<(Seq<char>, Template)>,
    second: Seq<(Seq<char>, Seq<char>)>,
    after: Seq<(Seq<char>, Template)>,
    functions: Map<(Seq<char>, Seq<Seq<char>>), Seq<char>>,
)
    requires
        newly_compiled(before, first, between, functions),
        newly_compiled(between, second, after, functions),
        unique_keys(before) ==> unique_keys(between),
    ensures
        newly_compiled(before, first + second, after, functions),
{
    assert forall|i: int| 0 <= i < after.len() implies (#[trigger] after[i]).1.compiled_with(
        functions,
    ) || (before.contains(after[i]) && (unique_keys(before) ==> !has_path(
        first + second,
        after[i].0,
    ))) by {
        if !after[i].1.compiled_with(functions) {
            let j = choose|j: int| 0 <= j < between.len() && between[j] == after[i];
            assert(between[j].1 == after[i].1);
            if unique_keys(before) && has_path(first + second, after[i].0) {
                let all = first + second;
                let k = choose|k: int| 0 <= k < all.len() && (#[trigger] all[k]).0 == after[i].0;
                if k < first.len() {
                    assert(first[k].0 == after[i].0);
                } else {
                    assert(second[k - first.len()].0 == after[i].0);
                }
            }
        }
    }
}

proof fn lemma_newly_inserted(
    before: Seq<(Seq<char>, Template)>,
    path: Seq<char>,
    t: Template,
    functions: Map<(Seq<char>, Seq<Seq<char>>), Seq<char>>,
)
    requires
        t.compiled_with(functions),
    ensures
        newly_compiled(before, seq![(path, t.text())], set_entry(before, path, t), functions),
{
    let after = set_entry(before, path, t);
    crate::json::lemma_key_index(before, path);
    let at = key_index(before, path);
    assert forall|i: int| 0 <= i < after.len() implies (#[trigger] after[i]).1.compiled_with(
        functions,
    ) || (before.contains(after[i]) && (unique_keys(before) ==> !has_path(
        seq![(path, t.text())],
        after[i].0,
    ))) by {
        if i != at && i < before.len() {
            assert(after[i] == before[i]);
        }
    }
}

/// Finds and compiles the expressions of a document. They are kept under their paths.
pub fn parse_templates(
    engine: &rhai::Engine,
    json: &Json,
    path: &str,
    template_map: &mut TextMap<Template>,
)
    ensures
        expressions(final(template_map).entries()) == with_all(
            expressions(old(template_map).entries()),
            templates_of(json@, path@),
        ),
        newly_compiled(
            old(template_map).entries(),
            templates_of(json@, path@),
            final(template_map).entries(),
            registered(*engine),
        ),
        old(template_map).wf() ==> final(template_map).wf(),
    decreases *json,
{
    broadcast use {lemma_array_view, lemma_object_view};

    let ghost before = template_map.entries();
    match json {
        Json::String(text) => {
            if let Some(template) = find_pattern_and_compile(text.as_str(), engine) {
                proof {
                    lemma_expressions_set(before, path@, template);
                    lemma_newly_inserted(before, path@, template, registered(*engine));
                    let list = seq![(path@, template.text())];
                    assert(list.drop_last() =~= Seq::empty());
                    assert(with_all(expressions(before), list.drop_last()) == expressions(before));
                }
                template_map.insert(path.to_owned(), template);
            }
        },
        Json::Array(items) => {
            assert(decreases_to!(*json => (*json)->Array_0));
            parse_items(engine, items, path, template_map);
        },
        Json::Object(entries) => {
            assert(decreases_to!(*json => (*json)->Object_0));
            parse_members(engine, entries, path, template_map);
        },
        _ => {},
    }
}

fn parse_items(
    engine: &rhai::Engine,
    items: &Vec<Json>,
    path: &str,
    template_map: &mut TextMap<Template>,
)
    ensures
        expressions(final(template_map).entries()) == with_all(
            expressions(old(template_map).entries()),
            chain(item_parts(items_view(items@), path@)),
        ),
        newly_compiled(
            old(template_map).entries(),
            chain(item_parts(items_view(items@), path@)),
            final(template_map).entries(),
            registered(*engine),
        ),
        old(template_map).wf() ==> final(template_map).wf(),
    decreases *items,
{
    let ghost before = expressions(template_map.entries());
    let ghost parts = item_parts(items_view(items@), path@);
    let mut i: usize = 0;
    assert(parts.take(0) =~= Seq::empty());
    while i < items.len()
        invariant
            i <= items@.len(),
            parts == item_parts(items_view(items@), path@),
            expressions(template_map.entries()) == with_all(before, chain(parts.take(i as int))),
            newly_compiled(
                old(template_map).entries(),
                chain(parts.take(i as int)),
                template_map.entries(),
                registered(*engine),
            ),
            old(template_map).wf() ==> template_map.wf(),
        decreases items@.len() - i,
    {
        let mut inner = path.to_owned();
        inner.push('/');
        inner.append(decimal(i as u64).as_str());
        proof {
            assert(inner@ =~= inner_path(path@, decimal_text(i as nat)));
            assert(parts.take(i + 1).drop_last() =~= parts.take(i as int));
            assert(parts.take(i + 1).last() == parts[i as int]);
            assert(parts[i as int] == templates_of(items@[i as int]@, inner@));
            lemma_with_all_chain(before, chain(parts.take(i as int)), parts[i as int]);
        }
        let ghost between = template_map.entries();
        parse_templates(engine, &items[i], inner.as_str(), template_map);
        proof {
            lemma_newly_compiled(
                old(template_map).entries(),
                chain(parts.take(i as int)),
                between,
                parts[i as int],
                template_map.entries(),
                registered(*engine),
            );
        }
        i += 1;
    }
    assert(parts.take(i as int) =~= parts);
}

fn parse_members(
    engine: &rhai::Engine,
    entries: &Vec<(String, Json)>,
    path: &str,
    template_map: &mut TextMap<Template>,
)
    ensures
        expressions(final(template_map).entries()) == with_all(
            expressions(old(template_map).entries()),
            chain(member_parts(entries_view(entries@), path@)),
        ),
        newly_compiled(
            old(template_map).entries(),
            chain(member_parts(entries_view(entries@), path@)),
            final(template_map).entries(),
            registered(*engine),
        ),
        old(template_map).wf() ==> final(template_map).wf(),
    decreases *entries,
{
    let ghost before = expressions(template_map.entries());
    let ghost parts = member_parts(entries_view(entries@), path@);
    let mut i: usize = 0;
    assert(parts.take(0) =~= Seq::empty());
    while i < entries.len()
        invariant
            i <= entries@.len(),
            parts == member_parts(entries_view(entries@), path@),
            expressions(template_map.entries()) == with_all(before, chain(parts.take(i as int))),
            newly_compiled(
                old(template_map).entries(),
                chain(parts.take(i as int)),
                template_map.entries(),
                registered(*engine),
            ),
            old(template_map).wf() ==> template_map.wf(),
        decreases entries@.len() - i,
    {
        let mut inner = path.to_owned();
        inner.push('/');
        inner.append(entries[i].0.as_str());
        proof {
            assert(inner@ =~= inner_path(path@, entries@[i as int].0@));
            assert(parts.take(i + 1).drop_last() =~= parts.take(i as int));
            assert(parts.take(i + 1).last() == parts[i as int]);
            assert(parts[i as int] == templates_of(entries@[i as int].1@, inner@));
            lemma_with_all_chain(before, chain(parts.take(i as int)), parts[i as int]);
            assert(decreases_to!(*entries => entries@));
            assert(decreases_to!(entries@ => entries@[i as int]));
            assert(decreases_to!(entries@[i as int] => entries@[i as int].1));
        }
        let ghost between = template_map.entries();
        parse_templates(engine, &entries[i].1, inner.as_str(), template_map);
        proof {
            lemma_newly_compiled(
                old(template_map).entries(),
                chain(parts.take(i as int)),
                between,
                parts[i as int],
                template_map.entries(),
                registered(*engine),
            );
        }
        i += 1;
    }
    assert(parts.take(i as int) =~= parts);
}

// ---------------------------------------------------------------------------------------------
// Data in place of expressions
// ---------------------------------------------------------------------------------------------

/// What stands for an expression: its value, or the message of the error as a string.
pub open spec fn outcome_view(outcome: Result<Json, String>) -> JsonView {
    match outcome {
        Ok(value) => value@,
        Err(message) => JsonView::String(message@),
    }
}

/// What stands for an expression: its value, or the message of the error as a string.
pub fn value_of(outcome: Result<Json, String>) -> (r: Json)
    ensures
        r@ == outcome_view(outcome),
{
    match outcome {
        Ok(value) => value,
        Err(message) => Json::String(message),
    }
}

/// `value` may stand for a template in an engine with the given functions: what its expression comes
/// to, as a value or as the message of an error; or the message where the expression was not
/// understood.
pub open spec fn suits(
    template: Template,
    functions: Map<(Seq<char>, Seq<Seq<char>>), Seq<char>>,
    value: JsonView,
) -> bool {
    match template.fault() {
        Some(message) => value == JsonView::String(message),
        None => {
            let outcomes = template_outcomes(template.text(), functions);
            ||| outcomes.contains(Ok(value))
            ||| value matches JsonView::String(message) && outcomes.contains(Err(message))
        },
    }
}

/// The value of a template.
fn evaluate(engine: &rhai::Engine, template: &Template) -> (r: Json)
    ensures
        suits(*template, registered(*engine), r@),
{
    match template.program() {
        Ok(program) => value_of(run(engine, program)),
        Err(message) => Json::String(message.to_owned()),
    }
}

/// A document with values at the ends of paths, put there one after the other.
pub open spec fn all_placed(
    json: JsonView,
    paths: Seq<Seq<char>>,
    values: Seq<JsonView>,
) -> JsonView
    decreases paths.len(),
{
    if paths.len() == 0 {
        json
    } else {
        placed_at(
            all_placed(json, paths.drop_last(), values.drop_last()),
            paths.last(),
            values.last(),
        )
    }
}

/// The paths of templates.
pub open spec fn paths_of(entries: Seq<(Seq<char>, Template)>) -> Seq<Seq<char>> {
    Seq::new(entries.len(), |i: int| entries[i].0)
}

/// Puts the values of templates in their places.
pub fn populate_data(engine: &rhai::Engine, json: &mut Json, template_map: &TextMap<Template>)
    ensures
        exists|values: Seq<JsonView>|
            {
                &&& values.len() == template_map.entries().len()
                &&& forall|i: int|
                    0 <= i < values.len() ==> suits(
                        template_map.entries()[i].1,
                        registered(*engine),
                        #[trigger] values[i],
                    )
                &&& final(json)@ == #[trigger] all_placed(
                    old(json)@,
                    paths_of(template_map.entries()),
                    values,
                )
            },
{
    let ghost entries = template_map.entries();
    let ghost paths = paths_of(entries);
    let ghost mut values: Seq<JsonView> = Seq::empty();
    let mut i: usize = 0;
    assert(paths.take(0) =~= Seq::empty());
    while i < template_map.len()
        invariant
            i <= entries.len(),
            entries == template_map.entries(),
            paths == paths_of(entries),
            values.len() == i,
            forall|k: int|
                0 <= k < i ==> suits(entries[k].1, registered(*engine), #[trigger] values[k]),
            json@ == all_placed(old(json)@, paths.take(i as int), values),
        decreases entries.len() - i,
    {
        let (path, template) = template_map.entry(i);
        let value = evaluate(engine, template);
        proof {
            assert(paths.take(i + 1).drop_last() =~= paths.take(i as int));
            assert(paths.take(i + 1).last() == paths[i as int]);
            assert(values.push(value@).drop_last() =~= values);
            values = values.push(value@);
        }
        place(json, path, value);
        i += 1;
    }
    assert(paths.take(i as int) =~= paths);
}

// ---------------------------------------------------------------------------------------------
// Where expressions are found, their values are put
// ---------------------------------------------------------------------------------------------

/// Every object in a document names its members once, and with names that stand for themselves in
/// a path.
pub open spec fn plain_names(json: JsonView) -> bool
    decreases json,
{
    match json {
        JsonView::Array(v) => forall|i: int| 0 <= i < v.len() ==> plain_names(#[trigger] v[i]),
        JsonView::Object(e) => {
            &&& unique_keys(e)
            &&& forall|i: int|
                0 <= i < e.len() ==> is_plain((#[trigger] e[i]).0) && plain_names(e[i].1)
        },
        _ => true,
    }
}

/// A path leads to a string with the given expression.
pub open spec fn leads_to(root: JsonView, path: Seq<char>, expression: Seq<char>) -> bool {
    value_at(root, path) matches Some(JsonView::String(s)) && expression_of(s) == Some(expression)
}

/// Where in the parts an element of the chain stands.
pub proof fn lemma_chain_member<T>(parts: Seq<Seq<T>>, k: int) -> (at: (int, int))
    requires
        0 <= k < chain(parts).len(),
    ensures
        0 <= at.0 < parts.len(),
        0 <= at.1 < parts[at.0].len(),
        chain(parts)[k] == parts[at.0][at.1],
        k == chain(parts.take(at.0)).len() + at.1,
    decreases parts.len(),
{
    let before = chain(parts.drop_last());
    if k < before.len() {
        let at = lemma_chain_member(parts.drop_last(), k);
        assert(parts.drop_last()[at.0] == parts[at.0]);
        assert(parts.drop_last().take(at.0) =~= parts.take(at.0));
        at
    } else {
        assert(parts.take(parts.len() - 1) =~= parts.drop_last());
        (parts.len() - 1, k - before.len())
    }
}

/// Every path that is found in a part of a document leads to the string that it was found for.
proof fn lemma_found_below(root: JsonView, json: JsonView, path: Seq<char>, k: int)
    requires
        value_at(root, path) == Some(json),
        plain_names(json),
        0 <= k < templates_of(json, path).len(),
    ensures
        leads_to(root, templates_of(json, path)[k].0, templates_of(json, path)[k].1),
    decreases json,
{
    match json {
        JsonView::String(s) => {},
        JsonView::Array(v) => {
            let parts = item_parts(v, path);
            let at = lemma_chain_member(parts, k);
            let i = at.0;
            let step = decimal_text(i as nat);
            lemma_position(i as nat, v.len() as int);
            lemma_longer_path(path, step);
            lemma_resolve_push(root, steps_of(path)->0, step);
            assert(step_into(json, step) == Some(v[i]));
            assert(value_at(root, inner_path(path, step)) == Some(v[i]));
            assert(plain_names(v[i]));
            lemma_found_below(root, v[i], inner_path(path, step), at.1);
        },
        JsonView::Object(e) => {
            let parts = member_parts(e, path);
            let at = lemma_chain_member(parts, k);
            let i = at.0;
            let step = e[i].0;
            assert(is_plain(e[i].0) && plain_names(e[i].1));
            crate::json::lemma_unique_index(e, i);
            lemma_longer_path(path, step);
            lemma_resolve_push(root, steps_of(path)->0, step);
            assert(step_into(json, step) == Some(e[i].1));
            assert(value_at(root, inner_path(path, step)) == Some(e[i].1));
            assert(decreases_to!(json => json->Object_0));
            assert(decreases_to!(e => e[i]));
            assert(decreases_to!(e[i] => e[i].1));
            lemma_found_below(root, e[i].1, inner_path(path, step), at.1);
        },
        _ => {},
    }
}

/// Every path that is found in a document leads to the string that it was found for, so that is
/// where the value of its expression is put.
pub proof fn lemma_templates_found(json: JsonView, k: int)
    requires
        plain_names(json),
        0 <= k < templates_of(json, Seq::empty()).len(),
    ensures
        leads_to(
            json,
            templates_of(json, Seq::empty())[k].0,
            templates_of(json, Seq::empty())[k].1,
        ),
{
    lemma_found_below(json, json, Seq::empty(), k);
}

} // verus!
