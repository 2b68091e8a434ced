//! Response checks that are written in Lua.

use vstd::prelude::*;

use crate::text::join2;

verus! {

#[verifier::external_type_specification]
#[verifier::external_body]
pub struct ExLua(mlua::Lua);

#[verifier::external_type_specification]
#[verifier::external_body]
pub struct ExRegistryKey(mlua::RegistryKey);

#[verifier::external_type_specification]
#[verifier::external_body]
pub struct ExLuaValue<'lua>(mlua::Value<'lua>);

#[verifier::external_type_specification]
#[verifier::external_body]
pub struct ExFunction<'lua>(mlua::Function<'lua>);

/// The outcome of one check.
#[derive(Debug)]
pub struct LuaAssertionResult {
    pub assertion_id: i32,
    pub assertion_result: Result<(), String>,
}

impl LuaAssertionResult {
    /// The outcome where no check could be made.
    pub fn lua_error(error: String) -> (r: LuaAssertionResult)
        ensures
            r.assertion_id == i32::MAX,
            r.assertion_result == Err::<(), String>(error),
    {
        LuaAssertionResult { assertion_id: i32::MAX, assertion_result: Err(error) }
    }
}

/// What a Lua function returned for one check: the fields of a table, or why one could not be
/// read.
#[derive(Debug)]
pub struct LuaRow {
    pub id: Result<i32, String>,
    pub success: Result<bool, String>,
    pub error: Result<String, String>,
}

/// What calling a Lua function led to.
#[derive(Debug)]
pub enum LuaReply {
    /// The function is not there.
    NoFunction(String),
    /// The function failed, or returned no list.
    Failed,
    /// The items of the list; none for an item that is no table.
    Rows(Vec<Option<LuaRow>>),
}

/// The text in a result, where there is one.
pub open spec fn text_view(text: Result<String, String>) -> Result<Seq<char>, Seq<char>> {
    match text {
        Ok(text) => Ok(text@),
        Err(fault) => Err(fault@),
    }
}

/// A [`LuaRow`].
pub struct RowView {
    pub id: Result<i32, Seq<char>>,
    pub success: Result<bool, Seq<char>>,
    pub error: Result<Seq<char>, Seq<char>>,
}

impl View for LuaRow {
    type V = RowView;

    open spec fn view(&self) -> RowView {
        RowView {
            id: match self.id {
                Ok(id) => Ok(id),
                Err(fault) => Err(fault@),
            },
            success: match self.success {
                Ok(success) => Ok(success),
                Err(fault) => Err(fault@),
            },
            error: text_view(self.error),
        }
    }
}

/// A row, or none.
pub open spec fn row_view(row: Option<LuaRow>) -> Option<RowView> {
    match row {
        Some(row) => Some(row@),
        None => None,
    }
}

/// A [`LuaReply`].
pub enum ReplyView {
    NoFunction(Seq<char>),
    Failed,
    Rows(Seq<Option<RowView>>),
}

impl View for LuaReply {
    type V = ReplyView;

    open spec fn view(&self) -> ReplyView {
        match *self {
            LuaReply::NoFunction(fault) => ReplyView::NoFunction(fault@),
            LuaReply::Failed => ReplyView::Failed,
            LuaReply::Rows(rows) => ReplyView::Rows(
                Seq::new(rows@.len(), |i: int| row_view(rows@[i])),
            ),
        }
    }
}

impl LuaAssertionResult {
    /// The outcome that a row describes. The text of an error is needed where a check failed.
    pub open spec fn row_outcome(row: Option<LuaRow>) -> Option<(i32, Result<(), String>)> {
        match row {
            Some(LuaRow { id: Ok(id), success: Ok(true), .. }) => Some((id, Ok(()))),
            Some(LuaRow { id: Ok(id), success: Ok(false), error: Ok(e) }) => Some((id, Err(e))),
            _ => None,
        }
    }

    /// Reads a row.
    pub fn from_row(row: Option<LuaRow>) -> (r: Option<LuaAssertionResult>)
        ensures
            match r {
                Some(o) => Self::row_outcome(row) == Some((o.assertion_id, o.assertion_result)),
                None => Self::row_outcome(row) is None,
            },
    {
        if let Some(row) = row {
            if let Ok(id) = row.id {
                if let Ok(success) = row.success {
                    if success {
                        return Some(
                            LuaAssertionResult { assertion_id: id, assertion_result: Ok(()) },
                        );
                    }
                    if let Ok(error) = row.error {
                        return Some(
                            LuaAssertionResult { assertion_id: id, assertion_result: Err(error) },
                        );
                    }
                }
            }
        }
        None
    }
}

/// Every row can be read.
pub open spec fn all_read(rows: Seq<Option<LuaRow>>) -> bool {
    forall|i: int|
        0 <= i < rows.len() ==> LuaAssertionResult::row_outcome(#[trigger] rows[i]) is Some
}

/// The outcomes are those of the rows, in order.
pub open spec fn outcomes_of(list: Seq<LuaAssertionResult>, rows: Seq<Option<LuaRow>>) -> bool {
    &&& list.len() == rows.len()
    &&& forall|i: int|
        0 <= i < list.len() ==> LuaAssertionResult::row_outcome(rows[i]) == Some(
            ((#[trigger] list[i]).assertion_id, list[i].assertion_result),
        )
}

/// Reads the rows, where each can be read.
fn read_rows(rows: Vec<Option<LuaRow>>) -> (r: Option<Vec<LuaAssertionResult>>)
    ensures
        match r {
            Some(list) => all_read(rows@) && outcomes_of(list@, rows@),
            None => !all_read(rows@),
        },
{
    let ghost all = rows@;
    let mut left = rows;
    let mut reversed: Vec<LuaAssertionResult> = Vec::new();
    while left.len() > 0
        invariant
            all == rows@,
            left@.len() <= all.len(),
            left@ == all.take(left@.len() as int),
            reversed@.len() == all.len() - left@.len(),
            forall|i: int|
                0 <= i < reversed@.len() ==> LuaAssertionResult::row_outcome(
                    all[all.len() - 1 - i],
                ) == Some(
                    ((#[trigger] reversed@[i]).assertion_id, reversed@[i].assertion_result),
                ),
        decreases left@.len(),
    {
        let ghost n = left@.len() as int;
        let row = left.pop();
        assert(row == Some(all[n - 1]));
        if let Some(row) = row {
            match LuaAssertionResult::from_row(row) {
                Some(outcome) => {
                    reversed.push(outcome);
                },
                None => {
                    assert(LuaAssertionResult::row_outcome(all[n - 1]) is None);
                    return None;
                },
            }
        }
        assert(left@ =~= all.take(n - 1));
    }
    let ghost back = reversed@;
    let mut list: Vec<LuaAssertionResult> = Vec::new();
    while reversed.len() > 0
        invariant
            reversed@.len() <= back.len(),
            reversed@ == back.take(reversed@.len() as int),
            list@.len() == back.len() - reversed@.len(),
            forall|i: int| 0 <= i < list@.len() ==> #[trigger] list@[i] == back[back.len() - 1 - i],
        decreases reversed@.len(),
    {
        let ghost n = reversed@.len() as int;
        if let Some(outcome) = reversed.pop() {
            list.push(outcome);
        }
        assert(reversed@ =~= back.take(n - 1));
    }
    proof {
        assert forall|i: int| 0 <= i < all.len() implies LuaAssertionResult::row_outcome(
            #[trigger] all[i],
        ) is Some by {
            let k = all.len() - 1 - i;
            assert(LuaAssertionResult::row_outcome(all[all.len() - 1 - k]) == Some(
                (back[k].assertion_id, back[k].assertion_result),
            ));
        }
        assert forall|i: int| 0 <= i < list@.len() implies LuaAssertionResult::row_outcome(all[i])
            == Some(((#[trigger] list@[i]).assertion_id, list@[i].assertion_result)) by {
            let k = all.len() - 1 - i;
            assert(list@[i] == back[k]);
            assert(LuaAssertionResult::row_outcome(all[all.len() - 1 - k]) == Some(
                (back[k].assertion_id, back[k].assertion_result),
            ));
        }
    }
    Some(list)
}

/// What a reply means: the checks passed where nothing is listed. Where the function failed or
/// its list cannot be read, they did not pass and nothing is known of them.
pub open spec fn judged(reply: LuaReply, r: Result<(), Vec<LuaAssertionResult>>) -> bool {
    match reply {
        LuaReply::NoFunction(e) => r matches Err(list) && list@.len() == 1 && list@[0].assertion_id
            == i32::MAX && list@[0].assertion_result == Err::<(), String>(e),
        LuaReply::Failed => r matches Err(list) && list@.len() == 0,
        LuaReply::Rows(rows) => if !all_read(rows@) {
            r matches Err(list) && list@.len() == 0
        } else if rows@.len() == 0 {
            r is Ok
        } else {
            r matches Err(list) && outcomes_of(list@, rows@)
        },
    }
}

/// What a reply means.
pub fn judge(reply: LuaReply) -> (r: Result<(), Vec<LuaAssertionResult>>)
    ensures
        judged(reply, r),
{
    match reply {
        LuaReply::NoFunction(e) => {
            let mut list: Vec<LuaAssertionResult> = Vec::new();
            list.push(LuaAssertionResult::lua_error(e));
            Err(list)
        },
        LuaReply::Failed => Err(Vec::new()),
        LuaReply::Rows(rows) => {
            match read_rows(rows) {
                Some(list) => if list.len() == 0 {
                    Ok(())
                } else {
                    Err(list)
                },
                None => Err(Vec::new()),
            }
        },
    }
}

/// The fields of a Lua table (`mlua::Table::raw_get`), none of another value. Nothing is claimed
/// of them.
#[verifier::external_body]
fn read_row(value: &mlua::Value) -> (r: Option<LuaRow>) {
    match value {
        mlua::Value::Table(table) => Some(
            LuaRow {
                id: table.raw_get("id").map_err(|e| e.to_string()),
                success: table.raw_get("success").map_err(|e| e.to_string()),
                error: table.raw_get("error").map_err(|e| e.to_string()),
            },
        ),
        _ => None,
    }
}

/// The text of a body, where there is one.
pub open spec fn body_view(body: Option<String>) -> Option<Seq<char>> {
    match body {
        Some(body) => Some(body@),
        None => None,
    }
}

/// The global name and the chunk of the library that a Lua state was made with.
pub uninterp spec fn library_of(lua: mlua::Lua) -> (Seq<char>, Seq<char>);

/// The chunk of the function that is kept in a registry.
pub uninterp spec fn chunk_of(key: mlua::RegistryKey) -> Seq<char>;

/// A function is kept in the registry of a state, and found there.
pub uninterp spec fn kept_in(key: mlua::RegistryKey, lua: mlua::Lua) -> bool;

/// What the function of a chunk can reply, in a state with the given library, to the method, the
/// URL and the body of a request and the body of its response.
pub uninterp spec fn lua_replies(
    library: (Seq<char>, Seq<char>),
    chunk: Seq<char>,
    method: Seq<char>,
    url: Seq<char>,
    req_body: Option<Seq<char>>,
    resp_body: Seq<char>,
) -> Set<ReplyView>;

/// `mlua::Function::call` on a function of the registry (`mlua::Lua::registry_value`), with the
/// parts of a request and its response in that order. The reply is one of [`lua_replies`]; that there
/// is no function is not among them where it is kept in the registry of the state. Which
/// one is up to whoever wrote the function, and not stated; nor that the call ends.
#[verifier::external_body]
fn call_function(
    lua: &mlua::Lua,
    func_key: &mlua::RegistryKey,
    method: &str,
    url: String,
    req_body: Option<String>,
    resp_body: String,
) -> (r: LuaReply)
    ensures
        lua_replies(
            library_of(*lua),
            chunk_of(*func_key),
            method@,
            url@,
            body_view(req_body),
            resp_body@,
        ).contains(r@),
        kept_in(*func_key, *lua) ==> !(r is NoFunction),
{
    let func = match lua.registry_value::<mlua::Function>(func_key) {
        Ok(func) => func,
        Err(e) => return LuaReply::NoFunction(e.to_string()),
    };
    match func.call::<_, Vec<mlua::Value>>((method, url, req_body, resp_body)) {
        Ok(values) => LuaReply::Rows(values.iter().map(read_row).collect()),
        Err(_) => LuaReply::Failed,
    }
}

/// Checks a response with a Lua function: what its reply means.
pub fn call_lua_func_from_registry(
    lua: &mlua::Lua,
    func_key: &mlua::RegistryKey,
    method: &str,
    url: String,
    req_body: Option<String>,
    resp_body: String,
) -> (r: Result<(), Vec<LuaAssertionResult>>)
    ensures
        exists|reply: LuaReply| #[trigger]
            judged(reply, r) && (kept_in(*func_key, *lua) ==> !(reply is NoFunction)) && lua_replies(
                library_of(*lua),
                chunk_of(*func_key),
                method@,
                url@,
                body_view(req_body),
                resp_body@,
            ).contains(reply@),
{
    judge(call_function(lua, func_key, method, url, req_body, resp_body))
}

/// The messages with which Lua may refuse to compile a text as a block of statements; none where
/// it compiles it.
pub uninterp spec fn lua_refusals(text: Seq<char>) -> Set<Seq<char>>;

/// `mlua::Chunk::into_function`, in a fresh state (`mlua::Lua::new`): compiles a text without
/// running it. Whether that succeeds is a function of the text; the message of the error is one of
/// [`lua_refusals`]. It names the place of the call besides, so which one it is is not stated.
#[verifier::external_body]
fn compile_fault(text: &str) -> (r: Option<String>)
    ensures
        r is None == (lua_refusals(text@) == Set::<Seq<char>>::empty()),
        r matches Some(message) ==> lua_refusals(text@).contains(message@),
{
    let lua = mlua::Lua::new();
    let fault = lua.load(text).into_function().err();
    fault.map(|e| e.to_string())
}

/// Lua can compile a text as a block of statements.
pub open spec fn lua_compiles(text: Seq<char>) -> bool {
    lua_refusals(text) == Set::<Seq<char>>::empty()
}

/// A chunk can be run: it is an expression, or a block of statements.
pub open spec fn lua_parses(chunk: Seq<char>) -> bool {
    lua_compiles("return "@ + chunk) || lua_compiles(chunk)
}

/// What is wrong with a chunk that cannot be run.
fn parse_fault(chunk: &str) -> (r: Option<String>)
    ensures
        r is None == lua_parses(chunk@),
        r matches Some(message) ==> lua_refusals(chunk@).contains(message@),
{
    let expression = join2("return ", chunk);
    match compile_fault(expression.as_str()) {
        None => None,
        Some(_) => compile_fault(chunk),
    }
}

/// The message of a result, where it has one.
pub open spec fn fault_view<T>(r: Result<T, String>) -> Option<Seq<char>> {
    match r {
        Ok(_) => None,
        Err(message) => Some(message@),
    }
}

/// What can come of putting the table that a chunk evaluates to under a global name of a fresh
/// state: nothing, or the message of an error.
pub uninterp spec fn library_faults(name: Seq<char>, chunk: Seq<char>) -> Set<Option<Seq<char>>>;

/// `mlua::Lua::new`, with the table that a chunk evaluates to (`mlua::Chunk::eval`) under a global
/// name; or the message of the error: what comes of it is one of [`library_faults`]. Which one rests
/// on what the chunk does when it is run, and is not stated; nor what is in the table.
#[verifier::external_body]
fn lua_with(name: &str, chunk: &str) -> (r: Result<mlua::Lua, String>)
    ensures
        library_faults(name@, chunk@).contains(fault_view(r)),
        r matches Ok(lua) ==> library_of(lua) == (name@, chunk@),
{
    let lua = mlua::Lua::new();
    let table = lua.load(chunk).eval::<mlua::Table>().map_err(|e| e.to_string());
    let done = table.and_then(|t| lua.globals().set(name, t).map_err(|e| e.to_string()));
    done.map(|_| lua)
}

/// A Lua state in which the functions of `json_library` are known as `json`. There is none where
/// the library cannot be run; where it can, whether there is one is up to the library.
pub fn init_lua(json_library: &str) -> (r: Result<mlua::Lua, String>)
    ensures
        if lua_parses(json_library@) {
            library_faults("json"@, json_library@).contains(fault_view(r))
        } else {
            r matches Err(message) && lua_refusals(json_library@).contains(message@)
        },
        r matches Ok(lua) ==> library_of(lua) == ("json"@, json_library@),
{
    match parse_fault(json_library) {
        Some(fault) => Err(fault),
        None => lua_with("json", json_library),
    }
}

/// What can come of asking a state for the function that a chunk evaluates to: nothing, or the
/// message of an error.
pub uninterp spec fn function_faults(chunk: Seq<char>) -> Set<Option<Seq<char>>>;

/// There can be (`found`), or not be, a function where a state is asked for that of a chunk. There
/// is none where the chunk cannot be run; where it can, it is up to the chunk.
pub open spec fn function_outcome(chunk: Seq<char>, found: bool) -> bool {
    if !lua_parses(chunk) {
        !found
    } else if found {
        function_faults(chunk).contains(None)
    } else {
        exists|message: Seq<char>| #[trigger] function_faults(chunk).contains(Some(message))
    }
}

/// `mlua::Chunk::eval` of a chunk that is a function, kept in the registry
/// (`mlua::Lua::create_registry_value`); none where it is no function. What comes of it is one of
/// [`function_faults`]. Which one rests on what the chunk does when it is run, and on the state, and
/// is not stated.
#[verifier::external_body]
fn register_function(chunk: &str, lua: &mlua::Lua) -> (r: Option<mlua::RegistryKey>)
    ensures
        match r {
            Some(key) => {
                &&& function_faults(chunk@).contains(None)
                &&& chunk_of(key) == chunk@
                &&& kept_in(key, *lua)
            },
            None => exists|message: Seq<char>| #[trigger]
                function_faults(chunk@).contains(Some(message)),
        },
{
    let func = lua.load(chunk).eval::<mlua::Function>().ok()?;
    lua.create_registry_value(func).ok()
}

/// Keeps the function of a chunk for later calls; none where the chunk is no function.
pub fn load_lua_func_with_registry(lua_chunk: &str, lua: &mlua::Lua) -> (r: Option<
    mlua::RegistryKey,
>)
    ensures
        function_outcome(lua_chunk@, r is Some),
        r matches Some(key) ==> chunk_of(key) == lua_chunk@ && kept_in(key, *lua),
{
    match parse_fault(lua_chunk) {
        Some(_) => None,
        None => register_function(lua_chunk, lua),
    }
}

/// The chunk that a function was made from.
pub uninterp spec fn source_chunk(function: mlua::Function) -> Seq<char>;

/// `mlua::Chunk::eval` of a chunk that should be a function; the message of the error where it is
/// none. What comes of it is one of [`function_faults`]. Which one rests on what the chunk does when
/// it is run, and on the state, and is not stated.
#[verifier::external_body]
fn eval_function<'lua>(chunk: &str, lua: &'lua mlua::Lua) -> (r: Result<
    mlua::Function<'lua>,
    String,
>)
    ensures
        function_faults(chunk@).contains(fault_view(r)),
        r matches Ok(function) ==> source_chunk(function) == chunk@,
{
    lua.load(chunk).eval::<mlua::Function>().map_err(|e| e.to_string())
}

/// `mlua::Lua::new`: a fresh state, of which nothing is claimed.
#[verifier::external_body]
fn fresh_state() -> (r: mlua::Lua) {
    mlua::Lua::new()
}

/// The function of a chunk, in a state; none where the chunk is no function.
pub fn load_lua_func<'lua>(lua_chunk: &str, lua: &'lua mlua::Lua) -> (r: Option<
    mlua::Function<'lua>,
>)
    ensures
        function_outcome(lua_chunk@, r is Some),
        r matches Some(function) ==> source_chunk(function) == lua_chunk@,
{
    match parse_fault(lua_chunk) {
        Some(_) => None,
        None => match eval_function(lua_chunk, lua) {
            Ok(function) => Some(function),
            Err(_) => None,
        },
    }
}

/// Whether a chunk is a function, or what is wrong with it.
pub fn verify_lua_chunk(chunk: &str) -> (r: Result<(), String>)
    ensures
        function_outcome(chunk@, r is Ok),
        r matches Err(message) ==> if lua_parses(chunk@) {
            function_faults(chunk@).contains(Some(message@))
        } else {
            lua_refusals(chunk@).contains(message@)
        },
{
    match parse_fault(chunk) {
        Some(fault) => Err(fault),
        None => {
            let lua = fresh_state();
            let outcome = match eval_function(chunk, &lua) {
                Ok(_) => Ok(()),
                Err(fault) => Err(fault),
            };
            outcome
        },
    }
}

} // verus!
