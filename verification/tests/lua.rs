//! Checks that are written in Lua.

use mlua::{Function, Lua, Table};
use overload::lua::{
    call_lua_func_from_registry, init_lua, judge, load_lua_func, load_lua_func_with_registry,
    verify_lua_chunk,
    LuaAssertionResult, LuaReply, LuaRow,
};

/// A reader of JSON text for Lua.
const JSON_LIBRARY: &str = r#"
local json = {}
local function skip(s, i)
  return s:find("%S", i) or #s + 1
end
local parse
local function text(s, i)
  local out = {}
  i = i + 1
  while s:sub(i, i) ~= '"' do
    local c = s:sub(i, i)
    if c == "\\" then
      i = i + 1
      c = s:sub(i, i)
    end
    out[#out + 1] = c
    i = i + 1
  end
  return table.concat(out), i + 1
end
parse = function(s, i)
  i = skip(s, i)
  local c = s:sub(i, i)
  if c == "{" or c == "[" then
    local close = c == "{" and "}" or "]"
    local r, n = {}, 0
    i = skip(s, i + 1)
    while s:sub(i, i) ~= close do
      local k, v
      if c == "{" then
        k, i = text(s, i)
        i = skip(s, i) + 1
      else
        n = n + 1
        k = n
      end
      v, i = parse(s, i)
      r[k] = v
      i = skip(s, i)
      if s:sub(i, i) == "," then i = skip(s, i + 1) end
    end
    return r, i + 1
  elseif c == '"' then
    return text(s, i)
  end
  local word = s:match("^[%w%.%+%-]+", i)
  local values = { ["true"] = true, ["false"] = false }
  if values[word] ~= nil then return values[word], i + #word end
  return tonumber(word), i + #word
end
function json.decode(s)
  local r = parse(s, 1)
  return r
end
return json
"#;

fn lua() -> Lua {
    init_lua(JSON_LIBRARY).unwrap()
}

#[test]
fn lua_init() {
    let lua = lua();
    let test_json: Function = lua
        .load(
            r#"
                function(s)
                    jsonVal=json.decode(s)
                    return jsonVal.hello .. " from lua"
                end
        "#,
        )
        .eval()
        .unwrap();

    assert_eq!(
        test_json.call::<_, String>("{\"hello\":\"world\"}".to_string()).unwrap(),
        "world from lua"
    );
}

#[test]
fn call_lua_func() {
    let lua_txt = r#"
        function(status, response)
          jsonVal=json.decode(response)
          rVal={}
          rVal.id=jsonVal.id
          rVal.success=false
          rVal.error="Test error"
          err2 = {}
          err2.id=123
          err2.success=true
          return {rVal, err2}
        end
        "#;
    let lua = lua();
    let _func = load_lua_func_with_registry(lua_txt, &lua).unwrap();
}

#[test]
fn lua_validate() {
    let lua_txt = r#"
        function(status, response)
          jsonVal=json.decode(response)
          rVal={}
          rVal.id=jsonVal.id
          rVal.success=false
          rVal.error="Test error"
          err2 = {}
          err2.id=123
          err2.success=true
          return {rVal, err2}
        end
        "#;
    let result = verify_lua_chunk(lua_txt);
    assert!(result.is_ok())
}

#[test]
fn lua_table() {
    let lua = lua();
    let test_json: Function = lua
        .load(
            r#"
                function(s)
                    jsonVal=json.decode(s)
                    return jsonVal
                end
        "#,
        )
        .eval()
        .unwrap();

    let lua_table = test_json.call::<_, Table>(sample_json().to_string()).unwrap();
    let v = lua_table.get::<_, Table>(1).unwrap().get::<_, String>("id").unwrap();
    assert_eq!(v, "0001".to_string())
}

fn sample_json() -> &'static str {
    r#"
        [
            {
                "id": "0001",
                "type": "donut",
                "name": "Cake",
                "ppu": 0.55,
                "batters":
                    {
                        "batter":
                            [
                                { "id": "1001", "type": "Regular" },
                                { "id": "1002", "type": "Chocolate" },
                                { "id": "1003", "type": "Blueberry" },
                                { "id": "1004", "type": "Devil's Food" }
                            ]
                    },
                "topping":
                    [
                        { "id": "5001", "type": "None" },
                        { "id": "5002", "type": "Glazed" },
                        { "id": "5005", "type": "Sugar" },
                        { "id": "5007", "type": "Powdered Sugar" },
                        { "id": "5006", "type": "Chocolate with Sprinkles" },
                        { "id": "5003", "type": "Chocolate" },
                        { "id": "5004", "type": "Maple" }
                    ]
            },
            {
                "id": "0002",
                "type": "donut",
                "name": "Raised",
                "ppu": 0.55,
                "batters":
                    {
                        "batter":
                            [
                                { "id": "1001", "type": "Regular" }
                            ]
                    },
                "topping":
                    [
                        { "id": "5001", "type": "None" },
                        { "id": "5002", "type": "Glazed" },
                        { "id": "5005", "type": "Sugar" },
                        { "id": "5003", "type": "Chocolate" },
                        { "id": "5004", "type": "Maple" }
                    ]
            },
            {
                "id": "0003",
                "type": "donut",
                "name": "Old Fashioned",
                "ppu": 0.55,
                "batters":
                    {
                        "batter":
                            [
                                { "id": "1001", "type": "Regular" },
                                { "id": "1002", "type": "Chocolate" }
                            ]
                    },
                "topping":
                    [
                        { "id": "5001", "type": "None" },
                        { "id": "5002", "type": "Glazed" },
                        { "id": "5003", "type": "Chocolate" },
                        { "id": "5004", "type": "Maple" }
                    ]
            }
        ]"#
}

#[test]
fn test_lua() {
    let lua_txt = r#"
        function(x)
          return 2*x
        end
        "#;
    let lua = Lua::new();
    let lua_twice: Function = lua.load(lua_txt).eval().unwrap();
    assert_eq!(lua_twice.call::<_, u32>(5).unwrap(), 10);
}

#[test]
fn test_call_lua_func_from_registry() {
    let lua = lua();
    let lua_txt = r#"
        function(method, url, reqBody, respBody)
          result ={}
          if method~="POST" then
            local err={}
            err.id=1
            err.success=false
            err.error="Invalid method"
            table.insert(result,err)
          end
          jsonReq=json.decode(reqBody)
          jsonResp=json.decode(respBody)
          for k,v in pairs(jsonReq.keys) do
            if jsonResp[k].id ~= v then
                local err = {}
                err.id=2
                err.success=false
                err.error="invalid value "..jsonResp[k].id.." at "..k
                table.insert(result,err)
            end
          end
          for k,v in pairs(result) do
             print(k)
             print(v)
          end
          return result
        end
        "#;
    let func_key = load_lua_func_with_registry(lua_txt, &lua).unwrap();
    let req = r#"{"keys":["0001","0002","0004"]}"#.to_string();
    let result = call_lua_func_from_registry(
        &lua,
        &func_key,
        "GET",
        "/some/path".to_string(),
        Some(req),
        sample_json().to_string(),
    );
    println!("{:?}", result);
    assert!(result.is_err());
    let result = result.unwrap_err();
    assert_eq!(result[0].assertion_id, 1);
    assert_eq!(result[1].assertion_id, 2);
}

#[test]
fn chunks_that_are_no_function() {
    assert!(verify_lua_chunk("function(").is_err());
    assert!(load_lua_func_with_registry("function(", &Lua::new()).is_none());
    assert!(init_lua("{ x = ").is_err());
    // an expression, and a block of statements
    assert!(verify_lua_chunk("function() return {} end").is_ok());
    assert!(verify_lua_chunk("local f = function() return {} end return f").is_ok());
    // a block that goes wrong only when it is run
    assert!(verify_lua_chunk("error('no')").is_err());
    assert!(verify_lua_chunk("5").is_err());
    assert!(load_lua_func_with_registry("5", &Lua::new()).is_none());
    assert!(init_lua("5").is_err());
}

fn call(chunk: &str) -> Result<(), Vec<LuaAssertionResult>> {
    let lua = Lua::new();
    let key = load_lua_func_with_registry(chunk, &lua).unwrap();
    call_lua_func_from_registry(&lua, &key, "GET", "/".to_string(), None, "".to_string())
}

#[test]
fn a_function_is_loaded() {
    let lua = Lua::new();
    let double = load_lua_func("function(n) return 2 * n end", &lua).unwrap();
    assert_eq!(double.call::<_, i64>(21).unwrap(), 42);
    assert!(load_lua_func("5", &lua).is_none());
    assert!(load_lua_func("function(", &lua).is_none());
}

#[test]
fn a_function_gets_the_request_and_the_response() {
    let chunk = r#"
        function(method, url, request, response)
            local text = method .. "|" .. url .. "|" .. tostring(request) .. "|" .. response
            return {{ id = 1, success = false, error = text }}
        end
    "#;
    let lua = Lua::new();
    let key = load_lua_func_with_registry(chunk, &lua).unwrap();
    let ask = |body: Option<String>| {
        let url = "/url".to_string();
        call_lua_func_from_registry(&lua, &key, "PUT", url, body, "answer".to_string())
    };
    let result = ask(Some("question".to_string())).unwrap_err();
    assert_eq!(result[0].assertion_result, Err("PUT|/url|question|answer".to_string()));
    let result = ask(None).unwrap_err();
    assert_eq!(result[0].assertion_result, Err("PUT|/url|nil|answer".to_string()));
}

#[test]
fn an_empty_list_passes() {
    assert!(call("function() return {} end").is_ok());
}

#[test]
fn a_function_that_fails_says_nothing_of_its_checks() {
    assert!(call("function() error('x') end").unwrap_err().is_empty());
    assert!(call("function() return 5 end").unwrap_err().is_empty());
    assert!(call("function() return {5} end").unwrap_err().is_empty());
    assert!(call("function() return {{id=1}} end").unwrap_err().is_empty());
    assert!(call("function() return {{id=1,success=false}} end").unwrap_err().is_empty());
    let passed = call("function() return {{id=1,success=true}} end").unwrap_err();
    assert_eq!(passed.len(), 1);
    assert!(passed[0].assertion_result.is_ok());
}

#[test]
fn a_function_of_another_state_is_not_found() {
    let other = Lua::new();
    let key = load_lua_func_with_registry("function() return {} end", &other).unwrap();
    let lua = Lua::new();
    let result =
        call_lua_func_from_registry(&lua, &key, "GET", "/".to_string(), None, "".to_string());
    let result = result.unwrap_err();
    assert_eq!(result.len(), 1);
    assert_eq!(result[0].assertion_id, i32::MAX);
}

#[test]
fn replies_are_judged() {
    let row = |id: i32, success: bool| {
        Some(LuaRow { id: Ok(id), success: Ok(success), error: Ok("e".to_string()) })
    };
    assert!(judge(LuaReply::Rows(vec![])).is_ok());
    let list = judge(LuaReply::Rows(vec![row(1, false), row(2, true)])).unwrap_err();
    let ids: Vec<(i32, bool)> =
        list.iter().map(|r| (r.assertion_id, r.assertion_result.is_ok())).collect();
    assert_eq!(ids, vec![(1, false), (2, true)]);
    assert!(judge(LuaReply::Rows(vec![row(1, true), None])).unwrap_err().is_empty());
    assert!(judge(LuaReply::Failed).unwrap_err().is_empty());
    let list = judge(LuaReply::NoFunction("gone".to_string())).unwrap_err();
    assert_eq!(list[0].assertion_result, Err("gone".to_string()));
}
