//! What requests are answered.
use vstd::prelude::*;

use crate::json::{
    insert_member, inserted_member_is_found, json_text, lookup, no_items, no_members, number_view,
    set_members_are_found, settled, write_json, Json, JsonNumber, JsonView,
};
use crate::numeral::{
    decimal, decimal_is_digits, decimal_of, decimal_reads_back, is_digit, parse_u64, read_unsigned,
};
use crate::sarif::VERSION;
use crate::text::{chars_of, same, starts_with, text_between};

verus! {

/// The text is no JSON.
pub const PARSE_ERROR: i32 = -32700;

/// The request is out of order.
pub const INVALID_REQUEST: i32 = -32600;

/// There is no such method or tool.
pub const METHOD_NOT_FOUND: i32 = -32601;

/// The parameters are wrong.
pub const INVALID_PARAMS: i32 = -32602;

/// A request. Without an id it is a notification, which is not answered.
pub struct JsonRpcRequest {
    pub id: Option<Json>,
    pub method: String,
    pub params: Option<Json>,
}

/// The tools that a call can be for.
#[derive(Clone, Copy, PartialEq, Eq, Structural, Debug)]
pub enum ToolKind {
    ReviewPr,
    ReviewDiff,
    ReviewFiles,
    ReviewFile,
    ReviewGlob,
}

/// What a request comes to.
pub enum Outcome {
    /// An answer, or a code and words for what is wrong.
    Answer(Result<Json, (i32, String)>),
    /// A call of a tool, with its arguments.
    Call(ToolKind, Json),
}

/// An outcome without its data structures.
pub enum OutcomeView {
    Answer(JsonView),
    Failure(i32, Seq<char>),
    Call(ToolKind, JsonView),
}

impl View for Outcome {
    type V = OutcomeView;

    open spec fn view(&self) -> OutcomeView {
        match self {
            Outcome::Answer(Ok(v)) => OutcomeView::Answer(v@),
            Outcome::Answer(Err((code, m))) => OutcomeView::Failure(*code, m@),
            Outcome::Call(t, a) => OutcomeView::Call(*t, a@),
        }
    }
}

// ---------------------------------------------------------------------------
// The handshake

/// A protocol version that is accepted: it begins with a year from 2024 on.
pub open spec fn accepted_version(version: Seq<char>) -> bool {
    &&& version.len() >= 4
    &&& forall|i: int| 0 <= i < 4 ==> is_digit(#[trigger] version[i])
    &&& read_unsigned(version.subrange(0, 4), u64::MAX as nat) matches Ok(n) && n >= 2024
}

/// The protocol version that a client names.
pub open spec fn client_version(params: Option<JsonView>) -> Option<Seq<char>> {
    match params {
        Some(p) => p.text_at("protocolVersion"@),
        None => None,
    }
}

/// What the server tells of itself.
pub open spec fn server_info(program: Seq<char>) -> JsonView {
    no_members().with("protocolVersion"@, JsonView::Text("2024-11-05"@)).with(
        "serverInfo"@,
        no_members().with("name"@, JsonView::Text(program)).with(
            "version"@,
            JsonView::Text(VERSION@),
        ),
    ).with("capabilities"@, no_members().with("tools"@, no_members()))
}

/// The answer to `initialize`.
pub open spec fn initialize_outcome(program: Seq<char>, params: Option<JsonView>) -> OutcomeView {
    match client_version(params) {
        Some(v) => if accepted_version(v) {
            OutcomeView::Answer(server_info(program))
        } else {
            OutcomeView::Failure(
                INVALID_REQUEST,
                "Unsupported protocol version '"@ + v + "': "@ + program + " supports 2024-xx-xx"@,
            )
        },
        None => OutcomeView::Answer(server_info(program)),
    }
}

fn is_accepted_version(version: &str) -> (r: bool)
    ensures
        r == accepted_version(version@),
{
    let v = chars_of(version);
    if v.len() < 4 {
        return false;
    }
    let mut i: usize = 0;
    while i < 4
        invariant
            i <= 4,
            v@ == version@,
            v@.len() >= 4,
            forall|j: int| 0 <= j < i ==> is_digit(#[trigger] version@[j]),
        decreases 4 - i,
    {
        if !(v[i] >= '0' && v[i] <= '9') {
            assert(!is_digit(version@[i as int]));
            return false;
        }
        i += 1;
    }
    match parse_u64(text_between(&v, 0, 4).as_str()) {
        Ok(n) => n >= 2024,
        Err(_) => false,
    }
}

/// Answers `initialize`: a client of an earlier protocol is turned away.
pub fn handle_initialize(program: &str, params: &Option<Json>) -> (r: Result<Json, (i32, String)>)
    ensures
        Outcome::Answer(r)@ == initialize_outcome(
            program@,
            match *params {
                Some(p) => Some(p@),
                None => None,
            },
        ),
{
    let version = match params {
        Some(p) => p.text_at("protocolVersion"),
        None => None,
    };
    match version {
        Some(v) => {
            if !is_accepted_version(v.as_str()) {
                let mut m = "Unsupported protocol version '".to_owned();
                m.push_str(v.as_str());
                m.push_str("': ");
                m.push_str(program);
                m.push_str(" supports 2024-xx-xx");
                return Err((INVALID_REQUEST, m));
            }
        },
        None => {},
    }
    let info = Json::object().with("name", Json::text(program)).with(
        "version",
        Json::text(VERSION),
    );
    Ok(
        Json::object().with("protocolVersion", Json::text("2024-11-05")).with(
            "serverInfo",
            info,
        ).with("capabilities", Json::object().with("tools", Json::object())),
    )
}

// ---------------------------------------------------------------------------
// Tools

/// Name, description and argument schema of tools.
pub open spec fn tool_views(tools: Seq<(String, String, Json)>) -> Seq<
    (Seq<char>, Seq<char>, JsonView),
> {
    tools.map_values(|t: (String, String, Json)| (t.0@, t.1@, t.2@))
}

pub open spec fn tool_items(tools: Seq<(Seq<char>, Seq<char>, JsonView)>) -> JsonView
    decreases tools.len(),
{
    if tools.len() == 0 {
        no_items()
    } else {
        let t = tools.last();
        tool_items(tools.drop_last()).and(
            no_members().with("name"@, JsonView::Text(t.0)).with(
                "description"@,
                JsonView::Text(t.1),
            ).with("inputSchema"@, t.2),
        )
    }
}

/// The answer to `tools/list`.
pub open spec fn tools_list(tools: Seq<(Seq<char>, Seq<char>, JsonView)>) -> JsonView {
    no_members().with("tools"@, tool_items(tools))
}

/// Answers `tools/list`.
pub fn handle_tools_list(tools: &Vec<(String, String, Json)>) -> (r: Json)
    ensures
        r@ == tools_list(tool_views(tools@)),
{
    let ghost all = tool_views(tools@);
    let mut out = Json::array();
    let mut i: usize = 0;
    while i < tools.len()
        invariant
            i <= tools@.len(),
            all == tool_views(tools@),
            out@ == tool_items(all.take(i as int)),
        decreases tools@.len() - i,
    {
        assert(all.take(i + 1).drop_last() =~= all.take(i as int));
        assert(all.take(i + 1).last() == (
            tools@[i as int].0@,
            tools@[i as int].1@,
            tools@[i as int].2@,
        ));
        let tool = Json::object().with("name", Json::text(tools[i].0.as_str())).with(
            "description",
            Json::text(tools[i].1.as_str()),
        ).with("inputSchema", tools[i].2.copy());
        out = out.and(tool);
        i += 1;
    }
    assert(all.take(i as int) =~= all);
    Json::object().with("tools", out)
}

/// The tool with a name.
pub open spec fn tool_named(name: Seq<char>) -> Option<ToolKind> {
    if name == "review_pr"@ {
        Some(ToolKind::ReviewPr)
    } else if name == "review_diff"@ {
        Some(ToolKind::ReviewDiff)
    } else if name == "review_files"@ {
        Some(ToolKind::ReviewFiles)
    } else if name == "review_file"@ {
        Some(ToolKind::ReviewFile)
    } else if name == "review_glob"@ {
        Some(ToolKind::ReviewGlob)
    } else {
        None
    }
}

/// What `tools/call` comes to: the call of a tool that there is, with the
/// arguments that were given, or with none.
pub open spec fn call_outcome(params: Option<JsonView>) -> OutcomeView {
    match params {
        None => OutcomeView::Failure(
            INVALID_PARAMS,
            "missing params: expected object with 'name' and 'arguments'"@,
        ),
        Some(p) => match p.text_at("name"@) {
            None => OutcomeView::Failure(INVALID_PARAMS, "missing 'name' in params"@),
            Some(name) => match tool_named(name) {
                None => OutcomeView::Failure(METHOD_NOT_FOUND, "unknown tool: "@ + name),
                Some(tool) => OutcomeView::Call(
                    tool,
                    match p.get("arguments"@) {
                        Some(a) => a,
                        None => no_members(),
                    },
                ),
            },
        },
    }
}

fn find_tool(name: &str) -> (r: Option<ToolKind>)
    ensures
        r == tool_named(name@),
{
    if same(name, "review_pr") {
        Some(ToolKind::ReviewPr)
    } else if same(name, "review_diff") {
        Some(ToolKind::ReviewDiff)
    } else if same(name, "review_files") {
        Some(ToolKind::ReviewFiles)
    } else if same(name, "review_file") {
        Some(ToolKind::ReviewFile)
    } else if same(name, "review_glob") {
        Some(ToolKind::ReviewGlob)
    } else {
        None
    }
}

/// What `tools/call` comes to.
pub fn handle_tools_call(params: &Option<Json>) -> (r: Outcome)
    ensures
        r@ == call_outcome(
            match *params {
                Some(p) => Some(p@),
                None => None,
            },
        ),
{
    let p = match params {
        Some(p) => p,
        None => {
            return Outcome::Answer(
                Err(
                    (
                        INVALID_PARAMS,
                        "missing params: expected object with 'name' and 'arguments'".to_owned(),
                    ),
                ),
            );
        },
    };
    let name = match p.text_at("name") {
        Some(n) => n,
        None => {
            return Outcome::Answer(Err((INVALID_PARAMS, "missing 'name' in params".to_owned())));
        },
    };
    match find_tool(name.as_str()) {
        None => {
            let mut m = "unknown tool: ".to_owned();
            m.push_str(name.as_str());
            Outcome::Answer(Err((METHOD_NOT_FOUND, m)))
        },
        Some(tool) => {
            let arguments = match p.get("arguments") {
                Some(a) => a.copy(),
                None => Json::object(),
            };
            Outcome::Call(tool, arguments)
        },
    }
}

/// The answer to a call: a text, and whether it tells of a failure.
pub open spec fn tool_result_view(text: Seq<char>, failed: bool) -> JsonView {
    no_members().with(
        "content"@,
        no_items().and(
            no_members().with("type"@, JsonView::Text("text"@)).with("text"@, JsonView::Text(text)),
        ),
    ).with("isError"@, JsonView::Bool(failed))
}

fn tool_result_json(text: &str, failed: bool) -> (r: Json)
    ensures
        r@ == tool_result_view(text@, failed),
{
    let item = Json::object().with("type", Json::text("text")).with("text", Json::text(text));
    Json::object().with("content", Json::array().and(item)).with("isError", Json::Bool(failed))
}

/// The answer to a call, given what the tool came to: its value as JSON text, or
/// what went wrong. Of a value that cannot be written, the answer's text begins with
/// words that say so.
pub open spec fn is_tool_result(outcome: Result<Json, String>, r: JsonView) -> bool {
    match outcome {
        Ok(value) => match json_text(settled(value@)) {
            Some(text) => r == tool_result_view(text, false),
            None => exists|text: Seq<char>|
                r == #[trigger] tool_result_view(text, false) && starts_with(
                    text,
                    "failed to serialize tool result: "@,
                ),
        },
        Err(m) => r == tool_result_view(m@, true),
    }
}

/// The answer to a call, given what the tool came to.
pub fn tool_result(outcome: Result<Json, String>) -> (r: Json)
    ensures
        is_tool_result(outcome, r@),
{
    match outcome {
        Ok(value) => match write_json(value) {
            Ok(text) => tool_result_json(text.as_str(), false),
            Err(e) => {
                let mut m = "failed to serialize tool result: ".to_owned();
                m.push_str(e.to_string().as_str());
                proof {
                    let front = "failed to serialize tool result: "@;
                    assert(m@.subrange(0, front.len() as int) =~= front);
                }
                tool_result_json(m.as_str(), false)
            },
        },
        Err(m) => tool_result_json(m.as_str(), true),
    }
}

// ---------------------------------------------------------------------------
// The server

/// The server: tools are only there once the handshake is complete.
pub struct McpServer {
    /// The name of the program, as clients are told.
    pub program: String,
    pub initialized: bool,
}

/// What a request comes to, and whether the handshake is complete then.
pub open spec fn dispatched(
    program: Seq<char>,
    initialized: bool,
    method: Seq<char>,
    params: Option<JsonView>,
    tools: Seq<(Seq<char>, Seq<char>, JsonView)>,
) -> (bool, OutcomeView) {
    if method == "initialize"@ {
        (initialized, initialize_outcome(program, params))
    } else if method == "notifications/initialized"@ {
        (true, OutcomeView::Answer(JsonView::Null))
    } else if method == "tools/list"@ || method == "tools/call"@ {
        if !initialized {
            (
                initialized,
                OutcomeView::Failure(
                    INVALID_REQUEST,
                    "Server not yet initialized -- send initialize + notifications/initialized first"@,
                ),
            )
        } else if method == "tools/list"@ {
            (initialized, OutcomeView::Answer(tools_list(tools)))
        } else {
            (initialized, call_outcome(params))
        }
    } else if method == "ping"@ {
        (initialized, OutcomeView::Answer(JsonView::Null))
    } else {
        (initialized, OutcomeView::Failure(METHOD_NOT_FOUND, "unknown method: "@ + method))
    }
}

impl McpServer {
    /// A server whose handshake has not begun.
    pub fn new(program: &str) -> (r: Self)
        ensures
            r.program@ == program@,
            !r.initialized,
    {
        McpServer { program: program.to_owned(), initialized: false }
    }

    /// What a request comes to.
    pub fn dispatch(&mut self, request: &JsonRpcRequest, tools: &Vec<(String, String, Json)>) -> (r:
        Outcome)
        ensures
            final(self).program@ == old(self).program@,
            (final(self).initialized, r@) == dispatched(
                old(self).program@,
                old(self).initialized,
                request.method@,
                match request.params {
                    Some(p) => Some(p@),
                    None => None,
                },
                tool_views(tools@),
            ),
    {
        let method = request.method.as_str();
        if same(method, "initialize") {
            return Outcome::Answer(handle_initialize(self.program.as_str(), &request.params));
        }
        if same(method, "notifications/initialized") {
            self.initialized = true;
            return Outcome::Answer(Ok(Json::Null));
        }
        if same(method, "tools/list") || same(method, "tools/call") {
            if !self.initialized {
                return Outcome::Answer(
                    Err(
                        (
                            INVALID_REQUEST,
                            "Server not yet initialized -- send initialize + notifications/initialized first".to_owned(),
                        ),
                    ),
                );
            }
            if same(method, "tools/list") {
                return Outcome::Answer(Ok(handle_tools_list(tools)));
            }
            return handle_tools_call(&request.params);
        }
        if same(method, "ping") {
            return Outcome::Answer(Ok(Json::Null));
        }
        let mut m = "unknown method: ".to_owned();
        m.push_str(method);
        Outcome::Answer(Err((METHOD_NOT_FOUND, m)))
    }
}

/// Before the handshake is complete no tool is listed or called: the request is
/// refused with the code for requests that are out of order.
pub proof fn tools_wait_for_the_handshake(
    program: Seq<char>,
    method: Seq<char>,
    params: Option<JsonView>,
    tools: Seq<(Seq<char>, Seq<char>, JsonView)>,
)
    requires
        method == "tools/list"@ || method == "tools/call"@,
    ensures
        dispatched(program, false, method, params, tools).1 matches OutcomeView::Failure(code, _) && code
            == INVALID_REQUEST,
        !dispatched(program, false, method, params, tools).0,
{
    reveal_strlit("tools/list");
    reveal_strlit("tools/call");
    reveal_strlit("initialize");
    reveal_strlit("notifications/initialized");
    assert(method[0] == 't');
    assert("initialize"@[0] == 'i' && "notifications/initialized"@[0] == 'n');
}

/// The handshake is completed by `notifications/initialized` alone, and what is
/// completed stays so.
pub proof fn handshake_is_never_undone(
    program: Seq<char>,
    initialized: bool,
    method: Seq<char>,
    params: Option<JsonView>,
    tools: Seq<(Seq<char>, Seq<char>, JsonView)>,
)
    ensures
        initialized ==> dispatched(program, initialized, method, params, tools).0,
        dispatched(program, initialized, method, params, tools).0 && !initialized ==> method
            == "notifications/initialized"@,
{
    reveal_strlit("initialize");
    reveal_strlit("notifications/initialized");
    assert("initialize"@[0] == 'i' && "notifications/initialized"@[0] == 'n');
}

/// A tool is only ever called by `tools/call` after the handshake.
pub proof fn calls_come_after_the_handshake(
    program: Seq<char>,
    initialized: bool,
    method: Seq<char>,
    params: Option<JsonView>,
    tools: Seq<(Seq<char>, Seq<char>, JsonView)>,
)
    ensures
        dispatched(program, initialized, method, params, tools).1 is Call ==> initialized && method
            == "tools/call"@,
{
}

// ---------------------------------------------------------------------------
// Replies

/// The code of a failure as a JSON number.
pub open spec fn code_view(code: i32) -> JsonView {
    if code >= 0 {
        number_view(code as nat)
    } else {
        JsonView::Number(None, "-"@ + decimal((-code) as nat))
    }
}

/// A reply to a request.
pub open spec fn reply_view(id: JsonView, outcome: Result<JsonView, (i32, Seq<char>)>) -> JsonView {
    let head = no_members().with("jsonrpc"@, JsonView::Text("2.0"@)).with("id"@, id);
    match outcome {
        Ok(v) => head.with("result"@, v),
        Err((code, m)) => head.with(
            "error"@,
            no_members().with("code"@, code_view(code)).with("message"@, JsonView::Text(m)),
        ),
    }
}

fn code_json(code: i32) -> (r: Json)
    ensures
        r@ == code_view(code),
{
    if code >= 0 {
        Json::number(code as u64)
    } else {
        let size: i64 = -(code as i64);
        let mut text = "-".to_owned();
        text.push_str(decimal_of(size as u64).as_str());
        Json::Number(JsonNumber { unsigned: None, text })
    }
}

fn reply_json(id: Json, outcome: Result<Json, (i32, String)>) -> (r: Json)
    ensures
        r@ == reply_view(
            id@,
            match outcome {
                Ok(v) => Ok(v@),
                Err((code, m)) => Err((code, m@)),
            },
        ),
{
    let head = Json::object().with("jsonrpc", Json::text("2.0")).with("id", id);
    match outcome {
        Ok(v) => head.with("result", v),
        Err((code, m)) => head.with(
            "error",
            Json::object().with("code", code_json(code)).with("message", Json::text(m.as_str())),
        ),
    }
}

/// The reply to a request; a notification gets none.
pub fn reply(id: Option<Json>, outcome: Result<Json, (i32, String)>) -> (r: Option<Json>)
    ensures
        match id {
            None => r is None,
            Some(i) => r matches Some(j) && j@ == reply_view(
                i@,
                match outcome {
                    Ok(v) => Ok(v@),
                    Err((code, m)) => Err((code, m@)),
                },
            ),
        },
{
    match id {
        None => None,
        Some(i) => Some(reply_json(i, outcome)),
    }
}

/// What was done about a request.
pub enum Served {
    /// It had an answer, or was refused with a code and words.
    Answered(Result<Json, (i32, String)>),
    /// It was a call, and the tool came to a value or to words for what went wrong.
    Called(Result<Json, String>),
}

/// The reply fits the request: it is there just where the request has an id, bears
/// that id, and tells what was done.
pub open spec fn replies_to(id: Option<Json>, served: Served, r: Option<Json>) -> bool {
    match id {
        None => r is None,
        Some(i) => r matches Some(j) && match served {
            Served::Answered(Ok(v)) => j@ == reply_view(i@, Ok(v@)),
            Served::Answered(Err((code, m))) => j@ == reply_view(i@, Err((code, m@))),
            Served::Called(outcome) => exists|v: JsonView|
                #[trigger] is_tool_result(outcome, v) && j@ == reply_view(i@, Ok(v)),
        },
    }
}

/// The reply to a request, given what was done about it.
pub fn respond(request: JsonRpcRequest, served: Served) -> (r: Option<Json>)
    ensures
        replies_to(request.id, served, r),
{
    let outcome = match served {
        Served::Answered(outcome) => outcome,
        Served::Called(outcome) => {
            let result = tool_result(outcome);
            assert(is_tool_result(outcome, result@));
            Ok(result)
        },
    };
    reply(request.id, outcome)
}

/// A reply to a request bears the id of that request and no other, whatever the
/// request came to.
pub proof fn replies_bear_the_id(id: Json, served: Served, r: Option<Json>)
    requires
        replies_to(Some(id), served, r),
    ensures
        r matches Some(j) && j@.get("id"@) == Some(id@),
{
    reveal_strlit("id");
    reveal_strlit("result");
    reveal_strlit("error");
    assert("id"@.len() == 2 && "result"@.len() == 6 && "error"@.len() == 5);
    let head = no_members().with("jsonrpc"@, JsonView::Text("2.0"@)).with("id"@, id@);
    match (no_members().with("jsonrpc"@, JsonView::Text("2.0"@)), head) {
        (JsonView::Object(first), JsonView::Object(members)) => {
            inserted_member_is_found(first, "id"@, id@, "id"@);
            assert forall|key: Seq<char>, v: JsonView| key != "id"@ implies #[trigger] lookup(
                insert_member(members, key, v),
                "id"@,
            ) == Some(id@) by {
                inserted_member_is_found(members, key, v, "id"@);
            }
        },
        _ => {},
    }
}

/// A notification is never replied to.
pub proof fn notifications_get_no_reply(served: Served, r: Option<Json>)
    requires
        replies_to(None, served, r),
    ensures
        r is None,
{
}

/// The reply to a line that is no request: without an id, and with the words of
/// the parser.
pub fn parse_error_reply(why: &str) -> (r: Json)
    ensures
        r@ == reply_view(
            JsonView::Null,
            Err::<JsonView, (i32, Seq<char>)>((PARSE_ERROR, why@)),
        ),
{
    reply_json(Json::Null, Err((PARSE_ERROR, why.to_owned())))
}

proof fn lemma_members()
    ensures
        forall|v: JsonView, key: Seq<char>, value: JsonView, other: Seq<char>|
            v is Object ==> #[trigger] v.with(key, value).get(other) == if other == key {
                Some(value)
            } else {
                v.get(other)
            },
        forall|v: JsonView, key: Seq<char>, value: JsonView|
            v is Object ==> #[trigger] v.with(key, value) is Object,
{
    assert forall|v: JsonView, key: Seq<char>, value: JsonView, other: Seq<char>|
        v is Object implies #[trigger] v.with(key, value).get(other) == if other == key {
        Some(value)
    } else {
        v.get(other)
    } by {
        set_members_are_found(v, key, value, other);
    }
}

/// A reply holds the result of an answer, or the code and the words of what is wrong,
/// and never both.
pub proof fn replies_hold_result_or_error(
    id: JsonView,
    value: JsonView,
    code: i32,
    m: Seq<char>,
)
    ensures
        ({
            let good = reply_view(id, Ok(value));
            let bad = reply_view(id, Err((code, m)));
            &&& good.text_at("jsonrpc"@) == Some("2.0"@)
            &&& bad.text_at("jsonrpc"@) == Some("2.0"@)
            &&& good.get("id"@) == Some(id)
            &&& bad.get("id"@) == Some(id)
            &&& good.get("result"@) == Some(value)
            &&& good.get("error"@) is None
            &&& bad.get("result"@) is None
            &&& bad.get("error"@) matches Some(e) && {
                &&& e.text_at("message"@) == Some(m)
                &&& code >= 0 ==> e.number_at("code"@) == Some(code as u64)
                &&& code < 0 ==> e.get("code"@) == Some(
                    JsonView::Number(None, "-"@ + decimal((-code) as nat)),
                )
            }
        }),
{
    lemma_members();
    reveal_strlit("jsonrpc");
    reveal_strlit("id");
    reveal_strlit("result");
    reveal_strlit("error");
    reveal_strlit("code");
    reveal_strlit("message");
    assert("jsonrpc"@.len() == 7 && "id"@.len() == 2 && "result"@.len() == 6 && "error"@.len()
        == 5 && "code"@.len() == 4 && "message"@.len() == 7);
    let e = no_members().with("code"@, code_view(code)).with("message"@, JsonView::Text(m));
    assert(e.get("code"@) == Some(code_view(code)));
}

/// A tool is called by its name with the arguments that were given, or with none; a name
/// that no tool has is refused.
pub proof fn tools_are_called_by_name(p: JsonView, name: Seq<char>)
    requires
        p.get("name"@) == Some(JsonView::Text(name)),
    ensures
        ({
            let outcome = call_outcome(Some(p));
            let given = match p.get("arguments"@) {
                Some(a) => a,
                None => no_members(),
            };
            &&& name == "review_pr"@ ==> outcome == OutcomeView::Call(ToolKind::ReviewPr, given)
            &&& name == "review_diff"@ ==> outcome == OutcomeView::Call(
                ToolKind::ReviewDiff,
                given,
            )
            &&& name == "review_files"@ ==> outcome == OutcomeView::Call(
                ToolKind::ReviewFiles,
                given,
            )
            &&& name == "review_file"@ ==> outcome == OutcomeView::Call(
                ToolKind::ReviewFile,
                given,
            )
            &&& name == "review_glob"@ ==> outcome == OutcomeView::Call(
                ToolKind::ReviewGlob,
                given,
            )
            &&& name != "review_pr"@ && name != "review_diff"@ && name != "review_files"@ && name
                != "review_file"@ && name != "review_glob"@ ==> (outcome matches OutcomeView::Failure(
                code,
                m,
            ) && code == METHOD_NOT_FOUND && m == "unknown tool: "@ + name)
        }),
{
    reveal_strlit("review_pr");
    reveal_strlit("review_diff");
    reveal_strlit("review_files");
    reveal_strlit("review_file");
    reveal_strlit("review_glob");
    assert("review_pr"@.len() == 9 && "review_diff"@.len() == 11 && "review_files"@.len() == 12);
    assert("review_file"@.len() == 11 && "review_glob"@.len() == 11);
    assert("review_diff"@[7] == 'd' && "review_file"@[7] == 'f' && "review_glob"@[7] == 'g');
}

/// A call without a name is refused as one whose arguments are wrong.
pub proof fn calls_without_a_name_are_refused(p: JsonView)
    requires
        p.text_at("name"@) is None,
    ensures
        call_outcome(Some(p)) matches OutcomeView::Failure(code, _) && code == INVALID_PARAMS,
        call_outcome(None) matches OutcomeView::Failure(code, _) && code == INVALID_PARAMS,
{
}

/// After the handshake each method does what it is for, and a method that there is not is
/// refused as unknown.
pub proof fn methods_do_what_they_are_for(
    program: Seq<char>,
    initialized: bool,
    method: Seq<char>,
    params: Option<JsonView>,
    tools: Seq<(Seq<char>, Seq<char>, JsonView)>,
)
    ensures
        dispatched(program, true, "tools/list"@, params, tools) == (
            true,
            OutcomeView::Answer(tools_list(tools)),
        ),
        dispatched(program, true, "tools/call"@, params, tools) == (true, call_outcome(params)),
        dispatched(program, initialized, "ping"@, params, tools) == (
            initialized,
            OutcomeView::Answer(JsonView::Null),
        ),
        dispatched(program, initialized, "notifications/initialized"@, params, tools) == (
            true,
            OutcomeView::Answer(JsonView::Null),
        ),
        dispatched(program, initialized, "initialize"@, params, tools) == (
            initialized,
            initialize_outcome(program, params),
        ),
        method != "initialize"@ && method != "notifications/initialized"@ && method
            != "tools/list"@ && method != "tools/call"@ && method != "ping"@ ==> dispatched(
            program,
            initialized,
            method,
            params,
            tools,
        ) == (initialized, OutcomeView::Failure(METHOD_NOT_FOUND, "unknown method: "@ + method)),
{
    reveal_strlit("initialize");
    reveal_strlit("notifications/initialized");
    reveal_strlit("tools/list");
    reveal_strlit("tools/call");
    reveal_strlit("ping");
    assert("initialize"@[0] == 'i' && "notifications/initialized"@[0] == 'n' && "ping"@[0] == 'p');
    assert("tools/list"@[0] == 't' && "tools/call"@[0] == 't');
    assert("tools/list"@[6] == 'l' && "tools/call"@[6] == 'c');
}

proof fn lemma_listed_tools(tools: Seq<(Seq<char>, Seq<char>, JsonView)>)
    ensures
        tool_items(tools) matches JsonView::Array(items) && items.len() == tools.len() && forall|
            i: int,
        |
            0 <= i < tools.len() ==> #[trigger] items[i] == no_members().with(
                "name"@,
                JsonView::Text(tools[i].0),
            ).with("description"@, JsonView::Text(tools[i].1)).with("inputSchema"@, tools[i].2),
    decreases tools.len(),
{
    if tools.len() > 0 {
        lemma_listed_tools(tools.drop_last());
    }
}

/// Every tool is listed, in its order, with its name, its description and its arguments.
pub proof fn every_tool_is_listed(tools: Seq<(Seq<char>, Seq<char>, JsonView)>, i: int)
    requires
        0 <= i < tools.len(),
    ensures
        tools_list(tools).get("tools"@) matches Some(JsonView::Array(items)) && {
            &&& items.len() == tools.len()
            &&& items[i].text_at("name"@) == Some(tools[i].0)
            &&& items[i].text_at("description"@) == Some(tools[i].1)
            &&& items[i].get("inputSchema"@) == Some(tools[i].2)
        },
{
    lemma_members();
    lemma_listed_tools(tools);
    reveal_strlit("name");
    reveal_strlit("description");
    reveal_strlit("inputSchema");
    assert("name"@.len() == 4 && "description"@.len() == 11 && "inputSchema"@.len() == 11);
    assert("description"@[0] == 'd' && "inputSchema"@[0] == 'i');
    assert(tools_list(tools).get("tools"@) == Some(tool_items(tools)));
}

/// The answer to a call holds its text, and says whether the tool failed.
pub proof fn tool_results_hold_the_text(text: Seq<char>, failed: bool)
    ensures
        ({
            let v = tool_result_view(text, failed);
            &&& v.get("isError"@) == Some(JsonView::Bool(failed))
            &&& v.get("content"@) matches Some(JsonView::Array(items)) && {
                &&& items.len() == 1
                &&& items[0].text_at("type"@) == Some("text"@)
                &&& items[0].text_at("text"@) == Some(text)
            }
        }),
{
    lemma_members();
    reveal_strlit("content");
    reveal_strlit("isError");
    reveal_strlit("type");
    reveal_strlit("text");
    assert("content"@[0] == 'c' && "isError"@[0] == 'i' && "type"@[1] == 'y' && "text"@[1] == 'e');
    let item = no_members().with("type"@, JsonView::Text("text"@)).with(
        "text"@,
        JsonView::Text(text),
    );
    assert(item.get("type"@) == Some(JsonView::Text("text"@)));
    assert(tool_result_view(text, failed).get("content"@) == Some(no_items().and(item)));
}

/// A client is let in by the year of its protocol: from the first one that is supported
/// on, and one that names none is let in too.
pub proof fn clients_are_let_in_by_year(
    program: Seq<char>,
    p: JsonView,
    year: nat,
    rest: Seq<char>,
)
    requires
        1000 <= year <= 9999,
        p is Object,
    ensures
        accepted_version(decimal(year) + rest) <==> year >= 2024,
        ({
            let named = p.with("protocolVersion"@, JsonView::Text(decimal(year) + rest));
            initialize_outcome(program, Some(named)) is Answer <==> year >= 2024
        }),
        initialize_outcome(program, None) is Answer,
        initialize_outcome(program, None) == OutcomeView::Answer(server_info(program)),
{
    let d = decimal(year);
    let v = d + rest;
    decimal_is_digits(year);
    decimal_reads_back(year, u64::MAX as nat);
    assert(d.len() == 4) by {
        reveal_with_fuel(decimal, 5);
    }
    assert(v.subrange(0, 4) =~= d);
    assert forall|i: int| 0 <= i < 4 implies is_digit(#[trigger] v[i]) by {
        assert(v[i] == d[i]);
    }
    set_members_are_found(p, "protocolVersion"@, JsonView::Text(v), "protocolVersion"@);
}

} // verus!
