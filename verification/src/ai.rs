//! The AI side of a review: what is sent to a chat completion API and what its
//! answers mean.
use vstd::prelude::*;

use crate::config::{Settings, Temperature};
use crate::error::AgentError;
use crate::github::{trim_slashes, without_slashes};
use crate::json::{
    no_items, no_members, number_view, set_members_are_found, Json, JsonNumber, JsonView,
};
use crate::numeral::digit_char;
use crate::sensitive::Sensitive;
use crate::text::{
    chars_of, contains, ends_with, opt_view, parts_are_contained, starts_with, text_between,
    text_trim, trim,
};
use crate::web::{status_digits, status_text, status_words, success_status};

verus! {

/// A function that the model may call, by name and JSON arguments.
pub struct ToolCallFunction {
    pub name: String,
    pub arguments: String,
}

/// A call that the model asks for.
pub struct ToolCall {
    pub id: String,
    pub call_type: String,
    pub function: ToolCallFunction,
}

/// A message of a conversation.
pub struct Message {
    pub role: String,
    pub content: Option<String>,
    /// The calls that the assistant asks for.
    pub tool_calls: Option<Vec<ToolCall>>,
    /// The call that the message answers.
    pub tool_call_id: Option<String>,
}

/// A function that the model is told of.
pub struct ToolFunction {
    pub name: String,
    pub description: Option<String>,
    pub parameters: Json,
}

/// A tool that the model is told of.
pub struct ToolDef {
    pub tool_type: String,
    pub function: ToolFunction,
}

/// A request for a chat completion.
pub struct ChatRequest {
    pub model: String,
    pub messages: Vec<Message>,
    pub temperature: Option<Temperature>,
    pub max_tokens: Option<u32>,
    pub tools: Option<Vec<ToolDef>>,
}

/// The tokens that an answer cost.
#[derive(Clone, Copy, Debug)]
pub struct Usage {
    pub prompt_tokens: Option<u32>,
    pub completion_tokens: Option<u32>,
    pub total_tokens: Option<u32>,
}

/// The message of an answer.
pub struct ChoiceMessage {
    pub content: Option<String>,
    pub tool_calls: Option<Vec<ToolCall>>,
}

/// One of the answers to a request.
pub struct Choice {
    pub message: ChoiceMessage,
    pub finish_reason: Option<String>,
}

/// The reply to a request.
pub struct ChatResponse {
    pub id: Option<String>,
    pub choices: Vec<Choice>,
    pub usage: Option<Usage>,
}

/// What a reply comes to.
pub struct ChatOutput {
    /// The text of the answer.
    pub content: String,
    /// The tokens that it cost, if reported.
    pub usage: Option<Usage>,
    /// Why the model stopped.
    pub finish_reason: Option<String>,
    /// The calls that the model asks for.
    pub tool_calls: Vec<ToolCall>,
}

// ---------------------------------------------------------------------------
// Requests as JSON

/// An object with one more member where there is a text for it.
pub open spec fn with_some_text(v: JsonView, key: Seq<char>, text: Option<Seq<char>>) -> JsonView {
    match text {
        Some(t) => v.with(key, JsonView::Text(t)),
        None => v,
    }
}

fn add_some_text(v: Json, key: &str, text: &Option<String>) -> (r: Json)
    ensures
        r@ == with_some_text(v@, key@, opt_view(*text)),
{
    match text {
        Some(t) => v.with(key, Json::text(t.as_str())),
        None => v,
    }
}

pub open spec fn call_view(c: ToolCall) -> JsonView {
    no_members().with("id"@, JsonView::Text(c.id@)).with("type"@, JsonView::Text(c.call_type@)).with(
        "function"@,
        no_members().with("name"@, JsonView::Text(c.function.name@)).with(
            "arguments"@,
            JsonView::Text(c.function.arguments@),
        ),
    )
}

pub open spec fn calls_view(calls: Seq<ToolCall>) -> JsonView
    decreases calls.len(),
{
    if calls.len() == 0 {
        no_items()
    } else {
        calls_view(calls.drop_last()).and(call_view(calls.last()))
    }
}

/// A message as JSON, without the members that it has nothing for.
pub open spec fn message_view(m: Message) -> JsonView {
    let v = with_some_text(
        no_members().with("role"@, JsonView::Text(m.role@)),
        "content"@,
        opt_view(m.content),
    );
    let v = match m.tool_calls {
        Some(calls) => v.with("tool_calls"@, calls_view(calls@)),
        None => v,
    };
    with_some_text(v, "tool_call_id"@, opt_view(m.tool_call_id))
}

pub open spec fn messages_view(messages: Seq<Message>) -> JsonView
    decreases messages.len(),
{
    if messages.len() == 0 {
        no_items()
    } else {
        messages_view(messages.drop_last()).and(message_view(messages.last()))
    }
}

pub open spec fn tool_view(t: ToolDef) -> JsonView {
    no_members().with("type"@, JsonView::Text(t.tool_type@)).with(
        "function"@,
        with_some_text(
            no_members().with("name"@, JsonView::Text(t.function.name@)),
            "description"@,
            opt_view(t.function.description),
        ).with("parameters"@, t.function.parameters@),
    )
}

pub open spec fn tools_view(tools: Seq<ToolDef>) -> JsonView
    decreases tools.len(),
{
    if tools.len() == 0 {
        no_items()
    } else {
        tools_view(tools.drop_last()).and(tool_view(tools.last()))
    }
}

/// A request as JSON, without the members that it has nothing for.
pub open spec fn request_view(q: ChatRequest) -> JsonView {
    let v = no_members().with("model"@, JsonView::Text(q.model@)).with(
        "messages"@,
        messages_view(q.messages@),
    );
    let v = match q.temperature {
        Some(t) => v.with("temperature"@, JsonView::Number(None, t.text@)),
        None => v,
    };
    let v = match q.max_tokens {
        Some(n) => v.with("max_tokens"@, number_view(n as nat)),
        None => v,
    };
    match q.tools {
        Some(t) => v.with("tools"@, tools_view(t@)),
        None => v,
    }
}

fn calls_json(calls: &Vec<ToolCall>) -> (r: Json)
    ensures
        r@ == calls_view(calls@),
{
    let mut out = Json::array();
    let mut i: usize = 0;
    while i < calls.len()
        invariant
            i <= calls@.len(),
            out@ == calls_view(calls@.take(i as int)),
        decreases calls@.len() - i,
    {
        assert(calls@.take(i + 1).drop_last() =~= calls@.take(i as int));
        let c = &calls[i];
        let function = Json::object().with("name", Json::text(c.function.name.as_str())).with(
            "arguments",
            Json::text(c.function.arguments.as_str()),
        );
        out = out.and(
            Json::object().with("id", Json::text(c.id.as_str())).with(
                "type",
                Json::text(c.call_type.as_str()),
            ).with("function", function),
        );
        i += 1;
    }
    assert(calls@.take(i as int) =~= calls@);
    out
}

fn message_json(m: &Message) -> (r: Json)
    ensures
        r@ == message_view(*m),
{
    let v = add_some_text(
        Json::object().with("role", Json::text(m.role.as_str())),
        "content",
        &m.content,
    );
    let v = match &m.tool_calls {
        Some(calls) => v.with("tool_calls", calls_json(calls)),
        None => v,
    };
    add_some_text(v, "tool_call_id", &m.tool_call_id)
}

fn messages_json(messages: &Vec<Message>) -> (r: Json)
    ensures
        r@ == messages_view(messages@),
{
    let mut out = Json::array();
    let mut i: usize = 0;
    while i < messages.len()
        invariant
            i <= messages@.len(),
            out@ == messages_view(messages@.take(i as int)),
        decreases messages@.len() - i,
    {
        assert(messages@.take(i + 1).drop_last() =~= messages@.take(i as int));
        out = out.and(message_json(&messages[i]));
        i += 1;
    }
    assert(messages@.take(i as int) =~= messages@);
    out
}

fn tools_json(tools: Vec<ToolDef>) -> (r: Json)
    ensures
        r@ == tools_view(tools@),
{
    let ghost source = tools@;
    let mut out = Json::array();
    for t in it: tools
        invariant
            it.seq() == source,
            out@ == tools_view(source.take(it.index())),
    {
        assert(source.take(it.index() + 1).drop_last() =~= source.take(it.index()));
        let function = add_some_text(
            Json::object().with("name", Json::text(t.function.name.as_str())),
            "description",
            &t.function.description,
        ).with("parameters", t.function.parameters);
        out = out.and(
            Json::object().with("type", Json::text(t.tool_type.as_str())).with("function", function),
        );
    }
    assert(source.take(source.len() as int) =~= source);
    out
}

impl ChatRequest {
    /// The request as JSON.
    pub fn into_json(self) -> (r: Json)
        ensures
            r@ == request_view(self),
    {
        let v = Json::object().with("model", Json::text(self.model.as_str())).with(
            "messages",
            messages_json(&self.messages),
        );
        let v = match self.temperature {
            Some(t) => v.with(
                "temperature",
                Json::Number(JsonNumber { unsigned: None, text: t.text }),
            ),
            None => v,
        };
        let v = match self.max_tokens {
            Some(n) => v.with("max_tokens", Json::number(n as u64)),
            None => v,
        };
        match self.tools {
            Some(t) => v.with("tools", tools_json(t)),
            None => v,
        }
    }
}

// ---------------------------------------------------------------------------
// The client

/// What is needed to ask a chat completion API.
pub struct AiClient {
    pub api_base: String,
    pub model: String,
    pub api_key: Sensitive<String>,
    pub temperature: Temperature,
    pub max_completion_tokens: u32,
}

/// The address that requests go to.
pub open spec fn completions_address(api_base: Seq<char>) -> Seq<char> {
    without_slashes(api_base) + "/chat/completions"@
}

/// Requests go to one address below that of the API, with or without a slash at its end.
pub proof fn requests_go_below_the_api(api_base: Seq<char>)
    ensures
        completions_address(api_base + "/"@) == completions_address(api_base),
        api_base.len() > 0 && api_base.last() != '/' ==> completions_address(api_base) == api_base
            + "/chat/completions"@,
{
    reveal_strlit("/");
    let s = api_base + "/"@;
    assert(s.drop_last() =~= api_base);
    assert(s.last() == '/');
}

/// A message with a role and a text alone.
pub open spec fn plain_message(m: Message, role: Seq<char>, content: Seq<char>) -> bool {
    &&& m.role@ == role
    &&& opt_view(m.content) == Some(content)
    &&& m.tool_calls is None
    &&& m.tool_call_id is None
}

fn new_message(role: &str, content: &str) -> (r: Message)
    ensures
        plain_message(r, role@, content@),
{
    Message {
        role: role.to_owned(),
        content: Some(content.to_owned()),
        tool_calls: None,
        tool_call_id: None,
    }
}

impl AiClient {
    /// A client for the configured provider.
    pub fn new(settings: &Settings) -> (r: Self)
        ensures
            r.api_base == settings.ai.api_base,
            r.model == settings.ai.model,
            r.api_key.secret() == settings.ai.api_key.secret(),
            r.temperature.bits == settings.ai.temperature.bits,
            r.temperature.text == settings.ai.temperature.text,
            r.max_completion_tokens == settings.ai.max_completion_tokens,
    {
        AiClient {
            api_base: settings.ai.api_base.clone(),
            model: settings.ai.model.clone(),
            api_key: Sensitive::new(settings.ai.api_key.inner().clone()),
            temperature: Temperature {
                bits: settings.ai.temperature.bits,
                text: settings.ai.temperature.text.clone(),
            },
            max_completion_tokens: settings.ai.max_completion_tokens,
        }
    }

    /// The configured model.
    pub fn model_name(&self) -> (r: &str)
        ensures
            r@ == self.model@,
    {
        self.model.as_str()
    }

    /// The configured limit on the tokens of an answer.
    pub fn max_completion_tokens(&self) -> (r: u32)
        ensures
            r == self.max_completion_tokens,
    {
        self.max_completion_tokens
    }

    /// Where requests go.
    pub fn completions_url(&self) -> (r: String)
        ensures
            r@ == completions_address(self.api_base@),
            r@ == without_slashes(self.api_base@) + "/chat/completions"@,
    {
        let mut url = trim_slashes(self.api_base.as_str());
        url.push_str("/chat/completions");
        url
    }

    /// The request is for this model, at this temperature.
    pub open spec fn asks(self, q: ChatRequest) -> bool {
        &&& q.model == self.model
        &&& q.temperature matches Some(t) && t.bits == self.temperature.bits && t.text
            == self.temperature.text
    }

    /// The request asks a system and a user prompt with a limit.
    pub open spec fn is_chat(
        self,
        q: ChatRequest,
        system: Seq<char>,
        user: Seq<char>,
        max_tokens: u32,
    ) -> bool {
        &&& self.asks(q)
        &&& q.messages@.len() == 2
        &&& plain_message(q.messages@[0], "system"@, system)
        &&& plain_message(q.messages@[1], "user"@, user)
        &&& q.max_tokens == Some(max_tokens)
        &&& q.tools is None
    }

    fn temperature_copy(&self) -> (r: Temperature)
        ensures
            r.bits == self.temperature.bits,
            r.text == self.temperature.text,
    {
        Temperature { bits: self.temperature.bits, text: self.temperature.text.clone() }
    }

    /// The request that asks a system and a user prompt with the configured limit.
    pub fn chat(&self, system: &str, user: &str) -> (r: ChatRequest)
        ensures
            self.is_chat(r, system@, user@, self.max_completion_tokens),
    {
        self.chat_with_max_tokens(system, user, self.max_completion_tokens)
    }

    /// The request that asks a system and a user prompt with a limit.
    pub fn chat_with_max_tokens(&self, system: &str, user: &str, max_tokens: u32) -> (r:
        ChatRequest)
        ensures
            self.is_chat(r, system@, user@, max_tokens),
    {
        let mut messages: Vec<Message> = Vec::new();
        messages.push(new_message("system", system));
        messages.push(new_message("user", user));
        ChatRequest {
            model: self.model.clone(),
            messages,
            temperature: Some(self.temperature_copy()),
            max_tokens: Some(max_tokens),
            tools: None,
        }
    }

    /// The request that carries on a conversation in which the model may call tools.
    pub fn chat_with_tools(&self, messages: Vec<Message>, tools: Vec<ToolDef>) -> (r: ChatRequest)
        ensures
            self.asks(r),
            r.messages == messages,
            r.max_tokens == Some(self.max_completion_tokens),
            r.tools == Some(tools),
    {
        ChatRequest {
            model: self.model.clone(),
            messages,
            temperature: Some(self.temperature_copy()),
            max_tokens: Some(self.max_completion_tokens),
            tools: Some(tools),
        }
    }
}

// ---------------------------------------------------------------------------
// Answers

/// What a reply comes to: the first choice counts, and what it lacks is empty.
pub open spec fn is_output(response: ChatResponse, out: ChatOutput) -> bool {
    &&& out.usage == response.usage
    &&& if response.choices@.len() == 0 {
        out.content@ == ""@ && out.finish_reason is None && out.tool_calls@.len() == 0
    } else {
        let first = response.choices@[0];
        &&& out.finish_reason == first.finish_reason
        &&& out.content@ == match first.message.content {
            Some(c) => c@,
            None => ""@,
        }
        &&& out.tool_calls@ == match first.message.tool_calls {
            Some(c) => c@,
            None => Seq::empty(),
        }
    }
}

/// What a reply comes to.
pub fn chat_output(response: ChatResponse) -> (r: ChatOutput)
    ensures
        is_output(response, r),
{
    let usage = response.usage;
    let mut choices = response.choices;
    if choices.len() == 0 {
        return ChatOutput {
            content: "".to_owned(),
            usage,
            finish_reason: None,
            tool_calls: Vec::new(),
        };
    }
    let first = choices.remove(0);
    let content = match first.message.content {
        Some(c) => c,
        None => "".to_owned(),
    };
    let tool_calls = match first.message.tool_calls {
        Some(c) => c,
        None => Vec::new(),
    };
    ChatOutput { content, usage, finish_reason: first.finish_reason, tool_calls }
}

/// The bytes that a character takes in UTF-8.
pub open spec fn utf8_width(c: char) -> nat {
    let n = c as u32;
    if n < 0x80 {
        1
    } else if n < 0x800 {
        2
    } else if n < 0x1_0000 {
        3
    } else {
        4
    }
}

/// The bytes that a text takes in UTF-8.
pub open spec fn utf8_length(s: Seq<char>) -> nat
    decreases s.len(),
{
    if s.len() == 0 {
        0
    } else {
        utf8_length(s.drop_last()) + utf8_width(s.last())
    }
}

/// How many characters of `s`, from the front, take at most `limit` bytes.
pub open spec fn fitting(s: Seq<char>, limit: int) -> int
    decreases s.len(),
{
    if s.len() == 0 || utf8_width(s[0]) > limit {
        0
    } else {
        1 + fitting(s.subrange(1, s.len() as int), limit - utf8_width(s[0]))
    }
}

/// The most bytes of a body that an error message holds.
pub const MAX_BODY_SNIPPET: usize = 200;

/// A body as it stands in an error message: without the white space around it,
/// and cut at the last character that ends within the limit.
pub open spec fn snippet(body: Seq<char>) -> Seq<char> {
    let trimmed = trim(body);
    let n = fitting(trimmed, MAX_BODY_SNIPPET as int);
    if n == trimmed.len() {
        trimmed
    } else {
        trimmed.subrange(0, n) + "…[truncated]"@
    }
}

fn width_of(c: char) -> (r: usize)
    ensures
        r == utf8_width(c),
        1 <= r <= 4,
{
    let n: u32 = c as u32;
    if n < 0x80 {
        1
    } else if n < 0x800 {
        2
    } else if n < 0x1_0000 {
        3
    } else {
        4
    }
}

/// A body as it stands in an error message.
pub fn body_snippet(body: &str) -> (r: String)
    ensures
        r@ == snippet(body@),
{
    let trimmed = chars_of(text_trim(body).as_str());
    let mut i: usize = 0;
    let mut left: usize = MAX_BODY_SNIPPET;
    assert(trimmed@.subrange(0, trimmed@.len() as int) =~= trimmed@);
    while i < trimmed.len() && width_of(trimmed[i]) <= left
        invariant
            i <= trimmed@.len(),
            fitting(trimmed@, MAX_BODY_SNIPPET as int) == i + fitting(
                trimmed@.subrange(i as int, trimmed@.len() as int),
                left as int,
            ),
        decreases trimmed@.len() - i,
    {
        let ghost tail = trimmed@.subrange(i as int, trimmed@.len() as int);
        assert(tail[0] == trimmed@[i as int]);
        assert(tail.subrange(1, tail.len() as int) =~= trimmed@.subrange(
            i + 1,
            trimmed@.len() as int,
        ));
        left = left - width_of(trimmed[i]);
        i += 1;
    }
    proof {
        let tail = trimmed@.subrange(i as int, trimmed@.len() as int);
        if i < trimmed@.len() {
            assert(tail[0] == trimmed@[i as int]);
        }
    }
    let mut out = text_between(&trimmed, 0, i);
    if i < trimmed.len() {
        out.push_str("…[truncated]");
    }
    out
}

/// The words for an answer that is no success.
pub open spec fn failure_words(status: u16, body: Seq<char>) -> Seq<char> {
    if status == 401 || status == 403 {
        "AI API authentication failed ("@ + status_words(status) + "): "@ + snippet(body)
    } else if status == 404 {
        "AI API endpoint not found (404): "@ + snippet(body)
    } else if status == 429 {
        "AI API rate limit exceeded (429): "@ + snippet(body)
    } else if 500 <= status <= 599 {
        "AI API server error ("@ + status_words(status) + "): "@ + snippet(body)
    } else {
        "AI API error ("@ + status_words(status) + "): "@ + snippet(body)
    }
}

fn with_status(front: &str, status: u16, rest: &str) -> (r: String)
    requires
        100 <= status <= 999,
    ensures
        r@ == front@ + status_words(status) + "): "@ + rest@,
{
    let mut m = front.to_owned();
    m.push_str(status_text(status).as_str());
    m.push_str("): ");
    m.push_str(rest);
    m
}

/// The error for an answer that is no success.
pub fn classify_error(status: u16, body: &str) -> (r: AgentError)
    requires
        100 <= status <= 999,
    ensures
        r matches AgentError::Ai(m) && m@ == failure_words(status, body@),
{
    let short = body_snippet(body);
    let message = if status == 401 || status == 403 {
        with_status("AI API authentication failed (", status, short.as_str())
    } else if status == 404 {
        let mut m = "AI API endpoint not found (404): ".to_owned();
        m.push_str(short.as_str());
        m
    } else if status == 429 {
        let mut m = "AI API rate limit exceeded (429): ".to_owned();
        m.push_str(short.as_str());
        m
    } else if 500 <= status && status <= 599 {
        with_status("AI API server error (", status, short.as_str())
    } else {
        with_status("AI API error (", status, short.as_str())
    };
    AgentError::Ai(message)
}

/// What a reply, or the body of an answer that is no success, comes to.
pub enum Reply {
    /// A success whose body was read as a reply.
    Parsed(ChatResponse),
    /// A success whose body is no reply, and why.
    Unreadable(String),
    /// No success, and the body.
    Refused(String),
}

/// The outcome of a request, given the status and what was read of the body: a
/// success was read as a reply or is unreadable, and only an answer that is no
/// success is refused.
pub fn send_request(status: u16, reply: Reply) -> (r: Result<ChatOutput, AgentError>)
    requires
        100 <= status <= 999,
        reply is Refused <==> !success_status(status),
    ensures
        r is Ok ==> success_status(status),
        match reply {
            Reply::Parsed(response) => r matches Ok(out) && is_output(response, out),
            Reply::Unreadable(why) => r matches Err(AgentError::Ai(m)) && m@
                == "AI API non-parseable response ("@ + status_words(status) + "): "@ + why@,
            Reply::Refused(body) => r matches Err(AgentError::Ai(m)) && m@ == failure_words(
                status,
                body@,
            ),
        },
{
    match reply {
        Reply::Parsed(response) => Ok(chat_output(response)),
        Reply::Unreadable(why) => Err(
            AgentError::Ai(with_status("AI API non-parseable response (", status, why.as_str())),
        ),
        Reply::Refused(body) => Err(classify_error(status, body.as_str())),
    }
}

/// Exactly rate limits and server errors are worth a second attempt.
pub proof fn transient_answers(status: u16, body: Seq<char>, error: AgentError)
    requires
        100 <= status <= 999,
        error matches AgentError::Ai(m) && m@ == failure_words(status, body),
    ensures
        error.transient() <==> (status == 429 || 500 <= status <= 599),
{
    let words = failure_words(status, body);
    reveal_strlit("AI API rate limit exceeded (429)");
    reveal_strlit("AI API server error (5");
    let limit = "AI API rate limit exceeded (429)"@;
    let server = "AI API server error (5"@;
    assert forall|pat: Seq<char>, k: int|
        0 <= k < pat.len() && #[trigger] starts_with(words, pat) implies #[trigger] pat[k]
        == words[k] by {
        assert(words.subrange(0, pat.len() as int)[k] == words[k]);
    }
    assert(limit[7] == 'r' && server[7] == 's');
    status_digits(status as nat);
    if status == 401 || status == 403 {
        reveal_strlit("AI API authentication failed (");
        assert(words[7] == 'a');
    } else if status == 404 {
        reveal_strlit("AI API endpoint not found (404): ");
        assert(words[7] == 'e');
    } else if status == 429 {
        reveal_strlit("AI API rate limit exceeded (429): ");
        assert(words.subrange(0, limit.len() as int) =~= limit);
    } else if 500 <= status <= 599 {
        reveal_strlit("AI API server error (");
        assert(words[21] == digit_char(status as nat / 100));
        assert(status as nat / 100 == 5);
        assert(words.subrange(0, server.len() as int) =~= server);
    } else {
        reveal_strlit("AI API error (");
        assert(words[7] == 'e');
    }
}

/// An error message holds no more of a body than the limit allows.
pub proof fn snippet_is_short(body: Seq<char>)
    ensures
        ({
            let n = fitting(trim(body), MAX_BODY_SNIPPET as int);
            &&& 0 <= n <= trim(body).len()
            &&& utf8_length(trim(body).subrange(0, n)) <= MAX_BODY_SNIPPET
        }),
{
    lemma_fitting(trim(body), MAX_BODY_SNIPPET as int);
}

proof fn lemma_fitting(s: Seq<char>, limit: int)
    requires
        0 <= limit,
    ensures
        0 <= fitting(s, limit) <= s.len(),
        utf8_length(s.subrange(0, fitting(s, limit))) <= limit,
    decreases s.len(),
{
    if s.len() == 0 || utf8_width(s[0]) > limit {
    } else {
        let tail = s.subrange(1, s.len() as int);
        let w = utf8_width(s[0]);
        lemma_fitting(tail, limit - w);
        let n = fitting(s, limit);
        lemma_utf8_front(s.subrange(0, n));
        assert(s.subrange(0, n).subrange(1, n) =~= tail.subrange(0, n - 1));
    }
}

proof fn lemma_utf8_front(s: Seq<char>)
    requires
        s.len() > 0,
    ensures
        utf8_length(s) == utf8_width(s[0]) + utf8_length(s.subrange(1, s.len() as int)),
    decreases s.len(),
{
    if s.len() > 1 {
        lemma_utf8_front(s.drop_last());
        let tail = s.subrange(1, s.len() as int);
        assert(tail.drop_last() =~= s.drop_last().subrange(1, s.len() - 1));
    } else {
        assert(s.drop_last() =~= Seq::<char>::empty());
        assert(s.subrange(1, 1) =~= Seq::<char>::empty());
    }
}

proof fn lemma_members()
    ensures
        forall|v: JsonView, key: Seq<char>, value: JsonView, other: Seq<char>|
            v is Object ==> #[trigger] v.with(key, value).get(other) == if other == key {
                Some(value)
            } else {
                v.get(other)
            },
        forall|v: JsonView, key: Seq<char>, value: JsonView|
            v is Object ==> #[trigger] v.with(key, value) is Object,
{
    assert forall|v: JsonView, key: Seq<char>, value: JsonView, other: Seq<char>|
        v is Object implies #[trigger] v.with(key, value).get(other) == if other == key {
        Some(value)
    } else {
        v.get(other)
    } by {
        set_members_are_found(v, key, value, other);
    }
}

proof fn lemma_request_keys()
    ensures
        "model"@ != "messages"@ && "model"@ != "temperature"@ && "model"@ != "max_tokens"@
            && "model"@ != "tools"@,
        "messages"@ != "temperature"@ && "messages"@ != "max_tokens"@ && "messages"@ != "tools"@,
        "temperature"@ != "max_tokens"@ && "temperature"@ != "tools"@ && "max_tokens"@ != "tools"@,
        "role"@ != "content"@ && "role"@ != "tool_calls"@ && "role"@ != "tool_call_id"@,
        "content"@ != "tool_calls"@ && "content"@ != "tool_call_id"@ && "tool_calls"@
            != "tool_call_id"@,
        "id"@ != "type"@ && "id"@ != "function"@ && "type"@ != "function"@,
        "name"@ != "arguments"@ && "name"@ != "description"@ && "name"@ != "parameters"@,
        "description"@ != "parameters"@,
{
    reveal_strlit("model");
    reveal_strlit("messages");
    reveal_strlit("temperature");
    reveal_strlit("max_tokens");
    reveal_strlit("tools");
    reveal_strlit("role");
    reveal_strlit("content");
    reveal_strlit("tool_calls");
    reveal_strlit("tool_call_id");
    reveal_strlit("id");
    reveal_strlit("type");
    reveal_strlit("function");
    reveal_strlit("name");
    reveal_strlit("arguments");
    reveal_strlit("description");
    reveal_strlit("parameters");
    assert("model"@.len() == 5 && "messages"@.len() == 8 && "temperature"@.len() == 11);
    assert("max_tokens"@.len() == 10 && "tools"@.len() == 5);
    assert("model"@[0] == 'm' && "tools"@[0] == 't');
    assert("role"@.len() == 4 && "content"@.len() == 7 && "tool_calls"@.len() == 10);
    assert("tool_call_id"@.len() == 12 && "id"@.len() == 2 && "type"@.len() == 4);
    assert("function"@.len() == 8 && "name"@.len() == 4 && "arguments"@.len() == 9);
    assert("description"@.len() == 11 && "parameters"@.len() == 10);
}

/// The items of an array; none where the value is no array.
pub open spec fn items_of(v: Option<JsonView>) -> Seq<JsonView> {
    match v {
        Some(JsonView::Array(items)) => items,
        _ => Seq::empty(),
    }
}

proof fn lemma_message_items(messages: Seq<Message>)
    ensures
        messages_view(messages) matches JsonView::Array(items) && items.len() == messages.len()
            && forall|i: int|
            0 <= i < messages.len() ==> #[trigger] items[i] == message_view(messages[i]),
    decreases messages.len(),
{
    if messages.len() > 0 {
        lemma_message_items(messages.drop_last());
    }
}

proof fn lemma_tool_items(tools: Seq<ToolDef>)
    ensures
        tools_view(tools) matches JsonView::Array(items) && items.len() == tools.len() && forall|
            i: int,
        |
            0 <= i < tools.len() ==> #[trigger] items[i] == tool_view(tools[i]),
    decreases tools.len(),
{
    if tools.len() > 0 {
        lemma_tool_items(tools.drop_last());
    }
}

proof fn lemma_call_items(calls: Seq<ToolCall>)
    ensures
        calls_view(calls) matches JsonView::Array(items) && items.len() == calls.len() && forall|
            i: int,
        |
            0 <= i < calls.len() ==> #[trigger] items[i] == call_view(calls[i]),
    decreases calls.len(),
{
    if calls.len() > 0 {
        lemma_call_items(calls.drop_last());
    }
}

/// A request that is sent names the model, the temperature and the limit, and holds
/// every message in its place: who says it, and what. What there is nothing for is left
/// out.
pub proof fn requests_say_what_is_asked(q: ChatRequest, i: int)
    ensures
        ({
            let v = request_view(q);
            let sent = items_of(v.get("messages"@));
            &&& v.text_at("model"@) == Some(q.model@)
            &&& q.temperature matches Some(t) ==> v.get("temperature"@) == Some(
                JsonView::Number(None, t.text@),
            )
            &&& q.temperature is None ==> v.get("temperature"@) is None
            &&& q.max_tokens matches Some(n) ==> v.number_at("max_tokens"@) == Some(n as u64)
            &&& q.max_tokens is None ==> v.get("max_tokens"@) is None
            &&& q.tools is None ==> v.get("tools"@) is None
            &&& q.tools matches Some(t) ==> items_of(v.get("tools"@)).len() == t@.len()
            &&& sent.len() == q.messages@.len()
            &&& 0 <= i < sent.len() ==> {
                let m = q.messages@[i];
                &&& sent[i].text_at("role"@) == Some(m.role@)
                &&& sent[i].text_at("content"@) == opt_view(m.content)
                &&& sent[i].text_at("tool_call_id"@) == opt_view(m.tool_call_id)
                &&& m.tool_calls is None ==> sent[i].get("tool_calls"@) is None
                &&& m.tool_calls matches Some(c) ==> items_of(sent[i].get("tool_calls"@)).len()
                    == c@.len()
            }
        }),
{
    lemma_members();
    lemma_request_keys();
    lemma_message_items(q.messages@);
    match q.tools {
        Some(t) => {
            lemma_tool_items(t@);
        },
        None => {},
    }
    let v = request_view(q);
    assert(v.get("messages"@) == Some(messages_view(q.messages@)));
    if 0 <= i < q.messages@.len() {
        let m = q.messages@[i];
        match m.tool_calls {
            Some(c) => {
                lemma_call_items(c@);
            },
            None => {},
        }
        let r = message_view(m);
        assert(r.get("role"@) == Some(JsonView::Text(m.role@)));
    }
}

/// A tool that the model is told of has its name, its description and its parameters;
/// a call that the model asked for has its id, its name and its arguments.
pub proof fn tools_and_calls_are_told_of(tools: Seq<ToolDef>, calls: Seq<ToolCall>, i: int)
    ensures
        0 <= i < tools.len() ==> items_of(Some(tools_view(tools))).len() == tools.len() && {
            let t = items_of(Some(tools_view(tools)))[i];
            &&& t.text_at("type"@) == Some(tools[i].tool_type@)
            &&& t.get("function"@) matches Some(f) && {
                &&& f.text_at("name"@) == Some(tools[i].function.name@)
                &&& f.text_at("description"@) == opt_view(tools[i].function.description)
                &&& f.get("parameters"@) == Some(tools[i].function.parameters@)
            }
        },
        0 <= i < calls.len() ==> items_of(Some(calls_view(calls))).len() == calls.len() && {
            let c = items_of(Some(calls_view(calls)))[i];
            &&& c.text_at("id"@) == Some(calls[i].id@)
            &&& c.text_at("type"@) == Some(calls[i].call_type@)
            &&& c.get("function"@) matches Some(f) && {
                &&& f.text_at("name"@) == Some(calls[i].function.name@)
                &&& f.text_at("arguments"@) == Some(calls[i].function.arguments@)
            }
        },
{
    lemma_members();
    lemma_request_keys();
    lemma_tool_items(tools);
    lemma_call_items(calls);
    if 0 <= i < tools.len() {
        let f = with_some_text(
            no_members().with("name"@, JsonView::Text(tools[i].function.name@)),
            "description"@,
            opt_view(tools[i].function.description),
        );
        assert(f.get("name"@) == Some(JsonView::Text(tools[i].function.name@)));
        assert(f.text_at("description"@) == opt_view(tools[i].function.description));
    }
    if 0 <= i < calls.len() {
        let f = no_members().with("name"@, JsonView::Text(calls[i].function.name@)).with(
            "arguments"@,
            JsonView::Text(calls[i].function.arguments@),
        );
        assert(f.get("name"@) == Some(JsonView::Text(calls[i].function.name@)));
    }
}

/// A chat is sent as two messages, the system prompt and then the user prompt, to the
/// model of the client, at its temperature, with the limit, and without tools.
pub proof fn chats_are_sent_as_two_messages(
    ai: AiClient,
    q: ChatRequest,
    system: Seq<char>,
    user: Seq<char>,
    max_tokens: u32,
)
    requires
        ai.is_chat(q, system, user, max_tokens),
    ensures
        ({
            let v = request_view(q);
            let sent = items_of(v.get("messages"@));
            &&& sent.len() == 2
            &&& sent[0].text_at("role"@) == Some("system"@)
            &&& sent[0].text_at("content"@) == Some(system)
            &&& sent[1].text_at("role"@) == Some("user"@)
            &&& sent[1].text_at("content"@) == Some(user)
            &&& v.text_at("model"@) == Some(ai.model@)
            &&& v.get("temperature"@) == Some(JsonView::Number(None, ai.temperature.text@))
            &&& v.number_at("max_tokens"@) == Some(max_tokens as u64)
            &&& v.get("tools"@) is None
        }),
{
    requests_say_what_is_asked(q, 0);
    requests_say_what_is_asked(q, 1);
}

/// The first choice of a reply is what counts: its text, why it ended and what it calls.
/// The other choices make no difference.
pub proof fn the_first_choice_counts(response: ChatResponse, out: ChatOutput)
    requires
        is_output(response, out),
    ensures
        out.usage == response.usage,
        response.choices@.len() == 0 ==> out.content@.len() == 0 && out.finish_reason is None
            && out.tool_calls@.len() == 0,
        response.choices@.len() > 0 ==> {
            let first = response.choices@[0];
            &&& first.message.content matches Some(c) ==> out.content@ == c@
            &&& first.message.content is None ==> out.content@.len() == 0
            &&& out.finish_reason == first.finish_reason
            &&& first.message.tool_calls matches Some(c) ==> out.tool_calls@ == c@
            &&& first.message.tool_calls is None ==> out.tool_calls@.len() == 0
        },
{
    reveal_strlit("");
}

/// An error message holds as much of a body as there is room for: a body within the
/// limit as a whole, any other up to the last character within the limit, and then that
/// it was cut.
pub proof fn errors_hold_what_there_is_room_for(body: Seq<char>)
    ensures
        utf8_length(trim(body)) <= MAX_BODY_SNIPPET ==> snippet(body) == trim(body),
        utf8_length(trim(body)) > MAX_BODY_SNIPPET ==> exists|n: int|
            {
                &&& 0 <= n < trim(body).len()
                &&& snippet(body) == #[trigger] trim(body).subrange(0, n) + "…[truncated]"@
                &&& utf8_length(trim(body).subrange(0, n)) <= MAX_BODY_SNIPPET
                &&& utf8_length(trim(body).subrange(0, n + 1)) > MAX_BODY_SNIPPET
            },
{
    let t = trim(body);
    let n = fitting(t, MAX_BODY_SNIPPET as int);
    lemma_fitting(t, MAX_BODY_SNIPPET as int);
    lemma_fitting_most(t, MAX_BODY_SNIPPET as int);
    if n == t.len() {
        assert(t.subrange(0, n) =~= t);
    } else {
        lemma_utf8_grows(t, n + 1);
        assert(snippet(body) == t.subrange(0, n) + "…[truncated]"@);
    }
}

/// The words for an answer that is no success tell its status and end with what there
/// is room for of its body.
pub proof fn errors_tell_status_and_body(status: u16, body: Seq<char>)
    requires
        100 <= status <= 999,
    ensures
        ends_with(failure_words(status, body), snippet(body)),
        status == 404 ==> starts_with(failure_words(status, body), "AI API endpoint not found (404)"@),
        status == 429 ==> starts_with(
            failure_words(status, body),
            "AI API rate limit exceeded (429)"@,
        ),
        status != 404 && status != 429 ==> contains(
            failure_words(status, body),
            status_words(status),
        ),
{
    let words = failure_words(status, body);
    let s = snippet(body);
    assert(words.subrange(words.len() - s.len(), words.len() as int) =~= s);
    if status == 404 {
        reveal_strlit("AI API endpoint not found (404): ");
        reveal_strlit("AI API endpoint not found (404)");
        let front = "AI API endpoint not found (404)"@;
        assert(words.subrange(0, front.len() as int) =~= front);
    } else if status == 429 {
        reveal_strlit("AI API rate limit exceeded (429): ");
        reveal_strlit("AI API rate limit exceeded (429)");
        let front = "AI API rate limit exceeded (429)"@;
        assert(words.subrange(0, front.len() as int) =~= front);
    } else {
        let front = if status == 401 || status == 403 {
            "AI API authentication failed ("@
        } else if 500 <= status <= 599 {
            "AI API server error ("@
        } else {
            "AI API error ("@
        };
        parts_are_contained(front, status_words(status), "): "@ + s);
        assert(front + status_words(status) + ("): "@ + s) =~= words);
    }
}

proof fn lemma_utf8_grows(s: Seq<char>, n: int)
    requires
        0 <= n <= s.len(),
    ensures
        utf8_length(s.subrange(0, n)) <= utf8_length(s),
    decreases s.len(),
{
    if n < s.len() {
        lemma_utf8_grows(s.drop_last(), n);
        assert(s.drop_last().subrange(0, n) =~= s.subrange(0, n));
    } else {
        assert(s.subrange(0, n) =~= s);
    }
}

proof fn lemma_fitting_most(s: Seq<char>, limit: int)
    requires
        0 <= limit,
    ensures
        fitting(s, limit) < s.len() ==> utf8_length(s.subrange(0, fitting(s, limit) + 1)) > limit,
    decreases s.len(),
{
    if s.len() > 0 {
        if utf8_width(s[0]) > limit {
            lemma_utf8_front(s.subrange(0, 1));
        } else {
            let tail = s.subrange(1, s.len() as int);
            lemma_fitting(tail, limit - utf8_width(s[0]));
            lemma_fitting_most(tail, limit - utf8_width(s[0]));
            let n = fitting(s, limit);
            if n < s.len() {
                lemma_utf8_front(s.subrange(0, n + 1));
                assert(s.subrange(0, n + 1).subrange(1, n + 1) =~= tail.subrange(0, n));
            }
        }
    }
}

} // verus!
