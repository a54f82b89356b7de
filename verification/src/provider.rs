//! Which provider a request goes to, with which model and which key; the call
//! that is made, and what its answer means.
use vstd::prelude::*;
use crate::config::{Config, ModelAlias, OpenAICompatConfig, ProviderView, ProvidersConfig};
use crate::json::{
    copy_json, field, json_of_text, json_str, json_strs, json_text, json_to_text, json_uint,
    json_views, lemma_array_view, lemma_object_view, member, member_views, object1, object2,
    opt_json, parse_json,
    put_member, with_member, Json, JsonView,
};
use crate::messages::{chat_views, copy_messages, ChatMessage, ChatView};
use crate::reply::{error_reply, error_view, Reply, ReplyView};
use crate::text::{
    after_prefix, blank, contains, has_text, is_blank, opt_str, opt_text, push_text, same, starts,
    starts_with, strip_prefix, strs, text_or, to_uppercase, trim_back, trim_back_char,
    trim_end_char, trim_front, uppered,
};
use crate::toolcalls::{completion_text, extract_completion_text};

verus! {

broadcast use vstd::string::group_string_axioms;

// ---------------------------------------------------------------------------
// Providers
// ---------------------------------------------------------------------------

/// Where the first entry under a name stands.
pub open spec fn entry_at<T>(v: Seq<(String, T)>, name: Seq<char>) -> Option<int>
    decreases v.len(),
{
    if v.len() == 0 {
        None
    } else if v[0].0@ == name {
        Some(0)
    } else {
        match entry_at(v.skip(1), name) {
            Some(i) => Some(i + 1),
            None => None,
        }
    }
}

/// The first entry under a name.
pub open spec fn entry<T>(v: Seq<(String, T)>, name: Seq<char>) -> Option<T> {
    match entry_at(v, name) {
        Some(i) => Some(v[i].1),
        None => None,
    }
}

/// The first entry under a name.
pub fn find_entry<'a, T>(v: &'a Vec<(String, T)>, name: &str) -> (r: Option<&'a T>)
    ensures
        match r {
            Some(e) => entry(v@, name@) == Some(*e),
            None => entry(v@, name@) is None,
        },
{
    let mut i: usize = 0;
    assert(v@.skip(0) =~= v@);
    while i < v.len()
        invariant
            i <= v@.len(),
            entry_at(v@, name@) == (match entry_at(v@.skip(i as int), name@) {
                Some(k) => Some(k + i),
                None => None::<int>,
            }),
        decreases v@.len() - i,
    {
        assert(v@.skip(i as int)[0] == v@[i as int]);
        assert(v@.skip(i as int).skip(1) =~= v@.skip(i + 1));
        if same(v[i].0.as_str(), name) {
            return Some(&v[i].1);
        }
        i = i + 1;
    }
    None
}

/// The provider that a name stands for; without a name, the default one.
pub open spec fn provider_for(providers: ProvidersConfig, name: Option<Seq<char>>) -> Result<
    OpenAICompatConfig,
    ReplyView,
> {
    match name {
        Some(n) => if n == "default"@ {
            match providers.openai_compat {
                Some(p) => Ok(p),
                None => Err(error_view(400, "default provider not configured"@)),
            }
        } else {
            match entry(providers.openai_compat_profiles@, n) {
                Some(p) => Ok(p),
                None => Err(error_view(400, "provider '"@ + n + "' not found"@)),
            }
        },
        None => match providers.openai_compat {
            Some(p) => Ok(p),
            None => Err(error_view(400, "openai_compat provider not configured"@)),
        },
    }
}

/// The provider that a name stands for; without a name, the default one.
pub fn resolve_provider<'a>(cfg: &'a Config, provider_name: Option<&str>) -> (r: Result<
    &'a OpenAICompatConfig,
    Reply,
>)
    ensures
        match r {
            Ok(p) => provider_for(cfg.providers, opt_str(provider_name)) == Ok::<
                OpenAICompatConfig,
                ReplyView,
            >(*p),
            Err(e) => provider_for(cfg.providers, opt_str(provider_name)) == Err::<
                OpenAICompatConfig,
                ReplyView,
            >(e@),
        },
{
    match provider_name {
        Some(name) => {
            if same(name, "default") {
                match &cfg.providers.openai_compat {
                    Some(p) => Ok(p),
                    None => Err(error_reply(400, "default provider not configured")),
                }
            } else {
                match find_entry(&cfg.providers.openai_compat_profiles, name) {
                    Some(p) => Ok(p),
                    None => {
                        let mut text = "provider '".to_string();
                        push_text(&mut text, name);
                        push_text(&mut text, "' not found");
                        Err(error_reply(400, text.as_str()))
                    },
                }
            }
        },
        None => match &cfg.providers.openai_compat {
            Some(p) => Ok(p),
            None => Err(error_reply(400, "openai_compat provider not configured")),
        },
    }
}

// ---------------------------------------------------------------------------
// Keys
// ---------------------------------------------------------------------------

/// A URL without its scheme.
pub open spec fn without_scheme(url: Seq<char>) -> Seq<char> {
    text_or(after_prefix(url, "http://"@), text_or(after_prefix(url, "https://"@), url))
}

/// What follows the scheme names this host.
pub open spec fn at_host(rest: Seq<char>, host: Seq<char>) -> bool {
    &&& starts(rest, host)
    &&& rest.len() == host.len() || rest[host.len() as int] == ':' || rest[host.len() as int]
        == '/'
}

/// A provider on this machine.
pub open spec fn local_url(url: Seq<char>) -> bool {
    let rest = without_scheme(url);
    at_host(rest, "localhost"@) || at_host(rest, "127.0.0.1"@) || at_host(rest, "[::1]"@)
}

fn names_host(rest: &str, host: &str) -> (r: bool)
    ensures
        r == at_host(rest@, host@),
{
    match strip_prefix(rest, host) {
        Some(tail) => {
            let ghost t = tail@;
            assert(t == rest@.skip(host@.len() as int));
            proof {
                reveal_strlit(":");
                reveal_strlit("/");
                assert(":"@ =~= seq![':']);
                assert("/"@ =~= seq!['/']);
                if t.len() > 0 {
                    assert(t.take(1) =~= seq![t[0]]);
                    assert(seq![t[0]][0] == t[0]);
                    assert(seq![':'][0] == ':');
                    assert(seq!['/'][0] == '/');
                }
            }
            tail.as_str().is_empty() || starts_with(tail.as_str(), ":") || starts_with(
                tail.as_str(),
                "/",
            )
        },
        None => false,
    }
}

/// Whether a provider is on this machine.
pub fn is_local(url: &str) -> (r: bool)
    ensures
        r == local_url(url@),
{
    let rest = match strip_prefix(url, "http://") {
        Some(t) => t,
        None => match strip_prefix(url, "https://") {
            Some(t) => t,
            None => url.to_string(),
        },
    };
    names_host(rest.as_str(), "localhost") || names_host(rest.as_str(), "127.0.0.1") || names_host(
        rest.as_str(),
        "[::1]",
    )
}

/// A variable of the environment, where it holds more than white space.
pub open spec fn variable(env: Seq<(String, String)>, name: Seq<char>) -> Option<Seq<char>> {
    match entry(env, name) {
        Some(v) => if blank(v@) {
            None
        } else {
            Some(v@)
        },
        None => None,
    }
}

fn read_variable(env: &Vec<(String, String)>, name: &str) -> (r: Option<String>)
    ensures
        opt_text(r) == variable(env@, name@),
{
    match find_entry(env, name) {
        Some(v) => if is_blank(v.as_str()) {
            None
        } else {
            Some(v.clone())
        },
        None => None,
    }
}

/// The key for a provider: its own, else the one in the variable that it names,
/// else the one in the variable named after it. A provider on this machine needs
/// none.
pub open spec fn api_key_for(
    provider: ProviderView,
    name: Option<Seq<char>>,
    env: Seq<(String, String)>,
) -> Result<Option<Seq<char>>, ReplyView> {
    let named = match provider.api_key_env {
        Some(v) => variable(env, v),
        None => None,
    };
    let fallback = match name {
        Some(n) => variable(env, uppered(n) + "_API_KEY"@),
        None => None,
    };
    if !blank(provider.api_key) {
        Ok(Some(provider.api_key))
    } else if named is Some {
        Ok(named)
    } else if fallback is Some {
        Ok(fallback)
    } else if local_url(provider.base_url) {
        Ok(None)
    } else {
        Err(error_view(400, "api key not configured"@))
    }
}

/// The key for a provider.
pub fn resolve_api_key(
    provider: &OpenAICompatConfig,
    provider_name: Option<&str>,
    env: &Vec<(String, String)>,
) -> (r: Result<Option<String>, Reply>)
    ensures
        match r {
            Ok(key) => api_key_for(provider@, opt_str(provider_name), env@) == Ok::<
                Option<Seq<char>>,
                ReplyView,
            >(opt_text(key)),
            Err(e) => api_key_for(provider@, opt_str(provider_name), env@) == Err::<
                Option<Seq<char>>,
                ReplyView,
            >(e@),
        },
{
    if !is_blank(provider.api_key.as_str()) {
        return Ok(Some(provider.api_key.clone()));
    }
    if let Some(name) = &provider.api_key_env {
        if let Some(value) = read_variable(env, name.as_str()) {
            return Ok(Some(value));
        }
    }
    if let Some(name) = provider_name {
        let mut fallback = to_uppercase(name);
        push_text(&mut fallback, "_API_KEY");
        if let Some(value) = read_variable(env, fallback.as_str()) {
            return Ok(Some(value));
        }
    }
    if is_local(provider.base_url.as_str()) {
        return Ok(None);
    }
    Err(error_reply(400, "api key not configured"))
}

// ---------------------------------------------------------------------------
// The call
// ---------------------------------------------------------------------------

/// A request for a completion. The two fractions are given as JSON numbers.
#[derive(Debug)]
pub struct CompletionRequest {
    pub prompt: Option<String>,
    pub messages: Option<Vec<ChatMessage>>,
    pub model: Option<String>,
    pub provider: Option<String>,
    pub max_tokens: Option<u32>,
    pub temperature: Option<Json>,
    pub top_p: Option<Json>,
    pub stop: Option<Vec<String>>,
}

/// What a `CompletionRequest` holds.
pub struct RequestView {
    pub prompt: Option<Seq<char>>,
    pub messages: Option<Seq<ChatView>>,
    pub model: Option<Seq<char>>,
    pub provider: Option<Seq<char>>,
    pub max_tokens: Option<u32>,
    pub temperature: Option<JsonView>,
    pub top_p: Option<JsonView>,
    pub stop: Option<Seq<Seq<char>>>,
}

impl View for CompletionRequest {
    type V = RequestView;

    open spec fn view(&self) -> RequestView {
        RequestView {
            prompt: opt_text(self.prompt),
            messages: match self.messages {
                Some(m) => Some(chat_views(m@)),
                None => None,
            },
            model: opt_text(self.model),
            provider: opt_text(self.provider),
            max_tokens: self.max_tokens,
            temperature: opt_json(self.temperature),
            top_p: opt_json(self.top_p),
            stop: match self.stop {
                Some(s) => Some(strs(s@)),
                None => None,
            },
        }
    }
}

/// A call over HTTP: where to, with which `Authorization`, and with which body.
#[derive(Debug, PartialEq, Eq)]
pub struct HttpCall {
    pub url: String,
    pub authorization: Option<String>,
    pub body: String,
}

/// What an `HttpCall` holds.
pub struct CallView {
    pub url: Seq<char>,
    pub authorization: Option<Seq<char>>,
    pub body: Seq<char>,
}

impl View for HttpCall {
    type V = CallView;

    open spec fn view(&self) -> CallView {
        CallView {
            url: self.url@,
            authorization: opt_text(self.authorization),
            body: self.body@,
        }
    }
}

/// Where a provider takes completions: its path where that is a URL, else the
/// path below its base URL with one slash between them.
pub open spec fn completions_url(p: ProviderView) -> Seq<char> {
    let path = p.completions_path;
    if starts(path, "http://"@) || starts(path, "https://"@) {
        path
    } else {
        trim_back_char(p.base_url, '/') + (if starts(path, "/"@) {
            path
        } else {
            "/"@ + path
        })
    }
}

/// Where a provider takes completions.
pub fn completion_url(provider: &OpenAICompatConfig) -> (r: String)
    ensures
        r@ == completions_url(provider@),
{
    let path = provider.completions_path.as_str();
    if starts_with(path, "http://") || starts_with(path, "https://") {
        return path.to_string();
    }
    let mut url = trim_end_char(provider.base_url.as_str(), '/');
    if starts_with(path, "/") {
        push_text(&mut url, path);
    } else {
        push_text(&mut url, "/");
        push_text(&mut url, path);
        proof {
            let base = trim_back_char(provider.base_url@, '/');
            assert((base + "/"@) + path@ =~= base + ("/"@ + path@));
        }
    }
    url
}

/// A message as a value.
pub open spec fn message_json(m: ChatView) -> JsonView {
    JsonView::Object(
        seq![("role"@, JsonView::Str(m.role)), ("content"@, JsonView::Str(m.content))],
    )
}

/// Messages as a value.
pub open spec fn messages_json(ms: Seq<ChatView>) -> JsonView {
    JsonView::Array(ms.map_values(|m: ChatView| message_json(m)))
}

/// Messages as a value.
pub fn json_messages(messages: &Vec<ChatMessage>) -> (r: Json)
    ensures
        r@ == messages_json(chat_views(messages@)),
{
    let mut out: Vec<Json> = Vec::new();
    let mut i: usize = 0;
    while i < messages.len()
        invariant
            i <= messages@.len(),
            out@.len() == i,
            forall|k: int| 0 <= k < i ==> (#[trigger] out@[k])@ == message_json(messages@[k]@),
        decreases messages@.len() - i,
    {
        let m = object2(
            "role",
            json_str(messages[i].role.as_str()),
            "content",
            json_str(messages[i].content.as_str()),
        );
        out.push(m);
        i = i + 1;
    }
    proof {
        lemma_array_view(out);
        assert(json_views(out@) =~= chat_views(messages@).map_values(
            |m: ChatView| message_json(m),
        ));
    }
    Json::Array(out)
}

/// What a request asks, by the kind of path: messages for a chat, else a prompt.
pub open spec fn question(path: Seq<char>, req: RequestView) -> Result<
    (Seq<char>, JsonView),
    ReplyView,
> {
    if has_text(path, "chat/completions"@) {
        match req.messages {
            Some(ms) => Ok(("messages"@, messages_json(ms))),
            None => match req.prompt {
                Some(p) => if blank(p) {
                    Err(error_view(400, "prompt or messages required"@))
                } else {
                    Ok(
                        (
                            "messages"@,
                            messages_json(seq![ChatView { role: "user"@, content: p }]),
                        ),
                    )
                },
                None => Err(error_view(400, "prompt or messages required"@)),
            },
        }
    } else {
        match req.prompt {
            Some(p) => if blank(p) {
                Err(error_view(400, "prompt is required"@))
            } else {
                Ok(("prompt"@, JsonView::Str(p)))
            },
            None => Err(error_view(400, "prompt is required"@)),
        }
    }
}

/// The body of a call for a completion.
pub open spec fn completion_json(
    model: Seq<char>,
    asked: (Seq<char>, JsonView),
    req: RequestView,
) -> JsonView {
    let s0 = seq![("model"@, JsonView::Str(model)), asked];
    let s1 = with_member(
        s0,
        "max_tokens"@,
        match req.max_tokens {
            Some(n) => Some(JsonView::Unsigned(n as u64)),
            None => None,
        },
    );
    let s2 = with_member(s1, "temperature"@, req.temperature);
    let s3 = with_member(s2, "top_p"@, req.top_p);
    let s4 = with_member(
        s3,
        "stop"@,
        match req.stop {
            Some(s) => Some(JsonView::Array(s.map_values(|t: Seq<char>| JsonView::Str(t)))),
            None => None,
        },
    );
    JsonView::Object(s4)
}

/// A result by its views.
pub open spec fn json_result(r: Result<Json, Reply>) -> Result<JsonView, ReplyView> {
    match r {
        Ok(v) => Ok(v@),
        Err(e) => Err(e@),
    }
}

/// The body of a call, or what a request lacks.
pub open spec fn completion_body_for(
    path: Seq<char>,
    model: Seq<char>,
    req: RequestView,
) -> Result<JsonView, ReplyView> {
    match question(path, req) {
        Ok(asked) => Ok(completion_json(model, asked, req)),
        Err(e) => Err(e),
    }
}

/// The body of a call, or what a request lacks.
pub fn completion_body(path: &str, model: &str, req: &CompletionRequest) -> (r: Result<Json, Reply>)
    ensures
        json_result(r) == completion_body_for(path@, model@, req@),
{
    let mut members: Vec<(String, Json)> = Vec::new();
    members.push(("model".to_string(), json_str(model)));
    let asked: (String, Json) = if contains(path, "chat/completions") {
        match &req.messages {
            Some(messages) => ("messages".to_string(), json_messages(messages)),
            None => match &req.prompt {
                Some(prompt) => {
                    if is_blank(prompt.as_str()) {
                        return Err(error_reply(400, "prompt or messages required"));
                    }
                    let mut one: Vec<ChatMessage> = Vec::new();
                    one.push(ChatMessage::new("user", prompt.as_str()));
                    assert(chat_views(one@) =~= seq![
                        ChatView { role: "user"@, content: prompt@ },
                    ]);
                    ("messages".to_string(), json_messages(&one))
                },
                None => {
                    return Err(error_reply(400, "prompt or messages required"));
                },
            },
        }
    } else {
        match &req.prompt {
            Some(prompt) => {
                if is_blank(prompt.as_str()) {
                    return Err(error_reply(400, "prompt is required"));
                }
                ("prompt".to_string(), json_str(prompt.as_str()))
            },
            None => {
                return Err(error_reply(400, "prompt is required"));
            },
        }
    };
    let ghost asked_view = (asked.0@, asked.1@);
    assert(question(path@, req@) == Ok::<(Seq<char>, JsonView), ReplyView>(asked_view));
    members.push(asked);
    assert(member_views(members@) =~= seq![("model"@, JsonView::Str(model@)), asked_view]);
    let tokens = match req.max_tokens {
        Some(n) => Some(json_uint(n as u64)),
        None => None,
    };
    put_member(&mut members, "max_tokens", tokens);
    put_member(&mut members, "temperature", copy_json(&req.temperature));
    put_member(&mut members, "top_p", copy_json(&req.top_p));
    let stop = match &req.stop {
        Some(s) => Some(json_strs(s)),
        None => None,
    };
    put_member(&mut members, "stop", stop);
    proof {
        lemma_object_view(members);
    }
    Ok(Json::Object(members))
}

/// The call for a completion.
pub open spec fn http_call(
    provider: ProviderView,
    key: Option<Seq<char>>,
    body: JsonView,
) -> CallView {
    CallView {
        url: completions_url(provider),
        authorization: match key {
            Some(k) => Some("Bearer "@ + k),
            None => None,
        },
        body: json_text(body),
    }
}

/// A call, or an answer in its place, by its views.
pub open spec fn call_result(r: Result<HttpCall, Reply>) -> Result<CallView, ReplyView> {
    match r {
        Ok(c) => Ok(c@),
        Err(e) => Err(e@),
    }
}

/// The call for a completion, or what the request lacks.
pub open spec fn completion_call(
    provider: ProviderView,
    key: Option<Seq<char>>,
    model: Seq<char>,
    req: RequestView,
) -> Result<CallView, ReplyView> {
    match completion_body_for(provider.completions_path, model, req) {
        Ok(body) => Ok(http_call(provider, key, body)),
        Err(e) => Err(e),
    }
}

/// The call for a completion, or what the request lacks.
pub fn call_openai_compat_completions(
    provider: &OpenAICompatConfig,
    api_key: Option<&str>,
    model: &str,
    req: &CompletionRequest,
) -> (r: Result<HttpCall, Reply>)
    ensures
        call_result(r) == completion_call(provider@, opt_str(api_key), model@, req@),
{
    let body = match completion_body(provider.completions_path.as_str(), model, req) {
        Ok(body) => body,
        Err(e) => {
            return Err(e);
        },
    };
    let authorization = match api_key {
        Some(key) => {
            let mut text = "Bearer ".to_string();
            push_text(&mut text, key);
            Some(text)
        },
        None => None,
    };
    Ok(HttpCall { url: completion_url(provider), authorization, body: json_to_text(&body) })
}

// ---------------------------------------------------------------------------
// The answer
// ---------------------------------------------------------------------------

/// What came of a call: an answer, an answer with an error status, or none.
#[derive(Debug, PartialEq, Eq)]
pub enum HttpOutcome {
    Answered(String),
    Refused(u16, String),
    Failed(String),
}

/// A document read as JSON; one that is none is wrapped up as it is.
pub open spec fn json_or_raw(parsed: Option<JsonView>, text: Seq<char>) -> JsonView {
    match parsed {
        Some(v) => v,
        None => JsonView::Object(seq![("raw"@, JsonView::Str(text))]),
    }
}

/// What came of a call, with the document of its answer read.
pub open spec fn outcome_with(outcome: HttpOutcome, parsed: Option<JsonView>) -> Result<
    JsonView,
    ReplyView,
> {
    match outcome {
        HttpOutcome::Answered(text) => Ok(json_or_raw(parsed, text@)),
        HttpOutcome::Refused(status, text) => Err(
            ReplyView { status, body: json_or_raw(parsed, text@) },
        ),
        HttpOutcome::Failed(message) => Err(error_view(502, message@)),
    }
}

/// The text that came with an answer.
pub open spec fn outcome_text(outcome: HttpOutcome) -> Seq<char> {
    match outcome {
        HttpOutcome::Answered(text) => text@,
        HttpOutcome::Refused(_, text) => text@,
        HttpOutcome::Failed(message) => message@,
    }
}

/// What a call came to, once the document of its answer was read.
pub fn completion_outcome(outcome: HttpOutcome, parsed: Option<Json>) -> (r: Result<Json, Reply>)
    ensures
        json_result(r) == outcome_with(outcome, opt_json(parsed)),
{
    match outcome {
        HttpOutcome::Answered(text) => match parsed {
            Some(v) => Ok(v),
            None => Ok(object1("raw", Json::Str(text))),
        },
        HttpOutcome::Refused(status, text) => {
            let body = match parsed {
                Some(v) => v,
                None => object1("raw", Json::Str(text)),
            };
            Err(Reply { status, body })
        },
        HttpOutcome::Failed(message) => Err(error_reply(502, message.as_str())),
    }
}

/// What a call came to.
pub fn completion_response(outcome: HttpOutcome) -> (r: Result<Json, Reply>)
    ensures
        json_result(r) == outcome_with(outcome, json_of_text(outcome_text(outcome))),
{
    let parsed = match &outcome {
        HttpOutcome::Answered(text) => parse_json(text.as_str()),
        HttpOutcome::Refused(_, text) => parse_json(text.as_str()),
        HttpOutcome::Failed(_) => None,
    };
    completion_outcome(outcome, parsed)
}

/// A status that can be sent on; one that cannot becomes 502.
pub open spec fn sendable(status: u16) -> u16 {
    if 100 <= status <= 999 {
        status
    } else {
        502
    }
}

/// The answer to a request for a completion.
pub fn completions_reply(result: Result<Json, Reply>) -> (r: Reply)
    ensures
        match json_result(result) {
            Ok(v) => r@ == (ReplyView { status: 200, body: v }),
            Err(e) => r@ == (ReplyView { status: sendable(e.status), body: e.body }),
        },
{
    match result {
        Ok(body) => Reply { status: 200, body },
        Err(e) => {
            let status: u16 = if 100 <= e.status && e.status <= 999 {
                e.status
            } else {
                502
            };
            Reply { status, body: e.body }
        },
    }
}

/// The text that a model returned, or what went wrong.
pub open spec fn llm_answer(result: Result<JsonView, ReplyView>) -> Result<Seq<char>, Seq<char>> {
    match result {
        Ok(v) => match completion_text(v) {
            Some(t) => Ok(t),
            None => Err("no completion text returned"@),
        },
        Err(e) => Err(json_text(e.body)),
    }
}

/// A text, or what went wrong, by its views.
pub open spec fn text_result(r: Result<String, String>) -> Result<Seq<char>, Seq<char>> {
    match r {
        Ok(t) => Ok(t@),
        Err(e) => Err(e@),
    }
}

/// The text that a model returned, or what went wrong.
pub fn llm_text(result: Result<Json, Reply>) -> (r: Result<String, String>)
    ensures
        text_result(r) == llm_answer(json_result(result)),
{
    match result {
        Ok(v) => match extract_completion_text(&v) {
            Some(t) => Ok(t),
            None => Err("no completion text returned".to_string()),
        },
        Err(e) => Err(json_to_text(&e.body)),
    }
}

// ---------------------------------------------------------------------------
// Requests
// ---------------------------------------------------------------------------

/// The provider and the model that a request names: a short name for a model
/// stands for both, where the request names no provider.
pub open spec fn addressed(providers: ProvidersConfig, req: RequestView) -> (
    Option<Seq<char>>,
    Seq<char>,
) {
    match req.model {
        Some(m) => match (req.provider, entry(providers.model_aliases@, m)) {
            (None, Some(alias)) => (Some(alias.provider@), alias.model@),
            _ => (req.provider, m),
        },
        None => (req.provider, Seq::empty()),
    }
}

/// The call that answers a request for a completion, or the answer in its
/// place.
pub open spec fn completions_for(
    providers: ProvidersConfig,
    req: RequestView,
    env: Seq<(String, String)>,
) -> Result<CallView, ReplyView> {
    let (name, model) = addressed(providers, req);
    match provider_for(providers, name) {
        Err(e) => Err(e),
        Ok(p) => {
            let chosen = if blank(model) {
                p.model@
            } else {
                model
            };
            if blank(p.base_url@) {
                Err(error_view(400, "provider base_url is required"@))
            } else if blank(chosen) {
                Err(error_view(400, "model is required"@))
            } else {
                match api_key_for(p@, name, env) {
                    Err(e) => Err(e),
                    Ok(key) => completion_call(p@, key, chosen, req),
                }
            }
        },
    }
}

fn key_text(key: &Option<String>) -> (r: Option<&str>)
    ensures
        opt_str(r) == opt_text(*key),
{
    match key {
        Some(k) => Some(k.as_str()),
        None => None,
    }
}

/// The call that answers a request for a completion, or the answer in its
/// place.
pub fn completions(cfg: &Config, req: &CompletionRequest, env: &Vec<(String, String)>) -> (r: Result<
    HttpCall,
    Reply,
>)
    ensures
        call_result(r) == completions_for(cfg.providers, req@, env@),
{
    let mut name: Option<String> = match &req.provider {
        Some(p) => Some(p.clone()),
        None => None,
    };
    let mut model: String = match &req.model {
        Some(m) => m.clone(),
        None => String::new(),
    };
    if req.provider.is_none() {
        if let Some(m) = &req.model {
            if let Some(alias) = find_entry(&cfg.providers.model_aliases, m.as_str()) {
                name = Some(alias.provider.clone());
                model = alias.model.clone();
            }
        }
    }
    assert((opt_text(name), model@).0 == addressed(cfg.providers, req@).0);
    assert(model@ =~= addressed(cfg.providers, req@).1);
    let provider = match resolve_provider(cfg, key_text(&name)) {
        Ok(p) => p,
        Err(e) => {
            return Err(e);
        },
    };
    if is_blank(provider.base_url.as_str()) {
        return Err(error_reply(400, "provider base_url is required"));
    }
    if is_blank(model.as_str()) {
        model = provider.model.clone();
    }
    if is_blank(model.as_str()) {
        return Err(error_reply(400, "model is required"));
    }
    match resolve_api_key(provider, key_text(&name), env) {
        Ok(key) => call_openai_compat_completions(provider, key_text(&key), model.as_str(), req),
        Err(e) => Err(e),
    }
}

/// The request that a conversation is sent with.
pub open spec fn chat_request(
    name: Option<Seq<char>>,
    model: Seq<char>,
    messages: Seq<ChatView>,
) -> RequestView {
    RequestView {
        prompt: None,
        messages: Some(messages),
        model: Some(model),
        provider: name,
        max_tokens: None,
        temperature: None,
        top_p: None,
        stop: None,
    }
}

/// The call that sends a conversation to a model, or what stands in its way.
pub open spec fn llm_call(
    providers: ProvidersConfig,
    name: Option<Seq<char>>,
    model: Option<Seq<char>>,
    messages: Seq<ChatView>,
    env: Seq<(String, String)>,
) -> Result<CallView, Seq<char>> {
    match provider_for(providers, name) {
        Err(_) => Err("provider not configured"@),
        Ok(p) => {
            let chosen = text_or(model, p.model@);
            if blank(p.base_url@) {
                Err("provider base_url is required"@)
            } else if blank(chosen) {
                Err("model is required"@)
            } else {
                match api_key_for(p@, name, env) {
                    Err(_) => Err("api key not configured"@),
                    Ok(key) => match completion_call(
                        p@,
                        key,
                        chosen,
                        chat_request(name, chosen, messages),
                    ) {
                        Ok(call) => Ok(call),
                        Err(e) => Err(json_text(e.body)),
                    },
                }
            }
        },
    }
}

/// A call, or what stands in its way, by its views.
pub open spec fn llm_result(r: Result<HttpCall, String>) -> Result<CallView, Seq<char>> {
    match r {
        Ok(c) => Ok(c@),
        Err(e) => Err(e@),
    }
}

/// The call that sends a conversation to a model, or what stands in its way.
pub fn call_llm_with_messages(
    cfg: &Config,
    provider_name: Option<&str>,
    model: Option<&str>,
    messages: &Vec<ChatMessage>,
    env: &Vec<(String, String)>,
) -> (r: Result<HttpCall, String>)
    ensures
        llm_result(r) == llm_call(
            cfg.providers,
            opt_str(provider_name),
            opt_str(model),
            chat_views(messages@),
            env@,
        ),
{
    let provider = match resolve_provider(cfg, provider_name) {
        Ok(p) => p,
        Err(_) => {
            return Err("provider not configured".to_string());
        },
    };
    if is_blank(provider.base_url.as_str()) {
        return Err("provider base_url is required".to_string());
    }
    let chosen = match model {
        Some(m) => m,
        None => provider.model.as_str(),
    };
    if is_blank(chosen) {
        return Err("model is required".to_string());
    }
    let key = match resolve_api_key(provider, provider_name, env) {
        Ok(key) => key,
        Err(_) => {
            return Err("api key not configured".to_string());
        },
    };
    let copy = copy_messages(messages, 0, messages.len());
    assert(chat_views(copy@) =~= chat_views(messages@));
    let req = CompletionRequest {
        prompt: None,
        messages: Some(copy),
        model: Some(chosen.to_string()),
        provider: match provider_name {
            Some(n) => Some(n.to_string()),
            None => None,
        },
        max_tokens: None,
        temperature: None,
        top_p: None,
        stop: None,
    };
    assert(req@ == chat_request(opt_str(provider_name), chosen@, chat_views(messages@)));
    match call_openai_compat_completions(provider, key_text(&key), chosen, &req) {
        Ok(call) => Ok(call),
        Err(e) => Err(json_to_text(&e.body)),
    }
}

/// A call goes out without a key only to a provider on this machine.
pub proof fn keyless_calls_stay_here(
    providers: ProvidersConfig,
    req: RequestView,
    env: Seq<(String, String)>,
)
    ensures
        match completions_for(providers, req, env) {
            Ok(call) => call.authorization is None ==> {
                let p = provider_for(providers, addressed(providers, req).0);
                p is Ok && local_url(p->Ok_0.base_url@)
            },
            Err(_) => true,
        },
{
}

/// A provider on this machine is called even if no key is configured for it.
pub proof fn local_providers_need_no_key(
    provider: ProviderView,
    name: Option<Seq<char>>,
    env: Seq<(String, String)>,
)
    requires
        local_url(provider.base_url),
    ensures
        api_key_for(provider, name, env) is Ok,
{
}

/// A short name for a model goes to the provider and the model that it stands
/// for, as if the request had named both.
pub proof fn short_names_stand_for_models(
    providers: ProvidersConfig,
    req: RequestView,
    short: Seq<char>,
    alias: ModelAlias,
    env: Seq<(String, String)>,
)
    requires
        entry(providers.model_aliases@, short) == Some(alias),
    ensures
        completions_for(
            providers,
            RequestView { model: Some(short), provider: None, ..req },
            env,
        ) == completions_for(
            providers,
            RequestView { model: Some(alias.model@), provider: Some(alias.provider@), ..req },
            env,
        ),
{
    let a = RequestView { model: Some(short), provider: None, ..req };
    let b = RequestView { model: Some(alias.model@), provider: Some(alias.provider@), ..req };
    assert(addressed(providers, a) == addressed(providers, b));
    assert forall|p: ProviderView, key: Option<Seq<char>>, m: Seq<char>| #[trigger]
        completion_call(p, key, m, a) == completion_call(p, key, m, b) by {
        assert(question(p.completions_path, a) == question(p.completions_path, b));
    }
}

// ---------------------------------------------------------------------------
// What is sent where
// ---------------------------------------------------------------------------

/// The first entry of a name is the one that counts: what is found stands under the
/// name, nothing before it does, and where nothing is found nothing stands under it.
pub proof fn the_first_entry_counts<T>(v: Seq<(String, T)>, name: Seq<char>)
    ensures
        match entry_at(v, name) {
            Some(i) => {
                &&& 0 <= i < v.len()
                &&& v[i].0@ == name
                &&& entry(v, name) == Some(v[i].1)
                &&& forall|j: int| 0 <= j < i ==> (#[trigger] v[j]).0@ != name
            },
            None => {
                &&& entry(v, name) is None
                &&& forall|j: int| 0 <= j < v.len() ==> (#[trigger] v[j]).0@ != name
            },
        },
    decreases v.len(),
{
    if v.len() > 0 && v[0].0@ != name {
        let rest = v.skip(1);
        the_first_entry_counts(rest, name);
        assert forall|j: int| 0 < j < v.len() implies #[trigger] v[j] == rest[j - 1] by {}
    }
}

/// The body of a call holds the model and what was asked, and each setting exactly
/// where the request has it.
pub open spec fn body_holds(
    members: Seq<(Seq<char>, JsonView)>,
    model: Seq<char>,
    req: RequestView,
) -> bool {
    &&& members.len() >= 2
    &&& members[0] == ("model"@, JsonView::Str(model))
    &&& forall|i: int|
        1 <= i < members.len() ==> (#[trigger] members[i]).0 == "prompt"@ || members[i].0
            == "messages"@ || members[i].0 == "max_tokens"@ || members[i].0 == "temperature"@
            || members[i].0 == "top_p"@ || members[i].0 == "stop"@
    &&& match req.max_tokens {
        Some(n) => members.contains(("max_tokens"@, JsonView::Unsigned(n as u64))),
        None => no_member(members, "max_tokens"@),
    }
    &&& match req.temperature {
        Some(v) => members.contains(("temperature"@, v)),
        None => no_member(members, "temperature"@),
    }
    &&& match req.top_p {
        Some(v) => members.contains(("top_p"@, v)),
        None => no_member(members, "top_p"@),
    }
    &&& match req.stop {
        Some(s) => exists|a: Seq<JsonView>|
            {
                &&& #[trigger] members.contains(("stop"@, JsonView::Array(a)))
                &&& a.len() == s.len()
                &&& forall|i: int| 0 <= i < s.len() ==> #[trigger] a[i] == JsonView::Str(s[i])
            },
        None => no_member(members, "stop"@),
    }
}

/// No member has this name.
pub open spec fn no_member(members: Seq<(Seq<char>, JsonView)>, name: Seq<char>) -> bool {
    forall|i: int| 0 <= i < members.len() ==> (#[trigger] members[i]).0 != name
}

/// The conversation that a value holds.
pub open spec fn is_conversation(v: JsonView, ms: Seq<ChatView>) -> bool {
    match v {
        JsonView::Array(a) => {
            &&& a.len() == ms.len()
            &&& forall|i: int|
                0 <= i < ms.len() ==> (#[trigger] a[i]) == JsonView::Object(
                    seq![
                        ("role"@, JsonView::Str(ms[i].role)),
                        ("content"@, JsonView::Str(ms[i].content)),
                    ],
                )
        },
        _ => false,
    }
}

/// What is asked is what the request asks: in a chat its conversation, or its prompt
/// as the one thing that the user says; elsewhere its prompt.
pub open spec fn asks_what_was_asked(
    asked: (Seq<char>, JsonView),
    chat: bool,
    req: RequestView,
) -> bool {
    if chat {
        &&& asked.0 == "messages"@
        &&& match req.messages {
            Some(ms) => is_conversation(asked.1, ms),
            None => req.prompt is Some && is_conversation(
                asked.1,
                seq![ChatView { role: "user"@, content: req.prompt->Some_0 }],
            ),
        }
    } else {
        asked.0 == "prompt"@ && req.prompt is Some && asked.1 == JsonView::Str(req.prompt->Some_0)
    }
}

/// The body of a call says what the request says: the model, the conversation or the
/// prompt, and each setting that the request has, and no other.
pub proof fn bodies_say_what_was_asked(path: Seq<char>, model: Seq<char>, req: RequestView)
    ensures
        match completion_body_for(path, model, req) {
            Ok(JsonView::Object(members)) => {
                &&& body_holds(members, model, req)
                &&& asks_what_was_asked(members[1], has_text(path, "chat/completions"@), req)
            },
            Ok(_) => false,
            Err(e) => {
                &&& e.status == 400
                &&& req.prompt is None || blank(req.prompt->Some_0)
                &&& has_text(path, "chat/completions"@) ==> req.messages is None
            },
        },
{
    reveal_strlit("model");
    reveal_strlit("prompt");
    reveal_strlit("messages");
    reveal_strlit("max_tokens");
    reveal_strlit("temperature");
    reveal_strlit("top_p");
    reveal_strlit("stop");
    assert("stop"@.len() == 4 && "top_p"@.len() == 5 && "prompt"@.len() == 6);
    assert("messages"@.len() == 8 && "max_tokens"@.len() == 10 && "temperature"@.len() == 11);
    assert("model"@.len() == 5 && "model"@[0] == 'm' && "top_p"@[0] == 't');
    match question(path, req) {
        Ok(asked) => {
            let s0 = seq![("model"@, JsonView::Str(model)), asked];
            let tokens = match req.max_tokens {
                Some(n) => Some(JsonView::Unsigned(n as u64)),
                None => None,
            };
            let s1 = with_member(s0, "max_tokens"@, tokens);
            let s2 = with_member(s1, "temperature"@, req.temperature);
            let s3 = with_member(s2, "top_p"@, req.top_p);
            let stop = match req.stop {
                Some(s) => Some(JsonView::Array(s.map_values(|t: Seq<char>| JsonView::Str(t)))),
                None => None,
            };
            let s4 = with_member(s3, "stop"@, stop);
            assert(completion_json(model, asked, req) == JsonView::Object(s4));
            if req.max_tokens is Some {
                assert(s4[2] == ("max_tokens"@, tokens->Some_0));
            }
            if req.temperature is Some {
                assert(s4[s1.len() as int] == ("temperature"@, req.temperature->Some_0));
            }
            if req.top_p is Some {
                assert(s4[s2.len() as int] == ("top_p"@, req.top_p->Some_0));
            }
            if req.stop is Some {
                let a = stop->Some_0->Array_0;
                assert(s4[s3.len() as int] == ("stop"@, JsonView::Array(a)));
                assert(s4.contains(("stop"@, JsonView::Array(a))));
            }
        },
        Err(_) => {},
    }
}

/// The model that a call is for: the one that the request names, unless that is a
/// short name or blank; a blank name stands for the provider's own model.
pub open spec fn model_is_asked(
    call: CallView,
    model: Seq<char>,
    req: RequestView,
    chat: bool,
) -> bool {
    exists|members: Seq<(Seq<char>, JsonView)>|
        {
            &&& call.body == #[trigger] json_text(JsonView::Object(members))
            &&& body_holds(members, model, req)
            &&& asks_what_was_asked(members[1], chat, req)
        }
}

/// A request that names a provider goes to that provider: to its address, with its
/// key, and to the model that the request names; where it names none, to the
/// provider's own.
pub proof fn requests_reach_the_provider_they_name(
    providers: ProvidersConfig,
    req: RequestView,
    env: Seq<(String, String)>,
    name: Seq<char>,
    p: OpenAICompatConfig,
)
    requires
        req.provider == Some(name),
        name == "default"@ ==> providers.openai_compat == Some(p),
        name != "default"@ ==> entry(providers.openai_compat_profiles@, name) == Some(p),
    ensures
        match completions_for(providers, req, env) {
            Ok(call) => {
                let chat = has_text(p.completions_path@, "chat/completions"@);
                &&& call.url == completions_url(p@)
                &&& req.model is Some && !blank(req.model->Some_0) ==> model_is_asked(
                    call,
                    req.model->Some_0,
                    req,
                    chat,
                )
                &&& req.model is None || blank(req.model->Some_0) ==> model_is_asked(
                    call,
                    p.model@,
                    req,
                    chat,
                )
                &&& !blank(p.api_key@) ==> call.authorization == Some("Bearer "@ + p.api_key@)
            },
            Err(e) => e.status == 400,
        },
{
    let m = if req.model is None || blank(req.model->Some_0) {
        p.model@
    } else {
        req.model->Some_0
    };
    lemma_empty_is_blank();
    bodies_say_what_was_asked(p.completions_path@, m, req);
}

proof fn lemma_empty_is_blank()
    ensures
        blank(Seq::empty()),
{
    reveal_with_fuel(trim_front, 2);
    reveal_with_fuel(trim_back, 2);
}

/// A request that names no provider and no short name goes to the default provider,
/// to the model that it names; where it names none, to the provider's own.
pub proof fn other_requests_reach_the_default_provider(
    providers: ProvidersConfig,
    req: RequestView,
    env: Seq<(String, String)>,
    p: OpenAICompatConfig,
)
    requires
        req.provider is None,
        req.model is Some ==> entry(providers.model_aliases@, req.model->Some_0) is None,
        providers.openai_compat == Some(p),
    ensures
        match completions_for(providers, req, env) {
            Ok(call) => {
                let chat = has_text(p.completions_path@, "chat/completions"@);
                &&& call.url == completions_url(p@)
                &&& req.model is Some && !blank(req.model->Some_0) ==> model_is_asked(
                    call,
                    req.model->Some_0,
                    req,
                    chat,
                )
                &&& req.model is None || blank(req.model->Some_0) ==> model_is_asked(
                    call,
                    p.model@,
                    req,
                    chat,
                )
                &&& !blank(p.api_key@) ==> call.authorization == Some("Bearer "@ + p.api_key@)
            },
            Err(e) => e.status == 400,
        },
{
    let m = if req.model is None || blank(req.model->Some_0) {
        p.model@
    } else {
        req.model->Some_0
    };
    lemma_empty_is_blank();
    bodies_say_what_was_asked(p.completions_path@, m, req);
}

/// A short name for a model is sent as the model that it stands for, to the provider
/// that it stands for.
pub proof fn short_names_are_sent_in_full(
    providers: ProvidersConfig,
    req: RequestView,
    env: Seq<(String, String)>,
    alias: ModelAlias,
    p: OpenAICompatConfig,
)
    requires
        req.provider is None,
        req.model is Some,
        entry(providers.model_aliases@, req.model->Some_0) == Some(alias),
        alias.provider@ != "default"@,
        entry(providers.openai_compat_profiles@, alias.provider@) == Some(p),
        !blank(alias.model@),
    ensures
        match completions_for(providers, req, env) {
            Ok(call) => call.url == completions_url(p@) && model_is_asked(
                call,
                alias.model@,
                req,
                has_text(p.completions_path@, "chat/completions"@),
            ),
            Err(e) => e.status == 400,
        },
{
    bodies_say_what_was_asked(p.completions_path@, alias.model@, req);
}

/// A request that is complete is sent: where the provider is configured with an
/// address, a model and a key, and the request asks something, a call goes out. A
/// name that nothing is configured under is turned down.
pub proof fn complete_requests_are_sent(
    providers: ProvidersConfig,
    req: RequestView,
    env: Seq<(String, String)>,
    name: Seq<char>,
)
    requires
        req.provider == Some(name),
        name != "default"@,
    ensures
        match entry(providers.openai_compat_profiles@, name) {
            Some(p) => !blank(p.base_url@) && !blank(p.api_key@) && !blank(p.model@)
                && req.prompt is Some && !blank(req.prompt->Some_0) ==> completions_for(
                providers,
                req,
                env,
            ) is Ok,
            None => completions_for(providers, req, env) == Err::<CallView, ReplyView>(
                error_view(400, "provider '"@ + name + "' not found"@),
            ),
        },
{
    match entry(providers.openai_compat_profiles@, name) {
        Some(p) => {
            bodies_say_what_was_asked(p.completions_path@, p.model@, req);
            if req.model is Some {
                bodies_say_what_was_asked(p.completions_path@, req.model->Some_0, req);
            }
        },
        None => {},
    }
}

/// A conversation is sent to the model that is asked for, or else to the provider's
/// own, word for word.
pub proof fn conversations_are_sent_word_for_word(
    providers: ProvidersConfig,
    name: Option<Seq<char>>,
    model: Option<Seq<char>>,
    messages: Seq<ChatView>,
    env: Seq<(String, String)>,
    p: OpenAICompatConfig,
)
    requires
        match name {
            Some(n) => if n == "default"@ {
                providers.openai_compat == Some(p)
            } else {
                entry(providers.openai_compat_profiles@, n) == Some(p)
            },
            None => providers.openai_compat == Some(p),
        },
    ensures
        match llm_call(providers, name, model, messages, env) {
            Ok(call) => {
                &&& call.url == completions_url(p@)
                &&& exists|members: Seq<(Seq<char>, JsonView)>|
                    {
                        &&& call.body == #[trigger] json_text(JsonView::Object(members))
                        &&& members.len() == 2
                        &&& members[0] == (
                            "model"@,
                            JsonView::Str(
                                match model {
                                    Some(m) => m,
                                    None => p.model@,
                                },
                            ),
                        )
                        &&& members[1].0 == "messages"@
                        &&& is_conversation(members[1].1, messages)
                    }
            },
            Err(_) => true,
        },
        has_text(p.completions_path@, "chat/completions"@) && !blank(p.base_url@) && !blank(
            p.api_key@,
        ) && !blank(
            match model {
                Some(m) => m,
                None => p.model@,
            },
        ) ==> llm_call(providers, name, model, messages, env) is Ok,
{
    let chosen = match model {
        Some(m) => m,
        None => p.model@,
    };
    let req = chat_request(name, chosen, messages);
    bodies_say_what_was_asked(p.completions_path@, chosen, req);
    match completion_body_for(p.completions_path@, chosen, req) {
        Ok(JsonView::Object(members)) => {
            assert(members.len() == 2);
        },
        _ => {},
    }
}

/// Where a provider's path is no address of its own, calls go to its base address and
/// the path below it, with one slash between them.
pub proof fn addresses_are_joined_by_one_slash(p: ProviderView)
    requires
        !starts(p.completions_path, "http://"@),
        !starts(p.completions_path, "https://"@),
    ensures
        ({
            let url = completions_url(p);
            let rest = if starts(p.completions_path, "/"@) {
                p.completions_path.skip(1)
            } else {
                p.completions_path
            };
            exists|base: Seq<char>|
                {
                    &&& url == #[trigger] (base + seq!['/']) + rest
                    &&& starts(p.base_url, base)
                    &&& base.len() > 0 ==> base.last() != '/'
                    &&& forall|i: int|
                        base.len() <= i < p.base_url.len() ==> #[trigger] p.base_url[i] == '/'
                }
        }),
{
    reveal_strlit("/");
    assert("/"@ =~= seq!['/']);
    let base = trim_back_char(p.base_url, '/');
    lemma_trim_back_char(p.base_url, '/');
    let path = p.completions_path;
    if starts(path, "/"@) {
        assert(path =~= seq!['/'] + path.skip(1)) by {
            assert(path.take(1) =~= seq!['/']);
            assert(path.take(1)[0] == path[0]);
        }
        assert(completions_url(p) =~= (base + seq!['/']) + path.skip(1));
    } else {
        assert(completions_url(p) =~= (base + seq!['/']) + path);
    }
}

proof fn lemma_trim_back_char(s: Seq<char>, c: char)
    ensures
        starts(s, trim_back_char(s, c)),
        trim_back_char(s, c).len() > 0 ==> trim_back_char(s, c).last() != c,
        forall|i: int| trim_back_char(s, c).len() <= i < s.len() ==> #[trigger] s[i] == c,
    decreases s.len(),
{
    if s.len() > 0 && s.last() == c {
        let t = s.drop_last();
        lemma_trim_back_char(t, c);
        let r = trim_back_char(s, c);
        assert(s.take(r.len() as int) =~= t.take(r.len() as int));
        assert forall|i: int| r.len() <= i < s.len() implies #[trigger] s[i] == c by {
            if i < t.len() {
                assert(t[i] == s[i]);
            }
        }
    } else {
        assert(s.take(s.len() as int) =~= s);
    }
}

/// A path that is an address of its own is called as it is.
pub proof fn full_addresses_stay(p: ProviderView)
    requires
        starts(p.completions_path, "http://"@) || starts(p.completions_path, "https://"@),
    ensures
        completions_url(p) == p.completions_path,
{
}

/// The key of a provider comes first, then the variable that it names, then the one
/// named after it in capitals; a key that is blank is none.
pub proof fn keys_are_looked_up_in_order(
    provider: ProviderView,
    name: Seq<char>,
    env: Seq<(String, String)>,
    variable_name: Seq<char>,
    value: String,
)
    requires
        entry(env, variable_name) == Some(value),
        !blank(value@),
    ensures
        !blank(provider.api_key) ==> api_key_for(provider, Some(name), env) == Ok::<
            Option<Seq<char>>,
            ReplyView,
        >(Some(provider.api_key)),
        blank(provider.api_key) && provider.api_key_env == Some(variable_name) ==> api_key_for(
            provider,
            Some(name),
            env,
        ) == Ok::<Option<Seq<char>>, ReplyView>(Some(value@)),
        blank(provider.api_key) && provider.api_key_env is None && variable_name == uppered(name)
            + "_API_KEY"@ ==> api_key_for(provider, Some(name), env) == Ok::<
            Option<Seq<char>>,
            ReplyView,
        >(Some(value@)),
{
}

/// A provider elsewhere is not called without a key.
pub proof fn providers_elsewhere_need_a_key(
    provider: ProviderView,
    name: Option<Seq<char>>,
    env: Seq<(String, String)>,
)
    requires
        blank(provider.api_key),
        !local_url(provider.base_url),
        forall|i: int| 0 <= i < env.len() ==> blank((#[trigger] env[i]).1@),
    ensures
        api_key_for(provider, name, env) == Err::<Option<Seq<char>>, ReplyView>(
            error_view(400, "api key not configured"@),
        ),
{
    match provider.api_key_env {
        Some(v) => {
            the_first_entry_counts(env, v);
        },
        None => {},
    }
    match name {
        Some(n) => {
            the_first_entry_counts(env, uppered(n) + "_API_KEY"@);
        },
        None => {},
    }
}

proof fn lemma_host(rest: Seq<char>, host: Seq<char>, tail: Seq<char>, known: Seq<char>)
    requires
        rest == host + tail,
        host.len() > 0,
        tail.len() == 0 || tail[0] == ':' || tail[0] == '/',
        forall|i: int| 0 <= i < host.len() ==> #[trigger] host[i] != ':' && host[i] != '/',
        forall|i: int| 0 <= i < known.len() ==> #[trigger] known[i] != ':' && known[i] != '/',
    ensures
        at_host(rest, known) <==> host == known,
{
    if at_host(rest, known) {
        assert(rest.take(known.len() as int) == known);
        if known.len() < host.len() {
            assert(rest[known.len() as int] == host[known.len() as int]);
        } else if known.len() > host.len() {
            assert(known[host.len() as int] == rest[host.len() as int]);
            assert(rest[host.len() as int] == tail[0]);
        } else {
            assert forall|i: int| 0 <= i < host.len() implies host[i] == known[i] by {
                assert(rest.take(known.len() as int)[i] == rest[i]);
            }
            assert(host =~= known);
        }
    }
    if host == known {
        assert(rest.take(known.len() as int) =~= known);
        if tail.len() > 0 {
            assert(rest[host.len() as int] == tail[0]);
        } else {
            assert(rest =~= host);
        }
    }
}

/// A provider is on this machine exactly if its host is `localhost` or `127.0.0.1`,
/// whatever port or path comes after it. A name that only begins so is another host.
pub proof fn only_this_machine_is_local(secure: bool, host: Seq<char>, tail: Seq<char>)
    requires
        host.len() > 0,
        host[0] != '[',
        forall|i: int| 0 <= i < host.len() ==> #[trigger] host[i] != ':' && host[i] != '/',
        tail.len() == 0 || tail[0] == ':' || tail[0] == '/',
    ensures
        local_url(
            (if secure {
                "https://"@
            } else {
                "http://"@
            }) + (host + tail),
        ) <==> host == "localhost"@ || host == "127.0.0.1"@,
{
    reveal_strlit("https://");
    reveal_strlit("http://");
    reveal_strlit("localhost");
    reveal_strlit("127.0.0.1");
    reveal_strlit("[::1]");
    let rest = host + tail;
    let url = (if secure {
        "https://"@
    } else {
        "http://"@
    }) + rest;
    if secure {
        assert(url[4] == 's');
        if starts(url, "http://"@) {
            assert(url.take(7)[4] == ':');
        }
        assert(url.take(8) =~= "https://"@);
        assert(url.skip(8) =~= rest);
    } else {
        assert(url.take(7) =~= "http://"@);
        assert(url.skip(7) =~= rest);
    }
    assert(without_scheme(url) == rest);
    lemma_host(rest, host, tail, "localhost"@);
    lemma_host(rest, host, tail, "127.0.0.1"@);
    if at_host(rest, "[::1]"@) {
        assert(rest.take(5)[0] == '[');
        assert(rest[0] == host[0]);
    }
}

/// What a provider answers is passed on: a document as it is, one that cannot be read
/// wrapped up; a refusal keeps its status, and a call that failed is a bad gateway.
pub proof fn answers_are_passed_on(outcome: HttpOutcome, parsed: Option<JsonView>)
    ensures
        match outcome {
            HttpOutcome::Answered(text) => match parsed {
                Some(v) => outcome_with(outcome, parsed) == Ok::<JsonView, ReplyView>(v),
                None => match outcome_with(outcome, parsed) {
                    Ok(v) => field(v, "raw"@) == Some(JsonView::Str(text@)),
                    Err(_) => false,
                },
            },
            HttpOutcome::Refused(status, text) => match outcome_with(outcome, parsed) {
                Ok(_) => false,
                Err(e) => e.status == status && (parsed is Some ==> e.body == parsed->Some_0) && (
                parsed is None ==> field(e.body, "raw"@) == Some(JsonView::Str(text@))),
            },
            HttpOutcome::Failed(message) => match outcome_with(outcome, parsed) {
                Ok(_) => false,
                Err(e) => e.status == 502 && field(e.body, "error"@) == Some(
                    JsonView::Str(message@),
                ),
            },
        },
{
    reveal_with_fuel(member, 2);
}

/// A call bears the key that was found for its provider, and none where none was found.
pub proof fn calls_bear_the_key(
    p: ProviderView,
    key: Option<Seq<char>>,
    model: Seq<char>,
    req: RequestView,
)
    ensures
        match completion_call(p, key, model, req) {
            Ok(call) => {
                &&& call.url == completions_url(p)
                &&& key is Some ==> call.authorization == Some("Bearer "@ + key->Some_0)
                &&& key is None ==> call.authorization is None
            },
            Err(e) => e.status == 400,
        },
{
}

/// What a call is answered is passed on under a status that can be sent: its own where it is
/// one, else that of a bad gateway.
pub proof fn answers_bear_a_status_that_can_be_sent(status: u16)
    ensures
        100 <= status <= 999 ==> sendable(status) == status,
        status < 100 || status > 999 ==> sendable(status) == 502,
{
}

/// What a model said is the text of its completion; an answer without one is an error, and an
/// error is told by its document.
pub proof fn the_text_of_a_completion_is_taken(v: JsonView, e: ReplyView)
    ensures
        completion_text(v) is Some ==> llm_answer(Ok(v)) == Ok::<Seq<char>, Seq<char>>(
            completion_text(v)->Some_0,
        ),
        completion_text(v) is None ==> llm_answer(Ok(v)) == Err::<Seq<char>, Seq<char>>(
            "no completion text returned"@,
        ),
        llm_answer(Err(e)) == Err::<Seq<char>, Seq<char>>(json_text(e.body)),
{
}

/// What stands in the way of a conversation is told: there is no such provider, no address,
/// no model, or no key.
pub proof fn what_stands_in_the_way_is_told(
    providers: ProvidersConfig,
    name: Option<Seq<char>>,
    model: Option<Seq<char>>,
    messages: Seq<ChatView>,
    env: Seq<(String, String)>,
)
    ensures
        match provider_for(providers, name) {
            Err(_) => llm_call(providers, name, model, messages, env) == Err::<
                CallView,
                Seq<char>,
            >("provider not configured"@),
            Ok(p) => {
                let chosen = match model {
                    Some(m) => m,
                    None => p.model@,
                };
                &&& blank(p.base_url@) ==> llm_call(providers, name, model, messages, env) == Err::<
                    CallView,
                    Seq<char>,
                >("provider base_url is required"@)
                &&& !blank(p.base_url@) && blank(chosen) ==> llm_call(
                    providers,
                    name,
                    model,
                    messages,
                    env,
                ) == Err::<CallView, Seq<char>>("model is required"@)
                &&& !blank(p.base_url@) && !blank(chosen) && api_key_for(p@, name, env) is Err
                    ==> llm_call(providers, name, model, messages, env) == Err::<
                    CallView,
                    Seq<char>,
                >("api key not configured"@)
            },
        },
{
}

/// A request that reaches no provider is told so, and as a fault of its own: there is no
/// default one, or none at all under the name.
pub proof fn missing_providers_are_told(
    providers: ProvidersConfig,
    req: RequestView,
    env: Seq<(String, String)>,
)
    requires
        providers.openai_compat is None,
        req.model is None,
    ensures
        req.provider == Some("default"@) ==> completions_for(providers, req, env) == Err::<
            CallView,
            ReplyView,
        >(error_view(400, "default provider not configured"@)),
        req.provider is None ==> completions_for(providers, req, env) == Err::<
            CallView,
            ReplyView,
        >(error_view(400, "openai_compat provider not configured"@)),
{
}

} // verus!
