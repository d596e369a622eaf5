//! What the provider adapters decide: which adapter serves a provider, the
//! conservative token estimate, the wire request each provider receives, and
//! how a provider's reply becomes a response or an error. Sending and receiving
//! are left to the caller.

use vstd::prelude::*;
use vstd::string::StringExecFns;
use crate::error::{RelayError, Result};
use crate::request::{
    role_name, role_text, Capability, CapabilitySet, Message, RelayRequest, RelayResponse, Role, TokenEstimate, Usage,
};
use crate::text::{first_chars, first_n};

verus! {

/// The number of output tokens assumed when a request sets no limit.
pub const DEFAULT_MAX_OUTPUT_TOKENS: u32 = 1024;

/// The providers that have an adapter.
#[derive(Clone, Copy, Debug, PartialEq, Eq)]
pub enum ProviderKind {
    OpenAi,
    Anthropic,
}

/// The adapter for a provider name.
pub fn provider_kind(provider: &str) -> (r: Result<ProviderKind>)
    ensures
        provider@ == "openai"@ ==> r == Ok::<ProviderKind, RelayError>(ProviderKind::OpenAi),
        provider@ == "anthropic"@ ==> r == Ok::<ProviderKind, RelayError>(ProviderKind::Anthropic),
        provider@ != "openai"@ && provider@ != "anthropic"@ ==> r is Err && r->Err_0
            == RelayError::UnsupportedProvider(r->Err_0->UnsupportedProvider_0)
            && r->Err_0->UnsupportedProvider_0@ == provider@,
{
    proof {
        reveal_strlit("openai");
        reveal_strlit("anthropic");
        assert("anthropic"@ != "openai"@) by {
            assert("anthropic"@[0] != "openai"@[0]);
        }
    }
    let name = provider.to_owned();
    if name == String::from_str("openai") {
        Ok(ProviderKind::OpenAi)
    } else if name == String::from_str("anthropic") {
        Ok(ProviderKind::Anthropic)
    } else {
        Err(RelayError::UnsupportedProvider(name))
    }
}

/// The name an adapter answers to.
pub fn provider_name(kind: ProviderKind) -> (r: &'static str)
    ensures
        kind == ProviderKind::OpenAi ==> r@ == "openai"@,
        kind == ProviderKind::Anthropic ==> r@ == "anthropic"@,
{
    match kind {
        ProviderKind::OpenAi => "openai",
        ProviderKind::Anthropic => "anthropic",
    }
}

/// The capabilities of the chat adapters: chat only.
pub fn capabilities_chat() -> (r: CapabilitySet)
    ensures
        r@ == Set::<Capability>::empty().insert(Capability::Chat),
{
    let mut set = CapabilitySet::new();
    set.insert(Capability::Chat);
    set
}

/// The UTF-8 length in bytes of a text, as `str::len` reports it.
pub open spec fn utf8_len(s: Seq<char>) -> nat {
    (vstd::utf8::encode_utf8(s).len() as usize) as nat
}

/// The bytes of the messages' contents, with 16 bytes of overhead per message.
pub open spec fn content_bytes(messages: Seq<Message>) -> nat
    decreases messages.len(),
{
    if messages.len() == 0 {
        0
    } else {
        content_bytes(messages.drop_last()) + utf8_len(messages.last().content@) + 16
    }
}

/// The estimate: one token per byte of content plus 16 per message, plus 16.
/// `None` when the request streams; `Some(None)` when the count overflows.
pub open spec fn estimate_of(request: RelayRequest) -> Option<Option<nat>> {
    if request.stream {
        None
    } else if content_bytes(request.messages@) + 16 > u64::MAX {
        Some(None)
    } else {
        Some(Some(content_bytes(request.messages@) + 16))
    }
}

/// A deterministic estimate of input tokens that never undercounts: every byte
/// of content counts as a token. Streaming requests are refused.
pub fn conservative_token_estimate(request: &RelayRequest) -> (r: Result<TokenEstimate>)
    ensures
        match estimate_of(*request) {
            None => r == Err::<TokenEstimate, RelayError>(RelayError::StreamingUnsupported),
            Some(None) => r is Err && r->Err_0 == RelayError::InvalidUsage(r->Err_0->InvalidUsage_0)
                && r->Err_0->InvalidUsage_0@ == "request size overflow"@,
            Some(Some(n)) => r == Ok::<TokenEstimate, RelayError>(TokenEstimate { input_tokens: n as u64 }),
        },
{
    if request.stream {
        return Err(RelayError::StreamingUnsupported);
    }
    let mut total: u128 = 0;
    let mut i: usize = 0;
    while i < request.messages.len()
        invariant
            i <= request.messages@.len(),
            total == content_bytes(request.messages@.subrange(0, i as int)),
            total <= u64::MAX + 1,
            !request.stream,
        decreases request.messages@.len() - i,
    {
        proof {
            assert(request.messages@.subrange(0, i + 1).drop_last() =~= request.messages@.subrange(0, i as int));
        }
        let len = request.messages[i].content.as_str().len();
        let next = total + len as u128 + 16;
        if next > u64::MAX as u128 {
            proof {
                lemma_content_bytes_grow(request.messages@, (i + 1) as int);
            }
            return Err(RelayError::InvalidUsage(String::from_str("request size overflow")));
        }
        total = next;
        i = i + 1;
    }
    proof {
        assert(request.messages@.subrange(0, request.messages@.len() as int) =~= request.messages@);
    }
    if total + 16 > u64::MAX as u128 {
        return Err(RelayError::InvalidUsage(String::from_str("request size overflow")));
    }
    Ok(TokenEstimate { input_tokens: (total + 16) as u64 })
}

proof fn lemma_content_bytes_grow(messages: Seq<Message>, k: int)
    requires
        0 <= k <= messages.len(),
    ensures
        content_bytes(messages.subrange(0, k)) <= content_bytes(messages),
    decreases messages.len(),
{
    if k == messages.len() {
        assert(messages.subrange(0, k) =~= messages);
    } else {
        let d = messages.drop_last();
        assert(d.subrange(0, k) =~= messages.subrange(0, k));
        lemma_content_bytes_grow(d, k);
    }
}

/// The string that a JSON pointer selects in a JSON text, if the text is JSON
/// and the pointer selects a string.
pub uninterp spec fn spec_json_text_at(body: Seq<char>, pointer: Seq<char>) -> Option<Seq<char>>;

/// `serde_json::from_str::<Value>`, `Value::pointer` and `Value::as_str`
/// (`serde_json`): the string at a JSON pointer of a JSON text. The result is
/// named by `spec_json_text_at`; JSON's grammar is not stated here.
#[verifier::external_body]
fn json_text_at(body: &str, pointer: &str) -> (r: Option<String>)
    ensures
        match r {
            Some(m) => spec_json_text_at(body@, pointer@) == Some(m@),
            None => spec_json_text_at(body@, pointer@) is None,
        },
{
    let value = serde_json::from_str::<serde_json::Value>(body).ok()?;
    value.pointer(pointer)?.as_str().map(|text| text.to_owned())
}

/// The provider's own error message, or a generic one, cut to 500 characters:
/// provider bodies are never echoed whole.
pub open spec fn safe_message(body: Seq<char>) -> Seq<char> {
    first_n(
        match spec_json_text_at(body, "/error/message"@) {
            Some(m) => m,
            None => "provider request failed"@,
        },
        500,
    )
}

/// What may be shown of a provider's error body.
pub fn safe_provider_message(body: &str) -> (r: String)
    ensures
        r@ == safe_message(body@),
{
    let message = match json_text_at(body, "/error/message") {
        Some(m) => m,
        None => String::from_str("provider request failed"),
    };
    first_chars(message.as_str(), 500)
}

/// The error for a provider's non-success reply.
pub fn provider_failure(provider: &str, status: u16, body: &str) -> (e: RelayError)
    ensures
        e matches RelayError::Provider { provider: p, status: s, message: m } && p@ == provider@ && s == status
            && m@ == safe_message(body@),
{
    RelayError::Provider { provider: provider.to_owned(), status, message: safe_provider_message(body) }
}

// ---------------------------------------------------------------------------
// Anthropic

/// The body of an Anthropic Messages API request.
#[derive(Debug)]
pub struct AnthropicWire {
    pub model: String,
    pub messages: Vec<(&'static str, String)>,
    pub max_tokens: u32,
    pub system: Option<String>,
    pub stream: bool,
}

/// The contents of the system messages, in order.
pub open spec fn system_texts(messages: Seq<Message>) -> Seq<Seq<char>>
    decreases messages.len(),
{
    if messages.len() == 0 {
        Seq::empty()
    } else if messages.last().role == Role::System {
        system_texts(messages.drop_last()).push(messages.last().content@)
    } else {
        system_texts(messages.drop_last())
    }
}

/// The conversation without system messages, as (role, content) pairs.
pub open spec fn chat_turns(messages: Seq<Message>) -> Seq<(Seq<char>, Seq<char>)>
    decreases messages.len(),
{
    if messages.len() == 0 {
        Seq::empty()
    } else {
        let rest = chat_turns(messages.drop_last());
        let m = messages.last();
        match m.role {
            Role::System => rest,
            Role::User => rest.push(("user"@, m.content@)),
            Role::Assistant => rest.push(("assistant"@, m.content@)),
        }
    }
}

/// Texts joined with a blank line between them.
pub open spec fn join_paragraphs(texts: Seq<Seq<char>>) -> Seq<char>
    decreases texts.len(),
{
    if texts.len() == 0 {
        Seq::empty()
    } else if texts.len() == 1 {
        texts[0]
    } else {
        join_paragraphs(texts.drop_last()) + "\n\n"@ + texts.last()
    }
}

/// The Anthropic request for a relay request: system messages joined into the
/// `system` field, the others as user and assistant turns, the output limit
/// (1024 when unset), never streaming. Streaming requests are refused.
pub fn anthropic_wire(request: &RelayRequest) -> (r: Result<AnthropicWire>)
    ensures
        request.stream ==> r == Err::<AnthropicWire, RelayError>(RelayError::StreamingUnsupported),
        !request.stream ==> r is Ok && ({
            let w = r->Ok_0;
            &&& w.model@ == request.model@
            &&& w.messages@.len() == chat_turns(request.messages@).len()
            &&& forall|i: int|
                0 <= i < w.messages@.len() ==> (#[trigger] w.messages@[i]).0@ == chat_turns(request.messages@)[i].0
                    && w.messages@[i].1@ == chat_turns(request.messages@)[i].1
            &&& w.max_tokens == match request.max_output_tokens {
                Some(n) => n,
                None => DEFAULT_MAX_OUTPUT_TOKENS,
            }
            &&& if system_texts(request.messages@).len() == 0 {
                w.system is None
            } else {
                w.system matches Some(s) && s@ == join_paragraphs(system_texts(request.messages@))
            }
            &&& !w.stream
        }),
{
    if request.stream {
        return Err(RelayError::StreamingUnsupported);
    }
    let mut system = String::new();
    let mut system_count: usize = 0;
    let mut turns: Vec<(&'static str, String)> = Vec::new();
    let mut i: usize = 0;
    while i < request.messages.len()
        invariant
            i <= request.messages@.len(),
            system_count == system_texts(request.messages@.subrange(0, i as int)).len(),
            system_count <= i,
            system@ == join_paragraphs(system_texts(request.messages@.subrange(0, i as int))),
            turns@.len() == chat_turns(request.messages@.subrange(0, i as int)).len(),
            forall|j: int|
                0 <= j < turns@.len() ==> (#[trigger] turns@[j]).0@ == chat_turns(
                    request.messages@.subrange(0, i as int),
                )[j].0 && turns@[j].1@ == chat_turns(request.messages@.subrange(0, i as int))[j].1,
        decreases request.messages@.len() - i,
    {
        let ghost prefix = request.messages@.subrange(0, i as int);
        let ghost next = request.messages@.subrange(0, i + 1);
        proof {
            assert(next.drop_last() =~= prefix);
            assert(next.last() == request.messages@[i as int]);
        }
        let message = &request.messages[i];
        match message.role {
            Role::System => {
                if system_count > 0 {
                    system.append("\n\n");
                }
                system.append(message.content.as_str());
                system_count = system_count + 1;
                proof {
                    let st = system_texts(prefix);
                    let st2 = system_texts(next);
                    assert(st2 == st.push(message.content@));
                    if st.len() == 0 {
                        assert(st2 =~= seq![message.content@]);
                        assert(join_paragraphs(st2) == st2[0]);
                        assert(system@ =~= join_paragraphs(st2));
                    } else {
                        assert(st2.drop_last() =~= st);
                        assert(system@ =~= join_paragraphs(st2));
                    }
                }
            },
            Role::User => {
                let ghost old_turns = turns@;
                turns.push(("user", message.content.clone()));
                proof {
                    assert forall|j: int| 0 <= j < turns@.len() implies (#[trigger] turns@[j]).0@ == chat_turns(
                        next,
                    )[j].0 && turns@[j].1@ == chat_turns(next)[j].1 by {
                        if j < old_turns.len() {
                            assert(turns@[j] == old_turns[j]);
                        }
                    }
                }
            },
            Role::Assistant => {
                let ghost old_turns = turns@;
                turns.push(("assistant", message.content.clone()));
                proof {
                    assert forall|j: int| 0 <= j < turns@.len() implies (#[trigger] turns@[j]).0@ == chat_turns(
                        next,
                    )[j].0 && turns@[j].1@ == chat_turns(next)[j].1 by {
                        if j < old_turns.len() {
                            assert(turns@[j] == old_turns[j]);
                        }
                    }
                }
            },
        }
        i = i + 1;
    }
    proof {
        assert(request.messages@.subrange(0, request.messages@.len() as int) =~= request.messages@);
    }
    let max_tokens = match request.max_output_tokens {
        Some(n) => n,
        None => DEFAULT_MAX_OUTPUT_TOKENS,
    };
    Ok(
        AnthropicWire {
            model: request.model.clone(),
            messages: turns,
            max_tokens,
            system: if system_count == 0 {
                None
            } else {
                Some(system)
            },
            stream: false,
        },
    )
}

/// One content block of an Anthropic reply: its type and its text.
#[derive(Debug)]
pub struct AnthropicContent {
    pub kind: String,
    pub text: Option<String>,
}

/// The text of a reply: the texts of its `text` blocks, concatenated.
pub open spec fn anthropic_text(content: Seq<AnthropicContent>) -> Seq<char>
    decreases content.len(),
{
    if content.len() == 0 {
        Seq::empty()
    } else {
        let c = content.last();
        anthropic_text(content.drop_last()) + if c.kind@ == "text"@ && c.text is Some {
            c.text->0@
        } else {
            Seq::empty()
        }
    }
}

/// Whether `e` is an invalid-usage error carrying `text`.
pub open spec fn is_invalid_usage(e: RelayError, text: Seq<char>) -> bool {
    e matches RelayError::InvalidUsage(m) && m@ == text
}

/// The reply's model when it names one, else the requested model.
pub open spec fn reply_model(reported: Option<String>, requested: Seq<char>) -> Seq<char> {
    match reported {
        Some(m) => m@,
        None => requested,
    }
}

/// The response for a successful Anthropic reply: reported usage is required,
/// and so is some text.
pub fn anthropic_response(
    request_model: &str,
    content: &Vec<AnthropicContent>,
    usage: Option<Usage>,
    model: Option<String>,
    latency_ms: u64,
    raw: String,
) -> (r: Result<RelayResponse>)
    ensures
        usage is None ==> r is Err && is_invalid_usage(r->Err_0, "Anthropic response omitted the usage object"@),
        usage is Some && anthropic_text(content@).len() == 0 ==> r is Err && is_invalid_usage(
            r->Err_0,
            "Anthropic response contained no text"@,
        ),
        usage is Some && anthropic_text(content@).len() > 0 ==> r is Ok && r->Ok_0.text@ == anthropic_text(content@)
            && r->Ok_0.usage == usage->0 && r->Ok_0.model@ == reply_model(model, request_model@)
            && r->Ok_0.latency_ms == latency_ms && r->Ok_0.raw == raw,
{
    let usage = match usage {
        Some(u) => u,
        None => return Err(RelayError::InvalidUsage(String::from_str("Anthropic response omitted the usage object"))),
    };
    let mut text = String::new();
    let text_kind = String::from_str("text");
    let mut i: usize = 0;
    while i < content.len()
        invariant
            i <= content@.len(),
            text_kind@ == "text"@,
            text@ == anthropic_text(content@.subrange(0, i as int)),
        decreases content@.len() - i,
    {
        proof {
            assert(content@.subrange(0, i + 1).drop_last() =~= content@.subrange(0, i as int));
        }
        let item = &content[i];
        if item.kind == text_kind {
            match &item.text {
                Some(t) => text.append(t.as_str()),
                None => {},
            }
        }
        proof {
            assert(text@ =~= anthropic_text(content@.subrange(0, i + 1)));
        }
        i = i + 1;
    }
    proof {
        assert(content@.subrange(0, content@.len() as int) =~= content@);
    }
    if text.as_str().is_empty() {
        return Err(RelayError::InvalidUsage(String::from_str("Anthropic response contained no text")));
    }
    let model = match model {
        Some(m) => m,
        None => request_model.to_owned(),
    };
    Ok(RelayResponse { text, usage, model, latency_ms, raw })
}

// ---------------------------------------------------------------------------
// OpenAI

/// What an OpenAI chat request carries: the model, each message as its role's
/// name and content, the output limit (absent when unset), never streaming.
#[derive(Debug)]
pub struct OpenAiWire {
    pub model: String,
    pub messages: Vec<(&'static str, String)>,
    pub max_tokens: Option<u32>,
    pub stream: bool,
}

/// The OpenAI request for a relay request: every message in order, with its
/// role's name. Streaming requests are refused before anything is sent.
pub fn openai_wire(request: &RelayRequest) -> (r: Result<OpenAiWire>)
    ensures
        request.stream ==> r == Err::<OpenAiWire, RelayError>(RelayError::StreamingUnsupported),
        !request.stream ==> r is Ok && ({
            let w = r->Ok_0;
            &&& w.model@ == request.model@
            &&& w.messages@.len() == request.messages@.len()
            &&& forall|i: int|
                0 <= i < w.messages@.len() ==> (#[trigger] w.messages@[i]).0@ == role_text(request.messages@[i].role)
                    && w.messages@[i].1@ == request.messages@[i].content@
            &&& w.max_tokens == request.max_output_tokens
            &&& !w.stream
        }),
{
    if request.stream {
        return Err(RelayError::StreamingUnsupported);
    }
    let mut messages: Vec<(&'static str, String)> = Vec::new();
    let mut i: usize = 0;
    while i < request.messages.len()
        invariant
            i <= request.messages@.len(),
            messages@.len() == i,
            forall|j: int|
                0 <= j < i ==> (#[trigger] messages@[j]).0@ == role_text(request.messages@[j].role)
                    && messages@[j].1@ == request.messages@[j].content@,
        decreases request.messages@.len() - i,
    {
        let m = &request.messages[i];
        messages.push((role_name(m.role), m.content.clone()));
        i = i + 1;
    }
    Ok(OpenAiWire { model: request.model.clone(), messages, max_tokens: request.max_output_tokens, stream: false })
}

/// Whether an HTTP status reports success (2xx).
pub fn is_success_status(status: u16) -> (r: bool)
    ensures
        r == (200 <= status <= 299),
{
    200 <= status && status <= 299
}

/// The response for a successful OpenAI reply: reported usage is required, and
/// the first choice must carry text.
pub fn openai_response(
    request_model: &str,
    first_choice: Option<Option<String>>,
    usage: Option<Usage>,
    model: Option<String>,
    latency_ms: u64,
    raw: String,
) -> (r: Result<RelayResponse>)
    ensures
        usage is None ==> r is Err && is_invalid_usage(r->Err_0, "OpenAI response omitted the usage object"@),
        usage is Some && first_choice is None ==> r is Err && is_invalid_usage(
            r->Err_0,
            "OpenAI response had no choices"@,
        ),
        usage is Some && first_choice == Some::<Option<String>>(None) ==> r is Err && is_invalid_usage(
            r->Err_0,
            "OpenAI response choice contained no text"@,
        ),
        usage is Some && first_choice is Some && first_choice->0 is Some ==> r is Ok && r->Ok_0.text
            == first_choice->0->0 && r->Ok_0.usage
            == usage->0 && r->Ok_0.model@ == reply_model(model, request_model@) && r->Ok_0.latency_ms == latency_ms
            && r->Ok_0.raw == raw,
{
    let usage = match usage {
        Some(u) => u,
        None => return Err(RelayError::InvalidUsage(String::from_str("OpenAI response omitted the usage object"))),
    };
    let choice = match first_choice {
        Some(c) => c,
        None => return Err(RelayError::InvalidUsage(String::from_str("OpenAI response had no choices"))),
    };
    let text = match choice {
        Some(t) => t,
        None => return Err(RelayError::InvalidUsage(String::from_str("OpenAI response choice contained no text"))),
    };
    let model = match model {
        Some(m) => m,
        None => request_model.to_owned(),
    };
    Ok(RelayResponse { text, usage, model, latency_ms, raw })
}

} // verus!
