//! The provider-neutral request and response shapes.

use vstd::prelude::*;

verus! {

/// Who wrote a message.
#[derive(Clone, Copy, Debug, PartialEq, Eq, Structural)]
pub enum Role {
    System,
    User,
    Assistant,
}

/// One message of a conversation.
#[derive(Clone, Debug, PartialEq, Eq)]
pub struct Message {
    pub role: Role,
    pub content: String,
}

/// The name of a role on the wire.
pub open spec fn role_text(role: Role) -> Seq<char> {
    match role {
        Role::System => "system"@,
        Role::User => "user"@,
        Role::Assistant => "assistant"@,
    }
}

/// The name of a role on the wire: `system`, `user` or `assistant`.
pub fn role_name(role: Role) -> (r: &'static str)
    ensures
        r@ == role_text(role),
{
    match role {
        Role::System => "system",
        Role::User => "user",
        Role::Assistant => "assistant",
    }
}

impl Message {
    /// A message written by the user.
    pub fn user(content: &str) -> (r: Message)
        ensures
            r.role == Role::User,
            r.content@ == content@,
    {
        Message { role: Role::User, content: content.to_owned() }
    }
}

/// A request in the library's own format, before an adapter translates it.
/// `metadata` holds name / JSON-text pairs that travel with the request.
#[derive(Clone, Debug)]
pub struct RelayRequest {
    pub messages: Vec<Message>,
    pub model: String,
    pub max_output_tokens: Option<u32>,
    pub stream: bool,
    pub metadata: Vec<(String, String)>,
}

impl Default for RelayRequest {
    /// No messages, no model, no output limit, not streaming, no metadata.
    fn default() -> (r: RelayRequest)
        ensures
            r.messages@.len() == 0,
            r.model@.len() == 0,
            r.max_output_tokens is None,
            !r.stream,
            r.metadata@.len() == 0,
    {
        RelayRequest {
            messages: Vec::new(),
            model: String::new(),
            max_output_tokens: None,
            stream: false,
            metadata: Vec::new(),
        }
    }
}

/// Token counts a provider reports for one call.
#[derive(Clone, Copy, Debug, PartialEq, Eq)]
pub struct Usage {
    pub input_tokens: u64,
    pub output_tokens: u64,
}

/// A completed provider call. `raw` is a small JSON text with provider
/// bookkeeping (identifiers, stop reasons), never the generated text.
#[derive(Clone, Debug)]
pub struct RelayResponse {
    pub text: String,
    pub usage: Usage,
    pub model: String,
    pub latency_ms: u64,
    pub raw: String,
}

/// What an adapter can do.
#[derive(Clone, Copy, Debug, PartialEq, Eq, PartialOrd, Ord)]
pub enum Capability {
    Chat,
    Embed,
    Consensus,
}

/// A set of capabilities.
#[derive(Clone, Copy, Debug, PartialEq, Eq)]
pub struct CapabilitySet {
    chat: bool,
    embed: bool,
    consensus: bool,
}

impl View for CapabilitySet {
    type V = Set<Capability>;

    closed spec fn view(&self) -> Set<Capability> {
        Set::new(
            |c: Capability|
                match c {
                    Capability::Chat => self.chat,
                    Capability::Embed => self.embed,
                    Capability::Consensus => self.consensus,
                },
        )
    }
}

impl CapabilitySet {
    /// The empty set.
    pub fn new() -> (r: CapabilitySet)
        ensures
            r@ == Set::<Capability>::empty(),
    {
        let r = CapabilitySet { chat: false, embed: false, consensus: false };
        assert(r@ =~= Set::<Capability>::empty());
        r
    }

    /// Adds a capability.
    pub fn insert(&mut self, c: Capability)
        ensures
            final(self)@ == old(self)@.insert(c),
    {
        match c {
            Capability::Chat => self.chat = true,
            Capability::Embed => self.embed = true,
            Capability::Consensus => self.consensus = true,
        }
        assert(self@ =~= old(self)@.insert(c));
    }

    /// Whether a capability is in the set.
    pub fn contains(&self, c: &Capability) -> (r: bool)
        ensures
            r == self@.contains(*c),
    {
        match c {
            Capability::Chat => self.chat,
            Capability::Embed => self.embed,
            Capability::Consensus => self.consensus,
        }
    }
}

/// An estimate of the input tokens a request will use.
#[derive(Clone, Copy, Debug, PartialEq, Eq)]
pub struct TokenEstimate {
    pub input_tokens: u64,
}

} // verus!
