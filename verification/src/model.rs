//! The shared vocabulary of a generation call: messages, requests,
//! responses, stream chunks and token counts.

use crate::error::LLMError;
use crate::params::{ClampReport, ModelParameters};
use crate::string_map::StringMap;
use vstd::prelude::*;
use vstd::string::*;

verus! {

/// Who wrote a message.
#[derive(Debug, Clone, Copy, PartialEq, Eq, Structural)]
pub enum Role {
    User,
    Assistant,
    System,
}

/// Why generation ended. The set is closed: a new cause gets a new kind.
#[derive(Debug, Clone, Copy, PartialEq, Eq, Structural)]
pub enum FinishReason {
    /// The model stopped by itself or met a stop sequence.
    Stop,
    /// The token cap was reached.
    Length,
    /// The content filter cut the answer.
    ContentFilter,
    /// The model asked for a tool.
    ToolUse,
}

/// One turn of a conversation.
#[derive(Debug, Clone)]
pub struct LLMMessage {
    pub role: Role,
    pub content: String,
    pub metadata: Option<StringMap>,
}

/// Which operation of a provider a request calls for.
#[derive(Debug, Clone, Copy, PartialEq, Eq, Structural)]
pub enum Operation {
    /// One complete response.
    Generate,
    /// A sequence of chunks.
    GenerateStream,
}

/// A conversation to answer, with optional parameter overrides.
#[derive(Debug, Clone)]
pub struct LLMRequest {
    /// The history, oldest first. A valid request has at least one message.
    pub messages: Vec<LLMMessage>,
    pub parameters: Option<ModelParameters>,
    pub stream: bool,
}

impl LLMRequest {
    /// A request is structurally valid when its history is not empty.
    pub open spec fn well_formed(&self) -> bool {
        self.messages@.len() > 0
    }

    /// The operation that the streaming flag selects.
    pub open spec fn selected(&self) -> Operation {
        if self.stream {
            Operation::GenerateStream
        } else {
            Operation::Generate
        }
    }

    /// Accepts a request with at least one message and rejects an empty
    /// one as `InvalidConfig`.
    pub fn validate(&self) -> (res: Result<(), LLMError>)
        ensures
            res is Ok <==> self.well_formed(),
            res matches Err(e) ==> e matches LLMError::InvalidConfig(text) && text@
                == "request has no messages"@,
    {
        if self.messages.len() == 0 {
            Err(LLMError::InvalidConfig(String::from_str("request has no messages")))
        } else {
            Ok(())
        }
    }

    /// The operation to invoke for this request.
    pub fn operation(&self) -> (op: Operation)
        ensures
            op == self.selected(),
    {
        if self.stream {
            Operation::GenerateStream
        } else {
            Operation::Generate
        }
    }

    /// The same request with the streaming flag set to `stream`.
    pub fn with_stream(self, stream: bool) -> (req: LLMRequest)
        ensures
            req.messages == self.messages,
            req.parameters == self.parameters,
            req.stream == stream,
    {
        LLMRequest { messages: self.messages, parameters: self.parameters, stream }
    }
}

/// Token counts of one call. The total is always the sum of the other two.
#[derive(Debug, Clone, Copy, PartialEq, Eq)]
pub struct TokenUsage {
    prompt_tokens: u32,
    completion_tokens: u32,
    total_tokens: u32,
}

impl TokenUsage {
    #[verifier::type_invariant]
    spec fn total_is_sum(self) -> bool {
        self.total_tokens == self.prompt_tokens + self.completion_tokens
    }

    /// Tokens of the prompt.
    pub closed spec fn prompt(self) -> nat {
        self.prompt_tokens as nat
    }

    /// Tokens of the completion.
    pub closed spec fn completion(self) -> nat {
        self.completion_tokens as nat
    }

    /// Tokens in all.
    pub closed spec fn total(self) -> nat {
        self.total_tokens as nat
    }

    /// The usage with these two counts, unless their sum does not fit.
    pub fn new(prompt_tokens: u32, completion_tokens: u32) -> (usage: Option<TokenUsage>)
        ensures
            usage is Some <==> prompt_tokens + completion_tokens <= u32::MAX,
            usage matches Some(u) ==> u.prompt() == prompt_tokens && u.completion()
                == completion_tokens && u.total() == prompt_tokens + completion_tokens,
    {
        match prompt_tokens.checked_add(completion_tokens) {
            Some(total_tokens) => Some(TokenUsage { prompt_tokens, completion_tokens, total_tokens }),
            None => None,
        }
    }

    /// The usage with these three counts, if the total is the sum of the
    /// other two.
    pub fn from_counts(prompt_tokens: u32, completion_tokens: u32, total_tokens: u32) -> (usage:
        Option<TokenUsage>)
        ensures
            usage is Some <==> total_tokens == prompt_tokens + completion_tokens,
            usage matches Some(u) ==> u.prompt() == prompt_tokens && u.completion()
                == completion_tokens && u.total() == total_tokens,
    {
        match prompt_tokens.checked_add(completion_tokens) {
            Some(sum) => {
                if sum == total_tokens {
                    Some(TokenUsage { prompt_tokens, completion_tokens, total_tokens })
                } else {
                    None
                }
            },
            None => None,
        }
    }

    pub fn prompt_tokens(&self) -> (n: u32)
        ensures
            n == self.prompt(),
    {
        self.prompt_tokens
    }

    pub fn completion_tokens(&self) -> (n: u32)
        ensures
            n == self.completion(),
    {
        self.completion_tokens
    }

    /// The total, which is the sum of prompt and completion tokens for
    /// every usage that exists.
    pub fn total_tokens(&self) -> (n: u32)
        ensures
            n == self.total(),
            n == self.prompt() + self.completion(),
    {
        proof {
            use_type_invariant(self);
        }
        self.total_tokens
    }
}

/// A complete answer.
#[derive(Debug, Clone)]
pub struct LLMResponse {
    pub content: String,
    pub finish_reason: FinishReason,
    pub usage: TokenUsage,
    /// The model that answered, which may differ from the one asked for.
    pub model: String,
    pub metadata: Option<StringMap>,
}

impl LLMResponse {
    /// The metadata that a response carries, as a map; none is the empty
    /// map.
    pub open spec fn metadata_view(&self) -> Map<Seq<char>, Seq<char>> {
        match self.metadata {
            Some(m) => m@,
            None => Map::empty(),
        }
    }

    /// Reports clamped parameters through the response's metadata. A
    /// report that changed nothing leaves the response as it is; otherwise
    /// the metadata gains the report's entries and nothing else changes.
    pub fn with_report(self, report: &ClampReport) -> (r: LLMResponse)
        ensures
            r.content == self.content,
            r.finish_reason == self.finish_reason,
            r.usage == self.usage,
            r.model == self.model,
            report.unchanged() ==> r.metadata == self.metadata,
            !report.unchanged() ==> r.metadata is Some && r.metadata_view() == report.noted_in(
                self.metadata_view(),
            ),
    {
        if report.is_unchanged() {
            self
        } else {
            let mut metadata = match self.metadata {
                Some(m) => m,
                None => StringMap::new(),
            };
            report.record(&mut metadata);
            LLMResponse {
                content: self.content,
                finish_reason: self.finish_reason,
                usage: self.usage,
                model: self.model,
                metadata: Some(metadata),
            }
        }
    }
}

/// One increment of a streamed answer. Only the last chunk of a stream
/// carries a finish reason.
#[derive(Debug, Clone)]
pub struct LLMStreamChunk {
    pub delta: String,
    pub finish_reason: Option<FinishReason>,
    pub metadata: Option<StringMap>,
}

impl LLMStreamChunk {
    /// Whether this chunk ends its stream.
    pub open spec fn terminal(&self) -> bool {
        self.finish_reason is Some
    }

    /// Whether this chunk ends its stream.
    pub fn is_terminal(&self) -> (b: bool)
        ensures
            b == self.terminal(),
    {
        self.finish_reason.is_some()
    }
}

} // verus!
