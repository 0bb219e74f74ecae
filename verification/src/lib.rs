//! A provider-neutral core for text-generation backends, verified with
//! Verus.
//!
//! - `model`, `params`, `string_map`: the data that callers and backends
//!   exchange.
//! - `error`: the closed vocabulary of failures.
//! - `config`: checking a configuration and settling its deployment mode.
//! - `retry`: when a failed attempt is made again.
//! - `stream`, `chunks`, `resequence`: how a streamed answer proceeds, what
//!   complete response it stands for, and how chunks that arrive out of
//!   order are put back in order.
//! - `text`: numbers as text, for metadata.
//!
//! Nothing here awaits, sleeps or talks to a network. Where outside work
//! and decisions alternate, the decisions are functions from a state and
//! an event to the next state and an action, and the caller does the work.

pub mod chunks;
pub mod config;
pub mod error;
pub mod model;
pub mod params;
pub mod resequence;
pub mod retry;
pub mod stream;
pub mod string_map;
pub mod text;

pub use chunks::{assemble, into_chunks};
pub use config::{
    resolve, ConfigFault, DeploymentMode, LLMProviderConfig, LLMProviderType, ResolvedConfiguration,
};
pub use error::LLMError;
pub use model::{
    FinishReason, LLMMessage, LLMRequest, LLMResponse, LLMStreamChunk, Operation, Role, TokenUsage,
};
pub use params::{ClampReport, ModelParameters, ParameterBounds};
pub use resequence::{resequence, Resequencer};
pub use retry::{RetryState, RetryStep};
pub use stream::{StreamAction, StreamEvent, StreamPhase, StreamState};
pub use string_map::StringMap;
