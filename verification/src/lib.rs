//! A bounded, reference-counted pool of language-server clients.
//!
//! The pool is a single-owner bookkeeping object: it decides which pooled
//! instance a caller shares, when a new server has to be launched, which idle
//! instance makes room for it, and when launches are retried. Launching a
//! server, talking to it and reading the clock are the host's business; the
//! host hands their results to the pool as plain values.

pub mod adapter;
pub mod capabilities;
pub mod config;
pub mod error;
pub mod init_params;
pub mod language;
pub mod laws;
pub mod model;
pub mod nixd;
pub mod pattern;
pub mod pool;
pub mod retry;
pub mod scoped;
pub mod text;
pub mod uri;
pub mod warm_up;

pub use adapter::{DefinitionPattern, LanguageAdapter, PatternType, SymbolKind};
pub use capabilities::CapabilitiesSummary;
pub use config::PoolConfig;
pub use error::{AttemptFailure, PoolError};
pub use init_params::{
    ClientCapabilities, ClientInfo, DocumentSymbolCapability, GotoCapability, InitParams,
    RegistrationCapability, TraceValue, WorkspaceFolder,
};
pub use language::{detect_language, get_language_id, Language};
pub use model::Acquisition;
pub use nixd::NixdAdapter;
pub use pool::{LspClientPool, PoolStats, PooledClient};
pub use retry::{backoff_millis, CreationAttempts, LaunchPlan, RetryDecision};
pub use scoped::ScopedClient;
pub use warm_up::{WarmUpReport, WarmUpStep};
