//! Token accounting for a session of cooperating agents, as a terminal UI
//! shows it, and the decision logic of the `wait_agent` tool.
//!
//! - [`tokens`]: token counters and their saturating arithmetic.
//! - [`agent`]: what is known of one agent thread; how cumulative usage
//!   reports are split by model without counting a snapshot twice.
//! - [`ledger`]: all agent threads of a session and how server notifications
//!   change them.
//! - [`dashboard`]: the usage dashboard of a root thread and its descendants.
//! - [`tracker`]: the application state around the ledger.
//! - [`wait`]: the `wait_agent` tool's timeouts, wake-ups and answers.
//! - [`keyed`], [`text`]: ordered key/value lists and text building.
pub mod agent;
pub mod dashboard;
pub mod keyed;
pub mod ledger;
pub mod text;
pub mod tokens;
pub mod tracker;
pub mod wait;

pub use agent::{AgentUsage, Turn, UNKNOWN};
pub use dashboard::{token_text, LineStyle, UsageLine};
pub use ledger::{Notification, SessionUsage, SpawnSource, ThreadInfo, UsageEvent};
pub use tokens::{usage, Tokens, UsageBreakdown};
pub use tracker::{App, ChatView, UsageOverlay};
pub use wait::{Handler, WaitAgentResult};
