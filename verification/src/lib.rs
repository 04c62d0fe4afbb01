//! Mirrors ACP traffic to a dashboard without disturbing the agent it watches.
//!
//! The wrapper `acp-tap` stays deliberately dumb: it forwards bytes between an ACP
//! client and an ACP agent ([`pump`]), and mirrors each complete line to the
//! dashboard socket as a [`WireFrame`] ([`mirror`]). All interpretation happens in
//! the dashboard `acp-tapd` ([`parse`], [`state`], [`session`], [`viewer`]), so a
//! parsing bug can never break the agent it is watching.

pub mod clock;
pub mod defaults;
pub mod json;
pub mod laws;
pub mod message_laws;
pub mod mirror;
pub mod parse;
pub mod pump;
pub mod session;
pub mod state;
pub mod text;
pub mod viewer;
pub mod wire;

pub use clock::{epoch_millis, now_ms};
pub use defaults::{base_name, default_label, default_socket, exit_code};
pub use json::{parse_json, Json};
pub use mirror::{
    terminated, Mirror, MirrorAction, MirrorEvent, MirrorStep, MIRROR_QUEUE,
};
pub use parse::{parse_frame, read_message, PROMPT_BUDGET};
pub use pump::{Pump, PumpAction, PumpEvent};
pub use session::TapSession;
pub use state::{AppState, Broadcast, Snapshot};
pub use text::truncate;
pub use viewer::{Viewer, ViewerAction, ViewerEvent, ViewerStep};
pub use wire::{AgentSnapshot, Direction, EventKind, UiEvent, WireFrame};
