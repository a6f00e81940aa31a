//! Core of a line-oriented chat relay: the message model and its one-line
//! text, the shared history and its persisted text, the rules of one
//! connection, and an account store for a future login step.

mod text;
pub mod message;
pub mod codec;
pub mod history;
pub mod session;
pub mod auth;
pub mod screen;

pub use message::{ChatMessage, MessageType, create_msg, create_msg_at, create_sys_msg, clock_text};
pub use codec::{serialize, deserialize, MalformedMessage};
pub use history::{History, HistoryLoadError, REPLAY_COUNT};
pub use session::{Session, Phase, Event, Action};
pub use auth::{Auth, AuthError, UserAuth};
pub use screen::App;
pub use text::diff;
