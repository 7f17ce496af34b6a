//! Heartsock: a small state-broadcast server core.
//!
//! One connected session at a time may claim the tracker role and publish
//! values (heart rate, battery level); every other session is told of each
//! change. The transport lives outside this crate: it reports connects,
//! received lines and disconnects, and delivers the replies handed back.
pub mod discovery;
pub mod laws;
pub mod protocol;
pub mod server;
pub mod session;
pub mod store;
pub mod text;

pub use discovery::MdnsService;
pub use protocol::{render_u8, Key, Reply};
pub use server::{HeartsockServer, Outbound, ServerError};
pub use session::{key_from_name, parse_lowered, HeartsockSession, Message, SessionID, TextOutcome};
pub use store::ValueStore;
pub use text::{chars_of, parse_u8, split_words};
