//! Codec for the serial text protocol of the 30XX weighing terminals
//! ("EDV Standard" frames).
//!
//! Inbound, a line of text is read as a [`Response`]: a control code or a
//! [`Message`] with its [`Status`], balance id and [`Weight`]. Outbound, a
//! [`Command`] or a [`Query`], plain or [`WithAck`], is rendered as the text
//! that the terminal expects.

pub mod command;
pub mod error;
pub mod message;
pub mod number;
pub mod response;
pub mod status;
pub mod text;
pub mod weight;

pub use command::{Command, Query, ToAsciiString, WithAck};
pub use error::Error;
pub use message::Message;
pub use response::Response;
pub use status::{bool_from_str, Status};
pub use weight::Weight;
