//! The logic of the ArchAstro Rust SDK, verified: typed HTTP requests, session
//! handling with single-flight token refresh, Server-Sent Events, and Phoenix
//! channels.
//!
//! The library computes and decides. It opens no connection and waits for
//! nothing: whoever drives it moves bytes and tells it what happened.
//!
//! - [`client`] builds clients, holds their credentials, and renews them.
//! - [`http`] puts requests together and reads responses.
//! - [`sse`] types what an event source hands over.
//! - [`builder`], [`channel`] and [`phoenix`] are the Phoenix socket: its
//!   configuration, the state of the socket with its channels, and the wire
//!   protocol.
//! - [`endpoint`], [`headers`], [`json`], [`session`], [`stream`], [`table`]
//!   and [`text`] hold what the others are made of.
//! - [`client_laws`], [`http_laws`], [`socket_laws`], [`join_laws`],
//!   [`endpoint_laws`] and [`json_laws`] state what calls come to, one after
//!   another; [`channel_laws`] and [`push_laws`] what holds whatever happens to a
//!   socket.

pub mod blocking;
pub mod builder;
pub mod channel;
pub mod channel_laws;
pub mod client;
pub mod client_laws;
pub mod endpoint;
pub mod endpoint_laws;
pub mod error;
pub mod headers;
pub mod http;
pub mod http_laws;
pub mod join_laws;
pub mod json;
pub mod json_laws;
pub mod phoenix;
pub mod push_laws;
pub mod session;
pub mod socket_laws;
pub mod sse;
pub mod stream;
pub mod table;
pub mod text;

pub use builder::SocketBuilder;
pub use channel::{Channel, Socket};
pub use client::{Client, ClientBuilder};
pub use endpoint::encode_path;
pub use error::{ApiError, ChannelError, Error};
pub use http::{RawResponse, RequestBuilder};
pub use json::Json;
pub use phoenix::{ChannelState, SocketEvent};
pub use session::AppSession;
