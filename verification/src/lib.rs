//! A harness for running a payjoin over serial links: a length-prefixed
//! framing with a checksum, the sender and receiver roles that a board plays
//! over any byte transport, and the host that relays frames between boards.
//!
//! - [`crc`] and [`proto`]: the checksum and the framing; [`proto_laws`] holds
//!   what is proved of them as a whole.
//! - [`transport`] and [`device`]: the link of a board, and the reading and
//!   writing of frames over it.
//! - [`bip78`] and [`roles`]: the calls into the payjoin crates, and the roles
//!   built on them.
//! - [`args`], [`host`] and [`relay`]: the host's command line, its framed
//!   ports, and what it orchestrates.
//! - [`text`]: numbers and bytes as text.
//! - [`device_laws`], [`role_laws`], [`args_laws`], [`relay_laws`] and
//!   [`text_laws`]: what is proved of each of these, told by what goes in and what
//!   comes out.
//! - [`session_laws`]: what is proved of links, boards and the host together.

pub mod args;
pub mod args_laws;
pub mod bip78;
pub mod crc;
pub mod device;
pub mod device_laws;
pub mod host;
pub mod proto;
pub mod proto_laws;
pub mod relay;
pub mod relay_laws;
pub mod role_laws;
pub mod roles;
pub mod session_laws;
pub mod text;
pub mod text_laws;
pub mod transport;
