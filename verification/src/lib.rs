//! Core of a state-sharing agent for a fleet of relays.
//!
//! Agents keep a connection to their relay and push changes to a catalog of
//! game servers; the relay turns the changes into statements for its
//! database. This library holds the parts that are pure computation, each
//! with its contract:
//!
//! - [`tokens`], [`endpoint`], [`ip`], [`icao`]: the values of the catalog
//!   and their texts, with the laws by which a text is read back as the
//!   value it was written from ([`round_trip`]);
//! - [`handshake`], [`framing`], [`error_code`]: the bytes on the wire and
//!   the codes with which a stream ends;
//! - [`write`], [`read`]: the statements that change the catalog and the
//!   rows that are read from it;
//! - [`client`], [`server`]: what each side of a connection does next,
//!   given what happened on the transport.

pub mod base64;
pub mod client;
pub mod endpoint;
pub mod error_code;
pub mod framing;
pub mod handshake;
pub mod icao;
pub mod ip;
pub mod read;
pub mod round_trip;
pub mod server;
pub mod text;
pub mod tokens;
pub mod write;
