//! Command relay and transaction construction for a local Ethereum
//! simulation node.
//!
//! A command line names a [`cmd::Command`]. One kind of command launches
//! the node and a command server; every other kind is relayed to that
//! server as an HTTP POST whose body is the command's wire form, and the
//! server carries it out as a sequence of calls on the simulation backend.
//!
//! The library holds everything of this that is decided or computed, and
//! does no I/O: the caller sends what [`cmd::Command::execute`] asks to be
//! sent, performs the backend calls that [`server::handle_request`] and
//! [`server::Pending::resume`] name, and hands back what came of them.
//!
//! - [`primitives`]: addresses and 256-bit amounts, and their text forms.
//! - [`cmd`]: the commands, and the client side of the relay.
//! - [`wire`]: the wire form of a command, written and read; [`json`] is
//!   the JSON text beneath it, and [`wire_laws`] what holds of the two.
//! - [`abi`]: the call data of an ERC-20 `transfer`.
//! - [`server`]: the launch, the dispatch of commands, and the responses.

pub mod abi;
pub mod cmd;
pub mod json;
pub mod primitives;
pub mod server;
pub mod text;
pub mod wire;
pub mod wire_laws;
