//! The command vocabulary shared by the client and the server, and the
//! client side: what a command line asks for, and how a command is relayed.
//!
//! The client does no I/O here. [`Command::execute`] says what is to be
//! done, the caller does it, and [`relay_result`] judges what came back.

use crate::primitives::{Address, U256};
use crate::server::{listen_address, start_server, Startup};
use crate::text::{decimal_digits, write_decimal};
use crate::wire::encode_text;
use vstd::prelude::*;
use vstd::string::*;

verus! {

/// One request to the simulation node.
#[derive(Clone, Debug, PartialEq, Eq)]
pub enum Command {
    /// Start the node and the command server. Only meaningful at launch.
    Server { fork_url: Option<String>, rpc_port: u16 },
    /// Move `amount` units of the token `asset` from `from` to `to`.
    TransferFrom { asset: Address, from: Address, to: Address, amount: U256 },
    /// Allow transactions to be sent as `who`.
    StartImpersonate { who: Address },
    /// Stop allowing transactions to be sent as `who`.
    StopImpersonate { who: Address },
    /// Set the native balance of `who` to `amount`, in the smallest unit.
    SetBalance { who: Address, amount: U256 },
}

/// What a [`Command`] says: addresses as their twenty bytes, amounts as
/// numbers, text as characters.
pub enum CommandModel {
    Server { fork_url: Option<Seq<char>>, rpc_port: u16 },
    TransferFrom { asset: Seq<u8>, from: Seq<u8>, to: Seq<u8>, amount: nat },
    StartImpersonate { who: Seq<u8> },
    StopImpersonate { who: Seq<u8> },
    SetBalance { who: Seq<u8>, amount: nat },
}

/// The characters of an optional string.
pub open spec fn text_model(text: Option<String>) -> Option<Seq<char>> {
    match text {
        Some(s) => Some(s@),
        None => None,
    }
}

impl View for Command {
    type V = CommandModel;

    open spec fn view(&self) -> CommandModel {
        match *self {
            Command::Server { fork_url, rpc_port } => CommandModel::Server {
                fork_url: text_model(fork_url),
                rpc_port,
            },
            Command::TransferFrom { asset, from, to, amount } => CommandModel::TransferFrom {
                asset: asset@,
                from: from@,
                to: to@,
                amount: amount@,
            },
            Command::StartImpersonate { who } => CommandModel::StartImpersonate { who: who@ },
            Command::StopImpersonate { who } => CommandModel::StopImpersonate { who: who@ },
            Command::SetBalance { who, amount } => CommandModel::SetBalance {
                who: who@,
                amount: amount@,
            },
        }
    }
}

impl CommandModel {
    /// Whether the model is that of some command: addresses of twenty
    /// bytes, amounts below two to the power 256.
    pub open spec fn valid(self) -> bool {
        match self {
            CommandModel::Server { .. } => true,
            CommandModel::TransferFrom { asset, from, to, amount } => {
                &&& asset.len() == 20
                &&& from.len() == 20
                &&& to.len() == 20
                &&& amount < crate::primitives::uint_limit()
            },
            CommandModel::StartImpersonate { who } => who.len() == 20,
            CommandModel::StopImpersonate { who } => who.len() == 20,
            CommandModel::SetBalance { who, amount } => {
                &&& who.len() == 20
                &&& amount < crate::primitives::uint_limit()
            },
        }
    }
}

impl Command {
    /// The model of every command is valid.
    pub proof fn lemma_valid(&self)
        ensures
            self@.valid(),
    {
        match *self {
            Command::TransferFrom { amount, .. } => amount.lemma_in_range(),
            Command::SetBalance { amount, .. } => amount.lemma_in_range(),
            _ => {},
        }
    }
}

/// The host of the command server where the command line names none.
pub const DEFAULT_HOST: &'static str = "127.0.0.1";

/// The port of the command server where the command line names none.
pub const DEFAULT_PORT: u16 = 3013;

/// The RPC port of the node where the command line names none.
pub const DEFAULT_RPC_PORT: u16 = 8080;

/// What the command line holds: a command, and the host and port of the
/// command server.
#[derive(Clone, Debug, PartialEq, Eq)]
pub struct Cli {
    pub subcmd: Command,
    pub host: String,
    pub port: u16,
}

/// An HTTP POST to make: where to, and with what body.
#[derive(Clone, Debug, PartialEq, Eq)]
pub struct Request {
    pub url: String,
    pub body: String,
}

/// What a command asks of the process that was given it.
#[derive(Debug, PartialEq, Eq)]
pub enum Action {
    /// Launch the node and serve commands.
    Serve(Startup),
    /// Relay the command to the running server.
    Send(Request),
}

/// How the address of the command endpoint begins.
pub const URL_SCHEME: &'static str = "http://";

/// The path of the command endpoint.
pub const COMMAND_PATH: &'static str = "/command";

/// The address of the command endpoint of the server at `host:port`.
pub open spec fn command_url(host: Seq<char>, port: u16) -> Seq<char> {
    URL_SCHEME@ + host + seq![':'] + decimal_digits(port as nat) + COMMAND_PATH@
}

/// The request that relays `command` to the server at `host:port`: a POST
/// of the command's wire form to the command endpoint.
pub fn run_request(host: String, port: u16, command: &Command) -> (request: Request)
    ensures
        request.url@ == command_url(host@, port),
        request.body@ == encode_text(command@),
{
    let mut url = String::from_str(URL_SCHEME);
    url.append(host.as_str());
    url.push(':');
    write_decimal(port as u64, &mut url);
    url.append(COMMAND_PATH);
    Request { url, body: command.encode() }
}

/// What the answer to a relayed command says.
#[derive(Clone, Debug, PartialEq, Eq)]
pub struct Reply {
    pub status: u16,
    pub body: String,
}

/// Why a relayed command failed.
#[derive(Clone, Debug, PartialEq, Eq)]
pub enum RelayError {
    /// The server could not be reached or the request could not be sent;
    /// holds the cause.
    Transport(String),
    /// The server answered with a status outside the success range; the
    /// body carries its message.
    HttpStatus { status: u16, body: String },
}

/// Whether an HTTP status is in the success range.
pub open spec fn is_success(status: u16) -> bool {
    200 <= status <= 299
}

/// Judges the one attempt that was made to relay a command: a transport
/// failure and a status outside the success range are errors, anything
/// else is success and the body is dropped.
pub fn relay_result(outcome: Result<Reply, String>) -> (r: Result<(), RelayError>)
    ensures
        match outcome {
            Err(cause) => r == Err::<(), RelayError>(RelayError::Transport(cause)),
            Ok(reply) => if is_success(reply.status) {
                r is Ok
            } else {
                r == Err::<(), RelayError>(
                    RelayError::HttpStatus { status: reply.status, body: reply.body },
                )
            },
        },
{
    match outcome {
        Err(cause) => Err(RelayError::Transport(cause)),
        Ok(reply) => {
            if 200 <= reply.status && reply.status <= 299 {
                Ok(())
            } else {
                Err(RelayError::HttpStatus { status: reply.status, body: reply.body })
            }
        },
    }
}

impl Command {
    /// What the command asks of the client: `Server` launches the node with
    /// the command endpoint on `host:port`; every other command is relayed
    /// to the server there.
    pub fn execute(self, host: String, port: u16) -> (action: Action)
        ensures
            match self {
                Command::Server { fork_url, rpc_port } => {
                    &&& action matches Action::Serve(startup)
                    &&& startup.node.port == rpc_port
                    &&& startup.node.eth_rpc_url == fork_url
                    &&& startup.listen@ == listen_address(host@, port)
                },
                _ => {
                    &&& action matches Action::Send(request)
                    &&& request.url@ == command_url(host@, port)
                    &&& request.body@ == encode_text(self@)
                },
            },
    {
        match self {
            Command::Server { fork_url, rpc_port } => Action::Serve(
                start_server(host, port, rpc_port, fork_url),
            ),
            other => Action::Send(run_request(host, port, &other)),
        }
    }
}

impl Cli {
    /// What the command line asks for: what its command asks, with its
    /// host and port.
    pub fn run(self) -> (action: Action)
        ensures
            match self.subcmd {
                Command::Server { fork_url, rpc_port } => {
                    &&& action matches Action::Serve(startup)
                    &&& startup.node.port == rpc_port
                    &&& startup.node.eth_rpc_url == fork_url
                    &&& startup.listen@ == listen_address(self.host@, self.port)
                },
                _ => {
                    &&& action matches Action::Send(request)
                    &&& request.url@ == command_url(self.host@, self.port)
                    &&& request.body@ == encode_text(self.subcmd@)
                },
            },
    {
        self.subcmd.execute(self.host, self.port)
    }
}

} // verus!
