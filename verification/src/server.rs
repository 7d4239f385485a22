//! The server side: what to start at launch, and how each command becomes
//! a sequence of calls on the simulation backend.
//!
//! The backend is reached only through I/O, so a dispatch is a small state
//! machine. [`handle_command`] names the first call; the caller performs
//! it and hands the outcome to [`Pending::resume`], which names the next
//! call or the result of the whole command.

use crate::abi::{encode_transfer, transfer_call};
use crate::cmd::{Command, CommandModel};
use crate::primitives::{Address, U256};
use crate::text::{decimal_digits, write_decimal};
use crate::wire::{decode_body, DecodeError};
use vstd::prelude::*;
use vstd::string::*;

verus! {

/// The settings of the simulation node that this server chooses; every
/// other setting stays at the backend's default.
#[derive(Clone, Debug, PartialEq, Eq)]
pub struct NodeConfig {
    pub port: u16,
    pub eth_rpc_url: Option<String>,
}

/// The node settings for an RPC port and an optional upstream to fork.
pub fn node_config(port: u16, fork_url: Option<String>) -> (config: NodeConfig)
    ensures
        config.port == port,
        config.eth_rpc_url == fork_url,
{
    NodeConfig { port, eth_rpc_url: fork_url }
}

/// What launching the server consists of: the node to spawn and the
/// address on which to listen for commands.
#[derive(Clone, Debug, PartialEq, Eq)]
pub struct Startup {
    pub node: NodeConfig,
    pub listen: String,
}

/// The listening address `host:port`.
pub open spec fn listen_address(host: Seq<char>, port: u16) -> Seq<char> {
    host + seq![':'] + decimal_digits(port as nat)
}

/// Plans the launch: the node on `rpc_port`, forking `fork_url` if given,
/// and the command endpoint on `host:port`.
pub fn start_server(host: String, port: u16, rpc_port: u16, fork_url: Option<String>) -> (startup:
    Startup)
    ensures
        startup.node.port == rpc_port,
        startup.node.eth_rpc_url == fork_url,
        startup.listen@ == listen_address(host@, port),
{
    let mut listen = host;
    listen.push(':');
    write_decimal(port as u64, &mut listen);
    Startup { node: node_config(rpc_port, fork_url), listen }
}

/// An unsigned transaction: a destination and input data. Gas, nonce and
/// value are left to the backend.
#[derive(Clone, Debug, PartialEq, Eq)]
pub struct TransactionRequest {
    pub to: Address,
    pub input: Vec<u8>,
}

/// One operation asked of the backend.
#[derive(Clone, Debug, PartialEq, Eq)]
pub enum BackendCall {
    Impersonate(Address),
    StopImpersonating(Address),
    SetBalance(Address, U256),
    SendTransaction(TransactionRequest),
}

/// What a [`BackendCall`] says.
pub enum BackendCallModel {
    Impersonate(Seq<u8>),
    StopImpersonating(Seq<u8>),
    SetBalance(Seq<u8>, nat),
    SendTransaction { to: Seq<u8>, input: Seq<u8> },
}

impl View for BackendCall {
    type V = BackendCallModel;

    open spec fn view(&self) -> BackendCallModel {
        match *self {
            BackendCall::Impersonate(who) => BackendCallModel::Impersonate(who@),
            BackendCall::StopImpersonating(who) => BackendCallModel::StopImpersonating(who@),
            BackendCall::SetBalance(who, amount) => BackendCallModel::SetBalance(who@, amount@),
            BackendCall::SendTransaction(tx) => BackendCallModel::SendTransaction {
                to: tx.to@,
                input: tx.input@,
            },
        }
    }
}

/// Why a command failed on the server.
#[derive(Clone, Debug, PartialEq, Eq)]
pub enum ServerError {
    /// Any failure that has no kind of its own, by its message.
    Anyhow(String),
    /// A failure described by the server itself.
    String(String),
    /// The backend refused an operation; holds the backend's message.
    BlockchainError(String),
}

/// What a [`ServerError`] says.
pub enum ServerErrorModel {
    Anyhow(Seq<char>),
    String(Seq<char>),
    BlockchainError(Seq<char>),
}

impl View for ServerError {
    type V = ServerErrorModel;

    open spec fn view(&self) -> ServerErrorModel {
        match *self {
            ServerError::Anyhow(m) => ServerErrorModel::Anyhow(m@),
            ServerError::String(m) => ServerErrorModel::String(m@),
            ServerError::BlockchainError(m) => ServerErrorModel::BlockchainError(m@),
        }
    }
}

/// How the message of a failure without a backend cause begins.
pub const UNKNOWN_ERROR: &'static str = "An unknown error occurred while processing the request ";

/// How the message of a backend failure begins.
pub const BACKEND_ERROR: &'static str = "Backend Error ";

/// The message with which a `Server` command is refused once the server runs.
pub const UNSUPPORTED_SERVER: &'static str = "Unsupported command 'Server'";

impl ServerErrorModel {
    /// The message shown for the error.
    pub open spec fn message(self) -> Seq<char> {
        match self {
            ServerErrorModel::Anyhow(m) => UNKNOWN_ERROR@ + m,
            ServerErrorModel::String(m) => UNKNOWN_ERROR@ + m,
            ServerErrorModel::BlockchainError(m) => BACKEND_ERROR@ + m,
        }
    }
}

/// An HTTP response: a status code and a plain-text body.
#[derive(Clone, Debug, PartialEq, Eq)]
pub struct Response {
    pub status: u16,
    pub body: String,
}

impl ServerError {
    /// A failure described by the server itself.
    pub fn str_err(e: String) -> (err: ServerError)
        ensures
            err@ == ServerErrorModel::String(e@),
    {
        ServerError::String(e)
    }

    /// The message shown for the error.
    pub fn message(&self) -> (out: String)
        ensures
            out@ == self@.message(),
    {
        match self {
            ServerError::Anyhow(m) => {
                let mut out = String::from_str(UNKNOWN_ERROR);
                out.append(m.as_str());
                out
            },
            ServerError::String(m) => {
                let mut out = String::from_str(UNKNOWN_ERROR);
                out.append(m.as_str());
                out
            },
            ServerError::BlockchainError(m) => {
                let mut out = String::from_str(BACKEND_ERROR);
                out.append(m.as_str());
                out
            },
        }
    }

    /// The response for the error: status 500, whatever its kind, and the
    /// message as the body.
    pub fn into_response(self) -> (response: Response)
        ensures
            response.status == 500,
            response.body@ == self@.message(),
    {
        Response { status: 500, body: self.message() }
    }
}

/// The response for the outcome of a command: an empty 200 on success, the
/// error's response otherwise.
pub fn respond(outcome: Result<(), ServerError>) -> (response: Response)
    ensures
        match outcome {
            Ok(_) => response.status == 200 && response.body@ == Seq::<char>::empty(),
            Err(e) => response.status == 500 && response.body@ == e@.message(),
        },
{
    match outcome {
        Ok(_) => Response { status: 200, body: String::new() },
        Err(e) => e.into_response(),
    }
}

/// The status with which a body that is no command is answered: 400 where
/// it is not of the expected JSON shape, 422 where it is but names no
/// command or does not hold the command's fields.
pub open spec fn rejection_status(error: DecodeError) -> u16 {
    match error {
        DecodeError::Syntax => 400,
        _ => 422,
    }
}

/// The response for a body that is no command: the status of the error,
/// and its message as the body.
pub fn reject(error: DecodeError) -> (response: Response)
    ensures
        response.status == rejection_status(error),
        response.body@ == error.message_text(),
{
    let status: u16 = match error {
        DecodeError::Syntax => 400,
        _ => 422,
    };
    Response { status, body: error.message() }
}

/// The backend calls that a command stands for, in the order in which they
/// are made, or the error with which it is refused before any call.
pub open spec fn plan_of(command: CommandModel) -> Result<Seq<BackendCallModel>, ServerErrorModel> {
    match command {
        CommandModel::Server { .. } => Err(ServerErrorModel::String(UNSUPPORTED_SERVER@)),
        CommandModel::StartImpersonate { who } => Ok(seq![BackendCallModel::Impersonate(who)]),
        CommandModel::StopImpersonate { who } => Ok(
            seq![BackendCallModel::StopImpersonating(who)],
        ),
        CommandModel::SetBalance { who, amount } => Ok(
            seq![BackendCallModel::SetBalance(who, amount)],
        ),
        CommandModel::TransferFrom { asset, from, to, amount } => Ok(
            seq![
                BackendCallModel::Impersonate(from),
                BackendCallModel::SendTransaction { to: asset, input: transfer_call(to, amount) },
                BackendCallModel::StopImpersonating(from),
            ],
        ),
    }
}

/// A dispatch that waits for the outcome of a backend call.
#[derive(Clone, Copy, Debug, PartialEq, Eq)]
pub enum Pending {
    /// The outstanding call is the last of its command.
    Last,
    /// A transfer waits for the sender to be impersonated.
    Impersonating { asset: Address, from: Address, to: Address, amount: U256 },
    /// A transfer waits for its transaction to be accepted.
    Submitted { from: Address },
}

impl Pending {
    /// The calls still to be made once the outstanding one has succeeded.
    pub open spec fn remaining(self) -> Seq<BackendCallModel> {
        match self {
            Pending::Last => Seq::empty(),
            Pending::Impersonating { asset, from, to, amount } => seq![
                BackendCallModel::SendTransaction { to: asset@, input: transfer_call(to@, amount@) },
                BackendCallModel::StopImpersonating(from@),
            ],
            Pending::Submitted { from } => seq![BackendCallModel::StopImpersonating(from@)],
        }
    }
}

/// Where a dispatch stands: a call to make, or the command's result.
#[derive(Debug, PartialEq, Eq)]
pub enum Step {
    Call { call: BackendCall, then: Pending },
    Done(Result<(), ServerError>),
}

/// What a [`Step`] says: the call to make and the calls after it, or the
/// result.
pub enum StepModel {
    Call { call: BackendCallModel, rest: Seq<BackendCallModel> },
    Done(Result<(), ServerErrorModel>),
}

/// What the outcome of a command says.
pub open spec fn outcome_model(outcome: Result<(), ServerError>) -> Result<(), ServerErrorModel> {
    match outcome {
        Ok(_) => Ok(()),
        Err(e) => Err(e@),
    }
}

impl View for Step {
    type V = StepModel;

    open spec fn view(&self) -> StepModel {
        match *self {
            Step::Call { call, then } => StepModel::Call { call: call@, rest: then.remaining() },
            Step::Done(outcome) => StepModel::Done(outcome_model(outcome)),
        }
    }
}

/// The step that opens a plan: its first call, or its result where it has
/// no call to make.
pub open spec fn first_step(plan: Result<Seq<BackendCallModel>, ServerErrorModel>) -> StepModel {
    match plan {
        Err(e) => StepModel::Done(Err(e)),
        Ok(calls) => next_step(calls),
    }
}

/// The step that follows a successful call when `rest` is still to do.
pub open spec fn next_step(rest: Seq<BackendCallModel>) -> StepModel {
    if rest.len() == 0 {
        StepModel::Done(Ok(()))
    } else {
        StepModel::Call { call: rest[0], rest: rest.drop_first() }
    }
}

/// The step that follows the outcome of a call: on failure the command
/// ends with the backend's message and the calls in `rest` are not made.
pub open spec fn step_after(rest: Seq<BackendCallModel>, outcome: Result<(), Seq<char>>)
    -> StepModel {
    match outcome {
        Err(message) => StepModel::Done(Err(ServerErrorModel::BlockchainError(message))),
        Ok(_) => next_step(rest),
    }
}

/// What the outcome of a backend call says.
pub open spec fn call_outcome_model(outcome: Result<(), String>) -> Result<(), Seq<char>> {
    match outcome {
        Ok(_) => Ok(()),
        Err(m) => Err(m@),
    }
}

/// Begins the dispatch of a command. `Server` is refused without a call;
/// every other command opens with the first call of its plan.
pub fn handle_command(command: Command) -> (step: Step)
    ensures
        step@ == first_step(plan_of(command@)),
{
    match command {
        Command::Server { .. } => Step::Done(
            Err(ServerError::str_err(String::from_str(UNSUPPORTED_SERVER))),
        ),
        Command::StartImpersonate { who } => {
            let step = Step::Call { call: BackendCall::Impersonate(who), then: Pending::Last };
            assert(step@ == first_step(plan_of(command@))) by {
                assert(plan_of(command@)->Ok_0.drop_first() =~= Pending::Last.remaining());
            }
            step
        },
        Command::StopImpersonate { who } => {
            let step = Step::Call {
                call: BackendCall::StopImpersonating(who),
                then: Pending::Last,
            };
            assert(step@ == first_step(plan_of(command@))) by {
                assert(plan_of(command@)->Ok_0.drop_first() =~= Pending::Last.remaining());
            }
            step
        },
        Command::SetBalance { who, amount } => {
            let step = Step::Call {
                call: BackendCall::SetBalance(who, amount),
                then: Pending::Last,
            };
            assert(step@ == first_step(plan_of(command@))) by {
                assert(plan_of(command@)->Ok_0.drop_first() =~= Pending::Last.remaining());
            }
            step
        },
        Command::TransferFrom { asset, from, to, amount } => {
            let then = Pending::Impersonating { asset, from, to, amount };
            let step = Step::Call { call: BackendCall::Impersonate(from), then };
            assert(step@ == first_step(plan_of(command@))) by {
                assert(plan_of(command@)->Ok_0.drop_first() =~= then.remaining());
            }
            step
        },
    }
}

/// Begins the handling of a request body: a body that is no command is
/// answered at once and the backend is not touched; a command is
/// dispatched.
pub fn handle_request(body: &[u8]) -> (r: Result<Step, Response>)
    ensures
        match decode_body(body@) {
            Err(error) => {
                &&& r matches Err(response)
                &&& response.status == rejection_status(error)
                &&& response.body@ == error.message_text()
            },
            Ok(command) => {
                &&& r matches Ok(step)
                &&& step@ == first_step(plan_of(command))
            },
        },
{
    match Command::decode_bytes(body) {
        Err(error) => Err(reject(error)),
        Ok(command) => Ok(handle_command(command)),
    }
}

impl Pending {
    /// Continues a dispatch with the outcome of the outstanding call. A
    /// failure ends the command with the backend's message, and no further
    /// call is made: a transfer whose transaction is refused leaves its
    /// sender impersonated. A success leads to the next call, or to the
    /// command's success after the last one.
    pub fn resume(self, outcome: Result<(), String>) -> (step: Step)
        ensures
            step@ == step_after(self.remaining(), call_outcome_model(outcome)),
    {
        match outcome {
            Err(message) => Step::Done(Err(ServerError::BlockchainError(message))),
            Ok(_) => match self {
                Pending::Last => Step::Done(Ok(())),
                Pending::Impersonating { asset, from, to, amount } => {
                    let tx = TransactionRequest { to: asset, input: encode_transfer(&to, &amount) };
                    let then = Pending::Submitted { from };
                    let step = Step::Call { call: BackendCall::SendTransaction(tx), then };
                    assert(self.remaining().drop_first() =~= then.remaining());
                    step
                },
                Pending::Submitted { from } => {
                    let step = Step::Call {
                        call: BackendCall::StopImpersonating(from),
                        then: Pending::Last,
                    };
                    assert(self.remaining().drop_first() =~= Pending::Last.remaining());
                    step
                },
            },
        }
    }
}

/// The calls that are made when a dispatch standing at `step` meets
/// `outcomes`, the outcome of its first call first.
pub open spec fn calls_made(step: StepModel, outcomes: Seq<Result<(), Seq<char>>>) -> Seq<
    BackendCallModel,
>
    decreases outcomes.len(),
{
    match step {
        StepModel::Done(_) => Seq::empty(),
        StepModel::Call { call, rest } => if outcomes.len() == 0 {
            seq![call]
        } else {
            seq![call] + calls_made(step_after(rest, outcomes[0]), outcomes.drop_first())
        },
    }
}

/// The result that a dispatch standing at `step` reaches on `outcomes`, if
/// they take it that far.
pub open spec fn result_reached(step: StepModel, outcomes: Seq<Result<(), Seq<char>>>) -> Option<
    Result<(), ServerErrorModel>,
>
    decreases outcomes.len(),
{
    match step {
        StepModel::Done(result) => Some(result),
        StepModel::Call { call, rest } => if outcomes.len() == 0 {
            None
        } else {
            result_reached(step_after(rest, outcomes[0]), outcomes.drop_first())
        },
    }
}

/// Whether the first `n` of `outcomes` are all successes.
pub open spec fn all_succeed(outcomes: Seq<Result<(), Seq<char>>>, n: int) -> bool {
    forall|i: int| 0 <= i < n ==> (#[trigger] outcomes[i]) is Ok
}

/// A `Server` command is refused as unsupported, and no backend call is
/// made for it, whatever the backend would have answered.
pub proof fn lemma_server_makes_no_call(
    fork_url: Option<Seq<char>>,
    rpc_port: u16,
    outcomes: Seq<Result<(), Seq<char>>>,
)
    ensures
        first_step(plan_of(CommandModel::Server { fork_url, rpc_port })) == StepModel::Done(
            Err(ServerErrorModel::String(UNSUPPORTED_SERVER@)),
        ),
        calls_made(first_step(plan_of(CommandModel::Server { fork_url, rpc_port })), outcomes)
            == Seq::<BackendCallModel>::empty(),
        result_reached(first_step(plan_of(CommandModel::Server { fork_url, rpc_port })), outcomes)
            == Some(Err::<(), ServerErrorModel>(ServerErrorModel::String(UNSUPPORTED_SERVER@))),
{
}

/// While the backend succeeds, the calls of a plan are made in the plan's
/// order: after `outcomes.len()` successes, that many calls and the next
/// one have been made, and once every call has succeeded the command has
/// succeeded.
pub proof fn lemma_successes_follow_plan(
    calls: Seq<BackendCallModel>,
    outcomes: Seq<Result<(), Seq<char>>>,
)
    requires
        all_succeed(outcomes, outcomes.len() as int),
    ensures
        outcomes.len() < calls.len() ==> {
            &&& calls_made(next_step(calls), outcomes) == calls.take(outcomes.len() as int + 1)
            &&& result_reached(next_step(calls), outcomes) is None
        },
        outcomes.len() >= calls.len() ==> {
            &&& calls_made(next_step(calls), outcomes) == calls
            &&& result_reached(next_step(calls), outcomes) == Some(Ok::<(), ServerErrorModel>(()))
        },
    decreases outcomes.len(),
{
    if calls.len() == 0 {
        assert(calls_made(next_step(calls), outcomes) =~= calls);
    } else if outcomes.len() == 0 {
        assert(calls_made(next_step(calls), outcomes) =~= calls.take(1));
    } else {
        let rest = calls.drop_first();
        let later = outcomes.drop_first();
        assert(outcomes[0] is Ok);
        assert(all_succeed(later, later.len() as int)) by {
            assert forall|i: int| 0 <= i < later.len() implies (#[trigger] later[i]) is Ok by {
                assert(outcomes[i + 1] is Ok);
            }
        }
        lemma_successes_follow_plan(rest, later);
        assert(step_after(rest, outcomes[0]) == next_step(rest));
        if outcomes.len() < calls.len() {
            assert(seq![calls[0]] + rest.take(later.len() as int + 1) =~= calls.take(
                outcomes.len() as int + 1,
            ));
        } else {
            assert(seq![calls[0]] + rest =~= calls);
        }
    }
}

/// The first failure of the backend ends the command: the calls of the plan
/// up to and including the failing one have been made, none after it, and
/// the result is the backend's failure with its message.
pub proof fn lemma_failure_ends_dispatch(
    calls: Seq<BackendCallModel>,
    outcomes: Seq<Result<(), Seq<char>>>,
    failing: int,
)
    requires
        0 <= failing < calls.len(),
        failing < outcomes.len(),
        all_succeed(outcomes, failing),
        outcomes[failing] is Err,
    ensures
        calls_made(next_step(calls), outcomes) == calls.take(failing + 1),
        result_reached(next_step(calls), outcomes) == Some(
            Err::<(), ServerErrorModel>(
                ServerErrorModel::BlockchainError(outcomes[failing]->Err_0),
            ),
        ),
    decreases failing,
{
    let rest = calls.drop_first();
    let later = outcomes.drop_first();
    if failing == 0 {
        let ended = step_after(rest, outcomes[0]);
        assert(ended == StepModel::Done(
            Err(ServerErrorModel::BlockchainError(outcomes[0]->Err_0)),
        ));
        assert(result_reached(ended, later) == Some(
            Err::<(), ServerErrorModel>(ServerErrorModel::BlockchainError(outcomes[0]->Err_0)),
        ));
        assert(calls_made(ended, later) =~= Seq::<BackendCallModel>::empty());
        assert(calls_made(next_step(calls), outcomes) =~= calls.take(1));
    } else {
        assert(outcomes[0] is Ok);
        assert(all_succeed(later, failing - 1)) by {
            assert forall|i: int| 0 <= i < failing - 1 implies (#[trigger] later[i]) is Ok by {
                assert(outcomes[i + 1] is Ok);
            }
        }
        assert(later[failing - 1] == outcomes[failing]);
        lemma_failure_ends_dispatch(rest, later, failing - 1);
        assert(step_after(rest, outcomes[0]) == next_step(rest));
        assert(seq![calls[0]] + rest.take(failing) =~= calls.take(failing + 1));
    }
}

/// A transfer whose calls all succeed impersonates the sender, submits the
/// token's `transfer(to, amount)` to the asset, and stops impersonating the
/// sender, in this order, and then succeeds.
pub proof fn lemma_transfer_order(
    asset: Seq<u8>,
    from: Seq<u8>,
    to: Seq<u8>,
    amount: nat,
    outcomes: Seq<Result<(), Seq<char>>>,
)
    requires
        outcomes.len() >= 3,
        all_succeed(outcomes, outcomes.len() as int),
    ensures
        calls_made(
            first_step(plan_of(CommandModel::TransferFrom { asset, from, to, amount })),
            outcomes,
        ) == seq![
            BackendCallModel::Impersonate(from),
            BackendCallModel::SendTransaction { to: asset, input: transfer_call(to, amount) },
            BackendCallModel::StopImpersonating(from),
        ],
        result_reached(
            first_step(plan_of(CommandModel::TransferFrom { asset, from, to, amount })),
            outcomes,
        ) == Some(Ok::<(), ServerErrorModel>(())),
{
    let plan = plan_of(CommandModel::TransferFrom { asset, from, to, amount });
    lemma_successes_follow_plan(plan->Ok_0, outcomes);
}

/// A transfer whose transaction the backend refuses ends there: the sender
/// has been impersonated, the transaction has been submitted, and no call
/// is made to stop impersonating the sender. The result is the backend's
/// failure.
pub proof fn lemma_refused_transfer_stays_impersonated(
    asset: Seq<u8>,
    from: Seq<u8>,
    to: Seq<u8>,
    amount: nat,
    outcomes: Seq<Result<(), Seq<char>>>,
)
    requires
        outcomes.len() >= 2,
        outcomes[0] is Ok,
        outcomes[1] is Err,
    ensures
        calls_made(
            first_step(plan_of(CommandModel::TransferFrom { asset, from, to, amount })),
            outcomes,
        ) == seq![
            BackendCallModel::Impersonate(from),
            BackendCallModel::SendTransaction { to: asset, input: transfer_call(to, amount) },
        ],
        result_reached(
            first_step(plan_of(CommandModel::TransferFrom { asset, from, to, amount })),
            outcomes,
        ) == Some(
            Err::<(), ServerErrorModel>(ServerErrorModel::BlockchainError(outcomes[1]->Err_0)),
        ),
{
    let calls = plan_of(CommandModel::TransferFrom { asset, from, to, amount })->Ok_0;
    assert(all_succeed(outcomes, 1));
    lemma_failure_ends_dispatch(calls, outcomes, 1);
    assert(calls.take(2) =~= seq![
        BackendCallModel::Impersonate(from),
        BackendCallModel::SendTransaction { to: asset, input: transfer_call(to, amount) },
    ]);
}

/// A dispatch ends once every call of its plan has been answered,
/// whatever the answers are.
pub proof fn lemma_dispatch_ends(
    calls: Seq<BackendCallModel>,
    outcomes: Seq<Result<(), Seq<char>>>,
)
    requires
        outcomes.len() >= calls.len(),
    ensures
        result_reached(next_step(calls), outcomes) is Some,
    decreases calls.len(),
{
    if calls.len() > 0 {
        let rest = calls.drop_first();
        let later = outcomes.drop_first();
        if outcomes[0] is Ok {
            lemma_dispatch_ends(rest, later);
        } else {
            let ended = step_after(rest, outcomes[0]);
            assert(result_reached(ended, later) is Some);
        }
    }
}

/// Every command comes to a result within three backend calls, and no
/// command makes more: a backend that fails, as for an account that was
/// never impersonated, ends the command with that failure.
pub proof fn lemma_every_command_ends(
    command: CommandModel,
    outcomes: Seq<Result<(), Seq<char>>>,
)
    requires
        outcomes.len() >= 3,
    ensures
        result_reached(first_step(plan_of(command)), outcomes) is Some,
        calls_made(first_step(plan_of(command)), outcomes).len() <= 3,
{
    match plan_of(command) {
        Ok(calls) => {
            lemma_dispatch_ends(calls, outcomes);
            lemma_calls_within_plan(calls, outcomes);
        },
        Err(_) => {},
    }
}

/// No more calls are made than the plan holds.
pub proof fn lemma_calls_within_plan(
    calls: Seq<BackendCallModel>,
    outcomes: Seq<Result<(), Seq<char>>>,
)
    ensures
        calls_made(next_step(calls), outcomes).len() <= calls.len(),
    decreases outcomes.len(),
{
    if calls.len() > 0 && outcomes.len() > 0 {
        let rest = calls.drop_first();
        let later = outcomes.drop_first();
        if outcomes[0] is Ok {
            lemma_calls_within_plan(rest, later);
        } else {
            let ended = step_after(rest, outcomes[0]);
            assert(calls_made(ended, later).len() == 0);
        }
    }
}

} // verus!
