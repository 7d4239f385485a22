use testnet::abi::encode_transfer;
use testnet::cmd::Command;
use testnet::primitives::{Address, U256};
use testnet::server::{
    handle_command, handle_request, node_config, reject, respond, start_server, BackendCall,
    NodeConfig, Pending, Response, ServerError, Step, TransactionRequest,
};
use testnet::wire::DecodeError;

/// A backend that records what it is asked and keeps just enough state to
/// answer as a simulation node would.
struct Mock {
    calls: Vec<BackendCall>,
    impersonated: Vec<Address>,
    balances: Vec<(Address, U256)>,
    fail_at: Option<usize>,
    strict_stop: bool,
}

impl Mock {
    fn new() -> Mock {
        Mock {
            calls: Vec::new(),
            impersonated: Vec::new(),
            balances: Vec::new(),
            fail_at: None,
            strict_stop: false,
        }
    }

    fn failing_at(index: usize) -> Mock {
        let mut mock = Mock::new();
        mock.fail_at = Some(index);
        mock
    }

    fn balance(&self, who: Address) -> Option<U256> {
        self.balances.iter().rev().find(|(a, _)| *a == who).map(|(_, v)| *v)
    }

    fn perform(&mut self, call: BackendCall) -> Result<(), String> {
        let index = self.calls.len();
        self.calls.push(call.clone());
        if self.fail_at == Some(index) {
            return Err(format!("call {} refused", index));
        }
        match call {
            BackendCall::Impersonate(who) => {
                self.impersonated.push(who);
                Ok(())
            }
            BackendCall::StopImpersonating(who) => {
                match self.impersonated.iter().position(|a| *a == who) {
                    Some(at) => {
                        self.impersonated.remove(at);
                        Ok(())
                    }
                    None if self.strict_stop => Err(String::from("account not impersonated")),
                    None => Ok(()),
                }
            }
            BackendCall::SetBalance(who, amount) => {
                self.balances.push((who, amount));
                Ok(())
            }
            BackendCall::SendTransaction(_) => Ok(()),
        }
    }

    fn run(&mut self, command: Command) -> Result<(), ServerError> {
        let mut step = handle_command(command);
        loop {
            match step {
                Step::Done(result) => return result,
                Step::Call { call, then } => {
                    let outcome = self.perform(call);
                    step = then.resume(outcome);
                }
            }
        }
    }
}

fn addr(byte: u8) -> Address {
    Address::new([byte; 20])
}

fn transfer() -> Command {
    Command::TransferFrom {
        asset: addr(0x0a),
        from: addr(0x0b),
        to: addr(0x0c),
        amount: U256::from_u64(1000),
    }
}

#[test]
fn server_command_is_unsupported_and_touches_nothing() {
    let mut mock = Mock::new();
    let result = mock.run(Command::Server { fork_url: None, rpc_port: 8080 });
    assert_eq!(
        result,
        Err(ServerError::String(String::from("Unsupported command 'Server'")))
    );
    assert!(mock.calls.is_empty());
    let with_url = Command::Server { fork_url: Some(String::from("http://x")), rpc_port: 1 };
    assert_eq!(
        handle_command(with_url),
        Step::Done(Err(ServerError::String(String::from("Unsupported command 'Server'"))))
    );
}

#[test]
fn transfer_calls_the_backend_in_order() {
    let mut mock = Mock::new();
    assert_eq!(mock.run(transfer()), Ok(()));
    assert_eq!(
        mock.calls,
        vec![
            BackendCall::Impersonate(addr(0x0b)),
            BackendCall::SendTransaction(TransactionRequest {
                to: addr(0x0a),
                input: encode_transfer(&addr(0x0c), &U256::from_u64(1000)),
            }),
            BackendCall::StopImpersonating(addr(0x0b)),
        ]
    );
    assert!(mock.impersonated.is_empty());
}

#[test]
fn transfer_steps_one_call_at_a_time() {
    let step = handle_command(transfer());
    let then = match step {
        Step::Call { call, then } => {
            assert_eq!(call, BackendCall::Impersonate(addr(0x0b)));
            then
        }
        other => panic!("{:?}", other),
    };
    assert_eq!(
        then,
        Pending::Impersonating {
            asset: addr(0x0a),
            from: addr(0x0b),
            to: addr(0x0c),
            amount: U256::from_u64(1000),
        }
    );
    let then = match then.resume(Ok(())) {
        Step::Call { call: BackendCall::SendTransaction(tx), then } => {
            assert_eq!(tx.to, addr(0x0a));
            assert_eq!(tx.input.len(), 68);
            assert_eq!(&tx.input[0..4], &[0xa9, 0x05, 0x9c, 0xbb]);
            assert_eq!(&tx.input[16..36], &[0x0c; 20]);
            assert_eq!(&tx.input[66..68], &[0x03, 0xe8]);
            then
        }
        other => panic!("{:?}", other),
    };
    assert_eq!(then, Pending::Submitted { from: addr(0x0b) });
    let then = match then.resume(Ok(())) {
        Step::Call { call, then } => {
            assert_eq!(call, BackendCall::StopImpersonating(addr(0x0b)));
            then
        }
        other => panic!("{:?}", other),
    };
    assert_eq!(then, Pending::Last);
    assert_eq!(then.resume(Ok(())), Step::Done(Ok(())));
}

#[test]
fn a_refused_impersonation_ends_the_transfer() {
    let mut mock = Mock::failing_at(0);
    assert_eq!(
        mock.run(transfer()),
        Err(ServerError::BlockchainError(String::from("call 0 refused")))
    );
    assert_eq!(mock.calls, vec![BackendCall::Impersonate(addr(0x0b))]);
}

#[test]
fn a_refused_transaction_leaves_the_sender_impersonated() {
    let mut mock = Mock::failing_at(1);
    assert_eq!(
        mock.run(transfer()),
        Err(ServerError::BlockchainError(String::from("call 1 refused")))
    );
    assert_eq!(mock.calls.len(), 2);
    assert_eq!(mock.impersonated, vec![addr(0x0b)]);
}

#[test]
fn a_refused_stop_fails_the_transfer_after_three_calls() {
    let mut mock = Mock::failing_at(2);
    assert_eq!(
        mock.run(transfer()),
        Err(ServerError::BlockchainError(String::from("call 2 refused")))
    );
    assert_eq!(mock.calls.len(), 3);
}

#[test]
fn set_balance_is_what_a_balance_query_returns() {
    let mut mock = Mock::new();
    let who = addr(0x42);
    assert_eq!(mock.balance(who), None);
    let amount = U256::from_be_bytes([0x7f; 32]);
    assert_eq!(mock.run(Command::SetBalance { who, amount }), Ok(()));
    assert_eq!(mock.calls, vec![BackendCall::SetBalance(who, amount)]);
    assert_eq!(mock.balance(who), Some(amount));
    assert_eq!(mock.run(Command::SetBalance { who, amount: U256::from_u64(5) }), Ok(()));
    assert_eq!(mock.balance(who), Some(U256::from_u64(5)));
    assert_eq!(mock.balance(addr(0x43)), None);
}

#[test]
fn two_impersonations_interleaved_succeed_independently() {
    let mut mock = Mock::new();
    let first = handle_command(Command::StartImpersonate { who: addr(0xa1) });
    let second = handle_command(Command::StartImpersonate { who: addr(0xb2) });
    let (call_a, then_a) = match first {
        Step::Call { call, then } => (call, then),
        other => panic!("{:?}", other),
    };
    let (call_b, then_b) = match second {
        Step::Call { call, then } => (call, then),
        other => panic!("{:?}", other),
    };
    let outcome_b = mock.perform(call_b);
    let outcome_a = mock.perform(call_a);
    assert_eq!(then_a.resume(outcome_a), Step::Done(Ok(())));
    assert_eq!(then_b.resume(outcome_b), Step::Done(Ok(())));
    assert_eq!(mock.impersonated, vec![addr(0xb2), addr(0xa1)]);
}

#[test]
fn one_failing_impersonation_does_not_fail_the_other() {
    let mut mock = Mock::failing_at(0);
    assert_eq!(
        mock.run(Command::StartImpersonate { who: addr(0xa1) }),
        Err(ServerError::BlockchainError(String::from("call 0 refused")))
    );
    assert_eq!(mock.run(Command::StartImpersonate { who: addr(0xb2) }), Ok(()));
    assert_eq!(mock.impersonated, vec![addr(0xb2)]);
}

#[test]
fn stopping_an_account_never_impersonated_is_the_backends_answer() {
    let mut lenient = Mock::new();
    assert_eq!(lenient.run(Command::StopImpersonate { who: addr(9) }), Ok(()));
    assert_eq!(lenient.calls, vec![BackendCall::StopImpersonating(addr(9))]);
    let mut strict = Mock::new();
    strict.strict_stop = true;
    assert_eq!(
        strict.run(Command::StopImpersonate { who: addr(9) }),
        Err(ServerError::BlockchainError(String::from("account not impersonated")))
    );
}

#[test]
fn errors_are_shown_with_their_kind() {
    assert_eq!(
        ServerError::Anyhow(String::from("boom")).message(),
        "An unknown error occurred while processing the request boom"
    );
    assert_eq!(
        ServerError::String(String::from("boom")).message(),
        "An unknown error occurred while processing the request boom"
    );
    assert_eq!(
        ServerError::str_err(String::from("Unsupported command 'Server'")).message(),
        "An unknown error occurred while processing the request Unsupported command 'Server'"
    );
    assert_eq!(
        ServerError::BlockchainError(String::from("nonce too low")).message(),
        "Backend Error nonce too low"
    );
    assert_eq!(ServerError::BlockchainError(String::new()).message(), "Backend Error ");
}

#[test]
fn every_error_is_a_500_with_its_message() {
    for error in [
        ServerError::Anyhow(String::from("a")),
        ServerError::String(String::from("b")),
        ServerError::BlockchainError(String::from("c")),
    ] {
        let message = error.message();
        assert_eq!(error.clone().into_response(), Response { status: 500, body: message.clone() });
        assert_eq!(respond(Err(error)), Response { status: 500, body: message });
    }
}

#[test]
fn success_is_an_empty_200() {
    assert_eq!(respond(Ok(())), Response { status: 200, body: String::new() });
}

#[test]
fn bodies_that_are_no_command_are_rejected_without_a_call() {
    assert_eq!(
        handle_request(b"not json"),
        Err(Response { status: 400, body: DecodeError::Syntax.message() })
    );
    assert_eq!(
        handle_request(br#"{"Mint":{}}"#),
        Err(Response { status: 422, body: DecodeError::UnknownVariant.message() })
    );
    assert_eq!(
        handle_request(br#"{"StartImpersonate":{}}"#),
        Err(Response { status: 422, body: DecodeError::MissingField.message() })
    );
    assert_eq!(
        handle_request(&[0x7b, 0xff, 0x7d]),
        Err(Response { status: 400, body: DecodeError::Syntax.message() })
    );
    assert_eq!(reject(DecodeError::InvalidValue).status, 422);
    assert_eq!(reject(DecodeError::DuplicateField).status, 422);
    assert_eq!(reject(DecodeError::Syntax).status, 400);
    assert_eq!(reject(DecodeError::DuplicateField).body, DecodeError::DuplicateField.message());
}

#[test]
fn a_command_in_a_body_is_dispatched() {
    let body = Command::SetBalance { who: addr(1), amount: U256::from_u64(2) }.encode();
    assert_eq!(
        handle_request(body.as_bytes()),
        Ok(Step::Call {
            call: BackendCall::SetBalance(addr(1), U256::from_u64(2)),
            then: Pending::Last,
        })
    );
    let body = Command::Server { fork_url: None, rpc_port: 1 }.encode();
    assert_eq!(
        handle_request(body.as_bytes()),
        Ok(Step::Done(Err(ServerError::String(String::from("Unsupported command 'Server'")))))
    );
}

#[test]
fn node_config_holds_port_and_fork_url() {
    assert_eq!(node_config(8545, None), NodeConfig { port: 8545, eth_rpc_url: None });
    assert_eq!(
        node_config(1, Some(String::from("https://rpc.example"))),
        NodeConfig { port: 1, eth_rpc_url: Some(String::from("https://rpc.example")) }
    );
}

#[test]
fn startup_listens_on_host_and_port() {
    let startup = start_server(String::from("127.0.0.1"), 3013, 8080, None);
    assert_eq!(startup.listen, "127.0.0.1:3013");
    assert_eq!(startup.node, NodeConfig { port: 8080, eth_rpc_url: None });
    let startup = start_server(String::from("::1"), 0, 65535, Some(String::from("u")));
    assert_eq!(startup.listen, "::1:0");
    assert_eq!(startup.node, NodeConfig { port: 65535, eth_rpc_url: Some(String::from("u")) });
    let startup = start_server(String::from("h"), 65535, 0, None);
    assert_eq!(startup.listen, "h:65535");
}
