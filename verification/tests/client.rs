use testnet::cmd::{
    relay_result, run_request, Action, Cli, Command, RelayError, Reply, Request, DEFAULT_HOST,
    DEFAULT_PORT, DEFAULT_RPC_PORT,
};
use testnet::primitives::{Address, U256};
use testnet::server::{NodeConfig, Startup};

fn start() -> Command {
    Command::StartImpersonate { who: Address::new([0x11; 20]) }
}

#[test]
fn requests_go_to_the_command_endpoint() {
    let request = run_request(String::from("127.0.0.1"), 3013, &start());
    assert_eq!(request.url, "http://127.0.0.1:3013/command");
    assert_eq!(
        request.body,
        r#"{"StartImpersonate":{"who":"0x1111111111111111111111111111111111111111"}}"#
    );
    assert_eq!(run_request(String::from("node.local"), 80, &start()).url, "http://node.local:80/command");
    assert_eq!(run_request(String::from("h"), 0, &start()).url, "http://h:0/command");
    assert_eq!(run_request(String::from("h"), 65535, &start()).url, "http://h:65535/command");
    assert_eq!(run_request(String::new(), 10, &start()).url, "http://:10/command");
}

#[test]
fn the_body_is_the_wire_form_of_the_command() {
    let command = Command::SetBalance {
        who: Address::new([0x22; 20]),
        amount: U256::from_u64(255),
    };
    let request = run_request(String::from("h"), 1, &command);
    assert_eq!(request.body, command.encode());
    assert_eq!(Command::decode(&request.body), Ok(command));
}

#[test]
fn server_command_launches() {
    let command = Command::Server { fork_url: Some(String::from("http://up")), rpc_port: 8080 };
    assert_eq!(
        command.execute(String::from("127.0.0.1"), 3013),
        Action::Serve(Startup {
            node: NodeConfig { port: 8080, eth_rpc_url: Some(String::from("http://up")) },
            listen: String::from("127.0.0.1:3013"),
        })
    );
}

#[test]
fn every_other_command_is_relayed() {
    let who = Address::new([0x33; 20]);
    for command in [
        Command::StartImpersonate { who },
        Command::StopImpersonate { who },
        Command::SetBalance { who, amount: U256::from_u64(1) },
        Command::TransferFrom { asset: who, from: who, to: who, amount: U256::from_u64(2) },
    ] {
        let body = command.encode();
        assert_eq!(
            command.execute(String::from("localhost"), 4000),
            Action::Send(Request { url: String::from("http://localhost:4000/command"), body })
        );
    }
}

#[test]
fn the_command_line_runs_its_command() {
    let cli = Cli { subcmd: start(), host: String::from("127.0.0.1"), port: 3013 };
    assert_eq!(
        cli.run(),
        Action::Send(Request {
            url: String::from("http://127.0.0.1:3013/command"),
            body: start().encode(),
        })
    );
    let cli = Cli {
        subcmd: Command::Server { fork_url: None, rpc_port: 8080 },
        host: String::from("0.0.0.0"),
        port: 9,
    };
    assert_eq!(
        cli.run(),
        Action::Serve(Startup {
            node: NodeConfig { port: 8080, eth_rpc_url: None },
            listen: String::from("0.0.0.0:9"),
        })
    );
}

#[test]
fn an_unreachable_server_is_a_transport_error() {
    assert_eq!(
        relay_result(Err(String::from("connection refused"))),
        Err(RelayError::Transport(String::from("connection refused")))
    );
}

#[test]
fn statuses_outside_the_success_range_are_errors() {
    for status in [0u16, 100, 199, 300, 301, 400, 404, 422, 499, 500, 503, 599, 600, 65535] {
        let body = String::from("Backend Error nope");
        assert_eq!(
            relay_result(Ok(Reply { status, body: body.clone() })),
            Err(RelayError::HttpStatus { status, body }),
            "{}",
            status
        );
    }
}

#[test]
fn statuses_in_the_success_range_are_success() {
    for status in [200u16, 201, 204, 250, 299] {
        assert_eq!(
            relay_result(Ok(Reply { status, body: String::from("ignored") })),
            Ok(()),
            "{}",
            status
        );
    }
}

#[test]
fn defaults_point_at_the_local_server() {
    assert_eq!(DEFAULT_HOST, "127.0.0.1");
    assert_eq!(DEFAULT_PORT, 3013);
    assert_eq!(DEFAULT_RPC_PORT, 8080);
    let request = run_request(String::from(DEFAULT_HOST), DEFAULT_PORT, &start());
    assert_eq!(request.url, "http://127.0.0.1:3013/command");
}
