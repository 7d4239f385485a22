use testnet::cmd::Command;
use testnet::primitives::{Address, U256};
use testnet::wire::DecodeError;

fn addr(byte: u8) -> Address {
    Address::new([byte; 20])
}

fn hex40(digit: char) -> String {
    let mut s = String::from("0x");
    for _ in 0..40 {
        s.push(digit);
    }
    s
}

fn samples() -> Vec<Command> {
    vec![
        Command::Server { fork_url: None, rpc_port: 8080 },
        Command::Server { fork_url: Some(String::from("http://localhost:8545")), rpc_port: 0 },
        Command::Server {
            fork_url: Some(String::from("a \"quoted\" \\ path\n\twith \u{1} controls \u{7f} é 😀")),
            rpc_port: 65535,
        },
        Command::TransferFrom {
            asset: addr(0x11),
            from: addr(0x22),
            to: addr(0xaa),
            amount: U256::from_u64(1000),
        },
        Command::TransferFrom {
            asset: addr(0),
            from: addr(0xff),
            to: addr(0x0f),
            amount: U256::from_be_bytes([0xff; 32]),
        },
        Command::StartImpersonate { who: addr(0x01) },
        Command::StopImpersonate { who: addr(0xfe) },
        Command::SetBalance { who: addr(0x42), amount: U256::from_u64(0) },
        Command::SetBalance { who: addr(0x42), amount: U256::from_u64(u64::MAX) },
    ]
}

#[test]
fn every_sample_reads_back_as_itself() {
    for command in samples() {
        let text = command.encode();
        assert_eq!(Command::decode(&text), Ok(command.clone()), "{}", text);
    }
}

#[test]
fn server_is_written_with_null_for_no_fork_url() {
    let command = Command::Server { fork_url: None, rpc_port: 8080 };
    assert_eq!(command.encode(), r#"{"Server":{"fork_url":null,"rpc_port":8080}}"#);
}

#[test]
fn server_is_written_with_its_fork_url() {
    let command =
        Command::Server { fork_url: Some(String::from("http://localhost:8545")), rpc_port: 3 };
    assert_eq!(
        command.encode(),
        r#"{"Server":{"fork_url":"http://localhost:8545","rpc_port":3}}"#
    );
}

#[test]
fn transfer_is_written_field_by_field() {
    let command = Command::TransferFrom {
        asset: addr(0x11),
        from: addr(0x22),
        to: addr(0xaa),
        amount: U256::from_u64(1000),
    };
    let expected = format!(
        r#"{{"TransferFrom":{{"asset":"{}","from":"{}","to":"{}","amount":"0x3e8"}}}}"#,
        hex40('1'),
        hex40('2'),
        hex40('a')
    );
    assert_eq!(command.encode(), expected);
}

#[test]
fn impersonation_commands_are_written_with_who() {
    let start = Command::StartImpersonate { who: addr(0xab) };
    let stop = Command::StopImpersonate { who: addr(0xab) };
    let who = "0xabababababababababababababababababababab";
    assert_eq!(start.encode(), format!(r#"{{"StartImpersonate":{{"who":"{}"}}}}"#, who));
    assert_eq!(stop.encode(), format!(r#"{{"StopImpersonate":{{"who":"{}"}}}}"#, who));
}

#[test]
fn set_balance_is_written_with_who_and_amount() {
    let command = Command::SetBalance { who: addr(0), amount: U256::from_u64(0) };
    assert_eq!(
        command.encode(),
        r#"{"SetBalance":{"who":"0x0000000000000000000000000000000000000000","amount":"0x0"}}"#
    );
}

#[test]
fn control_characters_are_escaped() {
    let command = Command::Server {
        fork_url: Some(String::from("\"\\\u{8}\u{c}\n\r\t\u{1}\u{1f} /")),
        rpc_port: 1,
    };
    assert_eq!(
        command.encode(),
        r#"{"Server":{"fork_url":"\"\\\b\f\n\r\t\u0001\u001f /","rpc_port":1}}"#
    );
}

#[test]
fn encoding_is_json_that_serde_json_reads() {
    for command in samples() {
        let text = command.encode();
        let value: serde_json::Value = serde_json::from_str(&text).expect(&text);
        let outer = value.as_object().expect("an object");
        assert_eq!(outer.len(), 1);
        let (tag, body) = outer.iter().next().unwrap();
        let body = body.as_object().expect("an object of fields");
        match &command {
            Command::Server { fork_url, rpc_port } => {
                assert_eq!(tag, "Server");
                assert_eq!(body.len(), 2);
                assert_eq!(body["rpc_port"].as_u64(), Some(*rpc_port as u64));
                match fork_url {
                    Some(url) => assert_eq!(body["fork_url"].as_str(), Some(url.as_str())),
                    None => assert!(body["fork_url"].is_null()),
                }
            }
            Command::TransferFrom { asset, from, to, amount } => {
                assert_eq!(tag, "TransferFrom");
                assert_eq!(body.len(), 4);
                assert_eq!(body["asset"].as_str(), Some(asset.to_text().as_str()));
                assert_eq!(body["from"].as_str(), Some(from.to_text().as_str()));
                assert_eq!(body["to"].as_str(), Some(to.to_text().as_str()));
                assert_eq!(body["amount"].as_str(), Some(amount.to_text().as_str()));
            }
            Command::StartImpersonate { who } => {
                assert_eq!(tag, "StartImpersonate");
                assert_eq!(body.len(), 1);
                assert_eq!(body["who"].as_str(), Some(who.to_text().as_str()));
            }
            Command::StopImpersonate { who } => {
                assert_eq!(tag, "StopImpersonate");
                assert_eq!(body.len(), 1);
                assert_eq!(body["who"].as_str(), Some(who.to_text().as_str()));
            }
            Command::SetBalance { who, amount } => {
                assert_eq!(tag, "SetBalance");
                assert_eq!(body.len(), 2);
                assert_eq!(body["who"].as_str(), Some(who.to_text().as_str()));
                assert_eq!(body["amount"].as_str(), Some(amount.to_text().as_str()));
            }
        }
    }
}

#[test]
fn what_serde_json_writes_is_read() {
    let mut fields = serde_json::Map::new();
    fields.insert(String::from("who"), serde_json::Value::String(hex40('7')));
    fields.insert(String::from("amount"), serde_json::Value::String(String::from("0x10")));
    let mut outer = serde_json::Map::new();
    outer.insert(String::from("SetBalance"), serde_json::Value::Object(fields));
    let compact = serde_json::to_string(&serde_json::Value::Object(outer.clone())).unwrap();
    let pretty = serde_json::to_string_pretty(&serde_json::Value::Object(outer)).unwrap();
    let expected = Command::SetBalance { who: addr(0x77), amount: U256::from_u64(16) };
    assert_eq!(Command::decode(&compact), Ok(expected.clone()));
    assert_eq!(Command::decode(&pretty), Ok(expected));
}

#[test]
fn white_space_between_tokens_is_passed_over() {
    let text = format!(
        " \t\r\n{{ \"StartImpersonate\" \n: {{ \"who\" : \"{}\" }} }} \n",
        hex40('3')
    );
    assert_eq!(Command::decode(&text), Ok(Command::StartImpersonate { who: addr(0x33) }));
}

#[test]
fn fields_are_read_in_any_order() {
    let text = format!(
        r#"{{"TransferFrom":{{"amount":"0x1","to":"{}","from":"{}","asset":"{}"}}}}"#,
        hex40('c'),
        hex40('b'),
        hex40('a')
    );
    assert_eq!(
        Command::decode(&text),
        Ok(Command::TransferFrom {
            asset: addr(0xaa),
            from: addr(0xbb),
            to: addr(0xcc),
            amount: U256::from_u64(1),
        })
    );
}

#[test]
fn members_that_name_no_field_are_passed_over() {
    let text = format!(
        r#"{{"StopImpersonate":{{"note":[1,-2.5e+3,{{"a":null,"b":[true,false,"x\u00e9"]}}],"who":"{}","asset":{{}},"amount":[]}}}}"#,
        hex40('4')
    );
    assert_eq!(Command::decode(&text), Ok(Command::StopImpersonate { who: addr(0x44) }));
}

#[test]
fn a_missing_fork_url_is_none() {
    assert_eq!(
        Command::decode(r#"{"Server":{"rpc_port":8080}}"#),
        Ok(Command::Server { fork_url: None, rpc_port: 8080 })
    );
}

#[test]
fn addresses_are_read_in_either_case_and_without_prefix() {
    let text = r#"{"StartImpersonate":{"who":"ABCDEFabcdef0123456789ABCDEFabcdef012345"}}"#;
    let who = Address::new([
        0xab, 0xcd, 0xef, 0xab, 0xcd, 0xef, 0x01, 0x23, 0x45, 0x67, 0x89, 0xab, 0xcd, 0xef, 0xab,
        0xcd, 0xef, 0x01, 0x23, 0x45,
    ]);
    assert_eq!(Command::decode(text), Ok(Command::StartImpersonate { who }));
    let upper = r#"{"StartImpersonate":{"who":"0XABCDEFabcdef0123456789ABCDEFabcdef012345"}}"#;
    assert_eq!(Command::decode(upper), Ok(Command::StartImpersonate { who }));
}

#[test]
fn amounts_are_read_as_numbers_and_numerals() {
    let who = hex40('0');
    for (amount, expected) in [
        ("1000", 1000u64),
        ("0", 0),
        ("18446744073709551615", u64::MAX),
        ("\"1000\"", 1000),
        ("\"0x3E8\"", 1000),
        ("\"0X3e8\"", 1000),
        ("\"0o1750\"", 1000),
        ("\"0b1111101000\"", 1000),
        ("\"1_000\"", 1000),
        ("\"\"", 0),
        ("\"0x\"", 0),
        ("\"00012\"", 12),
    ] {
        let text = format!(r#"{{"SetBalance":{{"who":"{}","amount":{}}}}}"#, who, amount);
        assert_eq!(
            Command::decode(&text),
            Ok(Command::SetBalance { who: addr(0), amount: U256::from_u64(expected) }),
            "{}",
            text
        );
    }
}

#[test]
fn the_largest_amount_is_read() {
    let mut numeral = String::from("0x");
    for _ in 0..64 {
        numeral.push('f');
    }
    let text = format!(r#"{{"SetBalance":{{"who":"{}","amount":"{}"}}}}"#, hex40('0'), numeral);
    assert_eq!(
        Command::decode(&text),
        Ok(Command::SetBalance { who: addr(0), amount: U256::from_be_bytes([0xff; 32]) })
    );
    let decimal = "115792089237316195423570985008687907853269984665640564039457584007913129639935";
    let text = format!(r#"{{"SetBalance":{{"who":"{}","amount":"{}"}}}}"#, hex40('0'), decimal);
    assert_eq!(
        Command::decode(&text),
        Ok(Command::SetBalance { who: addr(0), amount: U256::from_be_bytes([0xff; 32]) })
    );
}

#[test]
fn escapes_in_strings_are_read() {
    let text = r#"{"Server":{"fork_url":"\u0041\/\"\\\b\f\n\r\t\ud83d\ude00\u00E9","rpc_port":7}}"#;
    assert_eq!(
        Command::decode(text),
        Ok(Command::Server {
            fork_url: Some(String::from("A/\"\\\u{8}\u{c}\n\r\t😀é")),
            rpc_port: 7,
        })
    );
    let escaped_key = r#"{"Server":{"rpc_\u0070ort":7}}"#;
    assert_eq!(
        Command::decode(escaped_key),
        Ok(Command::Server { fork_url: None, rpc_port: 7 })
    );
}

#[test]
fn unknown_tags_are_refused() {
    for text in [
        r#"{"Mint":{"who":"0x0000000000000000000000000000000000000000"}}"#,
        r#"{"server":{"rpc_port":1}}"#,
        r#"{"":{}}"#,
        r#"{"Server ":{"rpc_port":1}}"#,
        r#"{"Mint":1}"#,
    ] {
        assert_eq!(Command::decode(text), Err(DecodeError::UnknownVariant), "{}", text);
    }
}

#[test]
fn malformed_bodies_are_refused_as_syntax() {
    let who = hex40('1');
    let texts = vec![
        String::new(),
        String::from("   "),
        String::from("null"),
        String::from("[]"),
        String::from("\"Server\""),
        String::from("{"),
        String::from("{}"),
        String::from("{\"Server\""),
        String::from("{\"Server\":"),
        String::from("{\"Server\":{"),
        String::from("{\"Server\":{\"rpc_port\":1}"),
        String::from("{\"Server\":{\"rpc_port\":1}} x"),
        String::from("{\"Server\":{\"rpc_port\":1}}{}"),
        String::from("{\"Server\":{\"rpc_port\":1},\"Server\":{\"rpc_port\":1}}"),
        String::from("{\"Server\":{\"rpc_port\":1,}}"),
        String::from("{\"Server\":{,\"rpc_port\":1}}"),
        String::from("{\"Server\":{\"rpc_port\" 1}}"),
        String::from("{\"Server\":{\"rpc_port\":01}}"),
        String::from("{\"Server\":{\"rpc_port\":1.}}"),
        String::from("{\"Server\":{\"rpc_port\":1e}}"),
        String::from("{\"Server\":{\"rpc_port\":+1}}"),
        String::from("{\"Server\":{\"rpc_port\":nul}}"),
        String::from("{\"Server\":{\"fork_url\":nulls,\"rpc_port\":1}}"),
        String::from("{\"Server\":{\"fork_url\":\"a\nb\",\"rpc_port\":1}}"),
        String::from("{\"Server\":{\"fork_url\":\"\\x\",\"rpc_port\":1}}"),
        String::from("{\"Server\":{\"fork_url\":\"\\u12\",\"rpc_port\":1}}"),
        String::from("{\"Server\":{\"fork_url\":\"\\ud83d\",\"rpc_port\":1}}"),
        String::from("{\"Server\":{\"fork_url\":\"\\ude00\",\"rpc_port\":1}}"),
        String::from("{\"Server\":{\"fork_url\":\"\\ud83d\\u0041\",\"rpc_port\":1}}"),
        String::from("{\"Server\":{\"fork_url\":\"unterminated,\"rpc_port\":1}}"),
        String::from("{\"Server\":{\"other\":[1,2,\"rpc_port\":1}}"),
        String::from("{\"Server\":{\"other\":{\"a\"},\"rpc_port\":1}}"),
        String::from("{'Server':{'rpc_port':1}}"),
        format!("{{\"StartImpersonate\":{{\"who\":\"{}\"", who),
    ];
    for text in texts {
        assert_eq!(Command::decode(&text), Err(DecodeError::Syntax), "{:?}", text);
    }
}

#[test]
fn values_of_the_wrong_type_are_refused() {
    let who = hex40('1');
    let texts = vec![
        String::from(r#"{"Server":[]}"#),
        String::from(r#"{"Server":"x"}"#),
        String::from(r#"{"Server":null}"#),
        String::from(r#"{"Server":8080}"#),
        String::from(r#"{"Server":{"rpc_port":"8080"}}"#),
        String::from(r#"{"Server":{"rpc_port":65536}}"#),
        String::from(r#"{"Server":{"rpc_port":-1}}"#),
        String::from(r#"{"Server":{"rpc_port":1.0}}"#),
        String::from(r#"{"Server":{"rpc_port":1e3}}"#),
        String::from(r#"{"Server":{"rpc_port":null}}"#),
        String::from(r#"{"Server":{"rpc_port":99999999999999999999999999}}"#),
        String::from(r#"{"Server":{"fork_url":17,"rpc_port":1}}"#),
        String::from(r#"{"Server":{"fork_url":true,"rpc_port":1}}"#),
        String::from(r#"{"StartImpersonate":{"who":"0x1234"}}"#),
        String::from(r#"{"StartImpersonate":{"who":"0xzz11111111111111111111111111111111111111"}}"#),
        String::from(r#"{"StartImpersonate":{"who":"0x11111111111111111111111111111111111111111"}}"#),
        String::from(r#"{"StartImpersonate":{"who":"0x0x11111111111111111111111111111111111111"}}"#),
        String::from(r#"{"StartImpersonate":{"who":null}}"#),
        String::from(r#"{"StartImpersonate":{"who":[17]}}"#),
        format!(r#"{{"SetBalance":{{"who":"{}","amount":"0xg"}}}}"#, who),
        format!(r#"{{"SetBalance":{{"who":"{}","amount":"-1"}}}}"#, who),
        format!(r#"{{"SetBalance":{{"who":"{}","amount":" 1"}}}}"#, who),
        format!(r#"{{"SetBalance":{{"who":"{}","amount":-1}}}}"#, who),
        format!(r#"{{"SetBalance":{{"who":"{}","amount":1.5}}}}"#, who),
        format!(r#"{{"SetBalance":{{"who":"{}","amount":18446744073709551616}}}}"#, who),
        format!(r#"{{"SetBalance":{{"who":"{}","amount":null}}}}"#, who),
        format!(
            r#"{{"SetBalance":{{"who":"{}","amount":"0x1{}"}}}}"#,
            who,
            "0".repeat(64)
        ),
        format!(
            r#"{{"SetBalance":{{"who":"{}","amount":"115792089237316195423570985008687907853269984665640564039457584007913129639936"}}}}"#,
            who
        ),
    ];
    for text in texts {
        assert_eq!(Command::decode(&text), Err(DecodeError::InvalidValue), "{}", text);
    }
}

#[test]
fn repeated_fields_are_refused() {
    let who = hex40('1');
    let text = format!(r#"{{"StartImpersonate":{{"who":"{}","who":"{}"}}}}"#, who, who);
    assert_eq!(Command::decode(&text), Err(DecodeError::DuplicateField));
    let text = r#"{"Server":{"fork_url":null,"fork_url":"x","rpc_port":1}}"#;
    assert_eq!(Command::decode(text), Err(DecodeError::DuplicateField));
    let text = r#"{"Server":{"rpc_port":1,"rpc_port":garbage"#;
    assert_eq!(Command::decode(text), Err(DecodeError::DuplicateField));
}

#[test]
fn missing_fields_are_refused() {
    let who = hex40('1');
    let texts = vec![
        String::from(r#"{"Server":{}}"#),
        String::from(r#"{"Server":{"fork_url":"x"}}"#),
        String::from(r#"{"StartImpersonate":{}}"#),
        String::from(r#"{"StopImpersonate":{ }}"#),
        String::from(r#"{"StopImpersonate":{"amount":"0x1"}}"#),
        format!(r#"{{"SetBalance":{{"who":"{}"}}}}"#, who),
        String::from(r#"{"SetBalance":{"amount":"0x1"}}"#),
        format!(r#"{{"TransferFrom":{{"asset":"{}","from":"{}","to":"{}"}}}}"#, who, who, who),
        format!(r#"{{"TransferFrom":{{"asset":"{}","from":"{}","amount":"0x1"}}}}"#, who, who),
    ];
    for text in texts {
        assert_eq!(Command::decode(&text), Err(DecodeError::MissingField), "{}", text);
    }
}

#[test]
fn the_first_thing_that_is_wrong_decides() {
    let text = r#"{"Mint" garbage"#;
    assert_eq!(Command::decode(text), Err(DecodeError::Syntax));
    let text = r#"{"Mint": garbage"#;
    assert_eq!(Command::decode(text), Err(DecodeError::UnknownVariant));
    let text = r#"{"Server":{"rpc_port":"x","rpc_port":1}}"#;
    assert_eq!(Command::decode(text), Err(DecodeError::InvalidValue));
    let text = r#"{"Server":{"rpc_port":70000} trailing"#;
    assert_eq!(Command::decode(text), Err(DecodeError::InvalidValue));
    let text = r#"{"Server":{"fork_url":null}} trailing"#;
    assert_eq!(Command::decode(text), Err(DecodeError::Syntax));
}

#[test]
fn values_nest_to_the_limit_and_no_deeper() {
    let who = hex40('1');
    let nested = |depth: usize| {
        format!(
            r#"{{"StartImpersonate":{{"x":{}{},"who":"{}"}}}}"#,
            "[".repeat(depth),
            "]".repeat(depth),
            who
        )
    };
    assert_eq!(Command::decode(&nested(128)), Ok(Command::StartImpersonate { who: addr(0x11) }));
    assert_eq!(Command::decode(&nested(129)), Err(DecodeError::Syntax));
}

#[test]
fn every_error_has_a_message() {
    let errors = [
        DecodeError::Syntax,
        DecodeError::UnknownVariant,
        DecodeError::InvalidValue,
        DecodeError::DuplicateField,
        DecodeError::MissingField,
    ];
    for (i, a) in errors.iter().enumerate() {
        assert!(!a.message().is_empty());
        for b in errors.iter().skip(i + 1) {
            assert_ne!(a.message(), b.message());
        }
    }
    assert_eq!(DecodeError::UnknownVariant.message(), "unknown command");
}

#[test]
fn bodies_are_read_as_utf8() {
    for command in samples() {
        let text = command.encode();
        assert_eq!(Command::decode_bytes(text.as_bytes()), Ok(command));
    }
    assert_eq!(
        Command::decode_bytes("{\"Server\":{\"fork_url\":\"é😀\",\"rpc_port\":1}}".as_bytes()),
        Ok(Command::Server { fork_url: Some(String::from("é😀")), rpc_port: 1 })
    );
    assert_eq!(Command::decode_bytes(b"{\"Mint\":{}}"), Err(DecodeError::UnknownVariant));
}

#[test]
fn bodies_that_are_not_utf8_are_refused() {
    let who = hex40('1');
    let mut body = format!(r#"{{"StartImpersonate":{{"who":"{}","x":""#, who).into_bytes();
    body.push(0xff);
    body.extend_from_slice(b"\"}}");
    assert_eq!(Command::decode_bytes(&body), Err(DecodeError::Syntax));
    assert_eq!(Command::decode_bytes(&[0xc3]), Err(DecodeError::Syntax));
    assert_eq!(Command::decode_bytes(&[0xed, 0xa0, 0x80]), Err(DecodeError::Syntax));
    assert_eq!(Command::decode_bytes(&[]), Err(DecodeError::Syntax));
}
