use testnet::primitives::{Address, U256};

#[test]
fn addresses_are_written_in_lower_case_with_prefix() {
    let mut bytes = [0u8; 20];
    for (i, b) in bytes.iter_mut().enumerate() {
        *b = (i * 13 + 0xa0) as u8;
    }
    let address = Address::new(bytes);
    let text = address.to_text();
    assert_eq!(text, "0xa0adbac7d4e1eefb0815222f3c495663707d8a97");
    assert_eq!(text, format!("{:#x}", alloy_primitives::Address::new(bytes)));
    assert_eq!(Address::from_text(&text), Some(address));
}

#[test]
fn addresses_are_read_from_hex_of_either_case() {
    let expected = Address::new([0xab; 20]);
    assert_eq!(Address::from_text("0xabababababababababababababababababababab"), Some(expected));
    assert_eq!(Address::from_text("0XABABABABABABABABABABABABABABABABABABABAB"), Some(expected));
    assert_eq!(Address::from_text("AbAbAbAbAbAbAbAbAbAbAbAbAbAbAbAbAbAbAbAb"), Some(expected));
}

#[test]
fn addresses_of_the_wrong_shape_are_not_read() {
    for text in [
        "",
        "0x",
        "0xabab",
        "0xabababababababababababababababababababa",
        "0xababababababababababababababababababababa",
        "0xabababababababababababababababababababab00",
        "0xgbabababababababababababababababababababab",
        " 0xabababababababababababababababababababab",
        "0x0xababababababababababababababababababab",
        "0oabababababababababababababababababababab",
        "éééééééééééééééééééé",
    ] {
        assert_eq!(Address::from_text(text), None, "{:?}", text);
    }
}

#[test]
fn amounts_are_written_as_the_shortest_numeral() {
    assert_eq!(U256::from_u64(0).to_text(), "0x0");
    assert_eq!(U256::from_u64(1).to_text(), "0x1");
    assert_eq!(U256::from_u64(15).to_text(), "0xf");
    assert_eq!(U256::from_u64(16).to_text(), "0x10");
    assert_eq!(U256::from_u64(1000).to_text(), "0x3e8");
    assert_eq!(U256::from_u64(0x0123_4567_89ab_cdef).to_text(), "0x123456789abcdef");
    assert_eq!(U256::from_u64(u64::MAX).to_text(), "0xffffffffffffffff");
    assert_eq!(U256::from_be_bytes([0xff; 32]).to_text(), format!("0x{}", "f".repeat(64)));
    let mut bytes = [0u8; 32];
    bytes[0] = 0x01;
    assert_eq!(U256::from_be_bytes(bytes).to_text(), format!("0x1{}", "0".repeat(62)));
    bytes[0] = 0x10;
    assert_eq!(U256::from_be_bytes(bytes).to_text(), format!("0x10{}", "0".repeat(62)));
}

#[test]
fn amounts_are_written_as_alloy_writes_them() {
    for value in [0u64, 1, 9, 10, 255, 256, 1000, 65535, 1 << 40, u64::MAX] {
        let ours = U256::from_u64(value);
        let theirs = alloy_primitives::U256::from(value);
        assert_eq!(ours.to_text(), format!("{:#x}", theirs));
        assert_eq!(ours.be_bytes, theirs.to_be_bytes::<32>());
    }
}

#[test]
fn amounts_from_u64_are_big_endian() {
    let v = U256::from_u64(0x0102_0304_0506_0708);
    let mut expected = [0u8; 32];
    expected[24..].copy_from_slice(&[1, 2, 3, 4, 5, 6, 7, 8]);
    assert_eq!(v.be_bytes, expected);
    assert_eq!(U256::from_u64(0).be_bytes, [0u8; 32]);
    assert_eq!(U256::from_be_bytes(expected), v);
}

#[test]
fn amounts_are_read_in_four_radixes() {
    let thousand = Some(U256::from_u64(1000));
    assert_eq!(U256::from_text("1000"), thousand);
    assert_eq!(U256::from_text("0x3e8"), thousand);
    assert_eq!(U256::from_text("0X3E8"), thousand);
    assert_eq!(U256::from_text("0o1750"), thousand);
    assert_eq!(U256::from_text("0O1750"), thousand);
    assert_eq!(U256::from_text("0b1111101000"), thousand);
    assert_eq!(U256::from_text("0B11_1110_1000"), thousand);
    assert_eq!(U256::from_text("1_000"), thousand);
    assert_eq!(U256::from_text("0001000"), thousand);
    assert_eq!(U256::from_text(""), Some(U256::from_u64(0)));
    assert_eq!(U256::from_text("_"), Some(U256::from_u64(0)));
    assert_eq!(U256::from_text("0x"), Some(U256::from_u64(0)));
    assert_eq!(U256::from_text("0"), Some(U256::from_u64(0)));
}

#[test]
fn amounts_that_are_no_numeral_or_too_large_are_not_read() {
    let too_large_hex = format!("0x1{}", "0".repeat(64));
    let too_large_decimal =
        "115792089237316195423570985008687907853269984665640564039457584007913129639936";
    for text in [
        "-1",
        "+1",
        " 1",
        "1 ",
        "1.0",
        "0xg",
        "0o8",
        "0b2",
        "12a",
        "0x0x1",
        "é",
        too_large_hex.as_str(),
        too_large_decimal,
    ] {
        assert_eq!(U256::from_text(text), None, "{:?}", text);
    }
    let largest = "115792089237316195423570985008687907853269984665640564039457584007913129639935";
    assert_eq!(U256::from_text(largest), Some(U256::from_be_bytes([0xff; 32])));
    let padded = format!("0x000{}", "f".repeat(64));
    assert_eq!(U256::from_text(&padded), Some(U256::from_be_bytes([0xff; 32])));
}

#[test]
fn text_forms_read_back() {
    for value in [0u64, 1, 15, 16, 255, 4096, u64::MAX] {
        let amount = U256::from_u64(value);
        assert_eq!(U256::from_text(&amount.to_text()), Some(amount));
    }
    let mut bytes = [0u8; 32];
    for (i, b) in bytes.iter_mut().enumerate() {
        *b = (i * 7) as u8;
    }
    let amount = U256::from_be_bytes(bytes);
    assert_eq!(U256::from_text(&amount.to_text()), Some(amount));
    let mut text = String::from("prefix:");
    amount.write_text(&mut text);
    assert_eq!(text, format!("prefix:{}", amount.to_text()));
    let address = Address::new([0x5a; 20]);
    let mut text = String::from("to=");
    address.write_text(&mut text);
    assert_eq!(text, "to=0x5a5a5a5a5a5a5a5a5a5a5a5a5a5a5a5a5a5a5a5a");
}
