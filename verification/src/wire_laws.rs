//! What holds of the wire form: the wire form of every command reads back
//! as that command, and a text that is read as a command is a JSON document
//! whose outer key names the command's kind.

use crate::cmd::CommandModel;
use crate::json::numbers::{
    decimal_value, digit_run, exponent_len, fraction_len, integer_len, is_digit, number_len,
    unsigned_value,
};
use crate::json::strings::{
    escape_text, lemma_string_round_trip, string_body, string_literal, string_rest, text_value,
    unescape,
};
use crate::json::values::{key_and_value, members_rest, value_rest, NESTING_LIMIT};
use crate::json::{closing, following, has_prefix, is_space, trim_start};
use crate::primitives::{
    address_text, lemma_address_text_round_trip, lemma_uint_text_round_trip, uint_limit,
    uint_text,
};
use crate::text::{decimal_digits, digit_char};
use crate::wire::{
    address_json, address_value, amount_json, amount_value, and_then, assemble, belongs,
    body_text, closed, decode_text, encode_text, ends_well, field_name, field_named, field_of,
    fields_read, fork_url_json, fork_url_value, kind_name, kind_of, kind_of_command, member,
    members_read, port_value, with_field, DecodeError, Field, FieldsModel, Kind,
    decode_body,
};
use vstd::utf8::{encode_utf8, encode_utf8_decode_utf8, encode_utf8_valid_utf8};
use vstd::prelude::*;

verus! {

/// Text that begins with something other than white space has no leading
/// white space to lose.
pub proof fn lemma_trim_nothing(input: Seq<char>)
    requires
        input.len() == 0 || !is_space(input[0]),
    ensures
        trim_start(input) == input,
{
}

/// A string literal begins with a quote, is a value, and its text is the
/// text it was written for.
pub proof fn lemma_string_value(text: Seq<char>, after: Seq<char>, depth: nat)
    ensures
        (string_literal(text) + after)[0] == '"',
        value_rest(string_literal(text) + after, depth) == Some(after),
        text_value(string_literal(text) + after) == Some(text),
        string_body((string_literal(text) + after).drop_first()) == Some((text, after)),
{
    let input = string_literal(text) + after;
    assert(input[0] == '"');
    assert(input.drop_first() =~= escape_text(text) + (seq!['"'] + after));
    lemma_string_round_trip(text, after);
}

/// The decimal numeral of a number is made of digits, begins with a zero
/// only where it is `0`, and spells the number.
pub proof fn lemma_decimal_digits(n: nat)
    ensures
        decimal_digits(n).len() >= 1,
        forall|i: int| 0 <= i < decimal_digits(n).len() ==> is_digit(#[trigger] decimal_digits(n)[i]),
        decimal_digits(n)[0] == '0' ==> decimal_digits(n).len() == 1,
        decimal_value(decimal_digits(n)) == n,
    decreases n,
{
    let digits = decimal_digits(n);
    if n < 10 {
        assert(digits.drop_last() =~= Seq::<char>::empty());
        assert(decimal_value(digits.drop_last()) == 0);
        assert(digits.last() == digit_char(n));
    } else {
        lemma_decimal_digits(n / 10);
        let above = decimal_digits(n / 10);
        assert(digits.drop_last() =~= above);
        assert(digits.last() == digit_char(n % 10));
        assert(digits[0] == above[0]);
        assert(above[0] != '0') by {
            if above[0] == '0' {
                assert(above.len() == 1);
                assert(decimal_value(above.drop_last()) == 0) by {
                    assert(above.drop_last() =~= Seq::<char>::empty());
                }
            }
        }
        assert forall|i: int| 0 <= i < digits.len() implies is_digit(#[trigger] digits[i]) by {
            if i < above.len() {
                assert(digits[i] == above[i]);
            }
        }
    }
}

/// A run of digits followed by something that is no digit is counted whole.
pub proof fn lemma_digit_run(digits: Seq<char>, after: Seq<char>)
    requires
        forall|i: int| 0 <= i < digits.len() ==> is_digit(#[trigger] digits[i]),
        after.len() == 0 || !is_digit(after[0]),
    ensures
        digit_run(digits + after) == digits.len(),
    decreases digits.len(),
{
    let input = digits + after;
    if digits.len() == 0 {
        assert(input =~= after);
    } else {
        assert(input[0] == digits[0]);
        assert(input.drop_first() =~= digits.drop_first() + after);
        assert forall|i: int| 0 <= i < digits.drop_first().len() implies is_digit(
            #[trigger] digits.drop_first()[i],
        ) by {
            assert(digits.drop_first()[i] == digits[i + 1]);
        }
        lemma_digit_run(digits.drop_first(), after);
    }
}

/// A decimal numeral followed by a comma or a closing brace is a number of
/// its own length.
pub proof fn lemma_number_len(n: nat, after: Seq<char>)
    requires
        after.len() > 0,
        after[0] == ',' || after[0] == '}',
    ensures
        integer_len(decimal_digits(n) + after) == Some(decimal_digits(n).len()),
        number_len(decimal_digits(n) + after) == Some(decimal_digits(n).len()),
{
    let digits = decimal_digits(n);
    let input = digits + after;
    lemma_decimal_digits(n);
    lemma_digit_run(digits, after);
    assert(input[0] == digits[0]);
    assert(input.skip(0) =~= input);
    assert(integer_len(input) == Some(digits.len()));
    assert(input.skip(digits.len() as int) =~= after);
    assert(fraction_len(after) == Some(0nat));
    assert(input.skip(digits.len() as int + 0) =~= after);
    assert(exponent_len(after) == Some(0nat));
}

/// A decimal numeral followed by a comma or a closing brace is a value, and
/// it is the plain unsigned number it was written for.
pub proof fn lemma_number_value(n: nat, after: Seq<char>, depth: nat)
    requires
        after.len() > 0,
        after[0] == ',' || after[0] == '}',
    ensures
        is_digit((decimal_digits(n) + after)[0]),
        value_rest(decimal_digits(n) + after, depth) == Some(after),
        unsigned_value(decimal_digits(n) + after) == Some(n),
{
    let digits = decimal_digits(n);
    let input = digits + after;
    lemma_decimal_digits(n);
    lemma_number_len(n, after);
    assert(input[0] == digits[0]);
    assert(input.take(digits.len() as int) =~= digits);
    assert(input.skip(digits.len() as int) =~= after);
    assert(!has_prefix(input, seq!['t', 'r', 'u', 'e'])) by {
        if has_prefix(input, seq!['t', 'r', 'u', 'e']) {
            assert(input.take(4)[0] == 't');
        }
    }
    assert(!has_prefix(input, seq!['f', 'a', 'l', 's', 'e'])) by {
        if has_prefix(input, seq!['f', 'a', 'l', 's', 'e']) {
            assert(input.take(5)[0] == 'f');
        }
    }
    assert(!has_prefix(input, seq!['n', 'u', 'l', 'l'])) by {
        if has_prefix(input, seq!['n', 'u', 'l', 'l']) {
            assert(input.take(4)[0] == 'n');
        }
    }
}

/// `null` is a value.
pub proof fn lemma_null_value(after: Seq<char>, depth: nat)
    ensures
        (seq!['n', 'u', 'l', 'l'] + after)[0] == 'n',
        has_prefix(seq!['n', 'u', 'l', 'l'] + after, seq!['n', 'u', 'l', 'l']),
        value_rest(seq!['n', 'u', 'l', 'l'] + after, depth) == Some(after),
{
    let input = seq!['n', 'u', 'l', 'l'] + after;
    assert(input.take(4) =~= seq!['n', 'u', 'l', 'l']);
    assert(input.skip(4) =~= after);
    assert(input[0] == 'n');
    assert(!has_prefix(input, seq!['t', 'r', 'u', 'e'])) by {
        if has_prefix(input, seq!['t', 'r', 'u', 'e']) {
            assert(input.take(4)[0] == 't');
        }
    }
    assert(!has_prefix(input, seq!['f', 'a', 'l', 's', 'e'])) by {
        if has_prefix(input, seq!['f', 'a', 'l', 's', 'e']) {
            assert(input.take(5)[0] == 'f');
        }
    }
}

/// Every kind of command is the kind that its name names.
pub proof fn lemma_kind_names(kind: Kind)
    ensures
        kind_of(kind_name(kind)) == Some(kind),
{
    reveal_strlit("Server");
    reveal_strlit("TransferFrom");
    reveal_strlit("StartImpersonate");
    reveal_strlit("StopImpersonate");
    reveal_strlit("SetBalance");
    assert("Server"@.len() == 6);
    assert("TransferFrom"@.len() == 12);
    assert("StartImpersonate"@.len() == 16);
    assert("StopImpersonate"@.len() == 15);
    assert("SetBalance"@.len() == 10);
}

/// Every field is the field that its name names.
pub proof fn lemma_field_names(field: Field)
    ensures
        field_named(field_name(field)) == Some(field),
{
    reveal_strlit("fork_url");
    reveal_strlit("rpc_port");
    reveal_strlit("asset");
    reveal_strlit("from");
    reveal_strlit("to");
    reveal_strlit("who");
    reveal_strlit("amount");
    assert("fork_url"@.len() == 8 && "fork_url"@[0] == 'f');
    assert("rpc_port"@.len() == 8 && "rpc_port"@[0] == 'r');
    assert("asset"@.len() == 5);
    assert("from"@.len() == 4);
    assert("to"@.len() == 2);
    assert("who"@.len() == 3);
    assert("amount"@.len() == 6);
}

/// A member that was written reads as its key and the text from its value
/// on.
pub proof fn lemma_key_and_value(field: Field, value: Seq<char>, after: Seq<char>)
    requires
        value.len() > 0,
        !is_space(value[0]),
    ensures
        key_and_value(member(field, value, after)) == Some((field_name(field), value + after)),
{
    let name = field_name(field);
    let input = member(field, value, after);
    let rest = seq![':'] + (value + after);
    assert(input[0] == '"');
    assert(input.drop_first() =~= escape_text(name) + (seq!['"'] + rest));
    lemma_string_round_trip(name, rest);
    assert(rest[0] == ':');
    lemma_trim_nothing(rest);
    assert(rest.drop_first() =~= value + after);
    assert((value + after)[0] == value[0]);
    lemma_trim_nothing(value + after);
}

/// Reading a member that was written, where its value is a value of the
/// field's type: the field is set, and the reading goes on with the next
/// member after a comma, or ends at the closing brace.
pub proof fn lemma_member_read(
    kind: Kind,
    fields: FieldsModel,
    field: Field,
    value: Seq<char>,
    after: Seq<char>,
    read: FieldsModel,
)
    requires
        belongs(kind, field),
        !fields.has(field),
        value.len() > 0,
        !is_space(value[0]),
        value_rest(value + after, NESTING_LIMIT as nat) == Some(after),
        with_field(fields, field, value + after) == Some(read),
        after.len() > 1,
        !is_space(after[1]),
    ensures
        after[0] == '}' ==> members_read(kind, fields, member(field, value, after)) == Ok::<
            (FieldsModel, Seq<char>),
            DecodeError,
        >((read, after.drop_first())),
        after[0] == ',' ==> members_read(kind, fields, member(field, value, after))
            == members_read(kind, read, after.drop_first()),
{
    let input = member(field, value, after);
    lemma_key_and_value(field, value, after);
    lemma_field_names(field);
    assert(field_of(kind, field_name(field)) == Some(field));
    if after[0] == '}' || after[0] == ',' {
        lemma_trim_nothing(after);
        assert(after.drop_first()[0] == after[1]);
        lemma_trim_nothing(after.drop_first());
        assert(after.drop_first().len() < input.len());
    }
}

/// The closing braces end the object of fields and the outer object.
pub proof fn lemma_closed()
    ensures
        closed().len() == 2,
        closed()[0] == '}',
        !is_space(closed()[1]),
        ends_well(closed().drop_first()),
{
    let last = closed().drop_first();
    assert(last[0] == '}');
    lemma_trim_nothing(last);
    assert(last.drop_first() =~= Seq::<char>::empty());
    lemma_trim_nothing(last.drop_first());
}

/// What follows a comma is a member, which begins with a quote.
pub proof fn lemma_and_then(field: Field, value: Seq<char>, after: Seq<char>)
    ensures
        and_then(member(field, value, after)).len() > 1,
        and_then(member(field, value, after))[0] == ',',
        !is_space(and_then(member(field, value, after))[1]),
        and_then(member(field, value, after)).drop_first() == member(field, value, after),
{
    let next = member(field, value, after);
    assert(next[0] == '"');
    assert(and_then(next).drop_first() =~= next);
}

/// An address that was written is a value and reads as that address.
pub proof fn lemma_address_json(address: Seq<u8>, after: Seq<char>)
    requires
        address.len() == 20,
    ensures
        address_json(address).len() > 0,
        !is_space(address_json(address)[0]),
        value_rest(address_json(address) + after, NESTING_LIMIT as nat) == Some(after),
        address_value(address_json(address) + after) == Some(address),
{
    let value = address_json(address);
    lemma_string_value(address_text(address), after, NESTING_LIMIT as nat);
    lemma_address_text_round_trip(address);
    assert(value[0] == '"');
    assert((value + after)[0] == value[0]);
}

/// An amount that was written is a value and reads as that amount.
pub proof fn lemma_amount_json(amount: nat, after: Seq<char>)
    requires
        amount < uint_limit(),
    ensures
        amount_json(amount).len() > 0,
        !is_space(amount_json(amount)[0]),
        value_rest(amount_json(amount) + after, NESTING_LIMIT as nat) == Some(after),
        amount_value(amount_json(amount) + after) == Some(amount),
{
    let value = amount_json(amount);
    lemma_string_value(uint_text(amount), after, NESTING_LIMIT as nat);
    lemma_uint_text_round_trip(amount);
    assert(value[0] == '"');
    assert((value + after)[0] == value[0]);
}

/// A port that was written is a value and reads as that port.
pub proof fn lemma_port_json(port: u16, after: Seq<char>)
    requires
        after.len() > 0,
        after[0] == ',' || after[0] == '}',
    ensures
        decimal_digits(port as nat).len() > 0,
        !is_space(decimal_digits(port as nat)[0]),
        value_rest(decimal_digits(port as nat) + after, NESTING_LIMIT as nat) == Some(after),
        port_value(decimal_digits(port as nat) + after) == Some(port),
{
    let value = decimal_digits(port as nat);
    lemma_number_value(port as nat, after, NESTING_LIMIT as nat);
    lemma_decimal_digits(port as nat);
    assert((value + after)[0] == value[0]);
}

/// A fork URL that was written is a value and reads as that URL.
pub proof fn lemma_fork_url_json(url: Option<Seq<char>>, after: Seq<char>)
    ensures
        fork_url_json(url).len() > 0,
        !is_space(fork_url_json(url)[0]),
        value_rest(fork_url_json(url) + after, NESTING_LIMIT as nat) == Some(after),
        fork_url_value(fork_url_json(url) + after) == Some(url),
{
    let value = fork_url_json(url);
    let input = value + after;
    match url {
        Some(text) => {
            lemma_string_value(text, after, NESTING_LIMIT as nat);
            assert(value[0] == '"');
            assert(input[0] == value[0]);
            assert(!has_prefix(input, seq!['n', 'u', 'l', 'l'])) by {
                if has_prefix(input, seq!['n', 'u', 'l', 'l']) {
                    assert(input.take(4)[0] == 'n');
                }
            }
        },
        None => {
            lemma_null_value(after, NESTING_LIMIT as nat);
            assert(value[0] == 'n');
        },
    }
}

/// The members of a `Server` command read as its fields.
pub proof fn lemma_server_body(fork_url: Option<Seq<char>>, rpc_port: u16)
    ensures
        members_read(
            Kind::Server,
            FieldsModel::empty(),
            body_text(CommandModel::Server { fork_url, rpc_port }),
        ) == Ok::<(FieldsModel, Seq<char>), DecodeError>(
            (
                FieldsModel {
                    fork_url: Some(fork_url),
                    rpc_port: Some(rpc_port),
                    ..FieldsModel::empty()
                },
                closed().drop_first(),
            ),
        ),
{
    let kind = Kind::Server;
    let port = decimal_digits(rpc_port as nat);
    let last = member(Field::RpcPort, port, closed());
    let first = FieldsModel { fork_url: Some(fork_url), ..FieldsModel::empty() };
    let both = FieldsModel { rpc_port: Some(rpc_port), ..first };
    lemma_and_then(Field::RpcPort, port, closed());
    lemma_fork_url_json(fork_url, and_then(last));
    lemma_member_read(
        kind,
        FieldsModel::empty(),
        Field::ForkUrl,
        fork_url_json(fork_url),
        and_then(last),
        first,
    );
    lemma_closed();
    lemma_port_json(rpc_port, closed());
    lemma_member_read(kind, first, Field::RpcPort, port, closed(), both);
}

/// The one member of a command that names an account reads as its field.
pub proof fn lemma_who_body(kind: Kind, who: Seq<u8>)
    requires
        kind is StartImpersonate || kind is StopImpersonate,
        who.len() == 20,
    ensures
        members_read(
            kind,
            FieldsModel::empty(),
            member(Field::Who, address_json(who), closed()),
        ) == Ok::<(FieldsModel, Seq<char>), DecodeError>(
            (FieldsModel { who: Some(who), ..FieldsModel::empty() }, closed().drop_first()),
        ),
{
    let read = FieldsModel { who: Some(who), ..FieldsModel::empty() };
    lemma_closed();
    lemma_address_json(who, closed());
    lemma_member_read(kind, FieldsModel::empty(), Field::Who, address_json(who), closed(), read);
}

/// The members of a `SetBalance` command read as its fields.
pub proof fn lemma_set_balance_body(who: Seq<u8>, amount: nat)
    requires
        who.len() == 20,
        amount < uint_limit(),
    ensures
        members_read(
            Kind::SetBalance,
            FieldsModel::empty(),
            body_text(CommandModel::SetBalance { who, amount }),
        ) == Ok::<(FieldsModel, Seq<char>), DecodeError>(
            (
                FieldsModel { who: Some(who), amount: Some(amount), ..FieldsModel::empty() },
                closed().drop_first(),
            ),
        ),
{
    let kind = Kind::SetBalance;
    let last = member(Field::Amount, amount_json(amount), closed());
    let first = FieldsModel { who: Some(who), ..FieldsModel::empty() };
    let both = FieldsModel { amount: Some(amount), ..first };
    lemma_and_then(Field::Amount, amount_json(amount), closed());
    lemma_address_json(who, and_then(last));
    lemma_member_read(
        kind,
        FieldsModel::empty(),
        Field::Who,
        address_json(who),
        and_then(last),
        first,
    );
    lemma_closed();
    lemma_amount_json(amount, closed());
    lemma_member_read(kind, first, Field::Amount, amount_json(amount), closed(), both);
}

/// The members of a `TransferFrom` command read as its fields.
pub proof fn lemma_transfer_body(asset: Seq<u8>, from: Seq<u8>, to: Seq<u8>, amount: nat)
    requires
        asset.len() == 20,
        from.len() == 20,
        to.len() == 20,
        amount < uint_limit(),
    ensures
        members_read(
            Kind::TransferFrom,
            FieldsModel::empty(),
            body_text(CommandModel::TransferFrom { asset, from, to, amount }),
        ) == Ok::<(FieldsModel, Seq<char>), DecodeError>(
            (
                FieldsModel {
                    asset: Some(asset),
                    from: Some(from),
                    to: Some(to),
                    amount: Some(amount),
                    ..FieldsModel::empty()
                },
                closed().drop_first(),
            ),
        ),
{
    let kind = Kind::TransferFrom;
    let fourth = member(Field::Amount, amount_json(amount), closed());
    let third = member(Field::To, address_json(to), and_then(fourth));
    let second = member(Field::From, address_json(from), and_then(third));
    let one = FieldsModel { asset: Some(asset), ..FieldsModel::empty() };
    let two = FieldsModel { from: Some(from), ..one };
    let three = FieldsModel { to: Some(to), ..two };
    let four = FieldsModel { amount: Some(amount), ..three };
    lemma_and_then(Field::From, address_json(from), and_then(third));
    lemma_address_json(asset, and_then(second));
    lemma_member_read(
        kind,
        FieldsModel::empty(),
        Field::Asset,
        address_json(asset),
        and_then(second),
        one,
    );
    lemma_and_then(Field::To, address_json(to), and_then(fourth));
    lemma_address_json(from, and_then(third));
    lemma_member_read(kind, one, Field::From, address_json(from), and_then(third), two);
    lemma_and_then(Field::Amount, amount_json(amount), closed());
    lemma_address_json(to, and_then(fourth));
    lemma_member_read(kind, two, Field::To, address_json(to), and_then(fourth), three);
    lemma_closed();
    lemma_amount_json(amount, closed());
    lemma_member_read(kind, three, Field::Amount, amount_json(amount), closed(), four);
}

/// A text made of an opening brace, the name of a kind, a colon and an
/// object of fields reads as the command that the fields make, where the
/// members read as those fields up to the last closing brace.
pub proof fn lemma_document(kind: Kind, body: Seq<char>, fields: FieldsModel)
    requires
        body.len() > 0,
        body[0] == '"',
        members_read(kind, FieldsModel::empty(), body) == Ok::<
            (FieldsModel, Seq<char>),
            DecodeError,
        >((fields, closed().drop_first())),
    ensures
        decode_text(seq!['{'] + (string_literal(kind_name(kind)) + (seq![':', '{'] + body)))
            == assemble(kind, fields),
{
    let name = kind_name(kind);
    let text = seq!['{'] + (string_literal(name) + (seq![':', '{'] + body));
    let inside = string_literal(name) + (seq![':', '{'] + body);
    let rest = seq![':', '{'] + body;
    let object = seq!['{'] + body;
    assert(text[0] == '{');
    lemma_trim_nothing(text);
    assert(text.drop_first() =~= inside);
    assert(closing(text, '{') == Some(inside));
    assert(inside[0] == '"');
    lemma_trim_nothing(inside);
    assert(inside.drop_first() =~= escape_text(name) + (seq!['"'] + rest));
    lemma_string_round_trip(name, rest);
    assert(rest[0] == ':');
    lemma_trim_nothing(rest);
    assert(rest.drop_first() =~= object);
    assert(object[0] == '{');
    lemma_trim_nothing(object);
    assert(key_and_value(inside) == Some((name, object)));
    lemma_kind_names(kind);
    assert(object.drop_first() =~= body);
    lemma_trim_nothing(body);
    assert(closing(body, '}') is None);
    assert(fields_read(kind, body) == members_read(kind, FieldsModel::empty(), body));
    lemma_closed();
}

/// Reading the wire form of a command gives the command back.
pub proof fn lemma_round_trip(command: CommandModel)
    requires
        command.valid(),
    ensures
        decode_text(encode_text(command)) == Ok::<CommandModel, DecodeError>(command),
{
    let kind = kind_of_command(command);
    let body = body_text(command);
    match command {
        CommandModel::Server { fork_url, rpc_port } => {
            lemma_server_body(fork_url, rpc_port);
            let fields = FieldsModel {
                fork_url: Some(fork_url),
                rpc_port: Some(rpc_port),
                ..FieldsModel::empty()
            };
            assert(body[0] == '"');
            lemma_document(kind, body, fields);
        },
        CommandModel::TransferFrom { asset, from, to, amount } => {
            lemma_transfer_body(asset, from, to, amount);
            let fields = FieldsModel {
                asset: Some(asset),
                from: Some(from),
                to: Some(to),
                amount: Some(amount),
                ..FieldsModel::empty()
            };
            assert(body[0] == '"');
            lemma_document(kind, body, fields);
        },
        CommandModel::StartImpersonate { who } => {
            lemma_who_body(kind, who);
            let fields = FieldsModel { who: Some(who), ..FieldsModel::empty() };
            assert(body[0] == '"');
            lemma_document(kind, body, fields);
        },
        CommandModel::StopImpersonate { who } => {
            lemma_who_body(kind, who);
            let fields = FieldsModel { who: Some(who), ..FieldsModel::empty() };
            assert(body[0] == '"');
            lemma_document(kind, body, fields);
        },
        CommandModel::SetBalance { who, amount } => {
            lemma_set_balance_body(who, amount);
            let fields = FieldsModel {
                who: Some(who),
                amount: Some(amount),
                ..FieldsModel::empty()
            };
            assert(body[0] == '"');
            lemma_document(kind, body, fields);
        },
    }
}

/// A text whose outer key names no kind of command is refused as an
/// unknown command, whatever follows the key's colon.
pub proof fn lemma_unknown_tag_refused(text: Seq<char>, tag: Seq<char>, body: Seq<char>)
    requires
        closing(text, '{') is Some,
        key_and_value(trim_start(closing(text, '{')->0)) == Some((tag, body)),
        kind_of(tag) is None,
    ensures
        decode_text(text) == Err::<CommandModel, DecodeError>(DecodeError::UnknownVariant),
{
}

/// Whether `text` is one JSON value, with white space around it at most,
/// whose arrays and objects nest no deeper than `depth`.
pub open spec fn is_json_document(text: Seq<char>, depth: nat) -> bool {
    match value_rest(trim_start(text), depth) {
        Some(rest) => trim_start(rest).len() == 0,
        None => false,
    }
}

/// Members that read as fields are the members of a JSON object.
pub proof fn lemma_members_are_json(
    kind: Kind,
    fields: FieldsModel,
    input: Seq<char>,
    read: FieldsModel,
    rest: Seq<char>,
)
    requires
        members_read(kind, fields, input) == Ok::<(FieldsModel, Seq<char>), DecodeError>(
            (read, rest),
        ),
    ensures
        members_rest(input, NESTING_LIMIT as nat) == Some(rest),
    decreases input.len(),
{
    let (key, value) = key_and_value(input)->0;
    let after = value_rest(value, NESTING_LIMIT as nat)->0;
    let field = field_of(kind, key);
    let next = match field {
        Some(f) => with_field(fields, f, value)->0,
        None => fields,
    };
    lemma_key_and_value_shorter(input);
    if closing(after, '}') is None {
        let more = following(after)->0;
        lemma_members_are_json(kind, next, more, read, rest);
    }
}

/// The value of a member begins after its key.
pub proof fn lemma_key_and_value_shorter(input: Seq<char>)
    ensures
        match key_and_value(input) {
            Some((_, value)) => value.len() < input.len(),
            None => true,
        },
{
    if key_and_value(input) is Some {
        let (_, after) = string_body(input.drop_first())->0;
        lemma_string_rest_shorter(input.drop_first());
        lemma_trim_shorter(after);
        lemma_trim_shorter(trim_start(after).drop_first());
    }
}

/// Leading white space is lost and nothing is gained.
pub proof fn lemma_trim_shorter(input: Seq<char>)
    ensures
        trim_start(input).len() <= input.len(),
    decreases input.len(),
{
    if input.len() > 0 && is_space(input[0]) {
        lemma_trim_shorter(input.drop_first());
    }
}

/// What is left after a string literal is shorter than the literal's body
/// and what followed it.
pub proof fn lemma_string_rest_shorter(input: Seq<char>)
    ensures
        match string_rest(input) {
            Some(rest) => rest.len() < input.len(),
            None => true,
        },
    decreases input.len(),
{
    reveal(string_body);
    if string_body(input) is None {
    } else if input[0] == '"' {
    } else if input[0] == '\\' {
        let (_, taken) = unescape(input.drop_first())->0;
        lemma_string_rest_shorter(input.skip(1 + taken as int));
    } else {
        lemma_string_rest_shorter(input.drop_first());
    }
}

/// A text that is read as a command is a JSON document: a text that is
/// none is refused.
pub proof fn lemma_decoded_is_json(text: Seq<char>)
    requires
        decode_text(text) is Ok,
    ensures
        is_json_document(text, (NESTING_LIMIT + 2) as nat),
{
    let limit = NESTING_LIMIT as nat;
    let start = trim_start(text);
    let inside = closing(text, '{')->0;
    let (tag, body) = key_and_value(trim_start(inside))->0;
    let kind = kind_of(tag)->0;
    let (fields, after) = fields_read(kind, body.drop_first())->Ok_0;
    assert(start[0] == '{');
    assert(start.drop_first() == inside);
    lemma_trim_shorter(inside);
    lemma_key_and_value_shorter(trim_start(inside));
    // The object of fields is a value one level down.
    assert(value_rest(body, limit + 1) == Some(after)) by {
        if closing(body.drop_first(), '}') is None {
            lemma_members_are_json(
                kind,
                FieldsModel::empty(),
                trim_start(body.drop_first()),
                fields,
                after,
            );
        }
    }
    // The outer object has this one member, and then closes.
    let end = closing(after, '}')->0;
    assert(closing(inside, '}') is None) by {
        assert(trim_start(inside)[0] == '"');
    }
    assert(members_rest(trim_start(inside), limit + 1) == Some(end));
    assert(value_rest(start, limit + 2) == Some(end));
}

/// A text is read as a command of the kind that its outer key names, and
/// of no other.
pub proof fn lemma_decoded_kind(text: Seq<char>, command: CommandModel)
    requires
        decode_text(text) == Ok::<CommandModel, DecodeError>(command),
    ensures
        closing(text, '{') is Some,
        key_and_value(trim_start(closing(text, '{')->0)) matches Some((tag, _)) && tag == kind_name(
            kind_of_command(command),
        ),
{
    let inside = closing(text, '{')->0;
    let (tag, body) = key_and_value(trim_start(inside))->0;
    lemma_kind_named(tag);
}

/// A key that names a kind of command is that kind's name.
pub proof fn lemma_kind_named(tag: Seq<char>)
    ensures
        match kind_of(tag) {
            Some(kind) => tag == kind_name(kind),
            None => true,
        },
{
}

/// Two commands with the same wire form are the same command.
pub proof fn lemma_encoding_tells_commands_apart(a: CommandModel, b: CommandModel)
    requires
        a.valid(),
        b.valid(),
        encode_text(a) == encode_text(b),
    ensures
        a == b,
{
    lemma_round_trip(a);
    lemma_round_trip(b);
}

/// The wire form of every command is a JSON document.
pub proof fn lemma_encoded_is_json(command: CommandModel)
    requires
        command.valid(),
    ensures
        is_json_document(encode_text(command), (NESTING_LIMIT + 2) as nat),
{
    lemma_round_trip(command);
    lemma_decoded_is_json(encode_text(command));
}

/// Reading the UTF-8 bytes of the wire form of a command gives the command
/// back.
pub proof fn lemma_body_round_trip(command: CommandModel)
    requires
        command.valid(),
    ensures
        decode_body(encode_utf8(encode_text(command))) == Ok::<CommandModel, DecodeError>(command),
{
    encode_utf8_valid_utf8(encode_text(command));
    encode_utf8_decode_utf8(encode_text(command));
    lemma_round_trip(command);
}

} // verus!
