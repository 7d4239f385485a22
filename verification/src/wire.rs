//! The wire form of a command: a JSON object with one member, whose key
//! names the kind of command and whose value is an object of named fields.
//!
//! ```text
//! {"TransferFrom":{"asset":"0x..","from":"0x..","to":"0x..","amount":"0x3e8"}}
//! ```
//!
//! Addresses travel as `0x` and forty hexadecimal digits, amounts as `0x`
//! and a hexadecimal numeral, ports as JSON numbers, and the optional fork
//! URL as a string or `null`. The reader is more lenient than the writer:
//! white space may stand between the tokens, fields may come in any order,
//! a member whose key names no field of the command is passed over, a
//! missing fork URL reads as none, an amount may also be a plain JSON
//! number or a numeral in another radix. It reports the first thing that is
//! wrong, in reading order.

use crate::cmd::{Command, CommandModel};
use crate::json::numbers::{read_unsigned, unsigned_value};
use crate::json::strings::{read_text_value, string_literal, text_value, write_string};
use crate::json::values::{key_and_value, read_key, skip_value, value_rest, NESTING_LIMIT};
use crate::json::{
    begins_with, closing, following, has_prefix, read_closing, read_following, skip_space,
    trim_start,
};
use crate::primitives::{
    address_text, address_text_value, uint_text, uint_text_value, Address, U256,
};
use crate::text::{chars_of, decimal_digits, same_text, write_decimal};
use vstd::prelude::*;
use vstd::string::*;
use vstd::utf8::{decode_utf8, encode_utf8_decode_utf8, valid_utf8};

verus! {

/// Why a text is not the wire form of a command.
#[derive(Clone, Copy, Debug, PartialEq, Eq)]
pub enum DecodeError {
    /// The text is not of the JSON shape that was expected where the reader
    /// stood, or goes on after the command.
    Syntax,
    /// The key of the outer object names no kind of command.
    UnknownVariant,
    /// The value of the outer member is not an object, or the value of a
    /// field is not of the field's type or out of its range.
    InvalidValue,
    /// A field of the command occurs twice.
    DuplicateField,
    /// A field that the command needs does not occur.
    MissingField,
}

impl DecodeError {
    /// The message shown for the error.
    pub open spec fn message_text(self) -> Seq<char> {
        match self {
            DecodeError::Syntax => "malformed command: not the JSON object of a command"@,
            DecodeError::UnknownVariant => "unknown command"@,
            DecodeError::InvalidValue => "invalid command: a value is not of the type of its field"@,
            DecodeError::DuplicateField => "invalid command: a field occurs twice"@,
            DecodeError::MissingField => "invalid command: a field is missing"@,
        }
    }

    /// The message shown for the error.
    pub fn message(&self) -> (out: String)
        ensures
            out@ == self.message_text(),
    {
        match self {
            DecodeError::Syntax => String::from_str(
                "malformed command: not the JSON object of a command",
            ),
            DecodeError::UnknownVariant => String::from_str("unknown command"),
            DecodeError::InvalidValue => String::from_str(
                "invalid command: a value is not of the type of its field",
            ),
            DecodeError::DuplicateField => String::from_str("invalid command: a field occurs twice"),
            DecodeError::MissingField => String::from_str("invalid command: a field is missing"),
        }
    }
}

/// The kinds of command.
#[derive(Clone, Copy, Debug, PartialEq, Eq)]
pub enum Kind {
    Server,
    TransferFrom,
    StartImpersonate,
    StopImpersonate,
    SetBalance,
}

/// The fields that commands are made of.
#[derive(Clone, Copy, Debug, PartialEq, Eq)]
pub enum Field {
    ForkUrl,
    RpcPort,
    Asset,
    From,
    To,
    Who,
    Amount,
}

/// The key that names a kind of command.
pub open spec fn kind_name(kind: Kind) -> Seq<char> {
    match kind {
        Kind::Server => "Server"@,
        Kind::TransferFrom => "TransferFrom"@,
        Kind::StartImpersonate => "StartImpersonate"@,
        Kind::StopImpersonate => "StopImpersonate"@,
        Kind::SetBalance => "SetBalance"@,
    }
}

/// The key that names a field.
pub open spec fn field_name(field: Field) -> Seq<char> {
    match field {
        Field::ForkUrl => "fork_url"@,
        Field::RpcPort => "rpc_port"@,
        Field::Asset => "asset"@,
        Field::From => "from"@,
        Field::To => "to"@,
        Field::Who => "who"@,
        Field::Amount => "amount"@,
    }
}

/// The kind of command that `tag` names.
pub open spec fn kind_of(tag: Seq<char>) -> Option<Kind> {
    if tag == kind_name(Kind::Server) {
        Some(Kind::Server)
    } else if tag == kind_name(Kind::TransferFrom) {
        Some(Kind::TransferFrom)
    } else if tag == kind_name(Kind::StartImpersonate) {
        Some(Kind::StartImpersonate)
    } else if tag == kind_name(Kind::StopImpersonate) {
        Some(Kind::StopImpersonate)
    } else if tag == kind_name(Kind::SetBalance) {
        Some(Kind::SetBalance)
    } else {
        None
    }
}

/// The field that `key` names.
pub open spec fn field_named(key: Seq<char>) -> Option<Field> {
    if key == field_name(Field::ForkUrl) {
        Some(Field::ForkUrl)
    } else if key == field_name(Field::RpcPort) {
        Some(Field::RpcPort)
    } else if key == field_name(Field::Asset) {
        Some(Field::Asset)
    } else if key == field_name(Field::From) {
        Some(Field::From)
    } else if key == field_name(Field::To) {
        Some(Field::To)
    } else if key == field_name(Field::Who) {
        Some(Field::Who)
    } else if key == field_name(Field::Amount) {
        Some(Field::Amount)
    } else {
        None
    }
}

/// Whether commands of `kind` have the field `field`.
pub open spec fn belongs(kind: Kind, field: Field) -> bool {
    match kind {
        Kind::Server => field is ForkUrl || field is RpcPort,
        Kind::TransferFrom => field is Asset || field is From || field is To || field is Amount,
        Kind::StartImpersonate => field is Who,
        Kind::StopImpersonate => field is Who,
        Kind::SetBalance => field is Who || field is Amount,
    }
}

/// The field of commands of `kind` that `key` names, if it names one.
pub open spec fn field_of(kind: Kind, key: Seq<char>) -> Option<Field> {
    match field_named(key) {
        Some(field) => if belongs(kind, field) {
            Some(field)
        } else {
            None
        },
        None => None,
    }
}

/// The fields read so far.
pub(crate) struct Fields {
    fork_url: Option<Option<String>>,
    rpc_port: Option<u16>,
    asset: Option<Address>,
    from: Option<Address>,
    to: Option<Address>,
    who: Option<Address>,
    amount: Option<U256>,
}

/// What the fields read so far say.
pub struct FieldsModel {
    pub fork_url: Option<Option<Seq<char>>>,
    pub rpc_port: Option<u16>,
    pub asset: Option<Seq<u8>>,
    pub from: Option<Seq<u8>>,
    pub to: Option<Seq<u8>>,
    pub who: Option<Seq<u8>>,
    pub amount: Option<nat>,
}

/// What an address that may be there says.
pub open spec fn address_model(a: Option<Address>) -> Option<Seq<u8>> {
    match a {
        Some(a) => Some(a@),
        None => None,
    }
}

impl View for Fields {
    type V = FieldsModel;

    closed spec fn view(&self) -> FieldsModel {
        FieldsModel {
            fork_url: match self.fork_url {
                Some(url) => Some(crate::cmd::text_model(url)),
                None => None,
            },
            rpc_port: self.rpc_port,
            asset: address_model(self.asset),
            from: address_model(self.from),
            to: address_model(self.to),
            who: address_model(self.who),
            amount: match self.amount {
                Some(v) => Some(v@),
                None => None,
            },
        }
    }
}

impl FieldsModel {
    /// No field read yet.
    pub open spec fn empty() -> FieldsModel {
        FieldsModel {
            fork_url: None,
            rpc_port: None,
            asset: None,
            from: None,
            to: None,
            who: None,
            amount: None,
        }
    }

    /// Whether `field` has been read.
    pub open spec fn has(self, field: Field) -> bool {
        match field {
            Field::ForkUrl => self.fork_url is Some,
            Field::RpcPort => self.rpc_port is Some,
            Field::Asset => self.asset is Some,
            Field::From => self.from is Some,
            Field::To => self.to is Some,
            Field::Who => self.who is Some,
            Field::Amount => self.amount is Some,
        }
    }
}

/// The fork URL at the front of `input`: `null` for none, or a string.
pub open spec fn fork_url_value(input: Seq<char>) -> Option<Option<Seq<char>>> {
    if has_prefix(input, seq!['n', 'u', 'l', 'l']) {
        Some(None)
    } else {
        match text_value(input) {
            Some(text) => Some(Some(text)),
            None => None,
        }
    }
}

/// The port at the front of `input`: a plain unsigned number of at most
/// 16 bits.
pub open spec fn port_value(input: Seq<char>) -> Option<u16> {
    match unsigned_value(input) {
        Some(n) => if n <= u16::MAX {
            Some(n as u16)
        } else {
            None
        },
        None => None,
    }
}

/// The address at the front of `input`: a string that spells one.
pub open spec fn address_value(input: Seq<char>) -> Option<Seq<u8>> {
    match text_value(input) {
        Some(text) => address_text_value(text),
        None => None,
    }
}

/// The amount at the front of `input`: a string that spells one, or a plain
/// unsigned number of at most 64 bits.
pub open spec fn amount_value(input: Seq<char>) -> Option<nat> {
    if input.len() > 0 && input[0] == '"' {
        match text_value(input) {
            Some(text) => uint_text_value(text),
            None => None,
        }
    } else {
        match unsigned_value(input) {
            Some(n) => if n <= u64::MAX {
                Some(n)
            } else {
                None
            },
            None => None,
        }
    }
}

/// The fields after `field` has been read from the value at the front of
/// `input`, if the value is of the field's type.
pub open spec fn with_field(fields: FieldsModel, field: Field, input: Seq<char>) -> Option<
    FieldsModel,
> {
    match field {
        Field::ForkUrl => match fork_url_value(input) {
            Some(url) => Some(FieldsModel { fork_url: Some(url), ..fields }),
            None => None,
        },
        Field::RpcPort => match port_value(input) {
            Some(port) => Some(FieldsModel { rpc_port: Some(port), ..fields }),
            None => None,
        },
        Field::Asset => match address_value(input) {
            Some(a) => Some(FieldsModel { asset: Some(a), ..fields }),
            None => None,
        },
        Field::From => match address_value(input) {
            Some(a) => Some(FieldsModel { from: Some(a), ..fields }),
            None => None,
        },
        Field::To => match address_value(input) {
            Some(a) => Some(FieldsModel { to: Some(a), ..fields }),
            None => None,
        },
        Field::Who => match address_value(input) {
            Some(a) => Some(FieldsModel { who: Some(a), ..fields }),
            None => None,
        },
        Field::Amount => match amount_value(input) {
            Some(v) => Some(FieldsModel { amount: Some(v), ..fields }),
            None => None,
        },
    }
}

/// The command of `kind` that `fields` make. A fork URL that was not given
/// is none; every other field of the command must have been read.
pub open spec fn assemble(kind: Kind, fields: FieldsModel) -> Result<CommandModel, DecodeError> {
    match kind {
        Kind::Server => if fields.rpc_port is Some {
            Ok(
                CommandModel::Server {
                    fork_url: match fields.fork_url {
                        Some(url) => url,
                        None => None,
                    },
                    rpc_port: fields.rpc_port->0,
                },
            )
        } else {
            Err(DecodeError::MissingField)
        },
        Kind::TransferFrom => if fields.asset is Some && fields.from is Some && fields.to is Some
            && fields.amount is Some {
            Ok(
                CommandModel::TransferFrom {
                    asset: fields.asset->0,
                    from: fields.from->0,
                    to: fields.to->0,
                    amount: fields.amount->0,
                },
            )
        } else {
            Err(DecodeError::MissingField)
        },
        Kind::StartImpersonate => if fields.who is Some {
            Ok(CommandModel::StartImpersonate { who: fields.who->0 })
        } else {
            Err(DecodeError::MissingField)
        },
        Kind::StopImpersonate => if fields.who is Some {
            Ok(CommandModel::StopImpersonate { who: fields.who->0 })
        } else {
            Err(DecodeError::MissingField)
        },
        Kind::SetBalance => if fields.who is Some && fields.amount is Some {
            Ok(CommandModel::SetBalance { who: fields.who->0, amount: fields.amount->0 })
        } else {
            Err(DecodeError::MissingField)
        },
    }
}

/// Reads the members of the object of fields, where `input` begins with
/// the key of the first member still to come: the fields read, and what is
/// left after the closing brace.
pub open spec fn members_read(kind: Kind, fields: FieldsModel, input: Seq<char>) -> Result<
    (FieldsModel, Seq<char>),
    DecodeError,
>
    decreases input.len(),
{
    match key_and_value(input) {
        None => Err(DecodeError::Syntax),
        Some((key, value)) => {
            let field = field_of(kind, key);
            if field is Some && fields.has(field->0) {
                Err(DecodeError::DuplicateField)
            } else {
                match value_rest(value, NESTING_LIMIT as nat) {
                    None => Err(DecodeError::Syntax),
                    Some(after) => {
                        let read = match field {
                            Some(f) => with_field(fields, f, value),
                            None => Some(fields),
                        };
                        match read {
                            None => Err(DecodeError::InvalidValue),
                            Some(fields) => if closing(after, '}') is Some {
                                Ok((fields, closing(after, '}')->0))
                            } else {
                                match following(after) {
                                    None => Err(DecodeError::Syntax),
                                    Some(more) => if more.len() < input.len() {
                                        members_read(kind, fields, more)
                                    } else {
                                        Err(DecodeError::Syntax)
                                    },
                                }
                            },
                        }
                    },
                }
            }
        },
    }
}

/// Reads the object of fields from after its opening brace.
pub open spec fn fields_read(kind: Kind, input: Seq<char>) -> Result<
    (FieldsModel, Seq<char>),
    DecodeError,
> {
    if closing(input, '}') is Some {
        Ok((FieldsModel::empty(), closing(input, '}')->0))
    } else {
        members_read(kind, FieldsModel::empty(), trim_start(input))
    }
}

/// Reads what follows the object of fields: the closing brace of the outer
/// object and nothing more but white space.
pub open spec fn ends_well(input: Seq<char>) -> bool {
    closing(input, '}') is Some && trim_start(closing(input, '}')->0).len() == 0
}

/// The command that `text` is the wire form of, or why it is none.
pub open spec fn decode_text(text: Seq<char>) -> Result<CommandModel, DecodeError> {
    match closing(text, '{') {
        None => Err(DecodeError::Syntax),
        Some(inside) => match key_and_value(trim_start(inside)) {
            None => Err(DecodeError::Syntax),
            Some((tag, body)) => match kind_of(tag) {
                None => Err(DecodeError::UnknownVariant),
                Some(kind) => if body.len() > 0 && body[0] == '{' {
                    match fields_read(kind, body.drop_first()) {
                        Err(e) => Err(e),
                        Ok((fields, after)) => if ends_well(after) {
                            assemble(kind, fields)
                        } else {
                            Err(DecodeError::Syntax)
                        },
                    }
                } else if value_rest(body, NESTING_LIMIT as nat) is Some {
                    Err(DecodeError::InvalidValue)
                } else {
                    Err(DecodeError::Syntax)
                },
            },
        },
    }
}

fn kind_named(tag: &str) -> (kind: Option<Kind>)
    ensures
        kind == kind_of(tag@),
{
    if same_text(tag, "Server") {
        Some(Kind::Server)
    } else if same_text(tag, "TransferFrom") {
        Some(Kind::TransferFrom)
    } else if same_text(tag, "StartImpersonate") {
        Some(Kind::StartImpersonate)
    } else if same_text(tag, "StopImpersonate") {
        Some(Kind::StopImpersonate)
    } else if same_text(tag, "SetBalance") {
        Some(Kind::SetBalance)
    } else {
        None
    }
}

fn field_called(key: &str) -> (field: Option<Field>)
    ensures
        field == field_named(key@),
{
    if same_text(key, "fork_url") {
        Some(Field::ForkUrl)
    } else if same_text(key, "rpc_port") {
        Some(Field::RpcPort)
    } else if same_text(key, "asset") {
        Some(Field::Asset)
    } else if same_text(key, "from") {
        Some(Field::From)
    } else if same_text(key, "to") {
        Some(Field::To)
    } else if same_text(key, "who") {
        Some(Field::Who)
    } else if same_text(key, "amount") {
        Some(Field::Amount)
    } else {
        None
    }
}

fn has_field(kind: Kind, field: Field) -> (b: bool)
    ensures
        b == belongs(kind, field),
{
    match kind {
        Kind::Server => match field {
            Field::ForkUrl => true,
            Field::RpcPort => true,
            _ => false,
        },
        Kind::TransferFrom => match field {
            Field::Asset => true,
            Field::From => true,
            Field::To => true,
            Field::Amount => true,
            _ => false,
        },
        Kind::StartImpersonate => match field {
            Field::Who => true,
            _ => false,
        },
        Kind::StopImpersonate => match field {
            Field::Who => true,
            _ => false,
        },
        Kind::SetBalance => match field {
            Field::Who => true,
            Field::Amount => true,
            _ => false,
        },
    }
}

fn field_for(kind: Kind, key: &str) -> (field: Option<Field>)
    ensures
        field == field_of(kind, key@),
{
    match field_called(key) {
        Some(field) => if has_field(kind, field) {
            Some(field)
        } else {
            None
        },
        None => None,
    }
}

impl Fields {
    /// No field read yet.
    fn empty() -> (fields: Fields)
        ensures
            fields@ == FieldsModel::empty(),
    {
        Fields {
            fork_url: None,
            rpc_port: None,
            asset: None,
            from: None,
            to: None,
            who: None,
            amount: None,
        }
    }

    /// Whether `field` has been read.
    fn has(&self, field: Field) -> (b: bool)
        ensures
            b == self@.has(field),
    {
        match field {
            Field::ForkUrl => self.fork_url.is_some(),
            Field::RpcPort => self.rpc_port.is_some(),
            Field::Asset => self.asset.is_some(),
            Field::From => self.from.is_some(),
            Field::To => self.to.is_some(),
            Field::Who => self.who.is_some(),
            Field::Amount => self.amount.is_some(),
        }
    }
}

fn read_fork_url(s: &[char], i: usize) -> (r: Option<Option<String>>)
    requires
        i <= s.len(),
    ensures
        match (fork_url_value(s@.skip(i as int)), r) {
            (Some(url), Some(out)) => crate::cmd::text_model(out) == url,
            (None, None) => true,
            _ => false,
        },
{
    if begins_with(s, i, ['n', 'u', 'l', 'l'].as_slice()) {
        Some(None)
    } else {
        match read_text_value(s, i) {
            Some(text) => Some(Some(text)),
            None => None,
        }
    }
}

fn read_port(s: &[char], i: usize) -> (r: Option<u16>)
    requires
        i <= s.len(),
    ensures
        r == port_value(s@.skip(i as int)),
{
    match read_unsigned(s, i, 65535) {
        Some(n) => Some(n as u16),
        None => None,
    }
}

fn read_address(s: &[char], i: usize) -> (r: Option<Address>)
    requires
        i <= s.len(),
    ensures
        address_model(r) == address_value(s@.skip(i as int)),
{
    match read_text_value(s, i) {
        Some(text) => Address::from_text(text.as_str()),
        None => None,
    }
}

fn read_amount(s: &[char], i: usize) -> (r: Option<U256>)
    requires
        i <= s.len(),
    ensures
        match (amount_value(s@.skip(i as int)), r) {
            (Some(n), Some(v)) => v@ == n,
            (None, None) => true,
            _ => false,
        },
{
    if i < s.len() && s[i] == '"' {
        match read_text_value(s, i) {
            Some(text) => U256::from_text(text.as_str()),
            None => None,
        }
    } else {
        match read_unsigned(s, i, u64::MAX) {
            Some(n) => Some(U256::from_u64(n)),
            None => None,
        }
    }
}

fn read_field(s: &[char], i: usize, field: Field, fields: Fields) -> (r: Option<Fields>)
    requires
        i <= s.len(),
    ensures
        match (with_field(fields@, field, s@.skip(i as int)), r) {
            (Some(model), Some(read)) => read@ == model,
            (None, None) => true,
            _ => false,
        },
{
    let mut fields = fields;
    match field {
        Field::ForkUrl => match read_fork_url(s, i) {
            Some(url) => {
                fields.fork_url = Some(url);
                Some(fields)
            },
            None => None,
        },
        Field::RpcPort => match read_port(s, i) {
            Some(port) => {
                fields.rpc_port = Some(port);
                Some(fields)
            },
            None => None,
        },
        Field::Asset => match read_address(s, i) {
            Some(a) => {
                fields.asset = Some(a);
                Some(fields)
            },
            None => None,
        },
        Field::From => match read_address(s, i) {
            Some(a) => {
                fields.from = Some(a);
                Some(fields)
            },
            None => None,
        },
        Field::To => match read_address(s, i) {
            Some(a) => {
                fields.to = Some(a);
                Some(fields)
            },
            None => None,
        },
        Field::Who => match read_address(s, i) {
            Some(a) => {
                fields.who = Some(a);
                Some(fields)
            },
            None => None,
        },
        Field::Amount => match read_amount(s, i) {
            Some(v) => {
                fields.amount = Some(v);
                Some(fields)
            },
            None => None,
        },
    }
}

/// Whether what was read in `s` from index `i` on is what the text says:
/// the same fields and the index where the rest begins, or the same error.
spec fn reads_as(
    s: Seq<char>,
    i: usize,
    r: Result<(Fields, usize), DecodeError>,
    said: Result<(FieldsModel, Seq<char>), DecodeError>,
) -> bool {
    match (said, r) {
        (Ok((model, rest)), Ok((fields, j))) => {
            &&& fields@ == model
            &&& i < j <= s.len()
            &&& s.skip(j as int) == rest
        },
        (Err(e), Err(x)) => e == x,
        _ => false,
    }
}

fn read_members(s: &[char], i: usize, kind: Kind) -> (r: Result<(Fields, usize), DecodeError>)
    requires
        i <= s.len(),
    ensures
        reads_as(s@, i, r, members_read(kind, FieldsModel::empty(), s@.skip(i as int))),
{
    let mut fields = Fields::empty();
    let mut j: usize = i;
    loop
        invariant
            i <= j <= s.len(),
            members_read(kind, FieldsModel::empty(), s@.skip(i as int)) == members_read(
                kind,
                fields@,
                s@.skip(j as int),
            ),
        decreases s.len() - j,
    {
        let (key, v) = match read_key(s, j) {
            None => {
                return Err(DecodeError::Syntax);
            },
            Some(found) => found,
        };
        let field = field_for(kind, key.as_str());
        match field {
            Some(f) => {
                if fields.has(f) {
                    return Err(DecodeError::DuplicateField);
                }
            },
            None => {},
        }
        let e = match skip_value(s, v, NESTING_LIMIT) {
            None => {
                return Err(DecodeError::Syntax);
            },
            Some(e) => e,
        };
        match field {
            Some(f) => {
                fields = match read_field(s, v, f, fields) {
                    None => {
                        return Err(DecodeError::InvalidValue);
                    },
                    Some(read) => read,
                };
            },
            None => {},
        }
        match read_closing(s, e, '}') {
            Some(end) => {
                return Ok((fields, end));
            },
            None => {},
        }
        match read_following(s, e) {
            None => {
                return Err(DecodeError::Syntax);
            },
            Some(more) => {
                j = more;
            },
        }
    }
}

fn read_fields(s: &[char], i: usize, kind: Kind) -> (r: Result<(Fields, usize), DecodeError>)
    requires
        i <= s.len(),
    ensures
        reads_as(s@, i, r, fields_read(kind, s@.skip(i as int))),
{
    match read_closing(s, i, '}') {
        Some(end) => Ok((Fields::empty(), end)),
        None => {
            let start = skip_space(s, i);
            match read_members(s, start, kind) {
                Ok((fields, end)) => Ok((fields, end)),
                Err(e) => Err(e),
            }
        },
    }
}

fn build(kind: Kind, fields: Fields) -> (r: Result<Command, DecodeError>)
    ensures
        match (assemble(kind, fields@), r) {
            (Ok(model), Ok(command)) => command@ == model,
            (Err(e), Err(x)) => e == x,
            _ => false,
        },
{
    match kind {
        Kind::Server => match fields.rpc_port {
            Some(rpc_port) => Ok(
                Command::Server {
                    fork_url: match fields.fork_url {
                        Some(url) => url,
                        None => None,
                    },
                    rpc_port,
                },
            ),
            None => Err(DecodeError::MissingField),
        },
        Kind::TransferFrom => match (fields.asset, fields.from, fields.to, fields.amount) {
            (Some(asset), Some(from), Some(to), Some(amount)) => Ok(
                Command::TransferFrom { asset, from, to, amount },
            ),
            _ => Err(DecodeError::MissingField),
        },
        Kind::StartImpersonate => match fields.who {
            Some(who) => Ok(Command::StartImpersonate { who }),
            None => Err(DecodeError::MissingField),
        },
        Kind::StopImpersonate => match fields.who {
            Some(who) => Ok(Command::StopImpersonate { who }),
            None => Err(DecodeError::MissingField),
        },
        Kind::SetBalance => match (fields.who, fields.amount) {
            (Some(who), Some(amount)) => Ok(Command::SetBalance { who, amount }),
            _ => Err(DecodeError::MissingField),
        },
    }
}

fn read_end(s: &[char], i: usize) -> (b: bool)
    requires
        i <= s.len(),
    ensures
        b == ends_well(s@.skip(i as int)),
{
    match read_closing(s, i, '}') {
        Some(end) => skip_space(s, end) == s.len(),
        None => false,
    }
}

/// The command that a request body is the wire form of, or why it is
/// none. A body that is not UTF-8 is no text, and so not of the expected
/// shape.
pub open spec fn decode_body(body: Seq<u8>) -> Result<CommandModel, DecodeError> {
    if valid_utf8(body) {
        decode_text(decode_utf8(body))
    } else {
        Err(DecodeError::Syntax)
    }
}

/// Whether a command or an error is what the text says.
pub open spec fn decodes_as(r: Result<Command, DecodeError>, said: Result<CommandModel, DecodeError>)
    -> bool {
    match (said, r) {
        (Ok(model), Ok(command)) => command@ == model,
        (Err(e), Err(x)) => e == x,
        _ => false,
    }
}

impl Command {
    /// Reads a command from the bytes of a request body, which must be the
    /// UTF-8 of its wire form.
    pub fn decode_bytes(body: &[u8]) -> (r: Result<Command, DecodeError>)
        ensures
            decodes_as(r, decode_body(body@)),
    {
        match core::str::from_utf8(body) {
            Ok(text) => {
                proof {
                    encode_utf8_decode_utf8(text@);
                }
                Command::decode(text)
            },
            Err(_) => Err(DecodeError::Syntax),
        }
    }

    /// Reads a command from its wire form. Every text is answered: with the
    /// command it stands for, or with the first reason why it stands for
    /// none.
    pub fn decode(text: &str) -> (r: Result<Command, DecodeError>)
        ensures
            decodes_as(r, decode_text(text@)),
    {
        let chars = chars_of(text);
        let s = chars.as_slice();
        proof {
            assert(s@.skip(0) =~= text@);
        }
        let inside = match read_closing(s, 0, '{') {
            None => {
                return Err(DecodeError::Syntax);
            },
            Some(inside) => inside,
        };
        let (tag, body) = match read_key(s, skip_space(s, inside)) {
            None => {
                return Err(DecodeError::Syntax);
            },
            Some(found) => found,
        };
        let kind = match kind_named(tag.as_str()) {
            None => {
                return Err(DecodeError::UnknownVariant);
            },
            Some(kind) => kind,
        };
        if body < s.len() && s[body] == '{' {
            proof {
                assert(s@.skip(body as int).drop_first() =~= s@.skip(body as int + 1));
            }
            match read_fields(s, body + 1, kind) {
                Err(e) => Err(e),
                Ok((fields, after)) => {
                    if read_end(s, after) {
                        build(kind, fields)
                    } else {
                        Err(DecodeError::Syntax)
                    }
                },
            }
        } else {
            match skip_value(s, body, NESTING_LIMIT) {
                Some(_) => Err(DecodeError::InvalidValue),
                None => Err(DecodeError::Syntax),
            }
        }
    }
}

/// The kind of a command.
pub open spec fn kind_of_command(command: CommandModel) -> Kind {
    match command {
        CommandModel::Server { .. } => Kind::Server,
        CommandModel::TransferFrom { .. } => Kind::TransferFrom,
        CommandModel::StartImpersonate { .. } => Kind::StartImpersonate,
        CommandModel::StopImpersonate { .. } => Kind::StopImpersonate,
        CommandModel::SetBalance { .. } => Kind::SetBalance,
    }
}

/// A member: the field's name as a string, a colon, the value, and then
/// what comes `after` the member.
pub open spec fn member(field: Field, value: Seq<char>, after: Seq<char>) -> Seq<char> {
    string_literal(field_name(field)) + (seq![':'] + (value + after))
}

/// A comma and then the next member.
pub open spec fn and_then(after: Seq<char>) -> Seq<char> {
    seq![','] + after
}

/// The closing braces of the object of fields and of the outer object.
pub open spec fn closed() -> Seq<char> {
    seq!['}', '}']
}

/// How an optional fork URL is written: a string, or `null`.
pub open spec fn fork_url_json(url: Option<Seq<char>>) -> Seq<char> {
    match url {
        Some(text) => string_literal(text),
        None => seq!['n', 'u', 'l', 'l'],
    }
}

/// How an address is written: its text form as a string.
pub open spec fn address_json(address: Seq<u8>) -> Seq<char> {
    string_literal(address_text(address))
}

/// How an amount is written: its text form as a string.
pub open spec fn amount_json(amount: nat) -> Seq<char> {
    string_literal(uint_text(amount))
}

/// The members of a command, in the order of its fields, and the closing
/// braces.
pub open spec fn body_text(command: CommandModel) -> Seq<char> {
    match command {
        CommandModel::Server { fork_url, rpc_port } => member(
            Field::ForkUrl,
            fork_url_json(fork_url),
            and_then(member(Field::RpcPort, decimal_digits(rpc_port as nat), closed())),
        ),
        CommandModel::TransferFrom { asset, from, to, amount } => member(
            Field::Asset,
            address_json(asset),
            and_then(
                member(
                    Field::From,
                    address_json(from),
                    and_then(
                        member(
                            Field::To,
                            address_json(to),
                            and_then(member(Field::Amount, amount_json(amount), closed())),
                        ),
                    ),
                ),
            ),
        ),
        CommandModel::StartImpersonate { who } => member(Field::Who, address_json(who), closed()),
        CommandModel::StopImpersonate { who } => member(Field::Who, address_json(who), closed()),
        CommandModel::SetBalance { who, amount } => member(
            Field::Who,
            address_json(who),
            and_then(member(Field::Amount, amount_json(amount), closed())),
        ),
    }
}

/// The wire form of a command: no white space, the fields in their order.
pub open spec fn encode_text(command: CommandModel) -> Seq<char> {
    seq!['{'] + (string_literal(kind_name(kind_of_command(command))) + (seq![':', '{']
        + body_text(command)))
}

fn write_name(name: &str, out: &mut String)
    ensures
        final(out)@ == old(out)@ + (string_literal(name@) + seq![':']),
{
    write_string(name, out);
    out.push(':');
    proof {
        assert(out@ =~= old(out)@ + (string_literal(name@) + seq![':']));
    }
}

fn write_address(address: &Address, out: &mut String)
    ensures
        final(out)@ == old(out)@ + address_json(address@),
{
    let text = address.to_text();
    write_string(text.as_str(), out);
}

fn write_amount(amount: &U256, out: &mut String)
    ensures
        final(out)@ == old(out)@ + amount_json(amount@),
{
    let text = amount.to_text();
    write_string(text.as_str(), out);
}

fn write_fork_url(url: &Option<String>, out: &mut String)
    ensures
        final(out)@ == old(out)@ + fork_url_json(crate::cmd::text_model(*url)),
{
    match url {
        Some(text) => write_string(text.as_str(), out),
        None => {
            out.push('n');
            out.push('u');
            out.push('l');
            out.push('l');
            proof {
                assert(out@ =~= old(out)@ + seq!['n', 'u', 'l', 'l']);
            }
        },
    }
}

/// A member is its name, its value and what comes after, one after the
/// other.
proof fn lemma_member_flat(
    before: Seq<char>,
    field: Field,
    value: Seq<char>,
    after: Seq<char>,
)
    ensures
        before + member(field, value, after) == before + (string_literal(field_name(field))
            + seq![':']) + value + after,
{
    assert(before + member(field, value, after) =~= before + (string_literal(field_name(field))
        + seq![':']) + value + after);
}

/// A comma written before what comes next is the start of what comes next.
proof fn lemma_comma_flat(before: Seq<char>, after: Seq<char>)
    ensures
        before.push(',') + after == before + and_then(after),
{
    assert(before.push(',') + after =~= before + and_then(after));
}

fn write_closed(out: &mut String)
    ensures
        final(out)@ == old(out)@ + closed(),
{
    out.push('}');
    out.push('}');
    proof {
        assert(out@ =~= old(out)@ + closed());
    }
}

fn write_head(name: &str, out: &mut String)
    ensures
        final(out)@ == old(out)@ + (seq!['{'] + (string_literal(name@) + seq![':', '{'])),
{
    out.push('{');
    write_string(name, out);
    out.push(':');
    out.push('{');
    proof {
        assert(out@ =~= old(out)@ + (seq!['{'] + (string_literal(name@) + seq![':', '{'])));
    }
}

/// The wire form is its head and its body, one after the other.
proof fn lemma_encode_flat(command: CommandModel)
    ensures
        encode_text(command) == Seq::<char>::empty() + (seq!['{'] + (string_literal(
            kind_name(kind_of_command(command)),
        ) + seq![':', '{'])) + body_text(command),
{
    assert(encode_text(command) =~= Seq::<char>::empty() + (seq!['{'] + (string_literal(
        kind_name(kind_of_command(command)),
    ) + seq![':', '{'])) + body_text(command));
}

fn write_server(fork_url: &Option<String>, rpc_port: u16, out: &mut String)
    ensures
        final(out)@ == old(out)@ + body_text(
            CommandModel::Server { fork_url: crate::cmd::text_model(*fork_url), rpc_port },
        ),
{
    write_name("fork_url", out);
    write_fork_url(fork_url, out);
    let ghost first = out@;
    out.push(',');
    write_name("rpc_port", out);
    write_decimal(rpc_port as u64, out);
    write_closed(out);
    proof {
        let url = fork_url_json(crate::cmd::text_model(*fork_url));
        let last = member(Field::RpcPort, decimal_digits(rpc_port as nat), closed());
        lemma_member_flat(first.push(','), Field::RpcPort, decimal_digits(rpc_port as nat), closed());
        lemma_comma_flat(first, last);
        lemma_member_flat(old(out)@, Field::ForkUrl, url, and_then(last));
    }
}

fn write_who(who: &Address, out: &mut String)
    ensures
        final(out)@ == old(out)@ + member(Field::Who, address_json(who@), closed()),
{
    write_name("who", out);
    write_address(who, out);
    write_closed(out);
    proof {
        lemma_member_flat(old(out)@, Field::Who, address_json(who@), closed());
    }
}

fn write_set_balance(who: &Address, amount: &U256, out: &mut String)
    ensures
        final(out)@ == old(out)@ + body_text(
            CommandModel::SetBalance { who: who@, amount: amount@ },
        ),
{
    write_name("who", out);
    write_address(who, out);
    let ghost first = out@;
    out.push(',');
    write_name("amount", out);
    write_amount(amount, out);
    write_closed(out);
    proof {
        let last = member(Field::Amount, amount_json(amount@), closed());
        lemma_member_flat(first.push(','), Field::Amount, amount_json(amount@), closed());
        lemma_comma_flat(first, last);
        lemma_member_flat(old(out)@, Field::Who, address_json(who@), and_then(last));
    }
}

fn write_to_amount(to: &Address, amount: &U256, out: &mut String)
    ensures
        final(out)@ == old(out)@ + member(
            Field::To,
            address_json(to@),
            and_then(member(Field::Amount, amount_json(amount@), closed())),
        ),
{
    write_name("to", out);
    write_address(to, out);
    let ghost first = out@;
    out.push(',');
    write_name("amount", out);
    write_amount(amount, out);
    write_closed(out);
    proof {
        let last = member(Field::Amount, amount_json(amount@), closed());
        lemma_member_flat(first.push(','), Field::Amount, amount_json(amount@), closed());
        lemma_comma_flat(first, last);
        lemma_member_flat(old(out)@, Field::To, address_json(to@), and_then(last));
    }
}

fn write_transfer(asset: &Address, from: &Address, to: &Address, amount: &U256, out: &mut String)
    ensures
        final(out)@ == old(out)@ + body_text(
            CommandModel::TransferFrom { asset: asset@, from: from@, to: to@, amount: amount@ },
        ),
{
    write_name("asset", out);
    write_address(asset, out);
    let ghost first = out@;
    out.push(',');
    write_name("from", out);
    write_address(from, out);
    let ghost second = out@;
    out.push(',');
    write_to_amount(to, amount, out);
    proof {
        let tail = member(
            Field::To,
            address_json(to@),
            and_then(member(Field::Amount, amount_json(amount@), closed())),
        );
        let middle = member(Field::From, address_json(from@), and_then(tail));
        lemma_comma_flat(second, tail);
        lemma_member_flat(first.push(','), Field::From, address_json(from@), and_then(tail));
        lemma_comma_flat(first, middle);
        lemma_member_flat(old(out)@, Field::Asset, address_json(asset@), and_then(middle));
    }
}

impl Command {
    /// Writes the wire form of the command.
    pub fn encode(&self) -> (out: String)
        ensures
            out@ == encode_text(self@),
    {
        let mut out = String::new();
        proof {
            lemma_encode_flat(self@);
        }
        match self {
            Command::Server { fork_url, rpc_port } => {
                write_head("Server", &mut out);
                write_server(fork_url, *rpc_port, &mut out);
            },
            Command::TransferFrom { asset, from, to, amount } => {
                write_head("TransferFrom", &mut out);
                write_transfer(asset, from, to, amount, &mut out);
            },
            Command::StartImpersonate { who } => {
                write_head("StartImpersonate", &mut out);
                write_who(who, &mut out);
            },
            Command::StopImpersonate { who } => {
                write_head("StopImpersonate", &mut out);
                write_who(who, &mut out);
            },
            Command::SetBalance { who, amount } => {
                write_head("SetBalance", &mut out);
                write_set_balance(who, amount, &mut out);
            },
        }
        out
    }
}

} // verus!
