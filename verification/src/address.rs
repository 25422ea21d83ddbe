//! The two texts that name an identity by its keys: the host name of a hidden service, and the
//! address that the Nym client answers with. Keys are written in Base58.

use vstd::prelude::*;

use crate::error::SocksError;
use crate::identity::Identity;
use crate::message::{Message, MessageView};
use crate::text::{
    first_piece_end, first_separator_ends_the_first_piece, pieces, split,
    text_without_separators_is_one_piece, texts,
};

verus! {

/// Why a text is not Base58, as the `bs58` crate reports it.
#[verifier::external_type_specification]
#[verifier::external_body]
pub struct ExBase58Error(bs58::decode::Error);

/// A JSON value, as the `serde_json` crate holds it.
#[verifier::external_type_specification]
#[verifier::external_body]
pub struct ExJsonValue(serde_json::Value);

/// Why a text is not JSON, as the `serde_json` crate reports it.
#[verifier::external_type_specification]
#[verifier::external_body]
pub struct ExJsonError(serde_json::Error);

/// The digits of Base58, from zero to 57.
pub open spec fn base58_alphabet() -> Seq<char> {
    "123456789ABCDEFGHJKLMNPQRSTUVWXYZabcdefghijkmnopqrstuvwxyz"@
}

/// The number that `digits` are in base 58, most significant digit first.
pub open spec fn base58_value(digits: Seq<char>) -> nat
    decreases digits.len(),
{
    if digits.len() == 0 {
        0
    } else {
        58 * base58_value(digits.drop_last()) + base58_alphabet().index_of(digits.last()) as nat
    }
}

/// The bytes of `value`, most significant byte first and without zeros in front.
pub open spec fn big_endian(value: nat) -> Seq<u8>
    decreases value,
{
    if value == 0 {
        Seq::empty()
    } else {
        big_endian(value / 256).push((value % 256) as u8)
    }
}

/// The number of digits zero at the front of `digits`.
pub open spec fn leading_zeros(digits: Seq<char>) -> nat
    decreases digits.len(),
{
    if digits.len() > 0 && digits[0] == '1' {
        1 + leading_zeros(digits.drop_first())
    } else {
        0
    }
}

/// The bytes that a text is in Base58, if it is: those of its number, with a zero in front for
/// every digit zero at the front of the text.
pub open spec fn base58_decoded(text: Seq<char>) -> Option<Seq<u8>> {
    if forall|i: int| 0 <= i < text.len() ==> base58_alphabet().contains(#[trigger] text[i]) {
        Some(Seq::new(leading_zeros(text), |i: int| 0u8) + big_endian(base58_value(text)))
    } else {
        None
    }
}

/// The members of a JSON object that are strings; none for any other JSON value.
pub uninterp spec fn json_strings(value: serde_json::Value) -> Map<Seq<char>, Seq<char>>;

/// The string in `strings` under the name `key`, if there is one.
pub open spec fn string_at(strings: Map<Seq<char>, Seq<char>>, key: Seq<char>) -> Option<
    Seq<char>,
> {
    if strings.contains_key(key) {
        Some(strings[key])
    } else {
        None
    }
}

/// The string that a JSON value is, if it is one.
pub uninterp spec fn json_string(value: serde_json::Value) -> Option<Seq<char>>;

/// The members of the JSON value that `text` is that are strings, if `text` is JSON.
pub uninterp spec fn json_strings_in(text: Seq<char>) -> Option<Map<Seq<char>, Seq<char>>>;

/// Calls `bs58::decode` with the default alphabet, and `into_vec`: the bytes of the number that
/// the text is, with its leading zeros, or an error if a character is not in the alphabet.
#[verifier::external_body]
fn decode_base58(text: &str) -> (result: Result<Vec<u8>, bs58::decode::Error>)
    ensures
        match result {
            Ok(bytes) => base58_decoded(text@) == Some(bytes@),
            Err(_) => base58_decoded(text@) is None,
        },
{
    bs58::decode(text).into_vec()
}

/// Calls `serde_json::from_str`. Whether `text` is JSON, and which members of its value are
/// strings, depends on `text` alone.
#[verifier::external_body]
fn parse_json(text: &str) -> (result: Result<serde_json::Value, serde_json::Error>)
    ensures
        match result {
            Ok(value) => json_strings_in(text@) == Some(json_strings(value)),
            Err(_) => json_strings_in(text@) is None,
        },
{
    serde_json::from_str(text)
}

/// Calls `serde_json::Value::get` with a string: the member of that name, where the value is an
/// object that has it.
#[verifier::external_body]
fn json_member<'a>(value: &'a serde_json::Value, key: &str) -> (result: Option<
    &'a serde_json::Value,
>)
    ensures
        match result {
            Some(member) => string_at(json_strings(*value), key@) == json_string(*member),
            None => string_at(json_strings(*value), key@) is None,
        },
{
    value.get(key)
}

/// Calls `serde_json::Value::as_str`: the string, where the value is one.
#[verifier::external_body]
fn json_as_str(value: &serde_json::Value) -> (result: Option<&str>)
    ensures
        match result {
            Some(string) => json_string(*value) == Some(string@),
            None => json_string(*value) is None,
        },
{
    value.as_str()
}

/// Whether `text` is a key in Base58.
pub open spec fn is_key(text: Seq<char>) -> bool {
    base58_decoded(text) matches Some(bytes) && bytes.len() == 32
}

/// The keys of the identity that two texts name.
pub open spec fn named_keys(names: (Seq<char>, Seq<char>)) -> Seq<u8> {
    base58_decoded(names.0)->Some_0 + base58_decoded(names.1)->Some_0
}

/// The client and the gateway that a host name like `client.gateway.nym` names.
pub open spec fn destination_names(fqdn: Seq<char>) -> Option<(Seq<char>, Seq<char>)> {
    let labels = pieces(fqdn, '.');
    if labels.len() >= 3 && labels[2] == "nym"@ {
        Some((labels[0], labels[1]))
    } else {
        None
    }
}

/// The client and the gateway that an address like `client@gateway` names.
pub open spec fn address_names(addr: Seq<char>) -> Option<(Seq<char>, Seq<char>)> {
    let parts = pieces(addr, '@');
    if parts.len() >= 2 {
        Some((parts[0], parts[1]))
    } else {
        None
    }
}

/// Whether both texts are keys in Base58.
pub open spec fn are_keys(names: (Seq<char>, Seq<char>)) -> bool {
    is_key(names.0) && is_key(names.1)
}

/// The client and the gateway in the host name of a hidden service.
pub fn split_destination(fqdn: &str) -> (result: Result<(String, String), SocksError>)
    ensures
        match result {
            Ok((client, gateway)) => destination_names(fqdn@) == Some((client@, gateway@)),
            Err(error) => error is UnsupportedDestination && destination_names(fqdn@) is None,
        },
{
    let labels = split(fqdn, '.');
    assert(texts(labels@).len() == labels@.len());
    if labels.len() < 3 {
        return Err(SocksError::UnsupportedDestination);
    }
    assert(forall|i: int| 0 <= i < labels@.len() ==> texts(labels@)[i] == #[trigger] labels@[i]@);
    if labels[2] != "nym".to_owned() {
        return Err(SocksError::UnsupportedDestination);
    }
    Ok((labels[0].clone(), labels[1].clone()))
}

/// The hidden service that a host name names. The client and the gateway in it have to be keys:
/// [`try_parse_destination`] tells other names apart.
pub fn parse_destination(fqdn: &str) -> (result: Result<Identity, SocksError>)
    requires
        destination_names(fqdn@) matches Some(names) ==> are_keys(names),
    ensures
        match result {
            Ok(identity) => destination_names(fqdn@) is Some && identity@ == named_keys(
                destination_names(fqdn@)->Some_0,
            ),
            Err(error) => error is UnsupportedDestination && destination_names(fqdn@) is None,
        },
{
    match split_destination(fqdn) {
        Ok((client, gateway)) => Ok(decode_keys(client.as_str(), gateway.as_str())),
        Err(error) => Err(error),
    }
}

/// As [`parse_destination`], and `None` for the name of a hidden service that holds no keys.
pub fn try_parse_destination(fqdn: &str) -> (result: Option<Result<Identity, SocksError>>)
    ensures
        match result {
            Some(Ok(identity)) => destination_names(fqdn@) is Some && are_keys(
                destination_names(fqdn@)->Some_0,
            ) && identity@ == named_keys(destination_names(fqdn@)->Some_0),
            Some(Err(error)) => error is UnsupportedDestination && destination_names(fqdn@) is None,
            None => destination_names(fqdn@) is Some && !are_keys(
                destination_names(fqdn@)->Some_0,
            ),
        },
{
    if let Ok((client, gateway)) = split_destination(fqdn) {
        if !names_key(client.as_str()) || !names_key(gateway.as_str()) {
            return None;
        }
    }
    Some(parse_destination(fqdn))
}

/// The question for the client's own address.
pub fn self_address_request() -> (msg: Message)
    ensures
        msg@ == MessageView::Text("{\"type\": \"selfAddress\"}"@),
{
    Message::Text("{\"type\": \"selfAddress\"}".to_owned())
}

/// The address in a JSON value: its member `address`, if that is a string.
pub fn address_in(answer: &serde_json::Value) -> (address: Option<String>)
    ensures
        match address {
            Some(address) => string_at(json_strings(*answer), "address"@) == Some(address@),
            None => string_at(json_strings(*answer), "address"@) is None,
        },
{
    match json_member(answer, "address") {
        Some(member) => match json_as_str(member) {
            Some(address) => Some(address.to_owned()),
            None => None,
        },
        None => None,
    }
}

/// The address in the answer to [`self_address_request`]; there is none in an answer that is not
/// JSON, or no object, or whose member `address` is missing or no string.
pub fn self_address(answer: &str) -> (address: Option<String>)
    ensures
        match address {
            Some(address) => json_strings_in(answer@) matches Some(strings) && string_at(
                strings,
                "address"@,
            ) == Some(address@),
            None => json_strings_in(answer@) matches Some(strings) ==> string_at(
                strings,
                "address"@,
            ) is None,
        },
{
    match parse_json(answer) {
        Ok(value) => address_in(&value),
        Err(_) => None,
    }
}

/// The client and the gateway in an address.
pub fn split_address(addr: &str) -> (result: Option<(String, String)>)
    ensures
        match result {
            Some((client, gateway)) => address_names(addr@) == Some((client@, gateway@)),
            None => address_names(addr@) is None,
        },
{
    let parts = split(addr, '@');
    assert(texts(parts@).len() == parts@.len());
    if parts.len() < 2 {
        return None;
    }
    assert(forall|i: int| 0 <= i < parts@.len() ==> texts(parts@)[i] == #[trigger] parts@[i]@);
    Some((parts[0].clone(), parts[1].clone()))
}

/// The identity at an address. The address has to name two keys: [`try_parse_address`] tells
/// others apart.
pub fn parse_address(addr: &str) -> (identity: Identity)
    requires
        address_names(addr@) matches Some(names) && are_keys(names),
    ensures
        identity@ == named_keys(address_names(addr@)->Some_0),
{
    let (client, gateway) = split_address(addr).unwrap();
    decode_keys(client.as_str(), gateway.as_str())
}

/// As [`parse_address`], and `None` for an address that does not name two keys.
pub fn try_parse_address(addr: &str) -> (identity: Option<Identity>)
    ensures
        identity is Some <==> (address_names(addr@) matches Some(names) && are_keys(names)),
        identity matches Some(identity) ==> identity@ == named_keys(address_names(addr@)->Some_0),
{
    match split_address(addr) {
        Some((client, gateway)) => {
            if names_key(client.as_str()) && names_key(gateway.as_str()) {
                Some(parse_address(addr))
            } else {
                None
            }
        },
        None => None,
    }
}

/// The identity that two keys in Base58 name.
fn decode_keys(client: &str, gateway: &str) -> (identity: Identity)
    requires
        are_keys((client@, gateway@)),
    ensures
        identity@ == named_keys((client@, gateway@)),
{
    let client = decode_base58(client).unwrap();
    let gateway = decode_base58(gateway).unwrap();
    Identity::from_keys(client.as_slice(), gateway.as_slice())
}

/// Whether `text` is a key in Base58.
fn names_key(text: &str) -> (result: bool)
    ensures
        result == is_key(text@),
{
    match decode_base58(text) {
        Ok(bytes) => bytes.len() == 32,
        Err(_) => false,
    }
}

/// `client` and `gateway`, joined by `separator`, with `tail` behind them.
proof fn first_two_pieces(
    client: Seq<char>,
    gateway: Seq<char>,
    separator: char,
    tail: Seq<char>,
)
    requires
        !client.contains(separator),
        !gateway.contains(separator),
    ensures
        pieces(client + seq![separator] + gateway + seq![separator] + tail, separator) == seq![
            client,
            gateway,
        ] + pieces(tail, separator),
{
    let rest = gateway + seq![separator] + tail;
    assert(client + seq![separator] + gateway + seq![separator] + tail =~= client + seq![
        separator,
    ] + rest);
    first_separator_ends_the_first_piece(client, separator, rest);
    first_separator_ends_the_first_piece(gateway, separator, tail);
    assert(seq![client] + (seq![gateway] + pieces(tail, separator)) =~= seq![client, gateway]
        + pieces(tail, separator));
}

/// What begins with `label`, and then ends or goes on behind a separator, has it as first piece.
proof fn label_comes_first(label: Seq<char>, separator: char, rest: Seq<char>)
    requires
        !label.contains(separator),
        rest.len() > 0 ==> rest[0] == separator,
    ensures
        pieces(label + rest, separator).len() >= 1,
        pieces(label + rest, separator)[0] == label,
{
    if rest.len() == 0 {
        assert(label + rest =~= label);
        text_without_separators_is_one_piece(label, separator);
    } else {
        assert(label + rest =~= label + seq![separator] + rest.skip(1));
        first_separator_ends_the_first_piece(label, separator, rest.skip(1));
    }
}

/// Any two texts without a dot, of whatever length, are the client and the gateway of the host
/// name that joins them by dots with `nym` behind, also where more labels follow.
pub proof fn host_names_name_client_and_gateway(
    client: Seq<char>,
    gateway: Seq<char>,
    rest: Seq<char>,
)
    requires
        !client.contains('.'),
        !gateway.contains('.'),
        rest.len() > 0 ==> rest[0] == '.',
    ensures
        destination_names(client + seq!['.'] + gateway + seq!['.', 'n', 'y', 'm'] + rest) == Some(
            (client, gateway),
        ),
{
    reveal_strlit("nym");
    let nym = seq!['n', 'y', 'm'];
    assert("nym"@ =~= nym);
    assert(client + seq!['.'] + gateway + seq!['.', 'n', 'y', 'm'] + rest =~= client + seq!['.']
        + gateway + seq!['.'] + (nym + rest));
    first_two_pieces(client, gateway, '.', nym + rest);
    label_comes_first(nym, '.', rest);
}

/// Whether a host name is a client and a gateway, without a dot in either, and `nym`, joined by
/// dots, and goes on with a dot if at all.
pub open spec fn is_service_name(
    fqdn: Seq<char>,
    client: Seq<char>,
    gateway: Seq<char>,
) -> bool {
    let name = client + seq!['.'] + gateway + seq!['.', 'n', 'y', 'm'];
    &&& !client.contains('.')
    &&& !gateway.contains('.')
    &&& name.is_prefix_of(fqdn)
    &&& fqdn.len() > name.len() ==> fqdn[name.len() as int] == '.'
}

/// No other host name names a client and a gateway.
pub proof fn other_host_names_name_nobody(fqdn: Seq<char>)
    ensures
        destination_names(fqdn) matches Some((client, gateway)) ==> is_service_name(
            fqdn,
            client,
            gateway,
        ),
{
    reveal_strlit("nym");
    if let Some((client, gateway)) = destination_names(fqdn) {
        let end = first_piece_end(fqdn, '.');
        let first = fqdn.take(end);
        if end == fqdn.len() {
            text_without_separators_is_one_piece(fqdn, '.');
        }
        let behind = fqdn.skip(end + 1);
        first_separator_ends_the_first_piece(first, '.', behind);
        let middle = first_piece_end(behind, '.');
        let second = behind.take(middle);
        if middle == behind.len() {
            text_without_separators_is_one_piece(behind, '.');
        }
        let tail = behind.skip(middle + 1);
        first_separator_ends_the_first_piece(second, '.', tail);
        let last = first_piece_end(tail, '.');
        let third = tail.take(last);
        if last == tail.len() {
            text_without_separators_is_one_piece(tail, '.');
        } else {
            first_separator_ends_the_first_piece(third, '.', tail.skip(last + 1));
        }
        assert(pieces(fqdn, '.') == seq![first] + (seq![second] + pieces(tail, '.')));
        assert(client == first && gateway == second && third == "nym"@);
        let name = client + seq!['.'] + gateway + seq!['.', 'n', 'y', 'm'];
        assert(name =~= fqdn.subrange(0, name.len() as int));
    }
}

/// Any two texts without an at sign, of whatever length, are the client and the gateway of the
/// address that joins them by one, also where more parts follow.
pub proof fn addresses_name_client_and_gateway(
    client: Seq<char>,
    gateway: Seq<char>,
    rest: Seq<char>,
)
    requires
        !client.contains('@'),
        !gateway.contains('@'),
        rest.len() > 0 ==> rest[0] == '@',
    ensures
        address_names(client + seq!['@'] + gateway + rest) == Some((client, gateway)),
{
    assert(client + seq!['@'] + gateway + rest =~= client + seq!['@'] + (gateway + rest));
    first_separator_ends_the_first_piece(client, '@', gateway + rest);
    label_comes_first(gateway, '@', rest);
}

/// A text is an address if and only if there is an at sign in it.
pub proof fn addresses_have_an_at_sign(addr: Seq<char>)
    ensures
        address_names(addr) is Some <==> addr.contains('@'),
{
    let end = first_piece_end(addr, '@');
    let first = addr.take(end);
    if end == addr.len() {
        text_without_separators_is_one_piece(addr, '@');
    } else {
        let behind = addr.skip(end + 1);
        let middle = first_piece_end(behind, '@');
        assert(addr[end] == '@');
        if middle == behind.len() {
            addresses_name_client_and_gateway(first, behind, Seq::empty());
            assert(first + seq!['@'] + behind + Seq::<char>::empty() =~= addr);
        } else {
            let second = behind.take(middle);
            let rest = seq!['@'] + behind.skip(middle + 1);
            addresses_name_client_and_gateway(first, second, rest);
            assert(first + seq!['@'] + second + rest =~= addr);
        }
    }
}

/// Neither a dot nor an at sign is a digit of Base58.
proof fn base58_has_no_separators(text: Seq<char>)
    requires
        base58_decoded(text) is Some,
    ensures
        !text.contains('.'),
        !text.contains('@'),
{
    reveal_strlit("123456789ABCDEFGHJKLMNPQRSTUVWXYZabcdefghijkmnopqrstuvwxyz");
    assert forall|i: int| 0 <= i < text.len() implies text[i] != '.' && text[i] != '@' by {
        assert(base58_alphabet().contains(text[i]));
    }
}

/// The host name and the address that are made of the Base58 texts of two keys lead to these
/// keys, the client's first, whatever the keys are and whatever follows.
pub proof fn keys_are_found_in_host_names_and_addresses(
    client: Seq<char>,
    gateway: Seq<char>,
    client_key: Seq<u8>,
    gateway_key: Seq<u8>,
    rest: Seq<char>,
)
    requires
        base58_decoded(client) == Some(client_key),
        base58_decoded(gateway) == Some(gateway_key),
        client_key.len() == 32,
        gateway_key.len() == 32,
    ensures
        (rest.len() > 0 ==> rest[0] == '.') ==> ({
            let fqdn = client + seq!['.'] + gateway + seq!['.', 'n', 'y', 'm'] + rest;
            destination_names(fqdn) matches Some(names) && are_keys(names) && named_keys(names)
                == client_key + gateway_key
        }),
        (rest.len() > 0 ==> rest[0] == '@') ==> ({
            let addr = client + seq!['@'] + gateway + rest;
            address_names(addr) matches Some(names) && are_keys(names) && named_keys(names)
                == client_key + gateway_key
        }),
{
    base58_has_no_separators(client);
    base58_has_no_separators(gateway);
    if rest.len() > 0 ==> rest[0] == '.' {
        host_names_name_client_and_gateway(client, gateway, rest);
    }
    if rest.len() > 0 ==> rest[0] == '@' {
        addresses_name_client_and_gateway(client, gateway, rest);
    }
}

/// Two texts are keys if and only if each is the Base58 text of 32 bytes.
pub proof fn keys_have_32_bytes(client: Seq<char>, gateway: Seq<char>)
    ensures
        are_keys((client, gateway)) <==> {
            &&& base58_decoded(client) matches Some(bytes) && bytes.len() == 32
            &&& base58_decoded(gateway) matches Some(bytes) && bytes.len() == 32
        },
{
}

} // verus!
