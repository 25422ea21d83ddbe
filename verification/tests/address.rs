use nym_hs::address::{
    address_in, parse_address, parse_destination, self_address, self_address_request, split_address,
    split_destination, try_parse_address, try_parse_destination,
};
use nym_hs::text::split;
use nym_hs::{Message, SocksError};

const CLIENT: &str = "4wBqpZM9xaSheZzJSMawUKKwhdpChKbZ5eu5ky4Vigw";
const GATEWAY: &str = "3ELeRTTg5W5hAYaEFznzFV1jknNFkjHqS8ytwvQEQP1Z";
const ZERO_FIRST: &str = "1thX6LZfHDZZKUs92febYZhYRcXddmzfzF2NvTkPNE";

fn counting(first: u8) -> [u8; 32] {
    let mut key = [0u8; 32];
    for (i, byte) in key.iter_mut().enumerate() {
        *byte = first + i as u8;
    }
    key
}

#[test]
fn text_is_cut_as_std_cuts_it() {
    for text in ["", ".", "a", "a.b", ".a..b.", "h\u{e9}.\u{1f600}.nym", "...", "no dots"] {
        let expected: Vec<String> = text.split('.').map(|piece| piece.to_string()).collect();
        assert_eq!(split(text, '.'), expected);
    }
}

#[test]
fn destination_names_a_client_and_a_gateway() {
    let (client, gateway) = split_destination("peer.gate.nym").unwrap();
    assert_eq!((client.as_str(), gateway.as_str()), ("peer", "gate"));
    let (client, gateway) = split_destination("..nym.rest").unwrap();
    assert_eq!((client.as_str(), gateway.as_str()), ("", ""));
}

#[test]
fn other_destinations_are_not_supported() {
    for fqdn in ["", "nym", "peer.nym", "peer.gate", "peer.gate.com", "peer.gate.Nym", "a.b.c.nym"]
    {
        assert!(matches!(split_destination(fqdn), Err(SocksError::UnsupportedDestination)));
        assert!(matches!(parse_destination(fqdn), Err(SocksError::UnsupportedDestination)));
        assert!(matches!(
            try_parse_destination(fqdn),
            Some(Err(SocksError::UnsupportedDestination))
        ));
    }
}

#[test]
fn destination_has_these_keys() {
    let fqdn = format!("{}.{}.nym", CLIENT, GATEWAY);
    let identity = parse_destination(&fqdn).unwrap();
    assert_eq!(identity.client, counting(1));
    assert_eq!(identity.gateway, counting(33));
    let fqdn = format!("{}.{}.nym.", ZERO_FIRST, CLIENT);
    let identity = try_parse_destination(&fqdn).unwrap().unwrap();
    assert_eq!(identity.client, counting(0));
    assert_eq!(identity.gateway, counting(1));
}

#[test]
fn destination_without_keys_has_no_answer() {
    for (client, gateway) in [("0", GATEWAY), (CLIENT, "l"), ("5T", GATEWAY), (CLIENT, "")] {
        let fqdn = format!("{}.{}.nym", client, gateway);
        assert!(try_parse_destination(&fqdn).is_none());
    }
}

#[test]
fn own_address_is_asked_for() {
    match self_address_request() {
        Message::Text(text) => assert_eq!(text, "{\"type\": \"selfAddress\"}"),
        other => panic!("{:?}", other),
    }
}

#[test]
fn own_address_is_found_in_the_answer() {
    let answer = "{\"type\": \"selfAddress\", \"address\": \"a@b\"}";
    assert_eq!(self_address(answer), Some("a@b".to_string()));
    assert_eq!(self_address("{\"address\": \"\\u0061\"}"), Some("a".to_string()));
    for answer in ["", "address", "[\"address\"]", "{}", "{\"address\": 7}", "{\"adress\": \"a\"}"] {
        assert_eq!(self_address(answer), None);
    }
}

#[test]
fn own_address_is_found_in_a_value() {
    let value = |text: &str| -> serde_json::Value { serde_json::from_str(text).unwrap() };
    assert_eq!(address_in(&value("{\"address\": \"a@b\"}")), Some("a@b".to_string()));
    assert_eq!(
        address_in(&value("{\"address\": \"a\", \"address\": \"b\"}")),
        Some("b".to_string())
    );
    for text in ["\"address\"", "{\"address\": null}", "{\"a\": {\"address\": \"a\"}}"] {
        assert_eq!(address_in(&value(text)), None);
    }
}

#[test]
fn address_has_these_keys() {
    let identity = parse_address(&format!("{}@{}", CLIENT, GATEWAY));
    assert_eq!(identity.client, counting(1));
    assert_eq!(identity.gateway, counting(33));
    let identity = try_parse_address(&format!("{}@{}@rest", GATEWAY, CLIENT)).unwrap();
    assert_eq!(identity.client, counting(33));
    assert_eq!(identity.gateway, counting(1));
}

#[test]
fn other_addresses_have_no_answer() {
    assert_eq!(split_address("peer"), None);
    assert_eq!(split_address("peer@gate@x"), Some(("peer".to_string(), "gate".to_string())));
    for addr in ["", CLIENT, "0@0", "5T@5T"] {
        assert!(try_parse_address(addr).is_none());
    }
    assert!(try_parse_address(&format!("{}.{}", CLIENT, GATEWAY)).is_none());
}
