use bech32::ToBase32;
use nym_hs::{Identity, IdentityParseError};

fn counting_identity() -> Identity {
    let bytes: Vec<u8> = (0u8..64).collect();
    Identity::from_keys(&bytes[..32], &bytes[32..])
}

const COUNTING_TEXT: &str = "nym1qqqsyqcyq5rqwzqfpg9scrgwpugpzysnzs23v9ccrydpk8qarc0jqgfzyvjz2f389q5j52ev95hz7vp3xgengdfkxuurjw3m8s7nu0cjxja9v";

#[test]
fn keys_stand_in_order() {
    let identity = counting_identity();
    assert_eq!(identity.client[0], 0);
    assert_eq!(identity.client[31], 31);
    assert_eq!(identity.gateway[0], 32);
    assert_eq!(identity.gateway[31], 63);
}

#[test]
fn default_identity_is_zero() {
    let identity = Identity::default();
    assert_eq!(identity.client, [0u8; 32]);
    assert_eq!(identity.gateway, [0u8; 32]);
}

#[test]
fn identity_has_this_text() {
    assert_eq!(counting_identity().to_string(), COUNTING_TEXT);
    assert_eq!(
        Identity::default().to_string(),
        "nym1qqqqqqqqqqqqqqqqqqqqqqqqqqqqqqqqqqqqqqqqqqqqqqqqqqqqqqqqqqqqqqqqqqqqqqqqqqqqqqqqqqqqqqqqqqqqqqqqqqqqqqq8d5lsg"
    );
}

#[test]
fn text_names_this_identity() {
    let identity = Identity::from_str(COUNTING_TEXT).unwrap();
    assert_eq!(identity.client, counting_identity().client);
    assert_eq!(identity.gateway, counting_identity().gateway);
    let upper = Identity::from_str(&COUNTING_TEXT.to_uppercase()).unwrap();
    assert_eq!(upper.client, counting_identity().client);
}

#[test]
fn identities_are_parsed_back() {
    for seed in 0u8..50 {
        let client: Vec<u8> = (0u8..32).map(|i| i.wrapping_mul(seed) ^ 0xa5).collect();
        let gateway: Vec<u8> = (0u8..32).map(|i| i.wrapping_add(seed).rotate_left(3)).collect();
        let identity = Identity::from_keys(&client, &gateway);
        let parsed = Identity::from_str(&identity.to_string()).unwrap();
        assert_eq!(parsed.client, identity.client);
        assert_eq!(parsed.gateway, identity.gateway);
    }
}

#[test]
fn text_that_is_not_bech32_is_refused() {
    let mut broken = COUNTING_TEXT.to_string();
    broken.replace_range(10..11, "z");
    assert!(matches!(
        Identity::from_str(&broken),
        Err(IdentityParseError::InvalidBech32(bech32::Error::InvalidChecksum))
    ));
    assert!(matches!(
        Identity::from_str("nym"),
        Err(IdentityParseError::InvalidBech32(bech32::Error::InvalidLength))
    ));
    assert!(matches!(
        Identity::from_str("no separator"),
        Err(IdentityParseError::InvalidBech32(bech32::Error::MissingSeparator))
    ));
}

#[test]
fn other_human_readable_part_is_refused() {
    match Identity::from_str("bech321qqqsyrhqy2a") {
        Err(IdentityParseError::InvalidHRP(hrp)) => assert_eq!(hrp, "bech32"),
        other => panic!("{:?}", other),
    }
}

#[test]
fn wrong_number_of_bytes_is_refused() {
    assert!(matches!(
        Identity::from_str("nym1qqqsyxcmcf2"),
        Err(IdentityParseError::WrongLenght(3))
    ));
    let long = bech32::encode("nym", [0u8; 65].to_base32()).unwrap();
    assert!(matches!(Identity::from_str(&long), Err(IdentityParseError::WrongLenght(65))));
}

#[test]
fn text_without_whole_bytes_has_no_answer() {
    assert!(Identity::try_from_str("nym1p0xn333").is_none());
    assert!(Identity::try_from_str("abc1p3d2kgv").is_none());
    assert!(Identity::try_from_str("nym1qpt4ezed").is_none());
    assert!(matches!(
        Identity::try_from_str("nym"),
        Some(Err(IdentityParseError::InvalidBech32(_)))
    ));
    assert!(matches!(Identity::try_from_str(COUNTING_TEXT), Some(Ok(_))));
}

#[test]
fn decoded_parts_make_an_identity() {
    let digits: Vec<u8> =
        [7u8; 64].to_base32().into_iter().map(|digit| digit.to_u8()).collect();
    let identity = Identity::from_decoded(Ok(("nym".to_string(), digits.clone()))).unwrap();
    assert_eq!(identity.client, [7u8; 32]);
    assert_eq!(identity.gateway, [7u8; 32]);
    assert!(matches!(
        Identity::from_decoded(Ok(("nymm".to_string(), digits))),
        Err(IdentityParseError::InvalidHRP(_))
    ));
    assert!(matches!(
        Identity::from_decoded(Ok(("nym".to_string(), Vec::new()))),
        Err(IdentityParseError::WrongLenght(0))
    ));
    assert!(matches!(
        Identity::from_decoded(Err(bech32::Error::MixedCase)),
        Err(IdentityParseError::InvalidBech32(bech32::Error::MixedCase))
    ));
}

#[test]
fn identities_have_one_text() {
    for text in [COUNTING_TEXT.to_string(), COUNTING_TEXT.to_uppercase()] {
        let identity = Identity::from_str(&text).unwrap();
        assert_eq!(identity.to_string(), text.to_lowercase());
        assert_eq!(text.len(), 113);
    }
    let text = Identity::from_keys(&[0xff; 32], &[0; 32]).to_string();
    assert_eq!(text.len(), 113);
    assert!(text.starts_with("nym1lllllllll"));
    // The last digit of the keys holds three bits of padding, which have to be zero.
    let mut digits: Vec<bech32::u5> = [7u8; 64].to_base32();
    let padded = bech32::encode("nym", digits.clone()).unwrap();
    assert_eq!(Identity::from_str(&padded).unwrap().to_string(), padded);
    let last = digits.pop().unwrap().to_u8();
    digits.push(bech32::u5::try_from_u8(last | 1).unwrap());
    let unpadded = bech32::encode("nym", digits).unwrap();
    assert!(!matches!(Identity::try_from_str(&unpadded), Some(Ok(_))));
}
