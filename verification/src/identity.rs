//! The identity of a Nym client: its own key and the key of its gateway.

use vstd::prelude::*;
use vstd::slice::slice_subrange;

use crate::base32;
use crate::base32::{
    are_digits, base32_bytes, base32_digits, base32_round_trip, base32_round_trip_of_digits,
    bech32_decoded, bech32_text, decoded_view, lower_case, spells, well_padded,
};

verus! {

/// A Nym client, named by its own key and the key of the gateway that serves it.
#[derive(Debug, Copy, Clone)]
pub struct Identity {
    pub client: [u8; 32],
    pub gateway: [u8; 32],
}

/// Why a text is not an identity.
#[derive(Debug)]
pub enum IdentityParseError {
    /// The text carries this many bytes, not the bytes of two keys.
    WrongLenght(usize),
    /// The text is not Bech32.
    InvalidBech32(bech32::Error),
    /// The text starts with this human-readable part.
    InvalidHRP(String),
}

/// The mathematical content of an [`IdentityParseError`].
#[verifier::ext_equal]
pub enum ParseErrorView {
    WrongLenght(nat),
    InvalidBech32(bech32::Error),
    InvalidHRP(Seq<char>),
}

impl View for Identity {
    type V = Seq<u8>;

    /// The client's key, then the gateway's.
    open spec fn view(&self) -> Seq<u8> {
        self.client@ + self.gateway@
    }
}

impl View for IdentityParseError {
    type V = ParseErrorView;

    open spec fn view(&self) -> ParseErrorView {
        match *self {
            IdentityParseError::WrongLenght(len) => ParseErrorView::WrongLenght(len as nat),
            IdentityParseError::InvalidBech32(error) => ParseErrorView::InvalidBech32(error),
            IdentityParseError::InvalidHRP(hrp) => ParseErrorView::InvalidHRP(hrp@),
        }
    }
}

/// The mathematical content of what parsing an identity returns.
pub open spec fn parsed_view(parsed: Result<Identity, IdentityParseError>) -> Result<
    Seq<u8>,
    ParseErrorView,
> {
    match parsed {
        Ok(identity) => Ok(identity@),
        Err(error) => Err(error@),
    }
}

/// Whether what was decoded from a text regroups into whole bytes.
pub open spec fn decodes_to_bytes(
    decoded: Result<(Seq<char>, Seq<u8>), bech32::Error>,
) -> bool {
    decoded matches Ok((_, digits)) ==> well_padded(digits)
}

/// The identity that was decoded from a text: the 64 bytes of two keys, under the human-readable
/// part `nym`.
pub open spec fn identity_in(
    decoded: Result<(Seq<char>, Seq<u8>), bech32::Error>,
) -> Result<Seq<u8>, ParseErrorView> {
    match decoded {
        Err(error) => Err(ParseErrorView::InvalidBech32(error)),
        Ok((hrp, digits)) => {
            let bytes = base32_bytes(digits);
            if hrp != "nym"@ {
                Err(ParseErrorView::InvalidHRP(hrp))
            } else if bytes.len() != 64 {
                Err(ParseErrorView::WrongLenght(bytes.len()))
            } else {
                Ok(bytes)
            }
        },
    }
}

/// Identities with the same keys are the same.
pub proof fn identities_are_their_keys(a: Identity, b: Identity)
    requires
        a@ == b@,
    ensures
        a == b,
{
    assert(a.client@ =~= a@.subrange(0, 32));
    assert(b.client@ =~= b@.subrange(0, 32));
    assert(a.gateway@ =~= a@.subrange(32, 64));
    assert(b.gateway@ =~= b@.subrange(32, 64));
    assert forall|i: int| 0 <= i < 32 implies #[trigger] a.client[i] == b.client[i] by {
        assert(a.client@[i] == b.client@[i]);
    }
    assert forall|i: int| 0 <= i < 32 implies #[trigger] a.gateway[i] == b.gateway[i] by {
        assert(a.gateway@[i] == b.gateway@[i]);
    }
    assert(a.client =~= b.client);
    assert(a.gateway =~= b.gateway);
}

/// The text of the identity with these keys.
pub open spec fn identity_text(keys: Seq<u8>) -> Seq<char> {
    bech32_text("nym"@, base32_digits(keys))
}

/// An identity is decoded from nothing but the human-readable part `nym` and its own digits.
pub proof fn identities_have_one_encoding(
    decoded: Result<(Seq<char>, Seq<u8>), bech32::Error>,
    keys: Seq<u8>,
)
    requires
        decoded matches Ok((_, digits)) ==> are_digits(digits),
        decodes_to_bytes(decoded),
        identity_in(decoded) == Ok::<Seq<u8>, ParseErrorView>(keys),
    ensures
        decoded == Ok::<(Seq<char>, Seq<u8>), bech32::Error>(("nym"@, base32_digits(keys))),
{
    if let Ok((_, digits)) = decoded {
        base32_round_trip_of_digits(digits);
    }
}

/// The key that `bytes` are.
pub(crate) fn key(bytes: &[u8]) -> (key: [u8; 32])
    requires
        bytes@.len() == 32,
    ensures
        key@ == bytes@,
{
    let mut key = [0u8; 32];
    let mut i: usize = 0;
    while i < 32
        invariant
            i <= 32,
            bytes@.len() == 32,
            forall|j: int| 0 <= j < i ==> key[j] == bytes[j],
        decreases 32 - i,
    {
        key[i] = bytes[i];
        i = i + 1;
    }
    assert(key@ =~= bytes@);
    key
}

impl Default for Identity {
    fn default() -> (identity: Identity)
        ensures
            identity@ == Seq::new(64, |i: int| 0u8),
    {
        let identity = Identity { client: [0u8; 32], gateway: [0u8; 32] };
        assert(identity@ =~= Seq::new(64, |i: int| 0u8));
        identity
    }
}

impl Identity {
    /// The identity of the client key `client` at the gateway key `gateway`.
    pub fn from_keys(client: &[u8], gateway: &[u8]) -> (identity: Identity)
        requires
            client@.len() == 32,
            gateway@.len() == 32,
        ensures
            identity@ == client@ + gateway@,
            identity.client@ == client@,
            identity.gateway@ == gateway@,
    {
        Identity { client: key(client), gateway: key(gateway) }
    }

    /// Both keys as Bech32 text under the human-readable part `nym`: 113 characters, which
    /// [`Identity::from_str`] turns back into the identity.
    pub fn to_string(&self) -> (text: String)
        ensures
            text@ == identity_text(self@),
            text@.len() == 113,
            spells(text@, "nym"@, base32_digits(self@)),
            decodes_to_bytes(bech32_decoded(text@)),
            identity_in(bech32_decoded(text@)) == Ok::<Seq<u8>, ParseErrorView>(self@),
    {
        let mut bytes: Vec<u8> = Vec::new();
        bytes.extend_from_slice(&self.client);
        bytes.extend_from_slice(&self.gateway);
        assert(bytes@ =~= self@);
        proof {
            base32_round_trip(self@);
            reveal_strlit("nym");
        }
        let digits = base32::to_base32(bytes.as_slice());
        base32::encode("nym", digits.as_slice()).unwrap()
    }

    /// The identity that a text names. An identity has one text, up to letter case. Where the
    /// digits of a Bech32 text do not regroup into whole bytes there is no answer:
    /// [`Identity::try_from_str`] tells such texts apart.
    pub fn from_str(s: &str) -> (parsed: Result<Identity, IdentityParseError>)
        requires
            decodes_to_bytes(bech32_decoded(s@)),
        ensures
            parsed_view(parsed) == identity_in(bech32_decoded(s@)),
            parsed matches Ok(identity) ==> identity_text(identity@) == lower_case(s@),
            parsed matches Ok(_) ==> s@.len() == 113,
    {
        let decoded = base32::decode(s);
        let ghost parts = decoded_view(decoded);
        proof {
            reveal_strlit("nym");
            if let Ok(keys) = identity_in(parts) {
                identities_have_one_encoding(parts, keys);
            }
        }
        Identity::from_decoded(decoded)
    }

    /// As [`Identity::from_str`], and `None` for a Bech32 text whose digits do not regroup into
    /// whole bytes.
    pub fn try_from_str(s: &str) -> (parsed: Option<Result<Identity, IdentityParseError>>)
        ensures
            parsed is Some <==> decodes_to_bytes(bech32_decoded(s@)),
            parsed matches Some(parsed) ==> parsed_view(parsed) == identity_in(bech32_decoded(s@)),
            parsed matches Some(Ok(identity)) ==> identity_text(identity@) == lower_case(s@),
            parsed matches Some(Ok(_)) ==> s@.len() == 113,
    {
        if let Ok((_, digits)) = base32::decode(s) {
            if base32::from_base32(digits.as_slice()).is_err() {
                return None;
            }
        }
        Some(Identity::from_str(s))
    }

    /// The identity in a human-readable part and digits, or in the error that stands for them.
    pub fn from_decoded(decoded: Result<(String, Vec<u8>), bech32::Error>) -> (parsed: Result<
        Identity,
        IdentityParseError,
    >)
        requires
            decoded matches Ok((_, digits)) ==> are_digits(digits@),
            decodes_to_bytes(decoded_view(decoded)),
        ensures
            parsed_view(parsed) == identity_in(decoded_view(decoded)),
    {
        let (hrp, digits) = match decoded {
            Ok(parts) => parts,
            Err(error) => return Err(IdentityParseError::InvalidBech32(error)),
        };
        let bytes = base32::from_base32(digits.as_slice()).unwrap();
        if hrp != "nym".to_owned() {
            return Err(IdentityParseError::InvalidHRP(hrp));
        }
        if bytes.len() != 64 {
            return Err(IdentityParseError::WrongLenght(bytes.len()));
        }
        let identity = Identity::from_keys(
            slice_subrange(bytes.as_slice(), 0, 32),
            slice_subrange(bytes.as_slice(), 32, 64),
        );
        assert(identity@ =~= bytes@);
        Ok(identity)
    }
}

/// Any 64 bytes are the keys of an identity: they are found again in their own digits under the
/// human-readable part `nym`.
pub proof fn all_keys_are_identities(keys: Seq<u8>)
    requires
        keys.len() == 64,
    ensures
        ({
            let decoded = Ok::<(Seq<char>, Seq<u8>), bech32::Error>(("nym"@, base32_digits(keys)));
            &&& decodes_to_bytes(decoded)
            &&& identity_in(decoded) == Ok::<Seq<u8>, ParseErrorView>(keys)
        }),
{
    base32_round_trip(keys);
}

/// Everything else is refused: a text that is not Bech32 with its error, another human-readable
/// part with that part, whatever bytes follow it, and any other number of bytes with that number.
pub proof fn nothing_else_is_an_identity(hrp: Seq<char>, bytes: Seq<u8>, error: bech32::Error)
    ensures
        decodes_to_bytes(Err(error)),
        identity_in(Err(error)) == Err::<Seq<u8>, ParseErrorView>(
            ParseErrorView::InvalidBech32(error),
        ),
        decodes_to_bytes(Ok((hrp, base32_digits(bytes)))),
        hrp != "nym"@ ==> identity_in(Ok((hrp, base32_digits(bytes)))) == Err::<
            Seq<u8>,
            ParseErrorView,
        >(ParseErrorView::InvalidHRP(hrp)),
        bytes.len() != 64 ==> identity_in(Ok(("nym"@, base32_digits(bytes)))) == Err::<
            Seq<u8>,
            ParseErrorView,
        >(ParseErrorView::WrongLenght(bytes.len())),
{
    base32_round_trip(bytes);
}

/// An identity is read as its client's key and its gateway's, in this order.
pub proof fn identities_are_client_and_gateway(identity: Identity)
    ensures
        identity@.len() == 64,
        identity@.take(32) == identity.client@,
        identity@.skip(32) == identity.gateway@,
{
    assert(identity@.take(32) =~= identity.client@);
    assert(identity@.skip(32) =~= identity.gateway@);
}

} // verus!
