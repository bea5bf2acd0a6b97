//! Asset identifiers: 32 opaque bytes, compared byte for byte, shown in
//! Bech32m form under the `passet` prefix.
use vstd::prelude::*;

verus! {

/// Text of `data` in Bech32m form under the human-readable prefix `hrp`.
pub uninterp spec fn bech32m_text(hrp: Seq<char>, data: Seq<u8>) -> Seq<char>;

/// A prefix that Bech32 encoding accepts as it is: 1 to 83 printable ASCII
/// characters, none of them upper case.
pub open spec fn lower_hrp(hrp: Seq<char>) -> bool {
    1 <= hrp.len() <= 83 && forall|i: int|
        0 <= i < hrp.len() ==> '!' <= #[trigger] hrp[i] <= '~' && !('A' <= hrp[i] <= 'Z')
}

/// Relies on `bech32::encode` with `Variant::Bech32m`: the text depends on
/// the prefix and the bytes alone, and the call fails only where the prefix
/// is refused (empty, longer than 83 bytes, outside `!`..`~`, or mixed case).
#[verifier::external_body]
fn encode_bech32m(hrp: &str, data: &[u8]) -> (r: Option<String>)
    ensures
        r matches Some(t) ==> t@ == bech32m_text(hrp@, data@),
        lower_hrp(hrp@) ==> r is Some,
{
    bech32::encode(hrp, bech32::ToBase32::to_base32(&data), bech32::Variant::Bech32m).ok()
}

pub open spec fn asset_prefix() -> Seq<char> {
    seq!['p', 'a', 's', 's', 'e', 't']
}

/// Identifier of a fungible asset.
#[derive(Clone, Copy, Debug)]
pub struct AssetId {
    pub bytes: [u8; 32],
}

/// Identifier bytes of the chain's native staking token.
pub open spec fn staking_token_bytes() -> Seq<u8> {
    seq![
        0x29u8, 0xea, 0x9c, 0x2f, 0x33, 0x71, 0xf6, 0xa4, 0x87, 0xe7, 0xe9, 0x5c, 0x24, 0x70,
        0x41, 0xf4, 0xa3, 0x56, 0xf9, 0x83, 0xeb, 0x06, 0x4e, 0x5d, 0x2b, 0x3b, 0xcf, 0x32,
        0x2c, 0xa9, 0x6a, 0x10,
    ]
}

/// Identifier bytes of the reference-currency asset that prices the supply.
pub open spec fn reference_currency_bytes() -> Seq<u8> {
    seq![
        0x76u8, 0xb3, 0xe4, 0xb1, 0x06, 0x81, 0x35, 0x8c, 0x12, 0x3b, 0x38, 0x1f, 0x90, 0x63,
        0x84, 0x76, 0xb7, 0x78, 0x90, 0x40, 0xe4, 0x78, 0x02, 0xde, 0x87, 0x9f, 0x0f, 0xb3,
        0xee, 0xdc, 0x8d, 0x0b,
    ]
}

impl AssetId {
    pub fn new(bytes: [u8; 32]) -> (r: AssetId)
        ensures
            r.bytes@ == bytes@,
    {
        AssetId { bytes }
    }

    /// Builds an identifier from a byte string, which must hold 32 bytes.
    pub fn from_slice(b: &[u8]) -> (r: Option<AssetId>)
        ensures
            r matches Some(id) ==> id.bytes@ == b@,
            r is Some <==> b@.len() == 32,
    {
        if b.len() != 32 {
            return None;
        }
        let mut bytes = [0u8; 32];
        let mut i: usize = 0;
        while i < 32
            invariant
                b@.len() == 32,
                0 <= i <= 32,
                forall|j: int| 0 <= j < i ==> bytes@[j] == b@[j],
            decreases 32 - i,
        {
            bytes[i] = b[i];
            i = i + 1;
        }
        proof {
            assert(bytes@ =~= b@);
        }
        Some(AssetId { bytes })
    }

    /// Byte-exact equality.
    pub fn same_as(&self, other: &AssetId) -> (r: bool)
        ensures
            r == (self.bytes@ == other.bytes@),
    {
        let mut i: usize = 0;
        while i < 32
            invariant
                0 <= i <= 32,
                forall|j: int| 0 <= j < i ==> self.bytes@[j] == other.bytes@[j],
            decreases 32 - i,
        {
            if self.bytes[i] != other.bytes[i] {
                return false;
            }
            i = i + 1;
        }
        proof {
            assert(self.bytes@ =~= other.bytes@);
        }
        true
    }

    /// The identifier in its textual Bech32m form (`passet1...`).
    pub fn to_text(&self) -> (r: String)
        ensures
            r@ == bech32m_text(asset_prefix(), self.bytes@),
    {
        proof {
            reveal_strlit("passet");
        }
        let prefix = "passet";
        assert(prefix@ == asset_prefix());
        match encode_bech32m(prefix, self.bytes.as_slice()) {
            Some(t) => t,
            None => {
                proof {
                    assert(lower_hrp(prefix@));
                }
                String::new()
            },
        }
    }
}

/// The chain's native staking token.
pub fn staking_token() -> (r: AssetId)
    ensures
        r.bytes@ == staking_token_bytes(),
{
    let r = AssetId {
        bytes: [
            0x29u8, 0xea, 0x9c, 0x2f, 0x33, 0x71, 0xf6, 0xa4, 0x87, 0xe7, 0xe9, 0x5c, 0x24,
            0x70, 0x41, 0xf4, 0xa3, 0x56, 0xf9, 0x83, 0xeb, 0x06, 0x4e, 0x5d, 0x2b, 0x3b, 0xcf,
            0x32, 0x2c, 0xa9, 0x6a, 0x10,
        ],
    };
    assert(r.bytes@ =~= staking_token_bytes());
    r
}

/// The reference-currency asset (`passet1w6e7fvgxsy6ccy3m8q0eqcuyw6mh3yzqu3uq9h58nu8m8mku359spvulf6`).
pub fn reference_currency() -> (r: AssetId)
    ensures
        r.bytes@ == reference_currency_bytes(),
{
    let r = AssetId {
        bytes: [
            0x76u8, 0xb3, 0xe4, 0xb1, 0x06, 0x81, 0x35, 0x8c, 0x12, 0x3b, 0x38, 0x1f, 0x90,
            0x63, 0x84, 0x76, 0xb7, 0x78, 0x90, 0x40, 0xe4, 0x78, 0x02, 0xde, 0x87, 0x9f, 0x0f,
            0xb3, 0xee, 0xdc, 0x8d, 0x0b,
        ],
    };
    assert(r.bytes@ =~= reference_currency_bytes());
    r
}

} // verus!
