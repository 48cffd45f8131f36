//! Networks, identifiers and contract parameters.

use vstd::prelude::*;

use crate::bytes::{array32, push_all, same32};
use crate::outside::{
    base58_decode, base58_encode, base58_of, base58_read, blake3_hash, blake3_of, hex_bytes,
    hex_decode, hex_digit, hex_encode, hex_fault, hex_text, hex_value, is_hex, trim, trimmed_of,
};
use crate::spv::PowFloor;
use crate::text::{ascii, ascii_bytes, join, join3};

verus! {

broadcast use vstd::array::group_array_axioms;

// ---------------------------------------------------------------------------
// Network
// ---------------------------------------------------------------------------

/// Which Bitcoin network an observation belongs to.
///
/// The network is part of every contract's parameters and of every [`ScriptId`], so
/// an observation made on one network says nothing on another.
#[derive(Clone, Copy, PartialEq, Eq, PartialOrd, Ord, Hash, Debug, Structural)]
pub enum BitcoinNetwork {
    Bitcoin,
    Testnet4,
    Signet,
    Regtest,
}

impl BitcoinNetwork {
    pub open spec fn tag_of(self) -> u8 {
        match self {
            BitcoinNetwork::Bitcoin => 0,
            BitcoinNetwork::Testnet4 => 1,
            BitcoinNetwork::Signet => 2,
            BitcoinNetwork::Regtest => 3,
        }
    }

    /// Stable byte tag used in domain separation. Renumbering it would change every
    /// [`ScriptId`].
    pub fn tag(self) -> (r: u8)
        ensures
            r == self.tag_of(),
    {
        match self {
            BitcoinNetwork::Bitcoin => 0,
            BitcoinNetwork::Testnet4 => 1,
            BitcoinNetwork::Signet => 2,
            BitcoinNetwork::Regtest => 3,
        }
    }

    pub open spec fn name(self) -> Seq<char> {
        match self {
            BitcoinNetwork::Bitcoin => "bitcoin"@,
            BitcoinNetwork::Testnet4 => "testnet4"@,
            BitcoinNetwork::Signet => "signet"@,
            BitcoinNetwork::Regtest => "regtest"@,
        }
    }

    pub fn as_str(self) -> (r: &'static str)
        ensures
            r@ == self.name(),
    {
        match self {
            BitcoinNetwork::Bitcoin => "bitcoin",
            BitcoinNetwork::Testnet4 => "testnet4",
            BitcoinNetwork::Signet => "signet",
            BitcoinNetwork::Regtest => "regtest",
        }
    }

    /// The name of the variant, which is also how a network is written in a record.
    pub open spec fn variant(self) -> Seq<char> {
        match self {
            BitcoinNetwork::Bitcoin => "Bitcoin"@,
            BitcoinNetwork::Testnet4 => "Testnet4"@,
            BitcoinNetwork::Signet => "Signet"@,
            BitcoinNetwork::Regtest => "Regtest"@,
        }
    }

    pub fn variant_str(self) -> (r: &'static str)
        ensures
            r@ == self.variant(),
    {
        match self {
            BitcoinNetwork::Bitcoin => "Bitcoin",
            BitcoinNetwork::Testnet4 => "Testnet4",
            BitcoinNetwork::Signet => "Signet",
            BitcoinNetwork::Regtest => "Regtest",
        }
    }

    /// The least proof of work a header on this network must claim: a sanity check
    /// that no genuine mainnet block fails, and none at all on the test networks.
    pub fn default_pow_floor(self) -> (r: PowFloor)
        ensures
            r.0 == (if self is Bitcoin {
                0x1900_ffffu32
            } else {
                0x207f_ffffu32
            }),
    {
        match self {
            BitcoinNetwork::Bitcoin => PowFloor(0x1900_ffff),
            BitcoinNetwork::Testnet4 | BitcoinNetwork::Signet | BitcoinNetwork::Regtest => {
                PowFloor::none()
            },
        }
    }

    /// How many confirmations an application should treat as final by default.
    pub fn default_confirmation_target(self) -> (r: u32)
        ensures
            r == (match self {
                BitcoinNetwork::Bitcoin => 6u32,
                BitcoinNetwork::Testnet4 | BitcoinNetwork::Signet => 2u32,
                BitcoinNetwork::Regtest => 1u32,
            }),
    {
        match self {
            BitcoinNetwork::Bitcoin => 6,
            BitcoinNetwork::Testnet4 | BitcoinNetwork::Signet => 2,
            BitcoinNetwork::Regtest => 1,
        }
    }

    /// The network that a configuration or command line names.
    pub open spec fn named(s: Seq<char>) -> Option<BitcoinNetwork> {
        if s == "bitcoin"@ || s == "main"@ || s == "mainnet"@ {
            Some(BitcoinNetwork::Bitcoin)
        } else if s == "testnet4"@ || s == "testnet"@ {
            Some(BitcoinNetwork::Testnet4)
        } else if s == "signet"@ {
            Some(BitcoinNetwork::Signet)
        } else if s == "regtest"@ {
            Some(BitcoinNetwork::Regtest)
        } else {
            None
        }
    }

    /// Read a network's name, or one of the names it also goes by.
    pub fn from_name(s: &str) -> (r: Result<BitcoinNetwork, String>)
        ensures
            r is Ok <==> Self::named(s@) is Some,
            r matches Ok(n) ==> Self::named(s@) == Some(n),
            r matches Err(e) ==> e@ == "unknown bitcoin network: "@ + s@,
    {
        if same_text(s, "bitcoin") || same_text(s, "main") || same_text(s, "mainnet") {
            Ok(BitcoinNetwork::Bitcoin)
        } else if same_text(s, "testnet4") || same_text(s, "testnet") {
            Ok(BitcoinNetwork::Testnet4)
        } else if same_text(s, "signet") {
            Ok(BitcoinNetwork::Signet)
        } else if same_text(s, "regtest") {
            Ok(BitcoinNetwork::Regtest)
        } else {
            Err(join("unknown bitcoin network: ", s))
        }
    }
}

/// Whether two texts are the same.
pub fn same_text(a: &str, b: &str) -> (r: bool)
    ensures
        r == (a@ == b@),
{
    a.to_owned() == b.to_owned()
}

impl core::str::FromStr for BitcoinNetwork {
    type Err = String;

    fn from_str(s: &str) -> (r: Result<Self, String>)
        ensures
            r is Ok <==> Self::named(s@) is Some,
            r matches Ok(n) ==> Self::named(s@) == Some(n),
            r matches Err(e) ==> e@ == "unknown bitcoin network: "@ + s@,
    {
        BitcoinNetwork::from_name(s)
    }
}


// ---------------------------------------------------------------------------
// Identifiers
// ---------------------------------------------------------------------------

/// A 32-byte Bitcoin transaction id in internal byte order, which is the reverse of
/// the order that block explorers show.
#[derive(Clone, Copy, PartialEq, Eq, PartialOrd, Ord, Hash, Debug, Default)]
pub struct Txid(pub [u8; 32]);

/// A 32-byte block hash in internal byte order.
#[derive(Clone, Copy, PartialEq, Eq, PartialOrd, Ord, Hash, Debug, Default)]
pub struct BlockHash(pub [u8; 32]);

/// A position on a chain: the height and the hash of the block there.
#[derive(Clone, Copy, PartialEq, Eq, PartialOrd, Ord, Hash, Debug, Default)]
pub struct BlockAnchor {
    pub height: u32,
    pub hash: BlockHash,
}

/// Which output of which transaction.
#[derive(Clone, Copy, PartialEq, Eq, PartialOrd, Ord, Hash, Debug, Default)]
pub struct OutPoint {
    pub txid: Txid,
    pub vout: u32,
}

/// The identity of an output script on one network, as used inside signed payloads.
#[derive(Clone, Copy, PartialEq, Eq, PartialOrd, Ord, Hash, Debug, Default)]
pub struct ScriptId(pub [u8; 32]);

/// A bridge's Ed25519 public key.
#[derive(Clone, Copy, PartialEq, Eq, PartialOrd, Ord, Hash, Debug, Default)]
pub struct BridgeId(pub [u8; 32]);

fn reversed(b: &[u8; 32]) -> (r: [u8; 32])
    ensures
        r@ == b@.reverse(),
{
    let mut r = [0u8; 32];
    for i in 0..32usize
        invariant
            forall|j: int| 0 <= j < i ==> r@[j] == b@[31 - j],
    {
        r[i] = b[31 - i];
    }
    assert(r@ =~= b@.reverse());
    r
}

/// The display text of 32 bytes: hexadecimal, last byte first.
pub open spec fn display_text(b: Seq<u8>) -> Seq<char> {
    hex_text(b.reverse())
}

/// What a display text says: 32 bytes, or why it says none. `what` names the thing.
pub open spec fn display_read(text: Seq<char>, what: Seq<char>) -> Result<Seq<u8>, Seq<char>> {
    let digits = trimmed_of(text);
    if !is_hex(digits) {
        Err(what + " not hex: "@ + hex_fault(digits))
    } else if digits.len() != 64 {
        Err(what + " must be 32 bytes"@)
    } else {
        Ok(hex_bytes(digits).reverse())
    }
}

/// Reading a display text gives back the bytes it was made of, whatever white space
/// stands around it.
pub proof fn display_roundtrip(b: Seq<u8>, text: Seq<char>, what: Seq<char>)
    requires
        b.len() == 32,
        trimmed_of(text) == display_text(b),
    ensures
        display_read(text, what) is Ok,
        display_read(text, what)->Ok_0 == b,
{
    let r = b.reverse();
    let t = hex_text(r);
    assert forall|i: int| 0 <= i < t.len() implies hex_value(#[trigger] t[i]) == Some(
        if i % 2 == 0 { r[i / 2] as int / 16 } else { r[i / 2] as int % 16 },
    ) by {
        let n = if i % 2 == 0 { r[i / 2] as int / 16 } else { r[i / 2] as int % 16 };
        assert(t[i] == hex_digit(n));
        assert(0 <= n < 16);
    }
    assert(t.len() == 64);
    assert forall|i: int| 0 <= i < 32 implies #[trigger] hex_bytes(t)[i] == r[i] by {
        assert(hex_value(t[2 * i]) == Some(r[i] as int / 16));
        assert(hex_value(t[2 * i + 1]) == Some(r[i] as int % 16));
    }
    assert(hex_bytes(t) =~= r);
    assert(r.reverse() =~= b);
}

/// There is no white space around hexadecimal digits.
proof fn digits_are_not_white(b: Seq<u8>)
    ensures
        trimmed_of(hex_text(b)) == hex_text(b),
{
    let t = hex_text(b);
    if b.len() > 0 {
        assert(t[0] == hex_digit(b[0] as int / 16));
        let n = t.len() - 1;
        assert(n % 2 == 1);
        assert(t[n] == hex_digit(b[n / 2] as int % 16));
    }
}

fn read_display(text: &str, what: &str) -> (r: Result<[u8; 32], String>)
    ensures
        r is Ok <==> display_read(text@, what@) is Ok,
        r matches Ok(b) ==> display_read(text@, what@)->Ok_0 == b@,
        r matches Err(e) ==> display_read(text@, what@)->Err_0 == e@,
{
    match hex_decode(trim(text)) {
        Err(e) => {
            let fault = join3(what, " not hex: ", &e);
            Err(fault)
        },
        Ok(v) => {
            if v.len() != 32 {
                return Err(join(what, " must be 32 bytes"));
            }
            let b = array32(&v, 0);
            assert(b@ =~= v@);
            Ok(reversed(&b))
        },
    }
}

impl Txid {
    /// The text that explorers and wallets show.
    pub fn to_display_string(&self) -> (r: String)
        ensures
            r@ == display_text(self.0@),
            trimmed_of(r@) == r@,
    {
        let r = hex_encode(&reversed(&self.0));
        proof {
            digits_are_not_white(self.0@.reverse());
        }
        r
    }

    /// Read the text that explorers and wallets show.
    pub fn from_display_string(s: &str) -> (r: Result<Self, String>)
        ensures
            r is Ok <==> display_read(s@, "txid"@) is Ok,
            r matches Ok(t) ==> display_read(s@, "txid"@)->Ok_0 == t.0@,
            r matches Err(e) ==> display_read(s@, "txid"@)->Err_0 == e@,
    {
        match read_display(s, "txid") {
            Ok(b) => Ok(Txid(b)),
            Err(e) => Err(e),
        }
    }
}

impl BlockHash {
    pub fn to_display_string(&self) -> (r: String)
        ensures
            r@ == display_text(self.0@),
            trimmed_of(r@) == r@,
    {
        let r = hex_encode(&reversed(&self.0));
        proof {
            digits_are_not_white(self.0@.reverse());
        }
        r
    }

    pub fn from_display_string(s: &str) -> (r: Result<Self, String>)
        ensures
            r is Ok <==> display_read(s@, "block hash"@) is Ok,
            r matches Ok(t) ==> display_read(s@, "block hash"@)->Ok_0 == t.0@,
            r matches Err(e) ==> display_read(s@, "block hash"@)->Err_0 == e@,
    {
        match read_display(s, "block hash") {
            Ok(b) => Ok(BlockHash(b)),
            Err(e) => Err(e),
        }
    }
}

/// The bytes that a script's identity is the BLAKE3 hash of.
pub open spec fn script_id_input(network: BitcoinNetwork, script_pubkey: Seq<u8>) -> Seq<u8> {
    ascii("freenet-bitcoin/script-id/v1"@) + seq![network.tag_of()] + script_pubkey
}

/// What two networks hash for a script differs, and so does what one network hashes
/// for two scripts.
pub proof fn script_id_input_is_injective(
    n1: BitcoinNetwork,
    s1: Seq<u8>,
    n2: BitcoinNetwork,
    s2: Seq<u8>,
)
    requires
        script_id_input(n1, s1) == script_id_input(n2, s2),
    ensures
        n1 == n2,
        s1 == s2,
{
    let d = ascii("freenet-bitcoin/script-id/v1"@);
    let a = script_id_input(n1, s1);
    let b = script_id_input(n2, s2);
    assert(a[d.len() as int] == n1.tag_of());
    assert(b[d.len() as int] == n2.tag_of());
    assert(a.len() == d.len() + 1 + s1.len());
    assert(b.len() == d.len() + 1 + s2.len());
    assert forall|i: int| 0 <= i < s1.len() implies s1[i] == s2[i] by {
        assert(a[d.len() + 1 + i] == s1[i]);
        assert(b[d.len() + 1 + i] == s2[i]);
    }
    assert(s1 =~= s2);
}

impl ScriptId {
    pub fn compute(network: BitcoinNetwork, script_pubkey: &[u8]) -> (r: Self)
        ensures
            r.0@ == blake3_of(script_id_input(network, script_pubkey@)),
    {
        proof {
            reveal_strlit("freenet-bitcoin/script-id/v1");
        }
        let mut input: Vec<u8> = ascii_bytes("freenet-bitcoin/script-id/v1");
        input.push(network.tag());
        push_all(&mut input, script_pubkey);
        assert(input@ =~= script_id_input(network, script_pubkey@));
        ScriptId(blake3_hash(&input))
    }

    pub fn to_bs58(self) -> (r: String)
        ensures
            r@ == base58_of(self.0@),
            base58_read(r@) is Ok && base58_read(r@)->Ok_0 == self.0@,
    {
        base58_encode(&self.0)
    }
}

/// What a bridge id's text says: 32 bytes, or why it says none.
pub open spec fn bridge_read(text: Seq<char>) -> Result<Seq<u8>, Seq<char>> {
    match base58_read(trimmed_of(text)) {
        Err(e) => Err("bridge id not base58: "@ + e),
        Ok(b) => if b.len() == 32 {
            Ok(b)
        } else {
            Err("bridge id must be 32 bytes"@)
        },
    }
}

impl BridgeId {
    /// The bridge's id as text, which [`BridgeId::from_bs58`] reads back.
    pub fn to_bs58(self) -> (r: String)
        ensures
            r@ == base58_of(self.0@),
            bridge_read(r@) is Ok && bridge_read(r@)->Ok_0 == self.0@,
    {
        base58_encode(&self.0)
    }

    pub fn from_bs58(s: &str) -> (r: Result<Self, String>)
        ensures
            r is Ok <==> bridge_read(s@) is Ok,
            r matches Ok(b) ==> bridge_read(s@)->Ok_0 == b.0@,
            r matches Err(e) ==> bridge_read(s@)->Err_0 == e@,
    {
        match base58_decode(trim(s)) {
            Err(e) => Err(join("bridge id not base58: ", &e)),
            Ok(v) => {
                if v.len() != 32 {
                    return Err("bridge id must be 32 bytes".to_owned());
                }
                let b = array32(&v, 0);
                assert(b@ =~= v@);
                Ok(BridgeId(b))
            },
        }
    }
}

// ---------------------------------------------------------------------------
// Contract parameters
// ---------------------------------------------------------------------------

/// Parameters that identify one address contract: a script on a network, and whose
/// word this instance takes.
///
/// Several bridges are a union, not a quorum: each of them alone is believed.
#[derive(Clone, PartialEq, Eq, Debug)]
pub struct BitcoinAddressParameters {
    pub network: BitcoinNetwork,
    /// The script itself, not a human-readable address.
    pub script_pubkey: Vec<u8>,
    pub trusted_bridges: Vec<BridgeId>,
    /// Minimum proof of work a block header must claim.
    pub pow_floor: PowFloor,
}

/// [`BitcoinAddressParameters`] as a mathematical value.
#[verifier::ext_equal]
pub struct ParamsModel {
    pub network: BitcoinNetwork,
    pub script_pubkey: Seq<u8>,
    pub trusted_bridges: Seq<BridgeId>,
    pub pow_floor: PowFloor,
}

impl View for BitcoinAddressParameters {
    type V = ParamsModel;

    open spec fn view(&self) -> ParamsModel {
        ParamsModel {
            network: self.network,
            script_pubkey: self.script_pubkey@,
            trusted_bridges: self.trusted_bridges@,
            pow_floor: self.pow_floor,
        }
    }
}

impl ParamsModel {
    /// The identity of the script these parameters are about.
    pub open spec fn script_id(self) -> Seq<u8> {
        blake3_of(script_id_input(self.network, self.script_pubkey))
    }
}

/// Whether `bridge` is one of `bridges`.
pub fn lists(bridges: &Vec<BridgeId>, bridge: &BridgeId) -> (r: bool)
    ensures
        r == bridges@.contains(*bridge),
{
    for i in 0..bridges.len()
        invariant
            forall|j: int| 0 <= j < i ==> bridges@[j] != *bridge,
    {
        if same32(&bridges[i].0, &bridge.0) {
            assert(bridges@[i as int] == *bridge);
            return true;
        }
    }
    false
}

impl BitcoinAddressParameters {
    pub fn script_id(&self) -> (r: ScriptId)
        ensures
            r.0@ == self@.script_id(),
    {
        ScriptId::compute(self.network, &self.script_pubkey)
    }

    pub fn trusts(&self, bridge: &BridgeId) -> (r: bool)
        ensures
            r == self.trusted_bridges@.contains(*bridge),
    {
        lists(&self.trusted_bridges, bridge)
    }
}

/// [`BitcoinTipParameters`] as a mathematical value.
#[verifier::ext_equal]
pub struct TipParamsModel {
    pub network: BitcoinNetwork,
    pub trusted_bridges: Seq<BridgeId>,
}

impl View for BitcoinTipParameters {
    type V = TipParamsModel;

    open spec fn view(&self) -> TipParamsModel {
        TipParamsModel { network: self.network, trusted_bridges: self.trusted_bridges@ }
    }
}

/// Parameters that identify one tip contract.
#[derive(Clone, PartialEq, Eq, Debug)]
pub struct BitcoinTipParameters {
    pub network: BitcoinNetwork,
    pub trusted_bridges: Vec<BridgeId>,
}

impl BitcoinTipParameters {
    pub fn trusts(&self, bridge: &BridgeId) -> (r: bool)
        ensures
            r == self.trusted_bridges@.contains(*bridge),
    {
        lists(&self.trusted_bridges, bridge)
    }
}

} // verus!
