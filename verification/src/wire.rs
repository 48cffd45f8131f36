//! What travels: states, parameters, summaries and requests as bytes.

use ciborium::Value;
use vstd::prelude::*;

use crate::address_state::{
    BitcoinAddressStateV1, ClaimSetSummary, ClaimSetV1, SetModel,
};
use crate::bridge_protocol::{
    AuthModel, BroadcastRequest, GhostKeyAuth, RequestBody, RequestModel, ServiceAuth,
    ServiceRequest, WatchModel, WatchRequest,
};
use crate::bytes::{le64, le64_roundtrip, read_le64};
use crate::cbor::{
    all_named, array, as_array, as_pairs, as_text, as_u32, byte_string, bytes_of, decode_value,
    encode_value, field, field_found, field_of, is_named, is_null, item_of, item_read,
    items_of, max_depth, missing, named_entries, null, octet_array, octet_array_roundtrip,
    octet_array_value, octets, octets_of, plain, plain_is_untagged, seen, seen_entries, seen_items,
    spells, text, u32_of, uint, untagged, Fields, Item,
};
use crate::claims::{BodyModel, ClaimBody, TipEntryBody};
use crate::digest::{digest_bytes, digest_width_is_fixed, BucketDigest};
use crate::records::{
    body_item, body_read, body_roundtrip, body_value, bytes32_roundtrip, get32, network_item,
    network_read, network_roundtrip, network_value, plain_deeper, read32, read_body, read_network,
    read_tip, signed_item, signed_read, signed_roundtrip, signed_value, tip_item, tip_read,
    tip_roundtrip, tip_value, value32,
};
use crate::signing::{SignedClaim, SignedModel, SignedTipEntry};
use crate::sorted::{map_of, ClaimKey, SortedMap};
use crate::spv::PowFloor;
use crate::text::join;
use crate::tip_state::{BitcoinTipStateV1, BlockSummariesSummary, BlockSummariesV1};
use crate::types::{
    same_text, BitcoinAddressParameters, BitcoinNetwork, BitcoinTipParameters, BlockHash, BridgeId,
    ParamsModel, ScriptId, TipParamsModel, Txid,
};

verus! {

broadcast use vstd::array::group_array_axioms;

/// A value that is written as one CBOR item and read back as what it was.
pub trait Record: Sized {
    /// The value as a mathematical value.
    type M;

    spec fn model(&self) -> Self::M;

    /// The item it is written as.
    spec fn item(&self) -> Item;

    /// What an item is read as.
    spec fn read(item: Item) -> Option<Self::M>;

    /// What is said of an item that is none of these.
    spec fn complaint() -> Seq<char>;

    fn value(&self) -> (r: Value)
        ensures
            item_of(r) == self.item(),
            plain(self.item(), max_depth()),
            Self::read(self.item()) == Some(self.model()),
    ;

    fn from_value(v: &Value) -> (r: Option<Self>)
        ensures
            match r {
                Some(x) => Self::read(seen(*v)) == Some(x.model()),
                None => Self::read(seen(*v)) is None,
            },
    ;

    fn complaint_text() -> (r: &'static str)
        ensures
            r@ == Self::complaint(),
    ;
}

/// What bytes hold, or why they hold none.
pub open spec fn read_from<T: Record>(data: Seq<u8>) -> Result<T::M, Seq<char>> {
    match item_read(data) {
        Err(e) => Err("CBOR deserialize: "@ + e),
        Ok(item) => match T::read(untagged(item)) {
            Some(m) => Ok(m),
            None => Err("CBOR deserialize: "@ + T::complaint()),
        },
    }
}

/// Serialize a value. The bytes are read back as the same value.
pub fn to_cbor<T: Record>(value: &T) -> (r: Result<Vec<u8>, String>)
    ensures
        r is Ok,
        r->Ok_0@ == bytes_of(value.item()),
        read_from::<T>(r->Ok_0@) is Ok,
        read_from::<T>(r->Ok_0@)->Ok_0 == value.model(),
{
    let v = value.value();
    proof {
        plain_is_untagged(value.item(), max_depth());
    }
    encode_value(&v)
}

/// Deserialize a value. Bytes after the value are not looked at.
///
/// A value is read from whole CBOR items. Tags are looked past, except that a tagged null is
/// no null. The names in a record, and the name of a choice that has content, are texts or
/// the byte strings of those texts. The parts of that content stand in a map under their
/// names or, where the choice itself has the parts, in an array in their order. A choice
/// without content is a text, and one written as a map of one entry is refused. Whether an
/// array, a map, a name or a byte string has its length before it, or comes in pieces with
/// an end behind them, makes no difference, nor does how long a name is. What is wrong with
/// an item that is no such value is said in one text for each kind of value.
pub fn from_cbor<T: Record>(bytes: &[u8]) -> (r: Result<T, String>)
    ensures
        match r {
            Ok(x) => read_from::<T>(bytes@) is Ok && read_from::<T>(bytes@)->Ok_0 == x.model(),
            Err(e) => read_from::<T>(bytes@) is Err && read_from::<T>(bytes@)->Err_0 == e@,
        },
{
    match decode_value(bytes) {
        Err(e) => Err(join("CBOR deserialize: ", &e)),
        Ok(v) => match T::from_value(&v) {
            Some(x) => Ok(x),
            None => Err(join("CBOR deserialize: ", T::complaint_text())),
        },
    }
}

// ---------------------------------------------------------------------------
// 32-byte values
// ---------------------------------------------------------------------------

impl Record for Txid {
    type M = Txid;

    open spec fn model(&self) -> Txid {
        *self
    }

    open spec fn item(&self) -> Item {
        Item::Bytes(self.0@)
    }

    open spec fn read(item: Item) -> Option<Txid> {
        match read32(item) {
            Some(b) => Some(Txid(b)),
            None => None,
        }
    }

    open spec fn complaint() -> Seq<char> {
        "not 32 bytes"@
    }

    fn value(&self) -> (r: Value) {
        proof {
            bytes32_roundtrip(self.0);
        }
        value32(&self.0)
    }

    fn from_value(v: &Value) -> (r: Option<Self>) {
        match get32(v) {
            Some(b) => Some(Txid(b)),
            None => None,
        }
    }

    fn complaint_text() -> (r: &'static str) {
        "not 32 bytes"
    }
}

impl Record for BlockHash {
    type M = BlockHash;

    open spec fn model(&self) -> BlockHash {
        *self
    }

    open spec fn item(&self) -> Item {
        Item::Bytes(self.0@)
    }

    open spec fn read(item: Item) -> Option<BlockHash> {
        match read32(item) {
            Some(b) => Some(BlockHash(b)),
            None => None,
        }
    }

    open spec fn complaint() -> Seq<char> {
        "not 32 bytes"@
    }

    fn value(&self) -> (r: Value) {
        proof {
            bytes32_roundtrip(self.0);
        }
        value32(&self.0)
    }

    fn from_value(v: &Value) -> (r: Option<Self>) {
        match get32(v) {
            Some(b) => Some(BlockHash(b)),
            None => None,
        }
    }

    fn complaint_text() -> (r: &'static str) {
        "not 32 bytes"
    }
}

impl Record for ScriptId {
    type M = ScriptId;

    open spec fn model(&self) -> ScriptId {
        *self
    }

    open spec fn item(&self) -> Item {
        Item::Bytes(self.0@)
    }

    open spec fn read(item: Item) -> Option<ScriptId> {
        match read32(item) {
            Some(b) => Some(ScriptId(b)),
            None => None,
        }
    }

    open spec fn complaint() -> Seq<char> {
        "not 32 bytes"@
    }

    fn value(&self) -> (r: Value) {
        proof {
            bytes32_roundtrip(self.0);
        }
        value32(&self.0)
    }

    fn from_value(v: &Value) -> (r: Option<Self>) {
        match get32(v) {
            Some(b) => Some(ScriptId(b)),
            None => None,
        }
    }

    fn complaint_text() -> (r: &'static str) {
        "not 32 bytes"
    }
}

impl Record for BridgeId {
    type M = BridgeId;

    open spec fn model(&self) -> BridgeId {
        *self
    }

    open spec fn item(&self) -> Item {
        Item::Bytes(self.0@)
    }

    open spec fn read(item: Item) -> Option<BridgeId> {
        match read32(item) {
            Some(b) => Some(BridgeId(b)),
            None => None,
        }
    }

    open spec fn complaint() -> Seq<char> {
        "not 32 bytes"@
    }

    fn value(&self) -> (r: Value) {
        proof {
            bytes32_roundtrip(self.0);
        }
        value32(&self.0)
    }

    fn from_value(v: &Value) -> (r: Option<Self>) {
        match get32(v) {
            Some(b) => Some(BridgeId(b)),
            None => None,
        }
    }

    fn complaint_text() -> (r: &'static str) {
        "not 32 bytes"
    }
}

// ---------------------------------------------------------------------------
// Digests
// ---------------------------------------------------------------------------

/// The digest that holds these words.
pub open spec fn digest_with(words: Seq<u64>) -> BucketDigest {
    choose|d: BucketDigest| d.0@ == words
}

pub open spec fn words_of(b: Seq<u8>) -> Seq<u64> {
    Seq::new(16, |i: int| le64(b, 8 * i) as u64)
}

proof fn words_come_back(d: Seq<u64>, i: int)
    requires
        0 <= i < d.len(),
    ensures
        digest_bytes(d).len() == 8 * d.len(),
        le64(digest_bytes(d), 8 * i) == d[i],
    decreases d.len(),
{
    digest_width_is_fixed(d);
    digest_width_is_fixed(d.drop_last());
    le64_roundtrip(d.last());
    if i < d.len() - 1 {
        words_come_back(d.drop_last(), i);
    }
}

impl Record for BucketDigest {
    type M = BucketDigest;

    open spec fn model(&self) -> BucketDigest {
        *self
    }

    open spec fn item(&self) -> Item {
        Item::Bytes(digest_bytes(self.0@))
    }

    open spec fn read(item: Item) -> Option<BucketDigest> {
        match item {
            Item::Bytes(b) => if b.len() == 128 {
                Some(digest_with(words_of(b)))
            } else {
                None
            },
            _ => None,
        }
    }

    open spec fn complaint() -> Seq<char> {
        "not 128 bytes"@
    }

    fn value(&self) -> (r: Value) {
        proof {
            digest_width_is_fixed(self.0@);
            let words = words_of(digest_bytes(self.0@));
            assert forall|i: int| 0 <= i < 16 implies words[i] == self.0@[i] by {
                words_come_back(self.0@, i);
            }
            assert(words =~= self.0@);
            let d = digest_with(words);
            assert(d.0@ == words);
            assert(d.0 =~= self.0);
        }
        byte_string(self.to_bytes())
    }

    fn from_value(v: &Value) -> (r: Option<Self>) {
        match crate::cbor::as_bytes(v) {
            Some(b) => {
                if b.len() != 128 {
                    return None;
                }
                let mut out = [0u64; 16];
                for i in 0..16usize
                    invariant
                        b@.len() == 128,
                        out@.len() == 16,
                        forall|j: int| 0 <= j < i ==> out@[j] == words_of(b@)[j],
                {
                    out[i] = read_le64(b, 8 * i);
                }
                let d = BucketDigest(out);
                proof {
                    assert(d.0@ =~= words_of(b@));
                    let e = digest_with(words_of(b@));
                    assert(e.0@ == d.0@);
                    assert(e.0 =~= d.0);
                }
                Some(d)
            },
            None => None,
        }
    }

    fn complaint_text() -> (r: &'static str) {
        "not 128 bytes"
    }
}

// ---------------------------------------------------------------------------
// Claims and tip entries
// ---------------------------------------------------------------------------

impl Record for ClaimBody {
    type M = BodyModel;

    open spec fn model(&self) -> BodyModel {
        self@
    }

    open spec fn item(&self) -> Item {
        body_item(self@)
    }

    open spec fn read(item: Item) -> Option<BodyModel> {
        body_read(item)
    }

    open spec fn complaint() -> Seq<char> {
        "not a claim"@
    }

    fn value(&self) -> (r: Value) {
        proof {
            body_roundtrip(self@);
        }
        body_value(self)
    }

    fn from_value(v: &Value) -> (r: Option<Self>) {
        read_body(v)
    }

    fn complaint_text() -> (r: &'static str) {
        "not a claim"
    }
}

impl Record for TipEntryBody {
    type M = TipEntryBody;

    open spec fn model(&self) -> TipEntryBody {
        *self
    }

    open spec fn item(&self) -> Item {
        tip_item(*self)
    }

    open spec fn read(item: Item) -> Option<TipEntryBody> {
        tip_read(item)
    }

    open spec fn complaint() -> Seq<char> {
        "not a tip entry"@
    }

    fn value(&self) -> (r: Value) {
        proof {
            tip_roundtrip(*self);
        }
        tip_value(self)
    }

    fn from_value(v: &Value) -> (r: Option<Self>) {
        read_tip(v)
    }

    fn complaint_text() -> (r: &'static str) {
        "not a tip entry"
    }
}

fn read_signed(v: &Value) -> (r: Option<(Vec<u8>, BridgeId, Vec<u8>)>)
    ensures
        match r {
            Some(x) => signed_read(seen(*v)) == Some(
                SignedModel { body_cbor: x.0@, bridge: x.1, signature: x.2@ },
            ),
            None => signed_read(seen(*v)) is None,
        },
{
    let es = match named_entries(v) {
        Some(es) => es,
        None => {
            return None;
        },
    };
    match (field(es, "body_cbor"), field(es, "bridge"), field(es, "signature")) {
        (Some(a), Some(b), Some(c)) => match (octets(a), get32(b), octets(c)) {
            (Some(body_cbor), Some(bridge), Some(signature)) => Some(
                (body_cbor, BridgeId(bridge), signature),
            ),
            _ => None,
        },
        _ => None,
    }
}

impl Record for SignedClaim {
    type M = SignedModel;

    open spec fn model(&self) -> SignedModel {
        self@
    }

    open spec fn item(&self) -> Item {
        signed_item(self@)
    }

    open spec fn read(item: Item) -> Option<SignedModel> {
        signed_read(item)
    }

    open spec fn complaint() -> Seq<char> {
        "not a signed claim"@
    }

    fn value(&self) -> (r: Value) {
        proof {
            signed_roundtrip(self@);
            plain_deeper(signed_item(self@), 2, max_depth());
        }
        signed_value(&self.body_cbor, &self.bridge, &self.signature)
    }

    fn from_value(v: &Value) -> (r: Option<Self>) {
        match read_signed(v) {
            Some((body_cbor, bridge, signature)) => Some(
                SignedClaim { body_cbor, bridge, signature },
            ),
            None => None,
        }
    }

    fn complaint_text() -> (r: &'static str) {
        "not a signed claim"
    }
}

impl Record for SignedTipEntry {
    type M = SignedModel;

    open spec fn model(&self) -> SignedModel {
        self@
    }

    open spec fn item(&self) -> Item {
        signed_item(self@)
    }

    open spec fn read(item: Item) -> Option<SignedModel> {
        signed_read(item)
    }

    open spec fn complaint() -> Seq<char> {
        "not a signed tip entry"@
    }

    fn value(&self) -> (r: Value) {
        proof {
            signed_roundtrip(self@);
            plain_deeper(signed_item(self@), 2, max_depth());
        }
        signed_value(&self.body_cbor, &self.bridge, &self.signature)
    }

    fn from_value(v: &Value) -> (r: Option<Self>) {
        match read_signed(v) {
            Some((body_cbor, bridge, signature)) => Some(
                SignedTipEntry { body_cbor, bridge, signature },
            ),
            None => None,
        }
    }

    fn complaint_text() -> (r: &'static str) {
        "not a signed tip entry"
    }
}

// ---------------------------------------------------------------------------
// Maps
// ---------------------------------------------------------------------------

/// The entries of a map, each key and value read by itself.
pub open spec fn pairs_read<K, M>(
    es: Seq<(Item, Item)>,
    key: spec_fn(Item) -> Option<K>,
    val: spec_fn(Item) -> Option<M>,
) -> Option<Seq<(K, M)>>
    decreases es.len(),
{
    if es.len() == 0 {
        Some(Seq::empty())
    } else {
        match (pairs_read(es.drop_last(), key, val), key(es.last().0), val(es.last().1)) {
            (Some(s), Some(k), Some(m)) => Some(s.push((k, m))),
            _ => None,
        }
    }
}

pub open spec fn pairs_item<K, M>(
    list: Seq<(K, M)>,
    key: spec_fn(K) -> Item,
    val: spec_fn(M) -> Item,
) -> Seq<(Item, Item)> {
    list.map_values(|e: (K, M)| (key(e.0), val(e.1)))
}

proof fn pairs_roundtrip<K, M>(
    list: Seq<(K, M)>,
    key: spec_fn(K) -> Item,
    val: spec_fn(M) -> Item,
    read_key: spec_fn(Item) -> Option<K>,
    read_val: spec_fn(Item) -> Option<M>,
    depth: nat,
)
    requires
        forall|k: K| read_key(#[trigger] key(k)) == Some(k),
        forall|m: M| read_val(#[trigger] val(m)) == Some(m),
        forall|k: K| plain(#[trigger] key(k), depth),
        forall|m: M| plain(#[trigger] val(m), depth),
    ensures
        pairs_read(pairs_item(list, key, val), read_key, read_val) == Some(list),
        plain(Item::Pairs(pairs_item(list, key, val)), depth + 1),
    decreases list.len(),
{
    let es = pairs_item(list, key, val);
    if list.len() > 0 {
        pairs_roundtrip(list.drop_last(), key, val, read_key, read_val, depth);
        assert(es.drop_last() =~= pairs_item(list.drop_last(), key, val));
        assert(es.last() == (key(list.last().0), val(list.last().1)));
        assert(list =~= list.drop_last().push(list.last()));
    } else {
        assert(list =~= Seq::<(K, M)>::empty());
    }
    assert forall|i: int| 0 <= i < es.len() implies plain((#[trigger] es[i]).0, depth) && plain(
        es[i].1,
        depth,
    ) by {
        assert(es[i] == (key(list[i].0), val(list[i].1)));
    }
    assert((depth + 1 - 1) as nat == depth);
}

/// An unreadable entry makes the whole map unreadable.
proof fn pairs_need_each<K, M>(
    es: Seq<(Item, Item)>,
    key: spec_fn(Item) -> Option<K>,
    val: spec_fn(Item) -> Option<M>,
    i: int,
)
    requires
        0 <= i <= es.len(),
        pairs_read(es.take(i), key, val) is None,
    ensures
        pairs_read(es, key, val) is None,
    decreases es.len() - i,
{
    if i < es.len() {
        assert(es.take(i + 1).drop_last() =~= es.take(i));
        pairs_need_each(es, key, val, i + 1);
    } else {
        assert(es.take(i) =~= es);
    }
}

pub open spec fn claim_key_item() -> spec_fn(ClaimKey) -> Item {
    |k: ClaimKey| Item::Bytes(k.0@)
}

pub open spec fn claim_key_read() -> spec_fn(Item) -> Option<ClaimKey> {
    |item: Item|
        match read32(item) {
            Some(b) => Some(ClaimKey(b)),
            None => None,
        }
}

pub open spec fn bridge_key_item() -> spec_fn(BridgeId) -> Item {
    |k: BridgeId| Item::Bytes(k.0@)
}

pub open spec fn bridge_key_read() -> spec_fn(Item) -> Option<BridgeId> {
    |item: Item| BridgeId::read(item)
}

pub open spec fn height_item() -> spec_fn(u32) -> Item {
    |h: u32| Item::Uint(h as u64)
}

pub open spec fn height_read() -> spec_fn(Item) -> Option<u32> {
    |item: Item| u32_of(item)
}

pub open spec fn signed_to() -> spec_fn(SignedModel) -> Item {
    |c: SignedModel| signed_item(c)
}

pub open spec fn signed_from() -> spec_fn(Item) -> Option<SignedModel> {
    |item: Item| signed_read(item)
}

proof fn keys_and_values_roundtrip()
    ensures
        forall|k: ClaimKey| claim_key_read()(#[trigger] claim_key_item()(k)) == Some(k),
        forall|k: BridgeId| bridge_key_read()(#[trigger] bridge_key_item()(k)) == Some(k),
        forall|h: u32| height_read()(#[trigger] height_item()(h)) == Some(h),
        forall|c: SignedModel| signed_from()(#[trigger] signed_to()(c)) == Some(c),
        forall|c: SignedModel| plain(#[trigger] signed_to()(c), 2),
{
    assert forall|k: ClaimKey| claim_key_read()(#[trigger] claim_key_item()(k)) == Some(k) by {
        bytes32_roundtrip(k.0);
    }
    assert forall|k: BridgeId| bridge_key_read()(#[trigger] bridge_key_item()(k)) == Some(k) by {
        bytes32_roundtrip(k.0);
    }
    assert forall|c: SignedModel| signed_from()(#[trigger] signed_to()(c)) == Some(c) by {
        signed_roundtrip(c);
    }
    assert forall|c: SignedModel| plain(#[trigger] signed_to()(c), 2) by {
        signed_roundtrip(c);
    }
}

fn claims_value(m: &SortedMap<ClaimKey, SignedClaim>) -> (r: Value)
    ensures
        item_of(r) == Item::Pairs(pairs_item(m.list(), claim_key_item(), signed_to())),
{
    let ghost list = m.list();
    let n: usize = m.len();
    let mut fields = Fields::new();
    assert(fields.items() =~= pairs_item(list.take(0), claim_key_item(), signed_to()));
    for i in 0..n
        invariant
            list == m.list(),
            n == list.len(),
            fields.items() == pairs_item(list.take(i as int), claim_key_item(), signed_to()),
    {
        let (k, c) = m.at(i);
        assert(list[i as int] == (*k, c@));
        fields = fields.with_entry(value32(&k.0), c.value());
        assert(fields.items() =~= pairs_item(list.take(i + 1), claim_key_item(), signed_to()));
    }
    assert(list.take(n as int) =~= list);
    fields.done()
}

fn watermarks_value(m: &SortedMap<BridgeId, SignedClaim>) -> (r: Value)
    ensures
        item_of(r) == Item::Pairs(pairs_item(m.list(), bridge_key_item(), signed_to())),
{
    let ghost list = m.list();
    let n: usize = m.len();
    let mut fields = Fields::new();
    assert(fields.items() =~= pairs_item(list.take(0), bridge_key_item(), signed_to()));
    for i in 0..n
        invariant
            list == m.list(),
            n == list.len(),
            fields.items() == pairs_item(list.take(i as int), bridge_key_item(), signed_to()),
    {
        let (k, c) = m.at(i);
        assert(list[i as int] == (*k, c@));
        fields = fields.with_entry(value32(&k.0), c.value());
        assert(fields.items() =~= pairs_item(list.take(i + 1), bridge_key_item(), signed_to()));
    }
    assert(list.take(n as int) =~= list);
    fields.done()
}

fn heights_value(m: &SortedMap<BridgeId, u32>) -> (r: Value)
    ensures
        item_of(r) == Item::Pairs(pairs_item(m.list(), bridge_key_item(), height_item())),
{
    let ghost list = m.list();
    let n: usize = m.len();
    let mut fields = Fields::new();
    assert(fields.items() =~= pairs_item(list.take(0), bridge_key_item(), height_item()));
    for i in 0..n
        invariant
            list == m.list(),
            n == list.len(),
            fields.items() == pairs_item(list.take(i as int), bridge_key_item(), height_item()),
    {
        let (k, h) = m.at(i);
        assert(list[i as int] == (*k, *h));
        fields = fields.with_entry(value32(&k.0), uint(*h as u64));
        assert(fields.items() =~= pairs_item(list.take(i + 1), bridge_key_item(), height_item()));
    }
    assert(list.take(n as int) =~= list);
    fields.done()
}

fn blocks_value(m: &SortedMap<u32, SignedTipEntry>) -> (r: Value)
    ensures
        item_of(r) == Item::Pairs(pairs_item(m.list(), height_item(), signed_to())),
{
    let ghost list = m.list();
    let n: usize = m.len();
    let mut fields = Fields::new();
    assert(fields.items() =~= pairs_item(list.take(0), height_item(), signed_to()));
    for i in 0..n
        invariant
            list == m.list(),
            n == list.len(),
            fields.items() == pairs_item(list.take(i as int), height_item(), signed_to()),
    {
        let (h, c) = m.at(i);
        assert(list[i as int] == (*h, c@));
        fields = fields.with_entry(uint(*h as u64), c.value());
        assert(fields.items() =~= pairs_item(list.take(i + 1), height_item(), signed_to()));
    }
    assert(list.take(n as int) =~= list);
    fields.done()
}

/// The map that an item holds, of two entries with one key the later.
pub open spec fn map_read<K, M>(
    item: Item,
    key: spec_fn(Item) -> Option<K>,
    val: spec_fn(Item) -> Option<M>,
) -> Option<Map<K, M>> {
    match item {
        Item::Pairs(es) => match pairs_read(es, key, val) {
            Some(s) => Some(map_of(s)),
            None => None,
        },
        _ => None,
    }
}

fn read_claims(v: &Value) -> (r: Option<SortedMap<ClaimKey, SignedClaim>>)
    ensures
        match r {
            Some(m) => map_read(seen(*v), claim_key_read(), signed_from()) == Some(m@),
            None => map_read(seen(*v), claim_key_read(), signed_from()) is None,
        },
{
    let es = match as_pairs(v) {
        Some(es) => es,
        None => {
            return None;
        },
    };
    let ghost items = seen_entries(es@);
    let mut m: SortedMap<ClaimKey, SignedClaim> = SortedMap::new();
    let n: usize = es.len();
    assert(items.take(0) =~= Seq::<(Item, Item)>::empty());
    assert(m@ =~= map_of(Seq::<(ClaimKey, SignedModel)>::empty()));
    for i in 0..n
        invariant
            n == es@.len(),
            items == seen_entries(es@),
            seen(*v) == Item::Pairs(items),
            pairs_read(items.take(i as int), claim_key_read(), signed_from()) is Some,
            m@ == map_of(
                pairs_read(items.take(i as int), claim_key_read(), signed_from())->Some_0,
            ),
    {
        let ghost next = items.take(i + 1);
        proof {
            assert(next.drop_last() =~= items.take(i as int));
            assert(next.last() == (seen(es@[i as int].0), seen(es@[i as int].1)));
        }
        let ghost so_far = pairs_read(items.take(i as int), claim_key_read(), signed_from())->Some_0;
        let e = &es[i];
        match (get32(&e.0), SignedClaim::from_value(&e.1)) {
            (Some(k), Some(c)) => {
                let ghost entry = (ClaimKey(k), c@);
                m.insert(ClaimKey(k), c);
                assert(so_far.push(entry).drop_last() =~= so_far);
            },
            _ => {
                proof {
                    pairs_need_each(items, claim_key_read(), signed_from(), i + 1);
                }
                return None;
            },
        }
    }
    assert(items.take(n as int) =~= items);
    Some(m)
}

fn read_watermarks(v: &Value) -> (r: Option<SortedMap<BridgeId, SignedClaim>>)
    ensures
        match r {
            Some(m) => map_read(seen(*v), bridge_key_read(), signed_from()) == Some(m@),
            None => map_read(seen(*v), bridge_key_read(), signed_from()) is None,
        },
{
    let es = match as_pairs(v) {
        Some(es) => es,
        None => {
            return None;
        },
    };
    let ghost items = seen_entries(es@);
    let mut m: SortedMap<BridgeId, SignedClaim> = SortedMap::new();
    let n: usize = es.len();
    assert(items.take(0) =~= Seq::<(Item, Item)>::empty());
    assert(m@ =~= map_of(Seq::<(BridgeId, SignedModel)>::empty()));
    for i in 0..n
        invariant
            n == es@.len(),
            items == seen_entries(es@),
            seen(*v) == Item::Pairs(items),
            pairs_read(items.take(i as int), bridge_key_read(), signed_from()) is Some,
            m@ == map_of(
                pairs_read(items.take(i as int), bridge_key_read(), signed_from())->Some_0,
            ),
    {
        let ghost next = items.take(i + 1);
        proof {
            assert(next.drop_last() =~= items.take(i as int));
            assert(next.last() == (seen(es@[i as int].0), seen(es@[i as int].1)));
        }
        let ghost so_far = pairs_read(
            items.take(i as int),
            bridge_key_read(),
            signed_from(),
        )->Some_0;
        let e = &es[i];
        match (BridgeId::from_value(&e.0), SignedClaim::from_value(&e.1)) {
            (Some(k), Some(c)) => {
                let ghost entry = (k, c@);
                m.insert(k, c);
                assert(so_far.push(entry).drop_last() =~= so_far);
            },
            _ => {
                proof {
                    pairs_need_each(items, bridge_key_read(), signed_from(), i + 1);
                }
                return None;
            },
        }
    }
    assert(items.take(n as int) =~= items);
    Some(m)
}

fn read_heights(v: &Value) -> (r: Option<SortedMap<BridgeId, u32>>)
    ensures
        match r {
            Some(m) => map_read(seen(*v), bridge_key_read(), height_read()) == Some(m@),
            None => map_read(seen(*v), bridge_key_read(), height_read()) is None,
        },
{
    let es = match as_pairs(v) {
        Some(es) => es,
        None => {
            return None;
        },
    };
    let ghost items = seen_entries(es@);
    let mut m: SortedMap<BridgeId, u32> = SortedMap::new();
    let n: usize = es.len();
    assert(items.take(0) =~= Seq::<(Item, Item)>::empty());
    assert(m@ =~= map_of(Seq::<(BridgeId, u32)>::empty()));
    for i in 0..n
        invariant
            n == es@.len(),
            items == seen_entries(es@),
            seen(*v) == Item::Pairs(items),
            pairs_read(items.take(i as int), bridge_key_read(), height_read()) is Some,
            m@ == map_of(
                pairs_read(items.take(i as int), bridge_key_read(), height_read())->Some_0,
            ),
    {
        let ghost next = items.take(i + 1);
        proof {
            assert(next.drop_last() =~= items.take(i as int));
            assert(next.last() == (seen(es@[i as int].0), seen(es@[i as int].1)));
        }
        let ghost so_far = pairs_read(
            items.take(i as int),
            bridge_key_read(),
            height_read(),
        )->Some_0;
        let e = &es[i];
        match (BridgeId::from_value(&e.0), as_u32(&e.1)) {
            (Some(k), Some(h)) => {
                let ghost entry = (k, h);
                m.insert(k, h);
                assert(so_far.push(entry).drop_last() =~= so_far);
            },
            _ => {
                proof {
                    pairs_need_each(items, bridge_key_read(), height_read(), i + 1);
                }
                return None;
            },
        }
    }
    assert(items.take(n as int) =~= items);
    Some(m)
}

fn read_blocks(v: &Value) -> (r: Option<SortedMap<u32, SignedTipEntry>>)
    ensures
        match r {
            Some(m) => map_read(seen(*v), height_read(), signed_from()) == Some(m@),
            None => map_read(seen(*v), height_read(), signed_from()) is None,
        },
{
    let es = match as_pairs(v) {
        Some(es) => es,
        None => {
            return None;
        },
    };
    let ghost items = seen_entries(es@);
    let mut m: SortedMap<u32, SignedTipEntry> = SortedMap::new();
    let n: usize = es.len();
    assert(items.take(0) =~= Seq::<(Item, Item)>::empty());
    assert(m@ =~= map_of(Seq::<(u32, SignedModel)>::empty()));
    for i in 0..n
        invariant
            n == es@.len(),
            items == seen_entries(es@),
            seen(*v) == Item::Pairs(items),
            pairs_read(items.take(i as int), height_read(), signed_from()) is Some,
            m@ == map_of(pairs_read(items.take(i as int), height_read(), signed_from())->Some_0),
    {
        let ghost next = items.take(i + 1);
        proof {
            assert(next.drop_last() =~= items.take(i as int));
            assert(next.last() == (seen(es@[i as int].0), seen(es@[i as int].1)));
        }
        let ghost so_far = pairs_read(items.take(i as int), height_read(), signed_from())->Some_0;
        let e = &es[i];
        match (as_u32(&e.0), SignedTipEntry::from_value(&e.1)) {
            (Some(h), Some(c)) => {
                let ghost entry = (h, c@);
                m.insert(h, c);
                assert(so_far.push(entry).drop_last() =~= so_far);
            },
            _ => {
                proof {
                    pairs_need_each(items, height_read(), signed_from(), i + 1);
                }
                return None;
            },
        }
    }
    assert(items.take(n as int) =~= items);
    Some(m)
}

// ---------------------------------------------------------------------------
// States
// ---------------------------------------------------------------------------

pub open spec fn set_item(
    claims: Seq<(ClaimKey, SignedModel)>,
    scanned: Seq<(BridgeId, SignedModel)>,
) -> Item {
    Item::Pairs(
        seq![
            (
                Item::Text("claims"@),
                Item::Pairs(pairs_item(claims, claim_key_item(), signed_to())),
            ),
            (
                Item::Text("scanned"@),
                Item::Pairs(pairs_item(scanned, bridge_key_item(), signed_to())),
            ),
        ],
    )
}

pub open spec fn set_read(item: Item) -> Option<SetModel> {
    match item {
        Item::Pairs(es) => if all_named(es) {
            match (field_of(es, "claims"@), field_of(es, "scanned"@)) {
                (Some(a), Some(b)) => match (
                    map_read(a, claim_key_read(), signed_from()),
                    map_read(b, bridge_key_read(), signed_from()),
                ) {
                    (Some(claims), Some(scanned)) => Some(SetModel { claims, scanned }),
                    _ => None,
                },
                _ => None,
            }
        } else {
            None
        },
        _ => None,
    }
}

proof fn set_roundtrip(
    claims: Seq<(ClaimKey, SignedModel)>,
    scanned: Seq<(BridgeId, SignedModel)>,
)
    ensures
        set_read(set_item(claims, scanned)) == Some(
            SetModel { claims: map_of(claims), scanned: map_of(scanned) },
        ),
        plain(set_item(claims, scanned), 4),
{
    reveal_strlit("claims");
    reveal_strlit("scanned");
    assert("claims"@.len() == 6 && "scanned"@.len() == 7);
    let es = set_item(claims, scanned)->Pairs_0;
    field_found(es, "claims"@, 0);
    field_found(es, "scanned"@, 1);
    keys_and_values_roundtrip();
    pairs_roundtrip(claims, claim_key_item(), signed_to(), claim_key_read(), signed_from(), 2);
    pairs_roundtrip(scanned, bridge_key_item(), signed_to(), bridge_key_read(), signed_from(), 2);
    assert(plain(set_item(claims, scanned), 4)) by {
        assert forall|i: int| 0 <= i < es.len() implies plain((#[trigger] es[i]).0, 3) && plain(
            es[i].1,
            3,
        ) by {}
    }
}

impl Record for ClaimSetV1 {
    type M = SetModel;

    open spec fn model(&self) -> SetModel {
        self@
    }

    open spec fn item(&self) -> Item {
        set_item(self.claims.list(), self.scanned.list())
    }

    open spec fn read(item: Item) -> Option<SetModel> {
        set_read(item)
    }

    open spec fn complaint() -> Seq<char> {
        "not a claim set"@
    }

    fn value(&self) -> (r: Value) {
        proof {
            set_roundtrip(self.claims.list(), self.scanned.list());
            plain_deeper(self.item(), 4, max_depth());
        }
        let fields = Fields::new().with("claims", claims_value(&self.claims)).with(
            "scanned",
            watermarks_value(&self.scanned),
        );
        assert(fields.items() =~= self.item()->Pairs_0);
        fields.done()
    }

    fn from_value(v: &Value) -> (r: Option<Self>) {
        let es = match named_entries(v) {
            Some(es) => es,
            None => {
                return None;
            },
        };
        match (field(es, "claims"), field(es, "scanned")) {
            (Some(a), Some(b)) => match (read_claims(a), read_watermarks(b)) {
                (Some(claims), Some(scanned)) => Some(ClaimSetV1 { claims, scanned }),
                _ => None,
            },
            _ => None,
        }
    }

    fn complaint_text() -> (r: &'static str) {
        "not a claim set"
    }
}

/// A structure with one field.
pub open spec fn wrapped(name: Seq<char>, inner: Item) -> Item {
    Item::Pairs(seq![(Item::Text(name), inner)])
}

pub open spec fn unwrapped(name: Seq<char>, item: Item) -> Option<Item> {
    match item {
        Item::Pairs(es) => if all_named(es) {
            field_of(es, name)
        } else {
            None
        },
        _ => None,
    }
}

proof fn wrapped_roundtrip(name: Seq<char>, inner: Item, depth: nat)
    requires
        plain(inner, depth),
    ensures
        unwrapped(name, wrapped(name, inner)) == Some(inner),
        plain(wrapped(name, inner), depth + 1),
{
    let es = wrapped(name, inner)->Pairs_0;
    field_found(es, name, 0);
    assert forall|i: int| 0 <= i < es.len() implies plain((#[trigger] es[i]).0, depth) && plain(
        es[i].1,
        depth,
    ) by {
        assert(es[0] == (Item::Text(name), inner));
    }
    assert((depth + 1 - 1) as nat == depth);
}

fn unwrap_field<'a>(name: &str, v: &'a Value) -> (r: Option<&'a Value>)
    ensures
        match r {
            Some(w) => unwrapped(name@, seen(*v)) == Some(seen(*w)),
            None => unwrapped(name@, seen(*v)) is None,
        },
{
    match named_entries(v) {
        Some(es) => field(es, name),
        None => None,
    }
}

fn wrap_field(name: &str, v: Value) -> (r: Value)
    ensures
        item_of(r) == wrapped(name@, item_of(v)),
{
    let fields = Fields::new().with(name, v);
    assert(fields.items() =~= wrapped(name@, item_of(v))->Pairs_0);
    fields.done()
}

impl Record for BitcoinAddressStateV1 {
    type M = SetModel;

    open spec fn model(&self) -> SetModel {
        self.claims@
    }

    open spec fn item(&self) -> Item {
        wrapped("claims"@, set_item(self.claims.claims.list(), self.claims.scanned.list()))
    }

    open spec fn read(item: Item) -> Option<SetModel> {
        match unwrapped("claims"@, item) {
            Some(inner) => set_read(inner),
            None => None,
        }
    }

    open spec fn complaint() -> Seq<char> {
        "not an address state"@
    }

    fn value(&self) -> (r: Value) {
        proof {
            set_roundtrip(self.claims.claims.list(), self.claims.scanned.list());
            wrapped_roundtrip("claims"@, self.claims.item(), 4);
            plain_deeper(self.item(), 5, max_depth());
        }
        wrap_field("claims", self.claims.value())
    }

    fn from_value(v: &Value) -> (r: Option<Self>) {
        match unwrap_field("claims", v) {
            Some(inner) => match ClaimSetV1::from_value(inner) {
                Some(claims) => Some(BitcoinAddressStateV1 { claims }),
                None => None,
            },
            None => None,
        }
    }

    fn complaint_text() -> (r: &'static str) {
        "not an address state"
    }
}

pub open spec fn blocks_read(item: Item) -> Option<Map<u32, SignedModel>> {
    match unwrapped("blocks"@, item) {
        Some(inner) => map_read(inner, height_read(), signed_from()),
        None => None,
    }
}

impl Record for BlockSummariesV1 {
    type M = Map<u32, SignedModel>;

    open spec fn model(&self) -> Map<u32, SignedModel> {
        self.blocks@
    }

    open spec fn item(&self) -> Item {
        wrapped(
            "blocks"@,
            Item::Pairs(pairs_item(self.blocks.list(), height_item(), signed_to())),
        )
    }

    open spec fn read(item: Item) -> Option<Map<u32, SignedModel>> {
        blocks_read(item)
    }

    open spec fn complaint() -> Seq<char> {
        "not block summaries"@
    }

    fn value(&self) -> (r: Value) {
        proof {
            keys_and_values_roundtrip();
            pairs_roundtrip(
                self.blocks.list(),
                height_item(),
                signed_to(),
                height_read(),
                signed_from(),
                2,
            );
            wrapped_roundtrip(
                "blocks"@,
                Item::Pairs(pairs_item(self.blocks.list(), height_item(), signed_to())),
                3,
            );
            plain_deeper(self.item(), 4, max_depth());
        }
        wrap_field("blocks", blocks_value(&self.blocks))
    }

    fn from_value(v: &Value) -> (r: Option<Self>) {
        match unwrap_field("blocks", v) {
            Some(inner) => match read_blocks(inner) {
                Some(blocks) => Some(BlockSummariesV1 { blocks }),
                None => None,
            },
            None => None,
        }
    }

    fn complaint_text() -> (r: &'static str) {
        "not block summaries"
    }
}

impl Record for BitcoinTipStateV1 {
    type M = Map<u32, SignedModel>;

    open spec fn model(&self) -> Map<u32, SignedModel> {
        self.blocks.blocks@
    }

    open spec fn item(&self) -> Item {
        wrapped(
            "blocks"@,
            wrapped(
                "blocks"@,
                Item::Pairs(pairs_item(self.blocks.blocks.list(), height_item(), signed_to())),
            ),
        )
    }

    open spec fn read(item: Item) -> Option<Map<u32, SignedModel>> {
        match unwrapped("blocks"@, item) {
            Some(inner) => blocks_read(inner),
            None => None,
        }
    }

    open spec fn complaint() -> Seq<char> {
        "not a tip state"@
    }

    fn value(&self) -> (r: Value) {
        let inner = self.blocks.value();
        proof {
            keys_and_values_roundtrip();
            let pairs = Item::Pairs(
                pairs_item(self.blocks.blocks.list(), height_item(), signed_to()),
            );
            pairs_roundtrip(
                self.blocks.blocks.list(),
                height_item(),
                signed_to(),
                height_read(),
                signed_from(),
                2,
            );
            wrapped_roundtrip("blocks"@, pairs, 3);
            wrapped_roundtrip("blocks"@, wrapped("blocks"@, pairs), 4);
            plain_deeper(self.item(), 5, max_depth());
        }
        wrap_field("blocks", inner)
    }

    fn from_value(v: &Value) -> (r: Option<Self>) {
        match unwrap_field("blocks", v) {
            Some(inner) => match BlockSummariesV1::from_value(inner) {
                Some(blocks) => Some(BitcoinTipStateV1 { blocks }),
                None => None,
            },
            None => None,
        }
    }

    fn complaint_text() -> (r: &'static str) {
        "not a tip state"
    }
}

// ---------------------------------------------------------------------------
// Parameters
// ---------------------------------------------------------------------------

pub open spec fn bridges_item(bridges: Seq<BridgeId>) -> Item {
    Item::Array(bridges.map_values(|b: BridgeId| Item::Bytes(b.0@)))
}

pub open spec fn bridges_read(item: Item) -> Option<Seq<BridgeId>> {
    match item {
        Item::Array(items) => if forall|i: int|
            0 <= i < items.len() ==> BridgeId::read(#[trigger] items[i]) is Some {
            Some(items.map_values(|x: Item| BridgeId::read(x)->Some_0))
        } else {
            None
        },
        _ => None,
    }
}

proof fn bridges_roundtrip(bridges: Seq<BridgeId>)
    ensures
        bridges_read(bridges_item(bridges)) == Some(bridges),
        plain(bridges_item(bridges), 1),
{
    let items = bridges.map_values(|b: BridgeId| Item::Bytes(b.0@));
    assert forall|i: int| 0 <= i < items.len() implies BridgeId::read(#[trigger] items[i]) == Some(
        bridges[i],
    ) by {
        bytes32_roundtrip(bridges[i].0);
    }
    assert(items.map_values(|x: Item| BridgeId::read(x)->Some_0) =~= bridges);
    reveal_with_fuel(plain, 2);
}

fn bridges_value(bridges: &Vec<BridgeId>) -> (r: Value)
    ensures
        item_of(r) == bridges_item(bridges@),
{
    let mut vs: Vec<Value> = Vec::new();
    let n: usize = bridges.len();
    for i in 0..n
        invariant
            n == bridges@.len(),
            items_of(vs@) == bridges@.take(i as int).map_values(|b: BridgeId| Item::Bytes(b.0@)),
    {
        let ghost before = items_of(vs@);
        vs.push(bridges[i].value());
        assert(items_of(vs@) =~= before.push(Item::Bytes(bridges@[i as int].0@)));
        assert(items_of(vs@) =~= bridges@.take(i + 1).map_values(
            |b: BridgeId| Item::Bytes(b.0@),
        ));
    }
    assert(bridges@.take(n as int) =~= bridges@);
    array(vs)
}

fn read_bridges(v: &Value) -> (r: Option<Vec<BridgeId>>)
    ensures
        match r {
            Some(bs) => bridges_read(seen(*v)) == Some(bs@),
            None => bridges_read(seen(*v)) is None,
        },
{
    match as_array(v) {
        Some(vs) => {
            let ghost items = seen_items(vs@);
            let mut out: Vec<BridgeId> = Vec::new();
            for i in 0..vs.len()
                invariant
                    items == seen_items(vs@),
                    seen(*v) == Item::Array(items),
                    out@.len() == i,
                    forall|j: int|
                        0 <= j < i ==> BridgeId::read(#[trigger] items[j]) == Some(out@[j]),
            {
                assert(items[i as int] == seen(vs@[i as int]));
                match BridgeId::from_value(&vs[i]) {
                    Some(b) => {
                        out.push(b);
                    },
                    None => {
                        return None;
                    },
                }
            }
            assert(out@ =~= items.map_values(|x: Item| BridgeId::read(x)->Some_0));
            Some(out)
        },
        None => None,
    }
}

pub open spec fn address_params_item(p: ParamsModel) -> Item {
    Item::Pairs(
        seq![
            (Item::Text("network"@), network_item(p.network)),
            (Item::Text("script_pubkey"@), octet_array(p.script_pubkey)),
            (Item::Text("trusted_bridges"@), bridges_item(p.trusted_bridges)),
            (Item::Text("pow_floor"@), Item::Uint(p.pow_floor.0 as u64)),
        ],
    )
}

/// The floor that a set of fields names: none, where they name none.
pub open spec fn floor_read(es: Seq<(Item, Item)>) -> Option<PowFloor> {
    if missing(es, "pow_floor"@) {
        Some(PowFloor(0x207fffff))
    } else {
        match field_of(es, "pow_floor"@) {
            Some(x) => match u32_of(x) {
                Some(n) => Some(PowFloor(n)),
                None => None,
            },
            None => None,
        }
    }
}

pub open spec fn address_params_read(item: Item) -> Option<ParamsModel> {
    match item {
        Item::Pairs(es) => if all_named(es) {
            match (
                field_of(es, "network"@),
                field_of(es, "script_pubkey"@),
                field_of(es, "trusted_bridges"@),
                floor_read(es),
            ) {
                (Some(a), Some(b), Some(c), Some(pow_floor)) => match (
                    network_read(a),
                    octets_of(b),
                    bridges_read(c),
                ) {
                    (Some(network), Some(script_pubkey), Some(trusted_bridges)) => Some(
                        ParamsModel { network, script_pubkey, trusted_bridges, pow_floor },
                    ),
                    _ => None,
                },
                _ => None,
            }
        } else {
            None
        },
        _ => None,
    }
}

proof fn address_params_roundtrip(p: ParamsModel)
    ensures
        address_params_read(address_params_item(p)) == Some(p),
        plain(address_params_item(p), 2),
{
    reveal_strlit("network");
    reveal_strlit("script_pubkey");
    reveal_strlit("trusted_bridges");
    reveal_strlit("pow_floor");
    assert("network"@.len() == 7 && "script_pubkey"@.len() == 13);
    assert("trusted_bridges"@.len() == 15 && "pow_floor"@.len() == 9);
    let es = address_params_item(p)->Pairs_0;
    field_found(es, "network"@, 0);
    field_found(es, "script_pubkey"@, 1);
    field_found(es, "trusted_bridges"@, 2);
    field_found(es, "pow_floor"@, 3);
    assert(!missing(es, "pow_floor"@)) by {
        assert(es[3].0 == Item::Text("pow_floor"@));
    }
    network_roundtrip(p.network);
    octet_array_roundtrip(p.script_pubkey);
    bridges_roundtrip(p.trusted_bridges);
    assert(plain(address_params_item(p), 2)) by {
        assert forall|i: int| 0 <= i < es.len() implies plain((#[trigger] es[i]).0, 1) && plain(
            es[i].1,
            1,
        ) by {}
    }
}

impl Record for BitcoinAddressParameters {
    type M = ParamsModel;

    open spec fn model(&self) -> ParamsModel {
        self@
    }

    open spec fn item(&self) -> Item {
        address_params_item(self@)
    }

    open spec fn read(item: Item) -> Option<ParamsModel> {
        address_params_read(item)
    }

    open spec fn complaint() -> Seq<char> {
        "not address parameters"@
    }

    fn value(&self) -> (r: Value) {
        proof {
            address_params_roundtrip(self@);
            plain_deeper(self.item(), 2, max_depth());
        }
        let fields = Fields::new().with("network", network_value(self.network)).with(
            "script_pubkey",
            octet_array_value(&self.script_pubkey),
        ).with("trusted_bridges", bridges_value(&self.trusted_bridges)).with(
            "pow_floor",
            uint(self.pow_floor.0 as u64),
        );
        assert(fields.items() =~= self.item()->Pairs_0);
        fields.done()
    }

    fn from_value(v: &Value) -> (r: Option<Self>) {
        let es = match named_entries(v) {
            Some(es) => es,
            None => {
                return None;
            },
        };
        let floor: Option<PowFloor> = if crate::cbor::is_missing(es, "pow_floor") {
            Some(PowFloor(0x207fffff))
        } else {
            match field(es, "pow_floor") {
                Some(x) => match as_u32(x) {
                    Some(n) => Some(PowFloor(n)),
                    None => None,
                },
                None => None,
            }
        };
        match (
            field(es, "network"),
            field(es, "script_pubkey"),
            field(es, "trusted_bridges"),
            floor,
        ) {
            (Some(a), Some(b), Some(c), Some(pow_floor)) => match (
                read_network(a),
                octets(b),
                read_bridges(c),
            ) {
                (Some(network), Some(script_pubkey), Some(trusted_bridges)) => Some(
                    BitcoinAddressParameters { network, script_pubkey, trusted_bridges, pow_floor },
                ),
                _ => None,
            },
            _ => None,
        }
    }

    fn complaint_text() -> (r: &'static str) {
        "not address parameters"
    }
}

pub open spec fn tip_params_item(p: TipParamsModel) -> Item {
    Item::Pairs(
        seq![
            (Item::Text("network"@), network_item(p.network)),
            (Item::Text("trusted_bridges"@), bridges_item(p.trusted_bridges)),
        ],
    )
}

pub open spec fn tip_params_read(item: Item) -> Option<TipParamsModel> {
    match item {
        Item::Pairs(es) => if all_named(es) {
            match (field_of(es, "network"@), field_of(es, "trusted_bridges"@)) {
                (Some(a), Some(b)) => match (network_read(a), bridges_read(b)) {
                    (Some(network), Some(trusted_bridges)) => Some(
                        TipParamsModel { network, trusted_bridges },
                    ),
                    _ => None,
                },
                _ => None,
            }
        } else {
            None
        },
        _ => None,
    }
}

proof fn tip_params_roundtrip(p: TipParamsModel)
    ensures
        tip_params_read(tip_params_item(p)) == Some(p),
        plain(tip_params_item(p), 2),
{
    reveal_strlit("network");
    reveal_strlit("trusted_bridges");
    assert("network"@.len() == 7 && "trusted_bridges"@.len() == 15);
    let es = tip_params_item(p)->Pairs_0;
    field_found(es, "network"@, 0);
    field_found(es, "trusted_bridges"@, 1);
    network_roundtrip(p.network);
    bridges_roundtrip(p.trusted_bridges);
    assert(plain(tip_params_item(p), 2)) by {
        assert forall|i: int| 0 <= i < es.len() implies plain((#[trigger] es[i]).0, 1) && plain(
            es[i].1,
            1,
        ) by {}
    }
}

impl Record for BitcoinTipParameters {
    type M = TipParamsModel;

    open spec fn model(&self) -> TipParamsModel {
        self@
    }

    open spec fn item(&self) -> Item {
        tip_params_item(self@)
    }

    open spec fn read(item: Item) -> Option<TipParamsModel> {
        tip_params_read(item)
    }

    open spec fn complaint() -> Seq<char> {
        "not tip parameters"@
    }

    fn value(&self) -> (r: Value) {
        proof {
            tip_params_roundtrip(self@);
            plain_deeper(self.item(), 2, max_depth());
        }
        let fields = Fields::new().with("network", network_value(self.network)).with(
            "trusted_bridges",
            bridges_value(&self.trusted_bridges),
        );
        assert(fields.items() =~= self.item()->Pairs_0);
        fields.done()
    }

    fn from_value(v: &Value) -> (r: Option<Self>) {
        let es = match named_entries(v) {
            Some(es) => es,
            None => {
                return None;
            },
        };
        match (field(es, "network"), field(es, "trusted_bridges")) {
            (Some(a), Some(b)) => match (read_network(a), read_bridges(b)) {
                (Some(network), Some(trusted_bridges)) => Some(
                    BitcoinTipParameters { network, trusted_bridges },
                ),
                _ => None,
            },
            _ => None,
        }
    }

    fn complaint_text() -> (r: &'static str) {
        "not tip parameters"
    }
}

// ---------------------------------------------------------------------------
// Summaries
// ---------------------------------------------------------------------------

/// A [`ClaimSetSummary`] as a mathematical value.
pub struct SummaryModel {
    pub claims: BucketDigest,
    pub scanned: Map<BridgeId, u32>,
}

pub open spec fn summary_item(d: BucketDigest, scanned: Seq<(BridgeId, u32)>) -> Item {
    Item::Pairs(
        seq![
            (Item::Text("claims"@), Item::Bytes(digest_bytes(d.0@))),
            (
                Item::Text("scanned"@),
                Item::Pairs(pairs_item(scanned, bridge_key_item(), height_item())),
            ),
        ],
    )
}

pub open spec fn summary_read(item: Item) -> Option<SummaryModel> {
    match item {
        Item::Pairs(es) => if all_named(es) {
            match (field_of(es, "claims"@), field_of(es, "scanned"@)) {
                (Some(a), Some(b)) => match (
                    BucketDigest::read(a),
                    map_read(b, bridge_key_read(), height_read()),
                ) {
                    (Some(claims), Some(scanned)) => Some(SummaryModel { claims, scanned }),
                    _ => None,
                },
                _ => None,
            }
        } else {
            None
        },
        _ => None,
    }
}

impl Record for ClaimSetSummary {
    type M = SummaryModel;

    open spec fn model(&self) -> SummaryModel {
        SummaryModel { claims: self.claims, scanned: self.scanned@ }
    }

    open spec fn item(&self) -> Item {
        summary_item(self.claims, self.scanned.list())
    }

    open spec fn read(item: Item) -> Option<SummaryModel> {
        summary_read(item)
    }

    open spec fn complaint() -> Seq<char> {
        "not a claim set summary"@
    }

    fn value(&self) -> (r: Value) {
        let digest = self.claims.value();
        proof {
            reveal_strlit("claims");
            reveal_strlit("scanned");
            assert("claims"@.len() == 6 && "scanned"@.len() == 7);
            let es = self.item()->Pairs_0;
            field_found(es, "claims"@, 0);
            field_found(es, "scanned"@, 1);
            keys_and_values_roundtrip();
            pairs_roundtrip(
                self.scanned.list(),
                bridge_key_item(),
                height_item(),
                bridge_key_read(),
                height_read(),
                0,
            );
            assert(plain(self.item(), 2)) by {
                assert forall|i: int| 0 <= i < es.len() implies plain((#[trigger] es[i]).0, 1)
                    && plain(es[i].1, 1) by {}
            }
            plain_deeper(self.item(), 2, max_depth());
        }
        let fields = Fields::new().with("claims", digest).with(
            "scanned",
            heights_value(&self.scanned),
        );
        assert(fields.items() =~= self.item()->Pairs_0);
        fields.done()
    }

    fn from_value(v: &Value) -> (r: Option<Self>) {
        let es = match named_entries(v) {
            Some(es) => es,
            None => {
                return None;
            },
        };
        match (field(es, "claims"), field(es, "scanned")) {
            (Some(a), Some(b)) => match (BucketDigest::from_value(a), read_heights(b)) {
                (Some(claims), Some(scanned)) => Some(ClaimSetSummary { claims, scanned }),
                _ => None,
            },
            _ => None,
        }
    }

    fn complaint_text() -> (r: &'static str) {
        "not a claim set summary"
    }
}

pub open spec fn tip_summary_item(s: BlockSummariesSummary) -> Item {
    Item::Pairs(
        seq![
            (Item::Text("highest"@), Item::Uint(s.highest as u64)),
            (Item::Text("lowest"@), Item::Uint(s.lowest as u64)),
            (Item::Text("count"@), Item::Uint(s.count as u64)),
            (Item::Text("digest"@), Item::Bytes(digest_bytes(s.digest.0@))),
        ],
    )
}

pub open spec fn tip_summary_read(item: Item) -> Option<BlockSummariesSummary> {
    match item {
        Item::Pairs(es) => if all_named(es) {
            match (
                field_of(es, "highest"@),
                field_of(es, "lowest"@),
                field_of(es, "count"@),
                field_of(es, "digest"@),
            ) {
                (Some(a), Some(b), Some(c), Some(d)) => match (
                    u32_of(a),
                    u32_of(b),
                    u32_of(c),
                    BucketDigest::read(d),
                ) {
                    (Some(highest), Some(lowest), Some(count), Some(digest)) => Some(
                        BlockSummariesSummary { highest, lowest, count, digest },
                    ),
                    _ => None,
                },
                _ => None,
            }
        } else {
            None
        },
        _ => None,
    }
}

impl Record for BlockSummariesSummary {
    type M = BlockSummariesSummary;

    open spec fn model(&self) -> BlockSummariesSummary {
        *self
    }

    open spec fn item(&self) -> Item {
        tip_summary_item(*self)
    }

    open spec fn read(item: Item) -> Option<BlockSummariesSummary> {
        tip_summary_read(item)
    }

    open spec fn complaint() -> Seq<char> {
        "not a tip summary"@
    }

    fn value(&self) -> (r: Value) {
        let digest = self.digest.value();
        proof {
            reveal_strlit("highest");
            reveal_strlit("lowest");
            reveal_strlit("count");
            reveal_strlit("digest");
            assert("highest"@.len() == 7 && "lowest"@.len() == 6);
            assert("count"@.len() == 5 && "digest"@.len() == 6);
            assert("lowest"@[0] != "digest"@[0]);
            let es = self.item()->Pairs_0;
            field_found(es, "highest"@, 0);
            field_found(es, "lowest"@, 1);
            field_found(es, "count"@, 2);
            field_found(es, "digest"@, 3);
            assert(plain(self.item(), 1)) by {
                assert forall|i: int| 0 <= i < es.len() implies plain((#[trigger] es[i]).0, 0)
                    && plain(es[i].1, 0) by {}
            }
            plain_deeper(self.item(), 1, max_depth());
        }
        let fields = Fields::new().with("highest", uint(self.highest as u64)).with(
            "lowest",
            uint(self.lowest as u64),
        ).with("count", uint(self.count as u64)).with("digest", digest);
        assert(fields.items() =~= self.item()->Pairs_0);
        fields.done()
    }

    fn from_value(v: &Value) -> (r: Option<Self>) {
        let es = match named_entries(v) {
            Some(es) => es,
            None => {
                return None;
            },
        };
        match (field(es, "highest"), field(es, "lowest"), field(es, "count"), field(es, "digest")) {
            (Some(a), Some(b), Some(c), Some(d)) => match (
                as_u32(a),
                as_u32(b),
                as_u32(c),
                BucketDigest::from_value(d),
            ) {
                (Some(highest), Some(lowest), Some(count), Some(digest)) => Some(
                    BlockSummariesSummary { highest, lowest, count, digest },
                ),
                _ => None,
            },
            _ => None,
        }
    }

    fn complaint_text() -> (r: &'static str) {
        "not a tip summary"
    }
}

// ---------------------------------------------------------------------------
// Requests
// ---------------------------------------------------------------------------

pub open spec fn hint_item(h: Option<u32>) -> Item {
    match h {
        Some(n) => Item::Uint(n as u64),
        None => Item::Null,
    }
}

/// An optional height: absent or null means none.
pub open spec fn hint_read(es: Seq<(Item, Item)>) -> Option<Option<u32>> {
    if missing(es, "scan_from_height"@) {
        Some(None)
    } else {
        match field_of(es, "scan_from_height"@) {
            Some(x) => if x is Null {
                Some(None)
            } else {
                match u32_of(x) {
                    Some(n) => Some(Some(n)),
                    None => None,
                }
            },
            None => None,
        }
    }
}

pub open spec fn watch_item(w: WatchModel) -> Item {
    Item::Pairs(
        seq![
            (Item::Text("network"@), network_item(w.network)),
            (Item::Text("script_pubkey"@), octet_array(w.script_pubkey)),
            (Item::Text("scan_from_height"@), hint_item(w.scan_from_height)),
        ],
    )
}

pub open spec fn watch_read(item: Item) -> Option<WatchModel> {
    match item {
        Item::Pairs(es) => if all_named(es) {
            match (field_of(es, "network"@), field_of(es, "script_pubkey"@), hint_read(es)) {
                (Some(a), Some(b), Some(scan_from_height)) => match (
                    network_read(a),
                    octets_of(b),
                ) {
                    (Some(network), Some(script_pubkey)) => Some(
                        WatchModel { network, script_pubkey, scan_from_height },
                    ),
                    _ => None,
                },
                _ => None,
            }
        } else {
            None
        },
        _ => None,
    }
}

proof fn watch_roundtrip(w: WatchModel)
    ensures
        watch_read(watch_item(w)) == Some(w),
        plain(watch_item(w), 2),
{
    reveal_strlit("network");
    reveal_strlit("script_pubkey");
    reveal_strlit("scan_from_height");
    assert("network"@.len() == 7 && "script_pubkey"@.len() == 13);
    assert("scan_from_height"@.len() == 16);
    let es = watch_item(w)->Pairs_0;
    field_found(es, "network"@, 0);
    field_found(es, "script_pubkey"@, 1);
    field_found(es, "scan_from_height"@, 2);
    assert(!missing(es, "scan_from_height"@)) by {
        assert(es[2].0 == Item::Text("scan_from_height"@));
    }
    network_roundtrip(w.network);
    octet_array_roundtrip(w.script_pubkey);
    assert(plain(watch_item(w), 2)) by {
        assert forall|i: int| 0 <= i < es.len() implies plain((#[trigger] es[i]).0, 1) && plain(
            es[i].1,
            1,
        ) by {}
    }
}

fn watch_value(w: &WatchRequest) -> (r: Value)
    ensures
        item_of(r) == watch_item(w@),
{
    let hint = match w.scan_from_height {
        Some(n) => uint(n as u64),
        None => null(),
    };
    let fields = Fields::new().with("network", network_value(w.network)).with(
        "script_pubkey",
        octet_array_value(&w.script_pubkey),
    ).with("scan_from_height", hint);
    assert(fields.items() =~= watch_item(w@)->Pairs_0);
    fields.done()
}

fn read_watch(v: &Value) -> (r: Option<WatchRequest>)
    ensures
        match r {
            Some(w) => watch_read(seen(*v)) == Some(w@),
            None => watch_read(seen(*v)) is None,
        },
{
    let es = match named_entries(v) {
        Some(es) => es,
        None => {
            return None;
        },
    };
    let hint: Option<Option<u32>> = if crate::cbor::is_missing(es, "scan_from_height") {
        Some(None)
    } else {
        match field(es, "scan_from_height") {
            Some(x) => if is_null(x) {
                Some(None)
            } else {
                match as_u32(x) {
                    Some(n) => Some(Some(n)),
                    None => None,
                }
            },
            None => None,
        }
    };
    match (field(es, "network"), field(es, "script_pubkey"), hint) {
        (Some(a), Some(b), Some(scan_from_height)) => match (read_network(a), octets(b)) {
            (Some(network), Some(script_pubkey)) => Some(
                WatchRequest { network, script_pubkey, scan_from_height },
            ),
            _ => None,
        },
        _ => None,
    }
}

pub open spec fn relay_item(network: BitcoinNetwork, raw_tx: Seq<u8>) -> Item {
    Item::Pairs(
        seq![
            (Item::Text("network"@), network_item(network)),
            (Item::Text("raw_tx"@), octet_array(raw_tx)),
        ],
    )
}

pub open spec fn relay_read(item: Item) -> Option<RequestModel> {
    match item {
        Item::Pairs(es) => if all_named(es) {
            match (field_of(es, "network"@), field_of(es, "raw_tx"@)) {
                (Some(a), Some(b)) => match (network_read(a), octets_of(b)) {
                    (Some(network), Some(raw_tx)) => Some(RequestModel::Broadcast(network, raw_tx)),
                    _ => None,
                },
                _ => None,
            }
        } else {
            None
        },
        _ => None,
    }
}

proof fn relay_roundtrip(network: BitcoinNetwork, raw_tx: Seq<u8>)
    ensures
        relay_read(relay_item(network, raw_tx)) == Some(RequestModel::Broadcast(network, raw_tx)),
        plain(relay_item(network, raw_tx), 2),
{
    reveal_strlit("network");
    reveal_strlit("raw_tx");
    assert("network"@.len() == 7 && "raw_tx"@.len() == 6);
    let es = relay_item(network, raw_tx)->Pairs_0;
    field_found(es, "network"@, 0);
    field_found(es, "raw_tx"@, 1);
    network_roundtrip(network);
    octet_array_roundtrip(raw_tx);
    assert(plain(relay_item(network, raw_tx), 2)) by {
        assert forall|i: int| 0 <= i < es.len() implies plain((#[trigger] es[i]).0, 1) && plain(
            es[i].1,
            1,
        ) by {}
    }
}

pub open spec fn request_item(b: RequestModel) -> Item {
    match b {
        RequestModel::Watch(w) => wrapped("Watch"@, watch_item(w)),
        RequestModel::Unwatch(w) => wrapped("Unwatch"@, watch_item(w)),
        RequestModel::Broadcast(n, t) => wrapped("Broadcast"@, relay_item(n, t)),
        RequestModel::Status => Item::Text("Status"@),
    }
}

/// The request that a variant's name and its content stand for.
pub open spec fn variant_read(name: Item, content: Item) -> Option<RequestModel> {
    if spells(name, "Watch"@) {
        match watch_read(content) {
            Some(w) => Some(RequestModel::Watch(w)),
            None => None,
        }
    } else if spells(name, "Unwatch"@) {
        match watch_read(content) {
            Some(w) => Some(RequestModel::Unwatch(w)),
            None => None,
        }
    } else if spells(name, "Broadcast"@) {
        relay_read(content)
    } else {
        None
    }
}

pub open spec fn request_read(item: Item) -> Option<RequestModel> {
    match item {
        Item::Text(t) => if t == "Status"@ {
            Some(RequestModel::Status)
        } else {
            None
        },
        Item::Pairs(es) => if es.len() == 1 {
            variant_read(es[0].0, es[0].1)
        } else {
            None
        },
        _ => None,
    }
}

proof fn request_roundtrip(b: RequestModel)
    ensures
        request_read(request_item(b)) == Some(b),
        plain(request_item(b), 3),
{
    reveal_strlit("Watch");
    reveal_strlit("Unwatch");
    reveal_strlit("Broadcast");
    assert("Watch"@.len() == 5 && "Unwatch"@.len() == 7 && "Broadcast"@.len() == 9);
    match b {
        RequestModel::Watch(w) => {
            watch_roundtrip(w);
            wrapped_roundtrip("Watch"@, watch_item(w), 2);
        },
        RequestModel::Unwatch(w) => {
            watch_roundtrip(w);
            wrapped_roundtrip("Unwatch"@, watch_item(w), 2);
        },
        RequestModel::Broadcast(n, t) => {
            relay_roundtrip(n, t);
            wrapped_roundtrip("Broadcast"@, relay_item(n, t), 2);
        },
        RequestModel::Status => {},
    }
}

fn read_variant(name: &Value, content: &Value) -> (r: Option<RequestBody>)
    ensures
        match r {
            Some(b) => variant_read(seen(*name), seen(*content)) == Some(b@),
            None => variant_read(seen(*name), seen(*content)) is None,
        },
{
    if is_named(name, "Watch") {
        match read_watch(content) {
            Some(w) => Some(RequestBody::Watch(w)),
            None => None,
        }
    } else if is_named(name, "Unwatch") {
        match read_watch(content) {
            Some(w) => Some(RequestBody::Unwatch(w)),
            None => None,
        }
    } else if is_named(name, "Broadcast") {
        match named_entries(content) {
            Some(es) => match (field(es, "network"), field(es, "raw_tx")) {
                (Some(a), Some(b)) => match (read_network(a), octets(b)) {
                    (Some(network), Some(raw_tx)) => Some(
                        RequestBody::Broadcast(BroadcastRequest { network, raw_tx }),
                    ),
                    _ => None,
                },
                _ => None,
            },
            None => None,
        }
    } else {
        None
    }
}

impl Record for RequestBody {
    type M = RequestModel;

    open spec fn model(&self) -> RequestModel {
        self@
    }

    open spec fn item(&self) -> Item {
        request_item(self@)
    }

    open spec fn read(item: Item) -> Option<RequestModel> {
        request_read(item)
    }

    open spec fn complaint() -> Seq<char> {
        "not a request"@
    }

    fn value(&self) -> (r: Value) {
        proof {
            request_roundtrip(self@);
            plain_deeper(self.item(), 3, max_depth());
        }
        match self {
            RequestBody::Watch(w) => wrap_field("Watch", watch_value(w)),
            RequestBody::Unwatch(w) => wrap_field("Unwatch", watch_value(w)),
            RequestBody::Broadcast(b) => {
                let fields = Fields::new().with("network", network_value(b.network)).with(
                    "raw_tx",
                    octet_array_value(&b.raw_tx),
                );
                assert(fields.items() =~= relay_item(b.network, b.raw_tx@)->Pairs_0);
                wrap_field("Broadcast", fields.done())
            },
            RequestBody::Status => text("Status".to_owned()),
        }
    }

    fn from_value(v: &Value) -> (r: Option<Self>) {
        match as_text(v) {
            Some(t) => {
                if same_text(t, "Status") {
                    Some(RequestBody::Status)
                } else {
                    None
                }
            },
            None => match as_pairs(v) {
                Some(es) => {
                    if es.len() != 1 {
                        return None;
                    }
                    assert(seen_entries(es@)[0] == (seen(es@[0].0), seen(es@[0].1)));
                    read_variant(&es[0].0, &es[0].1)
                },
                None => None,
            },
        }
    }

    fn complaint_text() -> (r: &'static str) {
        "not a request"
    }
}

pub open spec fn auth_item(a: AuthModel) -> Item {
    match a {
        AuthModel::Open => Item::Text("None"@),
        AuthModel::GhostKey(pem, challenge, signature) => wrapped(
            "GhostKey"@,
            Item::Pairs(
                seq![
                    (Item::Text("certificate_pem"@), Item::Text(pem)),
                    (Item::Text("challenge"@), octet_array(challenge)),
                    (Item::Text("signature"@), octet_array(signature)),
                ],
            ),
        ),
    }
}

pub open spec fn ghost_read(item: Item) -> Option<AuthModel> {
    match item {
        Item::Pairs(es) => if all_named(es) {
            match (
                field_of(es, "certificate_pem"@),
                field_of(es, "challenge"@),
                field_of(es, "signature"@),
            ) {
                (Some(Item::Text(pem)), Some(b), Some(c)) => match (octets_of(b), octets_of(c)) {
                    (Some(challenge), Some(signature)) => Some(
                        AuthModel::GhostKey(pem, challenge, signature),
                    ),
                    _ => None,
                },
                _ => None,
            }
        } else {
            None
        },
        _ => None,
    }
}

pub open spec fn auth_read(item: Item) -> Option<AuthModel> {
    match item {
        Item::Text(t) => if t == "None"@ {
            Some(AuthModel::Open)
        } else {
            None
        },
        Item::Pairs(es) => if es.len() == 1 && spells(es[0].0, "GhostKey"@) {
            ghost_read(es[0].1)
        } else {
            None
        },
        _ => None,
    }
}

proof fn auth_roundtrip(a: AuthModel)
    ensures
        auth_read(auth_item(a)) == Some(a),
        plain(auth_item(a), 3),
{
    match a {
        AuthModel::Open => {},
        AuthModel::GhostKey(pem, challenge, signature) => {
            reveal_strlit("certificate_pem");
            reveal_strlit("challenge");
            reveal_strlit("signature");
            assert("certificate_pem"@.len() == 15);
            assert("challenge"@.len() == 9 && "signature"@.len() == 9);
            assert("challenge"@[0] != "signature"@[0]);
            let inner = auth_item(a)->Pairs_0[0].1;
            let es = inner->Pairs_0;
            field_found(es, "certificate_pem"@, 0);
            field_found(es, "challenge"@, 1);
            field_found(es, "signature"@, 2);
            octet_array_roundtrip(challenge);
            octet_array_roundtrip(signature);
            assert(plain(inner, 2)) by {
                assert forall|i: int| 0 <= i < es.len() implies plain((#[trigger] es[i]).0, 1)
                    && plain(es[i].1, 1) by {}
            }
            wrapped_roundtrip("GhostKey"@, inner, 2);
        },
    }
}

impl Record for ServiceAuth {
    type M = AuthModel;

    open spec fn model(&self) -> AuthModel {
        self@
    }

    open spec fn item(&self) -> Item {
        auth_item(self@)
    }

    open spec fn read(item: Item) -> Option<AuthModel> {
        auth_read(item)
    }

    open spec fn complaint() -> Seq<char> {
        "not an authorization"@
    }

    fn value(&self) -> (r: Value) {
        proof {
            auth_roundtrip(self@);
            plain_deeper(self.item(), 3, max_depth());
        }
        match self {
            ServiceAuth::Open => text("None".to_owned()),
            ServiceAuth::GhostKey(g) => {
                let fields = Fields::new().with("certificate_pem", text(g.certificate_pem.clone())).with(
                    "challenge",
                    octet_array_value(&g.challenge),
                ).with("signature", octet_array_value(&g.signature));
                assert(fields.items() =~= self.item()->Pairs_0[0].1->Pairs_0);
                wrap_field("GhostKey", fields.done())
            },
        }
    }

    fn from_value(v: &Value) -> (r: Option<Self>) {
        match as_text(v) {
            Some(t) => {
                if same_text(t, "None") {
                    Some(ServiceAuth::Open)
                } else {
                    None
                }
            },
            None => match as_pairs(v) {
                Some(es) => {
                    if es.len() != 1 {
                        return None;
                    }
                    assert(seen_entries(es@)[0] == (seen(es@[0].0), seen(es@[0].1)));
                    if !is_named(&es[0].0, "GhostKey") {
                        return None;
                    }
                    let inner = match named_entries(&es[0].1) {
                        Some(inner) => inner,
                        None => {
                            return None;
                        },
                    };
                    match (
                        field(inner, "certificate_pem"),
                        field(inner, "challenge"),
                        field(inner, "signature"),
                    ) {
                        (Some(a), Some(b), Some(c)) => match (as_text(a), octets(b), octets(c)) {
                            (Some(pem), Some(challenge), Some(signature)) => Some(
                                ServiceAuth::GhostKey(
                                    GhostKeyAuth {
                                        certificate_pem: pem.clone(),
                                        challenge,
                                        signature,
                                    },
                                ),
                            ),
                            _ => None,
                        },
                        _ => None,
                    }
                },
                None => None,
            },
        }
    }

    fn complaint_text() -> (r: &'static str) {
        "not an authorization"
    }
}

impl Record for ServiceRequest {
    type M = (RequestModel, AuthModel);

    open spec fn model(&self) -> (RequestModel, AuthModel) {
        (self.body@, self.auth@)
    }

    open spec fn item(&self) -> Item {
        Item::Pairs(
            seq![
                (Item::Text("body"@), request_item(self.body@)),
                (Item::Text("auth"@), auth_item(self.auth@)),
            ],
        )
    }

    open spec fn read(item: Item) -> Option<(RequestModel, AuthModel)> {
        match item {
            Item::Pairs(es) => if all_named(es) {
                match (field_of(es, "body"@), field_of(es, "auth"@)) {
                    (Some(a), Some(b)) => match (request_read(a), auth_read(b)) {
                        (Some(body), Some(auth)) => Some((body, auth)),
                        _ => None,
                    },
                    _ => None,
                }
            } else {
                None
            },
            _ => None,
        }
    }

    open spec fn complaint() -> Seq<char> {
        "not a service request"@
    }

    fn value(&self) -> (r: Value) {
        proof {
            reveal_strlit("body");
            reveal_strlit("auth");
            assert("body"@[0] != "auth"@[0]);
            let es = self.item()->Pairs_0;
            field_found(es, "body"@, 0);
            field_found(es, "auth"@, 1);
            request_roundtrip(self.body@);
            auth_roundtrip(self.auth@);
            assert(plain(self.item(), 4)) by {
                assert forall|i: int| 0 <= i < es.len() implies plain((#[trigger] es[i]).0, 3)
                    && plain(es[i].1, 3) by {}
            }
            plain_deeper(self.item(), 4, max_depth());
        }
        let fields = Fields::new().with("body", self.body.value()).with("auth", self.auth.value());
        assert(fields.items() =~= self.item()->Pairs_0);
        fields.done()
    }

    fn from_value(v: &Value) -> (r: Option<Self>) {
        let es = match named_entries(v) {
            Some(es) => es,
            None => {
                return None;
            },
        };
        match (field(es, "body"), field(es, "auth")) {
            (Some(a), Some(b)) => match (RequestBody::from_value(a), ServiceAuth::from_value(b)) {
                (Some(body), Some(auth)) => Some(ServiceRequest { body, auth }),
                _ => None,
            },
            _ => None,
        }
    }

    fn complaint_text() -> (r: &'static str) {
        "not a service request"
    }
}

} // verus!
