//! How records are written as CBOR items, and how items are read as records.
//!
//! Every signature is over bytes written here, so which item stands for which record
//! is a commitment: 32-byte values and headers are byte strings, other byte vectors are
//! arrays of integers, a structure is a map from its field names, and a variant with
//! fields is a map of one entry.

use ciborium::Value;
use vstd::prelude::*;

use crate::bytes::{arr32, arr32_of_view, copy_all};
use crate::cbor::{
    all_named, array, as_array, as_pairs, as_text, as_u32, as_uint, byte_string, bytes_of,
    decode_value, encode_value, field, field_found, field_of, is_named, item_of, item_read,
    items_of, max_depth, named_entries, octet_array, octet_array_roundtrip, octet_array_value,
    octets, octets32, octets_of, part, part_of, plain, plain_is_untagged, seen, seen_entries,
    seen_items, spells, text, u32_of, uint, untagged, Fields, Item,
};
use crate::claims::{BodyModel, Claim, ClaimBody, ClaimModel, TipEntryBody};
use crate::signing::{SignedClaim, SignedModel};
use crate::spv::{BlockHeader, ProofModel, SpvProof};
use crate::text::join;
use crate::types::{
    same_text, BitcoinNetwork, BlockAnchor, BlockHash, BridgeId, OutPoint, ScriptId, Txid,
};

verus! {

broadcast use vstd::array::group_array_axioms;

// ---------------------------------------------------------------------------
// Networks
// ---------------------------------------------------------------------------

pub open spec fn network_item(n: BitcoinNetwork) -> Item {
    Item::Text(n.variant())
}

pub open spec fn network_read(item: Item) -> Option<BitcoinNetwork> {
    match item {
        Item::Text(t) => if t == "Bitcoin"@ {
            Some(BitcoinNetwork::Bitcoin)
        } else if t == "Testnet4"@ {
            Some(BitcoinNetwork::Testnet4)
        } else if t == "Signet"@ {
            Some(BitcoinNetwork::Signet)
        } else if t == "Regtest"@ {
            Some(BitcoinNetwork::Regtest)
        } else {
            None
        },
        _ => None,
    }
}

/// A network's record is read back as the network.
pub proof fn network_roundtrip(n: BitcoinNetwork)
    ensures
        network_read(network_item(n)) == Some(n),
{
    reveal_strlit("Bitcoin");
    reveal_strlit("Testnet4");
    reveal_strlit("Signet");
    reveal_strlit("Regtest");
    assert("Bitcoin"@[0] != "Regtest"@[0]);
    assert("Signet"@.len() == 6 && "Testnet4"@.len() == 8 && "Bitcoin"@.len() == 7);
}

pub(crate) fn network_value(n: BitcoinNetwork) -> (r: Value)
    ensures
        item_of(r) == network_item(n),
{
    text(n.variant_str().to_owned())
}

pub(crate) fn read_network(v: &Value) -> (r: Option<BitcoinNetwork>)
    ensures
        r == network_read(seen(*v)),
{
    match as_text(v) {
        Some(t) => if same_text(t, "Bitcoin") {
            Some(BitcoinNetwork::Bitcoin)
        } else if same_text(t, "Testnet4") {
            Some(BitcoinNetwork::Testnet4)
        } else if same_text(t, "Signet") {
            Some(BitcoinNetwork::Signet)
        } else if same_text(t, "Regtest") {
            Some(BitcoinNetwork::Regtest)
        } else {
            None
        },
        None => None,
    }
}

// ---------------------------------------------------------------------------
// 32-byte values, anchors and outpoints
// ---------------------------------------------------------------------------

pub(crate) fn value32(b: &[u8; 32]) -> (r: Value)
    ensures
        item_of(r) == Item::Bytes(b@),
{
    byte_string(copy_all(b))
}

/// The 32 bytes of an item, as a value of their own.
pub open spec fn read32(item: Item) -> Option<[u8; 32]> {
    match octets_of(item) {
        Some(b) => if b.len() == 32 {
            Some(arr32(b))
        } else {
            None
        },
        None => None,
    }
}

/// Reading a byte string of 32 bytes gives back the 32 bytes.
pub proof fn bytes32_roundtrip(b: [u8; 32])
    ensures
        read32(Item::Bytes(b@)) == Some(b),
{
    arr32_of_view(b);
}

/// An array of 32 integers is read as the 32 bytes it lists.
pub proof fn legacy_sequence_is_read(b: [u8; 32])
    ensures
        read32(octet_array(b@)) == Some(b),
{
    octet_array_roundtrip(b@);
    arr32_of_view(b);
}

pub(crate) fn get32(v: &Value) -> (r: Option<[u8; 32]>)
    ensures
        r == read32(seen(*v)),
{
    match octets32(v) {
        Some(a) => {
            proof {
                arr32_of_view(a);
            }
            Some(a)
        },
        None => None,
    }
}

pub open spec fn anchor_item(a: BlockAnchor) -> Item {
    Item::Pairs(
        seq![
            (Item::Text("height"@), Item::Uint(a.height as u64)),
            (Item::Text("hash"@), Item::Bytes(a.hash.0@)),
        ],
    )
}

pub open spec fn anchor_read(item: Item) -> Option<BlockAnchor> {
    match item {
        Item::Pairs(es) => if all_named(es) {
            match (field_of(es, "height"@), field_of(es, "hash"@)) {
                (Some(height), Some(hash)) => match (u32_of(height), read32(hash)) {
                    (Some(height), Some(hash)) => Some(
                        BlockAnchor { height, hash: BlockHash(hash) },
                    ),
                    _ => None,
                },
                _ => None,
            }
        } else {
            None
        },
        _ => None,
    }
}

proof fn anchor_roundtrip(a: BlockAnchor)
    ensures
        anchor_read(anchor_item(a)) == Some(a),
        plain(anchor_item(a), 1),
{
    reveal_strlit("height");
    reveal_strlit("hash");
    let es = anchor_item(a)->Pairs_0;
    assert("height"@.len() != "hash"@.len());
    field_found(es, "height"@, 0);
    field_found(es, "hash"@, 1);
    bytes32_roundtrip(a.hash.0);
    reveal_with_fuel(plain, 2);
}

fn anchor_value(a: &BlockAnchor) -> (r: Value)
    ensures
        item_of(r) == anchor_item(*a),
{
    let fields = Fields::new().with("height", uint(a.height as u64)).with("hash", value32(&a.hash.0));
    assert(fields.items() =~= anchor_item(*a)->Pairs_0);
    fields.done()
}

fn read_anchor(v: &Value) -> (r: Option<BlockAnchor>)
    ensures
        r == anchor_read(seen(*v)),
{
    let es = match named_entries(v) {
        Some(es) => es,
        None => {
            return None;
        },
    };
    match (field(es, "height"), field(es, "hash")) {
        (Some(height), Some(hash)) => match (as_u32(height), get32(hash)) {
            (Some(height), Some(hash)) => Some(BlockAnchor { height, hash: BlockHash(hash) }),
            _ => None,
        },
        _ => None,
    }
}

pub open spec fn outpoint_item(o: OutPoint) -> Item {
    Item::Pairs(
        seq![
            (Item::Text("txid"@), Item::Bytes(o.txid.0@)),
            (Item::Text("vout"@), Item::Uint(o.vout as u64)),
        ],
    )
}

pub open spec fn outpoint_read(item: Item) -> Option<OutPoint> {
    match item {
        Item::Pairs(es) => if all_named(es) {
            match (field_of(es, "txid"@), field_of(es, "vout"@)) {
                (Some(txid), Some(vout)) => match (read32(txid), u32_of(vout)) {
                    (Some(txid), Some(vout)) => Some(OutPoint { txid: Txid(txid), vout }),
                    _ => None,
                },
                _ => None,
            }
        } else {
            None
        },
        _ => None,
    }
}

proof fn outpoint_roundtrip(o: OutPoint)
    ensures
        outpoint_read(outpoint_item(o)) == Some(o),
        plain(outpoint_item(o), 1),
{
    reveal_strlit("txid");
    reveal_strlit("vout");
    let es = outpoint_item(o)->Pairs_0;
    assert("txid"@[0] != "vout"@[0]);
    field_found(es, "txid"@, 0);
    field_found(es, "vout"@, 1);
    bytes32_roundtrip(o.txid.0);
    reveal_with_fuel(plain, 2);
}

fn outpoint_value(o: &OutPoint) -> (r: Value)
    ensures
        item_of(r) == outpoint_item(*o),
{
    let fields = Fields::new().with("txid", value32(&o.txid.0)).with("vout", uint(o.vout as u64));
    assert(fields.items() =~= outpoint_item(*o)->Pairs_0);
    fields.done()
}

fn read_outpoint(v: &Value) -> (r: Option<OutPoint>)
    ensures
        r == outpoint_read(seen(*v)),
{
    let es = match named_entries(v) {
        Some(es) => es,
        None => {
            return None;
        },
    };
    match (field(es, "txid"), field(es, "vout")) {
        (Some(txid), Some(vout)) => match (get32(txid), as_u32(vout)) {
            (Some(txid), Some(vout)) => Some(OutPoint { txid: Txid(txid), vout }),
            _ => None,
        },
        _ => None,
    }
}

// ---------------------------------------------------------------------------
// SPV proofs
// ---------------------------------------------------------------------------

/// The header that holds these 80 bytes.
pub open spec fn header_of(b: Seq<u8>) -> BlockHeader {
    choose|h: BlockHeader| h.0@ == b
}

pub open spec fn header_read(item: Item) -> Option<BlockHeader> {
    match octets_of(item) {
        Some(b) => if b.len() == 80 {
            Some(header_of(b))
        } else {
            None
        },
        None => None,
    }
}

proof fn header_of_view(h: BlockHeader)
    ensures
        header_of(h.0@) == h,
{
    let g = header_of(h.0@);
    assert(g.0@ == h.0@);
    assert(g.0 =~= h.0);
}

fn header_value(h: &BlockHeader) -> (r: Value)
    ensures
        item_of(r) == Item::Bytes(h.0@),
{
    byte_string(copy_all(&h.0))
}

fn get_header(v: &Value) -> (r: Option<BlockHeader>)
    ensures
        r == header_read(seen(*v)),
{
    match octets(v) {
        Some(b) => {
            if b.len() != 80 {
                return None;
            }
            let mut a = [0u8; 80];
            for i in 0..80usize
                invariant
                    b@.len() == 80,
                    forall|j: int| 0 <= j < i ==> a@[j] == b@[j],
            {
                a[i] = b[i];
            }
            assert(a@ =~= b@);
            let h = BlockHeader(a);
            proof {
                header_of_view(h);
            }
            Some(h)
        },
        None => None,
    }
}

pub open spec fn branch_item(branch: Seq<[u8; 32]>) -> Item {
    Item::Array(branch.map_values(|b: [u8; 32]| octet_array(b@)))
}

pub open spec fn branch_read(item: Item) -> Option<Seq<[u8; 32]>> {
    match item {
        Item::Array(items) => if forall|i: int|
            0 <= i < items.len() ==> read32(#[trigger] items[i]) is Some {
            Some(items.map_values(|x: Item| read32(x)->Some_0))
        } else {
            None
        },
        _ => None,
    }
}

pub open spec fn headers_item(headers: Seq<BlockHeader>) -> Item {
    Item::Array(headers.map_values(|h: BlockHeader| Item::Bytes(h.0@)))
}

pub open spec fn headers_read(item: Item) -> Option<Seq<BlockHeader>> {
    match item {
        Item::Array(items) => if forall|i: int|
            0 <= i < items.len() ==> header_read(#[trigger] items[i]) is Some {
            Some(items.map_values(|x: Item| header_read(x)->Some_0))
        } else {
            None
        },
        _ => None,
    }
}

proof fn branch_roundtrip(branch: Seq<[u8; 32]>)
    ensures
        branch_read(branch_item(branch)) == Some(branch),
        plain(branch_item(branch), 2),
{
    let items = branch_item(branch)->Array_0;
    assert forall|i: int| 0 <= i < items.len() implies read32(#[trigger] items[i]) == Some(
        branch[i],
    ) && plain(items[i], 1) by {
        legacy_sequence_is_read(branch[i]);
        octet_array_roundtrip(branch[i]@);
    }
    assert(items.map_values(|x: Item| read32(x)->Some_0) =~= branch);
    reveal_with_fuel(plain, 3);
}

proof fn headers_roundtrip(headers: Seq<BlockHeader>)
    ensures
        headers_read(headers_item(headers)) == Some(headers),
        plain(headers_item(headers), 2),
{
    let items = headers_item(headers)->Array_0;
    assert forall|i: int| 0 <= i < items.len() implies header_read(#[trigger] items[i]) == Some(
        headers[i],
    ) && items[i] is Bytes by {
        header_of_view(headers[i]);
    }
    assert(items.map_values(|x: Item| header_read(x)->Some_0) =~= headers);
    reveal_with_fuel(plain, 3);
}

fn branch_value(branch: &Vec<[u8; 32]>) -> (r: Value)
    ensures
        item_of(r) == branch_item(branch@),
{
    let mut vs: Vec<Value> = Vec::new();
    for i in 0..branch.len()
        invariant
            items_of(vs@).len() == i,
            forall|j: int|
                0 <= j < i ==> #[trigger] items_of(vs@)[j] == octet_array(branch@[j]@),
    {
        let ghost before = items_of(vs@);
        vs.push(octet_array_value(&branch[i]));
        assert(items_of(vs@) =~= before.push(octet_array(branch@[i as int]@)));
    }
    assert(items_of(vs@) =~= branch_item(branch@)->Array_0);
    array(vs)
}

fn read_branch(v: &Value) -> (r: Option<Vec<[u8; 32]>>)
    ensures
        match r {
            Some(b) => branch_read(seen(*v)) == Some(b@),
            None => branch_read(seen(*v)) is None,
        },
{
    let vs = match as_array(v) {
        Some(vs) => vs,
        None => {
            return None;
        },
    };
    let ghost items = seen_items(vs@);
    let mut out: Vec<[u8; 32]> = Vec::new();
    for i in 0..vs.len()
        invariant
            items == seen_items(vs@),
            seen(*v) == Item::Array(items),
            out@.len() == i,
            forall|j: int|
                0 <= j < i ==> read32(#[trigger] items[j]) == Some(out@[j]),
    {
        assert(items[i as int] == seen(vs@[i as int]));
        match get32(&vs[i]) {
            Some(b) => out.push(b),
            None => {
                return None;
            },
        }
    }
    assert(out@ =~= items.map_values(|x: Item| read32(x)->Some_0));
    Some(out)
}

fn headers_value(headers: &Vec<BlockHeader>) -> (r: Value)
    ensures
        item_of(r) == headers_item(headers@),
{
    let mut vs: Vec<Value> = Vec::new();
    for i in 0..headers.len()
        invariant
            items_of(vs@).len() == i,
            forall|j: int|
                0 <= j < i ==> #[trigger] items_of(vs@)[j] == Item::Bytes(headers@[j].0@),
    {
        let ghost before = items_of(vs@);
        vs.push(header_value(&headers[i]));
        assert(items_of(vs@) =~= before.push(Item::Bytes(headers@[i as int].0@)));
    }
    assert(items_of(vs@) =~= headers_item(headers@)->Array_0);
    array(vs)
}

fn read_headers(v: &Value) -> (r: Option<Vec<BlockHeader>>)
    ensures
        match r {
            Some(b) => headers_read(seen(*v)) == Some(b@),
            None => headers_read(seen(*v)) is None,
        },
{
    let vs = match as_array(v) {
        Some(vs) => vs,
        None => {
            return None;
        },
    };
    let ghost items = seen_items(vs@);
    let mut out: Vec<BlockHeader> = Vec::new();
    for i in 0..vs.len()
        invariant
            items == seen_items(vs@),
            seen(*v) == Item::Array(items),
            out@.len() == i,
            forall|j: int|
                0 <= j < i ==> header_read(#[trigger] items[j]) == Some(out@[j]),
    {
        assert(items[i as int] == seen(vs@[i as int]));
        match get_header(&vs[i]) {
            Some(b) => out.push(b),
            None => {
                return None;
            },
        }
    }
    assert(out@ =~= items.map_values(|x: Item| header_read(x)->Some_0));
    Some(out)
}

pub open spec fn proof_item(p: ProofModel) -> Item {
    Item::Pairs(
        seq![
            (Item::Text("raw_tx"@), octet_array(p.raw_tx)),
            (Item::Text("merkle_branch"@), branch_item(p.merkle_branch)),
            (Item::Text("tx_index"@), Item::Uint(p.tx_index as u64)),
            (Item::Text("header"@), Item::Bytes(p.header.0@)),
            (Item::Text("following_headers"@), headers_item(p.following_headers)),
        ],
    )
}

pub open spec fn proof_fields(
    raw_tx: Option<Item>,
    merkle_branch: Option<Item>,
    tx_index: Option<Item>,
    header: Option<Item>,
    following_headers: Option<Item>,
) -> Option<ProofModel> {
    match (raw_tx, merkle_branch, tx_index, header, following_headers) {
        (Some(a), Some(b), Some(c), Some(d), Some(e)) => match (
            octets_of(a),
            branch_read(b),
            u32_of(c),
            header_read(d),
            headers_read(e),
        ) {
            (
                Some(raw_tx),
                Some(merkle_branch),
                Some(tx_index),
                Some(header),
                Some(following_headers),
            ) => Some(ProofModel { raw_tx, merkle_branch, tx_index, header, following_headers }),
            _ => None,
        },
        _ => None,
    }
}

pub open spec fn proof_read(item: Item) -> Option<ProofModel> {
    match item {
        Item::Pairs(es) => if all_named(es) {
            proof_fields(
                field_of(es, "raw_tx"@),
                field_of(es, "merkle_branch"@),
                field_of(es, "tx_index"@),
                field_of(es, "header"@),
                field_of(es, "following_headers"@),
            )
        } else {
            None
        },
        _ => None,
    }
}

proof fn proof_roundtrip(p: ProofModel)
    ensures
        proof_read(proof_item(p)) == Some(p),
        plain(proof_item(p), 3),
{
    reveal_strlit("raw_tx");
    reveal_strlit("merkle_branch");
    reveal_strlit("tx_index");
    reveal_strlit("header");
    reveal_strlit("following_headers");
    assert("raw_tx"@.len() == 6);
    assert("merkle_branch"@.len() == 13);
    assert("tx_index"@.len() == 8);
    assert("header"@.len() == 6);
    assert("following_headers"@.len() == 17);
    assert("raw_tx"@[0] != "header"@[0]);
    let es = proof_item(p)->Pairs_0;
    field_found(es, "raw_tx"@, 0);
    field_found(es, "merkle_branch"@, 1);
    field_found(es, "tx_index"@, 2);
    field_found(es, "header"@, 3);
    field_found(es, "following_headers"@, 4);
    octet_array_roundtrip(p.raw_tx);
    branch_roundtrip(p.merkle_branch);
    header_of_view(p.header);
    headers_roundtrip(p.following_headers);
    plain_deeper(octet_array(p.raw_tx), 1, 2);
    reveal_with_fuel(plain, 2);
}

/// An item that nests at most `a` deep nests at most `b` deep.
pub proof fn plain_deeper(item: Item, a: nat, b: nat)
    requires
        plain(item, a),
        a <= b,
    ensures
        plain(item, b),
    decreases a,
{
    match item {
        Item::Array(items) => {
            assert forall|i: int| 0 <= i < items.len() implies plain(
                #[trigger] items[i],
                (b - 1) as nat,
            ) by {
                plain_deeper(items[i], (a - 1) as nat, (b - 1) as nat);
            }
        },
        Item::Pairs(es) => {
            assert forall|i: int| 0 <= i < es.len() implies plain(
                (#[trigger] es[i]).0,
                (b - 1) as nat,
            ) && plain(es[i].1, (b - 1) as nat) by {
                plain_deeper(es[i].0, (a - 1) as nat, (b - 1) as nat);
                plain_deeper(es[i].1, (a - 1) as nat, (b - 1) as nat);
            }
        },
        _ => {},
    }
}

fn proof_value(p: &SpvProof) -> (r: Value)
    ensures
        item_of(r) == proof_item(p@),
{
    let fields = Fields::new().with("raw_tx", octet_array_value(&p.raw_tx)).with(
        "merkle_branch",
        branch_value(&p.merkle_branch),
    ).with("tx_index", uint(p.tx_index as u64)).with("header", header_value(&p.header)).with(
        "following_headers",
        headers_value(&p.following_headers),
    );
    assert(fields.items() =~= proof_item(p@)->Pairs_0);
    fields.done()
}

fn read_proof(v: &Value) -> (r: Option<SpvProof>)
    ensures
        match r {
            Some(p) => proof_read(seen(*v)) == Some(p@),
            None => proof_read(seen(*v)) is None,
        },
{
    let es = match named_entries(v) {
        Some(es) => es,
        None => {
            return None;
        },
    };
    let raw_tx = match field(es, "raw_tx") {
        Some(v) => octets(v),
        None => None,
    };
    let merkle_branch = match field(es, "merkle_branch") {
        Some(v) => read_branch(v),
        None => None,
    };
    let tx_index = match field(es, "tx_index") {
        Some(v) => as_u32(v),
        None => None,
    };
    let header = match field(es, "header") {
        Some(v) => get_header(v),
        None => None,
    };
    let following_headers = match field(es, "following_headers") {
        Some(v) => read_headers(v),
        None => None,
    };
    match (raw_tx, merkle_branch, tx_index, header, following_headers) {
        (
            Some(raw_tx),
            Some(merkle_branch),
            Some(tx_index),
            Some(header),
            Some(following_headers),
        ) => Some(SpvProof { raw_tx, merkle_branch, tx_index, header, following_headers }),
        _ => None,
    }
}

// ---------------------------------------------------------------------------
// Claims
// ---------------------------------------------------------------------------

pub open spec fn variant_item(name: Seq<char>, fields: Seq<(Item, Item)>) -> Item {
    Item::Pairs(seq![(Item::Text(name), Item::Pairs(fields))])
}

pub open spec fn claim_item(c: ClaimModel) -> Item {
    match c {
        ClaimModel::MempoolOutput { outpoint, value_sats } => variant_item(
            "MempoolOutput"@,
            seq![
                (Item::Text("outpoint"@), outpoint_item(outpoint)),
                (Item::Text("value_sats"@), Item::Uint(value_sats)),
            ],
        ),
        ClaimModel::ConfirmedOutput { outpoint, value_sats, anchor, spv } => variant_item(
            "ConfirmedOutput"@,
            seq![
                (Item::Text("outpoint"@), outpoint_item(outpoint)),
                (Item::Text("value_sats"@), Item::Uint(value_sats)),
                (Item::Text("anchor"@), anchor_item(anchor)),
                (Item::Text("spv"@), proof_item(spv)),
            ],
        ),
        ClaimModel::Retracted { outpoint } => variant_item(
            "Retracted"@,
            seq![(Item::Text("outpoint"@), outpoint_item(outpoint))],
        ),
        ClaimModel::ScannedTo => Item::Text("ScannedTo"@),
    }
}

pub open spec fn uint_of(item: Option<Item>) -> Option<u64> {
    match item {
        Some(Item::Uint(n)) => Some(n),
        _ => None,
    }
}

/// A choice with content, by its name. The parts of the content stand under their names,
/// or in the order in which they are named here.
pub open spec fn variant_read(name: Item, content: Item) -> Option<ClaimModel> {
    if spells(name, "MempoolOutput"@) {
        match (
            outpoint_part(part_of(content, "outpoint"@, 0, 2)),
            uint_of(part_of(content, "value_sats"@, 1, 2)),
        ) {
            (Some(outpoint), Some(value_sats)) => Some(
                ClaimModel::MempoolOutput { outpoint, value_sats },
            ),
            _ => None,
        }
    } else if spells(name, "ConfirmedOutput"@) {
        match (
            outpoint_part(part_of(content, "outpoint"@, 0, 4)),
            uint_of(part_of(content, "value_sats"@, 1, 4)),
            anchor_part(part_of(content, "anchor"@, 2, 4)),
            proof_part(part_of(content, "spv"@, 3, 4)),
        ) {
            (Some(outpoint), Some(value_sats), Some(anchor), Some(spv)) => Some(
                ClaimModel::ConfirmedOutput { outpoint, value_sats, anchor, spv },
            ),
            _ => None,
        }
    } else if spells(name, "Retracted"@) {
        match outpoint_part(part_of(content, "outpoint"@, 0, 1)) {
            Some(outpoint) => Some(ClaimModel::Retracted { outpoint }),
            None => None,
        }
    } else {
        None
    }
}

pub open spec fn outpoint_part(part: Option<Item>) -> Option<OutPoint> {
    match part {
        Some(x) => outpoint_read(x),
        None => None,
    }
}

pub open spec fn anchor_part(part: Option<Item>) -> Option<BlockAnchor> {
    match part {
        Some(x) => anchor_read(x),
        None => None,
    }
}

pub open spec fn proof_part(part: Option<Item>) -> Option<ProofModel> {
    match part {
        Some(x) => proof_read(x),
        None => None,
    }
}

pub open spec fn claim_read(item: Item) -> Option<ClaimModel> {
    match item {
        Item::Text(t) => if t == "ScannedTo"@ {
            Some(ClaimModel::ScannedTo)
        } else {
            None
        },
        Item::Pairs(es) => if es.len() == 1 {
            variant_read(es[0].0, es[0].1)
        } else {
            None
        },
        _ => None,
    }
}

proof fn claim_roundtrip(c: ClaimModel)
    ensures
        claim_read(claim_item(c)) == Some(c),
        plain(claim_item(c), 5),
{
    reveal_strlit("outpoint");
    reveal_strlit("value_sats");
    reveal_strlit("anchor");
    reveal_strlit("spv");
    reveal_strlit("MempoolOutput");
    reveal_strlit("ConfirmedOutput");
    reveal_strlit("Retracted");
    assert("outpoint"@.len() == 8);
    assert("value_sats"@.len() == 10);
    assert("anchor"@.len() == 6);
    assert("spv"@.len() == 3);
    assert("MempoolOutput"@.len() == 13);
    assert("ConfirmedOutput"@.len() == 15);
    assert("Retracted"@.len() == 9);
    reveal_with_fuel(plain, 3);
    match c {
        ClaimModel::MempoolOutput { outpoint, value_sats } => {
            let es = claim_item(c)->Pairs_0[0].1->Pairs_0;
            field_found(es, "outpoint"@, 0);
            field_found(es, "value_sats"@, 1);
            outpoint_roundtrip(outpoint);
            plain_deeper(outpoint_item(outpoint), 1, 3);
        },
        ClaimModel::ConfirmedOutput { outpoint, value_sats, anchor, spv } => {
            let es = claim_item(c)->Pairs_0[0].1->Pairs_0;
            field_found(es, "outpoint"@, 0);
            field_found(es, "value_sats"@, 1);
            field_found(es, "anchor"@, 2);
            field_found(es, "spv"@, 3);
            outpoint_roundtrip(outpoint);
            anchor_roundtrip(anchor);
            proof_roundtrip(spv);
            plain_deeper(outpoint_item(outpoint), 1, 3);
            plain_deeper(anchor_item(anchor), 1, 3);
        },
        ClaimModel::Retracted { outpoint } => {
            let es = claim_item(c)->Pairs_0[0].1->Pairs_0;
            field_found(es, "outpoint"@, 0);
            outpoint_roundtrip(outpoint);
            plain_deeper(outpoint_item(outpoint), 1, 3);
        },
        ClaimModel::ScannedTo => {},
    }
}

fn variant_value(name: &str, fields: Fields) -> (r: Value)
    ensures
        item_of(r) == variant_item(name@, fields.items()),
{
    let ghost inner = fields.items();
    let outer = Fields::new().with(name, fields.done());
    assert(outer.items() =~= seq![(Item::Text(name@), Item::Pairs(inner))]);
    outer.done()
}

fn claim_value(c: &Claim) -> (r: Value)
    ensures
        item_of(r) == claim_item(c@),
{
    match c {
        Claim::MempoolOutput { outpoint, value_sats } => {
            let fields = Fields::new().with("outpoint", outpoint_value(outpoint)).with(
                "value_sats",
                uint(*value_sats),
            );
            assert(fields.items() =~= claim_item(c@)->Pairs_0[0].1->Pairs_0);
            variant_value("MempoolOutput", fields)
        },
        Claim::ConfirmedOutput { outpoint, value_sats, anchor, spv } => {
            let fields = Fields::new().with("outpoint", outpoint_value(outpoint)).with(
                "value_sats",
                uint(*value_sats),
            ).with("anchor", anchor_value(anchor)).with("spv", proof_value(spv));
            assert(fields.items() =~= claim_item(c@)->Pairs_0[0].1->Pairs_0);
            variant_value("ConfirmedOutput", fields)
        },
        Claim::Retracted { outpoint } => {
            let fields = Fields::new().with("outpoint", outpoint_value(outpoint));
            assert(fields.items() =~= claim_item(c@)->Pairs_0[0].1->Pairs_0);
            variant_value("Retracted", fields)
        },
        Claim::ScannedTo => text("ScannedTo".to_owned()),
    }
}

fn read_outpoint_part(part: Option<&Value>) -> (r: Option<OutPoint>)
    ensures
        match part {
            Some(v) => r == outpoint_read(seen(*v)),
            None => r is None,
        },
{
    match part {
        Some(v) => read_outpoint(v),
        None => None,
    }
}

fn read_uint_part(part: Option<&Value>) -> (r: Option<u64>)
    ensures
        match part {
            Some(v) => r == uint_of(Some(seen(*v))),
            None => r is None,
        },
{
    match part {
        Some(v) => as_uint(v),
        None => None,
    }
}

fn read_variant(name: &Value, content: &Value) -> (r: Option<Claim>)
    ensures
        match r {
            Some(c) => variant_read(seen(*name), seen(*content)) == Some(c@),
            None => variant_read(seen(*name), seen(*content)) is None,
        },
{
    if is_named(name, "MempoolOutput") {
        match (
            read_outpoint_part(part(content, "outpoint", 0, 2)),
            read_uint_part(part(content, "value_sats", 1, 2)),
        ) {
            (Some(outpoint), Some(value_sats)) => Some(
                Claim::MempoolOutput { outpoint, value_sats },
            ),
            _ => None,
        }
    } else if is_named(name, "ConfirmedOutput") {
        let outpoint = read_outpoint_part(part(content, "outpoint", 0, 4));
        let value_sats: Option<u64> = read_uint_part(part(content, "value_sats", 1, 4));
        let anchor = match part(content, "anchor", 2, 4) {
            Some(v) => read_anchor(v),
            None => None,
        };
        let spv = match part(content, "spv", 3, 4) {
            Some(v) => read_proof(v),
            None => None,
        };
        match (outpoint, value_sats, anchor, spv) {
            (Some(outpoint), Some(value_sats), Some(anchor), Some(spv)) => Some(
                Claim::ConfirmedOutput { outpoint, value_sats, anchor, spv },
            ),
            _ => None,
        }
    } else if is_named(name, "Retracted") {
        match read_outpoint_part(part(content, "outpoint", 0, 1)) {
            Some(outpoint) => Some(Claim::Retracted { outpoint }),
            None => None,
        }
    } else {
        None
    }
}

fn read_claim(v: &Value) -> (r: Option<Claim>)
    ensures
        match r {
            Some(c) => claim_read(seen(*v)) == Some(c@),
            None => claim_read(seen(*v)) is None,
        },
{
    match as_text(v) {
        Some(t) => {
            if same_text(t, "ScannedTo") {
                Some(Claim::ScannedTo)
            } else {
                None
            }
        },
        None => match as_pairs(v) {
            Some(es) => {
                if es.len() != 1 {
                    return None;
                }
                assert(seen_entries(es@)[0] == (seen(es@[0].0), seen(es@[0].1)));
                read_variant(&es[0].0, &es[0].1)
            },
            None => None,
        },
    }
}

pub open spec fn body_item(b: BodyModel) -> Item {
    Item::Pairs(
        seq![
            (Item::Text("script_id"@), Item::Bytes(b.script_id.0@)),
            (Item::Text("network"@), network_item(b.network)),
            (Item::Text("as_of"@), anchor_item(b.as_of)),
            (Item::Text("claim"@), claim_item(b.claim)),
        ],
    )
}

pub open spec fn body_fields(
    script_id: Option<Item>,
    network: Option<Item>,
    as_of: Option<Item>,
    claim: Option<Item>,
) -> Option<BodyModel> {
    match (script_id, network, as_of, claim) {
        (Some(a), Some(b), Some(c), Some(d)) => match (
            read32(a),
            network_read(b),
            anchor_read(c),
            claim_read(d),
        ) {
            (Some(id), Some(network), Some(as_of), Some(claim)) => Some(
                BodyModel { script_id: ScriptId(id), network, as_of, claim },
            ),
            _ => None,
        },
        _ => None,
    }
}

pub open spec fn body_read(item: Item) -> Option<BodyModel> {
    match item {
        Item::Pairs(es) => if all_named(es) {
            body_fields(
                field_of(es, "script_id"@),
                field_of(es, "network"@),
                field_of(es, "as_of"@),
                field_of(es, "claim"@),
            )
        } else {
            None
        },
        _ => None,
    }
}

/// A claim's record is read back as the claim it was written from.
pub proof fn body_roundtrip(b: BodyModel)
    ensures
        body_read(body_item(b)) == Some(b),
        plain(body_item(b), max_depth()),
{
    reveal_strlit("script_id");
    reveal_strlit("network");
    reveal_strlit("as_of");
    reveal_strlit("claim");
    assert("script_id"@.len() == 9);
    assert("network"@.len() == 7);
    assert("as_of"@.len() == 5);
    assert("claim"@.len() == 5);
    assert("as_of"@[0] != "claim"@[0]);
    let es = body_item(b)->Pairs_0;
    field_found(es, "script_id"@, 0);
    field_found(es, "network"@, 1);
    field_found(es, "as_of"@, 2);
    field_found(es, "claim"@, 3);
    bytes32_roundtrip(b.script_id.0);
    network_roundtrip(b.network);
    anchor_roundtrip(b.as_of);
    claim_roundtrip(b.claim);
    plain_deeper(anchor_item(b.as_of), 1, 5);
    reveal_with_fuel(plain, 2);
    assert(plain(body_item(b), 6));
    plain_deeper(body_item(b), 6, max_depth());
}

pub(crate) fn body_value(b: &ClaimBody) -> (r: Value)
    ensures
        item_of(r) == body_item(b@),
{
    let fields = Fields::new().with("script_id", value32(&b.script_id.0)).with(
        "network",
        network_value(b.network),
    ).with("as_of", anchor_value(&b.as_of)).with("claim", claim_value(&b.claim));
    assert(fields.items() =~= body_item(b@)->Pairs_0);
    fields.done()
}

pub(crate) fn read_body(v: &Value) -> (r: Option<ClaimBody>)
    ensures
        match r {
            Some(b) => body_read(seen(*v)) == Some(b@),
            None => body_read(seen(*v)) is None,
        },
{
    let es = match named_entries(v) {
        Some(es) => es,
        None => {
            return None;
        },
    };
    let script_id = match field(es, "script_id") {
        Some(v) => get32(v),
        None => None,
    };
    let network = match field(es, "network") {
        Some(v) => read_network(v),
        None => None,
    };
    let as_of = match field(es, "as_of") {
        Some(v) => read_anchor(v),
        None => None,
    };
    let claim = match field(es, "claim") {
        Some(v) => read_claim(v),
        None => None,
    };
    match (script_id, network, as_of, claim) {
        (Some(id), Some(network), Some(as_of), Some(claim)) => Some(
            ClaimBody { script_id: ScriptId(id), network, as_of, claim },
        ),
        _ => None,
    }
}

// ---------------------------------------------------------------------------
// Tip entries
// ---------------------------------------------------------------------------

pub open spec fn tip_item(b: TipEntryBody) -> Item {
    Item::Pairs(
        seq![
            (Item::Text("network"@), network_item(b.network)),
            (Item::Text("anchor"@), anchor_item(b.anchor)),
            (Item::Text("prev_hash"@), Item::Bytes(b.prev_hash.0@)),
            (Item::Text("block_time"@), Item::Uint(b.block_time as u64)),
            (Item::Text("tx_count"@), Item::Uint(b.tx_count as u64)),
            (Item::Text("median_time"@), Item::Uint(b.median_time as u64)),
        ],
    )
}

pub open spec fn tip_fields(
    network: Option<Item>,
    anchor: Option<Item>,
    prev_hash: Option<Item>,
    block_time: Option<Item>,
    tx_count: Option<Item>,
    median_time: Option<Item>,
) -> Option<TipEntryBody> {
    match (network, anchor, prev_hash, block_time, tx_count, median_time) {
        (Some(a), Some(b), Some(c), Some(d), Some(e), Some(f)) => match (
            network_read(a),
            anchor_read(b),
            read32(c),
            u32_of(d),
            u32_of(e),
            u32_of(f),
        ) {
            (
                Some(network),
                Some(anchor),
                Some(prev),
                Some(block_time),
                Some(tx_count),
                Some(median_time),
            ) => Some(
                TipEntryBody {
                    network,
                    anchor,
                    prev_hash: BlockHash(prev),
                    block_time,
                    tx_count,
                    median_time,
                },
            ),
            _ => None,
        },
        _ => None,
    }
}

pub open spec fn tip_read(item: Item) -> Option<TipEntryBody> {
    match item {
        Item::Pairs(es) => if all_named(es) {
            tip_fields(
                field_of(es, "network"@),
                field_of(es, "anchor"@),
                field_of(es, "prev_hash"@),
                field_of(es, "block_time"@),
                field_of(es, "tx_count"@),
                field_of(es, "median_time"@),
            )
        } else {
            None
        },
        _ => None,
    }
}

/// A tip entry's record is read back as the entry it was written from.
pub proof fn tip_roundtrip(b: TipEntryBody)
    ensures
        tip_read(tip_item(b)) == Some(b),
        plain(tip_item(b), max_depth()),
{
    reveal_strlit("network");
    reveal_strlit("anchor");
    reveal_strlit("prev_hash");
    reveal_strlit("block_time");
    reveal_strlit("tx_count");
    reveal_strlit("median_time");
    assert("network"@.len() == 7);
    assert("anchor"@.len() == 6);
    assert("prev_hash"@.len() == 9);
    assert("block_time"@.len() == 10);
    assert("tx_count"@.len() == 8);
    assert("median_time"@.len() == 11);
    let es = tip_item(b)->Pairs_0;
    field_found(es, "network"@, 0);
    field_found(es, "anchor"@, 1);
    field_found(es, "prev_hash"@, 2);
    field_found(es, "block_time"@, 3);
    field_found(es, "tx_count"@, 4);
    field_found(es, "median_time"@, 5);
    network_roundtrip(b.network);
    anchor_roundtrip(b.anchor);
    bytes32_roundtrip(b.prev_hash.0);
    reveal_with_fuel(plain, 2);
    assert(plain(tip_item(b), 2));
    plain_deeper(tip_item(b), 2, max_depth());
}

pub(crate) fn tip_value(b: &TipEntryBody) -> (r: Value)
    ensures
        item_of(r) == tip_item(*b),
{
    let fields = Fields::new().with("network", network_value(b.network)).with(
        "anchor",
        anchor_value(&b.anchor),
    ).with("prev_hash", value32(&b.prev_hash.0)).with("block_time", uint(b.block_time as u64)).with(
        "tx_count",
        uint(b.tx_count as u64),
    ).with("median_time", uint(b.median_time as u64));
    assert(fields.items() =~= tip_item(*b)->Pairs_0);
    fields.done()
}

pub(crate) fn read_tip(v: &Value) -> (r: Option<TipEntryBody>)
    ensures
        r == tip_read(seen(*v)),
{
    let es = match named_entries(v) {
        Some(es) => es,
        None => {
            return None;
        },
    };
    let network = match field(es, "network") {
        Some(v) => read_network(v),
        None => None,
    };
    let anchor = match field(es, "anchor") {
        Some(v) => read_anchor(v),
        None => None,
    };
    let prev_hash = match field(es, "prev_hash") {
        Some(v) => get32(v),
        None => None,
    };
    let block_time = match field(es, "block_time") {
        Some(v) => as_u32(v),
        None => None,
    };
    let tx_count = match field(es, "tx_count") {
        Some(v) => as_u32(v),
        None => None,
    };
    let median_time = match field(es, "median_time") {
        Some(v) => as_u32(v),
        None => None,
    };
    match (network, anchor, prev_hash, block_time, tx_count, median_time) {
        (
            Some(network),
            Some(anchor),
            Some(prev),
            Some(block_time),
            Some(tx_count),
            Some(median_time),
        ) => Some(
            TipEntryBody {
                network,
                anchor,
                prev_hash: BlockHash(prev),
                block_time,
                tx_count,
                median_time,
            },
        ),
        _ => None,
    }
}

// ---------------------------------------------------------------------------
// Signed records
// ---------------------------------------------------------------------------

pub open spec fn signed_item(c: SignedModel) -> Item {
    Item::Pairs(
        seq![
            (Item::Text("body_cbor"@), octet_array(c.body_cbor)),
            (Item::Text("bridge"@), Item::Bytes(c.bridge.0@)),
            (Item::Text("signature"@), octet_array(c.signature)),
        ],
    )
}

pub open spec fn signed_read(item: Item) -> Option<SignedModel> {
    match item {
        Item::Pairs(es) => if all_named(es) {
            match (field_of(es, "body_cbor"@), field_of(es, "bridge"@), field_of(es, "signature"@)) {
                (Some(a), Some(b), Some(c)) => match (octets_of(a), read32(b), octets_of(c)) {
                    (Some(body_cbor), Some(bridge), Some(signature)) => Some(
                        SignedModel { body_cbor, bridge: BridgeId(bridge), signature },
                    ),
                    _ => None,
                },
                _ => None,
            }
        } else {
            None
        },
        _ => None,
    }
}

/// A signed claim's record is read back as the claim.
pub proof fn signed_roundtrip(c: SignedModel)
    ensures
        signed_read(signed_item(c)) == Some(c),
        plain(signed_item(c), 2),
{
    reveal_strlit("body_cbor");
    reveal_strlit("bridge");
    reveal_strlit("signature");
    assert("body_cbor"@.len() == 9);
    assert("bridge"@.len() == 6);
    assert("signature"@.len() == 9);
    assert("body_cbor"@[0] != "signature"@[0]);
    let es = signed_item(c)->Pairs_0;
    field_found(es, "body_cbor"@, 0);
    field_found(es, "bridge"@, 1);
    field_found(es, "signature"@, 2);
    octet_array_roundtrip(c.body_cbor);
    octet_array_roundtrip(c.signature);
    bytes32_roundtrip(c.bridge.0);
    reveal_with_fuel(plain, 2);
}

pub(crate) fn signed_value(body_cbor: &Vec<u8>, bridge: &BridgeId, signature: &Vec<u8>) -> (r: Value)
    ensures
        item_of(r) == signed_item(
            (SignedModel { body_cbor: body_cbor@, bridge: *bridge, signature: signature@ }),
        ),
{
    let fields = Fields::new().with("body_cbor", octet_array_value(body_cbor)).with(
        "bridge",
        value32(&bridge.0),
    ).with("signature", octet_array_value(signature));
    let ghost c = SignedModel { body_cbor: body_cbor@, bridge: *bridge, signature: signature@ };
    assert(fields.items() =~= signed_item(c)->Pairs_0);
    fields.done()
}

/// How many bytes a signed claim is written as.
pub fn signed_len(c: &SignedClaim) -> (r: usize)
    ensures
        r == bytes_of(signed_item(c@)).len(),
{
    let v = signed_value(&c.body_cbor, &c.bridge, &c.signature);
    proof {
        signed_roundtrip(c@);
        plain_deeper(signed_item(c@), 2, max_depth());
    }
    match encode_value(&v) {
        Ok(b) => b.len(),
        Err(_) => 0,
    }
}

// ---------------------------------------------------------------------------
// Bytes
// ---------------------------------------------------------------------------

/// The bytes that a claim is signed as.
pub open spec fn body_bytes(b: BodyModel) -> Seq<u8> {
    bytes_of(body_item(b))
}

/// The claim that bytes hold, or why they hold none.
pub open spec fn body_from(data: Seq<u8>) -> Result<BodyModel, Seq<char>> {
    match item_read(data) {
        Err(e) => Err("CBOR deserialize: "@ + e),
        Ok(item) => match body_read(untagged(item)) {
            Some(b) => Ok(b),
            None => Err("CBOR deserialize: not a claim"@),
        },
    }
}

/// The bytes that a tip entry is signed as.
pub open spec fn tip_bytes(b: TipEntryBody) -> Seq<u8> {
    bytes_of(tip_item(b))
}

/// The tip entry that bytes hold, or why they hold none.
pub open spec fn tip_from(data: Seq<u8>) -> Result<TipEntryBody, Seq<char>> {
    match item_read(data) {
        Err(e) => Err("CBOR deserialize: "@ + e),
        Ok(item) => match tip_read(untagged(item)) {
            Some(b) => Ok(b),
            None => Err("CBOR deserialize: not a tip entry"@),
        },
    }
}

/// Write a claim. Its bytes are read back as the same claim.
pub fn body_to_cbor(b: &ClaimBody) -> (r: Result<Vec<u8>, String>)
    ensures
        r is Ok,
        r->Ok_0@ == body_bytes(b@),
        body_from(r->Ok_0@) is Ok && body_from(r->Ok_0@)->Ok_0 == b@,
{
    let v = body_value(b);
    proof {
        body_roundtrip(b@);
        plain_is_untagged(body_item(b@), max_depth());
    }
    encode_value(&v)
}

/// Read a claim.
pub fn body_from_cbor(data: &[u8]) -> (r: Result<ClaimBody, String>)
    ensures
        match r {
            Ok(b) => body_from(data@) is Ok && body_from(data@)->Ok_0 == b@,
            Err(e) => body_from(data@) is Err && body_from(data@)->Err_0 == e@,
        },
{
    match decode_value(data) {
        Err(e) => Err(join("CBOR deserialize: ", &e)),
        Ok(v) => match read_body(&v) {
            Some(b) => Ok(b),
            None => Err("CBOR deserialize: not a claim".to_owned()),
        },
    }
}

/// Write a tip entry. Its bytes are read back as the same entry.
pub fn tip_to_cbor(b: &TipEntryBody) -> (r: Result<Vec<u8>, String>)
    ensures
        r is Ok,
        r->Ok_0@ == tip_bytes(*b),
        tip_from(r->Ok_0@) is Ok && tip_from(r->Ok_0@)->Ok_0 == *b,
{
    let v = tip_value(b);
    proof {
        tip_roundtrip(*b);
        plain_is_untagged(tip_item(*b), max_depth());
    }
    encode_value(&v)
}

/// Read a tip entry.
pub fn tip_from_cbor(data: &[u8]) -> (r: Result<TipEntryBody, String>)
    ensures
        match r {
            Ok(b) => tip_from(data@) is Ok && tip_from(data@)->Ok_0 == b,
            Err(e) => tip_from(data@) is Err && tip_from(data@)->Err_0 == e@,
        },
{
    match decode_value(data) {
        Err(e) => Err(join("CBOR deserialize: ", &e)),
        Ok(v) => match read_tip(&v) {
            Some(b) => Ok(b),
            None => Err("CBOR deserialize: not a tip entry".to_owned()),
        },
    }
}

} // verus!
