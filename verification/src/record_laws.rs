//! What holds of the records that things are written as.
//!
//! A record's parts are found by their names. They may come in any order and with others
//! beside them, and each is read by itself. So a record says a thing exactly if each named
//! part says that part of it.

use vstd::prelude::*;

use crate::address_state::{BitcoinAddressStateV1, SetModel};
use crate::bridge_protocol::{AuthModel, RequestModel, WatchModel};
use crate::cbor::{
    all_named, field_of, missing, named_at, octet_array, octets_of, part_of, spells, u32_of,
    untagged, Item,
};
use crate::claims::{BodyModel, ClaimModel, TipEntryBody};
use crate::digest::BucketDigest;
use crate::records::{
    anchor_item, anchor_read, body_read, branch_read, claim_item, claim_read, header_read,
    headers_read, network_item, network_read, outpoint_item, outpoint_read, proof_item, proof_read,
    read32, signed_item, signed_read, tip_read,
};
use crate::signing::SignedModel;
use crate::sorted::{map_of, ClaimKey, Ordered};
use crate::spv::{PowFloor, ProofModel};
use crate::tip_state::{BitcoinTipStateV1, BlockSummariesSummary};
use crate::types::{BitcoinNetwork, BlockAnchor, BridgeId, OutPoint, ParamsModel, TipParamsModel};
use crate::wire::{
    address_params_item, address_params_read, auth_read, blocks_read, bridge_key_read, bridges_read,
    claim_key_read, height_read, map_read, pairs_read, relay_item, relay_read, request_item,
    request_read, set_item, set_read, signed_from, summary_read, tip_params_item, tip_params_read,
    tip_summary_read, watch_item, watch_read, Record, SummaryModel,
};

verus! {

broadcast use vstd::array::group_array_axioms;

// ---------------------------------------------------------------------------
// Items
// ---------------------------------------------------------------------------

/// A part is found under its name exactly if one entry has that name, and no second.
pub proof fn a_part_is_found_by_its_name(es: Seq<(Item, Item)>, name: Seq<char>, x: Item)
    ensures
        field_of(es, name) == Some(x) <==> exists|i: int|
            0 <= i < es.len() && spells((#[trigger] es[i]).0, name) && es[i].1 == x && forall|j: int|
                0 <= j < es.len() && j != i ==> !spells((#[trigger] es[j]).0, name),
{
    if field_of(es, name) == Some(x) {
        let i = choose|i: int| #[trigger] named_at(es, name, i);
        let k = choose|i: int|
            #[trigger] named_at(es, name, i) && forall|j: int|
                #[trigger] named_at(es, name, j) ==> j == i;
        assert(i == k);
        assert forall|j: int| 0 <= j < es.len() && j != i implies !spells(
            (#[trigger] es[j]).0,
            name,
        ) by {
            if spells(es[j].0, name) {
                assert(named_at(es, name, j));
            }
        }
        assert(spells(es[i].0, name) && es[i].1 == x);
    }
    if exists|i: int|
        0 <= i < es.len() && spells((#[trigger] es[i]).0, name) && es[i].1 == x && forall|j: int|
            0 <= j < es.len() && j != i ==> !spells((#[trigger] es[j]).0, name) {
        let i = choose|i: int|
            0 <= i < es.len() && spells((#[trigger] es[i]).0, name) && es[i].1 == x && forall|j: int|
                0 <= j < es.len() && j != i ==> !spells((#[trigger] es[j]).0, name);
        assert(named_at(es, name, i));
        crate::cbor::field_found(es, name, i);
    }
}

/// An entry under another name does not change what is found.
pub proof fn other_entries_do_not_matter(
    es: Seq<(Item, Item)>,
    extra: (Item, Item),
    name: Seq<char>,
    x: Item,
)
    requires
        !spells(extra.0, name),
        field_of(es, name) == Some(x),
    ensures
        field_of(es.push(extra), name) == Some(x),
{
    let more = es.push(extra);
    a_part_is_found_by_its_name(es, name, x);
    let i = choose|i: int|
        0 <= i < es.len() && spells((#[trigger] es[i]).0, name) && es[i].1 == x && forall|j: int|
            0 <= j < es.len() && j != i ==> !spells((#[trigger] es[j]).0, name);
    assert(more[i] == es[i]);
    assert forall|j: int| 0 <= j < more.len() && j != i implies !spells(
        (#[trigger] more[j]).0,
        name,
    ) by {
        if j < es.len() {
            assert(more[j] == es[j]);
        }
    }
    a_part_is_found_by_its_name(more, name, x);
}

/// Bytes are read from a byte string, or from an array of as many integers below 256, and
/// from nothing else.
pub proof fn what_bytes_are_read_from(item: Item, b: Seq<u8>, items: Seq<Item>)
    ensures
        octets_of(Item::Bytes(b)) == Some(b),
        octets_of(Item::Array(items)) is Some <==> forall|i: int|
            0 <= i < items.len() ==> (#[trigger] items[i]) is Uint && items[i]->Uint_0 < 256,
        octets_of(Item::Array(items)) matches Some(c) ==> c.len() == items.len() && forall|i: int|
            0 <= i < items.len() ==> (#[trigger] c[i]) as u64 == items[i]->Uint_0,
        !(item is Bytes) && !(item is Array) ==> octets_of(item) is None,
{
    if octets_of(Item::Array(items)) is Some {
        let c = octets_of(Item::Array(items))->Some_0;
        assert forall|i: int| 0 <= i < items.len() implies (#[trigger] c[i]) as u64
            == items[i]->Uint_0 by {
            assert(crate::cbor::is_octet(items[i]));
        }
        assert forall|i: int| 0 <= i < items.len() implies (#[trigger] items[i]) is Uint
            && items[i]->Uint_0 < 256 by {
            assert(crate::cbor::is_octet(items[i]));
        }
    }
}

/// An array of bytes holds each as an integer.
pub proof fn bytes_are_written_one_by_one(b: Seq<u8>, i: int)
    requires
        0 <= i < b.len(),
    ensures
        octet_array(b) is Array,
        octet_array(b)->Array_0.len() == b.len(),
        octet_array(b)->Array_0[i] == Item::Uint(b[i] as u64),
{
}

/// A number of thirty-two bits is an integer that fits, and thirty-two bytes are as many.
pub proof fn what_numbers_and_hashes_are_read_from(item: Item, n: u32, b: [u8; 32])
    ensures
        u32_of(item) == Some(n) <==> item == Item::Uint(n as u64),
        read32(item) is Some <==> octets_of(item) is Some && octets_of(item)->Some_0.len() == 32,
        octets_of(item) == Some(b@) ==> read32(item) == Some(b),
{
    if octets_of(item) == Some(b@) {
        crate::bytes::arr32_of_view(b);
    }
}

/// Tags change nothing about what is read: an item with a tag on it is read as the item,
/// but a null with one is no null. Arrays and records are read the same throughout.
pub proof fn tags_are_passed_over(item: Item, items: Seq<Item>, es: Seq<(Item, Item)>, i: int)
    ensures
        !(untagged(item) is Null) ==> untagged(Item::Tagged(Box::new(item))) == untagged(item),
        untagged(item) is Null ==> untagged(Item::Tagged(Box::new(item))) == Item::Other,
        item is Text || item is Bytes || item is Uint || item is Null ==> untagged(item) == item,
        untagged(Item::Array(items)) is Array,
        untagged(Item::Array(items))->Array_0.len() == items.len(),
        0 <= i < items.len() ==> untagged(Item::Array(items))->Array_0[i] == untagged(items[i]),
        untagged(Item::Pairs(es)) is Pairs,
        untagged(Item::Pairs(es))->Pairs_0.len() == es.len(),
        0 <= i < es.len() ==> untagged(Item::Pairs(es))->Pairs_0[i] == (
            untagged(es[i].0),
            untagged(es[i].1),
        ),
{
}

/// A network is read from the name of its variant alone.
pub proof fn what_a_network_is_read_from(item: Item, n: BitcoinNetwork)
    ensures
        network_read(item) == Some(n) <==> item == network_item(n),
        network_item(n) == Item::Text(n.variant()),
{
    crate::format_laws::a_network_is_known_by_its_name(n, BitcoinNetwork::Bitcoin);
    crate::format_laws::a_network_is_known_by_its_name(n, BitcoinNetwork::Testnet4);
    crate::format_laws::a_network_is_known_by_its_name(n, BitcoinNetwork::Signet);
    crate::format_laws::a_network_is_known_by_its_name(n, BitcoinNetwork::Regtest);
    crate::records::network_roundtrip(n);
}

// ---------------------------------------------------------------------------
// Claims
// ---------------------------------------------------------------------------

/// A place in the chain is its height and its block's hash.
pub proof fn what_an_anchor_is_read_from(es: Seq<(Item, Item)>, a: BlockAnchor)
    ensures
        anchor_read(Item::Pairs(es)) == Some(a) <==> {
            &&& all_named(es)
            &&& field_of(es, "height"@) == Some(Item::Uint(a.height as u64))
            &&& field_of(es, "hash"@) matches Some(x) && read32(x) == Some(a.hash.0)
        },
{
}

/// An output is its transaction's id and its index.
pub proof fn what_an_outpoint_is_read_from(es: Seq<(Item, Item)>, o: OutPoint)
    ensures
        outpoint_read(Item::Pairs(es)) == Some(o) <==> {
            &&& all_named(es)
            &&& field_of(es, "txid"@) matches Some(x) && read32(x) == Some(o.txid.0)
            &&& field_of(es, "vout"@) == Some(Item::Uint(o.vout as u64))
        },
{
}

/// Evidence is a transaction, its branch and index, its block's header, and the headers that
/// follow.
pub proof fn what_evidence_is_read_from(es: Seq<(Item, Item)>, p: ProofModel)
    ensures
        proof_read(Item::Pairs(es)) == Some(p) <==> {
            &&& all_named(es)
            &&& field_of(es, "raw_tx"@) matches Some(x) && octets_of(x) == Some(p.raw_tx)
            &&& field_of(es, "merkle_branch"@) matches Some(x) && branch_read(x) == Some(
                p.merkle_branch,
            )
            &&& field_of(es, "tx_index"@) == Some(Item::Uint(p.tx_index as u64))
            &&& field_of(es, "header"@) matches Some(x) && header_read(x) == Some(p.header)
            &&& field_of(es, "following_headers"@) matches Some(x) && headers_read(x) == Some(
                p.following_headers,
            )
        },
{
}

/// A branch and a list of headers are read item by item, as long as every item can be.
pub proof fn what_lists_are_read_from(items: Seq<Item>, i: int)
    ensures
        branch_read(Item::Array(items)) is Some <==> forall|k: int|
            0 <= k < items.len() ==> read32(#[trigger] items[k]) is Some,
        branch_read(Item::Array(items)) matches Some(b) ==> b.len() == items.len() && (0 <= i
            < items.len() ==> Some(b[i]) == read32(items[i])),
        headers_read(Item::Array(items)) is Some <==> forall|k: int|
            0 <= k < items.len() ==> octets_of(#[trigger] items[k]) is Some && octets_of(
                items[k],
            )->Some_0.len() == 80,
        headers_read(Item::Array(items)) matches Some(h) ==> h.len() == items.len() && (0 <= i
            < items.len() ==> Some(h[i]) == header_read(items[i])),
{
    if headers_read(Item::Array(items)) is Some {
        assert forall|k: int| 0 <= k < items.len() implies octets_of(#[trigger] items[k]) is Some
            && octets_of(items[k])->Some_0.len() == 80 by {
            assert(header_read(items[k]) is Some);
        }
    }
    if forall|k: int|
        0 <= k < items.len() ==> octets_of(#[trigger] items[k]) is Some && octets_of(
            items[k],
        )->Some_0.len() == 80 {
        assert forall|k: int| 0 <= k < items.len() implies header_read(
            #[trigger] items[k],
        ) is Some by {
            assert(octets_of(items[k]) is Some);
        }
    }
}

/// A claim is told by its name, and read from its parts, which have their names or come in
/// their order.
pub proof fn what_a_claim_is_read_from(content: Item, c: ClaimModel)
    ensures
        claim_read(Item::Text("ScannedTo"@)) == Some(ClaimModel::ScannedTo),
        claim_read(Item::Pairs(seq![(Item::Text("Retracted"@), content)])) == Some(c) <==> {
            &&& c is Retracted
            &&& part_of(content, "outpoint"@, 0, 1) matches Some(x) && outpoint_read(x) == Some(
                c->Retracted_outpoint,
            )
        },
        claim_read(Item::Pairs(seq![(Item::Text("MempoolOutput"@), content)])) == Some(c) <==> {
            &&& c is MempoolOutput
            &&& part_of(content, "outpoint"@, 0, 2) matches Some(x) && outpoint_read(x) == Some(
                c->MempoolOutput_outpoint,
            )
            &&& part_of(content, "value_sats"@, 1, 2) == Some(
                Item::Uint(c->MempoolOutput_value_sats),
            )
        },
        claim_read(Item::Pairs(seq![(Item::Text("ConfirmedOutput"@), content)])) == Some(c) <==> {
            &&& c is ConfirmedOutput
            &&& part_of(content, "outpoint"@, 0, 4) matches Some(x) && outpoint_read(x) == Some(
                c->ConfirmedOutput_outpoint,
            )
            &&& part_of(content, "value_sats"@, 1, 4) == Some(
                Item::Uint(c->ConfirmedOutput_value_sats),
            )
            &&& part_of(content, "anchor"@, 2, 4) matches Some(x) && anchor_read(x) == Some(
                c->anchor,
            )
            &&& part_of(content, "spv"@, 3, 4) matches Some(x) && proof_read(x) == Some(c->spv)
        },
{
    reveal_strlit("MempoolOutput");
    reveal_strlit("ConfirmedOutput");
    reveal_strlit("Retracted");
    assert("MempoolOutput"@.len() == 13 && "ConfirmedOutput"@.len() == 15 && "Retracted"@.len()
        == 9);
    let m = Item::Pairs(seq![(Item::Text("MempoolOutput"@), content)]);
    let f = Item::Pairs(seq![(Item::Text("ConfirmedOutput"@), content)]);
    let r = Item::Pairs(seq![(Item::Text("Retracted"@), content)]);
    assert(m->Pairs_0[0].0 == Item::Text("MempoolOutput"@));
    assert(f->Pairs_0[0].0 == Item::Text("ConfirmedOutput"@));
    assert(r->Pairs_0[0].0 == Item::Text("Retracted"@));
}

/// What a claim says of an output is under the name of its kind.
pub proof fn a_claim_is_written_under_its_name(c: ClaimModel)
    ensures
        c is ScannedTo <==> claim_item(c) == Item::Text("ScannedTo"@),
        c is Retracted ==> claim_item(c)->Pairs_0[0].0 == Item::Text("Retracted"@),
        c is MempoolOutput ==> claim_item(c)->Pairs_0[0].0 == Item::Text("MempoolOutput"@),
        c is ConfirmedOutput ==> claim_item(c)->Pairs_0[0].0 == Item::Text("ConfirmedOutput"@),
        !(c is ScannedTo) ==> claim_item(c) is Pairs && claim_item(c)->Pairs_0.len() == 1
            && claim_item(c)->Pairs_0[0].1 is Pairs,
{
}

/// What is signed of a claim is the script, the network, how far the chain was seen, and the
/// claim.
pub proof fn what_a_body_is_read_from(es: Seq<(Item, Item)>, b: BodyModel)
    ensures
        body_read(Item::Pairs(es)) == Some(b) <==> {
            &&& all_named(es)
            &&& field_of(es, "script_id"@) matches Some(x) && read32(x) == Some(b.script_id.0)
            &&& field_of(es, "network"@) matches Some(x) && network_read(x) == Some(b.network)
            &&& field_of(es, "as_of"@) matches Some(x) && anchor_read(x) == Some(b.as_of)
            &&& field_of(es, "claim"@) matches Some(x) && claim_read(x) == Some(b.claim)
        },
{
}

/// What is signed of a block is the network, its place, the block before it, two times and
/// how many transactions it holds.
pub proof fn what_a_summary_is_read_from(es: Seq<(Item, Item)>, b: TipEntryBody)
    ensures
        tip_read(Item::Pairs(es)) == Some(b) <==> {
            &&& all_named(es)
            &&& field_of(es, "network"@) matches Some(x) && network_read(x) == Some(b.network)
            &&& field_of(es, "anchor"@) matches Some(x) && anchor_read(x) == Some(b.anchor)
            &&& field_of(es, "prev_hash"@) matches Some(x) && read32(x) == Some(b.prev_hash.0)
            &&& field_of(es, "block_time"@) == Some(Item::Uint(b.block_time as u64))
            &&& field_of(es, "tx_count"@) == Some(Item::Uint(b.tx_count as u64))
            &&& field_of(es, "median_time"@) == Some(Item::Uint(b.median_time as u64))
        },
{
}

/// A signed record is the bytes that were signed, the signer, and the signature.
pub proof fn what_a_signed_record_is_read_from(es: Seq<(Item, Item)>, c: SignedModel)
    ensures
        signed_read(Item::Pairs(es)) == Some(c) <==> {
            &&& all_named(es)
            &&& field_of(es, "body_cbor"@) matches Some(x) && octets_of(x) == Some(c.body_cbor)
            &&& field_of(es, "bridge"@) matches Some(x) && read32(x) == Some(c.bridge.0)
            &&& field_of(es, "signature"@) matches Some(x) && octets_of(x) == Some(c.signature)
        },
{
}

/// A signed record is written with its bytes and its signature as arrays of integers, and
/// its signer as a byte string, in this order; so is evidence.
pub proof fn how_signed_records_are_written(c: SignedModel, p: ProofModel)
    ensures
        signed_item(c)->Pairs_0.map_values(|e: (Item, Item)| e.1) == seq![
            octet_array(c.body_cbor),
            Item::Bytes(c.bridge.0@),
            octet_array(c.signature),
        ],
        proof_item(p)->Pairs_0.len() == 5,
        proof_item(p)->Pairs_0[0].1 == octet_array(p.raw_tx),
        proof_item(p)->Pairs_0[1].1 == Item::Array(
            p.merkle_branch.map_values(|b: [u8; 32]| octet_array(b@)),
        ),
        proof_item(p)->Pairs_0[3].1 == Item::Bytes(p.header.0@),
{
    assert(signed_item(c)->Pairs_0.map_values(|e: (Item, Item)| e.1) =~= seq![
        octet_array(c.body_cbor),
        Item::Bytes(c.bridge.0@),
        octet_array(c.signature),
    ]);
}

/// Places in the chain and outputs are written with their hashes as byte strings.
pub proof fn how_places_and_outputs_are_written(a: BlockAnchor, o: OutPoint)
    ensures
        anchor_item(a)->Pairs_0 == seq![
            (Item::Text("height"@), Item::Uint(a.height as u64)),
            (Item::Text("hash"@), Item::Bytes(a.hash.0@)),
        ],
        outpoint_item(o)->Pairs_0 == seq![
            (Item::Text("txid"@), Item::Bytes(o.txid.0@)),
            (Item::Text("vout"@), Item::Uint(o.vout as u64)),
        ],
{
}

// ---------------------------------------------------------------------------
// States and parameters
// ---------------------------------------------------------------------------

/// A map is read entry by entry, and of two entries with one key the later stands.
pub proof fn what_a_map_is_read_from<K, M>(
    es: Seq<(Item, Item)>,
    last: (Item, Item),
    key: spec_fn(Item) -> Option<K>,
    val: spec_fn(Item) -> Option<M>,
)
    ensures
        map_read(Item::Pairs(Seq::empty()), key, val) == Some(Map::<K, M>::empty()),
        map_read(Item::Pairs(es.push(last)), key, val) is Some <==> map_read(
            Item::Pairs(es),
            key,
            val,
        ) is Some && key(last.0) is Some && val(last.1) is Some,
        map_read(Item::Pairs(es.push(last)), key, val) matches Some(m) ==> m == map_read(
            Item::Pairs(es),
            key,
            val,
        )->Some_0.insert(key(last.0)->Some_0, val(last.1)->Some_0),
{
    let all = es.push(last);
    assert(all.drop_last() =~= es);
    assert(all.last() == last);
    if pairs_read(all, key, val) is Some {
        let s = pairs_read(all, key, val)->Some_0;
        assert(s.drop_last() =~= pairs_read(es, key, val)->Some_0);
        assert(s.last() == (key(last.0)->Some_0, val(last.1)->Some_0));
    }
    assert(pairs_read(Seq::<(Item, Item)>::empty(), key, val) == Some(Seq::<(K, M)>::empty()));
    assert(map_of(Seq::<(K, M)>::empty()) == Map::<K, M>::empty());
}

/// A set of claims is its claims under their keys, and its watermarks under their bridges.
pub proof fn what_a_set_is_read_from(es: Seq<(Item, Item)>, s: SetModel)
    ensures
        set_read(Item::Pairs(es)) == Some(s) <==> {
            &&& all_named(es)
            &&& field_of(es, "claims"@) matches Some(x) && map_read(
                x,
                claim_key_read(),
                signed_from(),
            ) == Some(s.claims)
            &&& field_of(es, "scanned"@) matches Some(x) && map_read(
                x,
                bridge_key_read(),
                signed_from(),
            ) == Some(s.scanned)
        },
{
}

/// Blocks are kept under their heights, as signed summaries.
pub proof fn what_blocks_are_read_from(es: Seq<(Item, Item)>, m: Map<u32, SignedModel>)
    ensures
        blocks_read(Item::Pairs(es)) == Some(m) <==> {
            &&& all_named(es)
            &&& field_of(es, "blocks"@) matches Some(x) && map_read(x, height_read(), signed_from())
                == Some(m)
        },
{
}

/// A contract's parameters are a network, a script, the bridges it trusts, and a floor of
/// work, which is the least where it is not given.
pub proof fn what_parameters_are_read_from(es: Seq<(Item, Item)>, p: ParamsModel)
    ensures
        address_params_read(Item::Pairs(es)) == Some(p) <==> {
            &&& all_named(es)
            &&& field_of(es, "network"@) matches Some(x) && network_read(x) == Some(p.network)
            &&& field_of(es, "script_pubkey"@) matches Some(x) && octets_of(x) == Some(
                p.script_pubkey,
            )
            &&& field_of(es, "trusted_bridges"@) matches Some(x) && bridges_read(x) == Some(
                p.trusted_bridges,
            )
            &&& missing(es, "pow_floor"@) ==> p.pow_floor == PowFloor(0x207f_ffff)
            &&& !missing(es, "pow_floor"@) ==> field_of(es, "pow_floor"@) == Some(
                Item::Uint(p.pow_floor.0 as u64),
            )
        },
{
}

/// The parameters of a tip's contract are a network and the bridges it trusts.
pub proof fn what_tip_parameters_are_read_from(es: Seq<(Item, Item)>, p: TipParamsModel)
    ensures
        tip_params_read(Item::Pairs(es)) == Some(p) <==> {
            &&& all_named(es)
            &&& field_of(es, "network"@) matches Some(x) && network_read(x) == Some(p.network)
            &&& field_of(es, "trusted_bridges"@) matches Some(x) && bridges_read(x) == Some(
                p.trusted_bridges,
            )
        },
{
}

/// Parameters are what a contract's address is made of, so every byte of them is fixed: the
/// parts in this order, the script as an array of integers, each bridge as a byte string.
pub proof fn how_parameters_are_written(p: ParamsModel)
    ensures
        address_params_item(p)->Pairs_0 == seq![
            (Item::Text("network"@), Item::Text(p.network.variant())),
            (Item::Text("script_pubkey"@), octet_array(p.script_pubkey)),
            (
                Item::Text("trusted_bridges"@),
                Item::Array(p.trusted_bridges.map_values(|b: BridgeId| Item::Bytes(b.0@))),
            ),
            (Item::Text("pow_floor"@), Item::Uint(p.pow_floor.0 as u64)),
        ],
{
}

/// The parameters of a tip's contract are written in this order, each bridge as a byte
/// string.
pub proof fn how_tip_parameters_are_written(p: TipParamsModel)
    ensures
        tip_params_item(p)->Pairs_0 == seq![
            (Item::Text("network"@), Item::Text(p.network.variant())),
            (
                Item::Text("trusted_bridges"@),
                Item::Array(p.trusted_bridges.map_values(|b: BridgeId| Item::Bytes(b.0@))),
            ),
        ],
{
}

/// A set of claims is written claims first and then watermarks, each entry under its key as
/// a byte string.
pub proof fn how_a_set_is_written(
    claims: Seq<(ClaimKey, SignedModel)>,
    scanned: Seq<(BridgeId, SignedModel)>,
    i: int,
)
    ensures
        ({
            let es = set_item(claims, scanned)->Pairs_0;
            &&& es.len() == 2
            &&& es[0].0 == Item::Text("claims"@)
            &&& es[1].0 == Item::Text("scanned"@)
            &&& es[0].1 is Pairs && es[0].1->Pairs_0.len() == claims.len()
            &&& es[1].1 is Pairs && es[1].1->Pairs_0.len() == scanned.len()
            &&& 0 <= i < claims.len() ==> es[0].1->Pairs_0[i] == (
                Item::Bytes(claims[i].0.0@),
                signed_item(claims[i].1),
            )
            &&& 0 <= i < scanned.len() ==> es[1].1->Pairs_0[i] == (
                Item::Bytes(scanned[i].0.0@),
                signed_item(scanned[i].1),
            )
        }),
{
}

/// A state is written under the name of what it holds: an address's under its claims, a
/// tip's twice under its blocks, which stand under their heights.
pub proof fn how_states_are_written(a: BitcoinAddressStateV1, t: BitcoinTipStateV1, i: int)
    ensures
        a.item() == Item::Pairs(
            seq![
                (
                    Item::Text("claims"@),
                    set_item(a.claims.claims.list(), a.claims.scanned.list()),
                ),
            ],
        ),
        ({
            let outer = t.item()->Pairs_0;
            let inner = outer[0].1->Pairs_0;
            let list = t.blocks.blocks.list();
            &&& outer.len() == 1 && outer[0].0 == Item::Text("blocks"@)
            &&& inner.len() == 1 && inner[0].0 == Item::Text("blocks"@)
            &&& inner[0].1 is Pairs && inner[0].1->Pairs_0.len() == list.len()
            &&& 0 <= i < list.len() ==> inner[0].1->Pairs_0[i] == (
                Item::Uint(list[i].0 as u64),
                signed_item(list[i].1),
            )
        }),
{
}

/// A summary of claims is their digest and each bridge's watermark; one of blocks is their
/// ends, their number and their digest.
pub proof fn what_summaries_are_read_from(
    es: Seq<(Item, Item)>,
    s: SummaryModel,
    t: BlockSummariesSummary,
)
    ensures
        summary_read(Item::Pairs(es)) == Some(s) <==> {
            &&& all_named(es)
            &&& field_of(es, "claims"@) matches Some(x) && BucketDigest::read(x) == Some(s.claims)
            &&& field_of(es, "scanned"@) matches Some(x) && map_read(
                x,
                bridge_key_read(),
                height_read(),
            ) == Some(s.scanned)
        },
        tip_summary_read(Item::Pairs(es)) == Some(t) <==> {
            &&& all_named(es)
            &&& field_of(es, "highest"@) == Some(Item::Uint(t.highest as u64))
            &&& field_of(es, "lowest"@) == Some(Item::Uint(t.lowest as u64))
            &&& field_of(es, "count"@) == Some(Item::Uint(t.count as u64))
            &&& field_of(es, "digest"@) matches Some(x) && BucketDigest::read(x) == Some(t.digest)
        },
{
}

// ---------------------------------------------------------------------------
// Requests
// ---------------------------------------------------------------------------

/// A watch is a network, a script, and a height to start at, which may be null or left out.
pub proof fn what_a_watch_is_read_from(es: Seq<(Item, Item)>, w: WatchModel)
    ensures
        watch_read(Item::Pairs(es)) == Some(w) <==> {
            &&& all_named(es)
            &&& field_of(es, "network"@) matches Some(x) && network_read(x) == Some(w.network)
            &&& field_of(es, "script_pubkey"@) matches Some(x) && octets_of(x) == Some(
                w.script_pubkey,
            )
            &&& w.scan_from_height matches Some(h) ==> !missing(es, "scan_from_height"@)
                && field_of(es, "scan_from_height"@) == Some(Item::Uint(h as u64))
            &&& w.scan_from_height is None ==> missing(es, "scan_from_height"@) || field_of(
                es,
                "scan_from_height"@,
            ) == Some(Item::Null)
        },
{
}

/// A relay is a network and a transaction.
pub proof fn what_a_relay_is_read_from(es: Seq<(Item, Item)>, net: BitcoinNetwork, raw: Seq<u8>)
    ensures
        relay_read(Item::Pairs(es)) == Some(RequestModel::Broadcast(net, raw)) <==> {
            &&& all_named(es)
            &&& field_of(es, "network"@) matches Some(x) && network_read(x) == Some(net)
            &&& field_of(es, "raw_tx"@) matches Some(x) && octets_of(x) == Some(raw)
        },
{
}

/// A request is told by its name, and read from what stands under it.
pub proof fn what_a_request_is_read_from(content: Item, w: WatchModel)
    ensures
        request_read(Item::Text("Status"@)) == Some(RequestModel::Status),
        request_read(Item::Pairs(seq![(Item::Text("Watch"@), content)])) == Some(
            RequestModel::Watch(w),
        ) <==> watch_read(content) == Some(w),
        request_read(Item::Pairs(seq![(Item::Text("Unwatch"@), content)])) == Some(
            RequestModel::Unwatch(w),
        ) <==> watch_read(content) == Some(w),
        request_read(Item::Pairs(seq![(Item::Text("Broadcast"@), content)])) == relay_read(content),
{
    reveal_strlit("Watch");
    reveal_strlit("Unwatch");
    reveal_strlit("Broadcast");
    assert("Watch"@.len() == 5 && "Unwatch"@.len() == 7 && "Broadcast"@.len() == 9);
    let a = Item::Pairs(seq![(Item::Text("Watch"@), content)]);
    let b = Item::Pairs(seq![(Item::Text("Unwatch"@), content)]);
    let c = Item::Pairs(seq![(Item::Text("Broadcast"@), content)]);
    assert(a->Pairs_0[0].0 == Item::Text("Watch"@));
    assert(b->Pairs_0[0].0 == Item::Text("Unwatch"@));
    assert(c->Pairs_0[0].0 == Item::Text("Broadcast"@));
}

/// An authorization is the word that there is none, or a certificate, a challenge and a
/// signature.
pub proof fn what_an_authorization_is_read_from(
    es: Seq<(Item, Item)>,
    pem: Seq<char>,
    challenge: Seq<u8>,
    signature: Seq<u8>,
)
    ensures
        auth_read(Item::Text("None"@)) == Some(AuthModel::Open),
        auth_read(Item::Pairs(seq![(Item::Text("GhostKey"@), Item::Pairs(es))])) == Some(
            AuthModel::GhostKey(pem, challenge, signature),
        ) <==> {
            &&& all_named(es)
            &&& field_of(es, "certificate_pem"@) == Some(Item::Text(pem))
            &&& field_of(es, "challenge"@) matches Some(x) && octets_of(x) == Some(challenge)
            &&& field_of(es, "signature"@) matches Some(x) && octets_of(x) == Some(signature)
        },
{
    let a = Item::Pairs(seq![(Item::Text("GhostKey"@), Item::Pairs(es))]);
    assert(a->Pairs_0[0] == (Item::Text("GhostKey"@), Item::Pairs(es)));
}

/// What a caller signs is fixed byte by byte: the parts of a request in this order, bytes as
/// arrays of integers, no height as a null.
pub proof fn how_requests_are_written(w: WatchModel, net: BitcoinNetwork, raw: Seq<u8>)
    ensures
        watch_item(w)->Pairs_0 == seq![
            (Item::Text("network"@), Item::Text(w.network.variant())),
            (Item::Text("script_pubkey"@), octet_array(w.script_pubkey)),
            (
                Item::Text("scan_from_height"@),
                match w.scan_from_height {
                    Some(n) => Item::Uint(n as u64),
                    None => Item::Null,
                },
            ),
        ],
        relay_item(net, raw)->Pairs_0 == seq![
            (Item::Text("network"@), Item::Text(net.variant())),
            (Item::Text("raw_tx"@), octet_array(raw)),
        ],
        request_item(RequestModel::Watch(w)) == Item::Pairs(
            seq![(Item::Text("Watch"@), watch_item(w))],
        ),
        request_item(RequestModel::Unwatch(w)) == Item::Pairs(
            seq![(Item::Text("Unwatch"@), watch_item(w))],
        ),
        request_item(RequestModel::Broadcast(net, raw)) == Item::Pairs(
            seq![(Item::Text("Broadcast"@), relay_item(net, raw))],
        ),
        request_item(RequestModel::Status) == Item::Text("Status"@),
{
}

// ---------------------------------------------------------------------------
// Orders
// ---------------------------------------------------------------------------

/// Outputs are ordered by transaction id and then by index, and keys by their bytes from the
/// first on.
pub proof fn how_things_are_ordered(a: OutPoint, b: OutPoint, x: ClaimKey, y: ClaimKey)
    ensures
        a.txid == b.txid ==> (a.before(b) <==> a.vout < b.vout),
        a.txid.0@[0] < b.txid.0@[0] ==> a.before(b),
        x.0@[0] < y.0@[0] ==> x.before(y),
{
    crate::bytes::lex_irreflexive(a.txid.0@);
}

} // verus!
