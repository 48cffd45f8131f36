//! What a reading of Bitcoin can be relied on for.
//!
//! A block is read into transactions, the transactions into a tree and into payments. These
//! laws say what each reading holds of what was read.

use vstd::prelude::*;

use crate::bytes::arr32;
use crate::chain::{
    agrees, branch_of, fork_point, found_at, found_up_to, ids, level_up, parts, parts_of, root_of,
    says_known, scan_fault, sibling, FoundModel, TxModel,
};
use crate::outside::{block_of, sha256_of, tx_of};
use crate::store::is_listed;
use crate::text::occurs;
use crate::transaction::{stripped_bytes, txid_of, FieldsModel};
use crate::types::BlockHash;

verus! {

// ---------------------------------------------------------------------------
// Trees
// ---------------------------------------------------------------------------

/// One transaction is its own root, and two are hashed together.
pub proof fn small_trees(a: Seq<u8>, b: Seq<u8>)
    ensures
        root_of(seq![a]) == a,
        root_of(seq![a, b]) == sha256_of(sha256_of(a + b)),
{
    let two = seq![a, b];
    let up = level_up(two);
    assert(up.len() == 1);
    assert(up[0] == sha256_of(sha256_of(a + b)));
    assert(root_of(two) == root_of(up));
    assert(root_of(up) == up[0]);
}

/// A tree of more than one node has the root of the level above, in which each two
/// neighbours are hashed together, left before right, and a last one alone with itself.
pub proof fn a_tree_is_built_pair_by_pair(level: Seq<Seq<u8>>, i: int)
    requires
        level.len() > 1,
        0 <= i,
        2 * i < level.len(),
    ensures
        root_of(level) == root_of(level_up(level)),
        level_up(level).len() == (level.len() + 1) / 2,
        2 * i + 1 < level.len() ==> level_up(level)[i] == sha256_of(
            sha256_of(level[2 * i] + level[2 * i + 1]),
        ),
        2 * i + 1 == level.len() ==> level_up(level)[i] == sha256_of(
            sha256_of(level[2 * i] + level[2 * i]),
        ),
{
}

/// A tree of no transactions has a root of zeros.
pub proof fn the_root_of_nothing_is_zeros(i: int)
    requires
        0 <= i < 32,
    ensures
        root_of(Seq::empty()).len() == 32,
        root_of(Seq::empty())[i] == 0,
{
}

/// A branch begins with what stands beside the node, and goes on with the branch of the
/// parent a level up.
pub proof fn a_branch_goes_up_level_by_level(level: Seq<Seq<u8>>, at: int)
    requires
        level.len() > 1,
        0 <= at < level.len(),
    ensures
        branch_of(level, at).len() > 0,
        at % 2 == 1 ==> branch_of(level, at)[0] == level[at - 1],
        at % 2 == 0 && at + 1 < level.len() ==> branch_of(level, at)[0] == level[at + 1],
        at % 2 == 0 && at + 1 == level.len() ==> branch_of(level, at)[0] == level[at],
        branch_of(level, at).subrange(1, branch_of(level, at).len() as int) == branch_of(
            level_up(level),
            at / 2,
        ),
        branch_of(seq![level[at]], 0).len() == 0,
{
    let b = branch_of(level, at);
    assert(b =~= seq![sibling(level, at)] + branch_of(level_up(level), at / 2));
    assert(b.subrange(1, b.len() as int) =~= branch_of(level_up(level), at / 2));
}

// ---------------------------------------------------------------------------
// Blocks
// ---------------------------------------------------------------------------

/// What is kept of a transaction: its id, how many inputs it has, its bytes without the
/// witness, and its outputs.
pub proof fn what_is_kept_of_a_transaction(t: FieldsModel)
    ensures
        parts(t).txid == arr32(txid_of(t)),
        parts(t).inputs == t.inputs.len(),
        parts(t).raw_tx == stripped_bytes(t),
        parts(t).outputs == t.outputs,
{
}

/// The transactions of a block are read one by one: all of them, in their order, if each can
/// be read, and none if one cannot.
pub proof fn every_transaction_is_read(raws: Seq<Seq<u8>>)
    ensures
        parts_of(raws) is Ok <==> forall|i: int|
            0 <= i < raws.len() ==> tx_of(#[trigger] raws[i]) is Ok,
        parts_of(raws) matches Ok(txs) ==> txs.len() == raws.len() && forall|i: int|
            0 <= i < raws.len() ==> tx_of(#[trigger] raws[i]) is Ok && txs[i] == parts(
                tx_of(raws[i])->Ok_0,
            ),
    decreases raws.len(),
{
    if raws.len() > 0 {
        let rest = raws.drop_last();
        every_transaction_is_read(rest);
        assert forall|i: int| 0 <= i < rest.len() implies rest[i] == raws[i] by {}
        assert(raws[raws.len() - 1] == raws.last());
        if parts_of(rest) is Err {
            let i = choose|i: int| 0 <= i < rest.len() && tx_of(#[trigger] rest[i]) is Err;
            assert(tx_of(raws[i]) is Err);
        }
        if forall|i: int| 0 <= i < raws.len() ==> tx_of(#[trigger] raws[i]) is Ok {
            assert forall|i: int| 0 <= i < rest.len() implies tx_of(#[trigger] rest[i]) is Ok by {
                assert(rest[i] == raws[i]);
            }
        }
        if parts_of(raws) is Ok {
            assert forall|i: int| 0 <= i < raws.len() implies tx_of(#[trigger] raws[i]) is Ok
                && parts_of(raws)->Ok_0[i] == parts(tx_of(raws[i])->Ok_0) by {
                if i < rest.len() {
                    assert(rest[i] == raws[i]);
                }
            }
        }
    }
}

/// A block can be scanned exactly when it can be read, has a header of 80 bytes, and every
/// transaction in it can be read.
pub proof fn what_can_be_scanned(raw: Seq<u8>)
    ensures
        scan_fault(raw) is None <==> (block_of(raw) matches Ok((header, raws)) && header.len() == 80
            && forall|i: int| 0 <= i < raws.len() ==> tx_of(#[trigger] raws[i]) is Ok),
{
    if block_of(raw) is Ok {
        every_transaction_is_read(block_of(raw)->Ok_0.1);
    }
}

/// A payment that is found carries what the block says of it: the script and the amount of
/// its output, the id and the bytes of its transaction, and both places.
pub proof fn what_is_found_is_what_the_block_says(txs: Seq<TxModel>, t: int, v: int, f: FoundModel)
    requires
        0 <= t < txs.len(),
        0 <= v < txs[t].outputs.len(),
        f == found_at(txs, t, v),
    ensures
        f.value_sats == txs[t].outputs[v].0,
        f.script_pubkey == txs[t].outputs[v].1,
        f.txid.0 == txs[t].txid,
        f.vout == v as u32,
        f.tx_index == t as u32,
        f.raw_tx == txs[t].raw_tx,
        f.merkle_branch == branch_of(ids(txs), t),
        ids(txs).len() == txs.len(),
        ids(txs)[t] == txs[t].txid@,
{
}

/// What is found in a block is exactly its outputs that pay a watched script.
pub proof fn a_payment_is_found_exactly_if_it_is_watched(
    txs: Seq<TxModel>,
    watched: Seq<Vec<u8>>,
    t: int,
    v: int,
)
    requires
        0 <= t < txs.len(),
        0 <= v < txs[t].outputs.len(),
        exists|j: int| 0 <= j < watched.len() && (#[trigger] watched[j])@ == txs[t].outputs[v].1,
    ensures
        found_up_to(txs, txs.len() as int, watched).contains(found_at(txs, t, v)),
{
    assert(is_listed(watched, txs[t].outputs[v].1));
    crate::chain::no_payment_is_passed_over(txs, txs.len() as int, watched, t, v);
}

/// Nothing that is found pays a script that is not watched.
pub proof fn nothing_unwatched_is_found(txs: Seq<TxModel>, watched: Seq<Vec<u8>>, i: int)
    requires
        0 <= i < found_up_to(txs, txs.len() as int, watched).len(),
    ensures
        exists|j: int|
            0 <= j < watched.len() && (#[trigger] watched[j])@ == found_up_to(
                txs,
                txs.len() as int,
                watched,
            )[i].script_pubkey,
{
    crate::chain::what_is_found_is_in_the_block(txs, txs.len() as int, watched, i);
}

// ---------------------------------------------------------------------------
// Forks
// ---------------------------------------------------------------------------

/// A fork is where the record and the node agree, if they agree anywhere in reach: at the
/// highest such height, and a height of which nothing is recorded counts as one.
pub proof fn a_fork_is_where_the_record_agrees(
    recorded: spec_fn(u32) -> Option<BlockHash>,
    node: spec_fn(u32) -> BlockHash,
    from: u32,
    floor: u32,
    at: u32,
)
    requires
        floor <= at <= from,
        recorded(at) is None || recorded(at) == Some(node(at)),
        forall|h: u32| at < h <= from ==> recorded(h) is Some && #[trigger] recorded(h) != Some(
            node(h),
        ),
    ensures
        fork_point(recorded, node, from, floor) == at,
{
    crate::chain::the_fork_point_is_the_highest_agreement(recorded, node, from, floor);
    let f = fork_point(recorded, node, from, floor);
    assert(agrees(recorded, node, at));
    if f > at {
        assert(recorded(f) is Some && recorded(f) != Some(node(f)));
        assert(agrees(recorded, node, f) || f == floor);
    }
    if f < at {
        assert(!agrees(recorded, node, at));
    }
}

/// A node's refusal means that it has the transaction already exactly if it says so, in one
/// of these ways, anywhere in its message.
pub proof fn when_a_node_has_it_already(before: Seq<char>, after: Seq<char>, message: Seq<char>)
    ensures
        says_known(before + "already in block chain"@ + after),
        says_known(before + "txn-already-known"@ + after),
        says_known(before + "txn-already-in-mempool"@ + after),
        !occurs(message, "already in block chain"@) && !occurs(message, "txn-already-known"@)
            && !occurs(message, "txn-already-in-mempool"@) ==> !says_known(message),
{
    crate::format_laws::when_words_occur(
        before + "already in block chain"@ + after,
        "already in block chain"@,
    );
    crate::format_laws::when_words_occur(
        before + "txn-already-known"@ + after,
        "txn-already-known"@,
    );
    crate::format_laws::when_words_occur(
        before + "txn-already-in-mempool"@ + after,
        "txn-already-in-mempool"@,
    );
}

} // verus!
