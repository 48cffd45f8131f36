//! Reading Bitcoin, and turning what is read into evidence that can be checked.

use vstd::prelude::*;

use crate::bytes::{arr32, arr32_of_view, array32, copy_all, same32};
use crate::outside::{
    block_of, read_block, read_transaction, transaction_bytes, transaction_txid, tx_of,
};
use crate::spv::{
    branch_root, merkle_parent, parent_of, payments, sha256d_of, tx_outputs, BlockHeader, Payment,
    SpvError, SpvProof, TxOutput, MAX_RAW_TX,
};
use crate::store::{holds, is_listed};
use crate::text::{contains_text, occurs};
use crate::transaction::{
    a_txid_ignores_the_witness, parsing_undoes_serialization, strip, stripped_bytes, txid_of,
    FieldsModel, TxFields,
};
use crate::types::{BlockAnchor, BlockHash, Txid};

verus! {

broadcast use vstd::array::group_array_axioms;

// ---------------------------------------------------------------------------
// Merkle trees
// ---------------------------------------------------------------------------

/// The level above: each two neighbours hashed together, the last with itself where it
/// has no neighbour.
pub open spec fn level_up(level: Seq<Seq<u8>>) -> Seq<Seq<u8>> {
    Seq::new(
        ((level.len() + 1) / 2) as nat,
        |i: int|
            merkle_parent(
                level[2 * i],
                if 2 * i + 1 < level.len() {
                    level[2 * i + 1]
                } else {
                    level[2 * i]
                },
            ),
    )
}

/// The root of a tree: of no transactions, zeros.
pub open spec fn root_of(level: Seq<Seq<u8>>) -> Seq<u8>
    decreases level.len(),
{
    if level.len() == 0 {
        Seq::new(32, |i: int| 0u8)
    } else if level.len() == 1 {
        level[0]
    } else {
        root_of(level_up(level))
    }
}

/// What stands beside a node.
pub open spec fn sibling(level: Seq<Seq<u8>>, at: int) -> Seq<u8> {
    if at % 2 == 1 {
        level[at - 1]
    } else if at + 1 < level.len() {
        level[at + 1]
    } else {
        level[at]
    }
}

/// The siblings on the way from a leaf to the root.
pub open spec fn branch_of(level: Seq<Seq<u8>>, at: int) -> Seq<Seq<u8>>
    decreases level.len(),
{
    if level.len() <= 1 {
        Seq::empty()
    } else {
        seq![sibling(level, at)] + branch_of(level_up(level), at / 2)
    }
}

/// Hashes as byte strings.
pub open spec fn nodes(hashes: Seq<[u8; 32]>) -> Seq<Seq<u8>> {
    hashes.map_values(|h: [u8; 32]| h@)
}

/// Every branch folds to the root, whatever the size of the tree: this is what makes a
/// branch evidence.
pub proof fn every_branch_folds_to_the_root(
    level: Seq<Seq<u8>>,
    at: int,
    branch: Seq<[u8; 32]>,
)
    requires
        0 <= at < level.len(),
        nodes(branch) == branch_of(level, at),
    ensures
        branch_root(level[at], branch, at as nat) == root_of(level),
    decreases level.len(),
{
    if level.len() > 1 {
        let up = level_up(level);
        let rest = branch.skip(1);
        assert(nodes(branch).len() == branch.len());
        assert(branch_of(level, at)[0] == sibling(level, at));
        assert(nodes(branch)[0] == branch[0]@);
        assert(nodes(rest) =~= branch_of(up, at / 2)) by {
            assert(nodes(branch).skip(1) =~= branch_of(up, at / 2));
            assert(nodes(rest) =~= nodes(branch).skip(1));
        }
        every_branch_folds_to_the_root(up, at / 2, rest);
        let k = at / 2;
        if at % 2 == 0 {
            assert(up[k] == merkle_parent(level[at], branch[0]@));
        } else {
            assert(2 * k + 1 == at);
            assert(up[k] == merkle_parent(branch[0]@, level[at]));
        }
    } else {
        assert(nodes(branch).len() == branch.len());
    }
}

/// A branch has one step for each doubling of the tree.
pub proof fn branches_are_short(level: Seq<Seq<u8>>, at: int, depth: nat)
    requires
        level.len() <= vstd::arithmetic::power2::pow2(depth),
    ensures
        branch_of(level, at).len() <= depth,
    decreases level.len(),
{
    if level.len() > 1 {
        if depth == 0 {
            vstd::arithmetic::power2::lemma2_to64();
        } else {
            vstd::arithmetic::power2::lemma_pow2_unfold(depth);
            branches_are_short(level_up(level), at / 2, (depth - 1) as nat);
        }
    }
}

fn next_level(level: &Vec<[u8; 32]>) -> (r: Vec<[u8; 32]>)
    ensures
        nodes(r@) == level_up(nodes(level@)),
        level@.len() > 1 ==> r@.len() < level@.len() && r@.len() > 0,
{
    let ghost below = nodes(level@);
    let mut next: Vec<[u8; 32]> = Vec::new();
    let n: usize = level.len();
    let mut i: usize = 0;
    while i < n
        invariant
            n == level@.len(),
            below == nodes(level@),
            i <= n + 1,
            i % 2 == 0,
            next@.len() == i / 2,
            i < n || next@.len() == (n + 1) / 2,
            forall|j: int| 0 <= j < next@.len() ==> (#[trigger] next@[j])@ == level_up(below)[j],
        decreases n - i,
    {
        let right = if n - i > 1 {
            &level[i + 1]
        } else {
            &level[i]
        };
        let parent = parent_of(&level[i], right);
        let ghost k = (i / 2) as int;
        assert(2 * k == i);
        assert(below[i as int] == level@[i as int]@);
        assert(n - i > 1 ==> below[i + 1] == level@[i + 1]@);
        next.push(parent);
        if n - i == 1 {
            assert(next@.len() == (n + 1) / 2);
            assert(nodes(next@) =~= level_up(below));
            return next;
        }
        i = i + 2;
    }
    assert(nodes(next@) =~= level_up(below));
    next
}

/// The Merkle branch that proves the transaction at `index` to be one of `txids`.
pub fn merkle_branch(txids: &[[u8; 32]], index: usize) -> (r: Vec<[u8; 32]>)
    requires
        index < txids@.len() + txids@.len() % 2 || txids@.len() <= 1,
    ensures
        nodes(r@) == branch_of(nodes(txids@), index as int),
{
    let ghost leaves = nodes(txids@);
    let mut branch: Vec<[u8; 32]> = Vec::new();
    let mut level: Vec<[u8; 32]> = copy_hashes(txids);
    let mut at: usize = index;
    assert(nodes(branch@) + branch_of(nodes(level@), at as int) =~= branch_of(
        leaves,
        index as int,
    ));
    while level.len() > 1
        invariant
            at < level@.len() + level@.len() % 2 || level@.len() <= 1,
            nodes(branch@) + branch_of(nodes(level@), at as int) == branch_of(
                leaves,
                index as int,
            ),
        decreases level@.len(),
    {
        let n: usize = level.len();
        let beside = if at % 2 == 1 {
            level[at - 1]
        } else if n - at > 1 {
            level[at + 1]
        } else {
            level[at]
        };
        let ghost was = branch@;
        let ghost here = nodes(level@);
        proof {
            assert(at % 2 == 1 ==> here[at - 1] == level@[at - 1]@);
            assert(n - at > 1 ==> here[at + 1] == level@[at + 1]@);
            assert(at < n ==> here[at as int] == level@[at as int]@);
            assert(beside@ == sibling(here, at as int));
        }
        branch.push(beside);
        level = next_level(&level);
        proof {
            assert(nodes(branch@) =~= nodes(was).push(beside@));
            assert(nodes(branch@) + branch_of(nodes(level@), at as int / 2) =~= nodes(was) + (
            seq![beside@] + branch_of(nodes(level@), at as int / 2)));
            assert(nodes(level@).len() == level@.len());
        }
        at = at / 2;
    }
    proof {
        assert(nodes(level@).len() == level@.len());
        assert(branch_of(nodes(level@), at as int) =~= Seq::<Seq<u8>>::empty());
        assert(nodes(branch@) =~= branch_of(leaves, index as int));
    }
    branch
}

/// The Merkle root over a list of txids.
pub fn merkle_root(txids: &[[u8; 32]]) -> (r: [u8; 32])
    ensures
        r@ == root_of(nodes(txids@)),
{
    let ghost leaves = nodes(txids@);
    if txids.len() == 0 {
        let zeros = [0u8; 32];
        assert(zeros@ =~= Seq::new(32, |i: int| 0u8));
        return zeros;
    }
    let mut level: Vec<[u8; 32]> = copy_hashes(txids);
    while level.len() > 1
        invariant
            level@.len() > 0,
            root_of(nodes(level@)) == root_of(leaves),
        decreases level@.len(),
    {
        assert(nodes(level@).len() == level@.len());
        level = next_level(&level);
    }
    assert(nodes(level@)[0] == level@[0]@);
    level[0]
}

fn copy_hashes(hashes: &[[u8; 32]]) -> (r: Vec<[u8; 32]>)
    ensures
        r@ == hashes@,
{
    let mut r: Vec<[u8; 32]> = Vec::new();
    for i in 0..hashes.len()
        invariant
            r@ == hashes@.take(i as int),
    {
        r.push(hashes[i]);
        assert(r@ =~= hashes@.take(i + 1));
    }
    assert(hashes@.take(hashes@.len() as int) =~= hashes@);
    r
}

// ---------------------------------------------------------------------------
// Blocks
// ---------------------------------------------------------------------------

/// What the library needs of a transaction.
#[derive(Debug)]
pub struct TxParts {
    pub txid: [u8; 32],
    pub inputs: usize,
    /// The transaction without its witness data.
    pub raw_tx: Vec<u8>,
    pub outputs: Vec<TxOutput>,
}

/// A [`TxParts`] as a mathematical value.
#[verifier::ext_equal]
pub struct TxModel {
    pub txid: [u8; 32],
    pub inputs: nat,
    pub raw_tx: Seq<u8>,
    pub outputs: Seq<Payment>,
}

impl View for TxParts {
    type V = TxModel;

    open spec fn view(&self) -> TxModel {
        TxModel {
            txid: self.txid,
            inputs: self.inputs as nat,
            raw_tx: self.raw_tx@,
            outputs: payments(self.outputs@),
        }
    }
}

/// What the library needs of a transaction: its id, its outputs, and the form that
/// evidence carries it in.
pub open spec fn parts(t: FieldsModel) -> TxModel {
    TxModel {
        txid: arr32(txid_of(t)),
        inputs: t.inputs.len(),
        raw_tx: stripped_bytes(t),
        outputs: t.outputs,
    }
}

/// Whether a transaction can be evidence as it is carried, as every one with inputs can: its
/// bytes hash to its id, and hold its outputs unless they are more than evidence may be.
pub open spec fn speaks_for_itself(t: TxModel) -> bool {
    t.inputs > 0 ==> {
        &&& sha256d_of(t.raw_tx) == t.txid@
        &&& t.raw_tx.len() <= MAX_RAW_TX ==> tx_outputs(t.raw_tx) == Ok::<Seq<Payment>, SpvError>(
            t.outputs,
        ) && t.outputs.len() <= MAX_RAW_TX
    }
}

/// Take a transaction apart: its witness data out, the rest as bytes, and its id.
pub fn take_apart(tx: TxFields) -> (r: TxParts)
    ensures
        r@ == parts(tx@),
        r.txid@ == txid_of(tx@),
        speaks_for_itself(r@),
{
    let mut tx = tx;
    let ghost whole = tx@;
    strip(&mut tx);
    proof {
        a_txid_ignores_the_witness(whole);
    }
    let txid = transaction_txid(&tx);
    let raw_tx = transaction_bytes(&tx);
    proof {
        arr32_of_view(txid);
        if whole.inputs.len() > 0 && raw_tx@.len() <= MAX_RAW_TX {
            parsing_undoes_serialization(whole);
        }
    }
    let inputs: usize = tx.inputs.len();
    assert(tx@.inputs.len() == inputs);
    TxParts { txid, inputs, raw_tx, outputs: tx.outputs }
}

/// A payment to a watched script, found in a block.
#[derive(Debug)]
pub struct FoundOutput {
    pub script_pubkey: Vec<u8>,
    pub txid: Txid,
    pub vout: u32,
    pub value_sats: u64,
    /// The transaction without witness data, whose double SHA-256 is `txid`.
    pub raw_tx: Vec<u8>,
    /// Merkle branch from the transaction to the block's root.
    pub merkle_branch: Vec<[u8; 32]>,
    pub tx_index: u32,
}

/// A [`FoundOutput`] as a mathematical value.
#[verifier::ext_equal]
pub struct FoundModel {
    pub script_pubkey: Seq<u8>,
    pub txid: Txid,
    pub vout: u32,
    pub value_sats: u64,
    pub raw_tx: Seq<u8>,
    pub merkle_branch: Seq<Seq<u8>>,
    pub tx_index: u32,
}

impl View for FoundOutput {
    type V = FoundModel;

    open spec fn view(&self) -> FoundModel {
        FoundModel {
            script_pubkey: self.script_pubkey@,
            txid: self.txid,
            vout: self.vout,
            value_sats: self.value_sats,
            raw_tx: self.raw_tx@,
            merkle_branch: nodes(self.merkle_branch@),
            tx_index: self.tx_index,
        }
    }
}

/// What a block scan produced.
#[derive(Debug)]
pub struct ScannedBlock {
    pub anchor: BlockAnchor,
    pub prev_hash: BlockHash,
    pub header: BlockHeader,
    pub time: u32,
    pub median_time: u32,
    pub tx_count: u32,
    pub found: Vec<FoundOutput>,
}

pub open spec fn found_models(v: Seq<FoundOutput>) -> Seq<FoundModel> {
    v.map_values(|f: FoundOutput| f@)
}

/// The ids of transactions.
pub open spec fn ids(txs: Seq<TxModel>) -> Seq<Seq<u8>> {
    txs.map_values(|t: TxModel| t.txid@)
}

/// What the `v`th output of the `t`th transaction is found as.
pub open spec fn found_at(txs: Seq<TxModel>, t: int, v: int) -> FoundModel {
    FoundModel {
        script_pubkey: txs[t].outputs[v].1,
        txid: Txid(txs[t].txid),
        vout: v as u32,
        value_sats: txs[t].outputs[v].0,
        raw_tx: txs[t].raw_tx,
        merkle_branch: branch_of(ids(txs), t),
        tx_index: t as u32,
    }
}

/// What is found among the first `n` outputs of the `t`th transaction.
pub open spec fn found_in(
    txs: Seq<TxModel>,
    t: int,
    n: int,
    watched: Seq<Vec<u8>>,
) -> Seq<FoundModel>
    decreases n,
{
    if n <= 0 {
        Seq::empty()
    } else {
        let before = found_in(txs, t, n - 1, watched);
        if is_listed(watched, txs[t].outputs[n - 1].1) {
            before.push(found_at(txs, t, n - 1))
        } else {
            before
        }
    }
}

/// What is found in the first `n` transactions.
pub open spec fn found_up_to(txs: Seq<TxModel>, n: int, watched: Seq<Vec<u8>>) -> Seq<FoundModel>
    decreases n,
{
    if n <= 0 {
        Seq::empty()
    } else {
        found_up_to(txs, n - 1, watched) + found_in(
            txs,
            n - 1,
            txs[n - 1].outputs.len() as int,
            watched,
        )
    }
}

/// Every payment that is found is an output of the block that pays a watched script, and
/// comes with the branch of its transaction's own place in the block.
pub proof fn what_is_found_is_in_the_block(
    txs: Seq<TxModel>,
    n: int,
    watched: Seq<Vec<u8>>,
    i: int,
)
    requires
        0 <= n <= txs.len(),
        0 <= i < found_up_to(txs, n, watched).len(),
    ensures
        exists|t: int, v: int|
            0 <= t < n && 0 <= v < txs[t].outputs.len() && found_up_to(txs, n, watched)[i]
                == #[trigger] found_at(txs, t, v) && is_listed(watched, txs[t].outputs[v].1),
    decreases n,
{
    let before = found_up_to(txs, n - 1, watched);
    if i < before.len() {
        what_is_found_is_in_the_block(txs, n - 1, watched, i);
    } else {
        let m = txs[n - 1].outputs.len() as int;
        found_in_one(txs, n - 1, m, watched, i - before.len());
    }
}

proof fn found_in_one(txs: Seq<TxModel>, t: int, n: int, watched: Seq<Vec<u8>>, i: int)
    requires
        0 <= n <= txs[t].outputs.len(),
        0 <= i < found_in(txs, t, n, watched).len(),
    ensures
        exists|v: int|
            0 <= v < n && found_in(txs, t, n, watched)[i] == #[trigger] found_at(txs, t, v)
                && is_listed(watched, txs[t].outputs[v].1),
    decreases n,
{
    let before = found_in(txs, t, n - 1, watched);
    if i < before.len() {
        found_in_one(txs, t, n - 1, watched, i);
    } else {
        assert(found_in(txs, t, n, watched)[i] == found_at(txs, t, n - 1));
    }
}

/// No payment to a watched script is passed over.
pub proof fn no_payment_is_passed_over(
    txs: Seq<TxModel>,
    n: int,
    watched: Seq<Vec<u8>>,
    t: int,
    v: int,
)
    requires
        0 <= t < n <= txs.len(),
        0 <= v < txs[t].outputs.len(),
        is_listed(watched, txs[t].outputs[v].1),
    ensures
        found_up_to(txs, n, watched).contains(found_at(txs, t, v)),
    decreases n,
{
    let before = found_up_to(txs, n - 1, watched);
    let last = found_in(txs, n - 1, txs[n - 1].outputs.len() as int, watched);
    let all = found_up_to(txs, n, watched);
    if t < n - 1 {
        no_payment_is_passed_over(txs, n - 1, watched, t, v);
        let i = choose|i: int| 0 <= i < before.len() && before[i] == found_at(txs, t, v);
        assert(all[i] == found_at(txs, t, v));
    } else {
        found_in_is_complete(txs, t, txs[t].outputs.len() as int, watched, v);
        let i = choose|i: int| 0 <= i < last.len() && last[i] == found_at(txs, t, v);
        assert(all[before.len() + i] == found_at(txs, t, v));
    }
}

proof fn found_in_is_complete(txs: Seq<TxModel>, t: int, n: int, watched: Seq<Vec<u8>>, v: int)
    requires
        0 <= v < n <= txs[t].outputs.len(),
        is_listed(watched, txs[t].outputs[v].1),
    ensures
        found_in(txs, t, n, watched).contains(found_at(txs, t, v)),
    decreases n,
{
    let before = found_in(txs, t, n - 1, watched);
    let all = found_in(txs, t, n, watched);
    if v < n - 1 {
        found_in_is_complete(txs, t, n - 1, watched, v);
        let i = choose|i: int| 0 <= i < before.len() && before[i] == found_at(txs, t, v);
        assert(all[i] == found_at(txs, t, v));
    } else {
        assert(all[all.len() - 1] == found_at(txs, t, v));
    }
}

/// The transactions of a block as the library reads them, or why one cannot be read.
pub open spec fn parts_of(raws: Seq<Seq<u8>>) -> Result<Seq<TxModel>, Seq<char>>
    decreases raws.len(),
{
    if raws.len() == 0 {
        Ok(Seq::empty())
    } else {
        match parts_of(raws.drop_last()) {
            Err(e) => Err(e),
            Ok(before) => match tx_of(raws.last()) {
                Err(e) => Err(e),
                Ok(t) => Ok(before.push(parts(t))),
            },
        }
    }
}

/// Whether every transaction can be evidence as it is carried.
pub open spec fn all_speak(txs: Seq<TxModel>) -> bool {
    forall|t: int| 0 <= t < txs.len() ==> speaks_for_itself(#[trigger] txs[t])
}

pub open spec fn tx_models(v: Seq<TxParts>) -> Seq<TxModel> {
    v.map_values(|t: TxParts| t@)
}

/// Find the outputs of some transactions that pay a watched script.
pub fn scan_transactions(txs: &Vec<TxParts>, watched: &Vec<Vec<u8>>) -> (r: Vec<FoundOutput>)
    ensures
        found_models(r@) == found_up_to(tx_models(txs@), txs@.len() as int, watched@),
{
    let ghost ms = tx_models(txs@);
    let n: usize = txs.len();
    let mut txids: Vec<[u8; 32]> = Vec::new();
    for i in 0..n
        invariant
            n == txs@.len(),
            ms == tx_models(txs@),
            txids@.len() == i,
            forall|j: int| 0 <= j < i ==> (#[trigger] txids@[j]) == ms[j].txid,
    {
        txids.push(txs[i].txid);
        assert(ms[i as int].txid == txs@[i as int].txid);
    }
    assert(nodes(txids@) =~= ids(ms));
    let mut found: Vec<FoundOutput> = Vec::new();
    assert(found_models(found@) =~= Seq::<FoundModel>::empty());
    for t in 0..n
        invariant
            n == txs@.len(),
            ms == tx_models(txs@),
            txids@.len() == n,
            nodes(txids@) == ids(ms),
            found_models(found@) == found_up_to(ms, t as int, watched@),
    {
        let tx = &txs[t];
        assert(ms[t as int] == tx@);
        let ghost before = found_models(found@);
        let m: usize = tx.outputs.len();
        assert(before + found_in(ms, t as int, 0, watched@) =~= before);
        for v in 0..m
            invariant
                n == txs@.len(),
                t < n,
                m == tx.outputs@.len(),
                ms == tx_models(txs@),
                ms[t as int] == tx@,
                txids@.len() == n,
                nodes(txids@) == ids(ms),
                before == found_up_to(ms, t as int, watched@),
                found_models(found@) == before + found_in(ms, t as int, v as int, watched@),
        {
            let out = &tx.outputs[v];
            assert(ms[t as int].outputs[v as int] == out@);
            if holds(watched, &out.script_pubkey) {
                let ghost was = found_models(found@);
                let f = FoundOutput {
                    script_pubkey: copy_all(&out.script_pubkey),
                    txid: Txid(tx.txid),
                    vout: v as u32,
                    value_sats: out.value_sats,
                    raw_tx: copy_all(&tx.raw_tx),
                    merkle_branch: merkle_branch(&txids, t),
                    tx_index: t as u32,
                };
                assert(f@ =~= found_at(ms, t as int, v as int));
                found.push(f);
                assert(found_models(found@) =~= was.push(f@));
                assert(found_models(found@) =~= before + found_in(
                    ms,
                    t as int,
                    v + 1,
                    watched@,
                ));
            }
        }
        assert(found_models(found@) =~= found_up_to(ms, t + 1, watched@));
    }
    found
}

/// The transactions of a block.
fn read_transactions(raws: &Vec<Vec<u8>>) -> (r: Result<Vec<TxParts>, String>)
    ensures
        r matches Ok(txs) ==> all_speak(tx_models(txs@)),
        match r {
            Ok(txs) => parts_of(raws@.map_values(|b: Vec<u8>| b@)) is Ok && parts_of(
                raws@.map_values(|b: Vec<u8>| b@),
            )->Ok_0 == tx_models(txs@),
            Err(e) => parts_of(raws@.map_values(|b: Vec<u8>| b@)) is Err && parts_of(
                raws@.map_values(|b: Vec<u8>| b@),
            )->Err_0 == e@,
        },
{
    let ghost all = raws@.map_values(|b: Vec<u8>| b@);
    let n: usize = raws.len();
    let mut txs: Vec<TxParts> = Vec::new();
    assert(all.take(0) =~= Seq::<Seq<u8>>::empty());
    assert(tx_models(txs@) =~= Seq::<TxModel>::empty());
    for i in 0..n
        invariant
            n == raws@.len(),
            all == raws@.map_values(|b: Vec<u8>| b@),
            parts_of(all.take(i as int)) is Ok,
            parts_of(all.take(i as int))->Ok_0 == tx_models(txs@),
            all_speak(tx_models(txs@)),
    {
        proof {
            assert(all.take(i + 1).drop_last() =~= all.take(i as int));
            assert(all.take(i + 1).last() == raws@[i as int]@);
        }
        match read_transaction(&raws[i]) {
            Err(e) => {
                proof {
                    reading_stops(all, i + 1);
                }
                return Err(e);
            },
            Ok(fields) => {
                let ghost was = tx_models(txs@);
                let t = take_apart(fields);
                txs.push(t);
                assert(tx_models(txs@) =~= was.push(t@));
            },
        }
    }
    assert(all.take(n as int) =~= all);
    Ok(txs)
}

proof fn reading_stops(raws: Seq<Seq<u8>>, i: int)
    requires
        0 <= i <= raws.len(),
        parts_of(raws.take(i)) is Err,
    ensures
        parts_of(raws) == parts_of(raws.take(i)),
    decreases raws.len() - i,
{
    if i < raws.len() {
        assert(raws.take(i + 1).drop_last() =~= raws.take(i));
        reading_stops(raws, i + 1);
    } else {
        assert(raws.take(i) =~= raws);
    }
}

/// Whether a scan's outcome is that of the block in `raw`.
pub open spec fn is_scan_of(
    b: ScannedBlock,
    raw: Seq<u8>,
    hash: BlockHash,
    height: u32,
    median_time: Option<u32>,
    watched: Seq<Vec<u8>>,
) -> bool {
    let (header, raws) = block_of(raw)->Ok_0;
    let txs = parts_of(raws)->Ok_0;
    &&& b.anchor == BlockAnchor { height, hash }
    &&& b.header.0@ == header
    &&& b.prev_hash.0@ == header.subrange(4, 36)
    &&& b.time == crate::bytes::le32(header, 68)
    &&& b.median_time == (match median_time {
        Some(m) => m,
        None => b.time,
    })
    &&& b.tx_count == txs.len() as u32
    &&& all_speak(txs)
    &&& found_models(b.found@) == found_up_to(txs, txs.len() as int, watched)
}

/// Why a block cannot be scanned.
pub open spec fn scan_fault(raw: Seq<u8>) -> Option<Seq<char>> {
    match block_of(raw) {
        Err(e) => Some(e),
        Ok((header, raws)) => if header.len() != 80 {
            Some("block header was not 80 bytes"@)
        } else {
            match parts_of(raws) {
                Err(e) => Some(e),
                Ok(_) => None,
            }
        },
    }
}

/// Scan one block for outputs that pay a watched script. The height and the median time
/// past are the node's.
pub fn scan_block(
    raw: &[u8],
    hash: &BlockHash,
    height: u32,
    median_time: Option<u32>,
    watched: &Vec<Vec<u8>>,
) -> (r: Result<ScannedBlock, String>)
    ensures
        match r {
            Ok(b) => scan_fault(raw@) is None && is_scan_of(
                b,
                raw@,
                *hash,
                height,
                median_time,
                watched@,
            ),
            Err(e) => scan_fault(raw@) == Some(e@),
        },
{
    let block = match read_block(raw) {
        Err(e) => {
            return Err(e);
        },
        Ok(b) => b,
    };
    if block.header.len() != 80 {
        return Err("block header was not 80 bytes".to_owned());
    }
    let mut header = [0u8; 80];
    for i in 0..80usize
        invariant
            block.header@.len() == 80,
            header@.len() == 80,
            forall|j: int| 0 <= j < i ==> header@[j] == block.header@[j],
    {
        header[i] = block.header[i];
    }
    assert(header@ =~= block.header@);
    let txs = match read_transactions(&block.txs) {
        Err(e) => {
            return Err(e);
        },
        Ok(txs) => txs,
    };
    let time: u32 = crate::bytes::read_le32(&header, 68);
    let found = scan_transactions(&txs, watched);
    Ok(
        ScannedBlock {
            anchor: BlockAnchor { height, hash: *hash },
            prev_hash: BlockHash(array32(&header, 4)),
            header: BlockHeader(header),
            time,
            median_time: match median_time {
                Some(m) => m,
                None => time,
            },
            tx_count: txs.len() as u32,
            found,
        },
    )
}

/// A transaction without its witness data. This is the form that a txid commits to, and
/// so the only one that evidence can carry.
pub fn witness_stripped(raw_tx: &[u8]) -> (r: Result<Vec<u8>, String>)
    ensures
        match r {
            Ok(b) => tx_of(raw_tx@) is Ok && b@ == stripped_bytes(tx_of(raw_tx@)->Ok_0) && (tx_of(
                raw_tx@,
            )->Ok_0.inputs.len() > 0 ==> sha256d_of(b@) == txid_of(tx_of(raw_tx@)->Ok_0)),
            Err(e) => tx_of(raw_tx@) is Err && tx_of(raw_tx@)->Err_0 == e@,
        },
{
    match read_transaction(raw_tx) {
        Ok(t) => {
            let mut tx = t;
            strip(&mut tx);
            proof {
                a_txid_ignores_the_witness(t@);
            }
            Ok(transaction_bytes(&tx))
        },
        Err(e) => Err(e),
    }
}

// ---------------------------------------------------------------------------
// Evidence
// ---------------------------------------------------------------------------

/// The first and the last of the headers that bury a block `depth` deep, if the chain is
/// that long: the block's own, and that of the block `depth - 1` above it.
pub fn header_range(block_height: u32, depth: u32, tip_height: u32) -> (r: Option<(u32, u32)>)
    ensures
        ({
            let last = block_height + (if depth > 0 {
                depth - 1
            } else {
                0
            });
            r == if tip_height < last {
                None
            } else {
                Some((block_height, last as u32))
            }
        }),
{
    let last: u64 = block_height as u64 + depth.saturating_sub(1) as u64;
    if (tip_height as u64) < last {
        None
    } else {
        Some((block_height, last as u32))
    }
}

/// An SPV proof of an output, from the headers that bury it.
pub fn build_spv_proof(found: &FoundOutput, header: BlockHeader, following: Vec<BlockHeader>) -> (r:
    SpvProof)
    ensures
        r.raw_tx@ == found.raw_tx@,
        r.merkle_branch@ == found.merkle_branch@,
        r.tx_index == found.tx_index,
        r.header == header,
        r.following_headers@ == following@,
{
    SpvProof {
        raw_tx: copy_all(&found.raw_tx),
        merkle_branch: copy_hashes(&found.merkle_branch),
        tx_index: found.tx_index,
        header,
        following_headers: following,
    }
}

// ---------------------------------------------------------------------------
// Forks
// ---------------------------------------------------------------------------

/// The highest height at or below `from` where what was recorded is what the node has,
/// or where nothing was recorded; `floor` if there is none above it.
pub open spec fn fork_point(
    recorded: spec_fn(u32) -> Option<BlockHash>,
    node: spec_fn(u32) -> BlockHash,
    from: u32,
    floor: u32,
) -> u32
    decreases from,
{
    if recorded(from) is None || recorded(from)->Some_0 == node(from) {
        from
    } else if from <= floor {
        floor
    } else {
        fork_point(recorded, node, (from - 1) as u32, floor)
    }
}

/// Whether a height settles where a fork is.
pub open spec fn agrees(
    recorded: spec_fn(u32) -> Option<BlockHash>,
    node: spec_fn(u32) -> BlockHash,
    h: u32,
) -> bool {
    recorded(h) is None || recorded(h)->Some_0 == node(h)
}

/// Nothing above the fork point agrees, and the fork point itself does unless it is the
/// floor.
pub proof fn the_fork_point_is_the_highest_agreement(
    recorded: spec_fn(u32) -> Option<BlockHash>,
    node: spec_fn(u32) -> BlockHash,
    from: u32,
    floor: u32,
)
    requires
        floor <= from,
    ensures
        ({
            let at = fork_point(recorded, node, from, floor);
            &&& floor <= at <= from
            &&& agrees(recorded, node, at) || at == floor
            &&& forall|h: u32| at < h <= from ==> !#[trigger] agrees(recorded, node, h)
        }),
    decreases from,
{
    if !agrees(recorded, node, from) && from > floor {
        the_fork_point_is_the_highest_agreement(recorded, node, (from - 1) as u32, floor);
        let at = fork_point(recorded, node, (from - 1) as u32, floor);
        assert forall|h: u32| at < h <= from implies !#[trigger] agrees(recorded, node, h) by {
            if h < from {
                assert(h <= (from - 1) as u32);
            }
        }
    }
}

/// A walk down the chain to the highest height at which a bridge and its node agree.
#[derive(Clone, Copy, Debug)]
pub struct ForkWalk {
    /// The height to look at next.
    pub height: u32,
    /// How far down the walk goes.
    pub floor: u32,
}

impl ForkWalk {
    pub fn new(from_height: u32, max_depth: u32) -> (r: Self)
        ensures
            r.height == from_height,
            r.floor == (if from_height > max_depth {
                from_height - max_depth
            } else {
                0
            }),
    {
        ForkWalk { height: from_height, floor: from_height.saturating_sub(max_depth) }
    }

    /// Take one step: `recorded` and `current` are the hashes at [`ForkWalk::height`],
    /// the node's being needed only where one was recorded. `Some` is the fork point.
    ///
    /// A reorg deeper than the walk goes ends at the floor: scanning that much again is
    /// slow but right, where accepting the difference would not be.
    pub fn step(&mut self, recorded: Option<BlockHash>, current: BlockHash) -> (r: Option<u32>)
        ensures
            r matches Some(at) ==> *final(self) == *old(self) && at == (if recorded is None
                || recorded->Some_0 == current {
                old(self).height
            } else {
                old(self).floor
            }),
            r is Some <==> recorded is None || recorded->Some_0 == current || old(self).height
                <= old(self).floor,
            r is None ==> final(self).height == old(self).height - 1 && final(self).floor == old(
                self,
            ).floor,
            forall|rec: spec_fn(u32) -> Option<BlockHash>, node: spec_fn(u32) -> BlockHash|
                rec(old(self).height) == recorded && (recorded is Some ==> node(old(self).height)
                    == current) ==> #[trigger] fork_point(
                    rec,
                    node,
                    old(self).height,
                    old(self).floor,
                ) == (match r {
                    Some(at) => at,
                    None => fork_point(rec, node, final(self).height, final(self).floor),
                }),
    {
        match recorded {
            None => Some(self.height),
            Some(ours) => {
                let same = same32(&ours.0, &current.0);
                proof {
                    crate::bytes::arr32_of_view(ours.0);
                    crate::bytes::arr32_of_view(current.0);
                }
                if same {
                    Some(self.height)
                } else if self.height <= self.floor {
                    Some(self.floor)
                } else {
                    self.height = self.height - 1;
                    None
                }
            },
        }
    }
}

// ---------------------------------------------------------------------------
// Relaying transactions
// ---------------------------------------------------------------------------

/// Whether the node refused a transaction because it has it.
pub open spec fn says_known(message: Seq<char>) -> bool {
    occurs(message, "already in block chain"@) || occurs(message, "txn-already-known"@) || occurs(
        message,
        "txn-already-in-mempool"@,
    )
}

/// The id of the transaction that a caller wants relayed.
pub fn transaction_id(raw_tx: &[u8]) -> (r: Result<Txid, String>)
    ensures
        match r {
            Ok(id) => tx_of(raw_tx@) is Ok && id.0@ == txid_of(tx_of(raw_tx@)->Ok_0),
            Err(e) => tx_of(raw_tx@) is Err && e@
                == "transaction bytes are not a valid Bitcoin transaction"@,
        },
{
    match read_transaction(raw_tx) {
        Ok(t) => Ok(Txid(take_apart(t).txid)),
        Err(_) => Err("transaction bytes are not a valid Bitcoin transaction".to_owned()),
    }
}

/// What came of relaying a transaction: its id and whether the node had it before, or
/// why the node refused it. To relay one twice is no error.
pub fn relay_outcome(txid: Txid, answer: Result<(), String>) -> (r: Result<(Txid, bool), String>)
    ensures
        match answer {
            Ok(_) => r is Ok && r->Ok_0 == (txid, false),
            Err(m) => if says_known(m@) {
                r is Ok && r->Ok_0 == (txid, true)
            } else {
                r is Err && r->Err_0@ == m@
            },
        },
{
    match answer {
        Ok(_) => Ok((txid, false)),
        Err(m) => {
            if contains_text(&m, "already in block chain") || contains_text(
                &m,
                "txn-already-known",
            ) || contains_text(&m, "txn-already-in-mempool") {
                Ok((txid, true))
            } else {
                Err(m)
            }
        },
    }
}

} // verus!
