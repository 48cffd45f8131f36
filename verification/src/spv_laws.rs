//! What a reader of evidence can rely on.
//!
//! A payment is believed on its own evidence: a transaction, its branch, and headers that
//! have done their work. These laws say what that comes to in numbers and bytes.

use vstd::arithmetic::power::{lemma_pow0, lemma_pow1, lemma_pow_adds, pow};
use vstd::prelude::*;

use crate::bytes::{arr32, be_nat, le32, le64};
use crate::outside::sha256_of;
use crate::spv::{
    branch_root, chain_fault, compact_target, hash_value, header_fault, header_holds, input_end,
    inputs_end, output_at, outputs_at, proof_fault, proof_holds, proof_is_sound_and_complete,
    sha256d_of, tx_outputs, varint_at, BlockHeader, HeaderView, PowFloor, ProofModel, SpvError,
};
use crate::text::decimal_text;
use crate::types::{display_text, BlockHash, Txid};

verus! {

// ---------------------------------------------------------------------------
// Targets
// ---------------------------------------------------------------------------

/// A target of three bytes is the mantissa itself.
pub proof fn a_target_of_three_bytes_is_its_mantissa(bits: u32)
    requires
        0x300_0000 <= bits < 0x400_0000,
    ensures
        compact_target(bits) == bits % 0x80_0000,
{
    lemma_pow0(256);
    let mantissa = bits % 0x80_0000;
    assert(mantissa as int / 1 == mantissa);
}

/// One more in the exponent is one more byte: the target is 256 times as high.
pub proof fn one_more_in_the_exponent_is_one_more_byte(bits: u32)
    requires
        0x300_0000 <= bits < 0x2000_0000,
    ensures
        compact_target((bits + 0x100_0000) as u32) == 256 * compact_target(bits),
{
    let next = (bits + 0x100_0000) as u32;
    let e = bits / 0x100_0000;
    let m = bits % 0x80_0000;
    assert(next / 0x100_0000 == e + 1);
    assert(next % 0x80_0000 == m);
    lemma_pow0(256);
    lemma_pow1(256);
    let p = pow(256, (e - 3) as nat);
    lemma_pow_adds(256, 1, (e - 3) as nat);
    assert(pow(256, (e + 1 - 3) as nat) == 256 * p);
    assert(m * (256 * p) == 256 * (m * p)) by (nonlinear_arith);
    vstd::arithmetic::power::lemma_pow_positive(256, (e - 3) as nat);
    assert(m * p >= 0) by (nonlinear_arith)
        requires
            p > 0,
            m >= 0,
    ;
    if e == 3 {
        assert(m as int / 1 == m);
        assert(m * 1 == m);
    }
}

/// One less in a small exponent is one byte less, and what was in it is lost.
pub proof fn one_less_in_a_small_exponent_loses_a_byte(bits: u32)
    requires
        bits < 0x300_0000,
    ensures
        compact_target(bits) == compact_target((bits + 0x100_0000) as u32) / 256,
{
    let next = (bits + 0x100_0000) as u32;
    let e = bits / 0x100_0000;
    let m = bits % 0x80_0000;
    assert(next / 0x100_0000 == e + 1);
    assert(next % 0x80_0000 == m);
    lemma_pow0(256);
    lemma_pow1(256);
    lemma_pow_adds(256, 1, 1);
    lemma_pow_adds(256, 1, 2);
    assert(pow(256, 1) == 0x100 && pow(256, 2) == 0x1_0000 && pow(256, 3) == 0x100_0000);
    if e == 0 {
        assert(m / 0x100_0000 == m / 0x1_0000 / 256);
    } else if e == 1 {
        assert(compact_target(bits) == m as int / pow(256, 2));
        assert(compact_target(next) == m as int / pow(256, 1));
        assert(m / 0x1_0000 == m / 0x100 / 256);
    } else {
        assert(compact_target(bits) == m as int / pow(256, 1));
        assert(compact_target(next) == m as int / pow(256, 0));
        assert(m as int / 1 == m);
    }
}

/// For every exponent in use a target is its mantissa times a power of 256, and fits into
/// 32 bytes.
pub proof fn a_target_is_its_mantissa_moved_up(bits: u32)
    requires
        0x300_0000 <= bits < 0x2100_0000,
    ensures
        compact_target(bits) == (bits % 0x80_0000) * pow(256, (bits / 0x100_0000 - 3) as nat),
        compact_target(bits) < pow(256, 32),
    decreases bits,
{
    let m = bits % 0x80_0000;
    let e = bits / 0x100_0000;
    if bits < 0x400_0000 {
        a_target_of_three_bytes_is_its_mantissa(bits);
        lemma_pow0(256);
        assert(m * 1 == m);
    } else {
        let less = (bits - 0x100_0000) as u32;
        assert(less % 0x80_0000 == m && less / 0x100_0000 == e - 1);
        a_target_is_its_mantissa_moved_up(less);
        one_more_in_the_exponent_is_one_more_byte(less);
        lemma_pow1(256);
        lemma_pow_adds(256, 1, (e - 4) as nat);
        let p = pow(256, (e - 4) as nat);
        assert(m * (256 * p) == 256 * (m * p)) by (nonlinear_arith);
    }
    let p = pow(256, (e - 3) as nat);
    lemma_pow1(256);
    lemma_pow_adds(256, 1, 1);
    lemma_pow_adds(256, 1, 2);
    lemma_pow_adds(256, 3, (e - 3) as nat);
    vstd::arithmetic::power::lemma_pow_positive(256, (e - 3) as nat);
    assert(m * p < 0x100_0000 * p) by (nonlinear_arith)
        requires
            m < 0x80_0000,
            p > 0,
    ;
    vstd::arithmetic::power::lemma_pow_increases(256, e as nat, 32);
}

/// What would take more than 32 bytes is a target that only the hash zero meets.
pub proof fn a_target_beyond_32_bytes_is_zero(bits: u32)
    requires
        bits >= 0x2100_0000,
    ensures
        compact_target(bits) == 0,
{
}

/// The sign bit of a mantissa counts for nothing.
pub proof fn the_sign_of_a_mantissa_is_ignored(bits: u32)
    requires
        bits % 0x100_0000 < 0x80_0000,
    ensures
        compact_target((bits + 0x80_0000) as u32) == compact_target(bits),
{
    let other = (bits + 0x80_0000) as u32;
    assert(other / 0x100_0000 == bits / 0x100_0000);
    assert(other % 0x80_0000 == bits % 0x80_0000);
}

/// A higher mantissa at one exponent is a higher target, or at least no lower one.
pub proof fn a_higher_mantissa_is_no_lower_target(a: u32, b: u32)
    requires
        a / 0x100_0000 == b / 0x100_0000,
        a % 0x80_0000 <= b % 0x80_0000,
    ensures
        compact_target(a) <= compact_target(b),
{
    let e = a / 0x100_0000;
    let m = a % 0x80_0000;
    let n = b % 0x80_0000;
    lemma_pow0(256);
    lemma_pow1(256);
    lemma_pow_adds(256, 1, 1);
    lemma_pow_adds(256, 1, 2);
    if e <= 3 {
        let p = pow(256, (3 - e) as nat);
        vstd::arithmetic::power::lemma_pow_positive(256, (3 - e) as nat);
        vstd::arithmetic::div_mod::lemma_div_is_ordered(m as int, n as int, p);
    } else if e <= 32 {
        let p = pow(256, (e - 3) as nat);
        vstd::arithmetic::power::lemma_pow_positive(256, (e - 3) as nat);
        assert(m * p <= n * p) by (nonlinear_arith)
            requires
                m <= n,
                p > 0,
        ;
    }
}

// ---------------------------------------------------------------------------
// Hashes
// ---------------------------------------------------------------------------

/// One more byte at the end of a number makes it 256 times as high, and adds the byte.
pub proof fn a_byte_more_at_the_end(s: Seq<u8>, b: u8)
    ensures
        be_nat(s.push(b)) == 256 * be_nat(s) + b,
    decreases s.len(),
{
    let t = s.push(b);
    lemma_pow0(256);
    lemma_pow1(256);
    if s.len() == 0 {
        assert(t.skip(1) =~= Seq::<u8>::empty());
        assert(t[0] * 1 == b);
        assert(be_nat(t.skip(1)) == 0);
        assert(be_nat(s) == 0);
    } else {
        a_byte_more_at_the_end(s.skip(1), b);
        assert(t.skip(1) =~= s.skip(1).push(b));
        let p = pow(256, (s.len() - 1) as nat);
        lemma_pow_adds(256, 1, (s.len() - 1) as nat);
        vstd::arithmetic::power::lemma_pow_positive(256, (s.len() - 1) as nat);
        assert(s[0] * (256 * p) == 256 * (s[0] * p)) by (nonlinear_arith);
        assert(s[0] * p >= 0) by (nonlinear_arith)
            requires
                p > 0,
        ;
    }
}

/// No bytes are zero, and a hash with one byte more in front counts that byte least: the
/// bytes of a hash stand in the reverse of the order in which numbers are written.
pub proof fn the_first_byte_of_a_hash_counts_least(hash: Seq<u8>)
    ensures
        hash.len() == 0 ==> hash_value(hash) == 0,
        hash.len() > 0 ==> hash_value(hash) == hash[0] + 256 * hash_value(hash.skip(1)),
{
    if hash.len() > 0 {
        assert(hash.reverse() =~= hash.skip(1).reverse().push(hash[0]));
        a_byte_more_at_the_end(hash.skip(1).reverse(), hash[0]);
    } else {
        assert(hash.reverse() =~= Seq::<u8>::empty());
    }
}

/// Bitcoin hashes twice.
pub proof fn bitcoin_hashes_twice(data: Seq<u8>, once: Seq<u8>)
    requires
        once == sha256_of(data),
    ensures
        sha256d_of(data) == sha256_of(once),
{
}

// ---------------------------------------------------------------------------
// Headers
// ---------------------------------------------------------------------------

/// A header is accepted exactly when the number that it hashes to is no higher than the
/// target in its bytes 72 to 76, and that target is no higher than the floor's.
pub proof fn a_header_is_accepted_for_its_work(header: Seq<u8>, floor: PowFloor, target: nat)
    requires
        header.len() == 80,
        target == compact_target(
            (header[72] + 0x100 * header[73] + 0x1_0000 * header[74] + 0x100_0000
                * header[75]) as u32,
        ),
    ensures
        header_holds(header, floor) <==> be_nat(sha256_of(sha256_of(header)).reverse()) <= target
            && target <= compact_target(floor.0),
        !header_holds(header, floor) ==> header_fault(header, floor) == (if target
            > compact_target(floor.0) {
            SpvError::BelowPowFloor
        } else {
            SpvError::InsufficientWork
        }),
{
    assert(le32(header, 72) == header[72] + 0x100 * header[73] + 0x1_0000 * header[74]
        + 0x100_0000 * header[75]);
}

/// A header that is accepted under one floor is accepted under every floor that asks for no
/// more work.
pub proof fn a_lower_floor_accepts_what_a_higher_one_does(
    header: Seq<u8>,
    floor: PowFloor,
    laxer: PowFloor,
)
    requires
        header_holds(header, floor),
        compact_target(floor.0) <= compact_target(laxer.0),
    ensures
        header_holds(header, laxer),
{
}

/// What is said of a header is what stands in it, place by place.
pub proof fn a_header_is_read_place_by_place(view: HeaderView, header: Seq<u8>)
    requires
        header.len() == 80,
        view.describes(header),
    ensures
        view.hash.0@ == sha256_of(sha256_of(header)),
        forall|i: int| 0 <= i < 32 ==> view.prev_hash.0@[i] == #[trigger] header[4 + i],
        forall|i: int| 0 <= i < 32 ==> view.merkle_root@[i] == #[trigger] header[36 + i],
        view.time == header[68] + 0x100 * header[69] + 0x1_0000 * header[70] + 0x100_0000
            * header[71],
        view.bits == header[72] + 0x100 * header[73] + 0x1_0000 * header[74] + 0x100_0000
            * header[75],
{
    assert forall|i: int| 0 <= i < 32 implies view.prev_hash.0@[i] == #[trigger] header[4 + i] by {
        assert(header.subrange(4, 36)[i] == header[4 + i]);
    }
    assert forall|i: int| 0 <= i < 32 implies view.merkle_root@[i] == #[trigger] header[36 + i] by {
        assert(header.subrange(36, 68)[i] == header[36 + i]);
    }
}

// ---------------------------------------------------------------------------
// Branches
// ---------------------------------------------------------------------------

/// A node with no branch is the root.
pub proof fn no_branch_is_the_root_itself(node: Seq<u8>, index: nat)
    ensures
        branch_root(node, Seq::empty(), index) == node,
{
}

/// One step up a branch: a node at an even place is hashed with its sibling behind it, and
/// one at an odd place with its sibling before it; the parent goes on from half the place.
pub proof fn one_step_up_a_branch(
    node: Seq<u8>,
    sibling: [u8; 32],
    rest: Seq<[u8; 32]>,
    half: nat,
)
    ensures
        branch_root(node, seq![sibling] + rest, 2 * half) == branch_root(
            sha256_of(sha256_of(node + sibling@)),
            rest,
            half,
        ),
        branch_root(node, seq![sibling] + rest, 2 * half + 1) == branch_root(
            sha256_of(sha256_of(sibling@ + node)),
            rest,
            half,
        ),
{
    let branch = seq![sibling] + rest;
    assert(branch.skip(1) =~= rest);
    assert((2 * half) / 2 == half && (2 * half + 1) / 2 == half);
}

// ---------------------------------------------------------------------------
// Proofs
// ---------------------------------------------------------------------------

/// Everything that an accepted proof establishes, and nothing else, makes it accepted: the
/// transaction is the one named and pays what is claimed, the first header is the block
/// named and commits to the transaction, and every header has done its work and follows the
/// one before.
pub proof fn a_proof_is_accepted_for_what_it_shows(
    proof: ProofModel,
    txid: Txid,
    vout: u32,
    script: Seq<u8>,
    value: u64,
    block: BlockHash,
    floor: PowFloor,
    headers: Seq<BlockHeader>,
)
    requires
        headers == seq![proof.header] + proof.following_headers,
    ensures
        proof_fault(proof, txid, vout, script, value, block, floor) is None <==> {
            &&& proof.raw_tx.len() <= 65536
            &&& proof.merkle_branch.len() <= 24
            &&& proof.following_headers.len() <= 24
            &&& txid.0@ == sha256_of(sha256_of(proof.raw_tx))
            &&& tx_outputs(proof.raw_tx) matches Ok(outputs)
            &&& vout < outputs.len()
            &&& outputs[vout as int].0 == value
            &&& outputs[vout as int].1 == script
            &&& block.0@ == sha256_of(sha256_of(headers[0].0@))
            &&& headers[0].0@.subrange(36, 68) == branch_root(
                txid.0@,
                proof.merkle_branch,
                proof.tx_index as nat,
            )
            &&& forall|i: int|
                0 <= i < headers.len() ==> header_holds((#[trigger] headers[i]).0@, floor)
            &&& forall|i: int|
                1 <= i < headers.len() ==> (#[trigger] headers[i]).0@.subrange(4, 36)
                    == sha256_of(sha256_of(headers[i - 1].0@))
        },
        proof_holds(proof, txid, vout, script, value, block, floor) <==> proof_fault(
            proof,
            txid,
            vout,
            script,
            value,
            block,
            floor,
        ) is None,
{
    proof_is_sound_and_complete(proof, txid, vout, script, value, block, floor);
    assert(headers[0] == proof.header);
    if proof_fault(proof, txid, vout, script, value, block, floor) is None {
        assert(proof_holds(proof, txid, vout, script, value, block, floor));
    }
}

/// One proof shows one payment: accepted for two amounts, scripts, ids or blocks, it would
/// be one amount, script, id and block.
pub proof fn a_proof_shows_one_payment(
    proof: ProofModel,
    txid: Txid,
    vout: u32,
    script: Seq<u8>,
    value: u64,
    block: BlockHash,
    floor: PowFloor,
    other_txid: Txid,
    other_script: Seq<u8>,
    other_value: u64,
    other_block: BlockHash,
    other_floor: PowFloor,
)
    requires
        proof_fault(proof, txid, vout, script, value, block, floor) is None,
        proof_fault(
            proof,
            other_txid,
            vout,
            other_script,
            other_value,
            other_block,
            other_floor,
        ) is None,
    ensures
        txid.0@ == other_txid.0@,
        script == other_script,
        value == other_value,
        block.0@ == other_block.0@,
{
    proof_is_sound_and_complete(proof, txid, vout, script, value, block, floor);
    proof_is_sound_and_complete(
        proof,
        other_txid,
        vout,
        other_script,
        other_value,
        other_block,
        other_floor,
    );
}

/// A fault of a proof is named wherever nothing that is looked at before it is wrong.
pub proof fn each_fault_of_a_proof_is_named(
    proof: ProofModel,
    txid: Txid,
    vout: u32,
    script: Seq<u8>,
    value: u64,
    block: BlockHash,
    floor: PowFloor,
    fault: Option<SpvError>,
)
    requires
        fault == proof_fault(proof, txid, vout, script, value, block, floor),
        proof.following_headers.len() <= 24,
        proof.raw_tx.len() <= 65536,
    ensures
        sha256_of(sha256_of(proof.raw_tx)) != txid.0@ ==> (fault matches Some(
            SpvError::TxidMismatch { computed, claimed },
        ) && claimed == txid && computed.0 == arr32(sha256_of(sha256_of(proof.raw_tx)))),
        sha256_of(sha256_of(proof.raw_tx)) == txid.0@ ==> match tx_outputs(proof.raw_tx) {
            Err(e) => fault == Some(e),
            Ok(outputs) => {
                &&& vout >= outputs.len() ==> fault == Some(SpvError::NoSuchOutput(vout))
                &&& vout < outputs.len() && outputs[vout as int].1 != script ==> fault == Some(
                    SpvError::ScriptMismatch,
                )
                &&& vout < outputs.len() && outputs[vout as int].1 == script
                    && outputs[vout as int].0 != value ==> fault == Some(
                    SpvError::ValueMismatch { in_tx: outputs[vout as int].0, claimed: value },
                )
                &&& vout < outputs.len() && outputs[vout as int] == (value, script) ==> {
                    let header = proof.header.0@;
                    let root = branch_root(txid.0@, proof.merkle_branch, proof.tx_index as nat);
                    &&& !header_holds(header, floor) ==> fault == Some(header_fault(header, floor))
                    &&& header_holds(header, floor) && sha256_of(sha256_of(header)) != block.0@
                        ==> fault == Some(SpvError::BlockHashMismatch)
                    &&& header_holds(header, floor) && sha256_of(sha256_of(header)) == block.0@
                        && proof.merkle_branch.len() > 24 ==> fault == Some(
                        SpvError::MerkleTooDeep(proof.merkle_branch.len() as usize),
                    )
                    &&& header_holds(header, floor) && sha256_of(sha256_of(header)) == block.0@
                        && proof.merkle_branch.len() <= 24 && root != header.subrange(36, 68)
                        ==> fault == Some(SpvError::MerkleMismatch)
                }
            },
        },
{
}

/// A proof that is larger than evidence may be is refused for that alone.
pub proof fn evidence_is_bounded(
    proof: ProofModel,
    txid: Txid,
    vout: u32,
    script: Seq<u8>,
    value: u64,
    block: BlockHash,
    floor: PowFloor,
)
    ensures
        proof.raw_tx.len() > 65536 ==> proof_fault(proof, txid, vout, script, value, block, floor)
            == Some(SpvError::TxTooLarge(proof.raw_tx.len() as usize)),
        proof.raw_tx.len() <= 65536 && proof.following_headers.len() > 24 ==> proof_fault(
            proof,
            txid,
            vout,
            script,
            value,
            block,
            floor,
        ) == Some(SpvError::TooManyHeaders(proof.following_headers.len() as usize)),
{
}

/// Of headers that follow a block the first that fails is named: for its work, or for its
/// place if it does not build on the one before.
pub proof fn the_first_header_that_fails_is_named(
    prev: Seq<u8>,
    headers: Seq<BlockHeader>,
    from: int,
    at: int,
    floor: PowFloor,
)
    requires
        0 <= from <= at < headers.len(),
        forall|i: int| from <= i < at ==> header_holds((#[trigger] headers[i]).0@, floor),
        forall|i: int|
            from <= i < at ==> (#[trigger] headers[i]).0@.subrange(4, 36) == (if i == from {
                prev
            } else {
                sha256_of(sha256_of(headers[i - 1].0@))
            }),
    ensures
        !header_holds(headers[at].0@, floor) ==> chain_fault(prev, headers, from, floor) == Some(
            header_fault(headers[at].0@, floor),
        ),
        header_holds(headers[at].0@, floor) && headers[at].0@.subrange(4, 36) != (if at == from {
            prev
        } else {
            sha256_of(sha256_of(headers[at - 1].0@))
        }) ==> chain_fault(prev, headers, from, floor) == Some(SpvError::BrokenChain(at as usize)),
    decreases at - from,
{
    if from < at {
        let next = sha256_of(sha256_of(headers[from].0@));
        assert forall|i: int| from + 1 <= i < at implies (#[trigger] headers[i]).0@.subrange(
            4,
            36,
        ) == (if i == from + 1 {
            next
        } else {
            sha256_of(sha256_of(headers[i - 1].0@))
        }) by {}
        assert(headers[from].0@.subrange(4, 36) == prev);
        the_first_header_that_fails_is_named(next, headers, from + 1, at, floor);
    }
}

/// A compact-size number says in its first byte how many follow: itself below 0xfd, and two,
/// four or eight bytes, least significant first, behind 0xfd, 0xfe and 0xff.
pub proof fn a_compact_size_says_how_long_it_is(b: Seq<u8>, at: int)
    requires
        0 <= at < b.len(),
    ensures
        b[at] < 0xfd ==> varint_at(b, at) == Ok::<(u64, int), SpvError>((b[at] as u64, 1)),
        b[at] == 0xfd && at + 3 <= b.len() ==> varint_at(b, at) == Ok::<(u64, int), SpvError>(
            ((b[at + 1] + 0x100 * b[at + 2]) as u64, 3),
        ),
        b[at] == 0xfe && at + 5 <= b.len() ==> varint_at(b, at) == Ok::<(u64, int), SpvError>(
            (
                (b[at + 1] + 0x100 * b[at + 2] + 0x1_0000 * b[at + 3] + 0x100_0000
                    * b[at + 4]) as u64,
                5,
            ),
        ),
        b[at] == 0xff && at + 9 <= b.len() ==> varint_at(b, at) is Ok && varint_at(b, at)->Ok_0.1
            == 9 && varint_at(b, at)->Ok_0.0 == le32(b, at + 1) + 0x1_0000_0000 * le32(b, at + 5),
        varint_at(b, at) is Err <==> at + (if b[at] < 0xfd {
            1int
        } else if b[at] == 0xfd {
            3
        } else if b[at] == 0xfe {
            5
        } else {
            9
        }) > b.len(),
{
}

// ---------------------------------------------------------------------------
// Transactions
// ---------------------------------------------------------------------------

/// No transaction is read that is too long or too short to be evidence, or that carries
/// witness data, which starts with a zero where the number of inputs would stand.
pub proof fn which_transactions_are_refused(raw: Seq<u8>)
    ensures
        raw.len() > 65536 ==> tx_outputs(raw) == Err::<Seq<(u64, Seq<u8>)>, SpvError>(
            SpvError::TxTooLarge(raw.len() as usize),
        ),
        raw.len() < 10 ==> tx_outputs(raw) is Err,
        raw.len() >= 10 && raw[4] == 0 ==> tx_outputs(raw) is Err,
{
}

/// Whether an output stands in a transaction at a place: its value first, and behind it the
/// length of its script and the script.
pub open spec fn output_stands(raw: Seq<u8>, at: int, value: u64, script: Seq<u8>) -> bool {
    exists|n: u64, w: int|
        {
            &&& 0 <= at && at + 8 + w + script.len() <= raw.len()
            &&& le64(raw, at) == value
            &&& #[trigger] varint_at(raw, at + 8) == Ok::<(u64, int), SpvError>((n, w))
            &&& script.len() == n as usize
            &&& #[trigger] raw.subrange(at + 8 + w, at + 8 + w + (n as usize)) == script
        }
}

/// Every output that is read of a transaction stands in it, each behind the one before.
pub proof fn every_output_stands_in_its_transaction(raw: Seq<u8>, i: int)
    requires
        tx_outputs(raw) is Ok,
        0 <= i < tx_outputs(raw)->Ok_0.len(),
    ensures
        exists|at: int| #[trigger]
            output_stands(raw, at, tx_outputs(raw)->Ok_0[i].0, tx_outputs(raw)->Ok_0[i].1),
{
    let (n_in, w) = varint_at(raw, 4)->Ok_0;
    let at = inputs_end(raw, 4 + w, n_in as nat)->Ok_0;
    let (n_out, v) = varint_at(raw, at)->Ok_0;
    inputs_go_forward(raw, 4 + w, n_in as nat);
    outputs_stand_in_turn(raw, at + v, n_out as nat, i);
}

proof fn inputs_go_forward(raw: Seq<u8>, at: int, n: nat)
    requires
        inputs_end(raw, at, n) is Ok,
        0 <= at,
    ensures
        inputs_end(raw, at, n)->Ok_0 >= at,
    decreases n,
{
    if n > 0 {
        inputs_go_forward(raw, input_end(raw, at)->Ok_0, (n - 1) as nat);
    }
}

proof fn outputs_stand_in_turn(raw: Seq<u8>, at: int, n: nat, i: int)
    requires
        outputs_at(raw, at, n) is Ok,
        0 <= at,
        0 <= i < outputs_at(raw, at, n)->Ok_0.len(),
    ensures
        outputs_at(raw, at, n)->Ok_0.len() == n,
        exists|p: int| #[trigger]
            output_stands(
                raw,
                p,
                outputs_at(raw, at, n)->Ok_0[i].0,
                outputs_at(raw, at, n)->Ok_0[i].1,
            ),
    decreases n,
{
    if n > 0 {
        let (first, end) = output_at(raw, at)->Ok_0;
        let (k, w) = varint_at(raw, at + 8)->Ok_0;
        assert(varint_at(raw, at + 8) == Ok::<(u64, int), SpvError>((k, w)));
        assert(raw.subrange(at + 8 + w, at + 8 + w + (k as usize)) == first.1);
        assert(output_stands(raw, at, first.0, first.1));
        let rest = outputs_at(raw, end, (n - 1) as nat)->Ok_0;
        outputs_are_as_many(raw, end, (n - 1) as nat);
        let all = outputs_at(raw, at, n)->Ok_0;
        assert(all == seq![first] + rest);
        if i > 0 {
            outputs_stand_in_turn(raw, end, (n - 1) as nat, i - 1);
            assert(all[i] == rest[i - 1]);
        } else {
            assert(all[i] == first);
        }
    }
}

proof fn outputs_are_as_many(raw: Seq<u8>, at: int, n: nat)
    requires
        outputs_at(raw, at, n) is Ok,
    ensures
        outputs_at(raw, at, n)->Ok_0.len() == n,
    decreases n,
{
    if n > 0 {
        outputs_are_as_many(raw, output_at(raw, at)->Ok_0.1, (n - 1) as nat);
    }
}

/// A fault tells what was found from what was claimed.
pub proof fn a_fault_tells_what_was_found(a: u64, b: u64, x: Txid, y: Txid, have: u32, need: u32)
    ensures
        (SpvError::ValueMismatch { in_tx: a, claimed: b }).text() == "output pays "@ + decimal_text(
            a as nat,
        ) + " sats, claim says "@ + decimal_text(b as nat),
        (SpvError::TxidMismatch { computed: x, claimed: y }).text() == "transaction hashes to "@
            + display_text(x.0@) + " but the claim names "@ + display_text(y.0@),
        (SpvError::InsufficientDepth { have, need }).text() == "proof establishes "@ + decimal_text(
            have as nat,
        ) + " confirmations, "@ + decimal_text(need as nat) + " required"@,
{
}

} // verus!
