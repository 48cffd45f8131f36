//! Verifying a Bitcoin payment from the transaction itself.
//!
//! Given a raw transaction, a Merkle branch and a run of block headers, a verifier
//! confirms that the transaction hashes to the id claimed, that the output claimed
//! pays this script this much, that the transaction is committed to by the header,
//! and that each header meets the target it names and builds on the one before.
//!
//! Which chain of headers is Bitcoin's is not checked: that remains the word of
//! whoever supplied the proof.

use vstd::arithmetic::power::{lemma_pow0, lemma_pow1, lemma_pow_adds, lemma_pow_positive, pow};
use vstd::prelude::*;

use crate::bytes::{
    arr32, arr32_of_view, array32, be_nat, comes_before, copy_range, le16, le32, le64,
    lex_is_numeric, push_all, read_le16, read_le32, read_le64, same32, same_bytes,
};
use crate::outside::{sha256, sha256_of};
use crate::text::{decimal, decimal_text, join, join3};
use crate::types::{display_text, BlockHash, Txid};

verus! {

broadcast use vstd::array::group_array_axioms;

/// Largest raw transaction accepted as evidence, in bytes.
pub const MAX_RAW_TX: usize = 65536;

/// Longest Merkle branch accepted. A branch of depth *d* covers up to `2^d`
/// transactions.
pub const MAX_MERKLE_DEPTH: usize = 24;

/// Most following headers accepted.
pub const MAX_FOLLOWING_HEADERS: usize = 24;

pub const HEADER_LEN: usize = 80;

/// An 80-byte Bitcoin block header.
#[derive(Clone, Copy, PartialEq, Eq, Debug)]
pub struct BlockHeader(pub [u8; HEADER_LEN]);

impl Default for BlockHeader {
    fn default() -> (r: Self)
        ensures
            r.0@ == Seq::new(80, |i: int| 0u8),
    {
        let r = BlockHeader([0u8; 80]);
        assert(r.0@ =~= Seq::new(80, |i: int| 0u8));
        r
    }
}

/// A minimum-work floor, as a compact `nBits` value: a header whose target is easier
/// than this one's is refused.
#[derive(Clone, Copy, PartialEq, Eq, Debug, Structural)]
pub struct PowFloor(pub u32);

impl PowFloor {
    /// No floor worth the name, for networks where difficulty is meaningless.
    pub fn none() -> (r: PowFloor)
        ensures
            r.0 == 0x207f_ffff,
    {
        PowFloor(0x207f_ffff)
    }
}

/// Self-contained evidence that a transaction is buried in a chain of headers.
#[derive(PartialEq, Eq, Debug)]
pub struct SpvProof {
    /// The transaction, serialized without witness data.
    pub raw_tx: Vec<u8>,
    /// Sibling hashes from the transaction up to the Merkle root.
    pub merkle_branch: Vec<[u8; 32]>,
    /// Index of the transaction within its block.
    pub tx_index: u32,
    /// The header of the block containing the transaction.
    pub header: BlockHeader,
    /// Headers built on top of it, oldest first.
    pub following_headers: Vec<BlockHeader>,
}

/// An [`SpvProof`] as a mathematical value.
#[verifier::ext_equal]
pub struct ProofModel {
    pub raw_tx: Seq<u8>,
    pub merkle_branch: Seq<[u8; 32]>,
    pub tx_index: u32,
    pub header: BlockHeader,
    pub following_headers: Seq<BlockHeader>,
}

impl View for SpvProof {
    type V = ProofModel;

    open spec fn view(&self) -> ProofModel {
        ProofModel {
            raw_tx: self.raw_tx@,
            merkle_branch: self.merkle_branch@,
            tx_index: self.tx_index,
            header: self.header,
            following_headers: self.following_headers@,
        }
    }
}

impl Clone for SpvProof {
    fn clone(&self) -> (r: Self)
        ensures
            r@ == self@,
    {
        let mut merkle_branch: Vec<[u8; 32]> = Vec::new();
        for i in 0..self.merkle_branch.len()
            invariant
                merkle_branch@ == self.merkle_branch@.subrange(0, i as int),
        {
            merkle_branch.push(self.merkle_branch[i]);
            assert(merkle_branch@ =~= self.merkle_branch@.subrange(0, i + 1));
        }
        let mut following_headers: Vec<BlockHeader> = Vec::new();
        for i in 0..self.following_headers.len()
            invariant
                following_headers@ == self.following_headers@.subrange(0, i as int),
        {
            following_headers.push(self.following_headers[i]);
            assert(following_headers@ =~= self.following_headers@.subrange(0, i + 1));
        }
        let r = SpvProof {
            raw_tx: copy_range(&self.raw_tx, 0, self.raw_tx.len()),
            merkle_branch,
            tx_index: self.tx_index,
            header: self.header,
            following_headers,
        };
        assert(r@ =~= self@);
        r
    }
}

/// Why evidence was refused.
#[derive(Clone, PartialEq, Eq, Debug)]
pub enum SpvError {
    TxTooLarge(usize),
    MalformedTx(&'static str),
    /// The transaction does not hash to the txid the claim names.
    TxidMismatch { computed: Txid, claimed: Txid },
    NoSuchOutput(u32),
    /// The output exists but pays a different script.
    ScriptMismatch,
    /// The output exists but for a different amount.
    ValueMismatch { in_tx: u64, claimed: u64 },
    MerkleTooDeep(usize),
    /// The Merkle fold did not reach the header's root.
    MerkleMismatch,
    /// The header does not hash to the block hash the claim names.
    BlockHashMismatch,
    /// A header's hash does not satisfy its own target.
    InsufficientWork,
    /// A header claims easier work than the configured floor.
    BelowPowFloor,
    /// A following header does not build on its predecessor.
    BrokenChain(usize),
    TooManyHeaders(usize),
    /// The proof carries fewer headers than the required depth.
    InsufficientDepth { have: u32, need: u32 },
}

impl SpvError {
    /// What the error says.
    pub open spec fn text(self) -> Seq<char> {
        match self {
            SpvError::TxTooLarge(n) => "raw transaction is "@ + decimal_text(n as nat)
                + " bytes, cap is 65536"@,
            SpvError::MalformedTx(w) => "malformed transaction: "@ + w@,
            SpvError::TxidMismatch { computed, claimed } => "transaction hashes to "@
                + display_text(computed.0@) + " but the claim names "@ + display_text(claimed.0@),
            SpvError::NoSuchOutput(v) => "transaction has no output "@ + decimal_text(v as nat),
            SpvError::ScriptMismatch => "that output pays a different script"@,
            SpvError::ValueMismatch { in_tx, claimed } => "output pays "@ + decimal_text(
                in_tx as nat,
            ) + " sats, claim says "@ + decimal_text(claimed as nat),
            SpvError::MerkleTooDeep(d) => "merkle branch depth "@ + decimal_text(d as nat)
                + " exceeds 24"@,
            SpvError::MerkleMismatch => "merkle branch does not reach the block's root"@,
            SpvError::BlockHashMismatch => "header does not hash to the claimed block"@,
            SpvError::InsufficientWork => "block header does not meet its own target"@,
            SpvError::BelowPowFloor => "block header claims less work than permitted"@,
            SpvError::BrokenChain(i) => "following header "@ + decimal_text(i as nat)
                + " does not build on its predecessor"@,
            SpvError::TooManyHeaders(n) => decimal_text(n as nat)
                + " following headers, cap is 24"@,
            SpvError::InsufficientDepth { have, need } => "proof establishes "@ + decimal_text(
                have as nat,
            ) + " confirmations, "@ + decimal_text(need as nat) + " required"@,
        }
    }

    /// What the error says.
    pub fn message(&self) -> (r: String)
        ensures
            r@ == self.text(),
    {
        match self {
            SpvError::TxTooLarge(n) => join3(
                "raw transaction is ",
                &decimal(*n as u64),
                " bytes, cap is 65536",
            ),
            SpvError::MalformedTx(w) => join("malformed transaction: ", w),
            SpvError::TxidMismatch { computed, claimed } => {
                let head = join3(
                    "transaction hashes to ",
                    &computed.to_display_string(),
                    " but the claim names ",
                );
                join(&head, &claimed.to_display_string())
            },
            SpvError::NoSuchOutput(v) => join("transaction has no output ", &decimal(*v as u64)),
            SpvError::ScriptMismatch => "that output pays a different script".to_owned(),
            SpvError::ValueMismatch { in_tx, claimed } => {
                let head = join3("output pays ", &decimal(*in_tx), " sats, claim says ");
                join(&head, &decimal(*claimed))
            },
            SpvError::MerkleTooDeep(d) => join3(
                "merkle branch depth ",
                &decimal(*d as u64),
                " exceeds 24",
            ),
            SpvError::MerkleMismatch => "merkle branch does not reach the block's root".to_owned(),
            SpvError::BlockHashMismatch => "header does not hash to the claimed block".to_owned(),
            SpvError::InsufficientWork => "block header does not meet its own target".to_owned(),
            SpvError::BelowPowFloor => "block header claims less work than permitted".to_owned(),
            SpvError::BrokenChain(i) => join3(
                "following header ",
                &decimal(*i as u64),
                " does not build on its predecessor",
            ),
            SpvError::TooManyHeaders(n) => join(
                &decimal(*n as u64),
                " following headers, cap is 24",
            ),
            SpvError::InsufficientDepth { have, need } => {
                let head = join3("proof establishes ", &decimal(*have as u64), " confirmations, ");
                join3(&head, &decimal(*need as u64), " required")
            },
        }
    }
}

// ---------------------------------------------------------------------------
// Transactions
// ---------------------------------------------------------------------------

/// Bitcoin's double SHA-256.
pub open spec fn sha256d_of(data: Seq<u8>) -> Seq<u8> {
    sha256_of(sha256_of(data))
}

pub fn sha256d(data: &[u8]) -> (r: [u8; 32])
    ensures
        r@ == sha256d_of(data@),
{
    let first = sha256(data);
    sha256(&first)
}

/// A compact-size integer at `at`: its value and its width.
pub open spec fn varint_at(b: Seq<u8>, at: int) -> Result<(u64, int), SpvError> {
    if at >= b.len() {
        Err(SpvError::MalformedTx("truncated varint"))
    } else if b[at] < 0xfd {
        Ok((b[at] as u64, 1))
    } else {
        let n: int = if b[at] == 0xfd {
            2
        } else if b[at] == 0xfe {
            4
        } else {
            8
        };
        if b.len() < at + 1 + n {
            Err(SpvError::MalformedTx("truncated varint body"))
        } else if n == 2 {
            Ok((le16(b, at + 1) as u64, 3))
        } else if n == 4 {
            Ok((le32(b, at + 1) as u64, 5))
        } else {
            Ok((le64(b, at + 1) as u64, 9))
        }
    }
}

/// Decode a compact-size integer, returning the value and its width.
pub fn read_varint(b: &[u8], at: usize) -> (r: Result<(u64, usize), SpvError>)
    ensures
        r is Ok <==> varint_at(b@, at as int) is Ok,
        r matches Ok((n, w)) ==> varint_at(b@, at as int)->Ok_0 == (n, w as int) && 1 <= w <= 9
            && at + w <= b@.len(),
        r matches Err(e) ==> varint_at(b@, at as int)->Err_0 == e,
{
    assert(b.len() == b@.len());
    if at >= b.len() {
        return Err(SpvError::MalformedTx("truncated varint"));
    }
    let first: u8 = b[at];
    if first < 0xfd {
        return Ok((first as u64, 1));
    }
    let left: usize = b.len() - at - 1;
    if first == 0xfd {
        if left < 2 {
            return Err(SpvError::MalformedTx("truncated varint body"));
        }
        Ok((read_le16(b, at + 1) as u64, 3))
    } else if first == 0xfe {
        if left < 4 {
            return Err(SpvError::MalformedTx("truncated varint body"));
        }
        Ok((read_le32(b, at + 1) as u64, 5))
    } else {
        if left < 8 {
            return Err(SpvError::MalformedTx("truncated varint body"));
        }
        Ok((read_le64(b, at + 1), 9))
    }
}

/// One output of a Bitcoin transaction.
#[derive(PartialEq, Eq, Debug)]
pub struct TxOutput {
    pub value_sats: u64,
    pub script_pubkey: Vec<u8>,
}

impl Clone for TxOutput {
    fn clone(&self) -> (r: Self)
        ensures
            r@ == self@,
    {
        let r = TxOutput {
            value_sats: self.value_sats,
            script_pubkey: copy_range(&self.script_pubkey, 0, self.script_pubkey.len()),
        };
        assert(r.script_pubkey@ =~= self.script_pubkey@);
        r
    }
}

/// An amount in satoshis and the script it is paid to.
pub type Payment = (u64, Seq<u8>);

impl View for TxOutput {
    type V = Payment;

    open spec fn view(&self) -> Payment {
        (self.value_sats, self.script_pubkey@)
    }
}

/// Where the input that starts at `at` ends: 36 bytes of previous output, a script
/// with its length before it, and 4 bytes of sequence.
pub open spec fn input_end(raw: Seq<u8>, at: int) -> Result<int, SpvError> {
    match varint_at(raw, at + 36) {
        Err(e) => Err(e),
        Ok((n, w)) => {
            let end = at + 36 + w + (n as usize) + 4;
            if end > usize::MAX {
                Err(SpvError::MalformedTx("input script overflow"))
            } else if end > raw.len() {
                Err(SpvError::MalformedTx("truncated inputs"))
            } else {
                Ok(end)
            }
        },
    }
}

/// Where `n` inputs that start at `at` end.
pub open spec fn inputs_end(raw: Seq<u8>, at: int, n: nat) -> Result<int, SpvError>
    decreases n,
{
    if n == 0 {
        Ok(at)
    } else {
        match input_end(raw, at) {
            Err(e) => Err(e),
            Ok(end) => inputs_end(raw, end, (n - 1) as nat),
        }
    }
}

/// The output that starts at `at`, 8 bytes of value and a script with its length
/// before it, and where it ends.
pub open spec fn output_at(raw: Seq<u8>, at: int) -> Result<(Payment, int), SpvError> {
    if at + 8 > raw.len() {
        Err(SpvError::MalformedTx("truncated output value"))
    } else {
        match varint_at(raw, at + 8) {
            Err(e) => Err(e),
            Ok((n, w)) => {
                let start = at + 8 + w;
                let end = start + (n as usize);
                if end > usize::MAX {
                    Err(SpvError::MalformedTx("output script overflow"))
                } else if end > raw.len() {
                    Err(SpvError::MalformedTx("truncated output script"))
                } else {
                    Ok(((le64(raw, at) as u64, raw.subrange(start, end)), end))
                }
            },
        }
    }
}

/// The `n` outputs that start at `at`.
pub open spec fn outputs_at(raw: Seq<u8>, at: int, n: nat) -> Result<Seq<Payment>, SpvError>
    decreases n,
{
    if n == 0 {
        Ok(Seq::empty())
    } else {
        match output_at(raw, at) {
            Err(e) => Err(e),
            Ok((first, end)) => match outputs_at(raw, end, (n - 1) as nat) {
                Err(e) => Err(e),
                Ok(rest) => Ok(seq![first] + rest),
            },
        }
    }
}

/// The outputs of a transaction in its legacy serialization: a version, inputs,
/// outputs and whatever follows.
pub open spec fn tx_outputs(raw: Seq<u8>) -> Result<Seq<Payment>, SpvError> {
    if raw.len() > MAX_RAW_TX {
        Err(SpvError::TxTooLarge(raw.len() as usize))
    } else if raw.len() < 10 {
        Err(SpvError::MalformedTx("too short to be a transaction"))
    } else if raw[4] == 0 {
        Err(
            SpvError::MalformedTx(
                "witness data present; evidence must use the witness-stripped serialization",
            ),
        )
    } else {
        match varint_at(raw, 4) {
            Err(e) => Err(e),
            Ok((n_in, w)) => match inputs_end(raw, 4 + w, n_in as nat) {
                Err(e) => Err(e),
                Ok(at) => match varint_at(raw, at) {
                    Err(e) => Err(e),
                    Ok((n_out, w)) => if (n_out as usize) > raw.len() {
                        Err(SpvError::MalformedTx("implausible output count"))
                    } else {
                        outputs_at(raw, at + w, n_out as nat)
                    },
                },
            },
        }
    }
}

pub open spec fn payments(outputs: Seq<TxOutput>) -> Seq<Payment> {
    outputs.map_values(|o: TxOutput| o@)
}

fn skip_inputs(raw: &[u8], start: usize, n: u64) -> (r: Result<usize, SpvError>)
    requires
        start <= raw@.len() <= MAX_RAW_TX,
    ensures
        r is Ok <==> inputs_end(raw@, start as int, n as nat) is Ok,
        r matches Ok(at) ==> inputs_end(raw@, start as int, n as nat)->Ok_0 == at && at
            <= raw@.len(),
        r matches Err(e) ==> inputs_end(raw@, start as int, n as nat)->Err_0 == e,
{
    let mut at: usize = start;
    let mut left: u64 = n;
    while left > 0
        invariant
            at <= raw@.len() <= MAX_RAW_TX,
            inputs_end(raw@, start as int, n as nat) == inputs_end(raw@, at as int, left as nat),
        decreases left,
    {
        let (script_len, w) = match read_varint(raw, at + 36) {
            Err(e) => {
                return Err(e);
            },
            Ok(p) => p,
        };
        let script_at: usize = at + 36 + w;
        let end: usize = match script_at.checked_add(script_len as usize) {
            None => {
                return Err(SpvError::MalformedTx("input script overflow"));
            },
            Some(x) => match x.checked_add(4) {
                None => {
                    return Err(SpvError::MalformedTx("input script overflow"));
                },
                Some(y) => y,
            },
        };
        if end > raw.len() {
            return Err(SpvError::MalformedTx("truncated inputs"));
        }
        at = end;
        left = left - 1;
    }
    Ok(at)
}

fn read_outputs(raw: &[u8], start: usize, n: u64) -> (r: Result<Vec<TxOutput>, SpvError>)
    requires
        start <= raw@.len() <= MAX_RAW_TX,
    ensures
        r is Ok <==> outputs_at(raw@, start as int, n as nat) is Ok,
        r matches Ok(v) ==> outputs_at(raw@, start as int, n as nat)->Ok_0 == payments(v@),
        r matches Err(e) ==> outputs_at(raw@, start as int, n as nat)->Err_0 == e,
{
    let mut outputs: Vec<TxOutput> = Vec::new();
    let mut at: usize = start;
    let mut left: u64 = n;
    assert(payments(outputs@) =~= Seq::empty());
    assert(outputs_at(raw@, start as int, n as nat) is Ok ==> payments(outputs@) + outputs_at(
        raw@,
        start as int,
        n as nat,
    )->Ok_0 =~= outputs_at(raw@, start as int, n as nat)->Ok_0);
    while left > 0
        invariant
            at <= raw@.len() <= MAX_RAW_TX,
            match outputs_at(raw@, at as int, left as nat) {
                Ok(rest) => {
                    &&& outputs_at(raw@, start as int, n as nat) is Ok
                    &&& outputs_at(raw@, start as int, n as nat)->Ok_0 == payments(outputs@) + rest
                },
                Err(e) => {
                    &&& outputs_at(raw@, start as int, n as nat) is Err
                    &&& outputs_at(raw@, start as int, n as nat)->Err_0 == e
                },
            },
        decreases left,
    {
        assert(raw.len() == raw@.len());
        let ghost rest = outputs_at(raw@, at as int, left as nat);
        if raw.len() - at < 8 {
            return Err(SpvError::MalformedTx("truncated output value"));
        }
        let value_sats: u64 = read_le64(raw, at);
        let (script_len, w) = match read_varint(raw, at + 8) {
            Err(e) => {
                return Err(e);
            },
            Ok(p) => p,
        };
        let script_at: usize = at + 8 + w;
        let end: usize = match script_at.checked_add(script_len as usize) {
            None => {
                return Err(SpvError::MalformedTx("output script overflow"));
            },
            Some(x) => x,
        };
        if end > raw.len() {
            return Err(SpvError::MalformedTx("truncated output script"));
        }
        let output = TxOutput { value_sats, script_pubkey: copy_range(raw, script_at, end) };
        let ghost before = payments(outputs@);
        outputs.push(output);
        proof {
            assert(payments(outputs@) =~= before.push(output@));
            let tail = outputs_at(raw@, end as int, (left - 1) as nat);
            if tail is Ok {
                assert(before + (seq![output@] + tail->Ok_0) =~= payments(outputs@) + tail->Ok_0);
            }
        }
        at = end;
        left = left - 1;
    }
    assert(payments(outputs@) + Seq::<Payment>::empty() =~= payments(outputs@));
    Ok(outputs)
}

/// Parse the outputs of a witness-stripped transaction.
///
/// A transaction that carries witness data does not hash to its own txid, so the
/// marker that announces one is refused.
pub fn parse_tx_outputs(raw: &[u8]) -> (r: Result<Vec<TxOutput>, SpvError>)
    ensures
        r is Ok <==> tx_outputs(raw@) is Ok,
        r matches Ok(v) ==> tx_outputs(raw@)->Ok_0 == payments(v@),
        r matches Err(e) ==> tx_outputs(raw@)->Err_0 == e,
{
    if raw.len() > MAX_RAW_TX {
        return Err(SpvError::TxTooLarge(raw.len()));
    }
    if raw.len() < 10 {
        return Err(SpvError::MalformedTx("too short to be a transaction"));
    }
    if raw[4] == 0x00 {
        return Err(
            SpvError::MalformedTx(
                "witness data present; evidence must use the witness-stripped serialization",
            ),
        );
    }
    let (n_in, w) = match read_varint(raw, 4) {
        Err(e) => {
            return Err(e);
        },
        Ok(p) => p,
    };
    let at: usize = match skip_inputs(raw, 4 + w, n_in) {
        Err(e) => {
            return Err(e);
        },
        Ok(at) => at,
    };
    let (n_out, w) = match read_varint(raw, at) {
        Err(e) => {
            return Err(e);
        },
        Ok(p) => p,
    };
    if n_out as usize > raw.len() {
        return Err(SpvError::MalformedTx("implausible output count"));
    }
    read_outputs(raw, at + w, n_out)
}

// ---------------------------------------------------------------------------
// Headers
// ---------------------------------------------------------------------------

/// The target that a compact `nBits` value stands for: 23 bits of mantissa, moved up
/// by a number of bytes. A target of more than 32 bytes counts as zero, which no
/// hash meets.
pub open spec fn compact_target(bits: u32) -> nat {
    let exponent = bits / 0x100_0000;
    let mantissa = bits % 0x80_0000;
    if exponent <= 3 {
        (mantissa as int / pow(256, (3 - exponent) as nat)) as nat
    } else if exponent <= 32 {
        (mantissa * pow(256, (exponent - 3) as nat)) as nat
    } else {
        0
    }
}

/// A run of zeros is zero.
proof fn zeros_are_zero(s: Seq<u8>)
    requires
        forall|i: int| 0 <= i < s.len() ==> s[i] == 0,
    ensures
        be_nat(s) == 0,
    decreases s.len(),
{
    if s.len() > 0 {
        zeros_are_zero(s.skip(1));
        assert(0 * pow(256, (s.len() - 1) as nat) == 0) by (nonlinear_arith);
    }
}

/// Three bytes with nothing but zeros around them are their own number, moved up by
/// the bytes that follow.
proof fn three_bytes(s: Seq<u8>, start: int)
    requires
        0 <= start,
        start + 3 <= s.len(),
        forall|i: int| 0 <= i < s.len() && !(start <= i < start + 3) ==> s[i] == 0,
    ensures
        be_nat(s) == (0x1_0000 * s[start] + 0x100 * s[start + 1] + s[start + 2]) * pow(
            256,
            (s.len() - start - 3) as nat,
        ),
    decreases start,
{
    if start > 0 {
        let t = s.skip(1);
        assert forall|i: int| 0 <= i < t.len() && !(start - 1 <= i < start + 2) implies t[i]
            == 0 by {
            assert(t[i] == s[i + 1]);
        }
        three_bytes(t, start - 1);
        assert(t[start - 1] == s[start]);
        assert(t[start] == s[start + 1]);
        assert(t[start + 1] == s[start + 2]);
        assert(0 * pow(256, (s.len() - 1) as nat) == 0) by (nonlinear_arith);
    } else {
        let n = (s.len() - 3) as nat;
        let p = pow(256, n);
        let t = s.skip(1);
        let u = t.skip(1);
        let v = u.skip(1);
        assert(t[0] == s[1] && u[0] == s[2]);
        assert forall|i: int| 0 <= i < v.len() implies v[i] == 0 by {
            assert(v[i] == s[i + 3]);
        }
        zeros_are_zero(v);
        lemma_pow1(256);
        lemma_pow_adds(256, 1, n);
        lemma_pow_adds(256, 1, n + 1);
        lemma_pow_positive(256, n);
        assert(pow(256, n + 1) == 256 * p);
        assert(pow(256, n + 2) == 0x1_0000 * p);
        assert(be_nat(u) == u[0] * p + 0);
        assert(u[0] * p >= 0 && t[0] * (256 * p) >= 0 && s[0] * (0x1_0000 * p) >= 0)
            by (nonlinear_arith)
            requires
                p > 0,
                u[0] >= 0,
                t[0] >= 0,
                s[0] >= 0,
        ;
        assert(be_nat(t) == t[0] * (256 * p) + u[0] * p);
        assert(be_nat(s) == s[0] * (0x1_0000 * p) + (t[0] * (256 * p) + u[0] * p));
        assert(s[0] * (0x1_0000 * p) + (t[0] * (256 * p) + u[0] * p) == (0x1_0000 * s[0] + 0x100
            * t[0] + u[0]) * p) by (nonlinear_arith);
    }
}

/// The `k`th byte of the mantissa of a compact target, counted from the highest.
pub open spec fn mantissa_byte(bits: u32, k: int) -> u32 {
    if k == 0 {
        bits / 0x1_0000 % 0x80
    } else if k == 1 {
        bits / 0x100 % 0x100
    } else if k == 2 {
        bits % 0x100
    } else {
        0
    }
}

proof fn mantissa_bytes(bits: u32, mantissa: u32)
    requires
        mantissa == bits % 0x80_0000,
    ensures
        mantissa / 0x1_0000 == bits / 0x1_0000 % 0x80,
        mantissa / 0x100 % 0x100 == bits / 0x100 % 0x100,
        mantissa % 0x100 == bits % 0x100,
        mantissa / 0x100 / 0x100 == mantissa / 0x1_0000,
        mantissa < 0x80_0000,
{
    assert(mantissa / 0x1_0000 == bits / 0x1_0000 % 0x80 && mantissa / 0x100 % 0x100 == bits / 0x100
        % 0x100 && mantissa % 0x100 == bits % 0x100 && mantissa / 0x100 / 0x100 == mantissa
        / 0x1_0000) by (bit_vector)
        requires
            mantissa == bits % 0x80_0000,
    ;
}

/// Expand a compact `nBits` into a 256-bit target, most significant byte first.
pub fn target_from_bits(bits: u32) -> (r: [u8; 32])
    ensures
        be_nat(r@) == compact_target(bits),
        bits >= 0x2100_0000 ==> forall|i: int| 0 <= i < 32 ==> #[trigger] r@[i] == 0,
        // The bytes of the mantissa stand as far from the end as the exponent says.
        bits < 0x2100_0000 ==> forall|i: int|
            0 <= i < 32 ==> #[trigger] r@[i] == mantissa_byte(bits, i + bits / 0x100_0000 - 32),
{
    let exponent: u32 = bits / 0x100_0000;
    let mantissa: u32 = bits % 0x80_0000;
    let mut target = [0u8; 32];
    if exponent > 32 {
        proof {
            zeros_are_zero(target@);
        }
        return target;
    }
    proof {
        lemma_pow0(256);
        lemma_pow1(256);
        lemma_pow_adds(256, 1, 1);
        lemma_pow_adds(256, 1, 2);
    }
    let shifted: u32 = if exponent >= 3 {
        mantissa
    } else if exponent == 2 {
        mantissa / 0x100
    } else if exponent == 1 {
        mantissa / 0x1_0000
    } else {
        0
    };
    let start: usize = if exponent <= 3 {
        29
    } else {
        32 - exponent as usize
    };
    target[start] = (shifted / 0x1_0000) as u8;
    target[start + 1] = (shifted / 0x100 % 0x100) as u8;
    target[start + 2] = (shifted % 0x100) as u8;
    proof {
        mantissa_bytes(bits, mantissa);
        assert(exponent < 3 ==> shifted / 0x1_0000 == 0);
        assert forall|i: int| 0 <= i < 32 implies #[trigger] target@[i] == mantissa_byte(
            bits,
            i + bits / 0x100_0000 - 32,
        ) by {
            if i < start || i > start + 2 {
                assert(target@[i] == 0);
            }
        }
        three_bytes(target@, start as int);
        assert(0x1_0000 * target@[start as int] + 0x100 * target@[start + 1] + target@[start + 2]
            == shifted);
        if exponent <= 3 {
            assert(shifted * pow(256, 0) == shifted) by (nonlinear_arith)
                requires
                    pow(256, 0) == 1,
            ;
            assert(pow(256, 1) == 0x100 && pow(256, 2) == 0x1_0000 && pow(256, 3) == 0x100_0000);
            if exponent == 3 {
                assert(mantissa as int / pow(256, 0) == shifted);
            } else if exponent == 2 {
                assert(mantissa as int / pow(256, 1) == shifted);
            } else if exponent == 1 {
                assert(mantissa as int / pow(256, 2) == shifted);
            } else {
                assert(mantissa as int / pow(256, 3) == shifted);
            }
        }
    }
    target
}

/// The number that a hash in internal byte order stands for.
pub open spec fn hash_value(hash: Seq<u8>) -> nat {
    be_nat(hash.reverse())
}

/// Whether `hash`, in internal byte order, satisfies `target`.
pub fn meets_target(hash: &[u8; 32], target: &[u8; 32]) -> (r: bool)
    ensures
        r == (hash_value(hash@) <= be_nat(target@)),
{
    let mut value = [0u8; 32];
    for i in 0..32usize
        invariant
            forall|j: int| 0 <= j < i ==> value@[j] == hash@[31 - j],
    {
        value[i] = hash[31 - i];
    }
    assert(value@ =~= hash@.reverse());
    proof {
        lex_is_numeric(target@, value@);
    }
    !comes_before(target, &value)
}

/// The pieces of a block header a verifier needs.
#[derive(Clone, Copy, PartialEq, Eq, Debug)]
pub struct HeaderView {
    pub hash: BlockHash,
    pub prev_hash: BlockHash,
    pub merkle_root: [u8; 32],
    pub time: u32,
    pub bits: u32,
}

/// The compact target that a header names.
pub open spec fn header_bits(header: Seq<u8>) -> u32 {
    le32(header, 72) as u32
}

/// Whether a header claims enough work and has done it.
pub open spec fn header_holds(header: Seq<u8>, floor: PowFloor) -> bool {
    &&& compact_target(header_bits(header)) <= compact_target(floor.0)
    &&& hash_value(sha256d_of(header)) <= compact_target(header_bits(header))
}

impl HeaderView {
    /// Whether this is what `header` says.
    pub open spec fn describes(self, header: Seq<u8>) -> bool {
        &&& self.hash.0@ == sha256d_of(header)
        &&& self.prev_hash.0@ == header.subrange(4, 36)
        &&& self.merkle_root@ == header.subrange(36, 68)
        &&& self.time == le32(header, 68)
        &&& self.bits == header_bits(header)
    }
}

/// Read a header and check that it satisfies its own target and the floor.
pub fn verify_header(header: &BlockHeader, floor: PowFloor) -> (r: Result<HeaderView, SpvError>)
    ensures
        r is Ok <==> header_holds(header.0@, floor),
        r matches Ok(v) ==> v.describes(header.0@),
        r matches Err(e) ==> e == header_fault(header.0@, floor),
{
    let h = &header.0;
    let hash = sha256d(h);
    let time: u32 = read_le32(h, 68);
    let bits: u32 = read_le32(h, 72);
    let floor_target = target_from_bits(floor.0);
    let this_target = target_from_bits(bits);
    proof {
        lex_is_numeric(floor_target@, this_target@);
    }
    if comes_before(&floor_target, &this_target) {
        return Err(SpvError::BelowPowFloor);
    }
    if !meets_target(&hash, &this_target) {
        return Err(SpvError::InsufficientWork);
    }
    Ok(
        HeaderView {
            hash: BlockHash(hash),
            prev_hash: BlockHash(array32(h, 4)),
            merkle_root: array32(h, 36),
            time,
            bits,
        },
    )
}

/// Why a header that does not hold is refused.
pub open spec fn header_fault(header: Seq<u8>, floor: PowFloor) -> SpvError {
    if compact_target(header_bits(header)) > compact_target(floor.0) {
        SpvError::BelowPowFloor
    } else {
        SpvError::InsufficientWork
    }
}

// ---------------------------------------------------------------------------
// Merkle branches
// ---------------------------------------------------------------------------

/// The parent of two Merkle nodes.
pub open spec fn merkle_parent(left: Seq<u8>, right: Seq<u8>) -> Seq<u8> {
    sha256d_of(left + right)
}

/// What a node folds to up a branch, where the bits of `index` say on which side it
/// stands at each level.
pub open spec fn branch_root(node: Seq<u8>, branch: Seq<[u8; 32]>, index: nat) -> Seq<u8>
    decreases branch.len(),
{
    if branch.len() == 0 {
        node
    } else {
        let parent = if index % 2 == 0 {
            merkle_parent(node, branch[0]@)
        } else {
            merkle_parent(branch[0]@, node)
        };
        branch_root(parent, branch.skip(1), index / 2)
    }
}

/// The hash of two Merkle nodes side by side.
pub fn parent_of(left: &[u8; 32], right: &[u8; 32]) -> (r: [u8; 32])
    ensures
        r@ == merkle_parent(left@, right@),
{
    let mut both: Vec<u8> = Vec::new();
    push_all(&mut both, left);
    push_all(&mut both, right);
    assert(both@ =~= left@ + right@);
    sha256d(&both)
}

/// Fold a txid up a Merkle branch to a root.
pub fn merkle_root_from_branch(txid: &Txid, branch: &[[u8; 32]], index: u32) -> (r: Result<
    [u8; 32],
    SpvError,
>)
    ensures
        r is Ok <==> branch@.len() <= MAX_MERKLE_DEPTH,
        r matches Ok(root) ==> root@ == branch_root(txid.0@, branch@, index as nat),
        r matches Err(e) ==> e == SpvError::MerkleTooDeep(branch@.len() as usize),
{
    if branch.len() > MAX_MERKLE_DEPTH {
        return Err(SpvError::MerkleTooDeep(branch.len()));
    }
    let mut node: [u8; 32] = txid.0;
    let mut position: u32 = index;
    assert(branch@.skip(0) =~= branch@);
    for i in 0..branch.len()
        invariant
            branch_root(txid.0@, branch@, index as nat) == branch_root(
                node@,
                branch@.skip(i as int),
                position as nat,
            ),
    {
        let sibling = &branch[i];
        assert(branch@.skip(i as int)[0] == branch@[i as int]);
        assert(branch@.skip(i as int).skip(1) =~= branch@.skip(i + 1));
        node = if position % 2 == 0 {
            parent_of(&node, sibling)
        } else {
            parent_of(sibling, &node)
        };
        position = position / 2;
    }
    Ok(node)
}

// ---------------------------------------------------------------------------
// Proofs
// ---------------------------------------------------------------------------

/// What a verified SPV proof establishes.
#[derive(Clone, PartialEq, Eq, Debug)]
pub struct SpvVerified {
    pub txid: Txid,
    pub block_hash: BlockHash,
    pub value_sats: u64,
    /// Confirmations proven by the headers supplied: 1 + following headers.
    pub depth: u32,
}

/// Why headers from the `i`th on, each building on the one before, are refused.
pub open spec fn chain_fault(
    prev: Seq<u8>,
    headers: Seq<BlockHeader>,
    i: int,
    floor: PowFloor,
) -> Option<SpvError>
    decreases headers.len() - i,
{
    if i >= headers.len() {
        None
    } else {
        let h = headers[i].0@;
        if !header_holds(h, floor) {
            Some(header_fault(h, floor))
        } else if h.subrange(4, 36) != prev {
            Some(SpvError::BrokenChain(i as usize))
        } else {
            chain_fault(sha256d_of(h), headers, i + 1, floor)
        }
    }
}

/// The first check that a proof fails, if it fails one.
pub open spec fn proof_fault(
    proof: ProofModel,
    txid: Txid,
    vout: u32,
    script: Seq<u8>,
    value: u64,
    block: BlockHash,
    floor: PowFloor,
) -> Option<SpvError> {
    let computed = sha256d_of(proof.raw_tx);
    let header = proof.header.0@;
    if proof.raw_tx.len() > MAX_RAW_TX {
        Some(SpvError::TxTooLarge(proof.raw_tx.len() as usize))
    } else if proof.following_headers.len() > MAX_FOLLOWING_HEADERS {
        Some(SpvError::TooManyHeaders(proof.following_headers.len() as usize))
    } else if computed != txid.0@ {
        Some(SpvError::TxidMismatch { computed: Txid(arr32(computed)), claimed: txid })
    } else {
        match tx_outputs(proof.raw_tx) {
            Err(e) => Some(e),
            Ok(outputs) => if vout >= outputs.len() {
                Some(SpvError::NoSuchOutput(vout))
            } else if outputs[vout as int].1 != script {
                Some(SpvError::ScriptMismatch)
            } else if outputs[vout as int].0 != value {
                Some(SpvError::ValueMismatch { in_tx: outputs[vout as int].0, claimed: value })
            } else if !header_holds(header, floor) {
                Some(header_fault(header, floor))
            } else if sha256d_of(header) != block.0@ {
                Some(SpvError::BlockHashMismatch)
            } else if proof.merkle_branch.len() > MAX_MERKLE_DEPTH {
                Some(SpvError::MerkleTooDeep(proof.merkle_branch.len() as usize))
            } else if branch_root(computed, proof.merkle_branch, proof.tx_index as nat)
                != header.subrange(36, 68) {
                Some(SpvError::MerkleMismatch)
            } else {
                chain_fault(sha256d_of(header), proof.following_headers, 0, floor)
            },
        }
    }
}

/// What a proof that no check refuses establishes, check by check.
pub open spec fn proof_holds(
    proof: ProofModel,
    txid: Txid,
    vout: u32,
    script: Seq<u8>,
    value: u64,
    block: BlockHash,
    floor: PowFloor,
) -> bool {
    let header = proof.header.0@;
    let headers = seq![proof.header] + proof.following_headers;
    // The transaction is the one named, and that output of it pays this script this much.
    &&& sha256d_of(proof.raw_tx) == txid.0@
    &&& tx_outputs(proof.raw_tx) is Ok
    &&& vout < tx_outputs(proof.raw_tx)->Ok_0.len()
    &&& tx_outputs(proof.raw_tx)->Ok_0[vout as int] == (value, script)
    // The block is the one named, and it commits to the transaction.
    &&& sha256d_of(header) == block.0@
    &&& branch_root(txid.0@, proof.merkle_branch, proof.tx_index as nat) == header.subrange(36, 68)
    // Every header has done the work it claims, and builds on the one before.
    &&& forall|i: int| 0 <= i < headers.len() ==> header_holds((#[trigger] headers[i]).0@, floor)
    &&& forall|i: int|
        0 < i < headers.len() ==> (#[trigger] headers[i]).0@.subrange(4, 36) == sha256d_of(
            headers[i - 1].0@,
        )
    &&& proof.raw_tx.len() <= MAX_RAW_TX
    &&& proof.merkle_branch.len() <= MAX_MERKLE_DEPTH
    &&& proof.following_headers.len() <= MAX_FOLLOWING_HEADERS
}

proof fn chain_fault_is_none(prev: Seq<u8>, headers: Seq<BlockHeader>, at: int, floor: PowFloor)
    requires
        0 <= at,
    ensures
        chain_fault(prev, headers, at, floor) is None <==> {
            &&& forall|i: int|
                at <= i < headers.len() ==> header_holds((#[trigger] headers[i]).0@, floor)
            &&& forall|i: int|
                at <= i < headers.len() ==> (#[trigger] headers[i]).0@.subrange(4, 36) == if i
                    == at {
                    prev
                } else {
                    sha256d_of(headers[i - 1].0@)
                }
        },
    decreases headers.len() - at,
{
    if at < headers.len() {
        chain_fault_is_none(sha256d_of(headers[at].0@), headers, at + 1, floor);
        let next = sha256d_of(headers[at].0@);
        let links = |from: int, first: Seq<u8>|
            forall|i: int|
                from <= i < headers.len() ==> (#[trigger] headers[i]).0@.subrange(4, 36) == if i
                    == from {
                    first
                } else {
                    sha256d_of(headers[i - 1].0@)
                };
        if links(at, prev) {
            assert forall|i: int| at + 1 <= i < headers.len() implies (
            #[trigger] headers[i]).0@.subrange(4, 36) == if i == at + 1 {
                next
            } else {
                sha256d_of(headers[i - 1].0@)
            } by {}
        }
        if links(at + 1, next) && headers[at].0@.subrange(4, 36) == prev {
            assert forall|i: int| at <= i < headers.len() implies (
            #[trigger] headers[i]).0@.subrange(4, 36) == if i == at {
                prev
            } else {
                sha256d_of(headers[i - 1].0@)
            } by {}
        }
    }
}

/// A proof is refused by no check exactly when everything it claims holds.
pub proof fn proof_is_sound_and_complete(
    proof: ProofModel,
    txid: Txid,
    vout: u32,
    script: Seq<u8>,
    value: u64,
    block: BlockHash,
    floor: PowFloor,
)
    ensures
        proof_fault(proof, txid, vout, script, value, block, floor) is None <==> proof_holds(
            proof,
            txid,
            vout,
            script,
            value,
            block,
            floor,
        ),
{
    let header = proof.header.0@;
    let rest = proof.following_headers;
    let headers = seq![proof.header] + rest;
    chain_fault_is_none(sha256d_of(header), rest, 0, floor);
    assert(forall|i: int| 0 <= i < rest.len() ==> rest[i] == headers[i + 1]);
    assert(headers[0] == proof.header);
    if proof_fault(proof, txid, vout, script, value, block, floor) is None {
        assert forall|i: int| 0 <= i < headers.len() implies header_holds(
            (#[trigger] headers[i]).0@,
            floor,
        ) by {
            if i > 0 {
                assert(headers[i] == rest[i - 1]);
            }
        }
        assert forall|i: int| 0 < i < headers.len() implies (#[trigger] headers[i]).0@.subrange(
            4,
            36,
        ) == sha256d_of(headers[i - 1].0@) by {
            assert(headers[i] == rest[i - 1]);
            if i > 1 {
                assert(headers[i - 1] == rest[i - 2]);
            }
        }
    }
    if proof_holds(proof, txid, vout, script, value, block, floor) {
        assert(header_holds(headers[0].0@, floor));
        assert forall|i: int| 0 <= i < rest.len() implies header_holds(
            (#[trigger] rest[i]).0@,
            floor,
        ) by {
            assert(rest[i] == headers[i + 1]);
        }
        assert forall|i: int| 0 <= i < rest.len() implies (#[trigger] rest[i]).0@.subrange(4, 36)
            == if i == 0 {
            sha256d_of(header)
        } else {
            sha256d_of(rest[i - 1].0@)
        } by {
            assert(rest[i] == headers[i + 1]);
            if i > 0 {
                assert(rest[i - 1] == headers[i]);
            }
        }
    }
}

/// Verify an SPV proof end to end.
///
/// Every check is on the bytes handed in. What is expected comes from the claim being
/// checked, so a proof of something else is refused.
pub fn verify_spv_proof(
    proof: &SpvProof,
    expected_txid: &Txid,
    expected_vout: u32,
    expected_script: &[u8],
    expected_value: u64,
    expected_block: &BlockHash,
    floor: PowFloor,
) -> (r: Result<SpvVerified, SpvError>)
    ensures
        r is Ok <==> proof_holds(
            proof@,
            *expected_txid,
            expected_vout,
            expected_script@,
            expected_value,
            *expected_block,
            floor,
        ),
        r matches Ok(v) ==> v.txid == *expected_txid && v.block_hash == *expected_block
            && v.value_sats == expected_value && v.depth == 1 + proof.following_headers@.len(),
        r matches Err(e) ==> proof_fault(
            proof@,
            *expected_txid,
            expected_vout,
            expected_script@,
            expected_value,
            *expected_block,
            floor,
        ) == Some(e),
{
    proof {
        proof_is_sound_and_complete(
            proof@,
            *expected_txid,
            expected_vout,
            expected_script@,
            expected_value,
            *expected_block,
            floor,
        );
    }
    if proof.raw_tx.len() > MAX_RAW_TX {
        return Err(SpvError::TxTooLarge(proof.raw_tx.len()));
    }
    if proof.following_headers.len() > MAX_FOLLOWING_HEADERS {
        return Err(SpvError::TooManyHeaders(proof.following_headers.len()));
    }
    let computed = Txid(sha256d(&proof.raw_tx));
    proof {
        arr32_of_view(computed.0);
    }
    if !same32(&computed.0, &expected_txid.0) {
        return Err(SpvError::TxidMismatch { computed, claimed: *expected_txid });
    }
    let outputs = match parse_tx_outputs(&proof.raw_tx) {
        Err(e) => {
            return Err(e);
        },
        Ok(outputs) => outputs,
    };
    if expected_vout as usize >= outputs.len() {
        return Err(SpvError::NoSuchOutput(expected_vout));
    }
    let out = &outputs[expected_vout as usize];
    assert(payments(outputs@)[expected_vout as int] == out@);
    if !same_bytes(&out.script_pubkey, expected_script) {
        return Err(SpvError::ScriptMismatch);
    }
    if out.value_sats != expected_value {
        return Err(SpvError::ValueMismatch { in_tx: out.value_sats, claimed: expected_value });
    }
    let head = match verify_header(&proof.header, floor) {
        Err(e) => {
            return Err(e);
        },
        Ok(head) => head,
    };
    if !same32(&head.hash.0, &expected_block.0) {
        return Err(SpvError::BlockHashMismatch);
    }
    let root = match merkle_root_from_branch(&computed, &proof.merkle_branch, proof.tx_index) {
        Err(e) => {
            return Err(e);
        },
        Ok(root) => root,
    };
    if !same32(&root, &head.merkle_root) {
        return Err(SpvError::MerkleMismatch);
    }
    let mut prev = head.hash;
    for i in 0..proof.following_headers.len()
        invariant
            proof_fault(
                proof@,
                *expected_txid,
                expected_vout,
                expected_script@,
                expected_value,
                *expected_block,
                floor,
            ) == chain_fault(prev.0@, proof.following_headers@, i as int, floor),
            proof_fault(
                proof@,
                *expected_txid,
                expected_vout,
                expected_script@,
                expected_value,
                *expected_block,
                floor,
            ) is None <==> proof_holds(
                proof@,
                *expected_txid,
                expected_vout,
                expected_script@,
                expected_value,
                *expected_block,
                floor,
            ),
    {
        let h = &proof.following_headers[i];
        let view = match verify_header(h, floor) {
            Err(e) => {
                return Err(e);
            },
            Ok(view) => view,
        };
        if !same32(&view.prev_hash.0, &prev.0) {
            return Err(SpvError::BrokenChain(i));
        }
        prev = view.hash;
    }
    Ok(
        SpvVerified {
            txid: computed,
            block_hash: head.hash,
            value_sats: out.value_sats,
            depth: 1 + proof.following_headers.len() as u32,
        },
    )
}

} // verus!
