//! Bitcoin transactions: what they are made of, and the bytes they are written as.

use vstd::prelude::*;

use crate::bytes::{le16, le32, le32_bytes, le32_roundtrip, le64, le64_bytes, le64_roundtrip};
use crate::spv::{
    input_end, inputs_end, output_at, outputs_at, payments, sha256d_of, tx_outputs, varint_at,
    Payment, SpvError, TxOutput, MAX_RAW_TX,
};

verus! {

broadcast use vstd::array::group_array_axioms;

// ---------------------------------------------------------------------------
// What a transaction is made of
// ---------------------------------------------------------------------------

/// One input of a transaction.
#[derive(Debug)]
pub struct TxInput {
    /// The transaction whose output is spent.
    pub prev_txid: [u8; 32],
    /// Which of its outputs.
    pub prev_index: u32,
    pub script_sig: Vec<u8>,
    pub sequence: u32,
    pub witness: Vec<Vec<u8>>,
}

/// A transaction, field by field.
#[derive(Debug)]
pub struct TxFields {
    pub version: i32,
    pub inputs: Vec<TxInput>,
    pub outputs: Vec<TxOutput>,
    pub lock_time: u32,
}

/// A [`TxInput`] as a mathematical value.
#[verifier::ext_equal]
pub struct InputModel {
    pub prev_txid: [u8; 32],
    pub prev_index: u32,
    pub script_sig: Seq<u8>,
    pub sequence: u32,
    pub witness: Seq<Seq<u8>>,
}

/// A [`TxFields`] as a mathematical value.
#[verifier::ext_equal]
pub struct FieldsModel {
    pub version: i32,
    pub inputs: Seq<InputModel>,
    pub outputs: Seq<Payment>,
    pub lock_time: u32,
}

impl View for TxInput {
    type V = InputModel;

    open spec fn view(&self) -> InputModel {
        InputModel {
            prev_txid: self.prev_txid,
            prev_index: self.prev_index,
            script_sig: self.script_sig@,
            sequence: self.sequence,
            witness: self.witness@.map_values(|w: Vec<u8>| w@),
        }
    }
}

impl View for TxFields {
    type V = FieldsModel;

    open spec fn view(&self) -> FieldsModel {
        FieldsModel {
            version: self.version,
            inputs: self.inputs@.map_values(|i: TxInput| i@),
            outputs: payments(self.outputs@),
            lock_time: self.lock_time,
        }
    }
}

/// An input without its witness.
pub open spec fn bare_input(i: InputModel) -> InputModel {
    InputModel { witness: Seq::empty(), ..i }
}

/// A transaction without its witness data.
pub open spec fn without_witness(t: FieldsModel) -> FieldsModel {
    FieldsModel { inputs: t.inputs.map_values(|i: InputModel| bare_input(i)), ..t }
}

/// Whether a transaction carries no witness data.
pub open spec fn is_stripped(t: FieldsModel) -> bool {
    forall|i: int| 0 <= i < t.inputs.len() ==> (#[trigger] t.inputs[i]).witness.len() == 0
}

/// Take the witness data out of a transaction.
pub fn strip(t: &mut TxFields)
    ensures
        final(t)@ == without_witness(old(t)@),
{
    let ghost before = t@;
    let n: usize = t.inputs.len();
    for i in 0..n
        invariant
            n == t.inputs@.len(),
            before.inputs.len() == n,
            t@.version == before.version,
            t@.outputs == before.outputs,
            t@.lock_time == before.lock_time,
            forall|j: int| 0 <= j < i ==> (#[trigger] t@.inputs[j]) == bare_input(before.inputs[j]),
            forall|j: int| i <= j < n ==> (#[trigger] t@.inputs[j]) == before.inputs[j],
    {
        let ghost was = t@.inputs;
        t.inputs[i].witness = Vec::new();
        assert(t@.inputs[i as int] =~= bare_input(was[i as int]));
        assert(forall|j: int| 0 <= j < n && j != i ==> (#[trigger] t@.inputs[j]) == was[j]);
    }
    assert(t@.inputs =~= without_witness(before).inputs);
}

// ---------------------------------------------------------------------------
// How it is written
// ---------------------------------------------------------------------------

/// `n` as a compact-size integer: one byte where it fits, or a byte that tells the width
/// and then the number, least significant byte first.
pub open spec fn compact_size(n: u64) -> Seq<u8> {
    if n < 0xfd {
        seq![n as u8]
    } else if n <= 0xffff {
        seq![0xfdu8, (n % 0x100) as u8, (n / 0x100) as u8]
    } else if n <= 0xffff_ffff {
        seq![0xfeu8] + le32_bytes(n as u32)
    } else {
        seq![0xffu8] + le64_bytes(n)
    }
}

/// A script with its length before it.
pub open spec fn script_bytes(script: Seq<u8>) -> Seq<u8> {
    compact_size(script.len() as u64) + script
}

/// An input: the output it spends, its script and its sequence.
pub open spec fn input_bytes(i: InputModel) -> Seq<u8> {
    i.prev_txid@ + (le32_bytes(i.prev_index) + (script_bytes(i.script_sig) + le32_bytes(
        i.sequence,
    )))
}

/// An output: its value and its script.
pub open spec fn output_bytes(o: Payment) -> Seq<u8> {
    le64_bytes(o.0) + script_bytes(o.1)
}

pub open spec fn all_input_bytes(inputs: Seq<InputModel>) -> Seq<u8>
    decreases inputs.len(),
{
    if inputs.len() == 0 {
        Seq::empty()
    } else {
        input_bytes(inputs[0]) + all_input_bytes(inputs.skip(1))
    }
}

pub open spec fn all_output_bytes(outputs: Seq<Payment>) -> Seq<u8>
    decreases outputs.len(),
{
    if outputs.len() == 0 {
        Seq::empty()
    } else {
        output_bytes(outputs[0]) + all_output_bytes(outputs.skip(1))
    }
}

/// What stands between a transaction's version and its lock time: its inputs and its
/// outputs, the number of each before them.
pub open spec fn body_bytes(t: FieldsModel) -> Seq<u8> {
    compact_size(t.inputs.len() as u64) + (all_input_bytes(t.inputs) + (compact_size(
        t.outputs.len() as u64,
    ) + all_output_bytes(t.outputs)))
}

/// A transaction in its legacy serialization, which holds no witness data. This is the
/// form that a txid commits to.
pub open spec fn legacy_bytes(t: FieldsModel) -> Seq<u8> {
    le32_bytes(t.version as u32) + (body_bytes(t) + le32_bytes(t.lock_time))
}

/// A transaction without witness data as it is written: in its legacy serialization, or,
/// where it has no inputs, with the marker and the flag of a witness before them, since a
/// legacy serialization that starts with no inputs would be read as one with a witness.
pub open spec fn stripped_bytes(t: FieldsModel) -> Seq<u8> {
    if t.inputs.len() > 0 {
        legacy_bytes(t)
    } else {
        le32_bytes(t.version as u32) + (seq![0u8, 1u8] + (body_bytes(t) + le32_bytes(t.lock_time)))
    }
}

/// The id of a transaction.
pub open spec fn txid_of(t: FieldsModel) -> Seq<u8> {
    sha256d_of(legacy_bytes(t))
}

/// Witness data has no part in the bytes that a txid commits to.
pub proof fn a_txid_ignores_the_witness(t: FieldsModel)
    ensures
        legacy_bytes(without_witness(t)) == legacy_bytes(t),
        txid_of(without_witness(t)) == txid_of(t),
        stripped_bytes(without_witness(t)) == stripped_bytes(t),
        is_stripped(without_witness(t)),
{
    bare_inputs_are_written_alike(t.inputs);
}

proof fn bare_inputs_are_written_alike(inputs: Seq<InputModel>)
    ensures
        all_input_bytes(inputs.map_values(|i: InputModel| bare_input(i))) == all_input_bytes(
            inputs,
        ),
    decreases inputs.len(),
{
    let bare = inputs.map_values(|i: InputModel| bare_input(i));
    if inputs.len() > 0 {
        bare_inputs_are_written_alike(inputs.skip(1));
        assert(bare.skip(1) =~= inputs.skip(1).map_values(|i: InputModel| bare_input(i)));
        assert(input_bytes(bare[0]) == input_bytes(inputs[0]));
    }
}

/// A transaction with inputs, written without its witness data, hashes to its txid.
pub proof fn what_is_stripped_hashes_to_the_txid(t: FieldsModel)
    requires
        t.inputs.len() > 0,
    ensures
        sha256d_of(stripped_bytes(t)) == txid_of(t),
{
}

// ---------------------------------------------------------------------------
// Reading what was written
// ---------------------------------------------------------------------------

/// Whether `s` stands at `at`.
pub open spec fn stands(raw: Seq<u8>, at: int, s: Seq<u8>) -> bool {
    0 <= at && at + s.len() <= raw.len() && raw.subrange(at, at + s.len()) == s
}

/// Where two byte strings stand one behind the other, each of them stands.
proof fn stand_apart(raw: Seq<u8>, at: int, a: Seq<u8>, b: Seq<u8>)
    requires
        stands(raw, at, a + b),
    ensures
        stands(raw, at, a),
        stands(raw, at + a.len(), b),
{
    let whole = raw.subrange(at, at + (a + b).len());
    assert(raw.subrange(at, at + a.len()) =~= whole.subrange(0, a.len() as int));
    assert((a + b).subrange(0, a.len() as int) =~= a);
    assert(raw.subrange(at + a.len(), at + a.len() + b.len()) =~= whole.subrange(
        a.len() as int,
        (a + b).len() as int,
    ));
    assert((a + b).subrange(a.len() as int, (a + b).len() as int) =~= b);
}

/// What stands at a place is found there byte by byte.
proof fn byte_of(raw: Seq<u8>, at: int, s: Seq<u8>, k: int)
    requires
        stands(raw, at, s),
        0 <= k < s.len(),
    ensures
        raw[at + k] == s[k],
{
    assert(raw.subrange(at, at + s.len())[k] == raw[at + k]);
}

/// A compact-size integer is read back as it was written.
pub proof fn compact_size_is_read_back(raw: Seq<u8>, at: int, n: u64)
    requires
        stands(raw, at, compact_size(n)),
    ensures
        varint_at(raw, at) == Ok::<(u64, int), SpvError>((n, compact_size(n).len() as int)),
{
    let s = compact_size(n);
    byte_of(raw, at, s, 0);
    if n < 0xfd {
    } else if n <= 0xffff {
        byte_of(raw, at, s, 1);
        byte_of(raw, at, s, 2);
        assert(le16(raw, at + 1) == n);
    } else if n <= 0xffff_ffff {
        let four = le32_bytes(n as u32);
        stand_apart(raw, at, seq![0xfeu8], four);
        number32_is_read_back(raw, at + 1, n as u32);
    } else {
        stand_apart(raw, at, seq![0xffu8], le64_bytes(n));
        number64_is_read_back(raw, at + 1, n);
    }
}

proof fn number32_is_read_back(raw: Seq<u8>, at: int, n: u32)
    requires
        stands(raw, at, le32_bytes(n)),
    ensures
        le32(raw, at) == n,
{
    let s = le32_bytes(n);
    byte_of(raw, at, s, 0);
    byte_of(raw, at, s, 1);
    byte_of(raw, at, s, 2);
    byte_of(raw, at, s, 3);
    le32_roundtrip(n);
    assert(le32(raw, at) == le32(s, 0));
}

proof fn number64_is_read_back(raw: Seq<u8>, at: int, n: u64)
    requires
        stands(raw, at, le64_bytes(n)),
    ensures
        le64(raw, at) == n,
{
    let lo = le32_bytes((n % 0x1_0000_0000) as u32);
    let hi = le32_bytes((n / 0x1_0000_0000) as u32);
    stand_apart(raw, at, lo, hi);
    number32_is_read_back(raw, at, (n % 0x1_0000_0000) as u32);
    number32_is_read_back(raw, at + 4, (n / 0x1_0000_0000) as u32);
}

/// The end of an input is found.
proof fn input_is_passed(raw: Seq<u8>, at: int, i: InputModel)
    requires
        raw.len() <= MAX_RAW_TX,
        stands(raw, at, input_bytes(i)),
    ensures
        input_end(raw, at) == Ok::<int, SpvError>(at + input_bytes(i).len()),
        input_bytes(i).len() >= 41,
{
    let script = i.script_sig;
    let tail = script_bytes(script) + le32_bytes(i.sequence);
    stand_apart(raw, at, i.prev_txid@, le32_bytes(i.prev_index) + tail);
    stand_apart(raw, at + 32, le32_bytes(i.prev_index), tail);
    stand_apart(raw, at + 36, script_bytes(script), le32_bytes(i.sequence));
    stand_apart(raw, at + 36, compact_size(script.len() as u64), script);
    compact_size_is_read_back(raw, at + 36, script.len() as u64);
}

/// The end of the inputs is found.
proof fn inputs_are_passed(raw: Seq<u8>, at: int, inputs: Seq<InputModel>)
    requires
        raw.len() <= MAX_RAW_TX,
        stands(raw, at, all_input_bytes(inputs)),
    ensures
        inputs_end(raw, at, inputs.len()) == Ok::<int, SpvError>(
            at + all_input_bytes(inputs).len(),
        ),
        all_input_bytes(inputs).len() >= 41 * inputs.len(),
    decreases inputs.len(),
{
    if inputs.len() > 0 {
        let first = input_bytes(inputs[0]);
        let rest = inputs.skip(1);
        stand_apart(raw, at, first, all_input_bytes(rest));
        input_is_passed(raw, at, inputs[0]);
        inputs_are_passed(raw, at + first.len(), rest);
    }
}

/// An output is read back as it was written.
proof fn output_is_read_back(raw: Seq<u8>, at: int, o: Payment)
    requires
        raw.len() <= MAX_RAW_TX,
        stands(raw, at, output_bytes(o)),
    ensures
        output_at(raw, at) == Ok::<(Payment, int), SpvError>((o, at + output_bytes(o).len())),
        output_bytes(o).len() >= 9,
{
    let script = o.1;
    le64_roundtrip(o.0);
    stand_apart(raw, at, le64_bytes(o.0), script_bytes(script));
    number64_is_read_back(raw, at, o.0);
    stand_apart(raw, at + 8, compact_size(script.len() as u64), script);
    compact_size_is_read_back(raw, at + 8, script.len() as u64);
}

/// Outputs are read back as they were written.
proof fn outputs_are_read_back(raw: Seq<u8>, at: int, outputs: Seq<Payment>)
    requires
        raw.len() <= MAX_RAW_TX,
        stands(raw, at, all_output_bytes(outputs)),
    ensures
        outputs_at(raw, at, outputs.len()) == Ok::<Seq<Payment>, SpvError>(outputs),
        all_output_bytes(outputs).len() >= 9 * outputs.len(),
    decreases outputs.len(),
{
    if outputs.len() > 0 {
        let first = output_bytes(outputs[0]);
        let rest = outputs.skip(1);
        stand_apart(raw, at, first, all_output_bytes(rest));
        output_is_read_back(raw, at, outputs[0]);
        outputs_are_read_back(raw, at + first.len(), rest);
        assert(seq![outputs[0]] + rest =~= outputs);
    } else {
        assert(outputs =~= Seq::empty());
    }
}

/// Where the inputs and the outputs of a transaction stand in bytes, its outputs are
/// read from them.
proof fn what_stands_is_parsed(raw: Seq<u8>, inputs: Seq<InputModel>, outputs: Seq<Payment>)
    requires
        10 <= raw.len() <= MAX_RAW_TX,
        inputs.len() > 0,
        ({
            let n_in = compact_size(inputs.len() as u64);
            let ins = all_input_bytes(inputs);
            let n_out = compact_size(outputs.len() as u64);
            &&& stands(raw, 4, n_in)
            &&& stands(raw, 4 + n_in.len() as int, ins)
            &&& stands(raw, 4 + n_in.len() as int + ins.len(), n_out)
            &&& stands(
                raw,
                4 + n_in.len() as int + ins.len() + n_out.len(),
                all_output_bytes(outputs),
            )
        }),
    ensures
        tx_outputs(raw) == Ok::<Seq<Payment>, SpvError>(outputs),
        outputs.len() <= raw.len(),
{
    let n_in = compact_size(inputs.len() as u64);
    let ins = all_input_bytes(inputs);
    let n_out = compact_size(outputs.len() as u64);
    let at_ins: int = 4 + n_in.len() as int;
    let at_count: int = at_ins + ins.len();
    inputs_are_passed(raw, at_ins, inputs);
    outputs_are_read_back(raw, at_count + n_out.len(), outputs);
    compact_size_is_read_back(raw, 4, inputs.len() as u64);
    compact_size_is_read_back(raw, at_count, outputs.len() as u64);
    byte_of(raw, 4, n_in, 0);
}

/// Parsing undoes serialization: of a transaction with inputs, in its legacy
/// serialization and no longer than evidence may be, the outputs are read as they are,
/// all of them and in their order.
pub proof fn parsing_undoes_serialization(t: FieldsModel)
    requires
        t.inputs.len() > 0,
        legacy_bytes(t).len() <= MAX_RAW_TX,
    ensures
        tx_outputs(legacy_bytes(t)) == Ok::<Seq<Payment>, SpvError>(t.outputs),
        t.outputs.len() <= legacy_bytes(t).len(),
{
    let raw = legacy_bytes(t);
    let n_in = compact_size(t.inputs.len() as u64);
    let ins = all_input_bytes(t.inputs);
    let n_out = compact_size(t.outputs.len() as u64);
    let outs = all_output_bytes(t.outputs);
    assert(raw.subrange(0, raw.len() as int) =~= raw);
    stand_apart(
        raw,
        0,
        le32_bytes(t.version as u32),
        body_bytes(t) + le32_bytes(t.lock_time),
    );
    stand_apart(raw, 4, body_bytes(t), le32_bytes(t.lock_time));
    stand_apart(raw, 4, n_in, ins + (n_out + outs));
    stand_apart(raw, 4 + n_in.len() as int, ins, n_out + outs);
    stand_apart(raw, 4 + n_in.len() as int + ins.len(), n_out, outs);
    what_stands_is_parsed(raw, t.inputs, t.outputs);
}

} // verus!
