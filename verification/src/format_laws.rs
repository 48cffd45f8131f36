//! What holds of the texts and bytes that things are written as.
//!
//! Each piece stands at its place and is read back from there; numbers are read as they were
//! written; things that differ are written differently.

use vstd::prelude::*;

use crate::bytes::{le32, le32_bytes, le32_roundtrip, le64, le64_bytes, le64_roundtrip};
use crate::digest::{bucket, digest_bytes, digest_width_is_fixed, mark, toggled};
use crate::outside::{base58_read, blake3_of, hex_bytes, hex_fault, is_hex, trimmed_of};
use crate::signing::{claim_message, tip_message};
use crate::text::{ascii, decimal_text, digit, lower, lowered, occurs, occurs_at};
use crate::transaction::{
    all_input_bytes, all_output_bytes, body_bytes, compact_size, input_bytes, legacy_bytes,
    output_bytes, script_bytes, stripped_bytes, FieldsModel, InputModel,
};
use crate::types::{bridge_read, display_read, display_text, script_id_input, BitcoinNetwork};

verus! {

broadcast use vstd::array::group_array_axioms;

// ---------------------------------------------------------------------------
// Networks
// ---------------------------------------------------------------------------

/// Networks have different tags, which are small numbers that never change.
pub proof fn networks_are_told_apart(a: BitcoinNetwork, b: BitcoinNetwork)
    ensures
        a.tag_of() == b.tag_of() <==> a == b,
        a is Bitcoin <==> a.tag_of() == 0,
        a is Testnet4 <==> a.tag_of() == 1,
        a is Signet <==> a.tag_of() == 2,
        a is Regtest <==> a.tag_of() == 3,
{
}

/// A network is known by its name, as itself and as no other.
pub proof fn a_network_is_known_by_its_name(a: BitcoinNetwork, b: BitcoinNetwork)
    ensures
        BitcoinNetwork::named(a.name()) == Some(a),
        a.name() == b.name() <==> a == b,
        a.variant() == b.variant() <==> a == b,
        a is Bitcoin ==> a.name() == "bitcoin"@ && a.variant() == "Bitcoin"@,
        a is Testnet4 ==> a.name() == "testnet4"@ && a.variant() == "Testnet4"@,
        a is Signet ==> a.name() == "signet"@ && a.variant() == "Signet"@,
        a is Regtest ==> a.name() == "regtest"@ && a.variant() == "Regtest"@,
{
    reveal_strlit("bitcoin");
    reveal_strlit("main");
    reveal_strlit("mainnet");
    reveal_strlit("testnet4");
    reveal_strlit("testnet");
    reveal_strlit("signet");
    reveal_strlit("regtest");
    reveal_strlit("Bitcoin");
    reveal_strlit("Testnet4");
    reveal_strlit("Signet");
    reveal_strlit("Regtest");
    assert("bitcoin"@[0] == 'b' && "testnet4"@[0] == 't' && "signet"@[0] == 's' && "regtest"@[0]
        == 'r');
    assert("Bitcoin"@[0] == 'B' && "Testnet4"@[0] == 'T' && "Signet"@[0] == 'S' && "Regtest"@[0]
        == 'R');
    assert("main"@[0] == 'm' && "mainnet"@[0] == 'm');
    assert("testnet"@.len() == 7 && "testnet4"@.len() == 8);
}

/// These are all the names that networks go by, and each names one.
pub proof fn these_name_a_network(s: Seq<char>)
    ensures
        BitcoinNetwork::named(s) == Some(BitcoinNetwork::Bitcoin) <==> s == "bitcoin"@ || s
            == "main"@ || s == "mainnet"@,
        BitcoinNetwork::named(s) == Some(BitcoinNetwork::Testnet4) <==> s == "testnet4"@ || s
            == "testnet"@,
        BitcoinNetwork::named(s) == Some(BitcoinNetwork::Signet) <==> s == "signet"@,
        BitcoinNetwork::named(s) == Some(BitcoinNetwork::Regtest) <==> s == "regtest"@,
{
    reveal_strlit("bitcoin");
    reveal_strlit("main");
    reveal_strlit("mainnet");
    reveal_strlit("testnet4");
    reveal_strlit("testnet");
    reveal_strlit("signet");
    reveal_strlit("regtest");
    assert("bitcoin"@[0] == 'b' && "testnet4"@[0] == 't' && "signet"@[0] == 's' && "regtest"@[0]
        == 'r');
    assert("main"@[0] == 'm' && "mainnet"@[0] == 'm' && "testnet"@[0] == 't');
}

// ---------------------------------------------------------------------------
// Identities as text
// ---------------------------------------------------------------------------

/// What a hash is shown as reads from its last byte to its first: two bytes' texts stand in
/// the other order than the bytes.
pub proof fn a_hash_is_shown_last_byte_first(b: Seq<u8>, i: int)
    requires
        0 <= i < b.len(),
    ensures
        display_text(b).len() == 2 * b.len(),
        display_text(b).subrange(2 * i, 2 * i + 2) == display_text(seq![b[b.len() - 1 - i]]),
{
    let one = seq![b[b.len() - 1 - i]];
    assert(one.reverse() =~= one);
    assert(b.reverse()[i] == one[0]);
    let t = display_text(b);
    let u = display_text(one);
    assert(u.len() == 2);
    assert(t.subrange(2 * i, 2 * i + 2) =~= u);
}

/// A text says a hash exactly if it is sixty-four hexadecimal digits, with or without white
/// space around them. Then it says what they say, last byte first.
pub proof fn which_texts_say_a_hash(text: Seq<char>, what: Seq<char>, i: int)
    ensures
        ({
            let digits = trimmed_of(text);
            let r = display_read(text, what);
            &&& r is Ok <==> is_hex(digits) && digits.len() == 64
            &&& r is Ok ==> r->Ok_0.len() == 32 && (0 <= i < 32 ==> r->Ok_0[i] == hex_bytes(
                digits,
            )[31 - i])
            &&& !is_hex(digits) ==> r->Err_0 == what + " not hex: "@ + hex_fault(digits)
            &&& is_hex(digits) && r is Err ==> r->Err_0 == what + " must be 32 bytes"@
        }),
{
}

/// A text says a bridge's key exactly if it is thirty-two bytes in base58, and then those.
pub proof fn which_texts_say_a_bridge(text: Seq<char>)
    ensures
        ({
            let b = base58_read(trimmed_of(text));
            let r = bridge_read(text);
            &&& r is Ok <==> b is Ok && b->Ok_0.len() == 32
            &&& r is Ok ==> r->Ok_0 == b->Ok_0
            &&& b is Err ==> r->Err_0 == "bridge id not base58: "@ + b->Err_0
            &&& b is Ok && r is Err ==> r->Err_0 == "bridge id must be 32 bytes"@
        }),
{
}

/// A script's identity is taken over twenty-eight fixed bytes, the network's tag, and the
/// script.
pub proof fn what_a_script_is_known_by(net: BitcoinNetwork, script: Seq<u8>)
    ensures
        ({
            let s = script_id_input(net, script);
            &&& s.len() == 29 + script.len()
            &&& s.subrange(0, 28) == ascii("freenet-bitcoin/script-id/v1"@)
            &&& s[28] == net.tag_of()
            &&& s.subrange(29, s.len() as int) == script
        }),
{
    reveal_strlit("freenet-bitcoin/script-id/v1");
    let s = script_id_input(net, script);
    assert(s.subrange(0, 28) =~= ascii("freenet-bitcoin/script-id/v1"@));
    assert(s.subrange(29, s.len() as int) =~= script);
}

/// A bridge signs its claims and its summaries under a name of their own, with the body
/// whole behind it.
pub proof fn what_a_bridge_signs(body: Seq<u8>)
    ensures
        claim_message(body).len() == 25 + body.len(),
        claim_message(body).subrange(0, 25) == ascii("freenet-bitcoin/claim/v1\0"@),
        claim_message(body).subrange(25, claim_message(body).len() as int) == body,
        tip_message(body).len() == 23 + body.len(),
        tip_message(body).subrange(0, 23) == ascii("freenet-bitcoin/tip/v1\0"@),
        tip_message(body).subrange(23, tip_message(body).len() as int) == body,
{
    reveal_strlit("freenet-bitcoin/claim/v1\0");
    reveal_strlit("freenet-bitcoin/tip/v1\0");
    assert(claim_message(body).subrange(0, 25) =~= ascii("freenet-bitcoin/claim/v1\0"@));
    assert(claim_message(body).subrange(25, claim_message(body).len() as int) =~= body);
    assert(tip_message(body).subrange(0, 23) =~= ascii("freenet-bitcoin/tip/v1\0"@));
    assert(tip_message(body).subrange(23, tip_message(body).len() as int) =~= body);
}

// ---------------------------------------------------------------------------
// Numbers and words
// ---------------------------------------------------------------------------

/// The number that decimal digits say.
pub open spec fn number_said(s: Seq<char>) -> int
    decreases s.len(),
{
    if s.len() == 0 {
        0
    } else {
        10 * number_said(s.drop_last()) + (s.last() as u32 - '0' as u32)
    }
}

/// A number in decimal says that number, in digits alone, and without a zero in front.
pub proof fn a_number_is_read_as_it_is_written(n: nat)
    ensures
        number_said(decimal_text(n)) == n,
        decimal_text(n).len() >= 1,
        n > 0 ==> decimal_text(n)[0] != '0',
        forall|i: int|
            0 <= i < decimal_text(n).len() ==> '0' <= #[trigger] decimal_text(n)[i]
                && decimal_text(n)[i] <= '9',
    decreases n,
{
    let t = decimal_text(n);
    if n < 10 {
        reveal_with_fuel(number_said, 2);
        assert(t.drop_last() =~= Seq::empty());
        assert(t.last() == digit(n));
    } else {
        a_number_is_read_as_it_is_written(n / 10);
        let before = decimal_text(n / 10);
        assert(t.drop_last() =~= before);
        assert(t.last() == digit(n % 10));
        assert(t[0] == before[0]);
        assert forall|i: int| 0 <= i < t.len() implies '0' <= #[trigger] t[i] && t[i] <= '9' by {
            if i < before.len() {
                assert(t[i] == before[i]);
            }
        }
    }
}

/// Words occur in a text exactly if it is something, the words, and something behind them.
pub proof fn when_words_occur(hay: Seq<char>, needle: Seq<char>)
    ensures
        occurs(hay, needle) <==> exists|before: Seq<char>, after: Seq<char>|
            hay == #[trigger] (before + needle + after),
{
    if occurs(hay, needle) {
        let i = choose|i: int| #[trigger] occurs_at(hay, needle, i);
        let before = hay.subrange(0, i);
        let after = hay.subrange(i + needle.len(), hay.len() as int);
        assert(hay =~= before + hay.subrange(i, i + needle.len()) + after);
        assert(hay == before + needle + after);
    }
    if exists|before: Seq<char>, after: Seq<char>| hay == #[trigger] (before + needle + after) {
        let (before, after) = choose|before: Seq<char>, after: Seq<char>|
            hay == #[trigger] (before + needle + after);
        let i = before.len() as int;
        assert(hay.subrange(i, i + needle.len()) =~= needle);
        assert(occurs_at(hay, needle, i));
    }
}

/// A text is lowered letter by letter, and lowering it again changes nothing.
pub proof fn a_text_is_lowered_letter_by_letter(s: Seq<char>, i: int)
    requires
        0 <= i < s.len(),
    ensures
        lowered(s).len() == s.len(),
        lowered(s)[i] == lower(s[i]),
        lower(lower(s[i])) == lower(s[i]),
        ascii(s).len() == s.len(),
        ascii(s)[i] == s[i] as u8,
{
}

// ---------------------------------------------------------------------------
// Transactions
// ---------------------------------------------------------------------------

/// A number takes one byte below 253, and else three, five or nine, the first of which says
/// how many.
pub proof fn how_long_a_compact_size_is(n: u64)
    ensures
        n < 253 ==> compact_size(n) == seq![n as u8],
        253 <= n <= 0xffff ==> compact_size(n).len() == 3 && compact_size(n)[0] == 253,
        0xffff < n <= 0xffff_ffff ==> compact_size(n).len() == 5 && compact_size(n)[0] == 254
            && le32(compact_size(n), 1) == n,
        0xffff_ffff < n ==> compact_size(n).len() == 9 && compact_size(n)[0] == 255 && le64(
            compact_size(n),
            1,
        ) == n,
        253 <= n <= 0xffff ==> compact_size(n)[1] + 0x100 * compact_size(n)[2] == n,
{
    let s = compact_size(n);
    if 0xffff < n <= 0xffff_ffff {
        le32_roundtrip(n as u32);
        let b = le32_bytes(n as u32);
        assert(s[1] == b[0] && s[2] == b[1] && s[3] == b[2] && s[4] == b[3]);
    } else if 0xffff_ffff < n {
        le64_roundtrip(n);
        let b = le64_bytes(n);
        assert(s[1] == b[0] && s[2] == b[1] && s[3] == b[2] && s[4] == b[3]);
        assert(s[5] == b[4] && s[6] == b[5] && s[7] == b[6] && s[8] == b[7]);
    }
}

/// Four bytes that are those of a number are read as that number.
proof fn four_bytes_say(s: Seq<u8>, at: int, n: u32)
    requires
        forall|k: int| 0 <= k < 4 ==> #[trigger] s[at + k] == le32_bytes(n)[k],
    ensures
        le32(s, at) == n,
{
    let b = le32_bytes(n);
    le32_roundtrip(n);
    assert(s[at + 0] == b[0] && s[at + 1] == b[1] && s[at + 2] == b[2] && s[at + 3] == b[3]);
}

/// An input is the id and the index of what it spends, its script with the length in front,
/// and its sequence.
pub proof fn an_input_is_written_place_by_place(i: InputModel)
    ensures
        ({
            let s = input_bytes(i);
            let n = script_bytes(i.script_sig).len() as int;
            &&& s.len() == 40 + n
            &&& s.subrange(0, 32) == i.prev_txid@
            &&& le32(s, 32) == i.prev_index
            &&& s.subrange(36, 36 + n) == compact_size(i.script_sig.len() as u64) + i.script_sig
            &&& le32(s, 36 + n) == i.sequence
        }),
{
    let script = script_bytes(i.script_sig);
    let n = script.len() as int;
    input_parts(i.prev_txid@, i.prev_index, script, i.sequence);
}

proof fn input_parts(txid: Seq<u8>, index: u32, script: Seq<u8>, sequence: u32)
    requires
        txid.len() == 32,
    ensures
        ({
            let s = txid + (le32_bytes(index) + (script + le32_bytes(sequence)));
            let n = script.len() as int;
            &&& s.len() == 40 + n
            &&& s.subrange(0, 32) == txid
            &&& le32(s, 32) == index
            &&& s.subrange(36, 36 + n) == script
            &&& le32(s, 36 + n) == sequence
        }),
{
    let s = txid + (le32_bytes(index) + (script + le32_bytes(sequence)));
    let n = script.len() as int;
    assert(forall|k: int| 0 <= k < 4 ==> #[trigger] s[32 + k] == le32_bytes(index)[k]);
    assert(forall|k: int| 0 <= k < 4 ==> #[trigger] s[36 + n + k] == le32_bytes(sequence)[k]);
    four_bytes_say(s, 32, index);
    four_bytes_say(s, 36 + n, sequence);
    assert(s.subrange(0, 32) =~= txid);
    assert(s.subrange(36, 36 + n) =~= script);
}

/// An output is its value, and its script with the length in front.
pub proof fn an_output_is_written_place_by_place(value: u64, script: Seq<u8>)
    ensures
        ({
            let s = output_bytes((value, script));
            &&& le64(s, 0) == value
            &&& s.subrange(8, s.len() as int) == compact_size(script.len() as u64) + script
        }),
{
    let s = output_bytes((value, script));
    le64_roundtrip(value);
    let v = le64_bytes(value);
    assert(s[0] == v[0] && s[1] == v[1] && s[2] == v[2] && s[3] == v[3]);
    assert(s[4] == v[4] && s[5] == v[5] && s[6] == v[6] && s[7] == v[7]);
    assert(s.subrange(8, s.len() as int) =~= script_bytes(script));
}

/// Inputs are written one behind the other, in their order.
pub proof fn inputs_are_written_in_order(inputs: Seq<InputModel>, i: InputModel)
    ensures
        all_input_bytes(inputs.push(i)) == all_input_bytes(inputs) + input_bytes(i),
        all_input_bytes(Seq::empty()).len() == 0,
    decreases inputs.len(),
{
    let all = inputs.push(i);
    if inputs.len() == 0 {
        reveal_with_fuel(all_input_bytes, 2);
        assert(all.skip(1).len() == 0);
        assert(all_input_bytes(all) =~= input_bytes(i));
    } else {
        inputs_are_written_in_order(inputs.skip(1), i);
        assert(all.skip(1) =~= inputs.skip(1).push(i));
        assert(all[0] == inputs[0]);
        assert(all_input_bytes(all) =~= input_bytes(inputs[0]) + (all_input_bytes(inputs.skip(1))
            + input_bytes(i)));
    }
}

/// Outputs are written one behind the other, in their order.
pub proof fn outputs_are_written_in_order(outputs: Seq<(u64, Seq<u8>)>, o: (u64, Seq<u8>))
    ensures
        all_output_bytes(outputs.push(o)) == all_output_bytes(outputs) + output_bytes(o),
        all_output_bytes(Seq::empty()).len() == 0,
    decreases outputs.len(),
{
    let all = outputs.push(o);
    if outputs.len() == 0 {
        reveal_with_fuel(all_output_bytes, 2);
        assert(all.skip(1).len() == 0);
        assert(all_output_bytes(all) =~= output_bytes(o));
    } else {
        outputs_are_written_in_order(outputs.skip(1), o);
        assert(all.skip(1) =~= outputs.skip(1).push(o));
        assert(all[0] == outputs[0]);
        assert(all_output_bytes(all) =~= output_bytes(outputs[0]) + (all_output_bytes(
            outputs.skip(1),
        ) + output_bytes(o)));
    }
}

/// A transaction starts with its version and ends with its lock time. Between them stand the
/// number of its inputs, these, the number of its outputs, and these; where it has no inputs
/// and is written without witness data, a marker and a flag come first.
pub proof fn a_transaction_is_written_place_by_place(t: FieldsModel)
    ensures
        ({
            let s = legacy_bytes(t);
            let n = s.len() as int;
            &&& n >= 8
            &&& le32(s, 0) == t.version as u32
            &&& le32(s, n - 4) == t.lock_time
            &&& s.subrange(4, n - 4) == compact_size(t.inputs.len() as u64) + all_input_bytes(
                t.inputs,
            ) + compact_size(t.outputs.len() as u64) + all_output_bytes(t.outputs)
        }),
        t.inputs.len() > 0 ==> stripped_bytes(t) == legacy_bytes(t),
        t.inputs.len() == 0 ==> {
            let s = stripped_bytes(t);
            let old = legacy_bytes(t);
            &&& s.len() == old.len() + 2
            &&& s[4] == 0 && s[5] == 1
            &&& s.subrange(0, 4) == old.subrange(0, 4)
            &&& s.subrange(6, s.len() as int) == old.subrange(4, old.len() as int)
        },
{
    let s = legacy_bytes(t);
    let n = s.len() as int;
    le32_roundtrip(t.version as u32);
    le32_roundtrip(t.lock_time);
    let v = le32_bytes(t.version as u32);
    let l = le32_bytes(t.lock_time);
    assert(s[0] == v[0] && s[1] == v[1] && s[2] == v[2] && s[3] == v[3]);
    assert(s[n - 4] == l[0] && s[n - 3] == l[1] && s[n - 2] == l[2] && s[n - 1] == l[3]);
    assert(s.subrange(4, n - 4) =~= body_bytes(t));
    assert(body_bytes(t) =~= compact_size(t.inputs.len() as u64) + all_input_bytes(t.inputs)
        + compact_size(t.outputs.len() as u64) + all_output_bytes(t.outputs));
    if t.inputs.len() == 0 {
        let w = stripped_bytes(t);
        assert(w.subrange(0, 4) =~= s.subrange(0, 4));
        assert(w.subrange(6, w.len() as int) =~= s.subrange(4, s.len() as int));
    }
}

// ---------------------------------------------------------------------------
// Digests
// ---------------------------------------------------------------------------

/// A key's mark is the first eight bytes of a hash made for digests alone, least significant
/// first.
pub proof fn what_a_key_adds_to_its_bucket(key: [u8; 32])
    requires
        blake3_of(ascii("freenet-bitcoin/bucket/v1"@) + key@).len() == 32,
    ensures
        mark(key) == le64(blake3_of(ascii("freenet-bitcoin/bucket/v1"@) + key@), 0),
{
}

/// A key that is added changes its own bucket, and one that is added twice changes nothing.
pub proof fn a_key_added_twice_is_not_there(key: [u8; 32], d: Seq<u64>, i: int)
    requires
        d.len() == 16,
    ensures
        toggled(key, toggled(key, d)) == d,
        0 <= i < 16 && i != bucket(key) ==> toggled(key, d)[i] == d[i],
        toggled(key, d).len() == 16,
{
    let x = d[bucket(key)];
    let m = mark(key);
    assert((x ^ m) ^ m == x) by (bit_vector);
    assert(toggled(key, toggled(key, d)) =~= d);
}

/// Each bucket of a digest is read back from its eight bytes.
pub proof fn a_digest_is_written_bucket_by_bucket(d: Seq<u64>, i: int)
    requires
        0 <= i < d.len(),
    ensures
        digest_bytes(d).len() == 8 * d.len(),
        le64(digest_bytes(d), 8 * i) == d[i],
    decreases d.len(),
{
    digest_width_is_fixed(d);
    digest_width_is_fixed(d.drop_last());
    let s = digest_bytes(d);
    let before = digest_bytes(d.drop_last());
    if i == d.len() - 1 {
        le64_roundtrip(d.last());
        let b = le64_bytes(d.last());
        let at = before.len() as int;
        assert(at == 8 * i);
        assert(s[at] == b[0] && s[at + 1] == b[1] && s[at + 2] == b[2] && s[at + 3] == b[3]);
        assert(s[at + 4] == b[4] && s[at + 5] == b[5] && s[at + 6] == b[6] && s[at + 7] == b[7]);
    } else {
        a_digest_is_written_bucket_by_bucket(d.drop_last(), i);
        assert(forall|k: int| 0 <= k < before.len() ==> s[k] == before[k]);
    }
}

} // verus!
