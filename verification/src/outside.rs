//! The calls this library makes into other crates, and what it relies on each of
//! them for.
//!
//! Every function here is believed rather than proved. A hash, a signature check or
//! a text encoding whose result takes pages to state is given a name, a `spec`
//! function of the call's arguments; what the library proves is then stated over
//! those names.

use bitcoin::absolute::LockTime;
use bitcoin::transaction::Version;
use bitcoin::{Amount, OutPoint, Sequence, Transaction, TxIn, TxOut, Witness};
use ed25519_dalek::Signer;
use ed25519_dalek::Verifier;
use ghostkey_lib::armorable::Armorable;
use rand::RngCore;
use sha2::Digest;
use vstd::prelude::*;

use crate::bytes::{be32, be32_bytes};
use crate::spv::TxOutput;
use crate::text::ascii;
use crate::transaction::{
    is_stripped, legacy_bytes, stripped_bytes, FieldsModel, TxFields, TxInput,
};
use crate::types::BitcoinNetwork;

verus! {

// ---------------------------------------------------------------------------
// Hashes
// ---------------------------------------------------------------------------

/// The SHA-256 hash of a byte string.
pub uninterp spec fn sha256_of(data: Seq<u8>) -> Seq<u8>;

/// `sha2::Sha256::digest`: 32 bytes that depend on `data` alone.
#[verifier::external_body]
pub(crate) fn sha256(data: &[u8]) -> (r: [u8; 32])
    ensures
        r@ == sha256_of(data@),
{
    sha2::Sha256::digest(data).into()
}

/// The BLAKE3 hash of a byte string.
pub uninterp spec fn blake3_of(data: Seq<u8>) -> Seq<u8>;

/// `blake3::hash`: 32 bytes that depend on `data` alone.
#[verifier::external_body]
pub(crate) fn blake3_hash(data: &[u8]) -> (r: [u8; 32])
    ensures
        r@ == blake3_of(data@),
{
    *blake3::hash(data).as_bytes()
}

// ---------------------------------------------------------------------------
// Ed25519
// ---------------------------------------------------------------------------

/// The public key that belongs to a 32-byte secret seed.
pub uninterp spec fn ed25519_public_of(seed: Seq<u8>) -> Seq<u8>;

/// `ed25519_dalek::SigningKey::verifying_key` of the key that
/// `SigningKey::from_bytes` makes of `seed`. What it gives is a public key.
#[verifier::external_body]
pub(crate) fn ed25519_public(seed: &[u8; 32]) -> (r: [u8; 32])
    ensures
        r@ == ed25519_public_of(seed@),
        ed25519_key_fault(r@) is None,
{
    ed25519_dalek::SigningKey::from_bytes(seed).verifying_key().to_bytes()
}

/// The Ed25519 signature that a seed makes over a message.
pub uninterp spec fn ed25519_signature_of(seed: Seq<u8>, message: Seq<u8>) -> Seq<u8>;

/// Why 32 bytes are no Ed25519 public key, or `None` where they are one.
pub uninterp spec fn ed25519_key_fault(key: Seq<u8>) -> Option<Seq<char>>;

/// Why a signature over a message is refused under a public key, or `None` where it
/// is accepted.
pub uninterp spec fn ed25519_signature_fault(
    key: Seq<u8>,
    message: Seq<u8>,
    signature: Seq<u8>,
) -> Option<Seq<char>>;

/// Whether a signature over a message is accepted under 32 bytes that are a public key.
pub open spec fn ed25519_accepts(key: Seq<u8>, message: Seq<u8>, signature: Seq<u8>) -> bool {
    ed25519_key_fault(key) is None && ed25519_signature_fault(key, message, signature) is None
}

/// `ed25519_dalek::SigningKey::sign`. Signing is deterministic, and the signature is
/// accepted under the seed's own public key, which is a public key.
#[verifier::external_body]
pub(crate) fn ed25519_sign(seed: &[u8; 32], message: &[u8]) -> (r: [u8; 64])
    ensures
        r@ == ed25519_signature_of(seed@, message@),
        ed25519_accepts(ed25519_public_of(seed@), message@, r@),
{
    ed25519_dalek::SigningKey::from_bytes(seed).sign(message).to_bytes()
}

/// `ed25519_dalek::VerifyingKey::from_bytes`: the text of its error, if it fails.
#[verifier::external_body]
pub(crate) fn ed25519_check_key(key: &[u8; 32]) -> (r: Option<String>)
    ensures
        r matches Some(e) ==> ed25519_key_fault(key@) == Some(e@),
        r is None ==> ed25519_key_fault(key@) is None,
{
    ed25519_dalek::VerifyingKey::from_bytes(key).err().map(|e| e.to_string())
}

/// `ed25519_dalek::VerifyingKey::verify` under a key that
/// `VerifyingKey::from_bytes` accepts: the text of its error, if it fails.
#[verifier::external_body]
pub(crate) fn ed25519_check(key: &[u8; 32], message: &[u8], signature: &[u8; 64]) -> (r: Option<
    String,
>)
    requires
        ed25519_key_fault(key@) is None,
    ensures
        r matches Some(e) ==> ed25519_signature_fault(key@, message@, signature@) == Some(e@),
        r is None ==> ed25519_signature_fault(key@, message@, signature@) is None,
{
    let signature = ed25519_dalek::Signature::from_bytes(signature);
    let key = ed25519_dalek::VerifyingKey::from_bytes(key);
    key.and_then(|k| k.verify(message, &signature)).err().map(|e| e.to_string())
}

// ---------------------------------------------------------------------------
// Text encodings
// ---------------------------------------------------------------------------

/// Base58 text of a byte string, in Bitcoin's alphabet.
pub uninterp spec fn base58_of(data: Seq<u8>) -> Seq<char>;

/// What a base58 text says: its bytes, or why it says none.
pub uninterp spec fn base58_read(text: Seq<char>) -> Result<Seq<u8>, Seq<char>>;

/// `bs58::encode(..).into_string()`. Reading the text gives back the bytes, and no letter of
/// the alphabet is white space.
#[verifier::external_body]
pub(crate) fn base58_encode(data: &[u8]) -> (r: String)
    ensures
        r@ == base58_of(data@),
        base58_read(r@) is Ok && base58_read(r@)->Ok_0 == data@,
        forall|i: int| 0 <= i < r@.len() ==> !is_white(#[trigger] r@[i]),
{
    bs58::encode(data).into_string()
}

/// `bs58::decode(..).into_vec()`, its error as text.
#[verifier::external_body]
pub(crate) fn base58_decode(text: &str) -> (r: Result<Vec<u8>, String>)
    ensures
        r matches Ok(v) ==> base58_read(text@) is Ok && base58_read(text@)->Ok_0 == v@,
        r matches Err(e) ==> base58_read(text@) is Err && base58_read(text@)->Err_0 == e@,
{
    bs58::decode(text).into_vec().map_err(|e| e.to_string())
}

/// The lower-case hexadecimal digit of `n`.
pub open spec fn hex_digit(n: int) -> char {
    if n < 10 {
        (('0' as u32) + n) as char
    } else {
        (('a' as u32) + n - 10) as char
    }
}

/// Two lower-case hexadecimal digits for each byte, the high half first.
pub open spec fn hex_text(data: Seq<u8>) -> Seq<char> {
    Seq::new(
        2 * data.len(),
        |i: int| if i % 2 == 0 { hex_digit(data[i / 2] as int / 16) } else {
            hex_digit(data[i / 2] as int % 16)
        },
    )
}

/// The value of a hexadecimal digit of either case.
pub open spec fn hex_value(c: char) -> Option<int> {
    if '0' <= c <= '9' {
        Some(c as int - '0' as int)
    } else if 'a' <= c <= 'f' {
        Some(c as int - 'a' as int + 10)
    } else if 'A' <= c <= 'F' {
        Some(c as int - 'A' as int + 10)
    } else {
        None
    }
}

/// An even number of hexadecimal digits.
pub open spec fn is_hex(text: Seq<char>) -> bool {
    text.len() % 2 == 0 && forall|i: int| 0 <= i < text.len() ==> hex_value(#[trigger] text[i]) is Some
}

/// The bytes that hexadecimal digits stand for, two digits each.
pub open spec fn hex_bytes(text: Seq<char>) -> Seq<u8> {
    Seq::new(
        text.len() / 2,
        |i: int| (16 * hex_value(text[2 * i]).unwrap() + hex_value(text[2 * i + 1]).unwrap()) as u8,
    )
}

/// Why a text that is no hexadecimal is refused.
pub uninterp spec fn hex_fault(text: Seq<char>) -> Seq<char>;

/// `hex::encode`: two lower-case digits for each byte.
#[verifier::external_body]
pub(crate) fn hex_encode(data: &[u8]) -> (r: String)
    ensures
        r@ == hex_text(data@),
{
    hex::encode(data)
}

/// `hex::decode`: it reads an even number of digits of either case, and refuses any
/// other text, its error as text.
#[verifier::external_body]
pub(crate) fn hex_decode(text: &str) -> (r: Result<Vec<u8>, String>)
    ensures
        r is Ok <==> is_hex(text@),
        r matches Ok(v) ==> v@ == hex_bytes(text@),
        r matches Err(e) ==> e@ == hex_fault(text@),
{
    hex::decode(text).map_err(|e| e.to_string())
}

/// The characters that Unicode calls white space (its property `White_Space`).
pub open spec fn is_white(c: char) -> bool {
    let n = c as int;
    ||| 9 <= n <= 13
    ||| n == 32
    ||| n == 0x85
    ||| n == 0xA0
    ||| n == 0x1680
    ||| 0x2000 <= n <= 0x200A
    ||| n == 0x2028
    ||| n == 0x2029
    ||| n == 0x202F
    ||| n == 0x205F
    ||| n == 0x3000
}

/// A text without the white space at its ends.
pub open spec fn trimmed_of(text: Seq<char>) -> Seq<char>
    decreases text.len(),
{
    if text.len() == 0 {
        text
    } else if is_white(text[0]) {
        trimmed_of(text.subrange(1, text.len() as int))
    } else if is_white(text.last()) {
        trimmed_of(text.drop_last())
    } else {
        text
    }
}

/// `str::trim`: the text without the white space at its ends.
#[verifier::external_body]
pub(crate) fn trim(text: &str) -> (r: &str)
    ensures
        r@ == trimmed_of(text@),
{
    text.trim()
}

// ---------------------------------------------------------------------------
// Contract addresses and pointers
// ---------------------------------------------------------------------------

/// `freenet_migrate::contract_id_from_code_hash`: a contract's address is the BLAKE3 hash
/// of its code's hash and its parameters.
#[verifier::external_body]
pub(crate) fn contract_id(code_hash: &[u8; 32], params: &[u8]) -> (r: [u8; 32])
    ensures
        r@ == blake3_of(code_hash@ + params@),
{
    let params = freenet_stdlib::prelude::Parameters::from(params.to_vec());
    *freenet_migrate::contract_id_from_code_hash(code_hash, &params)
}

/// `freenet_stdlib::prelude::ContractCode::hash`: the BLAKE3 hash of a contract's code.
#[verifier::external_body]
pub(crate) fn code_hash(code: &[u8]) -> (r: [u8; 32])
    ensures
        r@ == blake3_of(code@),
{
    **freenet_stdlib::prelude::ContractCode::from(code.to_vec()).hash()
}

/// The parameters of an author's pointer for one app, or why it has none.
pub uninterp spec fn pointer_params_of(author: Seq<u8>, app_id: Seq<u8>) -> Result<
    Seq<u8>,
    Seq<char>,
>;

/// `freenet_migrate::pointer_params` under a key that `VerifyingKey::from_bytes` accepts,
/// its error as text. The parameters are the key followed by the app's name.
#[verifier::external_body]
pub(crate) fn pointer_params(author: &[u8; 32], app_id: &[u8]) -> (r: Result<Vec<u8>, String>)
    requires
        ed25519_key_fault(author@) is None,
    ensures
        r matches Ok(p) ==> pointer_params_of(author@, app_id@) is Ok && pointer_params_of(
            author@,
            app_id@,
        )->Ok_0 == p@,
        r matches Err(e) ==> pointer_params_of(author@, app_id@) is Err && pointer_params_of(
            author@,
            app_id@,
        )->Err_0 == e@,
        r matches Ok(p) ==> p@ == author@ + app_id@,
{
    let key = ed25519_dalek::VerifyingKey::from_bytes(author).map_err(|e| e.to_string())?;
    freenet_migrate::pointer_params(&key, app_id).map_err(|e| e.to_string())
}

/// The hash of the code that every pointer runs, which base58 writes as
/// `8wnAPaSRY1oYZCz723fdwK6BgzL6q8ozP3buVovXnt6v`.
pub open spec fn pointer_code() -> Seq<u8> {
    seq![
        0x76u8, 0x0a, 0x3c, 0xa4, 0x1c, 0x63, 0x09, 0x11, 0x2f, 0x1d, 0xdb, 0xff, 0x03, 0x2f, 0xde,
        0x9b, 0x64, 0x29, 0xc8, 0xfb, 0x0a, 0xd6, 0xf5, 0xa2, 0xbc, 0xb7, 0x18, 0x45, 0x08, 0xee,
        0x30, 0x0b,
    ]
}

/// The address of an author's pointer for one app, or why it has none: the BLAKE3 hash of
/// the pointers' code hash and the pointer's parameters.
pub open spec fn pointer_id_of(author: Seq<u8>, app_id: Seq<u8>) -> Result<Seq<u8>, Seq<char>> {
    match pointer_params_of(author, app_id) {
        Ok(params) => Ok(blake3_of(pointer_code() + params)),
        Err(e) => Err(e),
    }
}

/// `freenet_migrate::pointer_contract_id` under a key that `VerifyingKey::from_bytes`
/// accepts, its error as text: that of `pointer_params`, which it calls. The address is
/// the hash of the frozen pointer code's hash and those parameters.
#[verifier::external_body]
pub(crate) fn pointer_id(author: &[u8; 32], app_id: &[u8]) -> (r: Result<[u8; 32], String>)
    requires
        ed25519_key_fault(author@) is None,
    ensures
        r matches Ok(id) ==> pointer_id_of(author@, app_id@) is Ok && pointer_id_of(
            author@,
            app_id@,
        )->Ok_0 == id@,
        r matches Err(e) ==> pointer_id_of(author@, app_id@) is Err && pointer_id_of(
            author@,
            app_id@,
        )->Err_0 == e@,
{
    let key = ed25519_dalek::VerifyingKey::from_bytes(author).map_err(|e| e.to_string())?;
    freenet_migrate::pointer_contract_id(&key, app_id).map(|id| *id).map_err(|e| e.to_string())
}

/// What an author signs to point an app at some code.
pub open spec fn pointer_message(params: Seq<u8>, version: u32, code_hash: Seq<u8>) -> Seq<u8> {
    ascii("freenet-pointer/state-v1"@) + params + be32_bytes(version) + code_hash
}

/// `freenet_migrate::pointer_signing_message`: a domain tag, the pointer's parameters, the
/// version with its highest byte first, and the hash of the code.
#[verifier::external_body]
pub(crate) fn pointer_signing_message(params: &[u8], version: u32, code_hash: &[u8; 32]) -> (r: Vec<
    u8,
>)
    ensures
        r@ == pointer_message(params@, version, code_hash@),
{
    freenet_migrate::pointer_signing_message(params, version, code_hash)
}

/// `freenet_migrate::PointerRecord::encode`: the version with its highest byte first, the
/// hash of the code, and the signature.
#[verifier::external_body]
pub(crate) fn pointer_encode(version: u32, code_hash: &[u8; 32], signature: &[u8; 64]) -> (r: Vec<
    u8,
>)
    ensures
        r@ == be32_bytes(version) + code_hash@ + signature@,
{
    let (code_hash, signature) = (*code_hash, *signature);
    freenet_migrate::PointerRecord { version, code_hash, signature }.encode().to_vec()
}

/// `freenet_migrate::PointerRecord::decode`: takes apart what is exactly 100 bytes long,
/// and checks nothing else.
#[verifier::external_body]
pub(crate) fn pointer_decode(bytes: &[u8]) -> (r: Option<(u32, [u8; 32], [u8; 64])>)
    ensures
        r is Some <==> bytes@.len() == 100,
        r matches Some((version, code_hash, signature)) ==> version == be32(bytes@, 0)
            && code_hash@ == bytes@.subrange(4, 36) && signature@ == bytes@.subrange(36, 100),
{
    let record = freenet_migrate::PointerRecord::decode(bytes).ok();
    record.map(|r| (r.version, r.code_hash, r.signature))
}

/// Whether a pointer's record stands: its version is in range, and its signature holds
/// under the author's key by the strict rules.
pub uninterp spec fn pointer_holds(
    version: u32,
    code_hash: Seq<u8>,
    signature: Seq<u8>,
    params: Seq<u8>,
    author: Seq<u8>,
) -> bool;

/// `freenet_migrate::PointerRecord::verify` under a key that `VerifyingKey::from_bytes`
/// accepts. No record of version zero or of the highest version stands. That a record
/// which was just signed stands is not claimed: the strict rules refuse signatures that
/// signing makes with a negligible chance.
#[verifier::external_body]
pub(crate) fn pointer_verify(
    version: u32,
    code_hash: &[u8; 32],
    signature: &[u8; 64],
    params: &[u8],
    author: &[u8; 32],
) -> (r: bool)
    requires
        ed25519_key_fault(author@) is None,
    ensures
        r == pointer_holds(version, code_hash@, signature@, params@, author@),
        r ==> 0 < version < u32::MAX,
{
    let (code_hash, signature) = (*code_hash, *signature);
    let record = freenet_migrate::PointerRecord { version, code_hash, signature };
    let key = ed25519_dalek::VerifyingKey::from_bytes(author);
    key.is_ok_and(|k| record.verify(params, &k).is_ok())
}

// ---------------------------------------------------------------------------
// Ghost Keys
// ---------------------------------------------------------------------------

/// The master key that a text holds, if it holds one.
pub uninterp spec fn master_key_of(text: Seq<char>) -> Option<Seq<u8>>;

/// `ed25519_dalek::VerifyingKey::from_base64`, which `ghostkey_lib`'s `Armorable` provides.
/// What it gives is a public key.
#[verifier::external_body]
pub(crate) fn master_key(text: &str) -> (r: Option<[u8; 32]>)
    ensures
        r matches Some(k) ==> master_key_of(text@) == Some(k@),
        r is None ==> master_key_of(text@) is None,
        r matches Some(k) ==> ed25519_key_fault(k@) is None,
{
    ed25519_dalek::VerifyingKey::from_base64(text).ok().map(|k| k.to_bytes())
}

/// The signature that a Ghost Key certificate carries, if the text is a certificate.
pub uninterp spec fn certificate_signature_of(pem: Seq<char>) -> Option<Seq<u8>>;

/// `GhostkeyCertificateV1::from_armored_string`: the notary's signature in the certificate
/// that it reads.
#[verifier::external_body]
pub(crate) fn certificate_signature(pem: &str) -> (r: Option<Vec<u8>>)
    ensures
        r matches Some(s) ==> certificate_signature_of(pem@) == Some(s@),
        r is None ==> certificate_signature_of(pem@) is None,
{
    let cert = ghostkey_lib::ghost_key_certificate::GhostkeyCertificateV1::from_armored_string(pem);
    cert.ok().map(|c| c.signature.0)
}

/// Whether a text is a certificate whose signature can be checked. A signature is as long
/// as the modulus of the notary's key, or it is refused; so one that is empty is checked
/// under no key but that of modulus zero, by which nothing can be divided. Nor is there a
/// mask for one of more than four gibibytes.
pub open spec fn can_be_checked(pem: Seq<char>) -> bool {
    certificate_signature_of(pem) matches Some(s) && 0 < s.len() <= u32::MAX
}

/// The key that a Ghost Key certificate certifies, if the text is a certificate that holds
/// under a master key: the one given, or Freenet's published one.
pub uninterp spec fn certified_key_of(pem: Seq<char>, master: Option<Seq<u8>>) -> Option<Seq<u8>>;

/// `GhostkeyCertificateV1::from_armored_string`, the certificate's `verify` under the
/// master key, and the key that it is about. What it gives is a public key. Asked only of
/// certificates that [`can_be_checked`] says can be.
#[verifier::external_body]
pub(crate) fn certified_key(pem: &str, master: Option<[u8; 32]>) -> (r: Option<[u8; 32]>)
    requires
        can_be_checked(pem@),
        master matches Some(m) ==> ed25519_key_fault(m@) is None,
    ensures
        r matches Some(k) ==> certified_key_of(
            pem@,
            (match master {
                Some(m) => Some(m@),
                None => None,
            }),
        ) == Some(k@),
        r is None ==> certified_key_of(
            pem@,
            (match master {
                Some(m) => Some(m@),
                None => None,
            }),
        ) is None,
        r matches Some(k) ==> ed25519_key_fault(k@) is None,
{
    let cert = ghostkey_lib::ghost_key_certificate::GhostkeyCertificateV1::from_armored_string(pem);
    let master = master.map(|m| ed25519_dalek::VerifyingKey::from_bytes(&m)).transpose();
    let (cert, master) = (cert.ok()?, master.ok()?);
    cert.verify(&master).ok().map(|_| cert.verifying_key.to_bytes())
}

// ---------------------------------------------------------------------------
// Chance
// ---------------------------------------------------------------------------

/// `rand::thread_rng().fill_bytes`: 32 bytes that nothing here predicts.
#[verifier::external_body]
pub(crate) fn random32() -> (r: [u8; 32]) {
    let mut bytes = [0u8; 32];
    rand::thread_rng().fill_bytes(&mut bytes);
    bytes
}

// ---------------------------------------------------------------------------
// Blocks and transactions
// ---------------------------------------------------------------------------

/// The transaction that bytes hold, or why they hold none.
pub uninterp spec fn tx_of(raw: Seq<u8>) -> Result<FieldsModel, Seq<char>>;

/// `bitcoin::consensus::deserialize` of a `bitcoin::Transaction`, field by field.
#[verifier::external_body]
pub(crate) fn read_transaction(raw: &[u8]) -> (r: Result<TxFields, String>)
    ensures
        r matches Ok(t) ==> tx_of(raw@) is Ok && tx_of(raw@)->Ok_0 == t@,
        r matches Err(e) ==> tx_of(raw@) is Err && tx_of(raw@)->Err_0 == e@,
{
    let tx: Transaction = bitcoin::consensus::deserialize(raw).map_err(|e| e.to_string())?;
    let inputs = tx.input.into_iter().map(|i| TxInput {
        prev_txid: bitcoin::hashes::Hash::to_byte_array(i.previous_output.txid),
        prev_index: i.previous_output.vout,
        script_sig: i.script_sig.into_bytes(), sequence: i.sequence.0, witness: i.witness.to_vec(),
    }).collect();
    let outputs = tx.output.into_iter().map(|o| TxOutput {
        value_sats: o.value.to_sat(), script_pubkey: o.script_pubkey.into_bytes(),
    }).collect();
    Ok(TxFields {
        version: tx.version.0, inputs, outputs, lock_time: tx.lock_time.to_consensus_u32(),
    })
}

/// `bitcoin::consensus::serialize` of a `bitcoin::Transaction` that carries no witness
/// data: its legacy serialization if it has inputs, and otherwise the one with the marker
/// and the flag of a witness.
#[verifier::external_body]
pub(crate) fn transaction_bytes(t: &TxFields) -> (r: Vec<u8>)
    requires
        is_stripped(t@),
    ensures
        r@ == stripped_bytes(t@),
{
    let input = t.inputs.iter().map(|i| TxIn {
        previous_output: OutPoint::new(
            bitcoin::hashes::Hash::from_byte_array(i.prev_txid), i.prev_index),
        script_sig: i.script_sig.clone().into(), sequence: Sequence(i.sequence),
        witness: Witness::from_slice(&i.witness),
    }).collect();
    let output = t.outputs.iter().map(|o| TxOut {
        value: Amount::from_sat(o.value_sats), script_pubkey: o.script_pubkey.clone().into(),
    }).collect();
    let version = Version(t.version);
    let lock_time = LockTime::from_consensus(t.lock_time);
    bitcoin::consensus::serialize(&Transaction { version, lock_time, input, output })
}

/// `bitcoin::Transaction::compute_txid`: the double SHA-256 of the transaction's legacy
/// serialization, which leaves witness data out. Asked of a transaction that carries none.
#[verifier::external_body]
pub(crate) fn transaction_txid(t: &TxFields) -> (r: [u8; 32])
    requires
        is_stripped(t@),
    ensures
        r@ == sha256_of(sha256_of(legacy_bytes(t@))),
{
    let input = t.inputs.iter().map(|i| TxIn {
        previous_output: OutPoint::new(
            bitcoin::hashes::Hash::from_byte_array(i.prev_txid), i.prev_index),
        script_sig: i.script_sig.clone().into(), sequence: Sequence(i.sequence),
        witness: Witness::from_slice(&i.witness),
    }).collect();
    let output = t.outputs.iter().map(|o| TxOut {
        value: Amount::from_sat(o.value_sats), script_pubkey: o.script_pubkey.clone().into(),
    }).collect();
    let version = Version(t.version);
    let lock_time = LockTime::from_consensus(t.lock_time);
    let tx = Transaction { version, lock_time, input, output };
    bitcoin::hashes::Hash::to_byte_array(tx.compute_txid())
}

/// A block's header and transactions, each as bytes.
#[derive(Debug)]
pub struct BlockParts {
    pub header: Vec<u8>,
    pub txs: Vec<Vec<u8>>,
}

/// The header and the transactions of the block that bytes hold, or why they hold none.
pub uninterp spec fn block_of(raw: Seq<u8>) -> Result<(Seq<u8>, Seq<Seq<u8>>), Seq<char>>;

/// `bitcoin::consensus::deserialize` of a `bitcoin::Block`, and
/// `bitcoin::consensus::serialize` of its header and of each of its transactions.
#[verifier::external_body]
pub(crate) fn read_block(raw: &[u8]) -> (r: Result<BlockParts, String>)
    ensures
        r matches Ok(b) ==> block_of(raw@) is Ok && block_of(raw@)->Ok_0 == (
            b.header@,
            b.txs@.map_values(|t: Vec<u8>| t@),
        ),
        r matches Err(e) ==> block_of(raw@) is Err && block_of(raw@)->Err_0 == e@,
{
    let block: bitcoin::Block = bitcoin::consensus::deserialize(raw).map_err(|e| e.to_string())?;
    let txs = block.txdata.iter().map(|t| bitcoin::consensus::serialize(t)).collect();
    Ok(BlockParts { header: bitcoin::consensus::serialize(&block.header), txs })
}

// ---------------------------------------------------------------------------
// Addresses
// ---------------------------------------------------------------------------

/// Whether a text is a Bitcoin address, of whatever network.
pub uninterp spec fn is_address(text: Seq<char>) -> bool;

/// `bitcoin::Address::from_str`: whether it succeeds.
#[verifier::external_body]
pub(crate) fn reads_as_address(text: &str) -> (r: bool)
    ensures
        r == is_address(text@),
{
    text.parse::<bitcoin::Address<bitcoin::address::NetworkUnchecked>>().is_ok()
}

/// The script that an address stands for on a network, given by its tag.
pub uninterp spec fn address_script_of(text: Seq<char>, network: u8) -> Option<Seq<u8>>;

/// `bitcoin::Address::require_network` of an address, and its `script_pubkey` if it may be
/// used on the network. Only an address stands for a script.
#[verifier::external_body]
pub(crate) fn address_script(text: &str, network: BitcoinNetwork) -> (r: Option<Vec<u8>>)
    ensures
        r matches Some(s) ==> address_script_of(text@, network.tag_of()) == Some(s@),
        r is None ==> address_script_of(text@, network.tag_of()) is None,
        r is Some ==> is_address(text@),
{
    let net = match network {
        BitcoinNetwork::Bitcoin => bitcoin::Network::Bitcoin,
        BitcoinNetwork::Testnet4 => bitcoin::Network::Testnet4,
        BitcoinNetwork::Signet => bitcoin::Network::Signet,
        BitcoinNetwork::Regtest => bitcoin::Network::Regtest,
    };
    let address = text.parse::<bitcoin::Address<bitcoin::address::NetworkUnchecked>>().ok()?;
    address.require_network(net).ok().map(|a| a.script_pubkey().as_bytes().to_vec())
}

} // verus!
