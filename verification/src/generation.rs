//! Telling readers which contracts a bridge publishes to.
//!
//! A contract's address follows from its code, so every rebuild moves it. A reader that
//! derives the address from other code reads a contract that nobody writes to, and sees
//! nothing: neither side fails. So a bridge publishes one pointer record for each of its
//! contracts, signed with its own key, that names the code it publishes to now.
//!
//! The pointer contract refuses a record that does not supersede the one it holds, so
//! versions must rise. What the bridge remembers may be lost with its database; what
//! stands at the pointer is therefore read back first, and counts where the bridge itself
//! has signed it.

use vstd::prelude::*;

use crate::bytes::{be32, be32_bytes, be32_roundtrip, same32};
use crate::outside::{
    base58_encode, base58_of, ed25519_check_key, ed25519_key_fault, ed25519_public,
    ed25519_public_of, ed25519_sign, ed25519_signature_of, pointer_decode, pointer_encode,
    pointer_holds, pointer_id, pointer_id_of, pointer_message, pointer_params, pointer_params_of,
    pointer_signing_message, pointer_verify,
};
use crate::text::{ascii, ascii_bytes, join};

verus! {

/// A contract that a bridge publishes to.
#[derive(Clone, Copy, PartialEq, Eq, Debug, Structural)]
pub enum Artifact {
    Address,
    Tip,
}

impl Artifact {
    /// The name that its pointer goes by.
    pub open spec fn app(self) -> Seq<char> {
        match self {
            Artifact::Address => "freenet-bitcoin.address"@,
            Artifact::Tip => "freenet-bitcoin.tip"@,
        }
    }

    pub fn app_id(self) -> (r: &'static str)
        ensures
            r@ == self.app(),
    {
        match self {
            Artifact::Address => "freenet-bitcoin.address",
            Artifact::Tip => "freenet-bitcoin.tip",
        }
    }

    fn app_bytes(self) -> (r: Vec<u8>)
        ensures
            r@ == ascii(self.app()),
    {
        match self {
            Artifact::Address => {
                proof {
                    reveal_strlit("freenet-bitcoin.address");
                }
                ascii_bytes("freenet-bitcoin.address")
            },
            Artifact::Tip => {
                proof {
                    reveal_strlit("freenet-bitcoin.tip");
                }
                ascii_bytes("freenet-bitcoin.tip")
            },
        }
    }

    /// Every artifact, in the order in which their pointers are published.
    pub fn all() -> (r: [Artifact; 2])
        ensures
            r@ == seq![Artifact::Address, Artifact::Tip],
    {
        let r = [Artifact::Address, Artifact::Tip];
        assert(r@ =~= seq![Artifact::Address, Artifact::Tip]);
        r
    }
}

/// What a bridge believes about one artifact's pointer, after publishing.
#[derive(Clone, PartialEq, Eq, Debug)]
pub struct PointerState {
    pub artifact: Artifact,
    /// Where the record lives, in base58. It follows from the bridge's identity alone.
    pub pointer_id: String,
    /// The hash of the code that the bridge publishes to.
    pub code_hash: [u8; 32],
    /// The version that now stands at the pointer.
    pub version: u32,
    /// Whether this run moved the pointer to new code.
    pub advanced: bool,
}

/// A version, and the hash of the code it points at.
pub type Standing = (u32, [u8; 32]);

/// What to go on from: the higher of what the bridge remembers and what stands, and what
/// it remembers where they are level.
pub open spec fn baseline(stored: Option<Standing>, published: Option<Standing>) -> Option<
    Standing,
> {
    match (stored, published) {
        (Some(a), Some(b)) => Some(
            if b.0 > a.0 {
                b
            } else {
                a
            },
        ),
        (Some(a), None) => Some(a),
        (None, b) => b,
    }
}

/// The version to publish, and whether it is a new one: 1 where nothing was published, the
/// standing one where it already names this code, and the one after it otherwise.
pub open spec fn next(
    stored: Option<Standing>,
    published: Option<Standing>,
    code_hash: Seq<u8>,
) -> (u32, bool) {
    match baseline(stored, published) {
        None => (1, true),
        Some((v, h)) => if h@ == code_hash {
            (v, false)
        } else if v < u32::MAX {
            ((v + 1) as u32, true)
        } else {
            (v, true)
        },
    }
}

pub fn next_version(
    stored: Option<Standing>,
    published: Option<Standing>,
    code_hash: &[u8; 32],
) -> (r: (u32, bool))
    ensures
        r == next(stored, published, code_hash@),
{
    let base = match (stored, published) {
        (Some(a), Some(b)) => {
            if b.0 > a.0 {
                Some(b)
            } else {
                Some(a)
            }
        },
        (Some(a), None) => Some(a),
        (None, b) => b,
    };
    match base {
        None => (1, true),
        Some((v, h)) => {
            if same32(&h, code_hash) {
                (v, false)
            } else {
                (v.saturating_add(1), true)
            }
        },
    }
}

/// A version never goes back, neither behind what the bridge remembers nor behind what
/// stands. It goes ahead of both when the code changes, short of the highest version there
/// is, and only then: publishing the same code again uses up no version.
pub proof fn versions_rise_with_the_code(
    stored: Option<Standing>,
    published: Option<Standing>,
    code_hash: Seq<u8>,
)
    ensures
        stored is Some ==> next(stored, published, code_hash).0 >= stored->Some_0.0,
        published is Some ==> next(stored, published, code_hash).0 >= published->Some_0.0,
        next(stored, published, code_hash).1 <==> (baseline(stored, published) is None || baseline(
            stored,
            published,
        )->Some_0.1@ != code_hash),
        next(stored, published, code_hash).1 && stored is Some && next(
            stored,
            published,
            code_hash,
        ).0 < u32::MAX ==> next(stored, published, code_hash).0 > stored->Some_0.0,
        next(stored, published, code_hash).1 && published is Some && next(
            stored,
            published,
            code_hash,
        ).0 < u32::MAX ==> next(stored, published, code_hash).0 > published->Some_0.0,
{
}

/// A bridge that lost its database goes on from what stands at its pointer, instead of
/// starting over at 1 and being refused for ever.
pub proof fn a_lost_database_restarts_nothing(published: Standing, code_hash: Seq<u8>)
    requires
        published.1@ != code_hash,
        published.0 < u32::MAX,
    ensures
        next(None, Some(published), code_hash) == ((published.0 + 1) as u32, true),
{
}

/// What stands at a pointer, if the author of the pointer has signed it.
pub open spec fn published_by(state: Seq<u8>, params: Seq<u8>, author: Seq<u8>) -> Option<
    (u32, Seq<u8>),
> {
    if ed25519_key_fault(author) is None && state.len() == 100 && pointer_holds(
        be32(state, 0) as u32,
        state.subrange(4, 36),
        state.subrange(36, 100),
        params,
        author,
    ) {
        Some((be32(state, 0) as u32, state.subrange(4, 36)))
    } else {
        None
    }
}

/// Read what stands at a bridge's pointer. A record that someone else has signed is as
/// good as none: acting on it would let a stranger drive the version to its end.
pub fn read_published(state: &[u8], params: &[u8], author: &[u8; 32]) -> (r: Option<Standing>)
    ensures
        match (r, published_by(state@, params@, author@)) {
            (Some((v, h)), Some((w, g))) => v == w && h@ == g && 0 < v < u32::MAX,
            (None, None) => true,
            _ => false,
        },
{
    if ed25519_check_key(author).is_some() {
        return None;
    }
    match pointer_decode(state) {
        None => None,
        Some((version, code_hash, signature)) => {
            if pointer_verify(version, &code_hash, &signature, params, author) {
                Some((version, code_hash))
            } else {
                None
            }
        },
    }
}

/// A pointer record that is ready to be published.
#[derive(Debug)]
pub struct PointerUpdate {
    pub state: PointerState,
    /// The parameters of the pointer contract.
    pub params: Vec<u8>,
    /// The signed record.
    pub record: Vec<u8>,
}

/// The record that a bridge signs for a version of one of its artifacts.
pub open spec fn record_of(seed: Seq<u8>, params: Seq<u8>, version: u32, code_hash: Seq<u8>) -> Seq<
    u8,
> {
    be32_bytes(version) + code_hash + ed25519_signature_of(
        seed,
        pointer_message(params, version, code_hash),
    )
}

/// Where a bridge's pointer for an artifact is, and with what parameters.
pub fn pointer_place(seed: &[u8; 32], artifact: Artifact) -> (r: Result<
    ([u8; 32], Vec<u8>),
    String,
>)
    ensures
        ({
            let author = ed25519_public_of(seed@);
            let app = ascii(artifact.app());
            match r {
                Ok((id, params)) => pointer_id_of(author, app) is Ok && pointer_params_of(
                    author,
                    app,
                ) is Ok && id@ == pointer_id_of(author, app)->Ok_0 && params@
                    == pointer_params_of(author, app)->Ok_0 && params@ == author + app,
                Err(e) => if pointer_id_of(author, app) is Err {
                    e@ == "deriving the pointer address: "@ + pointer_id_of(author, app)->Err_0
                } else {
                    pointer_params_of(author, app) is Err && e@ == "building pointer params: "@
                        + pointer_params_of(author, app)->Err_0
                },
            }
        }),
{
    let author = ed25519_public(seed);
    let app = artifact.app_bytes();
    match pointer_id(&author, &app) {
        Err(e) => Err(join("deriving the pointer address: ", &e)),
        Ok(id) => match pointer_params(&author, &app) {
            Err(e) => Err(join("building pointer params: ", &e)),
            Ok(params) => Ok((id, params)),
        },
    }
}

/// The record to publish at a bridge's pointer, which supersedes what stands there if the
/// code has changed, and is what stands there if it has not: that heals a pointer whose
/// only copy was lost.
pub fn pointer_update(
    seed: &[u8; 32],
    artifact: Artifact,
    code_hash: &[u8; 32],
    id: &[u8; 32],
    params: Vec<u8>,
    stored: Option<Standing>,
    published: Option<Standing>,
) -> (r: PointerUpdate)
    ensures
        r.state.artifact == artifact,
        r.state.pointer_id@ == base58_of(id@),
        r.state.code_hash == *code_hash,
        (r.state.version, r.state.advanced) == next(stored, published, code_hash@),
        r.params@ == params@,
        r.record@ == record_of(seed@, params@, r.state.version, code_hash@),
{
    let (version, advanced) = next_version(stored, published, code_hash);
    let message = pointer_signing_message(&params, version, code_hash);
    let signature = ed25519_sign(seed, &message);
    let record = pointer_encode(version, code_hash, &signature);
    PointerUpdate {
        state: PointerState {
            artifact,
            pointer_id: base58_encode(id),
            code_hash: *code_hash,
            version,
            advanced,
        },
        params,
        record,
    }
}

/// What a bridge publishes at its pointer is what it reads there afterwards, as long as
/// its own signature stands.
pub proof fn what_is_published_is_read(
    seed: Seq<u8>,
    params: Seq<u8>,
    version: u32,
    code_hash: Seq<u8>,
)
    requires
        code_hash.len() == 32,
        ed25519_signature_of(seed, pointer_message(params, version, code_hash)).len() == 64,
        ed25519_key_fault(ed25519_public_of(seed)) is None,
        pointer_holds(
            version,
            code_hash,
            ed25519_signature_of(seed, pointer_message(params, version, code_hash)),
            params,
            ed25519_public_of(seed),
        ),
    ensures
        published_by(
            record_of(seed, params, version, code_hash),
            params,
            ed25519_public_of(seed),
        ) == Some((version, code_hash)),
{
    let record = record_of(seed, params, version, code_hash);
    let signature = ed25519_signature_of(seed, pointer_message(params, version, code_hash));
    be32_roundtrip(version);
    assert(be32(record, 0) == be32(be32_bytes(version), 0));
    assert(record.subrange(4, 36) =~= code_hash);
    assert(record.subrange(36, 100) =~= signature);
}

} // verus!
