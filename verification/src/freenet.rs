//! Publishing observations into Freenet contracts.
//!
//! A bridge may publish the same thing as often as it likes: contracts take a union of
//! what they are sent. What takes care is the connection. A node's reply is matched to its
//! request by order and nothing else, so a reply that comes late, or unasked, would be read
//! as the answer to the next request. The only way to be rid of such a reply is to be rid
//! of the connection that it would arrive on.

use vstd::prelude::*;

use crate::address_state::{
    empty_set, signed_models, updated, BitcoinAddressStateV1,
};
use crate::bytes::{copy_all, same32};
use crate::cbor::bytes_of;
use crate::outside::{base58_encode, base58_of, blake3_of, code_hash, contract_id};
use crate::signing::{SignedClaim, SignedTipEntry};
use crate::text::{
    contains_text_lowered, join, join3, lowered, occurs,
};
use crate::tip_state::{overwritten, retained, tip_models, BitcoinTipStateV1};
use crate::types::{BitcoinAddressParameters, BitcoinTipParameters};
use crate::wire::{read_from, to_cbor, Record};

verus! {

// ---------------------------------------------------------------------------
// Errors
// ---------------------------------------------------------------------------

/// The link to the node could not carry a request. Whoever is about to make the same
/// request for another contract will fail in the same way, and can stop.
#[derive(Clone, PartialEq, Eq, Debug)]
pub struct LinkUnusable(pub String);

/// Why a request failed.
#[derive(Debug)]
pub enum NodeError {
    /// The link could not carry it.
    Link(LinkUnusable),
    /// Something about this request; it says nothing about the next.
    Request(String),
    /// The error, with what was being done.
    While(String, Box<NodeError>),
}

impl NodeError {
    pub open spec fn is_link(self) -> bool
        decreases self,
    {
        match self {
            NodeError::Link(_) => true,
            NodeError::Request(_) => false,
            NodeError::While(_, e) => e.is_link(),
        }
    }

    /// What the error says, with what was being done in front.
    pub open spec fn text(self) -> Seq<char>
        decreases self,
    {
        match self {
            NodeError::Link(l) => l.0@,
            NodeError::Request(s) => s@,
            NodeError::While(what, e) => what@ + ": "@ + e.text(),
        }
    }

    pub fn message(&self) -> (r: String)
        ensures
            r@ == self.text(),
        decreases self,
    {
        match self {
            NodeError::Link(l) => l.0.clone(),
            NodeError::Request(s) => s.clone(),
            NodeError::While(what, e) => join3(what, ": ", &e.message()),
        }
    }
}

/// Whether an error is about the link, however deeply it is wrapped.
pub fn link_unusable(e: &NodeError) -> (r: bool)
    ensures
        r == e.is_link(),
    decreases e,
{
    match e {
        NodeError::Link(_) => true,
        NodeError::Request(_) => false,
        NodeError::While(_, inner) => link_unusable(inner),
    }
}

/// The kinds of error that a node replies with, as far as they matter here.
#[derive(Clone, Copy, PartialEq, Eq, Debug, Structural)]
pub enum ErrorKind {
    EmptyRing,
    PeerNotJoined,
    NodeUnavailable,
    Disconnect,
    ChannelClosed,
    TransportProtocolDisconnect,
    Shutdown,
    /// Any other, a contract's own error among them.
    Other,
}

/// Whether an error reply is about the node: it would answer the next request the same
/// way. A kind that is not known is taken to be about the request, which costs one retry.
pub fn reply_is_about_the_node(kind: ErrorKind) -> (r: bool)
    ensures
        r == (kind != ErrorKind::Other),
{
    match kind {
        ErrorKind::EmptyRing
        | ErrorKind::PeerNotJoined
        | ErrorKind::NodeUnavailable
        | ErrorKind::Disconnect
        | ErrorKind::ChannelClosed
        | ErrorKind::TransportProtocolDisconnect
        | ErrorKind::Shutdown => true,
        ErrorKind::Other => false,
    }
}

// ---------------------------------------------------------------------------
// The link
// ---------------------------------------------------------------------------

/// The first wait before dialling a node again, in milliseconds.
pub const RECONNECT_BACKOFF_MIN: u64 = 1_000;

/// The longest wait before dialling a node again, in milliseconds.
pub const RECONNECT_BACKOFF_MAX: u64 = 30_000;

/// How long a request may wait to be handed to the connection, in milliseconds.
pub const SEND_TIMEOUT: u64 = 10_000;

/// How long opening a connection may take, in milliseconds.
pub const CONNECT_TIMEOUT: u64 = 20_000;

/// How long a reply may take, in milliseconds.
pub const REQUEST_TIMEOUT: u64 = 60_000;

/// A wait of `base` that is between four and six fifths of it, as chance has it, so that
/// not everyone comes back at once.
pub fn jittered(base: u64, chance: u32) -> (r: u64)
    requires
        base <= u64::MAX / 120,
    ensures
        r == base * (80 + chance % 41) / 100,
        base * 80 / 100 <= r <= base * 120 / 100,
{
    let k: u64 = 80 + (chance % 41) as u64;
    assert(base * k <= base * 120) by (nonlinear_arith)
        requires
            k <= 120,
    ;
    assert(base * 80 <= base * k) by (nonlinear_arith)
        requires
            80 <= k,
    ;
    base * k / 100
}

/// What to do to get a connection.
#[derive(Clone, Copy, PartialEq, Eq, Debug, Structural)]
pub enum Dial {
    /// Use the one that is open.
    Open,
    /// Open one.
    Connect,
    /// Do not try for so many milliseconds.
    Wait(u64),
}

/// The state of one connection to the node, which is replaced whenever its replies cannot
/// be trusted.
#[derive(Clone, Copy, Debug)]
pub struct Link {
    /// Whether a connection is open.
    pub open: bool,
    /// No connection is opened before this time, after one failed.
    pub retry_at: Option<u64>,
    pub backoff: u64,
}

impl Link {
    /// Whether the waits are what they can be.
    pub open spec fn wf(self) -> bool {
        RECONNECT_BACKOFF_MIN <= self.backoff <= RECONNECT_BACKOFF_MAX
    }

    pub fn new() -> (r: Self)
        ensures
            r.wf(),
            r == (Link { open: false, retry_at: None, backoff: RECONNECT_BACKOFF_MIN }),
    {
        Link { open: false, retry_at: None, backoff: RECONNECT_BACKOFF_MIN }
    }

    /// How to get a connection now.
    pub fn connection(&self, now: u64) -> (r: Dial)
        ensures
            r == if self.open {
                Dial::Open
            } else {
                match self.retry_at {
                    Some(at) => if now < at {
                        Dial::Wait((at - now) as u64)
                    } else {
                        Dial::Connect
                    },
                    None => Dial::Connect,
                }
            },
    {
        if self.open {
            return Dial::Open;
        }
        match self.retry_at {
            Some(at) => {
                if now < at {
                    Dial::Wait(at - now)
                } else {
                    Dial::Connect
                }
            },
            None => Dial::Connect,
        }
    }

    /// A connection was opened. That is no reason to be quicker next time: a node that
    /// cannot serve yet still lets itself be dialled.
    pub fn opened(&mut self)
        ensures
            *final(self) == (Link { open: true, retry_at: None, ..*old(self) }),
    {
        self.open = true;
        self.retry_at = None;
    }

    /// The link once it has to wait before it dials again: longer each time.
    pub open spec fn backed_off(self, now: u64, chance: u32) -> Link {
        Link {
            open: false,
            retry_at: Some((now + self.backoff * (80 + chance % 41) / 100) as u64),
            backoff: if 2 * self.backoff <= RECONNECT_BACKOFF_MAX {
                (2 * self.backoff) as u64
            } else {
                RECONNECT_BACKOFF_MAX
            },
        }
    }

    /// A connection could not be opened, or the node cannot serve: wait before dialling
    /// again.
    pub fn arm_backoff(&mut self, now: u64, chance: u32)
        requires
            old(self).wf(),
            now <= u64::MAX - 2 * RECONNECT_BACKOFF_MAX,
        ensures
            final(self).wf(),
            *final(self) == old(self).backed_off(now, chance),
            now < final(self).retry_at->Some_0,
    {
        let wait: u64 = jittered(self.backoff, chance);
        self.open = false;
        self.retry_at = Some(now + wait);
        let twice: u64 = self.backoff * 2;
        self.backoff = if twice <= RECONNECT_BACKOFF_MAX {
            twice
        } else {
            RECONNECT_BACKOFF_MAX
        };
    }

    /// What came of a request: whether its reply may be read. Whatever was not a good reply
    /// costs the connection. A good one is what shows that the node serves, and ends the
    /// waiting; a reply that the node cannot serve counts as a refusal to be dialled.
    pub fn replied(&mut self, reply: &NodeReply, now: u64, chance: u32) -> (r: Result<
        (),
        LinkUnusable,
    >)
        requires
            old(self).wf(),
            now <= u64::MAX - 2 * RECONNECT_BACKOFF_MAX,
        ensures
            final(self).wf(),
            match *reply {
                NodeReply::Error { kind, text } => if kind == ErrorKind::Other {
                    r is Ok && *final(self) == (Link { open: false, ..*old(self) })
                } else {
                    &&& r matches Err(e)
                    &&& e.0@ == "the node answered: "@ + text@
                    &&& *final(self) == old(self).backed_off(now, chance)
                },
                _ => r is Ok && *final(self) == (Link {
                    open: true,
                    backoff: RECONNECT_BACKOFF_MIN,
                    ..*old(self)
                }),
            },
    {
        match reply {
            NodeReply::Error { kind, text } => {
                self.open = false;
                if reply_is_about_the_node(*kind) {
                    self.arm_backoff(now, chance);
                    return Err(LinkUnusable(join("the node answered: ", text)));
                }
                Ok(())
            },
            _ => {
                self.open = true;
                self.backoff = RECONNECT_BACKOFF_MIN;
                Ok(())
            },
        }
    }

    /// Drop the connection: after a request that was not answered, or a reply that is not
    /// the answer to what was asked.
    pub fn discard(&mut self)
        ensures
            *final(self) == (Link { open: false, ..*old(self) }),
    {
        self.open = false;
    }
}

/// The backoff after a node has refused `n` times in a row.
pub open spec fn backoff_after(n: nat) -> int
    decreases n,
{
    if n == 0 {
        RECONNECT_BACKOFF_MIN as int
    } else if 2 * backoff_after((n - 1) as nat) <= RECONNECT_BACKOFF_MAX {
        2 * backoff_after((n - 1) as nat)
    } else {
        RECONNECT_BACKOFF_MAX as int
    }
}

/// While a node keeps refusing to serve, each wait is longer than the last until the
/// longest is reached, whatever chance adds to them.
pub proof fn the_wait_grows_while_the_node_refuses(n: nat, chance: u32, next_chance: u32)
    ensures
        RECONNECT_BACKOFF_MIN <= backoff_after(n) <= backoff_after(n + 1) <= RECONNECT_BACKOFF_MAX,
        2 * backoff_after(n) <= RECONNECT_BACKOFF_MAX ==> backoff_after(n) * (80 + chance % 41)
            / 100 < backoff_after(n + 1) * (80 + next_chance % 41) / 100,
    decreases n,
{
    if n > 0 {
        the_wait_grows_while_the_node_refuses((n - 1) as nat, chance, next_chance);
    }
    let b = backoff_after(n);
    let j = 80 + chance % 41;
    let k = 80 + next_chance % 41;
    if 2 * b <= RECONNECT_BACKOFF_MAX {
        assert(b * j <= b * 120) by (nonlinear_arith)
            requires
                j <= 120,
                b >= 0,
        ;
        assert((2 * b) * k >= (2 * b) * 80) by (nonlinear_arith)
            requires
                k >= 80,
                b >= 0,
        ;
    }
}

// ---------------------------------------------------------------------------
// Replies
// ---------------------------------------------------------------------------

/// What a node replied, as far as it matters here. Contracts go by their addresses.
#[derive(Debug)]
pub enum NodeReply {
    Got { id: [u8; 32], state: Vec<u8> },
    Stored { id: [u8; 32] },
    Updated { id: [u8; 32] },
    NotFound { id: [u8; 32] },
    /// Another response about a contract.
    OtherContract,
    /// A response about something else.
    Other,
    Error { kind: ErrorKind, text: String },
}

/// What a reply to an update says about the contract it was for.
#[derive(Clone, Copy, PartialEq, Eq, Debug, Structural)]
pub enum UpdateReply {
    Updated,
    /// There is no such contract.
    Missing,
    /// Nothing: it is no answer about this contract.
    Unmatched,
}

/// What a reply to a read says about the contract it was for.
#[derive(PartialEq, Eq, Debug)]
pub enum GetReply {
    State(Vec<u8>),
    /// The node found no such contract, which proves little.
    Missing,
    /// Nothing: it is no answer about this contract.
    Unmatched,
}

/// What a reply to a probe says.
#[derive(PartialEq, Eq, Debug)]
pub enum ProbeReply {
    State(Vec<u8>),
    Absent,
    Unmatched,
}

pub fn classify_update_reply(id: &[u8; 32], reply: &NodeReply) -> (r: UpdateReply)
    ensures
        r == (match *reply {
            NodeReply::Updated { id: of } if of@ == id@ => UpdateReply::Updated,
            NodeReply::NotFound { id: of } if of@ == id@ => UpdateReply::Missing,
            _ => UpdateReply::Unmatched,
        }),
{
    match reply {
        NodeReply::Updated { id: of } => {
            if same32(of, id) {
                UpdateReply::Updated
            } else {
                UpdateReply::Unmatched
            }
        },
        NodeReply::NotFound { id: of } => {
            if same32(of, id) {
                UpdateReply::Missing
            } else {
                UpdateReply::Unmatched
            }
        },
        _ => UpdateReply::Unmatched,
    }
}

/// What follows the answer to an update.
#[derive(Clone, Copy, PartialEq, Eq, Debug, Structural)]
pub enum AfterUpdate {
    /// Nothing: the contract was updated.
    Done,
    /// The contract is put, on a fresh connection where the answer was about something else.
    Put { fresh: bool },
}

/// Update first, and put what could not be updated. An update is the cheap way for a contract
/// that exists. An answer about something else is taken for a missing contract, which is the
/// usual reason, but what else the connection holds back would be late too.
pub fn after_update(id: &[u8; 32], reply: &NodeReply) -> (r: AfterUpdate)
    ensures
        r == (match *reply {
            NodeReply::Updated { id: of } if of@ == id@ => AfterUpdate::Done,
            NodeReply::NotFound { id: of } if of@ == id@ => AfterUpdate::Put { fresh: false },
            _ => AfterUpdate::Put { fresh: true },
        }),
{
    match classify_update_reply(id, reply) {
        UpdateReply::Updated => AfterUpdate::Done,
        UpdateReply::Missing => AfterUpdate::Put { fresh: false },
        UpdateReply::Unmatched => AfterUpdate::Put { fresh: true },
    }
}

/// Whether a reply to a put says that this contract was stored.
pub fn put_answered(id: &[u8; 32], reply: &NodeReply) -> (r: bool)
    ensures
        r == (*reply matches NodeReply::Stored { id: of } && of@ == id@),
{
    match reply {
        NodeReply::Stored { id: of } => same32(of, id),
        _ => false,
    }
}

/// Whether an error says that there is no such state. This is narrow on purpose: to take
/// silence for absence can lose data for good, and the other mistake costs a retry.
pub open spec fn says_not_found(msg: Seq<char>) -> bool {
    occurs(lowered(msg), "not found"@) || occurs(lowered(msg), "notfound"@)
}

pub fn is_not_found(msg: &str) -> (r: bool)
    ensures
        r == says_not_found(msg@),
{
    contains_text_lowered(msg, "not found") || contains_text_lowered(msg, "notfound")
}

/// What a reply to a read says, by what it is about. An older node reports a miss as an
/// error, which names no contract.
pub open spec fn got(id: Seq<u8>, reply: NodeReply) -> Option<Option<Seq<u8>>> {
    match reply {
        NodeReply::Got { id: of, state } if of@ == id => Some(Some(state@)),
        NodeReply::NotFound { id: of } if of@ == id => Some(None),
        NodeReply::Error { text, .. } if says_not_found(text@) => Some(None),
        _ => None,
    }
}

pub fn classify_get_reply(id: &[u8; 32], reply: &NodeReply) -> (r: GetReply)
    ensures
        match r {
            GetReply::State(s) => got(id@, *reply) == Some(Some(s@)),
            GetReply::Missing => got(id@, *reply) == Some(None::<Seq<u8>>),
            GetReply::Unmatched => got(id@, *reply) is None,
        },
{
    match reply {
        NodeReply::Got { id: of, state } => {
            if same32(of, id) {
                GetReply::State(copy_all(state))
            } else {
                GetReply::Unmatched
            }
        },
        NodeReply::NotFound { id: of } => {
            if same32(of, id) {
                GetReply::Missing
            } else {
                GetReply::Unmatched
            }
        },
        NodeReply::Error { text, .. } => {
            if is_not_found(text) {
                GetReply::Missing
            } else {
                GetReply::Unmatched
            }
        },
        _ => GetReply::Unmatched,
    }
}

pub fn classify_probe_reply(id: &[u8; 32], reply: &NodeReply) -> (r: ProbeReply)
    ensures
        match r {
            ProbeReply::State(s) => got(id@, *reply) == Some(Some(s@)),
            ProbeReply::Absent => got(id@, *reply) == Some(None::<Seq<u8>>),
            ProbeReply::Unmatched => got(id@, *reply) is None,
        },
{
    match classify_get_reply(id, reply) {
        GetReply::State(s) => ProbeReply::State(s),
        GetReply::Missing => ProbeReply::Absent,
        GetReply::Unmatched => ProbeReply::Unmatched,
    }
}

/// A reply about one contract is never taken for an answer about another.
pub proof fn a_reply_answers_for_its_own_contract(
    id: Seq<u8>,
    other: Seq<u8>,
    reply: NodeReply,
)
    requires
        id != other,
        !(reply is Error),
        got(id, reply) is Some,
    ensures
        got(other, reply) is None,
{
}

/// A short account of a reply, without the state it carries.
pub open spec fn account(reply: NodeReply) -> Seq<char> {
    match reply {
        NodeReply::Got { id, .. } => "GetResponse for "@ + base58_of(id@),
        NodeReply::Stored { id } => "PutResponse for "@ + base58_of(id@),
        NodeReply::Updated { id } => "UpdateResponse for "@ + base58_of(id@),
        NodeReply::NotFound { id } => "NotFound for "@ + base58_of(id@),
        NodeReply::OtherContract => "another contract response"@,
        NodeReply::Other => "a response that is not about a contract"@,
        NodeReply::Error { text, .. } => "an error: "@ + text@,
    }
}

pub fn describe_reply(reply: &NodeReply) -> (r: String)
    ensures
        r@ == account(*reply),
{
    match reply {
        NodeReply::Got { id, .. } => join("GetResponse for ", &base58_encode(id)),
        NodeReply::Stored { id } => join("PutResponse for ", &base58_encode(id)),
        NodeReply::Updated { id } => join("UpdateResponse for ", &base58_encode(id)),
        NodeReply::NotFound { id } => join("NotFound for ", &base58_encode(id)),
        NodeReply::OtherContract => "another contract response".to_owned(),
        NodeReply::Other => "a response that is not about a contract".to_owned(),
        NodeReply::Error { text, .. } => join("an error: ", text),
    }
}

/// What a put comes to. Whoever is told that it failed drops the connection.
pub fn put_outcome(id: &[u8; 32], reply: &NodeReply) -> (r: Result<(), String>)
    ensures
        match r {
            Ok(_) => *reply matches NodeReply::Stored { id: of } && of@ == id@,
            Err(e) => !(*reply matches NodeReply::Stored { id: of } && of@ == id@) && e@
                == "PUT of "@ + base58_of(id@) + " answered with "@ + account(*reply),
        },
{
    if put_answered(id, reply) {
        Ok(())
    } else {
        let head = join3("PUT of ", &base58_encode(id), " answered with ");
        Err(join(&head, &describe_reply(reply)))
    }
}

/// What a read comes to, and whether the connection must go.
pub fn get_outcome(id: &[u8; 32], reply: &NodeReply) -> (r: (Result<Vec<u8>, String>, bool))
    ensures
        r.1 == (got(id@, *reply) is None),
        match r.0 {
            Ok(s) => got(id@, *reply) == Some(Some(s@)),
            Err(e) => match got(id@, *reply) {
                Some(None) => e@ == "the node found no contract "@ + base58_of(id@),
                None => e@ == "GET of "@ + base58_of(id@) + " answered with "@ + account(*reply),
                _ => false,
            },
        },
{
    match classify_get_reply(id, reply) {
        GetReply::State(s) => (Ok(s), false),
        GetReply::Missing => (
            Err(join("the node found no contract ", &base58_encode(id))),
            false,
        ),
        GetReply::Unmatched => {
            let head = join3("GET of ", &base58_encode(id), " answered with ");
            (Err(join(&head, &describe_reply(reply))), true)
        },
    }
}

// ---------------------------------------------------------------------------
// Contracts
// ---------------------------------------------------------------------------

/// The contracts that a bridge runs.
#[derive(Debug)]
pub struct ContractWasm {
    pub address: Vec<u8>,
    pub tip: Vec<u8>,
    pub inbox: Vec<u8>,
}

impl ContractWasm {
    pub fn address_code_hash(&self) -> (r: [u8; 32])
        ensures
            r@ == blake3_of(self.address@),
    {
        code_hash(&self.address)
    }

    pub fn tip_code_hash(&self) -> (r: [u8; 32])
        ensures
            r@ == blake3_of(self.tip@),
    {
        code_hash(&self.tip)
    }

    pub fn inbox_code_hash(&self) -> (r: [u8; 32])
        ensures
            r@ == blake3_of(self.inbox@),
    {
        code_hash(&self.inbox)
    }

    /// The address of the contract for a script.
    pub fn address_key(&self, params: &BitcoinAddressParameters) -> (r: [u8; 32])
        ensures
            r@ == blake3_of(blake3_of(self.address@) + bytes_of(params.item())),
    {
        let hash = self.address_code_hash();
        address_instance_id(&hash, params)
    }

    /// The address of the contract for a network's tip.
    pub fn tip_key(&self, params: &BitcoinTipParameters) -> (r: [u8; 32])
        ensures
            r@ == blake3_of(blake3_of(self.tip@) + bytes_of(params.item())),
    {
        let hash = self.tip_code_hash();
        let bytes = to_cbor(params).unwrap();
        contract_id(&hash, &bytes)
    }
}

/// The address of an address contract, from the hash of its code and its parameters. This
/// is how clients derive it, who have the hash and not the code.
pub fn address_instance_id(code_hash: &[u8; 32], params: &BitcoinAddressParameters) -> (r: [u8; 32])
    ensures
        r@ == blake3_of(code_hash@ + bytes_of(params.item())),
{
    let bytes = to_cbor(params).unwrap();
    contract_id(code_hash, &bytes)
}

/// An address as applications quote it.
pub fn instance_id_b58(id: &[u8; 32]) -> (r: String)
    ensures
        r@ == base58_of(id@),
{
    base58_encode(id)
}

/// A contract's parameters and a state to send it, as bytes.
#[derive(Debug)]
pub struct Write {
    pub params: Vec<u8>,
    pub state: Vec<u8>,
}

/// What to send an address contract so that it carries these claims. A bridge does not
/// publish what it would not accept.
pub fn publish_claims(params: &BitcoinAddressParameters, claims: Vec<SignedClaim>) -> (r: Result<
    Write,
    String,
>)
    ensures
        ({
            let (after, fault) = updated(empty_set(), signed_models(claims@), params@);
            match r {
                Ok(w) => fault is None && w.params@ == bytes_of(params.item()) && read_from::<
                    BitcoinAddressStateV1,
                >(w.state@) is Ok && read_from::<BitcoinAddressStateV1>(w.state@)->Ok_0 == after,
                Err(e) => fault is Some && e@
                    == "refusing to publish claims we cannot verify ourselves: "@ + fault->Some_0,
            }
        }),
{
    match BitcoinAddressStateV1::from_claims(params, claims) {
        Err(e) => Err(join("refusing to publish claims we cannot verify ourselves: ", &e)),
        Ok(state) => Ok(publish_state(params, &state)),
    }
}

/// What to send an address contract so that it carries a state.
pub fn publish_state(params: &BitcoinAddressParameters, state: &BitcoinAddressStateV1) -> (r: Write)
    ensures
        r.params@ == bytes_of(params.item()),
        r.state@ == bytes_of(state.item()),
        read_from::<BitcoinAddressStateV1>(r.state@) is Ok,
        read_from::<BitcoinAddressStateV1>(r.state@)->Ok_0 == state.model(),
{
    Write { params: to_cbor(params).unwrap(), state: to_cbor(state).unwrap() }
}

/// What to send a tip contract so that it carries these entries.
pub fn publish_tip(params: &BitcoinTipParameters, entries: Vec<SignedTipEntry>) -> (r: Result<
    Write,
    String,
>)
    ensures
        ({
            let (after, fault) = overwritten(tip_models(entries@), params@);
            match r {
                Ok(w) => fault is None && w.params@ == bytes_of(params.item()) && read_from::<
                    BitcoinTipStateV1,
                >(w.state@) is Ok && read_from::<BitcoinTipStateV1>(w.state@)->Ok_0 == retained(
                    after,
                ),
                Err(e) => fault is Some && e@
                    == "refusing to publish tip entries we cannot verify: "@ + fault->Some_0,
            }
        }),
{
    match BitcoinTipStateV1::from_entries(params, entries) {
        Err(e) => Err(join("refusing to publish tip entries we cannot verify: ", &e)),
        Ok(state) => Ok(
            Write { params: to_cbor(params).unwrap(), state: to_cbor(&state).unwrap() },
        ),
    }
}

} // verus!
