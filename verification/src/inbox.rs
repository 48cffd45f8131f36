//! The bridge's side of its request inbox.
//!
//! Clients ask a bridge to watch a script by appending a sealed, Ghost Key signed entry to
//! the bridge's inbox contract. The bridge reads the inbox, acts on each entry, has it
//! removed, lets the inbox's floor follow the Bitcoin tip, and ends watches that nobody has
//! renewed for a day.
//!
//! Neither the order in which entries arrive nor their heights say in which order a sender
//! made its requests, so each carries its sender's timestamp, and the store keeps each
//! sender's latest request about a script. What was acted on is on record, so that an entry
//! whose removal was lost is removed again and not acted on again.

use vstd::prelude::*;

use crate::bytes::{
    comes_before, copy_all, lex_before, lex_irreflexive, lex_total, lex_transitive, same32,
    same_bytes,
};
use crate::store::{
    ended, interest_set, pair_models, run_out, watch_added, HandledModel, HandledRow, Interest,
    InterestChange, InterestModel, Store, StoreModel, WatchedModel, WatchedScript,
};
use crate::sums::insert_counts;
use crate::table::{first, put_new, those};
use crate::types::BitcoinNetwork;

verus! {

/// How many scripts one Ghost Key may have a bridge watch at once. The inbox bounds how many
/// requests are in flight, not how many are made over time.
pub const MAX_WATCHES_PER_GHOSTKEY: usize = 1000;

/// How long a withdrawal is remembered, in milliseconds: longer than any older request of
/// the same sender can be on its way.
pub const WITHDRAWAL_MEMORY_MS: i64 = 86_400_000;

/// How long a watch lasts after the request that last asked for it, in milliseconds.
pub const WATCH_LIFETIME_MS: i64 = 86_400_000;

/// How far past a watch's day the median time of the scanned tip must be before the watch
/// ends, in milliseconds: two hours, by which a block's timestamp may run ahead. So every
/// block of that day lies at or below the tip that was scanned.
pub const MEDIAN_TIME_MARGIN_MS: i64 = 7_200_000;

/// How long after connecting the floor is not raised, in milliseconds: the copy of the inbox
/// that a node which was away holds may lack requests below the new floor.
pub const FLOOR_HOLD_MS: i64 = 120_000;

/// How far behind the tip the observer may be before it is worth a warning, in blocks.
pub const OBSERVER_LAG_WARN_BLOCKS: u32 = 6;

/// The limits of an inbox.
#[derive(Clone, Copy, Debug)]
pub struct InboxLimits {
    /// How far the floor stays behind the Bitcoin tip.
    pub floor_lag_blocks: u32,
    /// How many removals an inbox may hold.
    pub removal_budget: usize,
    /// How far above the floor an entry may be dated.
    pub window_blocks: u32,
}

impl InboxLimits {
    /// How much of the budget one Ghost Key may use: a 64th. Without a share, one sender
    /// could spend the budget for everyone.
    pub open spec fn share(self) -> nat {
        self.removal_budget as nat / 64
    }

    pub fn removal_share_per_ghostkey(&self) -> (r: usize)
        ensures
            r == self.share(),
    {
        self.removal_budget / 64
    }
}

// ---------------------------------------------------------------------------
// Values by network
// ---------------------------------------------------------------------------

pub open spec fn is_for<T>(net: BitcoinNetwork) -> spec_fn((BitcoinNetwork, T)) -> bool {
    |e: (BitcoinNetwork, T)| e.0 == net
}

/// What is listed for a network first.
pub open spec fn looked_up<T>(list: Seq<(BitcoinNetwork, T)>, net: BitcoinNetwork) -> Option<T> {
    match first(list, is_for::<T>(net)) {
        Some(e) => Some(e.1),
        None => None,
    }
}

pub(crate) fn look_up<T: Copy>(list: &Vec<(BitcoinNetwork, T)>, net: BitcoinNetwork) -> (r: Option<T>)
    ensures
        r == looked_up(list@, net),
{
    let ghost p = is_for::<T>(net);
    for i in 0..list.len()
        invariant
            p == is_for::<T>(net),
            forall|j: int| 0 <= j < i ==> !p(#[trigger] list@[j]),
    {
        if list[i].0 == net {
            proof {
                crate::table::first_is_first(list@, p, i as int);
            }
            return Some(list[i].1);
        }
    }
    proof {
        crate::table::nothing_is_first(list@, p);
    }
    None
}

pub(crate) fn lists_network(list: &Vec<BitcoinNetwork>, net: BitcoinNetwork) -> (r: bool)
    ensures
        r == list@.contains(net),
{
    for i in 0..list.len()
        invariant
            forall|j: int| 0 <= j < i ==> list@[j] != net,
    {
        if list[i] == net {
            assert(list@[i as int] == net);
            return true;
        }
    }
    false
}

/// The chain tips that a pass goes by.
#[derive(Clone, Debug, Default)]
pub struct Tips {
    /// The tip of each network whose node could be read.
    pub by_network: Vec<(BitcoinNetwork, u32)>,
    /// Networks whose node is still catching up. Its tip is then only how far it has come.
    pub syncing: Vec<BitcoinNetwork>,
    /// The median time past of each network's tip, in milliseconds: Bitcoin's own clock.
    pub median_time_ms: Vec<(BitcoinNetwork, i64)>,
}

impl Tips {
    /// The tip of a network.
    pub open spec fn height(self, net: BitcoinNetwork) -> Option<u32> {
        looked_up(self.by_network@, net)
    }

    pub fn tip(&self, net: BitcoinNetwork) -> (r: Option<u32>)
        ensures
            r == self.height(net),
    {
        look_up(&self.by_network, net)
    }

    /// The Bitcoin mainnet tip, by which the inbox is dated.
    pub fn mainnet(&self) -> (r: Option<u32>)
        ensures
            r == self.height(BitcoinNetwork::Bitcoin),
    {
        look_up(&self.by_network, BitcoinNetwork::Bitcoin)
    }
}

// ---------------------------------------------------------------------------
// Requests
// ---------------------------------------------------------------------------

#[derive(Clone, Copy, PartialEq, Eq, Debug, Structural)]
pub enum Action {
    Watch,
    Unwatch,
}

/// What a sender asks for.
#[derive(Debug)]
pub struct InboxRequest {
    pub action: Action,
    pub network: BitcoinNetwork,
    pub scripts: Vec<Vec<u8>>,
    /// A hint from where to scan, which is not acted on.
    pub scan_from_height: Option<u32>,
    /// When the request was made, by the sender's clock.
    pub made_at_ms: u64,
}

/// An entry of the inbox that has been checked.
#[derive(Debug)]
pub struct InboxEntry {
    pub key: [u8; 32],
    pub mainnet_height: u32,
    pub ghostkey: [u8; 32],
    /// What it asks for; nothing, if it does not decode or this bridge cannot open it.
    pub request: Option<InboxRequest>,
}

/// A copy of the inbox as it was read.
#[derive(Debug)]
pub struct InboxState {
    /// The floor that it carries, if this bridge has signed it.
    pub floor: Option<u32>,
    pub entries: Vec<InboxEntry>,
}

pub open spec fn scripts_of(v: Seq<Vec<u8>>) -> Seq<Seq<u8>> {
    v.map_values(|s: Vec<u8>| s@)
}

/// An [`InboxRequest`] as a mathematical value.
pub struct AskModel {
    pub action: Action,
    pub network: BitcoinNetwork,
    pub scripts: Seq<Seq<u8>>,
    pub scan_from_height: Option<u32>,
    pub made_at_ms: u64,
}

/// An [`InboxEntry`] as a mathematical value.
pub struct EntryModel {
    pub key: [u8; 32],
    pub height: u32,
    pub ghostkey: [u8; 32],
    pub ask: Option<AskModel>,
}

impl View for InboxEntry {
    type V = EntryModel;

    open spec fn view(&self) -> EntryModel {
        EntryModel {
            key: self.key,
            height: self.mainnet_height,
            ghostkey: self.ghostkey,
            ask: match self.request {
                Some(r) => Some(
                    AskModel {
                        action: r.action,
                        network: r.network,
                        scripts: scripts_of(r.scripts@),
                        scan_from_height: r.scan_from_height,
                        made_at_ms: r.made_at_ms,
                    },
                ),
                None => None,
            },
        }
    }
}

/// What a bridge goes by when it reads its inbox.
#[derive(Debug)]
pub struct Processor<'a> {
    /// The networks that the bridge observes. A request for any other is dropped.
    pub observed: &'a Vec<BitcoinNetwork>,
    /// How many scripts one Ghost Key may have watched.
    pub max_watches_per_ghostkey: usize,
    /// How deep a payment must be on each network before the watch that found it may end.
    pub deep_confirmations: &'a Vec<(BitcoinNetwork, u32)>,
    pub limits: InboxLimits,
}

/// The store once one script has been asked for.
pub open spec fn script_asked(
    s: StoreModel,
    ask: AskModel,
    script: Seq<u8>,
    ghostkey: Seq<u8>,
    tip: Option<u32>,
    max: nat,
    now_ms: i64,
) -> StoreModel {
    let (interests, change) = interest_set(
        s,
        ask.network,
        script,
        ghostkey,
        ask.action == Action::Watch,
        ask.made_at_ms,
        max,
        now_ms,
    );
    let t = StoreModel { interests, ..s };
    if ask.action == Action::Watch && change == InterestChange::Watching {
        StoreModel {
            watched: watch_added(
                t.watched,
                WatchedModel {
                    network: ask.network,
                    script_pubkey: script,
                    scan_from_height: match tip {
                        Some(h) => h,
                        None => u32::MAX,
                    },
                    is_public_demo: false,
                },
                now_ms,
            ),
            ..t
        }
    } else if ask.action == Action::Unwatch && change == (InterestChange::Withdrawn {
        last: true,
    }) {
        unscanned(t, ask.network, script)
    } else {
        t
    }
}

/// The store once a script is scanned no longer. A demo script is the operator's, and stays.
pub open spec fn unscanned(s: StoreModel, net: BitcoinNetwork, script: Seq<u8>) -> StoreModel {
    StoreModel {
        watched: those(
            s.watched,
            |r: (WatchedModel, i64)|
                !(r.0.network == net && r.0.script_pubkey == script && !r.0.is_public_demo),
        ),
        ..s
    }
}

/// The store once the first `n` scripts of a request have been asked for.
pub open spec fn asked(
    s: StoreModel,
    ask: AskModel,
    n: int,
    ghostkey: Seq<u8>,
    tip: Option<u32>,
    max: nat,
    now_ms: i64,
) -> StoreModel
    decreases n,
{
    if n <= 0 {
        s
    } else {
        script_asked(
            asked(s, ask, n - 1, ghostkey, tip, max, now_ms),
            ask,
            ask.scripts[n - 1],
            ghostkey,
            tip,
            max,
            now_ms,
        )
    }
}

/// From where a new watch counts: the tip, else how far the network was scanned.
pub open spec fn watch_height(s: StoreModel, tips: Tips, net: BitcoinNetwork) -> Option<u32> {
    match tips.height(net) {
        Some(h) => Some(h),
        None => match s.checkpoint(net) {
            Some(a) => Some(a.height),
            None => None,
        },
    }
}

/// The store once an entry has been acted on. One that cannot be opened, or is for a network
/// that is not observed, changes nothing.
pub open spec fn acted_on(
    s: StoreModel,
    e: EntryModel,
    p: Processor<'_>,
    tips: Tips,
    now_ms: i64,
) -> StoreModel {
    match e.ask {
        None => s,
        Some(ask) => if !p.observed@.contains(ask.network) {
            s
        } else {
            asked(
                s,
                ask,
                ask.scripts.len() as int,
                e.ghostkey@,
                watch_height(s, tips, ask.network),
                p.max_watches_per_ghostkey as nat,
                now_ms,
            )
        },
    }
}

impl Processor<'_> {
    /// Act on one entry. Whatever is wrong with it, it counts as read.
    pub fn act(&self, store: &mut Store, e: &InboxEntry, tips: &Tips, now_ms: i64)
        ensures
            final(store)@ == acted_on(old(store)@, e@, *self, *tips, now_ms),
    {
        let req = match &e.request {
            None => {
                return ;
            },
            Some(r) => r,
        };
        let net = req.network;
        if !lists_network(self.observed, net) {
            return ;
        }
        let tip: Option<u32> = match look_up(&tips.by_network, net) {
            Some(t) => Some(t),
            None => match store.checkpoint(net) {
                Some(a) => Some(a.height),
                None => None,
            },
        };
        let ghost start = store@;
        let ghost ask = e@.ask->Some_0;
        let watching = req.action == Action::Watch;
        let n: usize = req.scripts.len();
        for i in 0..n
            invariant
                n == req.scripts@.len(),
                ask == e@.ask->Some_0,
                ask.scripts == scripts_of(req.scripts@),
                ask.network == net,
                ask.action == req.action,
                ask.made_at_ms == req.made_at_ms,
                watching == (req.action == Action::Watch),
                store@ == asked(
                    start,
                    ask,
                    i as int,
                    e.ghostkey@,
                    tip,
                    self.max_watches_per_ghostkey as nat,
                    now_ms,
                ),
        {
            let script = &req.scripts[i];
            assert(ask.scripts[i as int] == script@);
            let change = store.set_interest(
                &Interest {
                    network: net,
                    script,
                    ghostkey: &e.ghostkey,
                    watching,
                    request_ms: req.made_at_ms,
                },
                self.max_watches_per_ghostkey,
                now_ms,
            );
            if watching {
                if change == InterestChange::Watching {
                    store.add_watch(
                        &WatchedScript {
                            network: net,
                            script_pubkey: copy_all(script),
                            scan_from_height: match tip {
                                Some(h) => h,
                                None => u32::MAX,
                            },
                            is_public_demo: false,
                        },
                        now_ms,
                    );
                }
            } else if change == (InterestChange::Withdrawn { last: true }) {
                store.remove_watch(net, script);
            }
        }
    }
}

// ---------------------------------------------------------------------------
// Ending watches
// ---------------------------------------------------------------------------

/// Whether one of some keys.
pub open spec fn waits(waiting: Seq<[u8; 32]>, ghostkey: Seq<u8>) -> bool {
    exists|i: int| 0 <= i < waiting.len() && (#[trigger] waiting[i])@ == ghostkey
}

fn is_waiting(waiting: &Vec<[u8; 32]>, ghostkey: &[u8]) -> (r: bool)
    ensures
        r == waits(waiting@, ghostkey@),
{
    for i in 0..waiting.len()
        invariant
            forall|j: int| 0 <= j < i ==> (#[trigger] waiting@[j])@ != ghostkey@,
    {
        if same_bytes(&waiting[i], ghostkey) {
            return true;
        }
    }
    false
}

/// The store once a watch that ran out has ended: not while a payment to the script is
/// still being buried. The script is scanned no longer once nobody wants it.
pub open spec fn watch_ended(
    s: StoreModel,
    net: BitcoinNetwork,
    script: Seq<u8>,
    ghostkey: Seq<u8>,
    tip: u32,
    deep: u32,
    now_ms: i64,
) -> StoreModel {
    if s.has_shallow_output(net, script, tip, deep) {
        s
    } else {
        let t = StoreModel {
            interests: s.interests.map_values(
                |r: InterestModel| ended(r, net, script, ghostkey, now_ms),
            ),
            ..s
        };
        if t.watchers(net, script) == 0 {
            unscanned(t, net, script)
        } else {
            t
        }
    }
}

/// The store once the first `n` watches that ran out have ended, but for those of senders
/// with a request waiting, which may be the renewal.
pub open spec fn watches_ended(
    s: StoreModel,
    net: BitcoinNetwork,
    out: Seq<(Seq<u8>, Seq<u8>)>,
    n: int,
    waiting: Seq<[u8; 32]>,
    tip: u32,
    deep: u32,
    now_ms: i64,
) -> StoreModel
    decreases n,
{
    if n <= 0 {
        s
    } else {
        let before = watches_ended(s, net, out, n - 1, waiting, tip, deep, now_ms);
        let (script, ghostkey) = out[n - 1];
        if waits(waiting, ghostkey) {
            before
        } else {
            watch_ended(before, net, script, ghostkey, tip, deep, now_ms)
        }
    }
}

/// A number of milliseconds earlier, or the earliest there is.
pub open spec fn earlier(ms: i64, by: i64) -> i64 {
    if ms - by < i64::MIN {
        i64::MIN
    } else {
        (ms - by) as i64
    }
}

fn back(ms: i64, by: i64) -> (r: i64)
    requires
        by >= 0,
    ensures
        r == earlier(ms, by),
{
    if ms < i64::MIN + by {
        i64::MIN
    } else {
        ms - by
    }
}

/// Before which time a watch must have been asked for to have run out. A watch's day is
/// counted by the chain's clock as well as the host's: a node that is cut off looks synced
/// at a stale tip.
pub open spec fn expiry_cutoff(now_ms: i64, median_ms: i64) -> i64 {
    let chain = earlier(median_ms, MEDIAN_TIME_MARGIN_MS);
    earlier(
        if now_ms < chain {
            now_ms
        } else {
            chain
        },
        WATCH_LIFETIME_MS,
    )
}

fn cutoff_at(now_ms: i64, median_ms: i64) -> (r: i64)
    ensures
        r == expiry_cutoff(now_ms, median_ms),
{
    let chain: i64 = back(median_ms, MEDIAN_TIME_MARGIN_MS);
    let by: i64 = if now_ms < chain {
        now_ms
    } else {
        chain
    };
    back(by, WATCH_LIFETIME_MS)
}

/// What there is to do about the watches on a network.
pub enum Expiry {
    /// Nothing is known of its tip.
    Unknown,
    /// None ran out.
    NoneRanOut,
    /// The node is still catching up.
    Syncing,
    /// The observer is so many blocks behind, or has scanned nothing.
    Behind(Option<u32>),
    /// These ran out, and may end.
    Due(u32, Seq<(Seq<u8>, Seq<u8>)>),
}

/// A watch may end only where the network has been scanned exactly up to the tip. It would
/// otherwise leave blocks of its day unscanned for good; and above the tip, the node has
/// gone back.
pub open spec fn expiry(s: StoreModel, net: BitcoinNetwork, tips: Tips, now_ms: i64) -> Expiry {
    match (tips.height(net), looked_up(tips.median_time_ms@, net)) {
        (Some(tip), Some(median)) => {
            let out = run_out(s, net, expiry_cutoff(now_ms, median));
            if out.len() == 0 {
                Expiry::NoneRanOut
            } else if tips.syncing@.contains(net) {
                Expiry::Syncing
            } else {
                match s.checkpoint(net) {
                    Some(a) => if a.height == tip {
                        Expiry::Due(tip, out)
                    } else if a.height > tip {
                        Expiry::Behind(Some(0))
                    } else {
                        Expiry::Behind(Some((tip - a.height) as u32))
                    },
                    None => Expiry::Behind(None),
                }
            }
        },
        _ => Expiry::Unknown,
    }
}

/// How deep a payment must be before the watch that found it may end. Where nothing is
/// configured, as deep as can be.
pub open spec fn burial(p: Processor<'_>, net: BitcoinNetwork) -> u32 {
    match looked_up(p.deep_confirmations@, net) {
        Some(d) => d,
        None => u32::MAX,
    }
}

/// The store once watches have ended on the first `n` networks.
pub open spec fn expired(
    s: StoreModel,
    p: Processor<'_>,
    n: int,
    tips: Tips,
    now_ms: i64,
    waiting: Seq<[u8; 32]>,
) -> StoreModel
    decreases n,
{
    if n <= 0 {
        s
    } else {
        let before = expired(s, p, n - 1, tips, now_ms, waiting);
        let net = p.observed@[n - 1];
        match expiry(before, net, tips, now_ms) {
            Expiry::Due(tip, out) => watches_ended(
                before,
                net,
                out,
                out.len() as int,
                waiting,
                tip,
                burial(p, net),
                now_ms,
            ),
            _ => before,
        }
    }
}

/// What ending watches on the first `n` networks had to wait for.
pub open spec fn held_back(
    s: StoreModel,
    p: Processor<'_>,
    n: int,
    tips: Tips,
    now_ms: i64,
    waiting: Seq<[u8; 32]>,
) -> Seq<Lag>
    decreases n,
{
    if n <= 0 {
        Seq::empty()
    } else {
        let before = held_back(s, p, n - 1, tips, now_ms, waiting);
        let net = p.observed@[n - 1];
        match expiry(expired(s, p, n - 1, tips, now_ms, waiting), net, tips, now_ms) {
            Expiry::Syncing => before.push(Lag { network: net, cause: LagCause::Node }),
            Expiry::Behind(b) => before.push(Lag { network: net, cause: LagCause::Observer(b) }),
            _ => before,
        }
    }
}

/// Why watches that ran out on a network were kept.
#[derive(Clone, Copy, PartialEq, Eq, Debug, Structural)]
pub enum LagCause {
    /// The node is still catching up.
    Node,
    /// The observer is so many blocks behind, or has scanned nothing.
    Observer(Option<u32>),
}

/// Watches that ran out, and were kept for now.
#[derive(Clone, Copy, PartialEq, Eq, Debug, Structural)]
pub struct Lag {
    pub network: BitcoinNetwork,
    pub cause: LagCause,
}

/// What looking at a network came to.
enum Looked {
    Nothing,
    Lags(LagCause),
    Due(u32, Vec<(Vec<u8>, Vec<u8>)>),
}

/// How the ending of a watch went.
#[derive(Clone, Copy, PartialEq, Eq, Debug, Structural)]
pub enum Ended {
    /// It has ended.
    Ended,
    /// A payment to its script is still being buried.
    Kept,
    /// The network is no longer scanned to the tip that was looked at.
    Unscanned,
}

/// Why the ending of a watch could not be written down.
#[derive(Clone, Copy, PartialEq, Eq, Debug, Structural)]
pub enum WriteFault {
    /// The records are too busy to be written. Every other watch would fail in turn.
    Busy,
    /// Something else, which says nothing of the next watch.
    Other,
}

/// The ending of watches, one by one, so that each can be written down before the next is
/// tried.
#[derive(Debug)]
pub struct Ending {
    /// How many of the observed networks have been looked at.
    pub looked: usize,
    /// The watches that ran out on the last network where any may end, and the next one of
    /// them to try.
    pub due: Vec<(Vec<u8>, Vec<u8>)>,
    pub at: usize,
    /// That network, its tip, and how deep a payment must be there.
    pub network: BitcoinNetwork,
    pub tip: u32,
    pub deep: u32,
    /// What had to be waited for.
    pub lags: Vec<Lag>,
    /// Whether a watch could not be ended that is to be tried again.
    pub retry: bool,
    /// Whether no more are to be tried for now.
    pub stopped: bool,
}

/// An [`Ending`] as a mathematical value.
pub struct EndingModel {
    pub looked: nat,
    pub due: Seq<(Seq<u8>, Seq<u8>)>,
    pub at: nat,
    pub network: BitcoinNetwork,
    pub tip: u32,
    pub deep: u32,
    pub lags: Seq<Lag>,
    pub retry: bool,
    pub stopped: bool,
}

impl View for Ending {
    type V = EndingModel;

    open spec fn view(&self) -> EndingModel {
        EndingModel {
            looked: self.looked as nat,
            due: pair_models(self.due@),
            at: self.at as nat,
            network: self.network,
            tip: self.tip,
            deep: self.deep,
            lags: self.lags@,
            retry: self.retry,
            stopped: self.stopped,
        }
    }
}

/// One more network looked at.
pub open spec fn looked_at(
    e: EndingModel,
    s: StoreModel,
    p: Processor<'_>,
    tips: Tips,
    now_ms: i64,
) -> EndingModel {
    let net = p.observed@[e.looked as int];
    let next = EndingModel { looked: e.looked + 1, ..e };
    match expiry(s, net, tips, now_ms) {
        Expiry::Due(tip, out) => EndingModel {
            due: out,
            at: 0,
            network: net,
            tip,
            deep: burial(p, net),
            ..next
        },
        Expiry::Syncing => EndingModel {
            lags: e.lags.push(Lag { network: net, cause: LagCause::Node }),
            ..next
        },
        Expiry::Behind(b) => EndingModel {
            lags: e.lags.push(Lag { network: net, cause: LagCause::Observer(b) }),
            ..next
        },
        _ => next,
    }
}

/// The ending of watches, gone on with until there is one to try, or none is left. Those of
/// senders with a request waiting are passed over.
pub open spec fn sought(
    e: EndingModel,
    s: StoreModel,
    p: Processor<'_>,
    tips: Tips,
    now_ms: i64,
    waiting: Seq<[u8; 32]>,
) -> EndingModel
    decreases p.observed@.len() - e.looked, e.due.len() - e.at,
{
    if e.stopped {
        e
    } else if e.at < e.due.len() {
        if waits(waiting, e.due[e.at as int].1) {
            sought(EndingModel { at: e.at + 1, ..e }, s, p, tips, now_ms, waiting)
        } else {
            e
        }
    } else if e.looked < p.observed@.len() {
        sought(looked_at(e, s, p, tips, now_ms), s, p, tips, now_ms, waiting)
    } else {
        e
    }
}

/// The ending of watches once the next one has been tried. One that could not be ended keeps
/// no other from ending, unless the records are busy.
pub open spec fn tried(e: EndingModel, what: Result<Ended, WriteFault>) -> EndingModel {
    EndingModel {
        at: e.at + 1,
        retry: e.retry || what is Err || what == Ok::<Ended, WriteFault>(Ended::Unscanned),
        stopped: e.stopped || what == Err::<Ended, WriteFault>(WriteFault::Busy),
        ..e
    }
}

impl EndingModel {
    /// Whether there is a watch to try.
    pub open spec fn has_one(self) -> bool {
        !self.stopped && self.at < self.due.len()
    }
}

impl Ending {
    pub fn new() -> (r: Self)
        ensures
            r@ == (EndingModel {
                looked: 0,
                due: Seq::empty(),
                at: 0,
                network: BitcoinNetwork::Bitcoin,
                tip: 0,
                deep: 0,
                lags: Seq::empty(),
                retry: false,
                stopped: false,
            }),
    {
        let r = Ending {
            looked: 0,
            due: Vec::new(),
            at: 0,
            network: BitcoinNetwork::Bitcoin,
            tip: 0,
            deep: 0,
            lags: Vec::new(),
            retry: false,
            stopped: false,
        };
        assert(r@.due =~= Seq::empty());
        assert(r@.lags =~= Seq::empty());
        r
    }

    /// Go on to the next watch to try, if there is one.
    pub fn next(
        &mut self,
        p: &Processor<'_>,
        store: &Store,
        tips: &Tips,
        now_ms: i64,
        waiting: &Vec<[u8; 32]>,
    ) -> (r: bool)
        ensures
            final(self)@ == sought(old(self)@, store@, *p, *tips, now_ms, waiting@),
            r == final(self)@.has_one(),
    {
        let ghost start = self@;
        loop
            invariant
                start == old(self)@,
                sought(self@, store@, *p, *tips, now_ms, waiting@) == sought(
                    start,
                    store@,
                    *p,
                    *tips,
                    now_ms,
                    waiting@,
                ),
            decreases p.observed@.len() - self.looked, self.due@.len() - self.at,
        {
            if self.stopped {
                return false;
            }
            if self.at < self.due.len() {
                assert(self@.due[self.at as int].1 == self.due@[self.at as int].1@);
                if !is_waiting(waiting, &self.due[self.at].1) {
                    return true;
                }
                let ghost before = self@;
                self.at = self.at + 1;
                assert(self@ == (EndingModel { at: before.at + 1, ..before }));
            } else if self.looked < p.observed.len() {
                let ghost before = self@;
                let net = p.observed[self.looked];
                self.looked = self.looked + 1;
                match p.look(store, net, tips, now_ms) {
                    Looked::Nothing => {},
                    Looked::Lags(cause) => {
                        self.lags.push(Lag { network: net, cause });
                    },
                    Looked::Due(tip, due) => {
                        self.due = due;
                        self.at = 0;
                        self.network = net;
                        self.tip = tip;
                        self.deep = p.depth_on(net);
                    },
                }
                assert(self@ == looked_at(before, store@, *p, *tips, now_ms));
            } else {
                return false;
            }
        }
    }

    /// End the next watch, if its network is still scanned to its tip and no payment to its
    /// script is being buried.
    pub fn end(&self, store: &mut Store, now_ms: i64) -> (r: Ended)
        requires
            self.at < self.due@.len(),
        ensures
            ({
                let (script, ghostkey) = self@.due[self.at as int];
                let s = old(store)@;
                if !(s.checkpoint(self.network) matches Some(a) && a.height == self.tip) {
                    r == Ended::Unscanned && final(store)@ == s
                } else {
                    &&& r == if s.has_shallow_output(self.network, script, self.tip, self.deep) {
                        Ended::Kept
                    } else {
                        Ended::Ended
                    }
                    &&& final(store)@ == watch_ended(
                        s,
                        self.network,
                        script,
                        ghostkey,
                        self.tip,
                        self.deep,
                        now_ms,
                    )
                }
            }),
    {
        let (script, ghostkey) = &self.due[self.at];
        assert(self@.due[self.at as int] == (script@, ghostkey@));
        let scanned = match store.checkpoint(self.network) {
            Some(a) => a.height == self.tip,
            None => false,
        };
        if !scanned {
            return Ended::Unscanned;
        }
        if store.has_shallow_output(self.network, script, self.tip, self.deep) {
            return Ended::Kept;
        }
        if !store.expire_interest(self.network, script, ghostkey, now_ms) {
            store.remove_watch(self.network, script);
        }
        Ended::Ended
    }

    /// Take note of how the next watch went, once that is written down or could not be.
    pub fn written(&mut self, what: Result<Ended, WriteFault>)
        requires
            old(self).at < old(self).due@.len(),
        ensures
            final(self)@ == tried(old(self)@, what),
    {
        let n: usize = self.due.len();
        assert(self.at < n);
        self.at = self.at + 1;
        match what {
            Ok(Ended::Unscanned) => {
                self.retry = true;
            },
            Ok(_) => {},
            Err(fault) => {
                self.retry = true;
                if fault == WriteFault::Busy {
                    self.stopped = true;
                }
            },
        }
    }
}

/// How far the ending of watches has come where each was written down.
spec fn on_track(
    start: StoreModel,
    e: EndingModel,
    s: StoreModel,
    p: Processor<'_>,
    tips: Tips,
    now_ms: i64,
    waiting: Seq<[u8; 32]>,
) -> bool {
    &&& e.looked <= p.observed@.len()
    &&& e.at <= e.due.len()
    &&& !e.stopped
    &&& !e.retry
    &&& e.lags == held_back(start, p, e.looked as int, tips, now_ms, waiting)
    &&& if e.at < e.due.len() {
        let before = expired(start, p, e.looked - 1, tips, now_ms, waiting);
        &&& e.looked > 0
        &&& e.network == p.observed@[e.looked - 1]
        &&& e.deep == burial(p, e.network)
        &&& expiry(before, e.network, tips, now_ms) == Expiry::Due(e.tip, e.due)
        &&& s == watches_ended(
            before,
            e.network,
            e.due,
            e.at as int,
            waiting,
            e.tip,
            e.deep,
            now_ms,
        )
    } else {
        s == expired(start, p, e.looked as int, tips, now_ms, waiting)
    }
}

/// Going on keeps to the track, and never goes back.
proof fn seeking_keeps_track(
    start: StoreModel,
    e: EndingModel,
    s: StoreModel,
    p: Processor<'_>,
    tips: Tips,
    now_ms: i64,
    waiting: Seq<[u8; 32]>,
)
    requires
        on_track(start, e, s, p, tips, now_ms, waiting),
    ensures
        ({
            let f = sought(e, s, p, tips, now_ms, waiting);
            &&& on_track(start, f, s, p, tips, now_ms, waiting)
            &&& f.looked > e.looked || (f.looked == e.looked && f.due == e.due && f.at >= e.at)
            &&& f.has_one() ==> !waits(waiting, f.due[f.at as int].1)
            &&& !f.has_one() ==> f.looked == p.observed@.len()
        }),
    decreases p.observed@.len() - e.looked, e.due.len() - e.at,
{
    if e.at < e.due.len() {
        if waits(waiting, e.due[e.at as int].1) {
            let f = EndingModel { at: e.at + 1, ..e };
            seeking_keeps_track(start, f, s, p, tips, now_ms, waiting);
        }
    } else if e.looked < p.observed@.len() {
        let f = looked_at(e, s, p, tips, now_ms);
        seeking_keeps_track(start, f, s, p, tips, now_ms, waiting);
    }
}

/// Ending watches moves no scan.
proof fn ending_keeps_checkpoints(
    s: StoreModel,
    net: BitcoinNetwork,
    out: Seq<(Seq<u8>, Seq<u8>)>,
    n: int,
    waiting: Seq<[u8; 32]>,
    tip: u32,
    deep: u32,
    now_ms: i64,
)
    ensures
        watches_ended(s, net, out, n, waiting, tip, deep, now_ms).checkpoints == s.checkpoints,
    decreases n,
{
    if n > 0 {
        ending_keeps_checkpoints(s, net, out, n - 1, waiting, tip, deep, now_ms);
    }
}

impl Processor<'_> {
    /// End the watches that nobody has renewed. What comes back is what had to be waited
    /// for: then the pass is to be run again.
    pub fn expire_watches(
        &self,
        store: &mut Store,
        tips: &Tips,
        now_ms: i64,
        waiting: &Vec<[u8; 32]>,
    ) -> (r: Vec<Lag>)
        ensures
            final(store)@ == expired(
                old(store)@,
                *self,
                self.observed@.len() as int,
                *tips,
                now_ms,
                waiting@,
            ),
            r@ == held_back(
                old(store)@,
                *self,
                self.observed@.len() as int,
                *tips,
                now_ms,
                waiting@,
            ),
    {
        let ghost start = store@;
        let mut ending = Ending::new();
        proof {
            seeking_keeps_track(start, ending@, store@, *self, *tips, now_ms, waiting@);
        }
        let mut more = ending.next(self, store, tips, now_ms, waiting);
        while more
            invariant
                on_track(start, ending@, store@, *self, *tips, now_ms, waiting@),
                more == ending@.has_one(),
                more ==> !waits(waiting@, ending@.due[ending@.at as int].1),
                !more ==> ending@.looked == self.observed@.len(),
            decreases self.observed@.len() - ending@.looked, ending@.due.len() - ending@.at,
        {
            let ghost e = ending@;
            let ghost before = expired(start, *self, e.looked - 1, *tips, now_ms, waiting@);
            proof {
                ending_keeps_checkpoints(
                    before,
                    e.network,
                    e.due,
                    e.at as int,
                    waiting@,
                    e.tip,
                    e.deep,
                    now_ms,
                );
            }
            let what = ending.end(store, now_ms);
            ending.written(Ok(what));
            proof {
                assert(ending@.at == e.due.len() ==> store@ == expired(
                    start,
                    *self,
                    e.looked as int,
                    *tips,
                    now_ms,
                    waiting@,
                ));
                seeking_keeps_track(start, ending@, store@, *self, *tips, now_ms, waiting@);
            }
            more = ending.next(self, store, tips, now_ms, waiting);
        }
        ending.lags
    }

    fn depth_on(&self, net: BitcoinNetwork) -> (r: u32)
        ensures
            r == burial(*self, net),
    {
        match look_up(self.deep_confirmations, net) {
            Some(d) => d,
            None => u32::MAX,
        }
    }

    fn look(&self, store: &Store, net: BitcoinNetwork, tips: &Tips, now_ms: i64) -> (r: Looked)
        ensures
            match expiry(store@, net, *tips, now_ms) {
                Expiry::Due(tip, out) => r matches Looked::Due(t, due) && t == tip && pair_models(
                    due@,
                ) == out,
                Expiry::Syncing => r == Looked::Lags(LagCause::Node),
                Expiry::Behind(b) => r == Looked::Lags(LagCause::Observer(b)),
                _ => r is Nothing,
            },
    {
        let tip: u32 = match look_up(&tips.by_network, net) {
            Some(t) => t,
            None => {
                return Looked::Nothing;
            },
        };
        let median_ms: i64 = match look_up(&tips.median_time_ms, net) {
            Some(m) => m,
            None => {
                return Looked::Nothing;
            },
        };
        let candidates = store.watches_recorded_before(net, cutoff_at(now_ms, median_ms));
        assert(pair_models(candidates@).len() == candidates@.len());
        if candidates.len() == 0 {
            return Looked::Nothing;
        }
        if lists_network(&tips.syncing, net) {
            return Looked::Lags(LagCause::Node);
        }
        match store.checkpoint(net) {
            None => Looked::Lags(LagCause::Observer(None)),
            Some(a) => {
                if a.height != tip {
                    Looked::Lags(LagCause::Observer(Some(tip.saturating_sub(a.height))))
                } else {
                    Looked::Due(tip, candidates)
                }
            },
        }
    }
}

// ---------------------------------------------------------------------------
// One pass over the inbox
// ---------------------------------------------------------------------------

/// The removals and the floor to send back to the inbox.
#[derive(Debug)]
pub struct InboxDelta {
    /// For a height, the keys of every entry ever read at it. It covers whatever was sent
    /// for that height before.
    pub removals: Vec<(u32, Vec<[u8; 32]>)>,
    pub floor: Option<u32>,
}

impl InboxDelta {
    pub fn is_empty(&self) -> (r: bool)
        ensures
            r == (self.removals@.len() == 0 && self.floor is None),
    {
        self.removals.len() == 0 && self.floor.is_none()
    }
}

/// What a pass decided.
#[derive(Debug)]
pub struct Pass {
    pub delta: InboxDelta,
    /// How many entries were acted on for the first time.
    pub acted: usize,
    /// How many were left unread because the removal budget was spent.
    pub deferred: usize,
    /// The Ghost Keys of those.
    pub waiting: Vec<[u8; 32]>,
    /// What the ending of watches had to wait for.
    pub lags: Vec<Lag>,
    /// Whether something was held back that the same state and tips could release, so that
    /// the pass must run again.
    pub gated: bool,
}

/// How far a pass has come.
pub struct Reading {
    pub store: StoreModel,
    pub acted: nat,
    pub deferred: nat,
    pub waiting: Seq<[u8; 32]>,
    pub heights: Seq<u32>,
}

/// A list with one more, unless it has it.
pub open spec fn with_one<T>(s: Seq<T>, x: T) -> Seq<T> {
    if s.contains(x) {
        s
    } else {
        s.push(x)
    }
}

/// Whether an entry is out of the window of a floor: below it, a stale copy of the inbox
/// presents it; above, no inbox admits it.
pub open spec fn out_of_window(known: Option<u32>, height: u32, limits: InboxLimits) -> bool {
    known matches Some(f) && (height < f || height > f + limits.window_blocks)
}

/// Whether an entry has to wait: past the budget for the floor, past its share for its own
/// sender's removals.
pub open spec fn must_wait(s: StoreModel, ghostkey: Seq<u8>, limits: InboxLimits) -> bool {
    s.handled.len() >= limits.removal_budget || s.handled_count_for(ghostkey) >= limits.share()
}

/// One more entry read.
pub open spec fn read_one(
    r: Reading,
    e: EntryModel,
    known: Option<u32>,
    p: Processor<'_>,
    tips: Tips,
    now_ms: i64,
) -> Reading {
    if out_of_window(known, e.height, p.limits) {
        r
    } else if r.store.is_handled(e.key@) {
        Reading { heights: with_one(r.heights, e.height), ..r }
    } else if must_wait(r.store, e.ghostkey@, p.limits) {
        Reading {
            deferred: r.deferred + 1,
            waiting: with_one(r.waiting, e.ghostkey),
            ..r
        }
    } else {
        let s = acted_on(r.store, e, p, tips, now_ms);
        Reading {
            store: StoreModel {
                handled: put_new::<HandledRow>(
                    s.handled,
                    HandledModel {
                        entry_key: e.key,
                        entry_height: e.height,
                        ghostkey: e.ghostkey@,
                    },
                ),
                ..s
            },
            acted: r.acted + 1,
            heights: with_one(r.heights, e.height),
            ..r
        }
    }
}

/// The first `n` entries read.
pub open spec fn read_all(
    r: Reading,
    es: Seq<EntryModel>,
    n: int,
    known: Option<u32>,
    p: Processor<'_>,
    tips: Tips,
    now_ms: i64,
) -> Reading
    decreases n,
{
    if n <= 0 {
        r
    } else {
        read_one(read_all(r, es, n - 1, known, p, tips, now_ms), es[n - 1], known, p, tips, now_ms)
    }
}

/// A store that has taken note of a floor.
pub open spec fn floor_noted(s: StoreModel, height: u32) -> StoreModel {
    StoreModel {
        floor: match s.floor {
            Some(f) => if f > height {
                Some(f)
            } else {
                Some(height)
            },
            None => Some(height),
        },
        ..s
    }
}

/// The store before a pass reads: the floor that the copy carries is noted before anything
/// is forgotten by it, and what no longer matters is forgotten.
pub open spec fn prepared(s: StoreModel, floor: Option<u32>, now_ms: i64) -> StoreModel {
    let a = match floor {
        Some(f) => floor_noted(s, f),
        None => s,
    };
    let b = match a.floor {
        Some(f) => StoreModel {
            handled: those(a.handled, |r: HandledModel| r.entry_height >= f),
            ..a
        },
        None => a,
    };
    let cutoff = (now_ms - WITHDRAWAL_MEMORY_MS) as i64;
    StoreModel {
        interests: those(
            b.interests,
            |r: InterestModel| r.watching || r.recorded_ms >= cutoff,
        ),
        ..b
    }
}

/// The keys of the entries read at a height.
pub open spec fn read_at(s: StoreModel, height: u32) -> Seq<[u8; 32]> {
    those(s.handled, |r: HandledModel| r.entry_height == height).map_values(
        |r: HandledModel| r.entry_key,
    )
}

/// The floor that should stand: it follows the tip, never falls, and does not rise while it
/// is held.
pub open spec fn floor_target(
    known: Option<u32>,
    tip: Option<u32>,
    held: bool,
    limits: InboxLimits,
) -> Option<u32> {
    match tip {
        Some(t) => if held {
            known
        } else {
            let by_tip = if t >= limits.floor_lag_blocks {
                (t - limits.floor_lag_blocks) as u32
            } else {
                0
            };
            match known {
                Some(f) => if f > by_tip {
                    Some(f)
                } else {
                    Some(by_tip)
                },
                None => Some(by_tip),
            }
        },
        None => known,
    }
}

/// Whether entries stand in the order in which they are read: by height, then by key.
pub open spec fn in_order(es: Seq<EntryModel>) -> bool {
    forall|i: int, j: int|
        0 <= i < j < es.len() ==> !entry_before(#[trigger] es[j], #[trigger] es[i])
}

pub open spec fn entry_before(a: EntryModel, b: EntryModel) -> bool {
    a.height < b.height || (a.height == b.height && lex_before(a.key@, b.key@))
}

pub open spec fn entry_models(v: Seq<InboxEntry>) -> Seq<EntryModel> {
    v.map_values(|e: InboxEntry| e@)
}

/// What a pass reads: nothing but a copy of the inbox in reading order.
pub open spec fn reading(
    s: StoreModel,
    floor: Option<u32>,
    es: Seq<EntryModel>,
    p: Processor<'_>,
    tips: Tips,
    now_ms: i64,
) -> Reading {
    let ready = prepared(s, floor, now_ms);
    read_all(
        Reading {
            store: ready,
            acted: 0,
            deferred: 0,
            waiting: Seq::empty(),
            heights: Seq::empty(),
        },
        es,
        es.len() as int,
        ready.floor,
        p,
        tips,
        now_ms,
    )
}

/// The floor that a pass sends, if the copy it read has a lower one or none.
pub open spec fn floor_sent(
    known: Option<u32>,
    floor: Option<u32>,
    tip: Option<u32>,
    held: bool,
    limits: InboxLimits,
) -> Option<u32> {
    match floor_target(known, tip, held, limits) {
        Some(t) => if floor matches Some(cur) && t <= cur {
            None
        } else {
            Some(t)
        },
        None => None,
    }
}

/// Whether this is what reading a copy of the inbox, in this order, comes to.
pub open spec fn is_read(
    before: StoreModel,
    after: StoreModel,
    pass: Pass,
    floor: Option<u32>,
    es: Seq<EntryModel>,
    p: Processor<'_>,
    tips: Tips,
    now_ms: i64,
    held: bool,
) -> bool {
    let known = prepared(before, floor, now_ms).floor;
    let r = reading(before, floor, es, p, tips, now_ms);
    let sent = floor_sent(known, floor, tips.height(BitcoinNetwork::Bitcoin), held, p.limits);
    &&& pass.acted == r.acted
    &&& pass.deferred == r.deferred
    &&& pass.waiting@ == r.waiting
    &&& pass.delta.removals@.len() == r.heights.len()
    &&& forall|i: int|
        0 <= i < r.heights.len() ==> (#[trigger] pass.delta.removals@[i]).0 == r.heights[i]
            && pass.delta.removals@[i].1@ == read_at(r.store, r.heights[i])
    &&& pass.delta.floor == sent
    &&& after == match sent {
        Some(t) => floor_noted(r.store, t),
        None => r.store,
    }
}

/// Whether this is what a pass over a copy of the inbox, read in this order, comes to: what
/// reading it does, and then the ending of watches, unless the floor is held.
pub open spec fn is_pass(
    before: StoreModel,
    after: StoreModel,
    pass: Pass,
    floor: Option<u32>,
    es: Seq<EntryModel>,
    p: Processor<'_>,
    tips: Tips,
    now_ms: i64,
    held: bool,
) -> bool {
    let n = p.observed@.len() as int;
    exists|read: StoreModel| #[trigger]
        is_read(before, read, pass, floor, es, p, tips, now_ms, held) && if held {
            after == read && pass.lags@.len() == 0 && pass.gated
        } else {
            &&& after == expired(read, p, n, tips, now_ms, pass.waiting@)
            &&& pass.lags@ == held_back(read, p, n, tips, now_ms, pass.waiting@)
            &&& pass.gated == (pass.lags@.len() > 0)
        }
}

impl Pass {
    /// Whether the same copy has to be processed again: what was sent may be refused, and
    /// what was held back may be released.
    pub fn is_unsettled(&self) -> (r: bool)
        ensures
            r == (self.delta.removals@.len() > 0 || self.delta.floor is Some || self.gated),
    {
        !self.delta.is_empty() || self.gated
    }

    /// Take note of how the ending of watches went.
    pub fn note_ending(&mut self, ending: Ending)
        ensures
            *final(self) == (Pass {
                lags: ending.lags,
                gated: old(self).gated || ending.lags@.len() > 0 || ending.retry,
                ..*old(self)
            }),
    {
        self.gated = self.gated || ending.lags.len() > 0 || ending.retry;
        self.lags = ending.lags;
    }
}

fn has_key(list: &Vec<[u8; 32]>, key: &[u8; 32]) -> (r: bool)
    ensures
        r == list@.contains(*key),
{
    for i in 0..list.len()
        invariant
            forall|j: int| 0 <= j < i ==> list@[j] != *key,
    {
        if same32(&list[i], key) {
            proof {
                crate::bytes::arr32_of_view(list@[i as int]);
                crate::bytes::arr32_of_view(*key);
            }
            assert(list@[i as int] == *key);
            return true;
        }
    }
    false
}

fn has_height(list: &Vec<u32>, h: u32) -> (r: bool)
    ensures
        r == list@.contains(h),
{
    for i in 0..list.len()
        invariant
            forall|j: int| 0 <= j < i ==> list@[j] != h,
    {
        if list[i] == h {
            assert(list@[i as int] == h);
            return true;
        }
    }
    false
}

fn entry_comes_before(a: &InboxEntry, b: &InboxEntry) -> (r: bool)
    ensures
        r == entry_before(a@, b@),
{
    a.mainnet_height < b.mainnet_height || (a.mainnet_height == b.mainnet_height && comes_before(
        &a.key,
        &b.key,
    ))
}

/// The slot where an entry belongs among entries in order, behind those that it does not
/// come before.
fn entry_slot(sorted: &Vec<InboxEntry>, e: &InboxEntry) -> (r: usize)
    requires
        in_order(entry_models(sorted@)),
    ensures
        r <= sorted@.len(),
        in_order(entry_models(sorted@).insert(r as int, e@)),
{
    let ghost s = entry_models(sorted@);
    let ghost m = e@;
    let mut i: usize = sorted.len();
    while i > 0 && entry_comes_before(e, &sorted[i - 1])
        invariant
            s == entry_models(sorted@),
            m == e@,
            in_order(s),
            i <= s.len(),
            forall|j: int| i <= j < s.len() ==> entry_before(m, #[trigger] s[j]),
        decreases i,
    {
        assert(s[i - 1] == sorted@[i - 1]@);
        i = i - 1;
    }
    proof {
        let t = s.insert(i as int, m);
        assert(i > 0 ==> s[i - 1] == sorted@[i - 1]@);
        assert forall|a: int, b: int| 0 <= a < b < t.len() implies !entry_before(
            #[trigger] t[b],
            #[trigger] t[a],
        ) by {
            if entry_before(t[b], t[a]) {
                if b < i {
                    assert(!entry_before(s[b], s[a]));
                } else if b == i {
                    if a < i - 1 {
                        assert(!entry_before(s[i - 1], s[a]));
                        lex_total(s[a].key@, s[i - 1].key@);
                        entry_transitive(m, s[a], s[i - 1]);
                    }
                } else if a < i {
                    assert(!entry_before(s[b - 1], s[a]));
                } else if a == i {
                    assert(entry_before(m, s[b - 1]));
                    entry_asymmetric(m, s[b - 1]);
                } else {
                    assert(!entry_before(s[b - 1], s[a - 1]));
                }
            }
        }
    }
    i
}

/// What comes before an entry comes before whatever does not come before that entry.
proof fn entry_transitive(a: EntryModel, b: EntryModel, c: EntryModel)
    requires
        entry_before(a, b),
        !entry_before(c, b),
    ensures
        entry_before(a, c),
{
    lex_total(b.key@, c.key@);
    if a.height == b.height && b.height == c.height {
        if b.key@ != c.key@ {
            lex_transitive(a.key@, b.key@, c.key@);
        }
    }
}

proof fn entry_asymmetric(a: EntryModel, b: EntryModel)
    requires
        entry_before(a, b),
    ensures
        !entry_before(b, a),
{
    if a.height == b.height && lex_before(b.key@, a.key@) {
        lex_transitive(a.key@, b.key@, a.key@);
        lex_irreflexive(a.key@);
    }
}

/// Put entries in the order in which they are read.
fn sort_entries(entries: Vec<InboxEntry>) -> (r: Vec<InboxEntry>)
    ensures
        in_order(entry_models(r@)),
        entry_models(r@).to_multiset() == entry_models(entries@).to_multiset(),
{
    let ghost all = entry_models(entries@);
    let ghost n = entries@.len() as int;
    let mut rest = entries;
    let mut sorted: Vec<InboxEntry> = Vec::new();
    assert(all.skip(n) =~= Seq::<EntryModel>::empty());
    assert(entry_models(sorted@) =~= Seq::<EntryModel>::empty());
    while rest.len() > 0
        invariant
            rest@.len() <= n,
            n == all.len(),
            entry_models(rest@) == all.take(rest@.len() as int),
            in_order(entry_models(sorted@)),
            entry_models(sorted@).to_multiset() == all.skip(
                rest@.len() as int,
            ).to_multiset(),
        decreases rest@.len(),
    {
        let ghost before = rest@;
        let ghost k = rest@.len() as int;
        match rest.pop() {
            None => {},
            Some(e) => {
                let ghost was = entry_models(sorted@);
                let at: usize = entry_slot(&sorted, &e);
                let ghost m = e@;
                sorted.insert(at, e);
                proof {
                    assert(entry_models(sorted@) =~= was.insert(at as int, m));
                    assert(entry_models(before)[k - 1] == m);
                    assert(all[k - 1] == m);
                    insert_counts(was, at as int, m);
                    assert(all.skip(k - 1) =~= all.skip(k).insert(0, m));
                    insert_counts(all.skip(k), 0, m);
                    assert(entry_models(rest@) =~= all.take(k - 1));
                }
            },
        }
    }
    assert(all.skip(0) =~= all);
    sorted
}

impl Processor<'_> {
    /// Make a pass over a copy of the inbox. `held` says whether the floor is held, because
    /// the node has connected only now; then no watch ends either, for its renewal may be
    /// missing.
    pub fn pass(
        &self,
        store: &mut Store,
        state: InboxState,
        tips: &Tips,
        now_ms: i64,
        held: bool,
    ) -> (r: Pass)
        requires
            now_ms - WITHDRAWAL_MEMORY_MS >= i64::MIN,
        ensures
            exists|es: Seq<EntryModel>| #[trigger]
                in_order(es) && es.to_multiset() == entry_models(state.entries@).to_multiset()
                    && is_pass(
                    old(store)@,
                    final(store)@,
                    r,
                    state.floor,
                    es,
                    *self,
                    *tips,
                    now_ms,
                    held,
                ),
    {
        let floor = state.floor;
        let ghost before = store@;
        let ghost all = entry_models(state.entries@).to_multiset();
        let mut pass = self.read(store, state, tips, now_ms, held);
        let ghost read = store@;
        let ghost es = choose|es: Seq<EntryModel>| #[trigger]
            in_order(es) && es.to_multiset() == all && is_read(
                before,
                read,
                pass,
                floor,
                es,
                *self,
                *tips,
                now_ms,
                held,
            );
        if !held {
            pass.lags = self.expire_watches(store, tips, now_ms, &pass.waiting);
            pass.gated = pass.lags.len() > 0;
        }
        assert(is_read(before, read, pass, floor, es, *self, *tips, now_ms, held));
        assert(is_pass(before, store@, pass, floor, es, *self, *tips, now_ms, held));
        pass
    }

    /// Read a copy of the inbox: act on what is new, and say what is to be removed and where
    /// the floor should be. No watch ends here.
    pub fn read(
        &self,
        store: &mut Store,
        state: InboxState,
        tips: &Tips,
        now_ms: i64,
        held: bool,
    ) -> (r: Pass)
        requires
            now_ms - WITHDRAWAL_MEMORY_MS >= i64::MIN,
        ensures
            exists|es: Seq<EntryModel>| #[trigger]
                in_order(es) && es.to_multiset() == entry_models(state.entries@).to_multiset()
                    && is_read(
                    old(store)@,
                    final(store)@,
                    r,
                    state.floor,
                    es,
                    *self,
                    *tips,
                    now_ms,
                    held,
                ),
            r.lags@.len() == 0,
            r.gated == held,
    {
        let floor = state.floor;
        let ghost before = store@;
        match floor {
            Some(f) => {
                store.set_signed_floor(f);
            },
            None => {},
        }
        let known = store.signed_floor();
        match known {
            Some(f) => {
                store.prune_handled_below(f);
            },
            None => {},
        }
        store.prune_withdrawals_before(now_ms - WITHDRAWAL_MEMORY_MS);
        assert(store@ == prepared(before, floor, now_ms));
        let entries = sort_entries(state.entries);
        let ghost es = entry_models(entries@);
        let ghost first = Reading {
            store: store@,
            acted: 0,
            deferred: 0,
            waiting: Seq::empty(),
            heights: Seq::empty(),
        };
        let share: usize = self.limits.removal_share_per_ghostkey();
        let n: usize = entries.len();
        let mut acted: usize = 0;
        let mut deferred: usize = 0;
        let mut waiting: Vec<[u8; 32]> = Vec::new();
        let mut heights: Vec<u32> = Vec::new();
        for i in 0..n
            invariant
                n == entries@.len(),
                es == entry_models(entries@),
                share == self.limits.share(),
                acted <= i,
                deferred <= i,
                ({
                    let r = read_all(first, es, i as int, known, *self, *tips, now_ms);
                    &&& store@ == r.store
                    &&& acted == r.acted
                    &&& deferred == r.deferred
                    &&& waiting@ == r.waiting
                    &&& heights@ == r.heights
                }),
        {
            let e = &entries[i];
            assert(es[i as int] == e@);
            let outside = match known {
                Some(f) => e.mainnet_height < f || e.mainnet_height > f.saturating_add(
                    self.limits.window_blocks,
                ),
                None => false,
            };
            if !outside {
                if store.is_handled(&e.key) {
                    if !has_height(&heights, e.mainnet_height) {
                        heights.push(e.mainnet_height);
                    }
                } else if store.handled_count() >= self.limits.removal_budget
                    || store.handled_count_for(&e.ghostkey) >= share {
                    deferred = deferred + 1;
                    if !has_key(&waiting, &e.ghostkey) {
                        waiting.push(e.ghostkey);
                    }
                } else {
                    self.act(store, e, tips, now_ms);
                    store.mark_handled(&e.key, e.mainnet_height, &e.ghostkey);
                    acted = acted + 1;
                    if !has_height(&heights, e.mainnet_height) {
                        heights.push(e.mainnet_height);
                    }
                }
            }
        }
        let ghost read = store@;
        let mut removals: Vec<(u32, Vec<[u8; 32]>)> = Vec::new();
        let m: usize = heights.len();
        for i in 0..m
            invariant
                m == heights@.len(),
                store@ == read,
                removals@.len() == i,
                forall|j: int|
                    0 <= j < i ==> (#[trigger] removals@[j]).0 == heights@[j]
                        && removals@[j].1@ == read_at(read, heights@[j]),
        {
            let h: u32 = heights[i];
            removals.push((h, store.handled_at(h)));
        }
        let target: Option<u32> = target_floor(known, tips.mainnet(), held, &self.limits);
        let sent: Option<u32> = match target {
            Some(t) => match floor {
                Some(cur) => if t <= cur {
                    None
                } else {
                    Some(t)
                },
                None => Some(t),
            },
            None => None,
        };
        match sent {
            Some(t) => {
                store.set_signed_floor(t);
            },
            None => {},
        }
        let pass = Pass {
            delta: InboxDelta { removals, floor: sent },
            acted,
            deferred,
            waiting,
            lags: Vec::new(),
            gated: held,
        };
        assert(is_read(before, store@, pass, floor, es, *self, *tips, now_ms, held));
        pass
    }
}

fn target_floor(known: Option<u32>, tip: Option<u32>, held: bool, limits: &InboxLimits) -> (r: Option<
    u32,
>)
    ensures
        r == floor_target(known, tip, held, *limits),
{
    match tip {
        Some(t) => {
            if held {
                known
            } else {
                let by_tip: u32 = t.saturating_sub(limits.floor_lag_blocks);
                match known {
                    Some(f) => if f > by_tip {
                        Some(f)
                    } else {
                        Some(by_tip)
                    },
                    None => Some(by_tip),
                }
            }
        },
        None => known,
    }
}

} // verus!
