//! What the inbox worker does with each message, and what it keeps between them.

use vstd::prelude::*;

use crate::bytes::same32;
use crate::freenet::{is_not_found, says_not_found, ErrorKind};
use crate::inbox::{
    looked_up, InboxLimits, Lag, LagCause, Tips, OBSERVER_LAG_WARN_BLOCKS,
};
use crate::outside::{blake3_hash, blake3_of};
use crate::types::BitcoinNetwork;

verus! {

/// How often the inbox is read even when nothing is heard of it, in milliseconds.
pub const POLL_INTERVAL: u64 = 30_000;

/// The longest wait between attempts to connect, in milliseconds.
pub const MAX_BACKOFF: u64 = 60_000;

/// How long a read may go unanswered before it is sent again, in milliseconds.
pub const READ_TIMEOUT: u64 = 60_000;

/// The least time between attempts to open an inbox that is absent, in milliseconds.
pub const REOPEN_INTERVAL: u64 = 60_000;

/// How long a node may be catching up before it is reported, in milliseconds. It is behind
/// its headers for a moment at every block.
pub const SYNC_WARN_AFTER: u64 = 600_000;

// ---------------------------------------------------------------------------
// Messages
// ---------------------------------------------------------------------------

/// A message from the node, as far as it matters here.
#[derive(Debug)]
pub enum HostMessage {
    Got { state: Vec<u8> },
    NotFound,
    UpdateNotification,
    SubscribeResponse { subscribed: bool },
    PutResponse,
    Other,
    Error { kind: ErrorKind, text: String },
}

/// A message reduced to what the worker acts on.
#[derive(Debug, PartialEq, Eq)]
pub enum Reply {
    /// The inbox's state, in answer to a read.
    State(Vec<u8>),
    /// There is no such contract.
    Absent,
    /// The inbox changed.
    Changed,
    Subscribed(bool),
    /// The inbox was stored.
    Opened,
    /// A request failed; `lost` when the connection itself is gone.
    Failed { lost: bool, not_found: bool },
    /// Anything else, which needs nothing done.
    Other,
}

/// Whether an error means that the connection is gone.
pub open spec fn is_loss(kind: ErrorKind) -> bool {
    kind == ErrorKind::ChannelClosed || kind == ErrorKind::Disconnect || kind
        == ErrorKind::TransportProtocolDisconnect || kind == ErrorKind::Shutdown
}

pub fn connection_lost(kind: ErrorKind) -> (r: bool)
    ensures
        r == is_loss(kind),
{
    match kind {
        ErrorKind::ChannelClosed
        | ErrorKind::Disconnect
        | ErrorKind::TransportProtocolDisconnect
        | ErrorKind::Shutdown => true,
        _ => false,
    }
}

impl Reply {
    pub fn from_host(msg: HostMessage) -> (r: Self)
        ensures
            r == (match msg {
                HostMessage::Got { state } => Reply::State(state),
                HostMessage::NotFound => Reply::Absent,
                HostMessage::UpdateNotification => Reply::Changed,
                HostMessage::SubscribeResponse { subscribed } => Reply::Subscribed(subscribed),
                HostMessage::PutResponse => Reply::Opened,
                HostMessage::Other => Reply::Other,
                HostMessage::Error { kind, text } => Reply::Failed {
                    lost: is_loss(kind),
                    not_found: says_not_found(text@),
                },
            }),
    {
        match msg {
            HostMessage::Got { state } => Reply::State(state),
            HostMessage::NotFound => Reply::Absent,
            HostMessage::UpdateNotification => Reply::Changed,
            HostMessage::SubscribeResponse { subscribed } => Reply::Subscribed(subscribed),
            HostMessage::PutResponse => Reply::Opened,
            HostMessage::Other => Reply::Other,
            HostMessage::Error { kind, text } => Reply::Failed {
                lost: connection_lost(kind),
                not_found: is_not_found(&text),
            },
        }
    }
}

/// Something the worker should do.
#[derive(Debug, PartialEq, Eq)]
pub enum Step {
    Read,
    Subscribe,
    Open,
    Process(Vec<u8>),
    /// The connection is gone: end the session.
    Reconnect,
}

/// What a session remembers between messages. Times are in milliseconds.
#[derive(Clone, Copy, Debug, Default)]
pub struct Driver {
    pub subscribed: bool,
    /// When the read that is not answered yet was sent.
    pub read_sent: Option<u64>,
    /// Whether to read again once it is answered.
    pub reread: bool,
    pub last_open: Option<u64>,
}

/// How long ago something was; no time at all, if it is yet to come.
pub open spec fn since(now: u64, then: u64) -> u64 {
    if now >= then {
        (now - then) as u64
    } else {
        0
    }
}

fn ago(now: u64, then: u64) -> (r: u64)
    ensures
        r == since(now, then),
{
    if now >= then {
        now - then
    } else {
        0
    }
}

impl Driver {
    pub fn new() -> (r: Self)
        ensures
            r == (Driver { subscribed: false, read_sent: None, reread: false, last_open: None }),
    {
        Driver { subscribed: false, read_sent: None, reread: false, last_open: None }
    }

    /// Whether a read is on its way that may yet be answered.
    pub open spec fn reading(self, now: u64) -> bool {
        self.read_sent matches Some(sent) && since(now, sent) < READ_TIMEOUT
    }

    /// The driver once it has been asked to read: a read that is on its way is followed by
    /// one more, however often it is asked.
    pub open spec fn asked_to_read(self, now: u64) -> Driver {
        if self.reading(now) {
            Driver { reread: true, ..self }
        } else {
            Driver { read_sent: Some(now), reread: false, ..self }
        }
    }

    /// Whether an inbox that is absent may be opened again.
    pub open spec fn may_open(self, now: u64) -> bool {
        match self.last_open {
            Some(t) => since(now, t) >= REOPEN_INTERVAL,
            None => true,
        }
    }

    /// The driver once it has heard that the inbox is absent.
    pub open spec fn absent(self, now: u64) -> Driver {
        Driver {
            read_sent: None,
            last_open: if self.may_open(now) {
                Some(now)
            } else {
                self.last_open
            },
            ..self
        }
    }

    /// The poll timer fired. The first time is the session's first read.
    pub fn on_tick(&mut self, now: u64) -> (r: Vec<Step>)
        ensures
            *final(self) == old(self).asked_to_read(now),
            r@ == (if old(self).reading(now) {
                Seq::<Step>::empty()
            } else {
                seq![Step::Read]
            }) + (if old(self).subscribed {
                Seq::<Step>::empty()
            } else {
                seq![Step::Subscribe]
            }),
    {
        let mut out: Vec<Step> = Vec::new();
        self.read(now, &mut out);
        if !self.subscribed {
            out.push(Step::Subscribe);
        }
        assert(out@ =~= (if old(self).reading(now) {
            Seq::<Step>::empty()
        } else {
            seq![Step::Read]
        }) + (if old(self).subscribed {
            Seq::<Step>::empty()
        } else {
            seq![Step::Subscribe]
        }));
        out
    }

    /// The driver after a message.
    pub open spec fn heard(self, reply: Reply, now: u64) -> Driver {
        match reply {
            Reply::State(_) => {
                let answered = Driver { read_sent: None, reread: false, ..self };
                if self.reread {
                    answered.asked_to_read(now)
                } else {
                    answered
                }
            },
            Reply::Changed | Reply::Opened => self.asked_to_read(now),
            Reply::Subscribed(s) => Driver { subscribed: s, ..self },
            Reply::Absent => self.absent(now),
            Reply::Failed { lost, not_found } => if not_found {
                self.absent(now)
            } else if lost {
                self
            } else {
                Driver { read_sent: None, ..self }
            },
            Reply::Other => self,
        }
    }

    /// What to do about a message. A change may come as a difference, so the state itself is
    /// read. A failure cannot be tied to a request, and is taken to be the read's.
    pub open spec fn response(self, reply: Reply, now: u64) -> Seq<Step> {
        match reply {
            Reply::State(bytes) => if self.reread {
                seq![Step::Process(bytes), Step::Read]
            } else {
                seq![Step::Process(bytes)]
            },
            Reply::Changed | Reply::Opened => if self.reading(now) {
                Seq::empty()
            } else {
                seq![Step::Read]
            },
            Reply::Subscribed(_) | Reply::Other => Seq::empty(),
            Reply::Absent => if self.may_open(now) {
                seq![Step::Open]
            } else {
                Seq::empty()
            },
            Reply::Failed { lost, not_found } => if not_found {
                if self.may_open(now) {
                    seq![Step::Open]
                } else {
                    Seq::empty()
                }
            } else if lost {
                seq![Step::Reconnect]
            } else {
                Seq::empty()
            },
        }
    }

    pub fn on_reply(&mut self, reply: Reply, now: u64) -> (r: Vec<Step>)
        ensures
            *final(self) == old(self).heard(reply, now),
            r@ == old(self).response(reply, now),
    {
        let mut out: Vec<Step> = Vec::new();
        let ghost was = *self;
        let ghost said = reply;
        match reply {
            Reply::State(bytes) => {
                let again = self.reread;
                self.read_sent = None;
                self.reread = false;
                out.push(Step::Process(bytes));
                if again {
                    self.read(now, &mut out);
                }
            },
            Reply::Changed | Reply::Opened => {
                self.read(now, &mut out);
            },
            Reply::Subscribed(s) => {
                self.subscribed = s;
            },
            Reply::Absent => {
                self.read_sent = None;
                self.open(now, &mut out);
            },
            Reply::Failed { lost, not_found } => {
                if not_found {
                    self.read_sent = None;
                    self.open(now, &mut out);
                } else if lost {
                    out.push(Step::Reconnect);
                } else {
                    self.read_sent = None;
                }
            },
            Reply::Other => {},
        }
        assert(out@ =~= was.response(said, now));
        out
    }

    fn read(&mut self, now: u64, out: &mut Vec<Step>)
        ensures
            *final(self) == old(self).asked_to_read(now),
            final(out)@ == (if old(self).reading(now) {
                old(out)@
            } else {
                old(out)@.push(Step::Read)
            }),
    {
        let waiting = match self.read_sent {
            Some(sent) => ago(now, sent) < READ_TIMEOUT,
            None => false,
        };
        if waiting {
            self.reread = true;
        } else {
            self.read_sent = Some(now);
            self.reread = false;
            out.push(Step::Read);
        }
    }

    fn open(&mut self, now: u64, out: &mut Vec<Step>)
        ensures
            *final(self) == (Driver {
                last_open: if old(self).may_open(now) {
                    Some(now)
                } else {
                    old(self).last_open
                },
                ..*old(self)
            }),
            final(out)@ == (if old(self).may_open(now) {
                old(out)@.push(Step::Open)
            } else {
                old(out)@
            }),
    {
        let may = match self.last_open {
            Some(t) => ago(now, t) >= REOPEN_INTERVAL,
            None => true,
        };
        if may {
            self.last_open = Some(now);
            out.push(Step::Open);
        }
    }
}

/// Changes that come while a read is on its way cost one more read, however many they are.
pub proof fn changes_cost_one_more_read(d: Driver, t1: u64, t2: u64, t3: u64, bytes: Vec<u8>)
    requires
        d.reading(t1),
        d.reading(t2),
        t1 <= t2 <= t3,
    ensures
        d.response(Reply::Changed, t1) == Seq::<Step>::empty(),
        d.heard(Reply::Changed, t1).response(Reply::Changed, t2) == Seq::<Step>::empty(),
        ({
            let later = d.heard(Reply::Changed, t1).heard(Reply::Changed, t2);
            &&& later == d.heard(Reply::Changed, t1)
            &&& later.response(Reply::State(bytes), t3) == seq![Step::Process(bytes), Step::Read]
            &&& !later.heard(Reply::State(bytes), t3).reread
        }),
{
}

/// A change is never missed: when it is heard of, a read is sent, or one follows the answer
/// to the read that was sent before.
pub proof fn a_change_is_followed_by_a_read(d: Driver, now: u64, then: u64, bytes: Vec<u8>)
    ensures
        d.response(Reply::Changed, now) == seq![Step::Read] || d.heard(
            Reply::Changed,
            now,
        ).response(Reply::State(bytes), then) == seq![Step::Process(bytes), Step::Read],
{
}

/// The wait before the next attempt to connect. A session that lasted was working, so the
/// waiting begins anew.
pub fn next_backoff(last: u64, session_lasted: u64) -> (r: u64)
    requires
        last <= u64::MAX / 2,
    ensures
        r == (if session_lasted > MAX_BACKOFF {
            1_000
        } else if 2 * last < 1_000 {
            1_000
        } else if 2 * last > MAX_BACKOFF {
            MAX_BACKOFF as int
        } else {
            2 * last
        }),
{
    if session_lasted > MAX_BACKOFF {
        1_000
    } else {
        let twice: u64 = last * 2;
        if twice < 1_000 {
            1_000
        } else if twice > MAX_BACKOFF {
            MAX_BACKOFF
        } else {
            twice
        }
    }
}

// ---------------------------------------------------------------------------
// Floors
// ---------------------------------------------------------------------------

/// Whether the floor is still held.
pub fn floor_held(until: Option<u64>, now: u64) -> (r: bool)
    ensures
        r == (until matches Some(t) && now < t),
{
    match until {
        Some(t) => now < t,
        None => false,
    }
}

/// The floor to open the inbox with. A node may report an inbox absent that others still
/// hold, and a floor at the tip would then drop every request that was sent while it was
/// away. So a bridge that has signed a floor before opens with that one.
pub fn opening_floor(signed: Option<u32>, mainnet_tip: u32, limits: &InboxLimits) -> (r: u32)
    ensures
        r == (match signed {
            Some(f) => f as int,
            None => if mainnet_tip >= limits.floor_lag_blocks {
                mainnet_tip - limits.floor_lag_blocks
            } else {
                0
            },
        }),
{
    match signed {
        Some(f) => f,
        None => mainnet_tip.saturating_sub(limits.floor_lag_blocks),
    }
}

// ---------------------------------------------------------------------------
// Passing over what is settled
// ---------------------------------------------------------------------------

/// What a pass goes by: the bytes of the state, by hash; every network's tip; and whether
/// the floor was held.
#[derive(Clone, Copy, Debug)]
pub struct Fingerprint {
    pub hash: [u8; 32],
    pub bitcoin: Option<u32>,
    pub testnet4: Option<u32>,
    pub signet: Option<u32>,
    pub regtest: Option<u32>,
    pub held: bool,
}

/// Which state needs no processing again: one whose pass had nothing to send and held
/// nothing back. What a pass sent may have been refused, so that its state is processed
/// again, until there is nothing left to send.
#[derive(Clone, Copy, Debug)]
pub struct QuietCache(pub Option<Fingerprint>);

impl QuietCache {
    pub fn new() -> (r: Self)
        ensures
            r.0 is None,
    {
        QuietCache(None)
    }

    pub fn fingerprint(bytes: &[u8], tips: &Tips, held: bool) -> (r: Fingerprint)
        ensures
            r.hash@ == blake3_of(bytes@),
            r.bitcoin == tips.height(BitcoinNetwork::Bitcoin),
            r.testnet4 == tips.height(BitcoinNetwork::Testnet4),
            r.signet == tips.height(BitcoinNetwork::Signet),
            r.regtest == tips.height(BitcoinNetwork::Regtest),
            r.held == held,
    {
        Fingerprint {
            hash: blake3_hash(bytes),
            bitcoin: tips.tip(BitcoinNetwork::Bitcoin),
            testnet4: tips.tip(BitcoinNetwork::Testnet4),
            signet: tips.tip(BitcoinNetwork::Signet),
            regtest: tips.tip(BitcoinNetwork::Regtest),
            held,
        }
    }

    pub fn is_quiet(&self, fp: &Fingerprint) -> (r: bool)
        ensures
            r == (self.0 matches Some(f) && f == *fp),
    {
        match &self.0 {
            Some(f) => {
                proof {
                    crate::bytes::arr32_of_view(f.hash);
                    crate::bytes::arr32_of_view(fp.hash);
                }
                same32(&f.hash, &fp.hash) && f.bitcoin == fp.bitcoin && f.testnet4 == fp.testnet4
                    && f.signet == fp.signet && f.regtest == fp.regtest && f.held == fp.held
            },
            None => false,
        }
    }

    pub fn after_pass(&mut self, fp: Fingerprint, sent_something: bool)
        ensures
            final(self).0 == (if sent_something {
                None
            } else {
                Some(fp)
            }),
    {
        self.0 = if sent_something {
            None
        } else {
            Some(fp)
        };
    }
}

// ---------------------------------------------------------------------------
// What is worth a warning
// ---------------------------------------------------------------------------

/// Whether the observer's lag is worse than when it was last seen. `behind` is `None` where
/// it has no checkpoint, and `previous` where it did not lag.
pub open spec fn lag_is_worse(previous: Option<Option<u32>>, behind: Option<u32>) -> bool {
    let lag = match behind {
        Some(b) => b,
        None => u32::MAX,
    };
    match previous {
        None => true,
        Some(p) => lag > (match p {
            Some(b) => b,
            None => u32::MAX,
        }),
    }
}

pub fn lag_grew(previous: Option<Option<u32>>, behind: Option<u32>) -> (r: bool)
    ensures
        r == lag_is_worse(previous, behind),
{
    let lag: u32 = match behind {
        Some(b) => b,
        None => u32::MAX,
    };
    match previous {
        None => true,
        Some(p) => lag > match p {
            Some(b) => b,
            None => u32::MAX,
        },
    }
}

/// The lag of the observer that was last seen on a network, so that an observer which is
/// stuck is reported when its lag grows and not on every pass.
#[derive(Debug)]
pub struct LagWatch {
    pub seen: Vec<(BitcoinNetwork, Option<u32>)>,
}

impl LagWatch {
    pub fn new() -> (r: Self)
        ensures
            r.seen@.len() == 0,
    {
        LagWatch { seen: Vec::new() }
    }

    /// Take note of what a pass had to wait for. What comes back is worth a warning: an
    /// observer further behind than before, and by more than a few blocks.
    pub fn note(&mut self, lags: &Vec<Lag>) -> (r: Vec<Lag>)
        ensures
            r@ == lags@.filter(
                |l: Lag|
                    l.cause matches LagCause::Observer(b) && lag_is_worse(
                        looked_up(old(self).seen@, l.network),
                        b,
                    ) && (b is None || b->Some_0 > OBSERVER_LAG_WARN_BLOCKS),
            ),
            final(self).seen@ == observers_behind(lags@),
    {
        let ghost p = |l: Lag|
            l.cause matches LagCause::Observer(b) && lag_is_worse(
                looked_up(self.seen@, l.network),
                b,
            ) && (b is None || b->Some_0 > OBSERVER_LAG_WARN_BLOCKS);
        let mut report: Vec<Lag> = Vec::new();
        let mut seen: Vec<(BitcoinNetwork, Option<u32>)> = Vec::new();
        let n: usize = lags.len();
        assert(lags@.take(0) =~= Seq::<Lag>::empty());
        for i in 0..n
            invariant
                n == lags@.len(),
                p == (|l: Lag|
                    l.cause matches LagCause::Observer(b) && lag_is_worse(
                        looked_up(self.seen@, l.network),
                        b,
                    ) && (b is None || b->Some_0 > OBSERVER_LAG_WARN_BLOCKS)),
                report@ == lags@.take(i as int).filter(p),
                seen@ == observers_behind(lags@.take(i as int)),
        {
            let l = lags[i];
            proof {
                reveal(Seq::filter);
                assert(lags@.take(i + 1).drop_last() =~= lags@.take(i as int));
                assert(lags@.take(i + 1).last() == l);
            }
            match l.cause {
                LagCause::Observer(behind) => {
                    seen.push((l.network, behind));
                    let far = match behind {
                        Some(b) => b > OBSERVER_LAG_WARN_BLOCKS,
                        None => true,
                    };
                    if far && lag_grew(crate::inbox::look_up(&self.seen, l.network), behind) {
                        report.push(l);
                    }
                },
                LagCause::Node => {},
            }
        }
        assert(lags@.take(n as int) =~= lags@);
        self.seen = seen;
        report
    }
}

/// The observers that are behind, and by how much.
pub open spec fn observers_behind(lags: Seq<Lag>) -> Seq<(BitcoinNetwork, Option<u32>)>
    decreases lags.len(),
{
    if lags.len() == 0 {
        Seq::empty()
    } else {
        let before = observers_behind(lags.drop_last());
        match lags.last().cause {
            LagCause::Observer(b) => before.push((lags.last().network, b)),
            LagCause::Node => before,
        }
    }
}

/// How long each network's node has been catching up, so that one which is stuck is
/// reported, once for each time.
#[derive(Debug)]
pub struct SyncWatch {
    pub since: Vec<(BitcoinNetwork, u64)>,
    pub warned: Vec<BitcoinNetwork>,
}

impl SyncWatch {
    /// When a node that is catching up now began to.
    pub open spec fn began(self, net: BitcoinNetwork, now: u64) -> u64 {
        match looked_up(self.since@, net) {
            Some(t) => t,
            None => now,
        }
    }

    /// Whether a node is to be reported.
    pub open spec fn is_due(self, net: BitcoinNetwork, now: u64) -> bool {
        since(now, self.began(net, now)) >= SYNC_WARN_AFTER && !self.warned@.contains(net)
    }

    pub fn new() -> (r: Self)
        ensures
            r.since@.len() == 0,
            r.warned@.len() == 0,
    {
        SyncWatch { since: Vec::new(), warned: Vec::new() }
    }

    /// The networks to report now. A node that has caught up is forgotten.
    pub fn update(&mut self, syncing: &Vec<BitcoinNetwork>, now: u64) -> (r: Vec<BitcoinNetwork>)
        ensures
            r@ == syncing@.filter(|net: BitcoinNetwork| old(self).is_due(net, now)),
            final(self).since@ == syncing@.map_values(
                |net: BitcoinNetwork| (net, old(self).began(net, now)),
            ),
            final(self).warned@ == syncing@.filter(
                |net: BitcoinNetwork| old(self).is_due(net, now) || old(self).warned@.contains(net),
            ),
    {
        let ghost was = *self;
        let ghost due = |net: BitcoinNetwork| was.is_due(net, now);
        let ghost told = |net: BitcoinNetwork| was.is_due(net, now) || was.warned@.contains(net);
        let mut report: Vec<BitcoinNetwork> = Vec::new();
        let mut begun: Vec<(BitcoinNetwork, u64)> = Vec::new();
        let mut warned: Vec<BitcoinNetwork> = Vec::new();
        let n: usize = syncing.len();
        assert(syncing@.take(0) =~= Seq::<BitcoinNetwork>::empty());
        for i in 0..n
            invariant
                n == syncing@.len(),
                was == *self,
                due == (|net: BitcoinNetwork| was.is_due(net, now)),
                told == (|net: BitcoinNetwork|
                    was.is_due(net, now) || was.warned@.contains(net)),
                report@ == syncing@.take(i as int).filter(due),
                warned@ == syncing@.take(i as int).filter(told),
                begun@.len() == i,
                forall|j: int|
                    0 <= j < i ==> begun@[j] == (
                        #[trigger] syncing@[j],
                        was.began(syncing@[j], now),
                    ),
        {
            let net = syncing[i];
            proof {
                reveal(Seq::filter);
                assert(syncing@.take(i + 1).drop_last() =~= syncing@.take(i as int));
                assert(syncing@.take(i + 1).last() == net);
            }
            let start: u64 = match crate::inbox::look_up(&self.since, net) {
                Some(t) => t,
                None => now,
            };
            begun.push((net, start));
            let before = crate::inbox::lists_network(&self.warned, net);
            if !before && ago(now, start) >= SYNC_WARN_AFTER {
                report.push(net);
                warned.push(net);
            } else if before {
                warned.push(net);
            }
        }
        assert(syncing@.take(n as int) =~= syncing@);
        assert(begun@ =~= syncing@.map_values(|net: BitcoinNetwork| (net, was.began(net, now))));
        self.since = begun;
        self.warned = warned;
        report
    }
}

/// A node that stays behind is reported once: after it was, it is not due again while it is
/// still catching up.
pub proof fn a_stuck_node_is_reported_once(
    w: SyncWatch,
    later: SyncWatch,
    syncing: Seq<BitcoinNetwork>,
    net: BitcoinNetwork,
    now: u64,
    then: u64,
)
    requires
        syncing.contains(net),
        w.is_due(net, now),
        later.warned@ == syncing.filter(
            |n: BitcoinNetwork| w.is_due(n, now) || w.warned@.contains(n),
        ),
    ensures
        !later.is_due(net, then),
{
    let p = |n: BitcoinNetwork| w.is_due(n, now) || w.warned@.contains(n);
    let i = choose|i: int| 0 <= i < syncing.len() && syncing[i] == net;
    syncing.lemma_filter_contains(p, i);
}

} // verus!
