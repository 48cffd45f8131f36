//! What the contents of a contract establish, as anyone who reads it would conclude.
//!
//! Every claim is checked anew, rather than taken from the bridge's own records. That
//! leaves the trust in the bridge's view of the chain, which no reader can do without.

use vstd::prelude::*;

use crate::address_state::{
    capped, counted_total, evidence, reaches, readable, signed_models, BitcoinAddressStateV1,
};
use crate::fold::{statuses, OutpointStatus};
use crate::outside::{
    address_script, address_script_of, is_address, reads_as_address, trim, trimmed_of,
};
use crate::signing::{claim_verdict, SignedClaim, SignedModel};
use crate::sorted::{map_of, map_of_rising, rising, ClaimKey, Ordered};
use crate::text::{join, join3};
use crate::tip_state::BitcoinTipStateV1;
use crate::types::{
    BitcoinAddressParameters, BitcoinNetwork, BridgeId, OutPoint, ParamsModel,
};
use crate::wire::{from_cbor, read_from, Record};

verus! {

// ---------------------------------------------------------------------------
// Addresses
// ---------------------------------------------------------------------------

/// What a human-readable address stands for: a script, or why it stands for none.
pub open spec fn address_read(text: Seq<char>, network: BitcoinNetwork) -> Result<
    Seq<u8>,
    Seq<char>,
> {
    if !is_address(trimmed_of(text)) {
        Err(text + " is not a Bitcoin address"@)
    } else {
        match address_script_of(trimmed_of(text), network.tag_of()) {
            Some(script) => Ok(script),
            None => Err(text + " is not valid on "@ + network.name()),
        }
    }
}

/// The script that a human-readable address stands for. Everything else goes by the
/// script: several texts can stand for one, and only the script is on the chain.
pub fn parse_address(s: &str, network: BitcoinNetwork) -> (r: Result<Vec<u8>, String>)
    ensures
        match r {
            Ok(script) => address_read(s@, network) is Ok && address_read(s@, network)->Ok_0
                == script@,
            Err(e) => address_read(s@, network) is Err && address_read(s@, network)->Err_0 == e@,
        },
{
    let text = trim(s);
    let known = reads_as_address(text);
    let script = address_script(text, network);
    parsed_address(s, network, known, script)
}

/// What is made of an address once it is known whether it is one, and which script it
/// stands for on the network, if any.
pub fn parsed_address(
    s: &str,
    network: BitcoinNetwork,
    known: bool,
    script: Option<Vec<u8>>,
) -> (r: Result<Vec<u8>, String>)
    ensures
        match r {
            Ok(v) => known && script == Some(v),
            Err(e) => e@ == (if !known {
                s@ + " is not a Bitcoin address"@
            } else {
                s@ + " is not valid on "@ + network.name()
            }),
        },
        r is Ok <==> known && script is Some,
{
    if !known {
        return Err(join(s, " is not a Bitcoin address"));
    }
    match script {
        Some(v) => Ok(v),
        None => Err(join3(s, " is not valid on ", network.as_str())),
    }
}

// ---------------------------------------------------------------------------
// Reports
// ---------------------------------------------------------------------------

/// One payment.
#[derive(Debug, Clone, Copy)]
pub struct Payment {
    pub outpoint: OutPoint,
    pub status: OutpointStatus,
    /// How deep a reader may take it to be. That is not the difference to the tip: see
    /// [`OutpointStatus::confirmations_at`].
    pub confirmations: u32,
}

/// Whether an invoice is settled.
#[derive(Debug)]
pub enum Settlement {
    /// Without a chain tip nothing can be said.
    NoTip,
    /// It is, and these claims prove it.
    Settled { claims: Vec<SignedClaim>, confirmed: u64 },
    /// It is not: only this much is confirmed deep enough.
    Unsettled { confirmed: u64 },
}

/// What an address contract establishes.
#[derive(Debug)]
pub struct Report {
    /// How far the bridges say they have scanned. `None` is not "no payments".
    pub scanned: Option<u32>,
    pub tip: Option<u32>,
    pub payments: Vec<Payment>,
    /// What is confirmed at all, if there are payments and a tip.
    pub confirmed: Option<u64>,
    /// The answer to the question about an invoice, if it was asked.
    pub settlement: Option<Settlement>,
}

/// Why there is nothing to report.
#[derive(Debug)]
pub enum ReportFault {
    /// The contents could not be read.
    Unreadable(String),
    /// A claim among them does not hold up.
    BadClaim(String),
}

impl ReportFault {
    pub open spec fn text(self) -> Seq<char> {
        match self {
            ReportFault::Unreadable(e) => "decoding contract state: "@ + e@,
            ReportFault::BadClaim(e) => "a claim in the retrieved state does not verify: "@ + e@,
        }
    }

    pub fn message(&self) -> (r: String)
        ensures
            r@ == self.text(),
    {
        match self {
            ReportFault::Unreadable(e) => join("decoding contract state: ", e),
            ReportFault::BadClaim(e) => join("a claim in the retrieved state does not verify: ", e),
        }
    }
}

/// Why the first claim that does not verify does not, from the `i`th on.
pub open spec fn first_fault(list: Seq<(ClaimKey, SignedModel)>, i: int, p: ParamsModel) -> Option<
    Seq<char>,
>
    decreases list.len() - i,
{
    if i >= list.len() {
        None
    } else {
        match claim_verdict(list[i].1, p) {
            Err(e) => Some(e),
            Ok(_) => first_fault(list, i + 1, p),
        }
    }
}

/// Whether payments are those of `m`, each once and in order, as they stand at the tip.
pub open spec fn are_payments(
    v: Seq<Payment>,
    m: Map<OutPoint, OutpointStatus>,
    tip: Option<u32>,
) -> bool {
    &&& forall|i: int|
        0 <= i < v.len() ==> m.contains_key((#[trigger] v[i]).outpoint) && v[i].status
            == m[v[i].outpoint] && v[i].confirmations == (match tip {
            Some(t) => m[v[i].outpoint].confirmed_depth(t),
            None => 0,
        })
    &&& forall|op: OutPoint| #[trigger]
        m.contains_key(op) ==> exists|i: int| 0 <= i < v.len() && (#[trigger] v[i]).outpoint == op
    &&& forall|i: int, j: int|
        0 <= i < j < v.len() ==> (#[trigger] v[i]).outpoint.before((#[trigger] v[j]).outpoint)
}

/// Whether a report says what claims and watermarks establish.
pub open spec fn reports(
    r: Report,
    list: Seq<(ClaimKey, SignedModel)>,
    scanned: Map<BridgeId, SignedModel>,
    p: ParamsModel,
    tip: Option<u32>,
    wanted: Option<u64>,
    depth: u32,
) -> bool {
    let m = statuses(readable(list));
    &&& reaches(scanned, r.scanned)
    &&& r.tip == tip
    &&& are_payments(r.payments@, m, tip)
    &&& r.confirmed == (match tip {
        Some(t) if r.payments@.len() > 0 => Some(capped(counted_total(m, t, 1, false))),
        _ => None,
    })
    &&& match (wanted, tip) {
        (None, _) => r.settlement is None,
        (Some(_), None) => r.settlement == Some(Settlement::NoTip),
        (Some(sats), Some(t)) => {
            let total = counted_total(m, t, depth, false);
            match r.settlement {
                Some(Settlement::Settled { claims, confirmed }) => {
                    &&& total >= sats
                    &&& confirmed == capped(total)
                    &&& signed_models(claims@).to_multiset() == evidence(
                        list,
                        m,
                        t,
                        depth,
                    ).to_multiset()
                    &&& forall|i: int|
                        0 <= i < claims@.len() ==> claim_verdict(
                            (#[trigger] claims@[i])@,
                            p,
                        ) is Ok
                },
                Some(Settlement::Unsettled { confirmed }) => total < sats && confirmed == capped(
                    total,
                ),
                _ => false,
            }
        },
    }
}

/// Whether `r` is what claims and watermarks come to: a report, or the fault of the first
/// bad claim.
pub open spec fn is_account_of(
    r: Result<Report, ReportFault>,
    list: Seq<(ClaimKey, SignedModel)>,
    scanned: Map<BridgeId, SignedModel>,
    p: ParamsModel,
    tip: Option<u32>,
    wanted: Option<u64>,
    depth: u32,
) -> bool {
    let fault = first_fault(list, 0, p);
    match r {
        Ok(rep) => fault is None && reports(rep, list, scanned, p, tip, wanted, depth),
        Err(ReportFault::BadClaim(e)) => fault == Some(e@),
        Err(ReportFault::Unreadable(_)) => false,
    }
}

/// Where no claim has a fault, every claim verifies.
proof fn none_at_fault(list: Seq<(ClaimKey, SignedModel)>, i: int, p: ParamsModel)
    requires
        0 <= i,
        first_fault(list, i, p) is None,
    ensures
        forall|j: int| i <= j < list.len() ==> claim_verdict((#[trigger] list[j]).1, p) is Ok,
    decreases list.len() - i,
{
    if i < list.len() {
        none_at_fault(list, i + 1, p);
    }
}

/// Evidence is made of a state's own claims.
proof fn evidence_is_of_them(
    list: Seq<(ClaimKey, SignedModel)>,
    m: Map<OutPoint, OutpointStatus>,
    tip: u32,
    min: u32,
    c: SignedModel,
)
    requires
        evidence(list, m, tip, min).contains(c),
    ensures
        exists|q: int| 0 <= q < list.len() && (#[trigger] list[q]).1 == c,
    decreases list.len(),
{
    let all = evidence(list, m, tip, min);
    let n = list.len() - 1;
    let before = evidence(list.drop_last(), m, tip, min);
    let k = choose|k: int| 0 <= k < all.len() && all[k] == c;
    if list[n].1 != c {
        assert(before[k] == c);
        evidence_is_of_them(list.drop_last(), m, tip, min, c);
        let q = choose|q: int| 0 <= q < n && (#[trigger] list.drop_last()[q]).1 == c;
        assert(list[q].1 == c);
    }
}

/// What the contents of an address contract establish, given the height of the chain's
/// tip if it is known. `wanted` asks whether they settle an invoice for that many satoshis
/// at `depth` confirmations; the claims that then prove it verify.
pub fn report(
    params: &BitcoinAddressParameters,
    state: &BitcoinAddressStateV1,
    tip: Option<u32>,
    wanted: Option<u64>,
    depth: u32,
) -> (r: Result<Report, ReportFault>)
    ensures
        is_account_of(
            r,
            state.claims.claims.list(),
            state.claims@.scanned,
            params@,
            tip,
            wanted,
            depth,
        ),
        rising(state.claims.claims.list()),
{
    let ghost list = state.claims.claims.list();
    let ghost p = params@;
    let n: usize = state.claims.claims.len();
    for i in 0..n
        invariant
            list == state.claims.claims.list(),
            n == list.len(),
            p == params@,
            first_fault(list, 0, p) == first_fault(list, i as int, p),
    {
        let (key, claim) = state.claims.claims.at(i);
        assert(list[i as int] == (*key, claim@));
        match claim.verify(params) {
            Ok(_) => {},
            Err(e) => {
                return Err(ReportFault::BadClaim(e));
            },
        }
    }
    let found = state.claims.outpoint_statuses();
    let ghost m = statuses(readable(list));
    let mut payments: Vec<Payment> = Vec::new();
    let k: usize = found.len();
    for i in 0..k
        invariant
            k == found.list().len(),
            found.wf(),
            payments@.len() == i,
            forall|j: int|
                0 <= j < i ==> (#[trigger] payments@[j]).outpoint == found.list()[j].0
                    && payments@[j].status == found.list()[j].1 && payments@[j].confirmations == (
                match tip {
                    Some(t) => found.list()[j].1.confirmed_depth(t),
                    None => 0,
                }),
    {
        let (outpoint, status) = found.at(i);
        let confirmations: u32 = match tip {
            Some(t) => status.confirmations_at(t),
            None => 0,
        };
        payments.push(Payment { outpoint: *outpoint, status: *status, confirmations });
    }
    proof {
        let fl = found.list();
        assert(found@ == m);
        assert forall|op: OutPoint| #[trigger] m.contains_key(op) implies exists|i: int|
            0 <= i < payments@.len() && (#[trigger] payments@[i]).outpoint == op by {
            let i = choose|i: int| 0 <= i < fl.len() && (#[trigger] fl[i]).0 == op;
            assert(payments@[i].outpoint == op);
        }
        assert(are_payments(payments@, m, tip));
    }
    let confirmed = match tip {
        Some(t) => if payments.len() > 0 {
            Some(state.claims.confirmed_value_sats(t, 1))
        } else {
            None
        },
        None => None,
    };
    let settlement = match (wanted, tip) {
        (None, _) => None,
        (Some(_), None) => Some(Settlement::NoTip),
        (Some(sats), Some(t)) => {
            let confirmed: u64 = state.claims.confirmed_value_sats(t, depth);
            match state.claims.payment_evidence(sats, t, depth) {
                Some(claims) => {
                    proof {
                        let all = evidence(list, m, t, depth);
                        let shown = signed_models(claims@);
                        none_at_fault(list, 0, p);
                        assert forall|i: int| 0 <= i < claims@.len() implies claim_verdict(
                            (#[trigger] claims@[i])@,
                            p,
                        ) is Ok by {
                            assert(shown[i] == claims@[i]@);
                            broadcast use vstd::seq_lib::group_to_multiset_ensures;

                            assert(shown.to_multiset().count(shown[i]) > 0);
                            assert(all.to_multiset().count(shown[i]) > 0);
                            assert(all.contains(shown[i]));
                            evidence_is_of_them(list, m, t, depth, shown[i]);
                        }
                    }
                    Some(Settlement::Settled { claims, confirmed })
                },
                None => Some(Settlement::Unsettled { confirmed }),
            }
        },
    };
    let scanned = state.scanned_to();
    Ok(Report { scanned, tip, payments, confirmed, settlement })
}

/// The height of the tip that a tip contract shows, if its contents can be read.
pub fn shown_tip(bytes: &[u8]) -> (r: Option<u32>)
    ensures
        r is Some <==> read_from::<BitcoinTipStateV1>(bytes@) is Ok && read_from::<
            BitcoinTipStateV1,
        >(bytes@)->Ok_0.dom().len() > 0,
        r matches Some(h) ==> {
            let m = read_from::<BitcoinTipStateV1>(bytes@)->Ok_0;
            m.contains_key(h) && forall|k: u32| #[trigger] m.contains_key(k) ==> k <= h
        },
{
    match from_cbor::<BitcoinTipStateV1>(bytes) {
        Ok(state) => {
            let ghost list = state.blocks.blocks.list();
            let n: usize = state.blocks.blocks.len();
            proof {
                let m = state.blocks.blocks@;
                if n > 0 {
                    let h = list[n - 1].0;
                    assert(m.contains_key(h));
                    assert forall|k: u32| #[trigger] m.contains_key(k) implies k <= h by {
                        let i = choose|i: int| 0 <= i < list.len() && (#[trigger] list[i]).0 == k;
                        if i < n - 1 {
                            assert(list[i].0.before(list[n - 1].0));
                        }
                    }
                }
            }
            state.tip_height()
        },
        Err(_) => None,
    }
}

/// What the bytes of an address contract establish.
pub fn verify_address(
    params: &BitcoinAddressParameters,
    bytes: &[u8],
    tip: Option<u32>,
    wanted: Option<u64>,
    depth: u32,
) -> (r: Result<Report, ReportFault>)
    ensures
        match read_from::<BitcoinAddressStateV1>(bytes@) {
            Err(e) => r matches Err(ReportFault::Unreadable(why)) && why@ == e,
            Ok(m) => exists|list: Seq<(ClaimKey, SignedModel)>|
                rising(list) && map_of(list) == m.claims && #[trigger] is_account_of(
                    r,
                    list,
                    m.scanned,
                    params@,
                    tip,
                    wanted,
                    depth,
                ),
        },
{
    match from_cbor::<BitcoinAddressStateV1>(bytes) {
        Ok(state) => {
            let r = report(params, &state, tip, wanted, depth);
            assert(map_of(state.claims.claims.list()) == state.claims@.claims);
            r
        },
        Err(e) => Err(ReportFault::Unreadable(e)),
    }
}

/// An address contract is refused exactly where one of its claims does not verify. Where
/// all do, an invoice is settled exactly where as much is confirmed deep enough as it asks
/// for, by what the claims come to together.
pub proof fn an_address_is_judged_by_all_its_claims(
    r: Result<Report, ReportFault>,
    list: Seq<(ClaimKey, SignedModel)>,
    scanned: Map<BridgeId, SignedModel>,
    p: ParamsModel,
    tip: Option<u32>,
    wanted: Option<u64>,
    depth: u32,
)
    requires
        rising(list),
        is_account_of(r, list, scanned, p, tip, wanted, depth),
    ensures
        r is Err <==> exists|k: ClaimKey|
            map_of(list).contains_key(k) && claim_verdict(#[trigger] map_of(list)[k], p) is Err,
        r matches Ok(rep) ==> wanted matches Some(sats) ==> tip matches Some(t) ==> {
            let total = counted_total(statuses(readable(list)), t, depth, false);
            &&& rep.settlement matches Some(s) && (s is Settled || s is Unsettled)
            &&& rep.settlement->Some_0 is Settled <==> total >= sats
        },
{
    map_of_rising(list);
    if r is Err {
        let j = one_at_fault(list, 0, p);
        assert(claim_verdict(map_of(list)[list[j].0], p) is Err);
    } else {
        none_at_fault(list, 0, p);
        assert forall|k: ClaimKey| map_of(list).contains_key(k) implies claim_verdict(
            #[trigger] map_of(list)[k],
            p,
        ) is Ok by {
            let i = choose|i: int| 0 <= i < list.len() && (#[trigger] list[i]).0 == k;
            assert(map_of(list)[list[i].0] == list[i].1);
        }
    }
}

/// Where there is a fault, some claim has it.
proof fn one_at_fault(list: Seq<(ClaimKey, SignedModel)>, i: int, p: ParamsModel) -> (j: int)
    requires
        0 <= i,
        first_fault(list, i, p) is Some,
    ensures
        i <= j < list.len(),
        claim_verdict(list[j].1, p) is Err,
    decreases list.len() - i,
{
    if claim_verdict(list[i].1, p) is Err {
        i
    } else {
        one_at_fault(list, i + 1, p)
    }
}

} // verus!
