//! What a reader of a contract can rely on.
//!
//! A report is about every claim in a state: each is checked, each payment is listed once,
//! and an invoice is settled exactly if enough of them is confirmed deep enough.

use vstd::prelude::*;

use crate::address_state::{capped, counted_total, evidence, readable, signed_models};
use crate::fold::{statuses, OutpointStatus};
use crate::outside::{address_script_of, is_address, trimmed_of};
use crate::report::{
    address_read, are_payments, first_fault, reports, Payment, Report, ReportFault, Settlement,
};
use crate::signing::{claim_verdict, SignedModel};
use crate::sorted::{ClaimKey, Ordered};
use crate::types::{BitcoinNetwork, BridgeId, OutPoint, ParamsModel};

verus! {

/// A text is read as an address exactly if it is one, and one of this network; then it is
/// the address's script. White space around it does not matter.
pub proof fn which_texts_are_addresses(text: Seq<char>, other: Seq<char>, net: BitcoinNetwork)
    ensures
        ({
            let r = address_read(text, net);
            let script = address_script_of(trimmed_of(text), net.tag_of());
            &&& r is Ok <==> is_address(trimmed_of(text)) && script is Some
            &&& r is Ok ==> Some(r->Ok_0) == script
            &&& !is_address(trimmed_of(text)) ==> r->Err_0 == text + " is not a Bitcoin address"@
            &&& is_address(trimmed_of(text)) && script is None ==> r->Err_0 == text
                + " is not valid on "@ + net.name()
        }),
        trimmed_of(other) == trimmed_of(text) && address_read(text, net) is Ok ==> address_read(
            other,
            net,
        ) == address_read(text, net),
{
}

/// A state is faulted for its first claim that does not hold up, and for that one's fault;
/// where every claim holds up there is none.
pub proof fn the_first_claim_at_fault_is_named(
    list: Seq<(ClaimKey, SignedModel)>,
    i: int,
    n: int,
    p: ParamsModel,
)
    requires
        0 <= i <= n <= list.len(),
        forall|k: int| i <= k < n ==> claim_verdict((#[trigger] list[k]).1, p) is Ok,
        n < list.len() ==> claim_verdict(list[n].1, p) is Err,
    ensures
        first_fault(list, i, p) == if n < list.len() {
            Some(claim_verdict(list[n].1, p)->Err_0)
        } else {
            None
        },
    decreases n - i,
{
    if i < n {
        assert(claim_verdict(list[i].1, p) is Ok);
        the_first_claim_at_fault_is_named(list, i + 1, n, p);
    }
}

/// Every output that anything is said of is listed, once, with its status and with how deep a
/// reader may take it to be; nothing else is.
pub proof fn every_payment_is_listed_once(
    v: Seq<Payment>,
    m: Map<OutPoint, OutpointStatus>,
    tip: u32,
    op: OutPoint,
    i: int,
    j: int,
)
    requires
        are_payments(v, m, Some(tip)),
        0 <= i < v.len(),
        0 <= j < v.len(),
    ensures
        m.contains_key(op) <==> exists|k: int| 0 <= k < v.len() && (#[trigger] v[k]).outpoint == op,
        v[i].outpoint == v[j].outpoint ==> i == j,
        v[i].status == m[v[i].outpoint],
        v[i].confirmations == v[i].status.confirmed_depth(tip),
{
    if v[i].outpoint == v[j].outpoint && i != j {
        OutPoint::irreflexive(v[i].outpoint);
        if i < j {
            assert(v[i].outpoint.before(v[j].outpoint));
        } else {
            assert(v[j].outpoint.before(v[i].outpoint));
        }
    }
}

/// Without a tip no payment has any depth, nothing is confirmed, and no invoice is judged.
pub proof fn nothing_is_deep_without_a_tip(
    r: Report,
    list: Seq<(ClaimKey, SignedModel)>,
    scanned: Map<BridgeId, SignedModel>,
    p: ParamsModel,
    wanted: Option<u64>,
    depth: u32,
    i: int,
)
    requires
        reports(r, list, scanned, p, None, wanted, depth),
    ensures
        r.tip is None,
        r.confirmed is None,
        0 <= i < r.payments@.len() ==> r.payments@[i].confirmations == 0,
        wanted is Some ==> r.settlement == Some(Settlement::NoTip),
        wanted is None ==> r.settlement is None,
{
}

/// An invoice is settled exactly if the outputs that are as deep as it asks come to its
/// amount, and the claims that are handed out for it are all those that count, each of which
/// holds up. What is said to be confirmed is that sum either way.
pub proof fn when_an_invoice_is_settled(
    r: Report,
    list: Seq<(ClaimKey, SignedModel)>,
    scanned: Map<BridgeId, SignedModel>,
    p: ParamsModel,
    tip: u32,
    sats: u64,
    depth: u32,
)
    requires
        reports(r, list, scanned, p, Some(tip), Some(sats), depth),
    ensures
        ({
            let m = statuses(readable(list));
            let total = counted_total(m, tip, depth, false);
            &&& r.tip == Some(tip)
            &&& r.settlement is Some
            &&& r.settlement->Some_0 is Settled <==> total >= sats
            &&& r.settlement->Some_0 is Unsettled <==> total < sats
            &&& total <= u64::MAX ==> (r.settlement->Some_0 matches Settlement::Unsettled {
                confirmed,
            } ==> confirmed == total)
            &&& r.settlement->Some_0 matches Settlement::Settled { claims, confirmed } ==> {
                &&& total <= u64::MAX ==> confirmed == total
                &&& total > u64::MAX ==> confirmed == u64::MAX
                &&& signed_models(claims@).to_multiset() == evidence(
                    list,
                    m,
                    tip,
                    depth,
                ).to_multiset()
                &&& forall|i: int|
                    0 <= i < claims@.len() ==> claim_verdict((#[trigger] claims@[i])@, p) is Ok
            }
            &&& r.confirmed is Some <==> r.payments@.len() > 0
            &&& r.confirmed is Some ==> r.confirmed->Some_0 == capped(
                counted_total(m, tip, 1, false),
            )
        }),
{
}

/// A fault says whether the state could not be read or a claim in it does not hold up, and
/// why.
pub proof fn what_a_fault_says(e: String)
    ensures
        ReportFault::Unreadable(e).text() == "decoding contract state: "@ + e@,
        ReportFault::BadClaim(e).text() == "a claim in the retrieved state does not verify: "@ + e@,
{
}

} // verus!
