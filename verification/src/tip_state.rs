//! State of a tip contract: one network's public view of the end of the chain.
//!
//! The contract keeps the [`TIP_RETAIN`] highest block summaries. A peer that has pruned
//! says in its summary how low its lowest block is, and nothing below is ever offered to
//! it: otherwise it would prune what it was just sent, for ever.

use vstd::prelude::*;

use crate::bytes::{arr32, arr32_of_view, comes_before, lex_before, lex_irreflexive, same32};
use crate::claims::{TipEntryBody, TIP_RETAIN};
use crate::digest::{blank, bucket, digest_of, BucketDigest};
use crate::records::tip_from;
use crate::signing::{tip_digest, tip_verdict, SignedModel, SignedTipEntry};
use crate::sorted::{map_of, map_of_rising, rising, Copied, Ordered, SortedMap};
use crate::text::{decimal, decimal_text, join3};
use crate::types::{BitcoinTipParameters, BlockAnchor, TipParamsModel};

verus! {

/// Recent block summaries of one network, by height.
#[derive(PartialEq, Debug)]
pub struct BlockSummariesV1 {
    pub blocks: SortedMap<u32, SignedTipEntry>,
}

/// What a peer holds, in a few bytes.
#[derive(Clone, Copy, PartialEq, Debug)]
pub struct BlockSummariesSummary {
    /// Highest height held.
    pub highest: u32,
    /// Lowest height still held.
    pub lowest: u32,
    /// How many blocks are held. The lowest height is a horizon only once the peer is
    /// full, and has therefore pruned.
    pub count: u32,
    /// Digest over the entries held, not merely their heights: two peers with competing
    /// blocks at one height must not look alike.
    pub digest: BucketDigest,
}

#[derive(PartialEq, Debug)]
pub struct BlockSummariesDelta {
    pub blocks: Vec<SignedTipEntry>,
}

impl Default for BlockSummariesV1 {
    fn default() -> (r: Self)
        ensures
            r.blocks@ == Map::<u32, SignedModel>::empty(),
            r.blocks.list().len() == 0,
    {
        BlockSummariesV1 { blocks: SortedMap::new() }
    }
}

impl Clone for BlockSummariesV1 {
    fn clone(&self) -> (r: Self)
        ensures
            r.blocks@ == self.blocks@,
            r.blocks.list() == self.blocks.list(),
    {
        BlockSummariesV1 { blocks: self.blocks.clone() }
    }
}

impl Default for BlockSummariesSummary {
    fn default() -> (r: Self)
        ensures
            r.highest == 0,
            r.lowest == 0,
            r.count == 0,
            r.digest.0@ == blank(),
    {
        BlockSummariesSummary { highest: 0, lowest: 0, count: 0, digest: BucketDigest::default() }
    }
}

impl Default for BlockSummariesDelta {
    fn default() -> (r: Self)
        ensures
            r.blocks@.len() == 0,
    {
        BlockSummariesDelta { blocks: Vec::new() }
    }
}

/// The heights above `h`.
pub open spec fn above(m: Map<u32, SignedModel>, h: u32) -> Set<u32> {
    m.dom().filter(|q: u32| q > h)
}

/// The highest blocks, as many as are retained.
pub open spec fn retained(m: Map<u32, SignedModel>) -> Map<u32, SignedModel> {
    m.restrict(Set::new(|h: u32| above(m, h).len() < TIP_RETAIN))
}

/// Whether an entry takes the place of another at the same height: the greater block
/// hash wins, then the greater digest, so that every replica makes the same choice.
pub open spec fn displaces(new: SignedModel, body: TipEntryBody, there: SignedModel) -> bool {
    match tip_from(there.body_cbor) {
        Err(_) => true,
        Ok(e) => lex_before(e.anchor.hash.0@, body.anchor.hash.0@) || (e.anchor.hash.0@
            == body.anchor.hash.0@ && lex_before(tip_digest(there), tip_digest(new))),
    }
}

/// The blocks with one more entry.
pub open spec fn placed(
    m: Map<u32, SignedModel>,
    c: SignedModel,
    body: TipEntryBody,
) -> Map<u32, SignedModel> {
    let h = body.anchor.height;
    if m.contains_key(h) && !displaces(c, body, m[h]) {
        m
    } else {
        m.insert(h, c)
    }
}

/// Blocks after entries have been checked and placed one by one, and the fault of the
/// first that did not verify, at which it stops.
pub open spec fn all_placed(m: Map<u32, SignedModel>, cs: Seq<SignedModel>, p: TipParamsModel) -> (
    Map<u32, SignedModel>,
    Option<Seq<char>>,
)
    decreases cs.len(),
{
    if cs.len() == 0 {
        (m, None)
    } else {
        let (before, fault) = all_placed(m, cs.drop_last(), p);
        match fault {
            Some(e) => (before, Some(e)),
            None => match tip_verdict(cs.last(), p) {
                Err(e) => (before, Some(e)),
                Ok(body) => (placed(before, cs.last(), body), None),
            },
        }
    }
}

/// The blocks after a delta.
pub open spec fn tips_updated(
    m: Map<u32, SignedModel>,
    cs: Seq<SignedModel>,
    p: TipParamsModel,
) -> (Map<u32, SignedModel>, Option<Seq<char>>) {
    let (after, fault) = all_placed(m, cs, p);
    match fault {
        Some(e) => (after, Some(e)),
        None => (retained(after), None),
    }
}

/// The blocks that entries come to when each takes the place of what came before it, and
/// the fault of the first that did not verify.
pub open spec fn overwritten(cs: Seq<SignedModel>, p: TipParamsModel) -> (
    Map<u32, SignedModel>,
    Option<Seq<char>>,
)
    decreases cs.len(),
{
    if cs.len() == 0 {
        (Map::empty(), None)
    } else {
        let (before, fault) = overwritten(cs.drop_last(), p);
        match fault {
            Some(e) => (before, Some(e)),
            None => match tip_verdict(cs.last(), p) {
                Err(e) => (before, Some(e)),
                Ok(body) => (before.insert(body.anchor.height, cs.last()), None),
            },
        }
    }
}

/// The digests of a list of entries.
pub open spec fn tip_keys(list: Seq<(u32, SignedModel)>) -> Seq<[u8; 32]> {
    list.map_values(|e: (u32, SignedModel)| arr32(tip_digest(e.1)))
}

/// Whether an entry is offered to a peer: its bucket differs, and a peer that has pruned
/// does not say that it is too low.
pub open spec fn offered(
    e: (u32, SignedModel),
    mine: Seq<u64>,
    theirs: Seq<u64>,
    count: u32,
    lowest: u32,
) -> bool {
    let at = bucket(arr32(tip_digest(e.1)));
    mine[at] != theirs[at] && !(count >= TIP_RETAIN && e.0 < lowest)
}

/// The entries offered to a peer, in the order of their heights.
pub open spec fn tips_to_send(
    list: Seq<(u32, SignedModel)>,
    mine: Seq<u64>,
    theirs: Seq<u64>,
    count: u32,
    lowest: u32,
) -> Seq<SignedModel>
    decreases list.len(),
{
    if list.len() == 0 {
        Seq::empty()
    } else {
        let before = tips_to_send(list.drop_last(), mine, theirs, count, lowest);
        if offered(list.last(), mine, theirs, count, lowest) {
            before.push(list.last().1)
        } else {
            before
        }
    }
}

/// Why entries from the `i`th on make a state invalid.
pub open spec fn entries_fault(
    list: Seq<(u32, SignedModel)>,
    i: int,
    p: TipParamsModel,
) -> Option<Seq<char>>
    decreases list.len() - i,
{
    if i >= list.len() {
        None
    } else {
        match tip_verdict(list[i].1, p) {
            Err(e) => Some(e),
            Ok(body) => if body.anchor.height != list[i].0 {
                Some("block summary filed under the wrong height"@)
            } else {
                entries_fault(list, i + 1, p)
            },
        }
    }
}

/// Why a state is invalid, if it is.
pub open spec fn tip_fault(list: Seq<(u32, SignedModel)>, p: TipParamsModel) -> Option<Seq<char>> {
    if list.len() > TIP_RETAIN {
        Some("tip state holds "@ + decimal_text(list.len()) + " blocks, retention is 64"@)
    } else {
        entries_fault(list, 0, p)
    }
}

/// The entries that can be read, the highest first.
pub open spec fn newest_first(list: Seq<(u32, SignedModel)>) -> Seq<TipEntryBody>
    decreases list.len(),
{
    if list.len() == 0 {
        Seq::empty()
    } else {
        match tip_from(list.last().1.body_cbor) {
            Ok(b) => seq![b] + newest_first(list.drop_last()),
            Err(_) => newest_first(list.drop_last()),
        }
    }
}

pub open spec fn tip_models(v: Seq<SignedTipEntry>) -> Seq<SignedModel> {
    v.map_values(|c: SignedTipEntry| c@)
}

/// The summary's lowest height: of no blocks, 0.
pub open spec fn lowest_of(list: Seq<(u32, SignedModel)>) -> u32 {
    if list.len() == 0 {
        0
    } else {
        list[0].0
    }
}

pub open spec fn highest_of(list: Seq<(u32, SignedModel)>) -> u32 {
    if list.len() == 0 {
        0
    } else {
        list.last().0
    }
}

/// In a rising list the entries behind one are those above it.
proof fn above_in_list(list: Seq<(u32, SignedModel)>, i: int)
    requires
        rising(list),
        0 <= i < list.len(),
    ensures
        above(map_of(list), list[i].0).finite(),
        above(map_of(list), list[i].0).len() == list.len() - 1 - i,
{
    let rest = list.skip(i + 1);
    assert(rising(rest)) by {
        assert forall|a: int, b: int| 0 <= a < b < rest.len() implies (#[trigger] rest[a]).0.before(
            (#[trigger] rest[b]).0,
        ) by {
            assert(list[a + i + 1].0.before(list[b + i + 1].0));
        }
    }
    map_of_rising(list);
    map_of_rising(rest);
    let s = above(map_of(list), list[i].0);
    assert forall|h: u32| s.contains(h) <==> map_of(rest).dom().contains(h) by {
        if s.contains(h) {
            assert(map_of(list).contains_key(h));
            let j = choose|j: int| 0 <= j < list.len() && (#[trigger] list[j]).0 == h;
            if j <= i {
                if j < i {
                    assert(list[j].0.before(list[i].0));
                }
            }
            assert(rest[j - i - 1].0 == h);
            assert(map_of(rest).contains_key(rest[j - i - 1].0));
        }
        if map_of(rest).dom().contains(h) {
            assert(map_of(rest).contains_key(h));
            let j = choose|j: int| 0 <= j < rest.len() && (#[trigger] rest[j]).0 == h;
            assert(list[j + i + 1].0 == h);
            assert(list[i].0.before(list[j + i + 1].0));
            assert(map_of(list).contains_key(list[j + i + 1].0));
        }
    }
    assert(s =~= map_of(rest).dom());
}

impl BlockSummariesV1 {
    /// Keep the highest [`TIP_RETAIN`] blocks.
    pub fn prune(&mut self)
        ensures
            final(self).blocks@ == retained(old(self).blocks@),
            final(self).blocks.wf(),
    {
        let ghost whole = self.blocks@;
        let ghost list = self.blocks.list();
        let n: usize = self.blocks.len();
        let mut gone: usize = 0;
        proof {
            map_of_rising(list);
        }
        while n - gone > TIP_RETAIN
            invariant
                gone <= n,
                n == list.len(),
                rising(list),
                whole == map_of(list),
                gone == 0 || n - gone >= TIP_RETAIN,
                self.blocks.wf(),
                self.blocks.list().len() == n - gone,
                forall|h: u32| #[trigger]
                    self.blocks@.contains_key(h) <==> exists|i: int|
                        gone <= i < n && (#[trigger] list[i]).0 == h,
                self.blocks@.submap_of(whole),
            decreases n - gone,
        {
            let lowest: u32 = *self.blocks.at(0).0;
            proof {
                map_of_rising(list);
                let now = self.blocks.list();
                assert(now[0].0 == lowest);
                assert(self.blocks@.contains_key(lowest));
                let i = choose|i: int| gone <= i < n && (#[trigger] list[i]).0 == lowest;
                assert(self.blocks@.contains_key(list[gone as int].0));
                let j = choose|j: int|
                    0 <= j < now.len() && (#[trigger] now[j]).0 == list[gone as int].0;
                if j > 0 {
                    assert(now[0].0.before(now[j].0));
                    assert(list[gone as int].0.before(list[i].0) || i == gone);
                }
                assert(lowest == list[gone as int].0);
            }
            let ghost before = self.blocks@;
            self.blocks.remove(&lowest);
            proof {
                assert(self.blocks@ == before.remove(lowest));
                assert(self.blocks@.dom() =~= before.dom().remove(lowest));
                assert forall|h: u32| #[trigger]
                    self.blocks@.contains_key(h) <==> exists|i: int|
                        gone + 1 <= i < n && (#[trigger] list[i]).0 == h by {
                    if self.blocks@.contains_key(h) {
                        assert(before.contains_key(h));
                        let i = choose|i: int| gone <= i < n && (#[trigger] list[i]).0 == h;
                        assert(i != gone);
                    }
                    if exists|i: int| gone + 1 <= i < n && (#[trigger] list[i]).0 == h {
                        let i = choose|i: int| gone + 1 <= i < n && (#[trigger] list[i]).0 == h;
                        assert(list[gone as int].0.before(list[i].0));
                        assert(before.contains_key(h));
                    }
                }
            }
            gone = gone + 1;
        }
        proof {
            map_of_rising(list);
            let r = retained(whole);
            assert forall|h: u32| self.blocks@.contains_key(h) <==> r.contains_key(h) by {
                if whole.contains_key(h) {
                    let i = choose|i: int| 0 <= i < n && (#[trigger] list[i]).0 == h;
                    above_in_list(list, i);
                    if self.blocks@.contains_key(h) {
                        let j = choose|j: int| gone <= j < n && (#[trigger] list[j]).0 == h;
                        if i < j {
                            assert(list[i].0.before(list[j].0));
                        } else if j < i {
                            assert(list[j].0.before(list[i].0));
                        }
                    }
                }
            }
            assert forall|h: u32| #[trigger] self.blocks@.contains_key(h) implies self.blocks@[h]
                == r[h] by {
                assert(self.blocks@.dom().contains(h));
                assert(r.contains_key(h));
            }
            assert(self.blocks@ =~= r);
        }
    }

    /// The best chain tip known.
    pub fn tip(&self) -> (r: Option<TipEntryBody>)
        ensures
            r == (if self.blocks.list().len() == 0 {
                None
            } else {
                match tip_from(self.blocks.list().last().1.body_cbor) {
                    Ok(b) => Some(b),
                    Err(_) => None,
                }
            }),
    {
        let n: usize = self.blocks.len();
        if n == 0 {
            return None;
        }
        match self.blocks.at(n - 1).1.body() {
            Ok(b) => Some(b),
            Err(_) => None,
        }
    }

    pub fn tip_height(&self) -> (r: Option<u32>)
        ensures
            r == (if self.blocks.list().len() == 0 {
                None
            } else {
                Some(self.blocks.list().last().0)
            }),
    {
        let n: usize = self.blocks.len();
        if n == 0 {
            None
        } else {
            Some(*self.blocks.at(n - 1).0)
        }
    }

    /// At most `n` recent blocks, newest first.
    pub fn recent(&self, n: usize) -> (r: Vec<TipEntryBody>)
        ensures
            ({
                let all = newest_first(self.blocks.list());
                r@ == all.take(if n <= all.len() {
                    n as int
                } else {
                    all.len() as int
                })
            }),
    {
        let ghost list = self.blocks.list();
        let ghost all = newest_first(list);
        let len: usize = self.blocks.len();
        let mut r: Vec<TipEntryBody> = Vec::new();
        let mut i: usize = len;
        assert(list.take(len as int) =~= list);
        assert(r@ + newest_first(list.take(len as int)) =~= all);
        while i > 0 && r.len() < n
            invariant
                i <= len,
                len == list.len(),
                list == self.blocks.list(),
                all == newest_first(list),
                r@.len() <= n,
                r@ + newest_first(list.take(i as int)) == all,
            decreases i,
        {
            let (h, e) = self.blocks.at(i - 1);
            let ghost was = r@;
            proof {
                assert(list[i - 1] == (*h, e@));
                assert(list.take(i as int).drop_last() =~= list.take(i - 1));
                assert(list.take(i as int).last() == list[i - 1]);
            }
            match e.body() {
                Ok(b) => {
                    r.push(b);
                    assert(r@ + newest_first(list.take(i - 1)) =~= was + (seq![b]
                        + newest_first(list.take(i - 1))));
                },
                Err(_) => {},
            }
            i = i - 1;
        }
        proof {
            let rest = newest_first(list.take(i as int));
            if i == 0 {
                assert(rest.len() == 0);
            }
            assert(r@ =~= all.take(r@.len() as int));
        }
        r
    }

    /// Whether `anchor` is on the chain this contract describes. `None` where the anchor
    /// is below the retained window, or nothing readable stands at its height: that is
    /// unknown, not a reorg.
    pub fn anchor_is_canonical(&self, anchor: &BlockAnchor) -> (r: Option<bool>)
        ensures
            r is None <==> !self.blocks@.contains_key(anchor.height) || tip_from(
                self.blocks@[anchor.height].body_cbor,
            ) is Err,
            r matches Some(canonical) ==> canonical == (tip_from(
                self.blocks@[anchor.height].body_cbor,
            )->Ok_0.anchor.hash == anchor.hash),
    {
        match self.blocks.get(&anchor.height) {
            None => None,
            Some(entry) => match entry.body() {
                Err(_) => None,
                Ok(b) => {
                    let same = same32(&b.anchor.hash.0, &anchor.hash.0);
                    proof {
                        arr32_of_view(b.anchor.hash.0);
                        arr32_of_view(anchor.hash.0);
                    }
                    Some(same)
                },
            },
        }
    }

    /// Whether this is a state that a contract may hold.
    pub fn verify(&self, params: &BitcoinTipParameters) -> (r: Result<(), String>)
        ensures
            match r {
                Ok(_) => tip_fault(self.blocks.list(), params@) is None,
                Err(e) => tip_fault(self.blocks.list(), params@) == Some(e@),
            },
    {
        let ghost list = self.blocks.list();
        let n: usize = self.blocks.len();
        if n > TIP_RETAIN {
            return Err(join3("tip state holds ", &decimal(n as u64), " blocks, retention is 64"));
        }
        for i in 0..n
            invariant
                list == self.blocks.list(),
                n == list.len(),
                tip_fault(list, params@) == entries_fault(list, i as int, params@),
        {
            let (height, entry) = self.blocks.at(i);
            assert(list[i as int] == (*height, entry@));
            let body = match entry.verify(params) {
                Err(e) => {
                    return Err(e);
                },
                Ok(body) => body,
            };
            if body.anchor.height != *height {
                return Err("block summary filed under the wrong height".to_owned());
            }
        }
        Ok(())
    }

    /// The digest of the entries.
    fn entry_digest(&self) -> (r: BucketDigest)
        ensures
            r.0@ == digest_of(tip_keys(self.blocks.list())),
    {
        let ghost list = self.blocks.list();
        let n: usize = self.blocks.len();
        let mut keys: Vec<[u8; 32]> = Vec::new();
        for i in 0..n
            invariant
                list == self.blocks.list(),
                n == list.len(),
                keys@.len() == i,
                forall|j: int| 0 <= j < i ==> keys@[j] == arr32(tip_digest((#[trigger] list[j]).1)),
        {
            let (h, e) = self.blocks.at(i);
            assert(list[i as int] == (*h, e@));
            let key = e.digest();
            proof {
                arr32_of_view(key);
            }
            keys.push(key);
        }
        assert(keys@ =~= tip_keys(list));
        BucketDigest::from_keys_owned(keys)
    }

    /// Summarize the blocks for a peer.
    pub fn summarize(&self) -> (r: BlockSummariesSummary)
        ensures
            r.highest == highest_of(self.blocks.list()),
            r.lowest == lowest_of(self.blocks.list()),
            r.count == self.blocks.list().len() as u32,
            r.digest.0@ == digest_of(tip_keys(self.blocks.list())),
    {
        let n: usize = self.blocks.len();
        let (highest, lowest) = if n == 0 {
            (0, 0)
        } else {
            (*self.blocks.at(n - 1).0, *self.blocks.at(0).0)
        };
        BlockSummariesSummary { highest, lowest, count: n as u32, digest: self.entry_digest() }
    }

    /// What a peer with this summary lacks, or `None` if nothing.
    pub fn delta(&self, old: &BlockSummariesSummary) -> (r: Option<BlockSummariesDelta>)
        ensures
            ({
                let sent = tips_to_send(
                    self.blocks.list(),
                    digest_of(tip_keys(self.blocks.list())),
                    old.digest.0@,
                    old.count,
                    old.lowest,
                );
                &&& r is None <==> sent.len() == 0
                &&& r matches Some(d) ==> tip_models(d.blocks@) == sent
            }),
    {
        let mine = self.entry_digest();
        let full = old.count as usize >= TIP_RETAIN;
        let ghost list = self.blocks.list();
        let n: usize = self.blocks.len();
        let mut blocks: Vec<SignedTipEntry> = Vec::new();
        assert(tip_models(blocks@) =~= Seq::<SignedModel>::empty());
        for i in 0..n
            invariant
                list == self.blocks.list(),
                n == list.len(),
                full == (old.count >= TIP_RETAIN),
                tip_models(blocks@) == tips_to_send(
                    list.take(i as int),
                    mine.0@,
                    old.digest.0@,
                    old.count,
                    old.lowest,
                ),
        {
            let (h, e) = self.blocks.at(i);
            let key = e.digest();
            proof {
                assert(list[i as int] == (*h, e@));
                assert(list.take(i + 1).drop_last() =~= list.take(i as int));
                assert(list.take(i + 1).last() == list[i as int]);
                arr32_of_view(key);
            }
            let at: usize = BucketDigest::bucket_of(&key);
            if !(full && *h < old.lowest) && mine.0[at] != old.digest.0[at] {
                let ghost was = tip_models(blocks@);
                blocks.push(e.copied());
                assert(tip_models(blocks@) =~= was.push(e@));
            }
        }
        assert(list.take(list.len() as int) =~= list);
        if blocks.is_empty() {
            None
        } else {
            Some(BlockSummariesDelta { blocks })
        }
    }

    /// Put an entry in its place, unless one that wins stands there.
    fn place(&mut self, entry: &SignedTipEntry, body: &TipEntryBody)
        ensures
            final(self).blocks@ == placed(old(self).blocks@, entry@, *body),
    {
        let take = match self.blocks.get(&body.anchor.height) {
            None => true,
            Some(existing) => match existing.body() {
                Err(_) => true,
                Ok(e) => {
                    if same32(&e.anchor.hash.0, &body.anchor.hash.0) {
                        comes_before(&existing.digest(), &entry.digest())
                    } else {
                        comes_before(&e.anchor.hash.0, &body.anchor.hash.0)
                    }
                },
            },
        };
        proof {
            lex_irreflexive(body.anchor.hash.0@);
        }
        if take {
            self.blocks.insert(body.anchor.height, entry.copied());
        }
    }

    /// Apply a delta from a peer. The first entry that does not verify ends it, with what
    /// came before it in place.
    pub fn apply_delta(
        &mut self,
        params: &BitcoinTipParameters,
        delta: &Option<BlockSummariesDelta>,
    ) -> (r: Result<(), String>)
        ensures
            delta is None ==> r is Ok && *final(self) == *old(self),
            delta matches Some(d) ==> {
                let (after, fault) = tips_updated(old(self).blocks@, tip_models(d.blocks@), params@);
                &&& final(self).blocks@ == after
                &&& match r {
                    Ok(_) => fault is None,
                    Err(e) => fault == Some(e@),
                }
            },
    {
        let d = match delta {
            None => {
                return Ok(());
            },
            Some(d) => d,
        };
        let ghost start = self.blocks@;
        let ghost all = tip_models(d.blocks@);
        let n: usize = d.blocks.len();
        assert(all.take(0) =~= Seq::<SignedModel>::empty());
        for i in 0..n
            invariant
                n == d.blocks@.len(),
                *delta == Some(*d),
                start == old(self).blocks@,
                all == tip_models(d.blocks@),
                all_placed(start, all.take(i as int), params@).0 == self.blocks@,
                all_placed(start, all.take(i as int), params@).1 is None,
        {
            proof {
                assert(all.take(i + 1).drop_last() =~= all.take(i as int));
                assert(all.take(i + 1).last() == d.blocks@[i as int]@);
            }
            match d.blocks[i].verify(params) {
                Err(e) => {
                    proof {
                        placing_stops(start, all, i + 1, params@);
                    }
                    return Err(e);
                },
                Ok(body) => {
                    self.place(&d.blocks[i], &body);
                },
            }
        }
        assert(all.take(n as int) =~= all);
        self.prune();
        Ok(())
    }
}

/// A fault stops everything behind it.
proof fn placing_stops(m: Map<u32, SignedModel>, cs: Seq<SignedModel>, i: int, p: TipParamsModel)
    requires
        0 <= i <= cs.len(),
        all_placed(m, cs.take(i), p).1 is Some,
    ensures
        all_placed(m, cs, p) == all_placed(m, cs.take(i), p),
    decreases cs.len() - i,
{
    if i < cs.len() {
        assert(cs.take(i + 1).drop_last() =~= cs.take(i));
        placing_stops(m, cs, i + 1, p);
    } else {
        assert(cs.take(i) =~= cs);
    }
}

proof fn overwriting_stops(cs: Seq<SignedModel>, i: int, p: TipParamsModel)
    requires
        0 <= i <= cs.len(),
        overwritten(cs.take(i), p).1 is Some,
    ensures
        overwritten(cs, p) == overwritten(cs.take(i), p),
    decreases cs.len() - i,
{
    if i < cs.len() {
        assert(cs.take(i + 1).drop_last() =~= cs.take(i));
        overwriting_stops(cs, i + 1, p);
    } else {
        assert(cs.take(i) =~= cs);
    }
}

/// The blocks after another state has been merged.
pub open spec fn tips_merged(
    mine: Seq<(u32, SignedModel)>,
    theirs: Seq<(u32, SignedModel)>,
    p: TipParamsModel,
) -> (Map<u32, SignedModel>, Option<Seq<char>>) {
    let sent = tips_to_send(
        theirs,
        digest_of(tip_keys(theirs)),
        digest_of(tip_keys(mine)),
        mine.len() as u32,
        lowest_of(mine),
    );
    if sent.len() == 0 {
        (map_of(mine), None)
    } else {
        tips_updated(map_of(mine), sent, p)
    }
}

/// Top-level state of a tip contract.
#[derive(PartialEq, Debug)]
pub struct BitcoinTipStateV1 {
    pub blocks: BlockSummariesV1,
}

/// The summary of a whole state.
#[derive(Clone, Copy, PartialEq, Debug)]
pub struct BitcoinTipStateV1Summary {
    pub blocks: BlockSummariesSummary,
}

/// What a peer lacks of a whole state.
#[derive(PartialEq, Debug)]
pub struct BitcoinTipStateV1Delta {
    pub blocks: Option<BlockSummariesDelta>,
}

impl Default for BitcoinTipStateV1 {
    fn default() -> (r: Self)
        ensures
            r.blocks.blocks@ == Map::<u32, SignedModel>::empty(),
            r.blocks.blocks.list().len() == 0,
    {
        BitcoinTipStateV1 { blocks: BlockSummariesV1::default() }
    }
}

impl Clone for BitcoinTipStateV1 {
    fn clone(&self) -> (r: Self)
        ensures
            r.blocks.blocks@ == self.blocks.blocks@,
            r.blocks.blocks.list() == self.blocks.blocks.list(),
    {
        BitcoinTipStateV1 { blocks: self.blocks.clone() }
    }
}

impl BitcoinTipStateV1 {
    /// Build a state from entries, verifying each. Of two at one height the later stands.
    pub fn from_entries(params: &BitcoinTipParameters, entries: Vec<SignedTipEntry>) -> (r: Result<
        Self,
        String,
    >)
        ensures
            ({
                let (after, fault) = overwritten(tip_models(entries@), params@);
                match r {
                    Ok(s) => fault is None && s.blocks.blocks@ == retained(after),
                    Err(e) => fault == Some(e@),
                }
            }),
    {
        let mut s = BlockSummariesV1::default();
        let ghost all = tip_models(entries@);
        let n: usize = entries.len();
        assert(all.take(0) =~= Seq::<SignedModel>::empty());
        for i in 0..n
            invariant
                n == entries@.len(),
                all == tip_models(entries@),
                overwritten(all.take(i as int), params@).0 == s.blocks@,
                overwritten(all.take(i as int), params@).1 is None,
        {
            proof {
                assert(all.take(i + 1).drop_last() =~= all.take(i as int));
                assert(all.take(i + 1).last() == entries@[i as int]@);
            }
            match entries[i].verify(params) {
                Err(e) => {
                    proof {
                        overwriting_stops(all, i + 1, params@);
                    }
                    return Err(e);
                },
                Ok(body) => {
                    s.blocks.insert(body.anchor.height, entries[i].copied());
                },
            }
        }
        assert(all.take(n as int) =~= all);
        s.prune();
        Ok(BitcoinTipStateV1 { blocks: s })
    }

    pub fn tip_height(&self) -> (r: Option<u32>)
        ensures
            r == (if self.blocks.blocks.list().len() == 0 {
                None
            } else {
                Some(self.blocks.blocks.list().last().0)
            }),
    {
        self.blocks.tip_height()
    }

    /// Whether this is a state that a contract may hold.
    pub fn verify(&self, params: &BitcoinTipParameters) -> (r: Result<(), String>)
        ensures
            match r {
                Ok(_) => tip_fault(self.blocks.blocks.list(), params@) is None,
                Err(e) => tip_fault(self.blocks.blocks.list(), params@) == Some(e@),
            },
    {
        self.blocks.verify(params)
    }

    /// Summarize the state for a peer.
    pub fn summarize(&self) -> (r: BitcoinTipStateV1Summary)
        ensures
            r.blocks.highest == highest_of(self.blocks.blocks.list()),
            r.blocks.lowest == lowest_of(self.blocks.blocks.list()),
            r.blocks.count == self.blocks.blocks.list().len() as u32,
            r.blocks.digest.0@ == digest_of(tip_keys(self.blocks.blocks.list())),
    {
        BitcoinTipStateV1Summary { blocks: self.blocks.summarize() }
    }

    /// What a peer with this summary lacks, or `None` if nothing.
    pub fn delta(&self, old: &BitcoinTipStateV1Summary) -> (r: Option<BitcoinTipStateV1Delta>)
        ensures
            ({
                let sent = tips_to_send(
                    self.blocks.blocks.list(),
                    digest_of(tip_keys(self.blocks.blocks.list())),
                    old.blocks.digest.0@,
                    old.blocks.count,
                    old.blocks.lowest,
                );
                &&& r is None <==> sent.len() == 0
                &&& r matches Some(d) ==> d.blocks is Some && tip_models(d.blocks->Some_0.blocks@)
                    == sent
            }),
    {
        match self.blocks.delta(&old.blocks) {
            Some(d) => Some(BitcoinTipStateV1Delta { blocks: Some(d) }),
            None => None,
        }
    }

    /// Apply a delta from a peer.
    pub fn apply_delta(
        &mut self,
        params: &BitcoinTipParameters,
        delta: &Option<BitcoinTipStateV1Delta>,
    ) -> (r: Result<(), String>)
        ensures
            match *delta {
                Some(BitcoinTipStateV1Delta { blocks: Some(d) }) => {
                    let (after, fault) = tips_updated(
                        old(self).blocks.blocks@,
                        tip_models(d.blocks@),
                        params@,
                    );
                    &&& final(self).blocks.blocks@ == after
                    &&& match r {
                        Ok(_) => fault is None,
                        Err(e) => fault == Some(e@),
                    }
                },
                _ => r is Ok && *final(self) == *old(self),
            },
    {
        match delta {
            Some(d) => self.blocks.apply_delta(params, &d.blocks),
            None => Ok(()),
        }
    }

    /// Take over what another state has that this one lacks.
    pub fn merge(&mut self, params: &BitcoinTipParameters, other: &BitcoinTipStateV1) -> (r: Result<
        (),
        String,
    >)
        ensures
            ({
                let (after, fault) = tips_merged(
                    old(self).blocks.blocks.list(),
                    other.blocks.blocks.list(),
                    params@,
                );
                &&& final(self).blocks.blocks@ == after
                &&& match r {
                    Ok(_) => fault is None,
                    Err(e) => fault == Some(e@),
                }
            }),
    {
        let summary = self.summarize();
        let delta = other.delta(&summary);
        self.apply_delta(params, &delta)
    }
}

} // verus!
