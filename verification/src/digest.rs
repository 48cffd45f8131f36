//! Constant-size bucketed summaries of a set.
//!
//! Each 32-byte key falls into one of [`BUCKETS`] buckets, and a bucket's digest is
//! the XOR of one 64-bit mark per key in it. A digest therefore does not depend on the
//! order of the keys, and takes the same room however many there are.

use vstd::prelude::*;

use crate::bytes::{le64, le64_bytes, le64_roundtrip, push_all, push_le64, read_le64};
use crate::outside::{blake3_hash, blake3_of};
use crate::text::{ascii, ascii_bytes};

verus! {

broadcast use vstd::array::group_array_axioms;

/// Number of summary buckets.
pub const BUCKETS: usize = 16;

/// One 64-bit digest for each bucket.
#[derive(Clone, Copy, PartialEq, Eq, Debug)]
pub struct BucketDigest(pub [u64; BUCKETS]);

/// The bucket of a key.
pub open spec fn bucket(key: [u8; 32]) -> int {
    key@[0] as int % 16
}

/// What a key adds to its bucket: eight bytes of a hash made for this purpose alone.
pub open spec fn mark(key: [u8; 32]) -> u64 {
    le64(blake3_of(ascii("freenet-bitcoin/bucket/v1"@) + key@), 0) as u64
}

/// The digest of nothing.
pub open spec fn blank() -> Seq<u64> {
    Seq::new(16, |i: int| 0u64)
}

/// One more key in its bucket.
pub open spec fn toggled(key: [u8; 32], d: Seq<u64>) -> Seq<u64> {
    Seq::new(
        16,
        |i: int| if i == bucket(key) {
            d[i] ^ mark(key)
        } else {
            d[i]
        },
    )
}

/// The digest of some keys.
pub open spec fn digest_of(keys: Seq<[u8; 32]>) -> Seq<u64> {
    keys.fold_right(|k: [u8; 32], d: Seq<u64>| toggled(k, d), blank())
}

proof fn xor_swaps(x: u64, a: u64, b: u64)
    ensures
        (x ^ a) ^ b == (x ^ b) ^ a,
{
    assert((x ^ a) ^ b == (x ^ b) ^ a) by (bit_vector);
}

proof fn toggles_commute()
    ensures
        vstd::seq_lib::commutative_foldr(|k: [u8; 32], d: Seq<u64>| toggled(k, d)),
{
    let f = |k: [u8; 32], d: Seq<u64>| toggled(k, d);
    assert forall|a: [u8; 32], b: [u8; 32], d: Seq<u64>| #[trigger]
        f(a, f(b, d)) == f(b, f(a, d)) by {
        let at = bucket(a);
        if at == bucket(b) {
            xor_swaps(d[at], mark(a), mark(b));
        }
        assert(f(a, f(b, d)) =~= f(b, f(a, d)));
    }
}

/// A digest does not depend on the order of the keys.
pub proof fn digest_ignores_order(a: Seq<[u8; 32]>, b: Seq<[u8; 32]>)
    requires
        a.to_multiset() == b.to_multiset(),
    ensures
        digest_of(a) == digest_of(b),
{
    let f = |k: [u8; 32], d: Seq<u64>| toggled(k, d);
    toggles_commute();
    vstd::seq_lib::lemma_fold_right_permutation(a, b, f, blank());
}

/// One more key toggles its own mark.
proof fn digest_push(keys: Seq<[u8; 32]>, key: [u8; 32])
    ensures
        digest_of(keys.push(key)) == toggled(key, digest_of(keys)),
{
    let f = |k: [u8; 32], d: Seq<u64>| toggled(k, d);
    toggles_commute();
    keys.lemma_fold_right_commute_one(key, f, blank());
    assert(keys.push(key).drop_last() =~= keys);
}

proof fn digest_len(keys: Seq<[u8; 32]>)
    ensures
        digest_of(keys).len() == 16,
{
    if keys.len() > 0 {
        assert(keys =~= keys.drop_last().push(keys.last()));
        digest_push(keys.drop_last(), keys.last());
    }
}

/// One more key changes the digest of its own bucket, by its mark, and of no other.
pub proof fn one_key_touches_one_bucket(keys: Seq<[u8; 32]>, key: [u8; 32])
    ensures
        digest_of(keys.push(key)) == toggled(key, digest_of(keys)),
        digest_of(keys).len() == 16,
        mark(key) != 0 ==> forall|i: int|
            0 <= i < 16 ==> (digest_of(keys.push(key))[i] != digest_of(keys)[i] <==> i == bucket(
                key,
            )),
{
    digest_push(keys, key);
    digest_len(keys);
    let d = digest_of(keys);
    let m = mark(key);
    let x = d[bucket(key)];
    if m != 0 {
        assert(x ^ m != x) by (bit_vector)
            requires
                m != 0,
        ;
    }
}

impl Default for BucketDigest {
    fn default() -> (r: Self)
        ensures
            r.0@ == blank(),
    {
        let r = BucketDigest([0u64; 16]);
        assert(r.0@ =~= blank());
        r
    }
}

impl BucketDigest {
    /// Which bucket a key falls in.
    pub fn bucket_of(key: &[u8; 32]) -> (r: usize)
        ensures
            r == bucket(*key),
            r < 16,
    {
        (key[0] as usize) % 16
    }

    /// Fold one key into the digest.
    pub fn insert(&mut self, key: &[u8; 32])
        ensures
            final(self).0@ == toggled(*key, old(self).0@),
    {
        proof {
            reveal_strlit("freenet-bitcoin/bucket/v1");
        }
        let mut input: Vec<u8> = ascii_bytes("freenet-bitcoin/bucket/v1");
        push_all(&mut input, key);
        let hash = blake3_hash(&input);
        let eight: u64 = read_le64(&hash, 0);
        let at: usize = Self::bucket_of(key);
        let ghost was = self.0@;
        self.0[at] = self.0[at] ^ eight;
        assert(self.0@ =~= toggled(*key, was));
    }

    /// The digest of keys produced by value.
    pub fn from_keys_owned(keys: Vec<[u8; 32]>) -> (r: Self)
        ensures
            r.0@ == digest_of(keys@),
    {
        Self::from_keys(&keys)
    }

    pub fn from_keys(keys: &Vec<[u8; 32]>) -> (r: Self)
        ensures
            r.0@ == digest_of(keys@),
    {
        let mut d = Self::default();
        assert(digest_of(keys@.take(0)) =~= blank());
        for i in 0..keys.len()
            invariant
                d.0@ == digest_of(keys@.take(i as int)),
        {
            d.insert(&keys[i]);
            proof {
                one_key_touches_one_bucket(keys@.take(i as int), keys@[i as int]);
                assert(keys@.take(i + 1) =~= keys@.take(i as int).push(keys@[i as int]));
            }
        }
        assert(keys@.take(keys@.len() as int) =~= keys@);
        d
    }

    /// Buckets where this digest and `other` disagree, in order.
    pub fn differing_buckets(&self, other: &Self) -> (r: Vec<usize>)
        ensures
            forall|i: int, j: int| 0 <= i < j < r@.len() ==> r@[i] < r@[j],
            forall|b: usize| r@.contains(b) <==> b < 16 && self.0@[b as int] != other.0@[b as int],
    {
        let mut r: Vec<usize> = Vec::new();
        for b in 0..16usize
            invariant
                forall|i: int, j: int| 0 <= i < j < r@.len() ==> r@[i] < r@[j],
                forall|i: int| 0 <= i < r@.len() ==> r@[i] < b,
                forall|c: usize| #[trigger]
                    r@.contains(c) <==> c < b && self.0@[c as int] != other.0@[c as int],
        {
            let ghost was = r@;
            if self.0[b] != other.0[b] {
                r.push(b);
                assert(r@[was.len() as int] == b);
                assert forall|c: usize| #[trigger]
                    r@.contains(c) <==> c < b + 1 && self.0@[c as int] != other.0@[c as int] by {
                    assert(was.contains(c) <==> c < b && self.0@[c as int] != other.0@[c as int]);
                    if was.contains(c) {
                        let i = choose|i: int| 0 <= i < was.len() && was[i] == c;
                        assert(r@[i] == c);
                    }
                    if r@.contains(c) && c != b {
                        let i = choose|i: int| 0 <= i < r@.len() && r@[i] == c;
                        assert(was[i] == c);
                    }
                }
            }
        }
        r
    }
}

/// A digest as bytes: eight for each bucket, least significant first.
pub open spec fn digest_bytes(d: Seq<u64>) -> Seq<u8>
    decreases d.len(),
{
    if d.len() == 0 {
        Seq::empty()
    } else {
        digest_bytes(d.drop_last()) + le64_bytes(d.last())
    }
}

/// A digest takes the same room whatever its buckets hold.
pub proof fn digest_width_is_fixed(d: Seq<u64>)
    ensures
        digest_bytes(d).len() == 8 * d.len(),
    decreases d.len(),
{
    if d.len() > 0 {
        digest_width_is_fixed(d.drop_last());
        le64_roundtrip(d.last());
    }
}

impl BucketDigest {
    pub fn to_bytes(&self) -> (r: Vec<u8>)
        ensures
            r@ == digest_bytes(self.0@),
            r@.len() == 128,
    {
        let mut out: Vec<u8> = Vec::new();
        for i in 0..16usize
            invariant
                out@ == digest_bytes(self.0@.take(i as int)),
        {
            push_le64(&mut out, self.0[i]);
            assert(self.0@.take(i + 1).drop_last() =~= self.0@.take(i as int));
        }
        assert(self.0@.take(16) =~= self.0@);
        proof {
            digest_width_is_fixed(self.0@);
        }
        out
    }
}

} // verus!
