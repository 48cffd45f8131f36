//! Byte strings: little-endian integers, lexicographic order and copying.

use vstd::arithmetic::power::{lemma_pow0, lemma_pow1, lemma_pow_adds, lemma_pow_positive, pow};
use vstd::prelude::*;

verus! {

broadcast use vstd::array::group_array_axioms;

/// The two bytes at `at`, least significant first.
pub open spec fn le16(b: Seq<u8>, at: int) -> nat {
    (b[at] + 0x100 * b[at + 1]) as nat
}

/// The four bytes at `at`, least significant first.
pub open spec fn le32(b: Seq<u8>, at: int) -> nat {
    le16(b, at) + 0x1_0000 * le16(b, at + 2)
}

/// The eight bytes at `at`, least significant first.
pub open spec fn le64(b: Seq<u8>, at: int) -> nat {
    le32(b, at) + 0x1_0000_0000 * le32(b, at + 4)
}

/// `n` as four bytes, least significant first.
pub open spec fn le32_bytes(n: u32) -> Seq<u8> {
    seq![
        (n % 0x100) as u8,
        (n / 0x100 % 0x100) as u8,
        (n / 0x1_0000 % 0x100) as u8,
        (n / 0x100_0000) as u8,
    ]
}

/// `n` as eight bytes, least significant first.
pub open spec fn le64_bytes(n: u64) -> Seq<u8> {
    le32_bytes((n % 0x1_0000_0000) as u32) + le32_bytes((n / 0x1_0000_0000) as u32)
}

/// Writing four bytes and reading them back gives the number written.
pub proof fn le32_roundtrip(n: u32)
    ensures
        le32(le32_bytes(n), 0) == n,
{
}

/// Writing eight bytes and reading them back gives the number written.
pub proof fn le64_roundtrip(n: u64)
    ensures
        le64_bytes(n).len() == 8,
        le64(le64_bytes(n), 0) == n,
{
    let lo = (n % 0x1_0000_0000) as u32;
    let hi = (n / 0x1_0000_0000) as u32;
    le32_roundtrip(lo);
    le32_roundtrip(hi);
    assert(le32(le64_bytes(n), 0) == le32(le32_bytes(lo), 0));
    assert(le32(le64_bytes(n), 4) == le32(le32_bytes(hi), 0));
}

/// The big-endian number that four bytes from `at` hold.
pub open spec fn be32(b: Seq<u8>, at: int) -> nat {
    (0x1000000 * b[at] + 0x10000 * b[at + 1] + 0x100 * b[at + 2] + b[at + 3]) as nat
}

/// The four bytes of `n`, highest first.
pub open spec fn be32_bytes(n: u32) -> Seq<u8> {
    seq![
        (n / 0x1000000) as u8,
        ((n / 0x10000) % 0x100) as u8,
        ((n / 0x100) % 0x100) as u8,
        (n % 0x100) as u8,
    ]
}

/// Four bytes say the number they were made of.
pub proof fn be32_roundtrip(n: u32)
    ensures
        be32(be32_bytes(n), 0) == n,
{
}

pub fn read_le16(b: &[u8], at: usize) -> (r: u16)
    requires
        at + 2 <= b@.len(),
    ensures
        r == le16(b@, at as int),
{
    b[at] as u16 + 0x100 * (b[at + 1] as u16)
}

pub fn read_le32(b: &[u8], at: usize) -> (r: u32)
    requires
        at + 4 <= b@.len(),
    ensures
        r == le32(b@, at as int),
{
    assert(b.len() == b@.len());
    read_le16(b, at) as u32 + 0x1_0000 * (read_le16(b, at + 2) as u32)
}

pub fn read_le64(b: &[u8], at: usize) -> (r: u64)
    requires
        at + 8 <= b@.len(),
    ensures
        r == le64(b@, at as int),
{
    assert(b.len() == b@.len());
    read_le32(b, at) as u64 + 0x1_0000_0000 * (read_le32(b, at + 4) as u64)
}

/// Append `n` to `out` as four bytes, least significant first.
pub fn push_le32(out: &mut Vec<u8>, n: u32)
    ensures
        final(out)@ == old(out)@ + le32_bytes(n),
{
    let ghost before = out@;
    out.push((n % 0x100) as u8);
    out.push((n / 0x100 % 0x100) as u8);
    out.push((n / 0x1_0000 % 0x100) as u8);
    out.push((n / 0x100_0000) as u8);
    assert(out@ =~= before + le32_bytes(n));
}

/// Append `n` to `out` as eight bytes, least significant first.
pub fn push_le64(out: &mut Vec<u8>, n: u64)
    ensures
        final(out)@ == old(out)@ + le64_bytes(n),
{
    let ghost before = out@;
    push_le32(out, (n % 0x1_0000_0000) as u32);
    push_le32(out, (n / 0x1_0000_0000) as u32);
    assert(out@ =~= before + le64_bytes(n));
}

/// Append the bytes of `more` to `out`.
pub fn push_all(out: &mut Vec<u8>, more: &[u8])
    ensures
        final(out)@ == old(out)@ + more@,
{
    let ghost before = out@;
    for i in 0..more.len()
        invariant
            out@ == before + more@.subrange(0, i as int),
    {
        out.push(more[i]);
        assert(out@ =~= before + more@.subrange(0, i + 1));
    }
    assert(more@.subrange(0, more@.len() as int) =~= more@);
}

/// The bytes `b[from..to]` as a vector of their own.
pub fn copy_range(b: &[u8], from: usize, to: usize) -> (r: Vec<u8>)
    requires
        from <= to <= b@.len(),
    ensures
        r@ == b@.subrange(from as int, to as int),
{
    let mut r: Vec<u8> = Vec::new();
    for i in from..to
        invariant
            from <= to <= b@.len(),
            r@ == b@.subrange(from as int, i as int),
    {
        r.push(b[i]);
        assert(r@ =~= b@.subrange(from as int, i + 1));
    }
    r
}

pub fn copy_all(b: &[u8]) -> (r: Vec<u8>)
    ensures
        r@ == b@,
{
    let r = copy_range(b, 0, b.len());
    assert(b@.subrange(0, b@.len() as int) =~= b@);
    r
}

/// The 32 bytes from `at` on.
pub fn array32(b: &[u8], at: usize) -> (r: [u8; 32])
    requires
        at + 32 <= b@.len(),
    ensures
        r@ == b@.subrange(at as int, at + 32),
{
    let mut r = [0u8; 32];
    for i in 0..32usize
        invariant
            at + 32 <= b@.len(),
            forall|j: int| 0 <= j < i ==> r@[j] == b@[at + j],
    {
        assert(b.len() == b@.len());
        r[i] = b[at + i];
    }
    assert(r@ =~= b@.subrange(at as int, at + 32));
    r
}

/// The array that holds these 32 bytes.
pub open spec fn arr32(s: Seq<u8>) -> [u8; 32] {
    choose|a: [u8; 32]| a@ == s
}

/// An array is the array that holds its bytes.
pub proof fn arr32_of_view(a: [u8; 32])
    ensures
        arr32(a@) == a,
{
    let b = arr32(a@);
    assert(b@ == a@);
    assert(b =~= a);
}

/// Whether two byte strings are the same.
pub fn same_bytes(a: &[u8], b: &[u8]) -> (r: bool)
    ensures
        r == (a@ == b@),
{
    if a.len() != b.len() {
        return false;
    }
    for i in 0..a.len()
        invariant
            a@.len() == b@.len(),
            forall|j: int| 0 <= j < i ==> a@[j] == b@[j],
    {
        if a[i] != b[i] {
            return false;
        }
    }
    assert(a@ =~= b@);
    true
}

/// Whether two 32-byte values are the same.
pub fn same32(a: &[u8; 32], b: &[u8; 32]) -> (r: bool)
    ensures
        r == (a == b),
        r == (a@ == b@),
{
    let r = same_bytes(a, b);
    proof {
        if a@ == b@ {
            assert(a =~= b);
        }
    }
    r
}

/// Lexicographic order: `a` comes strictly before `b`.
pub open spec fn lex_before(a: Seq<u8>, b: Seq<u8>) -> bool
    decreases a.len(),
{
    if b.len() == 0 {
        false
    } else if a.len() == 0 {
        true
    } else if a[0] != b[0] {
        a[0] < b[0]
    } else {
        lex_before(a.skip(1), b.skip(1))
    }
}

/// No byte string comes before itself.
pub proof fn lex_irreflexive(a: Seq<u8>)
    ensures
        !lex_before(a, a),
    decreases a.len(),
{
    if a.len() > 0 {
        lex_irreflexive(a.skip(1));
    }
}

/// The lexicographic order is transitive.
pub proof fn lex_transitive(a: Seq<u8>, b: Seq<u8>, c: Seq<u8>)
    requires
        lex_before(a, b),
        lex_before(b, c),
    ensures
        lex_before(a, c),
    decreases a.len(),
{
    if a.len() > 0 && a[0] == b[0] && b[0] == c[0] {
        lex_transitive(a.skip(1), b.skip(1), c.skip(1));
    }
}

/// Of two different byte strings one comes first.
pub proof fn lex_total(a: Seq<u8>, b: Seq<u8>)
    ensures
        a == b || lex_before(a, b) || lex_before(b, a),
    decreases a.len(),
{
    if a.len() == 0 || b.len() == 0 {
        if a.len() == b.len() {
            assert(a =~= b);
        }
    } else if a[0] == b[0] {
        lex_total(a.skip(1), b.skip(1));
        if a.skip(1) == b.skip(1) {
            assert(a.skip(1).len() == a.len() - 1);
            assert(b.skip(1).len() == b.len() - 1);
            assert forall|i: int| 0 <= i < a.len() implies a[i] == b[i] by {
                if i > 0 {
                    assert(a[i] == a.skip(1)[i - 1]);
                    assert(b[i] == b.skip(1)[i - 1]);
                }
            }
            assert(a =~= b);
        }
    }
}

/// Two byte strings that agree up to `i` compare as what follows does.
proof fn lex_skip_common(a: Seq<u8>, b: Seq<u8>, i: int)
    requires
        0 <= i <= a.len(),
        i <= b.len(),
        forall|j: int| 0 <= j < i ==> a[j] == b[j],
    ensures
        lex_before(a, b) == lex_before(a.skip(i), b.skip(i)),
    decreases i,
{
    if i == 0 {
        assert(a.skip(0) =~= a);
        assert(b.skip(0) =~= b);
    } else {
        assert forall|j: int| 0 <= j < i - 1 implies a.skip(1)[j] == b.skip(1)[j] by {
            assert(a[j + 1] == b[j + 1]);
        }
        lex_skip_common(a.skip(1), b.skip(1), i - 1);
        assert(a.skip(1).skip(i - 1) =~= a.skip(i));
        assert(b.skip(1).skip(i - 1) =~= b.skip(i));
    }
}

/// A byte string read as a number, most significant byte first.
pub open spec fn be_nat(s: Seq<u8>) -> nat
    decreases s.len(),
{
    if s.len() == 0 {
        0
    } else {
        (s[0] * pow(256, (s.len() - 1) as nat)) as nat + be_nat(s.skip(1))
    }
}

/// A number of `n` bytes is below `256^n`.
pub proof fn be_nat_bound(s: Seq<u8>)
    ensures
        be_nat(s) < pow(256, s.len()),
    decreases s.len(),
{
    if s.len() == 0 {
        lemma_pow0(256);
    } else {
        be_nat_bound(s.skip(1));
        let p = pow(256, (s.len() - 1) as nat);
        lemma_pow1(256);
        lemma_pow_adds(256, 1, (s.len() - 1) as nat);
        lemma_pow_positive(256, (s.len() - 1) as nat);
        assert(s[0] * p >= 0 && s[0] * p <= 255 * p) by (nonlinear_arith)
            requires
                0 <= s[0] <= 255,
                p > 0,
        ;
    }
}

/// Byte strings of one length are ordered as the numbers they stand for.
pub proof fn lex_is_numeric(a: Seq<u8>, b: Seq<u8>)
    requires
        a.len() == b.len(),
    ensures
        lex_before(a, b) <==> be_nat(a) < be_nat(b),
    decreases a.len(),
{
    if a.len() > 0 {
        let p = pow(256, (a.len() - 1) as nat);
        be_nat_bound(a.skip(1));
        be_nat_bound(b.skip(1));
        lex_is_numeric(a.skip(1), b.skip(1));
        lemma_pow_positive(256, (a.len() - 1) as nat);
        if a[0] < b[0] {
            assert(a[0] * p + p <= b[0] * p && a[0] * p >= 0) by (nonlinear_arith)
                requires
                    0 <= a[0] < b[0],
                    p > 0,
            ;
        } else if b[0] < a[0] {
            assert(b[0] * p + p <= a[0] * p && b[0] * p >= 0) by (nonlinear_arith)
                requires
                    0 <= b[0] < a[0],
                    p > 0,
            ;
        } else {
            assert(a[0] * p == b[0] * p);
            assert(a[0] * p >= 0) by (nonlinear_arith)
                requires
                    0 <= a[0],
                    p > 0,
            ;
        }
    }
}

/// Whether `a` comes strictly before `b`.
pub fn comes_before(a: &[u8], b: &[u8]) -> (r: bool)
    ensures
        r == lex_before(a@, b@),
{
    let mut i: usize = 0;
    while i < a.len() && i < b.len()
        invariant
            i <= a@.len(),
            i <= b@.len(),
            forall|j: int| 0 <= j < i ==> a@[j] == b@[j],
        decreases a@.len() - i,
    {
        if a[i] != b[i] {
            proof {
                lex_skip_common(a@, b@, i as int);
            }
            return a[i] < b[i];
        }
        i += 1;
    }
    proof {
        lex_skip_common(a@, b@, i as int);
    }
    i < b.len()
}

} // verus!
