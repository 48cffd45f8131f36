//! Building text: joining pieces and writing numbers in decimal.

use vstd::prelude::*;

use crate::bytes::copy_all;

verus! {

/// The decimal digit `d`.
pub open spec fn digit(d: nat) -> char {
    if d == 0 {
        '0'
    } else if d == 1 {
        '1'
    } else if d == 2 {
        '2'
    } else if d == 3 {
        '3'
    } else if d == 4 {
        '4'
    } else if d == 5 {
        '5'
    } else if d == 6 {
        '6'
    } else if d == 7 {
        '7'
    } else if d == 8 {
        '8'
    } else {
        '9'
    }
}

/// `n` in decimal.
pub open spec fn decimal_text(n: nat) -> Seq<char>
    decreases n,
{
    if n < 10 {
        seq![digit(n)]
    } else {
        decimal_text(n / 10).push(digit(n % 10))
    }
}

fn digit_str(d: u128) -> (r: &'static str)
    requires
        d < 10,
    ensures
        r@ == seq![digit(d as nat)],
{
    proof {
        reveal_strlit("0");
        reveal_strlit("1");
        reveal_strlit("2");
        reveal_strlit("3");
        reveal_strlit("4");
        reveal_strlit("5");
        reveal_strlit("6");
        reveal_strlit("7");
        reveal_strlit("8");
        reveal_strlit("9");
    }
    let r = if d == 0 {
        "0"
    } else if d == 1 {
        "1"
    } else if d == 2 {
        "2"
    } else if d == 3 {
        "3"
    } else if d == 4 {
        "4"
    } else if d == 5 {
        "5"
    } else if d == 6 {
        "6"
    } else if d == 7 {
        "7"
    } else if d == 8 {
        "8"
    } else {
        "9"
    };
    assert(r@ =~= seq![digit(d as nat)]);
    r
}

/// `a` followed by `b`.
pub fn join(a: &str, b: &str) -> (r: String)
    ensures
        r@ == a@ + b@,
{
    let mut r: String = a.to_owned();
    r.append(b);
    r
}

/// `a` followed by `b` and `c`.
pub fn join3(a: &str, b: &str, c: &str) -> (r: String)
    ensures
        r@ == a@ + b@ + c@,
{
    let mut r: String = join(a, b);
    r.append(c);
    r
}

/// `n` in decimal.
pub fn wide_decimal(n: u128) -> (r: String)
    ensures
        r@ == decimal_text(n as nat),
    decreases n,
{
    if n < 10 {
        digit_str(n).to_owned()
    } else {
        let mut r: String = wide_decimal(n / 10);
        r.append(digit_str(n % 10));
        assert(r@ =~= decimal_text((n / 10) as nat).push(digit((n % 10) as nat)));
        r
    }
}

/// `n` in decimal.
pub fn decimal(n: u64) -> (r: String)
    ensures
        r@ == decimal_text(n as nat),
{
    wide_decimal(n as u128)
}

/// Whether a text occurs in another.
pub open spec fn occurs(hay: Seq<char>, needle: Seq<char>) -> bool {
    exists|i: int| #[trigger] occurs_at(hay, needle, i)
}

pub open spec fn occurs_at(hay: Seq<char>, needle: Seq<char>, i: int) -> bool {
    0 <= i && i + needle.len() <= hay.len() && hay.subrange(i, i + needle.len()) == needle
}

/// A character, and where it is an ASCII capital the small letter of it.
pub open spec fn lower(c: char) -> char {
    if 'A' <= c && c <= 'Z' {
        ((c as u32) + 32) as char
    } else {
        c
    }
}

/// A text with ASCII capitals made small.
pub open spec fn lowered(s: Seq<char>) -> Seq<char> {
    s.map_values(|c: char| lower(c))
}

fn lower_code(c: char) -> (r: u32)
    ensures
        r == lower(c) as u32,
{
    if 'A' <= c && c <= 'Z' {
        c as u32 + 32
    } else {
        c as u32
    }
}

/// Whether a text occurs in another.
pub fn contains_text(hay: &str, needle: &str) -> (r: bool)
    ensures
        r == occurs(hay@, needle@),
{
    search(hay, needle, false)
}

/// Whether a text occurs in another once the other's ASCII capitals are made small.
pub fn contains_text_lowered(hay: &str, needle: &str) -> (r: bool)
    ensures
        r == occurs(lowered(hay@), needle@),
{
    search(hay, needle, true)
}

fn search(text: &str, needle: &str, fold: bool) -> (r: bool)
    ensures
        r == occurs(
            if fold {
                lowered(text@)
            } else {
                text@
            },
            needle@,
        ),
{
    let ghost hay = if fold {
        lowered(text@)
    } else {
        text@
    };
    let n: usize = text.unicode_len();
    let m: usize = needle.unicode_len();
    if m > n {
        assert forall|i: int| !#[trigger] occurs_at(hay, needle@, i) by {}
        return false;
    }
    let last: usize = n - m;
    let mut i: usize = 0;
    while i <= last
        invariant
            n == text@.len(),
            n == hay.len(),
            hay == (if fold {
                lowered(text@)
            } else {
                text@
            }),
            m == needle@.len(),
            last == n - m,
            m <= n,
            i <= last + 1,
            forall|j: int| 0 <= j < i ==> !#[trigger] occurs_at(hay, needle@, j),
        decreases last + 1 - i,
    {
        let mut k: usize = 0;
        let mut same = true;
        while k < m && same
            invariant
                n == text@.len(),
                n == hay.len(),
                hay == (if fold {
                    lowered(text@)
                } else {
                    text@
                }),
                m == needle@.len(),
                i + m <= n,
                k <= m,
                same ==> forall|j: int| 0 <= j < k ==> hay[i + j] == needle@[j],
                !same ==> k < m && hay[i + k] != needle@[k as int],
            decreases
                m - k,
                (if same {
                    1int
                } else {
                    0int
                }),
        {
            let c = text.get_char(i + k);
            let d = needle.get_char(k);
            same = if fold {
                lower_code(c) == d as u32
            } else {
                c == d
            };
            if same {
                k = k + 1;
            }
        }
        if same {
            assert(hay.subrange(i as int, i + m) =~= needle@);
            assert(occurs_at(hay, needle@, i as int));
            return true;
        }
        assert(!occurs_at(hay, needle@, i as int)) by {
            assert(hay.subrange(i as int, i + m)[k as int] == hay[i + k]);
        }
        if i == last {
            assert forall|j: int| !#[trigger] occurs_at(hay, needle@, j) by {
                if 0 <= j <= last {
                }
            }
            return false;
        }
        i = i + 1;
    }
    false
}

/// The bytes of an ASCII text.
pub open spec fn ascii(s: Seq<char>) -> Seq<u8> {
    s.map_values(|c: char| c as u8)
}

/// The bytes of a text.
pub fn ascii_bytes(s: &'static str) -> (r: Vec<u8>)
    requires
        s.is_ascii(),
    ensures
        r@ == ascii(s@),
{
    let b = s.as_bytes();
    copy_all(b)
}

} // verus!
