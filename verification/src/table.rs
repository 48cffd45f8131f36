//! Tables of rows, no two with the same key.

use vstd::prelude::*;

verus! {

/// Something that stands in a table under a key.
pub trait Row: Sized {
    /// The row as a mathematical value.
    type M;

    /// What tells it from other rows.
    type K;

    spec fn model(&self) -> Self::M;

    spec fn key(m: Self::M) -> Self::K;

    fn same_key(&self, other: &Self) -> (r: bool)
        ensures
            r == (Self::key(self.model()) == Self::key(other.model())),
    ;
}

/// The rows as mathematical values.
pub open spec fn models<R: Row>(rows: Seq<R>) -> Seq<R::M> {
    rows.map_values(|r: R| r.model())
}

/// No two rows with the same key.
pub open spec fn distinct<R: Row>(rows: Seq<R::M>) -> bool {
    forall|i: int, j: int|
        0 <= i < j < rows.len() ==> R::key(#[trigger] rows[i]) != R::key(#[trigger] rows[j])
}

/// Whether a row with the key of `m` stands at `i`.
pub open spec fn stands_at<R: Row>(rows: Seq<R::M>, m: R::M, i: int) -> bool {
    0 <= i < rows.len() && R::key(rows[i]) == R::key(m)
}

/// The rows with `m` in the place of the row with its key, or behind the others.
pub open spec fn put<R: Row>(rows: Seq<R::M>, m: R::M) -> Seq<R::M> {
    if exists|i: int| stands_at::<R>(rows, m, i) {
        rows.update(choose|i: int| stands_at::<R>(rows, m, i), m)
    } else {
        rows.push(m)
    }
}

/// The rows with `m` behind them, if no row has its key.
pub open spec fn put_new<R: Row>(rows: Seq<R::M>, m: R::M) -> Seq<R::M> {
    if exists|i: int| stands_at::<R>(rows, m, i) {
        rows
    } else {
        rows.push(m)
    }
}

/// The first row that satisfies `p`.
pub open spec fn first<M>(rows: Seq<M>, p: spec_fn(M) -> bool) -> Option<M>
    decreases rows.len(),
{
    if rows.len() == 0 {
        None
    } else {
        match first(rows.drop_last(), p) {
            Some(m) => Some(m),
            None => if p(rows.last()) {
                Some(rows.last())
            } else {
                None
            },
        }
    }
}

/// Whether some row satisfies `p`.
pub open spec fn any<M>(rows: Seq<M>, p: spec_fn(M) -> bool) -> bool {
    exists|i: int| 0 <= i < rows.len() && p(#[trigger] rows[i])
}

/// How many rows satisfy `p`.
pub open spec fn tally<M>(rows: Seq<M>, p: spec_fn(M) -> bool) -> nat
    decreases rows.len(),
{
    if rows.len() == 0 {
        0
    } else {
        tally(rows.drop_last(), p) + if p(rows.last()) {
            1nat
        } else {
            0nat
        }
    }
}

/// The rows that satisfy `p`, in order.
pub open spec fn those<M>(rows: Seq<M>, p: spec_fn(M) -> bool) -> Seq<M>
    decreases rows.len(),
{
    if rows.len() == 0 {
        Seq::empty()
    } else if p(rows.last()) {
        those(rows.drop_last(), p).push(rows.last())
    } else {
        those(rows.drop_last(), p)
    }
}

/// As many rows are selected as are counted.
pub proof fn those_are_tallied<M>(rows: Seq<M>, p: spec_fn(M) -> bool)
    ensures
        those(rows, p).len() == tally(rows, p),
        tally(rows, p) <= rows.len(),
        tally(rows, p) == 0 <==> !any(rows, p),
    decreases rows.len(),
{
    if rows.len() > 0 {
        let rest = rows.drop_last();
        those_are_tallied(rest, p);
        if any(rest, p) {
            let i = choose|i: int| 0 <= i < rest.len() && p(#[trigger] rest[i]);
            assert(p(rows[i]));
        }
        if p(rows.last()) {
            assert(p(rows[rows.len() - 1]));
        }
        if any(rows, p) && !p(rows.last()) {
            let i = choose|i: int| 0 <= i < rows.len() && p(#[trigger] rows[i]);
            assert(p(rest[i]));
        }
    }
}

/// The first row that satisfies `p` is one that does, and the first.
pub proof fn first_is_first<M>(rows: Seq<M>, p: spec_fn(M) -> bool, n: int)
    requires
        0 <= n < rows.len(),
        p(rows[n]),
        forall|i: int| 0 <= i < n ==> !p(#[trigger] rows[i]),
    ensures
        first(rows, p) == Some(rows[n]),
    decreases rows.len(),
{
    if n == rows.len() - 1 {
        nothing_is_first(rows.drop_last(), p);
    } else {
        assert(rows.drop_last()[n] == rows[n]);
        first_is_first(rows.drop_last(), p, n);
    }
}

/// One row is first exactly where some row satisfies `p`.
pub proof fn first_or_none<M>(rows: Seq<M>, p: spec_fn(M) -> bool)
    ensures
        first(rows, p) is Some <==> any(rows, p),
        first(rows, p) is Some ==> p(first(rows, p)->Some_0) && rows.contains(
            first(rows, p)->Some_0,
        ),
    decreases rows.len(),
{
    if rows.len() > 0 {
        let rest = rows.drop_last();
        first_or_none(rest, p);
        if first(rest, p) is Some {
            let i = choose|i: int| 0 <= i < rest.len() && rest[i] == first(rest, p)->Some_0;
            assert(rows[i] == rest[i]);
            assert(p(rows[i]));
        } else {
            assert(rows[rows.len() - 1] == rows.last());
            if any(rows, p) {
                let i = choose|i: int| 0 <= i < rows.len() && p(#[trigger] rows[i]);
                if i < rest.len() {
                    assert(p(rest[i]));
                }
            }
        }
    }
}

/// Where no row satisfies `p`, none is first.
pub proof fn nothing_is_first<M>(rows: Seq<M>, p: spec_fn(M) -> bool)
    requires
        forall|i: int| 0 <= i < rows.len() ==> !p(#[trigger] rows[i]),
    ensures
        first(rows, p) is None,
    decreases rows.len(),
{
    if rows.len() > 0 {
        assert forall|i: int| 0 <= i < rows.drop_last().len() implies !p(
            #[trigger] rows.drop_last()[i],
        ) by {
            assert(!p(rows[i]));
        }
        assert(!p(rows[rows.len() - 1]));
        nothing_is_first(rows.drop_last(), p);
    }
}

/// Each row selected is one of the rows, and satisfies `p`.
pub proof fn those_are_of_them<M>(rows: Seq<M>, p: spec_fn(M) -> bool)
    ensures
        forall|m: M|
            #![trigger those(rows, p).contains(m)]
            #![trigger rows.contains(m)]
            those(rows, p).contains(m) <==> rows.contains(m) && p(m),
    decreases rows.len(),
{
    let sel = those(rows, p);
    if rows.len() > 0 {
        let rest = rows.drop_last();
        let last = rows.last();
        those_are_of_them(rest, p);
        let before = those(rest, p);
        assert forall|m: M| sel.contains(m) <==> rows.contains(m) && p(m) by {
            assert(before.contains(m) <==> rest.contains(m) && p(m));
            if rows.contains(m) {
                let i = choose|i: int| 0 <= i < rows.len() && rows[i] == m;
                if i < rest.len() {
                    assert(rest[i] == m);
                }
            }
            if rest.contains(m) {
                let i = choose|i: int| 0 <= i < rest.len() && rest[i] == m;
                assert(rows[i] == m);
            }
            if before.contains(m) {
                let i = choose|i: int| 0 <= i < before.len() && before[i] == m;
                assert(sel[i] == m);
            }
            if m == last {
                assert(rows[rows.len() - 1] == m);
                if p(m) {
                    assert(sel[sel.len() - 1] == m);
                }
            }
            if sel.contains(m) {
                let i = choose|i: int| 0 <= i < sel.len() && sel[i] == m;
                if i < before.len() {
                    assert(before[i] == m);
                }
            }
        }
    }
}

/// Where every row satisfies `p`, all are selected.
pub proof fn those_are_all<M>(rows: Seq<M>, p: spec_fn(M) -> bool)
    requires
        forall|i: int| 0 <= i < rows.len() ==> p(#[trigger] rows[i]),
    ensures
        those(rows, p) == rows,
    decreases rows.len(),
{
    if rows.len() > 0 {
        let rest = rows.drop_last();
        assert forall|i: int| 0 <= i < rest.len() implies p(#[trigger] rest[i]) by {
            assert(p(rows[i]));
        }
        assert(p(rows[rows.len() - 1]));
        those_are_all(rest, p);
        assert(rest.push(rows.last()) =~= rows);
    } else {
        assert(those(rows, p) =~= rows);
    }
}

/// What is first stays first where it is kept, and everything like it.
pub proof fn what_is_kept_is_still_first<M>(
    rows: Seq<M>,
    keep: spec_fn(M) -> bool,
    p: spec_fn(M) -> bool,
)
    requires
        forall|m: M| #[trigger] p(m) ==> keep(m),
    ensures
        first(those(rows, keep), p) == first(rows, p),
    decreases rows.len(),
{
    if rows.len() > 0 {
        what_is_kept_is_still_first(rows.drop_last(), keep, p);
        let kept = those(rows.drop_last(), keep);
        if keep(rows.last()) {
            assert(kept.push(rows.last()).drop_last() =~= kept);
        } else {
            assert(!p(rows.last()));
        }
    }
}

/// A selection of rows with distinct keys has distinct keys.
proof fn those_are_distinct<R: Row>(rows: Seq<R::M>, p: spec_fn(R::M) -> bool)
    requires
        distinct::<R>(rows),
    ensures
        distinct::<R>(those(rows, p)),
    decreases rows.len(),
{
    if rows.len() > 0 {
        let rest = rows.drop_last();
        assert(distinct::<R>(rest)) by {
            assert forall|i: int, j: int| 0 <= i < j < rest.len() implies R::key(
                #[trigger] rest[i],
            ) != R::key(#[trigger] rest[j]) by {
                assert(R::key(rows[i]) != R::key(rows[j]));
            }
        }
        those_are_distinct::<R>(rest, p);
        let before = those(rest, p);
        let sel = those(rows, p);
        those_are_of_them(rest, p);
        if p(rows.last()) {
            assert forall|i: int, j: int| 0 <= i < j < sel.len() implies R::key(
                #[trigger] sel[i],
            ) != R::key(#[trigger] sel[j]) by {
                if j < before.len() {
                    assert(R::key(before[i]) != R::key(before[j]));
                } else {
                    assert(before.contains(before[i]));
                    assert(rest.contains(before[i]));
                    let q = choose|q: int| 0 <= q < rest.len() && rest[q] == before[i];
                    assert(R::key(rows[q]) != R::key(rows[rows.len() - 1]));
                }
            }
        }
    }
}

/// Rows, no two with the same key.
#[derive(Debug)]
pub struct Table<R: Row> {
    rows: Vec<R>,
}

impl<R: Row> View for Table<R> {
    type V = Seq<R::M>;

    closed spec fn view(&self) -> Seq<R::M> {
        models(self.rows@)
    }
}

impl<R: Row> Table<R> {
    #[verifier::type_invariant]
    spec fn apart(&self) -> bool {
        distinct::<R>(models(self.rows@))
    }

    pub fn new() -> (r: Self)
        ensures
            r@ == Seq::<R::M>::empty(),
    {
        let r = Table { rows: Vec::new() };
        assert(r@ =~= Seq::<R::M>::empty());
        r
    }

    pub fn len(&self) -> (r: usize)
        ensures
            r == self@.len(),
            distinct::<R>(self@),
    {
        proof {
            use_type_invariant(self);
        }
        self.rows.len()
    }

    /// The `i`th row.
    pub fn at(&self, i: usize) -> (r: &R)
        requires
            i < self@.len(),
        ensures
            r.model() == self@[i as int],
    {
        &self.rows[i]
    }

    /// Where the row with the key of `row` stands.
    fn position(&self, row: &R) -> (r: Option<usize>)
        ensures
            match r {
                Some(i) => stands_at::<R>(self@, row.model(), i as int) && forall|j: int|
                    stands_at::<R>(self@, row.model(), j) ==> j == i,
                None => !exists|i: int| stands_at::<R>(self@, row.model(), i),
            },
    {
        proof {
            use_type_invariant(self);
        }
        let ghost s = self@;
        for i in 0..self.rows.len()
            invariant
                s == self@,
                s == models(self.rows@),
                distinct::<R>(s),
                forall|j: int| 0 <= j < i ==> !stands_at::<R>(s, row.model(), j),
        {
            assert(s[i as int] == self.rows@[i as int].model());
            if self.rows[i].same_key(row) {
                assert(stands_at::<R>(s, row.model(), i as int));
                assert forall|j: int| stands_at::<R>(s, row.model(), j) implies j == i by {
                    if j < i {
                        assert(R::key(s[j]) != R::key(s[i as int]));
                    } else if j > i {
                        assert(R::key(s[i as int]) != R::key(s[j]));
                    }
                }
                return Some(i);
            }
        }
        None
    }

    /// Put a row in the place of the one with its key, or behind the others.
    pub fn put(&mut self, row: R)
        ensures
            final(self)@ == put::<R>(old(self)@, row.model()),
    {
        proof {
            use_type_invariant(&*self);
        }
        let ghost s = self@;
        let ghost m = row.model();
        let at = self.position(&row);
        let mut rows: Vec<R> = Vec::new();
        std::mem::swap(&mut rows, &mut self.rows);
        match at {
            Some(i) => {
                rows.set(i, row);
                proof {
                    let c = choose|i: int| stands_at::<R>(s, m, i);
                    assert(stands_at::<R>(s, m, c));
                    assert(models(rows@) =~= s.update(i as int, m));
                    updated_is_distinct::<R>(s, i as int, m);
                }
            },
            None => {
                rows.push(row);
                proof {
                    assert(models(rows@) =~= s.push(m));
                    pushed_is_distinct::<R>(s, m);
                }
            },
        }
        self.rows = rows;
    }

    /// Put a row behind the others, unless one has its key. Says whether it was put.
    pub fn put_new(&mut self, row: R) -> (r: bool)
        ensures
            final(self)@ == put_new::<R>(old(self)@, row.model()),
            r == !exists|i: int| stands_at::<R>(old(self)@, row.model(), i),
    {
        match self.position(&row) {
            Some(i) => false,
            None => {
                self.put(row);
                true
            },
        }
    }

    /// Put a row in the place of the `i`th, which has its key.
    pub fn set(&mut self, i: usize, row: R)
        requires
            stands_at::<R>(old(self)@, row.model(), i as int),
        ensures
            final(self)@ == old(self)@.update(i as int, row.model()),
    {
        proof {
            use_type_invariant(&*self);
        }
        let ghost s = self@;
        let ghost m = row.model();
        let mut rows: Vec<R> = Vec::new();
        std::mem::swap(&mut rows, &mut self.rows);
        rows.set(i, row);
        proof {
            assert(models(rows@) =~= s.update(i as int, m));
            updated_is_distinct::<R>(s, i as int, m);
        }
        self.rows = rows;
    }

    /// Keep the rows that satisfy a condition.
    pub(crate) fn retain<F: Fn(&R) -> bool>(&mut self, f: F, Ghost(p): Ghost<spec_fn(R::M) -> bool>)
        requires
            forall|r: &R| call_requires(f, (r,)),
            forall|r: &R, b: bool| call_ensures(f, (r,), b) ==> b == p(r.model()),
        ensures
            final(self)@ == those(old(self)@, p),
    {
        proof {
            use_type_invariant(&*self);
        }
        let ghost s = self@;
        let mut rows: Vec<R> = Vec::new();
        std::mem::swap(&mut rows, &mut self.rows);
        let mut i: usize = 0;
        let ghost mut seen: int = 0;
        assert(s.take(0) =~= Seq::<R::M>::empty());
        assert(models(rows@) =~= those(s.take(0), p) + s.skip(0));
        while i < rows.len()
            invariant
                0 <= seen <= s.len(),
                i == those(s.take(seen), p).len(),
                models(rows@) == those(s.take(seen), p) + s.skip(seen),
                forall|r: &R| call_requires(f, (r,)),
                forall|r: &R, b: bool| call_ensures(f, (r,), b) ==> b == p(r.model()),
            decreases s.len() - seen,
        {
            let ghost kept = those(s.take(seen), p);
            proof {
                assert(models(rows@)[i as int] == s[seen]);
                assert(rows@[i as int].model() == s[seen]);
                assert(s.take(seen + 1).drop_last() =~= s.take(seen));
                assert(s.take(seen + 1).last() == s[seen]);
            }
            if f(&rows[i]) {
                assert(kept + s.skip(seen) =~= kept.push(s[seen]) + s.skip(seen + 1));
                i = i + 1;
            } else {
                let ghost before = models(rows@);
                rows.remove(i);
                assert(models(rows@) =~= before.remove(i as int));
                assert(before.remove(i as int) =~= kept + s.skip(seen + 1));
            }
            proof {
                seen = seen + 1;
            }
        }
        proof {
            assert(seen == s.len());
            assert(s.take(seen) =~= s);
            assert(models(rows@) =~= those(s, p));
            those_are_distinct::<R>(s, p);
        }
        self.rows = rows;
    }

    /// How many rows satisfy a condition.
    pub(crate) fn tally<F: Fn(&R) -> bool>(&self, f: F, Ghost(p): Ghost<spec_fn(R::M) -> bool>) -> (r:
        usize)
        requires
            forall|r: &R| call_requires(f, (r,)),
            forall|r: &R, b: bool| call_ensures(f, (r,), b) ==> b == p(r.model()),
        ensures
            r == tally(self@, p),
    {
        let ghost s = self@;
        let n: usize = self.rows.len();
        let mut count: usize = 0;
        for i in 0..n
            invariant
                n == self.rows@.len(),
                s == models(self.rows@),
                forall|r: &R| call_requires(f, (r,)),
                forall|r: &R, b: bool| call_ensures(f, (r,), b) ==> b == p(r.model()),
                count == tally(s.take(i as int), p),
                count <= i,
        {
            proof {
                assert(s.take(i + 1).drop_last() =~= s.take(i as int));
                assert(s.take(i + 1).last() == self.rows@[i as int].model());
            }
            if f(&self.rows[i]) {
                count = count + 1;
            }
        }
        assert(s.take(n as int) =~= s);
        count
    }

    /// Where the rows stand that satisfy a condition, in order.
    pub(crate) fn matching<F: Fn(&R) -> bool>(&self, f: F, Ghost(p): Ghost<
        spec_fn(R::M) -> bool,
    >) -> (r: Vec<usize>)
        requires
            forall|r: &R| call_requires(f, (r,)),
            forall|r: &R, b: bool| call_ensures(f, (r,), b) ==> b == p(r.model()),
        ensures
            r@.len() == those(self@, p).len(),
            forall|i: int|
                0 <= i < r@.len() ==> (#[trigger] r@[i]) < self@.len() && self@[r@[i] as int]
                    == those(self@, p)[i],
    {
        let ghost s = self@;
        let n: usize = self.rows.len();
        let mut r: Vec<usize> = Vec::new();
        for i in 0..n
            invariant
                n == self.rows@.len(),
                s == models(self.rows@),
                forall|r: &R| call_requires(f, (r,)),
                forall|r: &R, b: bool| call_ensures(f, (r,), b) ==> b == p(r.model()),
                r@.len() == those(s.take(i as int), p).len(),
                forall|j: int|
                    0 <= j < r@.len() ==> (#[trigger] r@[j]) < n && s[r@[j] as int] == those(
                        s.take(i as int),
                        p,
                    )[j],
        {
            proof {
                assert(s.take(i + 1).drop_last() =~= s.take(i as int));
                assert(s.take(i + 1).last() == self.rows@[i as int].model());
            }
            if f(&self.rows[i]) {
                r.push(i);
            }
        }
        assert(s.take(n as int) =~= s);
        r
    }

    /// Change each row for which `f` has another.
    pub(crate) fn change<F: Fn(&R) -> Option<R>>(&mut self, f: F, Ghost(g): Ghost<
        spec_fn(R::M) -> R::M,
    >)
        requires
            forall|r: &R| call_requires(f, (r,)),
            forall|r: &R, b: Option<R>|
                call_ensures(f, (r,), b) ==> g(r.model()) == (match b {
                    Some(x) => x.model(),
                    None => r.model(),
                }),
            forall|m: R::M| R::key(#[trigger] g(m)) == R::key(m),
        ensures
            final(self)@ == old(self)@.map_values(g),
    {
        let ghost s = self@;
        let n: usize = self.rows.len();
        for i in 0..n
            invariant
                n == s.len(),
                self@.len() == n,
                forall|r: &R| call_requires(f, (r,)),
                forall|r: &R, b: Option<R>|
                    call_ensures(f, (r,), b) ==> g(r.model()) == (match b {
                        Some(x) => x.model(),
                        None => r.model(),
                    }),
                forall|m: R::M| R::key(#[trigger] g(m)) == R::key(m),
                forall|j: int| 0 <= j < i ==> self@[j] == g(s[j]),
                forall|j: int| i <= j < n ==> self@[j] == s[j],
        {
            let row = self.at(i);
            match f(row) {
                Some(new) => {
                    assert(R::key(g(s[i as int])) == R::key(s[i as int]));
                    self.set(i, new);
                },
                None => {},
            }
        }
        assert(self@ =~= s.map_values(g));
    }

    /// Whether some row satisfies a condition.
    pub(crate) fn any<F: Fn(&R) -> bool>(&self, f: F, Ghost(p): Ghost<spec_fn(R::M) -> bool>) -> (r:
        bool)
        requires
            forall|r: &R| call_requires(f, (r,)),
            forall|r: &R, b: bool| call_ensures(f, (r,), b) ==> b == p(r.model()),
        ensures
            r == any(self@, p),
    {
        let count: usize = self.tally(f, Ghost(p));
        proof {
            those_are_tallied(self@, p);
        }
        count > 0
    }

    /// The first row that satisfies a condition.
    pub(crate) fn first<F: Fn(&R) -> bool>(&self, f: F, Ghost(p): Ghost<
        spec_fn(R::M) -> bool,
    >) -> (r: Option<&R>)
        requires
            forall|r: &R| call_requires(f, (r,)),
            forall|r: &R, b: bool| call_ensures(f, (r,), b) ==> b == p(r.model()),
        ensures
            match r {
                Some(x) => first(self@, p) == Some(x.model()),
                None => first(self@, p) is None,
            },
    {
        let ghost s = self@;
        let n: usize = self.rows.len();
        for i in 0..n
            invariant
                n == self.rows@.len(),
                s == self@,
                s == models(self.rows@),
                forall|r: &R| call_requires(f, (r,)),
                forall|r: &R, b: bool| call_ensures(f, (r,), b) ==> b == p(r.model()),
                forall|j: int| 0 <= j < i ==> !p(#[trigger] s[j]),
        {
            assert(s[i as int] == self.rows@[i as int].model());
            if f(&self.rows[i]) {
                proof {
                    first_is_first(s, p, i as int);
                }
                return Some(&self.rows[i]);
            }
        }
        proof {
            nothing_is_first(s, p);
        }
        None
    }
}

/// What is put is found under its key.
pub proof fn what_is_put_is_found<R: Row>(rows: Seq<R::M>, m: R::M, p: spec_fn(R::M) -> bool)
    requires
        distinct::<R>(rows),
        forall|x: R::M| #[trigger] p(x) <==> R::key(x) == R::key(m),
    ensures
        first(put::<R>(rows, m), p) == Some(m),
{
    let t = put::<R>(rows, m);
    assert(p(m));
    if exists|i: int| stands_at::<R>(rows, m, i) {
        let i = choose|i: int| stands_at::<R>(rows, m, i);
        assert forall|j: int| 0 <= j < i implies !p(#[trigger] t[j]) by {
            assert(R::key(rows[j]) != R::key(rows[i]));
        }
        first_is_first(t, p, i);
    } else {
        assert forall|j: int| 0 <= j < rows.len() implies !p(#[trigger] t[j]) by {
            assert(!stands_at::<R>(rows, m, j));
        }
        first_is_first(t, p, rows.len() as int);
    }
}

/// Putting a row leaves what stands under other keys alone.
pub proof fn putting_leaves_the_rest<R: Row>(rows: Seq<R::M>, m: R::M, p: spec_fn(R::M) -> bool)
    requires
        forall|x: R::M| R::key(x) == R::key(m) ==> !#[trigger] p(x),
    ensures
        first(put::<R>(rows, m), p) == first(rows, p),
{
    if exists|i: int| stands_at::<R>(rows, m, i) {
        let i = choose|i: int| stands_at::<R>(rows, m, i);
        same_elsewhere(rows, i, m, p);
    } else {
        assert(rows.push(m).drop_last() =~= rows);
        assert(!p(m));
    }
}

proof fn same_elsewhere<M>(rows: Seq<M>, i: int, m: M, p: spec_fn(M) -> bool)
    requires
        0 <= i < rows.len(),
        !p(rows[i]),
        !p(m),
    ensures
        first(rows.update(i, m), p) == first(rows, p),
    decreases rows.len(),
{
    if i < rows.len() - 1 {
        same_elsewhere(rows.drop_last(), i, m, p);
        assert(rows.update(i, m).drop_last() =~= rows.drop_last().update(i, m));
    } else {
        assert(rows.update(i, m).drop_last() =~= rows.drop_last());
    }
}

/// Putting a row leaves one row under each key.
pub proof fn keys_stay_distinct<R: Row>(rows: Seq<R::M>, m: R::M)
    requires
        distinct::<R>(rows),
    ensures
        distinct::<R>(put::<R>(rows, m)),
        distinct::<R>(put_new::<R>(rows, m)),
{
    if exists|i: int| stands_at::<R>(rows, m, i) {
        updated_is_distinct::<R>(rows, choose|i: int| stands_at::<R>(rows, m, i), m);
    } else {
        pushed_is_distinct::<R>(rows, m);
    }
}

/// Putting a row adds one to a count at most.
pub proof fn putting_adds_one_at_most<R: Row>(rows: Seq<R::M>, m: R::M, p: spec_fn(R::M) -> bool)
    ensures
        tally(put::<R>(rows, m), p) <= tally(rows, p) + 1,
        !p(m) ==> tally(put_new::<R>(rows, m), p) == tally(rows, p),
{
    assert(rows.push(m).drop_last() =~= rows);
    if exists|i: int| stands_at::<R>(rows, m, i) {
        one_more_at_most(rows, choose|i: int| stands_at::<R>(rows, m, i), m, p);
    }
}

proof fn one_more_at_most<M>(rows: Seq<M>, i: int, m: M, p: spec_fn(M) -> bool)
    requires
        0 <= i < rows.len(),
    ensures
        tally(rows.update(i, m), p) <= tally(rows, p) + 1,
    decreases rows.len(),
{
    if i < rows.len() - 1 {
        one_more_at_most(rows.drop_last(), i, m, p);
        assert(rows.update(i, m).drop_last() =~= rows.drop_last().update(i, m));
    } else {
        assert(rows.update(i, m).drop_last() =~= rows.drop_last());
    }
}

/// Putting a row leaves a count of what stands under other keys alone.
pub proof fn putting_leaves_the_count<R: Row>(rows: Seq<R::M>, m: R::M, p: spec_fn(R::M) -> bool)
    requires
        forall|x: R::M| R::key(x) == R::key(m) ==> !#[trigger] p(x),
    ensures
        tally(put::<R>(rows, m), p) == tally(rows, p),
        tally(put_new::<R>(rows, m), p) == tally(rows, p),
{
    assert(rows.push(m).drop_last() =~= rows);
    assert(!p(m));
    if exists|i: int| stands_at::<R>(rows, m, i) {
        same_count(rows, choose|i: int| stands_at::<R>(rows, m, i), m, p);
    }
}

proof fn same_count<M>(rows: Seq<M>, i: int, m: M, p: spec_fn(M) -> bool)
    requires
        0 <= i < rows.len(),
        !p(rows[i]),
        !p(m),
    ensures
        tally(rows.update(i, m), p) == tally(rows, p),
    decreases rows.len(),
{
    if i < rows.len() - 1 {
        same_count(rows.drop_last(), i, m, p);
        assert(rows.update(i, m).drop_last() =~= rows.drop_last().update(i, m));
    } else {
        assert(rows.update(i, m).drop_last() =~= rows.drop_last());
    }
}

/// Two counts are the same where they count the same rows.
pub proof fn counts_agree<M>(rows: Seq<M>, p: spec_fn(M) -> bool, q: spec_fn(M) -> bool)
    requires
        forall|i: int| 0 <= i < rows.len() ==> p(#[trigger] rows[i]) == q(rows[i]),
    ensures
        tally(rows, p) == tally(rows, q),
    decreases rows.len(),
{
    if rows.len() > 0 {
        assert forall|i: int| 0 <= i < rows.drop_last().len() implies p(
            #[trigger] rows.drop_last()[i],
        ) == q(rows.drop_last()[i]) by {
            assert(rows.drop_last()[i] == rows[i]);
        }
        counts_agree(rows.drop_last(), p, q);
        assert(rows.last() == rows[rows.len() - 1]);
    }
}

proof fn updated_is_distinct<R: Row>(rows: Seq<R::M>, i: int, m: R::M)
    requires
        distinct::<R>(rows),
        stands_at::<R>(rows, m, i),
    ensures
        distinct::<R>(rows.update(i, m)),
{
    let t = rows.update(i, m);
    assert forall|a: int, b: int| 0 <= a < b < t.len() implies R::key(#[trigger] t[a]) != R::key(
        #[trigger] t[b],
    ) by {
        assert(R::key(rows[a]) != R::key(rows[b]));
    }
}

proof fn pushed_is_distinct<R: Row>(rows: Seq<R::M>, m: R::M)
    requires
        distinct::<R>(rows),
        !exists|i: int| stands_at::<R>(rows, m, i),
    ensures
        distinct::<R>(rows.push(m)),
{
    let t = rows.push(m);
    assert forall|a: int, b: int| 0 <= a < b < t.len() implies R::key(#[trigger] t[a]) != R::key(
        #[trigger] t[b],
    ) by {
        if b < rows.len() {
            assert(R::key(rows[a]) != R::key(rows[b]));
        } else {
            assert(!stands_at::<R>(rows, m, a));
        }
    }
}

} // verus!
