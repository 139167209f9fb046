//! The shrinking contract and its built-in instances.
//!
//! `Shrink` turns a value into a lazy stream of *strictly simpler*
//! candidate values, the simplest first.  Each type fixes the exact
//! candidate sequence (`cands`, a function of the value's model) and a
//! size measure (`size_of`) that every candidate strictly decreases, so
//! that repeated shrinking always terminates.

use crate::arbitrary::{Either, NonEmpty, Slot, Unicode};
use crate::lazy::{Lazy, MapFn, MapProd, Producer};
use crate::model::Model;
use vstd::prelude::*;
use vstd::std_specs::iter::IteratorSpec;

verus! {

/// A per-type contract producing strictly simpler candidate values.
///
/// `cands(m)` is the exact sequence of candidate models that
/// `shrink` will deliver, simplest first, and every candidate is
/// strictly smaller than `m` in the `size_of` measure, so a chain of
/// shrink steps always terminates and a value never shrinks to itself.
pub trait Shrink: Model {
    /// The producer type of this type's candidate streams.
    type Prod: Producer<Self>;

    /// The size measure that shrinking strictly decreases.
    spec fn size_of(m: Self::M) -> nat;

    /// The exact candidate sequence for a value with model `m`.
    spec fn cands(m: Self::M) -> Seq<Self::M>;

    /// Bound on the bookkeeping measure of a fresh candidate stream.
    spec fn sweight(m: Self::M) -> nat;

    /// Every candidate is strictly smaller than the value it shrinks.
    proof fn cands_smaller(m: Self::M)
        ensures
            forall|i: int|
                0 <= i < Self::cands(m).len() ==> Self::size_of(#[trigger] Self::cands(m)[i])
                    < Self::size_of(m),
    ;

    /// The stream of strictly simpler candidates, simplest first.
    fn shrink(&self) -> (l: Lazy<Self, Self::Prod>)
        ensures
            l.future() == Self::cands(self.model()),
            l.measure() <= Self::sweight(self.model()),
    ;
}

/// A value never appears among its own shrink candidates: each candidate
/// is strictly smaller in the `size_of` measure, so in particular it
/// differs from the value it shrinks.
pub proof fn lemma_shrink_strict<A: Shrink>(m: A::M)
    ensures
        forall|i: int| 0 <= i < A::cands(m).len() ==> #[trigger] A::cands(m)[i] != m,
{
    A::cands_smaller(m);
    assert forall|i: int| 0 <= i < A::cands(m).len() implies #[trigger] A::cands(m)[i] != m by {
        assert(A::size_of(A::cands(m)[i]) < A::size_of(m));
    }
}

/// Shrinking makes progress: any chain of values in which each value is
/// a shrink candidate of the one before strictly descends in the
/// `size_of` measure, so it reaches a value with an empty candidate
/// stream after at most `size_of` of the starting value many steps.  In
/// particular, repeatedly taking the first candidate terminates.
pub proof fn lemma_shrink_progress<A: Shrink>(m: A::M)
    ensures
        A::cands(m).len() > 0 ==> A::size_of(A::cands(m)[0]) < A::size_of(m),
        forall|i: int|
            0 <= i < A::cands(m).len() ==> A::size_of(#[trigger] A::cands(m)[i]) < A::size_of(m),
{
    A::cands_smaller(m);
}

/// The producer type of streams that never queue a producer; the
/// candidate streams of atomic types are of this kind.
pub struct NoProd<T> {
    _marker: core::marker::PhantomData<T>,
}

impl<T: Model> Producer<T> for NoProd<T> {
    open spec fn weight(&self) -> nat {
        0
    }

    open spec fn produces(&self) -> Seq<T::M> {
        Seq::empty()
    }

    open spec fn seq_produces(s: Seq<Self>) -> Seq<T::M>
        decreases s.len(),
    {
        if s.len() == 0 {
            Seq::empty()
        } else {
            s[0].produces() + Self::seq_produces(s.drop_first())
        }
    }

    open spec fn seq_weight(s: Seq<Self>) -> nat
        decreases s.len(),
    {
        if s.len() == 0 {
            0
        } else {
            1 + s[0].weight() + Self::seq_weight(s.drop_first())
        }
    }

    proof fn seq_laws(s: Seq<Self>) {
    }

    fn eval(self, l: &mut Lazy<T, Self>) {
        proof {
            assert(l.head@.map_values(|x: T| x.model()) + Self::seq_produces(l.pending@)
                =~= self.produces() + Self::seq_produces(l.pending@));
        }
    }
}

impl Shrink for () {
    type Prod = NoProd<()>;

    open spec fn size_of(m: ()) -> nat {
        0
    }

    open spec fn cands(m: ()) -> Seq<()> {
        Seq::empty()
    }

    open spec fn sweight(m: ()) -> nat {
        0
    }

    proof fn cands_smaller(m: ()) {
    }

    fn shrink(&self) -> (l: Lazy<(), NoProd<()>>) {
        Lazy::new()
    }
}

impl Shrink for bool {
    type Prod = NoProd<bool>;

    open spec fn size_of(m: bool) -> nat {
        0
    }

    open spec fn cands(m: bool) -> Seq<bool> {
        Seq::empty()
    }

    open spec fn sweight(m: bool) -> nat {
        0
    }

    proof fn cands_smaller(m: bool) {
    }

    fn shrink(&self) -> (l: Lazy<bool, NoProd<bool>>) {
        Lazy::new()
    }
}

impl Shrink for char {
    type Prod = NoProd<char>;

    open spec fn size_of(m: char) -> nat {
        0
    }

    open spec fn cands(m: char) -> Seq<char> {
        Seq::empty()
    }

    open spec fn sweight(m: char) -> nat {
        0
    }

    proof fn cands_smaller(m: char) {
    }

    fn shrink(&self) -> (l: Lazy<char, NoProd<char>>) {
        Lazy::new()
    }
}

impl Shrink for i8 {
    type Prod = NoProd<i8>;

    open spec fn size_of(m: i8) -> nat {
        0
    }

    open spec fn cands(m: i8) -> Seq<i8> {
        Seq::empty()
    }

    open spec fn sweight(m: i8) -> nat {
        0
    }

    proof fn cands_smaller(m: i8) {
    }

    fn shrink(&self) -> (l: Lazy<i8, NoProd<i8>>) {
        Lazy::new()
    }
}

impl Shrink for isize {
    type Prod = NoProd<isize>;

    open spec fn size_of(m: isize) -> nat {
        0
    }

    open spec fn cands(m: isize) -> Seq<isize> {
        Seq::empty()
    }

    open spec fn sweight(m: isize) -> nat {
        0
    }

    proof fn cands_smaller(m: isize) {
    }

    fn shrink(&self) -> (l: Lazy<isize, NoProd<isize>>) {
        Lazy::new()
    }
}

/// The tail of the candidate progression for a large number `n`:
/// `n - n/2, n - n/4, n - n/8, ...` up to `n - 1`, halving toward `n`;
/// the ramp ends early only when the divisor itself can no longer be
/// doubled in the machine word.
pub open spec fn upowers(n: int, div: int) -> Seq<usize>
    decreases (if div < n {
        n - div
    } else {
        0
    }),
{
    if 2 <= div && div < n {
        seq![(n - n / div) as usize] + (if div <= usize::MAX as int / 2 {
            upowers(n, 2 * div)
        } else {
            Seq::empty()
        })
    } else {
        Seq::empty()
    }
}

/// The candidate progression for an unsigned number, simplest first:
/// aggressive bisection to jump over plateaux, then small decrements to
/// find the exact boundary.
pub open spec fn usize_cands(n: usize) -> Seq<usize> {
    if n == 0 {
        Seq::empty()
    } else if n == 1 {
        seq![0usize]
    } else if n == 2 {
        seq![0usize, 1usize]
    } else if n <= 8 {
        seq![(n - 3) as usize, (n - 2) as usize, (n - 1) as usize]
    } else {
        seq![0usize] + upowers(n as int, 2)
    }
}

/// Every entry of `upowers(n, div)` lies strictly between 0 and `n`.
proof fn lemma_upowers_lt(n: int, div: int)
    requires
        2 <= div,
        n <= usize::MAX as int,
    ensures
        forall|i: int|
            0 <= i < upowers(n, div).len() ==> 0 < #[trigger] upowers(n, div)[i] < n,
    decreases (if div < n {
        n - div
    } else {
        0
    }),
{
    if 2 <= div && div < n {
        if div <= usize::MAX as int / 2 {
            lemma_upowers_lt(n, 2 * div);
        }
        assert(n / div >= 1) by (nonlinear_arith)
            requires
                2 <= div < n,
        ;
        assert(n / div < n) by (nonlinear_arith)
            requires
                2 <= div < n,
        ;
        assert forall|i: int| 0 <= i < upowers(n, div).len() implies 0 < #[trigger] upowers(
            n,
            div,
        )[i] < n by {
            if i == 0 {
                assert(upowers(n, div)[0] == (n - n / div) as usize);
            } else {
                assert(upowers(n, div)[i] == upowers(n, 2 * div)[i - 1]);
            }
        }
    }
}

/// Every candidate for `n` is strictly below `n`.
pub proof fn lemma_usize_cands_lt(n: usize)
    ensures
        forall|i: int| 0 <= i < usize_cands(n).len() ==> #[trigger] usize_cands(n)[i] < n,
{
    if n > 8 {
        lemma_upowers_lt(n as int, 2);
    }
}

/// The candidate progression `[0, n - n/2, n - n/4, ...]` for `n > 8`,
/// materialised: bisection steps halving toward `n`.
pub fn mpowers_of_two(n: usize) -> (r: Vec<usize>)
    requires
        n > 8,
    ensures
        r@ == seq![0usize] + upowers(n as int, 2),
{
    let mut r: Vec<usize> = Vec::new();
    r.push(0);
    let mut div: usize = 2;
    proof {
        assert(r@ =~= seq![0usize]);
    }
    loop
        invariant_except_break
            r@ + upowers(n as int, div as int) == seq![0usize] + upowers(n as int, 2),
        invariant
            2 <= div,
            n > 8,
        ensures
            r@ == seq![0usize] + upowers(n as int, 2),
        decreases (if (div as int) < n as int {
            n as int - div as int
        } else {
            0
        }),
    {
        if !(div < n) {
            proof {
                assert(upowers(n as int, div as int) =~= Seq::<usize>::empty());
                assert(r@ + Seq::<usize>::empty() =~= r@);
            }
            break ;
        }
        let ghost rpre = r@;
        let ghost dpre = div as int;
        r.push(n - n / div);
        proof {
            assert(r@ =~= rpre.push((n as int - n as int / dpre) as usize));
        }
        if div > usize::MAX / 2 {
            proof {
                assert(upowers(n as int, dpre) == seq![(n as int - n as int / dpre) as usize]
                    + Seq::<usize>::empty());
                assert(upowers(n as int, dpre) =~= seq![
                    (n as int - n as int / dpre) as usize,
                ]);
                assert(r@ =~= rpre + upowers(n as int, dpre));
                assert(r@ =~= seq![0usize] + upowers(n as int, 2));
            }
            break ;
        }
        div = div * 2;
        proof {
            assert(upowers(n as int, dpre) == seq![(n as int - n as int / dpre) as usize]
                + upowers(n as int, 2 * dpre));
            assert(r@ + upowers(n as int, div as int) =~= rpre + upowers(n as int, dpre));
        }
    }
    r
}

/// The candidates for an unsigned number, materialised.
fn usize_cand_vec(n: usize) -> (r: Vec<usize>)
    ensures
        r@ == usize_cands(n),
{
    let mut r: Vec<usize> = Vec::new();
    if n == 0 {
        proof {
            assert(r@ =~= usize_cands(n));
        }
        r
    } else if n == 1 {
        r.push(0);
        proof {
            assert(r@ =~= usize_cands(n));
        }
        r
    } else if n == 2 {
        r.push(0);
        r.push(1);
        proof {
            assert(r@ =~= usize_cands(n));
        }
        r
    } else if n <= 8 {
        r.push(n - 3);
        r.push(n - 2);
        r.push(n - 1);
        proof {
            assert(r@ =~= usize_cands(n));
        }
        r
    } else {
        mpowers_of_two(n)
    }
}

impl Shrink for usize {
    type Prod = NoProd<usize>;

    open spec fn size_of(m: usize) -> nat {
        m as nat
    }

    open spec fn cands(m: usize) -> Seq<usize> {
        usize_cands(m)
    }

    open spec fn sweight(m: usize) -> nat {
        usize_cands(m).len()
    }

    proof fn cands_smaller(m: usize) {
        lemma_usize_cands_lt(m);
    }

    fn shrink(&self) -> (l: Lazy<usize, NoProd<usize>>) {
        let v = usize_cand_vec(*self);
        let ghost vm = v@;
        let l = Lazy::new_from(v);
        proof {
            assert(l.vals() =~= vm.map_values(|x: usize| x));
            assert(l.vals() =~= vm);
            assert(l.future() =~= usize_cands(*self));
        }
        l
    }
}

/// Wrap a shrunk inner value back into `Some`.
pub struct SomeMap;

impl<T: Model> MapFn<T, Option<T>> for SomeMap {
    open spec fn fspec(a: T::M) -> Option<T::M> {
        Some(a)
    }

    fn apply(&self, a: T) -> (b: Option<T>) {
        Some(a)
    }
}

impl<T: Shrink> Shrink for Option<T> {
    type Prod = MapProd<T, T::Prod, SomeMap>;

    open spec fn size_of(m: Option<T::M>) -> nat {
        match m {
            None => 0,
            Some(x) => 1 + T::size_of(x),
        }
    }

    open spec fn cands(m: Option<T::M>) -> Seq<Option<T::M>> {
        match m {
            None => Seq::empty(),
            Some(x) => seq![None] + T::cands(x).map_values(|c: T::M| Some(c)),
        }
    }

    open spec fn sweight(m: Option<T::M>) -> nat {
        match m {
            None => 0,
            Some(x) => 4 + 2 * T::sweight(x),
        }
    }

    proof fn cands_smaller(m: Option<T::M>) {
        match m {
            None => {},
            Some(x) => {
                T::cands_smaller(x);
                assert forall|i: int| 0 <= i < Self::cands(m).len() implies Self::size_of(
                    #[trigger] Self::cands(m)[i],
                ) < Self::size_of(m) by {
                    if i > 0 {
                        assert(Self::cands(m)[i] == Some(T::cands(x)[i - 1]));
                    }
                }
            },
        }
    }

    fn shrink(&self) -> (l: Lazy<Option<T>, Self::Prod>) {
        match self {
            None => {
                let l = Lazy::new();
                proof {
                    assert(l.future() =~= Self::cands(self.model()));
                }
                l
            },
            Some(x) => {
                let mut l = Lazy::new();
                l.push(None);
                l.push_map(x.shrink(), SomeMap);
                proof {
                    assert(l.vals() =~= seq![None::<T::M>]);
                    assert(l.future() =~= Self::cands(self.model()));
                }
                l
            },
        }
    }
}

/// Wrap a shrunk inner value back into a box.
pub struct BoxMap;

impl<T: Model> MapFn<T, Box<T>> for BoxMap {
    open spec fn fspec(a: T::M) -> T::M {
        a
    }

    fn apply(&self, a: T) -> (b: Box<T>) {
        Box::new(a)
    }
}

impl<T: Shrink> Shrink for Box<T> {
    type Prod = MapProd<T, T::Prod, BoxMap>;

    open spec fn size_of(m: T::M) -> nat {
        T::size_of(m)
    }

    open spec fn cands(m: T::M) -> Seq<T::M> {
        T::cands(m)
    }

    open spec fn sweight(m: T::M) -> nat {
        3 + 2 * T::sweight(m)
    }

    proof fn cands_smaller(m: T::M) {
        T::cands_smaller(m);
    }

    fn shrink(&self) -> (l: Lazy<Box<T>, Self::Prod>) {
        let mut l = Lazy::new();
        l.push_map((**self).shrink(), BoxMap);
        proof {
            assert(T::cands(self.model()).map_values(|a: T::M| a) =~= T::cands(self.model()));
            assert(l.future() =~= Self::cands(self.model()));
        }
        l
    }
}

/// Producer of the candidate stream of a `Result`: shrinking stays on
/// the inhabited side.
pub enum ResProd<T: Shrink, U: Shrink> {
    /// Shrinking inside `Ok`.
    OkSide(Lazy<T, T::Prod>),
    /// Shrinking inside `Err`.
    ErrSide(Lazy<U, U::Prod>),
}

impl<T: Shrink, U: Shrink> Producer<Result<T, U>> for ResProd<T, U> {
    open spec fn weight(&self) -> nat {
        match self {
            ResProd::OkSide(it) => 2 + 2 * it.measure(),
            ResProd::ErrSide(it) => 2 + 2 * it.measure(),
        }
    }

    open spec fn produces(&self) -> Seq<Result<T::M, U::M>> {
        match self {
            ResProd::OkSide(it) => it.future().map_values(|a: T::M| Ok(a)),
            ResProd::ErrSide(it) => it.future().map_values(|e: U::M| Err(e)),
        }
    }

    open spec fn seq_produces(s: Seq<Self>) -> Seq<Result<T::M, U::M>>
        decreases s.len(),
    {
        if s.len() == 0 {
            Seq::empty()
        } else {
            s[0].produces() + Self::seq_produces(s.drop_first())
        }
    }

    open spec fn seq_weight(s: Seq<Self>) -> nat
        decreases s.len(),
    {
        if s.len() == 0 {
            0
        } else {
            1 + s[0].weight() + Self::seq_weight(s.drop_first())
        }
    }

    proof fn seq_laws(s: Seq<Self>) {
    }

    fn eval(self, l: &mut Lazy<Result<T, U>, Self>) {
        let ghost pend0 = l.pending@;
        match self {
            ResProd::OkSide(mut it) => {
                let ghost sf = it.future();
                match it.next() {
                    None => {
                        proof {
                            assert(self.produces() =~= Seq::<Result<T::M, U::M>>::empty());
                            assert(l.head@.map_values(|x: Result<T, U>| x.model())
                                + Self::seq_produces(l.pending@) =~= self.produces()
                                + Self::seq_produces(pend0));
                        }
                    },
                    Some(a) => {
                        l.push(Ok(a));
                        let p2 = ResProd::OkSide(it);
                        l.requeue(p2);
                        proof {
                            Self::seq_laws(l.pending@);
                            assert(l.pending@.drop_first() =~= pend0);
                            assert(l.head@.map_values(|x: Result<T, U>| x.model()) =~= seq![
                                Ok::<T::M, U::M>(sf[0]),
                            ]);
                            assert(p2.produces() =~= sf.drop_first().map_values(
                                |am: T::M| Ok::<T::M, U::M>(am),
                            ));
                            assert(self.produces() =~= seq![Ok::<T::M, U::M>(sf[0])]
                                + p2.produces());
                            assert(l.head@.map_values(|x: Result<T, U>| x.model())
                                + Self::seq_produces(l.pending@) =~= self.produces()
                                + Self::seq_produces(pend0));
                        }
                    },
                }
            },
            ResProd::ErrSide(mut it) => {
                let ghost sf = it.future();
                match it.next() {
                    None => {
                        proof {
                            assert(self.produces() =~= Seq::<Result<T::M, U::M>>::empty());
                            assert(l.head@.map_values(|x: Result<T, U>| x.model())
                                + Self::seq_produces(l.pending@) =~= self.produces()
                                + Self::seq_produces(pend0));
                        }
                    },
                    Some(e) => {
                        l.push(Err(e));
                        let p2 = ResProd::ErrSide(it);
                        l.requeue(p2);
                        proof {
                            Self::seq_laws(l.pending@);
                            assert(l.pending@.drop_first() =~= pend0);
                            assert(l.head@.map_values(|x: Result<T, U>| x.model()) =~= seq![
                                Err::<T::M, U::M>(sf[0]),
                            ]);
                            assert(p2.produces() =~= sf.drop_first().map_values(
                                |em: U::M| Err::<T::M, U::M>(em),
                            ));
                            assert(self.produces() =~= seq![Err::<T::M, U::M>(sf[0])]
                                + p2.produces());
                            assert(l.head@.map_values(|x: Result<T, U>| x.model())
                                + Self::seq_produces(l.pending@) =~= self.produces()
                                + Self::seq_produces(pend0));
                        }
                    },
                }
            },
        }
    }
}

impl<T: Shrink, U: Shrink> Shrink for Result<T, U> {
    type Prod = ResProd<T, U>;

    open spec fn size_of(m: Result<T::M, U::M>) -> nat {
        match m {
            Ok(x) => T::size_of(x),
            Err(e) => U::size_of(e),
        }
    }

    open spec fn cands(m: Result<T::M, U::M>) -> Seq<Result<T::M, U::M>> {
        match m {
            Ok(x) => T::cands(x).map_values(|c: T::M| Ok(c)),
            Err(e) => U::cands(e).map_values(|c: U::M| Err(c)),
        }
    }

    open spec fn sweight(m: Result<T::M, U::M>) -> nat {
        match m {
            Ok(x) => 3 + 2 * T::sweight(x),
            Err(e) => 3 + 2 * U::sweight(e),
        }
    }

    proof fn cands_smaller(m: Result<T::M, U::M>) {
        match m {
            Ok(x) => {
                T::cands_smaller(x);
                assert forall|i: int| 0 <= i < Self::cands(m).len() implies Self::size_of(
                    #[trigger] Self::cands(m)[i],
                ) < Self::size_of(m) by {
                    assert(Self::cands(m)[i] == Ok::<T::M, U::M>(T::cands(x)[i]));
                }
            },
            Err(e) => {
                U::cands_smaller(e);
                assert forall|i: int| 0 <= i < Self::cands(m).len() implies Self::size_of(
                    #[trigger] Self::cands(m)[i],
                ) < Self::size_of(m) by {
                    assert(Self::cands(m)[i] == Err::<T::M, U::M>(U::cands(e)[i]));
                }
            },
        }
    }

    fn shrink(&self) -> (l: Lazy<Result<T, U>, Self::Prod>) {
        let mut l = Lazy::new();
        match self {
            Ok(x) => {
                let p = ResProd::OkSide(x.shrink());
                let ghost pend0 = l.pending@;
                l.push_thunk(p);
                proof {
                    Lazy::<Result<T, U>, Self::Prod>::lemma_thunk_fold(pend0, p);
                    assert(l.future() =~= Self::cands(self.model()));
                }
            },
            Err(e) => {
                let p = ResProd::ErrSide(e.shrink());
                let ghost pend0 = l.pending@;
                l.push_thunk(p);
                proof {
                    Lazy::<Result<T, U>, Self::Prod>::lemma_thunk_fold(pend0, p);
                    assert(l.future() =~= Self::cands(self.model()));
                }
            },
        }
        l
    }
}

/// The candidate progression for a byte: the unsigned progression,
/// carried over.
pub open spec fn u8_cands(n: u8) -> Seq<u8> {
    usize_cands(n as usize).map_values(|x: usize| x as u8)
}

impl Shrink for u8 {
    type Prod = NoProd<u8>;

    open spec fn size_of(m: u8) -> nat {
        m as nat
    }

    open spec fn cands(m: u8) -> Seq<u8> {
        u8_cands(m)
    }

    open spec fn sweight(m: u8) -> nat {
        u8_cands(m).len()
    }

    proof fn cands_smaller(m: u8) {
        lemma_usize_cands_lt(m as usize);
        assert forall|i: int|
            0 <= i < u8_cands(m).len() implies Self::size_of(#[trigger] u8_cands(m)[i])
            < Self::size_of(m) by {
            assert(usize_cands(m as usize)[i] < m as usize);
        }
    }

    fn shrink(&self) -> (l: Lazy<u8, NoProd<u8>>) {
        let n = *self;
        let vu = usize_cand_vec(n as usize);
        proof {
            lemma_usize_cands_lt(n as usize);
        }
        let mut v: Vec<u8> = Vec::new();
        let mut i: usize = 0;
        while i < vu.len()
            invariant
                i <= vu@.len(),
                vu@ == usize_cands(n as usize),
                forall|k: int|
                    0 <= k < vu@.len() ==> #[trigger] usize_cands(n as usize)[k] < n as usize,
                v@ == vu@.take(i as int).map_values(|x: usize| x as u8),
            decreases vu@.len() - i,
        {
            let x = vu[i];
            v.push(x as u8);
            i += 1;
            proof {
                assert(vu@.take(i as int) =~= vu@.take(i - 1).push(x));
                assert(v@ =~= vu@.take(i as int).map_values(|y: usize| y as u8));
            }
        }
        let ghost vm = v@;
        let l = Lazy::new_from(v);
        proof {
            assert(vu@.take(vu@.len() as int) =~= vu@);
            assert(l.vals() =~= vm.map_values(|x: u8| x));
            assert(l.vals() =~= vm);
            assert(l.future() =~= u8_cands(n));
        }
        l
    }
}

/// Producer of the candidate stream of a pair: one sub-stream per
/// coordinate, replacing that coordinate with each of its shrinks while
/// the other keeps its original value.
pub enum Tup2Prod<A: Shrink, B: Shrink> {
    /// Shrinking the first coordinate.
    Fst(Lazy<A, A::Prod>, B),
    /// Shrinking the second coordinate.
    Snd(Lazy<B, B::Prod>, A),
}

impl<A: Shrink, B: Shrink> Producer<(A, B)> for Tup2Prod<A, B> {
    open spec fn weight(&self) -> nat {
        match self {
            Tup2Prod::Fst(it, _) => 2 + 2 * it.measure(),
            Tup2Prod::Snd(it, _) => 2 + 2 * it.measure(),
        }
    }

    open spec fn produces(&self) -> Seq<(A::M, B::M)> {
        match self {
            Tup2Prod::Fst(it, b) => {
                let bm = b.model();
                it.future().map_values(|am: A::M| (am, bm))
            },
            Tup2Prod::Snd(it, a) => {
                let am = a.model();
                it.future().map_values(|bm: B::M| (am, bm))
            },
        }
    }

    open spec fn seq_produces(s: Seq<Self>) -> Seq<(A::M, B::M)>
        decreases s.len(),
    {
        if s.len() == 0 {
            Seq::empty()
        } else {
            s[0].produces() + Self::seq_produces(s.drop_first())
        }
    }

    open spec fn seq_weight(s: Seq<Self>) -> nat
        decreases s.len(),
    {
        if s.len() == 0 {
            0
        } else {
            1 + s[0].weight() + Self::seq_weight(s.drop_first())
        }
    }

    proof fn seq_laws(s: Seq<Self>) {
    }

    fn eval(self, l: &mut Lazy<(A, B), Self>) {
        let ghost pend0 = l.pending@;
        match self {
            Tup2Prod::Fst(mut it, b) => {
                let ghost sf = it.future();
                let ghost bm = b.model();
                match it.next() {
                    None => {
                        proof {
                            assert(self.produces() =~= Seq::<(A::M, B::M)>::empty());
                            assert(l.head@.map_values(|x: (A, B)| x.model())
                                + Self::seq_produces(l.pending@) =~= self.produces()
                                + Self::seq_produces(pend0));
                        }
                    },
                    Some(x) => {
                        let b1 = b.dup();
                        l.push((x, b1));
                        let p2 = Tup2Prod::Fst(it, b);
                        l.requeue(p2);
                        proof {
                            Self::seq_laws(l.pending@);
                            assert(l.pending@.drop_first() =~= pend0);
                            assert(l.head@.map_values(|y: (A, B)| y.model()) =~= seq![
                                (sf[0], bm),
                            ]);
                            assert(p2.produces() =~= sf.drop_first().map_values(
                                |am: A::M| (am, bm),
                            ));
                            assert(self.produces() =~= seq![(sf[0], bm)] + p2.produces());
                            assert(l.head@.map_values(|y: (A, B)| y.model())
                                + Self::seq_produces(l.pending@) =~= self.produces()
                                + Self::seq_produces(pend0));
                        }
                    },
                }
            },
            Tup2Prod::Snd(mut it, a) => {
                let ghost sf = it.future();
                let ghost am = a.model();
                match it.next() {
                    None => {
                        proof {
                            assert(self.produces() =~= Seq::<(A::M, B::M)>::empty());
                            assert(l.head@.map_values(|x: (A, B)| x.model())
                                + Self::seq_produces(l.pending@) =~= self.produces()
                                + Self::seq_produces(pend0));
                        }
                    },
                    Some(y) => {
                        let a1 = a.dup();
                        l.push((a1, y));
                        let p2 = Tup2Prod::Snd(it, a);
                        l.requeue(p2);
                        proof {
                            Self::seq_laws(l.pending@);
                            assert(l.pending@.drop_first() =~= pend0);
                            assert(l.head@.map_values(|y2: (A, B)| y2.model()) =~= seq![
                                (am, sf[0]),
                            ]);
                            assert(p2.produces() =~= sf.drop_first().map_values(
                                |bm: B::M| (am, bm),
                            ));
                            assert(self.produces() =~= seq![(am, sf[0])] + p2.produces());
                            assert(l.head@.map_values(|y2: (A, B)| y2.model())
                                + Self::seq_produces(l.pending@) =~= self.produces()
                                + Self::seq_produces(pend0));
                        }
                    },
                }
            },
        }
    }
}

impl<A: Shrink, B: Shrink> Shrink for (A, B) {
    type Prod = Tup2Prod<A, B>;

    open spec fn size_of(m: (A::M, B::M)) -> nat {
        A::size_of(m.0) + B::size_of(m.1)
    }

    open spec fn cands(m: (A::M, B::M)) -> Seq<(A::M, B::M)> {
        A::cands(m.0).map_values(|x: A::M| (x, m.1)) + B::cands(m.1).map_values(
            |y: B::M| (m.0, y),
        )
    }

    open spec fn sweight(m: (A::M, B::M)) -> nat {
        6 + 2 * A::sweight(m.0) + 2 * B::sweight(m.1)
    }

    proof fn cands_smaller(m: (A::M, B::M)) {
        A::cands_smaller(m.0);
        B::cands_smaller(m.1);
        let n1 = A::cands(m.0).len() as int;
        assert forall|i: int| 0 <= i < Self::cands(m).len() implies Self::size_of(
            #[trigger] Self::cands(m)[i],
        ) < Self::size_of(m) by {
            if i < n1 {
                assert(Self::cands(m)[i] == (A::cands(m.0)[i], m.1));
            } else {
                assert(Self::cands(m)[i] == (m.0, B::cands(m.1)[i - n1]));
            }
        }
    }

    fn shrink(&self) -> (l: Lazy<(A, B), Self::Prod>) {
        let mut l = Lazy::new();
        let p1 = Tup2Prod::Fst(self.0.shrink(), self.1.dup());
        let ghost pd0 = l.pending@;
        l.push_thunk(p1);
        proof {
            Lazy::<(A, B), Self::Prod>::lemma_thunk_fold(pd0, p1);
        }
        let p2 = Tup2Prod::Snd(self.1.shrink(), self.0.dup());
        let ghost pd1 = l.pending@;
        l.push_thunk(p2);
        proof {
            Lazy::<(A, B), Self::Prod>::lemma_thunk_fold(pd1, p2);
            assert(l.future() =~= Self::cands(self.model()));
        }
        l
    }
}

/// Producer of the candidate stream of a triple: one sub-stream per
/// coordinate, in coordinate order.
pub enum Tup3Prod<A: Shrink, B: Shrink, C: Shrink> {
    /// Shrinking the first coordinate.
    Fst(Lazy<A, A::Prod>, B, C),
    /// Shrinking the second coordinate.
    Snd(Lazy<B, B::Prod>, A, C),
    /// Shrinking the third coordinate.
    Trd(Lazy<C, C::Prod>, A, B),
}

impl<A: Shrink, B: Shrink, C: Shrink> Producer<(A, B, C)> for Tup3Prod<A, B, C> {
    open spec fn weight(&self) -> nat {
        match self {
            Tup3Prod::Fst(it, _, _) => 2 + 2 * it.measure(),
            Tup3Prod::Snd(it, _, _) => 2 + 2 * it.measure(),
            Tup3Prod::Trd(it, _, _) => 2 + 2 * it.measure(),
        }
    }

    open spec fn produces(&self) -> Seq<(A::M, B::M, C::M)> {
        match self {
            Tup3Prod::Fst(it, b, c) => {
                let bm = b.model();
                let cm = c.model();
                it.future().map_values(|am: A::M| (am, bm, cm))
            },
            Tup3Prod::Snd(it, a, c) => {
                let am = a.model();
                let cm = c.model();
                it.future().map_values(|bm: B::M| (am, bm, cm))
            },
            Tup3Prod::Trd(it, a, b) => {
                let am = a.model();
                let bm = b.model();
                it.future().map_values(|cm: C::M| (am, bm, cm))
            },
        }
    }

    open spec fn seq_produces(s: Seq<Self>) -> Seq<(A::M, B::M, C::M)>
        decreases s.len(),
    {
        if s.len() == 0 {
            Seq::empty()
        } else {
            s[0].produces() + Self::seq_produces(s.drop_first())
        }
    }

    open spec fn seq_weight(s: Seq<Self>) -> nat
        decreases s.len(),
    {
        if s.len() == 0 {
            0
        } else {
            1 + s[0].weight() + Self::seq_weight(s.drop_first())
        }
    }

    proof fn seq_laws(s: Seq<Self>) {
    }

    fn eval(self, l: &mut Lazy<(A, B, C), Self>) {
        let ghost pend0 = l.pending@;
        match self {
            Tup3Prod::Fst(mut it, b, c) => {
                let ghost sf = it.future();
                let ghost bm = b.model();
                let ghost cm = c.model();
                match it.next() {
                    None => {
                        proof {
                            assert(self.produces() =~= Seq::<(A::M, B::M, C::M)>::empty());
                            assert(l.head@.map_values(|x: (A, B, C)| x.model())
                                + Self::seq_produces(l.pending@) =~= self.produces()
                                + Self::seq_produces(pend0));
                        }
                    },
                    Some(x) => {
                        l.push((x, b.dup(), c.dup()));
                        let p2 = Tup3Prod::Fst(it, b, c);
                        l.requeue(p2);
                        proof {
                            Self::seq_laws(l.pending@);
                            assert(l.pending@.drop_first() =~= pend0);
                            assert(l.head@.map_values(|y: (A, B, C)| y.model()) =~= seq![
                                (sf[0], bm, cm),
                            ]);
                            assert(p2.produces() =~= sf.drop_first().map_values(
                                |am: A::M| (am, bm, cm),
                            ));
                            assert(self.produces() =~= seq![(sf[0], bm, cm)] + p2.produces());
                            assert(l.head@.map_values(|y: (A, B, C)| y.model())
                                + Self::seq_produces(l.pending@) =~= self.produces()
                                + Self::seq_produces(pend0));
                        }
                    },
                }
            },
            Tup3Prod::Snd(mut it, a, c) => {
                let ghost sf = it.future();
                let ghost am = a.model();
                let ghost cm = c.model();
                match it.next() {
                    None => {
                        proof {
                            assert(self.produces() =~= Seq::<(A::M, B::M, C::M)>::empty());
                            assert(l.head@.map_values(|x: (A, B, C)| x.model())
                                + Self::seq_produces(l.pending@) =~= self.produces()
                                + Self::seq_produces(pend0));
                        }
                    },
                    Some(y) => {
                        l.push((a.dup(), y, c.dup()));
                        let p2 = Tup3Prod::Snd(it, a, c);
                        l.requeue(p2);
                        proof {
                            Self::seq_laws(l.pending@);
                            assert(l.pending@.drop_first() =~= pend0);
                            assert(l.head@.map_values(|y2: (A, B, C)| y2.model()) =~= seq![
                                (am, sf[0], cm),
                            ]);
                            assert(p2.produces() =~= sf.drop_first().map_values(
                                |bm: B::M| (am, bm, cm),
                            ));
                            assert(self.produces() =~= seq![(am, sf[0], cm)] + p2.produces());
                            assert(l.head@.map_values(|y2: (A, B, C)| y2.model())
                                + Self::seq_produces(l.pending@) =~= self.produces()
                                + Self::seq_produces(pend0));
                        }
                    },
                }
            },
            Tup3Prod::Trd(mut it, a, b) => {
                let ghost sf = it.future();
                let ghost am = a.model();
                let ghost bm = b.model();
                match it.next() {
                    None => {
                        proof {
                            assert(self.produces() =~= Seq::<(A::M, B::M, C::M)>::empty());
                            assert(l.head@.map_values(|x: (A, B, C)| x.model())
                                + Self::seq_produces(l.pending@) =~= self.produces()
                                + Self::seq_produces(pend0));
                        }
                    },
                    Some(z) => {
                        l.push((a.dup(), b.dup(), z));
                        let p2 = Tup3Prod::Trd(it, a, b);
                        l.requeue(p2);
                        proof {
                            Self::seq_laws(l.pending@);
                            assert(l.pending@.drop_first() =~= pend0);
                            assert(l.head@.map_values(|y2: (A, B, C)| y2.model()) =~= seq![
                                (am, bm, sf[0]),
                            ]);
                            assert(p2.produces() =~= sf.drop_first().map_values(
                                |cm: C::M| (am, bm, cm),
                            ));
                            assert(self.produces() =~= seq![(am, bm, sf[0])] + p2.produces());
                            assert(l.head@.map_values(|y2: (A, B, C)| y2.model())
                                + Self::seq_produces(l.pending@) =~= self.produces()
                                + Self::seq_produces(pend0));
                        }
                    },
                }
            },
        }
    }
}

impl<A: Shrink, B: Shrink, C: Shrink> Shrink for (A, B, C) {
    type Prod = Tup3Prod<A, B, C>;

    open spec fn size_of(m: (A::M, B::M, C::M)) -> nat {
        A::size_of(m.0) + B::size_of(m.1) + C::size_of(m.2)
    }

    open spec fn cands(m: (A::M, B::M, C::M)) -> Seq<(A::M, B::M, C::M)> {
        A::cands(m.0).map_values(|x: A::M| (x, m.1, m.2)) + B::cands(m.1).map_values(
            |y: B::M| (m.0, y, m.2),
        ) + C::cands(m.2).map_values(|z: C::M| (m.0, m.1, z))
    }

    open spec fn sweight(m: (A::M, B::M, C::M)) -> nat {
        9 + 2 * A::sweight(m.0) + 2 * B::sweight(m.1) + 2 * C::sweight(m.2)
    }

    proof fn cands_smaller(m: (A::M, B::M, C::M)) {
        A::cands_smaller(m.0);
        B::cands_smaller(m.1);
        C::cands_smaller(m.2);
        let n1 = A::cands(m.0).len() as int;
        let n2 = B::cands(m.1).len() as int;
        assert forall|i: int| 0 <= i < Self::cands(m).len() implies Self::size_of(
            #[trigger] Self::cands(m)[i],
        ) < Self::size_of(m) by {
            if i < n1 {
                assert(Self::cands(m)[i] == (A::cands(m.0)[i], m.1, m.2));
            } else if i < n1 + n2 {
                assert(Self::cands(m)[i] == (m.0, B::cands(m.1)[i - n1], m.2));
            } else {
                assert(Self::cands(m)[i] == (m.0, m.1, C::cands(m.2)[i - n1 - n2]));
            }
        }
    }

    fn shrink(&self) -> (l: Lazy<(A, B, C), Self::Prod>) {
        let mut l = Lazy::new();
        let p1 = Tup3Prod::Fst(self.0.shrink(), self.1.dup(), self.2.dup());
        let ghost pd0 = l.pending@;
        l.push_thunk(p1);
        proof {
            Lazy::<(A, B, C), Self::Prod>::lemma_thunk_fold(pd0, p1);
        }
        let p2 = Tup3Prod::Snd(self.1.shrink(), self.0.dup(), self.2.dup());
        let ghost pd1 = l.pending@;
        l.push_thunk(p2);
        proof {
            Lazy::<(A, B, C), Self::Prod>::lemma_thunk_fold(pd1, p2);
        }
        let p3 = Tup3Prod::Trd(self.2.shrink(), self.0.dup(), self.1.dup());
        let ghost pd2 = l.pending@;
        l.push_thunk(p3);
        proof {
            Lazy::<(A, B, C), Self::Prod>::lemma_thunk_fold(pd2, p3);
            assert(l.future() =~= Self::cands(self.model()));
        }
        l
    }
}

/// Duplicate the range `[from, to)` of a vector.
fn sub_dup<T: Model>(v: &Vec<T>, from: usize, to: usize) -> (r: Vec<T>)
    requires
        from <= to <= v@.len(),
    ensures
        r.model() == v.model().subrange(from as int, to as int),
{
    let mut r: Vec<T> = Vec::new();
    let mut k: usize = from;
    while k < to
        invariant
            from <= k <= to <= v@.len(),
            r@.len() == k - from,
            forall|idx: int| 0 <= idx < r@.len() ==> #[trigger] r@[idx].model() == v@[
                from + idx
            ].model(),
        decreases to - k,
    {
        r.push(v[k].dup());
        k += 1;
    }
    proof {
        assert(r.model() =~= v.model().subrange(from as int, to as int));
    }
    r
}

/// The total size of a sequence of element models: one per element plus
/// the size of each element.
pub open spec fn seq_size<T: Shrink>(m: Seq<T::M>) -> nat
    decreases m.len(),
{
    if m.len() == 0 {
        0
    } else {
        1 + T::size_of(m[0]) + seq_size::<T>(m.drop_first())
    }
}

proof fn lemma_seq_size_concat<T: Shrink>(a: Seq<T::M>, b: Seq<T::M>)
    ensures
        seq_size::<T>(a + b) == seq_size::<T>(a) + seq_size::<T>(b),
    decreases a.len(),
{
    if a.len() == 0 {
        assert(a + b =~= b);
    } else {
        assert((a + b).drop_first() =~= a.drop_first() + b);
        assert((a + b)[0] == a[0]);
        lemma_seq_size_concat::<T>(a.drop_first(), b);
    }
}

proof fn lemma_seq_size_len<T: Shrink>(m: Seq<T::M>)
    ensures
        seq_size::<T>(m) >= m.len(),
    decreases m.len(),
{
    if m.len() > 0 {
        lemma_seq_size_len::<T>(m.drop_first());
    }
}

proof fn lemma_seq_size_split<T: Shrink>(m: Seq<T::M>, k: int)
    requires
        0 <= k <= m.len(),
    ensures
        seq_size::<T>(m) == seq_size::<T>(m.take(k)) + seq_size::<T>(m.skip(k)),
{
    assert(m =~= m.take(k) + m.skip(k));
    lemma_seq_size_concat::<T>(m.take(k), m.skip(k));
}

proof fn lemma_seq_size_one<T: Shrink>(c: T::M)
    ensures
        seq_size::<T>(seq![c]) == 1 + T::size_of(c),
{
    assert(seq![c].drop_first() =~= Seq::<T::M>::empty());
    assert(seq_size::<T>(Seq::<T::M>::empty()) == 0);
    assert(seq![c][0] == c);
}

proof fn lemma_seq_size_remove<T: Shrink>(m: Seq<T::M>, i: int)
    requires
        0 <= i < m.len(),
    ensures
        seq_size::<T>(m.remove(i)) + 1 + T::size_of(m[i]) == seq_size::<T>(m),
{
    assert(m =~= m.take(i) + (seq![m[i]] + m.skip(i + 1)));
    assert(m.remove(i) =~= m.take(i) + m.skip(i + 1));
    lemma_seq_size_concat::<T>(m.take(i), seq![m[i]] + m.skip(i + 1));
    lemma_seq_size_concat::<T>(seq![m[i]], m.skip(i + 1));
    lemma_seq_size_concat::<T>(m.take(i), m.skip(i + 1));
    lemma_seq_size_one::<T>(m[i]);
}

proof fn lemma_seq_size_update<T: Shrink>(m: Seq<T::M>, i: int, c: T::M)
    requires
        0 <= i < m.len(),
    ensures
        seq_size::<T>(m.update(i, c)) + T::size_of(m[i]) == seq_size::<T>(m) + T::size_of(c),
{
    assert(m =~= m.take(i) + (seq![m[i]] + m.skip(i + 1)));
    assert(m.update(i, c) =~= m.take(i) + (seq![c] + m.skip(i + 1)));
    lemma_seq_size_concat::<T>(m.take(i), seq![m[i]] + m.skip(i + 1));
    lemma_seq_size_concat::<T>(seq![m[i]], m.skip(i + 1));
    lemma_seq_size_concat::<T>(m.take(i), seq![c] + m.skip(i + 1));
    lemma_seq_size_concat::<T>(seq![c], m.skip(i + 1));
    lemma_seq_size_one::<T>(m[i]);
    lemma_seq_size_one::<T>(c);
}

/// The bisection candidates of a sequence: for a sequence of more than
/// two elements, the second half, then the first half.
pub open spec fn seq_halves<TM>(m: Seq<TM>) -> Seq<Seq<TM>> {
    if m.len() > 2 {
        seq![m.skip(m.len() as int / 2), m.take(m.len() as int / 2)]
    } else {
        Seq::empty()
    }
}

/// The removal candidates of a sequence, from index `i` on: for each
/// index in increasing order, the sequence with that element removed.
pub open spec fn seq_removals<TM>(m: Seq<TM>, i: int) -> Seq<Seq<TM>>
    decreases (if i < m.len() {
        m.len() - i
    } else {
        0
    }),
{
    if 0 <= i < m.len() {
        seq![m.remove(i)] + seq_removals(m, i + 1)
    } else {
        Seq::empty()
    }
}

/// The element-shrink candidates of a sequence, from index `j` on: for
/// each index in increasing order, for each candidate of the element at
/// that index, the sequence with that element so replaced.
pub open spec fn seq_elems<T: Shrink>(m: Seq<T::M>, j: int) -> Seq<Seq<T::M>>
    decreases (if j < m.len() {
        m.len() - j
    } else {
        0
    }),
{
    if 0 <= j < m.len() {
        T::cands(m[j]).map_values(|c: T::M| m.update(j, c)) + seq_elems::<T>(m, j + 1)
    } else {
        Seq::empty()
    }
}

/// Weight bound for the element-shrink stages from index `j` on.
pub open spec fn elems_weight<T: Shrink>(m: Seq<T::M>, j: int) -> nat
    decreases (if j < m.len() {
        m.len() - j
    } else {
        0
    }),
{
    if 0 <= j < m.len() {
        6 + 2 * T::sweight(m[j]) + elems_weight::<T>(m, j + 1)
    } else {
        0
    }
}

/// Weight bound for the removal stages from index `i` on, and what
/// follows them.
pub open spec fn rem_weight<T: Shrink>(m: Seq<T::M>, i: int) -> nat
    decreases (if i < m.len() {
        m.len() - i
    } else {
        0
    }),
{
    if 0 <= i < m.len() {
        2 + rem_weight::<T>(m, i + 1)
    } else {
        1 + elems_weight::<T>(m, 0)
    }
}

proof fn lemma_removals_smaller<T: Shrink>(m: Seq<T::M>, i: int)
    requires
        0 <= i,
    ensures
        forall|idx: int|
            0 <= idx < seq_removals(m, i).len() ==> seq_size::<T>(
                #[trigger] seq_removals(m, i)[idx],
            ) < seq_size::<T>(m),
    decreases (if i < m.len() {
        m.len() - i
    } else {
        0
    }),
{
    if 0 <= i < m.len() {
        lemma_removals_smaller::<T>(m, i + 1);
        lemma_seq_size_remove::<T>(m, i);
        assert forall|idx: int| 0 <= idx < seq_removals(m, i).len() implies seq_size::<T>(
            #[trigger] seq_removals(m, i)[idx],
        ) < seq_size::<T>(m) by {
            if idx == 0 {
                assert(seq_removals(m, i)[0] == m.remove(i));
            } else {
                assert(seq_removals(m, i)[idx] == seq_removals(m, i + 1)[idx - 1]);
            }
        }
    }
}

proof fn lemma_elems_smaller<T: Shrink>(m: Seq<T::M>, j: int)
    requires
        0 <= j,
    ensures
        forall|idx: int|
            0 <= idx < seq_elems::<T>(m, j).len() ==> seq_size::<T>(
                #[trigger] seq_elems::<T>(m, j)[idx],
            ) < seq_size::<T>(m),
    decreases (if j < m.len() {
        m.len() - j
    } else {
        0
    }),
{
    if 0 <= j < m.len() {
        lemma_elems_smaller::<T>(m, j + 1);
        T::cands_smaller(m[j]);
        let firsts = T::cands(m[j]).map_values(|c: T::M| m.update(j, c));
        assert forall|idx: int| 0 <= idx < seq_elems::<T>(m, j).len() implies seq_size::<T>(
            #[trigger] seq_elems::<T>(m, j)[idx],
        ) < seq_size::<T>(m) by {
            if idx < firsts.len() {
                let c = T::cands(m[j])[idx];
                assert(seq_elems::<T>(m, j)[idx] == m.update(j, c));
                assert(T::size_of(c) < T::size_of(m[j]));
                lemma_seq_size_update::<T>(m, j, c);
            } else {
                assert(seq_elems::<T>(m, j)[idx] == seq_elems::<T>(m, j + 1)[idx - firsts.len()]);
            }
        }
    }
}

proof fn lemma_halves_smaller<T: Shrink>(m: Seq<T::M>)
    ensures
        forall|idx: int|
            0 <= idx < seq_halves(m).len() ==> seq_size::<T>(#[trigger] seq_halves(m)[idx])
                < seq_size::<T>(m),
{
    if m.len() > 2 {
        let mid = m.len() as int / 2;
        lemma_seq_size_split::<T>(m, mid);
        lemma_seq_size_len::<T>(m.take(mid));
        lemma_seq_size_len::<T>(m.skip(mid));
        assert(m.take(mid).len() == mid);
        assert(m.skip(mid).len() == m.len() - mid);
        assert forall|idx: int| 0 <= idx < seq_halves(m).len() implies seq_size::<T>(
            #[trigger] seq_halves(m)[idx],
        ) < seq_size::<T>(m) by {
            if idx == 0 {
                assert(seq_halves(m)[0] == m.skip(mid));
            } else {
                assert(seq_halves(m)[1] == m.take(mid));
            }
        }
    }
}


/// Producer of the candidate stream of a sequence, staged: bisection
/// halves, then one-at-a-time removals, then element-wise shrinks, with
/// the grid of element candidates never materialised.
pub enum VecProd<T: Shrink> {
    /// Pushes the bisection halves, then hands over to removals.
    Start(Vec<T>),
    /// Pushes the removal at the carried index, then re-arms at the next
    /// index; past the end it hands over to element shrinks.
    Rem(Vec<T>, usize),
    /// Opens the candidate stream of the element at the carried index
    /// and re-arms at the next index.
    Elems(Vec<T>, usize),
    /// Pulls one candidate for the element at the carried index, pushes
    /// the sequence with that element so replaced, and re-arms.
    ElemMap(Lazy<T, T::Prod>, usize, Vec<T>),
}

impl<T: Shrink> Producer<Vec<T>> for VecProd<T> {
    open spec fn weight(&self) -> nat {
        match self {
            VecProd::Start(v) => 3 + rem_weight::<T>(v.model(), 0),
            VecProd::Rem(v, i) => rem_weight::<T>(v.model(), i as int),
            VecProd::Elems(v, j) => elems_weight::<T>(v.model(), j as int),
            VecProd::ElemMap(it, j, v) => 2 + 2 * it.measure(),
        }
    }

    open spec fn produces(&self) -> Seq<Seq<T::M>> {
        match self {
            VecProd::Start(v) => seq_halves(v.model()) + seq_removals(v.model(), 0)
                + seq_elems::<T>(v.model(), 0),
            VecProd::Rem(v, i) => seq_removals(v.model(), i as int) + seq_elems::<T>(
                v.model(),
                0,
            ),
            VecProd::Elems(v, j) => seq_elems::<T>(v.model(), j as int),
            VecProd::ElemMap(it, j, v) => {
                let m = v.model();
                let jj = j as int;
                if jj < m.len() {
                    it.future().map_values(|c: T::M| m.update(jj, c))
                } else {
                    Seq::empty()
                }
            },
        }
    }

    open spec fn seq_produces(s: Seq<Self>) -> Seq<Seq<T::M>>
        decreases s.len(),
    {
        if s.len() == 0 {
            Seq::empty()
        } else {
            s[0].produces() + Self::seq_produces(s.drop_first())
        }
    }

    open spec fn seq_weight(s: Seq<Self>) -> nat
        decreases s.len(),
    {
        if s.len() == 0 {
            0
        } else {
            1 + s[0].weight() + Self::seq_weight(s.drop_first())
        }
    }

    proof fn seq_laws(s: Seq<Self>) {
    }

    fn eval(self, l: &mut Lazy<Vec<T>, Self>) {
        let ghost pend0 = l.pending@;
        match self {
            VecProd::Start(v) => {
                let ghost m = v.model();
                if v.len() > 2 {
                    let mid = v.len() / 2;
                    let h2 = sub_dup(&v, mid, v.len());
                    l.push(h2);
                    let h1 = sub_dup(&v, 0, mid);
                    l.push(h1);
                    proof {
                        assert(m.skip(mid as int) =~= m.subrange(mid as int, m.len() as int));
                        assert(m.take(mid as int) =~= m.subrange(0, mid as int));
                    }
                }
                let p2 = VecProd::Rem(v, 0);
                l.requeue(p2);
                proof {
                    Self::seq_laws(l.pending@);
                    assert(l.pending@.drop_first() =~= pend0);
                    assert(l.head@.map_values(|x: Vec<T>| x.model()) =~= seq_halves(m));
                    assert(self.produces() =~= seq_halves(m) + p2.produces());
                    assert(l.head@.map_values(|x: Vec<T>| x.model()) + Self::seq_produces(
                        l.pending@,
                    ) =~= self.produces() + Self::seq_produces(pend0));
                }
            },
            VecProd::Rem(v, i) => {
                let ghost m = v.model();
                if i < v.len() {
                    let mut w = sub_dup(&v, 0, i);
                    let mut tail = sub_dup(&v, i + 1, v.len());
                    w.append(&mut tail);
                    proof {
                        assert(w.model() =~= m.subrange(0, i as int) + m.subrange(
                            i as int + 1,
                            m.len() as int,
                        ));
                        assert(w.model() =~= m.remove(i as int));
                    }
                    l.push(w);
                    let p2 = VecProd::Rem(v, i + 1);
                    l.requeue(p2);
                    proof {
                        Self::seq_laws(l.pending@);
                        assert(l.pending@.drop_first() =~= pend0);
                        assert(l.head@.map_values(|x: Vec<T>| x.model()) =~= seq![
                            m.remove(i as int),
                        ]);
                        assert(self.produces() =~= seq![m.remove(i as int)] + p2.produces());
                        assert(l.head@.map_values(|x: Vec<T>| x.model()) + Self::seq_produces(
                            l.pending@,
                        ) =~= self.produces() + Self::seq_produces(pend0));
                    }
                } else {
                    let p2 = VecProd::Elems(v, 0);
                    l.requeue(p2);
                    proof {
                        Self::seq_laws(l.pending@);
                        assert(l.pending@.drop_first() =~= pend0);
                        assert(seq_removals(m, i as int) =~= Seq::<Seq<T::M>>::empty());
                        assert(self.produces() =~= p2.produces());
                        assert(l.head@.map_values(|x: Vec<T>| x.model()) + Self::seq_produces(
                            l.pending@,
                        ) =~= self.produces() + Self::seq_produces(pend0));
                    }
                }
            },
            VecProd::Elems(v, j) => {
                let ghost m = v.model();
                if j < v.len() {
                    let inner = v[j].shrink();
                    let v2 = v.dup();
                    let p_next = VecProd::Elems(v2, j + 1);
                    l.requeue(p_next);
                    let p_map = VecProd::ElemMap(inner, j, v);
                    l.requeue(p_map);
                    proof {
                        Self::seq_laws(l.pending@);
                        assert(l.pending@.drop_first() =~= pend0.insert(0, p_next));
                        Self::seq_laws(pend0.insert(0, p_next));
                        assert(pend0.insert(0, p_next).drop_first() =~= pend0);
                        assert(p_map.produces() =~= T::cands(m[j as int]).map_values(
                            |c: T::M| m.update(j as int, c),
                        ));
                        assert(p_next.produces() =~= seq_elems::<T>(m, j as int + 1));
                        assert(self.produces() =~= p_map.produces() + p_next.produces());
                        assert(l.head@.map_values(|x: Vec<T>| x.model()) + Self::seq_produces(
                            l.pending@,
                        ) =~= self.produces() + Self::seq_produces(pend0));
                    }
                } else {
                    proof {
                        assert(self.produces() =~= Seq::<Seq<T::M>>::empty());
                        assert(l.head@.map_values(|x: Vec<T>| x.model()) + Self::seq_produces(
                            l.pending@,
                        ) =~= self.produces() + Self::seq_produces(pend0));
                    }
                }
            },
            VecProd::ElemMap(it, j, v) => {
                let ghost m = v.model();
                if j < v.len() {
                    let mut it = it;
                    let ghost sf = it.future();
                    match it.next() {
                        None => {
                            proof {
                                assert(self.produces() =~= Seq::<Seq<T::M>>::empty());
                                assert(l.head@.map_values(|x: Vec<T>| x.model())
                                    + Self::seq_produces(l.pending@) =~= self.produces()
                                    + Self::seq_produces(pend0));
                            }
                        },
                        Some(c) => {
                            let ghost cm = c.model();
                            let mut w = sub_dup(&v, 0, j);
                            w.push(c);
                            let mut tail = sub_dup(&v, j + 1, v.len());
                            w.append(&mut tail);
                            proof {
                                assert(w.model() =~= m.subrange(0, j as int) + (seq![cm]
                                    + m.subrange(j as int + 1, m.len() as int)));
                                assert(w.model() =~= m.update(j as int, cm));
                            }
                            l.push(w);
                            let p2 = VecProd::ElemMap(it, j, v);
                            l.requeue(p2);
                            proof {
                                Self::seq_laws(l.pending@);
                                assert(l.pending@.drop_first() =~= pend0);
                                assert(l.head@.map_values(|x: Vec<T>| x.model()) =~= seq![
                                    m.update(j as int, sf[0]),
                                ]);
                                assert(p2.produces() =~= sf.drop_first().map_values(
                                    |c2: T::M| m.update(j as int, c2),
                                ));
                                assert(self.produces() =~= seq![m.update(j as int, sf[0])]
                                    + p2.produces());
                                assert(l.head@.map_values(|x: Vec<T>| x.model())
                                    + Self::seq_produces(l.pending@) =~= self.produces()
                                    + Self::seq_produces(pend0));
                            }
                        },
                    }
                } else {
                    proof {
                        assert(self.produces() =~= Seq::<Seq<T::M>>::empty());
                        assert(l.head@.map_values(|x: Vec<T>| x.model()) + Self::seq_produces(
                            l.pending@,
                        ) =~= self.produces() + Self::seq_produces(pend0));
                    }
                }
            },
        }
    }
}

impl<T: Shrink> Shrink for Vec<T> {
    type Prod = VecProd<T>;

    open spec fn size_of(m: Seq<T::M>) -> nat {
        seq_size::<T>(m)
    }

    open spec fn cands(m: Seq<T::M>) -> Seq<Seq<T::M>> {
        if m.len() == 0 {
            Seq::empty()
        } else {
            seq![Seq::<T::M>::empty()] + seq_halves(m) + seq_removals(m, 0) + seq_elems::<T>(m, 0)
        }
    }

    open spec fn sweight(m: Seq<T::M>) -> nat {
        if m.len() == 0 {
            0
        } else {
            6 + rem_weight::<T>(m, 0)
        }
    }

    proof fn cands_smaller(m: Seq<T::M>) {
        if m.len() > 0 {
            lemma_halves_smaller::<T>(m);
            lemma_removals_smaller::<T>(m, 0);
            lemma_elems_smaller::<T>(m, 0);
            lemma_seq_size_len::<T>(m);
            let h = seq_halves(m);
            let r = seq_removals(m, 0);
            let e = seq_elems::<T>(m, 0);
            assert forall|i: int| 0 <= i < Self::cands(m).len() implies Self::size_of(
                #[trigger] Self::cands(m)[i],
            ) < Self::size_of(m) by {
                if i == 0 {
                    assert(Self::cands(m)[0] =~= Seq::<T::M>::empty());
                    assert(seq_size::<T>(Seq::<T::M>::empty()) == 0);
                } else if i < 1 + h.len() {
                    assert(Self::cands(m)[i] == h[i - 1]);
                } else if i < 1 + h.len() + r.len() {
                    assert(Self::cands(m)[i] == r[i - 1 - h.len()]);
                } else {
                    assert(Self::cands(m)[i] == e[i - 1 - h.len() - r.len()]);
                }
            }
        }
    }

    fn shrink(&self) -> (l: Lazy<Vec<T>, VecProd<T>>) {
        let mut l = Lazy::new();
        if self.len() == 0 {
            proof {
                assert(l.future() =~= Self::cands(self.model()));
            }
            return l;
        }
        let e: Vec<T> = Vec::new();
        proof {
            assert(e.model() =~= Seq::<T::M>::empty());
        }
        l.push(e);
        let p = VecProd::Start(self.dup());
        let ghost pd0 = l.pending@;
        l.push_thunk(p);
        proof {
            Lazy::<Vec<T>, VecProd<T>>::lemma_thunk_fold(pd0, p);
            assert(l.future() =~= Self::cands(self.model()));
        }
        l
    }
}


/// Collect the characters of a string into a vector.
fn chars_vec(s: &String) -> (r: Vec<char>)
    ensures
        r@ == s@,
{
    broadcast use vstd::string::next_postcondition;
    broadcast use vstd::string::axiom_spec_iter;

    let mut it = s.as_str().chars();
    let mut r: Vec<char> = Vec::new();
    proof {
        assert(it.remaining() == s@);
    }
    loop
        invariant
            r@ + it.remaining() == s@,
        ensures
            r@ == s@,
        decreases s@.len() - r@.len(),
    {
        let ghost rem0 = it.remaining();
        let ghost r0 = r@;
        match it.next() {
            Some(c) => {
                r.push(c);
                proof {
                    assert(r@ + it.remaining() =~= r0 + rem0);
                }
            },
            None => {
                proof {
                    assert(r@ + rem0 =~= r@);
                }
                break ;
            },
        }
    }
    r
}

/// Relies on `String::push`: appends exactly the given character to the
/// end of the string.
#[verifier::external_body]
pub(crate) fn push_char(s: &mut String, c: char)
    ensures
        final(s)@ == old(s)@.push(c),
{
    s.push(c);
}

/// Rebuild a string from a vector of characters.
fn string_from_chars(v: &Vec<char>) -> (r: String)
    ensures
        r@ == v@,
{
    let mut r = String::new();
    let mut k: usize = 0;
    while k < v.len()
        invariant
            k <= v@.len(),
            r@ == v@.take(k as int),
        decreases v@.len() - k,
    {
        push_char(&mut r, v[k]);
        k += 1;
        proof {
            assert(v@.take(k as int) =~= v@.take(k - 1).push(v@[k - 1]));
        }
    }
    proof {
        assert(v@.take(v@.len() as int) =~= v@);
    }
    r
}

/// Rebuild a string from a shrunk vector of its characters.
pub struct StrMap;

impl MapFn<Vec<char>, String> for StrMap {
    open spec fn fspec(a: Seq<char>) -> Seq<char> {
        a
    }

    fn apply(&self, a: Vec<char>) -> (b: String) {
        let b = string_from_chars(&a);
        proof {
            assert(a.model() =~= a@);
        }
        b
    }
}

impl Shrink for String {
    type Prod = MapProd<Vec<char>, VecProd<char>, StrMap>;

    open spec fn size_of(m: Seq<char>) -> nat {
        <Vec<char> as Shrink>::size_of(m)
    }

    open spec fn cands(m: Seq<char>) -> Seq<Seq<char>> {
        <Vec<char> as Shrink>::cands(m)
    }

    open spec fn sweight(m: Seq<char>) -> nat {
        3 + 2 * <Vec<char> as Shrink>::sweight(m)
    }

    proof fn cands_smaller(m: Seq<char>) {
        <Vec<char> as Shrink>::cands_smaller(m);
    }

    fn shrink(&self) -> (l: Lazy<String, Self::Prod>) {
        let cv = chars_vec(self);
        proof {
            assert(cv.model() =~= self@);
        }
        let mut l = Lazy::new();
        l.push_map(cv.shrink(), StrMap);
        proof {
            assert(<Vec<char> as Shrink>::cands(self@).map_values(|a: Seq<char>| a)
                =~= <Vec<char> as Shrink>::cands(self@));
            assert(l.future() =~= Self::cands(self.model()));
        }
        l
    }
}


/// Producer of the candidate stream of an [`Either`]: shrinking stays on
/// the inhabited side.
pub enum EitherProd<T: Shrink, U: Shrink> {
    /// Shrinking inside `Left`.
    LeftSide(Lazy<T, T::Prod>),
    /// Shrinking inside `Right`.
    RightSide(Lazy<U, U::Prod>),
}

impl<T: Shrink, U: Shrink> Producer<Either<T, U>> for EitherProd<T, U> {
    open spec fn weight(&self) -> nat {
        match self {
            EitherProd::LeftSide(it) => 2 + 2 * it.measure(),
            EitherProd::RightSide(it) => 2 + 2 * it.measure(),
        }
    }

    open spec fn produces(&self) -> Seq<Either<T::M, U::M>> {
        match self {
            EitherProd::LeftSide(it) => it.future().map_values(|a: T::M| Either::Left(a)),
            EitherProd::RightSide(it) => it.future().map_values(|e: U::M| Either::Right(e)),
        }
    }

    open spec fn seq_produces(s: Seq<Self>) -> Seq<Either<T::M, U::M>>
        decreases s.len(),
    {
        if s.len() == 0 {
            Seq::empty()
        } else {
            s[0].produces() + Self::seq_produces(s.drop_first())
        }
    }

    open spec fn seq_weight(s: Seq<Self>) -> nat
        decreases s.len(),
    {
        if s.len() == 0 {
            0
        } else {
            1 + s[0].weight() + Self::seq_weight(s.drop_first())
        }
    }

    proof fn seq_laws(s: Seq<Self>) {
    }

    fn eval(self, l: &mut Lazy<Either<T, U>, Self>) {
        let ghost pend0 = l.pending@;
        match self {
            EitherProd::LeftSide(mut it) => {
                let ghost sf = it.future();
                match it.next() {
                    None => {
                        proof {
                            assert(self.produces() =~= Seq::<Either<T::M, U::M>>::empty());
                            assert(l.head@.map_values(|x: Either<T, U>| x.model())
                                + Self::seq_produces(l.pending@) =~= self.produces()
                                + Self::seq_produces(pend0));
                        }
                    },
                    Some(a) => {
                        l.push(Either::Left(a));
                        let p2 = EitherProd::LeftSide(it);
                        l.requeue(p2);
                        proof {
                            Self::seq_laws(l.pending@);
                            assert(l.pending@.drop_first() =~= pend0);
                            assert(l.head@.map_values(|x: Either<T, U>| x.model()) =~= seq![
                                Either::<T::M, U::M>::Left(sf[0]),
                            ]);
                            assert(p2.produces() =~= sf.drop_first().map_values(
                                |am: T::M| Either::<T::M, U::M>::Left(am),
                            ));
                            assert(self.produces() =~= seq![Either::<T::M, U::M>::Left(sf[0])]
                                + p2.produces());
                            assert(l.head@.map_values(|x: Either<T, U>| x.model())
                                + Self::seq_produces(l.pending@) =~= self.produces()
                                + Self::seq_produces(pend0));
                        }
                    },
                }
            },
            EitherProd::RightSide(mut it) => {
                let ghost sf = it.future();
                match it.next() {
                    None => {
                        proof {
                            assert(self.produces() =~= Seq::<Either<T::M, U::M>>::empty());
                            assert(l.head@.map_values(|x: Either<T, U>| x.model())
                                + Self::seq_produces(l.pending@) =~= self.produces()
                                + Self::seq_produces(pend0));
                        }
                    },
                    Some(e) => {
                        l.push(Either::Right(e));
                        let p2 = EitherProd::RightSide(it);
                        l.requeue(p2);
                        proof {
                            Self::seq_laws(l.pending@);
                            assert(l.pending@.drop_first() =~= pend0);
                            assert(l.head@.map_values(|x: Either<T, U>| x.model()) =~= seq![
                                Either::<T::M, U::M>::Right(sf[0]),
                            ]);
                            assert(p2.produces() =~= sf.drop_first().map_values(
                                |em: U::M| Either::<T::M, U::M>::Right(em),
                            ));
                            assert(self.produces() =~= seq![Either::<T::M, U::M>::Right(sf[0])]
                                + p2.produces());
                            assert(l.head@.map_values(|x: Either<T, U>| x.model())
                                + Self::seq_produces(l.pending@) =~= self.produces()
                                + Self::seq_produces(pend0));
                        }
                    },
                }
            },
        }
    }
}

impl<T: Shrink, U: Shrink> Shrink for Either<T, U> {
    type Prod = EitherProd<T, U>;

    open spec fn size_of(m: Either<T::M, U::M>) -> nat {
        match m {
            Either::Left(x) => T::size_of(x),
            Either::Right(e) => U::size_of(e),
        }
    }

    open spec fn cands(m: Either<T::M, U::M>) -> Seq<Either<T::M, U::M>> {
        match m {
            Either::Left(x) => T::cands(x).map_values(|c: T::M| Either::Left(c)),
            Either::Right(e) => U::cands(e).map_values(|c: U::M| Either::Right(c)),
        }
    }

    open spec fn sweight(m: Either<T::M, U::M>) -> nat {
        match m {
            Either::Left(x) => 3 + 2 * T::sweight(x),
            Either::Right(e) => 3 + 2 * U::sweight(e),
        }
    }

    proof fn cands_smaller(m: Either<T::M, U::M>) {
        match m {
            Either::Left(x) => {
                T::cands_smaller(x);
                assert forall|i: int| 0 <= i < Self::cands(m).len() implies Self::size_of(
                    #[trigger] Self::cands(m)[i],
                ) < Self::size_of(m) by {
                    assert(Self::cands(m)[i] == Either::<T::M, U::M>::Left(T::cands(x)[i]));
                }
            },
            Either::Right(e) => {
                U::cands_smaller(e);
                assert forall|i: int| 0 <= i < Self::cands(m).len() implies Self::size_of(
                    #[trigger] Self::cands(m)[i],
                ) < Self::size_of(m) by {
                    assert(Self::cands(m)[i] == Either::<T::M, U::M>::Right(U::cands(e)[i]));
                }
            },
        }
    }

    fn shrink(&self) -> (l: Lazy<Either<T, U>, Self::Prod>) {
        let mut l = Lazy::new();
        match self {
            Either::Left(x) => {
                let p = EitherProd::LeftSide(x.shrink());
                let ghost pend0 = l.pending@;
                l.push_thunk(p);
                proof {
                    Lazy::<Either<T, U>, Self::Prod>::lemma_thunk_fold(pend0, p);
                    assert(l.future() =~= Self::cands(self.model()));
                }
            },
            Either::Right(e) => {
                let p = EitherProd::RightSide(e.shrink());
                let ghost pend0 = l.pending@;
                l.push_thunk(p);
                proof {
                    Lazy::<Either<T, U>, Self::Prod>::lemma_thunk_fold(pend0, p);
                    assert(l.future() =~= Self::cands(self.model()));
                }
            },
        }
        l
    }
}

/// Wrap a shrunk inner value back into a full slot.
pub struct SlotMap;

impl<T: Model> MapFn<T, Slot<T>> for SlotMap {
    open spec fn fspec(a: T::M) -> Option<T::M> {
        Some(a)
    }

    fn apply(&self, a: T) -> (b: Slot<T>) {
        Slot(Some(a))
    }
}

impl<T: Shrink> Shrink for Slot<T> {
    type Prod = MapProd<T, T::Prod, SlotMap>;

    open spec fn size_of(m: Option<T::M>) -> nat {
        match m {
            None => 0,
            Some(x) => 1 + T::size_of(x),
        }
    }

    open spec fn cands(m: Option<T::M>) -> Seq<Option<T::M>> {
        match m {
            None => Seq::empty(),
            Some(x) => seq![None] + T::cands(x).map_values(|c: T::M| Some(c)),
        }
    }

    open spec fn sweight(m: Option<T::M>) -> nat {
        match m {
            None => 0,
            Some(x) => 4 + 2 * T::sweight(x),
        }
    }

    proof fn cands_smaller(m: Option<T::M>) {
        match m {
            None => {},
            Some(x) => {
                T::cands_smaller(x);
                assert forall|i: int| 0 <= i < Self::cands(m).len() implies Self::size_of(
                    #[trigger] Self::cands(m)[i],
                ) < Self::size_of(m) by {
                    if i > 0 {
                        assert(Self::cands(m)[i] == Some(T::cands(x)[i - 1]));
                    }
                }
            },
        }
    }

    fn shrink(&self) -> (l: Lazy<Slot<T>, Self::Prod>) {
        match &self.0 {
            None => {
                let l = Lazy::new();
                proof {
                    assert(l.future() =~= Self::cands(self.model()));
                }
                l
            },
            Some(x) => {
                let mut l = Lazy::new();
                l.push(Slot(None));
                l.push_map(x.shrink(), SlotMap);
                proof {
                    assert(l.vals() =~= seq![None::<T::M>]);
                    assert(l.future() =~= Self::cands(self.model()));
                }
                l
            },
        }
    }
}


/// Flatten a right-nested pair encoding back into a quadruple.
pub struct Flat4Map;

impl<A: Model, B: Model, C: Model, D: Model> MapFn<(A, (B, (C, D))), (A, B, C, D)> for Flat4Map {
    open spec fn fspec(a: (A::M, (B::M, (C::M, D::M)))) -> (A::M, B::M, C::M, D::M) {
        (a.0, a.1.0, a.1.1.0, a.1.1.1)
    }

    fn apply(&self, a: (A, (B, (C, D)))) -> (b: (A, B, C, D)) {
        let (x, (y, (z, w))) = a;
        (x, y, z, w)
    }
}

impl<A: Shrink, B: Shrink, C: Shrink, D: Shrink> Shrink for (A, B, C, D) {
    type Prod = MapProd<(A, (B, (C, D))), <(A, (B, (C, D))) as Shrink>::Prod, Flat4Map>;

    open spec fn size_of(m: (A::M, B::M, C::M, D::M)) -> nat {
        A::size_of(m.0) + B::size_of(m.1) + C::size_of(m.2) + D::size_of(m.3)
    }

    open spec fn cands(m: (A::M, B::M, C::M, D::M)) -> Seq<(A::M, B::M, C::M, D::M)> {
        <(A, (B, (C, D))) as Shrink>::cands((m.0, (m.1, (m.2, m.3)))).map_values(
            |n: (A::M, (B::M, (C::M, D::M)))| (n.0, n.1.0, n.1.1.0, n.1.1.1),
        )
    }

    open spec fn sweight(m: (A::M, B::M, C::M, D::M)) -> nat {
        3 + 2 * <(A, (B, (C, D))) as Shrink>::sweight((m.0, (m.1, (m.2, m.3))))
    }

    proof fn cands_smaller(m: (A::M, B::M, C::M, D::M)) {
        let nm = (m.0, (m.1, (m.2, m.3)));
        <(A, (B, (C, D))) as Shrink>::cands_smaller(nm);
        let nc = <(A, (B, (C, D))) as Shrink>::cands(nm);
        assert forall|i: int| 0 <= i < Self::cands(m).len() implies Self::size_of(
            #[trigger] Self::cands(m)[i],
        ) < Self::size_of(m) by {
            let n = nc[i];
            assert(Self::cands(m)[i] == (n.0, n.1.0, n.1.1.0, n.1.1.1));
            assert(<(A, (B, (C, D))) as Shrink>::size_of(n) < <(A, (B, (C, D))) as Shrink>::size_of(
                nm,
            ));
        }
    }

    fn shrink(&self) -> (l: Lazy<(A, B, C, D), Self::Prod>) {
        let nested = (self.0.dup(), (self.1.dup(), (self.2.dup(), self.3.dup())));
        let mut l = Lazy::new();
        l.push_map(nested.shrink(), Flat4Map);
        proof {
            assert(l.future() =~= Self::cands(self.model()));
        }
        l
    }
}

/// Flatten a right-nested pair encoding back into a quintuple.
pub struct Flat5Map;

impl<A: Model, B: Model, C: Model, D: Model, E: Model> MapFn<
    (A, (B, (C, (D, E)))),
    (A, B, C, D, E),
> for Flat5Map {
    open spec fn fspec(a: (A::M, (B::M, (C::M, (D::M, E::M))))) -> (A::M, B::M, C::M, D::M, E::M) {
        (a.0, a.1.0, a.1.1.0, a.1.1.1.0, a.1.1.1.1)
    }

    fn apply(&self, a: (A, (B, (C, (D, E))))) -> (b: (A, B, C, D, E)) {
        let (x, (y, (z, (w, v)))) = a;
        (x, y, z, w, v)
    }
}

impl<A: Shrink, B: Shrink, C: Shrink, D: Shrink, E: Shrink> Shrink for (A, B, C, D, E) {
    type Prod = MapProd<
        (A, (B, (C, (D, E)))),
        <(A, (B, (C, (D, E)))) as Shrink>::Prod,
        Flat5Map,
    >;

    open spec fn size_of(m: (A::M, B::M, C::M, D::M, E::M)) -> nat {
        A::size_of(m.0) + B::size_of(m.1) + C::size_of(m.2) + D::size_of(m.3) + E::size_of(m.4)
    }

    open spec fn cands(m: (A::M, B::M, C::M, D::M, E::M)) -> Seq<(A::M, B::M, C::M, D::M, E::M)> {
        <(A, (B, (C, (D, E)))) as Shrink>::cands((m.0, (m.1, (m.2, (m.3, m.4))))).map_values(
            |n: (A::M, (B::M, (C::M, (D::M, E::M))))| (n.0, n.1.0, n.1.1.0, n.1.1.1.0, n.1.1.1.1),
        )
    }

    open spec fn sweight(m: (A::M, B::M, C::M, D::M, E::M)) -> nat {
        3 + 2 * <(A, (B, (C, (D, E)))) as Shrink>::sweight((m.0, (m.1, (m.2, (m.3, m.4)))))
    }

    proof fn cands_smaller(m: (A::M, B::M, C::M, D::M, E::M)) {
        let nm = (m.0, (m.1, (m.2, (m.3, m.4))));
        <(A, (B, (C, (D, E)))) as Shrink>::cands_smaller(nm);
        let nc = <(A, (B, (C, (D, E)))) as Shrink>::cands(nm);
        assert forall|i: int| 0 <= i < Self::cands(m).len() implies Self::size_of(
            #[trigger] Self::cands(m)[i],
        ) < Self::size_of(m) by {
            let n = nc[i];
            assert(Self::cands(m)[i] == (n.0, n.1.0, n.1.1.0, n.1.1.1.0, n.1.1.1.1));
            assert(<(A, (B, (C, (D, E)))) as Shrink>::size_of(n) < <(A, (B, (C, (D, E)))) as Shrink>::size_of(
                nm,
            ));
        }
    }

    fn shrink(&self) -> (l: Lazy<(A, B, C, D, E), Self::Prod>) {
        let nested = (
            self.0.dup(),
            (self.1.dup(), (self.2.dup(), (self.3.dup(), self.4.dup()))),
        );
        let mut l = Lazy::new();
        l.push_map(nested.shrink(), Flat5Map);
        proof {
            assert(l.future() =~= Self::cands(self.model()));
        }
        l
    }
}

/// Flatten a right-nested pair encoding back into a sextuple.
pub struct Flat6Map;

impl<A: Model, B: Model, C: Model, D: Model, E: Model, F: Model> MapFn<
    (A, (B, (C, (D, (E, F))))),
    (A, B, C, D, E, F),
> for Flat6Map {
    open spec fn fspec(a: (A::M, (B::M, (C::M, (D::M, (E::M, F::M)))))) -> (
        A::M,
        B::M,
        C::M,
        D::M,
        E::M,
        F::M,
    ) {
        (a.0, a.1.0, a.1.1.0, a.1.1.1.0, a.1.1.1.1.0, a.1.1.1.1.1)
    }

    fn apply(&self, a: (A, (B, (C, (D, (E, F)))))) -> (b: (A, B, C, D, E, F)) {
        let (x, (y, (z, (w, (v, u))))) = a;
        (x, y, z, w, v, u)
    }
}

impl<A: Shrink, B: Shrink, C: Shrink, D: Shrink, E: Shrink, F: Shrink> Shrink for (
    A,
    B,
    C,
    D,
    E,
    F,
) {
    type Prod = MapProd<
        (A, (B, (C, (D, (E, F))))),
        <(A, (B, (C, (D, (E, F))))) as Shrink>::Prod,
        Flat6Map,
    >;

    open spec fn size_of(m: (A::M, B::M, C::M, D::M, E::M, F::M)) -> nat {
        A::size_of(m.0) + B::size_of(m.1) + C::size_of(m.2) + D::size_of(m.3) + E::size_of(m.4)
            + F::size_of(m.5)
    }

    open spec fn cands(m: (A::M, B::M, C::M, D::M, E::M, F::M)) -> Seq<
        (A::M, B::M, C::M, D::M, E::M, F::M),
    > {
        <(A, (B, (C, (D, (E, F))))) as Shrink>::cands(
            (m.0, (m.1, (m.2, (m.3, (m.4, m.5))))),
        ).map_values(
            |n: (A::M, (B::M, (C::M, (D::M, (E::M, F::M)))))|
                (n.0, n.1.0, n.1.1.0, n.1.1.1.0, n.1.1.1.1.0, n.1.1.1.1.1),
        )
    }

    open spec fn sweight(m: (A::M, B::M, C::M, D::M, E::M, F::M)) -> nat {
        3 + 2 * <(A, (B, (C, (D, (E, F))))) as Shrink>::sweight(
            (m.0, (m.1, (m.2, (m.3, (m.4, m.5))))),
        )
    }

    proof fn cands_smaller(m: (A::M, B::M, C::M, D::M, E::M, F::M)) {
        let nm = (m.0, (m.1, (m.2, (m.3, (m.4, m.5)))));
        <(A, (B, (C, (D, (E, F))))) as Shrink>::cands_smaller(nm);
        let nc = <(A, (B, (C, (D, (E, F))))) as Shrink>::cands(nm);
        assert forall|i: int| 0 <= i < Self::cands(m).len() implies Self::size_of(
            #[trigger] Self::cands(m)[i],
        ) < Self::size_of(m) by {
            let n = nc[i];
            assert(Self::cands(m)[i] == (n.0, n.1.0, n.1.1.0, n.1.1.1.0, n.1.1.1.1.0, n.1.1.1.1.1));
            assert(<(A, (B, (C, (D, (E, F))))) as Shrink>::size_of(n) < <(A, (B, (C, (D, (E, F))))) as Shrink>::size_of(
                nm,
            ));
        }
    }

    fn shrink(&self) -> (l: Lazy<(A, B, C, D, E, F), Self::Prod>) {
        let nested = (
            self.0.dup(),
            (self.1.dup(), (self.2.dup(), (self.3.dup(), (self.4.dup(), self.5.dup())))),
        );
        let mut l = Lazy::new();
        l.push_map(nested.shrink(), Flat6Map);
        proof {
            assert(l.future() =~= Self::cands(self.model()));
        }
        l
    }
}


/// For an option, the candidates of `Some` begin with `None`, and `None`
/// has no candidates at all.
pub proof fn lemma_option_shrink<T: Shrink>(x: T::M)
    ensures
        <Option<T> as Shrink>::cands(Some(x)).len() > 0,
        <Option<T> as Shrink>::cands(Some(x))[0] is None,
        <Option<T> as Shrink>::cands(None) == Seq::<Option<T::M>>::empty(),
{
    assert(<Option<T> as Shrink>::cands(Some(x))[0] == None::<T::M>);
}

proof fn lemma_removals_shorter<T: Shrink>(m: Seq<T::M>, i: int)
    requires
        0 <= i,
    ensures
        forall|idx: int|
            0 <= idx < seq_removals(m, i).len() ==> (#[trigger] seq_removals(m, i)[idx]).len()
                < m.len(),
    decreases (if i < m.len() {
        m.len() - i
    } else {
        0
    }),
{
    if 0 <= i < m.len() {
        lemma_removals_shorter::<T>(m, i + 1);
        assert forall|idx: int| 0 <= idx < seq_removals(m, i).len() implies (
        #[trigger] seq_removals(m, i)[idx]).len() < m.len() by {
            if idx == 0 {
                assert(seq_removals(m, i)[0] == m.remove(i));
            } else {
                assert(seq_removals(m, i)[idx] == seq_removals(m, i + 1)[idx - 1]);
            }
        }
    }
}

proof fn lemma_elems_same_len<T: Shrink>(m: Seq<T::M>, j: int)
    requires
        0 <= j,
    ensures
        forall|idx: int|
            0 <= idx < seq_elems::<T>(m, j).len() ==> (#[trigger] seq_elems::<T>(m, j)[idx]).len()
                == m.len(),
    decreases (if j < m.len() {
        m.len() - j
    } else {
        0
    }),
{
    if 0 <= j < m.len() {
        lemma_elems_same_len::<T>(m, j + 1);
        let firsts = T::cands(m[j]).map_values(|c: T::M| m.update(j, c));
        assert forall|idx: int| 0 <= idx < seq_elems::<T>(m, j).len() implies (
        #[trigger] seq_elems::<T>(m, j)[idx]).len() == m.len() by {
            if idx < firsts.len() {
                assert(seq_elems::<T>(m, j)[idx] == m.update(j, T::cands(m[j])[idx]));
            } else {
                assert(seq_elems::<T>(m, j)[idx] == seq_elems::<T>(m, j + 1)[idx - firsts.len()]);
            }
        }
    }
}

/// For a sequence, shrinking never yields a longer sequence, nor one
/// equal to the input element for element.
pub proof fn lemma_seq_shrink_no_longer<T: Shrink>(m: Seq<T::M>)
    ensures
        forall|i: int|
            0 <= i < <Vec<T> as Shrink>::cands(m).len() ==> (#[trigger] <Vec<T> as Shrink>::cands(
                m,
            )[i]).len() <= m.len(),
        forall|i: int|
            0 <= i < <Vec<T> as Shrink>::cands(m).len() ==> #[trigger] <Vec<T> as Shrink>::cands(
                m,
            )[i] != m,
{
    lemma_shrink_strict::<Vec<T>>(m);
    if m.len() > 0 {
        lemma_removals_shorter::<T>(m, 0);
        lemma_elems_same_len::<T>(m, 0);
        let h = seq_halves(m);
        let r = seq_removals(m, 0);
        let e = seq_elems::<T>(m, 0);
        assert forall|i: int| 0 <= i < <Vec<T> as Shrink>::cands(m).len() implies (
        #[trigger] <Vec<T> as Shrink>::cands(m)[i]).len() <= m.len() by {
            if i == 0 {
                assert(<Vec<T> as Shrink>::cands(m)[0] =~= Seq::<T::M>::empty());
            } else if i < 1 + h.len() {
                assert(<Vec<T> as Shrink>::cands(m)[i] == h[i - 1]);
                let mid = m.len() as int / 2;
                if i == 1 {
                    assert(h[0] == m.skip(mid));
                } else {
                    assert(h[1] == m.take(mid));
                }
            } else if i < 1 + h.len() + r.len() {
                assert(<Vec<T> as Shrink>::cands(m)[i] == r[i - 1 - h.len()]);
            } else {
                assert(<Vec<T> as Shrink>::cands(m)[i] == e[i - 1 - h.len() - r.len()]);
            }
        }
    }
}

/// For a pair, every shrink candidate differs from the original in
/// exactly one coordinate, and that coordinate is one of the shrink
/// candidates of the original coordinate.
pub proof fn lemma_pair_shrink_one_coord<A: Shrink, B: Shrink>(m: (A::M, B::M))
    ensures
        forall|i: int|
            0 <= i < <(A, B) as Shrink>::cands(m).len() ==> {
                let c = #[trigger] <(A, B) as Shrink>::cands(m)[i];
                ||| (c.0 != m.0 && c.1 == m.1 && A::cands(m.0).contains(c.0))
                ||| (c.0 == m.0 && c.1 != m.1 && B::cands(m.1).contains(c.1))
            },
{
    lemma_shrink_strict::<A>(m.0);
    lemma_shrink_strict::<B>(m.1);
    let n1 = A::cands(m.0).len() as int;
    assert forall|i: int| 0 <= i < <(A, B) as Shrink>::cands(m).len() implies {
        let c = #[trigger] <(A, B) as Shrink>::cands(m)[i];
        ||| (c.0 != m.0 && c.1 == m.1 && A::cands(m.0).contains(c.0))
        ||| (c.0 == m.0 && c.1 != m.1 && B::cands(m.1).contains(c.1))
    } by {
        if i < n1 {
            assert(<(A, B) as Shrink>::cands(m)[i] == (A::cands(m.0)[i], m.1));
            assert(A::cands(m.0).contains(A::cands(m.0)[i]));
        } else {
            assert(<(A, B) as Shrink>::cands(m)[i] == (m.0, B::cands(m.1)[i - n1]));
            assert(B::cands(m.1).contains(B::cands(m.1)[i - n1]));
        }
    }
}

/// For a triple, every shrink candidate differs from the original in
/// exactly one coordinate, and that coordinate is one of the shrink
/// candidates of the original coordinate.
pub proof fn lemma_triple_shrink_one_coord<A: Shrink, B: Shrink, C: Shrink>(m: (A::M, B::M, C::M))
    ensures
        forall|i: int|
            0 <= i < <(A, B, C) as Shrink>::cands(m).len() ==> {
                let c = #[trigger] <(A, B, C) as Shrink>::cands(m)[i];
                ||| (c.0 != m.0 && c.1 == m.1 && c.2 == m.2 && A::cands(m.0).contains(c.0))
                ||| (c.0 == m.0 && c.1 != m.1 && c.2 == m.2 && B::cands(m.1).contains(c.1))
                ||| (c.0 == m.0 && c.1 == m.1 && c.2 != m.2 && C::cands(m.2).contains(c.2))
            },
{
    lemma_shrink_strict::<A>(m.0);
    lemma_shrink_strict::<B>(m.1);
    lemma_shrink_strict::<C>(m.2);
    let n1 = A::cands(m.0).len() as int;
    let n2 = B::cands(m.1).len() as int;
    assert forall|i: int| 0 <= i < <(A, B, C) as Shrink>::cands(m).len() implies {
        let c = #[trigger] <(A, B, C) as Shrink>::cands(m)[i];
        ||| (c.0 != m.0 && c.1 == m.1 && c.2 == m.2 && A::cands(m.0).contains(c.0))
        ||| (c.0 == m.0 && c.1 != m.1 && c.2 == m.2 && B::cands(m.1).contains(c.1))
        ||| (c.0 == m.0 && c.1 == m.1 && c.2 != m.2 && C::cands(m.2).contains(c.2))
    } by {
        if i < n1 {
            assert(<(A, B, C) as Shrink>::cands(m)[i] == (A::cands(m.0)[i], m.1, m.2));
            assert(A::cands(m.0).contains(A::cands(m.0)[i]));
        } else if i < n1 + n2 {
            assert(<(A, B, C) as Shrink>::cands(m)[i] == (m.0, B::cands(m.1)[i - n1], m.2));
            assert(B::cands(m.1).contains(B::cands(m.1)[i - n1]));
        } else {
            assert(<(A, B, C) as Shrink>::cands(m)[i] == (m.0, m.1, C::cands(m.2)[i - n1 - n2]));
            assert(C::cands(m.2).contains(C::cands(m.2)[i - n1 - n2]));
        }
    }
}


impl Shrink for Unicode {
    type Prod = NoProd<Unicode>;

    open spec fn size_of(m: Seq<char>) -> nat {
        0
    }

    open spec fn cands(m: Seq<char>) -> Seq<Seq<char>> {
        Seq::empty()
    }

    open spec fn sweight(m: Seq<char>) -> nat {
        0
    }

    proof fn cands_smaller(m: Seq<char>) {
    }

    fn shrink(&self) -> (l: Lazy<Unicode, NoProd<Unicode>>) {
        Lazy::new()
    }
}


impl<T: Model> Shrink for NonEmpty<T> {
    type Prod = NoProd<NonEmpty<T>>;

    open spec fn size_of(m: Seq<T::M>) -> nat {
        0
    }

    open spec fn cands(m: Seq<T::M>) -> Seq<Seq<T::M>> {
        Seq::empty()
    }

    open spec fn sweight(m: Seq<T::M>) -> nat {
        0
    }

    proof fn cands_smaller(m: Seq<T::M>) {
    }

    fn shrink(&self) -> (l: Lazy<NonEmpty<T>, NoProd<NonEmpty<T>>>) {
        Lazy::new()
    }
}


/// For a quadruple, every shrink candidate differs from the original in
/// exactly one coordinate, and that coordinate is one of the shrink
/// candidates of the original coordinate.
pub proof fn lemma_quad_shrink_one_coord<A: Shrink, B: Shrink, C: Shrink, D: Shrink>(
    m: (A::M, B::M, C::M, D::M),
)
    ensures
        forall|i: int|
            0 <= i < <(A, B, C, D) as Shrink>::cands(m).len() ==> {
                let c = #[trigger] <(A, B, C, D) as Shrink>::cands(m)[i];
                ||| (c.0 != m.0 && c.1 == m.1 && c.2 == m.2 && c.3 == m.3 && A::cands(
                    m.0,
                ).contains(c.0))
                ||| (c.0 == m.0 && c.1 != m.1 && c.2 == m.2 && c.3 == m.3 && B::cands(
                    m.1,
                ).contains(c.1))
                ||| (c.0 == m.0 && c.1 == m.1 && c.2 != m.2 && c.3 == m.3 && C::cands(
                    m.2,
                ).contains(c.2))
                ||| (c.0 == m.0 && c.1 == m.1 && c.2 == m.2 && c.3 != m.3 && D::cands(
                    m.3,
                ).contains(c.3))
            },
{
    let nm = (m.0, (m.1, (m.2, m.3)));
    let nc = <(A, (B, (C, D))) as Shrink>::cands(nm);
    lemma_pair_shrink_one_coord::<A, (B, (C, D))>(nm);
    lemma_pair_shrink_one_coord::<B, (C, D)>(nm.1);
    lemma_pair_shrink_one_coord::<C, D>(nm.1.1);
    assert forall|i: int| 0 <= i < <(A, B, C, D) as Shrink>::cands(m).len() implies {
        let c = #[trigger] <(A, B, C, D) as Shrink>::cands(m)[i];
        ||| (c.0 != m.0 && c.1 == m.1 && c.2 == m.2 && c.3 == m.3 && A::cands(m.0).contains(c.0))
        ||| (c.0 == m.0 && c.1 != m.1 && c.2 == m.2 && c.3 == m.3 && B::cands(m.1).contains(c.1))
        ||| (c.0 == m.0 && c.1 == m.1 && c.2 != m.2 && c.3 == m.3 && C::cands(m.2).contains(c.2))
        ||| (c.0 == m.0 && c.1 == m.1 && c.2 == m.2 && c.3 != m.3 && D::cands(m.3).contains(c.3))
    } by {
        let n = nc[i];
        assert(<(A, B, C, D) as Shrink>::cands(m)[i] == (n.0, n.1.0, n.1.1.0, n.1.1.1));
        if n.0 == nm.0 {
            let bc = <(B, (C, D)) as Shrink>::cands(nm.1);
            assert(bc.contains(n.1));
            let j = choose|j: int| 0 <= j < bc.len() && bc[j] == n.1;
            assert(bc[j] == n.1);
            if n.1.0 == nm.1.0 {
                let cc = <(C, D) as Shrink>::cands(nm.1.1);
                assert(cc.contains(n.1.1));
                let j2 = choose|j2: int| 0 <= j2 < cc.len() && cc[j2] == n.1.1;
                assert(cc[j2] == n.1.1);
            }
        }
    }
}

/// For a quintuple, every shrink candidate differs from the original in
/// exactly one coordinate, and that coordinate is one of the shrink
/// candidates of the original coordinate.
pub proof fn lemma_quint_shrink_one_coord<A: Shrink, B: Shrink, C: Shrink, D: Shrink, E: Shrink>(
    m: (A::M, B::M, C::M, D::M, E::M),
)
    ensures
        forall|i: int|
            0 <= i < <(A, B, C, D, E) as Shrink>::cands(m).len() ==> {
                let c = #[trigger] <(A, B, C, D, E) as Shrink>::cands(m)[i];
                ||| (c.0 != m.0 && c.1 == m.1 && c.2 == m.2 && c.3 == m.3 && c.4 == m.4
                    && A::cands(m.0).contains(c.0))
                ||| (c.0 == m.0 && c.1 != m.1 && c.2 == m.2 && c.3 == m.3 && c.4 == m.4
                    && B::cands(m.1).contains(c.1))
                ||| (c.0 == m.0 && c.1 == m.1 && c.2 != m.2 && c.3 == m.3 && c.4 == m.4
                    && C::cands(m.2).contains(c.2))
                ||| (c.0 == m.0 && c.1 == m.1 && c.2 == m.2 && c.3 != m.3 && c.4 == m.4
                    && D::cands(m.3).contains(c.3))
                ||| (c.0 == m.0 && c.1 == m.1 && c.2 == m.2 && c.3 == m.3 && c.4 != m.4
                    && E::cands(m.4).contains(c.4))
            },
{
    let nm = (m.0, (m.1, (m.2, (m.3, m.4))));
    let nc = <(A, (B, (C, (D, E)))) as Shrink>::cands(nm);
    lemma_pair_shrink_one_coord::<A, (B, (C, (D, E)))>(nm);
    lemma_pair_shrink_one_coord::<B, (C, (D, E))>(nm.1);
    lemma_pair_shrink_one_coord::<C, (D, E)>(nm.1.1);
    lemma_pair_shrink_one_coord::<D, E>(nm.1.1.1);
    assert forall|i: int| 0 <= i < <(A, B, C, D, E) as Shrink>::cands(m).len() implies {
        let c = #[trigger] <(A, B, C, D, E) as Shrink>::cands(m)[i];
        ||| (c.0 != m.0 && c.1 == m.1 && c.2 == m.2 && c.3 == m.3 && c.4 == m.4 && A::cands(
            m.0,
        ).contains(c.0))
        ||| (c.0 == m.0 && c.1 != m.1 && c.2 == m.2 && c.3 == m.3 && c.4 == m.4 && B::cands(
            m.1,
        ).contains(c.1))
        ||| (c.0 == m.0 && c.1 == m.1 && c.2 != m.2 && c.3 == m.3 && c.4 == m.4 && C::cands(
            m.2,
        ).contains(c.2))
        ||| (c.0 == m.0 && c.1 == m.1 && c.2 == m.2 && c.3 != m.3 && c.4 == m.4 && D::cands(
            m.3,
        ).contains(c.3))
        ||| (c.0 == m.0 && c.1 == m.1 && c.2 == m.2 && c.3 == m.3 && c.4 != m.4 && E::cands(
            m.4,
        ).contains(c.4))
    } by {
        let n = nc[i];
        assert(<(A, B, C, D, E) as Shrink>::cands(m)[i] == (
            n.0,
            n.1.0,
            n.1.1.0,
            n.1.1.1.0,
            n.1.1.1.1,
        ));
        if n.0 == nm.0 {
            let bc = <(B, (C, (D, E))) as Shrink>::cands(nm.1);
            assert(bc.contains(n.1));
            let j = choose|j: int| 0 <= j < bc.len() && bc[j] == n.1;
            assert(bc[j] == n.1);
            if n.1.0 == nm.1.0 {
                let cc = <(C, (D, E)) as Shrink>::cands(nm.1.1);
                assert(cc.contains(n.1.1));
                let j2 = choose|j2: int| 0 <= j2 < cc.len() && cc[j2] == n.1.1;
                assert(cc[j2] == n.1.1);
                if n.1.1.0 == nm.1.1.0 {
                    let dc = <(D, E) as Shrink>::cands(nm.1.1.1);
                    assert(dc.contains(n.1.1.1));
                    let j3 = choose|j3: int| 0 <= j3 < dc.len() && dc[j3] == n.1.1.1;
                    assert(dc[j3] == n.1.1.1);
                }
            }
        }
    }
}

/// For a sextuple, every shrink candidate differs from the original in
/// exactly one coordinate, and that coordinate is one of the shrink
/// candidates of the original coordinate.
pub proof fn lemma_sext_shrink_one_coord<
    A: Shrink,
    B: Shrink,
    C: Shrink,
    D: Shrink,
    E: Shrink,
    F: Shrink,
>(m: (A::M, B::M, C::M, D::M, E::M, F::M))
    ensures
        forall|i: int|
            0 <= i < <(A, B, C, D, E, F) as Shrink>::cands(m).len() ==> {
                let c = #[trigger] <(A, B, C, D, E, F) as Shrink>::cands(m)[i];
                ||| (c.0 != m.0 && c.1 == m.1 && c.2 == m.2 && c.3 == m.3 && c.4 == m.4 && c.5
                    == m.5 && A::cands(m.0).contains(c.0))
                ||| (c.0 == m.0 && c.1 != m.1 && c.2 == m.2 && c.3 == m.3 && c.4 == m.4 && c.5
                    == m.5 && B::cands(m.1).contains(c.1))
                ||| (c.0 == m.0 && c.1 == m.1 && c.2 != m.2 && c.3 == m.3 && c.4 == m.4 && c.5
                    == m.5 && C::cands(m.2).contains(c.2))
                ||| (c.0 == m.0 && c.1 == m.1 && c.2 == m.2 && c.3 != m.3 && c.4 == m.4 && c.5
                    == m.5 && D::cands(m.3).contains(c.3))
                ||| (c.0 == m.0 && c.1 == m.1 && c.2 == m.2 && c.3 == m.3 && c.4 != m.4 && c.5
                    == m.5 && E::cands(m.4).contains(c.4))
                ||| (c.0 == m.0 && c.1 == m.1 && c.2 == m.2 && c.3 == m.3 && c.4 == m.4 && c.5
                    != m.5 && F::cands(m.5).contains(c.5))
            },
{
    let nm = (m.0, (m.1, (m.2, (m.3, (m.4, m.5)))));
    let nc = <(A, (B, (C, (D, (E, F))))) as Shrink>::cands(nm);
    lemma_pair_shrink_one_coord::<A, (B, (C, (D, (E, F))))>(nm);
    lemma_pair_shrink_one_coord::<B, (C, (D, (E, F)))>(nm.1);
    lemma_pair_shrink_one_coord::<C, (D, (E, F))>(nm.1.1);
    lemma_pair_shrink_one_coord::<D, (E, F)>(nm.1.1.1);
    lemma_pair_shrink_one_coord::<E, F>(nm.1.1.1.1);
    assert forall|i: int| 0 <= i < <(A, B, C, D, E, F) as Shrink>::cands(m).len() implies {
        let c = #[trigger] <(A, B, C, D, E, F) as Shrink>::cands(m)[i];
        ||| (c.0 != m.0 && c.1 == m.1 && c.2 == m.2 && c.3 == m.3 && c.4 == m.4 && c.5 == m.5
            && A::cands(m.0).contains(c.0))
        ||| (c.0 == m.0 && c.1 != m.1 && c.2 == m.2 && c.3 == m.3 && c.4 == m.4 && c.5 == m.5
            && B::cands(m.1).contains(c.1))
        ||| (c.0 == m.0 && c.1 == m.1 && c.2 != m.2 && c.3 == m.3 && c.4 == m.4 && c.5 == m.5
            && C::cands(m.2).contains(c.2))
        ||| (c.0 == m.0 && c.1 == m.1 && c.2 == m.2 && c.3 != m.3 && c.4 == m.4 && c.5 == m.5
            && D::cands(m.3).contains(c.3))
        ||| (c.0 == m.0 && c.1 == m.1 && c.2 == m.2 && c.3 == m.3 && c.4 != m.4 && c.5 == m.5
            && E::cands(m.4).contains(c.4))
        ||| (c.0 == m.0 && c.1 == m.1 && c.2 == m.2 && c.3 == m.3 && c.4 == m.4 && c.5 != m.5
            && F::cands(m.5).contains(c.5))
    } by {
        let n = nc[i];
        assert(<(A, B, C, D, E, F) as Shrink>::cands(m)[i] == (
            n.0,
            n.1.0,
            n.1.1.0,
            n.1.1.1.0,
            n.1.1.1.1.0,
            n.1.1.1.1.1,
        ));
        if n.0 == nm.0 {
            let bc = <(B, (C, (D, (E, F)))) as Shrink>::cands(nm.1);
            assert(bc.contains(n.1));
            let j = choose|j: int| 0 <= j < bc.len() && bc[j] == n.1;
            assert(bc[j] == n.1);
            if n.1.0 == nm.1.0 {
                let cc = <(C, (D, (E, F))) as Shrink>::cands(nm.1.1);
                assert(cc.contains(n.1.1));
                let j2 = choose|j2: int| 0 <= j2 < cc.len() && cc[j2] == n.1.1;
                assert(cc[j2] == n.1.1);
                if n.1.1.0 == nm.1.1.0 {
                    let dc = <(D, (E, F)) as Shrink>::cands(nm.1.1.1);
                    assert(dc.contains(n.1.1.1));
                    let j3 = choose|j3: int| 0 <= j3 < dc.len() && dc[j3] == n.1.1.1;
                    assert(dc[j3] == n.1.1.1);
                    if n.1.1.1.0 == nm.1.1.1.0 {
                        let ec = <(E, F) as Shrink>::cands(nm.1.1.1.1);
                        assert(ec.contains(n.1.1.1.1));
                        let j4 = choose|j4: int| 0 <= j4 < ec.len() && ec[j4] == n.1.1.1.1;
                        assert(ec[j4] == n.1.1.1.1);
                    }
                }
            }
        }
    }
}

} // verus!
