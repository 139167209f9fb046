//! A lazily produced sequence, only traversable once.
//!
//! A [`Lazy`] stream holds a queue of already materialised values (`head`)
//! and a FIFO of suspended *producers* (`pending`).  Pulling with
//! [`Lazy::next`] pops the first value; when none is materialised it runs
//! queued producers, each of which may append values and enqueue further
//! producers, until a value appears or everything is exhausted.
//!
//! A producer carries its environment by value, so a stream never borrows
//! from the value whose shrink candidates it yields.  The exact sequence a
//! stream will deliver is its [`Lazy::future`]; every operation states how
//! it changes that sequence.  The [`Producer::weight`] bookkeeping bounds
//! how much work a producer can still enqueue, which is what makes
//! traversal terminate.

use crate::model::Model;
use vstd::prelude::*;

verus! {

/// A suspended computation that, when run, may append values and further
/// producers to the stream it is queued on.
///
/// `produces` is the exact sequence of value models the producer will
/// contribute to the stream, counting everything contributed in turn by
/// the producers it enqueues.  `weight` bounds the stream bookkeeping the
/// producer may add when run, which is what makes traversal terminate.
///
/// `seq_produces` and `seq_weight` fold `produces` and `weight` over a
/// whole queue; every implementation defines them by the same recursion,
/// as `seq_laws` demands.
pub trait Producer<T: Model>: Sized {
    /// Bound on the stream measure this producer may add when run.
    spec fn weight(&self) -> nat;

    /// The exact sequence of value models this producer contributes.
    spec fn produces(&self) -> Seq<T::M>;

    /// Everything the queue `s` will contribute, in order.
    spec fn seq_produces(s: Seq<Self>) -> Seq<T::M>;

    /// Total bookkeeping weight of the queue `s`.
    spec fn seq_weight(s: Seq<Self>) -> nat;

    /// The folds over a queue unfold one producer at a time.
    proof fn seq_laws(s: Seq<Self>)
        ensures
            s.len() == 0 ==> Self::seq_produces(s) == Seq::<T::M>::empty(),
            s.len() == 0 ==> Self::seq_weight(s) == 0,
            s.len() > 0 ==> Self::seq_produces(s) == s[0].produces() + Self::seq_produces(
                s.drop_first(),
            ),
            s.len() > 0 ==> Self::seq_weight(s) == 1 + s[0].weight() + Self::seq_weight(
                s.drop_first(),
            ),
    ;

    /// Run the producer on the stream it was queued on.  The producer has
    /// already been dequeued; it prepends its contribution to whatever the
    /// rest of the stream will deliver, and adds at most `weight` to the
    /// stream measure.
    fn eval(self, l: &mut Lazy<T, Self>)
        requires
            old(l).head@.len() == 0,
        ensures
            final(l).head@.map_values(|x: T| x.model()) + Self::seq_produces(final(l).pending@)
                == self.produces() + Self::seq_produces(old(l).pending@),
            final(l).head@.len() + Self::seq_weight(final(l).pending@) <= Self::seq_weight(
                old(l).pending@,
            ) + self.weight(),
    ;
}

/// Lazily generated sequence, only traversable once.
///
/// The fields are exposed so that producer contracts can speak about the
/// stream state; outside of producer implementations the stream is meant
/// to be used only through the methods below.
pub struct Lazy<T: Model, P> {
    /// Values already materialised, delivered front first.
    pub head: Vec<T>,
    /// Suspended producers, run front first once `head` is empty.
    pub pending: Vec<P>,
}

impl<T: Model, P> Lazy<T, P> {
    /// Models of the already materialised values.
    pub open spec fn vals(&self) -> Seq<T::M> {
        self.head@.map_values(|x: T| x.model())
    }

    /// Append a value to the end of the materialised values.  It will be
    /// delivered after them and before anything a queued producer yields.
    pub fn push(&mut self, x: T)
        ensures
            final(self).vals() == old(self).vals().push(x.model()),
            final(self).head@ == old(self).head@.push(x),
            final(self).pending == old(self).pending,
    {
        let ghost xm = x.model();
        self.head.push(x);
        proof {
            assert(self.vals() =~= old(self).vals().push(xm));
        }
    }

    /// Enqueue a producer at the back: its contribution comes after every
    /// materialised value and after everything already queued.
    pub fn push_thunk(&mut self, p: P)
        ensures
            final(self).head@ == old(self).head@,
            final(self).pending@ == old(self).pending@.push(p),
    {
        self.pending.push(p);
    }

    /// Enqueue a producer at the front: its contribution comes before
    /// everything already queued, though still after the materialised
    /// values.  A running producer uses this to re-arm its continuation.
    pub fn requeue(&mut self, p: P)
        ensures
            final(self).head@ == old(self).head@,
            final(self).pending@ == old(self).pending@.insert(0, p),
    {
        self.pending.insert(0, p);
    }
}

impl<T: Model, P: Producer<T>> Lazy<T, P> {
    /// Models of everything the queued producers will contribute.
    pub open spec fn queued(&self) -> Seq<T::M> {
        P::seq_produces(self.pending@)
    }

    /// The exact sequence of value models this stream will deliver.
    pub open spec fn future(&self) -> Seq<T::M> {
        self.vals() + self.queued()
    }

    /// Bookkeeping measure: strictly decreases on every successful pull.
    pub open spec fn measure(&self) -> nat {
        self.head@.len() + P::seq_weight(self.pending@)
    }

    /// An empty stream.
    pub fn new() -> (l: Self)
        ensures
            l.vals() == Seq::<T::M>::empty(),
            l.queued() == Seq::<T::M>::empty(),
            l.measure() == 0,
    {
        let l = Lazy { head: Vec::new(), pending: Vec::new() };
        proof {
            assert(l.vals() =~= Seq::<T::M>::empty());
            P::seq_laws(l.pending@);
        }
        l
    }

    /// A stream that will deliver exactly the elements of `v`.
    pub fn new_from(v: Vec<T>) -> (l: Self)
        ensures
            l.vals() == v.model(),
            l.queued() == Seq::<T::M>::empty(),
            l.measure() == v@.len(),
    {
        let l = Lazy { head: v, pending: Vec::new() };
        proof {
            P::seq_laws(l.pending@);
        }
        l
    }

    /// How [`Lazy::push_thunk`] extends the queued contribution.
    pub proof fn lemma_thunk_fold(s: Seq<P>, p: P)
        ensures
            P::seq_produces(s.push(p)) == P::seq_produces(s) + p.produces(),
            P::seq_weight(s.push(p)) == P::seq_weight(s) + 1 + p.weight(),
        decreases s.len(),
    {
        P::seq_laws(s.push(p));
        P::seq_laws(s);
        if s.len() == 0 {
            assert(s.push(p)[0] == p);
            assert(s.push(p).drop_first() =~= Seq::<P>::empty());
            P::seq_laws(Seq::<P>::empty());
            assert(P::seq_produces(s.push(p)) =~= P::seq_produces(s) + p.produces());
        } else {
            assert(s.push(p).drop_first() =~= s.drop_first().push(p));
            Self::lemma_thunk_fold(s.drop_first(), p);
            assert(P::seq_produces(s.push(p)) =~= P::seq_produces(s) + p.produces());
        }
    }

    /// Build a stream inside a builder scope: the builder receives an
    /// empty stream, appends to it, and the result is returned by move.
    pub fn create<F: FnOnce(Self) -> Self>(f: F) -> (l: Self)
        requires
            forall|l0: Self|
                (l0.vals() == Seq::<T::M>::empty() && l0.queued() == Seq::<T::M>::empty()
                    && l0.measure() == 0) ==> #[trigger] call_requires(f, (l0,)),
        ensures
            exists|l0: Self|
                l0.future() == Seq::<T::M>::empty() && #[trigger] call_ensures(f, (l0,), l),
    {
        let l0 = Self::new();
        let ghost g0 = l0;
        let l = f(l0);
        proof {
            assert(g0.future() =~= Seq::<T::M>::empty());
            assert(call_ensures(f, (g0,), l));
        }
        l
    }

    /// Pull the next value, running queued producers as needed.  Returns
    /// `None` exactly when the stream has nothing left to deliver; pulling
    /// after exhaustion keeps returning `None`.
    pub fn next(&mut self) -> (r: Option<T>)
        ensures
            match r {
                None => {
                    &&& old(self).future().len() == 0
                    &&& final(self).future().len() == 0
                    &&& final(self).measure() <= old(self).measure()
                },
                Some(x) => {
                    &&& old(self).future().len() > 0
                    &&& x.model() == old(self).future()[0]
                    &&& final(self).future() == old(self).future().drop_first()
                    &&& final(self).measure() < old(self).measure()
                },
            },
    {
        let ghost f0 = self.future();
        let ghost m0 = self.measure();
        while self.head.len() == 0 && self.pending.len() > 0
            invariant
                self.future() == f0,
                self.measure() <= m0,
            decreases self.measure(),
        {
            let ghost pend_pre = self.pending@;
            let ghost mpre = self.measure();
            let p = self.pending.remove(0);
            proof {
                assert(self.pending@ =~= pend_pre.drop_first());
                assert(self.vals() =~= Seq::<T::M>::empty());
                P::seq_laws(pend_pre);
                assert(Seq::<T::M>::empty() + self.queued() =~= self.queued());
                assert(f0 =~= p.produces() + self.queued());
            }
            let ghost qmid = self.queued();
            let ghost mmid = self.measure();
            p.eval(self);
            proof {
                assert(self.future() == p.produces() + qmid);
                assert(self.measure() <= mmid + p.weight());
                assert(mmid + p.weight() < mpre);
            }
        }
        if self.head.len() > 0 {
            let ghost vals_pre = self.vals();
            let ghost queued_pre = self.queued();
            let x = self.head.remove(0);
            proof {
                assert(self.vals() =~= vals_pre.drop_first());
                assert(self.queued() == queued_pre);
                assert(self.future() =~= f0.drop_first());
                assert(x.model() == f0[0]);
            }
            Some(x)
        } else {
            proof {
                P::seq_laws(self.pending@);
            }
            None
        }
    }
}

/// A pure mapping from `A` to `B`, given as a named type so that a
/// producer can carry it by value and contracts can speak about it.
pub trait MapFn<A: Model, B: Model>: Sized {
    /// What the mapping does, on models.
    spec fn fspec(a: A::M) -> B::M;

    /// Apply the mapping.
    fn apply(&self, a: A) -> (b: B)
        ensures
            b.model() == Self::fspec(a.model()),
    ;
}

/// A pure mapping from `A` to `B` that reads an environment `E`.
pub trait MapEnvFn<A: Model, E: Model, B: Model>: Sized {
    /// What the mapping does, on models.
    spec fn fspec(e: E::M, a: A::M) -> B::M;

    /// Apply the mapping.
    fn apply(&self, a: A, e: &E) -> (b: B)
        ensures
            b.model() == Self::fspec(e.model(), a.model()),
    ;
}

/// Producer behind [`Lazy::push_map`]: each run pulls one element from
/// its source stream, pushes the mapped value, and re-arms itself.
pub struct MapProd<A: Model, PA: Producer<A>, F> {
    /// The source stream, owned by the producer.
    pub it: Lazy<A, PA>,
    /// The mapping.
    pub f: F,
}

impl<A: Model, PA: Producer<A>, B: Model, F: MapFn<A, B>> Producer<B> for MapProd<A, PA, F> {
    open spec fn weight(&self) -> nat {
        2 + 2 * self.it.measure()
    }

    open spec fn produces(&self) -> Seq<B::M> {
        self.it.future().map_values(|a: A::M| F::fspec(a))
    }

    open spec fn seq_produces(s: Seq<Self>) -> Seq<B::M>
        decreases s.len(),
    {
        if s.len() == 0 {
            Seq::empty()
        } else {
            s[0].produces() + Self::seq_produces(s.drop_first())
        }
    }

    open spec fn seq_weight(s: Seq<Self>) -> nat
        decreases s.len(),
    {
        if s.len() == 0 {
            0
        } else {
            1 + s[0].weight() + Self::seq_weight(s.drop_first())
        }
    }

    proof fn seq_laws(s: Seq<Self>) {
    }

    fn eval(self, l: &mut Lazy<B, Self>) {
        let ghost sf = self.it.future();
        let ghost pend0 = l.pending@;
        let MapProd { mut it, f } = self;
        match it.next() {
            None => {
                proof {
                    assert(self.produces() =~= Seq::<B::M>::empty());
                    assert(l.head@.map_values(|x: B| x.model()) + Self::seq_produces(l.pending@)
                        =~= self.produces() + Self::seq_produces(pend0));
                }
            },
            Some(a) => {
                let b = f.apply(a);
                l.push(b);
                let p2 = MapProd { it, f };
                l.requeue(p2);
                proof {
                    Self::seq_laws(l.pending@);
                    assert(l.pending@.drop_first() =~= pend0);
                    assert(l.head@.map_values(|x: B| x.model()) =~= seq![F::fspec(sf[0])]);
                    assert(p2.produces() =~= sf.drop_first().map_values(|am: A::M| F::fspec(am)));
                    assert(self.produces() =~= seq![F::fspec(sf[0])] + p2.produces());
                    assert(l.head@.map_values(|x: B| x.model()) + Self::seq_produces(l.pending@)
                        =~= self.produces() + Self::seq_produces(pend0));
                }
            },
        }
    }
}

/// Producer behind [`Lazy::push_map_env`]: like [`MapProd`], with an
/// environment handed to the mapping at each element.
pub struct MapEnvProd<A: Model, PA: Producer<A>, E, F> {
    /// The source stream, owned by the producer.
    pub it: Lazy<A, PA>,
    /// The environment handed to the mapping.
    pub env: E,
    /// The mapping.
    pub f: F,
}

impl<A: Model, PA: Producer<A>, E: Model, B: Model, F: MapEnvFn<A, E, B>> Producer<B> for MapEnvProd<
    A,
    PA,
    E,
    F,
> {
    open spec fn weight(&self) -> nat {
        2 + 2 * self.it.measure()
    }

    open spec fn produces(&self) -> Seq<B::M> {
        let em = self.env.model();
        self.it.future().map_values(|a: A::M| F::fspec(em, a))
    }

    open spec fn seq_produces(s: Seq<Self>) -> Seq<B::M>
        decreases s.len(),
    {
        if s.len() == 0 {
            Seq::empty()
        } else {
            s[0].produces() + Self::seq_produces(s.drop_first())
        }
    }

    open spec fn seq_weight(s: Seq<Self>) -> nat
        decreases s.len(),
    {
        if s.len() == 0 {
            0
        } else {
            1 + s[0].weight() + Self::seq_weight(s.drop_first())
        }
    }

    proof fn seq_laws(s: Seq<Self>) {
    }

    fn eval(self, l: &mut Lazy<B, Self>) {
        let ghost sf = self.it.future();
        let ghost em = self.env.model();
        let ghost pend0 = l.pending@;
        let MapEnvProd { mut it, env, f } = self;
        match it.next() {
            None => {
                proof {
                    assert(self.produces() =~= Seq::<B::M>::empty());
                    assert(l.head@.map_values(|x: B| x.model()) + Self::seq_produces(l.pending@)
                        =~= self.produces() + Self::seq_produces(pend0));
                }
            },
            Some(a) => {
                let b = f.apply(a, &env);
                l.push(b);
                let p2 = MapEnvProd { it, env, f };
                l.requeue(p2);
                proof {
                    Self::seq_laws(l.pending@);
                    assert(l.pending@.drop_first() =~= pend0);
                    assert(l.head@.map_values(|x: B| x.model()) =~= seq![F::fspec(em, sf[0])]);
                    assert(p2.produces() =~= sf.drop_first().map_values(
                        |am: A::M| F::fspec(em, am),
                    ));
                    assert(self.produces() =~= seq![F::fspec(em, sf[0])] + p2.produces());
                    assert(l.head@.map_values(|x: B| x.model()) + Self::seq_produces(l.pending@)
                        =~= self.produces() + Self::seq_produces(pend0));
                }
            },
        }
    }
}

impl<A: Model, PA: Producer<A>, B: Model, F: MapFn<A, B>> Lazy<B, MapProd<A, PA, F>> {
    /// Lazily map the stream `it` through `f`, appending the results:
    /// one element of `it` is pulled per element delivered here.
    pub fn push_map(&mut self, it: Lazy<A, PA>, f: F)
        ensures
            final(self).vals() == old(self).vals(),
            final(self).queued() == old(self).queued() + it.future().map_values(
                |a: A::M| F::fspec(a),
            ),
            final(self).measure() == old(self).measure() + 3 + 2 * it.measure(),
    {
        let ghost itf = it.future();
        let ghost itm = it.measure();
        let p = MapProd { it, f };
        self.push_thunk(p);
        proof {
            Self::lemma_thunk_fold(old(self).pending@, p);
        }
    }
}

impl<A: Model, PA: Producer<A>, E: Model, B: Model, F: MapEnvFn<A, E, B>> Lazy<
    B,
    MapEnvProd<A, PA, E, F>,
> {
    /// Lazily map the stream `it` through `f`, handing `env` to the
    /// mapping at each element.
    pub fn push_map_env(&mut self, it: Lazy<A, PA>, env: E, f: F)
        ensures
            final(self).vals() == old(self).vals(),
            final(self).queued() == old(self).queued() + ({
                let em = env.model();
                it.future().map_values(|a: A::M| F::fspec(em, a))
            }),
            final(self).measure() == old(self).measure() + 3 + 2 * it.measure(),
    {
        let ghost itf = it.future();
        let ghost itm = it.measure();
        let p = MapEnvProd { it, env, f };
        self.push_thunk(p);
        proof {
            Self::lemma_thunk_fold(old(self).pending@, p);
        }
    }
}

/// An example producer delivering the elements of a vector one at a
/// time: each run pushes the first remaining element and re-arms itself
/// with the rest.
pub struct Trickle<T: Model> {
    /// The elements not yet delivered.
    pub items: Vec<T>,
}

impl<T: Model> Producer<T> for Trickle<T> {
    open spec fn weight(&self) -> nat {
        2 * self.items@.len()
    }

    open spec fn produces(&self) -> Seq<T::M> {
        self.items.model()
    }

    open spec fn seq_produces(s: Seq<Self>) -> Seq<T::M>
        decreases s.len(),
    {
        if s.len() == 0 {
            Seq::empty()
        } else {
            s[0].produces() + Self::seq_produces(s.drop_first())
        }
    }

    open spec fn seq_weight(s: Seq<Self>) -> nat
        decreases s.len(),
    {
        if s.len() == 0 {
            0
        } else {
            1 + s[0].weight() + Self::seq_weight(s.drop_first())
        }
    }

    proof fn seq_laws(s: Seq<Self>) {
    }

    fn eval(self, l: &mut Lazy<T, Self>) {
        let ghost pend0 = l.pending@;
        let Trickle { mut items } = self;
        if items.len() > 0 {
            let x = items.remove(0);
            let ghost xm = x.model();
            l.push(x);
            let p2 = Trickle { items };
            l.requeue(p2);
            proof {
                Self::seq_laws(l.pending@);
                assert(l.pending@.drop_first() =~= pend0);
                assert(l.head@.map_values(|y: T| y.model()) =~= seq![xm]);
                assert(p2.produces() =~= self.items@.drop_first().map_values(|y: T| y.model()));
                assert(self.produces() =~= seq![xm] + p2.produces());
                assert(l.head@.map_values(|y: T| y.model()) + Self::seq_produces(l.pending@)
                    =~= self.produces() + Self::seq_produces(pend0));
            }
        } else {
            proof {
                assert(self.produces() =~= Seq::<T::M>::empty());
                assert(l.head@.map_values(|y: T| y.model()) + Self::seq_produces(l.pending@)
                    =~= self.produces() + Self::seq_produces(pend0));
            }
        }
    }
}


/// An example mapping that pairs each element with the environment.
pub struct PairMap;

impl<A: Model, E: Model> MapEnvFn<A, E, (A, E)> for PairMap {
    open spec fn fspec(e: E::M, a: A::M) -> (A::M, E::M) {
        (a, e)
    }

    fn apply(&self, a: A, e: &E) -> (b: (A, E)) {
        (a, e.dup())
    }
}

} // verus!
