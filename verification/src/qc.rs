//! The runner: drive trials, detect falsification, minimise greedily.
//!
//! `quick_check` repeatedly draws a value of growing size and applies the
//! property; on the first counterexample it calls `quick_shrink`, which
//! walks the candidate stream of the current witness and restarts from
//! the first candidate that also fails, until no failing candidate
//! remains.  What the runner returns is pinned down relationally: a pass
//! comes with a sequence of values the property accepted, a failure with
//! a witness the property rejected and whose every shrink candidate it
//! accepted.

use crate::arbitrary::{Arbitrary, SmallN};
use crate::lazy::{Lazy, MapFn, MapProd, Producer};
use crate::model::Model;
use crate::rng::Rng;
use crate::shrink::{usize_cands, NoProd, Shrink};
use vstd::prelude::*;

verus! {

/// Immutable knobs for a run of the engine.
#[derive(Clone, Copy, PartialEq, Eq, Structural, Debug)]
pub struct QConfig {
    /// Number of generate-and-check trials before success.
    pub trials: usize,
    /// Base size parameter.
    pub size: usize,
    /// Whether a run reports progress; the engine itself never prints.
    pub verbose: bool,
    /// Whether the size grows as trials proceed.
    pub grow: bool,
}

impl Default for QConfig {
    /// The default knobs: fifty trials of base size eight, growing,
    /// quiet.
    fn default() -> (r: QConfig)
        ensures
            r == (QConfig { trials: 50, size: 8, verbose: false, grow: true }),
    {
        QConfig { trials: 50, size: 8, verbose: false, grow: true }
    }
}

impl QConfig {
    /// Set the size factor.
    pub fn size(self, x: usize) -> (r: QConfig)
        ensures
            r == (QConfig { size: x, ..self }),
    {
        QConfig { size: x, ..self }
    }

    /// Set the number of trials.
    pub fn trials(self, x: usize) -> (r: QConfig)
        ensures
            r == (QConfig { trials: x, ..self }),
    {
        QConfig { trials: x, ..self }
    }

    /// Set whether the size factor gradually increases.
    pub fn grow(self, x: bool) -> (r: QConfig)
        ensures
            r == (QConfig { grow: x, ..self }),
    {
        QConfig { grow: x, ..self }
    }

    /// Set verbosity.
    pub fn verbose(self, x: bool) -> (r: QConfig)
        ensures
            r == (QConfig { verbose: x, ..self }),
    {
        QConfig { verbose: x, ..self }
    }
}

/// The size passed to generation on trial `i`: the base size, plus an
/// eighth of the trial index when growth is on, saturating at the
/// machine limit.
pub open spec fn trial_size(cfg: QConfig, i: nat) -> nat {
    if cfg.grow {
        if cfg.size + i / 8 <= usize::MAX {
            (cfg.size + i / 8) as nat
        } else {
            usize::MAX as nat
        }
    } else {
        cfg.size as nat
    }
}

/// When growth is on, the size argument to generation is non-decreasing
/// across trials; without growth it is constant.  Either way a later
/// trial never sees a smaller size.
pub proof fn lemma_trial_size_monotonic(cfg: QConfig, i: nat, j: nat)
    requires
        i <= j,
    ensures
        trial_size(cfg, i) <= trial_size(cfg, j),
{
    assert(i / 8 <= j / 8) by (nonlinear_arith)
        requires
            i <= j,
    ;
}

fn trial_size_at(cfg: &QConfig, i: usize) -> (r: usize)
    ensures
        r as nat == trial_size(*cfg, i as nat),
{
    if cfg.grow {
        let extra = i / 8;
        if extra > usize::MAX - cfg.size {
            usize::MAX
        } else {
            cfg.size + extra
        }
    } else {
        cfg.size
    }
}

/// What a run of [`quick_check`] reports.
pub enum QcResult<A> {
    /// Every trial passed.
    Pass,
    /// The property was falsified on the given trial; the witness is the
    /// minimised counterexample.
    Fail {
        /// The number of the falsifying trial, starting at one.
        trial: usize,
        /// The minimal counterexample.
        witness: A,
    },
}

/// The property accepted a value with this model: some call of `prop`
/// on such a value returned true.
pub open spec fn accepts<A: Model, F: Fn(A) -> bool>(prop: F, m: A::M) -> bool {
    exists|c: A| c.model() == m && #[trigger] call_ensures(prop, (c,), true)
}

/// The property rejected a value with this model: some call of `prop`
/// on such a value returned false.
pub open spec fn rejects<A: Model, F: Fn(A) -> bool>(prop: F, m: A::M) -> bool {
    exists|c: A| c.model() == m && #[trigger] call_ensures(prop, (c,), false)
}

/// One step of the greedy descent: the property accepted every
/// candidate of `m` before index `i` and rejected the candidate at `i`,
/// which the search then moves to.
pub open spec fn greedy_step<A: Shrink, F: Fn(A) -> bool>(prop: F, m: A::M, n: A::M) -> bool {
    exists|i: int|
        {
            &&& 0 <= i < A::cands(m).len()
            &&& n == #[trigger] A::cands(m)[i]
            &&& rejects(prop, n)
            &&& forall|j: int| 0 <= j < i ==> accepts(prop, #[trigger] A::cands(m)[j])
        }
}

/// A complete greedy descent from `from` to `to`: a chain of models,
/// each obtained from the one before by taking its first candidate that
/// failed the property.
pub open spec fn greedy_chain<A: Shrink, F: Fn(A) -> bool>(
    prop: F,
    chain: Seq<A::M>,
    from: A::M,
    to: A::M,
) -> bool {
    &&& chain.len() >= 1
    &&& chain.first() == from
    &&& chain.last() == to
    &&& forall|k: int|
        0 <= k < chain.len() - 1 ==> greedy_step(prop, #[trigger] chain[k], chain[k + 1])
}

/// Whether the property's answers depend only on the model of the value
/// it is applied to: it cannot both accept and reject one model.
pub open spec fn model_deterministic<A: Model, F: Fn(A) -> bool>(prop: F) -> bool {
    forall|c1: A, c2: A, b1: bool, b2: bool|
        #[trigger] call_ensures(prop, (c1,), b1) && #[trigger] call_ensures(prop, (c2,), b2)
            && c1.model() == c2.model() ==> b1 == b2
}

/// Minimisation is idempotent: when a deterministic property accepts
/// every candidate of `m`, no greedy step leaves `m`, so any greedy
/// descent from `m` ends at `m` itself.  In particular, re-running
/// [`quick_shrink`] on its own result returns that result.
pub proof fn lemma_minimum_fixed<A: Shrink, F: Fn(A) -> bool>(
    prop: F,
    chain: Seq<A::M>,
    m: A::M,
    r: A::M,
)
    requires
        model_deterministic(prop),
        forall|i: int| 0 <= i < A::cands(m).len() ==> accepts(prop, #[trigger] A::cands(m)[i]),
        greedy_chain(prop, chain, m, r),
    ensures
        r == m,
{
    if chain.len() >= 2 {
        assert(greedy_step(prop, chain[0], chain[1]));
        let i = choose|i: int|
            {
                &&& 0 <= i < A::cands(m).len()
                &&& chain[1] == A::cands(m)[i]
                &&& rejects(prop, chain[1])
                &&& forall|j: int| 0 <= j < i ==> accepts(prop, #[trigger] A::cands(m)[j])
            };
        let cm = A::cands(m)[i];
        assert(accepts(prop, cm));
        let c1 = choose|c: A| c.model() == cm && #[trigger] call_ensures(prop, (c,), true);
        let c2 = choose|c: A| c.model() == cm && #[trigger] call_ensures(prop, (c,), false);
        assert(false);
    }
}

/// When no candidate of `m` was ever rejected, a greedy descent from
/// `m` cannot take a single step: it ends at `m` itself.  In
/// particular, [`quick_shrink`] returns its input unchanged when the
/// property fails no candidate of it.
pub proof fn lemma_no_rejection_fixed<A: Shrink, F: Fn(A) -> bool>(
    prop: F,
    chain: Seq<A::M>,
    m: A::M,
    r: A::M,
)
    requires
        forall|i: int| 0 <= i < A::cands(m).len() ==> !rejects(prop, #[trigger] A::cands(m)[i]),
        greedy_chain(prop, chain, m, r),
    ensures
        r == m,
{
    if chain.len() >= 2 {
        assert(greedy_step(prop, chain[0], chain[1]));
        let i = choose|i: int|
            {
                &&& 0 <= i < A::cands(m).len()
                &&& chain[1] == A::cands(m)[i]
                &&& rejects(prop, chain[1])
                &&& forall|j: int| 0 <= j < i ==> accepts(prop, #[trigger] A::cands(m)[j])
            };
        assert(rejects(prop, A::cands(m)[i]));
        assert(false);
    }
}

/// Greedy left-to-right minimisation: walk the candidate stream of the
/// current witness and restart from the first candidate that also fails
/// the property; when the stream exhausts with no hit, the current
/// witness is returned.
///
/// The result is no larger than the input; it is reached from the input
/// by a greedy descent (so it equals the input exactly when no candidate
/// of the input fails); and the property accepted every one of the
/// result's own shrink candidates, so the result is a local minimum of
/// the shrink relation.
pub fn quick_shrink<A: Shrink, F: Fn(A) -> bool>(_cfg: QConfig, value: A, prop: F) -> (r: A)
    requires
        forall|v: A| #[trigger] call_requires(prop, (v,)),
    ensures
        A::size_of(r.model()) <= A::size_of(value.model()),
        r.model() == value.model() || rejects(prop, r.model()),
        forall|i: int|
            0 <= i < A::cands(r.model()).len() ==> accepts(
                prop,
                #[trigger] A::cands(r.model())[i],
            ),
        exists|chain: Seq<A::M>| #[trigger] greedy_chain(prop, chain, value.model(), r.model()),
{
    let mut cur = value;
    let mut stream = cur.shrink();
    let ghost value_m = cur.model();
    let ghost mut seen: int = 0;
    let ghost mut chain: Seq<A::M> = seq![value_m];
    loop
        invariant
            forall|v: A| #[trigger] call_requires(prop, (v,)),
            value_m == value.model(),
            0 <= seen <= A::cands(cur.model()).len(),
            stream.future() == A::cands(cur.model()).skip(seen),
            forall|i: int|
                0 <= i < seen ==> accepts(prop, #[trigger] A::cands(cur.model())[i]),
            A::size_of(cur.model()) <= A::size_of(value_m),
            cur.model() == value_m || rejects(prop, cur.model()),
            greedy_chain(prop, chain, value_m, cur.model()),
        decreases A::size_of(cur.model()), stream.measure(),
    {
        let ghost cm = cur.model();
        match stream.next() {
            None => {
                proof {
                    assert(A::cands(cm).skip(seen).len() == 0);
                }
                return cur;
            },
            Some(cand) => {
                proof {
                    assert(cand.model() == A::cands(cm).skip(seen)[0]);
                    assert(cand.model() == A::cands(cm)[seen]);
                }
                let ghost candm = cand.model();
                let ghost gcand = cand;
                let copy = cand.dup();
                if !prop(cand) {
                    proof {
                        A::cands_smaller(cm);
                        assert(A::size_of(candm) < A::size_of(cm));
                        assert(gcand.model() == copy.model() && call_ensures(
                            prop,
                            (gcand,),
                            false,
                        ));
                        assert(rejects(prop, candm));
                        assert(greedy_step(prop, cm, candm));
                        let ghost chain0 = chain;
                        chain = chain.push(candm);
                        assert(chain.last() == candm);
                        assert(chain.first() == value_m);
                        assert forall|k: int| 0 <= k < chain.len() - 1 implies greedy_step(
                            prop,
                            #[trigger] chain[k],
                            chain[k + 1],
                        ) by {
                            if k < chain0.len() - 1 {
                                assert(chain[k] == chain0[k]);
                                assert(chain[k + 1] == chain0[k + 1]);
                            } else {
                                assert(chain[k] == chain0.last());
                                assert(chain[k + 1] == candm);
                            }
                        }
                    }
                    cur = copy;
                    stream = cur.shrink();
                    proof {
                        seen = 0;
                    }
                } else {
                    proof {
                        assert(call_ensures(prop, (gcand,), true));
                        assert(accepts(prop, candm));
                        seen = seen + 1;
                        assert(stream.future() =~= A::cands(cm).skip(seen));
                    }
                }
            },
        }
    }
}

/// Evidence that a failing witness model `wm` was found the way the
/// runner works: a greedy descent that started from a value generated
/// at the failing trial's size and rejected by the property.
pub open spec fn found_by_descent<A: Arbitrary + Shrink, F: Fn(A) -> bool>(
    prop: F,
    cfg: QConfig,
    trial: int,
    wm: A::M,
) -> bool {
    exists|chain: Seq<A::M>|
        {
            &&& #[trigger] greedy_chain(prop, chain, chain.first(), wm)
            &&& A::gen_ok(chain.first(), trial_size(cfg, (trial - 1) as nat))
            &&& rejects(prop, chain.first())
        }
}

/// Repeatedly test `prop` with generated values of type `A`.
///
/// If the property holds on every tested value the run passes: the
/// contract exhibits, per trial, one accepted value generated at that
/// trial's size.  On the first counterexample the run fails with a
/// minimised witness: the end of a greedy descent that started from a
/// generated, rejected value, and every one of whose own shrink
/// candidates the property accepted.  The name identifies the property
/// to the caller; the engine itself produces no text.
pub fn quick_check<A: Arbitrary + Shrink, F: Fn(A) -> bool>(
    _name: &str,
    cfg: QConfig,
    rng: &mut Rng,
    prop: F,
) -> (r: QcResult<A>)
    requires
        forall|v: A| #[trigger] call_requires(prop, (v,)),
    ensures
        match r {
            QcResult::Pass => exists|vs: Seq<A>|
                vs.len() == cfg.trials && forall|j: int|
                    0 <= j < vs.len() ==> call_ensures(prop, (#[trigger] vs[j],), true)
                        && A::gen_ok(vs[j].model(), trial_size(cfg, j as nat)),
            QcResult::Fail { trial, witness } => {
                &&& 1 <= trial <= cfg.trials
                &&& rejects(prop, witness.model())
                &&& forall|i: int|
                    0 <= i < A::cands(witness.model()).len() ==> accepts(
                        prop,
                        #[trigger] A::cands(witness.model())[i],
                    )
                &&& found_by_descent::<A, F>(prop, cfg, trial as int, witness.model())
            },
        },
{
    let mut i: usize = 0;
    let ghost mut tested: Seq<A> = Seq::empty();
    while i < cfg.trials
        invariant
            forall|v: A| #[trigger] call_requires(prop, (v,)),
            i <= cfg.trials,
            tested.len() == i,
            forall|j: int|
                0 <= j < i ==> call_ensures(prop, (#[trigger] tested[j],), true) && A::gen_ok(
                    tested[j].model(),
                    trial_size(cfg, j as nat),
                ),
        decreases cfg.trials - i,
    {
        let sz = trial_size_at(&cfg, i);
        let v: A = A::arbitrary(rng, sz);
        let w = v.dup();
        let ghost gv = v;
        if !prop(v) {
            let m = quick_shrink(cfg, w, prop);
            proof {
                assert(call_ensures(prop, (gv,), false));
                assert(rejects(prop, w.model()));
                let chain = choose|chain: Seq<A::M>| #[trigger] greedy_chain(
                    prop,
                    chain,
                    w.model(),
                    m.model(),
                );
                assert(chain.first() == w.model());
                assert(A::gen_ok(chain.first(), trial_size(cfg, i as nat)));
                assert(greedy_chain(prop, chain, chain.first(), m.model()));
                let trial: int = i + 1;
                assert((trial - 1) as nat == i as nat);
                assert(found_by_descent::<A, F>(prop, cfg, trial, m.model()));
            }
            return QcResult::Fail { trial: i + 1, witness: m };
        }
        proof {
            tested = tested.push(gv);
        }
        i = i + 1;
    }
    proof {
        assert(tested.len() == cfg.trials && forall|j: int|
            0 <= j < tested.len() ==> call_ensures(prop, (#[trigger] tested[j],), true)
                && A::gen_ok(tested[j].model(), trial_size(cfg, j as nat)));
    }
    QcResult::Pass
}

/// The existential dual of [`quick_check`]: pass as soon as any trial
/// satisfies the property, fail when the whole trial budget misses.
/// `Some(n)` reports success on trial `n` (counting from one) with a
/// value the property accepted, generated at that trial's size; `None`
/// reports that the property rejected one value per trial, each
/// generated at its trial's size.  No shrinking is done.
pub fn quick_check_occurs<A: Arbitrary, F: Fn(A) -> bool>(
    cfg: QConfig,
    _name: &str,
    rng: &mut Rng,
    prop: F,
) -> (r: Option<usize>)
    requires
        forall|v: A| #[trigger] call_requires(prop, (v,)),
    ensures
        match r {
            Some(n) => 1 <= n <= cfg.trials && exists|c: A|
                #[trigger] call_ensures(prop, (c,), true) && A::gen_ok(
                    c.model(),
                    trial_size(cfg, (n - 1) as nat),
                ),
            None => exists|vs: Seq<A>|
                vs.len() == cfg.trials && forall|j: int|
                    0 <= j < vs.len() ==> call_ensures(prop, (#[trigger] vs[j],), false)
                        && A::gen_ok(vs[j].model(), trial_size(cfg, j as nat)),
        },
{
    let mut i: usize = 0;
    let ghost mut missed: Seq<A> = Seq::empty();
    while i < cfg.trials
        invariant
            forall|v: A| #[trigger] call_requires(prop, (v,)),
            i <= cfg.trials,
            missed.len() == i,
            forall|j: int|
                0 <= j < i ==> call_ensures(prop, (#[trigger] missed[j],), false) && A::gen_ok(
                    missed[j].model(),
                    trial_size(cfg, j as nat),
                ),
        decreases cfg.trials - i,
    {
        let sz = trial_size_at(&cfg, i);
        let v: A = A::arbitrary(rng, sz);
        let ghost gv = v;
        if prop(v) {
            proof {
                assert(call_ensures(prop, (gv,), true));
                assert((i + 1 - 1) as nat == i as nat);
            }
            return Some(i + 1);
        }
        proof {
            missed = missed.push(gv);
        }
        i = i + 1;
    }
    proof {
        assert(missed.len() == cfg.trials && forall|j: int|
            0 <= j < missed.len() ==> call_ensures(prop, (#[trigger] missed[j],), false)
                && A::gen_ok(missed[j].model(), trial_size(cfg, j as nat)));
    }
    None
}

/// Wrap a shrunk number back into [`SmallN`].
pub struct SmallMap;

impl MapFn<usize, SmallN> for SmallMap {
    open spec fn fspec(a: usize) -> usize {
        a
    }

    fn apply(&self, a: usize) -> (b: SmallN) {
        SmallN(a)
    }
}

impl Shrink for SmallN {
    type Prod = MapProd<usize, NoProd<usize>, SmallMap>;

    open spec fn size_of(m: usize) -> nat {
        m as nat
    }

    open spec fn cands(m: usize) -> Seq<usize> {
        usize_cands(m)
    }

    open spec fn sweight(m: usize) -> nat {
        3 + 2 * usize_cands(m).len()
    }

    proof fn cands_smaller(m: usize) {
        crate::shrink::lemma_usize_cands_lt(m);
    }

    fn shrink(&self) -> (l: Lazy<SmallN, Self::Prod>) {
        let mut l = Lazy::new();
        l.push_map(self.0.shrink(), SmallMap);
        proof {
            assert(usize_cands(self.0).map_values(|a: usize| a) =~= usize_cands(self.0));
            assert(l.future() =~= Self::cands(self.model()));
        }
        l
    }
}


/// An example user type equipped with `Arbitrary` and `Shrink`: a
/// binary tree that generates to a random shape and shrinks by
/// collapsing to a leaf or by shrinking one of its parts at a time.
#[derive(PartialEq, Eq, Debug)]
pub enum UserTree<T> {
    /// The empty tree.
    Nil,
    /// A node carrying a value and two subtrees.
    Node(T, Box<UserTree<T>>, Box<UserTree<T>>),
}

/// The size of a tree model: one per node plus the size of each carried
/// value.
pub open spec fn tree_size<T: Shrink>(m: UserTree<T::M>) -> nat
    decreases m,
{
    match m {
        UserTree::Nil => 0,
        UserTree::Node(x, l, r) => 1 + T::size_of(x) + tree_size::<T>(*l) + tree_size::<T>(*r),
    }
}

fn tree_dup<T: Model>(t: &UserTree<T>) -> (r: UserTree<T>)
    ensures
        r.model() == t.model(),
    decreases t,
{
    match t {
        UserTree::Nil => UserTree::Nil,
        UserTree::Node(x, l, r) => UserTree::Node(
            x.dup(),
            Box::new(tree_dup(&**l)),
            Box::new(tree_dup(&**r)),
        ),
    }
}

impl<T: Model> Model for UserTree<T> {
    type M = UserTree<T::M>;

    open spec fn model(&self) -> UserTree<T::M>
        decreases self,
    {
        match self {
            UserTree::Nil => UserTree::Nil,
            UserTree::Node(x, l, r) => UserTree::Node(
                x.model(),
                Box::new((**l).model()),
                Box::new((**r).model()),
            ),
        }
    }

    fn dup(&self) -> (r: UserTree<T>) {
        tree_dup(self)
    }
}

fn tree_arbitrary<T: Arbitrary>(rng: &mut Rng, size: usize) -> (r: UserTree<T>)
    decreases size,
{
    let coin = rng.next_byte();
    if size == 0 || coin % 4 == 0 {
        UserTree::Nil
    } else {
        let x = T::arbitrary(rng, size);
        let l = tree_arbitrary(rng, size / 2);
        let r = tree_arbitrary(rng, size / 2);
        UserTree::Node(x, Box::new(l), Box::new(r))
    }
}

impl<T: Arbitrary> Arbitrary for UserTree<T> {
    fn arbitrary(rng: &mut Rng, size: usize) -> (r: UserTree<T>) {
        tree_arbitrary(rng, size)
    }
}

/// Producer of the in-place value shrinks of a tree node: pulls one
/// candidate for the carried value and rebuilds the node around it,
/// keeping both subtrees.
pub struct TreeXProd<T: Shrink> {
    /// The candidate stream of the node's value.
    pub it: Lazy<T, T::Prod>,
    /// The left subtree, kept as it is.
    pub left: Box<UserTree<T>>,
    /// The right subtree, kept as it is.
    pub right: Box<UserTree<T>>,
}

impl<T: Shrink> Producer<UserTree<T>> for TreeXProd<T> {
    open spec fn weight(&self) -> nat {
        2 + 2 * self.it.measure()
    }

    open spec fn produces(&self) -> Seq<UserTree<T::M>> {
        let lm = (*self.left).model();
        let rm = (*self.right).model();
        self.it.future().map_values(
            |cm: T::M| UserTree::Node(cm, Box::new(lm), Box::new(rm)),
        )
    }

    open spec fn seq_produces(s: Seq<Self>) -> Seq<UserTree<T::M>>
        decreases s.len(),
    {
        if s.len() == 0 {
            Seq::empty()
        } else {
            s[0].produces() + Self::seq_produces(s.drop_first())
        }
    }

    open spec fn seq_weight(s: Seq<Self>) -> nat
        decreases s.len(),
    {
        if s.len() == 0 {
            0
        } else {
            1 + s[0].weight() + Self::seq_weight(s.drop_first())
        }
    }

    proof fn seq_laws(s: Seq<Self>) {
    }

    fn eval(self, l: &mut Lazy<UserTree<T>, Self>) {
        let ghost pend0 = l.pending@;
        let ghost sf = self.it.future();
        let ghost lm = (*self.left).model();
        let ghost rm = (*self.right).model();
        let TreeXProd { mut it, left, right } = self;
        match it.next() {
            None => {
                proof {
                    assert(self.produces() =~= Seq::<UserTree<T::M>>::empty());
                    assert(l.head@.map_values(|x: UserTree<T>| x.model()) + Self::seq_produces(
                        l.pending@,
                    ) =~= self.produces() + Self::seq_produces(pend0));
                }
            },
            Some(c) => {
                let node = UserTree::Node(c, Box::new(tree_dup(&*left)), Box::new(
                    tree_dup(&*right),
                ));
                l.push(node);
                let p2 = TreeXProd { it, left, right };
                l.requeue(p2);
                proof {
                    Self::seq_laws(l.pending@);
                    assert(l.pending@.drop_first() =~= pend0);
                    assert(l.head@.map_values(|x: UserTree<T>| x.model()) =~= seq![
                        UserTree::<T::M>::Node(sf[0], Box::new(lm), Box::new(rm)),
                    ]);
                    assert(p2.produces() =~= sf.drop_first().map_values(
                        |cm: T::M| UserTree::<T::M>::Node(cm, Box::new(lm), Box::new(rm)),
                    ));
                    assert(self.produces() =~= seq![
                        UserTree::<T::M>::Node(sf[0], Box::new(lm), Box::new(rm)),
                    ] + p2.produces());
                    assert(l.head@.map_values(|x: UserTree<T>| x.model()) + Self::seq_produces(
                        l.pending@,
                    ) =~= self.produces() + Self::seq_produces(pend0));
                }
            },
        }
    }
}

impl<T: Shrink> Shrink for UserTree<T> {
    type Prod = TreeXProd<T>;

    open spec fn size_of(m: UserTree<T::M>) -> nat {
        tree_size::<T>(m)
    }

    open spec fn cands(m: UserTree<T::M>) -> Seq<UserTree<T::M>> {
        match m {
            UserTree::Nil => Seq::empty(),
            UserTree::Node(x, l, r) => seq![UserTree::Nil, *l, *r] + T::cands(x).map_values(
                |cm: T::M| UserTree::Node(cm, Box::new(*l), Box::new(*r)),
            ),
        }
    }

    open spec fn sweight(m: UserTree<T::M>) -> nat {
        match m {
            UserTree::Nil => 0,
            UserTree::Node(x, l, r) => 6 + 2 * T::sweight(x),
        }
    }

    proof fn cands_smaller(m: UserTree<T::M>) {
        match m {
            UserTree::Nil => {},
            UserTree::Node(x, l, r) => {
                T::cands_smaller(x);
                assert forall|i: int| 0 <= i < Self::cands(m).len() implies Self::size_of(
                    #[trigger] Self::cands(m)[i],
                ) < Self::size_of(m) by {
                    if i >= 3 {
                        let cm = T::cands(x)[i - 3];
                        assert(Self::cands(m)[i] == UserTree::<T::M>::Node(
                            cm,
                            Box::new(*l),
                            Box::new(*r),
                        ));
                        assert(T::size_of(cm) < T::size_of(x));
                    }
                }
            },
        }
    }

    fn shrink(&self) -> (l: Lazy<UserTree<T>, Self::Prod>) {
        match self {
            UserTree::Nil => {
                let l = Lazy::new();
                proof {
                    assert(l.future() =~= Self::cands(self.model()));
                }
                l
            },
            UserTree::Node(x, lt, rt) => {
                let mut l = Lazy::new();
                l.push(UserTree::Nil);
                l.push(tree_dup(&**lt));
                l.push(tree_dup(&**rt));
                let p = TreeXProd { it: x.shrink(), left: lt.dup(), right: rt.dup() };
                let ghost pend0 = l.pending@;
                l.push_thunk(p);
                proof {
                    Lazy::<UserTree<T>, Self::Prod>::lemma_thunk_fold(pend0, p);
                    assert(l.vals() =~= seq![
                        UserTree::<T::M>::Nil,
                        (**lt).model(),
                        (**rt).model(),
                    ]);
                    assert(l.future() =~= Self::cands(self.model()));
                }
                l
            },
        }
    }
}

} // verus!
