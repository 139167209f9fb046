//! The base contract shared by every type the engine can handle.
//!
//! Each such type has a mathematical *model*: the abstraction its
//! contracts are stated over.  For a primitive the model is the value
//! itself; for a `Vec` it is the sequence of element models; for a
//! `String` it is its sequence of characters.  Both the witness and every
//! shrink candidate are fed to a predicate without consuming the other,
//! so every such type must also be duplicable, and duplication must
//! preserve the model.

use vstd::prelude::*;

verus! {

/// A value the engine can pass around: it has a mathematical model, and
/// it can be duplicated without changing that model.
pub trait Model: Sized {
    /// The type of the mathematical model.
    type M;

    /// The mathematical model of this value.
    spec fn model(&self) -> Self::M;

    /// Duplicate the value; the duplicate has the same model.
    fn dup(&self) -> (r: Self)
        ensures
            r.model() == self.model(),
    ;
}

impl Model for () {
    type M = ();

    open spec fn model(&self) -> () {
        ()
    }

    fn dup(&self) -> (r: ()) {
    }
}

impl Model for bool {
    type M = bool;

    open spec fn model(&self) -> bool {
        *self
    }

    fn dup(&self) -> (r: bool) {
        *self
    }
}

impl Model for char {
    type M = char;

    open spec fn model(&self) -> char {
        *self
    }

    fn dup(&self) -> (r: char) {
        *self
    }
}

impl Model for u8 {
    type M = u8;

    open spec fn model(&self) -> u8 {
        *self
    }

    fn dup(&self) -> (r: u8) {
        *self
    }
}

impl Model for i8 {
    type M = i8;

    open spec fn model(&self) -> i8 {
        *self
    }

    fn dup(&self) -> (r: i8) {
        *self
    }
}

impl Model for usize {
    type M = usize;

    open spec fn model(&self) -> usize {
        *self
    }

    fn dup(&self) -> (r: usize) {
        *self
    }
}

impl Model for isize {
    type M = isize;

    open spec fn model(&self) -> isize {
        *self
    }

    fn dup(&self) -> (r: isize) {
        *self
    }
}

impl<T: Model> Model for Box<T> {
    type M = T::M;

    open spec fn model(&self) -> T::M {
        (**self).model()
    }

    fn dup(&self) -> (r: Box<T>) {
        Box::new((**self).dup())
    }
}

impl<T: Model> Model for Option<T> {
    type M = Option<T::M>;

    open spec fn model(&self) -> Option<T::M> {
        match self {
            Some(x) => Some(x.model()),
            None => None,
        }
    }

    fn dup(&self) -> (r: Option<T>) {
        match self {
            Some(x) => Some(x.dup()),
            None => None,
        }
    }
}

impl<T: Model, U: Model> Model for Result<T, U> {
    type M = Result<T::M, U::M>;

    open spec fn model(&self) -> Result<T::M, U::M> {
        match self {
            Ok(x) => Ok(x.model()),
            Err(e) => Err(e.model()),
        }
    }

    fn dup(&self) -> (r: Result<T, U>) {
        match self {
            Ok(x) => Ok(x.dup()),
            Err(e) => Err(e.dup()),
        }
    }
}

impl<T: Model> Model for Vec<T> {
    type M = Seq<T::M>;

    open spec fn model(&self) -> Seq<T::M> {
        self@.map_values(|x: T| x.model())
    }

    fn dup(&self) -> (r: Vec<T>) {
        let mut r: Vec<T> = Vec::new();
        let mut i: usize = 0;
        while i < self.len()
            invariant
                i <= self@.len(),
                r@.len() == i,
                forall|k: int| 0 <= k < i ==> r@[k].model() == self@[k].model(),
            decreases self@.len() - i,
        {
            r.push(self[i].dup());
            i += 1;
        }
        proof {
            assert(r.model() =~= self.model());
        }
        r
    }
}

impl Model for String {
    type M = Seq<char>;

    open spec fn model(&self) -> Seq<char> {
        self@
    }

    fn dup(&self) -> (r: String) {
        self.clone()
    }
}

impl<A: Model, B: Model> Model for (A, B) {
    type M = (A::M, B::M);

    open spec fn model(&self) -> (A::M, B::M) {
        (self.0.model(), self.1.model())
    }

    fn dup(&self) -> (r: (A, B)) {
        (self.0.dup(), self.1.dup())
    }
}

impl<A: Model, B: Model, C: Model> Model for (A, B, C) {
    type M = (A::M, B::M, C::M);

    open spec fn model(&self) -> (A::M, B::M, C::M) {
        (self.0.model(), self.1.model(), self.2.model())
    }

    fn dup(&self) -> (r: (A, B, C)) {
        (self.0.dup(), self.1.dup(), self.2.dup())
    }
}

impl<A: Model, B: Model, C: Model, D: Model> Model for (A, B, C, D) {
    type M = (A::M, B::M, C::M, D::M);

    open spec fn model(&self) -> (A::M, B::M, C::M, D::M) {
        (self.0.model(), self.1.model(), self.2.model(), self.3.model())
    }

    fn dup(&self) -> (r: (A, B, C, D)) {
        (self.0.dup(), self.1.dup(), self.2.dup(), self.3.dup())
    }
}

impl<A: Model, B: Model, C: Model, D: Model, E: Model> Model for (A, B, C, D, E) {
    type M = (A::M, B::M, C::M, D::M, E::M);

    open spec fn model(&self) -> (A::M, B::M, C::M, D::M, E::M) {
        (self.0.model(), self.1.model(), self.2.model(), self.3.model(), self.4.model())
    }

    fn dup(&self) -> (r: (A, B, C, D, E)) {
        (self.0.dup(), self.1.dup(), self.2.dup(), self.3.dup(), self.4.dup())
    }
}

impl<A: Model, B: Model, C: Model, D: Model, E: Model, F: Model> Model for (A, B, C, D, E, F) {
    type M = (A::M, B::M, C::M, D::M, E::M, F::M);

    open spec fn model(&self) -> (A::M, B::M, C::M, D::M, E::M, F::M) {
        (
            self.0.model(),
            self.1.model(),
            self.2.model(),
            self.3.model(),
            self.4.model(),
            self.5.model(),
        )
    }

    fn dup(&self) -> (r: (A, B, C, D, E, F)) {
        (self.0.dup(), self.1.dup(), self.2.dup(), self.3.dup(), self.4.dup(), self.5.dup())
    }
}

impl<A: Model, B: Model, C: Model, D: Model, E: Model, F: Model, G: Model> Model for (
    A,
    B,
    C,
    D,
    E,
    F,
    G,
) {
    type M = (A::M, B::M, C::M, D::M, E::M, F::M, G::M);

    open spec fn model(&self) -> (A::M, B::M, C::M, D::M, E::M, F::M, G::M) {
        (
            self.0.model(),
            self.1.model(),
            self.2.model(),
            self.3.model(),
            self.4.model(),
            self.5.model(),
            self.6.model(),
        )
    }

    fn dup(&self) -> (r: (A, B, C, D, E, F, G)) {
        (
            self.0.dup(),
            self.1.dup(),
            self.2.dup(),
            self.3.dup(),
            self.4.dup(),
            self.5.dup(),
            self.6.dup(),
        )
    }
}

impl<
    A: Model,
    B: Model,
    C: Model,
    D: Model,
    E: Model,
    F: Model,
    G: Model,
    H: Model,
> Model for (A, B, C, D, E, F, G, H) {
    type M = (A::M, B::M, C::M, D::M, E::M, F::M, G::M, H::M);

    open spec fn model(&self) -> (A::M, B::M, C::M, D::M, E::M, F::M, G::M, H::M) {
        (
            self.0.model(),
            self.1.model(),
            self.2.model(),
            self.3.model(),
            self.4.model(),
            self.5.model(),
            self.6.model(),
            self.7.model(),
        )
    }

    fn dup(&self) -> (r: (A, B, C, D, E, F, G, H)) {
        (
            self.0.dup(),
            self.1.dup(),
            self.2.dup(),
            self.3.dup(),
            self.4.dup(),
            self.5.dup(),
            self.6.dup(),
            self.7.dup(),
        )
    }
}

} // verus!
