//! The generation contract and its built-in instances.
//!
//! `Arbitrary` produces a randomly chosen value of its type, scaled by a
//! non-negative *size* parameter: the soft upper bound on the magnitude
//! of what is generated (sequence length, numeric magnitude), interpreted
//! per type.  The helper [`small_n`] draws the canonical length for
//! sequences, strings and the bounded-number wrapper: an exponentially
//! distributed magnitude with mean one, scaled by the size and clamped to
//! sixteen times the size.

use crate::model::Model;
use crate::rng::Rng;
use vstd::prelude::*;

verus! {

/// A per-type contract yielding a random value scaled by `size`.
pub trait Arbitrary: Model {
    /// What generation guarantees about the model of the result.
    open spec fn gen_ok(m: Self::M, size: nat) -> bool {
        true
    }

    /// An arbitrary value of this type, drawn from `rng`, its magnitude
    /// scaled by `size`.
    fn arbitrary(rng: &mut Rng, size: usize) -> (r: Self)
        ensures
            Self::gen_ok(r.model(), size as nat),
    ;
}

/// Create an arbitrary value of type `T`.
#[inline]
pub fn arbitrary<T: Arbitrary>(rng: &mut Rng, size: usize) -> (r: T)
    ensures
        T::gen_ok(r.model(), size as nat),
{
    T::arbitrary(rng, size)
}

/// Draw the canonical magnitude for `size`: an exponentially distributed
/// factor with mean one (in steps of 1/256, cut off at 16) scaled by
/// `size`, so most draws are small while occasional draws are large
/// enough to exercise length-dependent behaviour.
pub fn small_n(rng: &mut Rng, size: usize) -> (n: usize)
    ensures
        n as nat <= 16 * (size as nat),
{
    let cap: usize = if size > usize::MAX / 16 {
        usize::MAX
    } else {
        16 * size
    };
    proof {
        if size > usize::MAX / 16 {
            assert(16 * (size as nat) > usize::MAX as nat) by (nonlinear_arith)
                requires
                    size as nat > usize::MAX as nat / 16,
            ;
        }
    }
    let mut k: u64 = 0;
    loop
        invariant
            k <= 4096,
        decreases 4096 - k,
    {
        if k >= 4096 {
            break ;
        }
        let b = rng.next_byte();
        if b == 0 {
            break ;
        }
        k = k + 1;
    }
    proof {
        assert((k as u128) * (size as u128) <= 4096 * (usize::MAX as u128)) by (nonlinear_arith)
            requires
                k as u128 <= 4096,
                size as u128 <= usize::MAX as u128,
        ;
    }
    let prod: u128 = (k as u128) * (size as u128);
    let scaled: u128 = prod / 256;
    if scaled >= cap as u128 {
        cap
    } else {
        scaled as usize
    }
}

/// Relies on `char::from_u32`: returns the character with the given code
/// point when that code point is a Unicode scalar value, and `None` for
/// surrogates and out-of-range values.
#[verifier::external_body]
fn char_from_u32(u: u32) -> (r: Option<char>)
    ensures
        (r is Some) == (u < 0xD800 || (0xE000 <= u && u <= 0x10FFFF)),
        r matches Some(c) ==> c as u32 == u,
{
    char::from_u32(u)
}

impl Arbitrary for () {
    fn arbitrary(_rng: &mut Rng, _size: usize) -> (r: ()) {
    }
}

impl Arbitrary for bool {
    fn arbitrary(rng: &mut Rng, _size: usize) -> (r: bool) {
        rng.next_bool()
    }
}

impl Arbitrary for u8 {
    fn arbitrary(rng: &mut Rng, _size: usize) -> (r: u8) {
        rng.next_byte()
    }
}

impl Arbitrary for i8 {
    fn arbitrary(rng: &mut Rng, _size: usize) -> (r: i8) {
        let b = rng.next_byte();
        #[verifier::truncate] (b as i8)
    }
}

impl Arbitrary for usize {
    fn arbitrary(rng: &mut Rng, _size: usize) -> (r: usize) {
        let x = rng.next_u64();
        #[verifier::truncate] (x as usize)
    }
}

impl Arbitrary for isize {
    fn arbitrary(rng: &mut Rng, _size: usize) -> (r: isize) {
        let x = rng.next_u64();
        #[verifier::truncate] (x as isize)
    }
}

impl Arbitrary for char {
    fn arbitrary(rng: &mut Rng, _size: usize) -> (r: char) {
        let v = rng.below(0x10F800);
        let u: usize = if v < 0xD800 {
            v
        } else {
            v + 0x800
        };
        match char_from_u32(u as u32) {
            Some(c) => c,
            None => vstd::pervasive::unreached(),
        }
    }
}

impl<A: Arbitrary, B: Arbitrary> Arbitrary for (A, B) {
    /// Each coordinate meets its own generation guarantee at this size.
    open spec fn gen_ok(m: (A::M, B::M), size: nat) -> bool {
        A::gen_ok(m.0, size) && B::gen_ok(m.1, size)
    }

    fn arbitrary(rng: &mut Rng, size: usize) -> (r: (A, B)) {
        let a = A::arbitrary(rng, size);
        let b = B::arbitrary(rng, size);
        (a, b)
    }
}

impl<A: Arbitrary, B: Arbitrary, C: Arbitrary> Arbitrary for (A, B, C) {
    /// Each coordinate meets its own generation guarantee at this size.
    open spec fn gen_ok(m: (A::M, B::M, C::M), size: nat) -> bool {
        A::gen_ok(m.0, size) && B::gen_ok(m.1, size) && C::gen_ok(m.2, size)
    }

    fn arbitrary(rng: &mut Rng, size: usize) -> (r: (A, B, C)) {
        let a = A::arbitrary(rng, size);
        let b = B::arbitrary(rng, size);
        let c = C::arbitrary(rng, size);
        (a, b, c)
    }
}

impl<A: Arbitrary, B: Arbitrary, C: Arbitrary, D: Arbitrary> Arbitrary for (A, B, C, D) {
    /// Each coordinate meets its own generation guarantee at this size.
    open spec fn gen_ok(m: (A::M, B::M, C::M, D::M), size: nat) -> bool {
        A::gen_ok(m.0, size) && B::gen_ok(m.1, size) && C::gen_ok(m.2, size) && D::gen_ok(
            m.3,
            size,
        )
    }

    fn arbitrary(rng: &mut Rng, size: usize) -> (r: (A, B, C, D)) {
        let a = A::arbitrary(rng, size);
        let b = B::arbitrary(rng, size);
        let c = C::arbitrary(rng, size);
        let d = D::arbitrary(rng, size);
        (a, b, c, d)
    }
}

impl<A: Arbitrary, B: Arbitrary, C: Arbitrary, D: Arbitrary, E: Arbitrary> Arbitrary for (
    A,
    B,
    C,
    D,
    E,
) {
    /// Each coordinate meets its own generation guarantee at this size.
    open spec fn gen_ok(m: (A::M, B::M, C::M, D::M, E::M), size: nat) -> bool {
        A::gen_ok(m.0, size) && B::gen_ok(m.1, size) && C::gen_ok(m.2, size) && D::gen_ok(
            m.3,
            size,
        ) && E::gen_ok(m.4, size)
    }

    fn arbitrary(rng: &mut Rng, size: usize) -> (r: (A, B, C, D, E)) {
        let a = A::arbitrary(rng, size);
        let b = B::arbitrary(rng, size);
        let c = C::arbitrary(rng, size);
        let d = D::arbitrary(rng, size);
        let e = E::arbitrary(rng, size);
        (a, b, c, d, e)
    }
}

impl<A: Arbitrary, B: Arbitrary, C: Arbitrary, D: Arbitrary, E: Arbitrary, F: Arbitrary> Arbitrary for (
    A,
    B,
    C,
    D,
    E,
    F,
) {
    /// Each coordinate meets its own generation guarantee at this size.
    open spec fn gen_ok(m: (A::M, B::M, C::M, D::M, E::M, F::M), size: nat) -> bool {
        A::gen_ok(m.0, size) && B::gen_ok(m.1, size) && C::gen_ok(m.2, size) && D::gen_ok(
            m.3,
            size,
        ) && E::gen_ok(m.4, size) && F::gen_ok(m.5, size)
    }

    fn arbitrary(rng: &mut Rng, size: usize) -> (r: (A, B, C, D, E, F)) {
        let a = A::arbitrary(rng, size);
        let b = B::arbitrary(rng, size);
        let c = C::arbitrary(rng, size);
        let d = D::arbitrary(rng, size);
        let e = E::arbitrary(rng, size);
        let f = F::arbitrary(rng, size);
        (a, b, c, d, e, f)
    }
}

impl<
    A: Arbitrary,
    B: Arbitrary,
    C: Arbitrary,
    D: Arbitrary,
    E: Arbitrary,
    F: Arbitrary,
    G: Arbitrary,
> Arbitrary for (A, B, C, D, E, F, G) {
    /// Each coordinate meets its own generation guarantee at this size.
    open spec fn gen_ok(m: (A::M, B::M, C::M, D::M, E::M, F::M, G::M), size: nat) -> bool {
        A::gen_ok(m.0, size) && B::gen_ok(m.1, size) && C::gen_ok(m.2, size) && D::gen_ok(
            m.3,
            size,
        ) && E::gen_ok(m.4, size) && F::gen_ok(m.5, size) && G::gen_ok(m.6, size)
    }

    fn arbitrary(rng: &mut Rng, size: usize) -> (r: (A, B, C, D, E, F, G)) {
        let a = A::arbitrary(rng, size);
        let b = B::arbitrary(rng, size);
        let c = C::arbitrary(rng, size);
        let d = D::arbitrary(rng, size);
        let e = E::arbitrary(rng, size);
        let f = F::arbitrary(rng, size);
        let g = G::arbitrary(rng, size);
        (a, b, c, d, e, f, g)
    }
}

impl<
    A: Arbitrary,
    B: Arbitrary,
    C: Arbitrary,
    D: Arbitrary,
    E: Arbitrary,
    F: Arbitrary,
    G: Arbitrary,
    H: Arbitrary,
> Arbitrary for (A, B, C, D, E, F, G, H) {
    /// Each coordinate meets its own generation guarantee at this size.
    open spec fn gen_ok(m: (A::M, B::M, C::M, D::M, E::M, F::M, G::M, H::M), size: nat) -> bool {
        A::gen_ok(m.0, size) && B::gen_ok(m.1, size) && C::gen_ok(m.2, size) && D::gen_ok(
            m.3,
            size,
        ) && E::gen_ok(m.4, size) && F::gen_ok(m.5, size) && G::gen_ok(m.6, size) && H::gen_ok(
            m.7,
            size,
        )
    }

    fn arbitrary(rng: &mut Rng, size: usize) -> (r: (A, B, C, D, E, F, G, H)) {
        let a = A::arbitrary(rng, size);
        let b = B::arbitrary(rng, size);
        let c = C::arbitrary(rng, size);
        let d = D::arbitrary(rng, size);
        let e = E::arbitrary(rng, size);
        let f = F::arbitrary(rng, size);
        let g = G::arbitrary(rng, size);
        let h = H::arbitrary(rng, size);
        (a, b, c, d, e, f, g, h)
    }
}

impl<T: Arbitrary> Arbitrary for Box<T> {
    /// The boxed value meets its own generation guarantee at this size.
    open spec fn gen_ok(m: T::M, size: nat) -> bool {
        T::gen_ok(m, size)
    }

    fn arbitrary(rng: &mut Rng, size: usize) -> (r: Box<T>) {
        Box::new(T::arbitrary(rng, size))
    }
}

impl<T: Arbitrary> Arbitrary for Option<T> {
    /// An inhabited option holds a value meeting its own generation
    /// guarantee at this size.
    open spec fn gen_ok(m: Option<T::M>, size: nat) -> bool {
        match m {
            None => true,
            Some(x) => T::gen_ok(x, size),
        }
    }

    fn arbitrary(rng: &mut Rng, size: usize) -> (r: Option<T>) {
        if rng.next_bool() {
            Some(T::arbitrary(rng, size))
        } else {
            None
        }
    }
}

impl<T: Arbitrary, U: Arbitrary> Arbitrary for Result<T, U> {
    /// Whichever side is inhabited meets its own generation guarantee
    /// at this size.
    open spec fn gen_ok(m: Result<T::M, U::M>, size: nat) -> bool {
        match m {
            Ok(x) => T::gen_ok(x, size),
            Err(e) => U::gen_ok(e, size),
        }
    }

    fn arbitrary(rng: &mut Rng, size: usize) -> (r: Result<T, U>) {
        if rng.next_bool() {
            Ok(T::arbitrary(rng, size))
        } else {
            Err(U::arbitrary(rng, size))
        }
    }
}

impl<T: Arbitrary> Arbitrary for Vec<T> {
    /// A generated sequence respects the size bound on its length, and
    /// each element meets its own generation guarantee at this size.
    open spec fn gen_ok(m: Seq<T::M>, size: nat) -> bool {
        m.len() <= 16 * size && forall|i: int| 0 <= i < m.len() ==> T::gen_ok(#[trigger] m[i], size)
    }

    fn arbitrary(rng: &mut Rng, size: usize) -> (r: Vec<T>) {
        let n = small_n(rng, size);
        let mut r: Vec<T> = Vec::new();
        let mut i: usize = 0;
        while i < n
            invariant
                r@.len() == i,
                i <= n,
                n as nat <= 16 * (size as nat),
                forall|k: int| 0 <= k < i ==> T::gen_ok((#[trigger] r@[k]).model(), size as nat),
            decreases n - i,
        {
            r.push(T::arbitrary(rng, size));
            i += 1;
        }
        proof {
            assert forall|k: int| 0 <= k < r.model().len() implies T::gen_ok(
                #[trigger] r.model()[k],
                size as nat,
            ) by {
                assert(r.model()[k] == r@[k].model());
            }
        }
        r
    }
}

/// Whether a character is ASCII.
pub open spec fn char_ascii(c: char) -> bool {
    (c as u32) < 128
}

/// Whether every character of `m` is ASCII.
pub open spec fn ascii_chars(m: Seq<char>) -> bool {
    forall|i: int| 0 <= i < m.len() ==> char_ascii(#[trigger] m[i])
}

impl Arbitrary for String {
    /// A generated string is ASCII and respects the size bound on its
    /// length.
    open spec fn gen_ok(m: Seq<char>, size: nat) -> bool {
        m.len() <= 16 * size && ascii_chars(m)
    }

    fn arbitrary(rng: &mut Rng, size: usize) -> (r: String) {
        let n = small_n(rng, size);
        let mut r = String::new();
        let mut i: usize = 0;
        while i < n
            invariant
                r@.len() == i,
                i <= n,
                n as nat <= 16 * (size as nat),
                ascii_chars(r@),
            decreases n - i,
        {
            let v = rng.below(0x5F);
            let c = match char_from_u32(0x20 + v as u32) {
                Some(c) => c,
                None => vstd::pervasive::unreached(),
            };
            let ghost rpre = r@;
            crate::shrink::push_char(&mut r, c);
            i += 1;
            proof {
                assert(ascii_chars(r@));
            }
        }
        r
    }
}


/// A wrapper reusing a plain random sampler for the `Arbitrary`
/// contract: generation ignores the size.
#[derive(Clone, PartialEq, Eq, Debug)]
pub struct Random<T>(pub T);

impl<T: Model> Model for Random<T> {
    type M = T::M;

    open spec fn model(&self) -> T::M {
        self.0.model()
    }

    fn dup(&self) -> (r: Random<T>) {
        Random(self.0.dup())
    }
}

/// A type with a plain random sampler, independent of any size.
pub trait Sample: Sized {
    /// Draw a value from the random stream.
    fn sample(rng: &mut Rng) -> Self;
}

impl Sample for bool {
    fn sample(rng: &mut Rng) -> bool {
        rng.next_bool()
    }
}

impl Sample for u8 {
    fn sample(rng: &mut Rng) -> u8 {
        rng.next_byte()
    }
}

impl Sample for i8 {
    fn sample(rng: &mut Rng) -> i8 {
        let b = rng.next_byte();
        #[verifier::truncate] (b as i8)
    }
}

impl Sample for u64 {
    fn sample(rng: &mut Rng) -> u64 {
        rng.next_u64()
    }
}

impl Sample for usize {
    fn sample(rng: &mut Rng) -> usize {
        let x = rng.next_u64();
        #[verifier::truncate] (x as usize)
    }
}

impl Sample for isize {
    fn sample(rng: &mut Rng) -> isize {
        let x = rng.next_u64();
        #[verifier::truncate] (x as isize)
    }
}

impl Sample for char {
    fn sample(rng: &mut Rng) -> char {
        <char as Arbitrary>::arbitrary(rng, 0)
    }
}

impl<T: Sample + Model> Arbitrary for Random<T> {
    fn arbitrary(rng: &mut Rng, _size: usize) -> (r: Random<T>) {
        Random(T::sample(rng))
    }
}

/// A small number, at least zero and at most sixteen times the size it
/// was generated at.
#[derive(Clone, Copy, PartialEq, Eq, Debug)]
pub struct SmallN(pub usize);

impl Model for SmallN {
    type M = usize;

    open spec fn model(&self) -> usize {
        self.0
    }

    fn dup(&self) -> (r: SmallN) {
        SmallN(self.0)
    }
}

impl Arbitrary for SmallN {
    /// A generated small number respects the size bound.
    open spec fn gen_ok(m: usize, size: nat) -> bool {
        m <= 16 * size
    }

    fn arbitrary(rng: &mut Rng, size: usize) -> (r: SmallN) {
        SmallN(small_n(rng, size))
    }
}

/// A string biased toward interesting UTF-8: multi-byte runs, combining
/// marks, and codepoints beyond the basic plane.
#[derive(Clone, PartialEq, Eq, Debug)]
pub struct Unicode(pub String);

impl Model for Unicode {
    type M = Seq<char>;

    open spec fn model(&self) -> Seq<char> {
        self.0@
    }

    fn dup(&self) -> (r: Unicode) {
        Unicode(self.0.clone())
    }
}

/// The model of the word at index `i` of the multilingual corpus that
/// unicode strings are concatenated from.
pub open spec fn corpus_word_spec(i: int) -> Seq<char> {
    if i == 0 {
        "a"@
    } else if i == 1 {
        "b"@
    } else if i == 2 {
        "c"@
    } else if i == 3 {
        "0"@
    } else if i == 4 {
        "$"@
    } else if i == 5 {
        "\\"@
    } else if i == 6 {
        "\""@
    } else if i == 7 {
        "naive"@
    } else if i == 8 {
        "cafe\u{301}"@
    } else if i == 9 {
        "\u{2021}"@
    } else if i == 10 {
        "\u{20ac}"@
    } else if i == 11 {
        "\u{207f}"@
    } else if i == 12 {
        "\u{ff12}"@
    } else if i == 13 {
        "\u{fffd}"@
    } else if i == 14 {
        "\u{1f618}"@
    } else if i == 15 {
        "\u{1f35a}"@
    } else if i == 16 {
        "\u{1f0}\u{3c0}\u{1f78}"@
    } else if i == 17 {
        "\u{441}\u{43e}\u{441}\u{442}\u{43e}\u{438}\u{442}\u{441}\u{44f}"@
    } else if i == 18 {
        "\u{e17}\u{e23}\u{e07}"@
    } else if i == 19 {
        "Hello"@
    } else if i == 20 {
        "world"@
    } else if i == 21 {
        "\u{39a}\u{3b1}\u{3bb}\u{3b7}\u{3bc}\u{3ad}\u{3c1}\u{3b1}"@
    } else if i == 22 {
        "\u{3ba}\u{3cc}\u{3c3}\u{3bc}\u{3b5}"@
    } else if i == 23 {
        "\u{30b3}\u{30f3}\u{30cb}\u{30c1}\u{30cf}"@
    } else if i == 24 {
        " "@
    } else if i == 25 {
        " "@
    } else {
        "\n"@
    }
}

/// A concatenation of corpus words, one per index in `ws`.
pub open spec fn concat_words(ws: Seq<int>) -> Seq<char>
    decreases ws.len(),
{
    if ws.len() == 0 {
        Seq::empty()
    } else {
        corpus_word_spec(ws[0]) + concat_words(ws.drop_first())
    }
}

proof fn lemma_concat_words_push(ws: Seq<int>, i: int)
    ensures
        concat_words(ws.push(i)) == concat_words(ws) + corpus_word_spec(i),
    decreases ws.len(),
{
    if ws.len() == 0 {
        assert(ws.push(i)[0] == i);
        assert(ws.push(i).drop_first() =~= Seq::<int>::empty());
        assert(concat_words(Seq::<int>::empty()) =~= Seq::<char>::empty());
        assert(concat_words(ws.push(i)) =~= corpus_word_spec(i) + Seq::<char>::empty());
        assert(concat_words(ws) =~= Seq::<char>::empty());
        assert(concat_words(ws.push(i)) =~= concat_words(ws) + corpus_word_spec(i));
    } else {
        assert(ws.push(i).drop_first() =~= ws.drop_first().push(i));
        lemma_concat_words_push(ws.drop_first(), i);
        assert(concat_words(ws.push(i)) =~= concat_words(ws) + corpus_word_spec(i));
    }
}

proof fn lemma_encode_concat(a: Seq<char>, b: Seq<char>)
    ensures
        vstd::utf8::encode_utf8(a + b) == vstd::utf8::encode_utf8(a) + vstd::utf8::encode_utf8(b),
    decreases a.len(),
{
    if a.len() == 0 {
        assert(a + b =~= b);
        assert(vstd::utf8::encode_utf8(a) =~= Seq::<u8>::empty());
        assert(vstd::utf8::encode_utf8(a) + vstd::utf8::encode_utf8(b) =~= vstd::utf8::encode_utf8(
            b,
        ));
    } else {
        assert((a + b).drop_first() =~= a.drop_first() + b);
        assert((a + b)[0] == a[0]);
        lemma_encode_concat(a.drop_first(), b);
        assert(vstd::utf8::encode_utf8(a + b) =~= vstd::utf8::encode_utf8(a)
            + vstd::utf8::encode_utf8(b));
    }
}

proof fn lemma_encode_len(s: Seq<char>)
    ensures
        vstd::utf8::encode_utf8(s).len() >= s.len(),
    decreases s.len(),
{
    if s.len() > 0 {
        lemma_encode_len(s.drop_first());
        assert(vstd::utf8::encode_scalar(s[0] as u32).len() >= 1);
    }
}

/// The word at index `i` of the multilingual corpus; every word is
/// non-empty.
fn corpus_word(i: usize) -> (r: &'static str)
    ensures
        r@ == corpus_word_spec(i as int),
        r@.len() >= 1,
{
    proof {
        reveal_strlit("a");
        reveal_strlit("b");
        reveal_strlit("c");
        reveal_strlit("0");
        reveal_strlit("$");
        reveal_strlit("\\");
        reveal_strlit("\"");
        reveal_strlit("naive");
        reveal_strlit("cafe\u{301}");
        reveal_strlit("\u{2021}");
        reveal_strlit("\u{20ac}");
        reveal_strlit("\u{207f}");
        reveal_strlit("\u{ff12}");
        reveal_strlit("\u{fffd}");
        reveal_strlit("\u{1f618}");
        reveal_strlit("\u{1f35a}");
        reveal_strlit("\u{1f0}\u{3c0}\u{1f78}");
        reveal_strlit("\u{441}\u{43e}\u{441}\u{442}\u{43e}\u{438}\u{442}\u{441}\u{44f}");
        reveal_strlit("\u{e17}\u{e23}\u{e07}");
        reveal_strlit("Hello");
        reveal_strlit("world");
        reveal_strlit("\u{39a}\u{3b1}\u{3bb}\u{3b7}\u{3bc}\u{3ad}\u{3c1}\u{3b1}");
        reveal_strlit("\u{3ba}\u{3cc}\u{3c3}\u{3bc}\u{3b5}");
        reveal_strlit("\u{30b3}\u{30f3}\u{30cb}\u{30c1}\u{30cf}");
        reveal_strlit(" ");
        reveal_strlit("\n");
    }
    match i {
        0 => "a",
        1 => "b",
        2 => "c",
        3 => "0",
        4 => "$",
        5 => "\\",
        6 => "\"",
        7 => "naive",
        8 => "cafe\u{301}",
        9 => "\u{2021}",
        10 => "\u{20ac}",
        11 => "\u{207f}",
        12 => "\u{ff12}",
        13 => "\u{fffd}",
        14 => "\u{1f618}",
        15 => "\u{1f35a}",
        16 => "\u{1f0}\u{3c0}\u{1f78}",
        17 => "\u{441}\u{43e}\u{441}\u{442}\u{43e}\u{438}\u{442}\u{441}\u{44f}",
        18 => "\u{e17}\u{e23}\u{e07}",
        19 => "Hello",
        20 => "world",
        21 => "\u{39a}\u{3b1}\u{3bb}\u{3b7}\u{3bc}\u{3ad}\u{3c1}\u{3b1}",
        22 => "\u{3ba}\u{3cc}\u{3c3}\u{3bc}\u{3b5}",
        23 => "\u{30b3}\u{30f3}\u{30cb}\u{30c1}\u{30cf}",
        24 => " ",
        25 => " ",
        _ => "\n",
    }
}

/// Concatenate randomly chosen corpus words until the byte length
/// reaches `len`, spending at most one word per byte asked for.  A zero
/// bound gives the empty string, a positive bound a non-empty one, and
/// the result is always a concatenation of corpus words.
fn gen_unicode_str(rng: &mut Rng, len: usize) -> (r: String)
    ensures
        len == 0 ==> r@ == Seq::<char>::empty(),
        len > 0 ==> r@.len() > 0,
        exists|ws: Seq<int>| r@ == #[trigger] concat_words(ws),
        vstd::utf8::encode_utf8(r@).len() >= len,
{
    let mut res = String::new();
    let mut budget: usize = len;
    let ghost mut ws: Seq<int> = Seq::empty();
    loop
        invariant
            budget <= len,
            res@ == concat_words(ws),
            budget == len ==> res@.len() == 0,
            budget < len ==> res@.len() > 0,
            vstd::utf8::encode_utf8(res@).len() >= len - budget,
        ensures
            budget == 0 || vstd::utf8::encode_utf8(res@).len() >= len,
        decreases budget,
    {
        if budget == 0 || res.as_str().len() >= len {
            break ;
        }
        let j = rng.below(27);
        let w = corpus_word(j);
        let ghost res0 = res@;
        res.append(w);
        budget = budget - 1;
        proof {
            lemma_concat_words_push(ws, j as int);
            ws = ws.push(j as int);
            lemma_encode_concat(res0, w@);
            lemma_encode_len(w@);
        }
    }
    proof {
        if len > 0 && budget == len {
            assert(vstd::utf8::encode_utf8(res@) =~= Seq::<u8>::empty());
            assert(false);
        }
        assert(res@ == concat_words(ws));
    }
    res
}

impl Arbitrary for Unicode {
    /// A generated unicode string is a concatenation of corpus words.
    open spec fn gen_ok(m: Seq<char>, size: nat) -> bool {
        exists|ws: Seq<int>| m == #[trigger] concat_words(ws)
    }

    fn arbitrary(rng: &mut Rng, size: usize) -> (r: Unicode) {
        let n = small_n(rng, size);
        Unicode(gen_unicode_str(rng, n))
    }
}

/// A value of one of two types.
#[derive(Clone, PartialEq, Eq, Debug)]
pub enum Either<T, U> {
    /// The left alternative.
    Left(T),
    /// The right alternative.
    Right(U),
}

impl<T: Model, U: Model> Model for Either<T, U> {
    type M = Either<T::M, U::M>;

    open spec fn model(&self) -> Either<T::M, U::M> {
        match self {
            Either::Left(x) => Either::Left(x.model()),
            Either::Right(y) => Either::Right(y.model()),
        }
    }

    fn dup(&self) -> (r: Either<T, U>) {
        match self {
            Either::Left(x) => Either::Left(x.dup()),
            Either::Right(y) => Either::Right(y.dup()),
        }
    }
}

impl<T: Arbitrary, U: Arbitrary> Arbitrary for Either<T, U> {
    /// Whichever side is inhabited meets its own generation guarantee
    /// at this size.
    open spec fn gen_ok(m: Either<T::M, U::M>, size: nat) -> bool {
        match m {
            Either::Left(x) => T::gen_ok(x, size),
            Either::Right(y) => U::gen_ok(y, size),
        }
    }

    fn arbitrary(rng: &mut Rng, size: usize) -> (r: Either<T, U>) {
        if rng.next_bool() {
            Either::Left(T::arbitrary(rng, size))
        } else {
            Either::Right(U::arbitrary(rng, size))
        }
    }
}

/// An optional slot: a container that is either empty or holds one
/// value.
#[derive(Clone, PartialEq, Eq, Debug)]
pub struct Slot<T>(pub Option<T>);

impl<T: Model> Model for Slot<T> {
    type M = Option<T::M>;

    open spec fn model(&self) -> Option<T::M> {
        match &self.0 {
            Some(x) => Some(x.model()),
            None => None,
        }
    }

    fn dup(&self) -> (r: Slot<T>) {
        match &self.0 {
            Some(x) => Slot(Some(x.dup())),
            None => Slot(None),
        }
    }
}

impl<T: Model> Slot<T> {
    /// A slot holding `x`.
    pub fn new(x: T) -> (r: Slot<T>)
        ensures
            r.model() == Some(x.model()),
    {
        Slot(Some(x))
    }

    /// An empty slot.
    pub fn empty() -> (r: Slot<T>)
        ensures
            r.model() is None,
    {
        Slot(None)
    }

    /// Whether the slot is empty.
    pub fn is_empty(&self) -> (r: bool)
        ensures
            r == (self.model() is None),
    {
        match &self.0 {
            Some(_) => false,
            None => true,
        }
    }
}

impl<T: Arbitrary> Arbitrary for Slot<T> {
    /// A full slot holds a value meeting its own generation guarantee
    /// at this size.
    open spec fn gen_ok(m: Option<T::M>, size: nat) -> bool {
        match m {
            None => true,
            Some(x) => T::gen_ok(x, size),
        }
    }

    fn arbitrary(rng: &mut Rng, size: usize) -> (r: Slot<T>) {
        if rng.next_bool() {
            Slot(Some(T::arbitrary(rng, size)))
        } else {
            Slot(None)
        }
    }
}


/// A sequence with at least one element.
#[derive(Clone, PartialEq, Eq, Debug)]
pub struct NonEmpty<T>(pub Vec<T>);

impl<T: Model> Model for NonEmpty<T> {
    type M = Seq<T::M>;

    open spec fn model(&self) -> Seq<T::M> {
        self.0.model()
    }

    fn dup(&self) -> (r: NonEmpty<T>) {
        NonEmpty(self.0.dup())
    }
}

impl<T: Arbitrary> Arbitrary for NonEmpty<T> {
    /// A generated non-empty sequence has at least one element,
    /// respects the size bound on its length, and each element meets
    /// its own generation guarantee at this size.
    open spec fn gen_ok(m: Seq<T::M>, size: nat) -> bool {
        1 <= m.len() <= 1 + 16 * size && forall|i: int|
            0 <= i < m.len() ==> T::gen_ok(#[trigger] m[i], size)
    }

    fn arbitrary(rng: &mut Rng, size: usize) -> (r: NonEmpty<T>) {
        let n = small_n(rng, size);
        let mut v: Vec<T> = Vec::new();
        v.push(T::arbitrary(rng, size));
        let mut i: usize = 0;
        while i < n
            invariant
                v@.len() == i + 1,
                i <= n,
                n as nat <= 16 * (size as nat),
                forall|k: int| 0 <= k < v@.len() ==> T::gen_ok(
                    (#[trigger] v@[k]).model(),
                    size as nat,
                ),
            decreases n - i,
        {
            v.push(T::arbitrary(rng, size));
            i += 1;
        }
        let r = NonEmpty(v);
        proof {
            assert forall|k: int| 0 <= k < r.model().len() implies T::gen_ok(
                #[trigger] r.model()[k],
                size as nat,
            ) by {
                assert(r.model()[k] == v@[k].model());
            }
        }
        r
    }
}

} // verus!
