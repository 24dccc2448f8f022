//! Total orders on the values that index the library's ordered collections.
use vstd::prelude::*;

verus! {

/// The outcome of comparing two keys.
#[derive(Clone, Copy, Debug, PartialEq, Eq, Structural)]
pub enum Rank {
    Before,
    Same,
    After,
}

/// A value with a mathematical model and a strict total order on the models.
pub trait Key: Sized {
    type M;

    spec fn model(&self) -> Self::M;

    spec fn precedes(a: Self::M, b: Self::M) -> bool;

    proof fn order_laws(a: Self::M, b: Self::M, c: Self::M)
        ensures
            !Self::precedes(a, a),
            Self::precedes(a, b) && Self::precedes(b, c) ==> Self::precedes(a, c),
            a == b || Self::precedes(a, b) || Self::precedes(b, a),
    ;

    fn rank(&self, other: &Self) -> (r: Rank)
        ensures
            match r {
                Rank::Before => Self::precedes(self.model(), other.model()),
                Rank::Same => self.model() == other.model(),
                Rank::After => Self::precedes(other.model(), self.model()),
            },
    ;

    fn dup(&self) -> (r: Self)
        ensures
            r.model() == self.model(),
    ;
}

/// `a` comes before `b` in the lexicographic order induced by `lt`: they agree on a prefix and
/// then either `a` ends or its next element is the smaller one.
pub open spec fn lex_at<M>(a: Seq<M>, b: Seq<M>, lt: spec_fn(M, M) -> bool, i: int) -> bool {
    &&& 0 <= i <= a.len()
    &&& i <= b.len()
    &&& forall|j: int| 0 <= j < i ==> a[j] == b[j]
    &&& (if i == a.len() {
        i < b.len()
    } else {
        i < b.len() && lt(a[i], b[i])
    })
}

pub open spec fn lex_precedes<M>(a: Seq<M>, b: Seq<M>, lt: spec_fn(M, M) -> bool) -> bool {
    exists|i: int| lex_at(a, b, lt, i)
}

pub open spec fn strict_total<M>(lt: spec_fn(M, M) -> bool) -> bool {
    &&& forall|x: M| !#[trigger] lt(x, x)
    &&& forall|x: M, y: M, z: M| #[trigger] lt(x, y) && #[trigger] lt(y, z) ==> lt(x, z)
    &&& forall|x: M, y: M| x == y || #[trigger] lt(x, y) || lt(y, x)
}

/// The length of the longest common prefix of two sequences.
spec fn common<M>(a: Seq<M>, b: Seq<M>, i: nat) -> nat
    decreases a.len() - i,
{
    if i < a.len() && i < b.len() && a[i as int] == b[i as int] {
        common(a, b, i + 1)
    } else {
        i
    }
}

proof fn common_is_maximal<M>(a: Seq<M>, b: Seq<M>, i: nat)
    requires
        i <= a.len(),
        i <= b.len(),
        forall|j: int| 0 <= j < i ==> a[j] == b[j],
    ensures
        ({
            let n = common(a, b, i);
            &&& i <= n <= a.len()
            &&& n <= b.len()
            &&& forall|j: int| 0 <= j < n ==> a[j] == b[j]
            &&& n < a.len() && n < b.len() ==> a[n as int] != b[n as int]
        }),
    decreases a.len() - i,
{
    if i < a.len() && i < b.len() && a[i as int] == b[i as int] {
        common_is_maximal(a, b, i + 1);
    }
}

/// The lexicographic order of a strict total order is a strict total order.
pub proof fn lex_is_strict_total<M>(a: Seq<M>, b: Seq<M>, c: Seq<M>, lt: spec_fn(M, M) -> bool)
    requires
        strict_total(lt),
    ensures
        !lex_precedes(a, a, lt),
        lex_precedes(a, b, lt) && lex_precedes(b, c, lt) ==> lex_precedes(a, c, lt),
        a == b || lex_precedes(a, b, lt) || lex_precedes(b, a, lt),
{
    if lex_precedes(a, b, lt) && lex_precedes(b, c, lt) {
        let i = choose|i: int| lex_at(a, b, lt, i);
        let j = choose|j: int| lex_at(b, c, lt, j);
        let k = if i < j { i } else { j };
        if i == j && i < a.len() {
            assert(lt(a[i], b[i]) && lt(b[i], c[i]));
        }
        assert(lex_at(a, c, lt, k));
    }
    common_is_maximal(a, b, 0);
    let n = common(a, b, 0);
    if n == a.len() && n == b.len() {
        assert(a =~= b);
    } else if n < a.len() && n < b.len() {
        let x = a[n as int];
        let y = b[n as int];
        assert(lt(x, y) || lt(y, x));
        assert(lex_at(a, b, lt, n as int) || lex_at(b, a, lt, n as int));
    } else if n == a.len() {
        assert(lex_at(a, b, lt, n as int));
    } else {
        assert(lex_at(b, a, lt, n as int));
    }
}

pub open spec fn char_before(a: char, b: char) -> bool {
    (a as int) < (b as int)
}

proof fn char_order()
    ensures
        strict_total(|a: char, b: char| char_before(a, b)),
{
}

/// Text order: lexicographic by Unicode scalar value, which is also the order of UTF-8 bytes.
pub open spec fn text_before(a: Seq<char>, b: Seq<char>) -> bool {
    lex_precedes(a, b, |x: char, y: char| char_before(x, y))
}

/// The characters of `text` as a vector.
pub fn chars_of(text: &str) -> (r: Vec<char>)
    ensures
        r@ == text@,
{
    let mut out: Vec<char> = Vec::new();
    for c in it: text.chars()
        invariant
            it.seq() == text@,
            out@ == text@.take(it.index() as int),
    {
        out.push(c);
        assert(text@.take(it.index() as int + 1) =~= text@.take(it.index() as int).push(c));
    }
    assert(text@.take(text@.len() as int) =~= text@);
    out
}

/// Compares two texts.
pub fn rank_text(left: &str, right: &str) -> (r: Rank)
    ensures
        match r {
            Rank::Before => text_before(left@, right@),
            Rank::Same => left@ == right@,
            Rank::After => text_before(right@, left@),
        },
{
    let a = chars_of(left);
    let b = chars_of(right);
    let mut i: usize = 0;
    while i < a.len() && i < b.len() && a[i] == b[i]
        invariant
            i <= a.len(),
            i <= b.len(),
            forall|j: int| 0 <= j < i ==> a@[j] == b@[j],
        decreases a.len() - i,
    {
        i += 1;
    }
    let ghost lt = |x: char, y: char| char_before(x, y);
    if i == a.len() {
        if i == b.len() {
            assert(a@ =~= b@);
            return Rank::Same;
        }
        assert(lex_at(a@, b@, lt, i as int));
        Rank::Before
    } else if i == b.len() {
        assert(lex_at(b@, a@, lt, i as int));
        Rank::After
    } else if a[i] < b[i] {
        assert(lex_at(a@, b@, lt, i as int));
        Rank::Before
    } else {
        assert(lex_at(b@, a@, lt, i as int));
        Rank::After
    }
}

impl Key for String {
    type M = Seq<char>;

    open spec fn model(&self) -> Seq<char> {
        self@
    }

    open spec fn precedes(a: Seq<char>, b: Seq<char>) -> bool {
        text_before(a, b)
    }

    proof fn order_laws(a: Seq<char>, b: Seq<char>, c: Seq<char>) {
        char_order();
        lex_is_strict_total(a, b, c, |x: char, y: char| char_before(x, y));
        assert(Self::precedes(a, a) == text_before(a, a));
        assert(Self::precedes(a, b) == text_before(a, b));
        assert(Self::precedes(b, c) == text_before(b, c));
        assert(Self::precedes(a, c) == text_before(a, c));
    }

    fn rank(&self, other: &String) -> (r: Rank) {
        rank_text(self.as_str(), other.as_str())
    }

    fn dup(&self) -> (r: String) {
        self.clone()
    }
}

impl Key for usize {
    type M = int;

    open spec fn model(&self) -> int {
        *self as int
    }

    open spec fn precedes(a: int, b: int) -> bool {
        a < b
    }

    proof fn order_laws(a: int, b: int, c: int) {
    }

    fn rank(&self, other: &usize) -> (r: Rank) {
        if *self < *other {
            Rank::Before
        } else if *self == *other {
            Rank::Same
        } else {
            Rank::After
        }
    }

    fn dup(&self) -> (r: usize) {
        *self
    }
}

impl<A: Key, B: Key> Key for (A, B) {
    type M = (A::M, B::M);

    open spec fn model(&self) -> (A::M, B::M) {
        (self.0.model(), self.1.model())
    }

    open spec fn precedes(a: (A::M, B::M), b: (A::M, B::M)) -> bool {
        A::precedes(a.0, b.0) || (a.0 == b.0 && B::precedes(a.1, b.1))
    }

    proof fn order_laws(a: (A::M, B::M), b: (A::M, B::M), c: (A::M, B::M)) {
        A::order_laws(a.0, b.0, c.0);
        B::order_laws(a.1, b.1, c.1);
    }

    fn rank(&self, other: &(A, B)) -> (r: Rank) {
        match self.0.rank(&other.0) {
            Rank::Before => Rank::Before,
            Rank::After => Rank::After,
            Rank::Same => self.1.rank(&other.1),
        }
    }

    fn dup(&self) -> (r: (A, B)) {
        (self.0.dup(), self.1.dup())
    }
}

impl<A: Key> Key for Option<A> {
    type M = Option<A::M>;

    open spec fn model(&self) -> Option<A::M> {
        match self {
            Some(a) => Some(a.model()),
            None => None,
        }
    }

    open spec fn precedes(a: Option<A::M>, b: Option<A::M>) -> bool {
        match (a, b) {
            (None, Some(_)) => true,
            (Some(x), Some(y)) => A::precedes(x, y),
            _ => false,
        }
    }

    proof fn order_laws(a: Option<A::M>, b: Option<A::M>, c: Option<A::M>) {
        let x = if a is Some { a->0 } else { b->0 };
        let y = if b is Some { b->0 } else { x };
        let z = if c is Some { c->0 } else { x };
        A::order_laws(x, y, z);
    }

    fn rank(&self, other: &Option<A>) -> (r: Rank) {
        match (self, other) {
            (None, None) => Rank::Same,
            (None, Some(_)) => Rank::Before,
            (Some(_), None) => Rank::After,
            (Some(x), Some(y)) => x.rank(y),
        }
    }

    fn dup(&self) -> (r: Option<A>) {
        match self {
            Some(a) => Some(a.dup()),
            None => None,
        }
    }
}

/// The models of the elements of a sequence of keys.
pub open spec fn models<T: Key>(s: Seq<T>) -> Seq<T::M> {
    s.map_values(|t: T| t.model())
}

pub open spec fn key_order<T: Key>() -> spec_fn(T::M, T::M) -> bool {
    |x: T::M, y: T::M| T::precedes(x, y)
}

pub proof fn key_order_is_strict_total<T: Key>()
    ensures
        strict_total(key_order::<T>()),
{
    let lt = key_order::<T>();
    assert forall|x: T::M| !#[trigger] lt(x, x) by {
        T::order_laws(x, x, x);
    }
    assert forall|x: T::M, y: T::M, z: T::M| #[trigger] lt(x, y) && #[trigger] lt(y, z) implies lt(
        x,
        z,
    ) by {
        T::order_laws(x, y, z);
    }
    assert forall|x: T::M, y: T::M| x == y || #[trigger] lt(x, y) || lt(y, x) by {
        T::order_laws(x, y, x);
    }
}

impl<T: Key> Key for Vec<T> {
    type M = Seq<T::M>;

    open spec fn model(&self) -> Seq<T::M> {
        models(self@)
    }

    open spec fn precedes(a: Seq<T::M>, b: Seq<T::M>) -> bool {
        lex_precedes(a, b, key_order::<T>())
    }

    proof fn order_laws(a: Seq<T::M>, b: Seq<T::M>, c: Seq<T::M>) {
        key_order_is_strict_total::<T>();
        lex_is_strict_total(a, b, c, key_order::<T>());
        assert(Self::precedes(a, a) == lex_precedes(a, a, key_order::<T>()));
        assert(Self::precedes(a, b) == lex_precedes(a, b, key_order::<T>()));
        assert(Self::precedes(b, c) == lex_precedes(b, c, key_order::<T>()));
        assert(Self::precedes(a, c) == lex_precedes(a, c, key_order::<T>()));
    }

    fn rank(&self, other: &Vec<T>) -> (r: Rank) {
        let ghost a = models(self@);
        let ghost b = models(other@);
        let ghost lt = key_order::<T>();
        let mut i: usize = 0;
        while i < self.len() && i < other.len()
            invariant
                i <= self.len(),
                i <= other.len(),
                a == models(self@),
                b == models(other@),
                lt == key_order::<T>(),
                forall|j: int| 0 <= j < i ==> a[j] == b[j],
            decreases self.len() - i,
        {
            match self[i].rank(&other[i]) {
                Rank::Before => {
                    assert(lex_at(a, b, lt, i as int));
                    return Rank::Before;
                },
                Rank::After => {
                    assert(lex_at(b, a, lt, i as int));
                    return Rank::After;
                },
                Rank::Same => {},
            }
            i += 1;
        }
        if self.len() < other.len() {
            assert(lex_at(a, b, lt, i as int));
            Rank::Before
        } else if other.len() < self.len() {
            assert(lex_at(b, a, lt, i as int));
            Rank::After
        } else {
            assert(a =~= b);
            Rank::Same
        }
    }

    fn dup(&self) -> (r: Vec<T>) {
        let mut out: Vec<T> = Vec::new();
        let mut i: usize = 0;
        while i < self.len()
            invariant
                i <= self.len(),
                models(out@) =~= models(self@).take(i as int),
            decreases self.len() - i,
        {
            let ghost before = out@;
            let item = self[i].dup();
            out.push(item);
            assert(models(out@) =~= models(before).push(item.model()));
            i += 1;
        }
        assert(models(self@).take(i as int) =~= models(self@));
        out
    }
}

} // verus!
