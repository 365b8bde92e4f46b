//! Finite value types that are listed in a fixed order.

use vstd::prelude::*;

verus! {

/// A type with finitely many values, listed in a fixed order.
///
/// Every value has a position `rank` in that order, counted from zero, and
/// `at` names the value at a position. The order is walked by starting at
/// `min` and applying `next` until it answers `None`; `ordinal` and
/// `from_ordinal` give the same positions as machine integers.
pub trait Bounded: Sized {
    /// Number of values of the type.
    spec fn count() -> nat;

    /// Position of a value in the order of the type.
    spec fn rank(&self) -> nat;

    /// The value that stands at position `r`.
    spec fn at(r: nat) -> Self;

    /// Positions are below `count`, and `at` inverts `rank`.
    proof fn lemma_rank(x: Self)
        ensures
            x.rank() < Self::count(),
            Self::at(x.rank()) == x,
    ;

    /// `rank` inverts `at` on the positions below `count`.
    proof fn lemma_at(r: nat)
        requires
            r < Self::count(),
        ensures
            Self::at(r).rank() == r,
    ;

    /// The first value.
    fn min() -> (r: Self)
        ensures
            r.rank() == 0,
    ;

    /// The last value.
    fn max() -> (r: Self)
        ensures
            r.rank() + 1 == Self::count(),
    ;

    /// The value that follows `self`, or `None` after the last one.
    fn next(&self) -> (r: Option<Self>)
        ensures
            match r {
                Some(n) => n.rank() == self.rank() + 1,
                None => self.rank() + 1 == Self::count(),
            },
    ;

    /// The position of `self` as a machine integer.
    fn ordinal(&self) -> (r: u32)
        ensures
            r == self.rank(),
    ;

    /// The value at position `r`, or `None` where `r` is past the last one.
    fn from_ordinal(r: u32) -> (x: Option<Self>)
        ensures
            x == if r < Self::count() {
                Some(Self::at(r as nat))
            } else {
                None
            },
    ;
}

/// Every value of `T`, in the order of the type.
pub open spec fn values<T: Bounded>() -> Seq<T> {
    Seq::new(T::count(), |i: int| T::at(i as nat))
}

/// Two values with the same position are the same value.
pub proof fn lemma_rank_injective<T: Bounded>(a: T, b: T)
    requires
        a.rank() == b.rank(),
    ensures
        a == b,
{
    T::lemma_rank(a);
    T::lemma_rank(b);
}

/// `values` holds no value twice.
pub proof fn lemma_values_distinct<T: Bounded>()
    ensures
        values::<T>().no_duplicates(),
{
    let s = values::<T>();
    assert forall|i: int, j: int| 0 <= i < s.len() && 0 <= j < s.len() && i != j implies s[i]
        != s[j] by {
        T::lemma_at(i as nat);
        T::lemma_at(j as nat);
    }
}

/// `values` holds every value, at the index that is its rank.
pub proof fn lemma_values_complete<T: Bounded>(x: T)
    ensures
        x.rank() < values::<T>().len(),
        values::<T>()[x.rank() as int] == x,
        values::<T>().contains(x),
{
    T::lemma_rank(x);
    assert(values::<T>()[x.rank() as int] == x);
}

/// Walks the order of `T` from `min` by `next` and collects what it passes:
/// every value of the type, once, in rising rank.
pub fn walk<T: Bounded>() -> (all: Vec<T>)
    ensures
        all@ == values::<T>(),
{
    let mut all: Vec<T> = Vec::new();
    let mut cur = T::min();
    proof {
        T::lemma_rank(cur);
    }
    loop
        invariant_except_break
            all@.len() == cur.rank(),
            cur.rank() < T::count(),
            forall|i: int| 0 <= i < all@.len() ==> all@[i] == T::at(i as nat),
        ensures
            all@.len() == T::count(),
            forall|i: int| 0 <= i < all@.len() ==> all@[i] == T::at(i as nat),
        decreases T::count() - cur.rank(),
    {
        let following = cur.next();
        proof {
            T::lemma_rank(cur);
        }
        all.push(cur);
        match following {
            Some(n) => {
                proof {
                    T::lemma_rank(n);
                }
                cur = n;
            },
            None => {
                break ;
            },
        }
    }
    assert(all@ =~= values::<T>());
    all
}

impl Bounded for bool {
    open spec fn count() -> nat {
        2
    }

    open spec fn rank(&self) -> nat {
        if *self {
            1
        } else {
            0
        }
    }

    open spec fn at(r: nat) -> bool {
        r != 0
    }

    proof fn lemma_rank(x: bool) {
    }

    proof fn lemma_at(r: nat) {
    }

    fn min() -> (r: bool) {
        false
    }

    fn max() -> (r: bool) {
        true
    }

    fn next(&self) -> (r: Option<bool>) {
        if *self {
            None
        } else {
            Some(true)
        }
    }

    fn ordinal(&self) -> (r: u32) {
        if *self {
            1
        } else {
            0
        }
    }

    fn from_ordinal(r: u32) -> (x: Option<bool>) {
        if r == 0 {
            Some(false)
        } else if r == 1 {
            Some(true)
        } else {
            None
        }
    }
}

} // verus!
