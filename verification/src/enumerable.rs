//! Exhaustive enumeration of sum types whose variants carry bounded fields.
//!
//! A type declares its shape: for every variant, in declaration order, the
//! bounds of its fields. Its values are then listed variant by variant, and
//! within a variant as the cartesian product of the fields.

use vstd::prelude::*;
use crate::product::{
    enumerate_tuples, fields_wf, lemma_tuple_at, lemma_tuple_index, rows, tuple_at, tuple_count,
    tuple_index, tuple_valid, tuples, FieldBound,
};

verus! {

/// The coded values of one variant: its index with every tuple over its
/// fields, in the order of the tuples.
pub open spec fn variant_codes(variant: int, fields: Seq<FieldBound>) -> Seq<(int, Seq<u32>)> {
    Seq::new(tuple_count(fields), |i: int| (variant, tuple_at(fields, i as nat)))
}

/// The coded values of a whole type: those of its variants, one variant
/// after the other.
pub open spec fn codes(shape: Seq<Seq<FieldBound>>) -> Seq<(int, Seq<u32>)>
    decreases shape.len(),
{
    if shape.len() == 0 {
        Seq::empty()
    } else {
        codes(shape.drop_last()) + variant_codes(shape.len() - 1, shape.last())
    }
}

/// Number of values of a type: over its variants, the sum of the products of
/// the field sizes.
pub open spec fn shape_count(shape: Seq<Seq<FieldBound>>) -> nat
    decreases shape.len(),
{
    if shape.len() == 0 {
        0
    } else {
        shape_count(shape.drop_last()) + tuple_count(shape.last())
    }
}

/// Every field of every variant has a range that is not empty.
pub open spec fn shape_wf(shape: Seq<Seq<FieldBound>>) -> bool {
    forall|v: int| 0 <= v < shape.len() ==> fields_wf(#[trigger] shape[v])
}

/// `variant` is a variant of the shape and `t` a valid tuple over its fields.
pub open spec fn code_valid(shape: Seq<Seq<FieldBound>>, variant: int, t: Seq<u32>) -> bool {
    &&& 0 <= variant < shape.len()
    &&& tuple_valid(shape[variant], t)
}

/// Index of a valid coded value in `codes`: the values of the earlier
/// variants come first.
pub open spec fn code_index(shape: Seq<Seq<FieldBound>>, variant: int, t: Seq<u32>) -> nat {
    shape_count(shape.take(variant)) + tuple_index(shape[variant], t)
}

proof fn lemma_shape_prefix_wf(shape: Seq<Seq<FieldBound>>, n: int)
    requires
        shape_wf(shape),
        0 <= n <= shape.len(),
    ensures
        shape_wf(shape.take(n)),
{
    let p = shape.take(n);
    assert forall|v: int| 0 <= v < p.len() implies fields_wf(#[trigger] p[v]) by {
        assert(p[v] == shape[v]);
    }
}

proof fn lemma_codes_take(shape: Seq<Seq<FieldBound>>, v: int)
    requires
        0 <= v < shape.len(),
    ensures
        codes(shape.take(v + 1)) == codes(shape.take(v)) + variant_codes(v, shape[v]),
        shape_count(shape.take(v + 1)) == shape_count(shape.take(v)) + tuple_count(shape[v]),
{
    assert(shape.take(v + 1).drop_last() =~= shape.take(v));
}

/// `codes` holds `shape_count` coded values.
pub proof fn lemma_codes_len(shape: Seq<Seq<FieldBound>>)
    ensures
        codes(shape).len() == shape_count(shape),
    decreases shape.len(),
{
    if shape.len() > 0 {
        lemma_codes_len(shape.drop_last());
    }
}

/// The count of a prefix of the variants is no more than that of all.
proof fn lemma_shape_count_prefix(shape: Seq<Seq<FieldBound>>, n: int)
    requires
        0 <= n <= shape.len(),
    ensures
        shape_count(shape.take(n)) <= shape_count(shape),
    decreases shape.len() - n,
{
    if n == shape.len() {
        assert(shape.take(n) =~= shape);
    } else {
        lemma_shape_count_prefix(shape, n + 1);
        lemma_codes_take(shape, n);
    }
}

/// Every coded value listed is valid, and stands at its `code_index`.
pub proof fn lemma_codes_valid(shape: Seq<Seq<FieldBound>>, i: int)
    requires
        shape_wf(shape),
        0 <= i < codes(shape).len(),
    ensures
        code_valid(shape, codes(shape)[i].0, codes(shape)[i].1),
        code_index(shape, codes(shape)[i].0, codes(shape)[i].1) == i,
    decreases shape.len(),
{
    let p = shape.drop_last();
    let last = shape.len() - 1;
    lemma_codes_len(p);
    assert(p =~= shape.take(last));
    if i < codes(p).len() {
        lemma_shape_prefix_wf(shape, last);
        lemma_codes_valid(p, i);
        let v = codes(p)[i].0;
        assert(p[v] == shape[v]);
        assert(p.take(v) =~= shape.take(v));
    } else {
        let j = i - codes(p).len();
        assert(codes(shape)[i] == variant_codes(last, shape.last())[j]);
        assert(fields_wf(shape[last]));
        lemma_tuple_at(shape.last(), j as nat);
    }
}

/// Every valid coded value is listed, at its `code_index`.
pub proof fn lemma_codes_complete(shape: Seq<Seq<FieldBound>>, variant: int, t: Seq<u32>)
    requires
        shape_wf(shape),
        code_valid(shape, variant, t),
    ensures
        code_index(shape, variant, t) < codes(shape).len(),
        codes(shape)[code_index(shape, variant, t) as int] == (variant, t),
        codes(shape).contains((variant, t)),
    decreases shape.len(),
{
    let p = shape.drop_last();
    let last = shape.len() - 1;
    lemma_codes_len(p);
    lemma_codes_len(shape);
    assert(p =~= shape.take(last));
    if variant < last {
        lemma_shape_prefix_wf(shape, last);
        assert(p[variant] == shape[variant]);
        assert(p.take(variant) =~= shape.take(variant));
        lemma_codes_complete(p, variant, t);
        assert(codes(shape)[code_index(shape, variant, t) as int] == (variant, t));
    } else {
        assert(fields_wf(shape[last]));
        lemma_tuple_index(shape.last(), t);
        let j = tuple_index(shape.last(), t);
        assert(variant_codes(last, shape.last())[j as int] == (variant, t));
        assert(codes(shape)[code_index(shape, variant, t) as int] == (variant, t));
    }
}

/// No coded value is listed twice.
pub proof fn lemma_codes_distinct(shape: Seq<Seq<FieldBound>>)
    requires
        shape_wf(shape),
    ensures
        codes(shape).no_duplicates(),
{
    let s = codes(shape);
    assert forall|i: int, j: int| 0 <= i < s.len() && 0 <= j < s.len() && i != j implies s[i]
        != s[j] by {
        lemma_codes_valid(shape, i);
        lemma_codes_valid(shape, j);
    }
}

/// Variants without fields have one value each: where no variant of a shape
/// has a field, its first `n` variants have `n` values, and the value of
/// variant `v` is listed at index `v`.
pub proof fn lemma_unit_variants(shape: Seq<Seq<FieldBound>>, n: int)
    requires
        0 <= n <= shape.len(),
        forall|v: int| 0 <= v < shape.len() ==> (#[trigger] shape[v]).len() == 0,
    ensures
        shape_wf(shape),
        shape_count(shape.take(n)) == n,
        codes(shape.take(n)).len() == n,
        forall|v: int|
            0 <= v < n ==> (#[trigger] codes(shape.take(n))[v]) == (v, Seq::<u32>::empty()),
    decreases n,
{
    assert(shape_wf(shape)) by {
        assert forall|v: int| 0 <= v < shape.len() implies fields_wf(#[trigger] shape[v]) by {
            assert(shape[v].len() == 0);
        }
    }
    if n > 0 {
        lemma_unit_variants(shape, n - 1);
        lemma_codes_take(shape, n - 1);
        let last = shape[n - 1];
        assert(last.len() == 0);
        assert(tuple_count(last) == 1);
        assert(variant_codes(n - 1, last)[0] == (n - 1, Seq::<u32>::empty()));
        assert forall|v: int| 0 <= v < n implies (#[trigger] codes(shape.take(n))[v]) == (
            v,
            Seq::<u32>::empty(),
        ) by {
            if v < n - 1 {
                assert(codes(shape.take(n))[v] == codes(shape.take(n - 1))[v]);
            }
        }
    }
}

/// A sum type whose values can all be listed.
///
/// `shape` declares the bounds of the fields of each variant, and `decoded`
/// and `variant_of` with `codes_of` convert between values and coded
/// values. A field that is held constant during enumeration has a range of
/// one code; a value is `covered` when every such field holds that code.
pub trait Enumerable: Sized {
    /// For each variant, in declaration order, the bounds of its fields.
    spec fn shape() -> Seq<Seq<FieldBound>>;

    /// The value with the given variant and field codes.
    spec fn decoded(variant: int, t: Seq<u32>) -> Self;

    /// Index of the variant of a value.
    spec fn variant_of(&self) -> int;

    /// Codes of the fields of a value.
    spec fn codes_of(&self) -> Seq<u32>;

    /// Every field that is held constant holds its constant.
    spec fn covered(&self) -> bool;

    /// The declared ranges are not empty, and the values fit in a vector.
    proof fn lemma_shape()
        ensures
            shape_wf(Self::shape()),
            shape_count(Self::shape()) <= usize::MAX,
    ;

    /// Decoding a valid coded value gives a covered value with that code.
    proof fn lemma_decoded(variant: int, t: Seq<u32>)
        requires
            code_valid(Self::shape(), variant, t),
        ensures
            Self::decoded(variant, t).covered(),
            Self::decoded(variant, t).variant_of() == variant,
            Self::decoded(variant, t).codes_of() == t,
    ;

    /// A covered value has a valid code, which decodes to it.
    proof fn lemma_encoded(x: Self)
        requires
            x.covered(),
        ensures
            code_valid(Self::shape(), x.variant_of(), x.codes_of()),
            Self::decoded(x.variant_of(), x.codes_of()) == x,
    ;

    /// Number of variants.
    fn variant_count() -> (n: usize)
        ensures
            n == Self::shape().len(),
    ;

    /// The bounds of the fields of one variant.
    fn variant_fields(variant: usize) -> (fields: Vec<FieldBound>)
        requires
            variant < Self::shape().len(),
        ensures
            fields@ == Self::shape()[variant as int],
    ;

    /// The value with the given variant and field codes.
    fn decode(variant: usize, t: &Vec<u32>) -> (x: Self)
        requires
            code_valid(Self::shape(), variant as int, t@),
        ensures
            x == Self::decoded(variant as int, t@),
    ;

    /// Every covered value of the type, once: variants in declaration order,
    /// and within a variant the product of its fields, the last field varying
    /// fastest.
    fn enumerate_all() -> (all: Vec<Self>)
        ensures
            all@.len() == codes(Self::shape()).len(),
            forall|i: int|
                0 <= i < all@.len() ==> #[trigger] all@[i] == Self::decoded(
                    codes(Self::shape())[i].0,
                    codes(Self::shape())[i].1,
                ),
    {
        let ghost shape = Self::shape();
        proof {
            Self::lemma_shape();
        }
        let n = Self::variant_count();
        let mut all: Vec<Self> = Vec::new();
        let mut v: usize = 0;
        assert(shape.take(0) =~= Seq::<Seq<FieldBound>>::empty());
        while v < n
            invariant
                v <= n,
                n == shape.len(),
                shape == Self::shape(),
                shape_wf(shape),
                shape_count(shape) <= usize::MAX,
                all@.len() == codes(shape.take(v as int)).len(),
                forall|i: int|
                    0 <= i < all@.len() ==> #[trigger] all@[i] == Self::decoded(
                        codes(shape.take(v as int))[i].0,
                        codes(shape.take(v as int))[i].1,
                    ),
            decreases n - v,
        {
            let fields = Self::variant_fields(v);
            let ghost before = codes(shape.take(v as int));
            let ghost after = codes(shape.take(v as int + 1));
            proof {
                lemma_codes_take(shape, v as int);
                lemma_shape_count_prefix(shape, v as int + 1);
                assert(fields_wf(shape[v as int]));
            }
            match enumerate_tuples(&fields) {
                Ok(ts) => {
                    let mut j: usize = 0;
                    assert(rows(ts@).len() == ts@.len());
                    assert(tuples(fields@).len() == tuple_count(fields@));
                    while j < ts.len()
                        invariant
                            j <= ts.len(),
                            v < n,
                            n == shape.len(),
                            shape == Self::shape(),
                            shape_wf(shape),
                            fields@ == shape[v as int],
                            rows(ts@) == tuples(fields@),
                            ts@.len() == tuple_count(fields@),
                            before == codes(shape.take(v as int)),
                            after == before + variant_codes(v as int, fields@),
                            all@.len() == before.len() + j,
                            forall|i: int|
                                0 <= i < all@.len() ==> #[trigger] all@[i] == Self::decoded(
                                    after[i].0,
                                    after[i].1,
                                ),
                        decreases ts.len() - j,
                    {
                        proof {
                            assert(rows(ts@)[j as int] == ts@[j as int]@);
                            assert(tuples(fields@)[j as int] == tuple_at(fields@, j as nat));
                            lemma_tuple_at(fields@, j as nat);
                            assert(after[before.len() + j] == variant_codes(
                                v as int,
                                fields@,
                            )[j as int]);
                        }
                        let x = Self::decode(v, &ts[j]);
                        all.push(x);
                        j += 1;
                    }
                },
                Err(_) => {
                    proof {
                        lemma_codes_len(shape.take(v as int + 1));
                        lemma_codes_len(shape.take(v as int));
                        assert(false);
                    }
                },
            }
            v += 1;
        }
        assert(shape.take(v as int) =~= shape);
        all
    }
}

/// Every covered value of `T`, in the order of enumeration.
pub open spec fn domain<T: Enumerable>() -> Seq<T> {
    Seq::new(
        codes(T::shape()).len(),
        |i: int| T::decoded(codes(T::shape())[i].0, codes(T::shape())[i].1),
    )
}

/// The enumeration has one value for each tuple of each variant: its length
/// is the sum over the variants of the products of the field sizes.
pub proof fn lemma_domain_len<T: Enumerable>()
    ensures
        domain::<T>().len() == shape_count(T::shape()),
{
    lemma_codes_len(T::shape());
}

/// The enumeration holds no value twice.
pub proof fn lemma_domain_distinct<T: Enumerable>()
    ensures
        domain::<T>().no_duplicates(),
{
    let s = domain::<T>();
    let c = codes(T::shape());
    T::lemma_shape();
    assert forall|i: int, j: int| 0 <= i < s.len() && 0 <= j < s.len() && i != j implies s[i]
        != s[j] by {
        lemma_codes_valid(T::shape(), i);
        lemma_codes_valid(T::shape(), j);
        T::lemma_decoded(c[i].0, c[i].1);
        T::lemma_decoded(c[j].0, c[j].1);
    }
}

/// The enumeration holds exactly the covered values: none is left out.
pub proof fn lemma_domain_complete<T: Enumerable>(x: T)
    ensures
        domain::<T>().contains(x) <==> x.covered(),
{
    let s = domain::<T>();
    let c = codes(T::shape());
    T::lemma_shape();
    if x.covered() {
        T::lemma_encoded(x);
        lemma_codes_complete(T::shape(), x.variant_of(), x.codes_of());
        let i = code_index(T::shape(), x.variant_of(), x.codes_of()) as int;
        assert(s[i] == x);
    }
    if s.contains(x) {
        let i = choose|i: int| 0 <= i < s.len() && s[i] == x;
        lemma_codes_valid(T::shape(), i);
        T::lemma_decoded(c[i].0, c[i].1);
    }
}

/// What `enumerate_all` returns is the `domain` of the type.
pub proof fn lemma_enumerated_is_domain<T: Enumerable>(all: Seq<T>)
    requires
        all.len() == codes(T::shape()).len(),
        forall|i: int|
            0 <= i < all.len() ==> #[trigger] all[i] == T::decoded(
                codes(T::shape())[i].0,
                codes(T::shape())[i].1,
            ),
    ensures
        all == domain::<T>(),
{
    assert(all =~= domain::<T>());
}

} // verus!
