//! Cartesian products of bounded fields.
//!
//! A field is described by the least and the greatest code it may hold. The
//! tuples over a list of fields are listed in lexicographic order, the last
//! field varying fastest, so that the tuple at index `i` is the mixed-radix
//! writing of `i`.

use vstd::prelude::*;
use vstd::arithmetic::div_mod::{lemma_fundamental_div_mod, lemma_fundamental_div_mod_converse, lemma_mod_bound, lemma_multiply_divide_lt};
use vstd::arithmetic::mul::{lemma_mul_inequality, lemma_mul_is_commutative};
use crate::bounded::Bounded;

verus! {

/// The codes one field may hold: `min` up to `max`, both included.
///
/// A field that is held constant has `min == max`.
#[derive(Clone, Copy, Debug, PartialEq, Eq)]
pub struct FieldBound {
    pub min: u32,
    pub max: u32,
}

/// Why a list of fields has no enumeration.
#[derive(Clone, Copy, Debug, PartialEq, Eq)]
pub enum ShapeError {
    /// Some field has its least code above its greatest.
    IllFormed,
    /// There are more tuples than a vector can hold.
    TooLarge,
}

impl FieldBound {
    /// The range is not empty.
    pub open spec fn wf(self) -> bool {
        self.min <= self.max
    }

    /// Number of codes in the range: `max - min + 1`.
    pub open spec fn size(self) -> nat {
        if self.min <= self.max {
            (self.max - self.min + 1) as nat
        } else {
            0
        }
    }

    /// `v` lies in the range.
    pub open spec fn admits(self, v: u32) -> bool {
        self.min <= v <= self.max
    }

    /// A field that is left out of the product and stays at `default`.
    pub fn skipped(default: u32) -> (f: FieldBound)
        ensures
            f == (FieldBound { min: default, max: default }),
            f.size() == 1,
    {
        FieldBound { min: default, max: default }
    }

    /// The field that runs over the ordinals of a bounded type.
    pub fn of<T: Bounded>() -> (f: FieldBound)
        ensures
            f.min == 0,
            f.max + 1 == T::count(),
            f.size() == T::count(),
    {
        let lo = T::min();
        let hi = T::max();
        FieldBound { min: lo.ordinal(), max: hi.ordinal() }
    }
}

/// Every field of the list has a range that is not empty.
pub open spec fn fields_wf(fields: Seq<FieldBound>) -> bool {
    forall|j: int| 0 <= j < fields.len() ==> (#[trigger] fields[j]).wf()
}

/// Number of tuples over the fields: the product of their sizes.
pub open spec fn tuple_count(fields: Seq<FieldBound>) -> nat
    decreases fields.len(),
{
    if fields.len() == 0 {
        1
    } else {
        tuple_count(fields.drop_last()) * fields.last().size()
    }
}

/// The tuple at index `i` of the lexicographic order, last field fastest.
pub open spec fn tuple_at(fields: Seq<FieldBound>, i: nat) -> Seq<u32>
    decreases fields.len(),
{
    if fields.len() == 0 {
        Seq::empty()
    } else {
        let f = fields.last();
        tuple_at(fields.drop_last(), i / f.size()).push((f.min + i % f.size()) as u32)
    }
}

/// `t` holds one admitted code for each field.
pub open spec fn tuple_valid(fields: Seq<FieldBound>, t: Seq<u32>) -> bool {
    &&& t.len() == fields.len()
    &&& forall|j: int| 0 <= j < fields.len() ==> (#[trigger] fields[j]).admits(t[j])
}

/// The index at which a valid tuple stands in the lexicographic order.
pub open spec fn tuple_index(fields: Seq<FieldBound>, t: Seq<u32>) -> nat
    decreases fields.len(),
{
    if fields.len() == 0 {
        0
    } else {
        let f = fields.last();
        (tuple_index(fields.drop_last(), t.drop_last()) * f.size() + (t.last() - f.min)) as nat
    }
}

/// All tuples over the fields, in order.
pub open spec fn tuples(fields: Seq<FieldBound>) -> Seq<Seq<u32>> {
    Seq::new(tuple_count(fields), |i: int| tuple_at(fields, i as nat))
}

/// The rows of a vector of vectors, as sequences.
pub open spec fn rows(v: Seq<Vec<u32>>) -> Seq<Seq<u32>> {
    Seq::new(v.len(), |i: int| v[i]@)
}

/// What counting the tuples answers: the count, or why there is none.
pub open spec fn count_result(fields: Seq<FieldBound>) -> Result<usize, ShapeError> {
    if !fields_wf(fields) {
        Err(ShapeError::IllFormed)
    } else if tuple_count(fields) > usize::MAX {
        Err(ShapeError::TooLarge)
    } else {
        Ok(tuple_count(fields) as usize)
    }
}

/// Well-formed fields have at least one tuple.
pub proof fn lemma_count_positive(fields: Seq<FieldBound>)
    requires
        fields_wf(fields),
    ensures
        tuple_count(fields) >= 1,
    decreases fields.len(),
{
    if fields.len() > 0 {
        let p = fields.drop_last();
        assert(fields_wf(p)) by {
            assert forall|j: int| 0 <= j < p.len() implies (#[trigger] p[j]).wf() by {
                assert(p[j] == fields[j]);
            }
        }
        lemma_count_positive(p);
        assert(fields.last().wf());
        lemma_mul_inequality(1, tuple_count(p) as int, fields.last().size() as int);
    }
}

/// Adding one field multiplies the count by the size of that field.
proof fn lemma_count_take(fields: Seq<FieldBound>, k: int)
    requires
        0 <= k < fields.len(),
    ensures
        tuple_count(fields.take(k + 1)) == tuple_count(fields.take(k)) * fields[k].size(),
{
    assert(fields.take(k + 1).drop_last() =~= fields.take(k));
}

/// A prefix of well-formed fields has no more tuples than the whole list.
proof fn lemma_count_prefix(fields: Seq<FieldBound>, k: int)
    requires
        fields_wf(fields),
        0 <= k <= fields.len(),
    ensures
        fields_wf(fields.take(k)),
        tuple_count(fields.take(k)) <= tuple_count(fields),
    decreases fields.len() - k,
{
    assert(fields_wf(fields.take(k))) by {
        let p = fields.take(k);
        assert forall|j: int| 0 <= j < p.len() implies (#[trigger] p[j]).wf() by {
            assert(p[j] == fields[j]);
        }
    }
    if k == fields.len() {
        assert(fields.take(k) =~= fields);
    } else {
        lemma_count_prefix(fields, k + 1);
        lemma_count_take(fields, k);
        assert(fields[k].wf());
        lemma_mul_inequality(1, fields[k].size() as int, tuple_count(fields.take(k)) as int);
        lemma_mul_is_commutative(fields[k].size() as int, tuple_count(fields.take(k)) as int);
    }
}

/// The tuple at an index below the count is valid, and stands at that index.
pub proof fn lemma_tuple_at(fields: Seq<FieldBound>, i: nat)
    requires
        fields_wf(fields),
        i < tuple_count(fields),
    ensures
        tuple_valid(fields, tuple_at(fields, i)),
        tuple_index(fields, tuple_at(fields, i)) == i,
    decreases fields.len(),
{
    if fields.len() > 0 {
        let f = fields.last();
        let p = fields.drop_last();
        let s = f.size();
        assert(f.wf());
        assert(fields_wf(p)) by {
            assert forall|j: int| 0 <= j < p.len() implies (#[trigger] p[j]).wf() by {
                assert(p[j] == fields[j]);
            }
        }
        let q = i / s;
        let r = i % s;
        lemma_mul_is_commutative(tuple_count(p) as int, s as int);
        lemma_multiply_divide_lt(i as int, s as int, tuple_count(p) as int);
        lemma_mod_bound(i as int, s as int);
        lemma_fundamental_div_mod(i as int, s as int);
        lemma_tuple_at(p, q);
        let t = tuple_at(fields, i);
        assert(t == tuple_at(p, q).push((f.min + r) as u32));
        assert(t.drop_last() =~= tuple_at(p, q));
        assert forall|j: int| 0 <= j < fields.len() implies (#[trigger] fields[j]).admits(
            t[j],
        ) by {
            if j < p.len() {
                assert(fields[j] == p[j]);
                assert(t[j] == tuple_at(p, q)[j]);
            }
        }
        lemma_mul_is_commutative(q as int, s as int);
    }
}

/// A valid tuple has an index below the count, and stands there.
pub proof fn lemma_tuple_index(fields: Seq<FieldBound>, t: Seq<u32>)
    requires
        fields_wf(fields),
        tuple_valid(fields, t),
    ensures
        tuple_index(fields, t) < tuple_count(fields),
        tuple_at(fields, tuple_index(fields, t)) == t,
    decreases fields.len(),
{
    if fields.len() == 0 {
        assert(t =~= Seq::<u32>::empty());
    } else {
        let f = fields.last();
        let p = fields.drop_last();
        let s = f.size();
        assert(f.wf());
        assert(f.admits(t[fields.len() - 1]));
        assert(fields_wf(p)) by {
            assert forall|j: int| 0 <= j < p.len() implies (#[trigger] p[j]).wf() by {
                assert(p[j] == fields[j]);
            }
        }
        let tp = t.drop_last();
        assert(tuple_valid(p, tp)) by {
            assert forall|j: int| 0 <= j < p.len() implies (#[trigger] p[j]).admits(tp[j]) by {
                assert(p[j] == fields[j]);
                assert(fields[j].admits(t[j]));
            }
        }
        lemma_tuple_index(p, tp);
        let ip = tuple_index(p, tp);
        let off = (t.last() - f.min) as nat;
        let idx = ip * s + off;
        assert(idx == tuple_index(fields, t));
        lemma_mul_inequality(ip as int + 1, tuple_count(p) as int, s as int);
        assert((ip + 1) * s == ip * s + s) by (nonlinear_arith);
        lemma_fundamental_div_mod_converse(idx as int, s as int, ip as int, off as int);
        assert(tuple_at(fields, idx) == tuple_at(p, ip).push((f.min + off) as u32));
        assert(tuple_at(fields, idx) =~= t);
    }
}

/// No tuple is listed twice.
pub proof fn lemma_tuples_distinct(fields: Seq<FieldBound>)
    requires
        fields_wf(fields),
    ensures
        tuples(fields).no_duplicates(),
{
    let s = tuples(fields);
    assert forall|i: int, j: int| 0 <= i < s.len() && 0 <= j < s.len() && i != j implies s[i]
        != s[j] by {
        lemma_tuple_at(fields, i as nat);
        lemma_tuple_at(fields, j as nat);
    }
}

/// The tuples listed are exactly the valid ones.
pub proof fn lemma_tuples_complete(fields: Seq<FieldBound>, t: Seq<u32>)
    requires
        fields_wf(fields),
    ensures
        tuples(fields).contains(t) <==> tuple_valid(fields, t),
{
    let s = tuples(fields);
    if tuple_valid(fields, t) {
        lemma_tuple_index(fields, t);
        assert(s[tuple_index(fields, t) as int] == t);
    }
    if s.contains(t) {
        let i = choose|i: int| 0 <= i < s.len() && s[i] == t;
        lemma_tuple_at(fields, i as nat);
    }
}

/// The tuple that follows a block of `pi` prefixes, at offset `off` in the
/// last field, is the `pi`-th prefix with that code appended.
proof fn lemma_tuple_at_step(fields: Seq<FieldBound>, k: int, pi: nat, off: nat)
    requires
        0 <= k < fields.len(),
        fields[k].wf(),
        off < fields[k].size(),
    ensures
        tuple_at(fields.take(k + 1), pi * fields[k].size() + off) == tuple_at(
            fields.take(k),
            pi,
        ).push((fields[k].min + off) as u32),
{
    let s = fields[k].size();
    let idx = pi * s + off;
    assert(fields.take(k + 1).drop_last() =~= fields.take(k));
    assert(fields.take(k + 1).last() == fields[k]);
    lemma_fundamental_div_mod_converse(idx as int, s as int, pi as int, off as int);
}

/// Counts the tuples over the fields without listing them.
pub fn count_tuples(fields: &Vec<FieldBound>) -> (r: Result<usize, ShapeError>)
    ensures
        r == count_result(fields@),
{
    let mut j: usize = 0;
    while j < fields.len()
        invariant
            j <= fields.len(),
            forall|i: int| 0 <= i < j ==> (#[trigger] fields@[i]).wf(),
        decreases fields.len() - j,
    {
        if fields[j].min > fields[j].max {
            assert(!fields@[j as int].wf());
            return Err(ShapeError::IllFormed);
        }
        j += 1;
    }
    assert(fields_wf(fields@));
    let mut n: usize = 1;
    let mut k: usize = 0;
    assert(fields@.take(0) =~= Seq::<FieldBound>::empty());
    while k < fields.len()
        invariant
            k <= fields.len(),
            fields_wf(fields@),
            n == tuple_count(fields@.take(k as int)),
        decreases fields.len() - k,
    {
        let f = fields[k];
        assert(fields@[k as int].wf());
        let size: u128 = (f.max - f.min) as u128 + 1;
        assert(n as u128 * size <= 0x1_0000_0000_0000_0000 * 0x1_0000_0000) by (nonlinear_arith)
            requires
                n <= 0xffff_ffff_ffff_ffff,
                size <= 0x1_0000_0000,
        ;
        let grown: u128 = n as u128 * size;
        proof {
            lemma_count_take(fields@, k as int);
            lemma_count_prefix(fields@, k as int + 1);
        }
        if grown > usize::MAX as u128 {
            return Err(ShapeError::TooLarge);
        }
        n = grown as usize;
        k += 1;
    }
    assert(fields@.take(k as int) =~= fields@);
    Ok(n)
}

/// Lists every tuple over the fields, in lexicographic order with the last
/// field varying fastest.
///
/// Fails, listing nothing, where a field has an empty range or where the
/// tuples are too many for a vector.
pub fn enumerate_tuples(fields: &Vec<FieldBound>) -> (r: Result<Vec<Vec<u32>>, ShapeError>)
    ensures
        match r {
            Ok(all) => count_result(fields@) is Ok && rows(all@) == tuples(fields@),
            Err(e) => count_result(fields@) == Err::<usize, ShapeError>(e),
        },
{
    match count_tuples(fields) {
        Err(e) => {
            return Err(e);
        },
        Ok(_) => {},
    }
    let mut result: Vec<Vec<u32>> = Vec::new();
    result.push(Vec::new());
    let mut k: usize = 0;
    proof {
        assert(fields@.take(0) =~= Seq::<FieldBound>::empty());
        assert(rows(result@) =~= tuples(fields@.take(0)));
    }
    while k < fields.len()
        invariant
            k <= fields.len(),
            fields_wf(fields@),
            rows(result@) == tuples(fields@.take(k as int)),
        decreases fields.len() - k,
    {
        let f = fields[k];
        assert(fields@[k as int].wf());
        let span: u32 = f.max - f.min;
        let ghost size = f.size();
        let ghost shorter = fields@.take(k as int);
        let ghost longer = fields@.take(k as int + 1);
        let mut grown: Vec<Vec<u32>> = Vec::new();
        let mut pi: usize = 0;
        while pi < result.len()
            invariant
                pi <= result.len(),
                0 <= k < fields.len(),
                f == fields@[k as int],
                f.wf(),
                span == f.max - f.min,
                size == f.size(),
                shorter == fields@.take(k as int),
                longer == fields@.take(k as int + 1),
                rows(result@) == tuples(shorter),
                grown@.len() == pi * size,
                forall|idx: int|
                    0 <= idx < grown@.len() ==> (#[trigger] grown@[idx])@ == tuple_at(
                        longer,
                        idx as nat,
                    ),
            decreases result.len() - pi,
        {
            let mut off: u32 = 0;
            assert(result@[pi as int]@ == tuple_at(shorter, pi as nat)) by {
                assert(rows(result@).len() == result@.len());
                assert(tuples(shorter).len() == tuple_count(shorter));
                assert(rows(result@)[pi as int] == result@[pi as int]@);
                assert(tuples(shorter)[pi as int] == tuple_at(shorter, pi as nat));
            }
            loop
                invariant_except_break
                    off <= span,
                    grown@.len() == pi * size + off,
                invariant
                    pi < result.len(),
                    0 <= k < fields.len(),
                    f == fields@[k as int],
                    f.wf(),
                    span == f.max - f.min,
                    size == f.size(),
                    shorter == fields@.take(k as int),
                    longer == fields@.take(k as int + 1),
                    result@[pi as int]@ == tuple_at(shorter, pi as nat),
                    forall|idx: int|
                        0 <= idx < grown@.len() ==> (#[trigger] grown@[idx])@ == tuple_at(
                            longer,
                            idx as nat,
                        ),
                ensures
                    grown@.len() == (pi + 1) * size,
                decreases span - off,
            {
                let mut row = copy_row(&result[pi]);
                row.push(f.min + off);
                proof {
                    lemma_tuple_at_step(fields@, k as int, pi as nat, off as nat);
                }
                grown.push(row);
                if off == span {
                    assert((pi + 1) * size == pi * size + size) by (nonlinear_arith);
                    break ;
                }
                off += 1;
            }
            pi += 1;
        }
        proof {
            lemma_count_take(fields@, k as int);
            assert(result@.len() == tuple_count(shorter)) by {
                assert(rows(result@).len() == result@.len());
                assert(tuples(shorter).len() == tuple_count(shorter));
            }
            assert(rows(grown@) =~= tuples(longer));
        }
        result = grown;
        k += 1;
    }
    assert(fields@.take(k as int) =~= fields@);
    Ok(result)
}

/// A copy of one row.
fn copy_row(row: &Vec<u32>) -> (copy: Vec<u32>)
    ensures
        copy@ == row@,
{
    let mut copy: Vec<u32> = Vec::new();
    let mut i: usize = 0;
    while i < row.len()
        invariant
            i <= row.len(),
            copy@ == row@.take(i as int),
        decreases row.len() - i,
    {
        copy.push(row[i]);
        i += 1;
    }
    assert(row@.take(i as int) =~= row@);
    copy
}

} // verus!
