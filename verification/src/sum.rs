use crate::types::DataKey;
use vstd::prelude::*;

verus! {

/// The sum of `w(k, m[k])` over every key `k` of a finite map `m`.
pub open spec fn sum_by(m: Map<DataKey, int>, w: spec_fn(DataKey, int) -> int) -> int
    decreases m.dom().len(),
    when m.dom().finite()
{
    if m.dom().len() == 0 {
        0
    } else {
        let k = m.dom().choose();
        w(k, m[k]) + sum_by(m.remove(k), w)
    }
}

/// Any one entry can be taken out of the sum.
pub proof fn lemma_sum_remove(m: Map<DataKey, int>, w: spec_fn(DataKey, int) -> int, k: DataKey)
    requires
        m.dom().finite(),
        m.dom().contains(k),
    ensures
        sum_by(m, w) == w(k, m[k]) + sum_by(m.remove(k), w),
    decreases m.dom().len(),
{
    let c = m.dom().choose();
    if c != k {
        lemma_sum_remove(m.remove(c), w, k);
        lemma_sum_remove(m.remove(k), w, c);
        assert(m.remove(c).remove(k) =~= m.remove(k).remove(c));
    }
}

/// Writing an entry replaces its share of the sum.
pub proof fn lemma_sum_insert(
    m: Map<DataKey, int>,
    w: spec_fn(DataKey, int) -> int,
    k: DataKey,
    x: int,
)
    requires
        m.dom().finite(),
    ensures
        sum_by(m.insert(k, x), w) == w(k, x) + sum_by(m.remove(k), w),
        sum_by(m.insert(k, x), w) == sum_by(m, w) + w(k, x) - (if m.dom().contains(k) {
            w(k, m[k])
        } else {
            0
        }),
{
    lemma_sum_remove(m.insert(k, x), w, k);
    assert(m.insert(k, x).remove(k) =~= m.remove(k));
    if m.dom().contains(k) {
        lemma_sum_remove(m, w, k);
    } else {
        assert(m.remove(k) =~= m);
    }
}

/// Dropping an entry drops its share of the sum.
pub proof fn lemma_sum_drop(m: Map<DataKey, int>, w: spec_fn(DataKey, int) -> int, k: DataKey)
    requires
        m.dom().finite(),
    ensures
        sum_by(m.remove(k), w) == sum_by(m, w) - (if m.dom().contains(k) {
            w(k, m[k])
        } else {
            0
        }),
{
    if m.dom().contains(k) {
        lemma_sum_remove(m, w, k);
    } else {
        assert(m.remove(k) =~= m);
    }
}

/// Where no entry weighs less than nothing, no entry outweighs the sum.
pub proof fn lemma_sum_covers_each(
    m: Map<DataKey, int>,
    w: spec_fn(DataKey, int) -> int,
    k: DataKey,
)
    requires
        m.dom().finite(),
        forall|j: DataKey| #[trigger] m.dom().contains(j) ==> w(j, m[j]) >= 0,
    ensures
        sum_by(m, w) >= 0,
        m.dom().contains(k) ==> w(k, m[k]) <= sum_by(m, w),
    decreases m.dom().len(),
{
    if m.dom().len() != 0 {
        let c = m.dom().choose();
        lemma_sum_covers_each(m.remove(c), w, k);
    }
}

/// An inequality between scaled weights, entry by entry, carries over to the
/// scaled sums.
pub proof fn lemma_sum_scaled_le(
    m: Map<DataKey, int>,
    w1: spec_fn(DataKey, int) -> int,
    a: int,
    w2: spec_fn(DataKey, int) -> int,
    b: int,
)
    requires
        m.dom().finite(),
        forall|j: DataKey| #[trigger] m.dom().contains(j) ==> a * w1(j, m[j]) <= b * w2(j, m[j]),
    ensures
        a * sum_by(m, w1) <= b * sum_by(m, w2),
    decreases m.dom().len(),
{
    if m.dom().len() != 0 {
        let c = m.dom().choose();
        let r = m.remove(c);
        lemma_sum_scaled_le(r, w1, a, w2, b);
        let x1 = w1(c, m[c]);
        let x2 = w2(c, m[c]);
        let s1 = sum_by(r, w1);
        let s2 = sum_by(r, w2);
        assert(m.dom().contains(c));
        assert(a * (x1 + s1) == a * x1 + a * s1) by (nonlinear_arith);
        assert(b * (x2 + s2) == b * x2 + b * s2) by (nonlinear_arith);
    } else {
        assert(a * 0 == 0 && b * 0 == 0);
    }
}

/// The sum of weights that are made up of two others, entry by entry, is
/// made up of their sums in the same way.
pub proof fn lemma_sum_combined(
    m: Map<DataKey, int>,
    w1: spec_fn(DataKey, int) -> int,
    a: int,
    w2: spec_fn(DataKey, int) -> int,
    b: int,
    w3: spec_fn(DataKey, int) -> int,
)
    requires
        m.dom().finite(),
        forall|j: DataKey| #[trigger]
            m.dom().contains(j) ==> w3(j, m[j]) == a * w1(j, m[j]) + b * w2(j, m[j]),
    ensures
        sum_by(m, w3) == a * sum_by(m, w1) + b * sum_by(m, w2),
    decreases m.dom().len(),
{
    if m.dom().len() != 0 {
        let c = m.dom().choose();
        let r = m.remove(c);
        lemma_sum_combined(r, w1, a, w2, b, w3);
        let x1 = w1(c, m[c]);
        let x2 = w2(c, m[c]);
        let s1 = sum_by(r, w1);
        let s2 = sum_by(r, w2);
        assert(m.dom().contains(c));
        assert(a * (x1 + s1) == a * x1 + a * s1) by (nonlinear_arith);
        assert(b * (x2 + s2) == b * x2 + b * s2) by (nonlinear_arith);
    } else {
        assert(a * 0 == 0 && b * 0 == 0);
    }
}

} // verus!
