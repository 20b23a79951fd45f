//! Properties of sketches that relate several operations.
use vstd::prelude::*;
use vstd::arithmetic::power2::{pow2, lemma_pow2_pos, lemma_pow2_strictly_increases};
use crate::registers::{max_rank, dominated, harmonic_sum, pointwise_max, valid_precision, zero_count};
use crate::estimator::{
    lemma_trailing_rank_bound, bucket_of, empty_sketch, insert_all, insert_value_spec, readout_of, sketch_of,
};

verus! {

/// Every bucket index lies inside the register array.
pub proof fn lemma_bucket_in_range(h: u64, p: nat)
    ensures
        0 <= bucket_of(h, p) < pow2(p),
{
    lemma_pow2_pos(p);
}

/// Inserting values keeps the number of registers.
pub proof fn lemma_insert_all_len(s: Seq<u8>, p: nat, vals: Seq<Seq<char>>)
    requires
        s.len() == pow2(p),
    ensures
        insert_all(s, p, vals).len() == pow2(p),
    decreases vals.len(),
{
    if vals.len() > 0 {
        lemma_insert_all_len(s, p, vals.drop_last());
        lemma_bucket_in_range(crate::estimator::sip13_hash(vals.last()), p);
    }
}

/// Raising registers never adds zero registers.
pub proof fn lemma_zero_count_dominated(a: Seq<u8>, b: Seq<u8>)
    requires
        dominated(a, b),
    ensures
        zero_count(b) <= zero_count(a),
    decreases a.len(),
{
    if a.len() > 0 {
        lemma_zero_count_dominated(a.drop_last(), b.drop_last());
    }
}

/// Raising registers never raises `sum(2^-r)`.
pub proof fn lemma_harmonic_sum_dominated(a: Seq<u8>, b: Seq<u8>)
    requires
        dominated(a, b),
        forall|i: int| 0 <= i < b.len() ==> #[trigger] b[i] <= 63,
    ensures
        harmonic_sum(b) <= harmonic_sum(a),
    decreases a.len(),
{
    if a.len() > 0 {
        lemma_harmonic_sum_dominated(a.drop_last(), b.drop_last());
        assert(a[a.len() - 1] <= b[b.len() - 1]);
        let x = (63 - a.last()) as nat;
        let y = (63 - b.last()) as nat;
        if y < x {
            lemma_pow2_strictly_increases(y, x);
        }
    }
}

/// Two sketches of one precision that received the same values
/// in the same order, each starting fresh, hold the same registers and so
/// give the same read-out. The hash is a fixed function of the value.
pub proof fn law_determinism(p: nat, vals: Seq<Seq<char>>, a: Seq<u8>, b: Seq<u8>)
    requires
        a == sketch_of(p, vals),
        b == sketch_of(p, vals),
    ensures
        a == b,
        readout_of(a, p) == readout_of(b, p),
{
}

/// Inserting a value never lowers a register, so
/// the count of zero registers `V` and `sum(2^-r)` can only fall; both the
/// linear-counting estimate `m ln(m / V)` and the raw estimate
/// `alpha m^2 / sum(2^-r)` can then only rise.
pub proof fn law_insert_monotone(s: Seq<u8>, p: nat, v: Seq<char>)
    requires
        valid_precision(p),
        s.len() == pow2(p),
        forall|i: int| 0 <= i < s.len() ==> #[trigger] s[i] <= max_rank(p),
    ensures
        dominated(s, insert_value_spec(s, p, v)),
        zero_count(insert_value_spec(s, p, v)) <= zero_count(s),
        harmonic_sum(insert_value_spec(s, p, v)) <= harmonic_sum(s),
{
    let t = insert_value_spec(s, p, v);
    let h = crate::estimator::sip13_hash(v);
    lemma_bucket_in_range(h, p);
    lemma_trailing_rank_bound(h as nat / pow2(p), (64 - p) as nat);
    assert forall|i: int| 0 <= i < t.len() implies #[trigger] t[i] <= 63 by {
        if i != bucket_of(h, p) {
            assert(t[i] == s[i]);
        }
    }
    lemma_zero_count_dominated(s, t);
    lemma_harmonic_sum_dominated(s, t);
}

/// Merging is commutative.
pub proof fn law_merge_commutative(a: Seq<u8>, b: Seq<u8>)
    requires
        a.len() == b.len(),
    ensures
        pointwise_max(a, b) == pointwise_max(b, a),
{
    assert(pointwise_max(a, b) =~= pointwise_max(b, a));
}

/// Merging is associative.
pub proof fn law_merge_associative(a: Seq<u8>, b: Seq<u8>, c: Seq<u8>)
    requires
        a.len() == b.len() == c.len(),
    ensures
        pointwise_max(pointwise_max(a, b), c) == pointwise_max(a, pointwise_max(b, c)),
{
    assert(pointwise_max(pointwise_max(a, b), c) =~= pointwise_max(a, pointwise_max(b, c)));
}

/// Merging with a fresh sketch of the same precision changes nothing.
pub proof fn law_merge_identity(a: Seq<u8>, p: nat)
    requires
        a.len() == pow2(p),
    ensures
        pointwise_max(a, empty_sketch(p)) == a,
        pointwise_max(empty_sketch(p), a) == a,
{
    assert(pointwise_max(a, empty_sketch(p)) =~= a);
    assert(pointwise_max(empty_sketch(p), a) =~= a);
}

/// Folding a value into the right operand of a merge is folding it into
/// the merge.
proof fn lemma_insert_into_merge(a: Seq<u8>, b: Seq<u8>, p: nat, v: Seq<char>)
    requires
        a.len() == pow2(p),
        b.len() == pow2(p),
    ensures
        pointwise_max(a, insert_value_spec(b, p, v)) == insert_value_spec(pointwise_max(a, b), p, v),
{
    lemma_bucket_in_range(crate::estimator::sip13_hash(v), p);
    assert(pointwise_max(a, insert_value_spec(b, p, v)) =~= insert_value_spec(pointwise_max(a, b), p, v));
}

/// Merging the sketches of two value sequences gives
/// exactly the sketch of their concatenation, i.e. of their union.
pub proof fn law_merge_union(p: nat, va: Seq<Seq<char>>, vb: Seq<Seq<char>>)
    ensures
        pointwise_max(sketch_of(p, va), sketch_of(p, vb)) == sketch_of(p, va + vb),
    decreases vb.len(),
{
    let a = sketch_of(p, va);
    lemma_insert_all_len(empty_sketch(p), p, va);
    if vb.len() == 0 {
        assert(va + vb =~= va);
        law_merge_identity(a, p);
    } else {
        let rest = vb.drop_last();
        law_merge_union(p, va, rest);
        assert((va + vb).drop_last() =~= va + rest);
        assert((va + vb).last() == vb.last());
        lemma_insert_all_len(empty_sketch(p), p, rest);
        lemma_insert_into_merge(a, sketch_of(p, rest), p, vb.last());
    }
}

/// Inserting a value twice in a row is inserting it once.
pub proof fn law_insert_idempotent(s: Seq<u8>, p: nat, v: Seq<char>)
    requires
        s.len() == pow2(p),
    ensures
        insert_value_spec(insert_value_spec(s, p, v), p, v) == insert_value_spec(s, p, v),
{
    lemma_bucket_in_range(crate::estimator::sip13_hash(v), p);
    assert(insert_value_spec(insert_value_spec(s, p, v), p, v) =~= insert_value_spec(s, p, v));
}

/// Inserting a value `n >= 1` times after `vals`
/// gives the same registers, hence the same read-out, as inserting it once.
pub proof fn law_duplicates(p: nat, vals: Seq<Seq<char>>, v: Seq<char>, n: nat)
    requires
        n >= 1,
    ensures
        sketch_of(p, vals + Seq::new(n, |i: int| v)) == sketch_of(p, vals.push(v)),
        readout_of(sketch_of(p, vals + Seq::new(n, |i: int| v)), p) == readout_of(sketch_of(p, vals.push(v)), p),
    decreases n,
{
    let many = vals + Seq::new(n, |i: int| v);
    if n == 1 {
        assert(many =~= vals.push(v));
    } else {
        let fewer = vals + Seq::new((n - 1) as nat, |i: int| v);
        law_duplicates(p, vals, v, (n - 1) as nat);
        assert(many.drop_last() =~= fewer);
        assert(many.last() == v);
        lemma_insert_all_len(empty_sketch(p), p, vals);
        assert(vals.push(v).drop_last() =~= vals);
        law_insert_idempotent(sketch_of(p, vals), p, v);
    }
}

} // verus!
