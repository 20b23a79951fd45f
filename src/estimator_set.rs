//! One sketch per logical stream (a column of delimited input), created on
//! first sight of the stream and never reordered or dropped.
use vstd::prelude::*;
use crate::error::SketchError;
use crate::registers::valid_precision;
use crate::estimator::{
    Estimator, Readout, empty_sketch, insert_value_spec, is_precision_for, readout_of, valid_rate,
};

verus! {

/// The registers of stream `i` before a value is recorded: its sketch if it
/// exists, a fresh one otherwise.
pub open spec fn stream_before(s: Seq<Seq<u8>>, p: nat, i: int) -> Seq<u8> {
    if i < s.len() {
        s[i]
    } else {
        empty_sketch(p)
    }
}

/// The streams after `value` is recorded for stream `index`: the sequence
/// grows with fresh sketches to include `index`, whose sketch takes the
/// value; every other stream keeps its registers.
pub open spec fn record_spec(s: Seq<Seq<u8>>, p: nat, index: nat, value: Seq<char>) -> Seq<Seq<u8>> {
    Seq::new(
        if index < s.len() { s.len() } else { (index + 1) as nat },
        |i: int|
            if i == index {
                insert_value_spec(stream_before(s, p, i), p, value)
            } else {
                stream_before(s, p, i)
            },
    )
}

/// A growing sequence of sketches, all of one precision.
pub struct EstimatorSet {
    precision: u8,
    estimators: Vec<Estimator>,
}

impl View for EstimatorSet {
    type V = Seq<Seq<u8>>;

    closed spec fn view(&self) -> Seq<Seq<u8>> {
        self.estimators@.map_values(|e: Estimator| e@)
    }
}

impl EstimatorSet {
    /// The precision every sketch of the set is built with.
    pub closed spec fn spec_precision(&self) -> nat {
        self.precision as nat
    }

    /// Every member is well formed and has the set's precision.
    pub closed spec fn wf(&self) -> bool {
        &&& valid_precision(self.precision as nat)
        &&& forall|i: int|
            0 <= i < self.estimators@.len() ==> {
                &&& (#[trigger] self.estimators@[i]).wf()
                &&& self.estimators@[i].spec_precision() == self.precision as nat
            }
    }

    /// An empty set whose sketches will meet the rate `rate_ppb / RATE_SCALE`;
    /// a rate outside `(0, 1)` is refused.
    pub fn new(rate_ppb: u64) -> (r: Result<EstimatorSet, SketchError>)
        ensures
            valid_rate(rate_ppb as nat) <==> r is Ok,
            !valid_rate(rate_ppb as nat) ==> r == Err::<EstimatorSet, SketchError>(SketchError::InvalidConfiguration),
            r matches Ok(set) ==> {
                &&& set.wf()
                &&& is_precision_for(set.spec_precision(), rate_ppb as nat)
                &&& set@.len() == 0
            },
    {
        match Estimator::new(rate_ppb) {
            Ok(e) => {
                let set = EstimatorSet { precision: e.precision(), estimators: Vec::new() };
                assert(set@ =~= Seq::<Seq<u8>>::empty());
                Ok(set)
            },
            Err(e) => Err(e),
        }
    }

    /// The number of streams seen so far.
    pub fn len(&self) -> (r: usize)
        ensures
            r == self@.len(),
    {
        self.estimators.len()
    }

    /// The precision of every sketch of the set.
    pub fn precision(&self) -> (r: u8)
        ensures
            r as nat == self.spec_precision(),
    {
        self.precision
    }

    /// The sketch of stream `i`.
    pub fn get(&self, i: usize) -> (r: &Estimator)
        requires
            self.wf(),
            i < self@.len(),
        ensures
            r.wf(),
            r.spec_precision() == self.spec_precision(),
            r@ == self@[i as int],
    {
        &self.estimators[i]
    }

    /// Records `value` for stream `index`, first appending fresh sketches
    /// until that stream exists.
    pub fn record(&mut self, index: usize, value: &str)
        requires
            old(self).wf(),
        ensures
            final(self).wf(),
            final(self).spec_precision() == old(self).spec_precision(),
            final(self)@ == record_spec(old(self)@, old(self).spec_precision(), index as nat, value@),
    {
        let ghost p = self.spec_precision();
        let ghost before = self@;
        while self.estimators.len() <= index
            invariant
                self.wf(),
                self.spec_precision() == p,
                old(self)@ == before,
                old(self)@.len() <= self@.len(),
                self@.len() <= (if index < before.len() { before.len() as int } else { index + 1 }),
                forall|i: int| 0 <= i < self@.len() ==> #[trigger] self@[i] == stream_before(before, p, i),
            decreases index + 1 - self.estimators@.len(),
        {
            match Estimator::with_precision(self.precision) {
                Ok(e) => {
                    let ghost prev = self.estimators@;
                    let ghost prev_view = self@;
                    self.estimators.push(e);
                    assert(self.estimators@ == prev.push(e));
                    assert forall|i: int| 0 <= i < self@.len() implies #[trigger] self@[i] == stream_before(before, p, i) by {
                        assert(self@[i] == self.estimators@[i]@);
                        if i < prev.len() {
                            assert(self.estimators@[i] == prev[i]);
                            assert(prev_view[i] == prev[i]@);
                        } else {
                            assert(self@[i] == empty_sketch(p));
                        }
                    }
                },
                Err(_) => {
                    return;
                },
            }
        }
        let ghost pre = self.estimators@;
        let ghost pre_view = self@;
        let mut e = self.estimators.remove(index);
        e.insert(value);
        self.estimators.insert(index, e);
        assert(self.estimators@ =~= pre.update(index as int, e));
        assert forall|i: int| 0 <= i < self@.len() implies #[trigger] self@[i] == record_spec(before, p, index as nat, value@)[i] by {
            assert(pre_view[i] == pre[i]@);
            assert(self@[i] == self.estimators@[i]@);
        }
        assert(self@ =~= record_spec(before, p, index as nat, value@));
    }

    /// One read-out per stream, in stream order.
    pub fn finalize(&self) -> (r: Vec<Readout>)
        requires
            self.wf(),
        ensures
            r@.len() == self@.len(),
            forall|i: int| 0 <= i < r@.len() ==> #[trigger] r@[i] == readout_of(self@[i], self.spec_precision()),
    {
        let mut out: Vec<Readout> = Vec::new();
        let mut i: usize = 0;
        while i < self.estimators.len()
            invariant
                self.wf(),
                i <= self@.len(),
                out@.len() == i,
                forall|j: int| 0 <= j < i ==> #[trigger] out@[j] == readout_of(self@[j], self.spec_precision()),
            decreases self@.len() - i,
        {
            out.push(self.estimators[i].readout());
            i = i + 1;
        }
        out
    }
}

} // verus!
