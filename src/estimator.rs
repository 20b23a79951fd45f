//! One sketch: hashing, bucketing, ranking, merging, and the integer
//! quantities from which the cardinality read-out is formed.
use vstd::prelude::*;
use vstd::arithmetic::power2::{pow2, lemma2_to64, lemma2_to64_rest, lemma_pow2_strictly_increases};
use siphasher::sip::SipHasher13;
use crate::error::SketchError;
use crate::registers::{RegisterArray, pointwise_max, MIN_PRECISION, MAX_PRECISION, valid_precision, max_update, zero_count, harmonic_sum};

verus! {

/// SipHash-1-3, keyed with zeros, of the UTF-8 encoding of `s`.
pub uninterp spec fn sip13_hash(s: Seq<char>) -> u64;

/// Relies on `siphasher::sip::SipHasher13::new` (both keys zero) and
/// `SipHasher13::hash` over the string's bytes: a fixed, unseeded hash whose
/// value depends on the characters alone.
#[verifier::external_body]
fn hash_str(s: &str) -> (r: u64)
    ensures
        r == sip13_hash(s@),
{
    SipHasher13::new().hash(s.as_bytes())
}

/// Error rates are given in parts per billion.
pub const RATE_SCALE: u64 = 1_000_000_000;

/// `2^p` registers give a standard error of `1.04 / sqrt(2^p)`; this holds
/// when that error is at most `ppb / RATE_SCALE`, i.e. when
/// `2^p >= (1.04 / e)^2`.
pub open spec fn meets_error_rate(p: nat, ppb: nat) -> bool {
    pow2(p) * 10000 * (ppb * ppb) >= 10816 * (RATE_SCALE * RATE_SCALE)
}

/// `p` is `ceil(log2((1.04 / e)^2))` clamped to the supported range: the
/// least supported precision that meets the rate, or the largest one.
pub open spec fn is_precision_for(p: nat, ppb: nat) -> bool {
    &&& valid_precision(p)
    &&& (p == MAX_PRECISION || meets_error_rate(p, ppb))
    &&& forall|q: nat| MIN_PRECISION <= q < p ==> !#[trigger] meets_error_rate(q, ppb)
}

/// An error rate strictly between 0 and 1.
pub open spec fn valid_rate(ppb: nat) -> bool {
    0 < ppb < RATE_SCALE
}

/// The rank of a tail `w` of `width` bits: the position of its lowest set
/// bit, counting from 1, or `width + 1` when it is all zero.
pub open spec fn trailing_rank(w: nat, width: nat) -> nat
    decreases width,
{
    if width == 0 || w % 2 == 1 {
        1
    } else {
        1 + trailing_rank(w / 2, (width - 1) as nat)
    }
}

/// The bucket of hash `h`: its low `p` bits.
pub open spec fn bucket_of(h: u64, p: nat) -> int {
    (h as nat % pow2(p)) as int
}

/// The rank of hash `h`: that of its remaining `64 - p` bits.
pub open spec fn rank_of(h: u64, p: nat) -> u8 {
    trailing_rank(h as nat / pow2(p), (64 - p) as nat) as u8
}

/// The registers after one hash is folded in.
pub open spec fn insert_hash_spec(s: Seq<u8>, p: nat, h: u64) -> Seq<u8> {
    max_update(s, bucket_of(h, p), rank_of(h, p))
}

/// The registers after one value is folded in.
pub open spec fn insert_value_spec(s: Seq<u8>, p: nat, v: Seq<char>) -> Seq<u8> {
    insert_hash_spec(s, p, sip13_hash(v))
}

/// The registers after the values are folded in, in order.
pub open spec fn insert_all(s: Seq<u8>, p: nat, vals: Seq<Seq<char>>) -> Seq<u8>
    decreases vals.len(),
{
    if vals.len() == 0 {
        s
    } else {
        insert_value_spec(insert_all(s, p, vals.drop_last()), p, vals.last())
    }
}

/// All `2^p` registers at zero.
pub open spec fn empty_sketch(p: nat) -> Seq<u8> {
    Seq::new(pow2(p), |i: int| 0u8)
}

/// The registers of a fresh sketch of precision `p` once `vals` are inserted.
pub open spec fn sketch_of(p: nat, vals: Seq<Seq<char>>) -> Seq<u8> {
    insert_all(empty_sketch(p), p, vals)
}

/// Numerator of the bias-correction constant `alpha(p)`.
pub open spec fn alpha_num(p: nat) -> nat {
    if p == 4 {
        673
    } else if p == 5 {
        697
    } else if p == 6 {
        709
    } else {
        7213 * pow2(p)
    }
}

/// Denominator of `alpha(p)`: for `p >= 7`,
/// `0.7213 / (1 + 1.079 / m) == 7213 m / (10000 m + 10790)`.
pub open spec fn alpha_den(p: nat) -> nat {
    if p <= 6 {
        1000
    } else {
        10000 * pow2(p) + 10790
    }
}

/// Whether the small-range correction applies: some register is still
/// zero and the raw estimate `alpha * m^2 / sum(2^-r)` is at most `2.5 m`.
/// With `sum(2^-r) == harmonic_sum / 2^63` that is
/// `2 * alpha_num * m * 2^63 <= 5 * harmonic_sum * alpha_den`.
pub open spec fn uses_linear_counting(s: Seq<u8>, p: nat) -> bool {
    &&& zero_count(s) > 0
    &&& 2 * alpha_num(p) * pow2(p) * pow2(63) <= 5 * harmonic_sum(s) * alpha_den(p)
}

/// The integer quantities of a cardinality read-out. With
/// `m = register_count`, `V = zero_registers`, `alpha = alpha_num / alpha_den`:
/// when `linear_counting` the estimate is `m * ln(m / V)`, otherwise it is
/// `alpha * m^2 * 2^63 / harmonic_sum`. Hashes are 64 bits wide, so no
/// large-range correction applies.
#[derive(Debug, Clone, Copy, PartialEq, Eq, Structural)]
pub struct Readout {
    pub register_count: u64,
    pub zero_registers: u64,
    pub harmonic_sum: u128,
    pub alpha_num: u64,
    pub alpha_den: u64,
    pub linear_counting: bool,
}

/// The read-out of registers `s` at precision `p`.
pub open spec fn readout_of(s: Seq<u8>, p: nat) -> Readout {
    Readout {
        register_count: s.len() as u64,
        zero_registers: zero_count(s) as u64,
        harmonic_sum: harmonic_sum(s) as u128,
        alpha_num: alpha_num(p) as u64,
        alpha_den: alpha_den(p) as u64,
        linear_counting: uses_linear_counting(s, p),
    }
}

/// The rank of a tail is at most one more than its width.
pub proof fn lemma_trailing_rank_bound(w: nat, width: nat)
    ensures
        1 <= trailing_rank(w, width) <= width + 1,
    decreases width,
{
    if width > 0 && w % 2 != 1 {
        lemma_trailing_rank_bound(w / 2, (width - 1) as nat);
    }
}

/// The rank of a tail `w` of `width` bits.
fn tail_rank(w: u64, width: u8) -> (r: u8)
    requires
        width <= 64,
    ensures
        r as nat == trailing_rank(w as nat, width as nat),
        r <= width + 1,
{
    let mut x: u64 = w;
    let mut k: u8 = 0;
    while k < width && x % 2 == 0
        invariant
            k <= width <= 64,
            trailing_rank(w as nat, width as nat) == k + trailing_rank(x as nat, (width - k) as nat),
        decreases width - k,
    {
        x = x / 2;
        k = k + 1;
    }
    proof {
        lemma_trailing_rank_bound(w as nat, width as nat);
    }
    k + 1
}

/// The least supported precision whose standard error is at most the rate
/// `ppb / RATE_SCALE`, or the largest supported one if none is.
pub fn precision_for_rate(ppb: u64) -> (p: u8)
    requires
        valid_rate(ppb as nat),
    ensures
        is_precision_for(p as nat, ppb as nat),
{
    let target: u128 = 10816u128 * (RATE_SCALE as u128 * RATE_SCALE as u128);
    proof {
        assert(ppb * ppb < 1_000_000_000_000_000_000) by (nonlinear_arith)
            requires ppb < 1_000_000_000;
    }
    let rate_sq: u128 = ppb as u128 * ppb as u128;
    let mut p: u8 = MIN_PRECISION;
    let mut m: u128 = 16;
    proof {
        lemma2_to64();
    }
    while p < MAX_PRECISION
        invariant
            MIN_PRECISION <= p <= MAX_PRECISION,
            m == pow2(p as nat),
            m <= 0x40000,
            rate_sq == ppb * ppb < 1_000_000_000_000_000_000,
            target == 10816 * (RATE_SCALE * RATE_SCALE),
            forall|q: nat| MIN_PRECISION <= q < p ==> !#[trigger] meets_error_rate(q, ppb as nat),
        decreases MAX_PRECISION - p,
    {
        proof {
            assert(m * 10000 * rate_sq <= 0x40000 * 10000 * 1_000_000_000_000_000_000) by (nonlinear_arith)
                requires m <= 0x40000, rate_sq < 1_000_000_000_000_000_000;
        }
        if m * 10000 * rate_sq >= target {
            proof {
                assert(meets_error_rate(p as nat, ppb as nat)) by (nonlinear_arith)
                    requires m * 10000 * rate_sq >= target, m == pow2(p as nat), rate_sq == ppb * ppb,
                        target == 10816 * (RATE_SCALE * RATE_SCALE);
            }
            return p;
        }
        proof {
            assert(!meets_error_rate(p as nat, ppb as nat)) by (nonlinear_arith)
                requires m * 10000 * rate_sq < target, m == pow2(p as nat), rate_sq == ppb * ppb,
                    target == 10816 * (RATE_SCALE * RATE_SCALE);
            lemma2_to64();
            vstd::arithmetic::power2::lemma_pow2_unfold((p + 1) as nat);
            if p + 1 < MAX_PRECISION {
                lemma_pow2_strictly_increases((p + 1) as nat, MAX_PRECISION as nat);
            }
        }
        m = m * 2;
        p = p + 1;
    }
    p
}

/// The bias-correction constant `alpha(p)` as a fraction.
fn alpha(p: u8, m: u64) -> (r: (u64, u64))
    requires
        valid_precision(p as nat),
        m == pow2(p as nat) <= 0x40000,
    ensures
        r.0 == alpha_num(p as nat),
        r.1 == alpha_den(p as nat),
{
    if p == 4 {
        (673, 1000)
    } else if p == 5 {
        (697, 1000)
    } else if p == 6 {
        (709, 1000)
    } else {
        (7213 * m, 10000 * m + 10790)
    }
}

/// A HyperLogLog sketch of fixed precision.
pub struct Estimator {
    registers: RegisterArray,
}

impl View for Estimator {
    type V = Seq<u8>;

    closed spec fn view(&self) -> Seq<u8> {
        self.registers@
    }
}

impl Estimator {
    /// The number of index bits `p`, fixed at construction.
    pub closed spec fn spec_precision(&self) -> nat {
        self.registers.spec_precision()
    }

    /// The register array is well formed.
    pub closed spec fn wf(&self) -> bool {
        self.registers.wf()
    }

    /// What a well-formed sketch guarantees of its view.
    pub proof fn lemma_wf(&self)
        requires
            self.wf(),
        ensures
            valid_precision(self.spec_precision()),
            0 < self@.len() == pow2(self.spec_precision()) <= 0x40000,
            forall|i: int| 0 <= i < self@.len() ==> #[trigger] self@[i] <= 65 - self.spec_precision(),
    {
        self.registers.lemma_len_bound();
        vstd::arithmetic::power2::lemma_pow2_pos(self.spec_precision());
    }

    /// A sketch with `2^precision` zero registers; an unsupported precision
    /// is refused.
    pub fn with_precision(precision: u8) -> (r: Result<Estimator, SketchError>)
        ensures
            valid_precision(precision as nat) <==> r is Ok,
            !valid_precision(precision as nat) ==> r == Err::<Estimator, SketchError>(SketchError::InvalidConfiguration),
            r matches Ok(e) ==> {
                &&& e.wf()
                &&& e.spec_precision() == precision as nat
                &&& e@ == empty_sketch(precision as nat)
            },
    {
        match RegisterArray::new(precision) {
            Ok(registers) => Ok(Estimator { registers }),
            Err(e) => Err(e),
        }
    }

    /// A fresh sketch whose standard error is at most the rate
    /// `rate_ppb / RATE_SCALE`, at the precision `is_precision_for` names.
    /// A rate outside `(0, 1)` is refused.
    pub fn new(rate_ppb: u64) -> (r: Result<Estimator, SketchError>)
        ensures
            valid_rate(rate_ppb as nat) <==> r is Ok,
            !valid_rate(rate_ppb as nat) ==> r == Err::<Estimator, SketchError>(SketchError::InvalidConfiguration),
            r matches Ok(e) ==> {
                &&& e.wf()
                &&& is_precision_for(e.spec_precision(), rate_ppb as nat)
                &&& e@ == empty_sketch(e.spec_precision())
            },
    {
        if rate_ppb == 0 || rate_ppb >= RATE_SCALE {
            return Err(SketchError::InvalidConfiguration);
        }
        let p = precision_for_rate(rate_ppb);
        Estimator::with_precision(p)
    }

    /// The number of index bits `p`.
    pub fn precision(&self) -> (r: u8)
        ensures
            r as nat == self.spec_precision(),
    {
        self.registers.precision()
    }

    /// The number of registers, `2^p`.
    pub fn register_count(&self) -> (r: usize)
        ensures
            r == self@.len(),
    {
        self.registers.len()
    }

    /// The value of register `i`.
    pub fn register(&self, i: usize) -> (r: u8)
        requires
            i < self@.len(),
        ensures
            r == self@[i as int],
    {
        self.registers.get(i)
    }

    /// Folds a 64-bit hash in: its low `p` bits choose the register, which
    /// is raised to the rank of the remaining bits.
    pub fn insert_hash(&mut self, h: u64)
        requires
            old(self).wf(),
        ensures
            final(self).wf(),
            final(self).spec_precision() == old(self).spec_precision(),
            final(self)@ == insert_hash_spec(old(self)@, old(self).spec_precision(), h),
    {
        proof {
            self.lemma_wf();
        }
        let p = self.registers.precision();
        let m = self.registers.len() as u64;
        let bucket = (h % m) as usize;
        let rank = tail_rank(h / m, 64 - p);
        self.registers.update(bucket, rank);
    }

    /// Folds a value in through its hash.
    pub fn insert(&mut self, value: &str)
        requires
            old(self).wf(),
        ensures
            final(self).wf(),
            final(self).spec_precision() == old(self).spec_precision(),
            final(self)@ == insert_value_spec(old(self)@, old(self).spec_precision(), value@),
    {
        let h = hash_str(value);
        self.insert_hash(h);
    }

    /// Folds the values in, in order.
    pub fn insert_many(&mut self, values: &Vec<String>)
        requires
            old(self).wf(),
        ensures
            final(self).wf(),
            final(self).spec_precision() == old(self).spec_precision(),
            final(self)@ == insert_all(old(self)@, old(self).spec_precision(), values@.map_values(|v: String| v@)),
    {
        let ghost start = self@;
        let ghost vals = values@.map_values(|v: String| v@);
        let mut i: usize = 0;
        while i < values.len()
            invariant
                self.wf(),
                self.spec_precision() == old(self).spec_precision(),
                start == old(self)@,
                vals == values@.map_values(|v: String| v@),
                i <= values@.len(),
                self@ == insert_all(start, self.spec_precision(), vals.subrange(0, i as int)),
            decreases values@.len() - i,
        {
            proof {
                assert(vals.subrange(0, i + 1).drop_last() =~= vals.subrange(0, i as int));
            }
            self.insert(values[i].as_str());
            i = i + 1;
        }
        assert(vals.subrange(0, values@.len() as int) =~= vals);
    }

    /// The element-wise maximum of two sketches of the same precision;
    /// sketches of different precisions are refused, and neither changes.
    pub fn merge(&self, other: &Estimator) -> (r: Result<Estimator, SketchError>)
        requires
            self.wf(),
            other.wf(),
        ensures
            self.spec_precision() != other.spec_precision() ==> r == Err::<Estimator, SketchError>(SketchError::PrecisionMismatch),
            self.spec_precision() == other.spec_precision() ==> (r matches Ok(e) && {
                &&& e.wf()
                &&& e.spec_precision() == self.spec_precision()
                &&& e@ == pointwise_max(self@, other@)
            }),
    {
        match self.registers.merge(&other.registers) {
            Ok(registers) => Ok(Estimator { registers }),
            Err(e) => Err(e),
        }
    }

    /// The integer quantities of the cardinality read-out.
    pub fn readout(&self) -> (r: Readout)
        requires
            self.wf(),
        ensures
            r == readout_of(self@, self.spec_precision()),
    {
        proof {
            self.lemma_wf();
            lemma2_to64();
            lemma2_to64_rest();
        }
        let p = self.registers.precision();
        let m = self.registers.len() as u64;
        let zeros = self.registers.zero_registers();
        let sum = self.registers.harmonic_sum();
        let (an, ad) = alpha(p, m);
        let two_63: u128 = 0x8000_0000_0000_0000;
        proof {
            assert(2 * an * m * two_63 <= 2 * (7213 * 0x40000) * 0x40000 * 0x8000_0000_0000_0000) by (nonlinear_arith)
                requires an <= 7213 * 0x40000, m <= 0x40000, two_63 == 0x8000_0000_0000_0000;
            assert(sum <= 0x40000 * 0x8000_0000_0000_0000) by (nonlinear_arith)
                requires sum <= m * two_63, m <= 0x40000, two_63 == 0x8000_0000_0000_0000;
            assert(5 * sum <= 5 * (0x40000 * 0x8000_0000_0000_0000));
            assert(ad <= 10000 * 0x40000 + 10790);
            assert(5 * sum * ad <= 5 * (0x40000 * 0x8000_0000_0000_0000) * (10000 * 0x40000 + 10790)) by (nonlinear_arith)
                requires sum <= 0x40000 * 0x8000_0000_0000_0000, ad <= 10000 * 0x40000 + 10790;
        }
        let five_sum: u128 = 5 * sum;
        let ad_wide: u128 = ad as u128;
        proof {
            assert(five_sum < 0x1000000000000000000000);
            assert(ad_wide < 0x1_0000_0000);
            assert(five_sum * ad_wide < 0x100000000000000000000000000000) by (nonlinear_arith)
                requires five_sum < 0x1000000000000000000000, ad_wide < 0x1_0000_0000;
        }
        let raw_small = 2 * (an as u128) * (m as u128) * two_63 <= five_sum * ad_wide;
        let linear_counting = zeros > 0 && raw_small;
        Readout {
            register_count: m,
            zero_registers: zeros,
            harmonic_sum: sum,
            alpha_num: an,
            alpha_den: ad,
            linear_counting,
        }
    }
}

} // verus!
