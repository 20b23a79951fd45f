//! The register array: `2^p` counters, each holding the largest rank seen
//! for its bucket.
use vstd::prelude::*;
use vstd::arithmetic::power2::{pow2, lemma2_to64, lemma_pow2_strictly_increases};
use vstd::bits::{lemma_u64_shl_is_mul, lemma_u64_pow2_no_overflow};
use crate::error::SketchError;

verus! {

/// Smallest supported number of index bits.
pub const MIN_PRECISION: u8 = 4;

/// Largest supported number of index bits.
pub const MAX_PRECISION: u8 = 18;

pub open spec fn valid_precision(p: nat) -> bool {
    MIN_PRECISION <= p <= MAX_PRECISION
}

/// The largest rank a 64-bit hash can give when `p` bits choose the bucket:
/// an all-zero tail of `64 - p` bits counts as `64 - p + 1`.
pub open spec fn max_rank(p: nat) -> nat {
    (65 - p) as nat
}

/// `s` with entry `i` raised to `r` if `r` is larger.
pub open spec fn max_update(s: Seq<u8>, i: int, r: u8) -> Seq<u8> {
    s.update(i, if s[i] >= r { s[i] } else { r })
}

/// Entry-wise maximum of two register sequences of equal length.
pub open spec fn pointwise_max(a: Seq<u8>, b: Seq<u8>) -> Seq<u8> {
    Seq::new(a.len(), |i: int| if a[i] >= b[i] { a[i] } else { b[i] })
}

/// `a` is entry-wise at most `b`.
pub open spec fn dominated(a: Seq<u8>, b: Seq<u8>) -> bool {
    &&& a.len() == b.len()
    &&& forall|i: int| 0 <= i < a.len() ==> #[trigger] a[i] <= b[i]
}

/// Number of registers still at zero.
pub open spec fn zero_count(s: Seq<u8>) -> nat
    decreases s.len(),
{
    if s.len() == 0 {
        0
    } else {
        zero_count(s.drop_last()) + if s.last() == 0 { 1nat } else { 0nat }
    }
}

/// `sum(2^-s[i])` scaled by `2^63`, that is `sum(2^(63 - s[i]))`.
pub open spec fn harmonic_sum(s: Seq<u8>) -> nat
    decreases s.len(),
{
    if s.len() == 0 {
        0
    } else {
        harmonic_sum(s.drop_last()) + pow2((63 - s.last()) as nat)
    }
}

/// A fixed-size array of `2^p` registers.
pub struct RegisterArray {
    precision: u8,
    registers: Vec<u8>,
}

impl View for RegisterArray {
    type V = Seq<u8>;

    closed spec fn view(&self) -> Seq<u8> {
        self.registers@
    }
}

impl RegisterArray {
    /// The number of index bits `p`.
    pub closed spec fn spec_precision(&self) -> nat {
        self.precision as nat
    }

    /// The precision is supported, there are exactly `2^p` registers, and
    /// none exceeds the largest possible rank.
    pub open spec fn wf(&self) -> bool {
        &&& valid_precision(self.spec_precision())
        &&& self@.len() == pow2(self.spec_precision())
        &&& forall|i: int| 0 <= i < self@.len() ==> #[trigger] self@[i] <= max_rank(self.spec_precision())
    }

    /// `2^precision` registers, all zero; an unsupported precision is refused.
    pub fn new(precision: u8) -> (r: Result<RegisterArray, SketchError>)
        ensures
            valid_precision(precision as nat) <==> r is Ok,
            !valid_precision(precision as nat) ==> r == Err::<RegisterArray, SketchError>(SketchError::InvalidConfiguration),
            r matches Ok(a) ==> {
                &&& a.wf()
                &&& a.spec_precision() == precision as nat
                &&& a@ == Seq::new(pow2(precision as nat), |i: int| 0u8)
            },
    {
        if precision < MIN_PRECISION || precision > MAX_PRECISION {
            return Err(SketchError::InvalidConfiguration);
        }
        proof {
            lemma2_to64();
        }
        let mut m: usize = 1;
        let mut k: u8 = 0;
        while k < precision
            invariant
                k <= precision <= MAX_PRECISION,
                m == pow2(k as nat),
            decreases precision - k,
        {
            proof {
                lemma2_to64();
                vstd::arithmetic::power2::lemma_pow2_unfold((k + 1) as nat);
                vstd::arithmetic::power2::lemma_pow2_strictly_increases(k as nat, MAX_PRECISION as nat);
            }
            m = m * 2;
            k = k + 1;
        }
        let registers: Vec<u8> = vec![0u8; m];
        let r = RegisterArray { precision, registers };
        assert(r@ == Seq::new(pow2(precision as nat), |i: int| 0u8));
        Ok(r)
    }

    /// A well-formed array has at most `2^18` registers.
    pub proof fn lemma_len_bound(&self)
        requires
            self.wf(),
        ensures
            pow2(self.spec_precision()) == self@.len() <= 0x40000,
    {
        lemma2_to64();
        if self.spec_precision() < MAX_PRECISION {
            lemma_pow2_strictly_increases(self.spec_precision(), MAX_PRECISION as nat);
        }
    }

    /// The number of index bits `p`.
    pub fn precision(&self) -> (r: u8)
        ensures
            r as nat == self.spec_precision(),
    {
        self.precision
    }

    /// The number of registers, `2^p`.
    pub fn len(&self) -> (r: usize)
        ensures
            r == self@.len(),
    {
        self.registers.len()
    }

    /// The value of register `i`.
    pub fn get(&self, i: usize) -> (r: u8)
        requires
            i < self@.len(),
        ensures
            r == self@[i as int],
    {
        self.registers[i]
    }

    /// Raises register `bucket` to `rank` if `rank` is larger.
    pub fn update(&mut self, bucket: usize, rank: u8)
        requires
            old(self).wf(),
            bucket < old(self)@.len(),
            rank <= max_rank(old(self).spec_precision()),
        ensures
            final(self).wf(),
            final(self).spec_precision() == old(self).spec_precision(),
            final(self)@ == max_update(old(self)@, bucket as int, rank),
    {
        if self.registers[bucket] < rank {
            self.registers.set(bucket, rank);
        }
        assert(self@ =~= max_update(old(self)@, bucket as int, rank));
    }

    /// The element-wise maximum of two arrays of the same precision; arrays
    /// of different precisions are refused and neither input changes.
    pub fn merge(&self, other: &RegisterArray) -> (r: Result<RegisterArray, SketchError>)
        requires
            self.wf(),
            other.wf(),
        ensures
            self.spec_precision() != other.spec_precision() ==> r == Err::<RegisterArray, SketchError>(SketchError::PrecisionMismatch),
            self.spec_precision() == other.spec_precision() ==> (r matches Ok(a) && {
                &&& a.wf()
                &&& a.spec_precision() == self.spec_precision()
                &&& a@ == pointwise_max(self@, other@)
            }),
    {
        if self.precision != other.precision {
            return Err(SketchError::PrecisionMismatch);
        }
        let n = self.registers.len();
        let mut out: Vec<u8> = Vec::with_capacity(n);
        let mut i: usize = 0;
        while i < n
            invariant
                n == self@.len() == other@.len(),
                i <= n,
                out@ =~= pointwise_max(self@, other@).subrange(0, i as int),
            decreases n - i,
        {
            let a = self.registers[i];
            let b = other.registers[i];
            if a >= b {
                out.push(a);
            } else {
                out.push(b);
            }
            i = i + 1;
        }
        let r = RegisterArray { precision: self.precision, registers: out };
        assert(r@ =~= pointwise_max(self@, other@));
        Ok(r)
    }

    /// How many registers are still zero.
    pub fn zero_registers(&self) -> (r: u64)
        requires
            self.wf(),
        ensures
            r == zero_count(self@),
    {
        proof {
            self.lemma_len_bound();
        }
        let n = self.registers.len();
        let mut count: u64 = 0;
        let mut i: usize = 0;
        while i < n
            invariant
                n == self@.len() <= 0x40000,
                i <= n,
                count == zero_count(self@.subrange(0, i as int)),
                count <= i,
            decreases n - i,
        {
            proof {
                assert(self@.subrange(0, i + 1).drop_last() =~= self@.subrange(0, i as int));
            }
            if self.registers[i] == 0 {
                count = count + 1;
            }
            i = i + 1;
        }
        assert(self@.subrange(0, n as int) =~= self@);
        count
    }

    /// `sum(2^-r)` over the registers, scaled by `2^63`.
    pub fn harmonic_sum(&self) -> (r: u128)
        requires
            self.wf(),
        ensures
            r == harmonic_sum(self@),
            r <= self@.len() * pow2(63),
    {
        let n = self.registers.len();
        let mut sum: u128 = 0;
        let mut i: usize = 0;
        proof {
            lemma2_to64();
            self.lemma_len_bound();
        }
        while i < n
            invariant
                self.wf(),
                n == self@.len() <= pow2(MAX_PRECISION as nat),
                pow2(MAX_PRECISION as nat) == 0x40000,
                i <= n,
                sum == harmonic_sum(self@.subrange(0, i as int)),
                sum <= i * pow2(63),
            decreases n - i,
        {
            let reg = self.registers[i];
            let shift: u64 = (63 - reg) as u64;
            proof {
                assert(self@.subrange(0, i + 1).drop_last() =~= self@.subrange(0, i as int));
                lemma_u64_pow2_no_overflow(shift as nat);
                lemma_u64_shl_is_mul(1, shift);
                if shift < 63 {
                    lemma_pow2_strictly_increases(shift as nat, 63);
                }
                assert(pow2(63) == 0x8000_0000_0000_0000) by {
                    vstd::arithmetic::power2::lemma2_to64_rest();
                }
                assert((i + 1) * pow2(63) == i * pow2(63) + pow2(63)) by (nonlinear_arith);
                assert(i * pow2(63) <= 0x40000 * 0x8000_0000_0000_0000) by (nonlinear_arith)
                    requires i <= 0x40000, pow2(63) == 0x8000_0000_0000_0000;
            }
            let term: u64 = 1u64 << shift;
            sum = sum + term as u128;
            i = i + 1;
        }
        assert(self@.subrange(0, n as int) =~= self@);
        sum
    }
}

} // verus!
