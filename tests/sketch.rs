use hll_cli::error::SketchError;
use hll_cli::estimator::{precision_for_rate, Estimator, Readout, RATE_SCALE};
use hll_cli::estimator_set::EstimatorSet;
use hll_cli::registers::RegisterArray;

fn ppb(rate: f64) -> u64 {
    (rate * RATE_SCALE as f64).round() as u64
}

fn estimate(r: &Readout) -> f64 {
    let m = r.register_count as f64;
    if r.linear_counting {
        m * (m / r.zero_registers as f64).ln()
    } else {
        let alpha = r.alpha_num as f64 / r.alpha_den as f64;
        alpha * m * m * 2f64.powi(63) / r.harmonic_sum as f64
    }
}

fn registers(e: &Estimator) -> Vec<u8> {
    (0..e.register_count()).map(|i| e.register(i)).collect()
}

#[test]
fn five_distinct_values() {
    let mut e = Estimator::new(ppb(0.01)).unwrap();
    for v in ["a", "b", "c", "d", "e"] {
        e.insert(v);
    }
    assert_eq!(estimate(&e.readout()).round() as u64, 5);
}

#[test]
fn one_value_many_times() {
    let mut e = Estimator::new(ppb(0.05)).unwrap();
    for _ in 0..1000 {
        e.insert("x");
    }
    assert_eq!(estimate(&e.readout()).round() as u64, 1);
}

#[test]
fn three_columns() {
    let mut set = EstimatorSet::new(ppb(0.05)).unwrap();
    let input = [(0, "a"), (1, "1"), (0, "b"), (2, "foo"), (1, "1")];
    for (i, v) in input {
        set.record(i, v);
    }
    assert_eq!(set.len(), 3);
    let counts: Vec<u64> = set.finalize().iter().map(|r| estimate(r).round() as u64).collect();
    assert_eq!(counts, vec![2, 1, 1]);
}

#[test]
fn set_grows_to_highest_index() {
    let mut set = EstimatorSet::new(ppb(0.05)).unwrap();
    set.record(4, "z");
    assert_eq!(set.len(), 5);
    let counts: Vec<u64> = set.finalize().iter().map(|r| estimate(r).round() as u64).collect();
    assert_eq!(counts, vec![0, 0, 0, 0, 1]);
    set.record(1, "y");
    assert_eq!(set.len(), 5);
    assert_eq!(set.precision(), 9);
}

#[test]
fn rate_above_one_is_refused() {
    assert_eq!(Estimator::new(ppb(1.5)).err(), Some(SketchError::InvalidConfiguration));
    assert_eq!(Estimator::new(0).err(), Some(SketchError::InvalidConfiguration));
    assert_eq!(Estimator::new(RATE_SCALE).err(), Some(SketchError::InvalidConfiguration));
    assert_eq!(EstimatorSet::new(ppb(1.5)).err(), Some(SketchError::InvalidConfiguration));
}

#[test]
fn merge_of_different_precisions_is_refused() {
    let a = Estimator::new(ppb(0.01)).unwrap();
    let b = Estimator::new(ppb(0.05)).unwrap();
    assert_eq!(a.merge(&b).err(), Some(SketchError::PrecisionMismatch));
}

#[test]
fn precision_from_rate() {
    assert_eq!(precision_for_rate(ppb(0.01)), 14);
    assert_eq!(precision_for_rate(ppb(0.05)), 9);
    assert_eq!(precision_for_rate(ppb(0.02)), 12);
    assert_eq!(precision_for_rate(ppb(0.9)), 4);
    assert_eq!(precision_for_rate(1), 18);
    assert_eq!(Estimator::new(ppb(0.01)).unwrap().register_count(), 16384);
}

#[test]
fn precision_range() {
    assert_eq!(RegisterArray::new(3).err(), Some(SketchError::InvalidConfiguration));
    assert_eq!(RegisterArray::new(19).err(), Some(SketchError::InvalidConfiguration));
    assert_eq!(Estimator::with_precision(2).err(), Some(SketchError::InvalidConfiguration));
    let a = RegisterArray::new(4).unwrap();
    assert_eq!(a.len(), 16);
    assert_eq!(RegisterArray::new(18).unwrap().len(), 1 << 18);
    assert!((0..16).all(|i| a.get(i) == 0));
}

#[test]
fn register_update_keeps_maximum() {
    let mut a = RegisterArray::new(4).unwrap();
    a.update(3, 5);
    a.update(3, 2);
    assert_eq!(a.get(3), 5);
    a.update(3, 7);
    assert_eq!(a.get(3), 7);
    assert_eq!(a.zero_registers(), 15);
}

#[test]
fn bucket_and_rank_of_hash() {
    let mut e = Estimator::with_precision(4).unwrap();
    // low 4 bits 0011 choose register 3; the tail 1000 has rank 4
    e.insert_hash(0b1000_0011);
    assert_eq!(e.register(3), 4);
    // an all-zero tail of 60 bits has rank 61
    e.insert_hash(5);
    assert_eq!(e.register(5), 61);
    e.insert_hash(0b1_0101);
    assert_eq!(e.register(5), 61);
    assert_eq!(e.insert_hash(u64::MAX), ());
    assert_eq!(e.register(15), 1);
}

#[test]
fn readout_of_fresh_sketch() {
    let e = Estimator::with_precision(4).unwrap();
    let r = e.readout();
    assert_eq!(r.register_count, 16);
    assert_eq!(r.zero_registers, 16);
    assert_eq!(r.harmonic_sum, 16u128 << 63);
    assert_eq!((r.alpha_num, r.alpha_den), (673, 1000));
    assert!(r.linear_counting);
    assert_eq!(estimate(&r), 0.0);
}

#[test]
fn alpha_constants() {
    let a = |p: u8| {
        let r = Estimator::with_precision(p).unwrap().readout();
        (r.alpha_num, r.alpha_den)
    };
    assert_eq!(a(5), (697, 1000));
    assert_eq!(a(6), (709, 1000));
    assert_eq!(a(7), (7213 * 128, 10000 * 128 + 10790));
}

#[test]
fn raw_estimate_when_all_registers_set() {
    let mut e = Estimator::with_precision(4).unwrap();
    for i in 0..16u64 {
        // tail 1: rank 1 in every register
        e.insert_hash((1 << 4) | i);
    }
    let r = e.readout();
    assert_eq!(r.zero_registers, 0);
    assert!(!r.linear_counting);
    assert_eq!(r.harmonic_sum, 16u128 << 62);
    // alpha * m^2 / (m / 2) = 0.673 * 32
    assert!((estimate(&r) - 0.673 * 32.0).abs() < 1e-9);
}

#[test]
fn same_input_same_estimate() {
    let vals: Vec<String> = (0..500).map(|i| format!("v{}", i)).collect();
    let mut a = Estimator::new(ppb(0.02)).unwrap();
    let mut b = Estimator::new(ppb(0.02)).unwrap();
    a.insert_many(&vals);
    for v in &vals {
        b.insert(v);
    }
    assert_eq!(registers(&a), registers(&b));
    assert_eq!(a.readout(), b.readout());
}

#[test]
fn more_values_never_lower_the_estimate() {
    let mut e = Estimator::new(ppb(0.05)).unwrap();
    let mut last = estimate(&e.readout());
    let mut regs = registers(&e);
    for i in 0..200 {
        e.insert(&format!("item-{}", i));
        let now = estimate(&e.readout());
        assert!(now >= last);
        let new_regs = registers(&e);
        assert!(regs.iter().zip(new_regs.iter()).all(|(a, b)| a <= b));
        last = now;
        regs = new_regs;
    }
}

#[test]
fn merge_equals_union() {
    let mut a = Estimator::new(ppb(0.02)).unwrap();
    let mut b = Estimator::new(ppb(0.02)).unwrap();
    let mut u = Estimator::new(ppb(0.02)).unwrap();
    for i in 0..300 {
        let v = format!("left{}", i);
        a.insert(&v);
        u.insert(&v);
    }
    for i in 0..200 {
        let v = format!("right{}", i);
        b.insert(&v);
        u.insert(&v);
    }
    let m = a.merge(&b).unwrap();
    assert_eq!(registers(&m), registers(&u));
    assert_eq!(m.readout(), u.readout());
    let est = estimate(&m.readout());
    assert!((est - 500.0).abs() < 0.1 * 500.0);
}

#[test]
fn merge_is_commutative_with_identity() {
    let mut a = Estimator::new(ppb(0.05)).unwrap();
    let mut b = Estimator::new(ppb(0.05)).unwrap();
    for i in 0..50 {
        a.insert(&format!("a{}", i));
        b.insert(&format!("b{}", i));
    }
    let ab = a.merge(&b).unwrap();
    let ba = b.merge(&a).unwrap();
    assert_eq!(registers(&ab), registers(&ba));
    let fresh = Estimator::new(ppb(0.05)).unwrap();
    assert_eq!(registers(&a.merge(&fresh).unwrap()), registers(&a));
    assert_eq!(registers(&fresh.merge(&a).unwrap()), registers(&a));
}

#[test]
fn duplicates_do_not_count() {
    let mut once = Estimator::new(ppb(0.05)).unwrap();
    let mut many = Estimator::new(ppb(0.05)).unwrap();
    once.insert("dup");
    for _ in 0..100 {
        many.insert("dup");
    }
    assert_eq!(registers(&once), registers(&many));
    assert_eq!(once.readout(), many.readout());
}

#[test]
fn distinct_values_hash_apart() {
    let mut e = Estimator::new(ppb(0.01)).unwrap();
    e.insert("");
    e.insert("a");
    assert_eq!(e.readout().zero_registers, 16384 - 2);
}

#[test]
fn accuracy_within_five_standard_errors() {
    for (rate, n) in [(0.01, 20000u64), (0.05, 5000), (0.02, 100000)] {
        let mut e = Estimator::new(ppb(rate)).unwrap();
        for i in 0..n {
            e.insert(&format!("value-{}", i));
        }
        let p = e.precision() as i32;
        let se = 1.04 / 2f64.powi(p).sqrt();
        let rel = (estimate(&e.readout()) - n as f64).abs() / n as f64;
        assert!(rel <= 5.0 * se, "rate {} n {} rel {}", rate, n, rel);
    }
}
