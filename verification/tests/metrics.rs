use mafis::metrics::compute_critical_time;

/// The critical time as a number, NaN when undefined.
fn as_fraction(r: Option<(usize, usize)>) -> f64 {
    match r {
        Some((below, total)) => below as f64 / total as f64,
        None => f64::NAN,
    }
}

#[test]
fn critical_time_no_fault() {
    // No fault impact → metric is undefined (NaN), not zero
    assert!(as_fraction(compute_critical_time(&[1; 10], &[1; 10], None)).is_nan());
}

#[test]
fn critical_time_all_below() {
    // Baseline all 2, faulted all 0 after tick 3
    let bl = vec![2; 10];
    let mut faulted = vec![2; 10];
    for i in 2..10 {
        faulted[i] = 0;
    }
    let ct = as_fraction(compute_critical_time(&bl, &faulted, Some(3)));
    // 8 ticks after fault, all below 50% threshold
    assert!((ct - 1.0).abs() < 1e-10);
}

#[test]
fn critical_time_half_below() {
    let bl = vec![2; 10];
    let mut faulted = vec![2; 10];
    // First 4 ticks after fault: below threshold
    // Next 4 ticks: above threshold
    for i in 2..6 {
        faulted[i] = 0;
    }
    let ct = as_fraction(compute_critical_time(&bl, &faulted, Some(3)));
    // 8 ticks after fault, 4 below
    assert!((ct - 0.5).abs() < 1e-10);
}
