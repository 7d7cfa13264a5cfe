use pathtracer::bounce::{indirect_samples, traces_at, INDIRECT_RAYS, MAX_DEPTH};

#[test]
fn samples_halve_per_bounce() {
    assert_eq!(indirect_samples(0), INDIRECT_RAYS);
    assert_eq!(indirect_samples(0), 12);
    assert_eq!(indirect_samples(1), 6);
    assert_eq!(indirect_samples(2), 3);
}

#[test]
fn no_samples_past_max_depth() {
    assert_eq!(indirect_samples(MAX_DEPTH + 1), 0);
    assert_eq!(indirect_samples(usize::MAX), 0);
}

#[test]
fn tracing_stops_past_max_depth() {
    assert!(traces_at(0));
    assert!(traces_at(MAX_DEPTH));
    assert!(!traces_at(MAX_DEPTH + 1));
}
