use tcp_throttle::error::ConfigError;
use tcp_throttle::plan::Plan;

fn plan_bytes(len: usize) -> Vec<u8> {
    (0..len).map(|i| (i % 251) as u8).collect()
}

#[test]
fn new_keeps_what_it_is_given() {
    let plan = Plan::new(plan_bytes(10), 4, 250, true, Some(7)).unwrap();
    assert_eq!(plan.payload(), plan_bytes(10).as_slice());
    assert_eq!(plan.chunk_size(), 4);
    assert_eq!(plan.interval(), 250);
    assert!(plan.repeat());
    assert_eq!(plan.max_bytes(), Some(7));
}

#[test]
fn new_rejects_zero_chunk_size() {
    assert_eq!(Plan::new(plan_bytes(10), 0, 250, false, None).err(), Some(ConfigError::ZeroChunkSize));
}

#[test]
fn new_rejects_zero_cap() {
    assert_eq!(Plan::new(plan_bytes(10), 1, 250, false, Some(0)).err(), Some(ConfigError::ZeroMaxBytes));
}

#[test]
fn new_reports_zero_chunk_size_before_zero_cap() {
    assert_eq!(Plan::new(plan_bytes(10), 0, 250, false, Some(0)).err(), Some(ConfigError::ZeroChunkSize));
}

#[test]
fn new_accepts_empty_payload_and_zero_interval() {
    let plan = Plan::new(Vec::new(), 1, 0, false, None).unwrap();
    assert_eq!(plan.limit(), 0);
    assert_eq!(plan.interval(), 0);
}

#[test]
fn limit_is_payload_length_without_cap() {
    let plan = Plan::new(plan_bytes(1033), 500, 1000, false, None).unwrap();
    assert_eq!(plan.limit(), 1033);
}

#[test]
fn limit_is_cap_when_cap_is_smaller() {
    let plan = Plan::new(plan_bytes(1033), 500, 1000, false, Some(700)).unwrap();
    assert_eq!(plan.limit(), 700);
}

#[test]
fn limit_ignores_cap_that_is_not_smaller() {
    let same = Plan::new(plan_bytes(1033), 500, 1000, false, Some(1033)).unwrap();
    assert_eq!(same.limit(), 1033);
    let larger = Plan::new(plan_bytes(1033), 500, 1000, false, Some(5000)).unwrap();
    assert_eq!(larger.limit(), 1033);
}

#[test]
fn chunk_end_steps_by_chunk_size_until_the_last_chunk() {
    let plan = Plan::new(plan_bytes(1033), 500, 1000, false, None).unwrap();
    assert_eq!(plan.chunk_end(0), 500);
    assert_eq!(plan.chunk_end(500), 1000);
    assert_eq!(plan.chunk_end(1000), 1033);
}

#[test]
fn chunk_end_takes_a_full_last_chunk() {
    let plan = Plan::new(plan_bytes(1000), 500, 1000, false, None).unwrap();
    assert_eq!(plan.chunk_end(0), 500);
    assert_eq!(plan.chunk_end(500), 1000);
}

#[test]
fn chunk_end_never_passes_the_limit() {
    let plan = Plan::new(plan_bytes(1033), 500, 1000, false, Some(600)).unwrap();
    assert_eq!(plan.chunk_end(500), 600);
    assert_eq!(plan.chunk_end(600), 600);
    assert_eq!(plan.chunk_end(9999), 600);
    let huge = Plan::new(plan_bytes(10), usize::MAX, 0, false, None).unwrap();
    assert_eq!(huge.chunk_end(0), 10);
    assert_eq!(huge.chunk_end(3), 10);
}

#[test]
fn chunk_count_rounds_up() {
    let count = |len: usize, chunk: usize, cap: Option<usize>| {
        Plan::new(plan_bytes(len), chunk, 0, false, cap).unwrap().chunk_count()
    };
    assert_eq!(count(1033, 500, None), 3);
    assert_eq!(count(1000, 500, None), 2);
    assert_eq!(count(1001, 500, None), 3);
    assert_eq!(count(499, 500, None), 1);
    assert_eq!(count(500, 500, None), 1);
    assert_eq!(count(1, 1, None), 1);
    assert_eq!(count(7, 1, None), 7);
    assert_eq!(count(1033, 500, Some(501)), 2);
    assert_eq!(count(1033, 500, Some(500)), 1);
    assert_eq!(count(1033, usize::MAX, None), 1);
}

#[test]
fn chunk_count_of_empty_pass_is_one() {
    let plan = Plan::new(Vec::new(), 500, 0, false, None).unwrap();
    assert_eq!(plan.chunk_count(), 1);
}
