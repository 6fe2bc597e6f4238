use retry_race::race::{RaceStep, SolutionFuture};

fn poll_of(step: &RaceStep<u32, u32>) -> Option<usize> {
    match step {
        RaceStep::Poll(i) => Some(*i),
        _ => None,
    }
}

#[test]
fn pass_visits_every_operation_in_order() {
    let mut race: SolutionFuture<u32, u32> = SolutionFuture::new(3);
    let s = race.activate();
    assert_eq!(poll_of(&s), Some(0));
    let s = race.observe(None);
    assert_eq!(poll_of(&s), Some(1));
    let s = race.observe(None);
    assert_eq!(poll_of(&s), Some(2));
    let s = race.observe(None);
    assert!(matches!(s, RaceStep::Pending));
}

#[test]
fn earliest_success_in_a_pass_wins() {
    let mut race: SolutionFuture<u32, u32> = SolutionFuture::new(3);
    race.activate();
    let s = race.observe(None);
    assert_eq!(poll_of(&s), Some(1));
    let s = race.observe(Some(Ok(11)));
    assert!(matches!(s, RaceStep::Ready(Ok(11))));
}

#[test]
fn settled_operations_are_skipped() {
    let mut race: SolutionFuture<u32, u32> = SolutionFuture::new(3);
    race.activate();
    let s = race.observe(Some(Err(1)));
    assert_eq!(poll_of(&s), Some(1));
    let s = race.observe(None);
    assert_eq!(poll_of(&s), Some(2));
    let s = race.observe(Some(Err(3)));
    assert!(matches!(s, RaceStep::Pending));
    let s = race.activate();
    assert_eq!(poll_of(&s), Some(1));
    let s = race.observe(None);
    assert!(matches!(s, RaceStep::Pending));
}

#[test]
fn failure_of_the_last_pending_operation_ends_the_race() {
    let mut race: SolutionFuture<u32, u32> = SolutionFuture::new(2);
    race.activate();
    race.observe(Some(Err(1)));
    let s = race.observe(None);
    assert!(matches!(s, RaceStep::Pending));
    race.activate();
    let s = race.observe(Some(Err(2)));
    assert!(matches!(s, RaceStep::Ready(Err(2))));
}

#[test]
fn last_failure_in_scan_order_is_kept() {
    let mut race: SolutionFuture<u32, u32> = SolutionFuture::new(3);
    race.activate();
    race.observe(Some(Err(1)));
    race.observe(Some(Err(2)));
    let s = race.observe(Some(Err(3)));
    assert!(matches!(s, RaceStep::Ready(Err(3))));
}

#[test]
fn single_operation_success() {
    let mut race: SolutionFuture<u32, u32> = SolutionFuture::new(1);
    race.activate();
    let s = race.observe(None);
    assert!(matches!(s, RaceStep::Pending));
    race.activate();
    let s = race.observe(Some(Ok(5)));
    assert!(matches!(s, RaceStep::Ready(Ok(5))));
}
