use pathtrace::trace::{PathState, Surface, Termination};

fn run(max_depth: usize, events: &[Surface]) -> (Option<Termination>, usize) {
    let mut path = PathState::new(max_depth);
    let mut used = 0;
    while path.finished().is_none() && used < events.len() {
        path.record(events[used]);
        used += 1;
    }
    (path.finished(), used)
}

#[test]
fn zero_depth_is_black_without_query() {
    let path = PathState::new(0);
    assert_eq!(path.finished(), Some(Termination::Black));
    assert_eq!(path.remaining(), 0);
    assert_eq!(run(0, &[Surface::Miss]), (Some(Termination::Black), 0));
}

#[test]
fn miss_ends_in_sky() {
    assert_eq!(run(5, &[Surface::Miss]), (Some(Termination::Sky), 1));
    assert_eq!(
        run(5, &[Surface::Scattered, Surface::Scattered, Surface::Miss]),
        (Some(Termination::Sky), 3)
    );
}

#[test]
fn absorption_ends_black() {
    assert_eq!(
        run(5, &[Surface::Scattered, Surface::Absorbed, Surface::Miss]),
        (Some(Termination::Black), 2)
    );
}

#[test]
fn bounce_limit_ends_black() {
    let events = [Surface::Scattered; 10];
    assert_eq!(run(3, &events), (Some(Termination::Black), 3));
    assert_eq!(run(1, &[Surface::Scattered, Surface::Miss]), (Some(Termination::Black), 1));
}

#[test]
fn last_allowed_query_can_still_see_sky() {
    assert_eq!(
        run(3, &[Surface::Scattered, Surface::Scattered, Surface::Miss]),
        (Some(Termination::Sky), 3)
    );
}

#[test]
fn queries_never_exceed_limit() {
    let events = [Surface::Scattered; 60];
    for depth in 0..50 {
        let (end, used) = run(depth, &events);
        assert_eq!(end, Some(Termination::Black));
        assert_eq!(used, depth);
    }
}

#[test]
fn remaining_depth_counts_down() {
    let mut path = PathState::new(3);
    assert_eq!(path.remaining(), 3);
    assert_eq!(path.finished(), None);
    path.record(Surface::Scattered);
    assert_eq!(path.remaining(), 2);
    assert_eq!(path.finished(), None);
    path.record(Surface::Scattered);
    assert_eq!(path.remaining(), 1);
    path.record(Surface::Scattered);
    assert_eq!(path.remaining(), 0);
    assert_eq!(path.finished(), Some(Termination::Black));
}
