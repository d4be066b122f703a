use neural_nets::{LoopNest, Position};

fn walk(nest: &LoopNest) -> Vec<(u128, usize, usize)> {
    let mut seen = Vec::new();
    let mut at = nest.first();
    while let Some(p) = at {
        seen.push((p.outer, p.middle, p.inner));
        at = nest.next(p);
    }
    seen
}

#[test]
fn nest_runs_inner_loop_fastest() {
    let nest = LoopNest { outer: 2, middle: 3, inner: 2 };
    let mut expected = Vec::new();
    for outer in 0..2u128 {
        for middle in 0..3usize {
            for inner in 0..2usize {
                expected.push((outer, middle, inner));
            }
        }
    }
    assert_eq!(walk(&nest), expected);
}

#[test]
fn nest_with_an_empty_level_has_no_round() {
    assert_eq!(LoopNest { outer: 0, middle: 3, inner: 2 }.first(), None);
    assert_eq!(LoopNest { outer: 2, middle: 0, inner: 2 }.first(), None);
    assert_eq!(LoopNest { outer: 2, middle: 3, inner: 0 }.first(), None);
}

#[test]
fn nest_of_one_round_ends_after_it() {
    let nest = LoopNest { outer: 1, middle: 1, inner: 1 };
    assert_eq!(nest.first(), Some(Position { outer: 0, middle: 0, inner: 0 }));
    assert_eq!(nest.next(Position { outer: 0, middle: 0, inner: 0 }), None);
}

#[test]
fn nest_carries_into_the_next_level() {
    let nest = LoopNest { outer: 3, middle: 2, inner: 4 };
    assert_eq!(
        nest.next(Position { outer: 0, middle: 0, inner: 3 }),
        Some(Position { outer: 0, middle: 1, inner: 0 })
    );
    assert_eq!(
        nest.next(Position { outer: 0, middle: 1, inner: 3 }),
        Some(Position { outer: 1, middle: 0, inner: 0 })
    );
    assert_eq!(nest.next(Position { outer: 2, middle: 1, inner: 3 }), None);
}

#[test]
fn nest_has_no_successor_for_a_position_outside() {
    let nest = LoopNest { outer: 3, middle: 2, inner: 4 };
    assert_eq!(nest.next(Position { outer: 3, middle: 0, inner: 0 }), None);
    assert_eq!(nest.next(Position { outer: 0, middle: 2, inner: 0 }), None);
    assert_eq!(nest.next(Position { outer: 0, middle: 0, inner: 4 }), None);
}

#[test]
fn nest_counts_at_the_limits_of_its_counters() {
    let nest = LoopNest { outer: u128::MAX, middle: usize::MAX, inner: usize::MAX };
    assert_eq!(
        nest.next(Position { outer: 5, middle: usize::MAX - 1, inner: usize::MAX - 1 }),
        Some(Position { outer: 6, middle: 0, inner: 0 })
    );
    assert_eq!(
        nest.next(Position {
            outer: u128::MAX - 1,
            middle: usize::MAX - 1,
            inner: usize::MAX - 1
        }),
        None
    );
}
