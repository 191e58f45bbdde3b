use dungeon_gen::tables::{from_dungeon_level, Transition};

fn sample_table() -> Vec<Transition> {
    vec![
        Transition { level: 1, value: 2 },
        Transition { level: 4, value: 3 },
        Transition { level: 6, value: 5 },
    ]
}

#[test]
fn lookup_below_first_threshold_is_zero() {
    assert_eq!(from_dungeon_level(&sample_table(), 0), 0);
}

#[test]
fn lookup_within_first_band() {
    assert_eq!(from_dungeon_level(&sample_table(), 1), 2);
    assert_eq!(from_dungeon_level(&sample_table(), 2), 2);
    assert_eq!(from_dungeon_level(&sample_table(), 3), 2);
}

#[test]
fn lookup_within_middle_band() {
    assert_eq!(from_dungeon_level(&sample_table(), 4), 3);
    assert_eq!(from_dungeon_level(&sample_table(), 5), 3);
}

#[test]
fn lookup_at_and_past_last_threshold() {
    assert_eq!(from_dungeon_level(&sample_table(), 6), 5);
    assert_eq!(from_dungeon_level(&sample_table(), 7), 5);
    assert_eq!(from_dungeon_level(&sample_table(), 100), 5);
}

#[test]
fn lookup_empty_table_is_zero() {
    let t: Vec<Transition> = Vec::new();
    assert_eq!(from_dungeon_level(&t, 10), 0);
}

#[test]
fn lookup_scans_from_the_back() {
    // The last qualifying entry wins, as the reverse scan finds it first.
    let t = vec![Transition { level: 4, value: 3 }, Transition { level: 1, value: 2 }];
    assert_eq!(from_dungeon_level(&t, 2), 2);
    assert_eq!(from_dungeon_level(&t, 5), 2);
}
