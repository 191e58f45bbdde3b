use dungeon_gen::entropy::Entropy;

#[test]
fn scripted_range_replays_values() {
    let mut e = Entropy::scripted(vec![0, 7, 12]);
    // 6 + 0 % 5
    assert_eq!(e.range_i32(6, 11), 6);
    // 0 + 7 % 3
    assert_eq!(e.range_u32(0, 3), 1);
    // 0 + 12 % 10
    assert_eq!(e.range_i32(0, 10), 2);
    // Exhausted draws replay as 0.
    assert_eq!(e.range_i32(5, 9), 5);
}

#[test]
fn system_range_respects_bounds() {
    let mut e = Entropy::system();
    assert_eq!(e.range_i32(5, 6), 5);
    assert_eq!(e.range_u32(9, 10), 9);
    for _ in 0..100 {
        let v = e.range_i32(3, 17);
        assert!(3 <= v && v < 17);
        let w = e.range_u32(0, 4);
        assert!(w < 4);
    }
}

#[test]
fn scripted_coin_follows_parity() {
    let mut e = Entropy::scripted(vec![0, 1, 2, 3]);
    assert!(e.coin());
    assert!(!e.coin());
    assert!(e.coin());
    assert!(!e.coin());
}

#[test]
fn weighted_choice_never_picks_zero_weight_scripted() {
    let weights = vec![0, 5, 0];
    for raw in 0..20 {
        let mut e = Entropy::scripted(vec![raw]);
        assert_eq!(e.choose_weighted(&weights), 1);
    }
}

#[test]
fn weighted_choice_never_picks_zero_weight_system() {
    let weights = vec![0, 3, 0, 2];
    let mut e = Entropy::system();
    for _ in 0..200 {
        let idx = e.choose_weighted(&weights);
        assert!(idx == 1 || idx == 3);
    }
}

#[test]
fn weighted_choice_brackets_by_cumulative_weight() {
    // Weights 2, 3: rolls 0..1 pick index 0, rolls 2..4 pick index 1.
    let weights = vec![2, 3];
    for raw in 0..5u64 {
        let mut e = Entropy::scripted(vec![raw]);
        let expect = if raw < 2 { 0 } else { 1 };
        assert_eq!(e.choose_weighted(&weights), expect);
    }
}
