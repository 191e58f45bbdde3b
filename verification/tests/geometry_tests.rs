use dungeon_gen::geometry::Rect;

#[test]
fn rect_new_sets_bounds() {
    let r = Rect::new(1, 2, 6, 7);
    assert_eq!(r.x1, 1);
    assert_eq!(r.y1, 2);
    assert_eq!(r.x2, 7);
    assert_eq!(r.y2, 9);
}

#[test]
fn center_of_even_room_truncates_low() {
    let r = Rect::new(0, 0, 6, 6);
    assert_eq!(r.center(), (3, 3));
}

#[test]
fn center_of_odd_room() {
    let r = Rect::new(10, 20, 7, 9);
    // (10 + 17) / 2 = 13, (20 + 29) / 2 = 24
    assert_eq!(r.center(), (13, 24));
}

#[test]
fn overlapping_rooms_intersect() {
    let a = Rect::new(0, 0, 6, 6);
    let b = Rect::new(3, 3, 6, 6);
    assert!(a.intersects_with(&b));
    assert!(b.intersects_with(&a));
}

#[test]
fn touching_rooms_intersect() {
    // Sharing an edge counts as intersecting: the test is inclusive.
    let a = Rect::new(0, 0, 5, 5);
    let b = Rect::new(5, 0, 5, 5);
    assert!(a.intersects_with(&b));
    assert!(b.intersects_with(&a));
}

#[test]
fn separated_rooms_do_not_intersect() {
    let a = Rect::new(0, 0, 5, 5);
    let b = Rect::new(6, 0, 5, 5);
    assert!(!a.intersects_with(&b));
    assert!(!b.intersects_with(&a));
    let c = Rect::new(0, 6, 5, 5);
    assert!(!a.intersects_with(&c));
}
