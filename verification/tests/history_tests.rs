use particle_trails::history::History;
use particle_trails::math::Vec2;

fn snap(tag: i64) -> Vec<Vec2> {
    vec![Vec2::new(tag, -tag), Vec2::new(tag + 1, tag + 2)]
}

#[test]
fn history_keeps_everything_below_capacity() {
    let mut h = History::new(3, snap(0));
    h.push(snap(1));
    h.push(snap(2));
    assert_eq!(h.len(), 3);
    for k in 0..3usize {
        assert_eq!(h.get(k)[0].x, k as i64);
    }
}

#[test]
fn history_evicts_strictly_oldest_first() {
    let mut h = History::new(2, snap(0));
    h.push(snap(1));
    assert_eq!(h.len(), 2);
    h.push(snap(2));
    assert_eq!(h.len(), 2);
    assert_eq!(h.get(0)[0].x, 1);
    assert_eq!(h.get(1)[0].x, 2);
    h.push(snap(3));
    assert_eq!(h.get(0)[0].x, 2);
    assert_eq!(h.get(1)[0].x, 3);
}

#[test]
fn history_with_unit_capacity_holds_the_newest() {
    let mut h = History::new(1, snap(7));
    assert_eq!(h.len(), 1);
    h.push(snap(8));
    assert_eq!(h.len(), 1);
    assert_eq!(h.get(0)[0].x, 8);
    assert_eq!(h.get(0)[1].y, 10);
}
