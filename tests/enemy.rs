use enemy_sim::enemy::Enemy;

#[test]
fn first_enemy_first_tick_moves_without_bounce() {
    let mut e = Enemy::new(10, 10, 1, 1);
    e.update(100, 50);
    assert_eq!((e.x, e.y), (11, 11));
    assert_eq!((e.vx, e.vy), (1, 1));
}

#[test]
fn new_keeps_fields() {
    let e = Enemy::new(-3, 7, 2, -5);
    assert_eq!((e.x, e.y, e.vx, e.vy), (-3, 7, 2, -5));
}

#[test]
fn reaching_right_edge_reverses_then_moves_back() {
    let mut e = Enemy::new(99, 10, 1, 1);
    e.update(100, 50);
    assert_eq!(e.x, 100);
    assert_eq!(e.vx, -1);
    e.update(100, 50);
    assert_eq!(e.x, 99);
    // 99 lies strictly inside (0, 100), so the velocity is kept.
    assert_eq!(e.vx, -1);
}

#[test]
fn corner_bounce_reverses_both_axes() {
    let mut e = Enemy::new(1, 1, -1, -1);
    e.update(100, 50);
    assert_eq!((e.x, e.y), (0, 0));
    assert_eq!((e.vx, e.vy), (1, 1));
}

#[test]
fn axes_bounce_independently() {
    let mut e = Enemy::new(50, 49, 1, 1);
    e.update(100, 50);
    assert_eq!((e.x, e.y), (51, 50));
    assert_eq!((e.vx, e.vy), (1, -1));
}

#[test]
fn position_may_pass_the_edge_before_the_bounce() {
    let mut e = Enemy::new(0, 25, -1, 1);
    e.update(100, 50);
    assert_eq!((e.x, e.y), (-1, 26));
    assert_eq!(e.vx, 1);
}

#[test]
fn idle_entity_on_edge_flips_each_tick() {
    let mut e = Enemy::new(100, 0, 0, 3);
    e.update(100, 50);
    assert_eq!((e.x, e.y), (100, 3));
    assert_eq!((e.vx, e.vy), (0, 3));
    let mut f = Enemy::new(100, 25, 5, 0);
    f.update(100, 50);
    assert_eq!(f.x, 105);
    assert_eq!(f.vx, -5);
    f.update(100, 50);
    assert_eq!(f.x, 100);
    assert_eq!(f.vx, 5);
}
