use enemy_sim::enemy::Enemy;
use enemy_sim::render::int_to_text;
use enemy_sim::simulation::{position_text, simulate, tick_text, World};

#[test]
fn decimal_text_of_integers() {
    assert_eq!(int_to_text(0), "0");
    assert_eq!(int_to_text(7), "7");
    assert_eq!(int_to_text(10), "10");
    assert_eq!(int_to_text(1234), "1234");
    assert_eq!(int_to_text(-1), "-1");
    assert_eq!(int_to_text(-450), "-450");
    assert_eq!(int_to_text(i32::MAX), "2147483647");
    assert_eq!(int_to_text(i32::MIN), "-2147483648");
}

#[test]
fn tick_and_position_lines() {
    assert_eq!(tick_text(0), "Tick 0");
    assert_eq!(tick_text(29), "Tick 29");
    assert_eq!(position_text(&Enemy::new(11, -4, 1, 1)), "Enemy at (11, -4)");
}

#[test]
fn initial_world_is_fixed() {
    let w = World::initial();
    assert_eq!((w.width, w.height), (100, 50));
    assert_eq!(
        w.enemies,
        vec![Enemy::new(10, 10, 1, 1), Enemy::new(40, 20, -1, 1), Enemy::new(70, 35, 1, -1)]
    );
}

#[test]
fn one_tick_reports_every_enemy() {
    let mut w = World::initial();
    let mut out: Vec<String> = Vec::new();
    w.tick(0, &mut out);
    assert_eq!(
        out,
        vec!["Tick 0", "Enemy at (11, 11)", "Enemy at (39, 21)", "Enemy at (71, 34)", "---"]
    );
}

#[test]
fn run_without_ticks_prints_banner_and_end() {
    let mut w = World::initial();
    let lines = w.run(0);
    assert_eq!(lines, vec!["Starting enemy simulation...", "", "Simulation ended."]);
}

#[test]
fn every_tick_moves_by_previous_velocity_and_bounces_on_edges() {
    let mut w = World::initial();
    let mut out: Vec<String> = Vec::new();
    for t in 0..30u32 {
        let before = w.enemies.clone();
        w.tick(t, &mut out);
        for (b, a) in before.iter().zip(w.enemies.iter()) {
            assert_eq!(a.x, b.x + b.vx);
            assert_eq!(a.y, b.y + b.vy);
            let x_edge = a.x <= 0 || a.x >= 100;
            let y_edge = a.y <= 0 || a.y >= 50;
            assert_eq!(a.vx == -b.vx, x_edge);
            assert_eq!(a.vy == -b.vy, y_edge);
        }
    }
}

#[test]
fn simulation_trace_layout() {
    let lines = simulate();
    assert_eq!(lines.len(), 153);
    assert_eq!(lines[0], "Starting enemy simulation...");
    assert_eq!(lines[1], "");
    for t in 0..30usize {
        let base = 2 + 5 * t;
        assert_eq!(lines[base], format!("Tick {}", t));
        for j in 1..4 {
            assert!(lines[base + j].starts_with("Enemy at ("));
        }
        assert_eq!(lines[base + 4], "---");
    }
    assert_eq!(lines.iter().filter(|l| l.starts_with("Tick ")).count(), 30);
    assert_eq!(lines[152], "Simulation ended.");
}

#[test]
fn simulation_first_and_last_ticks() {
    let lines = simulate();
    assert_eq!(lines[2..7], ["Tick 0", "Enemy at (11, 11)", "Enemy at (39, 21)", "Enemy at (71, 34)", "---"]);
    assert_eq!(
        lines[147..153],
        ["Tick 29", "Enemy at (40, 40)", "Enemy at (10, 50)", "Enemy at (100, 5)", "---", "Simulation ended."]
    );
}

#[test]
fn simulation_is_deterministic() {
    assert_eq!(simulate(), simulate());
}
