use endless_runner::player::Player;
use endless_runner::simulation::RunnerSimulation;
use endless_runner::world::{
    Rect, GRAVITY, GROUND_Y, JUMP_VELOCITY, PLAYER_HEIGHT, PLAYER_WIDTH, PLAYER_X, UNIT,
};

fn world(steps: i64) -> f64 {
    steps as f64 / UNIT as f64
}

#[test]
fn constants_in_world_units() {
    assert_eq!(world(GROUND_Y), 300.0);
    assert_eq!(world(GRAVITY), 0.5);
    assert_eq!(world(JUMP_VELOCITY), -10.0);
    assert_eq!(world(PLAYER_X), 50.0);
    assert_eq!(world(PLAYER_WIDTH), 50.0);
    assert_eq!(world(PLAYER_HEIGHT), 50.0);
}

#[test]
fn new_simulation_is_at_rest() {
    let sim = RunnerSimulation::new();
    let player = sim.player();
    assert_eq!(
        player.rect(),
        Rect { x: 50 * UNIT, y: 300 * UNIT, w: 50 * UNIT, h: 50 * UNIT }
    );
    assert_eq!(player.velocity(), 0);
    assert!(!player.is_jumping());
    assert!(sim.obstacles().is_empty());
    assert_eq!(sim.score(), 0);
    assert_eq!(player, Player::new());
}

#[test]
fn jump_launches_from_the_ground() {
    let mut sim = RunnerSimulation::new();
    sim.jump();
    let player = sim.player();
    assert!(player.is_jumping());
    assert_eq!(world(player.velocity()), -10.0);
    assert_eq!(world(player.rect().y), 300.0);
    assert_eq!(sim.score(), 0);
}

#[test]
fn jump_then_five_ticks_stays_airborne() {
    let mut sim = RunnerSimulation::new();
    sim.jump();
    let trace = [(-9.5, 290.5), (-9.0, 281.5), (-8.5, 273.0), (-8.0, 265.0), (-7.5, 257.5)];
    for (velocity, y) in trace {
        sim.tick_with(40 * UNIT);
        let player = sim.player();
        assert!(player.is_jumping());
        assert_eq!(world(player.velocity()), velocity);
        assert_eq!(world(player.rect().y), y);
        assert_eq!(world(player.rect().x), 50.0);
    }
    assert_eq!(sim.score(), 5);
}

#[test]
fn second_jump_changes_nothing() {
    let mut once = RunnerSimulation::new();
    once.jump();
    let mut twice = RunnerSimulation::new();
    twice.jump();
    twice.jump();
    assert_eq!(once.player(), twice.player());
    assert_eq!(once.obstacles(), twice.obstacles());
    assert_eq!(once.score(), twice.score());
}

#[test]
fn jump_in_the_air_is_dropped() {
    let mut sim = RunnerSimulation::new();
    sim.jump();
    sim.tick_with(40 * UNIT);
    sim.tick_with(40 * UNIT);
    let before = sim.player();
    sim.jump();
    assert_eq!(sim.player(), before);
    assert_eq!(world(sim.player().velocity()), -9.0);
}

#[test]
fn tick_on_the_ground_leaves_the_player() {
    let mut sim = RunnerSimulation::new();
    for _ in 0..10 {
        sim.tick_with(40 * UNIT);
        assert_eq!(sim.player(), Player::new());
    }
}

#[test]
fn jump_reaches_its_apex_and_lands() {
    let mut sim = RunnerSimulation::new();
    sim.jump();
    let mut lowest_y = sim.player().rect().y;
    for tick in 1..=38 {
        sim.tick_with(40 * UNIT);
        let player = sim.player();
        assert!(player.is_jumping(), "airborne after tick {}", tick);
        assert!(player.rect().y < GROUND_Y);
        if player.rect().y < lowest_y {
            lowest_y = player.rect().y;
        }
    }
    assert_eq!(world(lowest_y), 205.0);
    assert_eq!(world(sim.player().velocity()), 9.0);
    assert_eq!(world(sim.player().rect().y), 290.5);
    sim.tick_with(40 * UNIT);
    let player = sim.player();
    assert!(!player.is_jumping());
    assert_eq!(world(player.rect().y), 300.0);
    assert_eq!(player.velocity(), 0);
    assert_eq!(player, Player::new());
}

#[test]
fn grounded_player_is_at_ground_level_and_at_rest() {
    let mut sim = RunnerSimulation::new();
    for tick in 0..500 {
        if tick % 7 == 0 {
            sim.jump();
        }
        sim.tick_with(30 * UNIT);
        let player = sim.player();
        if !player.is_jumping() {
            assert_eq!(player.rect().y, GROUND_Y);
            assert_eq!(player.velocity(), 0);
        } else {
            assert!(player.rect().y < GROUND_Y);
        }
    }
}

#[test]
fn player_step_and_jump_alone() {
    let mut player = Player::new();
    player.step();
    assert_eq!(player, Player::new());
    player.jump();
    player.step();
    assert!(player.is_jumping());
    assert_eq!(player.velocity(), JUMP_VELOCITY + GRAVITY);
    assert_eq!(player.rect().y, GROUND_Y + JUMP_VELOCITY + GRAVITY);
}

#[test]
fn player_rectangle_follows_the_player() {
    let mut sim = RunnerSimulation::new();
    assert_eq!(
        sim.player_rect(),
        Rect { x: 50 * UNIT, y: 300 * UNIT, w: 50 * UNIT, h: 50 * UNIT }
    );
    sim.jump();
    sim.tick_with(40 * UNIT);
    assert_eq!(
        sim.player_rect(),
        Rect { x: 50 * UNIT, y: 290 * UNIT + 512, w: 50 * UNIT, h: 50 * UNIT }
    );
    assert_eq!(sim.player_rect(), sim.player().rect());
}
