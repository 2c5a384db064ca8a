use pong::collision::{collision_ball, find_ball, resolve_ball, BallQueryError};
use pong::components::{spawn_ball, spawn_paddles, Entity, Hitbox, Kind, Side, Velocity, WinSize};
use pong::frame::step_frame;
use pong::geometry::{intersects, Point, Rect};
use pong::input::{control_keys, move_all_players, paddle_speed, Key, Keys};
use pong::movement::{move_all_velocity_objects, move_object};
use pong::vector::direction_at_speed;

/// Millionths of a world unit per world unit.
const U: i64 = 1000000;

fn field() -> WinSize {
    WinSize { w: 700 * U, h: 700 * U }
}

fn square(half: i64) -> Rect {
    Rect { left: -half, right: half, top: half, bottom: -half }
}

fn ball_at(x: i64, y: i64, vx: i64, vy: i64) -> Entity {
    Entity {
        translation: Point { x, y },
        velocity: Velocity { x: vx, y: vy, bound: false },
        hitbox: Hitbox { area: square(7500000) },
        kind: Kind::PongBall,
    }
}

fn paddle_at(x: i64, y: i64, left: bool) -> Entity {
    Entity {
        translation: Point { x, y },
        velocity: Velocity { x: 0, y: 0, bound: true },
        hitbox: Hitbox { area: Rect { left: -15 * U, right: 15 * U, top: 75 * U, bottom: -75 * U } },
        kind: Kind::Player(Side { left }),
    }
}

fn no_keys() -> Keys {
    Keys { w: false, s: false, o: false, l: false }
}

fn speed(vx: i64, vy: i64) -> f64 {
    ((vx as f64) * (vx as f64) + (vy as f64) * (vy as f64)).sqrt() / (U as f64)
}

#[test]
fn intersects_is_symmetric() {
    let a = Point { x: 10, y: 20 };
    let b = Point { x: 20, y: 18 };
    let ra = square(8);
    let rb = Rect { left: -3, right: 4, top: 1, bottom: -9 };
    assert_eq!(intersects(a, ra, b, rb), intersects(b, rb, a, ra));
    assert!(intersects(a, ra, b, rb));
    let far = Point { x: 100, y: 18 };
    assert_eq!(intersects(a, ra, far, rb), intersects(far, rb, a, ra));
    assert!(!intersects(a, ra, far, rb));
}

#[test]
fn touching_edges_intersect() {
    let r = square(5);
    assert!(intersects(Point { x: 0, y: 0 }, r, Point { x: 10, y: 0 }, r));
    assert!(intersects(Point { x: 0, y: 0 }, r, Point { x: 0, y: -10 }, r));
    assert!(intersects(Point { x: 0, y: 0 }, r, Point { x: 10, y: 10 }, r));
    assert!(!intersects(Point { x: 0, y: 0 }, r, Point { x: 11, y: 0 }, r));
}

#[test]
fn direction_is_scaled_to_ball_speed() {
    assert_eq!(direction_at_speed(3, 4), (2310000, 3080000));
    assert_eq!(direction_at_speed(1, 1), (2722361, 2722361));
    assert_eq!(direction_at_speed(-5, 0), (-3850000, 0));
    assert_eq!(direction_at_speed(0, 0), (0, 0));
    assert_eq!(direction_at_speed(-350 * U, -100 * U), (-3701867, -1057676));
    let (vx, vy) = direction_at_speed(1, 1);
    assert!((speed(vx, vy) - 3.85).abs() < 1e-4);
}

#[test]
fn movement_adds_velocity_and_clamps() {
    let size = field();
    let mut e = ball_at(348 * U, -U, 5 * U, -2 * U);
    move_object(&size, &mut e);
    assert_eq!(e.translation, Point { x: 350 * U, y: -3 * U });
    assert_eq!(e.velocity, Velocity { x: 5 * U, y: -2 * U, bound: false });

    let mut all = vec![ball_at(0, 0, 5 * U, 0), paddle_at(-350 * U, 349500000, true)];
    all[1].velocity.y = U;
    move_all_velocity_objects(&size, &mut all);
    assert_eq!(all[0].translation, Point { x: 5 * U, y: 0 });
    assert_eq!(all[1].translation, Point { x: -350 * U, y: 350 * U });
}

#[test]
fn keys_steer_each_paddle() {
    assert_eq!(paddle_speed(true, false), 5 * U);
    assert_eq!(paddle_speed(false, true), -5 * U);
    assert_eq!(paddle_speed(true, true), 0);
    assert_eq!(paddle_speed(false, false), 0);
    assert_eq!(control_keys(Side { left: true }), (Key::W, Key::S));
    assert_eq!(control_keys(Side { left: false }), (Key::O, Key::L));

    let mut all = vec![paddle_at(-350 * U, 0, true), paddle_at(350 * U, 0, false), spawn_ball()];
    let keys = Keys { w: true, s: false, o: false, l: true };
    move_all_players(&keys, &mut all);
    assert_eq!(all[0].velocity, Velocity { x: 0, y: 5 * U, bound: true });
    assert_eq!(all[1].velocity, Velocity { x: 0, y: -5 * U, bound: true });
    assert_eq!(all[2].velocity, Velocity { x: 5 * U, y: 0, bound: false });

    let both = Keys { w: true, s: true, o: false, l: false };
    move_all_players(&both, &mut all);
    assert_eq!(all[0].velocity.y, 0);
    assert_eq!(all[1].velocity.y, 0);
}

#[test]
fn paddle_hit_sends_ball_away_at_ball_speed() {
    let size = field();
    let mut all = vec![ball_at(330 * U, 0, 5 * U, 0), paddle_at(350 * U, U, false)];
    collision_ball(&size, &mut all);
    assert_eq!(all[0].velocity, Velocity { x: -3845196, y: -192259, bound: false });
    assert_eq!(all[0].translation, Point { x: 330 * U, y: 0 });
    assert_eq!(all[1], paddle_at(350 * U, U, false));
    let (vx, vy) = (all[0].velocity.x, all[0].velocity.y);
    assert!((speed(vx, vy) - 3.85).abs() < 1e-4);
    assert!(vx * (330 * U - 350 * U) + vy * (0 - U) > 0);
}

#[test]
fn diagonal_paddle_hit_keeps_ball_speed() {
    let size = field();
    let mut all = vec![ball_at(340 * U, 10 * U, 5 * U, 0), paddle_at(350 * U, 0, false)];
    collision_ball(&size, &mut all);
    let (vx, vy) = (all[0].velocity.x, all[0].velocity.y);
    assert_eq!((vx, vy), (-2722361, 2722361));
    assert!((speed(vx, vy) - 3.85).abs() < 1e-4);
}

#[test]
fn top_wall_reflects_vertical_speed() {
    let size = field();
    let ball = ball_at(0, 350 * U, 3 * U, 2 * U);
    let all = vec![ball, paddle_at(-350 * U, 0, true), paddle_at(350 * U, 0, false)];
    assert_eq!(resolve_ball(&size, &ball, &all), (3 * U, -2 * U));
    let low = ball_at(100, -350 * U, -3 * U, -2 * U);
    assert_eq!(resolve_ball(&size, &low, &all), (-3 * U, 2 * U));
}

#[test]
fn side_wall_sends_ball_back_to_centre() {
    let size = field();
    let ball = ball_at(350 * U, 100 * U, 5 * U, 0);
    let all = vec![ball, paddle_at(-350 * U, 0, true), paddle_at(350 * U, 0, false)];
    let (vx, vy) = resolve_ball(&size, &ball, &all);
    assert_eq!((vx, vy), (-3701867, -1057676));
    assert!((speed(vx, vy) - 3.85).abs() < 1e-4);

    let high = ball_at(350 * U, 200 * U, 5 * U, 0);
    let (vx, vy) = resolve_ball(&size, &high, &all);
    assert_eq!((vx, vy), (-3342736, -1910134));
    assert!((speed(vx, vy) - 3.85).abs() < 1e-4);
}

#[test]
fn find_ball_needs_exactly_one_ball() {
    let none = vec![paddle_at(-350 * U, 0, true)];
    assert_eq!(find_ball(&none), Err(BallQueryError::NoBall));
    let two = vec![ball_at(0, 0, 1, 1), paddle_at(-350 * U, 0, true), ball_at(5, 5, 1, 1)];
    assert_eq!(find_ball(&two), Err(BallQueryError::MultipleBalls));
    let one = vec![paddle_at(-350 * U, 0, true), ball_at(0, 0, 1, 1)];
    assert_eq!(find_ball(&one), Ok(1));
}

#[test]
fn spawned_entities_start_in_place() {
    let ball = spawn_ball();
    assert_eq!(ball, ball_at(0, 0, 5 * U, 0));
    let paddles = spawn_paddles(&field());
    assert_eq!(paddles.len(), 2);
    assert_eq!(paddles[0].translation, Point { x: -350 * U, y: 0 });
    assert_eq!(paddles[0].kind, Kind::Player(Side { left: true }));
    assert_eq!(paddles[1].translation, Point { x: 350 * U, y: 0 });
    assert_eq!(paddles[1].kind, Kind::Player(Side { left: false }));
    assert_eq!(paddles[1].velocity, Velocity { x: 0, y: U, bound: true });
    assert_eq!(paddles[1].hitbox.area, Rect { left: -15 * U, right: 15 * U, top: 75 * U, bottom: -75 * U });
}

#[test]
fn ball_reaches_paddle_and_bounces() {
    let size = field();
    let paddle = spawn_paddles(&size)[1];
    assert_eq!(paddle.translation, Point { x: 350 * U, y: 0 });
    let mut all = vec![spawn_ball(), paddle];
    let mut frames = 0;
    while all[0].velocity.x > 0 {
        step_frame(&size, &no_keys(), &mut all);
        frames += 1;
        assert!(frames < 100);
    }
    assert_eq!(frames, 66);
    assert_eq!(all[0].translation, Point { x: 330 * U, y: 0 });
    assert_eq!(all[1].translation, Point { x: 350 * U, y: U });
    assert_eq!(all[0].velocity, Velocity { x: -3845196, y: -192259, bound: false });
    assert_eq!((all[0].velocity.x, all[0].velocity.y), direction_at_speed(330 * U - 350 * U, 0 - U));
}

#[test]
fn frame_moves_steers_and_collides() {
    let size = field();
    let mut all = vec![paddle_at(-350 * U, 0, true), ball_at(0, 349 * U, 1 * U, 2 * U)];
    all[0].velocity.y = 2 * U;
    let keys = Keys { w: false, s: true, o: true, l: false };
    step_frame(&size, &keys, &mut all);
    assert_eq!(all[0].translation, Point { x: -350 * U, y: 2 * U });
    assert_eq!(all[0].velocity, Velocity { x: 0, y: -5 * U, bound: true });
    assert_eq!(all[1].translation, Point { x: U, y: 350 * U });
    assert_eq!(all[1].velocity, Velocity { x: U, y: -2 * U, bound: false });
}

#[test]
fn velocity_set_keeps_bound_mark() {
    let mut v = Velocity { x: 1, y: 2, bound: true };
    v.set(-7, 9);
    assert_eq!(v, Velocity { x: -7, y: 9, bound: true });
}
