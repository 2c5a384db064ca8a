use vstd::prelude::*;
use crate::components::{all_wf, in_range, Entity, Velocity, WinSize, MAX_COORD};
use crate::geometry::{boxes_overlap, intersects, Point, Rect};
use crate::vector::{
    direction_at_speed, lemma_direction_speed, scaled_direction, BALL_SPEED, SPEED_TOLERANCE,
};

verus! {

/// The number of frames the ball is pushed along its new course after hitting a paddle.
pub const NUDGE_STEPS: u32 = 3;

/// Why the ball cannot be found: the collision step needs exactly one ball.
#[derive(Clone, Copy, Debug, PartialEq, Eq, Structural)]
pub enum BallQueryError {
    NoBall,
    MultipleBalls,
}

pub open spec fn abs_int(v: int) -> int {
    if v < 0 {
        -v
    } else {
        v
    }
}

pub open spec fn ball_count(s: Seq<Entity>) -> nat
    decreases s.len(),
{
    if s.len() == 0 {
        0
    } else {
        ball_count(s.drop_last()) + if s.last().is_ball() {
            1nat
        } else {
            0nat
        }
    }
}

/// The outcome of looking for the one ball among the entities.
pub open spec fn ball_query(s: Seq<Entity>) -> Result<(), BallQueryError> {
    if ball_count(s) == 0 {
        Err(BallQueryError::NoBall)
    } else if ball_count(s) > 1 {
        Err(BallQueryError::MultipleBalls)
    } else {
        Ok(())
    }
}

/// The position `p` advanced by `v` up to `steps` times, stopping at the first
/// step after which the box `hb` there no longer overlaps `other`.
pub open spec fn nudge(p: (int, int), v: (int, int), hb: Rect, other: Entity, steps: nat) -> (
    int,
    int,
)
    decreases steps,
{
    if steps == 0 {
        p
    } else {
        let q = (p.0 + v.0, p.1 + v.1);
        if !boxes_overlap(
            q.0,
            q.1,
            hb,
            other.translation.x as int,
            other.translation.y as int,
            other.hitbox.area,
        ) {
            q
        } else {
            nudge(q, v, hb, other, (steps - 1) as nat)
        }
    }
}

/// The ball's working position and velocity after meeting each paddle of `s` in
/// turn: a paddle that it overlaps sends it off at `BALL_SPEED` along the line from
/// the paddle's centre to the ball's, and the working position is nudged along it.
pub open spec fn bounce_off(p: (int, int), v: (int, int), hb: Rect, s: Seq<Entity>) -> (
    (int, int),
    (int, int),
)
    decreases s.len(),
{
    if s.len() == 0 {
        (p, v)
    } else {
        let prev = bounce_off(p, v, hb, s.drop_last());
        let e = s.last();
        let q = prev.0;
        if e.is_player() && boxes_overlap(
            q.0,
            q.1,
            hb,
            e.translation.x as int,
            e.translation.y as int,
            e.hitbox.area,
        ) {
            let nv = scaled_direction(q.0 - e.translation.x, q.1 - e.translation.y);
            (nudge(q, nv, hb, e, NUDGE_STEPS as nat), nv)
        } else {
            prev
        }
    }
}

/// The velocity after the walls are looked at, for the working position `p`: on the
/// top or bottom edge the vertical speed turns round; on the left or right edge the
/// ball is sent back toward the centre at `BALL_SPEED`.
pub open spec fn wall_velocity(size: WinSize, p: (int, int), v: (int, int)) -> (int, int) {
    let v1 = if abs_int(p.1) == size.h / 2 {
        (v.0, -v.1)
    } else {
        v
    };
    if abs_int(p.0) == size.w / 2 {
        scaled_direction(-p.0, -p.1)
    } else {
        v1
    }
}

/// The velocity the ball leaves the collision step with, among the entities `s`.
pub open spec fn ball_velocity_after(size: WinSize, ball: Entity, s: Seq<Entity>) -> (int, int) {
    let r = bounce_off(
        (ball.translation.x as int, ball.translation.y as int),
        (ball.velocity.x as int, ball.velocity.y as int),
        ball.hitbox.area,
        s,
    );
    wall_velocity(size, r.0, r.1)
}

pub open spec fn with_velocity(e: Entity, v: (int, int)) -> Entity {
    Entity { velocity: Velocity { x: v.0 as i64, y: v.1 as i64, ..e.velocity }, ..e }
}

/// The entities after the collision step: the ball takes its new velocity, and
/// nothing else changes.
pub open spec fn after_collision(size: WinSize, s: Seq<Entity>) -> Seq<Entity> {
    s.map_values(
        |e: Entity|
            if e.is_ball() {
                with_velocity(e, ball_velocity_after(size, e, s))
            } else {
                e
            },
    )
}

proof fn lemma_take_last<T>(s: Seq<T>, i: int)
    requires
        0 <= i < s.len(),
    ensures
        s.take(i + 1).drop_last() == s.take(i),
        s.take(i + 1).last() == s[i],
{
    assert(s.take(i + 1).drop_last() =~= s.take(i));
}

/// The index of the one ball, or why there is not exactly one.
pub fn find_ball(entities: &Vec<Entity>) -> (r: Result<usize, BallQueryError>)
    ensures
        match r {
            Ok(i) => ball_query(entities@) == Ok::<(), BallQueryError>(()) && i
                < entities@.len() && entities@[i as int].is_ball(),
            Err(e) => ball_query(entities@) == Err::<(), BallQueryError>(e),
        },
{
    let mut found: usize = 0;
    let mut count: usize = 0;
    let mut i: usize = 0;
    while i < entities.len()
        invariant
            i <= entities@.len(),
            count <= i,
            count == ball_count(entities@.take(i as int)),
            count > 0 ==> found < entities@.len() && entities@[found as int].is_ball(),
        decreases entities@.len() - i,
    {
        proof {
            lemma_take_last(entities@, i as int);
        }
        if entities[i].ball() {
            if count == 0 {
                found = i;
            }
            count += 1;
        }
        i += 1;
    }
    assert(entities@.take(i as int) =~= entities@);
    if count == 0 {
        Err(BallQueryError::NoBall)
    } else if count > 1 {
        Err(BallQueryError::MultipleBalls)
    } else {
        Ok(found)
    }
}

/// The ball's velocity after it is checked against every paddle and the walls.
pub fn resolve_ball(size: &WinSize, ball: &Entity, entities: &Vec<Entity>) -> (r: (i64, i64))
    requires
        size.wf(),
        ball.wf(),
        all_wf(entities@),
    ensures
        (r.0 as int, r.1 as int) == ball_velocity_after(*size, *ball, entities@),
        in_range(r.0 as int),
        in_range(r.1 as int),
{
    let hb = ball.hitbox.area;
    let mut px: i64 = ball.translation.x;
    let mut py: i64 = ball.translation.y;
    let mut vx: i64 = ball.velocity.x;
    let mut vy: i64 = ball.velocity.y;
    let ghost p0 = (px as int, py as int);
    let ghost v0 = (vx as int, vy as int);
    let mut i: usize = 0;
    while i < entities.len()
        invariant
            size.wf(),
            ball.wf(),
            all_wf(entities@),
            hb == ball.hitbox.area,
            i <= entities@.len(),
            ((px as int, py as int), (vx as int, vy as int)) == bounce_off(
                p0,
                v0,
                hb,
                entities@.take(i as int),
            ),
            -4 * MAX_COORD <= px <= 4 * MAX_COORD,
            -4 * MAX_COORD <= py <= 4 * MAX_COORD,
            in_range(vx as int),
            in_range(vy as int),
        decreases entities@.len() - i,
    {
        proof {
            lemma_take_last(entities@, i as int);
        }
        let e = entities[i];
        assert(e.wf());
        if !e.ball() && intersects(Point { x: px, y: py }, hb, e.translation, e.hitbox.area) {
            let (nx, ny) = direction_at_speed(px - e.translation.x, py - e.translation.y);
            vx = nx;
            vy = ny;
            let ghost q0 = (px as int, py as int);
            let ghost nv = (nx as int, ny as int);
            let mut k: u32 = 0;
            while k < NUDGE_STEPS
                invariant_except_break
                    nudge(q0, nv, hb, e, NUDGE_STEPS as nat) == nudge(
                        (px as int, py as int),
                        nv,
                        hb,
                        e,
                        (NUDGE_STEPS - k) as nat,
                    ),
                    -3 * MAX_COORD - k * BALL_SPEED <= px <= 3 * MAX_COORD + k * BALL_SPEED,
                    -3 * MAX_COORD - k * BALL_SPEED <= py <= 3 * MAX_COORD + k * BALL_SPEED,
                invariant
                    k <= NUDGE_STEPS,
                    e.wf(),
                    -BALL_SPEED <= nx <= BALL_SPEED,
                    -BALL_SPEED <= ny <= BALL_SPEED,
                    nv == (nx as int, ny as int),
                ensures
                    (px as int, py as int) == nudge(q0, nv, hb, e, NUDGE_STEPS as nat),
                    -4 * MAX_COORD <= px <= 4 * MAX_COORD,
                    -4 * MAX_COORD <= py <= 4 * MAX_COORD,
                decreases NUDGE_STEPS - k,
            {
                py = py + ny;
                px = px + nx;
                if !intersects(Point { x: px, y: py }, hb, e.translation, e.hitbox.area) {
                    break;
                }
                k += 1;
            }
        }
        i += 1;
    }
    assert(entities@.take(i as int) =~= entities@);
    let half_w: i64 = size.w / 2;
    let half_h: i64 = size.h / 2;
    let ay: i64 = if py < 0 {
        -py
    } else {
        py
    };
    if ay == half_h {
        vy = -vy;
    }
    let ax: i64 = if px < 0 {
        -px
    } else {
        px
    };
    if ax == half_w {
        let (nx, ny) = direction_at_speed(-px, -py);
        vx = nx;
        vy = ny;
    }
    (vx, vy)
}

/// Runs the collision step: finds the one ball, then gives it the velocity that the
/// paddles and the walls send it off with. There must be exactly one ball; a caller
/// that cannot be sure of that asks `find_ball` first.
pub fn collision_ball(size: &WinSize, entities: &mut Vec<Entity>)
    requires
        size.wf(),
        all_wf(old(entities)@),
        ball_count(old(entities)@) == 1,
    ensures
        final(entities)@ == after_collision(*size, old(entities)@),
        all_wf(final(entities)@),
{
    let ghost start = entities@;
    let bi: usize = match find_ball(entities) {
        Ok(i) => i,
        Err(_) => 0,
    };
    let mut ball = entities[bi];
    let (vx, vy) = resolve_ball(size, &ball, entities);
    ball.velocity.set(vx, vy);
    entities.set(bi, ball);
    proof {
        assert forall|j: int| 0 <= j < start.len() implies #[trigger] entities@[j]
            == after_collision(*size, start)[j] by {
            if j != bi && start[j].is_ball() {
                lemma_two_balls(start, j, bi as int);
            }
        }
        assert(entities@ =~= after_collision(*size, start));
    }
}

proof fn lemma_two_balls(s: Seq<Entity>, a: int, b: int)
    requires
        0 <= a < s.len(),
        0 <= b < s.len(),
        a != b,
        s[a].is_ball(),
        s[b].is_ball(),
    ensures
        ball_count(s) >= 2,
    decreases s.len(),
{
    let n = s.len() - 1;
    if a == n || b == n {
        let other = if a == n { b } else { a };
        lemma_one_ball(s.drop_last(), other);
    } else {
        lemma_two_balls(s.drop_last(), a, b);
    }
}

proof fn lemma_one_ball(s: Seq<Entity>, a: int)
    requires
        0 <= a < s.len(),
        s[a].is_ball(),
    ensures
        ball_count(s) >= 1,
    decreases s.len(),
{
    if a < s.len() - 1 {
        lemma_one_ball(s.drop_last(), a);
    }
}

/// No paddle of `s` overlaps the box `hb` placed at `p`.
pub open spec fn clear_of_paddles(p: (int, int), hb: Rect, s: Seq<Entity>) -> bool {
    forall|i: int|
        0 <= i < s.len() ==> !((#[trigger] s[i]).is_player() && boxes_overlap(
            p.0,
            p.1,
            hb,
            s[i].translation.x as int,
            s[i].translation.y as int,
            s[i].hitbox.area,
        ))
}

proof fn lemma_clear_of_paddles(p: (int, int), v: (int, int), hb: Rect, s: Seq<Entity>)
    requires
        clear_of_paddles(p, hb, s),
    ensures
        bounce_off(p, v, hb, s) == (p, v),
    decreases s.len(),
{
    if s.len() > 0 {
        let t = s.drop_last();
        assert forall|i: int| 0 <= i < t.len() implies !((#[trigger] t[i]).is_player()
            && boxes_overlap(
            p.0,
            p.1,
            hb,
            t[i].translation.x as int,
            t[i].translation.y as int,
            t[i].hitbox.area,
        )) by {
            assert(t[i] == s[i]);
        }
        lemma_clear_of_paddles(p, v, hb, t);
        assert(s.last() == s[s.len() - 1]);
    }
}

proof fn lemma_bounce_rest(p: (int, int), v: (int, int), hb: Rect, s: Seq<Entity>, k: int, i: int)
    requires
        0 <= k < i <= s.len(),
        clear_of_paddles(bounce_off(p, v, hb, s.take(k + 1)).0, hb, s.skip(k + 1)),
    ensures
        bounce_off(p, v, hb, s.take(i)) == bounce_off(p, v, hb, s.take(k + 1)),
    decreases i,
{
    if i > k + 1 {
        lemma_bounce_rest(p, v, hb, s, k, i - 1);
        lemma_take_last(s, i - 1);
        assert(s.skip(k + 1)[i - 1 - (k + 1)] == s[i - 1]);
    }
}

/// A ball whose box overlaps the box of the paddle `s[k]`, away from that paddle's
/// centre, leaves along the line from the paddle's centre to the ball's centre: its
/// new velocity points away from the paddle and has speed `BALL_SPEED` up to
/// rounding, no less than `BALL_SPEED - SPEED_TOLERANCE`. This holds when no paddle
/// before `s[k]` overlaps the ball, no paddle after it overlaps the position the ball
/// is nudged to, and that position is on no edge of the playfield.
pub proof fn lemma_paddle_hit(size: WinSize, ball: Entity, s: Seq<Entity>, k: int)
    requires
        0 <= k < s.len(),
        s[k].is_player(),
        boxes_overlap(
            ball.translation.x as int,
            ball.translation.y as int,
            ball.hitbox.area,
            s[k].translation.x as int,
            s[k].translation.y as int,
            s[k].hitbox.area,
        ),
        ball.translation != s[k].translation,
        clear_of_paddles(
            (ball.translation.x as int, ball.translation.y as int),
            ball.hitbox.area,
            s.take(k),
        ),
        ({
            let b = (ball.translation.x as int, ball.translation.y as int);
            let nv = scaled_direction(b.0 - s[k].translation.x, b.1 - s[k].translation.y);
            let q = nudge(b, nv, ball.hitbox.area, s[k], NUDGE_STEPS as nat);
            &&& clear_of_paddles(q, ball.hitbox.area, s.skip(k + 1))
            &&& abs_int(q.0) != size.w / 2
            &&& abs_int(q.1) != size.h / 2
        }),
    ensures
        ({
            let v = ball_velocity_after(size, ball, s);
            let dx = ball.translation.x - s[k].translation.x;
            let dy = ball.translation.y - s[k].translation.y;
            &&& v == scaled_direction(dx, dy)
            &&& v.0 * v.0 + v.1 * v.1 <= BALL_SPEED * BALL_SPEED
            &&& v.0 * v.0 + v.1 * v.1 >= (BALL_SPEED - SPEED_TOLERANCE) * (BALL_SPEED
                - SPEED_TOLERANCE)
            &&& v.0 * dx + v.1 * dy > 0
        }),
{
    let b = (ball.translation.x as int, ball.translation.y as int);
    let v0 = (ball.velocity.x as int, ball.velocity.y as int);
    let hb = ball.hitbox.area;
    lemma_clear_of_paddles(b, v0, hb, s.take(k));
    lemma_take_last(s, k);
    let dx = ball.translation.x - s[k].translation.x;
    let dy = ball.translation.y - s[k].translation.y;
    assert(bounce_off(b, v0, hb, s.take(k + 1)).1 == scaled_direction(dx, dy));
    lemma_bounce_rest(b, v0, hb, s, k, s.len() as int);
    assert(s.take(s.len() as int) =~= s);
    lemma_direction_speed(dx, dy);
}

/// A ball on the top or bottom edge of the playfield, clear of the paddles and not
/// on a side edge, keeps its horizontal speed and turns its vertical speed round.
pub proof fn lemma_wall_reflection(size: WinSize, ball: Entity, s: Seq<Entity>)
    requires
        clear_of_paddles(
            (ball.translation.x as int, ball.translation.y as int),
            ball.hitbox.area,
            s,
        ),
        abs_int(ball.translation.y as int) == size.h / 2,
        abs_int(ball.translation.x as int) != size.w / 2,
    ensures
        ball_velocity_after(size, ball, s) == (ball.velocity.x as int, -ball.velocity.y),
{
    lemma_clear_of_paddles(
        (ball.translation.x as int, ball.translation.y as int),
        (ball.velocity.x as int, ball.velocity.y as int),
        ball.hitbox.area,
        s,
    );
}

/// A ball on the left or right edge of a playfield of some width, clear of the
/// paddles, is sent back toward the centre: its velocity points from its position
/// toward the origin and has speed `BALL_SPEED` up to rounding, no less than
/// `BALL_SPEED - SPEED_TOLERANCE`.
pub proof fn lemma_side_wall_reset(size: WinSize, ball: Entity, s: Seq<Entity>)
    requires
        clear_of_paddles(
            (ball.translation.x as int, ball.translation.y as int),
            ball.hitbox.area,
            s,
        ),
        size.wf(),
        size.w > 0,
        abs_int(ball.translation.x as int) == size.w / 2,
    ensures
        ({
            let v = ball_velocity_after(size, ball, s);
            let x = ball.translation.x as int;
            let y = ball.translation.y as int;
            &&& v == scaled_direction(-x, -y)
            &&& v.0 * v.0 + v.1 * v.1 <= BALL_SPEED * BALL_SPEED
            &&& v.0 * v.0 + v.1 * v.1 >= (BALL_SPEED - SPEED_TOLERANCE) * (BALL_SPEED
                - SPEED_TOLERANCE)
            &&& v.0 * (-x) + v.1 * (-y) > 0
        }),
{
    lemma_clear_of_paddles(
        (ball.translation.x as int, ball.translation.y as int),
        (ball.velocity.x as int, ball.velocity.y as int),
        ball.hitbox.area,
        s,
    );
    lemma_direction_speed(-ball.translation.x, -ball.translation.y);
}

} // verus!
