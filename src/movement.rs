use vstd::prelude::*;
use crate::components::{all_wf, in_range, Entity, Velocity, WinSize};
use crate::geometry::Point;

verus! {

pub open spec fn clamp(v: int, lo: int, hi: int) -> int {
    if v < lo {
        lo
    } else if v > hi {
        hi
    } else {
        v
    }
}

/// The entity after one frame of movement: its velocity added to its position,
/// each coordinate then clamped to the playfield.
pub open spec fn moved(size: WinSize, e: Entity) -> Entity {
    Entity {
        translation: Point {
            x: clamp(e.translation.x + e.velocity.x, -(size.w / 2), size.w / 2) as i64,
            y: clamp(e.translation.y + e.velocity.y, -(size.h / 2), size.h / 2) as i64,
        },
        ..e
    }
}

fn run_movement_tick(translation: &mut Point, velocity: &Velocity)
    requires
        in_range(old(translation).x as int),
        in_range(old(translation).y as int),
        in_range(velocity.x as int),
        in_range(velocity.y as int),
    ensures
        final(translation).x == old(translation).x + velocity.x,
        final(translation).y == old(translation).y + velocity.y,
{
    translation.y = translation.y + velocity.y;
    translation.x = translation.x + velocity.x;
}

fn clamp_to(v: i64, lo: i64, hi: i64) -> (r: i64)
    ensures
        r == clamp(v as int, lo as int, hi as int),
{
    if v < lo {
        lo
    } else if v > hi {
        hi
    } else {
        v
    }
}

/// Moves one entity by its velocity and keeps it on the playfield.
pub fn move_object(size: &WinSize, e: &mut Entity)
    requires
        size.wf(),
        old(e).wf(),
    ensures
        *final(e) == moved(*size, *old(e)),
        final(e).wf(),
{
    run_movement_tick(&mut e.translation, &e.velocity);
    let half_w: i64 = size.w / 2;
    let half_h: i64 = size.h / 2;
    e.translation.x = clamp_to(e.translation.x, -half_w, half_w);
    e.translation.y = clamp_to(e.translation.y, -half_h, half_h);
}

/// Moves every entity by its velocity, keeping each on the playfield.
pub fn move_all_velocity_objects(size: &WinSize, entities: &mut Vec<Entity>)
    requires
        size.wf(),
        all_wf(old(entities)@),
    ensures
        final(entities)@.len() == old(entities)@.len(),
        forall|i: int|
            0 <= i < old(entities)@.len() ==> #[trigger] final(entities)@[i] == moved(
                *size,
                old(entities)@[i],
            ),
        all_wf(final(entities)@),
{
    let ghost start = entities@;
    let mut i: usize = 0;
    while i < entities.len()
        invariant
            size.wf(),
            all_wf(start),
            entities@.len() == start.len(),
            i <= start.len(),
            forall|j: int| 0 <= j < i ==> #[trigger] entities@[j] == moved(*size, start[j]),
            forall|j: int| i <= j < start.len() ==> #[trigger] entities@[j] == start[j],
            all_wf(entities@),
        decreases start.len() - i,
    {
        let mut e = entities[i];
        move_object(size, &mut e);
        entities.set(i, e);
        i += 1;
    }
}

} // verus!
