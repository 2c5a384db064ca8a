use vstd::prelude::*;
use crate::components::{all_wf, Entity, Kind, Side, Velocity, PADDLE_SPEED};

verus! {

/// The keys that steer the paddles: W and S for the left one, O and L for the right one.
#[derive(Clone, Copy, Debug, PartialEq, Eq, Structural)]
pub enum Key {
    W,
    S,
    O,
    L,
}

/// Which of the steering keys are held down this frame.
#[derive(Clone, Copy, Debug, PartialEq, Eq, Structural)]
pub struct Keys {
    pub w: bool,
    pub s: bool,
    pub o: bool,
    pub l: bool,
}

impl Keys {
    pub open spec fn is_pressed(self, key: Key) -> bool {
        match key {
            Key::W => self.w,
            Key::S => self.s,
            Key::O => self.o,
            Key::L => self.l,
        }
    }

    pub fn pressed(&self, key: Key) -> (r: bool)
        ensures
            r == self.is_pressed(key),
    {
        match key {
            Key::W => self.w,
            Key::S => self.s,
            Key::O => self.o,
            Key::L => self.l,
        }
    }
}

/// The up key and the down key of the paddle that defends `side`.
pub open spec fn keys_of(side: Side) -> (Key, Key) {
    if side.left {
        (Key::W, Key::S)
    } else {
        (Key::O, Key::L)
    }
}

pub fn control_keys(side: Side) -> (r: (Key, Key))
    ensures
        r == keys_of(side),
{
    if side.left {
        (Key::W, Key::S)
    } else {
        (Key::O, Key::L)
    }
}

/// `PADDLE_SPEED` upward for the up key alone, downward for the down key alone,
/// and zero for both keys or neither.
pub open spec fn paddle_speed_of(up: bool, down: bool) -> int {
    PADDLE_SPEED * ((if up { 1int } else { 0 }) - (if down { 1int } else { 0 }))
}

pub fn paddle_speed(up: bool, down: bool) -> (r: i64)
    ensures
        r == paddle_speed_of(up, down),
{
    let delta: i64 = (up as i64) - (down as i64);
    PADDLE_SPEED * delta
}

/// The entity after its keys are read: a paddle's vertical speed follows its keys,
/// and everything else stays as it was.
pub open spec fn steered(keys: Keys, e: Entity) -> Entity {
    match e.kind {
        Kind::Player(side) => Entity {
            velocity: Velocity {
                y: paddle_speed_of(
                    keys.is_pressed(keys_of(side).0),
                    keys.is_pressed(keys_of(side).1),
                ) as i64,
                ..e.velocity
            },
            ..e
        },
        Kind::PongBall => e,
    }
}

/// Sets the vertical speed of every paddle from the keys of its side.
pub fn move_all_players(keys: &Keys, entities: &mut Vec<Entity>)
    requires
        all_wf(old(entities)@),
    ensures
        final(entities)@.len() == old(entities)@.len(),
        forall|i: int|
            0 <= i < old(entities)@.len() ==> #[trigger] final(entities)@[i] == steered(
                *keys,
                old(entities)@[i],
            ),
        all_wf(final(entities)@),
{
    let ghost start = entities@;
    let mut i: usize = 0;
    while i < entities.len()
        invariant
            all_wf(start),
            entities@.len() == start.len(),
            i <= start.len(),
            forall|j: int| 0 <= j < i ==> #[trigger] entities@[j] == steered(*keys, start[j]),
            forall|j: int| i <= j < start.len() ==> #[trigger] entities@[j] == start[j],
            all_wf(entities@),
        decreases start.len() - i,
    {
        let mut e = entities[i];
        match e.kind {
            Kind::Player(side) => {
                let (up_key, down_key) = control_keys(side);
                e.velocity.y = paddle_speed(keys.pressed(up_key), keys.pressed(down_key));
                entities.set(i, e);
            },
            Kind::PongBall => {},
        }
        i += 1;
    }
}

/// A paddle moves up at `PADDLE_SPEED` while only its up key is held, down while only
/// its down key is held, and stands still while both or neither are held; its
/// horizontal speed is left alone. The two sides are steered by disjoint key pairs,
/// so neither paddle reads the other's keys.
pub proof fn lemma_paddle_keys(keys: Keys, e: Entity)
    requires
        e.kind is Player,
    ensures
        ({
            let side = e.kind->Player_0;
            let up = keys.is_pressed(keys_of(side).0);
            let down = keys.is_pressed(keys_of(side).1);
            let after = steered(keys, e);
            &&& after.velocity.y == if up && !down {
                PADDLE_SPEED as int
            } else if down && !up {
                -PADDLE_SPEED
            } else {
                0
            }
            &&& after.velocity.x == e.velocity.x
            &&& after.translation == e.translation
        }),
        ({
            let l = keys_of(Side { left: true });
            let r = keys_of(Side { left: false });
            l.0 != r.0 && l.0 != r.1 && l.1 != r.0 && l.1 != r.1 && l.0 != l.1 && r.0 != r.1
        }),
{
}

} // verus!
