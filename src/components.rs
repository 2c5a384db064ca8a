use vstd::prelude::*;
use crate::geometry::{Point, Rect};

verus! {

/// The largest magnitude of any coordinate, offset, speed or playfield size the
/// simulation holds: about half a million world units.
pub const MAX_COORD: i64 = 549755813888;

/// The vertical speed of a paddle whose up or down key alone is held: 5 world units.
pub const PADDLE_SPEED: i64 = 5000000;

/// The side of the ball's square hitbox: 15 world units.
pub const BALL_SIZE: i64 = 15000000;

/// The width of a paddle: 30 world units.
pub const PADDLE_WIDTH: i64 = 30000000;

/// The height of a paddle: 150 world units.
pub const PADDLE_HEIGHT: i64 = 150000000;

pub open spec fn in_range(v: int) -> bool {
    -MAX_COORD <= v <= MAX_COORD
}

/// The playfield: `w` wide and `h` high, centred on the origin.
#[derive(Clone, Copy, Debug, PartialEq, Eq, Structural)]
pub struct WinSize {
    pub w: i64,
    pub h: i64,
}

impl WinSize {
    /// Both sizes are even, so that the playfield's edges lie on whole units.
    pub open spec fn wf(self) -> bool {
        &&& 0 <= self.w <= MAX_COORD
        &&& 0 <= self.h <= MAX_COORD
        &&& self.w % 2 == 0
        &&& self.h % 2 == 0
    }
}

/// How far an entity moves each frame; `bound` marks entities kept to a track.
#[derive(Clone, Copy, Debug, PartialEq, Eq, Structural)]
pub struct Velocity {
    pub x: i64,
    pub y: i64,
    pub bound: bool,
}

impl Velocity {
    /// Replaces both components, keeping the `bound` mark.
    pub fn set(&mut self, x: i64, y: i64)
        ensures
            *final(self) == (Velocity { x, y, bound: old(self).bound }),
    {
        self.x = x;
        self.y = y;
    }
}

#[derive(Clone, Copy, Debug, PartialEq, Eq, Structural)]
pub struct Hitbox {
    pub area: Rect,
}

/// Which edge of the playfield a paddle defends.
#[derive(Clone, Copy, Debug, PartialEq, Eq, Structural)]
pub struct Side {
    pub left: bool,
}

/// What an entity is: a player's paddle, defending a side, or the ball.
#[derive(Clone, Copy, Debug, PartialEq, Eq, Structural)]
pub enum Kind {
    Player(Side),
    PongBall,
}

/// A paddle or the ball, with the position of its centre.
#[derive(Clone, Copy, Debug, PartialEq, Eq, Structural)]
pub struct Entity {
    pub translation: Point,
    pub velocity: Velocity,
    pub hitbox: Hitbox,
    pub kind: Kind,
}

impl Entity {
    /// Every number the entity holds is within `MAX_COORD`.
    pub open spec fn wf(self) -> bool {
        &&& in_range(self.translation.x as int)
        &&& in_range(self.translation.y as int)
        &&& in_range(self.velocity.x as int)
        &&& in_range(self.velocity.y as int)
        &&& in_range(self.hitbox.area.left as int)
        &&& in_range(self.hitbox.area.right as int)
        &&& in_range(self.hitbox.area.top as int)
        &&& in_range(self.hitbox.area.bottom as int)
    }

    pub open spec fn is_ball(self) -> bool {
        self.kind is PongBall
    }

    pub open spec fn is_player(self) -> bool {
        self.kind is Player
    }

    pub fn ball(&self) -> (r: bool)
        ensures
            r == self.is_ball(),
    {
        match self.kind {
            Kind::PongBall => true,
            Kind::Player(_) => false,
        }
    }
}

/// Every entity of the sequence is well formed.
pub open spec fn all_wf(s: Seq<Entity>) -> bool {
    forall|i: int| 0 <= i < s.len() ==> (#[trigger] s[i]).wf()
}

/// The ball as it enters play: at the centre, moving right at 5 world units a frame.
pub fn spawn_ball() -> (r: Entity)
    ensures
        r == (Entity {
            translation: Point { x: 0, y: 0 },
            velocity: Velocity { x: 5000000, y: 0, bound: false },
            hitbox: Hitbox {
                area: Rect {
                    left: -(BALL_SIZE / 2) as i64,
                    right: (BALL_SIZE / 2) as i64,
                    top: (BALL_SIZE / 2) as i64,
                    bottom: -(BALL_SIZE / 2) as i64,
                },
            },
            kind: Kind::PongBall,
        }),
        r.wf(),
        r.hitbox.area.wf(),
{
    let half: i64 = BALL_SIZE / 2;
    Entity {
        translation: Point { x: 0, y: 0 },
        velocity: Velocity { x: 5000000, y: 0, bound: false },
        hitbox: Hitbox { area: Rect { left: -half, right: half, top: half, bottom: -half } },
        kind: Kind::PongBall,
    }
}

/// The paddle that defends the given side, at the middle of that edge of the playfield.
pub open spec fn paddle_at(size: WinSize, left: bool) -> Entity {
    Entity {
        translation: Point { x: if left { -(size.w / 2) } else { size.w / 2 } as i64, y: 0 },
        velocity: Velocity { x: 0, y: 1000000, bound: true },
        hitbox: Hitbox {
            area: Rect {
                left: -(PADDLE_WIDTH / 2) as i64,
                right: (PADDLE_WIDTH / 2) as i64,
                top: (PADDLE_HEIGHT / 2) as i64,
                bottom: -(PADDLE_HEIGHT / 2) as i64,
            },
        },
        kind: Kind::Player(Side { left }),
    }
}

/// The two paddles as they enter play: the left one first, then the right one.
pub fn spawn_paddles(size: &WinSize) -> (r: Vec<Entity>)
    requires
        size.wf(),
    ensures
        r@ == seq![paddle_at(*size, true), paddle_at(*size, false)],
        all_wf(r@),
{
    let half_width: i64 = PADDLE_WIDTH / 2;
    let half_height: i64 = PADDLE_HEIGHT / 2;
    let mut paddles: Vec<Entity> = Vec::new();
    let sides: [(i64, bool); 2] = [(-(size.w / 2), true), (size.w / 2, false)];
    let mut i: usize = 0;
    while i < 2
        invariant
            size.wf(),
            i <= 2,
            half_width == PADDLE_WIDTH / 2,
            half_height == PADDLE_HEIGHT / 2,
            sides@ == seq![((-(size.w / 2)) as i64, true), ((size.w / 2) as i64, false)],
            paddles@ == seq![paddle_at(*size, true), paddle_at(*size, false)].take(i as int),
        decreases 2 - i,
    {
        let (position, is_left) = sides[i];
        paddles.push(
            Entity {
                translation: Point { x: position, y: 0 },
                velocity: Velocity { x: 0, y: 1000000, bound: true },
                hitbox: Hitbox {
                    area: Rect {
                        left: -half_width,
                        right: half_width,
                        top: half_height,
                        bottom: -half_height,
                    },
                },
                kind: Kind::Player(Side { left: is_left }),
            },
        );
        assert(paddles@ =~= seq![paddle_at(*size, true), paddle_at(*size, false)].take(
            i + 1,
        ));
        i += 1;
    }
    assert(paddles@ =~= seq![paddle_at(*size, true), paddle_at(*size, false)]);
    paddles
}

} // verus!
