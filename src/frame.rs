use vstd::prelude::*;
use crate::collision::{after_collision, ball_count, collision_ball};
use crate::components::{all_wf, Entity, WinSize};
use crate::input::{move_all_players, steered, Keys};
use crate::movement::{move_all_velocity_objects, moved};

verus! {

pub open spec fn moved_all(size: WinSize, s: Seq<Entity>) -> Seq<Entity> {
    s.map_values(|e: Entity| moved(size, e))
}

pub open spec fn steered_all(keys: Keys, s: Seq<Entity>) -> Seq<Entity> {
    s.map_values(|e: Entity| steered(keys, e))
}

/// The entity's centre lies on the playfield.
pub open spec fn on_field(size: WinSize, e: Entity) -> bool {
    &&& -(size.w / 2) <= e.translation.x <= size.w / 2
    &&& -(size.h / 2) <= e.translation.y <= size.h / 2
}

/// No paddle moves sideways.
pub open spec fn paddles_upright(s: Seq<Entity>) -> bool {
    forall|i: int| 0 <= i < s.len() && (#[trigger] s[i]).is_player() ==> s[i].velocity.x == 0
}

proof fn lemma_same_ball_count(s: Seq<Entity>, t: Seq<Entity>)
    requires
        s.len() == t.len(),
        forall|i: int| 0 <= i < s.len() ==> (#[trigger] s[i]).is_ball() == t[i].is_ball(),
    ensures
        ball_count(s) == ball_count(t),
    decreases s.len(),
{
    if s.len() > 0 {
        let (s1, t1) = (s.drop_last(), t.drop_last());
        assert forall|i: int| 0 <= i < s1.len() implies (#[trigger] s1[i]).is_ball()
            == t1[i].is_ball() by {
            assert(s1[i] == s[i] && t1[i] == t[i]);
        }
        lemma_same_ball_count(s1, t1);
        assert(s.last() == s[s.len() - 1] && t.last() == t[t.len() - 1]);
    }
}

/// One frame of play: every entity moves, the paddles read their keys, then the
/// ball meets the paddles and the walls. There must be exactly one ball. After the
/// frame every entity is on the playfield, and paddles that did not move sideways
/// still do not.
pub fn step_frame(size: &WinSize, keys: &Keys, entities: &mut Vec<Entity>)
    requires
        size.wf(),
        all_wf(old(entities)@),
        ball_count(old(entities)@) == 1,
    ensures
        final(entities)@ == after_collision(
            *size,
            steered_all(*keys, moved_all(*size, old(entities)@)),
        ),
        all_wf(final(entities)@),
        forall|i: int|
            0 <= i < final(entities)@.len() ==> on_field(*size, #[trigger] final(entities)@[i]),
        paddles_upright(old(entities)@) ==> paddles_upright(final(entities)@),
{
    let ghost start = entities@;
    move_all_velocity_objects(size, entities);
    let ghost after_move = entities@;
    assert(after_move =~= moved_all(*size, start));
    move_all_players(keys, entities);
    let ghost mid = entities@;
    assert(mid =~= steered_all(*keys, after_move));
    proof {
        lemma_same_ball_count(start, mid);
    }
    collision_ball(size, entities);
    proof {
        assert forall|i: int| 0 <= i < entities@.len() implies on_field(
            *size,
            #[trigger] entities@[i],
        ) by {
            assert(entities@[i].translation == mid[i].translation);
            assert(mid[i].translation == after_move[i].translation);
        }
        if paddles_upright(start) {
            assert forall|i: int| 0 <= i < entities@.len() && (#[trigger] entities@[i]).is_player()
                implies entities@[i].velocity.x == 0 by {
                assert(start[i].is_player());
                assert(entities@[i] == mid[i]);
            }
        }
    }
}

} // verus!
