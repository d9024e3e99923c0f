//! Baseline move selection on the snapshot types.

use vstd::prelude::*;

use crate::engine::Battlesnake;
use crate::engine::Board;
use crate::engine::Coord;
use crate::engine::Game;

verus! {

/// The move name the agent may not take because its neck (second body
/// segment) lies that way, judged axis by axis in the order left, right,
/// down, up; `None` when the neck shares the head's cell.
pub open spec fn blocked_move(head: Coord, neck: Coord) -> Option<Seq<char>> {
    if neck.x < head.x {
        Some("left"@)
    } else if neck.x > head.x {
        Some("right"@)
    } else if neck.y < head.y {
        Some("down"@)
    } else if neck.y > head.y {
        Some("up"@)
    } else {
        None
    }
}

/// Whether `n` names one of the four moves.
pub open spec fn is_move_name(n: Seq<char>) -> bool {
    ||| n == "up"@
    ||| n == "down"@
    ||| n == "left"@
    ||| n == "right"@
}

/// Relies on rand::random_range: a sample from the given range, which
/// panics only when the range is empty.
#[verifier::external_body]
fn random_below(n: usize) -> (r: usize)
    requires
        1 <= n,
    ensures
        r < n,
{
    rand::random_range(0..n)
}

/// Baseline selector: among the four moves, discard the one that would step
/// onto the agent's own neck, then pick uniformly at random from the rest.
/// Some move is always returned: at most one direction is ever discarded.
pub fn get_move(game: &Game, _turn: &u32, _board: &Board, you: &Battlesnake) -> (chosen:
    &'static str)
    requires
        you.body@.len() >= 2,
    ensures
        is_move_name(chosen@),
        Some(chosen@) != blocked_move(you.head, you.body@[1]),
{
    let my_head = &you.head;
    let my_neck = &you.body[1];
    let ghost ok = |m: &'static str|
        is_move_name(m@) && Some(m@) != blocked_move(you.head, you.body@[1]);
    let mut moves: Vec<&'static str> = Vec::new();
    if my_neck.x < my_head.x {
        moves.push("up");
        moves.push("down");
        moves.push("right");
        proof {
            reveal_strlit("up");
            reveal_strlit("down");
            reveal_strlit("left");
            reveal_strlit("right");
            assert("up"@.len() == 2 && "down"@.len() == 4 && "left"@.len() == 4
                && "right"@.len() == 5);
            assert("down"@[0] == 'd' && "left"@[0] == 'l');
            assert(ok("up") && ok("down") && ok("right"));
            assert(forall|i: int| 0 <= i < moves@.len() ==> ok(#[trigger] moves@[i]));
        }
    } else if my_neck.x > my_head.x {
        moves.push("up");
        moves.push("down");
        moves.push("left");
        proof {
            reveal_strlit("up");
            reveal_strlit("down");
            reveal_strlit("left");
            reveal_strlit("right");
            assert("up"@.len() == 2 && "down"@.len() == 4 && "left"@.len() == 4
                && "right"@.len() == 5);
            assert("down"@[0] == 'd' && "left"@[0] == 'l');
            assert(ok("up") && ok("down") && ok("left"));
            assert(forall|i: int| 0 <= i < moves@.len() ==> ok(#[trigger] moves@[i]));
        }
    } else if my_neck.y < my_head.y {
        moves.push("up");
        moves.push("left");
        moves.push("right");
        proof {
            reveal_strlit("up");
            reveal_strlit("down");
            reveal_strlit("left");
            reveal_strlit("right");
            assert("up"@.len() == 2 && "down"@.len() == 4 && "left"@.len() == 4
                && "right"@.len() == 5);
            assert("down"@[0] == 'd' && "left"@[0] == 'l');
            assert(ok("up") && ok("left") && ok("right"));
            assert(forall|i: int| 0 <= i < moves@.len() ==> ok(#[trigger] moves@[i]));
        }
    } else if my_neck.y > my_head.y {
        moves.push("down");
        moves.push("left");
        moves.push("right");
        proof {
            reveal_strlit("up");
            reveal_strlit("down");
            reveal_strlit("left");
            reveal_strlit("right");
            assert("up"@.len() == 2 && "down"@.len() == 4 && "left"@.len() == 4
                && "right"@.len() == 5);
            assert("down"@[0] == 'd' && "left"@[0] == 'l');
            assert(ok("down") && ok("left") && ok("right"));
            assert(forall|i: int| 0 <= i < moves@.len() ==> ok(#[trigger] moves@[i]));
        }
    } else {
        moves.push("up");
        moves.push("down");
        moves.push("left");
        moves.push("right");
        proof {
            reveal_strlit("up");
            reveal_strlit("down");
            reveal_strlit("left");
            reveal_strlit("right");
            assert("up"@.len() == 2 && "down"@.len() == 4 && "left"@.len() == 4
                && "right"@.len() == 5);
            assert("down"@[0] == 'd' && "left"@[0] == 'l');
            assert(ok("up") && ok("down") && ok("left") && ok("right"));
            assert(forall|i: int| 0 <= i < moves@.len() ==> ok(#[trigger] moves@[i]));
        }
    }
    let idx = random_below(moves.len());
    moves[idx]
}

} // verus!
