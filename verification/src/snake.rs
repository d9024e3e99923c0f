//! Agents: direction of travel and per-agent state.

use vstd::prelude::*;

use crate::coord::Coord;
use crate::coord::sat_dec;
use crate::coord::sat_inc;

verus! {

/// Health an agent is restored to when it eats.
pub const MAX_HEALTH: u8 = 100;

/// One of the four moves available each turn, each a unit step on the grid.
#[derive(Copy, Clone, PartialEq, Eq, Structural, Debug)]
pub enum Direction {
    UP,
    RIGHT,
    DOWN,
    LEFT,
}

impl Direction {
    /// The four directions in their canonical enumeration order.
    pub fn iter() -> (ds: Vec<Direction>)
        ensures
            ds@ == all_directions(),
    {
        let ds = vec![Direction::UP, Direction::RIGHT, Direction::DOWN, Direction::LEFT];
        proof {
            assert(ds@ =~= all_directions());
        }
        ds
    }
}

/// Canonical enumeration order of the four directions; candidate moves are
/// always considered in this order.
pub open spec fn all_directions() -> Seq<Direction> {
    seq![Direction::UP, Direction::RIGHT, Direction::DOWN, Direction::LEFT]
}

/// Where a head ends up after one step in the given direction.  Each
/// direction is a unit vector; steps clamp at the edge of the coordinate
/// range (see `sat_inc`), which keeps off-board positions off-board.
pub open spec fn coord_after(c: Coord, d: Direction) -> Coord {
    match d {
        Direction::UP => Coord { x: c.x, y: sat_inc(c.y) },
        Direction::RIGHT => Coord { x: sat_inc(c.x), y: c.y },
        Direction::DOWN => Coord { x: c.x, y: sat_dec(c.y) },
        Direction::LEFT => Coord { x: sat_dec(c.x), y: c.y },
    }
}

/// A controlled entity on the board.
#[derive(PartialEq, Debug)]
pub struct Battlesnake {
    /// Opaque identifier; unique across the agents of one board.
    pub id: String,
    /// Drops by one per move, restored to `MAX_HEALTH` on eating; the agent
    /// is dead at 0.  Never wraps below 0.
    pub health: u8,
    /// Number of body segments; always equal to `body.len()`.
    pub length: usize,
    /// Occupied cells, head first.
    pub body: Vec<Coord>,
    /// Cached copy of `body[0]`.
    pub head: Coord,
}

/// Mathematical model of an agent.
#[verifier::ext_equal]
pub ghost struct SnakeV {
    pub id: Seq<char>,
    pub health: int,
    pub length: int,
    pub body: Seq<Coord>,
    pub head: Coord,
}

impl View for Battlesnake {
    type V = SnakeV;

    open spec fn view(&self) -> SnakeV {
        SnakeV {
            id: self.id@,
            health: self.health as int,
            length: self.length as int,
            body: self.body@,
            head: self.head,
        }
    }
}

/// The agent's structural invariant: the body is non-empty, `length` counts
/// its segments, and `head` caches its first segment.  Established by every
/// well-formed snapshot and preserved by `do_move` and `eat`.
pub open spec fn snake_wf(s: SnakeV) -> bool {
    &&& s.body.len() >= 1
    &&& s.length == s.body.len()
    &&& s.head == s.body[0]
}

/// Model of one movement step: the head advances one cell, the new head is
/// prepended to the body whose last segment is dropped, and health drops by
/// one, clamped at 0.
pub open spec fn snake_moved(s: SnakeV, d: Direction) -> SnakeV {
    let h = coord_after(s.head, d);
    SnakeV {
        id: s.id,
        health: if s.health <= 0 {
            0int
        } else {
            s.health - 1
        },
        length: s.length,
        body: seq![h] + s.body.drop_last(),
        head: h,
    }
}

/// Model of eating: health is restored, the last body segment is duplicated,
/// and the length grows by one.  The head does not move.
pub open spec fn snake_fed(s: SnakeV) -> SnakeV {
    SnakeV {
        id: s.id,
        health: MAX_HEALTH as int,
        length: s.length + 1,
        body: s.body.push(s.body.last()),
        head: s.head,
    }
}

impl Clone for Battlesnake {
    /// A deep copy whose model equals the original's.
    fn clone(&self) -> (res: Self)
        ensures
            res@ == self@,
    {
        Battlesnake {
            id: self.id.clone(),
            health: self.health,
            length: self.length,
            body: crate::coord::clone_coords(&self.body),
            head: self.head,
        }
    }
}

impl Battlesnake {
    /// The structural invariant, on the concrete representation.
    pub open spec fn wf(&self) -> bool {
        snake_wf(self@)
    }

    /// Advance one step in `direction`: translate the body by prepending the
    /// new head and dropping the tail segment, and pay one health,
    /// saturating at 0.
    pub fn do_move(&mut self, direction: &Direction)
        requires
            old(self).body@.len() >= 1,
        ensures
            final(self)@ == snake_moved(old(self)@, *direction),
            final(self).body@.len() == old(self).body@.len(),
            final(self).head == final(self).body@[0],
            old(self).wf() ==> final(self).wf(),
    {
        let mut new_x = self.head.x;
        let mut new_y = self.head.y;
        match direction {
            Direction::UP => {
                if new_y < i8::MAX {
                    new_y = new_y + 1;
                }
            },
            Direction::RIGHT => {
                if new_x < i8::MAX {
                    new_x = new_x + 1;
                }
            },
            Direction::DOWN => {
                if new_y > i8::MIN {
                    new_y = new_y - 1;
                }
            },
            Direction::LEFT => {
                if new_x > i8::MIN {
                    new_x = new_x - 1;
                }
            },
        }
        let new_head = Coord::new(new_x, new_y);
        self.head = new_head;
        self.body.insert(0, new_head);
        self.body.pop();
        if self.health > 0 {
            self.health = self.health - 1;
        }
        proof {
            assert(self.body@ =~= seq![new_head] + old(self).body@.drop_last());
            assert(self@ =~= snake_moved(old(self)@, *direction));
        }
    }

    /// Eat the food under the head: restore health, duplicate the tail
    /// segment, and count the extra segment in `length`.
    pub fn eat(&mut self)
        requires
            old(self).wf(),
        ensures
            final(self)@ == snake_fed(old(self)@),
            final(self).length == old(self).length + 1,
            final(self).head == old(self).head,
            final(self).health == MAX_HEALTH,
            final(self).wf(),
    {
        self.health = MAX_HEALTH;
        let new_tail = self.body[self.body.len() - 1];
        self.body.push(new_tail);
        let n = self.body.len();
        self.length = n;
        proof {
            assert(self@ =~= snake_fed(old(self)@));
        }
    }
}

} // verus!
