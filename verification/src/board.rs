//! The board: grid bounds, food, the agents, and the per-turn transition.

use vstd::prelude::*;

use crate::coord::Coord;
use crate::snake::Battlesnake;
use crate::snake::Direction;
use crate::snake::SnakeV;
use crate::snake::coord_after;
use crate::snake::snake_fed;
use crate::snake::snake_moved;
use crate::snake::snake_wf;

verus! {

broadcast use {
    vstd::seq_lib::group_filter_ensures,
    vstd::seq_lib::lemma_seq_contains_after_push,
    Seq::lemma_filter_push,
    Seq::lemma_take_succ_push,
    Seq::lemma_take_len,
};

/// One agent's move command for one simulation step.
#[derive(Copy, Clone, Debug)]
pub struct Ply {
    /// Position of the commanded agent in the board's agent roster.
    pub snake_index: usize,
    /// The direction that agent steps in.
    pub direction: Direction,
}

/// Mathematical model of a ply.
#[verifier::ext_equal]
pub ghost struct PlyV {
    pub snake_index: int,
    pub direction: Direction,
}

impl View for Ply {
    type V = PlyV;

    open spec fn view(&self) -> PlyV {
        PlyV { snake_index: self.snake_index as int, direction: self.direction }
    }
}

impl Ply {
    pub fn new(snake_index: usize, direction: Direction) -> (p: Ply)
        ensures
            p@ == (PlyV { snake_index: snake_index as int, direction }),
    {
        Ply { snake_index, direction }
    }
}

/// The plies of a tick, as their models, in order.
pub open spec fn plies_view(plies: Seq<Ply>) -> Seq<PlyV> {
    plies.map_values(|p: Ply| p@)
}

/// The game board.
#[derive(PartialEq, Debug)]
pub struct Board {
    pub height: i8,
    pub width: i8,
    /// Remaining food; treated as a set of unique coordinates.
    pub food: Vec<Coord>,
    /// The agents; an agent's position in this roster is its identifier for
    /// `Ply` and `is_alive`.
    pub snakes: Vec<Battlesnake>,
}

/// Mathematical model of a board.
#[verifier::ext_equal]
pub ghost struct BoardV {
    pub height: int,
    pub width: int,
    pub food: Seq<Coord>,
    pub snakes: Seq<SnakeV>,
}

impl View for Board {
    type V = BoardV;

    open spec fn view(&self) -> BoardV {
        BoardV {
            height: self.height as int,
            width: self.width as int,
            food: self.food@,
            snakes: self.snakes@.map_values(|s: Battlesnake| s@),
        }
    }
}

/// Every agent of the board satisfies the agent invariant.
pub open spec fn board_wf(b: BoardV) -> bool {
    forall|i: int| 0 <= i < b.snakes.len() ==> snake_wf(#[trigger] b.snakes[i])
}

/// Intermediate state while the plies of one tick are applied: the agents so
/// far, and the food coordinates already claimed during this tick.
#[verifier::ext_equal]
pub ghost struct TickState {
    pub snakes: Seq<SnakeV>,
    pub eaten: Set<Coord>,
}

/// Effect of a single ply.  The commanded agent moves; if its new head is on
/// a food coordinate that was on the board when the tick started and that no
/// earlier ply of the same tick has claimed, the agent eats and the
/// coordinate is claimed.  Ply order is thus the tie-break when two agents
/// land on the same food: only the first of them eats.
pub open spec fn apply_ply(st: TickState, food: Seq<Coord>, p: PlyV) -> TickState {
    let moved = snake_moved(st.snakes[p.snake_index], p.direction);
    if food.contains(moved.head) && !st.eaten.contains(moved.head) {
        TickState {
            snakes: st.snakes.update(p.snake_index, snake_fed(moved)),
            eaten: st.eaten.insert(moved.head),
        }
    } else {
        TickState { snakes: st.snakes.update(p.snake_index, moved), eaten: st.eaten }
    }
}

/// All plies of a tick, applied in list order.
pub open spec fn run_plies(st: TickState, food: Seq<Coord>, plies: Seq<PlyV>) -> TickState
    decreases plies.len(),
{
    if plies.len() == 0 {
        st
    } else {
        run_plies(apply_ply(st, food, plies[0]), food, plies.drop_first())
    }
}

/// Model of a whole tick: apply the plies in order against the food set as
/// it stood at the start of the tick, then drop every claimed coordinate
/// from the food in one pass.
pub open spec fn board_tick(b: BoardV, plies: Seq<PlyV>) -> BoardV {
    let st = run_plies(TickState { snakes: b.snakes, eaten: Set::empty() }, b.food, plies);
    BoardV {
        height: b.height,
        width: b.width,
        food: b.food.filter(|c: Coord| !st.eaten.contains(c)),
        snakes: st.snakes,
    }
}

/// Appending one ply to a tick is the same as applying it to the state the
/// earlier plies produced.
proof fn lemma_run_plies_snoc(st: TickState, food: Seq<Coord>, plies: Seq<PlyV>, p: PlyV)
    ensures
        run_plies(st, food, plies.push(p)) == apply_ply(run_plies(st, food, plies), food, p),
    decreases plies.len(),
{
    if plies.len() == 0 {
        assert(plies.push(p)[0] == p);
        assert(plies.push(p).drop_first() =~= Seq::<PlyV>::empty());
        assert(run_plies(apply_ply(st, food, p), food, Seq::<PlyV>::empty()) == apply_ply(
            st,
            food,
            p,
        ));
        assert(run_plies(st, food, Seq::<PlyV>::empty()) == st);
    } else {
        assert(plies.push(p)[0] == plies[0]);
        assert(plies.push(p).drop_first() =~= plies.drop_first().push(p));
        lemma_run_plies_snoc(apply_ply(st, food, plies[0]), food, plies.drop_first(), p);
        assert(run_plies(st, food, plies.push(p)) == run_plies(
            apply_ply(st, food, plies[0]),
            food,
            plies.drop_first().push(p),
        ));
        assert(run_plies(st, food, plies) == run_plies(
            apply_ply(st, food, plies[0]),
            food,
            plies.drop_first(),
        ));
    }
}

/// Score that the leaf evaluation assigns to a position, for the agent at
/// the given roster index.  The current strategy is a stub valuing every
/// position at zero; replacing it does not touch the search engine.
pub open spec fn eval_value(b: BoardV, snake_index: int) -> int {
    0
}

/// The larger of two scores.
pub open spec fn max2(a: int, b: int) -> int {
    if a >= b {
        a
    } else {
        b
    }
}

/// The smaller of two scores.
pub open spec fn min2(a: int, b: int) -> int {
    if a <= b {
        a
    } else {
        b
    }
}

/// True value of a search node, by the alternation contract of the engine.
///
/// `ply` counts half-moves.  Once it reaches `max_ply` the node is a leaf and
/// scores as `eval_value` of the current board for the minimizing agent.  At
/// an even ply the maximizing agent branches into all four directions, each
/// adding its ply to the pending accumulator without touching the board, and
/// the node's value is the maximum of the four branch values.  At an odd ply
/// the minimizing agent branches into all four directions, each resolving
/// the pending pair of plies against a copy of the board in one tick, and
/// the node's value is the minimum of the four branch values.
pub open spec fn minimax_value(
    b: BoardV,
    ply: int,
    pending: Seq<PlyV>,
    maximizing: int,
    minimizing: int,
    max_ply: int,
) -> int
    decreases max_ply - ply,
{
    if ply >= max_ply {
        eval_value(b, minimizing)
    } else if ply % 2 == 0 {
        let v_up = minimax_value(
            b,
            ply + 1,
            pending.push(PlyV { snake_index: maximizing, direction: Direction::UP }),
            maximizing,
            minimizing,
            max_ply,
        );
        let v_right = minimax_value(
            b,
            ply + 1,
            pending.push(PlyV { snake_index: maximizing, direction: Direction::RIGHT }),
            maximizing,
            minimizing,
            max_ply,
        );
        let v_down = minimax_value(
            b,
            ply + 1,
            pending.push(PlyV { snake_index: maximizing, direction: Direction::DOWN }),
            maximizing,
            minimizing,
            max_ply,
        );
        let v_left = minimax_value(
            b,
            ply + 1,
            pending.push(PlyV { snake_index: maximizing, direction: Direction::LEFT }),
            maximizing,
            minimizing,
            max_ply,
        );
        max2(max2(v_up, v_right), max2(v_down, v_left))
    } else {
        let v_up = minimax_value(
            board_tick(b, pending.push(PlyV { snake_index: minimizing, direction: Direction::UP })),
            ply + 1,
            Seq::empty(),
            maximizing,
            minimizing,
            max_ply,
        );
        let v_right = minimax_value(
            board_tick(
                b,
                pending.push(PlyV { snake_index: minimizing, direction: Direction::RIGHT }),
            ),
            ply + 1,
            Seq::empty(),
            maximizing,
            minimizing,
            max_ply,
        );
        let v_down = minimax_value(
            board_tick(
                b,
                pending.push(PlyV { snake_index: minimizing, direction: Direction::DOWN }),
            ),
            ply + 1,
            Seq::empty(),
            maximizing,
            minimizing,
            max_ply,
        );
        let v_left = minimax_value(
            board_tick(
                b,
                pending.push(PlyV { snake_index: minimizing, direction: Direction::LEFT }),
            ),
            ply + 1,
            Seq::empty(),
            maximizing,
            minimizing,
            max_ply,
        );
        min2(min2(v_up, v_right), min2(v_down, v_left))
    }
}

/// Under the zero-valued leaf evaluation every search node has value zero:
/// the recursion bottoms out within the configured ply bound whatever the
/// board, the pending plies, or the two agents, and no branch can fail.
pub proof fn lemma_minimax_zero(
    b: BoardV,
    ply: int,
    pending: Seq<PlyV>,
    maximizing: int,
    minimizing: int,
    max_ply: int,
)
    ensures
        minimax_value(b, ply, pending, maximizing, minimizing, max_ply) == 0,
    decreases max_ply - ply,
{
    if ply >= max_ply {
    } else if ply % 2 == 0 {
        lemma_minimax_zero(
            b,
            ply + 1,
            pending.push(PlyV { snake_index: maximizing, direction: Direction::UP }),
            maximizing,
            minimizing,
            max_ply,
        );
        lemma_minimax_zero(
            b,
            ply + 1,
            pending.push(PlyV { snake_index: maximizing, direction: Direction::RIGHT }),
            maximizing,
            minimizing,
            max_ply,
        );
        lemma_minimax_zero(
            b,
            ply + 1,
            pending.push(PlyV { snake_index: maximizing, direction: Direction::DOWN }),
            maximizing,
            minimizing,
            max_ply,
        );
        lemma_minimax_zero(
            b,
            ply + 1,
            pending.push(PlyV { snake_index: maximizing, direction: Direction::LEFT }),
            maximizing,
            minimizing,
            max_ply,
        );
    } else {
        lemma_minimax_zero(
            board_tick(b, pending.push(PlyV { snake_index: minimizing, direction: Direction::UP })),
            ply + 1,
            Seq::empty(),
            maximizing,
            minimizing,
            max_ply,
        );
        lemma_minimax_zero(
            board_tick(
                b,
                pending.push(PlyV { snake_index: minimizing, direction: Direction::RIGHT }),
            ),
            ply + 1,
            Seq::empty(),
            maximizing,
            minimizing,
            max_ply,
        );
        lemma_minimax_zero(
            board_tick(
                b,
                pending.push(PlyV { snake_index: minimizing, direction: Direction::DOWN }),
            ),
            ply + 1,
            Seq::empty(),
            maximizing,
            minimizing,
            max_ply,
        );
        lemma_minimax_zero(
            board_tick(
                b,
                pending.push(PlyV { snake_index: minimizing, direction: Direction::LEFT }),
            ),
            ply + 1,
            Seq::empty(),
            maximizing,
            minimizing,
            max_ply,
        );
    }
}

/// The direction an agent may not take because its neck (second body
/// segment) lies there, judged axis by axis in the order left, right, down,
/// up; `None` when the neck shares the head's cell.
pub open spec fn neck_blocked(head: Coord, neck: Coord) -> Option<Direction> {
    if neck.x < head.x {
        Some(Direction::LEFT)
    } else if neck.x > head.x {
        Some(Direction::RIGHT)
    } else if neck.y < head.y {
        Some(Direction::DOWN)
    } else if neck.y > head.y {
        Some(Direction::UP)
    } else {
        None
    }
}

/// The four directions in enumeration order, with the blocked one removed.
pub open spec fn candidate_dirs(blocked: Option<Direction>) -> Seq<Direction> {
    match blocked {
        None => seq![Direction::UP, Direction::RIGHT, Direction::DOWN, Direction::LEFT],
        Some(Direction::UP) => seq![Direction::RIGHT, Direction::DOWN, Direction::LEFT],
        Some(Direction::RIGHT) => seq![Direction::UP, Direction::DOWN, Direction::LEFT],
        Some(Direction::DOWN) => seq![Direction::UP, Direction::RIGHT, Direction::LEFT],
        Some(Direction::LEFT) => seq![Direction::UP, Direction::RIGHT, Direction::DOWN],
    }
}

/// Candidate moves of agent `i`: all four directions, minus the move onto
/// the agent's own neck when it has one (a body of at least two segments).
pub open spec fn board_candidates(b: BoardV, i: int) -> Seq<Direction> {
    let s = b.snakes[i];
    if s.body.len() >= 2 {
        candidate_dirs(neck_blocked(s.head, s.body[1]))
    } else {
        candidate_dirs(None)
    }
}

/// Value the search assigns to taking `d` now: the minimax value after the
/// maximizing agent's ply for `d` is put on the accumulator and the search
/// continues at ply one with the minimizing agent to answer.
pub open spec fn candidate_score(
    b: BoardV,
    maximizing: int,
    minimizing: int,
    max_ply: int,
    d: Direction,
) -> int {
    minimax_value(
        b,
        1,
        seq![PlyV { snake_index: maximizing, direction: d }],
        maximizing,
        minimizing,
        max_ply,
    )
}

/// How many cells of `body` equal `c`.
pub open spec fn match_count(body: Seq<Coord>, c: Coord) -> nat
    decreases body.len(),
{
    if body.len() == 0 {
        0nat
    } else {
        match_count(body.drop_last(), c) + (if body.last() == c {
            1nat
        } else {
            0nat
        })
    }
}

/// Whether the other agent `o` kills `s`.  When the two heads share a cell
/// the longer agent survives and equal lengths are a mutual loss; otherwise
/// `s` dies exactly when its head lies on a cell of `o`'s body.
pub open spec fn killed_by(s: SnakeV, o: SnakeV) -> bool {
    if s.head == o.head {
        s.length <= o.length
    } else {
        o.body.contains(s.head)
    }
}

/// The terminal predicate: agent `i` is alive iff it has health left, its
/// head is inside `[0, width) x [0, height)`, its head does not meet its own
/// body a second time, and no other agent of the roster kills it.
pub open spec fn snake_alive(b: BoardV, i: int) -> bool {
    let s = b.snakes[i];
    &&& s.health > 0
    &&& 0 <= s.head.x < b.width
    &&& 0 <= s.head.y < b.height
    &&& match_count(s.body, s.head) <= 1
    &&& forall|j: int| 0 <= j < b.snakes.len() && j != i ==> !killed_by(s, #[trigger] b.snakes[j])
}

/// The board invariant behind the death rules: any agent still passing the
/// liveness predicate has its head inside `[0, width) x [0, height)`.
pub proof fn lemma_alive_head_in_bounds(b: BoardV, i: int)
    requires
        snake_alive(b, i),
    ensures
        0 <= b.snakes[i].head.x < b.width,
        0 <= b.snakes[i].head.y < b.height,
{
}

/// Whether the ply list commands every agent at most once.
pub open spec fn one_ply_per_agent(plies: Seq<PlyV>) -> bool {
    forall|k1: int, k2: int|
        0 <= k1 < k2 < plies.len() ==> plies[k1].snake_index != plies[k2].snake_index
}

/// Whether every commanded roster index is below `n`.
pub open spec fn plies_in_range(plies: Seq<PlyV>, n: int) -> bool {
    forall|k: int| 0 <= k < plies.len() ==> 0 <= (#[trigger] plies[k]).snake_index < n
}

/// The cell that the agent commanded by ply `k` steps onto, from its
/// position in `snakes`.  For a tick that commands each agent at most once
/// this is the agent's post-move head.
pub open spec fn landing_of(snakes: Seq<SnakeV>, plies: Seq<PlyV>, k: int) -> Coord {
    coord_after(snakes[plies[k].snake_index].head, plies[k].direction)
}

/// Running plies never forgets a claimed food coordinate.
proof fn lemma_run_eaten_monotone(st: TickState, food: Seq<Coord>, plies: Seq<PlyV>, c: Coord)
    requires
        st.eaten.contains(c),
    ensures
        run_plies(st, food, plies).eaten.contains(c),
    decreases plies.len(),
{
    if plies.len() == 0 {
    } else {
        lemma_run_eaten_monotone(apply_ply(st, food, plies[0]), food, plies.drop_first(), c);
    }
}

/// Agents that no ply commands are left exactly as they were.
proof fn lemma_run_plies_untouched(st: TickState, food: Seq<Coord>, plies: Seq<PlyV>, j: int)
    requires
        forall|k: int| 0 <= k < plies.len() ==> (#[trigger] plies[k]).snake_index != j,
        plies_in_range(plies, st.snakes.len() as int),
        0 <= j < st.snakes.len(),
    ensures
        run_plies(st, food, plies).snakes.len() == st.snakes.len(),
        run_plies(st, food, plies).snakes[j] == st.snakes[j],
    decreases plies.len(),
{
    if plies.len() == 0 {
    } else {
        let st1 = apply_ply(st, food, plies[0]);
        let rest = plies.drop_first();
        assert(st1.snakes.len() == st.snakes.len());
        assert(st1.snakes[j] == st.snakes[j]);
        assert(forall|k: int| 0 <= k < rest.len() ==> rest[k] == plies[k + 1]);
        lemma_run_plies_untouched(st1, food, rest, j);
    }
}

/// A landing on a food coordinate leaves that coordinate claimed by the end
/// of the tick, whether this agent ate it or an earlier one did.
proof fn lemma_run_landing_claimed(st: TickState, food: Seq<Coord>, plies: Seq<PlyV>, k: int)
    requires
        one_ply_per_agent(plies),
        plies_in_range(plies, st.snakes.len() as int),
        0 <= k < plies.len(),
        food.contains(landing_of(st.snakes, plies, k)),
    ensures
        run_plies(st, food, plies).eaten.contains(landing_of(st.snakes, plies, k)),
    decreases plies.len(),
{
    let h = landing_of(st.snakes, plies, k);
    let st1 = apply_ply(st, food, plies[0]);
    let rest = plies.drop_first();
    assert(forall|k2: int| 0 <= k2 < rest.len() ==> rest[k2] == plies[k2 + 1]);
    if k == 0 {
        assert(st1.eaten.contains(h));
        lemma_run_eaten_monotone(st1, food, rest, h);
    } else {
        assert(st1.snakes[plies[k].snake_index] == st.snakes[plies[k].snake_index]);
        assert(landing_of(st1.snakes, rest, k - 1) == h);
        lemma_run_landing_claimed(st1, food, rest, k - 1);
    }
}

/// The first ply of a tick to land on a still-unclaimed food coordinate
/// feeds its agent; nothing later touches that agent again.
proof fn lemma_run_first_lander_eats(st: TickState, food: Seq<Coord>, plies: Seq<PlyV>, k: int)
    requires
        one_ply_per_agent(plies),
        plies_in_range(plies, st.snakes.len() as int),
        0 <= k < plies.len(),
        food.contains(landing_of(st.snakes, plies, k)),
        !st.eaten.contains(landing_of(st.snakes, plies, k)),
        forall|j: int|
            0 <= j < k ==> #[trigger] landing_of(st.snakes, plies, j) != landing_of(st.snakes, plies, k),
    ensures
        run_plies(st, food, plies).snakes[plies[k].snake_index] == snake_fed(
            snake_moved(st.snakes[plies[k].snake_index], plies[k].direction),
        ),
    decreases plies.len(),
{
    let h = landing_of(st.snakes, plies, k);
    let st1 = apply_ply(st, food, plies[0]);
    let rest = plies.drop_first();
    assert(forall|k2: int| 0 <= k2 < rest.len() ==> rest[k2] == plies[k2 + 1]);
    if k == 0 {
        let a = plies[0].snake_index;
        assert(st1.snakes[a] == snake_fed(snake_moved(st.snakes[a], plies[0].direction)));
        assert(forall|k2: int| 0 <= k2 < rest.len() ==> (#[trigger] rest[k2]).snake_index != a);
        lemma_run_plies_untouched(st1, food, rest, a);
    } else {
        let a = plies[k].snake_index;
        assert(st1.snakes[a] == st.snakes[a]);
        assert(landing_of(st1.snakes, rest, k - 1) == h);
        assert(!st1.eaten.contains(h)) by {
            if food.contains(landing_of(st.snakes, plies, 0)) && !st.eaten.contains(
                landing_of(st.snakes, plies, 0),
            ) {
                assert(landing_of(st.snakes, plies, 0) != h);
            }
        }
        assert(forall|j: int|
            0 <= j < k - 1 ==> #[trigger] landing_of(st1.snakes, rest, j) != landing_of(st1.snakes, rest, k - 1))
            by {
            assert(forall|j: int|
                0 <= j < k - 1 ==> #[trigger] landing_of(st1.snakes, rest, j) == landing_of(
                    st.snakes,
                    plies,
                    j + 1,
                ));
        }
        lemma_run_first_lander_eats(st1, food, rest, k - 1);
    }
}

/// A ply that lands on a food coordinate already claimed earlier in the tick
/// only moves its agent: ply order is the tie-break, the later lander does
/// not eat.
proof fn lemma_run_later_lander_moves_only(
    st: TickState,
    food: Seq<Coord>,
    plies: Seq<PlyV>,
    k: int,
)
    requires
        one_ply_per_agent(plies),
        plies_in_range(plies, st.snakes.len() as int),
        0 <= k < plies.len(),
        food.contains(landing_of(st.snakes, plies, k)),
        st.eaten.contains(landing_of(st.snakes, plies, k)) || exists|j: int|
            0 <= j < k && #[trigger] landing_of(st.snakes, plies, j) == landing_of(st.snakes, plies, k),
    ensures
        run_plies(st, food, plies).snakes[plies[k].snake_index] == snake_moved(
            st.snakes[plies[k].snake_index],
            plies[k].direction,
        ),
    decreases plies.len(),
{
    let h = landing_of(st.snakes, plies, k);
    let st1 = apply_ply(st, food, plies[0]);
    let rest = plies.drop_first();
    assert(forall|k2: int| 0 <= k2 < rest.len() ==> rest[k2] == plies[k2 + 1]);
    if k == 0 {
        let a = plies[0].snake_index;
        assert(st.eaten.contains(h));
        assert(st1.snakes[a] == snake_moved(st.snakes[a], plies[0].direction));
        assert(forall|k2: int| 0 <= k2 < rest.len() ==> (#[trigger] rest[k2]).snake_index != a);
        lemma_run_plies_untouched(st1, food, rest, a);
    } else {
        let a = plies[k].snake_index;
        assert(st1.snakes[a] == st.snakes[a]);
        assert(landing_of(st1.snakes, rest, k - 1) == h);
        assert(forall|j: int|
            0 <= j < k - 1 ==> #[trigger] landing_of(st1.snakes, rest, j) == landing_of(st.snakes, plies, j + 1));
        if st.eaten.contains(h) {
            assert(st1.eaten.contains(h));
        } else {
            let j = choose|j: int|
                0 <= j < k && #[trigger] landing_of(st.snakes, plies, j) == landing_of(st.snakes, plies, k);
            if j == 0 {
                assert(st1.eaten.contains(h));
            } else {
                assert(landing_of(st1.snakes, rest, j - 1) == h);
                assert(exists|j2: int|
                    0 <= j2 < k - 1 && #[trigger] landing_of(st1.snakes, rest, j2) == landing_of(
                        st1.snakes,
                        rest,
                        k - 1,
                    ));
            }
        }
        lemma_run_later_lander_moves_only(st1, food, rest, k - 1);
    }
}

/// For any board and a ply list that commands only agent `a`, every other
/// agent is unchanged by the tick: body, health, head, length, and id are
/// identical before and after.
pub proof fn lemma_tick_leaves_others_unchanged(b: BoardV, plies: Seq<PlyV>, a: int, j: int)
    requires
        forall|k: int| 0 <= k < plies.len() ==> (#[trigger] plies[k]).snake_index == a,
        0 <= a < b.snakes.len(),
        0 <= j < b.snakes.len(),
        j != a,
    ensures
        board_tick(b, plies).snakes.len() == b.snakes.len(),
        board_tick(b, plies).snakes[j] == b.snakes[j],
{
    let st0 = TickState { snakes: b.snakes, eaten: Set::empty() };
    lemma_run_plies_untouched(st0, b.food, plies, j);
}

/// A food coordinate that an agent of the tick lands on (each agent
/// commanded at most once) is gone from the board afterward; and when no
/// earlier ply landed on the same coordinate, the landing agent ate it: its
/// length grew by exactly one.
pub proof fn lemma_tick_lander_eats(b: BoardV, plies: Seq<PlyV>, k: int)
    requires
        one_ply_per_agent(plies),
        plies_in_range(plies, b.snakes.len() as int),
        0 <= k < plies.len(),
        b.food.contains(landing_of(b.snakes, plies, k)),
        forall|j: int|
            0 <= j < k ==> #[trigger] landing_of(b.snakes, plies, j) != landing_of(b.snakes, plies, k),
    ensures
        !board_tick(b, plies).food.contains(landing_of(b.snakes, plies, k)),
        board_tick(b, plies).snakes[plies[k].snake_index].length == b.snakes[plies[k].snake_index].length
            + 1,
{
    let st0 = TickState { snakes: b.snakes, eaten: Set::empty() };
    let st = run_plies(st0, b.food, plies);
    let h = landing_of(b.snakes, plies, k);
    lemma_run_landing_claimed(st0, b.food, plies, k);
    lemma_run_first_lander_eats(st0, b.food, plies, k);
    let keep = |c: Coord| !st.eaten.contains(c);
    if board_tick(b, plies).food.contains(h) {
        let i = choose|i: int|
            0 <= i < b.food.filter(keep).len() && b.food.filter(keep)[i] == h;
        assert(keep(b.food.filter(keep)[i]));
    }
}

/// When two plies of one tick (each agent commanded at most once, and the
/// earlier ply being the first to land on the coordinate) land on the same
/// food coordinate, exactly one eats: the earlier agent grows by one, the
/// later agent keeps its length.
pub proof fn lemma_tick_food_eaten_once(b: BoardV, plies: Seq<PlyV>, k1: int, k2: int)
    requires
        one_ply_per_agent(plies),
        plies_in_range(plies, b.snakes.len() as int),
        0 <= k1 < k2 < plies.len(),
        landing_of(b.snakes, plies, k1) == landing_of(b.snakes, plies, k2),
        b.food.contains(landing_of(b.snakes, plies, k1)),
        forall|j: int|
            0 <= j < k1 ==> #[trigger] landing_of(b.snakes, plies, j) != landing_of(b.snakes, plies, k1),
    ensures
        board_tick(b, plies).snakes[plies[k1].snake_index].length == b.snakes[plies[k1].snake_index].length
            + 1,
        board_tick(b, plies).snakes[plies[k2].snake_index].length == b.snakes[plies[k2].snake_index].length,
{
    let st0 = TickState { snakes: b.snakes, eaten: Set::empty() };
    lemma_run_first_lander_eats(st0, b.food, plies, k1);
    assert(exists|j: int|
        0 <= j < k2 && #[trigger] landing_of(b.snakes, plies, j) == landing_of(b.snakes, plies, k2)) by {
        assert(landing_of(b.snakes, plies, k1) == landing_of(b.snakes, plies, k2));
    }
    lemma_run_later_lander_moves_only(st0, b.food, plies, k2);
}

/// Whether `c` occurs in `v`.
fn contains_coord(v: &Vec<Coord>, c: &Coord) -> (r: bool)
    ensures
        r == v@.contains(*c),
{
    let n = v.len();
    for i in 0..n
        invariant
            n == v@.len(),
            forall|j: int| 0 <= j < i ==> v@[j] != *c,
    {
        if v[i] == *c {
            return true;
        }
    }
    false
}

/// An element-for-element copy of a roster of agents; each copy's model
/// equals its original's.
fn clone_snakes(v: &Vec<Battlesnake>) -> (res: Vec<Battlesnake>)
    ensures
        res@.map_values(|s: Battlesnake| s@) == v@.map_values(|s: Battlesnake| s@),
{
    let mut res: Vec<Battlesnake> = Vec::new();
    let n = v.len();
    for i in 0..n
        invariant
            n == v@.len(),
            res@.len() == i,
            forall|j: int| 0 <= j < i ==> (#[trigger] res@[j])@ == v@[j]@,
    {
        res.push(v[i].clone());
    }
    proof {
        assert(res@.map_values(|s: Battlesnake| s@) =~= v@.map_values(|s: Battlesnake| s@));
    }
    res
}

impl Clone for Board {
    /// A deep copy whose model equals the original's.  Search branches clone
    /// the board before mutating it, so sibling branches never share state.
    fn clone(&self) -> (res: Self)
        ensures
            res@ == self@,
    {
        let res = Board {
            height: self.height,
            width: self.width,
            food: crate::coord::clone_coords(&self.food),
            snakes: clone_snakes(&self.snakes),
        };
        proof {
            assert(res@ =~= self@);
        }
        res
    }
}

impl Board {
    /// Every agent of this board satisfies the agent invariant.
    pub open spec fn wf(&self) -> bool {
        board_wf(self@)
    }

    /// Whether agent `snake_index` survives the current position, by the
    /// death rules of `snake_alive`.  A pure predicate: dead agents are not
    /// removed here, pruning them is the caller's concern.
    pub fn is_alive(&self, snake_index: usize) -> (r: bool)
        requires
            snake_index < self.snakes@.len(),
        ensures
            r == snake_alive(self@, snake_index as int),
    {
        let snake = &self.snakes[snake_index];
        if snake.health == 0 {
            return false;
        }
        if snake.head.x < 0 || snake.head.y < 0 || snake.head.x >= self.width || snake.head.y
            >= self.height {
            return false;
        }
        let mut count: usize = 0;
        let n_body = snake.body.len();
        proof {
            assert(snake.body@.take(0) =~= Seq::<Coord>::empty());
        }
        for i in 0..n_body
            invariant
                n_body == snake.body@.len(),
                count <= i,
                count as nat == match_count(snake.body@.take(i as int), snake.head),
                snake == self.snakes@[snake_index as int],
                snake_index < self.snakes@.len(),
            decreases n_body - i,
        {
            if snake.body[i] == snake.head {
                count = count + 1;
            }
            proof {
                let pre = snake.body@.take(i as int);
                assert(snake.body@.take(i + 1) =~= pre.push(snake.body@[i as int]));
                assert(snake.body@.take(i + 1).drop_last() =~= pre);
            }
        }
        proof {
            assert(snake.body@.take(n_body as int) =~= snake.body@);
        }
        if count > 1 {
            return false;
        }
        let n_snakes = self.snakes.len();
        for j in 0..n_snakes
            invariant
                n_snakes == self.snakes@.len(),
                snake_index < self.snakes@.len(),
                snake == self.snakes@[snake_index as int],
                forall|j2: int| 0 <= j2 < j && j2 != snake_index ==> !killed_by(
                    snake@,
                    #[trigger] self@.snakes[j2],
                ),
            decreases n_snakes - j,
        {
            if j != snake_index {
                let other = &self.snakes[j];
                proof {
                    assert(other@ == self@.snakes[j as int]);
                    assert(snake@ == self@.snakes[snake_index as int]);
                }
                if snake.head == other.head {
                    if snake.length <= other.length {
                        proof {
                            assert(killed_by(snake@, self@.snakes[j as int]));
                        }
                        return false;
                    }
                } else if contains_coord(&other.body, &snake.head) {
                    proof {
                        assert(killed_by(snake@, self@.snakes[j as int]));
                    }
                    return false;
                }
            }
        }
        true
    }

    /// Score of a finished search branch for the given agent.  A replaceable
    /// leaf strategy; the present one values every position at zero.
    pub fn evaluate(&self, snake_index: usize) -> (score: i64)
        ensures
            score as int == eval_value(self@, snake_index as int),
    {
        0
    }

    /// Two-agent adversarial search, returning the true minimax value of the
    /// node (see `minimax_value`).  `plies` is the accumulator of pending
    /// commands of the current simulation step; it is handed back unchanged.
    /// Sibling branches tick clones of the board, never the board itself.
    pub fn minimax(
        &self,
        ply: u8,
        plies: &mut Vec<Ply>,
        maximizing_index: usize,
        minimizing_index: usize,
        max_ply: u8,
    ) -> (score: i64)
        requires
            self.wf(),
            maximizing_index < self.snakes@.len(),
            minimizing_index < self.snakes@.len(),
            forall|k: int|
                0 <= k < old(plies)@.len() ==> (#[trigger] old(plies)@[k]).snake_index
                    < self.snakes@.len(),
        ensures
            final(plies)@ == old(plies)@,
            score as int == minimax_value(
                self@,
                ply as int,
                plies_view(old(plies)@),
                maximizing_index as int,
                minimizing_index as int,
                max_ply as int,
            ),
        decreases max_ply as int - ply as int,
    {
        let ghost pending0 = plies_view(old(plies)@);
        if ply >= max_ply {
            return self.evaluate(minimizing_index);
        }
        if ply % 2 == 0 {
            let mut values: Vec<i64> = Vec::new();
            let dirs = Direction::iter();
            let n_dirs = dirs.len();
            for di in 0..n_dirs
                invariant
                    self.wf(),
                    maximizing_index < self.snakes@.len(),
                    minimizing_index < self.snakes@.len(),
                    ply < max_ply,
                    ply % 2 == 0,
                    n_dirs == dirs@.len(),
                    dirs@ == crate::snake::all_directions(),
                    plies@ == old(plies)@,
                    pending0 == plies_view(old(plies)@),
                    forall|k: int|
                        0 <= k < plies@.len() ==> (#[trigger] plies@[k]).snake_index
                            < self.snakes@.len(),
                    values@.len() == di,
                    forall|j: int|
                        0 <= j < di ==> (#[trigger] values@[j]) as int == minimax_value(
                            self@,
                            ply + 1,
                            pending0.push(
                                PlyV { snake_index: maximizing_index as int, direction: dirs@[j] },
                            ),
                            maximizing_index as int,
                            minimizing_index as int,
                            max_ply as int,
                        ),
                decreases n_dirs - di,
            {
                let d = dirs[di];
                plies.push(Ply::new(maximizing_index, d));
                proof {
                    assert(plies_view(plies@) =~= pending0.push(
                        PlyV { snake_index: maximizing_index as int, direction: d },
                    ));
                }
                let v = self.minimax(
                    ply + 1,
                    plies,
                    maximizing_index,
                    minimizing_index,
                    max_ply,
                );
                plies.pop();
                proof {
                    assert(plies@ =~= old(plies)@);
                }
                values.push(v);
            }
            let m1 = if values[0] >= values[1] {
                values[0]
            } else {
                values[1]
            };
            let m2 = if values[2] >= values[3] {
                values[2]
            } else {
                values[3]
            };
            let best = if m1 >= m2 {
                m1
            } else {
                m2
            };
            best
        } else {
            let mut values: Vec<i64> = Vec::new();
            let dirs = Direction::iter();
            let n_dirs = dirs.len();
            for di in 0..n_dirs
                invariant
                    self.wf(),
                    maximizing_index < self.snakes@.len(),
                    minimizing_index < self.snakes@.len(),
                    ply < max_ply,
                    ply % 2 == 1,
                    n_dirs == dirs@.len(),
                    dirs@ == crate::snake::all_directions(),
                    plies@ == old(plies)@,
                    pending0 == plies_view(old(plies)@),
                    forall|k: int|
                        0 <= k < plies@.len() ==> (#[trigger] plies@[k]).snake_index
                            < self.snakes@.len(),
                    values@.len() == di,
                    forall|j: int|
                        0 <= j < di ==> (#[trigger] values@[j]) as int == minimax_value(
                            board_tick(
                                self@,
                                pending0.push(
                                    PlyV {
                                        snake_index: minimizing_index as int,
                                        direction: dirs@[j],
                                    },
                                ),
                            ),
                            ply + 1,
                            Seq::empty(),
                            maximizing_index as int,
                            minimizing_index as int,
                            max_ply as int,
                        ),
                decreases n_dirs - di,
            {
                let d = dirs[di];
                plies.push(Ply::new(minimizing_index, d));
                proof {
                    assert(plies_view(plies@) =~= pending0.push(
                        PlyV { snake_index: minimizing_index as int, direction: d },
                    ));
                }
                let mut branch_board = self.clone();
                proof {
                    assert(branch_board@.snakes == self@.snakes);
                    assert(branch_board.snakes@.map_values(|s: Battlesnake| s@).len()
                        == branch_board.snakes@.len());
                    assert(self.snakes@.map_values(|s: Battlesnake| s@).len()
                        == self.snakes@.len());
                    assert(branch_board.snakes@.len() == self.snakes@.len());
                }
                branch_board.tick(plies);
                let mut next_plies: Vec<Ply> = Vec::new();
                proof {
                    assert(plies_view(next_plies@) =~= Seq::<PlyV>::empty());
                }
                let v = branch_board.minimax(
                    ply + 1,
                    &mut next_plies,
                    maximizing_index,
                    minimizing_index,
                    max_ply,
                );
                plies.pop();
                proof {
                    assert(plies@ =~= old(plies)@);
                }
                values.push(v);
            }
            let m1 = if values[0] <= values[1] {
                values[0]
            } else {
                values[1]
            };
            let m2 = if values[2] <= values[3] {
                values[2]
            } else {
                values[3]
            };
            let best = if m1 <= m2 {
                m1
            } else {
                m2
            };
            best
        }
    }

    /// Search-driven move selection: score every candidate direction of the
    /// maximizing agent with the search engine and return the best-scoring
    /// one, ties broken by first occurrence in enumeration order.  A
    /// direction is always returned, even when every candidate is fatal.
    pub fn choose_move(
        &self,
        maximizing_index: usize,
        minimizing_index: usize,
        max_ply: u8,
    ) -> (d: Direction)
        requires
            self.wf(),
            maximizing_index < self.snakes@.len(),
            minimizing_index < self.snakes@.len(),
        ensures
            ({
                let cands = board_candidates(self@, maximizing_index as int);
                exists|k: int|
                    #![auto]
                    {
                        &&& 0 <= k < cands.len()
                        &&& cands[k] == d
                        &&& forall|j: int|
                            0 <= j < cands.len() ==> candidate_score(
                                self@,
                                maximizing_index as int,
                                minimizing_index as int,
                                max_ply as int,
                                #[trigger] cands[j],
                            ) <= candidate_score(
                                self@,
                                maximizing_index as int,
                                minimizing_index as int,
                                max_ply as int,
                                d,
                            )
                        &&& forall|j: int|
                            0 <= j < k ==> candidate_score(
                                self@,
                                maximizing_index as int,
                                minimizing_index as int,
                                max_ply as int,
                                #[trigger] cands[j],
                            ) < candidate_score(
                                self@,
                                maximizing_index as int,
                                minimizing_index as int,
                                max_ply as int,
                                d,
                            )
                    }
            }),
    {
        let s = &self.snakes[maximizing_index];
        proof {
            assert(s@ == self@.snakes[maximizing_index as int]);
        }
        let mut cands: Vec<Direction> = Vec::new();
        if s.body.len() >= 2 {
            let head = s.head;
            let neck = s.body[1];
            if neck.x < head.x {
                cands.push(Direction::UP);
                cands.push(Direction::RIGHT);
                cands.push(Direction::DOWN);
            } else if neck.x > head.x {
                cands.push(Direction::UP);
                cands.push(Direction::DOWN);
                cands.push(Direction::LEFT);
            } else if neck.y < head.y {
                cands.push(Direction::UP);
                cands.push(Direction::RIGHT);
                cands.push(Direction::LEFT);
            } else if neck.y > head.y {
                cands.push(Direction::RIGHT);
                cands.push(Direction::DOWN);
                cands.push(Direction::LEFT);
            } else {
                cands.push(Direction::UP);
                cands.push(Direction::RIGHT);
                cands.push(Direction::DOWN);
                cands.push(Direction::LEFT);
            }
        } else {
            cands.push(Direction::UP);
            cands.push(Direction::RIGHT);
            cands.push(Direction::DOWN);
            cands.push(Direction::LEFT);
        }
        proof {
            assert(cands@ =~= board_candidates(self@, maximizing_index as int));
        }
        let mut best_dir = cands[0];
        let mut first_plies: Vec<Ply> = Vec::new();
        first_plies.push(Ply::new(maximizing_index, best_dir));
        proof {
            assert(plies_view(first_plies@) =~= seq![
                PlyV { snake_index: maximizing_index as int, direction: best_dir },
            ]);
        }
        let mut best_score = self.minimax(
            1,
            &mut first_plies,
            maximizing_index,
            minimizing_index,
            max_ply,
        );
        let ghost mut best_k: int = 0;
        let n_cands = cands.len();
        for j in 1..n_cands
            invariant
                self.wf(),
                maximizing_index < self.snakes@.len(),
                minimizing_index < self.snakes@.len(),
                n_cands == cands@.len(),
                cands@ == board_candidates(self@, maximizing_index as int),
                0 <= best_k < j,
                cands@[best_k] == best_dir,
                best_score as int == candidate_score(
                    self@,
                    maximizing_index as int,
                    minimizing_index as int,
                    max_ply as int,
                    best_dir,
                ),
                forall|j2: int|
                    0 <= j2 < j ==> candidate_score(
                        self@,
                        maximizing_index as int,
                        minimizing_index as int,
                        max_ply as int,
                        #[trigger] cands@[j2],
                    ) <= best_score as int,
                forall|j2: int|
                    0 <= j2 < best_k ==> candidate_score(
                        self@,
                        maximizing_index as int,
                        minimizing_index as int,
                        max_ply as int,
                        #[trigger] cands@[j2],
                    ) < best_score as int,
            decreases n_cands - j,
        {
            let d2 = cands[j];
            let mut branch_plies: Vec<Ply> = Vec::new();
            branch_plies.push(Ply::new(maximizing_index, d2));
            proof {
                assert(plies_view(branch_plies@) =~= seq![
                    PlyV { snake_index: maximizing_index as int, direction: d2 },
                ]);
            }
            let sc = self.minimax(
                1,
                &mut branch_plies,
                maximizing_index,
                minimizing_index,
                max_ply,
            );
            if sc > best_score {
                best_dir = d2;
                best_score = sc;
                proof {
                    best_k = j as int;
                }
            }
        }
        best_dir
    }

    /// Advance the board by one turn: run every ply in list order (each
    /// commanded agent moves, then eats if it landed on still-unclaimed food
    /// of this tick), and finally remove all claimed food coordinates.
    pub fn tick(&mut self, plies: &Vec<Ply>)
        requires
            forall|k: int|
                0 <= k < plies@.len() ==> (#[trigger] plies@[k]).snake_index < old(
                    self,
                ).snakes@.len(),
            old(self).wf(),
        ensures
            final(self)@ == board_tick(old(self)@, plies_view(plies@)),
            final(self).snakes@.len() == old(self).snakes@.len(),
            final(self).wf(),
    {
        let ghost b0 = self@;
        let ghost pv = plies_view(plies@);
        let mut eaten: Vec<Coord> = Vec::new();
        let n_plies = plies.len();
        proof {
            assert(pv.take(0) =~= Seq::<PlyV>::empty());
        }
        for k in 0..n_plies
            invariant
                n_plies == plies@.len(),
                pv == plies_view(plies@),
                forall|j: int| 0 <= j < pv.len() ==> 0 <= (#[trigger] pv[j]).snake_index
                    < b0.snakes.len(),
                self.height == old(self).height,
                self.width == old(self).width,
                self.food@ == b0.food,
                self.snakes@.len() == b0.snakes.len(),
                ({
                    let st = run_plies(
                        TickState { snakes: b0.snakes, eaten: Set::empty() },
                        b0.food,
                        pv.take(k as int),
                    );
                    &&& self@.snakes == st.snakes
                    &&& forall|c: Coord| eaten@.contains(c) <==> st.eaten.contains(c)
                }),
                forall|i: int| 0 <= i < self@.snakes.len() ==> snake_wf(#[trigger] self@.snakes[i]),
        {
            let ghost st_pre = run_plies(
                TickState { snakes: b0.snakes, eaten: Set::empty() },
                b0.food,
                pv.take(k as int),
            );
            let ply = &plies[k];
            let idx = ply.snake_index;
            let ghost snakes_pre = self.snakes@;
            proof {
                assert(pv[k as int] == plies@[k as int]@);
                assert(idx as int == pv[k as int].snake_index);
                assert(idx < snakes_pre.len());
                assert(self@.snakes[idx as int] == snakes_pre[idx as int]@);
                assert(snake_wf(snakes_pre[idx as int]@));
            }
            let mut s = self.snakes.remove(idx);
            proof {
                assert(s == snakes_pre[idx as int]);
                assert(s@ == st_pre.snakes[idx as int]);
            }
            s.do_move(&ply.direction);
            let on_food = contains_coord(&self.food, &s.head);
            let already = contains_coord(&eaten, &s.head);
            if on_food && !already {
                eaten.push(s.head);
                s.eat();
            }
            self.snakes.insert(idx, s);
            proof {
                assert(self.snakes@ =~= snakes_pre.update(idx as int, s));
                assert(self@.snakes =~= st_pre.snakes.update(idx as int, s@));
                lemma_run_plies_snoc(
                    TickState { snakes: b0.snakes, eaten: Set::empty() },
                    b0.food,
                    pv.take(k as int),
                    pv[k as int],
                );
                let st_post = apply_ply(st_pre, b0.food, pv[k as int]);
                assert(self@.snakes =~= st_post.snakes);
                assert(forall|c: Coord| eaten@.contains(c) <==> st_post.eaten.contains(c)) by {
                    assert(forall|c: Coord| eaten@.contains(c) ==> st_post.eaten.contains(c));
                }
            }
        }
        proof {
            assert(pv.take(n_plies as int) =~= pv);
        }
        let ghost st = run_plies(TickState { snakes: b0.snakes, eaten: Set::empty() }, b0.food, pv);
        let ghost keep = |c: Coord| !st.eaten.contains(c);
        let mut kept: Vec<Coord> = Vec::new();
        let n_food = self.food.len();
        proof {
            assert(b0.food.take(0) =~= Seq::<Coord>::empty());
            assert(b0.food.take(0).filter(keep) =~= Seq::<Coord>::empty());
        }
        for i in 0..n_food
            invariant
                n_food == self.food@.len(),
                self.food@ == b0.food,
                forall|c: Coord| eaten@.contains(c) <==> st.eaten.contains(c),
                kept@ == b0.food.take(i as int).filter(keep),
                keep == (|c: Coord| !st.eaten.contains(c)),
        {
            let f = self.food[i];
            if !contains_coord(&eaten, &f) {
                kept.push(f);
            }
            proof {
                assert(b0.food.take(i + 1) =~= b0.food.take(i as int).push(b0.food[i as int]));
            }
        }
        self.food = kept;
        proof {
            assert(self@ =~= board_tick(b0, pv));
        }
    }
}

} // verus!
