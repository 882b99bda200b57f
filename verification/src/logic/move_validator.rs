//! Legality filtering of candidate moves. A candidate direction is kept
//! exactly when its destination lies inside the board, misses the agent's own
//! body (tail excluded) and misses every snake's body (tails excluded).

use vstd::prelude::*;

use crate::domain::{
    blocks, candidate_dirs, dims_ok, direction_coord, in_bounds, snakes_wf, Battlesnake, Board,
    Coord, Direction,
};

verus! {

broadcast use vstd::seq_lib::group_filter_ensures, Seq::filter_distributes_over_add,
    Seq::lemma_take_succ_push;

/// No snake of the board occupies `c` with a non-tail body segment.
pub open spec fn no_snake_blocks(board: Board, c: Coord) -> bool {
    forall|s: int|
        0 <= s < board.snakes@.len() ==> !blocks((#[trigger] board.snakes@[s]).body@, c)
}

/// The full legality condition of one step for a snake with the given body:
/// inside the board, not into that body (tail excluded), not into any
/// snake's body (tail excluded).
pub open spec fn valid_step(board: Board, body: Seq<Coord>, c: Coord) -> bool {
    &&& in_bounds(board, c)
    &&& !blocks(body, c)
    &&& no_snake_blocks(board, c)
}

/// The legality condition for the agent's own snapshot.
pub open spec fn is_valid_move_spec(board: Board, you: Battlesnake, c: Coord) -> bool {
    valid_step(board, you.body@, c)
}

/// A candidate direction is legal when its destination is.
pub open spec fn legal_dir(board: Board, you: Battlesnake, d: Direction) -> bool {
    is_valid_move_spec(board, you, direction_coord(d))
}

/// The legal single steps of a (possibly simulated) snake with the given head
/// and body: the subsequence of the four candidate directions (up, right,
/// down, left) whose destinations are legal.
pub open spec fn sim_moves(board: Board, head: Coord, body: Seq<Coord>) -> Seq<Direction> {
    candidate_dirs(head).filter(|d: Direction| valid_step(board, body, direction_coord(d)))
}

/// The validator's result, applied to the agent's own snapshot.
pub open spec fn valid_moves_spec(board: Board, you: Battlesnake) -> Seq<Direction> {
    sim_moves(board, you.head, you.body@)
}

/// The destination lies strictly inside `[0, width) x [0, height)`.
pub fn is_inside_bounds(board: &Board, next_movement: &Coord) -> (r: bool)
    ensures
        r == in_bounds(*board, *next_movement),
{
    next_movement.x >= 0 && (next_movement.x as u32) < board.width && next_movement.y >= 0
        && (next_movement.y as u32) < board.height
}

/// The destination misses the agent's own body, its tail excluded.
pub fn is_not_own_body(you: &Battlesnake, next_movement: &Coord) -> (r: bool)
    requires
        you.body@.len() >= 1,
    ensures
        r == !blocks(you.body@, *next_movement),
{
    let end: usize = you.body.len() - 1;
    let mut i: usize = 0;
    while i < end
        invariant
            end == you.body@.len() - 1,
            i <= end,
            forall|j: int| 0 <= j < i ==> you.body@[j] != *next_movement,
        decreases end - i,
    {
        if you.body[i] == *next_movement {
            return false;
        }
        i = i + 1;
    }
    true
}

/// The destination misses every snake's body (the agent's own entry in the
/// snake list included), tails excluded.
pub fn is_not_an_enemy(board: &Board, next_movement: &Coord) -> (r: bool)
    requires
        snakes_wf(*board),
    ensures
        r == no_snake_blocks(*board, *next_movement),
{
    let mut s: usize = 0;
    while s < board.snakes.len()
        invariant
            snakes_wf(*board),
            s <= board.snakes@.len(),
            forall|t: int| 0 <= t < s ==> !blocks((#[trigger] board.snakes@[t]).body@, *next_movement),
        decreases board.snakes@.len() - s,
    {
        let enemy = &board.snakes[s];
        let end: usize = enemy.body.len() - 1;
        let mut i: usize = 0;
        while i < end
            invariant
                s < board.snakes@.len(),
                *enemy == board.snakes@[s as int],
                end == enemy.body@.len() - 1,
                i <= end,
                forall|j: int| 0 <= j < i ==> enemy.body@[j] != *next_movement,
            decreases end - i,
        {
            if enemy.body[i] == *next_movement {
                proof {
                    assert(blocks(board.snakes@[s as int].body@, *next_movement));
                }
                return false;
            }
            i = i + 1;
        }
        s = s + 1;
    }
    true
}

/// The destination is not a hazard cell. Not part of the legality rule; kept
/// as a board query in its own right.
pub fn is_not_a_hazard(board: &Board, next_movement: &Coord) -> (r: bool)
    ensures
        r == !board.hazards@.contains(*next_movement),
{
    let mut i: usize = 0;
    while i < board.hazards.len()
        invariant
            i <= board.hazards@.len(),
            forall|j: int| 0 <= j < i ==> board.hazards@[j] != *next_movement,
        decreases board.hazards@.len() - i,
    {
        if board.hazards[i] == *next_movement {
            return false;
        }
        i = i + 1;
    }
    true
}

/// All three legality conditions at once.
pub fn is_valid_move(board: &Board, you: &Battlesnake, next_movement: &Coord) -> (r: bool)
    requires
        snakes_wf(*board),
        you.body@.len() >= 1,
    ensures
        r == is_valid_move_spec(*board, *you, *next_movement),
{
    is_inside_bounds(board, next_movement) && is_not_own_body(you, next_movement)
        && is_not_an_enemy(board, next_movement)
}

/// The set of directions that do not immediately crash, as the subsequence of
/// the four candidates (up, right, down, left) that pass the legality test.
pub fn get_valid_moves(board: &Board, you: &Battlesnake) -> (r: Vec<Direction>)
    requires
        dims_ok(*board),
        snakes_wf(*board),
        you.body@.len() >= 1,
        in_bounds(*board, you.head),
    ensures
        r@ == valid_moves_spec(*board, *you),
{
    let head_x: i32 = you.head.x;
    let head_y: i32 = you.head.y;

    let mut movement_array: Vec<Direction> = Vec::new();
    movement_array.push(Direction::Up(Coord::new(head_x, head_y + 1)));
    movement_array.push(Direction::Right(Coord::new(head_x + 1, head_y)));
    movement_array.push(Direction::Down(Coord::new(head_x, head_y - 1)));
    movement_array.push(Direction::Left(Coord::new(head_x - 1, head_y)));
    proof {
        assert(movement_array@ =~= candidate_dirs(you.head));
    }

    let ghost cs = candidate_dirs(you.head);
    let ghost pred = |d: Direction| valid_step(*board, you.body@, direction_coord(d));
    let mut moves: Vec<Direction> = Vec::new();
    let mut i: usize = 0;
    while i < movement_array.len()
        invariant
            snakes_wf(*board),
            you.body@.len() >= 1,
            movement_array@ == cs,
            cs.len() == 4,
            i <= 4,
            pred == (|d: Direction| valid_step(*board, you.body@, direction_coord(d))),
            moves@ == cs.take(i as int).filter(pred),
        decreases 4 - i,
    {
        let dir = movement_array[i];
        proof {
            assert(cs.take(i + 1) == cs.take(i as int).push(cs[i as int]));
            assert(cs.take(i as int).push(cs[i as int]) =~= cs.take(i as int) + seq![cs[i as int]]);
            reveal_with_fuel(Seq::filter, 3);
            assert(seq![cs[i as int]].drop_last() =~= Seq::<Direction>::empty());
        }
        if is_valid_move(board, you, dir.get_coord()) {
            moves.push(dir);
        }
        i = i + 1;
    }
    proof {
        assert(cs.take(4) =~= cs);
    }
    moves
}

/// Validator soundness: every direction the validator keeps leads to a cell
/// strictly inside the board, outside the agent's body (tail excluded) and
/// outside every snake's body (tails excluded).
pub proof fn lemma_valid_moves_sound(board: Board, you: Battlesnake)
    ensures
        forall|i: int|
            0 <= i < valid_moves_spec(board, you).len() ==> legal_dir(
                board,
                you,
                #[trigger] valid_moves_spec(board, you)[i],
            ),
        forall|i: int|
            0 <= i < valid_moves_spec(board, you).len() ==> in_bounds(
                board,
                direction_coord(#[trigger] valid_moves_spec(board, you)[i]),
            ),
        forall|i: int|
            0 <= i < valid_moves_spec(board, you).len() ==> !blocks(
                you.body@,
                direction_coord(#[trigger] valid_moves_spec(board, you)[i]),
            ),
        forall|i: int, s: int|
            0 <= i < valid_moves_spec(board, you).len() && 0 <= s < board.snakes@.len()
                ==> !blocks(
                (#[trigger] board.snakes@[s]).body@,
                direction_coord(#[trigger] valid_moves_spec(board, you)[i]),
            ),
{
    let pred = |d: Direction| valid_step(board, you.body@, direction_coord(d));
    assert forall|i: int| 0 <= i < valid_moves_spec(board, you).len() implies legal_dir(
        board,
        you,
        #[trigger] valid_moves_spec(board, you)[i],
    ) by {
        candidate_dirs(you.head).lemma_filter_pred(pred, i);
    }
}

/// Validator completeness and exact membership: each of the four candidates
/// is kept exactly when it satisfies all three legality conditions, so an
/// excluded candidate violates at least one of them.
pub proof fn lemma_valid_moves_complete(board: Board, you: Battlesnake)
    ensures
        forall|i: int|
            0 <= i < 4 ==> (valid_moves_spec(board, you).contains(
                #[trigger] candidate_dirs(you.head)[i],
            ) <==> legal_dir(board, you, candidate_dirs(you.head)[i])),
        forall|i: int|
            0 <= i < 4 && !valid_moves_spec(board, you).contains(
                #[trigger] candidate_dirs(you.head)[i],
            ) ==> !(in_bounds(board, direction_coord(candidate_dirs(you.head)[i])) && !blocks(
                you.body@,
                direction_coord(candidate_dirs(you.head)[i]),
            ) && no_snake_blocks(board, direction_coord(candidate_dirs(you.head)[i]))),
{
    let pred = |d: Direction| valid_step(board, you.body@, direction_coord(d));
    assert forall|i: int|
        0 <= i < 4 && legal_dir(board, you, #[trigger] candidate_dirs(you.head)[i])
            implies valid_moves_spec(board, you).contains(candidate_dirs(you.head)[i]) by {
        candidate_dirs(you.head).lemma_filter_contains(pred, i);
    }
    assert forall|i: int|
        0 <= i < 4 && valid_moves_spec(board, you).contains(#[trigger] candidate_dirs(you.head)[i])
            implies legal_dir(board, you, candidate_dirs(you.head)[i]) by {
        let vm = valid_moves_spec(board, you);
        let t: int = choose|t: int| 0 <= t < vm.len() && vm[t] == candidate_dirs(you.head)[i];
        candidate_dirs(you.head).lemma_filter_pred(pred, t);
    }
}

} // verus!
