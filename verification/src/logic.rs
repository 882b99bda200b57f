//! The decision pipeline: validate candidate moves, try the combat
//! heuristic, narrow to moves that keep clear of enemies, and finally walk
//! toward the nearest food.

pub mod food_finder;
pub mod move_refinator;
pub mod move_validator;

use vstd::prelude::*;

use crate::domain::{
    area_ok, dims_ok, direction_coord, direction_label, in_bounds, snakes_wf, up_from,
    Battlesnake, Board, Coord, Direction,
};
use crate::logic::food_finder::{first_food_idx, get_next_step, next_step_spec};
use crate::logic::move_refinator::{
    recommend_idx, recommend_idx_from, recommend_move, refined_movements, refined_spec,
};
use crate::logic::move_validator::{
    get_valid_moves, legal_dir, lemma_valid_moves_sound, valid_moves_spec,
};

verus! {

broadcast use vstd::seq_lib::group_filter_ensures;

/// The fixed fallback move emitted when no legal move exists: one step up
/// from the agent's head. An accepted-loss outcome, chosen so that the engine
/// always answers with an auditable move rather than no move.
pub open spec fn default_direction(you: Battlesnake) -> Direction {
    Direction::Up(up_from(you.head))
}

/// One turn's decision. In order: keep the legal moves (if none, emit the
/// fixed default); take a winning head-on collision when one is available;
/// otherwise prefer the moves that touch no opposing snake (falling back to
/// all legal moves when none qualifies) and hand the surviving candidates to
/// the pathfinder, whose exact result the contract pins through its
/// functional model; a candidate whose destination already holds food is
/// taken outright.
pub fn get_move(board: &Board, you: &Battlesnake) -> (r: Direction)
    requires
        dims_ok(*board),
        area_ok(*board),
        snakes_wf(*board),
        you.body@.len() >= 1,
        in_bounds(*board, you.head),
    ensures
        ({
            let vm = valid_moves_spec(*board, *you);
            &&& vm.len() == 0 ==> r == default_direction(*you) && direction_label(r) == "up"@
            &&& vm.len() > 0 ==> vm.contains(r) && legal_dir(*board, *you, r)
            &&& vm.len() > 0 ==> (recommend_idx(vm, *board, *you) matches Option::Some(j) ==> r
                == vm[j])
            &&& (vm.len() > 0 && recommend_idx(vm, *board, *you) is None && refined_spec(
                vm,
                *board,
                *you,
            ).len() > 0) ==> refined_spec(vm, *board, *you).contains(r)
            &&& (vm.len() > 0 && recommend_idx(vm, *board, *you) is None) ==> ({
                let opts = if refined_spec(vm, *board, *you).len() > 0 {
                    refined_spec(vm, *board, *you)
                } else {
                    vm
                };
                &&& r == next_step_spec(*board, *you, opts)
                &&& (first_food_idx(opts, board.food@) matches Option::Some(ff) ==> r == opts[ff])
                &&& board.food@.len() == 0 ==> r == opts[0]
            })
        }),
{
    let ghost vm = valid_moves_spec(*board, *you);
    let valid_moves = get_valid_moves(board, you);
    proof {
        lemma_valid_moves_sound(*board, *you);
    }

    if valid_moves.len() == 0 {
        let head_x: i32 = you.head.x;
        let head_y: i32 = you.head.y;
        return Direction::Up(Coord::new(head_x, head_y + 1));
    }

    let recommended = recommend_move(&valid_moves, you, board);
    if let Option::Some(direction) = recommended {
        let chosen = *direction;
        proof {
            lemma_recommend_idx_in_range(vm, *board, *you);
            assert(recommend_idx(vm, *board, *you) matches Option::Some(j) ==> vm.contains(
                vm[j],
            ));
        }
        return chosen;
    }

    let refined_moves = refined_movements(&valid_moves, board, you);

    let next_move = if refined_moves.len() > 0 {
        proof {
            assert forall|i: int| 0 <= i < refined_moves@.len() implies in_bounds(
                *board,
                direction_coord(#[trigger] refined_moves@[i]),
            ) by {
                let d = refined_moves@[i];
                assert(vm.contains(d));
                let j: int = choose|j: int| 0 <= j < vm.len() && vm[j] == d;
                assert(legal_dir(*board, *you, vm[j]));
            }
        }
        get_next_step(board, you, &refined_moves)
    } else {
        get_next_step(board, you, &valid_moves)
    };
    proof {
        if refined_spec(vm, *board, *you).len() > 0 {
            let rm = refined_spec(vm, *board, *you);
            let t: int = choose|t: int| 0 <= t < rm.len() && rm[t] == next_move;
            assert(vm.contains(rm[t]));
        }
    }
    next_move
}

/// A recommended index returned by the combat heuristic always points at one
/// of the candidates it was given.
pub proof fn lemma_recommend_idx_in_range(
    options: Seq<Direction>,
    board: Board,
    you: Battlesnake,
)
    ensures
        recommend_idx(options, board, you) matches Option::Some(j) ==> 0 <= j < options.len(),
{
    lemma_recommend_idx_from_in_range(options, board, you, 0);
}

proof fn lemma_recommend_idx_from_in_range(
    options: Seq<Direction>,
    board: Board,
    you: Battlesnake,
    i: int,
)
    ensures
        recommend_idx_from(options, board, you, i) matches Option::Some(j) ==> i <= j
            < options.len(),
    decreases options.len() - i,
{
    if 0 <= i < options.len() {
        lemma_recommend_idx_from_in_range(options, board, you, i + 1);
    }
}

} // verus!
