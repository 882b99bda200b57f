//! Combat heuristic and proximity filter. The combat heuristic recommends
//! the first candidate whose destination sits next to the head of a strictly
//! shorter opposing snake — a winning head-on collision next turn. The
//! proximity filter keeps the candidates whose destination touches no
//! opposing snake at all.

use vstd::prelude::*;

use crate::domain::{
    blocks, dims_ok, direction_coord, in_bounds, neighbor, snakes_wf, Battlesnake, Board, Coord,
    Direction, SnakeView,
};

verus! {

broadcast use vstd::seq_lib::group_filter_ensures, Seq::filter_distributes_over_add,
    Seq::lemma_take_succ_push;

/// The index of the first snake in the list — the agent itself excluded, by
/// its head — whose body occupies `c` with a non-tail segment, scanning from
/// position `i` on.
pub open spec fn first_blocker_from(
    snakes: Seq<Battlesnake>,
    you_head: Coord,
    c: Coord,
    i: int,
) -> Option<int>
    decreases snakes.len() - i,
{
    if i < 0 || i >= snakes.len() {
        Option::None
    } else if snakes[i].head != you_head && blocks(snakes[i].body@, c) {
        Option::Some(i)
    } else {
        first_blocker_from(snakes, you_head, c, i + 1)
    }
}

/// The index of the first opposing snake occupying `c` with a non-tail
/// segment, if any.
pub open spec fn first_blocker(snakes: Seq<Battlesnake>, you_head: Coord, c: Coord) -> Option<
    int,
> {
    first_blocker_from(snakes, you_head, c, 0)
}

/// Moving to `c` wins a head-on collision: some 4-neighbour of `c` is
/// occupied by an opposing snake, that occupant's cell is exactly its head,
/// and the agent is strictly longer.
pub open spec fn winning_hit(board: Board, you: Battlesnake, c: Coord) -> bool {
    exists|k: int| 0 <= k < 4 && winning_hit_at(board, you, c, k)
}

/// The winning-collision condition at one particular neighbour `k` of `c`.
pub open spec fn winning_hit_at(board: Board, you: Battlesnake, c: Coord, k: int) -> bool {
    first_blocker(board.snakes@, you.head, neighbor(c, k)) matches Option::Some(j)
        && you.length > board.snakes@[j].length && board.snakes@[j].head == neighbor(c, k)
}

/// The index of the first candidate, in input order, whose destination wins
/// a head-on collision, scanning from position `i` on.
pub open spec fn recommend_idx_from(
    options: Seq<Direction>,
    board: Board,
    you: Battlesnake,
    i: int,
) -> Option<int>
    decreases options.len() - i,
{
    if i < 0 || i >= options.len() {
        Option::None
    } else if winning_hit(board, you, direction_coord(options[i])) {
        Option::Some(i)
    } else {
        recommend_idx_from(options, board, you, i + 1)
    }
}

/// The index of the first candidate whose destination wins a head-on
/// collision, if any.
pub open spec fn recommend_idx(options: Seq<Direction>, board: Board, you: Battlesnake) -> Option<
    int,
> {
    recommend_idx_from(options, board, you, 0)
}

/// No 4-neighbour of `c` is occupied by a non-tail segment of an opposing
/// snake.
pub open spec fn proximity_safe(board: Board, you: Battlesnake, c: Coord) -> bool {
    forall|k: int| 0 <= k < 4 ==> first_blocker(board.snakes@, you.head, #[trigger] neighbor(c, k)) is None
}

/// A direction is kept by the proximity filter when its destination touches
/// no opposing snake.
pub open spec fn safe_dir(board: Board, you: Battlesnake, d: Direction) -> bool {
    proximity_safe(board, you, direction_coord(d))
}

/// The proximity filter's result: the subsequence of the candidates, in their
/// original order, whose destinations touch no opposing snake.
pub open spec fn refined_spec(options: Seq<Direction>, board: Board, you: Battlesnake) -> Seq<
    Direction,
> {
    options.filter(|d: Direction| safe_dir(board, you, d))
}

proof fn lemma_first_blocker_props(snakes: Seq<Battlesnake>, you_head: Coord, c: Coord, i: int)
    requires
        0 <= i,
    ensures
        first_blocker_from(snakes, you_head, c, i) matches Option::Some(j) ==> i <= j
            < snakes.len() && snakes[j].head != you_head && blocks(snakes[j].body@, c),
        first_blocker_from(snakes, you_head, c, i) is None ==> forall|j: int|
            i <= j < snakes.len() ==> !((#[trigger] snakes[j]).head != you_head && blocks(
                snakes[j].body@,
                c,
            )),
    decreases snakes.len() - i,
{
    if i < snakes.len() {
        lemma_first_blocker_props(snakes, you_head, c, i + 1);
    }
}

/// Combat soundness, snake by snake: a winning hit at `c` exhibits an
/// opposing snake whose head occupies a 4-neighbour of `c` with a non-tail
/// segment and which is strictly shorter than the agent.
pub proof fn lemma_winning_hit_witness(board: Board, you: Battlesnake, c: Coord)
    requires
        winning_hit(board, you, c),
    ensures
        exists|k: int, s: int|
            #![trigger neighbor(c, k), board.snakes@[s]]
            0 <= k < 4 && 0 <= s < board.snakes@.len() && board.snakes@[s].head != you.head
                && blocks(board.snakes@[s].body@, neighbor(c, k)) && board.snakes@[s].head
                == neighbor(c, k) && you.length > board.snakes@[s].length,
{
    let k = choose|k: int| 0 <= k < 4 && winning_hit_at(board, you, c, k);
    lemma_first_blocker_props(board.snakes@, you.head, neighbor(c, k), 0);
    let j = choose|j: int|
        first_blocker(board.snakes@, you.head, neighbor(c, k)) == Option::Some(j);
    assert(0 <= k < 4 && 0 <= j < board.snakes@.len() && board.snakes@[j].head != you.head
        && blocks(board.snakes@[j].body@, neighbor(c, k)) && board.snakes@[j].head == neighbor(
        c,
        k,
    ) && you.length > board.snakes@[j].length);
}

/// Combat completeness, snake by snake: when no opposing snake offers the
/// winning geometry at any 4-neighbour of `c` — its head on that neighbour,
/// held by a non-tail segment, and strictly shorter than the agent — no
/// winning hit exists at `c`.
pub proof fn lemma_no_winning_hit(board: Board, you: Battlesnake, c: Coord)
    requires
        forall|k: int, s: int|
            #![trigger neighbor(c, k), board.snakes@[s]]
            (0 <= k < 4 && 0 <= s < board.snakes@.len() && board.snakes@[s].head != you.head
                && blocks(board.snakes@[s].body@, neighbor(c, k))) ==> (you.length
                <= board.snakes@[s].length || board.snakes@[s].head != neighbor(c, k)),
    ensures
        !winning_hit(board, you, c),
{
    assert forall|k: int| 0 <= k < 4 implies !winning_hit_at(board, you, c, k) by {
        lemma_first_blocker_props(board.snakes@, you.head, neighbor(c, k), 0);
    }
}

/// No candidate with a winning hit means no recommendation at all.
pub proof fn lemma_recommend_none(options: Seq<Direction>, board: Board, you: Battlesnake)
    requires
        forall|i: int|
            0 <= i < options.len() ==> !winning_hit(
                board,
                you,
                direction_coord(#[trigger] options[i]),
            ),
    ensures
        recommend_idx(options, board, you) is None,
{
    lemma_recommend_none_from(options, board, you, 0);
}

proof fn lemma_recommend_none_from(options: Seq<Direction>, board: Board, you: Battlesnake, i: int)
    requires
        0 <= i,
        forall|t: int|
            i <= t < options.len() ==> !winning_hit(
                board,
                you,
                direction_coord(#[trigger] options[t]),
            ),
    ensures
        recommend_idx_from(options, board, you, i) is None,
    decreases options.len() - i,
{
    if i < options.len() {
        lemma_recommend_none_from(options, board, you, i + 1);
    }
}

/// What proximity safety means snake by snake: no 4-neighbour of `c` is
/// occupied, with a non-tail segment, by any snake other than the agent.
pub proof fn lemma_proximity_safe_iff(board: Board, you: Battlesnake, c: Coord)
    ensures
        proximity_safe(board, you, c) <==> forall|k: int, s: int|
            #![trigger neighbor(c, k), board.snakes@[s]]
            (0 <= k < 4 && 0 <= s < board.snakes@.len()) ==> !(board.snakes@[s].head != you.head
                && blocks(board.snakes@[s].body@, neighbor(c, k))),
{
    assert forall|k: int| 0 <= k < 4 implies (first_blocker(
        board.snakes@,
        you.head,
        #[trigger] neighbor(c, k),
    ) is None <==> forall|s: int|
        0 <= s < board.snakes@.len() ==> !((#[trigger] board.snakes@[s]).head != you.head
            && blocks(board.snakes@[s].body@, neighbor(c, k)))) by {
        lemma_first_blocker_props(board.snakes@, you.head, neighbor(c, k), 0);
        if forall|s: int|
            0 <= s < board.snakes@.len() ==> !((#[trigger] board.snakes@[s]).head != you.head
                && blocks(board.snakes@[s].body@, neighbor(c, k))) {
            lemma_first_blocker_none(board.snakes@, you.head, neighbor(c, k), 0);
        }
    }
}

proof fn lemma_first_blocker_none(snakes: Seq<Battlesnake>, you_head: Coord, c: Coord, i: int)
    requires
        0 <= i,
        forall|j: int|
            i <= j < snakes.len() ==> !((#[trigger] snakes[j]).head != you_head && blocks(
                snakes[j].body@,
                c,
            )),
    ensures
        first_blocker_from(snakes, you_head, c, i) is None,
    decreases snakes.len() - i,
{
    if i < snakes.len() {
        lemma_first_blocker_none(snakes, you_head, c, i + 1);
    }
}

/// The first opposing snake — any snake whose head differs from the agent's —
/// whose body occupies `point` with a non-tail segment, as a fresh copy.
pub fn get_snake(point: &Coord, board: &Board, you: &Battlesnake) -> (r: Option<Battlesnake>)
    requires
        snakes_wf(*board),
    ensures
        ({
            let fb = first_blocker(board.snakes@, you.head, *point);
            match r {
                Option::Some(s) => fb matches Option::Some(j) && s@ == board.snakes@[j]@,
                Option::None => fb is None,
            }
        }),
{
    let ghost snakes = board.snakes@;
    let mut i: usize = 0;
    while i < board.snakes.len()
        invariant
            snakes_wf(*board),
            snakes == board.snakes@,
            i <= snakes.len(),
            first_blocker(snakes, you.head, *point) == first_blocker_from(
                snakes,
                you.head,
                *point,
                i as int,
            ),
        decreases snakes.len() - i,
    {
        let enemy = &board.snakes[i];
        if !(enemy.head == you.head) {
            if segment_hits(enemy, point) {
                return Option::Some(enemy.clone());
            }
        }
        i = i + 1;
    }
    Option::None
}

/// Whether a non-tail segment of this snake's body occupies `point`.
fn segment_hits(snake: &Battlesnake, point: &Coord) -> (r: bool)
    requires
        snake.body@.len() >= 1,
    ensures
        r == blocks(snake.body@, *point),
{
    let end: usize = snake.body.len() - 1;
    let mut i: usize = 0;
    while i < end
        invariant
            end == snake.body@.len() - 1,
            i <= end,
            forall|j: int| 0 <= j < i ==> snake.body@[j] != *point,
        decreases end - i,
    {
        if snake.body[i] == *point {
            return true;
        }
        i = i + 1;
    }
    false
}

/// The snakes of the list other than the agent, recognised by their heads,
/// in their original order, as fresh copies.
pub fn remove_you_from_snakes(you: &Battlesnake, snakes: &Vec<Battlesnake>) -> (r: Vec<
    Battlesnake,
>)
    ensures
        r@.map_values(|s: Battlesnake| s@) == snakes@.map_values(|s: Battlesnake| s@).filter(
            |sv: SnakeView| sv.head != you.head,
        ),
{
    let ghost to_view = |s: Battlesnake| s@;
    let ghost pred = |sv: SnakeView| sv.head != you.head;
    let mut r: Vec<Battlesnake> = Vec::new();
    let mut i: usize = 0;
    while i < snakes.len()
        invariant
            i <= snakes@.len(),
            to_view == (|s: Battlesnake| s@),
            pred == (|sv: SnakeView| sv.head != you.head),
            r@.map_values(to_view) == snakes@.take(i as int).map_values(to_view).filter(pred),
        decreases snakes@.len() - i,
    {
        let snake = &snakes[i];
        proof {
            assert(snakes@.take(i + 1) == snakes@.take(i as int).push(snakes@[i as int]));
            assert(snakes@.take(i + 1).map_values(to_view) =~= snakes@.take(i as int).map_values(
                to_view,
            ) + seq![snakes@[i as int]@]);
            reveal_with_fuel(Seq::filter, 3);
            assert(seq![snakes@[i as int]@].drop_last() =~= Seq::<SnakeView>::empty());
        }
        if !(snake.head == you.head) {
            let copied = snake.clone();
            r.push(copied);
            proof {
                assert(r@.map_values(to_view) =~= snakes@.take(i + 1).map_values(to_view).filter(
                    pred,
                ));
            }
        }
        i = i + 1;
    }
    proof {
        assert(snakes@.take(snakes@.len() as int) =~= snakes@);
    }
    r
}

/// The first candidate, in caller-supplied order, whose destination wins a
/// head-on collision against a strictly shorter opposing snake, if any.
pub fn recommend_move<'a>(options: &'a Vec<Direction>, you: &Battlesnake, board: &Board) -> (r:
    Option<&'a Direction>)
    requires
        snakes_wf(*board),
        dims_ok(*board),
        forall|i: int|
            0 <= i < options@.len() ==> in_bounds(*board, direction_coord(#[trigger] options@[i])),
    ensures
        ({
            let ri = recommend_idx(options@, *board, *you);
            match r {
                Option::Some(d) => ri matches Option::Some(j) && *d == options@[j],
                Option::None => ri is None,
            }
        }),
{
    let mut i: usize = 0;
    while i < options.len()
        invariant
            snakes_wf(*board),
            dims_ok(*board),
            forall|t: int|
                0 <= t < options@.len() ==> in_bounds(
                    *board,
                    direction_coord(#[trigger] options@[t]),
                ),
            i <= options@.len(),
            recommend_idx(options@, *board, *you) == recommend_idx_from(
                options@,
                *board,
                *you,
                i as int,
            ),
        decreases options@.len() - i,
    {
        let dest = *options[i].get_coord();
        if let Option::Some(k) = winning_neighbor(&dest, board, you) {
            proof {
                assert(winning_hit(*board, *you, direction_coord(options@[i as int])));
            }
            return Option::Some(&options[i]);
        }
        i = i + 1;
    }
    Option::None
}

/// The first of the four neighbours of `c` where a winning head-on collision
/// is available, if any; `None` exactly when moving to `c` wins nothing.
fn winning_neighbor(c: &Coord, board: &Board, you: &Battlesnake) -> (r: Option<usize>)
    requires
        snakes_wf(*board),
        dims_ok(*board),
        in_bounds(*board, *c),
    ensures
        ({
            match r {
                Option::Some(k) => k < 4 && winning_hit_at(*board, *you, *c, k as int),
                Option::None => !winning_hit(*board, *you, *c),
            }
        }),
{
    let x: i32 = c.x;
    let y: i32 = c.y;
    let mut k: usize = 0;
    while k < 4
        invariant
            snakes_wf(*board),
            dims_ok(*board),
            in_bounds(*board, *c),
            x == c.x,
            y == c.y,
            k <= 4,
            forall|t: int| 0 <= t < k ==> !winning_hit_at(*board, *you, *c, t),
        decreases 4 - k,
    {
        let possible_enemy = if k == 0 {
            Coord::new(x, y + 1)
        } else if k == 1 {
            Coord::new(x + 1, y)
        } else if k == 2 {
            Coord::new(x, y - 1)
        } else {
            Coord::new(x - 1, y)
        };
        proof {
            assert(possible_enemy == neighbor(*c, k as int));
        }
        let enemy = get_snake(&possible_enemy, board, you);
        if let Option::Some(snake) = enemy {
            if you.length > snake.length && snake.head == possible_enemy {
                return Option::Some(k);
            }
        }
        k = k + 1;
    }
    Option::None
}

/// Whether the destination touches no opposing snake: every 4-neighbour of
/// `next_movement` is free of non-tail segments of snakes other than the
/// agent.
pub fn avoid_loser_hits(next_movement: &Coord, board: &Board, you: &Battlesnake) -> (r: bool)
    requires
        snakes_wf(*board),
        dims_ok(*board),
        in_bounds(*board, *next_movement),
    ensures
        r == proximity_safe(*board, *you, *next_movement),
{
    let x: i32 = next_movement.x;
    let y: i32 = next_movement.y;
    let mut k: usize = 0;
    while k < 4
        invariant
            snakes_wf(*board),
            dims_ok(*board),
            in_bounds(*board, *next_movement),
            x == next_movement.x,
            y == next_movement.y,
            k <= 4,
            forall|t: int|
                0 <= t < k ==> first_blocker(
                    board.snakes@,
                    you.head,
                    #[trigger] neighbor(*next_movement, t),
                ) is None,
        decreases 4 - k,
    {
        let possible_enemy = if k == 0 {
            Coord::new(x, y + 1)
        } else if k == 1 {
            Coord::new(x + 1, y)
        } else if k == 2 {
            Coord::new(x, y - 1)
        } else {
            Coord::new(x - 1, y)
        };
        proof {
            assert(possible_enemy == neighbor(*next_movement, k as int));
        }
        let enemy = get_snake(&possible_enemy, board, you);
        if enemy.is_some() {
            return false;
        }
        k = k + 1;
    }
    true
}

/// The candidates whose destinations touch no opposing snake, in their
/// original order. Every returned direction is one of the inputs.
pub fn refined_movements(options: &Vec<Direction>, board: &Board, you: &Battlesnake) -> (r: Vec<
    Direction,
>)
    requires
        snakes_wf(*board),
        dims_ok(*board),
        forall|i: int|
            0 <= i < options@.len() ==> in_bounds(*board, direction_coord(#[trigger] options@[i])),
    ensures
        r@ == refined_spec(options@, *board, *you),
        forall|i: int| 0 <= i < r@.len() ==> options@.contains(#[trigger] r@[i]),
{
    let ghost pred = |d: Direction| safe_dir(*board, *you, d);
    let mut r: Vec<Direction> = Vec::new();
    let mut i: usize = 0;
    while i < options.len()
        invariant
            snakes_wf(*board),
            dims_ok(*board),
            forall|t: int|
                0 <= t < options@.len() ==> in_bounds(
                    *board,
                    direction_coord(#[trigger] options@[t]),
                ),
            i <= options@.len(),
            pred == (|d: Direction| safe_dir(*board, *you, d)),
            r@ == options@.take(i as int).filter(pred),
            forall|t: int| 0 <= t < r@.len() ==> options@.contains(#[trigger] r@[t]),
        decreases options@.len() - i,
    {
        let opt = options[i];
        proof {
            assert(options@.take(i + 1) == options@.take(i as int).push(options@[i as int]));
            assert(options@.take(i as int).push(options@[i as int]) =~= options@.take(i as int)
                + seq![options@[i as int]]);
            reveal_with_fuel(Seq::filter, 3);
            assert(seq![options@[i as int]].drop_last() =~= Seq::<Direction>::empty());
        }
        if avoid_loser_hits(opt.get_coord(), board, you) {
            r.push(opt);
            proof {
                assert(options@.contains(options@[i as int]));
            }
        }
        i = i + 1;
    }
    proof {
        assert(options@.take(options@.len() as int) =~= options@);
    }
    r
}

/// Proximity filter exactness: every kept candidate touches no opposing
/// snake, every untouched candidate is kept, and nothing new appears.
pub proof fn lemma_refined_exact(options: Seq<Direction>, board: Board, you: Battlesnake)
    ensures
        forall|i: int|
            0 <= i < refined_spec(options, board, you).len() ==> safe_dir(
                board,
                you,
                #[trigger] refined_spec(options, board, you)[i],
            ),
        forall|i: int|
            0 <= i < options.len() && safe_dir(board, you, #[trigger] options[i]) ==> refined_spec(
                options,
                board,
                you,
            ).contains(options[i]),
        refined_spec(options, board, you).len() <= options.len(),
{
    let pred = |d: Direction| safe_dir(board, you, d);
    assert forall|i: int| 0 <= i < refined_spec(options, board, you).len() implies safe_dir(
        board,
        you,
        #[trigger] refined_spec(options, board, you)[i],
    ) by {
        options.lemma_filter_pred(pred, i);
    }
    assert forall|i: int|
        0 <= i < options.len() && safe_dir(board, you, #[trigger] options[i]) implies refined_spec(
        options,
        board,
        you,
    ).contains(options[i]) by {
        options.lemma_filter_contains(pred, i);
    }
    options.lemma_filter_len(pred);
}

} // verus!
