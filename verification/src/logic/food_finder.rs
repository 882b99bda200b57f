//! Breadth-first search toward the nearest food. Each search node carries its
//! own simulated copy of the agent's body, advanced one step per expansion,
//! so that self-collision rules stay correct along multi-step paths.
//! Opposing snakes are treated as static obstacles for the whole search.

use std::collections::VecDeque;

use vstd::prelude::*;

use crate::domain::{
    area_ok, copy_coords, dims_ok, direction_coord, in_bounds, snakes_wf, Battlesnake, Board, Coord, Direction,
};
use crate::logic::move_validator::{get_valid_moves, legal_dir, lemma_valid_moves_sound, sim_moves};

verus! {

/// A simulated body during the search: the ordered segments and their head.
struct State {
    body: Vec<Coord>,
    head: Coord,
}

impl State {
    fn new(body: Vec<Coord>) -> (s: State)
        requires
            body@.len() >= 1,
        ensures
            s.body@ == body@,
            s.head == body@[0],
    {
        let head = body[0];
        State { body, head }
    }
}

/// One search node: the direction that produced it (carrying the node's cell)
/// and the simulated body after taking that step.
struct Step {
    dir: Direction,
    state: State,
}

impl Step {
    fn new(dir: Direction, state: State) -> (s: Step)
        ensures
            s.dir == dir,
            s.state == state,
    {
        Step { dir, state }
    }

    /// Advance the simulated snake one step: prepend the destination of
    /// `next_step`, drop the old tail.
    fn walk(&self, next_step: Direction) -> (s: Step)
        requires
            self.state.body@.len() >= 1,
        ensures
            s.dir == next_step,
            s.state.head == direction_coord(next_step),
            s.state.body@ == seq![direction_coord(next_step)] + self.state.body@.drop_last(),
            s.state.body@.len() == self.state.body@.len(),
    {
        let mut new_body: Vec<Coord> = Vec::new();
        new_body.push(*next_step.get_coord());
        let end: usize = self.state.body.len() - 1;
        let mut i: usize = 0;
        while i < end
            invariant
                end == self.state.body@.len() - 1,
                i <= end,
                new_body@ == seq![direction_coord(next_step)] + self.state.body@.take(i as int),
            decreases end - i,
        {
            new_body.push(self.state.body[i]);
            proof {
                assert(self.state.body@.take(i + 1) =~= self.state.body@.take(i as int).push(
                    self.state.body@[i as int],
                ));
                assert(seq![direction_coord(next_step)] + self.state.body@.take(i + 1) =~= (
                seq![direction_coord(next_step)] + self.state.body@.take(i as int)).push(
                    self.state.body@[i as int],
                ));
            }
            i = i + 1;
        }
        proof {
            assert(self.state.body@.take(end as int) =~= self.state.body@.drop_last());
        }
        Step::new(next_step, State::new(new_body))
    }
}

/// The per-search predecessor table: one optional coordinate per cell of the
/// board, used both as a visited set and to trace a found cell back to the
/// seed candidate it descends from.
struct SearchGrid {
    width: usize,
    height: usize,
    cells: Vec<Option<Coord>>,
}

/// The row-major position of a coordinate in a table of the given width.
pub open spec fn grid_index(w: int, c: Coord) -> int {
    (c.y as int) * w + (c.x as int)
}

/// The entry stored for a coordinate in a row-major table.
pub open spec fn grid_cell(cells: Seq<Option<Coord>>, w: int, c: Coord) -> Option<Coord> {
    cells[grid_index(w, c)]
}

/// The coordinate addresses a cell of a table with the given dimensions.
pub open spec fn grid_has(w: int, h: int, c: Coord) -> bool {
    &&& c.x >= 0
    &&& (c.x as int) < w
    &&& c.y >= 0
    &&& (c.y as int) < h
}

/// A table of unmarked cells.
pub open spec fn blank_cells(len: int) -> Seq<Option<Coord>> {
    Seq::new(len as nat, |q: int| Option::<Coord>::None)
}

impl SearchGrid {
    /// One cell per board coordinate.
    spec fn wf(self) -> bool {
        self.cells@.len() == self.width * self.height
    }

    /// The coordinate addresses a cell of this table.
    spec fn in_grid(self, c: Coord) -> bool {
        grid_has(self.width as int, self.height as int, c)
    }

    /// The row-major position of a coordinate.
    spec fn idx(self, c: Coord) -> int {
        grid_index(self.width as int, c)
    }

    /// The entry stored for a coordinate.
    spec fn cell(self, c: Coord) -> Option<Coord> {
        grid_cell(self.cells@, self.width as int, c)
    }

    fn new(width: usize, height: usize) -> (g: SearchGrid)
        requires
            (width as int) * (height as int) <= (i32::MAX as int),
        ensures
            g.wf(),
            g.width == width,
            g.height == height,
            forall|i: int| 0 <= i < g.cells@.len() ==> (#[trigger] g.cells@[i]) is None,
    {
        let total: usize = width * height;
        let mut cells: Vec<Option<Coord>> = Vec::new();
        while cells.len() < total
            invariant
                cells@.len() <= total,
                forall|i: int| 0 <= i < cells@.len() ==> (#[trigger] cells@[i]) is None,
            decreases total - cells@.len(),
        {
            cells.push(Option::None);
        }
        SearchGrid { width, height, cells }
    }

    proof fn lemma_idx_bounds(self, c: Coord)
        requires
            self.wf(),
            self.in_grid(c),
        ensures
            0 <= self.idx(c) < self.cells@.len(),
    {
        let x: int = c.x as int;
        let y: int = c.y as int;
        let w: int = self.width as int;
        let h: int = self.height as int;
        assert(0 <= y * w + x < h * w) by (nonlinear_arith)
            requires
                0 <= x < w,
                0 <= y < h,
        ;
        assert(h * w == w * h) by (nonlinear_arith);
    }

    /// Distinct cells of the table have distinct row-major positions.
    proof fn lemma_idx_injective(self, c1: Coord, c2: Coord)
        requires
            self.in_grid(c1),
            self.in_grid(c2),
            self.idx(c1) == self.idx(c2),
        ensures
            c1 == c2,
    {
        let x1: int = c1.x as int;
        let y1: int = c1.y as int;
        let x2: int = c2.x as int;
        let y2: int = c2.y as int;
        let w: int = self.width as int;
        assert(x1 == x2 && y1 == y2) by (nonlinear_arith)
            requires
                y1 * w + x1 == y2 * w + x2,
                0 <= x1 < w,
                0 <= x2 < w,
                0 <= y1,
                0 <= y2,
        ;
    }

    /// Storing into one cell leaves every other cell's entry unchanged.
    proof fn lemma_set_preserves_other(old_g: SearchGrid, new_g: SearchGrid, c: Coord, v: Coord, other: Coord)
        requires
            old_g.wf(),
            old_g.in_grid(c),
            old_g.in_grid(other),
            new_g.width == old_g.width,
            new_g.height == old_g.height,
            new_g.cells@ == old_g.cells@.update(old_g.idx(c), Option::Some(v)),
            other != c,
        ensures
            new_g.cell(other) == old_g.cell(other),
    {
        old_g.lemma_idx_bounds(c);
        old_g.lemma_idx_bounds(other);
        if old_g.idx(other) == old_g.idx(c) {
            old_g.lemma_idx_injective(other, c);
        }
    }

    fn get(&self, c: &Coord) -> (r: Option<Coord>)
        requires
            self.wf(),
            self.in_grid(*c),
        ensures
            r == self.cell(*c),
    {
        // Reading the length brings the vector's length bound into scope for
        // the index arithmetic below.
        let _len: usize = self.cells.len();
        proof {
            self.lemma_idx_bounds(*c);
            assert(((c.y as usize) as int) == (c.y as int));
            assert(((c.x as usize) as int) == (c.x as int));
        }
        let i: usize = (c.y as usize) * self.width + (c.x as usize);
        self.cells[i]
    }

    fn set(&mut self, c: &Coord, v: Coord)
        requires
            old(self).wf(),
            old(self).in_grid(*c),
        ensures
            final(self).wf(),
            final(self).width == old(self).width,
            final(self).height == old(self).height,
            final(self).cells@ == old(self).cells@.update(old(self).idx(*c), Option::Some(v)),
    {
        // Reading the length brings the vector's length bound into scope for
        // the index arithmetic below.
        let _len: usize = self.cells.len();
        proof {
            self.lemma_idx_bounds(*c);
            assert(((c.y as usize) as int) == (c.y as int));
            assert(((c.x as usize) as int) == (c.x as int));
        }
        let i: usize = (c.y as usize) * self.width + (c.x as usize);
        self.cells.set(i, Option::Some(v));
    }
}

/// The off-board marker stored at the agent's head cell, the root of every
/// predecessor chain.
pub open spec fn is_root_marker(c: Coord) -> bool {
    c.x == -1 && c.y == -1
}

/// Whether the coordinate holds food.
pub fn is_food(position: &Coord, food: &[Coord]) -> (r: bool)
    ensures
        r == food@.contains(*position),
{
    let mut i: usize = 0;
    while i < food.len()
        invariant
            i <= food@.len(),
            forall|j: int| 0 <= j < i ==> food@[j] != *position,
        decreases food@.len() - i,
    {
        if food[i] == *position {
            return true;
        }
        i = i + 1;
    }
    false
}

/// The cell a predecessor chain reaches after at most `fuel` hops: follow
/// stored predecessors from `cur` until the entry under the cursor is the
/// root marker (the cursor is then the cell adjacent to the root, and the
/// previous cursor is returned), or until the chain leaves the table, ends in
/// an unmarked cell, or runs out of fuel.
pub open spec fn track_from(
    cells: Seq<Option<Coord>>,
    w: int,
    h: int,
    prev: Coord,
    cur: Coord,
    fuel: nat,
) -> Coord
    decreases fuel,
{
    if fuel == 0 {
        prev
    } else if !grid_has(w, h, cur) {
        prev
    } else {
        match grid_cell(cells, w, cur) {
            Option::None => prev,
            Option::Some(nxt) => if is_root_marker(nxt) {
                prev
            } else {
                track_from(cells, w, h, cur, nxt, (fuel - 1) as nat)
            },
        }
    }
}

/// Trace a marked cell back along predecessor pointers to the cell that is
/// directly adjacent to the root sentinel: the destination of the seed
/// candidate the chain descends from.
fn track_path(grid: &SearchGrid, last_coord: &Coord) -> (r: Coord)
    requires
        grid.wf(),
        grid.in_grid(*last_coord),
    ensures
        ({
            match grid.cell(*last_coord) {
                Option::None => r == *last_coord,
                Option::Some(c0) => r == track_from(
                    grid.cells@,
                    grid.width as int,
                    grid.height as int,
                    *last_coord,
                    c0,
                    (grid.width * grid.height) as nat,
                ),
            }
        }),
{
    let mut prev = *last_coord;
    let mut cur = match grid.get(last_coord) {
        Option::None => {
            return *last_coord;
        },
        Option::Some(c) => c,
    };
    let mut fuel: usize = grid.cells.len();
    let ghost fuel0: nat = fuel as nat;
    proof {
        assert(fuel0 == (grid.width * grid.height) as nat);
    }
    let ghost prev0 = prev;
    let ghost cur0 = cur;
    while fuel > 0
        invariant
            grid.wf(),
            track_from(grid.cells@, grid.width as int, grid.height as int, prev0, cur0, fuel0)
                == track_from(grid.cells@, grid.width as int, grid.height as int, prev, cur, fuel as nat),
        ensures
            track_from(grid.cells@, grid.width as int, grid.height as int, prev0, cur0, fuel0) == prev,
        decreases fuel,
    {
        let in_range = cur.x >= 0 && (cur.x as usize) < grid.width && cur.y >= 0 && (cur.y
            as usize) < grid.height;
        if !in_range {
            break;
        }
        match grid.get(&cur) {
            Option::None => {
                break;
            },
            Option::Some(nxt) => {
                if nxt.x == -1 && nxt.y == -1 {
                    break;
                }
                prev = cur;
                cur = nxt;
            },
        }
        fuel = fuel - 1;
    }
    prev
}

/// A queued node is sound: its direction's destination is its simulated head,
/// lies inside the board, and its body is non-empty.
spec fn step_ok(board: Board, s: Step) -> bool {
    &&& s.state.head == direction_coord(s.dir)
    &&& in_bounds(board, direction_coord(s.dir))
    &&& s.state.body@.len() >= 1
}

/// The index of the first candidate whose destination already holds food,
/// scanning from position `i` on.
pub open spec fn first_food_idx_from(options: Seq<Direction>, food: Seq<Coord>, i: int) -> Option<
    int,
>
    decreases options.len() - i,
{
    if i < 0 || i >= options.len() {
        Option::None
    } else if food.contains(direction_coord(options[i])) {
        Option::Some(i)
    } else {
        first_food_idx_from(options, food, i + 1)
    }
}

/// The index of the first candidate whose destination already holds food.
pub open spec fn first_food_idx(options: Seq<Direction>, food: Seq<Coord>) -> Option<int> {
    first_food_idx_from(options, food, 0)
}

proof fn lemma_first_food_idx_props(options: Seq<Direction>, food: Seq<Coord>, i: int)
    requires
        0 <= i,
    ensures
        first_food_idx_from(options, food, i) matches Option::Some(f) ==> i <= f < options.len()
            && food.contains(direction_coord(options[f])) && forall|j: int|
            i <= j < f ==> !food.contains(direction_coord(#[trigger] options[j])),
        first_food_idx_from(options, food, i) is None ==> forall|j: int|
            i <= j < options.len() ==> !food.contains(direction_coord(#[trigger] options[j])),
    decreases options.len() - i,
{
    if i < options.len() {
        lemma_first_food_idx_props(options, food, i + 1);
    }
}

/// The root sentinel value stored at the agent's head cell.
pub open spec fn root_marker() -> Coord {
    Coord { x: -1i32, y: -1i32 }
}

/// A spec-level search node: the direction that produced it (carrying the
/// node's cell) and the simulated body after taking that step.
pub struct SimNode {
    pub dir: Direction,
    pub body: Seq<Coord>,
}

/// A body advanced one step: the destination prepended, the old tail dropped.
pub open spec fn walk_body(dest: Coord, body: Seq<Coord>) -> Seq<Coord> {
    seq![dest] + body.drop_last()
}

/// The model of one queued node.
spec fn node_of(s: Step) -> SimNode {
    SimNode { dir: s.dir, body: s.state.body@ }
}

/// The model of the whole queue.
spec fn queue_model(q: Seq<Step>) -> Seq<SimNode> {
    q.map_values(|s: Step| node_of(s))
}

/// The seed nodes: one advanced copy of the agent per candidate, in candidate
/// order.
pub open spec fn seed_nodes(options: Seq<Direction>, body: Seq<Coord>) -> Seq<SimNode> {
    options.map_values(
        |d: Direction| SimNode { dir: d, body: walk_body(direction_coord(d), body) },
    )
}

/// The seed markings: each candidate's destination in turn is marked as
/// reached from the root, where not already marked.
pub open spec fn seed_marks(
    cells: Seq<Option<Coord>>,
    w: int,
    head: Coord,
    options: Seq<Direction>,
    i: int,
) -> Seq<Option<Coord>>
    decreases options.len() - i,
{
    if i < 0 || i >= options.len() {
        cells
    } else {
        let dest = direction_coord(options[i]);
        let cells2 = if grid_cell(cells, w, dest) is None {
            cells.update(grid_index(w, dest), Option::Some(head))
        } else {
            cells
        };
        seed_marks(cells2, w, head, options, i + 1)
    }
}

/// One node's expansion: each legal onward move in turn, where its destination
/// is unmarked, marks that destination with the node's cell and enqueues the
/// advanced node.
pub open spec fn expand_from(
    cells: Seq<Option<Coord>>,
    w: int,
    queue: Seq<SimNode>,
    from: Coord,
    body: Seq<Coord>,
    moves: Seq<Direction>,
    k: int,
) -> (Seq<Option<Coord>>, Seq<SimNode>)
    decreases moves.len() - k,
{
    if k < 0 || k >= moves.len() {
        (cells, queue)
    } else {
        let dest = direction_coord(moves[k]);
        if grid_cell(cells, w, dest) is None {
            expand_from(
                cells.update(grid_index(w, dest), Option::Some(from)),
                w,
                queue.push(SimNode { dir: moves[k], body: walk_body(dest, body) }),
                from,
                body,
                moves,
                k + 1,
            )
        } else {
            expand_from(cells, w, queue, from, body, moves, k + 1)
        }
    }
}

/// The search loop, step-indexed by `fuel`: pop the first node; if its cell
/// holds food, stop there; otherwise expand it by the legality rule against
/// its own simulated body and recurse. Returns the found cell (or the
/// untouched fallback) together with the final predecessor table.
pub open spec fn bfs_from(
    board: Board,
    queue: Seq<SimNode>,
    cells: Seq<Option<Coord>>,
    w: int,
    last: Coord,
    fuel: nat,
) -> (Coord, Seq<Option<Coord>>)
    decreases fuel,
{
    if fuel == 0 {
        (last, cells)
    } else if queue.len() == 0 {
        (last, cells)
    } else {
        let node = queue[0];
        let c = direction_coord(node.dir);
        if board.food@.contains(c) {
            (c, cells)
        } else {
            let moves = sim_moves(board, c, node.body);
            let ex = expand_from(cells, w, queue.drop_first(), c, node.body, moves, 0);
            bfs_from(board, ex.1, ex.0, w, last, (fuel - 1) as nat)
        }
    }
}

/// The first candidate whose destination equals the traced-back cell,
/// scanning from position `j` on; the first candidate when none matches.
pub open spec fn pick_option(options: Seq<Direction>, target: Coord, j: int) -> Direction
    decreases options.len() - j,
{
    if j < 0 || j >= options.len() {
        options[0]
    } else if direction_coord(options[j]) == target {
        options[j]
    } else {
        pick_option(options, target, j + 1)
    }
}

/// The functional model of the pathfinder: seed the queue and the predecessor
/// table from the candidates, run the first-in-first-out search, trace the
/// resulting cell back to the seed destination it descends from, and return
/// the first candidate carrying that destination.
pub open spec fn next_step_spec(board: Board, you: Battlesnake, options: Seq<Direction>) -> Direction {
    let w = board.width as int;
    let h = board.height as int;
    let cells1 = blank_cells(w * h).update(grid_index(w, you.head), Option::Some(root_marker()));
    let cells2 = seed_marks(cells1, w, you.head, options, 0);
    let seeds = seed_nodes(options, you.body@);
    let fuel = (w * h + options.len()) as nat;
    let bres = bfs_from(board, seeds, cells2, w, direction_coord(options[0]), fuel);
    let target = match grid_cell(bres.1, w, bres.0) {
        Option::None => bres.0,
        Option::Some(c0) => track_from(bres.1, w, h, bres.0, c0, (w * h) as nat),
    };
    pick_option(options, target, 0)
}

/// Among the caller-supplied candidates, the direction that begins the
/// shortest simulated path to the nearest food cell, found by breadth-first
/// search; the first candidate when no food is reachable. The result is one
/// of the candidates and equals the functional model `next_step_spec`
/// exactly; in particular, when some candidate's destination already holds
/// food the first such candidate is returned, and with no food on the board
/// the first candidate is.
pub fn get_next_step(board: &Board, you: &Battlesnake, options: &Vec<Direction>) -> (r: Direction)
    requires
        dims_ok(*board),
        area_ok(*board),
        snakes_wf(*board),
        you.body@.len() >= 1,
        in_bounds(*board, you.head),
        options@.len() >= 1,
        options@.len() <= 0x7FFF_FFFF,
        forall|i: int|
            0 <= i < options@.len() ==> in_bounds(*board, direction_coord(#[trigger] options@[i])),
    ensures
        options@.contains(r),
        r == next_step_spec(*board, *you, options@),
        first_food_idx(options@, board.food@) matches Option::Some(f) ==> r == options@[f],
        board.food@.len() == 0 ==> r == options@[0],
{
    let ghost n: int = options@.len() as int;
    let ghost fopt = first_food_idx(options@, board.food@);
    let ghost f: int = match fopt {
        Option::Some(v) => v,
        Option::None => options@.len() as int,
    };
    proof {
        lemma_first_food_idx_props(options@, board.food@, 0);
    }

    let w: usize = board.width as usize;
    let h: usize = board.height as usize;
    let ghost wi: int = w as int;
    let ghost hi: int = h as int;
    let mut path = SearchGrid::new(w, h);
    let ghost g0 = path;
    proof {
        assert(path.in_grid(you.head));
    }
    path.set(&you.head, Coord::new(-1, -1));
    let ghost cells1 = blank_cells(wi * hi).update(
        grid_index(wi, you.head),
        Option::Some(root_marker()),
    );
    proof {
        g0.lemma_idx_bounds(you.head);
        assert(g0.cells@ =~= blank_cells(wi * hi));
        assert(path.cells@ == cells1);
        assert(path.cell(you.head) == Option::Some(Coord { x: -1i32, y: -1i32 }));
        assert forall|c: Coord|
            (path.in_grid(c) && (#[trigger] path.cell(c)) is Some && c != you.head)
                implies path.cell(c) == Option::Some(you.head) by {
            g0.lemma_idx_bounds(c);
            if g0.idx(c) == g0.idx(you.head) {
                g0.lemma_idx_injective(c, you.head);
            }
        }
    }

    // Seed the queue with one advanced copy of the agent per candidate, and
    // mark each seed's destination as reached from the root.
    let mut queue: VecDeque<Step> = VecDeque::new();
    proof {
        assert(queue_model(queue@) =~= seed_nodes(options@, you.body@).take(0));
    }
    let mut i: usize = 0;
    while i < options.len()
        invariant
            dims_ok(*board),
            snakes_wf(*board),
            you.body@.len() >= 1,
            in_bounds(*board, you.head),
            n == options@.len() as int,
            forall|t: int|
                0 <= t < options@.len() ==> in_bounds(
                    *board,
                    direction_coord(#[trigger] options@[t]),
                ),
            i <= options@.len(),
            path.wf(),
            path.width == w,
            path.height == h,
            w == board.width as usize,
            h == board.height as usize,
            wi == w as int,
            hi == h as int,
            queue@.len() == i as int,
            forall|t: int| 0 <= t < queue@.len() ==> step_ok(*board, #[trigger] queue@[t]),
            forall|t: int| 0 <= t < i ==> (#[trigger] queue@[t]).dir == options@[t],
            queue_model(queue@) == seed_nodes(options@, you.body@).take(i as int),
            seed_marks(path.cells@, wi, you.head, options@, i as int) == seed_marks(
                cells1,
                wi,
                you.head,
                options@,
                0,
            ),
            path.cell(you.head) matches Option::Some(m) && is_root_marker(m),
            forall|c: Coord|
                (path.in_grid(c) && (#[trigger] path.cell(c)) is Some && c != you.head)
                    ==> path.cell(c) == Option::Some(you.head),
            forall|t: int|
                0 <= t < i ==> (#[trigger] path.cell(direction_coord(options@[t]))) is Some,
        decreases options@.len() - i,
    {
        let d = options[i];
        let seed = Step::new(d, State::new(copy_coords(&you.body)));
        let step = seed.walk(d);
        let dest = *d.get_coord();
        proof {
            assert(path.in_grid(dest));
        }
        let ghost path_before = path;
        if path.get(&dest).is_none() {
            path.set(&dest, Coord::new(you.head.x, you.head.y));
            proof {
                path_before.lemma_idx_bounds(dest);
                assert(path.cell(dest) == Option::Some(you.head));
                assert(dest != you.head);
                SearchGrid::lemma_set_preserves_other(
                    path_before,
                    path,
                    dest,
                    you.head,
                    you.head,
                );
                assert forall|c: Coord|
                    (path.in_grid(c) && (#[trigger] path.cell(c)) is Some && c != you.head)
                        implies path.cell(c) == Option::Some(you.head) by {
                    if c != dest {
                        SearchGrid::lemma_set_preserves_other(path_before, path, dest, you.head, c);
                    }
                }
                assert forall|t: int| 0 <= t < i + 1 implies (#[trigger] path.cell(
                    direction_coord(options@[t]),
                )) is Some by {
                    let ct = direction_coord(options@[t]);
                    if t < i && ct != dest {
                        SearchGrid::lemma_set_preserves_other(path_before, path, dest, you.head, ct);
                    }
                }
            }
        }
        queue.push_back(step);
        proof {
            assert(seed_marks(path.cells@, wi, you.head, options@, i + 1) == seed_marks(
                path_before.cells@,
                wi,
                you.head,
                options@,
                i as int,
            ));
            assert(node_of(step) == (SimNode {
                dir: d,
                body: walk_body(direction_coord(d), you.body@),
            }));
            assert(queue_model(queue@) =~= seed_nodes(options@, you.body@).take(i + 1));
        }
        i = i + 1;
    }

    let ghost cells2 = seed_marks(cells1, wi, you.head, options@, 0);
    proof {
        assert(seed_marks(path.cells@, wi, you.head, options@, n) == path.cells@);
        assert(path.cells@ == cells2);
        assert(queue_model(queue@) =~= seed_nodes(options@, you.body@));
    }

    let mut last_coord = *options[0].get_coord();

    // Breadth-first search, bounded by one expansion per cell plus one pop
    // per seed: each enqueue after seeding marks a previously unmarked cell.
    let mut fuel: usize = w * h + options.len();
    let ghost bfs0: (Coord, Seq<Option<Coord>>) = bfs_from(
        *board,
        seed_nodes(options@, you.body@),
        cells2,
        wi,
        direction_coord(options@[0]),
        fuel as nat,
    );
    let ghost mut p: int = 0;
    while fuel > 0
        invariant_except_break
            0 <= p,
            fopt is Some ==> p <= f,
            fuel as int == (w as int) * (h as int) + n - p,
            queue@.len() >= n - p,
            forall|t: int| 0 <= t < n - p ==> (#[trigger] queue@[t]).dir == options@[p + t],
            bfs_from(*board, queue_model(queue@), path.cells@, wi, last_coord, fuel as nat)
                == bfs0,
        invariant
            wi == w as int,
            hi == h as int,
            dims_ok(*board),
            snakes_wf(*board),
            you.body@.len() >= 1,
            in_bounds(*board, you.head),
            n == options@.len() as int,
            1 <= n <= 0x7FFF_FFFF,
            forall|t: int|
                0 <= t < options@.len() ==> in_bounds(
                    *board,
                    direction_coord(#[trigger] options@[t]),
                ),
            path.wf(),
            path.width == w,
            path.height == h,
            w == board.width as usize,
            h == board.height as usize,
            in_bounds(*board, last_coord),
            forall|t: int| 0 <= t < queue@.len() ==> step_ok(*board, #[trigger] queue@[t]),
            path.cell(you.head) matches Option::Some(m) && is_root_marker(m),
            fopt == first_food_idx(options@, board.food@),
            fopt matches Option::Some(v) ==> v == f,
            fopt is None ==> f == n,
            fopt is Some ==> 0 <= f < n && (#[trigger] path.cell(
                direction_coord(options@[f]),
            )) is Some,
            fopt is Some && direction_coord(options@[f]) != you.head ==> path.cell(
                direction_coord(options@[f]),
            ) == Option::Some(you.head),
            (#[trigger] path.cell(direction_coord(options@[0]))) is Some,
            direction_coord(options@[0]) != you.head ==> path.cell(direction_coord(options@[0]))
                == Option::Some(you.head),
            board.food@.len() == 0 ==> last_coord == direction_coord(options@[0]),
        ensures
            path.wf(),
            path.width == w,
            path.height == h,
            in_bounds(*board, last_coord),
            path.cell(you.head) matches Option::Some(m) && is_root_marker(m),
            fopt is Some ==> last_coord == direction_coord(options@[f]) && (#[trigger] path.cell(
                direction_coord(options@[f]),
            )) is Some,
            fopt is Some && direction_coord(options@[f]) != you.head ==> path.cell(
                direction_coord(options@[f]),
            ) == Option::Some(you.head),
            (#[trigger] path.cell(direction_coord(options@[0]))) is Some,
            direction_coord(options@[0]) != you.head ==> path.cell(direction_coord(options@[0]))
                == Option::Some(you.head),
            board.food@.len() == 0 ==> last_coord == direction_coord(options@[0]),
            bfs0.0 == last_coord,
            bfs0.1 == path.cells@,
        decreases fuel,
    {
        proof {
            lemma_first_food_idx_props(options@, board.food@, 0);
        }
        let ghost q_top = queue_model(queue@);
        let ghost cells_top = path.cells@;
        let ghost fuel_top: nat = fuel as nat;
        let step = match queue.pop_front() {
            Option::None => {
                proof {
                    assert(fopt is None);
                    assert(q_top.len() == 0);
                    assert(bfs0 == (last_coord, path.cells@));
                }
                break;
            },
            Option::Some(s) => s,
        };
        proof {
            assert(node_of(step) == q_top[0]);
            assert(queue_model(queue@) =~= q_top.drop_first());
        }
        let coord_here = *step.dir.get_coord();

        if is_food(&coord_here, board.food.as_slice()) {
            proof {
                if fopt is Some {
                    assert(step.dir == options@[p]);
                    assert(p == f);
                }
                assert(bfs_from(*board, q_top, cells_top, wi, last_coord, fuel_top) == (
                coord_here,
                cells_top,
                ));
                assert(bfs0 == (coord_here, path.cells@));
            }
            last_coord = coord_here;
            break;
        }
        proof {
            if fopt is Some {
                assert(step.dir == options@[p]);
                assert(p < f);
            }
        }

        // The simulated snake at this node: the agent with its body advanced
        // along the path that reached this cell.
        let mut new_snake = you.clone();
        new_snake.head = step.state.head;
        new_snake.body = copy_coords(&step.state.body);

        let new_dirs = get_valid_moves(board, &new_snake);
        proof {
            lemma_valid_moves_sound(*board, new_snake);
            assert(new_dirs@ == sim_moves(*board, coord_here, step.state.body@));
        }

        let ghost eq0 = queue_model(queue@);
        let ghost ec0 = path.cells@;
        let mut k: usize = 0;
        while k < new_dirs.len()
            invariant
                dims_ok(*board),
                snakes_wf(*board),
                in_bounds(*board, you.head),
                n == options@.len() as int,
                forall|t: int|
                    0 <= t < options@.len() ==> in_bounds(
                        *board,
                        direction_coord(#[trigger] options@[t]),
                    ),
                path.wf(),
                path.width == w,
                path.height == h,
                w == board.width as usize,
                h == board.height as usize,
                in_bounds(*board, coord_here),
                step.state.body@.len() >= 1,
                k <= new_dirs@.len(),
                forall|t: int|
                    0 <= t < new_dirs@.len() ==> legal_dir(
                        *board,
                        new_snake,
                        #[trigger] new_dirs@[t],
                    ),
                forall|t: int| 0 <= t < queue@.len() ==> step_ok(*board, #[trigger] queue@[t]),
                path.cell(you.head) matches Option::Some(m) && is_root_marker(m),
                fopt is Some ==> 0 <= f < n && (#[trigger] path.cell(
                    direction_coord(options@[f]),
                )) is Some,
                fopt is Some && direction_coord(options@[f]) != you.head ==> path.cell(
                    direction_coord(options@[f]),
                ) == Option::Some(you.head),
                options@.len() >= 1,
                (#[trigger] path.cell(direction_coord(options@[0]))) is Some,
                direction_coord(options@[0]) != you.head ==> path.cell(
                    direction_coord(options@[0]),
                ) == Option::Some(you.head),
                0 <= p,
                queue@.len() >= n - p - 1,
                forall|t: int| 0 <= t < n - p - 1 ==> (#[trigger] queue@[t]).dir == options@[p + 1
                    + t],
                wi == w as int,
                expand_from(
                    path.cells@,
                    wi,
                    queue_model(queue@),
                    coord_here,
                    step.state.body@,
                    new_dirs@,
                    k as int,
                ) == expand_from(ec0, wi, eq0, coord_here, step.state.body@, new_dirs@, 0),
            decreases new_dirs@.len() - k,
        {
            let nd = new_dirs[k];
            let new_step = step.walk(nd);
            let ndest = *nd.get_coord();
            let ghost path_before = path;
            let ghost q_in = queue_model(queue@);
            if path.get(&ndest).is_none() {
                path.set(&ndest, coord_here);
                proof {
                    path_before.lemma_idx_bounds(ndest);
                    assert(ndest != you.head);
                    SearchGrid::lemma_set_preserves_other(
                        path_before,
                        path,
                        ndest,
                        coord_here,
                        you.head,
                    );
                    if fopt is Some {
                        let dest_f = direction_coord(options@[f]);
                        assert(ndest != dest_f);
                        SearchGrid::lemma_set_preserves_other(
                            path_before,
                            path,
                            ndest,
                            coord_here,
                            dest_f,
                        );
                    }
                    let dest0 = direction_coord(options@[0]);
                    assert(ndest != dest0);
                    SearchGrid::lemma_set_preserves_other(
                        path_before,
                        path,
                        ndest,
                        coord_here,
                        dest0,
                    );
                }
                queue.push_back(new_step);
                proof {
                    assert(node_of(new_step) == (SimNode {
                        dir: nd,
                        body: walk_body(ndest, step.state.body@),
                    }));
                    assert(queue_model(queue@) =~= q_in.push(node_of(new_step)));
                    assert(expand_from(
                        path.cells@,
                        wi,
                        queue_model(queue@),
                        coord_here,
                        step.state.body@,
                        new_dirs@,
                        k + 1,
                    ) == expand_from(
                        path_before.cells@,
                        wi,
                        q_in,
                        coord_here,
                        step.state.body@,
                        new_dirs@,
                        k as int,
                    ));
                }
            } else {
                proof {
                    assert(expand_from(
                        path.cells@,
                        wi,
                        queue_model(queue@),
                        coord_here,
                        step.state.body@,
                        new_dirs@,
                        k + 1,
                    ) == expand_from(
                        path.cells@,
                        wi,
                        queue_model(queue@),
                        coord_here,
                        step.state.body@,
                        new_dirs@,
                        k as int,
                    ));
                }
            }
            k = k + 1;
        }
        proof {
            assert(expand_from(
                path.cells@,
                wi,
                queue_model(queue@),
                coord_here,
                step.state.body@,
                new_dirs@,
                new_dirs@.len() as int,
            ) == (path.cells@, queue_model(queue@)));
            assert(bfs_from(*board, q_top, cells_top, wi, last_coord, fuel_top) == bfs_from(
                *board,
                queue_model(queue@),
                path.cells@,
                wi,
                last_coord,
                (fuel_top - 1) as nat,
            ));
            p = p + 1;
        }
        fuel = fuel - 1;
    }

    // Trace the found cell (or the fallback) back to the seed destination it
    // descends from, and return the matching candidate.
    let dir_coord = track_path(&path, &last_coord);
    proof {
        // The traced-back cell agrees with the model's.
        assert(grid_cell(bfs0.1, wi, bfs0.0) == path.cell(last_coord));
        match path.cell(last_coord) {
            Option::None => {
                assert(dir_coord == last_coord);
            },
            Option::Some(c0) => {
                assert(dir_coord == track_from(
                    path.cells@,
                    wi,
                    hi,
                    last_coord,
                    c0,
                    (wi * hi) as nat,
                ));
            },
        }
        assert(next_step_spec(*board, *you, options@) == pick_option(options@, dir_coord, 0));
        lemma_first_food_idx_props(options@, board.food@, 0);
        if fopt is Some {
            let dest_f = direction_coord(options@[f]);
            let fuel0 = (path.width * path.height) as nat;
            if dest_f == you.head {
                let m = path.cell(dest_f)->Some_0;
                assert(!path.in_grid(m));
                assert(track_from(path.cells@, path.width as int, path.height as int, dest_f, m, fuel0) == dest_f);
            } else {
                assert(path.cell(dest_f) == Option::Some(you.head));
                if fuel0 != 0 {
                    let m = path.cell(you.head)->Some_0;
                    assert(track_from(path.cells@, path.width as int, path.height as int, dest_f, you.head, fuel0) == dest_f);
                }
            }
            assert(dir_coord == dest_f);
        }
        if board.food@.len() == 0 {
            let dest0 = direction_coord(options@[0]);
            let fuel0 = (path.width * path.height) as nat;
            if dest0 == you.head {
                let m = path.cell(dest0)->Some_0;
                assert(!path.in_grid(m));
                assert(track_from(path.cells@, path.width as int, path.height as int, dest0, m, fuel0) == dest0);
            } else {
                assert(path.cell(dest0) == Option::Some(you.head));
                if fuel0 != 0 {
                    assert(track_from(path.cells@, path.width as int, path.height as int, dest0, you.head, fuel0) == dest0);
                }
            }
            assert(dir_coord == dest0);
        }
    }
    let mut j: usize = 0;
    while j < options.len()
        invariant
            j <= options@.len(),
            options@.len() >= 1,
            n == options@.len() as int,
            fopt == first_food_idx(options@, board.food@),
            fopt is None ==> f == n,
            fopt matches Option::Some(v) ==> v == f,
            fopt is Some ==> 0 <= f < n && dir_coord == direction_coord(options@[f]),
            fopt is Some ==> j <= f,
            board.food@.len() == 0 ==> dir_coord == direction_coord(options@[0]) && j == 0,
            next_step_spec(*board, *you, options@) == pick_option(options@, dir_coord, 0),
            pick_option(options@, dir_coord, 0) == pick_option(options@, dir_coord, j as int),
        decreases options@.len() - j,
    {
        proof {
            lemma_first_food_idx_props(options@, board.food@, 0);
        }
        if *options[j].get_coord() == dir_coord {
            proof {
                assert(options@.contains(options@[j as int]));
                assert(pick_option(options@, dir_coord, j as int) == options@[j as int]);
                if board.food@.len() == 0 {
                    assert(j == 0);
                }
                if fopt is Some {
                    assert(j == f);
                }
            }
            return options[j];
        }
        j = j + 1;
    }
    proof {
        assert(options@.contains(options@[0]));
        assert(fopt is None);
        assert(pick_option(options@, dir_coord, n) == options@[0]);
    }
    options[0]
}

} // verus!
