//! A maze that is known as a whole, and the search for a way through it.

use crate::structs::Position;
use std::collections::HashMap;
use std::collections::HashSet;
use std::collections::VecDeque;
use vstd::prelude::*;

verus! {

broadcast use vstd::std_specs::hash::group_hash_axioms;

/// The key under which a square is kept: its column in the high half of 128
/// bits, its row in the low half.
pub open spec fn key_of(p: Position) -> u128 {
    (p.x * 0x1_0000_0000_0000_0000 + p.y) as u128
}

/// Two squares with the same key are the same square.
pub proof fn lemma_key_injective(p: Position, q: Position)
    requires
        key_of(p) == key_of(q),
    ensures
        p == q,
{
}

/// Computes the key of a square.
fn key(p: Position) -> (k: u128)
    ensures
        k == key_of(p),
{
    (p.x as u128) * 0x1_0000_0000_0000_0000 + (p.y as u128)
}

/// A set of squares.
pub struct PositionSet {
    keys: HashSet<u128>,
}

impl View for PositionSet {
    type V = Set<Position>;

    closed spec fn view(&self) -> Set<Position> {
        Set::new(|p: Position| self.keys@.contains(key_of(p)))
    }
}

impl PositionSet {
    /// An empty set.
    pub fn new() -> (set: PositionSet)
        ensures
            set@ == Set::<Position>::empty(),
    {
        PositionSet { keys: HashSet::new() }
    }

    /// Adds a square.
    pub fn insert(&mut self, p: Position)
        ensures
            final(self)@ == old(self)@.insert(p),
    {
        let k = key(p);
        self.keys.insert(k);
    }

    /// Tells whether a square is in the set.
    pub fn contains(&self, p: &Position) -> (held: bool)
        ensures
            held == self@.contains(*p),
    {
        let k = key(*p);
        self.keys.contains(&k)
    }
}

/// A map from squares to squares.
pub struct PositionMap {
    entries: HashMap<u128, Position>,
}

impl View for PositionMap {
    type V = Map<Position, Position>;

    closed spec fn view(&self) -> Map<Position, Position> {
        Map::new(
            |p: Position| self.entries@.contains_key(key_of(p)),
            |p: Position| self.entries@[key_of(p)],
        )
    }
}

impl PositionMap {
    /// An empty map.
    pub fn new() -> (map: PositionMap)
        ensures
            map@ == Map::<Position, Position>::empty(),
    {
        PositionMap { entries: HashMap::new() }
    }

    /// Sets the square that a square is mapped to.
    pub fn insert(&mut self, p: Position, q: Position)
        ensures
            final(self)@ == old(self)@.insert(p, q),
    {
        let k = key(p);
        self.entries.insert(k, q);
    }

    /// Gives the square that a square is mapped to, if it is mapped.
    pub fn get(&self, p: &Position) -> (q: Option<Position>)
        ensures
            q == (if self@.contains_key(*p) {
                Some(self@[*p])
            } else {
                None
            }),
    {
        let k = key(*p);
        match self.entries.get(&k) {
            Some(q) => Some(*q),
            None => None,
        }
    }
}

/// A maze of `width` columns and `height` rows, with walls on some of its
/// squares, and the two squares between which a way is sought.
pub struct Maze {
    width: usize,
    height: usize,
    walls: PositionSet,
    start: Position,
    end: Position,
}

/// A maze as plain values.
pub struct MazeModel {
    pub width: nat,
    pub height: nat,
    pub walls: Set<Position>,
    pub start: Position,
    pub end: Position,
}

/// The square at a step of one column or one row from `p`, as a pair of
/// integers: down, right, up, left, in the order in which steps are tried.
pub open spec fn beside(p: Position, k: int) -> (int, int) {
    if k == 0 {
        (p.x as int, p.y + 1)
    } else if k == 1 {
        (p.x + 1, p.y as int)
    } else if k == 2 {
        (p.x as int, p.y - 1)
    } else {
        (p.x - 1, p.y as int)
    }
}

impl MazeModel {
    /// The square lies in the maze and holds no wall.
    pub open spec fn free(self, p: Position) -> bool {
        p.x < self.width && p.y < self.height && !self.walls.contains(p)
    }

    /// A step leads from `p` to `q`: `q` is free and lies beside `p`, in the
    /// `k`-th direction.
    pub open spec fn step_in(self, p: Position, q: Position, k: int) -> bool {
        0 <= k < 4 && self.free(q) && (q.x as int, q.y as int) == beside(p, k)
    }

    /// A step leads from `p` to `q`.
    pub open spec fn step(self, p: Position, q: Position) -> bool {
        exists|k: int| self.step_in(p, q, k)
    }

    /// The squares that a step leads to from `p`, of the first `k` directions,
    /// in the order in which steps are tried.
    pub open spec fn neighbors_upto(self, p: Position, k: nat) -> Seq<Position>
        decreases k,
    {
        if k == 0 {
            Seq::empty()
        } else {
            let found = self.neighbors_upto(p, (k - 1) as nat);
            let c = beside(p, k - 1);
            if 0 <= c.0 < self.width && 0 <= c.1 < self.height && !self.walls.contains(
                Position { x: c.0 as usize, y: c.1 as usize },
            ) {
                found.push(Position { x: c.0 as usize, y: c.1 as usize })
            } else {
                found
            }
        }
    }

    /// The squares that a step leads to from `p`, in the order in which steps
    /// are tried.
    pub open spec fn neighbors(self, p: Position) -> Seq<Position> {
        self.neighbors_upto(p, 4)
    }

    /// Each square of the sequence but the first is a step from the one before
    /// it.
    pub open spec fn is_path(self, path: Seq<Position>) -> bool {
        &&& path.len() > 0
        &&& forall|i: int| 0 <= i < path.len() - 1 ==> self.step(#[trigger] path[i], path[i + 1])
    }

    /// The sequence is a way from `from` to `to`.
    pub open spec fn connects(self, path: Seq<Position>, from: Position, to: Position) -> bool {
        &&& self.is_path(path)
        &&& path[0] == from
        &&& path[path.len() - 1] == to
    }

    /// There is a way from `from` to `to`.
    pub open spec fn reachable(self, from: Position, to: Position) -> bool {
        exists|path: Seq<Position>| self.connects(path, from, to)
    }
}

impl View for Maze {
    type V = MazeModel;

    closed spec fn view(&self) -> MazeModel {
        MazeModel {
            width: self.width as nat,
            height: self.height as nat,
            walls: self.walls@,
            start: self.start,
            end: self.end,
        }
    }
}

/// The squares that a step leads to are those in the list of neighbours.
pub proof fn lemma_neighbors(maze: MazeModel, p: Position, q: Position)
    requires
        maze.width <= usize::MAX,
        maze.height <= usize::MAX,
    ensures
        maze.step(p, q) <==> maze.neighbors(p).contains(q),
{
    reveal_with_fuel(MazeModel::neighbors_upto, 5);
    let n1 = maze.neighbors_upto(p, 1);
    let n2 = maze.neighbors_upto(p, 2);
    let n3 = maze.neighbors_upto(p, 3);
    let n4 = maze.neighbors_upto(p, 4);
    assert forall|k: int| 0 <= k < 4 && maze.step_in(p, q, k) implies n4.contains(q) by {
        if k == 0 {
            assert(n1[n1.len() - 1] == q);
            lemma_push_keeps(n1, n2, q);
            lemma_push_keeps(n2, n3, q);
            lemma_push_keeps(n3, n4, q);
        } else if k == 1 {
            assert(n2[n2.len() - 1] == q);
            lemma_push_keeps(n2, n3, q);
            lemma_push_keeps(n3, n4, q);
        } else if k == 2 {
            assert(n3[n3.len() - 1] == q);
            lemma_push_keeps(n3, n4, q);
        } else {
            assert(n4[n4.len() - 1] == q);
        }
    }
    if n4.contains(q) {
        if n3.contains(q) {
            if n2.contains(q) {
                if n1.contains(q) {
                    assert(maze.step_in(p, q, 0));
                } else {
                    assert(maze.step_in(p, q, 1));
                }
            } else {
                assert(maze.step_in(p, q, 2));
            }
        } else {
            assert(maze.step_in(p, q, 3));
        }
    }
}

/// What a list holds, it holds with or without one more at its end.
proof fn lemma_push_keeps(shorter: Seq<Position>, longer: Seq<Position>, q: Position)
    requires
        shorter.contains(q),
        longer == shorter || exists|r: Position| longer == shorter.push(r),
    ensures
        longer.contains(q),
{
    let i = choose|i: int| 0 <= i < shorter.len() && shorter[i] == q;
    assert(longer[i] == q);
}

impl Maze {
    /// A maze without walls.
    pub fn new(width: usize, height: usize, start: Position, end: Position) -> (maze: Maze)
        ensures
            maze@ == (MazeModel {
                width: width as nat,
                height: height as nat,
                walls: Set::empty(),
                start,
                end,
            }),
    {
        Maze { width, height, walls: PositionSet::new(), start, end }
    }

    /// Puts a wall on a square.
    pub fn add_wall(&mut self, pos: Position)
        ensures
            final(self)@ == (MazeModel { walls: old(self)@.walls.insert(pos), ..old(self)@ }),
    {
        self.walls.insert(pos);
    }

    /// Gives the squares that a step leads to from `pos`: those beside it, down,
    /// right, up and left, that lie in the maze and hold no wall.
    pub fn get_neighbors(&self, pos: Position) -> (neighbors: Vec<Position>)
        ensures
            neighbors@ == self@.neighbors(pos),
    {
        let mut neighbors: Vec<Position> = Vec::new();
        proof {
            reveal_with_fuel(MazeModel::neighbors_upto, 5);
        }
        if pos.y < usize::MAX && pos.x < self.width && pos.y + 1 < self.height {
            let new_pos = Position { x: pos.x, y: pos.y + 1 };
            if !self.walls.contains(&new_pos) {
                neighbors.push(new_pos);
            }
        }
        if pos.x < usize::MAX && pos.x + 1 < self.width && pos.y < self.height {
            let new_pos = Position { x: pos.x + 1, y: pos.y };
            if !self.walls.contains(&new_pos) {
                neighbors.push(new_pos);
            }
        }
        if pos.y > 0 && pos.x < self.width && pos.y - 1 < self.height {
            let new_pos = Position { x: pos.x, y: pos.y - 1 };
            if !self.walls.contains(&new_pos) {
                neighbors.push(new_pos);
            }
        }
        if pos.x > 0 && pos.x - 1 < self.width && pos.y < self.height {
            let new_pos = Position { x: pos.x - 1, y: pos.y };
            if !self.walls.contains(&new_pos) {
                neighbors.push(new_pos);
            }
        }
        neighbors
    }
}

/// Going back from `v` along `came_from` reaches the start of the maze in `n`
/// moves, each of them from a square to a square that a step leads from to it.
spec fn traces(
    maze: MazeModel,
    came_from: Map<Position, Position>,
    v: Position,
    n: nat,
) -> bool
    decreases n,
{
    if n == 0 {
        v == maze.start
    } else {
        &&& v != maze.start
        &&& came_from.contains_key(v)
        &&& maze.step(came_from[v], v)
        &&& traces(maze, came_from, came_from[v], (n - 1) as nat)
    }
}

/// The number that stands for a square of the maze: its squares are counted
/// column by column.
spec fn index_of(maze: MazeModel, p: Position) -> int {
    p.x * maze.height + p.y
}

/// The squares of a maze are counted without gaps and without repeats.
proof fn lemma_index(height: int, width: int, x1: int, y1: int, x2: int, y2: int)
    by (nonlinear_arith)
    requires
        0 <= x1 < width,
        0 <= y1 < height,
        0 <= x2,
        0 <= y2 < height,
    ensures
        0 <= x1 * height + y1 < width * height,
        x1 * height + y1 == x2 * height + y2 ==> x1 == x2 && y1 == y2,
{
}

/// A way back to the start stays one when a square that had no way back gets
/// one.
proof fn lemma_traces_insert(
    maze: MazeModel,
    came_from: Map<Position, Position>,
    v: Position,
    n: nat,
    fresh: Position,
    parent: Position,
)
    requires
        traces(maze, came_from, v, n),
        !came_from.contains_key(fresh),
    ensures
        traces(maze, came_from.insert(fresh, parent), v, n),
    decreases n,
{
    if n > 0 {
        lemma_traces_insert(maze, came_from, came_from[v], (n - 1) as nat, fresh, parent);
    }
}

/// Every square of a way from the start lies in a set that holds the start and,
/// with a square, every square that a step leads to from it.
proof fn lemma_closed_holds_path(
    maze: MazeModel,
    closed: Set<Position>,
    path: Seq<Position>,
    i: int,
)
    requires
        maze.is_path(path),
        closed.contains(path[0]),
        forall|v: Position, w: Position| closed.contains(v) && maze.step(v, w) ==> closed.contains(w),
        0 <= i < path.len(),
    ensures
        closed.contains(path[i]),
    decreases i,
{
    if i > 0 {
        lemma_closed_holds_path(maze, closed, path, i - 1);
    }
}

/// The squares that a square was reached from lead back to the start in one
/// number of moves only.
proof fn lemma_traces_unique(
    maze: MazeModel,
    came_from: Map<Position, Position>,
    v: Position,
    n: nat,
    m: nat,
)
    requires
        traces(maze, came_from, v, n),
        traces(maze, came_from, v, m),
    ensures
        n == m,
    decreases n,
{
    if n > 0 && m > 0 {
        lemma_traces_unique(maze, came_from, came_from[v], (n - 1) as nat, (m - 1) as nat);
    }
}

/// What the search knows of the squares at a distance from the start, at a time
/// when every square that waits in the queue was reached in `front` moves or
/// more: the `i`-th square of any way from the start, for `i` up to `front`, has
/// been reached, in `i` moves or less.
proof fn lemma_reached_in_time(
    maze: MazeModel,
    visited: Set<Position>,
    queue: Seq<Position>,
    depth: Map<Position, nat>,
    front: nat,
    other: Seq<Position>,
    i: int,
)
    requires
        maze.is_path(other),
        other[0] == maze.start,
        visited.contains(maze.start),
        depth[maze.start] == 0,
        forall|k: int| 0 <= k < queue.len() ==> depth[#[trigger] queue[k]] >= front,
        forall|v: Position, w: Position|
            visited.contains(v) && !queue.contains(v) && #[trigger] maze.step(v, w)
                ==> visited.contains(w) && depth[w] <= depth[v] + 1,
        0 <= i < other.len(),
        i <= front,
    ensures
        visited.contains(other[i]),
        depth[other[i]] <= i,
    decreases i,
{
    if i > 0 {
        lemma_reached_in_time(maze, visited, queue, depth, front, other, i - 1);
    }
}

impl Maze {
    /// Builds the way from the start to the end out of the squares that each
    /// square of it was reached from. A way back from the end to the start is
    /// there, and the way has one square more than the way back has moves.
    fn reconstruct_path(&self, came_from: &PositionMap) -> (path: Vec<Position>)
        requires
            exists|n: nat| traces(self@, came_from@, self@.end, n),
        ensures
            self@.connects(path@, self@.start, self@.end),
            forall|n: nat| traces(self@, came_from@, self@.end, n) ==> path@.len() == n + 1,
    {
        let mut back: Vec<Position> = Vec::new();
        let mut current = self.end;
        let ghost moves: nat = choose|n: nat| traces(self@, came_from@, self@.end, n);
        let ghost mut n: nat = moves;
        back.push(current);
        while current != self.start
            invariant
                traces(self@, came_from@, current, n),
                back@.len() > 0,
                back@.len() + n == moves + 1,
                back@[0] == self@.end,
                back@[back@.len() - 1] == current,
                forall|i: int|
                    0 <= i < back@.len() - 1 ==> self@.step(#[trigger] back@[i + 1], back@[i]),
            decreases n,
        {
            match came_from.get(&current) {
                Some(prev) => {
                    current = prev;
                    back.push(current);
                    proof {
                        n = (n - 1) as nat;
                    }
                },
                None => {
                    return Vec::new();
                },
            }
        }
        let mut path: Vec<Position> = Vec::new();
        let mut k: usize = back.len();
        while k > 0
            invariant
                k <= back@.len(),
                path@.len() == back@.len() - k,
                forall|i: int| 0 <= i < path@.len() ==> path@[i] == back@[back@.len() - 1 - i],
            decreases k,
        {
            k -= 1;
            path.push(back[k]);
        }
        proof {
            assert forall|i: int| 0 <= i < path@.len() - 1 implies self@.step(
                #[trigger] path@[i],
                path@[i + 1],
            ) by {
                let j = back@.len() - 2 - i;
                assert(self@.step(back@[j + 1], back@[j]));
            }
            assert forall|m: nat| traces(self@, came_from@, self@.end, m) implies path@.len() == m
                + 1 by {
                lemma_traces_unique(self@, came_from@, self@.end, m, moves);
            }
        }
        path
    }

    /// Searches a shortest way from the start to the end, breadth first. The way
    /// that is found leads from square to square by steps, and no way from the
    /// start to the end is shorter; none is found only where there is none.
    pub fn solve(&self) -> (way: Option<Vec<Position>>)
        ensures
            match way {
                Some(path) => self@.connects(path@, self@.start, self@.end) && forall|
                    other: Seq<Position>,
                |
                    self@.connects(other, self@.start, self@.end) ==> path@.len() <= other.len(),
                None => !self@.reachable(self@.start, self@.end),
            },
    {
        let mut queue: VecDeque<Position> = VecDeque::new();
        let mut visited = PositionSet::new();
        let mut came_from = PositionMap::new();
        let ghost maze = self@;
        let ghost cells = maze.width * maze.height;
        let ghost mut seen: Set<int> = Set::empty();
        let ghost mut depth: Map<Position, nat> = Map::empty().insert(self.start, 0nat);

        queue.push_back(self.start);
        visited.insert(self.start);
        proof {
            assert(queue@[0] == maze.start);
            if self.start.x < maze.width && self.start.y < maze.height {
                seen = seen.insert(index_of(maze, self.start));
                lemma_index(
                    maze.height as int,
                    maze.width as int,
                    self.start.x as int,
                    self.start.y as int,
                    0,
                    0,
                );
            }
        }

        while queue.len() > 0
            invariant
                maze == self@,
                cells == maze.width * maze.height,
                visited@.contains(maze.start),
                depth.dom() == visited@,
                forall|v: Position| #[trigger]
                    visited@.contains(v) ==> traces(maze, came_from@, v, depth[v]),
                forall|v: Position| #[trigger] came_from@.contains_key(v) ==> visited@.contains(v),
                forall|i: int| 0 <= i < queue@.len() ==> visited@.contains(#[trigger] queue@[i]),
                forall|i: int, j: int|
                    0 <= i <= j < queue@.len() ==> depth[#[trigger] queue@[i]] <= depth[
                    #[trigger] queue@[j]],
                queue@.len() > 0 ==> forall|v: Position| #[trigger]
                    visited@.contains(v) ==> depth[v] <= depth[queue@[0]] + 1,
                forall|v: Position, w: Position|
                    visited@.contains(v) && !queue@.contains(v) && #[trigger] maze.step(v, w)
                        ==> visited@.contains(w) && depth[w] <= depth[v] + 1,
                visited@.contains(maze.end) ==> queue@.contains(maze.end),
                seen.finite(),
                seen.len() <= cells,
                forall|v: Position|
                    #[trigger] visited@.contains(v) && v.x < maze.width && v.y < maze.height
                        ==> seen.contains(index_of(maze, v)),
                forall|i: int| #[trigger]
                    seen.contains(i) ==> 0 <= i < cells && exists|v: Position|
                        visited@.contains(v) && v.x < maze.width && v.y < maze.height
                            && index_of(maze, v) == i,
            decreases 2 * (cells - seen.len()) + queue@.len(),
        {
            let ghost before = queue@;
            let ghost measure = 2 * (cells - seen.len()) + queue@.len();
            let current = match queue.pop_front() {
                Some(current) => current,
                None => {
                    return None;
                },
            };
            let ghost front = depth[current];
            if current == self.end {
                let path = self.reconstruct_path(&came_from);
                proof {
                    assert forall|other: Seq<Position>|
                        maze.connects(other, maze.start, maze.end) implies path@.len()
                        <= other.len() by {
                        if other.len() < path@.len() {
                            lemma_reached_in_time(
                                maze,
                                visited@,
                                before,
                                depth,
                                front,
                                other,
                                other.len() - 1,
                            );
                        }
                    }
                }
                return Some(path);
            }
            proof {
                if visited@.contains(maze.end) {
                    let i = choose|i: int| 0 <= i < before.len() && before[i] == maze.end;
                    assert(queue@[i - 1] == maze.end);
                }
                assert forall|v: Position, w: Position|
                    visited@.contains(v) && v != current && !queue@.contains(v)
                        && #[trigger] maze.step(v, w) implies visited@.contains(w) && depth[w]
                    <= depth[v] + 1 by {
                    if before.contains(v) {
                        let i = choose|i: int| 0 <= i < before.len() && before[i] == v;
                        assert(queue@[i - 1] == v);
                    }
                }
            }
            let neighbors = self.get_neighbors(current);
            let mut j: usize = 0;
            while j < neighbors.len()
                invariant
                    maze == self@,
                    cells == maze.width * maze.height,
                    j <= neighbors@.len(),
                    neighbors@ == maze.neighbors(current),
                    current != maze.end,
                    visited@.contains(current),
                    visited@.contains(maze.start),
                    front == depth[current],
                    depth.dom() == visited@,
                    forall|i: int| 0 <= i < j ==> visited@.contains(#[trigger] neighbors@[i]),
                    forall|v: Position| #[trigger]
                        visited@.contains(v) ==> traces(maze, came_from@, v, depth[v]),
                    forall|v: Position| #[trigger]
                        came_from@.contains_key(v) ==> visited@.contains(v),
                    forall|i: int|
                        0 <= i < queue@.len() ==> visited@.contains(#[trigger] queue@[i]) && front
                            <= depth[queue@[i]] <= front + 1,
                    forall|i: int, j: int|
                        0 <= i <= j < queue@.len() ==> depth[#[trigger] queue@[i]] <= depth[
                        #[trigger] queue@[j]],
                    forall|v: Position| #[trigger] visited@.contains(v) ==> depth[v] <= front + 1,
                    forall|v: Position, w: Position|
                        visited@.contains(v) && v != current && !queue@.contains(v)
                            && #[trigger] maze.step(v, w) ==> visited@.contains(w) && depth[w]
                            <= depth[v] + 1,
                    visited@.contains(maze.end) ==> queue@.contains(maze.end),
                    seen.finite(),
                    seen.len() <= cells,
                    forall|v: Position|
                        #[trigger] visited@.contains(v) && v.x < maze.width && v.y < maze.height
                            ==> seen.contains(index_of(maze, v)),
                    forall|i: int| #[trigger]
                        seen.contains(i) ==> 0 <= i < cells && exists|v: Position|
                            visited@.contains(v) && v.x < maze.width && v.y < maze.height
                                && index_of(maze, v) == i,
                    2 * (cells - seen.len()) + queue@.len() < measure,
                decreases neighbors@.len() - j,
            {
                let neighbor = neighbors[j];
                proof {
                    lemma_neighbors(maze, current, neighbor);
                }
                if !visited.contains(&neighbor) {
                    let ghost old_from = came_from@;
                    let ghost old_visited = visited@;
                    let ghost old_queue = queue@;
                    let ghost old_seen = seen;
                    let ghost old_depth = depth;
                    visited.insert(neighbor);
                    came_from.insert(neighbor, current);
                    queue.push_back(neighbor);
                    proof {
                        depth = old_depth.insert(neighbor, front + 1);
                        let index = index_of(maze, neighbor);
                        lemma_index(
                            maze.height as int,
                            maze.width as int,
                            neighbor.x as int,
                            neighbor.y as int,
                            0,
                            0,
                        );
                        if old_seen.contains(index) {
                            let v = choose|v: Position|
                                old_visited.contains(v) && v.x < maze.width && v.y < maze.height
                                    && index_of(maze, v) == index;
                            lemma_index(
                                maze.height as int,
                                maze.width as int,
                                neighbor.x as int,
                                neighbor.y as int,
                                v.x as int,
                                v.y as int,
                            );
                        }
                        seen = old_seen.insert(index);
                        vstd::set_lib::lemma_int_range(0, cells as int);
                        vstd::set_lib::lemma_len_subset(
                            seen,
                            vstd::set_lib::set_int_range(0, cells as int),
                        );
                        assert forall|v: Position| #[trigger] visited@.contains(v) implies traces(
                            maze,
                            came_from@,
                            v,
                            depth[v],
                        ) by {
                            if v == neighbor {
                                lemma_traces_insert(
                                    maze,
                                    old_from,
                                    current,
                                    front,
                                    neighbor,
                                    current,
                                );
                            } else {
                                lemma_traces_insert(
                                    maze,
                                    old_from,
                                    v,
                                    old_depth[v],
                                    neighbor,
                                    current,
                                );
                            }
                        }
                        assert forall|v: Position, w: Position|
                            visited@.contains(v) && v != current && !queue@.contains(v)
                                && #[trigger] maze.step(v, w) implies visited@.contains(w)
                            && depth[w] <= depth[v] + 1 by {
                            if v == neighbor {
                                assert(queue@[old_queue.len() as int] == neighbor);
                            } else {
                                if old_queue.contains(v) {
                                    let i = choose|i: int|
                                        0 <= i < old_queue.len() && old_queue[i] == v;
                                    assert(queue@[i] == v);
                                }
                            }
                        }
                        if visited@.contains(maze.end) {
                            if neighbor == maze.end {
                                assert(queue@[old_queue.len() as int] == maze.end);
                            } else {
                                let i = choose|i: int|
                                    0 <= i < old_queue.len() && old_queue[i] == maze.end;
                                assert(queue@[i] == maze.end);
                            }
                        }
                    }
                }
                j += 1;
            }
            proof {
                assert forall|v: Position, w: Position|
                    visited@.contains(v) && !queue@.contains(v) && #[trigger] maze.step(
                        v,
                        w,
                    ) implies visited@.contains(w) && depth[w] <= depth[v] + 1 by {
                    if v == current {
                        lemma_neighbors(maze, current, w);
                    }
                }
            }
        }
        proof {
            if maze.reachable(maze.start, maze.end) {
                let path = choose|path: Seq<Position>| maze.connects(path, maze.start, maze.end);
                lemma_closed_holds_path(maze, visited@, path, path.len() - 1);
            }
        }
        None
    }
}

} // verus!
