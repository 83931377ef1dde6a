//! Sparse maps and sets of squares of an unbounded grid, by their integer
//! coordinates. A square `(x, y)` is kept under one 64-bit key that holds `x` in
//! its high half and `y` in its low half, each moved up by 2^31.

use std::collections::HashMap;
use std::collections::HashSet;
use vstd::prelude::*;

verus! {

broadcast use vstd::std_specs::hash::group_hash_axioms;

/// Both coordinates of `p` are 32-bit signed integers.
pub open spec fn on_grid(p: (int, int)) -> bool {
    &&& i32::MIN <= p.0 <= i32::MAX
    &&& i32::MIN <= p.1 <= i32::MAX
}

/// The key under which the square `(x, y)` is kept.
pub open spec fn key_of(x: int, y: int) -> u64 {
    ((x + 0x8000_0000) * 0x1_0000_0000 + (y + 0x8000_0000)) as u64
}

/// Two squares of the grid with the same key are the same square.
pub proof fn lemma_key_injective(p: (int, int), q: (int, int))
    requires
        on_grid(p),
        on_grid(q),
        key_of(p.0, p.1) == key_of(q.0, q.1),
    ensures
        p == q,
{
}

/// Computes the key of a square.
fn key(x: i32, y: i32) -> (k: u64)
    ensures
        k == key_of(x as int, y as int),
{
    let column: u64 = (x as i64 + 0x8000_0000) as u64;
    let row: u64 = (y as i64 + 0x8000_0000) as u64;
    column * 0x1_0000_0000 + row
}

/// A map from squares of the grid to values.
pub struct GridMap<V> {
    cells: HashMap<u64, V>,
}

impl<V> View for GridMap<V> {
    type V = Map<(int, int), V>;

    closed spec fn view(&self) -> Map<(int, int), V> {
        Map::new(
            |p: (int, int)| on_grid(p) && self.cells@.contains_key(key_of(p.0, p.1)),
            |p: (int, int)| self.cells@[key_of(p.0, p.1)],
        )
    }
}

/// The value of a square, if the map holds one.
pub open spec fn lookup<V>(cells: Map<(int, int), V>, p: (int, int)) -> Option<V> {
    if cells.contains_key(p) {
        Some(cells[p])
    } else {
        None
    }
}

impl<V> GridMap<V> {
    /// An empty map.
    pub fn new() -> (map: GridMap<V>)
        ensures
            map@ == Map::<(int, int), V>::empty(),
    {
        GridMap { cells: HashMap::new() }
    }

    /// Every square of the map lies on the grid.
    pub proof fn lemma_on_grid(&self)
        ensures
            forall|p: (int, int)| self@.contains_key(p) ==> on_grid(p),
    {
    }

    /// Sets the value of a square, in place of an earlier one.
    pub fn insert(&mut self, x: i32, y: i32, value: V)
        ensures
            final(self)@ == old(self)@.insert((x as int, y as int), value),
    {
        let k = key(x, y);
        self.cells.insert(k, value);
    }

    /// Gives the value of a square, if the map holds one.
    pub fn get(&self, x: i32, y: i32) -> (value: Option<&V>)
        ensures
            match value {
                Some(v) => lookup(self@, (x as int, y as int)) == Some(*v),
                None => lookup(self@, (x as int, y as int)) is None,
            },
    {
        let k = key(x, y);
        self.cells.get(&k)
    }

    /// Tells whether the map holds a value for a square.
    pub fn contains_key(&self, x: i32, y: i32) -> (held: bool)
        ensures
            held == self@.contains_key((x as int, y as int)),
    {
        let k = key(x, y);
        self.cells.contains_key(&k)
    }
}

/// A set of squares of the grid.
pub struct GridSet {
    cells: HashSet<u64>,
}

impl View for GridSet {
    type V = Set<(int, int)>;

    closed spec fn view(&self) -> Set<(int, int)> {
        Set::new(|p: (int, int)| on_grid(p) && self.cells@.contains(key_of(p.0, p.1)))
    }
}

impl GridSet {
    /// An empty set.
    pub fn new() -> (set: GridSet)
        ensures
            set@ == Set::<(int, int)>::empty(),
    {
        GridSet { cells: HashSet::new() }
    }

    /// Adds a square.
    pub fn insert(&mut self, x: i32, y: i32)
        ensures
            final(self)@ == old(self)@.insert((x as int, y as int)),
    {
        let k = key(x, y);
        self.cells.insert(k);
    }

    /// Tells whether a square is in the set.
    pub fn contains(&self, x: i32, y: i32) -> (held: bool)
        ensures
            held == self@.contains((x as int, y as int)),
    {
        let k = key(x, y);
        self.cells.contains(&k)
    }
}

} // verus!
