//! Coordinates, the grid configuration, and the coordinate- and label-keyed
//! tables the parser fills and the scene planner reads.
//!
//! Each table keeps the sequence of inserted entries; its view is the map
//! those inserts build, so a later insert of the same key wins.

use vstd::prelude::*;
use crate::direction::COORD_LIMIT;
use crate::direction::Direction;

verus! {

/// A 1-indexed integer position in the voxel grid.
#[derive(PartialEq, Eq, Structural, Clone, Copy, Debug)]
pub struct Coord {
    pub x: usize,
    pub y: usize,
    pub z: usize,
}

/// The coordinate with the given components.
pub open spec fn coord_at(x: int, y: int, z: int) -> Coord {
    Coord { x: x as usize, y: y as usize, z: z as usize }
}

/// Grid dimensions and the visibility flag the key handler toggles.
#[derive(Clone, Copy, Debug)]
pub struct Config {
    pub width: usize,
    pub height: usize,
    pub depth: usize,
    pub hide: bool,
}

impl Config {
    /// Dimensions are positive and small enough that all scaled geometry
    /// stays inside `u64`.
    pub open spec fn wf(self) -> bool {
        &&& 1 <= self.width <= COORD_LIMIT
        &&& 1 <= self.height <= COORD_LIMIT
        &&& 1 <= self.depth <= COORD_LIMIT
    }

    /// `(x, y, z)` lies inside the configured grid.
    pub open spec fn in_range(self, x: int, y: int, z: int) -> bool {
        &&& 1 <= x <= self.width
        &&& 1 <= y <= self.height
        &&& 1 <= z <= self.depth
    }
}

/// A table keyed by grid coordinate.
pub struct CoordMap<V> {
    entries: Vec<(Coord, V)>,
}

spec fn map_of<V>(entries: Seq<(Coord, V)>) -> Map<Coord, V>
    decreases entries.len(),
{
    if entries.len() == 0 {
        Map::empty()
    } else {
        map_of(entries.drop_last()).insert(entries.last().0, entries.last().1)
    }
}

proof fn lemma_map_of_skip<V>(entries: Seq<(Coord, V)>, k: int, c: Coord)
    requires
        0 <= k <= entries.len(),
        forall|j: int| k <= j < entries.len() ==> (#[trigger] entries[j]).0 != c,
    ensures
        map_of(entries).contains_key(c) == map_of(entries.take(k)).contains_key(c),
        map_of(entries).contains_key(c) ==> map_of(entries)[c] == map_of(entries.take(k))[c],
    decreases entries.len() - k,
{
    if k == entries.len() {
        assert(entries.take(k) =~= entries);
    } else {
        let prev = entries.drop_last();
        assert(entries.last().0 != c);
        lemma_map_of_skip(prev, k, c);
        assert(prev.take(k) =~= entries.take(k));
    }
}

impl<V> View for CoordMap<V> {
    type V = Map<Coord, V>;

    closed spec fn view(&self) -> Map<Coord, V> {
        map_of(self.entries@)
    }
}

impl<V> CoordMap<V> {
    /// The empty table.
    pub fn new() -> (r: CoordMap<V>)
        ensures
            r@ == Map::<Coord, V>::empty(),
    {
        CoordMap { entries: Vec::new() }
    }

    /// Records `v` for coordinate `c`, replacing anything recorded before.
    pub fn insert(&mut self, c: Coord, v: V)
        ensures
            final(self)@ == old(self)@.insert(c, v),
    {
        self.entries.push((c, v));
        proof {
            assert(self.entries@.drop_last() =~= old(self).entries@);
            assert(self.entries@.last() == (c, v));
        }
    }

    /// Looks up the value recorded for `c`, if any.
    pub fn get(&self, c: Coord) -> (r: Option<&V>)
        ensures
            match r {
                Some(v) => self@.contains_key(c) && *v == self@[c],
                None => !self@.contains_key(c),
            },
    {
        let n = self.entries.len();
        let mut i: usize = n;
        while i > 0
            invariant
                i <= self.entries@.len(),
                forall|j: int| i <= j < self.entries@.len() ==> (#[trigger] self.entries@[j]).0 != c,
            decreases i,
        {
            i = i - 1;
            if self.entries[i].0 == c {
                proof {
                    lemma_map_of_skip(self.entries@, i + 1, c);
                    assert(self.entries@.take(i + 1).drop_last() =~= self.entries@.take(i as int));
                    assert(self.entries@.take(i + 1).last() == self.entries@[i as int]);
                }
                return Some(&self.entries[i].1);
            }
        }
        proof {
            lemma_map_of_skip(self.entries@, 0, c);
            assert(self.entries@.take(0) =~= Seq::<(Coord, V)>::empty());
        }
        None
    }
}

/// A table keyed by block label (the raw bytes of the label token).
pub struct LabelMap<V> {
    entries: Vec<(Vec<u8>, V)>,
}

spec fn label_map_of<V>(entries: Seq<(Vec<u8>, V)>) -> Map<Seq<u8>, V>
    decreases entries.len(),
{
    if entries.len() == 0 {
        Map::empty()
    } else {
        label_map_of(entries.drop_last()).insert(entries.last().0@, entries.last().1)
    }
}

proof fn lemma_label_map_of_skip<V>(entries: Seq<(Vec<u8>, V)>, k: int, l: Seq<u8>)
    requires
        0 <= k <= entries.len(),
        forall|j: int| k <= j < entries.len() ==> (#[trigger] entries[j]).0@ != l,
    ensures
        label_map_of(entries).contains_key(l) == label_map_of(entries.take(k)).contains_key(l),
        label_map_of(entries).contains_key(l) ==> label_map_of(entries)[l] == label_map_of(
            entries.take(k),
        )[l],
    decreases entries.len() - k,
{
    if k == entries.len() {
        assert(entries.take(k) =~= entries);
    } else {
        let prev = entries.drop_last();
        assert(entries.last().0@ != l);
        lemma_label_map_of_skip(prev, k, l);
        assert(prev.take(k) =~= entries.take(k));
    }
}

/// True exactly when the two byte strings are equal.
pub fn bytes_eq(a: &[u8], b: &[u8]) -> (r: bool)
    ensures
        r == (a@ == b@),
{
    if a.len() != b.len() {
        return false;
    }
    let mut i: usize = 0;
    while i < a.len()
        invariant
            i <= a@.len(),
            a@.len() == b@.len(),
            forall|j: int| 0 <= j < i ==> a@[j] == b@[j],
        decreases a@.len() - i,
    {
        if a[i] != b[i] {
            return false;
        }
        i = i + 1;
    }
    proof {
        assert(a@ =~= b@);
    }
    true
}

impl<V> View for LabelMap<V> {
    type V = Map<Seq<u8>, V>;

    closed spec fn view(&self) -> Map<Seq<u8>, V> {
        label_map_of(self.entries@)
    }
}

impl<V> LabelMap<V> {
    /// The empty table.
    pub fn new() -> (r: LabelMap<V>)
        ensures
            r@ == Map::<Seq<u8>, V>::empty(),
    {
        LabelMap { entries: Vec::new() }
    }

    /// Records `v` for label `l`, replacing anything recorded before.
    pub fn insert(&mut self, l: Vec<u8>, v: V)
        ensures
            final(self)@ == old(self)@.insert(l@, v),
    {
        self.entries.push((l, v));
        proof {
            assert(self.entries@.drop_last() =~= old(self).entries@);
        }
    }

    /// Looks up the value recorded for label `l`, if any.
    pub fn get(&self, l: &[u8]) -> (r: Option<&V>)
        ensures
            match r {
                Some(v) => self@.contains_key(l@) && *v == self@[l@],
                None => !self@.contains_key(l@),
            },
    {
        let n = self.entries.len();
        let mut i: usize = n;
        while i > 0
            invariant
                i <= self.entries@.len(),
                forall|j: int| i <= j < self.entries@.len() ==> (#[trigger] self.entries@[j]).0@
                    != l@,
            decreases i,
        {
            i = i - 1;
            if bytes_eq(self.entries[i].0.as_slice(), l) {
                proof {
                    lemma_label_map_of_skip(self.entries@, i + 1, l@);
                    assert(self.entries@.take(i + 1).drop_last() =~= self.entries@.take(i as int));
                    assert(self.entries@.take(i + 1).last() == self.entries@[i as int]);
                }
                return Some(&self.entries[i].1);
            }
        }
        proof {
            lemma_label_map_of_skip(self.entries@, 0, l@);
            assert(self.entries@.take(0) =~= Seq::<(Vec<u8>, V)>::empty());
        }
        None
    }
}

/// Everything the solver reported: the label of every cell, and the entry and
/// exit directions of the cells that carry a pipe.
pub struct Positions {
    pub positions: CoordMap<Vec<u8>>,
    pub pipe_positions: CoordMap<(Direction, Direction)>,
}

} // verus!
