use vstd::prelude::*;

verus! {

/// An integer grid coordinate.
#[derive(Clone, Copy, Debug, PartialEq, Eq, Structural)]
pub struct IVec2 {
    pub x: i32,
    pub y: i32,
}

impl IVec2 {
    pub fn new(x: i32, y: i32) -> (r: IVec2)
        ensures
            r.x == x,
            r.y == y,
    {
        IVec2 { x, y }
    }
}

/// Manhattan (L1) distance between two cells, as a mathematical integer.
pub open spec fn manhattan(a: IVec2, b: IVec2) -> int {
    let dx = a.x - b.x;
    let dy = a.y - b.y;
    (if dx < 0 { -dx } else { dx }) + (if dy < 0 { -dy } else { dy })
}

/// Manhattan distance computed without overflow.
pub fn manhattan_dist(a: IVec2, b: IVec2) -> (d: i64)
    ensures
        d == manhattan(a, b),
        0 <= d <= 2 * 0x1_0000_0000int,
{
    let dx: i64 = a.x as i64 - b.x as i64;
    let dy: i64 = a.y as i64 - b.y as i64;
    let ax: i64 = if dx < 0 { -dx } else { dx };
    let ay: i64 = if dy < 0 { -dy } else { dy };
    ax + ay
}

} // verus!

verus! {

/// A set of grid cells, kept as a duplicate-free list in insertion order.
///
/// The order is part of what a scheduler is handed: the claimed cells are a
/// sequence fixed by the order they were claimed in, which contracts can
/// name, and the balanced scheduler sums over them in that order. A hashed
/// set walks its cells in an order nothing specifies, so the cells it hands
/// to a scheduler could not be named as a sequence.
pub struct CellSet {
    cells: Vec<IVec2>,
}

impl CellSet {
    #[verifier::type_invariant]
    spec fn no_duplicates(self) -> bool {
        self.cells@.no_duplicates()
    }

    /// The cells in insertion order; no cell occurs twice.
    pub closed spec fn elems(&self) -> Seq<IVec2> {
        self.cells@
    }

    pub fn new() -> (s: CellSet)
        ensures
            s.elems() == Seq::<IVec2>::empty(),
    {
        CellSet { cells: Vec::new() }
    }

    pub fn contains(&self, c: &IVec2) -> (r: bool)
        ensures
            r == self.elems().contains(*c),
    {
        let mut i: usize = 0;
        while i < self.cells.len()
            invariant
                0 <= i <= self.cells@.len(),
                forall|j: int| 0 <= j < i ==> self.cells@[j] != *c,
            decreases self.cells@.len() - i,
        {
            if self.cells[i] == *c {
                return true;
            }
            i = i + 1;
        }
        false
    }

    /// Adds `c`; returns whether it was absent before.
    pub fn insert(&mut self, c: IVec2) -> (added: bool)
        ensures
            added == !old(self).elems().contains(c),
            added ==> final(self).elems() == old(self).elems().push(c),
            !added ==> final(self).elems() == old(self).elems(),
            forall|g: IVec2|
                final(self).elems().contains(g) <==> old(self).elems().contains(g) || g == c,
    {
        proof {
            use_type_invariant(&*self);
        }
        if self.contains(&c) {
            false
        } else {
            let mut cells = Vec::new();
            std::mem::swap(&mut cells, &mut self.cells);
            cells.push(c);
            self.cells = cells;
            assert forall|g: IVec2|
                self.cells@.contains(g) <==> old(self).cells@.contains(g) || g == c by {
                if self.cells@.contains(g) {
                    let k = choose|k: int| 0 <= k < self.cells@.len() && self.cells@[k] == g;
                    if k < old(self).cells@.len() {
                        assert(old(self).cells@[k] == g);
                    }
                }
                if old(self).cells@.contains(g) {
                    let k = choose|k: int|
                        0 <= k < old(self).cells@.len() && old(self).cells@[k] == g;
                    assert(self.cells@[k] == g);
                }
                if g == c {
                    assert(self.cells@[self.cells@.len() - 1] == g);
                }
            }
            true
        }
    }

    pub fn len(&self) -> (n: usize)
        ensures
            n == self.elems().len(),
    {
        self.cells.len()
    }

    pub fn is_empty(&self) -> (b: bool)
        ensures
            b == (self.elems().len() == 0),
    {
        self.cells.len() == 0
    }

    /// The cells in insertion order.
    pub fn as_slice(&self) -> (s: &[IVec2])
        ensures
            s@ == self.elems(),
            s@.no_duplicates(),
    {
        proof {
            use_type_invariant(self);
        }
        self.cells.as_slice()
    }
}

} // verus!
