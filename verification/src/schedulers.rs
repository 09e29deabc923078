use vstd::prelude::*;

use rand_chacha::ChaCha8Rng;

use crate::grid::{manhattan, manhattan_dist, CellSet, IVec2};
use crate::rng::random_index;
use crate::task::ZoneMap;

verus! {

// ---------------------------------------------------------------------------
// What a scheduler may choose
// ---------------------------------------------------------------------------

/// A cell other than the agent's own position that no one has claimed.
pub open spec fn is_free(pos: IVec2, occupied: Seq<IVec2>, c: IVec2) -> bool {
    c != pos && !occupied.contains(c)
}

/// No cell of `cells` is free.
pub open spec fn none_free(cells: Seq<IVec2>, pos: IVec2, occupied: Seq<IVec2>) -> bool {
    forall|i: int| 0 <= i < cells.len() ==> !is_free(pos, occupied, #[trigger] cells[i])
}

/// `r` is a free cell of `cells`, and `None` exactly when there is none.
pub open spec fn valid_choice(
    cells: Seq<IVec2>,
    pos: IVec2,
    occupied: Seq<IVec2>,
    r: Option<IVec2>,
) -> bool {
    match r {
        Some(c) => cells.contains(c) && is_free(pos, occupied, c),
        None => none_free(cells, pos, occupied),
    }
}

/// Among the first `n` cells, `cells[k]` is the first free one with the
/// least `key`.
pub open spec fn first_min_free_at(
    cells: Seq<IVec2>,
    n: int,
    pos: IVec2,
    occupied: Seq<IVec2>,
    key: spec_fn(IVec2) -> int,
    k: int,
) -> bool {
    &&& 0 <= k < n <= cells.len()
    &&& is_free(pos, occupied, cells[k])
    &&& forall|j: int|
        0 <= j < n && is_free(pos, occupied, #[trigger] cells[j]) ==> key(cells[j]) >= key(
            cells[k],
        )
    &&& forall|j: int|
        0 <= j < k && is_free(pos, occupied, #[trigger] cells[j]) ==> key(cells[j]) > key(
            cells[k],
        )
}

/// `c` is the first free cell of `cells` with the least `key`.
pub open spec fn is_first_min_free(
    cells: Seq<IVec2>,
    pos: IVec2,
    occupied: Seq<IVec2>,
    key: spec_fn(IVec2) -> int,
    c: IVec2,
) -> bool {
    exists|k: int| first_min_free_at(cells, cells.len() as int, pos, occupied, key, k) && cells[k] == c
}

/// Distance from the agent, the key of nearest-first choices.
pub open spec fn dist_from(pos: IVec2) -> spec_fn(IVec2) -> int {
    |c: IVec2| manhattan(c, pos)
}

/// A nearest-first choice: the first free cell nearest to the agent.
pub open spec fn nearest_choice(
    cells: Seq<IVec2>,
    pos: IVec2,
    occupied: Seq<IVec2>,
    r: Option<IVec2>,
) -> bool {
    &&& valid_choice(cells, pos, occupied, r)
    &&& r matches Some(c) ==> is_first_min_free(cells, pos, occupied, dist_from(pos), c)
}

/// A balanced choice: with cells claimed, the last free cell that no free
/// cell is preferred to; with none claimed, any free cell.
pub open spec fn balanced_choice(
    cells: Seq<IVec2>,
    pos: IVec2,
    occupied: Seq<IVec2>,
    r: Option<IVec2>,
) -> bool {
    &&& valid_choice(cells, pos, occupied, r)
    &&& occupied.len() > 0 ==> (r matches Some(c) ==> is_last_best_balanced(
        cells,
        pos,
        occupied,
        c,
    ))
}

/// A round-trip choice: the first free pickup cell with the least round-trip
/// cost.
pub open spec fn round_trip_choice(
    pickups: Seq<IVec2>,
    deliveries: Seq<IVec2>,
    pos: IVec2,
    occupied: Seq<IVec2>,
    r: Option<IVec2>,
) -> bool {
    &&& valid_choice(pickups, pos, occupied, r)
    &&& r matches Some(c) ==> is_first_min_free(
        pickups,
        pos,
        occupied,
        round_trip_cost(pos, deliveries),
        c,
    )
}

// ---------------------------------------------------------------------------
// The scheduler interface
// ---------------------------------------------------------------------------

/// Chooses pickup and delivery cells for agents.
pub trait TaskScheduler: Send + Sync + 'static {
    /// The name under which the scheduler is selected.
    spec fn spec_name(&self) -> Seq<char>;

    fn name(&self) -> (s: &str)
        ensures
            s@ == self.spec_name(),
    ;

    /// The pickup cells this scheduler may choose for an agent at `pos`
    /// with the cells `occupied` claimed.
    spec fn pickup_choice(
        &self,
        pickups: Seq<IVec2>,
        deliveries: Seq<IVec2>,
        pos: IVec2,
        occupied: Seq<IVec2>,
        r: Option<IVec2>,
    ) -> bool;

    /// The delivery cells this scheduler may choose for an agent at `pos`
    /// with the cells `occupied` claimed.
    spec fn delivery_choice(
        &self,
        deliveries: Seq<IVec2>,
        pos: IVec2,
        occupied: Seq<IVec2>,
        r: Option<IVec2>,
    ) -> bool;

    /// Whether a choice with the cells `occupied` claimed may draw from the
    /// random generator; when it may not, the generator is left as it is.
    spec fn may_draw(&self, occupied: Seq<IVec2>) -> bool;

    /// A free pickup cell for an agent at `pos`, or `None` when every pickup
    /// cell is the agent's own or already claimed.
    fn assign_pickup(
        &self,
        zones: &ZoneMap,
        pos: IVec2,
        occupied: &CellSet,
        rng: &mut ChaCha8Rng,
    ) -> (r: Option<IVec2>)
        ensures
            valid_choice(zones.pickup_cells@, pos, occupied.elems(), r),
            self.pickup_choice(
                zones.pickup_cells@,
                zones.delivery_cells@,
                pos,
                occupied.elems(),
                r,
            ),
            !self.may_draw(occupied.elems()) ==> *final(rng) == *old(rng),
    ;

    /// A free delivery cell for an agent at `pos`, or `None` when every
    /// delivery cell is the agent's own or already claimed.
    fn assign_delivery(
        &self,
        zones: &ZoneMap,
        pos: IVec2,
        occupied: &CellSet,
        rng: &mut ChaCha8Rng,
    ) -> (r: Option<IVec2>)
        ensures
            valid_choice(zones.delivery_cells@, pos, occupied.elems(), r),
            self.delivery_choice(zones.delivery_cells@, pos, occupied.elems(), r),
            !self.may_draw(occupied.elems()) ==> *final(rng) == *old(rng),
    ;
}

/// The free cells of `s`, in order.
pub open spec fn free_of(s: Seq<IVec2>, pos: IVec2, occupied: Seq<IVec2>) -> Seq<IVec2>
    decreases s.len(),
{
    if s.len() == 0 {
        Seq::empty()
    } else {
        let rest = free_of(s.drop_last(), pos, occupied);
        if is_free(pos, occupied, s.last()) {
            rest.push(s.last())
        } else {
            rest
        }
    }
}

pub proof fn lemma_free_of_contains(s: Seq<IVec2>, pos: IVec2, occupied: Seq<IVec2>, c: IVec2)
    ensures
        free_of(s, pos, occupied).contains(c) <==> s.contains(c) && is_free(pos, occupied, c),
    decreases s.len(),
{
    if s.len() > 0 {
        lemma_free_of_contains(s.drop_last(), pos, occupied, c);
        let rest = free_of(s.drop_last(), pos, occupied);
        let f = free_of(s, pos, occupied);
        if is_free(pos, occupied, s.last()) {
            assert(f == rest.push(s.last()));
        } else {
            assert(f == rest);
        }
        if s.contains(c) && is_free(pos, occupied, c) {
            let k = choose|k: int| 0 <= k < s.len() && s[k] == c;
            if k < s.len() - 1 {
                assert(s.drop_last()[k] == c);
                assert(rest.contains(c));
                let m = choose|m: int| 0 <= m < rest.len() && rest[m] == c;
                assert(f[m] == c);
            } else {
                assert(f[f.len() - 1] == c);
            }
        }
        if f.contains(c) {
            let m = choose|m: int| 0 <= m < f.len() && f[m] == c;
            if m < rest.len() {
                assert(rest[m] == c);
                let k = choose|k: int| 0 <= k < s.drop_last().len() && s.drop_last()[k] == c;
                assert(s[k] == c);
            } else {
                assert(c == s.last());
                assert(s[s.len() - 1] == c);
            }
        }
    }
}

/// The free cells of `cells`, in order.
fn free_cells(cells: &[IVec2], pos: IVec2, occupied: &CellSet) -> (free: Vec<IVec2>)
    ensures
        free@ == free_of(cells@, pos, occupied.elems()),
{
    let mut free: Vec<IVec2> = Vec::new();
    let mut i: usize = 0;
    while i < cells.len()
        invariant
            0 <= i <= cells@.len(),
            free@ == free_of(cells@.take(i as int), pos, occupied.elems()),
        decreases cells@.len() - i,
    {
        let c = cells[i];
        assert(cells@.take(i + 1).drop_last() == cells@.take(i as int));
        if c != pos && !occupied.contains(&c) {
            free.push(c);
        }
        i = i + 1;
    }
    assert(cells@.take(cells@.len() as int) == cells@);
    free
}

} // verus!

verus! {

proof fn lemma_none_free_of_empty(cells: Seq<IVec2>, pos: IVec2, occupied: Seq<IVec2>)
    requires
        free_of(cells, pos, occupied).len() == 0,
    ensures
        none_free(cells, pos, occupied),
{
    assert forall|i: int| 0 <= i < cells.len() implies !is_free(pos, occupied, #[trigger] cells[i]) by {
        lemma_free_of_contains(cells, pos, occupied, cells[i]);
    }
}

proof fn lemma_free_of_member(cells: Seq<IVec2>, pos: IVec2, occupied: Seq<IVec2>, j: int)
    requires
        0 <= j < free_of(cells, pos, occupied).len(),
    ensures
        valid_choice(cells, pos, occupied, Some(free_of(cells, pos, occupied)[j])),
{
    lemma_free_of_contains(cells, pos, occupied, free_of(cells, pos, occupied)[j]);
}

// ---------------------------------------------------------------------------
// RandomScheduler
// ---------------------------------------------------------------------------

/// Picks a free cell at random.
pub struct RandomScheduler;

impl RandomScheduler {
    /// Up to 200 random draws from `cells`; if none of them is free, a random
    /// cell among all free cells; `None` when there is none.
    fn random_from_cells(
        cells: &[IVec2],
        pos: IVec2,
        occupied: &CellSet,
        rng: &mut ChaCha8Rng,
    ) -> (r: Option<IVec2>)
        ensures
            valid_choice(cells@, pos, occupied.elems(), r),
    {
        if cells.len() == 0 {
            return None;
        }
        let mut attempt: usize = 0;
        while attempt < 200
            invariant
                cells@.len() > 0,
            decreases 200 - attempt,
        {
            let idx = random_index(rng, cells.len());
            let cell = cells[idx];
            if cell != pos && !occupied.contains(&cell) {
                assert(cells@[idx as int] == cell);
                return Some(cell);
            }
            attempt = attempt + 1;
        }
        let valid = free_cells(cells, pos, occupied);
        if valid.len() == 0 {
            proof {
                lemma_none_free_of_empty(cells@, pos, occupied.elems());
            }
            None
        } else {
            let j = random_index(rng, valid.len());
            proof {
                lemma_free_of_member(cells@, pos, occupied.elems(), j as int);
            }
            Some(valid[j])
        }
    }
}

impl TaskScheduler for RandomScheduler {
    open spec fn spec_name(&self) -> Seq<char> {
        "random"@
    }

    open spec fn pickup_choice(
        &self,
        pickups: Seq<IVec2>,
        deliveries: Seq<IVec2>,
        pos: IVec2,
        occupied: Seq<IVec2>,
        r: Option<IVec2>,
    ) -> bool {
        valid_choice(pickups, pos, occupied, r)
    }

    open spec fn delivery_choice(
        &self,
        deliveries: Seq<IVec2>,
        pos: IVec2,
        occupied: Seq<IVec2>,
        r: Option<IVec2>,
    ) -> bool {
        valid_choice(deliveries, pos, occupied, r)
    }

    open spec fn may_draw(&self, occupied: Seq<IVec2>) -> bool {
        true
    }

    fn name(&self) -> (s: &str) {
        "random"
    }

    fn assign_pickup(
        &self,
        zones: &ZoneMap,
        pos: IVec2,
        occupied: &CellSet,
        rng: &mut ChaCha8Rng,
    ) -> (r: Option<IVec2>) {
        Self::random_from_cells(zones.pickup_cells.as_slice(), pos, occupied, rng)
    }

    fn assign_delivery(
        &self,
        zones: &ZoneMap,
        pos: IVec2,
        occupied: &CellSet,
        rng: &mut ChaCha8Rng,
    ) -> (r: Option<IVec2>) {
        Self::random_from_cells(zones.delivery_cells.as_slice(), pos, occupied, rng)
    }
}

// ---------------------------------------------------------------------------
// ClosestFirstScheduler
// ---------------------------------------------------------------------------

/// Picks the nearest free cell (Manhattan distance), the first such in
/// list order on ties.
pub struct ClosestFirstScheduler;

impl ClosestFirstScheduler {
    fn nearest_from_cells(cells: &[IVec2], pos: IVec2, occupied: &CellSet) -> (r: Option<IVec2>)
        ensures
            valid_choice(cells@, pos, occupied.elems(), r),
            r matches Some(c) ==> is_first_min_free(
                cells@,
                pos,
                occupied.elems(),
                dist_from(pos),
                c,
            ),
    {
        let ghost occ = occupied.elems();
        let ghost key = dist_from(pos);
        let mut best: Option<(usize, i64)> = None;
        let mut i: usize = 0;
        while i < cells.len()
            invariant
                0 <= i <= cells@.len(),
                occ == occupied.elems(),
                key == dist_from(pos),
                best is None ==> forall|j: int|
                    0 <= j < i ==> !is_free(pos, occ, #[trigger] cells@[j]),
                best matches Some((k, d)) ==> first_min_free_at(
                    cells@,
                    i as int,
                    pos,
                    occ,
                    key,
                    k as int,
                ) && d == manhattan(cells@[k as int], pos),
            decreases cells@.len() - i,
        {
            let c = cells[i];
            if c != pos && !occupied.contains(&c) {
                let d = manhattan_dist(c, pos);
                match best {
                    None => {
                        best = Some((i, d));
                    },
                    Some((k, bd)) => {
                        if d < bd {
                            best = Some((i, d));
                        }
                    },
                }
            }
            i = i + 1;
        }
        match best {
            None => None,
            Some((k, _)) => {
                assert(cells@[k as int] == cells[k as int]);
                Some(cells[k])
            },
        }
    }
}

impl TaskScheduler for ClosestFirstScheduler {
    open spec fn spec_name(&self) -> Seq<char> {
        "closest"@
    }

    open spec fn pickup_choice(
        &self,
        pickups: Seq<IVec2>,
        deliveries: Seq<IVec2>,
        pos: IVec2,
        occupied: Seq<IVec2>,
        r: Option<IVec2>,
    ) -> bool {
        nearest_choice(pickups, pos, occupied, r)
    }

    open spec fn delivery_choice(
        &self,
        deliveries: Seq<IVec2>,
        pos: IVec2,
        occupied: Seq<IVec2>,
        r: Option<IVec2>,
    ) -> bool {
        nearest_choice(deliveries, pos, occupied, r)
    }

    open spec fn may_draw(&self, occupied: Seq<IVec2>) -> bool {
        false
    }

    fn name(&self) -> (s: &str) {
        "closest"
    }

    fn assign_pickup(
        &self,
        zones: &ZoneMap,
        pos: IVec2,
        occupied: &CellSet,
        rng: &mut ChaCha8Rng,
    ) -> (r: Option<IVec2>)
    {
        Self::nearest_from_cells(zones.pickup_cells.as_slice(), pos, occupied)
    }

    fn assign_delivery(
        &self,
        zones: &ZoneMap,
        pos: IVec2,
        occupied: &CellSet,
        rng: &mut ChaCha8Rng,
    ) -> (r: Option<IVec2>)
    {
        Self::nearest_from_cells(zones.delivery_cells.as_slice(), pos, occupied)
    }
}

} // verus!

verus! {

// ---------------------------------------------------------------------------
// BalancedScheduler
// ---------------------------------------------------------------------------

pub open spec fn sum_x(s: Seq<IVec2>) -> int
    decreases s.len(),
{
    if s.len() == 0 {
        0
    } else {
        sum_x(s.drop_last()) + s.last().x
    }
}

pub open spec fn sum_y(s: Seq<IVec2>) -> int
    decreases s.len(),
{
    if s.len() == 0 {
        0
    } else {
        sum_y(s.drop_last()) + s.last().y
    }
}

pub open spec fn abs_int(v: int) -> int {
    if v < 0 {
        -v
    } else {
        v
    }
}

/// Manhattan distance of `a` from the centroid of `occupied`, scaled by the
/// number of occupied cells (so that it is an integer).
pub open spec fn centroid_spread(occupied: Seq<IVec2>, a: IVec2) -> int {
    let n = occupied.len() as int;
    abs_int(n * a.x - sum_x(occupied)) + abs_int(n * a.y - sum_y(occupied))
}

/// `a` is strictly preferred to `b`: farther from the centroid of the claimed
/// cells, or as far and closer to the agent.
pub open spec fn balanced_better(occupied: Seq<IVec2>, pos: IVec2, a: IVec2, b: IVec2) -> bool {
    ||| centroid_spread(occupied, a) > centroid_spread(occupied, b)
    ||| centroid_spread(occupied, a) == centroid_spread(occupied, b) && manhattan(a, pos)
        < manhattan(b, pos)
}

/// Among the first `n` cells, `cells[k]` is the last free one that no free
/// cell is preferred to.
pub open spec fn last_best_balanced_at(
    cells: Seq<IVec2>,
    n: int,
    pos: IVec2,
    occupied: Seq<IVec2>,
    k: int,
) -> bool {
    &&& 0 <= k < n <= cells.len()
    &&& is_free(pos, occupied, cells[k])
    &&& forall|j: int|
        0 <= j < n && is_free(pos, occupied, #[trigger] cells[j]) ==> !balanced_better(
            occupied,
            pos,
            cells[j],
            cells[k],
        )
    &&& forall|j: int|
        k < j < n && is_free(pos, occupied, #[trigger] cells[j]) ==> balanced_better(
            occupied,
            pos,
            cells[k],
            cells[j],
        )
}

/// `c` is the last free cell of `cells` that no free cell is preferred to.
pub open spec fn is_last_best_balanced(
    cells: Seq<IVec2>,
    pos: IVec2,
    occupied: Seq<IVec2>,
    c: IVec2,
) -> bool {
    exists|k: int| last_best_balanced_at(cells, cells.len() as int, pos, occupied, k) && cells[k] == c
}

/// Spreads agents out: picks the free cell farthest (Manhattan) from the
/// centroid of the claimed cells, preferring the one closer to the agent on
/// ties (and the later one in list order when both are equal). Distances to
/// the centroid are compared exactly, scaled by the number of claimed cells.
/// With no claimed cells it picks a free cell at random.
pub struct BalancedScheduler;

proof fn lemma_sum_bound(s: Seq<IVec2>)
    ensures
        abs_int(sum_x(s)) <= s.len() * 0x8000_0000int,
        abs_int(sum_y(s)) <= s.len() * 0x8000_0000int,
    decreases s.len(),
{
    if s.len() > 0 {
        lemma_sum_bound(s.drop_last());
    }
}

fn centroid_sums(occupied: &CellSet) -> (r: (i128, i128))
    ensures
        r.0 == sum_x(occupied.elems()),
        r.1 == sum_y(occupied.elems()),
{
    let cells = occupied.as_slice();
    let mut sx: i128 = 0;
    let mut sy: i128 = 0;
    let mut i: usize = 0;
    while i < cells.len()
        invariant
            0 <= i <= cells@.len(),
            cells@ == occupied.elems(),
            sx == sum_x(cells@.take(i as int)),
            sy == sum_y(cells@.take(i as int)),
        decreases cells@.len() - i,
    {
        proof {
            assert(cells@.take(i + 1).drop_last() == cells@.take(i as int));
            lemma_sum_bound(cells@.take(i as int));
            assert(i < 0x1_0000_0000_0000_0000int);
            assert(i * 0x8000_0000int <= 0x1_0000_0000_0000_0000int * 0x8000_0000int)
                by (nonlinear_arith)
                requires
                    i < 0x1_0000_0000_0000_0000int,
            ;
        }
        sx = sx + cells[i].x as i128;
        sy = sy + cells[i].y as i128;
        i = i + 1;
    }
    assert(cells@.take(cells@.len() as int) == cells@);
    (sx, sy)
}

fn spread_of(a: IVec2, n: usize, sx: i128, sy: i128, Ghost(occupied): Ghost<Seq<IVec2>>) -> (r: i128)
    requires
        n == occupied.len(),
        sx == sum_x(occupied),
        sy == sum_y(occupied),
    ensures
        r == centroid_spread(occupied, a),
{
    proof {
        lemma_sum_bound(occupied);
        assert(n < 0x1_0000_0000_0000_0000int);
        assert(abs_int(n * a.x) <= 0x1_0000_0000_0000_0000int * 0x8000_0000int
            && abs_int(n * a.y) <= 0x1_0000_0000_0000_0000int * 0x8000_0000int)
            by (nonlinear_arith)
            requires
                0 <= n < 0x1_0000_0000_0000_0000int,
                -0x8000_0000int <= a.x < 0x8000_0000int,
                -0x8000_0000int <= a.y < 0x8000_0000int,
        ;
        assert(n * 0x8000_0000int <= 0x1_0000_0000_0000_0000int * 0x8000_0000int)
            by (nonlinear_arith)
            requires
                0 <= n < 0x1_0000_0000_0000_0000int,
        ;
    }
    let nn = n as i128;
    let dx: i128 = nn * (a.x as i128) - sx;
    let dy: i128 = nn * (a.y as i128) - sy;
    let ax: i128 = if dx < 0 { -dx } else { dx };
    let ay: i128 = if dy < 0 { -dy } else { dy };
    ax + ay
}

impl BalancedScheduler {
    fn least_used_cell(
        cells: &[IVec2],
        pos: IVec2,
        occupied: &CellSet,
        rng: &mut ChaCha8Rng,
    ) -> (r: Option<IVec2>)
        ensures
            valid_choice(cells@, pos, occupied.elems(), r),
            occupied.elems().len() > 0 ==> (r matches Some(c) ==> is_last_best_balanced(
                cells@,
                pos,
                occupied.elems(),
                c,
            )),
            occupied.elems().len() > 0 ==> *final(rng) == *old(rng),
    {
        if cells.len() == 0 {
            return None;
        }
        let free = free_cells(cells, pos, occupied);
        if free.len() == 0 {
            proof {
                lemma_none_free_of_empty(cells@, pos, occupied.elems());
            }
            return None;
        }
        if occupied.is_empty() {
            let j = random_index(rng, free.len());
            proof {
                lemma_free_of_member(cells@, pos, occupied.elems(), j as int);
            }
            return Some(free[j]);
        }
        let ghost occ = occupied.elems();
        let n = occupied.len();
        let (sx, sy) = centroid_sums(occupied);
        let mut best: Option<(usize, i128, i64)> = None;
        let mut i: usize = 0;
        while i < cells.len()
            invariant
                0 <= i <= cells@.len(),
                occ == occupied.elems(),
                n == occ.len(),
                sx == sum_x(occ),
                sy == sum_y(occ),
                best is None ==> forall|j: int|
                    0 <= j < i ==> !is_free(pos, occ, #[trigger] cells@[j]),
                best matches Some((k, sp, d)) ==> last_best_balanced_at(
                    cells@,
                    i as int,
                    pos,
                    occ,
                    k as int,
                ) && sp == centroid_spread(occ, cells@[k as int]) && d == manhattan(
                    cells@[k as int],
                    pos,
                ),
            decreases cells@.len() - i,
        {
            let c = cells[i];
            if c != pos && !occupied.contains(&c) {
                let sp = spread_of(c, n, sx, sy, Ghost(occ));
                let d = manhattan_dist(c, pos);
                match best {
                    None => {
                        best = Some((i, sp, d));
                    },
                    Some((k, bsp, bd)) => {
                        // keep the earlier cell only when it is strictly preferred
                        if !(bsp > sp || (bsp == sp && bd < d)) {
                            best = Some((i, sp, d));
                        }
                    },
                }
            }
            i = i + 1;
        }
        match best {
            None => {
                proof {
                    lemma_free_of_member(cells@, pos, occ, 0);
                    let c0 = free_of(cells@, pos, occ)[0];
                    let k0 = choose|k0: int| 0 <= k0 < cells@.len() && cells@[k0] == c0;
                    assert(!is_free(pos, occ, cells@[k0]));
                }
                None
            },
            Some((k, _, _)) => {
                assert(cells@[k as int] == cells[k as int]);
                Some(cells[k])
            },
        }
    }
}

impl TaskScheduler for BalancedScheduler {
    open spec fn spec_name(&self) -> Seq<char> {
        "balanced"@
    }

    open spec fn pickup_choice(
        &self,
        pickups: Seq<IVec2>,
        deliveries: Seq<IVec2>,
        pos: IVec2,
        occupied: Seq<IVec2>,
        r: Option<IVec2>,
    ) -> bool {
        balanced_choice(pickups, pos, occupied, r)
    }

    open spec fn delivery_choice(
        &self,
        deliveries: Seq<IVec2>,
        pos: IVec2,
        occupied: Seq<IVec2>,
        r: Option<IVec2>,
    ) -> bool {
        balanced_choice(deliveries, pos, occupied, r)
    }

    open spec fn may_draw(&self, occupied: Seq<IVec2>) -> bool {
        occupied.len() == 0
    }

    fn name(&self) -> (s: &str) {
        "balanced"
    }

    fn assign_pickup(
        &self,
        zones: &ZoneMap,
        pos: IVec2,
        occupied: &CellSet,
        rng: &mut ChaCha8Rng,
    ) -> (r: Option<IVec2>)
    {
        Self::least_used_cell(zones.pickup_cells.as_slice(), pos, occupied, rng)
    }

    fn assign_delivery(
        &self,
        zones: &ZoneMap,
        pos: IVec2,
        occupied: &CellSet,
        rng: &mut ChaCha8Rng,
    ) -> (r: Option<IVec2>)
    {
        Self::least_used_cell(zones.delivery_cells.as_slice(), pos, occupied, rng)
    }
}

} // verus!

verus! {

// ---------------------------------------------------------------------------
// RoundTripScheduler
// ---------------------------------------------------------------------------

/// Distance from `p` to the nearest of `deliveries`; 0 when there are none.
pub open spec fn min_delivery_dist(p: IVec2, deliveries: Seq<IVec2>) -> int
    decreases deliveries.len(),
{
    if deliveries.len() == 0 {
        0
    } else if deliveries.len() == 1 {
        manhattan(deliveries[0], p)
    } else {
        let rest = min_delivery_dist(p, deliveries.drop_last());
        let d = manhattan(deliveries.last(), p);
        if d < rest {
            d
        } else {
            rest
        }
    }
}

/// `min_delivery_dist` is the least distance to a delivery cell.
pub proof fn lemma_min_delivery_dist_is_least(p: IVec2, deliveries: Seq<IVec2>)
    requires
        deliveries.len() > 0,
    ensures
        forall|j: int|
            0 <= j < deliveries.len() ==> min_delivery_dist(p, deliveries) <= manhattan(
                #[trigger] deliveries[j],
                p,
            ),
        exists|j: int|
            0 <= j < deliveries.len() && min_delivery_dist(p, deliveries) == manhattan(
                #[trigger] deliveries[j],
                p,
            ),
    decreases deliveries.len(),
{
    if deliveries.len() > 1 {
        let rest = deliveries.drop_last();
        lemma_min_delivery_dist_is_least(p, rest);
        assert forall|j: int| 0 <= j < deliveries.len() implies min_delivery_dist(p, deliveries)
            <= manhattan(#[trigger] deliveries[j], p) by {
            if j < rest.len() {
                assert(rest[j] == deliveries[j]);
            }
        }
        let jr = choose|j: int| 0 <= j < rest.len() && min_delivery_dist(p, rest) == manhattan(
            #[trigger] rest[j],
            p,
        );
        assert(rest[jr] == deliveries[jr]);
        assert(deliveries[deliveries.len() - 1] == deliveries.last());
    } else {
        assert(min_delivery_dist(p, deliveries) == manhattan(deliveries[0], p));
    }
}

/// Round-trip cost of a pickup cell: the way there plus the way on to the
/// nearest delivery cell.
pub open spec fn round_trip_cost(pos: IVec2, deliveries: Seq<IVec2>) -> spec_fn(IVec2) -> int {
    |p: IVec2| manhattan(p, pos) + min_delivery_dist(p, deliveries)
}

/// Minimizes the total round trip: pickup by `round_trip_cost` (the first
/// such in list order on ties); delivery nearest first.
pub struct RoundTripScheduler;

impl RoundTripScheduler {
    fn min_delivery_dist(pickup: IVec2, delivery_cells: &[IVec2]) -> (d: i64)
        ensures
            d == min_delivery_dist(pickup, delivery_cells@),
            0 <= d <= 2 * 0x1_0000_0000int,
    {
        if delivery_cells.len() == 0 {
            return 0;
        }
        let mut m = manhattan_dist(delivery_cells[0], pickup);
        let mut i: usize = 1;
        assert(delivery_cells@.take(1) =~= seq![delivery_cells@[0]]);
        while i < delivery_cells.len()
            invariant
                1 <= i <= delivery_cells@.len(),
                m == min_delivery_dist(pickup, delivery_cells@.take(i as int)),
                0 <= m <= 2 * 0x1_0000_0000int,
            decreases delivery_cells@.len() - i,
        {
            assert(delivery_cells@.take(i + 1).drop_last() == delivery_cells@.take(i as int));
            let d = manhattan_dist(delivery_cells[i], pickup);
            if d < m {
                m = d;
            }
            i = i + 1;
        }
        assert(delivery_cells@.take(delivery_cells@.len() as int) == delivery_cells@);
        m
    }
}

impl TaskScheduler for RoundTripScheduler {
    open spec fn spec_name(&self) -> Seq<char> {
        "roundtrip"@
    }

    open spec fn pickup_choice(
        &self,
        pickups: Seq<IVec2>,
        deliveries: Seq<IVec2>,
        pos: IVec2,
        occupied: Seq<IVec2>,
        r: Option<IVec2>,
    ) -> bool {
        round_trip_choice(pickups, deliveries, pos, occupied, r)
    }

    open spec fn delivery_choice(
        &self,
        deliveries: Seq<IVec2>,
        pos: IVec2,
        occupied: Seq<IVec2>,
        r: Option<IVec2>,
    ) -> bool {
        nearest_choice(deliveries, pos, occupied, r)
    }

    open spec fn may_draw(&self, occupied: Seq<IVec2>) -> bool {
        false
    }

    fn name(&self) -> (s: &str) {
        "roundtrip"
    }

    fn assign_pickup(
        &self,
        zones: &ZoneMap,
        pos: IVec2,
        occupied: &CellSet,
        rng: &mut ChaCha8Rng,
    ) -> (r: Option<IVec2>)
    {
        let cells = zones.pickup_cells.as_slice();
        let ghost occ = occupied.elems();
        let ghost key = round_trip_cost(pos, zones.delivery_cells@);
        let mut best: Option<(usize, i64)> = None;
        let mut i: usize = 0;
        while i < cells.len()
            invariant
                0 <= i <= cells@.len(),
                cells@ == zones.pickup_cells@,
                occ == occupied.elems(),
                key == round_trip_cost(pos, zones.delivery_cells@),
                best is None ==> forall|j: int|
                    0 <= j < i ==> !is_free(pos, occ, #[trigger] cells@[j]),
                best matches Some((k, d)) ==> first_min_free_at(
                    cells@,
                    i as int,
                    pos,
                    occ,
                    key,
                    k as int,
                ) && d == key(cells@[k as int]),
            decreases cells@.len() - i,
        {
            let c = cells[i];
            if c != pos && !occupied.contains(&c) {
                let to_pickup = manhattan_dist(c, pos);
                let pickup_to_delivery = Self::min_delivery_dist(
                    c,
                    zones.delivery_cells.as_slice(),
                );
                let d = to_pickup + pickup_to_delivery;
                match best {
                    None => {
                        best = Some((i, d));
                    },
                    Some((k, bd)) => {
                        if d < bd {
                            best = Some((i, d));
                        }
                    },
                }
            }
            i = i + 1;
        }
        match best {
            None => None,
            Some((k, _)) => {
                assert(cells@[k as int] == cells[k as int]);
                Some(cells[k])
            },
        }
    }

    fn assign_delivery(
        &self,
        zones: &ZoneMap,
        pos: IVec2,
        occupied: &CellSet,
        rng: &mut ChaCha8Rng,
    ) -> (r: Option<IVec2>)
    {
        ClosestFirstScheduler::nearest_from_cells(zones.delivery_cells.as_slice(), pos, occupied)
    }
}

} // verus!

verus! {

// ---------------------------------------------------------------------------
// ActiveScheduler
// ---------------------------------------------------------------------------

/// Character-wise string equality.
pub(crate) fn str_eq(a: &str, b: &str) -> (r: bool)
    ensures
        r == (a@ == b@),
{
    let n = a.unicode_len();
    if n != b.unicode_len() {
        return false;
    }
    let mut i: usize = 0;
    while i < n
        invariant
            n == a@.len(),
            n == b@.len(),
            0 <= i <= n,
            forall|j: int| 0 <= j < i ==> a@[j] == b@[j],
        decreases n - i,
    {
        if a.get_char(i) != b.get_char(i) {
            return false;
        }
        i = i + 1;
    }
    assert(a@ =~= b@);
    true
}

/// The four schedulers, as one value that can be stored and dispatched on.
#[derive(Clone, Copy, Debug, PartialEq, Eq, Structural)]
pub enum SchedulerKind {
    Random,
    Closest,
    Balanced,
    RoundTrip,
}

impl TaskScheduler for SchedulerKind {
    open spec fn spec_name(&self) -> Seq<char> {
        match self {
            SchedulerKind::Random => "random"@,
            SchedulerKind::Closest => "closest"@,
            SchedulerKind::Balanced => "balanced"@,
            SchedulerKind::RoundTrip => "roundtrip"@,
        }
    }

    open spec fn pickup_choice(
        &self,
        pickups: Seq<IVec2>,
        deliveries: Seq<IVec2>,
        pos: IVec2,
        occupied: Seq<IVec2>,
        r: Option<IVec2>,
    ) -> bool {
        match self {
            SchedulerKind::Random => valid_choice(pickups, pos, occupied, r),
            SchedulerKind::Closest => nearest_choice(pickups, pos, occupied, r),
            SchedulerKind::Balanced => balanced_choice(pickups, pos, occupied, r),
            SchedulerKind::RoundTrip => round_trip_choice(pickups, deliveries, pos, occupied, r),
        }
    }

    open spec fn delivery_choice(
        &self,
        deliveries: Seq<IVec2>,
        pos: IVec2,
        occupied: Seq<IVec2>,
        r: Option<IVec2>,
    ) -> bool {
        match self {
            SchedulerKind::Random => valid_choice(deliveries, pos, occupied, r),
            SchedulerKind::Closest => nearest_choice(deliveries, pos, occupied, r),
            SchedulerKind::Balanced => balanced_choice(deliveries, pos, occupied, r),
            SchedulerKind::RoundTrip => nearest_choice(deliveries, pos, occupied, r),
        }
    }

    open spec fn may_draw(&self, occupied: Seq<IVec2>) -> bool {
        match self {
            SchedulerKind::Random => true,
            SchedulerKind::Balanced => occupied.len() == 0,
            _ => false,
        }
    }

    fn name(&self) -> (s: &str) {
        match self {
            SchedulerKind::Random => RandomScheduler.name(),
            SchedulerKind::Closest => ClosestFirstScheduler.name(),
            SchedulerKind::Balanced => BalancedScheduler.name(),
            SchedulerKind::RoundTrip => RoundTripScheduler.name(),
        }
    }

    fn assign_pickup(
        &self,
        zones: &ZoneMap,
        pos: IVec2,
        occupied: &CellSet,
        rng: &mut ChaCha8Rng,
    ) -> (r: Option<IVec2>)
    {
        match self {
            SchedulerKind::Random => RandomScheduler.assign_pickup(zones, pos, occupied, rng),
            SchedulerKind::Closest => ClosestFirstScheduler.assign_pickup(zones, pos, occupied, rng),
            SchedulerKind::Balanced => BalancedScheduler.assign_pickup(zones, pos, occupied, rng),
            SchedulerKind::RoundTrip => RoundTripScheduler.assign_pickup(zones, pos, occupied, rng),
        }
    }

    fn assign_delivery(
        &self,
        zones: &ZoneMap,
        pos: IVec2,
        occupied: &CellSet,
        rng: &mut ChaCha8Rng,
    ) -> (r: Option<IVec2>)
    {
        match self {
            SchedulerKind::Random => RandomScheduler.assign_delivery(zones, pos, occupied, rng),
            SchedulerKind::Closest => ClosestFirstScheduler.assign_delivery(
                zones,
                pos,
                occupied,
                rng,
            ),
            SchedulerKind::Balanced => BalancedScheduler.assign_delivery(zones, pos, occupied, rng),
            SchedulerKind::RoundTrip => RoundTripScheduler.assign_delivery(
                zones,
                pos,
                occupied,
                rng,
            ),
        }
    }
}

/// The scheduler selected by a name: the four known names select their
/// scheduler, any other name selects the random one.
pub open spec fn selected_scheduler(name: Seq<char>) -> SchedulerKind {
    if name == "random"@ {
        SchedulerKind::Random
    } else if name == "closest"@ {
        SchedulerKind::Closest
    } else if name == "balanced"@ {
        SchedulerKind::Balanced
    } else if name == "roundtrip"@ {
        SchedulerKind::RoundTrip
    } else {
        SchedulerKind::Random
    }
}

/// The scheduler in use, selected by name.
pub struct ActiveScheduler {
    scheduler: SchedulerKind,
    name: String,
}

impl ActiveScheduler {
    /// The scheduler in use.
    pub closed spec fn kind(&self) -> SchedulerKind {
        self.scheduler
    }

    /// The name the scheduler in use reports.
    pub closed spec fn spec_name(&self) -> Seq<char> {
        self.name@
    }

    pub fn from_name(name: &str) -> (s: Self)
        ensures
            s.kind() == selected_scheduler(name@),
            s.spec_name() == selected_scheduler(name@).spec_name(),
    {
        let scheduler = if str_eq(name, "random") {
            SchedulerKind::Random
        } else if str_eq(name, "closest") {
            SchedulerKind::Closest
        } else if str_eq(name, "balanced") {
            SchedulerKind::Balanced
        } else if str_eq(name, "roundtrip") {
            SchedulerKind::RoundTrip
        } else {
            SchedulerKind::Random
        };
        let actual_name = String::from_str(scheduler.name());
        ActiveScheduler { scheduler, name: actual_name }
    }

    pub fn scheduler(&self) -> (s: &SchedulerKind)
        ensures
            *s == self.kind(),
    {
        &self.scheduler
    }

    pub fn name(&self) -> (s: &str)
        ensures
            s@ == self.spec_name(),
    {
        self.name.as_str()
    }
}

impl Default for ActiveScheduler {
    fn default() -> (s: Self)
        ensures
            s.kind() == SchedulerKind::Random,
            s.spec_name() == "random"@,
    {
        Self::from_name("random")
    }
}

// ---------------------------------------------------------------------------
// Laws
// ---------------------------------------------------------------------------

/// The first free cell with the least key is unique: nearest-first and
/// round-trip choices depend on their inputs alone, never on the generator.
pub proof fn lemma_first_min_free_unique(
    cells: Seq<IVec2>,
    pos: IVec2,
    occupied: Seq<IVec2>,
    key: spec_fn(IVec2) -> int,
    a: IVec2,
    b: IVec2,
)
    requires
        is_first_min_free(cells, pos, occupied, key, a),
        is_first_min_free(cells, pos, occupied, key, b),
    ensures
        a == b,
{
    let ka = choose|k: int|
        first_min_free_at(cells, cells.len() as int, pos, occupied, key, k) && cells[k] == a;
    let kb = choose|k: int|
        first_min_free_at(cells, cells.len() as int, pos, occupied, key, k) && cells[k] == b;
    if ka < kb {
        assert(is_free(pos, occupied, cells[ka]));
    } else if kb < ka {
        assert(is_free(pos, occupied, cells[kb]));
    }
}

/// The last cell that no free cell is preferred to is unique: with claimed
/// cells present, the balanced choice depends on its inputs alone.
pub proof fn lemma_last_best_balanced_unique(
    cells: Seq<IVec2>,
    pos: IVec2,
    occupied: Seq<IVec2>,
    a: IVec2,
    b: IVec2,
)
    requires
        is_last_best_balanced(cells, pos, occupied, a),
        is_last_best_balanced(cells, pos, occupied, b),
    ensures
        a == b,
{
    let ka = choose|k: int|
        last_best_balanced_at(cells, cells.len() as int, pos, occupied, k) && cells[k] == a;
    let kb = choose|k: int|
        last_best_balanced_at(cells, cells.len() as int, pos, occupied, k) && cells[k] == b;
    if ka < kb {
        assert(is_free(pos, occupied, cells[kb]));
    } else if kb < ka {
        assert(is_free(pos, occupied, cells[ka]));
    }
}


/// With a single claimed cell `o`, a cell's spread is its Manhattan distance
/// to `o`.
pub proof fn lemma_single_claim_spread(o: IVec2, a: IVec2)
    ensures
        centroid_spread(seq![o], a) == manhattan(a, o),
{
    let s = seq![o];
    assert(s.drop_last() =~= Seq::<IVec2>::empty());
    assert(s.last() == o);
    assert(sum_x(s.drop_last()) == 0);
    assert(sum_y(s.drop_last()) == 0);
    assert(sum_x(s) == o.x);
    assert(sum_y(s) == o.y);
}

/// With a single claimed cell `o`, the balanced choice is a free cell at the
/// greatest Manhattan distance from `o`: no free cell lies farther.
pub proof fn lemma_balanced_one_claim_is_farthest(
    cells: Seq<IVec2>,
    pos: IVec2,
    o: IVec2,
    c: IVec2,
    d: IVec2,
)
    requires
        balanced_choice(cells, pos, seq![o], Some(c)),
        cells.contains(d),
        d != pos,
        d != o,
    ensures
        cells.contains(c),
        c != pos,
        c != o,
        manhattan(d, o) <= manhattan(c, o),
{
    let occ = seq![o];
    assert(occ.contains(o));
    assert(!occ.contains(d)) by {
        if occ.contains(d) {
            let i = choose|i: int| 0 <= i < occ.len() && occ[i] == d;
            assert(occ[i] == o);
        }
    }
    let k = choose|k: int|
        last_best_balanced_at(cells, cells.len() as int, pos, occ, k) && cells[k] == c;
    let j = choose|j: int| 0 <= j < cells.len() && cells[j] == d;
    assert(is_free(pos, occ, cells[j]));
    assert(!balanced_better(occ, pos, cells[j], cells[k]));
    lemma_single_claim_spread(o, c);
    lemma_single_claim_spread(o, d);
}


proof fn lemma_sums_of_repeated(o: IVec2, m: nat)
    ensures
        sum_x(Seq::new(m, |i: int| o)) == m * o.x,
        sum_y(Seq::new(m, |i: int| o)) == m * o.y,
    decreases m,
{
    let s = Seq::new(m, |i: int| o);
    if m > 0 {
        assert(s.drop_last() =~= Seq::new((m - 1) as nat, |i: int| o));
        lemma_sums_of_repeated(o, (m - 1) as nat);
        assert(s.last() == o);
        assert(sum_x(s) == sum_x(s.drop_last()) + s.last().x);
        assert(sum_y(s) == sum_y(s.drop_last()) + s.last().y);
        assert((m - 1) * o.x + o.x == m * o.x) by (nonlinear_arith);
        assert((m - 1) * o.y + o.y == m * o.y) by (nonlinear_arith);
    } else {
        assert(s.len() == 0);
    }
}

/// When every one of the `m` claimed cells is `o`, a cell's spread is `m`
/// times its Manhattan distance to `o`: the centroid is `o`, and spreads are
/// scaled by the number of claimed cells.
pub proof fn lemma_repeated_claim_spread(o: IVec2, m: nat, a: IVec2)
    ensures
        centroid_spread(Seq::new(m, |i: int| o), a) == m * manhattan(a, o),
{
    lemma_sums_of_repeated(o, m);
    let dx = a.x - o.x;
    let dy = a.y - o.y;
    assert(m * a.x - m * o.x == m * dx) by (nonlinear_arith)
        requires dx == a.x - o.x;
    assert(m * a.y - m * o.y == m * dy) by (nonlinear_arith)
        requires dy == a.y - o.y;
    assert(abs_int(m * dx) == m * abs_int(dx)) by (nonlinear_arith)
        requires m >= 0;
    assert(abs_int(m * dy) == m * abs_int(dy)) by (nonlinear_arith)
        requires m >= 0;
    assert(m * abs_int(dx) + m * abs_int(dy) == m * (abs_int(dx) + abs_int(dy))) by (nonlinear_arith);
}

} // verus!
