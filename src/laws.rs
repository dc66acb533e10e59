//! Properties of the stepping rule, stated over the abstract lattice and
//! proved from the definitions that the executable operations implement.

use vstd::prelude::*;

use vstd::arithmetic::div_mod::{lemma_mod_multiples_vanish, lemma_small_mod};

use crate::cell::{Cell, Color};
use crate::grid::{
    frozen_with, neighbor, offset, spawned_mobile, valid_directions, wrap, LatticeView,
};

verus! {

proof fn lemma_wrap_mod(v: int, n: int)
    requires
        0 < n,
        -1 <= v <= n,
    ensures
        wrap(v, n) == v % n,
{
    if v < 0 {
        lemma_mod_multiples_vanish(1, -1, n);
        lemma_small_mod((n - 1) as nat, n as nat);
    } else if v >= n {
        lemma_mod_multiples_vanish(1, 0, n);
    } else {
        lemma_small_mod(v as nat, n as nat);
    }
}

/// Boundary wrap: on a `w` by `h` lattice the lattice is a torus. The cell
/// reached from `(x, y)` by any of the eight offsets, whether scanned as a
/// neighbour or taken as a step, is `((x + dx) mod w, (y + dy) mod h)`; so a
/// step left from `x = 0` lands on `x = w - 1`, a step right from `x = w - 1`
/// lands on `x = 0`, and the same holds vertically and at the corners.
pub proof fn lemma_boundary_wrap(v: LatticeView, p: Cell, k: int)
    requires
        v.wf(),
        v.in_bounds(p.x as int, p.y as int),
        0 <= k < 8,
    ensures
        neighbor(p.x as int, p.y as int, k, v.width as int, v.height as int) == (
            (p.x + offset(k).0) % (v.width as int),
            (p.y + offset(k).1) % (v.height as int),
        ),
        v.moved(p, k).x == (p.x + offset(k).0) % (v.width as int),
        v.moved(p, k).y == (p.y + offset(k).1) % (v.height as int),
        v.moved(p, k).color == p.color,
        v.moved(p, k).is_frozen == p.is_frozen,
{
    lemma_wrap_mod(p.x + offset(k).0, v.width as int);
    lemma_wrap_mod(p.y + offset(k).1, v.height as int);
}

/// The occupant of the cell reached from `(x, y)` by offset `k`.
pub open spec fn neighbor_occupant(v: LatticeView, x: int, y: int, k: int) -> Option<Cell> {
    let (nx, ny) = neighbor(x, y, k, v.width as int, v.height as int);
    v.occupant(nx, ny)
}

/// `o` holds a particle of colour `c`.
pub open spec fn holds_color(o: Option<Cell>, c: Color) -> bool {
    o is Some && o->Some_0.color == c
}

/// Some cell of the Moore neighbourhood of `(x, y)` holds a particle of colour `c`.
pub open spec fn neighbor_has_color(v: LatticeView, x: int, y: int, c: Color) -> bool {
    exists|k: int|
        0 <= k < 8 && holds_color(#[trigger] neighbor_occupant(v, x, y, k), c)
}

proof fn lemma_scan_some(v: LatticeView, x: int, y: int, k: nat)
    requires
        k <= 8,
        v.scan_neighbors(x, y, k) is Some,
    ensures
        exists|j: int|
            0 <= j < k && holds_color(
                #[trigger] neighbor_occupant(v, x, y, j),
                v.scan_neighbors(x, y, k)->Some_0,
            ),
    decreases k,
{
    if neighbor_occupant(v, x, y, k - 1) is Some {
        assert(holds_color(neighbor_occupant(v, x, y, k - 1), v.scan_neighbors(x, y, k)->Some_0));
    } else {
        lemma_scan_some(v, x, y, (k - 1) as nat);
    }
}

proof fn lemma_scan_none(v: LatticeView, x: int, y: int, k: nat)
    requires
        k <= 8,
        v.scan_neighbors(x, y, k) is None,
    ensures
        forall|j: int| 0 <= j < k ==> #[trigger] neighbor_occupant(v, x, y, j) is None,
    decreases k,
{
    if k > 0 {
        lemma_scan_none(v, x, y, (k - 1) as nat);
    }
}

proof fn lemma_freezes_shape(v: LatticeView, n: nat)
    requires
        v.wf(),
        n <= v.active.len(),
    ensures
        v.freezes_upto(n).len() == v.width,
        forall|x: int| 0 <= x < v.width ==> #[trigger] v.freezes_upto(n)[x].len() == v.height,
    decreases n,
{
    if n > 0 {
        lemma_freezes_shape(v, (n - 1) as nat);
    }
}

/// How one cell changes while the freezes of a tick are committed.
proof fn lemma_freezes_cell(v: LatticeView, n: nat, x: int, y: int)
    requires
        v.wf(),
        n <= v.active.len(),
        v.in_bounds(x, y),
    ensures
        v.occupant(x, y) is Some ==> v.freezes_upto(n)[x][y] is Some,
        v.freezes_upto(n)[x][y] is Some ==> {
            let c = v.freezes_upto(n)[x][y]->Some_0;
            c.is_frozen && c.x == x && c.y == y
        },
        v.freezes_upto(n)[x][y] != v.occupant(x, y) ==> v.freezes_upto(n)[x][y] is Some
            && neighbor_has_color(v, x, y, v.freezes_upto(n)[x][y]->Some_0.color),
        v.freezes_upto(n)[x][y] != v.occupant(x, y) ==> exists|j: int|
            0 <= j < n && (#[trigger] v.active[j]).x == x && v.active[j].y == y
                && v.frozen_neighbor(x, y) is Some,
    decreases n,
{
    if n > 0 {
        let m = (n - 1) as nat;
        lemma_freezes_cell(v, m, x, y);
        lemma_freezes_shape(v, m);
        let p = v.active[m as int];
        match v.frozen_neighbor(p.x as int, p.y as int) {
            Some(c) => {
                if p.x == x && p.y == y {
                    lemma_scan_some(v, x, y, 8);
                    let k = choose|k: int|
                        0 <= k < 8 && holds_color(#[trigger] neighbor_occupant(v, x, y, k), c);
                    assert(holds_color(neighbor_occupant(v, x, y, k), frozen_with(p, c).color));
                    assert(v.active[m as int].x == x && v.active[m as int].y == y);
                } else {
                    if v.freezes_upto(n)[x][y] != v.occupant(x, y) {
                        let j = choose|j: int|
                            0 <= j < m && (#[trigger] v.active[j]).x == x && v.active[j].y == y
                                && v.frozen_neighbor(x, y) is Some;
                        assert(0 <= j < n && v.active[j].x == x);
                    }
                }
            },
            None => {
                if v.freezes_upto(n)[x][y] != v.occupant(x, y) {
                    let j = choose|j: int|
                        0 <= j < m && (#[trigger] v.active[j]).x == x && v.active[j].y == y
                            && v.frozen_neighbor(x, y) is Some;
                    assert(0 <= j < n && v.active[j].x == x);
                }
            },
        }
    }
}

proof fn lemma_walks(v: LatticeView, dirs: Seq<usize>, n: nat)
    requires
        v.wf(),
        n <= v.active.len(),
        valid_directions(dirs, v.active.len()),
    ensures
        v.walks_upto(dirs, n).len() <= n,
        forall|m: int|
            0 <= m < v.walks_upto(dirs, n).len() ==> exists|i: int|
                0 <= i < n && v.frozen_neighbor(v.active[i].x as int, v.active[i].y as int) is None
                    && #[trigger] v.walks_upto(dirs, n)[m] == v.moved(v.active[i], dirs[i] as int),
    decreases n,
{
    if n > 0 {
        let m = (n - 1) as nat;
        lemma_walks(v, dirs, m);
        let prev = v.walks_upto(dirs, m);
        let now = v.walks_upto(dirs, n);
        assert forall|k: int| 0 <= k < now.len() implies exists|i: int|
            0 <= i < n && v.frozen_neighbor(v.active[i].x as int, v.active[i].y as int) is None
                && #[trigger] now[k] == v.moved(v.active[i], dirs[i] as int) by {
            if k < prev.len() {
                assert(now[k] == prev[k]);
                let i = choose|i: int|
                    0 <= i < m && v.frozen_neighbor(v.active[i].x as int, v.active[i].y as int) is None
                        && #[trigger] prev[k] == v.moved(v.active[i], dirs[i] as int);
                assert(0 <= i < n);
            } else {
                assert(now[k] == v.moved(v.active[m as int], dirs[m as int] as int));
            }
        }
    }
}

proof fn lemma_place_mobiles(v: LatticeView, cs: Seq<Cell>)
    requires
        forall|i: int| 0 <= i < cs.len() ==> !(#[trigger] cs[i]).is_frozen,
    ensures
        v.placed_all(cs) == (LatticeView { active: v.active + cs, ..v }),
    decreases cs.len(),
{
    if cs.len() > 0 {
        lemma_place_mobiles(v, cs.drop_last());
        assert(v.active + cs =~= (v.active + cs.drop_last()).push(cs.last()));
    } else {
        assert(v.active + cs =~= v.active);
    }
}

/// Monotonic freeze: a tick never empties an occupied cell nor unfreezes
/// its occupant, and no particle of the active set afterwards is frozen.
/// `dirs` and `cs` are the directions and the spawned particles that the
/// tick drew.
pub proof fn lemma_freeze_is_permanent(v: LatticeView, dirs: Seq<usize>, cs: Seq<Cell>, x: int, y: int)
    requires
        v.wf(),
        valid_directions(dirs, v.active.len()),
        spawned_mobile(cs, v.width as int, v.height as int),
        v.in_bounds(x, y),
    ensures
        v.occupant(x, y) is Some ==> v.advanced(dirs).placed_all(cs).occupant(x, y) is Some
            && v.advanced(dirs).placed_all(cs).occupant(x, y)->Some_0.is_frozen,
        forall|i: int|
            0 <= i < v.advanced(dirs).placed_all(cs).active.len() ==> !(#[trigger] v.advanced(
                dirs,
            ).placed_all(cs).active[i]).is_frozen,
{
    let mid = v.advanced(dirs);
    lemma_place_mobiles(mid, cs);
    lemma_freezes_cell(v, v.active.len(), x, y);
    lemma_walks(v, dirs, v.active.len());
    let next = mid.placed_all(cs);
    assert forall|i: int| 0 <= i < next.active.len() implies !(#[trigger] next.active[i]).is_frozen by {
        if i < mid.active.len() {
            let j = choose|j: int|
                0 <= j < v.active.len() && v.frozen_neighbor(v.active[j].x as int, v.active[j].y as int)
                    is None && #[trigger] mid.active[i] == v.moved(v.active[j], dirs[j] as int);
        } else {
            assert(next.active[i] == cs[i - mid.active.len()]);
        }
    }
}

/// Freeze attribute inheritance: a cell whose occupant a tick changed now
/// holds a particle whose colour is that of an occupant of one of the
/// cell's eight neighbours as they stood when the tick began.
pub proof fn lemma_freeze_inherits_color(v: LatticeView, dirs: Seq<usize>, cs: Seq<Cell>, x: int, y: int)
    requires
        v.wf(),
        valid_directions(dirs, v.active.len()),
        spawned_mobile(cs, v.width as int, v.height as int),
        v.in_bounds(x, y),
        v.advanced(dirs).placed_all(cs).occupant(x, y) != v.occupant(x, y),
    ensures
        v.advanced(dirs).placed_all(cs).occupant(x, y) is Some,
        neighbor_has_color(v, x, y, v.advanced(dirs).placed_all(cs).occupant(x, y)->Some_0.color),
{
    lemma_place_mobiles(v.advanced(dirs), cs);
    lemma_freezes_cell(v, v.active.len(), x, y);
}

/// Zero population: on a lattice whose target population is zero, a tick
/// that ends with the active set at its target changes nothing, so the
/// occupancy stays as construction left it and the active set stays empty.
pub proof fn lemma_zero_population_is_still(v: LatticeView, dirs: Seq<usize>, cs: Seq<Cell>)
    requires
        v.wf(),
        v.desired == 0,
        valid_directions(dirs, v.active.len()),
        spawned_mobile(cs, v.width as int, v.height as int),
        v.advanced(dirs).placed_all(cs).active.len() == v.desired,
    ensures
        v.advanced(dirs).placed_all(cs) == v,
{
    lemma_place_mobiles(v.advanced(dirs), cs);
    assert(v.advanced(dirs).active =~= v.active);
    assert(cs.len() == 0);
    assert(v.active + cs =~= v.active);
}

/// No particle of the active set stands on an occupied cell.
pub open spec fn disjoint(v: LatticeView) -> bool {
    forall|i: int|
        0 <= i < v.active.len() ==> v.occupant(
            (#[trigger] v.active[i]).x as int,
            v.active[i].y as int,
        ) is None
}

/// No particle that moves in the tick of directions `dirs` steps onto the
/// position of a particle that freezes in that tick.
pub open spec fn no_step_onto_freeze(v: LatticeView, dirs: Seq<usize>) -> bool {
    forall|i: int, j: int|
        #![trigger v.moved(v.active[i], dirs[i] as int), v.active[j]]
        0 <= i < v.active.len() && 0 <= j < v.active.len() && v.frozen_neighbor(
            v.active[i].x as int,
            v.active[i].y as int,
        ) is None && v.frozen_neighbor(v.active[j].x as int, v.active[j].y as int) is Some ==> !(v.moved(
            v.active[i],
            dirs[i] as int,
        ).x == v.active[j].x && v.moved(v.active[i], dirs[i] as int).y == v.active[j].y)
}

/// Each of `cs` lands on a cell that is empty in `v`.
pub open spec fn spawns_on_empty(v: LatticeView, cs: Seq<Cell>) -> bool {
    forall|i: int| 0 <= i < cs.len() ==> v.occupant((#[trigger] cs[i]).x as int, cs[i].y as int) is None
}

/// Occupancy disjointness: a tick keeps every active particle off occupied
/// cells, whatever the lattice held before, provided that no moving particle
/// steps onto a cell where another freezes in the same tick and that no
/// spawned particle lands on an occupied cell. (The stepping rule allows both
/// collisions; a tick with either may leave an active particle on a frozen one.)
pub proof fn lemma_disjoint_without_collisions(v: LatticeView, dirs: Seq<usize>, cs: Seq<Cell>)
    requires
        v.wf(),
        valid_directions(dirs, v.active.len()),
        spawned_mobile(cs, v.width as int, v.height as int),
        no_step_onto_freeze(v, dirs),
        spawns_on_empty(v.advanced(dirs), cs),
    ensures
        disjoint(v.advanced(dirs).placed_all(cs)),
{
    let n = v.active.len();
    let mid = v.advanced(dirs);
    lemma_place_mobiles(mid, cs);
    lemma_walks(v, dirs, n);
    let next = mid.placed_all(cs);
    assert forall|i: int| 0 <= i < next.active.len() implies next.occupant(
        (#[trigger] next.active[i]).x as int,
        next.active[i].y as int,
    ) is None by {
        if i < mid.active.len() {
            let j = choose|j: int|
                0 <= j < n && v.frozen_neighbor(v.active[j].x as int, v.active[j].y as int) is None
                    && #[trigger] mid.active[i] == v.moved(v.active[j], dirs[j] as int);
            let p = v.active[j];
            let d = dirs[j] as int;
            let q = v.moved(p, d);
            lemma_scan_none(v, p.x as int, p.y as int, 8);
            assert(neighbor_occupant(v, p.x as int, p.y as int, d) is None);
            lemma_freezes_cell(v, n, q.x as int, q.y as int);
            if mid.occupant(q.x as int, q.y as int) != v.occupant(q.x as int, q.y as int) {
                let k = choose|k: int|
                    0 <= k < n && (#[trigger] v.active[k]).x == q.x && v.active[k].y == q.y
                        && v.frozen_neighbor(q.x as int, q.y as int) is Some;
                assert(v.moved(v.active[j], dirs[j] as int) == q);
                assert(false);
            }
        } else {
            assert(next.active[i] == cs[i - mid.active.len()]);
        }
    }
}

} // verus!
