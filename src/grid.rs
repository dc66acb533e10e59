use vstd::prelude::*;

use array2d::Array2D;

use crate::cell::{spawned, Cell, Color};
use crate::random::random_below;
use crate::store::{empty_lattice, lattice_columns, lattice_elements, lattice_get, lattice_set};

verus! {

/// Toroidal wrap of a coordinate that is at most one step outside `[0, n)`:
/// one below the lower edge reappears at the upper edge and the reverse.
pub open spec fn wrap(v: int, n: int) -> int {
    if v < 0 {
        n - 1
    } else if v >= n {
        0
    } else {
        v
    }
}

/// The eight offsets of the Moore neighbourhood, in scanning order.
pub open spec fn offset(k: int) -> (int, int) {
    if k == 0 {
        (-1, -1)
    } else if k == 1 {
        (0, -1)
    } else if k == 2 {
        (1, -1)
    } else if k == 3 {
        (-1, 0)
    } else if k == 4 {
        (1, 0)
    } else if k == 5 {
        (-1, 1)
    } else if k == 6 {
        (0, 1)
    } else {
        (1, 1)
    }
}

/// The cell reached from `(x, y)` by offset `k` on a `w` by `h` torus.
pub open spec fn neighbor(x: int, y: int, k: int, w: int, h: int) -> (int, int) {
    (wrap(x + offset(k).0, w), wrap(y + offset(k).1, h))
}

/// Executable form of [`offset`].
pub fn direction(k: usize) -> (d: (i8, i8))
    requires
        k < 8,
    ensures
        d.0 as int == offset(k as int).0,
        d.1 as int == offset(k as int).1,
{
    if k == 0 {
        (-1, -1)
    } else if k == 1 {
        (0, -1)
    } else if k == 2 {
        (1, -1)
    } else if k == 3 {
        (-1, 0)
    } else if k == 4 {
        (1, 0)
    } else if k == 5 {
        (-1, 1)
    } else if k == 6 {
        (0, 1)
    } else {
        (1, 1)
    }
}

/// Wraps a position that may lie one step outside a `w` by `h` lattice back
/// onto it: a coordinate below zero goes to the last row or column, one at or
/// past the bound goes to zero, and any other is kept.
pub fn clip(pos: (i32, i32), w: u32, h: u32) -> (r: (usize, usize))
    requires
        0 < w <= i32::MAX,
        0 < h <= i32::MAX,
    ensures
        r.0 as int == wrap(pos.0 as int, w as int),
        r.1 as int == wrap(pos.1 as int, h as int),
{
    let (x, y) = pos;
    let nx: usize = if x < 0 {
        (w - 1) as usize
    } else if x >= w as i32 {
        0
    } else {
        x as usize
    };
    let ny: usize = if y < 0 {
        (h - 1) as usize
    } else if y >= h as i32 {
        0
    } else {
        y as usize
    };
    (nx, ny)
}

/// `p` frozen in place with colour `c`.
pub open spec fn frozen_with(p: Cell, c: Color) -> Cell {
    Cell { color: c, is_frozen: true, ..p }
}

/// The abstract state of a lattice.
pub struct LatticeView {
    pub width: nat,
    pub height: nat,
    /// Target size of the active set.
    pub desired: nat,
    /// `occupancy[x][y]`: the frozen particle at `(x, y)`, if any.
    pub occupancy: Seq<Seq<Option<Cell>>>,
    /// The mobile particles, in iteration order.
    pub active: Seq<Cell>,
}

impl LatticeView {
    /// `(x, y)` is a cell of the lattice.
    pub open spec fn in_bounds(self, x: int, y: int) -> bool {
        0 <= x < self.width && 0 <= y < self.height
    }

    /// The frozen particle at `(x, y)`, if any.
    pub open spec fn occupant(self, x: int, y: int) -> Option<Cell> {
        self.occupancy[x][y]
    }

    /// The lattice invariants: positive dimensions that fit the coordinate
    /// and index types, every frozen particle stored at its own position,
    /// every active particle mobile and on the lattice, and never more active
    /// particles than the target.
    pub open spec fn wf(self) -> bool {
        &&& 0 < self.width <= i32::MAX
        &&& 0 < self.height <= i32::MAX
        &&& self.width * self.height <= usize::MAX
        &&& self.desired <= u16::MAX
        &&& self.occupancy.len() == self.width
        &&& forall|x: int| 0 <= x < self.width ==> #[trigger] self.occupancy[x].len() == self.height
        &&& forall|x: int, y: int|
            #![trigger self.occupancy[x][y]]
            self.in_bounds(x, y) && self.occupancy[x][y] is Some ==> {
                let c = self.occupancy[x][y]->Some_0;
                c.x == x && c.y == y && c.is_frozen
            }
        &&& forall|i: int|
            0 <= i < self.active.len() ==> {
                let c = #[trigger] self.active[i];
                c.x < self.width && c.y < self.height && !c.is_frozen
            }
        &&& self.active.len() <= self.desired
    }

    /// Colour of the last occupied cell among the first `k` neighbours of
    /// `(x, y)`, in scanning order.
    pub open spec fn scan_neighbors(self, x: int, y: int, k: nat) -> Option<Color>
        decreases k,
    {
        if k == 0 {
            None
        } else {
            let (nx, ny) = neighbor(x, y, k - 1, self.width as int, self.height as int);
            match self.occupant(nx, ny) {
                Some(c) => Some(c.color),
                None => self.scan_neighbors(x, y, (k - 1) as nat),
            }
        }
    }

    /// The colour a particle at `(x, y)` would freeze with: that of the last
    /// occupied cell of its Moore neighbourhood, or none if all eight are empty.
    pub open spec fn frozen_neighbor(self, x: int, y: int) -> Option<Color> {
        self.scan_neighbors(x, y, 8)
    }

    /// The occupancy with `v` written at `(x, y)`.
    pub open spec fn occupancy_with(self, x: int, y: int, v: Option<Cell>) -> Seq<Seq<Option<Cell>>> {
        self.occupancy.update(x, self.occupancy[x].update(y, v))
    }

    /// The lattice after adding `c`: a frozen particle is written into the
    /// occupancy at its position, a mobile one joins the end of the active set.
    pub open spec fn placed(self, c: Cell) -> LatticeView {
        if c.is_frozen {
            LatticeView { occupancy: self.occupancy_with(c.x as int, c.y as int, Some(c)), ..self }
        } else {
            LatticeView { active: self.active.push(c), ..self }
        }
    }

    /// The lattice after adding each of `cs` in turn.
    pub open spec fn placed_all(self, cs: Seq<Cell>) -> LatticeView
        decreases cs.len(),
    {
        if cs.len() == 0 {
            self
        } else {
            self.placed_all(cs.drop_last()).placed(cs.last())
        }
    }

    /// `p` after one step by offset `d`, wrapped onto the lattice.
    pub open spec fn moved(self, p: Cell, d: int) -> Cell {
        let (nx, ny) = neighbor(p.x as int, p.y as int, d, self.width as int, self.height as int);
        Cell { x: nx as usize, y: ny as usize, ..p }
    }

    /// The occupancy once the first `n` active particles have been decided:
    /// each that has a frozen neighbour in this lattice is written, frozen
    /// with that neighbour's colour, at its position.
    pub open spec fn freezes_upto(self, n: nat) -> Seq<Seq<Option<Cell>>>
        decreases n,
    {
        if n == 0 {
            self.occupancy
        } else {
            let prev = self.freezes_upto((n - 1) as nat);
            let p = self.active[n - 1];
            match self.frozen_neighbor(p.x as int, p.y as int) {
                Some(c) => prev.update(p.x as int, prev[p.x as int].update(p.y as int, Some(frozen_with(p, c)))),
                None => prev,
            }
        }
    }

    /// The survivors among the first `n` active particles, those without a
    /// frozen neighbour in this lattice, each moved by its direction in `dirs`.
    pub open spec fn walks_upto(self, dirs: Seq<usize>, n: nat) -> Seq<Cell>
        decreases n,
    {
        if n == 0 {
            Seq::empty()
        } else {
            let prev = self.walks_upto(dirs, (n - 1) as nat);
            let p = self.active[n - 1];
            match self.frozen_neighbor(p.x as int, p.y as int) {
                Some(_) => prev,
                None => prev.push(self.moved(p, dirs[n - 1] as int)),
            }
        }
    }

    /// The lattice after every active particle has frozen or moved, `dirs[i]`
    /// being the offset drawn for `active[i]`. All freeze decisions read this
    /// lattice, so a freeze does not trigger another within the same tick.
    pub open spec fn advanced(self, dirs: Seq<usize>) -> LatticeView {
        LatticeView {
            occupancy: self.freezes_upto(self.active.len()),
            active: self.walks_upto(dirs, self.active.len()),
            ..self
        }
    }
}

/// One offset index below eight for each of `n` particles.
pub open spec fn valid_directions(dirs: Seq<usize>, n: nat) -> bool {
    &&& dirs.len() == n
    &&& forall|i: int| 0 <= i < dirs.len() ==> #[trigger] dirs[i] < 8
}

/// Mobile particles as [`Cell::new`] makes them for a `w` by `h` lattice.
pub open spec fn spawned_mobile(cs: Seq<Cell>, w: int, h: int) -> bool {
    forall|i: int| 0 <= i < cs.len() ==> spawned(#[trigger] cs[i], w, h, false)
}

/// A `w` by `h` lattice with no particle, aiming at `desired` mobile ones.
pub open spec fn empty_lattice_view(w: nat, h: nat, desired: nat) -> LatticeView {
    LatticeView {
        width: w,
        height: h,
        desired,
        occupancy: empty_occupancy(w, h),
        active: Seq::empty(),
    }
}

/// The particles that construction spawns: first `count` mobile ones, then
/// `count / 2` frozen seeds, each as [`Cell::new`] makes them.
pub open spec fn initial_spawns(cs: Seq<Cell>, w: int, h: int, count: int) -> bool {
    &&& cs.len() == count + count / 2
    &&& forall|i: int| 0 <= i < cs.len() ==> spawned(#[trigger] cs[i], w, h, i >= count)
}

/// The occupancy of a `w` by `h` lattice with no frozen particle.
pub open spec fn empty_occupancy(w: nat, h: nat) -> Seq<Seq<Option<Cell>>> {
    Seq::new(w, |x: int| Seq::new(h, |y: int| None::<Cell>))
}

/// Row-major storage of a `w` by `h` array indexed as `[x][y]`: the array's
/// rows are the lattice's `x` coordinates.
pub open spec fn as_rows(elements: Seq<Option<Cell>>, w: nat, h: nat) -> Seq<Seq<Option<Cell>>> {
    Seq::new(w, |x: int| Seq::new(h, |y: int| elements[x * h + y]))
}

/// Error of [`Grid::new`].
#[derive(Clone, Copy, Debug, PartialEq, Eq, Structural)]
pub enum GridError {
    /// The width or the height was zero.
    InvalidDimensions,
}

/// A DLA lattice: a fixed-size array of frozen particles (the aggregate) and
/// a set of mobile particles (the active set).
pub struct Grid {
    width: u32,
    height: u32,
    desired_active: u16,
    cells: Array2D<Option<Cell>>,
    active_cells: Vec<Cell>,
}

impl View for Grid {
    type V = LatticeView;

    closed spec fn view(&self) -> LatticeView {
        LatticeView {
            width: self.width as nat,
            height: self.height as nat,
            desired: self.desired_active as nat,
            occupancy: as_rows(lattice_elements(self.cells), self.width as nat, self.height as nat),
            active: self.active_cells@,
        }
    }
}

pub(crate) proof fn lemma_index_bounds(w: int, h: int, x: int, y: int)
    requires
        0 <= x < w,
        0 <= y < h,
    ensures
        0 <= x * h + y < w * h,
{
    assert(0 <= x * h + y < w * h) by (nonlinear_arith)
        requires
            0 <= x < w,
            0 <= y < h,
    ;
}

pub(crate) proof fn lemma_index_injective(h: int, x1: int, y1: int, x2: int, y2: int)
    requires
        0 <= x1,
        0 <= x2,
        0 <= y1 < h,
        0 <= y2 < h,
        x1 * h + y1 == x2 * h + y2,
    ensures
        x1 == x2,
        y1 == y2,
{
    if x1 < x2 {
        assert(x1 * h + h <= x2 * h) by (nonlinear_arith)
            requires
                x1 < x2,
                0 < h,
        ;
    } else if x2 < x1 {
        assert(x2 * h + h <= x1 * h) by (nonlinear_arith)
            requires
                x2 < x1,
                0 < h,
        ;
    }
}

proof fn lemma_rows_update(elements: Seq<Option<Cell>>, w: nat, h: nat, x: int, y: int, v: Option<Cell>)
    requires
        elements.len() == w * h,
        0 <= x < w,
        0 <= y < h,
    ensures
        as_rows(elements.update(x * h + y, v), w, h) =~~= as_rows(elements, w, h).update(
            x,
            as_rows(elements, w, h)[x].update(y, v),
        ),
{
    lemma_index_bounds(w as int, h as int, x, y);
    let rows = as_rows(elements, w, h);
    let new_rows = as_rows(elements.update(x * h + y, v), w, h);
    assert forall|a: int, b: int| 0 <= a < w && 0 <= b < h implies new_rows[a][b] == (if a == x && b == y {
        v
    } else {
        rows[a][b]
    }) by {
        lemma_index_bounds(w as int, h as int, a, b);
        if a * h + b == x * h + y {
            lemma_index_injective(h as int, a, b, x, y);
        }
    }
}

proof fn lemma_rows_empty(w: nat, h: nat)
    requires
        w * h <= usize::MAX,
    ensures
        as_rows(Seq::new(w * h, |i: int| None::<Cell>), w, h) =~~= empty_occupancy(w, h),
{
    let rows = as_rows(Seq::new(w * h, |i: int| None::<Cell>), w, h);
    assert forall|a: int, b: int| 0 <= a < w && 0 <= b < h implies #[trigger] rows[a][b] == None::<Cell> by {
        lemma_index_bounds(w as int, h as int, a, b);
    }
}

impl Grid {
    /// The storage agrees with the shape of the view.
    pub closed spec fn store_consistent(&self) -> bool {
        &&& lattice_columns(self.cells) == self.height as nat
        &&& lattice_elements(self.cells).len() == self.width as nat * self.height as nat
    }

    /// The lattice invariants, of the storage and of the view.
    pub open spec fn wf(&self) -> bool {
        self.store_consistent() && self@.wf()
    }

    /// A lattice of the given shape, with `count` mobile particles and
    /// `count / 2` frozen seeds at random positions. A seed that lands on an
    /// earlier seed replaces it.
    pub fn new(width: u32, height: u32, count: u16) -> (r: Result<Grid, GridError>)
        requires
            width <= i32::MAX,
            height <= i32::MAX,
            width * height <= usize::MAX,
        ensures
            width == 0 || height == 0 ==> r == Err::<Grid, GridError>(GridError::InvalidDimensions),
            width != 0 && height != 0 ==> r is Ok,
            r matches Ok(g) ==> {
                &&& g.wf()
                &&& g@.width == width
                &&& g@.height == height
                &&& g@.desired == count
                &&& g@.active.len() == count
                &&& exists|cs: Seq<Cell>|
                    initial_spawns(cs, width as int, height as int, count as int) && g@
                        == #[trigger] empty_lattice_view(
                        width as nat,
                        height as nat,
                        count as nat,
                    ).placed_all(cs)
            },
    {
        if width == 0 || height == 0 {
            return Err(GridError::InvalidDimensions);
        }
        let cells = empty_lattice(width as usize, height as usize);
        let mut new_grid = Grid { width, height, desired_active: count, cells, active_cells: Vec::new() };
        let ghost empty = new_grid@;
        proof {
            lemma_rows_empty(width as nat, height as nat);
            assert(empty == empty_lattice_view(width as nat, height as nat, count as nat));
        }
        let ghost mut cs: Seq<Cell> = Seq::empty();
        for _i in 0..count
            invariant
                new_grid.wf(),
                new_grid@.width == width,
                new_grid@.height == height,
                new_grid@.desired == count,
                new_grid@.active.len() == cs.len(),
                cs.len() == _i,
                forall|j: int| 0 <= j < cs.len() ==> spawned(#[trigger] cs[j], width as int, height as int, j >= count),
                new_grid@ == empty.placed_all(cs),
        {
            let ghost before = new_grid@;
            new_grid.add_cell(false);
            proof {
                let c = choose|c: Cell|
                    spawned(c, width as int, height as int, false) && new_grid@ == #[trigger] before.placed(c);
                assert(cs.push(c).drop_last() =~= cs);
                cs = cs.push(c);
            }
        }
        for _i in 0..count / 2
            invariant
                new_grid.wf(),
                new_grid@.width == width,
                new_grid@.height == height,
                new_grid@.desired == count,
                new_grid@.active.len() == count,
                cs.len() == count + _i,
                forall|j: int| 0 <= j < cs.len() ==> spawned(#[trigger] cs[j], width as int, height as int, j >= count),
                new_grid@ == empty.placed_all(cs),
        {
            let ghost before = new_grid@;
            new_grid.add_cell(true);
            proof {
                let c = choose|c: Cell|
                    spawned(c, width as int, height as int, true) && new_grid@ == #[trigger] before.placed(c);
                assert(cs.push(c).drop_last() =~= cs);
                cs = cs.push(c);
            }
        }
        assert(initial_spawns(cs, width as int, height as int, count as int));
        Ok(new_grid)
    }

    /// Adds `cell`: a frozen one replaces whatever the occupancy held at its
    /// position, a mobile one joins the end of the active set.
    pub fn place(&mut self, cell: Cell)
        requires
            old(self).wf(),
            old(self)@.in_bounds(cell.x as int, cell.y as int),
            cell.is_frozen || old(self)@.active.len() < old(self)@.desired,
        ensures
            final(self).wf(),
            final(self)@ == old(self)@.placed(cell),
    {
        if cell.is_frozen {
            proof {
                lemma_index_bounds(self.width as int, self.height as int, cell.x as int, cell.y as int);
                lemma_rows_update(
                    lattice_elements(self.cells),
                    self.width as nat,
                    self.height as nat,
                    cell.x as int,
                    cell.y as int,
                    Some(cell),
                );
            }
            lattice_set(&mut self.cells, cell.x, cell.y, Some(cell));
        } else {
            self.active_cells.push(cell);
        }
        assert(self@ =~~= old(self)@.placed(cell));
    }

    /// Spawns one particle at a random position, as [`Cell::new`] does, and
    /// adds it with [`Grid::place`].
    fn add_cell(&mut self, is_frozen: bool)
        requires
            old(self).wf(),
            is_frozen || old(self)@.active.len() < old(self)@.desired,
        ensures
            final(self).wf(),
            exists|c: Cell|
                spawned(c, old(self)@.width as int, old(self)@.height as int, is_frozen) && final(self)@
                    == #[trigger] old(self)@.placed(c),
    {
        let cell = Cell::new(is_frozen, self.width as usize, self.height as usize);
        self.place(cell);
    }

    /// Freezes or moves every active particle. A particle with a frozen
    /// neighbour (in the lattice as it stood when the call began) freezes at
    /// its position with that neighbour's colour and leaves the active set;
    /// any other moves by `directions[i]`, wrapping at the edges.
    pub fn advance(&mut self, directions: &Vec<usize>)
        requires
            old(self).wf(),
            valid_directions(directions@, old(self)@.active.len()),
        ensures
            final(self).wf(),
            final(self)@ == old(self)@.advanced(directions@),
    {
        let n = self.active_cells.len();
        let mut decisions: Vec<Option<Color>> = Vec::new();
        for i in 0..n
            invariant
                self.wf(),
                n == self@.active.len(),
                decisions@.len() == i,
                forall|j: int|
                    0 <= j < i ==> #[trigger] decisions@[j] == self@.frozen_neighbor(
                        self@.active[j].x as int,
                        self@.active[j].y as int,
                    ),
        {
            let p = self.active_cells[i];
            decisions.push(self.is_frozen((p.x, p.y)));
        }
        let ghost start = self@;
        let mut survivors: Vec<Cell> = Vec::new();
        for i in 0..n
            invariant
                self.store_consistent(),
                self@.width == start.width,
                self@.height == start.height,
                self@.desired == start.desired,
                self@.active == start.active,
                (LatticeView { active: survivors@, ..self@ }).wf(),
                survivors@.len() <= i,
                n == start.active.len(),
                start.wf(),
                valid_directions(directions@, n as nat),
                decisions@.len() == n,
                forall|j: int|
                    0 <= j < n ==> #[trigger] decisions@[j] == start.frozen_neighbor(
                        start.active[j].x as int,
                        start.active[j].y as int,
                    ),
                self@.occupancy == start.freezes_upto(i as nat),
                survivors@ == start.walks_upto(directions@, i as nat),
        {
            let p = self.active_cells[i];
            match decisions[i] {
                Some(c) => {
                    let frozen = Cell { x: p.x, y: p.y, color: c, is_frozen: true };
                    proof {
                        lemma_index_bounds(self.width as int, self.height as int, p.x as int, p.y as int);
                        lemma_rows_update(
                            lattice_elements(self.cells),
                            self.width as nat,
                            self.height as nat,
                            p.x as int,
                            p.y as int,
                            Some(frozen),
                        );
                    }
                    lattice_set(&mut self.cells, p.x, p.y, Some(frozen));
                },
                None => {
                    let (dx, dy) = direction(directions[i]);
                    let (nx, ny) = clip(
                        (p.x as i32 + dx as i32, p.y as i32 + dy as i32),
                        self.width,
                        self.height,
                    );
                    survivors.push(Cell { x: nx, y: ny, color: p.color, is_frozen: p.is_frozen });
                },
            }
            assert(self@.occupancy =~~= start.freezes_upto((i + 1) as nat));
            assert(survivors@ =~= start.walks_upto(directions@, (i + 1) as nat));
        }
        self.active_cells = survivors;
        assert(self@ =~~= start.advanced(directions@));
    }

    /// Advances the simulation by one tick: every active particle freezes or
    /// takes one uniformly random step (see [`Grid::advance`]), then new
    /// mobile particles are spawned at random until the active set is back
    /// at its target size.
    pub fn cycle(&mut self)
        requires
            old(self).wf(),
        ensures
            final(self).wf(),
            final(self)@.width == old(self)@.width,
            final(self)@.height == old(self)@.height,
            final(self)@.desired == old(self)@.desired,
            final(self)@.active.len() == final(self)@.desired,
            exists|dirs: Seq<usize>, cs: Seq<Cell>|
                #![trigger old(self)@.advanced(dirs).placed_all(cs)]
                valid_directions(dirs, old(self)@.active.len()) && spawned_mobile(
                    cs,
                    old(self)@.width as int,
                    old(self)@.height as int,
                ) && final(self)@ == old(self)@.advanced(dirs).placed_all(cs),
    {
        let n = self.active_cells.len();
        let mut directions: Vec<usize> = Vec::new();
        for _i in 0..n
            invariant
                directions@.len() == _i,
                forall|j: int| 0 <= j < directions@.len() ==> #[trigger] directions@[j] < 8,
        {
            directions.push(random_below(8));
        }
        let ghost start = self@;
        self.advance(&directions);
        let ghost mid = self@;
        let ghost mut cs: Seq<Cell> = Seq::empty();
        while self.active_cells.len() < self.desired_active as usize
            invariant
                self.wf(),
                self@.width == start.width,
                self@.height == start.height,
                self@.desired == start.desired,
                spawned_mobile(cs, start.width as int, start.height as int),
                self@ == mid.placed_all(cs),
            decreases self@.desired - self@.active.len(),
        {
            let ghost before = self@;
            self.add_cell(false);
            proof {
                let c = choose|c: Cell|
                    spawned(c, start.width as int, start.height as int, false) && self@
                        == #[trigger] before.placed(c);
                assert(cs.push(c).drop_last() =~= cs);
                cs = cs.push(c);
            }
        }
        assert(valid_directions(directions@, start.active.len()));
        assert(self@ == start.advanced(directions@).placed_all(cs));
    }

    pub fn width(&self) -> (r: u32)
        ensures
            r == self@.width,
    {
        self.width
    }

    pub fn height(&self) -> (r: u32)
        ensures
            r == self@.height,
    {
        self.height
    }

    pub fn desired_active(&self) -> (r: u16)
        ensures
            r == self@.desired,
    {
        self.desired_active
    }

    /// The mobile particles.
    pub fn active_cells(&self) -> (r: &Vec<Cell>)
        ensures
            r@ == self@.active,
    {
        &self.active_cells
    }

    /// The frozen particle at `(x, y)`, if any.
    pub fn cell(&self, x: usize, y: usize) -> (r: Option<Cell>)
        requires
            self.wf(),
            self@.in_bounds(x as int, y as int),
        ensures
            r == self@.occupant(x as int, y as int),
    {
        proof {
            lemma_index_bounds(self.width as int, self.height as int, x as int, y as int);
        }
        lattice_get(&self.cells, x, y)
    }

    /// The colour of a frozen particle in the Moore neighbourhood of `cell`,
    /// scanning the eight offsets in order and keeping the last one found;
    /// `None` when all eight neighbouring cells are empty.
    pub fn is_frozen(&self, cell: (usize, usize)) -> (r: Option<Color>)
        requires
            self.wf(),
            self@.in_bounds(cell.0 as int, cell.1 as int),
        ensures
            r == self@.frozen_neighbor(cell.0 as int, cell.1 as int),
    {
        let mut result: Option<Color> = None;
        for k in 0..8usize
            invariant
                self.wf(),
                self@.in_bounds(cell.0 as int, cell.1 as int),
                result == self@.scan_neighbors(cell.0 as int, cell.1 as int, k as nat),
        {
            let (dx, dy) = direction(k);
            let pos = clip(
                (cell.0 as i32 + dx as i32, cell.1 as i32 + dy as i32),
                self.width,
                self.height,
            );
            match self.cell(pos.0, pos.1) {
                Some(r) => {
                    result = Some(r.color);
                },
                None => {},
            }
        }
        result
    }
}

} // verus!
