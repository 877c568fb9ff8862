use vstd::prelude::*;

verus! {

/// The abstract value of a [`Grid`]: its dimensions and its cells in
/// row-major order (cell `(x, y)` is at index `y * width + x`).
pub struct GridModel {
    pub width: nat,
    pub height: nat,
    pub cells: Seq<bool>,
}

impl GridModel {
    pub open spec fn wf(self) -> bool {
        self.cells.len() == self.width * self.height
    }

    pub open spec fn in_bounds(self, x: int, y: int) -> bool {
        0 <= x < self.width && 0 <= y < self.height
    }

    pub open spec fn index(self, x: int, y: int) -> int {
        y * self.width + x
    }

    pub open spec fn alive(self, x: int, y: int) -> bool {
        self.cells[self.index(x, y)]
    }

    /// The grid with cell `(x, y)` set to `alive`; unchanged out of bounds.
    pub open spec fn set(self, x: int, y: int, alive: bool) -> GridModel {
        if self.in_bounds(x, y) {
            GridModel { cells: self.cells.update(self.index(x, y), alive), ..self }
        } else {
            self
        }
    }

    /// The grid with cell `(x, y)` flipped; unchanged out of bounds.
    pub open spec fn toggle(self, x: int, y: int) -> GridModel {
        self.set(x, y, !self.alive(x, y))
    }

    /// 1 when the cell at `(x, y)`, read with both coordinates wrapped
    /// around the edges, is alive; 0 otherwise.
    pub open spec fn wrapped(self, x: int, y: int) -> int {
        if self.alive(x % (self.width as int), y % (self.height as int)) {
            1
        } else {
            0
        }
    }

    /// The number of live cells among the eight that surround `(x, y)` on the torus.
    pub open spec fn neighbors(self, x: int, y: int) -> int {
        self.wrapped(x - 1, y - 1) + self.wrapped(x, y - 1) + self.wrapped(x + 1, y - 1)
            + self.wrapped(x - 1, y) + self.wrapped(x + 1, y)
            + self.wrapped(x - 1, y + 1) + self.wrapped(x, y + 1) + self.wrapped(x + 1, y + 1)
    }

    /// Conway's rule B3/S23: a live cell survives with two or three live
    /// neighbours, a dead cell is born with exactly three.
    pub open spec fn next_alive(self, x: int, y: int) -> bool {
        let n = self.neighbors(x, y);
        if self.alive(x, y) {
            n == 2 || n == 3
        } else {
            n == 3
        }
    }

    /// The next generation: every cell updated at once by [`Self::next_alive`].
    pub open spec fn stepped(self) -> GridModel {
        GridModel {
            cells: Seq::new(
                self.cells.len(),
                |i: int| self.next_alive(i % (self.width as int), i / (self.width as int)),
            ),
            ..self
        }
    }

    /// The same grid with every cell dead.
    pub open spec fn cleared(self) -> GridModel {
        GridModel { cells: Seq::new(self.cells.len(), |i: int| false), ..self }
    }

    /// The grid resized to `width` x `height`: the cells that lie inside both
    /// the old and the new size keep their state, all others are dead.
    pub open spec fn resized(self, width: nat, height: nat) -> GridModel {
        GridModel {
            width,
            height,
            cells: Seq::new(
                width * height,
                |i: int|
                    {
                        let x = i % (width as int);
                        let y = i / (width as int);
                        self.in_bounds(x, y) && self.alive(x, y)
                    },
            ),
        }
    }

    /// The grid moved by `(dx, dy)` on the torus: the cell that was at
    /// `(x, y)` is now at `((x + dx) mod width, (y + dy) mod height)`.
    pub open spec fn shifted(self, dx: int, dy: int) -> GridModel {
        GridModel {
            cells: Seq::new(
                self.cells.len(),
                |i: int|
                    self.alive(
                        (i % (self.width as int) - dx) % (self.width as int),
                        (i / (self.width as int) - dy) % (self.height as int),
                    ),
            ),
            ..self
        }
    }

    /// The number of live cells.
    pub open spec fn living(self) -> nat {
        count_alive(self.cells, self.cells.len() as int)
    }

    /// The number of dead cells that come alive in the next generation.
    pub open spec fn births(self) -> nat {
        count_births(self.cells, self.stepped().cells, self.cells.len() as int)
    }

    /// The number of live cells that die in the next generation.
    pub open spec fn deaths(self) -> nat {
        count_deaths(self.cells, self.stepped().cells, self.cells.len() as int)
    }
}

/// The number of `true` values among the first `k` of `s`.
pub open spec fn count_alive(s: Seq<bool>, k: int) -> nat
    decreases k,
{
    if k <= 0 {
        0
    } else {
        count_alive(s, k - 1) + if s[k - 1] { 1nat } else { 0nat }
    }
}

/// The number of positions among the first `k` that are dead in `before`
/// and alive in `after`.
pub open spec fn count_births(before: Seq<bool>, after: Seq<bool>, k: int) -> nat
    decreases k,
{
    if k <= 0 {
        0
    } else {
        count_births(before, after, k - 1) + if !before[k - 1] && after[k - 1] {
            1nat
        } else {
            0nat
        }
    }
}

/// The number of positions among the first `k` that are alive in `before`
/// and dead in `after`.
pub open spec fn count_deaths(before: Seq<bool>, after: Seq<bool>, k: int) -> nat
    decreases k,
{
    if k <= 0 {
        0
    } else {
        count_deaths(before, after, k - 1) + if before[k - 1] && !after[k - 1] {
            1nat
        } else {
            0nat
        }
    }
}

/// What a step reports: how many cells were born and how many died.
#[derive(Clone, Copy, Debug, PartialEq, Eq, Structural)]
pub struct StepStats {
    pub births: u32,
    pub deaths: u32,
}

impl Default for StepStats {
    /// No births and no deaths.
    fn default() -> (s: StepStats)
        ensures
            s.births == 0,
            s.deaths == 0,
    {
        StepStats { births: 0, deaths: 0 }
    }
}

/// Moving one step left, right or not at all from `x` on a ring of size `n`.
pub(crate) proof fn lemma_wrap(x: int, n: int)
    requires
        0 <= x < n,
    ensures
        x % n == x,
        (x - 1) % n == if x == 0 { n - 1 } else { x - 1 },
        (x + 1) % n == if x + 1 == n { 0 } else { x + 1 },
{
    vstd::arithmetic::div_mod::lemma_small_mod(x as nat, n as nat);
    if x == 0 {
        vstd::arithmetic::div_mod::lemma_mod_add_multiples_vanish(-1, n);
        vstd::arithmetic::div_mod::lemma_small_mod((n - 1) as nat, n as nat);
    } else {
        vstd::arithmetic::div_mod::lemma_small_mod((x - 1) as nat, n as nat);
    }
    if x + 1 == n {
        vstd::arithmetic::div_mod::lemma_mod_add_multiples_vanish(0, n);
        vstd::arithmetic::div_mod::lemma_small_mod(0, n as nat);
    } else {
        vstd::arithmetic::div_mod::lemma_small_mod((x + 1) as nat, n as nat);
    }
}

/// Index `y * w + x` of a row-major grid recovers `x` and `y`.
proof fn lemma_index_div_mod(x: int, y: int, w: int)
    requires
        0 <= x < w,
        0 <= y,
    ensures
        (y * w + x) % w == x,
        (y * w + x) / w == y,
{
    vstd::arithmetic::div_mod::lemma_fundamental_div_mod_converse(y * w + x, w, y, x);
}

/// A `width` x `height` board of cells that wraps around at its edges.
pub struct Grid {
    width: usize,
    height: usize,
    cells: Vec<bool>,
    scratch: Vec<bool>,
}

impl View for Grid {
    type V = GridModel;

    closed spec fn view(&self) -> GridModel {
        GridModel { width: self.width as nat, height: self.height as nat, cells: self.cells@ }
    }
}

/// Cell `(x, y)` of a `w`-wide grid with `h` rows lies inside the cell vector.
pub proof fn lemma_index_in_range(x: int, y: int, w: int, h: int)
    requires
        0 <= x < w,
        0 <= y < h,
    ensures
        0 <= y * w + x < w * h,
{
    assert(0 <= y * w + x < w * h) by (nonlinear_arith)
        requires
            0 <= x < w,
            0 <= y < h,
    ;
}

impl Clone for Grid {
    /// A grid of the same size with the same cells.
    fn clone(&self) -> (g: Grid)
        ensures
            g@ == self@,
            self.wf() ==> g.wf(),
    {
        let cells = self.cells.clone();
        let scratch = self.scratch.clone();
        proof {
            assert(cells@ =~= self.cells@);
        }
        Grid { width: self.width, height: self.height, cells, scratch }
    }
}

impl Grid {
    /// The invariant every grid keeps: the cell vector matches the size, the
    /// sizes fit in machine words, and the work buffer matches the cell vector.
    pub open spec fn wf(&self) -> bool {
        &&& self@.wf()
        &&& self@.width <= usize::MAX
        &&& self@.height <= usize::MAX
        &&& self@.cells.len() <= usize::MAX
        &&& self.buffer_ok()
    }

    pub closed spec fn buffer_ok(&self) -> bool {
        self.scratch@.len() == self.cells@.len()
    }

    /// An all-dead grid of the given size.
    pub fn new(width: usize, height: usize) -> (g: Grid)
        requires
            width * height <= usize::MAX,
        ensures
            g.wf(),
            g@.width == width,
            g@.height == height,
            g@.cells == Seq::new((width * height) as nat, |i: int| false),
    {
        let n = width * height;
        Grid { width, height, cells: vec![false; n], scratch: vec![false; n] }
    }

    pub fn width(&self) -> (w: usize)
        ensures
            w == self@.width,
    {
        self.width
    }

    pub fn height(&self) -> (h: usize)
        ensures
            h == self@.height,
    {
        self.height
    }

    /// The position of in-bounds cell `(x, y)` in the cell vector.
    fn index_of(&self, x: usize, y: usize) -> (i: usize)
        requires
            self.wf(),
            self@.in_bounds(x as int, y as int),
        ensures
            i == self@.index(x as int, y as int),
            i < self@.cells.len(),
    {
        proof {
            lemma_index_in_range(x as int, y as int, self.width as int, self.height as int);
            assert(y * self.width <= y * self.width + x);
        }
        y * self.width + x
    }

    /// 1 if in-bounds cell `(x, y)` is alive, else 0.
    fn cell_count(&self, x: usize, y: usize) -> (c: u8)
        requires
            self.wf(),
            self@.in_bounds(x as int, y as int),
        ensures
            c == if self@.alive(x as int, y as int) { 1int } else { 0int },
    {
        if self.cells[self.index_of(x, y)] {
            1
        } else {
            0
        }
    }

    /// The state of in-bounds cell `(x, y)` in the next generation.
    #[verifier::spinoff_prover]
    #[verifier::rlimit(40)]
    fn next_state(&self, x: usize, y: usize) -> (next: bool)
        requires
            self.wf(),
            self@.in_bounds(x as int, y as int),
        ensures
            next == self@.next_alive(x as int, y as int),
    {
        let w = self.width;
        let h = self.height;
        let xl = if x == 0 { w - 1 } else { x - 1 };
        let xr = if x + 1 == w { 0 } else { x + 1 };
        let yu = if y == 0 { h - 1 } else { y - 1 };
        let yd = if y + 1 == h { 0 } else { y + 1 };
        proof {
            lemma_wrap(x as int, w as int);
            lemma_wrap(y as int, h as int);
            lemma_index_in_range(x as int, y as int, w as int, h as int);
        }
        let ghost m = self@;
        let c1 = self.cell_count(xl, yu);
        assert(c1 == m.wrapped(x - 1, y - 1));
        let c2 = self.cell_count(x, yu);
        assert(c2 == m.wrapped(x as int, y - 1));
        let c3 = self.cell_count(xr, yu);
        assert(c3 == m.wrapped(x + 1, y - 1));
        let c4 = self.cell_count(xl, y);
        assert(c4 == m.wrapped(x - 1, y as int));
        let c5 = self.cell_count(xr, y);
        assert(c5 == m.wrapped(x + 1, y as int));
        let c6 = self.cell_count(xl, yd);
        assert(c6 == m.wrapped(x - 1, y + 1));
        let c7 = self.cell_count(x, yd);
        assert(c7 == m.wrapped(x as int, y + 1));
        let c8 = self.cell_count(xr, yd);
        assert(c8 == m.wrapped(x + 1, y + 1));
        let n: u8 = c1 + c2 + c3 + c4 + c5 + c6 + c7 + c8;
        if self.get(x, y) {
            n == 2 || n == 3
        } else {
            n == 3
        }
    }

    /// The cell at position `y * width + x` of the row-major cell vector:
    /// cell `(x, y)` when `(x, y)` is in bounds.
    pub fn get(&self, x: usize, y: usize) -> (alive: bool)
        requires
            self.wf(),
            self@.index(x as int, y as int) < self@.cells.len(),
        ensures
            alive == self@.alive(x as int, y as int),
    {
        proof {
            assert(y * self.width <= y * self.width + x);
        }
        self.cells[y * self.width + x]
    }

    /// Sets cell `(x, y)`; does nothing out of bounds.
    pub fn set(&mut self, x: usize, y: usize, alive: bool)
        requires
            old(self).wf(),
        ensures
            final(self).wf(),
            final(self)@ == old(self)@.set(x as int, y as int, alive),
    {
        if x < self.width && y < self.height {
            let i = self.index_of(x, y);
            self.cells.set(i, alive);
        }
    }

    /// Flips cell `(x, y)`; does nothing out of bounds.
    pub fn toggle(&mut self, x: usize, y: usize)
        requires
            old(self).wf(),
        ensures
            final(self).wf(),
            final(self)@ == old(self)@.toggle(x as int, y as int),
    {
        if x < self.width && y < self.height {
            let idx = self.index_of(x, y);
            let flipped = !self.cells[idx];
            self.cells.set(idx, flipped);
        }
    }

    /// Replaces every cell: position `i` of the row-major cell vector takes
    /// the state `cells[i]`.
    pub fn fill(&mut self, cells: &Vec<bool>)
        requires
            old(self).wf(),
            cells@.len() == old(self)@.cells.len(),
        ensures
            final(self).wf(),
            final(self)@ == (GridModel { cells: cells@, ..old(self)@ }),
    {
        let copy = cells.clone();
        proof {
            assert(copy@ =~= cells@);
        }
        self.cells = copy;
    }

    /// Kills every cell.
    pub fn clear(&mut self)
        requires
            old(self).wf(),
        ensures
            final(self).wf(),
            final(self)@ == old(self)@.cleared(),
    {
        let n = self.cells.len();
        let mut i: usize = 0;
        while i < n
            invariant
                n == self.cells@.len(),
                self.width == old(self).width,
                self.height == old(self).height,
                self.scratch@ == old(self).scratch@,
                self.cells@.len() == old(self).cells@.len(),
                i <= n,
                forall|j: int| 0 <= j < i ==> !#[trigger] self.cells@[j],
            decreases n - i,
        {
            self.cells.set(i, false);
            i = i + 1;
        }
        proof {
            assert(self.cells@ =~= old(self)@.cleared().cells);
        }
    }

    /// The number of live cells.
    pub fn living(&self) -> (n: usize)
        requires
            self.wf(),
        ensures
            n == self@.living(),
    {
        let len = self.cells.len();
        let mut count: usize = 0;
        let mut i: usize = 0;
        while i < len
            invariant
                len == self.cells@.len(),
                i <= len,
                count == count_alive(self.cells@, i as int),
                count <= i,
            decreases len - i,
        {
            if self.cells[i] {
                count = count + 1;
            }
            i = i + 1;
        }
        count
    }

    /// Changes the size, keeping the cells that fit in both sizes.
    pub fn resize(&mut self, width: usize, height: usize)
        requires
            old(self).wf(),
            width * height <= usize::MAX,
        ensures
            final(self).wf(),
            final(self)@ == old(self)@.resized(width as nat, height as nat),
    {
        let ghost m = self@;
        let ghost target = m.resized(width as nat, height as nat).cells;
        if width == self.width && height == self.height {
            proof {
                assert forall|i: int| 0 <= i < m.cells.len() implies #[trigger] target[i] == m.cells[i] by {
                    lemma_cell_of_index(m, i);
                }
                assert(target =~= m.cells);
            }
            return;
        }
        let n = width * height;
        let mut next = vec![false; n];
        let copy_w = if self.width < width { self.width } else { width };
        let copy_h = if self.height < height { self.height } else { height };
        proof {
            assert forall|i: int| 0 <= i < n implies #[trigger] next@[i] == (i / (width as int) < 0
                && i % (width as int) < copy_w && m.alive(i % (width as int), i / (width as int))) by {
                let r = m.resized(width as nat, height as nat);
                lemma_cell_of_index(r, i);
            }
        }
        let mut y: usize = 0;
        while y < copy_h
            invariant
                self@ == m,
                self.wf(),
                n == width * height,
                next@.len() == n,
                copy_w <= width,
                copy_w <= m.width,
                copy_h <= height,
                copy_h <= m.height,
                copy_w == width || copy_w == m.width,
                copy_h == height || copy_h == m.height,
                y <= copy_h,
                forall|i: int|
                    0 <= i < n ==> #[trigger] next@[i] == (i / (width as int) < y && i % (width as int) < copy_w
                        && m.alive(i % (width as int), i / (width as int))),
            decreases copy_h - y,
        {
            let mut x: usize = 0;
            while x < copy_w
                invariant
                    self@ == m,
                    self.wf(),
                    n == width * height,
                    next@.len() == n,
                    copy_w <= width,
                    copy_w <= m.width,
                    copy_h <= height,
                    copy_h <= m.height,
                    y < copy_h,
                    x <= copy_w,
                    forall|i: int|
                        0 <= i < n ==> #[trigger] next@[i] == ((i / (width as int) < y && i % (width as int) < copy_w
                            || i / (width as int) == y && i % (width as int) < x)
                            && m.alive(i % (width as int), i / (width as int))),
                decreases copy_w - x,
            {
                proof {
                    lemma_index_in_range(x as int, y as int, width as int, height as int);
                    lemma_index_div_mod(x as int, y as int, width as int);
                    assert(y * width <= y * width + x);
                }
                let v = self.cells[self.index_of(x, y)];
                let j = y * width + x;
                next.set(j, v);
                proof {
                    assert forall|i: int| 0 <= i < n implies #[trigger] next@[i] == ((i / (width as int) < y && i % (width as int) < copy_w
                            || i / (width as int) == y && i % (width as int) < x + 1)
                            && m.alive(i % (width as int), i / (width as int))) by {
                        if i != j {
                            vstd::arithmetic::div_mod::lemma_fundamental_div_mod(i, width as int);
                            if i / (width as int) == y && i % (width as int) == x {
                                assert(i == width * y + x);
                                assert(width * y == y * width) by (nonlinear_arith);
                            }
                        }
                    }
                }
                x = x + 1;
            }
            y = y + 1;
        }
        proof {
            let r = m.resized(width as nat, height as nat);
            assert forall|i: int| 0 <= i < n implies #[trigger] next@[i] == target[i] by {
                lemma_cell_of_index(r, i);
            }
            assert(next@ =~= target);
        }
        self.width = width;
        self.height = height;
        self.cells = next;
        self.scratch = vec![false; n];
    }

    /// How many cells the next generation would bring to life and how many
    /// it would kill, without changing the grid.
    pub fn changes(&self) -> (c: (usize, usize))
        requires
            self.wf(),
        ensures
            c.0 == self@.births(),
            c.1 == self@.deaths(),
    {
        let ghost m = self@;
        let ghost target = m.stepped().cells;
        let w = self.width;
        let h = self.height;
        let mut births: usize = 0;
        let mut deaths: usize = 0;
        let mut y: usize = 0;
        while y < h
            invariant
                self.wf(),
                self@ == m,
                w == m.width,
                h == m.height,
                target == m.stepped().cells,
                y <= h,
                births as int == count_births(m.cells, target, y * w),
                deaths as int == count_deaths(m.cells, target, y * w),
            decreases h - y,
        {
            proof {
                assert(y * w + w == (y + 1) * w) by (nonlinear_arith);
                assert((y + 1) * w <= h * w) by (nonlinear_arith) requires y + 1 <= h;
            }
            let mut x: usize = 0;
            while x < w
                invariant
                    self.wf(),
                    self@ == m,
                    w == m.width,
                    h == m.height,
                    target == m.stepped().cells,
                    y < h,
                    (y + 1) * w <= h * w,
                    y * w + w == (y + 1) * w,
                    x <= w,
                    births as int == count_births(m.cells, target, y * w + x),
                    deaths as int == count_deaths(m.cells, target, y * w + x),
                decreases w - x,
            {
                proof {
                    lemma_index_div_mod(x as int, y as int, w as int);
                    lemma_counts_at_most(m.cells, target, i_of(x as int, y as int, w as int) + 1);
                }
                let next = self.next_state(x, y);
                let i = self.index_of(x, y);
                let alive = self.cells[i];
                proof {
                    assert(target[i as int] == next);
                }
                if !alive && next {
                    births = births + 1;
                } else if alive && !next {
                    deaths = deaths + 1;
                }
                x = x + 1;
            }
            y = y + 1;
        }
        proof {
            assert(y * w == w * h) by (nonlinear_arith) requires y == h;
        }
        (births, deaths)
    }

    /// Advances one generation on the torus and reports births and deaths.
    pub fn step(&mut self) -> (stats: StepStats)
        requires
            old(self).wf(),
            old(self)@.births() <= u32::MAX,
            old(self)@.deaths() <= u32::MAX,
        ensures
            final(self).wf(),
            final(self)@ == old(self)@.stepped(),
            stats.births == old(self)@.births(),
            stats.deaths == old(self)@.deaths(),
    {
        let ghost m = self@;
        let ghost target = m.stepped().cells;
        let w = self.width;
        let h = self.height;
        let mut births: u32 = 0;
        let mut deaths: u32 = 0;
        let mut y: usize = 0;
        while y < h
            invariant
                self.wf(),
                self@ == m,
                w == m.width,
                h == m.height,
                m.births() <= u32::MAX,
                m.deaths() <= u32::MAX,
                target == m.stepped().cells,
                y <= h,
                births as int == count_births(m.cells, target, y * w),
                deaths as int == count_deaths(m.cells, target, y * w),
                forall|i: int| 0 <= i < y * w ==> #[trigger] self.scratch@[i] == target[i],
            decreases h - y,
        {
            proof {
                assert(y * w + w == (y + 1) * w) by (nonlinear_arith);
                assert((y + 1) * w <= h * w) by (nonlinear_arith) requires y + 1 <= h;
            }
            let mut x: usize = 0;
            while x < w
                invariant
                    self.wf(),
                    self@ == m,
                    w == m.width,
                    h == m.height,
                    m.births() <= u32::MAX,
                    m.deaths() <= u32::MAX,
                    target == m.stepped().cells,
                    y < h,
                    (y + 1) * w <= h * w,
                    y * w + w == (y + 1) * w,
                    x <= w,
                    births as int == count_births(m.cells, target, y * w + x),
                    deaths as int == count_deaths(m.cells, target, y * w + x),
                    forall|i: int| 0 <= i < y * w + x ==> #[trigger] self.scratch@[i] == target[i],
                decreases w - x,
            {
                proof {
                    lemma_index_div_mod(x as int, y as int, w as int);
                }
                let next = self.next_state(x, y);
                let i = self.index_of(x, y);
                let alive = self.cells[i];
                proof {
                    assert(target[i as int] == next);
                }
                self.scratch.set(i, next);
                proof {
                    lemma_counts_monotone(m.cells, target, i + 1, m.cells.len() as int);
                }
                if !alive && next {
                    births = births + 1;
                } else if alive && !next {
                    deaths = deaths + 1;
                }
                x = x + 1;
            }
            y = y + 1;
        }
        proof {
            assert(y * w == w * h) by (nonlinear_arith) requires y == h;
            assert(self.scratch@ =~= target);
        }
        std::mem::swap(&mut self.cells, &mut self.scratch);
        StepStats { births, deaths }
    }
}


/// The counts over a prefix never exceed those over a longer prefix.
proof fn lemma_counts_monotone(before: Seq<bool>, after: Seq<bool>, j: int, k: int)
    requires
        j <= k,
    ensures
        count_births(before, after, j) <= count_births(before, after, k),
        count_deaths(before, after, j) <= count_deaths(before, after, k),
    decreases k - j,
{
    if j < k {
        lemma_counts_monotone(before, after, j, k - 1);
    }
}

/// The row-major position of `(x, y)` in rows `w` wide.
spec fn i_of(x: int, y: int, w: int) -> int {
    y * w + x
}

/// A grid has at most as many births, and as many deaths, as cells.
pub proof fn lemma_changes_within_size(m: GridModel)
    requires
        m.wf(),
    ensures
        m.births() <= m.width * m.height,
        m.deaths() <= m.width * m.height,
{
    lemma_counts_at_most(m.cells, m.stepped().cells, m.cells.len() as int);
}

proof fn lemma_counts_at_most(before: Seq<bool>, after: Seq<bool>, k: int)
    requires
        k >= 0,
    ensures
        count_births(before, after, k) <= k,
        count_deaths(before, after, k) <= k,
    decreases k,
{
    if k > 0 {
        lemma_counts_at_most(before, after, k - 1);
    }
}

/// In a well-formed grid the index of an in-bounds cell is the position
/// whose quotient and remainder by the width are the cell's coordinates.
proof fn lemma_cell_of_index(m: GridModel, i: int)
    requires
        m.wf(),
        0 <= i < m.cells.len(),
    ensures
        m.in_bounds(i % (m.width as int), i / (m.width as int)),
        m.index(i % (m.width as int), i / (m.width as int)) == i,
{
    let w = m.width as int;
    let h = m.height as int;
    assert(w > 0) by (nonlinear_arith)
        requires
            0 <= i < w * h,
            h >= 0,
            w >= 0,
    ;
    let x = i % w;
    let y = i / w;
    vstd::arithmetic::div_mod::lemma_fundamental_div_mod(i, w);
    assert(0 <= y < h) by (nonlinear_arith)
        requires
            i == w * y + x,
            0 <= x < w,
            0 <= i < w * h,
    ;
    assert(y * w + x == i) by (nonlinear_arith) requires i == w * y + x;
}

/// Reading a cell gives back what was just written there, and writing one
/// cell leaves every other cell as it was.
pub proof fn law_get_after_set(m: GridModel, x: int, y: int, alive: bool, x2: int, y2: int)
    requires
        m.wf(),
        m.in_bounds(x, y),
        m.in_bounds(x2, y2),
    ensures
        m.set(x, y, alive).wf(),
        m.set(x, y, alive).alive(x, y) == alive,
        (x2 != x || y2 != y) ==> m.set(x, y, alive).alive(x2, y2) == m.alive(x2, y2),
{
    lemma_index_in_range(x, y, m.width as int, m.height as int);
    lemma_index_in_range(x2, y2, m.width as int, m.height as int);
    if x2 != x || y2 != y {
        lemma_index_div_mod(x, y, m.width as int);
        lemma_index_div_mod(x2, y2, m.width as int);
    }
}

/// Writing outside the grid changes nothing.
pub proof fn law_set_out_of_bounds(m: GridModel, x: int, y: int, alive: bool)
    requires
        !m.in_bounds(x, y),
    ensures
        m.set(x, y, alive) == m,
{
}

/// Toggling a cell twice restores the grid.
pub proof fn law_toggle_twice(m: GridModel, x: int, y: int)
    requires
        m.wf(),
    ensures
        m.toggle(x, y).toggle(x, y) == m,
{
    if m.in_bounds(x, y) {
        lemma_index_in_range(x, y, m.width as int, m.height as int);
        assert(m.toggle(x, y).toggle(x, y).cells =~= m.cells);
    }
}

/// Toggling a cell turns a live cell dead and a dead cell alive.
pub proof fn law_toggle_flips(m: GridModel, x: int, y: int)
    requires
        m.wf(),
        m.in_bounds(x, y),
    ensures
        m.toggle(x, y).alive(x, y) == !m.alive(x, y),
{
    lemma_index_in_range(x, y, m.width as int, m.height as int);
}

proof fn lemma_count_all_dead(s: Seq<bool>, k: int)
    requires
        forall|i: int| 0 <= i < k ==> !#[trigger] s[i],
    ensures
        count_alive(s, k) == 0,
    decreases k,
{
    if k > 0 {
        lemma_count_all_dead(s, k - 1);
    }
}

/// A cleared grid has no live cells and keeps its size.
pub proof fn law_cleared_is_empty(m: GridModel)
    requires
        m.wf(),
    ensures
        m.cleared().wf(),
        m.cleared().width == m.width,
        m.cleared().height == m.height,
        m.cleared().living() == 0,
{
    lemma_count_all_dead(m.cleared().cells, m.cells.len() as int);
}

/// In the next generation each cell follows B3/S23 applied to its own
/// state and its eight neighbours on the torus; the size is kept.
pub proof fn law_stepped_cell(m: GridModel, x: int, y: int)
    requires
        m.wf(),
        m.in_bounds(x, y),
    ensures
        m.stepped().wf(),
        m.stepped().width == m.width,
        m.stepped().height == m.height,
        m.stepped().alive(x, y) == m.next_alive(x, y),
{
    lemma_index_in_range(x, y, m.width as int, m.height as int);
    lemma_index_div_mod(x, y, m.width as int);
}

proof fn lemma_population_balance(before: Seq<bool>, after: Seq<bool>, k: int)
    ensures
        count_alive(after, k) + count_deaths(before, after, k) == count_alive(before, k)
            + count_births(before, after, k),
    decreases k,
{
    if k > 0 {
        lemma_population_balance(before, after, k - 1);
    }
}

/// The live cells after a step are those before, plus the births, minus
/// the deaths that the step reports.
pub proof fn law_step_population(m: GridModel)
    requires
        m.wf(),
    ensures
        m.stepped().living() + m.deaths() == m.living() + m.births(),
{
    lemma_population_balance(m.cells, m.stepped().cells, m.cells.len() as int);
}

/// Resizing keeps every cell that lies inside both sizes; the cells that
/// are new are dead.
pub proof fn law_resize_cell(m: GridModel, width: nat, height: nat, x: int, y: int)
    requires
        m.wf(),
        0 <= x < width,
        0 <= y < height,
    ensures
        m.resized(width, height).wf(),
        m.resized(width, height).alive(x, y) == (m.in_bounds(x, y) && m.alive(x, y)),
{
    lemma_index_in_range(x, y, width as int, height as int);
    lemma_index_div_mod(x, y, width as int);
}

/// Resizing to the current size changes nothing.
pub proof fn law_resize_same_size(m: GridModel)
    requires
        m.wf(),
    ensures
        m.resized(m.width, m.height) == m,
{
    let r = m.resized(m.width, m.height);
    assert forall|i: int| 0 <= i < m.cells.len() implies #[trigger] r.cells[i] == m.cells[i] by {
        lemma_cell_of_index(m, i);
    }
    assert(r.cells =~= m.cells);
}

/// Reading a cell through the torus after first wrapping one coordinate is
/// the same as wrapping once: `((p mod n) + q) mod n == (p + q) mod n`.
proof fn lemma_mod_shift(p: int, q: int, n: int)
    requires
        n > 0,
    ensures
        ((p % n) + q) % n == (p + q) % n,
{
    vstd::arithmetic::div_mod::lemma_add_mod_noop_right(q, p, n);
}

/// A cell read through the torus in a shifted grid is the cell the shift
/// moved there.
proof fn lemma_shifted_wrapped(m: GridModel, dx: int, dy: int, x: int, y: int, ox: int, oy: int)
    requires
        m.wf(),
        m.width > 0,
        m.height > 0,
    ensures
        m.shifted(dx, dy).wrapped(x + ox, y + oy) == m.wrapped(
            (x - dx) % (m.width as int) + ox,
            (y - dy) % (m.height as int) + oy,
        ),
{
    let w = m.width as int;
    let h = m.height as int;
    let a = (x + ox) % w;
    let b = (y + oy) % h;
    vstd::arithmetic::div_mod::lemma_mod_bound(x + ox, w);
    vstd::arithmetic::div_mod::lemma_mod_bound(y + oy, h);
    lemma_index_in_range(a, b, w, h);
    lemma_index_div_mod(a, b, w);
    lemma_mod_shift(x + ox, -dx, w);
    lemma_mod_shift(y + oy, -dy, h);
    lemma_mod_shift(x - dx, ox, w);
    lemma_mod_shift(y - dy, oy, h);
    assert(x + ox - dx == x - dx + ox);
    assert(y + oy - dy == y - dy + oy);
}

/// The neighbour counts of a shifted grid are those of the original grid at
/// the cell the shift came from.
proof fn lemma_shifted_neighbors(m: GridModel, dx: int, dy: int, x: int, y: int)
    requires
        m.wf(),
        m.width > 0,
        m.height > 0,
        m.in_bounds(x, y),
    ensures
        m.shifted(dx, dy).alive(x, y) == m.alive((x - dx) % (m.width as int), (y - dy) % (m.height as int)),
        m.shifted(dx, dy).neighbors(x, y) == m.neighbors((x - dx) % (m.width as int), (y - dy) % (m.height as int)),
{
    let w = m.width as int;
    let h = m.height as int;
    lemma_index_in_range(x, y, w, h);
    lemma_index_div_mod(x, y, w);
    lemma_shifted_wrapped(m, dx, dy, x, y, -1, -1);
    lemma_shifted_wrapped(m, dx, dy, x, y, 0, -1);
    lemma_shifted_wrapped(m, dx, dy, x, y, 1, -1);
    lemma_shifted_wrapped(m, dx, dy, x, y, -1, 0);
    lemma_shifted_wrapped(m, dx, dy, x, y, 1, 0);
    lemma_shifted_wrapped(m, dx, dy, x, y, -1, 1);
    lemma_shifted_wrapped(m, dx, dy, x, y, 0, 1);
    lemma_shifted_wrapped(m, dx, dy, x, y, 1, 1);
}

/// The edges wrap: shifting a pattern around the torus and then stepping
/// gives the same grid as stepping and then shifting.
pub proof fn law_step_commutes_with_shift(m: GridModel, dx: int, dy: int)
    requires
        m.wf(),
    ensures
        m.shifted(dx, dy).stepped() == m.stepped().shifted(dx, dy),
{
    let w = m.width as int;
    let h = m.height as int;
    let lhs = m.shifted(dx, dy).stepped();
    let rhs = m.stepped().shifted(dx, dy);
    assert forall|i: int| 0 <= i < m.cells.len() implies #[trigger] lhs.cells[i] == rhs.cells[i] by {
        lemma_cell_of_index(m, i);
        let x = i % w;
        let y = i / w;
        let sx = (x - dx) % w;
        let sy = (y - dy) % h;
        lemma_shifted_neighbors(m, dx, dy, x, y);
        vstd::arithmetic::div_mod::lemma_mod_bound(x - dx, w);
        vstd::arithmetic::div_mod::lemma_mod_bound(y - dy, h);
        law_stepped_cell(m, sx, sy);
    }
    assert(lhs.cells =~= rhs.cells);
}

// ---------------------------------------------------------------------------
// Counting cells through a correspondence of positions
// ---------------------------------------------------------------------------

/// Killing one live cell lowers the count of every prefix that holds it by one.
proof fn lemma_count_kill(s: Seq<bool>, j: int, k: int)
    requires
        0 <= j < s.len(),
        s[j],
        0 <= k <= s.len(),
    ensures
        count_alive(s.update(j, false), k) + (if j < k { 1int } else { 0int }) == count_alive(s, k),
    decreases k,
{
    if k > 0 {
        lemma_count_kill(s, j, k - 1);
    }
}

/// If `f` sends the `true` positions among the first `k` of `s1` to `true`
/// positions of `s2`, and `g` undoes `f` there, then `s1` has no more `true`
/// values among its first `k` than `s2` has in all.
proof fn lemma_count_injection(
    s1: Seq<bool>,
    s2: Seq<bool>,
    f: spec_fn(int) -> int,
    g: spec_fn(int) -> int,
    k: int,
)
    requires
        0 <= k <= s1.len(),
        forall|i: int|
            #![trigger s1[i]]
            0 <= i < k && s1[i] ==> 0 <= f(i) < s2.len() && s2[f(i)] && g(f(i)) == i,
    ensures
        count_alive(s1, k) <= count_alive(s2, s2.len() as int),
    decreases k,
{
    if k > 0 {
        if s1[k - 1] {
            let j = f(k - 1);
            let s2b = s2.update(j, false);
            assert forall|i: int|
                #![trigger s1[i]]
                0 <= i < k - 1 && s1[i] implies 0 <= f(i) < s2b.len() && s2b[f(i)] && g(f(i)) == i by {
                assert(f(i) != j);
            }
            lemma_count_injection(s1, s2b, f, g, k - 1);
            lemma_count_kill(s2, j, s2.len() as int);
        } else {
            lemma_count_injection(s1, s2, f, g, k - 1);
        }
    }
}

/// The positions that come alive, as a sequence of flags.
spec fn birth_flags(before: Seq<bool>, after: Seq<bool>) -> Seq<bool> {
    Seq::new(before.len(), |i: int| !before[i] && after[i])
}

/// The positions that die, as a sequence of flags.
spec fn death_flags(before: Seq<bool>, after: Seq<bool>) -> Seq<bool> {
    Seq::new(before.len(), |i: int| before[i] && !after[i])
}

proof fn lemma_changes_as_flags(before: Seq<bool>, after: Seq<bool>, k: int)
    requires
        0 <= k <= before.len(),
    ensures
        count_births(before, after, k) == count_alive(birth_flags(before, after), k),
        count_deaths(before, after, k) == count_alive(death_flags(before, after), k),
    decreases k,
{
    if k > 0 {
        lemma_changes_as_flags(before, after, k - 1);
    }
}

/// The position that the shift by `(dx, dy)` moves position `i` to, and the
/// position it comes from.
spec fn shift_to(m: GridModel, dx: int, dy: int, i: int) -> int {
    let w = m.width as int;
    let h = m.height as int;
    m.index((i % w + dx) % w, (i / w + dy) % h)
}

spec fn shift_from(m: GridModel, dx: int, dy: int, i: int) -> int {
    let w = m.width as int;
    let h = m.height as int;
    m.index((i % w - dx) % w, (i / w - dy) % h)
}

/// A shift and the shift back undo each other on the positions of the grid.
proof fn lemma_shift_positions(m: GridModel, dx: int, dy: int, i: int)
    requires
        m.wf(),
        0 <= i < m.cells.len(),
    ensures
        0 <= shift_to(m, dx, dy, i) < m.cells.len(),
        0 <= shift_from(m, dx, dy, i) < m.cells.len(),
        shift_from(m, dx, dy, shift_to(m, dx, dy, i)) == i,
        shift_to(m, dx, dy, shift_from(m, dx, dy, i)) == i,
{
    let w = m.width as int;
    let h = m.height as int;
    lemma_cell_of_index(m, i);
    let x = i % w;
    let y = i / w;
    vstd::arithmetic::div_mod::lemma_mod_bound(x + dx, w);
    vstd::arithmetic::div_mod::lemma_mod_bound(y + dy, h);
    vstd::arithmetic::div_mod::lemma_mod_bound(x - dx, w);
    vstd::arithmetic::div_mod::lemma_mod_bound(y - dy, h);
    let tx = (x + dx) % w;
    let ty = (y + dy) % h;
    let fx = (x - dx) % w;
    let fy = (y - dy) % h;
    lemma_index_in_range(tx, ty, w, h);
    lemma_index_in_range(fx, fy, w, h);
    lemma_index_div_mod(tx, ty, w);
    lemma_index_div_mod(fx, fy, w);
    lemma_mod_shift(x + dx, -dx, w);
    lemma_mod_shift(y + dy, -dy, h);
    lemma_mod_shift(x - dx, dx, w);
    lemma_mod_shift(y - dy, dy, h);
    assert(x + dx + -dx == x);
    assert(y + dy + -dy == y);
    assert(x - dx + dx == x);
    assert(y - dy + dy == y);
    vstd::arithmetic::div_mod::lemma_small_mod(x as nat, w as nat);
    vstd::arithmetic::div_mod::lemma_small_mod(y as nat, h as nat);
}

/// Counting the `true` values of two sequences of the same length that
/// correspond through the shift gives the same number.
proof fn lemma_count_shifted(m: GridModel, dx: int, dy: int, s: Seq<bool>, t: Seq<bool>)
    requires
        m.wf(),
        s.len() == m.cells.len(),
        t.len() == m.cells.len(),
        forall|i: int| 0 <= i < m.cells.len() ==> #[trigger] t[i] == s[shift_from(m, dx, dy, i)],
    ensures
        count_alive(s, s.len() as int) == count_alive(t, t.len() as int),
{
    let f = |i: int| shift_to(m, dx, dy, i);
    let g = |i: int| shift_from(m, dx, dy, i);
    assert forall|i: int| #![trigger s[i]] 0 <= i < s.len() && s[i] implies 0 <= f(i) < t.len() && t[f(i)]
        && g(f(i)) == i by {
        lemma_shift_positions(m, dx, dy, i);
        assert(t[f(i)] == s[g(f(i))]);
    }
    lemma_count_injection(s, t, f, g, s.len() as int);
    assert forall|i: int| #![trigger t[i]] 0 <= i < t.len() && t[i] implies 0 <= g(i) < s.len() && s[g(i)]
        && f(g(i)) == i by {
        lemma_shift_positions(m, dx, dy, i);
    }
    lemma_count_injection(t, s, g, f, t.len() as int);
}

/// The edges wrap: a grid moved around the torus has as many births and as
/// many deaths in its next generation as the grid itself.
pub proof fn law_shift_keeps_changes(m: GridModel, dx: int, dy: int)
    requires
        m.wf(),
    ensures
        m.shifted(dx, dy).births() == m.births(),
        m.shifted(dx, dy).deaths() == m.deaths(),
{
    let sm = m.shifted(dx, dy);
    let n = m.cells.len() as int;
    law_step_commutes_with_shift(m, dx, dy);
    let next = m.stepped();
    let snext = sm.stepped();
    assert(snext == next.shifted(dx, dy));
    assert forall|i: int| 0 <= i < n implies #[trigger] sm.cells[i] == m.cells[shift_from(m, dx, dy, i)]
        && snext.cells[i] == next.cells[shift_from(m, dx, dy, i)] by {
    }
    let bs = birth_flags(m.cells, next.cells);
    let bt = birth_flags(sm.cells, snext.cells);
    let ds = death_flags(m.cells, next.cells);
    let dt = death_flags(sm.cells, snext.cells);
    assert forall|i: int| 0 <= i < n implies #[trigger] bt[i] == bs[shift_from(m, dx, dy, i)] by {
        lemma_shift_positions(m, dx, dy, i);
        assert(sm.cells[i] == m.cells[shift_from(m, dx, dy, i)]);
        assert(snext.cells[i] == next.cells[shift_from(m, dx, dy, i)]);
    }
    assert forall|i: int| 0 <= i < n implies #[trigger] dt[i] == ds[shift_from(m, dx, dy, i)] by {
        lemma_shift_positions(m, dx, dy, i);
        assert(sm.cells[i] == m.cells[shift_from(m, dx, dy, i)]);
        assert(snext.cells[i] == next.cells[shift_from(m, dx, dy, i)]);
    }
    lemma_count_shifted(m, dx, dy, bs, bt);
    lemma_count_shifted(m, dx, dy, ds, dt);
    lemma_changes_as_flags(m.cells, next.cells, n);
    lemma_changes_as_flags(sm.cells, snext.cells, n);
}

/// Resizing never brings a cell to life: the resized grid has at most as
/// many live cells, and exactly as many when it is at least as large both
/// ways.
pub proof fn law_resize_keeps_or_loses_cells(m: GridModel, width: nat, height: nat)
    requires
        m.wf(),
    ensures
        m.resized(width, height).living() <= m.living(),
        width >= m.width && height >= m.height ==> m.resized(width, height).living() == m.living(),
{
    let r = m.resized(width, height);
    let w = m.width as int;
    let nw = width as int;
    let to_old = |i: int| m.index(i % nw, i / nw);
    let to_new = |j: int| r.index(j % w, j / w);
    assert forall|i: int|
        #![trigger r.cells[i]]
        0 <= i < r.cells.len() && r.cells[i] implies 0 <= to_old(i) < m.cells.len() && m.cells[to_old(i)]
        && to_new(to_old(i)) == i by {
        lemma_cell_of_index(r, i);
        let x = i % nw;
        let y = i / nw;
        lemma_index_in_range(x, y, w, m.height as int);
        lemma_index_div_mod(x, y, w);
    }
    lemma_count_injection(r.cells, m.cells, to_old, to_new, r.cells.len() as int);
    if width >= m.width && height >= m.height {
        assert forall|j: int|
            #![trigger m.cells[j]]
            0 <= j < m.cells.len() && m.cells[j] implies 0 <= to_new(j) < r.cells.len() && r.cells[to_new(j)]
            && to_old(to_new(j)) == j by {
            lemma_cell_of_index(m, j);
            let x = j % w;
            let y = j / w;
            lemma_index_in_range(x, y, nw, height as int);
            lemma_index_div_mod(x, y, nw);
        }
        lemma_count_injection(m.cells, r.cells, to_new, to_old, m.cells.len() as int);
    }
}

/// Conway's rule, read straight off the cells: with `w` x `h` cells in rows
/// and `n` the number of live cells among the eight around `(x, y)`, each
/// coordinate taken modulo the grid's side, the cell at `(x, y)` is alive in
/// the next generation exactly when it is alive with 2 or 3 live neighbours,
/// or dead with exactly 3; a live cell with fewer than 2 or more than 3 dies.
pub proof fn law_conway_rule(m: GridModel, x: int, y: int)
    requires
        m.wf(),
        m.in_bounds(x, y),
    ensures
        ({
            let w = m.width as int;
            let h = m.height as int;
            let c = m.cells;
            let n = (if c[((y - 1) % h) * w + (x - 1) % w] { 1int } else { 0int })
                + (if c[((y - 1) % h) * w + x % w] { 1int } else { 0int })
                + (if c[((y - 1) % h) * w + (x + 1) % w] { 1int } else { 0int })
                + (if c[(y % h) * w + (x - 1) % w] { 1int } else { 0int })
                + (if c[(y % h) * w + (x + 1) % w] { 1int } else { 0int })
                + (if c[((y + 1) % h) * w + (x - 1) % w] { 1int } else { 0int })
                + (if c[((y + 1) % h) * w + x % w] { 1int } else { 0int })
                + (if c[((y + 1) % h) * w + (x + 1) % w] { 1int } else { 0int });
            let here = c[y * w + x];
            &&& m.stepped().cells[y * w + x] == ((here && (n == 2 || n == 3)) || (!here && n == 3))
            &&& here && (n < 2 || n > 3) ==> !m.stepped().cells[y * w + x]
        }),
{
    law_stepped_cell(m, x, y);
}

/// The births and deaths a step reports are the cells dead before and
/// alive after it, and the cells alive before and dead after it; with them
/// the live cells balance: after + deaths == before + births.
pub proof fn law_changes_counted(m: GridModel)
    requires
        m.wf(),
    ensures
        m.births() == count_births(m.cells, m.stepped().cells, m.cells.len() as int),
        m.deaths() == count_deaths(m.cells, m.stepped().cells, m.cells.len() as int),
        count_alive(m.stepped().cells, m.cells.len() as int) + m.deaths() == count_alive(
            m.cells,
            m.cells.len() as int,
        ) + m.births(),
{
    law_step_population(m);
}

} // verus!
