use vstd::arithmetic::div_mod::{
    lemma_add_mod_noop,
    lemma_fundamental_div_mod_converse,
    lemma_small_mod,
};
use vstd::arithmetic::mul::lemma_mul_inequality;
use vstd::prelude::*;

verus! {

/// Number of distinct `usize` values: arithmetic on the generator's state wraps modulo this.
pub open spec fn word_modulus() -> nat {
    usize::MAX as nat + 1
}

/// One step of the recurrence `state = state * 1103515245 + 12345`, wrapping at the width of `usize`.
pub open spec fn lcg_step(x: usize) -> usize {
    ((x as nat * 1103515245 + 12345) % word_modulus()) as usize
}

/// The value handed out for a state: its low 31 bits.
pub open spec fn lcg_output(x: usize) -> usize {
    x & 0x7fff_ffff
}

/// Generator state after `k` steps from the seed `seed`.
pub open spec fn lcg_state(seed: usize, k: nat) -> usize
    decreases k,
{
    if k == 0 {
        seed
    } else {
        lcg_step(lcg_state(seed, (k - 1) as nat))
    }
}

/// Whether a generated value makes a cell alive: 60% of the residues modulo 10.
pub open spec fn seeds_alive(v: usize) -> bool {
    v % 10 < 6
}

/// The first `n` cells drawn from the seed 1, in row-major order.
pub open spec fn seed_cells(n: nat) -> Seq<bool> {
    Seq::new(n, |i: int| seeds_alive(lcg_output(lcg_state(1, (i + 1) as nat))))
}

/// Deterministic pseudo-random source, used once to seed the initial generation.
pub struct Rand {
    x: usize,
}

impl Rand {
    /// Current internal state of the generator.
    pub closed spec fn state(&self) -> usize {
        self.x
    }

    pub fn new(x: usize) -> (r: Self)
        ensures
            r.state() == x,
    {
        Self { x }
    }

    /// Advances the state by one step and returns the low 31 bits of the new state.
    fn rand(&mut self) -> (r: usize)
        ensures
            final(self).state() == lcg_step(old(self).state()),
            r == lcg_output(final(self).state()),
    {
        let m = self.x.wrapping_mul(1103515245);
        let s = m.wrapping_add(12345);
        proof {
            let big = self.x as int * 1103515245;
            let w = word_modulus() as int;
            lemma_add_mod_noop(big, 12345, w);
            lemma_small_mod(12345, w as nat);
            assert(m as int == big % w);
            assert(s as int == (m + 12345) % w);
        }
        self.x = s;
        self.x & 0x7fff_ffff
    }
}


/// Reading of the cell at `(y, x)`: a coordinate outside the grid reads as dead.
pub open spec fn cell_at(g: Seq<Seq<bool>>, y: int, x: int) -> bool {
    0 <= y < g.len() && 0 <= x < g[y].len() && g[y][x]
}

pub open spec fn alive_count(b: bool) -> nat {
    if b {
        1
    } else {
        0
    }
}

/// Number of live cells among the eight Moore neighbours of `(y, x)`.
pub open spec fn live_neighbors(g: Seq<Seq<bool>>, y: int, x: int) -> nat {
    alive_count(cell_at(g, y - 1, x - 1)) + alive_count(cell_at(g, y, x - 1))
        + alive_count(cell_at(g, y + 1, x - 1)) + alive_count(cell_at(g, y - 1, x))
        + alive_count(cell_at(g, y + 1, x)) + alive_count(cell_at(g, y - 1, x + 1))
        + alive_count(cell_at(g, y, x + 1)) + alive_count(cell_at(g, y + 1, x + 1))
}

/// The B3/S23 rule: born with three live neighbours, survives with two or three.
pub open spec fn next_state(g: Seq<Seq<bool>>, y: int, x: int) -> bool {
    let n = live_neighbors(g, y, x);
    n == 3 || (n == 2 && cell_at(g, y, x))
}

/// The generation that follows `g`, which has `cols` columns.
pub open spec fn next_grid(g: Seq<Seq<bool>>, cols: nat) -> Seq<Seq<bool>> {
    Seq::new(g.len(), |y: int| Seq::new(cols, |x: int| next_state(g, y, x)))
}

/// Cuts a row-major sequence into `rows` rows of `cols` cells.
pub open spec fn reshape(buf: Seq<bool>, rows: nat, cols: nat) -> Seq<Seq<bool>> {
    Seq::new(rows, |y: int| buf.subrange(y * cols, y * cols + cols))
}

/// The cells of `g` in row-major order: cell `(y, x)` stands at `y * cols + x`.
pub open spec fn flatten(g: Seq<Seq<bool>>, cols: nat) -> Seq<bool> {
    Seq::new(g.len() * cols, |i: int| g[i / (cols as int)][i % (cols as int)])
}

/// Whether every row of `g` has exactly `cols` cells.
pub open spec fn is_rectangular(g: Seq<Seq<bool>>, cols: nat) -> bool {
    forall|y: int| 0 <= y < g.len() ==> #[trigger] g[y].len() == cols
}

/// Index `y * cols + x` of a grid with `rows` rows of `cols` cells is in range and
/// decomposes back into `(y, x)`.
pub proof fn lemma_flat_index(rows: nat, cols: nat, y: int, x: int)
    requires
        0 <= y < rows,
        0 <= x < cols,
    ensures
        0 <= y * cols + x,
        y * cols + cols <= rows * cols,
        y * cols + x < rows * cols,
        (y * cols + x) / (cols as int) == y,
        (y * cols + x) % (cols as int) == x,
{
    lemma_fundamental_div_mod_converse(y * cols + x, cols as int, y, x);
    lemma_mul_inequality(y + 1, rows as int, cols as int);
    assert((y + 1) * cols == y * cols + cols) by (nonlinear_arith);
    assert(0 <= y * cols) by (nonlinear_arith)
        requires
            0 <= y,
    ;
}

/// The row-major form of a rectangular grid has `rows * cols` cells, and cell `(y, x)`
/// stands at index `y * cols + x`.
pub proof fn lemma_flatten_index(g: Seq<Seq<bool>>, cols: nat, y: int, x: int)
    requires
        is_rectangular(g, cols),
        0 <= y < g.len(),
        0 <= x < cols,
    ensures
        flatten(g, cols).len() == g.len() * cols,
        0 <= y * cols + x < g.len() * cols,
        flatten(g, cols)[y * cols + x] == g[y][x],
{
    lemma_flat_index(g.len(), cols, y, x);
}

/// Cutting the row-major form of a rectangular grid gives the grid back.
pub proof fn lemma_reshape_flatten(g: Seq<Seq<bool>>, cols: nat)
    requires
        is_rectangular(g, cols),
    ensures
        reshape(flatten(g, cols), g.len(), cols) == g,
{
    let f = flatten(g, cols);
    let r = reshape(f, g.len(), cols);
    assert forall|y: int| 0 <= y < g.len() implies #[trigger] r[y] == g[y] by {
        if cols > 0 {
            lemma_flat_index(g.len(), cols, y, 0);
        } else {
            assert(g.len() * cols == 0);
        }
        assert forall|x: int| 0 <= x < cols implies #[trigger] r[y][x] == g[y][x] by {
            lemma_flat_index(g.len(), cols, y, x);
        }
        assert(r[y] =~= g[y]);
    }
    assert(r =~= g);
}


/// Cutting a buffer of `rows * cols` cells gives `rows` rows of `cols` cells, and reading
/// them back in row-major order gives the buffer.
pub proof fn lemma_flatten_reshape(buf: Seq<bool>, rows: nat, cols: nat)
    requires
        buf.len() == rows * cols,
    ensures
        reshape(buf, rows, cols).len() == rows,
        is_rectangular(reshape(buf, rows, cols), cols),
        flatten(reshape(buf, rows, cols), cols) == buf,
{
    let g = reshape(buf, rows, cols);
    assert forall|y: int| 0 <= y < rows implies #[trigger] g[y].len() == cols by {
        if cols > 0 {
            lemma_flat_index(rows, cols, y, 0);
        } else {
            assert(y * cols == 0) by (nonlinear_arith)
                requires
                    cols == 0,
            ;
        }
    }
    let f = flatten(g, cols);
    assert forall|i: int| 0 <= i < buf.len() implies #[trigger] f[i] == buf[i] by {
        let c = cols as int;
        assert(c > 0) by {
            if c == 0 {
                assert(rows * cols == 0);
            }
        }
        let y = i / c;
        let x = i % c;
        assert(i == y * c + x) by (nonlinear_arith)
            requires
                c > 0,
                y == i / c,
                x == i % c,
        ;
        assert(0 <= x < c);
        assert(0 <= y < rows) by (nonlinear_arith)
            requires
                c > 0,
                0 <= i < rows * c,
                y == i / c,
        ;
        lemma_flat_index(rows, cols, y, x);
    }
    assert(f =~= buf);
}

/// Seeding is deterministic: the initial generation of a `rows` by `cols` automaton, read in
/// row-major order, is the first `rows * cols` decisions drawn from the seed 1, so it depends
/// on the dimensions alone.
pub proof fn lemma_seeding_deterministic(rows: nat, cols: nat)
    ensures
        flatten(reshape(seed_cells(rows * cols), rows, cols), cols) == seed_cells(rows * cols),
{
    lemma_flatten_reshape(seed_cells(rows * cols), rows, cols);
}

/// The transition rule: a cell with exactly three live neighbours is alive next, a live cell
/// with exactly two stays alive, and every other case gives a dead cell.
pub proof fn lemma_transition_rule(g: Seq<Seq<bool>>, y: int, x: int)
    ensures
        live_neighbors(g, y, x) == 3 ==> next_state(g, y, x),
        live_neighbors(g, y, x) == 2 && cell_at(g, y, x) ==> next_state(g, y, x),
        live_neighbors(g, y, x) == 2 && !cell_at(g, y, x) ==> !next_state(g, y, x),
        live_neighbors(g, y, x) != 2 && live_neighbors(g, y, x) != 3 ==> !next_state(g, y, x),
{
}

/// Coordinates outside the grid read as dead, with no wrap-around: the corner `(0, 0)` has
/// at most three live neighbours, the cells `(0, 1)`, `(1, 0)` and `(1, 1)`.
pub proof fn lemma_hard_edges(g: Seq<Seq<bool>>, y: int, x: int)
    ensures
        !(0 <= y < g.len()) ==> !cell_at(g, y, x),
        x < 0 ==> !cell_at(g, y, x),
        0 <= y < g.len() && x >= g[y].len() ==> !cell_at(g, y, x),
        live_neighbors(g, 0, 0) == alive_count(cell_at(g, 0, 1)) + alive_count(cell_at(g, 1, 0))
            + alive_count(cell_at(g, 1, 1)),
        live_neighbors(g, 0, 0) <= 3,
{
}

/// A generation of dead cells is followed by a generation of dead cells.
pub proof fn lemma_dead_grid_stays_dead(g: Seq<Seq<bool>>, cols: nat)
    requires
        forall|y: int, x: int| !cell_at(g, y, x),
    ensures
        forall|y: int, x: int| !#[trigger] cell_at(next_grid(g, cols), y, x),
        forall|i: int| 0 <= i < g.len() * cols ==> !#[trigger] flatten(next_grid(g, cols), cols)[i],
{
    let ng = next_grid(g, cols);
    assert forall|y: int, x: int| !#[trigger] cell_at(ng, y, x) by {
        assert(live_neighbors(g, y, x) == 0);
    }
    assert forall|i: int| 0 <= i < g.len() * cols implies !#[trigger] flatten(ng, cols)[i] by {
        let c = cols as int;
        let n = g.len() as int;
        assert(c > 0 && 0 <= i / c < n && 0 <= i % c < c) by (nonlinear_arith)
            requires
                0 <= i < n * c,
                0 <= n,
                0 <= c,
        ;
        assert(!cell_at(ng, i / c, i % c));
    }
}

/// A Game of Life automaton: the current generation of a `rows` by `cols` grid.
pub struct Game {
    row_size: usize,
    col_size: usize,
    field: Vec<Vec<bool>>,
}

impl Game {
    pub closed spec fn rows(&self) -> nat {
        self.row_size as nat
    }

    pub closed spec fn cols(&self) -> nat {
        self.col_size as nat
    }

    /// The current generation, row by row.
    pub closed spec fn grid(&self) -> Seq<Seq<bool>> {
        self.field@.map_values(|r: Vec<bool>| r@)
    }

    /// The grid holds `rows` rows of `cols` cells, and `rows * cols` fits in a `usize`.
    pub closed spec fn wf(&self) -> bool {
        &&& self.row_size * self.col_size <= usize::MAX
        &&& self.field@.len() == self.row_size
        &&& forall|y: int| 0 <= y < self.row_size ==> (#[trigger] self.field@[y])@.len() == self.col_size
    }

    /// A well-formed automaton has `rows()` rows of `cols()` cells, and `rows() * cols()`
    /// fits in a `usize`.
    pub proof fn lemma_shape(&self)
        requires
            self.wf(),
        ensures
            self.grid().len() == self.rows(),
            is_rectangular(self.grid(), self.cols()),
            self.rows() * self.cols() <= usize::MAX,
    {
        assert forall|y: int| 0 <= y < self.grid().len() implies #[trigger] self.grid()[y].len() == self.cols() by {
            assert(self.grid()[y] == self.field@[y]@);
        }
    }

    /// Reshapes the first `row_size * col_size` cells of a row-major buffer into rows.
    fn create_field(buf: &Vec<bool>, row_size: usize, col_size: usize) -> (r: Vec<Vec<bool>>)
        requires
            buf@.len() >= row_size * col_size,
        ensures
            r@.len() == row_size,
            r@.map_values(|v: Vec<bool>| v@) == reshape(buf@, row_size as nat, col_size as nat),
    {
        let total = buf.len();
        let mut field: Vec<Vec<bool>> = Vec::new();
        let mut i: usize = 0;
        while i < row_size
            invariant
                i <= row_size,
                total == buf@.len(),
                total >= row_size * col_size,
                field@.len() == i,
                forall|y: int| 0 <= y < i ==> (#[trigger] field@[y])@ == reshape(buf@, row_size as nat, col_size as nat)[y],
            decreases row_size - i,
        {
            proof {
                if col_size > 0 {
                    lemma_flat_index(row_size as nat, col_size as nat, i as int, 0);
                } else {
                    assert(i * col_size == 0) by (nonlinear_arith)
                        requires
                            col_size == 0,
                    ;
                }
            }
            let start = i * col_size;
            let end = start + col_size;
            let mut row: Vec<bool> = Vec::new();
            let mut j: usize = start;
            while j < end
                invariant
                    start <= j <= end,
                    end <= buf@.len(),
                    row@ == buf@.subrange(start as int, j as int),
                decreases end - j,
            {
                row.push(buf[j]);
                j = j + 1;
                assert(row@ =~= buf@.subrange(start as int, j as int));
            }
            field.push(row);
            i = i + 1;
        }
        assert(field@.map_values(|v: Vec<bool>| v@) =~= reshape(buf@, row_size as nat, col_size as nat));
        field
    }

    /// Builds an automaton on a `row_size` by `col_size` grid, seeded from the generator
    /// started at 1: cell `i` in row-major order is alive when the `i + 1`-th generated
    /// value is below 6 modulo 10.
    pub fn new(row_size: usize, col_size: usize) -> (r: Game)
        requires
            row_size * col_size <= usize::MAX,
        ensures
            r.wf(),
            r.rows() == row_size,
            r.cols() == col_size,
            r.grid() == reshape(seed_cells((row_size * col_size) as nat), row_size as nat, col_size as nat),
    {
        let mut rand = Rand::new(1);
        let n = row_size * col_size;
        let mut buf: Vec<bool> = Vec::new();
        let mut i: usize = 0;
        while i < n
            invariant
                i <= n,
                rand.state() == lcg_state(1, i as nat),
                buf@ == seed_cells(i as nat),
            decreases n - i,
        {
            let v = rand.rand();
            buf.push(v % 10 < 6);
            i = i + 1;
            assert(buf@ =~= seed_cells(i as nat));
        }
        let field = Game::create_field(&buf, row_size, col_size);
        let r = Game { field, row_size, col_size };
        proof {
            lemma_flatten_reshape(buf@, row_size as nat, col_size as nat);
            assert forall|y: int| 0 <= y < row_size implies (#[trigger] r.field@[y])@.len() == col_size by {
                assert(r.grid()[y] == r.field@[y]@);
            }
        }
        r
    }

    /// Builds an automaton whose current generation is `cells`, read in row-major order;
    /// `None` when `cells` does not hold exactly `row_size * col_size` cells.
    pub fn from_cells(row_size: usize, col_size: usize, cells: &Vec<bool>) -> (r: Option<Game>)
        ensures
            r is None <==> cells@.len() != row_size * col_size,
            r matches Some(g) ==> {
                &&& g.wf()
                &&& g.rows() == row_size
                &&& g.cols() == col_size
                &&& g.grid() == reshape(cells@, row_size as nat, col_size as nat)
            },
    {
        let len = cells.len();
        let n = row_size.checked_mul(col_size);
        match n {
            None => None,
            Some(n) => {
                if len != n {
                    None
                } else {
                    let field = Game::create_field(cells, row_size, col_size);
                    let r = Game { field, row_size, col_size };
                    proof {
                        lemma_flatten_reshape(cells@, row_size as nat, col_size as nat);
                        assert forall|y: int| 0 <= y < row_size implies (#[trigger] r.field@[y])@.len() == col_size by {
                            assert(r.grid()[y] == r.field@[y]@);
                        }
                    }
                    Some(r)
                }
            },
        }
    }

    /// Advances to the next generation and returns it in row-major order: cell `(y, x)`
    /// stands at index `y * cols + x`.
    pub fn next(&mut self) -> (r: Vec<bool>)
        requires
            old(self).wf(),
        ensures
            final(self).wf(),
            final(self).rows() == old(self).rows(),
            final(self).cols() == old(self).cols(),
            final(self).grid() == next_grid(old(self).grid(), old(self).cols()),
            r@.len() == old(self).rows() * old(self).cols(),
            r@ == flatten(next_grid(old(self).grid(), old(self).cols()), old(self).cols()),
    {
        let ghost g = self.grid();
        let ghost cols = self.cols();
        let ghost ng = next_grid(g, cols);
        let mut next: Vec<bool> = Vec::new();
        let mut y: usize = 0;
        while y < self.row_size
            invariant
                self.wf(),
                self.grid() == g,
                self.cols() == cols,
                ng == next_grid(g, cols),
                y <= self.row_size,
                next@.len() == y * cols,
                forall|i: int| 0 <= i < y * cols ==> #[trigger] next@[i] == ng[i / (cols as int)][i % (cols as int)],
            decreases self.row_size - y,
        {
            let row = self.next_row(y);
            let mut x: usize = 0;
            while x < self.col_size
                invariant
                    self.wf(),
                    self.grid() == g,
                    self.cols() == cols,
                    ng == next_grid(g, cols),
                    y < self.row_size,
                    x <= self.col_size,
                    row@ == ng[y as int],
                    next@.len() == y * cols + x,
                    forall|i: int| 0 <= i < y * cols + x ==> #[trigger] next@[i] == ng[i / (cols as int)][i % (cols as int)],
                decreases self.col_size - x,
            {
                proof {
                    lemma_flat_index(self.rows(), cols, y as int, x as int);
                }
                next.push(row[x]);
                x = x + 1;
            }
            assert((y + 1) * cols == y * cols + cols) by (nonlinear_arith);
            y = y + 1;
        }
        assert(next@ =~= flatten(ng, cols));
        let field = Game::create_field(&next, self.row_size, self.col_size);
        proof {
            assert(is_rectangular(ng, cols));
            lemma_reshape_flatten(ng, cols);
        }
        self.field = field;
        proof {
            assert forall|y: int| 0 <= y < self.row_size implies (#[trigger] self.field@[y])@.len() == self.col_size by {
                assert(self.grid()[y] == self.field@[y]@);
            }
        }
        next
    }

    /// The current generation in row-major order.
    pub fn cells(&self) -> (r: Vec<bool>)
        requires
            self.wf(),
        ensures
            r@ == flatten(self.grid(), self.cols()),
    {
        let mut out: Vec<bool> = Vec::new();
        let mut y: usize = 0;
        while y < self.row_size
            invariant
                self.wf(),
                y <= self.row_size,
                out@.len() == y * self.cols(),
                forall|i: int| 0 <= i < y * self.cols() ==> #[trigger] out@[i] == self.grid()[i / (self.cols() as int)][i % (self.cols() as int)],
            decreases self.row_size - y,
        {
            let mut x: usize = 0;
            while x < self.col_size
                invariant
                    self.wf(),
                    y < self.row_size,
                    x <= self.col_size,
                    out@.len() == y * self.cols() + x,
                    forall|i: int| 0 <= i < y * self.cols() + x ==> #[trigger] out@[i] == self.grid()[i / (self.cols() as int)][i % (self.cols() as int)],
                decreases self.col_size - x,
            {
                proof {
                    lemma_flat_index(self.rows(), self.cols(), y as int, x as int);
                }
                let c = self.is_alive(y, x);
                out.push(c);
                x = x + 1;
            }
            assert((y + 1) * self.cols() == y * self.cols() + self.cols()) by (nonlinear_arith);
            y = y + 1;
        }
        assert(out@ =~= flatten(self.grid(), self.cols()));
        out
    }

    pub fn row_size(&self) -> (r: usize)
        ensures
            r == self.rows(),
    {
        self.row_size
    }

    pub fn col_size(&self) -> (r: usize)
        ensures
            r == self.cols(),
    {
        self.col_size
    }

    fn is_alive(&self, y: usize, x: usize) -> (r: bool)
        requires
            self.wf(),
            y < self.rows(),
            x < self.cols(),
        ensures
            r == self.grid()[y as int][x as int],
    {
        self.field[y][x]
    }

    /// State of the cell at `(row, column)`. Every coordinate can be read: one outside the
    /// grid, negative or past the last row or column, reads as dead.
    fn get_cell_state(&self, row: i128, column: i128) -> (r: bool)
        requires
            self.wf(),
        ensures
            r == cell_at(self.grid(), row as int, column as int),
    {
        if row < 0 || column < 0 || row >= self.field.len() as i128 {
            return false;
        }
        let r = &self.field[row as usize];
        if column >= r.len() as i128 {
            return false;
        }
        r[column as usize]
    }

    /// The state of cell `(y, x)` in the next generation.
    fn next_cell(&self, y: usize, x: usize) -> (r: bool)
        requires
            self.wf(),
            y < self.rows(),
            x < self.cols(),
        ensures
            r == next_state(self.grid(), y as int, x as int),
    {
        let y = y as i128;
        let x = x as i128;
        let mut alive_num: u8 = 0;
        if self.get_cell_state(y - 1, x - 1) {
            alive_num = alive_num + 1;
        }
        if self.get_cell_state(y, x - 1) {
            alive_num = alive_num + 1;
        }
        if self.get_cell_state(y + 1, x - 1) {
            alive_num = alive_num + 1;
        }
        if self.get_cell_state(y - 1, x) {
            alive_num = alive_num + 1;
        }
        if self.get_cell_state(y + 1, x) {
            alive_num = alive_num + 1;
        }
        if self.get_cell_state(y - 1, x + 1) {
            alive_num = alive_num + 1;
        }
        if self.get_cell_state(y, x + 1) {
            alive_num = alive_num + 1;
        }
        if self.get_cell_state(y + 1, x + 1) {
            alive_num = alive_num + 1;
        }
        alive_num == 3 || (alive_num == 2 && self.is_alive(y as usize, x as usize))
    }

    /// Row `y` of the next generation.
    fn next_row(&self, y: usize) -> (r: Vec<bool>)
        requires
            self.wf(),
            y < self.rows(),
        ensures
            r@ == next_grid(self.grid(), self.cols())[y as int],
    {
        let mut row: Vec<bool> = Vec::new();
        let mut x: usize = 0;
        while x < self.col_size
            invariant
                self.wf(),
                y < self.rows(),
                x <= self.col_size,
                row@.len() == x,
                forall|i: int| 0 <= i < x ==> #[trigger] row@[i] == next_state(self.grid(), y as int, i),
            decreases self.col_size - x,
        {
            let c = self.next_cell(y, x);
            row.push(c);
            x = x + 1;
        }
        assert(row@ =~= next_grid(self.grid(), self.cols())[y as int]);
        row
    }
}

} // verus!
