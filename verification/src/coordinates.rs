use vstd::prelude::*;
use vstd::arithmetic::div_mod::lemma_fundamental_div_mod_converse;

verus! {

/// Zero-based address of one cell of a grid: column `x`, row `y`.
#[derive(Debug, Clone, Copy, PartialEq, Eq, Structural, Hash, PartialOrd, Ord)]
pub struct Coordinates {
    pub x: u16,
    pub y: u16,
}

impl Coordinates {
    /// The address lies on a grid of `width` columns and `height` rows.
    pub open spec fn within(self, width: int, height: int) -> bool {
        self.x < width && self.y < height
    }

    /// Position of the cell when the grid is laid out row after row.
    pub open spec fn index(self, width: int) -> int {
        self.y * width + self.x
    }

    /// The two cells differ and touch by a side or by a corner.
    pub open spec fn adjacent(self, other: Coordinates) -> bool {
        &&& self != other
        &&& -1 <= self.x - other.x <= 1
        &&& -1 <= self.y - other.y <= 1
    }

    /// The cell reached from this one by `dx` columns and `dy` rows, where
    /// that cell lies on a grid of the given dimensions.
    pub open spec fn shifted(
        self,
        dx: int,
        dy: int,
        width: int,
        height: int,
    ) -> Option<Coordinates> {
        if 0 <= self.x + dx < width && 0 <= self.y + dy < height && self.x + dx <= u16::MAX
            && self.y + dy <= u16::MAX {
            Some(Coordinates { x: (self.x + dx) as u16, y: (self.y + dy) as u16 })
        } else {
            None
        }
    }

    /// Steps by `dx` columns and `dy` rows, each of -1, 0 or 1, and gives the
    /// cell reached unless the step leaves the grid.
    pub fn neighbor(self, dx: i8, dy: i8, width: u16, height: u16) -> (n: Option<Coordinates>)
        requires
            -1 <= dx <= 1,
            -1 <= dy <= 1,
        ensures
            n == self.shifted(dx as int, dy as int, width as int, height as int),
    {
        let x: i32 = self.x as i32 + dx as i32;
        let y: i32 = self.y as i32 + dy as i32;
        if 0 <= x && x < width as i32 && 0 <= y && y < height as i32 {
            Some(Coordinates { x: x as u16, y: y as u16 })
        } else {
            None
        }
    }
}

/// The cell at position `i` of a grid of `width` columns laid out row after row.
pub open spec fn cell_at(i: int, width: int) -> Coordinates {
    Coordinates { x: (i % width) as u16, y: (i / width) as u16 }
}

/// Number of cells of a grid, as a machine integer.
pub fn cell_count(width: u16, height: u16) -> (n: u32)
    ensures
        n == width * height,
{
    assert(width * height <= 65535 * 65535) by (nonlinear_arith)
        requires
            0 <= width <= 65535,
            0 <= height <= 65535,
    ;
    (width as u32) * (height as u32)
}

/// Position of a cell of the grid in row-major order, as a machine integer.
pub fn cell_index(c: Coordinates, width: u16, height: u16) -> (i: usize)
    requires
        c.within(width as int, height as int),
    ensures
        i == c.index(width as int),
        i < width * height,
{
    proof {
        lemma_index_in_range(c, width as int, height as int);
    }
    assert(width * height <= 65535 * 65535) by (nonlinear_arith)
        requires
            0 <= width <= 65535,
            0 <= height <= 65535,
    ;
    assert(c.y * width <= width * height) by (nonlinear_arith)
        requires
            0 <= c.y < height,
            0 <= width,
    ;
    let row: u32 = (c.y as u32) * (width as u32);
    (row + c.x as u32) as usize
}

/// A cell of the grid has a position below the number of cells.
pub proof fn lemma_index_in_range(c: Coordinates, width: int, height: int)
    requires
        c.within(width, height),
    ensures
        0 <= c.index(width) < width * height,
{
    assert(c.y * width + width <= width * height) by (nonlinear_arith)
        requires
            0 <= c.y < height,
            0 <= width,
    ;
    assert(0 <= c.y * width) by (nonlinear_arith)
        requires
            0 <= c.y,
            0 <= width,
    ;
}

/// The cell at the position of `c` is `c`.
pub proof fn lemma_cell_at_index(c: Coordinates, width: int)
    requires
        c.x < width,
    ensures
        cell_at(c.index(width), width) == c,
{
    lemma_fundamental_div_mod_converse(c.index(width), width, c.y as int, c.x as int);
}

/// The cell at a position below the number of cells lies on the grid, at
/// that position.
pub proof fn lemma_index_cell_at(i: int, width: int, height: int)
    requires
        0 < width <= u16::MAX,
        0 <= height <= u16::MAX,
        0 <= i < width * height,
    ensures
        cell_at(i, width).within(width, height),
        cell_at(i, width).index(width) == i,
{
    let q = i / width;
    let r = i % width;
    vstd::arithmetic::div_mod::lemma_fundamental_div_mod(i, width);
    vstd::arithmetic::div_mod::lemma_mod_bound(i, width);
    assert(0 <= r < width);
    assert(i == width * q + r);
    assert(0 <= q < height) by (nonlinear_arith)
        requires
            i == width * q + r,
            0 <= r < width,
            0 <= i < width * height,
            0 < width,
    ;
    assert(width * q == q * width) by (nonlinear_arith);
}

/// Two cells of one grid at the same position are the same cell.
pub proof fn lemma_index_injective(a: Coordinates, b: Coordinates, width: int)
    requires
        a.x < width,
        b.x < width,
        a.index(width) == b.index(width),
    ensures
        a == b,
{
    lemma_cell_at_index(a, width);
    lemma_cell_at_index(b, width);
}

/// The cells of the grid that satisfy `p` and whose position is below `k`.
pub open spec fn cells_before(
    width: int,
    height: int,
    k: int,
    p: spec_fn(Coordinates) -> bool,
) -> Set<Coordinates> {
    Set::new(|c: Coordinates| c.within(width, height) && c.index(width) < k && p(c))
}

/// The cells of the grid that satisfy `p`.
pub open spec fn cells_where(
    width: int,
    height: int,
    p: spec_fn(Coordinates) -> bool,
) -> Set<Coordinates> {
    Set::new(|c: Coordinates| c.within(width, height) && p(c))
}

/// Raising the bound by one adds the cell at the old bound where it
/// satisfies `p`, and nothing else.
pub proof fn lemma_cells_before_step(
    width: int,
    height: int,
    k: int,
    p: spec_fn(Coordinates) -> bool,
)
    requires
        0 < width <= u16::MAX,
        0 <= height <= u16::MAX,
        0 <= k < width * height,
    ensures
        !cells_before(width, height, k, p).contains(cell_at(k, width)),
        cells_before(width, height, k + 1, p) == if p(cell_at(k, width)) {
            cells_before(width, height, k, p).insert(cell_at(k, width))
        } else {
            cells_before(width, height, k, p)
        },
{
    lemma_index_cell_at(k, width, height);
    let here = cell_at(k, width);
    let next = cells_before(width, height, k + 1, p);
    let expected = if p(here) {
        cells_before(width, height, k, p).insert(here)
    } else {
        cells_before(width, height, k, p)
    };
    assert forall|c: Coordinates| next.contains(c) == expected.contains(c) by {
        if c.within(width, height) && c.index(width) == k {
            lemma_index_injective(c, here, width);
        }
    }
    assert(next =~= expected);
}

/// The cells below a bound are finitely many, and no more than the bound.
pub proof fn lemma_cells_before_len(
    width: int,
    height: int,
    k: int,
    p: spec_fn(Coordinates) -> bool,
)
    requires
        0 < width <= u16::MAX,
        0 <= height <= u16::MAX,
        0 <= k <= width * height,
    ensures
        cells_before(width, height, k, p).finite(),
        cells_before(width, height, k, p).len() <= k,
    decreases k,
{
    if k == 0 {
        assert forall|c: Coordinates| !cells_before(width, height, 0, p).contains(c) by {
            if c.within(width, height) {
                lemma_index_in_range(c, width, height);
            }
        }
        assert(cells_before(width, height, 0, p) =~= Set::<Coordinates>::empty());
    } else {
        lemma_cells_before_len(width, height, k - 1, p);
        lemma_cells_before_step(width, height, k - 1, p);
    }
}

/// Once the bound is the number of cells, every cell that satisfies `p` is
/// below it.
pub proof fn lemma_cells_before_all(width: int, height: int, p: spec_fn(Coordinates) -> bool)
    requires
        0 < width <= u16::MAX,
        0 <= height <= u16::MAX,
    ensures
        cells_before(width, height, width * height, p) == cells_where(width, height, p),
        cells_where(width, height, p).finite(),
        cells_where(width, height, p).len() <= width * height,
{
    assert(0 <= width * height) by (nonlinear_arith)
        requires
            0 <= width,
            0 <= height,
    ;
    assert forall|c: Coordinates|
        cells_before(width, height, width * height, p).contains(c) == cells_where(
            width,
            height,
            p,
        ).contains(c) by {
        if c.within(width, height) {
            lemma_index_in_range(c, width, height);
        }
    }
    assert(cells_before(width, height, width * height, p) =~= cells_where(width, height, p));
    lemma_cells_before_len(width, height, width * height, p);
}

/// Pairwise distinct cells of one grid are no more than the grid has cells.
pub proof fn lemma_distinct_cells_bounded(cells: Seq<Coordinates>, width: int, height: int)
    requires
        0 < width <= u16::MAX,
        0 <= height <= u16::MAX,
        cells.no_duplicates(),
        forall|i: int| 0 <= i < cells.len() ==> (#[trigger] cells[i]).within(width, height),
    ensures
        cells.len() <= width * height,
{
    let all = cells_where(width, height, |c: Coordinates| true);
    lemma_cells_before_all(width, height, |c: Coordinates| true);
    cells.unique_seq_to_set();
    assert(cells.to_set().subset_of(all));
    vstd::set_lib::lemma_len_subset(cells.to_set(), all);
}

} // verus!
