use vstd::prelude::*;
use crate::coordinates::{
    cell_at, cell_count, cell_index, cells_before, cells_where, lemma_cell_at_index,
    lemma_cells_before_all, lemma_cells_before_len, lemma_cells_before_step,
    lemma_index_cell_at, lemma_index_in_range, lemma_index_injective, Coordinates,
};
use crate::error::ConfigError;
use crate::sampling::sample_cells;
use crate::tile::Tile;

verus! {

/// 1 where the cell `dx` columns and `dy` rows away from `c` holds a mine,
/// else 0. A step off the grid counts 0, as no mine lies there.
pub open spec fn bomb_toward(bombs: Set<Coordinates>, c: Coordinates, dx: int, dy: int) -> nat {
    if 0 <= c.x + dx <= u16::MAX && 0 <= c.y + dy <= u16::MAX && bombs.contains(
        Coordinates { x: (c.x + dx) as u16, y: (c.y + dy) as u16 },
    ) {
        1
    } else {
        0
    }
}

/// Number of mines on the up to eight cells that touch `c`.
#[verifier::opaque]
pub open spec fn neighbor_count(bombs: Set<Coordinates>, c: Coordinates) -> nat {
    bomb_toward(bombs, c, -1, -1) + bomb_toward(bombs, c, 0, -1) + bomb_toward(bombs, c, 1, -1)
        + bomb_toward(bombs, c, -1, 0) + bomb_toward(bombs, c, 1, 0)
        + bomb_toward(bombs, c, -1, 1) + bomb_toward(bombs, c, 0, 1) + bomb_toward(bombs, c, 1, 1)
}

/// No cell has more than eight mines around it.
pub proof fn lemma_neighbor_count_bound(bombs: Set<Coordinates>, c: Coordinates)
    ensures
        neighbor_count(bombs, c) <= 8,
{
    reveal(neighbor_count);
}

/// Without mines no cell has a mine around it.
pub proof fn lemma_neighbor_count_none(c: Coordinates)
    ensures
        neighbor_count(Set::<Coordinates>::empty(), c) == 0,
{
    reveal(neighbor_count);
}

/// The mines on the cells that touch `c`.
pub open spec fn bombs_around(bombs: Set<Coordinates>, c: Coordinates) -> Set<Coordinates> {
    Set::new(|b: Coordinates| bombs.contains(b) && c.adjacent(b))
}

/// `seen`, and the cell `dx` columns and `dy` rows away from `c` where it
/// holds a mine.
spec fn seen_toward(
    bombs: Set<Coordinates>,
    c: Coordinates,
    dx: int,
    dy: int,
    seen: Set<Coordinates>,
) -> Set<Coordinates> {
    if bomb_toward(bombs, c, dx, dy) == 1 {
        seen.insert(Coordinates { x: (c.x + dx) as u16, y: (c.y + dy) as u16 })
    } else {
        seen
    }
}

/// Looking one way adds one mine to those seen where a mine lies that way.
proof fn lemma_seen_toward(
    bombs: Set<Coordinates>,
    c: Coordinates,
    dx: int,
    dy: int,
    seen: Set<Coordinates>,
)
    requires
        seen.finite(),
        forall|b: Coordinates| seen.contains(b) ==> !(b.x - c.x == dx && b.y - c.y == dy),
    ensures
        seen_toward(bombs, c, dx, dy, seen).finite(),
        seen_toward(bombs, c, dx, dy, seen).len() == seen.len() + bomb_toward(bombs, c, dx, dy),
{
}

/// The count of a cell is the number of mines that touch it.
pub proof fn lemma_neighbor_count_is_cardinality(bombs: Set<Coordinates>, c: Coordinates)
    ensures
        bombs_around(bombs, c).finite(),
        bombs_around(bombs, c).len() == neighbor_count(bombs, c),
{
    reveal(neighbor_count);
    let s0 = Set::<Coordinates>::empty();
    lemma_seen_toward(bombs, c, -1, -1, s0);
    let s1 = seen_toward(bombs, c, -1, -1, s0);
    lemma_seen_toward(bombs, c, 0, -1, s1);
    let s2 = seen_toward(bombs, c, 0, -1, s1);
    lemma_seen_toward(bombs, c, 1, -1, s2);
    let s3 = seen_toward(bombs, c, 1, -1, s2);
    lemma_seen_toward(bombs, c, -1, 0, s3);
    let s4 = seen_toward(bombs, c, -1, 0, s3);
    lemma_seen_toward(bombs, c, 1, 0, s4);
    let s5 = seen_toward(bombs, c, 1, 0, s4);
    lemma_seen_toward(bombs, c, -1, 1, s5);
    let s6 = seen_toward(bombs, c, -1, 1, s5);
    lemma_seen_toward(bombs, c, 0, 1, s6);
    let s7 = seen_toward(bombs, c, 0, 1, s6);
    lemma_seen_toward(bombs, c, 1, 1, s7);
    let s8 = seen_toward(bombs, c, 1, 1, s7);
    assert(s8 =~= bombs_around(bombs, c));
}

/// The tile that a cell shows once the mines are laid.
pub open spec fn tile_for(bombs: Set<Coordinates>, c: Coordinates) -> Tile {
    if bombs.contains(c) {
        Tile::Bomb
    } else if neighbor_count(bombs, c) == 0 {
        Tile::Empty
    } else {
        Tile::BombNeighbor(neighbor_count(bombs, c) as u8)
    }
}

/// The cells of a grid whose mark is set, the marks laid out row after row.
pub open spec fn marked(marks: Seq<bool>, width: int, height: int) -> Set<Coordinates> {
    Set::new(|c: Coordinates| c.within(width, height) && marks[c.index(width)])
}

/// 1 where the cell `dx` columns and `dy` rows away from `c` is marked.
fn mark_toward(
    marks: &Vec<bool>,
    width: u16,
    height: u16,
    c: Coordinates,
    dx: i8,
    dy: i8,
) -> (n: u8)
    requires
        marks.len() == width * height,
        c.within(width as int, height as int),
        -1 <= dx <= 1,
        -1 <= dy <= 1,
    ensures
        n == bomb_toward(marked(marks@, width as int, height as int), c, dx as int, dy as int),
{
    match c.neighbor(dx, dy, width, height) {
        Some(other) => {
            if marks[cell_index(other, width, height)] {
                1
            } else {
                0
            }
        },
        None => 0,
    }
}

/// The tile of a cell, from the marks of the mines.
fn derive_tile(marks: &Vec<bool>, width: u16, height: u16, c: Coordinates) -> (t: Tile)
    requires
        marks.len() == width * height,
        c.within(width as int, height as int),
    ensures
        t == tile_for(marked(marks@, width as int, height as int), c),
{
    if marks[cell_index(c, width, height)] {
        return Tile::Bomb;
    }
    reveal(neighbor_count);
    let count: u8 = mark_toward(marks, width, height, c, -1, -1)
        + mark_toward(marks, width, height, c, 0, -1)
        + mark_toward(marks, width, height, c, 1, -1)
        + mark_toward(marks, width, height, c, -1, 0)
        + mark_toward(marks, width, height, c, 1, 0)
        + mark_toward(marks, width, height, c, -1, 1)
        + mark_toward(marks, width, height, c, 0, 1)
        + mark_toward(marks, width, height, c, 1, 1);
    if count == 0 {
        Tile::Empty
    } else {
        Tile::BombNeighbor(count)
    }
}

/// Whether every listed cell lies on the grid.
fn all_within(cells: &Vec<Coordinates>, width: u16, height: u16) -> (ok: bool)
    ensures
        ok == forall|i: int|
            0 <= i < cells@.len() ==> (#[trigger] cells@[i]).within(width as int, height as int),
{
    let mut k: usize = 0;
    while k < cells.len()
        invariant
            k <= cells.len(),
            forall|i: int|
                0 <= i < k ==> (#[trigger] cells@[i]).within(width as int, height as int),
        decreases cells.len() - k,
    {
        if cells[k].x >= width || cells[k].y >= height {
            return false;
        }
        k += 1;
    }
    true
}

/// One mark for each cell of the grid, set for the listed cells.
fn mark_cells(cells: &Vec<Coordinates>, width: u16, height: u16) -> (marks: Vec<bool>)
    requires
        forall|i: int|
            0 <= i < cells@.len() ==> (#[trigger] cells@[i]).within(width as int, height as int),
    ensures
        marks@.len() == width * height,
        marked(marks@, width as int, height as int) == cells@.to_set(),
{
    let n: usize = cell_count(width, height) as usize;
    let mut marks: Vec<bool> = Vec::new();
    while marks.len() < n
        invariant
            marks.len() <= n,
            forall|i: int| 0 <= i < marks.len() ==> !marks[i],
        decreases n - marks.len(),
    {
        marks.push(false);
    }
    let mut k: usize = 0;
    while k < cells.len()
        invariant
            k <= cells.len(),
            marks.len() == n,
            n == width * height,
            forall|i: int|
                0 <= i < cells@.len() ==> (#[trigger] cells@[i]).within(
                    width as int,
                    height as int,
                ),
            forall|i: int|
                0 <= i < n ==> (#[trigger] marks[i] <==> exists|j: int|
                    0 <= j < k && (#[trigger] cells@[j]).index(width as int) == i),
        decreases cells.len() - k,
    {
        let i = cell_index(cells[k], width, height);
        marks[i] = true;
        k += 1;
    }
    proof {
        assert forall|c: Coordinates|
            marked(marks@, width as int, height as int).contains(c) == cells@.to_set().contains(
                c,
            ) by {
            if c.within(width as int, height as int) {
                lemma_index_in_range(c, width as int, height as int);
                if marks[c.index(width as int)] {
                    let j = choose|j: int|
                        0 <= j < k && (#[trigger] cells@[j]).index(width as int) == c.index(
                            width as int,
                        );
                    lemma_index_injective(cells@[j], c, width as int);
                    assert(cells@.contains(c));
                }
                if cells@.contains(c) {
                    let j = choose|j: int| 0 <= j < cells@.len() && cells@[j] == c;
                    assert(cells@[j].index(width as int) == c.index(width as int));
                }
            } else {
                if cells@.contains(c) {
                    let j = choose|j: int| 0 <= j < cells@.len() && cells@[j] == c;
                    assert(cells@[j].within(width as int, height as int));
                }
            }
        }
        assert(marked(marks@, width as int, height as int) =~= cells@.to_set());
    }
    marks
}

/// The tiles of the whole grid, row after row, from the marks of the mines.
fn derive_tiles(marks: &Vec<bool>, width: u16, height: u16) -> (tiles: Vec<Tile>)
    requires
        width > 0,
        marks@.len() == width * height,
    ensures
        tiles@.len() == width * height,
        forall|i: int|
            0 <= i < tiles@.len() ==> #[trigger] tiles@[i] == tile_for(
                marked(marks@, width as int, height as int),
                cell_at(i, width as int),
            ),
{
    let ghost laid = marked(marks@, width as int, height as int);
    let mut tiles: Vec<Tile> = Vec::new();
    let mut y: u16 = 0;
    while y < height
        invariant
            y <= height,
            width > 0,
            marks@.len() == width * height,
            laid == marked(marks@, width as int, height as int),
            tiles@.len() == y * width,
            forall|i: int|
                0 <= i < tiles@.len() ==> #[trigger] tiles@[i] == tile_for(
                    laid,
                    cell_at(i, width as int),
                ),
        decreases height - y,
    {
        let mut x: u16 = 0;
        while x < width
            invariant
                y < height,
                x <= width,
                marks@.len() == width * height,
                laid == marked(marks@, width as int, height as int),
                tiles@.len() == y * width + x,
                forall|i: int|
                    0 <= i < tiles@.len() ==> #[trigger] tiles@[i] == tile_for(
                        laid,
                        cell_at(i, width as int),
                    ),
            decreases width - x,
        {
            let c = Coordinates { x, y };
            let t = derive_tile(marks, width, height, c);
            proof {
                lemma_cell_at_index(c, width as int);
            }
            tiles.push(t);
            x += 1;
        }
        assert((y + 1) * width == y * width + width) by (nonlinear_arith);
        y += 1;
    }
    assert(height * width == width * height) by (nonlinear_arith);
    tiles
}

/// The ground truth of a whole grid: which cells hold a mine, and for every
/// other cell how many of its neighbours do.
pub struct TileMap {
    width: u16,
    height: u16,
    cells: Vec<Tile>,
}

impl TileMap {
    /// Number of columns.
    pub closed spec fn spec_width(&self) -> u16 {
        self.width
    }

    /// Number of rows.
    pub closed spec fn spec_height(&self) -> u16 {
        self.height
    }

    /// The tile of a cell of the grid.
    pub closed spec fn tile_at(&self, c: Coordinates) -> Tile {
        self.cells@[c.index(self.width as int)]
    }

    /// The grid has a column and a row, and one tile for each cell.
    pub closed spec fn inv(&self) -> bool {
        &&& self.width > 0
        &&& self.height > 0
        &&& self.cells@.len() == self.width * self.height
    }

    /// The address lies on the grid.
    pub open spec fn contains(&self, c: Coordinates) -> bool {
        c.within(self.spec_width() as int, self.spec_height() as int)
    }

    /// The cells that hold a mine.
    pub open spec fn bombs(&self) -> Set<Coordinates> {
        Set::new(|c: Coordinates| self.contains(c) && self.tile_at(c) is Bomb)
    }

    /// Number of mines on the cells that touch `c`.
    pub open spec fn bomb_neighbors(&self, c: Coordinates) -> nat {
        neighbor_count(self.bombs(), c)
    }

    /// Every tile is the one that the mines give its cell.
    pub open spec fn consistent(&self) -> bool {
        forall|c: Coordinates|
            self.contains(c) ==> #[trigger] self.tile_at(c) == tile_for(self.bombs(), c)
    }

    /// `found` is the first empty cell in reading order, row by row from
    /// the first row and in each row from the first column; or nothing,
    /// and the map has no empty cell.
    pub open spec fn is_first_empty(&self, found: Option<Coordinates>) -> bool {
        match found {
            Some(c) => {
                &&& self.contains(c)
                &&& self.tile_at(c) == Tile::Empty
                &&& forall|d: Coordinates|
                    self.contains(d) && #[trigger] self.tile_at(d) == Tile::Empty ==> c.index(
                        self.spec_width() as int,
                    ) <= d.index(self.spec_width() as int)
            },
            None => forall|d: Coordinates|
                self.contains(d) ==> #[trigger] self.tile_at(d) != Tile::Empty,
        }
    }

    /// The map is well formed.
    pub open spec fn wf(&self) -> bool {
        &&& self.inv()
        &&& self.spec_width() > 0
        &&& self.spec_height() > 0
        &&& self.consistent()
    }

    /// Every tile of a well-formed map tells the truth about its cell: a
    /// numbered tile carries the number of mines that touch the cell, which
    /// is between one and eight, and the cell holds no mine itself; an empty
    /// tile has no mine on or around its cell; and the mines are exactly the
    /// cells that show one.
    pub proof fn lemma_tiles_tell_the_truth(&self, c: Coordinates)
        requires
            self.wf(),
            self.contains(c),
        ensures
            bombs_around(self.bombs(), c).finite(),
            self.tile_at(c) matches Tile::BombNeighbor(n) ==> n == bombs_around(
                self.bombs(),
                c,
            ).len() && 1 <= n <= 8 && !self.bombs().contains(c),
            self.tile_at(c) is Empty ==> bombs_around(self.bombs(), c).len() == 0
                && !self.bombs().contains(c),
            self.tile_at(c) is Bomb <==> self.bombs().contains(c),
            self.tile_at(c) == tile_for(self.bombs(), c),
    {
        lemma_neighbor_count_is_cardinality(self.bombs(), c);
        lemma_neighbor_count_bound(self.bombs(), c);
    }

    /// No mine touches an empty cell of a well-formed map.
    pub proof fn lemma_empty_cell_is_clear(&self, c: Coordinates, n: Coordinates)
        requires
            self.wf(),
            self.contains(c),
            self.tile_at(c) is Empty,
            c.adjacent(n),
        ensures
            !self.bombs().contains(n),
    {
        self.lemma_tiles_tell_the_truth(c);
        if self.bombs().contains(n) {
            assert(bombs_around(self.bombs(), c).contains(n));
        }
    }

    /// Number of columns.
    #[verifier::when_used_as_spec(spec_width)]
    pub fn width(&self) -> (w: u16)
        ensures
            w == self.spec_width(),
    {
        self.width
    }

    /// Number of rows.
    #[verifier::when_used_as_spec(spec_height)]
    pub fn height(&self) -> (h: u16)
        ensures
            h == self.spec_height(),
    {
        self.height
    }

    /// A map without mines: every tile is empty. A grid without a column or
    /// without a row is refused.
    pub fn empty(width: u16, height: u16) -> (r: Result<TileMap, ConfigError>)
        ensures
            (width == 0 || height == 0) ==> r == Err::<TileMap, ConfigError>(
                ConfigError::EmptyGrid,
            ),
            (width > 0 && height > 0) ==> r is Ok,
            r matches Ok(map) ==> {
                &&& map.wf()
                &&& map.width() == width
                &&& map.height() == height
                &&& map.bombs() == Set::<Coordinates>::empty()
                &&& forall|c: Coordinates| map.contains(c) ==> map.tile_at(c) == Tile::Empty
            },
    {
        if width == 0 || height == 0 {
            return Err(ConfigError::EmptyGrid);
        }
        let n: usize = cell_count(width, height) as usize;
        let mut cells: Vec<Tile> = Vec::new();
        while cells.len() < n
            invariant
                cells.len() <= n,
                forall|i: int| 0 <= i < cells.len() ==> cells[i] == Tile::Empty,
            decreases n - cells.len(),
        {
            cells.push(Tile::Empty);
        }
        let map = TileMap { width, height, cells };
        proof {
            assert forall|c: Coordinates| map.contains(c) implies #[trigger] map.tile_at(c)
                == Tile::Empty by {
                lemma_index_in_range(c, width as int, height as int);
            }
            assert(map.bombs() =~= Set::<Coordinates>::empty());
            assert forall|c: Coordinates| map.contains(c) implies #[trigger] map.tile_at(c)
                == tile_for(map.bombs(), c) by {
                lemma_neighbor_count_none(c);
            }
        }
        Ok(map)
    }

    /// The tile of a cell, or nothing where the address is off the grid.
    pub fn get(&self, c: Coordinates) -> (t: Option<Tile>)
        requires
            self.wf(),
        ensures
            t == if self.contains(c) {
                Some(self.tile_at(c))
            } else {
                None
            },
    {
        if c.x < self.width && c.y < self.height {
            Some(self.cells[cell_index(c, self.width, self.height)])
        } else {
            None
        }
    }

    /// Whether a cell holds a mine. No mine lies off the grid.
    pub fn is_bomb_at(&self, c: Coordinates) -> (b: bool)
        requires
            self.wf(),
        ensures
            b == self.bombs().contains(c),
    {
        match self.get(c) {
            Some(t) => t.is_bomb(),
            None => false,
        }
    }

    /// Number of mines that touch a free cell of the grid; 0 for a cell that
    /// holds a mine itself and for an address off the grid.
    pub fn bomb_count_at(&self, c: Coordinates) -> (n: u8)
        requires
            self.wf(),
        ensures
            n == if self.contains(c) && !self.bombs().contains(c) {
                self.bomb_neighbors(c)
            } else {
                0
            },
            n <= 8,
    {
        proof {
            lemma_neighbor_count_bound(self.bombs(), c);
        }
        match self.get(c) {
            Some(Tile::BombNeighbor(n)) => n,
            _ => 0,
        }
    }

    /// Lays mines on exactly the given cells and derives every other tile
    /// from them; mines that lay elsewhere before are cleared. Naming a cell
    /// twice lays one mine. A cell off the grid is refused and the map stays
    /// as it was.
    pub fn place_bombs(&mut self, cells: &Vec<Coordinates>) -> (r: Result<(), ConfigError>)
        requires
            old(self).wf(),
        ensures
            final(self).wf(),
            final(self).width() == old(self).width(),
            final(self).height() == old(self).height(),
            (exists|i: int| 0 <= i < cells@.len() && !old(self).contains(#[trigger] cells@[i]))
                ==> r == Err::<(), ConfigError>(ConfigError::OutsideGrid)
                && *final(self) == *old(self),
            (forall|i: int| 0 <= i < cells@.len() ==> old(self).contains(#[trigger] cells@[i]))
                ==> r is Ok && final(self).bombs() == cells@.to_set(),
    {
        let width = self.width;
        let height = self.height;
        if !all_within(cells, width, height) {
            return Err(ConfigError::OutsideGrid);
        }
        let marks = mark_cells(cells, width, height);
        let tiles = derive_tiles(&marks, width, height);
        self.cells = tiles;
        proof {
            let laid = cells@.to_set();
            assert forall|c: Coordinates| self.contains(c) implies #[trigger] self.tile_at(c)
                == tile_for(laid, c) by {
                lemma_index_in_range(c, width as int, height as int);
                lemma_cell_at_index(c, width as int);
            }
            assert forall|c: Coordinates| self.bombs().contains(c) == laid.contains(c) by {
                if laid.contains(c) {
                    assert(marked(marks@, width as int, height as int).contains(c));
                }
                if self.contains(c) {
                    assert(self.tile_at(c) == tile_for(laid, c));
                }
            }
            assert(self.bombs() =~= laid);
        }
        Ok(())
    }

    /// Lays `count` mines on cells drawn at random, each cell of the grid as
    /// likely as any other and none drawn twice, and derives every other
    /// tile; mines that lay before are cleared. More mines than cells are
    /// refused and the map stays as it was.
    pub fn set_bombs(&mut self, count: u32) -> (r: Result<(), ConfigError>)
        requires
            old(self).wf(),
        ensures
            final(self).wf(),
            final(self).width() == old(self).width(),
            final(self).height() == old(self).height(),
            count > old(self).width() * old(self).height() ==> r == Err::<(), ConfigError>(
                ConfigError::TooManyBombs,
            ) && *final(self) == *old(self),
            count <= old(self).width() * old(self).height() ==> r is Ok
                && final(self).bombs().finite() && final(self).bombs().len() == count,
    {
        if count > cell_count(self.width, self.height) {
            return Err(ConfigError::TooManyBombs);
        }
        let cells = sample_cells(self.width, self.height, count);
        proof {
            cells@.unique_seq_to_set();
            vstd::seq_lib::seq_to_set_is_finite(cells@);
        }
        self.place_bombs(&cells)
    }

    /// Number of mines on the map.
    pub fn bomb_count(&self) -> (n: u32)
        requires
            self.wf(),
        ensures
            self.bombs().finite(),
            n == self.bombs().len(),
    {
        let width = self.width;
        let height = self.height;
        let ghost is_bomb = |c: Coordinates| self.tile_at(c) is Bomb;
        let total: usize = cell_count(width, height) as usize;
        let mut n: u32 = 0;
        let mut i: usize = 0;
        proof {
            lemma_cells_before_len(width as int, height as int, 0, is_bomb);
        }
        while i < total
            invariant
                i <= total,
                total == width * height,
                total == self.cells@.len(),
                width == self.width,
                width > 0,
                is_bomb == |c: Coordinates| self.tile_at(c) is Bomb,
                cells_before(width as int, height as int, i as int, is_bomb).finite(),
                n == cells_before(width as int, height as int, i as int, is_bomb).len(),
                n <= i,
                total <= u32::MAX,
            decreases total - i,
        {
            proof {
                lemma_cells_before_step(width as int, height as int, i as int, is_bomb);
                lemma_index_cell_at(i as int, width as int, height as int);
            }
            if self.cells[i].is_bomb() {
                n += 1;
            }
            i += 1;
        }
        proof {
            lemma_cells_before_all(width as int, height as int, is_bomb);
            assert(cells_where(width as int, height as int, is_bomb) =~= self.bombs());
        }
        n
    }

    /// The first empty cell in reading order, row by row from the first row
    /// and in each row from the first column, if the map has an empty cell.
    pub fn first_empty(&self) -> (found: Option<Coordinates>)
        requires
            self.wf(),
        ensures
            self.is_first_empty(found),
    {
        let width = self.width;
        let height = self.height;
        let total: usize = cell_count(width, height) as usize;
        let mut i: usize = 0;
        while i < total
            invariant
                i <= total,
                total == width * height,
                total == self.cells@.len(),
                width == self.width,
                height == self.height,
                width > 0,
                forall|j: int| 0 <= j < i ==> self.cells@[j] != Tile::Empty,
            decreases total - i,
        {
            if self.cells[i] == Tile::Empty {
                proof {
                    lemma_index_cell_at(i as int, width as int, height as int);
                    assert forall|d: Coordinates|
                        self.contains(d) && #[trigger] self.tile_at(d) == Tile::Empty implies i
                        <= d.index(width as int) by {
                        lemma_index_in_range(d, width as int, height as int);
                    }
                }
                let w: usize = width as usize;
                return Some(Coordinates { x: (i % w) as u16, y: (i / w) as u16 });
            }
            i += 1;
        }
        proof {
            assert forall|d: Coordinates| self.contains(d) implies #[trigger] self.tile_at(d)
                != Tile::Empty by {
                lemma_index_in_range(d, width as int, height as int);
            }
        }
        None
    }
}

} // verus!
