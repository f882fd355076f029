use vstd::prelude::*;
use crate::bounds::{Bounds2, Extent, Point};
use crate::coordinates::{
    cell_count, cell_index, cells_before, cells_where, lemma_cells_before_all,
    lemma_cells_before_len, lemma_cells_before_step, lemma_index_cell_at, lemma_index_in_range,
    lemma_index_injective, Coordinates,
};
use crate::error::ConfigError;
use crate::options::{board_extent, least, spec_board_extent, BoardOptions};
use crate::tile_map::TileMap;

verus! {

/// Token by which the host finds the visual that it made for something on
/// the board. The board keeps and returns handles and never looks into one.
#[derive(Debug, Clone, Copy, PartialEq, Eq, Structural, Hash)]
pub struct Handle(pub u64);

/// The covers of a grid as a mapping: the covered cells, each with the
/// handle of its cover. `slots` holds one entry for each cell, row after row.
pub open spec fn covered_map(width: int, height: int, slots: Seq<Option<Handle>>) -> Map<
    Coordinates,
    Handle,
> {
    Map::new(
        |c: Coordinates| c.within(width, height) && slots[c.index(width)] is Some,
        |c: Coordinates| slots[c.index(width)]->0,
    )
}

/// Emptying the slot of a cell removes the cell from the mapping and leaves
/// every other entry as it was.
pub proof fn lemma_uncover_slot(
    width: int,
    height: int,
    slots: Seq<Option<Handle>>,
    c: Coordinates,
)
    requires
        c.within(width, height),
        slots.len() == width * height,
    ensures
        covered_map(width, height, slots.update(c.index(width), None)) == covered_map(
            width,
            height,
            slots,
        ).remove(c),
{
    lemma_index_in_range(c, width, height);
    let after = covered_map(width, height, slots.update(c.index(width), None));
    let expected = covered_map(width, height, slots).remove(c);
    assert forall|d: Coordinates| after.contains_key(d) == expected.contains_key(d) by {
        if d.within(width, height) {
            lemma_index_in_range(d, width, height);
            if d.index(width) == c.index(width) {
                lemma_index_injective(c, d, width);
            }
        }
    }
    assert forall|d: Coordinates| after.contains_key(d) implies after[d] == expected[d] by {
        lemma_index_in_range(d, width, height);
    }
    assert(after =~= expected);
}

/// A game in play: the mines, the place of the board in the world, and the
/// cells that are still covered.
pub struct Board {
    pub(crate) tile_map: TileMap,
    pub(crate) bounds: Bounds2,
    pub(crate) tile_size: u32,
    pub(crate) covered: Vec<Option<Handle>>,
    pub(crate) root: Handle,
}

/// A board fresh from generation.
pub struct Generation {
    /// The board, every cell covered.
    pub board: Board,
    /// The cell to uncover before the first move, where a safe start is
    /// asked for and the map has an empty cell.
    pub safe_start: Option<Coordinates>,
}

impl Board {
    /// The ground truth of the board.
    pub open(crate) spec fn spec_tile_map(&self) -> &TileMap {
        &self.tile_map
    }

    /// The rectangle that the board takes in the world.
    pub open(crate) spec fn spec_bounds(&self) -> Bounds2 {
        self.bounds
    }

    /// Side of one tile, in world units.
    pub open(crate) spec fn spec_tile_size(&self) -> u32 {
        self.tile_size
    }

    /// Handle of the visual that stands for the whole board.
    pub open(crate) spec fn spec_root_handle(&self) -> Handle {
        self.root
    }

    /// The covered cells, each with the handle of its cover. A cell is
    /// covered exactly while it has an entry here.
    pub open(crate) spec fn covered(&self) -> Map<Coordinates, Handle> {
        covered_map(
            self.tile_map.spec_width() as int,
            self.tile_map.spec_height() as int,
            self.covered@,
        )
    }

    /// There is one slot for each cell.
    pub open(crate) spec fn inv(&self) -> bool {
        self.covered@.len() == self.tile_map.spec_width() * self.tile_map.spec_height()
    }

    /// The board is well formed: its map is, its tiles have a size, its
    /// bounds are those of the grid at that size, and only cells of the grid
    /// are covered.
    pub open spec fn wf(&self) -> bool {
        &&& self.inv()
        &&& self.spec_tile_map().wf()
        &&& self.spec_tile_size() > 0
        &&& self.spec_bounds().size == spec_board_extent(
            self.spec_tile_map().spec_width(),
            self.spec_tile_map().spec_height(),
            self.spec_tile_size(),
        )
        &&& forall|c: Coordinates| #[trigger]
            self.covered().contains_key(c) ==> self.spec_tile_map().contains(c)
    }

    /// The covered cells that hold no mine.
    pub open spec fn covered_safe(&self) -> Set<Coordinates> {
        Set::new(
            |c: Coordinates|
                self.covered().contains_key(c) && !(self.spec_tile_map().tile_at(c) is Bomb),
        )
    }

    /// The cell under a point of the world: none for a point off the board;
    /// else the column and the row that the point falls into, the topmost
    /// and rightmost border counting to the last row and column.
    pub open spec fn coordinate_of(&self, point: Point) -> Option<Coordinates> {
        match self.spec_bounds().spec_relative_position(point) {
            None => None,
            Some(offset) => Some(
                Coordinates {
                    x: least(
                        offset.x as int / self.spec_tile_size() as int,
                        self.spec_tile_map().spec_width() - 1,
                    ) as u16,
                    y: least(
                        offset.y as int / self.spec_tile_size() as int,
                        self.spec_tile_map().spec_height() - 1,
                    ) as u16,
                },
            ),
        }
    }

    /// A point off the board has no cell under it.
    pub proof fn lemma_outside_has_no_coordinate(&self, point: Point)
        requires
            !self.spec_bounds().spec_contains(point),
        ensures
            self.coordinate_of(point) is None,
    {
    }

    /// The cell under the bottom-left corner of the board is the first cell
    /// of the first row.
    pub proof fn lemma_anchor_is_origin(&self)
        requires
            self.wf(),
        ensures
            self.coordinate_of(self.spec_bounds().position) == Some(Coordinates { x: 0, y: 0 }),
    {
    }

    /// The cell under the top-right corner of the board, which belongs to
    /// the board, is the last cell of the last row.
    pub proof fn lemma_far_corner_is_last_cell(&self, corner: Point)
        requires
            self.wf(),
            corner.x == self.spec_bounds().position.x + self.spec_bounds().size.x,
            corner.y == self.spec_bounds().position.y + self.spec_bounds().size.y,
        ensures
            self.coordinate_of(corner) == Some(
                Coordinates {
                    x: (self.spec_tile_map().spec_width() - 1) as u16,
                    y: (self.spec_tile_map().spec_height() - 1) as u16,
                },
            ),
    {
        let size = self.spec_tile_size() as int;
        let width = self.spec_tile_map().spec_width() as int;
        let height = self.spec_tile_map().spec_height() as int;
        assert(width * size <= 0xffff * 0xffff_ffff) by (nonlinear_arith)
            requires
                0 <= width <= 0xffff,
                0 <= size <= 0xffff_ffff,
        ;
        assert(height * size <= 0xffff * 0xffff_ffff) by (nonlinear_arith)
            requires
                0 <= height <= 0xffff,
                0 <= size <= 0xffff_ffff,
        ;
        assert((width * size) / size == width) by (nonlinear_arith)
            requires
                size > 0,
        ;
        assert((height * size) / size == height) by (nonlinear_arith)
            requires
                size > 0,
        ;
    }

    /// The covered cells without a mine are finitely many, and none is left
    /// exactly when every cell without a mine is uncovered.
    pub proof fn lemma_none_left_means_won(&self)
        requires
            self.wf(),
        ensures
            self.covered_safe().finite(),
            self.covered_safe().len() == 0 <==> forall|c: Coordinates|
                self.spec_tile_map().contains(c) && !(self.spec_tile_map().tile_at(c) is Bomb)
                    ==> !self.covered().contains_key(c),
    {
        let width = self.spec_tile_map().spec_width() as int;
        let height = self.spec_tile_map().spec_height() as int;
        let safe = |c: Coordinates|
            self.covered().contains_key(c) && !(self.spec_tile_map().tile_at(c) is Bomb);
        lemma_cells_before_all(width, height, safe);
        assert(cells_where(width, height, safe) =~= self.covered_safe());
        if self.covered_safe().len() == 0 {
            assert forall|c: Coordinates|
                self.spec_tile_map().contains(c) && !(self.spec_tile_map().tile_at(c) is Bomb)
                implies !self.covered().contains_key(c) by {
                if self.covered().contains_key(c) {
                    assert(self.covered_safe().contains(c));
                }
            }
        } else {
            let c = self.covered_safe().choose();
            assert(self.covered_safe().contains(c));
        }
    }

    /// The ground truth of the board.
    #[verifier::when_used_as_spec(spec_tile_map)]
    pub fn tile_map(&self) -> (map: &TileMap)
        ensures
            map == self.spec_tile_map(),
    {
        &self.tile_map
    }

    /// The rectangle that the board takes in the world.
    #[verifier::when_used_as_spec(spec_bounds)]
    pub fn bounds(&self) -> (bounds: Bounds2)
        ensures
            bounds == self.spec_bounds(),
    {
        self.bounds
    }

    /// Side of one tile, in world units.
    #[verifier::when_used_as_spec(spec_tile_size)]
    pub fn tile_size(&self) -> (size: u32)
        ensures
            size == self.spec_tile_size(),
    {
        self.tile_size
    }

    /// Handle of the visual that stands for the whole board.
    #[verifier::when_used_as_spec(spec_root_handle)]
    pub fn root_handle(&self) -> (root: Handle)
        ensures
            root == self.spec_root_handle(),
    {
        self.root
    }

    /// The handle of the cover of a cell, while the cell is covered.
    pub fn covered_handle(&self, c: Coordinates) -> (handle: Option<Handle>)
        requires
            self.wf(),
        ensures
            handle == if self.covered().contains_key(c) {
                Some(self.covered()[c])
            } else {
                None
            },
    {
        let width = self.tile_map.width();
        let height = self.tile_map.height();
        if c.x < width && c.y < height {
            self.covered[cell_index(c, width, height)]
        } else {
            None
        }
    }

    /// Whether a cell is still covered.
    pub fn is_covered(&self, c: Coordinates) -> (covered: bool)
        requires
            self.wf(),
        ensures
            covered == self.covered().contains_key(c),
    {
        self.covered_handle(c).is_some()
    }

    /// Puts a board together from a map, the size of a tile, the place of
    /// its bottom-left corner, the handle of the board's own visual and the
    /// handles of the covers, one for each cell, row after row from the
    /// first row. Every cell starts covered. A tile size of zero is refused,
    /// and so is a number of handles other than the number of cells.
    pub fn assemble(
        tile_map: TileMap,
        tile_size: u32,
        position: Point,
        root: Handle,
        handles: &Vec<Handle>,
    ) -> (r: Result<Board, ConfigError>)
        requires
            tile_map.wf(),
        ensures
            tile_size == 0 ==> r == Err::<Board, ConfigError>(ConfigError::InvalidTileSize),
            tile_size > 0 && handles@.len() != tile_map.width() * tile_map.height() ==> r == Err::<
                Board,
                ConfigError,
            >(ConfigError::HandleCount),
            tile_size > 0 && handles@.len() == tile_map.width() * tile_map.height() ==> r is Ok,
            r matches Ok(board) ==> {
                &&& board.wf()
                &&& *board.tile_map() == tile_map
                &&& board.tile_size() == tile_size
                &&& board.bounds() == (Bounds2 {
                    position,
                    size: spec_board_extent(tile_map.width(), tile_map.height(), tile_size),
                })
                &&& board.root_handle() == root
                &&& board.covered() == Map::new(
                    |c: Coordinates| tile_map.contains(c),
                    |c: Coordinates| handles@[c.index(tile_map.width() as int)],
                )
            },
    {
        if tile_size == 0 {
            return Err(ConfigError::InvalidTileSize);
        }
        let width = tile_map.width();
        let height = tile_map.height();
        let n: usize = cell_count(width, height) as usize;
        if handles.len() != n {
            return Err(ConfigError::HandleCount);
        }
        let mut covered: Vec<Option<Handle>> = Vec::new();
        let mut i: usize = 0;
        while i < n
            invariant
                i <= n,
                n == handles@.len(),
                covered@.len() == i,
                forall|j: int| 0 <= j < i ==> covered@[j] == Some(handles@[j]),
            decreases n - i,
        {
            covered.push(Some(handles[i]));
            i += 1;
        }
        let size = board_extent(width, height, tile_size);
        let bounds = Bounds2 { position, size };
        let board = Board { tile_map, bounds, tile_size, covered, root };
        proof {
            let expected = Map::new(
                |c: Coordinates| tile_map.contains(c),
                |c: Coordinates| handles@[c.index(width as int)],
            );
            assert forall|c: Coordinates|
                board.covered().contains_key(c) == expected.contains_key(c) by {
                if c.within(width as int, height as int) {
                    lemma_index_in_range(c, width as int, height as int);
                }
            }
            assert forall|c: Coordinates|
                board.covered().contains_key(c) implies board.covered()[c] == expected[c] by {
                lemma_index_in_range(c, width as int, height as int);
            }
            assert(board.covered() =~= expected);
        }
        Ok(board)
    }

    /// Generates a board from the options: checks them, lays the mines at
    /// random, and covers every cell with the handle that the host supplies
    /// for it, row after row from the first row. `available` is the space
    /// that an adaptive tile size has to fit. Where a safe start is asked
    /// for, the first empty cell in reading order is named, for the host to
    /// reveal before the first move.
    pub fn build(
        options: &BoardOptions,
        available: Extent,
        root: Handle,
        handles: &Vec<Handle>,
    ) -> (r: Result<Generation, ConfigError>)
        ensures
            match options.spec_layout(available) {
                Err(e) => r == Err::<Generation, ConfigError>(e),
                Ok(layout) => if handles@.len() != options.map_size.0 * options.map_size.1 {
                    r == Err::<Generation, ConfigError>(ConfigError::HandleCount)
                } else {
                    &&& r matches Ok(generation)
                    &&& generation.board.wf()
                    &&& generation.board.tile_map().width() == options.map_size.0
                    &&& generation.board.tile_map().height() == options.map_size.1
                    &&& generation.board.tile_map().bombs().finite()
                    &&& generation.board.tile_map().bombs().len() == options.bomb_count
                    &&& generation.board.tile_size() == layout.tile_size
                    &&& generation.board.bounds() == layout.bounds
                    &&& generation.board.root_handle() == root
                    &&& generation.board.covered() == Map::new(
                        |c: Coordinates| generation.board.tile_map().contains(c),
                        |c: Coordinates| handles@[c.index(options.map_size.0 as int)],
                    )
                    &&& if options.safe_start {
                        generation.board.tile_map().is_first_empty(generation.safe_start)
                    } else {
                        generation.safe_start is None
                    }
                },
            },
    {
        let layout = match options.layout(available) {
            Ok(layout) => layout,
            Err(e) => {
                return Err(e);
            },
        };
        let width = options.map_size.0;
        let height = options.map_size.1;
        if handles.len() != cell_count(width, height) as usize {
            return Err(ConfigError::HandleCount);
        }
        let mut tile_map = match TileMap::empty(width, height) {
            Ok(tile_map) => tile_map,
            Err(e) => {
                return Err(e);
            },
        };
        match tile_map.set_bombs(options.bomb_count) {
            Ok(()) => {},
            Err(e) => {
                return Err(e);
            },
        }
        let safe_start = if options.safe_start {
            tile_map.first_empty()
        } else {
            None
        };
        match Board::assemble(tile_map, layout.tile_size, layout.bounds.position, root, handles) {
            Ok(board) => Ok(Generation { board, safe_start }),
            Err(e) => Err(e),
        }
    }

    /// The cell under a point of the world, or nothing for a point off the
    /// board.
    pub fn screen_to_coordinate(&self, point: Point) -> (c: Option<Coordinates>)
        requires
            self.wf(),
        ensures
            c == self.coordinate_of(point),
            !self.bounds().contains(point) ==> c is None,
            self.bounds().contains(point) ==> c is Some && self.tile_map().contains(c->0),
    {
        match self.bounds.relative_position(point) {
            None => None,
            Some(offset) => {
                let size: u64 = self.tile_size as u64;
                let column: u64 = offset.x / size;
                let row: u64 = offset.y / size;
                let last_column: u64 = (self.tile_map.width() - 1) as u64;
                let last_row: u64 = (self.tile_map.height() - 1) as u64;
                let x: u64 = if column <= last_column {
                    column
                } else {
                    last_column
                };
                let y: u64 = if row <= last_row {
                    row
                } else {
                    last_row
                };
                Some(Coordinates { x: x as u16, y: y as u16 })
            },
        }
    }

    /// Number of covered cells that hold no mine. The game is won when
    /// none is left.
    pub fn remaining_safe_count(&self) -> (n: usize)
        requires
            self.wf(),
        ensures
            self.covered_safe().finite(),
            n == self.covered_safe().len(),
            n == 0 <==> forall|c: Coordinates|
                self.tile_map().contains(c) && !(self.tile_map().tile_at(c) is Bomb)
                    ==> !self.covered().contains_key(c),
    {
        let width = self.tile_map.width();
        let height = self.tile_map.height();
        let ghost safe = |c: Coordinates|
            self.covered().contains_key(c) && !(self.tile_map.tile_at(c) is Bomb);
        let total: usize = cell_count(width, height) as usize;
        let mut n: usize = 0;
        let mut i: usize = 0;
        proof {
            lemma_cells_before_len(width as int, height as int, 0, safe);
        }
        while i < total
            invariant
                self.wf(),
                i <= total,
                total == width * height,
                width == self.tile_map.spec_width(),
                height == self.tile_map.spec_height(),
                safe == |c: Coordinates|
                    self.covered().contains_key(c) && !(self.tile_map.tile_at(c) is Bomb),
                cells_before(width as int, height as int, i as int, safe).finite(),
                n == cells_before(width as int, height as int, i as int, safe).len(),
                n <= i,
            decreases total - i,
        {
            proof {
                lemma_cells_before_step(width as int, height as int, i as int, safe);
                lemma_index_cell_at(i as int, width as int, height as int);
            }
            let w: usize = width as usize;
            let c = Coordinates { x: (i % w) as u16, y: (i / w) as u16 };
            if self.covered[i].is_some() && !self.tile_map.is_bomb_at(c) {
                n += 1;
            }
            i += 1;
        }
        proof {
            lemma_cells_before_all(width as int, height as int, safe);
            assert(cells_where(width as int, height as int, safe) =~= self.covered_safe());
            if n == 0 {
                assert forall|c: Coordinates|
                    self.tile_map().contains(c) && !(self.tile_map().tile_at(c) is Bomb)
                    implies !self.covered().contains_key(c) by {
                    if self.covered().contains_key(c) {
                        assert(self.covered_safe().contains(c));
                    }
                }
            } else {
                let c = self.covered_safe().choose();
                assert(self.covered_safe().contains(c));
            }
        }
        n
    }
}

} // verus!
