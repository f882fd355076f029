use vstd::prelude::*;
use crate::board::{covered_map, lemma_uncover_slot, Board, Handle};
use crate::coordinates::{cell_index, lemma_distinct_cells_bounded, Coordinates};
use crate::tile::Tile;
use crate::tile_map::TileMap;

verus! {

/// A cell that a reveal uncovered, with the handle of the cover it had.
#[derive(Debug, Clone, Copy, PartialEq, Eq, Structural, Hash)]
pub struct Uncovered {
    pub coordinates: Coordinates,
    pub handle: Handle,
}

/// What a reveal did to the board.
#[derive(Debug, PartialEq, Eq)]
pub enum RevealOutcome {
    /// The cell was uncovered already; nothing changed.
    NoOp,
    /// The cell held a mine. It is uncovered and the game is lost.
    BombHit(Uncovered),
    /// The cell was free. These cells are uncovered, each named once.
    Revealed(Vec<Uncovered>),
}

/// A way along which a reveal spreads: a run of covered cells in which each
/// cell but the last is empty and touches the next.
pub open spec fn flood_path(
    map: TileMap,
    covered: Set<Coordinates>,
    path: Seq<Coordinates>,
) -> bool {
    &&& path.len() > 0
    &&& forall|i: int| 0 <= i < path.len() ==> covered.contains(#[trigger] path[i])
    &&& forall|i: int|
        0 <= i < path.len() - 1 ==> map.tile_at(#[trigger] path[i]) == Tile::Empty
            && path[i].adjacent(path[i + 1])
}

/// The cells that a reveal at `start` spreads to: every cell at the end of
/// a way that begins at `start`. Numbered cells end a way, so the region is
/// the empty cells connected to `start` and the covered cells around them.
pub open spec fn flood_region(
    map: TileMap,
    covered: Set<Coordinates>,
    start: Coordinates,
) -> Set<Coordinates> {
    Set::new(
        |c: Coordinates|
            exists|path: Seq<Coordinates>| #[trigger]
                flood_path(map, covered, path) && path[0] == start && path.last() == c,
    )
}

/// The covered cells after a reveal at `start`: unchanged where `start` was
/// uncovered already, without `start` where it holds a mine, and else
/// without the region that the reveal spreads to.
pub open spec fn covered_after(
    map: TileMap,
    covered: Map<Coordinates, Handle>,
    start: Coordinates,
) -> Map<Coordinates, Handle> {
    if !covered.contains_key(start) {
        covered
    } else if map.tile_at(start) is Bomb {
        covered.remove(start)
    } else {
        covered.remove_keys(flood_region(map, covered.dom(), start))
    }
}

/// `cells` names exactly the cells of `region`, each once and with the
/// handle that covered it.
pub open spec fn uncovers(
    cells: Seq<Uncovered>,
    covered: Map<Coordinates, Handle>,
    region: Set<Coordinates>,
) -> bool {
    &&& forall|i: int|
        0 <= i < cells.len() ==> region.contains((#[trigger] cells[i]).coordinates)
            && cells[i].handle == covered[cells[i].coordinates]
    &&& forall|c: Coordinates|
        region.contains(c) ==> exists|i: int|
            0 <= i < cells.len() && (#[trigger] cells[i]).coordinates == c
    &&& forall|i: int, j: int|
        0 <= i < j < cells.len() ==> (#[trigger] cells[i]).coordinates != (
        #[trigger] cells[j]).coordinates
}

/// The outcome that a reveal at `start` reports.
pub open spec fn reports(
    outcome: RevealOutcome,
    map: TileMap,
    covered: Map<Coordinates, Handle>,
    start: Coordinates,
) -> bool {
    if !covered.contains_key(start) {
        outcome is NoOp
    } else if map.tile_at(start) is Bomb {
        outcome == RevealOutcome::BombHit(Uncovered { coordinates: start, handle: covered[start] })
    } else {
        &&& outcome matches RevealOutcome::Revealed(cells)
        &&& uncovers(cells@, covered, flood_region(map, covered.dom(), start))
    }
}

/// A covered start belongs to its own region.
pub proof fn lemma_flood_start(map: TileMap, covered: Set<Coordinates>, start: Coordinates)
    requires
        covered.contains(start),
    ensures
        flood_region(map, covered, start).contains(start),
{
    let path = seq![start];
    assert(flood_path(map, covered, path) && path[0] == start && path.last() == start);
}

/// The region holds covered cells only, and none unless the start is
/// covered.
pub proof fn lemma_flood_covered(
    map: TileMap,
    covered: Set<Coordinates>,
    start: Coordinates,
    c: Coordinates,
)
    requires
        flood_region(map, covered, start).contains(c),
    ensures
        covered.contains(c),
        covered.contains(start),
{
    let path = choose|path: Seq<Coordinates>| #[trigger]
        flood_path(map, covered, path) && path[0] == start && path.last() == c;
    assert(covered.contains(path[0]));
    assert(covered.contains(path[path.len() - 1]));
}

/// The region spreads from each of its empty cells to the covered cells
/// that touch it.
pub proof fn lemma_flood_step(
    map: TileMap,
    covered: Set<Coordinates>,
    start: Coordinates,
    c: Coordinates,
    n: Coordinates,
)
    requires
        flood_region(map, covered, start).contains(c),
        map.tile_at(c) == Tile::Empty,
        c.adjacent(n),
        covered.contains(n),
    ensures
        flood_region(map, covered, start).contains(n),
{
    let path = choose|path: Seq<Coordinates>| #[trigger]
        flood_path(map, covered, path) && path[0] == start && path.last() == c;
    let longer = path.push(n);
    assert forall|i: int| 0 <= i < longer.len() implies covered.contains(
        #[trigger] longer[i],
    ) by {
        if i < path.len() {
            assert(longer[i] == path[i]);
        }
    }
    assert forall|i: int| 0 <= i < longer.len() - 1 implies map.tile_at(#[trigger] longer[i])
        == Tile::Empty && longer[i].adjacent(longer[i + 1]) by {
        assert(longer[i] == path[i]);
        if i < path.len() - 1 {
            assert(longer[i + 1] == path[i + 1]);
        }
    }
    assert(flood_path(map, covered, longer) && longer[0] == start && longer.last() == n);
}

/// Every cell of a way lies in a set that holds the first cell and spreads
/// as the region does.
proof fn lemma_path_stays(
    map: TileMap,
    covered: Set<Coordinates>,
    path: Seq<Coordinates>,
    done: Set<Coordinates>,
    i: int,
)
    requires
        flood_path(map, covered, path),
        done.contains(path[0]),
        forall|r: Coordinates, n: Coordinates|
            #![trigger done.contains(r), r.adjacent(n)]
            done.contains(r) && map.tile_at(r) == Tile::Empty && r.adjacent(n) && covered.contains(
                n,
            ) ==> done.contains(n),
        0 <= i < path.len(),
    ensures
        done.contains(path[i]),
    decreases i,
{
    if i > 0 {
        lemma_path_stays(map, covered, path, done, i - 1);
        assert(map.tile_at(path[i - 1]) == Tile::Empty && path[i - 1].adjacent(path[i]));
        assert(covered.contains(path[i]));
    }
}

/// The region is the least set that holds the start and spreads from its
/// empty cells to the covered cells that touch them.
pub proof fn lemma_flood_least(
    map: TileMap,
    covered: Set<Coordinates>,
    start: Coordinates,
    done: Set<Coordinates>,
)
    requires
        done.contains(start),
        forall|r: Coordinates, n: Coordinates|
            #![trigger done.contains(r), r.adjacent(n)]
            done.contains(r) && map.tile_at(r) == Tile::Empty && r.adjacent(n) && covered.contains(
                n,
            ) ==> done.contains(n),
    ensures
        flood_region(map, covered, start).subset_of(done),
{
    assert forall|c: Coordinates|
        flood_region(map, covered, start).contains(c) implies done.contains(c) by {
        let path = choose|path: Seq<Coordinates>| #[trigger]
            flood_path(map, covered, path) && path[0] == start && path.last() == c;
        lemma_path_stays(map, covered, path, done, path.len() - 1);
    }
}

/// On a well-formed map a reveal that starts on a cell without a mine
/// spreads to no mine.
pub proof fn lemma_flood_spares_bombs(
    map: TileMap,
    covered: Set<Coordinates>,
    start: Coordinates,
    c: Coordinates,
)
    requires
        map.wf(),
        forall|d: Coordinates| covered.contains(d) ==> map.contains(d),
        !(map.tile_at(start) is Bomb),
        flood_region(map, covered, start).contains(c),
    ensures
        !(map.tile_at(c) is Bomb),
{
    let path = choose|path: Seq<Coordinates>| #[trigger]
        flood_path(map, covered, path) && path[0] == start && path.last() == c;
    if path.len() > 1 {
        let r = path[path.len() - 2];
        assert(map.tile_at(r) == Tile::Empty && r.adjacent(path[path.len() - 2 + 1]));
        assert(covered.contains(r));
        assert(covered.contains(path[path.len() - 1]));
        map.lemma_empty_cell_is_clear(r, c);
    }
}

/// Revealing a cell leaves it uncovered, and revealing it again changes
/// nothing: the second reveal finds the cell uncovered.
pub proof fn lemma_reveal_idempotent(
    map: TileMap,
    covered: Map<Coordinates, Handle>,
    start: Coordinates,
)
    ensures
        !covered_after(map, covered, start).contains_key(start),
        covered_after(map, covered_after(map, covered, start), start) == covered_after(
            map,
            covered,
            start,
        ),
{
    if covered.contains_key(start) && !(map.tile_at(start) is Bomb) {
        lemma_flood_start(map, covered.dom(), start);
    }
}

/// A reveal never covers a cell: what is covered afterwards was covered
/// before, by the same cover.
pub proof fn lemma_reveal_monotonic(
    map: TileMap,
    covered: Map<Coordinates, Handle>,
    start: Coordinates,
)
    ensures
        covered_after(map, covered, start).submap_of(covered),
{
}

/// Appends to `pending` the covered cells that touch `c`.
fn enqueue_neighbors(
    width: u16,
    height: u16,
    slots: &Vec<Option<Handle>>,
    c: Coordinates,
    pending: &mut Vec<Coordinates>,
)
    requires
        c.within(width as int, height as int),
        slots@.len() == width * height,
    ensures
        final(pending)@.len() >= old(pending)@.len(),
        forall|j: int|
            0 <= j < old(pending)@.len() ==> #[trigger] final(pending)@[j] == old(pending)@[j],
        forall|j: int|
            old(pending)@.len() <= j < final(pending)@.len() ==> c.adjacent(
                #[trigger] final(pending)@[j],
            ) && covered_map(width as int, height as int, slots@).contains_key(final(pending)@[j]),
        forall|n: Coordinates|
            c.adjacent(n) && #[trigger] covered_map(
                width as int,
                height as int,
                slots@,
            ).contains_key(n) ==> final(pending)@.contains(n),
{
    let ghost covered = covered_map(width as int, height as int, slots@);
    let ghost first = pending@.len();
    let mut dy: i8 = -1;
    while dy <= 1
        invariant
            -1 <= dy <= 2,
            c.within(width as int, height as int),
            slots@.len() == width * height,
            covered == covered_map(width as int, height as int, slots@),
            first == old(pending)@.len(),
            pending@.len() >= first,
            forall|j: int| 0 <= j < first ==> #[trigger] pending@[j] == old(pending)@[j],
            forall|j: int|
                first <= j < pending@.len() ==> c.adjacent(#[trigger] pending@[j])
                    && covered.contains_key(pending@[j]),
            forall|n: Coordinates|
                c.adjacent(n) && #[trigger] covered.contains_key(n) && n.y - c.y < dy
                    ==> pending@.contains(n),
        decreases 2 - dy,
    {
        let mut dx: i8 = -1;
        while dx <= 1
            invariant
                -1 <= dx <= 2,
                -1 <= dy <= 1,
                c.within(width as int, height as int),
                slots@.len() == width * height,
                covered == covered_map(width as int, height as int, slots@),
                first == old(pending)@.len(),
                pending@.len() >= first,
                forall|j: int| 0 <= j < first ==> #[trigger] pending@[j] == old(pending)@[j],
                forall|j: int|
                    first <= j < pending@.len() ==> c.adjacent(#[trigger] pending@[j])
                        && covered.contains_key(pending@[j]),
                forall|n: Coordinates|
                    c.adjacent(n) && #[trigger] covered.contains_key(n) && (n.y - c.y < dy || (n.y
                        - c.y == dy && n.x - c.x < dx)) ==> pending@.contains(n),
            decreases 2 - dx,
        {
            let ghost earlier = pending@;
            if dx != 0 || dy != 0 {
                match c.neighbor(dx, dy, width, height) {
                    Some(n) => {
                        if slots[cell_index(n, width, height)].is_some() {
                            pending.push(n);
                        }
                    },
                    None => {},
                }
            }
            proof {
                assert forall|n: Coordinates|
                    c.adjacent(n) && #[trigger] covered.contains_key(n) && (n.y - c.y < dy || (n.y
                        - c.y == dy && n.x - c.x < dx + 1)) implies pending@.contains(n) by {
                    if n.y - c.y == dy && n.x - c.x == dx {
                        assert(pending@[pending@.len() - 1] == n);
                    } else {
                        let j = choose|j: int| 0 <= j < earlier.len() && earlier[j] == n;
                        assert(pending@[j] == n);
                    }
                }
            }
            dx += 1;
        }
        dy += 1;
    }
}

/// What holds while a reveal spreads from `start`: `before` are the covers
/// at its beginning and `now` those that are left, `cells` the cells
/// uncovered so far and `pending` those still to be looked at. Every cell
/// named lies in the region; the uncovered cells are those in `cells`, each
/// once; and around each uncovered empty cell nothing is covered but that it
/// is pending.
#[verifier::opaque]
spec fn flooding(
    map: TileMap,
    before: Map<Coordinates, Handle>,
    start: Coordinates,
    now: Map<Coordinates, Handle>,
    cells: Seq<Uncovered>,
    pending: Seq<Coordinates>,
) -> bool {
    let region = flood_region(map, before.dom(), start);
    &&& now.submap_of(before)
    &&& forall|j: int|
        0 <= j < cells.len() ==> region.contains((#[trigger] cells[j]).coordinates)
            && !now.contains_key(cells[j].coordinates) && cells[j].handle
            == before[cells[j].coordinates]
    &&& forall|c: Coordinates|
        #![trigger now.contains_key(c)]
        before.contains_key(c) && !now.contains_key(c) ==> exists|j: int|
            0 <= j < cells.len() && (#[trigger] cells[j]).coordinates == c
    &&& forall|i: int, j: int|
        0 <= i < j < cells.len() ==> (#[trigger] cells[i]).coordinates != (
        #[trigger] cells[j]).coordinates
    &&& forall|j: int| 0 <= j < pending.len() ==> region.contains(#[trigger] pending[j])
    &&& forall|r: Coordinates, n: Coordinates|
        #![trigger now.contains_key(r), r.adjacent(n)]
        before.contains_key(r) && !now.contains_key(r) && map.tile_at(r) == Tile::Empty
            && r.adjacent(n) && before.contains_key(n) ==> !now.contains_key(n)
            || pending.contains(n)
    &&& !now.contains_key(start) || pending.contains(start)
}

/// A reveal begins with every cover in place and the start pending.
proof fn lemma_flooding_begins(map: TileMap, before: Map<Coordinates, Handle>, start: Coordinates)
    requires
        before.contains_key(start),
    ensures
        flooding(map, before, start, before, Seq::<Uncovered>::empty(), seq![start]),
{
    reveal(flooding);
    lemma_flood_start(map, before.dom(), start);
    assert(seq![start][0] == start);
}

/// A pending cell was covered when the reveal began.
proof fn lemma_flooding_pending(
    map: TileMap,
    before: Map<Coordinates, Handle>,
    start: Coordinates,
    now: Map<Coordinates, Handle>,
    cells: Seq<Uncovered>,
    pending: Seq<Coordinates>,
)
    requires
        flooding(map, before, start, now, cells, pending),
        pending.len() > 0,
    ensures
        before.contains_key(pending.last()),
        now.contains_key(pending.last()) ==> now[pending.last()] == before[pending.last()],
{
    reveal(flooding);
    lemma_flood_covered(map, before.dom(), start, pending.last());
}

/// A pending cell that is uncovered by now is dropped.
proof fn lemma_flooding_skips(
    map: TileMap,
    before: Map<Coordinates, Handle>,
    start: Coordinates,
    now: Map<Coordinates, Handle>,
    cells: Seq<Uncovered>,
    pending: Seq<Coordinates>,
)
    requires
        flooding(map, before, start, now, cells, pending),
        pending.len() > 0,
        !now.contains_key(pending.last()),
    ensures
        flooding(map, before, start, now, cells, pending.drop_last()),
{
    reveal(flooding);
    let rest = pending.drop_last();
    assert forall|n: Coordinates| pending.contains(n) && now.contains_key(n) implies rest.contains(
        n,
    ) by {
        let j = choose|j: int| 0 <= j < pending.len() && pending[j] == n;
        assert(rest[j] == n);
    }
    assert forall|j: int| 0 <= j < rest.len() implies flood_region(
        map,
        before.dom(),
        start,
    ).contains(#[trigger] rest[j]) by {
        assert(rest[j] == pending[j]);
    }
}

/// A pending cell that is still covered is uncovered, and the covered cells
/// around it become pending where it is empty: `grown` is the rest of
/// `pending`, followed by those cells where the cell is empty.
proof fn lemma_flooding_uncovers(
    map: TileMap,
    before: Map<Coordinates, Handle>,
    start: Coordinates,
    now: Map<Coordinates, Handle>,
    cells: Seq<Uncovered>,
    pending: Seq<Coordinates>,
    grown: Seq<Coordinates>,
)
    requires
        flooding(map, before, start, now, cells, pending),
        pending.len() > 0,
        now.contains_key(pending.last()),
        grown.len() >= pending.len() - 1,
        forall|j: int| 0 <= j < pending.len() - 1 ==> #[trigger] grown[j] == pending[j],
        map.tile_at(pending.last()) != Tile::Empty ==> grown.len() == pending.len() - 1,
        forall|j: int|
            pending.len() - 1 <= j < grown.len() ==> pending.last().adjacent(#[trigger] grown[j])
                && now.remove(pending.last()).contains_key(grown[j]),
        map.tile_at(pending.last()) == Tile::Empty ==> forall|n: Coordinates|
            pending.last().adjacent(n) && #[trigger] now.remove(pending.last()).contains_key(n)
                ==> grown.contains(n),
    ensures
        flooding(
            map,
            before,
            start,
            now.remove(pending.last()),
            cells.push(Uncovered { coordinates: pending.last(), handle: now[pending.last()] }),
            grown,
        ),
{
    reveal(flooding);
    let c = pending.last();
    let region = flood_region(map, before.dom(), start);
    let left = now.remove(c);
    let named = cells.push(Uncovered { coordinates: c, handle: now[c] });
    assert(region.contains(pending[pending.len() - 1]));
    lemma_flood_covered(map, before.dom(), start, c);
    assert forall|n: Coordinates| pending.contains(n) && n != c implies grown.contains(n) by {
        let j = choose|j: int| 0 <= j < pending.len() && pending[j] == n;
        assert(grown[j] == n);
    }
    assert forall|j: int| 0 <= j < named.len() implies region.contains(
        (#[trigger] named[j]).coordinates,
    ) && !left.contains_key(named[j].coordinates) && named[j].handle
        == before[named[j].coordinates] by {
        if j < cells.len() {
            assert(named[j] == cells[j]);
        }
    }
    assert forall|d: Coordinates|
        #![trigger left.contains_key(d)]
        before.contains_key(d) && !left.contains_key(d) implies exists|j: int|
        0 <= j < named.len() && (#[trigger] named[j]).coordinates == d by {
        if d == c {
            assert(named[named.len() - 1].coordinates == d);
        } else {
            assert(!now.contains_key(d));
            let j = choose|j: int| 0 <= j < cells.len() && (#[trigger] cells[j]).coordinates == d;
            assert(named[j].coordinates == d);
        }
    }
    assert forall|i: int, j: int| 0 <= i < j < named.len() implies (
    #[trigger] named[i]).coordinates != (#[trigger] named[j]).coordinates by {
        assert(named[i] == cells[i]);
        if j < cells.len() {
            assert(named[j] == cells[j]);
        }
    }
    assert forall|j: int| 0 <= j < grown.len() implies region.contains(#[trigger] grown[j]) by {
        if j < pending.len() - 1 {
            assert(grown[j] == pending[j]);
        } else {
            lemma_flood_step(map, before.dom(), start, c, grown[j]);
        }
    }
    assert forall|r: Coordinates, n: Coordinates|
        #![trigger left.contains_key(r), r.adjacent(n)]
        before.contains_key(r) && !left.contains_key(r) && map.tile_at(r) == Tile::Empty
            && r.adjacent(n) && before.contains_key(n) implies !left.contains_key(n)
        || grown.contains(n) by {
        if left.contains_key(n) {
            if r == c {
                assert(grown.contains(n));
            } else {
                assert(!now.contains_key(r));
                assert(now.contains_key(n));
                assert(pending.contains(n));
            }
        }
    }
}

/// Once nothing is pending, exactly the region is uncovered and named.
proof fn lemma_flooding_ends(
    map: TileMap,
    before: Map<Coordinates, Handle>,
    start: Coordinates,
    now: Map<Coordinates, Handle>,
    cells: Seq<Uncovered>,
)
    requires
        flooding(map, before, start, now, cells, Seq::<Coordinates>::empty()),
        before.contains_key(start),
    ensures
        now == before.remove_keys(flood_region(map, before.dom(), start)),
        uncovers(cells, before, flood_region(map, before.dom(), start)),
{
    reveal(flooding);
    let region = flood_region(map, before.dom(), start);
    let nothing = Seq::<Coordinates>::empty();
    let done = Set::new(|c: Coordinates| before.contains_key(c) && !now.contains_key(c));
    assert(!nothing.contains(start));
    assert forall|r: Coordinates, n: Coordinates|
        #![trigger done.contains(r), r.adjacent(n)]
        done.contains(r) && map.tile_at(r) == Tile::Empty && r.adjacent(n)
            && before.dom().contains(n) implies done.contains(n) by {
        assert(!now.contains_key(r));
        assert(!nothing.contains(n));
    }
    lemma_flood_least(map, before.dom(), start, done);
    assert forall|c: Coordinates| region.contains(c) implies exists|i: int|
        0 <= i < cells.len() && (#[trigger] cells[i]).coordinates == c by {
        assert(done.contains(c));
        assert(!now.contains_key(c));
    }
    assert forall|c: Coordinates| now.contains_key(c) implies !region.contains(c) by {
        if region.contains(c) {
            assert(done.contains(c));
        }
    }
    assert forall|c: Coordinates|
        before.contains_key(c) && !region.contains(c) implies now.contains_key(c) by {
        if !now.contains_key(c) {
            let j = choose|j: int| 0 <= j < cells.len() && (#[trigger] cells[j]).coordinates == c;
            assert(region.contains(cells[j].coordinates));
        }
    }
    assert(now =~= before.remove_keys(region));
}

/// No more cells are uncovered than the grid has.
proof fn lemma_flooding_bound(
    map: TileMap,
    before: Map<Coordinates, Handle>,
    start: Coordinates,
    now: Map<Coordinates, Handle>,
    cells: Seq<Uncovered>,
    pending: Seq<Coordinates>,
    width: int,
    height: int,
)
    requires
        flooding(map, before, start, now, cells, pending),
        0 < width <= u16::MAX,
        0 <= height <= u16::MAX,
        forall|c: Coordinates| #[trigger] before.contains_key(c) ==> c.within(width, height),
    ensures
        cells.len() <= width * height,
{
    reveal(flooding);
    let coordinates = cells.map_values(|u: Uncovered| u.coordinates);
    assert forall|a: int| 0 <= a < coordinates.len() implies (#[trigger] coordinates[a]).within(
        width,
        height,
    ) by {
        lemma_flood_covered(map, before.dom(), start, cells[a].coordinates);
        assert(before.contains_key(cells[a].coordinates));
    }
    assert forall|a: int, b: int|
        0 <= a < coordinates.len() && 0 <= b < coordinates.len() && a != b implies coordinates[a]
        != coordinates[b] by {
        if a < b {
            assert(cells[a].coordinates != cells[b].coordinates);
        } else {
            assert(cells[b].coordinates != cells[a].coordinates);
        }
    }
    lemma_distinct_cells_bounded(coordinates, width, height);
}

/// Uncovers the region that a reveal at the covered cell `start` spreads
/// to, and names the cells that it uncovered.
fn flood(
    map: &TileMap,
    slots: &mut Vec<Option<Handle>>,
    start: Coordinates,
) -> (cells: Vec<Uncovered>)
    requires
        map.wf(),
        old(slots)@.len() == map.spec_width() * map.spec_height(),
        covered_map(
            map.spec_width() as int,
            map.spec_height() as int,
            old(slots)@,
        ).contains_key(start),
    ensures
        final(slots)@.len() == old(slots)@.len(),
        covered_map(map.spec_width() as int, map.spec_height() as int, final(slots)@)
            == covered_map(
            map.spec_width() as int,
            map.spec_height() as int,
            old(slots)@,
        ).remove_keys(
            flood_region(
                *map,
                covered_map(
                    map.spec_width() as int,
                    map.spec_height() as int,
                    old(slots)@,
                ).dom(),
                start,
            ),
        ),
        uncovers(
            cells@,
            covered_map(map.spec_width() as int, map.spec_height() as int, old(slots)@),
            flood_region(
                *map,
                covered_map(
                    map.spec_width() as int,
                    map.spec_height() as int,
                    old(slots)@,
                ).dom(),
                start,
            ),
        ),
        cells@.len() <= map.spec_width() * map.spec_height(),
{
    let width = map.width();
    let height = map.height();
    let ghost before = covered_map(width as int, height as int, slots@);
    let mut cells: Vec<Uncovered> = Vec::new();
    let mut pending: Vec<Coordinates> = Vec::new();
    pending.push(start);
    proof {
        lemma_flooding_begins(*map, before, start);
        assert(pending@ =~= seq![start]);
        assert(cells@ =~= Seq::<Uncovered>::empty());
        assert(0 <= width * height) by (nonlinear_arith)
            requires
                0 <= width,
                0 <= height,
        ;
    }
    while pending.len() > 0
        invariant
            map.wf(),
            width == map.spec_width(),
            height == map.spec_height(),
            slots@.len() == width * height,
            before.contains_key(start),
            forall|c: Coordinates| #[trigger]
                before.contains_key(c) ==> c.within(width as int, height as int),
            flooding(
                *map,
                before,
                start,
                covered_map(width as int, height as int, slots@),
                cells@,
                pending@,
            ),
            cells@.len() <= width * height,
        decreases width * height - cells@.len(), pending@.len(),
    {
        let ghost waiting = pending@;
        let ghost named = cells@;
        let ghost now = covered_map(width as int, height as int, slots@);
        let ghost slots_now = slots@;
        let c = pending.pop().unwrap();
        proof {
            lemma_flooding_pending(*map, before, start, now, named, waiting);
            assert(pending@ =~= waiting.drop_last());
        }
        let i = cell_index(c, width, height);
        match slots[i] {
            None => {
                proof {
                    lemma_flooding_skips(*map, before, start, now, named, waiting);
                }
            },
            Some(handle) => {
                slots[i] = None;
                cells.push(Uncovered { coordinates: c, handle });
                proof {
                    lemma_uncover_slot(width as int, height as int, slots_now, c);
                }
                let empty = match map.get(c) {
                    Some(Tile::Empty) => true,
                    _ => false,
                };
                if empty {
                    enqueue_neighbors(width, height, slots, c, &mut pending);
                }
                proof {
                    lemma_flooding_uncovers(*map, before, start, now, named, waiting, pending@);
                    lemma_flooding_bound(
                        *map,
                        before,
                        start,
                        covered_map(width as int, height as int, slots@),
                        cells@,
                        pending@,
                        width as int,
                        height as int,
                    );
                }
            },
        }
    }
    proof {
        assert(pending@ =~= Seq::<Coordinates>::empty());
        lemma_flooding_ends(
            *map,
            before,
            start,
            covered_map(width as int, height as int, slots@),
            cells@,
        );
    }
    cells
}

impl Board {
    /// Reveals a cell of the grid. A cell that is uncovered already stays so
    /// and nothing changes. A covered mine is uncovered, alone. From any
    /// other covered cell the reveal spreads: the cell is uncovered, and
    /// where a cell so uncovered is empty, the covered cells that touch it
    /// are uncovered in turn; a numbered cell is uncovered and spreads no
    /// further. The outcome names each uncovered cell once, with the handle
    /// of its cover. Nothing but the covers changes.
    pub fn reveal_at(&mut self, start: Coordinates) -> (outcome: RevealOutcome)
        requires
            old(self).wf(),
            old(self).spec_tile_map().contains(start),
        ensures
            final(self).wf(),
            *final(self).spec_tile_map() == *old(self).spec_tile_map(),
            final(self).spec_bounds() == old(self).spec_bounds(),
            final(self).spec_tile_size() == old(self).spec_tile_size(),
            final(self).spec_root_handle() == old(self).spec_root_handle(),
            reports(outcome, *old(self).spec_tile_map(), old(self).covered(), start),
            final(self).covered() == covered_after(
                *old(self).spec_tile_map(),
                old(self).covered(),
                start,
            ),
            final(self).covered().submap_of(old(self).covered()),
            !final(self).covered().contains_key(start),
            outcome is NoOp ==> *final(self) == *old(self),
            outcome matches RevealOutcome::Revealed(cells) ==> 1 <= cells@.len() <= old(
                self,
            ).spec_tile_map().spec_width() * old(self).spec_tile_map().spec_height(),
            outcome matches RevealOutcome::Revealed(cells) ==> forall|i: int|
                0 <= i < cells@.len() ==> !(old(self).spec_tile_map().tile_at(
                    (#[trigger] cells@[i]).coordinates,
                ) is Bomb),
    {
        let width = self.tile_map.width();
        let height = self.tile_map.height();
        let i = cell_index(start, width, height);
        match self.covered[i] {
            None => RevealOutcome::NoOp,
            Some(handle) => {
                if self.tile_map.is_bomb_at(start) {
                    self.covered[i] = None;
                    proof {
                        lemma_uncover_slot(width as int, height as int, old(self).covered@, start);
                    }
                    RevealOutcome::BombHit(Uncovered { coordinates: start, handle })
                } else {
                    let cells = flood(&self.tile_map, &mut self.covered, start);
                    proof {
                        let map = *old(self).spec_tile_map();
                        let covered = old(self).covered().dom();
                        lemma_flood_start(map, covered, start);
                        assert forall|i: int| 0 <= i < cells@.len() implies !(map.tile_at(
                            (#[trigger] cells@[i]).coordinates,
                        ) is Bomb) by {
                            lemma_flood_spares_bombs(map, covered, start, cells@[i].coordinates);
                        }
                    }
                    RevealOutcome::Revealed(cells)
                }
            },
        }
    }
}

} // verus!
