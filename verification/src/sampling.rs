use vstd::prelude::*;
use crate::coordinates::{cell_count, lemma_index_cell_at, Coordinates};

verus! {

/// `rand::Rng::gen_range` on the thread's generator, `rand::thread_rng`,
/// over the half-open range from 0 to `bound`: some number below the bound,
/// each as likely as any other. An empty range makes `gen_range` panic, so
/// the bound is positive.
#[verifier::external_body]
fn random_below(bound: usize) -> (pick: usize)
    requires
        bound > 0,
    ensures
        pick < bound,
{
    rand::Rng::gen_range(&mut rand::thread_rng(), 0..bound)
}

/// Draws `count` cells of the grid at random without drawing one twice:
/// each draw takes one of the cells not drawn yet, each as likely as any
/// other.
pub fn sample_cells(width: u16, height: u16, count: u32) -> (cells: Vec<Coordinates>)
    requires
        width > 0,
        count <= width * height,
    ensures
        cells@.len() == count,
        cells@.no_duplicates(),
        forall|i: int|
            0 <= i < cells@.len() ==> (#[trigger] cells@[i]).within(width as int, height as int),
{
    let n: u32 = cell_count(width, height);
    let mut free: Vec<u32> = Vec::new();
    let mut i: u32 = 0;
    while i < n
        invariant
            i <= n,
            free.len() == i,
            forall|a: int| 0 <= a < i ==> free[a] == a,
        decreases n - i,
    {
        free.push(i);
        i += 1;
    }
    let mut cells: Vec<Coordinates> = Vec::new();
    let mut k: u32 = 0;
    while k < count
        invariant
            k <= count <= n,
            n == width * height,
            width > 0,
            free.len() == n - k,
            cells.len() == k,
            forall|a: int| 0 <= a < free.len() ==> #[trigger] free[a] < n,
            forall|a: int, b: int| 0 <= a < b < free.len() ==> free[a] != free[b],
            forall|j: int|
                0 <= j < cells.len() ==> (#[trigger] cells[j]).within(width as int, height as int),
            forall|a: int, j: int|
                0 <= a < free.len() && 0 <= j < cells.len() ==> #[trigger] free[a] != (
                #[trigger] cells[j]).index(width as int),
            forall|i: int, j: int|
                0 <= i < j < cells.len() ==> cells[i].index(width as int) != cells[j].index(
                    width as int,
                ),
        decreases count - k,
    {
        let pick = random_below(free.len());
        let position: u32 = free.swap_remove(pick);
        proof {
            lemma_index_cell_at(position as int, width as int, height as int);
        }
        let c = Coordinates {
            x: (position % width as u32) as u16,
            y: (position / width as u32) as u16,
        };
        cells.push(c);
        k += 1;
    }
    proof {
        assert forall|i: int, j: int|
            0 <= i < cells@.len() && 0 <= j < cells@.len() && i != j implies cells@[i]
            != cells@[j] by {
            if i < j {
                assert(cells[i].index(width as int) != cells[j].index(width as int));
            } else {
                assert(cells[j].index(width as int) != cells[i].index(width as int));
            }
        }
    }
    cells
}

} // verus!
