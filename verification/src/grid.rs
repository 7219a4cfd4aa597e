//! Composition of a multi-map: the rendered maps of each grid row are joined into one
//! image per row, and the rows into the final image.
use vstd::prelude::*;
use crate::json::reversed;
use crate::raster::{Img, Raster, canvas_fits, max_nat, placed_right, placed_below};
use crate::text::owned;

verus! {

/// Where the next image goes relative to what has been composed so far.
#[derive(Clone, Copy, PartialEq, Eq, Structural, Debug)]
pub enum Direction {
    /// `"right"`: beside it.
    Right,
    /// `"bottom"`: below it.
    Bottom,
    /// Any other word.
    Other,
}

/// The direction a word of a request names.
pub open spec fn direction_of(word: Seq<char>) -> Direction {
    if word == "right"@ {
        Direction::Right
    } else if word == "bottom"@ {
        Direction::Bottom
    } else {
        Direction::Other
    }
}

/// The direction a word of a request names.
pub fn parse_direction(word: &str) -> (d: Direction)
    ensures
        d == direction_of(word@),
{
    let w = owned(word);
    if w == owned("right") {
        Direction::Right
    } else if w == owned("bottom") {
        Direction::Bottom
    } else {
        Direction::Other
    }
}

/// A rendered map of a grid row, with the direction its request gave.
pub struct GridCell {
    pub direction: String,
    pub image: Raster,
}

/// The rendered maps of a grid row, with the direction the row's request gave.
pub struct GridRowImages {
    pub direction: String,
    pub cells: Vec<GridCell>,
}

/// Why a multi-map could not be composed.
#[derive(Debug, PartialEq, Eq, Structural)]
pub enum GridError {
    /// Every row of the grid is empty.
    NoMaps,
}

impl GridError {
    /// The message the server answers with.
    pub fn message(&self) -> (m: String)
        ensures
            m@ == "no maps to render"@,
    {
        owned("no maps to render")
    }
}

/// The directions and images of the cells of a row.
pub open spec fn cell_steps(cells: Seq<GridCell>) -> Seq<(Direction, Img)> {
    Seq::new(cells.len(), |i: int| (direction_of(cells[i].direction@), cells[i].image@))
}

/// One step within a row: beside, below, or, for any other word, the new map takes the
/// place of everything before it in the row.
pub open spec fn row_step(d: Direction, acc: Img, next: Img) -> Img {
    match d {
        Direction::Right => placed_right(acc, next),
        Direction::Bottom => placed_below(acc, next),
        Direction::Other => next,
    }
}

/// One step across rows: beside, below, or, for any other word, the row is left out.
pub open spec fn grid_step(d: Direction, acc: Img, next: Img) -> Img {
    match d {
        Direction::Right => placed_right(acc, next),
        Direction::Bottom => placed_below(acc, next),
        Direction::Other => acc,
    }
}

/// `true` when the canvas of a step can be allocated.
pub open spec fn step_fits(d: Direction, acc: Img, next: Img) -> bool {
    match d {
        Direction::Right => canvas_fits(acc.width + next.width, max_nat(acc.height, next.height)),
        Direction::Bottom => canvas_fits(max_nat(acc.width, next.width), acc.height + next.height),
        Direction::Other => true,
    }
}

/// The image of a row: `None` for an empty row; the first map's direction is not read.
pub open spec fn row_image(steps: Seq<(Direction, Img)>) -> Option<Img>
    decreases steps.len(),
{
    if steps.len() == 0 {
        None
    } else {
        match row_image(steps.drop_last()) {
            None => Some(steps.last().1),
            Some(acc) => Some(row_step(steps.last().0, acc, steps.last().1)),
        }
    }
}

/// `true` when every canvas a row needs can be allocated.
pub open spec fn row_fits(steps: Seq<(Direction, Img)>) -> bool {
    forall|k: int|
        1 <= k < steps.len() ==> match #[trigger] row_image(steps.take(k)) {
            Some(acc) => step_fits(steps[k].0, acc, steps[k].1),
            None => true,
        }
}

/// The images of the non-empty rows, each with its row's direction.
pub open spec fn row_results(rows: Seq<GridRowImages>) -> Seq<(Direction, Img)>
    decreases rows.len(),
{
    if rows.len() == 0 {
        Seq::empty()
    } else {
        let before = row_results(rows.drop_last());
        match row_image(cell_steps(rows.last().cells@)) {
            Some(img) => before.push((direction_of(rows.last().direction@), img)),
            None => before,
        }
    }
}

/// The rows joined: the first row's image, then each further row by its direction. The
/// first row's direction is not read.
pub open spec fn stacked(results: Seq<(Direction, Img)>) -> Img
    decreases results.len(),
{
    if results.len() <= 1 {
        results[0].1
    } else {
        grid_step(results.last().0, stacked(results.drop_last()), results.last().1)
    }
}

/// `true` when every canvas the joining of the rows needs can be allocated.
pub open spec fn stack_fits(results: Seq<(Direction, Img)>) -> bool {
    forall|k: int|
        1 <= k < results.len() ==> step_fits(
            results[k].0,
            #[trigger] stacked(results.take(k)),
            results[k].1,
        )
}

/// `true` when every canvas the composition of the grid needs can be allocated.
pub open spec fn grid_fits(rows: Seq<GridRowImages>) -> bool {
    &&& forall|i: int| 0 <= i < rows.len() ==> row_fits(cell_steps(#[trigger] rows[i].cells@))
    &&& stack_fits(row_results(rows))
}

/// The composed image of a grid, or `None` where no row holds a map.
pub open spec fn composed(rows: Seq<GridRowImages>) -> Option<Img> {
    let results = row_results(rows);
    if results.len() == 0 {
        None
    } else {
        Some(stacked(results))
    }
}

/// Whether a canvas of the given size can be allocated.
pub fn canvas_fits_exec(width: u64, height: u64) -> (b: bool)
    ensures
        b == canvas_fits(width as nat, height as nat),
{
    if width > u32::MAX as u64 || height > u32::MAX as u64 {
        return false;
    }
    proof {
        crate::raster::lemma_area_bound(width as u32, height as u32);
    }
    let area: u128 = (width as u128) * (height as u128) * 4;
    area <= isize::MAX as u128
}

/// The size after one step, and whether its canvas can be allocated; `acc` and `next`
/// are the sizes of the images joined.
fn step_size(
    d: Direction,
    within_row: bool,
    acc: (u64, u64),
    next: (u64, u64),
    Ghost(a): Ghost<Img>,
    Ghost(b): Ghost<Img>,
) -> (r: (bool, u64, u64))
    requires
        acc.0 <= u32::MAX,
        acc.1 <= u32::MAX,
        next.0 <= u32::MAX,
        next.1 <= u32::MAX,
        a.width == acc.0,
        a.height == acc.1,
        b.width == next.0,
        b.height == next.1,
    ensures
        r.0 == step_fits(d, a, b),
        r.0 && within_row ==> r.1 == row_step(d, a, b).width && r.2 == row_step(d, a, b).height,
        r.0 && !within_row ==> r.1 == grid_step(d, a, b).width && r.2 == grid_step(d, a, b).height,
        r.0 ==> r.1 <= u32::MAX && r.2 <= u32::MAX,
{
    match d {
        Direction::Right => {
            let w = acc.0 + next.0;
            let h = if acc.1 >= next.1 { acc.1 } else { next.1 };
            (canvas_fits_exec(w, h), w, h)
        },
        Direction::Bottom => {
            let w = if acc.0 >= next.0 { acc.0 } else { next.0 };
            let h = acc.1 + next.1;
            (canvas_fits_exec(w, h), w, h)
        },
        Direction::Other => if within_row {
            (true, next.0, next.1)
        } else {
            (true, acc.0, acc.1)
        },
    }
}

/// Whether every canvas a row needs can be allocated, and the size of the row's image.
fn row_size(cells: &Vec<GridCell>) -> (r: (bool, Option<(u64, u64)>))
    ensures
        r.0 == row_fits(cell_steps(cells@)),
        r.0 ==> (r.1 is Some <==> row_image(cell_steps(cells@)) is Some),
        r.0 ==> (r.1 matches Some((w, h)) ==> (row_image(cell_steps(cells@)) matches Some(img)
            && img.width == w && img.height == h)),
        r.0 ==> (r.1 matches Some((w, h)) ==> w <= u32::MAX && h <= u32::MAX),
{
    let ghost steps = cell_steps(cells@);
    let mut acc: Option<(u64, u64)> = None;
    let mut k: usize = 0;
    assert(steps.take(0) =~= Seq::<(Direction, Img)>::empty());
    while k < cells.len()
        invariant
            steps == cell_steps(cells@),
            k <= cells.len(),
            acc is Some <==> row_image(steps.take(k as int)) is Some,
            acc matches Some((w, h)) ==> (row_image(steps.take(k as int)) matches Some(img)
                && img.width == w && img.height == h && w <= u32::MAX && h <= u32::MAX),
            forall|j: int|
                1 <= j < k ==> match #[trigger] row_image(steps.take(j)) {
                    Some(a) => step_fits(steps[j].0, a, steps[j].1),
                    None => true,
                },
        decreases cells.len() - k,
    {
        let cell = &cells[k];
        let d = parse_direction(cell.direction.as_str());
        let next = (cell.image.width() as u64, cell.image.height() as u64);
        assert(steps.take(k + 1).drop_last() =~= steps.take(k as int));
        assert(steps.take(k + 1).last() == steps[k as int]);
        match acc {
            None => {
                acc = Some(next);
            },
            Some(a) => {
                let ghost prev = row_image(steps.take(k as int)).unwrap();
                let (fits, w, h) = step_size(d, true, a, next, Ghost(prev), Ghost(steps[k as int].1));
                if !fits {
                    assert(row_image(steps.take(k as int)) is Some);
                    return (false, None);
                }
                acc = Some((w, h));
            },
        }
        k = k + 1;
    }
    assert(steps.take(cells.len() as int) =~= steps);
    (true, acc)
}

/// Whether every canvas the composition of a grid needs can be allocated (the
/// precondition of `compose_grid`).
pub fn grid_fits_exec(grid: &Vec<GridRowImages>) -> (b: bool)
    ensures
        b == grid_fits(grid@),
{
    let ghost orig = grid@;
    let mut sizes: Vec<(Direction, u64, u64)> = Vec::new();
    let mut i: usize = 0;
    assert(orig.take(0) =~= Seq::<GridRowImages>::empty());
    while i < grid.len()
        invariant
            orig == grid@,
            i <= grid.len(),
            forall|j: int| 0 <= j < i ==> row_fits(cell_steps(#[trigger] orig[j].cells@)),
            sizes@.len() == row_results(orig.take(i as int)).len(),
            forall|j: int|
                0 <= j < sizes@.len() ==> {
                    let e = row_results(orig.take(i as int))[j];
                    &&& (#[trigger] sizes@[j]).0 == e.0
                    &&& sizes@[j].1 == e.1.width
                    &&& sizes@[j].2 == e.1.height
                    &&& sizes@[j].1 <= u32::MAX
                    &&& sizes@[j].2 <= u32::MAX
                },
        decreases grid.len() - i,
    {
        let row = &grid[i];
        assert(orig.take(i + 1).drop_last() =~= orig.take(i as int));
        assert(orig.take(i + 1).last() == orig[i as int]);
        let (fits, size) = row_size(&row.cells);
        if !fits {
            return false;
        }
        match size {
            Some((w, h)) => {
                let d = parse_direction(row.direction.as_str());
                sizes.push((d, w, h));
            },
            None => {},
        }
        i = i + 1;
    }
    assert(orig.take(grid.len() as int) =~= orig);
    let ghost all = row_results(orig);
    if sizes.len() == 0 {
        return true;
    }
    let mut acc: (u64, u64) = (sizes[0].1, sizes[0].2);
    let mut k: usize = 1;
    assert(all.take(1).len() == 1);
    while k < sizes.len()
        invariant
            orig == grid@,
            all == row_results(orig),
            sizes@.len() == all.len(),
            forall|j: int|
                0 <= j < sizes@.len() ==> {
                    &&& (#[trigger] sizes@[j]).0 == all[j].0
                    &&& sizes@[j].1 == all[j].1.width
                    &&& sizes@[j].2 == all[j].1.height
                    &&& sizes@[j].1 <= u32::MAX
                    &&& sizes@[j].2 <= u32::MAX
                },
            1 <= k <= sizes.len(),
            acc.0 == stacked(all.take(k as int)).width,
            acc.1 == stacked(all.take(k as int)).height,
            acc.0 <= u32::MAX,
            acc.1 <= u32::MAX,
            forall|j: int|
                1 <= j < k ==> step_fits(all[j].0, #[trigger] stacked(all.take(j)), all[j].1),
        decreases sizes.len() - k,
    {
        let (d, w, h) = sizes[k];
        assert(all.take(k + 1).drop_last() =~= all.take(k as int));
        assert(all.take(k + 1).last() == all[k as int]);
        let (fits, nw, nh) = step_size(
            d,
            false,
            acc,
            (w, h),
            Ghost(stacked(all.take(k as int))),
            Ghost(all[k as int].1),
        );
        if !fits {
            assert(!step_fits(all[k as int].0, stacked(all.take(k as int)), all[k as int].1));
            assert(!stack_fits(all));
            return false;
        }
        acc = (nw, nh);
        k = k + 1;
    }
    true
}

/// Applies one step of either kind.
fn apply_step(d: Direction, acc: Raster, next: Raster, within_row: bool) -> (r: Raster)
    requires
        step_fits(d, acc@, next@),
    ensures
        within_row ==> r@ == row_step(d, acc@, next@),
        !within_row ==> r@ == grid_step(d, acc@, next@),
{
    match d {
        Direction::Right => Raster::place_right(&acc, &next),
        Direction::Bottom => Raster::place_below(&acc, &next),
        Direction::Other => if within_row {
            next
        } else {
            acc
        },
    }
}

/// The image of a row of rendered maps.
pub fn compose_row(cells: Vec<GridCell>) -> (r: Option<Raster>)
    requires
        row_fits(cell_steps(cells@)),
    ensures
        r is Some <==> row_image(cell_steps(cells@)) is Some,
        r matches Some(img) ==> row_image(cell_steps(cells@)) == Some(img@),
{
    let ghost steps = cell_steps(cells@);
    let n = cells.len();
    let mut rest = reversed(cells);
    let mut acc: Option<Raster> = None;
    assert(steps.take(0) =~= Seq::<(Direction, Img)>::empty());
    while rest.len() > 0
        invariant
            n == steps.len(),
            rest.len() <= n,
            forall|j: int|
                0 <= j < rest.len() ==> (direction_of((#[trigger] rest@[j]).direction@), rest@[j].image@)
                    == steps[n - 1 - j],
            row_fits(steps),
            acc is Some <==> row_image(steps.take(n - rest.len())) is Some,
            acc matches Some(a) ==> row_image(steps.take(n - rest.len())) == Some(a@),
        decreases rest.len(),
    {
        let k = n - rest.len();
        let cell = rest.pop().unwrap();
        let d = parse_direction(cell.direction.as_str());
        assert(steps.take(k + 1).drop_last() =~= steps.take(k as int));
        assert(steps.take(k + 1).last() == steps[k as int]);
        acc = match acc {
            None => Some(cell.image),
            Some(a) => {
                assert(row_image(steps.take(k as int)) is Some);
                Some(apply_step(d, a, cell.image, true))
            },
        };
    }
    assert(steps.take(n as int) =~= steps);
    acc
}

/// The final image of a multi-map: each row's maps joined by their directions, then the
/// rows joined by theirs. Fails with `NoMaps` where every row is empty.
pub fn compose_grid(grid: Vec<GridRowImages>) -> (r: Result<Raster, GridError>)
    requires
        grid_fits(grid@),
    ensures
        r is Err <==> composed(grid@) is None,
        r matches Err(e) ==> e == GridError::NoMaps,
        r matches Ok(img) ==> composed(grid@) == Some(img@),
{
    let ghost orig = grid@;
    let n = grid.len();
    let mut rows = reversed(grid);
    let mut results: Vec<(Direction, Raster)> = Vec::new();
    assert(orig.take(0) =~= Seq::<GridRowImages>::empty());
    while rows.len() > 0
        invariant
            n == orig.len(),
            rows.len() <= n,
            forall|j: int| 0 <= j < rows.len() ==> #[trigger] rows@[j] == orig[n - 1 - j],
            forall|i: int| 0 <= i < orig.len() ==> row_fits(cell_steps(#[trigger] orig[i].cells@)),
            results@.len() == row_results(orig.take(n - rows.len())).len(),
            forall|j: int|
                0 <= j < results@.len() ==> ((#[trigger] results@[j]).0, results@[j].1@) == row_results(
                    orig.take(n - rows.len()),
                )[j],
        decreases rows.len(),
    {
        let k = n - rows.len();
        let row = rows.pop().unwrap();
        assert(row == orig[k as int]);
        assert(orig.take(k + 1).drop_last() =~= orig.take(k as int));
        let d = parse_direction(row.direction.as_str());
        let image = compose_row(row.cells);
        match image {
            Some(img) => {
                results.push((d, img));
            },
            None => {},
        }
    }
    assert(orig.take(n as int) =~= orig);
    let ghost all = row_results(orig);
    if results.len() == 0 {
        return Err(GridError::NoMaps);
    }
    let m = results.len();
    let mut rest = reversed(results);
    let (_, first) = rest.pop().unwrap();
    let mut acc = first;
    assert(all.take(1).len() == 1);
    while rest.len() > 0
        invariant
            m == all.len(),
            1 <= m,
            rest.len() < m,
            forall|j: int|
                0 <= j < rest.len() ==> ((#[trigger] rest@[j]).0, rest@[j].1@) == all[m - 1 - j],
            stack_fits(all),
            acc@ == stacked(all.take(m - rest.len())),
        decreases rest.len(),
    {
        let k = m - rest.len();
        let (d, img) = rest.pop().unwrap();
        assert(all.take(k + 1).drop_last() =~= all.take(k as int));
        assert(all.take(k + 1).last() == all[k as int]);
        acc = apply_step(d, acc, img, false);
    }
    assert(all.take(m as int) =~= all);
    Ok(acc)
}

} // verus!
