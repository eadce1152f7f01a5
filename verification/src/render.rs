//! How a block of image rows is cut into square tiles for the render
//! workers, and how the rendered tiles are put back together.
use vstd::prelude::*;
use vstd::arithmetic::div_mod::{lemma_fundamental_div_mod, lemma_fundamental_div_mod_converse};

verus! {

/// The side of a tile, in pixels.
pub const TILE_SIZE: usize = 8;

pub open spec fn ceil_div(a: nat, b: nat) -> nat
    recommends
        b > 0,
{
    if a % b == 0 {
        a / b
    } else {
        a / b + 1
    }
}

pub open spec fn min_nat(a: nat, b: nat) -> nat {
    if a <= b {
        a
    } else {
        b
    }
}

pub open spec fn max_nat(a: nat, b: nat) -> nat {
    if a >= b {
        a
    } else {
        b
    }
}

pub open spec fn sub_or_zero(a: nat, b: nat) -> nat {
    if a >= b {
        (a - b) as nat
    } else {
        0
    }
}

/// The rows that a request for `start_row..end_row` of an image `height`
/// rows tall covers: none past the end of the request or of the image.
pub open spec fn rows_in_request(height: nat, start_row: nat, end_row: nat) -> nat {
    min_nat(sub_or_zero(end_row, start_row), sub_or_zero(height, start_row))
}

/// How a request is cut into tiles and shared among worker threads.
#[derive(Clone, Copy, Debug, PartialEq, Eq, Structural)]
pub struct RenderPlan {
    pub total_rows: usize,
    pub tile_rows: usize,
    pub tile_cols: usize,
    pub total_tiles: usize,
    pub threads: usize,
}

/// The plan that the renderer follows: `ceil(rows / 8)` by `ceil(width / 8)`
/// tiles (at least one), and as many threads as the machine offers, but no
/// more than there are rows or tiles, and at least one.
pub open spec fn render_plan(
    width: nat,
    height: nat,
    start_row: nat,
    end_row: nat,
    available_threads: nat,
) -> RenderPlan {
    let total_rows = rows_in_request(height, start_row, end_row);
    let tile_rows = ceil_div(total_rows, 8);
    let tile_cols = ceil_div(width, 8);
    let total_tiles = max_nat(min_nat(tile_rows * tile_cols, usize::MAX as nat), 1);
    let threads = max_nat(
        min_nat(max_nat(min_nat(available_threads, total_rows), 1), total_tiles),
        1,
    );
    RenderPlan {
        total_rows: total_rows as usize,
        tile_rows: tile_rows as usize,
        tile_cols: tile_cols as usize,
        total_tiles: total_tiles as usize,
        threads: threads as usize,
    }
}

/// The pixels of one tile: rows `row_start..row_end`, columns
/// `col_start..col_end`.
#[derive(Clone, Copy, Debug, PartialEq, Eq, Structural)]
pub struct TileBounds {
    pub row_start: usize,
    pub row_end: usize,
    pub col_start: usize,
    pub col_end: usize,
}

/// Tile `index` of a grid `tiles_x` tiles wide, laid over rows
/// `start_row..end_row` and columns `start_col..end_col`, row by row.
pub open spec fn tile_bounds_of(
    index: nat,
    tiles_x: nat,
    start_row: nat,
    end_row: nat,
    start_col: nat,
    end_col: nat,
) -> TileBounds {
    let row_start = start_row + (index / tiles_x) * 8;
    let col_start = start_col + (index % tiles_x) * 8;
    TileBounds {
        row_start: row_start as usize,
        row_end: min_nat(row_start + 8, end_row) as usize,
        col_start: col_start as usize,
        col_end: min_nat(col_start + 8, end_col) as usize,
    }
}

pub open spec fn bounds_hold(b: TileBounds, row: nat, col: nat) -> bool {
    b.row_start <= row < b.row_end && b.col_start <= col < b.col_end
}

/// Whether the last row of tiles ends inside the rows that are rendered;
/// where it does not, the renderer writes past the rows it holds.
pub open spec fn tiles_fit(plan: RenderPlan, start_row: nat, end_row: nat) -> bool {
    min_nat((start_row + plan.tile_rows * 8) as nat, end_row) <= start_row + plan.total_rows
}

/// Plans the rendering of rows `start_row..end_row` of an image `width`
/// pixels wide and `height` rows tall.
pub fn plan_render(
    width: usize,
    height: usize,
    start_row: usize,
    end_row: usize,
    available_threads: usize,
) -> (plan: RenderPlan)
    ensures
        plan == render_plan(
            width as nat,
            height as nat,
            start_row as nat,
            end_row as nat,
            available_threads as nat,
        ),
{
    let requested = end_row.saturating_sub(start_row);
    let in_image = height.saturating_sub(start_row);
    let total_rows = if requested <= in_image {
        requested
    } else {
        in_image
    };
    let tile_rows = if total_rows % TILE_SIZE == 0 {
        total_rows / TILE_SIZE
    } else {
        total_rows / TILE_SIZE + 1
    };
    let tile_cols = if width % TILE_SIZE == 0 {
        width / TILE_SIZE
    } else {
        width / TILE_SIZE + 1
    };
    let product = match tile_rows.checked_mul(tile_cols) {
        Some(p) => p,
        None => usize::MAX,
    };
    let total_tiles = if product >= 1 {
        product
    } else {
        1
    };
    let mut threads = if available_threads <= total_rows {
        available_threads
    } else {
        total_rows
    };
    if threads < 1 {
        threads = 1;
    }
    if threads > total_tiles {
        threads = total_tiles;
    }
    if threads < 1 {
        threads = 1;
    }
    RenderPlan { total_rows, tile_rows, tile_cols, total_tiles, threads }
}

/// Whether the last row of tiles of `plan` ends inside the rendered rows.
pub fn plan_fits(plan: &RenderPlan, start_row: usize, end_row: usize) -> (b: bool)
    ensures
        b == tiles_fit(*plan, start_row as nat, end_row as nat),
{
    let reach = (start_row as u128) + (plan.tile_rows as u128) * 8;
    let last = if reach <= end_row as u128 {
        reach
    } else {
        end_row as u128
    };
    last <= (start_row as u128) + (plan.total_rows as u128)
}

/// The pixels that tile `index` covers.
pub fn tile_bounds(
    index: usize,
    tiles_x: usize,
    start_row: usize,
    end_row: usize,
    start_col: usize,
    end_col: usize,
) -> (b: TileBounds)
    requires
        tiles_x > 0,
        start_row + (index / tiles_x) * 8 + 8 <= usize::MAX,
        start_col + (index % tiles_x) * 8 + 8 <= usize::MAX,
    ensures
        b == tile_bounds_of(
            index as nat,
            tiles_x as nat,
            start_row as nat,
            end_row as nat,
            start_col as nat,
            end_col as nat,
        ),
{
    let tile_x = index % tiles_x;
    let tile_y = index / tiles_x;
    let row_start = start_row + tile_y * TILE_SIZE;
    let col_start = start_col + tile_x * TILE_SIZE;
    let row_end = if row_start + TILE_SIZE <= end_row {
        row_start + TILE_SIZE
    } else {
        end_row
    };
    let col_end = if col_start + TILE_SIZE <= end_col {
        col_start + TILE_SIZE
    } else {
        end_col
    };
    TileBounds { row_start, row_end, col_start, col_end }
}

/// The tile that holds the pixel at `row`, `col`.
pub open spec fn tile_of(plan: RenderPlan, start_row: nat, row: nat, col: nat) -> nat {
    (((row - start_row) / 8) * plan.tile_cols + col / 8) as nat
}

/// The plan's tile `k`, over rows from `start_row` and the whole width.
pub open spec fn plan_tile(
    plan: RenderPlan,
    k: nat,
    start_row: nat,
    end_row: nat,
    width: nat,
) -> TileBounds {
    tile_bounds_of(k, plan.tile_cols as nat, start_row, end_row, 0, width)
}

/// The conditions under which the renderer lays its tiles without fault:
/// some rows and columns to render, tile counts that fit in a `usize`, and
/// a last row of tiles that ends inside the rendered rows.
pub open spec fn plan_is_sound(
    plan: RenderPlan,
    width: nat,
    start_row: nat,
    end_row: nat,
) -> bool {
    &&& width > 0
    &&& plan.total_rows > 0
    &&& plan.tile_rows * plan.tile_cols <= usize::MAX
    &&& start_row + plan.tile_rows * 8 <= usize::MAX
    &&& tiles_fit(plan, start_row, end_row)
}

/// Every tile of the plan is a non-empty block inside the rendered rows and
/// the image's width, and every pixel of those rows lies in exactly one
/// tile.
pub proof fn lemma_tiles_partition(
    width: usize,
    height: usize,
    start_row: usize,
    end_row: usize,
    available_threads: usize,
)
    requires
        plan_is_sound(
            render_plan(width as nat, height as nat, start_row as nat, end_row as nat, available_threads as nat),
            width as nat,
            start_row as nat,
            end_row as nat,
        ),
    ensures
        ({
            let plan = render_plan(width as nat, height as nat, start_row as nat, end_row as nat, available_threads as nat);
            &&& forall|k: nat|
                k < plan.total_tiles ==> {
                    let b = #[trigger] plan_tile(plan, k, start_row as nat, end_row as nat, width as nat);
                    &&& start_row <= b.row_start < b.row_end <= start_row + plan.total_rows
                    &&& b.col_start < b.col_end <= width
                }
            &&& forall|row: nat, col: nat|
                start_row <= row < start_row + plan.total_rows && col < width ==> {
                    &&& #[trigger] tile_of(plan, start_row as nat, row, col) < plan.total_tiles
                    &&& bounds_hold(
                        plan_tile(plan, tile_of(plan, start_row as nat, row, col), start_row as nat, end_row as nat, width as nat),
                        row,
                        col,
                    )
                }
            &&& forall|row: nat, col: nat, k: nat|
                k < plan.total_tiles && #[trigger] bounds_hold(
                    plan_tile(plan, k, start_row as nat, end_row as nat, width as nat),
                    row,
                    col,
                ) ==> k == tile_of(plan, start_row as nat, row, col)
        }),
{
    let plan = render_plan(width as nat, height as nat, start_row as nat, end_row as nat, available_threads as nat);
    let tr = plan.tile_rows as nat;
    let tc = plan.tile_cols as nat;
    let total = plan.total_rows as nat;
    assert(tc > 0);
    assert(tr * tc == plan.total_tiles) by {
        assert(tr > 0);
        assert(tr * tc >= 1) by (nonlinear_arith)
            requires
                tr > 0,
                tc > 0,
        ;
    }
    assert(total <= end_row - start_row);
    assert forall|k: nat| k < plan.total_tiles implies {
        let b = #[trigger] plan_tile(plan, k, start_row as nat, end_row as nat, width as nat);
        &&& start_row <= b.row_start < b.row_end <= start_row + plan.total_rows
        &&& b.col_start < b.col_end <= width
    } by {
        let ty = k / tc;
        let tx = k % tc;
        lemma_fundamental_div_mod(k as int, tc as int);
        assert(ty < tr) by (nonlinear_arith)
            requires
                k == tc * ty + tx,
                0 <= tx,
                k < tr * tc,
                tc > 0,
        ;
        assert(ty * 8 < total) by {
            assert(ty + 1 <= tr);
            assert((ty + 1) * 8 <= tr * 8) by (nonlinear_arith)
                requires
                    ty + 1 <= tr,
            ;
        }
        assert(tx * 8 < width) by {
            assert(tx + 1 <= tc);
        }
        assert(start_row + ty * 8 + 8 <= start_row + tr * 8) by (nonlinear_arith)
            requires
                ty < tr,
        ;
    }
    assert forall|row: nat, col: nat|
        start_row <= row < start_row + plan.total_rows && col < width implies {
        &&& #[trigger] tile_of(plan, start_row as nat, row, col) < plan.total_tiles
        &&& bounds_hold(
            plan_tile(plan, tile_of(plan, start_row as nat, row, col), start_row as nat, end_row as nat, width as nat),
            row,
            col,
        )
    } by {
        let ty = ((row - start_row) / 8) as nat;
        let tx = col / 8;
        let k = tile_of(plan, start_row as nat, row, col);
        assert(tx < tc);
        assert(ty < tr);
        lemma_fundamental_div_mod_converse(k as int, tc as int, ty as int, tx as int);
        assert(k < tr * tc) by (nonlinear_arith)
            requires
                k == ty * tc + tx,
                tx < tc,
                ty < tr,
        ;
    }
    assert forall|row: nat, col: nat, k: nat|
        k < plan.total_tiles && #[trigger] bounds_hold(
            plan_tile(plan, k, start_row as nat, end_row as nat, width as nat),
            row,
            col,
        ) implies k == tile_of(plan, start_row as nat, row, col) by {
        let ty = k / tc;
        let tx = k % tc;
        lemma_fundamental_div_mod(k as int, tc as int);
        assert(ty < tr) by (nonlinear_arith)
            requires
                k == tc * ty + tx,
                0 <= tx,
                k < tr * tc,
                tc > 0,
        ;
        assert(start_row + ty * 8 + 8 <= start_row + tr * 8) by (nonlinear_arith)
            requires
                ty < tr,
        ;
        assert(tx < tc);
        assert(tx * 8 < width) by {
            assert(tx + 1 <= tc);
        }
        assert(ty * 8 <= row - start_row < ty * 8 + 8);
        assert(tx * 8 <= col < tx * 8 + 8);
        assert(((row - start_row) / 8) as nat == ty);
        assert(col / 8 == tx);
        assert(k == ty * tc + tx) by (nonlinear_arith)
            requires
                k == tc * ty + tx,
        ;
    }
}

/// A rendered tile: its first row and column in the image, and its pixels.
pub struct Tile<T> {
    pub start_row: usize,
    pub start_col: usize,
    pub data: Vec<Vec<T>>,
}

/// Whether `t` covers the pixel at `row`, `col` of the image.
pub open spec fn tile_covers<T>(t: Tile<T>, row: nat, col: nat) -> bool {
    &&& t.start_row <= row < t.start_row + t.data@.len()
    &&& t.start_col <= col < t.start_col + t.data@[row - t.start_row]@.len()
}

/// The pixel that `t` holds for `row`, `col` of the image.
pub open spec fn tile_pixel<T>(t: Tile<T>, row: nat, col: nat) -> T {
    t.data@[row - t.start_row]@[col - t.start_col]
}

/// What the image holds at `row`, `col` once the tiles have been written
/// into it in order over `fill`: the pixel of the last tile that covers it.
pub open spec fn painted<T>(tiles: Seq<Tile<T>>, row: nat, col: nat, fill: T) -> T
    decreases tiles.len(),
{
    if tiles.len() == 0 {
        fill
    } else if tile_covers(tiles.last(), row, col) {
        tile_pixel(tiles.last(), row, col)
    } else {
        painted(tiles.drop_last(), row, col, fill)
    }
}

/// A tile that lies within rows `start_row..start_row + total_rows` and
/// columns `0..width`.
pub open spec fn tile_inside<T>(t: Tile<T>, start_row: nat, total_rows: nat, width: nat) -> bool {
    &&& start_row <= t.start_row
    &&& t.start_row + t.data@.len() <= start_row + total_rows
    &&& forall|dy: int|
        0 <= dy < t.data@.len() ==> t.start_col + (#[trigger] t.data@[dy])@.len() <= width
}

/// `t` is a rendered tile for the pixels of `b`.
pub open spec fn tile_matches<T>(t: Tile<T>, b: TileBounds) -> bool {
    &&& t.start_row == b.row_start
    &&& t.start_col == b.col_start
    &&& t.data@.len() == b.row_end - b.row_start
    &&& forall|dy: int|
        0 <= dy < t.data@.len() ==> (#[trigger] t.data@[dy])@.len() == b.col_end - b.col_start
}

/// `tiles` are the rendered tiles of the plan, in tile order.
pub open spec fn tiles_of_plan<T>(
    tiles: Seq<Tile<T>>,
    plan: RenderPlan,
    start_row: nat,
    end_row: nat,
    width: nat,
) -> bool {
    &&& tiles.len() == plan.total_tiles
    &&& forall|k: int|
        0 <= k < tiles.len() ==> tile_matches(
            #[trigger] tiles[k],
            plan_tile(plan, k as nat, start_row, end_row, width),
        )
}

proof fn lemma_painted_prefix<T>(
    tiles: Seq<Tile<T>>,
    width: usize,
    height: usize,
    start_row: usize,
    end_row: usize,
    available_threads: usize,
    row: nat,
    col: nat,
    fill: T,
    n: nat,
)
    requires
        plan_is_sound(
            render_plan(width as nat, height as nat, start_row as nat, end_row as nat, available_threads as nat),
            width as nat,
            start_row as nat,
            end_row as nat,
        ),
        tiles_of_plan(
            tiles,
            render_plan(width as nat, height as nat, start_row as nat, end_row as nat, available_threads as nat),
            start_row as nat,
            end_row as nat,
            width as nat,
        ),
        start_row <= row < start_row + render_plan(width as nat, height as nat, start_row as nat, end_row as nat, available_threads as nat).total_rows,
        col < width,
        n <= tiles.len(),
    ensures
        ({
            let plan = render_plan(width as nat, height as nat, start_row as nat, end_row as nat, available_threads as nat);
            let k = tile_of(plan, start_row as nat, row, col);
            painted(tiles.take(n as int), row, col, fill) == if k < n {
                tile_pixel(tiles[k as int], row, col)
            } else {
                fill
            }
        }),
    decreases n,
{
    let plan = render_plan(width as nat, height as nat, start_row as nat, end_row as nat, available_threads as nat);
    lemma_tiles_partition(width, height, start_row, end_row, available_threads);
    let k = tile_of(plan, start_row as nat, row, col);
    if n > 0 {
        lemma_painted_prefix(tiles, width, height, start_row, end_row, available_threads, row, col, fill, (n - 1) as nat);
        let pre = tiles.take(n as int);
        assert(pre.drop_last() =~= tiles.take(n - 1));
        let t = tiles[n - 1];
        assert(pre.last() == t);
        let b = plan_tile(plan, (n - 1) as nat, start_row as nat, end_row as nat, width as nat);
        assert(tile_matches(t, b));
        if tile_covers(t, row, col) {
            assert(t.data@[row - t.start_row]@.len() == b.col_end - b.col_start);
            assert(bounds_hold(b, row, col));
            assert((n - 1) as nat == k);
        } else {
            if (n - 1) as nat == k {
                assert(bounds_hold(b, row, col));
                assert(t.data@[row - t.start_row]@.len() == b.col_end - b.col_start);
                assert(false);
            }
        }
    } else {
        assert(tiles.take(0) =~= Seq::<Tile<T>>::empty());
    }
}

/// Once the plan's tiles are put together, every pixel of the rendered rows
/// is the pixel that the one tile holding it rendered, and the tiles lie
/// where the assembling asks them to.
pub proof fn lemma_assembled_pixel<T>(
    tiles: Seq<Tile<T>>,
    width: usize,
    height: usize,
    start_row: usize,
    end_row: usize,
    available_threads: usize,
    row: nat,
    col: nat,
    fill: T,
)
    requires
        plan_is_sound(
            render_plan(width as nat, height as nat, start_row as nat, end_row as nat, available_threads as nat),
            width as nat,
            start_row as nat,
            end_row as nat,
        ),
        tiles_of_plan(
            tiles,
            render_plan(width as nat, height as nat, start_row as nat, end_row as nat, available_threads as nat),
            start_row as nat,
            end_row as nat,
            width as nat,
        ),
        start_row <= row < start_row + render_plan(width as nat, height as nat, start_row as nat, end_row as nat, available_threads as nat).total_rows,
        col < width,
    ensures
        ({
            let plan = render_plan(width as nat, height as nat, start_row as nat, end_row as nat, available_threads as nat);
            let k = tile_of(plan, start_row as nat, row, col);
            &&& k < tiles.len()
            &&& painted(tiles, row, col, fill) == tile_pixel(tiles[k as int], row, col)
        }),
{
    let plan = render_plan(width as nat, height as nat, start_row as nat, end_row as nat, available_threads as nat);
    lemma_tiles_partition(width, height, start_row, end_row, available_threads);
    lemma_painted_prefix(tiles, width, height, start_row, end_row, available_threads, row, col, fill, tiles.len());
    assert(tiles.take(tiles.len() as int) =~= tiles);
}

/// The plan's tiles all lie inside the rows and width that the assembling
/// builds.
pub proof fn lemma_plan_tiles_inside<T>(
    tiles: Seq<Tile<T>>,
    width: usize,
    height: usize,
    start_row: usize,
    end_row: usize,
    available_threads: usize,
)
    requires
        plan_is_sound(
            render_plan(width as nat, height as nat, start_row as nat, end_row as nat, available_threads as nat),
            width as nat,
            start_row as nat,
            end_row as nat,
        ),
        tiles_of_plan(
            tiles,
            render_plan(width as nat, height as nat, start_row as nat, end_row as nat, available_threads as nat),
            start_row as nat,
            end_row as nat,
            width as nat,
        ),
    ensures
        forall|k: int|
            0 <= k < tiles.len() ==> tile_inside(
                #[trigger] tiles[k],
                start_row as nat,
                render_plan(width as nat, height as nat, start_row as nat, end_row as nat, available_threads as nat).total_rows as nat,
                width as nat,
            ),
{
    let plan = render_plan(width as nat, height as nat, start_row as nat, end_row as nat, available_threads as nat);
    lemma_tiles_partition(width, height, start_row, end_row, available_threads);
    assert forall|k: int| 0 <= k < tiles.len() implies tile_inside(
        #[trigger] tiles[k],
        start_row as nat,
        plan.total_rows as nat,
        width as nat,
    ) by {
        let b = plan_tile(plan, k as nat, start_row as nat, end_row as nat, width as nat);
        assert(tile_matches(tiles[k], b));
    }
}

/// Puts rendered tiles, in order, into an image of `total_rows` rows of
/// `width` pixels that starts at row `start_row`; pixels that no tile
/// covers keep `fill`.
pub fn assemble_tiles<T: Copy>(
    tiles: &Vec<Tile<T>>,
    start_row: usize,
    total_rows: usize,
    width: usize,
    fill: T,
) -> (image: Vec<Vec<T>>)
    requires
        forall|k: int|
            0 <= k < tiles@.len() ==> tile_inside(
                #[trigger] tiles@[k],
                start_row as nat,
                total_rows as nat,
                width as nat,
            ),
    ensures
        image@.len() == total_rows,
        forall|y: int| 0 <= y < total_rows ==> (#[trigger] image@[y])@.len() == width,
        forall|y: int, x: int|
            0 <= y < total_rows && 0 <= x < width ==> #[trigger] image@[y]@[x] == painted(
                tiles@,
                (start_row + y) as nat,
                x as nat,
                fill,
            ),
{
    let mut image: Vec<Vec<T>> = Vec::new();
    let mut y: usize = 0;
    while y < total_rows
        invariant
            y <= total_rows,
            image@.len() == y,
            forall|j: int| 0 <= j < y ==> (#[trigger] image@[j])@.len() == width,
            forall|j: int, x: int|
                0 <= j < y && 0 <= x < width ==> #[trigger] image@[j]@[x] == fill,
        decreases total_rows - y,
    {
        let mut row: Vec<T> = Vec::new();
        let mut x: usize = 0;
        while x < width
            invariant
                x <= width,
                row@.len() == x,
                forall|i: int| 0 <= i < x ==> row@[i] == fill,
            decreases width - x,
        {
            row.push(fill);
            x += 1;
        }
        image.push(row);
        y += 1;
    }
    assert(tiles@.take(0) =~= Seq::<Tile<T>>::empty());
    let mut k: usize = 0;
    while k < tiles.len()
        invariant
            k <= tiles@.len(),
            forall|j: int|
                0 <= j < tiles@.len() ==> tile_inside(
                    #[trigger] tiles@[j],
                    start_row as nat,
                    total_rows as nat,
                    width as nat,
                ),
            image@.len() == total_rows,
            forall|j: int| 0 <= j < total_rows ==> (#[trigger] image@[j])@.len() == width,
            forall|j: int, x: int|
                0 <= j < total_rows && 0 <= x < width ==> #[trigger] image@[j]@[x] == painted(
                    tiles@.take(k as int),
                    (start_row + j) as nat,
                    x as nat,
                    fill,
                ),
        decreases tiles@.len() - k,
    {
        let tile = &tiles[k];
        assert(tile_inside(tiles@[k as int], start_row as nat, total_rows as nat, width as nat));
        let ghost before = tiles@.take(k as int);
        assert(tiles@.take(k + 1).drop_last() =~= before);
        assert(tiles@.take(k + 1).last() == *tile);
        let base = tile.start_row - start_row;
        let mut dy: usize = 0;
        while dy < tile.data.len()
            invariant
                dy <= tile.data@.len(),
                tile_inside(*tile, start_row as nat, total_rows as nat, width as nat),
                base == tile.start_row - start_row,
                image@.len() == total_rows,
                forall|j: int| 0 <= j < total_rows ==> (#[trigger] image@[j])@.len() == width,
                forall|j: int, x: int|
                    0 <= j < total_rows && 0 <= x < width ==> #[trigger] image@[j]@[x] == (
                    if tile_covers(*tile, (start_row + j) as nat, x as nat) && j < base + dy {
                        tile_pixel(*tile, (start_row + j) as nat, x as nat)
                    } else {
                        painted(before, (start_row + j) as nat, x as nat, fill)
                    }),
            decreases tile.data@.len() - dy,
        {
            let src = &tile.data[dy];
            assert(tile.start_col + src@.len() <= width);
            let target = base + dy;
            let mut dx: usize = 0;
            while dx < src.len()
                invariant
                    dx <= src@.len(),
                    src == tile.data@[dy as int],
                    tile.start_col + src@.len() <= width,
                    target == base + dy,
                    target < total_rows,
                    dy < tile.data@.len(),
                    tile_inside(*tile, start_row as nat, total_rows as nat, width as nat),
                    base == tile.start_row - start_row,
                    image@.len() == total_rows,
                    forall|j: int| 0 <= j < total_rows ==> (#[trigger] image@[j])@.len() == width,
                    forall|j: int, x: int|
                        0 <= j < total_rows && 0 <= x < width ==> #[trigger] image@[j]@[x] == (
                        if tile_covers(*tile, (start_row + j) as nat, x as nat) && (j < target || (
                        j == target && x < tile.start_col + dx)) {
                            tile_pixel(*tile, (start_row + j) as nat, x as nat)
                        } else {
                            painted(before, (start_row + j) as nat, x as nat, fill)
                        }),
                decreases src@.len() - dx,
            {
                let col = tile.start_col + dx;
                image[target][col] = src[dx];
                dx += 1;
            }
            dy += 1;
        }
        k += 1;
    }
    assert(tiles@.take(tiles@.len() as int) =~= tiles@);
    image
}

} // verus!
