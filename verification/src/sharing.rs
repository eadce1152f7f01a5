//! How a render server shares an image's rows between its clients and
//! itself: each of the `clients + 1` workers gets `ceil(height / (clients +
//! 1))` consecutive rows, the clients first and the server last.
use vstd::prelude::*;
use vstd::arithmetic::div_mod::lemma_fundamental_div_mod;
use crate::render::{ceil_div, min_nat};
use crate::image::{flatten, lemma_flatten_index, lemma_rgb_bytes, pixel_at, rgb_bytes, Rgb};

verus! {

/// Rows `start..end` of the image.
#[derive(Clone, Copy, Debug, PartialEq, Eq, Structural)]
pub struct RowRange {
    pub start: usize,
    pub end: usize,
}

/// The rows that client `index` renders, if any.
pub open spec fn client_rows_of(index: nat, rows_per: nat, height: nat) -> Option<RowRange> {
    let start = index * rows_per;
    let end = min_nat((index + 1) * rows_per, height);
    if start < end {
        Some(RowRange { start: start as usize, end: end as usize })
    } else {
        None
    }
}

/// The rows that the server keeps for itself, if any.
pub open spec fn server_rows_of(clients: nat, rows_per: nat, height: nat) -> Option<RowRange> {
    let start = clients * rows_per;
    if start < height {
        Some(RowRange { start: start as usize, end: height as usize })
    } else {
        None
    }
}

pub open spec fn range_holds(r: Option<RowRange>, row: nat) -> bool {
    r matches Some(range) && range.start <= row < range.end
}

/// The number of rows that each worker renders.
pub fn rows_per_worker(height: usize, clients: usize) -> (rows_per: usize)
    requires
        clients < usize::MAX,
    ensures
        rows_per == ceil_div(height as nat, (clients + 1) as nat),
{
    let workers = clients + 1;
    proof {
        if workers == 1 {
            assert(height as nat % 1 == 0);
        }
    }
    if height % workers == 0 {
        height / workers
    } else {
        proof {
            assert(workers >= 2);
            assert(height / workers <= height / 2) by (nonlinear_arith)
                requires
                    workers >= 2,
            ;
        }
        height / workers + 1
    }
}

/// The rows of client `index`, where it has any.
pub fn client_rows(index: usize, rows_per: usize, height: usize) -> (r: Option<RowRange>)
    requires
        index < usize::MAX,
        (index + 1) * rows_per <= usize::MAX,
    ensures
        r == client_rows_of(index as nat, rows_per as nat, height as nat),
{
    proof {
        assert(index * rows_per <= (index + 1) * rows_per) by (nonlinear_arith);
    }
    let start = index * rows_per;
    let upper = (index + 1) * rows_per;
    let end = if upper <= height {
        upper
    } else {
        height
    };
    if start < end {
        Some(RowRange { start, end })
    } else {
        None
    }
}

/// The rows that the server renders itself, where it has any.
pub fn server_rows(clients: usize, rows_per: usize, height: usize) -> (r: Option<RowRange>)
    requires
        clients * rows_per <= usize::MAX,
    ensures
        r == server_rows_of(clients as nat, rows_per as nat, height as nat),
{
    let start = clients * rows_per;
    if start < height {
        Some(RowRange { start, end: height })
    } else {
        None
    }
}

/// What pixel `x` of row `j` holds once a client's pixels for `rows` are
/// written over `prior`: pixel `(j - start) * width + x` of them where that
/// exists, else `prior`.
pub open spec fn placed<T>(prior: T, pixels: Seq<T>, rows: RowRange, width: usize, j: int, x: int) -> T {
    if rows.start <= j < rows.end && x < width && (j - rows.start) * width + x < pixels.len() {
        pixels[(j - rows.start) * width + x]
    } else {
        prior
    }
}

/// Writes the pixels that a client sent for `rows` into the image, row by
/// row and `width` to a row, until they run out; a pixel past the rows is
/// dropped, and every other pixel of the image keeps its value.
pub fn place_pixels<T: Copy>(image: &mut Vec<Vec<T>>, rows: RowRange, width: usize, pixels: &Vec<T>)
    requires
        rows.start <= rows.end <= old(image)@.len(),
        forall|j: int| rows.start <= j < rows.end ==> (#[trigger] old(image)@[j])@.len() >= width,
    ensures
        final(image)@.len() == old(image)@.len(),
        forall|j: int|
            0 <= j < old(image)@.len() ==> (#[trigger] final(image)@[j])@.len() == old(image)@[j]@.len(),
        forall|j: int, x: int|
            0 <= j < old(image)@.len() && 0 <= x < old(image)@[j]@.len() ==> #[trigger] final(image)@[j]@[x]
                == placed(old(image)@[j]@[x], pixels@, rows, width, j, x),
{
    let ghost before = image@;
    let mut k: usize = 0;
    let mut y: usize = rows.start;
    while y < rows.end
        invariant
            rows.start <= y <= rows.end,
            rows.end <= before.len(),
            forall|j: int| rows.start <= j < rows.end ==> (#[trigger] before[j])@.len() >= width,
            k == (y - rows.start) * width || (k == pixels@.len() && k <= (y - rows.start) * width),
            k <= pixels@.len(),
            image@.len() == before.len(),
            forall|j: int| 0 <= j < before.len() ==> (#[trigger] image@[j])@.len() == before[j]@.len(),
            forall|j: int, x: int|
                0 <= j < before.len() && 0 <= x < before[j]@.len() ==> #[trigger] image@[j]@[x] == if rows.start <= j < y && x < width && (j - rows.start) * width + x
                    < pixels@.len() {
                    pixels@[(j - rows.start) * width + x]
                } else {
                    before[j]@[x]
                },
        decreases rows.end - y,
    {
        let mut x: usize = 0;
        let ghost row_base = (y - rows.start) * width;
        assert(row_base + width == (y + 1 - rows.start) * width) by (nonlinear_arith)
            requires
                row_base == (y - rows.start) * width,
                y >= rows.start,
        ;
        while x < width && k < pixels.len()
            invariant
                rows.start <= y < rows.end,
                rows.end <= before.len(),
                before[y as int]@.len() >= width,
                x <= width,
                row_base == (y - rows.start) * width,
                row_base + width == (y + 1 - rows.start) * width,
                k == row_base + x || (k == pixels@.len() && k <= row_base),
                k <= pixels@.len(),
                image@.len() == before.len(),
                forall|j: int| 0 <= j < before.len() ==> (#[trigger] image@[j])@.len() == before[j]@.len(),
                forall|j: int, x2: int|
                    0 <= j < before.len() && 0 <= x2 < before[j]@.len() ==> #[trigger] image@[j]@[x2] == if rows.start <= j < y && x2 < width && (j - rows.start) * width + x2
                        < pixels@.len() {
                        pixels@[(j - rows.start) * width + x2]
                    } else if j == y && x2 < x && (j - rows.start) * width + x2 < pixels@.len() {
                        pixels@[(j - rows.start) * width + x2]
                    } else {
                        before[j]@[x2]
                    },
            decreases width - x,
        {
            image[y][x] = pixels[k];
            k += 1;
            x += 1;
        }
        y += 1;
    }
}

/// A client's rows reach the server's image intact: where the client
/// renders `rows` at `width` pixels each and sends their bytes, and the
/// server reads back the pixels those bytes describe (no more than the rows
/// hold) and writes them over the image, every pixel of those rows is the
/// one the client rendered.
pub proof fn lemma_client_rows_arrive(
    rendered: Seq<Seq<Rgb>>,
    rows: RowRange,
    width: usize,
    received: Seq<Rgb>,
    prior: Rgb,
    j: int,
    x: int,
)
    requires
        rows.start <= rows.end,
        rendered.len() == rows.end - rows.start,
        forall|r: int| 0 <= r < rendered.len() ==> (#[trigger] rendered[r]).len() == width,
        received.len() == min_nat(
            rgb_bytes(flatten(rendered)).len() / 3,
            ((rows.end - rows.start) * width) as nat,
        ),
        forall|k: int|
            0 <= k < received.len() ==> #[trigger] received[k] == pixel_at(
                rgb_bytes(flatten(rendered)),
                k,
            ),
        rows.start <= j < rows.end,
        0 <= x < width,
    ensures
        placed(prior, received, rows, width, j, x) == rendered[j - rows.start][x],
{
    let px = flatten(rendered);
    lemma_flatten_index(rendered, width as nat);
    lemma_rgb_bytes(px);
    let r = j - rows.start;
    let k = r * width + x;
    assert(k < (rows.end - rows.start) * width) by (nonlinear_arith)
        requires
            k == r * width + x,
            0 <= r < rows.end - rows.start,
            x < width,
    ;
    assert(received.len() == px.len());
    assert(received[k] == px[k]);
}

/// The worker that renders `row`: the client of that index, or the server
/// where the index is past the last client.
pub open spec fn row_owner(row: nat, rows_per: nat) -> nat {
    row / rows_per
}

/// Every row of the image is rendered by exactly one worker: the client
/// `row / rows_per` where there is such a client, else the server.
pub proof fn lemma_rows_shared(height: usize, clients: usize, row: nat, index: nat)
    requires
        clients < usize::MAX,
        row < height,
        index < clients,
    ensures
        ({
            let rows_per = ceil_div(height as nat, (clients + 1) as nat);
            let owner = row_owner(row, rows_per);
            &&& rows_per > 0
            &&& owner < clients ==> range_holds(client_rows_of(owner, rows_per, height as nat), row)
            &&& owner >= clients ==> range_holds(server_rows_of(clients as nat, rows_per, height as nat), row)
            &&& range_holds(client_rows_of(index, rows_per, height as nat), row) ==> index == owner
            &&& range_holds(server_rows_of(clients as nat, rows_per, height as nat), row) ==> owner >= clients
        }),
{
    let rows_per = ceil_div(height as nat, (clients + 1) as nat);
    let w = (clients + 1) as nat;
    assert(rows_per > 0) by {
        if height as nat % w == 0 {
            lemma_fundamental_div_mod(height as int, w as int);
            assert(height as nat / w > 0) by (nonlinear_arith)
                requires
                    height as nat == w * (height as nat / w),
                    height > 0,
                    w > 0,
            ;
        }
    }
    let owner = row_owner(row, rows_per);
    lemma_fundamental_div_mod(row as int, rows_per as int);
    let rem = row % rows_per;
    assert(owner * rows_per <= row < (owner + 1) * rows_per) by (nonlinear_arith)
        requires
            row == rows_per * owner + rem,
            0 <= rem < rows_per,
    ;
    if owner >= clients {
        assert(clients * rows_per <= owner * rows_per) by (nonlinear_arith)
            requires
                owner >= clients,
        ;
    }
    if range_holds(client_rows_of(index, rows_per, height as nat), row) {
        assert(index * rows_per <= row < (index + 1) * rows_per);
        if index < owner {
            assert((index + 1) * rows_per <= owner * rows_per) by (nonlinear_arith)
                requires
                    index + 1 <= owner,
            ;
        }
        if index > owner {
            assert((owner + 1) * rows_per <= index * rows_per) by (nonlinear_arith)
                requires
                    owner + 1 <= index,
            ;
        }
    }
    if range_holds(server_rows_of(clients as nat, rows_per, height as nat), row) {
        if owner < clients {
            assert((owner + 1) * rows_per <= clients * rows_per) by (nonlinear_arith)
                requires
                    owner + 1 <= clients,
            ;
        }
    }
}

} // verus!
