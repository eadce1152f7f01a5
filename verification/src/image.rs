//! Images of 8-bit pixels: the plain-text PPM (`P3`) file, and the raw
//! bytes in which a client sends its rows to the server.
use vstd::prelude::*;
use vstd::string::*;
use crate::text;

verus! {

/// A pixel of 8-bit red, green and blue channels.
#[derive(Clone, Copy, Debug, PartialEq, Eq, Structural)]
pub struct Rgb {
    pub r: u8,
    pub g: u8,
    pub b: u8,
}

pub open spec fn rows_view(image: Seq<Vec<Rgb>>) -> Seq<Seq<Rgb>> {
    image.map_values(|row: Vec<Rgb>| row@)
}

/// `<r> <g> <b> ` for one pixel.
pub open spec fn pixel_text(p: Rgb) -> Seq<char> {
    text::decimal(p.r as nat) + seq![' '] + text::decimal(p.g as nat) + seq![' '] + text::decimal(
        p.b as nat,
    ) + seq![' ']
}

/// The pixels of a row, one after the other.
pub open spec fn row_text(row: Seq<Rgb>) -> Seq<char>
    decreases row.len(),
{
    if row.len() == 0 {
        seq![]
    } else {
        row_text(row.drop_last()) + pixel_text(row.last())
    }
}

/// Each row's pixels, followed by a newline.
pub open spec fn rows_text(rows: Seq<Seq<Rgb>>) -> Seq<char>
    decreases rows.len(),
{
    if rows.len() == 0 {
        seq![]
    } else {
        rows_text(rows.drop_last()) + row_text(rows.last()) + seq!['\n']
    }
}

/// The image's width: that of its first row, or zero for an image of no rows.
pub open spec fn image_width(rows: Seq<Seq<Rgb>>) -> nat {
    if rows.len() > 0 {
        rows[0].len()
    } else {
        0
    }
}

/// A plain-text PPM file: `P3`, the width and height, the channel maximum
/// 255, then the pixels row by row.
pub open spec fn ppm_text(rows: Seq<Seq<Rgb>>) -> Seq<char> {
    seq!['P', '3', '\n'] + text::decimal(image_width(rows)) + seq![' '] + text::decimal(
        rows.len(),
    ) + seq!['\n', '2', '5', '5', '\n'] + rows_text(rows)
}

/// All pixels of the rows, row after row.
pub open spec fn flatten(rows: Seq<Seq<Rgb>>) -> Seq<Rgb>
    decreases rows.len(),
{
    if rows.len() == 0 {
        seq![]
    } else {
        flatten(rows.drop_last()) + rows.last()
    }
}

/// The three channel bytes of each pixel, pixel after pixel.
pub open spec fn rgb_bytes(pixels: Seq<Rgb>) -> Seq<u8>
    decreases pixels.len(),
{
    if pixels.len() == 0 {
        seq![]
    } else {
        rgb_bytes(pixels.drop_last()) + seq![pixels.last().r, pixels.last().g, pixels.last().b]
    }
}

/// The pixel that bytes `3k`, `3k + 1` and `3k + 2` of `buf` describe.
pub open spec fn pixel_at(buf: Seq<u8>, k: int) -> Rgb {
    Rgb { r: buf[3 * k], g: buf[3 * k + 1], b: buf[3 * k + 2] }
}

fn push_channel(out: &mut String, v: u8)
    ensures
        final(out)@ == old(out)@ + text::decimal(v as nat) + seq![' '],
{
    proof {
        reveal_strlit(" ");
    }
    text::push_decimal(out, v as u64);
    out.append(" ");
}

/// The text of a plain-text PPM file that holds `image`, its width taken
/// from its first row.
pub fn ppm_document(image: &Vec<Vec<Rgb>>) -> (doc: String)
    ensures
        doc@ == ppm_text(rows_view(image@)),
{
    proof {
        reveal_strlit("P3\n");
        reveal_strlit(" ");
        reveal_strlit("\n255\n");
        reveal_strlit("\n");
    }
    let ghost rows = rows_view(image@);
    let height = image.len();
    let width = if height > 0 {
        image[0].len()
    } else {
        0
    };
    let mut doc = "P3\n".to_owned();
    text::push_decimal(&mut doc, width as u64);
    doc.append(" ");
    text::push_decimal(&mut doc, height as u64);
    doc.append("\n255\n");
    let ghost header = doc@;
    assert(header == seq!['P', '3', '\n'] + text::decimal(image_width(rows)) + seq![' ']
        + text::decimal(rows.len()) + seq!['\n', '2', '5', '5', '\n']);
    assert(rows.take(0) =~= Seq::<Seq<Rgb>>::empty());
    let mut y: usize = 0;
    while y < height
        invariant
            height == image@.len(),
            rows == rows_view(image@),
            y <= height,
            doc@ == header + rows_text(rows.take(y as int)),
        decreases height - y,
    {
        let row = &image[y];
        assert(rows[y as int] == row@);
        assert(row@.take(0) =~= Seq::<Rgb>::empty());
        let ghost before = doc@;
        let mut x: usize = 0;
        while x < row.len()
            invariant
                x <= row@.len(),
                doc@ == before + row_text(row@.take(x as int)),
            decreases row@.len() - x,
        {
            let p = row[x];
            push_channel(&mut doc, p.r);
            push_channel(&mut doc, p.g);
            push_channel(&mut doc, p.b);
            assert(row@.take(x + 1).drop_last() =~= row@.take(x as int));
            assert(row@.take(x + 1).last() == p);
            assert(doc@ =~= before + row_text(row@.take(x + 1)));
            x += 1;
        }
        assert(row@.take(row@.len() as int) =~= row@);
        proof {
            reveal_strlit("\n");
        }
        doc.append("\n");
        assert(rows.take(y + 1).drop_last() =~= rows.take(y as int));
        assert(rows.take(y + 1).last() == row@);
        assert(doc@ =~= header + rows_text(rows.take(y + 1)));
        y += 1;
    }
    assert(rows.take(height as int) =~= rows);
    assert(doc@ =~= ppm_text(rows));
    doc
}

/// The raw bytes in which a client sends its rows: three channel bytes per
/// pixel, row after row.
pub fn encode_rows(rows: &Vec<Vec<Rgb>>) -> (bytes: Vec<u8>)
    ensures
        bytes@ == rgb_bytes(flatten(rows_view(rows@))),
{
    let ghost view = rows_view(rows@);
    let mut bytes: Vec<u8> = Vec::new();
    assert(view.take(0) =~= Seq::<Seq<Rgb>>::empty());
    let mut y: usize = 0;
    while y < rows.len()
        invariant
            view == rows_view(rows@),
            y <= rows@.len(),
            bytes@ == rgb_bytes(flatten(view.take(y as int))),
        decreases rows@.len() - y,
    {
        let row = &rows[y];
        let ghost before = flatten(view.take(y as int));
        assert(row@.take(0) =~= Seq::<Rgb>::empty());
        assert(before + row@.take(0) =~= before);
        let mut x: usize = 0;
        while x < row.len()
            invariant
                x <= row@.len(),
                bytes@ == rgb_bytes(before + row@.take(x as int)),
            decreases row@.len() - x,
        {
            let p = row[x];
            bytes.push(p.r);
            bytes.push(p.g);
            bytes.push(p.b);
            let ghost next = before + row@.take(x + 1);
            assert(next.drop_last() =~= before + row@.take(x as int));
            assert(next.last() == p);
            assert(bytes@ =~= rgb_bytes(next));
            x += 1;
        }
        assert(row@.take(row@.len() as int) =~= row@);
        assert(view.take(y + 1).drop_last() =~= view.take(y as int));
        assert(view[y as int] == row@);
        assert(flatten(view.take(y + 1)) == before + row@);
        y += 1;
    }
    assert(view.take(rows@.len() as int) =~= view);
    bytes
}

/// The pixels that `buf` describes, three bytes each, but no more than
/// `limit` of them; bytes that make no whole pixel are left out.
pub fn decode_pixels(buf: &Vec<u8>, limit: usize) -> (pixels: Vec<Rgb>)
    ensures
        pixels@.len() == if buf@.len() / 3 <= limit {
            buf@.len() / 3
        } else {
            limit as nat
        },
        forall|k: int| 0 <= k < pixels@.len() ==> #[trigger] pixels@[k] == pixel_at(buf@, k),
{
    let mut pixels: Vec<Rgb> = Vec::new();
    let mut offset: usize = 0;
    while pixels.len() < limit && buf.len() - offset >= 3
        invariant
            offset == 3 * pixels@.len(),
            offset <= buf@.len(),
            pixels@.len() <= limit,
            forall|k: int| 0 <= k < pixels@.len() ==> #[trigger] pixels@[k] == pixel_at(buf@, k),
        decreases buf@.len() - offset,
    {
        let p = Rgb { r: buf[offset], g: buf[offset + 1], b: buf[offset + 2] };
        pixels.push(p);
        offset += 3;
    }
    pixels
}

/// Rows of equal width, flattened: pixel `x` of row `r` stands at
/// `r * width + x`.
pub proof fn lemma_flatten_index(rows: Seq<Seq<Rgb>>, width: nat)
    requires
        forall|r: int| 0 <= r < rows.len() ==> (#[trigger] rows[r]).len() == width,
    ensures
        flatten(rows).len() == rows.len() * width,
        forall|r: int, x: int|
            0 <= r < rows.len() && 0 <= x < width ==> flatten(rows)[r * width + x] == #[trigger] rows[r][x],
    decreases rows.len(),
{
    if rows.len() > 0 {
        let pre = rows.drop_last();
        assert forall|r: int| 0 <= r < pre.len() implies (#[trigger] pre[r]).len() == width by {
            assert(pre[r] == rows[r]);
        }
        lemma_flatten_index(pre, width);
        let n = rows.len() as int;
        assert(flatten(rows).len() == rows.len() * width) by (nonlinear_arith)
            requires
                flatten(rows).len() == flatten(pre).len() + width,
                flatten(pre).len() == pre.len() * width,
                pre.len() + 1 == rows.len(),
        ;
        assert forall|r: int, x: int| 0 <= r < rows.len() && 0 <= x < width implies flatten(
            rows,
        )[r * width + x] == #[trigger] rows[r][x] by {
            if r < n - 1 {
                assert(r * width + x < (n - 1) * width) by (nonlinear_arith)
                    requires
                        r < n - 1,
                        x < width,
                        0 <= r,
                ;
                assert(pre[r] == rows[r]);
            } else {
                assert(r * width + x - pre.len() * width == x) by (nonlinear_arith)
                    requires
                        r == n - 1,
                        pre.len() == n - 1,
                ;
            }
        }
    }
}

/// The bytes of a run of pixels: three per pixel, in order.
pub proof fn lemma_rgb_bytes(pixels: Seq<Rgb>)
    ensures
        rgb_bytes(pixels).len() == 3 * pixels.len(),
        forall|k: int| 0 <= k < pixels.len() ==> pixel_at(rgb_bytes(pixels), k) == #[trigger] pixels[k],
    decreases pixels.len(),
{
    if pixels.len() > 0 {
        let pre = pixels.drop_last();
        lemma_rgb_bytes(pre);
        let b = rgb_bytes(pixels);
        assert forall|k: int| 0 <= k < pixels.len() implies pixel_at(b, k) == #[trigger] pixels[k] by {
            if k < pixels.len() - 1 {
                assert(pixel_at(rgb_bytes(pre), k) == pre[k]);
                assert(b[3 * k] == rgb_bytes(pre)[3 * k]);
                assert(b[3 * k + 1] == rgb_bytes(pre)[3 * k + 1]);
                assert(b[3 * k + 2] == rgb_bytes(pre)[3 * k + 2]);
            }
        }
    }
}

/// The server reads back, from the bytes a client sends, exactly the pixels
/// that the client rendered, in order.
pub proof fn lemma_pixels_round_trip(rows: Seq<Seq<Rgb>>)
    ensures
        ({
            let buf = rgb_bytes(flatten(rows));
            &&& buf.len() / 3 == flatten(rows).len()
            &&& forall|k: int|
                0 <= k < flatten(rows).len() ==> pixel_at(buf, k) == #[trigger] flatten(rows)[k]
        }),
{
    lemma_rgb_bytes(flatten(rows));
}

} // verus!
