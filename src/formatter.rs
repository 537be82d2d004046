use vstd::prelude::*;

use crate::codec::{rgb565, rgb565_value, Rgb};
use crate::text::{join, lemma_join_push, push_all};

verus! {

/// A row-major grid of pixels.
pub struct PixelGrid {
    pub width: u32,
    pub height: u32,
    pub pixels: Vec<Rgb>,
}

impl PixelGrid {
    /// The grid holds exactly `width * height` pixels.
    pub open spec fn wf(&self) -> bool {
        self.pixels@.len() == self.width as nat * self.height as nat
    }
}

/// The lowercase hexadecimal digit of `n` (below 16).
pub open spec fn hex_digit(n: nat) -> u8 {
    if n < 10 {
        (48 + n) as u8
    } else {
        (87 + n) as u8
    }
}

/// Two lowercase hexadecimal digits of a byte, high nibble first.
pub open spec fn hex_byte(b: u8) -> Seq<u8> {
    seq![hex_digit(b as nat / 16), hex_digit(b as nat % 16)]
}

/// The four hex digits of a pixel: the low byte of its device colour, then the high byte.
pub open spec fn pixel_hex(p: Rgb) -> Seq<u8> {
    hex_byte((rgb565_value(p) & 0xffu16) as u8) + hex_byte((rgb565_value(p) >> 8u16) as u8)
}

/// The hex digits of a run of pixels, in order, with no separator.
pub open spec fn pixels_hex(ps: Seq<Rgb>) -> Seq<u8>
    decreases ps.len(),
{
    if ps.len() == 0 {
        Seq::empty()
    } else {
        pixels_hex(ps.drop_last()) + pixel_hex(ps.last())
    }
}

/// The pixels of row `y` of a grid `w` pixels wide.
pub open spec fn row_of(ps: Seq<Rgb>, w: nat, y: nat) -> Seq<Rgb> {
    ps.subrange((y * w) as int, (y * w + w) as int)
}

/// One record per row of the grid: that row's pixel codes.
pub open spec fn grid_rows(g: PixelGrid) -> Seq<Seq<u8>> {
    Seq::new(g.height as nat, |y: int| pixels_hex(row_of(g.pixels@, g.width as nat, y as nat)))
}

/// The firmware command that ends a row: `M10086 ;`.
pub open spec fn repeat_marker() -> Seq<u8> {
    seq![77u8, 49u8, 48u8, 48u8, 56u8, 54u8, 32u8, 59u8]
}

/// What stands between two row records: a carriage return, then the repeat marker.
pub open spec fn row_separator() -> Seq<u8> {
    seq![13u8] + repeat_marker()
}

/// The serialized block: `<tag>:<rows joined by the separator>\n<marker>\n`.
pub open spec fn block_text(tag: Seq<u8>, g: PixelGrid) -> Seq<u8> {
    tag + seq![58u8] + join(grid_rows(g), row_separator()) + seq![10u8] + repeat_marker() + seq![
        10u8,
    ]
}

fn repeat_marker_bytes() -> (r: Vec<u8>)
    ensures
        r@ == repeat_marker(),
{
    let r: Vec<u8> = vec![77u8, 49u8, 48u8, 48u8, 56u8, 54u8, 32u8, 59u8];
    assert(r@ == repeat_marker());
    r
}

fn hex_digit_byte(n: u8) -> (r: u8)
    requires
        n < 16,
    ensures
        r == hex_digit(n as nat),
{
    if n < 10 {
        48 + n
    } else {
        87 + n
    }
}

fn push_hex_byte(out: &mut Vec<u8>, b: u8)
    ensures
        final(out)@ == old(out)@ + hex_byte(b),
{
    out.push(hex_digit_byte(b / 16));
    out.push(hex_digit_byte(b % 16));
}

fn push_pixel_hex(out: &mut Vec<u8>, p: &Rgb)
    ensures
        final(out)@ == old(out)@ + pixel_hex(*p),
{
    let (hi, lo) = rgb565(p);
    push_hex_byte(out, lo);
    push_hex_byte(out, hi);
}

/// Serializes a grid into the block that the display firmware reads.
pub fn create_tft_image_gcode(prefix: &[u8], image: &PixelGrid) -> (r: Vec<u8>)
    requires
        image.wf(),
    ensures
        r@ == block_text(prefix@, *image),
{
    let w = image.width as usize;
    let h = image.height as usize;
    let ghost rows = grid_rows(*image);
    let ghost ps = image.pixels@;
    let n = image.pixels.len();
    let marker = repeat_marker_bytes();
    let mut out: Vec<u8> = Vec::new();
    push_all(&mut out, prefix);
    out.push(58u8);
    let ghost head = out@;
    let mut y: usize = 0;
    while y < h
        invariant
            w == image.width,
            h == image.height,
            ps == image.pixels@,
            ps.len() == w * h,
            n == ps.len(),
            rows == grid_rows(*image),
            marker@ == repeat_marker(),
            y <= h,
            out@ == head + join(rows.take(y as int), row_separator()),
        decreases h - y,
    {
        proof {
            lemma_join_push(rows.take(y as int), row_separator(), rows[y as int]);
            assert(rows.take(y as int).push(rows[y as int]) == rows.take(y + 1));
        }
        if y > 0 {
            out.push(13u8);
            push_all(&mut out, marker.as_slice());
            assert(seq![13u8] + repeat_marker() == row_separator());
        }
        let ghost before = out@;
        let ghost row = row_of(ps, w as nat, y as nat);
        assert(y as int * w as int + w as int <= w as int * h as int) by (nonlinear_arith)
            requires
                y < h,
        ;
        assert(0 <= y as int * w as int) by (nonlinear_arith);
        let base: usize = y * w;
        let mut x: usize = 0;
        while x < w
            invariant
                w == image.width,
                h == image.height,
                ps == image.pixels@,
                ps.len() == w * h,
                y < h,
                base == y * w,
                base + w <= ps.len(),
                n == ps.len(),
                row == row_of(ps, w as nat, y as nat),
                x <= w,
                out@ == before + pixels_hex(row.take(x as int)),
            decreases w - x,
        {
            push_pixel_hex(&mut out, &image.pixels[base + x]);
            proof {
                assert(row.take(x + 1).drop_last() == row.take(x as int));
                assert(row[x as int] == ps[base + x]);
            }
            x = x + 1;
        }
        assert(row.take(w as int) == row);
        y = y + 1;
    }
    assert(rows.take(h as int) == rows);
    out.push(10u8);
    push_all(&mut out, marker.as_slice());
    out.push(10u8);
    out
}

/// A serialized block has one record for each row of the grid, each of four hex
/// digits for each pixel of the row.
pub proof fn lemma_block_shape(g: PixelGrid)
    requires
        g.wf(),
    ensures
        grid_rows(g).len() == g.height,
        forall|y: int| 0 <= y < g.height ==> #[trigger] grid_rows(g)[y].len() == 4 * g.width,
{
    assert forall|y: int| 0 <= y < g.height implies #[trigger] grid_rows(g)[y].len() == 4
        * g.width by {
        let w = g.width as int;
        assert(y * w + w <= w * g.height as int) by (nonlinear_arith)
            requires
                0 <= y < g.height,
                0 <= w,
        ;
        assert(0 <= y * w) by (nonlinear_arith)
            requires
                0 <= y,
                0 <= w,
        ;
        lemma_pixels_hex_len(row_of(g.pixels@, g.width as nat, y as nat));
    }
}

/// Each pixel contributes four digits.
pub proof fn lemma_pixels_hex_len(ps: Seq<Rgb>)
    ensures
        pixels_hex(ps).len() == 4 * ps.len(),
    decreases ps.len(),
{
    if ps.len() > 0 {
        lemma_pixels_hex_len(ps.drop_last());
    }
}

} // verus!
