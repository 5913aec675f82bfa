use vstd::arithmetic::div_mod::lemma_fundamental_div_mod_converse;
use vstd::prelude::*;

use crate::colorings::{ColorScheme, Coloring};

verus! {

/// Bytes taken by one pixel: 24-bit colour packed in 32 bits.
pub const BYTES_PER_PIXEL: usize = 4;

/// In which order the four bytes of a packed pixel are laid out in memory.
#[derive(Clone, Copy, PartialEq, Eq, Structural, Debug)]
pub enum ByteOrder {
    Little,
    Big,
}

/// The weight of byte `pos` (counted from the least significant) of a `u32`.
pub open spec fn byte_weight(pos: int) -> int {
    if pos == 0 {
        1
    } else if pos == 1 {
        0x100
    } else if pos == 2 {
        0x10000
    } else {
        0x1000000
    }
}

/// Byte `k` (in memory order, `0 <= k < 4`) of packed colour `c`.
pub open spec fn color_byte(c: u32, order: ByteOrder, k: int) -> u8 {
    let pos = match order {
        ByteOrder::Little => k,
        ByteOrder::Big => 3 - k,
    };
    ((c as int / byte_weight(pos)) % 256) as u8
}

/// Whether byte `i` of a buffer with rows of `stride` bytes lies in one of the
/// first `rows` rows and within the `width` pixels of its row (not in padding).
pub open spec fn in_pixel_area(i: int, width: nat, rows: nat, stride: nat) -> bool {
    0 <= i < rows * stride && i % (stride as int) < BYTES_PER_PIXEL * width
}

/// The value byte `i` of the buffer takes: the byte of the colour of the pixel it
/// belongs to, where `values` holds the escape values row by row.
pub open spec fn pixel_byte(
    values: Seq<u32>,
    width: nat,
    stride: nat,
    max: u32,
    coloring: ColorScheme,
    order: ByteOrder,
    i: int,
) -> u8 {
    let row = i / (stride as int);
    let col = (i % (stride as int)) / 4;
    color_byte(coloring.color_of(values[row * width + col], max), order, (i % (stride as int)) % 4)
}

/// `buf` after its pixel bytes in the first `rows` rows, up to byte index `n`,
/// are set to the colours of `values`; padding and later bytes keep their value.
pub open spec fn filled_upto(
    buf: Seq<u8>,
    values: Seq<u32>,
    width: nat,
    rows: nat,
    stride: nat,
    max: u32,
    coloring: ColorScheme,
    order: ByteOrder,
    n: int,
) -> Seq<u8> {
    Seq::new(
        buf.len(),
        |i: int|
            if i < n && in_pixel_area(i, width, rows, stride) {
                pixel_byte(values, width, stride, max, coloring, order, i)
            } else {
                buf[i]
            },
    )
}

/// `buf` with rows `0..rows` (each `stride` bytes) filled from `values`.
pub open spec fn filled(
    buf: Seq<u8>,
    values: Seq<u32>,
    width: nat,
    rows: nat,
    stride: nat,
    max: u32,
    coloring: ColorScheme,
    order: ByteOrder,
) -> Seq<u8> {
    filled_upto(buf, values, width, rows, stride, max, coloring, order, (rows * stride) as int)
}

/// Whether a fill of `rows` rows of `width` pixels, `stride` bytes apart, fits a
/// buffer of `len` bytes, with one escape value per pixel.
pub open spec fn fill_fits(len: nat, stride: nat, width: nat, rows: nat, n_values: nat) -> bool {
    &&& BYTES_PER_PIXEL * width <= stride
    &&& rows * stride <= len
    &&& n_values == rows * width
}

proof fn lemma_pixel_index(i: int, row: int, col: int, k: int, width: int, stride: int)
    requires
        0 <= row,
        0 <= col < width,
        0 <= k < 4,
        4 * width <= stride,
        i == row * stride + 4 * col + k,
    ensures
        i / stride == row,
        i % stride == 4 * col + k,
        (i % stride) / 4 == col,
        (i % stride) % 4 == k,
{
    lemma_fundamental_div_mod_converse(i, stride, row, 4 * col + k);
    lemma_fundamental_div_mod_converse(4 * col + k, 4, col, k);
}

/// Writes the four bytes of colour `c` at `data[at..at + 4]`.
fn write_pixel(data: &mut [u8], at: usize, c: u32, order: ByteOrder)
    requires
        at + 4 <= old(data)@.len(),
    ensures
        final(data)@.len() == old(data)@.len(),
        forall|i: int|
            0 <= i < final(data)@.len() ==> #[trigger] final(data)@[i] == if at <= i < at + 4 {
                color_byte(c, order, i - at)
            } else {
                old(data)@[i]
            },
{
    let b0 = (c % 256) as u8;
    let b1 = ((c / 0x100) % 256) as u8;
    let b2 = ((c / 0x10000) % 256) as u8;
    let b3 = ((c / 0x1000000) % 256) as u8;
    match order {
        ByteOrder::Little => {
            data[at] = b0;
            data[at + 1] = b1;
            data[at + 2] = b2;
            data[at + 3] = b3;
        },
        ByteOrder::Big => {
            data[at] = b3;
            data[at + 1] = b2;
            data[at + 2] = b1;
            data[at + 3] = b0;
        },
    }
}

/// Fills rows `0..rows` of `data`, each `ustride` bytes long, with the colours
/// that `coloring` gives the escape values in `values` (row by row, `width` per
/// row). Returns `false`, leaving `data` as it was, when the rows do not fit:
/// a row shorter than its pixels, a buffer shorter than its rows, or a value
/// count that is not one per pixel. Padding bytes keep their value.
pub fn fill_mandel_image(
    data: &mut [u8],
    ustride: usize,
    width: usize,
    rows: usize,
    values: &[u32],
    max: u32,
    coloring: &ColorScheme,
    order: ByteOrder,
) -> (r: bool)
    ensures
        r == fill_fits(old(data)@.len(), ustride as nat, width as nat, rows as nat, values@.len()),
        r ==> final(data)@ == filled(
            old(data)@,
            values@,
            width as nat,
            rows as nat,
            ustride as nat,
            max,
            *coloring,
            order,
        ),
        !r ==> final(data)@ == old(data)@,
        final(data)@.len() == old(data)@.len(),
        forall|i: int|
            0 <= i < old(data)@.len() && !in_pixel_area(i, width as nat, rows as nat, ustride as nat)
                ==> #[trigger] final(data)@[i] == old(data)@[i],
{
    if width > ustride / BYTES_PER_PIXEL {
        assert(BYTES_PER_PIXEL * width > ustride) by (nonlinear_arith)
            requires
                width > ustride / 4,
        ;
        return false;
    }
    assert(BYTES_PER_PIXEL * width <= ustride) by (nonlinear_arith)
        requires
            width <= ustride / 4,
    ;
    let n_bytes = data.len();
    let total = match rows.checked_mul(ustride) {
        None => {
            return false;
        },
        Some(t) => t,
    };
    if total > data.len() {
        return false;
    }
    let n_values = values.len();
    match rows.checked_mul(width) {
        Some(n) => {
            if n != n_values {
                return false;
            }
        },
        None => {
            return false;
        },
    }
    let ghost d0 = data@;
    let ghost vs = values@;
    let ghost w = width as nat;
    let ghost h = rows as nat;
    let ghost st = ustride as nat;
    let mut dy: usize = 0;
    while dy < rows
        invariant
            dy <= rows,
            4 * width <= ustride,
            rows * ustride <= d0.len(),
            d0.len() == data@.len(),
            data@.len() <= usize::MAX,
            vs.len() == rows * width,
            vs.len() <= usize::MAX,
            vs == values@,
            w == width,
            h == rows,
            st == ustride,
            data@ == filled_upto(d0, vs, w, h, st, max, *coloring, order, dy * ustride),
        decreases rows - dy,
    {
        assert((dy + 1) * ustride <= rows * ustride) by (nonlinear_arith)
            requires
                dy + 1 <= rows,
        ;
        assert((dy + 1) * width <= rows * width) by (nonlinear_arith)
            requires
                dy + 1 <= rows,
        ;
        assert((dy + 1) * ustride == dy * ustride + ustride) by (nonlinear_arith);
        assert((dy + 1) * width == dy * width + width) by (nonlinear_arith);
        let base = dy * ustride;
        let row_values = dy * width;
        let mut wx: usize = 0;
        while wx < width
            invariant
                dy < rows,
                wx <= width,
                4 * width <= ustride,
                base == dy * ustride,
                row_values == dy * width,
                base + ustride <= rows * ustride,
                row_values + width <= vs.len(),
                rows * ustride <= d0.len(),
                d0.len() == data@.len(),
                data@.len() <= usize::MAX,
                row_values + width <= rows * width,
                vs.len() == rows * width,
                vs.len() <= usize::MAX,
                vs == values@,
                w == width,
                h == rows,
                st == ustride,
                data@ == filled_upto(d0, vs, w, h, st, max, *coloring, order, base + 4 * wx),
            decreases width - wx,
        {
            let v = values[row_values + wx];
            let c = coloring.get_color(v, max);
            let at = base + BYTES_PER_PIXEL * wx;
            let ghost prev = data@;
            write_pixel(data, at, c, order);
            proof {
                let next = filled_upto(d0, vs, w, h, st, max, *coloring, order, at + 4);
                assert forall|i: int| 0 <= i < data@.len() implies #[trigger] data@[i] == next[i] by {
                    if at <= i < at + 4 {
                        lemma_pixel_index(i, dy as int, wx as int, i - at, width as int, ustride as int);
                        assert(in_pixel_area(i, w, h, st));
                    }
                }
                assert(data@ =~= next);
            }
            wx = wx + 1;
        }
        proof {
            let row_end = filled_upto(d0, vs, w, h, st, max, *coloring, order, base + 4 * width);
            let next = filled_upto(d0, vs, w, h, st, max, *coloring, order, base + ustride);
            assert forall|i: int| 0 <= i < d0.len() implies #[trigger] row_end[i] == next[i] by {
                if base + 4 * width <= i < base + ustride {
                    lemma_fundamental_div_mod_converse(i, ustride as int, dy as int, i - base);
                    assert(!in_pixel_area(i, w, h, st));
                }
            }
            assert(row_end =~= next);
        }
        dy = dy + 1;
    }
    true
}

} // verus!
