use vstd::prelude::*;

use crate::colorings::ColorScheme;
use crate::fill::{fill_mandel_image, filled, ByteOrder, BYTES_PER_PIXEL};

verus! {

/// Largest window dimension: buffer size and row-stride arithmetic must fit
/// the signed 32-bit stride type of the image format.
pub const MAX_DIMENSION: usize = 0x7fff_ffff;

/// The integer part of a viewport: the window size in pixels and the
/// iteration cap, which is also the largest escape value.
#[derive(Clone, Copy, PartialEq, Eq, Structural, Debug)]
pub struct Raster {
    pub win_width: usize,
    pub win_height: usize,
    pub iteration_depth: u32,
}

impl Raster {
    /// Both dimensions in `1..=MAX_DIMENSION` and a positive iteration cap.
    pub open spec fn valid(&self) -> bool {
        &&& 0 < self.win_width <= MAX_DIMENSION
        &&& 0 < self.win_height <= MAX_DIMENSION
        &&& self.iteration_depth > 0
    }

    pub fn is_valid(&self) -> (r: bool)
        ensures
            r == self.valid(),
    {
        let max = MAX_DIMENSION;
        0 < self.win_width && self.win_width <= max && 0 < self.win_height && self.win_height
            <= max && self.iteration_depth > 0
    }
}

/// Whether an image of `raster` can be laid out with the row stride that the
/// image format reported (`None` where it could compute none): the raster is
/// valid, each row holds its pixels, and the whole buffer is addressable.
pub open spec fn layout_ok(raster: Raster, stride: Option<i32>) -> bool {
    &&& raster.valid()
    &&& stride.is_some()
    &&& BYTES_PER_PIXEL * raster.win_width <= stride.unwrap()
    &&& raster.win_height * stride.unwrap() <= usize::MAX
}

/// A zeroed buffer of `n` bytes.
pub open spec fn zeroed(n: nat) -> Seq<u8> {
    Seq::new(n, |i: int| 0u8)
}

/// The image of `raster` with row stride `stride`: a zeroed buffer whose pixel
/// bytes carry the colours of `values`, one escape value per pixel, row by row.
pub open spec fn image_bytes(
    raster: Raster,
    stride: nat,
    values: Seq<u32>,
    coloring: ColorScheme,
    order: ByteOrder,
) -> Seq<u8> {
    filled(
        zeroed((raster.win_height * stride) as nat),
        values,
        raster.win_width as nat,
        raster.win_height as nat,
        stride,
        raster.iteration_depth,
        coloring,
        order,
    )
}

/// The zeroed buffer for an image of `raster`, with the row stride as a
/// `usize`, or `None` where `layout_ok` fails.
pub fn prepare_image(raster: &Raster, stride: Option<i32>) -> (r: Option<(Vec<u8>, usize)>)
    ensures
        r.is_some() == layout_ok(*raster, stride),
        r.is_some() ==> r.unwrap().1 == stride.unwrap() && r.unwrap().0@ == zeroed(
            (raster.win_height * stride.unwrap()) as nat,
        ),
{
    if !raster.is_valid() {
        return None;
    }
    let s = match stride {
        Some(s) => s,
        None => {
            return None;
        },
    };
    if s < 0 {
        return None;
    }
    let ustride = s as usize;
    if raster.win_width > ustride / BYTES_PER_PIXEL {
        assert(BYTES_PER_PIXEL * raster.win_width > ustride) by (nonlinear_arith)
            requires
                raster.win_width > ustride / 4,
        ;
        return None;
    }
    assert(BYTES_PER_PIXEL * raster.win_width <= ustride) by (nonlinear_arith)
        requires
            raster.win_width <= ustride / 4,
    ;
    let n = match raster.win_height.checked_mul(ustride) {
        Some(n) => n,
        None => {
            return None;
        },
    };
    let data: Vec<u8> = vec![0u8; n];
    assert(data@ =~= zeroed(n as nat));
    Some((data, ustride))
}

/// Renders `raster` in one pass: `None` where the layout fails (an invalid
/// raster, or a stride the format could not give or that cannot hold a row) or
/// where `values` does not hold one escape value per pixel; else the image bytes
/// and the stride.
pub fn make_mandel_image(
    raster: &Raster,
    stride: Option<i32>,
    values: &[u32],
    coloring: &ColorScheme,
    order: ByteOrder,
) -> (r: Option<(Vec<u8>, i32)>)
    ensures
        r.is_some() == (layout_ok(*raster, stride) && values@.len() == raster.win_width
            * raster.win_height),
        !raster.valid() ==> r.is_none(),
        r.is_some() ==> r.unwrap().1 == stride.unwrap() && r.unwrap().0@ == image_bytes(
            *raster,
            stride.unwrap() as nat,
            values@,
            *coloring,
            order,
        ),
{
    let (mut data, ustride) = match prepare_image(raster, stride) {
        Some(p) => p,
        None => {
            return None;
        },
    };
    let ok = fill_mandel_image(
        data.as_mut_slice(),
        ustride,
        raster.win_width,
        raster.win_height,
        values,
        raster.iteration_depth,
        coloring,
        order,
    );
    if ok {
        Some((data, ustride as i32))
    } else {
        None
    }
}

/// A finished image: its bytes, its size in pixels and the byte length of
/// one row.
pub struct MandelReply {
    pub data: Vec<u8>,
    pub width: i32,
    pub height: i32,
    pub stride: i32,
}

/// The reply for an image of `raster` whose bytes were filled band by band:
/// `None` unless every band reported success.
pub fn finish_image(raster: &Raster, data: Vec<u8>, ustride: usize, all_ok: bool) -> (r: Option<
    MandelReply,
>)
    requires
        raster.valid(),
        ustride <= i32::MAX,
    ensures
        r.is_some() == all_ok,
        r.is_some() ==> r.unwrap().data@ == data@ && r.unwrap().width == raster.win_width
            && r.unwrap().height == raster.win_height && r.unwrap().stride == ustride,
{
    if all_ok {
        Some(
            MandelReply {
                data,
                width: raster.win_width as i32,
                height: raster.win_height as i32,
                stride: ustride as i32,
            },
        )
    } else {
        None
    }
}

/// Renders `raster` in one pass and wraps the image in a reply: `None` exactly
/// where `make_mandel_image` gives none.
pub fn render_reply(
    raster: &Raster,
    stride: Option<i32>,
    values: &[u32],
    coloring: &ColorScheme,
    order: ByteOrder,
) -> (r: Option<MandelReply>)
    ensures
        r.is_some() == (layout_ok(*raster, stride) && values@.len() == raster.win_width
            * raster.win_height),
        !raster.valid() ==> r.is_none(),
        r.is_some() ==> r.unwrap().width == raster.win_width && r.unwrap().height
            == raster.win_height && r.unwrap().stride == stride.unwrap() && r.unwrap().data@
            == image_bytes(*raster, stride.unwrap() as nat, values@, *coloring, order),
{
    match make_mandel_image(raster, stride, values, coloring, order) {
        Some((data, s)) => Some(
            MandelReply {
                data,
                width: raster.win_width as i32,
                height: raster.win_height as i32,
                stride: s,
            },
        ),
        None => None,
    }
}

} // verus!
