use vstd::arithmetic::div_mod::{lemma_fundamental_div_mod, lemma_fundamental_div_mod_converse};
use vstd::prelude::*;

use crate::colorings::ColorScheme;
use crate::fill::{filled, filled_upto, in_pixel_area, pixel_byte, ByteOrder};

verus! {

/// Worker count used when the platform cannot report its parallelism.
pub const DEFAULT_WORKERS: usize = 8;

/// First row of band `k` when `h` rows are split into `p` near-equal bands:
/// the first `h % p` bands get `h / p + 1` rows, the others `h / p`.
pub open spec fn split_start(h: nat, p: nat, k: nat) -> nat {
    k * (h / p) + if k < h % p {
        k
    } else {
        h % p
    }
}

/// Number of rows in band `k`.
pub open spec fn band_len(h: nat, p: nat, k: nat) -> nat {
    if k < h % p {
        (h / p + 1) as nat
    } else {
        h / p
    }
}

proof fn lemma_split_step(h: nat, p: nat, k: nat)
    requires
        p > 0,
    ensures
        split_start(h, p, k + 1) == split_start(h, p, k) + band_len(h, p, k),
{
    let q = h / p;
    assert((k + 1) * q == k * q + q) by (nonlinear_arith);
}

proof fn lemma_split_end(h: nat, p: nat)
    requires
        p > 0,
    ensures
        split_start(h, p, p) == h,
{
    vstd::arithmetic::div_mod::lemma_fundamental_div_mod(h as int, p as int);
    let q = h / p;
    assert(p * q == q * p) by (nonlinear_arith);
}

proof fn lemma_split_monotone(h: nat, p: nat, j: nat, k: nat)
    requires
        p > 0,
        j <= k,
    ensures
        split_start(h, p, j) <= split_start(h, p, k),
    decreases k - j,
{
    if j < k {
        lemma_split_monotone(h, p, j, (k - 1) as nat);
        lemma_split_step(h, p, (k - 1) as nat);
    }
}

/// Splits `h` rows into `p` near-equal contiguous bands, returning the first
/// row of each band in ascending order. Band `k` covers rows
/// `r[k]..r[k + 1]`, the last band ending at `h`.
pub fn compute_splits(h: usize, p: usize) -> (r: Vec<usize>)
    requires
        p > 0,
    ensures
        r@.len() == p,
        forall|k: int| 0 <= k < p ==> r@[k] == split_start(h as nat, p as nat, k as nat),
{
    let base = h / p;
    let extra = h % p;
    let mut r: Vec<usize> = Vec::new();
    let mut start: usize = 0;
    let mut k: usize = 0;
    while k < p
        invariant
            k <= p,
            base == h / p,
            extra == h % p,
            r@.len() == k,
            start == split_start(h as nat, p as nat, k as nat),
            forall|j: int| 0 <= j < k ==> r@[j] == split_start(h as nat, p as nat, j as nat),
        decreases p - k,
    {
        r.push(start);
        proof {
            lemma_split_step(h as nat, p as nat, k as nat);
            lemma_split_monotone(h as nat, p as nat, (k + 1) as nat, p as nat);
            lemma_split_end(h as nat, p as nat);
        }
        if k < extra {
            start = start + base + 1;
        } else {
            start = start + base;
        }
        k = k + 1;
    }
    r
}

/// Whether row `r` lies in band `k`.
pub open spec fn in_band(h: nat, p: nat, k: nat, r: nat) -> bool {
    split_start(h, p, k) <= r < split_start(h, p, k + 1)
}

/// Whether row `r` lies in one of the `p` bands.
pub open spec fn covered(h: nat, p: nat, r: nat) -> bool {
    exists|k: nat| k < p && #[trigger] in_band(h, p, k, r)
}

/// Total number of rows in bands `0..k`.
pub open spec fn bands_total(h: nat, p: nat, k: nat) -> nat
    decreases k,
{
    if k == 0 {
        0
    } else {
        bands_total(h, p, (k - 1) as nat) + band_len(h, p, (k - 1) as nat)
    }
}

proof fn lemma_bands_total(h: nat, p: nat, k: nat)
    requires
        p > 0,
    ensures
        bands_total(h, p, k) == split_start(h, p, k),
    decreases k,
{
    if k > 0 {
        lemma_bands_total(h, p, (k - 1) as nat);
        lemma_split_step(h, p, (k - 1) as nat);
    } else {
        let q = h / p;
        assert(0 * q == 0) by (nonlinear_arith);
    }
}

proof fn lemma_row_in_band(h: nat, p: nat, r: nat, k: nat) -> (b: nat)
    requires
        p > 0,
        k < p,
        split_start(h, p, k) <= r < h,
    ensures
        b < p,
        split_start(h, p, b) <= r < split_start(h, p, b + 1),
    decreases p - k,
{
    lemma_split_end(h, p);
    if r < split_start(h, p, k + 1) {
        k
    } else {
        if k + 1 == p {
            assert(false);
        }
        lemma_row_in_band(h, p, r, k + 1)
    }
}

/// The bands that `compute_splits(h, p)` describes partition the rows `0..h`:
/// the first starts at row 0; each band ends where the next begins, so they are
/// ascending, gapless and disjoint; the last ends at `h`, so their sizes add up
/// to `h`; every row lies in exactly one band; and two band sizes differ by at
/// most one.
pub proof fn lemma_splits_partition(h: nat, p: nat)
    requires
        p > 0,
    ensures
        split_start(h, p, 0) == 0,
        split_start(h, p, p) == h,
        bands_total(h, p, p) == h,
        forall|k: nat|
            k < p ==> split_start(h, p, k) + band_len(h, p, k) == #[trigger] split_start(h, p, k + 1),
        forall|j: nat, k: nat|
            j <= k <= p ==> #[trigger] split_start(h, p, j) <= #[trigger] split_start(h, p, k),
        forall|r: nat| r < h ==> #[trigger] covered(h, p, r),
        forall|r: nat, j: nat, k: nat|
            j < p && k < p && #[trigger] in_band(h, p, j, r) && #[trigger] in_band(h, p, k, r) ==> j
                == k,
        forall|j: nat, k: nat|
            j < p && k < p ==> #[trigger] band_len(h, p, j) <= #[trigger] band_len(h, p, k) + 1,
{
    lemma_split_end(h, p);
    lemma_bands_total(h, p, p);
    assert forall|k: nat| k < p implies split_start(h, p, k) + band_len(h, p, k)
        == #[trigger] split_start(h, p, k + 1) by {
        lemma_split_step(h, p, k);
    }
    assert forall|j: nat, k: nat| j <= k <= p implies #[trigger] split_start(h, p, j)
        <= #[trigger] split_start(h, p, k) by {
        lemma_split_monotone(h, p, j, k);
    }
    assert forall|r: nat| r < h implies #[trigger] covered(h, p, r) by {
        let b = lemma_row_in_band(h, p, r, 0);
        assert(in_band(h, p, b, r));
    }
    assert forall|r: nat, j: nat, k: nat|
        j < p && k < p && #[trigger] in_band(h, p, j, r) && #[trigger] in_band(
            h,
            p,
            k,
            r,
        ) implies j == k by {
        if j < k {
            lemma_split_monotone(h, p, j + 1, k);
        } else if k < j {
            lemma_split_monotone(h, p, k + 1, j);
        }
    }
}

/// The number of workers to use: the parallelism the platform reports, or
/// `DEFAULT_WORKERS` where it reports none (or zero).
pub fn worker_count(reported: Option<usize>) -> (r: usize)
    ensures
        r > 0,
        reported.is_some() && reported.unwrap() > 0 ==> r == reported.unwrap(),
        !(reported.is_some() && reported.unwrap() > 0) ==> r == DEFAULT_WORKERS,
{
    match reported {
        Some(n) => {
            if n > 0 {
                n
            } else {
                DEFAULT_WORKERS
            }
        },
        None => DEFAULT_WORKERS,
    }
}

/// The row bands, as `(first row, row count)`, in which an image of `height`
/// rows is filled by `workers` workers: one band of all rows when there are
/// fewer rows than workers, else the `workers` bands of `compute_splits`.
pub fn plan_bands(height: usize, workers: usize) -> (r: Vec<(usize, usize)>)
    requires
        workers > 0,
    ensures
        height < workers ==> r@ == seq![(0usize, height)],
        height >= workers ==> r@.len() == workers && forall|k: int|
            0 <= k < workers ==> (#[trigger] r@[k]).0 == split_start(
                height as nat,
                workers as nat,
                k as nat,
            ) && r@[k].1 == band_len(height as nat, workers as nat, k as nat),
{
    if height < workers {
        let r = vec![(0usize, height)];
        assert(r@ =~= seq![(0usize, height)]);
        return r;
    }
    let starts = compute_splits(height, workers);
    let ghost h = height as nat;
    let ghost p = workers as nat;
    let mut r: Vec<(usize, usize)> = Vec::new();
    let mut k: usize = 0;
    while k < workers
        invariant
            k <= workers,
            h == height,
            p == workers,
            p > 0,
            starts@.len() == p,
            forall|j: int| 0 <= j < p ==> starts@[j] == split_start(h, p, j as nat),
            r@.len() == k,
            forall|j: int|
                0 <= j < k ==> (#[trigger] r@[j]).0 == split_start(h, p, j as nat) && r@[j].1
                    == band_len(h, p, j as nat),
        decreases workers - k,
    {
        proof {
            lemma_split_step(h, p, k as nat);
            lemma_split_end(h, p);
            lemma_split_monotone(h, p, (k + 1) as nat, p);
        }
        let start = starts[k];
        let end = if k + 1 < workers {
            starts[k + 1]
        } else {
            height
        };
        r.push((start, end - start));
        k = k + 1;
    }
    r
}

/// Band `k` of `p` of the image, filled on its own: its bytes of `buf` and its
/// rows of `values`.
pub open spec fn band_fill(
    buf: Seq<u8>,
    values: Seq<u32>,
    width: nat,
    height: nat,
    stride: nat,
    max: u32,
    coloring: ColorScheme,
    order: ByteOrder,
    p: nat,
    k: nat,
) -> Seq<u8> {
    let s = split_start(height, p, k);
    let e = split_start(height, p, k + 1);
    filled(
        buf.subrange((s * stride) as int, (e * stride) as int),
        values.subrange((s * width) as int, (e * width) as int),
        width,
        (e - s) as nat,
        stride,
        max,
        coloring,
        order,
    )
}

/// Bands `0..k` of `p`, each filled on its own, laid end to end.
pub open spec fn banded_fill(
    buf: Seq<u8>,
    values: Seq<u32>,
    width: nat,
    height: nat,
    stride: nat,
    max: u32,
    coloring: ColorScheme,
    order: ByteOrder,
    p: nat,
    k: nat,
) -> Seq<u8>
    decreases k,
{
    if k == 0 {
        Seq::empty()
    } else {
        banded_fill(buf, values, width, height, stride, max, coloring, order, p, (k - 1) as nat)
            + band_fill(buf, values, width, height, stride, max, coloring, order, p, (k - 1) as nat)
    }
}

proof fn lemma_rows_fill_alone(
    buf: Seq<u8>,
    values: Seq<u32>,
    width: nat,
    height: nat,
    stride: nat,
    max: u32,
    coloring: ColorScheme,
    order: ByteOrder,
    s: nat,
    e: nat,
)
    requires
        s <= e <= height,
        buf.len() == height * stride,
        values.len() == height * width,
        4 * width <= stride,
    ensures
        filled(
            buf.subrange((s * stride) as int, (e * stride) as int),
            values.subrange((s * width) as int, (e * width) as int),
            width,
            (e - s) as nat,
            stride,
            max,
            coloring,
            order,
        ) == filled(buf, values, width, height, stride, max, coloring, order).subrange(
            (s * stride) as int,
            (e * stride) as int,
        ),
{
    let rows = (e - s) as nat;
    assert(s * stride <= e * stride <= height * stride) by (nonlinear_arith)
        requires
            s <= e <= height,
    ;
    assert(s * width <= e * width <= height * width) by (nonlinear_arith)
        requires
            s <= e <= height,
    ;
    assert(rows * stride == e * stride - s * stride) by (nonlinear_arith)
        requires
            rows == e - s,
    ;
    let band = buf.subrange((s * stride) as int, (e * stride) as int);
    let vals = values.subrange((s * width) as int, (e * width) as int);
    let lhs = filled(band, vals, width, rows, stride, max, coloring, order);
    let whole = filled(buf, values, width, height, stride, max, coloring, order);
    let rhs = whole.subrange((s * stride) as int, (e * stride) as int);
    assert forall|j: int| 0 <= j < lhs.len() implies #[trigger] lhs[j] == rhs[j] by {
        let i = s * stride + j;
        let st = stride as int;
        assert(st > 0) by (nonlinear_arith)
            requires
                0 <= j < rows * st,
                st >= 0,
        ;
        lemma_fundamental_div_mod(j, st);
        let q = j / st;
        let m = j % st;
        assert(q < rows) by (nonlinear_arith)
            requires
                j == st * q + m,
                0 <= m,
                j < rows * st,
                st > 0,
        ;
        assert(0 <= q) by (nonlinear_arith)
            requires
                j == st * q + m,
                m < st,
                0 <= j,
                st > 0,
        ;
        assert(i == (s + q) * st + m) by (nonlinear_arith)
            requires
                i == s * st + j,
                j == st * q + m,
        ;
        lemma_fundamental_div_mod_converse(i, st, s + q, m);
        assert(in_pixel_area(j, width, rows, stride) == in_pixel_area(i, width, height, stride));
        if in_pixel_area(j, width, rows, stride) {
            let col = m / 4;
            assert(col < width);
            assert((s + q) * width + col == s * width + (q * width + col)) by (nonlinear_arith);
            assert(q * width + col < rows * width) by (nonlinear_arith)
                requires
                    q < rows,
                    col < width,
            ;
            assert(rows * width == e * width - s * width) by (nonlinear_arith)
                requires
                    rows == e - s,
            ;
            assert(vals[q * width + col] == values[(s + q) * width + col]);
            assert(pixel_byte(vals, width, stride, max, coloring, order, j) == pixel_byte(
                values,
                width,
                stride,
                max,
                coloring,
                order,
                i,
            ));
        }
    }
    assert(lhs =~= rhs);
}

/// Filling an image band by band gives the same bytes as filling it in one
/// pass, for every number of bands `p`: so the result does not depend on how
/// many workers share the work.
pub proof fn lemma_banded_fill_matches_serial(
    buf: Seq<u8>,
    values: Seq<u32>,
    width: nat,
    height: nat,
    stride: nat,
    max: u32,
    coloring: ColorScheme,
    order: ByteOrder,
    p: nat,
)
    requires
        p > 0,
        buf.len() == height * stride,
        values.len() == height * width,
        4 * width <= stride,
    ensures
        banded_fill(buf, values, width, height, stride, max, coloring, order, p, p) == filled(
            buf,
            values,
            width,
            height,
            stride,
            max,
            coloring,
            order,
        ),
{
    lemma_banded_prefix(buf, values, width, height, stride, max, coloring, order, p, p);
    lemma_split_end(height, p);
    let whole = filled(buf, values, width, height, stride, max, coloring, order);
    assert(whole.subrange(0, (height * stride) as int) =~= whole);
}

proof fn lemma_banded_prefix(
    buf: Seq<u8>,
    values: Seq<u32>,
    width: nat,
    height: nat,
    stride: nat,
    max: u32,
    coloring: ColorScheme,
    order: ByteOrder,
    p: nat,
    k: nat,
)
    requires
        p > 0,
        k <= p,
        buf.len() == height * stride,
        values.len() == height * width,
        4 * width <= stride,
    ensures
        banded_fill(buf, values, width, height, stride, max, coloring, order, p, k) == filled(
            buf,
            values,
            width,
            height,
            stride,
            max,
            coloring,
            order,
        ).subrange(0, (split_start(height, p, k) * stride) as int),
    decreases k,
{
    let whole = filled(buf, values, width, height, stride, max, coloring, order);
    if k == 0 {
        let q = height / p;
        assert(0 * q == 0) by (nonlinear_arith);
        assert(0 * stride == 0) by (nonlinear_arith);
        assert(whole.subrange(0, 0) =~= Seq::<u8>::empty());
    } else {
        let j = (k - 1) as nat;
        lemma_banded_prefix(buf, values, width, height, stride, max, coloring, order, p, j);
        lemma_split_monotone(height, p, j, k);
        lemma_split_monotone(height, p, k, p);
        lemma_split_end(height, p);
        let s = split_start(height, p, j);
        let e = split_start(height, p, k);
        lemma_rows_fill_alone(buf, values, width, height, stride, max, coloring, order, s, e);
        assert(s * stride <= e * stride <= height * stride) by (nonlinear_arith)
            requires
                s <= e <= height,
        ;
        assert(whole.subrange(0, (s * stride) as int) + whole.subrange(
            (s * stride) as int,
            (e * stride) as int,
        ) =~= whole.subrange(0, (e * stride) as int));
    }
}

} // verus!
