use vstd::prelude::*;
use crate::grid::{Rgb8, RgbImage8, lemma_row_major_index};
use crate::gradient::luma3_at;
use crate::ratio::Ratio;

verus! {

/// The one fatal error of the noise estimator: a block size that is zero or
/// does not fit strictly inside both image dimensions.
#[derive(Clone, Copy, PartialEq, Eq, Structural, Debug)]
pub enum NoiseError {
    InvalidBlockSize,
}

/// Sum of the grayscale intensities of `cnt` horizontally consecutive
/// pixels starting at `(x0, y)`.
pub open spec fn row_luma_sum(img: RgbImage8, x0: int, y: int, cnt: nat) -> int
    decreases cnt,
{
    if cnt == 0 {
        0
    } else {
        row_luma_sum(img, x0, y, (cnt - 1) as nat) + luma3_at(img, x0 + cnt - 1, y)
    }
}

/// Sum of the grayscale intensities of the `side`-wide, `rows`-tall block
/// whose lowest coordinates are `(x0, y0)`.
pub open spec fn block_luma_sum(img: RgbImage8, x0: int, y0: int, side: nat, rows: nat) -> int
    decreases rows,
{
    if rows == 0 {
        0
    } else {
        block_luma_sum(img, x0, y0, side, (rows - 1) as nat) + row_luma_sum(
            img,
            x0,
            y0 + rows - 1,
            side,
        )
    }
}

/// Sum over a pixel row of the squared centered intensities: each pixel
/// contributes `(n * luma - t)^2`, where `t` is the block's intensity sum
/// and `n` its pixel count.
pub open spec fn row_centered_sum(img: RgbImage8, x0: int, y: int, cnt: nat, n: int, t: int) -> int
    decreases cnt,
{
    if cnt == 0 {
        0
    } else {
        row_centered_sum(img, x0, y, (cnt - 1) as nat, n, t) + (n * luma3_at(img, x0 + cnt - 1, y)
            - t) * (n * luma3_at(img, x0 + cnt - 1, y) - t)
    }
}

pub open spec fn block_centered_sum(
    img: RgbImage8,
    x0: int,
    y0: int,
    side: nat,
    rows: nat,
    n: int,
    t: int,
) -> int
    decreases rows,
{
    if rows == 0 {
        0
    } else {
        block_centered_sum(img, x0, y0, side, (rows - 1) as nat, n, t) + row_centered_sum(
            img,
            x0,
            y0 + rows - 1,
            side,
            n,
            t,
        )
    }
}

/// Numerator of the population variance of the grayscale intensities of the
/// `bs x bs` tile at tile coordinates `(tx, ty)`: with `n = bs^2` pixels
/// and intensity sum `t`, the variance is
/// `sum of (n * luma - t)^2 over the tile, divided by n^3`.
pub open spec fn spec_tile_variance_num(img: RgbImage8, bs: int, tx: int, ty: int) -> int {
    let n = bs * bs;
    let t = block_luma_sum(img, tx * bs, ty * bs, bs as nat, bs as nat);
    block_centered_sum(img, tx * bs, ty * bs, bs as nat, bs as nat, n, t)
}

pub proof fn lemma_row_luma_sum_bounds(img: RgbImage8, x0: int, y: int, cnt: nat)
    ensures
        0 <= row_luma_sum(img, x0, y, cnt) <= 765 * cnt,
    decreases cnt,
{
    if cnt > 0 {
        lemma_row_luma_sum_bounds(img, x0, y, (cnt - 1) as nat);
    }
}

pub proof fn lemma_block_luma_sum_bounds(img: RgbImage8, x0: int, y0: int, side: nat, rows: nat)
    ensures
        0 <= block_luma_sum(img, x0, y0, side, rows) <= 765 * rows * side,
    decreases rows,
{
    if rows > 0 {
        lemma_block_luma_sum_bounds(img, x0, y0, side, (rows - 1) as nat);
        lemma_row_luma_sum_bounds(img, x0, y0 + rows - 1, side);
        assert(765 * (rows - 1) * side + 765 * side == 765 * rows * side) by (nonlinear_arith);
    }
}

pub proof fn lemma_row_centered_sum_bounds(
    img: RgbImage8,
    x0: int,
    y: int,
    cnt: nat,
    n: int,
    t: int,
    m: int,
)
    requires
        0 <= t <= m,
        765 * n <= m,
        0 <= n,
    ensures
        0 <= row_centered_sum(img, x0, y, cnt, n, t) <= cnt * (m * m),
    decreases cnt,
{
    if cnt > 0 {
        lemma_row_centered_sum_bounds(img, x0, y, (cnt - 1) as nat, n, t, m);
        let l = luma3_at(img, x0 + cnt - 1, y);
        let d = n * l - t;
        assert(0 <= d * d <= m * m) by (nonlinear_arith)
            requires
                d == n * l - t,
                0 <= t <= m,
                765 * n <= m,
                0 <= n,
                0 <= l <= 765,
        {}
        assert((cnt - 1) * (m * m) + m * m == cnt * (m * m)) by (nonlinear_arith);
    }
}

pub proof fn lemma_block_centered_sum_bounds(
    img: RgbImage8,
    x0: int,
    y0: int,
    side: nat,
    rows: nat,
    n: int,
    t: int,
    m: int,
)
    requires
        0 <= t <= m,
        765 * n <= m,
        0 <= n,
    ensures
        0 <= block_centered_sum(img, x0, y0, side, rows, n, t) <= rows * side * (m * m),
    decreases rows,
{
    if rows > 0 {
        lemma_block_centered_sum_bounds(img, x0, y0, side, (rows - 1) as nat, n, t, m);
        lemma_row_centered_sum_bounds(img, x0, y0 + rows - 1, side, n, t, m);
        assert((rows - 1) * side * (m * m) + side * (m * m) == rows * side * (m * m))
            by (nonlinear_arith);
    }
}

/// Population variance of the grayscale intensities of one `bs x bs` tile,
/// as the exact quotient `centered square sum / (bs^2)^3`.
fn tile_variance(img: &RgbImage8, bs: usize, x0: usize, y0: usize) -> (r: Ratio)
    requires
        img.wf(),
        1 <= bs <= 0xFFFF,
        x0 + bs <= img.width,
        y0 + bs <= img.height,
    ensures
        r.num == block_centered_sum(
            *img,
            x0 as int,
            y0 as int,
            bs as nat,
            bs as nat,
            (bs * bs) as int,
            block_luma_sum(*img, x0 as int, y0 as int, bs as nat, bs as nat),
        ),
        r.den == ((bs * bs) as int) * ((bs * bs) as int) * ((bs * bs) as int),
{
    proof {
        assert(1 <= (bs as int) * (bs as int) <= 0xFFFF * 0xFFFF) by (nonlinear_arith)
            requires
                1 <= bs <= 0xFFFF,
        {}
    }
    let n64: u64 = (bs as u64) * (bs as u64);
    let mut t_sum: u64 = 0;
    let mut row: usize = 0;
    while row < bs
        invariant
            img.wf(),
            1 <= bs <= 0xFFFF,
            x0 + bs <= img.width,
            y0 + bs <= img.height,
            row <= bs,
            t_sum == block_luma_sum(*img, x0 as int, y0 as int, bs as nat, row as nat),
        decreases bs - row,
    {
        let mut col: usize = 0;
        while col < bs
            invariant
                img.wf(),
                1 <= bs <= 0xFFFF,
                x0 + bs <= img.width,
                y0 + bs <= img.height,
                row < bs,
                col <= bs,
                t_sum == block_luma_sum(*img, x0 as int, y0 as int, bs as nat, row as nat)
                    + row_luma_sum(*img, x0 as int, (y0 + row) as int, col as nat),
            decreases bs - col,
        {
            proof {
                lemma_block_luma_sum_bounds(*img, x0 as int, y0 as int, bs as nat, row as nat);
                lemma_row_luma_sum_bounds(*img, x0 as int, (y0 + row) as int, col as nat);
                assert(765 * (row as int) * (bs as int) + 765 * (col as int) <= 765 * 0xFFFF
                    * 0xFFFF) by (nonlinear_arith)
                    requires
                        0 <= row < bs,
                        0 <= col <= bs,
                        bs <= 0xFFFF,
                {}
            }
            let l = img.at(x0 + col, y0 + row).luma3();
            t_sum = t_sum + l as u64;
            col = col + 1;
        }
        row = row + 1;
    }
    proof {
        lemma_block_luma_sum_bounds(*img, x0 as int, y0 as int, bs as nat, bs as nat);
        assert(765 * (bs as int) * (bs as int) == 765 * ((bs * bs) as int)) by (nonlinear_arith);
    }
    let ghost n_int: int = (bs * bs) as int;
    let ghost t_int: int = t_sum as int;
    let ghost m: int = 765 * n_int;
    let mut cs: u128 = 0;
    let mut row: usize = 0;
    while row < bs
        invariant
            img.wf(),
            1 <= bs <= 0xFFFF,
            x0 + bs <= img.width,
            y0 + bs <= img.height,
            row <= bs,
            n64 == bs * bs,
            n_int == (bs * bs) as int,
            n_int <= 0xFFFF * 0xFFFF,
            t_int == t_sum as int,
            m == 765 * n_int,
            0 <= t_int <= m,
            cs == block_centered_sum(
                *img,
                x0 as int,
                y0 as int,
                bs as nat,
                row as nat,
                n_int,
                t_int,
            ),
        decreases bs - row,
    {
        let mut col: usize = 0;
        while col < bs
            invariant
                img.wf(),
                1 <= bs <= 0xFFFF,
                x0 + bs <= img.width,
                y0 + bs <= img.height,
                row < bs,
                col <= bs,
                n64 == bs * bs,
                n_int == (bs * bs) as int,
                n_int <= 0xFFFF * 0xFFFF,
                t_int == t_sum as int,
                m == 765 * n_int,
                0 <= t_int <= m,
                cs == block_centered_sum(
                    *img,
                    x0 as int,
                    y0 as int,
                    bs as nat,
                    row as nat,
                    n_int,
                    t_int,
                ) + row_centered_sum(
                    *img,
                    x0 as int,
                    (y0 + row) as int,
                    col as nat,
                    n_int,
                    t_int,
                ),
            decreases bs - col,
        {
            proof {
                lemma_block_centered_sum_bounds(
                    *img,
                    x0 as int,
                    y0 as int,
                    bs as nat,
                    row as nat,
                    n_int,
                    t_int,
                    m,
                );
                lemma_row_centered_sum_bounds(
                    *img,
                    x0 as int,
                    (y0 + row) as int,
                    col as nat,
                    n_int,
                    t_int,
                    m,
                );
                assert((row as int) * (bs as int) * (m * m) + (col as int) * (m * m) <= 0xFFFF
                    * 0xFFFF * (m * m)) by (nonlinear_arith)
                    requires
                        0 <= row < bs,
                        0 <= col <= bs,
                        bs <= 0xFFFF,
                        0 <= m,
                {}
                assert((0xFFFF * 0xFFFF + 1) * (m * m)
                    < 0x1_0000_0000_0000_0000_0000_0000_0000_0000) by (nonlinear_arith)
                    requires
                        0 <= m <= 765 * 0xFFFF * 0xFFFF,
                {}
            }
            let l = img.at(x0 + col, y0 + row).luma3();
            proof {
                assert(0 <= (n64 as int) * (l as int) <= 0xFFFF * 0xFFFF * 765)
                    by (nonlinear_arith)
                    requires
                        0 <= n64 <= 0xFFFF * 0xFFFF,
                        0 <= l <= 765,
                {}
            }
            let d: i128 = (n64 as i128) * (l as i128) - (t_sum as i128);
            proof {
                let li = l as int;
                assert(-m <= n_int * li - t_int <= m) by (nonlinear_arith)
                    requires
                        0 <= li <= 765,
                        0 <= t_int <= m,
                        m == 765 * n_int,
                        0 <= n_int,
                {}
                assert(0 <= (n_int * li - t_int) * (n_int * li - t_int) <= m * m)
                    by (nonlinear_arith)
                    requires
                        -m <= n_int * li - t_int <= m,
                {}
                assert(m * m <= 765 * 0xFFFF * 0xFFFF * 765 * 0xFFFF * 0xFFFF)
                    by (nonlinear_arith)
                    requires
                        0 <= m <= 765 * 0xFFFF * 0xFFFF,
                {}
                assert(d == n_int * li - t_int);
            }
            let sq: u128 = (d * d) as u128;
            cs = cs + sq;
            col = col + 1;
        }
        row = row + 1;
    }
    proof {
        let ni = (bs * bs) as int;
        assert(1 <= ni <= 0xFFFF * 0xFFFF);
        assert(ni * ni <= 0xFFFF * 0xFFFF * 0xFFFF * 0xFFFF && ni * ni * ni
            < 0x1_0000_0000_0000_0000_0000_0000_0000_0000) by (nonlinear_arith)
            requires
                1 <= ni <= 0xFFFF * 0xFFFF,
        {}
    }
    let n128: u128 = n64 as u128;
    Ratio { num: cs, den: n128 * n128 * n128 }
}

/// The exact denominator shared by every tile variance: `(bs^2)^3`.
pub open spec fn tile_den(bs: int) -> int {
    (bs * bs) * (bs * bs) * (bs * bs)
}

/// Entry `(tx, ty)` of the tile-variance vector is the exact variance ratio
/// of that tile.
pub open spec fn tile_entry_ok(
    img: RgbImage8,
    s: Seq<Ratio>,
    bs: int,
    tiles_x: int,
    tx: int,
    ty: int,
) -> bool {
    &&& s[ty * tiles_x + tx].num == spec_tile_variance_num(img, bs, tx, ty)
    &&& s[ty * tiles_x + tx].den == tile_den(bs)
}

/// Entry `k` of the tile-variance vector, decoded to tile coordinates in
/// row-major order, is the exact variance ratio of that tile.
pub open spec fn tile_entry_flat(img: RgbImage8, s: Seq<Ratio>, bs: int, tiles_x: int, k: int) -> bool {
    &&& s[k].num == spec_tile_variance_num(img, bs, k % tiles_x, k / tiles_x)
    &&& s[k].den == tile_den(bs)
}

/// Block-wise noise estimate: partition the image into non-overlapping
/// `block_size x block_size` tiles (remainder pixels at the far edges are
/// dropped) and return, in row-major tile order, the population variance of
/// each tile's grayscale intensity as an exact ratio.  The RMS noise figure
/// is the mean of the square roots of these ratios, an irrational finishing
/// step left to the caller.  Intensities are on the 0..=765 channel-sum
/// scale, so a caller wanting the 0..=255 scale divides each square root by
/// three.
///
/// Fails, computing nothing, when the block size is zero or reaches either
/// image dimension.  The block size is capped so that the exact denominator
/// `(block_size^2)^3` fits the ratio's field.
pub fn measure_rms_noise(img: &RgbImage8, block_size: usize) -> (r: Result<
    Vec<Ratio>,
    NoiseError,
>)
    requires
        img.wf(),
        block_size <= 0xFFFF,
    ensures
        r is Err <==> (block_size == 0 || block_size >= img.width || block_size >= img.height),
        match r {
            Ok(v) => {
                &&& v.len() == (img.width as int / block_size as int) * (
                img.height as int / block_size as int)
                &&& forall|tx: int, ty: int|
                    0 <= tx < img.width as int / block_size as int && 0 <= ty < img.height as int
                        / block_size as int ==> #[trigger] tile_entry_ok(
                        *img,
                        v@,
                        block_size as int,
                        img.width as int / block_size as int,
                        tx,
                        ty,
                    )
            },
            Err(e) => e == NoiseError::InvalidBlockSize,
        },
{
    if block_size == 0 || block_size >= img.width || block_size >= img.height {
        return Err(NoiseError::InvalidBlockSize);
    }
    let bs = block_size;
    let tiles_x = img.width / bs;
    let tiles_y = img.height / bs;
    proof {
        vstd::arithmetic::div_mod::lemma_fundamental_div_mod(img.width as int, bs as int);
        vstd::arithmetic::div_mod::lemma_fundamental_div_mod(img.height as int, bs as int);
        vstd::arithmetic::div_mod::lemma_mod_bound(img.width as int, bs as int);
        vstd::arithmetic::div_mod::lemma_mod_bound(img.height as int, bs as int);
        assert(tiles_x * bs <= img.width) by (nonlinear_arith)
            requires
                img.width as int == (bs as int) * (tiles_x as int) + img.width as int % (
                bs as int),
                img.width as int % (bs as int) >= 0,
        {}
        assert(tiles_y * bs <= img.height) by (nonlinear_arith)
            requires
                img.height as int == (bs as int) * (tiles_y as int) + img.height as int % (
                bs as int),
                img.height as int % (bs as int) >= 0,
        {}
        assert(tiles_x * tiles_y * 1 <= usize::MAX) by (nonlinear_arith)
            requires
                0 <= tiles_x,
                0 <= tiles_y,
                tiles_x * (bs as int) <= img.width,
                tiles_y * (bs as int) <= img.height,
                1 <= bs,
                img.width * img.height <= usize::MAX,
        {}
    }
    let mut out: Vec<Ratio> = Vec::new();
    let mut ty: usize = 0;
    while ty < tiles_y
        invariant
            img.wf(),
            1 <= bs <= 0xFFFF,
            bs < img.width,
            bs < img.height,
            tiles_x == img.width as int / bs as int,
            tiles_y == img.height as int / bs as int,
            tiles_x * bs <= img.width,
            tiles_y * bs <= img.height,
            tiles_x * tiles_y <= usize::MAX,
            ty <= tiles_y,
            out.len() == ty * tiles_x,
            forall|k: int|
                0 <= k < out.len() ==> #[trigger] tile_entry_flat(*img, out@, bs as int, tiles_x as int, k),
        decreases tiles_y - ty,
    {
        let mut tx: usize = 0;
        while tx < tiles_x
            invariant
                img.wf(),
                1 <= bs <= 0xFFFF,
                bs < img.width,
                bs < img.height,
                tiles_x == img.width as int / bs as int,
                tiles_y == img.height as int / bs as int,
                tiles_x * bs <= img.width,
                tiles_y * bs <= img.height,
                tiles_x * tiles_y <= usize::MAX,
                ty < tiles_y,
                tx <= tiles_x,
                out.len() == ty * tiles_x + tx,
                forall|k: int|
                    0 <= k < out.len() ==> #[trigger] tile_entry_flat(*img, out@, bs as int, tiles_x as int, k),
            decreases tiles_x - tx,
        {
            proof {
                assert(tx * bs + bs <= img.width && ty * bs + bs <= img.height)
                    by (nonlinear_arith)
                    requires
                        0 <= tx < tiles_x,
                        0 <= ty < tiles_y,
                        1 <= bs,
                        tiles_x * (bs as int) <= img.width,
                        tiles_y * (bs as int) <= img.height,
                {}
                assert(ty * tiles_x + tx < tiles_x * tiles_y) by (nonlinear_arith)
                    requires
                        0 <= tx < tiles_x,
                        0 <= ty < tiles_y,
                {}
            }
            let x0 = tx * bs;
            let y0 = ty * bs;
            let rt = tile_variance(img, bs, x0, y0);
            proof {
                assert(x0 as int == (tx as int) * (bs as int)) by (nonlinear_arith)
                    requires
                        x0 == tx * bs,
                {}
            }
            let ghost pre = out@;
            out.push(rt);
            proof {
                let k0 = (ty as int) * (tiles_x as int) + tx as int;
                vstd::arithmetic::div_mod::lemma_fundamental_div_mod_converse(
                    k0,
                    tiles_x as int,
                    ty as int,
                    tx as int,
                );
                assert(tile_entry_flat(*img, out@, bs as int, tiles_x as int, k0));
                assert forall|k: int|
                    0 <= k < out.len() implies #[trigger] tile_entry_flat(
                    *img,
                    out@,
                    bs as int,
                    tiles_x as int,
                    k,
                ) by {
                    if k < k0 {
                        assert(tile_entry_flat(*img, pre, bs as int, tiles_x as int, k));
                        assert(out@[k] == pre[k]);
                    }
                }
            }
            tx = tx + 1;
        }
        proof {
            assert((ty + 1) * tiles_x == ty * tiles_x + tiles_x) by (nonlinear_arith);
        }
        ty = ty + 1;
    }
    proof {
        assert forall|tx: int, ty: int|
            0 <= tx < tiles_x && 0 <= ty < tiles_y implies #[trigger] tile_entry_ok(
            *img,
            out@,
            bs as int,
            tiles_x as int,
            tx,
            ty,
        ) by {
            let k = ty * (tiles_x as int) + tx;
            lemma_row_major_index(tiles_x as int, tiles_y as int, tx, ty);
            assert(out.len() == (tiles_y as int) * (tiles_x as int));
            assert((tiles_y as int) * (tiles_x as int) == (tiles_x as int) * (tiles_y as int))
                by (nonlinear_arith);
            vstd::arithmetic::div_mod::lemma_fundamental_div_mod_converse(
                k,
                tiles_x as int,
                ty,
                tx,
            );
            assert(tile_entry_flat(*img, out@, bs as int, tiles_x as int, k));
        }
    }
    Ok(out)
}

/// On a uniform image every tile's intensities are equal, so every tile's
/// variance numerator is zero: the RMS noise of a perfectly uniform image
/// is zero.
pub proof fn lemma_uniform_noise_zero(img: RgbImage8, p: Rgb8, bs: int, tx: int, ty: int)
    requires
        img.wf(),
        forall|x: int, y: int|
            0 <= x < img.width && 0 <= y < img.height ==> #[trigger] img.spec_at(x, y) == p,
        1 <= bs,
        0 <= tx,
        0 <= ty,
        (tx + 1) * bs <= img.width,
        (ty + 1) * bs <= img.height,
    ensures
        spec_tile_variance_num(img, bs, tx, ty) == 0,
{
    let x0 = tx * bs;
    let y0 = ty * bs;
    let l = p.spec_luma3();
    assert(0 <= x0 && x0 + bs <= img.width) by (nonlinear_arith)
        requires
            0 <= tx,
            1 <= bs,
            (tx + 1) * bs <= img.width,
            x0 == tx * bs,
    {}
    assert(0 <= y0 && y0 + bs <= img.height) by (nonlinear_arith)
        requires
            0 <= ty,
            1 <= bs,
            (ty + 1) * bs <= img.height,
            y0 == ty * bs,
    {}
    lemma_uniform_block_luma_sum(img, p, x0, y0, bs as nat, bs as nat);
    assert(bs * bs * l == (bs * bs) * l) by (nonlinear_arith);
    lemma_uniform_block_centered_zero(img, p, x0, y0, bs as nat, bs as nat, bs * bs, (bs * bs) * l);
}

proof fn lemma_uniform_row_luma_sum(img: RgbImage8, p: Rgb8, x0: int, y: int, cnt: nat)
    requires
        img.wf(),
        forall|x: int, yy: int|
            0 <= x < img.width && 0 <= yy < img.height ==> #[trigger] img.spec_at(x, yy) == p,
        0 <= x0,
        x0 + cnt <= img.width,
        0 <= y < img.height,
    ensures
        row_luma_sum(img, x0, y, cnt) == cnt * p.spec_luma3(),
    decreases cnt,
{
    if cnt == 0 {
        assert(cnt * p.spec_luma3() == 0) by (nonlinear_arith)
            requires
                cnt == 0,
        {}
    }
    if cnt > 0 {
        lemma_uniform_row_luma_sum(img, p, x0, y, (cnt - 1) as nat);
        assert(img.spec_at(x0 + cnt - 1, y) == p);
        assert(luma3_at(img, x0 + cnt - 1, y) == p.spec_luma3());
        assert(row_luma_sum(img, x0, y, cnt) == row_luma_sum(img, x0, y, (cnt - 1) as nat)
            + luma3_at(img, x0 + cnt - 1, y));
        assert(row_luma_sum(img, x0, y, (cnt - 1) as nat) == ((cnt - 1) as nat)
            * p.spec_luma3());
        assert(((cnt - 1) as nat) * p.spec_luma3() == (cnt - 1) * p.spec_luma3())
            by (nonlinear_arith)
            requires
                cnt >= 1,
        {}
        assert((cnt - 1) * p.spec_luma3() + p.spec_luma3() == cnt * p.spec_luma3())
            by (nonlinear_arith);
    }
}

proof fn lemma_uniform_block_luma_sum(
    img: RgbImage8,
    p: Rgb8,
    x0: int,
    y0: int,
    side: nat,
    rows: nat,
)
    requires
        img.wf(),
        forall|x: int, yy: int|
            0 <= x < img.width && 0 <= yy < img.height ==> #[trigger] img.spec_at(x, yy) == p,
        0 <= x0,
        x0 + side <= img.width,
        0 <= y0,
        y0 + rows <= img.height,
    ensures
        block_luma_sum(img, x0, y0, side, rows) == rows * side * p.spec_luma3(),
    decreases rows,
{
    if rows == 0 {
        assert(0 * side * p.spec_luma3() == 0) by (nonlinear_arith);
    } else {
        lemma_uniform_block_luma_sum(img, p, x0, y0, side, (rows - 1) as nat);
        lemma_uniform_row_luma_sum(img, p, x0, y0 + rows - 1, side);
        assert((rows - 1) * side * p.spec_luma3() + side * p.spec_luma3() == rows * side
            * p.spec_luma3()) by (nonlinear_arith);
    }
}

proof fn lemma_uniform_row_centered_zero(
    img: RgbImage8,
    p: Rgb8,
    x0: int,
    y: int,
    cnt: nat,
    n: int,
    t: int,
)
    requires
        img.wf(),
        forall|x: int, yy: int|
            0 <= x < img.width && 0 <= yy < img.height ==> #[trigger] img.spec_at(x, yy) == p,
        0 <= x0,
        x0 + cnt <= img.width,
        0 <= y < img.height,
        t == n * p.spec_luma3(),
    ensures
        row_centered_sum(img, x0, y, cnt, n, t) == 0,
    decreases cnt,
{
    if cnt > 0 {
        lemma_uniform_row_centered_zero(img, p, x0, y, (cnt - 1) as nat, n, t);
        assert(img.spec_at(x0 + cnt - 1, y) == p);
        assert(n * luma3_at(img, x0 + cnt - 1, y) - t == 0);
    }
}

proof fn lemma_uniform_block_centered_zero(
    img: RgbImage8,
    p: Rgb8,
    x0: int,
    y0: int,
    side: nat,
    rows: nat,
    n: int,
    t: int,
)
    requires
        img.wf(),
        forall|x: int, yy: int|
            0 <= x < img.width && 0 <= yy < img.height ==> #[trigger] img.spec_at(x, yy) == p,
        0 <= x0,
        x0 + side <= img.width,
        0 <= y0,
        y0 + rows <= img.height,
        t == n * p.spec_luma3(),
    ensures
        block_centered_sum(img, x0, y0, side, rows, n, t) == 0,
    decreases rows,
{
    if rows > 0 {
        lemma_uniform_block_centered_zero(img, p, x0, y0, side, (rows - 1) as nat, n, t);
        lemma_uniform_row_centered_zero(img, p, x0, y0 + rows - 1, side, n, t);
    }
}

} // verus!
