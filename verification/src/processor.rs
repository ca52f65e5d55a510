//! Turning a picture into a signal and a processed signal back into a picture.
use vstd::prelude::*;
use vstd::arithmetic::div_mod::lemma_fundamental_div_mod_converse;
use crate::parameters::{AlphaMode, ColorMode, OrderMode};
use crate::picture::{Picture, painted, wrapped_index, covers, accessible_in};

verus! {

/// Whether the effects are reset before a sample is processed.
#[derive(Clone, Copy, PartialEq, Eq, Debug, Structural)]
pub enum Flag {
    Reset,
    Continue,
}

/// The pixel read at position `k` of the signal, for a `width * height` picture.
pub open spec fn order_coord(order_mode: OrderMode, width: int, height: int, k: int) -> (int, int) {
    match order_mode {
        OrderMode::Row => (k % width, k / width),
        OrderMode::Column => (k / height, k % height),
        OrderMode::ReverseRow => (width - 1 - k % width, k / width),
        OrderMode::ReverseColumn => (k / height, height - 1 - k % height),
    }
}

/// `k = q * d + r` with `0 <= r < d` splits `k` into quotient `q` and remainder `r`.
proof fn lemma_div_mod(k: int, d: int, q: int, r: int)
    requires
        0 < d,
        0 <= r < d,
        k == q * d + r,
    ensures
        k / d == q,
        k % d == r,
{
    lemma_fundamental_div_mod_converse(k, d, q, r);
}

/// Lays the pixels of `picture` out in one line, row by row or column by
/// column, each possibly reversed.
pub fn order_signal(picture: &Picture, order_mode: OrderMode) -> (ordered: Vec<[u8; 4]>)
    requires
        picture.accessible_grid(),
    ensures
        ordered@.len() == picture.width * picture.height,
        forall|k: int|
            0 <= k < ordered@.len() ==> #[trigger] ordered@[k]@ == picture.pixel_at(
                order_coord(order_mode, picture.width as int, picture.height as int, k).0,
                order_coord(order_mode, picture.width as int, picture.height as int, k).1,
            ),
{
    let width = picture.width;
    let height = picture.height;
    let mut ordered: Vec<[u8; 4]> = Vec::new();
    match order_mode {
        OrderMode::Row | OrderMode::ReverseRow => {
            let reverse = order_mode == OrderMode::ReverseRow;
            let mut y: usize = 0;
            while y < height
                invariant
                    width == picture.width,
                    height == picture.height,
                    picture.accessible_grid(),
                    reverse == (order_mode == OrderMode::ReverseRow),
                    order_mode == OrderMode::Row || order_mode == OrderMode::ReverseRow,
                    y <= height,
                    ordered@.len() == y * width,
                    forall|k: int|
                        0 <= k < ordered@.len() ==> #[trigger] ordered@[k]@ == picture.pixel_at(
                            order_coord(order_mode, width as int, height as int, k).0,
                            order_coord(order_mode, width as int, height as int, k).1,
                        ),
                decreases height - y,
            {
                let mut i: usize = 0;
                while i < width
                    invariant
                        width == picture.width,
                        height == picture.height,
                        picture.accessible_grid(),
                        reverse == (order_mode == OrderMode::ReverseRow),
                        order_mode == OrderMode::Row || order_mode == OrderMode::ReverseRow,
                        y < height,
                        i <= width,
                        ordered@.len() == y * width + i,
                        forall|k: int|
                            0 <= k < ordered@.len() ==> #[trigger] ordered@[k]@ == picture.pixel_at(
                                order_coord(order_mode, width as int, height as int, k).0,
                                order_coord(order_mode, width as int, height as int, k).1,
                            ),
                    decreases width - i,
                {
                    let x = if reverse { width - 1 - i } else { i };
                    assert(picture.accessible(x as int, y as int));
                    let pixel = picture.get_pixel(x, y);
                    proof {
                        lemma_div_mod(y * width + i, width as int, y as int, i as int);
                    }
                    ordered.push([pixel[0], pixel[1], pixel[2], pixel[3]]);
                    proof {
                        let k = y * width + i;
                        assert(ordered@[k]@ =~= pixel@);
                    }
                    i = i + 1;
                }
                proof {
                    assert(y * width + width == (y + 1) * width) by (nonlinear_arith);
                }
                y = y + 1;
            }
        },
        OrderMode::Column | OrderMode::ReverseColumn => {
            let reverse = order_mode == OrderMode::ReverseColumn;
            let mut x: usize = 0;
            while x < width
                invariant
                    width == picture.width,
                    height == picture.height,
                    picture.accessible_grid(),
                    reverse == (order_mode == OrderMode::ReverseColumn),
                    order_mode == OrderMode::Column || order_mode == OrderMode::ReverseColumn,
                    x <= width,
                    ordered@.len() == x * height,
                    forall|k: int|
                        0 <= k < ordered@.len() ==> #[trigger] ordered@[k]@ == picture.pixel_at(
                            order_coord(order_mode, width as int, height as int, k).0,
                            order_coord(order_mode, width as int, height as int, k).1,
                        ),
                decreases width - x,
            {
                let mut i: usize = 0;
                while i < height
                    invariant
                        width == picture.width,
                        height == picture.height,
                        picture.accessible_grid(),
                        reverse == (order_mode == OrderMode::ReverseColumn),
                        order_mode == OrderMode::Column || order_mode == OrderMode::ReverseColumn,
                        x < width,
                        i <= height,
                        ordered@.len() == x * height + i,
                        forall|k: int|
                            0 <= k < ordered@.len() ==> #[trigger] ordered@[k]@ == picture.pixel_at(
                                order_coord(order_mode, width as int, height as int, k).0,
                                order_coord(order_mode, width as int, height as int, k).1,
                            ),
                    decreases height - i,
                {
                    let y = if reverse { height - 1 - i } else { i };
                    assert(picture.accessible(x as int, y as int));
                    let pixel = picture.get_pixel(x, y);
                    proof {
                        lemma_div_mod(x * height + i, height as int, x as int, i as int);
                    }
                    ordered.push([pixel[0], pixel[1], pixel[2], pixel[3]]);
                    proof {
                        let k = x * height + i;
                        assert(ordered@[k]@ =~= pixel@);
                    }
                    i = i + 1;
                }
                proof {
                    assert(x * height + height == (x + 1) * height) by (nonlinear_arith);
                }
                x = x + 1;
            }
        },
    }
    proof {
        assert(picture.height * picture.width == picture.width * picture.height) by (nonlinear_arith);
    }
    ordered
}

/// `Reset` when `reset` holds, else `Continue`.
pub open spec fn flag_of(reset: bool) -> Flag {
    if reset {
        Flag::Reset
    } else {
        Flag::Continue
    }
}

/// The number of pixels in one line of the ordered signal: a row for the row
/// orders, a column for the column orders.
pub open spec fn line_length(order_mode: OrderMode, width: int, height: int) -> int {
    match order_mode {
        OrderMode::Column | OrderMode::ReverseColumn => height,
        OrderMode::Row | OrderMode::ReverseRow => width,
    }
}

/// The channel that the Bayer pattern samples, from its row and column parity:
/// green, red / blue, green.
pub open spec fn bayer_channel(row: bool, column: bool) -> int {
    if !column {
        if !row { 1 } else { 0 }
    } else {
        if !row { 2 } else { 1 }
    }
}

/// The Bayer row parity at pixel `j` of a signal whose lines are `m` pixels
/// long; it flips at every line start after the first.
pub open spec fn bayer_row(j: int, m: int) -> bool {
    if m == 0 {
        true
    } else {
        (j / m) % 2 == 1
    }
}

/// Whether pixel `j` starts a new line in Bayer mode (the first pixel does not,
/// unless lines are empty).
pub open spec fn bayer_line_start(j: int, m: int) -> bool {
    if m == 0 {
        j == 0
    } else {
        j > 0 && j % m == 0
    }
}

/// The length of the signal that `split_colors` makes from `n` ordered pixels.
pub open spec fn split_len(color_mode: ColorMode, n: int, width: int, height: int, channels: int) -> int {
    match color_mode {
        ColorMode::Composite => channels * n,
        ColorMode::Interleaved => width * height * channels,
        ColorMode::Bayer => n,
    }
}

/// Entry `k` of the signal that `split_colors` makes:
/// - Composite: one lane per channel, each lane holding that channel of every
///   pixel in order, with a reset at the start of every line;
/// - Interleaved: the channels of each pixel one after the other, with a reset
///   on the first channel of each pixel that starts a row of the grid;
/// - Bayer: one channel per pixel as the Bayer pattern picks it, with a reset
///   at every line start after the first.
pub open spec fn split_entry(
    ordered: Seq<[u8; 4]>,
    width: int,
    height: int,
    order_mode: OrderMode,
    color_mode: ColorMode,
    channels: int,
    continuous: bool,
    k: int,
) -> (u8, Flag) {
    let n = ordered.len() as int;
    let m = line_length(order_mode, width, height);
    match color_mode {
        ColorMode::Composite => {
            let channel = k / n;
            let j = k % n;
            (ordered[j]@[channel], flag_of(!continuous && j % m == 0))
        },
        ColorMode::Interleaved => {
            let p = k / channels;
            let channel = k % channels;
            (ordered[p]@[channel], flag_of(!continuous && channel == 0 && p % width == 0))
        },
        ColorMode::Bayer => {
            let channel = bayer_channel(bayer_row(k, m), k % 2 == 1);
            (ordered[k]@[channel], flag_of(!continuous && bayer_line_start(k, m)))
        },
    }
}

/// Whether `split_colors` runs without an out-of-bounds read or a division by
/// zero on these inputs.
pub open spec fn can_split(
    n: int,
    width: int,
    height: int,
    order_mode: OrderMode,
    color_mode: ColorMode,
    channels: int,
    continuous: bool,
) -> bool {
    match color_mode {
        ColorMode::Composite => {
            &&& n > 0 ==> channels <= 4
            &&& (n > 0 && channels > 0 && !continuous) ==> line_length(order_mode, width, height) > 0
        },
        ColorMode::Interleaved => (width * height > 0 && channels > 0) ==> (width * height <= n
            && channels <= 4),
        ColorMode::Bayer => true,
    }
}

/// Turns the ordered pixels into a signal of channel values, each marked with
/// whether the effects are reset before it, according to the color mode.
pub fn split_colors(
    ordered: &Vec<[u8; 4]>,
    width: usize,
    height: usize,
    order_mode: OrderMode,
    color_mode: ColorMode,
    number_of_channels: usize,
    continuous: bool,
) -> (signal: Vec<(u8, Flag)>)
    requires
        can_split(
            ordered@.len() as int,
            width as int,
            height as int,
            order_mode,
            color_mode,
            number_of_channels as int,
            continuous,
        ),
    ensures
        signal@.len() == split_len(
            color_mode,
            ordered@.len() as int,
            width as int,
            height as int,
            number_of_channels as int,
        ),
        forall|k: int|
            0 <= k < signal@.len() ==> #[trigger] signal@[k] == split_entry(
                ordered@,
                width as int,
                height as int,
                order_mode,
                color_mode,
                number_of_channels as int,
                continuous,
                k,
            ),
{
    let ghost spec_ordered = ordered@;
    let mut signal: Vec<(u8, Flag)> = Vec::new();
    let modulo: usize = match order_mode {
        OrderMode::Column | OrderMode::ReverseColumn => height,
        OrderMode::Row | OrderMode::ReverseRow => width,
    };
    let n = ordered.len();
    match color_mode {
        ColorMode::Composite => {
            let mut i: usize = 0;
            while i < number_of_channels
                invariant
                    spec_ordered == ordered@,
                    n == ordered@.len(),
                    modulo == line_length(order_mode, width as int, height as int),
                    color_mode == ColorMode::Composite,
                    can_split(n as int, width as int, height as int, order_mode, color_mode, number_of_channels as int, continuous),
                    i <= number_of_channels,
                    signal@.len() == i * n,
                    forall|k: int|
                        0 <= k < signal@.len() ==> #[trigger] signal@[k] == split_entry(
                            spec_ordered, width as int, height as int, order_mode, color_mode,
                            number_of_channels as int, continuous, k,
                        ),
                decreases number_of_channels - i,
            {
                let mut count: usize = 0;
                while count < n
                    invariant
                        spec_ordered == ordered@,
                        n == ordered@.len(),
                        modulo == line_length(order_mode, width as int, height as int),
                        color_mode == ColorMode::Composite,
                        can_split(n as int, width as int, height as int, order_mode, color_mode, number_of_channels as int, continuous),
                        i < number_of_channels,
                        count <= n,
                        signal@.len() == i * n + count,
                        forall|k: int|
                            0 <= k < signal@.len() ==> #[trigger] signal@[k] == split_entry(
                                spec_ordered, width as int, height as int, order_mode, color_mode,
                                number_of_channels as int, continuous, k,
                            ),
                    decreases n - count,
                {
                    let pixel = ordered[count];
                    let mut flag = Flag::Continue;
                    if continuous == false && count % modulo == 0 {
                        flag = Flag::Reset;
                    }
                    proof {
                        lemma_div_mod(i * n + count, n as int, i as int, count as int);
                    }
                    signal.push((pixel[i], flag));
                    count = count + 1;
                }
                proof {
                    assert(i * n + n == (i + 1) * n) by (nonlinear_arith);
                }
                i = i + 1;
            }
        },
        ColorMode::Interleaved => {
            let mut y: usize = 0;
            proof {
                assert((0 * width) * number_of_channels == 0) by (nonlinear_arith);
            }
            while y < height
                invariant
                    spec_ordered == ordered@,
                    n == ordered@.len(),
                    color_mode == ColorMode::Interleaved,
                    can_split(n as int, width as int, height as int, order_mode, color_mode, number_of_channels as int, continuous),
                    y <= height,
                    signal@.len() == (y * width) * number_of_channels,
                    forall|k: int|
                        0 <= k < signal@.len() ==> #[trigger] signal@[k] == split_entry(
                            spec_ordered, width as int, height as int, order_mode, color_mode,
                            number_of_channels as int, continuous, k,
                        ),
                decreases height - y,
            {
                let mut x: usize = 0;
                while x < width
                    invariant
                        spec_ordered == ordered@,
                        n == ordered@.len(),
                        color_mode == ColorMode::Interleaved,
                        can_split(n as int, width as int, height as int, order_mode, color_mode, number_of_channels as int, continuous),
                        y < height,
                        x <= width,
                        signal@.len() == (y * width + x) * number_of_channels,
                        forall|k: int|
                            0 <= k < signal@.len() ==> #[trigger] signal@[k] == split_entry(
                                spec_ordered, width as int, height as int, order_mode, color_mode,
                                number_of_channels as int, continuous, k,
                            ),
                    decreases width - x,
                {
                    let mut flag = Flag::Continue;
                    if continuous == false && x == 0 {
                        flag = Flag::Reset;
                    }
                    let ghost p = y * width + x;
                    proof {
                        assert(y * width + x < width * height) by (nonlinear_arith)
                            requires
                                y < height,
                                x < width,
                        ;
                        lemma_div_mod(p, width as int, y as int, x as int);
                    }
                    let mut i: usize = 0;
                    while i < number_of_channels
                        invariant
                            spec_ordered == ordered@,
                            n == ordered@.len(),
                            color_mode == ColorMode::Interleaved,
                            can_split(n as int, width as int, height as int, order_mode, color_mode, number_of_channels as int, continuous),
                            y < height,
                            x < width,
                            p == y * width + x,
                            p < width * height,
                            p % (width as int) == x,
                            i <= number_of_channels,
                            flag == flag_of(!continuous && i == 0 && x == 0),
                            signal@.len() == p * number_of_channels + i,
                            forall|k: int|
                                0 <= k < signal@.len() ==> #[trigger] signal@[k] == split_entry(
                                    spec_ordered, width as int, height as int, order_mode, color_mode,
                                    number_of_channels as int, continuous, k,
                                ),
                        decreases number_of_channels - i,
                    {
                        let pixel = ordered[x + y * width];
                        proof {
                            lemma_div_mod(p * number_of_channels + i, number_of_channels as int, p, i as int);
                        }
                        signal.push((pixel[i], flag));
                        // only the first channel of a pixel resets
                        flag = Flag::Continue;
                        i = i + 1;
                    }
                    proof {
                        assert(p * number_of_channels + number_of_channels == (y * width + x + 1) * number_of_channels)
                            by (nonlinear_arith)
                            requires
                                p == y * width + x,
                        ;
                    }
                    x = x + 1;
                }
                proof {
                    assert((y * width + width) * number_of_channels == ((y + 1) * width) * number_of_channels)
                        by (nonlinear_arith);
                }
                y = y + 1;
            }
            proof {
                assert(height * width * number_of_channels == width * height * number_of_channels) by (nonlinear_arith);
            }
        },
        ColorMode::Bayer => {
            let mut count: usize = 0;
            let mut bayer_row_flag = false;
            let mut bayer_column_flag = false;
            let mut j: usize = 0;
            while j < n
                invariant
                    spec_ordered == ordered@,
                    n == ordered@.len(),
                    modulo == line_length(order_mode, width as int, height as int),
                    color_mode == ColorMode::Bayer,
                    j <= n,
                    signal@.len() == j,
                    bayer_column_flag == (j % 2 == 1),
                    j > 0 ==> bayer_row_flag == bayer_row(j - 1, modulo as int),
                    j > 0 ==> count == (if modulo == 0 { j as int } else { (j - 1) % (modulo as int) + 1 }),
                    j == 0 ==> count == 0 && !bayer_row_flag,
                    forall|k: int|
                        0 <= k < signal@.len() ==> #[trigger] signal@[k] == split_entry(
                            spec_ordered, width as int, height as int, order_mode, color_mode,
                            number_of_channels as int, continuous, k,
                        ),
                decreases n - j,
            {
                let pixel = ordered[j];
                let mut flag = Flag::Continue;
                proof {
                    lemma_bayer_step(j as int, modulo as int);
                }
                if count == modulo {
                    if continuous == false {
                        flag = Flag::Reset;
                    }
                    count = 0;
                    bayer_row_flag = !bayer_row_flag;
                }
                let channel: usize = if !bayer_column_flag {
                    if !bayer_row_flag { 1 } else { 0 }
                } else {
                    if !bayer_row_flag { 2 } else { 1 }
                };
                signal.push((pixel[channel], flag));
                count = count + 1;
                bayer_column_flag = !bayer_column_flag;
                j = j + 1;
            }
        },
    }
    signal
}

/// How the Bayer counters move from pixel `j - 1` to pixel `j`.
proof fn lemma_bayer_step(j: int, m: int)
    requires
        0 <= j,
        0 <= m,
    ensures
        j > 0 ==> (m != 0 ==> (((j - 1) % m + 1 == m) <==> bayer_line_start(j, m))),
        j > 0 ==> (m != 0 ==> (bayer_line_start(j, m) ==> bayer_row(j, m) == !bayer_row(j - 1, m))),
        j > 0 ==> (m != 0 ==> (!bayer_line_start(j, m) ==> bayer_row(j, m) == bayer_row(j - 1, m)
            && j % m == (j - 1) % m + 1)),
        j == 0 ==> (m == 0 <==> bayer_line_start(j, m)),
        j == 0 && m != 0 ==> !bayer_row(j, m),
        m == 0 ==> bayer_row(j, m),
        j > 0 ==> ((j % 2 == 1) <==> !((j - 1) % 2 == 1)),
        j == 0 ==> j % 2 == 0,
{
    if m != 0 && j > 0 {
        let q = (j - 1) / m;
        let r = (j - 1) % m;
        assert(0 <= r < m && j - 1 == q * m + r) by (nonlinear_arith)
            requires
                m > 0,
                j - 1 >= 0,
                q == (j - 1) / m,
                r == (j - 1) % m,
        ;
        if r + 1 == m {
            assert((q + 1) * m == q * m + m) by (nonlinear_arith);
            lemma_div_mod(j, m, q + 1, 0);
        } else {
            lemma_div_mod(j, m, q, r + 1);
        }
    }
    if m != 0 && j == 0 {
        lemma_div_mod(0, m, 0, 0);
    }
}

/// The alpha mode numbered `code`: 0 preserve, 1 interleave, anything else delete.
pub fn alpha_mode_from_code(code: u32) -> (mode: AlphaMode)
    ensures
        mode == (if code == 0 {
            AlphaMode::Preserve
        } else if code == 1 {
            AlphaMode::Interleave
        } else {
            AlphaMode::Delete
        }),
{
    match code {
        0 => AlphaMode::Preserve,
        1 => AlphaMode::Interleave,
        _ => AlphaMode::Delete,
    }
}

/// The order numbered `code`: 0 rows, 1 columns, 2 reversed rows, anything
/// else reversed columns.
pub fn order_mode_from_code(code: u32) -> (mode: OrderMode)
    ensures
        mode == (if code == 0 {
            OrderMode::Row
        } else if code == 1 {
            OrderMode::Column
        } else if code == 2 {
            OrderMode::ReverseRow
        } else {
            OrderMode::ReverseColumn
        }),
{
    match code {
        0 => OrderMode::Row,
        1 => OrderMode::Column,
        2 => OrderMode::ReverseRow,
        _ => OrderMode::ReverseColumn,
    }
}

/// The color layout numbered `code`: 0 composite, 1 interleaved, anything else Bayer.
pub fn color_mode_from_code(code: u32) -> (mode: ColorMode)
    ensures
        mode == (if code == 0 {
            ColorMode::Composite
        } else if code == 1 {
            ColorMode::Interleaved
        } else {
            ColorMode::Bayer
        }),
{
    match code {
        0 => ColorMode::Composite,
        1 => ColorMode::Interleaved,
        _ => ColorMode::Bayer,
    }
}

/// The number of channels carried by the signal: four when alpha is
/// processed with the colors, else three.
pub open spec fn channel_count(alpha_mode: AlphaMode) -> int {
    match alpha_mode {
        AlphaMode::Interleave => 4,
        _ => 3,
    }
}

/// The number of channels carried by the signal for this alpha mode.
pub fn number_of_channels(alpha_mode: AlphaMode) -> (n: usize)
    ensures
        n == channel_count(alpha_mode),
{
    match alpha_mode {
        AlphaMode::Interleave => 4,
        _ => 3,
    }
}

/// The alpha byte of pixel `(x, y)` of `source`.
pub open spec fn source_alpha(source: Picture, x: int, y: int) -> u8 {
    source@[source.pixel_index(x, y) + 3]
}

/// The alpha of a rebuilt pixel: opaque when alpha is dropped, the processed
/// value when it was processed, the source's own when it is preserved.
pub open spec fn rebuilt_alpha(alpha_mode: AlphaMode, processed_alpha: u8, kept_alpha: u8) -> u8 {
    match alpha_mode {
        AlphaMode::Delete => 255,
        AlphaMode::Interleave => processed_alpha,
        AlphaMode::Preserve => kept_alpha,
    }
}

/// The highest lane read for one pixel in composite mode, or the highest
/// channel read in interleaved mode.
pub open spec fn last_channel_read(alpha_mode: AlphaMode) -> int {
    match alpha_mode {
        AlphaMode::Interleave => 3,
        _ => 2,
    }
}

/// The pixel rebuilt from composite lanes `offset` apart, at position `count` in each lane.
pub open spec fn composite_rgba(processed: Seq<u8>, offset: int, count: int, alpha_mode: AlphaMode, kept_alpha: u8) -> Seq<u8> {
    seq![
        processed[count],
        processed[count + offset],
        processed[count + 2 * offset],
        rebuilt_alpha(alpha_mode, processed[count + 3 * offset], kept_alpha),
    ]
}

/// The pixel rebuilt from interleaved channels starting at `count`.
pub open spec fn interleaved_rgba(processed: Seq<u8>, count: int, alpha_mode: AlphaMode, kept_alpha: u8) -> Seq<u8> {
    seq![
        processed[count],
        processed[count + 1],
        processed[count + 2],
        rebuilt_alpha(alpha_mode, processed[count + 3], kept_alpha),
    ]
}

/// The pixel rebuilt from demosaiced colors (alpha is never processed in Bayer mode).
pub open spec fn bayer_rgba(rgb: [u8; 3], alpha_mode: AlphaMode, kept_alpha: u8) -> Seq<u8> {
    seq![rgb@[0], rgb@[1], rgb@[2], rebuilt_alpha(alpha_mode, 255, kept_alpha)]
}

/// Rebuilds pixel `(x, y)` of `output` from the composite lanes, which lie
/// `offset` apart in `processed`; `count` is the pixel's position in its lane.
pub fn composite_reconstruct(
    processed: &Vec<u8>,
    source: &Picture,
    output: &mut Picture,
    alpha_mode: AlphaMode,
    offset: usize,
    x: usize,
    y: usize,
    count: usize,
)
    requires
        count + last_channel_read(alpha_mode) * offset < processed@.len(),
        old(output).accessible(x as int, y as int),
        alpha_mode == AlphaMode::Preserve ==> source.accessible(x as int, y as int),
    ensures
        final(output)@ == painted(
            old(output)@,
            old(output).pixel_index(x as int, y as int),
            composite_rgba(processed@, offset as int, count as int, alpha_mode, source_alpha(*source, x as int, y as int)),
        ),
        final(output).width == old(output).width,
        final(output).height == old(output).height,
{
    // the length of a vector fits in a usize
    let _len = processed.len();
    let r = processed[count];
    let g = processed[count + offset];
    let b = processed[count + offset * 2];
    let mut a: u8 = 255;
    match alpha_mode {
        AlphaMode::Delete => {},
        AlphaMode::Interleave => {
            a = processed[count + offset * 3];
        },
        AlphaMode::Preserve => {
            a = source.get_pixel_color(x, y, 3);
        },
    }
    let rgba = [r, g, b, a];
    assert(rgba@ =~= composite_rgba(processed@, offset as int, count as int, alpha_mode, source_alpha(*source, x as int, y as int)));
    output.set_pixel(x, y, rgba);
}

/// Rebuilds pixel `(x, y)` of `output` from the interleaved channels that start at `count`.
pub fn interleaved_reconstruct(
    processed: &Vec<u8>,
    source: &Picture,
    output: &mut Picture,
    alpha_mode: AlphaMode,
    x: usize,
    y: usize,
    count: usize,
)
    requires
        count + last_channel_read(alpha_mode) < processed@.len(),
        old(output).accessible(x as int, y as int),
        alpha_mode == AlphaMode::Preserve ==> source.accessible(x as int, y as int),
    ensures
        final(output)@ == painted(
            old(output)@,
            old(output).pixel_index(x as int, y as int),
            interleaved_rgba(processed@, count as int, alpha_mode, source_alpha(*source, x as int, y as int)),
        ),
        final(output).width == old(output).width,
        final(output).height == old(output).height,
{
    // the length of a vector fits in a usize
    let _len = processed.len();
    let r = processed[count];
    let g = processed[count + 1];
    let b = processed[count + 2];
    let a: u8 = match alpha_mode {
        AlphaMode::Delete => 255,
        AlphaMode::Interleave => processed[count + 3],
        AlphaMode::Preserve => source.get_pixel(x, y)[3],
    };
    let rgba = [r, g, b, a];
    assert(rgba@ =~= interleaved_rgba(processed@, count as int, alpha_mode, source_alpha(*source, x as int, y as int)));
    output.set_pixel(x, y, rgba);
}

/// Rebuilds pixel `(x, y)` of `output` from its demosaiced colors.
fn bayer_reconstruct(
    rgb: [u8; 3],
    source: &Picture,
    output: &mut Picture,
    alpha_mode: AlphaMode,
    x: usize,
    y: usize,
)
    requires
        old(output).accessible(x as int, y as int),
        alpha_mode == AlphaMode::Preserve ==> source.accessible(x as int, y as int),
    ensures
        final(output)@ == painted(
            old(output)@,
            old(output).pixel_index(x as int, y as int),
            bayer_rgba(rgb, alpha_mode, source_alpha(*source, x as int, y as int)),
        ),
        final(output).width == old(output).width,
        final(output).height == old(output).height,
{
    let a: u8 = match alpha_mode {
        AlphaMode::Delete => 255,
        // alpha is not demosaiced
        AlphaMode::Interleave => 255,
        AlphaMode::Preserve => source.get_pixel(x, y)[3],
    };
    let rgba = [rgb[0], rgb[1], rgb[2], a];
    assert(rgba@ =~= bayer_rgba(rgb, alpha_mode, source_alpha(*source, x as int, y as int)));
    output.set_pixel(x, y, rgba);
}

/// The pixel rebuilt at position `k` of the signal order.
pub open spec fn rebuilt_rgba(
    processed: Seq<u8>,
    bayer_rgb: Seq<[u8; 3]>,
    source: Picture,
    width: int,
    height: int,
    order_mode: OrderMode,
    color_mode: ColorMode,
    alpha_mode: AlphaMode,
    channels: int,
    k: int,
) -> Seq<u8> {
    let (x, y) = order_coord(order_mode, width, height, k);
    let kept = source_alpha(source, x, y);
    match color_mode {
        ColorMode::Composite => composite_rgba(processed, processed.len() as int / channels, k, alpha_mode, kept),
        ColorMode::Interleaved => interleaved_rgba(processed, k * channels, alpha_mode, kept),
        ColorMode::Bayer => bayer_rgba(bayer_rgb[x + y * width], alpha_mode, kept),
    }
}

/// The bytes `out` of a picture `out_width` pixels wide after the first `k`
/// pixels of the signal order have been rebuilt into it, one after the other.
pub open spec fn rebuilt(
    out: Seq<u8>,
    out_width: int,
    processed: Seq<u8>,
    bayer_rgb: Seq<[u8; 3]>,
    source: Picture,
    width: int,
    height: int,
    order_mode: OrderMode,
    color_mode: ColorMode,
    alpha_mode: AlphaMode,
    channels: int,
    k: nat,
) -> Seq<u8>
    decreases k,
{
    if k == 0 {
        out
    } else {
        let before = rebuilt(
            out, out_width, processed, bayer_rgb, source, width, height, order_mode,
            color_mode, alpha_mode, channels, (k - 1) as nat,
        );
        let (x, y) = order_coord(order_mode, width, height, k - 1);
        painted(
            before,
            wrapped_index(out.len() as int, out_width, x, y),
            rebuilt_rgba(processed, bayer_rgb, source, width, height, order_mode, color_mode, alpha_mode, channels, k - 1),
        )
    }
}

/// Whether `reconstruct_image` reads only within `processed` (or within
/// `bayer_rgb` in Bayer mode) and its position counter does not overflow.
pub open spec fn can_reconstruct(
    processed_len: int,
    bayer_rgb_len: int,
    width: int,
    height: int,
    color_mode: ColorMode,
    alpha_mode: AlphaMode,
    channels: int,
) -> bool {
    let pixels = width * height;
    &&& channels > 0
    &&& match color_mode {
        ColorMode::Composite => pixels > 0 ==> (pixels - 1) + last_channel_read(alpha_mode) * (
        processed_len / channels) < processed_len,
        ColorMode::Interleaved => {
            &&& pixels * channels <= usize::MAX
            &&& pixels > 0 ==> (pixels - 1) * channels + last_channel_read(alpha_mode) < processed_len
        },
        ColorMode::Bayer => pixels <= bayer_rgb_len,
    }
}

fn reconstruct_pixel(
    processed: &Vec<u8>,
    bayer_rgb: &Vec<[u8; 3]>,
    source: &Picture,
    output: &mut Picture,
    width: usize,
    color_mode: ColorMode,
    alpha_mode: AlphaMode,
    number_of_channels: usize,
    offset: usize,
    x: usize,
    y: usize,
    count: usize,
) -> (next: usize)
    requires
        old(output).accessible(x as int, y as int),
        alpha_mode == AlphaMode::Preserve ==> source.accessible(x as int, y as int),
        match color_mode {
            ColorMode::Composite => count + last_channel_read(alpha_mode) * offset < processed@.len(),
            ColorMode::Interleaved => count + last_channel_read(alpha_mode) < processed@.len()
                && count + number_of_channels <= usize::MAX,
            ColorMode::Bayer => x + y * width < bayer_rgb@.len() && count < usize::MAX,
        },
    ensures
        final(output)@ == painted(
            old(output)@,
            old(output).pixel_index(x as int, y as int),
            match color_mode {
                ColorMode::Composite => composite_rgba(processed@, offset as int, count as int, alpha_mode,
                    source_alpha(*source, x as int, y as int)),
                ColorMode::Interleaved => interleaved_rgba(processed@, count as int, alpha_mode,
                    source_alpha(*source, x as int, y as int)),
                ColorMode::Bayer => bayer_rgba(bayer_rgb@[x + y * width], alpha_mode,
                    source_alpha(*source, x as int, y as int)),
            },
        ),
        final(output).width == old(output).width,
        final(output).height == old(output).height,
        next == match color_mode {
            ColorMode::Interleaved => count + number_of_channels,
            _ => count + 1,
        },
{
    // the lengths of vectors fit in a usize
    let _len = processed.len();
    let _bayer_len = bayer_rgb.len();
    proof {
        assert(0 <= y * width <= x + y * width) by (nonlinear_arith)
            requires
                0 <= x,
                0 <= y,
                0 <= width,
        ;
    }
    match color_mode {
        ColorMode::Composite => {
            composite_reconstruct(processed, source, output, alpha_mode, offset, x, y, count);
            count + 1
        },
        ColorMode::Interleaved => {
            interleaved_reconstruct(processed, source, output, alpha_mode, x, y, count);
            count + number_of_channels
        },
        ColorMode::Bayer => {
            let rgb = bayer_rgb[x + y * width];
            bayer_reconstruct(rgb, source, output, alpha_mode, x, y);
            count + 1
        },
    }
}

/// Puts the processed signal back into `output`, pixel by pixel in the order
/// the signal was read: from the composite lanes, from the interleaved
/// channels, or from the demosaiced colors `bayer_rgb` (indexed row by row).
pub fn reconstruct_image(
    processed: &Vec<u8>,
    bayer_rgb: &Vec<[u8; 3]>,
    source: &Picture,
    output: &mut Picture,
    width: usize,
    height: usize,
    order_mode: OrderMode,
    color_mode: ColorMode,
    alpha_mode: AlphaMode,
    number_of_channels: usize,
)
    requires
        covers(old(output)@.len() as int, old(output).width as int, width as int, height as int),
        alpha_mode == AlphaMode::Preserve ==> covers(source@.len() as int, source.width as int, width as int, height as int),
        can_reconstruct(
            processed@.len() as int,
            bayer_rgb@.len() as int,
            width as int,
            height as int,
            color_mode,
            alpha_mode,
            number_of_channels as int,
        ),
    ensures
        final(output)@ == rebuilt(
            old(output)@,
            old(output).width as int,
            processed@,
            bayer_rgb@,
            *source,
            width as int,
            height as int,
            order_mode,
            color_mode,
            alpha_mode,
            number_of_channels as int,
            (width * height) as nat,
        ),
        final(output).width == old(output).width,
        final(output).height == old(output).height,
{
    let ghost out0 = output@;
    let ghost out_width = output.width as int;
    let len = processed.len();
    let bayer_len = bayer_rgb.len();
    let offset = len / number_of_channels;
    let mut count: usize = 0;
    let ghost pixels = width * height;
    match order_mode {
        OrderMode::Row | OrderMode::ReverseRow => {
            let reverse = order_mode == OrderMode::ReverseRow;
            let mut y: usize = 0;
            proof {
                assert((0 * width) * number_of_channels == 0 && 0 * width == 0) by (nonlinear_arith);
            }
            while y < height
                invariant
                    reverse == (order_mode == OrderMode::ReverseRow),
                    order_mode == OrderMode::Row || order_mode == OrderMode::ReverseRow,
                    len == processed@.len(),
                    bayer_len == bayer_rgb@.len(),
                    offset == len / number_of_channels,
                    pixels == width * height,
                    output@.len() == out0.len(),
                    output.width == out_width,
                    output.height == old(output).height,
                    covers(out0.len() as int, out_width, width as int, height as int),
                    alpha_mode == AlphaMode::Preserve ==> covers(source@.len() as int, source.width as int, width as int, height as int),
                    can_reconstruct(len as int, bayer_rgb@.len() as int, width as int, height as int, color_mode, alpha_mode, number_of_channels as int),
                    y <= height,
                    count == (if color_mode == ColorMode::Interleaved { (y * width) * number_of_channels } else { y * width }),
                    output@ == rebuilt(out0, out_width, processed@, bayer_rgb@, *source, width as int, height as int,
                        order_mode, color_mode, alpha_mode, number_of_channels as int, (y * width) as nat),
                decreases height - y,
            {
                let mut i: usize = 0;
                while i < width
                    invariant
                        reverse == (order_mode == OrderMode::ReverseRow),
                        order_mode == OrderMode::Row || order_mode == OrderMode::ReverseRow,
                        len == processed@.len(),
                        bayer_len == bayer_rgb@.len(),
                    bayer_len == bayer_rgb@.len(),
                        offset == len / number_of_channels,
                        pixels == width * height,
                        output@.len() == out0.len(),
                        output.width == out_width,
                        output.height == old(output).height,
                        covers(out0.len() as int, out_width, width as int, height as int),
                        alpha_mode == AlphaMode::Preserve ==> covers(source@.len() as int, source.width as int, width as int, height as int),
                        can_reconstruct(len as int, bayer_rgb@.len() as int, width as int, height as int, color_mode, alpha_mode, number_of_channels as int),
                        y < height,
                        i <= width,
                        count == (if color_mode == ColorMode::Interleaved { (y * width + i) * number_of_channels } else { y * width + i }),
                        output@ == rebuilt(out0, out_width, processed@, bayer_rgb@, *source, width as int, height as int,
                            order_mode, color_mode, alpha_mode, number_of_channels as int, (y * width + i) as nat),
                    decreases width - i,
                {
                    let x = if reverse { width - 1 - i } else { i };
                    let ghost k = y * width + i;
                    proof {
                        lemma_div_mod(k, width as int, y as int, i as int);
                        lemma_in_grid(i as int, y as int, width as int, height as int);
                        lemma_in_grid(x as int, y as int, width as int, height as int);
                        lemma_counter_bounds(k, pixels, len as int, number_of_channels as int, offset as int,
                            color_mode, alpha_mode, bayer_rgb@.len() as int);
                        assert(accessible_in(out0.len() as int, out_width, x as int, y as int));
                        if alpha_mode == AlphaMode::Preserve {
                            assert(accessible_in(source@.len() as int, source.width as int, x as int, y as int));
                        }
                    }
                    count = reconstruct_pixel(processed, bayer_rgb, source, output, width, color_mode,
                        alpha_mode, number_of_channels, offset, x, y, count);
                    proof {
                        if color_mode == ColorMode::Interleaved {
                            assert((k + 1) * number_of_channels == k * number_of_channels + number_of_channels)
                                by (nonlinear_arith);
                        }
                    }
                    i = i + 1;
                }
                proof {
                    assert(y * width + width == (y + 1) * width) by (nonlinear_arith);
                }
                y = y + 1;
            }
        },
        OrderMode::Column | OrderMode::ReverseColumn => {
            let reverse = order_mode == OrderMode::ReverseColumn;
            let mut x: usize = 0;
            proof {
                assert((0 * height) * number_of_channels == 0 && 0 * height == 0) by (nonlinear_arith);
            }
            while x < width
                invariant
                    reverse == (order_mode == OrderMode::ReverseColumn),
                    order_mode == OrderMode::Column || order_mode == OrderMode::ReverseColumn,
                    len == processed@.len(),
                    bayer_len == bayer_rgb@.len(),
                    offset == len / number_of_channels,
                    pixels == width * height,
                    output@.len() == out0.len(),
                    output.width == out_width,
                    output.height == old(output).height,
                    covers(out0.len() as int, out_width, width as int, height as int),
                    alpha_mode == AlphaMode::Preserve ==> covers(source@.len() as int, source.width as int, width as int, height as int),
                    can_reconstruct(len as int, bayer_rgb@.len() as int, width as int, height as int, color_mode, alpha_mode, number_of_channels as int),
                    x <= width,
                    count == (if color_mode == ColorMode::Interleaved { (x * height) * number_of_channels } else { x * height }),
                    output@ == rebuilt(out0, out_width, processed@, bayer_rgb@, *source, width as int, height as int,
                        order_mode, color_mode, alpha_mode, number_of_channels as int, (x * height) as nat),
                decreases width - x,
            {
                let mut i: usize = 0;
                while i < height
                    invariant
                        reverse == (order_mode == OrderMode::ReverseColumn),
                        order_mode == OrderMode::Column || order_mode == OrderMode::ReverseColumn,
                        len == processed@.len(),
                        bayer_len == bayer_rgb@.len(),
                    bayer_len == bayer_rgb@.len(),
                        offset == len / number_of_channels,
                        pixels == width * height,
                        output@.len() == out0.len(),
                        output.width == out_width,
                        output.height == old(output).height,
                        covers(out0.len() as int, out_width, width as int, height as int),
                        alpha_mode == AlphaMode::Preserve ==> covers(source@.len() as int, source.width as int, width as int, height as int),
                        can_reconstruct(len as int, bayer_rgb@.len() as int, width as int, height as int, color_mode, alpha_mode, number_of_channels as int),
                        x < width,
                        i <= height,
                        count == (if color_mode == ColorMode::Interleaved { (x * height + i) * number_of_channels } else { x * height + i }),
                        output@ == rebuilt(out0, out_width, processed@, bayer_rgb@, *source, width as int, height as int,
                            order_mode, color_mode, alpha_mode, number_of_channels as int, (x * height + i) as nat),
                    decreases height - i,
                {
                    let y = if reverse { height - 1 - i } else { i };
                    let ghost k = x * height + i;
                    proof {
                        lemma_div_mod(k, height as int, x as int, i as int);
                        lemma_in_grid(i as int, x as int, height as int, width as int);
                        lemma_in_grid(x as int, y as int, width as int, height as int);
                        lemma_counter_bounds(k, pixels, len as int, number_of_channels as int, offset as int,
                            color_mode, alpha_mode, bayer_rgb@.len() as int);
                        assert(accessible_in(out0.len() as int, out_width, x as int, y as int));
                        if alpha_mode == AlphaMode::Preserve {
                            assert(accessible_in(source@.len() as int, source.width as int, x as int, y as int));
                        }
                    }
                    count = reconstruct_pixel(processed, bayer_rgb, source, output, width, color_mode,
                        alpha_mode, number_of_channels, offset, x, y, count);
                    proof {
                        if color_mode == ColorMode::Interleaved {
                            assert((k + 1) * number_of_channels == k * number_of_channels + number_of_channels)
                                by (nonlinear_arith);
                        }
                    }
                    i = i + 1;
                }
                proof {
                    assert(x * height + height == (x + 1) * height) by (nonlinear_arith);
                }
                x = x + 1;
            }
            proof {
                assert(width * height == height * width) by (nonlinear_arith);
            }
        },
    }
}

/// A position `a` along a line of `na` cells, on line `b` of `nb`, lies in the grid.
proof fn lemma_in_grid(a: int, b: int, na: int, nb: int)
    requires
        0 <= a < na,
        0 <= b < nb,
    ensures
        0 <= b * na + a < na * nb,
        0 <= a + b * na < nb * na,
{
    assert(0 <= b * na + a < na * nb) by (nonlinear_arith)
        requires
            0 <= a < na,
            0 <= b < nb,
    ;
    assert(na * nb == nb * na) by (nonlinear_arith);
}

/// The reads of pixel `k` stay in bounds and its counter does not overflow.
proof fn lemma_counter_bounds(
    k: int,
    pixels: int,
    len: int,
    channels: int,
    offset: int,
    color_mode: ColorMode,
    alpha_mode: AlphaMode,
    bayer_len: int,
)
    requires
        0 <= k < pixels,
        0 <= offset,
        bayer_len <= usize::MAX,
        match color_mode {
            ColorMode::Composite => (pixels - 1) + last_channel_read(alpha_mode) * offset < len,
            ColorMode::Interleaved => pixels * channels <= usize::MAX && (pixels - 1) * channels
                + last_channel_read(alpha_mode) < len && channels > 0,
            ColorMode::Bayer => pixels <= bayer_len,
        },
    ensures
        match color_mode {
            ColorMode::Composite => k + last_channel_read(alpha_mode) * offset < len,
            ColorMode::Interleaved => k * channels + last_channel_read(alpha_mode) < len && k * channels
                + channels <= usize::MAX,
            ColorMode::Bayer => k < bayer_len && k < usize::MAX,
        },
{
    if color_mode == ColorMode::Interleaved {
        assert(k * channels <= (pixels - 1) * channels) by (nonlinear_arith)
            requires
                0 <= k <= pixels - 1,
                channels > 0,
        ;
        assert(k * channels + channels <= pixels * channels) by (nonlinear_arith)
            requires
                0 <= k <= pixels - 1,
                channels > 0,
        ;
    }
}

/// The channel that the Bayer pattern keeps at pixel `(x, y)`:
/// green, red on even rows and blue, green on odd rows (0 red, 1 green, 2 blue).
pub open spec fn bayer_pattern(x: int, y: int) -> int {
    if y % 2 == 0 {
        if x % 2 == 0 { 1 } else { 0 }
    } else {
        if x % 2 == 0 { 2 } else { 1 }
    }
}

/// The channel that the Bayer pattern keeps at pixel `(x, y)`.
pub fn bayer_color(x: usize, y: usize) -> (color: usize)
    ensures
        color == bayer_pattern(x as int, y as int),
{
    let bayer_matrix: [[usize; 2]; 2] = [[1, 0], [2, 1]];
    bayer_matrix[y % 2][x % 2]
}

/// The offset in the processed signal of pixel `(x, y)`, counting pixels row
/// by row and wrapping round the signal's length.
pub open spec fn signal_offset(x: int, y: int, width: int, len: int) -> int {
    (x + y * width) % len
}

/// The offset in the processed signal at which pixel `(x, y)` is read.
pub fn signal_index(x: usize, y: usize, width: usize, len: usize) -> (index: usize)
    requires
        len > 0,
        x + y * width <= usize::MAX,
    ensures
        index == signal_offset(x as int, y as int, width as int, len as int),
        index < len,
{
    proof {
        assert(0 <= y * width <= x + y * width) by (nonlinear_arith)
            requires
                0 <= x,
                0 <= y,
                0 <= width,
        ;
    }
    (x + y * width) % len
}

/// The neighbours averaged to estimate a missing color.
#[derive(Clone, Copy, PartialEq, Eq, Debug, Structural)]
pub enum Neighborhood {
    /// The pixel itself, not averaged.
    Center,
    /// West, east, north, south.
    StraightCross,
    /// North-west, south-east, north-east, south-west.
    ObliqueCross,
    /// West, east.
    Horizontal,
    /// North, south.
    Vertical,
}

/// `v - 1`, held at zero.
pub open spec fn before(v: int) -> int {
    if v > 0 {
        v - 1
    } else {
        0
    }
}

/// The pixels of `kind` around `(x, y)`, in the order their values are summed;
/// a neighbour past the top or left edge is taken on the edge.
pub open spec fn neighbours(kind: Neighborhood, x: int, y: int) -> Seq<(int, int)> {
    match kind {
        Neighborhood::Center => seq![(x, y)],
        Neighborhood::StraightCross => seq![(before(x), y), (x + 1, y), (x, before(y)), (x, y + 1)],
        Neighborhood::ObliqueCross => seq![
            (before(x), before(y)),
            (x + 1, y + 1),
            (x + 1, before(y)),
            (before(x), y + 1),
        ],
        Neighborhood::Horizontal => seq![(before(x), y), (x + 1, y)],
        Neighborhood::Vertical => seq![(x, before(y)), (x, y + 1)],
    }
}

/// The pixels of `kind` around `(x, y)`, in the order their values are summed.
pub fn neighborhood(kind: Neighborhood, x: usize, y: usize) -> (coords: Vec<(usize, usize)>)
    requires
        kind != Neighborhood::Center && kind != Neighborhood::Vertical ==> x < usize::MAX,
        kind != Neighborhood::Center && kind != Neighborhood::Horizontal ==> y < usize::MAX,
    ensures
        coords@.len() == neighbours(kind, x as int, y as int).len(),
        forall|i: int|
            0 <= i < coords@.len() ==> (#[trigger] coords@[i]).0 == neighbours(kind, x as int, y as int)[i].0
                && coords@[i].1 == neighbours(kind, x as int, y as int)[i].1,
{
    let west = x.saturating_sub(1);
    let north = y.saturating_sub(1);
    let coords = match kind {
        Neighborhood::Center => vec![(x, y)],
        Neighborhood::StraightCross => vec![(west, y), (x + 1, y), (x, north), (x, y + 1)],
        Neighborhood::ObliqueCross => vec![(west, north), (x + 1, y + 1), (x + 1, north), (west, y + 1)],
        Neighborhood::Horizontal => vec![(west, y), (x + 1, y)],
        Neighborhood::Vertical => vec![(x, north), (x, y + 1)],
    };
    coords
}

/// How each of red, green and blue is estimated at a pixel of Bayer channel
/// `pixel_color`: the pixel's own value for its channel, averages of
/// neighbours for the two others (on green pixels, which neighbours depends on
/// the row's parity); nothing, and so zero, for any other channel number.
pub open spec fn dematricing_plan(y: int, pixel_color: int) -> Seq<Option<Neighborhood>> {
    if pixel_color == 2 {
        seq![Some(Neighborhood::Center), Some(Neighborhood::StraightCross), Some(Neighborhood::ObliqueCross)]
    } else if pixel_color == 1 {
        if y % 2 == 1 {
            seq![Some(Neighborhood::Horizontal), Some(Neighborhood::Center), Some(Neighborhood::Vertical)]
        } else {
            seq![Some(Neighborhood::Vertical), Some(Neighborhood::Center), Some(Neighborhood::Horizontal)]
        }
    } else if pixel_color == 0 {
        seq![Some(Neighborhood::ObliqueCross), Some(Neighborhood::StraightCross), Some(Neighborhood::Center)]
    } else {
        seq![None, None, None]
    }
}

/// How red, green and blue are estimated at pixel `(x, y)` of Bayer channel
/// `pixel_color`.
pub fn bayer_dematricing(x: usize, y: usize, pixel_color: usize) -> (plan: [Option<Neighborhood>; 3])
    ensures
        plan@ == dematricing_plan(y as int, pixel_color as int),
{
    let plan = if pixel_color == 2 {
        [Some(Neighborhood::Center), Some(Neighborhood::StraightCross), Some(Neighborhood::ObliqueCross)]
    } else if pixel_color == 1 {
        if y % 2 == 1 {
            [Some(Neighborhood::Horizontal), Some(Neighborhood::Center), Some(Neighborhood::Vertical)]
        } else {
            [Some(Neighborhood::Vertical), Some(Neighborhood::Center), Some(Neighborhood::Horizontal)]
        }
    } else if pixel_color == 0 {
        [Some(Neighborhood::ObliqueCross), Some(Neighborhood::StraightCross), Some(Neighborhood::Center)]
    } else {
        [None, None, None]
    };
    assert(plan@ =~= dematricing_plan(y as int, pixel_color as int));
    plan
}

/// Position `k` of a signal of `width * height` pixels names a pixel of the grid.
pub proof fn lemma_order_coord_in_grid(order_mode: OrderMode, width: int, height: int, k: int)
    requires
        0 <= k < width * height,
        0 <= width,
        0 <= height,
    ensures
        0 <= order_coord(order_mode, width, height, k).0 < width,
        0 <= order_coord(order_mode, width, height, k).1 < height,
{
    assert(width > 0 && height > 0) by (nonlinear_arith)
        requires
            0 <= k < width * height,
            0 <= width,
            0 <= height,
    ;
    assert(0 <= k % width < width && 0 <= k / width < height) by (nonlinear_arith)
        requires
            0 <= k < width * height,
            width > 0,
            height > 0,
    ;
    assert(0 <= k % height < height && 0 <= k / height < width) by (nonlinear_arith)
        requires
            0 <= k < width * height,
            width > 0,
            height > 0,
    ;
}

/// Writing back the four bytes a picture already holds changes nothing.
proof fn lemma_paint_same(data: Seq<u8>, at: int)
    requires
        0 <= at,
        at + 4 <= data.len(),
    ensures
        painted(data, at, data.subrange(at, at + 4)) == data,
{
    assert(painted(data, at, data.subrange(at, at + 4)) =~= data);
}

/// Whether `ordered`, `signal` and `processed` are what `order_signal` and
/// `split_colors` make of `p` with the values left unchanged, in the composite
/// or interleaved layout with as many channels as the alpha mode carries.
#[verifier::opaque]
pub open spec fn identity_pipeline(
    p: Picture,
    order_mode: OrderMode,
    color_mode: ColorMode,
    alpha_mode: AlphaMode,
    continuous: bool,
    ordered: Seq<[u8; 4]>,
    signal: Seq<(u8, Flag)>,
    processed: Seq<u8>,
) -> bool {
    &&& p.accessible_grid()
    &&& color_mode == ColorMode::Composite || color_mode == ColorMode::Interleaved
    &&& ordered.len() == p.width * p.height
    &&& forall|k: int|
        0 <= k < ordered.len() ==> #[trigger] ordered[k]@ == p.pixel_at(
            order_coord(order_mode, p.width as int, p.height as int, k).0,
            order_coord(order_mode, p.width as int, p.height as int, k).1,
        )
    &&& signal.len() == split_len(color_mode, ordered.len() as int, p.width as int, p.height as int, channel_count(alpha_mode))
    &&& forall|k: int|
        0 <= k < signal.len() ==> #[trigger] signal[k] == split_entry(
            ordered,
            p.width as int,
            p.height as int,
            order_mode,
            color_mode,
            channel_count(alpha_mode),
            continuous,
            k,
        )
    &&& processed.len() == signal.len()
    &&& forall|i: int| 0 <= i < processed.len() ==> #[trigger] processed[i] == signal[i].0
}

/// In composite layout with the values unchanged, lane `c` at position `j`
/// holds channel `c` of the pixel read at position `j`.
proof fn lemma_composite_lane(
    p: Picture,
    order_mode: OrderMode,
    color_mode: ColorMode,
    alpha_mode: AlphaMode,
    continuous: bool,
    ordered: Seq<[u8; 4]>,
    signal: Seq<(u8, Flag)>,
    processed: Seq<u8>,
    j: int,
    c: int,
)
    requires
        identity_pipeline(p, order_mode, color_mode, alpha_mode, continuous, ordered, signal, processed),
        color_mode == ColorMode::Composite,
        0 <= j < p.width * p.height,
        0 <= c < channel_count(alpha_mode),
    ensures
        processed.len() as int / channel_count(alpha_mode) == p.width * p.height,
        processed[j + c * (p.width * p.height)] == ordered[j]@[c],
        p.width * p.height == ordered.len(),
        processed.len() == split_len(color_mode, ordered.len() as int, p.width as int, p.height as int, channel_count(alpha_mode)),
{
    reveal(identity_pipeline);
    let n = p.width * p.height;
    let ch = channel_count(alpha_mode);
    assert(ch * n / ch == n) by (nonlinear_arith)
        requires
            ch > 0,
    ;
    assert(0 <= j + c * n < ch * n) by (nonlinear_arith)
        requires
            0 <= j < n,
            0 <= c < ch,
    ;
    lemma_div_mod(j + c * n, n as int, c, j);
    assert(signal[j + c * n] == split_entry(ordered, p.width as int, p.height as int, order_mode, color_mode, ch, continuous, j + c * n));
}

/// In interleaved layout with the values unchanged, channel `c` of position
/// `j` holds channel `c` of the pixel read at position `j`.
proof fn lemma_interleaved_channel(
    p: Picture,
    order_mode: OrderMode,
    color_mode: ColorMode,
    alpha_mode: AlphaMode,
    continuous: bool,
    ordered: Seq<[u8; 4]>,
    signal: Seq<(u8, Flag)>,
    processed: Seq<u8>,
    j: int,
    c: int,
)
    requires
        identity_pipeline(p, order_mode, color_mode, alpha_mode, continuous, ordered, signal, processed),
        color_mode == ColorMode::Interleaved,
        0 <= j < p.width * p.height,
        0 <= c < channel_count(alpha_mode),
    ensures
        processed[j * channel_count(alpha_mode) + c] == ordered[j]@[c],
        p.width * p.height == ordered.len(),
        processed.len() == split_len(color_mode, ordered.len() as int, p.width as int, p.height as int, channel_count(alpha_mode)),
{
    reveal(identity_pipeline);
    let n = p.width * p.height;
    let ch = channel_count(alpha_mode);
    assert(0 <= j * ch + c < n * ch) by (nonlinear_arith)
        requires
            0 <= j < n,
            0 <= c < ch,
    ;
    lemma_div_mod(j * ch + c, ch, j, c);
    assert(signal[j * ch + c] == split_entry(ordered, p.width as int, p.height as int, order_mode, color_mode, ch, continuous, j * ch + c));
}

/// The pixel read at position `j` lies in the grid and can be read.
proof fn lemma_pipeline_pixel(
    p: Picture,
    order_mode: OrderMode,
    color_mode: ColorMode,
    alpha_mode: AlphaMode,
    continuous: bool,
    ordered: Seq<[u8; 4]>,
    signal: Seq<(u8, Flag)>,
    processed: Seq<u8>,
    j: int,
)
    requires
        identity_pipeline(p, order_mode, color_mode, alpha_mode, continuous, ordered, signal, processed),
        0 <= j < p.width * p.height,
    ensures
        p.accessible(order_coord(order_mode, p.width as int, p.height as int, j).0,
            order_coord(order_mode, p.width as int, p.height as int, j).1),
        ordered[j]@ == p.pixel_at(
            order_coord(order_mode, p.width as int, p.height as int, j).0,
            order_coord(order_mode, p.width as int, p.height as int, j).1,
        ),
        color_mode == ColorMode::Composite || color_mode == ColorMode::Interleaved,
{
    reveal(identity_pipeline);
    let (x, y) = order_coord(order_mode, p.width as int, p.height as int, j);
    lemma_order_coord_in_grid(order_mode, p.width as int, p.height as int, j);
    assert(accessible_in(p@.len() as int, p.width as int, x, y));
}

/// The pixel rebuilt at position `j` from the unchanged signal is the one read there.
proof fn lemma_rebuilt_pixel_is_source(
    p: Picture,
    order_mode: OrderMode,
    color_mode: ColorMode,
    alpha_mode: AlphaMode,
    continuous: bool,
    ordered: Seq<[u8; 4]>,
    signal: Seq<(u8, Flag)>,
    processed: Seq<u8>,
    bayer_rgb: Seq<[u8; 3]>,
    j: int,
)
    requires
        identity_pipeline(p, order_mode, color_mode, alpha_mode, continuous, ordered, signal, processed),
        0 <= j < p.width * p.height,
    ensures
        p.accessible(order_coord(order_mode, p.width as int, p.height as int, j).0,
            order_coord(order_mode, p.width as int, p.height as int, j).1),
        rebuilt_rgba(processed, bayer_rgb, p, p.width as int, p.height as int, order_mode, color_mode,
            alpha_mode, channel_count(alpha_mode), j) == ({
            let pixel = p.pixel_at(
                order_coord(order_mode, p.width as int, p.height as int, j).0,
                order_coord(order_mode, p.width as int, p.height as int, j).1,
            );
            pixel.update(3, rebuilt_alpha(alpha_mode, pixel[3], pixel[3]))
        }),
{
    let w = p.width as int;
    let h = p.height as int;
    let (x, y) = order_coord(order_mode, w, h, j);
    lemma_order_coord_in_grid(order_mode, w, h, j);
    lemma_pipeline_pixel(p, order_mode, color_mode, alpha_mode, continuous, ordered, signal, processed, j);
    let rgba = rebuilt_rgba(processed, bayer_rgb, p, w, h, order_mode, color_mode, alpha_mode, channel_count(alpha_mode), j);
    let n = w * h;
    if color_mode == ColorMode::Composite {
        lemma_composite_lane(p, order_mode, color_mode, alpha_mode, continuous, ordered, signal, processed, j, 0);
        lemma_composite_lane(p, order_mode, color_mode, alpha_mode, continuous, ordered, signal, processed, j, 1);
        lemma_composite_lane(p, order_mode, color_mode, alpha_mode, continuous, ordered, signal, processed, j, 2);
        if alpha_mode == AlphaMode::Interleave {
            lemma_composite_lane(p, order_mode, color_mode, alpha_mode, continuous, ordered, signal, processed, j, 3);
        }
        assert(j + 0 * n == j);
        assert(j + 1 * n == j + n);
    } else {
        lemma_interleaved_channel(p, order_mode, color_mode, alpha_mode, continuous, ordered, signal, processed, j, 0);
        lemma_interleaved_channel(p, order_mode, color_mode, alpha_mode, continuous, ordered, signal, processed, j, 1);
        lemma_interleaved_channel(p, order_mode, color_mode, alpha_mode, continuous, ordered, signal, processed, j, 2);
        if alpha_mode == AlphaMode::Interleave {
            lemma_interleaved_channel(p, order_mode, color_mode, alpha_mode, continuous, ordered, signal, processed, j, 3);
        }
    }
    let pixel = p.pixel_at(x, y);
    assert(rgba =~= pixel.update(3, rebuilt_alpha(alpha_mode, pixel[3], pixel[3])));
}

/// The first `k` pixels rebuilt from the unchanged signal leave `p` as it was.
proof fn lemma_round_trip_prefix(
    p: Picture,
    order_mode: OrderMode,
    color_mode: ColorMode,
    alpha_mode: AlphaMode,
    continuous: bool,
    ordered: Seq<[u8; 4]>,
    signal: Seq<(u8, Flag)>,
    processed: Seq<u8>,
    bayer_rgb: Seq<[u8; 3]>,
    k: nat,
)
    requires
        identity_pipeline(p, order_mode, color_mode, alpha_mode, continuous, ordered, signal, processed),
        alpha_mode == AlphaMode::Preserve || alpha_mode == AlphaMode::Interleave,
        k <= p.width * p.height,
    ensures
        rebuilt(p@, p.width as int, processed, bayer_rgb, p, p.width as int, p.height as int, order_mode,
            color_mode, alpha_mode, channel_count(alpha_mode), k) == p@,
    decreases k,
{
    if k > 0 {
        lemma_round_trip_prefix(p, order_mode, color_mode, alpha_mode, continuous, ordered, signal,
            processed, bayer_rgb, (k - 1) as nat);
        lemma_rebuilt_pixel_is_source(p, order_mode, color_mode, alpha_mode, continuous, ordered, signal,
            processed, bayer_rgb, k - 1);
        let (x, y) = order_coord(order_mode, p.width as int, p.height as int, k - 1);
        let pixel = p.pixel_at(x, y);
        assert(pixel.update(3, rebuilt_alpha(alpha_mode, pixel[3], pixel[3])) =~= pixel);
        lemma_paint_same(p@, p.pixel_index(x, y));
    }
}

/// With every sample left as it is, rebuilding a picture from the signal made
/// from it gives the picture back: for the composite and interleaved layouts,
/// with alpha preserved or processed with the colors, in any order, if
/// `ordered` is what `order_signal` makes of `p`, `signal` what `split_colors`
/// makes of `ordered` (with as many channels as the alpha mode carries), and
/// `processed` the signal's values unchanged, then rebuilding every pixel of
/// `p` from `processed` leaves `p` as it was.
pub proof fn law_identity_round_trip(
    p: Picture,
    order_mode: OrderMode,
    color_mode: ColorMode,
    alpha_mode: AlphaMode,
    continuous: bool,
    ordered: Seq<[u8; 4]>,
    signal: Seq<(u8, Flag)>,
    processed: Seq<u8>,
    bayer_rgb: Seq<[u8; 3]>,
)
    requires
        identity_pipeline(p, order_mode, color_mode, alpha_mode, continuous, ordered, signal, processed),
        alpha_mode == AlphaMode::Preserve || alpha_mode == AlphaMode::Interleave,
    ensures
        rebuilt(
            p@,
            p.width as int,
            processed,
            bayer_rgb,
            p,
            p.width as int,
            p.height as int,
            order_mode,
            color_mode,
            alpha_mode,
            channel_count(alpha_mode),
            (p.width * p.height) as nat,
        ) == p@,
{
    lemma_round_trip_prefix(p, order_mode, color_mode, alpha_mode, continuous, ordered, signal,
        processed, bayer_rgb, (p.width * p.height) as nat);
}

/// The position in the signal at which pixel `(x, y)` is read.
pub open spec fn order_position(order_mode: OrderMode, width: int, height: int, x: int, y: int) -> int {
    match order_mode {
        OrderMode::Row => y * width + x,
        OrderMode::Column => x * height + y,
        OrderMode::ReverseRow => y * width + (width - 1 - x),
        OrderMode::ReverseColumn => x * height + (height - 1 - y),
    }
}

/// Every order reads each pixel of the grid exactly once: pixel `(x, y)` is
/// read at position `order_position(x, y)`, which lies in the signal, and the
/// pixel read at position `k` is read at no other position.
pub proof fn law_order_is_a_bijection(order_mode: OrderMode, width: int, height: int, x: int, y: int, k: int)
    requires
        0 <= width,
        0 <= height,
    ensures
        0 <= x < width && 0 <= y < height ==> {
            &&& 0 <= order_position(order_mode, width, height, x, y) < width * height
            &&& order_coord(order_mode, width, height, order_position(order_mode, width, height, x, y)) == (x, y)
        },
        0 <= k < width * height ==> order_position(
            order_mode,
            width,
            height,
            order_coord(order_mode, width, height, k).0,
            order_coord(order_mode, width, height, k).1,
        ) == k,
{
    if 0 <= x < width && 0 <= y < height {
        lemma_in_grid(x, y, width, height);
        lemma_in_grid(y, x, height, width);
        lemma_in_grid(width - 1 - x, y, width, height);
        lemma_in_grid(height - 1 - y, x, height, width);
        lemma_div_mod(y * width + x, width, y, x);
        lemma_div_mod(x * height + y, height, x, y);
        lemma_div_mod(y * width + (width - 1 - x), width, y, width - 1 - x);
        lemma_div_mod(x * height + (height - 1 - y), height, x, height - 1 - y);
    }
    if 0 <= k < width * height {
        lemma_order_coord_in_grid(order_mode, width, height, k);
        assert(width > 0 && height > 0) by (nonlinear_arith)
            requires
                0 <= k < width * height,
                0 <= width,
                0 <= height,
        ;
        assert(k == (k / width) * width + k % width && k == (k / height) * height + k % height) by (nonlinear_arith)
            requires
                width > 0,
                height > 0,
        ;
    }
}

/// A signal that `split_colors` makes in the composite or interleaved layout,
/// with as many channels as the alpha mode carries, can always be rebuilt
/// once processed sample for sample: its length meets every read that
/// `reconstruct_image` makes (for a grid whose bytes fit in memory).
pub proof fn law_split_signal_can_be_rebuilt(
    width: int,
    height: int,
    color_mode: ColorMode,
    alpha_mode: AlphaMode,
    bayer_len: int,
)
    requires
        0 <= width,
        0 <= height,
        width * height * 4 <= usize::MAX,
        color_mode == ColorMode::Composite || color_mode == ColorMode::Interleaved,
    ensures
        can_reconstruct(
            split_len(color_mode, width * height, width, height, channel_count(alpha_mode)),
            bayer_len,
            width,
            height,
            color_mode,
            alpha_mode,
            channel_count(alpha_mode),
        ),
{
    let n = width * height;
    let ch = channel_count(alpha_mode);
    assert(0 <= n) by (nonlinear_arith)
        requires
            0 <= width,
            0 <= height,
            n == width * height,
    ;
    assert(ch * n / ch == n) by (nonlinear_arith)
        requires
            ch > 0,
    ;
    assert(n * ch <= n * 4) by (nonlinear_arith)
        requires
            0 <= n,
            ch <= 4,
    ;
    if n > 0 {
        assert((n - 1) + (ch - 1) * n < ch * n) by (nonlinear_arith)
            requires
                n > 0,
                ch > 0,
        ;
        assert((n - 1) * ch + (ch - 1) < n * ch) by (nonlinear_arith)
            requires
                n > 0,
                ch > 0,
        ;
    }
    assert(width * height * ch == n * ch);
}

/// `data` with the alpha byte of every pixel made opaque.
pub open spec fn opaque_alpha(data: Seq<u8>) -> Seq<u8> {
    Seq::new(data.len(), |b: int| if b % 4 == 3 { 255u8 } else { data[b] })
}

/// `data` with the alpha byte made opaque in every pixel read before position `k`.
pub open spec fn opaque_alpha_before(data: Seq<u8>, order_mode: OrderMode, width: int, height: int, k: int) -> Seq<u8> {
    Seq::new(
        data.len(),
        |b: int|
            if b % 4 == 3 && order_position(order_mode, width, height, (b / 4) % width, (b / 4) / width) < k {
                255u8
            } else {
                data[b]
            },
    )
}

/// Byte `b` of a picture `width` pixels wide belongs to pixel number `b / 4`,
/// which lies at column `(b / 4) % width` of row `(b / 4) / width`.
proof fn lemma_byte_of_pixel(b: int, width: int, x: int, y: int)
    requires
        width > 0,
        0 <= x < width,
        0 <= y,
        4 * (x + y * width) <= b < 4 * (x + y * width) + 4,
    ensures
        b / 4 == x + y * width,
        b % 4 == b - 4 * (x + y * width),
        (b / 4) % width == x,
        (b / 4) / width == y,
{
    let q = x + y * width;
    assert(0 <= q) by (nonlinear_arith)
        requires
            0 <= x,
            0 <= y,
            width > 0,
            q == x + y * width,
    ;
    lemma_div_mod(b, 4, q, b - 4 * q);
    lemma_div_mod(q, width, y, x);
}

/// The first `k` pixels rebuilt from the unchanged signal with alpha deleted
/// leave every byte as it was but the alpha bytes of those pixels, made opaque.
proof fn lemma_opaque_prefix(
    p: Picture,
    order_mode: OrderMode,
    color_mode: ColorMode,
    continuous: bool,
    ordered: Seq<[u8; 4]>,
    signal: Seq<(u8, Flag)>,
    processed: Seq<u8>,
    bayer_rgb: Seq<[u8; 3]>,
    k: nat,
)
    requires
        identity_pipeline(p, order_mode, color_mode, AlphaMode::Delete, continuous, ordered, signal, processed),
        p@.len() == p.width * p.height * 4,
        k <= p.width * p.height,
    ensures
        rebuilt(p@, p.width as int, processed, bayer_rgb, p, p.width as int, p.height as int, order_mode,
            color_mode, AlphaMode::Delete, channel_count(AlphaMode::Delete), k)
            == opaque_alpha_before(p@, order_mode, p.width as int, p.height as int, k as int),
    decreases k,
{
    let w = p.width as int;
    let h = p.height as int;
    if k == 0 {
        assert forall|b: int| 0 <= b < p@.len() implies
            #[trigger] opaque_alpha_before(p@, order_mode, w, h, 0)[b] == p@[b] by {
            let q = b / 4;
            assert(0 <= q < w * h);
            assert(w > 0) by (nonlinear_arith)
                requires
                    0 <= q < w * h,
                    0 <= h,
            ;
            assert(0 <= q % w < w && 0 <= q / w < h) by (nonlinear_arith)
                requires
                    0 <= q < w * h,
                    w > 0,
            ;
            law_order_is_a_bijection(order_mode, w, h, q % w, q / w, 0);
        }
        assert(opaque_alpha_before(p@, order_mode, w, h, 0) =~= p@);
    } else {
        let j = k - 1;
        lemma_opaque_prefix(p, order_mode, color_mode, continuous, ordered, signal, processed, bayer_rgb, j as nat);
        lemma_rebuilt_pixel_is_source(p, order_mode, color_mode, AlphaMode::Delete, continuous, ordered, signal,
            processed, bayer_rgb, j);
        crate::picture::law_full_picture_is_accessible(p);
        let (x, y) = order_coord(order_mode, w, h, j);
        lemma_order_coord_in_grid(order_mode, w, h, j);
        law_order_is_a_bijection(order_mode, w, h, x, y, j);
        let raw = 4 * (x + y * w);
        assert(p.pixel_index(x, y) == raw);
        let before = opaque_alpha_before(p@, order_mode, w, h, j);
        let after = opaque_alpha_before(p@, order_mode, w, h, k as int);
        let rgba = p.pixel_at(x, y).update(3, 255u8);
        assert forall|b: int| 0 <= b < p@.len() implies #[trigger] painted(before, raw, rgba)[b] == after[b] by {
            if raw <= b < raw + 4 {
                lemma_byte_of_pixel(b, w, x, y);
            } else {
                let q = b / 4;
                assert(0 <= q < w * h);
                assert(0 <= q % w < w && 0 <= q / w < h && q == (q / w) * w + q % w) by (nonlinear_arith)
                    requires
                        0 <= q < w * h,
                        w > 0,
                ;
                law_order_is_a_bijection(order_mode, w, h, q % w, q / w, j);
                if order_position(order_mode, w, h, q % w, q / w) == j {
                    assert(q % w == x && q / w == y);
                    assert(4 * q <= b < 4 * q + 4);
                }
            }
        }
        assert(painted(before, raw, rgba) =~= after);
    }
}

/// With every sample left as it is and alpha deleted, rebuilding a picture
/// of exactly `width * height` pixels from the signal made from it keeps every
/// color byte and makes every pixel opaque: if `ordered` is what
/// `order_signal` makes of `p`, `signal` what `split_colors` makes of
/// `ordered` with three channels, in the composite or interleaved layout, and
/// `processed` the signal's values unchanged, rebuilding every pixel of `p`
/// gives `p` with every alpha byte set to 255.
pub proof fn law_identity_round_trip_opaque(
    p: Picture,
    order_mode: OrderMode,
    color_mode: ColorMode,
    continuous: bool,
    ordered: Seq<[u8; 4]>,
    signal: Seq<(u8, Flag)>,
    processed: Seq<u8>,
    bayer_rgb: Seq<[u8; 3]>,
)
    requires
        identity_pipeline(p, order_mode, color_mode, AlphaMode::Delete, continuous, ordered, signal, processed),
        p@.len() == p.width * p.height * 4,
    ensures
        rebuilt(
            p@,
            p.width as int,
            processed,
            bayer_rgb,
            p,
            p.width as int,
            p.height as int,
            order_mode,
            color_mode,
            AlphaMode::Delete,
            channel_count(AlphaMode::Delete),
            (p.width * p.height) as nat,
        ) == opaque_alpha(p@),
{
    let w = p.width as int;
    let h = p.height as int;
    lemma_opaque_prefix(p, order_mode, color_mode, continuous, ordered, signal, processed, bayer_rgb, (w * h) as nat);
    assert forall|b: int| 0 <= b < p@.len() implies
        #[trigger] opaque_alpha_before(p@, order_mode, w, h, w * h)[b] == opaque_alpha(p@)[b] by {
        let q = b / 4;
        assert(0 <= q < w * h);
        assert(w > 0) by (nonlinear_arith)
            requires
                0 <= q < w * h,
                0 <= h,
        ;
        assert(0 <= q % w < w && 0 <= q / w < h) by (nonlinear_arith)
            requires
                0 <= q < w * h,
                w > 0,
        ;
        law_order_is_a_bijection(order_mode, w, h, q % w, q / w, 0);
    }
    assert(opaque_alpha_before(p@, order_mode, w, h, w * h) =~= opaque_alpha(p@));
}

/// How the demosaicing plan depends on the pixel: for a red or blue Bayer
/// channel (0 or 2) it is the same on every row, green is always estimated from
/// the straight cross, the pixel's own value fills the component `2 - channel`
/// and the diagonal cross the remaining one; for a green pixel (channel 1) the
/// pixel's own value fills green and the horizontal and vertical neighbours
/// fill red and blue, swapped from one row parity to the other.
pub proof fn law_dematricing_plan_shape(y: int, y2: int, pixel_color: int)
    requires
        0 <= y,
        0 <= y2,
    ensures
        pixel_color == 0 || pixel_color == 2 ==> {
            &&& dematricing_plan(y, pixel_color) == dematricing_plan(y2, pixel_color)
            &&& dematricing_plan(y, pixel_color).len() == 3
            &&& dematricing_plan(y, pixel_color)[1] == Some(Neighborhood::StraightCross)
            &&& dematricing_plan(y, pixel_color)[2 - pixel_color] == Some(Neighborhood::Center)
            &&& dematricing_plan(y, pixel_color)[pixel_color] == Some(Neighborhood::ObliqueCross)
        },
        pixel_color == 1 ==> {
            &&& dematricing_plan(y, 1).len() == 3
            &&& dematricing_plan(y, 1)[1] == Some(Neighborhood::Center)
            &&& (y % 2 == 1 ==> dematricing_plan(y, 1)[0] == Some(Neighborhood::Horizontal)
                && dematricing_plan(y, 1)[2] == Some(Neighborhood::Vertical))
            &&& (y % 2 == y2 % 2 ==> dematricing_plan(y, 1) == dematricing_plan(y2, 1))
            &&& (y % 2 != y2 % 2 ==> dematricing_plan(y, 1)[0] == dematricing_plan(y2, 1)[2]
                && dematricing_plan(y, 1)[2] == dematricing_plan(y2, 1)[0])
        },
        pixel_color < 0 || pixel_color > 2 ==> dematricing_plan(y, pixel_color) == seq![
            None::<Neighborhood>,
            None,
            None,
        ],
{
}

/// Where the resets fall: in the composite layout each lane resets at every
/// sample whose place within the lane is a multiple of the picture's height in
/// the column orders and of its width in the row orders; in the Bayer layout
/// the signal resets at every such place after the first; in the interleaved
/// layout the first channel of every pixel whose place is a multiple of the
/// width resets, whatever the order; a continuous signal never resets.
pub proof fn law_reset_period(
    ordered: Seq<[u8; 4]>,
    width: int,
    height: int,
    order_mode: OrderMode,
    channels: int,
    continuous: bool,
    k: int,
)
    requires
        0 <= k,
        ordered.len() > 0,
        channels > 0,
        width > 0,
        height > 0,
    ensures
        ({
            let n = ordered.len() as int;
            let period = if order_mode == OrderMode::Column || order_mode == OrderMode::ReverseColumn {
                height
            } else {
                width
            };
            &&& (split_entry(ordered, width, height, order_mode, ColorMode::Composite, channels, continuous, k).1
                == Flag::Reset) == (!continuous && (k % n) % period == 0)
            &&& (split_entry(ordered, width, height, order_mode, ColorMode::Bayer, channels, continuous, k).1
                == Flag::Reset) == (!continuous && k > 0 && k % period == 0)
            &&& (split_entry(ordered, width, height, order_mode, ColorMode::Interleaved, channels, continuous, k).1
                == Flag::Reset) == (!continuous && k % channels == 0 && (k / channels) % width == 0)
        }),
{
}

/// The bytes of `out` once the pixels read before position `k` have been
/// rebuilt into it, in a picture of exactly `width * height` pixels: each byte
/// of such a pixel is the rebuilt pixel's byte, every other byte is as before.
pub open spec fn written_before(
    out: Seq<u8>,
    processed: Seq<u8>,
    bayer_rgb: Seq<[u8; 3]>,
    source: Picture,
    width: int,
    height: int,
    order_mode: OrderMode,
    color_mode: ColorMode,
    alpha_mode: AlphaMode,
    channels: int,
    k: int,
) -> Seq<u8> {
    Seq::new(
        out.len(),
        |b: int|
            {
                let q = b / 4;
                let position = order_position(order_mode, width, height, q % width, q / width);
                if position < k {
                    rebuilt_rgba(processed, bayer_rgb, source, width, height, order_mode, color_mode,
                        alpha_mode, channels, position)[b % 4]
                } else {
                    out[b]
                }
            },
    )
}

/// In a picture of exactly `width * height` pixels, rebuilding writes each
/// pixel once, at its own place: after the first `k` positions, the pixels read
/// at those positions hold what was rebuilt for them and every other byte is
/// unchanged.
pub proof fn law_rebuild_writes_each_pixel_in_place(
    out: Seq<u8>,
    processed: Seq<u8>,
    bayer_rgb: Seq<[u8; 3]>,
    source: Picture,
    width: int,
    height: int,
    order_mode: OrderMode,
    color_mode: ColorMode,
    alpha_mode: AlphaMode,
    channels: int,
    k: nat,
)
    requires
        0 <= width,
        0 <= height,
        out.len() == width * height * 4,
        k <= width * height,
    ensures
        rebuilt(out, width, processed, bayer_rgb, source, width, height, order_mode, color_mode, alpha_mode,
            channels, k) == written_before(out, processed, bayer_rgb, source, width, height, order_mode,
            color_mode, alpha_mode, channels, k as int),
    decreases k,
{
    let w = width;
    let h = height;
    let now = rebuilt(out, w, processed, bayer_rgb, source, w, h, order_mode, color_mode, alpha_mode, channels, k);
    let expected = written_before(out, processed, bayer_rgb, source, w, h, order_mode, color_mode, alpha_mode,
        channels, k as int);
    if k == 0 {
        assert forall|b: int| 0 <= b < out.len() implies #[trigger] expected[b] == out[b] by {
            let q = b / 4;
            assert(0 <= q < w * h);
            assert(w > 0) by (nonlinear_arith)
                requires
                    0 <= q < w * h,
                    0 <= h,
            ;
            assert(0 <= q % w < w && 0 <= q / w < h) by (nonlinear_arith)
                requires
                    0 <= q < w * h,
                    w > 0,
            ;
            law_order_is_a_bijection(order_mode, w, h, q % w, q / w, 0);
        }
        assert(now =~= expected);
    } else {
        let j = k - 1;
        law_rebuild_writes_each_pixel_in_place(out, processed, bayer_rgb, source, w, h, order_mode, color_mode,
            alpha_mode, channels, j as nat);
        let (x, y) = order_coord(order_mode, w, h, j);
        lemma_order_coord_in_grid(order_mode, w, h, j);
        law_order_is_a_bijection(order_mode, w, h, x, y, j);
        lemma_in_grid(x, y, w, h);
        let raw = 4 * (x + y * w);
        assert(raw + 4 <= w * h * 4 && raw == raw_of(x, y, w)) by (nonlinear_arith)
            requires
                0 <= x + y * w < w * h,
                raw == 4 * (x + y * w),
        ;
        assert(wrapped_index(out.len() as int, w, x, y) == raw);
        let before = written_before(out, processed, bayer_rgb, source, w, h, order_mode, color_mode,
            alpha_mode, channels, j);
        let rgba = rebuilt_rgba(processed, bayer_rgb, source, w, h, order_mode, color_mode, alpha_mode,
            channels, j);
        assert forall|b: int| 0 <= b < out.len() implies #[trigger] painted(before, raw, rgba)[b] == expected[b] by {
            if raw <= b < raw + 4 {
                lemma_byte_of_pixel(b, w, x, y);
            } else {
                let q = b / 4;
                assert(0 <= q < w * h);
                assert(0 <= q % w < w && 0 <= q / w < h && q == (q / w) * w + q % w) by (nonlinear_arith)
                    requires
                        0 <= q < w * h,
                        w > 0,
                ;
                law_order_is_a_bijection(order_mode, w, h, q % w, q / w, j);
                if order_position(order_mode, w, h, q % w, q / w) == j {
                    assert(q % w == x && q / w == y);
                    assert(4 * q <= b < 4 * q + 4);
                }
            }
        }
        assert(now =~= expected);
    }
}

/// `4 * (x + y * width)`.
spec fn raw_of(x: int, y: int, width: int) -> int {
    4 * (x + y * width)
}

/// In the Bayer layout, whatever the order, every pixel `(x, y)` of a picture
/// of exactly `width * height` pixels ends with the demosaiced colors stored
/// for `(x, y)` itself, `bayer_rgb[x + y * width]`, and with the source's alpha
/// when alpha is preserved, else opaque.
pub proof fn law_bayer_colors_land_in_place(
    out: Seq<u8>,
    processed: Seq<u8>,
    bayer_rgb: Seq<[u8; 3]>,
    source: Picture,
    width: int,
    height: int,
    order_mode: OrderMode,
    alpha_mode: AlphaMode,
    channels: int,
    x: int,
    y: int,
)
    requires
        out.len() == width * height * 4,
        0 <= x < width,
        0 <= y < height,
    ensures
        rebuilt(out, width, processed, bayer_rgb, source, width, height, order_mode, ColorMode::Bayer,
            alpha_mode, channels, (width * height) as nat).subrange(4 * (x + y * width), 4 * (x + y * width) + 4)
            == seq![
            bayer_rgb[x + y * width]@[0],
            bayer_rgb[x + y * width]@[1],
            bayer_rgb[x + y * width]@[2],
            if alpha_mode == AlphaMode::Preserve {
                source@[source.pixel_index(x, y) + 3]
            } else {
                255u8
            },
        ],
{
    let w = width;
    let h = height;
    lemma_in_grid(x, y, w, h);
    assert(0 <= width * height) by (nonlinear_arith)
        requires
            0 <= x < width,
            0 <= y < height,
    ;
    law_rebuild_writes_each_pixel_in_place(out, processed, bayer_rgb, source, w, h, order_mode, ColorMode::Bayer,
        alpha_mode, channels, (w * h) as nat);
    law_order_is_a_bijection(order_mode, w, h, x, y, 0);
    let raw = 4 * (x + y * w);
    assert(raw + 4 <= w * h * 4) by (nonlinear_arith)
        requires
            0 <= x + y * w < w * h,
            raw == 4 * (x + y * w),
    ;
    let final_bytes = rebuilt(out, w, processed, bayer_rgb, source, w, h, order_mode, ColorMode::Bayer,
        alpha_mode, channels, (w * h) as nat);
    let expected = seq![
        bayer_rgb[x + y * w]@[0],
        bayer_rgb[x + y * w]@[1],
        bayer_rgb[x + y * w]@[2],
        if alpha_mode == AlphaMode::Preserve {
            source@[source.pixel_index(x, y) + 3]
        } else {
            255u8
        },
    ];
    assert forall|i: int| 0 <= i < 4 implies #[trigger] final_bytes.subrange(raw, raw + 4)[i] == expected[i] by {
        lemma_byte_of_pixel(raw + i, w, x, y);
    }
    assert(final_bytes.subrange(raw, raw + 4) =~= expected);
}

/// How each order walks the grid: the row orders start on the top row, at the
/// left edge (or the right edge, reversed), and step one pixel right (or left)
/// until the row ends, then go to the next row; the column orders start on the
/// left column, at the top (or the bottom, reversed), and step one pixel down
/// (or up) until the column ends, then go to the next column.
pub proof fn law_order_walk(order_mode: OrderMode, width: int, height: int, k: int)
    requires
        width > 0,
        height > 0,
        0 <= k,
        k + 1 < width * height,
    ensures
        order_mode == OrderMode::Row ==> order_coord(order_mode, width, height, 0) == (0int, 0int),
        order_mode == OrderMode::ReverseRow ==> order_coord(order_mode, width, height, 0) == (width - 1, 0int),
        order_mode == OrderMode::Column ==> order_coord(order_mode, width, height, 0) == (0int, 0int),
        order_mode == OrderMode::ReverseColumn ==> order_coord(order_mode, width, height, 0) == (0int, height - 1),
        ({
            let (x, y) = order_coord(order_mode, width, height, k);
            let (x2, y2) = order_coord(order_mode, width, height, k + 1);
            &&& order_mode == OrderMode::Row ==> if x + 1 < width {
                x2 == x + 1 && y2 == y
            } else {
                x2 == 0 && y2 == y + 1
            }
            &&& order_mode == OrderMode::ReverseRow ==> if x > 0 {
                x2 == x - 1 && y2 == y
            } else {
                x2 == width - 1 && y2 == y + 1
            }
            &&& order_mode == OrderMode::Column ==> if y + 1 < height {
                y2 == y + 1 && x2 == x
            } else {
                y2 == 0 && x2 == x + 1
            }
            &&& order_mode == OrderMode::ReverseColumn ==> if y > 0 {
                y2 == y - 1 && x2 == x
            } else {
                y2 == height - 1 && x2 == x + 1
            }
        }),
{
    lemma_div_mod(0, width, 0, 0);
    lemma_div_mod(0, height, 0, 0);
    let (qw, rw) = (k / width, k % width);
    let (qh, rh) = (k / height, k % height);
    assert(0 <= rw < width && k == qw * width + rw) by (nonlinear_arith)
        requires
            width > 0,
            qw == k / width,
            rw == k % width,
    ;
    assert(0 <= rh < height && k == qh * height + rh) by (nonlinear_arith)
        requires
            height > 0,
            qh == k / height,
            rh == k % height,
    ;
    if rw + 1 < width {
        lemma_div_mod(k + 1, width, qw, rw + 1);
    } else {
        assert((qw + 1) * width == qw * width + width) by (nonlinear_arith);
        lemma_div_mod(k + 1, width, qw + 1, 0);
    }
    if rh + 1 < height {
        lemma_div_mod(k + 1, height, qh, rh + 1);
    } else {
        assert((qh + 1) * height == qh * height + height) by (nonlinear_arith);
        lemma_div_mod(k + 1, height, qh + 1, 0);
    }
}

} // verus!
