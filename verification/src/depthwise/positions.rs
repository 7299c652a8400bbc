//! Positions in the output, in the weights and in the input buffer.

use crate::depthwise::model::lines_up;
use crate::tensor::CubeTensor;
use vstd::arithmetic::div_mod::{
    lemma_add_mod_noop, lemma_fundamental_div_mod, lemma_mod_multiples_basic, lemma_small_mod,
};
use vstd::prelude::*;

verus! {

/// `rest` whole turns of `shape`, and `coords` into the next: the position
/// that this is when the last dim is fastest.
pub open spec fn compose_linear(rest: int, shape: Seq<u32>, coords: Seq<u32>) -> int
    decreases shape.len(),
{
    if shape.len() == 0 {
        rest
    } else {
        compose_linear(rest, shape.drop_last(), coords.drop_last()) * shape.last() + coords.last()
    }
}

/// Decomposes a position into coordinates along the first `rank` dims of
/// `shape`, the last of them fastest, and the whole turns that are left over.
fn decompose_first(pos: u32, shape: &[u32], rank: usize) -> (parts: (u32, Vec<u32>))
    requires
        rank <= shape@.len(),
        forall|i: int| 0 <= i < shape@.len() ==> (#[trigger] shape@[i]) > 0,
    ensures
        parts.1@.len() == rank,
        forall|i: int| 0 <= i < rank ==> (#[trigger] parts.1@[i]) < shape@[i],
        compose_linear(parts.0 as int, shape@.take(rank as int), parts.1@) == pos,
    decreases rank,
{
    if rank == 0 {
        (pos, Vec::new())
    } else {
        let size: u32 = shape[rank - 1];
        let (rest, inner) = decompose_first(pos / size, shape, rank - 1);
        let mut coords = inner;
        let ghost outer = coords@;
        coords.push(pos % size);
        proof {
            assert(shape@.take(rank as int).drop_last() =~= shape@.take(rank - 1));
            assert(coords@.drop_last() =~= outer);
            lemma_fundamental_div_mod(pos as int, size as int);
            assert((pos / size) * size == size * (pos / size)) by (nonlinear_arith);
        }
        (rest, coords)
    }
}

/// Decomposes a position into coordinates along the dims of `shape`, the last
/// of them fastest, and the whole turns that are left over.
pub fn decompose_linear(pos: u32, shape: &[u32]) -> (parts: (u32, Vec<u32>))
    requires
        forall|i: int| 0 <= i < shape@.len() ==> (#[trigger] shape@[i]) > 0,
    ensures
        parts.1@.len() == shape@.len(),
        forall|i: int| 0 <= i < shape@.len() ==> (#[trigger] parts.1@[i]) < shape@[i],
        compose_linear(parts.0 as int, shape@, parts.1@) == pos,
{
    assert(shape@.take(shape@.len() as int) =~= shape@);
    decompose_first(pos, shape, shape.len())
}

/// The number of elements of a tensor of these sizes.
pub(crate) fn element_count(batch: usize, h: usize, w: usize, channels: usize) -> (count: usize)
    requires
        h >= 1,
        w >= 1,
        batch * h * w * channels <= usize::MAX,
    ensures
        count == batch * h * w * channels,
{
    if channels == 0 {
        assert(batch * h * w * 0 == 0) by (nonlinear_arith);
        0
    } else {
        proof {
            let pixels = batch * h * w;
            assert(batch * h <= pixels) by (nonlinear_arith)
                requires
                    batch >= 0,
                    h >= 1,
                    w >= 1,
                    pixels == batch * h * w,
            ;
            assert(0 <= batch * h) by (nonlinear_arith)
                requires
                    batch >= 0,
                    h >= 1,
            ;
            assert(pixels <= pixels * channels) by (nonlinear_arith)
                requires
                    pixels >= 0,
                    channels >= 1,
            ;
        }
        batch * h * w * channels
    }
}

/// The two spatial coordinates of a pixel, and the image it belongs to.
pub(crate) proof fn lemma_compose_pixel(rest: int, shape: Seq<u32>, coords: Seq<u32>, pixel: int)
    requires
        shape.len() == 2,
        coords.len() == 2,
        rest >= 0,
        coords[0] < shape[0],
        coords[1] < shape[1],
        compose_linear(rest, shape, coords) == pixel,
    ensures
        coords[1] == pixel % (shape[1] as int),
        coords[0] == (pixel / (shape[1] as int)) % (shape[0] as int),
        rest == (pixel / (shape[1] as int)) / (shape[0] as int),
{
    reveal_with_fuel(compose_linear, 3);
    let h = shape[0] as int;
    let w = shape[1] as int;
    let y = coords[0] as int;
    let x = coords[1] as int;
    assert(shape.drop_last().last() == shape[0]);
    assert(coords.drop_last().last() == coords[0]);
    assert(shape.drop_last().drop_last().len() == 0);
    let row = rest * h + y;
    assert(pixel == row * w + x);
    assert(pixel / w == row && pixel % w == x) by (nonlinear_arith)
        requires
            pixel == row * w + x,
            0 <= x < w,
    ;
    assert(row / h == rest && row % h == y) by (nonlinear_arith)
        requires
            row == rest * h + y,
            0 <= y < h,
    ;
}

/// A vector of channels lies in one pixel.
pub(crate) proof fn lemma_lanes_share_pixel(pos: int, lane: int, channels: int, vector_size: int)
    requires
        vector_size >= 1,
        channels >= 1,
        channels % vector_size == 0,
        pos >= 0,
        pos % vector_size == 0,
        0 <= lane < vector_size,
    ensures
        pos % channels + vector_size <= channels,
        (pos % channels) % vector_size == 0,
        (pos + lane) / channels == pos / channels,
        (pos + lane) % channels == pos % channels + lane,
{
    let c = pos % channels;
    let pixel = pos / channels;
    let k = channels / vector_size;
    let u = pos / vector_size;
    lemma_fundamental_div_mod(pos, channels);
    lemma_fundamental_div_mod(channels, vector_size);
    lemma_fundamental_div_mod(pos, vector_size);
    let v = u - k * pixel;
    assert(c == v * vector_size) by (nonlinear_arith)
        requires
            pos == channels * pixel + c,
            channels == vector_size * k,
            pos == vector_size * u,
            v == u - k * pixel,
    ;
    lemma_mod_multiples_basic(v, vector_size);
    assert(v < k) by (nonlinear_arith)
        requires
            v * vector_size < k * vector_size,
            v * vector_size == c,
            c < channels,
            channels == vector_size * k,
            vector_size >= 1,
    ;
    assert(v * vector_size + vector_size <= k * vector_size) by (nonlinear_arith)
        requires
            v < k,
            vector_size >= 1,
    ;
    assert(k * vector_size == vector_size * k) by (nonlinear_arith);
    assert((pos + lane) / channels == pixel && (pos + lane) % channels == c + lane)
        by (nonlinear_arith)
        requires
            pos + lane == channels * pixel + (c + lane),
            0 <= c + lane < channels,
    ;
}

/// A multiple stays one when it is multiplied.
pub(crate) proof fn lemma_multiple_times(count: int, size: int, vector_size: int)
    requires
        vector_size >= 1,
        size % vector_size == 0,
    ensures
        (count * size) % vector_size == 0,
{
    lemma_fundamental_div_mod(size, vector_size);
    let q = size / vector_size;
    assert(count * size == (count * q) * vector_size) by (nonlinear_arith)
        requires
            size == vector_size * q,
    ;
    lemma_mod_multiples_basic(count * q, vector_size);
}

/// The sum of two multiples is one.
pub(crate) proof fn lemma_multiple_plus(a: int, b: int, vector_size: int)
    requires
        vector_size >= 1,
        a % vector_size == 0,
        b % vector_size == 0,
    ensures
        (a + b) % vector_size == 0,
{
    lemma_add_mod_noop(a, b, vector_size);
    lemma_small_mod(0, vector_size as nat);
}

/// The units of a launch take up the output between them.
pub(crate) proof fn lemma_units(len: int, pixels: int, channels: int, vector_size: int, unit: int)
    requires
        vector_size >= 1,
        channels % vector_size == 0,
        len == pixels * channels,
        len >= 0,
        unit >= 0,
    ensures
        unit < len / vector_size ==> (unit + 1) * vector_size <= len,
        unit >= len / vector_size ==> unit * vector_size >= len,
        (unit * vector_size) % vector_size == 0,
        (unit + 1) * vector_size == unit * vector_size + vector_size,
        (len / vector_size) * vector_size == len,
{
    lemma_multiple_times(pixels, channels, vector_size);
    lemma_fundamental_div_mod(len, vector_size);
    lemma_mod_multiples_basic(unit, vector_size);
    let units = len / vector_size;
    assert(units * vector_size == vector_size * units) by (nonlinear_arith);
    assert((unit + 1) * vector_size == unit * vector_size + vector_size) by (nonlinear_arith);
    if unit < units {
        assert((unit + 1) * vector_size <= units * vector_size) by (nonlinear_arith)
            requires
                unit < units,
                vector_size >= 1,
        ;
    } else {
        assert(unit * vector_size >= units * vector_size) by (nonlinear_arith)
            requires
                unit >= units,
                vector_size >= 1,
        ;
    }
}

/// A position of the output belongs to an image of the batch.
pub(crate) proof fn lemma_output_position(pos: int, batch: int, h: int, w: int, channels: int)
    requires
        0 <= pos < batch * h * w * channels,
        batch >= 0,
        h >= 0,
        w >= 0,
        channels >= 0,
    ensures
        h > 0,
        w > 0,
        channels > 0,
        0 <= pos / channels < batch * h * w,
        0 <= ((pos / channels) / w) / h < batch,
{
    let pixels = batch * h * w;
    assert(channels > 0) by (nonlinear_arith)
        requires
            0 <= pos < pixels * channels,
            channels >= 0,
    ;
    let pixel = pos / channels;
    assert(0 <= pixel < pixels) by (nonlinear_arith)
        requires
            0 <= pos < pixels * channels,
            channels > 0,
            pixel == pos / channels,
    ;
    let rows = batch * h;
    assert(w > 0) by (nonlinear_arith)
        requires
            0 <= pixel < rows * w,
            w >= 0,
    ;
    let row = pixel / w;
    assert(0 <= row < rows) by (nonlinear_arith)
        requires
            0 <= pixel < rows * w,
            w > 0,
            row == pixel / w,
    ;
    assert(h > 0) by (nonlinear_arith)
        requires
            0 <= row < batch * h,
            h >= 0,
    ;
    assert(0 <= row / h < batch) by (nonlinear_arith)
        requires
            0 <= row < batch * h,
            h > 0,
    ;
}

/// Where a contiguous output holds the element at these coordinates, and back.
pub(crate) proof fn lemma_output_offset(
    batches: int,
    out_h: int,
    out_w: int,
    channels: int,
    batch: int,
    out_y: int,
    out_x: int,
    channel: int,
    at: int,
)
    requires
        0 <= batch < batches,
        0 <= out_y < out_h,
        0 <= out_x < out_w,
        0 <= channel < channels,
        at == batch * (out_h * out_w * channels) + out_y * (out_w * channels) + out_x * channels
            + channel * 1,
    ensures
        0 <= at < batches * out_h * out_w * channels,
        at % channels == channel,
        (at / channels) % out_w == out_x,
        ((at / channels) / out_w) % out_h == out_y,
        ((at / channels) / out_w) / out_h == batch,
{
    let row = batch * out_h + out_y;
    let pixel = row * out_w + out_x;
    let span = out_w * channels;
    assert(out_h * out_w * channels == out_h * span) by (nonlinear_arith)
        requires
            span == out_w * channels,
    ;
    assert(batch * (out_h * span) + out_y * span == row * span) by (nonlinear_arith)
        requires
            row == batch * out_h + out_y,
    ;
    assert(row * span + out_x * channels == pixel * channels) by (nonlinear_arith)
        requires
            span == out_w * channels,
            pixel == row * out_w + out_x,
    ;
    assert(at % channels == channel && at / channels == pixel) by (nonlinear_arith)
        requires
            at == pixel * channels + channel,
            0 <= channel < channels,
    ;
    assert(pixel % out_w == out_x && pixel / out_w == row) by (nonlinear_arith)
        requires
            pixel == row * out_w + out_x,
            0 <= out_x < out_w,
    ;
    assert(row % out_h == out_y && row / out_h == batch) by (nonlinear_arith)
        requires
            row == batch * out_h + out_y,
            0 <= out_y < out_h,
    ;
    let rows = batches * out_h;
    assert(0 <= row < rows) by (nonlinear_arith)
        requires
            0 <= batch < batches,
            0 <= out_y < out_h,
            row == batch * out_h + out_y,
            rows == batches * out_h,
    ;
    let pixels = rows * out_w;
    assert(0 <= pixel < pixels) by (nonlinear_arith)
        requires
            0 <= row < rows,
            0 <= out_x < out_w,
            pixel == row * out_w + out_x,
            pixels == rows * out_w,
    ;
    assert(0 <= pixel * channels + channel < pixels * channels) by (nonlinear_arith)
        requires
            0 <= pixel < pixels,
            0 <= channel < channels,
    ;
}

/// Position `at` of a buffer laid out `[kh, kw, c]` holds the weight of this
/// channel for this tap.
pub(crate) proof fn lemma_tap_index(ky: int, kx: int, kernel_w: int, channels: int, channel: int, at: int)
    requires
        0 <= kx < kernel_w,
        0 <= channel < channels,
        at == (ky * kernel_w + kx) * channels + channel,
    ensures
        at % channels == channel,
        (at / channels) % kernel_w == kx,
        (at / channels) / kernel_w == ky,
{
    let tap = ky * kernel_w + kx;
    assert(at % channels == channel && at / channels == tap) by (nonlinear_arith)
        requires
            at == tap * channels + channel,
            0 <= channel < channels,
    ;
    assert(tap % kernel_w == kx && tap / kernel_w == ky) by (nonlinear_arith)
        requires
            tap == ky * kernel_w + kx,
            0 <= kx < kernel_w,
    ;
}

/// A tap's row fits, and stays inside where it must.
pub(crate) proof fn lemma_tap_bounds(
    out: int,
    out_size: int,
    stride: int,
    k: int,
    kernel_size: int,
    dilation: int,
)
    requires
        0 <= out < out_size,
        0 <= k < kernel_size,
        stride >= 0,
        dilation >= 0,
    ensures
        0 <= out * stride <= (out_size - 1) * stride,
        0 <= k * dilation <= (kernel_size - 1) * dilation,
{
    assert(0 <= out * stride <= (out_size - 1) * stride) by (nonlinear_arith)
        requires
            0 <= out < out_size,
            stride >= 0,
    ;
    assert(0 <= k * dilation <= (kernel_size - 1) * dilation) by (nonlinear_arith)
        requires
            0 <= k < kernel_size,
            dilation >= 0,
    ;
}

/// The vector of one tap's weights lies inside the weights.
pub(crate) proof fn lemma_weight_bounds(
    ky: int,
    kx: int,
    kernel_h: int,
    kernel_w: int,
    channels: int,
    channel: int,
)
    requires
        0 <= ky < kernel_h,
        0 <= kx < kernel_w,
        0 <= channel < channels,
    ensures
        0 <= ky * kernel_w,
        ky * kernel_w + kx < kernel_h * kernel_w,
        0 <= (ky * kernel_w + kx) * channels,
        (ky * kernel_w + kx) * channels + channel < kernel_h * kernel_w * channels,
{
    assert(0 <= ky * kernel_w) by (nonlinear_arith)
        requires
            ky >= 0,
            kernel_w >= 0,
    ;
    assert(ky * kernel_w + kx < kernel_h * kernel_w) by (nonlinear_arith)
        requires
            0 <= ky < kernel_h,
            0 <= kx < kernel_w,
    ;
    let tap = ky * kernel_w + kx;
    let taps = kernel_h * kernel_w;
    assert(0 <= tap * channels && tap * channels + channel < taps * channels) by (nonlinear_arith)
        requires
            0 <= tap < taps,
            0 <= channel < channels,
    ;
}

/// Neighbouring channels are neighbours in the buffer.
pub(crate) proof fn lemma_lane_position<E>(
    input: CubeTensor<E>,
    batch: int,
    y: int,
    x: int,
    channel: int,
    lane: int,
)
    requires
        input.strides@[3] == 1 || channel + lane == 0,
    ensures
        input.offset(batch, y, x, channel + lane) == batch * input.strides@[0] + y
            * input.strides@[1] + x * input.strides@[2] + channel + lane,
{
    assert((channel + lane) * input.strides@[3] == channel + lane) by (nonlinear_arith)
        requires
            input.strides@[3] == 1 || channel + lane == 0,
    ;
}

/// The first channel of a vector sits at a multiple of the vector's size.
pub(crate) proof fn lemma_offset_lines_up<E>(
    input: CubeTensor<E>,
    batch: int,
    y: int,
    x: int,
    channel: int,
    vector_size: int,
)
    requires
        input.is_4d(),
        lines_up(input, vector_size),
        input.has(batch, y, x, channel),
        channel % vector_size == 0,
    ensures
        input.offset(batch, y, x, channel) % vector_size == 0,
{
    let s0 = input.strides@[0] as int;
    let s1 = input.strides@[1] as int;
    let s2 = input.strides@[2] as int;
    lemma_small_mod(0, vector_size as nat);
    assert((batch * s0) % vector_size == 0) by {
        if input.shape@[0] > 1 {
            lemma_multiple_times(batch, s0, vector_size);
        } else {
            assert(batch * s0 == 0) by (nonlinear_arith)
                requires
                    batch == 0,
            ;
        }
    }
    assert((y * s1) % vector_size == 0) by {
        if input.shape@[1] > 1 {
            lemma_multiple_times(y, s1, vector_size);
        } else {
            assert(y * s1 == 0) by (nonlinear_arith)
                requires
                    y == 0,
            ;
        }
    }
    assert((x * s2) % vector_size == 0) by {
        if input.shape@[2] > 1 {
            lemma_multiple_times(x, s2, vector_size);
        } else {
            assert(x * s2 == 0) by (nonlinear_arith)
                requires
                    x == 0,
            ;
        }
    }
    assert(channel * input.strides@[3] == channel) by (nonlinear_arith)
        requires
            input.strides@[3] == 1 || channel == 0,
    ;
    lemma_multiple_plus(batch * s0, y * s1, vector_size);
    lemma_multiple_plus(batch * s0 + y * s1, x * s2, vector_size);
    lemma_multiple_plus(batch * s0 + y * s1 + x * s2, channel, vector_size);
}

/// The vector that a tap reads lies in the buffer, at a multiple of its size.
pub(crate) proof fn lemma_tap_position<E>(
    input: CubeTensor<E>,
    batch: int,
    y: int,
    x: int,
    channel: int,
    vector_size: int,
)
    requires
        input.is_4d(),
        lines_up(input, vector_size),
        input.has(batch, y, x, channel),
        channel + vector_size <= input.shape@[3],
        channel % vector_size == 0,
    ensures
        ({
            let pos = batch * input.strides@[0] + y * input.strides@[1] + x * input.strides@[2]
                + channel;
            &&& 0 <= batch * input.strides@[0]
            &&& 0 <= y * input.strides@[1]
            &&& 0 <= x * input.strides@[2]
            &&& pos % vector_size == 0
            &&& pos + vector_size <= input.data@.len()
        }),
{
    lemma_offset_lines_up(input, batch, y, x, channel, vector_size);
    lemma_lane_position(input, batch, y, x, channel, 0);
    lemma_lane_position(input, batch, y, x, channel, vector_size - 1);
    assert(input.has(batch, y, x, channel + vector_size - 1));
    assert(0 <= batch * input.strides@[0] && 0 <= y * input.strides@[1] && 0 <= x
        * input.strides@[2]) by (nonlinear_arith)
        requires
            0 <= batch,
            0 <= y,
            0 <= x,
            0 <= input.strides@[0],
            0 <= input.strides@[1],
            0 <= input.strides@[2],
    ;
}

} // verus!
