//! What a depthwise convolution is, and what a launch of its kernel needs.

use crate::conv::{window_count_dim, window_fits_dim, ConvOptions};
use crate::element::Element;
use crate::tensor::CubeTensor;
use vstd::prelude::*;

verus! {

/// The geometry of a depthwise convolution, as its kernel takes it.
#[derive(Clone, Copy, Debug, PartialEq, Eq, Structural)]
pub struct DepthwiseArgs {
    pub stride_h: u32,
    pub stride_w: u32,
    pub dilation_h: u32,
    pub dilation_w: u32,
    pub padding_h: i32,
    pub padding_w: i32,
    pub in_h: u32,
    pub in_w: u32,
    pub kernel_h: u32,
    pub kernel_w: u32,
}

impl DepthwiseArgs {
    /// The row that tap `ky` of the window at `out_y` reads.
    pub open spec fn tap_y(self, out_y: int, ky: int) -> int {
        out_y * self.stride_h + ky * self.dilation_h - self.padding_h
    }

    /// The column that tap `kx` of the window at `out_x` reads.
    pub open spec fn tap_x(self, out_x: int, kx: int) -> int {
        out_x * self.stride_w + kx * self.dilation_w - self.padding_w
    }

    /// Whether a row and a column are those of an input element; what lies
    /// outside is padding.
    pub open spec fn inside(self, y: int, x: int) -> bool {
        0 <= y < self.in_h && 0 <= x < self.in_w
    }

    /// Whether no tap of the window at `out_y` and `out_x` falls on padding.
    pub open spec fn window_inside(self, out_y: int, out_x: int) -> bool {
        forall|ky: int, kx: int|
            0 <= ky < self.kernel_h && 0 <= kx < self.kernel_w ==> #[trigger] self.inside(
                self.tap_y(out_y, ky),
                self.tap_x(out_x, kx),
            )
    }

    /// Whether no tap falls on padding of the window that a unit of a launch
    /// sums over: that of the pixel its vector of channels belongs to.
    pub open spec fn unit_inside(
        self,
        out_h: int,
        out_w: int,
        channels: int,
        vector_size: int,
        unit: int,
    ) -> bool {
        let pixel = (unit * vector_size) / channels;
        self.window_inside((pixel / out_w) % out_h, pixel % out_w)
    }

    /// Whether no tap of any window falls on padding.
    pub open spec fn never_outside(self, out_h: int, out_w: int) -> bool {
        &&& forall|out_y: int, ky: int|
            0 <= out_y < out_h && 0 <= ky < self.kernel_h ==> 0 <= #[trigger] self.tap_y(out_y, ky)
                < self.in_h
        &&& forall|out_x: int, kx: int|
            0 <= out_x < out_w && 0 <= kx < self.kernel_w ==> 0 <= #[trigger] self.tap_x(out_x, kx)
                < self.in_w
    }

    /// Whether the kernel can count as far as the last tap of the last window.
    pub open spec fn counts_taps(self, out_h: int, out_w: int) -> bool {
        &&& self.padding_h >= 0
        &&& self.padding_w >= 0
        &&& self.kernel_h * self.kernel_w <= u32::MAX
        &&& (out_h - 1) * self.stride_h + (self.kernel_h - 1) * self.dilation_h <= i32::MAX
        &&& (out_w - 1) * self.stride_w + (self.kernel_w - 1) * self.dilation_w <= i32::MAX
    }
}

/// `start`, and on top of it the first `taps` taps of row `ky` of a window,
/// each the input it falls on times its weight. With `check` a tap that falls
/// on padding is left out; without it every tap is taken to be inside.
pub open spec fn row_sum<E: Element>(
    args: DepthwiseArgs,
    check: bool,
    plane: spec_fn(int, int) -> E,
    filter: spec_fn(int, int) -> E,
    start: E,
    out_y: int,
    out_x: int,
    ky: int,
    taps: nat,
) -> E
    decreases taps,
{
    if taps == 0 {
        start
    } else {
        let kx = taps - 1;
        let before = row_sum(args, check, plane, filter, start, out_y, out_x, ky, (taps - 1) as nat);
        let y = args.tap_y(out_y, ky);
        let x = args.tap_x(out_x, kx);
        if !check || args.inside(y, x) {
            before.plus(plane(y, x).times(filter(ky, kx)))
        } else {
            before
        }
    }
}

/// `start`, and on top of it the first `rows` rows of a window.
pub open spec fn window_sum<E: Element>(
    args: DepthwiseArgs,
    check: bool,
    plane: spec_fn(int, int) -> E,
    filter: spec_fn(int, int) -> E,
    start: E,
    out_y: int,
    out_x: int,
    rows: nat,
) -> E
    decreases rows,
{
    if rows == 0 {
        start
    } else {
        row_sum(
            args,
            check,
            plane,
            filter,
            window_sum(args, check, plane, filter, start, out_y, out_x, (rows - 1) as nat),
            out_y,
            out_x,
            rows - 1,
            args.kernel_w as nat,
        )
    }
}

/// One channel of one image of a batch.
pub open spec fn plane_of<E>(input: CubeTensor<E>, batch: int, channel: int) -> spec_fn(
    int,
    int,
) -> E {
    |y: int, x: int| input.at(batch, y, x, channel)
}

/// The weights of one channel, in a buffer laid out `[kh, kw, c]`.
pub open spec fn filter_by_tap<E>(
    weight: Seq<E>,
    kernel_w: int,
    channels: int,
    channel: int,
) -> spec_fn(int, int) -> E {
    |ky: int, kx: int| weight[(ky * kernel_w + kx) * channels + channel]
}

/// The weights of one channel, in a tensor laid out `[c, kh, kw, 1]`.
pub open spec fn filter_of<E>(weight: CubeTensor<E>, channel: int) -> spec_fn(int, int) -> E {
    |ky: int, kx: int| weight.at(channel, ky, kx, 0)
}

/// What the sum of a channel starts from.
pub open spec fn start_of<E: Element>(bias: Option<Seq<E>>, channel: int) -> E {
    match bias {
        Some(values) => values[channel],
        None => E::nought(),
    }
}

/// The element at position `at` of the output, whose dims are `[batch, out_h,
/// out_w, channels]` with the last one fastest. `check` is as for the sum over
/// a row.
pub open spec fn output_element<E: Element>(
    input: CubeTensor<E>,
    weight: Seq<E>,
    bias: Option<Seq<E>>,
    args: DepthwiseArgs,
    check: bool,
    out_h: int,
    out_w: int,
    channels: int,
    at: int,
) -> E {
    let channel = at % channels;
    let pixel = at / channels;
    let out_x = pixel % out_w;
    let out_y = (pixel / out_w) % out_h;
    let batch = (pixel / out_w) / out_h;
    window_sum(
        args,
        check,
        plane_of(input, batch, channel),
        filter_by_tap(weight, args.kernel_w as int, channels, channel),
        start_of(bias, channel),
        out_y,
        out_x,
        args.kernel_h as nat,
    )
}

/// What a depthwise convolution is: each output channel is the sum over its
/// window of the same input channel times its weights, on top of its bias.
pub open spec fn depthwise_at<E: Element, const N: usize>(
    input: CubeTensor<E>,
    weight: CubeTensor<E>,
    bias: Option<Seq<E>>,
    options: ConvOptions<N>,
    batch: int,
    out_y: int,
    out_x: int,
    channel: int,
) -> E {
    window_sum(
        depthwise_args(input.shape@, weight.shape@, options),
        true,
        plane_of(input, batch, channel),
        filter_of(weight, channel),
        start_of(bias, channel),
        out_y,
        out_x,
        weight.shape@[1] as nat,
    )
}

/// Whether vectors of `vector_size` channels line up with the buffer: the
/// first channel of a vector always sits at a multiple of their size.
pub open spec fn lines_up<E>(input: CubeTensor<E>, vector_size: int) -> bool {
    &&& vector_size >= 1
    &&& input.shape@[3] > 1 ==> input.strides@[3] == 1
    &&& input.shape@[3] as int % vector_size == 0
    &&& forall|dim: int|
        0 <= dim < 3 && input.shape@[dim] > 1 ==> #[trigger] input.strides@[dim] as int % vector_size
            == 0
}

/// Whether a launch hands the kernel what it needs, apart from windows that
/// stay inside where it does not check.
pub open spec fn is_launch<E>(
    input: CubeTensor<E>,
    weight: Seq<E>,
    bias: Option<Seq<E>>,
    output_len: int,
    args: DepthwiseArgs,
    shape_out: Seq<u32>,
    shape_out_c: u32,
    vector_size: int,
) -> bool {
    &&& input.is_4d()
    &&& lines_up(input, vector_size)
    &&& input.shape@[1] == args.in_h
    &&& input.shape@[2] == args.in_w
    &&& input.shape@[3] == shape_out_c
    &&& shape_out.len() == 2
    &&& output_len == input.shape@[0] * shape_out[0] * shape_out[1] * shape_out_c
    &&& output_len <= u32::MAX
    &&& args.kernel_h * args.kernel_w * shape_out_c <= weight.len()
    &&& bias matches Some(values) ==> shape_out_c <= values.len()
    &&& args.counts_taps(shape_out[0] as int, shape_out[1] as int)
}

/// The values of a bias, if there is one.
pub open spec fn bias_view<E>(bias: Option<&Vec<E>>) -> Option<Seq<E>> {
    match bias {
        Some(values) => Some(values@),
        None => None,
    }
}

/// The values that a bias tensor holds, if there is one.
pub open spec fn bias_values<E>(bias: Option<CubeTensor<E>>) -> Option<Seq<E>> {
    match bias {
        Some(tensor) => Some(tensor.data@),
        None => None,
    }
}

/// The sizes of the input's spatial dims.
pub open spec fn spatial_in(input_shape: Seq<usize>) -> Seq<usize> {
    seq![input_shape[1], input_shape[2]]
}

/// The sizes of the kernel's spatial dims.
pub open spec fn spatial_kernel(weight_shape: Seq<usize>) -> Seq<usize> {
    seq![weight_shape[1], weight_shape[2]]
}

/// Whether a window fits the input along a spatial dim.
pub open spec fn fits_along<const N: usize>(
    input_shape: Seq<usize>,
    weight_shape: Seq<usize>,
    options: ConvOptions<N>,
    dim: int,
) -> bool {
    window_fits_dim(
        spatial_kernel(weight_shape),
        options.stride@,
        options.padding@,
        options.dilation@,
        spatial_in(input_shape),
        dim,
    )
}

/// The size of the output along a spatial dim.
pub open spec fn out_along<const N: usize>(
    input_shape: Seq<usize>,
    weight_shape: Seq<usize>,
    options: ConvOptions<N>,
    dim: int,
) -> int {
    window_count_dim(
        spatial_kernel(weight_shape),
        options.stride@,
        options.padding@,
        options.dilation@,
        spatial_in(input_shape),
        dim,
    )
}

/// The geometry that the kernel is launched with.
pub open spec fn depthwise_args<const N: usize>(
    input_shape: Seq<usize>,
    weight_shape: Seq<usize>,
    options: ConvOptions<N>,
) -> DepthwiseArgs {
    DepthwiseArgs {
        stride_h: options.stride@[0] as u32,
        stride_w: options.stride@[1] as u32,
        dilation_h: options.dilation@[0] as u32,
        dilation_w: options.dilation@[1] as u32,
        padding_h: options.padding@[0].0 as i32,
        padding_w: options.padding@[1].0 as i32,
        in_h: input_shape[1] as u32,
        in_w: input_shape[2] as u32,
        kernel_h: weight_shape[1] as u32,
        kernel_w: weight_shape[2] as u32,
    }
}

/// Whether the kernel's counters hold the geometry of a convolution.
pub open spec fn kernel_counts<const N: usize>(
    input_shape: Seq<usize>,
    weight_shape: Seq<usize>,
    options: ConvOptions<N>,
) -> bool {
    let out_h = out_along(input_shape, weight_shape, options, 0);
    let out_w = out_along(input_shape, weight_shape, options, 1);
    &&& options.stride@[0] <= u32::MAX
    &&& options.stride@[1] <= u32::MAX
    &&& options.dilation@[0] <= u32::MAX
    &&& options.dilation@[1] <= u32::MAX
    &&& options.padding@[0].0 <= i32::MAX
    &&& options.padding@[1].0 <= i32::MAX
    &&& input_shape[1] <= u32::MAX
    &&& input_shape[2] <= u32::MAX
    &&& input_shape[3] <= u32::MAX
    &&& weight_shape[1] <= u32::MAX
    &&& weight_shape[2] <= u32::MAX
    &&& depthwise_args(input_shape, weight_shape, options).counts_taps(out_h, out_w)
    &&& weight_shape[1] * weight_shape[2] * weight_shape[0] <= usize::MAX
    &&& out_h * out_w * input_shape[3] <= usize::MAX
    &&& input_shape[0] * out_h * out_w * input_shape[3] <= u32::MAX
}

/// Whether shapes and options are those of a depthwise convolution that can be
/// carried out: NHWC input, weights `[c, kh, kw, 1]`, and windows that fit.
pub open spec fn is_convolution<const N: usize>(
    input_shape: Seq<usize>,
    weight_shape: Seq<usize>,
    options: ConvOptions<N>,
) -> bool {
    &&& N >= 2
    &&& input_shape.len() == 4
    &&& weight_shape.len() == 4
    &&& weight_shape[0] == input_shape[3]
    &&& weight_shape[3] == 1
    &&& fits_along(input_shape, weight_shape, options, 0)
    &&& fits_along(input_shape, weight_shape, options, 1)
    &&& kernel_counts(input_shape, weight_shape, options)
}

/// Whether options put every channel in a group of its own: one in and one
/// out.
pub open spec fn has_depthwise_groups<const N: usize>(
    input_shape: Seq<usize>,
    weight_shape: Seq<usize>,
    options: ConvOptions<N>,
) -> bool {
    &&& N == 2
    &&& options.groups == input_shape.last()
    &&& options.groups == weight_shape[0]
    &&& weight_shape[input_shape.len() - 1] == 1
}

} // verus!
