//! Planning a launch and carrying it out.

use crate::conv::{
    lemma_windows_stay_inside, reaches_outside, reaches_outside_dim, should_check_spatial_bounds,
    window_fits_dim, ConvOptions,
};
use crate::depthwise::kernel::depthwise_conv2d_kernel;
use crate::depthwise::laws::lemma_window_sum_depends_on_taps;
use crate::depthwise::model::{
    bias_values, bias_view, depthwise_args, depthwise_at, filter_by_tap, filter_of, fits_along,
    has_depthwise_groups, is_convolution, is_launch, lines_up, out_along, output_element, plane_of,
    spatial_in, spatial_kernel, start_of, DepthwiseArgs,
};
use crate::depthwise::positions::{
    element_count, lemma_output_offset, lemma_output_position, lemma_tap_bounds, lemma_tap_index,
    lemma_units, lemma_weight_bounds,
};
use crate::element::Element;
use crate::tensor::CubeTensor;
use burn_backend::DType;
use cubecl::Device;
use cubek::convolution::components::ConvSetupError;
use vstd::prelude::*;

verus! {

/// Why a convolution could not be set up. The type is that of `cubek`; nothing
/// is said of its values.
#[verifier::external_type_specification]
#[verifier::external_body]
pub struct ExConvSetupError(ConvSetupError);

/// Whether a convolution is depthwise: every group one channel in and one out.
pub fn is_depthwise<E, const N: usize>(
    input: &CubeTensor<E>,
    weight: &CubeTensor<E>,
    options: &ConvOptions<N>,
) -> (answer: bool)
    requires
        input.shape@.len() >= 1,
        input.shape@.len() <= weight.shape@.len(),
    ensures
        answer == has_depthwise_groups(input.shape@, weight.shape@, *options),
{
    let rank: usize = input.shape.len();
    let in_channels: usize = input.shape[rank - 1];
    let out_channels: usize = weight.shape[0];
    let in_channels_per_group: usize = weight.shape[rank - 1];

    N == 2 && options.groups == in_channels && options.groups == out_channels
        && in_channels_per_group == 1
}

/// `[c, kh, kw, 1]` to `[kh, kw, c]`, so a tap's weights for neighbouring
/// channels are neighbours in memory.
pub fn weight_by_tap<E: Element>(weight: &CubeTensor<E>) -> (by_tap: Vec<E>)
    requires
        weight.is_4d(),
        weight.shape@[3] == 1,
        weight.shape@[1] * weight.shape@[2] <= usize::MAX,
        weight.shape@[1] * weight.shape@[2] * weight.shape@[0] <= usize::MAX,
    ensures
        by_tap@.len() == weight.shape@[1] * weight.shape@[2] * weight.shape@[0],
        forall|ky: int, kx: int, channel: int|
            0 <= ky < weight.shape@[1] && 0 <= kx < weight.shape@[2] && 0 <= channel
                < weight.shape@[0] ==> (#[trigger] filter_by_tap(
                by_tap@,
                weight.shape@[2] as int,
                weight.shape@[0] as int,
                channel,
            )(ky, kx)) == weight.at(channel, ky, kx, 0),
{
    let channels: usize = weight.shape[0];
    let kernel_h: usize = weight.shape[1];
    let kernel_w: usize = weight.shape[2];
    let len: usize = kernel_h * kernel_w * channels;
    let mut by_tap: Vec<E> = Vec::with_capacity(len);
    while by_tap.len() < len
        invariant
            by_tap@.len() <= len,
            weight.is_4d(),
            weight.shape@[3] == 1,
            channels == weight.shape@[0],
            kernel_h == weight.shape@[1],
            kernel_w == weight.shape@[2],
            len == kernel_h * kernel_w * channels,
            forall|i: int|
                0 <= i < by_tap@.len() ==> #[trigger] by_tap@[i] == weight.at(
                    i % channels as int,
                    (i / channels as int) / kernel_w as int,
                    (i / channels as int) % kernel_w as int,
                    0,
                ),
        decreases len - by_tap@.len(),
    {
        let at: usize = by_tap.len();
        proof {
            assert(1 * kernel_h * kernel_w * channels == kernel_h * kernel_w * channels);
            lemma_output_position(at as int, 1, kernel_h as int, kernel_w as int, channels as int);
        }
        let channel: usize = at % channels;
        let tap: usize = at / channels;
        let kx: usize = tap % kernel_w;
        let ky: usize = tap / kernel_w;
        proof {
            assert(ky < kernel_h) by (nonlinear_arith)
                requires
                    tap < 1 * kernel_h * kernel_w,
                    ky == tap / kernel_w,
                    kernel_w > 0,
            ;
            assert(weight.has(channel as int, ky as int, kx as int, 0));
            assert(weight.offset(channel as int, ky as int, kx as int, 0) < weight.data@.len());
            assert(weight.data.len() == weight.data@.len());
            assert(0 <= channel * weight.strides@[0] && 0 <= ky * weight.strides@[1] && 0 <= kx
                * weight.strides@[2]) by (nonlinear_arith)
                requires
                    0 <= channel,
                    0 <= ky,
                    0 <= kx,
                    0 <= weight.strides@[0],
                    0 <= weight.strides@[1],
                    0 <= weight.strides@[2],
            ;
        }
        by_tap.push(
            weight.data[channel * weight.strides[0] + ky * weight.strides[1] + kx
                * weight.strides[2]],
        );
    }
    proof {
        assert forall|ky: int, kx: int, channel: int|
            0 <= ky < kernel_h && 0 <= kx < kernel_w && 0 <= channel < channels implies (
        #[trigger] filter_by_tap(by_tap@, kernel_w as int, channels as int, channel)(ky, kx))
            == weight.at(channel, ky, kx, 0) by {
            let at = (ky * kernel_w + kx) * channels + channel;
            lemma_tap_index(ky, kx, kernel_w as int, channels as int, channel, at);
            lemma_weight_bounds(
                ky,
                kx,
                kernel_h as int,
                kernel_w as int,
                channels as int,
                channel,
            );
        }
    }
    by_tap
}

/// Where a window fits there is some output, and not more than the kernel
/// counts.
pub(crate) proof fn lemma_out_at_least_one<const N: usize>(
    input_shape: Seq<usize>,
    weight_shape: Seq<usize>,
    options: ConvOptions<N>,
    dim: int,
)
    requires
        is_convolution(input_shape, weight_shape, options),
        0 <= dim < 2,
    ensures
        1 <= out_along(input_shape, weight_shape, options, dim) <= u32::MAX,
{
    assert(fits_along(input_shape, weight_shape, options, dim));
    let kernel = spatial_kernel(weight_shape)[dim] as int;
    let stride = options.stride@[dim] as int;
    let dilation = options.dilation@[dim] as int;
    lemma_windows_stay_inside(
        kernel,
        stride,
        (options.padding@[dim].0 as int, options.padding@[dim].1 as int),
        dilation,
        spatial_in(input_shape)[dim] as int,
    );
    let out = out_along(input_shape, weight_shape, options, dim);
    assert(out - 1 <= (out - 1) * stride) by (nonlinear_arith)
        requires
            out >= 1,
            stride >= 1,
    ;
}

/// Where neither the first nor the last tap along either spatial dim falls on
/// padding, none does.
pub(crate) proof fn lemma_never_outside(args: DepthwiseArgs, out_h: int, out_w: int)
    requires
        args.padding_h >= 0,
        args.padding_w >= 0,
        !reaches_outside(
            args.in_h as int,
            args.kernel_h as int,
            out_h,
            args.stride_h as int,
            args.padding_h as int,
            args.dilation_h as int,
        ),
        !reaches_outside(
            args.in_w as int,
            args.kernel_w as int,
            out_w,
            args.stride_w as int,
            args.padding_w as int,
            args.dilation_w as int,
        ),
    ensures
        args.never_outside(out_h, out_w),
{
    assert forall|out_y: int, ky: int|
        0 <= out_y < out_h && 0 <= ky < args.kernel_h implies 0 <= #[trigger] args.tap_y(out_y, ky)
        < args.in_h by {
        lemma_tap_bounds(
            out_y,
            out_h,
            args.stride_h as int,
            ky,
            args.kernel_h as int,
            args.dilation_h as int,
        );
    }
    assert forall|out_x: int, kx: int|
        0 <= out_x < out_w && 0 <= kx < args.kernel_w implies 0 <= #[trigger] args.tap_x(out_x, kx)
        < args.in_w by {
        lemma_tap_bounds(
            out_x,
            out_w,
            args.stride_w as int,
            kx,
            args.kernel_w as int,
            args.dilation_w as int,
        );
    }
}

/// Where no tap of any window falls on padding, none of any unit's does.
proof fn lemma_unit_inside(
    args: DepthwiseArgs,
    out_h: int,
    out_w: int,
    channels: int,
    vector_size: int,
    unit: int,
)
    requires
        out_h >= 1,
        out_w >= 1,
        args.never_outside(out_h, out_w),
    ensures
        args.unit_inside(out_h, out_w, channels, vector_size, unit),
{
    let pixel = (unit * vector_size) / channels;
    let out_y = (pixel / out_w) % out_h;
    let out_x = pixel % out_w;
    assert(0 <= out_y < out_h && 0 <= out_x < out_w);
    assert forall|ky: int, kx: int|
        0 <= ky < args.kernel_h && 0 <= kx < args.kernel_w implies #[trigger] args.inside(
        args.tap_y(out_y, ky),
        args.tap_x(out_x, kx),
    ) by {
    }
}

/// The kernel checks the bounds exactly where some tap falls on padding.
proof fn lemma_checks_exactly<const N: usize>(
    in_shape: Seq<usize>,
    kernel_shape: Seq<usize>,
    out_size: Seq<usize>,
    options: ConvOptions<N>,
    args: DepthwiseArgs,
)
    requires
        N >= 2,
        in_shape.len() == 2,
        kernel_shape.len() == 2,
        out_size.len() == 2,
        kernel_shape[0] >= 1,
        kernel_shape[1] >= 1,
        out_size[0] >= 1,
        out_size[1] >= 1,
        args.stride_h == options.stride@[0],
        args.stride_w == options.stride@[1],
        args.dilation_h == options.dilation@[0],
        args.dilation_w == options.dilation@[1],
        args.padding_h == options.padding@[0].0,
        args.padding_w == options.padding@[1].0,
        args.in_h == in_shape[0],
        args.in_w == in_shape[1],
        args.kernel_h == kernel_shape[0],
        args.kernel_w == kernel_shape[1],
    ensures
        args.never_outside(out_size[0] as int, out_size[1] as int) <==> !exists|dim: int|
            0 <= dim < in_shape.len() && #[trigger] reaches_outside_dim(
                in_shape,
                kernel_shape,
                out_size,
                options,
                dim,
            ),
{
    let out_h = out_size[0] as int;
    let out_w = out_size[1] as int;
    let outside_h = reaches_outside_dim(in_shape, kernel_shape, out_size, options, 0);
    let outside_w = reaches_outside_dim(in_shape, kernel_shape, out_size, options, 1);
    if args.never_outside(out_h, out_w) {
        assert(0 <= args.tap_y(0, 0));
        assert(args.tap_y(out_h - 1, args.kernel_h - 1) < args.in_h);
        assert(0 <= args.tap_x(0, 0));
        assert(args.tap_x(out_w - 1, args.kernel_w - 1) < args.in_w);
        assert(!outside_h && !outside_w);
    }
    if !outside_h && !outside_w {
        lemma_never_outside(args, out_h, out_w);
    }
}

/// How a depthwise convolution is launched.
#[derive(Debug)]
pub struct DepthwisePlan {
    pub args: DepthwiseArgs,
    /// The shape of the output, `[batch, out_h, out_w, channels]`.
    pub shape: Vec<usize>,
    /// The type under which the output is stored.
    pub dtype: DType,
    /// Where the output lives.
    pub device: Device,
    /// The spatial dims of the output, as the kernel takes them.
    pub shape_out: Vec<u32>,
    /// The channels of the output, as the kernel takes them.
    pub shape_out_c: u32,
    /// Whether the kernel checks its taps against the bounds of the input.
    pub has_padding: bool,
    /// How many channels a unit takes.
    pub vector_size: usize,
    /// How many units there are.
    pub working_units: usize,
}

impl DepthwisePlan {
    /// The launch for tensors of these shapes, of which the runtime can take
    /// vectors of up to these sizes. `dtype` and `device` are those of the
    /// input.
    pub fn new<const N: usize>(
        input_shape: &Vec<usize>,
        weight_shape: &Vec<usize>,
        options: &ConvOptions<N>,
        dtype: DType,
        device: &Device,
        input_vector_size: usize,
        weight_vector_size: usize,
    ) -> (plan: DepthwisePlan)
        requires
            is_convolution(input_shape@, weight_shape@, *options),
            input_vector_size >= 1,
            weight_vector_size >= 1,
        ensures
            plan.args == depthwise_args(input_shape@, weight_shape@, *options),
            plan.shape@ == seq![
                input_shape@[0],
                out_along(input_shape@, weight_shape@, *options, 0) as usize,
                out_along(input_shape@, weight_shape@, *options, 1) as usize,
                weight_shape@[0],
            ],
            plan.shape@[1] == out_along(input_shape@, weight_shape@, *options, 0),
            plan.shape@[2] == out_along(input_shape@, weight_shape@, *options, 1),
            plan.dtype == dtype,
            plan.device == *device,
            plan.shape_out@ == seq![plan.shape@[1] as u32, plan.shape@[2] as u32],
            plan.shape_out@[0] == plan.shape@[1],
            plan.shape_out@[1] == plan.shape@[2],
            plan.shape_out_c == weight_shape@[0],
            plan.has_padding == !plan.args.never_outside(
                plan.shape@[1] as int,
                plan.shape@[2] as int,
            ),
            plan.vector_size == if input_vector_size <= weight_vector_size {
                input_vector_size
            } else {
                weight_vector_size
            },
            plan.working_units == (plan.shape@[0] * plan.shape@[1] * plan.shape@[2]
                * plan.shape@[3]) / plan.vector_size as int,
    {
        let batch_size: usize = input_shape[0];
        let channels: usize = weight_shape[0];
        let in_shape: Vec<usize> = vec![input_shape[1], input_shape[2]];
        let kernel_shape: Vec<usize> = vec![weight_shape[1], weight_shape[2]];
        proof {
            assert(in_shape@ =~= spatial_in(input_shape@));
            assert(kernel_shape@ =~= spatial_kernel(weight_shape@));
            assert forall|dim: int| 0 <= dim < 2 implies #[trigger] window_fits_dim(
                kernel_shape@,
                options.stride@,
                options.padding@,
                options.dilation@,
                in_shape@,
                dim,
            ) by {
                assert(fits_along(input_shape@, weight_shape@, *options, dim));
            }
        }
        let out_size = burn_backend::ops::conv::calculate_conv_output_sizes(
            &kernel_shape,
            &options.stride,
            &options.padding,
            &options.dilation,
            &in_shape,
        );
        let has_padding = should_check_spatial_bounds(&in_shape, &kernel_shape, &out_size, options);
        let out_h: usize = out_size[0];
        let out_w: usize = out_size[1];
        proof {
            lemma_out_at_least_one(input_shape@, weight_shape@, *options, 0);
            lemma_out_at_least_one(input_shape@, weight_shape@, *options, 1);
        }
        assert(out_h == out_along(input_shape@, weight_shape@, *options, 0));
        assert(out_w == out_along(input_shape@, weight_shape@, *options, 1));
        let args = DepthwiseArgs {
            stride_h: options.stride[0] as u32,
            stride_w: options.stride[1] as u32,
            dilation_h: options.dilation[0] as u32,
            dilation_w: options.dilation[1] as u32,
            padding_h: options.padding[0].0 as i32,
            padding_w: options.padding[1].0 as i32,
            in_h: input_shape[1] as u32,
            in_w: input_shape[2] as u32,
            kernel_h: weight_shape[1] as u32,
            kernel_w: weight_shape[2] as u32,
        };
        let vector_size: usize = if input_vector_size <= weight_vector_size {
            input_vector_size
        } else {
            weight_vector_size
        };
        proof {
            lemma_checks_exactly(in_shape@, kernel_shape@, out_size@, *options, args);
        }
        let working_units: usize = element_count(batch_size, out_h, out_w, channels) / vector_size;
        DepthwisePlan {
            args,
            shape: vec![batch_size, out_h, out_w, channels],
            dtype,
            device: device.clone(),
            shape_out: vec![out_h as u32, out_w as u32],
            shape_out_c: channels as u32,
            has_padding,
            vector_size,
            working_units,
        }
    }
}

/// The depthwise convolution, on NHWC tensors whose channel dimension is
/// contiguous. The runtime can take vectors of up to `input_vector_size`
/// channels of the input, and `weight_vector_size` of the weights. It always
/// succeeds: the error is there because every convolution returns it. The
/// output is stored as the input is, and lives where the input does.
pub fn conv_depthwise<E: Element, const N: usize>(
    input: CubeTensor<E>,
    weight: CubeTensor<E>,
    bias: Option<CubeTensor<E>>,
    options: ConvOptions<N>,
    input_vector_size: usize,
    weight_vector_size: usize,
) -> (convolved: Result<CubeTensor<E>, ConvSetupError>)
    requires
        is_convolution(input.shape@, weight.shape@, options),
        input.is_4d(),
        weight.is_4d(),
        bias matches Some(tensor) ==> input.shape@[3] <= tensor.data@.len(),
        input_vector_size >= 1,
        weight_vector_size >= 1,
        lines_up(
            input,
            if input_vector_size <= weight_vector_size {
                input_vector_size as int
            } else {
                weight_vector_size as int
            },
        ),
    ensures
        convolved is Ok,
        convolved matches Ok(output) ==> {
            &&& output.dtype == input.dtype
            &&& output.device == input.device
            &&& output.is_4d()
            &&& output.shape@[0] == input.shape@[0]
            &&& output.shape@[1] == out_along(input.shape@, weight.shape@, options, 0)
            &&& output.shape@[2] == out_along(input.shape@, weight.shape@, options, 1)
            &&& output.shape@[3] == weight.shape@[0]
            &&& output.strides@[3] == 1
            &&& output.strides@[2] == output.shape@[3]
            &&& output.strides@[1] == output.shape@[2] * output.shape@[3]
            &&& output.strides@[0] == output.shape@[1] * output.shape@[2] * output.shape@[3]
            &&& output.data@.len() == output.shape@[0] * output.shape@[1] * output.shape@[2]
                * output.shape@[3]
            &&& forall|batch: int, out_y: int, out_x: int, channel: int|
                output.has(batch, out_y, out_x, channel) ==> #[trigger] output.at(
                    batch,
                    out_y,
                    out_x,
                    channel,
                ) == depthwise_at(
                    input,
                    weight,
                    bias_values(bias),
                    options,
                    batch,
                    out_y,
                    out_x,
                    channel,
                )
        },
{
    let plan = DepthwisePlan::new(
        &input.shape,
        &weight.shape,
        &options,
        input.dtype,
        &input.device,
        input_vector_size,
        weight_vector_size,
    );
    let by_tap = weight_by_tap(&weight);
    let bias_data: Option<&Vec<E>> = match &bias {
        Some(tensor) => Some(&tensor.data),
        None => None,
    };
    assert(bias_view(bias_data) == bias_values(bias));
    let out_h: usize = plan.shape[1];
    let out_w: usize = plan.shape[2];
    let channels: usize = plan.shape[3];
    proof {
        lemma_out_at_least_one(input.shape@, weight.shape@, options, 0);
        lemma_out_at_least_one(input.shape@, weight.shape@, options, 1);
    }
    let len: usize = element_count(plan.shape[0], out_h, out_w, channels);
    let mut data: Vec<E> = Vec::with_capacity(len);
    while data.len() < len
        invariant
            data@.len() <= len,
        decreases len - data@.len(),
    {
        data.push(E::zero());
    }
    proof {
        lemma_units(
            len as int,
            plan.shape@[0] * out_h * out_w,
            channels as int,
            plan.vector_size as int,
            0,
        );
    }
    let mut unit: usize = 0;
    while unit < plan.working_units
        invariant
            unit <= plan.working_units,
            data@.len() == len,
            plan.working_units * plan.vector_size == len,
            plan.shape_out@.len() == 2,
            plan.shape_out@[0] >= 1,
            plan.shape_out@[1] >= 1,
            plan.has_padding == !plan.args.never_outside(
                plan.shape_out@[0] as int,
                plan.shape_out@[1] as int,
            ),
            is_launch(
                input,
                by_tap@,
                bias_view(bias_data),
                len as int,
                plan.args,
                plan.shape_out@,
                plan.shape_out_c,
                plan.vector_size as int,
            ),
            forall|at: int|
                0 <= at < unit * plan.vector_size && at < len ==> #[trigger] data@[at]
                    == output_element(
                    input,
                    by_tap@,
                    bias_view(bias_data),
                    plan.args,
                    true,
                    plan.shape_out@[0] as int,
                    plan.shape_out@[1] as int,
                    plan.shape_out_c as int,
                    at,
                ),
        decreases plan.working_units - unit,
    {
        proof {
            if !plan.has_padding {
                lemma_unit_inside(
                    plan.args,
                    plan.shape_out@[0] as int,
                    plan.shape_out@[1] as int,
                    plan.shape_out_c as int,
                    plan.vector_size as int,
                    unit as int,
                );
            }
        }
        depthwise_conv2d_kernel(
            unit,
            &input,
            &by_tap,
            bias_data,
            &mut data,
            &plan.args,
            &plan.shape_out,
            plan.shape_out_c,
            plan.has_padding,
            plan.vector_size,
        );
        unit = unit + 1;
    }
    proof {
        let h = out_h as int;
        let w = out_w as int;
        let c = channels as int;
        assert(w * c <= h * w * c) by (nonlinear_arith)
            requires
                h >= 1,
                w >= 0,
                c >= 0,
        ;
        assert(h * (w * c) == h * w * c) by (nonlinear_arith);
        assert(0 <= w * c) by (nonlinear_arith)
            requires
                w >= 0,
                c >= 0,
        ;
    }
    let row_stride: usize = out_w * channels;
    let output = CubeTensor {
        shape: plan.shape,
        strides: vec![out_h * row_stride, row_stride, channels, 1],
        data,
        dtype: plan.dtype,
        device: plan.device,
    };
    proof {
        assert forall|b: int, y: int, x: int, c: int| output.has(b, y, x, c) implies #[trigger] output.offset(
            b,
            y,
            x,
            c,
        ) < output.data@.len() by {
            lemma_output_offset(
                output.shape@[0] as int,
                out_h as int,
                out_w as int,
                channels as int,
                b,
                y,
                x,
                c,
                output.offset(b, y, x, c),
            );
        }
        assert forall|b: int, y: int, x: int, c: int| output.has(b, y, x, c) implies #[trigger] output.at(
            b,
            y,
            x,
            c,
        ) == depthwise_at(input, weight, bias_values(bias), options, b, y, x, c) by {
            let at = output.offset(b, y, x, c);
            lemma_output_offset(
                output.shape@[0] as int,
                out_h as int,
                out_w as int,
                channels as int,
                b,
                y,
                x,
                c,
                at,
            );
            assert(output.data@[at] == output_element(
                input,
                by_tap@,
                bias_view(bias_data),
                plan.args,
                true,
                out_h as int,
                out_w as int,
                channels as int,
                at,
            ));
            lemma_window_sum_depends_on_taps(
                plan.args,
                plane_of(input, b, c),
                plane_of(input, b, c),
                filter_by_tap(by_tap@, plan.args.kernel_w as int, channels as int, c),
                filter_of(weight, c),
                start_of(bias_values(bias), c),
                y,
                x,
                plan.args.kernel_h as nat,
            );
        }
    }
    Ok(output)
}

} // verus!
