//! What the results of a depthwise convolution are, written out from its
//! inputs.

use crate::conv::{
    lemma_windows_stay_inside, reaches_outside_dim, should_check_spatial_bounds, stays_inside,
    window_count, window_fits, ConvOptions,
};
use crate::depthwise::kernel::depthwise_conv2d_kernel;
use crate::depthwise::launch::{
    conv_depthwise, is_depthwise, lemma_never_outside, weight_by_tap, DepthwisePlan,
};
use crate::depthwise::model::{
    bias_values, bias_view, depthwise_args, filter_by_tap, filter_of, is_convolution, lines_up,
    output_element, plane_of, row_sum, start_of, window_sum, DepthwiseArgs,
};
use crate::depthwise::positions::{compose_linear, decompose_linear};
use crate::element::Element;
use crate::tensor::CubeTensor;
use burn_backend::DType;
use cubecl::Device;
use cubek::convolution::components::ConvSetupError;
use vstd::prelude::*;

verus! {

/// The sum over a window takes its taps one by one, row after row.
proof fn lemma_taps_in_order<E: Element>(
    args: DepthwiseArgs,
    plane: spec_fn(int, int) -> E,
    filter: spec_fn(int, int) -> E,
    start: E,
    out_y: int,
    out_x: int,
    step: spec_fn(E, int) -> E,
    rows: nat,
    taps: nat,
)
    requires
        rows <= args.kernel_h,
        taps <= args.kernel_w,
        taps > 0 ==> rows < args.kernel_h,
        forall|sum: E, ky: int, kx: int|
            #![trigger step(sum, ky * args.kernel_w + kx)]
            0 <= ky < args.kernel_h && 0 <= kx < args.kernel_w ==> step(
                sum,
                ky * args.kernel_w + kx,
            ) == if args.inside(args.tap_y(out_y, ky), args.tap_x(out_x, kx)) {
                sum.plus(
                    plane(args.tap_y(out_y, ky), args.tap_x(out_x, kx)).times(filter(ky, kx)),
                )
            } else {
                sum
            },
    ensures
        Seq::new((rows * args.kernel_w + taps) as nat, |t: int| t).fold_left(start, step)
            == row_sum(
            args,
            true,
            plane,
            filter,
            window_sum(args, true, plane, filter, start, out_y, out_x, rows),
            out_y,
            out_x,
            rows as int,
            taps,
        ),
    decreases rows, taps,
{
    let count = rows * args.kernel_w + taps;
    let listed = Seq::new(count as nat, |t: int| t);
    assert(0 <= rows * args.kernel_w) by (nonlinear_arith)
        requires
            rows >= 0,
            args.kernel_w >= 0,
    ;
    if taps > 0 {
        lemma_taps_in_order(
            args,
            plane,
            filter,
            start,
            out_y,
            out_x,
            step,
            rows,
            (taps - 1) as nat,
        );
        assert(listed.drop_last() =~= Seq::new((count - 1) as nat, |t: int| t));
        let before = listed.drop_last().fold_left(start, step);
        assert(listed.last() == rows * args.kernel_w + (taps - 1));
        assert(step(before, rows as int * args.kernel_w + (taps - 1)) == step(
            before,
            listed.last(),
        ));
    } else if rows > 0 {
        let above = (rows - 1) as nat;
        assert(above * args.kernel_w + args.kernel_w == rows * args.kernel_w) by (nonlinear_arith)
            requires
                above == rows - 1,
        ;
        lemma_taps_in_order(
            args,
            plane,
            filter,
            start,
            out_y,
            out_x,
            step,
            above,
            args.kernel_w as nat,
        );
    } else {
        assert(0 * args.kernel_w == 0) by (nonlinear_arith);
    }
}

/// Every element of the output is the bias of its channel, or zero where there
/// is none, and on top of it tap after tap, row by row, the element of the
/// same input channel that the tap falls on times the tap's weight. Tap `ky`,
/// `kx` of the window at `y`, `x` falls on row `y * stride + ky * dilation -
/// padding` of the input, and likewise on a column; one that falls beside the
/// input adds nothing.
pub proof fn law_output_sums_the_taps<E: Element, const N: usize>(
    input: CubeTensor<E>,
    weight: CubeTensor<E>,
    bias: Option<CubeTensor<E>>,
    options: ConvOptions<N>,
    input_vector_size: usize,
    weight_vector_size: usize,
    convolved: Result<CubeTensor<E>, ConvSetupError>,
    batch: int,
    y: int,
    x: int,
    channel: int,
)
    requires
        N >= 2,
        options.stride@[0] <= u32::MAX,
        options.stride@[1] <= u32::MAX,
        options.dilation@[0] <= u32::MAX,
        options.dilation@[1] <= u32::MAX,
        options.padding@[0].0 <= i32::MAX,
        options.padding@[1].0 <= i32::MAX,
        input.shape@[1] <= u32::MAX,
        input.shape@[2] <= u32::MAX,
        weight.shape@[1] <= u32::MAX,
        weight.shape@[2] <= u32::MAX,
        call_ensures(
            conv_depthwise::<E, N>,
            (input, weight, bias, options, input_vector_size, weight_vector_size),
            convolved,
        ),
        convolved matches Ok(output) ==> 0 <= batch < output.shape@[0] && 0 <= y < output.shape@[1]
            && 0 <= x < output.shape@[2] && 0 <= channel < output.shape@[3],
    ensures
        convolved is Ok,
        convolved matches Ok(output) ==> output.data@[batch * output.strides@[0] + y
            * output.strides@[1] + x * output.strides@[2] + channel * output.strides@[3]]
            == Seq::new((weight.shape@[1] * weight.shape@[2]) as nat, |t: int| t).fold_left(
            match bias {
                Some(tensor) => tensor.data@[channel],
                None => E::nought(),
            },
            |sum: E, t: int|
                {
                    let ky = t / weight.shape@[2] as int;
                    let kx = t % weight.shape@[2] as int;
                    let in_y = y * options.stride@[0] + ky * options.dilation@[0]
                        - options.padding@[0].0;
                    let in_x = x * options.stride@[1] + kx * options.dilation@[1]
                        - options.padding@[1].0;
                    if 0 <= in_y < input.shape@[1] && 0 <= in_x < input.shape@[2] {
                        sum.plus(
                            input.data@[batch * input.strides@[0] + in_y * input.strides@[1] + in_x
                                * input.strides@[2] + channel * input.strides@[3]].times(
                                weight.data@[channel * weight.strides@[0] + ky * weight.strides@[1]
                                    + kx * weight.strides@[2]],
                            ),
                        )
                    } else {
                        sum
                    }
                },
        ),
{
    let output = convolved->Ok_0;
    let args = depthwise_args(input.shape@, weight.shape@, options);
    let start = match bias {
        Some(tensor) => tensor.data@[channel],
        None => E::nought(),
    };
    let step = |sum: E, t: int|
        {
            let ky = t / weight.shape@[2] as int;
            let kx = t % weight.shape@[2] as int;
            let in_y = y * options.stride@[0] + ky * options.dilation@[0] - options.padding@[0].0;
            let in_x = x * options.stride@[1] + kx * options.dilation@[1] - options.padding@[1].0;
            if 0 <= in_y < input.shape@[1] && 0 <= in_x < input.shape@[2] {
                sum.plus(
                    input.data@[batch * input.strides@[0] + in_y * input.strides@[1] + in_x
                        * input.strides@[2] + channel * input.strides@[3]].times(
                        weight.data@[channel * weight.strides@[0] + ky * weight.strides@[1] + kx
                            * weight.strides@[2]],
                    ),
                )
            } else {
                sum
            }
        };
    assert(output.has(batch, y, x, channel));
    assert(output.at(batch, y, x, channel) == window_sum(
        args,
        true,
        plane_of(input, batch, channel),
        filter_of(weight, channel),
        start_of(bias_values(bias), channel),
        y,
        x,
        args.kernel_h as nat,
    ));
    assert forall|sum: E, ky: int, kx: int|
        #![trigger step(sum, ky * args.kernel_w + kx)]
        0 <= ky < args.kernel_h && 0 <= kx < args.kernel_w implies step(
        sum,
        ky * args.kernel_w + kx,
    ) == if args.inside(args.tap_y(y, ky), args.tap_x(x, kx)) {
        sum.plus(
            plane_of(input, batch, channel)(args.tap_y(y, ky), args.tap_x(x, kx)).times(
                filter_of(weight, channel)(ky, kx),
            ),
        )
    } else {
        sum
    } by {
        let t = ky * args.kernel_w + kx;
        let kw = args.kernel_w as int;
        assert(t / kw == ky && t % kw == kx) by (nonlinear_arith)
            requires
                t == ky * kw + kx,
                0 <= kx < kw,
        ;
        assert(0 * weight.strides@[3] == 0) by (nonlinear_arith);
    }
    lemma_taps_in_order(
        args,
        plane_of(input, batch, channel),
        filter_of(weight, channel),
        start,
        y,
        x,
        step,
        args.kernel_h as nat,
        0,
    );
}

/// Steps that change nothing come to nothing.
proof fn lemma_idle_steps<E>(start: E, step: spec_fn(E, int) -> E, count: nat)
    requires
        forall|sum: E, t: int| 0 <= t < count ==> #[trigger] step(sum, t) == sum,
    ensures
        Seq::new(count, |t: int| t).fold_left(start, step) == start,
    decreases count,
{
    let listed = Seq::new(count, |t: int| t);
    if count > 0 {
        lemma_idle_steps(start, step, (count - 1) as nat);
        assert(listed.drop_last() =~= Seq::new((count - 1) as nat, |t: int| t));
    }
}

/// Of steps of which all but one change nothing, that one remains.
proof fn lemma_single_step<E>(start: E, step: spec_fn(E, int) -> E, count: nat, only: int)
    requires
        0 <= only < count,
        forall|sum: E, t: int| 0 <= t < count && t != only ==> #[trigger] step(sum, t) == sum,
    ensures
        Seq::new(count, |t: int| t).fold_left(start, step) == step(start, only),
    decreases count,
{
    let listed = Seq::new(count, |t: int| t);
    assert(listed.drop_last() =~= Seq::new((count - 1) as nat, |t: int| t));
    if only == count - 1 {
        lemma_idle_steps(start, step, (count - 1) as nat);
    } else {
        lemma_single_step(start, step, (count - 1) as nat, only);
    }
}

/// Of an image that is zero but for one pixel of a channel, each window that
/// has a tap on that pixel gives the bias and on top of it the pixel times the
/// weight of that very tap.
pub proof fn law_one_pixel_shows_the_weight_on_it<E: Element, const N: usize>(
    input: CubeTensor<E>,
    weight: CubeTensor<E>,
    bias: Option<CubeTensor<E>>,
    options: ConvOptions<N>,
    input_vector_size: usize,
    weight_vector_size: usize,
    convolved: Result<CubeTensor<E>, ConvSetupError>,
    batch: int,
    y: int,
    x: int,
    channel: int,
    ky: int,
    kx: int,
)
    requires
        N >= 2,
        options.stride@[0] <= u32::MAX,
        options.stride@[1] <= u32::MAX,
        options.dilation@[0] <= u32::MAX,
        options.dilation@[1] <= u32::MAX,
        options.padding@[0].0 <= i32::MAX,
        options.padding@[1].0 <= i32::MAX,
        input.shape@[1] <= u32::MAX,
        input.shape@[2] <= u32::MAX,
        weight.shape@[1] <= u32::MAX,
        weight.shape@[2] <= u32::MAX,
        call_ensures(
            conv_depthwise::<E, N>,
            (input, weight, bias, options, input_vector_size, weight_vector_size),
            convolved,
        ),
        convolved matches Ok(output) ==> 0 <= batch < output.shape@[0] && 0 <= y < output.shape@[1]
            && 0 <= x < output.shape@[2] && 0 <= channel < output.shape@[3],
        options.dilation@[0] >= 1,
        options.dilation@[1] >= 1,
        0 <= ky < weight.shape@[1],
        0 <= kx < weight.shape@[2],
        0 <= y * options.stride@[0] + ky * options.dilation@[0] - options.padding@[0].0
            < input.shape@[1],
        0 <= x * options.stride@[1] + kx * options.dilation@[1] - options.padding@[1].0
            < input.shape@[2],
        forall|sum: E| #[trigger] sum.plus(E::nought()) == sum,
        forall|factor: E| #[trigger] E::nought().times(factor) == E::nought(),
        forall|row: int, column: int|
            #![trigger input.at(batch, row, column, channel)]
            0 <= row < input.shape@[1] && 0 <= column < input.shape@[2] && (row != y
                * options.stride@[0] + ky * options.dilation@[0] - options.padding@[0].0 || column
                != x * options.stride@[1] + kx * options.dilation@[1] - options.padding@[1].0)
                ==> input.data@[batch * input.strides@[0] + row * input.strides@[1] + column
                * input.strides@[2] + channel * input.strides@[3]] == E::nought(),
    ensures
        convolved matches Ok(output) ==> output.data@[batch * output.strides@[0] + y
            * output.strides@[1] + x * output.strides@[2] + channel * output.strides@[3]] == (
        match bias {
            Some(tensor) => tensor.data@[channel],
            None => E::nought(),
        }).plus(
            input.data@[batch * input.strides@[0] + (y * options.stride@[0] + ky
                * options.dilation@[0] - options.padding@[0].0) * input.strides@[1] + (x
                * options.stride@[1] + kx * options.dilation@[1] - options.padding@[1].0)
                * input.strides@[2] + channel * input.strides@[3]].times(
                weight.data@[channel * weight.strides@[0] + ky * weight.strides@[1] + kx
                    * weight.strides@[2]],
            ),
        ),
{
    law_output_sums_the_taps(
        input,
        weight,
        bias,
        options,
        input_vector_size,
        weight_vector_size,
        convolved,
        batch,
        y,
        x,
        channel,
    );
    let start = match bias {
        Some(tensor) => tensor.data@[channel],
        None => E::nought(),
    };
    let step = |sum: E, t: int|
        {
            let ky = t / weight.shape@[2] as int;
            let kx = t % weight.shape@[2] as int;
            let in_y = y * options.stride@[0] + ky * options.dilation@[0] - options.padding@[0].0;
            let in_x = x * options.stride@[1] + kx * options.dilation@[1] - options.padding@[1].0;
            if 0 <= in_y < input.shape@[1] && 0 <= in_x < input.shape@[2] {
                sum.plus(
                    input.data@[batch * input.strides@[0] + in_y * input.strides@[1] + in_x
                        * input.strides@[2] + channel * input.strides@[3]].times(
                        weight.data@[channel * weight.strides@[0] + ky * weight.strides@[1] + kx
                            * weight.strides@[2]],
                    ),
                )
            } else {
                sum
            }
        };
    let kh = weight.shape@[1] as int;
    let kw = weight.shape@[2] as int;
    let only = ky * kw + kx;
    assert(only / kw == ky && only % kw == kx && 0 <= only < kh * kw) by (nonlinear_arith)
        requires
            only == ky * kw + kx,
            0 <= kx < kw,
            0 <= ky < kh,
    ;
    assert forall|sum: E, t: int| 0 <= t < kh * kw && t != only implies #[trigger] step(sum, t)
        == sum by {
        let row = t / kw;
        let column = t % kw;
        assert(t == row * kw + column) by (nonlinear_arith)
            requires
                kw > 0,
                row == t / kw,
                column == t % kw,
        ;
        let dh = options.dilation@[0] as int;
        let dw = options.dilation@[1] as int;
        assert(row != ky ==> row * dh != ky * dh) by (nonlinear_arith)
            requires
                dh >= 1,
        ;
        assert(column != kx ==> column * dw != kx * dw) by (nonlinear_arith)
            requires
                dw >= 1,
        ;
        let in_y = y * options.stride@[0] + row * dh - options.padding@[0].0;
        let in_x = x * options.stride@[1] + column * dw - options.padding@[1].0;
        let pixel = input.at(batch, in_y, in_x, channel);
        if 0 <= in_y < input.shape@[1] && 0 <= in_x < input.shape@[2] {
            assert(pixel == E::nought());
        }
    }
    lemma_single_step(start, step, (kh * kw) as nat, only);
}

/// A window whose taps all fall beside the input gives the bias of its channel,
/// or zero where there is none.
pub proof fn law_padding_alone_gives_the_bias<E: Element, const N: usize>(
    input: CubeTensor<E>,
    weight: CubeTensor<E>,
    bias: Option<CubeTensor<E>>,
    options: ConvOptions<N>,
    input_vector_size: usize,
    weight_vector_size: usize,
    convolved: Result<CubeTensor<E>, ConvSetupError>,
    batch: int,
    y: int,
    x: int,
    channel: int,
)
    requires
        N >= 2,
        options.stride@[0] <= u32::MAX,
        options.stride@[1] <= u32::MAX,
        options.dilation@[0] <= u32::MAX,
        options.dilation@[1] <= u32::MAX,
        options.padding@[0].0 <= i32::MAX,
        options.padding@[1].0 <= i32::MAX,
        input.shape@[1] <= u32::MAX,
        input.shape@[2] <= u32::MAX,
        weight.shape@[1] <= u32::MAX,
        weight.shape@[2] <= u32::MAX,
        call_ensures(
            conv_depthwise::<E, N>,
            (input, weight, bias, options, input_vector_size, weight_vector_size),
            convolved,
        ),
        convolved matches Ok(output) ==> 0 <= batch < output.shape@[0] && 0 <= y < output.shape@[1]
            && 0 <= x < output.shape@[2] && 0 <= channel < output.shape@[3],
        forall|ky: int, kx: int|
            #![trigger weight.at(channel, ky, kx, 0)]
            0 <= ky < weight.shape@[1] && 0 <= kx < weight.shape@[2] ==> !(0 <= y
                * options.stride@[0] + ky * options.dilation@[0] - options.padding@[0].0
                < input.shape@[1] && 0 <= x * options.stride@[1] + kx * options.dilation@[1]
                - options.padding@[1].0 < input.shape@[2]),
    ensures
        convolved matches Ok(output) ==> output.data@[batch * output.strides@[0] + y
            * output.strides@[1] + x * output.strides@[2] + channel * output.strides@[3]]
            == match bias {
            Some(tensor) => tensor.data@[channel],
            None => E::nought(),
        },
{
    law_output_sums_the_taps(
        input,
        weight,
        bias,
        options,
        input_vector_size,
        weight_vector_size,
        convolved,
        batch,
        y,
        x,
        channel,
    );
    let start = match bias {
        Some(tensor) => tensor.data@[channel],
        None => E::nought(),
    };
    let step = |sum: E, t: int|
        {
            let ky = t / weight.shape@[2] as int;
            let kx = t % weight.shape@[2] as int;
            let in_y = y * options.stride@[0] + ky * options.dilation@[0] - options.padding@[0].0;
            let in_x = x * options.stride@[1] + kx * options.dilation@[1] - options.padding@[1].0;
            if 0 <= in_y < input.shape@[1] && 0 <= in_x < input.shape@[2] {
                sum.plus(
                    input.data@[batch * input.strides@[0] + in_y * input.strides@[1] + in_x
                        * input.strides@[2] + channel * input.strides@[3]].times(
                        weight.data@[channel * weight.strides@[0] + ky * weight.strides@[1] + kx
                            * weight.strides@[2]],
                    ),
                )
            } else {
                sum
            }
        };
    let kh = weight.shape@[1] as int;
    let kw = weight.shape@[2] as int;
    assert forall|sum: E, t: int| 0 <= t < kh * kw implies #[trigger] step(sum, t) == sum by {
        let ky = t / kw;
        let kx = t % kw;
        assert(0 <= ky < kh && 0 <= kx < kw) by (nonlinear_arith)
            requires
                0 <= t < kh * kw,
                kh >= 0,
                kw >= 0,
                ky == t / kw,
                kx == t % kw,
        ;
        let read = weight.at(channel, ky, kx, 0);
    }
    lemma_idle_steps(start, step, (kh * kw) as nat);
}

/// The output has as many rows and columns as windows fit: the last one ends
/// inside the padded input, and one more would not. Its dims follow one another
/// in memory, the channels fastest, and it is stored as the input is and where
/// the input is.
pub proof fn law_output_has_a_pixel_for_each_window<E: Element, const N: usize>(
    input: CubeTensor<E>,
    weight: CubeTensor<E>,
    bias: Option<CubeTensor<E>>,
    options: ConvOptions<N>,
    input_vector_size: usize,
    weight_vector_size: usize,
    convolved: Result<CubeTensor<E>, ConvSetupError>,
)
    requires
        N >= 2,
        weight.shape@[1] >= 1,
        weight.shape@[2] >= 1,
        weight.shape@[0] == input.shape@[3],
        options.stride@[0] >= 1,
        options.stride@[1] >= 1,
        input.shape@[1] + options.padding@[0].0 + options.padding@[0].1 <= usize::MAX,
        input.shape@[2] + options.padding@[1].0 + options.padding@[1].1 <= usize::MAX,
        (weight.shape@[1] - 1) * options.dilation@[0] < input.shape@[1] + options.padding@[0].0
            + options.padding@[0].1,
        (weight.shape@[2] - 1) * options.dilation@[1] < input.shape@[2] + options.padding@[1].0
            + options.padding@[1].1,
        call_ensures(
            conv_depthwise::<E, N>,
            (input, weight, bias, options, input_vector_size, weight_vector_size),
            convolved,
        ),
    ensures
        convolved is Ok,
        convolved matches Ok(output) ==> {
            &&& output.shape@.len() == 4
            &&& output.strides@.len() == 4
            &&& output.shape@[0] == input.shape@[0]
            &&& output.shape@[3] == input.shape@[3]
            &&& output.shape@[3] == weight.shape@[0]
            &&& output.shape@[1] >= 1
            &&& output.shape@[2] >= 1
            &&& (output.shape@[1] - 1) * options.stride@[0] + (weight.shape@[1] - 1)
                * options.dilation@[0] < input.shape@[1] + options.padding@[0].0
                + options.padding@[0].1
            &&& output.shape@[1] * options.stride@[0] + (weight.shape@[1] - 1)
                * options.dilation@[0] >= input.shape@[1] + options.padding@[0].0
                + options.padding@[0].1
            &&& (output.shape@[2] - 1) * options.stride@[1] + (weight.shape@[2] - 1)
                * options.dilation@[1] < input.shape@[2] + options.padding@[1].0
                + options.padding@[1].1
            &&& output.shape@[2] * options.stride@[1] + (weight.shape@[2] - 1)
                * options.dilation@[1] >= input.shape@[2] + options.padding@[1].0
                + options.padding@[1].1
            &&& output.strides@[3] == 1
            &&& output.strides@[2] == output.shape@[3]
            &&& output.strides@[1] == output.shape@[2] * output.shape@[3]
            &&& output.strides@[0] == output.shape@[1] * output.shape@[2] * output.shape@[3]
            &&& output.data@.len() == output.shape@[0] * output.shape@[1] * output.shape@[2]
                * output.shape@[3]
            &&& output.dtype == input.dtype
            &&& output.device == input.device
        },
{
    lemma_windows_end_inside(
        weight.shape@[1] as int,
        options.stride@[0] as int,
        (options.padding@[0].0 as int, options.padding@[0].1 as int),
        options.dilation@[0] as int,
        input.shape@[1] as int,
    );
    lemma_windows_end_inside(
        weight.shape@[2] as int,
        options.stride@[1] as int,
        (options.padding@[1].0 as int, options.padding@[1].1 as int),
        options.dilation@[1] as int,
        input.shape@[2] as int,
    );
}

/// The last window ends inside the padded input, and one more would not.
proof fn lemma_windows_end_inside(
    kernel_size: int,
    stride: int,
    padding: (int, int),
    dilation: int,
    size_in: int,
)
    requires
        kernel_size >= 1,
        stride >= 1,
        dilation >= 0,
        size_in + padding.0 + padding.1 <= usize::MAX,
        (kernel_size - 1) * dilation < size_in + padding.0 + padding.1,
    ensures
        ({
            let count = window_count(kernel_size, stride, padding, dilation, size_in);
            let padded = size_in + padding.0 + padding.1;
            &&& count >= 1
            &&& (count - 1) * stride + (kernel_size - 1) * dilation < padded
            &&& count * stride + (kernel_size - 1) * dilation >= padded
        }),
{
    assert(dilation * (kernel_size - 1) == (kernel_size - 1) * dilation) by (nonlinear_arith);
    lemma_windows_stay_inside(kernel_size, stride, padding, dilation, size_in);
    let room = size_in + padding.0 + padding.1 - dilation * (kernel_size - 1) - 1;
    let turns = room / stride;
    assert(room < (turns + 1) * stride) by (nonlinear_arith)
        requires
            stride >= 1,
            turns == room / stride,
    ;
}

/// A convolution is taken whatever its shapes and options, where the weights
/// are `[c, kh, kw, 1]`, a window fits the padded input, the buffers hold what
/// the shapes say, the vectors line up, and the kernel's counters hold it.
pub proof fn law_every_convolution_is_taken<E: Element, const N: usize>(
    input: CubeTensor<E>,
    weight: CubeTensor<E>,
    bias: Option<CubeTensor<E>>,
    options: ConvOptions<N>,
    input_vector_size: usize,
    weight_vector_size: usize,
    out_h: int,
    out_w: int,
)
    requires
        N >= 2,
        input.shape@.len() == 4,
        input.strides@.len() == 4,
        input.shape@[0] == 0 || input.shape@[1] == 0 || input.shape@[2] == 0
            || input.shape@[3] == 0 || (input.shape@[0] - 1) * input.strides@[0] + (
        input.shape@[1] - 1) * input.strides@[1] + (input.shape@[2] - 1) * input.strides@[2] + (
        input.shape@[3] - 1) * input.strides@[3] < input.data@.len(),
        weight.shape@.len() == 4,
        weight.strides@.len() == 4,
        weight.shape@[0] == 0 || weight.shape@[1] == 0 || weight.shape@[2] == 0
            || weight.shape@[3] == 0 || (weight.shape@[0] - 1) * weight.strides@[0] + (
        weight.shape@[1] - 1) * weight.strides@[1] + (weight.shape@[2] - 1) * weight.strides@[2] + (
        weight.shape@[3] - 1) * weight.strides@[3] < weight.data@.len(),
        weight.shape@[0] == input.shape@[3],
        weight.shape@[3] == 1,
        weight.shape@[1] >= 1,
        weight.shape@[2] >= 1,
        options.stride@[0] >= 1,
        options.stride@[1] >= 1,
        input.shape@[1] + options.padding@[0].0 + options.padding@[0].1 <= usize::MAX,
        input.shape@[2] + options.padding@[1].0 + options.padding@[1].1 <= usize::MAX,
        out_h >= 1,
        out_w >= 1,
        (out_h - 1) * options.stride@[0] + (weight.shape@[1] - 1) * options.dilation@[0]
            < input.shape@[1] + options.padding@[0].0 + options.padding@[0].1 <= out_h
            * options.stride@[0] + (weight.shape@[1] - 1) * options.dilation@[0],
        (out_w - 1) * options.stride@[1] + (weight.shape@[2] - 1) * options.dilation@[1]
            < input.shape@[2] + options.padding@[1].0 + options.padding@[1].1 <= out_w
            * options.stride@[1] + (weight.shape@[2] - 1) * options.dilation@[1],
        options.stride@[0] <= u32::MAX,
        options.stride@[1] <= u32::MAX,
        options.dilation@[0] <= u32::MAX,
        options.dilation@[1] <= u32::MAX,
        options.padding@[0].0 <= i32::MAX,
        options.padding@[1].0 <= i32::MAX,
        input.shape@[1] <= u32::MAX,
        input.shape@[2] <= u32::MAX,
        input.shape@[3] <= u32::MAX,
        weight.shape@[1] * weight.shape@[2] <= u32::MAX,
        weight.shape@[1] * weight.shape@[2] * weight.shape@[0] <= usize::MAX,
        (out_h - 1) * options.stride@[0] + (weight.shape@[1] - 1) * options.dilation@[0]
            <= i32::MAX,
        (out_w - 1) * options.stride@[1] + (weight.shape@[2] - 1) * options.dilation@[1]
            <= i32::MAX,
        out_h * out_w * input.shape@[3] <= usize::MAX,
        input.shape@[0] * out_h * out_w * input.shape@[3] <= u32::MAX,
        bias matches Some(tensor) ==> input.shape@[3] <= tensor.data@.len(),
        input_vector_size >= 1,
        weight_vector_size >= 1,
        input.shape@[3] > 1 ==> input.strides@[3] == 1,
        ({
            let vector_size = if input_vector_size <= weight_vector_size {
                input_vector_size as int
            } else {
                weight_vector_size as int
            };
            &&& input.shape@[3] as int % vector_size == 0
            &&& input.shape@[0] > 1 ==> input.strides@[0] as int % vector_size == 0
            &&& input.shape@[1] > 1 ==> input.strides@[1] as int % vector_size == 0
            &&& input.shape@[2] > 1 ==> input.strides@[2] as int % vector_size == 0
        }),
    ensures
        call_requires(
            conv_depthwise::<E, N>,
            (input, weight, bias, options, input_vector_size, weight_vector_size),
        ),
        call_requires(weight_by_tap::<E>, (&weight,)),
        call_requires(
            DepthwisePlan::new::<N>,
            (
                &input.shape,
                &weight.shape,
                &options,
                input.dtype,
                &input.device,
                input_vector_size,
                weight_vector_size,
            ),
        ),
{
    let vector_size = if input_vector_size <= weight_vector_size {
        input_vector_size as int
    } else {
        weight_vector_size as int
    };
    lemma_window_count_is(
        weight.shape@[1] as int,
        options.stride@[0] as int,
        (options.padding@[0].0 as int, options.padding@[0].1 as int),
        options.dilation@[0] as int,
        input.shape@[1] as int,
        out_h,
    );
    lemma_window_count_is(
        weight.shape@[2] as int,
        options.stride@[1] as int,
        (options.padding@[1].0 as int, options.padding@[1].1 as int),
        options.dilation@[1] as int,
        input.shape@[2] as int,
        out_w,
    );
    law_buffers_hold_up_to_the_last_element(input);
    law_buffers_hold_up_to_the_last_element(weight);
    let kh = weight.shape@[1] as int;
    let kw = weight.shape@[2] as int;
    assert(kh <= kh * kw && kw <= kh * kw) by (nonlinear_arith)
        requires
            kh >= 1,
            kw >= 1,
    ;
    assert(lines_up(input, vector_size));
    assert(is_convolution(input.shape@, weight.shape@, options));
}

/// Where the last window ends inside the padded input and one more would not,
/// that is how many there are.
proof fn lemma_window_count_is(
    kernel_size: int,
    stride: int,
    padding: (int, int),
    dilation: int,
    size_in: int,
    count: int,
)
    requires
        kernel_size >= 1,
        stride >= 1,
        dilation >= 0,
        size_in + padding.0 + padding.1 <= usize::MAX,
        count >= 1,
        (count - 1) * stride + (kernel_size - 1) * dilation < size_in + padding.0 + padding.1
            <= count * stride + (kernel_size - 1) * dilation,
    ensures
        window_fits(kernel_size, stride, padding, dilation, size_in),
        window_count(kernel_size, stride, padding, dilation, size_in) == count,
{
    let reach = (kernel_size - 1) * dilation;
    assert(dilation * (kernel_size - 1) == reach) by (nonlinear_arith)
        requires
            reach == (kernel_size - 1) * dilation,
    ;
    assert(0 <= (count - 1) * stride) by (nonlinear_arith)
        requires
            count >= 1,
            stride >= 1,
    ;
    let room = size_in + padding.0 + padding.1 - reach - 1;
    assert(room / stride == count - 1) by (nonlinear_arith)
        requires
            stride >= 1,
            (count - 1) * stride <= room < count * stride,
    ;
}

/// A tensor of four dims holds every element where its buffer reaches as far as
/// the last one, or where it has none.
pub proof fn law_buffers_hold_up_to_the_last_element<E>(tensor: CubeTensor<E>)
    requires
        tensor.shape@.len() == 4,
        tensor.strides@.len() == 4,
        tensor.shape@[0] == 0 || tensor.shape@[1] == 0 || tensor.shape@[2] == 0 || tensor.shape@[3]
            == 0 || (tensor.shape@[0] - 1) * tensor.strides@[0] + (tensor.shape@[1] - 1)
            * tensor.strides@[1] + (tensor.shape@[2] - 1) * tensor.strides@[2] + (tensor.shape@[3]
            - 1) * tensor.strides@[3] < tensor.data@.len(),
    ensures
        tensor.is_4d(),
{
    assert forall|a: int, b: int, c: int, d: int| tensor.has(a, b, c, d) implies #[trigger] tensor.offset(
        a,
        b,
        c,
        d,
    ) < tensor.data@.len() by {
        lemma_step_within(a, tensor.shape@[0] as int, tensor.strides@[0] as int);
        lemma_step_within(b, tensor.shape@[1] as int, tensor.strides@[1] as int);
        lemma_step_within(c, tensor.shape@[2] as int, tensor.strides@[2] as int);
        lemma_step_within(d, tensor.shape@[3] as int, tensor.strides@[3] as int);
    }
}

/// Coordinates of a dim reach no further than its last one.
proof fn lemma_step_within(coord: int, size: int, stride: int)
    requires
        0 <= coord < size,
        stride >= 0,
    ensures
        0 <= coord * stride <= (size - 1) * stride,
{
    assert(0 <= coord * stride <= (size - 1) * stride) by (nonlinear_arith)
        requires
            0 <= coord < size,
            stride >= 0,
    ;
}

/// A convolution is depthwise exactly where it has two spatial dims and every
/// group one channel in and one out: there are as many input channels and as
/// many output channels as groups, and a filter spans one channel.
pub proof fn law_depthwise_is_one_channel_in_and_out<E, const N: usize>(
    input: &CubeTensor<E>,
    weight: &CubeTensor<E>,
    options: &ConvOptions<N>,
    answer: bool,
)
    requires
        input.shape@.len() >= 1,
        input.shape@.len() <= weight.shape@.len(),
        call_ensures(is_depthwise::<E, N>, (input, weight, options), answer),
    ensures
        call_requires(is_depthwise::<E, N>, (input, weight, options)),
        ({
            let rank = input.shape@.len();
            let groups = options.groups as int;
            let channels_in = input.shape@[rank - 1] as int;
            let channels_out = weight.shape@[0] as int;
            let channels_per_group = weight.shape@[rank - 1] as int;
            &&& answer <==> N == 2 && channels_per_group == 1 && channels_in == groups
                * channels_per_group && channels_out == groups * 1
            &&& groups >= 1 ==> (answer <==> N == 2 && channels_in % groups == 0 && channels_in
                / groups == 1 && channels_out % groups == 0 && channels_out / groups == 1
                && channels_per_group == 1)
        }),
{
    let rank = input.shape@.len();
    let groups = options.groups as int;
    let channels_in = input.shape@[rank - 1] as int;
    let channels_out = weight.shape@[0] as int;
    assert(groups >= 1 ==> (channels_in == groups <==> channels_in % groups == 0 && channels_in
        / groups == 1)) by (nonlinear_arith);
    assert(groups >= 1 ==> (channels_out == groups <==> channels_out % groups == 0 && channels_out
        / groups == 1)) by (nonlinear_arith);
}

/// Laid out by tap, the weight of a channel for a tap stands behind those of
/// the taps before it, of which each takes up as many places as there are
/// channels, and behind those of the channels before it.
pub proof fn law_weights_stand_tap_by_tap<E: Element>(
    weight: &CubeTensor<E>,
    by_tap: Vec<E>,
    ky: int,
    kx: int,
    channel: int,
)
    requires
        call_ensures(weight_by_tap::<E>, (weight,), by_tap),
        0 <= ky < weight.shape@[1],
        0 <= kx < weight.shape@[2],
        0 <= channel < weight.shape@[0],
    ensures
        by_tap@.len() == weight.shape@[1] * weight.shape@[2] * weight.shape@[0],
        by_tap@[(ky * weight.shape@[2] + kx) * weight.shape@[0] + channel]
            == weight.data@[channel * weight.strides@[0] + ky * weight.strides@[1] + kx
            * weight.strides@[2]],
{
    assert(filter_by_tap(
        by_tap@,
        weight.shape@[2] as int,
        weight.shape@[0] as int,
        channel,
    )(ky, kx) == weight.at(channel, ky, kx, 0));
    assert(0 * weight.strides@[3] == 0) by (nonlinear_arith);
}

/// The coordinates of a position count it out again, the last dim fastest, and
/// each lies within its dim.
pub proof fn law_coordinates_count_out_the_position(pos: u32, shape: &[u32], parts: (u32, Vec<u32>))
    requires
        forall|i: int| 0 <= i < shape@.len() ==> (#[trigger] shape@[i]) > 0,
        call_ensures(decompose_linear, (pos, shape), parts),
    ensures
        call_requires(decompose_linear, (pos, shape)),
        parts.1@.len() == shape@.len(),
        forall|i: int| 0 <= i < shape@.len() ==> (#[trigger] parts.1@[i]) < shape@[i],
        Seq::new(shape@.len(), |i: int| i).fold_left(
            parts.0 as int,
            |at: int, i: int| at * shape@[i] + parts.1@[i],
        ) == pos,
{
    let step = |at: int, i: int| at * shape@[i] + parts.1@[i];
    lemma_compose_in_order(parts.0 as int, shape@, parts.1@, step, shape@.len());
    assert(shape@.take(shape@.len() as int) =~= shape@);
    assert(parts.1@.take(shape@.len() as int) =~= parts.1@);
}

/// A position is counted out from its coordinates dim by dim.
proof fn lemma_compose_in_order(
    rest: int,
    shape: Seq<u32>,
    coords: Seq<u32>,
    step: spec_fn(int, int) -> int,
    count: nat,
)
    requires
        coords.len() == shape.len(),
        count <= shape.len(),
        forall|at: int, i: int|
            0 <= i < shape.len() ==> #[trigger] step(at, i) == at * shape[i] + coords[i],
    ensures
        Seq::new(count, |i: int| i).fold_left(rest, step) == compose_linear(
            rest,
            shape.take(count as int),
            coords.take(count as int),
        ),
    decreases count,
{
    let listed = Seq::new(count, |i: int| i);
    if count > 0 {
        lemma_compose_in_order(rest, shape, coords, step, (count - 1) as nat);
        assert(listed.drop_last() =~= Seq::new((count - 1) as nat, |i: int| i));
        assert(shape.take(count as int).drop_last() =~= shape.take(count - 1));
        assert(coords.take(count as int).drop_last() =~= coords.take(count - 1));
    }
}

/// The bounds have to be checked exactly where the first tap of the first
/// window lies before the input, or the last tap of the last window behind it,
/// along some dim.
pub proof fn law_bounds_are_checked_where_the_ends_fall_outside<const N: usize>(
    in_shape: &[usize],
    kernel_shape: &[usize],
    out_size: &[usize],
    options: &ConvOptions<N>,
    check: bool,
    dim: int,
)
    requires
        call_ensures(
            should_check_spatial_bounds::<N>,
            (in_shape, kernel_shape, out_size, options),
            check,
        ),
    ensures
        check ==> exists|dim: int|
            #![trigger in_shape@[dim]]
            0 <= dim < in_shape@.len() && !(0 <= 0 - options.padding@[dim].0 && (out_size@[dim] - 1)
                * options.stride@[dim] + (kernel_shape@[dim] - 1) * options.dilation@[dim]
                - options.padding@[dim].0 < in_shape@[dim]),
        !check && 0 <= dim < in_shape@.len() ==> 0 <= 0 - options.padding@[dim].0 && (
        out_size@[dim] - 1) * options.stride@[dim] + (kernel_shape@[dim] - 1)
            * options.dilation@[dim] - options.padding@[dim].0 < in_shape@[dim],
{
    assert(check == !stays_inside(in_shape@, kernel_shape@, out_size@, *options));
    if check {
        let dim = choose|dim: int|
            0 <= dim < in_shape@.len() && #[trigger] reaches_outside_dim(
                in_shape@,
                kernel_shape@,
                out_size@,
                *options,
                dim,
            );
        assert(0 <= dim < in_shape@.len() && reaches_outside_dim(
            in_shape@,
            kernel_shape@,
            out_size@,
            *options,
            dim,
        ));
        let size = in_shape@[dim];
        assert(!(0 <= 0 - options.padding@[dim].0 && (out_size@[dim] - 1) * options.stride@[dim] + (
        kernel_shape@[dim] - 1) * options.dilation@[dim] - options.padding@[dim].0 < size));
    } else if 0 <= dim < in_shape@.len() {
        assert(!reaches_outside_dim(in_shape@, kernel_shape@, out_size@, *options, dim));
    }
}

/// A plan hands the kernel the geometry of the convolution as it is, has it
/// check the bounds exactly where the first or the last tap of a row or a
/// column of windows falls beside the input, and shares the output out in
/// vectors of the smaller size.
pub proof fn law_plan_is_the_convolution<const N: usize>(
    input_shape: &Vec<usize>,
    weight_shape: &Vec<usize>,
    options: &ConvOptions<N>,
    dtype: DType,
    device: &Device,
    input_vector_size: usize,
    weight_vector_size: usize,
    plan: DepthwisePlan,
)
    requires
        N >= 2,
        options.stride@[0] <= u32::MAX,
        options.stride@[1] <= u32::MAX,
        options.dilation@[0] <= u32::MAX,
        options.dilation@[1] <= u32::MAX,
        options.padding@[0].0 <= i32::MAX,
        options.padding@[1].0 <= i32::MAX,
        input_shape@[1] <= u32::MAX,
        input_shape@[2] <= u32::MAX,
        weight_shape@[1] <= u32::MAX,
        weight_shape@[2] <= u32::MAX,
        input_shape@[3] <= u32::MAX,
        weight_shape@[1] >= 1,
        weight_shape@[2] >= 1,
        weight_shape@[0] == input_shape@[3],
        options.stride@[0] >= 1,
        options.stride@[1] >= 1,
        input_shape@[1] + options.padding@[0].0 + options.padding@[0].1 <= usize::MAX,
        input_shape@[2] + options.padding@[1].0 + options.padding@[1].1 <= usize::MAX,
        (weight_shape@[1] - 1) * options.dilation@[0] < input_shape@[1] + options.padding@[0].0
            + options.padding@[0].1,
        (weight_shape@[2] - 1) * options.dilation@[1] < input_shape@[2] + options.padding@[1].0
            + options.padding@[1].1,
        input_vector_size >= 1,
        weight_vector_size >= 1,
        call_ensures(
            DepthwisePlan::new::<N>,
            (
                input_shape,
                weight_shape,
                options,
                dtype,
                device,
                input_vector_size,
                weight_vector_size,
            ),
            plan,
        ),
    ensures
        plan.args.stride_h == options.stride@[0],
        plan.args.stride_w == options.stride@[1],
        plan.args.dilation_h == options.dilation@[0],
        plan.args.dilation_w == options.dilation@[1],
        plan.args.padding_h == options.padding@[0].0,
        plan.args.padding_w == options.padding@[1].0,
        plan.args.in_h == input_shape@[1],
        plan.args.in_w == input_shape@[2],
        plan.args.kernel_h == weight_shape@[1],
        plan.args.kernel_w == weight_shape@[2],
        plan.shape@.len() == 4,
        plan.shape@[0] == input_shape@[0],
        plan.shape@[3] == input_shape@[3],
        plan.shape@[1] >= 1,
        plan.shape@[2] >= 1,
        (plan.shape@[1] - 1) * options.stride@[0] + (weight_shape@[1] - 1) * options.dilation@[0]
            < input_shape@[1] + options.padding@[0].0 + options.padding@[0].1 <= plan.shape@[1]
            * options.stride@[0] + (weight_shape@[1] - 1) * options.dilation@[0],
        (plan.shape@[2] - 1) * options.stride@[1] + (weight_shape@[2] - 1) * options.dilation@[1]
            < input_shape@[2] + options.padding@[1].0 + options.padding@[1].1 <= plan.shape@[2]
            * options.stride@[1] + (weight_shape@[2] - 1) * options.dilation@[1],
        plan.dtype == dtype,
        plan.device == *device,
        plan.shape_out@.len() == 2,
        plan.shape_out@[0] == plan.shape@[1],
        plan.shape_out@[1] == plan.shape@[2],
        plan.shape_out_c == plan.shape@[3],
        !plan.has_padding <==> (0 <= 0 - options.padding@[0].0 && (plan.shape@[1] - 1)
            * options.stride@[0] + (weight_shape@[1] - 1) * options.dilation@[0]
            - options.padding@[0].0 < input_shape@[1] && 0 <= 0 - options.padding@[1].0 && (
        plan.shape@[2] - 1) * options.stride@[1] + (weight_shape@[2] - 1) * options.dilation@[1]
            - options.padding@[1].0 < input_shape@[2]),
        1 <= plan.vector_size,
        plan.vector_size <= input_vector_size,
        plan.vector_size <= weight_vector_size,
        plan.vector_size == input_vector_size || plan.vector_size == weight_vector_size,
        plan.working_units * plan.vector_size <= plan.shape@[0] * plan.shape@[1] * plan.shape@[2]
            * plan.shape@[3] < (plan.working_units + 1) * plan.vector_size,
{
    lemma_windows_end_inside(
        weight_shape@[1] as int,
        options.stride@[0] as int,
        (options.padding@[0].0 as int, options.padding@[0].1 as int),
        options.dilation@[0] as int,
        input_shape@[1] as int,
    );
    lemma_windows_end_inside(
        weight_shape@[2] as int,
        options.stride@[1] as int,
        (options.padding@[1].0 as int, options.padding@[1].1 as int),
        options.dilation@[1] as int,
        input_shape@[2] as int,
    );
    let args = plan.args;
    let out_h = plan.shape@[1] as int;
    let out_w = plan.shape@[2] as int;
    let first_h = args.tap_y(0, 0);
    let first_w = args.tap_x(0, 0);
    let last_h = args.tap_y(out_h - 1, args.kernel_h - 1);
    let last_w = args.tap_x(out_w - 1, args.kernel_w - 1);
    if 0 <= first_h && last_h < args.in_h && 0 <= first_w && last_w < args.in_w {
        lemma_never_outside(args, out_h, out_w);
    }
    let len = plan.shape@[0] * plan.shape@[1] * plan.shape@[2] * plan.shape@[3];
    let vector_size = plan.vector_size as int;
    let units = plan.working_units as int;
    assert(units * vector_size <= len < (units + 1) * vector_size) by (nonlinear_arith)
        requires
            vector_size >= 1,
            units == len / vector_size,
    ;
}

/// A unit writes the elements of its own vector and no other. Each is the bias
/// of its channel, or zero, and on top of it tap after tap, row by row, the
/// element of the same input channel that the tap falls on times the tap's
/// weight. That is so whether the unit checks its taps or not.
pub proof fn law_unit_sums_the_taps<E: Element>(
    unit: usize,
    input: &CubeTensor<E>,
    weight: &[E],
    bias: Option<&Vec<E>>,
    output: &mut Vec<E>,
    args: &DepthwiseArgs,
    shape_out: &[u32],
    shape_out_c: u32,
    has_padding: bool,
    vector_size: usize,
    batch: int,
    y: int,
    x: int,
    channel: int,
    at: int,
)
    requires
        call_ensures(
            depthwise_conv2d_kernel::<E>,
            (
                unit,
                input,
                weight,
                bias,
                output,
                args,
                shape_out,
                shape_out_c,
                has_padding,
                vector_size,
            ),
            (),
        ),
        shape_out@.len() == 2,
        0 <= batch,
        0 <= y < shape_out@[0],
        0 <= x < shape_out@[1],
        0 <= channel < shape_out_c,
        at == ((batch * shape_out@[0] + y) * shape_out@[1] + x) * shape_out_c + channel,
        0 <= at < output@.len(),
    ensures
        final(output)@.len() == old(output)@.len(),
        !(unit * vector_size <= at < unit * vector_size + vector_size) ==> final(output)@[at]
            == old(output)@[at],
        unit * vector_size <= at < unit * vector_size + vector_size ==> final(output)@[at]
            == Seq::new((args.kernel_h * args.kernel_w) as nat, |t: int| t).fold_left(
            match bias {
                Some(values) => values@[channel],
                None => E::nought(),
            },
            |sum: E, t: int|
                {
                    let ky = t / args.kernel_w as int;
                    let kx = t % args.kernel_w as int;
                    let in_y = y * args.stride_h + ky * args.dilation_h - args.padding_h;
                    let in_x = x * args.stride_w + kx * args.dilation_w - args.padding_w;
                    if 0 <= in_y < args.in_h && 0 <= in_x < args.in_w {
                        sum.plus(
                            input.data@[batch * input.strides@[0] + in_y * input.strides@[1] + in_x
                                * input.strides@[2] + channel * input.strides@[3]].times(
                                weight@[(ky * args.kernel_w + kx) * shape_out_c + channel],
                            ),
                        )
                    } else {
                        sum
                    }
                },
        ),
{
    let channels = shape_out_c as int;
    let out_h = shape_out@[0] as int;
    let out_w = shape_out@[1] as int;
    lemma_pixel_of(at, batch, out_h, out_w, channels, y, x, channel);
    let start = match bias {
        Some(values) => values@[channel],
        None => E::nought(),
    };
    let step = |sum: E, t: int|
        {
            let ky = t / args.kernel_w as int;
            let kx = t % args.kernel_w as int;
            let in_y = y * args.stride_h + ky * args.dilation_h - args.padding_h;
            let in_x = x * args.stride_w + kx * args.dilation_w - args.padding_w;
            if 0 <= in_y < args.in_h && 0 <= in_x < args.in_w {
                sum.plus(
                    input.data@[batch * input.strides@[0] + in_y * input.strides@[1] + in_x
                        * input.strides@[2] + channel * input.strides@[3]].times(
                        weight@[(ky * args.kernel_w + kx) * shape_out_c + channel],
                    ),
                )
            } else {
                sum
            }
        };
    let plane = plane_of(*input, batch, channel);
    let filter = filter_by_tap(weight@, args.kernel_w as int, channels, channel);
    assert((unit + 1) * vector_size == unit * vector_size + vector_size) by (nonlinear_arith);
    assert forall|sum: E, ky: int, kx: int|
        #![trigger step(sum, ky * args.kernel_w + kx)]
        0 <= ky < args.kernel_h && 0 <= kx < args.kernel_w implies step(
        sum,
        ky * args.kernel_w + kx,
    ) == if args.inside(args.tap_y(y, ky), args.tap_x(x, kx)) {
        sum.plus(plane(args.tap_y(y, ky), args.tap_x(x, kx)).times(filter(ky, kx)))
    } else {
        sum
    } by {
        let t = ky * args.kernel_w + kx;
        let kw = args.kernel_w as int;
        assert(t / kw == ky && t % kw == kx) by (nonlinear_arith)
            requires
                t == ky * kw + kx,
                0 <= kx < kw,
        ;
    }
    lemma_taps_in_order(
        *args,
        plane,
        filter,
        start,
        y,
        x,
        step,
        args.kernel_h as nat,
        0,
    );
    if unit * vector_size <= at < unit * vector_size + vector_size {
        assert(final(output)@[at] == output_element(
            *input,
            weight@,
            bias_view(bias),
            *args,
            true,
            out_h,
            out_w,
            channels,
            at,
        ));
    }
}

/// A unit is taken with any geometry, where the buffers hold what the geometry
/// says, the vectors line up, the counters hold the last tap, and, if it does
/// not check its taps, they lie inside.
pub proof fn law_every_unit_is_taken<E: Element>(
    unit: usize,
    input: &CubeTensor<E>,
    weight: &[E],
    bias: Option<&Vec<E>>,
    output: &mut Vec<E>,
    args: &DepthwiseArgs,
    shape_out: &[u32],
    shape_out_c: u32,
    has_padding: bool,
    vector_size: usize,
    batch: int,
    y: int,
    x: int,
    channel: int,
)
    requires
        input.shape@.len() == 4,
        input.strides@.len() == 4,
        input.shape@[0] == 0 || input.shape@[1] == 0 || input.shape@[2] == 0
            || input.shape@[3] == 0 || (input.shape@[0] - 1) * input.strides@[0] + (
        input.shape@[1] - 1) * input.strides@[1] + (input.shape@[2] - 1) * input.strides@[2] + (
        input.shape@[3] - 1) * input.strides@[3] < input.data@.len(),
        input.shape@[1] == args.in_h,
        input.shape@[2] == args.in_w,
        input.shape@[3] == shape_out_c,
        vector_size >= 1,
        input.shape@[3] as int % vector_size as int == 0,
        input.shape@[3] > 1 ==> input.strides@[3] == 1,
        input.shape@[0] > 1 ==> input.strides@[0] as int % vector_size as int == 0,
        input.shape@[1] > 1 ==> input.strides@[1] as int % vector_size as int == 0,
        input.shape@[2] > 1 ==> input.strides@[2] as int % vector_size as int == 0,
        shape_out@.len() == 2,
        output@.len() == input.shape@[0] * shape_out@[0] * shape_out@[1] * shape_out_c,
        output@.len() <= u32::MAX,
        args.kernel_h * args.kernel_w * shape_out_c <= weight@.len(),
        bias matches Some(values) ==> shape_out_c <= values@.len(),
        args.padding_h >= 0,
        args.padding_w >= 0,
        args.kernel_h * args.kernel_w <= u32::MAX,
        (shape_out@[0] - 1) * args.stride_h + (args.kernel_h - 1) * args.dilation_h <= i32::MAX,
        (shape_out@[1] - 1) * args.stride_w + (args.kernel_w - 1) * args.dilation_w <= i32::MAX,
        has_padding || unit * vector_size >= output@.len() || (0 <= batch && 0 <= y < shape_out@[0]
            && 0 <= x < shape_out@[1] && 0 <= channel < shape_out_c && unit * vector_size == ((batch
            * shape_out@[0] + y) * shape_out@[1] + x) * shape_out_c + channel && 0 <= y
            * args.stride_h - args.padding_h && y * args.stride_h + (args.kernel_h - 1)
            * args.dilation_h - args.padding_h < args.in_h && 0 <= x * args.stride_w
            - args.padding_w && x * args.stride_w + (args.kernel_w - 1) * args.dilation_w
            - args.padding_w < args.in_w),
    ensures
        call_requires(
            depthwise_conv2d_kernel::<E>,
            (
                unit,
                input,
                weight,
                bias,
                output,
                args,
                shape_out,
                shape_out_c,
                has_padding,
                vector_size,
            ),
        ),
{
    law_buffers_hold_up_to_the_last_element(*input);
    assert(lines_up(*input, vector_size as int));
    if !has_padding && unit * vector_size < output@.len() {
        let at = unit * vector_size;
        lemma_pixel_of(
            at,
            batch,
            shape_out@[0] as int,
            shape_out@[1] as int,
            shape_out_c as int,
            y,
            x,
            channel,
        );
        assert forall|ky: int, kx: int|
            0 <= ky < args.kernel_h && 0 <= kx < args.kernel_w implies #[trigger] args.inside(
            args.tap_y(y, ky),
            args.tap_x(x, kx),
        ) by {
            lemma_step_within(ky, args.kernel_h as int, args.dilation_h as int);
            lemma_step_within(kx, args.kernel_w as int, args.dilation_w as int);
        }
    }
}

/// The coordinates of a position whose last dim is fastest.
proof fn lemma_pixel_of(
    at: int,
    batch: int,
    out_h: int,
    out_w: int,
    channels: int,
    y: int,
    x: int,
    channel: int,
)
    requires
        0 <= y < out_h,
        0 <= x < out_w,
        0 <= channel < channels,
        at == ((batch * out_h + y) * out_w + x) * channels + channel,
    ensures
        at % channels == channel,
        (at / channels) % out_w == x,
        ((at / channels) / out_w) % out_h == y,
        ((at / channels) / out_w) / out_h == batch,
{
    let row = batch * out_h + y;
    let pixel = row * out_w + x;
    assert(at / channels == pixel && at % channels == channel) by (nonlinear_arith)
        requires
            at == pixel * channels + channel,
            0 <= channel < channels,
    ;
    assert(pixel / out_w == row && pixel % out_w == x) by (nonlinear_arith)
        requires
            pixel == row * out_w + x,
            0 <= x < out_w,
    ;
    assert(row / out_h == batch && row % out_h == y) by (nonlinear_arith)
        requires
            row == batch * out_h + y,
            0 <= y < out_h,
    ;
}

} // verus!
