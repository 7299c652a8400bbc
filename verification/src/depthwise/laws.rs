//! What holds of every depthwise convolution.

use crate::conv::{lemma_windows_stay_inside, ConvOptions};
use crate::depthwise::launch::lemma_never_outside;
use crate::depthwise::model::{
    depthwise_args, depthwise_at, filter_by_tap, filter_of, fits_along, has_depthwise_groups,
    is_convolution, out_along, output_element, plane_of, row_sum, spatial_in, spatial_kernel,
    start_of, window_sum, DepthwiseArgs,
};
use crate::depthwise::positions::{lemma_lanes_share_pixel, lemma_units};
use crate::element::Element;
use crate::tensor::CubeTensor;
use vstd::arithmetic::div_mod::lemma_mod_multiples_basic;
use vstd::prelude::*;

verus! {

/// A row's sum depends only on the input and the weights under its taps.
pub proof fn lemma_row_sum_depends_on_taps<E: Element>(
    args: DepthwiseArgs,
    plane: spec_fn(int, int) -> E,
    other_plane: spec_fn(int, int) -> E,
    filter: spec_fn(int, int) -> E,
    other_filter: spec_fn(int, int) -> E,
    start: E,
    out_y: int,
    out_x: int,
    ky: int,
    taps: nat,
)
    requires
        taps <= args.kernel_w,
        forall|y: int, x: int| args.inside(y, x) ==> #[trigger] plane(y, x) == other_plane(y, x),
        forall|kx: int|
            0 <= kx < args.kernel_w ==> #[trigger] filter(ky, kx) == other_filter(ky, kx),
    ensures
        row_sum(args, true, plane, filter, start, out_y, out_x, ky, taps) == row_sum(
            args,
            true,
            other_plane,
            other_filter,
            start,
            out_y,
            out_x,
            ky,
            taps,
        ),
    decreases taps,
{
    if taps > 0 {
        lemma_row_sum_depends_on_taps(
            args,
            plane,
            other_plane,
            filter,
            other_filter,
            start,
            out_y,
            out_x,
            ky,
            (taps - 1) as nat,
        );
        assert(filter(ky, taps - 1) == other_filter(ky, taps - 1));
    }
}

/// A window's sum depends only on the input and the weights under its taps.
pub proof fn lemma_window_sum_depends_on_taps<E: Element>(
    args: DepthwiseArgs,
    plane: spec_fn(int, int) -> E,
    other_plane: spec_fn(int, int) -> E,
    filter: spec_fn(int, int) -> E,
    other_filter: spec_fn(int, int) -> E,
    start: E,
    out_y: int,
    out_x: int,
    rows: nat,
)
    requires
        rows <= args.kernel_h,
        forall|y: int, x: int| args.inside(y, x) ==> #[trigger] plane(y, x) == other_plane(y, x),
        forall|ky: int, kx: int|
            0 <= ky < args.kernel_h && 0 <= kx < args.kernel_w ==> #[trigger] filter(ky, kx)
                == other_filter(ky, kx),
    ensures
        window_sum(args, true, plane, filter, start, out_y, out_x, rows) == window_sum(
            args,
            true,
            other_plane,
            other_filter,
            start,
            out_y,
            out_x,
            rows,
        ),
    decreases rows,
{
    if rows > 0 {
        lemma_window_sum_depends_on_taps(
            args,
            plane,
            other_plane,
            filter,
            other_filter,
            start,
            out_y,
            out_x,
            (rows - 1) as nat,
        );
        lemma_row_sum_depends_on_taps(
            args,
            plane,
            other_plane,
            filter,
            other_filter,
            window_sum(args, true, plane, filter, start, out_y, out_x, (rows - 1) as nat),
            out_y,
            out_x,
            rows - 1,
            args.kernel_w as nat,
        );
    }
}

/// An output channel depends on nothing but the same channel of the input, of
/// the weights and of the bias.
pub proof fn law_channels_stay_apart<E: Element, const N: usize>(
    input: CubeTensor<E>,
    other_input: CubeTensor<E>,
    weight: CubeTensor<E>,
    other_weight: CubeTensor<E>,
    bias: Option<Seq<E>>,
    other_bias: Option<Seq<E>>,
    options: ConvOptions<N>,
    batch: int,
    out_y: int,
    out_x: int,
    channel: int,
)
    requires
        is_convolution(input.shape@, weight.shape@, options),
        other_input.shape@ == input.shape@,
        other_weight.shape@ == weight.shape@,
        forall|y: int, x: int|
            0 <= y < input.shape@[1] && 0 <= x < input.shape@[2] ==> #[trigger] input.at(
                batch,
                y,
                x,
                channel,
            ) == other_input.at(batch, y, x, channel),
        forall|ky: int, kx: int|
            0 <= ky < weight.shape@[1] && 0 <= kx < weight.shape@[2] ==> #[trigger] weight.at(
                channel,
                ky,
                kx,
                0,
            ) == other_weight.at(channel, ky, kx, 0),
        start_of(bias, channel) == start_of(other_bias, channel),
    ensures
        depthwise_at(input, weight, bias, options, batch, out_y, out_x, channel) == depthwise_at(
            other_input,
            other_weight,
            other_bias,
            options,
            batch,
            out_y,
            out_x,
            channel,
        ),
{
    lemma_window_sum_depends_on_taps(
        depthwise_args(input.shape@, weight.shape@, options),
        plane_of(input, batch, channel),
        plane_of(other_input, batch, channel),
        filter_of(weight, channel),
        filter_of(other_weight, channel),
        start_of(bias, channel),
        out_y,
        out_x,
        weight.shape@[1] as nat,
    );
}

/// `start`, and on top of it the first `count` channels of a group at one tap.
pub open spec fn group_tap_sum<E: Element>(
    input: CubeTensor<E>,
    weight: CubeTensor<E>,
    start: E,
    batch: int,
    y: int,
    x: int,
    first: int,
    out_channel: int,
    ky: int,
    kx: int,
    count: nat,
) -> E
    decreases count,
{
    if count == 0 {
        start
    } else {
        let c = count - 1;
        group_tap_sum(
            input,
            weight,
            start,
            batch,
            y,
            x,
            first,
            out_channel,
            ky,
            kx,
            (count - 1) as nat,
        ).plus(input.at(batch, y, x, first + c).times(weight.at(out_channel, ky, kx, c)))
    }
}

/// `start`, and on top of it the first `taps` taps of row `ky` of a window
/// over a group of channels.
pub open spec fn group_row_sum<E: Element>(
    args: DepthwiseArgs,
    input: CubeTensor<E>,
    weight: CubeTensor<E>,
    start: E,
    batch: int,
    first: int,
    out_channel: int,
    out_y: int,
    out_x: int,
    ky: int,
    taps: nat,
) -> E
    decreases taps,
{
    if taps == 0 {
        start
    } else {
        let kx = taps - 1;
        let before = group_row_sum(
            args,
            input,
            weight,
            start,
            batch,
            first,
            out_channel,
            out_y,
            out_x,
            ky,
            (taps - 1) as nat,
        );
        let y = args.tap_y(out_y, ky);
        let x = args.tap_x(out_x, kx);
        if args.inside(y, x) {
            group_tap_sum(
                input,
                weight,
                before,
                batch,
                y,
                x,
                first,
                out_channel,
                ky,
                kx,
                weight.shape@[3] as nat,
            )
        } else {
            before
        }
    }
}

/// `start`, and on top of it the first `rows` rows of a window over a group of
/// channels.
pub open spec fn group_window_sum<E: Element>(
    args: DepthwiseArgs,
    input: CubeTensor<E>,
    weight: CubeTensor<E>,
    start: E,
    batch: int,
    first: int,
    out_channel: int,
    out_y: int,
    out_x: int,
    rows: nat,
) -> E
    decreases rows,
{
    if rows == 0 {
        start
    } else {
        group_row_sum(
            args,
            input,
            weight,
            group_window_sum(
                args,
                input,
                weight,
                start,
                batch,
                first,
                out_channel,
                out_y,
                out_x,
                (rows - 1) as nat,
            ),
            batch,
            first,
            out_channel,
            out_y,
            out_x,
            rows - 1,
            args.kernel_w as nat,
        )
    }
}

/// What a grouped convolution is: an output channel sums over its window all
/// the input channels of its group.
pub open spec fn grouped_at<E: Element, const N: usize>(
    input: CubeTensor<E>,
    weight: CubeTensor<E>,
    bias: Option<Seq<E>>,
    options: ConvOptions<N>,
    batch: int,
    out_y: int,
    out_x: int,
    out_channel: int,
) -> E {
    let out_per_group = weight.shape@[0] as int / options.groups as int;
    let group = out_channel / out_per_group;
    group_window_sum(
        depthwise_args(input.shape@, weight.shape@, options),
        input,
        weight,
        start_of(bias, out_channel),
        batch,
        group * weight.shape@[3],
        out_channel,
        out_y,
        out_x,
        weight.shape@[1] as nat,
    )
}

proof fn lemma_group_row_of_one<E: Element>(
    args: DepthwiseArgs,
    input: CubeTensor<E>,
    weight: CubeTensor<E>,
    start: E,
    batch: int,
    channel: int,
    out_y: int,
    out_x: int,
    ky: int,
    taps: nat,
)
    requires
        weight.shape@[3] == 1,
    ensures
        group_row_sum(args, input, weight, start, batch, channel, channel, out_y, out_x, ky, taps)
            == row_sum(
            args,
            true,
            plane_of(input, batch, channel),
            filter_of(weight, channel),
            start,
            out_y,
            out_x,
            ky,
            taps,
        ),
    decreases taps,
{
    reveal_with_fuel(group_tap_sum, 2);
    if taps > 0 {
        lemma_group_row_of_one(
            args,
            input,
            weight,
            start,
            batch,
            channel,
            out_y,
            out_x,
            ky,
            (taps - 1) as nat,
        );
    }
}

proof fn lemma_group_window_of_one<E: Element>(
    args: DepthwiseArgs,
    input: CubeTensor<E>,
    weight: CubeTensor<E>,
    start: E,
    batch: int,
    channel: int,
    out_y: int,
    out_x: int,
    rows: nat,
)
    requires
        weight.shape@[3] == 1,
    ensures
        group_window_sum(args, input, weight, start, batch, channel, channel, out_y, out_x, rows)
            == window_sum(
            args,
            true,
            plane_of(input, batch, channel),
            filter_of(weight, channel),
            start,
            out_y,
            out_x,
            rows,
        ),
    decreases rows,
{
    if rows > 0 {
        lemma_group_window_of_one(
            args,
            input,
            weight,
            start,
            batch,
            channel,
            out_y,
            out_x,
            (rows - 1) as nat,
        );
        lemma_group_row_of_one(
            args,
            input,
            weight,
            window_sum(
                args,
                true,
                plane_of(input, batch, channel),
                filter_of(weight, channel),
                start,
                out_y,
                out_x,
                (rows - 1) as nat,
            ),
            batch,
            channel,
            out_y,
            out_x,
            rows - 1,
            args.kernel_w as nat,
        );
    }
}

/// Where every group has one channel in and one out, the grouped convolution
/// is the depthwise one.
pub proof fn law_depthwise_groups_convolve_depthwise<E: Element, const N: usize>(
    input: CubeTensor<E>,
    weight: CubeTensor<E>,
    bias: Option<Seq<E>>,
    options: ConvOptions<N>,
    batch: int,
    out_y: int,
    out_x: int,
    channel: int,
)
    requires
        input.shape@.len() == 4,
        weight.shape@.len() == 4,
        has_depthwise_groups(input.shape@, weight.shape@, options),
        0 <= channel < weight.shape@[0],
    ensures
        weight.shape@[0] == input.shape@[3],
        weight.shape@[3] == 1,
        grouped_at(input, weight, bias, options, batch, out_y, out_x, channel) == depthwise_at(
            input,
            weight,
            bias,
            options,
            batch,
            out_y,
            out_x,
            channel,
        ),
{
    let groups = options.groups as int;
    assert(groups / groups == 1 && channel / 1 == channel) by (nonlinear_arith)
        requires
            groups > 0,
    ;
    assert(channel * weight.shape@[3] == channel) by (nonlinear_arith)
        requires
            weight.shape@[3] == 1,
    ;
    lemma_group_window_of_one(
        depthwise_args(input.shape@, weight.shape@, options),
        input,
        weight,
        start_of(bias, channel),
        batch,
        channel,
        out_y,
        out_x,
        weight.shape@[1] as nat,
    );
}

/// Where no side is padded no tap falls outside the input, so the kernel need
/// not check.
pub proof fn law_unpadded_taps_stay_inside<const N: usize>(
    input_shape: Seq<usize>,
    weight_shape: Seq<usize>,
    options: ConvOptions<N>,
)
    requires
        is_convolution(input_shape, weight_shape, options),
        options.padding@[0] == (0usize, 0usize),
        options.padding@[1] == (0usize, 0usize),
    ensures
        depthwise_args(input_shape, weight_shape, options).never_outside(
            out_along(input_shape, weight_shape, options, 0),
            out_along(input_shape, weight_shape, options, 1),
        ),
{
    let args = depthwise_args(input_shape, weight_shape, options);
    let out_h = out_along(input_shape, weight_shape, options, 0);
    let out_w = out_along(input_shape, weight_shape, options, 1);
    assert forall|dim: int| 0 <= dim < 2 implies {
        let out = out_along(input_shape, weight_shape, options, dim);
        let kernel = #[trigger] spatial_kernel(weight_shape)[dim];
        &&& out >= 1
        &&& (out - 1) * options.stride@[dim] + (kernel - 1) * options.dilation@[dim]
            < spatial_in(input_shape)[dim]
    } by {
        assert(fits_along(input_shape, weight_shape, options, dim));
        lemma_windows_stay_inside(
            spatial_kernel(weight_shape)[dim] as int,
            options.stride@[dim] as int,
            (options.padding@[dim].0 as int, options.padding@[dim].1 as int),
            options.dilation@[dim] as int,
            spatial_in(input_shape)[dim] as int,
        );
    }
    assert(spatial_kernel(weight_shape)[0] == weight_shape[1]);
    assert(spatial_kernel(weight_shape)[1] == weight_shape[2]);
    lemma_never_outside(args, out_h, out_w);
}

/// Where every tap of a row is inside, its sum is the same with and without
/// the check.
proof fn lemma_row_sum_without_check<E: Element>(
    args: DepthwiseArgs,
    plane: spec_fn(int, int) -> E,
    filter: spec_fn(int, int) -> E,
    start: E,
    out_y: int,
    out_x: int,
    ky: int,
    taps: nat,
)
    requires
        args.window_inside(out_y, out_x),
        0 <= ky < args.kernel_h,
        taps <= args.kernel_w,
    ensures
        row_sum(args, true, plane, filter, start, out_y, out_x, ky, taps) == row_sum(
            args,
            false,
            plane,
            filter,
            start,
            out_y,
            out_x,
            ky,
            taps,
        ),
    decreases taps,
{
    if taps > 0 {
        lemma_row_sum_without_check(
            args,
            plane,
            filter,
            start,
            out_y,
            out_x,
            ky,
            (taps - 1) as nat,
        );
        assert(args.inside(args.tap_y(out_y, ky), args.tap_x(out_x, taps - 1)));
    }
}

/// Where every tap of a window is inside, its sum is the same with and without
/// the check.
pub proof fn lemma_window_sum_without_check<E: Element>(
    args: DepthwiseArgs,
    plane: spec_fn(int, int) -> E,
    filter: spec_fn(int, int) -> E,
    start: E,
    out_y: int,
    out_x: int,
    rows: nat,
)
    requires
        args.window_inside(out_y, out_x),
        rows <= args.kernel_h,
    ensures
        window_sum(args, true, plane, filter, start, out_y, out_x, rows) == window_sum(
            args,
            false,
            plane,
            filter,
            start,
            out_y,
            out_x,
            rows,
        ),
    decreases rows,
{
    if rows > 0 {
        lemma_window_sum_without_check(
            args,
            plane,
            filter,
            start,
            out_y,
            out_x,
            (rows - 1) as nat,
        );
        lemma_row_sum_without_check(
            args,
            plane,
            filter,
            window_sum(args, true, plane, filter, start, out_y, out_x, (rows - 1) as nat),
            out_y,
            out_x,
            rows - 1,
            args.kernel_w as nat,
        );
    }
}

/// A unit whose own taps all lie inside writes the same vector whether it
/// checks them or not.
pub proof fn law_check_changes_nothing_inside<E: Element>(
    input: CubeTensor<E>,
    weight: Seq<E>,
    bias: Option<Seq<E>>,
    args: DepthwiseArgs,
    out_h: int,
    out_w: int,
    channels: int,
    vector_size: int,
    unit: int,
)
    requires
        vector_size >= 1,
        channels >= 1,
        channels % vector_size == 0,
        unit >= 0,
        args.unit_inside(out_h, out_w, channels, vector_size, unit),
    ensures
        forall|at: int|
            unit * vector_size <= at < (unit + 1) * vector_size ==> #[trigger] output_element(
                input,
                weight,
                bias,
                args,
                true,
                out_h,
                out_w,
                channels,
                at,
            ) == output_element(input, weight, bias, args, false, out_h, out_w, channels, at),
{
    let pos = unit * vector_size;
    assert(pos >= 0 && (unit + 1) * vector_size == pos + vector_size) by (nonlinear_arith)
        requires
            unit >= 0,
            vector_size >= 1,
            pos == unit * vector_size,
    ;
    lemma_mod_multiples_basic(unit, vector_size);
    assert forall|at: int| pos <= at < pos + vector_size implies #[trigger] output_element(
        input,
        weight,
        bias,
        args,
        true,
        out_h,
        out_w,
        channels,
        at,
    ) == output_element(input, weight, bias, args, false, out_h, out_w, channels, at) by {
        lemma_lanes_share_pixel(pos, at - pos, channels, vector_size);
        let channel = at % channels;
        let pixel = at / channels;
        lemma_window_sum_without_check(
            args,
            plane_of(input, (pixel / out_w) / out_h, channel),
            filter_by_tap(weight, args.kernel_w as int, channels, channel),
            start_of(bias, channel),
            (pixel / out_w) % out_h,
            pixel % out_w,
            args.kernel_h as nat,
        );
    }
}

/// Every element of the output is the work of one unit of the launch, and of
/// no other.
pub proof fn law_units_share_out_output(
    pixels: int,
    channels: int,
    vector_size: int,
    at: int,
    unit: int,
)
    requires
        vector_size >= 1,
        channels >= 0,
        channels % vector_size == 0,
        pixels >= 0,
        0 <= at < pixels * channels,
        0 <= unit,
    ensures
        0 <= at / vector_size < (pixels * channels) / vector_size,
        unit * vector_size <= at < (unit + 1) * vector_size <==> unit == at / vector_size,
{
    let len = pixels * channels;
    lemma_units(len, pixels, channels, vector_size, unit);
    let units = len / vector_size;
    let owner = at / vector_size;
    assert(owner * vector_size <= at < (owner + 1) * vector_size) by (nonlinear_arith)
        requires
            vector_size >= 1,
            at >= 0,
            owner == at / vector_size,
    ;
    assert(0 <= owner < units) by (nonlinear_arith)
        requires
            0 <= at < units * vector_size,
            owner * vector_size <= at < (owner + 1) * vector_size,
            vector_size >= 1,
    ;
    if unit * vector_size <= at < (unit + 1) * vector_size {
        assert(unit == owner) by (nonlinear_arith)
            requires
                unit * vector_size <= at < (unit + 1) * vector_size,
                owner * vector_size <= at < (owner + 1) * vector_size,
                vector_size >= 1,
        ;
    }
}

} // verus!
