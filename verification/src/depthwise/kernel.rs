//! The work of one unit of a launch.

use crate::depthwise::laws::law_check_changes_nothing_inside;
use crate::depthwise::model::{
    bias_view, filter_by_tap, is_launch, output_element, plane_of, row_sum, start_of, window_sum,
    DepthwiseArgs,
};
use crate::depthwise::positions::{
    decompose_linear, lemma_compose_pixel, lemma_lane_position, lemma_lanes_share_pixel,
    lemma_multiple_plus, lemma_multiple_times, lemma_output_position, lemma_tap_bounds,
    lemma_tap_position, lemma_units, lemma_weight_bounds,
};
use crate::element::Element;
use crate::tensor::CubeTensor;
use vstd::arithmetic::div_mod::lemma_fundamental_div_mod;
use vstd::prelude::*;

verus! {

/// Adds the products of two vectors to `sum`: those that start at `in_pos` of
/// `input` and at `weight_pos` of `weight`.
fn add_products<E: Element>(
    sum: &mut Vec<E>,
    input: &Vec<E>,
    in_pos: usize,
    weight: &[E],
    weight_pos: usize,
    vector_size: usize,
)
    requires
        vector_size >= 1,
        old(sum)@.len() == vector_size,
        in_pos as int % vector_size as int == 0,
        weight_pos as int % vector_size as int == 0,
        in_pos + vector_size <= input@.len(),
        weight_pos + vector_size <= weight@.len(),
    ensures
        final(sum)@.len() == vector_size,
        forall|lane: int|
            0 <= lane < vector_size ==> #[trigger] final(sum)@[lane] == old(sum)@[lane].plus(
                input@[in_pos + lane].times(weight@[weight_pos + lane]),
            ),
{
    let in_line: usize = in_pos / vector_size;
    let weight_line: usize = weight_pos / vector_size;
    proof {
        lemma_fundamental_div_mod(in_pos as int, vector_size as int);
        lemma_fundamental_div_mod(weight_pos as int, vector_size as int);
        assert(in_line * vector_size == vector_size * in_line) by (nonlinear_arith);
        assert(weight_line * vector_size == vector_size * weight_line) by (nonlinear_arith);
    }
    let ghost before = sum@;
    let mut lane: usize = 0;
    while lane < vector_size
        invariant
            lane <= vector_size,
            sum@.len() == vector_size,
            before.len() == vector_size,
            in_line * vector_size == in_pos,
            weight_line * vector_size == weight_pos,
            in_pos + vector_size <= input@.len(),
            weight_pos + vector_size <= weight@.len(),
            forall|l: int|
                0 <= l < lane ==> #[trigger] sum@[l] == before[l].plus(
                    input@[in_pos + l].times(weight@[weight_pos + l]),
                ),
            forall|l: int| lane <= l < vector_size ==> #[trigger] sum@[l] == before[l],
        decreases vector_size - lane,
    {
        assert(input.len() == input@.len());
        assert(weight.len() == weight@.len());
        let product = input[in_line * vector_size + lane].product(
            weight[weight_line * vector_size + lane],
        );
        let value = sum[lane].sum(product);
        sum.set(lane, value);
        lane = lane + 1;
    }
}

/// What the sums of a vector of channels start from.
fn start_vector<E: Element>(bias: Option<&Vec<E>>, channel: usize, vector_size: usize) -> (sum: Vec<
    E,
>)
    requires
        vector_size >= 1,
        channel as int % vector_size as int == 0,
        bias matches Some(values) ==> channel + vector_size <= values@.len(),
    ensures
        sum@.len() == vector_size,
        forall|lane: int|
            0 <= lane < vector_size ==> #[trigger] sum@[lane] == start_of(
                bias_view(bias),
                channel + lane,
            ),
{
    let line: usize = channel / vector_size;
    proof {
        lemma_fundamental_div_mod(channel as int, vector_size as int);
        assert(line * vector_size == vector_size * line) by (nonlinear_arith);
    }
    let mut sum: Vec<E> = Vec::with_capacity(vector_size);
    while sum.len() < vector_size
        invariant
            sum@.len() <= vector_size,
            line * vector_size == channel,
            bias matches Some(values) ==> channel + vector_size <= values@.len(),
            forall|lane: int|
                0 <= lane < sum@.len() ==> #[trigger] sum@[lane] == start_of(
                    bias_view(bias),
                    channel + lane,
                ),
        decreases vector_size - sum@.len(),
    {
        assert(bias matches Some(values) ==> values.len() == values@.len());
        let value = match bias {
            Some(values) => values[line * vector_size + sum.len()],
            None => E::zero(),
        };
        sum.push(value);
    }
    sum
}

/// The work of one unit of a launch: one vector of neighbouring channels of
/// one output pixel. Without `has_padding` it does not check its taps, which
/// must then all lie inside; what it writes is the same either way. A unit past
/// the end of the output does nothing.
pub fn depthwise_conv2d_kernel<E: Element>(
    unit: usize,
    input: &CubeTensor<E>,
    weight: &[E],
    bias: Option<&Vec<E>>,
    output: &mut Vec<E>,
    args: &DepthwiseArgs,
    shape_out: &[u32],
    shape_out_c: u32,
    has_padding: bool,
    vector_size: usize,
)
    requires
        is_launch(
            *input,
            weight@,
            bias_view(bias),
            old(output)@.len() as int,
            *args,
            shape_out@,
            shape_out_c,
            vector_size as int,
        ),
        !has_padding && unit * vector_size < old(output)@.len() ==> args.unit_inside(
            shape_out@[0] as int,
            shape_out@[1] as int,
            shape_out_c as int,
            vector_size as int,
            unit as int,
        ),
    ensures
        final(output)@.len() == old(output)@.len(),
        forall|at: int|
            0 <= at < old(output)@.len() ==> #[trigger] final(output)@[at] == if unit * vector_size
                <= at < (unit + 1) * vector_size {
                output_element(
                    *input,
                    weight@,
                    bias_view(bias),
                    *args,
                    has_padding,
                    shape_out@[0] as int,
                    shape_out@[1] as int,
                    shape_out_c as int,
                    at,
                )
            } else {
                old(output)@[at]
            },
        forall|at: int|
            0 <= at < old(output)@.len() && unit * vector_size <= at < (unit + 1) * vector_size
                ==> #[trigger] final(output)@[at] == output_element(
                *input,
                weight@,
                bias_view(bias),
                *args,
                true,
                shape_out@[0] as int,
                shape_out@[1] as int,
                shape_out_c as int,
                at,
            ),
{
    let units: usize = output.len() / vector_size;
    let ghost channels = shape_out_c as int;
    let ghost out_h = shape_out@[0] as int;
    let ghost out_w = shape_out@[1] as int;
    proof {
        let pixels = input.shape@[0] * out_h * out_w;
        lemma_units(output@.len() as int, pixels, channels, vector_size as int, unit as int);
    }
    if unit >= units {
        return;
    }
    let pos: usize = unit * vector_size;
    proof {
        lemma_output_position(pos as int, input.shape@[0] as int, out_h, out_w, channels);
        lemma_lanes_share_pixel(pos as int, 0, channels, vector_size as int);
    }
    let rem: u32 = pos as u32 / shape_out_c;
    let c: usize = (pos as u32 % shape_out_c) as usize;
    let (b, spatial_pos) = decompose_linear(rem, shape_out);
    let out_y: u32 = spatial_pos[0];
    let out_x: u32 = spatial_pos[1];
    proof {
        lemma_compose_pixel(b as int, shape_out@, spatial_pos@, rem as int);
    }

    let mut sum = start_vector(bias, c, vector_size);
    let ghost plane = |lane: int| plane_of(*input, b as int, c + lane);
    let ghost filter = |lane: int| filter_by_tap(weight@, args.kernel_w as int, channels, c + lane);

    let mut ky: u32 = 0;
    while ky < args.kernel_h
        invariant
            ky <= args.kernel_h,
            is_launch(
                *input,
                weight@,
                bias_view(bias),
                output@.len() as int,
                *args,
                shape_out@,
                shape_out_c,
                vector_size as int,
            ),
            channels == shape_out_c,
            out_h == shape_out@[0],
            out_w == shape_out@[1],
            out_y < out_h,
            out_x < out_w,
            !has_padding ==> args.window_inside(out_y as int, out_x as int),
            b < input.shape@[0],
            c + vector_size <= channels,
            c as int % vector_size as int == 0,
            plane == (|lane: int| plane_of(*input, b as int, c + lane)),
            filter == (|lane: int|
                filter_by_tap(weight@, args.kernel_w as int, channels, c + lane)),
            sum@.len() == vector_size,
            forall|lane: int|
                0 <= lane < vector_size ==> #[trigger] sum@[lane] == window_sum(
                    *args,
                    has_padding,
                    plane(lane),
                    filter(lane),
                    start_of(bias_view(bias), c + lane),
                    out_y as int,
                    out_x as int,
                    ky as nat,
                ),
        decreases args.kernel_h - ky,
    {
        proof {
            lemma_tap_bounds(
                out_y as int,
                out_h,
                args.stride_h as int,
                ky as int,
                args.kernel_h as int,
                args.dilation_h as int,
            );
        }
        let in_y: i32 = (out_y * args.stride_h + ky * args.dilation_h) as i32 - args.padding_h;
        assert(in_y == args.tap_y(out_y as int, ky as int));
        let mut row_in_bounds: bool = true;
        if has_padding {
            row_in_bounds = in_y >= 0 && (in_y as u32) < args.in_h;
        }
        let ghost row_start = sum@;

        let mut kx: u32 = 0;
        while kx < args.kernel_w
            invariant
                kx <= args.kernel_w,
                ky < args.kernel_h,
                is_launch(
                    *input,
                    weight@,
                    bias_view(bias),
                    output@.len() as int,
                    *args,
                    shape_out@,
                    shape_out_c,
                    vector_size as int,
                ),
                channels == shape_out_c,
                out_h == shape_out@[0],
                out_w == shape_out@[1],
                out_y < out_h,
                out_x < out_w,
                !has_padding ==> args.window_inside(out_y as int, out_x as int),
                b < input.shape@[0],
                c + vector_size <= channels,
                c as int % vector_size as int == 0,
                in_y == args.tap_y(out_y as int, ky as int),
                row_in_bounds == (!has_padding || 0 <= in_y < args.in_h),
                plane == (|lane: int| plane_of(*input, b as int, c + lane)),
                filter == (|lane: int|
                    filter_by_tap(weight@, args.kernel_w as int, channels, c + lane)),
                sum@.len() == vector_size,
                row_start.len() == vector_size,
                forall|lane: int|
                    0 <= lane < vector_size ==> #[trigger] sum@[lane] == row_sum(
                        *args,
                        has_padding,
                        plane(lane),
                        filter(lane),
                        row_start[lane],
                        out_y as int,
                        out_x as int,
                        ky as int,
                        kx as nat,
                    ),
            decreases args.kernel_w - kx,
        {
            proof {
                lemma_tap_bounds(
                    out_x as int,
                    out_w,
                    args.stride_w as int,
                    kx as int,
                    args.kernel_w as int,
                    args.dilation_w as int,
                );
            }
            let in_x: i32 = (out_x * args.stride_w + kx * args.dilation_w) as i32 - args.padding_w;
            assert(in_x == args.tap_x(out_x as int, kx as int));
            let mut in_bounds: bool = row_in_bounds;
            if has_padding {
                in_bounds = in_bounds && in_x >= 0 && (in_x as u32) < args.in_w;
            }
            let ghost before = sum@;
            assert(in_bounds == (!has_padding || args.inside(in_y as int, in_x as int)));
            if in_bounds {
                let ghost tap = ky * args.kernel_w + kx;
                proof {
                    let y = in_y as int;
                    let x = in_x as int;
                    let vector = vector_size as int;
                    assert(args.inside(y, x));
                    assert(input.data.len() == input.data@.len());
                    assert(weight.len() == weight@.len());
                    lemma_tap_position(*input, b as int, y, x, c as int, vector);
                    lemma_weight_bounds(
                        ky as int,
                        kx as int,
                        args.kernel_h as int,
                        args.kernel_w as int,
                        channels,
                        c + vector - 1,
                    );
                    lemma_multiple_times(tap, channels, vector);
                    lemma_multiple_plus(tap * channels, c as int, vector);
                    assert forall|lane: int|
                        #![trigger plane(lane)]
                        0 <= lane < vector implies plane(lane)(y, x) == input.data@[b
                        * input.strides@[0] + y * input.strides@[1] + x * input.strides@[2] + c
                        + lane] by {
                        lemma_lane_position(*input, b as int, y, x, c as int, lane);
                    }
                }
                let in_pos: usize = b as usize * input.strides[0] + in_y as usize * input.strides[1]
                    + in_x as usize * input.strides[2] + c;
                let weight_pos: usize = (ky * args.kernel_w + kx) as usize * shape_out_c as usize
                    + c;
                add_products(&mut sum, &input.data, in_pos, weight, weight_pos, vector_size);
            }
            proof {
                assert forall|lane: int| 0 <= lane < vector_size implies #[trigger] sum@[lane]
                    == row_sum(
                    *args,
                    has_padding,
                    plane(lane),
                    filter(lane),
                    row_start[lane],
                    out_y as int,
                    out_x as int,
                    ky as int,
                    (kx + 1) as nat,
                ) by {
                    assert(before[lane] == row_sum(
                        *args,
                        has_padding,
                        plane(lane),
                        filter(lane),
                        row_start[lane],
                        out_y as int,
                        out_x as int,
                        ky as int,
                        kx as nat,
                    ));
                }
            }
            kx = kx + 1;
        }
        ky = ky + 1;
    }

    let ghost before = output@;
    let mut lane: usize = 0;
    while lane < vector_size
        invariant
            lane <= vector_size,
            sum@.len() == vector_size,
            output@.len() == before.len(),
            pos + vector_size <= output@.len(),
            forall|at: int|
                0 <= at < output@.len() ==> #[trigger] output@[at] == if pos <= at < pos + lane {
                    sum@[at - pos]
                } else {
                    before[at]
                },
        decreases vector_size - lane,
    {
        assert(output.len() == output@.len());
        output.set(pos + lane, sum[lane]);
        lane = lane + 1;
    }
    proof {
        if !has_padding {
            law_check_changes_nothing_inside(
                *input,
                weight@,
                bias_view(bias),
                *args,
                out_h,
                out_w,
                channels,
                vector_size as int,
                unit as int,
            );
        }
        assert forall|at: int| pos <= at < pos + vector_size implies sum@[at - pos]
            == output_element(
            *input,
            weight@,
            bias_view(bias),
            *args,
            has_padding,
            out_h,
            out_w,
            channels,
            at,
        ) by {
            lemma_lanes_share_pixel(pos as int, at - pos, channels, vector_size as int);
        }
    }
}

} // verus!
