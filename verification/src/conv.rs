//! Convolution options, and the sizes and bounds that follow from them.

use vstd::prelude::*;

verus! {

/// How a convolution window moves over the input, for each spatial dim.
#[derive(Debug)]
pub struct ConvOptions<const N: usize> {
    /// The step between windows (non-zero).
    pub stride: [usize; N],
    /// Padding as `(begin, end)` pairs.
    pub padding: [(usize, usize); N],
    /// The step between the taps of a window (non-zero).
    pub dilation: [usize; N],
    /// The number of groups of channels (non-zero).
    pub groups: usize,
}

/// Whether one window at least fits the padded input, and its size is one that
/// `usize` holds.
pub open spec fn window_fits(
    kernel_size: int,
    stride: int,
    padding: (int, int),
    dilation: int,
    size_in: int,
) -> bool {
    &&& kernel_size >= 1
    &&& stride >= 1
    &&& size_in + padding.0 + padding.1 <= usize::MAX
    &&& dilation * (kernel_size - 1) + 1 <= size_in + padding.0 + padding.1
}

/// How many windows fit the padded input.
pub open spec fn window_count(
    kernel_size: int,
    stride: int,
    padding: (int, int),
    dilation: int,
    size_in: int,
) -> int {
    (size_in + padding.0 + padding.1 - dilation * (kernel_size - 1) - 1) / stride + 1
}

pub open spec fn window_fits_dim(
    kernel_size: Seq<usize>,
    stride: Seq<usize>,
    padding: Seq<(usize, usize)>,
    dilation: Seq<usize>,
    size_in: Seq<usize>,
    dim: int,
) -> bool {
    window_fits(
        kernel_size[dim] as int,
        stride[dim] as int,
        (padding[dim].0 as int, padding[dim].1 as int),
        dilation[dim] as int,
        size_in[dim] as int,
    )
}

pub open spec fn window_count_dim(
    kernel_size: Seq<usize>,
    stride: Seq<usize>,
    padding: Seq<(usize, usize)>,
    dilation: Seq<usize>,
    size_in: Seq<usize>,
    dim: int,
) -> int {
    window_count(
        kernel_size[dim] as int,
        stride[dim] as int,
        (padding[dim].0 as int, padding[dim].1 as int),
        dilation[dim] as int,
        size_in[dim] as int,
    )
}

/// `calculate_conv_output_sizes` gives, for each dim of the input, how many
/// windows fit it once it is padded. It panics where a list is shorter than
/// the input's, where a kernel is empty or a stride zero, and where no window
/// fits.
pub assume_specification[ burn_backend::ops::conv::calculate_conv_output_sizes ](
    kernel_size: &[usize],
    stride: &[usize],
    padding: &[(usize, usize)],
    dilation: &[usize],
    size_in: &[usize],
) -> (sizes: Vec<usize>)
    requires
        size_in@.len() <= kernel_size@.len(),
        size_in@.len() <= stride@.len(),
        size_in@.len() <= padding@.len(),
        size_in@.len() <= dilation@.len(),
        forall|dim: int|
            0 <= dim < size_in@.len() ==> #[trigger] window_fits_dim(
                kernel_size@,
                stride@,
                padding@,
                dilation@,
                size_in@,
                dim,
            ),
    ensures
        sizes@.len() == size_in@.len(),
        forall|dim: int|
            0 <= dim < size_in@.len() ==> #[trigger] sizes@[dim] == window_count_dim(
                kernel_size@,
                stride@,
                padding@,
                dilation@,
                size_in@,
                dim,
            ),
;

/// Whether some tap of some window along one dim falls outside the input: the
/// first lies before it where there is padding, or the last lies behind it.
pub open spec fn reaches_outside(
    size_in: int,
    kernel_size: int,
    size_out: int,
    stride: int,
    padding: int,
    dilation: int,
) -> bool {
    padding > 0 || (size_out - 1) * stride + (kernel_size - 1) * dilation >= size_in
}

pub open spec fn reaches_outside_dim<const N: usize>(
    in_shape: Seq<usize>,
    kernel_shape: Seq<usize>,
    out_size: Seq<usize>,
    options: ConvOptions<N>,
    dim: int,
) -> bool {
    reaches_outside(
        in_shape[dim] as int,
        kernel_shape[dim] as int,
        out_size[dim] as int,
        options.stride@[dim] as int,
        options.padding@[dim].0 as int,
        options.dilation@[dim] as int,
    )
}

/// Whether no tap of any window falls outside the input, along any dim.
pub open spec fn stays_inside<const N: usize>(
    in_shape: Seq<usize>,
    kernel_shape: Seq<usize>,
    out_size: Seq<usize>,
    options: ConvOptions<N>,
) -> bool {
    forall|dim: int|
        0 <= dim < in_shape.len() ==> !#[trigger] reaches_outside_dim(
            in_shape,
            kernel_shape,
            out_size,
            options,
            dim,
        )
}

/// Each tap of each window lies inside the padded input.
pub proof fn lemma_windows_stay_inside(
    kernel_size: int,
    stride: int,
    padding: (int, int),
    dilation: int,
    size_in: int,
)
    requires
        window_fits(kernel_size, stride, padding, dilation, size_in),
        dilation >= 0,
    ensures
        window_count(kernel_size, stride, padding, dilation, size_in) >= 1,
        (window_count(kernel_size, stride, padding, dilation, size_in) - 1) * stride + (kernel_size
            - 1) * dilation + 1 <= size_in + padding.0 + padding.1,
        0 <= (window_count(kernel_size, stride, padding, dilation, size_in) - 1) * stride,
        0 <= (kernel_size - 1) * dilation,
{
    let room = size_in + padding.0 + padding.1 - dilation * (kernel_size - 1) - 1;
    assert(dilation * (kernel_size - 1) == (kernel_size - 1) * dilation) by (nonlinear_arith);
    assert((kernel_size - 1) * dilation >= 0) by (nonlinear_arith)
        requires
            kernel_size >= 1,
            dilation >= 0,
    ;
    assert(0 <= (room / stride) * stride <= room) by (nonlinear_arith)
        requires
            room >= 0,
            stride >= 1,
    ;
    assert(room / stride >= 0) by (nonlinear_arith)
        requires
            room >= 0,
            stride >= 1,
    ;
}

/// Whether a kernel has to check each tap against the bounds of the input:
/// where none falls outside, it need not.
pub fn should_check_spatial_bounds<const N: usize>(
    in_shape: &[usize],
    kernel_shape: &[usize],
    out_size: &[usize],
    options: &ConvOptions<N>,
) -> (check: bool)
    requires
        in_shape@.len() <= N,
        in_shape@.len() == kernel_shape@.len(),
        in_shape@.len() == out_size@.len(),
        forall|dim: int|
            0 <= dim < in_shape@.len() ==> #[trigger] window_fits_dim(
                kernel_shape@,
                options.stride@,
                options.padding@,
                options.dilation@,
                in_shape@,
                dim,
            ) && out_size@[dim] == window_count_dim(
                kernel_shape@,
                options.stride@,
                options.padding@,
                options.dilation@,
                in_shape@,
                dim,
            ),
    ensures
        check == exists|dim: int|
            0 <= dim < in_shape@.len() && #[trigger] reaches_outside_dim(
                in_shape@,
                kernel_shape@,
                out_size@,
                *options,
                dim,
            ),
        check == !stays_inside(in_shape@, kernel_shape@, out_size@, *options),
{
    let mut dim: usize = 0;
    while dim < in_shape.len()
        invariant
            dim <= in_shape@.len(),
            in_shape@.len() <= N,
            in_shape@.len() == kernel_shape@.len(),
            in_shape@.len() == out_size@.len(),
            forall|d: int|
                0 <= d < in_shape@.len() ==> #[trigger] window_fits_dim(
                    kernel_shape@,
                    options.stride@,
                    options.padding@,
                    options.dilation@,
                    in_shape@,
                    d,
                ) && out_size@[d] == window_count_dim(
                    kernel_shape@,
                    options.stride@,
                    options.padding@,
                    options.dilation@,
                    in_shape@,
                    d,
                ),
            forall|d: int|
                0 <= d < dim ==> !#[trigger] reaches_outside_dim(
                    in_shape@,
                    kernel_shape@,
                    out_size@,
                    *options,
                    d,
                ),
        decreases in_shape@.len() - dim,
    {
        proof {
            assert(window_fits_dim(
                kernel_shape@,
                options.stride@,
                options.padding@,
                options.dilation@,
                in_shape@,
                dim as int,
            ));
            lemma_windows_stay_inside(
                kernel_shape@[dim as int] as int,
                options.stride@[dim as int] as int,
                (
                    options.padding@[dim as int].0 as int,
                    options.padding@[dim as int].1 as int,
                ),
                options.dilation@[dim as int] as int,
                in_shape@[dim as int] as int,
            );
        }
        let last: usize = (out_size[dim] - 1) * options.stride[dim] + (kernel_shape[dim] - 1)
            * options.dilation[dim];
        if options.padding[dim].0 > 0 || last >= in_shape[dim] {
            assert(reaches_outside_dim(in_shape@, kernel_shape@, out_size@, *options, dim as int));
            return true;
        }
        dim = dim + 1;
    }
    false
}

} // verus!
