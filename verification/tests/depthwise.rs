use burn_backend::DType;
use burn_kernels::conv::{should_check_spatial_bounds, ConvOptions};
use burn_kernels::depthwise::kernel::depthwise_conv2d_kernel;
use burn_kernels::depthwise::launch::{conv_depthwise, is_depthwise, weight_by_tap, DepthwisePlan};
use burn_kernels::depthwise::model::DepthwiseArgs;
use burn_kernels::depthwise::positions::decompose_linear;
use burn_kernels::element::Element;
use burn_kernels::tensor::CubeTensor;
use cubecl::device::{CpuDevice, CudaDevice};
use cubecl::Device;

fn strides_of(shape: &[usize]) -> Vec<usize> {
    let mut strides = vec![1; shape.len()];
    for i in (0..shape.len().saturating_sub(1)).rev() {
        strides[i] = strides[i + 1] * shape[i + 1];
    }
    strides
}

fn tensor<E: Copy>(shape: &[usize], f: impl Fn(usize) -> E) -> CubeTensor<E> {
    let len: usize = shape.iter().product();
    CubeTensor {
        shape: shape.to_vec(),
        strides: strides_of(shape),
        data: (0..len).map(f).collect(),
        dtype: DType::I32,
        device: Device::Cpu(CpuDevice),
    }
}

fn options(
    stride: [usize; 2],
    padding: [(usize, usize); 2],
    dilation: [usize; 2],
    groups: usize,
) -> ConvOptions<2> {
    ConvOptions {
        stride,
        padding,
        dilation,
        groups,
    }
}

fn at(t: &CubeTensor<i32>, index: [usize; 4]) -> i32 {
    let offset: usize = (0..4).map(|i| index[i] * t.strides[i]).sum();
    t.data[offset]
}

/// The sum over the window, straight from the definition.
fn expected(
    input: &CubeTensor<i32>,
    weight: &CubeTensor<i32>,
    bias: Option<&[i32]>,
    o: &ConvOptions<2>,
    [b, y, x, c]: [usize; 4],
) -> i32 {
    let mut sum = bias.map(|bias| bias[c]).unwrap_or(0);
    for ky in 0..weight.shape[1] {
        for kx in 0..weight.shape[2] {
            let iy = (y * o.stride[0] + ky * o.dilation[0]) as i64 - o.padding[0].0 as i64;
            let ix = (x * o.stride[1] + kx * o.dilation[1]) as i64 - o.padding[1].0 as i64;
            let inside = iy >= 0
                && ix >= 0
                && iy < input.shape[1] as i64
                && ix < input.shape[2] as i64;
            if inside {
                let value = at(input, [b, iy as usize, ix as usize, c]);
                sum += value * at(weight, [c, ky, kx, 0]);
            }
        }
    }
    sum
}

fn check(
    input_shape: [usize; 4],
    kernel: [usize; 2],
    o: impl Fn() -> ConvOptions<2>,
    bias: Option<Vec<i32>>,
    out: [usize; 2],
    vector_sizes: &[usize],
) {
    let channels = input_shape[3];
    let make_input = || tensor(&input_shape, |i| (i as i32 * 7) % 23 - 11);
    let make_weight = || {
        tensor(&[channels, kernel[0], kernel[1], 1], |i| {
            (i as i32 * 5) % 13 - 6
        })
    };
    for vector_size in vector_sizes {
        let bias_tensor = bias.as_ref().map(|values| CubeTensor {
            shape: vec![channels],
            strides: vec![1],
            data: values.clone(),
            dtype: DType::I32,
            device: Device::Cpu(CpuDevice),
        });
        let output = conv_depthwise(
            make_input(),
            make_weight(),
            bias_tensor,
            o(),
            *vector_size,
            8,
        )
        .unwrap();
        let shape = vec![input_shape[0], out[0], out[1], channels];
        assert_eq!(output.shape, shape);
        assert_eq!(output.strides, strides_of(&shape));
        assert_eq!(output.data.len(), shape.iter().product::<usize>());
        for b in 0..shape[0] {
            for y in 0..shape[1] {
                for x in 0..shape[2] {
                    for c in 0..shape[3] {
                        let index = [b, y, x, c];
                        assert_eq!(
                            at(&output, index),
                            expected(&make_input(), &make_weight(), bias.as_deref(), &o(), index)
                        );
                    }
                }
            }
        }
    }
}

#[test]
fn a_convolution_by_hand() {
    let output = conv_depthwise(
        tensor(&[1, 1, 3, 2], |i| i as i32 + 1),
        tensor(&[2, 1, 2, 1], |i| [1, 10, 100, 1000][i]),
        Some(tensor(&[2], |i| [5, 7][i])),
        options([1, 1], [(0, 0), (0, 0)], [1, 1], 2),
        2,
        4,
    )
    .unwrap();
    assert_eq!(output.shape, vec![1, 1, 2, 2]);
    assert_eq!(output.data, vec![36, 4207, 58, 6407]);
}

#[test]
fn unpadded_windows() {
    let o = || options([1, 1], [(0, 0), (0, 0)], [1, 1], 4);
    check([2, 5, 4, 4], [3, 2], o, None, [3, 3], &[1, 2, 4]);
}

#[test]
fn padded_windows_with_bias() {
    let o = || options([1, 1], [(1, 1), (1, 1)], [1, 1], 4);
    check([1, 4, 4, 4], [3, 3], o, Some(vec![1, -2, 3, -4]), [4, 4], &[1, 2, 4]);
}

#[test]
fn one_sided_padding_stride_and_dilation() {
    let o = || options([2, 3], [(0, 2), (3, 0)], [2, 1], 2);
    check([2, 6, 7, 2], [2, 4], o, Some(vec![100, 200]), [3, 3], &[1, 2]);
}

#[test]
fn windows_wider_than_the_input() {
    let o = || options([1, 1], [(2, 2), (2, 2)], [1, 1], 1);
    check([1, 1, 1, 1], [5, 5], o, None, [1, 1], &[1]);
}

#[test]
fn an_empty_batch_gives_an_empty_output() {
    let o = || options([1, 1], [(0, 0), (0, 0)], [1, 1], 2);
    check([0, 3, 3, 2], [2, 2], o, None, [2, 2], &[2]);
}

#[test]
fn no_channels_give_an_empty_output() {
    let o = || options([1, 1], [(0, 0), (0, 0)], [1, 1], 0);
    check([3, 3, 3, 0], [2, 2], o, None, [2, 2], &[1]);
}

#[test]
fn a_strided_input_is_read_in_place() {
    let mut data = vec![0i32; 64];
    for (i, value) in data.iter_mut().enumerate() {
        *value = i as i32;
    }
    let input = CubeTensor {
        shape: vec![1, 2, 2, 2],
        strides: vec![64, 16, 4, 1],
        data,
        dtype: DType::I32,
        device: Device::Cpu(CpuDevice),
    };
    let output = conv_depthwise(
        input,
        tensor(&[2, 1, 1, 1], |i| [1, 100][i]),
        None,
        options([1, 1], [(0, 0), (0, 0)], [1, 1], 2),
        2,
        2,
    )
    .unwrap();
    assert_eq!(output.data, vec![0, 100, 4, 500, 16, 1700, 20, 2100]);
}

#[test]
fn channels_stay_apart() {
    let run = |other: i32| {
        conv_depthwise(
            tensor(&[1, 2, 2, 2], |i| if i % 2 == 0 { i as i32 } else { other }),
            tensor(&[2, 2, 2, 1], |i| if i < 4 { 3 } else { other }),
            None,
            options([1, 1], [(1, 1), (1, 1)], [1, 1], 2),
            2,
            2,
        )
        .unwrap()
    };
    let (a, b) = (run(5), run(-9));
    for i in (0..a.data.len()).step_by(2) {
        assert_eq!(a.data[i], b.data[i]);
    }
    assert_ne!(a.data[1], b.data[1]);
}

#[test]
fn integers_wrap_around() {
    let run = conv_depthwise(
        tensor(&[1, 1, 1, 1], |_| u32::MAX),
        tensor(&[1, 1, 1, 1], |_| 2u32),
        Some(tensor(&[1], |_| 3u32)),
        options([1, 1], [(0, 0), (0, 0)], [1, 1], 1),
        1,
        1,
    )
    .unwrap();
    assert_eq!(run.data, vec![1]);
    assert_eq!(i32::zero(), 0);
    assert_eq!(i32::MAX.sum(1), i32::MIN);
    assert_eq!(i64::MAX.product(2), -2);
    assert_eq!(u64::MAX.sum(2), 1);
}

#[derive(Clone, Copy, Debug, PartialEq)]
struct Real(f32);

impl Element for Real {
    fn nought() -> Real {
        Real(0.0)
    }

    fn plus(self, other: Real) -> Real {
        Real(self.0 + other.0)
    }

    fn times(self, other: Real) -> Real {
        Real(self.0 * other.0)
    }

    fn zero() -> Real {
        Real::nought()
    }

    fn sum(self, other: Real) -> Real {
        self.plus(other)
    }

    fn product(self, other: Real) -> Real {
        self.times(other)
    }
}

#[test]
fn reals_convolve_too() {
    let output = conv_depthwise(
        tensor(&[1, 1, 2, 1], |i| Real(i as f32 + 0.5)),
        tensor(&[1, 1, 2, 1], |i| Real([2.0, 4.0][i])),
        None,
        options([1, 1], [(0, 0), (0, 0)], [1, 1], 1),
        1,
        1,
    )
    .unwrap();
    assert_eq!(output.data, vec![Real(7.0)]);
}

#[test]
fn depthwise_means_one_channel_in_and_out_of_each_group() {
    let input = tensor(&[1, 4, 4, 3], |_| 0i32);
    let weight = tensor(&[3, 2, 2, 1], |_| 0i32);
    let o = |groups| options([1, 1], [(0, 0), (0, 0)], [1, 1], groups);
    assert!(is_depthwise(&input, &weight, &o(3)));
    assert!(!is_depthwise(&input, &weight, &o(1)));
    assert!(!is_depthwise(&input, &tensor(&[6, 2, 2, 1], |_| 0i32), &o(3)));
    assert!(!is_depthwise(&input, &tensor(&[3, 2, 2, 3], |_| 0i32), &o(3)));
    let line = ConvOptions::<1> {
        stride: [1],
        padding: [(0, 0)],
        dilation: [1],
        groups: 3,
    };
    let input = tensor(&[1, 4, 3], |_| 0i32);
    let weight = tensor(&[3, 2, 1], |_| 0i32);
    assert!(!is_depthwise(&input, &weight, &line));
}

#[test]
fn weights_are_laid_out_tap_by_tap() {
    let weight = tensor(&[3, 2, 2, 1], |i| i as i32);
    let by_tap = weight_by_tap(&weight);
    assert_eq!(by_tap, vec![0, 4, 8, 1, 5, 9, 2, 6, 10, 3, 7, 11]);
}

#[test]
fn a_plan_follows_from_shapes_and_options() {
    let plan = DepthwisePlan::new(
        &vec![2, 6, 7, 8],
        &vec![8, 2, 4, 1],
        &options([2, 3], [(0, 2), (3, 0)], [2, 1], 8),
        DType::BF16,
        &Device::Cuda(CudaDevice::new(3)),
        4,
        2,
    );
    assert_eq!(plan.shape, vec![2, 3, 3, 8]);
    assert_eq!(plan.dtype, DType::BF16);
    assert_eq!(plan.device, Device::Cuda(CudaDevice::new(3)));
    assert_eq!(plan.shape_out, vec![3, 3]);
    assert_eq!(plan.shape_out_c, 8);
    assert!(plan.has_padding);
    assert_eq!(plan.vector_size, 2);
    assert_eq!(plan.working_units, 72);
    assert_eq!(
        plan.args,
        DepthwiseArgs {
            stride_h: 2,
            stride_w: 3,
            dilation_h: 2,
            dilation_w: 1,
            padding_h: 0,
            padding_w: 3,
            in_h: 6,
            in_w: 7,
            kernel_h: 2,
            kernel_w: 4,
        }
    );
}

#[test]
fn bounds_are_checked_where_a_tap_can_fall_outside() {
    let o = |padding| options([1, 2], padding, [1, 1], 1);
    let check = |out: [usize; 2], o: &ConvOptions<2>| {
        should_check_spatial_bounds(&[4, 5], &[2, 2], &out, o)
    };
    assert!(!check([3, 2], &o([(0, 0), (0, 0)])));
    assert!(check([4, 2], &o([(1, 0), (0, 0)])));
    assert!(check([4, 2], &o([(0, 1), (0, 0)])));
    assert!(check([3, 3], &o([(0, 0), (0, 1)])));
    // The last column's window stops short of the padding.
    let short = options([1, 3], [(0, 0), (0, 1)], [1, 1], 1);
    assert!(!check([3, 2], &short));
}

#[test]
fn positions_decompose_with_the_last_dim_fastest() {
    assert_eq!(decompose_linear(0, &[3, 4]), (0, vec![0, 0]));
    assert_eq!(decompose_linear(29, &[3, 4]), (2, vec![1, 1]));
    assert_eq!(decompose_linear(5, &[]), (5, vec![]));
}

#[test]
fn a_unit_writes_its_vector_and_nothing_else() {
    let input = tensor(&[1, 1, 2, 4], |i| i as i32 + 1);
    let args = DepthwiseArgs {
        stride_h: 1,
        stride_w: 1,
        dilation_h: 1,
        dilation_w: 1,
        padding_h: 0,
        padding_w: 0,
        in_h: 1,
        in_w: 2,
        kernel_h: 1,
        kernel_w: 1,
    };
    let weight = [1, 10, 100, 1000];
    let run = |unit: usize, has_padding: bool| {
        let mut output = vec![-1; 8];
        depthwise_conv2d_kernel(
            unit,
            &input,
            &weight,
            None,
            &mut output,
            &args,
            &[1, 2],
            4,
            has_padding,
            2,
        );
        output
    };
    for has_padding in [false, true] {
        assert_eq!(run(0, has_padding), vec![1, 20, -1, -1, -1, -1, -1, -1]);
        assert_eq!(run(3, has_padding), vec![-1, -1, -1, -1, -1, -1, 700, 8000]);
        assert_eq!(run(4, has_padding), vec![-1; 8]);
        assert_eq!(run(usize::MAX, has_padding), vec![-1; 8]);
    }
}

/// A convolution of `groups` groups, straight from its definition: an output
/// channel sums over the input channels of its group.
fn grouped(
    input: &CubeTensor<i32>,
    weight: &CubeTensor<i32>,
    o: &ConvOptions<2>,
    [b, y, x, c]: [usize; 4],
) -> i32 {
    let per_group = weight.shape[3];
    let group = c / (weight.shape[0] / o.groups);
    let mut sum = 0;
    for ky in 0..weight.shape[1] {
        for kx in 0..weight.shape[2] {
            for i in 0..per_group {
                let value = at(
                    input,
                    [
                        b,
                        y * o.stride[0] + ky * o.dilation[0],
                        x * o.stride[1] + kx * o.dilation[1],
                        group * per_group + i,
                    ],
                );
                sum += value * at(weight, [c, ky, kx, i]);
            }
        }
    }
    sum
}

#[test]
fn groups_of_one_channel_convolve_depthwise() {
    let make_input = || tensor(&[2, 4, 5, 3], |i| (i as i32 * 11) % 17 - 8);
    let make_weight = || tensor(&[3, 2, 2, 1], |i| i as i32 - 5);
    let o = || options([1, 2], [(0, 0), (0, 0)], [2, 1], 3);
    assert!(is_depthwise(&make_input(), &make_weight(), &o()));
    let output = conv_depthwise(make_input(), make_weight(), None, o(), 3, 3).unwrap();
    assert_eq!(output.shape, vec![2, 2, 2, 3]);
    for b in 0..2 {
        for y in 0..2 {
            for x in 0..2 {
                for c in 0..3 {
                    let index = [b, y, x, c];
                    let sum = grouped(&make_input(), &make_weight(), &o(), index);
                    assert_eq!(at(&output, index), sum);
                }
            }
        }
    }
}

#[test]
fn units_fill_the_output_in_any_order() {
    let make_input = || tensor(&[2, 3, 3, 4], |i| (i as i32 * 3) % 19 - 9);
    let make_weight = || tensor(&[4, 2, 2, 1], |i| i as i32 + 1);
    let o = || options([1, 1], [(1, 0), (0, 1)], [1, 1], 4);
    let whole = conv_depthwise(make_input(), make_weight(), None, o(), 2, 4).unwrap();
    let plan = DepthwisePlan::new(
        &make_input().shape,
        &make_weight().shape,
        &o(),
        DType::I32,
        &Device::Cpu(CpuDevice),
        2,
        4,
    );
    let by_tap = weight_by_tap(&make_weight());
    assert_eq!(plan.working_units * plan.vector_size, whole.data.len());
    let mut output = vec![i32::MIN; whole.data.len()];
    // Backwards, and one unit past the last.
    for unit in (0..=plan.working_units).rev() {
        depthwise_conv2d_kernel(
            unit,
            &make_input(),
            &by_tap,
            None,
            &mut output,
            &plan.args,
            &plan.shape_out,
            plan.shape_out_c,
            plan.has_padding,
            plan.vector_size,
        );
    }
    assert_eq!(output, whole.data);
}

#[test]
fn the_output_is_stored_as_the_input_and_where_it_is() {
    let on = |shape: &[usize], dtype: DType, device: Device| {
        let mut made = tensor(shape, |i| i as i32);
        made.dtype = dtype;
        made.device = device;
        made
    };
    let output = conv_depthwise(
        on(&[1, 2, 2, 1], DType::F16, Device::Cuda(CudaDevice::new(1))),
        on(&[1, 1, 1, 1], DType::F32, Device::Cuda(CudaDevice::new(2))),
        Some(on(&[1], DType::F64, Device::Cpu(CpuDevice))),
        options([1, 1], [(0, 0), (0, 0)], [1, 1], 1),
        1,
        1,
    )
    .unwrap();
    assert_eq!(output.dtype, DType::F16);
    assert_eq!(output.device, Device::Cuda(CudaDevice::new(1)));
}

#[test]
fn a_single_channel_may_have_any_stride() {
    let input = || CubeTensor {
        shape: vec![1, 2, 2, 1],
        strides: vec![8, 4, 2, 7],
        ..tensor(&[8], |i| i as i32)
    };
    let weight = tensor(&[1, 1, 2, 1], |i| [1, 10][i]);
    let o = options([1, 1], [(0, 0), (0, 0)], [1, 1], 1);
    let output = conv_depthwise(input(), weight, None, o, 1, 1).unwrap();
    assert_eq!(output.shape, vec![1, 2, 1, 1]);
    assert_eq!(output.data, vec![20, 64]);
}

#[test]
fn a_unit_inside_need_not_check_its_taps() {
    // One row of five pixels, padded by one on each side: only the first and
    // the last window reach outside.
    let input = tensor(&[1, 1, 5, 2], |i| i as i32 + 1);
    let args = DepthwiseArgs {
        stride_h: 1,
        stride_w: 1,
        dilation_h: 1,
        dilation_w: 1,
        padding_h: 0,
        padding_w: 1,
        in_h: 1,
        in_w: 5,
        kernel_h: 1,
        kernel_w: 3,
    };
    let weight = [1, 2, 3, 4, 5, 6];
    let run = |unit: usize, has_padding: bool| {
        let mut output = vec![0; 10];
        depthwise_conv2d_kernel(
            unit,
            &input,
            &weight,
            None,
            &mut output,
            &args,
            &[1, 5],
            2,
            has_padding,
            2,
        );
        output
    };
    for unit in 1..4 {
        assert_eq!(run(unit, false), run(unit, true));
    }
    assert_eq!(run(1, false), vec![0, 0, 35, 56, 0, 0, 0, 0, 0, 0]);
    assert_eq!(run(0, true), vec![18, 32, 0, 0, 0, 0, 0, 0, 0, 0]);
}
