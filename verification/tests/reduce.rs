use burn_kernels::engine::{FuseArg, FuseBlockConfig, FuseValue, GlobalArgs, LocalArgs};
use burn_kernels::layout::{extent_of, sort_outer_to_inner};
use burn_kernels::reduce::args::{
    view_shape, view_stride, FusedReduceArgs, FusedReduceInput, FusedReduceOutput,
    FusedReduceState, InitLocals, RefKind,
};
use burn_kernels::reduce::view::{MergedReduceView, ReduceView, ViewAxis};

fn axis(dims: Vec<usize>, stride_dim: usize) -> ViewAxis {
    ViewAxis { dims, stride_dim }
}

fn merge(shape: &[usize], strides: &[usize], reduced: &[usize]) -> Option<MergedReduceView> {
    ReduceView::merged(shape, strides, reduced)
}

fn locals(shape: Vec<usize>, strides: Vec<usize>, vector_size: usize) -> LocalArgs {
    LocalArgs {
        ref_shape: shape,
        ref_strides: strides,
        ref_vector_size: vector_size,
    }
}

#[test]
fn dims_are_listed_by_falling_stride() {
    assert_eq!(sort_outer_to_inner(&[0, 1, 2], &[1, 6, 2]), vec![1, 2, 0]);
    assert_eq!(sort_outer_to_inner(&[2, 1, 0], &[4, 4, 1]), vec![0, 1, 2]);
    assert_eq!(sort_outer_to_inner(&[1, 0, 1], &[1, 6]), vec![1, 1, 0]);
    assert_eq!(sort_outer_to_inner(&[], &[]), Vec::<usize>::new());
}

#[test]
fn extent_is_the_product_of_sizes() {
    assert_eq!(extent_of(&[2, 3, 5], &[0, 2]), 10);
    assert_eq!(extent_of(&[2, 3, 5], &[]), 1);
    assert_eq!(extent_of(&[usize::MAX, usize::MAX, 0], &[0, 1, 2]), 0);
}

#[test]
fn identity_lists_every_dim_on_its_own() {
    let view = ReduceView::identity(3);
    assert_eq!(
        view.axes,
        vec![axis(vec![0], 0), axis(vec![1], 1), axis(vec![2], 2)]
    );
    assert_eq!(ReduceView::identity(0), ReduceView::default());
}

#[test]
fn a_copy_of_a_view_is_equal() {
    let view = merge(&[2, 3, 4], &[12, 4, 1], &[1, 2]).unwrap().view;
    assert_eq!(view.clone(), view);
}

#[test]
fn inner_dims_merge() {
    let merged = merge(&[2, 3, 4], &[12, 4, 1], &[1, 2]).unwrap();
    assert_eq!(merged.view.axes, vec![axis(vec![0], 0), axis(vec![1, 2], 2)]);
    assert_eq!(merged.axis, 1);
    assert_eq!(merged.shape, vec![2, 12]);
    assert_eq!(merged.strides, vec![12, 1]);
}

#[test]
fn outer_dims_merge() {
    let merged = merge(&[2, 3, 4], &[12, 4, 1], &[0, 1]).unwrap();
    assert_eq!(merged.view.axes, vec![axis(vec![0, 1], 1), axis(vec![2], 2)]);
    assert_eq!(merged.axis, 0);
    assert_eq!(merged.shape, vec![6, 4]);
    assert_eq!(merged.strides, vec![4, 1]);
}

#[test]
fn all_dims_merge() {
    let merged = merge(&[2, 3, 4], &[12, 4, 1], &[0, 1, 2]).unwrap();
    assert_eq!(merged.view.axes, vec![axis(vec![0, 1, 2], 2)]);
    assert_eq!(merged.axis, 0);
    assert_eq!(merged.shape, vec![24]);
    assert_eq!(merged.strides, vec![1]);
}

#[test]
fn dims_with_a_kept_one_between_do_not_merge() {
    assert!(merge(&[2, 3, 4], &[12, 4, 1], &[0, 2]).is_none());
}

#[test]
fn a_kept_dim_of_size_one_breaks_no_run() {
    let merged = merge(&[2, 1, 4], &[4, 4, 1], &[0, 2]).unwrap();
    assert_eq!(merged.view.axes, vec![axis(vec![0, 2], 2), axis(vec![1], 1)]);
    assert_eq!(merged.axis, 0);
    assert_eq!(merged.shape, vec![8, 1]);
    assert_eq!(merged.strides, vec![1, 4]);
}

#[test]
fn dims_with_a_gap_between_do_not_merge() {
    assert!(merge(&[2, 3, 4], &[24, 8, 1], &[1, 2]).is_none());
    assert!(merge(&[2, 3, 4], &[24, 8, 1], &[0, 1]).is_some());
}

#[test]
fn a_span_past_the_machine_does_not_merge() {
    let half = usize::MAX / 2 + 1;
    assert!(merge(&[2, 2], &[half, half], &[0, 1]).is_none());
}

#[test]
fn a_permuted_layout_is_listed_outer_to_inner() {
    let merged = merge(&[3, 2, 5], &[1, 3, 6], &[0, 1]).unwrap();
    assert_eq!(merged.view.axes, vec![axis(vec![2], 2), axis(vec![1, 0], 0)]);
    assert_eq!(merged.axis, 1);
    assert_eq!(merged.shape, vec![5, 6]);
    assert_eq!(merged.strides, vec![6, 1]);
}

#[test]
fn dims_of_size_one_carry_the_first_reduced_stride() {
    let merged = merge(&[1, 4, 1], &[7, 1, 9], &[0, 2]).unwrap();
    assert_eq!(merged.view.axes, vec![axis(vec![2, 0], 0), axis(vec![1], 1)]);
    assert_eq!(merged.axis, 0);
    assert_eq!(merged.shape, vec![1, 4]);
    assert_eq!(merged.strides, vec![7, 1]);
}

#[test]
fn the_stride_is_that_of_the_innermost_sized_dim() {
    let merged = merge(&[3, 4, 1], &[8, 2, 1], &[0, 1, 2]).unwrap();
    assert_eq!(merged.view.axes, vec![axis(vec![0, 1, 2], 1)]);
    assert_eq!(merged.shape, vec![12]);
    assert_eq!(merged.strides, vec![2]);
}

#[test]
fn dims_outside_the_layout_do_not_merge() {
    assert!(merge(&[2, 3], &[3, 1], &[5]).is_none());
    assert!(merge(&[], &[], &[0]).is_none());
}

#[test]
fn one_dim_always_merges() {
    for dim in 0..3 {
        let merged = merge(&[3, 2, 5], &[1, 40, 6], &[dim]).unwrap();
        assert_eq!(
            merged.view.axes,
            vec![axis(vec![1], 1), axis(vec![2], 2), axis(vec![0], 0)]
        );
        assert_eq!(merged.view.axes[merged.axis].stride_dim, dim);
    }
}

#[test]
fn a_merged_view_counts_the_elements_of_the_reference() {
    let merged = merge(&[2, 3, 4, 5], &[60, 20, 5, 1], &[1, 2]).unwrap();
    assert_eq!(merged.shape.iter().product::<usize>(), 2 * 3 * 4 * 5);
    let mut dims: Vec<usize> = merged.view.axes.iter().flat_map(|a| a.dims.clone()).collect();
    dims.sort();
    assert_eq!(dims, vec![0, 1, 2, 3]);
}

#[test]
fn a_merged_axis_reaches_the_elements_in_place() {
    let strides = [60, 20, 5, 1];
    let merged = merge(&[2, 3, 4, 5], &strides, &[1, 2]).unwrap();
    let stride = merged.strides[merged.axis];
    let mut reached = 0;
    for a in 0..3 {
        for b in 0..4 {
            assert_eq!(a * strides[1] + b * strides[2], (a * 4 + b) * stride);
            reached += 1;
        }
    }
    assert_eq!(reached, merged.shape[merged.axis]);
}

#[test]
fn view_shape_and_stride_agree_with_merging() {
    let shape = vec![2, 3, 4];
    let strides = vec![12, 4, 1];
    let merged = merge(&shape, &strides, &[0, 1]).unwrap();
    let locals = locals(shape, strides, 1);
    for dim in 0..merged.shape.len() {
        assert_eq!(view_shape(&locals, &merged.view, dim), merged.shape[dim]);
        assert_eq!(view_stride(&locals, &merged.view, dim), merged.strides[dim]);
    }
    assert_eq!(view_shape(&locals, &merged.view, 2), 0);
    assert_eq!(view_stride(&locals, &merged.view, 2), 0);
}

#[test]
fn the_identity_view_is_the_reference() {
    let locals = locals(vec![2, 3], vec![7, 2], 1);
    let view = ReduceView::identity(2);
    assert_eq!(view_shape(&locals, &view, 0), 2);
    assert_eq!(view_shape(&locals, &view, 1), 3);
    assert_eq!(view_stride(&locals, &view, 0), 7);
    assert_eq!(view_stride(&locals, &view, 1), 2);
}

fn input() -> FusedReduceInput {
    FusedReduceInput {
        global: GlobalArgs { id: 1 },
        config: FuseBlockConfig { id: 2 },
        arg: FuseArg { id: 3 },
        view: merge(&[2, 3, 4], &[12, 4, 1], &[1, 2]).unwrap().view,
    }
}

fn output() -> FusedReduceOutput {
    FusedReduceOutput {
        global: GlobalArgs { id: 4 },
        config: FuseBlockConfig { id: 5 },
        arg: FuseArg { id: 6 },
        view: ReduceView::identity(3),
    }
}

fn state() -> FusedReduceState {
    FusedReduceArgs::init_state(
        &input(),
        &mut output(),
        GlobalArgs { id: 4 },
        &locals(vec![2, 3, 4], vec![12, 4, 1], 4),
        &locals(vec![2, 1, 1], vec![1, 1, 1], 2),
    )
}

#[test]
fn each_block_is_set_up_with_its_own_config() {
    let mut output = output();
    let read = FusedReduceArgs::init_on_read(&input(), &output);
    assert_eq!(
        read,
        InitLocals {
            inputs: GlobalArgs { id: 1 },
            outputs: GlobalArgs { id: 4 },
            config: FuseBlockConfig { id: 2 },
        }
    );
    let write = FusedReduceArgs::init_on_write(&input(), &mut output, GlobalArgs { id: 14 });
    assert_eq!(
        write,
        InitLocals {
            inputs: GlobalArgs { id: 1 },
            outputs: GlobalArgs { id: 14 },
            config: FuseBlockConfig { id: 5 },
        }
    );
    assert_eq!(output.global, GlobalArgs { id: 14 });
    assert_eq!(output.config, FuseBlockConfig { id: 5 });
}

#[test]
fn a_state_starts_from_the_outputs_that_set_up_left() {
    let mut output = output();
    let state = FusedReduceArgs::init_state(
        &input(),
        &mut output,
        GlobalArgs { id: 24 },
        &locals(vec![2], vec![1], 1),
        &locals(vec![2], vec![1], 1),
    );
    assert_eq!(state.outputs, GlobalArgs { id: 24 });
    assert_eq!(output.global, GlobalArgs { id: 24 });
    assert_eq!(output.arg, FuseArg { id: 6 });
    assert_eq!(output.view, ReduceView::identity(3));
}

#[test]
fn nothing_is_read_of_the_output() {
    assert_eq!(FusedReduceArgs::read_output(&state(), 0), None);
    assert_eq!(FusedReduceArgs::read_output(&state(), usize::MAX), None);
}

#[test]
fn a_state_takes_each_part_from_its_side() {
    let state = state().clone();
    assert_eq!(state.inputs, GlobalArgs { id: 1 });
    assert_eq!(state.outputs, GlobalArgs { id: 4 });
    assert_eq!(state.config_on_read, FuseBlockConfig { id: 2 });
    assert_eq!(state.config_on_write, FuseBlockConfig { id: 5 });
    assert_eq!(state.input, FuseArg { id: 3 });
    assert_eq!(state.out, FuseArg { id: 6 });
    assert_eq!(state.view, input().view);
    assert_eq!(state.locals_on_read.ref_shape, vec![2, 3, 4]);
    assert_eq!(state.locals_on_write.ref_shape, vec![2, 1, 1]);
}

#[test]
fn reading_asks_for_the_input_through_the_block_on_read() {
    let asked = FusedReduceArgs::read_input(&state(), 7);
    assert_eq!(asked.inputs, GlobalArgs { id: 1 });
    assert_eq!(asked.outputs, GlobalArgs { id: 4 });
    assert_eq!(asked.locals.ref_strides, vec![12, 4, 1]);
    assert_eq!(asked.index, 7);
    assert_eq!(asked.args.to_args(), vec![FuseArg { id: 3 }]);
    assert_eq!(asked.config, FuseBlockConfig { id: 2 });
    let values = [FuseValue { id: 8 }, FuseValue { id: 9 }];
    assert_eq!(FusedReduceArgs::read_value(&values), FuseValue { id: 8 });
}

#[test]
fn writing_hands_the_value_to_the_block_on_write() {
    let mut state = state();
    let asked = FusedReduceArgs::write_output(&state, 9, FuseValue { id: 11 });
    assert_eq!(asked.inputs, GlobalArgs { id: 1 });
    assert_eq!(asked.outputs, GlobalArgs { id: 4 });
    assert_eq!(asked.locals.ref_shape, vec![2, 1, 1]);
    assert_eq!(asked.index, 9);
    assert_eq!(asked.values.find(6usize), 11);
    assert_eq!(asked.args, vec![FuseArg { id: 6 }]);
    assert_eq!(asked.config, FuseBlockConfig { id: 5 });

    FusedReduceArgs::after_write(
        &mut state,
        GlobalArgs { id: 12 },
        locals(vec![9], vec![1], 1),
    );
    assert_eq!(state.outputs, GlobalArgs { id: 12 });
    assert_eq!(state.locals_on_write.ref_shape, vec![9]);
    assert_eq!(state.locals_on_read.ref_shape, vec![2, 3, 4]);
    assert_eq!(state.inputs, GlobalArgs { id: 1 });
}

#[test]
fn lengths_are_asked_of_their_side() {
    let state = state();
    assert_eq!(FusedReduceArgs::len_input(&state).kind, RefKind::Len);
    assert_eq!(FusedReduceArgs::len_output(&state).kind, RefKind::Len);
    assert_eq!(FusedReduceArgs::buffer_len_input(&state).kind, RefKind::BufferLen);
    assert_eq!(FusedReduceArgs::buffer_len_output(&state).kind, RefKind::BufferLen);
    for asked in [
        FusedReduceArgs::len_input(&state),
        FusedReduceArgs::buffer_len_input(&state),
    ] {
        assert_eq!(asked.locals.ref_shape, vec![2, 3, 4]);
        assert_eq!(asked.config, FuseBlockConfig { id: 2 });
        assert_eq!(asked.inputs, GlobalArgs { id: 1 });
        assert_eq!(asked.outputs, GlobalArgs { id: 4 });
    }
    for asked in [
        FusedReduceArgs::len_output(&state),
        FusedReduceArgs::buffer_len_output(&state),
    ] {
        assert_eq!(asked.locals.ref_shape, vec![2, 1, 1]);
        assert_eq!(asked.config, FuseBlockConfig { id: 5 });
        assert_eq!(asked.inputs, GlobalArgs { id: 1 });
        assert_eq!(asked.outputs, GlobalArgs { id: 4 });
    }
}

#[test]
fn shapes_and_strides_are_seen_through_the_view_of_the_input() {
    let state = state();
    assert_eq!(FusedReduceArgs::rank_input(&state), 2);
    assert_eq!(FusedReduceArgs::rank_output(&state), 2);
    assert_eq!(FusedReduceArgs::shape_input(&state, 0), 2);
    assert_eq!(FusedReduceArgs::shape_input(&state, 1), 12);
    assert_eq!(FusedReduceArgs::shape_output(&state, 0), 2);
    assert_eq!(FusedReduceArgs::shape_output(&state, 1), 1);
    assert_eq!(FusedReduceArgs::stride_input(&state, 0), 12);
    assert_eq!(FusedReduceArgs::stride_input(&state, 1), 1);
    assert_eq!(FusedReduceArgs::stride_output(&state, 0), 1);
    assert_eq!(FusedReduceArgs::stride_output(&state, 1), 1);
    assert_eq!(FusedReduceArgs::vector_size_input(&state), 4);
    assert_eq!(FusedReduceArgs::vector_size_output(&state), 2);
}
