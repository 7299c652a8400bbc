//! What a reduction asks of the engine from its start to its end, and what it
//! answers the routines.

use crate::engine::{
    registry_items, sequence_items, ArgSequence, FuseArg, FuseValue, GlobalArgs, LocalArgs,
};
use crate::reduce::args::{
    view_shape, view_stride, FuseOnRead, FuseOnWrite, FusedReduceArgs, FusedReduceInput,
    FusedReduceOutput, FusedReduceState, InitLocals, RefKind, RefQuery,
};
use crate::reduce::results::{
    law_merged_view_keeps_the_other_dims, lemma_axis_steps, lemma_extent_is_product,
    lemma_total_is_fold,
};
use crate::reduce::view::{MergedReduceView, ReduceView, ViewAxis};
use vstd::prelude::*;

verus! {

/// Each block is set up between the two sides' global arguments with its own
/// side's configuration, and what the engine leaves of the outputs is what the
/// output goes on with.
pub proof fn law_blocks_are_set_up_one_after_the_other(
    input: &FusedReduceInput,
    output: &mut FusedReduceOutput,
    outputs: GlobalArgs,
    on_read: InitLocals,
    on_write: InitLocals,
)
    requires
        call_ensures(FusedReduceArgs::init_on_read, (input, &*output), on_read),
        call_ensures(FusedReduceArgs::init_on_write, (input, output, outputs), on_write),
    ensures
        on_read.inputs == input.global,
        on_read.outputs == old(output).global,
        on_read.config == input.config,
        on_write.inputs == input.global,
        on_write.outputs == outputs,
        on_write.config == old(output).config,
        final(output).global == outputs,
        final(output).config == old(output).config,
        final(output).arg == old(output).arg,
        final(output).view == old(output).view,
{
}

/// A reduction starts with each side's arguments, configuration and locals on
/// that side, with the outputs as set-up left them, and seen through the
/// input's view.
pub proof fn law_reduction_starts_from_both_sides(
    input: &FusedReduceInput,
    output: &mut FusedReduceOutput,
    outputs: GlobalArgs,
    locals_read: &LocalArgs,
    locals_write: &LocalArgs,
    state: FusedReduceState,
    axis: int,
)
    requires
        call_ensures(
            FusedReduceArgs::init_state,
            (input, output, outputs, locals_read, locals_write),
            state,
        ),
    ensures
        state.inputs == input.global,
        state.outputs == outputs,
        state.config_on_read == input.config,
        state.config_on_write == old(output).config,
        state.input == input.arg,
        state.out == old(output).arg,
        state.locals_on_read.ref_shape@ == locals_read.ref_shape@,
        state.locals_on_read.ref_strides@ == locals_read.ref_strides@,
        state.locals_on_read.ref_vector_size == locals_read.ref_vector_size,
        state.locals_on_write.ref_shape@ == locals_write.ref_shape@,
        state.locals_on_write.ref_strides@ == locals_write.ref_strides@,
        state.locals_on_write.ref_vector_size == locals_write.ref_vector_size,
        state.view.axes@.len() == input.view.axes@.len(),
        0 <= axis < input.view.axes@.len() ==> state.view.axes@[axis].dims@
            == input.view.axes@[axis].dims@ && state.view.axes@[axis].stride_dim
            == input.view.axes@[axis].stride_dim,
        final(output).global == outputs,
        final(output).config == old(output).config,
        final(output).arg == old(output).arg,
        final(output).view == old(output).view,
{
    assert(state.view@.len() == input.view@.len());
    if 0 <= axis < input.view.axes@.len() {
        assert(state.view@[axis] == (
            state.view.axes@[axis].dims@,
            state.view.axes@[axis].stride_dim,
        ));
        assert(input.view@[axis] == (
            input.view.axes@[axis].dims@,
            input.view.axes@[axis].stride_dim,
        ));
    }
}

/// A state made of two sides takes each part from its own.
pub proof fn law_state_takes_each_part_from_its_side(
    inputs: &FusedReduceInput,
    outputs: &FusedReduceOutput,
    locals_read: &LocalArgs,
    locals_write: &LocalArgs,
    state: FusedReduceState,
    axis: int,
)
    requires
        call_ensures(FusedReduceState::new, (inputs, outputs, locals_read, locals_write), state),
    ensures
        state.inputs == inputs.global,
        state.outputs == outputs.global,
        state.config_on_read == inputs.config,
        state.config_on_write == outputs.config,
        state.input == inputs.arg,
        state.out == outputs.arg,
        state.locals_on_read.ref_shape@ == locals_read.ref_shape@,
        state.locals_on_read.ref_strides@ == locals_read.ref_strides@,
        state.locals_on_read.ref_vector_size == locals_read.ref_vector_size,
        state.locals_on_write.ref_shape@ == locals_write.ref_shape@,
        state.locals_on_write.ref_strides@ == locals_write.ref_strides@,
        state.locals_on_write.ref_vector_size == locals_write.ref_vector_size,
        state.view.axes@.len() == inputs.view.axes@.len(),
        0 <= axis < inputs.view.axes@.len() ==> state.view.axes@[axis].dims@
            == inputs.view.axes@[axis].dims@ && state.view.axes@[axis].stride_dim
            == inputs.view.axes@[axis].stride_dim,
{
    assert(state.view@.len() == inputs.view@.len());
    if 0 <= axis < inputs.view.axes@.len() {
        assert(state.view@[axis] == (
            state.view.axes@[axis].dims@,
            state.view.axes@[axis].stride_dim,
        ));
        assert(inputs.view@[axis] == (
            inputs.view.axes@[axis].dims@,
            inputs.view.axes@[axis].stride_dim,
        ));
    }
}

/// A copy of a state goes on where the state is.
pub proof fn law_copies_of_states_are_equal(
    state: &FusedReduceState,
    copy: FusedReduceState,
    axis: int,
)
    requires
        call_ensures(<FusedReduceState as Clone>::clone, (state,), copy),
    ensures
        copy.inputs == state.inputs,
        copy.outputs == state.outputs,
        copy.config_on_read == state.config_on_read,
        copy.config_on_write == state.config_on_write,
        copy.input == state.input,
        copy.out == state.out,
        copy.locals_on_read.ref_shape@ == state.locals_on_read.ref_shape@,
        copy.locals_on_read.ref_strides@ == state.locals_on_read.ref_strides@,
        copy.locals_on_read.ref_vector_size == state.locals_on_read.ref_vector_size,
        copy.locals_on_write.ref_shape@ == state.locals_on_write.ref_shape@,
        copy.locals_on_write.ref_strides@ == state.locals_on_write.ref_strides@,
        copy.locals_on_write.ref_vector_size == state.locals_on_write.ref_vector_size,
        copy.view.axes@.len() == state.view.axes@.len(),
        0 <= axis < state.view.axes@.len() ==> copy.view.axes@[axis].dims@
            == state.view.axes@[axis].dims@ && copy.view.axes@[axis].stride_dim
            == state.view.axes@[axis].stride_dim,
{
    assert(copy.view@.len() == state.view@.len());
    if 0 <= axis < state.view.axes@.len() {
        assert(copy.view@[axis] == (
            copy.view.axes@[axis].dims@,
            copy.view.axes@[axis].stride_dim,
        ));
        assert(state.view@[axis] == (
            state.view.axes@[axis].dims@,
            state.view.axes@[axis].stride_dim,
        ));
    }
}

/// Reading asks the engine to run the block on read at the index, for the input
/// and nothing else, and takes the one value that answers it; of the output
/// nothing is ever read.
pub proof fn law_reading_asks_for_the_input_alone(
    state: &FusedReduceState,
    index: usize,
    asked: FuseOnRead,
    values: &[FuseValue],
    value: FuseValue,
    of_output: Option<FuseValue>,
)
    requires
        call_ensures(FusedReduceArgs::read_input, (state, index), asked),
        call_ensures(FusedReduceArgs::read_value, (values,), value),
        call_ensures(FusedReduceArgs::read_output, (state, index), of_output),
    ensures
        asked.inputs == state.inputs,
        asked.outputs == state.outputs,
        asked.locals.ref_shape@ == state.locals_on_read.ref_shape@,
        asked.locals.ref_strides@ == state.locals_on_read.ref_strides@,
        asked.locals.ref_vector_size == state.locals_on_read.ref_vector_size,
        asked.index == index,
        sequence_items(asked.args).len() == 1,
        sequence_items(asked.args)[0] == state.input.id,
        asked.config == state.config_on_read,
        value == values@[0],
        of_output is None,
{
}

/// Writing hands the engine the value for the output and nothing else, to run
/// the block on write at the index, and the state then goes on with what the
/// engine left of the outputs and of the block on write.
pub proof fn law_writing_hands_over_the_output_alone(
    state: &mut FusedReduceState,
    index: usize,
    value: FuseValue,
    asked: FuseOnWrite,
    outputs: GlobalArgs,
    locals: LocalArgs,
)
    requires
        call_ensures(FusedReduceArgs::write_output, (&*state, index, value), asked),
        call_ensures(FusedReduceArgs::after_write, (state, outputs, locals), ()),
    ensures
        asked.inputs == old(state).inputs,
        asked.outputs == old(state).outputs,
        asked.locals.ref_shape@ == old(state).locals_on_write.ref_shape@,
        asked.locals.ref_strides@ == old(state).locals_on_write.ref_strides@,
        asked.locals.ref_vector_size == old(state).locals_on_write.ref_vector_size,
        asked.index == index,
        registry_items(asked.values).dom() == set![old(state).out.id],
        registry_items(asked.values)[old(state).out.id] == value.id,
        asked.args@.len() == 1,
        asked.args@[0] == old(state).out,
        asked.config == old(state).config_on_write,
        final(state).outputs == outputs,
        final(state).locals_on_write == locals,
        final(state).inputs == old(state).inputs,
        final(state).locals_on_read == old(state).locals_on_read,
        final(state).config_on_read == old(state).config_on_read,
        final(state).config_on_write == old(state).config_on_write,
        final(state).input == old(state).input,
        final(state).out == old(state).out,
        final(state).view == old(state).view,
{
    assert(registry_items(asked.values).dom() =~= set![old(state).out.id]);
}

/// The lengths of the input are asked of the side that reads, those of the
/// output of the side that writes, and a buffer's length is asked for as such.
pub proof fn law_lengths_are_asked_of_their_side(
    state: &FusedReduceState,
    len_input: RefQuery,
    len_output: RefQuery,
    buffer_len_input: RefQuery,
    buffer_len_output: RefQuery,
)
    requires
        call_ensures(FusedReduceArgs::len_input, (state,), len_input),
        call_ensures(FusedReduceArgs::len_output, (state,), len_output),
        call_ensures(FusedReduceArgs::buffer_len_input, (state,), buffer_len_input),
        call_ensures(FusedReduceArgs::buffer_len_output, (state,), buffer_len_output),
    ensures
        len_input.kind == RefKind::Len,
        len_input.inputs == state.inputs,
        len_input.outputs == state.outputs,
        len_input.locals.ref_shape@ == state.locals_on_read.ref_shape@,
        len_input.locals.ref_strides@ == state.locals_on_read.ref_strides@,
        len_input.locals.ref_vector_size == state.locals_on_read.ref_vector_size,
        len_input.config == state.config_on_read,
        len_output.kind == RefKind::Len,
        len_output.inputs == state.inputs,
        len_output.outputs == state.outputs,
        len_output.locals.ref_shape@ == state.locals_on_write.ref_shape@,
        len_output.locals.ref_strides@ == state.locals_on_write.ref_strides@,
        len_output.locals.ref_vector_size == state.locals_on_write.ref_vector_size,
        len_output.config == state.config_on_write,
        buffer_len_input.kind == RefKind::BufferLen,
        buffer_len_input.inputs == state.inputs,
        buffer_len_input.outputs == state.outputs,
        buffer_len_input.locals.ref_shape@ == state.locals_on_read.ref_shape@,
        buffer_len_input.locals.ref_strides@ == state.locals_on_read.ref_strides@,
        buffer_len_input.locals.ref_vector_size == state.locals_on_read.ref_vector_size,
        buffer_len_input.config == state.config_on_read,
        buffer_len_output.kind == RefKind::BufferLen,
        buffer_len_output.inputs == state.inputs,
        buffer_len_output.outputs == state.outputs,
        buffer_len_output.locals.ref_shape@ == state.locals_on_write.ref_shape@,
        buffer_len_output.locals.ref_strides@ == state.locals_on_write.ref_strides@,
        buffer_len_output.locals.ref_vector_size == state.locals_on_write.ref_vector_size,
        buffer_len_output.config == state.config_on_write,
{
}

/// The routines see as many axes as the view lists, on both sides. The size of
/// an axis is the product over the dims it stands for in its side's reference,
/// its stride that of the dim it carries there, and both are zero past the last
/// axis. How many elements are handled at once is for each side to say.
pub proof fn law_each_side_is_seen_through_the_view(
    state: &FusedReduceState,
    dim: usize,
    rank_input: usize,
    rank_output: usize,
    shape_input: usize,
    shape_output: usize,
    stride_input: usize,
    stride_output: usize,
    vector_size_input: usize,
    vector_size_output: usize,
)
    requires
        call_ensures(FusedReduceArgs::rank_input, (state,), rank_input),
        call_ensures(FusedReduceArgs::rank_output, (state,), rank_output),
        call_ensures(FusedReduceArgs::shape_input, (state, dim), shape_input),
        call_ensures(FusedReduceArgs::shape_output, (state, dim), shape_output),
        call_ensures(FusedReduceArgs::stride_input, (state, dim), stride_input),
        call_ensures(FusedReduceArgs::stride_output, (state, dim), stride_output),
        call_ensures(FusedReduceArgs::vector_size_input, (state,), vector_size_input),
        call_ensures(FusedReduceArgs::vector_size_output, (state,), vector_size_output),
    ensures
        rank_input == state.view.axes@.len(),
        rank_output == state.view.axes@.len(),
        vector_size_input == state.locals_on_read.ref_vector_size,
        vector_size_output == state.locals_on_write.ref_vector_size,
        dim >= state.view.axes@.len() ==> shape_input == 0 && shape_output == 0 && stride_input == 0
            && stride_output == 0,
        dim < state.view.axes@.len() ==> {
            let axis = state.view.axes@[dim as int];
            &&& shape_input == axis.dims@.fold_left(
                1int,
                |product: int, dim: usize| product * state.locals_on_read.ref_shape@[dim as int],
            )
            &&& shape_output == axis.dims@.fold_left(
                1int,
                |product: int, dim: usize| product * state.locals_on_write.ref_shape@[dim as int],
            )
            &&& stride_input == state.locals_on_read.ref_strides@[axis.stride_dim as int]
            &&& stride_output == state.locals_on_write.ref_strides@[axis.stride_dim as int]
        },
{
    assert(state.view@.len() == state.view.axes@.len());
    if dim < state.view.axes@.len() {
        let axis = state.view.axes@[dim as int];
        let on_read = |product: int, dim: usize|
            product * state.locals_on_read.ref_shape@[dim as int];
        let on_write = |product: int, dim: usize|
            product * state.locals_on_write.ref_shape@[dim as int];
        lemma_extent_is_product(state.locals_on_read.ref_shape@, axis.dims@, on_read);
        lemma_extent_is_product(state.locals_on_write.ref_shape@, axis.dims@, on_write);
        assert(state.view@[dim as int] == (axis.dims@, axis.stride_dim));
    }
}

/// A reduction over merged dims steps over the elements to reduce: whatever the
/// coordinates along the reference dims, the stride and the size that a side
/// tells of an axis of the merged view are such that the offset along the
/// axis' dims is the position there times the stride, and the position lies
/// below the size.
pub proof fn law_reduction_steps_over_the_elements(
    shape: &[usize],
    strides: &[usize],
    reduced: &[usize],
    merged: Option<MergedReduceView>,
    state: &FusedReduceState,
    dim: usize,
    size: usize,
    stride: usize,
    coords: Seq<int>,
)
    requires
        shape@.len() <= strides@.len(),
        reduced@.len() > 0,
        reduced@.no_duplicates(),
        forall|i: int| 0 <= i < reduced@.len() ==> (#[trigger] reduced@[i]) < shape@.len(),
        call_ensures(ReduceView::merged, (shape, strides, reduced), merged),
        merged matches Some(m) && m.view == state.view,
        dim < state.view.axes@.len(),
        (state.locals_on_read.ref_shape@ == shape@ && state.locals_on_read.ref_strides@ == strides@
            && call_ensures(FusedReduceArgs::shape_input, (state, dim), size) && call_ensures(
            FusedReduceArgs::stride_input,
            (state, dim),
            stride,
        )) || (state.locals_on_write.ref_shape@ == shape@ && state.locals_on_write.ref_strides@
            == strides@ && call_ensures(FusedReduceArgs::shape_output, (state, dim), size)
            && call_ensures(FusedReduceArgs::stride_output, (state, dim), stride)),
        coords.len() == shape@.len(),
        forall|dim: int| 0 <= dim < shape@.len() ==> 0 <= #[trigger] coords[dim] < shape@[dim],
    ensures
        merged matches Some(m) && size == m.shape@[dim as int] && stride == m.strides@[dim as int],
        state.view.axes@[dim as int].dims@.fold_left(
            0int,
            |sum: int, dim: usize| sum + coords[dim as int] * strides@[dim as int],
        ) == state.view.axes@[dim as int].dims@.fold_left(
            0int,
            |at: int, dim: usize| at * shape@[dim as int] + coords[dim as int],
        ) * stride,
        0 <= state.view.axes@[dim as int].dims@.fold_left(
            0int,
            |at: int, dim: usize| at * shape@[dim as int] + coords[dim as int],
        ) < size,
{
    let m = merged->Some_0;
    let axis = state.view.axes@[dim as int];
    let count_up = |at: int, dim: usize| at * shape@[dim as int] + coords[dim as int];
    let part = |dim: usize| coords[dim as int] * strides@[dim as int];
    let step = |sum: int, dim: usize| sum + coords[dim as int] * strides@[dim as int];
    law_merged_view_keeps_the_other_dims(shape, strides, reduced, merged);
    lemma_axis_steps(shape, strides, reduced, m, coords, count_up, dim as int);
    lemma_total_is_fold(axis.dims@, part, step);
    assert(state.view@[dim as int] == (axis.dims@, axis.stride_dim));
}

/// The engine is handed the same arguments as the routines listed, in their
/// order, and copies of locals and of axes are as their originals.
pub proof fn law_handing_over_changes_nothing(
    sequence: &ArgSequence,
    args: Vec<FuseArg>,
    locals: &LocalArgs,
    copy: LocalArgs,
    axis: &ViewAxis,
    axis_copy: ViewAxis,
    at: int,
)
    requires
        call_ensures(ArgSequence::to_args, (sequence,), args),
        call_ensures(<LocalArgs as Clone>::clone, (locals,), copy),
        call_ensures(<ViewAxis as Clone>::clone, (axis,), axis_copy),
    ensures
        args@.len() == sequence_items(*sequence).len(),
        0 <= at < args@.len() ==> args@[at].id == sequence_items(*sequence)[at],
        copy.ref_shape@ == locals.ref_shape@,
        copy.ref_strides@ == locals.ref_strides@,
        copy.ref_vector_size == locals.ref_vector_size,
        axis_copy.dims@ == axis.dims@,
        axis_copy.stride_dim == axis.stride_dim,
{
}

/// The routines may ask about any axis, and past the last one: where an axis
/// stands for dims of its side's reference, carries the stride of one, and has
/// a size that `usize` holds, it has an answer on that side.
pub proof fn law_every_axis_has_answers(state: &FusedReduceState, dim: usize, values: &[FuseValue])
    requires
        values@.len() > 0,
        dim < state.view.axes@.len() ==> {
            let axis = state.view.axes@[dim as int];
            &&& forall|i: int|
                0 <= i < axis.dims@.len() ==> (#[trigger] axis.dims@[i])
                    < state.locals_on_read.ref_shape@.len() && axis.dims@[i]
                    < state.locals_on_write.ref_shape@.len()
            &&& axis.stride_dim < state.locals_on_read.ref_strides@.len()
            &&& axis.stride_dim < state.locals_on_write.ref_strides@.len()
            &&& axis.dims@.fold_left(
                1int,
                |product: int, dim: usize| product * state.locals_on_read.ref_shape@[dim as int],
            ) <= usize::MAX
            &&& axis.dims@.fold_left(
                1int,
                |product: int, dim: usize| product * state.locals_on_write.ref_shape@[dim as int],
            ) <= usize::MAX
        },
    ensures
        call_requires(FusedReduceArgs::shape_input, (state, dim)),
        call_requires(FusedReduceArgs::shape_output, (state, dim)),
        call_requires(FusedReduceArgs::stride_input, (state, dim)),
        call_requires(FusedReduceArgs::stride_output, (state, dim)),
        call_requires(view_shape, (&state.locals_on_read, &state.view, dim)),
        call_requires(view_stride, (&state.locals_on_read, &state.view, dim)),
        call_requires(FusedReduceArgs::read_value, (values,)),
{
    if dim < state.view.axes@.len() {
        let axis = state.view.axes@[dim as int];
        let on_read = |product: int, dim: usize|
            product * state.locals_on_read.ref_shape@[dim as int];
        let on_write = |product: int, dim: usize|
            product * state.locals_on_write.ref_shape@[dim as int];
        lemma_extent_is_product(state.locals_on_read.ref_shape@, axis.dims@, on_read);
        lemma_extent_is_product(state.locals_on_write.ref_shape@, axis.dims@, on_write);
        assert(state.view@[dim as int] == (axis.dims@, axis.stride_dim));
    }
}

} // verus!
