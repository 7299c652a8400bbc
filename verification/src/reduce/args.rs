//! What the reduce routines ask of a fused launch.
//!
//! The routines read through one fused block and write through another. The
//! fusion engine runs the blocks. What is asked of it, and on which side, is
//! decided here.

use crate::engine::{
    registry_insert, registry_items, registry_new, sequence_new, sequence_push, ArgSequence,
    FuseArg, FuseBlockConfig, FuseValue, GlobalArgs, LocalArgs,
};
use crate::layout::{extent, extent_of};
use crate::reduce::view::ReduceView;
use cubecl::prelude::Registry;
use vstd::prelude::*;

verus! {

/// The arguments of a reduction that is fused with the operations around it.
#[derive(Clone, Copy, Debug)]
pub struct FusedReduceArgs;

/// What a reduction reads through.
#[derive(Debug)]
pub struct FusedReduceInput {
    pub global: GlobalArgs,
    pub config: FuseBlockConfig,
    pub arg: FuseArg,
    pub view: ReduceView,
}

/// What a reduction writes through.
#[derive(Debug)]
pub struct FusedReduceOutput {
    pub global: GlobalArgs,
    pub config: FuseBlockConfig,
    pub arg: FuseArg,
    pub view: ReduceView,
}

/// A reduction under way.
#[derive(Debug)]
pub struct FusedReduceState {
    pub inputs: GlobalArgs,
    pub outputs: GlobalArgs,
    pub locals_on_read: LocalArgs,
    pub locals_on_write: LocalArgs,
    pub config_on_read: FuseBlockConfig,
    pub config_on_write: FuseBlockConfig,
    pub input: FuseArg,
    pub out: FuseArg,
    pub view: ReduceView,
}

/// Asks the engine to set up what it keeps for a block.
#[derive(Clone, Copy, Debug, PartialEq, Eq, Structural)]
pub struct InitLocals {
    pub inputs: GlobalArgs,
    pub outputs: GlobalArgs,
    pub config: FuseBlockConfig,
}

/// Asks the engine to run the block on read at `index`, for the values of
/// `args`.
pub struct FuseOnRead {
    pub inputs: GlobalArgs,
    pub outputs: GlobalArgs,
    pub locals: LocalArgs,
    pub index: usize,
    pub args: ArgSequence,
    pub config: FuseBlockConfig,
}

/// Asks the engine to run the block on write at `index`, with the values that
/// `values` holds for `args`.
pub struct FuseOnWrite {
    pub inputs: GlobalArgs,
    pub outputs: GlobalArgs,
    pub locals: LocalArgs,
    pub index: usize,
    pub values: Registry<usize, usize>,
    pub args: Vec<FuseArg>,
    pub config: FuseBlockConfig,
}

/// What the engine is asked of a reference layout.
#[derive(Clone, Copy, Debug, PartialEq, Eq, Structural)]
pub enum RefKind {
    /// How many elements it has.
    Len,
    /// How many elements the buffer behind it holds.
    BufferLen,
}

/// Asks the engine about the reference layout of one side.
pub struct RefQuery {
    pub kind: RefKind,
    pub inputs: GlobalArgs,
    pub outputs: GlobalArgs,
    pub locals: LocalArgs,
    pub config: FuseBlockConfig,
}

/// The size of a view's axis as the routines see it; past the last axis there
/// is nothing.
pub open spec fn axis_size(shape: Seq<usize>, view: Seq<(Seq<usize>, usize)>, dim: int) -> nat {
    if 0 <= dim < view.len() {
        extent(shape, view[dim].0)
    } else {
        0
    }
}

/// The stride of a view's axis as the routines see it; past the last axis it
/// is zero.
pub open spec fn axis_stride(
    strides: Seq<usize>,
    view: Seq<(Seq<usize>, usize)>,
    dim: int,
) -> usize {
    if 0 <= dim < view.len() {
        strides[view[dim].1 as int]
    } else {
        0
    }
}

/// Whether an axis stands for dims of the reference, with a size that `usize`
/// holds.
pub open spec fn axis_has_size(shape: Seq<usize>, view: Seq<(Seq<usize>, usize)>, dim: int) -> bool {
    0 <= dim < view.len() ==> {
        &&& forall|i: int|
            0 <= i < view[dim].0.len() ==> (#[trigger] view[dim].0[i]) < shape.len()
        &&& extent(shape, view[dim].0) <= usize::MAX
    }
}

/// Whether an axis carries the stride of a dim of the reference.
pub open spec fn axis_has_stride(
    strides: Seq<usize>,
    view: Seq<(Seq<usize>, usize)>,
    dim: int,
) -> bool {
    0 <= dim < view.len() ==> view[dim].1 < strides.len()
}

/// The reference shape of a view axis: the product over the dims it stands for.
pub fn view_shape(locals: &LocalArgs, view: &ReduceView, dim: usize) -> (size: usize)
    requires
        axis_has_size(locals.ref_shape@, view@, dim as int),
    ensures
        size == axis_size(locals.ref_shape@, view@, dim as int),
{
    if dim < view.axes.len() {
        assert(view@[dim as int].0 == view.axes@[dim as int].dims@);
        extent_of(&locals.ref_shape, &view.axes[dim].dims)
    } else {
        0
    }
}

/// The reference stride of a view axis: that of the dim whose stride it
/// carries.
pub fn view_stride(locals: &LocalArgs, view: &ReduceView, dim: usize) -> (stride: usize)
    requires
        axis_has_stride(locals.ref_strides@, view@, dim as int),
    ensures
        stride == axis_stride(locals.ref_strides@, view@, dim as int),
{
    if dim < view.axes.len() {
        assert(view@[dim as int].1 == view.axes@[dim as int].stride_dim);
        locals.ref_strides[view.axes[dim].stride_dim]
    } else {
        0
    }
}

impl Clone for FusedReduceState {
    fn clone(&self) -> (copy: Self)
        ensures
            copy.inputs == self.inputs,
            copy.outputs == self.outputs,
            copy.locals_on_read@ == self.locals_on_read@,
            copy.locals_on_write@ == self.locals_on_write@,
            copy.config_on_read == self.config_on_read,
            copy.config_on_write == self.config_on_write,
            copy.input == self.input,
            copy.out == self.out,
            copy.view@ == self.view@,
    {
        FusedReduceState {
            inputs: self.inputs,
            outputs: self.outputs,
            locals_on_read: self.locals_on_read.clone(),
            locals_on_write: self.locals_on_write.clone(),
            config_on_read: self.config_on_read,
            config_on_write: self.config_on_write,
            input: self.input,
            out: self.out,
            view: self.view.clone(),
        }
    }
}

impl FusedReduceState {
    /// A reduction from `inputs` to `outputs`, seen through the view of
    /// `inputs`.
    pub fn new(
        inputs: &FusedReduceInput,
        outputs: &FusedReduceOutput,
        locals_on_read: &LocalArgs,
        locals_on_write: &LocalArgs,
    ) -> (state: FusedReduceState)
        ensures
            state.inputs == inputs.global,
            state.outputs == outputs.global,
            state.locals_on_read@ == locals_on_read@,
            state.locals_on_write@ == locals_on_write@,
            state.config_on_read == inputs.config,
            state.config_on_write == outputs.config,
            state.input == inputs.arg,
            state.out == outputs.arg,
            state.view@ == inputs.view@,
    {
        FusedReduceState {
            inputs: inputs.global,
            outputs: outputs.global,
            locals_on_read: locals_on_read.clone(),
            locals_on_write: locals_on_write.clone(),
            config_on_read: inputs.config,
            config_on_write: outputs.config,
            input: inputs.arg,
            out: outputs.arg,
            view: inputs.view.clone(),
        }
    }
}

impl FusedReduceArgs {
    /// What the engine is to set up first: the block on read.
    pub fn init_on_read(input: &FusedReduceInput, output: &FusedReduceOutput) -> (asked: InitLocals)
        ensures
            asked == (InitLocals {
                inputs: input.global,
                outputs: output.global,
                config: input.config,
            }),
    {
        InitLocals { inputs: input.global, outputs: output.global, config: input.config }
    }

    /// What the engine is to set up next: the block on write. `outputs` is what
    /// it left of the outputs when it set up the block on read.
    pub fn init_on_write(
        input: &FusedReduceInput,
        output: &mut FusedReduceOutput,
        outputs: GlobalArgs,
    ) -> (asked: InitLocals)
        ensures
            asked == (InitLocals {
                inputs: input.global,
                outputs: outputs,
                config: old(output).config,
            }),
            final(output).global == outputs,
            final(output).config == old(output).config,
            final(output).arg == old(output).arg,
            final(output).view == old(output).view,
    {
        output.global = outputs;
        InitLocals { inputs: input.global, outputs: output.global, config: output.config }
    }

    /// The reduction that starts from what the engine set up. `outputs` is what
    /// it left of the outputs when it set up the block on write.
    pub fn init_state(
        input: &FusedReduceInput,
        output: &mut FusedReduceOutput,
        outputs: GlobalArgs,
        locals_read: &LocalArgs,
        locals_write: &LocalArgs,
    ) -> (state: FusedReduceState)
        ensures
            state.inputs == input.global,
            state.outputs == outputs,
            state.locals_on_read@ == locals_read@,
            state.locals_on_write@ == locals_write@,
            state.config_on_read == input.config,
            state.config_on_write == old(output).config,
            state.input == input.arg,
            state.out == old(output).arg,
            state.view@ == input.view@,
            final(output).global == outputs,
            final(output).config == old(output).config,
            final(output).arg == old(output).arg,
            final(output).view == old(output).view,
    {
        output.global = outputs;
        FusedReduceState::new(input, output, locals_read, locals_write)
    }

    /// What the engine is to read at `index`: the reduction's input, through
    /// the block on read.
    pub fn read_input(state: &FusedReduceState, index: usize) -> (asked: FuseOnRead)
        ensures
            asked.inputs == state.inputs,
            asked.outputs == state.outputs,
            asked.locals@ == state.locals_on_read@,
            asked.index == index,
            asked.args@ == seq![state.input.id],
            asked.config == state.config_on_read,
    {
        let state = state.clone();
        let mut args = sequence_new();
        sequence_push(&mut args, state.input.id);
        assert(args@ =~= seq![state.input.id]);
        FuseOnRead {
            inputs: state.inputs,
            outputs: state.outputs,
            locals: state.locals_on_read,
            index,
            args,
            config: state.config_on_read,
        }
    }

    /// The value that was read, of those that the engine gives back: one for
    /// each argument.
    pub fn read_value(values: &[FuseValue]) -> (value: FuseValue)
        requires
            values@.len() > 0,
        ensures
            value == values@[0],
    {
        values[0]
    }

    /// What is read of the output: nothing, at any index. A reduction only
    /// writes it, so the routines get a vector without values.
    pub fn read_output(_state: &FusedReduceState, _index: usize) -> (value: Option<FuseValue>)
        ensures
            value is None,
    {
        None
    }

    /// What the engine is to write at `index`: `value`, as the reduction's
    /// output, through the block on write.
    pub fn write_output(state: &FusedReduceState, index: usize, value: FuseValue) -> (asked:
        FuseOnWrite)
        ensures
            asked.inputs == state.inputs,
            asked.outputs == state.outputs,
            asked.locals@ == state.locals_on_write@,
            asked.index == index,
            registry_items(asked.values) == map![state.out.id => value.id],
            asked.args@ == seq![state.out],
            asked.config == state.config_on_write,
    {
        let mut values = registry_new();
        registry_insert(&mut values, state.out.id, value.id);
        assert(registry_items(values) =~= map![state.out.id => value.id]);
        let mut args: Vec<FuseArg> = Vec::new();
        args.push(state.out);
        assert(args@ =~= seq![state.out]);
        FuseOnWrite {
            inputs: state.inputs,
            outputs: state.outputs,
            locals: state.locals_on_write.clone(),
            index,
            values,
            args,
            config: state.config_on_write,
        }
    }

    /// Takes over what the engine left of the outputs and of the block on
    /// write after it wrote.
    pub fn after_write(state: &mut FusedReduceState, outputs: GlobalArgs, locals: LocalArgs)
        ensures
            final(state).outputs == outputs,
            final(state).locals_on_write == locals,
            final(state).inputs == old(state).inputs,
            final(state).locals_on_read == old(state).locals_on_read,
            final(state).config_on_read == old(state).config_on_read,
            final(state).config_on_write == old(state).config_on_write,
            final(state).input == old(state).input,
            final(state).out == old(state).out,
            final(state).view == old(state).view,
    {
        state.outputs = outputs;
        state.locals_on_write = locals;
    }

    /// What the engine is asked for the input's length.
    pub fn len_input(state: &FusedReduceState) -> (asked: RefQuery)
        ensures
            asked.kind == RefKind::Len,
            asked.inputs == state.inputs,
            asked.outputs == state.outputs,
            asked.locals@ == state.locals_on_read@,
            asked.config == state.config_on_read,
    {
        RefQuery {
            kind: RefKind::Len,
            inputs: state.inputs,
            outputs: state.outputs,
            locals: state.locals_on_read.clone(),
            config: state.config_on_read,
        }
    }

    /// What the engine is asked for the output's length.
    pub fn len_output(state: &FusedReduceState) -> (asked: RefQuery)
        ensures
            asked.kind == RefKind::Len,
            asked.inputs == state.inputs,
            asked.outputs == state.outputs,
            asked.locals@ == state.locals_on_write@,
            asked.config == state.config_on_write,
    {
        RefQuery {
            kind: RefKind::Len,
            inputs: state.inputs,
            outputs: state.outputs,
            locals: state.locals_on_write.clone(),
            config: state.config_on_write,
        }
    }

    /// What the engine is asked for the length of the input's buffer.
    pub fn buffer_len_input(state: &FusedReduceState) -> (asked: RefQuery)
        ensures
            asked.kind == RefKind::BufferLen,
            asked.inputs == state.inputs,
            asked.outputs == state.outputs,
            asked.locals@ == state.locals_on_read@,
            asked.config == state.config_on_read,
    {
        RefQuery {
            kind: RefKind::BufferLen,
            inputs: state.inputs,
            outputs: state.outputs,
            locals: state.locals_on_read.clone(),
            config: state.config_on_read,
        }
    }

    /// What the engine is asked for the length of the output's buffer.
    pub fn buffer_len_output(state: &FusedReduceState) -> (asked: RefQuery)
        ensures
            asked.kind == RefKind::BufferLen,
            asked.inputs == state.inputs,
            asked.outputs == state.outputs,
            asked.locals@ == state.locals_on_write@,
            asked.config == state.config_on_write,
    {
        RefQuery {
            kind: RefKind::BufferLen,
            inputs: state.inputs,
            outputs: state.outputs,
            locals: state.locals_on_write.clone(),
            config: state.config_on_write,
        }
    }

    /// The number of axes that the routines see in the input.
    pub fn rank_input(state: &FusedReduceState) -> (rank: usize)
        ensures
            rank == state.view@.len(),
    {
        state.view.axes.len()
    }

    /// The number of axes that the routines see in the output.
    pub fn rank_output(state: &FusedReduceState) -> (rank: usize)
        ensures
            rank == state.view@.len(),
    {
        state.view.axes.len()
    }

    /// The size of an axis of the input.
    pub fn shape_input(state: &FusedReduceState, dim: usize) -> (size: usize)
        requires
            axis_has_size(state.locals_on_read.ref_shape@, state.view@, dim as int),
        ensures
            size == axis_size(state.locals_on_read.ref_shape@, state.view@, dim as int),
    {
        view_shape(&state.locals_on_read, &state.view, dim)
    }

    /// The size of an axis of the output.
    pub fn shape_output(state: &FusedReduceState, dim: usize) -> (size: usize)
        requires
            axis_has_size(state.locals_on_write.ref_shape@, state.view@, dim as int),
        ensures
            size == axis_size(state.locals_on_write.ref_shape@, state.view@, dim as int),
    {
        view_shape(&state.locals_on_write, &state.view, dim)
    }

    /// The stride of an axis of the input.
    pub fn stride_input(state: &FusedReduceState, dim: usize) -> (stride: usize)
        requires
            axis_has_stride(state.locals_on_read.ref_strides@, state.view@, dim as int),
        ensures
            stride == axis_stride(state.locals_on_read.ref_strides@, state.view@, dim as int),
    {
        view_stride(&state.locals_on_read, &state.view, dim)
    }

    /// The stride of an axis of the output.
    pub fn stride_output(state: &FusedReduceState, dim: usize) -> (stride: usize)
        requires
            axis_has_stride(state.locals_on_write.ref_strides@, state.view@, dim as int),
        ensures
            stride == axis_stride(state.locals_on_write.ref_strides@, state.view@, dim as int),
    {
        view_stride(&state.locals_on_write, &state.view, dim)
    }

    /// How many elements of the input are read at once.
    pub fn vector_size_input(state: &FusedReduceState) -> (size: usize)
        ensures
            size == state.locals_on_read.ref_vector_size,
    {
        state.locals_on_read.ref_vector_size
    }

    /// How many elements of the output are written at once.
    pub fn vector_size_output(state: &FusedReduceState) -> (size: usize)
        ensures
            size == state.locals_on_write.ref_vector_size,
    {
        state.locals_on_write.ref_vector_size
    }
}

} // verus!
