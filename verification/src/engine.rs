//! What passes between the reduce routines and the fusion engine.
//!
//! The engine keeps the tensors, the block configurations and the values of a
//! launch. Here they are handles: the routines choose among them and hand them
//! on, and only the engine looks behind one.

use cubecl::prelude::{Registry, Sequence};
use vstd::prelude::*;

verus! {

/// The global arguments of one side of a launch.
#[derive(Clone, Copy, Debug, PartialEq, Eq, Structural)]
pub struct GlobalArgs {
    pub id: usize,
}

/// The configuration of a fused block.
#[derive(Clone, Copy, Debug, PartialEq, Eq, Structural)]
pub struct FuseBlockConfig {
    pub id: usize,
}

/// An argument of a fused block.
#[derive(Clone, Copy, Debug, PartialEq, Eq, Structural)]
pub struct FuseArg {
    pub id: usize,
}

/// A vector of elements that a fused block read, or is to write.
#[derive(Clone, Copy, Debug, PartialEq, Eq, Structural)]
pub struct FuseValue {
    pub id: usize,
}

/// What the engine keeps for one block of a launch: the shape and the strides
/// of its reference layout, and how many elements the block handles at once.
#[derive(Debug)]
pub struct LocalArgs {
    pub ref_shape: Vec<usize>,
    pub ref_strides: Vec<usize>,
    pub ref_vector_size: usize,
}

impl View for LocalArgs {
    type V = (Seq<usize>, Seq<usize>, usize);

    open spec fn view(&self) -> (Seq<usize>, Seq<usize>, usize) {
        (self.ref_shape@, self.ref_strides@, self.ref_vector_size)
    }
}

/// A copy of `values`.
pub(crate) fn copy_of(values: &Vec<usize>) -> (copy: Vec<usize>)
    ensures
        copy@ == values@,
{
    let mut copy: Vec<usize> = Vec::with_capacity(values.len());
    let mut i: usize = 0;
    while i < values.len()
        invariant
            i <= values@.len(),
            copy@ == values@.take(i as int),
        decreases values@.len() - i,
    {
        copy.push(values[i]);
        i = i + 1;
    }
    assert(copy@ =~= values@);
    copy
}

impl Clone for LocalArgs {
    fn clone(&self) -> (copy: Self)
        ensures
            copy@ == self@,
    {
        LocalArgs {
            ref_shape: copy_of(&self.ref_shape),
            ref_strides: copy_of(&self.ref_strides),
            ref_vector_size: self.ref_vector_size,
        }
    }
}

/// The arguments that a block reads, in the runtime's own list type,
/// [`cubecl::prelude::Sequence`]. An argument is held by its `id`.
#[verifier::external_body]
pub struct ArgSequence {
    inner: Sequence<usize>,
}

/// The items of a sequence, first to last.
pub uninterp spec fn sequence_items(sequence: ArgSequence) -> Seq<usize>;

impl View for ArgSequence {
    type V = Seq<usize>;

    open spec fn view(&self) -> Seq<usize> {
        sequence_items(*self)
    }
}

/// `Sequence::new` makes a sequence without items.
#[verifier::external_body]
pub(crate) fn sequence_new() -> (sequence: ArgSequence)
    ensures
        sequence_items(sequence) == Seq::<usize>::empty(),
{
    ArgSequence { inner: Sequence::new() }
}

/// `Sequence::push` puts an item behind those that are there.
#[verifier::external_body]
pub(crate) fn sequence_push(sequence: &mut ArgSequence, item: usize)
    ensures
        sequence_items(*final(sequence)) == sequence_items(*old(sequence)).push(item),
{
    sequence.inner.push(item)
}

/// `Sequence::len` counts the items.
#[verifier::external_body]
pub(crate) fn sequence_len(sequence: &ArgSequence) -> (len: usize)
    ensures
        len == sequence_items(*sequence).len(),
{
    sequence.inner.len()
}

/// `Sequence::index` hands out the item at a position, which must hold one.
#[verifier::external_body]
pub(crate) fn sequence_index(sequence: &ArgSequence, index: usize) -> (item: usize)
    requires
        index < sequence_items(*sequence).len(),
    ensures
        item == sequence_items(*sequence)[index as int],
{
    *sequence.inner.index(index)
}

impl ArgSequence {
    /// The arguments, first to last.
    pub fn to_args(&self) -> (args: Vec<FuseArg>)
        ensures
            args@ == self@.map_values(|id: usize| FuseArg { id }),
    {
        let mut args: Vec<FuseArg> = Vec::new();
        let len: usize = sequence_len(self);
        let mut i: usize = 0;
        while i < len
            invariant
                i <= len,
                len == self@.len(),
                args@.len() == i,
                forall|j: int| 0 <= j < i ==> #[trigger] args@[j] == (FuseArg { id: self@[j] }),
            decreases len - i,
        {
            args.push(FuseArg { id: sequence_index(self, i) });
            i = i + 1;
        }
        assert(args@ =~= self@.map_values(|id: usize| FuseArg { id }));
        args
    }
}

/// The runtime's map from keys that are known when a kernel is compiled.
#[verifier::external_type_specification]
#[verifier::external_body]
#[verifier::reject_recursive_types(K)]
#[verifier::reject_recursive_types(V)]
pub struct ExRegistry<K, V>(Registry<K, V>);

/// What a registry holds under each key.
pub uninterp spec fn registry_items(registry: Registry<usize, usize>) -> Map<usize, usize>;

/// `Registry::new` makes a registry without keys.
#[verifier::external_body]
pub(crate) fn registry_new() -> (registry: Registry<usize, usize>)
    ensures
        registry_items(registry).dom() == Set::<usize>::empty(),
{
    Registry::new()
}

/// `Registry::insert` puts a value under a key, in place of what was there.
#[verifier::external_body]
pub(crate) fn registry_insert(registry: &mut Registry<usize, usize>, key: usize, value: usize)
    ensures
        registry_items(*final(registry)) == registry_items(*old(registry)).insert(key, value),
{
    registry.insert(key, value)
}

} // verus!
