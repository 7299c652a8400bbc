//! How the reduce routines see the reference layout.
//!
//! The routines reduce one axis, so a reduction over several dims that sit
//! next to each other in memory is shown to them as a view in which that run
//! is one axis.

use crate::engine::copy_of;
use crate::layout::{
    all_dims, extent, extent_of, lemma_extent_ignores_order, lemma_extent_of_one,
    lemma_outer_to_inner_keeps_dims, outer_to_inner, sort_outer_to_inner,
};
use vstd::prelude::*;

verus! {

/// One axis of a view: the reference dims it stands for, outer to inner, and
/// the dim whose stride it carries.
#[derive(Debug, Hash, PartialEq, Eq)]
pub struct ViewAxis {
    pub dims: Vec<usize>,
    pub stride_dim: usize,
}

/// The axes in which the reduce routines see the reference dims. The identity
/// view lists every dim on its own, which is what a single-axis reduction
/// uses.
#[derive(Debug, Hash, PartialEq, Eq)]
pub struct ReduceView {
    pub axes: Vec<ViewAxis>,
}

/// A reduction over several dims as the routines see it: the view in which
/// those dims are one axis, that axis, and the view's shape and strides.
#[derive(Debug)]
pub struct MergedReduceView {
    pub view: ReduceView,
    pub axis: usize,
    pub shape: Vec<usize>,
    pub strides: Vec<usize>,
}

impl View for ViewAxis {
    type V = (Seq<usize>, usize);

    open spec fn view(&self) -> (Seq<usize>, usize) {
        (self.dims@, self.stride_dim)
    }
}

impl View for ReduceView {
    type V = Seq<(Seq<usize>, usize)>;

    open spec fn view(&self) -> Seq<(Seq<usize>, usize)> {
        Seq::new(self.axes@.len(), |i: int| self.axes@[i]@)
    }
}

impl Clone for ViewAxis {
    fn clone(&self) -> (copy: Self)
        ensures
            copy@ == self@,
    {
        ViewAxis { dims: copy_of(&self.dims), stride_dim: self.stride_dim }
    }
}

impl Clone for ReduceView {
    fn clone(&self) -> (copy: Self)
        ensures
            copy@ == self@,
    {
        let mut axes: Vec<ViewAxis> = Vec::with_capacity(self.axes.len());
        let mut i: usize = 0;
        while i < self.axes.len()
            invariant
                i <= self.axes@.len(),
                axes@.len() == i,
                forall|j: int| 0 <= j < i ==> (#[trigger] axes@[j])@ == self.axes@[j]@,
            decreases self.axes@.len() - i,
        {
            axes.push(self.axes[i].clone());
            i = i + 1;
        }
        let copy = ReduceView { axes };
        assert(copy@ =~= self@);
        copy
    }
}

impl Default for ReduceView {
    /// The view without axes.
    fn default() -> (view: Self)
        ensures
            view@ == Seq::<(Seq<usize>, usize)>::empty(),
    {
        let view = ReduceView { axes: Vec::new() };
        assert(view@ =~= Seq::<(Seq<usize>, usize)>::empty());
        view
    }
}

/// The axis that stands for `dim` alone.
pub open spec fn own_axis(dim: usize) -> (Seq<usize>, usize) {
    (seq![dim], dim)
}

/// The view that lists every dim on its own.
pub open spec fn identity_view(rank: nat) -> Seq<(Seq<usize>, usize)> {
    Seq::new(rank, |dim: int| own_axis(dim as usize))
}

/// The reference dims in memory, outer to inner.
pub open spec fn layout_order(shape: Seq<usize>, strides: Seq<usize>) -> Seq<usize> {
    outer_to_inner(strides, all_dims(shape.len()))
}

pub open spec fn is_sized(shape: Seq<usize>) -> spec_fn(usize) -> bool {
    |dim: usize| shape[dim as int] != 1
}

pub open spec fn is_reduced(reduced: Seq<usize>) -> spec_fn(usize) -> bool {
    |dim: usize| reduced.contains(dim)
}

/// The dims that take up space, outer to inner: a dim of size one has no
/// neighbours in memory.
pub open spec fn sized_dims(shape: Seq<usize>, strides: Seq<usize>) -> Seq<usize> {
    layout_order(shape, strides).filter(is_sized(shape))
}

/// The reduced dims that take up space, outer to inner.
pub open spec fn run_dims(shape: Seq<usize>, strides: Seq<usize>, reduced: Seq<usize>) -> Seq<
    usize,
> {
    sized_dims(shape, strides).filter(is_reduced(reduced))
}

/// No dim that is kept sits between two of `dims` that are reduced.
pub open spec fn unbroken(dims: Seq<usize>, reduced: Seq<usize>) -> bool {
    forall|i: int, j: int, k: int|
        0 <= i < j < k < dims.len() && reduced.contains(#[trigger] dims[i]) && reduced.contains(
            #[trigger] dims[k],
        ) ==> reduced.contains(#[trigger] dims[j])
}

/// Each of `dims` steps over exactly what the next one spans.
pub open spec fn packed(shape: Seq<usize>, strides: Seq<usize>, dims: Seq<usize>) -> bool {
    forall|i: int|
        #![trigger dims[i]]
        0 <= i < dims.len() - 1 ==> strides[dims[i] as int] == strides[dims[i + 1] as int]
            * shape[dims[i + 1] as int]
}

/// Whether `reduced` forms one run of the layout: some of its dims are dims of
/// the layout, those that take up space are neighbours, and nothing lies
/// between the elements of one and the next.
pub open spec fn is_one_run(shape: Seq<usize>, strides: Seq<usize>, reduced: Seq<usize>) -> bool {
    &&& exists|i: int| 0 <= i < reduced.len() && (#[trigger] reduced[i]) < shape.len()
    &&& unbroken(sized_dims(shape, strides), reduced)
    &&& packed(shape, strides, run_dims(shape, strides, reduced))
}

/// The dim whose stride the merged axis carries: the innermost of the run, or
/// any when every dim of it has size one.
pub open spec fn run_stride_dim(shape: Seq<usize>, strides: Seq<usize>, reduced: Seq<usize>) -> usize {
    let run = run_dims(shape, strides, reduced);
    if run.len() > 0 {
        run.last()
    } else {
        reduced[0]
    }
}

/// The axis that stands for all of `reduced`.
pub open spec fn run_axis(shape: Seq<usize>, strides: Seq<usize>, reduced: Seq<usize>) -> (
    Seq<usize>,
    usize,
) {
    (outer_to_inner(strides, reduced), run_stride_dim(shape, strides, reduced))
}

/// The outermost of the reduced dims.
pub open spec fn run_head(shape: Seq<usize>, strides: Seq<usize>, reduced: Seq<usize>) -> usize {
    layout_order(shape, strides).filter(is_reduced(reduced))[0]
}

pub open spec fn leads_axis(reduced: Seq<usize>, head: usize) -> spec_fn(usize) -> bool {
    |dim: usize| dim == head || !reduced.contains(dim)
}

/// The outermost dim of each axis of the merged view, outer to inner.
pub open spec fn axis_leads(shape: Seq<usize>, strides: Seq<usize>, reduced: Seq<usize>) -> Seq<
    usize,
> {
    layout_order(shape, strides).filter(leads_axis(reduced, run_head(shape, strides, reduced)))
}

/// The view in which `reduced` is one axis: that axis stands where its
/// outermost dim does, and every other dim stands for itself.
pub open spec fn merged_view(shape: Seq<usize>, strides: Seq<usize>, reduced: Seq<usize>) -> Seq<
    (Seq<usize>, usize),
> {
    let head = run_head(shape, strides, reduced);
    let leads = axis_leads(shape, strides, reduced);
    Seq::new(
        leads.len(),
        |i: int|
            if leads[i] == head {
                run_axis(shape, strides, reduced)
            } else {
                own_axis(leads[i])
            },
    )
}

/// The sizes of a view's axes.
pub open spec fn view_sizes(shape: Seq<usize>, view: Seq<(Seq<usize>, usize)>) -> Seq<nat> {
    Seq::new(view.len(), |i: int| extent(shape, view[i].0))
}

/// The strides of a view's axes.
pub open spec fn view_strides(strides: Seq<usize>, view: Seq<(Seq<usize>, usize)>) -> Seq<usize> {
    Seq::new(view.len(), |i: int| strides[view[i].1 as int])
}

/// The layout order lists every dim once.
pub proof fn lemma_layout_order(shape: Seq<usize>, strides: Seq<usize>)
    requires
        shape.len() <= usize::MAX,
    ensures
        layout_order(shape, strides).len() == shape.len(),
        layout_order(shape, strides).no_duplicates(),
        forall|i: int|
            0 <= i < shape.len() ==> (#[trigger] layout_order(shape, strides)[i]) < shape.len(),
        forall|dim: usize| #[trigger]
            layout_order(shape, strides).contains(dim) <==> dim < shape.len(),
{
    let dims = all_dims(shape.len());
    lemma_outer_to_inner_keeps_dims(strides, dims);
    assert forall|dim: usize| #[trigger]
        layout_order(shape, strides).contains(dim) <==> dim < shape.len() by {
        if dim < shape.len() {
            assert(dims[dim as int] == dim);
        }
    }
    assert forall|i: int| 0 <= i < shape.len() implies (#[trigger] layout_order(
        shape,
        strides,
    )[i]) < shape.len() by {
        assert(layout_order(shape, strides).contains(layout_order(shape, strides)[i]));
    }
}

/// Filtering keeps what the predicate takes, and only that.
pub(crate) proof fn lemma_filter_elements(dims: Seq<usize>, pred: spec_fn(usize) -> bool)
    ensures
        forall|dim: usize| #[trigger]
            dims.filter(pred).contains(dim) <==> dims.contains(dim) && pred(dim),
        forall|i: int|
            0 <= i < dims.filter(pred).len() ==> dims.contains(#[trigger] dims.filter(pred)[i])
                && pred(dims.filter(pred)[i]),
    decreases dims.len(),
{
    reveal(Seq::filter);
    if dims.len() > 0 {
        let rest = dims.drop_last();
        lemma_filter_elements(rest, pred);
        rest.lemma_filter_push(dims.last(), pred);
        assert(rest.push(dims.last()) =~= dims);
        assert forall|dim: usize| #[trigger]
            dims.filter(pred).contains(dim) <==> dims.contains(dim) && pred(dim) by {
            let kept = rest.filter(pred);
            if dims.contains(dim) && pred(dim) {
                let i = choose|i: int| 0 <= i < dims.len() && dims[i] == dim;
                if i < dims.len() - 1 {
                    assert(rest[i] == dim);
                    assert(kept.contains(dim));
                    let k = choose|k: int| 0 <= k < kept.len() && kept[k] == dim;
                    assert(dims.filter(pred)[k] == dim);
                } else {
                    assert(dims.filter(pred).last() == dim);
                }
            }
            if dims.filter(pred).contains(dim) {
                let k = choose|k: int|
                    0 <= k < dims.filter(pred).len() && dims.filter(pred)[k] == dim;
                if k < kept.len() {
                    assert(kept[k] == dim);
                    assert(kept.contains(dim));
                    let i = choose|i: int| 0 <= i < rest.len() && rest[i] == dim;
                    assert(dims[i] == dim);
                } else {
                    assert(dims[dims.len() - 1] == dim);
                }
            }
        }
        assert forall|i: int| 0 <= i < dims.filter(pred).len() implies dims.contains(
            #[trigger] dims.filter(pred)[i],
        ) && pred(dims.filter(pred)[i]) by {
            assert(dims.filter(pred).contains(dims.filter(pred)[i]));
        }
    }
}

/// Filtering a listing without duplicates leaves none.
pub(crate) proof fn lemma_filter_no_duplicates(dims: Seq<usize>, pred: spec_fn(usize) -> bool)
    requires
        dims.no_duplicates(),
    ensures
        dims.filter(pred).no_duplicates(),
    decreases dims.len(),
{
    reveal(Seq::filter);
    if dims.len() > 0 {
        let rest = dims.drop_last();
        lemma_filter_no_duplicates(rest, pred);
        lemma_filter_elements(rest, pred);
        rest.lemma_filter_push(dims.last(), pred);
        assert(rest.push(dims.last()) =~= dims);
        assert(!rest.contains(dims.last()));
    }
}

/// Of the dims up to `count`, the first reduced one is the first of all, and
/// the next dim is that one only where none came before.
proof fn lemma_head_is_first(dims: Seq<usize>, reduced: Seq<usize>, count: int)
    requires
        0 <= count < dims.len(),
        dims.no_duplicates(),
    ensures
        reduced.contains(dims[count]) ==> {
            &&& dims.filter(is_reduced(reduced)).len() > 0
            &&& (dims[count] == dims.filter(is_reduced(reduced))[0]) <==> dims.take(count).filter(
                is_reduced(reduced),
            ).len() == 0
        },
{
    let pred = is_reduced(reduced);
    let seen = dims.take(count);
    let rest = dims.skip(count + 1);
    assert(dims =~= seen.push(dims[count]) + rest);
    Seq::filter_distributes_over_add(seen.push(dims[count]), rest, pred);
    seen.lemma_filter_push(dims[count], pred);
    lemma_filter_elements(seen, pred);
    if reduced.contains(dims[count]) {
        let kept = seen.filter(pred);
        if kept.len() > 0 {
            assert(dims.filter(pred)[0] == kept[0]);
            assert(seen.contains(kept[0]));
        }
    }
}

/// Whether `dims` holds `dim`.
fn holds(dims: &[usize], dim: usize) -> (found: bool)
    ensures
        found == dims@.contains(dim),
{
    let mut i: usize = 0;
    while i < dims.len()
        invariant
            i <= dims@.len(),
            forall|j: int| 0 <= j < i ==> dims@[j] != dim,
        decreases dims@.len() - i,
    {
        if dims[i] == dim {
            return true;
        }
        i = i + 1;
    }
    false
}

/// The dims whose size is not one.
fn keep_sized(dims: &[usize], shape: &[usize]) -> (kept: Vec<usize>)
    requires
        forall|i: int| 0 <= i < dims@.len() ==> (#[trigger] dims@[i]) < shape@.len(),
    ensures
        kept@ == dims@.filter(is_sized(shape@)),
{
    let mut kept: Vec<usize> = Vec::new();
    let mut i: usize = 0;
    assert(dims@.take(0).filter(is_sized(shape@)) =~= Seq::<usize>::empty()) by {
        reveal(Seq::filter);
    }
    while i < dims.len()
        invariant
            i <= dims@.len(),
            forall|j: int| 0 <= j < dims@.len() ==> (#[trigger] dims@[j]) < shape@.len(),
            kept@ == dims@.take(i as int).filter(is_sized(shape@)),
        decreases dims@.len() - i,
    {
        proof {
            dims@.take(i as int).lemma_filter_push(dims@[i as int], is_sized(shape@));
            assert(dims@.take(i + 1) =~= dims@.take(i as int).push(dims@[i as int]));
        }
        if shape[dims[i]] != 1 {
            kept.push(dims[i]);
        }
        i = i + 1;
    }
    assert(dims@.take(i as int) =~= dims@);
    kept
}

/// The dims that are reduced.
fn keep_reduced(dims: &[usize], reduced: &[usize]) -> (kept: Vec<usize>)
    ensures
        kept@ == dims@.filter(is_reduced(reduced@)),
{
    let mut kept: Vec<usize> = Vec::new();
    let mut i: usize = 0;
    assert(dims@.take(0).filter(is_reduced(reduced@)) =~= Seq::<usize>::empty()) by {
        reveal(Seq::filter);
    }
    while i < dims.len()
        invariant
            i <= dims@.len(),
            kept@ == dims@.take(i as int).filter(is_reduced(reduced@)),
        decreases dims@.len() - i,
    {
        proof {
            dims@.take(i as int).lemma_filter_push(dims@[i as int], is_reduced(reduced@));
            assert(dims@.take(i + 1) =~= dims@.take(i as int).push(dims@[i as int]));
        }
        if holds(reduced, dims[i]) {
            kept.push(dims[i]);
        }
        i = i + 1;
    }
    assert(dims@.take(i as int) =~= dims@);
    kept
}

/// What is unbroken up to a dim stays so with it, unless it is reduced and the
/// one before it is not though one further out is.
proof fn lemma_unbroken_next(dims: Seq<usize>, reduced: Seq<usize>, count: int)
    requires
        0 <= count < dims.len(),
        unbroken(dims.take(count), reduced),
        reduced.contains(dims[count]) ==> forall|i: int|
            0 <= i < count - 1 && reduced.contains(#[trigger] dims[i]) ==> reduced.contains(
                dims[count - 1],
            ),
    ensures
        unbroken(dims.take(count + 1), reduced),
{
    let longer = dims.take(count + 1);
    let shorter = dims.take(count);
    assert forall|i: int, j: int, k: int|
        0 <= i < j < k < longer.len() && reduced.contains(#[trigger] longer[i])
            && reduced.contains(#[trigger] longer[k]) implies reduced.contains(
        #[trigger] longer[j],
    ) by {
        assert(longer[i] == dims[i] && longer[j] == dims[j] && longer[k] == dims[k]);
        assert(shorter[i] == dims[i] && shorter[j] == dims[j]);
        if k < count {
            assert(shorter[k] == dims[k]);
        } else if j < count - 1 {
            assert(shorter[count - 1] == dims[count - 1]);
        }
    }
}

/// Whether the reduced dims among `dims` are neighbours.
fn is_unbroken(dims: &[usize], reduced: &[usize]) -> (answer: bool)
    ensures
        answer == unbroken(dims@, reduced@),
{
    let mut last: Option<usize> = None;
    let mut i: usize = 0;
    while i < dims.len()
        invariant
            i <= dims@.len(),
            last matches Some(p) ==> p < i && reduced@.contains(dims@[p as int]) && forall|j: int|
                p < j < i ==> !reduced@.contains(#[trigger] dims@[j]),
            last is None ==> forall|j: int| 0 <= j < i ==> !reduced@.contains(#[trigger] dims@[j]),
            unbroken(dims@.take(i as int), reduced@),
        decreases dims@.len() - i,
    {
        let reduces = holds(reduced, dims[i]);
        if reduces {
            if let Some(p) = last {
                if i != p + 1 {
                    assert(!reduced@.contains(dims@[p + 1]));
                    return false;
                }
            }
        }
        proof {
            lemma_unbroken_next(dims@, reduced@, i as int);
        }
        if reduces {
            last = Some(i);
        }
        i = i + 1;
    }
    assert(dims@.take(i as int) =~= dims@);
    true
}

/// Whether each of `dims` steps over exactly what the next one spans.
fn is_packed(dims: &[usize], shape: &[usize], strides: &[usize]) -> (answer: bool)
    requires
        forall|i: int| 0 <= i < dims@.len() ==> (#[trigger] dims@[i]) < shape@.len(),
        shape@.len() <= strides@.len(),
    ensures
        answer == packed(shape@, strides@, dims@),
{
    let mut i: usize = 1;
    while i < dims.len()
        invariant
            1 <= i,
            dims@.len() >= 1 ==> i <= dims@.len(),
            forall|j: int| 0 <= j < dims@.len() ==> (#[trigger] dims@[j]) < shape@.len(),
            shape@.len() <= strides@.len(),
            forall|j: int|
                #![trigger dims@[j]]
                0 <= j < i - 1 && j < dims@.len() - 1 ==> strides@[dims@[j] as int]
                    == strides@[dims@[j + 1] as int] * shape@[dims@[j + 1] as int],
        decreases dims@.len() - i,
    {
        let outer: usize = dims[i - 1];
        let inner: usize = dims[i];
        let spanned = strides[inner].checked_mul(shape[inner]);
        match spanned {
            Some(span) => {
                if strides[outer] != span {
                    assert(dims@[i - 1] == outer);
                    return false;
                }
            },
            None => {
                assert(dims@[i - 1] == outer);
                return false;
            },
        }
        i = i + 1;
    }
    true
}

impl ReduceView {
    /// The view that lists each of `rank` dims on its own.
    pub fn identity(rank: usize) -> (view: Self)
        ensures
            view@ == identity_view(rank as nat),
    {
        let mut axes: Vec<ViewAxis> = Vec::with_capacity(rank);
        let mut dim: usize = 0;
        while dim < rank
            invariant
                dim <= rank,
                axes@.len() == dim,
                forall|i: int| 0 <= i < dim ==> (#[trigger] axes@[i])@ == own_axis(i as usize),
            decreases rank - dim,
        {
            let axis = ViewAxis { dims: vec![dim], stride_dim: dim };
            assert(axis@.0 =~= seq![dim]);
            axes.push(axis);
            dim = dim + 1;
        }
        let view = ReduceView { axes };
        assert(view@ =~= identity_view(rank as nat));
        view
    }

    /// The view in which `reduced` is one axis, if those dims form one run of
    /// the layout given by `strides`. A span too long for `usize` ends a run.
    pub fn merged(shape: &[usize], strides: &[usize], reduced: &[usize]) -> (merged: Option<
        MergedReduceView,
    >)
        requires
            shape@.len() <= strides@.len(),
            reduced@.len() > 0,
            is_one_run(shape@, strides@, reduced@) ==> {
                &&& forall|i: int|
                    0 <= i < reduced@.len() ==> (#[trigger] reduced@[i]) < shape@.len()
                &&& extent(shape@, reduced@) <= usize::MAX
            },
        ensures
            merged is Some <==> is_one_run(shape@, strides@, reduced@),
            merged matches Some(m) ==> {
                let leads = axis_leads(shape@, strides@, reduced@);
                &&& m.view@ == merged_view(shape@, strides@, reduced@)
                &&& m.axis < leads.len()
                &&& leads[m.axis as int] == run_head(shape@, strides@, reduced@)
                &&& m.shape@.len() == m.view@.len()
                &&& m.strides@.len() == m.view@.len()
                &&& forall|i: int|
                    0 <= i < m.view@.len() ==> #[trigger] m.shape@[i] == view_sizes(
                        shape@,
                        m.view@,
                    )[i]
                &&& forall|i: int|
                    0 <= i < m.view@.len() ==> #[trigger] m.strides@[i] == view_strides(
                        strides@,
                        m.view@,
                    )[i]
            },
    {
        let rank: usize = shape.len();
        let mut dims: Vec<usize> = Vec::with_capacity(rank);
        while dims.len() < rank
            invariant
                dims@.len() <= rank,
                dims@ == all_dims(dims@.len()),
            decreases rank - dims@.len(),
        {
            dims.push(dims.len());
            assert(dims@ =~= all_dims(dims@.len()));
        }
        let order = sort_outer_to_inner(&dims, strides);
        proof {
            lemma_layout_order(shape@, strides@);
            lemma_filter_elements(order@, is_sized(shape@));
        }
        let sized = keep_sized(&order, shape);
        let run = keep_reduced(&sized, reduced);
        let heads = keep_reduced(&order, reduced);
        proof {
            lemma_filter_elements(sized@, is_reduced(reduced@));
            lemma_filter_elements(order@, is_reduced(reduced@));
        }
        if heads.len() == 0 {
            proof {
                if exists|i: int| 0 <= i < reduced@.len() && (#[trigger] reduced@[i]) < shape@.len() {
                    let i = choose|i: int|
                        0 <= i < reduced@.len() && (#[trigger] reduced@[i]) < shape@.len();
                    assert(order@.contains(reduced@[i]));
                    assert(heads@.contains(reduced@[i]));
                }
            }
            return None;
        }
        let head: usize = heads[0];
        proof {
            assert(heads@.contains(head));
            let i = choose|i: int| 0 <= i < reduced@.len() && reduced@[i] == head;
            assert(reduced@[i] < shape@.len());
        }
        if !is_unbroken(&sized, reduced) {
            return None;
        }
        if !is_packed(&run, shape, strides) {
            return None;
        }
        let stride_dim: usize = if run.len() > 0 {
            run[run.len() - 1]
        } else {
            reduced[0]
        };
        let run_listed = sort_outer_to_inner(reduced, strides);
        let run_axis = ViewAxis { dims: run_listed, stride_dim };
        let ghost leads_here = leads_axis(reduced@, head);
        proof {
            lemma_outer_to_inner_keeps_dims(strides@, reduced@);
            lemma_extent_ignores_order(shape@, reduced@, outer_to_inner(strides@, reduced@));
            assert(run_axis@ == self::run_axis(shape@, strides@, reduced@));
            assert forall|j: int| 0 <= j < run_axis.dims@.len() implies (
            #[trigger] run_axis.dims@[j]) < shape@.len() by {
                assert(outer_to_inner(strides@, reduced@).contains(run_axis.dims@[j]));
            }
            assert(order@.take(0).filter(leads_here) =~= Seq::<usize>::empty()) by {
                reveal(Seq::filter);
            }
        }
        let mut axes: Vec<ViewAxis> = Vec::with_capacity(rank);
        let mut axis: usize = 0;
        let mut found: bool = false;
        let mut view_shape: Vec<usize> = Vec::with_capacity(rank);
        let mut view_stride: Vec<usize> = Vec::with_capacity(rank);
        let mut i: usize = 0;
        while i < order.len()
            invariant
                i <= order@.len(),
                rank == shape@.len(),
                order@ == layout_order(shape@, strides@),
                order@.len() == shape@.len(),
                order@.no_duplicates(),
                forall|j: int| 0 <= j < order@.len() ==> (#[trigger] order@[j]) < shape@.len(),
                shape@.len() <= strides@.len(),
                head == order@.filter(is_reduced(reduced@))[0],
                order@.filter(is_reduced(reduced@)).len() > 0,
                leads_here == leads_axis(reduced@, head),
                forall|j: int|
                    0 <= j < run_axis.dims@.len() ==> (#[trigger] run_axis.dims@[j]) < shape@.len(),
                extent(shape@, run_axis.dims@) <= usize::MAX,
                run_axis.stride_dim < strides@.len(),
                axes@.len() == order@.take(i as int).filter(leads_here).len(),
                view_shape@.len() == axes@.len(),
                view_stride@.len() == axes@.len(),
                forall|j: int|
                    0 <= j < axes@.len() ==> (#[trigger] axes@[j])@ == if order@.take(
                        i as int,
                    ).filter(leads_here)[j] == head {
                        run_axis@
                    } else {
                        own_axis(order@.take(i as int).filter(leads_here)[j])
                    },
                forall|j: int|
                    0 <= j < axes@.len() ==> #[trigger] view_shape@[j] == extent(
                        shape@,
                        axes@[j].dims@,
                    ),
                forall|j: int|
                    0 <= j < axes@.len() ==> #[trigger] view_stride@[j]
                        == strides@[axes@[j].stride_dim as int],
                found == (order@.take(i as int).filter(is_reduced(reduced@)).len() > 0),
                found ==> axis < axes@.len() && order@.take(i as int).filter(leads_here)[axis as int]
                    == head,
            decreases order@.len() - i,
        {
            let dim: usize = order[i];
            proof {
                let seen = order@.take(i as int);
                assert(order@.take(i + 1) =~= seen.push(dim));
                seen.lemma_filter_push(dim, leads_here);
                seen.lemma_filter_push(dim, is_reduced(reduced@));
                lemma_head_is_first(order@, reduced@, i as int);
                lemma_extent_of_one(shape@, dim);
            }
            let reduces = holds(reduced, dim);
            if !reduces || !found {
                let next = if reduces {
                    found = true;
                    axis = axes.len();
                    run_axis.clone()
                } else {
                    ViewAxis { dims: vec![dim], stride_dim: dim }
                };
                assert(!reduces ==> next.dims@ =~= seq![dim]);
                view_shape.push(extent_of(shape, &next.dims));
                view_stride.push(strides[next.stride_dim]);
                axes.push(next);
            }
            i = i + 1;
        }
        let view = ReduceView { axes };
        proof {
            assert(order@.take(i as int) =~= order@);
            assert(view@ =~= merged_view(shape@, strides@, reduced@));
        }
        Some(MergedReduceView { view, axis, shape: view_shape, strides: view_stride })
    }
}

} // verus!
