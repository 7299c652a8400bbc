//! What the results of a reduction's view are, written out from its inputs.

use crate::engine::LocalArgs;
use crate::layout::{
    all_dims, extent, extent_of, lemma_outer_to_inner_keeps_dims, outer_to_inner, outside_or_same,
    sort_outer_to_inner,
};
use crate::reduce::args::{view_shape, view_stride};
use crate::reduce::laws::{
    in_range, law_merged_axis_reaches_elements, law_position_is_injective, lemma_axis_leads,
    lemma_filter_keeps_order, lemma_reduced_in_layout_order, offset, position,
};
use crate::reduce::view::{
    axis_leads, is_one_run, is_reduced, is_sized, layout_order, leads_axis, lemma_filter_elements,
    lemma_filter_no_duplicates, lemma_layout_order, packed, run_dims, run_head, run_stride_dim,
    sized_dims, unbroken, MergedReduceView, ReduceView,
};
use vstd::prelude::*;
use vstd::relations::sorted_by;

verus! {

/// Whether dim `a` lies outside dim `b` in memory: its stride is the larger,
/// or the strides are the same and its number is the smaller.
spec fn lies_outside(strides: Seq<usize>, a: usize, b: usize) -> bool {
    strides[a as int] > strides[b as int] || (strides[a as int] == strides[b as int] && a < b)
}

/// Whether a dim takes up space.
spec fn takes_space(shape: Seq<usize>, dim: usize) -> bool {
    dim < shape.len() && shape[dim as int] != 1
}

/// Whether `reduced` forms one run of a layout: it names a dim of it; no kept
/// dim that takes up space lies between two reduced ones that do; and of two
/// reduced ones that do, with none between them, the outer steps over exactly
/// what the inner spans.
spec fn forms_one_run(shape: Seq<usize>, strides: Seq<usize>, reduced: Seq<usize>) -> bool {
    &&& exists|dim: usize| dim < shape.len() && #[trigger] reduced.contains(dim)
    &&& forall|a: usize, b: usize, c: usize|
        #![trigger reduced.contains(a), reduced.contains(b), reduced.contains(c)]
        a < shape.len() && b < shape.len() && c < shape.len()
            && shape[a as int] != 1 && shape[b as int] != 1 && shape[c as int] != 1
            && (strides[a as int] > strides[b as int]
                || (strides[a as int] == strides[b as int] && a < b))
            && (strides[b as int] > strides[c as int]
                || (strides[b as int] == strides[c as int] && b < c))
            && reduced.contains(a) && reduced.contains(c)
            ==> reduced.contains(b)
    &&& forall|a: usize, b: usize|
        #![trigger reduced.contains(a), reduced.contains(b)]
        a < shape.len() && b < shape.len()
            && shape[a as int] != 1 && shape[b as int] != 1
            && reduced.contains(a) && reduced.contains(b)
            && (strides[a as int] > strides[b as int]
                || (strides[a as int] == strides[b as int] && a < b))
            && !(exists|c: usize|
                #![trigger reduced.contains(c)]
                c < shape.len() && shape[c as int] != 1 && reduced.contains(c)
                    && (strides[a as int] > strides[c as int]
                        || (strides[a as int] == strides[c as int] && a < c))
                    && (strides[c as int] > strides[b as int]
                        || (strides[c as int] == strides[b as int] && c < b)))
            ==> strides[a as int] == strides[b as int] * shape[b as int]
}

/// In a listing outer to inner without duplicates, the further out stands the
/// further ahead.
proof fn lemma_listed_in_order(strides: Seq<usize>, dims: Seq<usize>)
    requires
        sorted_by(dims, outside_or_same(strides)),
        dims.no_duplicates(),
    ensures
        forall|i: int, j: int|
            #![trigger dims[i], dims[j]]
            0 <= i < dims.len() && 0 <= j < dims.len() ==> (i < j <==> lies_outside(
                strides,
                dims[i],
                dims[j],
            )),
{
    let leq = outside_or_same(strides);
    assert forall|i: int, j: int|
        #![trigger dims[i], dims[j]]
        0 <= i < dims.len() && 0 <= j < dims.len() implies (i < j <==> lies_outside(
        strides,
        dims[i],
        dims[j],
    )) by {
        if i < j {
            assert(leq(dims[i], dims[j]));
        }
        if j < i {
            assert(leq(dims[j], dims[i]));
        }
    }
}

/// The dims that take up space, and those of them that are reduced, are listed
/// outer to inner, each once.
proof fn lemma_sized_and_run(shape: Seq<usize>, strides: Seq<usize>, reduced: Seq<usize>)
    requires
        shape.len() <= usize::MAX,
    ensures
        sorted_by(sized_dims(shape, strides), outside_or_same(strides)),
        sized_dims(shape, strides).no_duplicates(),
        forall|dim: usize| #[trigger]
            sized_dims(shape, strides).contains(dim) <==> takes_space(shape, dim),
        sorted_by(run_dims(shape, strides, reduced), outside_or_same(strides)),
        run_dims(shape, strides, reduced).no_duplicates(),
        forall|dim: usize| #[trigger]
            run_dims(shape, strides, reduced).contains(dim) <==> takes_space(shape, dim)
                && reduced.contains(dim),
{
    let order = layout_order(shape, strides);
    let sized = sized_dims(shape, strides);
    lemma_layout_order(shape, strides);
    lemma_outer_to_inner_keeps_dims(strides, all_dims(shape.len()));
    lemma_filter_keeps_order(order, is_sized(shape), outside_or_same(strides));
    lemma_filter_no_duplicates(order, is_sized(shape));
    lemma_filter_elements(order, is_sized(shape));
    lemma_filter_keeps_order(sized, is_reduced(reduced), outside_or_same(strides));
    lemma_filter_no_duplicates(sized, is_reduced(reduced));
    lemma_filter_elements(sized, is_reduced(reduced));
}

/// What the search for a run finds is what a run is.
proof fn lemma_one_run(shape: Seq<usize>, strides: Seq<usize>, reduced: Seq<usize>)
    requires
        shape.len() <= usize::MAX,
    ensures
        is_one_run(shape, strides, reduced) <==> forms_one_run(shape, strides, reduced),
{
    let sized = sized_dims(shape, strides);
    let run = run_dims(shape, strides, reduced);
    lemma_sized_and_run(shape, strides, reduced);
    lemma_listed_in_order(strides, sized);
    lemma_listed_in_order(strides, run);
    if is_one_run(shape, strides, reduced) {
        let i = choose|i: int| 0 <= i < reduced.len() && (#[trigger] reduced[i]) < shape.len();
        assert(reduced.contains(reduced[i]));
        assert forall|a: usize, b: usize, c: usize|
            #![trigger reduced.contains(a), reduced.contains(b), reduced.contains(c)]
            takes_space(shape, a) && takes_space(shape, b) && takes_space(shape, c) && lies_outside(
                strides,
                a,
                b,
            ) && lies_outside(strides, b, c) && reduced.contains(a) && reduced.contains(
                c,
            ) implies reduced.contains(b) by {
            assert(sized.contains(a) && sized.contains(b) && sized.contains(c));
            let i = choose|i: int| 0 <= i < sized.len() && sized[i] == a;
            let j = choose|j: int| 0 <= j < sized.len() && sized[j] == b;
            let k = choose|k: int| 0 <= k < sized.len() && sized[k] == c;
            assert(i < j < k);
            assert(reduced.contains(sized[i]) && reduced.contains(sized[k]));
            assert(reduced.contains(sized[j]));
        }
        assert forall|a: usize, b: usize|
            #![trigger reduced.contains(a), reduced.contains(b)]
            takes_space(shape, a) && takes_space(shape, b) && reduced.contains(a)
                && reduced.contains(b) && lies_outside(strides, a, b) && !(exists|c: usize|
                #![trigger reduced.contains(c)]
                takes_space(shape, c) && reduced.contains(c) && lies_outside(strides, a, c)
                    && lies_outside(strides, c, b)) implies strides[a as int] == strides[b as int]
            * shape[b as int] by {
            assert(run.contains(a) && run.contains(b));
            let i = choose|i: int| 0 <= i < run.len() && run[i] == a;
            let j = choose|j: int| 0 <= j < run.len() && run[j] == b;
            assert(i < j);
            if i + 1 < j {
                let c = run[i + 1];
                assert(run.contains(c));
                assert(lies_outside(strides, run[i], run[i + 1]));
                assert(lies_outside(strides, run[i + 1], run[j]));
                assert(takes_space(shape, c));
            }
            assert(run[i] == a && run[i + 1] == b);
        }
    }
    if forms_one_run(shape, strides, reduced) {
        let dim = choose|dim: usize| dim < shape.len() && #[trigger] reduced.contains(dim);
        let at = choose|at: int| 0 <= at < reduced.len() && reduced[at] == dim;
        assert(reduced[at] < shape.len());
        assert forall|i: int, j: int, k: int|
            0 <= i < j < k < sized.len() && reduced.contains(#[trigger] sized[i])
                && reduced.contains(#[trigger] sized[k]) implies reduced.contains(
            #[trigger] sized[j],
        ) by {
            assert(sized.contains(sized[i]) && sized.contains(sized[j]) && sized.contains(
                sized[k],
            ));
            assert(takes_space(shape, sized[i]) && takes_space(shape, sized[j]) && takes_space(
                shape,
                sized[k],
            ));
            assert(lies_outside(strides, sized[i], sized[j]));
            assert(lies_outside(strides, sized[j], sized[k]));
        }
        assert(unbroken(sized, reduced));
        assert forall|i: int|
            #![trigger run[i]]
            0 <= i < run.len() - 1 implies strides[run[i] as int] == strides[run[i + 1] as int]
            * shape[run[i + 1] as int] by {
            let a = run[i];
            let b = run[i + 1];
            assert(run.contains(a) && run.contains(b));
            assert(takes_space(shape, a) && takes_space(shape, b));
            assert(lies_outside(strides, a, b));
            assert forall|c: usize|
                #![trigger reduced.contains(c)]
                takes_space(shape, c) && reduced.contains(c) implies !(lies_outside(strides, a, c)
                && lies_outside(strides, c, b)) by {
                assert(run.contains(c));
                let k = choose|k: int| 0 <= k < run.len() && run[k] == c;
                assert(i < k <==> lies_outside(strides, run[i], run[k]));
                assert(k < i + 1 <==> lies_outside(strides, run[k], run[i + 1]));
            }
        }
        assert(packed(shape, strides, run));
    }
}

/// Merging succeeds exactly where the reduced dims form one run of the layout:
/// they name a dim of it; no kept dim lies between two of them; and of two of
/// them with none between, the outer steps over exactly what the inner spans.
/// A dim lies outside another if its stride is the larger, or if the strides
/// are the same and its number is the smaller. Dims of size one do not count.
pub proof fn law_merging_finds_every_run(
    shape: &[usize],
    strides: &[usize],
    reduced: &[usize],
    merged: Option<MergedReduceView>,
)
    requires
        shape@.len() <= strides@.len(),
        call_ensures(ReduceView::merged, (shape, strides, reduced), merged),
    ensures
        merged is Some <==> {
            &&& exists|dim: usize| dim < shape@.len() && #[trigger] reduced@.contains(dim)
            &&& forall|a: usize, b: usize, c: usize|
                #![trigger reduced@.contains(a), reduced@.contains(b), reduced@.contains(c)]
                a < shape@.len() && b < shape@.len() && c < shape@.len()
                    && shape@[a as int] != 1 && shape@[b as int] != 1 && shape@[c as int] != 1
                    && (strides@[a as int] > strides@[b as int]
                        || (strides@[a as int] == strides@[b as int] && a < b))
                    && (strides@[b as int] > strides@[c as int]
                        || (strides@[b as int] == strides@[c as int] && b < c))
                    && reduced@.contains(a) && reduced@.contains(c)
                    ==> reduced@.contains(b)
            &&& forall|a: usize, b: usize|
                #![trigger reduced@.contains(a), reduced@.contains(b)]
                a < shape@.len() && b < shape@.len()
                    && shape@[a as int] != 1 && shape@[b as int] != 1
                    && reduced@.contains(a) && reduced@.contains(b)
                    && (strides@[a as int] > strides@[b as int]
                        || (strides@[a as int] == strides@[b as int] && a < b))
                    && !(exists|c: usize|
                        #![trigger reduced@.contains(c)]
                        c < shape@.len() && shape@[c as int] != 1 && reduced@.contains(c)
                            && (strides@[a as int] > strides@[c as int]
                                || (strides@[a as int] == strides@[c as int] && a < c))
                            && (strides@[c as int] > strides@[b as int]
                                || (strides@[c as int] == strides@[b as int] && c < b)))
                    ==> strides@[a as int] == strides@[b as int] * shape@[b as int]
        },
{
    assert(shape.len() == shape@.len());
    lemma_one_run(shape@, strides@, reduced@);
}

/// The outermost reduced dim heads the listing of the reduced dims.
proof fn lemma_head_heads_listing(shape: Seq<usize>, strides: Seq<usize>, reduced: Seq<usize>)
    requires
        shape.len() <= usize::MAX,
        reduced.len() > 0,
        forall|i: int| 0 <= i < reduced.len() ==> (#[trigger] reduced[i]) < shape.len(),
    ensures
        outer_to_inner(strides, reduced).len() > 0,
        outer_to_inner(strides, reduced)[0] == run_head(shape, strides, reduced),
{
    let order = layout_order(shape, strides);
    let kept = order.filter(is_reduced(reduced));
    let listed = outer_to_inner(strides, reduced);
    let leq = outside_or_same(strides);
    lemma_layout_order(shape, strides);
    lemma_outer_to_inner_keeps_dims(strides, all_dims(shape.len()));
    lemma_outer_to_inner_keeps_dims(strides, reduced);
    lemma_filter_elements(order, is_reduced(reduced));
    lemma_filter_keeps_order(order, is_reduced(reduced), leq);
    let first = listed[0];
    assert(listed.contains(first));
    let at = choose|at: int| 0 <= at < reduced.len() && reduced[at] == first;
    assert(reduced[at] < shape.len());
    assert(order.contains(first));
    assert(kept.contains(first));
    let i = choose|i: int| 0 <= i < kept.len() && kept[i] == first;
    let head = kept[0];
    assert(kept.contains(head));
    assert(listed.contains(head));
    let j = choose|j: int| 0 <= j < listed.len() && listed[j] == head;
    if i > 0 {
        assert(leq(kept[0], kept[i]));
    }
    if j > 0 {
        assert(leq(listed[0], listed[j]));
    }
}

/// The extent of some dims is the product of their sizes.
pub(crate) proof fn lemma_extent_is_product(
    shape: Seq<usize>,
    dims: Seq<usize>,
    step: spec_fn(int, usize) -> int,
)
    requires
        forall|product: int, dim: usize| #[trigger]
            step(product, dim) == product * shape[dim as int],
    ensures
        extent(shape, dims) == dims.fold_left(1, step),
    decreases dims.len(),
{
    if dims.len() > 0 {
        lemma_extent_is_product(shape, dims.drop_last(), step);
    }
}

/// What a merged view is: one axis lists the reduced dims, outer to inner, and
/// each other axis stands for one kept dim and carries its stride; every kept
/// dim has such an axis; and the axes stand outer to inner. The merged axis
/// carries the stride of the innermost of its dims that takes up space. The
/// size of an axis is the product over its dims, its stride that of the dim
/// that it carries.
pub proof fn law_merged_view_keeps_the_other_dims(
    shape: &[usize],
    strides: &[usize],
    reduced: &[usize],
    merged: Option<MergedReduceView>,
)
    requires
        shape@.len() <= strides@.len(),
        reduced@.len() > 0,
        forall|i: int| 0 <= i < reduced@.len() ==> (#[trigger] reduced@[i]) < shape@.len(),
        call_ensures(ReduceView::merged, (shape, strides, reduced), merged),
    ensures
        merged matches Some(m) ==> {
            let axes = m.view.axes@;
            &&& m.axis < axes.len()
            &&& axes[m.axis as int].dims@.to_multiset() == reduced@.to_multiset()
            &&& forall|i: int, j: int|
                #![trigger axes[m.axis as int].dims@[i], axes[m.axis as int].dims@[j]]
                0 <= i < j < axes[m.axis as int].dims@.len() ==> {
                    let a = axes[m.axis as int].dims@[i];
                    let b = axes[m.axis as int].dims@[j];
                    strides@[a as int] > strides@[b as int] || (strides@[a as int]
                        == strides@[b as int] && a <= b)
                }
            &&& forall|i: int|
                #![trigger axes[i]]
                0 <= i < axes.len() && i != m.axis ==> axes[i].dims@.len() == 1 && axes[i].dims@[0]
                    < shape@.len() && !reduced@.contains(axes[i].dims@[0]) && axes[i].stride_dim
                    == axes[i].dims@[0]
            &&& forall|dim: usize|
                dim < shape@.len() && !#[trigger] reduced@.contains(dim) ==> exists|i: int|
                    0 <= i < axes.len() && i != m.axis && (#[trigger] axes[i]).dims@[0] == dim
            &&& forall|i: int, j: int|
                #![trigger axes[i], axes[j]]
                0 <= i < j < axes.len() ==> axes[i].dims@.len() > 0 && axes[j].dims@.len() > 0
                    && {
                    let a = axes[i].dims@[0];
                    let b = axes[j].dims@[0];
                    strides@[a as int] > strides@[b as int] || (strides@[a as int]
                        == strides@[b as int] && a < b)
                }
        },
        merged matches Some(m) ==> {
            let carried = m.view.axes@[m.axis as int].stride_dim;
            &&& forall|dim: usize|
                dim < shape@.len() && shape@[dim as int] != 1 && #[trigger] reduced@.contains(dim)
                    ==> carried < shape@.len() && shape@[carried as int] != 1 && reduced@.contains(
                    carried,
                ) && (dim == carried || strides@[dim as int] > strides@[carried as int] || (
                strides@[dim as int] == strides@[carried as int] && dim < carried))
            &&& (forall|dim: usize|
                dim < shape@.len() && shape@[dim as int] != 1 ==> !#[trigger] reduced@.contains(
                    dim,
                )) ==> carried == reduced@[0]
        },
        merged matches Some(m) ==> {
            &&& m.shape@.len() == m.view.axes@.len()
            &&& m.strides@.len() == m.view.axes@.len()
            &&& forall|i: int|
                0 <= i < m.view.axes@.len() ==> #[trigger] m.shape@[i]
                    == m.view.axes@[i].dims@.fold_left(
                    1int,
                    |product: int, dim: usize| product * shape@[dim as int],
                )
            &&& forall|i: int|
                0 <= i < m.view.axes@.len() ==> #[trigger] m.strides@[i]
                    == strides@[m.view.axes@[i].stride_dim as int]
        },
{
    if let Some(m) = merged {
        assert(shape.len() == shape@.len());
        let (shape, strides, reduced) = (shape@, strides@, reduced@);
        let axes = m.view.axes@;
        let leads = axis_leads(shape, strides, reduced);
        let head = run_head(shape, strides, reduced);
        let run = run_dims(shape, strides, reduced);
        let listed = outer_to_inner(strides, reduced);
        let order = layout_order(shape, strides);
        lemma_axis_leads(shape, strides, reduced);
        lemma_head_heads_listing(shape, strides, reduced);
        lemma_outer_to_inner_keeps_dims(strides, reduced);
        lemma_outer_to_inner_keeps_dims(strides, all_dims(shape.len()));
        lemma_filter_keeps_order(order, leads_axis(reduced, head), outside_or_same(strides));
        lemma_listed_in_order(strides, leads);
        lemma_sized_and_run(shape, strides, reduced);
        lemma_listed_in_order(strides, run);
        assert forall|i: int| 0 <= i < axes.len() implies #[trigger] m.view@[i] == (
            axes[i].dims@,
            axes[i].stride_dim,
        ) by {
        }
        let step = |product: int, dim: usize| product * shape[dim as int];
        assert forall|i: int| 0 <= i < axes.len() implies #[trigger] m.shape@[i]
            == axes[i].dims@.fold_left(1int, step) by {
            assert(m.view@[i].0 == axes[i].dims@);
            lemma_extent_is_product(shape, axes[i].dims@, step);
        }
        assert forall|i: int| 0 <= i < axes.len() implies #[trigger] m.strides@[i]
            == strides[axes[i].stride_dim as int] by {
            assert(m.view@[i].1 == axes[i].stride_dim);
        }
        assert(m.view@[m.axis as int] == (listed, run_stride_dim(shape, strides, reduced)));
        assert(axes[m.axis as int].dims@ == listed);
        assert forall|i: int|
            #![trigger axes[i]]
            0 <= i < axes.len() implies axes[i].dims@.len() > 0 && axes[i].dims@[0] == leads[i] && (i
            != m.axis ==> leads[i] != head && axes[i].dims@.len() == 1 && axes[i].stride_dim
            == leads[i]) by {
            assert(m.view@[i] == (axes[i].dims@, axes[i].stride_dim));
            if i != m.axis {
                assert(leads[i] != leads[m.axis as int]);
            }
        }
        assert forall|i: int|
            #![trigger axes[i]]
            0 <= i < axes.len() && i != m.axis implies axes[i].dims@[0] < shape.len()
            && !reduced.contains(axes[i].dims@[0]) by {
            assert(leads.contains(leads[i]));
        }
        assert forall|dim: usize|
            dim < shape.len() && !#[trigger] reduced.contains(dim) implies exists|i: int|
            0 <= i < axes.len() && i != m.axis && (#[trigger] axes[i]).dims@[0] == dim by {
            assert(leads.contains(dim));
            let i = choose|i: int| 0 <= i < leads.len() && leads[i] == dim;
            assert(axes[i].dims@[0] == dim);
        }
        assert forall|i: int, j: int|
            #![trigger axes[i], axes[j]]
            0 <= i < j < axes.len() implies lies_outside(
            strides,
            axes[i].dims@[0],
            axes[j].dims@[0],
        ) by {
            assert(lies_outside(strides, leads[i], leads[j]));
        }
        assert forall|i: int, j: int|
            #![trigger listed[i], listed[j]]
            0 <= i < j < listed.len() implies lies_outside(strides, listed[i], listed[j])
            || listed[i] == listed[j] by {
            let leq = outside_or_same(strides);
            assert(leq(listed[i], listed[j]));
        }
        let carried = axes[m.axis as int].stride_dim;
        assert forall|dim: usize|
            takes_space(shape, dim) && #[trigger] reduced.contains(dim) implies takes_space(
            shape,
            carried,
        ) && reduced.contains(carried) && (dim == carried || lies_outside(
            strides,
            dim,
            carried,
        )) by {
            assert(run.contains(dim));
            let i = choose|i: int| 0 <= i < run.len() && run[i] == dim;
            assert(run.contains(run[run.len() - 1]));
            assert(run[i] == dim && run[run.len() - 1] == carried);
        }
        if run.len() > 0 {
            assert(run.contains(run[0]));
            assert(takes_space(shape, run[0]) && reduced.contains(run[0]));
        }
    }
}

/// The sum of `part` over `dims`.
pub open spec fn total(dims: Seq<usize>, part: spec_fn(usize) -> int) -> int
    decreases dims.len(),
{
    if dims.len() == 0 {
        0
    } else {
        total(dims.drop_last(), part) + part(dims.last())
    }
}

/// A sum over dims is the sum over their indices.
proof fn lemma_total_of_indices(
    dims: Seq<usize>,
    part: spec_fn(usize) -> int,
    step: spec_fn(int, int) -> int,
    count: nat,
)
    requires
        count <= dims.len(),
        forall|sum: int, i: int|
            0 <= i < dims.len() ==> #[trigger] step(sum, i) == sum + part(dims[i]),
    ensures
        Seq::new(count, |i: int| i).fold_left(0, step) == total(dims.take(count as int), part),
    decreases count,
{
    let listed = Seq::new(count, |i: int| i);
    if count > 0 {
        lemma_total_of_indices(dims, part, step, (count - 1) as nat);
        assert(listed.drop_last() =~= Seq::new((count - 1) as nat, |i: int| i));
        assert(dims.take(count as int).drop_last() =~= dims.take(count - 1));
    }
}

/// A sum over dims is formed dim by dim.
pub(crate) proof fn lemma_total_is_fold(
    dims: Seq<usize>,
    part: spec_fn(usize) -> int,
    step: spec_fn(int, usize) -> int,
)
    requires
        forall|sum: int, dim: usize| #[trigger] step(sum, dim) == sum + part(dim),
    ensures
        dims.fold_left(0, step) == total(dims, part),
    decreases dims.len(),
{
    if dims.len() > 0 {
        lemma_total_is_fold(dims.drop_last(), part, step);
    }
}

/// A sum does not depend on the order of what is summed.
proof fn lemma_total_ignores_order(
    dims: Seq<usize>,
    others: Seq<usize>,
    part: spec_fn(usize) -> int,
)
    requires
        dims.to_multiset() == others.to_multiset(),
    ensures
        total(dims, part) == total(others, part),
{
    let step = |sum: int, dim: usize| sum + part(dim);
    lemma_total_is_fold(dims, part, step);
    lemma_total_is_fold(others, part, step);
    assert(vstd::seq_lib::commutative_foldl(step));
    vstd::seq_lib::lemma_fold_left_permutation(dims, others, step, 0);
}

/// The sum over the axes that lead with the kept dims and with `head` is that
/// over the kept dims, and what `head` stands for once it has come.
proof fn lemma_total_of_leads(
    dims: Seq<usize>,
    reduced: Seq<usize>,
    head: usize,
    part: spec_fn(usize) -> int,
    whole: int,
)
    requires
        dims.no_duplicates(),
        reduced.contains(head),
    ensures
        total(
            dims.filter(leads_axis(reduced, head)),
            |dim: usize|
                if dim == head {
                    whole
                } else {
                    part(dim)
                },
        ) + total(dims.filter(is_reduced(reduced)), part) == total(dims, part) + if dims.contains(
            head,
        ) {
            whole
        } else {
            0
        },
    decreases dims.len(),
{
    reveal(Seq::filter);
    let lead_part = |dim: usize|
        if dim == head {
            whole
        } else {
            part(dim)
        };
    if dims.len() > 0 {
        let rest = dims.drop_last();
        let dim = dims.last();
        lemma_total_of_leads(rest, reduced, head, part, whole);
        assert(rest.push(dim) =~= dims);
        rest.lemma_filter_push(dim, is_reduced(reduced));
        rest.lemma_filter_push(dim, leads_axis(reduced, head));
        let taken = rest.filter(is_reduced(reduced));
        let leads = rest.filter(leads_axis(reduced, head));
        assert(taken.push(dim).drop_last() =~= taken);
        assert(leads.push(dim).drop_last() =~= leads);
        assert(dims.contains(head) <==> rest.contains(head) || dim == head) by {
            if rest.contains(head) {
                let i = choose|i: int| 0 <= i < rest.len() && rest[i] == head;
                assert(dims[i] == head);
            }
            if dim == head {
                assert(dims[dims.len() - 1] == head);
            }
        }
        if dim == head {
            assert(!rest.contains(head));
        }
    }
}

/// Offsets and positions along some dims, read off coordinates along all dims.
proof fn lemma_offset_and_position(
    shape: Seq<usize>,
    strides: Seq<usize>,
    dims: Seq<usize>,
    coords: Seq<int>,
    count_up: spec_fn(int, usize) -> int,
)
    requires
        forall|i: int| 0 <= i < dims.len() ==> (#[trigger] dims[i]) < shape.len(),
        coords.len() == shape.len(),
        forall|dim: int| 0 <= dim < shape.len() ==> 0 <= #[trigger] coords[dim] < shape[dim],
        forall|at: int, dim: usize| #[trigger]
            count_up(at, dim) == at * shape[dim as int] + coords[dim as int],
    ensures
        ({
            let along = Seq::new(dims.len(), |i: int| coords[dims[i] as int] as nat);
            &&& in_range(shape, dims, along)
            &&& offset(strides, dims, along) == total(
                dims,
                |dim: usize| coords[dim as int] * strides[dim as int],
            )
            &&& position(shape, dims, along) == dims.fold_left(0, count_up)
        }),
    decreases dims.len(),
{
    let along = Seq::new(dims.len(), |i: int| coords[dims[i] as int] as nat);
    assert forall|i: int| 0 <= i < dims.len() implies (#[trigger] along[i])
        < shape[dims[i] as int] by {
        assert(coords[dims[i] as int] >= 0);
    }
    if dims.len() > 0 {
        let inner = dims.drop_last();
        assert forall|i: int| 0 <= i < inner.len() implies (#[trigger] inner[i]) < shape.len() by {
            assert(inner[i] == dims[i]);
        }
        lemma_offset_and_position(shape, strides, inner, coords, count_up);
        assert(along.drop_last() =~= Seq::new(
            inner.len(),
            |i: int| coords[inner[i] as int] as nat,
        ));
        assert(dims.last() == dims[dims.len() - 1]);
        assert(coords[dims.last() as int] >= 0);
    }
}

/// Along each axis of a merged view, the offset of coordinates is their
/// position times the axis' stride, and the position is below the axis' size.
pub(crate) proof fn lemma_axis_steps(
    shape: &[usize],
    strides: &[usize],
    reduced: &[usize],
    m: MergedReduceView,
    coords: Seq<int>,
    count_up: spec_fn(int, usize) -> int,
    i: int,
)
    requires
        shape@.len() <= strides@.len(),
        reduced@.len() > 0,
        reduced@.no_duplicates(),
        forall|i: int| 0 <= i < reduced@.len() ==> (#[trigger] reduced@[i]) < shape@.len(),
        call_ensures(ReduceView::merged, (shape, strides, reduced), Some(m)),
        coords.len() == shape@.len(),
        forall|dim: int| 0 <= dim < shape@.len() ==> 0 <= #[trigger] coords[dim] < shape@[dim],
        forall|at: int, dim: usize| #[trigger]
            count_up(at, dim) == at * shape@[dim as int] + coords[dim as int],
        0 <= i < m.view.axes@.len(),
    ensures
        total(
            m.view.axes@[i].dims@,
            |dim: usize| coords[dim as int] * strides@[dim as int],
        ) == m.view.axes@[i].dims@.fold_left(0, count_up) * m.strides@[i],
        0 <= m.view.axes@[i].dims@.fold_left(0, count_up) < m.shape@[i],
{
    assert(shape.len() == shape@.len());
    law_merged_view_keeps_the_other_dims(shape, strides, reduced, Some(m));
    let (shape, strides, reduced) = (shape@, strides@, reduced@);
    let dims = m.view.axes@[i].dims@;
    let part = |dim: usize| coords[dim as int] * strides[dim as int];
    let along = Seq::new(dims.len(), |i: int| coords[dims[i] as int] as nat);
    assert(m.view@[i] == (dims, m.view.axes@[i].stride_dim));
    assert(m.strides@[i] == strides[m.view.axes@[i].stride_dim as int]);
    assert(m.shape@[i] == extent(shape, dims));
    if i == m.axis {
        let listed = outer_to_inner(strides, reduced);
        lemma_outer_to_inner_keeps_dims(strides, reduced);
        assert(dims == listed);
        assert forall|k: int| 0 <= k < dims.len() implies (#[trigger] dims[k]) < shape.len() by {
            assert(listed.contains(dims[k]));
        }
        lemma_offset_and_position(shape, strides, dims, coords, count_up);
        law_merged_axis_reaches_elements(shape, strides, reduced, along);
    } else {
        lemma_offset_and_position(shape, strides, dims, coords, count_up);
        let dim = dims[0];
        assert(dims =~= seq![dim]);
        assert(dims.drop_last() =~= Seq::<usize>::empty());
        assert(total(dims.drop_last(), part) == 0);
        assert(total(dims, part) == part(dim));
        assert(dims.drop_last().fold_left(0, count_up) == 0);
        assert(dims.fold_left(0, count_up) == count_up(0, dim));
        assert(0 * shape[dim as int] == 0) by (nonlinear_arith);
    }
    law_position_is_injective(shape, dims, along, along);
}

/// A merged view shows every element where it sits: whatever its coordinates
/// along the reference dims, the sum over the view's axes of its position along
/// the axis times the axis' stride is its offset in the reference. The position
/// along an axis counts its dims' coordinates with the last dim fastest, and
/// lies below the axis' size.
pub proof fn law_merged_view_shows_every_element_in_place(
    shape: &[usize],
    strides: &[usize],
    reduced: &[usize],
    merged: Option<MergedReduceView>,
    coords: Seq<int>,
    axis: int,
)
    requires
        shape@.len() <= strides@.len(),
        reduced@.len() > 0,
        reduced@.no_duplicates(),
        forall|i: int| 0 <= i < reduced@.len() ==> (#[trigger] reduced@[i]) < shape@.len(),
        call_ensures(ReduceView::merged, (shape, strides, reduced), merged),
        coords.len() == shape@.len(),
        forall|dim: int| 0 <= dim < shape@.len() ==> 0 <= #[trigger] coords[dim] < shape@[dim],
    ensures
        merged matches Some(m) ==> Seq::new(m.view.axes@.len(), |i: int| i).fold_left(
            0int,
            |sum: int, i: int|
                sum + m.view.axes@[i].dims@.fold_left(
                    0int,
                    |at: int, dim: usize| at * shape@[dim as int] + coords[dim as int],
                ) * m.strides@[i],
        ) == Seq::new(shape@.len(), |dim: int| dim).fold_left(
            0int,
            |sum: int, dim: int| sum + coords[dim] * strides@[dim],
        ),
        merged matches Some(m) ==> (0 <= axis < m.view.axes@.len() ==> 0
            <= m.view.axes@[axis].dims@.fold_left(
            0int,
            |at: int, dim: usize| at * shape@[dim as int] + coords[dim as int],
        ) < m.shape@[axis]),
{
    if let Some(m) = merged {
        assert(shape.len() == shape@.len());
        let order = layout_order(shape@, strides@);
        let leads = axis_leads(shape@, strides@, reduced@);
        let head = run_head(shape@, strides@, reduced@);
        let listed = outer_to_inner(strides@, reduced@);
        let dims = all_dims(shape@.len());
        let part = |dim: usize| coords[dim as int] * strides@[dim as int];
        let whole = total(listed, part);
        let lead_part = |dim: usize|
            if dim == head {
                whole
            } else {
                part(dim)
            };
        let count_up = |at: int, dim: usize| at * shape@[dim as int] + coords[dim as int];
        law_merged_view_keeps_the_other_dims(shape, strides, reduced, merged);
        lemma_layout_order(shape@, strides@);
        lemma_axis_leads(shape@, strides@, reduced@);
        lemma_reduced_in_layout_order(shape@, strides@, reduced@);
        lemma_outer_to_inner_keeps_dims(strides@, dims);
        assert(order.contains(head));
        lemma_total_of_leads(order, reduced@, head, part, whole);
        lemma_total_ignores_order(dims, order, part);
        if 0 <= axis < m.view.axes@.len() {
            lemma_axis_steps(shape, strides, reduced, m, coords, count_up, axis);
        }
        let along_axes = |sum: int, i: int|
            sum + m.view.axes@[i].dims@.fold_left(
                0int,
                |at: int, dim: usize| at * shape@[dim as int] + coords[dim as int],
            ) * m.strides@[i];
        assert forall|sum: int, i: int| 0 <= i < leads.len() implies #[trigger] along_axes(sum, i)
            == sum + lead_part(leads[i]) by {
            lemma_axis_steps(shape, strides, reduced, m, coords, count_up, i);
            assert(m.view@[i] == (m.view.axes@[i].dims@, m.view.axes@[i].stride_dim));
            if leads[i] == head {
                assert(m.view.axes@[i].dims@ == listed);
            } else {
                let own = m.view.axes@[i].dims@;
                assert(own =~= seq![leads[i]]);
                assert(own.drop_last() =~= Seq::<usize>::empty());
                assert(total(own.drop_last(), part) == 0);
            }
        }
        lemma_total_of_indices(leads, lead_part, along_axes, leads.len());
        assert(leads.take(leads.len() as int) =~= leads);
        let along_dims = |sum: int, dim: int| sum + coords[dim] * strides@[dim];
        assert forall|sum: int, i: int| 0 <= i < dims.len() implies #[trigger] along_dims(sum, i)
            == sum + part(dims[i]) by {
            assert(dims[i] == i);
        }
        lemma_total_of_indices(dims, part, along_dims, dims.len());
        assert(dims.take(dims.len() as int) =~= dims);
    }
}

/// The stride and the size that the routines are told of an axis of a merged
/// view are those to step with: whatever the coordinates along the reference
/// dims, their offset along the axis' dims is their position there times the
/// stride, and the position lies below the size. Both answers are those that
/// merging gave. Past the last axis both are zero.
pub proof fn law_answers_step_along_each_axis(
    shape: &[usize],
    strides: &[usize],
    reduced: &[usize],
    merged: Option<MergedReduceView>,
    locals: &LocalArgs,
    view: &ReduceView,
    dim: usize,
    size: usize,
    stride: usize,
    coords: Seq<int>,
)
    requires
        shape@.len() <= strides@.len(),
        reduced@.len() > 0,
        reduced@.no_duplicates(),
        forall|i: int| 0 <= i < reduced@.len() ==> (#[trigger] reduced@[i]) < shape@.len(),
        call_ensures(ReduceView::merged, (shape, strides, reduced), merged),
        merged matches Some(m) && m.view == *view,
        locals.ref_shape@ == shape@,
        locals.ref_strides@ == strides@,
        call_ensures(view_shape, (locals, view, dim), size),
        call_ensures(view_stride, (locals, view, dim), stride),
        coords.len() == shape@.len(),
        forall|dim: int| 0 <= dim < shape@.len() ==> 0 <= #[trigger] coords[dim] < shape@[dim],
    ensures
        dim >= view.axes@.len() ==> size == 0 && stride == 0,
        dim < view.axes@.len() ==> {
            &&& merged matches Some(m) && size == m.shape@[dim as int] && stride
                == m.strides@[dim as int]
            &&& view.axes@[dim as int].dims@.fold_left(
                0int,
                |sum: int, dim: usize| sum + coords[dim as int] * strides@[dim as int],
            ) == view.axes@[dim as int].dims@.fold_left(
                0int,
                |at: int, dim: usize| at * shape@[dim as int] + coords[dim as int],
            ) * stride
            &&& 0 <= view.axes@[dim as int].dims@.fold_left(
                0int,
                |at: int, dim: usize| at * shape@[dim as int] + coords[dim as int],
            ) < size
        },
{
    let m = merged->Some_0;
    let count_up = |at: int, dim: usize| at * shape@[dim as int] + coords[dim as int];
    let part = |dim: usize| coords[dim as int] * strides@[dim as int];
    let step = |sum: int, dim: usize| sum + coords[dim as int] * strides@[dim as int];
    if dim < view.axes@.len() {
        law_merged_view_keeps_the_other_dims(shape, strides, reduced, merged);
        lemma_axis_steps(shape, strides, reduced, m, coords, count_up, dim as int);
        lemma_total_is_fold(view.axes@[dim as int].dims@, part, step);
        assert(view@[dim as int] == (
            view.axes@[dim as int].dims@,
            view.axes@[dim as int].stride_dim,
        ));
    }
}

/// Through any view, the size told of an axis is the product over the dims that
/// it stands for, and the stride told is that of the dim it carries. A size of
/// an axis without dims is one, and past the last axis all is zero.
pub proof fn law_answers_are_those_of_the_view(
    locals: &LocalArgs,
    view: &ReduceView,
    dim: usize,
    size: usize,
    stride: usize,
)
    requires
        call_ensures(view_shape, (locals, view, dim), size),
        call_ensures(view_stride, (locals, view, dim), stride),
    ensures
        dim >= view.axes@.len() ==> size == 0 && stride == 0,
        dim < view.axes@.len() ==> size == view.axes@[dim as int].dims@.fold_left(
            1int,
            |product: int, dim: usize| product * locals.ref_shape@[dim as int],
        ) && stride == locals.ref_strides@[view.axes@[dim as int].stride_dim as int],
{
    if dim < view.axes@.len() {
        let step = |product: int, dim: usize| product * locals.ref_shape@[dim as int];
        lemma_extent_is_product(locals.ref_shape@, view.axes@[dim as int].dims@, step);
        assert(view@[dim as int] == (
            view.axes@[dim as int].dims@,
            view.axes@[dim as int].stride_dim,
        ));
    }
}

/// The view without merging lists the dims by their numbers, each as an axis of
/// its own that carries its own stride.
pub proof fn law_identity_lists_each_dim(rank: usize, view: ReduceView, dim: int)
    requires
        call_ensures(ReduceView::identity, (rank,), view),
    ensures
        view.axes@.len() == rank,
        0 <= dim < rank ==> view.axes@[dim].dims@ == seq![dim as usize]
            && view.axes@[dim].stride_dim == dim,
{
    assert(view@.len() == rank);
    if 0 <= dim < rank {
        assert(view@[dim] == (view.axes@[dim].dims@, view.axes@[dim].stride_dim));
        assert(view@[dim] == (seq![dim as usize], dim as usize));
    }
}

/// A copy of a view lists the same axes, and a view that is made from nothing
/// lists none.
pub proof fn law_copies_of_views_are_equal(
    view: &ReduceView,
    copy: ReduceView,
    empty: ReduceView,
    dim: int,
)
    requires
        call_ensures(<ReduceView as Clone>::clone, (view,), copy),
        call_ensures(<ReduceView as Default>::default, (), empty),
    ensures
        copy.axes@.len() == view.axes@.len(),
        0 <= dim < view.axes@.len() ==> copy.axes@[dim].dims@ == view.axes@[dim].dims@
            && copy.axes@[dim].stride_dim == view.axes@[dim].stride_dim,
        empty.axes@.len() == 0,
{
    assert(copy@.len() == view@.len());
    assert(empty@.len() == 0);
    if 0 <= dim < view.axes@.len() {
        assert(view@[dim] == (view.axes@[dim].dims@, view.axes@[dim].stride_dim));
        assert(copy@[dim] == (copy.axes@[dim].dims@, copy.axes@[dim].stride_dim));
    }
}

/// Sorting lists the same dims, none before one that lies outside it.
pub proof fn law_sorting_lists_outer_to_inner(
    dims: &[usize],
    strides: &[usize],
    listed: Vec<usize>,
    i: int,
    j: int,
)
    requires
        call_ensures(sort_outer_to_inner, (dims, strides), listed),
        0 <= i < j < listed@.len(),
    ensures
        listed@.to_multiset() == dims@.to_multiset(),
        strides@[listed@[i] as int] > strides@[listed@[j] as int] || (strides@[listed@[i] as int]
            == strides@[listed@[j] as int] && listed@[i] <= listed@[j]),
{
    lemma_outer_to_inner_keeps_dims(strides@, dims@);
    let leq = outside_or_same(strides@);
    assert(leq(listed@[i], listed@[j]));
}

/// The extent of some dims is the product of their sizes.
pub proof fn law_extent_is_the_product(shape: &[usize], dims: &[usize], size: usize)
    requires
        call_ensures(extent_of, (shape, dims), size),
    ensures
        size == dims@.fold_left(1int, |product: int, dim: usize| product * shape@[dim as int]),
{
    let step = |product: int, dim: usize| product * shape@[dim as int];
    lemma_extent_is_product(shape@, dims@, step);
}

/// Merging takes every layout that gives each dim a stride, and every listing
/// of its dims whose sizes have a product that `usize` holds, as well as every
/// listing that forms no run.
pub proof fn law_every_listing_is_taken(shape: &[usize], strides: &[usize], reduced: &[usize])
    requires
        shape@.len() <= strides@.len(),
        reduced@.len() > 0,
        (forall|i: int| 0 <= i < reduced@.len() ==> (#[trigger] reduced@[i]) < shape@.len())
            && reduced@.fold_left(1int, |product: int, dim: usize| product * shape@[dim as int])
            <= usize::MAX || !{
            &&& exists|dim: usize| dim < shape@.len() && #[trigger] reduced@.contains(dim)
            &&& forall|a: usize, b: usize, c: usize|
                #![trigger reduced@.contains(a), reduced@.contains(b), reduced@.contains(c)]
                a < shape@.len() && b < shape@.len() && c < shape@.len()
                    && shape@[a as int] != 1 && shape@[b as int] != 1 && shape@[c as int] != 1
                    && (strides@[a as int] > strides@[b as int]
                        || (strides@[a as int] == strides@[b as int] && a < b))
                    && (strides@[b as int] > strides@[c as int]
                        || (strides@[b as int] == strides@[c as int] && b < c))
                    && reduced@.contains(a) && reduced@.contains(c)
                    ==> reduced@.contains(b)
            &&& forall|a: usize, b: usize|
                #![trigger reduced@.contains(a), reduced@.contains(b)]
                a < shape@.len() && b < shape@.len()
                    && shape@[a as int] != 1 && shape@[b as int] != 1
                    && reduced@.contains(a) && reduced@.contains(b)
                    && (strides@[a as int] > strides@[b as int]
                        || (strides@[a as int] == strides@[b as int] && a < b))
                    && !(exists|c: usize|
                        #![trigger reduced@.contains(c)]
                        c < shape@.len() && shape@[c as int] != 1 && reduced@.contains(c)
                            && (strides@[a as int] > strides@[c as int]
                                || (strides@[a as int] == strides@[c as int] && a < c))
                            && (strides@[c as int] > strides@[b as int]
                                || (strides@[c as int] == strides@[b as int] && c < b)))
                    ==> strides@[a as int] == strides@[b as int] * shape@[b as int]
        },
    ensures
        call_requires(ReduceView::merged, (shape, strides, reduced)),
{
    assert(shape.len() == shape@.len());
    lemma_one_run(shape@, strides@, reduced@);
    let step = |product: int, dim: usize| product * shape@[dim as int];
    lemma_extent_is_product(shape@, reduced@, step);
}

/// Over dims of size one a stride stays what it is.
proof fn lemma_stride_over_ones(shape: Seq<usize>, strides: Seq<usize>, a: int, b: int)
    requires
        0 <= a < b < shape.len(),
        shape.len() <= strides.len(),
        forall|i: int|
            #![trigger strides[i]]
            0 <= i < shape.len() - 1 ==> strides[i] == strides[i + 1] * shape[i + 1],
        forall|i: int| a < i < b ==> #[trigger] shape[i] == 1,
    ensures
        strides[a] == strides[b] * shape[b],
    decreases b - a,
{
    if a + 1 < b {
        lemma_stride_over_ones(shape, strides, a + 1, b);
        assert(strides[a] == strides[a + 1] * shape[a + 1]);
        assert(strides[a + 1] * 1 == strides[a + 1]) by (nonlinear_arith);
    }
}

/// In a layout whose dims follow one another without gaps, the strides never
/// grow from a dim to a later one.
proof fn lemma_strides_fall(shape: Seq<usize>, strides: Seq<usize>, a: int, b: int)
    requires
        0 <= a <= b < shape.len(),
        shape.len() <= strides.len(),
        forall|i: int|
            #![trigger strides[i]]
            0 <= i < shape.len() - 1 ==> strides[i] == strides[i + 1] * shape[i + 1],
        forall|i: int| 0 <= i < shape.len() ==> #[trigger] shape[i] >= 1,
    ensures
        strides[a] >= strides[b],
    decreases b - a,
{
    if a < b {
        lemma_strides_fall(shape, strides, a + 1, b);
        let next = strides[a + 1] as int;
        let size = shape[a + 1] as int;
        assert(strides[a] == next * size);
        assert(next * size >= next) by (nonlinear_arith)
            requires
                size >= 1,
                next >= 0,
        ;
    }
}

/// In a layout whose dims follow one another without gaps, dims that follow
/// one another can always be merged.
pub proof fn law_neighbours_in_a_contiguous_layout_merge(
    shape: &[usize],
    strides: &[usize],
    reduced: &[usize],
    merged: Option<MergedReduceView>,
    first: usize,
)
    requires
        shape@.len() <= strides@.len(),
        forall|i: int|
            #![trigger strides@[i]]
            0 <= i < shape@.len() - 1 ==> strides@[i] == strides@[i + 1] * shape@[i + 1],
        forall|i: int| 0 <= i < shape@.len() ==> #[trigger] shape@[i] >= 1,
        reduced@.len() > 0,
        first + reduced@.len() <= shape@.len(),
        forall|i: int| 0 <= i < reduced@.len() ==> #[trigger] reduced@[i] == first + i,
        call_ensures(ReduceView::merged, (shape, strides, reduced), merged),
    ensures
        merged is Some,
{
    assert(shape.len() == shape@.len());
    lemma_one_run(shape@, strides@, reduced@);
    let (shape, strides, reduced) = (shape@, strides@, reduced@);
    let behind = first + reduced.len();
    assert forall|dim: usize| #[trigger] reduced.contains(dim) <==> first <= dim < behind by {
        if first <= dim < behind {
            assert(reduced[dim - first] == dim);
        }
    }
    assert forall|a: usize, b: usize|
        a < shape.len() && b < shape.len() && #[trigger] lies_outside(strides, a, b) implies a
        < b by {
        if b <= a {
            lemma_strides_fall(shape, strides, b as int, a as int);
        }
    }
    assert(reduced.contains(first));
    assert forall|a: usize, b: usize, c: usize|
        #![trigger reduced.contains(a), reduced.contains(b), reduced.contains(c)]
        takes_space(shape, a) && takes_space(shape, b) && takes_space(shape, c) && lies_outside(
            strides,
            a,
            b,
        ) && lies_outside(strides, b, c) && reduced.contains(a) && reduced.contains(
            c,
        ) implies reduced.contains(b) by {
    }
    assert forall|a: usize, b: usize|
        #![trigger reduced.contains(a), reduced.contains(b)]
        takes_space(shape, a) && takes_space(shape, b) && reduced.contains(a) && reduced.contains(b)
            && lies_outside(strides, a, b) && !(exists|c: usize|
            #![trigger reduced.contains(c)]
            takes_space(shape, c) && reduced.contains(c) && lies_outside(strides, a, c)
                && lies_outside(strides, c, b)) implies strides[a as int] == strides[b as int]
        * shape[b as int] by {
        assert forall|i: int| a < i < b implies #[trigger] shape[i] == 1 by {
            let c = i as usize;
            lemma_strides_fall(shape, strides, a as int, i);
            lemma_strides_fall(shape, strides, i, b as int);
            assert(lies_outside(strides, a, c) && lies_outside(strides, c, b));
            assert(reduced.contains(c));
            assert(!takes_space(shape, c));
        }
        lemma_stride_over_ones(shape, strides, a as int, b as int);
    }
    assert(forms_one_run(shape, strides, reduced));
}

} // verus!
