//! What a merged view promises: it names every reference dim once, it counts
//! the elements of the reference, and stepping along its merged axis visits
//! the elements of the reduced dims where they sit in memory.

use crate::layout::{
    all_dims, extent, lemma_extent_ignores_order, lemma_extent_of_one,
    lemma_outer_to_inner_keeps_dims, lemma_outer_to_inner_unique, outer_to_inner, outside_or_same,
};
use crate::reduce::args::{axis_has_size, axis_has_stride, axis_size, axis_stride};
use crate::reduce::view::{
    axis_leads, identity_view, is_one_run, is_reduced, is_sized, layout_order, leads_axis,
    lemma_filter_elements, lemma_filter_no_duplicates, lemma_layout_order, merged_view, own_axis,
    packed, run_axis, run_dims, run_head, run_stride_dim, sized_dims, view_sizes, view_strides,
};
use vstd::prelude::*;
use vstd::relations::sorted_by;

verus! {

/// Whether `coords` are coordinates along `dims`, one for each.
pub open spec fn in_range(shape: Seq<usize>, dims: Seq<usize>, coords: Seq<nat>) -> bool {
    &&& coords.len() == dims.len()
    &&& forall|i: int| 0 <= i < dims.len() ==> (#[trigger] coords[i]) < shape[dims[i] as int]
}

/// How far into the buffer `coords` along `dims` reach.
pub open spec fn offset(strides: Seq<usize>, dims: Seq<usize>, coords: Seq<nat>) -> nat
    decreases dims.len(),
{
    if dims.len() == 0 {
        0
    } else {
        offset(strides, dims.drop_last(), coords.drop_last()) + coords.last()
            * (strides[dims.last() as int] as nat)
    }
}

/// The position of `coords` when the elements that `dims` span are counted
/// with the last dim fastest.
pub open spec fn position(shape: Seq<usize>, dims: Seq<usize>, coords: Seq<nat>) -> nat
    decreases dims.len(),
{
    if dims.len() == 0 {
        0
    } else {
        position(shape, dims.drop_last(), coords.drop_last()) * (shape[dims.last() as int] as nat)
            + coords.last()
    }
}

/// The product of the sizes of a view's axes.
pub open spec fn element_count(sizes: Seq<nat>) -> nat
    decreases sizes.len(),
{
    if sizes.len() == 0 {
        1
    } else {
        element_count(sizes.drop_last()) * sizes.last()
    }
}

/// Whether `reduced` names dims of the layout, each once.
pub open spec fn names_dims(shape: Seq<usize>, reduced: Seq<usize>) -> bool {
    &&& reduced.no_duplicates()
    &&& forall|i: int| 0 <= i < reduced.len() ==> (#[trigger] reduced[i]) < shape.len()
}

/// Whether one of a view's axes stands for `dim`.
pub open spec fn names(view: Seq<(Seq<usize>, usize)>, dim: usize) -> bool {
    exists|i: int| 0 <= i < view.len() && (#[trigger] view[i]).0.contains(dim)
}

/// Filtering one way and then another comes to the same in either order.
proof fn lemma_filters_commute(
    dims: Seq<usize>,
    first: spec_fn(usize) -> bool,
    second: spec_fn(usize) -> bool,
)
    ensures
        dims.filter(first).filter(second) == dims.filter(second).filter(first),
    decreases dims.len(),
{
    reveal(Seq::filter);
    if dims.len() > 0 {
        let rest = dims.drop_last();
        lemma_filters_commute(rest, first, second);
        assert(rest.push(dims.last()) =~= dims);
        rest.lemma_filter_push(dims.last(), first);
        rest.lemma_filter_push(dims.last(), second);
        rest.filter(first).lemma_filter_push(dims.last(), second);
        rest.filter(second).lemma_filter_push(dims.last(), first);
    } else {
        assert(dims.filter(first) =~= dims);
        assert(dims.filter(second) =~= dims);
    }
}

/// What is listed in order stays in order when some of it is left out.
pub(crate) proof fn lemma_filter_keeps_order(
    dims: Seq<usize>,
    pred: spec_fn(usize) -> bool,
    leq: spec_fn(usize, usize) -> bool,
)
    requires
        sorted_by(dims, leq),
    ensures
        sorted_by(dims.filter(pred), leq),
    decreases dims.len(),
{
    reveal(Seq::filter);
    if dims.len() > 0 {
        let rest = dims.drop_last();
        assert(sorted_by(rest, leq));
        lemma_filter_keeps_order(rest, pred, leq);
        lemma_filter_elements(rest, pred);
        assert(rest.push(dims.last()) =~= dims);
        rest.lemma_filter_push(dims.last(), pred);
        let kept = rest.filter(pred);
        assert forall|i: int, j: int|
            0 <= i < j < dims.filter(pred).len() implies leq(
            dims.filter(pred)[i],
            dims.filter(pred)[j],
        ) by {
            if j < kept.len() {
                assert(leq(kept[i], kept[j]));
            } else {
                assert(rest.contains(kept[i]));
                let at = choose|at: int| 0 <= at < rest.len() && rest[at] == kept[i];
                assert(leq(dims[at], dims[dims.len() - 1]));
            }
        }
    }
}

/// The reduced dims as the layout lists them are the reduced dims listed outer
/// to inner.
pub(crate) proof fn lemma_reduced_in_layout_order(shape: Seq<usize>, strides: Seq<usize>, reduced: Seq<usize>)
    requires
        shape.len() <= usize::MAX,
        names_dims(shape, reduced),
    ensures
        layout_order(shape, strides).filter(is_reduced(reduced)) == outer_to_inner(
            strides,
            reduced,
        ),
        run_dims(shape, strides, reduced) == outer_to_inner(strides, reduced).filter(
            is_sized(shape),
        ),
{
    let order = layout_order(shape, strides);
    let kept = order.filter(is_reduced(reduced));
    lemma_layout_order(shape, strides);
    lemma_outer_to_inner_keeps_dims(strides, all_dims(shape.len()));
    lemma_filter_keeps_order(order, is_reduced(reduced), outside_or_same(strides));
    lemma_filter_elements(order, is_reduced(reduced));
    lemma_filter_no_duplicates(order, is_reduced(reduced));
    assert(kept.to_multiset() =~= reduced.to_multiset()) by {
        broadcast use vstd::seq_lib::group_to_multiset_ensures;

        kept.lemma_multiset_has_no_duplicates();
        reduced.lemma_multiset_has_no_duplicates();
        assert forall|dim: usize| #[trigger]
            kept.to_multiset().count(dim) == reduced.to_multiset().count(dim) by {
            if reduced.contains(dim) {
                let i = choose|i: int| 0 <= i < reduced.len() && reduced[i] == dim;
                assert(reduced[i] < shape.len());
                assert(order.contains(dim));
                assert(kept.contains(dim));
                assert(kept.to_multiset().contains(dim));
                assert(reduced.to_multiset().contains(dim));
            } else {
                assert(!kept.contains(dim));
            }
        }
    }
    lemma_outer_to_inner_unique(strides, reduced, kept);
    lemma_filters_commute(order, is_sized(shape), is_reduced(reduced));
}

/// Along the first `count` of `dims`, coordinates reach as many strides of the
/// last sized dim as their position.
pub(crate) proof fn lemma_offset_of_prefix(
    shape: Seq<usize>,
    strides: Seq<usize>,
    dims: Seq<usize>,
    coords: Seq<nat>,
    count: int,
)
    requires
        0 <= count <= dims.len(),
        in_range(shape, dims, coords),
        packed(shape, strides, dims.filter(is_sized(shape))),
    ensures
        dims.take(count).filter(is_sized(shape)).len() <= dims.filter(is_sized(shape)).len(),
        forall|i: int|
            0 <= i < dims.take(count).filter(is_sized(shape)).len() ==> #[trigger] dims.take(
                count,
            ).filter(is_sized(shape))[i] == dims.filter(is_sized(shape))[i],
        ({
            let run = dims.take(count).filter(is_sized(shape));
            let reach = offset(strides, dims.take(count), coords.take(count));
            let at = position(shape, dims.take(count), coords.take(count));
            if run.len() > 0 {
                reach == at * (strides[run.last() as int] as nat)
            } else {
                reach == 0 && at == 0
            }
        }),
    decreases count,
{
    let pred = is_sized(shape);
    let whole = dims.filter(pred);
    assert(dims =~= dims.take(count) + dims.skip(count));
    Seq::filter_distributes_over_add(dims.take(count), dims.skip(count), pred);
    if count == 0 {
        reveal(Seq::filter);
    } else {
        lemma_offset_of_prefix(shape, strides, dims, coords, count - 1);
        let dim = dims[count - 1];
        let coord = coords[count - 1];
        let seen = dims.take(count - 1);
        assert(dims.take(count) =~= seen.push(dim));
        assert(dims.take(count).drop_last() =~= seen);
        assert(coords.take(count).drop_last() =~= coords.take(count - 1));
        seen.lemma_filter_push(dim, pred);
        let run = seen.filter(pred);
        let reach = offset(strides, seen, coords.take(count - 1));
        let at = position(shape, seen, coords.take(count - 1));
        let size = shape[dim as int] as nat;
        let stride = strides[dim as int] as nat;
        assert(coord < size);
        if size == 1 {
            assert(coord * stride == 0) by (nonlinear_arith)
                requires
                    coord == 0,
            ;
            assert(at * size + coord == at) by (nonlinear_arith)
                requires
                    coord == 0,
                    size == 1,
            ;
        } else if run.len() == 0 {
            assert(at * size == 0) by (nonlinear_arith)
                requires
                    at == 0,
            ;
        } else {
            let longer = dims.take(count).filter(pred);
            assert(whole[run.len() - 1] == run.last());
            assert(longer[run.len() as int] == dim);
            assert(whole[run.len() as int] == dim);
            let outer = strides[run.last() as int] as nat;
            assert(outer == stride * size);
            assert(at * outer + coord * stride == (at * size + coord) * stride) by (nonlinear_arith)
                requires
                    outer == stride * size,
            ;
        }
    }
}

/// Stepping along the merged axis visits the elements of the reduced dims
/// where they sit in memory: from the start, the element at any coordinates
/// along those dims lies as many strides of the axis away as its position.
pub proof fn law_merged_axis_reaches_elements(
    shape: Seq<usize>,
    strides: Seq<usize>,
    reduced: Seq<usize>,
    coords: Seq<nat>,
)
    requires
        shape.len() <= usize::MAX,
        names_dims(shape, reduced),
        is_one_run(shape, strides, reduced),
        in_range(shape, run_axis(shape, strides, reduced).0, coords),
    ensures
        offset(strides, run_axis(shape, strides, reduced).0, coords) == position(
            shape,
            run_axis(shape, strides, reduced).0,
            coords,
        ) * (strides[run_axis(shape, strides, reduced).1 as int] as nat),
{
    let dims = outer_to_inner(strides, reduced);
    lemma_reduced_in_layout_order(shape, strides, reduced);
    lemma_offset_of_prefix(shape, strides, dims, coords, dims.len() as int);
    assert(dims.take(dims.len() as int) =~= dims);
    assert(coords.take(dims.len() as int) =~= coords);
    let stride = strides[run_stride_dim(shape, strides, reduced) as int] as nat;
    assert(0 * stride == 0) by (nonlinear_arith);
}

/// Coordinates have a position below the extent of their dims, and no two
/// share one.
pub proof fn law_position_is_injective(
    shape: Seq<usize>,
    dims: Seq<usize>,
    coords: Seq<nat>,
    others: Seq<nat>,
)
    requires
        in_range(shape, dims, coords),
        in_range(shape, dims, others),
    ensures
        position(shape, dims, coords) < extent(shape, dims),
        position(shape, dims, coords) == position(shape, dims, others) ==> coords == others,
    decreases dims.len(),
{
    if dims.len() == 0 {
        assert(coords =~= others);
    } else {
        let inner = dims.drop_last();
        assert(dims.last() == dims[dims.len() - 1]);
        assert(coords.last() == coords[dims.len() - 1]);
        assert(others.last() == others[dims.len() - 1]);
        assert(in_range(shape, inner, coords.drop_last()));
        assert(in_range(shape, inner, others.drop_last()));
        law_position_is_injective(shape, inner, coords.drop_last(), others.drop_last());
        let a = position(shape, inner, coords.drop_last());
        let b = position(shape, inner, others.drop_last());
        let size = shape[dims.last() as int] as nat;
        let x = coords.last();
        let y = others.last();
        let span = extent(shape, inner);
        assert(a * size + x < span * size) by (nonlinear_arith)
            requires
                a < span,
                x < size,
        ;
        if a * size + x == b * size + y {
            assert(a == b && x == y) by (nonlinear_arith)
                requires
                    a * size + x == b * size + y,
                    x < size,
                    y < size,
            ;
            assert(coords =~= coords.drop_last().push(x));
            assert(others =~= others.drop_last().push(y));
        }
    }
}

/// The coordinates along `dims` of the element at `at`.
pub open spec fn coordinates(shape: Seq<usize>, dims: Seq<usize>, at: nat) -> Seq<nat>
    decreases dims.len(),
{
    if dims.len() == 0 {
        Seq::empty()
    } else {
        let size = shape[dims.last() as int] as nat;
        coordinates(shape, dims.drop_last(), at / size).push(at % size)
    }
}

/// Every position below the extent of the dims is that of some coordinates:
/// the merged axis misses no element of the reduced dims and adds none.
pub proof fn law_every_position_has_coordinates(shape: Seq<usize>, dims: Seq<usize>, at: nat)
    requires
        at < extent(shape, dims),
    ensures
        in_range(shape, dims, coordinates(shape, dims, at)),
        position(shape, dims, coordinates(shape, dims, at)) == at,
    decreases dims.len(),
{
    if dims.len() > 0 {
        let inner = dims.drop_last();
        let size = shape[dims.last() as int] as nat;
        let span = extent(shape, inner);
        assert(size > 0) by (nonlinear_arith)
            requires
                at < span * size,
        ;
        assert(at / size < span) by (nonlinear_arith)
            requires
                at < span * size,
                size > 0,
        ;
        assert((at / size) * size + at % size == at) by (nonlinear_arith)
            requires
                size > 0,
        ;
        law_every_position_has_coordinates(shape, inner, at / size);
        let coords = coordinates(shape, dims, at);
        assert(coords.drop_last() =~= coordinates(shape, inner, at / size));
        assert(dims.last() == dims[dims.len() - 1]);
        assert forall|i: int| 0 <= i < dims.len() implies (#[trigger] coords[i])
            < shape[dims[i] as int] by {
            if i < dims.len() - 1 {
                assert(coords[i] == coords.drop_last()[i]);
                assert(dims[i] == inner[i]);
            }
        }
    }
}

/// The merged view has exactly one axis that leads with the outermost reduced
/// dim, and each of its other axes leads with a dim that is kept.
pub(crate) proof fn lemma_axis_leads(shape: Seq<usize>, strides: Seq<usize>, reduced: Seq<usize>)
    requires
        shape.len() <= usize::MAX,
        is_one_run(shape, strides, reduced),
    ensures
        reduced.contains(run_head(shape, strides, reduced)),
        run_head(shape, strides, reduced) < shape.len(),
        axis_leads(shape, strides, reduced).no_duplicates(),
        axis_leads(shape, strides, reduced).contains(run_head(shape, strides, reduced)),
        forall|dim: usize| #[trigger]
            axis_leads(shape, strides, reduced).contains(dim) <==> dim < shape.len() && (dim
                == run_head(shape, strides, reduced) || !reduced.contains(dim)),
{
    let order = layout_order(shape, strides);
    let kept = order.filter(is_reduced(reduced));
    let head = run_head(shape, strides, reduced);
    lemma_layout_order(shape, strides);
    lemma_filter_elements(order, is_reduced(reduced));
    lemma_filter_elements(order, leads_axis(reduced, head));
    lemma_filter_no_duplicates(order, leads_axis(reduced, head));
    let i = choose|i: int| 0 <= i < reduced.len() && (#[trigger] reduced[i]) < shape.len();
    assert(order.contains(reduced[i]));
    assert(kept.contains(reduced[i]));
    assert(kept.contains(head));
    assert(order.contains(head));
}

/// The merged view names every reference dim, and no two of its axes name the
/// same. One axis names the reduced dims, all of them and no other.
pub proof fn law_merged_view_names_every_dim_once(
    shape: Seq<usize>,
    strides: Seq<usize>,
    reduced: Seq<usize>,
)
    requires
        shape.len() <= usize::MAX,
        names_dims(shape, reduced),
        is_one_run(shape, strides, reduced),
    ensures
        forall|dim: usize| #[trigger]
            names(merged_view(shape, strides, reduced), dim) <==> dim < shape.len(),
        forall|i: int, j: int, dim: usize|
            0 <= i < j < merged_view(shape, strides, reduced).len() ==> !(
            #[trigger] merged_view(shape, strides, reduced)[i].0.contains(dim)
                && #[trigger] merged_view(shape, strides, reduced)[j].0.contains(dim)),
        exists|i: int|
            0 <= i < merged_view(shape, strides, reduced).len() && (#[trigger] merged_view(
                shape,
                strides,
                reduced,
            )[i]).0.to_multiset() == reduced.to_multiset(),
{
    let view = merged_view(shape, strides, reduced);
    let leads = axis_leads(shape, strides, reduced);
    let head = run_head(shape, strides, reduced);
    lemma_axis_leads(shape, strides, reduced);
    lemma_outer_to_inner_keeps_dims(strides, reduced);
    let at = choose|at: int| 0 <= at < leads.len() && leads[at] == head;
    assert(view[at].0.to_multiset() == reduced.to_multiset());
    assert forall|dim: usize| #[trigger] names(view, dim) <==> dim < shape.len() by {
        if names(view, dim) {
            let i = choose|i: int| 0 <= i < view.len() && (#[trigger] view[i]).0.contains(dim);
            assert(leads.contains(leads[i]));
        }
        if dim >= shape.len() {
        } else if reduced.contains(dim) {
            assert(view[at].0.contains(dim));
        } else {
            assert(leads.contains(dim));
            let i = choose|i: int| 0 <= i < leads.len() && leads[i] == dim;
            assert(view[i].0[0] == dim);
            assert(view[i].0.contains(dim));
        }
    }
    assert forall|i: int, j: int, dim: usize| 0 <= i < j < view.len() implies !(
    #[trigger] view[i].0.contains(dim) && #[trigger] view[j].0.contains(dim)) by {
        assert(leads[i] != leads[j]);
        assert(leads.contains(leads[i]));
        assert(leads.contains(leads[j]));
    }
}

/// The extent of a listing is that of its kept dims times that of its reduced
/// ones.
proof fn lemma_extent_splits(shape: Seq<usize>, dims: Seq<usize>, reduced: Seq<usize>)
    ensures
        extent(shape, dims) == extent(shape, dims.filter(is_kept(reduced))) * extent(
            shape,
            dims.filter(is_reduced(reduced)),
        ),
    decreases dims.len(),
{
    reveal(Seq::filter);
    if dims.len() == 0 {
        assert(1 * 1 == 1) by (nonlinear_arith);
    } else {
        let rest = dims.drop_last();
        let dim = dims.last();
        lemma_extent_splits(shape, rest, reduced);
        assert(rest.push(dim) =~= dims);
        rest.lemma_filter_push(dim, is_kept(reduced));
        rest.lemma_filter_push(dim, is_reduced(reduced));
        let kept = rest.filter(is_kept(reduced));
        let taken = rest.filter(is_reduced(reduced));
        assert(kept.push(dim).drop_last() =~= kept);
        assert(taken.push(dim).drop_last() =~= taken);
        let a = extent(shape, kept);
        let b = extent(shape, taken);
        let c = shape[dim as int] as nat;
        assert((a * b) * c == (a * c) * b) by (nonlinear_arith);
        assert((a * b) * c == a * (b * c)) by (nonlinear_arith);
    }
}

spec fn is_kept(reduced: Seq<usize>) -> spec_fn(usize) -> bool {
    |dim: usize| !reduced.contains(dim)
}

/// The sizes of the axes that lead with `leads`.
spec fn lead_sizes(shape: Seq<usize>, leads: Seq<usize>, head: usize, span: nat) -> Seq<nat> {
    Seq::new(
        leads.len(),
        |i: int|
            if leads[i] == head {
                span
            } else {
                shape[leads[i] as int] as nat
            },
    )
}

/// Along the first dims of the layout, the axes count what the kept dims span,
/// times what the merged axis does once its head has come.
proof fn lemma_count_of_leads(
    shape: Seq<usize>,
    dims: Seq<usize>,
    reduced: Seq<usize>,
    head: usize,
    span: nat,
)
    requires
        dims.no_duplicates(),
        reduced.contains(head),
    ensures
        element_count(lead_sizes(shape, dims.filter(leads_axis(reduced, head)), head, span))
            == extent(shape, dims.filter(is_kept(reduced))) * (if dims.contains(head) {
            span
        } else {
            1
        }),
    decreases dims.len(),
{
    reveal(Seq::filter);
    if dims.len() == 0 {
        assert(1 * 1 == 1) by (nonlinear_arith);
    } else {
        let rest = dims.drop_last();
        let dim = dims.last();
        lemma_count_of_leads(shape, rest, reduced, head, span);
        assert(rest.push(dim) =~= dims);
        rest.lemma_filter_push(dim, is_kept(reduced));
        rest.lemma_filter_push(dim, leads_axis(reduced, head));
        let kept = rest.filter(is_kept(reduced));
        let leads = rest.filter(leads_axis(reduced, head));
        assert(kept.push(dim).drop_last() =~= kept);
        assert(lead_sizes(shape, leads.push(dim), head, span).drop_last() =~= lead_sizes(
            shape,
            leads,
            head,
            span,
        ));
        assert(dims.contains(head) <==> rest.contains(head) || dim == head) by {
            if rest.contains(head) {
                let i = choose|i: int| 0 <= i < rest.len() && rest[i] == head;
                assert(dims[i] == head);
            }
            if dim == head {
                assert(dims[dims.len() - 1] == head);
            }
        }
        let a = extent(shape, kept);
        let b: nat = if rest.contains(head) {
            span
        } else {
            1
        };
        let c = shape[dim as int] as nat;
        assert((a * b) * c == (a * c) * b) by (nonlinear_arith);
        if dim == head {
            assert(!rest.contains(head));
            assert((a * 1) * span == a * span) by (nonlinear_arith);
        }
    }
}

/// The merged view holds as many elements as the reference.
pub proof fn law_merged_view_counts_elements(
    shape: Seq<usize>,
    strides: Seq<usize>,
    reduced: Seq<usize>,
)
    requires
        shape.len() <= usize::MAX,
        names_dims(shape, reduced),
        is_one_run(shape, strides, reduced),
    ensures
        element_count(view_sizes(shape, merged_view(shape, strides, reduced))) == extent(
            shape,
            all_dims(shape.len()),
        ),
{
    let order = layout_order(shape, strides);
    let head = run_head(shape, strides, reduced);
    let leads = axis_leads(shape, strides, reduced);
    let listed = outer_to_inner(strides, reduced);
    let span = extent(shape, listed);
    lemma_layout_order(shape, strides);
    lemma_axis_leads(shape, strides, reduced);
    lemma_outer_to_inner_keeps_dims(strides, all_dims(shape.len()));
    lemma_extent_ignores_order(shape, all_dims(shape.len()), order);
    lemma_reduced_in_layout_order(shape, strides, reduced);
    lemma_extent_splits(shape, order, reduced);
    assert(order.contains(head));
    lemma_count_of_leads(shape, order, reduced, head, span);
    let sizes = view_sizes(shape, merged_view(shape, strides, reduced));
    assert forall|i: int| 0 <= i < sizes.len() implies #[trigger] sizes[i] == lead_sizes(
        shape,
        leads,
        head,
        span,
    )[i] by {
        lemma_extent_of_one(shape, leads[i]);
    }
    assert(sizes =~= lead_sizes(shape, leads, head, span));
}

/// One dim alone is always one run, and its merged view lists every dim on its
/// own, outer to inner.
pub proof fn law_one_dim_is_one_run(shape: Seq<usize>, strides: Seq<usize>, dim: usize)
    requires
        shape.len() <= usize::MAX,
        dim < shape.len(),
    ensures
        is_one_run(shape, strides, seq![dim]),
        merged_view(shape, strides, seq![dim]) == layout_order(shape, strides).map_values(
            |d: usize| own_axis(d),
        ),
{
    let reduced = seq![dim];
    let order = layout_order(shape, strides);
    lemma_layout_order(shape, strides);
    assert(reduced[0] < shape.len());
    assert(names_dims(shape, reduced));
    let sized = sized_dims(shape, strides);
    lemma_filter_no_duplicates(order, is_sized(shape));
    let run = run_dims(shape, strides, reduced);
    lemma_filter_elements(sized, is_reduced(reduced));
    lemma_filter_no_duplicates(sized, is_reduced(reduced));
    assert(run.len() <= 1) by {
        if run.len() > 1 {
            assert(sized.contains(run[0]) && reduced.contains(run[0]));
            assert(sized.contains(run[1]) && reduced.contains(run[1]));
            assert(run[0] != run[1]);
        }
    }
    assert(is_one_run(shape, strides, reduced));
    lemma_outer_to_inner_keeps_dims(strides, reduced);
    let listed = outer_to_inner(strides, reduced);
    assert(listed =~= reduced) by {
        assert(listed.contains(listed[0]));
        assert(reduced.contains(listed[0]));
    }
    if run.len() > 0 {
        assert(reduced.contains(run[0]));
    }
    assert(run_axis(shape, strides, reduced) == own_axis(dim));
    lemma_axis_leads(shape, strides, reduced);
    let head = run_head(shape, strides, reduced);
    assert(head == dim);
    lemma_filter_takes_all(order, leads_axis(reduced, head));
    assert(merged_view(shape, strides, reduced) =~= order.map_values(|d: usize| own_axis(d)));
}

/// A predicate that takes everything leaves nothing out.
proof fn lemma_filter_takes_all(dims: Seq<usize>, pred: spec_fn(usize) -> bool)
    requires
        forall|i: int| 0 <= i < dims.len() ==> pred(#[trigger] dims[i]),
    ensures
        dims.filter(pred) == dims,
    decreases dims.len(),
{
    reveal(Seq::filter);
    if dims.len() > 0 {
        let rest = dims.drop_last();
        lemma_filter_takes_all(rest, pred);
        assert(rest.push(dims.last()) =~= dims);
        assert(dims.last() == dims[dims.len() - 1]);
        rest.lemma_filter_push(dims.last(), pred);
    }
}

/// Through the identity view the routines see the reference itself: each axis
/// has the size and the stride of its dim.
pub proof fn law_identity_view_is_the_reference(shape: Seq<usize>, strides: Seq<usize>, dim: int)
    requires
        shape.len() <= usize::MAX,
        shape.len() <= strides.len(),
        0 <= dim < shape.len(),
    ensures
        view_sizes(shape, identity_view(shape.len()))[dim] == shape[dim],
        view_strides(strides, identity_view(shape.len()))[dim] == strides[dim],
{
    lemma_extent_of_one(shape, dim as usize);
}

/// The identity view of a reference has a size and a stride on every axis.
pub proof fn law_identity_view_fits(shape: Seq<usize>, strides: Seq<usize>, dim: int)
    requires
        shape.len() <= usize::MAX,
        shape.len() <= strides.len(),
    ensures
        axis_has_size(shape, identity_view(shape.len()), dim),
        axis_has_stride(strides, identity_view(shape.len()), dim),
{
    if 0 <= dim < shape.len() {
        lemma_extent_of_one(shape, dim as usize);
    }
}

/// A merged view has a size and a stride on every axis of the reference it was
/// made for.
pub proof fn law_merged_view_fits(
    shape: Seq<usize>,
    strides: Seq<usize>,
    reduced: Seq<usize>,
    dim: int,
)
    requires
        shape.len() <= usize::MAX,
        shape.len() <= strides.len(),
        reduced.len() > 0,
        forall|i: int| 0 <= i < reduced.len() ==> (#[trigger] reduced[i]) < shape.len(),
        extent(shape, reduced) <= usize::MAX,
        is_one_run(shape, strides, reduced),
    ensures
        axis_has_size(shape, merged_view(shape, strides, reduced), dim),
        axis_has_stride(strides, merged_view(shape, strides, reduced), dim),
{
    let view = merged_view(shape, strides, reduced);
    let leads = axis_leads(shape, strides, reduced);
    let listed = outer_to_inner(strides, reduced);
    lemma_axis_leads(shape, strides, reduced);
    lemma_outer_to_inner_keeps_dims(strides, reduced);
    lemma_extent_ignores_order(shape, reduced, listed);
    lemma_layout_order(shape, strides);
    let run = run_dims(shape, strides, reduced);
    lemma_filter_elements(layout_order(shape, strides), is_sized(shape));
    lemma_filter_elements(sized_dims(shape, strides), is_reduced(reduced));
    if 0 <= dim < view.len() {
        assert(leads.contains(leads[dim]));
        lemma_extent_of_one(shape, leads[dim]);
        assert forall|i: int| 0 <= i < listed.len() implies (#[trigger] listed[i]) < shape.len() by {
            assert(listed.contains(listed[i]));
        }
        if run.len() > 0 {
            assert(sized_dims(shape, strides).contains(run[run.len() - 1]));
        }
    }
}

/// Asked about a merged view, the routines' shape and stride are those that
/// merging gave, and zero past its last axis.
pub proof fn law_routines_see_what_merging_gave(
    shape: Seq<usize>,
    strides: Seq<usize>,
    reduced: Seq<usize>,
    dim: int,
)
    ensures
        0 <= dim < merged_view(shape, strides, reduced).len() ==> axis_size(
            shape,
            merged_view(shape, strides, reduced),
            dim,
        ) == view_sizes(shape, merged_view(shape, strides, reduced))[dim] && axis_stride(
            strides,
            merged_view(shape, strides, reduced),
            dim,
        ) == view_strides(strides, merged_view(shape, strides, reduced))[dim],
        dim >= merged_view(shape, strides, reduced).len() ==> axis_size(
            shape,
            merged_view(shape, strides, reduced),
            dim,
        ) == 0 && axis_stride(strides, merged_view(shape, strides, reduced), dim) == 0,
{
}

} // verus!
