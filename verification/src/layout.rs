//! Memory layouts given by a stride per dim: which dims lie outside which, and
//! how many elements a group of dims spans.

use vstd::prelude::*;
use vstd::relations::{sorted_by, total_ordering};
use vstd::seq_lib::lemma_sorted_unique;

verus! {

/// The order of dims in memory, outer to inner: a larger stride lies further
/// out, and of two dims with one stride the lower dim does.
pub open spec fn outside_or_same(strides: Seq<usize>) -> spec_fn(usize, usize) -> bool {
    |a: usize, b: usize|
        strides[a as int] > strides[b as int] || (strides[a as int] == strides[b as int] && a <= b)
}

/// `dims` listed outer to inner.
pub open spec fn outer_to_inner(strides: Seq<usize>, dims: Seq<usize>) -> Seq<usize> {
    dims.sort_by(outside_or_same(strides))
}

/// The dims `0..rank`.
pub open spec fn all_dims(rank: nat) -> Seq<usize> {
    Seq::new(rank, |i: int| i as usize)
}

/// The number of elements that `dims` span together: the product of their
/// sizes.
pub open spec fn extent(shape: Seq<usize>, dims: Seq<usize>) -> nat
    decreases dims.len(),
{
    if dims.len() == 0 {
        1
    } else {
        extent(shape, dims.drop_last()) * (shape[dims.last() as int] as nat)
    }
}

pub proof fn lemma_outside_or_same_is_total(strides: Seq<usize>)
    ensures
        total_ordering(outside_or_same(strides)),
{
    let leq = outside_or_same(strides);
    assert(vstd::relations::reflexive(leq));
    assert(vstd::relations::antisymmetric(leq));
    assert(vstd::relations::transitive(leq));
    assert(vstd::relations::strongly_connected(leq));
}

/// A listing of `dims` in which no dim lies outside one before it is the
/// listing outer to inner: there is only one.
pub proof fn lemma_outer_to_inner_unique(strides: Seq<usize>, dims: Seq<usize>, listed: Seq<usize>)
    requires
        sorted_by(listed, outside_or_same(strides)),
        listed.to_multiset() == dims.to_multiset(),
    ensures
        listed == outer_to_inner(strides, dims),
{
    lemma_outside_or_same_is_total(strides);
    dims.lemma_sort_by_ensures(outside_or_same(strides));
    lemma_sorted_unique(listed, outer_to_inner(strides, dims), outside_or_same(strides));
}

/// Listing `dims` outer to inner keeps each of them, and no other.
pub proof fn lemma_outer_to_inner_keeps_dims(strides: Seq<usize>, dims: Seq<usize>)
    ensures
        outer_to_inner(strides, dims).len() == dims.len(),
        outer_to_inner(strides, dims).to_multiset() == dims.to_multiset(),
        sorted_by(outer_to_inner(strides, dims), outside_or_same(strides)),
        forall|dim: usize| #[trigger]
            outer_to_inner(strides, dims).contains(dim) <==> dims.contains(dim),
        dims.no_duplicates() ==> outer_to_inner(strides, dims).no_duplicates(),
{
    broadcast use vstd::seq_lib::group_to_multiset_ensures;

    lemma_outside_or_same_is_total(strides);
    dims.lemma_sort_by_ensures(outside_or_same(strides));
    let listed = outer_to_inner(strides, dims);
    assert(listed.to_multiset() =~= dims.to_multiset());
    assert(listed.to_multiset().len() == dims.to_multiset().len());
    assert forall|dim: usize| #[trigger] listed.contains(dim) <==> dims.contains(dim) by {
        assert(listed.to_multiset().count(dim) == dims.to_multiset().count(dim));
    }
    if dims.no_duplicates() {
        dims.lemma_multiset_has_no_duplicates();
        listed.lemma_multiset_has_no_duplicates_conv();
    }
}

/// Lists `dims` outer to inner.
pub fn sort_outer_to_inner(dims: &[usize], strides: &[usize]) -> (listed: Vec<usize>)
    requires
        forall|i: int| 0 <= i < dims@.len() ==> (#[trigger] dims@[i]) < strides@.len(),
    ensures
        listed@ == outer_to_inner(strides@, dims@),
{
    let mut listed: Vec<usize> = Vec::with_capacity(dims.len());
    let ghost leq = outside_or_same(strides@);
    proof {
        lemma_outside_or_same_is_total(strides@);
        dims@.take(0).to_multiset_ensures();
        listed@.to_multiset_ensures();
        assert(dims@.take(0) =~= listed@);
    }
    let mut next: usize = 0;
    while next < dims.len()
        invariant
            next <= dims@.len(),
            forall|i: int| 0 <= i < dims@.len() ==> (#[trigger] dims@[i]) < strides@.len(),
            leq == outside_or_same(strides@),
            total_ordering(leq),
            listed@.len() == next,
            sorted_by(listed@, leq),
            listed@.to_multiset() == dims@.take(next as int).to_multiset(),
            forall|i: int| 0 <= i < listed@.len() ==> (#[trigger] listed@[i]) < strides@.len(),
        decreases dims@.len() - next,
    {
        let dim: usize = dims[next];
        let mut place: usize = listed.len();
        while place > 0 && !(strides[listed[place - 1]] > strides[dim] || (strides[listed[place - 1]]
            == strides[dim] && listed[place - 1] <= dim))
            invariant
                place <= listed@.len(),
                dim < strides@.len(),
                leq == outside_or_same(strides@),
                forall|i: int| 0 <= i < listed@.len() ==> (#[trigger] listed@[i]) < strides@.len(),
                forall|i: int| place <= i < listed@.len() ==> !leq(#[trigger] listed@[i], dim),
            decreases place,
        {
            place = place - 1;
        }
        let ghost before = listed@;
        listed.insert(place, dim);
        proof {
            assert forall|i: int, j: int| 0 <= i < j < listed@.len() implies leq(
                listed@[i],
                listed@[j],
            ) by {
                if place > 0 {
                    assert(leq(before[place - 1], dim));
                }
                if j < place {
                    assert(leq(before[i], before[j]));
                } else if j == place {
                    assert(leq(before[i], before[place - 1]));
                } else if i < place {
                    assert(leq(before[i], before[j - 1]));
                } else if i == place {
                    assert(!leq(before[j - 1], dim));
                } else {
                    assert(leq(before[i - 1], before[j - 1]));
                }
            }
            broadcast use vstd::seq_lib::group_to_multiset_ensures;
            assert(listed@ =~= before.insert(place as int, dim));
            assert(dims@.take(next + 1) =~= dims@.take(next as int).push(dim));
            assert(before.insert(place as int, dim).to_multiset() =~= before.to_multiset().insert(dim));
        }
        next = next + 1;
    }
    proof {
        assert(dims@.take(next as int) =~= dims@);
        lemma_outer_to_inner_unique(strides@, dims@, listed@);
    }
    listed
}

/// Leaving dims off the end leaves no larger an extent, unless one of them is
/// empty.
proof fn lemma_extent_of_prefix(shape: Seq<usize>, dims: Seq<usize>, count: int)
    requires
        0 <= count <= dims.len(),
        forall|i: int| 0 <= i < dims.len() ==> shape[#[trigger] dims[i] as int] != 0,
    ensures
        0 < extent(shape, dims.take(count)) <= extent(shape, dims),
    decreases dims.len(),
{
    if count == dims.len() {
        assert(dims.take(count) =~= dims);
        if count > 0 {
            lemma_extent_of_prefix(shape, dims.drop_last(), count - 1);
            assert(dims.drop_last().take(count - 1) =~= dims.drop_last());
            let outer = extent(shape, dims.drop_last());
            let size = shape[dims.last() as int] as nat;
            assert(dims.last() == dims[dims.len() - 1]);
            assert(outer * size > 0) by (nonlinear_arith)
                requires
                    outer > 0,
                    size > 0,
            ;
        }
    } else {
        lemma_extent_of_prefix(shape, dims.drop_last(), count);
        assert(dims.drop_last().take(count) =~= dims.take(count));
        let outer = extent(shape, dims.drop_last());
        let size = shape[dims.last() as int] as nat;
        assert(dims.last() == dims[dims.len() - 1]);
        assert(outer * size >= outer) by (nonlinear_arith)
            requires
                size > 0,
        ;
    }
}

/// A group with an empty dim spans nothing.
proof fn lemma_extent_with_empty_dim(shape: Seq<usize>, dims: Seq<usize>, empty: int)
    requires
        0 <= empty < dims.len(),
        shape[dims[empty] as int] == 0,
    ensures
        extent(shape, dims) == 0,
    decreases dims.len(),
{
    let outer = extent(shape, dims.drop_last());
    if empty < dims.len() - 1 {
        lemma_extent_with_empty_dim(shape, dims.drop_last(), empty);
        assert(0 * (shape[dims.last() as int] as nat) == 0);
    } else {
        assert(outer * 0 == 0);
    }
}

/// The extent of two groups together is the product of theirs.
pub proof fn lemma_extent_of_concat(shape: Seq<usize>, outer: Seq<usize>, inner: Seq<usize>)
    ensures
        extent(shape, outer + inner) == extent(shape, outer) * extent(shape, inner),
    decreases inner.len(),
{
    if inner.len() == 0 {
        assert(outer + inner =~= outer);
        let a = extent(shape, outer);
        let b = extent(shape, inner);
        assert(a * b == a) by (nonlinear_arith)
            requires
                b == 1,
        ;
    } else {
        lemma_extent_of_concat(shape, outer, inner.drop_last());
        assert((outer + inner).drop_last() =~= outer + inner.drop_last());
        assert((outer + inner).last() == inner.last());
        let a = extent(shape, outer);
        let b = extent(shape, inner.drop_last());
        let c = shape[inner.last() as int] as nat;
        assert((a * b) * c == a * (b * c)) by (nonlinear_arith);
    }
}

/// The extent of one dim is its size.
pub proof fn lemma_extent_of_one(shape: Seq<usize>, dim: usize)
    ensures
        extent(shape, seq![dim]) == shape[dim as int],
{
    assert(seq![dim].drop_last() =~= Seq::<usize>::empty());
    assert(extent(shape, Seq::<usize>::empty()) == 1);
    assert(1 * (shape[dim as int] as nat) == shape[dim as int]) by (nonlinear_arith);
}

/// In which order the dims of a group are listed does not change what they
/// span.
pub proof fn lemma_extent_ignores_order(shape: Seq<usize>, dims: Seq<usize>, listed: Seq<usize>)
    requires
        dims.to_multiset() == listed.to_multiset(),
    ensures
        extent(shape, dims) == extent(shape, listed),
    decreases dims.len(),
{
    assert(dims.len() == listed.len()) by {
        dims.to_multiset_ensures();
        listed.to_multiset_ensures();
    }
    if dims.len() > 0 {
        let dim = dims.last();
        assert(listed.contains(dim)) by {
            dims.to_multiset_ensures();
            listed.to_multiset_ensures();
            assert(dims.contains(dim));
            assert(dims.to_multiset().count(dim) > 0);
        }
        let at = choose|at: int| 0 <= at < listed.len() && listed[at] == dim;
        assert(dims.drop_last().to_multiset() == listed.remove(at).to_multiset()) by {
            dims.to_multiset_ensures();
            listed.to_multiset_ensures();
            assert(dims.remove(dims.len() - 1) =~= dims.drop_last());
        }
        lemma_extent_ignores_order(shape, dims.drop_last(), listed.remove(at));
        let before = listed.take(at);
        let after = listed.skip(at + 1);
        assert(listed =~= before + seq![dim] + after);
        assert(listed.remove(at) =~= before + after);
        lemma_extent_of_concat(shape, before, after);
        lemma_extent_of_concat(shape, before + seq![dim], after);
        lemma_extent_of_concat(shape, before, seq![dim]);
        lemma_extent_of_one(shape, dim);
        let a = extent(shape, before);
        let b = extent(shape, after);
        let c = shape[dim as int] as nat;
        assert((a * c) * b == (a * b) * c) by (nonlinear_arith);
    }
}

/// The number of elements that `dims` span together.
pub fn extent_of(shape: &[usize], dims: &[usize]) -> (size: usize)
    requires
        forall|i: int| 0 <= i < dims@.len() ==> (#[trigger] dims@[i]) < shape@.len(),
        extent(shape@, dims@) <= usize::MAX,
    ensures
        size == extent(shape@, dims@),
{
    let mut i: usize = 0;
    while i < dims.len()
        invariant
            i <= dims@.len(),
            forall|j: int| 0 <= j < dims@.len() ==> (#[trigger] dims@[j]) < shape@.len(),
            forall|j: int| 0 <= j < i ==> shape@[#[trigger] dims@[j] as int] != 0,
        decreases dims@.len() - i,
    {
        if shape[dims[i]] == 0 {
            proof {
                lemma_extent_with_empty_dim(shape@, dims@, i as int);
            }
            return 0;
        }
        i = i + 1;
    }
    let mut size: usize = 1;
    let mut next: usize = 0;
    while next < dims.len()
        invariant
            next <= dims@.len(),
            forall|j: int| 0 <= j < dims@.len() ==> (#[trigger] dims@[j]) < shape@.len(),
            forall|j: int| 0 <= j < dims@.len() ==> shape@[#[trigger] dims@[j] as int] != 0,
            extent(shape@, dims@) <= usize::MAX,
            size == extent(shape@, dims@.take(next as int)),
        decreases dims@.len() - next,
    {
        proof {
            lemma_extent_of_prefix(shape@, dims@, next + 1);
            assert(dims@.take(next + 1).drop_last() =~= dims@.take(next as int));
        }
        size = size * shape[dims[next]];
        next = next + 1;
    }
    proof {
        assert(dims@.take(next as int) =~= dims@);
    }
    size
}

} // verus!
