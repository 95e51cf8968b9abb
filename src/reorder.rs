//! Ordering the items of a trait impl as the trait declares them.
use itertools::Itertools;
use vstd::prelude::*;

verus! {

/// The last position of `x` in `names`, or -1.
pub open spec fn last_index(names: Seq<Seq<char>>, x: Seq<char>) -> int
    decreases names.len(),
{
    if names.len() == 0 {
        -1
    } else if names.last() == x {
        names.len() - 1
    } else {
        last_index(names.drop_last(), x)
    }
}

/// The rank of an impl item: the position of its name among the trait's
/// items, or the largest rank for an unnamed or unknown item.
pub open spec fn rank_of(trait_items: Seq<Seq<char>>, name: Option<Seq<char>>) -> usize {
    match name {
        Some(n) => if 0 <= last_index(trait_items, n) < usize::MAX { last_index(trait_items, n) as usize } else { usize::MAX },
        None => usize::MAX,
    }
}

/// The rank of each impl item.
pub open spec fn impl_ranks(trait_items: Seq<Seq<char>>, impl_items: Seq<Option<Seq<char>>>) -> Seq<usize> {
    Seq::new(impl_items.len(), |i: int| rank_of(trait_items, impl_items[i]))
}

/// `p` lists `0..n`, each once.
pub open spec fn is_permutation(p: Seq<usize>, n: nat) -> bool {
    &&& p.len() == n
    &&& forall|i: int| 0 <= i < p.len() ==> p[i] < n
    &&& p.no_duplicates()
}

/// `p` orders positions by rank, keeping positions of equal rank in order.
pub open spec fn stably_sorted(ranks: Seq<usize>, p: Seq<usize>) -> bool {
    forall|a: int, b: int| 0 <= a < b < p.len() ==> ranks[p[a] as int] < ranks[p[b] as int]
        || (ranks[p[a] as int] == ranks[p[b] as int] && p[a] < p[b])
}

/// `p` moves some position.
pub open spec fn moves_some(p: Seq<usize>) -> bool {
    exists|j: int| 0 <= j < p.len() && p[j] != j
}

pub open spec fn non_decreasing(ranks: Seq<usize>) -> bool {
    forall|a: int, b: int| 0 <= a < b < ranks.len() ==> ranks[a] <= ranks[b]
}

/// Relies on `Itertools::sorted_by_key`, which sorts with the stable
/// `slice::sort_by_key`: the positions `0..ranks.len()` ordered by rank, ties
/// kept in order.
#[verifier::external_body]
fn sort_positions_by_rank(ranks: &Vec<usize>) -> (r: Vec<usize>)
    ensures
        is_permutation(r@, ranks@.len()),
        stably_sorted(ranks@, r@),
{
    (0..ranks.len()).sorted_by_key(|&i| ranks[i]).collect()
}

fn last_position(names: &Vec<String>, x: &String) -> (r: Option<usize>)
    ensures
        r matches Some(i) ==> i as int == last_index(names.deep_view(), x@),
        r is None ==> last_index(names.deep_view(), x@) == -1,
{
    let ghost dv = names.deep_view();
    let mut i: usize = names.len();
    assert(dv.subrange(0, i as int) =~= dv);
    while i > 0
        invariant
            i <= names@.len(),
            dv == names.deep_view(),
            last_index(dv, x@) == last_index(dv.subrange(0, i as int), x@),
        decreases i,
    {
        proof {
            assert(dv.subrange(0, i as int).drop_last() =~= dv.subrange(0, i - 1));
        }
        if names[i - 1] == *x {
            return Some(i - 1);
        }
        i = i - 1;
    }
    proof {
        assert(dv.subrange(0, 0) =~= Seq::<Seq<char>>::empty());
    }
    None
}

/// The rank of each impl item by its name.
pub fn compute_item_ranks(trait_items: &Vec<String>, impl_items: &Vec<Option<String>>) -> (r: Vec<usize>)
    ensures
        r@ == impl_ranks(trait_items.deep_view(), impl_items.deep_view()),
{
    let mut r: Vec<usize> = Vec::new();
    let mut i: usize = 0;
    while i < impl_items.len()
        invariant
            i <= impl_items@.len(),
            r@.len() == i,
            forall|j: int| 0 <= j < i ==> r@[j] == rank_of(trait_items.deep_view(), impl_items.deep_view()[j]),
        decreases impl_items@.len() - i,
    {
        let rank = match &impl_items[i] {
            Some(n) => match last_position(trait_items, n) {
                Some(p) => p,
                None => usize::MAX,
            },
            None => usize::MAX,
        };
        r.push(rank);
        i = i + 1;
    }
    assert(r@ =~= impl_ranks(trait_items.deep_view(), impl_items.deep_view()));
    r
}

/// The order in which the impl items should stand to follow the trait: the
/// positions of the impl items, stably sorted by rank. `None` when they
/// already stand in that order.
pub fn reorder_impl_items(trait_items: &Vec<String>, impl_items: &Vec<Option<String>>) -> (r: Option<Vec<usize>>)
    ensures
        r matches Some(p) ==> is_permutation(p@, impl_items@.len()),
        r matches Some(p) ==> stably_sorted(impl_ranks(trait_items.deep_view(), impl_items.deep_view()), p@),
        r matches Some(p) ==> moves_some(p@),
        r is None ==> non_decreasing(impl_ranks(trait_items.deep_view(), impl_items.deep_view())),
{
    let ranks = compute_item_ranks(trait_items, impl_items);
    let ghost spec_ranks = impl_ranks(trait_items.deep_view(), impl_items.deep_view());
    let order = sort_positions_by_rank(&ranks);
    let mut i: usize = 0;
    while i < order.len()
        invariant
            i <= order@.len(),
            forall|j: int| 0 <= j < i ==> order@[j] == j,
            ranks@ == spec_ranks,
            spec_ranks == impl_ranks(trait_items.deep_view(), impl_items.deep_view()),
            spec_ranks.len() == impl_items@.len(),
            is_permutation(order@, ranks@.len()),
            stably_sorted(ranks@, order@),
        decreases order@.len() - i,
    {
        if order[i] != i {
            assert(order@[i as int] != i as int);
            assert(moves_some(order@));
            return Some(order);
        }
        i = i + 1;
    }
    proof {
        assert forall|a: int, b: int| 0 <= a < b < ranks@.len() implies ranks@[a] <= ranks@[b] by {
            assert(order@[a] == a && order@[b] == b);
        }
    }
    None
}

} // verus!
