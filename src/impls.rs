//! Trait impl indices: the crate-local index, the transitive dependency
//! closure of a crate, the aggregated index over that closure, and the
//! candidate search that answers a canonical goal from it.
use crate::ty::TyFingerprint;
use vstd::prelude::*;

verus! {

/// One indexed trait impl: which trait, the fingerprint of its self type
/// (`None` for a self type that may be anything), and the impl itself.
#[derive(Clone, Copy, Debug, PartialEq, Eq, Structural)]
pub struct ImplEntry {
    pub trait_id: u32,
    pub fp: Option<TyFingerprint>,
    pub impl_id: u32,
}

/// The head of a declared impl: its crate, the block it is local to if
/// any, and, for a trait impl, its trait.
#[derive(Clone, Copy, Debug, PartialEq, Eq, Structural)]
pub struct ImplHead {
    pub krate: u32,
    pub block: Option<u32>,
    pub trait_id: Option<u32>,
}

/// Where impls are indexed: the top level of a crate, or the local scope of
/// one block.
#[derive(Clone, Copy, Debug, PartialEq, Eq, Structural)]
pub enum Scope {
    Crate(u32),
    Block(u32),
}

/// The impl is declared directly in the scope.
pub open spec fn in_scope(h: ImplHead, s: Scope) -> bool {
    match s {
        Scope::Crate(c) => h.krate == c && h.block is None,
        Scope::Block(b) => h.block == Some(b),
    }
}

/// A canonical goal: does `trait_id` hold for a self type with this fingerprint?
#[derive(Clone, Copy, Debug, PartialEq, Eq, Structural)]
pub struct Goal {
    pub trait_id: u32,
    pub self_fp: Option<TyFingerprint>,
}

/// Outcome of solving a goal.
#[derive(Clone, Copy, Debug, PartialEq, Eq, Structural)]
pub enum Solution {
    /// Exactly one impl applies.
    Unique(u32),
    /// Several impls may apply.
    Ambiguous,
    /// No impl applies.
    NoSolution,
}

/// The index entry that impl `i` contributes to the index of scope `c`, if any.
pub open spec fn entry_in(heads: Seq<ImplHead>, fps: Seq<Option<TyFingerprint>>, c: Scope, i: int) -> Option<ImplEntry> {
    if in_scope(heads[i], c) && heads[i].trait_id is Some {
        Some(ImplEntry { trait_id: heads[i].trait_id->0, fp: fps[i], impl_id: i as u32 })
    } else {
        None
    }
}

/// The trait impls declared directly in scope `c`, in declaration order.
pub open spec fn scope_index(heads: Seq<ImplHead>, fps: Seq<Option<TyFingerprint>>, c: Scope) -> Seq<ImplEntry>
    decreases heads.len(),
{
    if heads.len() == 0 {
        Seq::empty()
    } else {
        let n = heads.len() - 1;
        let front = scope_index(heads.drop_last(), fps.subrange(0, n), c);
        match entry_in(heads, fps, c, n) {
            Some(e) => front.push(e),
            None => front,
        }
    }
}

/// Builds the index of the trait impls declared directly in scope `c`.
/// `fps[i]` is the fingerprint of the self type of impl `i`.
pub fn collect_impls(heads: &Vec<ImplHead>, fps: &Vec<Option<TyFingerprint>>, c: Scope) -> (r: Vec<ImplEntry>)
    requires
        heads@.len() == fps@.len(),
        heads@.len() <= u32::MAX + 1,
    ensures
        r@ == scope_index(heads@, fps@, c),
{
    let mut r: Vec<ImplEntry> = Vec::new();
    let mut i: usize = 0;
    while i < heads.len()
        invariant
            heads@.len() == fps@.len(),
            heads@.len() <= u32::MAX + 1,
            i <= heads@.len(),
            r@ == scope_index(heads@.subrange(0, i as int), fps@.subrange(0, i as int), c),
        decreases heads@.len() - i,
    {
        let h = heads[i];
        proof {
            let hs = heads@.subrange(0, i + 1);
            let fs = fps@.subrange(0, i + 1);
            assert(hs.drop_last() =~= heads@.subrange(0, i as int));
            assert(fs.subrange(0, i as int) =~= fps@.subrange(0, i as int));
        }
        let here = match c {
            Scope::Crate(k) => h.krate == k && h.block.is_none(),
            Scope::Block(b) => h.block == Some(b),
        };
        if here {
            match h.trait_id {
                Some(t) => r.push(ImplEntry { trait_id: t, fp: fps[i], impl_id: i as u32 }),
                None => {},
            }
        }
        i = i + 1;
    }
    assert(heads@.subrange(0, i as int) =~= heads@);
    assert(fps@.subrange(0, i as int) =~= fps@);
    r
}

/// Crate `d` is `c` or a transitive dependency of it. A dependency edge
/// counts only when it points to a crate with a smaller id, which keeps the
/// graph acyclic.
pub open spec fn depends_on(graph: Seq<Seq<u32>>, c: int, d: int) -> bool
    decreases c - d,
{
    if d >= c {
        d == c
    } else {
        exists|j: int| #![trigger graph[j].contains(d as u32)]
            d < j <= c && j < graph.len() && 0 <= d && depends_on(graph, c, j) && graph[j].contains(d as u32)
    }
}

/// The crates that crate `c` depends on, itself included, in ascending order.
pub fn deps_closure(graph: &Vec<Vec<u32>>, c: u32) -> (r: Vec<u32>)
    requires
        c < graph@.len(),
    ensures
        forall|d: u32| r@.contains(d) <==> depends_on(graph.deep_view(), c as int, d as int),
        forall|i: int, j: int| 0 <= i < j < r@.len() ==> r@[i] < r@[j],
{
    let ghost g = graph.deep_view();
    let n = graph.len();
    let mut reach: Vec<bool> = Vec::new();
    let mut k: usize = 0;
    while k <= c as usize
        invariant
            k <= c + 1,
            c < n,
            reach@.len() == k,
            forall|d: int| 0 <= d < k ==> reach@[d] == (d == c),
        decreases c + 1 - k,
    {
        reach.push(k == c as usize);
        k = k + 1;
    }
    // Sweep from `c` down: a crate's flag is final once every larger crate has
    // been processed, since dependency edges only point downwards.
    let mut j: usize = c as usize + 1;
    while j > 0
        invariant
            j <= c + 1,
            c < graph@.len(),
            g == graph.deep_view(),
            reach@.len() == c + 1,
            forall|d: int| j <= d <= c ==> reach@[d] == depends_on(g, c as int, d),
            forall|d: int| 0 <= d < j ==> reach@[d] == (d == c || exists|i: int| #![trigger g[i].contains(d as u32)]
                j <= i <= c && d < i && depends_on(g, c as int, i) && g[i].contains(d as u32)),
        decreases j,
    {
        j = j - 1;
        assert(reach@[j as int] == depends_on(g, c as int, j as int)) by {
            reveal_with_fuel(depends_on, 2);
        }
        if reach[j] {
            let deps = &graph[j];
            let mut t: usize = 0;
            while t < deps.len()
                invariant
                    j <= c,
                    c < graph@.len(),
                    g == graph.deep_view(),
                    deps@ == g[j as int],
                    t <= deps@.len(),
                    reach@.len() == c + 1,
                    reach@[j as int],
                    depends_on(g, c as int, j as int),
                    forall|d: int| j <= d <= c ==> reach@[d] == depends_on(g, c as int, d),
                    forall|d: int| 0 <= d < j ==> reach@[d] == (d == c || (exists|i: int| #![trigger g[i].contains(d as u32)]
                        j + 1 <= i <= c && d < i && depends_on(g, c as int, i) && g[i].contains(d as u32))
                        || deps@.subrange(0, t as int).contains(d as u32)),
                decreases deps@.len() - t,
            {
                let e = deps[t];
                if (e as usize) < j {
                    reach.set(e as usize, true);
                }
                proof {
                    assert(deps@.subrange(0, t + 1) =~= deps@.subrange(0, t as int).push(e));
                    assert forall|d: int| 0 <= d < j implies reach@[d] == (d == c || (exists|i: int| #![trigger g[i].contains(d as u32)]
                        j + 1 <= i <= c && d < i && depends_on(g, c as int, i) && g[i].contains(d as u32))
                        || deps@.subrange(0, t + 1).contains(d as u32)) by {
                        if d == e as int {
                            assert(deps@.subrange(0, t + 1)[t as int] == e);
                        }
                    }
                }
                t = t + 1;
            }
            proof {
                assert(deps@.subrange(0, t as int) =~= deps@);
                assert forall|d: int| 0 <= d < j implies reach@[d] == (d == c || exists|i: int| #![trigger g[i].contains(d as u32)]
                    j <= i <= c && d < i && depends_on(g, c as int, i) && g[i].contains(d as u32)) by {
                    if deps@.contains(d as u32) {
                        assert(g[j as int].contains(d as u32));
                    }
                }
            }
        } else {
            assert forall|d: int| 0 <= d < j implies reach@[d] == (d == c || exists|i: int| #![trigger g[i].contains(d as u32)]
                j <= i <= c && d < i && depends_on(g, c as int, i) && g[i].contains(d as u32)) by {
                if exists|i: int| #![trigger g[i].contains(d as u32)]
                    j <= i <= c && d < i && depends_on(g, c as int, i) && g[i].contains(d as u32) {
                    let i = choose|i: int| #![trigger g[i].contains(d as u32)]
                        j <= i <= c && d < i && depends_on(g, c as int, i) && g[i].contains(d as u32);
                    assert(i != j);
                }
            }
        }
    }
    let mut r: Vec<u32> = Vec::new();
    let mut d: usize = 0;
    while d <= c as usize
        invariant
            d <= c + 1,
            c < n,
            reach@.len() == c + 1,
            forall|x: int| 0 <= x <= c ==> reach@[x] == depends_on(g, c as int, x),
            forall|x: u32| r@.contains(x) <==> (x < d && depends_on(g, c as int, x as int)),
            forall|a: int, b: int| 0 <= a < b < r@.len() ==> r@[a] < r@[b],
            forall|a: int| 0 <= a < r@.len() ==> r@[a] < d,
        decreases c + 1 - d,
    {
        let ghost before = r@;
        if reach[d] {
            r.push(d as u32);
        }
        proof {
            assert forall|x: u32| r@.contains(x) <==> (x < d + 1 && depends_on(g, c as int, x as int)) by {
                if x == d as u32 {
                    if reach@[d as int] {
                        assert(r@[r@.len() - 1] == x);
                    } else {
                        assert(!before.contains(x));
                        assert(r@ == before);
                    }
                } else {
                    if r@.contains(x) && reach@[d as int] {
                        let a = choose|a: int| 0 <= a < r@.len() && r@[a] == x;
                        assert(a < before.len());
                        assert(before.contains(x));
                    }
                    if before.contains(x) && reach@[d as int] {
                        let a = choose|a: int| 0 <= a < before.len() && before[a] == x;
                        assert(r@[a] == x);
                    }
                }
            }
        }
        d = d + 1;
    }
    proof {
        assert forall|x: u32| r@.contains(x) <==> depends_on(g, c as int, x as int) by {
            if depends_on(g, c as int, x as int) && x > c {
                reveal_with_fuel(depends_on, 1);
            }
        }
    }
    r
}

/// Crate `c`'s aggregated index holds entry `e`: some crate it depends on
/// declares it.
pub open spec fn deps_index_has(
    graph: Seq<Seq<u32>>,
    heads: Seq<ImplHead>,
    fps: Seq<Option<TyFingerprint>>,
    c: u32,
    e: ImplEntry,
) -> bool {
    exists|d: u32| depends_on(graph, c as int, d as int) && #[trigger] scope_index(heads, fps, Scope::Crate(d)).contains(e)
}

/// The index of scope `c` holds `e` exactly when some impl of `c` contributes it.
pub proof fn lemma_scope_index_has(heads: Seq<ImplHead>, fps: Seq<Option<TyFingerprint>>, c: Scope, e: ImplEntry)
    requires
        heads.len() == fps.len(),
    ensures
        scope_index(heads, fps, c).contains(e) <==> exists|i: int|
            0 <= i < heads.len() && #[trigger] entry_in(heads, fps, c, i) == Some(e),
    decreases heads.len(),
{
    if heads.len() > 0 {
        let n = heads.len() - 1;
        let hs = heads.drop_last();
        let fs = fps.subrange(0, n);
        lemma_scope_index_has(hs, fs, c, e);
        assert forall|i: int| 0 <= i < n implies #[trigger] entry_in(heads, fps, c, i) == entry_in(hs, fs, c, i) by {}
        let front = scope_index(hs, fs, c);
        if scope_index(heads, fps, c).contains(e) {
            if !front.contains(e) {
                assert(entry_in(heads, fps, c, n) == Some(e));
            } else {
                let i = choose|i: int| 0 <= i < hs.len() && #[trigger] entry_in(hs, fs, c, i) == Some(e);
                assert(entry_in(heads, fps, c, i) == Some(e));
            }
        }
        if exists|i: int| 0 <= i < heads.len() && #[trigger] entry_in(heads, fps, c, i) == Some(e) {
            let i = choose|i: int| 0 <= i < heads.len() && #[trigger] entry_in(heads, fps, c, i) == Some(e);
            if i == n {
                assert(scope_index(heads, fps, c).last() == e);
            } else {
                assert(entry_in(hs, fs, c, i) == Some(e));
                assert(front.contains(e));
                let k = choose|k: int| 0 <= k < front.len() && front[k] == e;
                assert(scope_index(heads, fps, c)[k] == e);
            }
        }
    }
}

/// Impl-index completeness: a trait impl declared at the top level of crate
/// `d` is in the aggregated index of every crate that depends on `d`, and in
/// the index of no scope but `d` itself.
pub proof fn lemma_dependency_impl_visible(
    graph: Seq<Seq<u32>>,
    heads: Seq<ImplHead>,
    fps: Seq<Option<TyFingerprint>>,
    c: u32,
    i: int,
)
    requires
        heads.len() == fps.len(),
        heads.len() <= u32::MAX + 1,
        0 <= i < heads.len(),
        heads[i].trait_id is Some,
        heads[i].block is None,
        depends_on(graph, c as int, heads[i].krate as int),
    ensures
        deps_index_has(graph, heads, fps, c, entry_in(heads, fps, Scope::Crate(heads[i].krate), i)->0),
        forall|x: Scope| x != Scope::Crate(heads[i].krate) ==> !scope_index(heads, fps, x).contains(
            #[trigger] entry_in(heads, fps, Scope::Crate(heads[i].krate), i)->0,
        ),
{
    let d = Scope::Crate(heads[i].krate);
    let e = entry_in(heads, fps, d, i)->0;
    lemma_scope_index_has(heads, fps, d, e);
    assert(scope_index(heads, fps, d).contains(e));
    assert forall|x: Scope| x != d implies !scope_index(heads, fps, x).contains(e) by {
        lemma_scope_index_has(heads, fps, x, e);
        if scope_index(heads, fps, x).contains(e) {
            let k = choose|k: int| 0 <= k < heads.len() && #[trigger] entry_in(heads, fps, x, k) == Some(e);
            assert(k == i);
        }
    }
}

/// Whether an indexed impl may answer the goal: same trait, and fingerprints
/// that do not rule each other out.
pub open spec fn applies(e: ImplEntry, g: Goal) -> bool {
    &&& e.trait_id == g.trait_id
    &&& (e.fp is None || g.self_fp is None || e.fp == g.self_fp)
}

/// The impls of an index that may answer the goal, in index order.
pub open spec fn candidates(entries: Seq<ImplEntry>, g: Goal) -> Seq<ImplEntry> {
    entries.filter(|e: ImplEntry| applies(e, g))
}

/// The solution that a list of candidates gives.
pub open spec fn solution_of(cands: Seq<ImplEntry>) -> Solution {
    if cands.len() == 0 {
        Solution::NoSolution
    } else if cands.len() == 1 {
        Solution::Unique(cands[0].impl_id)
    } else {
        Solution::Ambiguous
    }
}

/// Answers a goal from an aggregated impl index.
pub fn solve(entries: &Vec<ImplEntry>, g: Goal) -> (r: Solution)
    ensures
        r == solution_of(candidates(entries@, g)),
{
    let mut found: Option<u32> = None;
    let mut count: usize = 0;
    let mut i: usize = 0;
    while i < entries.len()
        invariant
            i <= entries@.len(),
            count == candidates(entries@.subrange(0, i as int), g).len() || (count == 2 && candidates(entries@.subrange(0, i as int), g).len() >= 2),
            count <= 2,
            count >= 1 ==> found == Some(candidates(entries@.subrange(0, i as int), g)[0].impl_id),
        decreases entries@.len() - i,
    {
        let e = entries[i];
        proof {
            let front = entries@.subrange(0, i as int);
            assert(entries@.subrange(0, i + 1).drop_last() =~= front);
            reveal(Seq::filter);
        }
        let fits = e.trait_id == g.trait_id && (e.fp.is_none() || g.self_fp.is_none() || e.fp == g.self_fp);
        if fits {
            if count == 0 {
                found = Some(e.impl_id);
            }
            if count < 2 {
                count = count + 1;
            }
        }
        i = i + 1;
    }
    assert(entries@.subrange(0, i as int) =~= entries@);
    if count == 0 {
        Solution::NoSolution
    } else if count == 1 {
        match found {
            Some(x) => Solution::Unique(x),
            None => Solution::NoSolution,
        }
    } else {
        Solution::Ambiguous
    }
}

} // verus!
