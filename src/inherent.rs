//! Inherent impls of primitive and foreign types: the coherence rule lets
//! only a fixed, small number of crates hold them, so the lookup collects at
//! most two crates into an inline vector.
use crate::impls::{depends_on, ImplHead};
use crate::ty::TyFingerprint;
use arrayvec::ArrayVec;
use vstd::prelude::*;

verus! {

#[verifier::external_type_specification]
#[verifier::external_body]
#[verifier::reject_recursive_types(T)]
pub struct ExArrayVec<T, const CAP: usize>(ArrayVec<T, CAP>);

/// The crate ids held by an inline vector of two slots, in order.
pub uninterp spec fn crate_slots(v: ArrayVec<u32, 2>) -> Seq<u32>;

/// Relies on `ArrayVec::new`: an empty vector.
#[verifier::external_body]
fn new_slots() -> (r: ArrayVec<u32, 2>)
    ensures
        crate_slots(r) == Seq::<u32>::empty(),
{
    ArrayVec::new()
}

/// Relies on `ArrayVec::push`: appends; it panics on a full vector.
#[verifier::external_body]
fn push_slot(v: &mut ArrayVec<u32, 2>, x: u32)
    requires
        crate_slots(*old(v)).len() < 2,
    ensures
        crate_slots(*final(v)) == crate_slots(*old(v)).push(x),
{
    v.push(x)
}

/// Relies on `ArrayVec::len`: the number of elements.
#[verifier::external_body]
fn slots_len(v: &ArrayVec<u32, 2>) -> (r: usize)
    ensures
        r == crate_slots(*v).len(),
{
    v.len()
}

/// Crate `d` declares at its top level an inherent impl whose self type has fingerprint `fp`.
pub open spec fn has_inherent(heads: Seq<ImplHead>, fps: Seq<Option<TyFingerprint>>, d: u32, fp: TyFingerprint) -> bool {
    exists|i: int| 0 <= i < heads.len() && #[trigger] heads[i].krate == d && heads[i].block is None && heads[i].trait_id is None
        && fps[i] == Some(fp)
}

/// The crates below `n` that `krate` depends on and that declare an inherent
/// impl for `fp`, in ascending order.
pub open spec fn inherent_crates(
    graph: Seq<Seq<u32>>,
    heads: Seq<ImplHead>,
    fps: Seq<Option<TyFingerprint>>,
    krate: u32,
    fp: TyFingerprint,
    n: nat,
) -> Seq<u32>
    decreases n,
{
    if n == 0 {
        Seq::empty()
    } else {
        let front = inherent_crates(graph, heads, fps, krate, fp, (n - 1) as nat);
        let d = (n - 1) as u32;
        if depends_on(graph, krate as int, n - 1) && has_inherent(heads, fps, d, fp) {
            front.push(d)
        } else {
            front
        }
    }
}

fn declares_inherent(heads: &Vec<ImplHead>, fps: &Vec<Option<TyFingerprint>>, d: u32, fp: TyFingerprint) -> (r: bool)
    requires
        heads@.len() == fps@.len(),
    ensures
        r == has_inherent(heads@, fps@, d, fp),
{
    let mut i: usize = 0;
    while i < heads.len()
        invariant
            i <= heads@.len(),
            heads@.len() == fps@.len(),
            forall|j: int| 0 <= j < i ==> !(#[trigger] heads@[j].krate == d && heads@[j].block is None && heads@[j].trait_id is None
                && fps@[j] == Some(fp)),
        decreases heads@.len() - i,
    {
        if heads[i].krate == d && heads[i].block.is_none() && heads[i].trait_id.is_none() && fps[i] == Some(fp) {
            return true;
        }
        i = i + 1;
    }
    false
}

/// The first two crates, in ascending order, among those that `krate`
/// depends on (itself included) that declare an inherent impl for a self type
/// with fingerprint `fp`. `fps[i]` is the fingerprint of the self type of
/// impl `i`.
pub fn inherent_impl_crates(
    graph: &Vec<Vec<u32>>,
    heads: &Vec<ImplHead>,
    fps: &Vec<Option<TyFingerprint>>,
    krate: u32,
    fp: TyFingerprint,
) -> (r: ArrayVec<u32, 2>)
    requires
        krate < graph@.len(),
        heads@.len() == fps@.len(),
    ensures
        ({
            let all = inherent_crates(graph.deep_view(), heads@, fps@, krate, fp, krate as nat + 1);
            crate_slots(r) == all.subrange(0, if all.len() < 2 { all.len() as int } else { 2 })
        }),
{
    let closure = crate::impls::deps_closure(graph, krate);
    let ghost g = graph.deep_view();
    let mut out = new_slots();
    let len = graph.len();
    assert(krate < len);
    let n: usize = krate as usize + 1;
    let mut i: usize = 0;
    while i < n
        invariant
            i <= n,
            n == krate + 1,
            krate < graph@.len(),
            g == graph.deep_view(),
            heads@.len() == fps@.len(),
            forall|x: u32| closure@.contains(x) <==> depends_on(g, krate as int, x as int),
            ({
                let all = inherent_crates(g, heads@, fps@, krate, fp, i as nat);
                crate_slots(out) == all.subrange(0, if all.len() < 2 { all.len() as int } else { 2 })
            }),
        decreases n - i,
    {
        let d = i as u32;
        let ghost all = inherent_crates(g, heads@, fps@, krate, fp, i as nat);
        let mut reached = false;
        let mut j: usize = 0;
        while j < closure.len()
            invariant
                j <= closure@.len(),
                reached <==> exists|k: int| 0 <= k < j && closure@[k] == d,
            decreases closure@.len() - j,
        {
            if closure[j] == d {
                reached = true;
            }
            j = j + 1;
        }
        assert(reached <==> closure@.contains(d));
        if reached && declares_inherent(heads, fps, d, fp) {
            if slots_len(&out) < 2 {
                push_slot(&mut out, d);
            }
        }
        proof {
            let next = inherent_crates(g, heads@, fps@, krate, fp, i as nat + 1);
            assert(d as int == i as int);
            if all.len() < 2 {
                assert(next.subrange(0, if next.len() < 2 { next.len() as int } else { 2 }) =~= crate_slots(out));
            } else {
                assert(next.subrange(0, 2) =~= all.subrange(0, 2));
            }
        }
        i = i + 1;
    }
    out
}

} // verus!
