//! The query database: inputs stamped with revisions, a memo table of derived
//! results with their recorded dependencies, an active-evaluation stack for
//! cycle detection, and the queries of type lowering, impl indexing, trait
//! solving and inference that run on it.
use crate::impls::{
    candidates, collect_impls, deps_closure, depends_on, in_scope, scope_index, solution_of, solve, Goal, ImplEntry,
    ImplHead, Scope, Solution,
};
use crate::inherent::{crate_slots, inherent_crates};
use crate::intern::{
    callable_key, callable_of, closure_key, closure_of, decode_callable, decode_closure, encode_callable,
    encode_closure, CallableDefId, ConstParamId, DefWithBodyId, ExprId, ImplTraitId, InternTable,
    InternedCallableDefId, InternedClosureId, InternedConstParamId, InternedLifetimeParamId,
    InternedOpaqueTyId, InternedTypeOrConstParamId, LifetimeParamId, TypeOrConstParamId,
};
use crate::ty::{fingerprint_of, TyData, TyFingerprint, TyId, TyInterner, TyShape, TypeRef};
use arrayvec::ArrayVec;
use vstd::prelude::*;
use vstd::set_lib::*;

verus! {

/// A bound declared on a generic definition.
#[derive(Clone, Copy, Debug, PartialEq, Eq, Structural)]
pub enum Bound {
    /// Generic parameter `param` implements `trait_id`.
    Implemented { param: u32, trait_id: u32 },
    /// Every predicate of another generic definition applies here too.
    Inherit(u32),
}

/// A lowered predicate: parameter `param` implements `trait_id`.
#[derive(Clone, Copy, Debug, PartialEq, Eq, Structural)]
pub struct WhereClause {
    pub param: u32,
    pub trait_id: u32,
}

/// An expression of a body, as far as inference needs it.
pub enum Expr {
    /// A value whose type is written down.
    Value(TypeRef),
    /// A call of a method of `trait_id` on the value of an earlier expression.
    MethodCall { receiver: u32, trait_id: u32, ret: TypeRef },
}

/// A function, const or static body.
pub struct BodyData {
    pub krate: u32,
    pub exprs: Vec<Expr>,
}

/// A declared impl.
pub struct ImplData {
    pub krate: u32,
    /// The block whose local scope declares the impl, if any.
    pub block: Option<u32>,
    pub trait_id: Option<u32>,
    pub self_ty: TypeRef,
}

/// The shape of an expression apart from the types it writes: `None` for a
/// value, the receiver and trait for a method call.
pub open spec fn expr_head(e: Expr) -> Option<(u32, u32)> {
    match e {
        Expr::Value(_) => None,
        Expr::MethodCall { receiver, trait_id, .. } => Some((receiver, trait_id)),
    }
}

impl Expr {
    /// A copy of the expression; written types are copied as `TypeRef::copy` does.
    pub fn copy(&self) -> (r: Expr)
        ensures
            expr_head(r) == expr_head(*self),
    {
        match self {
            Expr::Value(t) => Expr::Value(t.copy()),
            Expr::MethodCall { receiver, trait_id, ret } => Expr::MethodCall {
                receiver: *receiver,
                trait_id: *trait_id,
                ret: ret.copy(),
            },
        }
    }
}

impl BodyData {
    pub fn copy(&self) -> (r: BodyData)
        ensures
            r.krate == self.krate,
            r.exprs@.len() == self.exprs@.len(),
            forall|i: int| 0 <= i < r.exprs@.len() ==> expr_head(#[trigger] r.exprs@[i]) == expr_head(self.exprs@[i]),
    {
        let mut exprs: Vec<Expr> = Vec::new();
        let mut i: usize = 0;
        while i < self.exprs.len()
            invariant
                i <= self.exprs@.len(),
                exprs@.len() == i,
                forall|j: int| 0 <= j < i ==> expr_head(#[trigger] exprs@[j]) == expr_head(self.exprs@[j]),
            decreases self.exprs@.len() - i,
        {
            exprs.push(self.exprs[i].copy());
            i = i + 1;
        }
        BodyData { krate: self.krate, exprs }
    }
}

fn copy_bounds(v: &Vec<Bound>) -> (r: Vec<Bound>)
    ensures
        r@ == v@,
{
    let mut r: Vec<Bound> = Vec::new();
    let mut i: usize = 0;
    while i < v.len()
        invariant
            i <= v@.len(),
            r@ == v@.subrange(0, i as int),
        decreases v@.len() - i,
    {
        r.push(v[i]);
        i = i + 1;
    }
    assert(r@ =~= v@);
    r
}

/// An input of the database; each one carries the revision of its last change.
#[derive(Clone, Copy, Debug, PartialEq, Eq, Structural)]
pub enum InputKey {
    CrateGraph,
    ImplList,
    Alias(u32),
    Generic(u32),
    Body(u32),
}

/// A derived query and its key.
#[derive(Clone, Copy, Debug, PartialEq, Eq, Structural)]
pub enum QueryKey {
    /// The type a type alias stands for.
    Ty(u32),
    /// The self type of an impl.
    ImplSelfTy(u32),
    /// The predicates of a generic definition, inherited ones included.
    GenericPredicates(u32),
    /// The trait impls declared at the top level of a crate.
    TraitImplsInCrate(u32),
    /// The trait impls declared in the local scope of a block.
    TraitImplsInBlock(u32),
    /// The trait impls of a crate and of all its transitive dependencies.
    TraitImplsInDeps(u32),
    /// A canonical goal solved in the scope of a crate.
    TraitSolve(u32, Goal),
    /// Type inference of a body.
    Infer(u32),
}

/// A dependency edge recorded while a query ran.
#[derive(Clone, Copy, Debug, PartialEq, Eq, Structural)]
pub enum Dep {
    Input(InputKey),
    Query(QueryKey),
}

/// The typed result of inferring one body.
pub struct InferenceResult {
    /// The type of each expression.
    pub expr_types: Vec<TyId>,
    /// For each method call, the impl it resolved to.
    pub method_resolutions: Vec<Option<u32>>,
}

/// The value of a derived query.
pub enum QueryValue {
    Ty(TyId),
    Predicates(Vec<WhereClause>),
    Impls(Vec<ImplEntry>),
    Solution(Solution),
    Infer(InferenceResult),
    /// A cycle through a query that registers no recovery: a local failure.
    /// Queries only read queries of lower layers, except the self-recursive
    /// kinds, which recover; so no stored value is ever this one.
    Cycle,
}

/// What a `QueryValue` holds, as a mathematical value.
pub enum ValueView {
    Ty(TyId),
    Predicates(Seq<WhereClause>),
    Impls(Seq<ImplEntry>),
    Solution(Solution),
    Infer(Seq<TyId>, Seq<Option<u32>>),
    Cycle,
}

impl View for QueryValue {
    type V = ValueView;

    open spec fn view(&self) -> ValueView {
        match self {
            QueryValue::Ty(t) => ValueView::Ty(*t),
            QueryValue::Predicates(p) => ValueView::Predicates(p@),
            QueryValue::Impls(e) => ValueView::Impls(e@),
            QueryValue::Solution(s) => ValueView::Solution(*s),
            QueryValue::Infer(r) => ValueView::Infer(r.expr_types@, r.method_resolutions@),
            QueryValue::Cycle => ValueView::Cycle,
        }
    }
}

/// The handle of the unknown type; every database interns it first.
pub open spec fn error_ty() -> TyId {
    TyId(0)
}

/// The value that recovery substitutes for a query caught in a cycle.
pub open spec fn fallback(k: QueryKey) -> ValueView {
    match k {
        QueryKey::Ty(_) => ValueView::Ty(error_ty()),
        QueryKey::ImplSelfTy(_) => ValueView::Ty(error_ty()),
        QueryKey::GenericPredicates(_) => ValueView::Predicates(Seq::empty()),
        _ => ValueView::Cycle,
    }
}

/// The kind of value a query of each kind produces.
pub open spec fn fits(k: QueryKey, v: ValueView) -> bool {
    match k {
        QueryKey::Ty(_) | QueryKey::ImplSelfTy(_) => v is Ty,
        QueryKey::GenericPredicates(_) => v is Predicates,
        QueryKey::TraitImplsInCrate(_) | QueryKey::TraitImplsInBlock(_) | QueryKey::TraitImplsInDeps(_) => v is Impls,
        QueryKey::TraitSolve(_, _) => v is Solution,
        QueryKey::Infer(_) => v is Infer,
    }
}

/// Queries are layered: a query only reads queries of lower layers, except
/// the two self-recursive kinds, which may read their own kind.
pub open spec fn layer(k: QueryKey) -> int {
    match k {
        QueryKey::Ty(_) => 1,
        QueryKey::GenericPredicates(_) => 1,
        QueryKey::ImplSelfTy(_) => 2,
        QueryKey::TraitImplsInCrate(_) => 3,
        QueryKey::TraitImplsInBlock(_) => 3,
        QueryKey::TraitImplsInDeps(_) => 4,
        QueryKey::TraitSolve(_, _) => 5,
        QueryKey::Infer(_) => 6,
    }
}

pub open spec fn recursive_kind(k: QueryKey) -> bool {
    k is Ty || k is GenericPredicates
}

/// Whether query `k` may read query `q`.
pub open spec fn may_read(k: QueryKey, q: QueryKey) -> bool {
    layer(q) < layer(k) || (recursive_kind(q) && layer(q) == layer(k))
}

/// Position of a self-recursive key among all such keys.
pub open spec fn rec_index(k: QueryKey, n_alias: nat) -> int {
    match k {
        QueryKey::Ty(d) => d as int,
        QueryKey::GenericPredicates(g) => n_alias + g,
        _ => 0,
    }
}

/// How many self-recursive keys a sequence holds.
pub open spec fn rec_count(s: Seq<QueryKey>) -> nat
    decreases s.len(),
{
    if s.len() == 0 {
        0
    } else {
        rec_count(s.drop_last()) + if recursive_kind(s.last()) { 1nat } else { 0nat }
    }
}

pub open spec fn rec_set(s: Seq<QueryKey>, n_alias: nat) -> Set<int>
    decreases s.len(),
{
    if s.len() == 0 {
        Set::empty()
    } else if recursive_kind(s.last()) {
        rec_set(s.drop_last(), n_alias).insert(rec_index(s.last(), n_alias))
    } else {
        rec_set(s.drop_last(), n_alias)
    }
}

pub open spec fn rec_keys_ok(s: Seq<QueryKey>, n_alias: nat, n_generic: nat) -> bool {
    forall|i: int| 0 <= i < s.len() ==> (#[trigger] s[i] matches QueryKey::Ty(d) ==> d < n_alias) && (s[i] matches QueryKey::GenericPredicates(g) ==> g < n_generic)
}

proof fn lemma_rec_set(s: Seq<QueryKey>, n_alias: nat, n_generic: nat)
    requires
        s.no_duplicates(),
        rec_keys_ok(s, n_alias, n_generic),
    ensures
        rec_set(s, n_alias).finite(),
        rec_set(s, n_alias).len() == rec_count(s),
        rec_set(s, n_alias).subset_of(set_int_range(0, (n_alias + n_generic) as int)),
        forall|x: int| #[trigger] rec_set(s, n_alias).contains(x) ==> exists|i: int| 0 <= i < s.len() && recursive_kind(s[i]) && rec_index(s[i], n_alias) == x,
    decreases s.len(),
{
    if s.len() > 0 {
        let f = s.drop_last();
        assert forall|i: int, j: int| 0 <= i < f.len() && 0 <= j < f.len() && i != j implies f[i] != f[j] by {
            assert(s[i] == f[i] && s[j] == f[j]);
        }
        assert forall|i: int| 0 <= i < f.len() implies (#[trigger] f[i] matches QueryKey::Ty(d) ==> d < n_alias) && (f[i] matches QueryKey::GenericPredicates(g) ==> g < n_generic) by {
            assert(s[i] == f[i]);
        }
        lemma_rec_set(f, n_alias, n_generic);
        let x = s.last();
        assert(s[s.len() - 1] == x);
        if recursive_kind(x) {
            let ix = rec_index(x, n_alias);
            if rec_set(f, n_alias).contains(ix) {
                let i = choose|i: int| 0 <= i < f.len() && recursive_kind(f[i]) && rec_index(f[i], n_alias) == ix;
                assert(s[i] == f[i]);
                assert(f[i] == x);
                assert(false);
            }
            assert forall|y: int| #[trigger] rec_set(s, n_alias).contains(y) implies exists|i: int| 0 <= i < s.len() && recursive_kind(s[i]) && rec_index(s[i], n_alias) == y by {
                if y != ix {
                    let i = choose|i: int| 0 <= i < f.len() && recursive_kind(f[i]) && rec_index(f[i], n_alias) == y;
                    assert(s[i] == f[i]);
                }
            }
        } else {
            assert forall|y: int| #[trigger] rec_set(s, n_alias).contains(y) implies exists|i: int| 0 <= i < s.len() && recursive_kind(s[i]) && rec_index(s[i], n_alias) == y by {
                let i = choose|i: int| 0 <= i < f.len() && recursive_kind(f[i]) && rec_index(f[i], n_alias) == y;
                assert(s[i] == f[i]);
            }
        }
    }
}

/// Along a chain of keys each of which may read the next, layers never grow.
proof fn lemma_layers_fall(s: Seq<QueryKey>, p: int, j: int)
    requires
        0 <= p <= j < s.len(),
        forall|i: int| 0 < i < s.len() ==> may_read(s[i - 1], #[trigger] s[i]),
    ensures
        forall|a: int| p <= a <= j ==> layer(#[trigger] s[a]) <= layer(s[p]),
    decreases j - p,
{
    if j > p {
        lemma_layers_fall(s, p, j - 1);
        assert(may_read(s[j - 1], s[j]));
    }
}

/// A stack of distinct, valid keys holds at most as many self-recursive keys
/// as there are.
proof fn lemma_rec_count_bound(s: Seq<QueryKey>, n_alias: nat, n_generic: nat)
    requires
        s.no_duplicates(),
        rec_keys_ok(s, n_alias, n_generic),
    ensures
        rec_count(s) <= n_alias + n_generic,
{
    lemma_rec_set(s, n_alias, n_generic);
    lemma_int_range(0, (n_alias + n_generic) as int);
    lemma_len_subset(rec_set(s, n_alias), set_int_range(0, (n_alias + n_generic) as int));
}


/// A memo table entry, as a mathematical value.
pub struct MemoView {
    pub key: QueryKey,
    pub value: ValueView,
    /// The revision at which the value was last confirmed up to date.
    pub verified_at: u64,
    /// The revision at which the value last changed.
    pub changed_at: u64,
    /// The dependencies read by the run that produced the value.
    pub deps: Seq<Dep>,
    /// How many times the query function ran for this key.
    pub runs: u64,
}

/// The memoized values of derived queries, one entry per key.
pub struct MemoTable {
    keys: Vec<QueryKey>,
    values: Vec<QueryValue>,
    verified: Vec<u64>,
    changed: Vec<u64>,
    deps: Vec<Vec<Dep>>,
    runs: Vec<u64>,
}

impl MemoTable {
    pub closed spec fn count(&self) -> nat {
        self.keys@.len()
    }

    pub closed spec fn at(&self, i: int) -> MemoView {
        MemoView {
            key: self.keys@[i],
            value: self.values@[i]@,
            verified_at: self.verified@[i],
            changed_at: self.changed@[i],
            deps: self.deps@[i]@,
            runs: self.runs@[i],
        }
    }

    pub open spec fn has(&self, k: QueryKey) -> bool {
        exists|i: int| 0 <= i < self.count() && #[trigger] self.at(i).key == k
    }

    pub open spec fn index(&self, k: QueryKey) -> int {
        choose|i: int| 0 <= i < self.count() && #[trigger] self.at(i).key == k
    }

    /// The entry of `k`.
    pub open spec fn get(&self, k: QueryKey) -> MemoView {
        self.at(self.index(k))
    }

    pub closed spec fn wf(&self, revision: u64) -> bool {
        &&& self.values@.len() == self.keys@.len()
        &&& self.verified@.len() == self.keys@.len()
        &&& self.changed@.len() == self.keys@.len()
        &&& self.deps@.len() == self.keys@.len()
        &&& self.runs@.len() == self.keys@.len()
        &&& self.keys@.no_duplicates()
        &&& forall|i: int| 0 <= i < self.keys@.len() ==> self.changed@[i] <= #[trigger] self.verified@[i] <= revision
        &&& forall|i: int| 0 <= i < self.keys@.len() ==> fits(self.keys@[i], #[trigger] self.values@[i]@)
    }

    proof fn lemma_index(&self, revision: u64, k: QueryKey, i: int)
        requires
            self.wf(revision),
            0 <= i < self.count(),
            self.at(i).key == k,
        ensures
            self.has(k),
            self.index(k) == i,
    {
        let j = self.index(k);
        assert(self.keys@[j] == self.keys@[i]);
    }

    /// Replacing the entry at `i`, key kept, leaves every other key's entry.
    proof fn lemma_update(a: &MemoTable, b: &MemoTable, revision: u64, i: int)
        requires
            a.wf(revision),
            b.wf(revision),
            0 <= i < a.count(),
            b.count() == a.count(),
            b.at(i).key == a.at(i).key,
            forall|j: int| 0 <= j < a.count() && j != i ==> b.at(j) == a.at(j),
        ensures
            b.has(a.at(i).key),
            b.index(a.at(i).key) == i,
            forall|k: QueryKey| #[trigger] a.has(k) ==> b.has(k) && b.index(k) == a.index(k),
            forall|k: QueryKey| #[trigger] a.has(k) && k != a.at(i).key ==> b.at(b.index(k)) == a.at(a.index(k)),
    {
        b.lemma_index(revision, a.at(i).key, i);
        assert forall|k: QueryKey| #[trigger] a.has(k) implies b.has(k) && b.index(k) == a.index(k) by {
            let j = a.index(k);
            assert(b.at(j).key == k);
            b.lemma_index(revision, k, j);
        }
    }

    /// Appending an entry for a new key leaves every other key's entry.
    proof fn lemma_append(a: &MemoTable, b: &MemoTable, revision: u64)
        requires
            a.wf(revision),
            b.wf(revision),
            b.count() == a.count() + 1,
            forall|j: int| 0 <= j < a.count() ==> b.at(j) == a.at(j),
        ensures
            b.has(b.at(a.count() as int).key),
            b.index(b.at(a.count() as int).key) == a.count(),
            forall|k: QueryKey| #[trigger] a.has(k) ==> b.has(k) && b.index(k) == a.index(k) && b.at(b.index(k)) == a.at(a.index(k)),
    {
        b.lemma_index(revision, b.at(a.count() as int).key, a.count() as int);
        assert forall|k: QueryKey| #[trigger] a.has(k) implies b.has(k) && b.index(k) == a.index(k) && b.at(b.index(k)) == a.at(a.index(k)) by {
            let j = a.index(k);
            assert(b.at(j).key == k);
            b.lemma_index(revision, k, j);
        }
    }

    /// Marks entry `i` as confirmed at `revision`.
    fn confirm(&mut self, i: usize, revision: u64)
        requires
            old(self).wf(revision),
            i < old(self).count(),
        ensures
            final(self).wf(revision),
            final(self).count() == old(self).count(),
            final(self).at(i as int) == (MemoView { verified_at: revision, ..old(self).at(i as int) }),
            forall|j: int| 0 <= j < old(self).count() && j != i ==> final(self).at(j) == old(self).at(j),
    {
        self.verified.set(i, revision);
    }

    /// Replaces the value and the dependencies of entry `i` after a run.
    fn store(&mut self, i: usize, v: QueryValue, changed: u64, deps: Vec<Dep>, runs: u64, revision: u64)
        requires
            old(self).wf(revision),
            i < old(self).count(),
            changed <= revision,
            fits(old(self).at(i as int).key, v@),
        ensures
            final(self).wf(revision),
            final(self).count() == old(self).count(),
            final(self).at(i as int) == (MemoView {
                key: old(self).at(i as int).key,
                value: v@,
                verified_at: revision,
                changed_at: changed,
                deps: deps@,
                runs: runs,
            }),
            forall|j: int| 0 <= j < old(self).count() && j != i ==> final(self).at(j) == old(self).at(j),
    {
        self.values.set(i, v);
        self.verified.set(i, revision);
        self.changed.set(i, changed);
        self.deps.set(i, deps);
        self.runs.set(i, runs);
    }

    /// Adds the entry of a key that has none yet.
    fn append(&mut self, k: QueryKey, v: QueryValue, deps: Vec<Dep>, revision: u64)
        requires
            old(self).wf(revision),
            !old(self).has(k),
            fits(k, v@),
        ensures
            final(self).wf(revision),
            final(self).count() == old(self).count() + 1,
            final(self).at(old(self).count() as int) == (MemoView {
                key: k,
                value: v@,
                verified_at: revision,
                changed_at: revision,
                deps: deps@,
                runs: 1,
            }),
            forall|j: int| 0 <= j < old(self).count() ==> final(self).at(j) == old(self).at(j),
    {
        proof {
            assert forall|j: int| 0 <= j < self.keys@.len() implies self.keys@[j] != k by {
                if self.keys@[j] == k {
                    assert(self.at(j).key == k);
                }
            }
        }
        self.keys.push(k);
        self.values.push(v);
        self.verified.push(revision);
        self.changed.push(revision);
        self.deps.push(deps);
        self.runs.push(1);
        proof {
            assert forall|a: int, b: int| 0 <= a < self.keys@.len() && 0 <= b < self.keys@.len() && a != b
                implies self.keys@[a] != self.keys@[b] by {}
        }
    }

    fn find(&self, k: QueryKey) -> (r: Option<usize>)
        requires
            self.keys@.no_duplicates(),
        ensures
            r matches Some(i) ==> i < self.count() && self.at(i as int).key == k,
            r is None ==> !self.has(k),
    {
        let mut i: usize = 0;
        while i < self.keys.len()
            invariant
                i <= self.keys@.len(),
                forall|j: int| 0 <= j < i ==> self.keys@[j] != k,
            decreases self.keys@.len() - i,
        {
            if self.keys[i] == k {
                return Some(i);
            }
            i = i + 1;
        }
        None
    }
}

/// The committed external inputs with the revision of each one's last change.
pub struct Inputs {
    crate_graph: Vec<Vec<u32>>,
    graph_changed: u64,
    impls: Vec<ImplData>,
    impls_changed: u64,
    aliases: Vec<TypeRef>,
    alias_changed: Vec<u64>,
    generics: Vec<Vec<Bound>>,
    generic_changed: Vec<u64>,
    bodies: Vec<BodyData>,
    body_changed: Vec<u64>,
}

/// The database of type-inference queries: inputs, memoized derived values,
/// the active-evaluation stack and the session's interning tables.
pub struct HirDatabase {
    revision: u64,
    inputs: Inputs,
    memos: MemoTable,
    stack_keys: Vec<QueryKey>,
    stack_cycle: Vec<bool>,
    stack_deps: Vec<Vec<Dep>>,
    types: TyInterner,
    callable_defs: InternTable,
    type_or_const_params: InternTable,
    lifetime_params: InternTable,
    opaque_tys: InternTable,
    closures: InternTable,
}

fn copy_deps(v: &Vec<Dep>) -> (r: Vec<Dep>)
    ensures
        r@ == v@,
{
    let mut r: Vec<Dep> = Vec::new();
    let mut i: usize = 0;
    while i < v.len()
        invariant
            i <= v@.len(),
            r@ == v@.subrange(0, i as int),
        decreases v@.len() - i,
    {
        r.push(v[i]);
        i = i + 1;
    }
    assert(r@ =~= v@);
    r
}

fn copy_clauses(v: &Vec<WhereClause>) -> (r: Vec<WhereClause>)
    ensures
        r@ == v@,
{
    let mut r: Vec<WhereClause> = Vec::new();
    let mut i: usize = 0;
    while i < v.len()
        invariant
            i <= v@.len(),
            r@ == v@.subrange(0, i as int),
        decreases v@.len() - i,
    {
        r.push(v[i]);
        i = i + 1;
    }
    assert(r@ =~= v@);
    r
}

fn copy_entries(v: &Vec<ImplEntry>) -> (r: Vec<ImplEntry>)
    ensures
        r@ == v@,
{
    let mut r: Vec<ImplEntry> = Vec::new();
    let mut i: usize = 0;
    while i < v.len()
        invariant
            i <= v@.len(),
            r@ == v@.subrange(0, i as int),
        decreases v@.len() - i,
    {
        r.push(v[i]);
        i = i + 1;
    }
    assert(r@ =~= v@);
    r
}

fn copy_resolutions(v: &Vec<Option<u32>>) -> (r: Vec<Option<u32>>)
    ensures
        r@ == v@,
{
    let mut r: Vec<Option<u32>> = Vec::new();
    let mut i: usize = 0;
    while i < v.len()
        invariant
            i <= v@.len(),
            r@ == v@.subrange(0, i as int),
        decreases v@.len() - i,
    {
        r.push(v[i]);
        i = i + 1;
    }
    assert(r@ =~= v@);
    r
}

fn same_clauses(a: &Vec<WhereClause>, b: &Vec<WhereClause>) -> (r: bool)
    ensures
        r == (a@ == b@),
{
    if a.len() != b.len() {
        return false;
    }
    let mut i: usize = 0;
    while i < a.len()
        invariant
            a@.len() == b@.len(),
            i <= a@.len(),
            forall|j: int| 0 <= j < i ==> a@[j] == b@[j],
        decreases a@.len() - i,
    {
        if a[i] != b[i] {
            return false;
        }
        i = i + 1;
    }
    assert(a@ =~= b@);
    true
}

fn same_entries(a: &Vec<ImplEntry>, b: &Vec<ImplEntry>) -> (r: bool)
    ensures
        r == (a@ == b@),
{
    if a.len() != b.len() {
        return false;
    }
    let mut i: usize = 0;
    while i < a.len()
        invariant
            a@.len() == b@.len(),
            i <= a@.len(),
            forall|j: int| 0 <= j < i ==> a@[j] == b@[j],
        decreases a@.len() - i,
    {
        if a[i] != b[i] {
            return false;
        }
        i = i + 1;
    }
    assert(a@ =~= b@);
    true
}

fn same_tys(a: &Vec<TyId>, b: &Vec<TyId>) -> (r: bool)
    ensures
        r == (a@ == b@),
{
    if a.len() != b.len() {
        return false;
    }
    let mut i: usize = 0;
    while i < a.len()
        invariant
            a@.len() == b@.len(),
            i <= a@.len(),
            forall|j: int| 0 <= j < i ==> a@[j] == b@[j],
        decreases a@.len() - i,
    {
        if a[i] != b[i] {
            return false;
        }
        i = i + 1;
    }
    assert(a@ =~= b@);
    true
}

fn same_resolutions(a: &Vec<Option<u32>>, b: &Vec<Option<u32>>) -> (r: bool)
    ensures
        r == (a@ == b@),
{
    if a.len() != b.len() {
        return false;
    }
    let mut i: usize = 0;
    while i < a.len()
        invariant
            a@.len() == b@.len(),
            i <= a@.len(),
            forall|j: int| 0 <= j < i ==> a@[j] == b@[j],
        decreases a@.len() - i,
    {
        if a[i] != b[i] {
            return false;
        }
        i = i + 1;
    }
    assert(a@ =~= b@);
    true
}

impl QueryValue {
    pub fn copy(&self) -> (r: QueryValue)
        ensures
            r@ == self@,
    {
        match self {
            QueryValue::Ty(t) => QueryValue::Ty(*t),
            QueryValue::Predicates(p) => QueryValue::Predicates(copy_clauses(p)),
            QueryValue::Impls(e) => QueryValue::Impls(copy_entries(e)),
            QueryValue::Solution(s) => QueryValue::Solution(*s),
            QueryValue::Infer(r) => QueryValue::Infer(InferenceResult {
                expr_types: crate::ty::copy_ids(&r.expr_types),
                method_resolutions: copy_resolutions(&r.method_resolutions),
            }),
            QueryValue::Cycle => QueryValue::Cycle,
        }
    }

    /// Structural equality of two values.
    pub fn same(&self, other: &QueryValue) -> (r: bool)
        ensures
            r == (self@ == other@),
    {
        match (self, other) {
            (QueryValue::Ty(a), QueryValue::Ty(b)) => *a == *b,
            (QueryValue::Predicates(a), QueryValue::Predicates(b)) => same_clauses(a, b),
            (QueryValue::Impls(a), QueryValue::Impls(b)) => same_entries(a, b),
            (QueryValue::Solution(a), QueryValue::Solution(b)) => *a == *b,
            (QueryValue::Infer(a), QueryValue::Infer(b)) => same_tys(&a.expr_types, &b.expr_types)
                && same_resolutions(&a.method_resolutions, &b.method_resolutions),
            (QueryValue::Cycle, QueryValue::Cycle) => true,
            _ => false,
        }
    }
}

fn fallback_value(k: QueryKey) -> (r: QueryValue)
    ensures
        r@ == fallback(k),
{
    match k {
        QueryKey::Ty(_) => QueryValue::Ty(TyId(0)),
        QueryKey::ImplSelfTy(_) => QueryValue::Ty(TyId(0)),
        QueryKey::GenericPredicates(_) => QueryValue::Predicates(Vec::new()),
        _ => QueryValue::Cycle,
    }
}

fn layer_of(k: QueryKey) -> (r: u8)
    ensures
        r == layer(k),
{
    match k {
        QueryKey::Ty(_) => 1,
        QueryKey::GenericPredicates(_) => 1,
        QueryKey::ImplSelfTy(_) => 2,
        QueryKey::TraitImplsInCrate(_) => 3,
        QueryKey::TraitImplsInBlock(_) => 3,
        QueryKey::TraitImplsInDeps(_) => 4,
        QueryKey::TraitSolve(_, _) => 5,
        QueryKey::Infer(_) => 6,
    }
}

fn reads_allowed(k: QueryKey, q: QueryKey) -> (r: bool)
    ensures
        r == may_read(k, q),
{
    let lk = layer_of(k);
    let lq = layer_of(q);
    let rec = matches!(q, QueryKey::Ty(_) | QueryKey::GenericPredicates(_));
    lq < lk || (lq == lk && rec)
}

/// The relation between the state before and after any step of evaluation:
/// inputs and revision stay, the stack is restored, interned types and memo
/// entries are only added, an entry confirmed at this revision stays as it is,
/// and so does the entry of every key being evaluated.
pub open spec fn evolves(a: HirDatabase, b: HirDatabase) -> bool {
    &&& b.rev() == a.rev()
    &&& b.inputs_view() == a.inputs_view()
    &&& b.n_alias() == a.n_alias() && b.n_generic() == a.n_generic() && b.n_crate() == a.n_crate()
    &&& b.n_impl() == a.n_impl() && b.n_body() == a.n_body()
    &&& b.stack() == a.stack()
    &&& a.types_view().is_prefix_of(b.types_view())
    &&& table_grows(*a.memo_table(), *b.memo_table(), a.rev(), a.stack())
}

/// How the memo table may change while the keys of `s` are being evaluated:
/// entries are only added, keep their place, never lose runs; an entry
/// confirmed at revision `rev` stays as it is, and so does, or stays absent,
/// the entry of every key of `s`.
pub open spec fn table_grows(a: MemoTable, b: MemoTable, rev: u64, s: Seq<QueryKey>) -> bool {
    &&& a.count() <= b.count()
    &&& forall|i: int| 0 <= i < a.count() ==> #[trigger] b.at(i).key == a.at(i).key
    &&& forall|k: QueryKey| #[trigger] a.has(k) ==> {
        &&& b.has(k)
        &&& b.get(k).runs >= a.get(k).runs
        &&& (a.get(k).verified_at == rev ==> b.get(k) == a.get(k))
        &&& (s.contains(k) ==> b.get(k) == a.get(k))
    }
    &&& forall|k: QueryKey| s.contains(k) && !a.has(k) ==> !#[trigger] b.has(k)
}

proof fn lemma_grows_trans(a: MemoTable, b: MemoTable, c: MemoTable, rev: u64, s1: Seq<QueryKey>, s2: Seq<QueryKey>)
    requires
        table_grows(a, b, rev, s1),
        table_grows(b, c, rev, s2),
        forall|k: QueryKey| s1.contains(k) ==> s2.contains(k),
    ensures
        table_grows(a, c, rev, s1),
{
    assert forall|i: int| 0 <= i < a.count() implies #[trigger] c.at(i).key == a.at(i).key by {
        assert(b.at(i).key == a.at(i).key);
    }
    assert forall|k: QueryKey| s1.contains(k) && !a.has(k) implies !#[trigger] c.has(k) by {
        assert(!b.has(k));
    }
}

proof fn lemma_grows_weaken(a: MemoTable, b: MemoTable, rev: u64, s1: Seq<QueryKey>, s2: Seq<QueryKey>)
    requires
        table_grows(a, b, rev, s2),
        forall|k: QueryKey| s1.contains(k) ==> s2.contains(k),
    ensures
        table_grows(a, b, rev, s1),
{
}

/// Replacing the entry of a key that is neither confirmed at `rev` nor being
/// evaluated is growth, provided its runs do not go down.
proof fn lemma_grows_update(a: MemoTable, b: MemoTable, rev: u64, s: Seq<QueryKey>, i: int)
    requires
        a.wf(rev),
        b.wf(rev),
        0 <= i < a.count(),
        b.count() == a.count(),
        b.at(i).key == a.at(i).key,
        b.at(i).runs >= a.at(i).runs,
        a.at(i).verified_at != rev,
        !s.contains(a.at(i).key),
        forall|j: int| 0 <= j < a.count() && j != i ==> b.at(j) == a.at(j),
    ensures
        table_grows(a, b, rev, s),
        b.index(a.at(i).key) == i,
{
    MemoTable::lemma_update(&a, &b, rev, i);
    a.lemma_index(rev, a.at(i).key, i);
    assert forall|j: int| 0 <= j < a.count() implies #[trigger] b.at(j).key == a.at(j).key by {
        if j != i {
            assert(b.at(j) == a.at(j));
        }
    }
    assert forall|k: QueryKey| s.contains(k) && !a.has(k) implies !#[trigger] b.has(k) by {
        if b.has(k) {
            let j = b.index(k);
            assert(b.at(j).key == a.at(j).key);
        }
    }
}

/// Adding the entry of a key that is not being evaluated is growth.
proof fn lemma_grows_append(a: MemoTable, b: MemoTable, rev: u64, s: Seq<QueryKey>)
    requires
        a.wf(rev),
        b.wf(rev),
        b.count() == a.count() + 1,
        !s.contains(b.at(a.count() as int).key),
        forall|j: int| 0 <= j < a.count() ==> b.at(j) == a.at(j),
    ensures
        table_grows(a, b, rev, s),
        b.has(b.at(a.count() as int).key),
        b.index(b.at(a.count() as int).key) == a.count(),
{
    MemoTable::lemma_append(&a, &b, rev);
    assert forall|k: QueryKey| s.contains(k) && !a.has(k) implies !#[trigger] b.has(k) by {
        if b.has(k) {
            let j = b.index(k);
            if j < a.count() {
                assert(b.at(j) == a.at(j));
                assert(a.has(k));
            }
        }
    }
}

proof fn lemma_prefix_trans<T>(a: Seq<T>, b: Seq<T>, c: Seq<T>)
    requires
        a.is_prefix_of(b),
        b.is_prefix_of(c),
    ensures
        a.is_prefix_of(c),
{
    assert(c.subrange(0, a.len() as int) =~= b.subrange(0, b.len() as int).subrange(0, a.len() as int));
}

impl HirDatabase {
    pub closed spec fn rev(&self) -> u64 {
        self.revision
    }

    pub closed spec fn inputs_view(&self) -> &Inputs {
        &self.inputs
    }

    pub closed spec fn types_view(&self) -> Seq<TyShape> {
        self.types@
    }

    pub closed spec fn n_alias(&self) -> nat {
        self.inputs.aliases@.len()
    }

    pub closed spec fn n_generic(&self) -> nat {
        self.inputs.generics@.len()
    }

    pub closed spec fn n_crate(&self) -> nat {
        self.inputs.crate_graph@.len()
    }

    pub closed spec fn n_impl(&self) -> nat {
        self.inputs.impls@.len()
    }

    pub closed spec fn n_body(&self) -> nat {
        self.inputs.bodies@.len()
    }

    /// The revision at which an input last changed.
    pub closed spec fn input_changed(&self, i: InputKey) -> u64 {
        match i {
            InputKey::CrateGraph => self.inputs.graph_changed,
            InputKey::ImplList => self.inputs.impls_changed,
            InputKey::Alias(d) => if d < self.inputs.alias_changed@.len() { self.inputs.alias_changed@[d as int] } else { 0 },
            InputKey::Generic(g) => if g < self.inputs.generic_changed@.len() { self.inputs.generic_changed@[g as int] } else { 0 },
            InputKey::Body(b) => if b < self.inputs.body_changed@.len() { self.inputs.body_changed@[b as int] } else { 0 },
        }
    }

    /// The keys of the active-evaluation stack, innermost last.
    pub closed spec fn stack(&self) -> Seq<QueryKey> {
        self.stack_keys@
    }

    pub closed spec fn memo_table(&self) -> &MemoTable {
        &self.memos
    }

    pub open spec fn memo_count(&self) -> nat {
        self.memo_table().count()
    }

    pub open spec fn memo_at(&self, i: int) -> MemoView {
        self.memo_table().at(i)
    }

    pub open spec fn has_memo(&self, k: QueryKey) -> bool {
        self.memo_table().has(k)
    }

    /// The memo table entry of `k`.
    pub open spec fn memo(&self, k: QueryKey) -> MemoView {
        self.memo_table().get(k)
    }

    /// `k` has a value confirmed at the current revision.
    pub open spec fn fresh(&self, k: QueryKey) -> bool {
        self.has_memo(k) && self.memo(k).verified_at == self.rev()
    }

    /// The revision at which a dependency last changed; a query without a
    /// memo entry counts as changed now.
    pub open spec fn dep_changed(&self, d: Dep) -> int {
        match d {
            Dep::Input(i) => self.input_changed(i) as int,
            Dep::Query(q) => if self.has_memo(q) { self.memo(q).changed_at as int } else { self.rev() as int },
        }
    }

    /// A dependency of `k` that validation cannot bring up to date from
    /// inside the evaluation of `k`; it counts as changed.
    pub open spec fn dep_blocked(&self, k: QueryKey, d: Dep) -> bool {
        match d {
            Dep::Input(_) => false,
            Dep::Query(q) => q == k || !self.key_ok(q) || !may_read(k, q) || self.stack().contains(q),
        }
    }

    /// A dependency that changed after revision `since`; a query one is
    /// confirmed at the current revision.
    pub open spec fn dep_moved(&self, d: Dep, since: u64) -> bool {
        &&& self.dep_changed(d) > since
        &&& (d matches Dep::Query(q) ==> self.fresh(q))
    }

    /// How many times the query function ran for `k`.
    pub open spec fn runs(&self, k: QueryKey) -> nat {
        if self.has_memo(k) { self.memo(k).runs as nat } else { 0 }
    }

    /// `k` names a definition that the inputs hold.
    pub open spec fn key_ok(&self, k: QueryKey) -> bool {
        match k {
            QueryKey::Ty(d) => d < self.n_alias(),
            QueryKey::ImplSelfTy(i) => i < self.n_impl(),
            QueryKey::GenericPredicates(g) => g < self.n_generic(),
            QueryKey::TraitImplsInCrate(c) => c < self.n_crate(),
            QueryKey::TraitImplsInBlock(_) => true,
            QueryKey::TraitImplsInDeps(c) => c < self.n_crate(),
            QueryKey::TraitSolve(c, _) => c < self.n_crate(),
            QueryKey::Infer(b) => b < self.n_body(),
        }
    }

    pub open spec fn room(&self) -> int {
        self.n_alias() + self.n_generic() - rec_count(self.stack())
    }

    pub open spec fn get_m1(&self, k: QueryKey) -> int {
        if self.stack().contains(k) { 0 } else { layer(k) }
    }

    pub open spec fn get_m2(&self, k: QueryKey) -> int {
        if self.stack().contains(k) { 0 } else { self.room() - if recursive_kind(k) { 1int } else { 0int } }
    }

    pub open spec fn top(&self) -> QueryKey {
        self.stack().last()
    }

    pub closed spec fn wf(&self) -> bool {
        &&& self.inputs.aliases@.len() < u32::MAX
        &&& self.inputs.generics@.len() < u32::MAX
        &&& self.inputs.bodies@.len() < u32::MAX
        &&& self.inputs.impls@.len() < u32::MAX
        &&& self.inputs.crate_graph@.len() < u32::MAX
        &&& self.inputs.alias_changed@.len() == self.inputs.aliases@.len()
        &&& self.inputs.generic_changed@.len() == self.inputs.generics@.len()
        &&& self.inputs.body_changed@.len() == self.inputs.bodies@.len()
        &&& self.inputs.graph_changed <= self.revision
        &&& self.inputs.impls_changed <= self.revision
        &&& forall|i: int| 0 <= i < self.inputs.alias_changed@.len() ==> self.inputs.alias_changed@[i] <= self.revision
        &&& forall|i: int| 0 <= i < self.inputs.generic_changed@.len() ==> self.inputs.generic_changed@[i] <= self.revision
        &&& forall|i: int| 0 <= i < self.inputs.body_changed@.len() ==> self.inputs.body_changed@[i] <= self.revision
        &&& self.memos.wf(self.revision)
        &&& self.stack_cycle@.len() == self.stack_keys@.len()
        &&& self.stack_deps@.len() == self.stack_keys@.len()
        &&& self.stack_keys@.no_duplicates()
        &&& rec_keys_ok(self.stack_keys@, self.n_alias(), self.n_generic())
        &&& forall|i: int| 0 <= i < self.stack_keys@.len() ==> self.key_ok(#[trigger] self.stack_keys@[i])
        &&& forall|i: int| 0 < i < self.stack_keys@.len() ==> may_read(self.stack_keys@[i - 1], #[trigger] self.stack_keys@[i])
        &&& forall|i: int| 0 <= i < self.stack_keys@.len() && #[trigger] self.stack_cycle@[i] ==> recursive_kind(self.stack_keys@[i])
        &&& forall|i: int| 0 <= i < self.memos.count() ==> memo_ok(self.inputs, self.types@, self.memos, self.revision, #[trigger] self.memos.at(i))
        &&& forall|f: int| 0 <= f < self.stack_keys@.len() && layer(self.stack_keys@[f]) >= 2
            ==> deps_fresh(self.memos, self.revision, (#[trigger] self.stack_deps@[f])@)
        &&& self.callable_defs.wf()
        &&& self.type_or_const_params.wf()
        &&& self.lifetime_params.wf()
        &&& self.opaque_tys.wf()
        &&& self.closures.wf()
        &&& self.types.wf()
        &&& self.types@.len() > 0
        &&& self.types@[0] == TyShape::Error
    }

    /// The stack from a key that the top reads again is made of self-recursive
    /// keys only: layers never grow along the stack, and stay equal only
    /// between self-recursive keys.
    proof fn lemma_cycle_members(&self, k: QueryKey, p: int)
        requires
            self.wf(),
            0 <= p < self.stack().len(),
            self.stack()[p] == k,
            may_read(self.top(), k),
        ensures
            forall|j: int| p <= j < self.stack().len() ==> recursive_kind(#[trigger] self.stack()[j]),
    {
        let s = self.stack();
        let n = s.len();
        lemma_layers_fall(s, p, n - 1);
        assert(layer(s[n - 1]) <= layer(k));
        assert forall|a: int| p <= a < n implies recursive_kind(#[trigger] s[a]) by {
            assert(layer(s[a]) <= layer(k));
            if a > p {
                assert(may_read(s[a - 1], s[a]));
            }
        }
    }

    /// There is room on the stack for `q`, unless it is already there.
    proof fn lemma_room(&self, q: QueryKey)
        requires
            self.wf(),
            self.key_ok(q),
        ensures
            self.room() >= 0,
            self.stack().contains(q) || self.get_m2(q) >= 0,
    {
        lemma_rec_count_bound(self.stack(), self.n_alias(), self.n_generic());
        if !self.stack().contains(q) && recursive_kind(q) {
            let s = self.stack().push(q);
            assert(s.drop_last() =~= self.stack());
            assert forall|i: int, j: int| 0 <= i < s.len() && 0 <= j < s.len() && i != j implies s[i] != s[j] by {
                if i == s.len() - 1 {
                    assert(!self.stack().contains(s[j]) || s[j] != q);
                } else if j == s.len() - 1 {
                    assert(!self.stack().contains(s[i]) || s[i] != q);
                }
            }
            lemma_rec_count_bound(s, self.n_alias(), self.n_generic());
        }
    }
}


/// The trait impl heads of the inputs.
pub closed spec fn heads_of(inp: Inputs) -> Seq<ImplHead> {
    Seq::new(inp.impls@.len(), |i: int| ImplHead {
        krate: inp.impls@[i].krate,
        block: inp.impls@[i].block,
        trait_id: inp.impls@[i].trait_id,
    })
}

pub closed spec fn bodies_of(inp: Inputs) -> Seq<BodyData> {
    inp.bodies@
}

pub closed spec fn graph_of(inp: Inputs) -> Seq<Seq<u32>> {
    inp.crate_graph.deep_view()
}

/// The revision at which an input last changed.
pub closed spec fn changed_in(inp: Inputs, i: InputKey) -> u64 {
    match i {
        InputKey::CrateGraph => inp.graph_changed,
        InputKey::ImplList => inp.impls_changed,
        InputKey::Alias(d) => if d < inp.alias_changed@.len() { inp.alias_changed@[d as int] } else { 0 },
        InputKey::Generic(g) => if g < inp.generic_changed@.len() { inp.generic_changed@[g as int] } else { 0 },
        InputKey::Body(b) => if b < inp.body_changed@.len() { inp.body_changed@[b as int] } else { 0 },
    }
}

/// The fingerprint of an interned type; none for a handle not issued.
pub open spec fn ty_fp(types: Seq<TyShape>, t: TyId) -> Option<TyFingerprint> {
    if t.0 < types.len() { fingerprint_of(types[t.0 as int]) } else { None }
}

/// The fingerprint of the memoized self type of impl `i`.
pub open spec fn self_fp(types: Seq<TyShape>, mt: MemoTable, i: int) -> Option<TyFingerprint> {
    let q = QueryKey::ImplSelfTy(i as u32);
    if mt.has(q) {
        match mt.get(q).value {
            ValueView::Ty(t) => ty_fp(types, t),
            _ => None,
        }
    } else {
        None
    }
}

/// Impl `i` is a trait impl declared directly in scope `c`.
pub open spec fn relevant(heads: Seq<ImplHead>, c: Scope, i: int) -> bool {
    in_scope(heads[i], c) && heads[i].trait_id is Some
}

/// The self-type fingerprints that the index of scope `c` reads.
pub open spec fn scope_fps(heads: Seq<ImplHead>, types: Seq<TyShape>, mt: MemoTable, c: Scope) -> Seq<Option<TyFingerprint>> {
    Seq::new(heads.len(), |i: int| if relevant(heads, c, i) { self_fp(types, mt, i) } else { None })
}

/// The impl entries memoized for `q`.
pub open spec fn impls_of(mt: MemoTable, q: QueryKey) -> Seq<ImplEntry> {
    if mt.has(q) {
        match mt.get(q).value {
            ValueView::Impls(e) => e,
            _ => Seq::empty(),
        }
    } else {
        Seq::empty()
    }
}

/// The value that query `k` computes from the inputs, the interned types and
/// the memoized values of the queries it reads; the lowering queries are not
/// constrained here.
pub open spec fn value_ok(inp: Inputs, types: Seq<TyShape>, mt: MemoTable, k: QueryKey, v: ValueView) -> bool {
    match k {
        QueryKey::TraitImplsInCrate(c) => v == ValueView::Impls(
            scope_index(heads_of(inp), scope_fps(heads_of(inp), types, mt, Scope::Crate(c)), Scope::Crate(c)),
        ),
        QueryKey::TraitImplsInBlock(b) => v == ValueView::Impls(
            scope_index(heads_of(inp), scope_fps(heads_of(inp), types, mt, Scope::Block(b)), Scope::Block(b)),
        ),
        QueryKey::TraitImplsInDeps(c) => v is Impls && forall|e: ImplEntry| #![trigger v->Impls_0.contains(e)]
            v->Impls_0.contains(e) <==> exists|d: u32| depends_on(graph_of(inp), c as int, d as int)
                && #[trigger] impls_of(mt, QueryKey::TraitImplsInCrate(d)).contains(e),
        QueryKey::TraitSolve(c, g) => v == ValueView::Solution(
            solution_of(candidates(impls_of(mt, QueryKey::TraitImplsInDeps(c)), g)),
        ),
        QueryKey::Infer(b) => b < bodies_of(inp).len() && v is Infer
            && v->Infer_0.len() == bodies_of(inp)[b as int].exprs@.len()
            && v->Infer_1.len() == bodies_of(inp)[b as int].exprs@.len(),
        _ => true,
    }
}

/// The recorded dependencies `deps` include every input and query that
/// `value_ok` reads for `k`.
pub open spec fn reads_covered(inp: Inputs, k: QueryKey, deps: Seq<Dep>) -> bool {
    match k {
        QueryKey::TraitImplsInCrate(c) => deps.contains(Dep::Input(InputKey::ImplList))
            && forall|i: int| 0 <= i < heads_of(inp).len() && #[trigger] relevant(heads_of(inp), Scope::Crate(c), i)
                ==> deps.contains(Dep::Query(QueryKey::ImplSelfTy(i as u32))),
        QueryKey::TraitImplsInBlock(b) => deps.contains(Dep::Input(InputKey::ImplList))
            && forall|i: int| 0 <= i < heads_of(inp).len() && #[trigger] relevant(heads_of(inp), Scope::Block(b), i)
                ==> deps.contains(Dep::Query(QueryKey::ImplSelfTy(i as u32))),
        QueryKey::TraitImplsInDeps(c) => deps.contains(Dep::Input(InputKey::CrateGraph))
            && forall|d: u32| #[trigger] depends_on(graph_of(inp), c as int, d as int)
                ==> deps.contains(Dep::Query(QueryKey::TraitImplsInCrate(d))),
        QueryKey::TraitSolve(c, _) => deps.contains(Dep::Query(QueryKey::TraitImplsInDeps(c))),
        QueryKey::Infer(b) => deps.contains(Dep::Input(InputKey::Body(b))),
        _ => true,
    }
}

/// No dependency in `deps` changed after revision `since`.
pub open spec fn deps_settled(inp: Inputs, mt: MemoTable, deps: Seq<Dep>, since: u64) -> bool {
    forall|j: int| 0 <= j < deps.len() ==> match #[trigger] deps[j] {
        Dep::Input(i) => changed_in(inp, i) <= since,
        Dep::Query(q) => mt.has(q) && mt.get(q).changed_at <= since,
    }
}

/// Every query in `deps` is confirmed at revision `rev`.
pub open spec fn deps_fresh(mt: MemoTable, rev: u64, deps: Seq<Dep>) -> bool {
    forall|j: int| 0 <= j < deps.len() ==> (#[trigger] deps[j] matches Dep::Query(q) ==> mt.has(q) && mt.get(q).verified_at == rev)
}

/// A memo entry whose dependencies are unchanged since it was confirmed
/// holds the value its query computes now; an entry confirmed at revision
/// `rev` reads only entries confirmed at `rev`.
pub open spec fn memo_ok(inp: Inputs, types: Seq<TyShape>, mt: MemoTable, rev: u64, m: MemoView) -> bool {
    &&& deps_settled(inp, mt, m.deps, m.verified_at) ==> value_ok(inp, types, mt, m.key, m.value) && reads_covered(inp, m.key, m.deps)
    &&& m.verified_at == rev && layer(m.key) >= 2 ==> deps_fresh(mt, rev, m.deps)
    &&& (m.value matches ValueView::Ty(t) ==> t.0 < types.len())
}

/// Changing one input at a new revision keeps every memo entry's invariant:
/// an entry that recorded the input no longer counts as settled, and one that
/// did not reads nothing that changed.
proof fn lemma_bump(a: Inputs, b: Inputs, types: Seq<TyShape>, mt: MemoTable, rev: u64, key: InputKey)
    requires
        rev < u64::MAX,
        mt.wf(rev),
        forall|i: int| 0 <= i < mt.count() ==> memo_ok(a, types, mt, rev, #[trigger] mt.at(i)),
        changed_in(b, key) == rev + 1,
        forall|j: InputKey| j != key ==> #[trigger] changed_in(b, j) == changed_in(a, j),
        key != InputKey::ImplList ==> heads_of(b) == heads_of(a),
        key != InputKey::CrateGraph ==> graph_of(b) == graph_of(a),
        bodies_of(a).len() <= bodies_of(b).len(),
        forall|x: u32| x < bodies_of(a).len() && key != InputKey::Body(x) ==> #[trigger] bodies_of(b)[x as int] == bodies_of(a)[x as int],
    ensures
        mt.wf((rev + 1) as u64),
        forall|i: int| 0 <= i < mt.count() ==> memo_ok(b, types, mt, (rev + 1) as u64, #[trigger] mt.at(i)),
{
    assert forall|i: int| 0 <= i < mt.count() implies memo_ok(b, types, mt, (rev + 1) as u64, #[trigger] mt.at(i)) by {
        let m = mt.at(i);
        assert(memo_ok(a, types, mt, rev, m));
        assert(m.verified_at <= rev) by {
            assert(mt.verified@[i] <= rev);
        }
        if deps_settled(b, mt, m.deps, m.verified_at) {
            assert forall|j: int| 0 <= j < m.deps.len() implies m.deps[j] != Dep::Input(key) by {
                if m.deps[j] == Dep::Input(key) {
                    assert(changed_in(b, key) <= m.verified_at);
                }
            }
            assert(!m.deps.contains(Dep::Input(key)));
            assert(deps_settled(a, mt, m.deps, m.verified_at)) by {
                assert forall|j: int| 0 <= j < m.deps.len() implies match #[trigger] m.deps[j] {
                    Dep::Input(x) => changed_in(a, x) <= m.verified_at,
                    Dep::Query(q) => mt.has(q) && mt.get(q).changed_at <= m.verified_at,
                } by {
                    match m.deps[j] {
                        Dep::Input(x) => {
                            assert(x != key);
                            assert(changed_in(b, x) == changed_in(a, x));
                        },
                        Dep::Query(_) => {},
                    }
                }
            }
            assert(value_ok(a, types, mt, m.key, m.value) && reads_covered(a, m.key, m.deps));
            if let QueryKey::Infer(x) = m.key {
                assert(m.deps.contains(Dep::Input(InputKey::Body(x))));
                assert(key != InputKey::Body(x));
                assert(bodies_of(b)[x as int] == bodies_of(a)[x as int]);
            }
        }
    }
}

/// `value_ok` reads of the memo table only the values of the queries its
/// recorded dependencies cover.
proof fn lemma_value_ok_frame(inp: Inputs, types: Seq<TyShape>, mt: MemoTable, mt2: MemoTable, k: QueryKey, v: ValueView, deps: Seq<Dep>)
    requires
        reads_covered(inp, k, deps),
        forall|q: QueryKey| #[trigger] deps.contains(Dep::Query(q)) ==> mt2.has(q) == mt.has(q) && (mt.has(q) ==> mt2.get(q).value == mt.get(q).value),
    ensures
        value_ok(inp, types, mt2, k, v) == value_ok(inp, types, mt, k, v),
{
    match k {
        QueryKey::TraitImplsInCrate(_) | QueryKey::TraitImplsInBlock(_) => {
            let c = match k { QueryKey::TraitImplsInCrate(c) => Scope::Crate(c), QueryKey::TraitImplsInBlock(b) => Scope::Block(b), _ => Scope::Crate(0) };
            let heads = heads_of(inp);
            assert forall|i: int| 0 <= i < heads.len() && relevant(heads, c, i) implies #[trigger] self_fp(types, mt2, i) == self_fp(types, mt, i) by {
                assert(deps.contains(Dep::Query(QueryKey::ImplSelfTy(i as u32))));
            }
            assert(scope_fps(heads, types, mt2, c) =~= scope_fps(heads, types, mt, c));
        },
        QueryKey::TraitImplsInDeps(c) => {
            assert forall|d: u32| depends_on(graph_of(inp), c as int, d as int) implies #[trigger] impls_of(mt2, QueryKey::TraitImplsInCrate(d)) == impls_of(mt, QueryKey::TraitImplsInCrate(d)) by {
                assert(deps.contains(Dep::Query(QueryKey::TraitImplsInCrate(d))));
            }
            if v is Impls {
                assert forall|e: ImplEntry| #![trigger v->Impls_0.contains(e)]
                    (exists|d: u32| depends_on(graph_of(inp), c as int, d as int) && #[trigger] impls_of(mt2, QueryKey::TraitImplsInCrate(d)).contains(e))
                    == (exists|d: u32| depends_on(graph_of(inp), c as int, d as int) && #[trigger] impls_of(mt, QueryKey::TraitImplsInCrate(d)).contains(e)) by {
                    if exists|d: u32| depends_on(graph_of(inp), c as int, d as int) && #[trigger] impls_of(mt2, QueryKey::TraitImplsInCrate(d)).contains(e) {
                        let d = choose|d: u32| depends_on(graph_of(inp), c as int, d as int) && #[trigger] impls_of(mt2, QueryKey::TraitImplsInCrate(d)).contains(e);
                        assert(impls_of(mt, QueryKey::TraitImplsInCrate(d)).contains(e));
                    }
                    if exists|d: u32| depends_on(graph_of(inp), c as int, d as int) && #[trigger] impls_of(mt, QueryKey::TraitImplsInCrate(d)).contains(e) {
                        let d = choose|d: u32| depends_on(graph_of(inp), c as int, d as int) && #[trigger] impls_of(mt, QueryKey::TraitImplsInCrate(d)).contains(e);
                        assert(impls_of(mt2, QueryKey::TraitImplsInCrate(d)).contains(e));
                    }
                }
            }
        },
        QueryKey::TraitSolve(c, _) => {
            assert(deps.contains(Dep::Query(QueryKey::TraitImplsInDeps(c))));
        },
        _ => {},
    }
}

/// When the entry of one key `k`, not confirmed at `rev`, is replaced or
/// added, with either its old value and change stamp or a change stamped
/// `rev`, every entry of another key keeps its invariant.
proof fn lemma_other_entry_ok(inp: Inputs, types: Seq<TyShape>, mt: MemoTable, mt2: MemoTable, rev: u64, k: QueryKey, m: MemoView)
    requires
        memo_ok(inp, types, mt, rev, m),
        m.verified_at <= rev,
        forall|q: QueryKey| q != k ==> (#[trigger] mt2.has(q) == mt.has(q) && (mt.has(q) ==> mt2.get(q) == mt.get(q))),
        mt.has(k) ==> mt.get(k).verified_at != rev,
        mt2.has(k),
        (mt.has(k) && mt2.get(k).value == mt.get(k).value && mt2.get(k).changed_at == mt.get(k).changed_at)
            || mt2.get(k).changed_at == rev,
    ensures
        memo_ok(inp, types, mt2, rev, m),
{
    let kept = mt.has(k) && mt2.get(k).value == mt.get(k).value && mt2.get(k).changed_at == mt.get(k).changed_at;
    if m.verified_at == rev && layer(m.key) >= 2 {
        assert(!m.deps.contains(Dep::Query(k))) by {
            if m.deps.contains(Dep::Query(k)) {
                let x = choose|x: int| 0 <= x < m.deps.len() && m.deps[x] == Dep::Query(k);
                assert(m.deps[x] matches Dep::Query(_));
            }
        }
        assert forall|j: int| 0 <= j < m.deps.len() implies (#[trigger] m.deps[j] matches Dep::Query(q) ==> mt2.has(q) && mt2.get(q).verified_at == rev) by {
            if let Dep::Query(q) = m.deps[j] {
                assert(deps_fresh(mt, rev, m.deps));
                assert(mt.has(q) && mt.get(q).verified_at == rev);
                assert(q != k);
                assert(mt2.has(q) && mt2.get(q) == mt.get(q));
            }
        }
    }
    if deps_settled(inp, mt2, m.deps, m.verified_at) && layer(m.key) >= 2 {
        if !kept {
            assert(!m.deps.contains(Dep::Query(k))) by {
                if m.deps.contains(Dep::Query(k)) {
                    let x = choose|x: int| 0 <= x < m.deps.len() && m.deps[x] == Dep::Query(k);
                    assert(mt2.get(k).changed_at <= m.verified_at);
                    assert(m.verified_at == rev);
                    assert(m.deps[x] matches Dep::Query(_));
                }
            }
        }
        assert(deps_settled(inp, mt, m.deps, m.verified_at)) by {
            assert forall|j: int| 0 <= j < m.deps.len() implies match #[trigger] m.deps[j] {
                Dep::Input(x) => changed_in(inp, x) <= m.verified_at,
                Dep::Query(q) => mt.has(q) && mt.get(q).changed_at <= m.verified_at,
            } by {
                if let Dep::Query(q) = m.deps[j] {
                    if q == k {
                        assert(m.deps.contains(Dep::Query(k)));
                    }
                }
            }
        }
        assert forall|q: QueryKey| #[trigger] m.deps.contains(Dep::Query(q)) implies mt2.has(q) == mt.has(q) && (mt.has(q) ==> mt2.get(q).value == mt.get(q).value) by {
            if q == k {
                assert(kept);
            }
        }
        lemma_value_ok_frame(inp, types, mt, mt2, m.key, m.value, m.deps);
    }
    if deps_settled(inp, mt2, m.deps, m.verified_at) && layer(m.key) < 2 {
        assert(value_ok(inp, types, mt2, m.key, m.value) && reads_covered(inp, m.key, m.deps));
    }
}

/// Replacing or adding the entry at position `i`, of key `k`, leaves the
/// entry of every other key as it was.
/// Lists of dependencies confirmed at `rev` stay confirmed when only the
/// entry of `k` changes and ends confirmed at `rev`.
proof fn lemma_fresh_kept(mt: MemoTable, mt2: MemoTable, rev: u64, k: QueryKey, deps: Seq<Dep>)
    requires
        deps_fresh(mt, rev, deps),
        forall|q: QueryKey| q != k ==> (#[trigger] mt2.has(q) == mt.has(q) && (mt.has(q) ==> mt2.get(q) == mt.get(q))),
        mt2.has(k),
        mt2.get(k).verified_at == rev,
    ensures
        deps_fresh(mt2, rev, deps),
{
    assert forall|j: int| 0 <= j < deps.len() implies (#[trigger] deps[j] matches Dep::Query(q) ==> mt2.has(q) && mt2.get(q).verified_at == rev) by {
        if let Dep::Query(q) = deps[j] {
            if q != k {
                assert(mt.has(q) && mt.get(q).verified_at == rev);
            }
        }
    }
}

proof fn lemma_same_elsewhere(mt: MemoTable, mt2: MemoTable, rev: u64, k: QueryKey, i: int, fresh_key: bool)
    requires
        mt.wf(rev),
        mt2.wf(rev),
        fresh_key ==> !mt.has(k) && i == mt.count() && mt2.count() == mt.count() + 1,
        !fresh_key ==> 0 <= i < mt.count() && mt2.count() == mt.count() && mt.at(i).key == k,
        mt2.at(i).key == k,
        forall|j: int| 0 <= j < mt.count() && j != i ==> mt2.at(j) == mt.at(j),
    ensures
        forall|q: QueryKey| q != k ==> (#[trigger] mt2.has(q) == mt.has(q) && (mt.has(q) ==> mt2.get(q) == mt.get(q))),
        mt2.has(k),
        mt2.get(k) == mt2.at(i),
        !fresh_key ==> mt.has(k) && mt.get(k) == mt.at(i),
{
    if fresh_key {
        MemoTable::lemma_append(&mt, &mt2, rev);
        assert forall|q: QueryKey| q != k implies (#[trigger] mt2.has(q) == mt.has(q) && (mt.has(q) ==> mt2.get(q) == mt.get(q))) by {
            if mt2.has(q) {
                let x = mt2.index(q);
                if x < mt.count() {
                    assert(mt.at(x).key == q);
                }
            }
        }
    } else {
        MemoTable::lemma_update(&mt, &mt2, rev, i);
        mt.lemma_index(rev, k, i);
        assert forall|q: QueryKey| q != k implies (#[trigger] mt2.has(q) == mt.has(q) && (mt.has(q) ==> mt2.get(q) == mt.get(q))) by {
            if mt2.has(q) {
                let x = mt2.index(q);
                assert(x != i);
                assert(mt.at(x).key == q);
            }
        }
    }
}

/// Replacing (or adding, when `fresh_key`) the entry at position `i`, of key
/// `k`, keeps every entry's invariant when the new entry keeps its own.
proof fn lemma_table_step(inp: Inputs, types: Seq<TyShape>, mt: MemoTable, mt2: MemoTable, rev: u64, k: QueryKey, i: int, fresh_key: bool)
    requires
        mt.wf(rev),
        mt2.wf(rev),
        forall|j: int| 0 <= j < mt.count() ==> memo_ok(inp, types, mt, rev, #[trigger] mt.at(j)),
        fresh_key ==> !mt.has(k) && i == mt.count() && mt2.count() == mt.count() + 1,
        !fresh_key ==> 0 <= i < mt.count() && mt2.count() == mt.count() && mt.at(i).key == k && mt.at(i).verified_at != rev,
        mt2.at(i).key == k,
        forall|j: int| 0 <= j < mt.count() && j != i ==> mt2.at(j) == mt.at(j),
        (!fresh_key && mt2.at(i).value == mt.at(i).value && mt2.at(i).changed_at == mt.at(i).changed_at)
            || mt2.at(i).changed_at == rev,
        memo_ok(inp, types, mt2, rev, mt2.at(i)),
    ensures
        forall|j: int| 0 <= j < mt2.count() ==> memo_ok(inp, types, mt2, rev, #[trigger] mt2.at(j)),
        forall|q: QueryKey| q != k ==> (#[trigger] mt2.has(q) == mt.has(q) && (mt.has(q) ==> mt2.get(q) == mt.get(q))),
        mt2.has(k),
        mt2.get(k) == mt2.at(i),
{
    if fresh_key {
        MemoTable::lemma_append(&mt, &mt2, rev);
        assert forall|q: QueryKey| q != k implies (#[trigger] mt2.has(q) == mt.has(q) && (mt.has(q) ==> mt2.get(q) == mt.get(q))) by {
            if mt2.has(q) {
                let x = mt2.index(q);
                if x < mt.count() {
                    assert(mt.at(x).key == q);
                }
            }
        }
    } else {
        MemoTable::lemma_update(&mt, &mt2, rev, i);
        mt.lemma_index(rev, k, i);
        assert forall|q: QueryKey| q != k implies (#[trigger] mt2.has(q) == mt.has(q) && (mt.has(q) ==> mt2.get(q) == mt.get(q))) by {
            if mt2.has(q) {
                let x = mt2.index(q);
                assert(x != i);
                assert(mt.at(x).key == q);
            }
        }
    }
    assert forall|j: int| 0 <= j < mt2.count() implies memo_ok(inp, types, mt2, rev, #[trigger] mt2.at(j)) by {
        if j != i {
            assert(mt2.at(j) == mt.at(j));
            assert(memo_ok(inp, types, mt, rev, mt.at(j)));
            assert(mt.at(j).verified_at <= rev) by {
                assert(mt.verified@[j] <= rev);
            }
            if !fresh_key {
                mt.lemma_index(rev, k, i);
            }
            lemma_other_entry_ok(inp, types, mt, mt2, rev, k, mt.at(j));
        }
    }
}

/// Interning more types keeps every memo entry's invariant.
proof fn lemma_types_grow(inp: Inputs, types: Seq<TyShape>, types2: Seq<TyShape>, mt: MemoTable, rev: u64)
    requires
        types.is_prefix_of(types2),
        mt.wf(rev),
        forall|i: int| 0 <= i < mt.count() ==> memo_ok(inp, types, mt, rev, #[trigger] mt.at(i)),
    ensures
        forall|i: int| 0 <= i < mt.count() ==> memo_ok(inp, types2, mt, rev, #[trigger] mt.at(i)),
{
    assert forall|i: int| 0 <= i < types.len() implies types2[i] == types[i] by {
        assert(types2.subrange(0, types.len() as int)[i] == types2[i]);
    }
    assert forall|j: int| #![trigger self_fp(types2, mt, j)] self_fp(types2, mt, j) == self_fp(types, mt, j) by {
        let q = QueryKey::ImplSelfTy(j as u32);
        if mt.has(q) {
            let k = mt.index(q);
            assert(memo_ok(inp, types, mt, rev, mt.at(k)));
        }
    }
    assert forall|heads: Seq<ImplHead>, c: Scope| #[trigger] scope_fps(heads, types2, mt, c) == scope_fps(heads, types, mt, c) by {
        assert(scope_fps(heads, types2, mt, c) =~= scope_fps(heads, types, mt, c));
    }
    assert forall|i: int| 0 <= i < mt.count() implies memo_ok(inp, types2, mt, rev, #[trigger] mt.at(i)) by {
        assert(memo_ok(inp, types, mt, rev, mt.at(i)));
    }
}

impl HirDatabase {
    /// The dependencies recorded so far by each frame of the stack.
    pub closed spec fn frames(&self) -> Seq<Seq<Dep>> {
        Seq::new(self.stack_deps@.len(), |f: int| self.stack_deps@[f]@)
    }

    /// The dependencies recorded so far by the query on top of the stack.
    pub open spec fn top_deps(&self) -> Seq<Dep> {
        self.frames().last()
    }
}

/// What `get(k)` guarantees of the state `a` before it, the state `b` after
/// it and the value `r` it returned.
pub open spec fn got(a: HirDatabase, b: HirDatabase, k: QueryKey, r: ValueView) -> bool {
    &&& b.wf()
    &&& evolves(a, b)
    &&& b.frames() == a.frames()
    &&& fits(k, r)
    // A key already being evaluated is a cycle: it takes its fallback.
    &&& a.stack().contains(k) ==> r == fallback(k)
    // Otherwise the value is confirmed at the current revision.
    &&& !a.stack().contains(k) ==> b.fresh(k) && b.memo(k).value == r
    // A value confirmed at this revision is returned without any work.
    &&& !a.stack().contains(k) && a.fresh(k) ==> b == a
    &&& !a.stack().contains(k) && !a.has_memo(k) ==> b.memo(k).changed_at == a.rev() && b.memo(k).runs == 1
    // An older value runs again only if a dependency changed since it was
    // confirmed; an equal result keeps the revision of its last change.
    &&& !a.stack().contains(k) && a.has_memo(k) ==> {
        let before = a.memo(k);
        let after = b.memo(k);
        &&& (after.value == before.value ==> after.changed_at == before.changed_at)
        &&& (after.value != before.value ==> after.changed_at == a.rev())
        &&& (after.runs != before.runs ==> exists|j: int| 0 <= j < before.deps.len() && (
            b.dep_blocked(k, before.deps[j]) || b.dep_changed(before.deps[j]) > before.verified_at))
    }
}

impl HirDatabase {
    /// `v` is what query `k` computes from the current inputs, interned types
    /// and memoized values.
    pub open spec fn computes(&self, k: QueryKey, v: ValueView) -> bool {
        value_ok(*self.inputs_view(), self.types_view(), *self.memo_table(), k, v)
    }
}

/// No stale value: an entry confirmed at the current revision holds what its
/// query computes from the current inputs and the memoized values it reads.
pub proof fn lemma_fresh_value(db: HirDatabase, k: QueryKey)
    requires
        db.wf(),
        db.fresh(k),
    ensures
        db.computes(k, db.memo(k).value),
{
    let mt = db.memos;
    let x = mt.index(k);
    let m = mt.at(x);
    assert(memo_ok(db.inputs, db.types@, mt, db.revision, m));
    if layer(k) >= 2 {
        assert(deps_fresh(mt, db.revision, m.deps));
        assert(deps_settled(db.inputs, mt, m.deps, m.verified_at)) by {
            assert forall|j: int| 0 <= j < m.deps.len() implies match #[trigger] m.deps[j] {
                Dep::Input(i) => changed_in(db.inputs, i) <= m.verified_at,
                Dep::Query(q) => mt.has(q) && mt.get(q).changed_at <= m.verified_at,
            } by {
                match m.deps[j] {
                    Dep::Input(i) => {},
                    Dep::Query(q) => {
                        let y = mt.index(q);
                        assert(mt.changed@[y] <= mt.verified@[y]);
                    },
                }
            }
        }
    }
}

/// Idempotence: with no input changed in between, a second `get` of a key
/// returns the value of the first and leaves the database as it was.
pub proof fn lemma_get_idempotent(
    a: HirDatabase,
    b: HirDatabase,
    c: HirDatabase,
    k: QueryKey,
    r1: ValueView,
    r2: ValueView,
)
    requires
        !a.stack().contains(k),
        got(a, b, k, r1),
        got(b, c, k, r2),
    ensures
        r2 == r1,
        c == b,
{
}

/// Backdating: when every dependency recorded for `k` is, once brought up to
/// date, unchanged since `k` was last confirmed, the query function of `k`
/// does not run again.
pub proof fn lemma_backdating(a: HirDatabase, b: HirDatabase, k: QueryKey, r: ValueView)
    requires
        !a.stack().contains(k),
        a.has_memo(k),
        got(a, b, k, r),
        forall|j: int| 0 <= j < a.memo(k).deps.len() ==> !b.dep_blocked(k, #[trigger] a.memo(k).deps[j])
            && b.dep_changed(a.memo(k).deps[j]) <= a.memo(k).verified_at,
    ensures
        b.runs(k) == a.runs(k),
{
}

/// A query that runs again and produces a value equal to its previous one
/// keeps the revision of its last change, so its dependents stay valid.
pub proof fn lemma_equal_result_keeps_change(a: HirDatabase, b: HirDatabase, k: QueryKey, r: ValueView)
    requires
        !a.stack().contains(k),
        a.has_memo(k),
        got(a, b, k, r),
        r == a.memo(k).value,
    ensures
        b.memo(k).changed_at == a.memo(k).changed_at,
        b.dep_changed(Dep::Query(k)) == a.memo(k).changed_at,
{
}

/// The query on top of the stack only added dependencies to its frame; the
/// frames below it are untouched.
pub open spec fn frames_grow(a: HirDatabase, b: HirDatabase) -> bool {
    &&& b.frames().len() == a.frames().len()
    &&& forall|f: int| 0 <= f < a.frames().len() - 1 ==> #[trigger] b.frames()[f] == a.frames()[f]
    &&& a.top_deps().is_prefix_of(b.top_deps())
}

/// The frames below the top of the stack are untouched.
pub open spec fn frames_below(a: HirDatabase, b: HirDatabase) -> bool {
    &&& b.frames().len() == a.frames().len()
    &&& forall|f: int| 0 <= f < a.frames().len() - 1 ==> #[trigger] b.frames()[f] == a.frames()[f]
}

proof fn lemma_frames_grow_trans(a: HirDatabase, b: HirDatabase, c: HirDatabase)
    requires
        frames_grow(a, b),
        frames_grow(b, c),
    ensures
        frames_grow(a, c),
{
    lemma_prefix_trans(a.top_deps(), b.top_deps(), c.top_deps());
}

proof fn lemma_prefix_contains<T>(a: Seq<T>, b: Seq<T>, x: T)
    requires
        a.is_prefix_of(b),
        a.contains(x),
    ensures
        b.contains(x),
{
    let i = choose|i: int| 0 <= i < a.len() && a[i] == x;
    assert(b.subrange(0, a.len() as int)[i] == b[i]);
}

/// Two states that agree on everything but the stack and the memo table.
pub open spec fn same_world(a: HirDatabase, b: HirDatabase) -> bool {
    &&& b.rev() == a.rev()
    &&& b.inputs_view() == a.inputs_view()
    &&& b.types_view() == a.types_view()
}

impl HirDatabase {
    /// Starts the evaluation of `k`.
    fn push_frame(&mut self, k: QueryKey)
        requires
            old(self).wf(),
            old(self).key_ok(k),
            !old(self).stack().contains(k),
            old(self).stack().len() == 0 || may_read(old(self).top(), k),
        ensures
            final(self).wf(),
            same_world(*old(self), *final(self)),
            final(self).memo_table() == old(self).memo_table(),
            final(self).stack() == old(self).stack().push(k),
            final(self).frames() == old(self).frames().push(Seq::empty()),
            final(self).room() == old(self).get_m2(k),
            final(self).top() == k,
    {
        self.stack_keys.push(k);
        self.stack_cycle.push(false);
        self.stack_deps.push(Vec::new());
        proof {
            assert(self.frames() =~= old(self).frames().push(Seq::empty()));
            assert(self.stack_keys@.drop_last() =~= old(self).stack_keys@);
            assert forall|a: int, b: int| 0 <= a < self.stack_keys@.len() && 0 <= b < self.stack_keys@.len() && a != b
                implies self.stack_keys@[a] != self.stack_keys@[b] by {
                if a == self.stack_keys@.len() - 1 {
                    assert(old(self).stack_keys@[b] == self.stack_keys@[b]);
                } else if b == self.stack_keys@.len() - 1 {
                    assert(old(self).stack_keys@[a] == self.stack_keys@[a]);
                } else {
                    assert(old(self).stack_keys@[a] == self.stack_keys@[a]);
                    assert(old(self).stack_keys@[b] == self.stack_keys@[b]);
                }
            }
            assert forall|a: int| 0 <= a < self.stack_keys@.len() implies self.key_ok(#[trigger] self.stack_keys@[a]) by {
                if a < old(self).stack_keys@.len() {
                    assert(old(self).key_ok(old(self).stack_keys@[a]));
                }
            }
            assert forall|a: int| 0 < a < self.stack_keys@.len() implies may_read(self.stack_keys@[a - 1], #[trigger] self.stack_keys@[a]) by {
                if a < old(self).stack_keys@.len() {
                    assert(old(self).stack_keys@[a] == self.stack_keys@[a]);
                    assert(may_read(old(self).stack_keys@[a - 1], old(self).stack_keys@[a]));
                }
            }
            assert forall|a: int| 0 <= a < self.stack_keys@.len() && #[trigger] self.stack_cycle@[a] implies recursive_kind(self.stack_keys@[a]) by {
                if a < old(self).stack_keys@.len() {
                    assert(old(self).stack_cycle@[a] == self.stack_cycle@[a]);
                }
            }
        }
    }

    /// Clears what the top frame gathered, before the query runs afresh.
    fn reset_frame(&mut self)
        requires
            old(self).wf(),
            old(self).stack().len() > 0,
        ensures
            final(self).wf(),
            same_world(*old(self), *final(self)),
            final(self).memo_table() == old(self).memo_table(),
            final(self).stack() == old(self).stack(),
            final(self).frames() == old(self).frames().update(old(self).frames().len() - 1, Seq::empty()),
    {
        let top = self.stack_keys.len() - 1;
        self.stack_cycle.set(top, false);
        self.stack_deps.set(top, Vec::new());
        proof {
            assert(self.frames() =~= old(self).frames().update(old(self).frames().len() - 1, Seq::empty()));
        }
    }

    /// Ends the evaluation of the top of the stack; returns whether it was
    /// caught in a cycle, and the dependencies it read.
    fn pop_frame(&mut self) -> (r: (bool, Vec<Dep>))
        requires
            old(self).wf(),
            old(self).stack().len() > 0,
        ensures
            final(self).wf(),
            same_world(*old(self), *final(self)),
            final(self).memo_table() == old(self).memo_table(),
            final(self).stack() == old(self).stack().drop_last(),
            final(self).frames() == old(self).frames().drop_last(),
            r.1@ == old(self).top_deps(),
            r.0 ==> recursive_kind(old(self).top()),
    {
        self.stack_keys.pop();
        let cyc = self.stack_cycle.pop();
        let deps = self.stack_deps.pop();
        proof {
            assert forall|a: int| 0 <= a < self.stack_keys@.len() implies self.key_ok(#[trigger] self.stack_keys@[a]) by {
                assert(old(self).key_ok(old(self).stack_keys@[a]));
            }
        }
        proof {
            assert forall|a: int| 0 < a < self.stack_keys@.len() implies may_read(self.stack_keys@[a - 1], #[trigger] self.stack_keys@[a]) by {
                assert(may_read(old(self).stack_keys@[a - 1], old(self).stack_keys@[a]));
            }
            assert forall|a: int| 0 <= a < self.stack_keys@.len() && #[trigger] self.stack_cycle@[a] implies recursive_kind(self.stack_keys@[a]) by {
                assert(old(self).stack_cycle@[a] == self.stack_cycle@[a]);
            }
            let last = old(self).stack_keys@.len() - 1;
            assert(old(self).stack_cycle@[last] ==> recursive_kind(old(self).stack_keys@[last]));
        }
        let c = match cyc {
            Some(b) => b,
            None => false,
        };
        let d = match deps {
            Some(d) => d,
            None => Vec::new(),
        };
        proof {
            assert(self.frames() =~= old(self).frames().drop_last());
        }
        (c, d)
    }

    fn find_on_stack(&self, k: QueryKey) -> (r: Option<usize>)
        ensures
            r matches Some(p) ==> p < self.stack().len() && self.stack()[p as int] == k,
            r is None ==> !self.stack().contains(k),
    {
        let mut i: usize = 0;
        while i < self.stack_keys.len()
            invariant
                i <= self.stack_keys@.len(),
                forall|j: int| 0 <= j < i ==> self.stack_keys@[j] != k,
            decreases self.stack_keys@.len() - i,
        {
            if self.stack_keys[i] == k {
                return Some(i);
            }
            i = i + 1;
        }
        None
    }

    /// Records a dependency of the query being evaluated.
    fn record(&mut self, d: Dep)
        requires
            old(self).wf(),
            old(self).stack().len() > 0,
            layer(old(self).top()) >= 2 ==> (d matches Dep::Query(q) ==> old(self).fresh(q)),
        ensures
            final(self).wf(),
            evolves(*old(self), *final(self)),
            final(self).memo_table() == old(self).memo_table(),
            final(self).frames() == old(self).frames().update(old(self).frames().len() - 1, old(self).top_deps().push(d)),
            frames_grow(*old(self), *final(self)),
            final(self).top_deps() == old(self).top_deps().push(d),
    {
        let top = self.stack_deps.pop();
        match top {
            Some(mut deps) => {
                deps.push(d);
                self.stack_deps.push(deps);
            },
            None => {},
        }
        proof {
            assert(self.frames() =~= old(self).frames().update(old(self).frames().len() - 1, old(self).top_deps().push(d)));
            assert(old(self).top_deps().is_prefix_of(old(self).top_deps().push(d))) by {
                assert(old(self).top_deps().push(d).subrange(0, old(self).top_deps().len() as int) =~= old(self).top_deps());
            }
            let last = self.stack_deps@.len() - 1;
            assert(self.stack_keys@[last] == old(self).top());
            assert forall|f: int| 0 <= f < self.stack_keys@.len() && layer(self.stack_keys@[f]) >= 2
                implies deps_fresh(self.memos, self.revision, (#[trigger] self.stack_deps@[f])@) by {
                if f < last {
                    assert(self.stack_deps@[f] == old(self).stack_deps@[f]);
                } else {
                    assert(deps_fresh(self.memos, self.revision, old(self).stack_deps@[f]@));
                    assert(self.stack_deps@[f]@ == old(self).stack_deps@[f]@.push(d));
                }
            }
        }
    }

    /// Reads another query from inside the evaluation of the top of the stack.
    fn fetch(&mut self, q: QueryKey) -> (r: QueryValue)
        requires
            old(self).wf(),
            old(self).key_ok(q),
            old(self).stack().len() > 0,
            may_read(old(self).top(), q),
        ensures
            final(self).wf(),
            evolves(*old(self), *final(self)),
            old(self).stack().contains(q) ==> r@ == fallback(q),
            !old(self).stack().contains(q) ==> final(self).fresh(q) && final(self).memo(q).value == r@,
            final(self).frames() == old(self).frames().update(old(self).frames().len() - 1, old(self).top_deps().push(Dep::Query(q))),
            layer(old(self).top()) >= 2 ==> !old(self).stack().contains(q),
            frames_grow(*old(self), *final(self)),
            final(self).top_deps().contains(Dep::Query(q)),
            fits(q, r@),
        decreases old(self).get_m1(q), old(self).get_m2(q), 6int, TypeRef::Unit,
    {
        let r = self.get(q);
        proof {
            if old(self).stack().contains(q) {
                let p = choose|p: int| 0 <= p < old(self).stack().len() && old(self).stack()[p] == q;
                old(self).lemma_cycle_members(q, p);
                assert(recursive_kind(old(self).stack()[old(self).stack().len() - 1]));
            }
        }
        self.record(Dep::Query(q));
        proof {
            assert(old(self).top_deps().is_prefix_of(self.top_deps()));
            assert(self.top_deps()[self.top_deps().len() - 1] == Dep::Query(q));
        }
        r
    }

    /// The value of query `k` at the current revision. A value confirmed at
    /// this revision is returned as it is; an older one is confirmed when none
    /// of its dependencies changed since, and recomputed otherwise. A key that
    /// is already being evaluated is a cycle: every query from it up to the
    /// top of the stack takes its fallback.
    #[verifier::rlimit(60)]
    pub fn get(&mut self, k: QueryKey) -> (r: QueryValue)
        requires
            old(self).wf(),
            old(self).key_ok(k),
            old(self).stack().len() == 0 || may_read(old(self).top(), k),
        ensures
            got(*old(self), *final(self), k, r@),
        decreases old(self).get_m1(k), old(self).get_m2(k), 5int, TypeRef::Unit,
    {
        proof {
            self.lemma_room(k);
        }
        match self.find_on_stack(k) {
            Some(p) => {
                proof {
                    self.lemma_cycle_members(k, p as int);
                }
                let mut j: usize = p;
                while j < self.stack_cycle.len()
                    invariant
                        self.wf(),
                        evolves(*old(self), *self),
                        self.memo_table() == old(self).memo_table(),
                        self.frames() == old(self).frames(),
                        p <= j,
                        forall|a: int| p <= a < self.stack().len() ==> recursive_kind(#[trigger] self.stack()[a]),
                    decreases self.stack_cycle@.len() - j,
                {
                    self.stack_cycle.set(j, true);
                    j = j + 1;
                }
                return fallback_value(k);
            },
            None => {},
        }
        let found = self.memos.find(k);
        match found {
            Some(i) => {
                proof {
                    self.memos.lemma_index(self.revision, k, i as int);
                }
                if self.memos.verified[i] == self.revision {
                    return self.memos.values[i].copy();
                }
            },
            None => {},
        }
        self.push_frame(k);
        let ghost pushed = *self;
        proof {
            assert(pushed.stack()[pushed.stack().len() - 1] == k);
            assert(pushed.stack().drop_last() =~= old(self).stack());
            assert forall|q: QueryKey| old(self).stack().contains(q) implies pushed.stack().contains(q) by {
                let a = choose|a: int| 0 <= a < old(self).stack().len() && old(self).stack()[a] == q;
                assert(pushed.stack()[a] == q);
            }
        }
        let mut reuse = false;
        let ghost mut since_g: u64 = 0;
        let ghost mut deps_g: Seq<Dep> = Seq::empty();
        match found {
            Some(i) => {
                let deps = copy_deps(&self.memos.deps[i]);
                let since = self.memos.verified[i];
                proof {
                    since_g = since;
                    deps_g = deps@;
                }
                reuse = self.deps_unchanged(k, &deps, since);
            },
            None => {},
        }
        let ghost mid = *self;
        proof {
            assert(table_grows(*pushed.memo_table(), *mid.memo_table(), old(self).rev(), pushed.stack()));
            assert(pushed.types_view().is_prefix_of(mid.types_view())) by {
                assert(pushed.types_view().subrange(0, pushed.types_view().len() as int) =~= pushed.types_view());
            }
            lemma_grows_weaken(*pushed.memo_table(), *mid.memo_table(), old(self).rev(), old(self).stack(), pushed.stack());
            if !old(self).has_memo(k) {
                assert(!mid.has_memo(k));
            }
            match found {
                Some(i) => {
                    assert(mid.memo_at(i as int).key == k);
                    mid.memos.lemma_index(mid.revision, k, i as int);
                    assert(mid.memo(k) == old(self).memo(k));
                    assert(since_g == old(self).memo(k).verified_at);
                    assert(deps_g == old(self).memo(k).deps);
                },
                None => {},
            }
        }
        if reuse {
            self.pop_frame();
            match found {
                Some(i) => {
                    let ghost before = self.memos;
                    let ghost popped_c = *self;
                    self.memos.confirm(i, self.revision);
                    proof {
                        let inp = self.inputs;
                        let types = self.types@;
                        let rev = self.revision;
                        lemma_same_elsewhere(before, self.memos, rev, k, i as int, false);
                        let m_old = before.at(i as int);
                        assert(memo_ok(inp, types, before, rev, m_old));
                        assert(m_old.deps == deps_g && m_old.verified_at == since_g);
                        assert(deps_settled(inp, before, m_old.deps, m_old.verified_at));
                        assert forall|q: QueryKey| #[trigger] deps_g.contains(Dep::Query(q)) implies self.memos.has(q) == before.has(q)
                            && (before.has(q) ==> self.memos.get(q).value == before.get(q).value) by {
                            assert(q != k);
                        }
                        lemma_value_ok_frame(inp, types, before, self.memos, k, m_old.value, deps_g);
                        assert(deps_settled(inp, self.memos, deps_g, rev)) by {
                            assert forall|j: int| 0 <= j < deps_g.len() implies match #[trigger] deps_g[j] {
                                Dep::Input(x) => changed_in(inp, x) <= rev,
                                Dep::Query(q) => self.memos.has(q) && self.memos.get(q).changed_at <= rev,
                            } by {
                                if let Dep::Query(q) = deps_g[j] {
                                    assert(deps_g.contains(Dep::Query(q)));
                                    assert(q != k);
                                }
                            }
                        }
                        lemma_fresh_kept(before, self.memos, rev, k, deps_g);
                        assert(memo_ok(inp, types, self.memos, rev, self.memos.at(i as int)));
                        lemma_table_step(inp, types, before, self.memos, rev, k, i as int, false);
                        assert forall|f: int| 0 <= f < self.stack_keys@.len() && layer(self.stack_keys@[f]) >= 2
                            implies deps_fresh(self.memos, rev, (#[trigger] self.stack_deps@[f])@) by {
                            assert(deps_fresh(before, rev, popped_c.stack_deps@[f]@));
                            lemma_fresh_kept(before, self.memos, rev, k, self.stack_deps@[f]@);
                        }
                        assert(self.frames() =~= old(self).frames());
                        lemma_grows_update(before, self.memos, self.revision, old(self).stack(), i as int);
                        lemma_grows_trans(*old(self).memo_table(), before, self.memos, self.revision, old(self).stack(), old(self).stack());
                        self.memos.lemma_index(self.revision, k, i as int);
                    }
                    return self.memos.values[i].copy();
                },
                None => {
                    return fallback_value(k);
                },
            }
        }
        self.reset_frame();
        let mut v = self.execute();
        let ghost ex = *self;
        proof {
            lemma_grows_weaken(*mid.memo_table(), *ex.memo_table(), old(self).rev(), old(self).stack(), pushed.stack());
            lemma_grows_trans(*old(self).memo_table(), *mid.memo_table(), *ex.memo_table(), old(self).rev(), old(self).stack(), old(self).stack());
            lemma_prefix_trans(old(self).types_view(), mid.types_view(), ex.types_view());
            if !old(self).has_memo(k) {
                assert(!ex.has_memo(k));
            }
            match found {
                Some(i) => {
                    assert(ex.memo_at(i as int).key == k);
                    ex.memos.lemma_index(ex.revision, k, i as int);
                    assert(ex.memo(k) == old(self).memo(k));
                },
                None => {},
            }
        }
        let (cyc, deps) = self.pop_frame();
        let ghost dv = deps@;
        proof {
            let last = ex.stack_keys@.len() - 1;
            assert(ex.stack_keys@[last] == k);
            assert(dv == ex.stack_deps@[last]@);
            assert(self.frames() =~= old(self).frames());
        }
        if cyc {
            v = fallback_value(k);
        }
        let out = v.copy();
        let ghost popped = *self;
        proof {
            let rev = self.revision;
            assert(popped.memos == ex.memos);
            if layer(k) >= 2 {
                assert(!cyc);
                let last = ex.stack_keys@.len() - 1;
                assert(deps_fresh(ex.memos, rev, ex.stack_deps@[last]@));
                assert(!dv.contains(Dep::Query(k))) by {
                    if dv.contains(Dep::Query(k)) {
                        let x = choose|x: int| 0 <= x < dv.len() && dv[x] == Dep::Query(k);
                        assert(dv[x] matches Dep::Query(_));
                        assert(ex.memos.has(k) && ex.memos.get(k).verified_at == rev);
                    }
                }
            }
            if cyc {
                assert(self.types@[0] == TyShape::Error);
            }
        }
        match found {
            Some(i) => {
                let same = self.memos.values[i].same(&v);
                proof {
                    assert(self.memos.changed@[i as int] <= self.memos.verified@[i as int]);
                }
                let changed = if same { self.memos.changed[i] } else { self.revision };
                let runs = self.memos.runs[i];
                let runs = if runs < u64::MAX { runs + 1 } else { runs };
                self.memos.store(i, v, changed, deps, runs, self.revision);
                proof {
                    let inp = self.inputs;
                    let types = self.types@;
                    let rev = self.revision;
                    lemma_same_elsewhere(popped.memos, self.memos, rev, k, i as int, false);
                    if layer(k) >= 2 {
                        assert forall|q: QueryKey| #[trigger] dv.contains(Dep::Query(q)) implies self.memos.has(q) == popped.memos.has(q)
                            && (popped.memos.has(q) ==> self.memos.get(q).value == popped.memos.get(q).value) by {
                            assert(q != k);
                        }
                        lemma_value_ok_frame(inp, types, popped.memos, self.memos, k, v@, dv);
                        let last = ex.stack_keys@.len() - 1;
                        lemma_fresh_kept(popped.memos, self.memos, rev, k, dv);
                    }
                    assert(memo_ok(inp, types, self.memos, rev, self.memos.at(i as int)));
                    lemma_table_step(inp, types, popped.memos, self.memos, rev, k, i as int, false);
                    assert forall|f: int| 0 <= f < self.stack_keys@.len() && layer(self.stack_keys@[f]) >= 2
                        implies deps_fresh(self.memos, rev, (#[trigger] self.stack_deps@[f])@) by {
                        assert(deps_fresh(popped.memos, rev, popped.stack_deps@[f]@));
                        lemma_fresh_kept(popped.memos, self.memos, rev, k, self.stack_deps@[f]@);
                    }
                    lemma_grows_update(popped.memos, self.memos, self.revision, old(self).stack(), i as int);
                    lemma_grows_trans(*old(self).memo_table(), popped.memos, self.memos, self.revision, old(self).stack(), old(self).stack());
                    self.memos.lemma_index(self.revision, k, i as int);
                    let before = old(self).memo(k);
                    let after = self.memo(k);
                    if after.runs != before.runs {
                        let j = choose|j: int| 0 <= j < deps_g.len() && (mid.dep_blocked(k, deps_g[j]) || mid.dep_moved(deps_g[j], since_g));
                        let d = deps_g[j];
                        if mid.dep_blocked(k, d) {
                            match d {
                                Dep::Query(q) => {
                                    if q != k && mid.stack().contains(q) {
                                        let a = choose|a: int| 0 <= a < mid.stack().len() && mid.stack()[a] == q;
                                        assert(a < old(self).stack().len());
                                        assert(old(self).stack()[a] == q);
                                    }
                                },
                                Dep::Input(_) => {},
                            }
                            assert(self.dep_blocked(k, d));
                        } else {
                            match d {
                                Dep::Query(q) => {
                                    assert(mid.has_memo(q));
                                    assert(self.memo(q) == mid.memo(q));
                                },
                                Dep::Input(_) => {},
                            }
                            assert(self.dep_changed(d) > before.verified_at);
                        }
                    }
                }
            },
            None => {
                self.memos.append(k, v, deps, self.revision);
                proof {
                    let inp = self.inputs;
                    let types = self.types@;
                    let rev = self.revision;
                    let n = popped.memos.count() as int;
                    lemma_same_elsewhere(popped.memos, self.memos, rev, k, n, true);
                    if layer(k) >= 2 {
                        assert forall|q: QueryKey| #[trigger] dv.contains(Dep::Query(q)) implies self.memos.has(q) == popped.memos.has(q)
                            && (popped.memos.has(q) ==> self.memos.get(q).value == popped.memos.get(q).value) by {
                            assert(q != k);
                        }
                        lemma_value_ok_frame(inp, types, popped.memos, self.memos, k, v@, dv);
                        lemma_fresh_kept(popped.memos, self.memos, rev, k, dv);
                    }
                    assert(memo_ok(inp, types, self.memos, rev, self.memos.at(n)));
                    lemma_table_step(inp, types, popped.memos, self.memos, rev, k, n, true);
                    assert forall|f: int| 0 <= f < self.stack_keys@.len() && layer(self.stack_keys@[f]) >= 2
                        implies deps_fresh(self.memos, rev, (#[trigger] self.stack_deps@[f])@) by {
                        assert(deps_fresh(popped.memos, rev, popped.stack_deps@[f]@));
                        lemma_fresh_kept(popped.memos, self.memos, rev, k, self.stack_deps@[f]@);
                    }
                    lemma_grows_append(popped.memos, self.memos, self.revision, old(self).stack());
                    lemma_grows_trans(*old(self).memo_table(), popped.memos, self.memos, self.revision, old(self).stack(), old(self).stack());
                }
            },
        }
        out
    }

    /// Brings each dependency of the top of the stack up to date and tells
    /// whether none of them changed after revision `since`.
    fn deps_unchanged(&mut self, k: QueryKey, deps: &Vec<Dep>, since: u64) -> (r: bool)
        requires
            old(self).wf(),
            old(self).stack().len() > 0,
            old(self).top() == k,
        ensures
            final(self).wf(),
            evolves(*old(self), *final(self)),
            !r ==> exists|j: int| 0 <= j < deps@.len() && (final(self).dep_blocked(k, deps@[j])
                || final(self).dep_moved(deps@[j], since)),
            r ==> deps_settled(*final(self).inputs_view(), *final(self).memo_table(), deps@, since),
            r ==> deps_fresh(*final(self).memo_table(), final(self).rev(), deps@),
            r ==> !deps@.contains(Dep::Query(k)),
            final(self).frames() == old(self).frames(),
        decreases layer(old(self).top()), old(self).room(), 4int, TypeRef::Unit,
    {
        let mut i: usize = 0;
        while i < deps.len()
            invariant
                self.wf(),
                evolves(*old(self), *self),
                i <= deps@.len(),
                old(self).stack().len() > 0,
                old(self).top() == k,
                self.frames() == old(self).frames(),
                forall|j: int| 0 <= j < i ==> match #[trigger] deps@[j] {
                    Dep::Input(x) => changed_in(self.inputs, x) <= since,
                    Dep::Query(q) => q != k && self.memos.has(q) && self.memos.get(q).changed_at <= since && self.memos.get(q).verified_at == self.revision,
                },
            decreases deps@.len() - i,
        {
            let d = deps[i];
            match d {
                Dep::Input(ik) => {
                    if self.input_changed_at(ik) > since {
                        return false;
                    }
                },
                Dep::Query(q) => {
                    if q == k || !self.key_valid(q) || !reads_allowed(k, q) {
                        return false;
                    }
                    proof {
                        self.lemma_room(q);
                    }
                    let v = self.get(q);
                    match self.memos.find(q) {
                        Some(j) => {
                            if self.memos.verified[j] != self.revision || self.memos.changed[j] > since {
                                return false;
                            }
                        },
                        None => {
                            return false;
                        },
                    }
                },
            }
            i = i + 1;
        }
        true
    }

    fn input_changed_at(&self, i: InputKey) -> (r: u64)
        ensures
            r == self.input_changed(i),
    {
        match i {
            InputKey::CrateGraph => self.inputs.graph_changed,
            InputKey::ImplList => self.inputs.impls_changed,
            InputKey::Alias(d) => if (d as usize) < self.inputs.alias_changed.len() { self.inputs.alias_changed[d as usize] } else { 0 },
            InputKey::Generic(g) => if (g as usize) < self.inputs.generic_changed.len() { self.inputs.generic_changed[g as usize] } else { 0 },
            InputKey::Body(b) => if (b as usize) < self.inputs.body_changed.len() { self.inputs.body_changed[b as usize] } else { 0 },
        }
    }

    /// Whether `k` names a definition that the inputs hold.
    pub fn key_valid(&self, k: QueryKey) -> (r: bool)
        ensures
            r == self.key_ok(k),
    {
        match k {
            QueryKey::Ty(d) => (d as usize) < self.inputs.aliases.len(),
            QueryKey::ImplSelfTy(i) => (i as usize) < self.inputs.impls.len(),
            QueryKey::GenericPredicates(g) => (g as usize) < self.inputs.generics.len(),
            QueryKey::TraitImplsInCrate(c) => (c as usize) < self.inputs.crate_graph.len(),
            QueryKey::TraitImplsInBlock(_) => true,
            QueryKey::TraitImplsInDeps(c) => (c as usize) < self.inputs.crate_graph.len(),
            QueryKey::TraitSolve(c, _) => (c as usize) < self.inputs.crate_graph.len(),
            QueryKey::Infer(b) => (b as usize) < self.inputs.bodies.len(),
        }
    }

    /// Runs the query function of the key on top of the stack.
    fn execute(&mut self) -> (r: QueryValue)
        requires
            old(self).wf(),
            old(self).stack().len() > 0,
        ensures
            final(self).wf(),
            evolves(*old(self), *final(self)),
            frames_below(*old(self), *final(self)),
            fits(old(self).top(), r@),
            value_ok(final(self).inputs, final(self).types@, final(self).memos, old(self).top(), r@),
            reads_covered(final(self).inputs, old(self).top(), final(self).top_deps()),
            r@ matches ValueView::Ty(t) ==> t.0 < final(self).types@.len(),
        decreases layer(old(self).top()), old(self).room(), 4int, TypeRef::Unit,
    {
        let k = self.stack_keys[self.stack_keys.len() - 1];
        proof {
            assert(self.key_ok(self.stack_keys@[self.stack_keys@.len() - 1]));
        }
        match k {
            QueryKey::Ty(d) => {
                self.record(Dep::Input(InputKey::Alias(d)));
                let tr = self.inputs.aliases[d as usize].copy();
                QueryValue::Ty(self.lower(&tr))
            },
            QueryKey::ImplSelfTy(i) => {
                self.record(Dep::Input(InputKey::ImplList));
                let tr = self.inputs.impls[i as usize].self_ty.copy();
                QueryValue::Ty(self.lower(&tr))
            },
            QueryKey::GenericPredicates(g) => self.exec_predicates(g),
            QueryKey::TraitImplsInCrate(c) => self.exec_impls_in_scope(Scope::Crate(c)),
            QueryKey::TraitImplsInBlock(b) => self.exec_impls_in_scope(Scope::Block(b)),
            QueryKey::TraitImplsInDeps(c) => self.exec_impls_in_deps(c),
            QueryKey::TraitSolve(c, goal) => {
                proof {
                    self.lemma_room(QueryKey::TraitImplsInDeps(c));
                }
                let v = self.fetch(QueryKey::TraitImplsInDeps(c));
                proof {
                    assert(self.memos.get(QueryKey::TraitImplsInDeps(c)).value == v@);
                }
                match v {
                    QueryValue::Impls(entries) => QueryValue::Solution(solve(&entries, goal)),
                    _ => QueryValue::Solution(Solution::NoSolution),
                }
            },
            QueryKey::Infer(b) => self.exec_infer(b),
        }
    }

    /// Interns a type, giving the unknown type if the interner is full.
    fn mk_ty(&mut self, d: TyData) -> (r: TyId)
        requires
            old(self).wf(),
        ensures
            final(self).wf(),
            same_world(*old(self), *final(self)) || (final(self).rev() == old(self).rev()
                && final(self).inputs_view() == old(self).inputs_view()
                && old(self).types_view().is_prefix_of(final(self).types_view())),
            final(self).memo_table() == old(self).memo_table(),
            final(self).stack() == old(self).stack(),
            final(self).frames() == old(self).frames(),
            r.0 < final(self).types_view().len(),
    {
        let t = self.types.intern(d);
        proof {
            assert(self.types@[0] == old(self).types@[0]);
            lemma_types_grow(self.inputs, old(self).types@, self.types@, self.memos, self.revision);
        }
        match t {
            Some(t) => t,
            None => TyId(0),
        }
    }

    /// A type handle read from a memoized value, checked against the interner.
    fn checked_ty(&self, t: TyId) -> (r: TyId)
        requires
            self.wf(),
        ensures
            r.0 < self.types_view().len(),
            r == (if t.0 < self.types_view().len() { t } else { TyId(0) }),
    {
        if (t.0 as usize) < self.types.len() {
            t
        } else {
            TyId(0)
        }
    }

    /// Lowers a type reference written inside the definition on top of the
    /// stack; an alias is read through its own query.
    fn lower(&mut self, tr: &TypeRef) -> (r: TyId)
        requires
            old(self).wf(),
            old(self).stack().len() > 0,
        ensures
            final(self).wf(),
            evolves(*old(self), *final(self)),
            r.0 < final(self).types_view().len(),
            frames_below(*old(self), *final(self)),
        decreases layer(old(self).top()), old(self).room(), 2int, *tr,
    {
        match tr {
            TypeRef::Unit => self.mk_ty(TyData::Unit),
            TypeRef::Param(p) => self.mk_ty(TyData::Param(*p)),
            TypeRef::Alias(d) => {
                if (*d as usize) < self.inputs.aliases.len() {
                    proof {
                        self.lemma_room(QueryKey::Ty(*d));
                    }
                    let v = self.fetch(QueryKey::Ty(*d));
                    match v {
                        QueryValue::Ty(t) => self.checked_ty(t),
                        _ => TyId(0),
                    }
                } else {
                    TyId(0)
                }
            },
            TypeRef::Adt(a, args) => {
                let mut ids: Vec<TyId> = Vec::new();
                let mut i: usize = 0;
                while i < args.len()
                    invariant
                        self.wf(),
                        evolves(*old(self), *self),
                frames_below(*old(self), *self),
                        frames_below(*old(self), *self),
                        i <= args@.len(),
                        *tr == TypeRef::Adt(*a, *args),
                        old(self).stack().len() > 0,
                    decreases args@.len() - i,
                {
                    proof {
                        vstd::std_specs::vec::axiom_vec_index_decreases(*args, i as int);
                        assert(decreases_to!(*tr => tr->Adt_1));
                        assert(decreases_to!(*tr => args[i as int]));
                    }
                    let t = self.lower(&args[i]);
                    ids.push(t);
                    i = i + 1;
                }
                self.mk_ty(TyData::Adt(*a, ids))
            },
        }
    }

    fn exec_predicates(&mut self, g: u32) -> (r: QueryValue)
        requires
            old(self).wf(),
            old(self).stack().len() > 0,
            old(self).top() == QueryKey::GenericPredicates(g),
            g < old(self).n_generic(),
        ensures
            final(self).wf(),
            evolves(*old(self), *final(self)),
            fits(old(self).top(), r@),
            frames_below(*old(self), *final(self)),
        decreases layer(old(self).top()), old(self).room(), 3int, TypeRef::Unit,
    {
        self.record(Dep::Input(InputKey::Generic(g)));
        let bounds = copy_bounds(&self.inputs.generics[g as usize]);
        let mut out: Vec<WhereClause> = Vec::new();
        let mut i: usize = 0;
        while i < bounds.len()
            invariant
                self.wf(),
                evolves(*old(self), *self),
                frames_below(*old(self), *self),
                i <= bounds@.len(),
                old(self).stack().len() > 0,
                old(self).top() == QueryKey::GenericPredicates(g),
            decreases bounds@.len() - i,
        {
            match bounds[i] {
                Bound::Implemented { param, trait_id } => {
                    out.push(WhereClause { param, trait_id });
                },
                Bound::Inherit(h) => {
                    if (h as usize) < self.inputs.generics.len() {
                        proof {
                            self.lemma_room(QueryKey::GenericPredicates(h));
                        }
                        let v = self.fetch(QueryKey::GenericPredicates(h));
                        match v {
                            QueryValue::Predicates(ps) => {
                                let mut j: usize = 0;
                                while j < ps.len()
                                    decreases ps@.len() - j,
                                {
                                    out.push(ps[j]);
                                    j = j + 1;
                                }
                            },
                            _ => {},
                        }
                    }
                },
            }
            i = i + 1;
        }
        QueryValue::Predicates(out)
    }

    /// The memoized self-type fingerprint of a confirmed entry survives any
    /// later step of evaluation.
    proof fn lemma_self_fp_stable(a: HirDatabase, b: HirDatabase, j: int)
        requires
            a.wf(),
            evolves(a, b),
            a.fresh(QueryKey::ImplSelfTy(j as u32)),
        ensures
            self_fp(b.types@, b.memos, j) == self_fp(a.types@, a.memos, j),
    {
        let q = QueryKey::ImplSelfTy(j as u32);
        let x = a.memos.index(q);
        assert(memo_ok(a.inputs, a.types@, a.memos, a.revision, a.memos.at(x)));
        assert(b.memos.get(q) == a.memos.get(q));
        if let ValueView::Ty(t) = a.memos.get(q).value {
            assert(b.types@.subrange(0, a.types@.len() as int)[t.0 as int] == b.types@[t.0 as int]);
        }
    }

    fn exec_impls_in_scope(&mut self, c: Scope) -> (r: QueryValue)
        requires
            old(self).wf(),
            old(self).stack().len() > 0,
            old(self).top() == match c {
                Scope::Crate(k) => QueryKey::TraitImplsInCrate(k),
                Scope::Block(b) => QueryKey::TraitImplsInBlock(b),
            },
        ensures
            final(self).wf(),
            evolves(*old(self), *final(self)),
            frames_grow(*old(self), *final(self)),
            fits(old(self).top(), r@),
            r@ == ValueView::Impls(scope_index(heads_of(final(self).inputs), scope_fps(heads_of(final(self).inputs), final(self).types@, final(self).memos, c), c)),
            final(self).top_deps().contains(Dep::Input(InputKey::ImplList)),
            forall|i: int| 0 <= i < heads_of(final(self).inputs).len() && #[trigger] relevant(heads_of(final(self).inputs), c, i)
                ==> final(self).top_deps().contains(Dep::Query(QueryKey::ImplSelfTy(i as u32))),
        decreases layer(old(self).top()), old(self).room(), 3int, TypeRef::Unit,
    {
        self.record(Dep::Input(InputKey::ImplList));
        let ghost hv = heads_of(self.inputs);
        proof {
            assert(self.top_deps()[self.top_deps().len() - 1] == Dep::Input(InputKey::ImplList));
        }
        let mut heads: Vec<ImplHead> = Vec::new();
        let mut fps: Vec<Option<TyFingerprint>> = Vec::new();
        let n = self.inputs.impls.len();
        let mut i: usize = 0;
        while i < n
            invariant
                self.wf(),
                evolves(*old(self), *self),
                frames_grow(*old(self), *self),
                n == self.n_impl(),
                hv == heads_of(self.inputs),
                hv.len() == n,
                i <= n,
                heads@ == hv.subrange(0, i as int),
                fps@.len() == i,
                forall|j: int| 0 <= j < i ==> #[trigger] fps@[j] == (if relevant(hv, c, j) { self_fp(self.types@, self.memos, j) } else { None }),
                forall|j: int| 0 <= j < i && #[trigger] relevant(hv, c, j) ==> self.fresh(QueryKey::ImplSelfTy(j as u32))
                    && self.top_deps().contains(Dep::Query(QueryKey::ImplSelfTy(j as u32))),
                self.top_deps().contains(Dep::Input(InputKey::ImplList)),
                old(self).stack().len() > 0,
                old(self).top() == match c {
                    Scope::Crate(k) => QueryKey::TraitImplsInCrate(k),
                    Scope::Block(b) => QueryKey::TraitImplsInBlock(b),
                },
            decreases n - i,
        {
            let krate = self.inputs.impls[i].krate;
            let block = self.inputs.impls[i].block;
            let trait_id = self.inputs.impls[i].trait_id;
            heads.push(ImplHead { krate, block, trait_id });
            let here = match c {
                Scope::Crate(k) => krate == k && block.is_none(),
                Scope::Block(b) => block == Some(b),
            };
            let mut fp: Option<TyFingerprint> = None;
            let ghost before = *self;
            if here && trait_id.is_some() {
                proof {
                    self.lemma_room(QueryKey::ImplSelfTy(i as u32));
                }
                let v = self.fetch(QueryKey::ImplSelfTy(i as u32));
                match v {
                    QueryValue::Ty(t) => {
                        let t = self.checked_ty(t);
                        fp = self.types.lookup(t).fingerprint();
                    },
                    _ => {},
                }
                proof {
                    let q = QueryKey::ImplSelfTy(i as u32);
                    assert(self.memos.get(q).value == v@);
                    assert(self.types@[0] == TyShape::Error);
                    assert(fp == self_fp(self.types@, self.memos, i as int));
                    assert forall|j: int| 0 <= j < i && #[trigger] relevant(hv, c, j) implies self.fresh(QueryKey::ImplSelfTy(j as u32))
                        && self.top_deps().contains(Dep::Query(QueryKey::ImplSelfTy(j as u32))) by {
                        lemma_prefix_contains(before.top_deps(), self.top_deps(), Dep::Query(QueryKey::ImplSelfTy(j as u32)));
                    }
                    assert forall|j: int| 0 <= j < i && relevant(hv, c, j) implies #[trigger] self_fp(self.types@, self.memos, j) == self_fp(before.types@, before.memos, j) by {
                        HirDatabase::lemma_self_fp_stable(before, *self, j);
                    }
                    lemma_prefix_contains(before.top_deps(), self.top_deps(), Dep::Input(InputKey::ImplList));
                    lemma_frames_grow_trans(*old(self), before, *self);
                }
            }
            proof {
                assert(hv[i as int] == heads@[i as int]);
                assert(here == in_scope(hv[i as int], c));
            }
            fps.push(fp);
            i = i + 1;
        }
        proof {
            assert(heads@ =~= hv);
            assert(fps@ =~= scope_fps(hv, self.types@, self.memos, c));
        }
        QueryValue::Impls(collect_impls(&heads, &fps, c))
    }

    fn exec_impls_in_deps(&mut self, c: u32) -> (r: QueryValue)
        requires
            old(self).wf(),
            old(self).stack().len() > 0,
            old(self).top() == QueryKey::TraitImplsInDeps(c),
            c < old(self).n_crate(),
        ensures
            final(self).wf(),
            evolves(*old(self), *final(self)),
            frames_grow(*old(self), *final(self)),
            fits(old(self).top(), r@),
            value_ok(final(self).inputs, final(self).types@, final(self).memos, old(self).top(), r@),
            reads_covered(final(self).inputs, old(self).top(), final(self).top_deps()),
        decreases layer(old(self).top()), old(self).room(), 3int, TypeRef::Unit,
    {
        self.record(Dep::Input(InputKey::CrateGraph));
        proof {
            assert(self.top_deps()[self.top_deps().len() - 1] == Dep::Input(InputKey::CrateGraph));
        }
        let closure = deps_closure(&self.inputs.crate_graph, c);
        let ghost g = self.inputs.crate_graph.deep_view();
        let mut out: Vec<ImplEntry> = Vec::new();
        let mut i: usize = 0;
        while i < closure.len()
            invariant
                self.wf(),
                evolves(*old(self), *self),
                frames_grow(*old(self), *self),
                i <= closure@.len(),
                c < self.n_crate(),
                g == graph_of(self.inputs),
                forall|d: u32| closure@.contains(d) <==> depends_on(g, c as int, d as int),
                forall|j: int| 0 <= j < i ==> self.fresh(QueryKey::TraitImplsInCrate(#[trigger] closure@[j]))
                    && self.top_deps().contains(Dep::Query(QueryKey::TraitImplsInCrate(closure@[j]))),
                forall|e: ImplEntry| out@.contains(e) <==> exists|j: int| 0 <= j < i
                    && #[trigger] impls_of(self.memos, QueryKey::TraitImplsInCrate(closure@[j])).contains(e),
                self.top_deps().contains(Dep::Input(InputKey::CrateGraph)),
                old(self).stack().len() > 0,
                old(self).top() == QueryKey::TraitImplsInDeps(c),
            decreases closure@.len() - i,
        {
            let d = closure[i];
            proof {
                assert(closure@.contains(d));
                reveal_with_fuel(depends_on, 1);
                assert(d <= c);
                self.lemma_room(QueryKey::TraitImplsInCrate(d));
            }
            let ghost before = *self;
            let ghost ob = out@;
            let v = self.fetch(QueryKey::TraitImplsInCrate(d));
            match v {
                QueryValue::Impls(entries) => {
                    let mut j: usize = 0;
                    while j < entries.len()
                        invariant
                            j <= entries@.len(),
                            out@ == ob + entries@.subrange(0, j as int),
                        decreases entries@.len() - j,
                    {
                        out.push(entries[j]);
                        j = j + 1;
                        proof {
                            assert(out@ =~= ob + entries@.subrange(0, j as int));
                        }
                    }
                    proof {
                        assert(entries@.subrange(0, j as int) =~= entries@);
                    }
                },
                _ => {},
            }
            proof {
                let q = QueryKey::TraitImplsInCrate(d);
                assert(self.memos.get(q).value == v@);
                assert(impls_of(self.memos, q) == v@->Impls_0);
                assert forall|j: int| 0 <= j < i implies #[trigger] impls_of(self.memos, QueryKey::TraitImplsInCrate(closure@[j])) == impls_of(before.memos, QueryKey::TraitImplsInCrate(closure@[j])) by {
                    assert(before.fresh(QueryKey::TraitImplsInCrate(closure@[j])));
                }
                assert forall|j: int| 0 <= j < i + 1 implies self.fresh(QueryKey::TraitImplsInCrate(#[trigger] closure@[j]))
                    && self.top_deps().contains(Dep::Query(QueryKey::TraitImplsInCrate(closure@[j]))) by {
                    if j < i {
                        lemma_prefix_contains(before.top_deps(), self.top_deps(), Dep::Query(QueryKey::TraitImplsInCrate(closure@[j])));
                    }
                }
                assert forall|e: ImplEntry| out@.contains(e) <==> exists|j: int| 0 <= j < i + 1
                    && #[trigger] impls_of(self.memos, QueryKey::TraitImplsInCrate(closure@[j])).contains(e) by {
                    if out@.contains(e) {
                        let x = choose|x: int| 0 <= x < out@.len() && out@[x] == e;
                        if x < ob.len() {
                            assert(ob.contains(e));
                            let j = choose|j: int| 0 <= j < i && #[trigger] impls_of(before.memos, QueryKey::TraitImplsInCrate(closure@[j])).contains(e);
                            assert(impls_of(self.memos, QueryKey::TraitImplsInCrate(closure@[j])).contains(e));
                        } else {
                            assert(impls_of(self.memos, QueryKey::TraitImplsInCrate(closure@[i as int])).contains(e)) by {
                                assert(impls_of(self.memos, q)[x - ob.len()] == e);
                            }
                        }
                    }
                    if exists|j: int| 0 <= j < i + 1 && #[trigger] impls_of(self.memos, QueryKey::TraitImplsInCrate(closure@[j])).contains(e) {
                        let j = choose|j: int| 0 <= j < i + 1 && #[trigger] impls_of(self.memos, QueryKey::TraitImplsInCrate(closure@[j])).contains(e);
                        if j < i {
                            assert(impls_of(before.memos, QueryKey::TraitImplsInCrate(closure@[j])).contains(e));
                            assert(ob.contains(e));
                            let x = choose|x: int| 0 <= x < ob.len() && ob[x] == e;
                            assert(out@[x] == e);
                        } else {
                            let x = choose|x: int| 0 <= x < impls_of(self.memos, q).len() && impls_of(self.memos, q)[x] == e;
                            assert(out@[ob.len() + x] == e);
                        }
                    }
                }
                lemma_prefix_contains(before.top_deps(), self.top_deps(), Dep::Input(InputKey::CrateGraph));
                lemma_frames_grow_trans(*old(self), before, *self);
            }
            i = i + 1;
        }
        proof {
            assert forall|e: ImplEntry| #![trigger out@.contains(e)] out@.contains(e) <==> exists|d: u32| depends_on(g, c as int, d as int)
                && #[trigger] impls_of(self.memos, QueryKey::TraitImplsInCrate(d)).contains(e) by {
                if out@.contains(e) {
                    let j = choose|j: int| 0 <= j < i && #[trigger] impls_of(self.memos, QueryKey::TraitImplsInCrate(closure@[j])).contains(e);
                    assert(closure@.contains(closure@[j]));
                }
                if exists|d: u32| depends_on(g, c as int, d as int) && #[trigger] impls_of(self.memos, QueryKey::TraitImplsInCrate(d)).contains(e) {
                    let d = choose|d: u32| depends_on(g, c as int, d as int) && #[trigger] impls_of(self.memos, QueryKey::TraitImplsInCrate(d)).contains(e);
                    assert(closure@.contains(d));
                    let j = choose|j: int| 0 <= j < closure@.len() && closure@[j] == d;
                    assert(impls_of(self.memos, QueryKey::TraitImplsInCrate(closure@[j])).contains(e));
                }
            }
            assert forall|d: u32| #[trigger] depends_on(graph_of(self.inputs), c as int, d as int)
                implies self.top_deps().contains(Dep::Query(QueryKey::TraitImplsInCrate(d))) by {
                assert(closure@.contains(d));
                let j = choose|j: int| 0 <= j < closure@.len() && closure@[j] == d;
                assert(self.top_deps().contains(Dep::Query(QueryKey::TraitImplsInCrate(closure@[j]))));
            }
        }
        QueryValue::Impls(out)
    }

    fn exec_infer(&mut self, b: u32) -> (r: QueryValue)
        requires
            old(self).wf(),
            old(self).stack().len() > 0,
            old(self).top() == QueryKey::Infer(b),
            b < old(self).n_body(),
        ensures
            final(self).wf(),
            evolves(*old(self), *final(self)),
            fits(old(self).top(), r@),
            frames_below(*old(self), *final(self)),
            value_ok(final(self).inputs, final(self).types@, final(self).memos, old(self).top(), r@),
            final(self).top_deps().contains(Dep::Input(InputKey::Body(b))),
        decreases layer(old(self).top()), old(self).room(), 3int, TypeRef::Unit,
    {
        let body = self.inputs.bodies[b as usize].copy();
        let ghost n = bodies_of(self.inputs)[b as int].exprs@.len();
        let mut types: Vec<TyId> = Vec::new();
        let mut resolutions: Vec<Option<u32>> = Vec::new();
        let mut i: usize = 0;
        while i < body.exprs.len()
            invariant
                self.wf(),
                evolves(*old(self), *self),
                frames_below(*old(self), *self),
                i <= body.exprs@.len(),
                body.exprs@.len() == n,
                n == bodies_of(self.inputs)[b as int].exprs@.len(),
                types@.len() == i,
                resolutions@.len() == i,
                old(self).stack().len() > 0,
                old(self).top() == QueryKey::Infer(b),
            decreases body.exprs@.len() - i,
        {
            match &body.exprs[i] {
                Expr::Value(tr) => {
                    let t = self.lower(tr);
                    types.push(t);
                    resolutions.push(None);
                },
                Expr::MethodCall { receiver, trait_id, ret } => {
                    let mut t = TyId(0);
                    let mut res: Option<u32> = None;
                    if (*receiver as usize) < i && (body.krate as usize) < self.inputs.crate_graph.len() {
                        let rt = self.checked_ty(types[*receiver as usize]);
                        let fp = self.types.lookup(rt).fingerprint();
                        let key = QueryKey::TraitSolve(body.krate, Goal { trait_id: *trait_id, self_fp: fp });
                        proof {
                            self.lemma_room(key);
                        }
                        let v = self.fetch(key);
                        match v {
                            QueryValue::Solution(Solution::Unique(imp)) => {
                                t = self.lower(ret);
                                res = Some(imp);
                            },
                            _ => {},
                        }
                    }
                    types.push(t);
                    resolutions.push(res);
                },
            }
            i = i + 1;
        }
        self.record(Dep::Input(InputKey::Body(b)));
        proof {
            assert(self.top_deps()[self.top_deps().len() - 1] == Dep::Input(InputKey::Body(b)));
        }
        QueryValue::Infer(InferenceResult { expr_types: types, method_resolutions: resolutions })
    }
}


impl HirDatabase {
    /// No query is being evaluated.
    pub open spec fn idle(&self) -> bool {
        self.stack().len() == 0
    }

    /// The inputs changed: a new revision, stamped on the input `i`; every
    /// other input and the whole memo table stay as they were.
    pub open spec fn bumped(&self, before: HirDatabase, i: InputKey) -> bool {
        &&& self.wf()
        &&& self.idle() == before.idle()
        &&& self.rev() == before.rev() + 1
        &&& self.input_changed(i) == self.rev()
        &&& forall|j: InputKey| j != i ==> #[trigger] self.input_changed(j) == before.input_changed(j)
        &&& self.memo_table() == before.memo_table()
        &&& self.types_view() == before.types_view()
    }

    pub closed spec fn callable_table(&self) -> Seq<(u32, u32, u32)> {
        self.callable_defs@
    }

    pub closed spec fn closure_table(&self) -> Seq<(u32, u32, u32)> {
        self.closures@
    }

    pub closed spec fn param_table(&self) -> Seq<(u32, u32, u32)> {
        self.type_or_const_params@
    }

    pub closed spec fn lifetime_table(&self) -> Seq<(u32, u32, u32)> {
        self.lifetime_params@
    }

    pub closed spec fn opaque_table(&self) -> Seq<(u32, u32, u32)> {
        self.opaque_tys@
    }

    /// An empty database at revision 1.
    pub fn new() -> (r: HirDatabase)
        ensures
            r.wf(),
            r.idle(),
            r.rev() == 1,
            r.memo_count() == 0,
            r.n_alias() == 0 && r.n_generic() == 0 && r.n_crate() == 0 && r.n_impl() == 0 && r.n_body() == 0,
    {
        let mut types = TyInterner::new();
        let e = types.intern(TyData::Error);
        proof {
            assert(types@.len() == 1);
        }
        HirDatabase {
            revision: 1,
            inputs: Inputs {
                crate_graph: Vec::new(),
                graph_changed: 1,
                impls: Vec::new(),
                impls_changed: 1,
                aliases: Vec::new(),
                alias_changed: Vec::new(),
                generics: Vec::new(),
                generic_changed: Vec::new(),
                bodies: Vec::new(),
                body_changed: Vec::new(),
            },
            memos: MemoTable {
                keys: Vec::new(),
                values: Vec::new(),
                verified: Vec::new(),
                changed: Vec::new(),
                deps: Vec::new(),
                runs: Vec::new(),
            },
            stack_keys: Vec::new(),
            stack_cycle: Vec::new(),
            stack_deps: Vec::new(),
            types,
            callable_defs: InternTable::new(),
            type_or_const_params: InternTable::new(),
            lifetime_params: InternTable::new(),
            opaque_tys: InternTable::new(),
            closures: InternTable::new(),
        }
    }

    /// The current revision.
    pub fn revision(&self) -> (r: u64)
        ensures
            r == self.rev(),
    {
        self.revision
    }

    /// How many times the query function of `k` has run.
    pub fn query_runs(&self, k: QueryKey) -> (r: u64)
        requires
            self.wf(),
        ensures
            r == self.runs(k),
    {
        match self.memos.find(k) {
            Some(i) => {
                proof {
                    self.memos.lemma_index(self.revision, k, i as int);
                }
                self.memos.runs[i]
            },
            None => 0,
        }
    }

    /// The shape of an interned type.
    pub fn lookup_ty(&self, t: TyId) -> (r: Option<TyData>)
        requires
            self.wf(),
        ensures
            t.0 < self.types_view().len() ==> (r matches Some(d) && d@ == self.types_view()[t.0 as int]),
            t.0 >= self.types_view().len() ==> r is None,
    {
        if (t.0 as usize) < self.types.len() {
            Some(self.types.lookup(t).copy())
        } else {
            None
        }
    }

    /// Adds a crate with the given dependencies and returns its id. Only
    /// dependencies on crates with smaller ids count.
    pub fn add_crate(&mut self, deps: Vec<u32>) -> (r: u32)
        requires
            old(self).wf(),
            old(self).idle(),
            old(self).rev() < u64::MAX,
            old(self).n_crate() + 1 < u32::MAX,
        ensures
            final(self).bumped(*old(self), InputKey::CrateGraph),
            r == old(self).n_crate(),
            final(self).n_crate() == old(self).n_crate() + 1,
            final(self).n_alias() == old(self).n_alias() && final(self).n_generic() == old(self).n_generic(),
            final(self).n_impl() == old(self).n_impl() && final(self).n_body() == old(self).n_body(),
    {
        let r = self.inputs.crate_graph.len() as u32;
        self.inputs.crate_graph.push(deps);
        self.revision = self.revision + 1;
        self.inputs.graph_changed = self.revision;
        proof {
            lemma_bump(old(self).inputs, self.inputs, self.types@, self.memos, old(self).revision, InputKey::CrateGraph);
        }
        r
    }

    /// Replaces the dependencies of crate `c`.
    pub fn set_crate_deps(&mut self, c: u32, deps: Vec<u32>)
        requires
            old(self).wf(),
            old(self).idle(),
            old(self).rev() < u64::MAX,
            c < old(self).n_crate(),
        ensures
            final(self).bumped(*old(self), InputKey::CrateGraph),
            final(self).n_crate() == old(self).n_crate(),
            final(self).n_alias() == old(self).n_alias() && final(self).n_generic() == old(self).n_generic(),
            final(self).n_impl() == old(self).n_impl() && final(self).n_body() == old(self).n_body(),
    {
        self.inputs.crate_graph.set(c as usize, deps);
        self.revision = self.revision + 1;
        self.inputs.graph_changed = self.revision;
        proof {
            lemma_bump(old(self).inputs, self.inputs, self.types@, self.memos, old(self).revision, InputKey::CrateGraph);
        }
    }

    /// Replaces the list of declared impls; impl ids are positions in it.
    pub fn set_impls(&mut self, impls: Vec<ImplData>)
        requires
            old(self).wf(),
            old(self).idle(),
            old(self).rev() < u64::MAX,
            impls@.len() < u32::MAX,
        ensures
            final(self).bumped(*old(self), InputKey::ImplList),
            final(self).n_impl() == impls@.len(),
            final(self).n_crate() == old(self).n_crate(),
            final(self).n_alias() == old(self).n_alias() && final(self).n_generic() == old(self).n_generic(),
            final(self).n_body() == old(self).n_body(),
    {
        self.inputs.impls = impls;
        self.revision = self.revision + 1;
        self.inputs.impls_changed = self.revision;
        proof {
            lemma_bump(old(self).inputs, self.inputs, self.types@, self.memos, old(self).revision, InputKey::ImplList);
        }
    }

    /// Adds a type alias and returns its id.
    pub fn add_alias(&mut self, tr: TypeRef) -> (r: u32)
        requires
            old(self).wf(),
            old(self).idle(),
            old(self).rev() < u64::MAX,
            old(self).n_alias() + 1 < u32::MAX,
        ensures
            final(self).bumped(*old(self), InputKey::Alias(r)),
            r == old(self).n_alias(),
            final(self).n_alias() == old(self).n_alias() + 1,
            final(self).n_crate() == old(self).n_crate() && final(self).n_generic() == old(self).n_generic(),
            final(self).n_impl() == old(self).n_impl() && final(self).n_body() == old(self).n_body(),
    {
        let r = self.inputs.aliases.len() as u32;
        self.revision = self.revision + 1;
        self.inputs.aliases.push(tr);
        self.inputs.alias_changed.push(self.revision);
        proof {
            lemma_bump(old(self).inputs, self.inputs, self.types@, self.memos, old(self).revision, InputKey::Alias(r));
        }
        r
    }

    /// Replaces what type alias `d` stands for.
    pub fn set_alias(&mut self, d: u32, tr: TypeRef)
        requires
            old(self).wf(),
            old(self).idle(),
            old(self).rev() < u64::MAX,
            d < old(self).n_alias(),
        ensures
            final(self).bumped(*old(self), InputKey::Alias(d)),
            final(self).n_alias() == old(self).n_alias(),
            final(self).n_crate() == old(self).n_crate() && final(self).n_generic() == old(self).n_generic(),
            final(self).n_impl() == old(self).n_impl() && final(self).n_body() == old(self).n_body(),
    {
        self.revision = self.revision + 1;
        self.inputs.aliases.set(d as usize, tr);
        self.inputs.alias_changed.set(d as usize, self.revision);
        proof {
            lemma_bump(old(self).inputs, self.inputs, self.types@, self.memos, old(self).revision, InputKey::Alias(d));
        }
    }

    /// Adds a generic definition with its declared bounds and returns its id.
    pub fn add_generic(&mut self, bounds: Vec<Bound>) -> (r: u32)
        requires
            old(self).wf(),
            old(self).idle(),
            old(self).rev() < u64::MAX,
            old(self).n_generic() + 1 < u32::MAX,
        ensures
            final(self).bumped(*old(self), InputKey::Generic(r)),
            r == old(self).n_generic(),
            final(self).n_generic() == old(self).n_generic() + 1,
            final(self).n_crate() == old(self).n_crate() && final(self).n_alias() == old(self).n_alias(),
            final(self).n_impl() == old(self).n_impl() && final(self).n_body() == old(self).n_body(),
    {
        let r = self.inputs.generics.len() as u32;
        self.revision = self.revision + 1;
        self.inputs.generics.push(bounds);
        self.inputs.generic_changed.push(self.revision);
        proof {
            lemma_bump(old(self).inputs, self.inputs, self.types@, self.memos, old(self).revision, InputKey::Generic(r));
        }
        r
    }

    /// Replaces the declared bounds of generic definition `g`.
    pub fn set_generic(&mut self, g: u32, bounds: Vec<Bound>)
        requires
            old(self).wf(),
            old(self).idle(),
            old(self).rev() < u64::MAX,
            g < old(self).n_generic(),
        ensures
            final(self).bumped(*old(self), InputKey::Generic(g)),
            final(self).n_generic() == old(self).n_generic(),
            final(self).n_crate() == old(self).n_crate() && final(self).n_alias() == old(self).n_alias(),
            final(self).n_impl() == old(self).n_impl() && final(self).n_body() == old(self).n_body(),
    {
        self.revision = self.revision + 1;
        self.inputs.generics.set(g as usize, bounds);
        self.inputs.generic_changed.set(g as usize, self.revision);
        proof {
            lemma_bump(old(self).inputs, self.inputs, self.types@, self.memos, old(self).revision, InputKey::Generic(g));
        }
    }

    /// Adds a body and returns its id.
    pub fn add_body(&mut self, body: BodyData) -> (r: u32)
        requires
            old(self).wf(),
            old(self).idle(),
            old(self).rev() < u64::MAX,
            old(self).n_body() + 1 < u32::MAX,
        ensures
            final(self).bumped(*old(self), InputKey::Body(r)),
            r == old(self).n_body(),
            final(self).n_body() == old(self).n_body() + 1,
            final(self).n_crate() == old(self).n_crate() && final(self).n_alias() == old(self).n_alias(),
            final(self).n_impl() == old(self).n_impl() && final(self).n_generic() == old(self).n_generic(),
    {
        let r = self.inputs.bodies.len() as u32;
        self.revision = self.revision + 1;
        self.inputs.bodies.push(body);
        self.inputs.body_changed.push(self.revision);
        proof {
            lemma_bump(old(self).inputs, self.inputs, self.types@, self.memos, old(self).revision, InputKey::Body(r));
        }
        r
    }

    /// Replaces body `b`.
    pub fn set_body(&mut self, b: u32, body: BodyData)
        requires
            old(self).wf(),
            old(self).idle(),
            old(self).rev() < u64::MAX,
            b < old(self).n_body(),
        ensures
            final(self).bumped(*old(self), InputKey::Body(b)),
            final(self).n_body() == old(self).n_body(),
            final(self).n_crate() == old(self).n_crate() && final(self).n_alias() == old(self).n_alias(),
            final(self).n_impl() == old(self).n_impl() && final(self).n_generic() == old(self).n_generic(),
    {
        self.revision = self.revision + 1;
        self.inputs.bodies.set(b as usize, body);
        self.inputs.body_changed.set(b as usize, self.revision);
        proof {
            lemma_bump(old(self).inputs, self.inputs, self.types@, self.memos, old(self).revision, InputKey::Body(b));
        }
    }
}


impl HirDatabase {
    /// The type that type alias `d` stands for; the unknown type when the
    /// alias refers to itself.
    pub fn ty(&mut self, d: u32) -> (r: TyId)
        requires
            old(self).wf(),
            old(self).idle(),
            d < old(self).n_alias(),
        ensures
            final(self).wf(),
            final(self).idle(),
            evolves(*old(self), *final(self)),
            final(self).fresh(QueryKey::Ty(d)),
            final(self).memo(QueryKey::Ty(d)).value == ValueView::Ty(r),
    {
        match self.get(QueryKey::Ty(d)) {
            QueryValue::Ty(t) => t,
            _ => TyId(0),
        }
    }

    /// The self type of impl `i`.
    pub fn impl_self_ty(&mut self, i: u32) -> (r: TyId)
        requires
            old(self).wf(),
            old(self).idle(),
            i < old(self).n_impl(),
        ensures
            final(self).wf(),
            final(self).idle(),
            evolves(*old(self), *final(self)),
            final(self).fresh(QueryKey::ImplSelfTy(i)),
            final(self).memo(QueryKey::ImplSelfTy(i)).value == ValueView::Ty(r),
    {
        match self.get(QueryKey::ImplSelfTy(i)) {
            QueryValue::Ty(t) => t,
            _ => TyId(0),
        }
    }

    /// The predicates of generic definition `g`, inherited ones included;
    /// none when the inheritance is cyclic.
    pub fn generic_predicates(&mut self, g: u32) -> (r: Vec<WhereClause>)
        requires
            old(self).wf(),
            old(self).idle(),
            g < old(self).n_generic(),
        ensures
            final(self).wf(),
            final(self).idle(),
            evolves(*old(self), *final(self)),
            final(self).fresh(QueryKey::GenericPredicates(g)),
            final(self).memo(QueryKey::GenericPredicates(g)).value == ValueView::Predicates(r@),
    {
        match self.get(QueryKey::GenericPredicates(g)) {
            QueryValue::Predicates(p) => p,
            _ => Vec::new(),
        }
    }

    /// The trait impls declared directly in crate `c`.
    pub fn trait_impls_in_crate(&mut self, c: u32) -> (r: Vec<ImplEntry>)
        requires
            old(self).wf(),
            old(self).idle(),
            c < old(self).n_crate(),
        ensures
            final(self).wf(),
            final(self).idle(),
            evolves(*old(self), *final(self)),
            final(self).fresh(QueryKey::TraitImplsInCrate(c)),
            final(self).memo(QueryKey::TraitImplsInCrate(c)).value == ValueView::Impls(r@),
            final(self).computes(QueryKey::TraitImplsInCrate(c), ValueView::Impls(r@)),
    {
        let v = self.get(QueryKey::TraitImplsInCrate(c));
        proof {
            lemma_fresh_value(*self, QueryKey::TraitImplsInCrate(c));
        }
        match v {
            QueryValue::Impls(e) => e,
            _ => Vec::new(),
        }
    }

    /// The trait impls of crate `c` and of all crates it depends on.
    pub fn trait_impls_in_deps(&mut self, c: u32) -> (r: Vec<ImplEntry>)
        requires
            old(self).wf(),
            old(self).idle(),
            c < old(self).n_crate(),
        ensures
            final(self).wf(),
            final(self).idle(),
            evolves(*old(self), *final(self)),
            final(self).fresh(QueryKey::TraitImplsInDeps(c)),
            final(self).memo(QueryKey::TraitImplsInDeps(c)).value == ValueView::Impls(r@),
            final(self).computes(QueryKey::TraitImplsInDeps(c), ValueView::Impls(r@)),
    {
        let v = self.get(QueryKey::TraitImplsInDeps(c));
        proof {
            lemma_fresh_value(*self, QueryKey::TraitImplsInDeps(c));
        }
        match v {
            QueryValue::Impls(e) => e,
            _ => Vec::new(),
        }
    }

    /// The predicates of generic definition `g` that constrain parameter
    /// `param`, in order.
    pub fn generic_predicates_for_param(&mut self, g: u32, param: u32) -> (r: Vec<WhereClause>)
        requires
            old(self).wf(),
            old(self).idle(),
            g < old(self).n_generic(),
        ensures
            final(self).wf(),
            final(self).idle(),
            evolves(*old(self), *final(self)),
            final(self).fresh(QueryKey::GenericPredicates(g)),
            final(self).memo(QueryKey::GenericPredicates(g)).value matches ValueView::Predicates(all)
                && r@ == all.filter(|w: WhereClause| w.param == param),
    {
        let all = self.generic_predicates(g);
        let mut out: Vec<WhereClause> = Vec::new();
        let mut i: usize = 0;
        while i < all.len()
            invariant
                i <= all@.len(),
                out@ == all@.subrange(0, i as int).filter(|w: WhereClause| w.param == param),
            decreases all@.len() - i,
        {
            proof {
                assert(all@.subrange(0, i + 1).drop_last() =~= all@.subrange(0, i as int));
                reveal(Seq::filter);
            }
            if all[i].param == param {
                out.push(all[i]);
            }
            i = i + 1;
        }
        assert(all@.subrange(0, i as int) =~= all@);
        out
    }

    /// The trait impls declared in the local scope of block `b`; `None` when
    /// there are none.
    pub fn trait_impls_in_block(&mut self, b: u32) -> (r: Option<Vec<ImplEntry>>)
        requires
            old(self).wf(),
            old(self).idle(),
        ensures
            final(self).wf(),
            final(self).idle(),
            evolves(*old(self), *final(self)),
            final(self).fresh(QueryKey::TraitImplsInBlock(b)),
            r matches Some(e) ==> e@.len() > 0 && final(self).memo(QueryKey::TraitImplsInBlock(b)).value == ValueView::Impls(e@),
            r is None ==> final(self).memo(QueryKey::TraitImplsInBlock(b)).value == ValueView::Impls(Seq::empty()),
    {
        match self.get(QueryKey::TraitImplsInBlock(b)) {
            QueryValue::Impls(e) => {
                if e.len() == 0 {
                    assert(e@ =~= Seq::<ImplEntry>::empty());
                    None
                } else {
                    Some(e)
                }
            },
            _ => None,
        }
    }

    /// Solves a canonical goal in the scope of crate `c`.
    pub fn trait_solve(&mut self, c: u32, goal: Goal) -> (r: Solution)
        requires
            old(self).wf(),
            old(self).idle(),
            c < old(self).n_crate(),
        ensures
            final(self).wf(),
            final(self).idle(),
            evolves(*old(self), *final(self)),
            final(self).fresh(QueryKey::TraitSolve(c, goal)),
            final(self).memo(QueryKey::TraitSolve(c, goal)).value == ValueView::Solution(r),
            final(self).computes(QueryKey::TraitSolve(c, goal), ValueView::Solution(r)),
    {
        let v = self.get(QueryKey::TraitSolve(c, goal));
        proof {
            lemma_fresh_value(*self, QueryKey::TraitSolve(c, goal));
        }
        match v {
            QueryValue::Solution(s) => s,
            _ => Solution::NoSolution,
        }
    }

    /// Infers the types of body `b`.
    pub fn infer(&mut self, b: u32) -> (r: InferenceResult)
        requires
            old(self).wf(),
            old(self).idle(),
            b < old(self).n_body(),
        ensures
            final(self).wf(),
            final(self).idle(),
            evolves(*old(self), *final(self)),
            final(self).fresh(QueryKey::Infer(b)),
            final(self).memo(QueryKey::Infer(b)).value == ValueView::Infer(r.expr_types@, r.method_resolutions@),
            final(self).computes(QueryKey::Infer(b), ValueView::Infer(r.expr_types@, r.method_resolutions@)),
    {
        let v = self.get(QueryKey::Infer(b));
        proof {
            lemma_fresh_value(*self, QueryKey::Infer(b));
        }
        match v {
            QueryValue::Infer(res) => res,
            _ => InferenceResult { expr_types: Vec::new(), method_resolutions: Vec::new() },
        }
    }

    /// The handle of a callable definition.
    pub fn intern_callable_def(&mut self, c: CallableDefId) -> (r: InternedCallableDefId)
        requires
            old(self).wf(),
            old(self).callable_table().len() < u32::MAX,
        ensures
            final(self).wf(),
            evolves(*old(self), *final(self)),
            crate::intern::interned(old(self).callable_table(), callable_key(c), final(self).callable_table(), r.0),
    {
        let key = encode_callable(c);
        let r = InternedCallableDefId(self.callable_defs.intern(key));
        r
    }

    pub fn lookup_intern_callable_def(&self, id: InternedCallableDefId) -> (r: Option<CallableDefId>)
        ensures
            id.0 < self.callable_table().len() ==> r == Some(callable_of(self.callable_table()[id.0 as int])),
            id.0 >= self.callable_table().len() ==> r is None,
    {
        match self.callable_defs.lookup(id.0) {
            Some(t) => Some(decode_callable(t)),
            None => None,
        }
    }

    /// The handle of a closure, by its body and expression.
    pub fn intern_closure(&mut self, c: (DefWithBodyId, ExprId)) -> (r: InternedClosureId)
        requires
            old(self).wf(),
            old(self).closure_table().len() < u32::MAX,
        ensures
            final(self).wf(),
            evolves(*old(self), *final(self)),
            crate::intern::interned(old(self).closure_table(), closure_key(c), final(self).closure_table(), r.0),
    {
        let key = encode_closure(c);
        let r = InternedClosureId(self.closures.intern(key));
        r
    }

    pub fn lookup_intern_closure(&self, id: InternedClosureId) -> (r: Option<(DefWithBodyId, ExprId)>)
        ensures
            id.0 < self.closure_table().len() ==> r == Some(closure_of(self.closure_table()[id.0 as int])),
            id.0 >= self.closure_table().len() ==> r is None,
    {
        match self.closures.lookup(id.0) {
            Some(t) => Some(decode_closure(t)),
            None => None,
        }
    }

    /// The handle of a generic type or const parameter.
    pub fn intern_type_or_const_param_id(&mut self, p: TypeOrConstParamId) -> (r: InternedTypeOrConstParamId)
        requires
            old(self).wf(),
            old(self).param_table().len() < u32::MAX,
        ensures
            final(self).wf(),
            evolves(*old(self), *final(self)),
            crate::intern::interned(old(self).param_table(), (p.parent, p.local_id, 0), final(self).param_table(), r.0),
    {
        let r = InternedTypeOrConstParamId(self.type_or_const_params.intern((p.parent, p.local_id, 0)));
        r
    }

    pub fn lookup_intern_type_or_const_param_id(&self, id: InternedTypeOrConstParamId) -> (r: Option<TypeOrConstParamId>)
        ensures
            id.0 < self.param_table().len() ==> r == Some(TypeOrConstParamId {
                parent: self.param_table()[id.0 as int].0,
                local_id: self.param_table()[id.0 as int].1,
            }),
            id.0 >= self.param_table().len() ==> r is None,
    {
        match self.type_or_const_params.lookup(id.0) {
            Some(t) => Some(TypeOrConstParamId { parent: t.0, local_id: t.1 }),
            None => None,
        }
    }

    /// The handle of a lifetime parameter.
    pub fn intern_lifetime_param_id(&mut self, p: LifetimeParamId) -> (r: InternedLifetimeParamId)
        requires
            old(self).wf(),
            old(self).lifetime_table().len() < u32::MAX,
        ensures
            final(self).wf(),
            evolves(*old(self), *final(self)),
            crate::intern::interned(old(self).lifetime_table(), (p.parent, p.local_id, 0), final(self).lifetime_table(), r.0),
    {
        let r = InternedLifetimeParamId(self.lifetime_params.intern((p.parent, p.local_id, 0)));
        r
    }

    pub fn lookup_intern_lifetime_param_id(&self, id: InternedLifetimeParamId) -> (r: Option<LifetimeParamId>)
        ensures
            id.0 < self.lifetime_table().len() ==> r == Some(LifetimeParamId {
                parent: self.lifetime_table()[id.0 as int].0,
                local_id: self.lifetime_table()[id.0 as int].1,
            }),
            id.0 >= self.lifetime_table().len() ==> r is None,
    {
        match self.lifetime_params.lookup(id.0) {
            Some(t) => Some(LifetimeParamId { parent: t.0, local_id: t.1 }),
            None => None,
        }
    }

    /// The handle of an opaque `impl Trait` type.
    pub fn intern_impl_trait_id(&mut self, id: ImplTraitId) -> (r: InternedOpaqueTyId)
        requires
            old(self).wf(),
            old(self).opaque_table().len() < u32::MAX,
        ensures
            final(self).wf(),
            evolves(*old(self), *final(self)),
            crate::intern::interned(old(self).opaque_table(), (id.func, id.idx, 0), final(self).opaque_table(), r.0),
    {
        let r = InternedOpaqueTyId(self.opaque_tys.intern((id.func, id.idx, 0)));
        r
    }

    pub fn lookup_intern_impl_trait_id(&self, id: InternedOpaqueTyId) -> (r: Option<ImplTraitId>)
        ensures
            id.0 < self.opaque_table().len() ==> r == Some(ImplTraitId {
                func: self.opaque_table()[id.0 as int].0,
                idx: self.opaque_table()[id.0 as int].1,
            }),
            id.0 >= self.opaque_table().len() ==> r is None,
    {
        match self.opaque_tys.lookup(id.0) {
            Some(t) => Some(ImplTraitId { func: t.0, idx: t.1 }),
            None => None,
        }
    }
}


impl HirDatabase {
    pub closed spec fn crate_graph_view(&self) -> Seq<Seq<u32>> {
        self.inputs.crate_graph.deep_view()
    }

    pub closed spec fn impl_heads_view(&self) -> Seq<ImplHead> {
        Seq::new(self.inputs.impls@.len(), |i: int| ImplHead {
            krate: self.inputs.impls@[i].krate,
            block: self.inputs.impls@[i].block,
            trait_id: self.inputs.impls@[i].trait_id,
        })
    }

    /// The first two crates, in ascending order, among `krate` and the crates
    /// it depends on, that declare an inherent impl for a self type with
    /// fingerprint `fp`.
    pub fn inherent_impl_crates(&mut self, krate: u32, fp: TyFingerprint) -> (r: ArrayVec<u32, 2>)
        requires
            old(self).wf(),
            old(self).idle(),
            krate < old(self).n_crate(),
        ensures
            final(self).wf(),
            final(self).idle(),
            evolves(*old(self), *final(self)),
            exists|fps: Seq<Option<TyFingerprint>>| {
                let all = #[trigger] inherent_crates(old(self).crate_graph_view(), old(self).impl_heads_view(), fps, krate, fp, krate as nat + 1);
                &&& fps.len() == old(self).n_impl()
                &&& crate_slots(r) == all.subrange(0, if all.len() < 2 { all.len() as int } else { 2 })
            },
    {
        let mut heads: Vec<ImplHead> = Vec::new();
        let mut fps: Vec<Option<TyFingerprint>> = Vec::new();
        let n = self.inputs.impls.len();
        let mut i: usize = 0;
        while i < n
            invariant
                self.wf(),
                self.idle(),
                evolves(*old(self), *self),
                n == self.n_impl(),
                i <= n,
                heads@.len() == i,
                fps@.len() == i,
                forall|j: int| 0 <= j < i ==> heads@[j] == old(self).impl_heads_view()[j],
            decreases n - i,
        {
            let krate_i = self.inputs.impls[i].krate;
            let block = self.inputs.impls[i].block;
            let trait_id = self.inputs.impls[i].trait_id;
            heads.push(ImplHead { krate: krate_i, block, trait_id });
            let mut f: Option<TyFingerprint> = None;
            if trait_id.is_none() {
                let t = self.impl_self_ty(i as u32);
                let t = self.checked_ty(t);
                f = self.types.lookup(t).fingerprint();
            }
            fps.push(f);
            i = i + 1;
        }
        proof {
            assert(heads@ =~= old(self).impl_heads_view());
            assert(self.inputs.crate_graph.deep_view() == old(self).crate_graph_view());
        }
        let r = crate::inherent::inherent_impl_crates(&self.inputs.crate_graph, &heads, &fps, krate, fp);
        proof {
            let _ = inherent_crates(old(self).crate_graph_view(), old(self).impl_heads_view(), fps@, krate, fp, krate as nat + 1);
        }
        r
    }
}

} // verus!
