use hir_ty::db::{BodyData, Bound, Expr, HirDatabase, ImplData, QueryKey, WhereClause};
use hir_ty::impls::{Goal, Solution};
use hir_ty::intern::{CallableDefId, DefWithBodyId, ExprId, ImplTraitId, LifetimeParamId, TypeOrConstParamId};
use hir_ty::ty::{TyData, TyFingerprint, TyId, TypeRef};

const OPTION: u32 = 1;
const LOCAL_STRUCT: u32 = 5;
const FOO: u32 = 0;

fn blanket_impl(krate: u32) -> ImplData {
    ImplData { krate, block: None, trait_id: Some(FOO), self_ty: TypeRef::Param(0) }
}

fn method_call_body(krate: u32) -> BodyData {
    BodyData {
        krate,
        exprs: vec![
            Expr::Value(TypeRef::Adt(LOCAL_STRUCT, vec![])),
            Expr::MethodCall { receiver: 0, trait_id: FOO, ret: TypeRef::Unit },
        ],
    }
}

fn is_error(db: &HirDatabase, t: TyId) -> bool {
    matches!(db.lookup_ty(t), Some(TyData::Error))
}

#[test]
fn repeated_get_returns_cached_value() {
    let mut db = HirDatabase::new();
    let c = db.add_crate(vec![]);
    db.set_impls(vec![blanket_impl(c)]);
    let b = db.add_body(method_call_body(c));
    let first = db.infer(b);
    let runs = db.query_runs(QueryKey::Infer(b));
    let second = db.infer(b);
    assert_eq!(first.expr_types, second.expr_types);
    assert_eq!(first.method_resolutions, second.method_resolutions);
    assert_eq!(runs, 1);
    assert_eq!(db.query_runs(QueryKey::Infer(b)), 1);
}

#[test]
fn equal_dependency_result_backdates() {
    let mut db = HirDatabase::new();
    let c = db.add_crate(vec![]);
    let unit = db.add_alias(TypeRef::Unit);
    let b = db.add_body(BodyData { krate: c, exprs: vec![Expr::Value(TypeRef::Alias(unit))] });
    let before = db.infer(b);
    assert_eq!(db.query_runs(QueryKey::Ty(unit)), 1);
    // The alias is edited but still stands for the same type.
    db.set_alias(unit, TypeRef::Adt(OPTION, vec![]));
    db.set_alias(unit, TypeRef::Unit);
    let after = db.infer(b);
    assert_eq!(before.expr_types, after.expr_types);
    assert_eq!(db.query_runs(QueryKey::Ty(unit)), 2);
    assert_eq!(db.query_runs(QueryKey::Infer(b)), 1);
    // A real change re-runs the dependent.
    db.set_alias(unit, TypeRef::Adt(OPTION, vec![TypeRef::Unit]));
    let changed = db.infer(b);
    assert_ne!(before.expr_types, changed.expr_types);
    assert_eq!(db.query_runs(QueryKey::Infer(b)), 2);
}

#[test]
fn mutually_inheriting_predicates_take_the_fallback() {
    let mut db = HirDatabase::new();
    let g0 = db.add_generic(vec![]);
    let g1 = db.add_generic(vec![Bound::Implemented { param: 0, trait_id: 3 }, Bound::Inherit(g0)]);
    db.set_generic(g0, vec![Bound::Implemented { param: 0, trait_id: 4 }, Bound::Inherit(g1)]);
    assert_eq!(db.generic_predicates(g0), Vec::<WhereClause>::new());
    assert_eq!(db.generic_predicates(g1), Vec::<WhereClause>::new());
    let g2 = db.add_generic(vec![Bound::Implemented { param: 1, trait_id: 9 }]);
    let g3 = db.add_generic(vec![Bound::Inherit(g2), Bound::Implemented { param: 0, trait_id: 8 }]);
    assert_eq!(
        db.generic_predicates(g3),
        vec![WhereClause { param: 1, trait_id: 9 }, WhereClause { param: 0, trait_id: 8 }]
    );
}

#[test]
fn interning_round_trips() {
    let mut db = HirDatabase::new();
    let f = db.intern_callable_def(CallableDefId::FunctionId(7));
    let s = db.intern_callable_def(CallableDefId::StructId(7));
    let f2 = db.intern_callable_def(CallableDefId::FunctionId(7));
    assert_eq!(f, f2);
    assert_ne!(f, s);
    assert_eq!(db.lookup_intern_callable_def(f), Some(CallableDefId::FunctionId(7)));
    assert_eq!(db.lookup_intern_callable_def(s), Some(CallableDefId::StructId(7)));
    let c = db.intern_closure((DefWithBodyId::StaticId(2), ExprId(11)));
    assert_eq!(db.lookup_intern_closure(c), Some((DefWithBodyId::StaticId(2), ExprId(11))));
    let p = db.intern_type_or_const_param_id(TypeOrConstParamId { parent: 3, local_id: 1 });
    assert_eq!(db.lookup_intern_type_or_const_param_id(p), Some(TypeOrConstParamId { parent: 3, local_id: 1 }));
    let l = db.intern_lifetime_param_id(LifetimeParamId { parent: 3, local_id: 1 });
    assert_eq!(db.lookup_intern_lifetime_param_id(l), Some(LifetimeParamId { parent: 3, local_id: 1 }));
    let o = db.intern_impl_trait_id(ImplTraitId { func: 4, idx: 0 });
    assert_eq!(db.lookup_intern_impl_trait_id(o), Some(ImplTraitId { func: 4, idx: 0 }));
}

#[test]
fn dependency_impl_visible_from_dependents() {
    let mut db = HirDatabase::new();
    let core = db.add_crate(vec![]);
    let lib = db.add_crate(vec![core]);
    let app = db.add_crate(vec![lib]);
    let other = db.add_crate(vec![]);
    db.set_impls(vec![ImplData { krate: core, block: None, trait_id: Some(FOO), self_ty: TypeRef::Adt(LOCAL_STRUCT, vec![]) }]);
    for c in [core, lib, app] {
        let deps = db.trait_impls_in_deps(c);
        assert_eq!(deps.len(), 1);
        assert_eq!(deps[0].impl_id, 0);
        assert_eq!(deps[0].fp, Some(TyFingerprint::Adt(LOCAL_STRUCT)));
    }
    assert!(db.trait_impls_in_deps(other).is_empty());
    assert_eq!(db.trait_impls_in_crate(core).len(), 1);
    assert!(db.trait_impls_in_crate(lib).is_empty());
    assert!(db.trait_impls_in_crate(app).is_empty());
}

#[test]
fn blanket_impl_resolves_and_removal_invalidates_readers_only() {
    let mut db = HirDatabase::new();
    let c = db.add_crate(vec![]);
    db.set_impls(vec![blanket_impl(c)]);
    let call = db.add_body(method_call_body(c));
    let plain = db.add_body(BodyData { krate: c, exprs: vec![Expr::Value(TypeRef::Unit)] });
    let res = db.infer(call);
    assert_eq!(res.method_resolutions, vec![None, Some(0)]);
    assert!(!is_error(&db, res.expr_types[1]));
    db.infer(plain);
    assert_eq!(db.query_runs(QueryKey::Infer(call)), 1);
    db.set_impls(vec![]);
    let res = db.infer(call);
    assert_eq!(res.method_resolutions, vec![None, None]);
    assert!(is_error(&db, res.expr_types[1]));
    assert_eq!(db.query_runs(QueryKey::Infer(call)), 2);
    db.infer(plain);
    assert_eq!(db.query_runs(QueryKey::Infer(plain)), 1);
}

#[test]
fn self_referential_alias_lowers_to_error() {
    let mut db = HirDatabase::new();
    let a = db.add_alias(TypeRef::Unit);
    db.set_alias(a, TypeRef::Adt(OPTION, vec![TypeRef::Alias(a)]));
    let t = db.ty(a);
    assert!(is_error(&db, t));
    let b = db.add_alias(TypeRef::Adt(OPTION, vec![TypeRef::Alias(a)]));
    let tb = db.ty(b);
    match db.lookup_ty(tb) {
        Some(TyData::Adt(adt, args)) => {
            assert_eq!(adt, OPTION);
            assert_eq!(args, vec![t]);
        }
        _ => panic!("expected an applied type"),
    }
}

#[test]
fn mutually_referring_aliases_both_fail() {
    let mut db = HirDatabase::new();
    let a = db.add_alias(TypeRef::Unit);
    let b = db.add_alias(TypeRef::Alias(a));
    db.set_alias(a, TypeRef::Adt(OPTION, vec![TypeRef::Alias(b)]));
    let ta = db.ty(a);
    let tb = db.ty(b);
    assert!(is_error(&db, ta));
    assert!(is_error(&db, tb));
}

#[test]
fn equal_types_share_a_handle() {
    let mut db = HirDatabase::new();
    let a = db.add_alias(TypeRef::Adt(OPTION, vec![TypeRef::Unit]));
    let b = db.add_alias(TypeRef::Adt(OPTION, vec![TypeRef::Unit]));
    let c = db.add_alias(TypeRef::Adt(OPTION, vec![TypeRef::Param(0)]));
    assert_eq!(db.ty(a), db.ty(b));
    assert_ne!(db.ty(a), db.ty(c));
}

#[test]
fn trait_solve_outcomes() {
    let mut db = HirDatabase::new();
    let c = db.add_crate(vec![]);
    db.set_impls(vec![
        ImplData { krate: c, block: None, trait_id: Some(1), self_ty: TypeRef::Adt(LOCAL_STRUCT, vec![]) },
        ImplData { krate: c, block: None, trait_id: Some(2), self_ty: TypeRef::Unit },
        ImplData { krate: c, block: None, trait_id: Some(2), self_ty: TypeRef::Param(0) },
        ImplData { krate: c, block: None, trait_id: None, self_ty: TypeRef::Unit },
    ]);
    let local = Some(TyFingerprint::Adt(LOCAL_STRUCT));
    assert_eq!(db.trait_solve(c, Goal { trait_id: 1, self_fp: local }), Solution::Unique(0));
    assert_eq!(db.trait_solve(c, Goal { trait_id: 1, self_fp: Some(TyFingerprint::Unit) }), Solution::NoSolution);
    assert_eq!(db.trait_solve(c, Goal { trait_id: 2, self_fp: Some(TyFingerprint::Unit) }), Solution::Ambiguous);
    assert_eq!(db.trait_solve(c, Goal { trait_id: 2, self_fp: local }), Solution::Unique(2));
    assert_eq!(db.trait_impls_in_crate(c).len(), 3);
}

#[test]
fn impl_self_type_through_alias() {
    let mut db = HirDatabase::new();
    let c = db.add_crate(vec![]);
    let a = db.add_alias(TypeRef::Adt(LOCAL_STRUCT, vec![]));
    db.set_impls(vec![ImplData { krate: c, block: None, trait_id: Some(FOO), self_ty: TypeRef::Alias(a) }]);
    assert_eq!(db.impl_self_ty(0), db.ty(a));
    assert_eq!(db.trait_impls_in_crate(c)[0].fp, Some(TyFingerprint::Adt(LOCAL_STRUCT)));
}

#[test]
fn inherent_impls_are_looked_up_in_at_most_two_crates() {
    let mut db = HirDatabase::new();
    let core = db.add_crate(vec![]);
    let alloc = db.add_crate(vec![core]);
    let std = db.add_crate(vec![core, alloc]);
    let app = db.add_crate(vec![std]);
    db.set_impls(vec![
        ImplData { krate: core, block: None, trait_id: None, self_ty: TypeRef::Unit },
        ImplData { krate: alloc, block: None, trait_id: None, self_ty: TypeRef::Unit },
        ImplData { krate: std, block: None, trait_id: None, self_ty: TypeRef::Unit },
        ImplData { krate: std, block: None, trait_id: Some(FOO), self_ty: TypeRef::Adt(LOCAL_STRUCT, vec![]) },
    ]);
    let found = db.inherent_impl_crates(app, TyFingerprint::Unit);
    assert_eq!(found.as_slice(), &[core, alloc]);
    let found = db.inherent_impl_crates(core, TyFingerprint::Unit);
    assert_eq!(found.as_slice(), &[core]);
    assert!(db.inherent_impl_crates(app, TyFingerprint::Adt(LOCAL_STRUCT)).is_empty());
}

#[test]
fn editing_one_body_leaves_other_bodies_cached() {
    let mut db = HirDatabase::new();
    let c = db.add_crate(vec![]);
    db.set_impls(vec![blanket_impl(c)]);
    let a = db.add_body(method_call_body(c));
    let b = db.add_body(method_call_body(c));
    db.infer(a);
    db.infer(b);
    db.set_body(a, BodyData { krate: c, exprs: vec![Expr::Value(TypeRef::Unit)] });
    let res = db.infer(a);
    assert_eq!(res.method_resolutions, vec![None]);
    db.infer(b);
    assert_eq!(db.query_runs(QueryKey::Infer(a)), 2);
    assert_eq!(db.query_runs(QueryKey::Infer(b)), 1);
    assert_eq!(db.revision(), 6);
}

#[test]
fn dropping_a_dependency_hides_its_impls() {
    let mut db = HirDatabase::new();
    let core = db.add_crate(vec![]);
    let app = db.add_crate(vec![core]);
    db.set_impls(vec![ImplData { krate: core, block: None, trait_id: Some(FOO), self_ty: TypeRef::Unit }]);
    assert_eq!(db.trait_impls_in_deps(app).len(), 1);
    db.set_crate_deps(app, vec![]);
    assert!(db.trait_impls_in_deps(app).is_empty());
    assert_eq!(db.query_runs(QueryKey::TraitImplsInCrate(core)), 1);
}

#[test]
fn block_local_impls_have_their_own_index() {
    let mut db = HirDatabase::new();
    let c = db.add_crate(vec![]);
    db.set_impls(vec![
        ImplData { krate: c, block: Some(7), trait_id: Some(FOO), self_ty: TypeRef::Unit },
        ImplData { krate: c, block: None, trait_id: Some(FOO), self_ty: TypeRef::Adt(LOCAL_STRUCT, vec![]) },
    ]);
    let local = db.trait_impls_in_block(7).unwrap();
    assert_eq!(local.len(), 1);
    assert_eq!(local[0].impl_id, 0);
    assert_eq!(db.trait_impls_in_block(8), None);
    let top = db.trait_impls_in_crate(c);
    assert_eq!(top.len(), 1);
    assert_eq!(top[0].impl_id, 1);
}

#[test]
fn predicates_for_one_parameter() {
    let mut db = HirDatabase::new();
    let base = db.add_generic(vec![Bound::Implemented { param: 1, trait_id: 9 }]);
    let g = db.add_generic(vec![
        Bound::Implemented { param: 0, trait_id: 3 },
        Bound::Inherit(base),
        Bound::Implemented { param: 1, trait_id: 4 },
    ]);
    assert_eq!(
        db.generic_predicates_for_param(g, 1),
        vec![WhereClause { param: 1, trait_id: 9 }, WhereClause { param: 1, trait_id: 4 }]
    );
    assert_eq!(db.generic_predicates_for_param(g, 0), vec![WhereClause { param: 0, trait_id: 3 }]);
    assert!(db.generic_predicates_for_param(g, 2).is_empty());
}
