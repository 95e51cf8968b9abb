use hir_ty::json::{json_pointer, merge, patch_json_for_outdated_configs, JsonValue};

fn obj(members: Vec<(&str, JsonValue)>) -> JsonValue {
    JsonValue::Object(members.into_iter().map(|(k, v)| (k.to_string(), v)).collect())
}

fn s(x: &str) -> JsonValue {
    JsonValue::Str(x.to_string())
}

fn at(v: &JsonValue, path: &[&str]) -> Option<JsonValue> {
    json_pointer(v, &path.to_vec())
}

fn str_at(v: &JsonValue, path: &[&str]) -> Option<String> {
    match at(v, path) {
        Some(JsonValue::Str(x)) => Some(x),
        _ => None,
    }
}

fn bool_at(v: &JsonValue, path: &[&str]) -> Option<bool> {
    match at(v, path) {
        Some(JsonValue::Bool(b)) => Some(b),
        _ => None,
    }
}

fn patched(v: JsonValue) -> JsonValue {
    let mut v = v;
    patch_json_for_outdated_configs(&mut v);
    v
}

#[test]
fn merge_joins_objects_and_replaces_the_rest() {
    let dst = obj(vec![("a", JsonValue::Number("1".to_string())), ("b", obj(vec![("c", s("x"))]))]);
    let src = obj(vec![("b", obj(vec![("d", s("y"))])), ("e", JsonValue::Bool(true))]);
    let m = merge(dst, src);
    assert_eq!(str_at(&m, &["b", "c"]).as_deref(), Some("x"));
    assert_eq!(str_at(&m, &["b", "d"]).as_deref(), Some("y"));
    assert_eq!(bool_at(&m, &["e"]), Some(true));
    assert!(matches!(at(&m, &["a"]), Some(JsonValue::Number(n)) if n == "1"));
    let r = merge(obj(vec![("a", s("x"))]), s("plain"));
    assert_eq!(str_at(&r, &[]).as_deref(), Some("plain"));
}

#[test]
fn renamed_key_is_carried_over() {
    let v = patched(obj(vec![("assist", obj(vec![("exprFillDefault", s("default"))]))]));
    assert_eq!(str_at(&v, &["assist", "expressionFillDefault"]).as_deref(), Some("default"));
    assert_eq!(str_at(&v, &["assist", "exprFillDefault"]).as_deref(), Some("default"));
    let v = patched(obj(vec![("lruCapacity", JsonValue::Number("128".to_string()))]));
    assert!(matches!(at(&v, &["lru", "capacity"]), Some(JsonValue::Number(n)) if n == "128"));
}

#[test]
fn object_under_old_key_is_left_alone() {
    let v = patched(obj(vec![("hover", obj(vec![("documentation", obj(vec![("enable", JsonValue::Bool(false))]))]))]));
    assert_eq!(bool_at(&v, &["hover", "documentation", "enable"]), Some(false));
}

#[test]
fn snippets_move_under_custom() {
    let snippet = obj(vec![("postfix", s("box"))]);
    let v = patched(obj(vec![("completion", obj(vec![("snippets", obj(vec![("Box::new", snippet)]))]))]));
    assert_eq!(str_at(&v, &["completion", "snippets", "custom", "Box::new", "postfix"]).as_deref(), Some("box"));
}

#[test]
fn call_info_and_features() {
    let v = patched(obj(vec![
        ("callInfo", obj(vec![("full", JsonValue::Bool(false))])),
        ("cargo", obj(vec![("allFeatures", JsonValue::Bool(true))])),
        ("checkOnSave", obj(vec![("allFeatures", JsonValue::Bool(false))])),
    ]));
    assert_eq!(bool_at(&v, &["signatureInfo", "documentation", "enable"]), Some(false));
    assert_eq!(str_at(&v, &["detail"]).as_deref(), Some("parameters"));
    assert_eq!(str_at(&v, &["cargo", "features"]).as_deref(), Some("all"));
    assert_eq!(at(&v, &["checkOnSave", "features"]).is_none(), true);
}

#[test]
fn callable_snippets_from_old_flags() {
    let flags = |a: bool, p: bool| {
        patched(obj(vec![(
            "completion",
            obj(vec![("addCallArgumentSnippets", JsonValue::Bool(a)), ("addCallParenthesis", JsonValue::Bool(p))]),
        )]))
    };
    assert_eq!(str_at(&flags(true, true), &["completion", "callable", "snippets"]).as_deref(), Some("fill_arguments"));
    assert_eq!(str_at(&flags(true, false), &["completion", "callable", "snippets"]).as_deref(), Some("add_parentheses"));
    assert_eq!(str_at(&flags(false, false), &["completion", "callable", "snippets"]).as_deref(), Some("add_parentheses"));
    assert!(at(&flags(false, true), &["completion", "callable"]).is_none());
}
