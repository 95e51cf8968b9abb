use hir_ty::builtin_attr::{find_attr_idx_in, find_builtin_attr_idx, inert_attributes};
use hir_ty::patch::{artifact_name, exe_suffix, server_file_name, Patch};

#[test]
fn patch_replaces_every_occurrence() {
    let mut patch = Patch::new("package.json".to_string(), "{\"version\": \"0.5.0-dev\", \"x\": 0.5}".to_string());
    patch.replace("\"version\": \"0.5.0-dev\"", "\"version\": \"0.3.1234\"").replace("0.5", "1.0");
    assert_eq!(patch.contents, "{\"version\": \"0.3.1234\", \"x\": 1.0}");
    assert_eq!(patch.original_contents, "{\"version\": \"0.5.0-dev\", \"x\": 0.5}");
    assert!(patch.contains("1.0"));
    assert!(!patch.contains("0.5"));
}

#[test]
fn patch_removes_text() {
    let mut patch = Patch::new("p".to_string(), "a,\n    \"$generated-end\": {}".to_string());
    patch.replace(",\n    \"$generated-end\": {}", "");
    assert_eq!(patch.contents, "a");
}

#[test]
fn builtin_attributes_are_found() {
    assert_eq!(find_builtin_attr_idx("cfg"), Some(0));
    assert_eq!(find_builtin_attr_idx("cfg_attr"), Some(1));
    let table = inert_attributes();
    let i = find_builtin_attr_idx("inline").unwrap();
    assert_eq!(table[i].name, "inline");
    assert_eq!(find_builtin_attr_idx("no_such_attribute"), None);
    assert_eq!(find_builtin_attr_idx("derive"), None);
    let t = table[find_builtin_attr_idx("should_panic").unwrap()].template;
    assert!(t.word);
    assert_eq!(t.name_value_str, Some("reason"));
}

#[test]
fn last_of_equal_names_wins() {
    let mut table = inert_attributes();
    table.truncate(3);
    let dup = inert_attributes().remove(0);
    table.push(dup);
    assert_eq!(find_attr_idx_in(&table, "cfg"), Some(3));
    assert_eq!(find_attr_idx_in(&table, "ignore"), Some(2));
}

#[test]
fn artifact_names_per_target() {
    assert_eq!(artifact_name("x86_64-pc-windows-msvc"), "rust-analyzer-x86_64-pc-windows-msvc.exe");
    assert_eq!(artifact_name("x86_64-unknown-linux-gnu"), "rust-analyzer-x86_64-unknown-linux-gnu");
    assert_eq!(server_file_name("x86_64-pc-windows-msvc"), "rust-analyzer.exe");
    assert_eq!(exe_suffix("x86_64-apple-darwin"), "");
}
