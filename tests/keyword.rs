use hir_ty::keyword::{complete_expr_keyword, keyword_insert_text, Keyword, KeywordContext};

fn ctx() -> KeywordContext {
    KeywordContext {
        in_record_literal: false,
        in_non_trivial_path: false,
        in_pattern: false,
        in_visibility_path: false,
        after_unfinished_impl_or_trait: false,
        after_impl: false,
        after_unsafe: false,
        expects_item: false,
        expects_assoc_item: false,
        expects_non_trait_assoc_item: false,
        expects_field: false,
        in_block_expr: false,
        after_visibility: false,
    }
}

/// Accepts the completion `label` with `snippet` at the cursor of the fixture.
fn check_edit(label: &str, snippet: &str, incomplete_let: bool, before: &str, after: &str) {
    let text = keyword_insert_text(label, snippet, true, incomplete_let);
    assert_eq!(before.replace("$0", &text), after);
}

#[test]
fn test_else_edit_after_if() {
    check_edit(
        "else",
        "else {\n    $0\n}",
        false,
        r#"fn quux() { if true { () } $0 }"#,
        r#"fn quux() { if true { () } else {
    $0
} }"#,
    );
}

#[test]
fn test_keywords_after_unsafe_in_block_expr() {
    let c = KeywordContext { after_unsafe: true, in_block_expr: true, ..ctx() };
    let mut labels: Vec<&str> = complete_expr_keyword(c).iter().map(|k| k.label()).collect();
    labels.sort();
    assert_eq!(labels, vec!["fn", "impl", "trait"]);
}

#[test]
fn let_semi() {
    check_edit(
        "match",
        "match $1 {\n    $0\n}",
        true,
        r#"
fn main() { let x = $0 }
"#,
        r#"
fn main() { let x = match $1 {
    $0
}; }
"#,
    );
    check_edit(
        "if",
        "if $1 {\n    $0\n}",
        true,
        r#"
fn main() {
    let x = $0
    let y = 92;
}
"#,
        r#"
fn main() {
    let x = if $1 {
    $0
};
    let y = 92;
}
"#,
    );
    check_edit(
        "loop",
        "loop {\n    $0\n}",
        true,
        r#"
fn main() {
    let x = $0
    bar();
}
"#,
        r#"
fn main() {
    let x = loop {
    $0
};
    bar();
}
"#,
    );
}

#[test]
fn insert_text_without_snippet_support() {
    assert_eq!(keyword_insert_text("fn", "fn $1($2) {\n    $0\n}", false, false), "fn");
    assert_eq!(keyword_insert_text("pub", "pub", false, true), "pub");
    assert_eq!(keyword_insert_text("struct", "struct $0", true, true), "struct $0");
}

#[test]
fn no_keywords_in_record_literal_or_pattern() {
    assert!(complete_expr_keyword(KeywordContext { in_record_literal: true, expects_item: true, ..ctx() }).is_empty());
    assert!(complete_expr_keyword(KeywordContext { in_pattern: true, in_block_expr: true, ..ctx() }).is_empty());
}

#[test]
fn where_and_for_after_unfinished_impl() {
    let c = KeywordContext { after_unfinished_impl_or_trait: true, after_impl: true, expects_item: true, ..ctx() };
    assert_eq!(complete_expr_keyword(c), vec![Keyword::Where, Keyword::For]);
}

#[test]
fn item_keywords_in_block() {
    let c = KeywordContext { in_block_expr: true, ..ctx() };
    let labels: Vec<&str> = complete_expr_keyword(c).iter().map(|k| k.label()).collect();
    assert_eq!(
        labels,
        vec!["unsafe", "fn", "const", "type", "impl", "extern", "use", "trait", "static", "mod", "enum", "struct", "union"]
    );
    let c = KeywordContext { expects_item: true, after_visibility: true, ..ctx() };
    let labels: Vec<&str> = complete_expr_keyword(c).iter().map(|k| k.label()).collect();
    assert_eq!(labels, vec!["unsafe", "fn", "const", "type", "use", "trait", "static", "mod", "enum", "struct", "union"]);
}
