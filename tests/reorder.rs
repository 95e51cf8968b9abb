use hir_ty::reorder::reorder_impl_items;

/// The name of the associated item declared on one line, if any.
fn item_name(line: &str) -> Option<String> {
    let t = line.trim();
    for kw in ["fn ", "type ", "const "] {
        if let Some(rest) = t.strip_prefix(kw) {
            return Some(rest.chars().take_while(|c| c.is_alphanumeric() || *c == '_').collect());
        }
    }
    None
}

/// The line range of the items of the block opened on the first line that
/// starts with `header`, and the names of those items.
fn block(lines: &[&str], header: &str) -> (usize, usize, Vec<Option<String>>) {
    let start = lines.iter().position(|l| l.trim_start().starts_with(header)).unwrap();
    if lines[start].contains('}') {
        return (start + 1, start + 1, Vec::new());
    }
    let mut end = start + 1;
    while !lines[end].trim_start().starts_with('}') {
        end += 1;
    }
    let names = lines[start + 1..end].iter().map(|l| item_name(l)).collect();
    (start + 1, end, names)
}

/// Applies the reordering to a fixture; `None` when it does not apply.
fn apply(fixture: &str) -> Option<String> {
    let text = fixture.replace("$0", "");
    let lines: Vec<&str> = text.split('\n').collect();
    let (_, _, trait_names) = block(&lines, "trait ");
    let trait_names: Vec<String> = trait_names.into_iter().flatten().collect();
    let (start, end, impl_names) = block(&lines, "impl ");
    let order = reorder_impl_items(&trait_names, &impl_names)?;
    let mut out: Vec<&str> = lines[..start].to_vec();
    for i in order {
        out.push(lines[start + i]);
    }
    out.extend_from_slice(&lines[end..]);
    Some(out.join("\n"))
}

fn check_assist(before: &str, after: &str) {
    assert_eq!(apply(before).as_deref(), Some(after));
}

fn check_assist_not_applicable(before: &str) {
    assert_eq!(apply(before), None);
}

#[test]
fn not_applicable_if_sorted() {
    check_assist_not_applicable(
        r#"
trait Bar {
    type T;
    const C: ();
    fn a() {}
    fn z() {}
    fn b() {}
}
struct Foo;
$0impl Bar for Foo {
    type T = ();
    const C: () = ();
    fn a() {}
    fn z() {}
    fn b() {}
}
        "#,
    )
}

#[test]
fn reorder_impl_trait_functions() {
    check_assist(
        r#"
trait Bar {
    fn a() {}
    fn c() {}
    fn b() {}
    fn d() {}
}

struct Foo;
$0impl Bar for Foo {
    fn d() {}
    fn b() {}
    fn c() {}
    fn a() {}
}
"#,
        r#"
trait Bar {
    fn a() {}
    fn c() {}
    fn b() {}
    fn d() {}
}

struct Foo;
impl Bar for Foo {
    fn a() {}
    fn c() {}
    fn b() {}
    fn d() {}
}
"#,
    )
}

#[test]
fn not_applicable_if_empty() {
    check_assist_not_applicable(
        r#"
trait Bar {};
struct Foo;
$0impl Bar for Foo {}
        "#,
    )
}

#[test]
fn reorder_impl_trait_items() {
    check_assist(
        r#"
trait Bar {
    fn a() {}
    type T0;
    fn c() {}
    const C1: ();
    fn b() {}
    type T1;
    fn d() {}
    const C0: ();
}

struct Foo;
$0impl Bar for Foo {
    type T1 = ();
    fn d() {}
    fn b() {}
    fn c() {}
    const C1: () = ();
    fn a() {}
    type T0 = ();
    const C0: () = ();
}
        "#,
        r#"
trait Bar {
    fn a() {}
    type T0;
    fn c() {}
    const C1: ();
    fn b() {}
    type T1;
    fn d() {}
    const C0: ();
}

struct Foo;
impl Bar for Foo {
    fn a() {}
    type T0 = ();
    fn c() {}
    const C1: () = ();
    fn b() {}
    type T1 = ();
    fn d() {}
    const C0: () = ();
}
        "#,
    )
}

#[test]
fn reorder_impl_trait_items_uneven_ident_lengths() {
    check_assist(
        r#"
trait Bar {
    type Foo;
    type Fooo;
}

struct Foo;
impl Bar for Foo {
    type Fooo = ();
    type Foo = ();$0
}"#,
        r#"
trait Bar {
    type Foo;
    type Fooo;
}

struct Foo;
impl Bar for Foo {
    type Foo = ();
    type Fooo = ();
}"#,
    )
}
