//! The attributes built into the language that name resolution treats as
//! inert, with the shape of input each one accepts.
use crate::text::str_eq;
use vstd::prelude::*;

verus! {

/// A built-in attribute and the input it accepts.
pub struct BuiltinAttribute {
    pub name: &'static str,
    pub template: AttributeTemplate,
}

/// A template that the attribute input must match. Only the top-level shape
/// (`#[attr]` vs `#[attr(...)]` vs `#[attr = ...]`) is considered.
#[derive(Clone, Copy)]
pub struct AttributeTemplate {
    pub word: bool,
    pub list: Option<&'static str>,
    pub name_value_str: Option<&'static str>,
}

/// The names of the inert built-in attributes, in their fixed order.
pub open spec fn inert_attribute_names() -> Seq<&'static str> {
    seq!["cfg", "cfg_attr", "ignore", "should_panic", "reexport_test_harness_main", "automatically_derived", "macro_use", "macro_escape", "macro_export", "proc_macro", "proc_macro_derive", "proc_macro_attribute", "warn", "allow", "forbid", "deny", "must_use", "deprecated", "crate_name", "crate_type", "crate_id", "link", "link_name", "no_link", "repr", "export_name", "link_section", "no_mangle", "used", "recursion_limit", "type_length_limit", "const_eval_limit", "move_size_limit", "main", "start", "no_start", "no_main", "path", "no_std", "no_implicit_prelude", "non_exhaustive", "windows_subsystem", "panic_handler", "inline", "cold", "no_builtins", "target_feature", "track_caller", "no_sanitize", "no_coverage", "doc", "naked", "link_ordinal", "plugin_registrar", "plugin", "allow_fail", "test_runner", "marker", "thread_local", "no_core", "optimize", "instruction_set", "ffi_returns_twice", "ffi_pure", "ffi_const", "register_attr", "register_tool", "cmse_nonsecure_entry", "default_method_body_is_const", "feature", "rustc_deprecated", "stable", "unstable", "rustc_const_unstable", "rustc_const_stable", "allow_internal_unstable", "rustc_allow_const_fn_unstable", "allow_internal_unsafe", "fundamental", "may_dangle", "rustc_allocator", "rustc_allocator_nounwind", "alloc_error_handler", "default_lib_allocator", "needs_allocator", "panic_runtime", "needs_panic_runtime", "compiler_builtins", "profiler_runtime", "linkage", "rustc_std_internal_symbol", "rustc_builtin_macro", "rustc_proc_macro_decls", "rustc_macro_transparency", "rustc_on_unimplemented", "rustc_conversion_suggestion", "rustc_promotable", "rustc_legacy_const_generics", "rustc_layout_scalar_valid_range_start", "rustc_layout_scalar_valid_range_end", "rustc_nonnull_optimization_guaranteed", "lang", "rustc_diagnostic_item", "prelude_import", "rustc_paren_sugar", "rustc_inherit_overflow_checks", "rustc_reservation_impl", "rustc_test_marker", "rustc_unsafe_specialization_marker", "rustc_specialization_trait", "rustc_main", "rustc_skip_array_during_method_dispatch", "rustc_outlives", "rustc_capture_analysis", "rustc_insignificant_dtor", "rustc_variance", "rustc_layout", "rustc_regions", "rustc_error", "rustc_dump_user_substs", "rustc_evaluate_where_clauses", "rustc_if_this_changed", "rustc_then_this_would_need", "rustc_clean", "rustc_partition_reused", "rustc_partition_codegened", "rustc_expected_cgu_reuse", "rustc_synthetic", "rustc_symbol_name", "rustc_polymorphize_error", "rustc_def_path", "rustc_mir", "rustc_dump_program_clauses", "rustc_dump_env_program_clauses", "rustc_object_lifetime_default", "rustc_dump_vtable", "rustc_dummy", "omit_gdb_pretty_printer_section"]
}

fn push_attributes_0(v: &mut Vec<BuiltinAttribute>)
    requires
        old(v)@.len() == 0,
        forall|i: int| 0 <= i < 0 ==> (#[trigger] old(v)@[i]).name == inert_attribute_names()[i],
    ensures
        final(v)@.len() == 10,
        forall|i: int| 0 <= i < 10 ==> (#[trigger] final(v)@[i]).name == inert_attribute_names()[i],
{
    v.push(BuiltinAttribute { name: "cfg", template: AttributeTemplate { word: false, list: Some("predicate"), name_value_str: None } });
    v.push(BuiltinAttribute { name: "cfg_attr", template: AttributeTemplate { word: false, list: Some("predicate, attr1, attr2, ..."), name_value_str: None } });
    v.push(BuiltinAttribute { name: "ignore", template: AttributeTemplate { word: true, list: None, name_value_str: Some("reason") } });
    v.push(BuiltinAttribute { name: "should_panic", template: AttributeTemplate { word: true, list: Some(r#"expected = "reason"#), name_value_str: Some("reason") } });
    v.push(BuiltinAttribute { name: "reexport_test_harness_main", template: AttributeTemplate { word: false, list: None, name_value_str: Some("name") } });
    v.push(BuiltinAttribute { name: "automatically_derived", template: AttributeTemplate { word: true, list: None, name_value_str: None } });
    v.push(BuiltinAttribute { name: "macro_use", template: AttributeTemplate { word: true, list: Some("name1, name2, ..."), name_value_str: None } });
    v.push(BuiltinAttribute { name: "macro_escape", template: AttributeTemplate { word: true, list: None, name_value_str: None } });
    v.push(BuiltinAttribute { name: "macro_export", template: AttributeTemplate { word: true, list: Some("local_inner_macros"), name_value_str: None } });
    v.push(BuiltinAttribute { name: "proc_macro", template: AttributeTemplate { word: true, list: None, name_value_str: None } });
}

fn push_attributes_1(v: &mut Vec<BuiltinAttribute>)
    requires
        old(v)@.len() == 10,
        forall|i: int| 0 <= i < 10 ==> (#[trigger] old(v)@[i]).name == inert_attribute_names()[i],
    ensures
        final(v)@.len() == 20,
        forall|i: int| 0 <= i < 20 ==> (#[trigger] final(v)@[i]).name == inert_attribute_names()[i],
{
    v.push(BuiltinAttribute { name: "proc_macro_derive", template: AttributeTemplate { word: false, list: Some("TraitName, /*opt*/ attributes(name1, name2, ...)"), name_value_str: None } });
    v.push(BuiltinAttribute { name: "proc_macro_attribute", template: AttributeTemplate { word: true, list: None, name_value_str: None } });
    v.push(BuiltinAttribute { name: "warn", template: AttributeTemplate { word: false, list: Some(r#"lint1, lint2, ..., /*opt*/ reason = "...""#), name_value_str: None } });
    v.push(BuiltinAttribute { name: "allow", template: AttributeTemplate { word: false, list: Some(r#"lint1, lint2, ..., /*opt*/ reason = "...""#), name_value_str: None } });
    v.push(BuiltinAttribute { name: "forbid", template: AttributeTemplate { word: false, list: Some(r#"lint1, lint2, ..., /*opt*/ reason = "...""#), name_value_str: None } });
    v.push(BuiltinAttribute { name: "deny", template: AttributeTemplate { word: false, list: Some(r#"lint1, lint2, ..., /*opt*/ reason = "...""#), name_value_str: None } });
    v.push(BuiltinAttribute { name: "must_use", template: AttributeTemplate { word: true, list: None, name_value_str: Some("reason") } });
    v.push(BuiltinAttribute { name: "deprecated", template: AttributeTemplate { word: true, list: Some(r#"/*opt*/ since = "version", /*opt*/ note = "reason""#), name_value_str: Some("reason") } });
    v.push(BuiltinAttribute { name: "crate_name", template: AttributeTemplate { word: false, list: None, name_value_str: Some("name") } });
    v.push(BuiltinAttribute { name: "crate_type", template: AttributeTemplate { word: false, list: None, name_value_str: Some("bin|lib|...") } });
}

fn push_attributes_2(v: &mut Vec<BuiltinAttribute>)
    requires
        old(v)@.len() == 20,
        forall|i: int| 0 <= i < 20 ==> (#[trigger] old(v)@[i]).name == inert_attribute_names()[i],
    ensures
        final(v)@.len() == 30,
        forall|i: int| 0 <= i < 30 ==> (#[trigger] final(v)@[i]).name == inert_attribute_names()[i],
{
    v.push(BuiltinAttribute { name: "crate_id", template: AttributeTemplate { word: false, list: None, name_value_str: Some("ignored") } });
    v.push(BuiltinAttribute { name: "link", template: AttributeTemplate { word: false, list: Some(r#"name = "...", /*opt*/ kind = "dylib|static|...", /*opt*/ wasm_import_module = "...""#), name_value_str: None } });
    v.push(BuiltinAttribute { name: "link_name", template: AttributeTemplate { word: false, list: None, name_value_str: Some("name") } });
    v.push(BuiltinAttribute { name: "no_link", template: AttributeTemplate { word: true, list: None, name_value_str: None } });
    v.push(BuiltinAttribute { name: "repr", template: AttributeTemplate { word: false, list: Some("C"), name_value_str: None } });
    v.push(BuiltinAttribute { name: "export_name", template: AttributeTemplate { word: false, list: None, name_value_str: Some("name") } });
    v.push(BuiltinAttribute { name: "link_section", template: AttributeTemplate { word: false, list: None, name_value_str: Some("name") } });
    v.push(BuiltinAttribute { name: "no_mangle", template: AttributeTemplate { word: true, list: None, name_value_str: None } });
    v.push(BuiltinAttribute { name: "used", template: AttributeTemplate { word: true, list: None, name_value_str: None } });
    v.push(BuiltinAttribute { name: "recursion_limit", template: AttributeTemplate { word: false, list: None, name_value_str: Some("N") } });
}

fn push_attributes_3(v: &mut Vec<BuiltinAttribute>)
    requires
        old(v)@.len() == 30,
        forall|i: int| 0 <= i < 30 ==> (#[trigger] old(v)@[i]).name == inert_attribute_names()[i],
    ensures
        final(v)@.len() == 40,
        forall|i: int| 0 <= i < 40 ==> (#[trigger] final(v)@[i]).name == inert_attribute_names()[i],
{
    v.push(BuiltinAttribute { name: "type_length_limit", template: AttributeTemplate { word: false, list: None, name_value_str: Some("N") } });
    v.push(BuiltinAttribute { name: "const_eval_limit", template: AttributeTemplate { word: false, list: None, name_value_str: Some("N") } });
    v.push(BuiltinAttribute { name: "move_size_limit", template: AttributeTemplate { word: false, list: None, name_value_str: Some("N") } });
    v.push(BuiltinAttribute { name: "main", template: AttributeTemplate { word: true, list: None, name_value_str: None } });
    v.push(BuiltinAttribute { name: "start", template: AttributeTemplate { word: true, list: None, name_value_str: None } });
    v.push(BuiltinAttribute { name: "no_start", template: AttributeTemplate { word: true, list: None, name_value_str: None } });
    v.push(BuiltinAttribute { name: "no_main", template: AttributeTemplate { word: true, list: None, name_value_str: None } });
    v.push(BuiltinAttribute { name: "path", template: AttributeTemplate { word: false, list: None, name_value_str: Some("file") } });
    v.push(BuiltinAttribute { name: "no_std", template: AttributeTemplate { word: true, list: None, name_value_str: None } });
    v.push(BuiltinAttribute { name: "no_implicit_prelude", template: AttributeTemplate { word: true, list: None, name_value_str: None } });
}

fn push_attributes_4(v: &mut Vec<BuiltinAttribute>)
    requires
        old(v)@.len() == 40,
        forall|i: int| 0 <= i < 40 ==> (#[trigger] old(v)@[i]).name == inert_attribute_names()[i],
    ensures
        final(v)@.len() == 50,
        forall|i: int| 0 <= i < 50 ==> (#[trigger] final(v)@[i]).name == inert_attribute_names()[i],
{
    v.push(BuiltinAttribute { name: "non_exhaustive", template: AttributeTemplate { word: true, list: None, name_value_str: None } });
    v.push(BuiltinAttribute { name: "windows_subsystem", template: AttributeTemplate { word: false, list: None, name_value_str: Some("windows|console") } });
    v.push(BuiltinAttribute { name: "panic_handler", template: AttributeTemplate { word: true, list: None, name_value_str: None } });
    v.push(BuiltinAttribute { name: "inline", template: AttributeTemplate { word: true, list: Some("always|never"), name_value_str: None } });
    v.push(BuiltinAttribute { name: "cold", template: AttributeTemplate { word: true, list: None, name_value_str: None } });
    v.push(BuiltinAttribute { name: "no_builtins", template: AttributeTemplate { word: true, list: None, name_value_str: None } });
    v.push(BuiltinAttribute { name: "target_feature", template: AttributeTemplate { word: false, list: Some(r#"enable = "name""#), name_value_str: None } });
    v.push(BuiltinAttribute { name: "track_caller", template: AttributeTemplate { word: true, list: None, name_value_str: None } });
    v.push(BuiltinAttribute { name: "no_sanitize", template: AttributeTemplate { word: false, list: Some("address, memory, thread"), name_value_str: None } });
    v.push(BuiltinAttribute { name: "no_coverage", template: AttributeTemplate { word: true, list: None, name_value_str: None } });
}

fn push_attributes_5(v: &mut Vec<BuiltinAttribute>)
    requires
        old(v)@.len() == 50,
        forall|i: int| 0 <= i < 50 ==> (#[trigger] old(v)@[i]).name == inert_attribute_names()[i],
    ensures
        final(v)@.len() == 60,
        forall|i: int| 0 <= i < 60 ==> (#[trigger] final(v)@[i]).name == inert_attribute_names()[i],
{
    v.push(BuiltinAttribute { name: "doc", template: AttributeTemplate { word: false, list: Some("hidden|inline|..."), name_value_str: Some("string") } });
    v.push(BuiltinAttribute { name: "naked", template: AttributeTemplate { word: true, list: None, name_value_str: None } });
    v.push(BuiltinAttribute { name: "link_ordinal", template: AttributeTemplate { word: false, list: Some("ordinal"), name_value_str: None } });
    v.push(BuiltinAttribute { name: "plugin_registrar", template: AttributeTemplate { word: true, list: None, name_value_str: None } });
    v.push(BuiltinAttribute { name: "plugin", template: AttributeTemplate { word: true, list: None, name_value_str: None } });
    v.push(BuiltinAttribute { name: "allow_fail", template: AttributeTemplate { word: true, list: None, name_value_str: None } });
    v.push(BuiltinAttribute { name: "test_runner", template: AttributeTemplate { word: false, list: Some("path"), name_value_str: None } });
    v.push(BuiltinAttribute { name: "marker", template: AttributeTemplate { word: true, list: None, name_value_str: None } });
    v.push(BuiltinAttribute { name: "thread_local", template: AttributeTemplate { word: true, list: None, name_value_str: None } });
    v.push(BuiltinAttribute { name: "no_core", template: AttributeTemplate { word: true, list: None, name_value_str: None } });
}

fn push_attributes_6(v: &mut Vec<BuiltinAttribute>)
    requires
        old(v)@.len() == 60,
        forall|i: int| 0 <= i < 60 ==> (#[trigger] old(v)@[i]).name == inert_attribute_names()[i],
    ensures
        final(v)@.len() == 70,
        forall|i: int| 0 <= i < 70 ==> (#[trigger] final(v)@[i]).name == inert_attribute_names()[i],
{
    v.push(BuiltinAttribute { name: "optimize", template: AttributeTemplate { word: false, list: Some("size|speed"), name_value_str: None } });
    v.push(BuiltinAttribute { name: "instruction_set", template: AttributeTemplate { word: false, list: Some("set"), name_value_str: None } });
    v.push(BuiltinAttribute { name: "ffi_returns_twice", template: AttributeTemplate { word: true, list: None, name_value_str: None } });
    v.push(BuiltinAttribute { name: "ffi_pure", template: AttributeTemplate { word: true, list: None, name_value_str: None } });
    v.push(BuiltinAttribute { name: "ffi_const", template: AttributeTemplate { word: true, list: None, name_value_str: None } });
    v.push(BuiltinAttribute { name: "register_attr", template: AttributeTemplate { word: false, list: Some("attr1, attr2, ..."), name_value_str: None } });
    v.push(BuiltinAttribute { name: "register_tool", template: AttributeTemplate { word: false, list: Some("tool1, tool2, ..."), name_value_str: None } });
    v.push(BuiltinAttribute { name: "cmse_nonsecure_entry", template: AttributeTemplate { word: true, list: None, name_value_str: None } });
    v.push(BuiltinAttribute { name: "default_method_body_is_const", template: AttributeTemplate { word: true, list: None, name_value_str: None } });
    v.push(BuiltinAttribute { name: "feature", template: AttributeTemplate { word: false, list: Some("name1, name1, ..."), name_value_str: None } });
}

fn push_attributes_7(v: &mut Vec<BuiltinAttribute>)
    requires
        old(v)@.len() == 70,
        forall|i: int| 0 <= i < 70 ==> (#[trigger] old(v)@[i]).name == inert_attribute_names()[i],
    ensures
        final(v)@.len() == 80,
        forall|i: int| 0 <= i < 80 ==> (#[trigger] final(v)@[i]).name == inert_attribute_names()[i],
{
    v.push(BuiltinAttribute { name: "rustc_deprecated", template: AttributeTemplate { word: false, list: Some(r#"since = "version", reason = "...""#), name_value_str: None } });
    v.push(BuiltinAttribute { name: "stable", template: AttributeTemplate { word: false, list: Some(r#"feature = "name", since = "version""#), name_value_str: None } });
    v.push(BuiltinAttribute { name: "unstable", template: AttributeTemplate { word: false, list: Some(r#"feature = "name", reason = "...", issue = "N""#), name_value_str: None } });
    v.push(BuiltinAttribute { name: "rustc_const_unstable", template: AttributeTemplate { word: false, list: Some(r#"feature = "name""#), name_value_str: None } });
    v.push(BuiltinAttribute { name: "rustc_const_stable", template: AttributeTemplate { word: false, list: Some(r#"feature = "name""#), name_value_str: None } });
    v.push(BuiltinAttribute { name: "allow_internal_unstable", template: AttributeTemplate { word: true, list: Some("feat1, feat2, ..."), name_value_str: None } });
    v.push(BuiltinAttribute { name: "rustc_allow_const_fn_unstable", template: AttributeTemplate { word: true, list: Some("feat1, feat2, ..."), name_value_str: None } });
    v.push(BuiltinAttribute { name: "allow_internal_unsafe", template: AttributeTemplate { word: true, list: None, name_value_str: None } });
    v.push(BuiltinAttribute { name: "fundamental", template: AttributeTemplate { word: true, list: None, name_value_str: None } });
    v.push(BuiltinAttribute { name: "may_dangle", template: AttributeTemplate { word: true, list: None, name_value_str: None } });
}

fn push_attributes_8(v: &mut Vec<BuiltinAttribute>)
    requires
        old(v)@.len() == 80,
        forall|i: int| 0 <= i < 80 ==> (#[trigger] old(v)@[i]).name == inert_attribute_names()[i],
    ensures
        final(v)@.len() == 90,
        forall|i: int| 0 <= i < 90 ==> (#[trigger] final(v)@[i]).name == inert_attribute_names()[i],
{
    v.push(BuiltinAttribute { name: "rustc_allocator", template: AttributeTemplate { word: true, list: None, name_value_str: None } });
    v.push(BuiltinAttribute { name: "rustc_allocator_nounwind", template: AttributeTemplate { word: true, list: None, name_value_str: None } });
    v.push(BuiltinAttribute { name: "alloc_error_handler", template: AttributeTemplate { word: true, list: None, name_value_str: None } });
    v.push(BuiltinAttribute { name: "default_lib_allocator", template: AttributeTemplate { word: true, list: None, name_value_str: None } });
    v.push(BuiltinAttribute { name: "needs_allocator", template: AttributeTemplate { word: true, list: None, name_value_str: None } });
    v.push(BuiltinAttribute { name: "panic_runtime", template: AttributeTemplate { word: true, list: None, name_value_str: None } });
    v.push(BuiltinAttribute { name: "needs_panic_runtime", template: AttributeTemplate { word: true, list: None, name_value_str: None } });
    v.push(BuiltinAttribute { name: "compiler_builtins", template: AttributeTemplate { word: true, list: None, name_value_str: None } });
    v.push(BuiltinAttribute { name: "profiler_runtime", template: AttributeTemplate { word: true, list: None, name_value_str: None } });
    v.push(BuiltinAttribute { name: "linkage", template: AttributeTemplate { word: false, list: None, name_value_str: Some("external|internal|...") } });
}

fn push_attributes_9(v: &mut Vec<BuiltinAttribute>)
    requires
        old(v)@.len() == 90,
        forall|i: int| 0 <= i < 90 ==> (#[trigger] old(v)@[i]).name == inert_attribute_names()[i],
    ensures
        final(v)@.len() == 100,
        forall|i: int| 0 <= i < 100 ==> (#[trigger] final(v)@[i]).name == inert_attribute_names()[i],
{
    v.push(BuiltinAttribute { name: "rustc_std_internal_symbol", template: AttributeTemplate { word: true, list: None, name_value_str: None } });
    v.push(BuiltinAttribute { name: "rustc_builtin_macro", template: AttributeTemplate { word: true, list: Some("name, /*opt*/ attributes(name1, name2, ...)"), name_value_str: None } });
    v.push(BuiltinAttribute { name: "rustc_proc_macro_decls", template: AttributeTemplate { word: true, list: None, name_value_str: None } });
    v.push(BuiltinAttribute { name: "rustc_macro_transparency", template: AttributeTemplate { word: false, list: None, name_value_str: Some("transparent|semitransparent|opaque") } });
    v.push(BuiltinAttribute { name: "rustc_on_unimplemented", template: AttributeTemplate { word: false, list: Some(r#"/*opt*/ message = "...", /*opt*/ label = "...", /*opt*/ note = "...""#), name_value_str: Some("message") } });
    v.push(BuiltinAttribute { name: "rustc_conversion_suggestion", template: AttributeTemplate { word: true, list: None, name_value_str: None } });
    v.push(BuiltinAttribute { name: "rustc_promotable", template: AttributeTemplate { word: true, list: None, name_value_str: None } });
    v.push(BuiltinAttribute { name: "rustc_legacy_const_generics", template: AttributeTemplate { word: false, list: Some("N"), name_value_str: None } });
    v.push(BuiltinAttribute { name: "rustc_layout_scalar_valid_range_start", template: AttributeTemplate { word: false, list: Some("value"), name_value_str: None } });
    v.push(BuiltinAttribute { name: "rustc_layout_scalar_valid_range_end", template: AttributeTemplate { word: false, list: Some("value"), name_value_str: None } });
}

fn push_attributes_10(v: &mut Vec<BuiltinAttribute>)
    requires
        old(v)@.len() == 100,
        forall|i: int| 0 <= i < 100 ==> (#[trigger] old(v)@[i]).name == inert_attribute_names()[i],
    ensures
        final(v)@.len() == 110,
        forall|i: int| 0 <= i < 110 ==> (#[trigger] final(v)@[i]).name == inert_attribute_names()[i],
{
    v.push(BuiltinAttribute { name: "rustc_nonnull_optimization_guaranteed", template: AttributeTemplate { word: true, list: None, name_value_str: None } });
    v.push(BuiltinAttribute { name: "lang", template: AttributeTemplate { word: false, list: None, name_value_str: Some("name") } });
    v.push(BuiltinAttribute { name: "rustc_diagnostic_item", template: AttributeTemplate { word: false, list: None, name_value_str: Some("name") } });
    v.push(BuiltinAttribute { name: "prelude_import", template: AttributeTemplate { word: true, list: None, name_value_str: None } });
    v.push(BuiltinAttribute { name: "rustc_paren_sugar", template: AttributeTemplate { word: true, list: None, name_value_str: None } });
    v.push(BuiltinAttribute { name: "rustc_inherit_overflow_checks", template: AttributeTemplate { word: true, list: None, name_value_str: None } });
    v.push(BuiltinAttribute { name: "rustc_reservation_impl", template: AttributeTemplate { word: false, list: None, name_value_str: Some("reservation message") } });
    v.push(BuiltinAttribute { name: "rustc_test_marker", template: AttributeTemplate { word: true, list: None, name_value_str: None } });
    v.push(BuiltinAttribute { name: "rustc_unsafe_specialization_marker", template: AttributeTemplate { word: true, list: None, name_value_str: None } });
    v.push(BuiltinAttribute { name: "rustc_specialization_trait", template: AttributeTemplate { word: true, list: None, name_value_str: None } });
}

fn push_attributes_11(v: &mut Vec<BuiltinAttribute>)
    requires
        old(v)@.len() == 110,
        forall|i: int| 0 <= i < 110 ==> (#[trigger] old(v)@[i]).name == inert_attribute_names()[i],
    ensures
        final(v)@.len() == 120,
        forall|i: int| 0 <= i < 120 ==> (#[trigger] final(v)@[i]).name == inert_attribute_names()[i],
{
    v.push(BuiltinAttribute { name: "rustc_main", template: AttributeTemplate { word: true, list: None, name_value_str: None } });
    v.push(BuiltinAttribute { name: "rustc_skip_array_during_method_dispatch", template: AttributeTemplate { word: true, list: None, name_value_str: None } });
    v.push(BuiltinAttribute { name: "rustc_outlives", template: AttributeTemplate { word: true, list: None, name_value_str: None } });
    v.push(BuiltinAttribute { name: "rustc_capture_analysis", template: AttributeTemplate { word: true, list: None, name_value_str: None } });
    v.push(BuiltinAttribute { name: "rustc_insignificant_dtor", template: AttributeTemplate { word: true, list: None, name_value_str: None } });
    v.push(BuiltinAttribute { name: "rustc_variance", template: AttributeTemplate { word: true, list: None, name_value_str: None } });
    v.push(BuiltinAttribute { name: "rustc_layout", template: AttributeTemplate { word: false, list: Some("field1, field2, ..."), name_value_str: None } });
    v.push(BuiltinAttribute { name: "rustc_regions", template: AttributeTemplate { word: true, list: None, name_value_str: None } });
    v.push(BuiltinAttribute { name: "rustc_error", template: AttributeTemplate { word: true, list: Some("delay_span_bug_from_inside_query"), name_value_str: None } });
    v.push(BuiltinAttribute { name: "rustc_dump_user_substs", template: AttributeTemplate { word: true, list: None, name_value_str: None } });
}

fn push_attributes_12(v: &mut Vec<BuiltinAttribute>)
    requires
        old(v)@.len() == 120,
        forall|i: int| 0 <= i < 120 ==> (#[trigger] old(v)@[i]).name == inert_attribute_names()[i],
    ensures
        final(v)@.len() == 130,
        forall|i: int| 0 <= i < 130 ==> (#[trigger] final(v)@[i]).name == inert_attribute_names()[i],
{
    v.push(BuiltinAttribute { name: "rustc_evaluate_where_clauses", template: AttributeTemplate { word: true, list: None, name_value_str: None } });
    v.push(BuiltinAttribute { name: "rustc_if_this_changed", template: AttributeTemplate { word: true, list: Some("DepNode"), name_value_str: None } });
    v.push(BuiltinAttribute { name: "rustc_then_this_would_need", template: AttributeTemplate { word: false, list: Some("DepNode"), name_value_str: None } });
    v.push(BuiltinAttribute { name: "rustc_clean", template: AttributeTemplate { word: false, list: Some(r#"cfg = "...", /*opt*/ label = "...", /*opt*/ except = "...""#), name_value_str: None } });
    v.push(BuiltinAttribute { name: "rustc_partition_reused", template: AttributeTemplate { word: false, list: Some(r#"cfg = "...", module = "...""#), name_value_str: None } });
    v.push(BuiltinAttribute { name: "rustc_partition_codegened", template: AttributeTemplate { word: false, list: Some(r#"cfg = "...", module = "...""#), name_value_str: None } });
    v.push(BuiltinAttribute { name: "rustc_expected_cgu_reuse", template: AttributeTemplate { word: false, list: Some(r#"cfg = "...", module = "...", kind = "...""#), name_value_str: None } });
    v.push(BuiltinAttribute { name: "rustc_synthetic", template: AttributeTemplate { word: true, list: None, name_value_str: None } });
    v.push(BuiltinAttribute { name: "rustc_symbol_name", template: AttributeTemplate { word: true, list: None, name_value_str: None } });
    v.push(BuiltinAttribute { name: "rustc_polymorphize_error", template: AttributeTemplate { word: true, list: None, name_value_str: None } });
}

fn push_attributes_13(v: &mut Vec<BuiltinAttribute>)
    requires
        old(v)@.len() == 130,
        forall|i: int| 0 <= i < 130 ==> (#[trigger] old(v)@[i]).name == inert_attribute_names()[i],
    ensures
        final(v)@.len() == 138,
        forall|i: int| 0 <= i < 138 ==> (#[trigger] final(v)@[i]).name == inert_attribute_names()[i],
{
    v.push(BuiltinAttribute { name: "rustc_def_path", template: AttributeTemplate { word: true, list: None, name_value_str: None } });
    v.push(BuiltinAttribute { name: "rustc_mir", template: AttributeTemplate { word: false, list: Some("arg1, arg2, ..."), name_value_str: None } });
    v.push(BuiltinAttribute { name: "rustc_dump_program_clauses", template: AttributeTemplate { word: true, list: None, name_value_str: None } });
    v.push(BuiltinAttribute { name: "rustc_dump_env_program_clauses", template: AttributeTemplate { word: true, list: None, name_value_str: None } });
    v.push(BuiltinAttribute { name: "rustc_object_lifetime_default", template: AttributeTemplate { word: true, list: None, name_value_str: None } });
    v.push(BuiltinAttribute { name: "rustc_dump_vtable", template: AttributeTemplate { word: true, list: None, name_value_str: None } });
    v.push(BuiltinAttribute { name: "rustc_dummy", template: AttributeTemplate { word: true, list: None, name_value_str: None } });
    v.push(BuiltinAttribute { name: "omit_gdb_pretty_printer_section", template: AttributeTemplate { word: true, list: None, name_value_str: None } });
}

/// The inert built-in attributes, in their fixed order.
pub fn inert_attributes() -> (r: Vec<BuiltinAttribute>)
    ensures
        r@.len() == inert_attribute_names().len(),
        forall|i: int| 0 <= i < r@.len() ==> (#[trigger] r@[i]).name == inert_attribute_names()[i],
{
    let mut v: Vec<BuiltinAttribute> = Vec::new();
    push_attributes_0(&mut v);
    push_attributes_1(&mut v);
    push_attributes_2(&mut v);
    push_attributes_3(&mut v);
    push_attributes_4(&mut v);
    push_attributes_5(&mut v);
    push_attributes_6(&mut v);
    push_attributes_7(&mut v);
    push_attributes_8(&mut v);
    push_attributes_9(&mut v);
    push_attributes_10(&mut v);
    push_attributes_11(&mut v);
    push_attributes_12(&mut v);
    push_attributes_13(&mut v);
    v
}


/// The position in `table` of the attribute named `name`; where several
/// share the name, the last of them.
pub fn find_attr_idx_in(table: &Vec<BuiltinAttribute>, name: &str) -> (r: Option<usize>)
    ensures
        r matches Some(i) ==> i < table@.len() && table@[i as int].name@ == name@
            && forall|j: int| i < j < table@.len() ==> table@[j].name@ != name@,
        r is None ==> forall|j: int| 0 <= j < table@.len() ==> table@[j].name@ != name@,
{
    let mut found: Option<usize> = None;
    let mut i: usize = 0;
    while i < table.len()
        invariant
            i <= table@.len(),
            found matches Some(f) ==> f < i && table@[f as int].name@ == name@
                && forall|j: int| f < j < i ==> table@[j].name@ != name@,
            found is None ==> forall|j: int| 0 <= j < i ==> table@[j].name@ != name@,
        decreases table@.len() - i,
    {
        if str_eq(table[i].name, name) {
            found = Some(i);
        }
        i = i + 1;
    }
    found
}

/// The index of the inert built-in attribute named `name` in
/// `inert_attributes()`.
pub fn find_builtin_attr_idx(name: &str) -> (r: Option<usize>)
    ensures
        r matches Some(i) ==> i < inert_attribute_names().len() && inert_attribute_names()[i as int]@ == name@
            && forall|j: int| i < j < inert_attribute_names().len() ==> inert_attribute_names()[j]@ != name@,
        r is None ==> forall|j: int| 0 <= j < inert_attribute_names().len() ==> inert_attribute_names()[j]@ != name@,
{
    let table = inert_attributes();
    let r = find_attr_idx_in(&table, name);
    proof {
        assert forall|j: int| 0 <= j < table@.len() implies #[trigger] inert_attribute_names()[j]@ == table@[j].name@ by {
            assert(table@[j].name == inert_attribute_names()[j]);
        }
    }
    r
}

} // verus!
