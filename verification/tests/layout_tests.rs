use klyv::item::{Function, Implementation, MacroRules, SourceItem, Struct, Use};
use klyv::layout::{classify_file, plan_split, LayoutKind, PlannedFile};

fn struct_item(name: &str, text: &str) -> SourceItem {
    SourceItem::Struct(Struct { name: name.to_string(), text: text.to_string() })
}

fn impl_item(target: &str, text: &str) -> SourceItem {
    SourceItem::Impl(Implementation {
        target_type: Some(target.to_string()),
        text: text.to_string(),
    })
}

fn fn_item(name: &str, text: &str) -> SourceItem {
    SourceItem::Function(Function { name: name.to_string(), text: text.to_string() })
}

fn use_item(text: &str) -> SourceItem {
    SourceItem::Use(Use { text: text.to_string() })
}

fn find_file<'a>(files: &'a [PlannedFile], path: &[&str]) -> &'a PlannedFile {
    for f in files {
        let segments: Vec<&str> = f.path.iter().map(|s| s.as_str()).collect();
        if segments == path {
            return f;
        }
    }
    panic!("no planned file at the expected path");
}

#[test]
fn binary_entry_with_only_a_main_function_is_a_standard_file() {
    let items = vec![fn_item("main", "fn main() {}")];
    assert_eq!(classify_file("main.rs", &items), LayoutKind::StandardFile);
}

#[test]
fn binary_entry_with_a_helper_function_is_a_binary_root() {
    let items = vec![fn_item("main", "fn main() {}"), fn_item("helper", "fn helper() {}")];
    assert_eq!(classify_file("main.rs", &items), LayoutKind::BinaryRoot);
}

#[test]
fn library_entry_with_a_type_is_a_library_root() {
    let items = vec![struct_item("User", "struct User {}")];
    assert_eq!(classify_file("lib.rs", &items), LayoutKind::LibraryRoot);
}

#[test]
fn ordinary_file_with_types_is_a_standard_file() {
    let items = vec![struct_item("User", "struct User {}")];
    assert_eq!(classify_file("user_stuff.rs", &items), LayoutKind::StandardFile);
}

#[test]
fn library_entry_with_only_imports_is_a_standard_file() {
    let items = vec![use_item("use std::fmt;")];
    assert_eq!(classify_file("lib.rs", &items), LayoutKind::StandardFile);
}

#[test]
fn entry_points_with_only_impl_blocks_are_standard_files() {
    let items = vec![impl_item("Foreign", "impl Foreign {}")];
    assert_eq!(classify_file("lib.rs", &items), LayoutKind::StandardFile);
    assert_eq!(classify_file("main.rs", &items), LayoutKind::StandardFile);
}

#[test]
fn special_case_configs_name_their_folders() {
    let lib = klyv::layout::SpecialCaseConfig::lib_rs();
    assert_eq!(lib.types_folder, "types");
    assert_eq!(lib.logic_folder, "logic");
    assert_eq!(lib.module_name, "types");
    let bin = klyv::layout::SpecialCaseConfig::main_rs();
    assert_eq!(bin.types_folder, "models");
    assert_eq!(bin.module_name, "models");
}

#[test]
fn input_defaults_its_output_to_the_source() {
    let with_out = klyv::input::Input {
        source: "src".to_string(),
        out: Some("target".to_string()),
        allow_git_staged: false,
        allow_git_dirty: false,
    };
    assert_eq!(with_out.effective_out(), "target");
    let without_out = klyv::input::Input {
        source: "src".to_string(),
        out: None,
        allow_git_staged: false,
        allow_git_dirty: false,
    };
    assert_eq!(without_out.effective_out(), "src");
}

#[test]
fn standard_split_scatters_types_and_keeps_the_rest_in_the_origin() {
    let items = vec![
        struct_item("A", "struct A {}"),
        struct_item("B", "struct B {}"),
        impl_item("A", "impl A {\n    fn x() {}\n}"),
        fn_item("free_fn", "fn free_fn() {}"),
        use_item("use std::fmt;"),
    ];
    let plan = plan_split("orig.rs", &items);
    assert_eq!(plan.files.len(), 3);

    let a = find_file(&plan.files, &["a.rs"]);
    let use_pos = a.content.find("use std::fmt;").expect("import in a.rs");
    let struct_pos = a.content.find("struct A {}").expect("struct in a.rs");
    let impl_pos = a.content.find("impl A {").expect("impl in a.rs");
    assert!(use_pos < struct_pos && struct_pos < impl_pos);

    let b = find_file(&plan.files, &["b.rs"]);
    let use_pos_b = b.content.find("use std::fmt;").expect("import in b.rs");
    let struct_pos_b = b.content.find("struct B {}").expect("struct in b.rs");
    assert!(use_pos_b < struct_pos_b);
    assert!(!b.content.contains("struct A"));
    assert_eq!(b.content, "use crate::prelude::*;\n\nuse std::fmt;\n\n\nstruct B {}\n");

    let orig = find_file(&plan.files, &["orig.rs"]);
    assert!(orig.content.contains("fn free_fn() {}"));
    assert!(!orig.content.contains("struct A"));
    assert!(!orig.content.contains("struct B"));

    let stems = plan.merge_stems.expect("several files ask for a listing");
    assert_eq!(stems, vec!["a".to_string(), "b".to_string()]);
}

#[test]
fn standard_split_of_a_single_group_updates_no_listing() {
    let items = vec![struct_item("Solo", "struct Solo {}")];
    let plan = plan_split("solo.rs", &items);
    assert_eq!(plan.files.len(), 1);
    assert!(plan.merge_stems.is_none());
}

#[test]
fn library_root_gets_types_and_logic_directories() {
    let items = vec![
        use_item("use std::fmt;"),
        struct_item("User", "struct User {}"),
        struct_item("Role", "struct Role {}"),
        fn_item("create_user", "fn create_user() {}"),
    ];
    let plan = plan_split("lib.rs", &items);
    assert!(plan.merge_stems.is_none());

    let user = find_file(&plan.files, &["types", "user.rs"]);
    assert!(user.content.contains("struct User {}"));
    let role = find_file(&plan.files, &["types", "role.rs"]);
    assert!(role.content.contains("struct Role {}"));

    let types_mod = find_file(&plan.files, &["types", "mod.rs"]);
    assert_eq!(types_mod.content, "mod role;\nmod user;\n\npub use role::*;\npub use user::*;\n");

    let functions = find_file(&plan.files, &["logic", "functions.rs"]);
    assert!(functions.content.contains("fn create_user() {}"));
    let logic_mod = find_file(&plan.files, &["logic", "mod.rs"]);
    assert_eq!(logic_mod.content, "mod functions;\n\npub use functions::*;\n");

    let root = find_file(&plan.files, &["lib.rs"]);
    assert!(root.content.contains("mod types;"));
    assert!(root.content.contains("mod logic;"));
    assert!(root.content.contains("pub mod prelude {"));
    assert!(root.content.contains("pub use crate::types::*;"));
    assert!(root.content.contains("pub use crate::logic::*;"));
    assert!(root.content.contains("use std::fmt;"));
}

#[test]
fn binary_root_keeps_main_in_the_root_and_buckets_the_rest() {
    let items = vec![
        struct_item("CliConfig", "struct CliConfig {}"),
        fn_item("helper", "fn helper() {}"),
        fn_item("main", "fn main() {}"),
    ];
    let plan = plan_split("main.rs", &items);

    let config = find_file(&plan.files, &["models", "cli_config.rs"]);
    assert!(config.content.contains("struct CliConfig {}"));

    let functions = find_file(&plan.files, &["logic", "functions.rs"]);
    assert!(functions.content.contains("fn helper() {}"));
    assert!(!functions.content.contains("fn main()"));

    let root = find_file(&plan.files, &["main.rs"]);
    assert!(root.content.contains("mod models;"));
    assert!(root.content.contains("mod logic;"));
    assert!(root.content.contains("fn main() {}"));
}

#[test]
fn named_macros_get_their_own_exported_files() {
    let items = vec![
        struct_item("Thing", "struct Thing {}"),
        SourceItem::MacroRules(MacroRules {
            name: Some("my_macro".to_string()),
            text: "macro_rules! my_macro { () => {}; }".to_string(),
        }),
        fn_item("run", "fn run() {}"),
    ];
    let plan = plan_split("lib.rs", &items);

    let macro_file = find_file(&plan.files, &["logic", "my_macro.rs"]);
    assert!(macro_file.content.contains("#[macro_export]\nmacro_rules! my_macro"));

    let logic_mod = find_file(&plan.files, &["logic", "mod.rs"]);
    assert_eq!(
        logic_mod.content,
        "mod functions;\nmod my_macro;\n\npub use functions::*;\npub use my_macro::*;\n"
    );
}

#[test]
fn anonymous_macros_fall_back_into_the_functions_file() {
    let items = vec![
        struct_item("Thing", "struct Thing {}"),
        SourceItem::MacroRules(MacroRules {
            name: None,
            text: "some_macro_invocation!();".to_string(),
        }),
    ];
    let plan = plan_split("lib.rs", &items);
    let functions = find_file(&plan.files, &["logic", "functions.rs"]);
    assert!(functions.content.contains("some_macro_invocation!();"));
}
