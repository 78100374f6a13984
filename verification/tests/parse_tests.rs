use klyv::item::{ItemKind, SourceItem};
use klyv::parse::parse_file;

#[test]
fn test_parse_simple_rust_file() {
    let content = r#"
            pub struct TestStruct {
                field: u32,
            }

            impl TestStruct {
                pub fn new() -> Self {
                    Self { field: 0 }
                }
            }
        "#;

    let items = parse_file(content).unwrap();
    assert_eq!(items.len(), 2); // struct + impl
}

#[test]
fn test_parse_valid_rust_file() {
    let content = r#"
            fn foo() {}
            struct Bar;
        "#;

    let result = parse_file(content);
    assert!(result.is_ok());
    assert_eq!(result.unwrap().len(), 2);
}

#[test]
fn test_parse_invalid_rust_file() {
    let content = "invalid rust syntax {}}";
    let result = parse_file(content);
    assert!(result.is_err());
}

#[test]
fn parsed_items_carry_their_kind_and_identifier() {
    let content = "use std::fmt;\nstruct Bar;\nenum Baz { A }\nfn foo() {}\nimpl Bar { fn m(&self) {} }\ntype Alias = u8;\nconst K: u8 = 1;\n";
    let items = parse_file(content).unwrap();
    assert_eq!(items.len(), 7);
    assert_eq!(items[0].kind(), ItemKind::Import);
    assert_eq!(items[1].kind(), ItemKind::Struct);
    assert_eq!(items[1].name().unwrap(), "Bar");
    assert_eq!(items[2].kind(), ItemKind::Enum);
    assert_eq!(items[2].name().unwrap(), "Baz");
    assert_eq!(items[3].kind(), ItemKind::Function);
    assert_eq!(items[3].name().unwrap(), "foo");
    assert_eq!(items[4].kind(), ItemKind::ImplBlock);
    assert_eq!(items[4].name().unwrap(), "Bar");
    assert_eq!(items[5].kind(), ItemKind::TypeAlias);
    assert_eq!(items[5].name().unwrap(), "Alias");
    assert_eq!(items[6].kind(), ItemKind::Unclassified);
}

#[test]
fn parsed_items_carry_rendered_text() {
    let items = parse_file("struct Bar { x: u8 }").unwrap();
    assert_eq!(items.len(), 1);
    let text = items[0].text();
    assert!(text.contains("struct Bar"));
    assert!(text.contains("x: u8"));
}

#[test]
fn impl_target_is_the_last_path_segment() {
    let items = parse_file("impl foo::bar::Baz { }").unwrap();
    assert_eq!(items.len(), 1);
    match &items[0] {
        SourceItem::Impl(imp) => {
            assert_eq!(imp.target_type.as_deref(), Some("Baz"));
        }
        _ => panic!("expected an implementation block"),
    }
}

#[test]
fn verbatim_items_are_kept_as_their_token_text() {
    // A bodyless free function is recognized but not structured by the
    // parser; it must come back as an opaque item, not stop the process.
    let items = parse_file("fn foo();").unwrap();
    assert_eq!(items.len(), 1);
    assert_eq!(items[0].kind(), ItemKind::Opaque);
    assert!(items[0].text().contains("fn foo"));
}

#[test]
fn macro_definition_with_odd_body_is_kept_as_token_text() {
    // The parser accepts a macro_rules body that is not in rule form; the
    // pretty-printer refuses it, so the raw tokens are the text.
    let items = parse_file("macro_rules! m { foo }").unwrap();
    assert_eq!(items.len(), 1);
    match &items[0] {
        SourceItem::MacroRules(m) => {
            assert_eq!(m.name.as_deref(), Some("m"));
            assert!(m.text.contains("foo"));
        }
        _ => panic!("expected a macro definition"),
    }
}

#[test]
fn bodyless_members_of_traits_and_impls_are_printed() {
    // The parser accepts a visibility on a trait method and an omitted
    // method body in an impl, and hands both back as verbatim members;
    // rendering must print them, not stop the process.
    let items = parse_file("trait T { pub fn f(); }").unwrap();
    assert_eq!(items.len(), 1);
    assert_eq!(items[0].kind(), ItemKind::Trait);
    assert!(items[0].text().contains("pub fn f()"));

    let items = parse_file("impl X { fn f(); }").unwrap();
    assert_eq!(items.len(), 1);
    assert_eq!(items[0].kind(), ItemKind::ImplBlock);
    assert!(items[0].text().contains("fn f()"));
}

#[test]
fn modules_with_bodyless_functions_are_printed() {
    let items = parse_file("mod m { fn f(); }").unwrap();
    assert_eq!(items.len(), 1);
    assert_eq!(items[0].kind(), ItemKind::Unclassified);
    assert!(items[0].text().contains("fn f()"));
}

#[test]
fn macro_definition_in_rule_form_is_pretty_printed() {
    let items = parse_file("macro_rules! ok { () => {}; }").unwrap();
    assert_eq!(items.len(), 1);
    assert!(items[0].text().contains("macro_rules! ok"));
}

#[test]
fn doc_comments_round_trip_through_parse_and_render() {
    let items = parse_file("/// Documented\nstruct Doc;\n").unwrap();
    assert_eq!(items.len(), 1);
    let converted = klyv::doc::convert_doc_attributes_to_comments(items[0].text().as_str());
    assert!(converted.contains("/// Documented"));
    assert!(!converted.contains("#[doc"));
}
