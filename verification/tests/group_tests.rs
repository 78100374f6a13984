use klyv::group::group_items_by_target_file;
use klyv::item::{Function, Implementation, SourceItem, Struct, Use};

fn struct_item(name: &str, text: &str) -> SourceItem {
    SourceItem::Struct(Struct { name: name.to_string(), text: text.to_string() })
}

fn impl_item(target: Option<&str>, text: &str) -> SourceItem {
    SourceItem::Impl(Implementation {
        target_type: target.map(|t| t.to_string()),
        text: text.to_string(),
    })
}

fn fn_item(name: &str, text: &str) -> SourceItem {
    SourceItem::Function(Function { name: name.to_string(), text: text.to_string() })
}

fn use_item(text: &str) -> SourceItem {
    SourceItem::Use(Use { text: text.to_string() })
}

fn item_text(item: &SourceItem) -> &str {
    item.text().as_str()
}

#[test]
fn impl_block_is_attached_to_its_type_group() {
    let items = vec![struct_item("Foo", "struct Foo {}"), impl_item(Some("Foo"), "impl Foo { fn bar(){} }")];
    let groups = group_items_by_target_file(&items, "orig");
    assert_eq!(groups.len(), 1);
    assert_eq!(groups[0].stem, "foo");
    assert_eq!(groups[0].items.len(), 2);
    assert_eq!(item_text(&groups[0].items[0]), "struct Foo {}");
    assert_eq!(item_text(&groups[0].items[1]), "impl Foo { fn bar(){} }");
}

#[test]
fn unresolved_impl_degrades_to_origin_group() {
    let items = vec![impl_item(Some("UnknownExternalType"), "impl UnknownExternalType {}")];
    let groups = group_items_by_target_file(&items, "orig");
    assert_eq!(groups.len(), 1);
    assert_eq!(groups[0].stem, "orig");
    assert_eq!(groups[0].items.len(), 1);
    assert_eq!(item_text(&groups[0].items[0]), "impl UnknownExternalType {}");
}

#[test]
fn impl_without_target_degrades_to_origin_group() {
    let items = vec![struct_item("Foo", "struct Foo {}"), impl_item(None, "impl <opaque> {}")];
    let groups = group_items_by_target_file(&items, "orig");
    assert_eq!(groups.len(), 2);
    assert_eq!(groups[0].stem, "foo");
    assert_eq!(groups[1].stem, "orig");
    assert_eq!(groups[1].items.len(), 1);
}

#[test]
fn grouping_without_imports_keeps_every_item_exactly_once() {
    let items = vec![
        struct_item("Alpha", "struct Alpha {}"),
        fn_item("helper", "fn helper() {}"),
        struct_item("Beta", "struct Beta {}"),
        impl_item(Some("Alpha"), "impl Alpha {}"),
        impl_item(Some("Gamma"), "impl Gamma {}"),
    ];
    let groups = group_items_by_target_file(&items, "orig");
    let total: usize = groups.iter().map(|g| g.items.len()).sum();
    assert_eq!(total, items.len());
    let mut seen: Vec<String> = Vec::new();
    for g in &groups {
        for it in &g.items {
            seen.push(it.text().clone());
        }
    }
    for it in &items {
        let text = it.text();
        assert_eq!(seen.iter().filter(|s| *s == text).count(), 1);
    }
}

#[test]
fn use_statements_are_copied_in_front_of_every_type() {
    let items = vec![
        use_item("use std::fmt;"),
        struct_item("Alpha", "struct Alpha {}"),
        struct_item("Beta", "struct Beta {}"),
    ];
    let groups = group_items_by_target_file(&items, "orig");
    assert_eq!(groups.len(), 2);
    for g in &groups {
        assert_eq!(g.items.len(), 2);
        assert_eq!(item_text(&g.items[0]), "use std::fmt;");
    }
    assert_eq!(groups[0].stem, "alpha");
    assert_eq!(groups[1].stem, "beta");
}

#[test]
fn functions_go_to_the_origin_group() {
    let items = vec![fn_item("free", "fn free() {}"), struct_item("Foo", "struct Foo {}")];
    let groups = group_items_by_target_file(&items, "orig");
    assert_eq!(groups.len(), 2);
    assert_eq!(groups[0].stem, "orig");
    assert_eq!(groups[1].stem, "foo");
}
