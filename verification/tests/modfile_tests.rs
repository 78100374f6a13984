use klyv::modfile::{
    combine_module_lists, parse_module_declarations, render_module_listing,
    synthesize_module_listing,
};

fn strings(v: &[&str]) -> Vec<String> {
    v.iter().map(|s| s.to_string()).collect()
}

#[test]
fn renders_declarations_then_reexports() {
    let out = render_module_listing(&strings(&["a", "b"]));
    assert_eq!(out, "mod a;\nmod b;\n\npub use a::*;\npub use b::*;\n");
}

#[test]
fn parses_only_mod_declaration_lines() {
    let content = "mod a;\n  mod b;\n\npub use a::*;\n// a comment\nmod c\nmod d;";
    let stems = parse_module_declarations(content);
    assert_eq!(stems, strings(&["a", "b", "d"]));
}

#[test]
fn merged_listing_is_the_sorted_union() {
    let existing = strings(&["a", "c"]);
    let new = strings(&["b", "c"]);
    let merged = combine_module_lists(existing, new);
    assert_eq!(merged, strings(&["a", "b", "c"]));
}

#[test]
fn synthesized_listing_merges_a_pre_existing_listing() {
    let existing = "mod a;\nmod c;\n\npub use a::*;\npub use c::*;\n";
    let out = synthesize_module_listing(Some(existing), &strings(&["b", "c"]));
    assert_eq!(out, "mod a;\nmod b;\nmod c;\n\npub use a::*;\npub use b::*;\npub use c::*;\n");
}

#[test]
fn synthesizing_twice_is_byte_identical() {
    let new = strings(&["delta", "alpha", "charlie"]);
    let once = synthesize_module_listing(None, &new);
    let twice = synthesize_module_listing(Some(&once), &new);
    assert_eq!(once, twice);
    let thrice = synthesize_module_listing(Some(&twice), &new);
    assert_eq!(twice, thrice);
}

#[test]
fn synthesizing_without_existing_listing_sorts_and_dedups() {
    let out = synthesize_module_listing(None, &strings(&["b", "a", "b"]));
    assert_eq!(out, "mod a;\nmod b;\n\npub use a::*;\npub use b::*;\n");
}
