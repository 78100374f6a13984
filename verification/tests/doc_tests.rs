use klyv::doc::convert_doc_attributes_to_comments;

#[test]
fn doc_attribute_becomes_doc_comment() {
    let input = "#[doc = \" Hello\"]\nfn x() {}\n";
    assert_eq!(convert_doc_attributes_to_comments(input), "/// Hello\nfn x() {}\n");
}

#[test]
fn several_doc_attributes_are_all_converted() {
    let input = "#[doc = \" One\"]\n#[doc = \" Two\"]\nstruct S;\n";
    assert_eq!(convert_doc_attributes_to_comments(input), "/// One\n/// Two\nstruct S;\n");
}

#[test]
fn whitespace_between_hash_and_bracket_is_accepted() {
    let input = "# [doc = \" Spaced\"]\n";
    assert_eq!(convert_doc_attributes_to_comments(input), "/// Spaced\n");
}

#[test]
fn other_attributes_pass_through_unchanged() {
    let input = "#[derive(Debug)]\nstruct S;\n";
    assert_eq!(convert_doc_attributes_to_comments(input), input);
}

#[test]
fn unclosed_doc_attribute_passes_through_unchanged() {
    let input = "#[doc = \" no closing quote\n";
    assert_eq!(convert_doc_attributes_to_comments(input), input);
}

#[test]
fn plain_text_is_copied_verbatim() {
    let input = "fn main() { println!(\"# not an attribute\"); }\n";
    assert_eq!(convert_doc_attributes_to_comments(input), input);
}
