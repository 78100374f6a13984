use klyv::stem::to_file_stem;

#[test]
fn pascal_case_becomes_snake_case() {
    assert_eq!(to_file_stem("MyHttpClient"), "my_http_client");
    assert_eq!(to_file_stem("AaaaStructB"), "aaaa_struct_b");
    assert_eq!(to_file_stem("AbAStructA"), "ab_astruct_a");
    assert_eq!(to_file_stem("User"), "user");
}

#[test]
fn consecutive_uppercase_gets_no_interleaved_underscores() {
    assert_eq!(to_file_stem("HTTPClient"), "httpclient");
    assert_eq!(to_file_stem("ABC"), "abc");
}

#[test]
fn caseless_input_is_returned_unchanged() {
    assert_eq!(to_file_stem(""), "");
    assert_eq!(to_file_stem("already_snake_case"), "already_snake_case");
    assert_eq!(to_file_stem("with numbers 123"), "with numbers 123");
}

#[test]
fn stem_derivation_is_idempotent() {
    let inputs = ["MyHttpClient", "HTTPClient", "ABC", "", "already_snake", "AaaaStructB"];
    for input in inputs {
        let once = to_file_stem(input);
        let twice = to_file_stem(&once);
        assert_eq!(once, twice);
    }
}
