use std::collections::HashMap;

use klyv::error::Error;
use klyv::samples::basic::{AaaaEnum, AaaaStructB, MagicTrait};
use klyv::samples::binary::{ArgumentParser, CliConfig, Document, ProcessingError, validate_input};
use klyv::samples::formatting::{test_function, TestStruct};
use klyv::samples::generic::global_gen_magic;
use klyv::samples::library::{
    activate_user, create_user, find_user_by_id, get_user_count, validate_email, Role, User,
    Validatable,
};
use klyv::samples::nested::{DeepFoo, DeepFoobar};
use klyv::samples::spacing::MyStruct;

#[test]
fn magic_numbers_are_forty_two() {
    assert_eq!(AaaaStructB::magic(), 42);
    assert_eq!(AaaaEnum::magic(), 42);
    assert_eq!(AaaaEnum::more_magic(), 42);
    assert_eq!(test_function(), 42);
    let mut b = AaaaStructB::new();
    assert_eq!(b.magic_self_ref(), 42);
    assert_eq!(b.magic_self_ref_mut(), 42);
    assert_eq!(b.magic_self_ref_arg(7), 7);
    assert_eq!(b.magic_self(), 42);
}

#[test]
fn trait_magic_numbers_are_forty_two() {
    let mut b = AaaaStructB::new();
    assert_eq!(AaaaStructB::trait_magic(), 42);
    assert_eq!(b.trait_magic_self_ref(), 42);
    assert_eq!(b.trait_magic_self_ref_mut(), 42);
    assert_eq!(b.trait_magic_self_ref_arg(9), 9);
    assert_eq!(b.trait_magic_self(), 42);
}

#[test]
fn generic_magic_hands_its_argument_back() {
    assert_eq!(global_gen_magic(5u8), 5);
    assert_eq!(global_gen_magic("text"), "text");
    let _ = TestStruct::new(1u32);
}

#[test]
fn created_users_keep_their_details() {
    let user = create_user("Ada".to_string(), "ada@example.com".to_string(), Role::Admin);
    assert_eq!(user.name, "Ada");
    assert_eq!(user.email, "ada@example.com");
    assert_eq!(user.role, Role::Admin);
    assert!(user.is_valid());
    let mut copy = user.clone();
    activate_user(&mut copy);
    assert_eq!(copy, user);
}

#[test]
fn email_validation_checks_shape_and_length() {
    assert!(validate_email("a@b.com"));
    assert!(!validate_email("a@b."));
    assert!(!validate_email("nodotsign"));
    assert!(!validate_email("a.b.com"));
}

#[test]
fn user_lookup_matches_the_map() {
    let mut users: HashMap<u32, User> = HashMap::new();
    let user = User {
        id: 7,
        name: "Ada".to_string(),
        email: "ada@example.com".to_string(),
        role: Role::User,
    };
    users.insert(7, user);
    assert_eq!(get_user_count(&users), 1);
    assert_eq!(find_user_by_id(&users, 7).unwrap().id(), 7);
    assert!(find_user_by_id(&users, 8).is_none());
}

#[test]
fn cli_config_defaults_and_updates() {
    let config = CliConfig::new();
    assert!(!config.verbose);
    assert_eq!(config.output_path, ".");
    assert!(config.input_files.is_empty());
    let verbose = config.with_verbose(true);
    assert!(verbose.verbose);
    assert_eq!(verbose.output_path, ".");

    let parser = ArgumentParser { args: vec!["app".to_string()] };
    let parsed = parser.parse().unwrap();
    assert!(!parsed.verbose);
}

#[test]
fn documents_start_with_empty_metadata() {
    let doc = Document::new("Title".to_string(), "Body".to_string());
    assert_eq!(doc.title, "Title");
    assert_eq!(doc.content, "Body");
    assert!(doc.metadata.created_at.is_none());
    assert!(doc.metadata.author.is_none());
    assert!(doc.metadata.tags.is_empty());
}

#[test]
fn empty_input_is_rejected_with_a_validation_error() {
    match validate_input("") {
        Err(ProcessingError::ValidationError(msg)) => {
            assert_eq!(msg, "Input cannot be empty");
        }
        _ => panic!("empty input must be rejected"),
    }
    assert!(validate_input("something").is_ok());
}

#[test]
fn nested_sample_constructors() {
    let foo = DeepFoo::new();
    assert!(matches!(foo, DeepFoo::Variant1));
    let foobar = DeepFoobar::new(DeepFoo::new());
    assert!(matches!(foobar.foo, DeepFoo::Variant1));
    let s = MyStruct::new(3, "x".to_string());
    assert_eq!(s.field1, 3);
    assert_eq!(s.field2, "x");
}

#[test]
fn errors_carry_their_message() {
    let e = Error::bail("something went wrong");
    assert_eq!(e.message(), "something went wrong");
    let f = Error::from("rendered".to_string());
    assert_eq!(f.message(), "rendered");
}
