//! A sample library entry point: user records, their roles, and the free
//! functions managing them.

use std::collections::HashMap;
use std::time::SystemTime;
use std::time::UNIX_EPOCH;
use vstd::prelude::*;

verus! {

/// A user entity with authentication capabilities
#[derive(Debug, Clone, PartialEq)]
pub struct User {
    pub id: u32,
    pub name: String,
    pub email: String,
    pub role: Role,
}

/// User roles in the system
#[derive(Debug, Clone, PartialEq)]
pub enum Role {
    Admin,
    User,
    Guest,
}

/// Current status of a user
#[derive(Debug)]
pub enum Status {
    Active,
    Inactive,
    Pending,
    Suspended,
}

/// Trait for items that can be validated
pub trait Validatable {
    fn is_valid(&self) -> bool;
}

impl User {
    /// The identifier of the user.
    pub fn id(&self) -> (r: u32)
        ensures
            r == self.id,
    {
        self.id
    }
}

impl Validatable for User {
    /// A user is valid when it has a name and its email carries an `@`.
    fn is_valid(&self) -> bool {
        !self.name.as_str().is_empty() && crate::text::str_contains_char(
            self.email.as_str(),
            '@',
        )
    }
}

/// Relies on `std::time::SystemTime`: the seconds since the epoch,
/// truncated to 32 bits; zero when the clock stands before the epoch. The
/// result depends on the clock, so nothing more is promised of it.
#[verifier::external_body]
fn generate_id() -> u32 {
    match SystemTime::now().duration_since(UNIX_EPOCH) {
        Ok(d) => d.as_secs() as u32,
        Err(_) => 0,
    }
}

/// Creates a new user with the given details; the identifier is drawn
/// from the clock.
pub fn create_user(name: String, email: String, role: Role) -> (r: User)
    ensures
        r.name == name,
        r.email == email,
        r.role == role,
{
    User { id: generate_id(), name, email, role }
}

/// Validates an email address format: it holds an `@` and a dot and is
/// longer than five bytes.
pub fn validate_email(email: &str) -> (r: bool)
    ensures
        r == (email@.contains('@') && email@.contains('.') && email.len() > 5),
{
    crate::text::str_contains_char(email, '@') && crate::text::str_contains_char(email, '.')
        && email.len() > 5
}

/// Gets the count of users in a collection
pub fn get_user_count(users: &HashMap<u32, User>) -> (r: usize)
    ensures
        r == users@.len(),
{
    proof {
        broadcast use vstd::std_specs::hash::group_hash_axioms;

    }
    users.len()
}

/// Finds a user by their ID
pub fn find_user_by_id<'a>(users: &'a HashMap<u32, User>, id: u32) -> (r: Option<&'a User>)
    ensures
        match r {
            Some(u) => users@.contains_key(id) && *u == users@[id],
            None => !users@.contains_key(id),
        },
{
    proof {
        broadcast use vstd::std_specs::hash::group_hash_axioms;

    }
    users.get(&id)
}

/// Activates a user account; the record itself is left as it is.
pub fn activate_user(user: &mut User)
    ensures
        *final(user) == *old(user),
{
}

} // verus!
