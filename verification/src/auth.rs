//! Users and access roles.
//!
//! Authentication and session handling are not part of the storage core:
//! the handlers are placeholders, and the role types exist to mark, in
//! the layers above, which role a request was authorized under.

use vstd::prelude::*;

verus! {

/// An account known to the system.
pub struct User {
    pub username: String,
    pub password_hash: u64,
    pub kind: UserKind,
}

/// The role of a user.
pub enum UserKind {
    Customer,
    Admin,
    Receptionist,
}

/// Marker for a request authorized as an administrator.
pub struct Admin(pub ());

/// Marker for a request authorized as a receptionist.
pub struct Receptionist(pub ());

/// Marker for a request authorized as a customer.
pub struct Customer(pub ());

/// Log a user in. Authentication is left to the layers above this core.
pub fn login() {
}

/// Log a user out.
pub fn logout() {
}

} // verus!
