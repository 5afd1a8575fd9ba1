//! The user records the service exchanges at its boundary. Registration and
//! password hashing themselves are external collaborators; these types
//! carry their data, and the secrets among their fields stay private.

use vstd::prelude::*;

verus! {

/// A stored user row, hash included; the hash never leaves the type except
/// through its explicit accessor.
#[derive(Debug)]
pub struct User {
    pub id: u128,
    pub first_name: String,
    pub last_name: String,
    pub email: String,
    password_hash: String,
}

impl User {
    /// The row's identifier, for contracts.
    pub closed spec fn spec_id(&self) -> u128 {
        self.id
    }

    /// The row's visible names and address, for contracts.
    pub closed spec fn spec_names(&self) -> (Seq<char>, Seq<char>, Seq<char>) {
        (self.first_name@, self.last_name@, self.email@)
    }

    /// Builds a user row.
    pub fn new(
        id: u128,
        first_name: String,
        last_name: String,
        email: String,
        password_hash: String,
    ) -> (r: User)
        ensures
            r.spec_id() == id,
            r.spec_names() == (first_name@, last_name@, email@),
            r.password_hash_view() == password_hash@,
    {
        User { id, first_name, last_name, email, password_hash }
    }

    /// The stored hash, for credential checking.
    pub closed spec fn password_hash_view(&self) -> Seq<char> {
        self.password_hash@
    }

    /// The stored hash, for credential checking.
    pub fn password_hash(&self) -> (r: &str)
        ensures
            r@ == self.password_hash_view(),
    {
        self.password_hash.as_str()
    }
}

/// The client-facing projection of a user: no hash.
#[derive(Debug)]
pub struct UserClient {
    pub id: u128,
    pub first_name: String,
    pub last_name: String,
    pub email: String,
}

/// A registration request; the plain password stays private.
#[derive(Debug)]
pub struct NewUser {
    pub first_name: String,
    pub last_name: String,
    pub email: String,
    password: String,
}

impl NewUser {
    /// The request's visible names and address, for contracts.
    pub closed spec fn spec_names(&self) -> (Seq<char>, Seq<char>, Seq<char>) {
        (self.first_name@, self.last_name@, self.email@)
    }

    /// Builds a registration request.
    pub fn new(first_name: String, last_name: String, email: String, password: String) -> (r:
        NewUser)
        ensures
            r.spec_names() == (first_name@, last_name@, email@),
            r.password_view() == password@,
    {
        NewUser { first_name, last_name, email, password }
    }

    /// The plain password, for hashing at registration.
    pub closed spec fn password_view(&self) -> Seq<char> {
        self.password@
    }

    /// The plain password, for hashing at registration.
    pub fn password(&self) -> (r: &str)
        ensures
            r@ == self.password_view(),
    {
        self.password.as_str()
    }
}

/// A client-facing user together with a freshly issued credential.
#[derive(Debug)]
pub struct UserWithToken {
    pub user: UserClient,
    pub token: String,
}

/// A login request.
#[derive(Debug)]
pub struct LoginRequest {
    pub email: String,
    pub password: String,
}

} // verus!
