//! Users of the terminal. Password hashing and token issuance happen
//! outside the engine; the store only keeps the hash it is handed.
use vstd::prelude::*;
use crate::product::clone_opt_string;

verus! {

/// A user role is either `admin` or `cashier`.
pub open spec fn is_valid_role(role: Seq<char>) -> bool {
    role == "admin"@ || role == "cashier"@
}

#[derive(Debug)]
pub struct User {
    pub id: u64,
    pub username: String,
    pub full_name: String,
    /// `admin` or `cashier`.
    pub role: String,
    pub active: bool,
    pub created_at: u64,
    pub updated_at: u64,
}

impl User {
    /// A field-for-field copy.
    pub fn duplicate(&self) -> (r: User)
        ensures
            r == *self,
    {
        User {
            id: self.id,
            username: self.username.clone(),
            full_name: self.full_name.clone(),
            role: self.role.clone(),
            active: self.active,
            created_at: self.created_at,
            updated_at: self.updated_at,
        }
    }
}

pub struct CreateUserRequest {
    pub username: String,
    /// Already hashed by the caller; the store never sees a plain password.
    pub password: String,
    pub full_name: String,
    pub role: String,
}

pub struct UpdateUserRequest {
    pub id: u64,
    pub username: Option<String>,
    pub password: Option<String>,
    pub full_name: Option<String>,
    pub role: Option<String>,
    pub active: Option<bool>,
}

pub struct LoginRequest {
    pub username: String,
    pub password: String,
}

#[derive(Debug)]
pub struct LoginResponse {
    pub user: User,
    pub token: String,
}

} // verus!
