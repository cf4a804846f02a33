use vstd::prelude::*;

verus! {

/// The outcome kinds that the store and the service report.
#[derive(Debug, Clone, Copy, PartialEq, Eq, Structural)]
pub enum AuthError {
    /// A user with this email already exists.
    DuplicateEmail,
    /// The email is unknown or the password does not match it.
    InvalidCredentials,
    /// No live session carries this token.
    InvalidSession,
    /// A session was requested for a user id that does not exist.
    UnknownUser,
    /// A freshly drawn token is already held by another session.
    TokenCollision,
    /// The store cannot take another record (its identifier space is used up).
    StorageUnavailable,
    /// The password hasher refused the password.
    HashingFailed,
}

/// Public profile of a user, as handed to callers (never the password hash).
#[derive(Debug)]
pub struct User {
    pub id: u64,
    pub name: String,
    pub email: String,
}

/// A row of the users table.
#[derive(Debug)]
pub struct UserRecord {
    pub id: u64,
    pub email: String,
    pub name: String,
    pub password_hash: String,
}

/// A row of the sessions table: a bearer token bound to one user.
#[derive(Debug)]
pub struct Session {
    pub id: u64,
    pub token: String,
    pub user_id: u64,
}

/// Body of a greeting reply.
#[derive(Debug)]
pub struct GreetingResponse {
    pub message: String,
}

/// Body of a request that creates a user.
#[derive(Debug)]
pub struct CreateUserRequest {
    pub name: String,
    pub email: String,
}

impl UserRecord {
    /// The profile that this row shows to callers.
    pub open spec fn profile(self) -> User {
        User { id: self.id, name: self.name, email: self.email }
    }

    /// Copies the public fields of the row.
    pub fn to_user(&self) -> (r: User)
        ensures
            r == self.profile(),
    {
        User { id: self.id, name: self.name.clone(), email: self.email.clone() }
    }
}

impl Session {
    /// A field-by-field copy of the row.
    pub fn duplicate(&self) -> (r: Session)
        ensures
            r == *self,
    {
        Session { id: self.id, token: self.token.clone(), user_id: self.user_id }
    }
}

impl GreetingResponse {
    /// The greeting that the service root answers with.
    pub fn hello() -> (r: GreetingResponse)
        ensures
            r.message@ == "Hello world!"@,
    {
        GreetingResponse { message: String::from_str("Hello world!") }
    }
}

} // verus!
