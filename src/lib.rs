//! Session-based authentication over a small in-memory relational store.
//!
//! The store keeps two tables, users and sessions, with unique emails, unique
//! session tokens and a cascading foreign key from sessions to users. The
//! service on top of it registers users, checks credentials with Argon2,
//! issues random bearer tokens, resolves them back to users and revokes them.
pub mod credentials;
pub mod guarantees;
pub mod model;
pub mod service;
pub mod store;

pub use model::{AuthError, CreateUserRequest, GreetingResponse, Session, User, UserRecord};
pub use service::{AuthService, TOKEN_ATTEMPTS, TOKEN_LEN};
pub use store::{SessionKey, Store, StoreView};
