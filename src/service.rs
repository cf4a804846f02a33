use vstd::prelude::*;
use crate::credentials::{MAX_PASSWORD_CHARS, hash_password, password_matches, random_token, verify_password};
use crate::model::{AuthError, Session, User};
use crate::store::{token_is_not, SessionKey, Store, StoreView};

verus! {

/// Characters in a session token: random letters and digits.
pub const TOKEN_LEN: usize = 32;

/// Tokens drawn for one login before a run of collisions is reported.
pub const TOKEN_ATTEMPTS: usize = 3;

/// Some user row carries `email` and accepts `password`.
pub open spec fn credentials_ok(s: StoreView, email: Seq<char>, password: Seq<char>) -> bool {
    exists|i: int|
        0 <= i < s.users.len() && #[trigger] s.users[i].email@ == email && password_matches(
            password,
            s.users[i].password_hash@,
        )
}

/// What `register(email, name, password)` does, from `s` to `t` with result `r`.
/// A taken email is refused; otherwise a row is added whose hash accepts the
/// password, unless the id space is used up or the password is too long for
/// the hasher.
pub open spec fn register_post(
    s: StoreView,
    email: String,
    name: String,
    password: Seq<char>,
    t: StoreView,
    r: Result<User, AuthError>,
) -> bool {
    if s.has_email(email@) {
        r == Err::<User, AuthError>(AuthError::DuplicateEmail) && t == s
    } else if s.next_user_id == u64::MAX {
        r == Err::<User, AuthError>(AuthError::StorageUnavailable) && t == s
    } else {
        match r {
            Ok(u) => {
                &&& t == s.with_user(email, name, t.users.last().password_hash)
                &&& password_matches(password, t.users.last().password_hash@)
                &&& u == t.users.last().profile()
            },
            Err(e) => e == AuthError::HashingFailed && password.len() > MAX_PASSWORD_CHARS && t == s,
        }
    }
}

/// What `login(email, password)` does, from `s` to `t` with result `r`.
/// Bad credentials, whether the email is unknown or the password wrong, give
/// one and the same error; good ones open a session for that user under the
/// returned token (never issued before, of `TOKEN_LEN` characters). They fail
/// only when session ids are used up, or when every token drawn had been
/// issued before, which needs some token to have been issued.
pub open spec fn login_post(
    s: StoreView,
    email: Seq<char>,
    password: Seq<char>,
    t: StoreView,
    r: Result<String, AuthError>,
) -> bool {
    if !credentials_ok(s, email, password) {
        r == Err::<String, AuthError>(AuthError::InvalidCredentials) && t == s
    } else {
        match r {
            Ok(token) => token@.len() == TOKEN_LEN && !s.was_issued(token@) && s.next_session_id
                < u64::MAX && exists|i: int|
                0 <= i < s.users.len() && #[trigger] s.users[i].email@ == email && t
                    == s.with_session(s.users[i].id, token),
            Err(e) => t == s && (e == AuthError::TokenCollision && s.issued_tokens.len() > 0 || e
                == AuthError::StorageUnavailable && s.next_session_id == u64::MAX),
        }
    }
}

/// What `authenticate(token)` returns on `s`: the owner of the session with
/// that token, or `InvalidSession` when there is none.
pub open spec fn authenticate_post(s: StoreView, token: Seq<char>, r: Result<User, AuthError>) -> bool {
    &&& (r is Ok <==> s.has_token(token))
    &&& match r {
        Ok(u) => exists|i: int, j: int|
            0 <= i < s.sessions.len() && 0 <= j < s.users.len() && #[trigger] s.sessions[i].token@
                == token && #[trigger] s.users[j].id == s.sessions[i].user_id && u
                == s.users[j].profile(),
        Err(e) => e == AuthError::InvalidSession,
    }
}

/// Registration, login and session checks over a [`Store`].
pub struct AuthService {
    store: Store,
}

impl View for AuthService {
    type V = StoreView;

    closed spec fn view(&self) -> StoreView {
        self.store@
    }
}

impl AuthService {
    pub open spec fn wf(&self) -> bool {
        self@.wf()
    }

    /// A service over an empty store.
    pub fn new() -> (r: AuthService)
        ensures
            r.wf(),
            r@.users.len() == 0,
            r@.sessions.len() == 0,
            r@.next_user_id == 1,
            r@.next_session_id == 1,
    {
        AuthService { store: Store::new() }
    }

    /// The tables behind the service.
    pub fn store(&self) -> (r: &Store)
        ensures
            r@ == self@,
    {
        &self.store
    }

    /// Creates a user whose stored credential is an Argon2 hash of `password`.
    pub fn register(&mut self, email: String, name: String, password: &str) -> (r: Result<
        User,
        AuthError,
    >)
        requires
            old(self).wf(),
        ensures
            final(self).wf(),
            register_post(old(self)@, email, name, password@, final(self)@, r),
    {
        if self.store.email_index(email.as_str()).is_some() {
            return Err(AuthError::DuplicateEmail);
        }
        if !self.store.has_user_ids_left() {
            return Err(AuthError::StorageUnavailable);
        }
        match hash_password(password) {
            None => Err(AuthError::HashingFailed),
            Some(hash) => {
                let ghost h = hash;
                let r = self.store.create_user(email, name, hash);
                proof {
                    assert(self@.users.last() == old(self)@.with_user(email, name, h).users.last());
                }
                r
            },
        }
    }

    /// Checks the credentials and, when they hold, opens a session and
    /// returns its token.
    pub fn login(&mut self, email: &str, password: &str) -> (r: Result<String, AuthError>)
        requires
            old(self).wf(),
        ensures
            final(self).wf(),
            login_post(old(self)@, email@, password@, final(self)@, r),
    {
        let i = match self.store.email_index(email) {
            Some(i) => i,
            None => {
                // Spend the same hashing work as a real check, so that an
                // unknown email takes as long as a wrong password.
                let _ = hash_password(password);
                return Err(AuthError::InvalidCredentials);
            },
        };
        let record = self.store.user_at(i);
        if !verify_password(password, record.password_hash.as_str()) {
            proof {
                assert forall|j: int|
                    0 <= j < self@.users.len() && #[trigger] self@.users[j].email@ == email@ implies !password_matches(
                    password@,
                    self@.users[j].password_hash@,
                ) by {
                    if j != i {
                        assert(self@.users[j].email@ != self@.users[i as int].email@);
                    }
                }
            }
            return Err(AuthError::InvalidCredentials);
        }
        let user_id = record.id;
        proof {
            assert(self@.users[i as int].id == user_id);
            assert(self@.has_user(user_id));
        }
        let mut attempts: usize = 0;
        while attempts < TOKEN_ATTEMPTS
            invariant
                self@ == old(self)@,
                self.wf(),
                self@.has_user(user_id),
                credentials_ok(self@, email@, password@),
                i < self@.users.len(),
                self@.users[i as int].email@ == email@,
                self@.users[i as int].id == user_id,
                attempts > 0 ==> self@.issued_tokens.len() > 0,
            decreases TOKEN_ATTEMPTS - attempts,
        {
            let token = random_token(TOKEN_LEN);
            let issued = token.clone();
            match self.store.create_session(user_id, token) {
                Ok(_) => {
                    return Ok(issued);
                },
                Err(AuthError::TokenCollision) => {},
                Err(e) => {
                    return Err(e);
                },
            }
            attempts += 1;
        }
        Err(AuthError::TokenCollision)
    }

    /// The user that owns the session with this token.
    pub fn authenticate(&self, token: &str) -> (r: Result<User, AuthError>)
        requires
            self.wf(),
        ensures
            authenticate_post(self@, token@, r),
    {
        match self.store.token_index(token) {
            None => Err(AuthError::InvalidSession),
            Some(i) => {
                let user_id = self.store.session_at(i).user_id;
                proof {
                    assert(self@.has_user(self@.sessions[i as int].user_id));
                }
                match self.store.find_user_by_id(user_id) {
                    Some(u) => Ok(u),
                    None => Err(AuthError::InvalidSession),
                }
            },
        }
    }

    /// Ends the session with this token; an unknown token is no error.
    pub fn logout(&mut self, token: &str)
        requires
            old(self).wf(),
        ensures
            final(self).wf(),
            final(self)@ == old(self)@.without_token(token@),
    {
        let key = SessionKey::Token(token.to_owned());
        self.store.remove_sessions(&key);
        proof {
            assert((|s: Session| !key.selects(s)) =~= token_is_not(token@));
        }
    }

    /// Deletes the user and, in the same step, every session of theirs.
    pub fn delete_account(&mut self, user_id: u64)
        requires
            old(self).wf(),
        ensures
            final(self).wf(),
            final(self)@ == old(self)@.without_user(user_id),
    {
        self.store.delete_user(user_id);
    }
}

} // verus!
