use vstd::prelude::*;
use crate::model::{AuthError, Session, User, UserRecord};

verus! {

broadcast use vstd::seq_lib::group_filter_ensures;

/// The contents of a [`Store`]: both tables in insertion order, the next
/// identifier that each table hands out, and every token ever issued (live or
/// revoked), oldest first.
pub struct StoreView {
    pub users: Seq<UserRecord>,
    pub sessions: Seq<Session>,
    pub next_user_id: u64,
    pub next_session_id: u64,
    pub issued_tokens: Seq<String>,
}

impl StoreView {
    pub open spec fn has_email(self, email: Seq<char>) -> bool {
        exists|i: int| 0 <= i < self.users.len() && #[trigger] self.users[i].email@ == email
    }

    pub open spec fn has_user(self, id: u64) -> bool {
        exists|i: int| 0 <= i < self.users.len() && #[trigger] self.users[i].id == id
    }

    pub open spec fn has_token(self, token: Seq<char>) -> bool {
        exists|i: int| 0 <= i < self.sessions.len() && #[trigger] self.sessions[i].token@ == token
    }

    /// Some session, live or revoked, was issued under this token.
    pub open spec fn was_issued(self, token: Seq<char>) -> bool {
        exists|i: int| 0 <= i < self.issued_tokens.len() && #[trigger] self.issued_tokens[i]@ == token
    }

    /// Emails, user ids, tokens and session ids are unique, identifiers are
    /// below the next ones handed out, and every session belongs to a live user
    /// and carries an issued token.
    pub open spec fn wf(self) -> bool {
        &&& forall|i: int, j: int|
            0 <= i < self.users.len() && 0 <= j < self.users.len() && i != j ==> #[trigger] self.users[i].email@
                != #[trigger] self.users[j].email@ && self.users[i].id != self.users[j].id
        &&& forall|i: int| 0 <= i < self.users.len() ==> (#[trigger] self.users[i]).id < self.next_user_id
        &&& forall|i: int, j: int|
            0 <= i < self.sessions.len() && 0 <= j < self.sessions.len() && i != j ==> #[trigger] self.sessions[i].token@
                != #[trigger] self.sessions[j].token@ && self.sessions[i].id != self.sessions[j].id
        &&& forall|i: int|
            0 <= i < self.sessions.len() ==> (#[trigger] self.sessions[i]).id < self.next_session_id
                && self.has_user(self.sessions[i].user_id) && self.was_issued(self.sessions[i].token@)
    }

    /// The store after a new user row with the next user id is appended.
    pub open spec fn with_user(self, email: String, name: String, password_hash: String) -> StoreView {
        StoreView {
            users: self.users.push(
                UserRecord { id: self.next_user_id, email, name, password_hash },
            ),
            next_user_id: (self.next_user_id + 1) as u64,
            ..self
        }
    }

    /// The store after a new session row with the next session id is appended
    /// and its token recorded as issued.
    pub open spec fn with_session(self, user_id: u64, token: String) -> StoreView {
        StoreView {
            sessions: self.sessions.push(Session { id: self.next_session_id, token, user_id }),
            next_session_id: (self.next_session_id + 1) as u64,
            issued_tokens: self.issued_tokens.push(token),
            ..self
        }
    }

    /// The store after the user `id` and, by cascade, all of its sessions are gone.
    pub open spec fn without_user(self, id: u64) -> StoreView {
        StoreView {
            users: self.users.filter(|u: UserRecord| u.id != id),
            sessions: self.sessions.filter(|s: Session| s.user_id != id),
            ..self
        }
    }

    /// The store after the session carrying `token`, if any, is gone.
    pub open spec fn without_token(self, token: Seq<char>) -> StoreView {
        StoreView { sessions: self.sessions.filter(token_is_not(token)), ..self }
    }

    /// The store after the sessions that `key` selects are gone.
    pub open spec fn without_sessions(self, key: SessionKey) -> StoreView {
        StoreView { sessions: self.sessions.filter(|s: Session| !key.selects(s)), ..self }
    }
}

/// Holds of the sessions whose token is not `token`.
pub open spec fn token_is_not(token: Seq<char>) -> spec_fn(Session) -> bool {
    |s: Session| s.token@ != token
}

/// Selects the sessions to delete: by session id, by token, or by owner.
pub enum SessionKey {
    Id(u64),
    Token(String),
    User(u64),
}

impl SessionKey {
    pub open spec fn selects(self, s: Session) -> bool {
        match self {
            SessionKey::Id(id) => s.id == id,
            SessionKey::Token(t) => s.token@ == t@,
            SessionKey::User(u) => s.user_id == u,
        }
    }

    fn test(&self, s: &Session) -> (r: bool)
        ensures
            r == self.selects(*s),
    {
        match self {
            SessionKey::Id(id) => s.id == *id,
            SessionKey::Token(t) => s.token == *t,
            SessionKey::User(u) => s.user_id == *u,
        }
    }
}

/// The users and sessions tables.
pub struct Store {
    users: Vec<UserRecord>,
    sessions: Vec<Session>,
    next_user_id: u64,
    next_session_id: u64,
    issued_tokens: Vec<String>,
}

impl View for Store {
    type V = StoreView;

    closed spec fn view(&self) -> StoreView {
        StoreView {
            users: self.users@,
            sessions: self.sessions@,
            next_user_id: self.next_user_id,
            next_session_id: self.next_session_id,
            issued_tokens: self.issued_tokens@,
        }
    }
}

proof fn lemma_filter_step<A>(s: Seq<A>, i: int, p: spec_fn(A) -> bool)
    requires
        0 <= i < s.len(),
    ensures
        s.subrange(0, i + 1).filter(p) == (if p(s[i]) {
            s.subrange(0, i).filter(p).push(s[i])
        } else {
            s.subrange(0, i).filter(p)
        }),
{
    reveal(Seq::filter);
    assert(s.subrange(0, i + 1).drop_last() =~= s.subrange(0, i));
}


proof fn lemma_issued_kept(v: StoreView, w: StoreView, token: Seq<char>)
    requires
        v.issued_tokens == w.issued_tokens,
        v.was_issued(token),
    ensures
        w.was_issued(token),
{
    let j = choose|j: int| 0 <= j < v.issued_tokens.len() && #[trigger] v.issued_tokens[j]@ == token;
    assert(w.issued_tokens[j]@ == token);
}

pub(crate) proof fn lemma_with_user_wf(v: StoreView, email: String, name: String, password_hash: String)
    requires
        v.wf(),
        !v.has_email(email@),
        v.next_user_id < u64::MAX,
    ensures
        v.with_user(email, name, password_hash).wf(),
{
    let w = v.with_user(email, name, password_hash);
    let n = v.users.len();
    assert forall|i: int, j: int|
        0 <= i < w.users.len() && 0 <= j < w.users.len() && i != j implies #[trigger] w.users[i].email@
        != #[trigger] w.users[j].email@ && w.users[i].id != w.users[j].id by {
        if i < n && j < n {
            assert(v.users[i] == w.users[i] && v.users[j] == w.users[j]);
            assert(v.users[i].email@ != v.users[j].email@);
        } else if i < n {
            assert(v.users[i] == w.users[i]);
            assert(v.users[i].email@ != email@);
            assert(v.users[i].id < v.next_user_id);
        } else {
            assert(v.users[j] == w.users[j]);
            assert(v.users[j].email@ != email@);
            assert(v.users[j].id < v.next_user_id);
        }
    }
    assert forall|k: int| 0 <= k < w.sessions.len() implies w.has_user(
        #[trigger] w.sessions[k].user_id,
    ) by {
        assert(v.sessions[k] == w.sessions[k]);
        assert(v.has_user(v.sessions[k].user_id));
        let j = choose|j: int| 0 <= j < n && #[trigger] v.users[j].id == v.sessions[k].user_id;
        assert(w.users[j] == v.users[j]);
    }
    assert forall|k: int| 0 <= k < w.sessions.len() implies w.was_issued(
        (#[trigger] w.sessions[k]).token@,
    ) by {
        assert(v.sessions[k] == w.sessions[k]);
        assert(v.was_issued(v.sessions[k].token@));
        lemma_issued_kept(v, w, v.sessions[k].token@);
    }
    assert forall|i: int| 0 <= i < w.users.len() implies (#[trigger] w.users[i]).id < w.next_user_id by {
        if i < n {
            assert(v.users[i] == w.users[i]);
        }
    }
}

pub(crate) proof fn lemma_with_session_wf(v: StoreView, user_id: u64, token: String)
    requires
        v.wf(),
        v.has_user(user_id),
        !v.was_issued(token@),
        v.next_session_id < u64::MAX,
    ensures
        v.with_session(user_id, token).wf(),
{
    let w = v.with_session(user_id, token);
    let n = v.sessions.len();
    assert forall|i: int| 0 <= i < n implies (#[trigger] v.sessions[i]).token@ != token@ by {
        assert(v.was_issued(v.sessions[i].token@));
    }
    assert forall|i: int, j: int|
        0 <= i < w.sessions.len() && 0 <= j < w.sessions.len() && i != j implies #[trigger] w.sessions[i].token@
        != #[trigger] w.sessions[j].token@ && w.sessions[i].id != w.sessions[j].id by {
        if i < n && j < n {
            assert(v.sessions[i] == w.sessions[i] && v.sessions[j] == w.sessions[j]);
            assert(v.sessions[i].token@ != v.sessions[j].token@);
        } else if i < n {
            assert(v.sessions[i] == w.sessions[i]);
            assert(v.sessions[i].token@ != token@);
            assert(v.sessions[i].id < v.next_session_id);
        } else {
            assert(v.sessions[j] == w.sessions[j]);
            assert(v.sessions[j].token@ != token@);
            assert(v.sessions[j].id < v.next_session_id);
        }
    }
    assert forall|k: int| 0 <= k < w.sessions.len() implies (#[trigger] w.sessions[k]).id
        < w.next_session_id && w.has_user(w.sessions[k].user_id) && w.was_issued(
        w.sessions[k].token@,
    ) by {
        assert(w.users == v.users);
        if k < n {
            assert(v.sessions[k] == w.sessions[k]);
            assert(v.has_user(v.sessions[k].user_id));
            assert(v.was_issued(v.sessions[k].token@));
            let j = choose|j: int|
                0 <= j < v.issued_tokens.len() && #[trigger] v.issued_tokens[j]@
                    == v.sessions[k].token@;
            assert(w.issued_tokens[j] == v.issued_tokens[j]);
        } else {
            assert(w.sessions[k].user_id == user_id);
            assert(w.issued_tokens[v.issued_tokens.len() as int] == token);
        }
    }
}

impl Store {
    pub open spec fn wf(&self) -> bool {
        self@.wf()
    }

    /// An empty store.
    pub fn new() -> (r: Store)
        ensures
            r.wf(),
            r@.users.len() == 0,
            r@.sessions.len() == 0,
            r@.next_user_id == 1,
            r@.next_session_id == 1,
            r@.issued_tokens.len() == 0,
    {
        Store {
            users: Vec::new(),
            sessions: Vec::new(),
            next_user_id: 1,
            next_session_id: 1,
            issued_tokens: Vec::new(),
        }
    }

    /// Position of the user row with this email, if any.
    pub(crate) fn email_index(&self, email: &str) -> (r: Option<usize>)
        ensures
            r is None <==> !self@.has_email(email@),
            r matches Some(i) ==> i < self@.users.len() && self@.users[i as int].email@ == email@,
    {
        let wanted = email.to_owned();
        let mut i: usize = 0;
        while i < self.users.len()
            invariant
                i <= self.users.len(),
                wanted@ == email@,
                forall|k: int| 0 <= k < i ==> #[trigger] self.users@[k].email@ != email@,
            decreases self.users.len() - i,
        {
            if self.users[i].email == wanted {
                assert(self@.users[i as int].email@ == email@);
                return Some(i);
            }
            i += 1;
        }
        None
    }

    /// Position of the user row with this id, if any.
    pub(crate) fn id_index(&self, id: u64) -> (r: Option<usize>)
        ensures
            r is None <==> !self@.has_user(id),
            r matches Some(i) ==> i < self@.users.len() && self@.users[i as int].id == id,
    {
        let mut i: usize = 0;
        while i < self.users.len()
            invariant
                i <= self.users.len(),
                forall|k: int| 0 <= k < i ==> #[trigger] self.users@[k].id != id,
            decreases self.users.len() - i,
        {
            if self.users[i].id == id {
                assert(self@.users[i as int].id == id);
                return Some(i);
            }
            i += 1;
        }
        None
    }

    /// Position of the session row with this token, if any.
    pub(crate) fn token_index(&self, token: &str) -> (r: Option<usize>)
        ensures
            r is None <==> !self@.has_token(token@),
            r matches Some(i) ==> i < self@.sessions.len() && self@.sessions[i as int].token@
                == token@,
    {
        let wanted = token.to_owned();
        let mut i: usize = 0;
        while i < self.sessions.len()
            invariant
                i <= self.sessions.len(),
                wanted@ == token@,
                forall|k: int| 0 <= k < i ==> #[trigger] self.sessions@[k].token@ != token@,
            decreases self.sessions.len() - i,
        {
            if self.sessions[i].token == wanted {
                assert(self@.sessions[i as int].token@ == token@);
                return Some(i);
            }
            i += 1;
        }
        None
    }

    /// Inserts a user row. The email must not be taken yet.
    pub fn create_user(&mut self, email: String, name: String, password_hash: String) -> (r: Result<
        User,
        AuthError,
    >)
        requires
            old(self).wf(),
        ensures
            final(self).wf(),
            old(self)@.has_email(email@) ==> r == Err::<User, AuthError>(AuthError::DuplicateEmail)
                && final(self)@ == old(self)@,
            !old(self)@.has_email(email@) && old(self)@.next_user_id == u64::MAX ==> r == Err::<
                User,
                AuthError,
            >(AuthError::StorageUnavailable) && final(self)@ == old(self)@,
            !old(self)@.has_email(email@) && old(self)@.next_user_id < u64::MAX ==> final(self)@
                == old(self)@.with_user(email, name, password_hash) && r == Ok::<User, AuthError>(
                final(self)@.users.last().profile(),
            ),
    {
        if self.email_index(email.as_str()).is_some() {
            return Err(AuthError::DuplicateEmail);
        }
        if self.next_user_id == u64::MAX {
            return Err(AuthError::StorageUnavailable);
        }
        let record = UserRecord { id: self.next_user_id, email, name, password_hash };
        let user = record.to_user();
        let ghost before = self@;
        self.users.push(record);
        self.next_user_id = self.next_user_id + 1;
        proof {
            assert(self@.users =~= before.users.push(record));
            lemma_with_user_wf(before, record.email, record.name, record.password_hash);
        }
        Ok(user)
    }

    /// The profile of the user with this email.
    pub fn find_user_by_email(&self, email: &str) -> (r: Option<User>)
        ensures
            r is None <==> !self@.has_email(email@),
            r matches Some(u) ==> exists|i: int|
                0 <= i < self@.users.len() && #[trigger] self@.users[i].email@ == email@ && u
                    == self@.users[i].profile(),
    {
        match self.email_index(email) {
            Some(i) => Some(self.users[i].to_user()),
            None => None,
        }
    }

    /// The profile of the user with this id.
    pub fn find_user_by_id(&self, id: u64) -> (r: Option<User>)
        ensures
            r is None <==> !self@.has_user(id),
            r matches Some(u) ==> exists|i: int|
                0 <= i < self@.users.len() && #[trigger] self@.users[i].id == id && u
                    == self@.users[i].profile(),
    {
        match self.id_index(id) {
            Some(i) => Some(self.users[i].to_user()),
            None => None,
        }
    }

    /// Inserts a session row for an existing user under a token that was
    /// never issued before, live or revoked; the token is then recorded.
    pub fn create_session(&mut self, user_id: u64, token: String) -> (r: Result<
        Session,
        AuthError,
    >)
        requires
            old(self).wf(),
        ensures
            final(self).wf(),
            r is Err ==> final(self)@ == old(self)@,
            !old(self)@.has_user(user_id) ==> r == Err::<Session, AuthError>(
                AuthError::UnknownUser,
            ),
            old(self)@.has_user(user_id) && old(self)@.was_issued(token@) ==> r == Err::<
                Session,
                AuthError,
            >(AuthError::TokenCollision),
            old(self)@.has_user(user_id) && !old(self)@.was_issued(token@)
                && old(self)@.next_session_id == u64::MAX ==> r == Err::<Session, AuthError>(
                AuthError::StorageUnavailable,
            ),
            old(self)@.has_user(user_id) && !old(self)@.was_issued(token@)
                && old(self)@.next_session_id < u64::MAX ==> final(self)@ == old(
                self,
            )@.with_session(user_id, token) && r == Ok::<Session, AuthError>(
                final(self)@.sessions.last(),
            ),
    {
        if self.id_index(user_id).is_none() {
            return Err(AuthError::UnknownUser);
        }
        if self.was_issued(token.as_str()) {
            return Err(AuthError::TokenCollision);
        }
        if self.next_session_id == u64::MAX {
            return Err(AuthError::StorageUnavailable);
        }
        let record = token.clone();
        let session = Session { id: self.next_session_id, token, user_id };
        let issued = session.duplicate();
        let ghost before = self@;
        self.sessions.push(session);
        self.issued_tokens.push(record);
        self.next_session_id = self.next_session_id + 1;
        proof {
            assert(self@.sessions =~= before.sessions.push(session));
            assert(self@.issued_tokens =~= before.issued_tokens.push(session.token));
            lemma_with_session_wf(before, user_id, session.token);
        }
        Ok(issued)
    }

    /// Whether some session, live or revoked, was issued under this token.
    pub fn was_issued(&self, token: &str) -> (r: bool)
        ensures
            r == self@.was_issued(token@),
    {
        let wanted = token.to_owned();
        let mut i: usize = 0;
        while i < self.issued_tokens.len()
            invariant
                i <= self.issued_tokens.len(),
                wanted@ == token@,
                forall|k: int| 0 <= k < i ==> #[trigger] self.issued_tokens@[k]@ != token@,
            decreases self.issued_tokens.len() - i,
        {
            if self.issued_tokens[i] == wanted {
                assert(self@.issued_tokens[i as int]@ == token@);
                return true;
            }
            i += 1;
        }
        false
    }

    /// The session row that carries this token.
    pub fn find_session_by_token(&self, token: &str) -> (r: Option<Session>)
        ensures
            r is None <==> !self@.has_token(token@),
            r matches Some(s) ==> exists|i: int|
                0 <= i < self@.sessions.len() && #[trigger] self@.sessions[i] == s && s.token@
                    == token@,
    {
        match self.token_index(token) {
            Some(i) => Some(self.sessions[i].duplicate()),
            None => None,
        }
    }

    /// Deletes every session that `key` selects; the rest keep their order.
    pub(crate) fn remove_sessions(&mut self, key: &SessionKey)
        requires
            old(self).wf(),
        ensures
            final(self).wf(),
            final(self)@ == old(self)@.without_sessions(*key),
    {
        let ghost keep = |s: Session| !key.selects(s);
        let ghost all = self.sessions@;
        let mut kept: Vec<Session> = Vec::new();
        let mut i: usize = 0;
        while i < self.sessions.len()
            invariant
                self@ == old(self)@,
                self.wf(),
                all == self.sessions@,
                keep == (|s: Session| !key.selects(s)),
                i <= all.len(),
                kept@ == all.subrange(0, i as int).filter(keep),
                forall|a: int|
                    #![trigger kept@[a]]
                    0 <= a < kept@.len() ==> exists|m: int|
                        0 <= m < i && #[trigger] all[m] == kept@[a],
                forall|a: int, b: int|
                    0 <= a < kept@.len() && 0 <= b < kept@.len() && a != b ==> #[trigger] kept@[a].token@
                        != #[trigger] kept@[b].token@ && kept@[a].id != kept@[b].id,
            decreases all.len() - i,
        {
            proof {
                lemma_filter_step(all, i as int, keep);
            }
            if !key.test(&self.sessions[i]) {
                let s = self.sessions[i].duplicate();
                proof {
                    assert forall|a: int| 0 <= a < kept@.len() implies kept@[a].token@ != s.token@
                        && kept@[a].id != s.id by {
                        let m = choose|m: int| 0 <= m < i && #[trigger] all[m] == kept@[a];
                        assert(self@.sessions[m] == all[m]);
                        assert(self@.sessions[i as int] == all[i as int]);
                        assert(self@.sessions[m].token@ != self@.sessions[i as int].token@);
                    }
                }
                let ghost prev = kept@;
                kept.push(s);
                proof {
                    assert forall|a: int| 0 <= a < prev.len() implies #[trigger] kept@[a] == prev[a] by {}
                    assert(kept@[prev.len() as int] == all[i as int]);
                    assert forall|a: int, b: int|
                        0 <= a < kept@.len() && 0 <= b < kept@.len() && a != b implies #[trigger] kept@[a].token@
                        != #[trigger] kept@[b].token@ && kept@[a].id != kept@[b].id by {
                        if a < prev.len() && b < prev.len() {
                            assert(kept@[a] == prev[a] && kept@[b] == prev[b]);
                            assert(prev[a].token@ != prev[b].token@);
                        } else if a < prev.len() {
                            assert(kept@[a] == prev[a]);
                        } else {
                            assert(kept@[b] == prev[b]);
                        }
                    }
                }
            }
            assert(forall|a: int, b: int|
                0 <= a < kept@.len() && 0 <= b < kept@.len() && a != b ==> #[trigger] kept@[a].token@
                    != #[trigger] kept@[b].token@ && kept@[a].id != kept@[b].id);
            i += 1;
        }
        proof {
            assert(all.subrange(0, all.len() as int) =~= all);
        }
        let ghost before = self@;
        let ghost kept_v = kept@;
        self.sessions = kept;
        proof {
            let v = self@;
            assert(v.users == before.users);
            assert(v.next_user_id == before.next_user_id);
            assert(before.wf());
            assert forall|k: int| 0 <= k < v.sessions.len() implies (#[trigger] v.sessions[k]).id
                < v.next_session_id && v.has_user(v.sessions[k].user_id) && v.was_issued(
                v.sessions[k].token@,
            ) by {
                assert(kept_v[k] == v.sessions[k]);
                let m = choose|m: int| 0 <= m < all.len() && #[trigger] all[m] == v.sessions[k];
                assert(before.sessions[m] == v.sessions[k]);
                assert(before.has_user(before.sessions[m].user_id));
                assert(before.was_issued(before.sessions[m].token@));
                assert(v.users == before.users);
                lemma_issued_kept(before, v, before.sessions[m].token@);
            }
        }
    }

    /// Deletes the session with this id; nothing happens when there is none.
    pub fn delete_session(&mut self, session_id: u64)
        requires
            old(self).wf(),
        ensures
            final(self).wf(),
            final(self)@ == old(self)@.without_sessions(SessionKey::Id(session_id)),
    {
        self.remove_sessions(&SessionKey::Id(session_id));
    }

    /// Deletes every session of this user; nothing happens when there is none.
    pub fn delete_sessions_for_user(&mut self, user_id: u64)
        requires
            old(self).wf(),
        ensures
            final(self).wf(),
            final(self)@ == old(self)@.without_sessions(SessionKey::User(user_id)),
    {
        self.remove_sessions(&SessionKey::User(user_id));
    }

    /// Deletes the user with this id together with all of its sessions, as
    /// one step; nothing happens when there is no such user.
    pub fn delete_user(&mut self, id: u64)
        requires
            old(self).wf(),
        ensures
            final(self).wf(),
            final(self)@ == old(self)@.without_user(id),
    {
        self.remove_sessions(&SessionKey::User(id));
        let ghost keep = |u: UserRecord| u.id != id;
        let ghost all = self.users@;
        let mut kept: Vec<UserRecord> = Vec::new();
        let mut i: usize = 0;
        while i < self.users.len()
            invariant
                self.wf(),
                all == self.users@,
                forall|k: int| 0 <= k < self@.sessions.len() ==> (#[trigger] self@.sessions[k]).user_id != id,
                keep == (|u: UserRecord| u.id != id),
                i <= all.len(),
                kept@ == all.subrange(0, i as int).filter(keep),
                forall|a: int|
                    #![trigger kept@[a]]
                    0 <= a < kept@.len() ==> exists|m: int|
                        0 <= m < i && #[trigger] all[m] == kept@[a],
                forall|a: int, b: int|
                    0 <= a < kept@.len() && 0 <= b < kept@.len() && a != b ==> #[trigger] kept@[a].email@
                        != #[trigger] kept@[b].email@ && kept@[a].id != kept@[b].id,
            decreases all.len() - i,
        {
            proof {
                lemma_filter_step(all, i as int, keep);
            }
            if self.users[i].id != id {
                let u = UserRecord {
                    id: self.users[i].id,
                    email: self.users[i].email.clone(),
                    name: self.users[i].name.clone(),
                    password_hash: self.users[i].password_hash.clone(),
                };
                proof {
                    assert(u == all[i as int]);
                    assert forall|a: int| 0 <= a < kept@.len() implies kept@[a].email@ != u.email@
                        && kept@[a].id != u.id by {
                        let m = choose|m: int| 0 <= m < i && #[trigger] all[m] == kept@[a];
                        assert(self@.users[m] == all[m]);
                        assert(self@.users[i as int] == all[i as int]);
                        assert(self@.users[m].email@ != self@.users[i as int].email@);
                    }
                }
                let ghost prev = kept@;
                kept.push(u);
                proof {
                    assert forall|a: int| 0 <= a < prev.len() implies #[trigger] kept@[a] == prev[a] by {}
                    assert(kept@[prev.len() as int] == all[i as int]);
                    assert forall|a: int, b: int|
                        0 <= a < kept@.len() && 0 <= b < kept@.len() && a != b implies #[trigger] kept@[a].email@
                        != #[trigger] kept@[b].email@ && kept@[a].id != kept@[b].id by {
                        if a < prev.len() && b < prev.len() {
                            assert(kept@[a] == prev[a] && kept@[b] == prev[b]);
                            assert(prev[a].email@ != prev[b].email@);
                        } else if a < prev.len() {
                            assert(kept@[a] == prev[a]);
                        } else {
                            assert(kept@[b] == prev[b]);
                        }
                    }
                }
            }
            assert(forall|a: int, b: int|
                0 <= a < kept@.len() && 0 <= b < kept@.len() && a != b ==> #[trigger] kept@[a].email@
                    != #[trigger] kept@[b].email@ && kept@[a].id != kept@[b].id);
            i += 1;
        }
        proof {
            assert(all.subrange(0, all.len() as int) =~= all);
        }
        let ghost before = self@;
        let ghost kept_v = kept@;
        self.users = kept;
        proof {
            let v = self@;
            assert(v.sessions == before.sessions);
            assert(before.wf());
            assert forall|k: int| 0 <= k < v.users.len() implies (#[trigger] v.users[k]).id
                < v.next_user_id by {
                assert(kept_v[k] == v.users[k]);
                let m = choose|m: int| 0 <= m < all.len() && #[trigger] all[m] == v.users[k];
                assert(before.users[m] == v.users[k]);
            }
            assert forall|k: int| 0 <= k < v.sessions.len() implies v.has_user(
                (#[trigger] v.sessions[k]).user_id,
            ) && v.was_issued(v.sessions[k].token@) by {
                assert(before.has_user(before.sessions[k].user_id));
                assert(before.was_issued(before.sessions[k].token@));
                lemma_issued_kept(before, v, before.sessions[k].token@);
                let j = choose|j: int|
                    0 <= j < before.users.len() && #[trigger] before.users[j].id
                        == before.sessions[k].user_id;
                assert(keep(all[j]));
                assert(all.filter(keep).contains(all[j]));
            }
            assert((|s: Session| !SessionKey::User(id).selects(s)) =~= (|s: Session| s.user_id != id));
        }
    }

    /// Number of user rows.
    pub fn user_count(&self) -> (r: usize)
        ensures
            r == self@.users.len(),
    {
        self.users.len()
    }

    /// Number of session rows.
    pub fn session_count(&self) -> (r: usize)
        ensures
            r == self@.sessions.len(),
    {
        self.sessions.len()
    }

    pub(crate) fn session_at(&self, i: usize) -> (r: &Session)
        requires
            i < self@.sessions.len(),
        ensures
            *r == self@.sessions[i as int],
    {
        &self.sessions[i]
    }

    /// Whether another user id can still be handed out.
    pub(crate) fn has_user_ids_left(&self) -> (r: bool)
        ensures
            r == (self@.next_user_id < u64::MAX),
    {
        self.next_user_id < u64::MAX
    }

    pub(crate) fn user_at(&self, i: usize) -> (r: &UserRecord)
        requires
            i < self@.users.len(),
        ensures
            *r == self@.users[i as int],
    {
        &self.users[i]
    }
}

} // verus!
