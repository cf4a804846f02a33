//! Facts about sequences of service calls, stated over the outcome
//! relations that the service's methods promise.
use vstd::prelude::*;
use crate::credentials::{password_matches, MAX_PASSWORD_CHARS};
use crate::model::{AuthError, Session, User};
use crate::service::{authenticate_post, credentials_ok, login_post, register_post};
use crate::store::{lemma_with_session_wf, lemma_with_user_wf, token_is_not, StoreView};

verus! {

/// A user who has just registered can log in with the same email and
/// password: login never reports bad credentials, it succeeds while no token
/// has been issued yet and session ids remain, and a token it hands out
/// authenticates as exactly that user.
pub proof fn lemma_register_then_login(
    s0: StoreView,
    s1: StoreView,
    s2: StoreView,
    email: String,
    name: String,
    password: Seq<char>,
    u: User,
    lr: Result<String, AuthError>,
)
    requires
        s0.wf(),
        register_post(s0, email, name, password, s1, Ok(u)),
        login_post(s1, email@, password, s2, lr),
    ensures
        lr != Err::<String, AuthError>(AuthError::InvalidCredentials),
        s0.issued_tokens.len() == 0 && s0.next_session_id < u64::MAX ==> lr is Ok,
        lr matches Ok(t) ==> forall|ar: Result<User, AuthError>|
            authenticate_post(s2, t@, ar) ==> ar == Ok::<User, AuthError>(u),
{
    let last = s1.users.len() - 1;
    lemma_with_user_wf(s0, email, name, s1.users.last().password_hash);
    assert(s1.users[last].email@ == email@);
    assert(credentials_ok(s1, email@, password));
    if let Ok(t) = lr {
        let i = choose|i: int|
            0 <= i < s1.users.len() && #[trigger] s1.users[i].email@ == email@ && s2
                == s1.with_session(s1.users[i].id, t);
        assert(i == last);
        lemma_with_session_wf(s1, s1.users[i].id, t);
        let k = s2.sessions.len() - 1;
        assert forall|ar: Result<User, AuthError>| authenticate_post(s2, t@, ar) implies ar == Ok::<
            User,
            AuthError,
        >(u) by {
            assert(s2.sessions[k].token@ == t@);
            assert(s2.has_token(t@));
            let v = ar->Ok_0;
            let (a, b) = choose|a: int, b: int|
                0 <= a < s2.sessions.len() && 0 <= b < s2.users.len() && #[trigger] s2.sessions[a].token@
                    == t@ && #[trigger] s2.users[b].id == s2.sessions[a].user_id && v
                    == s2.users[b].profile();
            assert(a == k);
            assert(s2.users[last].id == s2.sessions[k].user_id);
            assert(b == last);
        }
    }
}

/// Once an email is registered, registering it again is refused with
/// `DuplicateEmail`, changes nothing, and leaves exactly one user row with
/// that email.
pub proof fn lemma_duplicate_email(
    s0: StoreView,
    s1: StoreView,
    s2: StoreView,
    email: String,
    name: String,
    password: Seq<char>,
    u: User,
    email2: String,
    name2: String,
    password2: Seq<char>,
    r2: Result<User, AuthError>,
)
    requires
        s0.wf(),
        register_post(s0, email, name, password, s1, Ok(u)),
        email2@ == email@,
        register_post(s1, email2, name2, password2, s2, r2),
    ensures
        r2 == Err::<User, AuthError>(AuthError::DuplicateEmail),
        s2 == s1,
        exists|i: int|
            0 <= i < s2.users.len() && #[trigger] s2.users[i].email@ == email@ && forall|j: int|
                0 <= j < s2.users.len() && #[trigger] s2.users[j].email@ == email@ ==> j == i,
{
    let last = s1.users.len() - 1;
    lemma_with_user_wf(s0, email, name, s1.users.last().password_hash);
    assert(s1.users[last].email@ == email@);
    assert(s1.has_email(email2@));
}

/// A login with an unknown email and a login with a known email but a wrong
/// password end alike: both report `InvalidCredentials` and change nothing.
pub proof fn lemma_login_failures_look_alike(
    s: StoreView,
    unknown_email: Seq<char>,
    password1: Seq<char>,
    t1: StoreView,
    r1: Result<String, AuthError>,
    known_email: Seq<char>,
    password2: Seq<char>,
    t2: StoreView,
    r2: Result<String, AuthError>,
)
    requires
        s.wf(),
        !s.has_email(unknown_email),
        login_post(s, unknown_email, password1, t1, r1),
        exists|i: int|
            0 <= i < s.users.len() && #[trigger] s.users[i].email@ == known_email
                && !password_matches(password2, s.users[i].password_hash@),
        login_post(s, known_email, password2, t2, r2),
    ensures
        r1 == r2,
        r1 == Err::<String, AuthError>(AuthError::InvalidCredentials),
        t1 == s,
        t2 == s,
{
    let i = choose|i: int|
        0 <= i < s.users.len() && #[trigger] s.users[i].email@ == known_email && !password_matches(
            password2,
            s.users[i].password_hash@,
        );
    assert forall|j: int|
        0 <= j < s.users.len() && #[trigger] s.users[j].email@ == known_email implies !password_matches(
        password2,
        s.users[j].password_hash@,
    ) by {
        if j != i {
            assert(s.users[j].email@ != s.users[i].email@);
        }
    }
}

/// After a user is deleted, no session row refers to them, and every token
/// that was issued to them fails to authenticate with `InvalidSession`.
pub proof fn lemma_delete_account_revokes(s0: StoreView, user_id: u64, s1: StoreView)
    requires
        s0.wf(),
        s1 == s0.without_user(user_id),
    ensures
        forall|k: int| 0 <= k < s1.sessions.len() ==> (#[trigger] s1.sessions[k]).user_id != user_id,
        forall|k: int, r: Result<User, AuthError>|
            0 <= k < s0.sessions.len() && (#[trigger] s0.sessions[k]).user_id == user_id
                && #[trigger] authenticate_post(s1, s0.sessions[k].token@, r) ==> r == Err::<
                User,
                AuthError,
            >(AuthError::InvalidSession),
{
    let keep = |x: Session| x.user_id != user_id;
    assert forall|k: int| 0 <= k < s1.sessions.len() implies (#[trigger] s1.sessions[k]).user_id
        != user_id by {
        s0.sessions.lemma_filter_pred(keep, k);
    }
    assert forall|k: int, r: Result<User, AuthError>|
        0 <= k < s0.sessions.len() && (#[trigger] s0.sessions[k]).user_id == user_id
            && #[trigger] authenticate_post(s1, s0.sessions[k].token@, r) implies r == Err::<
            User,
            AuthError,
        >(AuthError::InvalidSession) by {
        if s1.has_token(s0.sessions[k].token@) {
            let m = choose|m: int|
                0 <= m < s1.sessions.len() && #[trigger] s1.sessions[m].token@
                    == s0.sessions[k].token@;
            s0.sessions.lemma_filter_pred(keep, m);
            assert(s1.sessions.contains(s1.sessions[m]));
            s0.sessions.lemma_filter_contains_rev(keep, s1.sessions[m]);
            let n = choose|n: int| 0 <= n < s0.sessions.len() && s0.sessions[n] == s1.sessions[m];
            assert(n != k);
            assert(s0.sessions[n].token@ != s0.sessions[k].token@);
        }
    }
}

proof fn lemma_filter_keeps_all<A>(s: Seq<A>, p: spec_fn(A) -> bool)
    requires
        forall|k: int| 0 <= k < s.len() ==> p(#[trigger] s[k]),
    ensures
        s.filter(p) == s,
    decreases s.len(),
{
    reveal(Seq::filter);
    if s.len() > 0 {
        lemma_filter_keeps_all(s.drop_last(), p);
        assert(s.drop_last().push(s.last()) =~= s);
    }
}

/// After `logout(token)` the token no longer authenticates, and a second
/// `logout` with the same token changes nothing.
pub proof fn lemma_logout(s0: StoreView, token: Seq<char>, s1: StoreView, s2: StoreView)
    requires
        s0.wf(),
        s1 == s0.without_token(token),
        s2 == s1.without_token(token),
    ensures
        forall|r: Result<User, AuthError>|
            authenticate_post(s1, token, r) ==> r == Err::<User, AuthError>(
                AuthError::InvalidSession,
            ),
        s2 == s1,
{
    let keep = token_is_not(token);
    assert forall|k: int| 0 <= k < s1.sessions.len() implies keep(#[trigger] s1.sessions[k]) by {
        s0.sessions.lemma_filter_pred(keep, k);
    }
    lemma_filter_keeps_all(s1.sessions, keep);
    assert(s2.sessions == s1.sessions);
}

proof fn lemma_email_stays_taken(
    states: Seq<StoreView>,
    emails: Seq<String>,
    names: Seq<String>,
    passwords: Seq<Seq<char>>,
    results: Seq<Result<User, AuthError>>,
    email: Seq<char>,
    a: int,
    c: int,
)
    requires
        states.len() == results.len() + 1,
        emails.len() == results.len(),
        names.len() == results.len(),
        passwords.len() == results.len(),
        forall|k: int| 0 <= k < emails.len() ==> (#[trigger] emails[k])@ == email,
        forall|k: int|
            0 <= k < results.len() ==> register_post(
                #[trigger] states[k],
                emails[k],
                names[k],
                passwords[k],
                states[k + 1],
                results[k],
            ),
        0 <= a < c <= results.len(),
        results[a] is Ok,
    ensures
        states[c].has_email(email),
    decreases c - a,
{
    assert(register_post(states[a], emails[a], names[a], passwords[a], states[a + 1], results[a]));
    if c == a + 1 {
        let t = states[a + 1];
        assert(t.users[t.users.len() - 1].email@ == email);
    } else {
        lemma_email_stays_taken(states, emails, names, passwords, results, email, a, c - 1);
        assert(register_post(
            states[c - 1],
            emails[c - 1],
            names[c - 1],
            passwords[c - 1],
            states[c],
            results[c - 1],
        ));
    }
}

/// In any run of registrations with one email, at most one succeeds: every
/// call after a success reports `DuplicateEmail`.
pub proof fn lemma_one_registration_per_email(
    states: Seq<StoreView>,
    emails: Seq<String>,
    names: Seq<String>,
    passwords: Seq<Seq<char>>,
    results: Seq<Result<User, AuthError>>,
    email: Seq<char>,
)
    requires
        states.len() == results.len() + 1,
        emails.len() == results.len(),
        names.len() == results.len(),
        passwords.len() == results.len(),
        forall|k: int| 0 <= k < emails.len() ==> (#[trigger] emails[k])@ == email,
        forall|k: int|
            0 <= k < results.len() ==> register_post(
                #[trigger] states[k],
                emails[k],
                names[k],
                passwords[k],
                states[k + 1],
                results[k],
            ),
    ensures
        forall|a: int, b: int|
            0 <= a < b < results.len() && (#[trigger] results[a]) is Ok ==> #[trigger] results[b]
                == Err::<User, AuthError>(AuthError::DuplicateEmail),
{
    assert forall|a: int, b: int|
        0 <= a < b < results.len() && (#[trigger] results[a]) is Ok implies #[trigger] results[b]
        == Err::<User, AuthError>(AuthError::DuplicateEmail) by {
        lemma_email_stays_taken(states, emails, names, passwords, results, email, a, b);
        assert(register_post(states[b], emails[b], names[b], passwords[b], states[b + 1], results[b]));
    }
}

/// A token that was issued and is no longer live stays that way: whatever
/// registration, login, logout or account deletion follows, no session
/// carries it again, so it never authenticates.
pub proof fn lemma_revoked_stays_revoked(s: StoreView, token: Seq<char>)
    requires
        s.wf(),
        s.was_issued(token),
        !s.has_token(token),
    ensures
        forall|r: Result<User, AuthError>|
            authenticate_post(s, token, r) ==> r == Err::<User, AuthError>(
                AuthError::InvalidSession,
            ),
        forall|email: String, name: String, password: Seq<char>, t: StoreView, r: Result<User, AuthError>|
            #[trigger] register_post(s, email, name, password, t, r) ==> t.was_issued(token)
                && !t.has_token(token),
        forall|email: Seq<char>, password: Seq<char>, t: StoreView, r: Result<String, AuthError>|
            #[trigger] login_post(s, email, password, t, r) ==> t.was_issued(token) && !t.has_token(
                token,
            ),
        forall|other: Seq<char>|
            (#[trigger] s.without_token(other)).was_issued(token) && !s.without_token(
                other,
            ).has_token(token),
        forall|user_id: u64|
            (#[trigger] s.without_user(user_id)).was_issued(token) && !s.without_user(
                user_id,
            ).has_token(token),
{
    let j = choose|j: int| 0 <= j < s.issued_tokens.len() && #[trigger] s.issued_tokens[j]@ == token;
    assert forall|email: String, name: String, password: Seq<char>, t: StoreView, r: Result<User, AuthError>|
        #[trigger] register_post(s, email, name, password, t, r) implies t.was_issued(token)
        && !t.has_token(token) by {
        assert(t.sessions == s.sessions && t.issued_tokens == s.issued_tokens);
        assert(t.issued_tokens[j]@ == token);
    }
    assert forall|email: Seq<char>, password: Seq<char>, t: StoreView, r: Result<String, AuthError>|
        #[trigger] login_post(s, email, password, t, r) implies t.was_issued(token) && !t.has_token(
        token,
    ) by {
        assert(t.issued_tokens[j] == s.issued_tokens[j]);
        if let Ok(fresh) = r {
            if credentials_ok(s, email, password) {
                assert(fresh@ != token);
                assert forall|k: int| 0 <= k < t.sessions.len() implies (#[trigger] t.sessions[k]).token@
                    != token by {
                    if k < s.sessions.len() {
                        assert(t.sessions[k] == s.sessions[k]);
                    }
                }
            }
        }
    }
    assert forall|other: Seq<char>|
        (#[trigger] s.without_token(other)).was_issued(token) && !s.without_token(other).has_token(
            token,
        ) by {
        let t = s.without_token(other);
        assert(t.issued_tokens[j]@ == token);
        if t.has_token(token) {
            let m = choose|m: int| 0 <= m < t.sessions.len() && #[trigger] t.sessions[m].token@ == token;
            assert(t.sessions.contains(t.sessions[m]));
            s.sessions.lemma_filter_contains_rev(token_is_not(other), t.sessions[m]);
            let n = choose|n: int| 0 <= n < s.sessions.len() && s.sessions[n] == t.sessions[m];
            assert(s.sessions[n].token@ == token);
        }
    }
    assert forall|user_id: u64|
        (#[trigger] s.without_user(user_id)).was_issued(token) && !s.without_user(user_id).has_token(
            token,
        ) by {
        let t = s.without_user(user_id);
        assert(t.issued_tokens[j]@ == token);
        if t.has_token(token) {
            let m = choose|m: int| 0 <= m < t.sessions.len() && #[trigger] t.sessions[m].token@ == token;
            assert(t.sessions.contains(t.sessions[m]));
            s.sessions.lemma_filter_contains_rev(|x: Session| x.user_id != user_id, t.sessions[m]);
            let n = choose|n: int| 0 <= n < s.sessions.len() && s.sessions[n] == t.sessions[m];
            assert(s.sessions[n].token@ == token);
        }
    }
}

proof fn lemma_state_settles(
    states: Seq<StoreView>,
    emails: Seq<String>,
    names: Seq<String>,
    passwords: Seq<Seq<char>>,
    results: Seq<Result<User, AuthError>>,
    email: Seq<char>,
    c: int,
)
    requires
        states.len() == results.len() + 1,
        emails.len() == results.len(),
        names.len() == results.len(),
        passwords.len() == results.len(),
        forall|k: int| 0 <= k < emails.len() ==> (#[trigger] emails[k])@ == email,
        forall|k: int|
            0 <= k < results.len() ==> register_post(
                #[trigger] states[k],
                emails[k],
                names[k],
                passwords[k],
                states[k + 1],
                results[k],
            ),
        states[1].has_email(email),
        1 <= c <= results.len(),
    ensures
        states[c] == states[1],
    decreases c,
{
    if c > 1 {
        lemma_state_settles(states, emails, names, passwords, results, email, c - 1);
        assert(register_post(
            states[c - 1],
            emails[c - 1],
            names[c - 1],
            passwords[c - 1],
            states[c],
            results[c - 1],
        ));
    }
}

/// From a store where the email is free and user ids remain, a run of
/// registrations with that email and passwords the hasher always accepts has
/// exactly one success, the first; every other call reports `DuplicateEmail`,
/// and exactly one user row with that email remains, the one created.
pub proof fn lemma_exactly_one_registration(
    states: Seq<StoreView>,
    emails: Seq<String>,
    names: Seq<String>,
    passwords: Seq<Seq<char>>,
    results: Seq<Result<User, AuthError>>,
    email: Seq<char>,
)
    requires
        results.len() > 0,
        states.len() == results.len() + 1,
        emails.len() == results.len(),
        names.len() == results.len(),
        passwords.len() == results.len(),
        states[0].wf(),
        !states[0].has_email(email),
        states[0].next_user_id < u64::MAX,
        forall|k: int| 0 <= k < passwords.len() ==> (#[trigger] passwords[k]).len() <= MAX_PASSWORD_CHARS,
        forall|k: int| 0 <= k < emails.len() ==> (#[trigger] emails[k])@ == email,
        forall|k: int|
            0 <= k < results.len() ==> register_post(
                #[trigger] states[k],
                emails[k],
                names[k],
                passwords[k],
                states[k + 1],
                results[k],
            ),
    ensures
        results[0] is Ok,
        forall|b: int| 1 <= b < results.len() ==> #[trigger] results[b] == Err::<User, AuthError>(
            AuthError::DuplicateEmail,
        ),
        ({
            let last = states[results.len() as int];
            exists|i: int|
                0 <= i < last.users.len() && #[trigger] last.users[i].email@ == email
                    && results[0] == Ok::<User, AuthError>(last.users[i].profile()) && forall|j: int|
                    0 <= j < last.users.len() && #[trigger] last.users[j].email@ == email ==> j == i
        }),
{
    assert(register_post(states[0], emails[0], names[0], passwords[0], states[1], results[0]));
    assert(emails[0]@ == email);
    assert(passwords[0].len() <= MAX_PASSWORD_CHARS);
    let s1 = states[1];
    let i = s1.users.len() - 1;
    lemma_with_user_wf(states[0], emails[0], names[0], s1.users.last().password_hash);
    assert(s1.users[i].email@ == email);
    assert(s1.has_email(email));
    lemma_one_registration_per_email(states, emails, names, passwords, results, email);
    assert forall|b: int| 1 <= b < results.len() implies #[trigger] results[b] == Err::<
        User,
        AuthError,
    >(AuthError::DuplicateEmail) by {
        assert(results[0] is Ok);
        assert(0 < b);
    }
    lemma_state_settles(states, emails, names, passwords, results, email, results.len() as int);
    assert forall|j: int| 0 <= j < s1.users.len() && #[trigger] s1.users[j].email@ == email implies j
        == i by {
        if j != i {
            assert(s1.users[j].email@ != s1.users[i].email@);
        }
    }
}

} // verus!
