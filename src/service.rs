//! The authentication lifecycle over one account store, one session store and
//! one signing secret: register, login, refresh and authorize.
use vstd::prelude::*;
use vstd::utf8::encode_utf8;
use crate::account::{
    account_index, check_password, create_account, find_session_user, lookup_from,
    password_matches, session_added, session_lookup, Account, SessionLookup, SignIn,
};
use crate::claims::{claims_in_range, Claims, ClaimsView};
use crate::error::AccountError;
use crate::jwt::{
    access_claims, current_time, dot_free, hs256, issue_access_token_at, issued, signing_input,
    segments, token_of, validate_jwt_at, validation_post, with_signature, ACCESS_TOKEN_LIFETIME,
    HEADER,
};
use crate::password::{argon2_accepts, phc_parses};
use crate::store::{
    accounts_wf, sessions_wf, username_taken, AccountRecordView, AccountStore, SessionStore,
    SessionView,
};
use crate::jwt::base64url;
use crate::claims::payload_of;

verus! {

/// A fresh access token and the user it was issued to.
#[derive(Debug, Clone)]
pub struct TokenGrant {
    pub access_token: String,
    pub user_id: i32,
}

/// A request whose bearer token was accepted, with the token's claims.
#[derive(Debug, Clone)]
pub struct AuthenticatedUser {
    pub claims: Claims,
}

/// Account and session stores with the secret that signs access tokens.
pub struct AuthService {
    accounts: AccountStore,
    sessions: SessionStore,
    signing_secret: String,
}

pub struct AuthServiceView {
    pub accounts: Seq<AccountRecordView>,
    pub sessions: Seq<SessionView>,
    pub secret: Seq<char>,
}

impl View for AuthService {
    type V = AuthServiceView;

    closed spec fn view(&self) -> AuthServiceView {
        AuthServiceView {
            accounts: self.accounts@,
            sessions: self.sessions@,
            secret: self.signing_secret@,
        }
    }
}

/// Both stores are well formed, every stored hash is a well-formed record, and
/// every session belongs to an existing account.
pub open spec fn service_wf(s: AuthServiceView) -> bool {
    &&& accounts_wf(s.accounts)
    &&& sessions_wf(s.sessions)
    &&& forall|i: int| 0 <= i < s.accounts.len() ==> phc_parses(#[trigger] s.accounts[i].password_hash)
    &&& forall|i: int|
        0 <= i < s.sessions.len() ==> phc_parses(#[trigger] s.sessions[i].refresh_token_hash)
            && 1 <= s.sessions[i].user_id <= s.accounts.len()
}

/// What `register` does: a taken username is refused; otherwise, where the
/// store has room, the account is appended under the next id with its password
/// stored only as a hash that accepts it, unless hashing fails. Nothing
/// changes on an error.
pub open spec fn register_post(
    before: AuthServiceView,
    after: AuthServiceView,
    username: Seq<char>,
    password: Seq<char>,
    first_name: Seq<char>,
    last_name: Seq<char>,
    r: Result<(), AccountError>,
) -> bool {
    &&& after.sessions == before.sessions
    &&& after.secret == before.secret
    &&& username_taken(before.accounts, username) ==> (r matches Err(e) && e is Database)
    &&& !username_taken(before.accounts, username) && before.accounts.len() < i32::MAX ==> (r is Ok
        || (r matches Err(e) && e is Hashing))
    &&& r is Ok ==> {
        &&& after.accounts.len() == before.accounts.len() + 1
        &&& after.accounts.drop_last() == before.accounts
        &&& after.accounts.last().id == before.accounts.len() + 1
        &&& after.accounts.last().username == username
        &&& after.accounts.last().first_name == first_name
        &&& after.accounts.last().last_name == last_name
        &&& argon2_accepts(encode_utf8(password), after.accounts.last().password_hash)
    }
    &&& r matches Err(e) ==> (e is Database || e is Hashing) && after == before
}

/// What `login` does: a wrong password or unknown user is `Authentication`
/// and changes nothing; the right password opens one session for the account
/// whose hash accepts the credential handed back, unless drawing or hashing
/// the credential or storing the session fails.
pub open spec fn login_post(
    before: AuthServiceView,
    after: AuthServiceView,
    username: Seq<char>,
    password: Seq<char>,
    r: Result<[u8; 32], AccountError>,
) -> bool {
    &&& after.accounts == before.accounts
    &&& after.secret == before.secret
    &&& !password_matches(before.accounts, username, password) ==> (r matches Err(e)
        && e is Authentication)
    &&& password_matches(before.accounts, username, password) ==> (r matches Err(e) ==> e is Hashing
        || e is Database)
    &&& r matches Ok(credential) ==> password_matches(before.accounts, username, password)
        && session_added(
        before.sessions,
        after.sessions,
        before.accounts[account_index(before.accounts, username)].id,
        credential@,
    )
    &&& (r matches Err(e) && e is Database) ==> before.sessions.len() >= i32::MAX
    &&& r is Err ==> after == before
}

/// What `refresh` gives at time `now`: for a credential that the first
/// matching session gives to user `uid`, a token for that account issued at
/// `now`; `Authentication` for a credential that no session accepts.
pub open spec fn refresh_post(
    s: AuthServiceView,
    credential: Seq<u8>,
    now: nat,
    r: Result<TokenGrant, AccountError>,
) -> bool {
    match session_lookup(s.sessions, credential) {
        SessionLookup::Found(uid) => {
            &&& now + ACCESS_TOKEN_LIFETIME <= usize::MAX ==> r is Ok
            &&& r matches Ok(g) ==> g.user_id == uid && issued(
                g.access_token@,
                access_claims(s.accounts[uid - 1].username, uid, now),
                s.secret,
            )
            &&& r matches Err(e) ==> e is TokenCreation
        },
        SessionLookup::Malformed => r matches Err(e) && e is Hashing,
        SessionLookup::Unmatched => r matches Err(e) && e is Authentication,
    }
}

impl AuthService {
    pub open spec fn wf(&self) -> bool {
        service_wf(self@)
    }

    /// A service with no accounts and no sessions that signs with `signing_secret`.
    pub fn new(signing_secret: String) -> (r: AuthService)
        ensures
            r.wf(),
            r@.accounts.len() == 0,
            r@.sessions.len() == 0,
            r@.secret == signing_secret@,
    {
        AuthService {
            accounts: AccountStore::new(),
            sessions: SessionStore::new(),
            signing_secret,
        }
    }

    /// Creates an account for `username` with `password`.
    pub fn register(&mut self, username: &str, password: &str, first_name: &str, last_name: &str) -> (r:
        Result<(), AccountError>)
        requires
            old(self).wf(),
        ensures
            final(self).wf(),
            register_post(old(self)@, final(self)@, username@, password@, first_name@, last_name@, r),
    {
        let account = Account {
            first_name: first_name.to_owned(),
            last_name: last_name.to_owned(),
            username: username.to_owned(),
            password: password.to_owned(),
        };
        let ghost before = self@;
        let r = create_account(&mut self.accounts, account);
        proof {
            if r is Ok {
                assert(self@.accounts.last() == self@.accounts[self@.accounts.len() - 1]);
                assert forall|i: int| 0 <= i < self@.accounts.len() implies phc_parses(
                    #[trigger] self@.accounts[i].password_hash,
                ) by {
                    if i < before.accounts.len() {
                        assert(self@.accounts[i] == self@.accounts.drop_last()[i]);
                    }
                }
            }
        }
        r
    }

    /// Checks `password` for `username` and, where it matches, opens a session
    /// and hands back its refresh credential.
    pub fn login(&mut self, username: &str, password: &str) -> (r: Result<[u8; 32], AccountError>)
        requires
            old(self).wf(),
        ensures
            final(self).wf(),
            login_post(old(self)@, final(self)@, username@, password@, r),
    {
        let details = SignIn { username: username.to_owned(), password: password.to_owned() };
        let ghost before = self@;
        proof {
            if username_taken(before.accounts, username@) {
                let k = account_index(before.accounts, username@);
                assert(phc_parses(before.accounts[k].password_hash));
                assert(before.accounts[k].id == k + 1);
            }
        }
        let r = check_password(&self.accounts, &mut self.sessions, details);
        proof {
            if r is Ok {
                assert forall|i: int| 0 <= i < self@.sessions.len() implies phc_parses(
                    #[trigger] self@.sessions[i].refresh_token_hash,
                ) && 1 <= self@.sessions[i].user_id <= self@.accounts.len() by {
                    if i < before.sessions.len() {
                        assert(self@.sessions[i] == self@.sessions.drop_last()[i]);
                    }
                }
            }
        }
        r
    }

    /// Redeems a refresh credential for an access token issued at `now`.
    pub fn refresh_at(&self, credential: &[u8; 32], now: usize) -> (r: Result<
        TokenGrant,
        AccountError,
    >)
        requires
            self.wf(),
        ensures
            refresh_post(self@, credential@, now as nat, r),
    {
        proof {
            lemma_lookup_owner(self@, credential@, 0);
        }
        let uid = match find_session_user(&self.sessions, credential) {
            Ok(u) => u,
            Err(e) => {
                return Err(e);
            },
        };
        let i = match self.accounts.find_id(uid) {
            Some(i) => i,
            None => {
                assert(self@.accounts[uid - 1].id == uid);
                return Err(AccountError::Database("session belongs to no account".to_owned()));
            },
        };
        assert(self@.accounts[i as int].id == i + 1);
        let record = self.accounts.get(i);
        match issue_access_token_at(record.username.as_str(), uid, self.signing_secret.as_str(), now) {
            Ok(token) => Ok(TokenGrant { access_token: token, user_id: uid }),
            Err(e) => Err(e),
        }
    }

    /// Redeems a refresh credential for an access token issued now.
    pub fn refresh(&self, credential: &[u8; 32]) -> (r: Result<TokenGrant, AccountError>)
        requires
            self.wf(),
        ensures
            (exists|now: nat| #[trigger] refresh_post(self@, credential@, now, r)) || (r matches Err(
                e,
            ) && e is TokenCreation),
    {
        match current_time() {
            Some(now) => {
                let r = self.refresh_at(credential, now);
                assert(refresh_post(self@, credential@, now as nat, r));
                r
            },
            None => Err(AccountError::TokenCreation("clock is before the epoch".to_owned())),
        }
    }

    /// Checks a bearer token at the current time and gives its claims.
    pub fn authorize(&self, token: &str) -> (r: Result<Claims, AccountError>)
        ensures
            (exists|now: nat| #[trigger] validation_post(token@, self@.secret, now, r)) || (r matches Err(
                e,
            ) && e is Other),
    {
        match current_time() {
            Some(now) => {
                let r = self.authorize_at(token, now);
                assert(validation_post(token@, self@.secret, now as nat, r));
                r
            },
            None => Err(AccountError::Other("clock is before the epoch".to_owned())),
        }
    }

    /// Checks a bearer token at time `now` and gives its claims.
    pub fn authorize_at(&self, token: &str, now: usize) -> (r: Result<Claims, AccountError>)
        ensures
            validation_post(token@, self@.secret, now as nat, r),
    {
        validate_jwt_at(token, self.signing_secret.as_str(), now)
    }
}

impl AuthenticatedUser {
    /// Accepts a request whose bearer token checks out under `secret` at `now`.
    pub fn from_bearer(token: &str, secret: &str, now: usize) -> (r: Result<
        AuthenticatedUser,
        AccountError,
    >)
        ensures
            validation_post(
                token@,
                secret@,
                now as nat,
                match r {
                    Ok(u) => Ok(u.claims),
                    Err(e) => Err(e),
                },
            ),
    {
        match validate_jwt_at(token, secret, now) {
            Ok(claims) => Ok(AuthenticatedUser { claims }),
            Err(e) => Err(e),
        }
    }
}

/// A session found by a scan belongs to an existing account.
proof fn lemma_lookup_owner(s: AuthServiceView, credential: Seq<u8>, i: int)
    requires
        service_wf(s),
        0 <= i,
    ensures
        lookup_from(s.sessions, credential, i) matches SessionLookup::Found(uid) ==> 1 <= uid
            <= s.accounts.len(),
        !(lookup_from(s.sessions, credential, i) is Malformed),
    decreases s.sessions.len() - i,
{
    if i < s.sessions.len() {
        assert(phc_parses(s.sessions[i].refresh_token_hash));
        lemma_lookup_owner(s, credential, i + 1);
    }
}

/// A scan from `i` that meets only non-matching sessions before `k`, and a
/// matching one at `k`, finds the owner of the session at `k`; one that meets
/// no matching session finds nothing.
proof fn lemma_lookup_first(sessions: Seq<SessionView>, credential: Seq<u8>, i: int, k: int)
    requires
        0 <= i <= k <= sessions.len(),
        forall|j: int| 0 <= j < sessions.len() ==> phc_parses(#[trigger] sessions[j].refresh_token_hash),
        forall|j: int| i <= j < k ==> !argon2_accepts(credential, #[trigger] sessions[j].refresh_token_hash),
        k < sessions.len() ==> argon2_accepts(credential, sessions[k].refresh_token_hash),
    ensures
        k < sessions.len() ==> lookup_from(sessions, credential, i) == SessionLookup::Found(
            sessions[k].user_id,
        ),
        k == sessions.len() ==> lookup_from(sessions, credential, i) == SessionLookup::Unmatched,
    decreases k - i,
{
    if i < k {
        assert(phc_parses(sessions[i].refresh_token_hash));
        assert(!argon2_accepts(credential, sessions[i].refresh_token_hash));
        lemma_lookup_first(sessions, credential, i + 1, k);
    } else if k < sessions.len() {
        assert(phc_parses(sessions[k].refresh_token_hash));
    }
}

/// The account that a login succeeded for is the one named `username`, and
/// its id is its position plus one.
proof fn lemma_login_account(s: AuthServiceView, username: Seq<char>, password: Seq<char>)
    requires
        service_wf(s),
        password_matches(s.accounts, username, password),
    ensures
        0 <= account_index(s.accounts, username) < s.accounts.len(),
        s.accounts[account_index(s.accounts, username)].username == username,
        s.accounts[account_index(s.accounts, username)].id == account_index(s.accounts, username)
            + 1,
{
    let k = account_index(s.accounts, username);
    assert(s.accounts[k].id == k + 1);
}

/// Registering a username and then logging in with the same password passes
/// the password check, so the login fails only where drawing, hashing or
/// storing the new credential fails; registering the same username again is
/// refused and changes nothing.
pub proof fn law_register_then_login(
    s0: AuthServiceView,
    s1: AuthServiceView,
    username: Seq<char>,
    password: Seq<char>,
    first_name: Seq<char>,
    last_name: Seq<char>,
    s2: AuthServiceView,
    login: Result<[u8; 32], AccountError>,
    s3: AuthServiceView,
    password2: Seq<char>,
    first_name2: Seq<char>,
    last_name2: Seq<char>,
    again: Result<(), AccountError>,
)
    requires
        service_wf(s0),
        service_wf(s1),
        register_post(s0, s1, username, password, first_name, last_name, Ok(())),
        login_post(s1, s2, username, password, login),
        register_post(s1, s3, username, password2, first_name2, last_name2, again),
    ensures
        login matches Err(e) ==> e is Hashing || e is Database,
        again matches Err(e) && e is Database,
        s3 == s1,
{
    let n = s0.accounts.len() as int;
    assert(s1.accounts[n] == s1.accounts.last());
    assert(username_taken(s1.accounts, username));
    let k = account_index(s1.accounts, username);
    if k != n {
        if k < n {
            assert(s1.accounts[k].username != s1.accounts[n].username);
        }
    }
    assert(password_matches(s1.accounts, username, password));
}

/// Logging in with the right password and redeeming the credential it gives
/// yields a token for the account's id that authorizes until it expires, with
/// the account's username and id in its claims. This holds where the new
/// credential is accepted by no session that existed before the login.
pub proof fn law_login_refresh_authorize(
    s0: AuthServiceView,
    s1: AuthServiceView,
    username: Seq<char>,
    password: Seq<char>,
    credential: [u8; 32],
    now: nat,
    refreshed: Result<TokenGrant, AccountError>,
    later: nat,
    authorized: Result<Claims, AccountError>,
)
    requires
        service_wf(s0),
        service_wf(s1),
        login_post(s0, s1, username, password, Ok(credential)),
        forall|j: int|
            0 <= j < s0.sessions.len() ==> !argon2_accepts(
                credential@,
                #[trigger] s0.sessions[j].refresh_token_hash,
            ),
        now + ACCESS_TOKEN_LIFETIME <= usize::MAX,
        refresh_post(s1, credential@, now, refreshed),
        now <= later < now + ACCESS_TOKEN_LIFETIME,
        refreshed matches Ok(g) ==> validation_post(g.access_token@, s1.secret, later, authorized),
    ensures
        refreshed matches Ok(g) && g.user_id == s0.accounts[account_index(
            s0.accounts,
            username,
        )].id,
        authorized matches Ok(c) && c.uid == s0.accounts[account_index(s0.accounts, username)].id
            && c.sub@ == username && c@ == access_claims(username, c.uid as int, now),
{
    lemma_login_account(s0, username, password);
    let k = account_index(s0.accounts, username);
    let n = s0.sessions.len() as int;
    assert forall|j: int| 0 <= j < n implies !argon2_accepts(
        credential@,
        #[trigger] s1.sessions[j].refresh_token_hash,
    ) by {
        assert(s1.sessions[j] == s1.sessions.drop_last()[j]);
    }
    assert(s1.sessions[n] == s1.sessions.last());
    assert forall|j: int| 0 <= j < s1.sessions.len() implies phc_parses(
        #[trigger] s1.sessions[j].refresh_token_hash,
    ) by {}
    lemma_lookup_first(s1.sessions, credential@, 0, n);
    let uid = k + 1;
    assert(s1.accounts[uid - 1].username == username);
    let v = access_claims(username, uid, now);
    let g = refreshed->Ok_0;
    assert(issued(g.access_token@, v, s1.secret));
}

/// Logging in with a wrong password, or as an unknown user, is refused as
/// `Authentication` and opens no session.
pub proof fn law_wrong_password(
    s0: AuthServiceView,
    s1: AuthServiceView,
    username: Seq<char>,
    password: Seq<char>,
    r: Result<[u8; 32], AccountError>,
)
    requires
        service_wf(s0),
        login_post(s0, s1, username, password, r),
        !password_matches(s0.accounts, username, password),
    ensures
        r matches Err(e) && e is Authentication,
        s1.sessions == s0.sessions,
{
}

/// Two logins as the same user give two credentials that each redeem for a
/// token for that user, and redeeming one leaves the other redeemable, since
/// redeeming changes nothing. This holds where neither credential is accepted
/// by a session other than its own.
pub proof fn law_two_sessions(
    s0: AuthServiceView,
    s1: AuthServiceView,
    s2: AuthServiceView,
    username: Seq<char>,
    password: Seq<char>,
    first: [u8; 32],
    second: [u8; 32],
    now: nat,
    r1: Result<TokenGrant, AccountError>,
    r2: Result<TokenGrant, AccountError>,
)
    requires
        service_wf(s0),
        service_wf(s1),
        service_wf(s2),
        login_post(s0, s1, username, password, Ok(first)),
        login_post(s1, s2, username, password, Ok(second)),
        forall|j: int|
            0 <= j < s0.sessions.len() ==> !argon2_accepts(
                first@,
                #[trigger] s0.sessions[j].refresh_token_hash,
            ),
        forall|j: int|
            0 <= j < s1.sessions.len() ==> !argon2_accepts(
                second@,
                #[trigger] s1.sessions[j].refresh_token_hash,
            ),
        now + ACCESS_TOKEN_LIFETIME <= usize::MAX,
        refresh_post(s2, first@, now, r1),
        refresh_post(s2, second@, now, r2),
    ensures
        session_lookup(s2.sessions, first@) == SessionLookup::Found(
            s0.accounts[account_index(s0.accounts, username)].id,
        ),
        session_lookup(s2.sessions, second@) == SessionLookup::Found(
            s0.accounts[account_index(s0.accounts, username)].id,
        ),
        r1 matches Ok(g) && g.user_id == s0.accounts[account_index(s0.accounts, username)].id,
        r2 matches Ok(g) && g.user_id == s0.accounts[account_index(s0.accounts, username)].id,
{
    lemma_login_account(s0, username, password);
    let n0 = s0.sessions.len() as int;
    let n1 = s1.sessions.len() as int;
    assert(s1.sessions[n0] == s1.sessions.last());
    assert(s2.sessions[n1] == s2.sessions.last());
    assert(s2.sessions[n0] == s2.sessions.drop_last()[n0]);
    assert forall|j: int| 0 <= j < n0 implies !argon2_accepts(
        first@,
        #[trigger] s2.sessions[j].refresh_token_hash,
    ) by {
        assert(s2.sessions[j] == s2.sessions.drop_last()[j]);
        assert(s1.sessions[j] == s1.sessions.drop_last()[j]);
    }
    assert forall|j: int| 0 <= j < n1 implies !argon2_accepts(
        second@,
        #[trigger] s2.sessions[j].refresh_token_hash,
    ) by {
        assert(s2.sessions[j] == s2.sessions.drop_last()[j]);
    }
    lemma_lookup_first(s2.sessions, first@, 0, n0);
    lemma_lookup_first(s2.sessions, second@, 0, n1);
}

/// A credential that no stored session accepts, such as one that was never
/// issued, is refused as `Authentication`.
pub proof fn law_unissued_credential(
    s: AuthServiceView,
    credential: Seq<u8>,
    now: nat,
    r: Result<TokenGrant, AccountError>,
)
    requires
        service_wf(s),
        forall|j: int|
            0 <= j < s.sessions.len() ==> !argon2_accepts(
                credential,
                #[trigger] s.sessions[j].refresh_token_hash,
            ),
        refresh_post(s, credential, now, r),
    ensures
        r matches Err(e) && e is Authentication,
{
    assert forall|j: int| 0 <= j < s.sessions.len() implies phc_parses(
        #[trigger] s.sessions[j].refresh_token_hash,
    ) by {}
    lemma_lookup_first(s.sessions, credential, 0, s.sessions.len() as int);
}

/// Checking a token is a function of the token, the secret and the time: two
/// checks of the same token under the same secret at the same time give the
/// same claims, or errors of the same kind.
pub proof fn law_validation_deterministic(
    t: Seq<char>,
    secret: Seq<char>,
    now: nat,
    r1: Result<Claims, AccountError>,
    r2: Result<Claims, AccountError>,
)
    requires
        validation_post(t, secret, now, r1),
        validation_post(t, secret, now, r2),
    ensures
        r1 matches Ok(c1) ==> (r2 matches Ok(c2) && c1@ == c2@),
        (r1 matches Err(e1) && e1 is Authentication) ==> (r2 matches Err(e2) && e2 is Authentication),
        (r1 matches Err(e1) && e1 is InvalidToken) ==> (r2 matches Err(e2) && e2 is InvalidToken),
{
    if exists|h: Seq<char>, p: Seq<char>, g: Seq<char>| segments(t, h, p, g) {
        let (h, p, g) = choose|h: Seq<char>, p: Seq<char>, g: Seq<char>| segments(t, h, p, g);
        if h == HEADER@ && g == hs256(HEADER@ + seq!['.'] + p, secret) {
            if exists|b: Seq<u8>| base64url(b) == p {
                let b = choose|b: Seq<u8>| base64url(b) == p;
                if exists|v: ClaimsView| payload_of(v) == b && claims_in_range(v) {
                    let v = choose|v: ClaimsView| payload_of(v) == b && claims_in_range(v);
                    assert(t =~= token_of(v, secret));
                    assert(issued(t, v, secret));
                }
            }
        }
    }
}

/// An issued token presented at or after its expiry, and the claims of an
/// issued token under any other signature, are refused as `Authentication`;
/// a text without a dot is refused as `InvalidToken`, and a token made of the
/// header, a claims payload and a signature without a dot never is.
pub proof fn law_rejected_tokens(
    t: Seq<char>,
    secret: Seq<char>,
    now: nat,
    r: Result<Claims, AccountError>,
    v: ClaimsView,
    signature: Seq<char>,
)
    requires
        validation_post(t, secret, now, r),
    ensures
        issued(t, v, secret) && now >= v.exp ==> (r matches Err(e) && e is Authentication),
        t == with_signature(v, signature) && dot_free(base64url(payload_of(v))) && dot_free(
            signature,
        ) && signature != hs256(signing_input(v), secret) ==> (r matches Err(e)
            && e is Authentication),
        dot_free(t) ==> (r matches Err(e) && e is InvalidToken),
        t == with_signature(v, signature) && dot_free(base64url(payload_of(v))) && dot_free(
            signature,
        ) && claims_in_range(v) ==> !(r matches Err(e) && e is InvalidToken),
{
}

} // verus!
