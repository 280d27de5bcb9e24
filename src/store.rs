//! In-memory account and session stores: accounts keyed by a unique
//! username, and an append-only list of sessions, each binding a user id to
//! the hash of one refresh credential.
use vstd::prelude::*;
use crate::error::AccountError;
use crate::jwt::same_text;

verus! {

/// A stored account.
#[derive(Debug, Clone)]
pub struct AccountRecord {
    pub id: i32,
    pub first_name: String,
    pub last_name: String,
    pub username: String,
    pub password_hash: String,
}

pub struct AccountRecordView {
    pub id: int,
    pub first_name: Seq<char>,
    pub last_name: Seq<char>,
    pub username: Seq<char>,
    pub password_hash: Seq<char>,
}

impl View for AccountRecord {
    type V = AccountRecordView;

    open spec fn view(&self) -> AccountRecordView {
        AccountRecordView {
            id: self.id as int,
            first_name: self.first_name@,
            last_name: self.last_name@,
            username: self.username@,
            password_hash: self.password_hash@,
        }
    }
}

/// A stored session: one issued refresh credential, kept only as its hash.
#[derive(Debug, Clone)]
pub struct Session {
    pub id: i32,
    pub user_id: i32,
    pub refresh_token_hash: String,
}

pub struct SessionView {
    pub id: int,
    pub user_id: int,
    pub refresh_token_hash: Seq<char>,
}

impl View for Session {
    type V = SessionView;

    open spec fn view(&self) -> SessionView {
        SessionView {
            id: self.id as int,
            user_id: self.user_id as int,
            refresh_token_hash: self.refresh_token_hash@,
        }
    }
}

/// Whether some account in `accounts` has the username `username`.
pub open spec fn username_taken(accounts: Seq<AccountRecordView>, username: Seq<char>) -> bool {
    exists|i: int| 0 <= i < accounts.len() && #[trigger] accounts[i].username == username
}

/// Accounts, numbered from 1 in the order they were created, with unique usernames.
pub struct AccountStore {
    records: Vec<AccountRecord>,
}

impl View for AccountStore {
    type V = Seq<AccountRecordView>;

    closed spec fn view(&self) -> Seq<AccountRecordView> {
        self.records@.map_values(|r: AccountRecord| r@)
    }
}

/// Account ids are positions counted from 1, and no two accounts share a username.
pub open spec fn accounts_wf(accounts: Seq<AccountRecordView>) -> bool {
    &&& accounts.len() <= i32::MAX
    &&& forall|i: int| 0 <= i < accounts.len() ==> #[trigger] accounts[i].id == i + 1
    &&& forall|i: int, j: int|
        0 <= i < j < accounts.len() ==> #[trigger] accounts[i].username
            != #[trigger] accounts[j].username
}

impl AccountStore {
    pub open spec fn wf(&self) -> bool {
        accounts_wf(self@)
    }

    /// An empty store.
    pub fn new() -> (r: AccountStore)
        ensures
            r@ == Seq::<AccountRecordView>::empty(),
            r.wf(),
    {
        let r = AccountStore { records: Vec::new() };
        assert(r@ =~= Seq::<AccountRecordView>::empty());
        r
    }

    /// How many accounts there are.
    pub fn len(&self) -> (r: usize)
        ensures
            r == self@.len(),
    {
        self.records.len()
    }

    /// The account at position `i`.
    pub fn get(&self, i: usize) -> (r: &AccountRecord)
        requires
            i < self@.len(),
        ensures
            r@ == self@[i as int],
    {
        &self.records[i]
    }

    /// The position of the account named `username`, if there is one.
    pub fn find_username(&self, username: &str) -> (r: Option<usize>)
        ensures
            r matches Some(i) ==> i < self@.len() && self@[i as int].username == username@,
            r is None <==> !username_taken(self@, username@),
    {
        let mut i: usize = 0;
        while i < self.records.len()
            invariant
                i <= self@.len(),
                self@.len() == self.records@.len(),
                forall|j: int| 0 <= j < i ==> self@[j].username != username@,
            decreases self.records@.len() - i,
        {
            if same_text(self.records[i].username.as_str(), username) {
                assert(self@[i as int].username == username@);
                return Some(i);
            }
            i = i + 1;
        }
        None
    }

    /// The position of the account with id `id`, if there is one.
    pub fn find_id(&self, id: i32) -> (r: Option<usize>)
        requires
            self.wf(),
        ensures
            r matches Some(i) ==> i < self@.len() && self@[i as int].id == id,
            r is None ==> forall|j: int| 0 <= j < self@.len() ==> self@[j].id != id,
    {
        if id >= 1 && (id as usize) <= self.records.len() {
            let i = (id - 1) as usize;
            assert(self@[i as int].id == i + 1);
            Some(i)
        } else {
            proof {
                assert forall|j: int| 0 <= j < self@.len() implies self@[j].id != id by {
                    assert(self@[j].id == j + 1);
                }
            }
            None
        }
    }

    /// Adds an account under the next id and gives that id; a taken username
    /// or a full store is a `Database` error and changes nothing.
    pub fn insert(
        &mut self,
        first_name: String,
        last_name: String,
        username: String,
        password_hash: String,
    ) -> (r: Result<i32, AccountError>)
        requires
            old(self).wf(),
        ensures
            final(self).wf(),
            r is Ok <==> !username_taken(old(self)@, username@) && old(self)@.len() < i32::MAX,
            r matches Ok(id) ==> id == old(self)@.len() + 1 && final(self)@ == old(self)@.push(
                AccountRecordView {
                    id: id as int,
                    first_name: first_name@,
                    last_name: last_name@,
                    username: username@,
                    password_hash: password_hash@,
                },
            ),
            r matches Err(e) ==> e is Database && final(self)@ == old(self)@,
    {
        if self.find_username(username.as_str()).is_some() {
            return Err(AccountError::Database("username already taken".to_owned()));
        }
        if self.records.len() >= 2147483647 {
            return Err(AccountError::Database("account store is full".to_owned()));
        }
        let id = (self.records.len() + 1) as i32;
        let ghost before = self@;
        self.records.push(AccountRecord { id, first_name, last_name, username, password_hash });
        proof {
            assert(self@ =~= before.push(self.records@.last()@));
            assert forall|i: int, j: int| 0 <= i < j < self@.len() implies #[trigger] self@[i].username
                != #[trigger] self@[j].username by {
                if j == before.len() {
                    assert(before[i].username == self@[i].username);
                }
            }
        }
        Ok(id)
    }
}

/// Sessions, numbered from 1 in the order they were created; none is ever
/// changed or removed.
pub struct SessionStore {
    sessions: Vec<Session>,
}

impl View for SessionStore {
    type V = Seq<SessionView>;

    closed spec fn view(&self) -> Seq<SessionView> {
        self.sessions@.map_values(|s: Session| s@)
    }
}

pub open spec fn sessions_wf(sessions: Seq<SessionView>) -> bool {
    &&& sessions.len() <= i32::MAX
    &&& forall|i: int| 0 <= i < sessions.len() ==> #[trigger] sessions[i].id == i + 1
}

impl SessionStore {
    pub open spec fn wf(&self) -> bool {
        sessions_wf(self@)
    }

    /// An empty store.
    pub fn new() -> (r: SessionStore)
        ensures
            r@ == Seq::<SessionView>::empty(),
            r.wf(),
    {
        let r = SessionStore { sessions: Vec::new() };
        assert(r@ =~= Seq::<SessionView>::empty());
        r
    }

    /// How many sessions there are.
    pub fn len(&self) -> (r: usize)
        ensures
            r == self@.len(),
    {
        self.sessions.len()
    }

    /// The session at position `i`.
    pub fn get(&self, i: usize) -> (r: &Session)
        requires
            i < self@.len(),
        ensures
            r@ == self@[i as int],
    {
        &self.sessions[i]
    }

    /// Appends a session for `user_id` under the next id and gives that id; a
    /// full store is a `Database` error and changes nothing.
    pub fn insert(&mut self, user_id: i32, refresh_token_hash: String) -> (r: Result<
        i32,
        AccountError,
    >)
        requires
            old(self).wf(),
        ensures
            final(self).wf(),
            r is Ok <==> old(self)@.len() < i32::MAX,
            r matches Ok(id) ==> id == old(self)@.len() + 1 && final(self)@ == old(self)@.push(
                SessionView {
                    id: id as int,
                    user_id: user_id as int,
                    refresh_token_hash: refresh_token_hash@,
                },
            ),
            r matches Err(e) ==> e is Database && final(self)@ == old(self)@,
    {
        if self.sessions.len() >= 2147483647 {
            return Err(AccountError::Database("session store is full".to_owned()));
        }
        let id = (self.sessions.len() + 1) as i32;
        let ghost before = self@;
        self.sessions.push(Session { id, user_id, refresh_token_hash });
        assert(self@ =~= before.push(self.sessions@.last()@));
        Ok(id)
    }
}

} // verus!
