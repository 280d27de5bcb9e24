//! Accounts and sessions: registration, password login that issues a refresh
//! credential, and redemption of a refresh credential by scanning the
//! stored session hashes.
use vstd::prelude::*;
use vstd::string::StringExecFns;
use vstd::utf8::encode_utf8;
use crate::claims::Claims;
use crate::error::AccountError;
use crate::password::{argon2_accepts, hash_secret, os_random, phc_parses, verify_secret};
use crate::store::{
    username_taken, AccountRecordView, AccountStore, SessionStore, SessionView,
};
use crate::text::{signed_decimal, write_signed, MINUS};

verus! {

/// A new account as submitted for registration.
#[derive(Debug, Clone)]
pub struct Account {
    pub first_name: String,
    pub last_name: String,
    pub username: String,
    pub password: String,
}

/// Login credentials.
#[derive(Debug, Clone)]
pub struct SignIn {
    pub username: String,
    pub password: String,
}

/// What scanning the sessions for a presented refresh credential finds.
pub enum SessionLookup {
    /// The first session whose hash accepts the credential belongs to this user.
    Found(int),
    /// A session met before any match holds a malformed hash record.
    Malformed,
    /// No session accepts the credential.
    Unmatched,
}

/// Scans `sessions` from position `i` for one whose hash accepts `credential`.
pub open spec fn lookup_from(sessions: Seq<SessionView>, credential: Seq<u8>, i: int) -> SessionLookup
    decreases sessions.len() - i,
{
    if i < 0 || i >= sessions.len() {
        SessionLookup::Unmatched
    } else if !phc_parses(sessions[i].refresh_token_hash) {
        SessionLookup::Malformed
    } else if argon2_accepts(credential, sessions[i].refresh_token_hash) {
        SessionLookup::Found(sessions[i].user_id)
    } else {
        lookup_from(sessions, credential, i + 1)
    }
}

pub open spec fn session_lookup(sessions: Seq<SessionView>, credential: Seq<u8>) -> SessionLookup {
    lookup_from(sessions, credential, 0)
}

/// The position of the account named `username`.
pub open spec fn account_index(accounts: Seq<AccountRecordView>, username: Seq<char>) -> int {
    choose|i: int| 0 <= i < accounts.len() && accounts[i].username == username
}

/// Whether `password` is the password of the account named `username`.
pub open spec fn password_matches(
    accounts: Seq<AccountRecordView>,
    username: Seq<char>,
    password: Seq<char>,
) -> bool {
    &&& username_taken(accounts, username)
    &&& phc_parses(accounts[account_index(accounts, username)].password_hash)
    &&& argon2_accepts(
        encode_utf8(password),
        accounts[account_index(accounts, username)].password_hash,
    )
}

/// A session appended for `user_id` whose hash accepts `credential`.
pub open spec fn session_added(
    before: Seq<SessionView>,
    after: Seq<SessionView>,
    user_id: int,
    credential: Seq<u8>,
) -> bool {
    &&& after.len() == before.len() + 1
    &&& after.drop_last() == before
    &&& after.last().id == before.len() + 1
    &&& after.last().user_id == user_id
    &&& phc_parses(after.last().refresh_token_hash)
    &&& argon2_accepts(credential, after.last().refresh_token_hash)
}

/// The character that stands for a digit or a minus sign.
pub open spec fn text_char(b: u8) -> char {
    if b == MINUS {
        '-'
    } else if b == 48 {
        '0'
    } else if b == 49 {
        '1'
    } else if b == 50 {
        '2'
    } else if b == 51 {
        '3'
    } else if b == 52 {
        '4'
    } else if b == 53 {
        '5'
    } else if b == 54 {
        '6'
    } else if b == 55 {
        '7'
    } else if b == 56 {
        '8'
    } else {
        '9'
    }
}

/// The decimal text of a user id.
pub open spec fn id_text(id: int) -> Seq<char> {
    signed_decimal(id).map_values(|b: u8| text_char(b))
}

/// Registers `new_account`: its username must not be taken; its password is
/// stored only as a salted hash, under the next account id.
pub fn create_account(accounts: &mut AccountStore, new_account: Account) -> (r: Result<
    (),
    AccountError,
>)
    requires
        old(accounts).wf(),
    ensures
        final(accounts).wf(),
        username_taken(old(accounts)@, new_account.username@) ==> (r matches Err(e)
            && e is Database),
        r is Ok ==> final(accounts)@.len() == old(accounts)@.len() + 1 && final(accounts)@.drop_last()
            == old(accounts)@ && final(accounts)@.last().username == new_account.username@
            && final(accounts)@.last().first_name == new_account.first_name@
            && final(accounts)@.last().last_name == new_account.last_name@ && phc_parses(
            final(accounts)@.last().password_hash,
        ) && argon2_accepts(
            encode_utf8(new_account.password@),
            final(accounts)@.last().password_hash,
        ),
        !username_taken(old(accounts)@, new_account.username@) && old(accounts)@.len() < i32::MAX
            ==> (r is Ok || (r matches Err(e) && e is Hashing)),
        (r matches Err(e) && e is Database) ==> username_taken(
            old(accounts)@,
            new_account.username@,
        ) || old(accounts)@.len() >= i32::MAX,
        r matches Err(e) ==> (e is Database || e is Hashing) && final(accounts)@ == old(accounts)@,
{
    if accounts.find_username(new_account.username.as_str()).is_some() {
        return Err(AccountError::Database("Failed to insert new user: username taken".to_owned()));
    }
    if accounts.len() >= 2147483647 {
        return Err(AccountError::Database("Failed to insert new user: store is full".to_owned()));
    }
    let hash = match hash_secret(new_account.password.as_str().as_bytes()) {
        Ok(h) => h,
        Err(e) => {
            return Err(e);
        },
    };
    let ghost h = hash@;
    match accounts.insert(new_account.first_name, new_account.last_name, new_account.username, hash) {
        Ok(_) => {
            assert(final(accounts)@.drop_last() =~= old(accounts)@);
            Ok(())
        },
        Err(e) => Err(e),
    }
}

/// Checks the password of `account_details` and, where it matches, opens a
/// session for the account and hands back its new refresh credential.
///
/// An unknown username and a wrong password are both `Authentication`.
pub fn check_password(
    accounts: &AccountStore,
    sessions: &mut SessionStore,
    account_details: SignIn,
) -> (r: Result<[u8; 32], AccountError>)
    requires
        accounts.wf(),
        old(sessions).wf(),
    ensures
        final(sessions).wf(),
        !username_taken(accounts@, account_details.username@) ==> (r matches Err(e)
            && e is Authentication),
        username_taken(accounts@, account_details.username@) && !phc_parses(
            accounts@[account_index(accounts@, account_details.username@)].password_hash,
        ) ==> (r matches Err(e) && e is Hashing),
        username_taken(accounts@, account_details.username@) && phc_parses(
            accounts@[account_index(accounts@, account_details.username@)].password_hash,
        ) && !password_matches(accounts@, account_details.username@, account_details.password@)
            ==> (r matches Err(e) && e is Authentication),
        password_matches(accounts@, account_details.username@, account_details.password@) ==> (
        r matches Err(e) ==> e is Hashing || e is Database),
        r matches Ok(credential) ==> password_matches(
            accounts@,
            account_details.username@,
            account_details.password@,
        ) && session_added(
            old(sessions)@,
            final(sessions)@,
            accounts@[account_index(accounts@, account_details.username@)].id,
            credential@,
        ),
        (r matches Err(e) && e is Database) ==> old(sessions)@.len() >= i32::MAX,
        r is Err ==> final(sessions)@ == old(sessions)@,
{
    let i = match accounts.find_username(account_details.username.as_str()) {
        Some(i) => i,
        None => {
            return Err(AccountError::Authentication("Invalid account details".to_owned()));
        },
    };
    proof {
        let k = account_index(accounts@, account_details.username@);
        assert(accounts@[i as int].username == account_details.username@);
        assert(0 <= k < accounts@.len() && accounts@[k].username == account_details.username@);
        if k != i {
            if k < i {
                assert(accounts@[k].username != accounts@[i as int].username);
            } else {
                assert(accounts@[i as int].username != accounts@[k].username);
            }
        }
    }
    let record = accounts.get(i);
    match check_stored_password(
        account_details.password.as_str(),
        Some(record.password_hash.as_str()),
    ) {
        Ok(()) => {},
        Err(e) => {
            return Err(e);
        },
    }
    create_refresh_token(record.id, sessions)
}

/// Checks `password` against the stored hash of the account it is presented
/// for, `None` where there is no such account. No account and a wrong password
/// are both `Authentication`; a malformed record is `Hashing`.
pub fn check_stored_password(password: &str, stored_hash: Option<&str>) -> (r: Result<
    (),
    AccountError,
>)
    ensures
        match stored_hash {
            None => r matches Err(e) && e is Authentication,
            Some(h) => if !phc_parses(h@) {
                r matches Err(e) && e is Hashing
            } else if argon2_accepts(encode_utf8(password@), h@) {
                r is Ok
            } else {
                r matches Err(e) && e is Authentication
            },
        },
{
    let hash = match stored_hash {
        Some(h) => h,
        None => {
            return Err(AccountError::Authentication("Invalid account details".to_owned()));
        },
    };
    match verify_secret(password.as_bytes(), hash) {
        Ok(true) => Ok(()),
        Ok(false) => Err(AccountError::Authentication("Invalid account details".to_owned())),
        Err(e) => Err(e),
    }
}

/// Draws a fresh 256-bit refresh credential from the operating system's
/// secure random source; a failing source is a `Hashing` error.
pub fn draw_credential() -> (r: Result<[u8; 32], AccountError>)
    ensures
        r matches Err(e) ==> e is Hashing,
{
    match os_random() {
        Ok(b) => Ok(b),
        Err(_) => Err(AccountError::Hashing("no random credential available".to_owned())),
    }
}

/// Stores the salted hash of `credential` as a new session for `user_id`. A
/// full store is a `Database` error; otherwise only hashing can fail.
pub fn open_session(sessions: &mut SessionStore, user_id: i32, credential: [u8; 32]) -> (r: Result<
    (),
    AccountError,
>)
    requires
        old(sessions).wf(),
    ensures
        final(sessions).wf(),
        old(sessions)@.len() >= i32::MAX ==> (r matches Err(e) && e is Database),
        old(sessions)@.len() < i32::MAX ==> (r is Ok || (r matches Err(e) && e is Hashing)),
        r is Ok ==> session_added(old(sessions)@, final(sessions)@, user_id as int, credential@),
        r is Err ==> final(sessions)@ == old(sessions)@,
{
    if sessions.len() >= 2147483647 {
        return Err(AccountError::Database("Failed to insert session: store is full".to_owned()));
    }
    let hash = match hash_secret(credential.as_slice()) {
        Ok(h) => h,
        Err(e) => {
            return Err(e);
        },
    };
    match sessions.insert(user_id, hash) {
        Ok(_) => {
            assert(final(sessions)@.drop_last() =~= old(sessions)@);
            Ok(())
        },
        Err(e) => Err(e),
    }
}

/// Draws a fresh 256-bit credential, stores its salted hash as a new session
/// for `user_id`, and hands the credential back.
fn create_refresh_token(user_id: i32, sessions: &mut SessionStore) -> (r: Result<
    [u8; 32],
    AccountError,
>)
    requires
        old(sessions).wf(),
    ensures
        final(sessions).wf(),
        r matches Ok(credential) ==> session_added(
            old(sessions)@,
            final(sessions)@,
            user_id as int,
            credential@,
        ),
        (r matches Err(e) && e is Database) ==> old(sessions)@.len() >= i32::MAX,
        r matches Err(e) ==> (e is Hashing || e is Database) && final(sessions)@ == old(
            sessions,
        )@,
{
    let credential = match draw_credential() {
        Ok(c) => c,
        Err(e) => {
            return Err(e);
        },
    };
    match open_session(sessions, user_id, credential) {
        Ok(()) => Ok(credential),
        Err(e) => Err(e),
    }
}

/// Finds the user that a presented refresh credential belongs to, by checking
/// it against every stored session hash in turn.
pub fn find_session_user(sessions: &SessionStore, refresh_token: &[u8; 32]) -> (r: Result<
    i32,
    AccountError,
>)
    ensures
        match session_lookup(sessions@, refresh_token@) {
            SessionLookup::Found(uid) => r matches Ok(u) && u == uid,
            SessionLookup::Malformed => r matches Err(e) && e is Hashing,
            SessionLookup::Unmatched => r matches Err(e) && e is Authentication,
        },
{
    let credential = refresh_token.as_slice();
    let mut i: usize = 0;
    while i < sessions.len()
        invariant
            i <= sessions@.len(),
            credential@ == refresh_token@,
            session_lookup(sessions@, refresh_token@) == lookup_from(
                sessions@,
                refresh_token@,
                i as int,
            ),
        decreases sessions@.len() - i,
    {
        let session = sessions.get(i);
        match verify_secret(credential, session.refresh_token_hash.as_str()) {
            Ok(true) => {
                return Ok(session.user_id);
            },
            Ok(false) => {},
            Err(e) => {
                return Err(e);
            },
        }
        i = i + 1;
    }
    Err(AccountError::Authentication("Invalid or expired refresh token".to_owned()))
}

fn char_text(b: u8) -> (r: &'static str)
    ensures
        r@ == seq![text_char(b)],
{
    if b == MINUS {
        proof {
            reveal_strlit("-");
        }
        "-"
    } else if b == 48 {
        proof {
            reveal_strlit("0");
        }
        "0"
    } else if b == 49 {
        proof {
            reveal_strlit("1");
        }
        "1"
    } else if b == 50 {
        proof {
            reveal_strlit("2");
        }
        "2"
    } else if b == 51 {
        proof {
            reveal_strlit("3");
        }
        "3"
    } else if b == 52 {
        proof {
            reveal_strlit("4");
        }
        "4"
    } else if b == 53 {
        proof {
            reveal_strlit("5");
        }
        "5"
    } else if b == 54 {
        proof {
            reveal_strlit("6");
        }
        "6"
    } else if b == 55 {
        proof {
            reveal_strlit("7");
        }
        "7"
    } else if b == 56 {
        proof {
            reveal_strlit("8");
        }
        "8"
    } else {
        proof {
            reveal_strlit("9");
        }
        "9"
    }
}

/// The decimal text of `id`.
pub fn user_id_text(id: i32) -> (r: String)
    ensures
        r@ == id_text(id as int),
{
    let mut digits: Vec<u8> = Vec::new();
    write_signed(&mut digits, id);
    assert(digits@ =~= signed_decimal(id as int));
    let mut out = String::new();
    let mut k: usize = 0;
    while k < digits.len()
        invariant
            k <= digits@.len(),
            digits@ == signed_decimal(id as int),
            out@ == digits@.subrange(0, k as int).map_values(|b: u8| text_char(b)),
        decreases digits@.len() - k,
    {
        let ghost before = out@;
        out.append(char_text(digits[k]));
        assert(digits@.subrange(0, k + 1).map_values(|b: u8| text_char(b)) =~= before.push(
            text_char(digits@[k as int]),
        ));
        k = k + 1;
    }
    assert(digits@.subrange(0, k as int) =~= digits@);
    out
}

/// Redeems a refresh credential: the decimal id of the user whose session it
/// belongs to.
pub fn check_token(sessions: &SessionStore, refresh_token: [u8; 32]) -> (r: Result<
    String,
    AccountError,
>)
    ensures
        match session_lookup(sessions@, refresh_token@) {
            SessionLookup::Found(uid) => r matches Ok(t) && t@ == id_text(uid),
            SessionLookup::Malformed => r matches Err(e) && e is Hashing,
            SessionLookup::Unmatched => r matches Err(e) && e is Authentication,
        },
{
    match find_session_user(sessions, &refresh_token) {
        Ok(uid) => Ok(user_id_text(uid)),
        Err(e) => Err(e),
    }
}

/// The names on the account that `claims` identify, with the username and
/// password left as the placeholder `none`.
pub fn fetch_details(accounts: &AccountStore, claims: &Claims) -> (r: Result<Account, AccountError>)
    requires
        accounts.wf(),
    ensures
        r is Ok <==> 1 <= claims.uid <= accounts@.len(),
        r matches Ok(a) ==> a.first_name@ == accounts@[claims.uid - 1].first_name
            && a.last_name@ == accounts@[claims.uid - 1].last_name && a.username@ == "none"@
            && a.password@ == "none"@,
        r matches Err(e) ==> e is Database,
{
    match accounts.find_id(claims.uid) {
        Some(i) => {
            let record = accounts.get(i);
            assert(accounts@[i as int].id == i + 1);
            Ok(
                Account {
                    first_name: record.first_name.clone(),
                    last_name: record.last_name.clone(),
                    username: "none".to_owned(),
                    password: "none".to_owned(),
                },
            )
        },
        None => {
            proof {
                if 1 <= claims.uid <= accounts@.len() {
                    assert(accounts@[claims.uid - 1].id == claims.uid);
                }
            }
            Err(AccountError::Database("Failed to find user".to_owned()))
        },
    }
}

} // verus!
