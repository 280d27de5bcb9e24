//! Plain request and response bodies of the HTTP layer.
use vstd::prelude::*;
use vstd::string::StringExecFns;

verus! {

/// Whether a learner answered a question correctly.
#[derive(Debug, Clone, Copy, PartialEq, Eq, Structural)]
pub struct PerformanceUpdate {
    pub correct: bool,
}

/// A generated question with its answer.
#[derive(Debug, Clone)]
pub struct QuestionPair {
    pub question: String,
    pub answer: String,
}

/// A refresh credential in its transport form.
#[derive(Debug, Clone)]
pub struct TokenValidation {
    pub token: String,
}

/// The connection string for the database at `ip`, as user `user` with
/// password `password`, on database `db`.
pub fn connection_string(ip: &str, user: &str, db: &str, password: &str) -> (r: String)
    ensures
        r@ == "host="@ + ip@ + " user="@ + user@ + " db="@ + db@ + " password="@ + password@,
{
    let mut r = "host=".to_owned();
    r.append(ip);
    r.append(" user=");
    r.append(user);
    r.append(" db=");
    r.append(db);
    r.append(" password=");
    r.append(password);
    r
}

} // verus!
