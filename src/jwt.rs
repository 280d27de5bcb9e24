//! Short-lived access tokens: `header.payload.signature`, where the header is
//! the fixed HS256 header, the payload is the base64url form of the claims'
//! JSON, and the signature is the HMAC-SHA256 of `header.payload` under the
//! signing secret, in base64url.
use vstd::prelude::*;
use vstd::string::StringExecFns;
use crate::claims::{claims_in_range, payload_of, Claims, ClaimsView};
use crate::error::AccountError;
use base64::Engine;

verus! {

/// The text that base64's URL-safe engine without padding makes of `b`.
pub uninterp spec fn base64url(b: Seq<u8>) -> Seq<char>;

/// The base64url form of the HMAC-SHA256 of `message` under `secret`, as
/// jsonwebtoken's HS256 signing makes it.
pub uninterp spec fn hs256(message: Seq<char>, secret: Seq<char>) -> Seq<char>;

pub open spec fn is_base64url_char(c: char) -> bool {
    ('A' <= c && c <= 'Z') || ('a' <= c && c <= 'z') || ('0' <= c && c <= '9') || c == '-' || c
        == '_'
}

pub open spec fn all_base64url(s: Seq<char>) -> bool {
    forall|i: int| 0 <= i < s.len() ==> is_base64url_char(#[trigger] s[i])
}

pub open spec fn dot_free(s: Seq<char>) -> bool {
    forall|i: int| 0 <= i < s.len() ==> #[trigger] s[i] != '.'
}

#[verifier::external_type_specification]
#[verifier::external_body]
pub struct ExJwtError(jsonwebtoken::errors::Error);

#[verifier::external_type_specification]
#[verifier::external_body]
pub struct ExDecodeError(base64::DecodeError);

/// Relies on base64's `URL_SAFE_NO_PAD.encode`: the text depends on the bytes
/// alone and uses only the URL-safe alphabet, without padding.
#[verifier::external_body]
fn base64url_encode(b: &[u8]) -> (r: String)
    ensures
        r@ == base64url(b@),
        all_base64url(r@),
{
    base64::engine::general_purpose::URL_SAFE_NO_PAD.encode(b)
}

/// Relies on base64's `URL_SAFE_NO_PAD.decode`, which rejects padding and
/// non-canonical trailing bits: it accepts exactly the texts that `encode`
/// makes, and gives back the bytes they were made from.
#[verifier::external_body]
fn base64url_decode(text: &str) -> (r: Result<Vec<u8>, base64::DecodeError>)
    ensures
        r matches Ok(v) ==> base64url(v@) == text@,
        r matches Ok(v) ==> forall|b: Seq<u8>| #[trigger] base64url(b) == text@ ==> v@ == b,
        r is Err ==> forall|b: Seq<u8>| #[trigger] base64url(b) != text@,
{
    base64::engine::general_purpose::URL_SAFE_NO_PAD.decode(text)
}

/// Relies on `jsonwebtoken::crypto::sign` with `Algorithm::HS256` and a key
/// from `EncodingKey::from_secret`: it always succeeds for HMAC, and gives the
/// digest of the message under the secret's bytes in base64url.
#[verifier::external_body]
fn hs256_sign(message: &str, secret: &str) -> (r: Result<String, jsonwebtoken::errors::Error>)
    ensures
        r is Ok,
        r matches Ok(s) ==> s@ == hs256(message@, secret@) && all_base64url(s@),
{
    jsonwebtoken::crypto::sign(
        message.as_bytes(),
        &jsonwebtoken::EncodingKey::from_secret(secret.as_bytes()),
        jsonwebtoken::Algorithm::HS256,
    )
}

/// Relies on `jsonwebtoken::crypto::verify` with `Algorithm::HS256` and a key
/// from `DecodingKey::from_secret`: it signs the message again and compares
/// the result with `signature` in constant time; it always succeeds for HMAC.
#[verifier::external_body]
fn hs256_verify(signature: &str, message: &str, secret: &str) -> (r: Result<
    bool,
    jsonwebtoken::errors::Error,
>)
    ensures
        r is Ok,
        r matches Ok(ok) ==> ok == (signature@ == hs256(message@, secret@)),
{
    jsonwebtoken::crypto::verify(
        signature,
        message.as_bytes(),
        &jsonwebtoken::DecodingKey::from_secret(secret.as_bytes()),
        jsonwebtoken::Algorithm::HS256,
    )
}

/// Relies on `str::split_once` with a `char` pattern: it splits at the first
/// occurrence and drops it, and finds none only where there is none.
#[verifier::external_body]
fn split_at_dot<'a>(s: &'a str) -> (r: Option<(&'a str, &'a str)>)
    ensures
        r matches Some((a, b)) ==> s@ == a@ + seq!['.'] + b@ && dot_free(a@),
        r is None ==> dot_free(s@),
{
    s.split_once('.')
}

/// Relies on chrono's `DateTime<Utc>::from(SystemTime)` and `timestamp`: the
/// system clock in whole seconds since the Unix epoch, negative for a clock
/// set before it (this conversion does not panic).
#[verifier::external_body]
fn unix_time_now() -> (r: i64) {
    chrono::DateTime::<chrono::Utc>::from(std::time::SystemTime::now()).timestamp()
}

/// The header segment of every token: base64url of `{"typ":"JWT","alg":"HS256"}`.
pub const HEADER: &'static str = "eyJ0eXAiOiJKV1QiLCJhbGciOiJIUzI1NiJ9";

/// The issuer named in every token.
pub const ISSUER: &'static str = "knowledge tracing api";

/// The audience named in every token.
pub const AUDIENCE: &'static str = "adapt math desktop-app";

/// How long an access token stays valid, in seconds.
pub const ACCESS_TOKEN_LIFETIME: usize = 900;

/// The claims of a token issued at `now` to `username` with id `uid`.
pub open spec fn access_claims(username: Seq<char>, uid: int, now: nat) -> ClaimsView {
    ClaimsView {
        sub: username,
        uid,
        exp: now + ACCESS_TOKEN_LIFETIME as nat,
        iat: now,
        iss: ISSUER@,
        aud: AUDIENCE@,
    }
}

/// The part of a token that its signature covers.
pub open spec fn signing_input(v: ClaimsView) -> Seq<char> {
    HEADER@ + seq!['.'] + base64url(payload_of(v))
}

/// The claims `v` followed by the signature segment `s`.
pub open spec fn with_signature(v: ClaimsView, s: Seq<char>) -> Seq<char> {
    signing_input(v) + seq!['.'] + s
}

/// The token for the claims `v` under `secret`.
pub open spec fn token_of(v: ClaimsView, secret: Seq<char>) -> Seq<char> {
    with_signature(v, hs256(signing_input(v), secret))
}

/// The payload and signature segments of the token hold no dot, so the
/// token splits back into its three segments.
pub open spec fn framed(v: ClaimsView, secret: Seq<char>) -> bool {
    &&& dot_free(base64url(payload_of(v)))
    &&& dot_free(hs256(signing_input(v), secret))
}

/// `t` is the claims `v` followed by the signature segment `s`, and the
/// payload segment holds no dot.
pub open spec fn shaped(t: Seq<char>, v: ClaimsView, s: Seq<char>) -> bool {
    &&& t == with_signature(v, s)
    &&& dot_free(base64url(payload_of(v)))
}

/// `t` is the token that issuing the claims `v` under `secret` gives.
pub open spec fn issued(t: Seq<char>, v: ClaimsView, secret: Seq<char>) -> bool {
    &&& t == token_of(v, secret)
    &&& framed(v, secret)
    &&& claims_in_range(v)
}

/// What checking the token `t` against `secret` at time `now` gives:
/// - success only for a token issued under `secret` that has not expired, with
///   its claims;
/// - the claims of every such token;
/// - `Authentication` for an expired token, and for the claims of a token
///   under any other signature;
/// - `InvalidToken` for a text without a dot, and only for a text that is not
///   the header, the payload of claims and a signature without a dot, joined
///   by dots;
/// - for a text of three dot-free segments: `InvalidToken` where the first is
///   not the header; else `Authentication` where the last is not the
///   signature of the first two; else `InvalidToken` where the middle one is
///   not the base64url form of the payload of claims;
/// - `InvalidToken` for a text that is not three dot-free segments;
/// - no other error.
pub open spec fn validation_post(
    t: Seq<char>,
    secret: Seq<char>,
    now: nat,
    r: Result<Claims, AccountError>,
) -> bool {
    &&& r matches Ok(c) ==> issued(t, c@, secret) && now < c.exp
    &&& forall|v: ClaimsView| #[trigger]
        issued(t, v, secret) ==> if now < v.exp {
            r matches Ok(c) && c@ == v
        } else {
            r matches Err(e) && e is Authentication
        }
    &&& forall|v: ClaimsView, s: Seq<char>|
        t == #[trigger] with_signature(v, s) && dot_free(base64url(payload_of(v))) && dot_free(s)
            && s != hs256(signing_input(v), secret) ==> (r matches Err(e) && e is Authentication)
    &&& dot_free(t) ==> (r matches Err(e) && e is InvalidToken)
    &&& (r matches Err(e) && e is InvalidToken) ==> (forall|v: ClaimsView, s: Seq<char>|
        t == #[trigger] with_signature(v, s) && dot_free(base64url(payload_of(v))) && dot_free(s)
            ==> !claims_in_range(v))
    &&& (forall|h: Seq<char>, p: Seq<char>, g: Seq<char>| !#[trigger] segments(t, h, p, g)) ==> (
    r matches Err(e) && e is InvalidToken)
    &&& forall|h: Seq<char>, p: Seq<char>, g: Seq<char>| #[trigger]
        segments(t, h, p, g) && h != HEADER@ ==> (r matches Err(e) && e is InvalidToken)
    &&& forall|p: Seq<char>, g: Seq<char>| #[trigger]
        segments(t, HEADER@, p, g) && g != hs256(HEADER@ + seq!['.'] + p, secret) ==> (r matches Err(
            e,
        ) && e is Authentication)
    &&& forall|p: Seq<char>, g: Seq<char>| #[trigger]
        segments(t, HEADER@, p, g) && g == hs256(HEADER@ + seq!['.'] + p, secret) && (forall|
            b: Seq<u8>,
        | #[trigger] base64url(b) != p) ==> (r matches Err(e) && e is InvalidToken)
    &&& forall|p: Seq<char>, g: Seq<char>, b: Seq<u8>|
        #[trigger] segments(t, HEADER@, p, g) && g == hs256(HEADER@ + seq!['.'] + p, secret)
            && #[trigger] base64url(b) == p && (forall|v: ClaimsView| #[trigger]
            payload_of(v) == b ==> !claims_in_range(v)) ==> (r matches Err(e) && e is InvalidToken)
    &&& r matches Err(e) ==> e is Authentication || e is InvalidToken
}

/// `t` is the three dot-free segments `h`, `p` and `g`, joined by dots.
pub open spec fn segments(t: Seq<char>, h: Seq<char>, p: Seq<char>, g: Seq<char>) -> bool {
    &&& t == h + seq!['.'] + p + seq!['.'] + g
    &&& dot_free(h)
    &&& dot_free(p)
    &&& dot_free(g)
}

/// A text is three dot-free segments in at most one way.
proof fn lemma_segments_unique(
    t: Seq<char>,
    head_a: Seq<char>,
    body_a: Seq<char>,
    sig_a: Seq<char>,
    head_b: Seq<char>,
    body_b: Seq<char>,
    sig_b: Seq<char>,
)
    requires
        segments(t, head_a, body_a, sig_a),
        segments(t, head_b, body_b, sig_b),
    ensures
        head_a == head_b && body_a == body_b && sig_a == sig_b,
{
    assert(t =~= head_a + seq!['.'] + (body_a + seq!['.'] + sig_a));
    assert(t =~= head_b + seq!['.'] + (body_b + seq!['.'] + sig_b));
    lemma_split_unique(head_a, body_a + seq!['.'] + sig_a, head_b, body_b + seq!['.'] + sig_b);
    lemma_split_unique(body_a, sig_a, body_b, sig_b);
}

/// Splits a token into its three dot-free segments, where it has them.
fn split_token<'a>(token: &'a str) -> (r: Option<(&'a str, &'a str, &'a str)>)
    ensures
        r matches Some((h, p, g)) ==> segments(token@, h@, p@, g@),
        r is None ==> forall|h: Seq<char>, p: Seq<char>, g: Seq<char>|
            !#[trigger] segments(token@, h, p, g),
{
    let (h, rest) = match split_at_dot(token) {
        Some(x) => x,
        None => {
            proof {
                assert forall|h: Seq<char>, p: Seq<char>, g: Seq<char>|
                    !#[trigger] segments(token@, h, p, g) by {
                    if segments(token@, h, p, g) {
                        assert(token@[h.len() as int] == '.');
                    }
                }
            }
            return None;
        },
    };
    let (p, g) = match split_at_dot(rest) {
        Some(x) => x,
        None => {
            proof {
                assert forall|head_b: Seq<char>, body_b: Seq<char>, sig_b: Seq<char>|
                    !#[trigger] segments(token@, head_b, body_b, sig_b) by {
                    if segments(token@, head_b, body_b, sig_b) {
                        assert(token@ =~= head_b + seq!['.'] + (body_b + seq!['.'] + sig_b));
                        lemma_split_unique(h@, rest@, head_b, body_b + seq!['.'] + sig_b);
                        assert(rest@[body_b.len() as int] == '.');
                    }
                }
            }
            return None;
        },
    };
    match split_at_dot(g) {
        Some((a, b)) => {
            proof {
                assert(g@[a@.len() as int] == '.');
                assert forall|head_b: Seq<char>, body_b: Seq<char>, sig_b: Seq<char>|
                    !#[trigger] segments(token@, head_b, body_b, sig_b) by {
                    if segments(token@, head_b, body_b, sig_b) {
                        assert(token@ =~= head_b + seq!['.'] + (body_b + seq!['.'] + sig_b));
                        lemma_split_unique(h@, rest@, head_b, body_b + seq!['.'] + sig_b);
                        lemma_split_unique(p@, g@, body_b, sig_b);
                    }
                }
            }
            None
        },
        None => {
            assert(token@ =~= h@ + seq!['.'] + p@ + seq!['.'] + g@);
            Some((h, p, g))
        },
    }
}

proof fn lemma_base64url_dot_free(s: Seq<char>)
    requires
        all_base64url(s),
    ensures
        dot_free(s),
{
    assert forall|i: int| 0 <= i < s.len() implies #[trigger] s[i] != '.' by {
        assert(is_base64url_char(s[i]));
    }
}

proof fn lemma_header_dot_free()
    ensures
        dot_free(HEADER@),
{
    reveal_strlit("eyJ0eXAiOiJKV1QiLCJhbGciOiJIUzI1NiJ9");
}

/// A text splits in only one way at a dot whose left part holds no dot.
proof fn lemma_split_unique(a1: Seq<char>, b1: Seq<char>, a2: Seq<char>, b2: Seq<char>)
    requires
        a1 + seq!['.'] + b1 == a2 + seq!['.'] + b2,
        dot_free(a1),
        dot_free(a2),
    ensures
        a1 == a2,
        b1 == b2,
{
    let s = a1 + seq!['.'] + b1;
    if a1.len() < a2.len() {
        assert(s[a1.len() as int] == '.');
        assert(s[a1.len() as int] == a2[a1.len() as int]);
    } else if a2.len() < a1.len() {
        assert(s[a2.len() as int] == '.');
        assert(s[a2.len() as int] == a1[a2.len() as int]);
    } else {
        assert(a1 =~= s.subrange(0, a1.len() as int));
        assert(a2 =~= s.subrange(0, a1.len() as int));
        assert(b1 =~= s.subrange(a1.len() as int + 1, s.len() as int));
        assert(b2 =~= s.subrange(a1.len() as int + 1, s.len() as int));
    }
}

fn join_with_dot(a: &str, b: &str) -> (r: String)
    ensures
        r@ == a@ + seq!['.'] + b@,
{
    let mut r = a.to_owned();
    r.append(".");
    r.append(b);
    proof {
        reveal_strlit(".");
    }
    r
}

pub(crate) fn same_text(a: &str, b: &str) -> (r: bool)
    ensures
        r == (a@ == b@),
{
    let x = a.to_owned();
    let y = b.to_owned();
    x == y
}

/// Signs a token for `username` with id `user_id`, issued at `now` and
/// valid for `ACCESS_TOKEN_LIFETIME` seconds after it.
pub fn issue_access_token_at(username: &str, user_id: i32, secret: &str, now: usize) -> (r: Result<
    String,
    AccountError,
>)
    ensures
        r is Ok <==> now + ACCESS_TOKEN_LIFETIME <= usize::MAX,
        r matches Ok(t) ==> issued(t@, access_claims(username@, user_id as int, now as nat), secret@),
        r matches Err(e) ==> e is TokenCreation,
{
    if now > usize::MAX - ACCESS_TOKEN_LIFETIME {
        return Err(AccountError::TokenCreation("expiry time out of range".to_owned()));
    }
    let claims = Claims {
        sub: username.to_owned(),
        uid: user_id,
        exp: now + ACCESS_TOKEN_LIFETIME,
        iat: now,
        iss: ISSUER.to_owned(),
        aud: AUDIENCE.to_owned(),
    };
    let payload = claims.to_payload();
    let encoded = base64url_encode(payload.as_slice());
    let message = join_with_dot(HEADER, encoded.as_str());
    let signature = match hs256_sign(message.as_str(), secret) {
        Ok(s) => s,
        Err(_) => {
            return Err(AccountError::TokenCreation("signing failed".to_owned()));
        },
    };
    let token = join_with_dot(message.as_str(), signature.as_str());
    proof {
        assert(claims@ == access_claims(username@, user_id as int, now as nat));
        lemma_base64url_dot_free(encoded@);
        lemma_base64url_dot_free(signature@);
    }
    Ok(token)
}

/// Checks a token against `secret` at time `now` and gives its claims.
///
/// A token that does not split into three segments, has another header, or
/// whose payload is not the base64url form of a claims payload is
/// `InvalidToken`; one whose signature does not match, or that has expired
/// (`now >= exp`), is `Authentication`.
#[verifier::rlimit(100)]
#[verifier::spinoff_prover]
pub fn validate_jwt_at(token: &str, secret: &str, now: usize) -> (r: Result<Claims, AccountError>)
    ensures
        validation_post(token@, secret@, now as nat, r),
{
    proof {
        lemma_header_dot_free();
        assert forall|v: ClaimsView, g: Seq<char>|
            token@ == #[trigger] with_signature(v, g) && dot_free(base64url(payload_of(v)))
                && dot_free(g) implies segments(token@, HEADER@, base64url(payload_of(v)), g) by {}
        assert forall|v: ClaimsView| #[trigger] issued(token@, v, secret@) implies segments(
            token@,
            HEADER@,
            base64url(payload_of(v)),
            hs256(signing_input(v), secret@),
        ) by {}
        if dot_free(token@) {
            assert forall|h: Seq<char>, p: Seq<char>, g: Seq<char>|
                !#[trigger] segments(token@, h, p, g) by {
                if segments(token@, h, p, g) {
                    assert(token@[h.len() as int] == '.');
                }
            }
        }
    }
    let (header, payload, signature) = match split_token(token) {
        Some(x) => x,
        None => {
            return Err(AccountError::InvalidToken("token is not three segments".to_owned()));
        },
    };
    proof {
        assert forall|h: Seq<char>, p: Seq<char>, g: Seq<char>| #[trigger]
            segments(token@, h, p, g) implies h == header@ && p == payload@ && g == signature@ by {
            lemma_segments_unique(token@, h, p, g, header@, payload@, signature@);
        }
    }
    if !same_text(header, HEADER) {
        return Err(AccountError::InvalidToken("unexpected token header".to_owned()));
    }
    let message = join_with_dot(header, payload);
    let signed = match hs256_verify(signature, message.as_str(), secret) {
        Ok(ok) => ok,
        Err(_) => {
            return Err(AccountError::InvalidToken("signature check failed".to_owned()));
        },
    };
    if !signed {
        return Err(AccountError::Authentication("token signature does not match".to_owned()));
    }
    let bytes = match base64url_decode(payload) {
        Ok(b) => b,
        Err(_) => {
            return Err(AccountError::InvalidToken("payload is not base64url".to_owned()));
        },
    };
    let claims = match Claims::from_payload(bytes.as_slice()) {
        Some(c) => c,
        None => {
            proof {
                assert forall|v: ClaimsView| #[trigger] issued(token@, v, secret@) implies false by {
                    assert(bytes@ == payload_of(v));
                }
                assert forall|v: ClaimsView, g: Seq<char>|
                    token@ == #[trigger] with_signature(v, g) && dot_free(base64url(payload_of(v)))
                        && dot_free(g) implies !claims_in_range(v) by {
                    assert(bytes@ == payload_of(v));
                }
            }
            return Err(AccountError::InvalidToken("payload is not a claims object".to_owned()));
        },
    };
    proof {
        assert(message@ == signing_input(claims@));
        assert forall|v: ClaimsView| #[trigger] issued(token@, v, secret@) implies claims@ == v by {
            assert(bytes@ == payload_of(v));
        }
    }
    if now >= claims.exp {
        return Err(AccountError::Authentication("token has expired".to_owned()));
    }
    proof {
        assert(payload@ == base64url(payload_of(claims@)));
        assert(signature@ == hs256(signing_input(claims@), secret@));
        assert(token@ =~= with_signature(claims@, signature@));
        assert(framed(claims@, secret@));
    }
    Ok(claims)
}

/// Signs a token for `username` with id `user_id`, issued now.
pub fn issue_access_token(username: &str, user_id: i32, secret: &str) -> (r: Result<
    String,
    AccountError,
>)
    ensures
        r matches Ok(t) ==> exists|now: nat| #[trigger]
            issued(t@, access_claims(username@, user_id as int, now), secret@),
        r matches Err(e) ==> e is TokenCreation,
{
    let now = match current_time() {
        Some(n) => n,
        None => {
            return Err(AccountError::TokenCreation("clock is before the epoch".to_owned()));
        },
    };
    issue_access_token_at(username, user_id, secret, now)
}

/// Checks a token against `secret` at the current time and gives its claims.
pub fn validate_jwt(token: &str, secret: &str) -> (r: Result<Claims, AccountError>)
    ensures
        (exists|now: nat| #[trigger] validation_post(token@, secret@, now, r)) || (r matches Err(e)
            && e is Other),
{
    let now = match current_time() {
        Some(n) => n,
        None => {
            return Err(AccountError::Other("clock is before the epoch".to_owned()));
        },
    };
    let r = validate_jwt_at(token, secret, now);
    assert(validation_post(token@, secret@, now as nat, r));
    r
}

/// The current time in whole seconds since the Unix epoch; `None` for a clock
/// set before the epoch, or one too far ahead for a `usize`.
pub(crate) fn current_time() -> (r: Option<usize>) {
    let t = unix_time_now();
    if t < 0 || t as u64 > usize::MAX as u64 {
        None
    } else {
        Some(t as usize)
    }
}

} // verus!
