//! The claims that an access token carries, and their JSON payload.
//!
//! The payload is one JSON object whose members come in a fixed order:
//! `{"sub":..,"uid":..,"exp":..,"iat":..,"iss":..,"aud":..}`, with no spaces.
use vstd::prelude::*;
use vstd::utf8::{decode_utf8, encode_utf8, valid_utf8};
use crate::text::{
    decimal, digit_run, is_digit, lemma_read_decimal, lemma_read_quoted, quoted, read_decimal,
    read_quoted, read_signed, read_string, signed_decimal, write_decimal, write_quoted,
    write_signed, QUOTE,
};

verus! {

broadcast use vstd::utf8::encode_utf8_valid_utf8, vstd::utf8::encode_utf8_decode_utf8;

/// Who a token was issued to, when, by whom and for whom.
#[derive(Debug, Clone)]
pub struct Claims {
    /// The account's username.
    pub sub: String,
    /// The account's id.
    pub uid: i32,
    /// Expiry, in seconds since the Unix epoch.
    pub exp: usize,
    /// Issue time, in seconds since the Unix epoch.
    pub iat: usize,
    /// The issuer.
    pub iss: String,
    /// The intended audience.
    pub aud: String,
}

/// The claims as mathematical values.
pub struct ClaimsView {
    pub sub: Seq<char>,
    pub uid: int,
    pub exp: nat,
    pub iat: nat,
    pub iss: Seq<char>,
    pub aud: Seq<char>,
}

impl View for Claims {
    type V = ClaimsView;

    open spec fn view(&self) -> ClaimsView {
        ClaimsView {
            sub: self.sub@,
            uid: self.uid as int,
            exp: self.exp as nat,
            iat: self.iat as nat,
            iss: self.iss@,
            aud: self.aud@,
        }
    }
}

/// The values that a `Claims` can hold.
pub open spec fn claims_in_range(v: ClaimsView) -> bool {
    &&& i32::MIN <= v.uid <= i32::MAX
    &&& v.exp <= usize::MAX
    &&& v.iat <= usize::MAX
}

pub const COLON: u8 = 58;

pub const COMMA: u8 = 44;

pub const OPEN_BRACE: u8 = 123;

pub const CLOSE_BRACE: u8 = 125;

/// The bytes that open a member: the lead byte (`{` or `,`), then `"name":`.
pub open spec fn key(lead: u8, name: Seq<u8>) -> Seq<u8> {
    seq![lead, QUOTE] + name + seq![QUOTE, COLON]
}

pub open spec fn name_sub() -> Seq<u8> {
    seq![115u8, 117u8, 98u8]
}

pub open spec fn name_uid() -> Seq<u8> {
    seq![117u8, 105u8, 100u8]
}

pub open spec fn name_exp() -> Seq<u8> {
    seq![101u8, 120u8, 112u8]
}

pub open spec fn name_iat() -> Seq<u8> {
    seq![105u8, 97u8, 116u8]
}

pub open spec fn name_iss() -> Seq<u8> {
    seq![105u8, 115u8, 115u8]
}

pub open spec fn name_aud() -> Seq<u8> {
    seq![97u8, 117u8, 100u8]
}

/// The JSON payload of the claims `v`, byte for byte.
pub open spec fn payload_of(v: ClaimsView) -> Seq<u8> {
    key(OPEN_BRACE, name_sub()) + quoted(encode_utf8(v.sub)) + key(COMMA, name_uid())
        + signed_decimal(v.uid) + key(COMMA, name_exp()) + decimal(v.exp) + key(COMMA, name_iat())
        + decimal(v.iat) + key(COMMA, name_iss()) + quoted(encode_utf8(v.iss)) + key(
        COMMA,
        name_aud(),
    ) + quoted(encode_utf8(v.aud)) + seq![CLOSE_BRACE]
}

pub open spec fn pos1(v: ClaimsView) -> int {
    7 + quoted(encode_utf8(v.sub)).len() as int
}

pub open spec fn pos2(v: ClaimsView) -> int {
    pos1(v) + 7 + signed_decimal(v.uid).len()
}

pub open spec fn pos3(v: ClaimsView) -> int {
    pos2(v) + 7 + decimal(v.exp).len()
}

pub open spec fn pos4(v: ClaimsView) -> int {
    pos3(v) + 7 + decimal(v.iat).len()
}

pub open spec fn pos5(v: ClaimsView) -> int {
    pos4(v) + 7 + quoted(encode_utf8(v.iss)).len()
}

pub open spec fn pos6(v: ClaimsView) -> int {
    pos5(v) + 7 + quoted(encode_utf8(v.aud)).len()
}

/// Where each member of the payload of `v` stands in `b`, and what reading it gives.
pub open spec fn payload_facts(b: Seq<u8>, v: ClaimsView) -> bool {
    &&& b.len() == pos6(v) + 1
    &&& b[pos6(v)] == CLOSE_BRACE
    &&& b.subrange(0, 7) == key(OPEN_BRACE, name_sub())
    &&& read_string(b, 7) == Some((encode_utf8(v.sub), pos1(v)))
    &&& b.subrange(pos1(v), pos1(v) + 7) == key(COMMA, name_uid())
    &&& b.subrange(pos1(v) + 7, pos2(v)) == signed_decimal(v.uid)
    &&& !is_digit(b[pos2(v)])
    &&& b.subrange(pos2(v), pos2(v) + 7) == key(COMMA, name_exp())
    &&& digit_run(b, pos2(v) + 7, 0) == (v.exp, pos3(v))
    &&& b.subrange(pos3(v), pos3(v) + 7) == key(COMMA, name_iat())
    &&& digit_run(b, pos3(v) + 7, 0) == (v.iat, pos4(v))
    &&& b.subrange(pos4(v), pos4(v) + 7) == key(COMMA, name_iss())
    &&& read_string(b, pos4(v) + 7) == Some((encode_utf8(v.iss), pos5(v)))
    &&& b.subrange(pos5(v), pos5(v) + 7) == key(COMMA, name_aud())
    &&& read_string(b, pos5(v) + 7) == Some((encode_utf8(v.aud), pos6(v)))
}

proof fn lemma_split(b: Seq<u8>, pre: Seq<u8>, seg: Seq<u8>)
    requires
        pre.len() as int + seg.len() <= b.len(),
        b.subrange(0, pre.len() as int + seg.len()) == pre + seg,
    ensures
        b.subrange(0, pre.len() as int) == pre,
        b.subrange(pre.len() as int, pre.len() as int + seg.len()) == seg,
{
    assert(b.subrange(0, pre.len() as int) =~= (pre + seg).subrange(0, pre.len() as int));
    assert(b.subrange(pre.len() as int, pre.len() as int + seg.len()) =~= (pre + seg).subrange(
        pre.len() as int,
        pre.len() as int + seg.len(),
    ));
}

proof fn lemma_payload_facts(b: Seq<u8>, v: ClaimsView)
    requires
        payload_of(v) == b,
        claims_in_range(v),
    ensures
        payload_facts(b, v),
{
    let k0 = key(OPEN_BRACE, name_sub());
    let q1 = quoted(encode_utf8(v.sub));
    let k1 = key(COMMA, name_uid());
    let sd = signed_decimal(v.uid);
    let k2 = key(COMMA, name_exp());
    let d1 = decimal(v.exp);
    let k3 = key(COMMA, name_iat());
    let d2 = decimal(v.iat);
    let k4 = key(COMMA, name_iss());
    let q2 = quoted(encode_utf8(v.iss));
    let k5 = key(COMMA, name_aud());
    let q3 = quoted(encode_utf8(v.aud));
    let upto_sub = k0 + q1;
    let upto_uid_key = upto_sub + k1;
    let upto_uid = upto_uid_key + sd;
    let upto_exp_key = upto_uid + k2;
    let upto_exp = upto_exp_key + d1;
    let upto_iat_key = upto_exp + k3;
    let upto_iat = upto_iat_key + d2;
    let upto_iss_key = upto_iat + k4;
    let upto_iss = upto_iss_key + q2;
    let upto_aud_key = upto_iss + k5;
    let upto_aud = upto_aud_key + q3;
    let end = seq![CLOSE_BRACE];
    assert(b == upto_aud + end);
    assert(b.subrange(0, upto_aud.len() as int + 1) =~= upto_aud + end);
    lemma_split(b, upto_aud, end);
    lemma_split(b, upto_aud_key, q3);
    lemma_split(b, upto_iss, k5);
    lemma_split(b, upto_iss_key, q2);
    lemma_split(b, upto_iat, k4);
    lemma_split(b, upto_iat_key, d2);
    lemma_split(b, upto_exp, k3);
    lemma_split(b, upto_exp_key, d1);
    lemma_split(b, upto_uid, k2);
    lemma_split(b, upto_uid_key, sd);
    lemma_split(b, upto_sub, k1);
    lemma_split(b, k0, q1);
    assert(b[pos6(v)] == end[0]) by {
        assert(b.subrange(upto_aud.len() as int, upto_aud.len() as int + 1)[0] == end[0]);
    }
    lemma_read_quoted(b, 7, encode_utf8(v.sub));
    assert(b[pos2(v)] == COMMA) by {
        assert(b.subrange(upto_uid.len() as int, upto_uid.len() as int + 7)[0] == k2[0]);
    }
    lemma_read_decimal(b, pos2(v) + 7, v.exp);
    assert(b[pos3(v)] == COMMA) by {
        assert(b.subrange(upto_exp.len() as int, upto_exp.len() as int + 7)[0] == k3[0]);
    }
    lemma_read_decimal(b, pos3(v) + 7, v.iat);
    assert(b[pos4(v)] == COMMA) by {
        assert(b.subrange(upto_iat.len() as int, upto_iat.len() as int + 7)[0] == k4[0]);
    }
    lemma_read_quoted(b, pos4(v) + 7, encode_utf8(v.iss));
    lemma_read_quoted(b, pos5(v) + 7, encode_utf8(v.aud));
}

fn push_key(out: &mut Vec<u8>, lead: u8, n0: u8, n1: u8, n2: u8)
    ensures
        final(out)@ == old(out)@ + key(lead, seq![n0, n1, n2]),
{
    out.push(lead);
    out.push(QUOTE);
    out.push(n0);
    out.push(n1);
    out.push(n2);
    out.push(QUOTE);
    out.push(COLON);
    assert(final(out)@ =~= old(out)@ + key(lead, seq![n0, n1, n2]));
}

fn at_key(b: &[u8], i: usize, lead: u8, n0: u8, n1: u8, n2: u8) -> (r: bool)
    ensures
        r == (i + 7 <= b@.len() && b@.subrange(i as int, i + 7) == key(lead, seq![n0, n1, n2])),
{
    if b.len() < 7 || i > b.len() - 7 {
        return false;
    }
    let r = b[i] == lead && b[i + 1] == QUOTE && b[i + 2] == n0 && b[i + 3] == n1 && b[i + 4]
        == n2 && b[i + 5] == QUOTE && b[i + 6] == COLON;
    proof {
        let k = key(lead, seq![n0, n1, n2]);
        if r {
            assert(b@.subrange(i as int, i + 7) =~= k);
        } else if b@.subrange(i as int, i + 7) == k {
            assert(b@.subrange(i as int, i + 7)[0] == k[0]);
            assert(b@.subrange(i as int, i + 7)[1] == k[1]);
            assert(b@.subrange(i as int, i + 7)[2] == k[2]);
            assert(b@.subrange(i as int, i + 7)[3] == k[3]);
            assert(b@.subrange(i as int, i + 7)[4] == k[4]);
            assert(b@.subrange(i as int, i + 7)[5] == k[5]);
            assert(b@.subrange(i as int, i + 7)[6] == k[6]);
        }
    }
    r
}

/// Relies on `String::from_utf8`: it accepts exactly the valid UTF-8 byte
/// strings and keeps the characters they encode.
#[verifier::external_body]
fn utf8_string(bytes: Vec<u8>) -> (r: Option<String>)
    ensures
        r is Some <==> valid_utf8(bytes@),
        r matches Some(s) ==> s@ == decode_utf8(bytes@),
{
    String::from_utf8(bytes).ok()
}

fn same_bytes(a: &[u8], b: &[u8]) -> (r: bool)
    ensures
        r == (a@ == b@),
{
    if a.len() != b.len() {
        return false;
    }
    let mut i: usize = 0;
    while i < a.len()
        invariant
            a@.len() == b@.len(),
            i <= a@.len(),
            a@.subrange(0, i as int) == b@.subrange(0, i as int),
        decreases a@.len() - i,
    {
        if a[i] != b[i] {
            return false;
        }
        assert(a@.subrange(0, i + 1) =~= a@.subrange(0, i as int).push(a@[i as int]));
        assert(b@.subrange(0, i + 1) =~= b@.subrange(0, i as int).push(b@[i as int]));
        i = i + 1;
    }
    assert(a@ =~= a@.subrange(0, i as int));
    assert(b@ =~= b@.subrange(0, i as int));
    true
}

impl Claims {
    /// The JSON payload of these claims.
    pub fn to_payload(&self) -> (r: Vec<u8>)
        ensures
            r@ == payload_of(self@),
    {
        let mut out: Vec<u8> = Vec::new();
        push_key(&mut out, OPEN_BRACE, 115, 117, 98);
        write_quoted(&mut out, self.sub.as_str().as_bytes());
        push_key(&mut out, COMMA, 117, 105, 100);
        write_signed(&mut out, self.uid);
        push_key(&mut out, COMMA, 101, 120, 112);
        write_decimal(&mut out, self.exp as u64);
        push_key(&mut out, COMMA, 105, 97, 116);
        write_decimal(&mut out, self.iat as u64);
        push_key(&mut out, COMMA, 105, 115, 115);
        write_quoted(&mut out, self.iss.as_str().as_bytes());
        push_key(&mut out, COMMA, 97, 117, 100);
        write_quoted(&mut out, self.aud.as_str().as_bytes());
        out.push(CLOSE_BRACE);
        assert(out@ =~= payload_of(self@));
        out
    }

    /// The claims whose payload is exactly `b`, if there are any.
    pub fn from_payload(b: &[u8]) -> (r: Option<Claims>)
        ensures
            r matches Some(c) ==> payload_of(c@) == b@,
            forall|v: ClaimsView| #[trigger]
                payload_of(v) == b@ && claims_in_range(v) ==> (r matches Some(c) && c@ == v),
    {
        let r = Self::read_payload(b);
        match r {
            Some(c) => {
                let again = c.to_payload();
                if same_bytes(again.as_slice(), b) {
                    Some(c)
                } else {
                    None
                }
            },
            None => None,
        }
    }

    /// Reads the members of a payload in their fixed order.
    #[verifier::rlimit(80)]
    #[verifier::spinoff_prover]
    fn read_payload(b: &[u8]) -> (r: Option<Claims>)
        ensures
            forall|v: ClaimsView| #[trigger]
                payload_of(v) == b@ && claims_in_range(v) ==> (r matches Some(c) && c@ == v),
    {
        proof {
            assert forall|v: ClaimsView| #[trigger]
                payload_of(v) == b@ && claims_in_range(v) implies payload_facts(b@, v) by {
                lemma_payload_facts(b@, v);
            }
        }
        let blen = b.len();
        if !at_key(b, 0, OPEN_BRACE, 115, 117, 98) {
            return None;
        }
        let (sub_bytes, i1) = match read_quoted(b, 7) {
            Some(x) => x,
            None => return None,
        };
        if !at_key(b, i1, COMMA, 117, 105, 100) {
            return None;
        }
        let (uid, i2) = match read_signed(b, i1 + 7) {
            Some(x) => x,
            None => return None,
        };
        if !at_key(b, i2, COMMA, 101, 120, 112) {
            return None;
        }
        let (exp, i3) = match read_decimal(b, i2 + 7) {
            Some(x) => x,
            None => return None,
        };
        if !at_key(b, i3, COMMA, 105, 97, 116) {
            return None;
        }
        let (iat, i4) = match read_decimal(b, i3 + 7) {
            Some(x) => x,
            None => return None,
        };
        if !at_key(b, i4, COMMA, 105, 115, 115) {
            return None;
        }
        let (iss_bytes, i5) = match read_quoted(b, i4 + 7) {
            Some(x) => x,
            None => return None,
        };
        if !at_key(b, i5, COMMA, 97, 117, 100) {
            return None;
        }
        let (aud_bytes, i6) = match read_quoted(b, i5 + 7) {
            Some(x) => x,
            None => return None,
        };
        if i6 >= b.len() || b[i6] != CLOSE_BRACE || i6 + 1 != b.len() {
            return None;
        }
        if exp > usize::MAX as u64 || iat > usize::MAX as u64 {
            return None;
        }
        let sub = match utf8_string(sub_bytes) {
            Some(s) => s,
            None => return None,
        };
        let iss = match utf8_string(iss_bytes) {
            Some(s) => s,
            None => return None,
        };
        let aud = match utf8_string(aud_bytes) {
            Some(s) => s,
            None => return None,
        };
        Some(Claims { sub, uid, exp: exp as usize, iat: iat as usize, iss, aud })
    }
}

} // verus!
