//! Byte-level pieces of the JSON text that carries access-token claims:
//! unsigned and signed decimal numbers and quoted, escaped strings.
//!
//! Each piece has a writer, a reader that follows a spec function step by
//! step, and a lemma that the reader gives back what the writer wrote.
use vstd::prelude::*;

verus! {

pub const QUOTE: u8 = 34;

pub const BACKSLASH: u8 = 92;

pub const MINUS: u8 = 45;

pub const ZERO: u8 = 48;

pub const LOWER_U: u8 = 117;

pub open spec fn is_digit(b: u8) -> bool {
    ZERO <= b <= 57
}

/// The decimal digits of `n`, most significant first, without leading zeros.
pub open spec fn decimal(n: nat) -> Seq<u8>
    decreases n,
{
    if n < 10 {
        seq![(ZERO + n) as u8]
    } else {
        decimal(n / 10).push((ZERO + n % 10) as u8)
    }
}

/// `-` followed by the digits of `|i|` for a negative `i`, the digits of `i` otherwise.
pub open spec fn signed_decimal(i: int) -> Seq<u8> {
    if i < 0 {
        seq![MINUS] + decimal((-i) as nat)
    } else {
        decimal(i as nat)
    }
}

/// The number that a run of digits spells.
pub open spec fn digits_value(s: Seq<u8>) -> nat
    decreases s.len(),
{
    if s.len() == 0 {
        0
    } else {
        digits_value(s.drop_last()) * 10 + (s.last() - ZERO) as nat
    }
}

/// Reads the longest run of digits from `i`, starting from the value `acc`;
/// gives the value and the position after the run.
pub open spec fn digit_run(b: Seq<u8>, i: int, acc: nat) -> (nat, int)
    decreases b.len() - i,
{
    if 0 <= i < b.len() && is_digit(b[i]) {
        digit_run(b, i + 1, acc * 10 + (b[i] - ZERO) as nat)
    } else {
        (acc, i)
    }
}

/// The lower-case hexadecimal digit of `v < 16`.
pub open spec fn hex_digit(v: u8) -> u8 {
    if v < 10 {
        (ZERO + v) as u8
    } else {
        (87 + v) as u8
    }
}

pub open spec fn is_hex(b: u8) -> bool {
    is_digit(b) || 97 <= b <= 102
}

pub open spec fn hex_value(b: u8) -> u8 {
    if is_digit(b) {
        (b - ZERO) as u8
    } else {
        (b - 87) as u8
    }
}

/// The letter of the short escape of a control byte (`\b`, `\t`, `\n`, `\f`,
/// `\r`), or 0 for a byte that has none.
pub open spec fn short_escape(b: u8) -> u8 {
    if b == 8 {
        98
    } else if b == 9 {
        116
    } else if b == 10 {
        110
    } else if b == 12 {
        102
    } else if b == 13 {
        114
    } else {
        0
    }
}

/// The control byte that a short-escape letter stands for, or 0 for another byte.
pub open spec fn short_unescape(c: u8) -> u8 {
    if c == 98 {
        8
    } else if c == 116 {
        9
    } else if c == 110 {
        10
    } else if c == 102 {
        12
    } else if c == 114 {
        13
    } else {
        0
    }
}

/// How one byte stands inside a quoted string, as serde_json writes it: a
/// quote and a backslash get a backslash before them, a control byte with a
/// short escape gets that, any other control byte becomes `\u00XY`, and any
/// other byte stays.
pub open spec fn escape_byte(b: u8) -> Seq<u8> {
    if b == QUOTE || b == BACKSLASH {
        seq![BACKSLASH, b]
    } else if short_escape(b) != 0 {
        seq![BACKSLASH, short_escape(b)]
    } else if b < 32 {
        seq![BACKSLASH, LOWER_U, ZERO, ZERO, hex_digit(b / 16), hex_digit(b % 16)]
    } else {
        seq![b]
    }
}

pub open spec fn escaped(s: Seq<u8>) -> Seq<u8>
    decreases s.len(),
{
    if s.len() == 0 {
        Seq::empty()
    } else {
        escape_byte(s[0]) + escaped(s.skip(1))
    }
}

/// `s` as a JSON string literal.
pub open spec fn quoted(s: Seq<u8>) -> Seq<u8> {
    seq![QUOTE] + escaped(s) + seq![QUOTE]
}

/// Reads the rest of a string literal from `i` (just after the opening quote),
/// with `acc` already read; gives the bytes and the position after the closing quote.
pub open spec fn string_body(b: Seq<u8>, i: int, acc: Seq<u8>) -> Option<(Seq<u8>, int)>
    decreases b.len() - i,
{
    if i < 0 || i >= b.len() {
        None
    } else if b[i] == QUOTE {
        Some((acc, i + 1))
    } else if b[i] == BACKSLASH {
        if i + 1 < b.len() && (b[i + 1] == QUOTE || b[i + 1] == BACKSLASH) {
            string_body(b, i + 2, acc.push(b[i + 1]))
        } else if i + 1 < b.len() && short_unescape(b[i + 1]) != 0 {
            string_body(b, i + 2, acc.push(short_unescape(b[i + 1])))
        } else if i + 5 < b.len() && b[i + 1] == LOWER_U && b[i + 2] == ZERO && b[i + 3] == ZERO
            && is_hex(b[i + 4]) && is_hex(b[i + 5]) {
            string_body(b, i + 6, acc.push((hex_value(b[i + 4]) * 16 + hex_value(b[i + 5])) as u8))
        } else {
            None
        }
    } else {
        string_body(b, i + 1, acc.push(b[i]))
    }
}

/// Reads a string literal that starts at `i`.
pub open spec fn read_string(b: Seq<u8>, i: int) -> Option<(Seq<u8>, int)> {
    if 0 <= i < b.len() && b[i] == QUOTE {
        string_body(b, i + 1, Seq::empty())
    } else {
        None
    }
}

proof fn lemma_decimal_digits(n: nat)
    ensures
        decimal(n).len() >= 1,
        forall|k: int| 0 <= k < decimal(n).len() ==> is_digit(#[trigger] decimal(n)[k]),
    decreases n,
{
    if n >= 10 {
        lemma_decimal_digits(n / 10);
    }
}

proof fn lemma_decimal_value(n: nat)
    ensures
        digits_value(decimal(n)) == n,
    decreases n,
{
    if n >= 10 {
        lemma_decimal_value(n / 10);
        assert(decimal(n).drop_last() =~= decimal(n / 10));
        assert(decimal(n).last() == (ZERO + n % 10) as u8);
        assert(n == (n / 10) * 10 + n % 10);
        assert(digits_value(decimal(n)) == digits_value(decimal(n / 10)) * 10 + (n % 10));
    } else {
        assert(decimal(n).drop_last() =~= Seq::<u8>::empty());
        assert(digits_value(Seq::<u8>::empty()) == 0);
        assert(decimal(n).last() == (ZERO + n) as u8);
    }
}

/// A run of digits `ds` at `i`, followed by a non-digit or the end, is read
/// whole, and its value continues the value of the digits `p` read before it.
proof fn lemma_digit_run(b: Seq<u8>, i: int, p: Seq<u8>, ds: Seq<u8>)
    requires
        0 <= i,
        i + ds.len() <= b.len(),
        b.subrange(i, i + ds.len()) == ds,
        forall|k: int| 0 <= k < ds.len() ==> is_digit(#[trigger] ds[k]),
        i + ds.len() == b.len() || !is_digit(b[i + ds.len()]),
    ensures
        digit_run(b, i, digits_value(p)) == (digits_value(p + ds), i + ds.len()),
    decreases ds.len(),
{
    if ds.len() == 0 {
        assert(p + ds =~= p);
    } else {
        assert(b[i] == ds[0]);
        let longer = p.push(ds[0]);
        assert(longer.drop_last() =~= p);
        assert(digits_value(longer) == digits_value(p) * 10 + (b[i] - ZERO) as nat);
        let rest = ds.skip(1);
        assert(b.subrange(i + 1, i + 1 + rest.len()) =~= rest);
        assert forall|k: int| 0 <= k < rest.len() implies is_digit(#[trigger] rest[k]) by {
            assert(rest[k] == ds[k + 1]);
        }
        lemma_digit_run(b, i + 1, longer, rest);
        assert(longer + rest =~= p + ds);
    }
}

/// The digits of `n`, followed by a non-digit or the end, read back as `n`.
pub proof fn lemma_read_decimal(b: Seq<u8>, i: int, n: nat)
    requires
        0 <= i,
        i + decimal(n).len() <= b.len(),
        b.subrange(i, i + decimal(n).len()) == decimal(n),
        i + decimal(n).len() == b.len() || !is_digit(b[i + decimal(n).len()]),
    ensures
        digit_run(b, i, 0) == (n, i + decimal(n).len()),
        decimal(n).len() >= 1,
{
    lemma_decimal_digits(n);
    lemma_decimal_value(n);
    let e: Seq<u8> = Seq::empty();
    assert(digits_value(e) == 0);
    lemma_digit_run(b, i, e, decimal(n));
    assert(e + decimal(n) =~= decimal(n));
}

proof fn lemma_digit_run_grows(b: Seq<u8>, i: int, acc: nat)
    ensures
        digit_run(b, i, acc).0 >= acc,
        digit_run(b, i, acc).1 >= i,
    decreases b.len() - i,
{
    if 0 <= i < b.len() && is_digit(b[i]) {
        lemma_digit_run_grows(b, i + 1, acc * 10 + (b[i] - ZERO) as nat);
    }
}

proof fn lemma_escaped_concat(a: Seq<u8>, c: Seq<u8>)
    ensures
        escaped(a + c) == escaped(a) + escaped(c),
    decreases a.len(),
{
    if a.len() == 0 {
        assert(a + c =~= c);
        assert(escaped(a) + escaped(c) =~= escaped(c));
    } else {
        assert((a + c).skip(1) =~= a.skip(1) + c);
        assert((a + c)[0] == a[0]);
        lemma_escaped_concat(a.skip(1), c);
        assert(escaped(a + c) =~= escape_byte(a[0]) + (escaped(a.skip(1)) + escaped(c)));
    }
}

proof fn lemma_escaped_push(a: Seq<u8>, x: u8)
    ensures
        escaped(a.push(x)) == escaped(a) + escape_byte(x),
{
    let one = seq![x];
    lemma_escaped_concat(a, one);
    assert(a.push(x) =~= a + one);
    assert(one.skip(1) =~= Seq::<u8>::empty());
    assert(escaped(Seq::<u8>::empty()) =~= Seq::<u8>::empty());
    assert(escaped(one) =~= escape_byte(x));
}

proof fn lemma_hex_round_trip(v: u8)
    requires
        v < 16,
    ensures
        is_hex(hex_digit(v)),
        hex_value(hex_digit(v)) == v,
{
}

/// The escaped bytes of `s`, followed by a closing quote, read back as `s`
/// after what was read before.
proof fn lemma_string_body(b: Seq<u8>, i: int, acc: Seq<u8>, s: Seq<u8>)
    requires
        0 <= i,
        i + escaped(s).len() < b.len(),
        b.subrange(i, i + escaped(s).len()) == escaped(s),
        b[i + escaped(s).len()] == QUOTE,
    ensures
        string_body(b, i, acc) == Some((acc + s, i + escaped(s).len() + 1)),
    decreases s.len(),
{
    if s.len() == 0 {
        assert(acc + s =~= acc);
    } else {
        let x = s[0];
        let rest = s.skip(1);
        let eb = escape_byte(x);
        assert(escaped(s) == eb + escaped(rest));
        let j = i + eb.len();
        assert forall|k: int| 0 <= k < eb.len() implies b[i + k] == #[trigger] eb[k] by {
            assert(b.subrange(i, i + escaped(s).len())[k] == escaped(s)[k]);
        }
        assert(b.subrange(j, j + escaped(rest).len()) =~= escaped(rest)) by {
            assert forall|k: int| 0 <= k < escaped(rest).len() implies b.subrange(
                j,
                j + escaped(rest).len(),
            )[k] == escaped(rest)[k] by {
                assert(b.subrange(i, i + escaped(s).len())[eb.len() + k] == escaped(s)[eb.len()
                    + k]);
            }
        }
        lemma_string_body(b, j, acc.push(x), rest);
        assert(acc.push(x) + rest =~= acc + s);
        if x == QUOTE || x == BACKSLASH {
            assert(b[i] == BACKSLASH && b[i + 1] == x);
        } else if short_escape(x) != 0 {
            assert(b[i] == BACKSLASH && b[i + 1] == short_escape(x));
        } else if x < 32 {
            lemma_hex_round_trip(x / 16);
            lemma_hex_round_trip(x % 16);
            assert(b[i] == BACKSLASH && b[i + 1] == LOWER_U && b[i + 2] == ZERO && b[i + 3]
                == ZERO && b[i + 4] == hex_digit(x / 16) && b[i + 5] == hex_digit(x % 16));
            assert((hex_value(b[i + 4]) * 16 + hex_value(b[i + 5])) as u8 == x);
        } else {
            assert(eb[0] == x);
            assert(b[i] == x);
        }
    }
}

/// The literal of `s` at `i` reads back as `s`, ending after its closing quote.
pub proof fn lemma_read_quoted(b: Seq<u8>, i: int, s: Seq<u8>)
    requires
        0 <= i,
        i + quoted(s).len() <= b.len(),
        b.subrange(i, i + quoted(s).len()) == quoted(s),
    ensures
        read_string(b, i) == Some((s, i + quoted(s).len())),
{
    let q = quoted(s);
    let n: int = escaped(s).len() as int;
    assert(q[0] == QUOTE);
    assert(b[i] == b.subrange(i, i + q.len())[0]);
    assert(b.subrange(i + 1, i + 1 + n) =~= escaped(s)) by {
        assert forall|k: int| 0 <= k < n implies b.subrange(i + 1, i + 1 + n)[k] == escaped(
            s,
        )[k] by {
            assert(b.subrange(i, i + q.len())[1 + k] == q[1 + k]);
        }
    }
    assert(b[i + 1 + n] == QUOTE) by {
        assert(b.subrange(i, i + q.len())[1 + n] == q[1 + n]);
    }
    lemma_string_body(b, i + 1, Seq::empty(), s);
    assert(Seq::<u8>::empty() + s =~= s);
}

/// Appends the digits of `n`.
pub fn write_decimal(out: &mut Vec<u8>, n: u64)
    ensures
        final(out)@ == old(out)@ + decimal(n as nat),
    decreases n,
{
    if n >= 10 {
        write_decimal(out, n / 10);
    }
    out.push(ZERO + (n % 10) as u8);
    proof {
        if n >= 10 {
            assert(old(out)@ + decimal(n as nat / 10) + seq![(ZERO + n % 10) as u8] =~= old(out)@
                + decimal(n as nat));
        } else {
            assert(old(out)@.push((ZERO + n % 10) as u8) =~= old(out)@ + decimal(n as nat));
        }
    }
}

/// Appends the signed decimal form of `i`.
pub fn write_signed(out: &mut Vec<u8>, i: i32)
    ensures
        final(out)@ == old(out)@ + signed_decimal(i as int),
{
    if i < 0 {
        out.push(MINUS);
        let m: u64 = (-(i as i64)) as u64;
        write_decimal(out, m);
        assert(old(out)@.push(MINUS) + decimal(m as nat) =~= old(out)@ + signed_decimal(i as int));
    } else {
        write_decimal(out, i as u64);
    }
}

fn hex_digit_exec(v: u8) -> (r: u8)
    requires
        v < 16,
    ensures
        r == hex_digit(v),
{
    if v < 10 {
        ZERO + v
    } else {
        87 + v
    }
}

/// Appends `s` as a quoted, escaped string literal.
pub fn write_quoted(out: &mut Vec<u8>, s: &[u8])
    ensures
        final(out)@ == old(out)@ + quoted(s@),
{
    out.push(QUOTE);
    let mut k: usize = 0;
    while k < s.len()
        invariant
            k <= s@.len(),
            out@ == old(out)@ + seq![QUOTE] + escaped(s@.subrange(0, k as int)),
        decreases s@.len() - k,
    {
        let x = s[k];
        let ghost before = out@;
        let short = short_escape_exec(x);
        if x == QUOTE || x == BACKSLASH {
            out.push(BACKSLASH);
            out.push(x);
        } else if short != 0 {
            out.push(BACKSLASH);
            out.push(short);
        } else if x < 32 {
            out.push(BACKSLASH);
            out.push(LOWER_U);
            out.push(ZERO);
            out.push(ZERO);
            let hi = hex_digit_exec(x / 16);
            out.push(hi);
            let lo = hex_digit_exec(x % 16);
            out.push(lo);
        } else {
            out.push(x);
        }
        proof {
            assert(out@ =~= before + escape_byte(x));
            assert(s@.subrange(0, k as int + 1) =~= s@.subrange(0, k as int).push(x));
            lemma_escaped_push(s@.subrange(0, k as int), x);
        }
        k = k + 1;
    }
    out.push(QUOTE);
    assert(s@.subrange(0, s@.len() as int) =~= s@);
    assert(out@ =~= old(out)@ + quoted(s@));
}

/// Reads the longest run of digits at `start` as a `u64`; `None` where there is
/// no digit there or the value does not fit.
pub fn read_decimal(b: &[u8], start: usize) -> (r: Option<(u64, usize)>)
    ensures
        r matches Some((v, e)) ==> digit_run(b@, start as int, 0) == (v as nat, e as int) && e
            > start,
        r is None ==> digit_run(b@, start as int, 0).1 == start as int || digit_run(
            b@,
            start as int,
            0,
        ).0 > u64::MAX,
{
    let mut i: usize = start;
    let mut acc: u64 = 0;
    while i < b.len() && ZERO <= b[i] && b[i] <= 57
        invariant
            start <= i,
            i <= b@.len() || i == start,
            digit_run(b@, start as int, 0) == digit_run(b@, i as int, acc as nat),
        decreases b@.len() - i,
    {
        let d: u64 = (b[i] - ZERO) as u64;
        if acc > (u64::MAX - d) / 10 {
            proof {
                assert(acc * 10 + d > u64::MAX) by (nonlinear_arith)
                    requires
                        acc > (u64::MAX - d) / 10,
                        d <= 9,
                ;
                lemma_digit_run_grows(b@, i as int + 1, (acc * 10 + d) as nat);
            }
            return None;
        }
        assert(acc * 10 + d <= u64::MAX) by (nonlinear_arith)
            requires
                acc <= (u64::MAX - d) / 10,
                d <= 9,
        ;
        acc = acc * 10 + d;
        i = i + 1;
    }
    if i == start {
        None
    } else {
        Some((acc, i))
    }
}

/// Reads an optionally negative decimal at `start` as an `i32`; `None` where
/// there is none or it does not fit.
pub(crate) fn read_signed(b: &[u8], start: usize) -> (r: Option<(i32, usize)>)
    ensures
        forall|n: int|
            i32::MIN <= n <= i32::MAX && start + signed_decimal(n).len() <= b@.len()
                && b@.subrange(start as int, start + signed_decimal(n).len()) == signed_decimal(n)
                && (start + signed_decimal(n).len() == b@.len() || !is_digit(
                b@[start + signed_decimal(n).len()],
            )) ==> r == Some((n as i32, (start + signed_decimal(n).len()) as usize)),
{
    let negative = start < b.len() && b[start] == MINUS;
    let from = if negative {
        start + 1
    } else {
        start
    };
    let got = read_decimal(b, from);
    let r = match got {
        Some((v, e)) => {
            if negative && v <= 2147483648 {
                Some(((-(v as i64)) as i32, e))
            } else if !negative && v <= 2147483647 {
                Some((v as i32, e))
            } else {
                None
            }
        },
        None => None,
    };
    proof {
        assert forall|n: int|
            i32::MIN <= n <= i32::MAX && start + signed_decimal(n).len() <= b@.len()
                && b@.subrange(start as int, start + signed_decimal(n).len()) == signed_decimal(n)
                && (start + signed_decimal(n).len() == b@.len() || !is_digit(
                b@[start + signed_decimal(n).len()],
            )) implies r == Some((n as i32, (start + signed_decimal(n).len()) as usize)) by {
            let sd = signed_decimal(n);
            if n < 0 {
                let m = (-n) as nat;
                assert(sd == seq![MINUS] + decimal(m));
                assert(b@[start as int] == b@.subrange(start as int, start + sd.len())[0]);
                assert(b@.subrange(start + 1, start + 1 + decimal(m).len()) =~= decimal(m)) by {
                    assert forall|k: int| 0 <= k < decimal(m).len() implies b@.subrange(
                        start + 1,
                        start + 1 + decimal(m).len(),
                    )[k] == decimal(m)[k] by {
                        assert(b@.subrange(start as int, start + sd.len())[1 + k] == sd[1 + k]);
                    }
                }
                lemma_read_decimal(b@, start + 1, m);
            } else {
                lemma_read_decimal(b@, start as int, n as nat);
                lemma_decimal_digits(n as nat);
                assert(b@[start as int] == b@.subrange(start as int, start + sd.len())[0]);
                assert(is_digit(decimal(n as nat)[0]));
            }
        }
    }
    r
}

/// Reads a string literal at `start`: its bytes and the position after it.
pub fn read_quoted(b: &[u8], start: usize) -> (r: Option<(Vec<u8>, usize)>)
    ensures
        match r {
            Some((v, e)) => read_string(b@, start as int) == Some((v@, e as int)),
            None => read_string(b@, start as int) is None,
        },
{
    if start >= b.len() || b[start] != QUOTE {
        return None;
    }
    let mut acc: Vec<u8> = Vec::new();
    let mut i: usize = start + 1;
    while i < b.len()
        invariant
            start < i,
            read_string(b@, start as int) == string_body(b@, i as int, acc@),
        decreases b@.len() - i,
    {
        let x = b[i];
        if x == QUOTE {
            return Some((acc, i + 1));
        } else if x == BACKSLASH {
            if i + 1 < b.len() && (b[i + 1] == QUOTE || b[i + 1] == BACKSLASH) {
                acc.push(b[i + 1]);
                i = i + 2;
            } else if i + 1 < b.len() && short_unescape_exec(b[i + 1]) != 0 {
                acc.push(short_unescape_exec(b[i + 1]));
                i = i + 2;
            } else if b.len() - i > 5 && b[i + 1] == LOWER_U && b[i + 2] == ZERO && b[i + 3]
                == ZERO && is_hex_exec(b[i + 4]) && is_hex_exec(b[i + 5]) {
                let hi = hex_value_exec(b[i + 4]);
                let lo = hex_value_exec(b[i + 5]);
                acc.push(hi * 16 + lo);
                i = i + 6;
            } else {
                return None;
            }
        } else {
            acc.push(x);
            i = i + 1;
        }
    }
    None
}

fn short_escape_exec(b: u8) -> (r: u8)
    ensures
        r == short_escape(b),
{
    if b == 8 {
        98
    } else if b == 9 {
        116
    } else if b == 10 {
        110
    } else if b == 12 {
        102
    } else if b == 13 {
        114
    } else {
        0
    }
}

fn short_unescape_exec(c: u8) -> (r: u8)
    ensures
        r == short_unescape(c),
{
    if c == 98 {
        8
    } else if c == 116 {
        9
    } else if c == 110 {
        10
    } else if c == 102 {
        12
    } else if c == 114 {
        13
    } else {
        0
    }
}

fn is_hex_exec(b: u8) -> (r: bool)
    ensures
        r == is_hex(b),
{
    (ZERO <= b && b <= 57) || (97 <= b && b <= 102)
}

fn hex_value_exec(b: u8) -> (r: u8)
    requires
        is_hex(b),
    ensures
        r == hex_value(b),
        r < 16,
{
    if ZERO <= b && b <= 57 {
        b - ZERO
    } else {
        b - 87
    }
}

} // verus!
