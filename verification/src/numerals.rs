//! The numeral tokens of the text formats: unsigned decimal numerals
//! (face indices, image header fields) and floating-point numerals
//! (vertex coordinates).
//!
//! Coordinates themselves are carried as validated tokens — the library
//! checks them against the numeral grammar and leaves their numeric
//! value to the floating-point code of the embedding program.

use vstd::prelude::*;

verus! {

pub open spec fn is_digit(b: u8) -> bool {
    0x30 <= b <= 0x39
}

pub open spec fn all_digits(s: Seq<u8>) -> bool {
    forall|i: int| 0 <= i < s.len() ==> is_digit(#[trigger] s[i])
}

/// The value of a string of decimal digits, most significant first.
pub open spec fn digits_value(s: Seq<u8>) -> int
    decreases s.len(),
{
    if s.len() == 0 {
        0
    } else {
        digits_value(s.drop_last()) * 10 + (s.last() - 0x30)
    }
}

pub open spec fn strip_plus(s: Seq<u8>) -> Seq<u8> {
    if s.len() > 0 && s[0] == 0x2b {
        s.skip(1)
    } else {
        s
    }
}

/// A decimal numeral for a 32-bit unsigned integer: an optional plus
/// sign, then digits only, at least one, with a value that fits.
pub open spec fn u32_numeral(s: Seq<u8>) -> bool {
    let d = strip_plus(s);
    d.len() > 0 && all_digits(d) && digits_value(d) <= u32::MAX
}

pub proof fn lemma_digits_value_nonneg(s: Seq<u8>)
    requires
        all_digits(s),
    ensures
        digits_value(s) >= 0,
    decreases s.len(),
{
    if s.len() > 0 {
        assert(all_digits(s.drop_last()));
        lemma_digits_value_nonneg(s.drop_last());
    }
}

/// A digit string is worth at least any of its prefixes: appending
/// digits never shrinks the value.
pub proof fn lemma_digits_value_prefix(s: Seq<u8>, k: int)
    requires
        all_digits(s),
        0 <= k <= s.len(),
    ensures
        digits_value(s.take(k)) <= digits_value(s),
    decreases s.len() - k,
{
    if k == s.len() {
        assert(s.take(k) =~= s);
    } else {
        let t = s.take(k + 1);
        assert(t.drop_last() =~= s.take(k));
        assert(all_digits(s.take(k)));
        lemma_digits_value_nonneg(s.take(k));
        assert(digits_value(t) == digits_value(s.take(k)) * 10 + (s[k] - 0x30));
        lemma_digits_value_prefix(s, k + 1);
    }
}

/// Reads a face-index or header numeral. Returns the numeral's value,
/// or `None` exactly when the token is not a `u32` numeral (no digits,
/// a non-digit byte, or a value past `u32::MAX`).
pub fn parse_u32_numeral(token: &[u8]) -> (r: Option<u32>)
    ensures
        match r {
            Some(v) => u32_numeral(token@) && v == digits_value(strip_plus(token@)),
            None => !u32_numeral(token@),
        },
{
    let n = token.len();
    let start: usize = if n > 0 && token[0] == 0x2b {
        1
    } else {
        0
    };
    let ghost d = strip_plus(token@);
    proof {
        assert(d =~= token@.skip(start as int));
    }
    if n == start {
        return None;
    }
    let mut acc: u64 = 0;
    let mut i: usize = start;
    while i < n
        invariant
            start <= i <= n,
            n == token@.len(),
            d == token@.skip(start as int),
            d == strip_plus(token@),
            forall|k: int| 0 <= k < i - start ==> is_digit(#[trigger] d[k]),
            acc == digits_value(d.take(i - start)),
            acc <= u32::MAX,
        decreases n - i,
    {
        let b = token[i];
        assert(b == d[i - start]);
        if b < 0x30 || b > 0x39 {
            assert(!all_digits(d));
            return None;
        }
        let ghost pre = d.take(i - start);
        proof {
            assert(d.take(i - start + 1).drop_last() =~= pre);
        }
        acc = acc * 10 + ((b - 0x30) as u64);
        i = i + 1;
        assert(acc == digits_value(d.take(i - start)));
        if acc > 0xffff_ffff {
            proof {
                if all_digits(d) {
                    lemma_digits_value_prefix(d, i - start);
                }
            }
            return None;
        }
    }
    proof {
        assert(d.take(i - start) =~= d);
        assert(all_digits(d));
    }
    Some(acc as u32)
}

pub open spec fn strip_sign(s: Seq<u8>) -> Seq<u8> {
    if s.len() > 0 && (s[0] == 0x2b || s[0] == 0x2d) {
        s.skip(1)
    } else {
        s
    }
}

pub open spec fn to_lower(b: u8) -> u8 {
    if 0x41 <= b <= 0x5a {
        (b + 0x20) as u8
    } else {
        b
    }
}

/// `inf`, `infinity` or `nan`, in any letter case.
pub open spec fn special_value(s: Seq<u8>) -> bool {
    (s.len() == 3 && to_lower(s[0]) == 0x69 && to_lower(s[1]) == 0x6e && to_lower(s[2]) == 0x66)
        || (s.len() == 8 && to_lower(s[0]) == 0x69 && to_lower(s[1]) == 0x6e && to_lower(s[2])
            == 0x66 && to_lower(s[3]) == 0x69 && to_lower(s[4]) == 0x6e && to_lower(s[5]) == 0x69
            && to_lower(s[6]) == 0x74 && to_lower(s[7]) == 0x79)
        || (s.len() == 3 && to_lower(s[0]) == 0x6e && to_lower(s[1]) == 0x61 && to_lower(s[2])
            == 0x6e)
}

/// The position of the first decimal point, or the length if there is none.
pub open spec fn find_dot(s: Seq<u8>) -> int
    decreases s.len(),
{
    if s.len() == 0 {
        0
    } else if s[0] == 0x2e {
        0
    } else {
        1 + find_dot(s.skip(1))
    }
}

/// The position of the first exponent marker `e` or `E`, or the length
/// if there is none.
pub open spec fn find_exp(s: Seq<u8>) -> int
    decreases s.len(),
{
    if s.len() == 0 {
        0
    } else if s[0] == 0x65 || s[0] == 0x45 {
        0
    } else {
        1 + find_exp(s.skip(1))
    }
}

pub proof fn lemma_find_dot(s: Seq<u8>)
    ensures
        0 <= find_dot(s) <= s.len(),
        forall|i: int| 0 <= i < find_dot(s) ==> s[i] != 0x2e,
        find_dot(s) < s.len() ==> s[find_dot(s)] == 0x2e,
    decreases s.len(),
{
    if s.len() == 0 {
    } else if s[0] == 0x2e {
    } else {
        lemma_find_dot(s.skip(1));
        assert forall|i: int| 0 <= i < find_dot(s) implies s[i] != 0x2e by {
            if i > 0 {
                assert(s.skip(1)[i - 1] == s[i]);
            }
        }
        if find_dot(s) < s.len() {
            assert(s.skip(1)[find_dot(s) - 1] == s[find_dot(s)]);
        }
    }
}

pub proof fn lemma_find_exp(s: Seq<u8>)
    ensures
        0 <= find_exp(s) <= s.len(),
        forall|i: int| 0 <= i < find_exp(s) ==> s[i] != 0x65 && s[i] != 0x45,
        find_exp(s) < s.len() ==> (s[find_exp(s)] == 0x65 || s[find_exp(s)] == 0x45),
    decreases s.len(),
{
    if s.len() == 0 {
    } else if s[0] == 0x65 || s[0] == 0x45 {
    } else {
        lemma_find_exp(s.skip(1));
        assert forall|i: int| 0 <= i < find_exp(s) implies s[i] != 0x65 && s[i] != 0x45 by {
            if i > 0 {
                assert(s.skip(1)[i - 1] == s[i]);
            }
        }
        if find_exp(s) < s.len() {
            assert(s.skip(1)[find_exp(s) - 1] == s[find_exp(s)]);
        }
    }
}

/// The digits of a plain decimal numeral: `Digit+`, `Digit+ '.' Digit*`
/// or `Digit* '.' Digit+`.
pub open spec fn decimal_body(s: Seq<u8>) -> bool {
    let d = find_dot(s);
    if d == s.len() {
        s.len() > 0 && all_digits(s)
    } else {
        let ip = s.take(d);
        let fp = s.skip(d + 1);
        (ip.len() > 0 || fp.len() > 0) && all_digits(ip) && all_digits(fp)
    }
}

/// What may follow an exponent marker: an optional sign, then at least
/// one digit.
pub open spec fn exponent_part(s: Seq<u8>) -> bool {
    let d = strip_sign(s);
    d.len() > 0 && all_digits(d)
}

/// A coordinate token of the mesh format: the grammar of numerals that
/// Rust's floating-point parsing documents — an optional sign, then
/// `inf`, `infinity` or `nan` in any case, or a decimal numeral with an
/// optional `e`/`E` exponent.
pub open spec fn float_token(s: Seq<u8>) -> bool {
    let body = strip_sign(s);
    special_value(body) || {
        let e = find_exp(body);
        if e == body.len() {
            decimal_body(body)
        } else {
            decimal_body(body.take(e)) && exponent_part(body.skip(e + 1))
        }
    }
}

fn lower_byte(b: u8) -> (r: u8)
    ensures
        r == to_lower(b),
{
    if b >= 0x41 && b <= 0x5a {
        b + 0x20
    } else {
        b
    }
}

fn check_all_digits(s: &[u8]) -> (r: bool)
    ensures
        r == all_digits(s@),
{
    let mut i: usize = 0;
    while i < s.len()
        invariant
            i <= s@.len(),
            forall|k: int| 0 <= k < i ==> is_digit(#[trigger] s@[k]),
        decreases s@.len() - i,
    {
        let b = s[i];
        if b < 0x30 || b > 0x39 {
            assert(!is_digit(s@[i as int]));
            return false;
        }
        i = i + 1;
    }
    true
}

fn check_special(s: &[u8]) -> (r: bool)
    ensures
        r == special_value(s@),
{
    let n = s.len();
    if n == 3 {
        let a = lower_byte(s[0]);
        let b = lower_byte(s[1]);
        let c = lower_byte(s[2]);
        (a == 0x69 && b == 0x6e && c == 0x66) || (a == 0x6e && b == 0x61 && c == 0x6e)
    } else if n == 8 {
        lower_byte(s[0]) == 0x69 && lower_byte(s[1]) == 0x6e && lower_byte(s[2]) == 0x66
            && lower_byte(s[3]) == 0x69 && lower_byte(s[4]) == 0x6e && lower_byte(s[5]) == 0x69
            && lower_byte(s[6]) == 0x74 && lower_byte(s[7]) == 0x79
    } else {
        false
    }
}

fn check_decimal_body(s: &[u8]) -> (r: bool)
    ensures
        r == decimal_body(s@),
{
    let n = s.len();
    let mut d: usize = 0;
    while d < n && s[d] != 0x2e
        invariant
            d <= n,
            n == s@.len(),
            forall|k: int| 0 <= k < d ==> s@[k] != 0x2e,
        decreases n - d,
    {
        d = d + 1;
    }
    proof {
        lemma_find_dot(s@);
        assert(find_dot(s@) == d);
    }
    if d == n {
        n > 0 && check_all_digits(s)
    } else {
        let ip = vstd::slice::slice_subrange(s, 0, d);
        let fp = vstd::slice::slice_subrange(s, d + 1, n);
        proof {
            assert(ip@ =~= s@.take(d as int));
            assert(fp@ =~= s@.skip(d + 1));
        }
        let nonempty = ip.len() > 0 || fp.len() > 0;
        nonempty && check_all_digits(ip) && check_all_digits(fp)
    }
}

fn check_exponent_part(s: &[u8]) -> (r: bool)
    ensures
        r == exponent_part(s@),
{
    let n = s.len();
    let start: usize = if n > 0 && (s[0] == 0x2b || s[0] == 0x2d) {
        1
    } else {
        0
    };
    let d = vstd::slice::slice_subrange(s, start, n);
    proof {
        assert(d@ =~= strip_sign(s@));
    }
    d.len() > 0 && check_all_digits(d)
}

/// Decides whether a token is a well-formed coordinate numeral.
pub fn is_float_token(token: &[u8]) -> (r: bool)
    ensures
        r == float_token(token@),
{
    let n = token.len();
    let start: usize = if n > 0 && (token[0] == 0x2b || token[0] == 0x2d) {
        1
    } else {
        0
    };
    let body = vstd::slice::slice_subrange(token, start, n);
    proof {
        assert(body@ =~= strip_sign(token@));
    }
    if check_special(body) {
        return true;
    }
    let m = body.len();
    let mut e: usize = 0;
    while e < m && body[e] != 0x65 && body[e] != 0x45
        invariant
            e <= m,
            m == body@.len(),
            forall|k: int| 0 <= k < e ==> body@[k] != 0x65 && body@[k] != 0x45,
        decreases m - e,
    {
        e = e + 1;
    }
    proof {
        lemma_find_exp(body@);
        assert(find_exp(body@) == e);
    }
    if e == m {
        check_decimal_body(body)
    } else {
        let mant = vstd::slice::slice_subrange(body, 0, e);
        let ex = vstd::slice::slice_subrange(body, e + 1, m);
        proof {
            assert(mant@ =~= body@.take(e as int));
            assert(ex@ =~= body@.skip(e + 1));
        }
        check_decimal_body(mant) && check_exponent_part(ex)
    }
}

/// The decimal numeral of a non-negative value, most significant digit
/// first, with no sign and no leading zero (except for the value zero).
pub open spec fn dec_digits(n: nat) -> Seq<u8>
    decreases n,
{
    if n < 10 {
        seq![(0x30 + n) as u8]
    } else {
        dec_digits(n / 10).push((0x30 + n % 10) as u8)
    }
}

/// Appends the decimal numeral of `n` to `out`.
pub fn push_decimal(n: u64, out: &mut Vec<u8>)
    ensures
        final(out)@ == old(out)@ + dec_digits(n as nat),
    decreases n,
{
    let ghost prev = out@;
    if n < 10 {
        out.push(0x30 + n as u8);
        proof {
            assert(out@ =~= prev + dec_digits(n as nat));
        }
    } else {
        push_decimal(n / 10, out);
        out.push(0x30 + (n % 10) as u8);
        proof {
            assert(out@ =~= prev + dec_digits(n as nat));
        }
    }
}

} // verus!
