//! Parsers for the loosely structured text fields of the data export.
//!
//! Three field shapes occur: a decimal-fraction scalar, a parenthesized list
//! of `(ItemClass="...Path.Name'",Amount=N)` records, and a parenthesized
//! list of quoted class paths. Each exec parser is proved to return exactly
//! what the corresponding spec-level grammar function denotes, so the
//! contract pins the parse result (and every failure) for every input.

use vstd::prelude::*;

verus! {

use crate::ratio::{Ratio, fits_i64};
use vstd::string::StrSliceExecFns;
use vstd::string::StringExecFns;

// ---------------------------------------------------------------------------
// character primitives
// ---------------------------------------------------------------------------
pub open spec fn is_digit(c: char) -> bool {
    48 <= (c as u32) && (c as u32) <= 57
}

pub open spec fn digit_val(c: char) -> int {
    (c as u32) - 48
}

/// First index at or after `pos` whose character is not a decimal digit.
pub open spec fn digits_end(s: Seq<char>, pos: int) -> int
    decreases s.len() - pos,
{
    if pos < s.len() && is_digit(s[pos]) {
        digits_end(s, pos + 1)
    } else {
        pos
    }
}

/// The integer denoted by the digit run `s[pos..end)`.
pub open spec fn digits_value(s: Seq<char>, pos: int, end: int) -> int
    decreases end - pos,
{
    if pos < end {
        digits_value(s, pos, end - 1) * 10 + digit_val(s[end - 1])
    } else {
        0
    }
}

pub proof fn lemma_digits_value_nonneg(s: Seq<char>, pos: int, end: int)
    requires
        forall|i: int| pos <= i < end ==> is_digit(#[trigger] s[i]),
    ensures
        digits_value(s, pos, end) >= 0,
    decreases end - pos,
{
    if pos < end {
        lemma_digits_value_nonneg(s, pos, end - 1);
    }
}

/// First index at or after `pos` holding character `c`, or the length if
/// there is none.
pub open spec fn find_char(s: Seq<char>, pos: int, c: char) -> int
    decreases s.len() - pos,
{
    if pos < s.len() {
        if s[pos] == c {
            pos
        } else {
            find_char(s, pos + 1, c)
        }
    } else {
        pos
    }
}

/// The literal `lit` occurs in `s` starting at `pos`.
pub open spec fn lit_at(s: Seq<char>, pos: int, lit: Seq<char>) -> bool {
    &&& 0 <= pos
    &&& pos + lit.len() <= s.len()
    &&& forall|i: int| 0 <= i < lit.len() ==> s[pos + i] == lit[i]
}

/// Largest index strictly below `from` holding a `.`, or `-1` if none.
pub open spec fn rfind_dot(p: Seq<char>, from: int) -> int
    decreases from,
{
    if from <= 0 {
        -1
    } else if p[from - 1] == '.' {
        from - 1
    } else {
        rfind_dot(p, from - 1)
    }
}

/// The text after the last `.` of `p`, or `None` when `p` has no `.`.
pub open spec fn name_after_dot(p: Seq<char>) -> Option<Seq<char>> {
    let d = rfind_dot(p, p.len() as int);
    if d >= 0 {
        Some(p.subrange(d + 1, p.len() as int))
    } else {
        None
    }
}

/// The item identifier encoded in a quoted path: the path must end in a
/// `'`, which is stripped, and the identifier is the text after the last `.`.
pub open spec fn item_name_of_path(path: Seq<char>) -> Option<Seq<char>> {
    if path.len() > 0 && path.last() == '\'' {
        name_after_dot(path.drop_last())
    } else {
        None
    }
}

/// The class identifier encoded in a quoted path: a trailing `'` is
/// tolerated and stripped, and the identifier is the text after the last `.`.
pub open spec fn class_name_of_path(path: Seq<char>) -> Option<Seq<char>> {
    if path.len() > 0 && path.last() == '\'' {
        name_after_dot(path.drop_last())
    } else {
        name_after_dot(path)
    }
}

// ---------------------------------------------------------------------------
// exec mirrors of the primitives
// ---------------------------------------------------------------------------
fn is_digit_exec(c: char) -> (b: bool)
    ensures
        b == is_digit(c),
{
    let u: u32 = c as u32;
    48 <= u && u <= 57
}

fn scan_digits(s: &str, pos: usize) -> (r: usize)
    requires
        pos <= s@.len(),
    ensures
        r == digits_end(s@, pos as int),
        pos <= r <= s@.len(),
    decreases s@.len() - pos,
{
    if pos < s.unicode_len() && is_digit_exec(s.get_char(pos)) {
        scan_digits(s, pos + 1)
    } else {
        pos
    }
}

fn find_char_exec(s: &str, pos: usize, c: char) -> (r: usize)
    requires
        pos <= s@.len(),
    ensures
        r == find_char(s@, pos as int, c),
        pos <= r <= s@.len(),
    decreases s@.len() - pos,
{
    if pos == s.unicode_len() {
        pos
    } else if s.get_char(pos) == c {
        pos
    } else {
        find_char_exec(s, pos + 1, c)
    }
}

fn lit_eq_from(s: &str, pos: usize, lit: &str, k: usize) -> (b: bool)
    requires
        k <= lit@.len(),
        pos + lit@.len() <= s@.len(),
    ensures
        b == forall|i: int| k <= i < lit@.len() ==> s@[pos + i] == lit@[i],
    decreases lit@.len() - k,
{
    // ties the view length to a usize, so index arithmetic below cannot overflow
    let slen: usize = s.unicode_len();
    if k == lit.unicode_len() {
        true
    } else if s.get_char(pos + k) == lit.get_char(k) {
        lit_eq_from(s, pos, lit, k + 1)
    } else {
        false
    }
}

/// Lexicographic "less than" on the characters from index `k` on: the
/// first differing code point decides, a proper prefix comes first.
pub open spec fn str_lt_from(a: Seq<char>, b: Seq<char>, k: int) -> bool
    decreases a.len() - k,
{
    if k >= b.len() {
        false
    } else if k >= a.len() {
        true
    } else if (a[k] as u32) < (b[k] as u32) {
        true
    } else if (a[k] as u32) > (b[k] as u32) {
        false
    } else {
        str_lt_from(a, b, k + 1)
    }
}

/// Plain lexicographic string ordering (by code point, which for UTF-8
/// encoded text agrees with byte ordering).
pub open spec fn str_lt(a: Seq<char>, b: Seq<char>) -> bool {
    str_lt_from(a, b, 0)
}

/// The ordering is connex: two strings with neither below the other are
/// equal.
pub proof fn lemma_str_lt_connex(a: Seq<char>, b: Seq<char>)
    requires
        !str_lt(a, b),
        !str_lt(b, a),
    ensures
        a == b,
{
    lemma_str_lt_connex_from(a, b, 0);
    assert forall|i: int| 0 <= i < a.len() implies a[i] == b[i] by {
        assert((a[i] as u32) == (b[i] as u32));
        vstd::utf8::char_u32_cast(a[i], a[i] as u32);
        vstd::utf8::char_u32_cast(b[i], b[i] as u32);
    }
    assert(a =~= b);
}

proof fn lemma_str_lt_connex_from(a: Seq<char>, b: Seq<char>, k: int)
    requires
        0 <= k <= a.len(),
        k <= b.len(),
        !str_lt_from(a, b, k),
        !str_lt_from(b, a, k),
    ensures
        a.len() == b.len(),
        forall|i: int| k <= i < a.len() ==> (a[i] as u32) == (b[i] as u32),
    decreases a.len() - k,
{
    if k < a.len() && k < b.len() {
        lemma_str_lt_connex_from(a, b, k + 1);
    }
}

/// The ordering is irreflexive.
pub proof fn lemma_str_lt_irrefl(a: Seq<char>)
    ensures
        !str_lt(a, a),
{
    lemma_str_lt_irrefl_from(a, 0);
}

proof fn lemma_str_lt_irrefl_from(a: Seq<char>, k: int)
    requires
        0 <= k,
    ensures
        !str_lt_from(a, a, k),
    decreases a.len() - k,
{
    if k < a.len() {
        lemma_str_lt_irrefl_from(a, k + 1);
    }
}

/// The ordering is transitive.
pub proof fn lemma_str_lt_trans(a: Seq<char>, b: Seq<char>, c: Seq<char>)
    requires
        str_lt(a, b),
        str_lt(b, c),
    ensures
        str_lt(a, c),
{
    lemma_str_lt_trans_from(a, b, c, 0);
}

proof fn lemma_str_lt_trans_from(a: Seq<char>, b: Seq<char>, c: Seq<char>, k: int)
    requires
        0 <= k,
        str_lt_from(a, b, k),
        str_lt_from(b, c, k),
    ensures
        str_lt_from(a, c, k),
    decreases b.len() - k,
{
    if k < a.len() && k < b.len() && k < c.len() && (a[k] as u32) == (b[k] as u32) && (
    b[k] as u32) == (c[k] as u32) {
        lemma_str_lt_trans_from(a, b, c, k + 1);
    }
}

fn str_lt_exec_from(a: &str, b: &str, k: usize) -> (r: bool)
    requires
        k <= a@.len(),
        k <= b@.len(),
    ensures
        r == str_lt_from(a@, b@, k as int),
    decreases a@.len() - k,
{
    if k == b.unicode_len() {
        false
    } else if k == a.unicode_len() {
        true
    } else {
        let ca: u32 = a.get_char(k) as u32;
        let cb: u32 = b.get_char(k) as u32;
        if ca < cb {
            true
        } else if ca > cb {
            false
        } else {
            str_lt_exec_from(a, b, k + 1)
        }
    }
}

/// Lexicographic comparison of two string slices, per [`str_lt`].
pub fn str_lt_exec(a: &str, b: &str) -> (r: bool)
    ensures
        r == str_lt(a@, b@),
{
    str_lt_exec_from(a, b, 0)
}

/// Character-for-character equality of two string slices.
pub fn str_eq(a: &str, b: &str) -> (r: bool)
    ensures
        r == (a@ == b@),
{
    let al: usize = a.unicode_len();
    let bl: usize = b.unicode_len();
    if al != bl {
        proof {
            assert(a@ != b@) by {
                if a@ == b@ {
                    assert(a@.len() == b@.len());
                }
            }
        }
        false
    } else {
        let e: bool = lit_eq_from(a, 0, b, 0);
        proof {
            if e {
                assert(a@ =~= b@);
            } else {
                if a@ == b@ {
                    assert(forall|i: int| 0 <= i < b@.len() ==> a@[0 + i] == b@[i]);
                }
            }
        }
        e
    }
}

pub fn match_lit(s: &str, pos: usize, lit: &str) -> (b: bool)
    requires
        pos <= s@.len(),
    ensures
        b == lit_at(s@, pos as int, lit@),
{
    if s.unicode_len() - pos < lit.unicode_len() {
        false
    } else {
        lit_eq_from(s, pos, lit, 0)
    }
}

fn rfind_dot_exec(p: &str, from: usize) -> (r: Option<usize>)
    requires
        from <= p@.len(),
    ensures
        match r {
            Some(i) => i == rfind_dot(p@, from as int) && i < from,
            None => rfind_dot(p@, from as int) == -1,
        },
    decreases from,
{
    if from == 0 {
        None
    } else if p.get_char(from - 1) == '.' {
        Some(from - 1)
    } else {
        rfind_dot_exec(p, from - 1)
    }
}

/// Copies `s[from..to)` out as an owned string.
fn copy_range(s: &str, from: usize, to: usize) -> (r: String)
    requires
        from <= to <= s@.len(),
    ensures
        r@ == s@.subrange(from as int, to as int),
{
    let sub: &str = s.substring_char(from, to);
    String::from_str(sub)
}

/// The identifier of the path `s[from..to)`, per [`class_name_of_path`];
/// `quote_required` selects the stricter item rule of
/// [`item_name_of_path`].
fn extract_name(s: &str, from: usize, to: usize, quote_required: bool) -> (r: Option<String>)
    requires
        from <= to <= s@.len(),
    ensures
        match r {
            Some(nm) => {
                let sp = if quote_required {
                    item_name_of_path(s@.subrange(from as int, to as int))
                } else {
                    class_name_of_path(s@.subrange(from as int, to as int))
                };
                sp is Some && nm@ == sp->Some_0
            },
            None => (if quote_required {
                item_name_of_path(s@.subrange(from as int, to as int))
            } else {
                class_name_of_path(s@.subrange(from as int, to as int))
            }) is None,
        },
{
    let ghost path = s@.subrange(from as int, to as int);
    let has_quote: bool = from < to && s.get_char(to - 1) == '\'';
    if quote_required && !has_quote {
        return None;
    }
    let end: usize = if has_quote {
        to - 1
    } else {
        to
    };
    proof {
        if has_quote {
            assert(path.len() > 0 && path.last() == '\'');
            assert(path.drop_last() =~= s@.subrange(from as int, end as int));
        } else {
            assert(path =~= s@.subrange(from as int, end as int));
        }
    }
    let ghost stripped = s@.subrange(from as int, end as int);
    match rfind_dot_at(s, from, end) {
        Some(d) => {
            proof {
                assert(rfind_dot(stripped, stripped.len() as int) == d - from);
                assert(stripped.subrange(d - from + 1, stripped.len() as int) =~= s@.subrange(
                    d + 1,
                    end as int,
                ));
            }
            Some(copy_range(s, d + 1, end))
        },
        None => {
            proof {
                assert(rfind_dot(stripped, stripped.len() as int) == -1);
            }
            None
        },
    }
}

/// Largest index in `[from, to)` of `s` holding a `.`, phrased over the
/// subrange `s[from..to)` so that callers can reason about the path alone.
fn rfind_dot_at(s: &str, from: usize, to: usize) -> (r: Option<usize>)
    requires
        from <= to <= s@.len(),
    ensures
        match r {
            Some(i) => from <= i < to && rfind_dot(
                s@.subrange(from as int, to as int),
                (to - from) as int,
            ) == i - from,
            None => rfind_dot(s@.subrange(from as int, to as int), (to - from) as int) == -1,
        },
    decreases to,
{
    if to == from {
        None
    } else if s.get_char(to - 1) == '.' {
        Some(to - 1)
    } else {
        let r = rfind_dot_at(s, from, to - 1);
        proof {
            let p = s@.subrange(from as int, to as int);
            let p1 = s@.subrange(from as int, to as int - 1);
            assert(p1 =~= p.subrange(0, p.len() - 1));
            lemma_rfind_dot_prefix(p, (to - from) as int - 1);
        }
        r
    }
}

/// `rfind_dot` looks only at indices below `from`, so it agrees on a
/// sequence and any of its prefixes that are long enough.
proof fn lemma_rfind_dot_prefix(p: Seq<char>, from: int)
    requires
        0 <= from <= p.len(),
    ensures
        rfind_dot(p.subrange(0, from), from) == rfind_dot(p, from),
    decreases from,
{
    if from > 0 {
        if p[from - 1] != '.' {
            lemma_rfind_dot_prefix(p, from - 1);
            let q = p.subrange(0, from);
            assert(q.subrange(0, from - 1) =~= p.subrange(0, from - 1));
            lemma_rfind_dot_prefix2(q, p, from - 1);
        }
    }
}

/// Two sequences equal on `[0, from)` give `rfind_dot` the same answer.
proof fn lemma_rfind_dot_prefix2(a: Seq<char>, b: Seq<char>, from: int)
    requires
        from <= a.len(),
        from <= b.len(),
        forall|i: int| 0 <= i < from ==> a[i] == b[i],
    ensures
        rfind_dot(a, from) == rfind_dot(b, from),
    decreases from,
{
    if from > 0 && a[from - 1] != '.' {
        lemma_rfind_dot_prefix2(a, b, from - 1);
    }
}

// ---------------------------------------------------------------------------
// digit runs as numbers
// ---------------------------------------------------------------------------
fn digits_to_u64(s: &str, pos: usize, end: usize) -> (r: Option<u64>)
    requires
        pos <= end <= s@.len(),
        forall|i: int| pos <= i < end ==> is_digit(#[trigger] s@[i]),
    ensures
        match r {
            Some(v) => v == digits_value(s@, pos as int, end as int),
            None => digits_value(s@, pos as int, end as int) > u64::MAX,
        },
    decreases end,
{
    if pos == end {
        Some(0)
    } else {
        proof {
            lemma_digits_value_nonneg(s@, pos as int, end as int - 1);
        }
        match digits_to_u64(s, pos, end - 1) {
            None => None,
            Some(v) => {
                let c: char = s.get_char(end - 1);
                let d: u64 = ((c as u32) - 48) as u64;
                match v.checked_mul(10) {
                    None => None,
                    Some(v10) => v10.checked_add(d),
                }
            },
        }
    }
}

pub open spec fn pow10(k: nat) -> int
    decreases k,
{
    if k == 0 {
        1
    } else {
        10 * pow10((k - 1) as nat)
    }
}

pub proof fn lemma_pow10_pos(k: nat)
    ensures
        pow10(k) >= 1,
    decreases k,
{
    if k > 0 {
        lemma_pow10_pos((k - 1) as nat);
    }
}

fn pow10_u64(k: usize) -> (r: Option<u64>)
    ensures
        match r {
            Some(v) => v == pow10(k as nat),
            None => pow10(k as nat) > u64::MAX,
        },
    decreases k,
{
    if k == 0 {
        Some(1)
    } else {
        proof {
            lemma_pow10_pos((k - 1) as nat);
        }
        match pow10_u64(k - 1) {
            None => None,
            Some(v) => v.checked_mul(10),
        }
    }
}

// ---------------------------------------------------------------------------
// decimal-fraction scalars
// ---------------------------------------------------------------------------
/// The exact rational denoted by a decimal-fraction string: an optional `-`,
/// then digits, optionally a `.` and more digits (at least one digit in
/// total). The value is `numerator / denominator` with the denominator the
/// power of ten given by the number of fractional digits. `None` when the
/// string has any other shape.
pub open spec fn spec_rational(s: Seq<char>) -> Option<(int, int)> {
    let neg = s.len() > 0 && s[0] == '-';
    let p0: int = if neg {
        1
    } else {
        0
    };
    let we = digits_end(s, p0);
    if we == s.len() {
        if we == p0 {
            None
        } else {
            let v = digits_value(s, p0, we);
            Some((if neg { -v } else { v }, 1))
        }
    } else if s[we] == '.' {
        let fe = digits_end(s, we + 1);
        if fe != s.len() {
            None
        } else if we == p0 && fe == we + 1 {
            None
        } else {
            let f = fe - (we + 1);
            let v = digits_value(s, p0, we) * pow10(f as nat) + digits_value(s, we + 1, fe);
            Some((if neg { -v } else { v }, pow10(f as nat)))
        }
    } else {
        None
    }
}

/// Turns an unsigned magnitude and sign into the `i64` numerator, exactly
/// when it fits.
fn signed_fit(num_u: u64, neg: bool) -> (r: Option<i64>)
    ensures
        ({
            let v: int = if neg {
                -(num_u as int)
            } else {
                num_u as int
            };
            match r {
                Some(n) => n == v,
                None => !fits_i64(v),
            }
        }),
{
    if neg {
        if num_u > 9223372036854775808u64 {
            None
        } else if num_u == 9223372036854775808u64 {
            Some(i64::MIN)
        } else {
            Some(-(num_u as i64))
        }
    } else {
        if num_u > 9223372036854775807u64 {
            None
        } else {
            Some(num_u as i64)
        }
    }
}

/// Parses a decimal-fraction string into an exact rational.
///
/// Returns exactly the value of [`spec_rational`] whenever both of its
/// components fit into `i64`, and `None` otherwise.
pub fn parse_rational(text: &str) -> (r: Option<Ratio>)
    ensures
        match spec_rational(text@) {
            Some((n, d)) => {
                if fits_i64(n) && fits_i64(d) {
                    r is Some && r->Some_0.num == n && r->Some_0.den == d && r->Some_0.wf()
                } else {
                    r is None
                }
            },
            None => r is None,
        },
{
    let len: usize = text.unicode_len();
    let neg: bool = len > 0 && text.get_char(0) == '-';
    let p0: usize = if neg {
        1
    } else {
        0
    };
    let we: usize = scan_digits(text, p0);
    proof {
        lemma_digit_run(text@, p0 as int);
        lemma_digits_value_nonneg(text@, p0 as int, we as int);
    }
    if we == len {
        if we == p0 {
            return None;
        }
        match digits_to_u64(text, p0, we) {
            None => None,
            Some(v) => {
                match signed_fit(v, neg) {
                    None => None,
                    Some(n) => Some(Ratio::new(n, 1)),
                }
            },
        }
    } else if text.get_char(we) == '.' {
        let fe: usize = scan_digits(text, we + 1);
        proof {
            lemma_digit_run(text@, we as int + 1);
            lemma_digits_value_nonneg(text@, we as int + 1, fe as int);
        }
        if fe != len {
            return None;
        }
        if we == p0 && fe == we + 1 {
            return None;
        }
        let f: usize = fe - (we + 1);
        proof {
            lemma_pow10_pos(f as nat);
        }
        let rw: Option<u64> = digits_to_u64(text, p0, we);
        let rf: Option<u64> = digits_to_u64(text, we + 1, fe);
        let rp: Option<u64> = pow10_u64(f);
        match (rw, rf, rp) {
            (Some(vw), Some(vf), Some(den_u)) => {
                proof {
                    let n_math = digits_value(text@, p0 as int, we as int) * pow10(f as nat)
                        + digits_value(text@, we + 1, fe as int);
                    assert(n_math == vw * den_u + vf);
                }
                match vw.checked_mul(den_u) {
                    None => None,
                    Some(prod) => {
                        match prod.checked_add(vf) {
                            None => None,
                            Some(num_u) => {
                                if den_u > 9223372036854775807u64 {
                                    None
                                } else {
                                    match signed_fit(num_u, neg) {
                                        None => None,
                                        Some(n) => Some(Ratio::new(n, den_u as i64)),
                                    }
                                }
                            },
                        }
                    },
                }
            },
            _ => {
                proof {
                    let dvw = digits_value(text@, p0 as int, we as int);
                    let dvf = digits_value(text@, we + 1, fe as int);
                    let p = pow10(f as nat);
                    assert(dvw * p + dvf >= dvw && dvw * p + dvf >= dvf) by (nonlinear_arith)
                        requires
                            dvw >= 0,
                            dvf >= 0,
                            p >= 1,
                    ;
                }
                None
            },
        }
    } else {
        None
    }
}

// ---------------------------------------------------------------------------
// item-amount lists
// ---------------------------------------------------------------------------
/// One nested record `(ItemClass="<path>",Amount=<int>)` starting at `pos`:
/// the extracted item identifier, the amount, and the position after the
/// closing parenthesis.
pub open spec fn spec_amount_rec(s: Seq<char>, pos: int) -> Option<((Seq<char>, i64), int)> {
    if !lit_at(s, pos, "(ItemClass=\""@) {
        None
    } else {
        let p1 = pos + "(ItemClass=\""@.len();
        let qe = find_char(s, p1, '"');
        if qe >= s.len() {
            None
        } else {
            match item_name_of_path(s.subrange(p1, qe)) {
                None => None,
                Some(name) => {
                    let p2 = qe + 1;
                    if !lit_at(s, p2, ",Amount="@) {
                        None
                    } else {
                        let p3 = p2 + ",Amount="@.len();
                        let neg = p3 < s.len() && s[p3] == '-';
                        let p4: int = if neg {
                            p3 + 1
                        } else {
                            p3
                        };
                        let e = digits_end(s, p4);
                        if e == p4 {
                            None
                        } else {
                            let v = digits_value(s, p4, e);
                            let sv: int = if neg {
                                -v
                            } else {
                                v
                            };
                            if !fits_i64(sv) {
                                None
                            } else if e < s.len() && s[e] == ')' {
                                Some(((name, sv as i64), e + 1))
                            } else {
                                None
                            }
                        }
                    }
                },
            }
        }
    }
}

/// A comma-separated sequence of nested records starting at `pos`.
pub open spec fn spec_amount_recs(s: Seq<char>, pos: int) -> Option<(Seq<(Seq<char>, i64)>, int)>
    decreases s.len() - pos,
{
    match spec_amount_rec(s, pos) {
        None => None,
        Some((rec, np)) => {
            if np <= pos || np > s.len() {
                None  // a parsed record always advances; this arm is unreachable
            } else if np < s.len() && s[np] == ',' {
                match spec_amount_recs(s, np + 1) {
                    None => None,
                    Some((rest, e)) => Some((seq![rec] + rest, e)),
                }
            } else {
                Some((seq![rec], np))
            }
        },
    }
}

/// The item-amount list denoted by a whole field value: empty input and
/// `()` denote the empty list; a single record may stand alone with its own
/// parentheses; otherwise the input must be exactly an outer `(...)`
/// holding comma-separated nested records.
pub open spec fn spec_item_amounts(s: Seq<char>) -> Option<Seq<(Seq<char>, i64)>> {
    if s.len() == 0 {
        Some(Seq::empty())
    } else if s.len() == 2 && s[0] == '(' && s[1] == ')' {
        Some(Seq::empty())
    } else if spec_amount_rec(s, 0) is Some && spec_amount_rec(s, 0)->Some_0.1 == s.len() {
        Some(seq![spec_amount_rec(s, 0)->Some_0.0])
    } else if s[0] == '(' {
        match spec_amount_recs(s, 1) {
            None => None,
            Some((items, np)) => {
                if np + 1 == s.len() && np < s.len() && s[np] == ')' {
                    Some(items)
                } else {
                    None
                }
            },
        }
    } else {
        None
    }
}

/// The sequence of (identifier view, amount) pairs a parsed vector denotes.
pub open spec fn amounts_view(v: Seq<(String, i64)>) -> Seq<(Seq<char>, i64)> {
    Seq::new(v.len(), |i: int| (v[i].0@, v[i].1))
}

fn parse_amount_rec(s: &str, pos: usize) -> (r: Option<((String, i64), usize)>)
    requires
        pos <= s@.len(),
    ensures
        r is Some <==> spec_amount_rec(s@, pos as int) is Some,
        r is Some ==> {
            let ((nm, amt), np) = spec_amount_rec(s@, pos as int)->Some_0;
            &&& r->Some_0.0.0@ == nm
            &&& r->Some_0.0.1 == amt
            &&& r->Some_0.1 == np
            &&& pos < np <= s@.len()
        },
{
    // ties the view length to a usize, so index arithmetic below cannot overflow
    let slen: usize = s.unicode_len();
    if !match_lit(s, pos, "(ItemClass=\"") {
        return None;
    }
    let p1: usize = pos + "(ItemClass=\"".unicode_len();
    let qe: usize = find_char_exec(s, p1, '"');
    if qe == s.unicode_len() {
        return None;
    }
    let name: String = match extract_name(s, p1, qe, true) {
        None => {
            return None;
        },
        Some(nm) => nm,
    };
    let p2: usize = qe + 1;
    if !match_lit(s, p2, ",Amount=") {
        return None;
    }
    let p3: usize = p2 + ",Amount=".unicode_len();
    let neg: bool = p3 < s.unicode_len() && s.get_char(p3) == '-';
    let p4: usize = if neg {
        p3 + 1
    } else {
        p3
    };
    let e: usize = scan_digits(s, p4);
    if e == p4 {
        return None;
    }
    proof {
        lemma_digit_run(s@, p4 as int);
        lemma_digits_value_nonneg(s@, p4 as int, e as int);
    }
    let v: u64 = match digits_to_u64(s, p4, e) {
        None => {
            return None;
        },
        Some(v) => v,
    };
    let sv: i64 = match signed_fit(v, neg) {
        None => {
            return None;
        },
        Some(n) => n,
    };
    if e < s.unicode_len() && s.get_char(e) == ')' {
        Some(((name, sv), e + 1))
    } else {
        None
    }
}

fn parse_amount_recs(s: &str, pos: usize) -> (r: Option<(Vec<(String, i64)>, usize)>)
    requires
        pos <= s@.len(),
    ensures
        r is Some <==> spec_amount_recs(s@, pos as int) is Some,
        r is Some ==> {
            let (items, np) = spec_amount_recs(s@, pos as int)->Some_0;
            &&& amounts_view(r->Some_0.0@) == items
            &&& r->Some_0.1 == np
            &&& pos < np <= s@.len()
        },
    decreases s@.len() - pos,
{
    let first = match parse_amount_rec(s, pos) {
        None => {
            return None;
        },
        Some(x) => x,
    };
    let (item, np) = first;
    if np < s.unicode_len() && s.get_char(np) == ',' {
        match parse_amount_recs(s, np + 1) {
            None => None,
            Some((rest, e)) => {
                let ghost rest_snap = rest@;
                let mut out = rest;
                out.insert(0, item);
                proof {
                    let rec = spec_amount_rec(s@, pos as int)->Some_0.0;
                    let restv = spec_amount_recs(s@, np + 1)->Some_0.0;
                    assert forall|i: int| 0 <= i < out@.len() implies amounts_view(out@)[i] == (
                    seq![rec] + restv)[i] by {
                        if i > 0 {
                            assert(out@[i] == rest_snap[i - 1]);
                            assert(amounts_view(rest_snap)[i - 1] == restv[i - 1]);
                        }
                    }
                    assert(amounts_view(out@) =~= seq![rec] + restv);
                }
                Some((out, e))
            },
        }
    } else {
        proof {
            let rec = spec_amount_rec(s@, pos as int)->Some_0.0;
            assert(amounts_view(seq![item]) =~= seq![rec]);
        }
        Some((vec![item], np))
    }
}

/// Parses a whole item-amount field value.
///
/// Returns exactly the list denoted by [`spec_item_amounts`], or `None` on
/// exactly the inputs that grammar rejects.
pub fn parse_item_amount_list(s: &str) -> (r: Option<Vec<(String, i64)>>)
    ensures
        r is Some <==> spec_item_amounts(s@) is Some,
        r is Some ==> amounts_view(r->Some_0@) == spec_item_amounts(s@)->Some_0,
{
    let len: usize = s.unicode_len();
    if len == 0 {
        let out: Vec<(String, i64)> = Vec::new();
        proof {
            assert(amounts_view(out@) =~= Seq::<(Seq<char>, i64)>::empty());
        }
        return Some(out);
    }
    if len == 2 && s.get_char(0) == '(' && s.get_char(1) == ')' {
        let out: Vec<(String, i64)> = Vec::new();
        proof {
            assert(amounts_view(out@) =~= Seq::<(Seq<char>, i64)>::empty());
        }
        return Some(out);
    }
    match parse_amount_rec(s, 0) {
        Some((item, np)) => {
            if np == len {
                let out: Vec<(String, i64)> = vec![item];
                proof {
                    assert(amounts_view(out@) =~= seq![spec_amount_rec(s@, 0)->Some_0.0]);
                }
                return Some(out);
            }
        },
        None => {},
    }
    if s.get_char(0) != '(' {
        return None;
    }
    match parse_amount_recs(s, 1) {
        None => None,
        Some((items, np)) => {
            if np == len - 1 && s.get_char(np) == ')' {
                Some(items)
            } else {
                None
            }
        },
    }
}

// ---------------------------------------------------------------------------
// class-name lists
// ---------------------------------------------------------------------------
/// One quoted class path starting at `pos`: the extracted class identifier
/// and the position after the closing quote.
pub open spec fn spec_class_rec(s: Seq<char>, pos: int) -> Option<(Seq<char>, int)> {
    if !(0 <= pos < s.len() && s[pos] == '"') {
        None
    } else {
        let qe = find_char(s, pos + 1, '"');
        if qe >= s.len() {
            None
        } else {
            match class_name_of_path(s.subrange(pos + 1, qe)) {
                None => None,
                Some(nm) => Some((nm, qe + 1)),
            }
        }
    }
}

/// A comma-separated sequence of quoted class paths starting at `pos`.
pub open spec fn spec_class_recs(s: Seq<char>, pos: int) -> Option<(Seq<Seq<char>>, int)>
    decreases s.len() - pos,
{
    match spec_class_rec(s, pos) {
        None => None,
        Some((nm, np)) => {
            if np <= pos || np > s.len() {
                None  // a parsed path always advances; this arm is unreachable
            } else if np < s.len() && s[np] == ',' {
                match spec_class_recs(s, np + 1) {
                    None => None,
                    Some((rest, e)) => Some((seq![nm] + rest, e)),
                }
            } else {
                Some((seq![nm], np))
            }
        },
    }
}

/// The class-name list denoted by a whole field value, in source order and
/// with duplicates kept; empty input and `()` denote the empty list.
pub open spec fn spec_class_names(s: Seq<char>) -> Option<Seq<Seq<char>>> {
    if s.len() == 0 {
        Some(Seq::empty())
    } else if s.len() == 2 && s[0] == '(' && s[1] == ')' {
        Some(Seq::empty())
    } else if s[0] == '(' {
        match spec_class_recs(s, 1) {
            None => None,
            Some((names, np)) => {
                if np + 1 == s.len() && np < s.len() && s[np] == ')' {
                    Some(names)
                } else {
                    None
                }
            },
        }
    } else {
        None
    }
}

/// The sequence of identifier views a parsed vector denotes.
pub open spec fn strings_view(v: Seq<String>) -> Seq<Seq<char>> {
    Seq::new(v.len(), |i: int| v[i]@)
}

fn parse_class_rec(s: &str, pos: usize) -> (r: Option<(String, usize)>)
    requires
        pos <= s@.len(),
    ensures
        r is Some <==> spec_class_rec(s@, pos as int) is Some,
        r is Some ==> {
            let (nm, np) = spec_class_rec(s@, pos as int)->Some_0;
            &&& r->Some_0.0@ == nm
            &&& r->Some_0.1 == np
            &&& pos < np <= s@.len()
        },
{
    if !(pos < s.unicode_len() && s.get_char(pos) == '"') {
        return None;
    }
    let qe: usize = find_char_exec(s, pos + 1, '"');
    if qe == s.unicode_len() {
        return None;
    }
    match extract_name(s, pos + 1, qe, false) {
        None => None,
        Some(nm) => Some((nm, qe + 1)),
    }
}

fn parse_class_recs(s: &str, pos: usize) -> (r: Option<(Vec<String>, usize)>)
    requires
        pos <= s@.len(),
    ensures
        r is Some <==> spec_class_recs(s@, pos as int) is Some,
        r is Some ==> {
            let (names, np) = spec_class_recs(s@, pos as int)->Some_0;
            &&& strings_view(r->Some_0.0@) == names
            &&& r->Some_0.1 == np
            &&& pos < np <= s@.len()
        },
    decreases s@.len() - pos,
{
    let first = match parse_class_rec(s, pos) {
        None => {
            return None;
        },
        Some(x) => x,
    };
    let (nm, np) = first;
    if np < s.unicode_len() && s.get_char(np) == ',' {
        match parse_class_recs(s, np + 1) {
            None => None,
            Some((rest, e)) => {
                let ghost rest_snap = rest@;
                let mut out = rest;
                out.insert(0, nm);
                proof {
                    let rec = spec_class_rec(s@, pos as int)->Some_0.0;
                    let restv = spec_class_recs(s@, np + 1)->Some_0.0;
                    assert forall|i: int| 0 <= i < out@.len() implies strings_view(out@)[i] == (
                    seq![rec] + restv)[i] by {
                        if i > 0 {
                            assert(out@[i] == rest_snap[i - 1]);
                            assert(strings_view(rest_snap)[i - 1] == restv[i - 1]);
                        }
                    }
                    assert(strings_view(out@) =~= seq![rec] + restv);
                }
                Some((out, e))
            },
        }
    } else {
        proof {
            let rec = spec_class_rec(s@, pos as int)->Some_0.0;
            assert(strings_view(seq![nm]) =~= seq![rec]);
        }
        Some((vec![nm], np))
    }
}

/// Parses a whole class-name-set field value into the listed identifiers,
/// in source order and with duplicates kept.
///
/// Returns exactly the list denoted by [`spec_class_names`], or `None` on
/// exactly the inputs that grammar rejects.
pub fn parse_class_name_list(s: &str) -> (r: Option<Vec<String>>)
    ensures
        r is Some <==> spec_class_names(s@) is Some,
        r is Some ==> strings_view(r->Some_0@) == spec_class_names(s@)->Some_0,
{
    let len: usize = s.unicode_len();
    if len == 0 {
        let out: Vec<String> = Vec::new();
        proof {
            assert(strings_view(out@) =~= Seq::<Seq<char>>::empty());
        }
        return Some(out);
    }
    if len == 2 && s.get_char(0) == '(' && s.get_char(1) == ')' {
        let out: Vec<String> = Vec::new();
        proof {
            assert(strings_view(out@) =~= Seq::<Seq<char>>::empty());
        }
        return Some(out);
    }
    if s.get_char(0) != '(' {
        return None;
    }
    match parse_class_recs(s, 1) {
        None => None,
        Some((names, np)) => {
            if np == len - 1 && s.get_char(np) == ')' {
                Some(names)
            } else {
                None
            }
        },
    }
}

/// Empty field values are well-defined empty results, not errors: both
/// composite grammars denote the empty list on empty input.
pub proof fn lemma_empty_input_is_empty_list()
    ensures
        spec_item_amounts(Seq::<char>::empty()) == Some(Seq::<(Seq<char>, i64)>::empty()),
        spec_class_names(Seq::<char>::empty()) == Some(Seq::<Seq<char>>::empty()),
{
}

/// Every character of the run found by `digits_end` is a digit.
pub proof fn lemma_digit_run(s: Seq<char>, pos: int)
    requires
        0 <= pos,
    ensures
        forall|i: int| pos <= i < digits_end(s, pos) ==> is_digit(#[trigger] s[i]),
    decreases s.len() - pos,
{
    if pos < s.len() && is_digit(s[pos]) {
        lemma_digit_run(s, pos + 1);
    }
}

} // verus!
