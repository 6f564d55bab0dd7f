//! Decimal numerals: the textual number format accepted for measurement
//! fields, and conversion between signed integers and their decimal text.
//!
//! Dosage and the two coordinates are carried as validated decimal text,
//! so that serialization reproduces exactly the digits the caller supplied.
//! The accepted grammar is the JSON numeral grammar:
//! `-? (0 | [1-9][0-9]*) (. [0-9]+)? ([eE] [+-]? [0-9]+)?`.
//! Timestamps are 64-bit integers, parsed from an optionally signed digit
//! string and serialized back to canonical decimal text.

use vstd::prelude::*;
use vstd::string::StrSliceExecFns;
use vstd::string::StringExecFns;

verus! {

/// Decimal digit.
pub open spec fn is_digit(c: char) -> bool {
    48 <= c as u32 && c as u32 <= 57
}

/// Numeric value of a decimal digit.
pub open spec fn digit_val(c: char) -> int {
    c as u32 - 48
}

/// Every character of `s` is a decimal digit.
pub open spec fn all_digits(s: Seq<char>) -> bool {
    forall|i: int| 0 <= i < s.len() ==> is_digit(#[trigger] s[i])
}

/// Value of a digit string, most significant digit first.
pub open spec fn digits_val(s: Seq<char>) -> int
    decreases s.len(),
{
    if s.len() == 0 {
        0
    } else {
        digits_val(s.drop_last()) * 10 + digit_val(s.last())
    }
}

/// `s` begins with an explicit sign character.
pub open spec fn has_sign(s: Seq<char>) -> bool {
    s.len() > 0 && (s[0] == '+' || s[0] == '-')
}

/// `s` without its leading sign, if any.
pub open spec fn int_body(s: Seq<char>) -> Seq<char> {
    if has_sign(s) {
        s.skip(1)
    } else {
        s
    }
}

/// Optionally signed, non-empty digit string: what a timestamp argument
/// must look like.
pub open spec fn is_int_text(s: Seq<char>) -> bool {
    int_body(s).len() > 0 && all_digits(int_body(s))
}

/// Signed value denoted by an integer numeral.
pub open spec fn int_text_val(s: Seq<char>) -> int {
    if s.len() > 0 && s[0] == '-' {
        -digits_val(int_body(s))
    } else {
        digits_val(int_body(s))
    }
}

/// Number of leading decimal digits of `s`.
pub open spec fn digit_prefix_len(s: Seq<char>) -> int
    decreases s.len(),
{
    if s.len() == 0 || !is_digit(s[0]) {
        0
    } else {
        1 + digit_prefix_len(s.skip(1))
    }
}

/// Length of the integer part of a JSON numeral (after the sign):
/// a single `0`, or a run of digits starting with `1`..`9`; zero when
/// the text starts with no digit.
pub open spec fn int_part_len(s: Seq<char>) -> int {
    if s.len() == 0 {
        0
    } else if s[0] == '0' {
        1
    } else {
        digit_prefix_len(s)
    }
}

/// Exponent part: empty, or `e`/`E`, an optional sign, and one or more
/// digits reaching the end of the text.
pub open spec fn is_exp_part(s: Seq<char>) -> bool {
    if s.len() == 0 {
        true
    } else if s[0] == 'e' || s[0] == 'E' {
        int_body(s.skip(1)).len() > 0 && all_digits(int_body(s.skip(1)))
    } else {
        false
    }
}

/// Fraction-then-exponent part: empty, an exponent part, or `.`, one or
/// more digits, and an exponent part.
pub open spec fn is_frac_exp_part(s: Seq<char>) -> bool {
    if s.len() > 0 && s[0] == '.' {
        digit_prefix_len(s.skip(1)) >= 1 && is_exp_part(s.skip(1 + digit_prefix_len(s.skip(1))))
    } else {
        is_exp_part(s)
    }
}

/// JSON numeral grammar, the format accepted for dosage and coordinates:
/// an optional minus sign, an integer part without superfluous leading
/// zeros, an optional fraction, and an optional exponent.
pub open spec fn is_number_text(s: Seq<char>) -> bool {
    ({
        let b = if s.len() > 0 && s[0] == '-' {
            s.skip(1)
        } else {
            s
        };
        int_part_len(b) >= 1 && is_frac_exp_part(b.skip(int_part_len(b)))
    })
}

/// Character emitted for a decimal digit value.
pub open spec fn digit_char(d: int) -> char {
    if d == 0 {
        '0'
    } else if d == 1 {
        '1'
    } else if d == 2 {
        '2'
    } else if d == 3 {
        '3'
    } else if d == 4 {
        '4'
    } else if d == 5 {
        '5'
    } else if d == 6 {
        '6'
    } else if d == 7 {
        '7'
    } else if d == 8 {
        '8'
    } else {
        '9'
    }
}

/// Decimal digit string of a non-negative integer, without leading zeros.
pub open spec fn dec_digits(n: int) -> Seq<char>
    decreases n,
{
    if n < 10 {
        seq![digit_char(n)]
    } else {
        dec_digits(n / 10) + seq![digit_char(n % 10)]
    }
}

/// Canonical decimal text of a signed integer.
pub open spec fn dec_str_of(v: int) -> Seq<char> {
    if v < 0 {
        seq!['-'] + dec_digits(-v)
    } else {
        dec_digits(v)
    }
}

proof fn lemma_digit_run(s: Seq<char>, i: int, j: int)
    requires
        0 <= i <= j <= s.len(),
        forall|k: int| i <= k < j ==> is_digit(#[trigger] s[k]),
        j == s.len() || !is_digit(s[j]),
    ensures
        digit_prefix_len(s.skip(i)) == j - i,
    decreases j - i,
{
    if i == j {
        if i < s.len() {
            assert(s.skip(i)[0] == s[i]);
        }
    } else {
        assert(s.skip(i)[0] == s[i]);
        assert(is_digit(s[i]));
        assert(s.skip(i).skip(1) =~= s.skip(i + 1));
        lemma_digit_run(s, i + 1, j);
    }
}

/// Decides `is_digit`.
pub(crate) fn is_digit_char(c: char) -> (b: bool)
    ensures
        b == is_digit(c),
{
    let u: u32 = c as u32;
    48 <= u && u <= 57
}

/// First index at or after `from` that holds no decimal digit.
fn scan_digits(s: &str, from: usize) -> (j: usize)
    requires
        from as int <= s@.len(),
    ensures
        from <= j,
        j as int <= s@.len(),
        digit_prefix_len(s@.skip(from as int)) == j - from,
        forall|k: int| from <= k < j ==> is_digit(#[trigger] s@[k]),
        (j as int) < s@.len() ==> !is_digit(s@[j as int]),
{
    let n: usize = s.unicode_len();
    let mut j: usize = from;
    while j < n && is_digit_char(s.get_char(j))
        invariant
            from <= j <= n,
            n as int == s@.len(),
            forall|k: int| from <= k < j ==> is_digit(#[trigger] s@[k]),
        decreases n - j,
    {
        j = j + 1;
    }
    proof {
        lemma_digit_run(s@, from as int, j as int);
    }
    j
}

/// Decides whether the suffix of `s` at `i` is an exponent part.
fn check_exp_at(s: &str, i: usize) -> (b: bool)
    requires
        i as int <= s@.len(),
    ensures
        b == is_exp_part(s@.skip(i as int)),
{
    let n: usize = s.unicode_len();
    let ghost erest: Seq<char> = s@.skip(i as int);
    if i == n {
        return true;
    }
    let c: char = s.get_char(i);
    proof {
        assert(erest[0] == s@[i as int]);
    }
    if !(c == 'e' || c == 'E') {
        return false;
    }
    proof {
        assert(erest.skip(1) =~= s@.skip(i as int + 1));
    }
    let mut k: usize = i + 1;
    if k < n && (s.get_char(k) == '+' || s.get_char(k) == '-') {
        k = k + 1;
    }
    proof {
        assert(int_body(erest.skip(1)) =~= s@.skip(k as int));
    }
    if k == n {
        return false;
    }
    let j: usize = scan_digits(s, k);
    proof {
        let ebody: Seq<char> = s@.skip(k as int);
        if j as int == s@.len() {
            assert(forall|m: int| 0 <= m < ebody.len() ==> #[trigger] ebody[m] == s@[m + k]);
            assert(all_digits(ebody));
        } else {
            assert(ebody[j - k] == s@[j as int]);
            assert(!is_digit(ebody[j - k]));
            assert(!all_digits(ebody));
        }
    }
    j == n
}

/// Decides whether the suffix of `s` at `i` is a fraction-then-exponent
/// part.
fn check_frac_exp_at(s: &str, i: usize) -> (b: bool)
    requires
        i as int <= s@.len(),
    ensures
        b == is_frac_exp_part(s@.skip(i as int)),
{
    let n: usize = s.unicode_len();
    let ghost rest: Seq<char> = s@.skip(i as int);
    if i < n && s.get_char(i) == '.' {
        proof {
            assert(rest[0] == '.');
            assert(rest.skip(1) =~= s@.skip(i as int + 1));
        }
        let j: usize = scan_digits(s, i + 1);
        if j == i + 1 {
            return false;
        }
        proof {
            let fl: int = digit_prefix_len(rest.skip(1));
            assert(fl == j - i - 1);
            assert(rest.skip(1 + fl) =~= s@.skip(j as int));
        }
        check_exp_at(s, j)
    } else {
        proof {
            if rest.len() > 0 {
                assert(rest[0] == s@[i as int]);
            }
        }
        check_exp_at(s, i)
    }
}

/// Decides the numeral grammar `is_number_text`: an optional minus sign,
/// an integer part without superfluous leading zeros, an optional
/// fraction, and an optional exponent.
pub fn check_number(s: &str) -> (b: bool)
    ensures
        b == is_number_text(s@),
{
    let n: usize = s.unicode_len();
    if n == 0 {
        return false;
    }
    let mut sl: usize = 0;
    if s.get_char(0) == '-' {
        sl = 1;
    }
    let ghost bdy: Seq<char> = if s@[0] == '-' {
        s@.skip(1)
    } else {
        s@
    };
    proof {
        assert(bdy =~= s@.skip(sl as int));
    }
    if sl == n {
        return false;
    }
    let c: char = s.get_char(sl);
    let mut i: usize = 0;
    if c == '0' {
        i = sl + 1;
        proof {
            assert(bdy[0] == '0');
            assert(int_part_len(bdy) == 1);
        }
    } else if is_digit_char(c) {
        i = scan_digits(s, sl);
        proof {
            assert(bdy[0] == s@[sl as int]);
            assert(int_part_len(bdy) == digit_prefix_len(bdy));
            assert(i > sl);
        }
    } else {
        proof {
            assert(bdy[0] == s@[sl as int]);
            assert(digit_prefix_len(bdy) == 0);
        }
        return false;
    }
    proof {
        assert(int_part_len(bdy) == i - sl);
        assert(bdy.skip(i - sl) =~= s@.skip(i as int));
    }
    check_frac_exp_at(s, i)
}

proof fn lemma_digits_val_nonneg(s: Seq<char>)
    requires
        all_digits(s),
    ensures
        digits_val(s) >= 0,
    decreases s.len(),
{
    if s.len() > 0 {
        assert(all_digits(s.drop_last()));
        lemma_digits_val_nonneg(s.drop_last());
        assert(is_digit(s.last()));
    }
}

/// Parses an optionally signed decimal numeral as a 64-bit integer, the
/// format accepted for the timestamp argument.  Returns `None` exactly
/// when the text is not such a numeral or its value does not fit.
pub fn parse_i64(s: &str) -> (r: Option<i64>)
    ensures
        r is Some <==> is_int_text(s@) && i64::MIN <= int_text_val(s@) <= i64::MAX,
        r is Some ==> r->0 as int == int_text_val(s@),
{
    let n: usize = s.unicode_len();
    let mut start: usize = 0;
    let mut neg: bool = false;
    if n > 0 {
        let c: char = s.get_char(0);
        if c == '-' {
            neg = true;
            start = 1;
        } else if c == '+' {
            start = 1;
        }
    }
    let ghost bdy: Seq<char> = int_body(s@);
    proof {
        assert(bdy =~= s@.skip(start as int));
    }
    if start == n {
        return None;
    }
    let mut mag: u64 = 0;
    let mut over: bool = false;
    let mut j: usize = start;
    while j < n
        invariant
            start <= j <= n,
            start < n,
            n as int == s@.len(),
            bdy == int_body(s@),
            bdy =~= s@.skip(start as int),
            neg <==> (s@.len() > 0 && s@[0] == '-'),
            forall|k: int| start <= k < j ==> is_digit(#[trigger] s@[k]),
            over <==> digits_val(s@.subrange(start as int, j as int)) > u64::MAX,
            !over ==> mag as int == digits_val(s@.subrange(start as int, j as int)),
        decreases n - j,
    {
        let c: char = s.get_char(j);
        if !is_digit_char(c) {
            proof {
                assert(0 <= j - start < bdy.len());
                assert(bdy[j - start] == s@[j as int]);
                assert(!is_digit(bdy[j - start]));
                assert(!all_digits(bdy));
                assert(!is_int_text(s@));
            }
            return None;
        }
        let d: u64 = (c as u32 - 48) as u64;
        let ghost pre: Seq<char> = s@.subrange(start as int, j as int);
        let ghost cur: Seq<char> = s@.subrange(start as int, j as int + 1);
        proof {
            assert(cur.drop_last() =~= pre);
            assert(cur.last() == s@[j as int]);
            assert(digits_val(cur) == digits_val(pre) * 10 + digit_val(s@[j as int]));
        }
        if over {
            proof {
                let dv: int = digits_val(pre);
                assert(digits_val(cur) > u64::MAX) by (nonlinear_arith)
                    requires
                        digits_val(cur) == dv * 10 + digit_val(s@[j as int]),
                        dv > u64::MAX,
                        digit_val(s@[j as int]) >= 0,
                ;
            }
        } else {
            let tmp: u128 = mag as u128 * 10 + d as u128;
            if tmp > u64::MAX as u128 {
                over = true;
            } else {
                mag = tmp as u64;
            }
        }
        j = j + 1;
    }
    proof {
        assert(s@.subrange(start as int, n as int) =~= bdy);
        assert(all_digits(bdy));
        assert(is_int_text(s@));
        lemma_digits_val_nonneg(bdy);
        if s@[0] == '-' {
            assert(neg);
            assert(int_text_val(s@) == -digits_val(bdy));
        } else {
            assert(!neg);
            assert(int_text_val(s@) == digits_val(bdy));
        }
    }
    if over {
        return None;
    }
    if neg {
        if mag > 9223372036854775808u64 {
            None
        } else if mag == 9223372036854775808u64 {
            Some(i64::MIN)
        } else {
            Some(-(mag as i64))
        }
    } else {
        if mag > 9223372036854775807u64 {
            None
        } else {
            Some(mag as i64)
        }
    }
}

/// One-character string for a decimal digit value.
fn digit_str(d: u64) -> (r: &'static str)
    requires
        d < 10,
    ensures
        r@ == seq![digit_char(d as int)],
{
    proof {
        reveal_strlit("0");
        reveal_strlit("1");
        reveal_strlit("2");
        reveal_strlit("3");
        reveal_strlit("4");
        reveal_strlit("5");
        reveal_strlit("6");
        reveal_strlit("7");
        reveal_strlit("8");
        reveal_strlit("9");
    }
    let r: &'static str = match d {
        0 => "0",
        1 => "1",
        2 => "2",
        3 => "3",
        4 => "4",
        5 => "5",
        6 => "6",
        7 => "7",
        8 => "8",
        _ => "9",
    };
    proof {
        assert(r@ =~= seq![digit_char(d as int)]);
    }
    r
}

fn u64_to_dec(n: u64) -> (r: String)
    ensures
        r@ == dec_digits(n as int),
    decreases n,
{
    if n < 10 {
        String::from_str(digit_str(n))
    } else {
        let mut acc: String = u64_to_dec(n / 10);
        acc.append(digit_str(n % 10));
        proof {
            assert(acc@ =~= dec_digits(n as int));
        }
        acc
    }
}

/// Canonical decimal text of a signed 64-bit integer: how a timestamp is
/// written into the JSON document.
pub fn i64_to_string(v: i64) -> (r: String)
    ensures
        r@ == dec_str_of(v as int),
{
    if v >= 0 {
        u64_to_dec(v as u64)
    } else {
        let mag: u64 = (-(v as i128)) as u64;
        let mut r: String = String::from_str("-");
        let digits: String = u64_to_dec(mag);
        r.append(digits.as_str());
        proof {
            reveal_strlit("-");
            assert("-"@ =~= seq!['-']);
            assert(r@ =~= dec_str_of(v as int));
        }
        r
    }
}

} // verus!
