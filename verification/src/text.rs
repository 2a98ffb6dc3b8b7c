//! Character-level utilities: decimal digit strings, the textual number
//! grammar used for the price and size fields, and conversions between
//! `&str`, `Vec<char>` and `String`.
use vstd::prelude::*;
use vstd::string::StrSliceExecFns;
use vstd::string::StringExecFns;

verus! {

/// A decimal digit.
pub open spec fn is_digit_char(c: char) -> bool {
    48 <= c as int && c as int <= 57
}

/// The numeric value of a decimal digit.
pub open spec fn digit_val(c: char) -> nat {
    (c as int - 48) as nat
}

/// The digit with the given value (digits beyond 9 are unused).
pub open spec fn digit_char(d: nat) -> char {
    if d == 0 { '0' }
    else if d == 1 { '1' }
    else if d == 2 { '2' }
    else if d == 3 { '3' }
    else if d == 4 { '4' }
    else if d == 5 { '5' }
    else if d == 6 { '6' }
    else if d == 7 { '7' }
    else if d == 8 { '8' }
    else { '9' }
}

pub open spec fn all_digits(s: Seq<char>) -> bool {
    forall|i: int| 0 <= i < s.len() ==> is_digit_char(#[trigger] s[i])
}

/// The value of a digit string, most significant digit first.
pub open spec fn digits_val(s: Seq<char>) -> nat
    decreases s.len(),
{
    if s.len() == 0 {
        0
    } else {
        digits_val(s.drop_last()) * 10 + digit_val(s.last())
    }
}

/// The canonical decimal rendering of a number (no leading zeros).
pub open spec fn dec_str(n: nat) -> Seq<char>
    decreases n,
{
    if n < 10 {
        seq![digit_char(n)]
    } else {
        dec_str(n / 10).push(digit_char(n % 10))
    }
}

/// `s` with every `'.'` removed.
pub open spec fn strip_dots(s: Seq<char>) -> Seq<char>
    decreases s.len(),
{
    if s.len() == 0 {
        seq![]
    } else {
        strip_dots(s.drop_last()) + (if s.last() == '.' { seq![] } else { seq![s.last()] })
    }
}

pub open spec fn is_num_char(c: char) -> bool {
    is_digit_char(c) || c == '.'
}

pub open spec fn count_dots(s: Seq<char>) -> nat
    decreases s.len(),
{
    if s.len() == 0 {
        0
    } else {
        count_dots(s.drop_last()) + (if s.last() == '.' { 1nat } else { 0nat })
    }
}

pub open spec fn has_digit(s: Seq<char>) -> bool {
    exists|i: int| 0 <= i < s.len() && is_digit_char(#[trigger] s[i])
}

pub open spec fn has_nonzero_digit(s: Seq<char>) -> bool {
    exists|i: int| 0 <= i < s.len() && is_digit_char(#[trigger] s[i]) && s[i] != '0'
}

/// The part of a number after an optional leading minus sign.
pub open spec fn num_body(s: Seq<char>) -> Seq<char> {
    if s.len() > 0 && s[0] == '-' {
        s.drop_first()
    } else {
        s
    }
}

/// A decimal number: an optional minus sign, then digits with at most one
/// decimal point and at least one digit.
pub open spec fn valid_num_text(s: Seq<char>) -> bool {
    let b = num_body(s);
    &&& b.len() > 0
    &&& forall|i: int| 0 <= i < b.len() ==> is_num_char(#[trigger] b[i])
    &&& count_dots(b) <= 1
    &&& has_digit(b)
}

/// A number that denotes a value below zero: a minus sign and some digit
/// other than zero.
pub open spec fn num_text_negative(s: Seq<char>) -> bool {
    s.len() > 0 && s[0] == '-' && has_nonzero_digit(s)
}

/// Every character of a decimal number is ASCII.
pub proof fn lemma_num_text_ascii(s: Seq<char>)
    requires
        valid_num_text(s),
    ensures
        vstd::utf8::is_ascii_chars(s),
{
    let b = num_body(s);
    assert forall|i: int| 0 <= i < s.len() implies '\0' <= #[trigger] s[i] <= '\u{7f}' by {
        if s.len() > 0 && s[0] == '-' {
            if i > 0 {
                assert(b[i - 1] == s[i]);
            }
        } else {
            assert(b[i] == s[i]);
        }
    }
}

/// The value of a digit character.
pub fn digit_of(c: char) -> (r: Option<u64>)
    ensures
        r is Some <==> is_digit_char(c),
        r is Some ==> r->0 == digit_val(c),
{
    if c == '0' { Some(0) }
    else if c == '1' { Some(1) }
    else if c == '2' { Some(2) }
    else if c == '3' { Some(3) }
    else if c == '4' { Some(4) }
    else if c == '5' { Some(5) }
    else if c == '6' { Some(6) }
    else if c == '7' { Some(7) }
    else if c == '8' { Some(8) }
    else if c == '9' { Some(9) }
    else { None }
}

/// The characters of `s`, in order.
pub fn str_chars(s: &str) -> (r: Vec<char>)
    ensures
        r@ == s@,
{
    let n = s.unicode_len();
    let mut v: Vec<char> = Vec::new();
    let mut i: usize = 0;
    while i < n
        invariant
            i <= n,
            n == s@.len(),
            v@ == s@.subrange(0, i as int),
        decreases n - i,
    {
        v.push(s.get_char(i));
        proof {
            assert(s@.subrange(0, i as int).push(s@[i as int]) =~= s@.subrange(0, i + 1));
        }
        i += 1;
    }
    proof {
        assert(s@.subrange(0, s@.len() as int) =~= s@);
    }
    v
}

/// A one-character string for each character the number grammar accepts.
pub fn num_char_str(c: char) -> (r: &'static str)
    requires
        is_num_char(c) || c == '-',
    ensures
        r@ =~= seq![c],
{
    proof {
        reveal_strlit("0");
        reveal_strlit("1");
        reveal_strlit("2");
        reveal_strlit("3");
        reveal_strlit("4");
        reveal_strlit("5");
        reveal_strlit("6");
        reveal_strlit("7");
        reveal_strlit("8");
        reveal_strlit("9");
        reveal_strlit(".");
        reveal_strlit("-");
    }
    if c == '0' { "0" }
    else if c == '1' { "1" }
    else if c == '2' { "2" }
    else if c == '3' { "3" }
    else if c == '4' { "4" }
    else if c == '5' { "5" }
    else if c == '6' { "6" }
    else if c == '7' { "7" }
    else if c == '8' { "8" }
    else if c == '9' { "9" }
    else if c == '.' { "." }
    else { "-" }
}

/// Builds a `String` from characters of the number grammar.
pub fn num_chars_to_string(v: &Vec<char>) -> (r: String)
    requires
        forall|i: int| 0 <= i < v@.len() ==> is_num_char(#[trigger] v@[i]) || v@[i] == '-',
    ensures
        r@ == v@,
{
    let mut s = String::new();
    let mut i: usize = 0;
    while i < v.len()
        invariant
            i <= v@.len(),
            s@ == v@.subrange(0, i as int),
            forall|k: int| 0 <= k < v@.len() ==> is_num_char(#[trigger] v@[k]) || v@[k] == '-',
        decreases v@.len() - i,
    {
        s.append(num_char_str(v[i]));
        proof {
            assert(v@.subrange(0, i as int) + seq![v@[i as int]] =~= v@.subrange(0, i + 1));
        }
        i += 1;
    }
    proof {
        assert(v@.subrange(0, v@.len() as int) =~= v@);
    }
    s
}

/// The value of every prefix of a digit string is at most the value of the
/// whole string.
pub proof fn lemma_digits_val_prefix_le(s: Seq<char>, i: int)
    requires
        0 <= i <= s.len(),
    ensures
        digits_val(s.subrange(0, i)) <= digits_val(s),
    decreases s.len() - i,
{
    if i == s.len() {
        assert(s.subrange(0, i) =~= s);
    } else {
        lemma_digits_val_prefix_le(s, i + 1);
        assert(s.subrange(0, i + 1).drop_last() =~= s.subrange(0, i));
        assert(digits_val(s.subrange(0, i + 1)) == digits_val(s.subrange(0, i)) * 10 + digit_val(
            s.subrange(0, i + 1).last(),
        ));
        assert(digits_val(s.subrange(0, i)) <= digits_val(s.subrange(0, i)) * 10) by (nonlinear_arith);
    }
}

/// Parses a non-empty digit string as a `u64`; rejects other text and
/// values beyond `u64::MAX`.
pub fn parse_u64_digits(s: &Vec<char>) -> (r: Option<u64>)
    ensures
        r is Some <==> (s@.len() > 0 && all_digits(s@) && digits_val(s@) <= u64::MAX),
        r is Some ==> r->0 == digits_val(s@),
{
    if s.len() == 0 {
        return None;
    }
    let mut acc: u64 = 0;
    let mut i: usize = 0;
    while i < s.len()
        invariant
            i <= s@.len(),
            s@.len() > 0,
            all_digits(s@.subrange(0, i as int)),
            acc == digits_val(s@.subrange(0, i as int)),
        decreases s@.len() - i,
    {
        let c = s[i];
        let d: u64 = match digit_of(c) {
            Some(d) => d,
            None => {
                assert(!is_digit_char(s@[i as int]));
                return None;
            },
        };
        proof {
            assert(is_digit_char(s@[i as int]));
            assert(digit_val(s@[i as int]) == d);
            assert(s@.subrange(0, i + 1).drop_last() =~= s@.subrange(0, i as int));
        }
        if acc > (u64::MAX - d) / 10 {
            proof {
                assert(acc * 10 + d > u64::MAX) by (nonlinear_arith)
                    requires
                        acc > (u64::MAX - d) / 10,
                        d <= 9,
                ;
                assert(digits_val(s@.subrange(0, i + 1)) > u64::MAX);
                lemma_digits_val_prefix_le(s@, i + 1);
            }
            return None;
        }
        proof {
            assert(acc * 10 + d <= u64::MAX) by (nonlinear_arith)
                requires
                    acc <= (u64::MAX - d) / 10,
                    d <= 9,
            ;
        }
        acc = acc * 10 + d;
        i += 1;
    }
    proof {
        assert(s@.subrange(0, s@.len() as int) =~= s@);
    }
    Some(acc)
}

/// Parses a non-empty digit string as a `u32`.
pub fn parse_u32_digits(s: &Vec<char>) -> (r: Option<u32>)
    ensures
        r is Some <==> (s@.len() > 0 && all_digits(s@) && digits_val(s@) <= u32::MAX),
        r is Some ==> r->0 == digits_val(s@),
{
    match parse_u64_digits(s) {
        None => None,
        Some(v) => {
            if v <= u32::MAX as u64 {
                Some(v as u32)
            } else {
                None
            }
        },
    }
}

/// Renders a `u64` in decimal.
pub fn u64_to_string(n: u64) -> (r: String)
    ensures
        r@ == dec_str(n as nat),
{
    let mut rev: Vec<u64> = Vec::new();
    let mut m: u64 = n;
    while m >= 10
        invariant
            dec_str(n as nat) == dec_str(m as nat) + rev_digit_chars(rev@),
            forall|k: int| 0 <= k < rev@.len() ==> #[trigger] rev@[k] < 10,
        decreases m,
    {
        let d = m % 10;
        proof {
            assert(dec_str(m as nat) == dec_str((m / 10) as nat).push(digit_char((m % 10) as nat)));
            assert(rev@.push(d).drop_last() =~= rev@);
            assert(rev@.push(d).last() == d);
            assert(rev_digit_chars(rev@.push(d)) == seq![digit_char(d as nat)] + rev_digit_chars(
                rev@,
            ));
            assert(dec_str((m / 10) as nat) + (seq![digit_char(d as nat)] + rev_digit_chars(rev@))
                =~= dec_str((m / 10) as nat).push(digit_char(d as nat)) + rev_digit_chars(rev@));
        }
        rev.push(d);
        m = m / 10;
    }
    let mut s = String::new();
    s.append(digit_lit(m));
    proof {
        assert(s@ =~= seq![digit_char(m as nat)]);
        assert(dec_str(m as nat) == seq![digit_char(m as nat)]);
        assert(rev@.subrange(0, rev@.len() as int) =~= rev@);
        assert(s@ + rev_digit_chars(rev@) =~= dec_str(m as nat) + rev_digit_chars(rev@));
    }
    let mut j: usize = rev.len();
    while j > 0
        invariant
            j <= rev@.len(),
            forall|k: int| 0 <= k < rev@.len() ==> #[trigger] rev@[k] < 10,
            s@ + rev_digit_chars(rev@.subrange(0, j as int)) == dec_str(n as nat),
        decreases j,
    {
        proof {
            assert(rev@.subrange(0, j as int).drop_last() =~= rev@.subrange(0, j - 1));
            assert(s@ + rev_digit_chars(rev@.subrange(0, j as int)) =~= (s@ + seq![
                digit_char(rev@[j - 1] as nat),
            ]) + rev_digit_chars(rev@.subrange(0, j - 1)));
        }
        j = j - 1;
        s.append(digit_lit(rev[j]));
    }
    proof {
        assert(rev@.subrange(0, 0) =~= Seq::<u64>::empty());
        assert(s@ + rev_digit_chars(rev@.subrange(0, 0)) =~= s@);
    }
    s
}

/// The characters of digits collected least-significant first, read back
/// most-significant first.
pub open spec fn rev_digit_chars(v: Seq<u64>) -> Seq<char>
    decreases v.len(),
{
    if v.len() == 0 {
        seq![]
    } else {
        seq![digit_char(v.last() as nat)] + rev_digit_chars(v.drop_last())
    }
}

/// A one-character string for a digit value.
pub fn digit_lit(d: u64) -> (r: &'static str)
    requires
        d < 10,
    ensures
        r@ =~= seq![digit_char(d as nat)],
{
    proof {
        reveal_strlit("0");
        reveal_strlit("1");
        reveal_strlit("2");
        reveal_strlit("3");
        reveal_strlit("4");
        reveal_strlit("5");
        reveal_strlit("6");
        reveal_strlit("7");
        reveal_strlit("8");
        reveal_strlit("9");
    }
    if d == 0 { "0" }
    else if d == 1 { "1" }
    else if d == 2 { "2" }
    else if d == 3 { "3" }
    else if d == 4 { "4" }
    else if d == 5 { "5" }
    else if d == 6 { "6" }
    else if d == 7 { "7" }
    else if d == 8 { "8" }
    else { "9" }
}

} // verus!
