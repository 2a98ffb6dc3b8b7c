//! The line parser: one ASCII record, six comma-separated fields closed by
//! a semicolon, becomes an [`Update`].
//!
//! The timestamp field is read with every decimal point ignored, so
//! `1505177459.658` denotes the integer `1505177459658`; the price and size
//! fields keep their decimal point. Whitespace between fields is skipped.
use vstd::prelude::*;
use crate::text::{
    all_digits, count_dots, digit_of, digits_val, has_digit, is_digit_char, is_num_char, num_body,
    num_chars_to_string, num_text_negative, parse_u32_digits, parse_u64_digits, str_chars,
    strip_dots, valid_num_text,
};
use crate::update::{ok_num_field, Update, UpdateModel};

verus! {

/// Whitespace that may separate fields.
pub open spec fn is_ws(c: char) -> bool {
    c == ' ' || c == '\t' || c == '\r' || c == '\n'
}

/// Splits a record into its fields, one position at a time: `cur` is the
/// field being collected, `acc` the fields already closed. The record must
/// end at its first `';'`; whitespace is dropped.
pub open spec fn split_rec(s: Seq<char>, i: int, cur: Seq<char>, acc: Seq<Seq<char>>) -> Option<
    Seq<Seq<char>>,
>
    decreases s.len() - i,
{
    if i < 0 || i >= s.len() {
        None
    } else {
        let c = s[i];
        if c == ';' {
            if i == s.len() - 1 {
                Some(acc.push(cur))
            } else {
                None
            }
        } else if c == ',' {
            split_rec(s, i + 1, Seq::empty(), acc.push(cur))
        } else if is_ws(c) {
            split_rec(s, i + 1, cur, acc)
        } else {
            split_rec(s, i + 1, cur.push(c), acc)
        }
    }
}

/// The fields of a record, or `None` when no single `';'` closes it.
pub open spec fn split_fields(s: Seq<char>) -> Option<Seq<Seq<char>>> {
    split_rec(s, 0, Seq::empty(), Seq::empty())
}

/// The boolean fields hold exactly `t` or `f`.
pub open spec fn field_bool_ok(f: Seq<char>) -> bool {
    f == seq!['t'] || f == seq!['f']
}

pub open spec fn field_is_t(f: Seq<char>) -> bool {
    f == seq!['t']
}

/// The timestamp field: digits once every `'.'` is dropped, fitting `u64`.
pub open spec fn ts_field_ok(f: Seq<char>) -> bool {
    let t = strip_dots(f);
    t.len() > 0 && all_digits(t) && digits_val(t) <= u64::MAX
}

/// The sequence-number field: digits fitting `u32`.
pub open spec fn seq_field_ok(f: Seq<char>) -> bool {
    f.len() > 0 && all_digits(f) && digits_val(f) <= u32::MAX
}

/// What a record denotes: `None` on any malformed field, a wrong field
/// count, or a negative price or size.
pub open spec fn spec_parse_line(s: Seq<char>) -> Option<UpdateModel> {
    match split_fields(s) {
        None => None,
        Some(fs) => {
            if fs.len() == 6 && ts_field_ok(fs[0]) && seq_field_ok(fs[1]) && field_bool_ok(fs[2])
                && field_bool_ok(fs[3]) && ok_num_field(fs[4]) && ok_num_field(fs[5]) {
                Some(
                    UpdateModel {
                        ts: digits_val(strip_dots(fs[0])) as u64,
                        seq: digits_val(fs[1]) as u32,
                        is_trade: field_is_t(fs[2]),
                        is_bid: field_is_t(fs[3]),
                        price: fs[4],
                        size: fs[5],
                    },
                )
            } else {
                None
            }
        },
    }
}

/// Whatever fields a split yields extend the fields already closed.
pub proof fn lemma_split_extends(s: Seq<char>, i: int, cur: Seq<char>, acc: Seq<Seq<char>>)
    ensures
        match split_rec(s, i, cur, acc) {
            Some(fs) => fs.len() > acc.len() && (forall|k: int|
                0 <= k < acc.len() ==> fs[k] == acc[k]),
            None => true,
        },
    decreases s.len() - i,
{
    if 0 <= i < s.len() {
        let c = s[i];
        if c == ';' {
        } else if c == ',' {
            lemma_split_extends(s, i + 1, Seq::empty(), acc.push(cur));
        } else if is_ws(c) {
            lemma_split_extends(s, i + 1, cur, acc);
        } else {
            lemma_split_extends(s, i + 1, cur.push(c), acc);
        }
    }
}

/// `v` with its dots removed.
pub fn strip_dots_vec(v: &Vec<char>) -> (r: Vec<char>)
    ensures
        r@ == strip_dots(v@),
{
    let mut r: Vec<char> = Vec::new();
    let mut j: usize = 0;
    while j < v.len()
        invariant
            j <= v@.len(),
            r@ == strip_dots(v@.subrange(0, j as int)),
        decreases v@.len() - j,
    {
        proof {
            assert(v@.subrange(0, j + 1).drop_last() =~= v@.subrange(0, j as int));
            assert(v@.subrange(0, j + 1).last() == v@[j as int]);
        }
        let c = v[j];
        if c != '.' {
            r.push(c);
        }
        j += 1;
    }
    proof {
        assert(v@.subrange(0, v@.len() as int) =~= v@);
    }
    r
}

/// Reads a boolean field.
pub fn bool_field(v: &Vec<char>) -> (r: Option<bool>)
    ensures
        r is Some <==> field_bool_ok(v@),
        r is Some ==> r->0 == field_is_t(v@),
{
    if v.len() == 1 {
        let c = v[0];
        if c == 't' {
            proof {
                assert(v@ =~= seq!['t']);
            }
            Some(true)
        } else if c == 'f' {
            proof {
                assert(v@ =~= seq!['f']);
                assert(v@ != seq!['t']);
            }
            Some(false)
        } else {
            proof {
                assert(v@[0] != 't' && v@[0] != 'f');
            }
            None
        }
    } else {
        None
    }
}

/// Checks a monetary field: whether it is a decimal number, and whether it
/// denotes a value below zero.
pub fn check_num_field(v: &Vec<char>) -> (r: (bool, bool))
    ensures
        r.0 == valid_num_text(v@),
        r.1 == num_text_negative(v@),
{
    let n = v.len();
    if n == 0 {
        return (false, false);
    }
    let neg_sign = v[0] == '-';
    let start: usize = if neg_sign {
        1
    } else {
        0
    };
    let mut dots: usize = 0;
    let mut hasd = false;
    let mut nonzero = false;
    let mut okchars = true;
    let mut j: usize = start;
    proof {
        assert(v@.subrange(start as int, start as int) =~= Seq::<char>::empty());
        if neg_sign {
            assert(!is_digit_char(v@[0]));
        }
    }
    while j < n
        invariant
            start <= j <= n,
            n == v@.len(),
            n > 0,
            start <= 1,
            neg_sign == (v@[0] == '-'),
            start == (if neg_sign { 1int } else { 0int }),
            okchars == (forall|k: int| start <= k < j ==> is_num_char(#[trigger] v@[k])),
            dots <= j,
            okchars ==> dots == count_dots(v@.subrange(start as int, j as int)),
            hasd == (exists|k: int| start <= k < j && is_digit_char(#[trigger] v@[k])),
            nonzero == (exists|k: int|
                0 <= k < j && is_digit_char(#[trigger] v@[k]) && v@[k] != '0'),
        decreases n - j,
    {
        proof {
            assert(v@.subrange(start as int, j + 1).drop_last() =~= v@.subrange(
                start as int,
                j as int,
            ));
            assert(v@.subrange(start as int, j + 1).last() == v@[j as int]);
        }
        let c = v[j];
        if digit_of(c).is_some() {
            hasd = true;
            if c != '0' {
                nonzero = true;
            }
        } else if c == '.' {
            dots += 1;
        } else {
            okchars = false;
        }
        j += 1;
    }
    proof {
        assert(v@.subrange(start as int, n as int) =~= num_body(v@));
        assert(forall|k: int|
            0 <= k < num_body(v@).len() ==> num_body(v@)[k] == v@.subrange(
                start as int,
                n as int,
            )[k]);
    }
    let body_len = n - start;
    let valid = body_len > 0 && okchars && dots <= 1 && hasd;
    proof {
        let b = num_body(v@);
        if valid {
            assert(forall|k: int| 0 <= k < b.len() ==> is_num_char(#[trigger] b[k]));
            assert(has_digit(b)) by {
                let w = choose|k: int| start <= k < n && is_digit_char(#[trigger] v@[k]);
                assert(b[w - start] == v@[w]);
            }
            assert(valid_num_text(v@));
        } else {
            if body_len == 0 {
                assert(!valid_num_text(v@));
            } else if !okchars {
                let w = choose|k: int| start <= k < n && !is_num_char(#[trigger] v@[k]);
                assert(b[w - start] == v@[w]);
                assert(!valid_num_text(v@));
            } else if dots > 1 {
                assert(!valid_num_text(v@));
            } else {
                assert(!hasd);
                if has_digit(b) {
                    let w = choose|k: int| 0 <= k < b.len() && is_digit_char(#[trigger] b[k]);
                    assert(b[w] == v@[w + start]);
                    assert(false);
                }
                assert(!valid_num_text(v@));
            }
        }
    }
    (valid, neg_sign && nonzero)
}

/// Parses one record. The result is exactly what [`spec_parse_line`]
/// denotes, and any update returned is well-formed.
pub fn parse_line(line: &str) -> (r: Option<Update>)
    ensures
        r is Some <==> spec_parse_line(line@) is Some,
        r is Some ==> r->0@ == spec_parse_line(line@)->0,
        r is Some ==> r->0.wf(),
{
    let chars = str_chars(line);
    let n = chars.len();
    let mut cur: Vec<char> = Vec::new();
    let ghost mut acc: Seq<Seq<char>> = Seq::empty();
    let mut count: usize = 0;
    let mut ts: u64 = 0;
    let mut sq: u32 = 0;
    let mut is_trade: bool = false;
    let mut is_bid: bool = false;
    let mut price: String = String::new();
    let mut i: usize = 0;
    while i < n
        invariant
            i <= n,
            n == chars@.len(),
            chars@ == line@,
            count == acc.len(),
            count <= 5,
            split_rec(line@, i as int, cur@, acc) == split_fields(line@),
            count >= 1 ==> ts_field_ok(acc[0]) && ts == digits_val(strip_dots(acc[0])),
            count >= 2 ==> seq_field_ok(acc[1]) && sq == digits_val(acc[1]),
            count >= 3 ==> field_bool_ok(acc[2]) && is_trade == field_is_t(acc[2]),
            count >= 4 ==> field_bool_ok(acc[3]) && is_bid == field_is_t(acc[3]),
            count >= 5 ==> ok_num_field(acc[4]) && price@ == acc[4],
        decreases n - i,
    {
        let c = chars[i];
        if c == ';' {
            if i + 1 != n {
                return None;
            }
            proof {
                assert(split_fields(line@) == Some(acc.push(cur@)));
            }
            if count != 5 {
                // a record of fewer or more than six fields denotes nothing
                return None;
            }
            let ghost fs = acc.push(cur@);
            let (valid, neg) = check_num_field(&cur);
            if !valid || neg || cur.len() > 65535 {
                assert(!ok_num_field(fs[5]));
                return None;
            }
            proof {
                lemma_num_field_chars(cur@);
            }
            let size_s = num_chars_to_string(&cur);
            return Some(
                Update { ts, seq: sq, is_trade, is_bid, price, size: size_s },
            );
        } else if c == ',' {
            proof {
                assert(split_fields(line@) == split_rec(
                    line@,
                    i + 1,
                    Seq::<char>::empty(),
                    acc.push(cur@),
                ));
                lemma_split_extends(line@, i + 1, Seq::<char>::empty(), acc.push(cur@));
            }
            let ghost fsacc = acc.push(cur@);
            if count == 0 {
                let t = strip_dots_vec(&cur);
                match parse_u64_digits(&t) {
                    Some(v) => {
                        ts = v;
                    },
                    None => {
                        assert(!ts_field_ok(fsacc[0]));
                        return None;
                    },
                }
            } else if count == 1 {
                match parse_u32_digits(&cur) {
                    Some(v) => {
                        sq = v;
                    },
                    None => {
                        assert(!seq_field_ok(fsacc[1]));
                        return None;
                    },
                }
            } else if count == 2 {
                match bool_field(&cur) {
                    Some(b) => {
                        is_trade = b;
                    },
                    None => {
                        return None;
                    },
                }
            } else if count == 3 {
                match bool_field(&cur) {
                    Some(b) => {
                        is_bid = b;
                    },
                    None => {
                        return None;
                    },
                }
            } else if count == 4 {
                let (valid, neg) = check_num_field(&cur);
                if !valid || neg || cur.len() > 65535 {
                    assert(!ok_num_field(fsacc[4]));
                    return None;
                }
                proof {
                    lemma_num_field_chars(cur@);
                }
                price = num_chars_to_string(&cur);
            } else {
                // a seventh field can only yield a record of more than six
                return None;
            }
            proof {
                acc = acc.push(cur@);
            }
            cur = Vec::new();
            count += 1;
            proof {
                assert(cur@ =~= Seq::<char>::empty());
            }
        } else if is_ws_char(c) {
            proof {
                assert(split_rec(line@, i as int, cur@, acc) == split_rec(
                    line@,
                    i + 1,
                    cur@,
                    acc,
                ));
            }
        } else {
            proof {
                assert(split_rec(line@, i as int, cur@, acc) == split_rec(
                    line@,
                    i + 1,
                    cur@.push(line@[i as int]),
                    acc,
                ));
            }
            cur.push(c);
        }
        i += 1;
    }
    // the record never closed: no single trailing ';'
    None
}

/// Whitespace test for one character.
pub fn is_ws_char(c: char) -> (r: bool)
    ensures
        r == is_ws(c),
{
    c == ' ' || c == '\t' || c == '\r' || c == '\n'
}

/// A well-formed monetary field holds only number characters and perhaps a
/// leading minus sign.
pub proof fn lemma_num_field_chars(s: Seq<char>)
    requires
        valid_num_text(s),
    ensures
        forall|i: int| 0 <= i < s.len() ==> is_num_char(#[trigger] s[i]) || s[i] == '-',
{
    let b = num_body(s);
    if s.len() > 0 && s[0] == '-' {
        assert forall|i: int| 0 <= i < s.len() implies is_num_char(#[trigger] s[i]) || s[i]
            == '-' by {
            if i > 0 {
                assert(b[i - 1] == s[i]);
            }
        }
    } else {
        assert forall|i: int| 0 <= i < s.len() implies is_num_char(#[trigger] s[i]) || s[i]
            == '-' by {
            assert(b[i] == s[i]);
        }
    }
}

} // verus!
