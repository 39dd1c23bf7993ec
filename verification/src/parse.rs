use vstd::prelude::*;

verus! {

/// The decimal digit characters.
pub open spec fn is_digit(c: char) -> bool {
    '0' <= c && c <= '9'
}

/// The numeric value of a digit character.
pub open spec fn digit_val(c: char) -> int {
    c as int - '0' as int
}

/// Whether every character of `s` is a decimal digit.
pub open spec fn all_digits(s: Seq<char>) -> bool {
    forall|i: int| 0 <= i < s.len() ==> is_digit(#[trigger] s[i])
}

/// The value of a sequence of decimal digits, most significant first.
pub open spec fn digits_val(s: Seq<char>) -> int
    decreases s.len(),
{
    if s.len() == 0 {
        0
    } else {
        digits_val(s.drop_last()) * 10 + digit_val(s.last())
    }
}

/// The digits of a literal token: what follows the optional leading sign.
pub open spec fn literal_body(t: Seq<char>) -> Seq<char> {
    if t.len() > 0 && (t[0] == '+' || t[0] == '-') {
        t.skip(1)
    } else {
        t
    }
}

/// The sign a literal token denotes.
pub open spec fn literal_sign(t: Seq<char>) -> int {
    if t.len() > 0 && t[0] == '-' {
        -1
    } else {
        1
    }
}

/// The integer a literal token denotes.
pub open spec fn literal_val(t: Seq<char>) -> int {
    literal_sign(t) * digits_val(literal_body(t))
}

/// Whether `t` is a valid signed 32-bit integer literal: an optional `+` or
/// `-` sign, then one or more decimal digits, denoting a value within `i32`
/// range.
pub open spec fn is_int_literal(t: Seq<char>) -> bool {
    &&& literal_body(t).len() > 0
    &&& all_digits(literal_body(t))
    &&& i32::MIN <= literal_val(t) <= i32::MAX
}

proof fn lemma_digits_val_nonneg(s: Seq<char>)
    requires
        all_digits(s),
    ensures
        digits_val(s) >= 0,
    decreases s.len(),
{
    if s.len() > 0 {
        assert(all_digits(s.drop_last()));
        lemma_digits_val_nonneg(s.drop_last());
    }
}

proof fn lemma_digits_val_step(s: Seq<char>, k: int)
    requires
        0 <= k < s.len(),
    ensures
        digits_val(s.take(k + 1)) == digits_val(s.take(k)) * 10 + digit_val(s[k]),
{
    assert(s.take(k + 1).drop_last() =~= s.take(k));
    assert(s.take(k + 1).last() == s[k]);
}

/// Appending digits never shrinks the value: the whole digit string is worth
/// at least any of its prefixes.
proof fn lemma_digits_val_grows(s: Seq<char>, k: int)
    requires
        0 <= k <= s.len(),
        all_digits(s),
    ensures
        digits_val(s) >= digits_val(s.take(k)),
    decreases s.len() - k,
{
    if k < s.len() {
        assert(all_digits(s.take(k)));
        lemma_digits_val_nonneg(s.take(k));
        lemma_digits_val_step(s, k);
        lemma_digits_val_grows(s, k + 1);
    } else {
        assert(s.take(k) =~= s);
    }
}

/// Parses the characters `start` (inclusive) to `end` (exclusive) of `s` as a
/// signed 32-bit decimal integer literal. Returns the denoted value exactly
/// when that token is such a literal, and `None` otherwise.
pub fn parse_i32(s: &str, start: usize, end: usize) -> (r: Option<i32>)
    requires
        start <= end <= s@.len(),
    ensures
        (match r {
            Some(v) => is_int_literal(s@.subrange(start as int, end as int))
                && v as int == literal_val(s@.subrange(start as int, end as int)),
            None => !is_int_literal(s@.subrange(start as int, end as int)),
        }),
{
    let ghost tok = s@.subrange(start as int, end as int);
    if start == end {
        return None;
    }
    let first = s.get_char(start);
    let neg: bool = first == '-';
    let mut k: usize = if first == '-' || first == '+' {
        start + 1
    } else {
        start
    };
    let ghost k0 = k as int;
    let ghost body = literal_body(tok);
    proof {
        assert(tok[0] == first);
        assert(body =~= s@.subrange(k0, end as int));
    }
    if k == end {
        return None;
    }
    let mut acc: u64 = 0;
    while k < end
        invariant
            0 <= start as int <= k0 <= k as int <= end <= s@.len(),
            tok == s@.subrange(start as int, end as int),
            body == literal_body(tok),
            body == s@.subrange(k0, end as int),
            body.len() == end - k0,
            acc == digits_val(body.take(k as int - k0)),
            acc <= 0x8000_0000,
            forall|i: int| 0 <= i < k as int - k0 ==> is_digit(#[trigger] body[i]),
        decreases end - k,
    {
        let c = s.get_char(k);
        proof {
            assert(body[k as int - k0] == s@[k as int]);
        }
        if c < '0' || c > '9' {
            proof {
                assert(!is_digit(body[k as int - k0]));
            }
            return None;
        }
        let d: u64 = (c as u32 - 48) as u64;
        proof {
            assert(d == digit_val(c));
            lemma_digits_val_step(body, k as int - k0);
        }
        acc = acc * 10 + d;
        if acc > 0x8000_0000 {
            proof {
                if all_digits(body) {
                    lemma_digits_val_grows(body, k as int - k0 + 1);
                    assert(digits_val(body) > 0x8000_0000);
                    if literal_sign(tok) == 1 {
                        assert(literal_val(tok) > i32::MAX);
                    } else {
                        assert(literal_val(tok) < i32::MIN);
                    }
                }
            }
            return None;
        }
        k = k + 1;
    }
    proof {
        assert(body.take(end - k0) =~= body);
        assert(all_digits(body));
        lemma_digits_val_nonneg(body);
    }
    if neg {
        proof {
            assert(literal_sign(tok) == -1);
            assert(literal_val(tok) == -(acc as int));
        }
        Some((-(acc as i64)) as i32)
    } else {
        if acc > 0x7FFF_FFFF {
            proof {
                assert(literal_sign(tok) == 1);
                assert(literal_val(tok) > i32::MAX);
            }
            return None;
        }
        proof {
            assert(literal_sign(tok) == 1);
            assert(literal_val(tok) == acc as int);
        }
        Some(acc as i32)
    }
}

} // verus!
