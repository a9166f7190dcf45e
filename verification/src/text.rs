//! Small verified text utilities: string equality, truncation by character
//! count, substring search, and decimal rendering/parsing of integers.

use vstd::prelude::*;

verus! {

/// Character-wise string equality.
pub fn str_eq(a: &str, b: &str) -> (r: bool)
    ensures
        r == (a@ == b@),
{
    let la = a.unicode_len();
    let lb = b.unicode_len();
    if la != lb {
        return false;
    }
    let mut i: usize = 0;
    while i < la
        invariant
            la == a@.len(),
            lb == b@.len(),
            la == lb,
            0 <= i <= la,
            forall|j: int| 0 <= j < i ==> a@[j] == b@[j],
        decreases la - i,
    {
        if a.get_char(i) != b.get_char(i) {
            return false;
        }
        i = i + 1;
    }
    proof {
        assert(a@ =~= b@);
    }
    true
}

/// The first `n` characters of `s`, or all of `s` when it is shorter.
pub fn truncate_chars(s: &str, n: usize) -> (r: String)
    ensures
        s@.len() <= n ==> r@ == s@,
        s@.len() > n ==> r@ == s@.take(n as int),
{
    let len = s.unicode_len();
    if len <= n {
        s.to_owned()
    } else {
        let cut = s.substring_char(0, n);
        proof {
            assert(cut@ == s@.subrange(0, n as int));
            assert(s@.subrange(0, n as int) =~= s@.take(n as int));
        }
        cut.to_owned()
    }
}

/// `sub` occurs contiguously somewhere in `s`.
pub open spec fn has_substring(s: Seq<char>, sub: Seq<char>) -> bool {
    exists|k: int|
        0 <= k && k + sub.len() <= s.len() && #[trigger] s.subrange(k, k + sub.len() as int) == sub
}

/// Whether `sub` occurs contiguously in `s` (character-wise).
pub fn contains_str(s: &str, sub: &str) -> (r: bool)
    ensures
        r == has_substring(s@, sub@),
{
    let ls = s.unicode_len();
    let lsub = sub.unicode_len();
    if lsub > ls {
        proof {
            assert(!has_substring(s@, sub@));
        }
        return false;
    }
    let mut k: usize = 0;
    while k <= ls - lsub
        invariant
            ls == s@.len(),
            lsub == sub@.len(),
            lsub <= ls,
            0 <= k,
            k <= ls - lsub + 1,
            forall|k2: int|
                0 <= k2 < k ==> #[trigger] s@.subrange(k2, k2 + sub@.len() as int) != sub@,
        decreases ls - k,
    {
        let mut j: usize = 0;
        let mut hit = true;
        while j < lsub
            invariant
                ls == s@.len(),
                lsub == sub@.len(),
                0 <= k,
                k + lsub <= ls,
                0 <= j <= lsub,
                hit <==> (forall|j2: int| 0 <= j2 < j ==> s@[k + j2] == sub@[j2]),
            decreases lsub - j,
        {
            if s.get_char(k + j) != sub.get_char(j) {
                hit = false;
                proof {
                    assert(s@[k + j as int] != sub@[j as int]);
                }
                j = lsub;
            } else {
                j = j + 1;
            }
        }
        if hit {
            proof {
                assert(s@.subrange(k as int, k + sub@.len() as int) =~= sub@);
            }
            return true;
        }
        proof {
            if s@.subrange(k as int, k + sub@.len() as int) == sub@ {
                assert(forall|j2: int|
                    0 <= j2 < lsub ==> s@[k + j2] == #[trigger] s@.subrange(
                        k as int,
                        k + sub@.len() as int,
                    )[j2]);
                assert(false);
            }
        }
        k = k + 1;
    }
    proof {
        assert forall|k2: int| 0 <= k2 && k2 + sub@.len() <= s@.len() implies #[trigger] s@.subrange(
            k2,
            k2 + sub@.len() as int,
        ) != sub@ by {
            assert(k2 < k);
        }
    }
    false
}

/// The character of a decimal digit value.
pub open spec fn digit_char(d: int) -> char
    recommends
        0 <= d <= 9,
{
    ((d + 48) as char)
}

/// The decimal rendering of a non-negative integer.
pub open spec fn dec_of_nat(n: int) -> Seq<char>
    recommends
        n >= 0,
    decreases n,
{
    if n < 10 {
        seq![digit_char(n)]
    } else {
        dec_of_nat(n / 10).push(digit_char(n % 10))
    }
}

/// The decimal rendering of an integer, with a leading minus when negative.
pub open spec fn dec_of_int(v: int) -> Seq<char> {
    if v < 0 {
        seq!['-'] + dec_of_nat(-v)
    } else {
        dec_of_nat(v)
    }
}

/// One decimal digit as a string slice.
fn digit_str(d: u64) -> (r: &'static str)
    requires
        d <= 9,
    ensures
        r@ =~= seq![digit_char(d as int)],
{
    proof {
        reveal_strlit("0");
        reveal_strlit("1");
        reveal_strlit("2");
        reveal_strlit("3");
        reveal_strlit("4");
        reveal_strlit("5");
        reveal_strlit("6");
        reveal_strlit("7");
        reveal_strlit("8");
        reveal_strlit("9");
    }
    match d {
        0 => "0",
        1 => "1",
        2 => "2",
        3 => "3",
        4 => "4",
        5 => "5",
        6 => "6",
        7 => "7",
        8 => "8",
        _ => "9",
    }
}

/// Renders a non-negative integer in decimal.
pub fn u64_to_string(v: u64) -> (r: String)
    ensures
        r@ == dec_of_nat(v as int),
    decreases v,
{
    if v < 10 {
        digit_str(v).to_owned()
    } else {
        let mut s = u64_to_string(v / 10);
        s.append(digit_str(v % 10));
        proof {
            assert(s@ =~= dec_of_nat(v as int));
        }
        s
    }
}

/// Renders an integer in decimal, with a leading minus when negative.
pub fn i64_to_string(v: i64) -> (r: String)
    ensures
        r@ == dec_of_int(v as int),
{
    if v >= 0 {
        u64_to_string(v as u64)
    } else {
        let mag: u64 = if v == i64::MIN {
            9223372036854775808u64
        } else {
            (-v) as u64
        };
        let mut s = "-".to_owned();
        proof {
            reveal_strlit("-");
            assert("-"@ =~= seq!['-']);
        }
        let rest = u64_to_string(mag);
        s.append(rest.as_str());
        proof {
            assert(s@ =~= dec_of_int(v as int));
        }
        s
    }
}

/// `c` is a decimal digit.
pub open spec fn is_digit(c: char) -> bool {
    '0' <= c && c <= '9'
}

/// Every character of `s` is a decimal digit.
pub open spec fn all_digits(s: Seq<char>) -> bool {
    forall|i: int| 0 <= i < s.len() ==> is_digit(#[trigger] s[i])
}

/// The value of a non-empty digit string.
pub open spec fn digits_val(s: Seq<char>) -> int
    recommends
        all_digits(s),
    decreases s.len(),
{
    if s.len() == 0 {
        0
    } else {
        digits_val(s.drop_last()) * 10 + (s.last() as int - 48)
    }
}

/// What a decimal integer text denotes: a non-empty digit string, optionally
/// preceded by a plus or minus sign; `None` otherwise.
pub open spec fn parse_int_spec(s: Seq<char>) -> Option<int> {
    if s.len() > 0 && (s[0] == '-' || s[0] == '+') {
        let rest = s.drop_first();
        if rest.len() > 0 && all_digits(rest) {
            if s[0] == '-' {
                Some(-digits_val(rest))
            } else {
                Some(digits_val(rest))
            }
        } else {
            None
        }
    } else {
        if s.len() > 0 && all_digits(s) {
            Some(digits_val(s))
        } else {
            None
        }
    }
}

/// What parsing an `i64` from a text yields: the denoted integer when there
/// is one and it fits.
pub open spec fn parse_i64_spec(s: Seq<char>) -> Option<int> {
    match parse_int_spec(s) {
        Some(v) => if i64::MIN <= v <= i64::MAX {
            Some(v)
        } else {
            None
        },
        None => None,
    }
}

/// The value of a digit string never shrinks as it grows to the right.
proof fn lemma_digits_val_monotone(s: Seq<char>, i: int)
    requires
        all_digits(s),
        0 <= i <= s.len(),
    ensures
        digits_val(s) >= digits_val(s.take(i)),
        digits_val(s) >= 0,
    decreases s.len() - i,
{
    lemma_digits_val_nonneg(s.take(i));
    if i == s.len() {
        assert(s.take(i) =~= s);
    } else {
        lemma_digits_val_monotone(s, i + 1);
        assert(s.take(i + 1).drop_last() =~= s.take(i));
        assert(all_digits(s.take(i + 1)));
        assert(digits_val(s.take(i + 1)) == digits_val(s.take(i)) * 10 + (s[i] as int - 48));
        lemma_digits_val_nonneg(s.take(i));
    }
}

/// A digit string's value is non-negative.
proof fn lemma_digits_val_nonneg(s: Seq<char>)
    requires
        all_digits(s),
    ensures
        digits_val(s) >= 0,
    decreases s.len(),
{
    if s.len() > 0 {
        assert(all_digits(s.drop_last()));
        lemma_digits_val_nonneg(s.drop_last());
    }
}

/// Parses the digit part of a decimal text; `start` marks where the digits
/// begin. Returns the magnitude when all remaining characters are digits and
/// the magnitude stays within `i64` range (sign handled by the caller).
fn parse_digits(s: &str, start: usize) -> (r: Option<u64>)
    requires
        start <= s@.len(),
    ensures
        match r {
            Some(v) => {
                &&& s@.len() > start
                &&& all_digits(s@.skip(start as int))
                &&& digits_val(s@.skip(start as int)) == v as int
                &&& v <= 9223372036854775808u64
            },
            None => s@.len() == start || !all_digits(s@.skip(start as int)) || digits_val(
                s@.skip(start as int),
            ) > 9223372036854775808,
        },
{
    let len = s.unicode_len();
    if len == start {
        return None;
    }
    let ghost digits = s@.skip(start as int);
    let mut acc: u64 = 0;
    let mut i: usize = start;
    while i < len
        invariant
            start <= i <= len,
            len == s@.len(),
            len > start,
            digits == s@.skip(start as int),
            all_digits(digits.take(i - start)),
            acc as int == digits_val(digits.take(i - start)),
            acc <= 9223372036854775808u64,
        decreases len - i,
    {
        let c = s.get_char(i);
        if c < '0' || c > '9' {
            proof {
                assert(digits[i - start] == s@[i as int]);
                assert(!is_digit(digits[i - start]));
            }
            return None;
        }
        let d: u64 = (c as u32 as u64) - 48;
        if acc > 922337203685477580u64 || (acc == 922337203685477580u64 && d > 8) {
            proof {
                let pre = digits.take(i - start + 1);
                assert(pre.drop_last() =~= digits.take(i - start));
                assert(digits[i - start] == s@[i as int]);
                assert(is_digit(digits[i - start]));
                assert(all_digits(pre));
                assert(digits_val(pre) == acc * 10 + (s@[i as int] as int - 48));
                assert(digits_val(pre) > 9223372036854775808);
                if all_digits(digits) {
                    lemma_digits_val_monotone(digits, i - start + 1);
                }
            }
            return None;
        }
        proof {
            let pre = digits.take(i - start + 1);
            assert(pre.drop_last() =~= digits.take(i - start));
            assert(digits[i - start] == s@[i as int]);
            assert(is_digit(digits[i - start]));
            assert(all_digits(pre));
            assert(digits_val(pre) == acc * 10 + (s@[i as int] as int - 48));
        }
        acc = acc * 10 + d;
        i = i + 1;
    }
    proof {
        assert(digits.take(i - start) =~= digits);
    }
    Some(acc)
}

/// Parses a decimal `i64`: an optional plus or minus sign followed by digits.
pub fn parse_i64(s: &str) -> (r: Option<i64>)
    ensures
        match r {
            Some(v) => parse_i64_spec(s@) == Some(v as int),
            None => parse_i64_spec(s@) is None,
        },
{
    let len = s.unicode_len();
    if len == 0 {
        return None;
    }
    let first = s.get_char(0);
    let negative = first == '-';
    let start: usize = if negative || first == '+' {
        1
    } else {
        0
    };
    proof {
        if start == 1 {
            assert(s@.skip(1) =~= s@.drop_first());
        } else {
            assert(s@.skip(0) =~= s@);
        }
    }
    match parse_digits(s, start) {
        Some(mag) => {
            if negative {
                if mag == 9223372036854775808u64 {
                    Some(i64::MIN)
                } else {
                    Some(-(mag as i64))
                }
            } else {
                if mag <= 9223372036854775807u64 {
                    Some(mag as i64)
                } else {
                    None
                }
            }
        },
        None => None,
    }
}

/// The decimal rendering of a non-negative integer is a non-empty digit
/// string denoting exactly that integer.
pub proof fn lemma_dec_of_nat_digits(n: int)
    requires
        n >= 0,
    ensures
        dec_of_nat(n).len() > 0,
        all_digits(dec_of_nat(n)),
        digits_val(dec_of_nat(n)) == n,
    decreases n,
{
    if n < 10 {
        let s = dec_of_nat(n);
        assert(s =~= seq![digit_char(n)]);
        assert(s.drop_last() =~= Seq::<char>::empty());
        assert(digit_char(n) as int == n + 48);
        assert(is_digit(digit_char(n)));
        assert(digits_val(s) == digits_val(s.drop_last()) * 10 + (s.last() as int - 48));
    } else {
        lemma_dec_of_nat_digits(n / 10);
        let pre = dec_of_nat(n / 10);
        let s = pre.push(digit_char(n % 10));
        assert(s.drop_last() =~= pre);
        assert(s.last() == digit_char(n % 10));
        assert(is_digit(digit_char(n % 10)));
        assert forall|i: int| 0 <= i < s.len() implies is_digit(#[trigger] s[i]) by {
            if i < pre.len() {
                assert(s[i] == pre[i]);
            }
        }
        assert(digits_val(s) == digits_val(pre) * 10 + (digit_char(n % 10) as int - 48));
    }
}

/// Parsing inverts decimal rendering, for every `i64` value.
pub proof fn lemma_parse_dec_of_int(v: int)
    requires
        i64::MIN <= v <= i64::MAX,
    ensures
        parse_i64_spec(dec_of_int(v)) == Some(v),
{
    if v >= 0 {
        lemma_dec_of_nat_digits(v);
        let s = dec_of_nat(v);
        assert(is_digit(s[0]));
        assert(s[0] != '-' && s[0] != '+');
    } else {
        lemma_dec_of_nat_digits(-v);
        let s = seq!['-'] + dec_of_nat(-v);
        assert(s[0] == '-');
        assert(s.drop_first() =~= dec_of_nat(-v));
    }
}

} // verus!
