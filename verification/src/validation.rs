//! Input-format checks on emails, providers and tokens.

use vstd::prelude::*;
use vstd::utf8::encode_utf8;

use crate::text::str_eq;

verus! {

/// An ASCII letter.
pub open spec fn is_alpha(c: char) -> bool {
    ('a' <= c && c <= 'z') || ('A' <= c && c <= 'Z')
}

/// An ASCII letter or digit.
pub open spec fn is_alnum(c: char) -> bool {
    is_alpha(c) || ('0' <= c && c <= '9')
}

/// A character allowed before the `@` of an email address.
pub open spec fn is_local_char(c: char) -> bool {
    is_alnum(c) || c == '.' || c == '_' || c == '%' || c == '+' || c == '-'
}

/// A character allowed in the domain of an email address.
pub open spec fn is_domain_char(c: char) -> bool {
    is_alnum(c) || c == '.' || c == '-'
}

/// `at` and `dot` split `s` into a non-empty local part, an `@`, a non-empty
/// domain, a final dot, and a top-level domain of at least two letters.
pub open spec fn email_witness(s: Seq<char>, at: int, dot: int) -> bool {
    &&& 1 <= at
    &&& at + 2 <= dot
    &&& dot + 3 <= s.len()
    &&& s[at] == '@'
    &&& s[dot] == '.'
    &&& (forall|i: int| 0 <= i < at ==> is_local_char(#[trigger] s[i]))
    &&& (forall|i: int| at < i < dot ==> is_domain_char(#[trigger] s[i]))
    &&& (forall|i: int| dot < i < s.len() ==> is_alpha(#[trigger] s[i]))
}

/// `s` has the shape of an email address: `local@domain.tld`.
pub open spec fn is_valid_email(s: Seq<char>) -> bool {
    exists|at: int, dot: int| #[trigger] email_witness(s, at, dot)
}

fn is_local_char_exec(c: char) -> (r: bool)
    ensures
        r == is_local_char(c),
{
    ('a' <= c && c <= 'z') || ('A' <= c && c <= 'Z') || ('0' <= c && c <= '9') || c == '.' || c
        == '_' || c == '%' || c == '+' || c == '-'
}

fn is_domain_char_exec(c: char) -> (r: bool)
    ensures
        r == is_domain_char(c),
{
    ('a' <= c && c <= 'z') || ('A' <= c && c <= 'Z') || ('0' <= c && c <= '9') || c == '.' || c
        == '-'
}

fn is_alpha_exec(c: char) -> (r: bool)
    ensures
        r == is_alpha(c),
{
    ('a' <= c && c <= 'z') || ('A' <= c && c <= 'Z')
}

/// Checks an email address: non-empty, the `local@domain.tld` shape, and at
/// most 254 bytes.
pub fn validate_email(email: &str) -> (r: Result<(), String>)
    ensures
        r is Ok <==> is_valid_email(email@) && encode_utf8(email@).len() <= 254,
        r matches Err(m) ==> m@ == (if email@.len() == 0 {
            "邮箱不能为空"@
        } else if !is_valid_email(email@) {
            "邮箱格式无效"@
        } else {
            "邮箱长度超过限制"@
        }),
{
    let len = email.unicode_len();
    if len == 0 {
        proof {
            if is_valid_email(email@) {
                let (at2, dot2) = choose|at2: int, dot2: int| email_witness(email@, at2, dot2);
            }
        }
        return Err("邮箱不能为空".to_owned());
    }
    // first '@'
    let mut at: usize = 0;
    let mut found_at = false;
    while at < len && !found_at
        invariant
            0 <= at <= len,
            len == email@.len(),
            found_at ==> at < len && email@[at as int] == '@',
            forall|j: int| 0 <= j < at ==> email@[j] != '@',
        decreases len - at, (if found_at { 0int } else { 1int }),
    {
        if email.get_char(at) == '@' {
            found_at = true;
        } else {
            at = at + 1;
        }
    }
    if !found_at {
        proof {
            if is_valid_email(email@) {
                let (at2, dot2) = choose|at2: int, dot2: int| email_witness(email@, at2, dot2);
                assert(email@[at2] == '@');
            }
        }
        return Err("邮箱格式无效".to_owned());
    }
    // last '.' after the '@'
    let mut dot: usize = len;
    let mut found_dot = false;
    let mut back: usize = len;
    while back > at + 1 && !found_dot
        invariant
            at < len,
            len == email@.len(),
            at + 1 <= back || found_dot,
            back <= len,
            found_dot ==> at < back && back < len && email@[back as int] == '.' && dot == back,
            forall|j: int| back < j < len ==> email@[j] != '.',
            !found_dot ==> (dot == len && forall|j: int| back <= j < len ==> email@[j] != '.'),
        decreases back,
    {
        back = back - 1;
        if email.get_char(back) == '.' {
            found_dot = true;
            dot = back;
        }
    }
    proof {
        assert(is_valid_email(email@) ==> email_witness(email@, at as int, dot as int)) by {
            if is_valid_email(email@) {
                let (at2, dot2) = choose|at2: int, dot2: int| email_witness(email@, at2, dot2);
                if at2 < at {
                    assert(email@[at2] == '@');
                }
                if at2 > at {
                    assert(is_local_char(email@[at as int]));
                }
                assert(at2 == at);
                if !found_dot {
                    assert(email@[dot2] == '.');
                    assert(false);
                } else {
                    if dot2 > dot {
                        assert(email@[dot2] == '.');
                    }
                    if dot2 < dot {
                        assert(is_alpha(email@[dot as int]));
                    }
                    assert(dot2 == dot);
                }
            }
        }
    }
    if !found_dot {
        return Err("邮箱格式无效".to_owned());
    }
    // structural bounds
    if at < 1 || dot - at < 2 || len - dot < 3 {
        return Err("邮箱格式无效".to_owned());
    }
    // character classes
    let mut i: usize = 0;
    while i < at
        invariant
            at < len,
            len == email@.len(),
            0 <= i <= at,
            forall|j: int| 0 <= j < i ==> is_local_char(#[trigger] email@[j]),
            is_valid_email(email@) ==> email_witness(email@, at as int, dot as int),
        decreases at - i,
    {
        if !is_local_char_exec(email.get_char(i)) {
            return Err("邮箱格式无效".to_owned());
        }
        i = i + 1;
    }
    let mut i2: usize = at + 1;
    while i2 < dot
        invariant
            at < dot < len,
            len == email@.len(),
            at + 1 <= i2 <= dot,
            forall|j: int| at < j < i2 ==> is_domain_char(#[trigger] email@[j]),
            is_valid_email(email@) ==> email_witness(email@, at as int, dot as int),
        decreases dot - i2,
    {
        if !is_domain_char_exec(email.get_char(i2)) {
            return Err("邮箱格式无效".to_owned());
        }
        i2 = i2 + 1;
    }
    let mut i3: usize = dot + 1;
    while i3 < len
        invariant
            dot < len,
            len == email@.len(),
            dot + 1 <= i3 <= len,
            forall|j: int| dot < j < i3 ==> is_alpha(#[trigger] email@[j]),
            is_valid_email(email@) ==> email_witness(email@, at as int, dot as int),
        decreases len - i3,
    {
        if !is_alpha_exec(email.get_char(i3)) {
            return Err("邮箱格式无效".to_owned());
        }
        i3 = i3 + 1;
    }
    proof {
        assert(email_witness(email@, at as int, dot as int));
    }
    // byte-length bound
    if email.as_bytes().len() > 254 {
        return Err("邮箱长度超过限制".to_owned());
    }
    Ok(())
}

/// Checks that the provider is one of the supported ones.
pub fn validate_provider(provider: &str) -> (r: Result<(), String>)
    ensures
        r is Ok <==> (provider@ == "Google"@ || provider@ == "Github"@ || provider@
            == "BuilderId"@ || provider@ == "Enterprise"@),
        r matches Err(m) ==> m@ == "不支持的 provider: "@ + provider@,
{
    if str_eq(provider, "Google") || str_eq(provider, "Github") || str_eq(provider, "BuilderId")
        || str_eq(provider, "Enterprise") {
        Ok(())
    } else {
        let mut m = "不支持的 provider: ".to_owned();
        m.append(provider);
        Err(m)
    }
}

/// Basic shape check on a token: non-empty and between 20 and 10000 bytes.
/// The error names the kind of token it was given.
pub fn validate_token(token: &str, token_type: &str) -> (r: Result<(), String>)
    ensures
        r is Ok <==> (encode_utf8(token@).len() >= 20 && encode_utf8(token@).len() <= 10000),
        r matches Err(m) ==> m@ == token_type@ + (if token@.len() == 0 {
            " 不能为空"@
        } else if encode_utf8(token@).len() < 20 {
            " 长度过短"@
        } else {
            " 长度过长"@
        }),
{
    if token.is_empty() {
        proof {
            assert(encode_utf8(token@) =~= Seq::<u8>::empty());
        }
        let mut m = token_type.to_owned();
        m.append(" 不能为空");
        return Err(m);
    }
    if token.as_bytes().len() < 20 {
        let mut m = token_type.to_owned();
        m.append(" 长度过短");
        return Err(m);
    }
    if token.as_bytes().len() > 10000 {
        let mut m = token_type.to_owned();
        m.append(" 长度过长");
        return Err(m);
    }
    Ok(())
}

} // verus!
