use vstd::prelude::*;

use crate::lexer::{is_alpha, run_end, CharClass, in_class};

verus! {

/// `k` is where the run of characters of class `cl` that starts at `i` ends.
proof fn lemma_run_end_at(s: Seq<char>, i: nat, k: nat, cl: CharClass)
    requires
        i <= k <= s.len(),
        forall|j: int| i <= j < k ==> in_class(cl, #[trigger] s[j]),
        k < s.len() ==> !in_class(cl, s[k as int]),
    ensures
        run_end(s, i, cl) == k,
    decreases k - i,
{
    if i < k {
        lemma_run_end_at(s, i + 1, k, cl);
    }
}

fn is_digit_char(c: char) -> (b: bool)
    ensures
        b == in_class(CharClass::Digit, c),
{
    '0' <= c && c <= '9'
}

fn is_space_char(c: char) -> (b: bool)
    ensures
        b == in_class(CharClass::Space, c),
{
    c == ' ' || c == '\n'
}

fn is_alphanumeric_char(c: char) -> (b: bool)
    ensures
        b == in_class(CharClass::Alphanumeric, c),
{
    ('a' <= c && c <= 'z') || ('A' <= c && c <= 'Z') || ('0' <= c && c <= '9')
}

/// Splits `s` after its longest prefix of characters that `accept` takes.
pub fn take_while<'a, F: Fn(char) -> bool>(accept: F, s: &'a str) -> (r: (&'a str, &'a str))
    requires
        forall|c: char| accept.requires((c,)),
    ensures
        r.0@ + r.1@ == s@,
        forall|i: int| 0 <= i < r.0@.len() ==> accept.ensures((#[trigger] s@[i],), true),
        r.0@.len() < s@.len() ==> accept.ensures((s@[r.0@.len() as int],), false),
{
    let n = s.unicode_len();
    let mut k: usize = 0;
    let mut stopped = false;
    while !stopped && k < n
        invariant
            n == s@.len(),
            k <= n,
            forall|c: char| accept.requires((c,)),
            forall|i: int| 0 <= i < k ==> accept.ensures((#[trigger] s@[i],), true),
            stopped ==> k < n && accept.ensures((s@[k as int],), false),
        decreases n - k, if stopped { 0int } else { 1int },
    {
        let c = s.get_char(k);
        if accept(c) {
            k = k + 1;
        } else {
            stopped = true;
        }
    }
    let extracted = s.substring_char(0, k);
    let remainder = s.substring_char(k, n);
    assert(extracted@ + remainder@ =~= s@);
    (extracted, remainder)
}

/// As `take_while`, but fails with `error_msg` when the prefix is empty.
pub fn take_while_required<'a, F: Fn(char) -> bool>(accept: F, s: &'a str, error_msg: String) -> (r:
    Result<(&'a str, &'a str), String>)
    requires
        forall|c: char| accept.requires((c,)),
    ensures
        match r {
            Ok((a, b)) => {
                &&& a@.len() > 0
                &&& a@ + b@ == s@
                &&& forall|i: int| 0 <= i < a@.len() ==> accept.ensures((#[trigger] s@[i],), true)
                &&& a@.len() < s@.len() ==> accept.ensures((s@[a@.len() as int],), false)
            },
            Err(e) => e == error_msg && (s@.len() > 0 ==> accept.ensures((s@[0],), false)),
        },
{
    let (extracted, remainder) = take_while(accept, s);
    if extracted.unicode_len() == 0 {
        Err(error_msg)
    } else {
        Ok((extracted, remainder))
    }
}

/// Every character of a run is of the run's class.
pub proof fn lemma_run_members(s: Seq<char>, i: nat, cl: CharClass)
    requires
        i <= s.len(),
    ensures
        forall|j: int| i <= j < run_end(s, i, cl) ==> in_class(cl, #[trigger] s[j]),
        run_end(s, i, cl) <= s.len(),
    decreases s.len() - i,
{
    if i < s.len() && in_class(cl, s[i as int]) {
        lemma_run_members(s, i + 1, cl);
    }
}

/// Splits `s` after the run of class `cl` at its start.
pub open spec fn split_run(s: Seq<char>, cl: CharClass) -> (Seq<char>, Seq<char>) {
    (s.take(run_end(s, 0, cl) as int), s.skip(run_end(s, 0, cl) as int))
}

proof fn lemma_split_run(s: Seq<char>, a: Seq<char>, b: Seq<char>, cl: CharClass)
    requires
        a + b == s,
        forall|i: int| 0 <= i < a.len() ==> in_class(cl, #[trigger] s[i]),
        a.len() < s.len() ==> !in_class(cl, s[a.len() as int]),
    ensures
        split_run(s, cl) == (a, b),
{
    lemma_run_end_at(s, 0, a.len(), cl);
    assert(s.take(a.len() as int) =~= a);
    assert(s.skip(a.len() as int) =~= b);
}

/// The leading ASCII digits of `s`, and the rest.
pub fn extract_digits(s: &str) -> (r: Result<(&str, &str), String>)
    ensures
        match r {
            Ok((a, b)) => (a@, b@) == split_run(s@, CharClass::Digit) && a@.len() > 0,
            Err(e) => run_end(s@, 0, CharClass::Digit) == 0 && e@ == "expected digits"@,
        },
{
    let r = take_while_required(
        is_digit_char,
        s,
        String::from_str("expected digits"),
    );
    proof {
        match r {
            Ok((a, b)) => lemma_split_run(s@, a@, b@, CharClass::Digit),
            Err(_) => {},
        }
    }
    r
}

/// The leading spaces and newlines of `s`, and the rest.
pub fn extract_whitespace(s: &str) -> (r: (&str, &str))
    ensures
        (r.0@, r.1@) == split_run(s@, CharClass::Space),
{
    let r = take_while(
        is_space_char,
        s,
    );
    proof {
        lemma_split_run(s@, r.0@, r.1@, CharClass::Space);
    }
    r
}

/// As `extract_whitespace`, but fails when `s` does not start with whitespace.
pub fn extract_whitespace_required(s: &str) -> (r: Result<(&str, &str), String>)
    ensures
        match r {
            Ok((a, b)) => (a@, b@) == split_run(s@, CharClass::Space) && a@.len() > 0,
            Err(e) => run_end(s@, 0, CharClass::Space) == 0 && e@ == "expected whitespace"@,
        },
{
    let r = take_while_required(
        is_space_char,
        s,
        String::from_str("expected whitespace"),
    );
    proof {
        match r {
            Ok((a, b)) => lemma_split_run(s@, a@, b@, CharClass::Space),
            Err(_) => {},
        }
    }
    r
}

/// A leading identifier of `s` (a letter, then letters and digits), and the rest.
pub fn extract_ident(s: &str) -> (r: Result<(&str, &str), String>)
    ensures
        match r {
            Ok((a, b)) => s@.len() > 0 && is_alpha(s@[0]) && (a@, b@) == split_run(
                s@,
                CharClass::Alphanumeric,
            ),
            Err(e) => !(s@.len() > 0 && is_alpha(s@[0])) && e@ == "expected identifier"@,
        },
{
    let starts_with_alphabetic = if s.unicode_len() > 0 {
        let c = s.get_char(0);
        ('a' <= c && c <= 'z') || ('A' <= c && c <= 'Z')
    } else {
        false
    };
    if starts_with_alphabetic {
        let r = take_while(
            is_alphanumeric_char,
            s,
        );
        proof {
            lemma_split_run(s@, r.0@, r.1@, CharClass::Alphanumeric);
        }
        Ok(r)
    } else {
        Err(String::from_str("expected identifier"))
    }
}

pub open spec fn is_operator(c: char) -> bool {
    c == '+' || c == '-' || c == '*' || c == '/'
}

/// The leading operator character of `s`, and the rest.
pub fn extract_op(s: &str) -> (r: (&str, &str))
    requires
        s@.len() > 0,
        is_operator(s@[0]),
    ensures
        r.0@ == s@.take(1),
        r.1@ == s@.skip(1),
{
    let n = s.unicode_len();
    (s.substring_char(0, 1), s.substring_char(1, n))
}

pub open spec fn has_prefix(s: Seq<char>, p: Seq<char>) -> bool {
    p.len() <= s.len() && s.take(p.len() as int) == p
}

/// `s` without the prefix `starting_text`, or an error when `s` does not start with it.
pub fn tag<'a, 'b>(starting_text: &'a str, s: &'b str) -> (r: Result<&'b str, String>)
    ensures
        match r {
            Ok(rest) => s@ == starting_text@ + rest@,
            Err(e) => !has_prefix(s@, starting_text@) && e@ == "expected "@ + starting_text@,
        },
{
    let m = starting_text.unicode_len();
    let n = s.unicode_len();
    let mut matches = m <= n;
    let mut i: usize = 0;
    while matches && i < m
        invariant
            m == starting_text@.len(),
            n == s@.len(),
            i <= m,
            matches ==> m <= n && s@.take(i as int) == starting_text@.take(i as int),
            !matches ==> !has_prefix(s@, starting_text@),
        decreases m - i,
    {
        if s.get_char(i) != starting_text.get_char(i) {
            matches = false;
            assert(s@.take(m as int)[i as int] != starting_text@[i as int]);
        } else {
            assert(s@.take(i + 1) =~= s@.take(i as int).push(s@[i as int]));
            assert(starting_text@.take(i + 1) =~= starting_text@.take(i as int).push(
                starting_text@[i as int],
            ));
        }
        i = i + 1;
    }
    if matches {
        assert(starting_text@.take(m as int) =~= starting_text@);
        let rest = s.substring_char(m, n);
        assert(s@ =~= starting_text@ + rest@);
        Ok(rest)
    } else {
        Err(String::from_str("expected ").concat(starting_text))
    }
}

} // verus!
