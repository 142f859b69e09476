use vstd::prelude::*;

use crate::syntax::TokenKind;
use crate::text::{byte_len, char_width, lemma_byte_len_push, lemma_byte_len_take, TextRange};

verus! {

pub open spec fn is_alpha(c: char) -> bool {
    ('a' <= c && c <= 'z') || ('A' <= c && c <= 'Z')
}

pub open spec fn is_digit(c: char) -> bool {
    '0' <= c && c <= '9'
}

/// The classes of characters that a token may continue with.
#[derive(Debug, Clone, Copy, PartialEq, Eq, Structural)]
pub enum CharClass {
    Alphanumeric,
    Digit,
    Space,
    NotNewline,
}

pub open spec fn in_class(cl: CharClass, c: char) -> bool {
    match cl {
        CharClass::Alphanumeric => is_alpha(c) || is_digit(c),
        CharClass::Digit => is_digit(c),
        CharClass::Space => c == ' ' || c == '\n',
        CharClass::NotNewline => c != '\n',
    }
}

/// The end of the longest run of characters of class `cl` that starts at `i`.
pub open spec fn run_end(s: Seq<char>, i: nat, cl: CharClass) -> nat
    decreases s.len() - i,
{
    if i < s.len() && in_class(cl, s[i as int]) {
        run_end(s, i + 1, cl)
    } else {
        i
    }
}

/// The position of the last `"` in `s[lo..hi]`, or -1 when there is none.
pub open spec fn last_quote(s: Seq<char>, lo: int, hi: int) -> int
    decreases hi - lo,
{
    if hi <= lo {
        -1
    } else if s[hi - 1] == '"' {
        hi - 1
    } else {
        last_quote(s, lo, hi - 1)
    }
}

/// Where a string literal opened by the `"` at `i` ends: just past the last `"` on
/// the same line, or -1 when the line holds no other `"`.
pub open spec fn string_end(s: Seq<char>, i: nat) -> int {
    let q = last_quote(s, (i + 1) as int, run_end(s, i + 1, CharClass::NotNewline) as int);
    if q < 0 {
        -1
    } else {
        q + 1
    }
}

/// The kind of a one-character punctuation token.
pub open spec fn punct_kind(c: char) -> Option<TokenKind> {
    if c == '+' {
        Some(TokenKind::Plus)
    } else if c == '-' {
        Some(TokenKind::Minus)
    } else if c == '*' {
        Some(TokenKind::Asterisk)
    } else if c == '/' {
        Some(TokenKind::Slash)
    } else if c == '=' {
        Some(TokenKind::Equals)
    } else if c == '(' {
        Some(TokenKind::LParen)
    } else if c == ')' {
        Some(TokenKind::RParen)
    } else if c == '{' {
        Some(TokenKind::LBrace)
    } else if c == '}' {
        Some(TokenKind::RBrace)
    } else if c == ';' {
        Some(TokenKind::SemiColon)
    } else {
        None
    }
}

/// Whether a rule other than the error rule matches at `i`.
pub open spec fn starts_token(s: Seq<char>, i: nat) -> bool {
    i < s.len() && {
        let c = s[i as int];
        is_alpha(c) || is_digit(c) || c == ' ' || c == '\n' || c == '#' || punct_kind(c) is Some
            || (c == '"' && string_end(s, i) >= 0)
    }
}

/// The end of the maximal run, from `i` on, of positions at which no rule matches.
pub open spec fn error_end(s: Seq<char>, i: nat) -> nat
    decreases s.len() - i,
{
    if i < s.len() && !starts_token(s, i) {
        error_end(s, i + 1)
    } else {
        i
    }
}

/// Keywords take priority over identifiers of the same text.
pub open spec fn word_kind(w: Seq<char>) -> TokenKind {
    if w.len() == 3 && w[0] == 's' && w[1] == 'e' && w[2] == 't' {
        TokenKind::SetKw
    } else if w.len() == 4 && w[0] == 'f' && w[1] == 'u' && w[2] == 'n' && w[3] == 'c' {
        TokenKind::FuncKw
    } else {
        TokenKind::Identifier
    }
}

/// The kind and the end of the longest token that starts at `i`.
pub open spec fn token_at(s: Seq<char>, i: nat) -> (TokenKind, nat) {
    let c = s[i as int];
    if is_alpha(c) {
        let e = run_end(s, i + 1, CharClass::Alphanumeric);
        (word_kind(s.subrange(i as int, e as int)), e)
    } else if is_digit(c) {
        (TokenKind::Number, run_end(s, i + 1, CharClass::Digit))
    } else if c == ' ' || c == '\n' {
        (TokenKind::Whitespace, run_end(s, i + 1, CharClass::Space))
    } else if c == '#' {
        (TokenKind::Comment, run_end(s, i + 1, CharClass::NotNewline))
    } else if punct_kind(c) is Some {
        (punct_kind(c)->0, i + 1)
    } else if c == '"' && string_end(s, i) >= 0 {
        (TokenKind::String, string_end(s, i) as nat)
    } else {
        (TokenKind::Error, error_end(s, i + 1))
    }
}

/// The tokens of `s[i..]`, each as its kind, start and end, in character positions.
pub open spec fn lex_from(s: Seq<char>, i: nat) -> Seq<(TokenKind, nat, nat)>
    decreases s.len() - i,
{
    if i < s.len() {
        let (k, e) = token_at(s, i);
        if i < e <= s.len() {
            seq![(k, i, e)] + lex_from(s, e)
        } else {
            seq![(k, i, e)]
        }
    } else {
        seq![]
    }
}

/// The tokens of the whole of `s`.
pub open spec fn lex(s: Seq<char>) -> Seq<(TokenKind, nat, nat)> {
    lex_from(s, 0)
}

/// A token: its kind, its exact text, and the bytes of the input that it covers.
#[derive(Debug, Clone, PartialEq, Eq)]
pub struct Token {
    pub kind: TokenKind,
    pub text: String,
    pub range: TextRange,
}

/// The texts of `ts`, concatenated in order.
#[verifier::opaque]
pub open spec fn texts(ts: Seq<Token>) -> Seq<char>
    decreases ts.len(),
{
    if ts.len() == 0 {
        seq![]
    } else {
        texts(ts.drop_last()) + ts.last().text@
    }
}

/// Each token covers exactly the bytes of its own text, right after those of the tokens before it.
pub open spec fn offsets_ok(ts: Seq<Token>) -> bool {
    forall|i: int|
        0 <= i < ts.len() ==> {
            &&& (#[trigger] ts[i]).range.start == byte_len(texts(ts.take(i)))
            &&& ts[i].range.end == byte_len(texts(ts.take(i + 1)))
        }
}

/// The token `t` is the lexeme `l` of `s`.
pub open spec fn token_is(t: Token, s: Seq<char>, l: (TokenKind, nat, nat)) -> bool {
    &&& t.kind == l.0
    &&& t.text@ == s.subrange(l.1 as int, l.2 as int)
    &&& t.range.start == byte_len(s.take(l.1 as int))
    &&& t.range.end == byte_len(s.take(l.2 as int))
}

/// `ts` is exactly the token sequence of `s`.
pub open spec fn lexed(ts: Seq<Token>, s: Seq<char>) -> bool {
    &&& ts.len() == lex(s).len()
    &&& forall|i: int| 0 <= i < ts.len() ==> token_is(#[trigger] ts[i], s, lex(s)[i])
}

pub proof fn lemma_run_end_bounds(s: Seq<char>, i: nat, cl: CharClass)
    requires
        i <= s.len(),
    ensures
        i <= run_end(s, i, cl) <= s.len(),
    decreases s.len() - i,
{
    if i < s.len() && in_class(cl, s[i as int]) {
        lemma_run_end_bounds(s, i + 1, cl);
    }
}

proof fn lemma_error_end_bounds(s: Seq<char>, i: nat)
    requires
        i <= s.len(),
    ensures
        i <= error_end(s, i) <= s.len(),
    decreases s.len() - i,
{
    if i < s.len() && !starts_token(s, i) {
        lemma_error_end_bounds(s, i + 1);
    }
}

proof fn lemma_last_quote_bounds(s: Seq<char>, lo: int, hi: int)
    ensures
        last_quote(s, lo, hi) == -1 || lo <= last_quote(s, lo, hi) < hi,
    decreases hi - lo,
{
    if hi > lo && s[hi - 1] != '"' {
        lemma_last_quote_bounds(s, lo, hi - 1);
    }
}

proof fn lemma_token_at_bounds(s: Seq<char>, i: nat)
    requires
        i < s.len(),
    ensures
        i < token_at(s, i).1 <= s.len(),
{
    lemma_run_end_bounds(s, i + 1, CharClass::Alphanumeric);
    lemma_run_end_bounds(s, i + 1, CharClass::Digit);
    lemma_run_end_bounds(s, i + 1, CharClass::Space);
    lemma_run_end_bounds(s, i + 1, CharClass::NotNewline);
    lemma_error_end_bounds(s, i + 1);
    lemma_last_quote_bounds(s, (i + 1) as int, run_end(s, i + 1, CharClass::NotNewline) as int);
}

fn class_has(cl: CharClass, c: char) -> (r: bool)
    ensures
        r == in_class(cl, c),
{
    match cl {
        CharClass::Alphanumeric => ('a' <= c && c <= 'z') || ('A' <= c && c <= 'Z') || ('0' <= c
            && c <= '9'),
        CharClass::Digit => '0' <= c && c <= '9',
        CharClass::Space => c == ' ' || c == '\n',
        CharClass::NotNewline => c != '\n',
    }
}

fn scan_run(chars: &Vec<char>, i: usize, cl: CharClass) -> (r: usize)
    requires
        i <= chars.len(),
    ensures
        r == run_end(chars@, i as nat, cl),
{
    let mut j = i;
    while j < chars.len() && class_has(cl, chars[j])
        invariant
            i <= j <= chars.len(),
            run_end(chars@, i as nat, cl) == run_end(chars@, j as nat, cl),
        decreases chars.len() - j,
    {
        j = j + 1;
    }
    j
}

fn find_last_quote(chars: &Vec<char>, lo: usize, hi: usize) -> (r: Option<usize>)
    requires
        lo <= hi <= chars.len(),
    ensures
        match r {
            Some(q) => q == last_quote(chars@, lo as int, hi as int),
            None => last_quote(chars@, lo as int, hi as int) < 0,
        },
{
    let mut k = hi;
    while k > lo && chars[k - 1] != '"'
        invariant
            lo <= k <= hi <= chars.len(),
            last_quote(chars@, lo as int, hi as int) == last_quote(chars@, lo as int, k as int),
        decreases k,
    {
        k = k - 1;
    }
    if k > lo {
        Some(k - 1)
    } else {
        None
    }
}

fn scan_string(chars: &Vec<char>, i: usize) -> (r: Option<usize>)
    requires
        i < chars.len(),
    ensures
        match r {
            Some(e) => e == string_end(chars@, i as nat) && e <= chars.len(),
            None => string_end(chars@, i as nat) < 0,
        },
{
    let line_end = scan_run(chars, i + 1, CharClass::NotNewline);
    proof {
        lemma_run_end_bounds(chars@, (i + 1) as nat, CharClass::NotNewline);
        lemma_last_quote_bounds(chars@, i + 1, line_end as int);
    }
    match find_last_quote(chars, i + 1, line_end) {
        Some(q) => Some(q + 1),
        None => None,
    }
}

fn punct(c: char) -> (r: Option<TokenKind>)
    ensures
        r == punct_kind(c),
{
    if c == '+' {
        Some(TokenKind::Plus)
    } else if c == '-' {
        Some(TokenKind::Minus)
    } else if c == '*' {
        Some(TokenKind::Asterisk)
    } else if c == '/' {
        Some(TokenKind::Slash)
    } else if c == '=' {
        Some(TokenKind::Equals)
    } else if c == '(' {
        Some(TokenKind::LParen)
    } else if c == ')' {
        Some(TokenKind::RParen)
    } else if c == '{' {
        Some(TokenKind::LBrace)
    } else if c == '}' {
        Some(TokenKind::RBrace)
    } else if c == ';' {
        Some(TokenKind::SemiColon)
    } else {
        None
    }
}

fn at_token_start(chars: &Vec<char>, i: usize) -> (r: bool)
    requires
        i < chars.len(),
    ensures
        r == starts_token(chars@, i as nat),
{
    let c = chars[i];
    if ('a' <= c && c <= 'z') || ('A' <= c && c <= 'Z') || ('0' <= c && c <= '9') || c == ' '
        || c == '\n' || c == '#' {
        true
    } else if punct(c).is_some() {
        true
    } else if c == '"' {
        scan_string(chars, i).is_some()
    } else {
        false
    }
}

fn scan_error(chars: &Vec<char>, i: usize) -> (r: usize)
    requires
        i <= chars.len(),
    ensures
        r == error_end(chars@, i as nat),
{
    let mut j = i;
    while j < chars.len() && !at_token_start(chars, j)
        invariant
            i <= j <= chars.len(),
            error_end(chars@, i as nat) == error_end(chars@, j as nat),
        decreases chars.len() - j,
    {
        j = j + 1;
    }
    j
}

/// The kind and end of the token that starts at `i`.
fn scan_token(chars: &Vec<char>, i: usize) -> (r: (TokenKind, usize))
    requires
        i < chars.len(),
    ensures
        r.0 == token_at(chars@, i as nat).0,
        r.1 == token_at(chars@, i as nat).1,
        i < r.1 <= chars.len(),
{
    proof {
        lemma_token_at_bounds(chars@, i as nat);
    }
    let c = chars[i];
    if ('a' <= c && c <= 'z') || ('A' <= c && c <= 'Z') {
        let e = scan_run(chars, i + 1, CharClass::Alphanumeric);
        let kind = if e - i == 3 && chars[i] == 's' && chars[i + 1] == 'e' && chars[i + 2] == 't' {
            TokenKind::SetKw
        } else if e - i == 4 && chars[i] == 'f' && chars[i + 1] == 'u' && chars[i + 2] == 'n'
            && chars[i + 3] == 'c' {
            TokenKind::FuncKw
        } else {
            TokenKind::Identifier
        };
        (kind, e)
    } else if '0' <= c && c <= '9' {
        (TokenKind::Number, scan_run(chars, i + 1, CharClass::Digit))
    } else if c == ' ' || c == '\n' {
        (TokenKind::Whitespace, scan_run(chars, i + 1, CharClass::Space))
    } else if c == '#' {
        (TokenKind::Comment, scan_run(chars, i + 1, CharClass::NotNewline))
    } else {
        match punct(c) {
            Some(k) => (k, i + 1),
            None => {
                let string = if c == '"' {
                    scan_string(chars, i)
                } else {
                    None
                };
                match string {
                    Some(e) => (TokenKind::String, e),
                    None => (TokenKind::Error, scan_error(chars, i + 1)),
                }
            },
        }
    }
}

/// Relies on String::push: appends one character at the end.
#[verifier::external_body]
pub(crate) fn push_char(s: &mut String, c: char)
    ensures
        final(s)@ == old(s)@.push(c),
{
    s.push(c);
}

/// The characters of `input`, in order.
fn chars_of(input: &str) -> (r: Vec<char>)
    ensures
        r@ == input@,
{
    let mut r: Vec<char> = Vec::new();
    for c in it: input.chars()
        invariant
            r@ == it.seq().take(it.index() as int),
            it.seq() == input@,
    {
        r.push(c);
        assert(r@ =~= it.seq().take(it.index() as int + 1));
    }
    assert(r@ =~= input@);
    r
}

pub proof fn lemma_texts_push(ts: Seq<Token>, t: Token)
    ensures
        texts(ts.push(t)) == texts(ts) + t.text@,
        ts.len() == 0 ==> texts(ts) == Seq::<char>::empty(),
{
    reveal_with_fuel(texts, 1);
    assert(ts.push(t).drop_last() =~= ts);
}

proof fn lemma_lex_step(s: Seq<char>, pos: nat, n: int)
    requires
        pos < s.len(),
        0 <= n <= lex(s).len(),
        lex(s).skip(n) == lex_from(s, pos),
    ensures
        n < lex(s).len(),
        lex(s)[n] == (token_at(s, pos).0, pos, token_at(s, pos).1),
        lex(s).skip(n + 1) == lex_from(s, token_at(s, pos).1),
{
    lemma_token_at_bounds(s, pos);
    let e = token_at(s, pos).1;
    assert(lex_from(s, pos) == seq![(token_at(s, pos).0, pos, e)] + lex_from(s, e));
    assert(lex(s).skip(n).len() > 0);
    assert(lex(s).skip(n)[0] == lex(s)[n]);
    assert(lex(s).skip(n + 1) =~= lex(s).skip(n).drop_first());
    assert(lex_from(s, e) =~= lex_from(s, pos).drop_first());
}

proof fn lemma_offsets_push(ts: Seq<Token>, t: Token)
    requires
        offsets_ok(ts),
        t.range.start == byte_len(texts(ts)),
        t.range.end == byte_len(texts(ts.push(t))),
    ensures
        offsets_ok(ts.push(t)),
{
    let us = ts.push(t);
    let n = ts.len() as int;
    assert(us.take(n) =~= ts);
    assert(us.take(n + 1) =~= us);
    assert forall|i: int| 0 <= i < us.len() implies {
        &&& (#[trigger] us[i]).range.start == byte_len(texts(us.take(i)))
        &&& us[i].range.end == byte_len(texts(us.take(i + 1)))
    } by {
        if i < n {
            assert(us.take(i) =~= ts.take(i));
            assert(us.take(i + 1) =~= ts.take(i + 1));
            assert(ts[i] == us[i]);
        }
    }
}

/// The characters `chars[from..to]`, and the byte offset just past them.
fn copy_text(chars: &Vec<char>, from: usize, to: usize, offset: u32) -> (r: (String, u32))
    requires
        from <= to <= chars.len(),
        byte_len(chars@) <= u32::MAX,
        offset == byte_len(chars@.take(from as int)),
    ensures
        r.0@ == chars@.subrange(from as int, to as int),
        r.1 == byte_len(chars@.take(to as int)),
{
    let ghost s = chars@;
    let mut text = String::new();
    let mut offset = offset;
    let mut j = from;
    while j < to
        invariant
            chars@ == s,
            byte_len(s) <= u32::MAX,
            from <= j <= to <= chars.len(),
            text@ == s.subrange(from as int, j as int),
            offset == byte_len(s.take(j as int)),
        decreases to - j,
    {
        let c = chars[j];
        push_char(&mut text, c);
        proof {
            assert(s.take(j + 1) =~= s.take(j as int).push(c));
            lemma_byte_len_push(s.take(j as int), c);
            lemma_byte_len_take(s, j + 1);
        }
        offset = offset + char_width(c);
        j = j + 1;
        assert(text@ =~= s.subrange(from as int, j as int));
    }
    (text, offset)
}

/// Splits `input` into its tokens. Their texts concatenate to `input`.
pub fn tokenize(input: &str) -> (r: Vec<Token>)
    requires
        byte_len(input@) <= u32::MAX,
    ensures
        lexed(r@, input@),
        texts(r@) == input@,
        offsets_ok(r@),
{
    let chars = chars_of(input);
    let ghost s = input@;
    let mut tokens: Vec<Token> = Vec::new();
    let mut pos: usize = 0;
    let mut offset: u32 = 0;
    assert(lex(s).skip(0) =~= lex_from(s, 0));
    proof {
        lemma_texts_push(tokens@, arbitrary());
        assert(s.take(0) =~= Seq::<char>::empty());
    }
    while pos < chars.len()
        invariant
            chars@ == s,
            byte_len(s) <= u32::MAX,
            pos <= chars.len(),
            offset == byte_len(s.take(pos as int)),
            tokens.len() <= lex(s).len(),
            lex(s).skip(tokens.len() as int) == lex_from(s, pos as nat),
            forall|i: int| 0 <= i < tokens.len() ==> token_is(#[trigger] tokens@[i], s, lex(s)[i]),
            texts(tokens@) == s.take(pos as int),
            offsets_ok(tokens@),
        decreases chars.len() - pos,
    {
        let (kind, end) = scan_token(&chars, pos);
        let start_offset = offset;
        let (text, end_offset) = copy_text(&chars, pos, end, offset);
        offset = end_offset;
        let token = Token { kind, text, range: TextRange { start: start_offset, end: offset } };
        proof {
            lemma_lex_step(s, pos as nat, tokens.len() as int);
            lemma_texts_push(tokens@, token);
            assert(s.take(end as int) =~= s.take(pos as int) + s.subrange(pos as int, end as int));
            lemma_offsets_push(tokens@, token);
        }
        let ghost old_tokens = tokens@;
        tokens.push(token);
        proof {
            assert forall|i: int| 0 <= i < tokens.len() implies token_is(
                #[trigger] tokens@[i],
                s,
                lex(s)[i],
            ) by {
                if i < old_tokens.len() {
                    assert(old_tokens[i] == tokens@[i]);
                }
            }
        }
        pos = end;
    }
    assert(lex_from(s, pos as nat) =~= seq![]);
    assert(s.take(pos as int) =~= s);
    tokens
}

/// Lexing is a function of the text alone: any two token sequences that lex the same text
/// agree token by token. Since a parse tree spells its input exactly, lexing the serialized
/// tree again yields the tokens that the first parse started from.
pub proof fn lemma_relex_same_tokens(s: Seq<char>, t1: Seq<Token>, t2: Seq<Token>)
    requires
        lexed(t1, s),
        lexed(t2, s),
    ensures
        t1.len() == t2.len(),
        forall|i: int|
            0 <= i < t1.len() ==> {
                &&& (#[trigger] t1[i]).kind == t2[i].kind
                &&& t1[i].text@ == t2[i].text@
                &&& t1[i].range == t2[i].range
            },
{
    assert forall|i: int| 0 <= i < t1.len() implies {
        &&& (#[trigger] t1[i]).kind == t2[i].kind
        &&& t1[i].text@ == t2[i].text@
        &&& t1[i].range == t2[i].range
    } by {
        assert(token_is(t1[i], s, lex(s)[i]));
        assert(token_is(t2[i], s, lex(s)[i]));
    }
}

/// What a token is, as a value: its kind, its text and its range.
pub struct TokenView {
    pub kind: TokenKind,
    pub text: Seq<char>,
    pub range: TextRange,
}

/// The kinds of `ts`, in order.
pub open spec fn kinds(ts: Seq<Token>) -> Seq<TokenKind> {
    ts.map_values(|t: Token| t.kind)
}

pub open spec fn token_view(t: Token) -> TokenView {
    TokenView { kind: t.kind, text: t.text@, range: t.range }
}

pub open spec fn token_views(ts: Seq<Token>) -> Seq<TokenView> {
    ts.map_values(|t: Token| token_view(t))
}

/// The tokens of `s`, as values.
pub open spec fn lex_views(s: Seq<char>) -> Seq<TokenView> {
    lex(s).map_values(
        |l: (TokenKind, nat, nat)|
            TokenView {
                kind: l.0,
                text: s.subrange(l.1 as int, l.2 as int),
                range: TextRange { start: byte_len(s.take(l.1 as int)) as u32, end: byte_len(s.take(l.2 as int)) as u32 },
            },
    )
}

/// The kinds of the tokens of `s`.
pub open spec fn lex_kinds(s: Seq<char>) -> Seq<TokenKind> {
    lex(s).map_values(|l: (TokenKind, nat, nat)| l.0)
}

/// Tokens that lex `s` are, as values, exactly the tokens of `s`.
pub proof fn lemma_lexed_views(ts: Seq<Token>, s: Seq<char>)
    requires
        lexed(ts, s),
    ensures
        token_views(ts) == lex_views(s),
        kinds(ts) == lex_kinds(s),
{
    assert forall|i: int| 0 <= i < ts.len() implies #[trigger] token_views(ts)[i] == lex_views(s)[i] by {
        assert(token_is(ts[i], s, lex(s)[i]));
    }
    assert(token_views(ts) =~= lex_views(s));
    assert forall|i: int| 0 <= i < ts.len() implies #[trigger] kinds(ts)[i] == lex_kinds(s)[i] by {
        assert(token_is(ts[i], s, lex(s)[i]));
    }
    assert(kinds(ts) =~= lex_kinds(s));
}

} // verus!
