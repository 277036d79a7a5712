use vstd::prelude::*;
use vstd::string::StringExecFns;
use vstd::std_specs::iter::IteratorSpec;
use crate::errors::{Error, ErrorModel};
use crate::text::{decimal, push_char, push_decimal};

verus! {

/// One lexeme of the source language.
#[derive(Debug, Clone, PartialEq)]
pub enum Token {
    Fnc,
    Let,
    Return,
    If,
    Else,
    While,
    For,
    Match,
    End,
    Identifier(String),
    Number(u64),
    StringLiteral(String),
    Operator(String),
    OpenParen,
    CloseParen,
    OpenBracket,
    CloseBracket,
    Arrow,
    Comma,
    Colon,
    Eof,
    TypeInt,
    TypeFloat,
    TypeString,
    TypeBool,
}

/// What a `Token` holds, with its text as a sequence of characters.
pub enum TokenModel {
    Fnc,
    Let,
    Return,
    If,
    Else,
    While,
    For,
    Match,
    End,
    Identifier(Seq<char>),
    Number(u64),
    StringLiteral(Seq<char>),
    Operator(Seq<char>),
    OpenParen,
    CloseParen,
    OpenBracket,
    CloseBracket,
    Arrow,
    Comma,
    Colon,
    Eof,
    TypeInt,
    TypeFloat,
    TypeString,
    TypeBool,
}

impl Token {
    pub open spec fn model(&self) -> TokenModel {
        match self {
            Token::Fnc => TokenModel::Fnc,
            Token::Let => TokenModel::Let,
            Token::Return => TokenModel::Return,
            Token::If => TokenModel::If,
            Token::Else => TokenModel::Else,
            Token::While => TokenModel::While,
            Token::For => TokenModel::For,
            Token::Match => TokenModel::Match,
            Token::End => TokenModel::End,
            Token::Identifier(s) => TokenModel::Identifier(s@),
            Token::Number(n) => TokenModel::Number(*n),
            Token::StringLiteral(s) => TokenModel::StringLiteral(s@),
            Token::Operator(s) => TokenModel::Operator(s@),
            Token::OpenParen => TokenModel::OpenParen,
            Token::CloseParen => TokenModel::CloseParen,
            Token::OpenBracket => TokenModel::OpenBracket,
            Token::CloseBracket => TokenModel::CloseBracket,
            Token::Arrow => TokenModel::Arrow,
            Token::Comma => TokenModel::Comma,
            Token::Colon => TokenModel::Colon,
            Token::Eof => TokenModel::Eof,
            Token::TypeInt => TokenModel::TypeInt,
            Token::TypeFloat => TokenModel::TypeFloat,
            Token::TypeString => TokenModel::TypeString,
            Token::TypeBool => TokenModel::TypeBool,
        }
    }
}

pub open spec fn tokens_model(ts: Seq<Token>) -> Seq<TokenModel> {
    ts.map_values(|t: Token| t.model())
}

/// Whether `char::is_alphanumeric` holds of `c`.
pub uninterp spec fn alphanumeric(c: char) -> bool;

pub open spec fn is_ascii_letter(c: char) -> bool {
    ('a' <= c && c <= 'z') || ('A' <= c && c <= 'Z')
}

pub open spec fn is_ascii_digit(c: char) -> bool {
    '0' <= c && c <= '9'
}

/// Relies on char::is_alphanumeric: alphabetic or numeric in Unicode's
/// sense, which among ASCII characters are the letters and the digits.
#[verifier::external_body]
fn is_alphanumeric(c: char) -> (r: bool)
    ensures
        r == alphanumeric(c),
        (c as u32) < 128 ==> (r <==> (is_ascii_letter(c) || is_ascii_digit(c))),
{
    c.is_alphanumeric()
}

pub open spec fn is_space(c: char) -> bool {
    c == ' ' || c == '\n' || c == '\t' || c == '\r'
}

pub open spec fn starts_word(c: char) -> bool {
    is_ascii_letter(c) || c == '_'
}

/// A character that may continue a word: among ASCII characters a letter,
/// a digit or `_`; beyond them, what `char::is_alphanumeric` accepts.
pub open spec fn continues_word(c: char) -> bool {
    if (c as u32) < 128 {
        is_ascii_letter(c) || is_ascii_digit(c) || c == '_'
    } else {
        alphanumeric(c)
    }
}

/// The end of the run of digits that starts at `i`.
pub open spec fn digits_end(s: Seq<char>, i: int) -> int
    decreases s.len() - i,
{
    if 0 <= i < s.len() && is_ascii_digit(s[i]) {
        digits_end(s, i + 1)
    } else {
        i
    }
}

/// The end of the run of word characters that starts at `i`.
pub open spec fn word_end(s: Seq<char>, i: int) -> int
    decreases s.len() - i,
{
    if 0 <= i < s.len() && continues_word(s[i]) {
        word_end(s, i + 1)
    } else {
        i
    }
}

/// The position of the first `"` at or after `i`, or the end of `s`.
pub open spec fn quote_end(s: Seq<char>, i: int) -> int
    decreases s.len() - i,
{
    if 0 <= i < s.len() && s[i] != '"' {
        quote_end(s, i + 1)
    } else {
        i
    }
}

/// The number that a run of decimal digits denotes.
pub open spec fn digits_value(ds: Seq<char>) -> nat
    decreases ds.len(),
{
    if ds.len() == 0 {
        0
    } else {
        digits_value(ds.drop_last()) * 10 + ((ds.last() as nat) - 48) as nat
    }
}

/// How many bytes UTF-8 takes for `c`.
pub open spec fn utf8_len(c: char) -> nat {
    if (c as u32) < 0x80 {
        1
    } else if (c as u32) < 0x800 {
        2
    } else if (c as u32) < 0x10000 {
        3
    } else {
        4
    }
}

/// How many bytes UTF-8 takes for `s`.
pub open spec fn byte_len(s: Seq<char>) -> nat
    decreases s.len(),
{
    if s.len() == 0 {
        0
    } else {
        byte_len(s.drop_last()) + utf8_len(s.last())
    }
}

/// The token of a word: a keyword or a type keyword, else an identifier.
pub open spec fn word_token(w: Seq<char>) -> TokenModel {
    if w == "fnc"@ {
        TokenModel::Fnc
    } else if w == "let"@ {
        TokenModel::Let
    } else if w == "ret"@ {
        TokenModel::Return
    } else if w == "if"@ {
        TokenModel::If
    } else if w == "else"@ {
        TokenModel::Else
    } else if w == "while"@ {
        TokenModel::While
    } else if w == "for"@ {
        TokenModel::For
    } else if w == "match"@ {
        TokenModel::Match
    } else if w == "end"@ {
        TokenModel::End
    } else if w == "int"@ {
        TokenModel::TypeInt
    } else if w == "float"@ {
        TokenModel::TypeFloat
    } else if w == "string"@ {
        TokenModel::TypeString
    } else if w == "bool"@ {
        TokenModel::TypeBool
    } else {
        TokenModel::Identifier(w)
    }
}

/// The token of a one-character lexeme other than `-`.
pub open spec fn single_token(c: char) -> Option<TokenModel> {
    if c == '(' {
        Some(TokenModel::OpenParen)
    } else if c == ')' {
        Some(TokenModel::CloseParen)
    } else if c == '[' {
        Some(TokenModel::OpenBracket)
    } else if c == ']' {
        Some(TokenModel::CloseBracket)
    } else if c == ':' {
        Some(TokenModel::Colon)
    } else if c == ',' {
        Some(TokenModel::Comma)
    } else if c == '+' || c == '*' || c == '/' || c == '=' {
        Some(TokenModel::Operator(seq![c]))
    } else {
        None
    }
}

pub open spec fn unexpected_char_message(c: char, offset: nat) -> Seq<char> {
    "Unexpected character '"@ + seq![c] + "' at position "@ + decimal(offset)
}

pub open spec fn number_range_message(offset: nat) -> Seq<char> {
    "Number literal out of range at position "@ + decimal(offset)
}

/// `t` put in front of the tokens of `r`, or the failure of `r`.
pub open spec fn prepend(t: TokenModel, r: Result<Seq<TokenModel>, ErrorModel>) -> Result<
    Seq<TokenModel>,
    ErrorModel,
> {
    match r {
        Ok(ts) => Ok(seq![t] + ts),
        Err(e) => Err(e),
    }
}

/// `p` put in front of the tokens of `r`, or the failure of `r`.
pub open spec fn prepend_all(p: Seq<TokenModel>, r: Result<Seq<TokenModel>, ErrorModel>) -> Result<
    Seq<TokenModel>,
    ErrorModel,
> {
    match r {
        Ok(ts) => Ok(p + ts),
        Err(e) => Err(e),
    }
}

/// The tokens of `s` from position `i` on, ending with `Eof`, or the first
/// lexical failure there.
pub open spec fn lex_from(s: Seq<char>, i: int) -> Result<Seq<TokenModel>, ErrorModel>
    decreases s.len() - i,
    via lex_from_decreases
{
    if i < 0 || i >= s.len() {
        Ok(seq![TokenModel::Eof])
    } else {
        let c = s[i];
        if is_space(c) {
            lex_from(s, i + 1)
        } else if single_token(c) is Some {
            prepend(single_token(c)->0, lex_from(s, i + 1))
        } else if c == '-' {
            if i + 1 < s.len() && s[i + 1] == '>' {
                prepend(TokenModel::Arrow, lex_from(s, i + 2))
            } else {
                prepend(TokenModel::Operator(seq!['-']), lex_from(s, i + 1))
            }
        } else if is_ascii_digit(c) {
            let j = digits_end(s, i + 1);
            let v = digits_value(s.subrange(i, j));
            if v > u64::MAX {
                Err(ErrorModel::Lexical(number_range_message(byte_len(s.take(i)))))
            } else {
                prepend(TokenModel::Number(v as u64), lex_from(s, j))
            }
        } else if starts_word(c) {
            let j = word_end(s, i + 1);
            prepend(word_token(s.subrange(i, j)), lex_from(s, j))
        } else if c == '"' {
            let j = quote_end(s, i + 1);
            let next = if j < s.len() { j + 1 } else { j };
            prepend(TokenModel::StringLiteral(s.subrange(i + 1, j)), lex_from(s, next))
        } else {
            Err(ErrorModel::Lexical(unexpected_char_message(c, byte_len(s.take(i)))))
        }
    }
}

#[via_fn]
proof fn lex_from_decreases(s: Seq<char>, i: int) {
    if 0 <= i < s.len() {
        lemma_digits_end(s, i + 1);
        lemma_word_end(s, i + 1);
        lemma_quote_end(s, i + 1);
    }
}

proof fn lemma_digits_end(s: Seq<char>, i: int)
    requires
        0 <= i <= s.len(),
    ensures
        i <= digits_end(s, i) <= s.len(),
    decreases s.len() - i,
{
    if i < s.len() && is_ascii_digit(s[i]) {
        lemma_digits_end(s, i + 1);
    }
}

proof fn lemma_word_end(s: Seq<char>, i: int)
    requires
        0 <= i <= s.len(),
    ensures
        i <= word_end(s, i) <= s.len(),
    decreases s.len() - i,
{
    if i < s.len() && continues_word(s[i]) {
        lemma_word_end(s, i + 1);
    }
}

proof fn lemma_quote_end(s: Seq<char>, i: int)
    requires
        0 <= i <= s.len(),
    ensures
        i <= quote_end(s, i) <= s.len(),
    decreases s.len() - i,
{
    if i < s.len() && s[i] != '"' {
        lemma_quote_end(s, i + 1);
    }
}

/// The tokens of `s`, ending with `Eof`, or the first lexical failure.
pub open spec fn lex(s: Seq<char>) -> Result<Seq<TokenModel>, ErrorModel> {
    lex_from(s, 0)
}

/// Exactly one end-of-input marker: a successful scan ends with `Eof`, and
/// no earlier token is `Eof`.
pub open spec fn ends_with_single_eof(ts: Seq<TokenModel>) -> bool {
    &&& ts.len() >= 1
    &&& ts.last() is Eof
    &&& forall|k: int| 0 <= k < ts.len() - 1 ==> !(#[trigger] ts[k] is Eof)
}

proof fn lemma_prepend_keeps_single_eof(t: TokenModel, r: Result<Seq<TokenModel>, ErrorModel>)
    requires
        !(t is Eof),
        r is Ok ==> ends_with_single_eof(r->Ok_0),
    ensures
        prepend(t, r) is Ok ==> ends_with_single_eof(prepend(t, r)->Ok_0),
{
    if let Ok(ts) = r {
        let u = seq![t] + ts;
        assert forall|k: int| 0 <= k < u.len() - 1 implies !(#[trigger] u[k] is Eof) by {
            if k > 0 {
                assert(u[k] == ts[k - 1]);
            }
        }
    }
}

proof fn lemma_lex_from_single_eof(s: Seq<char>, i: int)
    ensures
        lex_from(s, i) is Ok ==> ends_with_single_eof(lex_from(s, i)->Ok_0),
    decreases s.len() - i,
{
    if 0 <= i < s.len() {
        let c = s[i];
        lemma_digits_end(s, i + 1);
        lemma_word_end(s, i + 1);
        lemma_quote_end(s, i + 1);
        if is_space(c) {
            lemma_lex_from_single_eof(s, i + 1);
        } else if single_token(c) is Some {
            lemma_lex_from_single_eof(s, i + 1);
            lemma_prepend_keeps_single_eof(single_token(c)->0, lex_from(s, i + 1));
        } else if c == '-' {
            if i + 1 < s.len() && s[i + 1] == '>' {
                lemma_lex_from_single_eof(s, i + 2);
                lemma_prepend_keeps_single_eof(TokenModel::Arrow, lex_from(s, i + 2));
            } else {
                lemma_lex_from_single_eof(s, i + 1);
                lemma_prepend_keeps_single_eof(TokenModel::Operator(seq!['-']), lex_from(s, i + 1));
            }
        } else if is_ascii_digit(c) {
            let j = digits_end(s, i + 1);
            let v = digits_value(s.subrange(i, j));
            if v <= u64::MAX {
                lemma_lex_from_single_eof(s, j);
                lemma_prepend_keeps_single_eof(TokenModel::Number(v as u64), lex_from(s, j));
            }
        } else if starts_word(c) {
            let j = word_end(s, i + 1);
            lemma_lex_from_single_eof(s, j);
            lemma_prepend_keeps_single_eof(word_token(s.subrange(i, j)), lex_from(s, j));
        } else if c == '"' {
            let j = quote_end(s, i + 1);
            let next = if j < s.len() { j + 1 } else { j };
            lemma_lex_from_single_eof(s, next);
            lemma_prepend_keeps_single_eof(TokenModel::StringLiteral(s.subrange(i + 1, j)), lex_from(s, next));
        }
    }
}

/// Scanning is a function of the text alone, and every successful scan ends
/// with exactly one end-of-input token.
pub proof fn lemma_tokenize_deterministic(s1: Seq<char>, s2: Seq<char>)
    requires
        s1 == s2,
    ensures
        lex(s1) == lex(s2),
        lex(s1) is Ok ==> ends_with_single_eof(lex(s1)->Ok_0),
{
    lemma_lex_from_single_eof(s1, 0);
}

/// How many `"` characters stand in `s` from position `a` up to `b`.
pub open spec fn quotes_between(s: Seq<char>, a: int, b: int) -> nat
    decreases b - a,
{
    if a >= b {
        0
    } else {
        (if s[a] == '"' { 1nat } else { 0nat }) + quotes_between(s, a + 1, b)
    }
}

proof fn lemma_prepend_into(t: TokenModel, p: Seq<TokenModel>, r: Result<Seq<TokenModel>, ErrorModel>)
    ensures
        prepend(t, prepend_all(p, r)) == prepend_all(seq![t] + p, r),
{
    if let Ok(ts) = r {
        assert(seq![t] + (p + ts) =~= (seq![t] + p) + ts);
    }
}

/// A run of digits ends at the same place in `s` as in the text before
/// position `i`, when the character at `i` is no digit.
proof fn lemma_digits_run_cut(s: Seq<char>, i: int, k: int)
    requires
        0 <= k <= i < s.len(),
        !is_ascii_digit(s[i]),
    ensures
        digits_end(s.take(i), k) == digits_end(s, k),
        k <= digits_end(s, k) <= i,
        quotes_between(s, k, i) == quotes_between(s, digits_end(s, k), i),
    decreases i - k,
{
    if k < i && is_ascii_digit(s[k]) {
        lemma_digits_run_cut(s, i, k + 1);
    }
}

/// A word ends at the same place in `s` as in the text before position `i`,
/// when the character at `i` cannot continue a word.
proof fn lemma_word_run_cut(s: Seq<char>, i: int, k: int)
    requires
        0 <= k <= i < s.len(),
        !continues_word(s[i]),
    ensures
        word_end(s.take(i), k) == word_end(s, k),
        k <= word_end(s, k) <= i,
        quotes_between(s, k, i) == quotes_between(s, word_end(s, k), i),
    decreases i - k,
{
    if k < i && continues_word(s[k]) {
        lemma_word_run_cut(s, i, k + 1);
    }
}

/// Where a string literal closes in the text before position `i`, it closes
/// at the same place in `s`; where it does not, no `"` lies ahead before `i`.
proof fn lemma_quote_run_cut(s: Seq<char>, i: int, k: int)
    requires
        0 <= k <= i < s.len(),
    ensures
        k <= quote_end(s.take(i), k) <= i,
        quote_end(s.take(i), k) < i ==> quote_end(s, k) == quote_end(s.take(i), k)
            && quotes_between(s, k, i) == 1 + quotes_between(s, quote_end(s, k) + 1, i),
        quote_end(s.take(i), k) == i ==> quotes_between(s, k, i) == 0,
    decreases i - k,
{
    if k < i && s[k] != '"' {
        lemma_quote_run_cut(s, i, k + 1);
    }
}

/// Scanning `s` from `j` yields the tokens that scanning the text before
/// position `i` yields, without its `Eof`, followed by what scanning `s` from
/// `i` yields; this holds where `@` stands at `i`, the shorter scan succeeds,
/// and no string literal is open at `i`.
proof fn lemma_scan_up_to_at_sign(s: Seq<char>, i: int, j: int)
    requires
        0 <= j <= i < s.len(),
        s[i] == '@',
        lex_from(s.take(i), j) is Ok,
        quotes_between(s, j, i) % 2 == 0,
    ensures
        lex_from(s, j) == prepend_all(lex_from(s.take(i), j)->Ok_0.drop_last(), lex_from(s, i)),
    decreases i - j,
{
    let t = s.take(i);
    if j == i {
        if let Ok(ts) = lex_from(s, i) {
            assert(Seq::<TokenModel>::empty() + ts =~= ts);
        }
        assert(lex_from(t, j)->Ok_0.drop_last() =~= Seq::<TokenModel>::empty());
    } else {
        let c = s[j];
        assert(t[j] == c);
        lemma_digits_end(t, j + 1);
        lemma_word_end(t, j + 1);
        lemma_quote_end(t, j + 1);
        let next: int;
        let tok: Option<TokenModel>;
        if is_space(c) {
            next = j + 1;
            tok = None;
        } else if single_token(c) is Some {
            next = j + 1;
            tok = Some(single_token(c)->0);
        } else if c == '-' {
            if j + 1 < i && s[j + 1] == '>' {
                assert(t[j + 1] == s[j + 1]);
                next = j + 2;
                tok = Some(TokenModel::Arrow);
            } else {
                if j + 1 < i {
                    assert(t[j + 1] == s[j + 1]);
                }
                next = j + 1;
                tok = Some(TokenModel::Operator(seq!['-']));
            }
        } else if is_ascii_digit(c) {
            lemma_digits_run_cut(s, i, j + 1);
            let e = digits_end(s, j + 1);
            assert(t.subrange(j, e) =~= s.subrange(j, e));
            next = e;
            tok = Some(TokenModel::Number(digits_value(s.subrange(j, e)) as u64));
        } else if starts_word(c) {
            lemma_word_run_cut(s, i, j + 1);
            let e = word_end(s, j + 1);
            assert(t.subrange(j, e) =~= s.subrange(j, e));
            next = e;
            tok = Some(word_token(s.subrange(j, e)));
        } else {
            assert(c == '"');
            lemma_quote_run_cut(s, i, j + 1);
            let e = quote_end(s, j + 1);
            assert(t.subrange(j + 1, e) =~= s.subrange(j + 1, e));
            next = e + 1;
            tok = Some(TokenModel::StringLiteral(s.subrange(j + 1, e)));
        }
        lemma_scan_up_to_at_sign(s, i, next);
        lemma_lex_from_single_eof(t, next);
        if let Some(tk) = tok {
            let ts = lex_from(t, next)->Ok_0;
            lemma_prepend_into(tk, ts.drop_last(), lex_from(s, i));
            assert((seq![tk] + ts).drop_last() =~= seq![tk] + ts.drop_last());
        }
    }
}

/// A stray `@` fails the scan with a lexical error that names it and its
/// byte offset, wherever the text before it scans without failure and holds
/// no open string literal (an even number of `"`).
pub proof fn lemma_at_sign_is_rejected(s: Seq<char>, i: int)
    requires
        0 <= i < s.len(),
        s[i] == '@',
        lex(s.take(i)) is Ok,
        quotes_between(s, 0, i) % 2 == 0,
    ensures
        lex(s) == Err::<Seq<TokenModel>, ErrorModel>(
            ErrorModel::Lexical(unexpected_char_message('@', byte_len(s.take(i)))),
        ),
{
    lemma_scan_up_to_at_sign(s, i, 0);
}

/// The characters of `input`, in order.
fn chars_of(input: &str) -> (r: Vec<char>)
    ensures
        r@ == input@,
{
    let mut it = input.chars();
    let mut v: Vec<char> = Vec::new();
    loop
        invariant
            v@ + it.remaining() == input@,
            it.decrease() is Some,
        ensures
            v@ == input@,
        decreases it.decrease()->0,
    {
        match it.next() {
            Some(c) => {
                v.push(c);
            },
            None => {
                assert(v@ =~= input@);
                break;
            },
        }
    }
    v
}

proof fn lemma_push_token(p: Seq<Token>, t: Token, r: Result<Seq<TokenModel>, ErrorModel>)
    ensures
        prepend_all(tokens_model(p.push(t)), r) == prepend_all(tokens_model(p), prepend(t.model(), r)),
{
    assert(tokens_model(p.push(t)) =~= tokens_model(p).push(t.model()));
    if let Ok(ts) = r {
        assert(tokens_model(p).push(t.model()) + ts =~= tokens_model(p) + (seq![t.model()] + ts));
    }
}

fn utf8_width(c: char) -> (r: u128)
    ensures
        r == utf8_len(c),
{
    if (c as u32) < 0x80 {
        1
    } else if (c as u32) < 0x800 {
        2
    } else if (c as u32) < 0x10000 {
        3
    } else {
        4
    }
}

/// The byte offset of position `i` in the UTF-8 text of `s`.
fn byte_offset(s: &Vec<char>, i: usize) -> (r: u128)
    requires
        i <= s.len(),
    ensures
        r == byte_len(s@.take(i as int)),
{
    let mut r: u128 = 0;
    let mut k: usize = 0;
    while k < i
        invariant
            k <= i <= s.len(),
            r == byte_len(s@.take(k as int)),
            r <= 4 * k,
        decreases i - k,
    {
        assert(s@.take(k + 1).drop_last() =~= s@.take(k as int));
        r = r + utf8_width(s[k]);
        k = k + 1;
    }
    r
}

fn one_char_string(c: char) -> (r: String)
    ensures
        r@ == seq![c],
{
    let mut r = String::new();
    push_char(&mut r, c);
    assert(r@ =~= seq![c]);
    r
}

fn single_char_token(c: char) -> (r: Option<Token>)
    ensures
        r is Some <==> single_token(c) is Some,
        r is Some ==> r->0.model() == single_token(c)->0,
{
    if c == '(' {
        Some(Token::OpenParen)
    } else if c == ')' {
        Some(Token::CloseParen)
    } else if c == '[' {
        Some(Token::OpenBracket)
    } else if c == ']' {
        Some(Token::CloseBracket)
    } else if c == ':' {
        Some(Token::Colon)
    } else if c == ',' {
        Some(Token::Comma)
    } else if c == '+' || c == '*' || c == '/' || c == '=' {
        Some(Token::Operator(one_char_string(c)))
    } else {
        None
    }
}

fn keyword_or_identifier(w: String) -> (r: Token)
    ensures
        r.model() == word_token(w@),
{
    if w == String::from_str("fnc") {
        Token::Fnc
    } else if w == String::from_str("let") {
        Token::Let
    } else if w == String::from_str("ret") {
        Token::Return
    } else if w == String::from_str("if") {
        Token::If
    } else if w == String::from_str("else") {
        Token::Else
    } else if w == String::from_str("while") {
        Token::While
    } else if w == String::from_str("for") {
        Token::For
    } else if w == String::from_str("match") {
        Token::Match
    } else if w == String::from_str("end") {
        Token::End
    } else if w == String::from_str("int") {
        Token::TypeInt
    } else if w == String::from_str("float") {
        Token::TypeFloat
    } else if w == String::from_str("string") {
        Token::TypeString
    } else if w == String::from_str("bool") {
        Token::TypeBool
    } else {
        Token::Identifier(w)
    }
}

/// Splits `input` into tokens, ending with `Eof`. Fails with a lexical error
/// at the first character that no token can start with, naming it and its
/// byte offset, or at the first number that does not fit in 64 bits.
pub fn tokenize(input: &str) -> (r: Result<Vec<Token>, Error>)
    ensures
        match r {
            Ok(ts) => lex(input@) == Ok::<Seq<TokenModel>, ErrorModel>(tokens_model(ts@)),
            Err(e) => lex(input@) == Err::<Seq<TokenModel>, ErrorModel>(e.model()),
        },
{
    let s = chars_of(input);
    let n = s.len();
    let mut tokens: Vec<Token> = Vec::new();
    let mut i: usize = 0;
    assert(tokens_model(tokens@) =~= Seq::<TokenModel>::empty());
    assert(prepend_all(tokens_model(tokens@), lex_from(s@, 0)) == lex_from(s@, 0));
    while i < n
        invariant
            s@ == input@,
            n == s.len(),
            i <= n,
            lex(s@) == prepend_all(tokens_model(tokens@), lex_from(s@, i as int)),
        decreases n - i,
    {
        let c = s[i];
        let single = single_char_token(c);
        if c == ' ' || c == '\n' || c == '\t' || c == '\r' {
            i = i + 1;
        } else if let Some(t) = single {
            proof {
                lemma_push_token(tokens@, t, lex_from(s@, i + 1));
            }
            tokens.push(t);
            i = i + 1;
        } else if c == '-' {
            if i + 1 < n && s[i + 1] == '>' {
                proof {
                    lemma_push_token(tokens@, Token::Arrow, lex_from(s@, i + 2));
                }
                tokens.push(Token::Arrow);
                i = i + 2;
            } else {
                let t = Token::Operator(one_char_string('-'));
                proof {
                    lemma_push_token(tokens@, t, lex_from(s@, i + 1));
                }
                tokens.push(t);
                i = i + 1;
            }
        } else if '0' <= c && c <= '9' {
            let mut j: usize = i;
            let mut val: u64 = 0;
            let mut big = false;
            assert(digits_end(s@, i as int) == digits_end(s@, i + 1));
            assert(s@.subrange(i as int, i as int) =~= Seq::<char>::empty());
            while j < n && '0' <= s[j] && s[j] <= '9'
                invariant
                    s@ == input@,
                    n == s.len(),
                    i <= j <= n,
                    digits_end(s@, j as int) == digits_end(s@, i + 1),
                    big == (digits_value(s@.subrange(i as int, j as int)) > u64::MAX),
                    !big ==> val == digits_value(s@.subrange(i as int, j as int)),
                decreases n - j,
            {
                let d: u64 = (s[j] as u32 - 48) as u64;
                assert(s@.subrange(i as int, j + 1).drop_last() =~= s@.subrange(i as int, j as int));
                if !big {
                    match val.checked_mul(10) {
                        Some(m) => match m.checked_add(d) {
                            Some(x) => {
                                val = x;
                            },
                            None => {
                                big = true;
                            },
                        },
                        None => {
                            big = true;
                        },
                    }
                }
                j = j + 1;
            }
            if big {
                let off = byte_offset(&s, i);
                let mut msg = String::from_str("Number literal out of range at position ");
                push_decimal(&mut msg, off);
                return Err(Error::Lexical(msg));
            }
            let t = Token::Number(val);
            proof {
                lemma_push_token(tokens@, t, lex_from(s@, j as int));
            }
            tokens.push(t);
            i = j;
        } else if ('a' <= c && c <= 'z') || ('A' <= c && c <= 'Z') || c == '_' {
            let mut word = String::new();
            push_char(&mut word, c);
            let mut j: usize = i + 1;
            assert(word@ =~= s@.subrange(i as int, j as int));
            while j < n && (is_alphanumeric(s[j]) || s[j] == '_')
                invariant
                    s@ == input@,
                    n == s.len(),
                    i < j <= n,
                    word_end(s@, j as int) == word_end(s@, i + 1),
                    word@ == s@.subrange(i as int, j as int),
                decreases n - j,
            {
                push_char(&mut word, s[j]);
                j = j + 1;
                assert(word@ =~= s@.subrange(i as int, j as int));
            }
            let t = keyword_or_identifier(word);
            proof {
                lemma_push_token(tokens@, t, lex_from(s@, j as int));
            }
            tokens.push(t);
            i = j;
        } else if c == '"' {
            let mut lit = String::new();
            let mut j: usize = i + 1;
            assert(lit@ =~= s@.subrange(i + 1, j as int));
            while j < n && s[j] != '"'
                invariant
                    s@ == input@,
                    n == s.len(),
                    i < j <= n,
                    quote_end(s@, j as int) == quote_end(s@, i + 1),
                    lit@ == s@.subrange(i + 1, j as int),
                decreases n - j,
            {
                push_char(&mut lit, s[j]);
                j = j + 1;
                assert(lit@ =~= s@.subrange(i + 1, j as int));
            }
            let t = Token::StringLiteral(lit);
            let next = if j < n { j + 1 } else { j };
            proof {
                lemma_push_token(tokens@, t, lex_from(s@, next as int));
            }
            tokens.push(t);
            i = next;
        } else {
            let off = byte_offset(&s, i);
            let mut msg = String::from_str("Unexpected character '");
            push_char(&mut msg, c);
            msg.append("' at position ");
            push_decimal(&mut msg, off);
            assert(msg@ =~= unexpected_char_message(c, off as nat));
            return Err(Error::Lexical(msg));
        }
    }
    proof {
        lemma_push_token(tokens@, Token::Eof, Ok(Seq::<TokenModel>::empty()));
        assert(seq![TokenModel::Eof] + Seq::<TokenModel>::empty() =~= seq![TokenModel::Eof]);
    }
    tokens.push(Token::Eof);
    proof {
        assert(tokens_model(tokens@) + Seq::<TokenModel>::empty() =~= tokens_model(tokens@));
    }
    Ok(tokens)
}

} // verus!
