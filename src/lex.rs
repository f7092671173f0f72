//! The lexer: source text to tokens.
use vstd::prelude::*;
use crate::error::CompileError;
use crate::utility::{chars_of, push_char};

verus! {

#[derive(PartialEq, Eq, Debug)]
pub enum Token {
    LeftParen,
    RightParen,
    Plus,
    Dash,
    Star,
    Slash,
    Ident(String),
    Test,
    Assert,
    AssertEq,
    Let,
    Boolean(bool),
    Int(i64),
    String(String),
}

/// What `char::is_alphabetic` says of a character.
pub uninterp spec fn alphabetic(c: char) -> bool;

/// What `char::is_alphanumeric` says of a character.
pub uninterp spec fn alphanumeric(c: char) -> bool;

/// What `char::is_numeric` says of a character.
pub uninterp spec fn numeric(c: char) -> bool;

/// What `char::is_whitespace` says of a character.
pub uninterp spec fn whitespace(c: char) -> bool;

/// Relies on char::is_alphabetic, the Unicode `Alphabetic` property.
#[verifier::external_body]
fn is_alphabetic(c: char) -> (r: bool)
    ensures
        r == alphabetic(c),
{
    c.is_alphabetic()
}

/// Relies on char::is_alphanumeric: alphabetic or numeric.
#[verifier::external_body]
fn is_alphanumeric(c: char) -> (r: bool)
    ensures
        r == alphanumeric(c),
{
    c.is_alphanumeric()
}

/// Relies on char::is_numeric, the Unicode numeric general categories.
#[verifier::external_body]
fn is_numeric(c: char) -> (r: bool)
    ensures
        r == numeric(c),
{
    c.is_numeric()
}

/// Relies on char::is_whitespace, the Unicode `White_Space` property.
#[verifier::external_body]
fn is_whitespace(c: char) -> (r: bool)
    ensures
        r == whitespace(c),
{
    c.is_whitespace()
}

/// Whether `s` holds exactly the characters of `w`.
pub fn is_word(s: &String, w: &str) -> (r: bool)
    ensures
        r == (s@ == w@),
{
    *s == String::from_str(w)
}

/// The token that a word stands for: a keyword, a boolean or an identifier.
pub open spec fn word_token(s: String) -> Token {
    if s@ == "test"@ {
        Token::Test
    } else if s@ == "assert"@ {
        Token::Assert
    } else if s@ == "asserteq"@ {
        Token::AssertEq
    } else if s@ == "let"@ {
        Token::Let
    } else if s@ == "true"@ {
        Token::Boolean(true)
    } else if s@ == "false"@ {
        Token::Boolean(false)
    } else {
        Token::Ident(s)
    }
}

impl Token {
    pub fn ident(s: String) -> (r: Token)
        ensures
            r == word_token(s),
    {
        if is_word(&s, "test") {
            Token::Test
        } else if is_word(&s, "assert") {
            Token::Assert
        } else if is_word(&s, "asserteq") {
            Token::AssertEq
        } else if is_word(&s, "let") {
            Token::Let
        } else if is_word(&s, "true") {
            Token::Boolean(true)
        } else if is_word(&s, "false") {
            Token::Boolean(false)
        } else {
            Token::Ident(s)
        }
    }
}

pub open spec fn is_ascii_digit(c: char) -> bool {
    '0' <= c && c <= '9'
}

/// The value of a sequence of decimal digits.
pub open spec fn digits_value(s: Seq<char>) -> int
    decreases s.len(),
{
    if s.len() == 0 {
        0
    } else {
        digits_value(s.drop_last()) * 10 + (s.last() as int - '0' as int)
    }
}

/// A numeral: an optional `-` and at least one decimal digit.
pub open spec fn is_numeral(s: Seq<char>) -> bool {
    numeral_digits(s).len() > 0 && forall|i: int|
        0 <= i < numeral_digits(s).len() ==> is_ascii_digit(#[trigger] numeral_digits(s)[i])
}

/// The digits of a numeral, without its sign.
pub open spec fn numeral_digits(s: Seq<char>) -> Seq<char> {
    if s.len() > 0 && s[0] == '-' {
        s.drop_first()
    } else {
        s
    }
}

/// The value of a numeral.
pub open spec fn numeral_value(s: Seq<char>) -> int {
    if s.len() > 0 && s[0] == '-' {
        -digits_value(s.drop_first())
    } else {
        digits_value(s)
    }
}

/// Reads a numeral as a 64-bit integer: `None` where `s` is no numeral or its value
/// does not fit.
pub fn parse_i64(s: &Vec<char>) -> (r: Option<i64>)
    ensures
        r is Some <==> (is_numeral(s@) && i64::MIN <= numeral_value(s@) <= i64::MAX),
        r is Some ==> r->0 == numeral_value(s@),
{
    let negative = s.len() > 0 && s[0] == '-';
    let start: usize = if negative { 1 } else { 0 };
    let ghost body = numeral_digits(s@);
    if start >= s.len() {
        return None;
    }
    let limit: u128 = 9223372036854775808u128;
    let mut acc: u128 = 0;
    let mut big = false;
    let mut i: usize = start;
    while i < s.len()
        invariant
            limit == 9223372036854775808u128,
            negative == (s.len() > 0 && s[0] == '-'),
            start == (if negative { 1usize } else { 0usize }),
            start <= i <= s.len(),
            start < s.len(),
            body =~= s@.subrange(start as int, s.len() as int),
            forall|j: int| 0 <= j < i - start ==> is_ascii_digit(#[trigger] body[j]),
            !big ==> acc == digits_value(body.subrange(0, i - start)),
            !big ==> acc <= limit,
            big ==> digits_value(body.subrange(0, i - start)) > limit,
        decreases s.len() - i,
    {
        let c = s[i];
        if !('0' <= c && c <= '9') {
            assert(body[i - start] == s@[i as int]);
            assert(!is_ascii_digit(body[i - start]));
            return None;
        }
        let ghost prev = body.subrange(0, i - start);
        assert(body.subrange(0, i + 1 - start).drop_last() =~= prev);
        assert(body.subrange(0, i + 1 - start).last() == c);
        if !big {
            let d = (c as u32 - '0' as u32) as u128;
            assert(acc * 10 + d <= 92233720368547758089u128) by (nonlinear_arith)
                requires
                    acc <= limit,
                    d <= 9,
                    limit == 9223372036854775808u128,
            ;
            acc = acc * 10 + d;
            if acc > limit {
                big = true;
            }
        }
        i = i + 1;
    }
    assert(body.subrange(0, s.len() - start) =~= body);
    if big {
        return None;
    }
    if negative {
        Some((0i128 - acc as i128) as i64)
    } else if acc < limit {
        Some(acc as i64)
    } else {
        None
    }
}

/// The end of the run of alphanumeric characters that starts at `i`.
pub open spec fn word_end(cs: Seq<char>, i: int) -> int
    decreases cs.len() - i,
{
    if 0 <= i < cs.len() && alphanumeric(cs[i]) {
        word_end(cs, i + 1)
    } else {
        i
    }
}

/// Reads the rest of a numeral from `i`: digits are kept, `_` is skipped. The kept
/// characters, after `acc`, and where the numeral ends.
pub open spec fn numeral_scan(cs: Seq<char>, i: int, acc: Seq<char>) -> (Seq<char>, int)
    decreases cs.len() - i,
{
    if 0 <= i < cs.len() && numeric(cs[i]) {
        numeral_scan(cs, i + 1, acc.push(cs[i]))
    } else if 0 <= i < cs.len() && cs[i] == '_' {
        numeral_scan(cs, i + 1, acc)
    } else {
        (acc, i)
    }
}

/// Reads the rest of a string literal from `i`, after `acc`: its text and the position
/// after the closing quote, an error for a bad escape, or `None` where the source ends
/// before the closing quote.
pub open spec fn string_scan(cs: Seq<char>, i: int, acc: Seq<char>) -> Option<Result<(Seq<char>, int), CompileError>>
    decreases cs.len() - i,
{
    if i < 0 || i >= cs.len() {
        None
    } else if cs[i] == '"' {
        Some(Ok((acc, i + 1)))
    } else if cs[i] == '\\' {
        if i + 1 < cs.len() {
            if cs[i + 1] == '"' || cs[i + 1] == '\\' {
                string_scan(cs, i + 2, acc.push(cs[i + 1]))
            } else {
                Some(Err(CompileError::UnknownEscape(cs[i + 1])))
            }
        } else {
            Some(Err(CompileError::UnfinishedEscape))
        }
    } else {
        string_scan(cs, i + 1, acc.push(cs[i]))
    }
}

/// The value of a numeral, or the error for one that is malformed or out of range.
pub open spec fn numeral_token(digits: Seq<char>) -> Result<Token, CompileError> {
    if is_numeral(digits) && i64::MIN <= numeral_value(digits) <= i64::MAX {
        Ok(Token::Int(numeral_value(digits) as i64))
    } else {
        Err(CompileError::InvalidInteger)
    }
}

/// A token that stands for one character.
pub open spec fn single_token(c: char) -> Option<Token> {
    if c == '(' {
        Some(Token::LeftParen)
    } else if c == ')' {
        Some(Token::RightParen)
    } else if c == '+' {
        Some(Token::Plus)
    } else if c == '*' {
        Some(Token::Star)
    } else if c == '/' {
        Some(Token::Slash)
    } else {
        None
    }
}

/// `t` is the token of the word `w`: a keyword, a boolean, or an identifier.
pub open spec fn word_matches(t: Token, w: Seq<char>) -> bool {
    if w == "test"@ {
        t == Token::Test
    } else if w == "assert"@ {
        t == Token::Assert
    } else if w == "asserteq"@ {
        t == Token::AssertEq
    } else if w == "let"@ {
        t == Token::Let
    } else if w == "true"@ {
        t == Token::Boolean(true)
    } else if w == "false"@ {
        t == Token::Boolean(false)
    } else {
        t is Ident && t->Ident_0@ == w
    }
}

/// Lexing `cs` from position `i` gives the tokens `toks`, or fails with the error `err`.
/// Characters are read left to right: single-character tokens; words of an alphabetic
/// character and the alphanumeric ones after it; string literals with the escapes `\"`
/// and `\\`, where a literal the source ends inside of makes no token and ends lexing;
/// numerals, `_` being skipped; `-` as a sign when a numeric character follows, as a
/// dash when another follows, and as nothing at the very end; whitespace is skipped;
/// any other character is an error.
#[verifier::opaque]
pub open spec fn lexes(cs: Seq<char>, i: int, toks: Seq<Token>, err: Option<CompileError>) -> bool
    decreases cs.len() - i,
{
    if i < 0 || i >= cs.len() {
        toks.len() == 0 && err is None
    } else {
        let c = cs[i];
        if single_token(c) is Some {
            toks.len() >= 1 && toks[0] == single_token(c)->0 && lexes(cs, i + 1, toks.drop_first(), err)
        } else if alphabetic(c) {
            let j = word_end(cs, i + 1);
            i < j <= cs.len() && toks.len() >= 1 && word_matches(toks[0], cs.subrange(i, j)) && lexes(cs, j, toks.drop_first(), err)
        } else if c == '"' {
            match string_scan(cs, i + 1, Seq::empty()) {
                None => toks.len() == 0 && err is None,
                Some(Err(e)) => err == Some(e),
                Some(Ok((text, j))) => i < j <= cs.len() && toks.len() >= 1 && toks[0] is String && toks[0]->String_0@ == text
                    && lexes(cs, j, toks.drop_first(), err),
            }
        } else if numeric(c) || (c == '-' && i + 1 < cs.len() && numeric(cs[i + 1])) {
            let (digits, j) = numeral_scan(cs, i + 1, seq![c]);
            match numeral_token(digits) {
                Err(e) => err == Some(e),
                Ok(t) => i < j <= cs.len() && toks.len() >= 1 && toks[0] == t && lexes(cs, j, toks.drop_first(), err),
            }
        } else if c == '-' {
            if i + 1 < cs.len() {
                toks.len() >= 1 && toks[0] == Token::Dash && lexes(cs, i + 1, toks.drop_first(), err)
            } else {
                toks.len() == 0 && err is None
            }
        } else if whitespace(c) {
            lexes(cs, i + 1, toks, err)
        } else {
            err == Some(CompileError::UnexpectedCharacter(c))
        }
    }
}

/// Reads a word from `start`: its token, and where the word ends.
fn lex_word(cs: &Vec<char>, start: usize) -> (r: (Token, usize))
    requires
        start < cs@.len(),
    ensures
        r.1 == word_end(cs@, start + 1),
        start < r.1 <= cs@.len(),
        word_matches(r.0, cs@.subrange(start as int, r.1 as int)),
{
    let mut s = String::new();
    push_char(&mut s, cs[start]);
    assert(start < cs.len());
    let mut pos = start + 1;
    while pos < cs.len() && is_alphanumeric(cs[pos])
        invariant
            start < pos <= cs@.len(),
            word_end(cs@, start + 1) == word_end(cs@, pos as int),
            s@ == cs@.subrange(start as int, pos as int),
        decreases cs.len() - pos,
    {
        push_char(&mut s, cs[pos]);
        pos = pos + 1;
        assert(s@ =~= cs@.subrange(start as int, pos as int));
    }
    (Token::ident(s), pos)
}

/// Reads the rest of a string literal from `start`, just after its opening quote.
fn lex_string(cs: &Vec<char>, start: usize) -> (r: Option<Result<(String, usize), CompileError>>)
    requires
        start <= cs@.len(),
    ensures
        match string_scan(cs@, start as int, Seq::empty()) {
            None => r is None,
            Some(Err(e)) => r == Some(Err::<(String, usize), CompileError>(e)),
            Some(Ok((text, j))) => r is Some && r->0 is Ok && r->0->Ok_0.0@ == text && r->0->Ok_0.1 == j,
        },
        r is Some && r->0 is Ok ==> start < r->0->Ok_0.1 <= cs@.len(),
        r is Some && r->0 is Err ==> r->0->Err_0 is UnknownEscape || r->0->Err_0 is UnfinishedEscape,
{
    let mut s = String::new();
    let mut pos = start;
    assert(s@ =~= Seq::<char>::empty());
    while pos < cs.len()
        invariant
            start <= pos <= cs@.len(),
            string_scan(cs@, start as int, Seq::empty()) == string_scan(cs@, pos as int, s@),
        decreases cs.len() - pos,
    {
        let d = cs[pos];
        if d == '"' {
            return Some(Ok((s, pos + 1)));
        } else if d == '\\' {
            if pos + 1 < cs.len() {
                let e = cs[pos + 1];
                if e == '"' || e == '\\' {
                    push_char(&mut s, e);
                    pos = pos + 2;
                } else {
                    return Some(Err(CompileError::UnknownEscape(e)));
                }
            } else {
                return Some(Err(CompileError::UnfinishedEscape));
            }
        } else {
            push_char(&mut s, d);
            pos = pos + 1;
        }
    }
    None
}

/// Lexing `cs` fails, with the error `e`.
pub open spec fn lex_fails_with(cs: Seq<char>, e: CompileError) -> bool {
    exists|toks: Seq<Token>| lexes(cs, 0, toks, Some(e))
}

/// Lexing continues at `q` from `p` after the token `t`.
pub open spec fn advances(cs: Seq<char>, p: int, q: int, t: Token) -> bool {
    forall|toks: Seq<Token>, err: Option<CompileError>|
        #[trigger] lexes(cs, q, toks, err) ==> lexes(cs, p, seq![t] + toks, err)
}

/// Whatever lexing finds from `p` on, it finds after the tokens `done`.
pub open spec fn lexed_so_far(cs: Seq<char>, p: int, done: Seq<Token>) -> bool {
    forall|toks: Seq<Token>, err: Option<CompileError>|
        #[trigger] lexes(cs, p, toks, err) ==> lexes(cs, 0, done + toks, err)
}

proof fn lemma_advance(cs: Seq<char>, p: int, q: int, t: Token, done: Seq<Token>)
    requires
        lexed_so_far(cs, p, done),
        advances(cs, p, q, t),
    ensures
        lexed_so_far(cs, q, done.push(t)),
{
    assert forall|toks: Seq<Token>, err: Option<CompileError>|
        #[trigger] lexes(cs, q, toks, err) implies lexes(cs, 0, done.push(t) + toks, err) by {
        assert(lexes(cs, p, seq![t] + toks, err));
        assert(done + (seq![t] + toks) =~= done.push(t) + toks);
    }
}

/// Reads the rest of a numeral that starts with `first`, from `pos` on.
fn lex_int(first: char, cs: &Vec<char>, pos: &mut usize) -> (r: Result<Token, CompileError>)
    requires
        *old(pos) <= cs.len(),
    ensures
        *old(pos) <= *final(pos) <= cs.len(),
        numeral_scan(cs@, *old(pos) as int, seq![first]) == (
            numeral_scan(cs@, *old(pos) as int, seq![first]).0,
            *final(pos) as int,
        ),
        r == numeral_token(numeral_scan(cs@, *old(pos) as int, seq![first]).0),
{
    let mut digits: Vec<char> = Vec::new();
    digits.push(first);
    assert(digits@ =~= seq![first]);
    while *pos < cs.len() && (is_numeric(cs[*pos]) || cs[*pos] == '_')
        invariant
            *old(pos) <= *pos <= cs.len(),
            numeral_scan(cs@, *old(pos) as int, seq![first]) == numeral_scan(cs@, *pos as int, digits@),
        decreases cs.len() - *pos,
    {
        let p = cs[*pos];
        if is_numeric(p) {
            digits.push(p);
        }
        *pos = *pos + 1;
    }
    match parse_i64(&digits) {
        Some(v) => Ok(Token::Int(v)),
        None => Err(CompileError::InvalidInteger),
    }
}

proof fn lemma_skip(cs: Seq<char>, p: int, done: Seq<Token>)
    requires
        lexed_so_far(cs, p, done),
        0 <= p < cs.len(),
        single_token(cs[p]) is None,
        !alphabetic(cs[p]),
        cs[p] != '"',
        !numeric(cs[p]),
        cs[p] != '-',
        whitespace(cs[p]),
    ensures
        lexed_so_far(cs, p + 1, done),
{
    assert forall|toks: Seq<Token>, err: Option<CompileError>|
        #[trigger] lexes(cs, p + 1, toks, err) implies lexes(cs, 0, done + toks, err) by {
        reveal(lexes);
        assert(lexes(cs, p, toks, err));
    }
}

/// Lexing fails with at most one error: two readings of the same source agree on it.
pub proof fn lemma_lex_error_unique(
    cs: Seq<char>,
    i: int,
    t1: Seq<Token>,
    e1: Option<CompileError>,
    t2: Seq<Token>,
    e2: Option<CompileError>,
)
    requires
        lexes(cs, i, t1, e1),
        lexes(cs, i, t2, e2),
    ensures
        e1 == e2,
    decreases cs.len() - i,
{
    reveal(lexes);
    if 0 <= i < cs.len() {
        let c = cs[i];
        if single_token(c) is Some {
            lemma_lex_error_unique(cs, i + 1, t1.drop_first(), e1, t2.drop_first(), e2);
        } else if alphabetic(c) {
            lemma_lex_error_unique(cs, word_end(cs, i + 1), t1.drop_first(), e1, t2.drop_first(), e2);
        } else if c == '"' {
            match string_scan(cs, i + 1, Seq::empty()) {
                Some(Ok((text, j))) => {
                    lemma_lex_error_unique(cs, j, t1.drop_first(), e1, t2.drop_first(), e2);
                },
                _ => {},
            }
        } else if numeric(c) || (c == '-' && i + 1 < cs.len() && numeric(cs[i + 1])) {
            let (digits, j) = numeral_scan(cs, i + 1, seq![c]);
            if numeral_token(digits) is Ok {
                lemma_lex_error_unique(cs, j, t1.drop_first(), e1, t2.drop_first(), e2);
            }
        } else if c == '-' {
            if i + 1 < cs.len() {
                lemma_lex_error_unique(cs, i + 1, t1.drop_first(), e1, t2.drop_first(), e2);
            }
        } else if whitespace(c) {
            lemma_lex_error_unique(cs, i + 1, t1, e1, t2, e2);
        }
    }
}

proof fn lemma_unexpected(cs: Seq<char>, p: int, c: char)
    requires
        0 <= p < cs.len(),
        cs[p] == c,
        single_token(c) is None,
        !alphabetic(c),
        c != '"',
        !numeric(c),
        c != '-',
        !whitespace(c),
    ensures
        lexes(cs, p, Seq::empty(), Some(CompileError::UnexpectedCharacter(c))),
{
    reveal(lexes);
}

proof fn lemma_stop(cs: Seq<char>, p: int, done: Seq<Token>)
    requires
        lexed_so_far(cs, p, done),
        lexes(cs, p, Seq::empty(), None),
    ensures
        lexed_so_far(cs, cs.len() as int, done),
{
    assert forall|toks: Seq<Token>, err: Option<CompileError>|
        #[trigger] lexes(cs, cs.len() as int, toks, err) implies lexes(cs, 0, done + toks, err) by {
        reveal(lexes);
        assert(toks =~= Seq::<Token>::empty());
        assert(done + toks =~= done + Seq::<Token>::empty());
    }
}

proof fn lemma_fail(cs: Seq<char>, p: int, done: Seq<Token>, e: CompileError)
    requires
        lexed_so_far(cs, p, done),
        lexes(cs, p, Seq::empty(), Some(e)),
    ensures
        lexes(cs, 0, done, Some(e)),
{
    assert(lexes(cs, 0, done + Seq::empty(), Some(e)));
    assert(done + Seq::<Token>::empty() =~= done);
}

proof fn lemma_step(cs: Seq<char>, p: int, q: int, t: Token, done: Seq<Token>)
    requires
        lexed_so_far(cs, p, done),
        0 <= p < q <= cs.len(),
        forall|toks: Seq<Token>, err: Option<CompileError>|
            #[trigger] lexes(cs, q, toks, err) ==> lexes(cs, p, seq![t] + toks, err),
    ensures
        lexed_so_far(cs, q, done.push(t)),
{
    lemma_advance(cs, p, q, t, done);
}

/// Splits source text into tokens.
#[verifier::loop_isolation(false)]
pub fn lex(source: &str) -> (r: Result<Vec<Token>, CompileError>)
    ensures
        r is Ok ==> lexes(source@, 0, r->Ok_0@, None),
        r is Err ==> lex_fails_with(source@, r->Err_0),
        r is Err ==> r->Err_0 is UnknownEscape || r->Err_0 is UnfinishedEscape || r->Err_0 is UnexpectedCharacter
            || r->Err_0 is InvalidInteger,
{
    let cs = chars_of(source);
    let ghost s = cs@;
    let mut tokens: Vec<Token> = Vec::new();
    let mut pos: usize = 0;
    proof {
        assert forall|toks: Seq<Token>, err: Option<CompileError>|
            #[trigger] lexes(s, 0, toks, err) implies lexes(s, 0, tokens@ + toks, err) by {
            assert(tokens@ + toks =~= toks);
        }
    }
    while pos < cs.len()
        invariant
            pos <= cs@.len(),
            s == cs@,
            s == source@,
            lexed_so_far(s, pos as int, tokens@),
        decreases cs.len() - pos,
    {
        let c = cs[pos];
        let ghost p = pos as int;
        if c == '(' || c == ')' || c == '+' || c == '*' || c == '/' {
            let t = if c == '(' {
                Token::LeftParen
            } else if c == ')' {
                Token::RightParen
            } else if c == '+' {
                Token::Plus
            } else if c == '*' {
                Token::Star
            } else {
                Token::Slash
            };
            proof {
                assert forall|toks: Seq<Token>, err: Option<CompileError>|
                    #[trigger] lexes(s, p + 1, toks, err) implies lexes(s, p, seq![t] + toks, err) by {
                    reveal(lexes);
                    assert((seq![t] + toks).drop_first() =~= toks);
                }
                lemma_step(s, p, p + 1, t, tokens@);
            }
            tokens.push(t);
            pos = pos + 1;
        } else if is_alphabetic(c) {
            let (t, j) = lex_word(&cs, pos);
            proof {
                assert forall|toks: Seq<Token>, err: Option<CompileError>|
                    #[trigger] lexes(s, j as int, toks, err) implies lexes(s, p, seq![t] + toks, err) by {
                    reveal(lexes);
                    assert((seq![t] + toks).drop_first() =~= toks);
                }
                lemma_step(s, p, j as int, t, tokens@);
            }
            tokens.push(t);
            pos = j;
        } else if c == '"' {
            match lex_string(&cs, pos + 1) {
                None => {
                    proof {
                        reveal(lexes);
                        assert(lexes(s, p, Seq::empty(), None));
                        lemma_stop(s, p, tokens@);
                    }
                    pos = cs.len();
                },
                Some(Err(e)) => {
                    proof {
                        reveal(lexes);
                        assert(lexes(s, p, Seq::empty(), Some(e)));
                        lemma_fail(s, p, tokens@, e);
                        assert(lexes(source@, 0, tokens@, Some(e)));
                        assert(lex_fails_with(source@, e));
                    }
                    return Err(e);
                },
                Some(Ok((text, j))) => {
                    let t = Token::String(text);
                    proof {
                        assert forall|toks: Seq<Token>, err: Option<CompileError>|
                            #[trigger] lexes(s, j as int, toks, err) implies lexes(s, p, seq![t] + toks, err) by {
                            reveal(lexes);
                            assert((seq![t] + toks).drop_first() =~= toks);
                        }
                        lemma_step(s, p, j as int, t, tokens@);
                    }
                    tokens.push(t);
                    pos = j;
                },
            }
        } else if is_numeric(c) || (c == '-' && pos + 1 < cs.len() && is_numeric(cs[pos + 1])) {
            pos = pos + 1;
            let r = lex_int(c, &cs, &mut pos);
            match r {
                Ok(t) => {
                    proof {
                        assert forall|toks: Seq<Token>, err: Option<CompileError>|
                            #[trigger] lexes(s, pos as int, toks, err) implies lexes(s, p, seq![t] + toks, err) by {
                            reveal(lexes);
                            assert((seq![t] + toks).drop_first() =~= toks);
                        }
                        lemma_step(s, p, pos as int, t, tokens@);
                    }
                    tokens.push(t);
                },
                Err(e) => {
                    proof {
                        reveal(lexes);
                        assert(lexes(s, p, Seq::empty(), Some(e)));
                        lemma_fail(s, p, tokens@, e);
                        assert(lexes(source@, 0, tokens@, Some(e)));
                        assert(lex_fails_with(source@, e));
                    }
                    return Err(e);
                },
            }
        } else if c == '-' {
            if pos + 1 < cs.len() {
                let t = Token::Dash;
                proof {
                    assert forall|toks: Seq<Token>, err: Option<CompileError>|
                        #[trigger] lexes(s, p + 1, toks, err) implies lexes(s, p, seq![t] + toks, err) by {
                        reveal(lexes);
                        assert((seq![t] + toks).drop_first() =~= toks);
                    }
                    lemma_step(s, p, p + 1, t, tokens@);
                }
                tokens.push(t);
                pos = pos + 1;
            } else {
                proof {
                    reveal(lexes);
                    assert(lexes(s, p, Seq::empty(), None));
                    lemma_stop(s, p, tokens@);
                }
                pos = cs.len();
            }
        } else if is_whitespace(c) {
            proof {
                lemma_skip(s, p, tokens@);
            }
            pos = pos + 1;
        } else {
            proof {
                lemma_unexpected(s, p, c);
                lemma_fail(s, p, tokens@, CompileError::UnexpectedCharacter(c));
                assert(lexes(source@, 0, tokens@, Some(CompileError::UnexpectedCharacter(c))));
                assert(lex_fails_with(source@, CompileError::UnexpectedCharacter(c)));
            }
            return Err(CompileError::UnexpectedCharacter(c));
        }
    }
    proof {
        reveal(lexes);
        assert(lexes(s, s.len() as int, Seq::empty(), None));
        assert(tokens@ + Seq::<Token>::empty() =~= tokens@);
    }
    Ok(tokens)
}

} // verus!
