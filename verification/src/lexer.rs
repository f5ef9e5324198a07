//! The lexer.
//!
//! The lexical grammar is stated as functions on the sequence of characters
//! of the source: `token_at` gives the token that starts at a position, and
//! `tokens_from` the tokens of the whole text with the positions at which
//! they start. The lexer computes these.

use crate::error::{ParseError, SyntaxError};
use crate::tokens::{Tok, Token};
use vstd::prelude::*;
use vstd::string::StrSliceExecFns;

verus! {

/// Blanks, tabs and line ends separate tokens.
pub open spec fn is_space(c: char) -> bool {
    c == ' ' || c == '\t' || c == '\n' || c == '\r'
}

pub open spec fn is_alpha(c: char) -> bool {
    ('a' <= c && c <= 'z') || ('A' <= c && c <= 'Z')
}

pub open spec fn is_digit(c: char) -> bool {
    '0' <= c && c <= '9'
}

/// The characters of an identifier after its first: letters, digits and `_`.
pub open spec fn is_word_char(c: char) -> bool {
    is_alpha(c) || is_digit(c) || c == '_'
}

/// The first position from `pos` on that holds no space.
pub open spec fn skip_spaces(s: Seq<char>, pos: nat) -> nat
    decreases s.len() - pos,
{
    if pos < s.len() && is_space(s[pos as int]) {
        skip_spaces(s, pos + 1)
    } else {
        pos
    }
}

/// The first position from `pos` on that holds no character of a word.
pub open spec fn word_end(s: Seq<char>, pos: nat) -> nat
    decreases s.len() - pos,
{
    if pos < s.len() && is_word_char(s[pos as int]) {
        word_end(s, pos + 1)
    } else {
        pos
    }
}

/// The reserved word that `word` spells, if it spells one.
pub open spec fn keyword(word: Seq<char>) -> Option<Tok> {
    if word == "struct"@ {
        Some(Tok::Struct)
    } else if word == "null"@ || word == "NULL"@ {
        Some(Tok::Null)
    } else if word == "void"@ {
        Some(Tok::TVoid)
    } else if word == "int"@ {
        Some(Tok::TInt)
    } else if word == "string"@ {
        Some(Tok::TString)
    } else if word == "bool"@ {
        Some(Tok::TBool)
    } else if word == "else"@ {
        Some(Tok::Else)
    } else if word == "if"@ {
        Some(Tok::If)
    } else if word == "for"@ {
        Some(Tok::For)
    } else if word == "while"@ {
        Some(Tok::While)
    } else if word == "var"@ {
        Some(Tok::Var)
    } else if word == "return"@ {
        Some(Tok::Return)
    } else if word == "global"@ {
        Some(Tok::Global)
    } else if word == "length"@ {
        Some(Tok::Length)
    } else if word == "new"@ {
        Some(Tok::New)
    } else if word == "true"@ {
        Some(Tok::True)
    } else if word == "false"@ {
        Some(Tok::False)
    } else {
        None
    }
}

/// The value of a character as a digit in a base of at most sixteen.
pub open spec fn digit_of(c: char, base: nat) -> Option<nat> {
    let value: int = if '0' <= c && c <= '9' {
        c as int - '0' as int
    } else if 'a' <= c && c <= 'f' {
        c as int - 'a' as int + 10
    } else if 'A' <= c && c <= 'F' {
        c as int - 'A' as int + 10
    } else {
        16
    };
    if value < base {
        Some(value as nat)
    } else {
        None
    }
}

/// The first position from `pos` on that holds neither a digit of the base
/// nor the grouping mark `_`.
pub open spec fn digits_end(s: Seq<char>, pos: nat, base: nat) -> nat
    decreases s.len() - pos,
{
    if pos < s.len() && (digit_of(s[pos as int], base).is_some() || s[pos as int] == '_') {
        digits_end(s, pos + 1, base)
    } else {
        pos
    }
}

/// The number that `acc` becomes when the digits from `pos` up to
/// `digits_end` are appended to it. Grouping marks count for nothing.
pub open spec fn digits_value(s: Seq<char>, pos: nat, base: nat, acc: nat) -> nat
    decreases s.len() - pos,
{
    if pos < s.len() && (digit_of(s[pos as int], base).is_some() || s[pos as int] == '_') {
        match digit_of(s[pos as int], base) {
            Some(d) => digits_value(s, pos + 1, base, acc * base + d),
            None => digits_value(s, pos + 1, base, acc),
        }
    } else {
        acc
    }
}

/// The digits of a number that start at `pos`: their value, which has to fit
/// in 64 bits with sign, and the position after them.
pub open spec fn digits_at(s: Seq<char>, pos: nat, base: nat) -> Option<(i64, nat)> {
    if pos < s.len() && digit_of(s[pos as int], base).is_some() && digits_value(s, pos, base, 0)
        <= i64::MAX {
        Some((digits_value(s, pos, base, 0) as i64, digits_end(s, pos, base)))
    } else {
        None
    }
}

/// A number written with a base prefix: `0`, then `lower` or `upper`, then
/// digits.
pub open spec fn prefixed_at(s: Seq<char>, pos: nat, base: nat, lower: char, upper: char) -> Option<
    (i64, nat),
> {
    if pos + 1 < s.len() && s[pos as int] == '0' && (s[pos as int + 1] == lower || s[pos as int + 1] == upper) {
        digits_at(s, pos + 2, base)
    } else {
        None
    }
}

/// The unsigned number that starts at `pos`: hexadecimal after `0x`, octal
/// after `0o`, binary after `0b`, and decimal otherwise.
pub open spec fn number_at(s: Seq<char>, pos: nat) -> Option<(i64, nat)> {
    match prefixed_at(s, pos, 16, 'x', 'X') {
        Some(r) => Some(r),
        None => match prefixed_at(s, pos, 8, 'o', 'O') {
            Some(r) => Some(r),
            None => match prefixed_at(s, pos, 2, 'b', 'B') {
                Some(r) => Some(r),
                None => digits_at(s, pos, 10),
            },
        },
    }
}

/// The number that starts at `pos`, with an optional `-` before it.
pub open spec fn integer_at(s: Seq<char>, pos: nat) -> Option<(i64, nat)> {
    if pos < s.len() && s[pos as int] == '-' {
        match number_at(s, pos + 1) {
            Some((v, end)) => Some(((-v) as i64, end)),
            None => None,
        }
    } else {
        number_at(s, pos)
    }
}

/// The character that an escape stands for.
pub open spec fn escape(c: char) -> Option<char> {
    if c == 'n' {
        Some('\n')
    } else if c == 't' {
        Some('\t')
    } else if c == 'r' {
        Some('\r')
    } else if c == '0' {
        Some('\0')
    } else if c == '\\' || c == '"' || c == '\'' {
        Some(c)
    } else {
        None
    }
}

/// The rest of a string literal from `pos` on, which lies after the opening
/// quote: the text so far is `acc`. Gives the text of the literal and the
/// position after its closing quote.
pub open spec fn string_at(s: Seq<char>, pos: nat, acc: Seq<char>) -> Option<(Seq<char>, nat)>
    decreases s.len() - pos,
{
    if pos >= s.len() {
        None
    } else if s[pos as int] == '"' {
        Some((acc, pos + 1))
    } else if s[pos as int] == '\\' {
        if pos + 1 < s.len() {
            match escape(s[pos as int + 1]) {
                Some(c) => string_at(s, pos + 2, acc.push(c)),
                None => None,
            }
        } else {
            None
        }
    } else {
        string_at(s, pos + 1, acc.push(s[pos as int]))
    }
}

/// Whether `c` stands at `pos`.
pub open spec fn has(s: Seq<char>, pos: nat, c: char) -> bool {
    pos < s.len() && s[pos as int] == c
}

/// The punctuation token that starts at `pos`: the longest that fits.
pub open spec fn punctuation_at(s: Seq<char>, pos: nat) -> Option<(Tok, nat)> {
    if pos >= s.len() {
        None
    } else {
        let c = s[pos as int];
        if c == '.' {
            Some((Tok::Dot, pos + 1))
        } else if c == ';' {
            Some((Tok::Semi, pos + 1))
        } else if c == ',' {
            Some((Tok::Comma, pos + 1))
        } else if c == '{' {
            Some((Tok::LBrace, pos + 1))
        } else if c == '}' {
            Some((Tok::RBrace, pos + 1))
        } else if c == '(' {
            Some((Tok::LParen, pos + 1))
        } else if c == ')' {
            Some((Tok::RParen, pos + 1))
        } else if c == '[' {
            if has(s, pos + 1, '&') && has(s, pos + 2, ']') {
                Some((Tok::IAnd, pos + 3))
            } else if has(s, pos + 1, '|') && has(s, pos + 2, ']') {
                Some((Tok::IOr, pos + 3))
            } else {
                Some((Tok::LBracket, pos + 1))
            }
        } else if c == ']' {
            Some((Tok::RBracket, pos + 1))
        } else if c == '+' {
            Some((Tok::Plus, pos + 1))
        } else if c == '-' {
            if has(s, pos + 1, '>') {
                Some((Tok::Arrow, pos + 2))
            } else {
                Some((Tok::Dash, pos + 1))
            }
        } else if c == '*' {
            Some((Tok::Star, pos + 1))
        } else if c == '=' {
            if has(s, pos + 1, '=') {
                Some((Tok::Eqeq, pos + 2))
            } else {
                Some((Tok::Eq, pos + 1))
            }
        } else if c == '!' {
            if has(s, pos + 1, '=') {
                Some((Tok::BangEq, pos + 2))
            } else {
                Some((Tok::Bang, pos + 1))
            }
        } else if c == '~' {
            Some((Tok::Tilde, pos + 1))
        } else if c == '<' {
            if has(s, pos + 1, '<') {
                Some((Tok::Ltlt, pos + 2))
            } else if has(s, pos + 1, '=') {
                Some((Tok::Lteq, pos + 2))
            } else {
                Some((Tok::Lt, pos + 1))
            }
        } else if c == '>' {
            if has(s, pos + 1, '>') {
                if has(s, pos + 2, '>') {
                    Some((Tok::Gtgtgt, pos + 3))
                } else {
                    Some((Tok::Gtgt, pos + 2))
                }
            } else if has(s, pos + 1, '=') {
                Some((Tok::Gteq, pos + 2))
            } else {
                Some((Tok::Gt, pos + 1))
            }
        } else if c == '&' {
            Some((Tok::Ampersand, pos + 1))
        } else if c == '|' {
            Some((Tok::Bar, pos + 1))
        } else if c == '?' {
            Some((Tok::Question, pos + 1))
        } else {
            None
        }
    }
}

/// The token that starts at `pos`, and the position after it. A word is a
/// reserved word or an identifier; `if` directly followed by `?` is one token.
pub open spec fn token_at(s: Seq<char>, pos: nat) -> Option<(Tok, nat)> {
    if pos >= s.len() {
        None
    } else if is_alpha(s[pos as int]) || s[pos as int] == '_' {
        let end = word_end(s, pos + 1);
        let word = s.subrange(pos as int, end as int);
        match keyword(word) {
            Some(Tok::If) => if has(s, end, '?') {
                Some((Tok::Ifq, end + 1))
            } else {
                Some((Tok::If, end))
            },
            Some(t) => Some((t, end)),
            None => Some((Tok::Ident(word), end)),
        }
    } else if is_digit(s[pos as int]) {
        match number_at(s, pos) {
            Some((v, end)) => Some((Tok::Int(v), end)),
            None => None,
        }
    } else if s[pos as int] == '"' {
        match string_at(s, pos + 1, Seq::empty()) {
            Some((text, end)) => Some((Tok::String(text), end)),
            None => None,
        }
    } else {
        punctuation_at(s, pos)
    }
}

/// The tokens of the text from `pos` on, each with the position at which it
/// starts, after the tokens `acc`. Fails with the position of the first
/// character that is no space and starts no token.
pub open spec fn tokens_from(s: Seq<char>, pos: nat, acc: Seq<(Tok, nat)>) -> Result<
    Seq<(Tok, nat)>,
    nat,
>
    decreases s.len() - pos,
{
    let start = skip_spaces(s, pos);
    if start >= s.len() {
        Ok(acc)
    } else {
        match token_at(s, start) {
            Some((t, end)) => if pos <= start && start < end && end <= s.len() {
                tokens_from(s, end, acc.push((t, start)))
            } else {
                Err(start)
            },
            None => Err(start),
        }
    }
}

/// The tokens of a text, each with the position at which it starts.
pub open spec fn lex(s: Seq<char>) -> Result<Seq<(Tok, nat)>, nat> {
    tokens_from(s, 0, Seq::empty())
}

/// A number found by the lexer, with the position after it as a natural
/// number.
pub open spec fn found(r: Option<(i64, usize)>) -> Option<(i64, nat)> {
    match r {
        Some((v, end)) => Some((v, end as nat)),
        None => None,
    }
}

/// The characters of a string.
pub fn characters(input: &str) -> (out: Vec<char>)
    ensures
        out@ == input@,
{
    let mut out: Vec<char> = Vec::new();
    for c in iter: input.chars()
        invariant
            iter.seq() == input@,
            out@ == iter.seq().subrange(0, iter.index() as int),
    {
        out.push(c);
    }
    out
}

/// `String::push`: appends one character to a string.
#[verifier::external_body]
pub(crate) fn push_char(s: &mut String, c: char)
    ensures
        final(s)@ == old(s)@.push(c),
{
    s.push(c)
}

/// The string of the characters from `start` up to `end`.
pub(crate) fn substring(chars: &Vec<char>, start: usize, end: usize) -> (out: String)
    requires
        start <= end <= chars@.len(),
    ensures
        out@ == chars@.subrange(start as int, end as int),
{
    let mut out = String::new();
    let mut i: usize = start;
    while i < end
        invariant
            start <= i <= end <= chars@.len(),
            out@ == chars@.subrange(start as int, i as int),
        decreases end - i,
    {
        push_char(&mut out, chars[i]);
        assert(chars@.subrange(start as int, i + 1) =~= chars@.subrange(start as int, i as int).push(
            chars@[i as int],
        ));
        i += 1;
    }
    out
}

/// Skips spaces: returns the first position from `pos` on that holds none.
pub fn ws(chars: &Vec<char>, pos: usize) -> (end: usize)
    ensures
        end == skip_spaces(chars@, pos as nat),
        pos <= end,
        pos <= chars@.len() ==> end <= chars@.len(),
{
    let mut i: usize = pos;
    while i < chars.len() && (chars[i] == ' ' || chars[i] == '\t' || chars[i] == '\n' || chars[i]
        == '\r')
        invariant
            pos <= i,
            pos <= chars@.len() ==> i <= chars@.len(),
            skip_spaces(chars@, pos as nat) == skip_spaces(chars@, i as nat),
        decreases chars.len() - i,
    {
        i += 1;
    }
    i
}

fn is_alpha_char(c: char) -> (r: bool)
    ensures
        r == is_alpha(c),
{
    ('a' <= c && c <= 'z') || ('A' <= c && c <= 'Z')
}

fn is_digit_char(c: char) -> (r: bool)
    ensures
        r == is_digit(c),
{
    '0' <= c && c <= '9'
}

fn scan_word(chars: &Vec<char>, pos: usize) -> (end: usize)
    requires
        pos <= chars@.len(),
    ensures
        end == word_end(chars@, pos as nat),
        pos <= end <= chars@.len(),
{
    let mut i: usize = pos;
    while i < chars.len() && (is_alpha_char(chars[i]) || is_digit_char(chars[i]) || chars[i] == '_')
        invariant
            pos <= i <= chars@.len(),
            word_end(chars@, pos as nat) == word_end(chars@, i as nat),
        decreases chars.len() - i,
    {
        i += 1;
    }
    i
}

/// Whether the characters from `start` up to `end` spell `word`.
fn spells(chars: &Vec<char>, start: usize, end: usize, word: &str) -> (r: bool)
    requires
        start <= end <= chars@.len(),
    ensures
        r == (chars@.subrange(start as int, end as int) == word@),
{
    let n = word.unicode_len();
    if end - start != n {
        return false;
    }
    let ghost part = chars@.subrange(start as int, end as int);
    let mut i: usize = 0;
    while i < n
        invariant
            i <= n,
            n == word@.len(),
            n == end - start,
            start <= end <= chars@.len(),
            part == chars@.subrange(start as int, end as int),
            forall|j: int| 0 <= j < i ==> part[j] == word@[j],
        decreases n - i,
    {
        if word.get_char(i) != chars[start + i] {
            assert(part[i as int] != word@[i as int]);
            return false;
        }
        i += 1;
    }
    assert(part =~= word@);
    true
}

fn lex_keyword(chars: &Vec<char>, start: usize, end: usize) -> (r: Option<Token>)
    requires
        start <= end <= chars@.len(),
    ensures
        match r {
            Some(t) => keyword(chars@.subrange(start as int, end as int)) == Some(t@),
            None => keyword(chars@.subrange(start as int, end as int)).is_none(),
        },
{
    if spells(chars, start, end, "struct") {
        Some(Token::Struct)
    } else if spells(chars, start, end, "null") || spells(chars, start, end, "NULL") {
        Some(Token::Null)
    } else if spells(chars, start, end, "void") {
        Some(Token::TVoid)
    } else if spells(chars, start, end, "int") {
        Some(Token::TInt)
    } else if spells(chars, start, end, "string") {
        Some(Token::TString)
    } else if spells(chars, start, end, "bool") {
        Some(Token::TBool)
    } else if spells(chars, start, end, "else") {
        Some(Token::Else)
    } else if spells(chars, start, end, "if") {
        Some(Token::If)
    } else if spells(chars, start, end, "for") {
        Some(Token::For)
    } else if spells(chars, start, end, "while") {
        Some(Token::While)
    } else if spells(chars, start, end, "var") {
        Some(Token::Var)
    } else if spells(chars, start, end, "return") {
        Some(Token::Return)
    } else if spells(chars, start, end, "global") {
        Some(Token::Global)
    } else if spells(chars, start, end, "length") {
        Some(Token::Length)
    } else if spells(chars, start, end, "new") {
        Some(Token::New)
    } else if spells(chars, start, end, "true") {
        Some(Token::True)
    } else if spells(chars, start, end, "false") {
        Some(Token::False)
    } else {
        None
    }
}

fn digit_value(c: char, base: u32) -> (r: Option<u32>)
    requires
        2 <= base <= 16,
    ensures
        match r {
            Some(d) => digit_of(c, base as nat) == Some(d as nat) && d < base,
            None => digit_of(c, base as nat).is_none(),
        },
{
    let value: u32 = if '0' <= c && c <= '9' {
        c as u32 - '0' as u32
    } else if 'a' <= c && c <= 'f' {
        c as u32 - 'a' as u32 + 10
    } else if 'A' <= c && c <= 'F' {
        c as u32 - 'A' as u32 + 10
    } else {
        16
    };
    if value < base {
        Some(value)
    } else {
        None
    }
}

/// Appending digits never makes a number smaller.
pub proof fn lemma_digits_value_grows(s: Seq<char>, pos: nat, base: nat, acc: nat)
    requires
        base >= 1,
    ensures
        digits_value(s, pos, base, acc) >= acc,
    decreases s.len() - pos,
{
    if pos < s.len() && (digit_of(s[pos as int], base).is_some() || s[pos as int] == '_') {
        match digit_of(s[pos as int], base) {
            Some(d) => {
                assert(acc * base + d >= acc) by (nonlinear_arith)
                    requires
                        base >= 1,
                ;
                lemma_digits_value_grows(s, pos + 1, base, acc * base + d);
            },
            None => {
                lemma_digits_value_grows(s, pos + 1, base, acc);
            },
        }
    }
}

fn lex_digits(chars: &Vec<char>, pos: usize, base: u32) -> (r: Option<(i64, usize)>)
    requires
        2 <= base <= 16,
    ensures
        found(r) == digits_at(chars@, pos as nat, base as nat),
        r matches Some((_, end)) ==> pos < end <= chars@.len(),
{
    if pos >= chars.len() {
        return None;
    }
    if digit_value(chars[pos], base).is_none() {
        return None;
    }
    let ghost s = chars@;
    let ghost b = base as nat;
    let mut acc: u64 = 0;
    let ghost mut exact: nat = 0;
    let mut overflow = false;
    let mut i: usize = pos;
    while i < chars.len() && (digit_value(chars[i], base).is_some() || chars[i] == '_')
        invariant
            pos <= i <= chars@.len(),
            2 <= base <= 16,
            s == chars@,
            b == base as nat,
            i == pos ==> acc == 0 && !overflow,
            digits_end(s, pos as nat, b) == digits_end(s, i as nat, b),
            digits_value(s, pos as nat, b, 0) == digits_value(s, i as nat, b, exact),
            !overflow ==> acc == exact && acc <= i64::MAX,
            overflow ==> exact > i64::MAX,
        decreases chars.len() - i,
    {
        match digit_value(chars[i], base) {
            Some(d) => {
                proof {
                    assert(exact * b + d >= exact) by (nonlinear_arith)
                        requires
                            b >= 1,
                    ;
                }
                if !overflow {
                    assert(acc * base <= 0x7fff_ffff_ffff_ffff * 16) by (nonlinear_arith)
                        requires
                            acc <= 0x7fff_ffff_ffff_ffff,
                            base <= 16,
                    ;
                    let wide: u128 = (acc as u128) * (base as u128) + (d as u128);
                    if wide > 0x7fff_ffff_ffff_ffff {
                        overflow = true;
                    } else {
                        acc = wide as u64;
                    }
                }
                proof {
                    exact = exact * b + d as nat;
                }
            },
            None => {},
        }
        i += 1;
    }
    proof {
        lemma_digits_value_grows(s, i as nat, b, exact);
    }
    if overflow {
        None
    } else {
        Some((acc as i64, i))
    }
}

fn lex_prefixed(chars: &Vec<char>, pos: usize, base: u32, lower: char, upper: char) -> (r: Option<
    (i64, usize),
>)
    requires
        2 <= base <= 16,
    ensures
        found(r) == prefixed_at(chars@, pos as nat, base as nat, lower, upper),
        r matches Some((_, end)) ==> pos < end <= chars@.len(),
{
    if pos < chars.len() && chars.len() - pos > 1 && chars[pos] == '0' && (chars[pos + 1] == lower
        || chars[pos + 1] == upper) {
        lex_digits(chars, pos + 2, base)
    } else {
        None
    }
}

fn lex_number(chars: &Vec<char>, pos: usize) -> (r: Option<(i64, usize)>)
    ensures
        found(r) == number_at(chars@, pos as nat),
        r matches Some((_, end)) ==> pos < end <= chars@.len(),
{
    match lex_prefixed(chars, pos, 16, 'x', 'X') {
        Some(r) => Some(r),
        None => match lex_prefixed(chars, pos, 8, 'o', 'O') {
            Some(r) => Some(r),
            None => match lex_prefixed(chars, pos, 2, 'b', 'B') {
                Some(r) => Some(r),
                None => lex_digits(chars, pos, 10),
            },
        },
    }
}

/// The integer written at `pos`, with the position after it: an optional
/// `-`, then a number in decimal or, after `0x`, `0o` or `0b`, in
/// hexadecimal, octal or binary. `None` when no number stands there or the
/// number does not fit.
pub fn parse_int_at(chars: &Vec<char>, pos: usize) -> (r: Option<(i64, usize)>)
    ensures
        found(r) == integer_at(chars@, pos as nat),
        r matches Some((_, end)) ==> pos < end <= chars@.len(),
{
    if pos < chars.len() && chars[pos] == '-' {
        match lex_number(chars, pos + 1) {
            Some((v, end)) => Some((-v, end)),
            None => None,
        }
    } else {
        lex_number(chars, pos)
    }
}

/// The integer written at the start of `input`, with the number of
/// characters that it takes.
pub fn parse_int(input: &str) -> (r: Option<(i64, usize)>)
    ensures
        found(r) == integer_at(input@, 0),
{
    let chars = characters(input);
    parse_int_at(&chars, 0)
}

fn lex_escape(c: char) -> (r: Option<char>)
    ensures
        r == escape(c),
{
    if c == 'n' {
        Some('\n')
    } else if c == 't' {
        Some('\t')
    } else if c == 'r' {
        Some('\r')
    } else if c == '0' {
        Some('\0')
    } else if c == '\\' || c == '"' || c == '\'' {
        Some(c)
    } else {
        None
    }
}

fn lex_string(chars: &Vec<char>, pos: usize) -> (r: Option<(String, usize)>)
    requires
        pos <= chars@.len(),
    ensures
        match r {
            Some((text, end)) => string_at(chars@, pos as nat, Seq::empty()) == Some(
                (text@, end as nat),
            ) && pos < end <= chars@.len(),
            None => string_at(chars@, pos as nat, Seq::empty()).is_none(),
        },
{
    let ghost s = chars@;
    let mut text = String::new();
    let mut i: usize = pos;
    while i < chars.len()
        invariant
            pos <= i <= chars@.len(),
            s == chars@,
            string_at(s, pos as nat, Seq::empty()) == string_at(s, i as nat, text@),
        decreases chars.len() - i,
    {
        let c = chars[i];
        if c == '"' {
            return Some((text, i + 1));
        } else if c == '\\' {
            if chars.len() - i > 1 {
                match lex_escape(chars[i + 1]) {
                    Some(e) => {
                        push_char(&mut text, e);
                        i += 2;
                    },
                    None => { return None; },
                }
            } else {
                return None;
            }
        } else {
            push_char(&mut text, c);
            i += 1;
        }
    }
    None
}

fn at(chars: &Vec<char>, pos: usize, offset: usize, c: char) -> (r: bool)
    requires
        pos < chars@.len(),
        offset <= 2,
    ensures
        r == has(chars@, (pos + offset) as nat, c),
{
    chars.len() - pos > offset && chars[pos + offset] == c
}

fn lex_punctuation(chars: &Vec<char>, pos: usize) -> (r: Option<(Token, usize)>)
    ensures
        match r {
            Some((t, end)) => punctuation_at(chars@, pos as nat) == Some((t@, end as nat)) && pos < end
                <= chars@.len(),
            None => punctuation_at(chars@, pos as nat).is_none(),
        },
{
    if pos >= chars.len() {
        return None;
    }
    let c = chars[pos];
    if c == '.' {
        Some((Token::Dot, pos + 1))
    } else if c == ';' {
        Some((Token::Semi, pos + 1))
    } else if c == ',' {
        Some((Token::Comma, pos + 1))
    } else if c == '{' {
        Some((Token::LBrace, pos + 1))
    } else if c == '}' {
        Some((Token::RBrace, pos + 1))
    } else if c == '(' {
        Some((Token::LParen, pos + 1))
    } else if c == ')' {
        Some((Token::RParen, pos + 1))
    } else if c == '[' {
        if at(chars, pos, 1, '&') && at(chars, pos, 2, ']') {
            Some((Token::IAnd, pos + 3))
        } else if at(chars, pos, 1, '|') && at(chars, pos, 2, ']') {
            Some((Token::IOr, pos + 3))
        } else {
            Some((Token::LBracket, pos + 1))
        }
    } else if c == ']' {
        Some((Token::RBracket, pos + 1))
    } else if c == '+' {
        Some((Token::Plus, pos + 1))
    } else if c == '-' {
        if at(chars, pos, 1, '>') {
            Some((Token::Arrow, pos + 2))
        } else {
            Some((Token::Dash, pos + 1))
        }
    } else if c == '*' {
        Some((Token::Star, pos + 1))
    } else if c == '=' {
        if at(chars, pos, 1, '=') {
            Some((Token::Eqeq, pos + 2))
        } else {
            Some((Token::Eq, pos + 1))
        }
    } else if c == '!' {
        if at(chars, pos, 1, '=') {
            Some((Token::BangEq, pos + 2))
        } else {
            Some((Token::Bang, pos + 1))
        }
    } else if c == '~' {
        Some((Token::Tilde, pos + 1))
    } else if c == '<' {
        if at(chars, pos, 1, '<') {
            Some((Token::Ltlt, pos + 2))
        } else if at(chars, pos, 1, '=') {
            Some((Token::Lteq, pos + 2))
        } else {
            Some((Token::Lt, pos + 1))
        }
    } else if c == '>' {
        if at(chars, pos, 1, '>') {
            if at(chars, pos, 2, '>') {
                Some((Token::Gtgtgt, pos + 3))
            } else {
                Some((Token::Gtgt, pos + 2))
            }
        } else if at(chars, pos, 1, '=') {
            Some((Token::Gteq, pos + 2))
        } else {
            Some((Token::Gt, pos + 1))
        }
    } else if c == '&' {
        Some((Token::Ampersand, pos + 1))
    } else if c == '|' {
        Some((Token::Bar, pos + 1))
    } else if c == '?' {
        Some((Token::Question, pos + 1))
    } else {
        None
    }
}

/// The token that starts at `pos`, and the position after it.
pub fn next_token(chars: &Vec<char>, pos: usize) -> (r: Option<(Token, usize)>)
    ensures
        match r {
            Some((t, end)) => token_at(chars@, pos as nat) == Some((t@, end as nat)) && pos < end
                <= chars@.len(),
            None => token_at(chars@, pos as nat).is_none(),
        },
{
    if pos >= chars.len() {
        return None;
    }
    let c = chars[pos];
    if is_alpha_char(c) || c == '_' {
        let end = scan_word(chars, pos + 1);
        match lex_keyword(chars, pos, end) {
            Some(Token::If) => if end < chars.len() && chars[end] == '?' {
                Some((Token::Ifq, end + 1))
            } else {
                Some((Token::If, end))
            },
            Some(t) => Some((t, end)),
            None => Some((Token::Ident(substring(chars, pos, end)), end)),
        }
    } else if is_digit_char(c) {
        match lex_number(chars, pos) {
            Some((v, end)) => Some((Token::Int(v), end)),
            None => None,
        }
    } else if c == '"' {
        match lex_string(chars, pos + 1) {
            Some((text, end)) => Some((Token::String(text), end)),
            None => None,
        }
    } else {
        lex_punctuation(chars, pos)
    }
}

/// The tokens of a text with the positions at which they start, paired.
pub open spec fn lexemes(tokens: Seq<Token>, offsets: Seq<usize>) -> Seq<(Tok, nat)> {
    Seq::new(tokens.len(), |i: int| (tokens[i]@, offsets[i] as nat))
}

/// The tokens of a text, and the position at which each starts. Fails with
/// the position of the first character that is no space and starts no token.
pub fn scan(chars: &Vec<char>) -> (r: Result<(Vec<Token>, Vec<usize>), usize>)
    ensures
        match r {
            Ok((tokens, offsets)) => tokens@.len() == offsets@.len() && lex(chars@) == Ok::<
                Seq<(Tok, nat)>,
                nat,
            >(lexemes(tokens@, offsets@)) && forall|i: int|
                0 <= i < offsets@.len() ==> offsets@[i] < chars@.len(),
            Err(position) => lex(chars@) == Err::<Seq<(Tok, nat)>, nat>(position as nat),
        },
{
    let mut tokens: Vec<Token> = Vec::new();
    let mut offsets: Vec<usize> = Vec::new();
    let mut pos: usize = 0;
    assert(lexemes(tokens@, offsets@) =~= Seq::empty());
    loop
        invariant
            pos <= chars@.len(),
            tokens@.len() == offsets@.len(),
            forall|i: int| 0 <= i < offsets@.len() ==> offsets@[i] < chars@.len(),
            lex(chars@) == tokens_from(chars@, pos as nat, lexemes(tokens@, offsets@)),
        decreases chars@.len() - pos,
    {
        let start = ws(chars, pos);
        if start >= chars.len() {
            return Ok((tokens, offsets));
        }
        match next_token(chars, start) {
            Some((t, end)) => {
                let ghost before = lexemes(tokens@, offsets@);
                let ghost tv = t@;
                tokens.push(t);
                offsets.push(start);
                assert(lexemes(tokens@, offsets@) =~= before.push((tv, start as nat)));
                pos = end;
            },
            None => { return Err(start); },
        }
    }
}

/// The tokens of a text. Fails with the position of the first character
/// that is no space and starts no token.
pub fn tokenize(input: &str) -> (r: Result<Vec<Token>, ParseError>)
    ensures
        match r {
            Ok(tokens) => lex(input@) matches Ok(found) && found.len() == tokens@.len() && forall|
                i: int,
            |
                0 <= i < found.len() ==> found[i].0 == tokens@[i]@,
            Err(e) => lex(input@) matches Err(position) && e@ == SyntaxError::ParserError(position),
        },
{
    let chars = characters(input);
    match scan(&chars) {
        Ok((tokens, _)) => Ok(tokens),
        Err(position) => Err(ParseError::ParserError(position)),
    }
}

} // verus!
