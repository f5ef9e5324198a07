//! Tokens written as text, and lexed again.
//!
//! `tokens_text` writes tokens as a text, each followed by a blank. The
//! lexer reads that text as the tokens that were written, where each
//! identifier among them is a word that is not reserved, and no number is
//! negative.

use crate::lexer::{
    digit_of, digits_at, digits_end, digits_value, has, is_alpha, is_digit, is_space,
    is_word_char, keyword, lex, number_at, prefixed_at, skip_spaces, string_at, token_at,
    tokens_from, word_end,
};
use crate::parser::kinds;
use crate::tokens::Tok;
use vstd::prelude::*;

verus! {

/// Whether the characters `w` stand at `pos`.
pub open spec fn stands(s: Seq<char>, pos: nat, w: Seq<char>) -> bool {
    &&& pos + w.len() <= s.len()
    &&& forall|j: int| 0 <= j < w.len() ==> s[pos + j] == #[trigger] w[j]
}

/// Where two pieces stand one after the other, each stands.
pub proof fn lemma_stands_split(s: Seq<char>, pos: nat, a: Seq<char>, b: Seq<char>)
    requires
        stands(s, pos, a + b),
    ensures
        stands(s, pos, a),
        stands(s, pos + a.len(), b),
{
    let w = a + b;
    assert forall|j: int| 0 <= j < a.len() implies s[pos + j] == #[trigger] a[j] by {
        assert(w[j] == a[j]);
    }
    assert forall|j: int| 0 <= j < b.len() implies s[pos + a.len() + j] == #[trigger] b[j] by {
        assert(w[a.len() + j] == b[j]);
    }
}

/// The character that writes a digit.
pub open spec fn digit_char(d: nat) -> char {
    if d == 0 {
        '0'
    } else if d == 1 {
        '1'
    } else if d == 2 {
        '2'
    } else if d == 3 {
        '3'
    } else if d == 4 {
        '4'
    } else if d == 5 {
        '5'
    } else if d == 6 {
        '6'
    } else if d == 7 {
        '7'
    } else if d == 8 {
        '8'
    } else {
        '9'
    }
}

/// A number, written in decimal digits.
pub open spec fn digits(n: nat) -> Seq<char>
    decreases n,
{
    if n < 10 {
        seq![digit_char(n)]
    } else {
        digits(n / 10).push(digit_char(n % 10))
    }
}

/// The text of a string from position `i` on, as it stands between the
/// quotes of a literal: a quote and a backslash are written after a
/// backslash.
pub open spec fn quoted(text: Seq<char>, i: nat) -> Seq<char>
    decreases text.len() - i,
{
    if i >= text.len() {
        Seq::empty()
    } else if text[i as int] == '"' || text[i as int] == '\\' {
        seq!['\\', text[i as int]] + quoted(text, i + 1)
    } else {
        seq![text[i as int]] + quoted(text, i + 1)
    }
}

/// A token, written as text.
pub open spec fn token_text(k: Tok) -> Seq<char> {
    match k {
        Tok::Struct => "struct"@,
        Tok::Null => "null"@,
        Tok::TVoid => "void"@,
        Tok::TInt => "int"@,
        Tok::TString => "string"@,
        Tok::Else => "else"@,
        Tok::If => "if"@,
        Tok::Ifq => "if?"@,
        Tok::While => "while"@,
        Tok::Return => "return"@,
        Tok::Var => "var"@,
        Tok::Global => "global"@,
        Tok::Length => "length"@,
        Tok::Dot => "."@,
        Tok::Semi => ";"@,
        Tok::Comma => ","@,
        Tok::LBrace => "{"@,
        Tok::RBrace => "}"@,
        Tok::Plus => "+"@,
        Tok::Dash => "-"@,
        Tok::Star => "*"@,
        Tok::Eq => "="@,
        Tok::Eqeq => "=="@,
        Tok::Bang => "!"@,
        Tok::Tilde => "~"@,
        Tok::LParen => "("@,
        Tok::RParen => ")"@,
        Tok::LBracket => "["@,
        Tok::RBracket => "]"@,
        Tok::For => "for"@,
        Tok::New => "new"@,
        Tok::True => "true"@,
        Tok::False => "false"@,
        Tok::TBool => "bool"@,
        Tok::Ltlt => "<<"@,
        Tok::Gtgt => ">>"@,
        Tok::Gtgtgt => ">>>"@,
        Tok::BangEq => "!="@,
        Tok::Lt => "<"@,
        Tok::Lteq => "<="@,
        Tok::Gt => ">"@,
        Tok::Gteq => ">="@,
        Tok::Ampersand => "&"@,
        Tok::Bar => "|"@,
        Tok::IAnd => "[&]"@,
        Tok::IOr => "[|]"@,
        Tok::Arrow => "->"@,
        Tok::Question => "?"@,
        Tok::String(text) => seq!['"'] + quoted(text, 0).push('"'),
        Tok::Ident(word) => word,
        Tok::Int(v) => if v >= 0 {
            digits(v as nat)
        } else {
            seq!['-'] + digits((-v) as nat)
        },
    }
}

/// Whether the characters are a word that is not reserved: an identifier.
pub open spec fn is_identifier(word: Seq<char>) -> bool {
    &&& word.len() > 0
    &&& is_alpha(word[0]) || word[0] == '_'
    &&& forall|j: int| 0 <= j < word.len() ==> is_word_char(#[trigger] word[j])
    &&& keyword(word) is None
}

/// Whether the lexer can give the token: its word is an identifier, or
/// its number is not negative.
pub open spec fn lexable(k: Tok) -> bool {
    match k {
        Tok::Ident(word) => is_identifier(word),
        Tok::Int(v) => v >= 0,
        _ => true,
    }
}

/// A word ends where its characters end.
pub proof fn lemma_word_end(s: Seq<char>, pos: nat, end: nat)
    requires
        pos <= end <= s.len(),
        forall|i: int| pos <= i < end ==> is_word_char(#[trigger] s[i]),
        end == s.len() || !is_word_char(s[end as int]),
    ensures
        word_end(s, pos) == end,
    decreases end - pos,
{
    if pos < end {
        assert(is_word_char(s[pos as int]));
        lemma_word_end(s, pos + 1, end);
    }
}

/// A word that a blank follows is read as the reserved word that it
/// spells, or as an identifier.
pub proof fn lemma_word_read(s: Seq<char>, pos: nat, word: Seq<char>)
    requires
        stands(s, pos, word),
        has(s, pos + word.len(), ' '),
        word.len() > 0,
        is_alpha(word[0]) || word[0] == '_',
        forall|j: int| 0 <= j < word.len() ==> is_word_char(#[trigger] word[j]),
    ensures
        token_at(s, pos) == Some(
            (
                match keyword(word) {
                    Some(k) => k,
                    None => Tok::Ident(word),
                },
                pos + word.len(),
            ),
        ),
{
    let end = pos + word.len();
    assert(s[pos as int + 0] == word[0]);
    assert forall|i: int| pos + 1 <= i < end implies is_word_char(#[trigger] s[i]) by {
        assert(s[pos as int + (i - pos)] == word[i - pos]);
    }
    lemma_word_end(s, pos + 1, end);
    assert(s.subrange(pos as int, end as int) =~= word);
}

/// Whether the token is a reserved word.
pub open spec fn reserved(k: Tok) -> bool {
    k == Tok::Struct || k == Tok::Null || k == Tok::TVoid || k == Tok::TInt || k == Tok::TString || k == Tok::TBool || k == Tok::Else || k == Tok::If || k == Tok::For || k == Tok::While || k == Tok::Var || k == Tok::Return || k == Tok::Global || k == Tok::Length || k == Tok::New || k == Tok::True || k == Tok::False
}

/// A reserved word is a word, and spells its token.
pub proof fn lemma_reserved(k: Tok)
    requires
        reserved(k),
    ensures
        token_text(k).len() > 0,
        is_alpha(token_text(k)[0]),
        forall|j: int| 0 <= j < token_text(k).len() ==> is_word_char(#[trigger] token_text(k)[j]),
        keyword(token_text(k)) == Some(k),
{
    reveal_strlit("struct");
    reveal_strlit("null");
    reveal_strlit("NULL");
    reveal_strlit("void");
    reveal_strlit("int");
    reveal_strlit("string");
    reveal_strlit("bool");
    reveal_strlit("else");
    reveal_strlit("if");
    reveal_strlit("for");
    reveal_strlit("while");
    reveal_strlit("var");
    reveal_strlit("return");
    reveal_strlit("global");
    reveal_strlit("length");
    reveal_strlit("new");
    reveal_strlit("true");
    reveal_strlit("false");
    match k {
        Tok::Struct => {
            assert(token_text(k) == "struct"@);
            assert(keyword("struct"@) == Some(Tok::Struct));
        },
        Tok::Null => {
            assert(token_text(k) == "null"@);
            assert(keyword("null"@) == Some(Tok::Null));
        },
        Tok::TVoid => {
            assert(token_text(k) == "void"@);
            assert("void"@[0] != "null"@[0]);
            assert("void"@[0] != "NULL"@[0]);
            assert(keyword("void"@) == Some(Tok::TVoid));
        },
        Tok::TInt => {
            assert(token_text(k) == "int"@);
            assert(keyword("int"@) == Some(Tok::TInt));
        },
        Tok::TString => {
            assert(token_text(k) == "string"@);
            assert("string"@[3] != "struct"@[3]);
            assert(keyword("string"@) == Some(Tok::TString));
        },
        Tok::TBool => {
            assert(token_text(k) == "bool"@);
            assert("bool"@[0] != "null"@[0]);
            assert("bool"@[0] != "NULL"@[0]);
            assert("bool"@[0] != "void"@[0]);
            assert(keyword("bool"@) == Some(Tok::TBool));
        },
        Tok::Else => {
            assert(token_text(k) == "else"@);
            assert("else"@[0] != "null"@[0]);
            assert("else"@[0] != "NULL"@[0]);
            assert("else"@[0] != "void"@[0]);
            assert("else"@[0] != "bool"@[0]);
            assert(keyword("else"@) == Some(Tok::Else));
        },
        Tok::If => {
            assert(token_text(k) == "if"@);
            assert(keyword("if"@) == Some(Tok::If));
        },
        Tok::For => {
            assert(token_text(k) == "for"@);
            assert("for"@[0] != "int"@[0]);
        },
        Tok::While => {
            assert(token_text(k) == "while"@);
        },
        Tok::Var => {
            assert(token_text(k) == "var"@);
            assert("var"@[0] != "int"@[0]);
            assert("var"@[0] != "for"@[0]);
        },
        Tok::Return => {
            assert(token_text(k) == "return"@);
            assert("return"@[0] != "struct"@[0]);
            assert("return"@[0] != "string"@[0]);
        },
        Tok::Global => {
            assert(token_text(k) == "global"@);
            assert("global"@[0] != "struct"@[0]);
            assert("global"@[0] != "string"@[0]);
            assert("global"@[0] != "return"@[0]);
        },
        Tok::Length => {
            assert(token_text(k) == "length"@);
            assert("length"@[0] != "struct"@[0]);
            assert("length"@[0] != "string"@[0]);
            assert("length"@[0] != "return"@[0]);
            assert("length"@[0] != "global"@[0]);
        },
        Tok::New => {
            assert(token_text(k) == "new"@);
            assert("new"@[0] != "int"@[0]);
            assert("new"@[0] != "for"@[0]);
            assert("new"@[0] != "var"@[0]);
        },
        Tok::True => {
            assert(token_text(k) == "true"@);
            assert("true"@[0] != "null"@[0]);
            assert("true"@[0] != "NULL"@[0]);
            assert("true"@[0] != "void"@[0]);
            assert("true"@[0] != "bool"@[0]);
            assert("true"@[0] != "else"@[0]);
        },
        Tok::False => {
            assert(token_text(k) == "false"@);
            assert("false"@[0] != "while"@[0]);
        },
        _ => {},
    }
}

/// A written reserved word that a blank follows is read as its token.
pub proof fn lemma_reserved_read(s: Seq<char>, pos: nat, k: Tok)
    requires
        reserved(k),
        stands(s, pos, token_text(k)),
        has(s, pos + token_text(k).len(), ' '),
    ensures
        token_at(s, pos) == Some((k, pos + token_text(k).len())),
{
    lemma_reserved(k);
    lemma_word_read(s, pos, token_text(k));
}

/// Whether the token is a mark: neither a word, a number nor a string.
pub open spec fn mark(k: Tok) -> bool {
    !reserved(k) && k != Tok::Ifq && !(k is Ident) && !(k is Int) && !(k is String)
}

/// A written mark of one character that a blank follows is read as its
/// token.
pub proof fn lemma_short_mark_read(s: Seq<char>, pos: nat, k: Tok)
    requires
        mark(k),
        token_text(k).len() == 1,
        stands(s, pos, token_text(k)),
        has(s, pos + token_text(k).len(), ' '),
    ensures
        token_at(s, pos) == Some((k, pos + token_text(k).len())),
        !is_space(s[pos as int]),
{
    match k {
        Tok::Dot => {
            reveal_strlit(".");
            assert(s[pos as int + 0] == "."@[0]);
        },
        Tok::Semi => {
            reveal_strlit(";");
            assert(s[pos as int + 0] == ";"@[0]);
        },
        Tok::Comma => {
            reveal_strlit(",");
            assert(s[pos as int + 0] == ","@[0]);
        },
        Tok::LBrace => {
            reveal_strlit("{");
            assert(s[pos as int + 0] == "{"@[0]);
        },
        Tok::RBrace => {
            reveal_strlit("}");
            assert(s[pos as int + 0] == "}"@[0]);
        },
        Tok::Plus => {
            reveal_strlit("+");
            assert(s[pos as int + 0] == "+"@[0]);
        },
        Tok::Dash => {
            reveal_strlit("-");
            assert(s[pos as int + 0] == "-"@[0]);
        },
        Tok::Star => {
            reveal_strlit("*");
            assert(s[pos as int + 0] == "*"@[0]);
        },
        Tok::Eq => {
            reveal_strlit("=");
            assert(s[pos as int + 0] == "="@[0]);
        },
        Tok::Bang => {
            reveal_strlit("!");
            assert(s[pos as int + 0] == "!"@[0]);
        },
        Tok::Tilde => {
            reveal_strlit("~");
            assert(s[pos as int + 0] == "~"@[0]);
        },
        Tok::LParen => {
            reveal_strlit("(");
            assert(s[pos as int + 0] == "("@[0]);
        },
        Tok::RParen => {
            reveal_strlit(")");
            assert(s[pos as int + 0] == ")"@[0]);
        },
        Tok::LBracket => {
            reveal_strlit("[");
            assert(s[pos as int + 0] == "["@[0]);
        },
        Tok::RBracket => {
            reveal_strlit("]");
            assert(s[pos as int + 0] == "]"@[0]);
        },
        Tok::Lt => {
            reveal_strlit("<");
            assert(s[pos as int + 0] == "<"@[0]);
        },
        Tok::Gt => {
            reveal_strlit(">");
            assert(s[pos as int + 0] == ">"@[0]);
        },
        Tok::Ampersand => {
            reveal_strlit("&");
            assert(s[pos as int + 0] == "&"@[0]);
        },
        Tok::Bar => {
            reveal_strlit("|");
            assert(s[pos as int + 0] == "|"@[0]);
        },
        Tok::Question => {
            reveal_strlit("?");
            assert(s[pos as int + 0] == "?"@[0]);
        },
        _ => {
            lemma_long_marks(k);
        },
    }
}

/// The marks of more than one character are longer than one character.
pub proof fn lemma_long_marks(k: Tok)
    requires
        mark(k),
    ensures
        token_text(k).len() >= 1,
        (k == Tok::Eqeq || k == Tok::Ltlt || k == Tok::Gtgt || k == Tok::Gtgtgt || k == Tok::BangEq
            || k == Tok::Lteq || k == Tok::Gteq || k == Tok::IAnd || k == Tok::IOr || k
            == Tok::Arrow) <==> token_text(k).len() > 1,
{
    reveal_strlit(".");
    reveal_strlit(";");
    reveal_strlit(",");
    reveal_strlit("{");
    reveal_strlit("}");
    reveal_strlit("+");
    reveal_strlit("-");
    reveal_strlit("*");
    reveal_strlit("=");
    reveal_strlit("!");
    reveal_strlit("~");
    reveal_strlit("(");
    reveal_strlit(")");
    reveal_strlit("[");
    reveal_strlit("]");
    reveal_strlit("<");
    reveal_strlit(">");
    reveal_strlit("&");
    reveal_strlit("|");
    reveal_strlit("?");
    reveal_strlit("==");
    reveal_strlit("<<");
    reveal_strlit(">>");
    reveal_strlit(">>>");
    reveal_strlit("!=");
    reveal_strlit("<=");
    reveal_strlit(">=");
    reveal_strlit("[&]");
    reveal_strlit("[|]");
    reveal_strlit("->");
}

/// A written mark of more than one character that a blank follows is read
/// as its token.
pub proof fn lemma_long_mark_read(s: Seq<char>, pos: nat, k: Tok)
    requires
        mark(k),
        token_text(k).len() > 1,
        stands(s, pos, token_text(k)),
        has(s, pos + token_text(k).len(), ' '),
    ensures
        token_at(s, pos) == Some((k, pos + token_text(k).len())),
        !is_space(s[pos as int]),
{
    lemma_long_marks(k);
    match k {
        Tok::Eqeq => {
            reveal_strlit("==");
            assert(s[pos as int + 0] == "=="@[0]);
            assert(s[pos as int + 1] == "=="@[1]);
        },
        Tok::Ltlt => {
            reveal_strlit("<<");
            assert(s[pos as int + 0] == "<<"@[0]);
            assert(s[pos as int + 1] == "<<"@[1]);
        },
        Tok::Gtgt => {
            reveal_strlit(">>");
            assert(s[pos as int + 0] == ">>"@[0]);
            assert(s[pos as int + 1] == ">>"@[1]);
        },
        Tok::Gtgtgt => {
            reveal_strlit(">>>");
            assert(s[pos as int + 0] == ">>>"@[0]);
            assert(s[pos as int + 1] == ">>>"@[1]);
            assert(s[pos as int + 2] == ">>>"@[2]);
        },
        Tok::BangEq => {
            reveal_strlit("!=");
            assert(s[pos as int + 0] == "!="@[0]);
            assert(s[pos as int + 1] == "!="@[1]);
        },
        Tok::Lteq => {
            reveal_strlit("<=");
            assert(s[pos as int + 0] == "<="@[0]);
            assert(s[pos as int + 1] == "<="@[1]);
        },
        Tok::Gteq => {
            reveal_strlit(">=");
            assert(s[pos as int + 0] == ">="@[0]);
            assert(s[pos as int + 1] == ">="@[1]);
        },
        Tok::IAnd => {
            reveal_strlit("[&]");
            assert(s[pos as int + 0] == "[&]"@[0]);
            assert(s[pos as int + 1] == "[&]"@[1]);
            assert(s[pos as int + 2] == "[&]"@[2]);
        },
        Tok::IOr => {
            reveal_strlit("[|]");
            assert(s[pos as int + 0] == "[|]"@[0]);
            assert(s[pos as int + 1] == "[|]"@[1]);
            assert(s[pos as int + 2] == "[|]"@[2]);
        },
        Tok::Arrow => {
            reveal_strlit("->");
            assert(s[pos as int + 0] == "->"@[0]);
            assert(s[pos as int + 1] == "->"@[1]);
        },
        _ => {},
    }
}

/// A written `if?` is read as its token.
pub proof fn lemma_cast_read(s: Seq<char>, pos: nat)
    requires
        stands(s, pos, token_text(Tok::Ifq)),
    ensures
        token_at(s, pos) == Some((Tok::Ifq, pos + 3)),
        token_text(Tok::Ifq).len() == 3,
        !is_space(s[pos as int]),
{
    reveal_strlit("if?");
    reveal_strlit("if");
    reveal_strlit("struct");
    reveal_strlit("null");
    reveal_strlit("NULL");
    reveal_strlit("void");
    reveal_strlit("int");
    reveal_strlit("string");
    reveal_strlit("bool");
    reveal_strlit("else");
    assert(s[pos as int + 0] == "if?"@[0]);
    assert(s[pos as int + 1] == "if?"@[1]);
    assert(s[pos as int + 2] == "if?"@[2]);
    assert(word_end(s, pos + 2) == pos + 2);
    assert(word_end(s, pos + 1) == pos + 2);
    assert(s.subrange(pos as int, pos as int + 2) =~= "if"@);
    assert(keyword("if"@) == Some(Tok::If));
}

/// A digit is written as a character that is read as that digit.
pub proof fn lemma_digit_char(d: nat)
    requires
        d < 10,
    ensures
        digit_of(digit_char(d), 10) == Some(d),
        is_digit(digit_char(d)),
        digit_char(d) != '_',
{
}

/// A number is written with at least one digit, and with digits only.
pub proof fn lemma_digits(n: nat)
    ensures
        digits(n).len() > 0,
        forall|j: int| 0 <= j < digits(n).len() ==> is_digit(#[trigger] digits(n)[j]),
    decreases n,
{
    if n < 10 {
        lemma_digit_char(n);
    } else {
        lemma_digits(n / 10);
        lemma_digit_char(n % 10);
        let w = digits(n);
        assert forall|j: int| 0 <= j < w.len() implies is_digit(#[trigger] w[j]) by {
            if j < w.len() - 1 {
                assert(w[j] == digits(n / 10)[j]);
            }
        }
    }
}

/// The digits of a written number are read as that number: reading them
/// from nothing is reading what follows them from the number.
pub proof fn lemma_digits_read(s: Seq<char>, pos: nat, n: nat)
    requires
        stands(s, pos, digits(n)),
    ensures
        digits_value(s, pos, 10, 0) == digits_value(s, pos + digits(n).len(), 10, n),
        digits_end(s, pos, 10) == digits_end(s, pos + digits(n).len(), 10),
    decreases n,
{
    let w = digits(n);
    if n < 10 {
        lemma_digit_char(n);
        assert(s[pos as int + 0] == w[0]);
    } else {
        let front = digits(n / 10);
        let last = seq![digit_char(n % 10)];
        assert(w =~= front + last);
        lemma_stands_split(s, pos, front, last);
        lemma_digits_read(s, pos, n / 10);
        lemma_digit_char(n % 10);
        let p = pos + front.len();
        assert(s[p as int + 0] == last[0]);
        assert(digits_value(s, p, 10, n / 10) == digits_value(s, p + 1, 10, (n / 10) * 10 + n % 10));
        assert((n / 10) * 10 + n % 10 == n);
        lemma_digits_front(s, pos, n);
    }
}

/// Where a written number stands, its digits end where the digits after
/// them end.
pub proof fn lemma_digits_front(s: Seq<char>, pos: nat, n: nat)
    requires
        stands(s, pos, digits(n)),
    ensures
        digits_end(s, pos, 10) == digits_end(s, pos + digits(n).len(), 10),
    decreases n,
{
    let w = digits(n);
    if n < 10 {
        lemma_digit_char(n);
        assert(s[pos as int + 0] == w[0]);
    } else {
        let front = digits(n / 10);
        let last = seq![digit_char(n % 10)];
        assert(w =~= front + last);
        lemma_stands_split(s, pos, front, last);
        lemma_digits_front(s, pos, n / 10);
        lemma_digit_char(n % 10);
        let p = pos + front.len();
        assert(s[p as int + 0] == last[0]);
        assert(digits_end(s, p, 10) == digits_end(s, p + 1, 10));
    }
}

/// A written number that a blank follows is read as its token.
pub proof fn lemma_number_read(s: Seq<char>, pos: nat, v: i64)
    requires
        v >= 0,
        stands(s, pos, digits(v as nat)),
        has(s, pos + digits(v as nat).len(), ' '),
    ensures
        token_at(s, pos) == Some((Tok::Int(v), pos + digits(v as nat).len())),
        !is_space(s[pos as int]),
{
    let w = digits(v as nat);
    let end = pos + w.len();
    lemma_digits(v as nat);
    lemma_digits_read(s, pos, v as nat);
    assert(s[pos as int + 0] == w[0]);
    assert(is_digit(w[0]));
    if w.len() > 1 {
        assert(s[pos as int + 1] == w[1]);
        assert(is_digit(w[1]));
    }
    assert(digit_of(s[end as int], 10) is None);
    assert(digits_value(s, end, 10, v as nat) == v as nat);
    assert(digits_end(s, end, 10) == end);
    assert(prefixed_at(s, pos, 16, 'x', 'X') is None);
    assert(prefixed_at(s, pos, 8, 'o', 'O') is None);
    assert(prefixed_at(s, pos, 2, 'b', 'B') is None);
    assert(digit_of(s[pos as int], 10) is Some);
    assert(digits_at(s, pos, 10) == Some((v, end)));
    assert(number_at(s, pos) == Some((v, end)));
}

/// The written text of a string from position `i` on, which a quote
/// follows, is read as the rest of the string.
pub proof fn lemma_quoted_read(s: Seq<char>, pos: nat, text: Seq<char>, i: nat, acc: Seq<char>)
    requires
        i <= text.len(),
        stands(s, pos, quoted(text, i)),
        has(s, pos + quoted(text, i).len(), '"'),
    ensures
        string_at(s, pos, acc) == Some(
            (acc + text.subrange(i as int, text.len() as int), pos + quoted(text, i).len() + 1),
        ),
    decreases text.len() - i,
{
    if i >= text.len() {
        assert(acc + text.subrange(i as int, text.len() as int) =~= acc);
    } else {
        let c = text[i as int];
        let rest = quoted(text, i + 1);
        if c == '"' || c == '\\' {
            let here = seq!['\\', c];
            lemma_stands_split(s, pos, here, rest);
            assert(s[pos as int + 0] == here[0]);
            assert(s[pos as int + 1] == here[1]);
            lemma_quoted_read(s, pos + 2, text, i + 1, acc.push(c));
        } else {
            let here = seq![c];
            lemma_stands_split(s, pos, here, rest);
            assert(s[pos as int + 0] == here[0]);
            lemma_quoted_read(s, pos + 1, text, i + 1, acc.push(c));
        }
        assert(acc.push(c) + text.subrange(i as int + 1, text.len() as int) =~= acc + text.subrange(
            i as int,
            text.len() as int,
        ));
    }
}

/// A written string is read as its token.
pub proof fn lemma_string_read(s: Seq<char>, pos: nat, text: Seq<char>)
    requires
        stands(s, pos, token_text(Tok::String(text))),
    ensures
        token_at(s, pos) == Some((Tok::String(text), pos + token_text(Tok::String(text)).len())),
        token_text(Tok::String(text)).len() > 0,
        !is_space(s[pos as int]),
{
    let open = seq!['"'];
    let inner = quoted(text, 0);
    let close = seq!['"'];
    assert(token_text(Tok::String(text)) =~= open + (inner + close));
    lemma_stands_split(s, pos, open, inner + close);
    lemma_stands_split(s, pos + 1, inner, close);
    assert(s[pos as int + 0] == open[0]);
    assert(s[pos as int + 1 + inner.len() + 0] == close[0]);
    lemma_quoted_read(s, pos + 1, text, 0, Seq::empty());
    assert(Seq::<char>::empty() + text.subrange(0, text.len() as int) =~= text);
}

/// A written token that a blank follows is read as that token.
pub proof fn lemma_token_read(s: Seq<char>, pos: nat, k: Tok)
    requires
        lexable(k),
        stands(s, pos, token_text(k)),
        has(s, pos + token_text(k).len(), ' '),
    ensures
        token_at(s, pos) == Some((k, pos + token_text(k).len())),
        token_text(k).len() > 0,
        !is_space(s[pos as int]),
{
    match k {
        Tok::Ident(word) => {
            lemma_word_read(s, pos, word);
            assert(s[pos as int + 0] == word[0]);
        },
        Tok::Int(v) => {
            lemma_number_read(s, pos, v);
            lemma_digits(v as nat);
        },
        Tok::String(text) => {
            lemma_string_read(s, pos, text);
        },
        Tok::Ifq => {
            lemma_cast_read(s, pos);
        },
        _ => {
            if reserved(k) {
                lemma_reserved(k);
                lemma_reserved_read(s, pos, k);
                assert(s[pos as int + 0] == token_text(k)[0]);
            } else {
                lemma_long_marks(k);
                if token_text(k).len() == 1 {
                    lemma_short_mark_read(s, pos, k);
                } else {
                    lemma_long_mark_read(s, pos, k);
                }
            }
        },
    }
}

/// Tokens from position `i` on, written as text: each is followed by a
/// blank.
pub open spec fn tokens_text(tokens: Seq<Tok>, i: nat) -> Seq<char>
    decreases tokens.len() - i,
{
    if i >= tokens.len() {
        Seq::empty()
    } else {
        token_text(tokens[i as int]).push(' ') + tokens_text(tokens, i + 1)
    }
}

/// Whether the lexer can give each of the tokens.
pub open spec fn all_lexable(tokens: Seq<Tok>) -> bool {
    forall|i: int| 0 <= i < tokens.len() ==> lexable(#[trigger] tokens[i])
}

/// The written tokens from position `i` on, with which the text ends, are
/// read as those tokens.
pub proof fn lemma_tokens_read(s: Seq<char>, pos: nat, tokens: Seq<Tok>, i: nat, acc: Seq<(Tok, nat)>)
    requires
        i <= tokens.len(),
        all_lexable(tokens),
        stands(s, pos, tokens_text(tokens, i)),
        pos + tokens_text(tokens, i).len() == s.len(),
    ensures
        tokens_from(s, pos, acc) is Ok,
        kinds(tokens_from(s, pos, acc)->Ok_0) == kinds(acc) + tokens.subrange(
            i as int,
            tokens.len() as int,
        ),
    decreases tokens.len() - i,
{
    if i >= tokens.len() {
        assert(kinds(acc) + tokens.subrange(i as int, tokens.len() as int) =~= kinds(acc));
    } else {
        let k = tokens[i as int];
        let here = token_text(k);
        let blank = seq![' '];
        let rest = tokens_text(tokens, i + 1);
        assert(tokens_text(tokens, i) =~= (here + blank) + rest);
        lemma_stands_split(s, pos, here + blank, rest);
        lemma_stands_split(s, pos, here, blank);
        let end = pos + here.len();
        assert(s[end as int + 0] == blank[0]);
        lemma_token_read(s, pos, k);
        assert(skip_spaces(s, pos) == pos);
        let more = acc.push((k, pos));
        lemma_blank_skipped(s, end);
        lemma_tokens_read(s, end + 1, tokens, i + 1, more);
        lemma_tokens_after_blank(s, end, more);
        assert(kinds(more) =~= kinds(acc).push(k));
        assert(kinds(acc).push(k) + tokens.subrange(i as int + 1, tokens.len() as int) =~= kinds(acc)
            + tokens.subrange(i as int, tokens.len() as int));
    }
}

/// Skipping the spaces from a blank on is skipping those after it.
pub proof fn lemma_blank_skipped(s: Seq<char>, pos: nat)
    requires
        has(s, pos, ' '),
    ensures
        skip_spaces(s, pos) == skip_spaces(s, pos + 1),
{
}

/// The tokens from a blank on are those after it.
pub proof fn lemma_tokens_after_blank(s: Seq<char>, pos: nat, acc: Seq<(Tok, nat)>)
    requires
        has(s, pos, ' '),
    ensures
        kinds_of(tokens_from(s, pos, acc)) == kinds_of(tokens_from(s, pos + 1, acc)),
{
    lemma_blank_skipped(s, pos);
    let start = skip_spaces(s, pos + 1);
    if start < s.len() {
        match token_at(s, start) {
            Some((t, end)) => {
                lemma_skip_spaces_on(s, pos + 1);
            },
            None => {},
        }
    }
}

/// The tokens that the lexer found, if it found any.
pub open spec fn kinds_of(r: Result<Seq<(Tok, nat)>, nat>) -> Option<Seq<Tok>> {
    match r {
        Ok(found) => Some(kinds(found)),
        Err(_) => None,
    }
}

/// Skipping spaces goes on, and not past the end.
pub proof fn lemma_skip_spaces_on(s: Seq<char>, pos: nat)
    requires
        pos <= s.len(),
    ensures
        pos <= skip_spaces(s, pos) <= s.len(),
    decreases s.len() - pos,
{
    if pos < s.len() && is_space(s[pos as int]) {
        lemma_skip_spaces_on(s, pos + 1);
    }
}

/// Tokens that are written as text are lexed from it again.
pub proof fn lemma_text_read(tokens: Seq<Tok>)
    requires
        all_lexable(tokens),
    ensures
        lex(tokens_text(tokens, 0)) is Ok,
        kinds(lex(tokens_text(tokens, 0))->Ok_0) == tokens,
{
    let s = tokens_text(tokens, 0);
    lemma_tokens_read(s, 0, tokens, 0, Seq::empty());
    assert(kinds(Seq::<(Tok, nat)>::empty()) + tokens.subrange(0, tokens.len() as int) =~= tokens);
}

/// A word ends at or after where it is looked for, within the text, and
/// holds characters of a word only.
pub proof fn lemma_word_chars(s: Seq<char>, pos: nat)
    requires
        pos <= s.len(),
    ensures
        pos <= word_end(s, pos) <= s.len(),
        forall|i: int| pos <= i < word_end(s, pos) ==> is_word_char(#[trigger] s[i]),
    decreases s.len() - pos,
{
    if pos < s.len() && is_word_char(s[pos as int]) {
        lemma_word_chars(s, pos + 1);
    }
}

/// The lexer gives lexable tokens only.
pub proof fn lemma_token_lexable(s: Seq<char>, pos: nat)
    ensures
        token_at(s, pos) matches Some((k, _)) ==> lexable(k),
{
    if pos < s.len() && (is_alpha(s[pos as int]) || s[pos as int] == '_') {
        lemma_word_chars(s, pos + 1);
        let end = word_end(s, pos + 1);
        let word = s.subrange(pos as int, end as int);
        if keyword(word) is None {
            assert(word[0] == s[pos as int]);
            assert forall|j: int| 0 <= j < word.len() implies is_word_char(#[trigger] word[j]) by {
                assert(word[j] == s[pos + j]);
            }
        }
    }
}

/// The tokens that are lexed after lexable tokens are lexable.
pub proof fn lemma_tokens_lexable(s: Seq<char>, pos: nat, acc: Seq<(Tok, nat)>)
    requires
        all_lexable(kinds(acc)),
    ensures
        tokens_from(s, pos, acc) matches Ok(found) ==> all_lexable(kinds(found)),
    decreases s.len() - pos,
{
    let start = skip_spaces(s, pos);
    if start < s.len() {
        lemma_token_lexable(s, start);
        match token_at(s, start) {
            Some((k, end)) => {
                if pos <= start && start < end && end <= s.len() {
                    let more = acc.push((k, start));
                    assert forall|i: int| 0 <= i < kinds(more).len() implies lexable(
                        #[trigger] kinds(more)[i],
                    ) by {
                        if i < acc.len() {
                            assert(kinds(more)[i] == kinds(acc)[i]);
                        }
                    }
                    lemma_tokens_lexable(s, end, more);
                }
            },
            None => {},
        }
    }
}

/// The tokens of a text are lexable.
pub proof fn lemma_lexed_lexable(s: Seq<char>)
    ensures
        lex(s) matches Ok(found) ==> all_lexable(kinds(found)),
{
    lemma_tokens_lexable(s, 0, Seq::empty());
}

} // verus!
