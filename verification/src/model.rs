use crate::span::Span;
use crate::text::{chars_eq, chars_of, string_of};
use vstd::prelude::*;

verus! {

/// The kind of a lexeme, without its payload.
#[derive(Debug, Clone, Copy, PartialEq, Eq, Structural)]
pub enum LexKind {
    True,
    False,
    Nil,
    And,
    Or,
    Class,
    For,
    Fun,
    If,
    Else,
    Return,
    Super,
    This,
    Var,
    While,
    Print,
    LeftParen,
    RightParen,
    LeftBrace,
    RightBrace,
    Comma,
    Dot,
    Minus,
    Plus,
    SemiColon,
    Star,
    Eq,
    EqEq,
    Bang,
    BangEq,
    Less,
    LessEq,
    Greater,
    GreaterEq,
    Slash,
    Number,
    Identifier,
    String,
    Eof,
}

/// A lexeme of the Lox language. Number literals keep the text they were
/// written with; their numeric value is a function of that text.
#[derive(Clone, Debug, PartialEq)]
pub enum Lexeme {
    // keywords
    True,
    False,
    Nil,
    And,
    Or,
    Class,
    For,
    Fun,
    If,
    Else,
    Return,
    Super,
    This,
    Var,
    While,
    Print,
    // punctuation and operators
    LeftParen,
    RightParen,
    LeftBrace,
    RightBrace,
    Comma,
    Dot,
    Minus,
    Plus,
    SemiColon,
    Star,
    Eq,
    EqEq,
    Bang,
    BangEq,
    Less,
    LessEq,
    Greater,
    GreaterEq,
    Slash,
    // value holders
    Number(String),
    Identifier(String),
    String(String),
    // end of input
    Eof,
}

/// A kind whose lexeme carries a payload text.
pub open spec fn has_payload(k: LexKind) -> bool {
    k == LexKind::Number || k == LexKind::Identifier || k == LexKind::String
}

/// A keyword kind.
pub open spec fn is_keyword(k: LexKind) -> bool {
    match k {
        LexKind::True | LexKind::False | LexKind::Nil | LexKind::And | LexKind::Or
        | LexKind::Class | LexKind::For | LexKind::Fun | LexKind::If | LexKind::Else
        | LexKind::Return | LexKind::Super | LexKind::This | LexKind::Var | LexKind::While
        | LexKind::Print => true,
        _ => false,
    }
}

/// The source text of each lexeme kind that has a fixed spelling; `eof` for
/// the end of input and the empty text for the payload kinds.
pub open spec fn fixed_text(k: LexKind) -> Seq<char> {
    match k {
        LexKind::LeftParen => seq!['('],
        LexKind::RightParen => seq![')'],
        LexKind::LeftBrace => seq!['{'],
        LexKind::RightBrace => seq!['}'],
        LexKind::Comma => seq![','],
        LexKind::Dot => seq!['.'],
        LexKind::Minus => seq!['-'],
        LexKind::Plus => seq!['+'],
        LexKind::SemiColon => seq![';'],
        LexKind::Star => seq!['*'],
        LexKind::Eq => seq!['='],
        LexKind::EqEq => seq!['=', '='],
        LexKind::Bang => seq!['!'],
        LexKind::BangEq => seq!['!', '='],
        LexKind::Less => seq!['<'],
        LexKind::LessEq => seq!['<', '='],
        LexKind::Greater => seq!['>'],
        LexKind::GreaterEq => seq!['>', '='],
        LexKind::Slash => seq!['/'],
        LexKind::True => seq!['t', 'r', 'u', 'e'],
        LexKind::False => seq!['f', 'a', 'l', 's', 'e'],
        LexKind::Nil => seq!['n', 'i', 'l'],
        LexKind::And => seq!['a', 'n', 'd'],
        LexKind::Or => seq!['o', 'r'],
        LexKind::Class => seq!['c', 'l', 'a', 's', 's'],
        LexKind::For => seq!['f', 'o', 'r'],
        LexKind::Fun => seq!['f', 'u', 'n'],
        LexKind::If => seq!['i', 'f'],
        LexKind::Else => seq!['e', 'l', 's', 'e'],
        LexKind::Return => seq!['r', 'e', 't', 'u', 'r', 'n'],
        LexKind::Super => seq!['s', 'u', 'p', 'e', 'r'],
        LexKind::This => seq!['t', 'h', 'i', 's'],
        LexKind::Var => seq!['v', 'a', 'r'],
        LexKind::While => seq!['w', 'h', 'i', 'l', 'e'],
        LexKind::Print => seq!['p', 'r', 'i', 'n', 't'],
        LexKind::Eof => seq!['e', 'o', 'f'],
        _ => Seq::empty(),
    }
}

/// The upper-case name of a keyword or of the end of input.
pub open spec fn upper_name(k: LexKind) -> Seq<char> {
    match k {
        LexKind::True => seq!['T', 'R', 'U', 'E'],
        LexKind::False => seq!['F', 'A', 'L', 'S', 'E'],
        LexKind::Nil => seq!['N', 'I', 'L'],
        LexKind::And => seq!['A', 'N', 'D'],
        LexKind::Or => seq!['O', 'R'],
        LexKind::Class => seq!['C', 'L', 'A', 'S', 'S'],
        LexKind::For => seq!['F', 'O', 'R'],
        LexKind::Fun => seq!['F', 'U', 'N'],
        LexKind::If => seq!['I', 'F'],
        LexKind::Else => seq!['E', 'L', 'S', 'E'],
        LexKind::Return => seq!['R', 'E', 'T', 'U', 'R', 'N'],
        LexKind::Super => seq!['S', 'U', 'P', 'E', 'R'],
        LexKind::This => seq!['T', 'H', 'I', 'S'],
        LexKind::Var => seq!['V', 'A', 'R'],
        LexKind::While => seq!['W', 'H', 'I', 'L', 'E'],
        LexKind::Print => seq!['P', 'R', 'I', 'N', 'T'],
        LexKind::Eof => seq!['E', 'O', 'F'],
        _ => Seq::empty(),
    }
}

/// The name under which a token kind is listed when tokens are printed.
pub open spec fn kind_label(k: LexKind) -> Seq<char> {
    match k {
        LexKind::Number => seq!['N', 'U', 'M', 'B', 'E', 'R'],
        LexKind::Identifier => seq!['I', 'D', 'E', 'N', 'T', 'I', 'F', 'I', 'E', 'R'],
        LexKind::String => seq!['S', 'T', 'R', 'I', 'N', 'G'],
        LexKind::LeftParen => seq!['L', 'E', 'F', 'T', '_', 'P', 'A', 'R', 'E', 'N'],
        LexKind::RightParen => seq!['R', 'I', 'G', 'H', 'T', '_', 'P', 'A', 'R', 'E', 'N'],
        LexKind::LeftBrace => seq!['L', 'E', 'F', 'T', '_', 'B', 'R', 'A', 'C', 'E'],
        LexKind::RightBrace => seq!['R', 'I', 'G', 'H', 'T', '_', 'B', 'R', 'A', 'C', 'E'],
        LexKind::Dot => seq!['D', 'O', 'T'],
        LexKind::Comma => seq!['C', 'O', 'M', 'M', 'A'],
        LexKind::Minus => seq!['M', 'I', 'N', 'U', 'S'],
        LexKind::Plus => seq!['P', 'L', 'U', 'S'],
        LexKind::SemiColon => seq!['S', 'E', 'M', 'I', 'C', 'O', 'L', 'O', 'N'],
        LexKind::Star => seq!['S', 'T', 'A', 'R'],
        LexKind::Eq => seq!['E', 'Q', 'U', 'A', 'L'],
        LexKind::EqEq => seq!['E', 'Q', 'U', 'A', 'L', '_', 'E', 'Q', 'U', 'A', 'L'],
        LexKind::Bang => seq!['B', 'A', 'N', 'G'],
        LexKind::BangEq => seq!['B', 'A', 'N', 'G', '_', 'E', 'Q', 'U', 'A', 'L'],
        LexKind::Less => seq!['L', 'E', 'S', 'S'],
        LexKind::LessEq => seq!['L', 'E', 'S', 'S', '_', 'E', 'Q', 'U', 'A', 'L'],
        LexKind::Greater => seq!['G', 'R', 'E', 'A', 'T', 'E', 'R'],
        LexKind::GreaterEq => seq!['G', 'R', 'E', 'A', 'T', 'E', 'R', '_', 'E', 'Q', 'U', 'A', 'L'],
        LexKind::Slash => seq!['S', 'L', 'A', 'S', 'H'],
        _ => upper_name(k),
    }
}

/// The kind whose fixed spelling is `cs`, if any (keywords, punctuation,
/// operators and `eof`).
pub open spec fn kind_of_text(cs: Seq<char>) -> Option<LexKind> {
    if cs == fixed_text(LexKind::LeftParen) { Some(LexKind::LeftParen) }
    else if cs == fixed_text(LexKind::RightParen) { Some(LexKind::RightParen) }
    else if cs == fixed_text(LexKind::LeftBrace) { Some(LexKind::LeftBrace) }
    else if cs == fixed_text(LexKind::RightBrace) { Some(LexKind::RightBrace) }
    else if cs == fixed_text(LexKind::Comma) { Some(LexKind::Comma) }
    else if cs == fixed_text(LexKind::Dot) { Some(LexKind::Dot) }
    else if cs == fixed_text(LexKind::SemiColon) { Some(LexKind::SemiColon) }
    else if cs == fixed_text(LexKind::Plus) { Some(LexKind::Plus) }
    else if cs == fixed_text(LexKind::Minus) { Some(LexKind::Minus) }
    else if cs == fixed_text(LexKind::Star) { Some(LexKind::Star) }
    else if cs == fixed_text(LexKind::Slash) { Some(LexKind::Slash) }
    else if cs == fixed_text(LexKind::Eq) { Some(LexKind::Eq) }
    else if cs == fixed_text(LexKind::Bang) { Some(LexKind::Bang) }
    else if cs == fixed_text(LexKind::Less) { Some(LexKind::Less) }
    else if cs == fixed_text(LexKind::Greater) { Some(LexKind::Greater) }
    else if cs == fixed_text(LexKind::EqEq) { Some(LexKind::EqEq) }
    else if cs == fixed_text(LexKind::BangEq) { Some(LexKind::BangEq) }
    else if cs == fixed_text(LexKind::LessEq) { Some(LexKind::LessEq) }
    else if cs == fixed_text(LexKind::GreaterEq) { Some(LexKind::GreaterEq) }
    else if cs == fixed_text(LexKind::Eof) { Some(LexKind::Eof) }
    else { keyword_of_text(cs) }
}

/// The keyword spelled `cs`, if any.
pub open spec fn keyword_of_text(cs: Seq<char>) -> Option<LexKind> {
    if cs == fixed_text(LexKind::Print) { Some(LexKind::Print) }
    else if cs == fixed_text(LexKind::True) { Some(LexKind::True) }
    else if cs == fixed_text(LexKind::False) { Some(LexKind::False) }
    else if cs == fixed_text(LexKind::Nil) { Some(LexKind::Nil) }
    else if cs == fixed_text(LexKind::And) { Some(LexKind::And) }
    else if cs == fixed_text(LexKind::Or) { Some(LexKind::Or) }
    else if cs == fixed_text(LexKind::Fun) { Some(LexKind::Fun) }
    else if cs == fixed_text(LexKind::Return) { Some(LexKind::Return) }
    else if cs == fixed_text(LexKind::If) { Some(LexKind::If) }
    else if cs == fixed_text(LexKind::Else) { Some(LexKind::Else) }
    else if cs == fixed_text(LexKind::For) { Some(LexKind::For) }
    else if cs == fixed_text(LexKind::While) { Some(LexKind::While) }
    else if cs == fixed_text(LexKind::Class) { Some(LexKind::Class) }
    else if cs == fixed_text(LexKind::Super) { Some(LexKind::Super) }
    else if cs == fixed_text(LexKind::This) { Some(LexKind::This) }
    else if cs == fixed_text(LexKind::Var) { Some(LexKind::Var) }
    else { None }
}

/// The lexeme of a kind without payload.
pub open spec fn fixed_lexeme(k: LexKind) -> Lexeme {
    match k {
        LexKind::True => Lexeme::True,
        LexKind::False => Lexeme::False,
        LexKind::Nil => Lexeme::Nil,
        LexKind::And => Lexeme::And,
        LexKind::Or => Lexeme::Or,
        LexKind::Class => Lexeme::Class,
        LexKind::For => Lexeme::For,
        LexKind::Fun => Lexeme::Fun,
        LexKind::If => Lexeme::If,
        LexKind::Else => Lexeme::Else,
        LexKind::Return => Lexeme::Return,
        LexKind::Super => Lexeme::Super,
        LexKind::This => Lexeme::This,
        LexKind::Var => Lexeme::Var,
        LexKind::While => Lexeme::While,
        LexKind::Print => Lexeme::Print,
        LexKind::LeftParen => Lexeme::LeftParen,
        LexKind::RightParen => Lexeme::RightParen,
        LexKind::LeftBrace => Lexeme::LeftBrace,
        LexKind::RightBrace => Lexeme::RightBrace,
        LexKind::Comma => Lexeme::Comma,
        LexKind::Dot => Lexeme::Dot,
        LexKind::Minus => Lexeme::Minus,
        LexKind::Plus => Lexeme::Plus,
        LexKind::SemiColon => Lexeme::SemiColon,
        LexKind::Star => Lexeme::Star,
        LexKind::Eq => Lexeme::Eq,
        LexKind::EqEq => Lexeme::EqEq,
        LexKind::Bang => Lexeme::Bang,
        LexKind::BangEq => Lexeme::BangEq,
        LexKind::Less => Lexeme::Less,
        LexKind::LessEq => Lexeme::LessEq,
        LexKind::Greater => Lexeme::Greater,
        LexKind::GreaterEq => Lexeme::GreaterEq,
        LexKind::Slash => Lexeme::Slash,
        _ => Lexeme::Eof,
    }
}

/// A number that tells the labels apart: their length, first and last
/// characters.
spec fn label_code(s: Seq<char>) -> int {
    s.len() * 1000000 + (s[0] as int) * 1000 + (s.last() as int)
}

/// The kind whose label has the code `n`.
spec fn kind_of_label_code(n: int) -> LexKind {
    if n == 6078082 {
        LexKind::Number
    } else if n == 10073082 {
        LexKind::Identifier
    } else if n == 6083071 {
        LexKind::String
    } else if n == 10076078 {
        LexKind::LeftParen
    } else if n == 11082078 {
        LexKind::RightParen
    } else if n == 10076069 {
        LexKind::LeftBrace
    } else if n == 11082069 {
        LexKind::RightBrace
    } else if n == 3068084 {
        LexKind::Dot
    } else if n == 5067065 {
        LexKind::Comma
    } else if n == 5077083 {
        LexKind::Minus
    } else if n == 4080083 {
        LexKind::Plus
    } else if n == 9083078 {
        LexKind::SemiColon
    } else if n == 4083082 {
        LexKind::Star
    } else if n == 5069076 {
        LexKind::Eq
    } else if n == 11069076 {
        LexKind::EqEq
    } else if n == 4066071 {
        LexKind::Bang
    } else if n == 10066076 {
        LexKind::BangEq
    } else if n == 4076083 {
        LexKind::Less
    } else if n == 10076076 {
        LexKind::LessEq
    } else if n == 7071082 {
        LexKind::Greater
    } else if n == 13071076 {
        LexKind::GreaterEq
    } else if n == 5083072 {
        LexKind::Slash
    } else if n == 4084069 {
        LexKind::True
    } else if n == 5070069 {
        LexKind::False
    } else if n == 3078076 {
        LexKind::Nil
    } else if n == 3065068 {
        LexKind::And
    } else if n == 2079082 {
        LexKind::Or
    } else if n == 5067083 {
        LexKind::Class
    } else if n == 3070082 {
        LexKind::For
    } else if n == 3070078 {
        LexKind::Fun
    } else if n == 2073070 {
        LexKind::If
    } else if n == 4069069 {
        LexKind::Else
    } else if n == 6082078 {
        LexKind::Return
    } else if n == 5083082 {
        LexKind::Super
    } else if n == 4084083 {
        LexKind::This
    } else if n == 3086082 {
        LexKind::Var
    } else if n == 5087069 {
        LexKind::While
    } else if n == 5080084 {
        LexKind::Print
    } else {
        LexKind::Eof
    }
}

/// The code of each kind's label tells the kind.
proof fn lemma_label_code(k: LexKind)
    ensures
        kind_of_label_code(label_code(kind_label(k))) == k,
{
    match k {
        LexKind::Number => assert(label_code(kind_label(LexKind::Number)) == 6078082),
        LexKind::Identifier => assert(label_code(kind_label(LexKind::Identifier)) == 10073082),
        LexKind::String => assert(label_code(kind_label(LexKind::String)) == 6083071),
        LexKind::LeftParen => assert(label_code(kind_label(LexKind::LeftParen)) == 10076078),
        LexKind::RightParen => assert(label_code(kind_label(LexKind::RightParen)) == 11082078),
        LexKind::LeftBrace => assert(label_code(kind_label(LexKind::LeftBrace)) == 10076069),
        LexKind::RightBrace => assert(label_code(kind_label(LexKind::RightBrace)) == 11082069),
        LexKind::Dot => assert(label_code(kind_label(LexKind::Dot)) == 3068084),
        LexKind::Comma => assert(label_code(kind_label(LexKind::Comma)) == 5067065),
        LexKind::Minus => assert(label_code(kind_label(LexKind::Minus)) == 5077083),
        LexKind::Plus => assert(label_code(kind_label(LexKind::Plus)) == 4080083),
        LexKind::SemiColon => assert(label_code(kind_label(LexKind::SemiColon)) == 9083078),
        LexKind::Star => assert(label_code(kind_label(LexKind::Star)) == 4083082),
        LexKind::Eq => assert(label_code(kind_label(LexKind::Eq)) == 5069076),
        LexKind::EqEq => assert(label_code(kind_label(LexKind::EqEq)) == 11069076),
        LexKind::Bang => assert(label_code(kind_label(LexKind::Bang)) == 4066071),
        LexKind::BangEq => assert(label_code(kind_label(LexKind::BangEq)) == 10066076),
        LexKind::Less => assert(label_code(kind_label(LexKind::Less)) == 4076083),
        LexKind::LessEq => assert(label_code(kind_label(LexKind::LessEq)) == 10076076),
        LexKind::Greater => assert(label_code(kind_label(LexKind::Greater)) == 7071082),
        LexKind::GreaterEq => assert(label_code(kind_label(LexKind::GreaterEq)) == 13071076),
        LexKind::Slash => assert(label_code(kind_label(LexKind::Slash)) == 5083072),
        LexKind::True => assert(label_code(kind_label(LexKind::True)) == 4084069),
        LexKind::False => assert(label_code(kind_label(LexKind::False)) == 5070069),
        LexKind::Nil => assert(label_code(kind_label(LexKind::Nil)) == 3078076),
        LexKind::And => assert(label_code(kind_label(LexKind::And)) == 3065068),
        LexKind::Or => assert(label_code(kind_label(LexKind::Or)) == 2079082),
        LexKind::Class => assert(label_code(kind_label(LexKind::Class)) == 5067083),
        LexKind::For => assert(label_code(kind_label(LexKind::For)) == 3070082),
        LexKind::Fun => assert(label_code(kind_label(LexKind::Fun)) == 3070078),
        LexKind::If => assert(label_code(kind_label(LexKind::If)) == 2073070),
        LexKind::Else => assert(label_code(kind_label(LexKind::Else)) == 4069069),
        LexKind::Return => assert(label_code(kind_label(LexKind::Return)) == 6082078),
        LexKind::Super => assert(label_code(kind_label(LexKind::Super)) == 5083082),
        LexKind::This => assert(label_code(kind_label(LexKind::This)) == 4084083),
        LexKind::Var => assert(label_code(kind_label(LexKind::Var)) == 3086082),
        LexKind::While => assert(label_code(kind_label(LexKind::While)) == 5087069),
        LexKind::Print => assert(label_code(kind_label(LexKind::Print)) == 5080084),
        LexKind::Eof => assert(label_code(kind_label(LexKind::Eof)) == 3069070),
    }
}

/// No two kinds are listed under the same label.
pub proof fn law_labels_distinct(k1: LexKind, k2: LexKind)
    ensures
        kind_label(k1) == kind_label(k2) ==> k1 == k2,
{
    lemma_label_code(k1);
    lemma_label_code(k2);
}

/// The label of an operator spelled with two characters is the label of
/// the operator spelled with its first character, an underscore, and the
/// label of `=`: `<=` is `LESS_EQUAL`, `!=` is `BANG_EQUAL`.
pub proof fn law_two_character_labels(k: LexKind)
    requires
        fixed_text(k).len() == 2,
        !is_keyword(k),
    ensures
        kind_of_text(fixed_text(k).take(1)) matches Some(first) && kind_label(k) == kind_label(first)
            + seq!['_'] + kind_label(LexKind::Eq),
{
    let first = match k {
        LexKind::EqEq => LexKind::Eq,
        LexKind::BangEq => LexKind::Bang,
        LexKind::LessEq => LexKind::Less,
        _ => LexKind::Greater,
    };
    law_spelling_round_trip(first);
    assert(fixed_text(k).take(1) =~= fixed_text(first));
    assert(kind_label(k) =~= kind_label(first) + seq!['_'] + kind_label(LexKind::Eq));
}

/// The ASCII upper-case form of a character.
pub open spec fn ascii_upper(c: char) -> char {
    if 'a' <= c && c <= 'z' {
        ((c as int) - 32) as char
    } else {
        c
    }
}

/// A keyword, and the end of input, are listed under their spelling in
/// upper case: `while` as `WHILE`.
pub proof fn law_keyword_labels(k: LexKind)
    requires
        is_keyword(k) || k == LexKind::Eof,
    ensures
        kind_label(k) == fixed_text(k).map_values(|c: char| ascii_upper(c)),
{
    assert(kind_label(k) =~= fixed_text(k).map_values(|c: char| ascii_upper(c)));
}

/// A number that tells the fixed spellings apart: their length, first and
/// last characters.
spec fn spelling_code(s: Seq<char>) -> int {
    s.len() * 1000000 + (s[0] as int) * 1000 + (s.last() as int)
}

/// Reading back the spelling of a lexeme that has a fixed spelling gives
/// that lexeme again: `lexeme_from` undoes `lexeme_str`.
pub proof fn law_spelling_round_trip(k: LexKind)
    requires
        !has_payload(k),
    ensures
        kind_of_text(fixed_text(k)) == Some(k),
        fixed_lexeme(k).spec_kind() == k,
        fixed_lexeme(k).spec_lexeme_str() == fixed_text(k),
{
    assert(spelling_code(fixed_text(LexKind::LeftParen)) == 1040040);
    assert(spelling_code(fixed_text(LexKind::RightParen)) == 1041041);
    assert(spelling_code(fixed_text(LexKind::LeftBrace)) == 1123123);
    assert(spelling_code(fixed_text(LexKind::RightBrace)) == 1125125);
    assert(spelling_code(fixed_text(LexKind::Comma)) == 1044044);
    assert(spelling_code(fixed_text(LexKind::Dot)) == 1046046);
    assert(spelling_code(fixed_text(LexKind::SemiColon)) == 1059059);
    assert(spelling_code(fixed_text(LexKind::Plus)) == 1043043);
    assert(spelling_code(fixed_text(LexKind::Minus)) == 1045045);
    assert(spelling_code(fixed_text(LexKind::Star)) == 1042042);
    assert(spelling_code(fixed_text(LexKind::Slash)) == 1047047);
    assert(spelling_code(fixed_text(LexKind::Eq)) == 1061061);
    assert(spelling_code(fixed_text(LexKind::Bang)) == 1033033);
    assert(spelling_code(fixed_text(LexKind::Less)) == 1060060);
    assert(spelling_code(fixed_text(LexKind::Greater)) == 1062062);
    assert(spelling_code(fixed_text(LexKind::EqEq)) == 2061061);
    assert(spelling_code(fixed_text(LexKind::BangEq)) == 2033061);
    assert(spelling_code(fixed_text(LexKind::LessEq)) == 2060061);
    assert(spelling_code(fixed_text(LexKind::GreaterEq)) == 2062061);
    assert(spelling_code(fixed_text(LexKind::Eof)) == 3101102);
    assert(spelling_code(fixed_text(LexKind::Print)) == 5112116);
    assert(spelling_code(fixed_text(LexKind::True)) == 4116101);
    assert(spelling_code(fixed_text(LexKind::False)) == 5102101);
    assert(spelling_code(fixed_text(LexKind::Nil)) == 3110108);
    assert(spelling_code(fixed_text(LexKind::And)) == 3097100);
    assert(spelling_code(fixed_text(LexKind::Or)) == 2111114);
    assert(spelling_code(fixed_text(LexKind::Fun)) == 3102110);
    assert(spelling_code(fixed_text(LexKind::Return)) == 6114110);
    assert(spelling_code(fixed_text(LexKind::If)) == 2105102);
    assert(spelling_code(fixed_text(LexKind::Else)) == 4101101);
    assert(spelling_code(fixed_text(LexKind::For)) == 3102114);
    assert(spelling_code(fixed_text(LexKind::While)) == 5119101);
    assert(spelling_code(fixed_text(LexKind::Class)) == 5099115);
    assert(spelling_code(fixed_text(LexKind::Super)) == 5115114);
    assert(spelling_code(fixed_text(LexKind::This)) == 4116115);
    assert(spelling_code(fixed_text(LexKind::Var)) == 3118114);
    match k {
        LexKind::LeftParen => assert(kind_of_text(fixed_text(LexKind::LeftParen)) == Some(LexKind::LeftParen)),
        LexKind::RightParen => assert(kind_of_text(fixed_text(LexKind::RightParen)) == Some(LexKind::RightParen)),
        LexKind::LeftBrace => assert(kind_of_text(fixed_text(LexKind::LeftBrace)) == Some(LexKind::LeftBrace)),
        LexKind::RightBrace => assert(kind_of_text(fixed_text(LexKind::RightBrace)) == Some(LexKind::RightBrace)),
        LexKind::Comma => assert(kind_of_text(fixed_text(LexKind::Comma)) == Some(LexKind::Comma)),
        LexKind::Dot => assert(kind_of_text(fixed_text(LexKind::Dot)) == Some(LexKind::Dot)),
        LexKind::SemiColon => assert(kind_of_text(fixed_text(LexKind::SemiColon)) == Some(LexKind::SemiColon)),
        LexKind::Plus => assert(kind_of_text(fixed_text(LexKind::Plus)) == Some(LexKind::Plus)),
        LexKind::Minus => assert(kind_of_text(fixed_text(LexKind::Minus)) == Some(LexKind::Minus)),
        LexKind::Star => assert(kind_of_text(fixed_text(LexKind::Star)) == Some(LexKind::Star)),
        LexKind::Slash => assert(kind_of_text(fixed_text(LexKind::Slash)) == Some(LexKind::Slash)),
        LexKind::Eq => assert(kind_of_text(fixed_text(LexKind::Eq)) == Some(LexKind::Eq)),
        LexKind::Bang => assert(kind_of_text(fixed_text(LexKind::Bang)) == Some(LexKind::Bang)),
        LexKind::Less => assert(kind_of_text(fixed_text(LexKind::Less)) == Some(LexKind::Less)),
        LexKind::Greater => assert(kind_of_text(fixed_text(LexKind::Greater)) == Some(LexKind::Greater)),
        LexKind::EqEq => assert(kind_of_text(fixed_text(LexKind::EqEq)) == Some(LexKind::EqEq)),
        LexKind::BangEq => assert(kind_of_text(fixed_text(LexKind::BangEq)) == Some(LexKind::BangEq)),
        LexKind::LessEq => assert(kind_of_text(fixed_text(LexKind::LessEq)) == Some(LexKind::LessEq)),
        LexKind::GreaterEq => assert(kind_of_text(fixed_text(LexKind::GreaterEq)) == Some(LexKind::GreaterEq)),
        LexKind::Eof => assert(kind_of_text(fixed_text(LexKind::Eof)) == Some(LexKind::Eof)),
        LexKind::Print => assert(kind_of_text(fixed_text(LexKind::Print)) == Some(LexKind::Print)),
        LexKind::True => assert(kind_of_text(fixed_text(LexKind::True)) == Some(LexKind::True)),
        LexKind::False => assert(kind_of_text(fixed_text(LexKind::False)) == Some(LexKind::False)),
        LexKind::Nil => assert(kind_of_text(fixed_text(LexKind::Nil)) == Some(LexKind::Nil)),
        LexKind::And => assert(kind_of_text(fixed_text(LexKind::And)) == Some(LexKind::And)),
        LexKind::Or => assert(kind_of_text(fixed_text(LexKind::Or)) == Some(LexKind::Or)),
        LexKind::Fun => assert(kind_of_text(fixed_text(LexKind::Fun)) == Some(LexKind::Fun)),
        LexKind::Return => assert(kind_of_text(fixed_text(LexKind::Return)) == Some(LexKind::Return)),
        LexKind::If => assert(kind_of_text(fixed_text(LexKind::If)) == Some(LexKind::If)),
        LexKind::Else => assert(kind_of_text(fixed_text(LexKind::Else)) == Some(LexKind::Else)),
        LexKind::For => assert(kind_of_text(fixed_text(LexKind::For)) == Some(LexKind::For)),
        LexKind::While => assert(kind_of_text(fixed_text(LexKind::While)) == Some(LexKind::While)),
        LexKind::Class => assert(kind_of_text(fixed_text(LexKind::Class)) == Some(LexKind::Class)),
        LexKind::Super => assert(kind_of_text(fixed_text(LexKind::Super)) == Some(LexKind::Super)),
        LexKind::This => assert(kind_of_text(fixed_text(LexKind::This)) == Some(LexKind::This)),
        LexKind::Var => assert(kind_of_text(fixed_text(LexKind::Var)) == Some(LexKind::Var)),
        _ => {},
    }
}

/// The abstract value of a lexeme: its kind and its payload text (empty for
/// the kinds without payload).
pub ghost struct LexemeView {
    pub kind: LexKind,
    pub text: Seq<char>,
}

impl View for Lexeme {
    type V = LexemeView;

    open spec fn view(&self) -> LexemeView {
        LexemeView { kind: self.spec_kind(), text: self.payload() }
    }
}

impl Lexeme {
    /// The kind of this lexeme.
    pub open spec fn spec_kind(&self) -> LexKind {
        match self {
            Lexeme::True => LexKind::True,
            Lexeme::False => LexKind::False,
            Lexeme::Nil => LexKind::Nil,
            Lexeme::And => LexKind::And,
            Lexeme::Or => LexKind::Or,
            Lexeme::Class => LexKind::Class,
            Lexeme::For => LexKind::For,
            Lexeme::Fun => LexKind::Fun,
            Lexeme::If => LexKind::If,
            Lexeme::Else => LexKind::Else,
            Lexeme::Return => LexKind::Return,
            Lexeme::Super => LexKind::Super,
            Lexeme::This => LexKind::This,
            Lexeme::Var => LexKind::Var,
            Lexeme::While => LexKind::While,
            Lexeme::Print => LexKind::Print,
            Lexeme::LeftParen => LexKind::LeftParen,
            Lexeme::RightParen => LexKind::RightParen,
            Lexeme::LeftBrace => LexKind::LeftBrace,
            Lexeme::RightBrace => LexKind::RightBrace,
            Lexeme::Comma => LexKind::Comma,
            Lexeme::Dot => LexKind::Dot,
            Lexeme::Minus => LexKind::Minus,
            Lexeme::Plus => LexKind::Plus,
            Lexeme::SemiColon => LexKind::SemiColon,
            Lexeme::Star => LexKind::Star,
            Lexeme::Eq => LexKind::Eq,
            Lexeme::EqEq => LexKind::EqEq,
            Lexeme::Bang => LexKind::Bang,
            Lexeme::BangEq => LexKind::BangEq,
            Lexeme::Less => LexKind::Less,
            Lexeme::LessEq => LexKind::LessEq,
            Lexeme::Greater => LexKind::Greater,
            Lexeme::GreaterEq => LexKind::GreaterEq,
            Lexeme::Slash => LexKind::Slash,
            Lexeme::Number(_) => LexKind::Number,
            Lexeme::Identifier(_) => LexKind::Identifier,
            Lexeme::String(_) => LexKind::String,
            Lexeme::Eof => LexKind::Eof,
        }
    }

    /// The payload text of a number, identifier or string lexeme; empty for
    /// every other lexeme.
    pub open spec fn payload(&self) -> Seq<char> {
        match self {
            Lexeme::Number(s) => s@,
            Lexeme::Identifier(s) => s@,
            Lexeme::String(s) => s@,
            _ => Seq::empty(),
        }
    }

    /// The source text of the lexeme: its payload, or its fixed spelling.
    pub open spec fn spec_lexeme_str(&self) -> Seq<char> {
        if has_payload(self.spec_kind()) {
            self.payload()
        } else {
            fixed_text(self.spec_kind())
        }
    }

    /// The kind of this lexeme.
    pub fn kind(&self) -> (k: LexKind)
        ensures
            k == self.spec_kind(),
    {
        match self {
            Lexeme::True => LexKind::True,
            Lexeme::False => LexKind::False,
            Lexeme::Nil => LexKind::Nil,
            Lexeme::And => LexKind::And,
            Lexeme::Or => LexKind::Or,
            Lexeme::Class => LexKind::Class,
            Lexeme::For => LexKind::For,
            Lexeme::Fun => LexKind::Fun,
            Lexeme::If => LexKind::If,
            Lexeme::Else => LexKind::Else,
            Lexeme::Return => LexKind::Return,
            Lexeme::Super => LexKind::Super,
            Lexeme::This => LexKind::This,
            Lexeme::Var => LexKind::Var,
            Lexeme::While => LexKind::While,
            Lexeme::Print => LexKind::Print,
            Lexeme::LeftParen => LexKind::LeftParen,
            Lexeme::RightParen => LexKind::RightParen,
            Lexeme::LeftBrace => LexKind::LeftBrace,
            Lexeme::RightBrace => LexKind::RightBrace,
            Lexeme::Comma => LexKind::Comma,
            Lexeme::Dot => LexKind::Dot,
            Lexeme::Minus => LexKind::Minus,
            Lexeme::Plus => LexKind::Plus,
            Lexeme::SemiColon => LexKind::SemiColon,
            Lexeme::Star => LexKind::Star,
            Lexeme::Eq => LexKind::Eq,
            Lexeme::EqEq => LexKind::EqEq,
            Lexeme::Bang => LexKind::Bang,
            Lexeme::BangEq => LexKind::BangEq,
            Lexeme::Less => LexKind::Less,
            Lexeme::LessEq => LexKind::LessEq,
            Lexeme::Greater => LexKind::Greater,
            Lexeme::GreaterEq => LexKind::GreaterEq,
            Lexeme::Slash => LexKind::Slash,
            Lexeme::Number(_) => LexKind::Number,
            Lexeme::Identifier(_) => LexKind::Identifier,
            Lexeme::String(_) => LexKind::String,
            Lexeme::Eof => LexKind::Eof,
        }
    }

    /// The lexeme as written in the source: its payload for numbers,
    /// identifiers and strings, its fixed spelling otherwise (`eof` for the
    /// end of input).
    pub fn lexeme_str(&self) -> (r: &str)
        ensures
            r@ == self.spec_lexeme_str(),
    {
        match self {
            Lexeme::LeftParen => {
                proof { reveal_strlit("("); }
                "("
            }
            Lexeme::RightParen => {
                proof { reveal_strlit(")"); }
                ")"
            }
            Lexeme::LeftBrace => {
                proof { reveal_strlit("{"); }
                "{"
            }
            Lexeme::RightBrace => {
                proof { reveal_strlit("}"); }
                "}"
            }
            Lexeme::Comma => {
                proof { reveal_strlit(","); }
                ","
            }
            Lexeme::Dot => {
                proof { reveal_strlit("."); }
                "."
            }
            Lexeme::Minus => {
                proof { reveal_strlit("-"); }
                "-"
            }
            Lexeme::Plus => {
                proof { reveal_strlit("+"); }
                "+"
            }
            Lexeme::SemiColon => {
                proof { reveal_strlit(";"); }
                ";"
            }
            Lexeme::Star => {
                proof { reveal_strlit("*"); }
                "*"
            }
            Lexeme::Eq => {
                proof { reveal_strlit("="); }
                "="
            }
            Lexeme::EqEq => {
                proof { reveal_strlit("=="); }
                "=="
            }
            Lexeme::Bang => {
                proof { reveal_strlit("!"); }
                "!"
            }
            Lexeme::BangEq => {
                proof { reveal_strlit("!="); }
                "!="
            }
            Lexeme::Less => {
                proof { reveal_strlit("<"); }
                "<"
            }
            Lexeme::LessEq => {
                proof { reveal_strlit("<="); }
                "<="
            }
            Lexeme::Greater => {
                proof { reveal_strlit(">"); }
                ">"
            }
            Lexeme::GreaterEq => {
                proof { reveal_strlit(">="); }
                ">="
            }
            Lexeme::Slash => {
                proof { reveal_strlit("/"); }
                "/"
            }
            Lexeme::True => {
                proof { reveal_strlit("true"); }
                "true"
            }
            Lexeme::False => {
                proof { reveal_strlit("false"); }
                "false"
            }
            Lexeme::Nil => {
                proof { reveal_strlit("nil"); }
                "nil"
            }
            Lexeme::And => {
                proof { reveal_strlit("and"); }
                "and"
            }
            Lexeme::Or => {
                proof { reveal_strlit("or"); }
                "or"
            }
            Lexeme::Class => {
                proof { reveal_strlit("class"); }
                "class"
            }
            Lexeme::For => {
                proof { reveal_strlit("for"); }
                "for"
            }
            Lexeme::Fun => {
                proof { reveal_strlit("fun"); }
                "fun"
            }
            Lexeme::If => {
                proof { reveal_strlit("if"); }
                "if"
            }
            Lexeme::Else => {
                proof { reveal_strlit("else"); }
                "else"
            }
            Lexeme::Return => {
                proof { reveal_strlit("return"); }
                "return"
            }
            Lexeme::Super => {
                proof { reveal_strlit("super"); }
                "super"
            }
            Lexeme::This => {
                proof { reveal_strlit("this"); }
                "this"
            }
            Lexeme::Var => {
                proof { reveal_strlit("var"); }
                "var"
            }
            Lexeme::While => {
                proof { reveal_strlit("while"); }
                "while"
            }
            Lexeme::Print => {
                proof { reveal_strlit("print"); }
                "print"
            }
            Lexeme::Eof => {
                proof { reveal_strlit("eof"); }
                "eof"
            }
            Lexeme::Number(s) => s.as_str(),
            Lexeme::Identifier(s) => s.as_str(),
            Lexeme::String(s) => s.as_str(),
        }
    }

    /// The upper-case name of a keyword or of the end of input; for every
    /// other lexeme, the lexeme as written.
    pub fn display_name(&self) -> (r: &str)
        ensures
            r@ == (if is_keyword(self.spec_kind()) || self.spec_kind() == LexKind::Eof {
                upper_name(self.spec_kind())
            } else {
                self.spec_lexeme_str()
            }),
    {
        match self {
            Lexeme::True => {
                proof { reveal_strlit("TRUE"); }
                "TRUE"
            }
            Lexeme::False => {
                proof { reveal_strlit("FALSE"); }
                "FALSE"
            }
            Lexeme::Nil => {
                proof { reveal_strlit("NIL"); }
                "NIL"
            }
            Lexeme::And => {
                proof { reveal_strlit("AND"); }
                "AND"
            }
            Lexeme::Or => {
                proof { reveal_strlit("OR"); }
                "OR"
            }
            Lexeme::Class => {
                proof { reveal_strlit("CLASS"); }
                "CLASS"
            }
            Lexeme::For => {
                proof { reveal_strlit("FOR"); }
                "FOR"
            }
            Lexeme::Fun => {
                proof { reveal_strlit("FUN"); }
                "FUN"
            }
            Lexeme::If => {
                proof { reveal_strlit("IF"); }
                "IF"
            }
            Lexeme::Else => {
                proof { reveal_strlit("ELSE"); }
                "ELSE"
            }
            Lexeme::Return => {
                proof { reveal_strlit("RETURN"); }
                "RETURN"
            }
            Lexeme::Super => {
                proof { reveal_strlit("SUPER"); }
                "SUPER"
            }
            Lexeme::This => {
                proof { reveal_strlit("THIS"); }
                "THIS"
            }
            Lexeme::Var => {
                proof { reveal_strlit("VAR"); }
                "VAR"
            }
            Lexeme::While => {
                proof { reveal_strlit("WHILE"); }
                "WHILE"
            }
            Lexeme::Print => {
                proof { reveal_strlit("PRINT"); }
                "PRINT"
            }
            Lexeme::Eof => {
                proof { reveal_strlit("EOF"); }
                "EOF"
            }
            _ => self.lexeme_str(),
        }
    }

    /// The name under which the lexeme's kind is listed when tokens are
    /// printed (`NUMBER`, `LEFT_PAREN`, `EQUAL_EQUAL`, ...).
    pub fn kind_label(&self) -> (r: &str)
        ensures
            r@ == kind_label(self.spec_kind()),
    {
        match self {
            Lexeme::Number(_) => {
                proof { reveal_strlit("NUMBER"); }
                "NUMBER"
            }
            Lexeme::Identifier(_) => {
                proof { reveal_strlit("IDENTIFIER"); }
                "IDENTIFIER"
            }
            Lexeme::String(_) => {
                proof { reveal_strlit("STRING"); }
                "STRING"
            }
            Lexeme::LeftParen => {
                proof { reveal_strlit("LEFT_PAREN"); }
                "LEFT_PAREN"
            }
            Lexeme::RightParen => {
                proof { reveal_strlit("RIGHT_PAREN"); }
                "RIGHT_PAREN"
            }
            Lexeme::LeftBrace => {
                proof { reveal_strlit("LEFT_BRACE"); }
                "LEFT_BRACE"
            }
            Lexeme::RightBrace => {
                proof { reveal_strlit("RIGHT_BRACE"); }
                "RIGHT_BRACE"
            }
            Lexeme::Dot => {
                proof { reveal_strlit("DOT"); }
                "DOT"
            }
            Lexeme::Comma => {
                proof { reveal_strlit("COMMA"); }
                "COMMA"
            }
            Lexeme::Minus => {
                proof { reveal_strlit("MINUS"); }
                "MINUS"
            }
            Lexeme::Plus => {
                proof { reveal_strlit("PLUS"); }
                "PLUS"
            }
            Lexeme::SemiColon => {
                proof { reveal_strlit("SEMICOLON"); }
                "SEMICOLON"
            }
            Lexeme::Star => {
                proof { reveal_strlit("STAR"); }
                "STAR"
            }
            Lexeme::Eq => {
                proof { reveal_strlit("EQUAL"); }
                "EQUAL"
            }
            Lexeme::EqEq => {
                proof { reveal_strlit("EQUAL_EQUAL"); }
                "EQUAL_EQUAL"
            }
            Lexeme::Bang => {
                proof { reveal_strlit("BANG"); }
                "BANG"
            }
            Lexeme::BangEq => {
                proof { reveal_strlit("BANG_EQUAL"); }
                "BANG_EQUAL"
            }
            Lexeme::Less => {
                proof { reveal_strlit("LESS"); }
                "LESS"
            }
            Lexeme::LessEq => {
                proof { reveal_strlit("LESS_EQUAL"); }
                "LESS_EQUAL"
            }
            Lexeme::Greater => {
                proof { reveal_strlit("GREATER"); }
                "GREATER"
            }
            Lexeme::GreaterEq => {
                proof { reveal_strlit("GREATER_EQUAL"); }
                "GREATER_EQUAL"
            }
            Lexeme::Slash => {
                proof { reveal_strlit("SLASH"); }
                "SLASH"
            }
            _ => self.display_name(),
        }
    }

    /// The lexeme as a string: the same text as `lexeme_str`.
    pub fn to_source_string(&self) -> (r: String)
        ensures
            r@ == self.spec_lexeme_str(),
    {
        string_of(self.lexeme_str())
    }

    /// The lexeme's kind as it is listed when tokens are printed.
    pub fn display_string(&self) -> (r: String)
        ensures
            r@ == kind_label(self.spec_kind()),
    {
        string_of(self.kind_label())
    }

    /// The lexeme of a keyword, punctuation, operator or `eof` spelling.
    /// Any other text is refused by the precondition.
    pub fn from_text(text: &str) -> (r: Lexeme)
        requires
            kind_of_text(text@) is Some,
        ensures
            r == fixed_lexeme(kind_of_text(text@)->0),
            r@.kind == kind_of_text(text@)->0,
    {
        let cs = chars_of(text);
        let k = kind_of_chars(cs.as_slice());
        match k {
            Some(k) => Lexeme::of_kind(k),
            None => Lexeme::Eof,
        }
    }

    /// A copy of this lexeme.
    pub fn duplicate(&self) -> (r: Lexeme)
        ensures
            r == *self,
    {
        match self {
            Lexeme::Number(s) => Lexeme::Number(s.clone()),
            Lexeme::Identifier(s) => Lexeme::Identifier(s.clone()),
            Lexeme::String(s) => Lexeme::String(s.clone()),
            _ => Lexeme::of_kind(self.kind()),
        }
    }

    /// The lexeme of a kind that has no payload.
    pub fn of_kind(k: LexKind) -> (r: Lexeme)
        requires
            !has_payload(k),
        ensures
            r == fixed_lexeme(k),
            r.spec_kind() == k,
            r@.text == Seq::<char>::empty(),
    {
        match k {
            LexKind::True => Lexeme::True,
            LexKind::False => Lexeme::False,
            LexKind::Nil => Lexeme::Nil,
            LexKind::And => Lexeme::And,
            LexKind::Or => Lexeme::Or,
            LexKind::Class => Lexeme::Class,
            LexKind::For => Lexeme::For,
            LexKind::Fun => Lexeme::Fun,
            LexKind::If => Lexeme::If,
            LexKind::Else => Lexeme::Else,
            LexKind::Return => Lexeme::Return,
            LexKind::Super => Lexeme::Super,
            LexKind::This => Lexeme::This,
            LexKind::Var => Lexeme::Var,
            LexKind::While => Lexeme::While,
            LexKind::Print => Lexeme::Print,
            LexKind::LeftParen => Lexeme::LeftParen,
            LexKind::RightParen => Lexeme::RightParen,
            LexKind::LeftBrace => Lexeme::LeftBrace,
            LexKind::RightBrace => Lexeme::RightBrace,
            LexKind::Comma => Lexeme::Comma,
            LexKind::Dot => Lexeme::Dot,
            LexKind::Minus => Lexeme::Minus,
            LexKind::Plus => Lexeme::Plus,
            LexKind::SemiColon => Lexeme::SemiColon,
            LexKind::Star => Lexeme::Star,
            LexKind::Eq => Lexeme::Eq,
            LexKind::EqEq => Lexeme::EqEq,
            LexKind::Bang => Lexeme::Bang,
            LexKind::BangEq => Lexeme::BangEq,
            LexKind::Less => Lexeme::Less,
            LexKind::LessEq => Lexeme::LessEq,
            LexKind::Greater => Lexeme::Greater,
            LexKind::GreaterEq => Lexeme::GreaterEq,
            LexKind::Slash => Lexeme::Slash,
            _ => Lexeme::Eof,
        }
    }
}

/// The kind whose fixed spelling is `cs`, if any.
pub fn kind_of_chars(cs: &[char]) -> (r: Option<LexKind>)
    ensures
        r == kind_of_text(cs@),
{
    let lit = ['('];
    assert(lit@ =~= fixed_text(LexKind::LeftParen));
    if chars_eq(cs, &lit) {
        return Some(LexKind::LeftParen);
    }
    let lit = [')'];
    assert(lit@ =~= fixed_text(LexKind::RightParen));
    if chars_eq(cs, &lit) {
        return Some(LexKind::RightParen);
    }
    let lit = ['{'];
    assert(lit@ =~= fixed_text(LexKind::LeftBrace));
    if chars_eq(cs, &lit) {
        return Some(LexKind::LeftBrace);
    }
    let lit = ['}'];
    assert(lit@ =~= fixed_text(LexKind::RightBrace));
    if chars_eq(cs, &lit) {
        return Some(LexKind::RightBrace);
    }
    let lit = [','];
    assert(lit@ =~= fixed_text(LexKind::Comma));
    if chars_eq(cs, &lit) {
        return Some(LexKind::Comma);
    }
    let lit = ['.'];
    assert(lit@ =~= fixed_text(LexKind::Dot));
    if chars_eq(cs, &lit) {
        return Some(LexKind::Dot);
    }
    let lit = [';'];
    assert(lit@ =~= fixed_text(LexKind::SemiColon));
    if chars_eq(cs, &lit) {
        return Some(LexKind::SemiColon);
    }
    let lit = ['+'];
    assert(lit@ =~= fixed_text(LexKind::Plus));
    if chars_eq(cs, &lit) {
        return Some(LexKind::Plus);
    }
    let lit = ['-'];
    assert(lit@ =~= fixed_text(LexKind::Minus));
    if chars_eq(cs, &lit) {
        return Some(LexKind::Minus);
    }
    let lit = ['*'];
    assert(lit@ =~= fixed_text(LexKind::Star));
    if chars_eq(cs, &lit) {
        return Some(LexKind::Star);
    }
    let lit = ['/'];
    assert(lit@ =~= fixed_text(LexKind::Slash));
    if chars_eq(cs, &lit) {
        return Some(LexKind::Slash);
    }
    let lit = ['='];
    assert(lit@ =~= fixed_text(LexKind::Eq));
    if chars_eq(cs, &lit) {
        return Some(LexKind::Eq);
    }
    let lit = ['!'];
    assert(lit@ =~= fixed_text(LexKind::Bang));
    if chars_eq(cs, &lit) {
        return Some(LexKind::Bang);
    }
    let lit = ['<'];
    assert(lit@ =~= fixed_text(LexKind::Less));
    if chars_eq(cs, &lit) {
        return Some(LexKind::Less);
    }
    let lit = ['>'];
    assert(lit@ =~= fixed_text(LexKind::Greater));
    if chars_eq(cs, &lit) {
        return Some(LexKind::Greater);
    }
    let lit = ['=', '='];
    assert(lit@ =~= fixed_text(LexKind::EqEq));
    if chars_eq(cs, &lit) {
        return Some(LexKind::EqEq);
    }
    let lit = ['!', '='];
    assert(lit@ =~= fixed_text(LexKind::BangEq));
    if chars_eq(cs, &lit) {
        return Some(LexKind::BangEq);
    }
    let lit = ['<', '='];
    assert(lit@ =~= fixed_text(LexKind::LessEq));
    if chars_eq(cs, &lit) {
        return Some(LexKind::LessEq);
    }
    let lit = ['>', '='];
    assert(lit@ =~= fixed_text(LexKind::GreaterEq));
    if chars_eq(cs, &lit) {
        return Some(LexKind::GreaterEq);
    }
    let lit = ['e', 'o', 'f'];
    assert(lit@ =~= fixed_text(LexKind::Eof));
    if chars_eq(cs, &lit) {
        return Some(LexKind::Eof);
    }
    keyword_of_chars(cs)
}

/// The keyword spelled `cs`, if any.
pub fn keyword_of_chars(cs: &[char]) -> (r: Option<LexKind>)
    ensures
        r == keyword_of_text(cs@),
{
    let lit = ['p', 'r', 'i', 'n', 't'];
    assert(lit@ =~= fixed_text(LexKind::Print));
    if chars_eq(cs, &lit) {
        return Some(LexKind::Print);
    }
    let lit = ['t', 'r', 'u', 'e'];
    assert(lit@ =~= fixed_text(LexKind::True));
    if chars_eq(cs, &lit) {
        return Some(LexKind::True);
    }
    let lit = ['f', 'a', 'l', 's', 'e'];
    assert(lit@ =~= fixed_text(LexKind::False));
    if chars_eq(cs, &lit) {
        return Some(LexKind::False);
    }
    let lit = ['n', 'i', 'l'];
    assert(lit@ =~= fixed_text(LexKind::Nil));
    if chars_eq(cs, &lit) {
        return Some(LexKind::Nil);
    }
    let lit = ['a', 'n', 'd'];
    assert(lit@ =~= fixed_text(LexKind::And));
    if chars_eq(cs, &lit) {
        return Some(LexKind::And);
    }
    let lit = ['o', 'r'];
    assert(lit@ =~= fixed_text(LexKind::Or));
    if chars_eq(cs, &lit) {
        return Some(LexKind::Or);
    }
    let lit = ['f', 'u', 'n'];
    assert(lit@ =~= fixed_text(LexKind::Fun));
    if chars_eq(cs, &lit) {
        return Some(LexKind::Fun);
    }
    let lit = ['r', 'e', 't', 'u', 'r', 'n'];
    assert(lit@ =~= fixed_text(LexKind::Return));
    if chars_eq(cs, &lit) {
        return Some(LexKind::Return);
    }
    let lit = ['i', 'f'];
    assert(lit@ =~= fixed_text(LexKind::If));
    if chars_eq(cs, &lit) {
        return Some(LexKind::If);
    }
    let lit = ['e', 'l', 's', 'e'];
    assert(lit@ =~= fixed_text(LexKind::Else));
    if chars_eq(cs, &lit) {
        return Some(LexKind::Else);
    }
    let lit = ['f', 'o', 'r'];
    assert(lit@ =~= fixed_text(LexKind::For));
    if chars_eq(cs, &lit) {
        return Some(LexKind::For);
    }
    let lit = ['w', 'h', 'i', 'l', 'e'];
    assert(lit@ =~= fixed_text(LexKind::While));
    if chars_eq(cs, &lit) {
        return Some(LexKind::While);
    }
    let lit = ['c', 'l', 'a', 's', 's'];
    assert(lit@ =~= fixed_text(LexKind::Class));
    if chars_eq(cs, &lit) {
        return Some(LexKind::Class);
    }
    let lit = ['s', 'u', 'p', 'e', 'r'];
    assert(lit@ =~= fixed_text(LexKind::Super));
    if chars_eq(cs, &lit) {
        return Some(LexKind::Super);
    }
    let lit = ['t', 'h', 'i', 's'];
    assert(lit@ =~= fixed_text(LexKind::This));
    if chars_eq(cs, &lit) {
        return Some(LexKind::This);
    }
    let lit = ['v', 'a', 'r'];
    assert(lit@ =~= fixed_text(LexKind::Var));
    if chars_eq(cs, &lit) {
        return Some(LexKind::Var);
    }
    None
}

/// The lexeme of a keyword, punctuation, operator or `eof` spelling.
pub fn lexeme_from(s: &str) -> (r: Lexeme)
    requires
        kind_of_text(s@) is Some,
    ensures
        r == fixed_lexeme(kind_of_text(s@)->0),
{
    Lexeme::from_text(s)
}

/// The keyword lexeme spelled `s`, if `s` spells a keyword.
pub fn keyword_token(s: &str) -> (r: Option<Lexeme>)
    ensures
        r == (match keyword_of_text(s@) {
            Some(k) => Some(fixed_lexeme(k)),
            None => None,
        }),
{
    let cs = chars_of(s);
    match keyword_of_chars(cs.as_slice()) {
        Some(k) => Some(Lexeme::of_kind(k)),
        None => None,
    }
}

/// A lexeme together with the place where it was read.
#[derive(Clone, Debug, PartialEq)]
pub struct Token {
    pub lexeme: Lexeme,
    pub span: Span,
}

/// The abstract value of a token.
pub ghost struct TokenView {
    pub kind: LexKind,
    pub text: Seq<char>,
    pub span: Span,
}

impl View for Token {
    type V = TokenView;

    open spec fn view(&self) -> TokenView {
        TokenView { kind: self.lexeme.spec_kind(), text: self.lexeme.payload(), span: self.span }
    }
}

impl Token {
    /// Builds a token from a lexeme and its span.
    pub fn new(lexeme: Lexeme, span: Span) -> (t: Token)
        ensures
            t.lexeme == lexeme,
            t.span == span,
    {
        Token { lexeme, span }
    }

    /// A copy of this token.
    pub fn duplicate(&self) -> (t: Token)
        ensures
            t == *self,
    {
        Token { lexeme: self.lexeme.duplicate(), span: self.span }
    }
}

} // verus!
