use crate::chars::{
    byte_offset, char_len, char_width, is_ascii, is_ascii_letter, is_digit, is_newline, is_white,
    is_whitespace, lemma_byte_offset_ascii, lemma_byte_offset_mono, lemma_byte_offset_step,
    lemma_width_is_encoding_len, utf8_width,
};
use crate::model::{
    fixed_text, has_payload, keyword_of_chars, keyword_of_text, LexKind, Lexeme, Token, TokenView,
};
use crate::span::Span;
use vstd::string::StringSliceAdditionalSpecFns;
use crate::text::{chars_of, chars_range, string_from_chars, string_of};
use vstd::prelude::*;

verus! {

/// An error met while scanning. Each error carries the whole source and the
/// span of the offending text.
#[derive(Clone, Debug, PartialEq)]
pub enum TokenError {
    InvalidToken { src: String, span: Span },
    UnterminatedString { src: String, span: Span },
}

/// The abstract value of a scanning error: which error it is, and where.
pub ghost struct ErrorView {
    pub unterminated: bool,
    pub span: Span,
}

impl TokenError {
    /// The abstract value of this error.
    pub open spec fn view(&self) -> ErrorView {
        match self {
            TokenError::InvalidToken { span, .. } => ErrorView { unterminated: false, span: *span },
            TokenError::UnterminatedString { span, .. } => ErrorView {
                unterminated: true,
                span: *span,
            },
        }
    }

    /// The source text the error refers to.
    pub open spec fn source_text(&self) -> Seq<char> {
        match self {
            TokenError::InvalidToken { src, .. } => src@,
            TokenError::UnterminatedString { src, .. } => src@,
        }
    }
}

/// Whether `c` has the Unicode `Alphabetic` property. This is what
/// `char::is_alphabetic` returns; it depends on `c` alone.
pub uninterp spec fn alphabetic(c: char) -> bool;

/// Calls `char::is_alphabetic`. The contract only names its result: the
/// Unicode `Alphabetic` property of `c` takes tables to state.
#[verifier::external_body]
fn char_is_alphabetic(c: char) -> (r: bool)
    ensures
        r == alphabetic(c),
{
    c.is_alphabetic()
}

/// The classes of characters that the scanner reads in runs.
#[derive(Clone, Copy, PartialEq, Eq, Structural)]
pub enum CharClass {
    /// ASCII digits.
    Digit,
    /// Characters that may continue an identifier: `_`, ASCII letters and
    /// the digits `0` to `8`.
    IdentTail,
    /// Anything but a double quote.
    NotQuote,
    /// Anything but a line break.
    NotNewline,
}

/// Whether `c` belongs to the class `cls`.
pub open spec fn in_class(c: char, cls: CharClass) -> bool {
    match cls {
        CharClass::Digit => is_digit(c),
        CharClass::IdentTail => c == '_' || is_ascii_letter(c) || ('0' <= c && c <= '8'),
        CharClass::NotQuote => c != '"',
        CharClass::NotNewline => !is_newline(c),
    }
}

/// The number of characters of class `cls` that follow, from index `k` on.
pub open spec fn run(cs: Seq<char>, k: int, cls: CharClass) -> nat
    decreases cs.len() - k,
{
    if 0 <= k < cs.len() && in_class(cs[k], cls) {
        1 + run(cs, k + 1, cls)
    } else {
        0
    }
}

/// The kind of a one-character token that never combines with a following
/// character.
pub open spec fn single_kind(c: char) -> Option<LexKind> {
    if c == '(' { Some(LexKind::LeftParen) }
    else if c == ')' { Some(LexKind::RightParen) }
    else if c == '{' { Some(LexKind::LeftBrace) }
    else if c == '}' { Some(LexKind::RightBrace) }
    else if c == ',' { Some(LexKind::Comma) }
    else if c == '.' { Some(LexKind::Dot) }
    else if c == '+' { Some(LexKind::Plus) }
    else if c == '-' { Some(LexKind::Minus) }
    else if c == ';' { Some(LexKind::SemiColon) }
    else if c == '*' { Some(LexKind::Star) }
    else { None }
}

/// The kind of an operator that may be followed by `=`, read alone.
pub open spec fn pair_one(c: char) -> Option<LexKind> {
    if c == '=' { Some(LexKind::Eq) }
    else if c == '<' { Some(LexKind::Less) }
    else if c == '>' { Some(LexKind::Greater) }
    else if c == '!' { Some(LexKind::Bang) }
    else { None }
}

/// The kind of an operator that may be followed by `=`, read with the `=`.
pub open spec fn pair_two(c: char) -> Option<LexKind> {
    if c == '=' { Some(LexKind::EqEq) }
    else if c == '<' { Some(LexKind::LessEq) }
    else if c == '>' { Some(LexKind::GreaterEq) }
    else if c == '!' { Some(LexKind::BangEq) }
    else { None }
}

/// A span built from integers.
pub open spec fn mk_span(line: int, offset: int, len: int) -> Span {
    Span { line: line as usize, offset: offset as usize, len: len as usize }
}

/// A token built from its parts.
pub open spec fn mk_token(kind: LexKind, text: Seq<char>, line: int, offset: int, len: int) -> TokenView {
    TokenView { kind, text, span: mk_span(line, offset, len) }
}

/// What one step of the scanner does at index `k`: where it goes on, the
/// line it is then on, the token and the error it yields, and whether the
/// scanner gives up there.
pub ghost struct Step {
    pub next: int,
    pub line: int,
    pub token: Option<TokenView>,
    pub error: Option<ErrorView>,
    pub abort: bool,
}

/// A step that yields `token`.
pub open spec fn token_step(next: int, line: int, token: TokenView) -> Step {
    Step { next, line, token: Some(token), error: None, abort: false }
}

/// A step that yields nothing.
pub open spec fn skip_step(next: int, line: int) -> Step {
    Step { next, line, token: None, error: None, abort: false }
}

/// A step at which the scanner gives up.
pub open spec fn abort_step(k: int, line: int) -> Step {
    Step { next: k + 1, line, token: None, error: None, abort: true }
}

/// The step that reads a string literal opened at index `k`. The literal
/// runs to the next double quote; a literal whose last character is not
/// ASCII cannot be cut out of the source at the offsets the scanner uses,
/// and the scanner gives up on it.
pub open spec fn string_step(cs: Seq<char>, k: int, line: int) -> Step {
    let b = byte_offset(cs, k) as int;
    let j = k + 1 + run(cs, k + 1, CharClass::NotQuote);
    let end: int = if j > k + 1 { (byte_offset(cs, j - 1) + 1) as int } else { b + 1 };
    if j >= cs.len() {
        Step {
            next: j,
            line,
            token: None,
            error: Some(ErrorView { unterminated: true, span: mk_span(line, b, end - b) }),
            abort: false,
        }
    } else if j > k + 1 && !is_ascii(cs[j - 1]) {
        abort_step(k, line)
    } else {
        token_step(j + 1, line, mk_token(LexKind::String, cs.subrange(k + 1, j), line, b + 1, end - (b + 1)))
    }
}

/// The step that reads a number literal starting at index `k`: digits, then
/// a dot and more digits. A dot not followed by a digit is read and dropped.
pub open spec fn number_step(cs: Seq<char>, k: int, line: int) -> Step {
    let b = byte_offset(cs, k) as int;
    let d1 = k + 1 + run(cs, k + 1, CharClass::Digit);
    if d1 < cs.len() && cs[d1] == '.' {
        let d2 = d1 + 1 + run(cs, d1 + 1, CharClass::Digit);
        if d2 == d1 + 1 {
            token_step(d1 + 1, line, mk_token(LexKind::Number, cs.subrange(k, d1), line, b, d1 - k))
        } else {
            token_step(d2, line, mk_token(LexKind::Number, cs.subrange(k, d2), line, b, d2 - k))
        }
    } else {
        token_step(d1, line, mk_token(LexKind::Number, cs.subrange(k, d1), line, b, d1 - k))
    }
}

/// The step that reads an identifier or keyword starting at index `k`. An
/// identifier of one non-ASCII character cannot be cut out of the source at
/// the offsets the scanner uses, and the scanner gives up on it.
pub open spec fn ident_step(cs: Seq<char>, k: int, line: int) -> Step {
    let b = byte_offset(cs, k) as int;
    let e = k + 1 + run(cs, k + 1, CharClass::IdentTail);
    let text = cs.subrange(k, e);
    let len: int = byte_offset(cs, e) - b;
    if e == k + 1 && !is_ascii(cs[k]) {
        abort_step(k, line)
    } else {
        match keyword_of_text(text) {
            Some(kw) => token_step(e, line, mk_token(kw, Seq::empty(), line, b, len)),
            None => token_step(e, line, mk_token(LexKind::Identifier, text, line, b, len)),
        }
    }
}

/// One step of the scanner at index `k` of `cs`, on line `line`.
pub open spec fn step(cs: Seq<char>, k: int, line: int) -> Step {
    let c = cs[k];
    let b = byte_offset(cs, k) as int;
    if is_newline(c) {
        skip_step(k + 1, line + 1)
    } else if is_white(c) {
        skip_step(k + 1, line)
    } else if single_kind(c) is Some {
        token_step(k + 1, line, mk_token(single_kind(c)->0, Seq::empty(), line, b, 1))
    } else if pair_one(c) is Some {
        if k + 1 < cs.len() && cs[k + 1] == '=' {
            token_step(k + 2, line, mk_token(pair_two(c)->0, Seq::empty(), line, b, 2))
        } else {
            token_step(k + 1, line, mk_token(pair_one(c)->0, Seq::empty(), line, b, 1))
        }
    } else if c == '"' {
        string_step(cs, k, line)
    } else if is_digit(c) {
        number_step(cs, k, line)
    } else if is_ascii_letter(c) || c == '_' || (!is_ascii(c) && alphabetic(c)) {
        ident_step(cs, k, line)
    } else if c == '/' {
        if k + 1 < cs.len() && cs[k + 1] == '/' {
            skip_step(k + 1 + run(cs, k + 1, CharClass::NotNewline), line)
        } else {
            token_step(k + 1, line, mk_token(LexKind::Slash, Seq::empty(), line, b, 1))
        }
    } else {
        Step {
            next: k + 1,
            line,
            token: None,
            error: Some(ErrorView { unterminated: false, span: mk_span(line, b, 1) }),
            abort: false,
        }
    }
}

/// What scanning yields: the tokens, the errors, and whether the scanner
/// gave up on the input.
pub ghost struct ScanView {
    pub tokens: Seq<TokenView>,
    pub errors: Seq<ErrorView>,
    pub aborted: bool,
}

/// The sequence holding the value of an option, if any.
pub open spec fn opt_seq<T>(o: Option<T>) -> Seq<T> {
    match o {
        Some(x) => seq![x],
        None => Seq::empty(),
    }
}

/// Every step of the scanner moves on by at least one character.
pub proof fn lemma_step_advances(cs: Seq<char>, k: int, line: int)
    requires
        0 <= k < cs.len(),
    ensures
        k < step(cs, k, line).next <= cs.len(),
{
    lemma_run_bound(cs, k + 1, CharClass::NotQuote);
    lemma_run_bound(cs, k + 1, CharClass::Digit);
    lemma_run_bound(cs, k + 1, CharClass::IdentTail);
    lemma_run_bound(cs, k + 1, CharClass::NotNewline);
    let d1 = k + 1 + run(cs, k + 1, CharClass::Digit);
    if d1 < cs.len() {
        lemma_run_bound(cs, d1 + 1, CharClass::Digit);
    }
}

/// A run ends at the end of the input at the latest; the character after it,
/// if any, is not of the class.
pub proof fn lemma_run_bound(cs: Seq<char>, k: int, cls: CharClass)
    requires
        0 <= k <= cs.len(),
    ensures
        k + run(cs, k, cls) <= cs.len(),
        k + run(cs, k, cls) < cs.len() ==> !in_class(cs[k + run(cs, k, cls)], cls),
        forall|i: int| k <= i < k + run(cs, k, cls) ==> in_class(#[trigger] cs[i], cls),
    decreases cs.len() - k,
{
    if k < cs.len() && in_class(cs[k], cls) {
        lemma_run_bound(cs, k + 1, cls);
    }
}

/// Scanning `cs` from index `k` on, on line `line`. The end of input is a
/// token of its own, placed at the byte length of the source.
pub open spec fn scan_from(cs: Seq<char>, k: int, line: int) -> ScanView
    decreases cs.len() - k,
{
    if k < 0 || k >= cs.len() {
        ScanView {
            tokens: seq![mk_token(LexKind::Eof, Seq::empty(), line, utf8_width(cs) as int, 0)],
            errors: Seq::empty(),
            aborted: false,
        }
    } else {
        let s = step(cs, k, line);
        if s.abort {
            ScanView { tokens: Seq::empty(), errors: Seq::empty(), aborted: true }
        } else {
            proof {
                lemma_step_advances(cs, k, line);
                assert(k < s.next <= cs.len());
            }
            let r = scan_from(cs, s.next, s.line);
            ScanView {
                tokens: opt_seq(s.token) + r.tokens,
                errors: opt_seq(s.error) + r.errors,
                aborted: r.aborted,
            }
        }
    }
}

/// Scanning a whole source, from its first character on line 1.
pub open spec fn spec_scan(cs: Seq<char>) -> ScanView {
    scan_from(cs, 0, 1)
}

/// No step yields the end-of-input token.
pub proof fn lemma_step_not_eof(cs: Seq<char>, k: int, line: int)
    requires
        0 <= k < cs.len(),
    ensures
        step(cs, k, line).token matches Some(t) ==> t.kind != LexKind::Eof,
{
    let c = cs[k];
    if is_ascii_letter(c) || c == '_' || (!is_ascii(c) && alphabetic(c)) {
        let e = k + 1 + run(cs, k + 1, CharClass::IdentTail);
        let text = cs.subrange(k, e);
        if keyword_of_text(text) is Some {
            assert(keyword_of_text(text)->0 != LexKind::Eof);
        }
    }
}

/// Scanning from index `k` on, where it does not give up, ends with the
/// end-of-input token and holds no other.
pub proof fn lemma_scan_from_ends_with_eof(cs: Seq<char>, k: int, line: int)
    requires
        !scan_from(cs, k, line).aborted,
    ensures
        scan_from(cs, k, line).tokens.len() >= 1,
        scan_from(cs, k, line).tokens.last().kind == LexKind::Eof,
        utf8_width(cs) <= usize::MAX ==> scan_from(cs, k, line).tokens.last().span.offset
            == utf8_width(cs),
        forall|i: int|
            0 <= i < scan_from(cs, k, line).tokens.len() - 1 ==> (#[trigger] scan_from(
                cs,
                k,
                line,
            ).tokens[i]).kind != LexKind::Eof,
    decreases cs.len() - k,
{
    if 0 <= k < cs.len() {
        let s = step(cs, k, line);
        lemma_step_advances(cs, k, line);
        lemma_step_not_eof(cs, k, line);
        lemma_scan_from_ends_with_eof(cs, s.next, s.line);
        let r = scan_from(cs, s.next, s.line);
        let all = opt_seq(s.token) + r.tokens;
        assert(scan_from(cs, k, line).tokens == all);
        assert forall|i: int| 0 <= i < all.len() - 1 implies (#[trigger] all[i]).kind != LexKind::Eof by {
            if s.token is Some && i == 0 {
            } else {
                let d = opt_seq(s.token).len() as int;
                assert(all[i] == r.tokens[i - d]);
            }
        }
    }
}

/// A token lies within the source's bytes: it ends no later than the
/// source does.
pub open spec fn within_source(t: TokenView, cs: Seq<char>) -> bool {
    t.span.offset + t.span.len <= utf8_width(cs)
}

/// The bytes of the source up to a character index are at most all of
/// them.
proof fn lemma_offset_within(cs: Seq<char>, k: int)
    requires
        0 <= k <= cs.len(),
    ensures
        byte_offset(cs, k) <= utf8_width(cs),
{
    lemma_byte_offset_mono(cs, k, cs.len() as int);
    assert(cs.take(cs.len() as int) =~= cs);
}

/// The token that a step yields lies within the source.
pub proof fn lemma_step_within(cs: Seq<char>, k: int, line: int)
    requires
        0 <= k < cs.len(),
        utf8_width(cs) <= usize::MAX,
    ensures
        step(cs, k, line).token matches Some(t) ==> within_source(t, cs),
{
    let c = cs[k];
    let b = byte_offset(cs, k) as int;
    lemma_step_advances(cs, k, line);
    lemma_byte_offset_step(cs, k);
    lemma_offset_within(cs, k);
    lemma_offset_within(cs, k + 1);
    lemma_run_bound(cs, k + 1, CharClass::NotQuote);
    lemma_run_bound(cs, k + 1, CharClass::Digit);
    lemma_run_bound(cs, k + 1, CharClass::IdentTail);
    if is_newline(c) || is_white(c) {
    } else if single_kind(c) is Some {
    } else if pair_one(c) is Some {
        if k + 1 < cs.len() && cs[k + 1] == '=' {
            lemma_byte_offset_step(cs, k + 1);
            lemma_offset_within(cs, k + 2);
        }
    } else if c == '"' {
        let j = k + 1 + run(cs, k + 1, CharClass::NotQuote);
        if j < cs.len() && j > k + 1 {
            lemma_byte_offset_step(cs, j - 1);
            lemma_byte_offset_mono(cs, k + 1, j - 1);
            lemma_offset_within(cs, j);
        }
    } else if is_digit(c) {
        let d1 = k + 1 + run(cs, k + 1, CharClass::Digit);
        assert forall|i: int| k <= i < d1 implies is_ascii(#[trigger] cs[i]) by {
            if i > k {
                assert(in_class(cs[i], CharClass::Digit));
            }
        }
        lemma_byte_offset_ascii(cs, k, d1);
        lemma_offset_within(cs, d1);
        if d1 < cs.len() && cs[d1] == '.' {
            lemma_run_bound(cs, d1 + 1, CharClass::Digit);
            let d2 = d1 + 1 + run(cs, d1 + 1, CharClass::Digit);
            assert forall|i: int| k <= i < d2 implies is_ascii(#[trigger] cs[i]) by {
                if i > d1 {
                    assert(in_class(cs[i], CharClass::Digit));
                } else if k < i < d1 {
                    assert(in_class(cs[i], CharClass::Digit));
                }
            }
            lemma_byte_offset_ascii(cs, k, d2);
            lemma_offset_within(cs, d2);
        }
    } else if is_ascii_letter(c) || c == '_' || (!is_ascii(c) && alphabetic(c)) {
        let e = k + 1 + run(cs, k + 1, CharClass::IdentTail);
        lemma_byte_offset_mono(cs, k, e);
        lemma_offset_within(cs, e);
    } else if c == '/' {
    }
}

/// Every token of a scan from index `k` on lies within the source.
pub proof fn lemma_scan_from_within(cs: Seq<char>, k: int, line: int)
    requires
        utf8_width(cs) <= usize::MAX,
    ensures
        forall|i: int|
            0 <= i < scan_from(cs, k, line).tokens.len() ==> within_source(
                #[trigger] scan_from(cs, k, line).tokens[i],
                cs,
            ),
    decreases cs.len() - k,
{
    if 0 <= k < cs.len() {
        let s = step(cs, k, line);
        lemma_step_advances(cs, k, line);
        lemma_step_within(cs, k, line);
        if !s.abort {
            lemma_scan_from_within(cs, s.next, s.line);
            let r = scan_from(cs, s.next, s.line);
            let all = opt_seq(s.token) + r.tokens;
            assert(scan_from(cs, k, line).tokens == all);
            assert forall|i: int| 0 <= i < all.len() implies within_source(#[trigger] all[i], cs) by {
                if s.token is Some && i == 0 {
                } else {
                    let d = opt_seq(s.token).len() as int;
                    assert(all[i] == r.tokens[i - d]);
                }
            }
        }
    }
}

/// Every token of a scan lies within the source's bytes, so that its span
/// can cut its text out of the source.
pub proof fn law_tokens_within_source(cs: Seq<char>)
    requires
        utf8_width(cs) <= usize::MAX,
    ensures
        forall|i: int|
            0 <= i < spec_scan(cs).tokens.len() ==> within_source(#[trigger] spec_scan(cs).tokens[i], cs),
{
    lemma_scan_from_within(cs, 0, 1);
}

/// The span of `t` covers exactly the characters of its text: some run of
/// characters of the source starts at the span's offset, ends where the
/// span ends, and spells the token's text.
#[verifier::opaque]
pub open spec fn cuts_text(t: TokenView, cs: Seq<char>) -> bool {
    exists|a: int, e: int|
        0 <= a <= e <= cs.len() && #[trigger] byte_offset(cs, a) == t.span.offset && #[trigger] byte_offset(
            cs,
            e,
        ) == t.span.offset + t.span.len && cs.subrange(a, e) == t.text
}

/// A number, identifier or string token of a step cuts its text out of
/// the source, starts no earlier than the step and ends before the next
/// step starts.
pub proof fn lemma_step_span(cs: Seq<char>, k: int, line: int)
    requires
        0 <= k < cs.len(),
        utf8_width(cs) <= usize::MAX,
    ensures
        step(cs, k, line).token matches Some(t) ==> {
            &&& byte_offset(cs, k) <= t.span.offset
            &&& t.span.offset + t.span.len <= byte_offset(cs, step(cs, k, line).next)
            &&& (t.kind == LexKind::Number || t.kind == LexKind::Identifier || t.kind
                == LexKind::String) ==> cuts_text(t, cs)
        },
{
    reveal(cuts_text);
    let c = cs[k];
    let st = step(cs, k, line);
    let b = byte_offset(cs, k) as int;
    lemma_step_advances(cs, k, line);
    lemma_byte_offset_step(cs, k);
    lemma_offset_within(cs, k);
    lemma_offset_within(cs, k + 1);
    lemma_offset_within(cs, st.next);
    lemma_run_bound(cs, k + 1, CharClass::NotQuote);
    lemma_run_bound(cs, k + 1, CharClass::Digit);
    lemma_run_bound(cs, k + 1, CharClass::IdentTail);
    if is_newline(c) || is_white(c) {
    } else if single_kind(c) is Some {
    } else if pair_one(c) is Some {
        if k + 1 < cs.len() && cs[k + 1] == '=' {
            lemma_byte_offset_step(cs, k + 1);
            lemma_offset_within(cs, k + 2);
        }
    } else if c == '"' {
        let j = k + 1 + run(cs, k + 1, CharClass::NotQuote);
        if j < cs.len() && !(j > k + 1 && !is_ascii(cs[j - 1])) {
            lemma_byte_offset_mono(cs, k + 1, j);
            lemma_byte_offset_mono(cs, j, j + 1);
            lemma_offset_within(cs, j);
            if j > k + 1 {
                lemma_byte_offset_step(cs, j - 1);
            }
            let t = st.token->0;
            assert(byte_offset(cs, k + 1) == t.span.offset);
            assert(byte_offset(cs, j) == t.span.offset + t.span.len);
            assert(cuts_text(t, cs));
        }
    } else if is_digit(c) {
        let d1 = k + 1 + run(cs, k + 1, CharClass::Digit);
        assert forall|i: int| k <= i < d1 implies is_ascii(#[trigger] cs[i]) by {
            if i > k {
                assert(in_class(cs[i], CharClass::Digit));
            }
        }
        lemma_byte_offset_ascii(cs, k, d1);
        lemma_offset_within(cs, d1);
        if d1 < cs.len() && cs[d1] == '.' {
            lemma_run_bound(cs, d1 + 1, CharClass::Digit);
            let d2 = d1 + 1 + run(cs, d1 + 1, CharClass::Digit);
            assert forall|i: int| k <= i < d2 implies is_ascii(#[trigger] cs[i]) by {
                if i > d1 {
                    assert(in_class(cs[i], CharClass::Digit));
                } else if k < i < d1 {
                    assert(in_class(cs[i], CharClass::Digit));
                }
            }
            lemma_byte_offset_ascii(cs, k, d2);
            lemma_offset_within(cs, d2);
            lemma_byte_offset_mono(cs, d1, d1 + 1);
            let t = st.token->0;
            if d2 == d1 + 1 {
                assert(byte_offset(cs, k) == t.span.offset);
                assert(byte_offset(cs, d1) == t.span.offset + t.span.len);
            } else {
                assert(byte_offset(cs, k) == t.span.offset);
                assert(byte_offset(cs, d2) == t.span.offset + t.span.len);
            }
            assert(cuts_text(t, cs));
        } else {
            let t = st.token->0;
            assert(byte_offset(cs, k) == t.span.offset);
            assert(byte_offset(cs, d1) == t.span.offset + t.span.len);
            assert(cuts_text(t, cs));
        }
    } else if is_ascii_letter(c) || c == '_' || (!is_ascii(c) && alphabetic(c)) {
        let e = k + 1 + run(cs, k + 1, CharClass::IdentTail);
        lemma_byte_offset_mono(cs, k, e);
        lemma_offset_within(cs, e);
        if !(e == k + 1 && !is_ascii(cs[k])) {
            let t = st.token->0;
            assert(byte_offset(cs, k) == t.span.offset);
            assert(byte_offset(cs, e) == t.span.offset + t.span.len);
            if t.kind == LexKind::Identifier {
                assert(cuts_text(t, cs));
            }
        }
    } else if c == '/' {
        if k + 1 < cs.len() && cs[k + 1] == '/' {
        }
    }
}

/// The tokens of a scan from index `k` on start no earlier than `k`'s byte
/// offset.
proof fn lemma_scan_from_start(cs: Seq<char>, k: int, line: int)
    requires
        0 <= k <= cs.len(),
        utf8_width(cs) <= usize::MAX,
    ensures
        forall|i: int|
            0 <= i < scan_from(cs, k, line).tokens.len() ==> byte_offset(cs, k) <= (
            #[trigger] scan_from(cs, k, line).tokens[i]).span.offset,
    decreases cs.len() - k,
{
    lemma_offset_within(cs, k);
    if k < cs.len() {
        let s = step(cs, k, line);
        lemma_step_advances(cs, k, line);
        lemma_step_span(cs, k, line);
        lemma_byte_offset_mono(cs, k, s.next);
        if !s.abort {
            lemma_scan_from_start(cs, s.next, s.line);
            let r = scan_from(cs, s.next, s.line);
            let all = opt_seq(s.token) + r.tokens;
            assert(scan_from(cs, k, line).tokens == all);
            let d = opt_seq(s.token).len() as int;
            assert forall|i: int| 0 <= i < all.len() implies byte_offset(cs, k) <= (
            #[trigger] all[i]).span.offset by {
                if i >= d {
                    assert(all[i] == r.tokens[i - d]);
                }
            }
        }
    }
}

/// Each token of a scan from index `k` on ends no later than the next one
/// starts.
#[verifier::rlimit(50)]
proof fn lemma_scan_from_order(cs: Seq<char>, k: int, line: int)
    requires
        0 <= k <= cs.len(),
        utf8_width(cs) <= usize::MAX,
    ensures
        forall|i: int|
            0 <= i < scan_from(cs, k, line).tokens.len() - 1 ==> (#[trigger] scan_from(
                cs,
                k,
                line,
            ).tokens[i]).span.offset + scan_from(cs, k, line).tokens[i].span.len <= scan_from(
                cs,
                k,
                line,
            ).tokens[i + 1].span.offset,
    decreases cs.len() - k,
{
    if k < cs.len() {
        let s = step(cs, k, line);
        lemma_step_advances(cs, k, line);
        lemma_step_span(cs, k, line);
        if !s.abort {
            lemma_scan_from_order(cs, s.next, s.line);
            lemma_scan_from_start(cs, s.next, s.line);
            let r = scan_from(cs, s.next, s.line);
            let all = opt_seq(s.token) + r.tokens;
            assert(scan_from(cs, k, line).tokens == all);
            let d = opt_seq(s.token).len() as int;
            assert forall|i: int| 0 <= i < all.len() - 1 implies (#[trigger] all[i]).span.offset
                + all[i].span.len <= all[i + 1].span.offset by {
                if i >= d {
                    assert(all[i] == r.tokens[i - d]);
                    assert(all[i + 1] == r.tokens[i + 1 - d]);
                } else {
                    assert(all[i + 1] == r.tokens[0]);
                }
            }
        }
    }
}

/// Each number, identifier and string token of a scan from index `k` on
/// cuts its text out of the source.
proof fn lemma_scan_from_cuts(cs: Seq<char>, k: int, line: int)
    requires
        0 <= k <= cs.len(),
        utf8_width(cs) <= usize::MAX,
    ensures
        forall|i: int|
            0 <= i < scan_from(cs, k, line).tokens.len() && (scan_from(cs, k, line).tokens[i].kind
                == LexKind::Number || scan_from(cs, k, line).tokens[i].kind == LexKind::Identifier
                || scan_from(cs, k, line).tokens[i].kind == LexKind::String) ==> cuts_text(
                #[trigger] scan_from(cs, k, line).tokens[i],
                cs,
            ),
    decreases cs.len() - k,
{
    if k < cs.len() {
        let s = step(cs, k, line);
        lemma_step_advances(cs, k, line);
        lemma_step_span(cs, k, line);
        if !s.abort {
            lemma_scan_from_cuts(cs, s.next, s.line);
            let r = scan_from(cs, s.next, s.line);
            let all = opt_seq(s.token) + r.tokens;
            assert(scan_from(cs, k, line).tokens == all);
            let d = opt_seq(s.token).len() as int;
            assert forall|i: int|
                0 <= i < all.len() && (all[i].kind == LexKind::Number || all[i].kind
                    == LexKind::Identifier || all[i].kind == LexKind::String) implies cuts_text(
                #[trigger] all[i],
                cs,
            ) by {
                if i >= d {
                    assert(all[i] == r.tokens[i - d]);
                }
            }
        }
    }
}

/// The tokens of a scan come in the order of the source and do not
/// overlap, and each number, identifier and string token's span cuts
/// exactly its text out of the source.
#[verifier::rlimit(50)]
pub proof fn law_spans_cut_tokens(cs: Seq<char>)
    requires
        utf8_width(cs) <= usize::MAX,
    ensures
        forall|i: int|
            0 <= i < spec_scan(cs).tokens.len() - 1 ==> (#[trigger] spec_scan(cs).tokens[i]).span.offset
                + spec_scan(cs).tokens[i].span.len <= spec_scan(cs).tokens[i + 1].span.offset,
        forall|i: int|
            0 <= i < spec_scan(cs).tokens.len() && (spec_scan(cs).tokens[i].kind == LexKind::Number
                || spec_scan(cs).tokens[i].kind == LexKind::Identifier || spec_scan(cs).tokens[i].kind
                == LexKind::String) ==> cuts_text(#[trigger] spec_scan(cs).tokens[i], cs),
{
    lemma_scan_from_order(cs, 0, 1);
    lemma_scan_from_cuts(cs, 0, 1);
}

/// How a token is written in the source: the text of a number, identifier
/// or string (a string without its quotes), the fixed spelling of any other
/// token.
pub open spec fn spelling(t: TokenView) -> Seq<char> {
    if has_payload(t.kind) {
        t.text
    } else {
        fixed_text(t.kind)
    }
}

/// The span of `t` covers exactly its spelling: some run of characters of
/// the source starts at the span's offset, ends where the span ends, and is
/// the token's spelling.
#[verifier::opaque]
pub open spec fn spells(t: TokenView, cs: Seq<char>) -> bool {
    exists|a: int, e: int|
        0 <= a <= e <= cs.len() && #[trigger] byte_offset(cs, a) == t.span.offset && #[trigger] byte_offset(
            cs,
            e,
        ) == t.span.offset + t.span.len && cs.subrange(a, e) == spelling(t)
}

/// A token whose characters from `a` to `e` spell it, at the byte offsets
/// of its span, spells itself in the source.
proof fn lemma_spells_at(t: TokenView, cs: Seq<char>, a: int, e: int)
    requires
        0 <= a <= e <= cs.len(),
        byte_offset(cs, a) == t.span.offset,
        byte_offset(cs, e) == t.span.offset + t.span.len,
        cs.subrange(a, e) == spelling(t),
    ensures
        spells(t, cs),
{
    reveal(spells);
}

/// A number, identifier or string token that cuts its text out of the
/// source spells itself there.
proof fn lemma_cuts_spells(t: TokenView, cs: Seq<char>)
    requires
        has_payload(t.kind),
        cuts_text(t, cs),
    ensures
        spells(t, cs),
{
    reveal(cuts_text);
    let (a, e) = choose|a: int, e: int|
        0 <= a <= e <= cs.len() && #[trigger] byte_offset(cs, a) == t.span.offset && #[trigger] byte_offset(
            cs,
            e,
        ) == t.span.offset + t.span.len && cs.subrange(a, e) == t.text;
    lemma_spells_at(t, cs, a, e);
}

/// The text of a keyword is its fixed spelling.
proof fn lemma_keyword_text(text: Seq<char>)
    requires
        keyword_of_text(text) is Some,
    ensures
        text == fixed_text(keyword_of_text(text)->0),
{
}

/// The token that a step yields spells itself in the source.
pub proof fn lemma_step_spells(cs: Seq<char>, k: int, line: int)
    requires
        0 <= k < cs.len(),
        utf8_width(cs) <= usize::MAX,
    ensures
        step(cs, k, line).token matches Some(t) ==> spells(t, cs),
{
    let c = cs[k];
    let st = step(cs, k, line);
    let b = byte_offset(cs, k) as int;
    lemma_step_span(cs, k, line);
    lemma_step_advances(cs, k, line);
    lemma_byte_offset_step(cs, k);
    lemma_offset_within(cs, k);
    lemma_offset_within(cs, k + 1);
    if is_newline(c) || is_white(c) {
    } else if single_kind(c) is Some {
        let t = st.token->0;
        assert(cs.subrange(k, k + 1) =~= seq![c]);
        assert(fixed_text(single_kind(c)->0) == seq![c]);
        lemma_spells_at(t, cs, k, k + 1);
    } else if pair_one(c) is Some {
        let t = st.token->0;
        if k + 1 < cs.len() && cs[k + 1] == '=' {
            lemma_byte_offset_step(cs, k + 1);
            lemma_offset_within(cs, k + 2);
            assert(cs.subrange(k, k + 2) =~= seq![c, '=']);
            assert(fixed_text(pair_two(c)->0) == seq![c, '=']);
            lemma_spells_at(t, cs, k, k + 2);
        } else {
            assert(cs.subrange(k, k + 1) =~= seq![c]);
            assert(fixed_text(pair_one(c)->0) == seq![c]);
            lemma_spells_at(t, cs, k, k + 1);
        }
    } else if c == '"' || is_digit(c) {
        if st.token is Some {
            lemma_cuts_spells(st.token->0, cs);
        }
    } else if is_ascii_letter(c) || c == '_' || (!is_ascii(c) && alphabetic(c)) {
        let e = k + 1 + run(cs, k + 1, CharClass::IdentTail);
        lemma_run_bound(cs, k + 1, CharClass::IdentTail);
        lemma_byte_offset_mono(cs, k, e);
        lemma_offset_within(cs, e);
        if !(e == k + 1 && !is_ascii(cs[k])) {
            let t = st.token->0;
            let text = cs.subrange(k, e);
            if t.kind == LexKind::Identifier {
                lemma_cuts_spells(t, cs);
            } else {
                lemma_keyword_text(text);
                lemma_spells_at(t, cs, k, e);
            }
        }
    } else if c == '/' {
        if !(k + 1 < cs.len() && cs[k + 1] == '/') {
            let t = st.token->0;
            assert(cs.subrange(k, k + 1) =~= seq![c]);
            lemma_spells_at(t, cs, k, k + 1);
        }
    }
}

/// Each token of a scan from index `k` on, but the end of input, spells
/// itself in the source.
proof fn lemma_scan_from_spells(cs: Seq<char>, k: int, line: int)
    requires
        0 <= k <= cs.len(),
        utf8_width(cs) <= usize::MAX,
    ensures
        forall|i: int|
            0 <= i < scan_from(cs, k, line).tokens.len() && scan_from(cs, k, line).tokens[i].kind
                != LexKind::Eof ==> spells(#[trigger] scan_from(cs, k, line).tokens[i], cs),
    decreases cs.len() - k,
{
    if k < cs.len() {
        let s = step(cs, k, line);
        lemma_step_advances(cs, k, line);
        lemma_step_spells(cs, k, line);
        if !s.abort {
            lemma_scan_from_spells(cs, s.next, s.line);
            let r = scan_from(cs, s.next, s.line);
            let all = opt_seq(s.token) + r.tokens;
            assert(scan_from(cs, k, line).tokens == all);
            let d = opt_seq(s.token).len() as int;
            assert forall|i: int| 0 <= i < all.len() && all[i].kind != LexKind::Eof implies spells(
                #[trigger] all[i],
                cs,
            ) by {
                if i >= d {
                    assert(all[i] == r.tokens[i - d]);
                }
            }
        }
    }
}

/// Every token of a scan but the end of input is written in the source at
/// its span: a `+` token's span covers a `+`, a `<=` token's span `<=`, a
/// keyword's span the keyword, and a number, identifier or string token's
/// span its text.
pub proof fn law_tokens_spell_source(cs: Seq<char>)
    requires
        utf8_width(cs) <= usize::MAX,
    ensures
        forall|i: int|
            0 <= i < spec_scan(cs).tokens.len() && spec_scan(cs).tokens[i].kind != LexKind::Eof
                ==> spells(#[trigger] spec_scan(cs).tokens[i], cs),
{
    lemma_scan_from_spells(cs, 0, 1);
}

/// A scan that does not give up ends with the end-of-input token, placed at
/// the byte length of the source, and holds no other end-of-input token.
pub proof fn law_scan_ends_with_eof(cs: Seq<char>)
    requires
        !spec_scan(cs).aborted,
    ensures
        spec_scan(cs).tokens.len() >= 1,
        spec_scan(cs).tokens.last().kind == LexKind::Eof,
        utf8_width(cs) <= usize::MAX ==> spec_scan(cs).tokens.last().span.offset == utf8_width(cs),
        forall|i: int|
            0 <= i < spec_scan(cs).tokens.len() - 1 ==> (#[trigger] spec_scan(cs).tokens[i]).kind
                != LexKind::Eof,
{
    lemma_scan_from_ends_with_eof(cs, 0, 1);
}

/// A run of a class that every character from `k` to the end belongs to
/// reaches the end.
proof fn lemma_run_to_end(cs: Seq<char>, k: int, cls: CharClass)
    requires
        0 <= k <= cs.len(),
        forall|i: int| k <= i < cs.len() ==> in_class(#[trigger] cs[i], cls),
    ensures
        run(cs, k, cls) == cs.len() - k,
    decreases cs.len() - k,
{
    if k < cs.len() {
        lemma_run_to_end(cs, k + 1, cls);
    }
}

/// An identifier runs over every ASCII letter, underscore and digit from
/// `0` to `8` that follows its first character, a letter or underscore: a
/// source that is one such word, and not a keyword, scans to that word as a
/// single identifier, then the end of input.
pub proof fn law_identifier_takes_word(cs: Seq<char>)
    requires
        cs.len() > 0,
        is_ascii_letter(cs[0]) || cs[0] == '_',
        forall|i: int|
            1 <= i < cs.len() ==> is_ascii_letter(#[trigger] cs[i]) || cs[i] == '_' || ('0' <= cs[i]
                && cs[i] <= '8'),
        keyword_of_text(cs) is None,
    ensures
        !spec_scan(cs).aborted,
        spec_scan(cs).errors.len() == 0,
        spec_scan(cs).tokens.len() == 2,
        spec_scan(cs).tokens[0].kind == LexKind::Identifier,
        spec_scan(cs).tokens[0].text == cs,
        spec_scan(cs).tokens[1].kind == LexKind::Eof,
{
    assert forall|i: int| 1 <= i < cs.len() implies in_class(#[trigger] cs[i], CharClass::IdentTail) by {
        assert(is_ascii_letter(cs[i]) || cs[i] == '_' || ('0' <= cs[i] && cs[i] <= '8'));
    }
    lemma_run_to_end(cs, 1, CharClass::IdentTail);
    let c = cs[0];
    assert(is_ascii_letter(c) || c == '_');
    assert(is_ascii(c));
    assert(cs.subrange(0, cs.len() as int) =~= cs);
    let s = step(cs, 0, 1);
    assert(s == ident_step(cs, 0, 1));
    assert(!s.abort && s.next == cs.len() && s.error is None);
    assert(s.token matches Some(t) && t.kind == LexKind::Identifier && t.text == cs);
    let r = scan_from(cs, s.next, s.line);
    assert(r.tokens.len() == 1 && r.tokens[0].kind == LexKind::Eof && r.errors.len() == 0 && !r.aborted);
    assert(spec_scan(cs).tokens =~= opt_seq(s.token) + r.tokens);
}

} // verus!

verus! {

/// What one step of the scanner produced.
pub struct StepOut {
    pub next: usize,
    pub line: usize,
    pub token: Option<Token>,
    pub error: Option<TokenError>,
    pub abort: bool,
}

/// The abstract value of an optional token.
pub open spec fn token_opt_view(o: Option<Token>) -> Option<TokenView> {
    match o {
        Some(t) => Some(t@),
        None => None,
    }
}

/// The abstract value of an optional error.
pub open spec fn error_opt_view(o: Option<TokenError>) -> Option<ErrorView> {
    match o {
        Some(e) => Some(e.view()),
        None => None,
    }
}

/// The produced step is the step of the specification.
pub open spec fn step_matches(o: StepOut, s: Step, src: Seq<char>) -> bool {
    &&& o.next == s.next
    &&& o.line == s.line
    &&& o.abort == s.abort
    &&& !s.abort ==> token_opt_view(o.token) == s.token
    &&& !s.abort ==> error_opt_view(o.error) == s.error
    &&& o.error matches Some(e) ==> e.source_text() == src
}

/// Whether `c` belongs to the class `cls`.
pub fn class_matches(c: char, cls: CharClass) -> (r: bool)
    ensures
        r == in_class(c, cls),
{
    match cls {
        CharClass::Digit => '0' <= c && c <= '9',
        CharClass::IdentTail => c == '_' || ('a' <= c && c <= 'z') || ('A' <= c && c <= 'Z') || (
        '0' <= c && c <= '8'),
        CharClass::NotQuote => c != '"',
        CharClass::NotNewline => !(c == '\n' || c == '\r'),
    }
}

/// The index where the run of class `cls` that starts at `k` ends.
pub fn run_end(cs: &[char], k: usize, cls: CharClass) -> (e: usize)
    requires
        k <= cs.len(),
    ensures
        e == k + run(cs@, k as int, cls),
        e <= cs.len(),
{
    let mut i = k;
    while i < cs.len() && class_matches(cs[i], cls)
        invariant
            k <= i <= cs.len(),
            run(cs@, k as int, cls) == (i - k) + run(cs@, i as int, cls),
        decreases cs.len() - i,
    {
        i = i + 1;
    }
    proof {
        lemma_run_bound(cs@, k as int, cls);
    }
    i
}

/// The byte offset of index `j`, counted on from the byte offset `b` of
/// index `k`.
pub fn advance_bytes(cs: &[char], k: usize, b: usize, j: usize) -> (r: usize)
    requires
        k <= j <= cs.len(),
        b == byte_offset(cs@, k as int),
        utf8_width(cs@) <= usize::MAX,
    ensures
        r == byte_offset(cs@, j as int),
{
    let mut i = k;
    let mut r = b;
    while i < j
        invariant
            k <= i <= j <= cs.len(),
            r == byte_offset(cs@, i as int),
            utf8_width(cs@) <= usize::MAX,
        decreases j - i,
    {
        proof {
            lemma_byte_offset_step(cs@, i as int);
            lemma_byte_offset_mono(cs@, i + 1, cs.len() as int);
            assert(cs@.take(cs.len() as int) =~= cs@);
        }
        r = r + char_len(cs[i]);
        i = i + 1;
    }
    r
}

/// Whether `c` is an ASCII character.
fn is_ascii_char(c: char) -> (r: bool)
    ensures
        r == is_ascii(c),
{
    (c as u32) < 0x80
}

/// A step that yields a token.
fn token_out(next: usize, line: usize, lexeme: Lexeme, span: Span) -> (o: StepOut)
    ensures
        o.next == next,
        o.line == line,
        o.token == Some(Token { lexeme, span }),
        o.error is None,
        !o.abort,
{
    StepOut { next, line, token: Some(Token::new(lexeme, span)), error: None, abort: false }
}

/// A step at which the scanner gives up.
fn abort_out(k: usize, line: usize) -> (o: StepOut)
    requires
        k < usize::MAX,
    ensures
        o.next == k + 1,
        o.line == line,
        o.abort,
        o.error is None,
{
    StepOut { next: k + 1, line, token: None, error: None, abort: true }
}

/// The facts about the input that every step relies on.
pub open spec fn scan_input(cs: Seq<char>, src: &str) -> bool {
    &&& cs == src@
    &&& utf8_width(cs) == src.len()
    &&& cs.len() < usize::MAX
}

/// Reads a string literal opened at index `k`.
fn scan_string(cs: &[char], k: usize, b: usize, line: usize, source: &str) -> (o: StepOut)
    requires
        k < cs.len(),
        cs@[k as int] == '"',
        b == byte_offset(cs@, k as int),
        scan_input(cs@, source),
    ensures
        step_matches(o, string_step(cs@, k as int, line as int), source@),
{
    proof {
        lemma_byte_offset_step(cs@, k as int);
        lemma_byte_offset_mono(cs@, k + 1, cs.len() as int);
        assert(cs@.take(cs.len() as int) =~= cs@);
        lemma_run_bound(cs@, k + 1, CharClass::NotQuote);
    }
    let j = run_end(cs, k + 1, CharClass::NotQuote);
    let end = if j > k + 1 {
        let bl = advance_bytes(cs, k + 1, b + 1, j - 1);
        proof {
            lemma_byte_offset_step(cs@, j - 1);
            lemma_byte_offset_mono(cs@, k + 1, j - 1);
            lemma_byte_offset_mono(cs@, j as int, cs.len() as int);
        }
        bl + 1
    } else {
        b + 1
    };
    if j >= cs.len() {
        let span = Span::new(line, b, end - b);
        StepOut {
            next: j,
            line,
            token: None,
            error: Some(TokenError::UnterminatedString { src: string_of(source), span }),
            abort: false,
        }
    } else if j > k + 1 && !is_ascii_char(cs[j - 1]) {
        abort_out(k, line)
    } else {
        let content = chars_range(cs, k + 1, j);
        let lexeme = Lexeme::String(string_from_chars(content.as_slice()));
        token_out(j + 1, line, lexeme, Span::new(line, b + 1, end - (b + 1)))
    }
}

/// Reads a number literal starting at index `k`.
fn scan_number(cs: &[char], k: usize, b: usize, line: usize, source: &str) -> (o: StepOut)
    requires
        k < cs.len(),
        is_digit(cs@[k as int]),
        b == byte_offset(cs@, k as int),
        scan_input(cs@, source),
    ensures
        step_matches(o, number_step(cs@, k as int, line as int), source@),
{
    let d1 = run_end(cs, k + 1, CharClass::Digit);
    if d1 < cs.len() && cs[d1] == '.' {
        let d2 = run_end(cs, d1 + 1, CharClass::Digit);
        if d2 == d1 + 1 {
            let text = chars_range(cs, k, d1);
            let lexeme = Lexeme::Number(string_from_chars(text.as_slice()));
            token_out(d1 + 1, line, lexeme, Span::new(line, b, d1 - k))
        } else {
            let text = chars_range(cs, k, d2);
            let lexeme = Lexeme::Number(string_from_chars(text.as_slice()));
            token_out(d2, line, lexeme, Span::new(line, b, d2 - k))
        }
    } else {
        let text = chars_range(cs, k, d1);
        let lexeme = Lexeme::Number(string_from_chars(text.as_slice()));
        token_out(d1, line, lexeme, Span::new(line, b, d1 - k))
    }
}

/// Reads an identifier or keyword starting at index `k`.
fn scan_ident(cs: &[char], k: usize, b: usize, line: usize, source: &str) -> (o: StepOut)
    requires
        k < cs.len(),
        b == byte_offset(cs@, k as int),
        scan_input(cs@, source),
    ensures
        step_matches(o, ident_step(cs@, k as int, line as int), source@),
{
    let e = run_end(cs, k + 1, CharClass::IdentTail);
    if e == k + 1 && !is_ascii_char(cs[k]) {
        return abort_out(k, line);
    }
    let text = chars_range(cs, k, e);
    proof {
        lemma_byte_offset_mono(cs@, k as int, e as int);
        lemma_byte_offset_mono(cs@, e as int, cs.len() as int);
        assert(cs@.take(cs.len() as int) =~= cs@);
    }
    let be = advance_bytes(cs, k, b, e);
    let len = be - b;
    match keyword_of_chars(text.as_slice()) {
        Some(kw) => token_out(e, line, Lexeme::of_kind(kw), Span::new(line, b, len)),
        None => {
            let lexeme = Lexeme::Identifier(string_from_chars(text.as_slice()));
            token_out(e, line, lexeme, Span::new(line, b, len))
        },
    }
}

} // verus!

verus! {

/// The kind of a one-character token that never combines with a following
/// character.
fn single_kind_of(c: char) -> (r: Option<LexKind>)
    ensures
        r == single_kind(c),
{
    if c == '(' { Some(LexKind::LeftParen) }
    else if c == ')' { Some(LexKind::RightParen) }
    else if c == '{' { Some(LexKind::LeftBrace) }
    else if c == '}' { Some(LexKind::RightBrace) }
    else if c == ',' { Some(LexKind::Comma) }
    else if c == '.' { Some(LexKind::Dot) }
    else if c == '+' { Some(LexKind::Plus) }
    else if c == '-' { Some(LexKind::Minus) }
    else if c == ';' { Some(LexKind::SemiColon) }
    else if c == '*' { Some(LexKind::Star) }
    else { None }
}

/// The kinds of an operator that may be followed by `=`: read alone, and
/// read with the `=`.
fn pair_kinds_of(c: char) -> (r: Option<(LexKind, LexKind)>)
    ensures
        r is Some <==> pair_one(c) is Some,
        r matches Some(p) ==> p.0 == pair_one(c)->0 && p.1 == pair_two(c)->0,
{
    if c == '=' { Some((LexKind::Eq, LexKind::EqEq)) }
    else if c == '<' { Some((LexKind::Less, LexKind::LessEq)) }
    else if c == '>' { Some((LexKind::Greater, LexKind::GreaterEq)) }
    else if c == '!' { Some((LexKind::Bang, LexKind::BangEq)) }
    else { None }
}

/// One step of the scanner at index `k`, whose byte offset is `b`.
fn scan_step(cs: &[char], k: usize, b: usize, line: usize, source: &str) -> (o: StepOut)
    requires
        k < cs.len(),
        b == byte_offset(cs@, k as int),
        1 <= line <= k + 1,
        scan_input(cs@, source),
    ensures
        step_matches(o, step(cs@, k as int, line as int), source@),
{
    let c = cs[k];
    if c == '\n' || c == '\r' {
        return StepOut { next: k + 1, line: line + 1, token: None, error: None, abort: false };
    }
    if is_whitespace(c) {
        return StepOut { next: k + 1, line, token: None, error: None, abort: false };
    }
    if let Some(kind) = single_kind_of(c) {
        return token_out(k + 1, line, Lexeme::of_kind(kind), Span::new(line, b, 1));
    }
    if let Some(kinds) = pair_kinds_of(c) {
        if k + 1 < cs.len() && cs[k + 1] == '=' {
            return token_out(k + 2, line, Lexeme::of_kind(kinds.1), Span::new(line, b, 2));
        } else {
            return token_out(k + 1, line, Lexeme::of_kind(kinds.0), Span::new(line, b, 1));
        }
    }
    if c == '"' {
        return scan_string(cs, k, b, line, source);
    }
    if '0' <= c && c <= '9' {
        return scan_number(cs, k, b, line, source);
    }
    let ident_start = if ('a' <= c && c <= 'z') || ('A' <= c && c <= 'Z') || c == '_' {
        true
    } else if is_ascii_char(c) {
        false
    } else {
        char_is_alphabetic(c)
    };
    if ident_start {
        return scan_ident(cs, k, b, line, source);
    }
    if c == '/' {
        if k + 1 < cs.len() && cs[k + 1] == '/' {
            let e = run_end(cs, k + 1, CharClass::NotNewline);
            return StepOut { next: e, line, token: None, error: None, abort: false };
        } else {
            return token_out(k + 1, line, Lexeme::Slash, Span::new(line, b, 1));
        }
    }
    StepOut {
        next: k + 1,
        line,
        token: None,
        error: Some(TokenError::InvalidToken { src: string_of(source), span: Span::new(line, b, 1) }),
        abort: false,
    }
}

/// The abstract value of a sequence of tokens.
pub open spec fn tokens_view(ts: Seq<Token>) -> Seq<TokenView> {
    ts.map_values(|t: Token| t@)
}

/// The abstract value of a sequence of errors.
pub open spec fn errors_view(es: Seq<TokenError>) -> Seq<ErrorView> {
    es.map_values(|e: TokenError| e.view())
}

/// Scans the characters `cs` of `source`: the tokens and errors, and whether
/// the scanner gave up. When it gave up, the tokens and errors are those
/// read before.
fn scan_chars(cs: &[char], source: &str) -> (r: (Vec<Token>, Vec<TokenError>, bool))
    requires
        scan_input(cs@, source),
    ensures
        r.2 == spec_scan(cs@).aborted,
        !r.2 ==> tokens_view(r.0@) == spec_scan(cs@).tokens,
        !r.2 ==> errors_view(r.1@) == spec_scan(cs@).errors,
        forall|i: int| 0 <= i < r.1@.len() ==> (#[trigger] r.1@[i]).source_text() == source@,
{
    let mut k: usize = 0;
    let mut b: usize = 0;
    let mut line: usize = 1;
    let mut tokens: Vec<Token> = Vec::new();
    let mut errors: Vec<TokenError> = Vec::new();
    proof {
        assert(cs@.take(0) =~= Seq::<char>::empty());
        assert(tokens_view(tokens@) =~= Seq::<TokenView>::empty());
        assert(errors_view(errors@) =~= Seq::<ErrorView>::empty());
        assert(spec_scan(cs@).tokens =~= tokens_view(tokens@) + scan_from(cs@, 0, 1).tokens);
        assert(spec_scan(cs@).errors =~= errors_view(errors@) + scan_from(cs@, 0, 1).errors);
    }
    while k < cs.len()
        invariant
            k <= cs.len(),
            b == byte_offset(cs@, k as int),
            1 <= line <= k + 1,
            scan_input(cs@, source),
            spec_scan(cs@).tokens == tokens_view(tokens@) + scan_from(cs@, k as int, line as int).tokens,
            spec_scan(cs@).errors == errors_view(errors@) + scan_from(cs@, k as int, line as int).errors,
            spec_scan(cs@).aborted == scan_from(cs@, k as int, line as int).aborted,
            forall|i: int| 0 <= i < errors@.len() ==> (#[trigger] errors@[i]).source_text() == source@,
        decreases cs.len() - k,
    {
        let o = scan_step(cs, k, b, line, source);
        proof {
            lemma_step_advances(cs@, k as int, line as int);
        }
        if o.abort {
            return (tokens, errors, true);
        }
        let ghost s = step(cs@, k as int, line as int);
        let ghost rest = scan_from(cs@, o.next as int, o.line as int);
        let ghost old_tokens = tokens@;
        let ghost old_errors = errors@;
        match o.token {
            Some(t) => {
                tokens.push(t);
            },
            None => {},
        }
        match o.error {
            Some(e) => {
                errors.push(e);
            },
            None => {},
        }
        proof {
            assert(tokens_view(tokens@) =~= tokens_view(old_tokens) + opt_seq(s.token));
            assert(errors_view(errors@) =~= errors_view(old_errors) + opt_seq(s.error));
            assert(spec_scan(cs@).tokens =~= tokens_view(tokens@) + rest.tokens);
            assert(spec_scan(cs@).errors =~= errors_view(errors@) + rest.errors);
            lemma_byte_offset_mono(cs@, o.next as int, cs.len() as int);
            assert(cs@.take(cs.len() as int) =~= cs@);
        }
        b = advance_bytes(cs, k, b, o.next);
        k = o.next;
        line = o.line;
    }
    let ghost old_tokens = tokens@;
    tokens.push(Token::new(Lexeme::Eof, Span::new(line, source.len(), 0)));
    proof {
        assert(tokens_view(tokens@) =~= tokens_view(old_tokens) + scan_from(cs@, k as int, line as int).tokens);
        assert(errors_view(errors@) =~= errors_view(errors@) + scan_from(cs@, k as int, line as int).errors);
    }
    (tokens, errors, false)
}

} // verus!

verus! {

/// What scanning a source yields: its tokens, the errors met, and whether
/// the scanner gave up on the input (see `Scanner::scan_report`).
pub struct ScanReport {
    pub tokens: Vec<Token>,
    pub errors: Vec<TokenError>,
    pub aborted: bool,
}

/// The machine limits on a source text: its characters and its bytes can
/// be counted in a `usize`, with room for one more character.
pub open spec fn source_fits(source: &str) -> bool {
    source@.len() < usize::MAX && source.spec_bytes().len() <= usize::MAX
}

/// Splits a source text into tokens.
pub struct Scanner<'scanner> {
    pub source: &'scanner str,
    pub print_tokens: bool,
}

impl<'scanner> Scanner<'scanner> {
    /// A scanner of `source`; `print_tokens` asks that the tokens be listed
    /// once scanned.
    pub fn new(source: &'scanner str, print_tokens: bool) -> (s: Self)
        ensures
            s.source == source,
            s.print_tokens == print_tokens,
    {
        Scanner { source, print_tokens }
    }

    /// Scans the whole source. `aborted` is set where the input holds text
    /// that the scanner cannot cut out of the source at the offsets it uses
    /// (an identifier made of a single non-ASCII letter, or a string literal
    /// whose last character is not ASCII); otherwise the tokens, ending with
    /// the end-of-input token, and the errors are those of `spec_scan`, and
    /// each error carries the whole source.
    pub fn scan_report(&self) -> (r: ScanReport)
        requires
            source_fits(self.source),
        ensures
            r.aborted == spec_scan(self.source@).aborted,
            !r.aborted ==> tokens_view(r.tokens@) == spec_scan(self.source@).tokens,
            !r.aborted ==> errors_view(r.errors@) == spec_scan(self.source@).errors,
            forall|i: int|
                0 <= i < r.errors@.len() ==> (#[trigger] r.errors@[i]).source_text()
                    == self.source@,
    {
        let cs = chars_of(self.source);
        proof {
            lemma_width_is_encoding_len(cs@);
        }
        let (tokens, errors, aborted) = scan_chars(cs.as_slice(), self.source);
        ScanReport { tokens, errors, aborted }
    }

    /// Scans the whole source: the tokens, ending with the end-of-input
    /// token, or the exit code 65 where any character could not be read.
    /// The inputs on which the scanner gives up are left out.
    pub fn scan(&self) -> (r: Result<Vec<Token>, u8>)
        requires
            source_fits(self.source),
            !spec_scan(self.source@).aborted,
        ensures
            spec_scan(self.source@).errors.len() > 0 ==> r == Err::<Vec<Token>, u8>(65),
            spec_scan(self.source@).errors.len() == 0 ==> (r matches Ok(ts) && tokens_view(ts@)
                == spec_scan(self.source@).tokens),
    {
        let report = self.scan_report();
        if report.errors.len() > 0 {
            Err(65)
        } else {
            Ok(report.tokens)
        }
    }
}

} // verus!
