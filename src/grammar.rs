//! The lexical grammar, as spec functions over the source bytes.
use vstd::prelude::*;

use crate::scanner::{LexemeKind, ScannerMode};
use crate::text::ascii_edge;

verus! {

pub const SPACE: u8 = 0x20;
pub const TAB: u8 = 0x09;
pub const LF: u8 = 0x0a;
pub const CR: u8 = 0x0d;
pub const SEMICOLON: u8 = 0x3b;
pub const LPAREN: u8 = 0x28;
pub const RPAREN: u8 = 0x29;
pub const LBRACKET: u8 = 0x5b;
pub const RBRACKET: u8 = 0x5d;
pub const LBRACE: u8 = 0x7b;
pub const RBRACE: u8 = 0x7d;
pub const QUOTE: u8 = 0x22;
pub const BACKSLASH: u8 = 0x5c;
pub const PLUS: u8 = 0x2b;
pub const MINUS: u8 = 0x2d;
pub const HASH: u8 = 0x23;
pub const DOT: u8 = 0x2e;
pub const COLON: u8 = 0x3a;
pub const LOWER_T: u8 = 0x74;
pub const LOWER_F: u8 = 0x66;
pub const DIGIT_ZERO: u8 = 0x30;
pub const DIGIT_NINE: u8 = 0x39;

/// `\r` or `\n`.
pub open spec fn newline_start(b: u8) -> bool {
    b == CR || b == LF
}

/// Whitespace, tab, comment start or newline start.
pub open spec fn atmosphere_start(b: u8) -> bool {
    b == SPACE || b == TAB || b == SEMICOLON || newline_start(b)
}

/// A byte that ends identifiers, numbers, keywords and characters.
pub open spec fn delimiter(b: u8) -> bool {
    b == LPAREN || b == RPAREN || b == LBRACKET || b == RBRACKET || b == LBRACE || b == RBRACE || b == QUOTE
        || atmosphere_start(b)
}

pub open spec fn digit(b: u8) -> bool {
    DIGIT_ZERO <= b <= DIGIT_NINE
}

/// The first index at or after `i` that is the end of `s` or holds a byte
/// on which `stop` holds.
pub open spec fn first_match(s: Seq<u8>, i: int, stop: spec_fn(u8) -> bool) -> int
    decreases s.len() - i,
{
    if i >= s.len() || stop(s[i]) {
        i
    } else {
        first_match(s, i + 1, stop)
    }
}

pub proof fn lemma_first_match(s: Seq<u8>, i: int, stop: spec_fn(u8) -> bool)
    requires
        0 <= i <= s.len(),
    ensures
        i <= first_match(s, i, stop) <= s.len(),
        first_match(s, i, stop) == s.len() || stop(s[first_match(s, i, stop)]),
        forall|k: int| i <= k < first_match(s, i, stop) ==> !stop(#[trigger] s[k]),
    decreases s.len() - i,
{
    if i < s.len() && !stop(s[i]) {
        lemma_first_match(s, i + 1, stop);
    }
}


pub open spec fn other_than(c: u8) -> spec_fn(u8) -> bool {
    |b: u8| b != c
}

pub open spec fn at_newline() -> spec_fn(u8) -> bool {
    |b: u8| newline_start(b)
}

pub open spec fn at_delimiter() -> spec_fn(u8) -> bool {
    |b: u8| delimiter(b)
}

pub open spec fn at_non_digit() -> spec_fn(u8) -> bool {
    |b: u8| !digit(b)
}

/// The next delimiter at or after `i`, or the end of `s`.
pub open spec fn delimiter_end(s: Seq<u8>, i: int) -> int {
    first_match(s, i, at_delimiter())
}

/// A carriage return at `i`, merged with a line feed right after it.
pub open spec fn cr_step(s: Seq<u8>, i: int) -> (LexemeKind, int) {
    if i + 1 < s.len() && s[i + 1] == LF {
        (LexemeKind::NewlineCrlf, i + 2)
    } else {
        (LexemeKind::NewlineCr, i + 1)
    }
}

/// The fractional part of a number, starting at `j`, just after the dot.
/// Anything but digits before the next delimiter makes the whole span an
/// identifier.
pub open spec fn float_step(s: Seq<u8>, j: int) -> (LexemeKind, int) {
    let f = first_match(s, j, at_non_digit());
    if f < s.len() && !delimiter(s[f]) {
        (LexemeKind::Identifier, delimiter_end(s, f))
    } else {
        (LexemeKind::FloatLit, f)
    }
}

/// A number whose digits start at `j`.
pub open spec fn number_step(s: Seq<u8>, j: int) -> (LexemeKind, int) {
    let d = first_match(s, j, at_non_digit());
    if d < s.len() && s[d] == DOT {
        float_step(s, d + 1)
    } else if d < s.len() && !delimiter(s[d]) {
        (LexemeKind::Identifier, delimiter_end(s, d))
    } else {
        (LexemeKind::IntLit, d)
    }
}

/// A `+` or `-` at `i`: alone, the sign of a number, or the start of a name.
pub open spec fn sign_step(s: Seq<u8>, i: int) -> (LexemeKind, int) {
    let j = i + 1;
    if j >= s.len() || delimiter(s[j]) {
        (LexemeKind::Identifier, j)
    } else if digit(s[j]) {
        number_step(s, j)
    } else {
        (LexemeKind::Identifier, delimiter_end(s, j))
    }
}

/// A `#` at `i`: boolean, character, keyword, or an invalid literal.
pub open spec fn number_sign_step(s: Seq<u8>, i: int) -> (LexemeKind, int) {
    let j = i + 1;
    if j >= s.len() {
        (LexemeKind::InvalidNumberSign, j)
    } else if s[j] == LOWER_T || s[j] == LOWER_F {
        if j + 1 >= s.len() || delimiter(s[j + 1]) {
            (LexemeKind::BoolLit, j + 1)
        } else {
            (LexemeKind::InvalidNumberSign, delimiter_end(s, j + 1))
        }
    } else if s[j] == BACKSLASH {
        (LexemeKind::CharLit, delimiter_end(s, j + 1))
    } else if s[j] == COLON {
        (LexemeKind::KeywordLit, delimiter_end(s, j + 1))
    } else {
        (LexemeKind::InvalidNumberSign, delimiter_end(s, j))
    }
}

/// The end of a run of string content starting at `j`: the next unescaped
/// quote, newline start, or the end of `s`. A backslash protects the byte
/// after it unless that byte starts a newline.
pub open spec fn content_end(s: Seq<u8>, j: int) -> int
    decreases s.len() - j,
{
    if j >= s.len() || newline_start(s[j]) || s[j] == QUOTE {
        j
    } else if s[j] == BACKSLASH && j + 1 < s.len() && !newline_start(s[j + 1]) {
        content_end(s, j + 2)
    } else {
        content_end(s, j + 1)
    }
}

/// The lexeme that starts at `i` in regular mode, and where it ends.
pub open spec fn regular_step(s: Seq<u8>, i: int) -> (LexemeKind, int) {
    let b = s[i];
    if b == SPACE {
        (LexemeKind::Whitespace, first_match(s, i + 1, other_than(SPACE)))
    } else if b == TAB {
        (LexemeKind::Tab, first_match(s, i + 1, other_than(TAB)))
    } else if b == CR {
        cr_step(s, i)
    } else if b == LF {
        (LexemeKind::NewlineLf, i + 1)
    } else if b == SEMICOLON {
        (LexemeKind::Comment, first_match(s, i + 1, at_newline()))
    } else if b == LPAREN {
        (LexemeKind::LParen, i + 1)
    } else if b == RPAREN {
        (LexemeKind::RParen, i + 1)
    } else if b == LBRACKET {
        (LexemeKind::LBracket, i + 1)
    } else if b == RBRACKET {
        (LexemeKind::RBracket, i + 1)
    } else if b == LBRACE {
        (LexemeKind::LBrace, i + 1)
    } else if b == RBRACE {
        (LexemeKind::RBrace, i + 1)
    } else if b == QUOTE {
        (LexemeKind::LString, i + 1)
    } else if b == PLUS || b == MINUS {
        sign_step(s, i)
    } else if b == HASH {
        number_sign_step(s, i)
    } else if digit(b) {
        number_step(s, i)
    } else {
        (LexemeKind::Identifier, delimiter_end(s, i + 1))
    }
}

/// The lexeme that starts at `i` inside a string literal, and where it ends.
pub open spec fn string_step(s: Seq<u8>, i: int) -> (LexemeKind, int) {
    let b = s[i];
    if b == QUOTE {
        (LexemeKind::RString, i + 1)
    } else if b == CR {
        cr_step(s, i)
    } else if b == LF {
        (LexemeKind::NewlineLf, i + 1)
    } else {
        (LexemeKind::StringContent, content_end(s, i))
    }
}

/// The lexeme that starts at `i` in the given mode, and where it ends.
pub open spec fn step(s: Seq<u8>, i: int, mode: ScannerMode) -> (LexemeKind, int) {
    match mode {
        ScannerMode::Regular => regular_step(s, i),
        ScannerMode::InString => string_step(s, i),
    }
}

/// The mode after a lexeme of kind `k`: an opening quote enters a string,
/// a closing quote leaves it.
pub open spec fn next_mode(mode: ScannerMode, k: LexemeKind) -> ScannerMode {
    match k {
        LexemeKind::LString => ScannerMode::InString,
        LexemeKind::RString => ScannerMode::Regular,
        _ => mode,
    }
}

/// The lexemes, each as its kind and its bytes, that scanning `s` from `i`
/// in the given mode produces until the end.
pub open spec fn scan_from(s: Seq<u8>, i: int, mode: ScannerMode) -> Seq<(LexemeKind, Seq<u8>)>
    decreases s.len() - i,
{
    if i < 0 || i >= s.len() {
        seq![]
    } else {
        let (k, e) = step(s, i, mode);
        if e <= i || e > s.len() {
            seq![]
        } else {
            seq![(k, s.subrange(i, e))] + scan_from(s, e, next_mode(mode, k))
        }
    }
}

/// The lexemes of a whole source.
pub open spec fn lexemes_of(s: Seq<u8>) -> Seq<(LexemeKind, Seq<u8>)> {
    scan_from(s, 0, ScannerMode::Regular)
}

pub proof fn lemma_content_end(s: Seq<u8>, j: int)
    requires
        0 <= j <= s.len(),
    ensures
        j <= content_end(s, j) <= s.len(),
        content_end(s, j) == s.len() || newline_start(s[content_end(s, j)])
            || s[content_end(s, j)] == QUOTE,
    decreases s.len() - j,
{
    if j >= s.len() || newline_start(s[j]) || s[j] == QUOTE {
    } else if s[j] == BACKSLASH && j + 1 < s.len() && !newline_start(s[j + 1]) {
        lemma_content_end(s, j + 2);
    } else {
        lemma_content_end(s, j + 1);
    }
}

/// Each step consumes at least one byte, never runs past the end, and stops
/// where a `&str` can be cut.
pub proof fn lemma_step(s: Seq<u8>, i: int, mode: ScannerMode)
    requires
        0 <= i < s.len(),
    ensures
        i < step(s, i, mode).1 <= s.len(),
        ascii_edge(s, step(s, i, mode).1),
{
    let (k, e) = step(s, i, mode);
    lemma_first_match(s, i + 1, other_than(SPACE));
    lemma_first_match(s, i + 1, other_than(TAB));
    lemma_first_match(s, i + 1, at_newline());
    lemma_first_match(s, i, at_delimiter());
    lemma_first_match(s, i + 1, at_delimiter());
    if i + 2 <= s.len() {
        lemma_first_match(s, i + 2, at_delimiter());
    }
    lemma_first_match(s, i, at_non_digit());
    if i + 1 < s.len() {
        lemma_first_match(s, i + 1, at_non_digit());
        let d = first_match(s, i + 1, at_non_digit());
        if d < s.len() {
            lemma_first_match(s, d, at_delimiter());
            lemma_first_match(s, d + 1, at_non_digit());
            let f = first_match(s, d + 1, at_non_digit());
            if f < s.len() {
                lemma_first_match(s, f, at_delimiter());
            }
        }
    }
    let d0 = first_match(s, i, at_non_digit());
    if d0 < s.len() {
        lemma_first_match(s, d0, at_delimiter());
        lemma_first_match(s, d0 + 1, at_non_digit());
        let f0 = first_match(s, d0 + 1, at_non_digit());
        if f0 < s.len() {
            lemma_first_match(s, f0, at_delimiter());
        }
    }
    lemma_content_end(s, i);
}

} // verus!
