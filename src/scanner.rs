//! The scanner: a cursor over borrowed source text that hands out one
//! classified lexeme per call.
use vstd::prelude::*;
use vstd::string::*;
use vstd::utf8::is_char_boundary;

use crate::grammar::{
    at_newline, at_non_digit, atmosphere_start, content_end, cr_step, delimiter, delimiter_end,
    digit, first_match, float_step, lemma_first_match, lemma_step, lexemes_of, newline_start,
    next_mode, number_sign_step, number_step, other_than, regular_step, scan_from, sign_step,
    step, string_step, BACKSLASH, COLON, CR, DIGIT_NINE, DIGIT_ZERO, DOT, HASH, LBRACE, LBRACKET, LF, LOWER_F, LOWER_T, LPAREN, MINUS, PLUS,
    QUOTE, RBRACE, RBRACKET, RPAREN, SEMICOLON, SPACE, TAB,
};
use crate::laws::{joined, lemma_lexemes_cover_source};
use crate::text::{byte_range, lemma_ascii_edge_is_boundary};

verus! {

/// The classification of one lexeme.
#[derive(Debug, Clone, Copy, PartialEq, Eq, Structural)]
pub enum LexemeKind {
    Whitespace,
    Tab,
    NewlineLf,
    NewlineCr,
    NewlineCrlf,
    Comment,
    LParen,
    RParen,
    LBracket,
    RBracket,
    LBrace,
    RBrace,
    Identifier,
    IntLit,
    FloatLit,
    CharLit,
    /// A whole string literal taken as one lexeme. This scanner splits
    /// strings into `LString`, `StringContent` and `RString` instead, and
    /// never produces this kind.
    StringLit,
    BoolLit,
    KeywordLit,
    /// A whole string literal without its closing quote; like `StringLit`,
    /// never produced by this scanner, which ends such a string with its
    /// last `StringContent`.
    UnterminatedString,
    /// A `#` that starts no boolean, character or keyword literal.
    InvalidNumberSign,
    /// The opening quote of a string literal.
    LString,
    /// The closing quote of a string literal.
    RString,
    /// A run of bytes inside a string literal, up to a newline or an
    /// unescaped quote.
    StringContent,
}

/// Whether the scanner stands between lexemes of ordinary code or inside
/// the body of a string literal.
#[derive(Debug, Clone, Copy, PartialEq, Eq, Structural)]
pub enum ScannerMode {
    Regular,
    InString,
}

/// A classified lexeme whose text is borrowed from the source.
#[derive(Debug, Clone, Copy, PartialEq, Eq)]
pub struct Lexeme<'a> {
    pub kind: LexemeKind,
    pub slice: &'a str,
}

impl<'a> View for Lexeme<'a> {
    type V = (LexemeKind, Seq<u8>);

    open spec fn view(&self) -> (LexemeKind, Seq<u8>) {
        (self.kind, self.slice.spec_bytes())
    }
}

/// The views of a sequence of lexemes.
pub open spec fn views_of<'a>(v: Seq<Lexeme<'a>>) -> Seq<(LexemeKind, Seq<u8>)> {
    v.map_values(|l: Lexeme<'a>| l@)
}

/// What one sub-scan decided: the kind of the lexeme and the offset just
/// past its last byte.
pub struct ScanRes {
    kind: LexemeKind,
    slice_end: usize,
}

fn is_newline_start(ch: u8) -> (r: bool)
    ensures
        r == newline_start(ch),
{
    ch == CR || ch == LF
}

fn is_atmosphere_start(ch: u8) -> (r: bool)
    ensures
        r == atmosphere_start(ch),
{
    if ch == SPACE || ch == TAB || ch == SEMICOLON {
        true
    } else {
        is_newline_start(ch)
    }
}

fn is_delimiter(ch: u8) -> (r: bool)
    ensures
        r == delimiter(ch),
{
    if ch == LPAREN || ch == RPAREN || ch == LBRACKET || ch == RBRACKET || ch == LBRACE
        || ch == RBRACE || ch == QUOTE {
        true
    } else {
        is_atmosphere_start(ch)
    }
}

fn is_digit(ch: u8) -> (r: bool)
    ensures
        r == digit(ch),
{
    DIGIT_ZERO <= ch && ch <= DIGIT_NINE
}

/// A scanner over borrowed source text.
#[derive(Debug)]
pub struct Scanner<'a> {
    src: &'a str,
    bytes: &'a [u8],
    pos: usize,
    mode: ScannerMode,
}

impl<'a> Scanner<'a> {
    /// The bytes of the source text.
    pub closed spec fn source(&self) -> Seq<u8> {
        self.bytes@
    }

    /// The offset of the first byte not yet scanned.
    pub closed spec fn cursor(&self) -> int {
        self.pos as int
    }

    pub closed spec fn current_mode(&self) -> ScannerMode {
        self.mode
    }

    pub closed spec fn wf(&self) -> bool {
        &&& self.bytes@ == self.src.spec_bytes()
        &&& self.pos <= self.bytes@.len()
        &&& is_char_boundary(self.bytes@, self.pos as int)
    }

    /// The lexemes that the scanner has yet to produce.
    pub open spec fn remaining(&self) -> Seq<(LexemeKind, Seq<u8>)> {
        scan_from(self.source(), self.cursor(), self.current_mode())
    }

    /// A scanner at the start of `src`, in regular mode.
    pub fn new(src: &'a str) -> (r: Self)
        ensures
            r.wf(),
            r.source() == src.spec_bytes(),
            r.cursor() == 0,
            r.current_mode() == ScannerMode::Regular,
            r.remaining() == lexemes_of(src.spec_bytes()),
    {
        let bytes = src.as_bytes();
        proof {
            vstd::utf8::encode_utf8_valid_utf8(src@);
            vstd::utf8::is_char_boundary_start_end_of_seq(bytes@);
        }
        Scanner { src, bytes, pos: 0, mode: ScannerMode::Regular }
    }

    /// The source text not yet scanned.
    pub fn as_str(&self) -> (r: &'a str)
        requires
            self.wf(),
        ensures
            r.spec_bytes() == self.source().subrange(self.cursor(), self.source().len() as int),
    {
        byte_range(self.src, self.pos, self.bytes.len())
    }

    /// A run of spaces starting at `start`.
    fn scan_whitespace(s: &[u8], start: usize) -> (r: ScanRes)
        requires
            start < s@.len(),
        ensures
            r.kind == LexemeKind::Whitespace,
            r.slice_end == first_match(s@, start + 1, other_than(SPACE)),
    {
        let len = s.len();
        let mut end = start + 1;
        while end < len && s[end] == SPACE
            invariant
                len == s@.len(),
                start < end <= s@.len(),
                first_match(s@, end as int, other_than(SPACE)) == first_match(
                    s@,
                    start + 1,
                    other_than(SPACE),
                ),
            decreases s@.len() - end,
        {
            end = end + 1;
        }
        ScanRes { kind: LexemeKind::Whitespace, slice_end: end }
    }

    /// A run of tabs starting at `start`.
    fn scan_tab(s: &[u8], start: usize) -> (r: ScanRes)
        requires
            start < s@.len(),
        ensures
            r.kind == LexemeKind::Tab,
            r.slice_end == first_match(s@, start + 1, other_than(TAB)),
    {
        let len = s.len();
        let mut end = start + 1;
        while end < len && s[end] == TAB
            invariant
                len == s@.len(),
                start < end <= s@.len(),
                first_match(s@, end as int, other_than(TAB)) == first_match(
                    s@,
                    start + 1,
                    other_than(TAB),
                ),
            decreases s@.len() - end,
        {
            end = end + 1;
        }
        ScanRes { kind: LexemeKind::Tab, slice_end: end }
    }

    /// A carriage return at `start`, with the line feed that may follow it.
    fn scan_cr(s: &[u8], start: usize) -> (r: ScanRes)
        requires
            start < s@.len(),
        ensures
            (r.kind, r.slice_end as int) == cr_step(s@, start as int),
    {
        let len = s.len();
        if start + 1 < len && s[start + 1] == LF {
            ScanRes { kind: LexemeKind::NewlineCrlf, slice_end: start + 2 }
        } else {
            ScanRes { kind: LexemeKind::NewlineCr, slice_end: start + 1 }
        }
    }

    /// A comment from the `;` at `start` up to the next newline start.
    fn scan_comment(s: &[u8], start: usize) -> (r: ScanRes)
        requires
            start < s@.len(),
        ensures
            r.kind == LexemeKind::Comment,
            r.slice_end == first_match(s@, start + 1, at_newline()),
    {
        let len = s.len();
        let mut end = start + 1;
        while end < len && !is_newline_start(s[end])
            invariant
                len == s@.len(),
                start < end <= s@.len(),
                first_match(s@, end as int, at_newline()) == first_match(
                    s@,
                    start + 1,
                    at_newline(),
                ),
            decreases s@.len() - end,
        {
            end = end + 1;
        }
        ScanRes { kind: LexemeKind::Comment, slice_end: end }
    }

    /// The offset of the next delimiter at or after `from`, or the end.
    fn advance_to_delimiter(s: &[u8], from: usize) -> (r: usize)
        requires
            from <= s@.len(),
        ensures
            r == delimiter_end(s@, from as int),
    {
        let len = s.len();
        let mut end = from;
        while end < len && !is_delimiter(s[end])
            invariant
                len == s@.len(),
                from <= end <= s@.len(),
                delimiter_end(s@, end as int) == delimiter_end(s@, from as int),
            decreases s@.len() - end,
        {
            end = end + 1;
        }
        end
    }

    /// The offset of the first byte at or after `from` that is not a digit.
    fn skip_digits(s: &[u8], from: usize) -> (r: usize)
        requires
            from <= s@.len(),
        ensures
            r == first_match(s@, from as int, at_non_digit()),
    {
        let len = s.len();
        let mut end = from;
        while end < len && is_digit(s[end])
            invariant
                len == s@.len(),
                from <= end <= s@.len(),
                first_match(s@, end as int, at_non_digit()) == first_match(
                    s@,
                    from as int,
                    at_non_digit(),
                ),
            decreases s@.len() - end,
        {
            end = end + 1;
        }
        end
    }

    /// An identifier whose remaining bytes start at `from`.
    fn scan_identifier_continue(s: &[u8], from: usize) -> (r: ScanRes)
        requires
            from <= s@.len(),
        ensures
            r.kind == LexemeKind::Identifier,
            r.slice_end == delimiter_end(s@, from as int),
    {
        let slice_end = Scanner::advance_to_delimiter(s, from);
        ScanRes { kind: LexemeKind::Identifier, slice_end }
    }

    /// The fractional part of a number, starting just after the dot.
    fn scan_float(s: &[u8], from: usize) -> (r: ScanRes)
        requires
            from <= s@.len(),
        ensures
            (r.kind, r.slice_end as int) == float_step(s@, from as int),
    {
        let end = Scanner::skip_digits(s, from);
        if end < s.len() && !is_delimiter(s[end]) {
            Scanner::scan_identifier_continue(s, end)
        } else {
            ScanRes { kind: LexemeKind::FloatLit, slice_end: end }
        }
    }

    /// A number whose digits start at `from`.
    fn scan_number_continue(s: &[u8], from: usize) -> (r: ScanRes)
        requires
            from <= s@.len(),
        ensures
            (r.kind, r.slice_end as int) == number_step(s@, from as int),
    {
        let end = Scanner::skip_digits(s, from);
        proof {
            lemma_first_match(s@, from as int, at_non_digit());
        }
        if end < s.len() {
            let ch = s[end];
            if ch == DOT {
                return Scanner::scan_float(s, end + 1);
            } else if !is_delimiter(ch) {
                return Scanner::scan_identifier_continue(s, end);
            }
        }
        ScanRes { kind: LexemeKind::IntLit, slice_end: end }
    }

    /// A keyword whose name starts at `from`, just after `#:`.
    fn scan_keyword(s: &[u8], from: usize) -> (r: ScanRes)
        requires
            from <= s@.len(),
        ensures
            r.kind == LexemeKind::KeywordLit,
            r.slice_end == delimiter_end(s@, from as int),
    {
        ScanRes { kind: LexemeKind::KeywordLit, slice_end: Scanner::advance_to_delimiter(s, from) }
    }

    /// A character literal whose name starts at `from`, just after `#\`.
    fn scan_char(s: &[u8], from: usize) -> (r: ScanRes)
        requires
            from <= s@.len(),
        ensures
            r.kind == LexemeKind::CharLit,
            r.slice_end == delimiter_end(s@, from as int),
    {
        ScanRes { kind: LexemeKind::CharLit, slice_end: Scanner::advance_to_delimiter(s, from) }
    }

    /// A `+` or `-` at `start`.
    fn scan_sign(s: &[u8], start: usize) -> (r: ScanRes)
        requires
            start < s@.len(),
        ensures
            (r.kind, r.slice_end as int) == sign_step(s@, start as int),
    {
        let len = s.len();
        let next = start + 1;
        if next >= len {
            return ScanRes { kind: LexemeKind::Identifier, slice_end: next };
        }
        let ch = s[next];
        if is_delimiter(ch) {
            ScanRes { kind: LexemeKind::Identifier, slice_end: next }
        } else if is_digit(ch) {
            Scanner::scan_number_continue(s, next)
        } else {
            Scanner::scan_identifier_continue(s, next)
        }
    }

    /// An opening quote at the cursor: enters string mode.
    fn scan_string_start(&mut self) -> (r: ScanRes)
        requires
            old(self).pos < old(self).bytes@.len(),
        ensures
            r.kind == LexemeKind::LString,
            r.slice_end == old(self).pos + 1,
            final(self).mode == ScannerMode::InString,
            final(self).src == old(self).src,
            final(self).bytes == old(self).bytes,
            final(self).pos == old(self).pos,
    {
        let len = self.bytes.len();
        let end = self.pos + 1;
        assert(end <= len);
        self.mode = ScannerMode::InString;
        ScanRes { kind: LexemeKind::LString, slice_end: end }
    }

    /// The lexeme at the cursor inside a string literal: the closing quote,
    /// a newline, or a run of content in which a backslash protects the byte
    /// after it.
    fn scan_string_continue(&mut self) -> (r: ScanRes)
        requires
            old(self).pos < old(self).bytes@.len(),
        ensures
            (r.kind, r.slice_end as int) == string_step(old(self).bytes@, old(self).pos as int),
            final(self).mode == next_mode(old(self).mode, r.kind),
            final(self).src == old(self).src,
            final(self).bytes == old(self).bytes,
            final(self).pos == old(self).pos,
    {
        let s = self.bytes;
        let len = s.len();
        let start = self.pos;
        let ch = s[start];
        if ch == QUOTE {
            self.mode = ScannerMode::Regular;
            return ScanRes { kind: LexemeKind::RString, slice_end: start + 1 };
        } else if ch == CR {
            return Scanner::scan_cr(s, start);
        } else if ch == LF {
            return ScanRes { kind: LexemeKind::NewlineLf, slice_end: start + 1 };
        }
        let mut end = start;
        while end < len && !is_newline_start(s[end]) && s[end] != QUOTE
            invariant
                len == s@.len(),
                start <= end <= len,
                content_end(s@, end as int) == content_end(s@, start as int),
            decreases len - end,
        {
            if s[end] == BACKSLASH && end + 1 < len && !is_newline_start(s[end + 1]) {
                end = end + 2;
            } else {
                end = end + 1;
            }
        }
        ScanRes { kind: LexemeKind::StringContent, slice_end: end }
    }

    /// A `#` at `start`.
    fn scan_number_sign(s: &[u8], start: usize) -> (r: ScanRes)
        requires
            start < s@.len(),
        ensures
            (r.kind, r.slice_end as int) == number_sign_step(s@, start as int),
    {
        let len = s.len();
        let next = start + 1;
        if next >= len {
            return ScanRes { kind: LexemeKind::InvalidNumberSign, slice_end: next };
        }
        let ch = s[next];
        if ch == LOWER_T || ch == LOWER_F {
            let after = next + 1;
            if after >= s.len() || is_delimiter(s[after]) {
                ScanRes { kind: LexemeKind::BoolLit, slice_end: after }
            } else {
                ScanRes {
                    kind: LexemeKind::InvalidNumberSign,
                    slice_end: Scanner::advance_to_delimiter(s, after),
                }
            }
        } else if ch == BACKSLASH {
            Scanner::scan_char(s, next + 1)
        } else if ch == COLON {
            Scanner::scan_keyword(s, next + 1)
        } else {
            ScanRes {
                kind: LexemeKind::InvalidNumberSign,
                slice_end: Scanner::advance_to_delimiter(s, next),
            }
        }
    }

    /// The regular-mode lexeme at the cursor, chosen by its leading byte.
    fn scan_regular(&mut self) -> (r: ScanRes)
        requires
            old(self).pos < old(self).bytes@.len(),
        ensures
            (r.kind, r.slice_end as int) == regular_step(old(self).bytes@, old(self).pos as int),
            final(self).mode == next_mode(old(self).mode, r.kind),
            final(self).src == old(self).src,
            final(self).bytes == old(self).bytes,
            final(self).pos == old(self).pos,
    {
        let s = self.bytes;
        let start = self.pos;
        let ch = s[start];
        if ch == SPACE {
            Scanner::scan_whitespace(s, start)
        } else if ch == TAB {
            Scanner::scan_tab(s, start)
        } else if ch == CR {
            Scanner::scan_cr(s, start)
        } else if ch == LF {
            ScanRes { kind: LexemeKind::NewlineLf, slice_end: start + 1 }
        } else if ch == SEMICOLON {
            Scanner::scan_comment(s, start)
        } else if ch == LPAREN {
            ScanRes { kind: LexemeKind::LParen, slice_end: start + 1 }
        } else if ch == RPAREN {
            ScanRes { kind: LexemeKind::RParen, slice_end: start + 1 }
        } else if ch == LBRACKET {
            ScanRes { kind: LexemeKind::LBracket, slice_end: start + 1 }
        } else if ch == RBRACKET {
            ScanRes { kind: LexemeKind::RBracket, slice_end: start + 1 }
        } else if ch == LBRACE {
            ScanRes { kind: LexemeKind::LBrace, slice_end: start + 1 }
        } else if ch == RBRACE {
            ScanRes { kind: LexemeKind::RBrace, slice_end: start + 1 }
        } else if ch == QUOTE {
            self.scan_string_start()
        } else if ch == PLUS || ch == MINUS {
            Scanner::scan_sign(s, start)
        } else if ch == HASH {
            Scanner::scan_number_sign(s, start)
        } else if is_digit(ch) {
            Scanner::scan_number_continue(s, start)
        } else {
            Scanner::scan_identifier_continue(s, start + 1)
        }
    }

    /// The next lexeme, or `None` once the whole source has been scanned.
    /// The lexeme's text is the source from the cursor up to the end that
    /// the grammar gives for the current mode; the cursor moves there.
    pub fn next(&mut self) -> (r: Option<Lexeme<'a>>)
        requires
            old(self).wf(),
        ensures
            final(self).wf(),
            final(self).source() == old(self).source(),
            match r {
                None => {
                    &&& old(self).cursor() >= old(self).source().len()
                    &&& final(self).cursor() == old(self).cursor()
                    &&& final(self).current_mode() == old(self).current_mode()
                },
                Some(lex) => {
                    let (k, e) = step(old(self).source(), old(self).cursor(), old(self).current_mode());
                    &&& old(self).cursor() < old(self).source().len()
                    &&& old(self).cursor() < e <= old(self).source().len()
                    &&& lex.kind == k
                    &&& lex.slice.spec_bytes() == old(self).source().subrange(old(self).cursor(), e)
                    &&& final(self).cursor() == e
                    &&& final(self).current_mode() == next_mode(old(self).current_mode(), k)
                },
            },
            old(self).remaining() == match r {
                None => Seq::empty(),
                Some(lex) => seq![lex@] + final(self).remaining(),
            },
    {
        let len = self.bytes.len();
        if self.pos >= len {
            return None;
        }
        let start = self.pos;
        proof {
            lemma_step(self.bytes@, start as int, self.mode);
        }
        let res = match self.mode {
            ScannerMode::InString => self.scan_string_continue(),
            ScannerMode::Regular => self.scan_regular(),
        };
        proof {
            vstd::utf8::encode_utf8_valid_utf8(self.src@);
            lemma_ascii_edge_is_boundary(self.bytes@, res.slice_end as int);
        }
        let slice = byte_range(self.src, start, res.slice_end);
        self.pos = res.slice_end;
        Some(Lexeme { kind: res.kind, slice })
    }

    /// Every lexeme left, in order; afterwards the scanner stands at the end.
    pub fn collect_rest(&mut self) -> (r: Vec<Lexeme<'a>>)
        requires
            old(self).wf(),
        ensures
            final(self).wf(),
            final(self).source() == old(self).source(),
            final(self).cursor() == final(self).source().len(),
            views_of(r@) == old(self).remaining(),
    {
        let mut out: Vec<Lexeme<'a>> = Vec::new();
        loop
            invariant
                self.wf(),
                self.source() == old(self).source(),
                views_of(out@) + self.remaining() == old(self).remaining(),
            ensures
                self.wf(),
                self.source() == old(self).source(),
                self.cursor() == self.source().len(),
                views_of(out@) == old(self).remaining(),
            decreases self.source().len() - self.cursor(),
        {
            let ghost before = views_of(out@);
            match self.next() {
                Some(lex) => {
                    out.push(lex);
                    assert(views_of(out@) =~= before.push(lex@));
                    assert(views_of(out@) + self.remaining() =~= before + (seq![lex@]
                        + self.remaining()));
                },
                None => {
                    assert(views_of(out@) + self.remaining() =~= views_of(out@));
                    return out;
                },
            }
        }
    }
}

/// All lexemes of `src`, in order.
pub fn scan_all(src: &str) -> (r: Vec<Lexeme<'_>>)
    ensures
        views_of(r@) == lexemes_of(src.spec_bytes()),
        joined(views_of(r@)) == src.spec_bytes(),
{
    let mut scanner = Scanner::new(src);
    let r = scanner.collect_rest();
    proof {
        lemma_lexemes_cover_source(src.spec_bytes());
    }
    r
}

} // verus!
