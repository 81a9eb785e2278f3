//! The tokenizer: turns a line of text into a sequence of typed tokens
//! with source spans, terminated by exactly one end-of-input token.
//!
//! A numeric literal is kept as its sign, its radix kind and its digit
//! text; hexadecimal and binary digit runs are checked here (digit
//! alphabet, a single dot, both parts present and within `u64` range),
//! exactly the conditions under which the digit text denotes a value.

use vstd::prelude::*;

use crate::strutil::string_of_range;

verus! {

/// The radix of a numeric literal.
#[derive(Debug, Copy, Clone, PartialEq, Eq, Structural)]
pub enum NumberKind {
    /// `123`
    Dec,
    /// `0x123`
    Hex,
    /// `0b101`
    Bin,
}

/// The numeric value of `c` as a digit (`0`-`9`, `a`-`z`, `A`-`Z`),
/// or 99 for any other character, so that it is a digit of radix `r`
/// exactly when the value is below `r`.
pub open spec fn spec_digit_val(c: char) -> int {
    let v = c as u32;
    if 48 <= v <= 57 {
        v - 48
    } else if 97 <= v <= 122 {
        v - 87
    } else if 65 <= v <= 90 {
        v - 55
    } else {
        99
    }
}

/// Whether `c` is a digit of radix `r` (as `char::is_digit` accepts them).
pub open spec fn spec_is_digit(c: char, r: u32) -> bool {
    spec_digit_val(c) < r
}

/// Whether `c` is a decimal digit.
pub open spec fn spec_is_dec_digit(c: char) -> bool {
    spec_is_digit(c, 10)
}

/// The digit value of `c`, or 99 when `c` is no digit at all.
pub fn digit_val(c: char) -> (d: u32)
    ensures
        d == spec_digit_val(c),
{
    let v = c as u32;
    if 48 <= v && v <= 57 {
        v - 48
    } else if 97 <= v && v <= 122 {
        v - 87
    } else if 65 <= v && v <= 90 {
        v - 55
    } else {
        99
    }
}

impl NumberKind {
    /// The radix of this kind of literal.
    pub open spec fn spec_radix(self) -> u32 {
        match self {
            NumberKind::Dec => 10,
            NumberKind::Hex => 16,
            NumberKind::Bin => 2,
        }
    }

    /// Get the radix of the specific numberkind.
    pub fn radix(&self) -> (r: u32)
        ensures
            r == self.spec_radix(),
    {
        match self {
            NumberKind::Dec => 10,
            NumberKind::Hex => 16,
            NumberKind::Bin => 2,
        }
    }

    /// Whether `c` may stand in a literal of this kind: a digit of the
    /// radix, or a dot.
    pub open spec fn spec_is_valid_digit(self, c: char) -> bool {
        c == '.' || spec_is_digit(c, self.spec_radix())
    }

    /// Check if a char is a valid digit for this radix.
    pub fn is_valid_digit(&self, c: char) -> (r: bool)
        ensures
            r == self.spec_is_valid_digit(c),
    {
        c == '.' || digit_val(c) < self.radix()
    }
}

/// A `[start, end)` half-open character-offset range into the source
/// line, used only for diagnostics.
#[derive(Debug, Copy, Clone, PartialEq, Eq, Structural)]
pub struct TextSpan {
    pub start: usize,
    pub end: usize,
}

impl TextSpan {
    pub fn new(start: usize, end: usize) -> (s: Self)
        ensures
            s.start == start,
            s.end == end,
    {
        TextSpan { start, end }
    }
}

/// What a token is, with literal and identifier text owned.
#[derive(Debug, Clone, PartialEq)]
pub enum TokenKind {
    /// A numeric literal: its sign, its radix kind, and its digit text
    /// (the characters after the `0x`/`0b` prefix for hexadecimal and
    /// binary literals, the full digit run for decimal ones).
    Number { neg: bool, kind: NumberKind, text: String },
    Ident(String),
    /// `+`
    Plus,
    /// `-`
    Minus,
    /// `*`
    Asterisk,
    /// `/`
    Slash,
    /// `%`
    Percent,
    /// `**`
    Exponent,
    /// `^`
    Carrot,
    /// `&`
    Ampersand,
    /// `|`
    Pipe,
    /// `,`
    Comma,
    /// `(`
    LeftParen,
    /// `)`
    RightParen,
    /// `{`
    LeftCurlyBracket,
    /// `}`
    RightCurlyBracket,
    /// `[`
    LeftSquareBracket,
    /// `]`
    RightSquareBrace,
    /// `\n`
    Newline,
    /// `let`
    Let,
    /// End of input
    Eof,
    /// An unrecognized character (not fatal at this stage)
    Invalid,
}

/// The mathematical shape of a token kind: as `TokenKind`, with text as
/// a sequence of characters.
pub enum SpecTokenKind {
    Number { neg: bool, kind: NumberKind, text: Seq<char> },
    Ident(Seq<char>),
    Plus,
    Minus,
    Asterisk,
    Slash,
    Percent,
    Exponent,
    Carrot,
    Ampersand,
    Pipe,
    Comma,
    LeftParen,
    RightParen,
    LeftCurlyBracket,
    RightCurlyBracket,
    LeftSquareBracket,
    RightSquareBrace,
    Newline,
    Let,
    Eof,
    Invalid,
}

impl View for TokenKind {
    type V = SpecTokenKind;

    open spec fn view(&self) -> SpecTokenKind {
        match self {
            TokenKind::Number { neg, kind, text } => SpecTokenKind::Number {
                neg: *neg,
                kind: *kind,
                text: text@,
            },
            TokenKind::Ident(s) => SpecTokenKind::Ident(s@),
            TokenKind::Plus => SpecTokenKind::Plus,
            TokenKind::Minus => SpecTokenKind::Minus,
            TokenKind::Asterisk => SpecTokenKind::Asterisk,
            TokenKind::Slash => SpecTokenKind::Slash,
            TokenKind::Percent => SpecTokenKind::Percent,
            TokenKind::Exponent => SpecTokenKind::Exponent,
            TokenKind::Carrot => SpecTokenKind::Carrot,
            TokenKind::Ampersand => SpecTokenKind::Ampersand,
            TokenKind::Pipe => SpecTokenKind::Pipe,
            TokenKind::Comma => SpecTokenKind::Comma,
            TokenKind::LeftParen => SpecTokenKind::LeftParen,
            TokenKind::RightParen => SpecTokenKind::RightParen,
            TokenKind::LeftCurlyBracket => SpecTokenKind::LeftCurlyBracket,
            TokenKind::RightCurlyBracket => SpecTokenKind::RightCurlyBracket,
            TokenKind::LeftSquareBracket => SpecTokenKind::LeftSquareBracket,
            TokenKind::RightSquareBrace => SpecTokenKind::RightSquareBrace,
            TokenKind::Newline => SpecTokenKind::Newline,
            TokenKind::Let => SpecTokenKind::Let,
            TokenKind::Eof => SpecTokenKind::Eof,
            TokenKind::Invalid => SpecTokenKind::Invalid,
        }
    }
}

/// A token: what it is and where it stands in the source line.
#[derive(Debug, Clone, PartialEq)]
pub struct Token {
    pub kind: TokenKind,
    pub span: TextSpan,
}

/// The mathematical shape of a token.
pub struct SpecToken {
    pub kind: SpecTokenKind,
    pub span: TextSpan,
}

impl View for Token {
    type V = SpecToken;

    open spec fn view(&self) -> SpecToken {
        SpecToken { kind: self.kind@, span: self.span }
    }
}

impl Token {
    pub fn new(kind: TokenKind, span: TextSpan) -> (t: Self)
        ensures
            t.kind == kind,
            t.span == span,
    {
        Token { kind, span }
    }
}

/// Whether `c` is whitespace that the tokenizer discards: a character
/// of the Unicode `White_Space` set other than the newline, which gets
/// a token of its own.
pub open spec fn spec_is_skipped_space(c: char) -> bool {
    let v = c as u32;
    v == 0x09 || v == 0x0B || v == 0x0C || v == 0x0D || v == 0x20 || v == 0x85 || v == 0xA0
        || v == 0x1680 || (0x2000 <= v && v <= 0x200A) || v == 0x2028 || v == 0x2029 || v == 0x202F
        || v == 0x205F || v == 0x3000
}

/// Whitespace the tokenizer discards (the Unicode `White_Space` set,
/// newline excepted).
pub fn is_skipped_space(c: char) -> (r: bool)
    ensures
        r == spec_is_skipped_space(c),
{
    let v = c as u32;
    v == 0x09 || v == 0x0B || v == 0x0C || v == 0x0D || v == 0x20 || v == 0x85 || v == 0xA0
        || v == 0x1680 || (0x2000 <= v && v <= 0x200A) || v == 0x2028 || v == 0x2029 || v == 0x202F
        || v == 0x205F || v == 0x3000
}

/// Whether `c` may start an identifier.
pub open spec fn spec_is_ident_start(c: char) -> bool {
    let v = c as u32;
    c == '_' || (97 <= v && v <= 122) || (65 <= v && v <= 90)
}

/// Whether `c` may start an identifier: `_` or an ASCII letter.
pub fn is_ident_start(c: char) -> (r: bool)
    ensures
        r == spec_is_ident_start(c),
{
    let v = c as u32;
    c == '_' || (97 <= v && v <= 122) || (65 <= v && v <= 90)
}

/// Whether `c` may continue an identifier.
pub open spec fn spec_is_ident_char(c: char) -> bool {
    spec_is_ident_start(c) || spec_is_dec_digit(c)
}

/// Whether `c` may continue an identifier: `_`, an ASCII letter or digit.
pub fn is_ident_char(c: char) -> (r: bool)
    ensures
        r == spec_is_ident_char(c),
{
    is_ident_start(c) || digit_val(c) < 10
}

/// The first position at or after `i` that ends a run of digits valid
/// for `kind` (a position holding an invalid character, or the end).
pub open spec fn digit_run_end(s: Seq<char>, kind: NumberKind, i: int) -> int
    decreases s.len() - i,
{
    if i >= s.len() {
        s.len() as int
    } else if !kind.spec_is_valid_digit(s[i]) {
        i
    } else {
        digit_run_end(s, kind, i + 1)
    }
}

/// The first position at or after `i` that ends a run of skipped
/// whitespace.
pub open spec fn space_run_end(s: Seq<char>, i: int) -> int
    decreases s.len() - i,
{
    if i >= s.len() {
        s.len() as int
    } else if !spec_is_skipped_space(s[i]) {
        i
    } else {
        space_run_end(s, i + 1)
    }
}

/// The first position at or after `i` that ends a run of identifier
/// characters.
pub open spec fn ident_run_end(s: Seq<char>, i: int) -> int
    decreases s.len() - i,
{
    if i >= s.len() {
        s.len() as int
    } else if !spec_is_ident_char(s[i]) {
        i
    } else {
        ident_run_end(s, i + 1)
    }
}

/// The first position at or after `i` holding a dot, or the end.
pub open spec fn no_dot_end(s: Seq<char>, i: int) -> int
    decreases s.len() - i,
{
    if i >= s.len() {
        s.len() as int
    } else if s[i] == '.' {
        i
    } else {
        no_dot_end(s, i + 1)
    }
}

/// A digit run lies between `i` and its run end, which is the end of
/// the text or an invalid character.
pub proof fn lemma_digit_run_end(s: Seq<char>, kind: NumberKind, i: int)
    requires
        0 <= i <= s.len(),
    ensures
        i <= digit_run_end(s, kind, i) <= s.len(),
        forall|j: int| i <= j < digit_run_end(s, kind, i) ==> kind.spec_is_valid_digit(s[j]),
        digit_run_end(s, kind, i) < s.len() ==> !kind.spec_is_valid_digit(
            s[digit_run_end(s, kind, i)],
        ),
    decreases s.len() - i,
{
    if i < s.len() && kind.spec_is_valid_digit(s[i]) {
        lemma_digit_run_end(s, kind, i + 1);
    }
}

/// The value of a run of digits read in radix `r`, most significant
/// first.
pub open spec fn radix_val(s: Seq<char>, r: u32) -> int
    decreases s.len(),
{
    if s.len() == 0 {
        0
    } else {
        radix_val(s.drop_last(), r) * r + spec_digit_val(s.last())
    }
}

/// A digit-run value is never negative.
pub proof fn lemma_radix_val_nonneg(s: Seq<char>, r: u32)
    requires
        forall|j: int| 0 <= j < s.len() ==> spec_is_digit(s[j], r),
    ensures
        radix_val(s, r) >= 0,
    decreases s.len(),
{
    if s.len() > 0 {
        lemma_radix_val_nonneg(s.drop_last(), r);
        assert(radix_val(s.drop_last(), r) * r >= 0) by (nonlinear_arith)
            requires
                radix_val(s.drop_last(), r) >= 0,
                r >= 0,
        ;
    }
}

/// Whether a decimal digit run is a well-formed decimal literal: at
/// most one dot. (The run starts with a digit by construction, so this
/// is exactly when the standard decimal-number grammar accepts it.)
pub open spec fn spec_dec_text_ok(t: Seq<char>) -> bool {
    let d = no_dot_end(t, 0);
    d == t.len() || no_dot_end(t, d + 1) == t.len()
}

/// Whether a hexadecimal or binary digit run denotes a value: at most
/// one dot, a nonempty whole part, and -- when a dot is present -- a
/// nonempty fractional part, each part within `u64` range.
pub open spec fn spec_radix_text_ok(t: Seq<char>, r: u32) -> bool {
    let d = no_dot_end(t, 0);
    if d == t.len() {
        t.len() > 0 && radix_val(t, r) <= u64::MAX
    } else {
        0 < d && d + 1 < t.len() && no_dot_end(t, d + 1) == t.len() && radix_val(
            t.subrange(0, d),
            r,
        ) <= u64::MAX && radix_val(t.subrange(d + 1, t.len() as int), r) <= u64::MAX
    }
}

/// Whether the digit text of a literal of kind `kind` denotes a value
/// (for decimal literals the value itself is read by the host; here
/// only the shape decides).
pub open spec fn spec_text_ok(t: Seq<char>, kind: NumberKind) -> bool {
    match kind {
        NumberKind::Dec => spec_dec_text_ok(t),
        _ => spec_radix_text_ok(t, kind.spec_radix()),
    }
}

/// What consuming one numeric literal at position `i` does: how far the
/// read advances, and the literal's kind and digit text when the text
/// denotes a value (`None` after a malformed literal, which the caller
/// turns into an `Invalid` token).
///
/// A leading `0` followed by `x` or `b` switches the radix and the
/// digit text starts after that prefix; a lone `0` before any other
/// non-digit is the literal `0`; a single digit before a non-digit is
/// that digit.
pub open spec fn spec_take_num(s: Seq<char>, i: int) -> (int, Option<(NumberKind, Seq<char>)>) {
    let l = s.len() as int;
    if !(0 <= i < l && spec_is_dec_digit(s[i])) {
        (i, None)
    } else if i + 1 >= l {
        (i + 1, Some((NumberKind::Dec, s.subrange(i, i + 1))))
    } else {
        let lead = s[i];
        let c2 = s[i + 1];
        if lead == '0' && c2 == 'x' {
            let p = digit_run_end(s, NumberKind::Hex, i + 2);
            let t = s.subrange(i + 2, p);
            (p, if spec_text_ok(t, NumberKind::Hex) {
                Some((NumberKind::Hex, t))
            } else {
                None
            })
        } else if lead == '0' && c2 == 'b' {
            let p = digit_run_end(s, NumberKind::Bin, i + 2);
            let t = s.subrange(i + 2, p);
            (p, if spec_text_ok(t, NumberKind::Bin) {
                Some((NumberKind::Bin, t))
            } else {
                None
            })
        } else if spec_is_dec_digit(c2) || c2 == '.' {
            let p = digit_run_end(s, NumberKind::Dec, i + 2);
            let t = s.subrange(i, p);
            (p, if spec_text_ok(t, NumberKind::Dec) {
                Some((NumberKind::Dec, t))
            } else {
                None
            })
        } else {
            (i + 1, Some((NumberKind::Dec, s.subrange(i, i + 1))))
        }
    }
}

/// A `SpecToken` with the given kind and span bounds.
pub open spec fn spec_tok(kind: SpecTokenKind, start: int, end: int) -> SpecToken {
    SpecToken { kind, span: TextSpan { start: start as usize, end: end as usize } }
}

/// What one step of the tokenizer does at position `i` of `s`: the
/// token read and the position after it, or nothing once the reader
/// stands past the end-of-input token.
///
/// Whitespace other than newline is discarded first. A `-` directly
/// before a digit or a dot folds into the literal as its sign (the
/// literal's span starts after the `-`); `**` reads as one token; a
/// digit starts a literal; a letter or `_` starts an identifier, and
/// the text `let` is the reserved keyword. A malformed literal gives an
/// `Invalid` token whose span runs one past the malformed digits. Any
/// other character gives an `Invalid` token of width one.
pub open spec fn spec_next(s: Seq<char>, i: int) -> Option<(SpecToken, int)> {
    let l = s.len() as int;
    if i > l {
        None
    } else if i == l {
        Some((spec_tok(SpecTokenKind::Eof, l, l + 1), l + 1))
    } else {
        let j = space_run_end(s, i);
        if j == l {
            Some((spec_tok(SpecTokenKind::Eof, l, l + 1), l + 1))
        } else {
            let c = s[j];
            if c == '-' && j + 1 < l && (s[j + 1] == '.' || spec_is_dec_digit(s[j + 1])) {
                let (end, ok) = spec_take_num(s, j + 1);
                match ok {
                    Some((kind, text)) => Some(
                        (
                            spec_tok(
                                SpecTokenKind::Number { neg: true, kind, text },
                                j + 1,
                                end,
                            ),
                            end,
                        ),
                    ),
                    None => Some((spec_tok(SpecTokenKind::Invalid, j, end + 1), end + 1)),
                }
            } else if c == '*' && j + 1 < l && s[j + 1] == '*' {
                Some((spec_tok(SpecTokenKind::Exponent, j, j + 2), j + 2))
            } else if spec_is_dec_digit(c) || c == '.' {
                let (end, ok) = spec_take_num(s, j);
                match ok {
                    Some((kind, text)) => Some(
                        (
                            spec_tok(
                                SpecTokenKind::Number { neg: false, kind, text },
                                j,
                                end,
                            ),
                            end,
                        ),
                    ),
                    None => Some((spec_tok(SpecTokenKind::Invalid, j, end + 1), end + 1)),
                }
            } else if spec_is_ident_start(c) {
                let p = ident_run_end(s, j + 1);
                let t = s.subrange(j, p);
                let kind = if t == seq!['l', 'e', 't'] {
                    SpecTokenKind::Let
                } else {
                    SpecTokenKind::Ident(t)
                };
                Some((spec_tok(kind, j, p), p))
            } else {
                let kind = if c == '+' {
                    SpecTokenKind::Plus
                } else if c == '-' {
                    SpecTokenKind::Minus
                } else if c == '*' {
                    SpecTokenKind::Asterisk
                } else if c == '/' {
                    SpecTokenKind::Slash
                } else if c == '%' {
                    SpecTokenKind::Percent
                } else if c == '^' {
                    SpecTokenKind::Carrot
                } else if c == '&' {
                    SpecTokenKind::Ampersand
                } else if c == '|' {
                    SpecTokenKind::Pipe
                } else if c == ',' {
                    SpecTokenKind::Comma
                } else if c == '(' {
                    SpecTokenKind::LeftParen
                } else if c == ')' {
                    SpecTokenKind::RightParen
                } else if c == '{' {
                    SpecTokenKind::LeftCurlyBracket
                } else if c == '}' {
                    SpecTokenKind::RightCurlyBracket
                } else if c == '[' {
                    SpecTokenKind::LeftSquareBracket
                } else if c == ']' {
                    SpecTokenKind::RightSquareBrace
                } else if c == '\n' {
                    SpecTokenKind::Newline
                } else {
                    SpecTokenKind::Invalid
                };
                Some((spec_tok(kind, j, j + 1), j + 1))
            }
        }
    }
}

/// Each tokenizer step moves the position forward.
pub proof fn lemma_spec_next_advances(s: Seq<char>, i: int)
    requires
        0 <= i,
        spec_next(s, i) is Some,
    ensures
        i < (spec_next(s, i)->0).1 <= s.len() + 1,
{
    let l = s.len() as int;
    if i < l {
        let j = space_run_end(s, i);
        lemma_space_run_end(s, i);
        if j < l {
            let c = s[j];
            if c == '-' && j + 1 < l && (s[j + 1] == '.' || spec_is_dec_digit(s[j + 1])) {
                lemma_spec_take_num_bounds(s, j + 1);
            } else if spec_is_dec_digit(c) || c == '.' {
                lemma_spec_take_num_bounds(s, j);
            } else if spec_is_ident_start(c) && !(c == '*' && j + 1 < l && s[j + 1] == '*') {
                lemma_ident_run_end(s, j + 1);
            }
        }
    }
}

/// A whitespace run lies between `i` and its run end.
pub proof fn lemma_space_run_end(s: Seq<char>, i: int)
    requires
        0 <= i <= s.len(),
    ensures
        i <= space_run_end(s, i) <= s.len(),
        forall|j: int| i <= j < space_run_end(s, i) ==> spec_is_skipped_space(s[j]),
        space_run_end(s, i) < s.len() ==> !spec_is_skipped_space(s[space_run_end(s, i)]),
    decreases s.len() - i,
{
    if i < s.len() && spec_is_skipped_space(s[i]) {
        lemma_space_run_end(s, i + 1);
    }
}

/// An identifier run lies between `i` and its run end.
pub proof fn lemma_ident_run_end(s: Seq<char>, i: int)
    requires
        0 <= i <= s.len(),
    ensures
        i <= ident_run_end(s, i) <= s.len(),
        forall|j: int| i <= j < ident_run_end(s, i) ==> spec_is_ident_char(s[j]),
        ident_run_end(s, i) < s.len() ==> !spec_is_ident_char(s[ident_run_end(s, i)]),
    decreases s.len() - i,
{
    if i < s.len() && spec_is_ident_char(s[i]) {
        lemma_ident_run_end(s, i + 1);
    }
}

/// A dot-free run lies between `i` and its end.
pub proof fn lemma_no_dot_end(s: Seq<char>, i: int)
    requires
        0 <= i <= s.len(),
    ensures
        i <= no_dot_end(s, i) <= s.len(),
        forall|j: int| i <= j < no_dot_end(s, i) ==> s[j] != '.',
        no_dot_end(s, i) < s.len() ==> s[no_dot_end(s, i)] == '.',
    decreases s.len() - i,
{
    if i < s.len() && s[i] != '.' {
        lemma_no_dot_end(s, i + 1);
    }
}

/// Consuming a literal moves the read forward and no further than the
/// end of the text, save that a read of a lone final digit stops one
/// past it.
pub proof fn lemma_spec_take_num_bounds(s: Seq<char>, i: int)
    requires
        0 <= i <= s.len(),
    ensures
        spec_take_num(s, i).0 <= s.len(),
        0 <= i < s.len() && spec_is_dec_digit(s[i]) ==> i < spec_take_num(s, i).0,
        !(0 <= i < s.len() && spec_is_dec_digit(s[i])) ==> spec_take_num(s, i).0 == i,
{
    let l = s.len() as int;
    if 0 <= i < l && spec_is_dec_digit(s[i]) && i + 1 < l {
        lemma_digit_run_end(s, NumberKind::Hex, i + 2);
        lemma_digit_run_end(s, NumberKind::Bin, i + 2);
        lemma_digit_run_end(s, NumberKind::Dec, i + 2);
    }
}

/// The token stream from position `i` on: one step after another until
/// the reader stands past the end-of-input token.
pub open spec fn spec_tokens_from(s: Seq<char>, i: int) -> Seq<SpecToken>
    decreases s.len() + 2 - i,
{
    if i < 0 || i > s.len() + 1 {
        Seq::empty()
    } else {
        match spec_next(s, i) {
            None => Seq::empty(),
            Some((t, n)) => {
                if i < n <= s.len() + 1 {
                    seq![t] + spec_tokens_from(s, n)
                } else {
                    Seq::empty()
                }
            },
        }
    }
}

/// The token stream of a whole line.
pub open spec fn spec_tokens(s: Seq<char>) -> Seq<SpecToken> {
    spec_tokens_from(s, 0)
}

} // verus!

verus! {

/// The mathematical state of a lexer: the line it reads and where it
/// stands in it.
pub struct LexerModel {
    pub input: Seq<char>,
    pub index: int,
}

/// The tokenizer's reader: a line of characters and a position in it.
#[derive(Debug, Clone, PartialEq, Eq)]
pub struct Lexer {
    input: Vec<char>,
    index: usize,
}

impl View for Lexer {
    type V = LexerModel;

    closed spec fn view(&self) -> LexerModel {
        LexerModel { input: self.input@, index: self.index as int }
    }
}

impl Lexer {
    /// Room for the one-past-the-end position of the end-of-input token.
    pub open spec fn wf(self) -> bool {
        self@.input.len() + 2 <= usize::MAX
    }

    /// Create a new lexer from a given input.
    pub fn new(input: &str) -> (l: Lexer)
        requires
            input@.len() + 2 <= usize::MAX,
        ensures
            l@.input == input@,
            l@.index == 0,
            l.wf(),
    {
        let n = input.unicode_len();
        let mut v: Vec<char> = Vec::new();
        let mut i: usize = 0;
        while i < n
            invariant
                i <= n,
                n == input@.len(),
                v@ == input@.subrange(0, i as int),
            decreases n - i,
        {
            v.push(input.get_char(i));
            proof {
                assert(input@.subrange(0, (i + 1) as int) =~= input@.subrange(0, i as int).push(
                    input@[i as int],
                ));
            }
            i += 1;
        }
        proof {
            assert(input@.subrange(0, n as int) =~= input@);
        }
        Lexer { input: v, index: 0 }
    }

    /// Get the character that the lexer is currently at.
    pub fn current_char(&self) -> (c: Option<char>)
        ensures
            c == (if self@.index < self@.input.len() {
                Some(self@.input[self@.index])
            } else {
                None::<char>
            }),
    {
        if self.index < self.input.len() {
            Some(self.input[self.index])
        } else {
            None
        }
    }

    /// Check the value of the next character.
    pub fn peek_char(&self) -> (c: Option<char>)
        requires
            self.wf(),
            self@.index < self@.input.len(),
        ensures
            c == (if self@.index + 1 < self@.input.len() {
                Some(self@.input[self@.index + 1])
            } else {
                None::<char>
            }),
    {
        if self.index + 1 < self.input.len() {
            Some(self.input[self.index + 1])
        } else {
            None
        }
    }

    /// Take one character from the input.
    pub fn take_char(&mut self) -> (c: Option<char>)
        requires
            old(self).wf(),
        ensures
            final(self).wf(),
            final(self)@.input == old(self)@.input,
            old(self)@.index < old(self)@.input.len() ==> final(self)@.index == old(self)@.index
                + 1 && c == Some(old(self)@.input[old(self)@.index]),
            old(self)@.index >= old(self)@.input.len() ==> final(self)@.index == old(self)@.index
                && c is None,
    {
        if self.index < self.input.len() {
            self.index += 1;
            Some(self.input[self.index - 1])
        } else {
            None
        }
    }

    /// The end of the run of valid digits for `kind` that starts at `from`.
    fn scan_digits(&self, from: usize, kind: NumberKind) -> (p: usize)
        requires
            from <= self@.input.len(),
        ensures
            from <= p <= self@.input.len(),
            p == digit_run_end(self@.input, kind, from as int),
    {
        let mut idx = from;
        while idx < self.input.len() && kind.is_valid_digit(self.input[idx])
            invariant
                from <= idx <= self@.input.len(),
                digit_run_end(self@.input, kind, from as int) == digit_run_end(
                    self@.input,
                    kind,
                    idx as int,
                ),
            decreases self@.input.len() - idx,
        {
            idx += 1;
        }
        idx
    }

    /// The first dot at or after `from` and before `to`, or `to`.
    fn scan_no_dot(&self, from: usize, to: usize) -> (d: usize)
        requires
            from <= to <= self@.input.len(),
        ensures
            from <= d <= to,
            forall|j: int| from <= j < d ==> self@.input[j] != '.',
            d < to ==> self@.input[d as int] == '.',
    {
        let mut idx = from;
        while idx < to && self.input[idx] != '.'
            invariant
                from <= idx <= to <= self@.input.len(),
                forall|j: int| from <= j < idx ==> self@.input[j] != '.',
            decreases to - idx,
        {
            idx += 1;
        }
        idx
    }

    /// The value of the digits `input[from..to]` in the radix of `kind`,
    /// or `None` when it exceeds `u64` range.
    fn radix_range_value(&self, from: usize, to: usize, kind: NumberKind) -> (r: Option<u64>)
        requires
            from <= to <= self@.input.len(),
            forall|j: int| from <= j < to ==> spec_is_digit(self@.input[j], kind.spec_radix()),
            kind != NumberKind::Dec,
        ensures
            ({
                let t = self@.input.subrange(from as int, to as int);
                match r {
                    Some(v) => radix_val(t, kind.spec_radix()) <= u64::MAX && v == radix_val(
                        t,
                        kind.spec_radix(),
                    ),
                    None => radix_val(t, kind.spec_radix()) > u64::MAX,
                }
            }),
    {
        let ghost t = self@.input.subrange(from as int, to as int);
        let radix = kind.radix();
        let mut acc: u128 = 0;
        let mut idx = from;
        while idx < to
            invariant
                from <= idx <= to <= self@.input.len(),
                t == self@.input.subrange(from as int, to as int),
                forall|j: int| from <= j < to ==> spec_is_digit(self@.input[j], kind.spec_radix()),
                radix == kind.spec_radix(),
                radix == 2 || radix == 16,
                acc == radix_val(t.subrange(0, idx - from), radix),
                acc <= u64::MAX,
            decreases to - idx,
        {
            let d = digit_val(self.input[idx]);
            proof {
                assert(spec_is_digit(self@.input[idx as int], radix));
                assert(acc * radix + d <= (u64::MAX as u128) * 16 + 15) by (nonlinear_arith)
                    requires
                        acc <= u64::MAX,
                        radix <= 16,
                        d <= 15,
                        acc >= 0,
                ;
            }
            let next = acc * (radix as u128) + (d as u128);
            proof {
                let k = idx - from;
                assert(t.subrange(0, k + 1).drop_last() =~= t.subrange(0, k));
                assert(t.subrange(0, k + 1).last() == self@.input[idx as int]);
            }
            if next > u64::MAX as u128 {
                proof {
                    lemma_radix_val_overflow(t, radix, idx - from + 1);
                }
                return None;
            }
            acc = next;
            idx += 1;
        }
        proof {
            assert(t.subrange(0, to - from) =~= t);
        }
        Some(acc as u64)
    }
}

/// Once a digit prefix exceeds `u64` range, so does the whole run.
pub proof fn lemma_radix_val_overflow(t: Seq<char>, r: u32, k: int)
    requires
        0 <= k <= t.len(),
        r >= 2,
        radix_val(t.subrange(0, k), r) > u64::MAX,
        forall|j: int| 0 <= j < t.len() ==> spec_is_digit(t[j], r),
    ensures
        radix_val(t, r) > u64::MAX,
    decreases t.len() - k,
{
    if k < t.len() {
        assert(t.subrange(0, k + 1).drop_last() =~= t.subrange(0, k));
        let a = radix_val(t.subrange(0, k), r);
        let d = spec_digit_val(t[k]);
        assert(t.subrange(0, k + 1).last() == t[k]);
        assert(a * r + d > u64::MAX) by (nonlinear_arith)
            requires
                a > u64::MAX,
                r >= 2,
                d >= 0,
        ;
        lemma_radix_val_overflow(t, r, k + 1);
    } else {
        assert(t.subrange(0, k) =~= t);
    }
}

/// If the region `[i, m)` of `t` is dot-free and `m` is the end or a
/// dot, then `m` is the first dot position from `i`.
pub proof fn lemma_no_dot_end_unique(t: Seq<char>, i: int, m: int)
    requires
        0 <= i <= m <= t.len(),
        forall|k: int| i <= k < m ==> t[k] != '.',
        m < t.len() ==> t[m] == '.',
    ensures
        no_dot_end(t, i) == m,
    decreases m - i,
{
    if i < m {
        lemma_no_dot_end_unique(t, i + 1, m);
    }
}

} // verus!

verus! {

impl Lexer {
    /// Reads the digit run of a hexadecimal or binary literal, whose
    /// `0x`/`0b` prefix stands at the current position; returns its
    /// digit text when it denotes a value.
    fn take_radix_tail(&mut self, kind: NumberKind) -> (r: Option<(NumberKind, String)>)
        requires
            old(self).wf(),
            old(self)@.index + 2 <= old(self)@.input.len(),
            kind != NumberKind::Dec,
        ensures
            final(self).wf(),
            final(self)@.input == old(self)@.input,
            final(self)@.index == digit_run_end(
                old(self)@.input,
                kind,
                old(self)@.index + 2,
            ),
            ({
                let t = old(self)@.input.subrange(old(self)@.index + 2, final(self)@.index as int);
                match r {
                    Some(p) => p.0 == kind && p.1@ == t && spec_text_ok(t, kind),
                    None => !spec_text_ok(t, kind),
                }
            }),
    {
        let start = self.index + 2;
        let p = self.scan_digits(start, kind);
        self.index = p;
        let ghost s = self@.input;
        let ghost t = s.subrange(start as int, p as int);
        proof {
            lemma_digit_run_end(s, kind, start as int);
        }
        let d = self.scan_no_dot(start, p);
        proof {
            lemma_no_dot_end_unique(t, 0, d - start);
        }
        if d == p {
            // no dot: the whole run must be nonempty and within range
            if p == start {
                return None;
            }
            match self.radix_range_value(start, p, kind) {
                Some(_) => Some((kind, string_of_range(&self.input, start, p))),
                None => None,
            }
        } else {
            // a dot at d: both parts must be nonempty, dot unique, both in range
            if d == start {
                return None;
            }
            if d + 1 >= p {
                return None;
            }
            let d2 = self.scan_no_dot(d + 1, p);
            proof {
                lemma_no_dot_end_unique(t, d - start + 1, d2 - start);
            }
            if d2 != p {
                return None;
            }
            proof {
                assert(s.subrange(start as int, d as int) =~= t.subrange(0, d - start));
                assert(s.subrange(d + 1 as int, p as int) =~= t.subrange(
                    d - start + 1,
                    t.len() as int,
                ));
            }
            if self.radix_range_value(start, d, kind).is_none() {
                return None;
            }
            if self.radix_range_value(d + 1, p, kind).is_none() {
                return None;
            }
            Some((kind, string_of_range(&self.input, start, p)))
        }
    }

    /// Reads the rest of a decimal literal whose first digit stands at
    /// the current position and whose second character is a digit or a
    /// dot; returns its digit text when it has at most one dot.
    fn take_dec_tail(&mut self) -> (r: Option<(NumberKind, String)>)
        requires
            old(self).wf(),
            old(self)@.index + 2 <= old(self)@.input.len(),
        ensures
            final(self).wf(),
            final(self)@.input == old(self)@.input,
            final(self)@.index == digit_run_end(
                old(self)@.input,
                NumberKind::Dec,
                old(self)@.index + 2,
            ),
            old(self)@.index <= final(self)@.index,
            ({
                let t = old(self)@.input.subrange(old(self)@.index as int, final(self)@.index as int);
                match r {
                    Some(p) => p.0 == NumberKind::Dec && p.1@ == t && spec_text_ok(
                        t,
                        NumberKind::Dec,
                    ),
                    None => !spec_text_ok(t, NumberKind::Dec),
                }
            }),
    {
        let i = self.index;
        let p = self.scan_digits(i + 2, NumberKind::Dec);
        self.index = p;
        let ghost s = self@.input;
        let ghost t = s.subrange(i as int, p as int);
        let d = self.scan_no_dot(i, p);
        proof {
            lemma_no_dot_end_unique(t, 0, d - i);
        }
        if d == p {
            return Some((NumberKind::Dec, string_of_range(&self.input, i, p)));
        }
        let d2 = self.scan_no_dot(d + 1, p);
        proof {
            lemma_no_dot_end_unique(t, d - i + 1, d2 - i);
        }
        if d2 == p {
            Some((NumberKind::Dec, string_of_range(&self.input, i, p)))
        } else {
            None
        }
    }

    /// Consume one number from the input and return its kind and digit
    /// text, or `None` after a malformed literal.
    fn take_num(&mut self) -> (r: Option<(NumberKind, String)>)
        requires
            old(self).wf(),
        ensures
            final(self).wf(),
            final(self)@.input == old(self)@.input,
            ({
                let (end, ok) = spec_take_num(old(self)@.input, old(self)@.index);
                final(self)@.index == end && match (r, ok) {
                    (Some(p), Some(q)) => p.0 == q.0 && p.1@ == q.1,
                    (None, None) => true,
                    _ => false,
                }
            }),
    {
        let l = self.input.len();
        let i = self.index;
        if i >= l {
            return None;
        }
        let lead = self.input[i];
        if digit_val(lead) >= 10 {
            return None;
        }
        if i + 1 >= l {
            self.index = i + 1;
            return Some((NumberKind::Dec, string_of_range(&self.input, i, i + 1)));
        }
        let c2 = self.input[i + 1];
        if lead == '0' && c2 == 'x' {
            self.take_radix_tail(NumberKind::Hex)
        } else if lead == '0' && c2 == 'b' {
            self.take_radix_tail(NumberKind::Bin)
        } else if digit_val(c2) < 10 || c2 == '.' {
            self.take_dec_tail()
        } else {
            self.index = i + 1;
            Some((NumberKind::Dec, string_of_range(&self.input, i, i + 1)))
        }
    }

    /// Read the next token, or nothing once the reader stands past the
    /// end-of-input token.
    pub fn next(&mut self) -> (r: Option<Token>)
        requires
            old(self).wf(),
        ensures
            final(self).wf(),
            final(self)@.input == old(self)@.input,
            match spec_next(old(self)@.input, old(self)@.index) {
                None => r is None && final(self)@.index == old(self)@.index,
                Some(p) => r is Some && (r->0)@ == p.0 && final(self)@.index == p.1,
            },
    {
        let ghost s = self@.input;
        let ghost i0 = self@.index;
        let l = self.input.len();
        if self.index > l {
            return None;
        }
        if self.index == l {
            self.index = l + 1;
            return Some(Token::new(TokenKind::Eof, TextSpan::new(l, l + 1)));
        }
        while self.index < l && is_skipped_space(self.input[self.index])
            invariant
                self.wf(),
                self@.input == s,
                l == s.len(),
                i0 <= self@.index <= l,
                space_run_end(s, i0) == space_run_end(s, self@.index),
            decreases l - self@.index,
        {
            self.index = self.index + 1;
        }
        let j = self.index;
        proof {
            assert(j == space_run_end(s, i0));
        }
        if j == l {
            self.index = l + 1;
            return Some(Token::new(TokenKind::Eof, TextSpan::new(l, l + 1)));
        }
        let c = self.input[j];
        if c == '-' && j + 1 < l && (self.input[j + 1] == '.' || digit_val(self.input[j + 1])
            < 10) {
            self.index = j + 1;
            match self.take_num() {
                Some((kind, text)) => {
                    let end = self.index;
                    Some(
                        Token::new(
                            TokenKind::Number { neg: true, kind, text },
                            TextSpan::new(j + 1, end),
                        ),
                    )
                },
                None => {
                    let end = self.index;
                    proof {
                        lemma_spec_take_num_bounds(s, j + 1 as int);
                    }
                    self.index = end + 1;
                    Some(Token::new(TokenKind::Invalid, TextSpan::new(j, end + 1)))
                },
            }
        } else if c == '*' && j + 1 < l && self.input[j + 1] == '*' {
            self.index = j + 2;
            Some(Token::new(TokenKind::Exponent, TextSpan::new(j, j + 2)))
        } else if digit_val(c) < 10 || c == '.' {
            match self.take_num() {
                Some((kind, text)) => {
                    let end = self.index;
                    Some(
                        Token::new(
                            TokenKind::Number { neg: false, kind, text },
                            TextSpan::new(j, end),
                        ),
                    )
                },
                None => {
                    let end = self.index;
                    proof {
                        lemma_spec_take_num_bounds(s, j as int);
                    }
                    self.index = end + 1;
                    Some(Token::new(TokenKind::Invalid, TextSpan::new(j, end + 1)))
                },
            }
        } else if is_ident_start(c) {
            let mut idx = j + 1;
            while idx < l && is_ident_char(self.input[idx])
                invariant
                    self.wf(),
                    self@.input == s,
                    l == s.len(),
                    j + 1 <= idx <= l,
                    ident_run_end(s, j + 1 as int) == ident_run_end(s, idx as int),
                decreases l - idx,
            {
                idx += 1;
            }
            let p = idx;
            self.index = p;
            let text = string_of_range(&self.input, j, p);
            proof {
                reveal_strlit("let");
                assert("let"@ =~= seq!['l', 'e', 't']);
            }
            if crate::strutil::str_eq(text.as_str(), "let") {
                Some(Token::new(TokenKind::Let, TextSpan::new(j, p)))
            } else {
                Some(Token::new(TokenKind::Ident(text), TextSpan::new(j, p)))
            }
        } else {
            let kind = if c == '+' {
                TokenKind::Plus
            } else if c == '-' {
                TokenKind::Minus
            } else if c == '*' {
                TokenKind::Asterisk
            } else if c == '/' {
                TokenKind::Slash
            } else if c == '%' {
                TokenKind::Percent
            } else if c == '^' {
                TokenKind::Carrot
            } else if c == '&' {
                TokenKind::Ampersand
            } else if c == '|' {
                TokenKind::Pipe
            } else if c == ',' {
                TokenKind::Comma
            } else if c == '(' {
                TokenKind::LeftParen
            } else if c == ')' {
                TokenKind::RightParen
            } else if c == '{' {
                TokenKind::LeftCurlyBracket
            } else if c == '}' {
                TokenKind::RightCurlyBracket
            } else if c == '[' {
                TokenKind::LeftSquareBracket
            } else if c == ']' {
                TokenKind::RightSquareBrace
            } else if c == '\n' {
                TokenKind::Newline
            } else {
                TokenKind::Invalid
            };
            self.index = j + 1;
            Some(Token::new(kind, TextSpan::new(j, j + 1)))
        }
    }

    /// Read the whole token stream, from the current position to the
    /// end-of-input token.
    pub fn tokens(&mut self) -> (out: Vec<Token>)
        requires
            old(self).wf(),
        ensures
            final(self).wf(),
            final(self)@.input == old(self)@.input,
            out@.map(|k: int, t: Token| t@) == spec_tokens_from(
                old(self)@.input,
                old(self)@.index,
            ),
    {
        let ghost s = self@.input;
        let ghost i0 = self@.index;
        let mut out: Vec<Token> = Vec::new();
        let mut done = false;
        while !done
            invariant
                self.wf(),
                self@.input == s,
                i0 <= self@.index,
                spec_tokens_from(s, i0) == out@.map(|k: int, t: Token| t@) + spec_tokens_from(
                    s,
                    self@.index,
                ),
                done ==> spec_tokens_from(s, self@.index) == Seq::<SpecToken>::empty(),
            decreases (if self@.index <= s.len() + 2 {
                s.len() + 2 - self@.index
            } else {
                0int
            }) + (if done {
                0int
            } else {
                1int
            }),
        {
            let ghost i_before = self@.index;
            match self.next() {
                None => {
                    done = true;
                },
                Some(t) => {
                    proof {
                        lemma_spec_next_advances(s, i_before);
                        assert(out@.push(t).map(|k: int, u: Token| u@) =~= out@.map(
                            |k: int, u: Token| u@,
                        ).push(t@));
                        assert(spec_tokens_from(s, i_before) =~= seq![t@] + spec_tokens_from(
                            s,
                            self@.index,
                        ));
                        assert(out@.map(|k: int, u: Token| u@).push(t@) + spec_tokens_from(
                            s,
                            self@.index,
                        ) =~= (out@.map(|k: int, u: Token| u@) + seq![t@]) + spec_tokens_from(
                            s,
                            self@.index,
                        ));
                        assert((out@.map(|k: int, u: Token| u@) + seq![t@]) + spec_tokens_from(
                            s,
                            self@.index,
                        ) =~= out@.map(|k: int, u: Token| u@) + (seq![t@] + spec_tokens_from(
                            s,
                            self@.index,
                        )));
                    }
                    out.push(t);
                },
            }
        }
        proof {
            assert(out@.map(|k: int, t: Token| t@) + Seq::<SpecToken>::empty() =~= out@.map(
                |k: int, t: Token| t@,
            ));
        }
        out
    }
}

} // verus!

verus! {

impl Token {
    /// A token equal to this one in shape.
    pub fn duplicate(&self) -> (r: Token)
        ensures
            r@ == self@,
    {
        let kind = match &self.kind {
            TokenKind::Number { neg, kind, text } => TokenKind::Number {
                neg: *neg,
                kind: *kind,
                text: text.clone(),
            },
            TokenKind::Ident(s) => TokenKind::Ident(s.clone()),
            TokenKind::Plus => TokenKind::Plus,
            TokenKind::Minus => TokenKind::Minus,
            TokenKind::Asterisk => TokenKind::Asterisk,
            TokenKind::Slash => TokenKind::Slash,
            TokenKind::Percent => TokenKind::Percent,
            TokenKind::Exponent => TokenKind::Exponent,
            TokenKind::Carrot => TokenKind::Carrot,
            TokenKind::Ampersand => TokenKind::Ampersand,
            TokenKind::Pipe => TokenKind::Pipe,
            TokenKind::Comma => TokenKind::Comma,
            TokenKind::LeftParen => TokenKind::LeftParen,
            TokenKind::RightParen => TokenKind::RightParen,
            TokenKind::LeftCurlyBracket => TokenKind::LeftCurlyBracket,
            TokenKind::RightCurlyBracket => TokenKind::RightCurlyBracket,
            TokenKind::LeftSquareBracket => TokenKind::LeftSquareBracket,
            TokenKind::RightSquareBrace => TokenKind::RightSquareBrace,
            TokenKind::Newline => TokenKind::Newline,
            TokenKind::Let => TokenKind::Let,
            TokenKind::Eof => TokenKind::Eof,
            TokenKind::Invalid => TokenKind::Invalid,
        };
        Token { kind, span: self.span }
    }
}

} // verus!
