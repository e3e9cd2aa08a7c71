//! The lexer: it cuts the bytes of a source text into the tokens of the
//! language, passing over blanks and comments.
//!
//! A token is the longest piece of the text, from where it starts, that can
//! be one. An identifier is a letter or `_` and the letters, digits and `_`
//! that follow; `int` and `return` are set apart as keywords. An integer
//! literal is decimal, octal with a leading `0`, or hexadecimal behind `0x`,
//! and must not be greater than the greatest `i32`.

use vstd::prelude::*;
use vstd::string::*;
use crate::numeral::{digits, push_digits};

verus! {

/// The byte of a space.
pub const SPACE: u8 = 32;

/// The byte of a tab.
pub const TAB: u8 = 9;

/// The byte of a line feed.
pub const LINE_FEED: u8 = 10;

/// The byte of a carriage return.
pub const CARRIAGE_RETURN: u8 = 13;

/// The byte of `_`.
pub const UNDERSCORE: u8 = 95;

/// The byte of `a`.
pub const LOWER_A: u8 = 97;

/// The byte of `f`.
pub const LOWER_F: u8 = 102;

/// The byte of `z`.
pub const LOWER_Z: u8 = 122;

/// The byte of `x`.
pub const LOWER_X: u8 = 120;

/// The byte of `A`.
pub const UPPER_A: u8 = 65;

/// The byte of `F`.
pub const UPPER_F: u8 = 70;

/// The byte of `Z`.
pub const UPPER_Z: u8 = 90;

/// The byte of `X`.
pub const UPPER_X: u8 = 88;

/// The byte of `0`.
pub const DIGIT_0: u8 = 48;

/// The byte of `7`.
pub const DIGIT_7: u8 = 55;

/// The byte of `9`.
pub const DIGIT_9: u8 = 57;

/// The byte of `*`.
pub const STAR: u8 = 42;

/// The byte of `/`.
pub const SLASH: u8 = 47;

/// The byte of `(`.
pub const LEFT_PAREN: u8 = 40;

/// The byte of `)`.
pub const RIGHT_PAREN: u8 = 41;

/// The byte of `{`.
pub const LEFT_BRACE: u8 = 123;

/// The byte of `}`.
pub const RIGHT_BRACE: u8 = 125;

/// The byte of `;`.
pub const SEMICOLON: u8 = 59;

/// The byte of `+`.
pub const PLUS: u8 = 43;

/// The byte of `-`.
pub const MINUS: u8 = 45;

/// The byte of `!`.
pub const BANG: u8 = 33;

/// What is wrong with a source text.
#[derive(Debug, Clone, Copy, PartialEq, Eq)]
pub enum ErrorKind {
    /// A byte that starts no token.
    UnexpectedByte,
    /// A `/*` without its `*/`.
    UnterminatedComment,
    /// An integer literal greater than the greatest `i32`.
    LiteralOutOfRange,
    /// A token that cannot stand where it stands.
    UnexpectedToken,
    /// The text ends where a token is still due.
    UnexpectedEnd,
}

/// A syntax error: what is wrong, and at which byte of the text.
#[derive(Debug, Clone, Copy, PartialEq, Eq)]
pub struct SyntaxError {
    pub at: usize,
    pub kind: ErrorKind,
}

impl ErrorKind {
    /// What is wrong, in words.
    pub open spec fn text(self) -> Seq<char> {
        match self {
            ErrorKind::UnexpectedByte => "unexpected character"@,
            ErrorKind::UnterminatedComment => "comment without end"@,
            ErrorKind::LiteralOutOfRange => "integer literal out of range"@,
            ErrorKind::UnexpectedToken => "unexpected token"@,
            ErrorKind::UnexpectedEnd => "unexpected end of input"@,
        }
    }

    /// What is wrong, in words.
    pub fn describe(&self) -> (words: &'static str)
        ensures
            words@ == self.text(),
    {
        match self {
            ErrorKind::UnexpectedByte => "unexpected character",
            ErrorKind::UnterminatedComment => "comment without end",
            ErrorKind::LiteralOutOfRange => "integer literal out of range",
            ErrorKind::UnexpectedToken => "unexpected token",
            ErrorKind::UnexpectedEnd => "unexpected end of input",
        }
    }
}

impl SyntaxError {
    /// The error as a sentence: `syntax error at byte N: what is wrong`.
    pub open spec fn text(self) -> Seq<char> {
        "syntax error at byte "@ + digits(self.at as nat) + ": "@ + self.kind.text()
    }

    /// The error as a sentence that names the byte at which it was found.
    pub fn message(&self) -> (sentence: String)
        ensures
            sentence@ == self.text(),
    {
        let mut sentence = String::from_str("syntax error at byte ");
        push_digits(&mut sentence, self.at as u64);
        sentence.append(": ");
        sentence.append(self.kind.describe());
        sentence
    }
}

/// A token without its place in the text.
#[derive(Debug, PartialEq, Eq)]
pub enum TokenKind {
    Int,
    Return,
    Ident(String),
    Number(i32),
    LParen,
    RParen,
    LBrace,
    RBrace,
    Semicolon,
    Plus,
    Minus,
    Bang,
}

/// A token without its place, as a mathematical value.
pub enum TokenView {
    Int,
    Return,
    Ident(Seq<char>),
    Number(i32),
    LParen,
    RParen,
    LBrace,
    RBrace,
    Semicolon,
    Plus,
    Minus,
    Bang,
}

impl View for TokenKind {
    type V = TokenView;

    open spec fn view(&self) -> TokenView {
        match self {
            TokenKind::Int => TokenView::Int,
            TokenKind::Return => TokenView::Return,
            TokenKind::Ident(name) => TokenView::Ident(name@),
            TokenKind::Number(n) => TokenView::Number(*n),
            TokenKind::LParen => TokenView::LParen,
            TokenKind::RParen => TokenView::RParen,
            TokenKind::LBrace => TokenView::LBrace,
            TokenKind::RBrace => TokenView::RBrace,
            TokenKind::Semicolon => TokenView::Semicolon,
            TokenKind::Plus => TokenView::Plus,
            TokenKind::Minus => TokenView::Minus,
            TokenKind::Bang => TokenView::Bang,
        }
    }
}

/// A token and the byte at which it starts.
#[derive(Debug, PartialEq, Eq)]
pub struct Token {
    pub kind: TokenKind,
    pub at: usize,
}

/// A token and its place, as a mathematical value.
pub struct PlacedToken {
    pub kind: TokenView,
    pub at: usize,
}

impl View for Token {
    type V = PlacedToken;

    open spec fn view(&self) -> PlacedToken {
        PlacedToken { kind: self.kind@, at: self.at }
    }
}

impl DeepView for Token {
    type V = PlacedToken;

    open spec fn deep_view(&self) -> PlacedToken {
        self@
    }
}

/// The classes of bytes of which the lexer scans runs.
#[derive(Debug, Clone, Copy, PartialEq, Eq)]
pub enum Class {
    /// Letters, digits and `_`.
    Ident,
    /// `0` to `9`.
    Decimal,
    /// `0` to `7`.
    Octal,
    /// `0` to `9`, `a` to `f` and `A` to `F`.
    Hex,
}

/// A blank: space, tab, line feed or carriage return.
pub open spec fn is_space(b: u8) -> bool {
    b == SPACE || b == TAB || b == LINE_FEED || b == CARRIAGE_RETURN
}

/// A byte that can start an identifier: a letter or `_`.
pub open spec fn is_ident_start(b: u8) -> bool {
    b == UNDERSCORE || LOWER_A <= b <= LOWER_Z || UPPER_A <= b <= UPPER_Z
}

/// A decimal digit.
pub open spec fn is_digit(b: u8) -> bool {
    DIGIT_0 <= b <= DIGIT_9
}

impl Class {
    /// Whether the byte is of the class.
    pub open spec fn holds(self, b: u8) -> bool {
        match self {
            Class::Ident => is_ident_start(b) || is_digit(b),
            Class::Decimal => is_digit(b),
            Class::Octal => DIGIT_0 <= b <= DIGIT_7,
            Class::Hex => is_digit(b) || LOWER_A <= b <= LOWER_F || UPPER_A <= b <= UPPER_F,
        }
    }

    /// Whether the byte is of the class.
    pub fn test(self, b: u8) -> (yes: bool)
        ensures
            yes == self.holds(b),
    {
        match self {
            Class::Ident => b == UNDERSCORE || (LOWER_A <= b && b <= LOWER_Z) || (UPPER_A <= b && b <= UPPER_Z) || (DIGIT_0
                <= b && b <= DIGIT_9),
            Class::Decimal => DIGIT_0 <= b && b <= DIGIT_9,
            Class::Octal => DIGIT_0 <= b && b <= DIGIT_7,
            Class::Hex => (DIGIT_0 <= b && b <= DIGIT_9) || (LOWER_A <= b && b <= LOWER_F) || (UPPER_A <= b && b
                <= UPPER_F),
        }
    }
}

/// What a digit counts for: `0` to `9` for themselves, `a` to `f` and `A`
/// to `F` for 10 to 15.
pub open spec fn digit_value(b: u8) -> nat {
    if is_digit(b) {
        (b - DIGIT_0) as nat
    } else if LOWER_A <= b <= LOWER_F {
        (b - LOWER_A + 10) as nat
    } else if UPPER_A <= b <= UPPER_F {
        (b - UPPER_A + 10) as nat
    } else {
        0
    }
}

/// The number that the digits write in the given base.
pub open spec fn number_value(digits: Seq<u8>, base: nat) -> nat
    decreases digits.len(),
{
    if digits.len() == 0 {
        0
    } else {
        number_value(digits.drop_last(), base) * base + digit_value(digits.last())
    }
}

/// Where the line ends that `pos` is in: at the next line feed, or at the
/// end of the text.
pub open spec fn line_end(s: Seq<u8>, pos: int) -> int
    decreases s.len() - pos,
{
    if pos < 0 || pos >= s.len() {
        s.len() as int
    } else if s[pos] == LINE_FEED {
        pos
    } else {
        line_end(s, pos + 1)
    }
}

/// Where the comment ends whose inside starts at `pos`: behind the next
/// `*/`, if there is one.
pub open spec fn comment_end(s: Seq<u8>, pos: int) -> Option<int>
    decreases s.len() - pos,
{
    if pos < 0 || pos + 1 >= s.len() {
        None
    } else if s[pos] == STAR && s[pos + 1] == SLASH {
        Some(pos + 2)
    } else {
        comment_end(s, pos + 1)
    }
}

/// Where the run of bytes of class `class` ends that starts at `pos`.
pub open spec fn run_end(s: Seq<u8>, pos: int, class: Class) -> int
    decreases s.len() - pos,
{
    if 0 <= pos < s.len() && class.holds(s[pos]) {
        run_end(s, pos + 1, class)
    } else {
        pos
    }
}

/// A line ends at or behind where it is entered, within the text.
pub proof fn lemma_line_end(s: Seq<u8>, pos: int)
    requires
        0 <= pos <= s.len(),
    ensures
        pos <= line_end(s, pos) <= s.len(),
    decreases s.len() - pos,
{
    if pos < s.len() && s[pos] != LINE_FEED {
        lemma_line_end(s, pos + 1);
    }
}

/// A comment ends behind its `*/`, within the text.
pub proof fn lemma_comment_end(s: Seq<u8>, pos: int)
    requires
        0 <= pos,
    ensures
        comment_end(s, pos) matches Some(end) ==> pos + 2 <= end <= s.len(),
    decreases s.len() - pos,
{
    if pos + 1 < s.len() && !(s[pos] == STAR && s[pos + 1] == SLASH) {
        lemma_comment_end(s, pos + 1);
    }
}

/// A run ends at or behind where it starts, within the text, and holds
/// bytes of its class only.
pub proof fn lemma_run_end(s: Seq<u8>, pos: int, class: Class)
    requires
        0 <= pos <= s.len(),
    ensures
        pos <= run_end(s, pos, class) <= s.len(),
        forall|i: int| pos <= i < run_end(s, pos, class) ==> class.holds(#[trigger] s[i]),
        pos < s.len() && class.holds(s[pos]) ==> pos < run_end(s, pos, class),
    decreases s.len() - pos,
{
    if pos < s.len() && class.holds(s[pos]) {
        lemma_run_end(s, pos + 1, class);
    }
}

/// Where the next token starts at or behind `pos`, or the length of the text
/// if only blanks and comments are left: blanks, comments from `//` to the
/// end of the line and comments from `/*` to `*/` are passed over. A `/*`
/// without its `*/` is an error at the `/*`.
pub open spec fn skip(s: Seq<u8>, pos: int) -> Result<int, SyntaxError>
    decreases s.len() - pos,
{
    if pos < 0 || pos >= s.len() {
        Ok(s.len() as int)
    } else if is_space(s[pos]) {
        skip(s, pos + 1)
    } else if s[pos] == SLASH && pos + 1 < s.len() && s[pos + 1] == SLASH {
        proof {
            lemma_line_end(s, pos + 2);
        }
        skip(s, line_end(s, pos + 2))
    } else if s[pos] == SLASH && pos + 1 < s.len() && s[pos + 1] == STAR {
        match comment_end(s, pos + 2) {
            Some(end) => {
                proof {
                    lemma_comment_end(s, pos + 2);
                }
                skip(s, end)
            },
            None => Err(SyntaxError { at: pos as usize, kind: ErrorKind::UnterminatedComment }),
        }
    } else {
        Ok(pos)
    }
}

/// The bytes of the keyword `int`.
pub open spec fn int_word() -> Seq<u8> {
    seq![105u8, 110u8, 116u8]
}

/// The bytes of the keyword `return`.
pub open spec fn return_word() -> Seq<u8> {
    seq![114u8, 101u8, 116u8, 117u8, 114u8, 110u8]
}

/// The characters that the bytes of an identifier stand for.
pub open spec fn as_chars(word: Seq<u8>) -> Seq<char> {
    Seq::new(word.len(), |i: int| word[i] as char)
}

/// The token that a word is: a keyword or an identifier.
pub open spec fn word_token(word: Seq<u8>) -> TokenView {
    if word == int_word() {
        TokenView::Int
    } else if word == return_word() {
        TokenView::Return
    } else {
        TokenView::Ident(as_chars(word))
    }
}

/// The token that a punctuation byte is, if it is one.
pub open spec fn punctuation(b: u8) -> Option<TokenView> {
    if b == LEFT_PAREN {
        Some(TokenView::LParen)
    } else if b == RIGHT_PAREN {
        Some(TokenView::RParen)
    } else if b == LEFT_BRACE {
        Some(TokenView::LBrace)
    } else if b == RIGHT_BRACE {
        Some(TokenView::RBrace)
    } else if b == SEMICOLON {
        Some(TokenView::Semicolon)
    } else if b == PLUS {
        Some(TokenView::Plus)
    } else if b == MINUS {
        Some(TokenView::Minus)
    } else if b == BANG {
        Some(TokenView::Bang)
    } else {
        None
    }
}

/// Whether a hexadecimal literal starts at `pos`: `0x` or `0X` and a
/// hexadecimal digit.
pub open spec fn hex_starts(s: Seq<u8>, pos: int) -> bool {
    &&& pos + 2 < s.len()
    &&& s[pos] == DIGIT_0
    &&& (s[pos + 1] == LOWER_X || s[pos + 1] == UPPER_X)
    &&& Class::Hex.holds(s[pos + 2])
}

/// The integer literal that starts at `pos`, where a digit stands: its value
/// and its end, or an error where the value is out of range.
pub open spec fn literal_at(s: Seq<u8>, pos: int) -> Result<(TokenView, int), SyntaxError> {
    let (first, class, base) = if hex_starts(s, pos) {
        (pos + 2, Class::Hex, 16nat)
    } else if s[pos] == DIGIT_0 {
        (pos, Class::Octal, 8nat)
    } else {
        (pos, Class::Decimal, 10nat)
    };
    let end = run_end(s, first, class);
    let value = number_value(s.subrange(first, end), base);
    if value <= i32::MAX {
        Ok((TokenView::Number(value as i32), end))
    } else {
        Err(SyntaxError { at: pos as usize, kind: ErrorKind::LiteralOutOfRange })
    }
}

/// The token that starts at `pos` and where it ends, or an error where none
/// starts there.
pub open spec fn token_at(s: Seq<u8>, pos: int) -> Result<(TokenView, int), SyntaxError>
    recommends
        0 <= pos < s.len(),
{
    if is_ident_start(s[pos]) {
        let end = run_end(s, pos, Class::Ident);
        Ok((word_token(s.subrange(pos, end)), end))
    } else if is_digit(s[pos]) {
        literal_at(s, pos)
    } else {
        match punctuation(s[pos]) {
            Some(token) => Ok((token, pos + 1)),
            None => Err(SyntaxError { at: pos as usize, kind: ErrorKind::UnexpectedByte }),
        }
    }
}

/// A token ends behind where it starts, within the text.
pub proof fn lemma_token_at(s: Seq<u8>, pos: int)
    requires
        0 <= pos < s.len(),
    ensures
        token_at(s, pos) matches Ok((_, end)) ==> pos < end <= s.len(),
{
    lemma_run_end(s, pos, Class::Ident);
    lemma_run_end(s, pos, Class::Octal);
    lemma_run_end(s, pos, Class::Decimal);
    if pos + 2 < s.len() {
        lemma_run_end(s, pos + 2, Class::Hex);
    }
}

/// The tokens of the text from `pos` on, each with the byte at which it
/// starts, or the first error.
pub open spec fn tokens_from(s: Seq<u8>, pos: int) -> Result<Seq<PlacedToken>, SyntaxError>
    decreases s.len() - pos,
{
    if pos < 0 {
        Ok(Seq::empty())
    } else {
        match skip(s, pos) {
            Err(e) => Err(e),
            Ok(start) => if start < pos || start >= s.len() {
                Ok(Seq::empty())
            } else {
                match token_at(s, start) {
                    Err(e) => Err(e),
                    Ok((kind, end)) => {
                        proof {
                            lemma_token_at(s, start);
                        }
                        match tokens_from(s, end) {
                            Err(e) => Err(e),
                            Ok(rest) => Ok(seq![PlacedToken { kind, at: start as usize }] + rest),
                        }
                    },
                }
            },
        }
    }
}

/// The tokens of a text, or the first error in it.
pub open spec fn tokens(s: Seq<u8>) -> Result<Seq<PlacedToken>, SyntaxError> {
    tokens_from(s, 0)
}

/// `String::push`: the string gains the character at its end.
#[verifier::external_body]
fn push_char(s: &mut String, c: char)
    ensures
        final(s)@ == old(s)@.push(c),
{
    s.push(c)
}

/// Where the line ends that `pos` is in.
fn scan_line_end(s: &[u8], pos: usize) -> (end: usize)
    requires
        pos <= s@.len(),
    ensures
        end == line_end(s@, pos as int),
        pos <= end <= s@.len(),
{
    let mut i = pos;
    while i < s.len() && s[i] != LINE_FEED
        invariant
            pos <= i <= s@.len(),
            line_end(s@, pos as int) == line_end(s@, i as int),
        decreases s@.len() - i,
    {
        i += 1;
    }
    i
}

/// Where the comment ends whose inside starts at `pos`.
fn scan_comment_end(s: &[u8], pos: usize) -> (end: Option<usize>)
    requires
        pos <= s@.len(),
    ensures
        match end {
            Some(e) => comment_end(s@, pos as int) == Some(e as int) && pos + 2 <= e <= s@.len(),
            None => comment_end(s@, pos as int) is None,
        },
{
    let mut i = pos;
    while s.len() - i > 1
        invariant
            pos <= i <= s@.len(),
            comment_end(s@, pos as int) == comment_end(s@, i as int),
        decreases s@.len() - i,
    {
        if s[i] == STAR && s[i + 1] == SLASH {
            return Some(i + 2);
        }
        i += 1;
    }
    None
}

/// Passes over blanks and comments from `pos` on.
fn skip_blanks(s: &[u8], pos: usize) -> (next: Result<usize, SyntaxError>)
    requires
        pos <= s@.len(),
    ensures
        match next {
            Ok(n) => skip(s@, pos as int) == Ok::<int, SyntaxError>(n as int) && pos <= n <= s@.len(),
            Err(e) => skip(s@, pos as int) == Err::<int, SyntaxError>(e),
        },
{
    let mut i = pos;
    while i < s.len()
        invariant
            pos <= i <= s@.len(),
            skip(s@, pos as int) == skip(s@, i as int),
        decreases s@.len() - i,
    {
        let b = s[i];
        if b == SPACE || b == TAB || b == LINE_FEED || b == CARRIAGE_RETURN {
            i += 1;
        } else if b == SLASH && s.len() - i > 1 && s[i + 1] == SLASH {
            i = scan_line_end(s, i + 2);
        } else if b == SLASH && s.len() - i > 1 && s[i + 1] == STAR {
            match scan_comment_end(s, i + 2) {
                Some(end) => {
                    i = end;
                },
                None => {
                    return Err(SyntaxError { at: i, kind: ErrorKind::UnterminatedComment });
                },
            }
        } else {
            return Ok(i);
        }
    }
    Ok(i)
}

/// Where the run of bytes of class `class` ends that starts at `pos`.
fn scan_run(s: &[u8], pos: usize, class: Class) -> (end: usize)
    requires
        pos <= s@.len(),
    ensures
        end == run_end(s@, pos as int, class),
        pos <= end <= s@.len(),
{
    let mut i = pos;
    while i < s.len() && class.test(s[i])
        invariant
            pos <= i <= s@.len(),
            run_end(s@, pos as int, class) == run_end(s@, i as int, class),
        decreases s@.len() - i,
    {
        i += 1;
    }
    i
}

/// The number written by fewer digits is no greater.
proof fn lemma_number_value_grows(digits: Seq<u8>, base: nat, k: int)
    requires
        0 <= k <= digits.len(),
        base >= 1,
    ensures
        number_value(digits.take(k), base) <= number_value(digits, base),
    decreases digits.len(),
{
    if k == digits.len() {
        assert(digits.take(k) =~= digits);
    } else {
        let init = digits.drop_last();
        assert(init.take(k) =~= digits.take(k));
        lemma_number_value_grows(init, base, k);
        assert(number_value(init, base) * base >= number_value(init, base)) by (nonlinear_arith)
            requires
                base >= 1,
        ;
    }
}

/// What a digit counts for.
fn digit_of(b: u8) -> (v: u64)
    requires
        Class::Hex.holds(b),
    ensures
        v == digit_value(b),
        v < 16,
{
    if DIGIT_0 <= b && b <= DIGIT_9 {
        (b - DIGIT_0) as u64
    } else if LOWER_A <= b && b <= LOWER_F {
        (b - LOWER_A + 10) as u64
    } else {
        (b - UPPER_A + 10) as u64
    }
}

/// The number that the digits from `first` to `end` write in base `base`,
/// unless it is greater than the greatest `i32`.
fn literal_value(s: &[u8], first: usize, end: usize, base: u64) -> (value: Option<i32>)
    requires
        first <= end <= s@.len(),
        2 <= base <= 16,
        forall|i: int| first <= i < end ==> Class::Hex.holds(#[trigger] s@[i]),
    ensures
        match value {
            Some(v) => v == number_value(s@.subrange(first as int, end as int), base as nat),
            None => number_value(s@.subrange(first as int, end as int), base as nat) > i32::MAX,
        },
{
    let ghost digits = s@.subrange(first as int, end as int);
    let mut acc: u64 = 0;
    let mut i = first;
    while i < end
        invariant
            first <= i <= end <= s@.len(),
            2 <= base <= 16,
            digits == s@.subrange(first as int, end as int),
            forall|i: int| first <= i < end ==> Class::Hex.holds(#[trigger] s@[i]),
            acc == number_value(digits.take(i - first), base as nat),
            acc <= i32::MAX,
        decreases end - i,
    {
        let d = digit_of(s[i]);
        proof {
            let longer = digits.take(i + 1 - first);
            assert(longer.drop_last() =~= digits.take(i - first));
            assert(longer.last() == s@[i as int]);
            assert(acc * base <= 0x7fff_ffff * 16) by (nonlinear_arith)
                requires
                    acc <= 0x7fff_ffff,
                    base <= 16,
            ;
        }
        acc = acc * base + d;
        if acc > 0x7fff_ffff {
            proof {
                lemma_number_value_grows(digits, base as nat, i + 1 - first);
            }
            return None;
        }
        i += 1;
    }
    assert(digits.take(i - first) =~= digits);
    Some(acc as i32)
}

/// The keyword or identifier that the bytes from `start` to `end` spell.
fn scan_word(s: &[u8], start: usize, end: usize) -> (kind: TokenKind)
    requires
        start <= end <= s@.len(),
    ensures
        kind@ == word_token(s@.subrange(start as int, end as int)),
{
    let ghost word = s@.subrange(start as int, end as int);
    // `int` and `return`, byte by byte.
    if end - start == 3 && s[start] == 105 && s[start + 1] == 110 && s[start + 2] == 116 {
        assert(word =~= int_word());
        return TokenKind::Int;
    }
    if end - start == 6 && s[start] == 114 && s[start + 1] == 101 && s[start + 2] == 116 && s[start
        + 3] == 117 && s[start + 4] == 114 && s[start + 5] == 110 {
        assert(word =~= return_word());
        return TokenKind::Return;
    }
    proof {
        if word == int_word() {
            assert(word[0] == 105 && word[1] == 110 && word[2] == 116);
        }
        if word == return_word() {
            assert(word[0] == 114 && word[1] == 101 && word[2] == 116);
            assert(word[3] == 117 && word[4] == 114 && word[5] == 110);
        }
    }
    let mut name = String::new();
    let mut i = start;
    while i < end
        invariant
            start <= i <= end <= s@.len(),
            name@ == as_chars(s@.subrange(start as int, i as int)),
        decreases end - i,
    {
        push_char(&mut name, s[i] as char);
        assert(name@ =~= as_chars(s@.subrange(start as int, i + 1)));
        i += 1;
    }
    TokenKind::Ident(name)
}

/// The token that starts at `pos`, and where it ends.
fn scan_token(s: &[u8], pos: usize) -> (token: Result<(TokenKind, usize), SyntaxError>)
    requires
        pos < s@.len(),
    ensures
        match token {
            Ok((kind, end)) => token_at(s@, pos as int) == Ok::<(TokenView, int), SyntaxError>(
                (kind@, end as int),
            ) && pos < end <= s@.len(),
            Err(e) => token_at(s@, pos as int) == Err::<(TokenView, int), SyntaxError>(e),
        },
{
    let b = s[pos];
    proof {
        lemma_token_at(s@, pos as int);
    }
    if b == UNDERSCORE || (LOWER_A <= b && b <= LOWER_Z) || (UPPER_A <= b && b <= UPPER_Z) {
        let end = scan_run(s, pos, Class::Ident);
        Ok((scan_word(s, pos, end), end))
    } else if DIGIT_0 <= b && b <= DIGIT_9 {
        let hex = s.len() - pos > 2 && b == DIGIT_0 && (s[pos + 1] == LOWER_X || s[pos + 1] == UPPER_X)
            && Class::Hex.test(s[pos + 2]);
        let (first, class, base): (usize, Class, u64) = if hex {
            (pos + 2, Class::Hex, 16)
        } else if b == DIGIT_0 {
            (pos, Class::Octal, 8)
        } else {
            (pos, Class::Decimal, 10)
        };
        let end = scan_run(s, first, class);
        proof {
            lemma_run_end(s@, first as int, class);
        }
        match literal_value(s, first, end, base) {
            Some(value) => Ok((TokenKind::Number(value), end)),
            None => Err(SyntaxError { at: pos, kind: ErrorKind::LiteralOutOfRange }),
        }
    } else if b == LEFT_PAREN {
        Ok((TokenKind::LParen, pos + 1))
    } else if b == RIGHT_PAREN {
        Ok((TokenKind::RParen, pos + 1))
    } else if b == LEFT_BRACE {
        Ok((TokenKind::LBrace, pos + 1))
    } else if b == RIGHT_BRACE {
        Ok((TokenKind::RBrace, pos + 1))
    } else if b == SEMICOLON {
        Ok((TokenKind::Semicolon, pos + 1))
    } else if b == PLUS {
        Ok((TokenKind::Plus, pos + 1))
    } else if b == MINUS {
        Ok((TokenKind::Minus, pos + 1))
    } else if b == BANG {
        Ok((TokenKind::Bang, pos + 1))
    } else {
        Err(SyntaxError { at: pos, kind: ErrorKind::UnexpectedByte })
    }
}

/// The tokens `done` and then what is in `rest`, or the error in `rest`.
pub open spec fn and_then(done: Seq<PlacedToken>, rest: Result<Seq<PlacedToken>, SyntaxError>) -> Result<
    Seq<PlacedToken>,
    SyntaxError,
> {
    match rest {
        Ok(more) => Ok(done + more),
        Err(e) => Err(e),
    }
}

/// Cuts a source text into its tokens, or finds the first error in it.
pub fn lex(s: &[u8]) -> (result: Result<Vec<Token>, SyntaxError>)
    ensures
        match result {
            Ok(found) => tokens(s@) == Ok::<Seq<PlacedToken>, SyntaxError>(found.deep_view()),
            Err(e) => tokens(s@) == Err::<Seq<PlacedToken>, SyntaxError>(e),
        },
{
    let mut found: Vec<Token> = Vec::new();
    let mut pos: usize = 0;
    assert(and_then(found.deep_view(), tokens_from(s@, 0)) == tokens_from(s@, 0)) by {
        match tokens_from(s@, 0) {
            Ok(more) => {
                assert(found.deep_view() + more =~= more);
            },
            Err(_) => {},
        }
    }
    loop
        invariant
            pos <= s@.len(),
            tokens(s@) == and_then(found.deep_view(), tokens_from(s@, pos as int)),
        decreases s@.len() - pos,
    {
        let start = match skip_blanks(s, pos) {
            Ok(start) => start,
            Err(e) => {
                return Err(e);
            },
        };
        if start >= s.len() {
            assert(found.deep_view() + Seq::<PlacedToken>::empty() =~= found.deep_view());
            return Ok(found);
        }
        let ghost done = found.deep_view();
        match scan_token(s, start) {
            Err(e) => {
                return Err(e);
            },
            Ok((kind, end)) => {
                let ghost placed = PlacedToken { kind: kind@, at: start };
                found.push(Token { kind, at: start });
                proof {
                    assert(found.deep_view() =~= done.push(placed));
                    match tokens_from(s@, end as int) {
                        Ok(more) => {
                            assert(done + (seq![placed] + more) =~= done.push(placed) + more);
                        },
                        Err(_) => {},
                    }
                }
                pos = end;
            },
        }
    }
}

/// Whether a name is one that the lexer gives an identifier: it is not
/// empty, and does not start with the sigil `@`.
pub open spec fn proper_ident(name: Seq<char>) -> bool {
    name.len() > 0 && name[0] != '@'
}

/// Whether every identifier among the tokens has a proper name.
pub open spec fn proper_idents(placed: Seq<PlacedToken>) -> bool {
    forall|i: int|
        0 <= i < placed.len() ==> ((#[trigger] placed[i]).kind matches TokenView::Ident(name)
            ==> proper_ident(name))
}

/// The identifiers that the lexer finds have proper names.
pub proof fn lemma_tokens_proper(s: Seq<u8>, pos: int)
    requires
        0 <= pos <= s.len(),
    ensures
        tokens_from(s, pos) matches Ok(placed) ==> proper_idents(placed),
    decreases s.len() - pos,
{
    match skip(s, pos) {
        Err(_) => {},
        Ok(start) => {
            if pos <= start < s.len() {
                match token_at(s, start) {
                    Err(_) => {},
                    Ok((kind, end)) => {
                        lemma_token_at(s, start);
                        lemma_tokens_proper(s, end);
                        match tokens_from(s, end) {
                            Err(_) => {},
                            Ok(rest) => {
                                let first = PlacedToken { kind, at: start as usize };
                                let all = seq![first] + rest;
                                lemma_run_end(s, start, Class::Ident);
                                if is_ident_start(s[start]) {
                                    let word = s.subrange(start, run_end(s, start, Class::Ident));
                                    assert(as_chars(word)[0] == word[0] as char);
                                    assert(word[0] == s[start]);
                                }
                                assert forall|i: int| 0 <= i < all.len() implies ((
                                #[trigger] all[i]).kind matches TokenView::Ident(name)
                                    ==> proper_ident(name)) by {
                                    if i > 0 {
                                        assert(all[i] == rest[i - 1]);
                                    }
                                }
                            },
                        }
                    },
                }
            }
        },
    }
}

} // verus!
