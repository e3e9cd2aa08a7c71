//! The parser: it reads the tokens of a source text as a compilation unit.
//!
//! ```text
//! CompUnit   ::= "int" IDENT "(" ")" "{" "return" UnaryExp ";" "}"
//! UnaryExp   ::= PrimaryExp | ("+" | "-" | "!") UnaryExp
//! PrimaryExp ::= "(" UnaryExp ")" | NUMBER
//! ```
//!
//! A unit is written as tokens in one way only, and the parser is the
//! inverse of that writing: it accepts exactly the token sequences that
//! some unit is written as, and gives that unit.

use vstd::prelude::*;
use vstd::string::*;
use crate::c_ast::{applied, literal, parenthesized, Block, CompUnit, Exp, FuncDef, FuncType, PrimaryExp, Stmt, UnaryExp, UnaryOp};
use crate::lexer::{lemma_tokens_proper, lex, proper_ident, tokens, ErrorKind, PlacedToken, SyntaxError, Token, TokenKind, TokenView};

verus! {

/// The token of a unary operator.
pub open spec fn op_token(op: UnaryOp) -> TokenView {
    match op {
        UnaryOp::PLUS => TokenView::Plus,
        UnaryOp::MINUS => TokenView::Minus,
        UnaryOp::BANG => TokenView::Bang,
    }
}

/// The tokens that an expression is written as.
pub open spec fn exp_tokens(e: Exp) -> Seq<TokenView>
    decreases e,
{
    unary_tokens(*e.unary_exp)
}

/// The tokens that an expression is written as.
pub open spec fn primary_tokens(e: PrimaryExp) -> Seq<TokenView>
    decreases e,
{
    match e {
        PrimaryExp::ExpPrimary { exp } => seq![TokenView::LParen] + exp_tokens(*exp) + seq![
            TokenView::RParen,
        ],
        PrimaryExp::NumberPrimary { num } => seq![TokenView::Number(num)],
    }
}

/// The tokens that an expression is written as.
pub open spec fn unary_tokens(e: UnaryExp) -> Seq<TokenView>
    decreases e,
{
    match e {
        UnaryExp::PrimaryUnary { primary_exp } => primary_tokens(*primary_exp),
        UnaryExp::OpUnaryUnary { unary_op, unary_exp } => seq![op_token(unary_op)] + unary_tokens(
            *unary_exp,
        ),
    }
}

/// What a compilation unit says: the name of its function and the
/// expression that the function returns.
pub struct UnitView {
    pub ident: Seq<char>,
    pub exp: UnaryExp,
}

/// What the compilation unit `unit` says.
pub open spec fn unit_view(unit: CompUnit) -> UnitView {
    UnitView { ident: unit.func_def.ident@, exp: *unit.func_def.block.stmt.exp.unary_exp }
}

/// The tokens before the expression of a unit: `int ident ( ) { return`.
pub open spec fn unit_head(ident: Seq<char>) -> Seq<TokenView> {
    seq![
        TokenView::Int,
        TokenView::Ident(ident),
        TokenView::LParen,
        TokenView::RParen,
        TokenView::LBrace,
        TokenView::Return,
    ]
}

/// The tokens that a compilation unit is written as.
pub open spec fn unit_tokens(unit: UnitView) -> Seq<TokenView> {
    unit_head(unit.ident) + unary_tokens(unit.exp) + seq![TokenView::Semicolon, TokenView::RBrace]
}

/// Reads a unary expression from token `pos` on: the expression and the
/// place behind it, or the place of the first token that cannot stand where
/// it stands, which is the number of tokens where they end too early.
pub open spec fn parse_unary_at(toks: Seq<TokenView>, pos: int) -> Result<(UnaryExp, int), int>
    decreases toks.len() - pos,
{
    if pos < 0 || pos >= toks.len() {
        Err(toks.len() as int)
    } else {
        match toks[pos] {
            TokenView::Number(n) => Ok((literal(n), pos + 1)),
            TokenView::Plus => under(UnaryOp::PLUS, parse_unary_at(toks, pos + 1)),
            TokenView::Minus => under(UnaryOp::MINUS, parse_unary_at(toks, pos + 1)),
            TokenView::Bang => under(UnaryOp::BANG, parse_unary_at(toks, pos + 1)),
            TokenView::LParen => match parse_unary_at(toks, pos + 1) {
                Ok((e, end)) => if end < toks.len() && toks[end] is RParen {
                    Ok((parenthesized(e), end + 1))
                } else {
                    Err(end)
                },
                Err(i) => Err(i),
            },
            _ => Err(pos),
        }
    }
}

/// The operator `op` put before what was read.
pub open spec fn under(op: UnaryOp, read: Result<(UnaryExp, int), int>) -> Result<(UnaryExp, int), int> {
    match read {
        Ok((e, end)) => Ok((applied(op, e), end)),
        Err(i) => Err(i),
    }
}

/// Whether token `pos` is there and is `want`.
pub open spec fn found_at(toks: Seq<TokenView>, pos: int, want: TokenView) -> bool {
    0 <= pos < toks.len() && toks[pos] == want
}

/// Reads a compilation unit from all the tokens: what it says, or the place
/// of the first token that cannot stand where it stands, which is the
/// number of tokens where they end too early.
pub open spec fn parse_unit(toks: Seq<TokenView>) -> Result<UnitView, int> {
    if !found_at(toks, 0, TokenView::Int) {
        Err(0)
    } else if !(1 < toks.len() && toks[1] is Ident) {
        Err(1)
    } else if !found_at(toks, 2, TokenView::LParen) {
        Err(2)
    } else if !found_at(toks, 3, TokenView::RParen) {
        Err(3)
    } else if !found_at(toks, 4, TokenView::LBrace) {
        Err(4)
    } else if !found_at(toks, 5, TokenView::Return) {
        Err(5)
    } else {
        match parse_unary_at(toks, 6) {
            Err(i) => Err(i),
            Ok((exp, end)) => if !found_at(toks, end, TokenView::Semicolon) {
                Err(end)
            } else if !found_at(toks, end + 1, TokenView::RBrace) {
                Err(end + 1)
            } else if end + 2 < toks.len() {
                Err(end + 2)
            } else {
                Ok(UnitView { ident: toks[1]->Ident_0, exp })
            },
        }
    }
}

/// The tokens without their places.
pub open spec fn kinds(placed: Seq<PlacedToken>) -> Seq<TokenView> {
    Seq::new(placed.len(), |i: int| placed[i].kind)
}

/// The error for the token at `index`: an unexpected token where it starts,
/// or an unexpected end at the length of the text where there is no such
/// token.
pub open spec fn error_at(placed: Seq<PlacedToken>, index: int, len: usize) -> SyntaxError {
    if 0 <= index < placed.len() {
        SyntaxError { at: placed[index].at, kind: ErrorKind::UnexpectedToken }
    } else {
        SyntaxError { at: len, kind: ErrorKind::UnexpectedEnd }
    }
}

/// What a source text says, or the first error in it.
pub open spec fn parsed(s: Seq<u8>) -> Result<UnitView, SyntaxError> {
    match tokens(s) {
        Err(e) => Err(e),
        Ok(placed) => match parse_unit(kinds(placed)) {
            Ok(unit) => Ok(unit),
            Err(index) => Err(error_at(placed, index, s.len() as usize)),
        },
    }
}

/// Reads a unary expression from token `pos` on.
fn parse_unary(tokens: &Vec<Token>, pos: usize) -> (read: Result<(UnaryExp, usize), usize>)
    requires
        pos <= tokens@.len(),
    ensures
        match read {
            Ok((e, end)) => parse_unary_at(kinds(tokens.deep_view()), pos as int) == Ok::<
                (UnaryExp, int),
                int,
            >((e, end as int)) && end <= tokens@.len(),
            Err(i) => parse_unary_at(kinds(tokens.deep_view()), pos as int) == Err::<
                (UnaryExp, int),
                int,
            >(i as int) && i <= tokens@.len(),
        },
    decreases tokens@.len() - pos,
{
    let ghost toks = kinds(tokens.deep_view());
    if pos >= tokens.len() {
        return Err(tokens.len());
    }
    assert(toks[pos as int] == tokens@[pos as int].kind@);
    let op = match &tokens[pos].kind {
        TokenKind::Number(n) => {
            return Ok(
                (
                    UnaryExp::PrimaryUnary {
                        primary_exp: Box::new(PrimaryExp::NumberPrimary { num: *n }),
                    },
                    pos + 1,
                ),
            );
        },
        TokenKind::LParen => {
            return match parse_unary(tokens, pos + 1) {
                Ok((e, end)) => {
                    if end < tokens.len() {
                        assert(toks[end as int] == tokens@[end as int].kind@);
                    }
                    let closed = end < tokens.len() && match &tokens[end].kind {
                        TokenKind::RParen => true,
                        _ => false,
                    };
                    if closed {
                        Ok(
                            (
                                UnaryExp::PrimaryUnary {
                                    primary_exp: Box::new(
                                        PrimaryExp::ExpPrimary {
                                            exp: Box::new(Exp { unary_exp: Box::new(e) }),
                                        },
                                    ),
                                },
                                end + 1,
                            ),
                        )
                    } else {
                        Err(end)
                    }
                },
                Err(i) => Err(i),
            };
        },
        TokenKind::Plus => UnaryOp::PLUS,
        TokenKind::Minus => UnaryOp::MINUS,
        TokenKind::Bang => UnaryOp::BANG,
        _ => {
            return Err(pos);
        },
    };
    match parse_unary(tokens, pos + 1) {
        Ok((e, end)) => Ok((UnaryExp::OpUnaryUnary { unary_op: op, unary_exp: Box::new(e) }, end)),
        Err(i) => Err(i),
    }
}

/// The error for the token at `index`.
fn make_error(tokens: &Vec<Token>, index: usize, len: usize) -> (e: SyntaxError)
    ensures
        e == error_at(tokens.deep_view(), index as int, len),
{
    if index < tokens.len() {
        assert(tokens.deep_view()[index as int] == tokens@[index as int]@);
        SyntaxError { at: tokens[index].at, kind: ErrorKind::UnexpectedToken }
    } else {
        SyntaxError { at: len, kind: ErrorKind::UnexpectedEnd }
    }
}

/// Whether token `pos` is there and is of the kind of `want`, a token
/// without content.
fn check(tokens: &Vec<Token>, pos: usize, want: &TokenKind) -> (yes: bool)
    requires
        !(want is Ident) && !(want is Number),
    ensures
        yes == found_at(kinds(tokens.deep_view()), pos as int, want@),
{
    if pos >= tokens.len() {
        return false;
    }
    assert(kinds(tokens.deep_view())[pos as int] == tokens@[pos as int].kind@);
    match (&tokens[pos].kind, want) {
        (TokenKind::Int, TokenKind::Int) => true,
        (TokenKind::Return, TokenKind::Return) => true,
        (TokenKind::LParen, TokenKind::LParen) => true,
        (TokenKind::RParen, TokenKind::RParen) => true,
        (TokenKind::LBrace, TokenKind::LBrace) => true,
        (TokenKind::RBrace, TokenKind::RBrace) => true,
        (TokenKind::Semicolon, TokenKind::Semicolon) => true,
        (TokenKind::Plus, TokenKind::Plus) => true,
        (TokenKind::Minus, TokenKind::Minus) => true,
        (TokenKind::Bang, TokenKind::Bang) => true,
        _ => false,
    }
}

/// Reads the tokens of a source text of `len` bytes as a compilation unit.
/// The error for a token that cannot stand where it stands is at the byte
/// where the token starts; the error for tokens that end too early is at
/// `len`.
pub fn parse_tokens(tokens: &Vec<Token>, len: usize) -> (result: Result<CompUnit, SyntaxError>)
    ensures
        match result {
            Ok(unit) => parse_unit(kinds(tokens.deep_view())) == Ok::<UnitView, int>(unit_view(unit))
                && unit.func_def.func_type == FuncType::Int,
            Err(e) => parse_unit(kinds(tokens.deep_view())) matches Err(index) && e == error_at(
                tokens.deep_view(),
                index,
                len,
            ),
        },
{
    let ghost toks = kinds(tokens.deep_view());
    if !check(tokens, 0, &TokenKind::Int) {
        return Err(make_error(tokens, 0, len));
    }
    if tokens.len() > 1 {
        assert(toks[1] == tokens@[1].kind@);
    }
    let ident = if tokens.len() > 1 {
        match &tokens[1].kind {
            TokenKind::Ident(name) => Some(name.clone()),
            _ => None,
        }
    } else {
        None
    };
    let ident = match ident {
        Some(ident) => ident,
        None => {
            return Err(make_error(tokens, 1, len));
        },
    };
    if !check(tokens, 2, &TokenKind::LParen) {
        return Err(make_error(tokens, 2, len));
    }
    if !check(tokens, 3, &TokenKind::RParen) {
        return Err(make_error(tokens, 3, len));
    }
    if !check(tokens, 4, &TokenKind::LBrace) {
        return Err(make_error(tokens, 4, len));
    }
    if !check(tokens, 5, &TokenKind::Return) {
        return Err(make_error(tokens, 5, len));
    }
    let (exp, end) = match parse_unary(tokens, 6) {
        Ok(read) => read,
        Err(index) => {
            return Err(make_error(tokens, index, len));
        },
    };
    if !check(tokens, end, &TokenKind::Semicolon) {
        return Err(make_error(tokens, end, len));
    }
    if !check(tokens, end + 1, &TokenKind::RBrace) {
        return Err(make_error(tokens, end + 1, len));
    }
    if end + 2 < tokens.len() {
        return Err(make_error(tokens, end + 2, len));
    }
    Ok(
        CompUnit {
            func_def: FuncDef {
                func_type: FuncType::Int,
                ident,
                block: Block { stmt: Stmt { exp: Exp { unary_exp: Box::new(exp) } } },
            },
        },
    )
}

/// Reads a source text as a compilation unit, or finds the first error in
/// it.
pub fn parse(source: &[u8]) -> (result: Result<CompUnit, SyntaxError>)
    ensures
        match result {
            Ok(unit) => parsed(source@) == Ok::<UnitView, SyntaxError>(unit_view(unit))
                && unit.func_def.func_type == FuncType::Int && proper_ident(unit.func_def.ident@),
            Err(e) => parsed(source@) == Err::<UnitView, SyntaxError>(e),
        },
{
    proof {
        lemma_parsed_ident(source@);
    }
    match lex(source) {
        Err(e) => Err(e),
        Ok(tokens) => parse_tokens(&tokens, source.len()),
    }
}

/// The function of a unit that is read from a source text has a proper
/// name.
pub proof fn lemma_parsed_ident(s: Seq<u8>)
    ensures
        parsed(s) matches Ok(unit) ==> proper_ident(unit.ident),
{
    lemma_tokens_proper(s, 0);
    match tokens(s) {
        Ok(placed) => {
            if parse_unit(kinds(placed)) is Ok {
                assert(kinds(placed)[1] == placed[1].kind);
            }
        },
        Err(_) => {},
    }
}

/// An expression in parentheses is written as the expression between the
/// two parentheses.
pub proof fn lemma_parenthesized_tokens(e: UnaryExp)
    ensures
        unary_tokens(parenthesized(e)) == seq![TokenView::LParen] + unary_tokens(e) + seq![
            TokenView::RParen,
        ],
{
    let exp = Exp { unary_exp: Box::new(e) };
    let primary = PrimaryExp::ExpPrimary { exp: Box::new(exp) };
    assert(unary_tokens(parenthesized(e)) == primary_tokens(primary));
    assert(primary_tokens(primary) == seq![TokenView::LParen] + exp_tokens(exp) + seq![
        TokenView::RParen,
    ]);
    assert(exp_tokens(exp) == unary_tokens(e));
}

/// A literal is written as one token.
pub proof fn lemma_literal_tokens(n: i32)
    ensures
        unary_tokens(literal(n)) == seq![TokenView::Number(n)],
{
    let primary = PrimaryExp::NumberPrimary { num: n };
    assert(unary_tokens(literal(n)) == primary_tokens(primary));
}

/// What the parser reads is what is written: where it reads an expression,
/// the tokens that it has read are those that the expression is written as.
pub proof fn lemma_parse_unary_sound(toks: Seq<TokenView>, pos: int)
    requires
        0 <= pos,
    ensures
        parse_unary_at(toks, pos) matches Ok((e, end)) ==> pos < end <= toks.len() && toks.subrange(
            pos,
            end,
        ) == unary_tokens(e),
    decreases toks.len() - pos,
{
    if pos < toks.len() {
        match toks[pos] {
            TokenView::Number(n) => {
                lemma_literal_tokens(n);
                assert(toks.subrange(pos, pos + 1) =~= unary_tokens(literal(n)));
            },
            TokenView::Plus | TokenView::Minus | TokenView::Bang => {
                lemma_parse_unary_sound(toks, pos + 1);
                match parse_unary_at(toks, pos + 1) {
                    Ok((e, end)) => {
                        assert(toks.subrange(pos, end) =~= seq![toks[pos]] + toks.subrange(
                            pos + 1,
                            end,
                        ));
                    },
                    Err(_) => {},
                }
            },
            TokenView::LParen => {
                lemma_parse_unary_sound(toks, pos + 1);
                match parse_unary_at(toks, pos + 1) {
                    Ok((e, end)) => {
                        if end < toks.len() && toks[end] is RParen {
                            lemma_parenthesized_tokens(e);
                            assert(toks.subrange(pos, end + 1) =~= seq![TokenView::LParen]
                                + toks.subrange(pos + 1, end) + seq![TokenView::RParen]);
                        }
                    },
                    Err(_) => {},
                }
            },
            _ => {},
        }
    }
}

/// The parser reads whatever is written: where the tokens from `pos` on are
/// those that an expression is written as, it reads that expression.
pub proof fn lemma_parse_unary_complete(toks: Seq<TokenView>, pos: int, e: UnaryExp)
    requires
        0 <= pos,
        pos + unary_tokens(e).len() <= toks.len(),
        toks.subrange(pos, pos + unary_tokens(e).len()) == unary_tokens(e),
    ensures
        parse_unary_at(toks, pos) == Ok::<(UnaryExp, int), int>((e, pos + unary_tokens(e).len())),
    decreases e,
{
    let written = unary_tokens(e);
    let n = written.len() as int;
    match e {
        UnaryExp::PrimaryUnary { primary_exp } => {
            match *primary_exp {
                PrimaryExp::NumberPrimary { num } => {
                    assert(e == literal(num));
                    lemma_literal_tokens(num);
                    assert(toks[pos] == toks.subrange(pos, pos + n)[0]);
                },
                PrimaryExp::ExpPrimary { exp } => {
                    let inner = *exp.unary_exp;
                    let m = unary_tokens(inner).len() as int;
                    assert(e == parenthesized(inner));
                    lemma_parenthesized_tokens(inner);
                    assert(toks[pos] == toks.subrange(pos, pos + n)[0]);
                    assert(toks[pos + 1 + m] == toks.subrange(pos, pos + n)[1 + m]);
                    assert(toks.subrange(pos + 1, pos + 1 + m) =~= unary_tokens(inner)) by {
                        assert forall|i: int| 0 <= i < m implies toks[pos + 1 + i] == unary_tokens(
                            inner,
                        )[i] by {
                            assert(toks[pos + 1 + i] == toks.subrange(pos, pos + n)[1 + i]);
                        }
                    }
                    lemma_parse_unary_complete(toks, pos + 1, inner);
                },
            }
        },
        UnaryExp::OpUnaryUnary { unary_op, unary_exp } => {
            let inner = *unary_exp;
            let m = unary_tokens(inner).len() as int;
            assert(toks[pos] == toks.subrange(pos, pos + n)[0]);
            assert(toks.subrange(pos + 1, pos + 1 + m) =~= unary_tokens(inner)) by {
                assert forall|i: int| 0 <= i < m implies toks[pos + 1 + i] == unary_tokens(inner)[i] by {
                    assert(toks[pos + 1 + i] == toks.subrange(pos, pos + n)[1 + i]);
                }
            }
            lemma_parse_unary_complete(toks, pos + 1, inner);
        },
    }
}

/// The parser accepts only what is written: the tokens that it reads as a
/// unit are those that the unit is written as.
pub proof fn lemma_parse_unit_sound(toks: Seq<TokenView>)
    ensures
        parse_unit(toks) matches Ok(unit) ==> toks == unit_tokens(unit),
{
    match parse_unit(toks) {
        Ok(unit) => {
            lemma_parse_unary_sound(toks, 6);
            let end = parse_unary_at(toks, 6)->Ok_0.1;
            assert(toks =~= unit_head(unit.ident) + toks.subrange(6, end) + seq![
                TokenView::Semicolon,
                TokenView::RBrace,
            ]);
        },
        Err(_) => {},
    }
}

/// The parser accepts all that is written: the tokens that a unit is
/// written as are read as that unit.
pub proof fn lemma_parse_unit_complete(unit: UnitView)
    ensures
        parse_unit(unit_tokens(unit)) == Ok::<UnitView, int>(unit),
{
    let toks = unit_tokens(unit);
    let m = unary_tokens(unit.exp).len() as int;
    assert(toks.subrange(6, 6 + m) =~= unary_tokens(unit.exp));
    lemma_parse_unary_complete(toks, 6, unit.exp);
}

/// The parser fails exactly on the token sequences that no unit is written
/// as.
pub proof fn lemma_parse_unit_fails(toks: Seq<TokenView>, unit: UnitView)
    requires
        parse_unit(toks) is Err,
    ensures
        toks != unit_tokens(unit),
{
    lemma_parse_unit_complete(unit);
}


} // verus!
