//! The recursive-descent parser: token sequence to abstract syntax tree.
//!
//! The grammar is a small C-like surface: a `main` function whose
//! body is a sequence of statements (`return`, `if`/`else`, `while`,
//! blocks, `int` declarations, assignments, `printf` of a string
//! literal), with expressions over `+ - * / %`, the comparisons
//! `== < >`, parentheses, variables and calls.  `*`, `/` and `%` bind
//! tighter than `+` and `-`, which bind tighter than the comparisons;
//! same-level operators associate to the left.  Every syntax error
//! surfaces as a [`ParseError`] instead of a panic.
//!
//! The whole grammar is written down once, as the specification
//! functions [`parse_spec`], [`parse_stmt_spec`] and the expression
//! ladder below them; every executable function is verified to return
//! exactly what its specification function says, error for error.

use vstd::prelude::*;

use crate::codegen::ASTNode;
use crate::codegen::ASTNodeView;
use crate::codegen::Expr;
use crate::codegen::ExprView;
use crate::codegen::asts_view_from;
use crate::codegen::exprs_view_from;
use crate::codegen::lemma_asts_view_push;
use crate::codegen::lemma_exprs_view_push;
use crate::lexer::Token;
use crate::lexer::str_matches;

verus! {

/// A fatal syntax error.  Parsing aborts at the first one.
#[derive(Debug, Clone, Copy, PartialEq, Eq, Structural)]
pub enum ParseError {
    /// No `main` identifier anywhere in the token stream.
    MissingMain,
    /// A token that cannot start or continue the construct being parsed.
    UnexpectedToken,
    /// The token stream ended inside a construct.
    UnexpectedEnd,
    /// `printf` with something other than a string literal argument.
    ExpectedStringLiteral,
}

/// Whether two punctuation/keyword tokens are the same; only the tokens
/// `expect_token` is ever asked for are distinguished.
pub open spec fn punct_matches(a: Token, b: Token) -> bool {
    match (a, b) {
        (Token::Assign, Token::Assign) => true,
        (Token::Semicolon, Token::Semicolon) => true,
        (Token::LParen, Token::LParen) => true,
        (Token::RParen, Token::RParen) => true,
        (Token::LBrace, Token::LBrace) => true,
        (Token::RBrace, Token::RBrace) => true,
        _ => false,
    }
}

/// Consuming one expected token: the next index exactly when the token at
/// `i` is the expected one, the error that is reported otherwise.
pub open spec fn expect_token_spec(tokens: Seq<Token>, i: nat, expected: Token) -> Result<
    nat,
    ParseError,
> {
    if i >= tokens.len() {
        Err(ParseError::UnexpectedEnd)
    } else if punct_matches(tokens[i as int], expected) {
        Ok((i + 1) as nat)
    } else {
        Err(ParseError::UnexpectedToken)
    }
}

/// The multiplicative operator a token stands for: 1 `*`, 2 `/`, 3 `%`,
/// 0 anything else.
pub open spec fn term_op(t: Token) -> int {
    match t {
        Token::Star => 1,
        Token::Div => 2,
        Token::Mod => 3,
        _ => 0,
    }
}

/// The additive operator a token stands for: 1 `+`, 2 `-`, 0 else.
pub open spec fn add_op(t: Token) -> int {
    match t {
        Token::Plus => 1,
        Token::Minus => 2,
        _ => 0,
    }
}

/// The comparison operator a token stands for: 1 `==`, 2 `<`, 3 `>`,
/// 0 else.
pub open spec fn cmp_op(t: Token) -> int {
    match t {
        Token::Equal => 1,
        Token::Less => 2,
        Token::Greater => 3,
        _ => 0,
    }
}

/// A primary expression at `i`: a number, a call `name(args)`, a variable,
/// or a parenthesized expression; anything else is rejected.
pub open spec fn parse_primary_spec(tokens: Seq<Token>, i: nat) -> Result<
    (ExprView, nat),
    ParseError,
>
    decreases tokens.len() - i, 1int,
{
    if i >= tokens.len() {
        Err(ParseError::UnexpectedEnd)
    } else {
        match tokens[i as int] {
            Token::Number(n) => Ok((ExprView::Number(n), (i + 1) as nat)),
            Token::Identifier(name) => {
                if i + 1 < tokens.len() && tokens[i + 1int] is LParen {
                    match parse_args_spec(tokens, (i + 2) as nat, Seq::empty()) {
                        Err(e) => Err(e),
                        Ok((args, j)) => {
                            match expect_token_spec(tokens, j, Token::RParen) {
                                Err(e) => Err(e),
                                Ok(j2) => Ok((ExprView::Call(name@, args), j2)),
                            }
                        },
                    }
                } else {
                    Ok((ExprView::Var(name@), (i + 1) as nat))
                }
            },
            Token::LParen => {
                match parse_expr_spec(tokens, (i + 1) as nat) {
                    Err(e) => Err(e),
                    Ok((e, j)) => {
                        match expect_token_spec(tokens, j, Token::RParen) {
                            Err(err) => Err(err),
                            Ok(j2) => Ok((e, j2)),
                        }
                    },
                }
            },
            _ => Err(ParseError::UnexpectedToken),
        }
    }
}

/// Call arguments from `j` on, accumulated left to right; a closing
/// parenthesis (or the end of the stream, which the caller's
/// `expect_token` then rejects) ends the list, a comma continues it.
/// The descent always advances; the index guard only makes that
/// structural.
pub open spec fn parse_args_spec(tokens: Seq<Token>, j: nat, acc: Seq<ExprView>) -> Result<
    (Seq<ExprView>, nat),
    ParseError,
>
    decreases tokens.len() - j, 8int,
{
    if j >= tokens.len() || tokens[j as int] is RParen {
        Ok((acc, j))
    } else {
        match parse_expr_spec(tokens, j) {
            Err(e) => Err(e),
            Ok((arg, j2)) => {
                if j2 < tokens.len() && tokens[j2 as int] is Comma {
                    if j2 + 1 > j && j2 + 1 <= tokens.len() {
                        parse_args_spec(tokens, (j2 + 1) as nat, acc.push(arg))
                    } else {
                        Err(ParseError::UnexpectedToken)
                    }
                } else {
                    Ok((acc.push(arg), j2))
                }
            },
        }
    }
}

/// The left-associative `* / %` fold after a first factor.
pub open spec fn parse_term_more_spec(tokens: Seq<Token>, node: ExprView, j: nat) -> Result<
    (ExprView, nat),
    ParseError,
>
    decreases tokens.len() - j, 2int,
{
    if j >= tokens.len() || term_op(tokens[j as int]) == 0 {
        Ok((node, j))
    } else {
        let op = term_op(tokens[j as int]);
        match parse_primary_spec(tokens, (j + 1) as nat) {
            Err(e) => Err(e),
            Ok((rhs, j2)) => {
                let node2 = if op == 1 {
                    ExprView::Mul(Box::new(node), Box::new(rhs))
                } else if op == 2 {
                    ExprView::Div(Box::new(node), Box::new(rhs))
                } else {
                    ExprView::Mod(Box::new(node), Box::new(rhs))
                };
                if j2 > j && j2 <= tokens.len() {
                    parse_term_more_spec(tokens, node2, j2)
                } else {
                    Err(ParseError::UnexpectedToken)
                }
            },
        }
    }
}

/// `primary ((* | / | %) primary)*`, folded left-associatively.
pub open spec fn parse_term_spec(tokens: Seq<Token>, i: nat) -> Result<(ExprView, nat), ParseError>
    decreases tokens.len() - i, 3int,
{
    match parse_primary_spec(tokens, i) {
        Err(e) => Err(e),
        Ok((first, j)) => {
            if i <= j <= tokens.len() {
                parse_term_more_spec(tokens, first, j)
            } else {
                Err(ParseError::UnexpectedToken)
            }
        },
    }
}

/// The left-associative `+ -` fold after a first term.
pub open spec fn parse_add_more_spec(tokens: Seq<Token>, node: ExprView, j: nat) -> Result<
    (ExprView, nat),
    ParseError,
>
    decreases tokens.len() - j, 4int,
{
    if j >= tokens.len() || add_op(tokens[j as int]) == 0 {
        Ok((node, j))
    } else {
        let op = add_op(tokens[j as int]);
        match parse_term_spec(tokens, (j + 1) as nat) {
            Err(e) => Err(e),
            Ok((rhs, j2)) => {
                let node2 = if op == 1 {
                    ExprView::Add(Box::new(node), Box::new(rhs))
                } else {
                    ExprView::Sub(Box::new(node), Box::new(rhs))
                };
                if j2 > j && j2 <= tokens.len() {
                    parse_add_more_spec(tokens, node2, j2)
                } else {
                    Err(ParseError::UnexpectedToken)
                }
            },
        }
    }
}

/// `term ((+ | -) term)*`, folded left-associatively; `* / %` bind
/// tighter because the operands come from the term level.
pub open spec fn parse_add_spec(tokens: Seq<Token>, i: nat) -> Result<(ExprView, nat), ParseError>
    decreases tokens.len() - i, 5int,
{
    match parse_term_spec(tokens, i) {
        Err(e) => Err(e),
        Ok((first, j)) => {
            if i <= j <= tokens.len() {
                parse_add_more_spec(tokens, first, j)
            } else {
                Err(ParseError::UnexpectedToken)
            }
        },
    }
}

/// The left-associative `== < >` fold after a first additive expression.
pub open spec fn parse_cmp_more_spec(tokens: Seq<Token>, node: ExprView, j: nat) -> Result<
    (ExprView, nat),
    ParseError,
>
    decreases tokens.len() - j, 6int,
{
    if j >= tokens.len() || cmp_op(tokens[j as int]) == 0 {
        Ok((node, j))
    } else {
        let op = cmp_op(tokens[j as int]);
        match parse_add_spec(tokens, (j + 1) as nat) {
            Err(e) => Err(e),
            Ok((rhs, j2)) => {
                let node2 = if op == 1 {
                    ExprView::Equal(Box::new(node), Box::new(rhs))
                } else if op == 2 {
                    ExprView::Less(Box::new(node), Box::new(rhs))
                } else {
                    ExprView::Greater(Box::new(node), Box::new(rhs))
                };
                if j2 > j && j2 <= tokens.len() {
                    parse_cmp_more_spec(tokens, node2, j2)
                } else {
                    Err(ParseError::UnexpectedToken)
                }
            },
        }
    }
}

/// A whole expression: the comparisons at the lowest precedence over the
/// additive and multiplicative ladders.
pub open spec fn parse_expr_spec(tokens: Seq<Token>, i: nat) -> Result<(ExprView, nat), ParseError>
    decreases tokens.len() - i, 7int,
{
    match parse_add_spec(tokens, i) {
        Err(e) => Err(e),
        Ok((first, j)) => {
            if i <= j <= tokens.len() {
                parse_cmp_more_spec(tokens, first, j)
            } else {
                Err(ParseError::UnexpectedToken)
            }
        },
    }
}

/// A declaration entered after the `int` keyword:
/// `name = expression ;`.
pub open spec fn parse_declaration_spec(tokens: Seq<Token>, i: nat) -> Result<
    (ASTNodeView, nat),
    ParseError,
>
    decreases tokens.len() - i, 9int,
{
    if i >= tokens.len() {
        Err(ParseError::UnexpectedEnd)
    } else {
        match tokens[i as int] {
            Token::Identifier(name) => {
                match expect_token_spec(tokens, (i + 1) as nat, Token::Assign) {
                    Err(e) => Err(e),
                    Ok(j) => {
                        if j > i && j <= tokens.len() {
                            match parse_expr_spec(tokens, j) {
                                Err(e) => Err(e),
                                Ok((e, j2)) => {
                                    match expect_token_spec(tokens, j2, Token::Semicolon) {
                                        Err(err) => Err(err),
                                        Ok(j3) => Ok(
                                            (
                                                ASTNodeView::Declaration(name@, Box::new(e)),
                                                j3,
                                            ),
                                        ),
                                    }
                                },
                            }
                        } else {
                            Err(ParseError::UnexpectedToken)
                        }
                    },
                }
            },
            _ => Err(ParseError::UnexpectedToken),
        }
    }
}

/// An assignment entered at the variable name: `name = expression ;`.
pub open spec fn parse_assignment_spec(tokens: Seq<Token>, i: nat) -> Result<
    (ASTNodeView, nat),
    ParseError,
>
    decreases tokens.len() - i, 9int,
{
    if i >= tokens.len() {
        Err(ParseError::UnexpectedEnd)
    } else {
        match tokens[i as int] {
            Token::Identifier(name) => {
                match expect_token_spec(tokens, (i + 1) as nat, Token::Assign) {
                    Err(e) => Err(e),
                    Ok(j) => {
                        if j > i && j <= tokens.len() {
                            match parse_expr_spec(tokens, j) {
                                Err(e) => Err(e),
                                Ok((e, j2)) => {
                                    match expect_token_spec(tokens, j2, Token::Semicolon) {
                                        Err(err) => Err(err),
                                        Ok(j3) => Ok(
                                            (ASTNodeView::Assignment(name@, Box::new(e)), j3),
                                        ),
                                    }
                                },
                            }
                        } else {
                            Err(ParseError::UnexpectedToken)
                        }
                    },
                }
            },
            _ => Err(ParseError::UnexpectedToken),
        }
    }
}

/// A `while` entered after the keyword: `( condition ) body`, the body a
/// single statement or a block.
pub open spec fn parse_while_spec(tokens: Seq<Token>, i: nat) -> Result<
    (ASTNodeView, nat),
    ParseError,
>
    decreases tokens.len() - i, 9int,
{
    match expect_token_spec(tokens, i, Token::LParen) {
        Err(e) => Err(e),
        Ok(j) => {
            if j > i && j <= tokens.len() {
                match parse_expr_spec(tokens, j) {
                    Err(e) => Err(e),
                    Ok((condition, j2)) => {
                        match expect_token_spec(tokens, j2, Token::RParen) {
                            Err(err) => Err(err),
                            Ok(j3) => {
                                if j3 > i && j3 <= tokens.len() {
                                    match parse_stmt_spec(tokens, j3) {
                                        Err(e) => Err(e),
                                        Ok((body, j4)) => Ok(
                                            (
                                                ASTNodeView::While {
                                                    condition: Box::new(condition),
                                                    body: Box::new(body),
                                                },
                                                j4,
                                            ),
                                        ),
                                    }
                                } else {
                                    Err(ParseError::UnexpectedToken)
                                }
                            },
                        }
                    },
                }
            } else {
                Err(ParseError::UnexpectedToken)
            }
        },
    }
}

/// An `if` entered after the keyword: `( condition ) then-statement`,
/// with an optional `else statement`.
pub open spec fn parse_if_spec(tokens: Seq<Token>, i: nat) -> Result<(ASTNodeView, nat), ParseError>
    decreases tokens.len() - i, 9int,
{
    match expect_token_spec(tokens, i, Token::LParen) {
        Err(e) => Err(e),
        Ok(j) => {
            if j > i && j <= tokens.len() {
                match parse_expr_spec(tokens, j) {
                    Err(e) => Err(e),
                    Ok((condition, j2)) => {
                        match expect_token_spec(tokens, j2, Token::RParen) {
                            Err(err) => Err(err),
                            Ok(j3) => {
                                if j3 > i && j3 <= tokens.len() {
                                    match parse_stmt_spec(tokens, j3) {
                                        Err(e) => Err(e),
                                        Ok((then_branch, j4)) => {
                                            if j4 < tokens.len() && tokens[j4 as int] is Else {
                                                if j4 >= i && j4 + 1 <= tokens.len() {
                                                    match parse_stmt_spec(
                                                        tokens,
                                                        (j4 + 1) as nat,
                                                    ) {
                                                        Err(e) => Err(e),
                                                        Ok((else_branch, j5)) => Ok(
                                                            (
                                                                ASTNodeView::If {
                                                                    condition: Box::new(condition),
                                                                    then_branch: Box::new(
                                                                        then_branch,
                                                                    ),
                                                                    else_branch: Some(
                                                                        Box::new(else_branch),
                                                                    ),
                                                                },
                                                                j5,
                                                            ),
                                                        ),
                                                    }
                                                } else {
                                                    Err(ParseError::UnexpectedToken)
                                                }
                                            } else {
                                                Ok(
                                                    (
                                                        ASTNodeView::If {
                                                            condition: Box::new(condition),
                                                            then_branch: Box::new(then_branch),
                                                            else_branch: None,
                                                        },
                                                        j4,
                                                    ),
                                                )
                                            }
                                        },
                                    }
                                } else {
                                    Err(ParseError::UnexpectedToken)
                                }
                            },
                        }
                    },
                }
            } else {
                Err(ParseError::UnexpectedToken)
            }
        },
    }
}

/// The members of a brace block from `j` on; the closing brace — or the
/// end of the stream — closes the block.  Declarations and nested
/// control flow are allowed; a bare assignment is not, as in the
/// surrounding language.
pub open spec fn parse_block_items_spec(tokens: Seq<Token>, j: nat, acc: Seq<ASTNodeView>) -> Result<
    (Seq<ASTNodeView>, nat),
    ParseError,
>
    decreases tokens.len() - j, 12int,
{
    if j >= tokens.len() {
        Ok((acc, j))
    } else {
        match tokens[j as int] {
            Token::RBrace => Ok((acc, (j + 1) as nat)),
            Token::Return => parse_block_step_spec(tokens, j, acc),
            Token::If => parse_block_step_spec(tokens, j, acc),
            Token::While => parse_block_step_spec(tokens, j, acc),
            Token::LBrace => parse_block_step_spec(tokens, j, acc),
            Token::Int => parse_block_step_spec(tokens, j, acc),
            _ => Err(ParseError::UnexpectedToken),
        }
    }
}

/// One member of a brace block, then the rest.
pub open spec fn parse_block_step_spec(tokens: Seq<Token>, j: nat, acc: Seq<ASTNodeView>) -> Result<
    (Seq<ASTNodeView>, nat),
    ParseError,
>
    decreases tokens.len() - j, 11int,
{
    match parse_stmt_spec(tokens, j) {
        Err(e) => Err(e),
        Ok((s, j2)) => {
            if j2 > j && j2 <= tokens.len() {
                parse_block_items_spec(tokens, j2, acc.push(s))
            } else {
                Err(ParseError::UnexpectedToken)
            }
        },
    }
}

/// A block of statements in braces, entered at the opening brace.
pub open spec fn parse_block_spec(tokens: Seq<Token>, i: nat) -> Result<
    (ASTNodeView, nat),
    ParseError,
>
    decreases tokens.len() - i, 9int,
{
    match expect_token_spec(tokens, i, Token::LBrace) {
        Err(e) => Err(e),
        Ok(j) => {
            if j > i && j <= tokens.len() {
                match parse_block_items_spec(tokens, j, Seq::empty()) {
                    Err(e) => Err(e),
                    Ok((stmts, j2)) => Ok((ASTNodeView::Sequence(stmts), j2)),
                }
            } else {
                Err(ParseError::UnexpectedToken)
            }
        },
    }
}

/// One statement at `i`: `printf("...") ;`, `return expression ;`,
/// `if`, a block, `while`, an `int` declaration, or an assignment.
pub open spec fn parse_stmt_spec(tokens: Seq<Token>, i: nat) -> Result<
    (ASTNodeView, nat),
    ParseError,
>
    decreases tokens.len() - i, 10int,
{
    if i >= tokens.len() {
        Err(ParseError::UnexpectedEnd)
    } else {
        match tokens[i as int] {
            Token::Identifier(name) => {
                if name@ == "printf"@ {
                    parse_printf_spec(tokens, i)
                } else {
                    parse_assignment_spec(tokens, i)
                }
            },
            Token::Return => {
                match parse_expr_spec(tokens, (i + 1) as nat) {
                    Err(e) => Err(e),
                    Ok((e, j)) => {
                        match expect_token_spec(tokens, j, Token::Semicolon) {
                            Err(err) => Err(err),
                            Ok(j2) => Ok((ASTNodeView::Return(Box::new(e)), j2)),
                        }
                    },
                }
            },
            Token::If => parse_if_spec(tokens, (i + 1) as nat),
            Token::LBrace => parse_block_spec(tokens, i),
            Token::While => parse_while_spec(tokens, (i + 1) as nat),
            Token::Int => parse_declaration_spec(tokens, (i + 1) as nat),
            _ => Err(ParseError::UnexpectedToken),
        }
    }
}

/// `printf ( "literal" ) ;`, entered at the `printf` identifier; the
/// argument must be a string literal (its escapes already decoded by the
/// lexer).
pub open spec fn parse_printf_spec(tokens: Seq<Token>, i: nat) -> Result<
    (ASTNodeView, nat),
    ParseError,
> {
    match expect_token_spec(tokens, (i + 1) as nat, Token::LParen) {
        Err(e) => Err(e),
        Ok(j) => {
            if j >= tokens.len() {
                Err(ParseError::ExpectedStringLiteral)
            } else {
                match tokens[j as int] {
                    Token::StringLiteral(s) => {
                        match expect_token_spec(tokens, (j + 1) as nat, Token::RParen) {
                            Err(e) => Err(e),
                            Ok(j2) => {
                                match expect_token_spec(tokens, j2, Token::Semicolon) {
                                    Err(e) => Err(e),
                                    Ok(j3) => Ok((ASTNodeView::Print(s@), j3)),
                                }
                            },
                        }
                    },
                    _ => Err(ParseError::ExpectedStringLiteral),
                }
            }
        },
    }
}

/// Whether the token is the identifier `main`.
pub open spec fn is_main_token(t: Token) -> bool {
    t matches Token::Identifier(nm) && nm@ == "main"@
}

/// The first position at or after `j` holding the identifier `main`, or
/// the end of the stream.
pub open spec fn scan_to_main(tokens: Seq<Token>, j: nat) -> nat
    decreases tokens.len() - j,
{
    if j < tokens.len() && !is_main_token(tokens[j as int]) {
        scan_to_main(tokens, (j + 1) as nat)
    } else {
        j
    }
}

/// The first position at or after `j` holding an opening brace, or the
/// end of the stream.
pub open spec fn scan_to_lbrace(tokens: Seq<Token>, j: nat) -> nat
    decreases tokens.len() - j,
{
    if j < tokens.len() && !(tokens[j as int] is LBrace) {
        scan_to_lbrace(tokens, (j + 1) as nat)
    } else {
        j
    }
}

/// The statements of `main`'s body from `j` on; the closing brace — or
/// the end of the stream — ends the body, and everything after the brace
/// is ignored.
pub open spec fn parse_main_items_spec(tokens: Seq<Token>, j: nat, acc: Seq<ASTNodeView>) -> Result<
    (Seq<ASTNodeView>, nat),
    ParseError,
>
    decreases tokens.len() - j, 1int,
{
    if j >= tokens.len() {
        Ok((acc, j))
    } else {
        match tokens[j as int] {
            Token::RBrace => Ok((acc, (j + 1) as nat)),
            Token::Return => parse_main_step_spec(tokens, j, acc),
            Token::If => parse_main_step_spec(tokens, j, acc),
            Token::While => parse_main_step_spec(tokens, j, acc),
            Token::LBrace => parse_main_step_spec(tokens, j, acc),
            Token::Int => parse_main_step_spec(tokens, j, acc),
            Token::Identifier(_) => parse_main_step_spec(tokens, j, acc),
            _ => Err(ParseError::UnexpectedToken),
        }
    }
}

/// One statement of `main`'s body, then the rest.
pub open spec fn parse_main_step_spec(tokens: Seq<Token>, j: nat, acc: Seq<ASTNodeView>) -> Result<
    (Seq<ASTNodeView>, nat),
    ParseError,
>
    decreases tokens.len() - j, 0int,
{
    match parse_stmt_spec(tokens, j) {
        Err(e) => Err(e),
        Ok((s, j2)) => {
            if j2 > j && j2 <= tokens.len() {
                parse_main_items_spec(tokens, j2, acc.push(s))
            } else {
                Err(ParseError::UnexpectedToken)
            }
        },
    }
}

/// The tree for a whole token stream: everything before the `main`
/// identifier is skipped (rejecting a stream with no `main`), then
/// everything through the first opening brace, then the statements up to
/// the matching closing brace become one `Sequence` in source order.
pub open spec fn parse_spec(tokens: Seq<Token>) -> Result<ASTNodeView, ParseError> {
    let m = scan_to_main(tokens, 0);
    if m >= tokens.len() {
        Err(ParseError::MissingMain)
    } else {
        let b = scan_to_lbrace(tokens, (m + 1) as nat);
        let start = if b < tokens.len() {
            (b + 1) as nat
        } else {
            b
        };
        match parse_main_items_spec(tokens, start, Seq::empty()) {
            Err(e) => Err(e),
            Ok((stmts, _j)) => Ok(ASTNodeView::Sequence(stmts)),
        }
    }
}

/// A failing factor fails the whole multiplicative fold.
proof fn lemma_term_more_err(tokens: Seq<Token>, node: ExprView, j: nat, e: ParseError)
    requires
        j < tokens.len(),
        term_op(tokens[j as int]) != 0,
        parse_primary_spec(tokens, (j + 1) as nat) == Err::<(ExprView, nat), ParseError>(e),
    ensures
        parse_term_more_spec(tokens, node, j) == Err::<(ExprView, nat), ParseError>(e),
{
}

/// A failing term fails the whole additive fold.
proof fn lemma_add_more_err(tokens: Seq<Token>, node: ExprView, j: nat, e: ParseError)
    requires
        j < tokens.len(),
        add_op(tokens[j as int]) != 0,
        parse_term_spec(tokens, (j + 1) as nat) == Err::<(ExprView, nat), ParseError>(e),
    ensures
        parse_add_more_spec(tokens, node, j) == Err::<(ExprView, nat), ParseError>(e),
{
}

/// A failing additive expression fails the whole comparison fold.
proof fn lemma_cmp_more_err(tokens: Seq<Token>, node: ExprView, j: nat, e: ParseError)
    requires
        j < tokens.len(),
        cmp_op(tokens[j as int]) != 0,
        parse_add_spec(tokens, (j + 1) as nat) == Err::<(ExprView, nat), ParseError>(e),
    ensures
        parse_cmp_more_spec(tokens, node, j) == Err::<(ExprView, nat), ParseError>(e),
{
}

/// Consumes one expected punctuation or keyword token: exactly
/// [`expect_token_spec`].
fn expect_token(tokens: &Vec<Token>, i: usize, expected: &Token) -> (r: Result<usize, ParseError>)
    requires
        i <= tokens@.len(),
    ensures
        expect_token_spec(tokens@, i as nat, *expected) == (match r {
            Ok(j) => Ok::<nat, ParseError>(j as nat),
            Err(e) => Err::<nat, ParseError>(e),
        }),
        (r matches Ok(j) ==> j == i + 1 && i < tokens@.len()),
{
    if i >= tokens.len() {
        return Err(ParseError::UnexpectedEnd);
    }
    let matched = match (&tokens[i], expected) {
        (Token::Assign, Token::Assign) => true,
        (Token::Semicolon, Token::Semicolon) => true,
        (Token::LParen, Token::LParen) => true,
        (Token::RParen, Token::RParen) => true,
        (Token::LBrace, Token::LBrace) => true,
        (Token::RBrace, Token::RBrace) => true,
        _ => false,
    };
    if matched {
        Ok(i + 1)
    } else {
        Err(ParseError::UnexpectedToken)
    }
}

/// A primary expression: exactly [`parse_primary_spec`].
fn parse_primary(tokens: &Vec<Token>, i: usize) -> (r: Result<(Expr, usize), ParseError>)
    requires
        i <= tokens@.len(),
    ensures
        (r matches Ok(p) ==> i < p.1 <= tokens@.len() && parse_primary_spec(tokens@, i as nat)
            == Ok::<(ExprView, nat), ParseError>((p.0@, p.1 as nat))),
        (r matches Err(e) ==> parse_primary_spec(tokens@, i as nat) == Err::<
            (ExprView, nat),
            ParseError,
        >(e)),
    decreases tokens@.len() - i, 1int,
{
    if i >= tokens.len() {
        return Err(ParseError::UnexpectedEnd);
    }
    match &tokens[i] {
        Token::Number(n) => Ok((Expr::Number(*n), i + 1)),
        Token::Identifier(name) => {
            let name_c = name.clone();
            let mut is_call = false;
            if i + 1 < tokens.len() {
                if let Token::LParen = &tokens[i + 1] {
                    is_call = true;
                }
            }
            if is_call {
                let mut args: Vec<Expr> = Vec::new();
                let mut j = i + 2;
                loop
                    invariant_except_break
                        parse_args_spec(tokens@, j as nat, exprs_view_from(args@, 0))
                            == parse_args_spec(tokens@, (i + 2) as nat, Seq::empty()),
                    invariant
                        i + 2 <= j <= tokens@.len(),
                        i + 1 < tokens@.len(),
                        tokens@[i as int] == Token::Identifier(*name),
                        tokens@[i + 1] is LParen,
                    ensures
                        i + 2 <= j <= tokens@.len(),
                        parse_args_spec(tokens@, (i + 2) as nat, Seq::empty()) == Ok::<
                            (Seq<ExprView>, nat),
                            ParseError,
                        >((exprs_view_from(args@, 0), j as nat)),
                    decreases tokens@.len() - j,
                {
                    if !(j < tokens.len() && !rparen_at(tokens, j)) {
                        break ;
                    }
                    let ghost args0 = args@;
                    match parse_expr(tokens, j) {
                        Err(e) => {
                            return Err(e);
                        },
                        Ok((arg, j2)) => {
                            args.push(arg);
                            proof {
                                lemma_exprs_view_push(args0, arg, 0);
                            }
                            let mut comma = false;
                            if j2 < tokens.len() {
                                if let Token::Comma = &tokens[j2] {
                                    comma = true;
                                }
                            }
                            if comma {
                                j = j2 + 1;
                            } else {
                                proof {
                                    assert(parse_args_spec(tokens@, (i + 2) as nat, Seq::empty())
                                        == Ok::<(Seq<ExprView>, nat), ParseError>(
                                        (exprs_view_from(args@, 0), j2 as nat),
                                    ));
                                }
                                j = j2;
                                break ;
                            }
                        },
                    }
                }
                match expect_token(tokens, j, &Token::RParen) {
                    Err(e) => Err(e),
                    Ok(j2) => Ok((Expr::Call(name_c, args), j2)),
                }
            } else {
                Ok((Expr::Var(name_c), i + 1))
            }
        },
        Token::LParen => {
            match parse_expr(tokens, i + 1) {
                Err(e) => Err(e),
                Ok((e, j)) => {
                    match expect_token(tokens, j, &Token::RParen) {
                        Err(err) => Err(err),
                        Ok(j2) => Ok((e, j2)),
                    }
                },
            }
        },
        _ => Err(ParseError::UnexpectedToken),
    }
}

/// Whether the token at `j` is a closing parenthesis.
fn rparen_at(tokens: &Vec<Token>, j: usize) -> (r: bool)
    requires
        j < tokens@.len(),
    ensures
        r == (tokens@[j as int] is RParen),
{
    match &tokens[j] {
        Token::RParen => true,
        _ => false,
    }
}

/// `*`, `/` and `%`, all at one (high) precedence, left to right:
/// exactly [`parse_term_spec`].
fn parse_term(tokens: &Vec<Token>, i: usize) -> (r: Result<(Expr, usize), ParseError>)
    requires
        i <= tokens@.len(),
    ensures
        (r matches Ok(p) ==> i < p.1 <= tokens@.len() && parse_term_spec(tokens@, i as nat)
            == Ok::<(ExprView, nat), ParseError>((p.0@, p.1 as nat))),
        (r matches Err(e) ==> parse_term_spec(tokens@, i as nat) == Err::<
            (ExprView, nat),
            ParseError,
        >(e)),
    decreases tokens@.len() - i, 2int,
{
    let mut node: Expr;
    let mut j: usize;
    match parse_primary(tokens, i) {
        Err(e) => {
            return Err(e);
        },
        Ok((first, j1)) => {
            node = first;
            j = j1;
        },
    }
    while j < tokens.len()
        invariant
            i < j <= tokens@.len(),
            parse_term_spec(tokens@, i as nat) == parse_term_more_spec(
                tokens@,
                node@,
                j as nat,
            ),
        ensures
            i < j <= tokens@.len(),
            parse_term_spec(tokens@, i as nat) == parse_term_more_spec(
                tokens@,
                node@,
                j as nat,
            ),
            j >= tokens@.len() || term_op(tokens@[j as int]) == 0,
        decreases tokens@.len() - j,
    {
        let op: usize = match &tokens[j] {
            Token::Star => 1,
            Token::Div => 2,
            Token::Mod => 3,
            _ => 0,
        };
        if op == 0 {
            break ;
        }
        match parse_primary(tokens, j + 1) {
            Err(e) => {
                proof {
                    lemma_term_more_err(tokens@, node@, j as nat, e);
                }
                return Err(e);
            },
            Ok((rhs, j2)) => {
                node = if op == 1 {
                    Expr::Mul(Box::new(node), Box::new(rhs))
                } else if op == 2 {
                    Expr::Div(Box::new(node), Box::new(rhs))
                } else {
                    Expr::Mod(Box::new(node), Box::new(rhs))
                };
                j = j2;
            },
        }
    }
    Ok((node, j))
}

/// `+` and `-`, at the middle precedence, left to right: exactly
/// [`parse_add_spec`].
fn parse_add(tokens: &Vec<Token>, i: usize) -> (r: Result<(Expr, usize), ParseError>)
    requires
        i <= tokens@.len(),
    ensures
        (r matches Ok(p) ==> i < p.1 <= tokens@.len() && parse_add_spec(tokens@, i as nat)
            == Ok::<(ExprView, nat), ParseError>((p.0@, p.1 as nat))),
        (r matches Err(e) ==> parse_add_spec(tokens@, i as nat) == Err::<
            (ExprView, nat),
            ParseError,
        >(e)),
    decreases tokens@.len() - i, 3int,
{
    let mut node: Expr;
    let mut j: usize;
    match parse_term(tokens, i) {
        Err(e) => {
            return Err(e);
        },
        Ok((first, j1)) => {
            node = first;
            j = j1;
        },
    }
    while j < tokens.len()
        invariant
            i < j <= tokens@.len(),
            parse_add_spec(tokens@, i as nat) == parse_add_more_spec(tokens@, node@, j as nat),
        ensures
            i < j <= tokens@.len(),
            parse_add_spec(tokens@, i as nat) == parse_add_more_spec(tokens@, node@, j as nat),
            j >= tokens@.len() || add_op(tokens@[j as int]) == 0,
        decreases tokens@.len() - j,
    {
        let op: usize = match &tokens[j] {
            Token::Plus => 1,
            Token::Minus => 2,
            _ => 0,
        };
        if op == 0 {
            break ;
        }
        match parse_term(tokens, j + 1) {
            Err(e) => {
                proof {
                    lemma_add_more_err(tokens@, node@, j as nat, e);
                }
                return Err(e);
            },
            Ok((rhs, j2)) => {
                node = if op == 1 {
                    Expr::Add(Box::new(node), Box::new(rhs))
                } else {
                    Expr::Sub(Box::new(node), Box::new(rhs))
                };
                j = j2;
            },
        }
    }
    Ok((node, j))
}

/// A whole expression, comparisons lowest: exactly [`parse_expr_spec`].
fn parse_expr(tokens: &Vec<Token>, i: usize) -> (r: Result<(Expr, usize), ParseError>)
    requires
        i <= tokens@.len(),
    ensures
        (r matches Ok(p) ==> i < p.1 <= tokens@.len() && parse_expr_spec(tokens@, i as nat)
            == Ok::<(ExprView, nat), ParseError>((p.0@, p.1 as nat))),
        (r matches Err(e) ==> parse_expr_spec(tokens@, i as nat) == Err::<
            (ExprView, nat),
            ParseError,
        >(e)),
    decreases tokens@.len() - i, 5int,
{
    let mut node: Expr;
    let mut j: usize;
    match parse_add(tokens, i) {
        Err(e) => {
            return Err(e);
        },
        Ok((first, j1)) => {
            node = first;
            j = j1;
        },
    }
    while j < tokens.len()
        invariant
            i < j <= tokens@.len(),
            parse_expr_spec(tokens@, i as nat) == parse_cmp_more_spec(tokens@, node@, j as nat),
        ensures
            i < j <= tokens@.len(),
            parse_expr_spec(tokens@, i as nat) == parse_cmp_more_spec(tokens@, node@, j as nat),
            j >= tokens@.len() || cmp_op(tokens@[j as int]) == 0,
        decreases tokens@.len() - j,
    {
        let op: usize = match &tokens[j] {
            Token::Equal => 1,
            Token::Less => 2,
            Token::Greater => 3,
            _ => 0,
        };
        if op == 0 {
            break ;
        }
        match parse_add(tokens, j + 1) {
            Err(e) => {
                proof {
                    lemma_cmp_more_err(tokens@, node@, j as nat, e);
                }
                return Err(e);
            },
            Ok((rhs, j2)) => {
                node = if op == 1 {
                    Expr::Equal(Box::new(node), Box::new(rhs))
                } else if op == 2 {
                    Expr::Less(Box::new(node), Box::new(rhs))
                } else {
                    Expr::Greater(Box::new(node), Box::new(rhs))
                };
                j = j2;
            },
        }
    }
    Ok((node, j))
}

/// A variable declaration, entered after the `int` keyword: exactly
/// [`parse_declaration_spec`].
fn parse_declaration(tokens: &Vec<Token>, i: usize) -> (r: Result<(ASTNode, usize), ParseError>)
    requires
        i <= tokens@.len(),
    ensures
        (r matches Ok(p) ==> i < p.1 <= tokens@.len() && parse_declaration_spec(
            tokens@,
            i as nat,
        ) == Ok::<(ASTNodeView, nat), ParseError>((p.0@, p.1 as nat))),
        (r matches Err(e) ==> parse_declaration_spec(tokens@, i as nat) == Err::<
            (ASTNodeView, nat),
            ParseError,
        >(e)),
    decreases tokens@.len() - i, 6int,
{
    if i >= tokens.len() {
        return Err(ParseError::UnexpectedEnd);
    }
    match &tokens[i] {
        Token::Identifier(name) => {
            let nm = name.clone();
            match expect_token(tokens, i + 1, &Token::Assign) {
                Err(e) => Err(e),
                Ok(j) => {
                    match parse_expr(tokens, j) {
                        Err(e) => Err(e),
                        Ok((e, j2)) => {
                            match expect_token(tokens, j2, &Token::Semicolon) {
                                Err(err) => Err(err),
                                Ok(j3) => Ok((ASTNode::Declaration(nm, Box::new(e)), j3)),
                            }
                        },
                    }
                },
            }
        },
        _ => Err(ParseError::UnexpectedToken),
    }
}

/// An assignment statement, entered at the variable name: exactly
/// [`parse_assignment_spec`].
fn parse_assignment(tokens: &Vec<Token>, i: usize) -> (r: Result<(ASTNode, usize), ParseError>)
    requires
        i <= tokens@.len(),
    ensures
        (r matches Ok(p) ==> i < p.1 <= tokens@.len() && parse_assignment_spec(
            tokens@,
            i as nat,
        ) == Ok::<(ASTNodeView, nat), ParseError>((p.0@, p.1 as nat))),
        (r matches Err(e) ==> parse_assignment_spec(tokens@, i as nat) == Err::<
            (ASTNodeView, nat),
            ParseError,
        >(e)),
    decreases tokens@.len() - i, 6int,
{
    if i >= tokens.len() {
        return Err(ParseError::UnexpectedEnd);
    }
    match &tokens[i] {
        Token::Identifier(name) => {
            let nm = name.clone();
            match expect_token(tokens, i + 1, &Token::Assign) {
                Err(e) => Err(e),
                Ok(j) => {
                    match parse_expr(tokens, j) {
                        Err(e) => Err(e),
                        Ok((e, j2)) => {
                            match expect_token(tokens, j2, &Token::Semicolon) {
                                Err(err) => Err(err),
                                Ok(j3) => Ok((ASTNode::Assignment(nm, Box::new(e)), j3)),
                            }
                        },
                    }
                },
            }
        },
        _ => Err(ParseError::UnexpectedToken),
    }
}

/// A `while` loop, entered after the keyword: exactly
/// [`parse_while_spec`].
fn parse_while(tokens: &Vec<Token>, i: usize) -> (r: Result<(ASTNode, usize), ParseError>)
    requires
        i <= tokens@.len(),
    ensures
        (r matches Ok(p) ==> i < p.1 <= tokens@.len() && parse_while_spec(tokens@, i as nat)
            == Ok::<(ASTNodeView, nat), ParseError>((p.0@, p.1 as nat))),
        (r matches Err(e) ==> parse_while_spec(tokens@, i as nat) == Err::<
            (ASTNodeView, nat),
            ParseError,
        >(e)),
    decreases tokens@.len() - i, 6int,
{
    match expect_token(tokens, i, &Token::LParen) {
        Err(e) => Err(e),
        Ok(j) => {
            match parse_expr(tokens, j) {
                Err(e) => Err(e),
                Ok((condition, j2)) => {
                    match expect_token(tokens, j2, &Token::RParen) {
                        Err(err) => Err(err),
                        Ok(j3) => {
                            match parse_stmt(tokens, j3) {
                                Err(e) => Err(e),
                                Ok((body, j4)) => Ok(
                                    (
                                        ASTNode::While {
                                            condition: Box::new(condition),
                                            body: Box::new(body),
                                        },
                                        j4,
                                    ),
                                ),
                            }
                        },
                    }
                },
            }
        },
    }
}

/// An `if` statement, entered after the keyword, with an optional
/// `else`: exactly [`parse_if_spec`].
fn parse_if(tokens: &Vec<Token>, i: usize) -> (r: Result<(ASTNode, usize), ParseError>)
    requires
        i <= tokens@.len(),
    ensures
        (r matches Ok(p) ==> i < p.1 <= tokens@.len() && parse_if_spec(tokens@, i as nat)
            == Ok::<(ASTNodeView, nat), ParseError>((p.0@, p.1 as nat))),
        (r matches Err(e) ==> parse_if_spec(tokens@, i as nat) == Err::<
            (ASTNodeView, nat),
            ParseError,
        >(e)),
    decreases tokens@.len() - i, 6int,
{
    match expect_token(tokens, i, &Token::LParen) {
        Err(e) => Err(e),
        Ok(j) => {
            match parse_expr(tokens, j) {
                Err(e) => Err(e),
                Ok((condition, j2)) => {
                    match expect_token(tokens, j2, &Token::RParen) {
                        Err(err) => Err(err),
                        Ok(j3) => {
                            match parse_stmt(tokens, j3) {
                                Err(e) => Err(e),
                                Ok((then_branch, j4)) => {
                                    let mut has_else = false;
                                    if j4 < tokens.len() {
                                        if let Token::Else = &tokens[j4] {
                                            has_else = true;
                                        }
                                    }
                                    if has_else {
                                        match parse_stmt(tokens, j4 + 1) {
                                            Err(e) => Err(e),
                                            Ok((else_branch, j5)) => Ok(
                                                (
                                                    ASTNode::If {
                                                        condition: Box::new(condition),
                                                        then_branch: Box::new(then_branch),
                                                        else_branch: Some(Box::new(else_branch)),
                                                    },
                                                    j5,
                                                ),
                                            ),
                                        }
                                    } else {
                                        Ok(
                                            (
                                                ASTNode::If {
                                                    condition: Box::new(condition),
                                                    then_branch: Box::new(then_branch),
                                                    else_branch: None,
                                                },
                                                j4,
                                            ),
                                        )
                                    }
                                },
                            }
                        },
                    }
                },
            }
        },
    }
}

/// A block of statements in braces, entered at the opening brace:
/// exactly [`parse_block_spec`].
fn parse_block(tokens: &Vec<Token>, i: usize) -> (r: Result<(ASTNode, usize), ParseError>)
    requires
        i <= tokens@.len(),
    ensures
        (r matches Ok(p) ==> i < p.1 <= tokens@.len() && parse_block_spec(tokens@, i as nat)
            == Ok::<(ASTNodeView, nat), ParseError>((p.0@, p.1 as nat))),
        (r matches Err(e) ==> parse_block_spec(tokens@, i as nat) == Err::<
            (ASTNodeView, nat),
            ParseError,
        >(e)),
    decreases tokens@.len() - i, 5int,
{
    let mut j: usize;
    match expect_token(tokens, i, &Token::LBrace) {
        Err(e) => {
            return Err(e);
        },
        Ok(j1) => {
            j = j1;
        },
    }
    let mut stmts: Vec<ASTNode> = Vec::new();
    while j < tokens.len()
        invariant
            i < j <= tokens@.len(),
            expect_token_spec(tokens@, i as nat, Token::LBrace) == Ok::<nat, ParseError>(
                (i + 1) as nat,
            ),
            parse_block_items_spec(tokens@, (i + 1) as nat, Seq::empty())
                == parse_block_items_spec(tokens@, j as nat, asts_view_from(stmts@, 0)),
        decreases tokens@.len() - j,
    {
        let kind: usize = match &tokens[j] {
            Token::RBrace => 1,
            Token::Return => 2,
            Token::If => 2,
            Token::While => 2,
            Token::LBrace => 2,
            Token::Int => 2,
            _ => 0,
        };
        if kind == 1 {
            j = j + 1;
            return Ok((ASTNode::Sequence(stmts), j));
        }
        if kind == 0 {
            return Err(ParseError::UnexpectedToken);
        }
        let ghost stmts0 = stmts@;
        match parse_stmt(tokens, j) {
            Err(e) => {
                return Err(e);
            },
            Ok((s, j2)) => {
                stmts.push(s);
                proof {
                    lemma_asts_view_push(stmts0, s, 0);
                }
                j = j2;
            },
        }
    }
    Ok((ASTNode::Sequence(stmts), j))
}

/// One statement: exactly [`parse_stmt_spec`].
fn parse_stmt(tokens: &Vec<Token>, i: usize) -> (r: Result<(ASTNode, usize), ParseError>)
    requires
        i <= tokens@.len(),
    ensures
        (r matches Ok(p) ==> i < p.1 <= tokens@.len() && parse_stmt_spec(tokens@, i as nat)
            == Ok::<(ASTNodeView, nat), ParseError>((p.0@, p.1 as nat))),
        (r matches Err(e) ==> parse_stmt_spec(tokens@, i as nat) == Err::<
            (ASTNodeView, nat),
            ParseError,
        >(e)),
    decreases tokens@.len() - i, 10int,
{
    if i >= tokens.len() {
        return Err(ParseError::UnexpectedEnd);
    }
    let mut is_printf = false;
    if let Token::Identifier(name) = &tokens[i] {
        if str_matches(name, "printf") {
            is_printf = true;
        }
    }
    if is_printf {
        match expect_token(tokens, i + 1, &Token::LParen) {
            Err(e) => {
                return Err(e);
            },
            Ok(j) => {
                if j >= tokens.len() {
                    return Err(ParseError::ExpectedStringLiteral);
                }
                let text = match &tokens[j] {
                    Token::StringLiteral(s) => s.clone(),
                    _ => {
                        return Err(ParseError::ExpectedStringLiteral);
                    },
                };
                match expect_token(tokens, j + 1, &Token::RParen) {
                    Err(e) => {
                        return Err(e);
                    },
                    Ok(j2) => {
                        match expect_token(tokens, j2, &Token::Semicolon) {
                            Err(e) => {
                                return Err(e);
                            },
                            Ok(j3) => {
                                return Ok((ASTNode::Print(text), j3));
                            },
                        }
                    },
                }
            },
        }
    }
    match &tokens[i] {
        Token::Return => {
            match parse_expr(tokens, i + 1) {
                Err(e) => Err(e),
                Ok((e, j)) => {
                    match expect_token(tokens, j, &Token::Semicolon) {
                        Err(err) => Err(err),
                        Ok(j2) => Ok((ASTNode::Return(Box::new(e)), j2)),
                    }
                },
            }
        },
        Token::If => parse_if(tokens, i + 1),
        Token::LBrace => parse_block(tokens, i),
        Token::While => parse_while(tokens, i + 1),
        Token::Int => parse_declaration(tokens, i + 1),
        Token::Identifier(_) => parse_assignment(tokens, i),
        _ => Err(ParseError::UnexpectedToken),
    }
}

/// Whether the token at `j` is the identifier `main`.
fn main_at(tokens: &Vec<Token>, j: usize) -> (r: bool)
    requires
        j < tokens@.len(),
    ensures
        r == is_main_token(tokens@[j as int]),
{
    match &tokens[j] {
        Token::Identifier(nm) => str_matches(nm, "main"),
        _ => false,
    }
}

/// Whether the token at `j` is an opening brace.
fn lbrace_at(tokens: &Vec<Token>, j: usize) -> (r: bool)
    requires
        j < tokens@.len(),
    ensures
        r == (tokens@[j as int] is LBrace),
{
    match &tokens[j] {
        Token::LBrace => true,
        _ => false,
    }
}

/// Parses a token sequence into the tree for `main`'s body: exactly
/// [`parse_spec`].  A stream without `main` is rejected; so is any token
/// that cannot start a statement.
pub fn parse(tokens: &Vec<Token>) -> (r: Result<ASTNode, ParseError>)
    ensures
        (r matches Ok(ast) ==> parse_spec(tokens@) == Ok::<ASTNodeView, ParseError>(ast@)),
        (r matches Err(e) ==> parse_spec(tokens@) == Err::<ASTNodeView, ParseError>(e)),
{
    let n = tokens.len();
    let mut j: usize = 0;
    while j < n && !main_at(tokens, j)
        invariant
            n == tokens@.len(),
            j <= n,
            scan_to_main(tokens@, 0) == scan_to_main(tokens@, j as nat),
        decreases n - j,
    {
        j = j + 1;
    }
    proof {
        assert(scan_to_main(tokens@, 0) == j as nat);
    }
    if j >= n {
        return Err(ParseError::MissingMain);
    }
    let ghost m = j as nat;
    j = j + 1;
    while j < n && !lbrace_at(tokens, j)
        invariant
            n == tokens@.len(),
            j <= n,
            scan_to_lbrace(tokens@, (m + 1) as nat) == scan_to_lbrace(tokens@, j as nat),
            m < tokens@.len(),
            scan_to_main(tokens@, 0) == m,
            m + 1 <= j,
        decreases n - j,
    {
        j = j + 1;
    }
    proof {
        assert(scan_to_lbrace(tokens@, (m + 1) as nat) == j as nat);
    }
    let ghost b = j as nat;
    if j < n {
        j = j + 1;
    }
    let ghost start = j as nat;
    let mut stmts: Vec<ASTNode> = Vec::new();
    while j < n
        invariant_except_break
            parse_main_items_spec(tokens@, start, Seq::empty()) == parse_main_items_spec(
                tokens@,
                j as nat,
                asts_view_from(stmts@, 0),
            ),
        invariant
            n == tokens@.len(),
            j <= n,
            m < tokens@.len(),
            scan_to_main(tokens@, 0) == m,
            scan_to_lbrace(tokens@, (m + 1) as nat) == b,
            start == (if b < tokens@.len() { (b + 1) as nat } else { b }),
        ensures
            m < tokens@.len(),
            scan_to_main(tokens@, 0) == m,
            scan_to_lbrace(tokens@, (m + 1) as nat) == b,
            start == (if b < tokens@.len() { (b + 1) as nat } else { b }),
            parse_main_items_spec(tokens@, start, Seq::empty()) == Ok::<
                (Seq<ASTNodeView>, nat),
                ParseError,
            >((asts_view_from(stmts@, 0), j as nat)),
        decreases n - j,
    {
        let kind: usize = match &tokens[j] {
            Token::RBrace => 1,
            Token::Return => 2,
            Token::If => 2,
            Token::While => 2,
            Token::LBrace => 2,
            Token::Int => 2,
            Token::Identifier(_) => 2,
            _ => 0,
        };
        if kind == 1 {
            j = j + 1;
            break ;
        }
        if kind == 0 {
            return Err(ParseError::UnexpectedToken);
        }
        let ghost stmts0 = stmts@;
        match parse_stmt(tokens, j) {
            Err(e) => {
                return Err(e);
            },
            Ok((s, j2)) => {
                stmts.push(s);
                proof {
                    lemma_asts_view_push(stmts0, s, 0);
                }
                j = j2;
            },
        }
    }
    Ok(ASTNode::Sequence(stmts))
}

} // verus!
