use vstd::prelude::*;
use crate::statement::{BinaryOperator, ColumnView, Constraint, DBType, Expression, StatementView, UnaryOperator};
use crate::token::{Keyword, Token};

verus! {

/// What the parser was looking for when it met an unexpected token.
#[derive(Debug, PartialEq, Eq)]
pub enum Expected {
    /// `SELECT` or `CREATE`.
    Statement,
    /// This exact token.
    Token(Token),
    TableName,
    ColumnName,
    ColumnType,
    VarcharLength,
    Expression,
    /// `,` or `)` after a column definition.
    CommaOrClose,
}

/// Why a token sequence is not a statement.
#[derive(Debug, PartialEq, Eq)]
pub enum ParseError {
    /// An unrecognised character or an unterminated string literal.
    LexicalAnomaly(char),
    /// A number literal, or a `VARCHAR` length, too large for its type.
    NumericOverflow,
    /// A token other than the grammar requires at that point.
    Syntax { expected: Expected, found: Token },
}

/// The error for meeting `found` where `expected` was required.
pub open spec fn error_at(expected: Expected, found: Token) -> ParseError {
    match found {
        Token::Invalid(c) => ParseError::LexicalAnomaly(c),
        Token::NumberTooLarge => ParseError::NumericOverflow,
        _ => ParseError::Syntax { expected, found },
    }
}

/// The token at position `i`; `Eof` past either end.
pub open spec fn tok(ts: Seq<Token>, i: int) -> Token {
    if 0 <= i < ts.len() {
        ts[i]
    } else {
        Token::Eof
    }
}

/// The error for a missing `expected` token at position `i`.
pub open spec fn missing(ts: Seq<Token>, i: int, expected: Token) -> ParseError {
    error_at(Expected::Token(expected), tok(ts, i))
}

/// How tightly a prefix `-`, `+` or `NOT` binds its operand: tighter than any infix operator.
pub const PREFIX_POWER: u8 = 100;

/// How tightly a token binds as an infix or postfix operator; 0 when it is none.
pub open spec fn power(t: Token) -> u8 {
    match t {
        Token::Star | Token::Divide => 30,
        Token::Plus | Token::Minus => 25,
        Token::Equal | Token::NotEqual | Token::LessThan | Token::GreaterThan
        | Token::LessThanOrEqual | Token::GreaterThanOrEqual => 20,
        Token::Keyword(Keyword::Or) => 15,
        Token::Keyword(Keyword::And) => 10,
        Token::Keyword(Keyword::Asc) | Token::Keyword(Keyword::Desc) => 5,
        _ => 0,
    }
}

/// The binary operator that a token stands for in infix position.
pub open spec fn binary_op(t: Token) -> Option<BinaryOperator> {
    match t {
        Token::Plus => Some(BinaryOperator::Plus),
        Token::Minus => Some(BinaryOperator::Minus),
        Token::Star => Some(BinaryOperator::Multiply),
        Token::Divide => Some(BinaryOperator::Divide),
        Token::Equal => Some(BinaryOperator::Equal),
        Token::NotEqual => Some(BinaryOperator::NotEqual),
        Token::LessThan => Some(BinaryOperator::LessThan),
        Token::LessThanOrEqual => Some(BinaryOperator::LessThanOrEqual),
        Token::GreaterThan => Some(BinaryOperator::GreaterThan),
        Token::GreaterThanOrEqual => Some(BinaryOperator::GreaterThanOrEqual),
        Token::Keyword(Keyword::And) => Some(BinaryOperator::And),
        Token::Keyword(Keyword::Or) => Some(BinaryOperator::Or),
        _ => None,
    }
}

/// The unary operator that a token stands for in postfix position.
pub open spec fn postfix_op(t: Token) -> Option<UnaryOperator> {
    match t {
        Token::Keyword(Keyword::Asc) => Some(UnaryOperator::Asc),
        Token::Keyword(Keyword::Desc) => Some(UnaryOperator::Desc),
        _ => None,
    }
}

/// The unary operator that a token stands for in prefix position.
pub open spec fn prefix_op(t: Token) -> Option<UnaryOperator> {
    match t {
        Token::Minus => Some(UnaryOperator::Minus),
        Token::Plus => Some(UnaryOperator::Plus),
        Token::Keyword(Keyword::Not) => Some(UnaryOperator::Not),
        _ => None,
    }
}

/// The expression that a single literal or name token stands for.
pub open spec fn atom(t: Token) -> Option<Expression> {
    match t {
        Token::Number(n) => Some(Expression::Number(n)),
        Token::Identifier(s) => Some(Expression::Identifier(s)),
        Token::String(s) => Some(Expression::String(s)),
        Token::Keyword(Keyword::True) => Some(Expression::Bool(true)),
        Token::Keyword(Keyword::False) => Some(Expression::Bool(false)),
        _ => None,
    }
}

pub open spec fn unary(op: UnaryOperator, e: Expression) -> Expression {
    Expression::UnaryOperation { operator: op, operand: Box::new(e) }
}

pub open spec fn binary(l: Expression, op: BinaryOperator, r: Expression) -> Expression {
    Expression::BinaryOperation { left_operand: Box::new(l), operator: op, right_operand: Box::new(r) }
}

/// Precedence climbing: the expression that starts at `i`, taking in every
/// operator that binds more tightly than `min`, with the position after it.
///
/// Every rule that succeeds consumes at least one token. The definitions below
/// test that of each position a nested rule hands back (`i < j <= ts.len()`)
/// so that their recursion is well-founded; the parser proves the test always
/// passes, so the error branch behind it is never taken.
pub open spec fn parse_expr(ts: Seq<Token>, i: int, min: u8) -> Result<(Expression, int), ParseError>
    decreases ts.len() - i, 1int,
{
    let t = tok(ts, i);
    if i < 0 || i >= ts.len() {
        Err(error_at(Expected::Expression, t))
    } else if let Some(a) = atom(t) {
        climb(ts, i + 1, min, a)
    } else if t == Token::LeftParentheses {
        match parse_expr(ts, i + 1, 0) {
            Ok((e, j)) => if !(i < j <= ts.len()) {
                Err(error_at(Expected::Expression, tok(ts, j)))
            } else if tok(ts, j) == Token::RightParentheses {
                climb(ts, j + 1, min, e)
            } else {
                Err(missing(ts, j, Token::RightParentheses))
            },
            Err(x) => Err(x),
        }
    } else if let Some(op) = prefix_op(t) {
        match parse_expr(ts, i + 1, PREFIX_POWER) {
            Ok((e, j)) => if !(i < j <= ts.len()) {
                Err(error_at(Expected::Expression, tok(ts, j)))
            } else {
                climb(ts, j, min, unary(op, e))
            },
            Err(x) => Err(x),
        }
    } else {
        Err(error_at(Expected::Expression, t))
    }
}

/// The operator loop of precedence climbing, with `left` parsed and the next
/// operator at `j`. Every binary operator parses its right operand above its
/// own power, so operators of equal power group to the left.
pub open spec fn climb(ts: Seq<Token>, j: int, min: u8, left: Expression) -> Result<(Expression, int), ParseError>
    decreases ts.len() - j, 0int,
{
    let t = tok(ts, j);
    if power(t) <= min || j < 0 || j >= ts.len() {
        Ok((left, j))
    } else if let Some(op) = postfix_op(t) {
        climb(ts, j + 1, min, unary(op, left))
    } else if let Some(op) = binary_op(t) {
        match parse_expr(ts, j + 1, power(t)) {
            Ok((r, k)) => if !(j < k <= ts.len()) {
                Err(error_at(Expected::Expression, tok(ts, k)))
            } else {
                climb(ts, k, min, binary(left, op, r))
            },
            Err(x) => Err(x),
        }
    } else {
        Ok((left, j))
    }
}

/// One or more expressions separated by commas, from `i` on.
pub open spec fn expr_list(ts: Seq<Token>, i: int) -> Result<(Seq<Expression>, int), ParseError>
    decreases ts.len() - i,
{
    match parse_expr(ts, i, 0) {
        Ok((e, j)) => if !(i < j <= ts.len()) {
            Err(error_at(Expected::Expression, tok(ts, j)))
        } else if tok(ts, j) == Token::Comma {
            match expr_list(ts, j + 1) {
                Ok((rest, k)) => Ok((seq![e] + rest, k)),
                Err(x) => Err(x),
            }
        } else {
            Ok((seq![e], j))
        },
        Err(x) => Err(x),
    }
}

/// `r` with `acc` put in front of the sequence it holds, if it holds one.
pub open spec fn after<T>(acc: Seq<T>, r: Result<(Seq<T>, int), ParseError>) -> Result<(Seq<T>, int), ParseError> {
    match r {
        Ok((rest, k)) => Ok((acc + rest, k)),
        Err(x) => Err(x),
    }
}

/// An optional `WHERE <expression>` at `i`.
pub open spec fn where_at(ts: Seq<Token>, i: int) -> Result<(Option<Expression>, int), ParseError> {
    if tok(ts, i) == Token::Keyword(Keyword::Where) {
        match parse_expr(ts, i + 1, 0) {
            Ok((e, j)) => Ok((Some(e), j)),
            Err(x) => Err(x),
        }
    } else {
        Ok((None, i))
    }
}

/// An optional `ORDER BY <expression list>` at `i`.
pub open spec fn order_by_at(ts: Seq<Token>, i: int) -> Result<(Seq<Expression>, int), ParseError> {
    if tok(ts, i) == Token::Keyword(Keyword::Order) {
        if tok(ts, i + 1) == Token::Keyword(Keyword::By) {
            expr_list(ts, i + 2)
        } else {
            Err(missing(ts, i + 1, Token::Keyword(Keyword::By)))
        }
    } else {
        Ok((Seq::empty(), i))
    }
}

/// The rest of a `SELECT` statement, from the token after `SELECT`.
pub open spec fn select_at(ts: Seq<Token>, i: int) -> Result<(StatementView, int), ParseError> {
    match expr_list(ts, i) {
        Ok((columns, j)) => if tok(ts, j) != Token::Keyword(Keyword::From) {
            Err(missing(ts, j, Token::Keyword(Keyword::From)))
        } else {
            match tok(ts, j + 1) {
                Token::Identifier(from) => match where_at(ts, j + 2) {
                    Ok((where_clause, k)) => match order_by_at(ts, k) {
                        Ok((orderby, m)) => if tok(ts, m) == Token::Semicolon {
                            Ok(
                                (
                                    StatementView::Select { columns, from, where_clause, orderby },
                                    m + 1,
                                ),
                            )
                        } else {
                            Err(missing(ts, m, Token::Semicolon))
                        },
                        Err(x) => Err(x),
                    },
                    Err(x) => Err(x),
                },
                other => Err(error_at(Expected::TableName, other)),
            }
        },
        Err(x) => Err(x),
    }
}

/// A column type at `i`: `INT`, `BOOL` or `VARCHAR(<length>)`.
pub open spec fn column_type_at(ts: Seq<Token>, i: int) -> Result<(DBType, int), ParseError> {
    match tok(ts, i) {
        Token::Keyword(Keyword::Int) => Ok((DBType::Int, i + 1)),
        Token::Keyword(Keyword::Bool) => Ok((DBType::Bool, i + 1)),
        Token::Keyword(Keyword::Varchar) => if tok(ts, i + 1) != Token::LeftParentheses {
            Err(missing(ts, i + 1, Token::LeftParentheses))
        } else {
            match tok(ts, i + 2) {
                Token::Number(n) => if n > usize::MAX {
                    Err(ParseError::NumericOverflow)
                } else if tok(ts, i + 3) != Token::RightParentheses {
                    Err(missing(ts, i + 3, Token::RightParentheses))
                } else {
                    Ok((DBType::Varchar(n as usize), i + 4))
                },
                other => Err(error_at(Expected::VarcharLength, other)),
            }
        },
        other => Err(error_at(Expected::ColumnType, other)),
    }
}

/// Zero or more column constraints from `i` on, in the order written.
pub open spec fn constraints_at(ts: Seq<Token>, i: int) -> Result<(Seq<Constraint>, int), ParseError>
    decreases ts.len() - i,
{
    let t = tok(ts, i);
    if i < 0 || i >= ts.len() {
        Ok((Seq::empty(), i))
    } else if t == Token::Keyword(Keyword::Primary) {
        if tok(ts, i + 1) == Token::Keyword(Keyword::Key) {
            match constraints_at(ts, i + 2) {
                Ok((rest, k)) => Ok((seq![Constraint::PrimaryKey] + rest, k)),
                Err(x) => Err(x),
            }
        } else {
            Err(missing(ts, i + 1, Token::Keyword(Keyword::Key)))
        }
    } else if t == Token::Keyword(Keyword::Not) {
        if tok(ts, i + 1) == Token::Keyword(Keyword::Null) {
            match constraints_at(ts, i + 2) {
                Ok((rest, k)) => Ok((seq![Constraint::NotNull] + rest, k)),
                Err(x) => Err(x),
            }
        } else {
            Err(missing(ts, i + 1, Token::Keyword(Keyword::Null)))
        }
    } else if t == Token::Keyword(Keyword::Check) {
        if tok(ts, i + 1) != Token::LeftParentheses {
            Err(missing(ts, i + 1, Token::LeftParentheses))
        } else {
            match parse_expr(ts, i + 2, 0) {
                Ok((e, j)) => if !(i < j <= ts.len()) {
                    Err(error_at(Expected::Expression, tok(ts, j)))
                } else if tok(ts, j) != Token::RightParentheses {
                    Err(missing(ts, j, Token::RightParentheses))
                } else {
                    match constraints_at(ts, j + 1) {
                        Ok((rest, k)) => Ok((seq![Constraint::Check(e)] + rest, k)),
                        Err(x) => Err(x),
                    }
                },
                Err(x) => Err(x),
            }
        }
    } else {
        Ok((Seq::empty(), i))
    }
}

/// One column definition at `i`: a name, a type and its constraints.
pub open spec fn column_at(ts: Seq<Token>, i: int) -> Result<(ColumnView, int), ParseError> {
    match tok(ts, i) {
        Token::Identifier(column_name) => match column_type_at(ts, i + 1) {
            Ok((column_type, j)) => match constraints_at(ts, j) {
                Ok((constraints, k)) => Ok((ColumnView { column_name, column_type, constraints }, k)),
                Err(x) => Err(x),
            },
            Err(x) => Err(x),
        },
        other => Err(error_at(Expected::ColumnName, other)),
    }
}

/// The column definitions after `(` up to and including the closing `)`.
pub open spec fn columns_at(ts: Seq<Token>, i: int) -> Result<(Seq<ColumnView>, int), ParseError>
    decreases ts.len() - i,
{
    if tok(ts, i) == Token::RightParentheses {
        Ok((Seq::empty(), i + 1))
    } else {
        match column_at(ts, i) {
            Ok((c, j)) => if !(i < j <= ts.len()) {
                Err(error_at(Expected::CommaOrClose, tok(ts, j)))
            } else if tok(ts, j) == Token::Comma {
                match columns_at(ts, j + 1) {
                    Ok((rest, k)) => Ok((seq![c] + rest, k)),
                    Err(x) => Err(x),
                }
            } else if tok(ts, j) == Token::RightParentheses {
                Ok((seq![c], j + 1))
            } else {
                Err(error_at(Expected::CommaOrClose, tok(ts, j)))
            },
            Err(x) => Err(x),
        }
    }
}

/// The rest of a `CREATE TABLE` statement, from the token after `CREATE`.
pub open spec fn create_at(ts: Seq<Token>, i: int) -> Result<(StatementView, int), ParseError> {
    if tok(ts, i) != Token::Keyword(Keyword::Table) {
        Err(missing(ts, i, Token::Keyword(Keyword::Table)))
    } else {
        match tok(ts, i + 1) {
            Token::Identifier(table_name) => if tok(ts, i + 2) != Token::LeftParentheses {
                Err(missing(ts, i + 2, Token::LeftParentheses))
            } else {
                match columns_at(ts, i + 3) {
                    Ok((column_list, j)) => if tok(ts, j) == Token::Semicolon {
                        Ok((StatementView::CreateTable { table_name, column_list }, j + 1))
                    } else {
                        Err(missing(ts, j, Token::Semicolon))
                    },
                    Err(x) => Err(x),
                }
            },
            other => Err(error_at(Expected::TableName, other)),
        }
    }
}

/// The statement that starts at `i`, with the position after its `;`.
pub open spec fn statement_at(ts: Seq<Token>, i: int) -> Result<(StatementView, int), ParseError> {
    match tok(ts, i) {
        Token::Keyword(Keyword::Select) => select_at(ts, i + 1),
        Token::Keyword(Keyword::Create) => create_at(ts, i + 1),
        other => Err(error_at(Expected::Statement, other)),
    }
}

/// What a whole token sequence parses to.
pub open spec fn parse_tokens(ts: Seq<Token>) -> Result<StatementView, ParseError> {
    match statement_at(ts, 0) {
        Ok((s, _)) => Ok(s),
        Err(x) => Err(x),
    }
}

} // verus!
