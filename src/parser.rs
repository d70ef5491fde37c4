use vstd::prelude::*;
use crate::grammar::{
    after, atom, binary_op, climb, column_at, column_type_at, columns_at, constraints_at,
    create_at, error_at, expr_list, parse_expr, postfix_op, power, prefix_op, select_at,
    statement_at, tok, Expected, ParseError, PREFIX_POWER,
};
use crate::statement::{
    BinaryOperator, ColumnView, Constraint, DBType, Expression, Statement, TableColumn,
    UnaryOperator,
};
use crate::token::{copy_token, is_plain, is_token, Keyword, Token};

verus! {

/// The error for meeting `found` where `expected` was required.
pub fn unexpected(expected: Expected, found: Token) -> (e: ParseError)
    ensures
        e == error_at(expected, found),
{
    match found {
        Token::Invalid(c) => ParseError::LexicalAnomaly(c),
        Token::NumberTooLarge => ParseError::NumericOverflow,
        _ => ParseError::Syntax { expected, found },
    }
}

/// How tightly a token binds as an infix or postfix operator.
pub fn infix_precedence(t: &Token) -> (r: u8)
    ensures
        r == power(*t),
{
    match t {
        Token::Star | Token::Divide => 30,
        Token::Plus | Token::Minus => 25,
        Token::Equal | Token::NotEqual | Token::LessThan | Token::GreaterThan
        | Token::LessThanOrEqual | Token::GreaterThanOrEqual => 20,
        Token::Keyword(Keyword::Or) => 15,
        Token::Keyword(Keyword::And) => 10,
        Token::Keyword(Keyword::Asc) | Token::Keyword(Keyword::Desc) => 5,
        _ => 0,
    }
}

fn binary_of(t: &Token) -> (r: Option<BinaryOperator>)
    ensures
        r == binary_op(*t),
{
    match t {
        Token::Plus => Some(BinaryOperator::Plus),
        Token::Minus => Some(BinaryOperator::Minus),
        Token::Star => Some(BinaryOperator::Multiply),
        Token::Divide => Some(BinaryOperator::Divide),
        Token::Equal => Some(BinaryOperator::Equal),
        Token::NotEqual => Some(BinaryOperator::NotEqual),
        Token::LessThan => Some(BinaryOperator::LessThan),
        Token::LessThanOrEqual => Some(BinaryOperator::LessThanOrEqual),
        Token::GreaterThan => Some(BinaryOperator::GreaterThan),
        Token::GreaterThanOrEqual => Some(BinaryOperator::GreaterThanOrEqual),
        Token::Keyword(Keyword::And) => Some(BinaryOperator::And),
        Token::Keyword(Keyword::Or) => Some(BinaryOperator::Or),
        _ => None,
    }
}

fn postfix_of(t: &Token) -> (r: Option<UnaryOperator>)
    ensures
        r == postfix_op(*t),
{
    match t {
        Token::Keyword(Keyword::Asc) => Some(UnaryOperator::Asc),
        Token::Keyword(Keyword::Desc) => Some(UnaryOperator::Desc),
        _ => None,
    }
}

fn prefix_of(t: &Token) -> (r: Option<UnaryOperator>)
    ensures
        r == prefix_op(*t),
{
    match t {
        Token::Minus => Some(UnaryOperator::Minus),
        Token::Plus => Some(UnaryOperator::Plus),
        Token::Keyword(Keyword::Not) => Some(UnaryOperator::Not),
        _ => None,
    }
}

/// The expression for a literal or name token, or the token back.
fn atom_of(t: Token) -> (r: Result<Expression, Token>)
    ensures
        match atom(t) {
            Some(e) => r == Ok::<Expression, Token>(e),
            None => r == Err::<Expression, Token>(t),
        },
{
    match t {
        Token::Number(n) => Ok(Expression::Number(n)),
        Token::Identifier(s) => Ok(Expression::Identifier(s)),
        Token::String(s) => Ok(Expression::String(s)),
        Token::Keyword(Keyword::True) => Ok(Expression::Bool(true)),
        Token::Keyword(Keyword::False) => Ok(Expression::Bool(false)),
        other => Err(other),
    }
}

/// A cursor over a token sequence; past the last token it sees `Eof`.
pub struct Parser {
    tokens: Vec<Token>,
    pos: usize,
}

impl Parser {
    pub closed spec fn tokens(&self) -> Seq<Token> {
        self.tokens@
    }

    pub closed spec fn position(&self) -> int {
        self.pos as int
    }

    pub closed spec fn wf(&self) -> bool {
        self.pos <= self.tokens@.len()
    }

    pub fn new(tokens: Vec<Token>) -> (r: Self)
        ensures
            r.wf(),
            r.tokens() == tokens@,
            r.position() == 0,
    {
        Parser { tokens, pos: 0 }
    }

    /// The current token, without moving.
    fn peek(&self) -> (r: Token)
        requires
            self.wf(),
        ensures
            r == tok(self.tokens@, self.pos as int),
    {
        if self.pos < self.tokens.len() {
            copy_token(&self.tokens[self.pos])
        } else {
            Token::Eof
        }
    }

    /// The current token; moves past it unless at the end.
    fn next(&mut self) -> (r: Token)
        requires
            old(self).wf(),
        ensures
            final(self).wf(),
            final(self).tokens == old(self).tokens,
            r == tok(old(self).tokens@, old(self).pos as int),
            final(self).pos == if old(self).pos < old(self).tokens@.len() {
                old(self).pos + 1
            } else {
                old(self).pos as int
            },
    {
        if self.pos < self.tokens.len() {
            let t = copy_token(&self.tokens[self.pos]);
            self.pos = self.pos + 1;
            t
        } else {
            Token::Eof
        }
    }

    /// Moves past the current token if it is `expected`, else fails.
    fn expect(&mut self, expected: Token) -> (r: Result<(), ParseError>)
        requires
            old(self).wf(),
            is_plain(expected),
        ensures
            final(self).wf(),
            final(self).tokens == old(self).tokens,
            tok(old(self).tokens@, old(self).pos as int) == expected ==> r is Ok && final(self).pos
                == old(self).pos + 1,
            tok(old(self).tokens@, old(self).pos as int) != expected ==> r == Err::<(), ParseError>(
                error_at(Expected::Token(expected), tok(old(self).tokens@, old(self).pos as int)),
            ),
    {
        let t = self.peek();
        if is_token(&t, &expected) {
            self.next();
            Ok(())
        } else {
            Err(unexpected(Expected::Token(expected), t))
        }
    }

    /// Parses an expression, taking in every operator that binds more tightly than `min_prec`.
    fn parse_expression(&mut self, min_prec: u8) -> (r: Result<Expression, ParseError>)
        requires
            old(self).wf(),
        ensures
            final(self).wf(),
            final(self).tokens == old(self).tokens,
            match parse_expr(old(self).tokens@, old(self).pos as int, min_prec) {
                Ok((e, j)) => r == Ok::<Expression, ParseError>(e) && final(self).pos == j
                    && old(self).pos < j,
                Err(x) => r == Err::<Expression, ParseError>(x),
            },
        decreases old(self).tokens@.len() - old(self).pos,
    {
        let ghost ts = self.tokens@;
        let ghost i0 = self.pos as int;
        if self.pos >= self.tokens.len() {
            return Err(unexpected(Expected::Expression, Token::Eof));
        }
        let t = self.next();
        let mut left = if let Token::LeftParentheses = t {
            match self.parse_expression(0) {
                Ok(e) => {
                    match self.expect(Token::RightParentheses) {
                        Ok(()) => e,
                        Err(x) => return Err(x),
                    }
                },
                Err(x) => return Err(x),
            }
        } else if let Some(op) = prefix_of(&t) {
            match self.parse_expression(PREFIX_POWER) {
                Ok(e) => Expression::UnaryOperation { operator: op, operand: Box::new(e) },
                Err(x) => return Err(x),
            }
        } else {
            match atom_of(t) {
                Ok(a) => a,
                Err(other) => return Err(unexpected(Expected::Expression, other)),
            }
        };
        loop
            invariant
                self.wf(),
                self.tokens == old(self).tokens,
                self.tokens@ == ts,
                i0 == old(self).pos,
                i0 < self.pos,
                parse_expr(ts, i0, min_prec) == climb(ts, self.pos as int, min_prec, left),
            decreases ts.len() - self.pos,
        {
            let t = self.peek();
            let prec = infix_precedence(&t);
            if prec <= min_prec {
                return Ok(left);
            }
            if let Some(op) = postfix_of(&t) {
                self.next();
                left = Expression::UnaryOperation { operator: op, operand: Box::new(left) };
            } else if let Some(op) = binary_of(&t) {
                self.next();
                match self.parse_expression(prec) {
                    Ok(right) => {
                        left = Expression::BinaryOperation {
                            left_operand: Box::new(left),
                            operator: op,
                            right_operand: Box::new(right),
                        };
                    },
                    Err(x) => return Err(x),
                }
            } else {
                return Ok(left);
            }
        }
    }

    /// Parses one or more expressions separated by commas.
    fn parse_expression_list(&mut self) -> (r: Result<Vec<Expression>, ParseError>)
        requires
            old(self).wf(),
        ensures
            final(self).wf(),
            final(self).tokens == old(self).tokens,
            match expr_list(old(self).tokens@, old(self).pos as int) {
                Ok((es, j)) => r is Ok && r->Ok_0@ == es && final(self).pos == j && old(self).pos < j,
                Err(x) => r == Err::<Vec<Expression>, ParseError>(x),
            },
    {
        let ghost ts = self.tokens@;
        let ghost i0 = self.pos as int;
        let mut items: Vec<Expression> = Vec::new();
        loop
            invariant
                self.wf(),
                self.tokens == old(self).tokens,
                self.tokens@ == ts,
                i0 == old(self).pos,
                i0 <= self.pos,
                items@.len() > 0 ==> i0 < self.pos,
                expr_list(ts, i0) == after(items@, expr_list(ts, self.pos as int)),
            decreases ts.len() - self.pos,
        {
            let ghost p = self.pos as int;
            let ghost before = items@;
            let e = match self.parse_expression(0) {
                Ok(e) => e,
                Err(x) => return Err(x),
            };
            let ghost ge = e;
            items.push(e);
            let t = self.peek();
            if is_token(&t, &Token::Comma) {
                self.next();
                proof {
                    match expr_list(ts, self.pos as int) {
                        Ok((rest, k)) => {
                            assert(before + (seq![ge] + rest) =~= items@ + rest);
                        },
                        Err(_) => {},
                    }
                }
            } else {
                assert(before + seq![ge] =~= items@);
                return Ok(items);
            }
        }
    }

    /// Parses the rest of a `SELECT` statement, after the `SELECT` keyword.
    fn parse_select(&mut self) -> (r: Result<Statement, ParseError>)
        requires
            old(self).wf(),
        ensures
            final(self).wf(),
            final(self).tokens == old(self).tokens,
            match select_at(old(self).tokens@, old(self).pos as int) {
                Ok((st, j)) => r is Ok && r->Ok_0@ == st && final(self).pos == j,
                Err(x) => r == Err::<Statement, ParseError>(x),
            },
    {
        let columns = match self.parse_expression_list() {
            Ok(c) => c,
            Err(x) => return Err(x),
        };
        match self.expect(Token::Keyword(Keyword::From)) {
            Ok(()) => {},
            Err(x) => return Err(x),
        }
        let from = match self.next() {
            Token::Identifier(s) => s,
            other => return Err(unexpected(Expected::TableName, other)),
        };
        let where_clause = if is_token(&self.peek(), &Token::Keyword(Keyword::Where)) {
            self.next();
            match self.parse_expression(0) {
                Ok(e) => Some(e),
                Err(x) => return Err(x),
            }
        } else {
            None
        };
        let orderby = if is_token(&self.peek(), &Token::Keyword(Keyword::Order)) {
            self.next();
            match self.expect(Token::Keyword(Keyword::By)) {
                Ok(()) => {},
                Err(x) => return Err(x),
            }
            match self.parse_expression_list() {
                Ok(v) => v,
                Err(x) => return Err(x),
            }
        } else {
            Vec::new()
        };
        match self.expect(Token::Semicolon) {
            Ok(()) => {},
            Err(x) => return Err(x),
        }
        Ok(Statement::Select { columns, from, where_clause, orderby })
    }

    /// Parses a column type: `INT`, `BOOL` or `VARCHAR(<length>)`.
    fn parse_column_type(&mut self) -> (r: Result<DBType, ParseError>)
        requires
            old(self).wf(),
        ensures
            final(self).wf(),
            final(self).tokens == old(self).tokens,
            match column_type_at(old(self).tokens@, old(self).pos as int) {
                Ok((ty, j)) => r == Ok::<DBType, ParseError>(ty) && final(self).pos == j,
                Err(x) => r == Err::<DBType, ParseError>(x),
            },
    {
        match self.peek() {
            Token::Keyword(Keyword::Int) => {
                self.next();
                Ok(DBType::Int)
            },
            Token::Keyword(Keyword::Bool) => {
                self.next();
                Ok(DBType::Bool)
            },
            Token::Keyword(Keyword::Varchar) => {
                self.next();
                match self.expect(Token::LeftParentheses) {
                    Ok(()) => {},
                    Err(x) => return Err(x),
                }
                let n = match self.next() {
                    Token::Number(n) => n,
                    other => return Err(unexpected(Expected::VarcharLength, other)),
                };
                if n > usize::MAX as u64 {
                    return Err(ParseError::NumericOverflow);
                }
                match self.expect(Token::RightParentheses) {
                    Ok(()) => {},
                    Err(x) => return Err(x),
                }
                Ok(DBType::Varchar(n as usize))
            },
            other => Err(unexpected(Expected::ColumnType, other)),
        }
    }

    /// Parses zero or more column constraints, in the order written.
    fn parse_constraints(&mut self) -> (r: Result<Vec<Constraint>, ParseError>)
        requires
            old(self).wf(),
        ensures
            final(self).wf(),
            final(self).tokens == old(self).tokens,
            match constraints_at(old(self).tokens@, old(self).pos as int) {
                Ok((cs, j)) => r is Ok && r->Ok_0@ == cs && final(self).pos == j && old(self).pos
                    <= j,
                Err(x) => r == Err::<Vec<Constraint>, ParseError>(x),
            },
    {
        let ghost ts = self.tokens@;
        let ghost i0 = self.pos as int;
        let mut constraints: Vec<Constraint> = Vec::new();
        loop
            invariant
                self.wf(),
                self.tokens == old(self).tokens,
                self.tokens@ == ts,
                i0 == old(self).pos,
                i0 <= self.pos,
                constraints_at(ts, i0) == after(constraints@, constraints_at(ts, self.pos as int)),
            decreases ts.len() - self.pos,
        {
            let ghost before = constraints@;
            let t = self.peek();
            let c = if is_token(&t, &Token::Keyword(Keyword::Primary)) {
                self.next();
                match self.expect(Token::Keyword(Keyword::Key)) {
                    Ok(()) => {},
                    Err(x) => return Err(x),
                }
                Constraint::PrimaryKey
            } else if is_token(&t, &Token::Keyword(Keyword::Not)) {
                self.next();
                match self.expect(Token::Keyword(Keyword::Null)) {
                    Ok(()) => {},
                    Err(x) => return Err(x),
                }
                Constraint::NotNull
            } else if is_token(&t, &Token::Keyword(Keyword::Check)) {
                self.next();
                match self.expect(Token::LeftParentheses) {
                    Ok(()) => {},
                    Err(x) => return Err(x),
                }
                let e = match self.parse_expression(0) {
                    Ok(e) => e,
                    Err(x) => return Err(x),
                };
                match self.expect(Token::RightParentheses) {
                    Ok(()) => {},
                    Err(x) => return Err(x),
                }
                Constraint::Check(e)
            } else {
                assert(before + Seq::<Constraint>::empty() =~= before);
                return Ok(constraints);
            };
            let ghost gc = c;
            constraints.push(c);
            proof {
                match constraints_at(ts, self.pos as int) {
                    Ok((rest, k)) => {
                        assert(before + (seq![gc] + rest) =~= constraints@ + rest);
                    },
                    Err(_) => {},
                }
            }
        }
    }

    /// Parses one column definition: a name, a type and its constraints.
    fn parse_column(&mut self) -> (r: Result<TableColumn, ParseError>)
        requires
            old(self).wf(),
        ensures
            final(self).wf(),
            final(self).tokens == old(self).tokens,
            match column_at(old(self).tokens@, old(self).pos as int) {
                Ok((c, j)) => r is Ok && r->Ok_0@ == c && final(self).pos == j && old(self).pos < j,
                Err(x) => r == Err::<TableColumn, ParseError>(x),
            },
    {
        let column_name = match self.next() {
            Token::Identifier(s) => s,
            other => return Err(unexpected(Expected::ColumnName, other)),
        };
        let column_type = match self.parse_column_type() {
            Ok(ty) => ty,
            Err(x) => return Err(x),
        };
        let constraints = match self.parse_constraints() {
            Ok(cs) => cs,
            Err(x) => return Err(x),
        };
        Ok(TableColumn { column_name, column_type, constraints })
    }

    /// Parses the column definitions after `(`, through the closing `)`.
    fn parse_column_list(&mut self) -> (r: Result<Vec<TableColumn>, ParseError>)
        requires
            old(self).wf(),
        ensures
            final(self).wf(),
            final(self).tokens == old(self).tokens,
            match columns_at(old(self).tokens@, old(self).pos as int) {
                Ok((cs, j)) => r is Ok && r->Ok_0@.map_values(|c: TableColumn| c@) == cs
                    && final(self).pos == j,
                Err(x) => r == Err::<Vec<TableColumn>, ParseError>(x),
            },
    {
        let ghost ts = self.tokens@;
        let ghost i0 = self.pos as int;
        let mut columns: Vec<TableColumn> = Vec::new();
        loop
            invariant
                self.wf(),
                self.tokens == old(self).tokens,
                self.tokens@ == ts,
                i0 == old(self).pos,
                columns_at(ts, i0) == after(
                    columns@.map_values(|c: TableColumn| c@),
                    columns_at(ts, self.pos as int),
                ),
            decreases ts.len() - self.pos,
        {
            let ghost before = columns@.map_values(|c: TableColumn| c@);
            if is_token(&self.peek(), &Token::RightParentheses) {
                self.next();
                assert(before + Seq::<ColumnView>::empty() =~= before);
                return Ok(columns);
            }
            let c = match self.parse_column() {
                Ok(c) => c,
                Err(x) => return Err(x),
            };
            let ghost gc = c@;
            columns.push(c);
            assert(columns@.map_values(|c: TableColumn| c@) =~= before.push(gc));
            let t = self.peek();
            if is_token(&t, &Token::Comma) {
                self.next();
                proof {
                    match columns_at(ts, self.pos as int) {
                        Ok((rest, k)) => {
                            assert(before + (seq![gc] + rest) =~= before.push(gc) + rest);
                        },
                        Err(_) => {},
                    }
                }
            } else if is_token(&t, &Token::RightParentheses) {
                self.next();
                assert(before + seq![gc] =~= before.push(gc));
                return Ok(columns);
            } else {
                return Err(unexpected(Expected::CommaOrClose, t));
            }
        }
    }

    /// Parses the rest of a `CREATE TABLE` statement, after the `CREATE` keyword.
    fn parse_create_table(&mut self) -> (r: Result<Statement, ParseError>)
        requires
            old(self).wf(),
        ensures
            final(self).wf(),
            final(self).tokens == old(self).tokens,
            match create_at(old(self).tokens@, old(self).pos as int) {
                Ok((st, j)) => r is Ok && r->Ok_0@ == st && final(self).pos == j,
                Err(x) => r == Err::<Statement, ParseError>(x),
            },
    {
        match self.expect(Token::Keyword(Keyword::Table)) {
            Ok(()) => {},
            Err(x) => return Err(x),
        }
        let table_name = match self.next() {
            Token::Identifier(s) => s,
            other => return Err(unexpected(Expected::TableName, other)),
        };
        match self.expect(Token::LeftParentheses) {
            Ok(()) => {},
            Err(x) => return Err(x),
        }
        let column_list = match self.parse_column_list() {
            Ok(cs) => cs,
            Err(x) => return Err(x),
        };
        match self.expect(Token::Semicolon) {
            Ok(()) => {},
            Err(x) => return Err(x),
        }
        Ok(Statement::CreateTable { table_name, column_list })
    }

    /// Parses one statement, `SELECT` or `CREATE TABLE`, through its closing `;`.
    pub fn parse_statement(&mut self) -> (r: Result<Statement, ParseError>)
        requires
            old(self).wf(),
        ensures
            final(self).wf(),
            final(self).tokens() == old(self).tokens(),
            match statement_at(old(self).tokens(), old(self).position()) {
                Ok((st, j)) => r is Ok && r->Ok_0@ == st && final(self).position() == j,
                Err(x) => r == Err::<Statement, ParseError>(x),
            },
    {
        match self.peek() {
            Token::Keyword(Keyword::Select) => {
                self.next();
                self.parse_select()
            },
            Token::Keyword(Keyword::Create) => {
                self.next();
                self.parse_create_table()
            },
            other => Err(unexpected(Expected::Statement, other)),
        }
    }
}

} // verus!
