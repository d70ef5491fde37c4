use vstd::prelude::*;
use crate::grammar::{
    binary, climb, column_at, column_type_at, columns_at, constraints_at, create_at, expr_list,
    order_by_at, parse_expr, parse_tokens, power, prefix_op, select_at, tok, unary, where_at,
    ParseError,
};
use crate::statement::{
    BinaryOperator, ColumnView, Constraint, DBType, Expression, StatementView, UnaryOperator,
};
use crate::token::{Keyword, Token};

verus! {

/// The token that writes a binary operator.
pub open spec fn binary_token(op: BinaryOperator) -> Token {
    match op {
        BinaryOperator::Plus => Token::Plus,
        BinaryOperator::Minus => Token::Minus,
        BinaryOperator::Multiply => Token::Star,
        BinaryOperator::Divide => Token::Divide,
        BinaryOperator::Equal => Token::Equal,
        BinaryOperator::NotEqual => Token::NotEqual,
        BinaryOperator::LessThan => Token::LessThan,
        BinaryOperator::LessThanOrEqual => Token::LessThanOrEqual,
        BinaryOperator::GreaterThan => Token::GreaterThan,
        BinaryOperator::GreaterThanOrEqual => Token::GreaterThanOrEqual,
        BinaryOperator::And => Token::Keyword(Keyword::And),
        BinaryOperator::Or => Token::Keyword(Keyword::Or),
    }
}

/// The token that writes a unary operator.
pub open spec fn unary_token(op: UnaryOperator) -> Token {
    match op {
        UnaryOperator::Minus => Token::Minus,
        UnaryOperator::Plus => Token::Plus,
        UnaryOperator::Not => Token::Keyword(Keyword::Not),
        UnaryOperator::Asc => Token::Keyword(Keyword::Asc),
        UnaryOperator::Desc => Token::Keyword(Keyword::Desc),
    }
}

pub open spec fn is_postfix(op: UnaryOperator) -> bool {
    op is Asc || op is Desc
}

/// The canonical rendering of an expression: literals and names bare, every
/// operation in its own parentheses.
pub open spec fn render_expr(e: Expression) -> Seq<Token>
    decreases e,
{
    match e {
        Expression::Number(n) => seq![Token::Number(n)],
        Expression::Identifier(s) => seq![Token::Identifier(s)],
        Expression::String(s) => seq![Token::String(s)],
        Expression::Bool(b) => seq![Token::Keyword(if b { Keyword::True } else { Keyword::False })],
        Expression::UnaryOperation { operator, operand } => if is_postfix(operator) {
            seq![Token::LeftParentheses] + render_expr(*operand) + seq![
                unary_token(operator),
                Token::RightParentheses,
            ]
        } else {
            seq![Token::LeftParentheses, unary_token(operator)] + render_expr(*operand) + seq![
                Token::RightParentheses,
            ]
        },
        Expression::BinaryOperation { left_operand, operator, right_operand } => seq![
            Token::LeftParentheses,
        ] + render_expr(*left_operand) + seq![binary_token(operator)] + render_expr(
            *right_operand,
        ) + seq![Token::RightParentheses],
    }
}

/// Expressions rendered and separated by commas.
pub open spec fn render_list(es: Seq<Expression>) -> Seq<Token>
    decreases es.len(),
{
    if es.len() <= 1 {
        if es.len() == 0 {
            Seq::empty()
        } else {
            render_expr(es[0])
        }
    } else {
        render_expr(es[0]) + seq![Token::Comma] + render_list(es.drop_first())
    }
}

pub open spec fn render_type(t: DBType) -> Seq<Token> {
    match t {
        DBType::Int => seq![Token::Keyword(Keyword::Int)],
        DBType::Bool => seq![Token::Keyword(Keyword::Bool)],
        DBType::Varchar(n) => seq![
            Token::Keyword(Keyword::Varchar),
            Token::LeftParentheses,
            Token::Number(n as u64),
            Token::RightParentheses,
        ],
    }
}

pub open spec fn render_constraint(c: Constraint) -> Seq<Token> {
    match c {
        Constraint::PrimaryKey => seq![Token::Keyword(Keyword::Primary), Token::Keyword(Keyword::Key)],
        Constraint::NotNull => seq![Token::Keyword(Keyword::Not), Token::Keyword(Keyword::Null)],
        Constraint::Check(e) => seq![Token::Keyword(Keyword::Check), Token::LeftParentheses]
            + render_expr(e) + seq![Token::RightParentheses],
    }
}

pub open spec fn render_constraints(cs: Seq<Constraint>) -> Seq<Token>
    decreases cs.len(),
{
    if cs.len() == 0 {
        Seq::empty()
    } else {
        render_constraint(cs[0]) + render_constraints(cs.drop_first())
    }
}

pub open spec fn render_column(c: ColumnView) -> Seq<Token> {
    seq![Token::Identifier(c.column_name)] + render_type(c.column_type) + render_constraints(
        c.constraints,
    )
}

/// Column definitions separated by commas, then the closing `)`.
pub open spec fn render_columns(cs: Seq<ColumnView>) -> Seq<Token>
    decreases cs.len(),
{
    if cs.len() <= 1 {
        if cs.len() == 0 {
            seq![Token::RightParentheses]
        } else {
            render_column(cs[0]) + seq![Token::RightParentheses]
        }
    } else {
        render_column(cs[0]) + seq![Token::Comma] + render_columns(cs.drop_first())
    }
}

pub open spec fn render_where(w: Option<Expression>) -> Seq<Token> {
    match w {
        Some(e) => seq![Token::Keyword(Keyword::Where)] + render_expr(e),
        None => Seq::empty(),
    }
}

pub open spec fn render_order_by(es: Seq<Expression>) -> Seq<Token> {
    if es.len() == 0 {
        Seq::empty()
    } else {
        seq![Token::Keyword(Keyword::Order), Token::Keyword(Keyword::By)] + render_list(es)
    }
}

/// The canonical token rendering of a statement.
pub open spec fn render_statement(s: StatementView) -> Seq<Token> {
    match s {
        StatementView::Select { columns, from, where_clause, orderby } => seq![
            Token::Keyword(Keyword::Select),
        ] + render_list(columns) + seq![Token::Keyword(Keyword::From), Token::Identifier(from)]
            + render_where(where_clause) + render_order_by(orderby) + seq![Token::Semicolon],
        StatementView::CreateTable { table_name, column_list } => seq![
            Token::Keyword(Keyword::Create),
            Token::Keyword(Keyword::Table),
            Token::Identifier(table_name),
            Token::LeftParentheses,
        ] + render_columns(column_list) + seq![Token::Semicolon],
    }
}

/// `r` stands in `ts` from position `i` on.
pub open spec fn occurs_at(ts: Seq<Token>, i: int, r: Seq<Token>) -> bool {
    &&& 0 <= i
    &&& i + r.len() <= ts.len()
    &&& forall|k: int| 0 <= k < r.len() ==> ts[i + k] == #[trigger] r[k]
}

proof fn lemma_split(ts: Seq<Token>, i: int, a: Seq<Token>, b: Seq<Token>)
    requires
        occurs_at(ts, i, a + b),
    ensures
        occurs_at(ts, i, a),
        occurs_at(ts, i + a.len(), b),
{
    assert forall|k: int| 0 <= k < a.len() implies ts[i + k] == #[trigger] a[k] by {
        assert((a + b)[k] == a[k]);
    }
    assert forall|k: int| 0 <= k < b.len() implies ts[i + a.len() + k] == #[trigger] b[k] by {
        assert((a + b)[a.len() + k] == b[k]);
    }
}

proof fn lemma_first(ts: Seq<Token>, i: int, r: Seq<Token>)
    requires
        occurs_at(ts, i, r),
        r.len() > 0,
    ensures
        tok(ts, i) == r[0],
{
    assert(ts[i + 0] == r[0]);
}

/// A rendered expression parses back to itself, up to the operators that follow it.
proof fn lemma_expr(ts: Seq<Token>, i: int, e: Expression, min: u8)
    requires
        occurs_at(ts, i, render_expr(e)),
    ensures
        render_expr(e).len() > 0,
        parse_expr(ts, i, min) == climb(ts, i + render_expr(e).len(), min, e),
    decreases e,
{
    let r = render_expr(e);
    match e {
        Expression::Number(n) => {
            lemma_first(ts, i, r);
        },
        Expression::Identifier(s) => {
            lemma_first(ts, i, r);
        },
        Expression::String(s) => {
            lemma_first(ts, i, r);
        },
        Expression::Bool(b) => {
            lemma_first(ts, i, r);
        },
        Expression::UnaryOperation { operator, operand } => {
            let x = *operand;
            let rx = render_expr(x);
            let opt = unary_token(operator);
            if is_postfix(operator) {
                let a = seq![Token::LeftParentheses];
                let c = seq![opt, Token::RightParentheses];
                lemma_split(ts, i, a + rx, c);
                lemma_split(ts, i, a, rx);
                lemma_first(ts, i, a);
                lemma_expr(ts, i + 1, x, 0);
                let j = i + 1 + rx.len();
                assert(ts[j + 0] == c[0]);
                assert(ts[j + 1] == c[1]);
                assert(climb(ts, j + 1, 0, unary(operator, x)) == Ok::<(Expression, int), ParseError>((unary(operator, x), j + 1)));
                assert(climb(ts, j, 0, x) == climb(ts, j + 1, 0, unary(operator, x)));
                assert(unary(operator, x) == e);
                assert(parse_expr(ts, i + 1, 0) == Ok::<(Expression, int), ParseError>((e, j + 1)));
            } else {
                let a = seq![Token::LeftParentheses, opt];
                let c = seq![Token::RightParentheses];
                lemma_split(ts, i, a + rx, c);
                lemma_split(ts, i, a, rx);
                assert(ts[i + 0] == a[0]);
                assert(ts[i + 1] == a[1]);
                lemma_expr(ts, i + 2, x, 100);
                let j = i + 2 + rx.len();
                assert(ts[j + 0] == c[0]);
                assert(climb(ts, j, 100, x) == Ok::<(Expression, int), ParseError>((x, j)));
                assert(prefix_op(tok(ts, i + 1)) == Some(operator));
                assert(unary(operator, x) == e);
                assert(climb(ts, j, 0, e) == Ok::<(Expression, int), ParseError>((e, j)));
                assert(parse_expr(ts, i + 1, 0) == Ok::<(Expression, int), ParseError>((e, j)));
            }
        },
        Expression::BinaryOperation { left_operand, operator, right_operand } => {
            let l = *left_operand;
            let rr = *right_operand;
            let rl = render_expr(l);
            let rrr = render_expr(rr);
            let opt = binary_token(operator);
            let a = seq![Token::LeftParentheses];
            let o = seq![opt];
            let c = seq![Token::RightParentheses];
            lemma_split(ts, i, a + rl + o + rrr, c);
            lemma_split(ts, i, a + rl + o, rrr);
            lemma_split(ts, i, a + rl, o);
            lemma_split(ts, i, a, rl);
            lemma_first(ts, i, a);
            let j = i + 1 + rl.len();
            let k = j + 1 + rrr.len();
            assert(ts[j + 0] == o[0]);
            assert(ts[k + 0] == c[0]);
            let p = power(opt);
            lemma_expr(ts, i + 1, l, 0);
            lemma_expr(ts, j + 1, rr, p);
            assert(climb(ts, k, p, rr) == Ok::<(Expression, int), ParseError>((rr, k)));
            assert(binary(l, operator, rr) == e);
            assert(climb(ts, k, 0, e) == Ok::<(Expression, int), ParseError>((e, k)));
            assert(climb(ts, j, 0, l) == climb(ts, k, 0, e));
            assert(parse_expr(ts, i + 1, 0) == Ok::<(Expression, int), ParseError>((e, k)));
        },
    }
}

/// A rendered expression list parses back to itself when no `,` or operator follows it.
proof fn lemma_list(ts: Seq<Token>, i: int, es: Seq<Expression>)
    requires
        es.len() > 0,
        occurs_at(ts, i, render_list(es)),
        tok(ts, i + render_list(es).len()) != Token::Comma,
        power(tok(ts, i + render_list(es).len())) == 0,
    ensures
        render_list(es).len() > 0,
        expr_list(ts, i) == Ok::<(Seq<Expression>, int), ParseError>((es, i + render_list(es).len())),
    decreases es.len(),
{
    let r0 = render_expr(es[0]);
    if es.len() == 1 {
        lemma_expr(ts, i, es[0], 0);
        assert(seq![es[0]] =~= es);
    } else {
        let rest = es.drop_first();
        let c = seq![Token::Comma];
        lemma_split(ts, i, r0 + c, render_list(rest));
        lemma_split(ts, i, r0, c);
        lemma_expr(ts, i, es[0], 0);
        let j = i + r0.len();
        assert(ts[j + 0] == c[0]);
        lemma_list(ts, j + 1, rest);
        assert(seq![es[0]] + rest =~= es);
    }
}

/// Rendered constraints parse back to themselves when no constraint keyword follows them.
proof fn lemma_constraints(ts: Seq<Token>, i: int, cs: Seq<Constraint>)
    requires
        occurs_at(ts, i, render_constraints(cs)),
        tok(ts, i + render_constraints(cs).len()) == Token::Comma || tok(
            ts,
            i + render_constraints(cs).len(),
        ) == Token::RightParentheses,
    ensures
        constraints_at(ts, i) == Ok::<(Seq<Constraint>, int), ParseError>(
            (cs, i + render_constraints(cs).len()),
        ),
    decreases cs.len(),
{
    if cs.len() == 0 {
        assert(cs =~= Seq::<Constraint>::empty());
    } else {
        let rc = render_constraint(cs[0]);
        let rest = cs.drop_first();
        lemma_split(ts, i, rc, render_constraints(rest));
        let j = i + rc.len();
        lemma_constraints(ts, j, rest);
        assert(seq![cs[0]] + rest =~= cs);
        match cs[0] {
            Constraint::PrimaryKey => {
                assert(ts[i + 0] == rc[0]);
                assert(ts[i + 1] == rc[1]);
            },
            Constraint::NotNull => {
                assert(ts[i + 0] == rc[0]);
                assert(ts[i + 1] == rc[1]);
            },
            Constraint::Check(e) => {
                let a = seq![Token::Keyword(Keyword::Check), Token::LeftParentheses];
                let re = render_expr(e);
                let c = seq![Token::RightParentheses];
                lemma_split(ts, i, a + re, c);
                lemma_split(ts, i, a, re);
                assert(ts[i + 0] == a[0]);
                assert(ts[i + 1] == a[1]);
                lemma_expr(ts, i + 2, e, 0);
                let k = i + 2 + re.len();
                assert(ts[k + 0] == c[0]);
                assert(climb(ts, k, 0, e) == Ok::<(Expression, int), ParseError>((e, k)));
            },
        }
    }
}

/// A rendered column definition parses back to itself when `,` or `)` follows it.
proof fn lemma_column(ts: Seq<Token>, i: int, c: ColumnView)
    requires
        occurs_at(ts, i, render_column(c)),
        tok(ts, i + render_column(c).len()) == Token::Comma || tok(
            ts,
            i + render_column(c).len(),
        ) == Token::RightParentheses,
    ensures
        render_column(c).len() > 0,
        column_at(ts, i) == Ok::<(ColumnView, int), ParseError>((c, i + render_column(c).len())),
{
    let n = seq![Token::Identifier(c.column_name)];
    let rt = render_type(c.column_type);
    let rc = render_constraints(c.constraints);
    lemma_split(ts, i, n + rt, rc);
    lemma_split(ts, i, n, rt);
    assert(ts[i + 0] == n[0]);
    let j = i + 1 + rt.len();
    lemma_constraints(ts, j, c.constraints);
    match c.column_type {
        DBType::Varchar(len) => {
            assert(ts[i + 1 + 0] == rt[0]);
            assert(ts[i + 1 + 1] == rt[1]);
            assert(ts[i + 1 + 2] == rt[2]);
            assert(ts[i + 1 + 3] == rt[3]);
            assert(column_type_at(ts, i + 1) == Ok::<(DBType, int), ParseError>(
                (c.column_type, j),
            ));
        },
        _ => {
            assert(ts[i + 1 + 0] == rt[0]);
        },
    }
}

/// Rendered column definitions, with their closing `)`, parse back to themselves.
proof fn lemma_columns(ts: Seq<Token>, i: int, cs: Seq<ColumnView>)
    requires
        occurs_at(ts, i, render_columns(cs)),
    ensures
        columns_at(ts, i) == Ok::<(Seq<ColumnView>, int), ParseError>(
            (cs, i + render_columns(cs).len()),
        ),
    decreases cs.len(),
{
    if cs.len() == 0 {
        lemma_first(ts, i, render_columns(cs));
        assert(cs =~= Seq::<ColumnView>::empty());
    } else {
        let rc = render_column(cs[0]);
        if cs.len() == 1 {
            let c = seq![Token::RightParentheses];
            lemma_split(ts, i, rc, c);
            assert(ts[i + rc.len() + 0] == c[0]);
            lemma_column(ts, i, cs[0]);
            lemma_first(ts, i, rc);
            assert(seq![cs[0]] =~= cs);
        } else {
            let rest = cs.drop_first();
            let c = seq![Token::Comma];
            lemma_split(ts, i, rc + c, render_columns(rest));
            lemma_split(ts, i, rc, c);
            assert(ts[i + rc.len() + 0] == c[0]);
            lemma_column(ts, i, cs[0]);
            lemma_first(ts, i, rc);
            lemma_columns(ts, i + rc.len() + 1, rest);
            assert(seq![cs[0]] + rest =~= cs);
        }
    }
}

/// A statement that the grammar can produce: a `SELECT` names at least one column.
pub open spec fn renderable(s: StatementView) -> bool {
    match s {
        StatementView::Select { columns, .. } => columns.len() > 0,
        StatementView::CreateTable { .. } => true,
    }
}

proof fn lemma_where(ts: Seq<Token>, k: int, w: Option<Expression>)
    requires
        occurs_at(ts, k, render_where(w)),
        tok(ts, k + render_where(w).len()) == Token::Semicolon || tok(
            ts,
            k + render_where(w).len(),
        ) == Token::Keyword(Keyword::Order),
    ensures
        where_at(ts, k) == Ok::<(Option<Expression>, int), ParseError>(
            (w, k + render_where(w).len()),
        ),
{
    match w {
        Some(e) => {
            let ww = seq![Token::Keyword(Keyword::Where)];
            lemma_split(ts, k, ww, render_expr(e));
            lemma_first(ts, k, ww);
            lemma_expr(ts, k + 1, e, 0);
        },
        None => {
            if k < ts.len() {
                assert(tok(ts, k) != Token::Keyword(Keyword::Where));
            }
        },
    }
}

proof fn lemma_order_by(ts: Seq<Token>, m: int, es: Seq<Expression>)
    requires
        occurs_at(ts, m, render_order_by(es)),
        tok(ts, m + render_order_by(es).len()) == Token::Semicolon,
    ensures
        order_by_at(ts, m) == Ok::<(Seq<Expression>, int), ParseError>(
            (es, m + render_order_by(es).len()),
        ),
{
    if es.len() > 0 {
        let ob = seq![Token::Keyword(Keyword::Order), Token::Keyword(Keyword::By)];
        lemma_split(ts, m, ob, render_list(es));
        assert(ts[m + 0] == ob[0]);
        assert(ts[m + 1] == ob[1]);
        lemma_list(ts, m + 2, es);
    } else {
        assert(es =~= Seq::<Expression>::empty());
    }
}

proof fn lemma_select_parses_back(s: StatementView)
    requires
        s is Select,
        renderable(s),
    ensures
        parse_tokens(render_statement(s)) == Ok::<StatementView, ParseError>(s),
{
    let ts = render_statement(s);
    let columns = s->Select_columns;
    let from = s->Select_from;
    let where_clause = s->Select_where_clause;
    let orderby = s->Select_orderby;
    let a = seq![Token::Keyword(Keyword::Select)];
    let rl = render_list(columns);
    let f = seq![Token::Keyword(Keyword::From), Token::Identifier(from)];
    let rw = render_where(where_clause);
    let ro = render_order_by(orderby);
    let z = seq![Token::Semicolon];
    lemma_split(ts, 0, a + rl + f + rw + ro, z);
    lemma_split(ts, 0, a + rl + f + rw, ro);
    lemma_split(ts, 0, a + rl + f, rw);
    lemma_split(ts, 0, a + rl, f);
    lemma_split(ts, 0, a, rl);
    lemma_first(ts, 0, a);
    let j: int = 1 + rl.len() as int;
    let k: int = j + 2;
    let m: int = k + rw.len();
    let q: int = m + ro.len();
    assert(ts[j + 0] == f[0]);
    assert(ts[j + 1] == f[1]);
    assert(ts[q + 0] == z[0]);
    lemma_list(ts, 1, columns);
    if orderby.len() > 0 {
        lemma_first(ts, m, ro);
    }
    lemma_where(ts, k, where_clause);
    lemma_order_by(ts, m, orderby);
    assert(select_at(ts, 1) == Ok::<(StatementView, int), ParseError>((s, q + 1)));
}

proof fn lemma_create_parses_back(s: StatementView)
    requires
        s is CreateTable,
    ensures
        parse_tokens(render_statement(s)) == Ok::<StatementView, ParseError>(s),
{
    let ts = render_statement(s);
    let a = seq![
        Token::Keyword(Keyword::Create),
        Token::Keyword(Keyword::Table),
        Token::Identifier(s->CreateTable_table_name),
        Token::LeftParentheses,
    ];
    let rc = render_columns(s->CreateTable_column_list);
    let z = seq![Token::Semicolon];
    lemma_split(ts, 0, a + rc, z);
    lemma_split(ts, 0, a, rc);
    assert(ts[0int] == a[0]);
    assert(ts[1int] == a[1]);
    assert(ts[2int] == a[2]);
    assert(ts[3int] == a[3]);
    assert(ts[4 + rc.len() as int] == z[0]);
    lemma_columns(ts, 4, s->CreateTable_column_list);
    assert(create_at(ts, 1) == Ok::<(StatementView, int), ParseError>((s, 5 + rc.len() as int)));
}

/// Every renderable statement parses back from its canonical rendering.
pub proof fn lemma_render_parses_back(s: StatementView)
    requires
        renderable(s),
    ensures
        parse_tokens(render_statement(s)) == Ok::<StatementView, ParseError>(s),
{
    if s is Select {
        lemma_select_parses_back(s);
    } else {
        lemma_create_parses_back(s);
    }
}

/// Parsing is stable under canonical rendering: whatever a token sequence
/// parses to, its rendering parses to the same statement again.
pub proof fn lemma_parse_render_parse(ts: Seq<Token>)
    requires
        parse_tokens(ts) is Ok,
    ensures
        parse_tokens(render_statement(parse_tokens(ts)->Ok_0)) == parse_tokens(ts),
{
    let s = parse_tokens(ts)->Ok_0;
    if tok(ts, 0) == Token::Keyword(Keyword::Select) {
        assert(expr_list(ts, 1) is Ok);
        assert(expr_list(ts, 1)->Ok_0.0.len() > 0);
    }
    lemma_render_parses_back(s);
}

} // verus!
