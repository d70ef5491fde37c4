use sql_parser::{
    tokenize, BinaryOperator, Constraint, DBType, Expected, Expression, Keyword, ParseError,
    Parser, Statement, TableColumn, Token, Tokenizer, UnaryOperator,
};

fn parse(text: &str) -> Result<Statement, ParseError> {
    let mut parser = Parser::new(tokenize(text));
    parser.parse_statement()
}

fn ident(name: &str) -> Expression {
    Expression::Identifier(name.to_string())
}

fn num(n: u64) -> Expression {
    Expression::Number(n)
}

fn bin(l: Expression, op: BinaryOperator, r: Expression) -> Expression {
    Expression::BinaryOperation { left_operand: Box::new(l), operator: op, right_operand: Box::new(r) }
}

fn un(op: UnaryOperator, e: Expression) -> Expression {
    Expression::UnaryOperation { operator: op, operand: Box::new(e) }
}

/// The single column expression of `SELECT <expr> FROM t;`.
fn select_expr(expr: &str) -> Expression {
    match parse(&format!("SELECT {} FROM t;", expr)) {
        Ok(Statement::Select { mut columns, .. }) => {
            assert_eq!(columns.len(), 1);
            columns.remove(0)
        }
        other => panic!("unexpected parse result: {:?}", other),
    }
}

#[test]
fn stray_characters_scan_to_invalid_tokens() {
    assert_eq!(tokenize(" @ # \t$\n% "), vec![
        Token::Invalid('@'),
        Token::Invalid('#'),
        Token::Invalid('$'),
        Token::Invalid('%'),
    ]);
    assert_eq!(tokenize(""), vec![]);
    assert_eq!(tokenize(" \n\t\r "), vec![]);
}

#[test]
fn keywords_ignore_case_and_identifiers_keep_it() {
    let expected = vec![Token::Keyword(Keyword::Select)];
    assert_eq!(tokenize("select"), expected);
    assert_eq!(tokenize("SELECT"), expected);
    assert_eq!(tokenize("SeLeCt"), expected);
    assert_eq!(tokenize("MyTable"), vec![Token::Identifier("MyTable".to_string())]);
    assert_eq!(tokenize("mytable"), vec![Token::Identifier("mytable".to_string())]);
    assert_eq!(tokenize("varchar_2"), vec![Token::Identifier("varchar_2".to_string())]);
}

#[test]
fn punctuation_and_operators() {
    assert_eq!(tokenize("+-*/(),;= <> < > >= <= != !"), vec![
        Token::Plus,
        Token::Minus,
        Token::Star,
        Token::Divide,
        Token::LeftParentheses,
        Token::RightParentheses,
        Token::Comma,
        Token::Semicolon,
        Token::Equal,
        Token::NotEqual,
        Token::LessThan,
        Token::GreaterThan,
        Token::GreaterThanOrEqual,
        Token::LessThanOrEqual,
        Token::NotEqual,
        Token::Invalid('!'),
    ]);
}

#[test]
fn string_and_number_literals() {
    assert_eq!(tokenize("'it''s' \"a b\" 0042"), vec![
        Token::String("it".to_string()),
        Token::String("s".to_string()),
        Token::String("a b".to_string()),
        Token::Number(42),
    ]);
    assert_eq!(tokenize("'open"), vec![Token::Invalid('\'')]);
    assert_eq!(tokenize("18446744073709551615"), vec![Token::Number(u64::MAX)]);
    assert_eq!(tokenize("18446744073709551616"), vec![Token::NumberTooLarge]);
    assert_eq!(tokenize("12ab"), vec![Token::Number(12), Token::Identifier("ab".to_string())]);
}

#[test]
fn tokenizer_steps_one_token_at_a_time() {
    let mut t = Tokenizer::new("a, 1");
    assert_eq!(t.next_token(), Token::Identifier("a".to_string()));
    assert_eq!(t.next_token(), Token::Comma);
    assert_eq!(t.next_token(), Token::Number(1));
    assert_eq!(t.next_token(), Token::Eof);
    assert_eq!(t.next_token(), Token::Eof);
}

#[test]
fn precedence_multiplication_over_addition() {
    assert_eq!(
        select_expr("1 + 2 * 3"),
        bin(num(1), BinaryOperator::Plus, bin(num(2), BinaryOperator::Multiply, num(3)))
    );
}

#[test]
fn precedence_not_binds_its_operand_only() {
    assert_eq!(
        select_expr("NOT a AND b"),
        bin(un(UnaryOperator::Not, ident("a")), BinaryOperator::And, ident("b"))
    );
}

#[test]
fn precedence_or_binds_tighter_than_and() {
    assert_eq!(
        select_expr("a AND b OR c"),
        bin(ident("a"), BinaryOperator::And, bin(ident("b"), BinaryOperator::Or, ident("c")))
    );
}

#[test]
fn same_power_groups_left_and_parentheses_regroup() {
    assert_eq!(
        select_expr("10 - 4 - 3"),
        bin(bin(num(10), BinaryOperator::Minus, num(4)), BinaryOperator::Minus, num(3))
    );
    assert_eq!(
        select_expr("(1 + 2) * 3"),
        bin(bin(num(1), BinaryOperator::Plus, num(2)), BinaryOperator::Multiply, num(3))
    );
    assert_eq!(
        select_expr("-a + b"),
        bin(un(UnaryOperator::Minus, ident("a")), BinaryOperator::Plus, ident("b"))
    );
    assert_eq!(
        select_expr("a <= 'x' = TRUE"),
        bin(
            bin(ident("a"), BinaryOperator::LessThanOrEqual, Expression::String("x".to_string())),
            BinaryOperator::Equal,
            Expression::Bool(true)
        )
    );
}

#[test]
fn select_two_columns() {
    assert_eq!(
        parse("SELECT a, b FROM t;"),
        Ok(Statement::Select {
            columns: vec![ident("a"), ident("b")],
            from: "t".to_string(),
            where_clause: None,
            orderby: vec![],
        })
    );
}

#[test]
fn select_with_where_conjunction() {
    assert_eq!(
        parse("SELECT x FROM t WHERE x > 5 AND x < 10;"),
        Ok(Statement::Select {
            columns: vec![ident("x")],
            from: "t".to_string(),
            where_clause: Some(bin(
                bin(ident("x"), BinaryOperator::GreaterThan, num(5)),
                BinaryOperator::And,
                bin(ident("x"), BinaryOperator::LessThan, num(10)),
            )),
            orderby: vec![],
        })
    );
}

#[test]
fn select_with_order_by() {
    assert_eq!(
        parse("select a from t order by a desc, b;"),
        Ok(Statement::Select {
            columns: vec![ident("a")],
            from: "t".to_string(),
            where_clause: None,
            orderby: vec![un(UnaryOperator::Desc, ident("a")), ident("b")],
        })
    );
}

#[test]
fn create_table_with_constraints() {
    assert_eq!(
        parse("CREATE TABLE t (id INT PRIMARY KEY, name VARCHAR(20) NOT NULL);"),
        Ok(Statement::CreateTable {
            table_name: "t".to_string(),
            column_list: vec![
                TableColumn {
                    column_name: "id".to_string(),
                    column_type: DBType::Int,
                    constraints: vec![Constraint::PrimaryKey],
                },
                TableColumn {
                    column_name: "name".to_string(),
                    column_type: DBType::Varchar(20),
                    constraints: vec![Constraint::NotNull],
                },
            ],
        })
    );
}

#[test]
fn create_table_with_check_and_repeated_constraints() {
    assert_eq!(
        parse("CREATE TABLE t (ok BOOL CHECK (ok = TRUE) NOT NULL NOT NULL);"),
        Ok(Statement::CreateTable {
            table_name: "t".to_string(),
            column_list: vec![TableColumn {
                column_name: "ok".to_string(),
                column_type: DBType::Bool,
                constraints: vec![
                    Constraint::Check(bin(ident("ok"), BinaryOperator::Equal, Expression::Bool(true))),
                    Constraint::NotNull,
                    Constraint::NotNull,
                ],
            }],
        })
    );
}

#[test]
fn create_table_with_no_columns() {
    assert_eq!(
        parse("CREATE TABLE t ();"),
        Ok(Statement::CreateTable { table_name: "t".to_string(), column_list: vec![] })
    );
}

#[test]
fn select_without_columns_is_a_syntax_error() {
    assert_eq!(
        parse("SELECT FROM t;"),
        Err(ParseError::Syntax {
            expected: Expected::Expression,
            found: Token::Keyword(Keyword::From),
        })
    );
}

#[test]
fn select_without_terminator_is_a_syntax_error() {
    assert_eq!(
        parse("SELECT a FROM t"),
        Err(ParseError::Syntax { expected: Expected::Token(Token::Semicolon), found: Token::Eof })
    );
}

#[test]
fn each_error_kind() {
    assert_eq!(parse("DROP t;"), Err(ParseError::Syntax {
        expected: Expected::Statement,
        found: Token::Identifier("DROP".to_string()),
    }));
    assert_eq!(parse(""), Err(ParseError::Syntax { expected: Expected::Statement, found: Token::Eof }));
    assert_eq!(parse("SELECT a # b FROM t;"), Err(ParseError::LexicalAnomaly('#')));
    assert_eq!(parse("SELECT 'abc FROM t;"), Err(ParseError::LexicalAnomaly('\'')));
    assert_eq!(parse("SELECT 99999999999999999999 FROM t;"), Err(ParseError::NumericOverflow));
    assert_eq!(parse("SELECT a FROM 5;"), Err(ParseError::Syntax {
        expected: Expected::TableName,
        found: Token::Number(5),
    }));
    assert_eq!(parse("SELECT a t;"), Err(ParseError::Syntax {
        expected: Expected::Token(Token::Keyword(Keyword::From)),
        found: Token::Identifier("t".to_string()),
    }));
    assert_eq!(parse("SELECT a FROM t ORDER a;"), Err(ParseError::Syntax {
        expected: Expected::Token(Token::Keyword(Keyword::By)),
        found: Token::Identifier("a".to_string()),
    }));
    assert_eq!(parse("SELECT (a FROM t;"), Err(ParseError::Syntax {
        expected: Expected::Token(Token::RightParentheses),
        found: Token::Keyword(Keyword::From),
    }));
    assert_eq!(parse("CREATE t ();"), Err(ParseError::Syntax {
        expected: Expected::Token(Token::Keyword(Keyword::Table)),
        found: Token::Identifier("t".to_string()),
    }));
    assert_eq!(parse("CREATE TABLE t (1 INT);"), Err(ParseError::Syntax {
        expected: Expected::ColumnName,
        found: Token::Number(1),
    }));
    assert_eq!(parse("CREATE TABLE t (a TEXT);"), Err(ParseError::Syntax {
        expected: Expected::ColumnType,
        found: Token::Identifier("TEXT".to_string()),
    }));
    assert_eq!(parse("CREATE TABLE t (a VARCHAR(x));"), Err(ParseError::Syntax {
        expected: Expected::VarcharLength,
        found: Token::Identifier("x".to_string()),
    }));
    assert_eq!(parse("CREATE TABLE t (a INT b INT);"), Err(ParseError::Syntax {
        expected: Expected::CommaOrClose,
        found: Token::Identifier("b".to_string()),
    }));
    assert_eq!(parse("CREATE TABLE t (a INT PRIMARY);"), Err(ParseError::Syntax {
        expected: Expected::Token(Token::Keyword(Keyword::Key)),
        found: Token::RightParentheses,
    }));
}

#[test]
fn parser_stops_after_the_terminator() {
    let mut parser = Parser::new(tokenize("SELECT a FROM t; SELECT b FROM u;"));
    assert!(parser.parse_statement().is_ok());
    assert_eq!(
        parser.parse_statement(),
        Ok(Statement::Select {
            columns: vec![ident("b")],
            from: "u".to_string(),
            where_clause: None,
            orderby: vec![],
        })
    );
}

fn render_expr(e: &Expression) -> String {
    match e {
        Expression::Number(n) => n.to_string(),
        Expression::Identifier(s) => s.clone(),
        Expression::String(s) => format!("'{}'", s),
        Expression::Bool(b) => if *b { "TRUE".to_string() } else { "FALSE".to_string() },
        Expression::UnaryOperation { operator, operand } => {
            let inner = render_expr(operand);
            match operator {
                UnaryOperator::Minus => format!("(-{})", inner),
                UnaryOperator::Plus => format!("(+{})", inner),
                UnaryOperator::Not => format!("(NOT {})", inner),
                UnaryOperator::Asc => format!("({} ASC)", inner),
                UnaryOperator::Desc => format!("({} DESC)", inner),
            }
        }
        Expression::BinaryOperation { left_operand, operator, right_operand } => {
            let op = match operator {
                BinaryOperator::Plus => "+",
                BinaryOperator::Minus => "-",
                BinaryOperator::Multiply => "*",
                BinaryOperator::Divide => "/",
                BinaryOperator::Equal => "=",
                BinaryOperator::NotEqual => "!=",
                BinaryOperator::LessThan => "<",
                BinaryOperator::LessThanOrEqual => "<=",
                BinaryOperator::GreaterThan => ">",
                BinaryOperator::GreaterThanOrEqual => ">=",
                BinaryOperator::And => "AND",
                BinaryOperator::Or => "OR",
            };
            format!("({} {} {})", render_expr(left_operand), op, render_expr(right_operand))
        }
    }
}

fn render_list(es: &[Expression]) -> String {
    es.iter().map(render_expr).collect::<Vec<_>>().join(", ")
}

fn render(s: &Statement) -> String {
    match s {
        Statement::Select { columns, from, where_clause, orderby } => {
            let mut out = format!("SELECT {} FROM {}", render_list(columns), from);
            if let Some(w) = where_clause {
                out.push_str(&format!(" WHERE {}", render_expr(w)));
            }
            if !orderby.is_empty() {
                out.push_str(&format!(" ORDER BY {}", render_list(orderby)));
            }
            out.push(';');
            out
        }
        Statement::CreateTable { table_name, column_list } => {
            let cols: Vec<String> = column_list
                .iter()
                .map(|c| {
                    let mut out = format!("{} ", c.column_name);
                    out.push_str(&match c.column_type {
                        DBType::Int => "INT".to_string(),
                        DBType::Bool => "BOOL".to_string(),
                        DBType::Varchar(n) => format!("VARCHAR({})", n),
                    });
                    for k in &c.constraints {
                        out.push_str(&match k {
                            Constraint::PrimaryKey => " PRIMARY KEY".to_string(),
                            Constraint::NotNull => " NOT NULL".to_string(),
                            Constraint::Check(e) => format!(" CHECK ({})", render_expr(e)),
                        });
                    }
                    out
                })
                .collect();
            format!("CREATE TABLE {} ({});", table_name, cols.join(", "))
        }
    }
}

#[test]
fn rendering_a_parse_parses_to_the_same_statement() {
    let inputs = [
        "SELECT a, b FROM t;",
        "select -a * (b + 3), NOT x = 'y' or z FROM tbl WHERE a >= 1 AND b <> 2 ORDER BY a ASC, b DESC;",
        "SELECT 1 + 2 * 3 - 4 / 5 FROM t WHERE NOT a AND b OR c;",
        "CREATE TABLE t (id INT PRIMARY KEY, name VARCHAR(20) NOT NULL, ok BOOL CHECK (ok = TRUE));",
        "CREATE TABLE t ();",
    ];
    for text in inputs.iter() {
        let first = parse(text).unwrap();
        let rendered = render(&first);
        let second = parse(&rendered).unwrap();
        assert_eq!(first, second, "{} rendered as {}", text, rendered);
    }
}
