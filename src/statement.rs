use vstd::prelude::*;

verus! {

#[derive(Clone, Copy, Debug, PartialEq, Eq, Structural)]
pub enum UnaryOperator {
    Minus,
    Plus,
    Not,
    /// Postfix: an ascending ordering key.
    Asc,
    /// Postfix: a descending ordering key.
    Desc,
}

#[derive(Clone, Copy, Debug, PartialEq, Eq, Structural)]
pub enum BinaryOperator {
    Plus,
    Minus,
    Multiply,
    Divide,
    Equal,
    NotEqual,
    LessThan,
    LessThanOrEqual,
    GreaterThan,
    GreaterThanOrEqual,
    And,
    Or,
}

/// An expression tree; each node owns its operands.
#[derive(Debug, PartialEq, Eq)]
pub enum Expression {
    Number(u64),
    Identifier(String),
    String(String),
    Bool(bool),
    UnaryOperation { operator: UnaryOperator, operand: Box<Expression> },
    BinaryOperation {
        left_operand: Box<Expression>,
        operator: BinaryOperator,
        right_operand: Box<Expression>,
    },
}

#[derive(Clone, Copy, Debug, PartialEq, Eq, Structural)]
pub enum DBType {
    Int,
    Bool,
    Varchar(usize),
}

#[derive(Debug, PartialEq, Eq)]
pub enum Constraint {
    PrimaryKey,
    NotNull,
    Check(Expression),
}

#[derive(Debug, PartialEq, Eq)]
pub struct TableColumn {
    pub column_name: String,
    pub column_type: DBType,
    pub constraints: Vec<Constraint>,
}

#[derive(Debug, PartialEq, Eq)]
pub enum Statement {
    Select {
        columns: Vec<Expression>,
        from: String,
        where_clause: Option<Expression>,
        orderby: Vec<Expression>,
    },
    CreateTable { table_name: String, column_list: Vec<TableColumn> },
}

/// A column definition with its constraints as a sequence.
pub struct ColumnView {
    pub column_name: String,
    pub column_type: DBType,
    pub constraints: Seq<Constraint>,
}

impl View for TableColumn {
    type V = ColumnView;

    open spec fn view(&self) -> ColumnView {
        ColumnView {
            column_name: self.column_name,
            column_type: self.column_type,
            constraints: self.constraints@,
        }
    }
}

/// A statement with its lists seen as sequences.
pub enum StatementView {
    Select {
        columns: Seq<Expression>,
        from: String,
        where_clause: Option<Expression>,
        orderby: Seq<Expression>,
    },
    CreateTable { table_name: String, column_list: Seq<ColumnView> },
}

impl View for Statement {
    type V = StatementView;

    open spec fn view(&self) -> StatementView {
        match self {
            Statement::Select { columns, from, where_clause, orderby } => StatementView::Select {
                columns: columns@,
                from: *from,
                where_clause: *where_clause,
                orderby: orderby@,
            },
            Statement::CreateTable { table_name, column_list } => StatementView::CreateTable {
                table_name: *table_name,
                column_list: column_list@.map_values(|c: TableColumn| c@),
            },
        }
    }
}

} // verus!
