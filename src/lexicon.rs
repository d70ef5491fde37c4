use vstd::prelude::*;
use crate::token::Keyword;

verus! {

/// The character's code with ASCII lower-case letters mapped to upper case.
pub open spec fn fold(c: char) -> u32 {
    if 'a' <= c && c <= 'z' {
        (c as u32 - 32) as u32
    } else {
        c as u32
    }
}

/// Two words equal up to the case of ASCII letters.
pub open spec fn same_ignoring_case(a: Seq<char>, b: Seq<char>) -> bool {
    &&& a.len() == b.len()
    &&& forall|i: int| 0 <= i < a.len() ==> fold(#[trigger] a[i]) == fold(b[i])
}

/// How a keyword is written, in upper case.
pub open spec fn spelling(k: Keyword) -> Seq<char> {
    match k {
        Keyword::Select => "SELECT"@,
        Keyword::From => "FROM"@,
        Keyword::Where => "WHERE"@,
        Keyword::Create => "CREATE"@,
        Keyword::Table => "TABLE"@,
        Keyword::Order => "ORDER"@,
        Keyword::By => "BY"@,
        Keyword::Asc => "ASC"@,
        Keyword::Desc => "DESC"@,
        Keyword::And => "AND"@,
        Keyword::Or => "OR"@,
        Keyword::Not => "NOT"@,
        Keyword::True => "TRUE"@,
        Keyword::False => "FALSE"@,
        Keyword::Primary => "PRIMARY"@,
        Keyword::Key => "KEY"@,
        Keyword::Check => "CHECK"@,
        Keyword::Int => "INT"@,
        Keyword::Bool => "BOOL"@,
        Keyword::Varchar => "VARCHAR"@,
        Keyword::Null => "NULL"@,
    }
}

/// The keyword that a word spells, ignoring case, if any.
pub open spec fn keyword_of(w: Seq<char>) -> Option<Keyword> {
    if same_ignoring_case(w, spelling(Keyword::Select)) {
        Some(Keyword::Select)
    } else if same_ignoring_case(w, spelling(Keyword::From)) {
        Some(Keyword::From)
    } else if same_ignoring_case(w, spelling(Keyword::Where)) {
        Some(Keyword::Where)
    } else if same_ignoring_case(w, spelling(Keyword::Create)) {
        Some(Keyword::Create)
    } else if same_ignoring_case(w, spelling(Keyword::Table)) {
        Some(Keyword::Table)
    } else if same_ignoring_case(w, spelling(Keyword::Order)) {
        Some(Keyword::Order)
    } else if same_ignoring_case(w, spelling(Keyword::By)) {
        Some(Keyword::By)
    } else if same_ignoring_case(w, spelling(Keyword::Asc)) {
        Some(Keyword::Asc)
    } else if same_ignoring_case(w, spelling(Keyword::Desc)) {
        Some(Keyword::Desc)
    } else if same_ignoring_case(w, spelling(Keyword::And)) {
        Some(Keyword::And)
    } else if same_ignoring_case(w, spelling(Keyword::Or)) {
        Some(Keyword::Or)
    } else if same_ignoring_case(w, spelling(Keyword::Not)) {
        Some(Keyword::Not)
    } else if same_ignoring_case(w, spelling(Keyword::True)) {
        Some(Keyword::True)
    } else if same_ignoring_case(w, spelling(Keyword::False)) {
        Some(Keyword::False)
    } else if same_ignoring_case(w, spelling(Keyword::Primary)) {
        Some(Keyword::Primary)
    } else if same_ignoring_case(w, spelling(Keyword::Key)) {
        Some(Keyword::Key)
    } else if same_ignoring_case(w, spelling(Keyword::Check)) {
        Some(Keyword::Check)
    } else if same_ignoring_case(w, spelling(Keyword::Int)) {
        Some(Keyword::Int)
    } else if same_ignoring_case(w, spelling(Keyword::Bool)) {
        Some(Keyword::Bool)
    } else if same_ignoring_case(w, spelling(Keyword::Varchar)) {
        Some(Keyword::Varchar)
    } else if same_ignoring_case(w, spelling(Keyword::Null)) {
        Some(Keyword::Null)
    } else {
        None
    }
}

/// Words that differ only in the case of their letters name the same keyword, or none.
pub proof fn lemma_keyword_case_insensitive(a: Seq<char>, b: Seq<char>)
    requires
        same_ignoring_case(a, b),
    ensures
        keyword_of(a) == keyword_of(b),
{
    assert forall|t: Seq<char>| same_ignoring_case(a, t) <==> same_ignoring_case(b, t) by {
        if same_ignoring_case(a, t) {
            assert forall|i: int| 0 <= i < b.len() implies fold(#[trigger] b[i]) == fold(t[i]) by {
                assert(fold(a[i]) == fold(t[i]));
            }
        }
        if same_ignoring_case(b, t) {
            assert forall|i: int| 0 <= i < a.len() implies fold(#[trigger] a[i]) == fold(t[i]) by {
                assert(fold(b[i]) == fold(t[i]));
            }
        }
    }
}

pub fn fold_case(c: char) -> (r: u32)
    ensures
        r == fold(c),
{
    if 'a' <= c && c <= 'z' {
        c as u32 - 32
    } else {
        c as u32
    }
}

/// The upper-case spelling of a keyword.
pub fn keyword_spelling(k: Keyword) -> (r: &'static str)
    ensures
        r@ == spelling(k),
{
    match k {
        Keyword::Select => "SELECT",
        Keyword::From => "FROM",
        Keyword::Where => "WHERE",
        Keyword::Create => "CREATE",
        Keyword::Table => "TABLE",
        Keyword::Order => "ORDER",
        Keyword::By => "BY",
        Keyword::Asc => "ASC",
        Keyword::Desc => "DESC",
        Keyword::And => "AND",
        Keyword::Or => "OR",
        Keyword::Not => "NOT",
        Keyword::True => "TRUE",
        Keyword::False => "FALSE",
        Keyword::Primary => "PRIMARY",
        Keyword::Key => "KEY",
        Keyword::Check => "CHECK",
        Keyword::Int => "INT",
        Keyword::Bool => "BOOL",
        Keyword::Varchar => "VARCHAR",
        Keyword::Null => "NULL",
    }
}

} // verus!
