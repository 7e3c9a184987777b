//! Schema-bound evaluation of predicate expressions against one row.
//!
//! A comparison resolves both sides to text: a column by its position in the
//! schema, an integer literal by its decimal rendering, a text literal by
//! itself. If both sides parse as 64-bit integers they are compared
//! numerically, otherwise lexicographically.

use vstd::prelude::*;

use crate::row::Row;
use crate::sql::Expr;
use crate::sql::ExprV;
use crate::sql::string_views;
use crate::text::chars_lt;
use crate::text::i64_chars;
use crate::text::i64_to_string;
use crate::text::parse_i64;
use crate::text::parse_i64_str;
use crate::text::str_eq;

verus! {

// ---------------------------------------------------------------------------
// Schema
// ---------------------------------------------------------------------------

/// The position of the first column of that name, scanning from `i`.
pub open spec fn find_col_from(cols: Seq<Seq<char>>, name: Seq<char>, i: int) -> Option<int>
    decreases cols.len() - i,
{
    if i < 0 || i >= cols.len() {
        None
    } else if cols[i] == name {
        Some(i)
    } else {
        find_col_from(cols, name, i + 1)
    }
}

/// The position of a column name in a schema, if the schema has it.
pub open spec fn find_col(cols: Seq<Seq<char>>, name: Seq<char>) -> Option<int> {
    find_col_from(cols, name, 0)
}

/// The table shape: column names in field order. Resolution of a name not in
/// the schema is a schema-mismatch error.
#[derive(Debug)]
pub struct Schema {
    pub columns: Vec<String>,
}

impl View for Schema {
    type V = Seq<Seq<char>>;

    open spec fn view(&self) -> Seq<Seq<char>> {
        string_views(self.columns@)
    }
}

impl Schema {
    pub fn new(columns: Vec<String>) -> (r: Self)
        ensures
            r@ == string_views(columns@),
    {
        Self { columns }
    }

    /// Resolve a column name to its field position.
    pub fn resolve(&self, name: &str) -> (r: Option<usize>)
        ensures
            match r {
                Some(i) => find_col(self@, name@) == Some(i as int),
                None => find_col(self@, name@) is None,
            },
    {
        let n = self.columns.len();
        let mut i: usize = 0;
        while i < n
            invariant
                i <= n,
                n == self@.len(),
                find_col(self@, name@) == find_col_from(self@, name@, i as int),
            decreases n - i,
        {
            if str_eq(self.columns[i].as_str(), name) {
                return Some(i);
            }
            i = i + 1;
        }
        None
    }
}

// ---------------------------------------------------------------------------
// Evaluation, specified
// ---------------------------------------------------------------------------

/// The text a leaf expression stands for against one row: a column reads its
/// field, an integer renders in decimal, a text literal is itself. A column
/// outside the schema or beyond the row's fields resolves to nothing, and so
/// does a non-leaf expression.
pub open spec fn spec_resolve(schema: Seq<Seq<char>>, e: ExprV, row: Seq<Seq<char>>) -> Option<
    Seq<char>,
> {
    match e {
        ExprV::Column(name) => match find_col(schema, name) {
            Some(i) => if i < row.len() {
                Some(row[i])
            } else {
                None
            },
            None => None,
        },
        ExprV::Value(v) => Some(i64_chars(v)),
        ExprV::Varchar(s) => Some(s),
        _ => None,
    }
}

/// Comparison of two resolved values: numeric when both parse as `i64`,
/// lexicographic otherwise; the operators are `=`, `>` and `<`, and anything
/// else compares as false.
pub open spec fn spec_compare(op: Seq<char>, l: Seq<char>, r: Seq<char>) -> bool {
    match (parse_i64(l), parse_i64(r)) {
        (Some(a), Some(b)) => if op == "="@ {
            a == b
        } else if op == ">"@ {
            a > b
        } else if op == "<"@ {
            a < b
        } else {
            false
        },
        _ => if op == "="@ {
            l == r
        } else if op == ">"@ {
            chars_lt(r, l)
        } else if op == "<"@ {
            chars_lt(l, r)
        } else {
            false
        },
    }
}

/// Whether a row satisfies a predicate expression: leaves hold trivially,
/// the connectives are boolean, and a comparison with an unresolvable side
/// matches nothing.
pub open spec fn spec_eval(schema: Seq<Seq<char>>, e: ExprV, row: Seq<Seq<char>>) -> bool
    decreases e,
{
    match e {
        ExprV::Column(_) => true,
        ExprV::Value(_) => true,
        ExprV::Varchar(_) => true,
        ExprV::And(l, r) => spec_eval(schema, *l, row) && spec_eval(schema, *r, row),
        ExprV::Or(l, r) => spec_eval(schema, *l, row) || spec_eval(schema, *r, row),
        ExprV::Not(e0) => !spec_eval(schema, *e0, row),
        ExprV::Comparison(l, op, r) => match (
            spec_resolve(schema, *l, row),
            spec_resolve(schema, *r, row),
        ) {
            (Some(a), Some(b)) => spec_compare(op, a, b),
            _ => false,
        },
    }
}

// ---------------------------------------------------------------------------
// Evaluation, executable
// ---------------------------------------------------------------------------

/// Resolve a leaf expression to its text against one row.
pub fn resolve(schema: &Schema, expr: &Expr, row: &Row) -> (r: Option<String>)
    ensures
        match r {
            Some(s) => spec_resolve(schema@, expr@, row@) == Some(s@),
            None => spec_resolve(schema@, expr@, row@) is None,
        },
{
    match expr {
        Expr::Column(name) => match schema.resolve(name.as_str()) {
            Some(i) => match row.get(i) {
                Some(s) => Some(s.to_owned()),
                None => None,
            },
            None => None,
        },
        Expr::Value(v) => Some(i64_to_string(*v)),
        Expr::Varchar(s) => Some(s.clone()),
        _ => None,
    }
}

/// Compare two resolved values under an operator.
fn compare_values(op: &str, l: &String, r: &String) -> (res: bool)
    ensures
        res == spec_compare(op@, l@, r@),
{
    let lv = parse_i64_str(l.as_str());
    let rv = parse_i64_str(r.as_str());
    let both = match (lv, rv) {
        (Some(a), Some(b)) => Some((a, b)),
        _ => None,
    };
    match both {
        Some((a, b)) => {
            if str_eq(op, "=") {
                a == b
            } else if str_eq(op, ">") {
                a > b
            } else if str_eq(op, "<") {
                a < b
            } else {
                false
            }
        },
        None => {
            if str_eq(op, "=") {
                str_eq(l.as_str(), r.as_str())
            } else if str_eq(op, ">") {
                crate::text::str_lt(r.as_str(), l.as_str())
            } else if str_eq(op, "<") {
                crate::text::str_lt(l.as_str(), r.as_str())
            } else {
                false
            }
        },
    }
}

/// Decide whether a row satisfies a predicate expression.
pub fn eval(schema: &Schema, expr: &Expr, row: &Row) -> (r: bool)
    ensures
        r == spec_eval(schema@, expr@, row@),
    decreases expr,
{
    match expr {
        Expr::Column(_) => true,
        Expr::Value(_) => true,
        Expr::Varchar(_) => true,
        Expr::And(l, r) => eval(schema, l, row) && eval(schema, r, row),
        Expr::Or(l, r) => eval(schema, l, row) || eval(schema, r, row),
        Expr::Not(e0) => !eval(schema, e0, row),
        Expr::Comparison(l, op, r) => {
            let lv = resolve(schema, l, row);
            let rv = resolve(schema, r, row);
            match (lv, rv) {
                (Some(a), Some(b)) => compare_values(op.as_str(), &a, &b),
                _ => false,
            }
        },
    }
}

} // verus!
