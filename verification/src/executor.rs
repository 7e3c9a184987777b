//! Plan building and pull-driven execution over the fixed schema
//! `id, name, role, salary`.

use vstd::prelude::*;

use crate::Error;
use crate::eval::Schema;
use crate::eval::find_col;
use crate::operators::Filter;
use crate::operators::Limit;
use crate::operators::Operator;
use crate::operators::Pipeline;
use crate::operators::Project;
use crate::operators::RowV;
use crate::operators::Scan;
use crate::operators::Sort;
use crate::operators::filtered;
use crate::operators::row_views;
use crate::operators::sort_rows;
use crate::operators::spec_project_row;
use crate::operators::take_at_most;
use crate::row::Row;
use crate::sql::Expr;
use crate::sql::ExprV;
use crate::sql::Query;
use crate::sql::QueryV;

verus! {

/// The one supported table shape: `id, name, role, salary` at positions
/// zero to three.
pub open spec fn fixed_schema() -> Seq<Seq<char>> {
    seq!["id"@, "name"@, "role"@, "salary"@]
}

/// Every column name a predicate expression mentions lies in the schema.
pub open spec fn expr_cols_ok(schema: Seq<Seq<char>>, e: ExprV) -> bool
    decreases e,
{
    match e {
        ExprV::Column(name) => find_col(schema, name) is Some,
        ExprV::Value(_) => true,
        ExprV::Varchar(_) => true,
        ExprV::Comparison(l, _, r) => expr_cols_ok(schema, *l) && expr_cols_ok(schema, *r),
        ExprV::And(l, r) => expr_cols_ok(schema, *l) && expr_cols_ok(schema, *r),
        ExprV::Or(l, r) => expr_cols_ok(schema, *l) && expr_cols_ok(schema, *r),
        ExprV::Not(e0) => expr_cols_ok(schema, *e0),
    }
}

/// The schema positions of a list of column names; meaningful only when each
/// name is in the schema.
pub open spec fn col_indices(schema: Seq<Seq<char>>, names: Seq<Seq<char>>) -> Seq<usize> {
    names.map_values(|n: Seq<char>| find_col(schema, n).unwrap() as usize)
}

/// A limit clamped to what a count of rows can be: negative keeps nothing,
/// and beyond the address space nothing is cut off.
pub open spec fn clamp_limit(n: int) -> int {
    if n < 0 {
        0
    } else if n > usize::MAX as int {
        usize::MAX as int
    } else {
        n
    }
}

/// What a query means over a data set: the rows that pass the filter, in key
/// order if one is asked for, cut to the limit, and projected to the
/// requested columns -- in that fixed order, whatever the clause order in the
/// source text. `None` is a schema mismatch: some referenced column is not in
/// the schema. A negative limit keeps nothing.
pub open spec fn query_output(schema: Seq<Seq<char>>, q: QueryV, data: Seq<RowV>) -> Option<
    Seq<RowV>,
> {
    let filter_ok = match q.filter {
        Some(e) => expr_cols_ok(schema, e),
        None => true,
    };
    let order_ok = match q.order_by {
        Some(c) => find_col(schema, c) is Some,
        None => true,
    };
    let cols_ok = forall|i: int|
        0 <= i < q.columns.len() ==> find_col(schema, #[trigger] q.columns[i]) is Some;
    if filter_ok && order_ok && cols_ok {
        let after_filter = match q.filter {
            Some(e) => filtered(schema, e, data),
            None => data,
        };
        let after_sort = match q.order_by {
            Some(c) => sort_rows(after_filter, find_col(schema, c).unwrap()),
            None => after_filter,
        };
        let after_limit = match q.limit {
            Some(n) => take_at_most(after_sort, clamp_limit(n)),
            None => after_sort,
        };
        Some(
            after_limit.map_values(
                |row: RowV| spec_project_row(col_indices(schema, q.columns), row),
            ),
        )
    } else {
        None
    }
}

/// Check every column name of a predicate expression against the schema.
fn expr_cols_check(schema: &Schema, e: &Expr) -> (r: bool)
    ensures
        r == expr_cols_ok(schema@, e@),
    decreases e,
{
    match e {
        Expr::Column(name) => match schema.resolve(name.as_str()) {
            Some(_) => true,
            None => false,
        },
        Expr::Value(_) => true,
        Expr::Varchar(_) => true,
        Expr::Comparison(l, _, r) => expr_cols_check(schema, l) && expr_cols_check(schema, r),
        Expr::And(l, r) => expr_cols_check(schema, l) && expr_cols_check(schema, r),
        Expr::Or(l, r) => expr_cols_check(schema, l) && expr_cols_check(schema, r),
        Expr::Not(e0) => expr_cols_check(schema, e0),
    }
}

impl Clone for Schema {
    /// A clone keeps every column name.
    fn clone(&self) -> (r: Self)
        ensures
            r@ == self@,
    {
        let mut v: Vec<String> = Vec::new();
        let mut i: usize = 0;
        while i < self.columns.len()
            invariant
                i <= self.columns@.len(),
                v@.len() == i,
                forall|j: int| 0 <= j < i ==> (#[trigger] v@[j])@ == self.columns@[j]@,
            decreases self.columns@.len() - i,
        {
            v.push(self.columns[i].clone());
            i = i + 1;
        }
        let r = Schema { columns: v };
        proof {
            assert(r@ =~= self@);
        }
        r
    }
}

/// Builds and drives query plans over the fixed schema.
#[derive(Default)]
pub struct QueryExecutor {}

impl QueryExecutor {
    pub fn new() -> (r: Self)
        ensures
            true,
    {
        Self {  }
    }

    /// Drive a pipeline from open to exhaustion and close it, collecting
    /// every produced row in order.
    pub fn execute(pipeline: Pipeline) -> (r: Vec<Row>)
        requires
            pipeline.wf(),
        ensures
            row_views(r@) == pipeline.after_open(),
    {
        let mut pipeline = pipeline;
        let ghost total = pipeline.after_open();
        pipeline.open();
        let mut results: Vec<Row> = Vec::new();
        loop
            invariant_except_break
                pipeline.wf(),
                row_views(results@) + pipeline.remaining() =~= total,
            ensures
                pipeline.wf(),
                row_views(results@) == total,
            decreases pipeline.remaining().len(),
        {
            let ghost rv = row_views(results@);
            match pipeline.next() {
                Some(row) => {
                    results.push(row);
                    proof {
                        assert(row_views(results@) =~= rv + seq![results@.last()@]);
                        assert(row_views(results@) + pipeline.remaining() =~= total);
                    }
                },
                None => {
                    proof {
                        assert(row_views(results@) =~= total);
                    }
                    break;
                },
            }
        }
        pipeline.close();
        results
    }

    /// Assemble the operator pipeline for a query over the given data:
    /// Scan, then Filter, Sort and Limit where the query asks for them, and
    /// Project last. A column name outside the fixed schema is a planning
    /// error.
    pub fn plan(&mut self, query: Query, data: Vec<Row>) -> (r: Result<Pipeline, Error>)
        ensures
            match query_output(fixed_schema(), query@, row_views(data@)) {
                Some(rows) => r matches Ok(p) && p.wf() && p.after_open() == rows,
                None => r matches Err(e) && e == Error::SchemaMismatch,
            },
    {
        let ghost q = query@;
        let ghost data_rows = row_views(data@);
        let schema = Schema::new(
            vec![
                "id".to_owned(),
                "name".to_owned(),
                "role".to_owned(),
                "salary".to_owned(),
            ],
        );
        proof {
            assert(schema@ =~= fixed_schema());
        }
        let mut pipeline = Pipeline::Scan(Scan::new(data.as_slice()));
        proof {
            assert(pipeline.wf());
            assert(pipeline.after_open() == data_rows);
        }
        match query {
            Query::Select { columns, table: _, filter, order_by, limit } => {
                let ghost after_filter = match q.filter {
                    Some(e) => filtered(fixed_schema(), e, data_rows),
                    None => data_rows,
                };
                if let Some(expr) = filter {
                    if !expr_cols_check(&schema, &expr) {
                        return Err(Error::SchemaMismatch);
                    }
                    pipeline = Pipeline::Filter(Filter::new(pipeline, expr, schema.clone()));
                    proof {
                        assert(pipeline.after_open() == after_filter);
                    }
                }
                let ghost after_sort = match q.order_by {
                    Some(c) => sort_rows(after_filter, find_col(fixed_schema(), c).unwrap()),
                    None => after_filter,
                };
                if let Some(ref column) = order_by {
                    match schema.resolve(column.as_str()) {
                        Some(column_index) => {
                            pipeline = Pipeline::Sort(Sort::new(pipeline, column_index));
                            proof {
                                assert(pipeline.after_open() == after_sort);
                            }
                        },
                        None => {
                            return Err(Error::SchemaMismatch);
                        },
                    }
                }
                let ghost after_limit = match q.limit {
                    Some(n) => take_at_most(after_sort, clamp_limit(n)),
                    None => after_sort,
                };
                if let Some(limit) = limit {
                    let capped: usize = if limit < 0 {
                        0
                    } else if (limit as u64) > (usize::MAX as u64) {
                        usize::MAX
                    } else {
                        limit as usize
                    };
                    pipeline = Pipeline::Limit(Limit::new(pipeline, capped));
                    proof {
                        assert(pipeline.after_open() == after_limit);
                    }
                }
                let mut column_indices: Vec<usize> = Vec::new();
                let mut i: usize = 0;
                while i < columns.len()
                    invariant
                        q == query@,
                        data_rows == row_views(data@),
                        i <= columns@.len(),
                        schema@ == fixed_schema(),
                        column_indices@.len() == i,
                        forall|j: int|
                            0 <= j < i ==> find_col(fixed_schema(), #[trigger] q.columns[j])
                                is Some,
                        forall|j: int|
                            0 <= j < i ==> #[trigger] column_indices@[j] == find_col(
                                fixed_schema(),
                                q.columns[j],
                            ).unwrap() as usize,
                        q.columns == crate::sql::string_views(columns@),
                    decreases columns@.len() - i,
                {
                    match schema.resolve(columns[i].as_str()) {
                        Some(idx) => {
                            column_indices.push(idx);
                        },
                        None => {
                            proof {
                                assert(find_col(fixed_schema(), q.columns[i as int]) is None);
                            }
                            return Err(Error::SchemaMismatch);
                        },
                    }
                    i = i + 1;
                }
                proof {
                    assert(column_indices@ =~= col_indices(fixed_schema(), q.columns));
                }
                let projected = Pipeline::Project(
                    Project::new(pipeline, column_indices.as_slice()),
                );
                proof {
                    let spec_out = query_output(fixed_schema(), q, data_rows).unwrap();
                    assert(projected.after_open() =~= spec_out);
                }
                Ok(projected)
            },
        }
    }
}

} // verus!
