use eocene::Error;
use eocene::Int64Row;
use eocene::Row;
use eocene::codegen::BinaryOperator;
use eocene::codegen::Operator;
use eocene::codegen::QueryCompiler;
use eocene::codegen::QueryPlan;
use eocene::codegen::lower;
use eocene::eval::Schema;
use eocene::eval::eval;
use eocene::sql::Expr;
use eocene::text::i64_to_string;

fn fixed_schema() -> Schema {
    Schema::new(vec![
        "id".to_string(),
        "name".to_string(),
        "role".to_string(),
        "salary".to_string(),
    ])
}

fn salary_above_9000() -> Expr {
    Expr::Comparison(
        Box::new(Expr::Column("salary".to_string())),
        ">".to_string(),
        Box::new(Expr::Value(9000)),
    )
}

fn rendered(row: &Int64Row) -> Row {
    let fields: Vec<String> = row.items.iter().map(|v| i64_to_string(*v)).collect();
    Row::new(&fields)
}

#[test]
fn lowered_filter_evaluates_rows() {
    let schema = fixed_schema();
    let compiled = lower(&schema, &salary_above_9000()).unwrap();
    assert_eq!(
        compiled,
        eocene::codegen::Expr::Comparison(
            BinaryOperator::GreaterThan,
            Box::new(eocene::codegen::Expr::Column(3)),
            Box::new(eocene::codegen::Expr::Value(9000)),
        )
    );
    assert!(compiled.matches(&Int64Row::new(&[1, 2, 3, 10000])));
    assert!(!compiled.matches(&Int64Row::new(&[1, 2, 3, 8000])));
}

#[test]
fn interpreted_and_compiled_paths_agree() {
    // the differential check: for each integer row, evaluating the compiled
    // filter equals evaluating the interpreted predicate over the row's
    // decimal rendering
    let schema = fixed_schema();
    let predicate = salary_above_9000();
    let compiled = lower(&schema, &predicate).unwrap();
    let rows = vec![
        Int64Row::new(&[1, 2, 3, 10000]),
        Int64Row::new(&[1, 2, 3, 9000]),
        Int64Row::new(&[1, 2, 3, 8000]),
        Int64Row::new(&[4, 5, 6, 9001]),
        Int64Row::new(&[7, 8, 9, -12]),
    ];
    for row in &rows {
        let interpreted = eval(&schema, &predicate, &rendered(row));
        let compiled_result = compiled.matches(row);
        assert_eq!(interpreted, compiled_result);
    }
}

#[test]
fn lowering_rejects_what_the_backend_cannot_take() {
    let schema = fixed_schema();
    // boolean connectives are outside the compiled subset
    let conjunction = Expr::And(
        Box::new(salary_above_9000()),
        Box::new(salary_above_9000()),
    );
    assert_eq!(
        lower(&schema, &conjunction).unwrap_err(),
        Error::UnsupportedExpression
    );
    // text literals are outside the compiled subset
    let text_compare = Expr::Comparison(
        Box::new(Expr::Column("name".to_string())),
        "=".to_string(),
        Box::new(Expr::Varchar("Ivy".to_string())),
    );
    assert_eq!(
        lower(&schema, &text_compare).unwrap_err(),
        Error::UnsupportedExpression
    );
    // a column outside the schema is a schema mismatch
    let unknown_column = Expr::Comparison(
        Box::new(Expr::Column("age".to_string())),
        ">".to_string(),
        Box::new(Expr::Value(30)),
    );
    assert_eq!(
        lower(&schema, &unknown_column).unwrap_err(),
        Error::SchemaMismatch
    );
}

#[test]
fn compiler_finalizes_an_entry_offset_and_buffer() {
    let schema = fixed_schema();
    let mut plan = QueryPlan::new();
    plan.push(Operator::Scan);
    plan.push(Operator::Filter(lower(&schema, &salary_above_9000()).unwrap()));
    let rows = vec![
        Int64Row::new(&[1, 2, 3, 10000]),
        Int64Row::new(&[1, 2, 3, 8000]),
    ];
    let compiler = QueryCompiler::new(plan, rows);
    let compiled = compiler.compile().unwrap();
    // the entry offset marks the start of this plan's code
    assert_eq!(compiled.0.0, 0);
    // no routine was emitted into the buffer yet
    assert_eq!(compiled.1.len(), 0);
}
