use eocene::Row;
use eocene::Error;
use eocene::eval::Schema;
use eocene::eval::eval;
use eocene::sql::Expr;
use eocene::executor::QueryExecutor;
use eocene::sql::Parser;
use eocene::sql::Tokenizer;

fn employee_data() -> Vec<Row> {
    let mk = |fields: [&str; 4]| {
        Row::new(&[
            fields[0].to_string(),
            fields[1].to_string(),
            fields[2].to_string(),
            fields[3].to_string(),
        ])
    };
    vec![
        mk(["1", "Alice", "Manager", "12000"]),
        mk(["2", "Bob", "Developer", "10000"]),
        mk(["3", "Charlie", "Developer", "9000"]),
        mk(["4", "David", "Analyst", "11000"]),
        mk(["5", "Eve", "Manager", "13000"]),
        mk(["6", "Frank", "Developer", "9500"]),
        mk(["7", "Grace", "Analyst", "10500"]),
        mk(["8", "Hannah", "Developer", "9800"]),
        mk(["9", "Ivy", "Manager", "12500"]),
        mk(["10", "Jack", "Analyst", "10200"]),
    ]
}

fn run_query(text: &str, data: Vec<Row>) -> Vec<Row> {
    let tokens = Tokenizer::new(text).tokenize().unwrap();
    let query = Parser::new(tokens).parse().unwrap();
    let mut executor = QueryExecutor::new();
    let plan = executor.plan(query, data).unwrap();
    QueryExecutor::execute(plan)
}

fn single_field_rows(fields: &[&str]) -> Vec<Row> {
    fields.iter().map(|f| Row::new(&[f.to_string()])).collect()
}

#[test]
fn query_by_name_with_limit_yields_one_row() {
    let results = run_query("SELECT id FROM example WHERE name = 'Ivy' LIMIT 1", employee_data());
    assert_eq!(results, single_field_rows(&["9"]));
}

#[test]
fn query_by_role_yields_developers() {
    let results = run_query("SELECT name FROM employees WHERE role = 'Developer'", employee_data());
    assert_eq!(
        results,
        single_field_rows(&["Bob", "Charlie", "Frank", "Hannah"])
    );
}

#[test]
fn query_by_salary_with_limit_yields_first_three() {
    let results = run_query("SELECT id FROM employees WHERE salary > 9000 LIMIT 3", employee_data());
    assert_eq!(results, single_field_rows(&["1", "2", "4"]));
}

#[test]
fn query_with_order_by_sorts_by_name() {
    let results = run_query(
        "SELECT id FROM employees WHERE salary > 10000 ORDERBY name",
        employee_data(),
    );
    assert_eq!(results, single_field_rows(&["1", "4", "5", "7", "9", "10"]));
}

#[test]
fn limit_keeps_at_most_the_requested_rows() {
    // result length is the smaller of the limit and the row count
    let all = run_query("SELECT id FROM employees LIMIT 50", employee_data());
    assert_eq!(all.len(), 10);
    let some = run_query("SELECT id FROM employees LIMIT 4", employee_data());
    assert_eq!(some.len(), 4);
    let none = run_query("SELECT id FROM employees LIMIT 0", employee_data());
    assert_eq!(none.len(), 0);
}

#[test]
fn sort_then_limit_keeps_the_smallest_keys() {
    // ORDERBY then LIMIT keeps exactly the rows with the smallest keys
    let results = run_query("SELECT name FROM employees ORDERBY name LIMIT 3", employee_data());
    assert_eq!(results, single_field_rows(&["Alice", "Bob", "Charlie"]));
}

#[test]
fn sort_is_stable_for_equal_keys() {
    // two rows with the same role keep their scan order after sorting
    let data = vec![
        Row::new(&[
            "1".to_string(),
            "Alice".to_string(),
            "Manager".to_string(),
            "12000".to_string(),
        ]),
        Row::new(&[
            "2".to_string(),
            "Bob".to_string(),
            "Manager".to_string(),
            "10000".to_string(),
        ]),
        Row::new(&[
            "3".to_string(),
            "Carol".to_string(),
            "Analyst".to_string(),
            "9000".to_string(),
        ]),
    ];
    let results = run_query("SELECT id FROM t ORDERBY role", data);
    assert_eq!(results, single_field_rows(&["3", "1", "2"]));
}

#[test]
fn unknown_columns_are_schema_mismatches() {
    let plan_err = |text: &str| {
        let tokens = Tokenizer::new(text).tokenize().unwrap();
        let query = Parser::new(tokens).parse().unwrap();
        let mut executor = QueryExecutor::new();
        executor.plan(query, employee_data()).unwrap_err()
    };
    assert_eq!(plan_err("SELECT age FROM employees"), Error::SchemaMismatch);
    assert_eq!(
        plan_err("SELECT id FROM employees WHERE age > 30"),
        Error::SchemaMismatch
    );
    assert_eq!(
        plan_err("SELECT id FROM employees ORDERBY age"),
        Error::SchemaMismatch
    );
}

#[test]
fn comparisons_fall_back_to_text_order() {
    // name > 'Grace' compares lexicographically since names do not parse as
    // numbers
    let results = run_query("SELECT id FROM employees WHERE name > 'Grace'", employee_data());
    assert_eq!(results, single_field_rows(&["8", "9", "10"]));
}

#[test]
fn connectives_combine_predicates() {
    let results = run_query(
        "SELECT id FROM employees WHERE (role = 'Manager') AND (salary > 12200)",
        employee_data(),
    );
    assert_eq!(results, single_field_rows(&["5", "9"]));
}

#[test]
fn disjunction_combines_predicates() {
    let results = run_query(
        "SELECT id FROM employees WHERE (role = 'Manager') OR (salary < 9600)",
        employee_data(),
    );
    assert_eq!(results, single_field_rows(&["1", "3", "5", "6", "9"]));
}

#[test]
fn negation_inverts_a_predicate() {
    let schema = Schema::new(vec![
        "id".to_string(),
        "name".to_string(),
        "role".to_string(),
        "salary".to_string(),
    ]);
    let salary_high = Expr::Comparison(
        Box::new(Expr::Column("salary".to_string())),
        ">".to_string(),
        Box::new(Expr::Value(9000)),
    );
    let row = Row::new(&[
        "3".to_string(),
        "Charlie".to_string(),
        "Developer".to_string(),
        "9000".to_string(),
    ]);
    assert!(!eval(&schema, &salary_high, &row));
    assert!(eval(&schema, &Expr::Not(Box::new(salary_high)), &row));
}
