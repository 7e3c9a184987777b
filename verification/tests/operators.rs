use eocene::Row;
use eocene::eval::Schema;
use eocene::operators::Filter;
use eocene::operators::Join;
use eocene::operators::JoinOn;
use eocene::operators::Limit;
use eocene::operators::Operator;
use eocene::operators::Pipeline;
use eocene::operators::Project;
use eocene::operators::Scan;
use eocene::operators::Sort;
use eocene::sql::Expr;

fn fixed_schema() -> Schema {
    Schema::new(vec![
        "id".to_string(),
        "name".to_string(),
        "role".to_string(),
        "salary".to_string(),
    ])
}

fn col_equals(column: &str, text: &str) -> Expr {
    Expr::Comparison(
        Box::new(Expr::Column(column.to_string())),
        "=".to_string(),
        Box::new(Expr::Varchar(text.to_string())),
    )
}

#[test]
fn scan() {
    let rows = vec![Row::new(&["1".to_string(), "Alice".to_string()])];
    let mut scan = Box::new(Scan::new(&rows));

    // Interface methods
    scan.open();
    assert!(scan.next().is_some());
    scan.close();
}

#[test]
fn project() {
    let rows = vec![Row::new(&["1".to_string(), "Alice".to_string()])];
    let scan = Pipeline::Scan(Scan::new(&rows));
    let mut project = Project::new(scan, &[1]);

    // Interface methods
    project.open();
    assert!(project.next().is_some());
    project.close();
}

#[test]
fn filter() {
    let rows = vec![Row::new(&["1".to_string(), "Alice".to_string()])];
    let scan = Pipeline::Scan(Scan::new(&rows));
    let filter_expr = col_equals("id", "1");
    let mut filter = Box::new(Filter::new(scan, filter_expr, fixed_schema()));

    // Interface methods
    filter.open();
    assert!(filter.next().is_some());
    filter.close();
}

#[test]
fn limit() {
    let rows = vec![Row::new(&["1".to_string(), "Alice".to_string()])];
    let scan = Pipeline::Scan(Scan::new(&rows));
    let mut limit = Limit::new(scan, 1);

    limit.open();
    assert!(limit.next().is_some());
    limit.close();
}

#[test]
fn sort() {
    let rows = vec![Row::new(&["1".to_string(), "Alice".to_string()])];
    let scan = Pipeline::Scan(Scan::new(&rows));
    let mut sort = Sort::new(scan, 0);

    sort.open();
    assert!(sort.next().is_some());
    sort.close();
}

#[test]
fn join() {
    let left_rows = vec![
        Row::new(&["1".to_string(), "Alice".to_string()]),
        Row::new(&["2".to_string(), "Bob".to_string()]),
    ];
    let right_rows = vec![
        Row::new(&["1".to_string(), "A".to_string()]),
        Row::new(&["2".to_string(), "B".to_string()]),
    ];

    let left = Pipeline::Scan(Scan::new(&left_rows));
    let right = Pipeline::Scan(Scan::new(&right_rows));

    // Define a simple join condition
    let join_condition = JoinOn { left: 0, right: 0 };

    // Create the join operator
    let mut join = Join::new(left, right, join_condition);

    // Open the operators
    join.open();

    // Check that the operator conforms to the interface
    assert!(join.next().is_some(), "Join operator should return some rows");
    assert!(join.next().is_some(), "Join operator should return some rows");
    assert!(join.next().is_none(), "Join operator should return no more rows");

    // Close the operators
    join.close();
}

#[test]
fn scan_operator_returns_all_rows() {
    let rows = vec![
        Row::new(&["1".to_string(), "Alice".to_string()]),
        Row::new(&["2".to_string(), "Bob".to_string()]),
    ];
    let mut scan = Box::new(Scan::new(&rows));

    let mut result = vec![];
    while let Some(row) = scan.next() {
        result.push(row);
    }

    assert_eq!(result, rows);
}

#[test]
fn project_operator_returns_projected_columns() {
    let rows = vec![Row::new(&[
        "1".to_string(),
        "Alice".to_string(),
        "Engineer".to_string(),
    ])];
    let scan = Pipeline::Scan(Scan::new(&rows));
    let mut project = Project::new(scan, &[1, 2]);

    let projected_row = project.next().unwrap();

    assert_eq!(projected_row.get(0).unwrap(), "Alice");
    assert_eq!(projected_row.get(1).unwrap(), "Engineer");
    assert!(project.next().is_none());
}

#[test]
fn filter_operator_returns_rows_that_match() {
    let rows = vec![
        Row::new(&["1".to_string(), "Alice".to_string()]),
        Row::new(&["2".to_string(), "Bob".to_string()]),
    ];
    let scan = Pipeline::Scan(Scan::new(&rows));
    let mut filter = Box::new(Filter::new(scan, col_equals("id", "1"), fixed_schema()));

    let mut result = vec![];
    while let Some(row) = filter.next() {
        result.push(row);
    }

    assert_eq!(result.len(), 1);
    assert_eq!(result[0].get(0).unwrap(), "1");
    assert_eq!(result[0].get(1).unwrap(), "Alice");
}

#[test]
fn limit_operator_returns_limited_rows() {
    let rows = vec![
        Row::new(&["1".to_string(), "Alice".to_string()]),
        Row::new(&["2".to_string(), "Bob".to_string()]),
    ];
    let scan = Pipeline::Scan(Scan::new(&rows));
    let mut limit = Limit::new(scan, 1);

    let mut result = vec![];
    while let Some(row) = limit.next() {
        result.push(row);
    }

    assert_eq!(result.len(), 1);
    assert_eq!(result[0].get(0).unwrap(), "1");
    assert_eq!(result[0].get(1).unwrap(), "Alice");
}

#[test]
fn sort_operator_returns_sorted_rows() {
    let rows = vec![
        Row::new(&["9".to_string(), "Larry".to_string()]),
        Row::new(&["8".to_string(), "Peter".to_string()]),
        Row::new(&["7".to_string(), "Ted".to_string()]),
        Row::new(&["6".to_string(), "Carol".to_string()]),
        Row::new(&["5".to_string(), "Daniel".to_string()]),
        Row::new(&["4".to_string(), "Mallory".to_string()]),
        Row::new(&["3".to_string(), "Eve".to_string()]),
        Row::new(&["2".to_string(), "Bob".to_string()]),
        Row::new(&["1".to_string(), "Alice".to_string()]),
    ];

    // Sort by the first column (identifier)
    let scan = Pipeline::Scan(Scan::new(&rows));
    let mut sort_by_id = Sort::new(scan, 0);

    let mut result_by_id = vec![];
    while let Some(row) = sort_by_id.next() {
        result_by_id.push(row);
    }

    // Expected sorted order by identifier
    let expected_order_by_id = vec!["1", "2", "3", "4", "5", "6", "7", "8", "9"];

    assert_eq!(
        result_by_id
            .iter()
            .map(|r| r.get(0).unwrap())
            .collect::<Vec<&str>>(),
        expected_order_by_id
    );

    // Sort by the second column (name)
    let scan = Pipeline::Scan(Scan::new(&rows));
    let mut sort_by_name = Sort::new(scan, 1);

    let mut result_by_name = vec![];
    while let Some(row) = sort_by_name.next() {
        result_by_name.push(row);
    }

    // Expected sorted order by name
    let expected_order_by_name = vec![
        "Alice", "Bob", "Carol", "Daniel", "Eve", "Larry", "Mallory", "Peter", "Ted",
    ];

    assert_eq!(
        result_by_name
            .iter()
            .map(|r| r.get(1).unwrap())
            .collect::<Vec<&str>>(),
        expected_order_by_name
    );
}

#[test]
fn join_operator_returns_joined_rows() {
    let left_rows = vec![
        Row::new(&["1".to_string(), "Alice".to_string()]),
        Row::new(&["2".to_string(), "Bob".to_string()]),
    ];
    let right_rows = vec![
        Row::new(&["1".to_string(), "11000".to_string()]),
        Row::new(&["2".to_string(), "24000".to_string()]),
    ];

    let scan_left = Pipeline::Scan(Scan::new(&left_rows));
    let scan_right = Pipeline::Scan(Scan::new(&right_rows));

    let join_condition = JoinOn { left: 0, right: 0 };
    let mut join = Join::new(scan_left, scan_right, join_condition);

    join.open();

    let mut results = vec![];
    while let Some(row) = join.next() {
        results.push(row);
    }

    let expected = vec![
        Row::new(&[
            "1".to_string(),
            "Alice".to_string(),
            "1".to_string(),
            "11000".to_string(),
        ]),
        Row::new(&[
            "2".to_string(),
            "Bob".to_string(),
            "2".to_string(),
            "24000".to_string(),
        ]),
    ];

    assert_eq!(results, expected);
}

#[test]
fn scan_and_project_operators_chain_correctly() {
    let rows = vec![
        Row::new(&["1".to_string(), "Alice".to_string(), "Engineer".to_string()]),
        Row::new(&["2".to_string(), "Bob".to_string(), "Manager".to_string()]),
    ];
    let scan = Pipeline::Scan(Scan::new(&rows));
    let mut project = Project::new(scan, &[1]);

    let mut result = vec![];
    while let Some(row) = project.next() {
        result.push(row);
    }

    assert_eq!(result.len(), 2);
    assert_eq!(result[0].get(0).unwrap(), "Alice");
    assert_eq!(result[1].get(0).unwrap(), "Bob");
}

#[test]
fn filter_and_project_operators_chain_correctly() {
    let rows = vec![
        Row::new(&["1".to_string(), "Alice".to_string(), "Engineer".to_string()]),
        Row::new(&["2".to_string(), "Bob".to_string(), "Manager".to_string()]),
    ];
    let scan = Pipeline::Scan(Scan::new(&rows));
    let filter = Pipeline::Filter(Filter::new(scan, col_equals("id", "1"), fixed_schema()));
    let mut project = Project::new(filter, &[1]);

    let mut result = vec![];
    while let Some(row) = project.next() {
        result.push(row);
    }

    assert_eq!(result.len(), 1);
    assert_eq!(result[0].get(0).unwrap(), "Alice");
}

#[test]
fn limit_and_sort_operators_chain_correctly() {
    let rows = vec![
        Row::new(&["2".to_string(), "Bob".to_string()]),
        Row::new(&["1".to_string(), "Alice".to_string()]),
        Row::new(&["3".to_string(), "Carol".to_string()]),
    ];
    let scan = Pipeline::Scan(Scan::new(&rows));
    let sort = Pipeline::Sort(Sort::new(scan, 0));
    let mut limit = Limit::new(sort, 2);

    let mut result = vec![];
    while let Some(row) = limit.next() {
        result.push(row);
    }

    assert_eq!(result.len(), 2);
    assert_eq!(result[0].get(0).unwrap(), "1");
    assert_eq!(result[0].get(1).unwrap(), "Alice");
    assert_eq!(result[1].get(0).unwrap(), "2");
    assert_eq!(result[1].get(1).unwrap(), "Bob");
}

#[test]
fn most_operators_chain_correctly() {
    let employee_rows = vec![
        Row::new(&["1".to_string(), "Alice".to_string(), "Manager".to_string()]),
        Row::new(&["2".to_string(), "Bob".to_string(), "Engineer".to_string()]),
        Row::new(&[
            "3".to_string(),
            "Charlie".to_string(),
            "Manager".to_string(),
        ]),
        Row::new(&["4".to_string(), "David".to_string(), "Analyst".to_string()]),
        Row::new(&["5".to_string(), "Eve".to_string(), "Manager".to_string()]),
    ];

    // 1. Scan operator
    let scan = Pipeline::Scan(Scan::new(&employee_rows));

    // 2. Filter operator to keep only "Manager"
    let filter = Pipeline::Filter(Filter::new(
        scan,
        col_equals("role", "Manager"),
        fixed_schema(),
    ));

    // 3. Sort operator to sort by ID (assuming the ID is in the first column)
    let sort = Sort::new(filter, 0);

    // 4. Project operator to project only the Name column (assuming the Name
    //    is in the second column)
    let mut project = Project::new(Pipeline::Sort(sort), &[1]);

    // Open the operators
    project.open();

    // Collect results
    let mut results = vec![];
    while let Some(row) = project.next() {
        results.push(row);
    }

    // Close the operators
    project.close();

    // Expected output
    let expected_results = vec![
        Row::new(&["Alice".to_string()]),
        Row::new(&["Charlie".to_string()]),
        Row::new(&["Eve".to_string()]),
    ];

    // Assert the results are as expected
    assert_eq!(results, expected_results);
}
