use minisql::datatype::{DataType, DataTypesErr};
use minisql::query_parser::{
    Condition, Operator, Query, QueryParser, SelectCols, TableQuery,
};
use minisql::table::{Row, Table, TableError};

fn demo_table() -> Table {
    let mut t = Table::new("demo".to_string(), "user".to_string());
    t.create(
        vec!["id".to_string(), "name".to_string()],
        vec![DataType::INT, DataType::VARCHAR(10)],
    );
    t
}

#[test]
fn create_table_resolves_declared_types() {
    // parsing a CREATE TABLE yields the raw column and type tokens, and the
    // type resolver turns them into INT and VARCHAR(255)
    let query = QueryParser::parse("CREATE TABLE t(id int, name varchar)").unwrap();
    if let Query::Table {
        name,
        query: TableQuery::Create { cols, types },
    } = query
    {
        assert_eq!(name, "t".to_string());
        assert_eq!(cols, vec!["id".to_string(), "name".to_string()]);
        let resolved: Vec<DataType> = types
            .iter()
            .map(|t| DataType::parse(t).unwrap())
            .collect();
        assert_eq!(resolved, vec![DataType::INT, DataType::VARCHAR(255)]);
    } else {
        panic!("Unexpected query");
    }
}

#[test]
fn select_with_tight_condition_text() {
    // the operator needs no spaces around it, and the key keeps no operator
    // characters
    let query = QueryParser::parse("SELECT a,b FROM t WHERE age>=12").unwrap();
    assert_eq!(
        query,
        Query::Table {
            name: "t".to_string(),
            query: TableQuery::Select {
                cols: SelectCols::Cols(vec!["a".to_string(), "b".to_string()]),
                condition: Some(Condition {
                    key: "age".to_string(),
                    value: "12".to_string(),
                    operator: Operator::GtEq
                }),
            },
        }
    );
}

#[test]
fn insert_without_column_list_is_all() {
    let query = QueryParser::parse("INSERT INTO t VALUES (1,2),(3,4)").unwrap();
    assert_eq!(
        query,
        Query::Table {
            name: "t".to_string(),
            query: TableQuery::Insert {
                cols: SelectCols::All,
                values: vec![
                    vec!["1".to_string(), "2".to_string()],
                    vec!["3".to_string(), "4".to_string()]
                ],
            },
        }
    );
}

#[test]
fn create_keeps_schema_lists() {
    // the schema read back after a create is exactly what went in
    let cols = vec!["id".to_string(), "name".to_string(), "age".to_string()];
    let types = vec![DataType::INT, DataType::TEXT, DataType::INTEGER];
    let mut t = Table::new("demo".to_string(), "user".to_string());
    t.create(cols.clone(), types.clone());
    assert_eq!(t.schema.cols, cols);
    assert_eq!(t.schema.types, types);
    assert_eq!(t.rows.len(), 0);
}

#[test]
fn add_then_remove_col_restores_schema() {
    let mut t = demo_table();
    let cols_before = t.schema.cols.clone();
    let types_before: Vec<String> = t.schema.types.iter().map(|d| d.as_string()).collect();
    t.add_col("age".to_string(), DataType::INT);
    assert_eq!(t.schema.cols.len(), 3);
    t.remove_col("age").unwrap();
    let types_after: Vec<String> = t.schema.types.iter().map(|d| d.as_string()).collect();
    assert_eq!(t.schema.cols, cols_before);
    assert_eq!(types_after, types_before);
}

#[test]
fn delete_with_missing_key_keeps_rows() {
    let mut t = demo_table();
    t.insert(
        SelectCols::All,
        vec![vec!["1".to_string(), "ada".to_string()]],
    )
    .unwrap();
    t.delete(Condition {
        key: "absent".to_string(),
        value: "1".to_string(),
        operator: Operator::Eq,
    });
    assert_eq!(t.rows.len(), 1);
    assert_eq!(t.rows[0].vals, vec!["1".to_string(), "ada".to_string()]);
}

#[test]
fn varchar_default_size_and_length_limit() {
    assert_eq!(DataType::parse("VARCHAR()").unwrap(), DataType::VARCHAR(255));
    let ten = DataType::VARCHAR(10);
    assert!(ten.is_valid("elevenchars").is_err());
    assert!(matches!(
        ten.is_valid("elevenchars"),
        Err(DataTypesErr::InvalidStr(_))
    ));
    assert!(ten.is_valid("tenchars10").is_ok());
}

#[test]
fn enum_accepts_member_and_rejects_other() {
    let e = DataType::parse("ENUM(a,b)").unwrap();
    assert_eq!(e, DataType::ENUM(vec!["a".to_string(), "b".to_string()]));
    assert!(e.is_valid("a").is_ok());
    assert!(matches!(e.is_valid("c"), Err(DataTypesErr::InvalidEnum(_))));
}

#[test]
fn ordering_is_lexicographic_even_for_integer_columns() {
    // "9" > "10" under the Gt operator, although both columns are INTEGER
    let mut t = Table::new("demo".to_string(), "nums".to_string());
    t.create(vec!["n".to_string()], vec![DataType::INTEGER]);
    t.insert(SelectCols::All, vec![vec!["9".to_string()], vec!["10".to_string()]])
        .unwrap();
    let gt = Condition {
        key: "n".to_string(),
        value: "10".to_string(),
        operator: Operator::Gt,
    };
    let nine = Row {
        cols: vec!["n".to_string()],
        vals: vec!["9".to_string()],
    };
    assert!(Table::match_query(&Some(gt.clone()), &nine));
    let hits = t.select(SelectCols::All, Some(gt)).unwrap();
    assert_eq!(hits.len(), 1);
    assert_eq!(hits[0].vals, vec!["9".to_string()]);
}

#[test]
fn insert_appends_rows_in_schema_order() {
    let mut t = demo_table();
    t.insert(
        SelectCols::All,
        vec![
            vec!["1".to_string(), "ada".to_string()],
            vec!["2".to_string(), "bob".to_string()],
        ],
    )
    .unwrap();
    assert_eq!(t.rows.len(), 2);
    assert_eq!(t.rows[0].cols, vec!["id".to_string(), "name".to_string()]);
    assert_eq!(t.rows[1].vals, vec!["2".to_string(), "bob".to_string()]);
}

#[test]
fn insert_arity_mismatch_names_row_and_lengths() {
    let mut t = demo_table();
    let r = t.insert(SelectCols::All, vec![vec!["1".to_string()]]);
    assert_eq!(
        r,
        Err(TableError::NumberMismatch(
            "[row = 0][[\"1\"]] validation expr 1 != 2".to_string()
        ))
    );
    assert_eq!(t.rows.len(), 0);
}

#[test]
fn insert_unknown_column_fails() {
    let mut t = demo_table();
    let r = t.insert(
        SelectCols::Cols(vec!["ghost".to_string()]),
        vec![vec!["1".to_string()]],
    );
    assert_eq!(r, Err(TableError::ColNotFound("ghost".to_string())));
}

#[test]
fn insert_validates_values_against_types() {
    let mut t = demo_table();
    let r = t.insert(
        SelectCols::All,
        vec![vec!["notanint".to_string(), "ada".to_string()]],
    );
    assert_eq!(
        r,
        Err(TableError::InvalidValue(DataTypesErr::InvalidInt(
            "'notanint' is not a valid INT".to_string()
        )))
    );
    let too_long = t.insert(
        SelectCols::All,
        vec![vec!["1".to_string(), "farlongerthanten".to_string()]],
    );
    assert!(matches!(
        too_long,
        Err(TableError::InvalidValue(DataTypesErr::InvalidStr(_)))
    ));
}

#[test]
fn select_projects_selected_columns() {
    let mut t = demo_table();
    t.insert(
        SelectCols::All,
        vec![
            vec!["1".to_string(), "ada".to_string()],
            vec!["2".to_string(), "bob".to_string()],
        ],
    )
    .unwrap();
    let rows = t
        .select(
            SelectCols::Cols(vec!["name".to_string()]),
            Some(Condition {
                key: "id".to_string(),
                value: "2".to_string(),
                operator: Operator::Eq,
            }),
        )
        .unwrap();
    assert_eq!(rows.len(), 1);
    assert_eq!(rows[0].cols, vec!["name".to_string()]);
    assert_eq!(rows[0].vals, vec!["bob".to_string()]);
}

#[test]
fn select_missing_column_is_hard_failure() {
    let mut t = demo_table();
    t.insert(
        SelectCols::All,
        vec![vec!["1".to_string(), "ada".to_string()]],
    )
    .unwrap();
    let r = t.select(SelectCols::Cols(vec!["ghost".to_string()]), None);
    assert_eq!(r, Err(TableError::ColNotFound("ghost".to_string())));
}

#[test]
fn delete_removes_matching_rows_only() {
    let mut t = demo_table();
    t.insert(
        SelectCols::All,
        vec![
            vec!["1".to_string(), "ada".to_string()],
            vec!["2".to_string(), "bob".to_string()],
        ],
    )
    .unwrap();
    t.delete(Condition {
        key: "id".to_string(),
        value: "1".to_string(),
        operator: Operator::Eq,
    });
    assert_eq!(t.rows.len(), 1);
    assert_eq!(t.rows[0].vals, vec!["2".to_string(), "bob".to_string()]);
}

#[test]
fn alter_replaces_type_at_position() {
    let mut t = demo_table();
    t.alter("name", DataType::TEXT).unwrap();
    assert_eq!(t.schema.types, vec![DataType::INT, DataType::TEXT]);
    assert_eq!(
        t.alter("ghost", DataType::TEXT),
        Err(TableError::ColNotFound("ghost".to_string()))
    );
}

#[test]
fn truncate_clears_rows_and_keeps_schema() {
    let mut t = demo_table();
    t.insert(
        SelectCols::All,
        vec![vec!["1".to_string(), "ada".to_string()]],
    )
    .unwrap();
    t.truncate();
    assert_eq!(t.rows.len(), 0);
    assert_eq!(t.schema.cols, vec!["id".to_string(), "name".to_string()]);
}

#[test]
fn remove_col_unknown_column_fails() {
    let mut t = demo_table();
    assert_eq!(
        t.remove_col("ghost"),
        Err(TableError::ColNotFound("ghost".to_string()))
    );
}

#[test]
fn match_query_without_condition_matches_everything() {
    let row = Row {
        cols: vec!["a".to_string()],
        vals: vec!["1".to_string()],
    };
    assert!(Table::match_query(&None, &row));
    // all six operators, on present keys, compare lexicographically
    let mk = |op| Condition {
        key: "a".to_string(),
        value: "1".to_string(),
        operator: op,
    };
    assert!(Table::match_query(&Some(mk(Operator::Eq)), &row));
    assert!(!Table::match_query(&Some(mk(Operator::NotEq)), &row));
    assert!(!Table::match_query(&Some(mk(Operator::Lt)), &row));
    assert!(Table::match_query(&Some(mk(Operator::LtEq)), &row));
    assert!(Table::match_query(&Some(mk(Operator::GtEq)), &row));
    assert!(!Table::match_query(&Some(mk(Operator::Gt)), &row));
}

#[test]
fn missing_type_entry_is_its_own_error() {
    // a schema whose type list is shorter than its column list reports the
    // unmatched column when its type is needed
    let mut t = Table::new("demo".to_string(), "user".to_string());
    t.create(
        vec!["id".to_string(), "name".to_string()],
        vec![DataType::INT],
    );
    assert_eq!(
        t.alter("name", DataType::TEXT),
        Err(TableError::ColTypeNotFound("name".to_string()))
    );
    assert_eq!(
        t.remove_col("name"),
        Err(TableError::ColTypeNotFound("name".to_string()))
    );
    let r = t.insert(
        SelectCols::Cols(vec!["name".to_string()]),
        vec![vec!["ada".to_string()]],
    );
    assert_eq!(r, Err(TableError::ColTypeNotFound("name".to_string())));
}

#[test]
fn insert_with_column_subset_binds_those_columns() {
    let mut t = demo_table();
    t.insert(
        SelectCols::Cols(vec!["name".to_string()]),
        vec![vec!["ada".to_string()]],
    )
    .unwrap();
    assert_eq!(t.rows.len(), 1);
    assert_eq!(t.rows[0].cols, vec!["name".to_string()]);
    assert_eq!(t.rows[0].vals, vec!["ada".to_string()]);
}
