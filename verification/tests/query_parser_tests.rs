use minisql::datatype::DataType;
use minisql::query_parser::{
    Condition, DatabaseAction, Operator, Query, QueryParser, QueryParserError, SelectCols,
    TableQuery,
};

#[test]
fn create_database() {
    let all_caps = QueryParser::parse("CREATE DATABASE demo").unwrap();
    let all_lowercase = QueryParser::parse("create database demo").unwrap();

    assert_eq!(
        all_caps,
        Query::Database {
            name: "demo".to_string(),
            action: DatabaseAction::Create
        }
    );

    assert_eq!(
        all_lowercase,
        Query::Database {
            name: "demo".to_string(),
            action: DatabaseAction::Create
        }
    );
}

#[test]
fn drop_database() {
    let query = QueryParser::parse("DROP DATABASE demo").unwrap();

    assert_eq!(
        query,
        Query::Database {
            name: "demo".to_string(),
            action: DatabaseAction::Drop
        }
    );
}

#[test]
fn use_database() {
    let query = QueryParser::parse("USE DATABASE demo").unwrap();

    assert_eq!(
        query,
        Query::Database {
            name: "demo".to_string(),
            action: DatabaseAction::Use
        }
    );
}

#[test]
fn create_table_one_line_query() {
    let query = QueryParser::parse("CREATE TABLE user(id int, name varchar, age int)").unwrap();
    if let Query::Table {
        name,
        query: TableQuery::Create { cols, types },
    } = query
    {
        assert_eq!(name, "user".to_string());
        assert_eq!(cols[0], "id".to_string());
        assert_eq!(cols[1], "name".to_string());
        assert_eq!(cols[2], "age".to_string());
        assert_eq!(types[0], "int".to_string());
        assert_eq!(types[1], "varchar".to_string());
        assert_eq!(types[2], "int".to_string());
    } else {
        panic!("Unexpected query");
    }
}

#[test]
fn create_table_multi_line_query() {
    let query = QueryParser::parse(
        r#"CREATE TABLE t_name (
                column1 datatype1,
                column2 datatype2,
                column3 datatype3,
               );"#,
    )
    .unwrap();
    if let Query::Table {
        name,
        query: TableQuery::Create { cols, types },
    } = query
    {
        assert_eq!(name, "t_name".to_string());
        assert_eq!(cols[0], "column1".to_string());
        assert_eq!(cols[1], "column2".to_string());
        assert_eq!(cols[2], "column3".to_string());
        assert_eq!(types[0], "datatype1".to_string());
        assert_eq!(types[1], "datatype2".to_string());
        assert_eq!(types[2], "datatype3".to_string());
    } else {
        panic!("Unexpected query");
    }
}

#[test]
fn drop_table() {
    let query = QueryParser::parse(r#"DROP TABLE demo"#).unwrap();
    if let Query::Table {
        name,
        query: TableQuery::DropTable,
    } = query
    {
        assert_eq!(name, "demo".to_string());
    } else {
        panic!("Unexpected query")
    }
}

#[test]
fn truncate_table() {
    let query = QueryParser::parse(r#"TRUNCATE TABLE demo"#).unwrap();
    if let Query::Table {
        name,
        query: TableQuery::Truncate,
    } = query
    {
        assert_eq!(name, "demo".to_string());
    } else {
        panic!("Unexpted query")
    }
}

#[test]
fn drop_col() {
    let query = QueryParser::parse("ALTER TABLE demo DROP COLUMN id").unwrap();

    if let Query::Table {
        name,
        query: TableQuery::DropCol(col),
    } = query
    {
        assert_eq!(name, "demo".to_string());
        assert_eq!(col, "id".to_string());
    } else {
        panic!("Unexpted query")
    }
}

#[test]
fn alter_col() {
    let query = QueryParser::parse("ALTER TABLE demo ALTER COLUMN id int").unwrap();

    if let Query::Table {
        name,
        query: TableQuery::AlterCol { col_name, datatype },
    } = query
    {
        assert_eq!(name, "demo".to_string());
        assert_eq!(col_name, "id".to_string());
        assert_eq!(datatype, DataType::INT);
    } else {
        panic!("Unexpted query")
    }
}

#[test]
fn add_col() {
    let query = QueryParser::parse("ALTER TABLE demo ADD id TEXT").unwrap();

    if let Query::Table {
        name,
        query: TableQuery::AddCol { col_name, datatype },
    } = query
    {
        assert_eq!(name, "demo".to_string());
        assert_eq!(col_name, "id".to_string());
        assert_eq!(datatype, DataType::TEXT);
    } else {
        panic!("Unexpted query")
    }
}

#[test]
fn parse_select_statment_with_condition() {
    let query = QueryParser::parse("SELECT id,name FROM user WHERE age >= 12").unwrap();

    if let Query::Table {
        name,
        query: TableQuery::Select { cols, condition },
    } = query
    {
        assert_eq!(name, "user".to_string());
        assert_eq!(cols, SelectCols::Cols(vec!["id".into(), "name".into()]));
        assert!(condition.is_some());
        assert_eq!(
            condition.unwrap(),
            Condition {
                key: "age".into(),
                value: "12".into(),
                operator: Operator::GtEq
            }
        );
    } else {
        panic!("Unexpected query")
    }
}

#[test]
fn parse_select_statment_with_all_cols_and_condition() {
    let query = QueryParser::parse("SELECT * FROM user WHERE age=12").unwrap();

    if let Query::Table {
        name,
        query: TableQuery::Select { cols, condition },
    } = query
    {
        assert_eq!(name, "user".to_string());
        assert_eq!(cols, SelectCols::All);
        assert!(condition.is_some());
        assert_eq!(
            condition.unwrap(),
            Condition {
                key: "age".into(),
                value: "12".into(),
                operator: Operator::Eq
            }
        );
    } else {
        panic!("Unexpected query")
    }
}

#[test]
fn parse_select_statment() {
    let query = QueryParser::parse("SELECT id,name FROM user").unwrap();

    if let Query::Table {
        name,
        query: TableQuery::Select { cols, condition },
    } = query
    {
        assert_eq!(name, "user".to_string());
        assert_eq!(cols, SelectCols::Cols(vec!["id".into(), "name".into()]));
        assert!(condition.is_none());
    } else {
        panic!("Unexpected query")
    }
}

#[test]
fn insert_statment_with_no_cols_and_one_value() {
    let query = QueryParser::parse("INSERT INTO table_name VALUES (value1, value2);").unwrap();

    if let Query::Table {
        name,
        query: TableQuery::Insert { cols, values },
    } = query
    {
        assert_eq!(name, "table_name".to_string());
        assert_eq!(cols, SelectCols::All);
        assert_eq!(
            values,
            vec![vec!["value1".to_string(), "value2".to_string()]]
        );
    } else {
        panic!("Unexpected query")
    }
}

#[test]
fn insert_statment_with_no_cols_and_many_value() {
    let query = QueryParser::parse(
        "INSERT INTO user VALUES (val1, val2), (val3, val4) (val5, val6);
        ",
    )
    .unwrap();

    let expected_values = vec![
        vec!["val1".to_string(), "val2".to_string()],
        vec!["val3".to_string(), "val4".to_string()],
        vec!["val5".to_string(), "val6".to_string()],
    ];

    if let Query::Table {
        name,
        query: TableQuery::Insert { cols, values },
    } = query
    {
        assert_eq!(name, "user".to_string());
        assert_eq!(cols, SelectCols::All);
        assert_eq!(values, expected_values);
    } else {
        panic!("Unexpected query")
    }
}

#[test]
fn insert_statment_with_cols_and_many_value() {
    let query = QueryParser::parse(
        "INSERT INTO table_name (a,b) VALUES(1,2),(3, 4),(5, 6);
        ",
    )
    .unwrap();

    let expected_values = vec![
        vec!["1".to_string(), "2".to_string()],
        vec!["3".to_string(), "4".to_string()],
        vec!["5".to_string(), "6".to_string()],
    ];

    if let Query::Table {
        name,
        query: TableQuery::Insert { cols, values },
    } = query
    {
        assert_eq!(name, "table_name".to_string());
        assert_eq!(
            cols,
            SelectCols::Cols(vec!["a".to_string(), "b".to_string()])
        );
        assert_eq!(values, expected_values);
    } else {
        panic!("Unexpected query")
    }
}

#[test]
fn delete_from_table() {
    let query = QueryParser::parse(
        "DELETE FROM table_name WHERE name = jone;
        ",
    )
    .unwrap();

    if let Query::Table {
        name,
        query: TableQuery::Delete { condition },
    } = query
    {
        assert_eq!(name, "table_name".to_string());
        assert_eq!(
            condition,
            Condition {
                key: "name".into(),
                value: "jone".into(),
                operator: Operator::Eq
            }
        );
    } else {
        panic!("Unexpected query")
    }
}

#[test]
fn show_queries() {
    let show_dbs = QueryParser::parse("SHOW DATABASES").unwrap();
    let show_curr_db = QueryParser::parse("SHOW CURRENT DATABASE").unwrap();
    let show_tables = QueryParser::parse("SHOW TABLES").unwrap();

    assert_eq!(show_dbs, Query::ShowAllDBs);
    assert_eq!(show_curr_db, Query::ShowCurrDB);
    assert_eq!(show_tables, Query::ShowTables);
}

#[test]
fn parse_eq_condition() {
    let con = Condition::parse("name = jone").unwrap();

    assert_eq!(
        con,
        Condition {
            key: "name".into(),
            value: "jone".into(),
            operator: Operator::Eq
        }
    )
}

#[test]
fn parse_less_than_or_equal_condition() {
    let con = Condition::parse("age <= 21").unwrap();
    assert_eq!(
        con,
        Condition {
            key: "age".into(),
            value: "21".into(),
            operator: Operator::LtEq
        }
    )
}

#[test]
fn parse_invalid_condition() {
    let con = Condition::parse("age !! 21");
    assert_eq!(con, Err(QueryParserError::InvalidOperator("!!".into())));
}
