use minisql::database::{Database, DatabaseError};
use minisql::datatype::{DataType, DataTypesErr};
use minisql::query_parser::{Query, QueryParser, QueryParserError, SelectCols};
use minisql::table::Table;
use minisql::utils;

#[test]
fn catalog_create_guards_duplicates() {
    let mut d = Database::init();
    d.new("demo").unwrap();
    assert_eq!(
        d.new("demo"),
        Err(DatabaseError::DuplicatedDB("demo".to_string()))
    );
    assert!(d.exists_db("demo"));
    assert_eq!(d.get_dbs(), vec!["demo".to_string()]);
}

#[test]
fn catalog_drop_requires_existence() {
    let mut d = Database::init();
    assert_eq!(
        d.drop("demo"),
        Err(DatabaseError::NotFound("demo".to_string()))
    );
    d.new("demo").unwrap();
    d.drop("demo").unwrap();
    assert!(!d.exists_db("demo"));
}

#[test]
fn current_database_pointer_is_revalidated() {
    let mut d = Database::init();
    assert!(d.get_curr_db().is_err());
    assert_eq!(
        d.use_db("demo"),
        Err(DatabaseError::NotFound("demo".to_string()))
    );
    d.new("demo").unwrap();
    d.use_db("demo").unwrap();
    assert_eq!(d.get_curr_db(), Ok("demo".to_string()));
    // dropping the selected database leaves the pointer dangling, and the
    // next read reports it
    d.drop("demo").unwrap();
    assert_eq!(
        d.get_curr_db(),
        Err(DatabaseError::NotFound("demo".to_string()))
    );
}

#[test]
fn table_listing_keeps_schema_documents_only() {
    let mut d = Database::init();
    d.new("demo").unwrap();
    let files = vec![
        "users.schema.json".to_string(),
        "users.json".to_string(),
        "orders.schema.json".to_string(),
        "notes.txt".to_string(),
    ];
    let tables = d.get_db_tables("demo", &files).unwrap();
    assert_eq!(tables, vec!["users".to_string(), "orders".to_string()]);
    assert_eq!(
        d.get_db_tables("ghost", &files),
        Err(DatabaseError::NotFound("ghost".to_string()))
    );
}

#[test]
fn document_paths_follow_the_layout() {
    assert_eq!(utils::get_db_path("demo"), "./sql/demo".to_string());
    assert_eq!(utils::schema_file("user"), "user.schema.json".to_string());
    assert_eq!(utils::table_file("user"), "user.json".to_string());
    let t = Table::new("demo".to_string(), "user".to_string());
    assert_eq!(
        utils::get_schema_path(&t),
        "./sql/demo/user.schema.json".to_string()
    );
    assert_eq!(utils::get_table_path(&t), "./sql/demo/user.json".to_string());
}

#[test]
fn column_list_helpers_trim_tokens() {
    assert_eq!(utils::get_cols(" * "), SelectCols::All);
    assert_eq!(
        utils::get_cols("a, b ,c"),
        SelectCols::Cols(vec!["a".to_string(), "b".to_string(), "c".to_string()])
    );
    assert_eq!(
        utils::get_comma_separated_values("(1, 2), x"),
        vec!["1".to_string(), "2".to_string(), "x".to_string()]
    );
}

#[test]
fn unknown_database_action_is_reported() {
    assert_eq!(
        QueryParser::parse("enter database demo"),
        Err(QueryParserError::InvalidDBAction("enter".to_string()))
    );
}

#[test]
fn table_action_without_entries_is_invalid() {
    // a CREATE TABLE without an entry list falls through to the generic
    // table rule, which accepts only drop and truncate
    assert_eq!(
        QueryParser::parse("CREATE TABLE demo"),
        Err(QueryParserError::InvalidTableAction("CREATE".to_string()))
    );
}

#[test]
fn unrecognized_statement_is_a_bad_query() {
    assert_eq!(
        QueryParser::parse("  hello world  "),
        Err(QueryParserError::BadQuery("hello world".to_string()))
    );
    assert_eq!(
        QueryParser::parse("SHOW EVERYTHING"),
        Err(QueryParserError::BadQuery("SHOW EVERYTHING".to_string()))
    );
    assert_eq!(
        QueryParser::parse(""),
        Err(QueryParserError::BadQuery("".to_string()))
    );
}

#[test]
fn structurally_broken_condition_is_invalid() {
    assert_eq!(
        QueryParser::parse("DELETE FROM t WHERE ="),
        Err(QueryParserError::InvalidCondition("=".to_string()))
    );
}

#[test]
fn bad_type_token_surfaces_through_alter() {
    assert_eq!(
        QueryParser::parse("ALTER TABLE t ALTER COLUMN c cool"),
        Err(QueryParserError::DataTypeErr(DataTypesErr::InvalidType(
            "cool".to_string()
        )))
    );
}

#[test]
fn quoted_condition_values_are_stripped() {
    let q = QueryParser::parse("DELETE FROM t WHERE name = \"jone\"").unwrap();
    if let Query::Table {
        query: minisql::query_parser::TableQuery::Delete { condition },
        ..
    } = q
    {
        assert_eq!(condition.value, "jone".to_string());
    } else {
        panic!("Unexpected query");
    }
}

#[test]
fn integer_literals_respect_the_64_bit_range() {
    let int = DataType::INT;
    assert!(int.is_valid("9223372036854775807").is_ok());
    assert!(int.is_valid("-9223372036854775808").is_ok());
    assert!(int.is_valid("+42").is_ok());
    assert!(int.is_valid("9223372036854775808").is_err());
    assert!(int.is_valid("").is_err());
    assert!(int.is_valid("1.5").is_err());
}

#[test]
fn float_literals_follow_the_float_grammar() {
    let f = DataType::FLOAT;
    assert!(f.is_valid("1e5").is_ok());
    assert!(f.is_valid(".5").is_ok());
    assert!(f.is_valid("3.").is_ok());
    assert!(f.is_valid("-2.5E-3").is_ok());
    assert!(f.is_valid("inf").is_ok());
    assert!(f.is_valid("NaN").is_ok());
    assert!(f.is_valid("1e").is_err());
    assert!(f.is_valid(".").is_err());
    assert!(f.is_valid("1.2.3").is_err());
}

#[test]
fn boolean_literals_are_exact() {
    let b = DataType::BOOL;
    assert!(b.is_valid("true").is_ok());
    assert!(b.is_valid("false").is_ok());
    assert!(b.is_valid("True").is_err());
    assert!(b.is_valid("0").is_err());
}

#[test]
fn defaults_follow_the_declared_type() {
    assert_eq!(DataType::INT.default_value(), "0".to_string());
    assert_eq!(DataType::DEC.default_value(), "0.0".to_string());
    assert_eq!(DataType::TEXT.default_value(), "".to_string());
    assert_eq!(
        DataType::ENUM(vec!["a".to_string(), "b".to_string()]).default_value(),
        "a".to_string()
    );
    assert_eq!(DataType::BOOLEAN.default_value(), "false".to_string());
}

#[test]
fn oversized_varchar_size_is_refused() {
    let r = DataType::parse("varchar(99999999999999999999999999)");
    assert!(matches!(r, Err(DataTypesErr::InvalidVarchar(_))));
}
