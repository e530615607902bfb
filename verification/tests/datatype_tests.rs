use minisql::datatype::{DataType, DataTypesErr};

#[test]
fn should_convert_datatypes_as_str() {
    assert_eq!(DataType::BOOL.as_string(), "BOOL");
    assert_eq!(DataType::INTEGER.as_string(), "INTEGER");
    assert_eq!(DataType::VARCHAR(12).as_string(), "VARCHAR(12)");
}

#[test]
fn parse_as_integer() {
    let dt = DataType::parse(" INTEGER ");
    assert!(dt.is_ok());
    assert_eq!(dt.unwrap(), DataType::INTEGER);

    let dt = DataType::parse(" int ");
    assert!(dt.is_ok());
    assert_eq!(dt.unwrap(), DataType::INT)
}

#[test]
fn parse_as_bool() {
    let dt = DataType::parse(" BOOL ");
    assert!(dt.is_ok());
    assert_eq!(dt.unwrap(), DataType::BOOL)
}

#[test]
fn parse_invalid_type() {
    let dt = DataType::parse(" Cool ");
    assert!(dt.is_err());
    assert_eq!(dt, Err(DataTypesErr::InvalidType("Cool".into())));
}

#[test]
fn parse_varchar_with_size() {
    let dt = DataType::parse("varchar(12)").unwrap();
    assert_eq!(dt, DataType::VARCHAR(12));
}

#[test]
fn parse_varchar_with_default_size() {
    let dt = DataType::parse("varchar").unwrap();
    assert_eq!(dt, DataType::VARCHAR(255));
}

#[test]
fn parse_enum_values() {
    let dt = DataType::parse("ENUM(1, 2, 3)").unwrap();
    assert_eq!(dt, DataType::ENUM(vec!["1".into(), "2".into(), "3".into()]));
}

#[test]
fn parse_enum_values_with_single_quotes() {
    let dt = DataType::parse("ENUM('HUMAND', 'ALIEN')").unwrap();
    assert_eq!(dt, DataType::ENUM(vec!["HUMAND".into(), "ALIEN".into(),]));
}

#[test]
fn parse_enum_values_with_douple_quotes() {
    let dt = DataType::parse(r#"ENUM("HUMAND", "ALIEN")"#).unwrap();
    assert_eq!(dt, DataType::ENUM(vec!["HUMAND".into(), "ALIEN".into(),]));
}

#[test]
fn parse_enum_values_with_no_quotes() {
    let dt = DataType::parse(r#"ENUM(HUMAND, ALIEN)"#).unwrap();
    assert_eq!(dt, DataType::ENUM(vec!["HUMAND".into(), "ALIEN".into(),]));
}

#[test]
fn validate_datatypes() {
    let datatypes = [
        (DataType::BOOLEAN, "true"),
        (DataType::FLOAT, "1.00"),
        (
            DataType::ENUM(vec!["HUMAN".into(), "ALIAN".into()]),
            "HUMAN",
        ),
        (DataType::INTEGER, "21"),
    ];

    datatypes
        .into_iter()
        .for_each(|(dtype, value)| assert!(dtype.is_valid(value).is_ok()))
}

#[test]
fn check_invalid_datatypes() {
    let datatypes = [
        (
            DataType::BOOLEAN,
            "something",
            DataTypesErr::InvalidBool("`something` is not a valid boolean".into()),
        ),
        (
            DataType::FLOAT,
            "str",
            DataTypesErr::InvalidFloat("'str' is not a valid FLOAT".into()),
        ),
        (
            DataType::ENUM(vec!["HUMAN".into(), "ALIAN".into()]),
            "ANIMAL",
            DataTypesErr::InvalidEnum(
                "`ANIMAL` is not valid enum. must be one of these [\"HUMAN\", \"ALIAN\"]"
                    .into(),
            ),
        ),
        (
            DataType::INTEGER,
            "int",
            DataTypesErr::InvalidInt("'int' is not a valid INTEGER".into()),
        ),
    ];

    datatypes
        .into_iter()
        .for_each(|(dtype, value, err_msg)| assert_eq!(dtype.is_valid(value), Err(err_msg)))
}
