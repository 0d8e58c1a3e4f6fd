use minidb::catalog::{sys_pages_schema, sys_schema_schema};
use minidb::error::DbError;
use minidb::relation::schema::{Column, Schema};
use minidb::relation::tuple::Tuple;
use minidb::planner::bound_expr::BoundExpr;
use minidb::relation::types::{DataType, Value};
use minidb::sql::ast::BinaryOperator;

fn mixed_schema() -> Schema {
    Schema::new(vec![
        Column::new("id", DataType::BigInt, None),
        Column::new("age", DataType::Int, None),
        Column::new("active", DataType::Boolean, None),
        Column::new("name", DataType::Varchar, Some(32)),
    ])
}

#[test]
fn data_type_from_u8_accepts_the_four_codes() {
    assert_eq!(DataType::from_u8(0).unwrap(), DataType::BigInt);
    assert_eq!(DataType::from_u8(1).unwrap(), DataType::Int);
    assert_eq!(DataType::from_u8(2).unwrap(), DataType::Boolean);
    assert_eq!(DataType::from_u8(3).unwrap(), DataType::Varchar);
    for dt in [DataType::BigInt, DataType::Int, DataType::Boolean, DataType::Varchar] {
        assert_eq!(DataType::from_u8(dt.code()).unwrap(), dt);
    }
}

#[test]
fn data_type_from_u8_refuses_other_codes() {
    match DataType::from_u8(4) {
        Err(DbError::CorruptPage(msg)) => assert_eq!(msg, "invalid DataType discriminant: 4"),
        _ => panic!("expected CorruptPage"),
    }
    assert!(matches!(DataType::from_u8(255), Err(DbError::CorruptPage(_))));
}

#[test]
fn value_display_text() {
    assert_eq!(Value::BigInt(-42).to_string(), "-42");
    assert_eq!(Value::BigInt(i64::MIN).to_string(), "-9223372036854775808");
    assert_eq!(Value::BigInt(i64::MAX).to_string(), "9223372036854775807");
    assert_eq!(Value::Int(0).to_string(), "0");
    assert_eq!(Value::Int(1234567).to_string(), "1234567");
    assert_eq!(Value::Int(i32::MIN).to_string(), "-2147483648");
    assert_eq!(Value::Null.to_string(), "NULL");
    assert_eq!(Value::Boolean(true).to_string(), "true");
    assert_eq!(Value::Boolean(false).to_string(), "false");
    assert_eq!(Value::Varchar("héllo".to_string()).to_string(), "héllo");
}

#[test]
fn value_accessors() {
    assert_eq!(Value::Varchar("t".to_string()).varchar_to_str(), Some("t"));
    assert_eq!(Value::Int(3).varchar_to_str(), None);
    assert_eq!(Value::BigInt(7).bigint_to_i64(), Some(7));
    assert_eq!(Value::Int(7).bigint_to_i64(), None);
    assert_eq!(Value::Int(-7).int_to_i32(), Some(-7));
    assert_eq!(Value::Null.int_to_i32(), None);
}

#[test]
fn tuple_encode_exact_bytes() {
    let t = Tuple::new(vec![
        Value::BigInt(1),
        Value::Int(-1),
        Value::Boolean(true),
        Value::Varchar("hé".to_string()),
    ]);
    let mut out = vec![0xAAu8];
    t.encode(&mixed_schema(), &mut out).unwrap();
    let expected: Vec<u8> = vec![
        0xAA, // earlier content is kept
        0, 1, 0, 0, 0, 0, 0, 0, 0, // BigInt 1
        0, 0xFF, 0xFF, 0xFF, 0xFF, // Int -1
        0, 1, // true
        0, 3, 0, 0, 0, b'h', 0xC3, 0xA9, // "hé" is three UTF-8 bytes
    ];
    assert_eq!(out, expected);
}

#[test]
fn tuple_encode_null_is_a_single_flag() {
    let t = Tuple::new(vec![Value::Null, Value::Null, Value::Null, Value::Null]);
    let mut out = Vec::new();
    t.encode(&mixed_schema(), &mut out).unwrap();
    assert_eq!(out, vec![1, 1, 1, 1]);
}

#[test]
fn tuple_encode_refuses_wrong_value_count() {
    let t = Tuple::new(vec![Value::BigInt(1)]);
    let mut out = vec![9u8];
    let r = t.encode(&mixed_schema(), &mut out);
    assert!(matches!(r, Err(DbError::CorruptPage(_))));
    assert_eq!(out, vec![9u8]);
}

#[test]
fn tuple_encode_refuses_wrong_type_after_writing_prefix() {
    let t = Tuple::new(vec![
        Value::BigInt(2),
        Value::Boolean(false),
        Value::Boolean(true),
        Value::Null,
    ]);
    let mut out = Vec::new();
    let r = t.encode(&mixed_schema(), &mut out);
    assert!(matches!(r, Err(DbError::CorruptPage(_))));
    // the first column and the second column's null flag were written
    assert_eq!(out, vec![0, 2, 0, 0, 0, 0, 0, 0, 0, 0]);
}

#[test]
fn tuple_roundtrip_with_trailing_bytes() {
    let t = Tuple::new(vec![
        Value::BigInt(i64::MIN),
        Value::Null,
        Value::Boolean(false),
        Value::Varchar("naïve ✓".to_string()),
    ]);
    let mut out = Vec::new();
    t.encode(&mixed_schema(), &mut out).unwrap();
    let encoded_len = out.len();
    out.extend_from_slice(&[7, 7, 7]);
    let (back, used) = Tuple::decode(&mixed_schema(), &out).unwrap();
    assert_eq!(back, t);
    assert_eq!(used, encoded_len);
}

#[test]
fn tuple_decode_truncated_input_is_io_error() {
    let schema = mixed_schema();
    assert!(matches!(Tuple::decode(&schema, &[]), Err(DbError::Io(_))));
    assert!(matches!(Tuple::decode(&schema, &[0, 1, 2]), Err(DbError::Io(_))));
    // a string whose declared length runs past the end
    let bytes = vec![1, 1, 1, 0, 10, 0, 0, 0, b'a'];
    match Tuple::decode(&schema, &bytes) {
        Err(DbError::Io(msg)) => assert_eq!(msg, "failed to fill whole buffer"),
        _ => panic!("expected Io"),
    }
}

#[test]
fn tuple_decode_invalid_utf8_is_corrupt_page() {
    let schema = Schema::new(vec![Column::new("s", DataType::Varchar, None)]);
    let bytes = vec![0, 2, 0, 0, 0, 0xC3, 0x28];
    match Tuple::decode(&schema, &bytes) {
        Err(DbError::CorruptPage(msg)) => assert!(msg.starts_with("invalid utf-8: ")),
        _ => panic!("expected CorruptPage"),
    }
}

#[test]
fn tuple_decode_flags_and_booleans() {
    let schema = Schema::new(vec![
        Column::new("a", DataType::Boolean, None),
        Column::new("b", DataType::Boolean, None),
        Column::new("c", DataType::Int, None),
    ]);
    // flag 7 is not the null flag; boolean byte 2 is not 1
    let bytes = vec![7, 1, 0, 2, 1];
    let (t, used) = Tuple::decode(&schema, &bytes).unwrap();
    assert_eq!(t.values, vec![Value::Boolean(true), Value::Boolean(false), Value::Null]);
    assert_eq!(used, 5);
}

#[test]
fn system_schemas_layout() {
    let p = sys_pages_schema();
    let names: Vec<&str> = p.columns.iter().map(|c| c.name.as_str()).collect();
    assert_eq!(names, vec!["table_name", "root_page_id", "last_row_id"]);
    assert_eq!(p.columns[0].data_type, DataType::Varchar);
    assert_eq!(p.columns[0].length, Some(255));
    assert_eq!(p.columns[1].data_type, DataType::BigInt);
    assert_eq!(p.columns[1].length, None);
    assert_eq!(p.columns[2].data_type, DataType::BigInt);

    let s = sys_schema_schema();
    let names: Vec<&str> = s.columns.iter().map(|c| c.name.as_str()).collect();
    assert_eq!(names, vec!["table_name", "field_name", "field_type", "field_length"]);
    assert_eq!(s.columns[1].length, Some(255));
    assert_eq!(s.columns[2].data_type, DataType::Int);
    assert_eq!(s.columns[3].data_type, DataType::Int);
}

#[test]
fn bound_expr_clone_is_equal() {
    use_bound_expr();
}

fn use_bound_expr() {
    let e = BoundExpr::BinaryOp {
        left: Box::new(BoundExpr::ColumnRef { col_idx: 1, data_type: DataType::Int }),
        op: BinaryOperator::Gte,
        right: Box::new(BoundExpr::Constant(Value::Int(3))),
    };
    assert_eq!(e.clone(), e);
}
