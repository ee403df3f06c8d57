use chunked_gather::literal::{lit, typed_lit, DataType, Expr, LiteralValue, Null, UnknownKind};

#[test]
fn literals_of_values() {
    assert_eq!(lit(Null {}), Expr::Literal(LiteralValue::Null));
    assert_eq!(lit(true), Expr::Literal(LiteralValue::Boolean(true)));
    assert_eq!(lit(5i32), Expr::Literal(LiteralValue::Int(5)));
    assert_eq!(typed_lit(5i32), Expr::Literal(LiteralValue::Int32(5)));
    assert_eq!(typed_lit(7u64), Expr::Literal(LiteralValue::UInt64(7)));
    assert_eq!(lit("ab".to_string()), Expr::Literal(LiteralValue::String("ab".to_string())));
    assert_eq!(lit(vec![1u8, 2]), Expr::Literal(LiteralValue::Binary(vec![1, 2])));
}

#[test]
fn literal_kinds() {
    assert!(LiteralValue::Null.is_null());
    assert!(!LiteralValue::Int(0).is_null());
    assert!(!LiteralValue::Range { low: 0, high: 3, dtype: DataType::Int64 }.is_scalar());
    assert!(LiteralValue::Date(1).is_scalar());
    assert_eq!(LiteralValue::new_idxsize(4), LiteralValue::UInt32(4));
}

#[test]
fn literal_datatypes() {
    assert_eq!(LiteralValue::Int32(1).get_datatype(), DataType::Int32);
    assert_eq!(LiteralValue::Int(9).get_datatype(), DataType::Unknown(UnknownKind::Int(9)));
    assert_eq!(LiteralValue::StrCat("x".to_string()).get_datatype(), DataType::Unknown(UnknownKind::Str));
    assert_eq!(
        LiteralValue::Range { low: 0, high: 3, dtype: DataType::UInt16 }.get_datatype(),
        DataType::UInt16
    );
}
