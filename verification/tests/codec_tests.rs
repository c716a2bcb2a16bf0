use constella_db::codec::{column_bytes, column_values, read_record, stored_value, write_record};
use constella_db::executor::format_rows;
use constella_db::types::{Data, Entity, Type, Value};

#[test]
fn int_record_layout() {
    let mut out = Vec::new();
    assert!(write_record(&mut out, &Value::Int(-2), Type::Int));
    assert_eq!(out, vec![1, 0xfe, 0xff, 0xff, 0xff]);
    assert!(write_record(&mut out, &Value::Null, Type::Int));
    assert_eq!(&out[5..], &[0, 0, 0, 0, 0]);
    assert!(!write_record(&mut out, &Value::VarChar("x".to_string()), Type::Int));
    assert_eq!(out.len(), 10);
}

#[test]
fn varchar_record_is_padded_or_cut() {
    let mut out = Vec::new();
    assert!(write_record(&mut out, &Value::VarChar("ab".to_string()), Type::VarChar(4)));
    assert_eq!(out, vec![1, b'a', b'b', 0, 0]);
    let mut out = Vec::new();
    assert!(write_record(&mut out, &Value::VarChar("abcdef".to_string()), Type::VarChar(3)));
    assert_eq!(out, vec![1, b'a', b'b', b'c']);
    assert!(matches!(read_record(&out, 0, Type::VarChar(3)), Value::VarChar(s) if s == "abc"));
}

#[test]
fn column_roundtrip_gives_stored_values() {
    let values = vec![Value::VarChar("hello".to_string()), Value::Null, Value::VarChar("hi".to_string())];
    let t = Type::VarChar(3);
    let bytes = column_bytes(&values, t);
    assert_eq!(bytes.len(), 12);
    let back = column_values(&bytes, t).unwrap();
    assert_eq!(back.len(), 3);
    assert!(matches!(&back[0], Value::VarChar(s) if s == "hel"));
    assert!(matches!(back[1], Value::Null));
    assert!(matches!(&back[2], Value::VarChar(s) if s == "hi"));
    assert!(matches!(stored_value(&values[0], t), Value::VarChar(s) if s == "hel"));
    assert!(column_values(&bytes[..11], t).is_none());
}

#[test]
fn cut_inside_a_character_is_read_lossily() {
    let values = vec![Value::VarChar("é".to_string())];
    let bytes = column_bytes(&values, Type::VarChar(1));
    assert_eq!(bytes, vec![1, 0xc3]);
    let back = column_values(&bytes, Type::VarChar(1)).unwrap();
    assert!(matches!(&back[0], Value::VarChar(s) if s == "\u{fffd}"));
}

#[test]
fn format_rows_uses_debug_text() {
    assert_eq!(format_rows(vec![]), "OK: 0 row(s)");
    let rows = vec![Entity {
        of: "t".to_string(),
        data: vec![
            Data { name: "n".to_string(), value: Value::VarChar("Al\"ice\n".to_string()) },
            Data { name: "a".to_string(), value: Value::Int(-3) },
            Data { name: "z".to_string(), value: Value::Null },
        ],
    }];
    assert_eq!(format_rows(rows), "OK: 1 row(s)\n  n=VarChar(\"Al\\\"ice\\n\"), a=Int(-3), z=Null");
}

#[test]
fn cast_values() {
    assert!(matches!(Value::VarChar(" 42 ".to_string()).cast_to(&Type::Int), Ok(Value::Int(42))));
    assert_eq!(Value::VarChar("4x".to_string()).cast_to(&Type::Int).unwrap_err(), "Cannot cast '4x' to INT");
    assert!(matches!(Value::Int(-7).cast_to(&Type::VarChar(3)), Ok(Value::VarChar(s)) if s == "-7"));
    assert!(matches!(Value::Null.cast_to(&Type::Int), Ok(Value::Null)));
    assert_eq!(Type::VarChar(12).to_string(), "VARCHAR(12)");
    assert_eq!(Value::Null.kind_name(), "NULL");
    assert_eq!(Value::Int(5).to_string(), "INT");
    assert_eq!(Value::VarChar("x".to_string()).to_string(), "VARCHAR");
}
