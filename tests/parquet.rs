use chunked_gather::parquet::{
    convert_days_ms, convert_i128, convert_i256, convert_year_month, get_field_pages, ColumnChunkMetadata,
    ColumnDescriptor, DaysMs, I256,
};

fn meta(path: &[&str]) -> ColumnChunkMetadata {
    ColumnChunkMetadata {
        descriptor: ColumnDescriptor { path_in_schema: path.iter().map(|s| s.to_string()).collect() },
    }
}

#[test]
fn field_pages_by_root_name() {
    let columns = vec![meta(&["a"]), meta(&["b", "x"]), meta(&["b", "y"]), meta(&["c"])];
    let items = vec![10, 20, 30, 40];
    assert_eq!(get_field_pages(&columns, &items, "b"), vec![&20, &30]);
    assert_eq!(get_field_pages(&columns, &items, "a"), vec![&10]);
    assert!(get_field_pages(&columns, &items, "z").is_empty());
    assert_eq!(get_field_pages(&columns, &items[..2], "b"), vec![&20]);
}

#[test]
fn interval_parts() {
    let bytes = [1u8, 0, 0, 0, 2, 1, 0, 0, 0xff, 0xff, 0xff, 0xff];
    assert_eq!(convert_year_month(&bytes), 1);
    assert_eq!(convert_days_ms(&bytes), DaysMs { days: 258, milliseconds: -1 });
}

#[test]
fn sign_extended_big_endian() {
    assert_eq!(convert_i128(&[0x01, 0x00], 2), 256);
    assert_eq!(convert_i128(&[0xff, 0xfe], 2), -2);
    assert_eq!(convert_i128(&[0x80], 1), -128);
    assert_eq!(convert_i128(&[0x7f; 16], 16), i128::from_be_bytes([0x7f; 16]));
    assert_eq!(convert_i128(&[0x80; 16], 16), i128::from_be_bytes([0x80; 16]));
}

#[test]
fn wide_sign_extended_big_endian() {
    assert_eq!(convert_i256(&[0x01, 0x00]), I256 { hi: 0, lo: 256 });
    assert_eq!(convert_i256(&[0xff, 0xfe]), I256 { hi: -1, lo: u128::MAX - 1 });
    let mut wide = [0u8; 17];
    wide[0] = 0x01;
    assert_eq!(convert_i256(&wide), I256 { hi: 1, lo: 0 });
    assert_eq!(convert_i256(&[0x80; 32]), I256 { hi: i128::from_be_bytes([0x80; 16]), lo: u128::from_be_bytes([0x80; 16]) });
}
