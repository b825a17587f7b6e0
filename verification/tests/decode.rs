use cql_result::error::DecodeError;
use cql_result::result::{
    deser_cql_value, deser_prepared_metadata, deser_result_metadata, deser_type, deserialize,
    CQLValue, ColumnType, ServerResult,
};

fn be_i32(x: i32) -> Vec<u8> {
    let u = x as u32;
    vec![(u >> 24) as u8, (u >> 16) as u8, (u >> 8) as u8, u as u8]
}

fn be_u16(x: u16) -> Vec<u8> {
    vec![(x >> 8) as u8, x as u8]
}

fn wire_string(s: &str) -> Vec<u8> {
    let mut v = be_u16(s.len() as u16);
    v.extend_from_slice(s.as_bytes());
    v
}

fn wire_bytes(b: &[u8]) -> Vec<u8> {
    let mut v = be_i32(b.len() as i32);
    v.extend_from_slice(b);
    v
}

#[test]
fn rows_with_int_and_null_cell() {
    // kind=2, flags=0, one int32 column named "n", two rows: [7], [null].
    let mut buf = be_i32(2);
    buf.extend(be_i32(0)); // flags
    buf.extend(be_i32(1)); // column count
    buf.extend(wire_string("ks"));
    buf.extend(wire_string("tab"));
    buf.extend(wire_string("n"));
    buf.extend(be_u16(0x0009)); // int32 type tag
    buf.extend(be_i32(2)); // row count
    buf.extend(wire_bytes(&be_i32(7))); // row 0, cell 0: present 7
    buf.extend(be_i32(-1)); // row 1, cell 0: null
    let mut pos = 0usize;
    let r = deserialize(&buf, &mut pos).unwrap();
    assert_eq!(pos, buf.len());
    match r {
        ServerResult::Rows(rows) => {
            assert_eq!(rows.rows_count, 2);
            assert_eq!(rows.rows.len(), 2);
            assert_eq!(rows.metadata.col_count, 1);
            assert_eq!(rows.metadata.col_specs.len(), 1);
            assert_eq!(rows.metadata.col_specs[0].name, "n");
            assert_eq!(rows.metadata.col_specs[0].typ, ColumnType::Int);
            assert_eq!(rows.metadata.col_specs[0].table_spec.ks_name, "ks");
            assert_eq!(rows.metadata.col_specs[0].table_spec.table_name, "tab");
            assert_eq!(rows.rows[0].columns[0], Some(CQLValue::Int(7)));
            assert_eq!(rows.rows[1].columns[0], None);
        },
        other => panic!("expected Rows, got {:?}", other),
    }
}

#[test]
fn prepared_with_bind_metadata() {
    // kind=4, 2-byte id 0x00 0x01, bind metadata with one ascii column and
    // pk_indexes=[0], result metadata with zero columns.
    let mut buf = be_i32(4);
    buf.extend(be_u16(2)); // id length
    buf.extend([0x00u8, 0x01]);
    buf.extend(be_i32(0)); // bind metadata flags
    buf.extend(be_i32(1)); // bind column count
    buf.extend(be_i32(1)); // pk count
    buf.extend(be_u16(0)); // pk index 0
    buf.extend(wire_string("k"));
    buf.extend(wire_string("t"));
    buf.extend(wire_string("a"));
    buf.extend(be_u16(0x0001)); // ascii type tag
    buf.extend(be_i32(0)); // result metadata flags
    buf.extend(be_i32(0)); // result column count
    let mut pos = 0usize;
    let r = deserialize(&buf, &mut pos).unwrap();
    assert_eq!(pos, buf.len());
    match r {
        ServerResult::Prepared(p) => {
            assert_eq!(p.id_bytes(), vec![0x00u8, 0x01]);
            assert_eq!(p.prepared_metadata.col_count, 1);
            assert_eq!(p.prepared_metadata.pk_indexes, vec![0u16]);
            assert_eq!(p.prepared_metadata.col_specs.len(), 1);
            assert_eq!(p.prepared_metadata.col_specs[0].typ, ColumnType::Ascii);
            assert_eq!(p.metadata.col_count, 0);
            assert!(p.metadata.col_specs.is_empty());
        },
        other => panic!("expected Prepared, got {:?}", other),
    }
}

#[test]
fn void_consumes_only_the_kind_tag() {
    let mut buf = be_i32(1);
    buf.extend([0xAAu8, 0xBB, 0xCC]); // bytes after the message stay untouched
    let mut pos = 0usize;
    let r = deserialize(&buf, &mut pos).unwrap();
    assert!(matches!(r, ServerResult::Void));
    assert_eq!(pos, 4);
}

#[test]
fn set_keyspace_and_schema_change_kinds() {
    let mut pos = 0usize;
    let r = deserialize(&be_i32(3), &mut pos).unwrap();
    assert!(matches!(r, ServerResult::SetKeyspace(_)));
    pos = 0;
    let r = deserialize(&be_i32(5), &mut pos).unwrap();
    assert!(matches!(r, ServerResult::SchemaChange(_)));
}

#[test]
fn unknown_result_kind_is_rejected() {
    let mut pos = 0usize;
    assert_eq!(
        deserialize(&be_i32(6), &mut pos),
        Err(DecodeError::UnknownResultKind(6))
    );
    pos = 0;
    assert_eq!(
        deserialize(&be_i32(0), &mut pos),
        Err(DecodeError::UnknownResultKind(0))
    );
    pos = 0;
    assert_eq!(
        deserialize(&be_i32(-7), &mut pos),
        Err(DecodeError::UnknownResultKind(-7))
    );
}

#[test]
fn unknown_type_tag_is_rejected() {
    let mut pos = 0usize;
    assert_eq!(
        deser_type(&be_u16(0x0010), &mut pos),
        Err(DecodeError::UnsupportedType(0x0010))
    );
}

#[test]
fn nested_set_type_descriptor_decodes_recursively() {
    // set<set<int32>>: 0x0022 0x0022 0x0009
    let mut buf = be_u16(0x0022);
    buf.extend(be_u16(0x0022));
    buf.extend(be_u16(0x0009));
    let mut pos = 0usize;
    let t = deser_type(&buf, &mut pos).unwrap();
    assert_eq!(pos, 6);
    assert_eq!(
        t,
        ColumnType::SetOf(Box::new(ColumnType::SetOf(Box::new(ColumnType::Int))))
    );
}

#[test]
fn nested_set_value_preserves_element_order() {
    // A set<set<int32>> holding one inner set [7, 42].
    let typ = ColumnType::SetOf(Box::new(ColumnType::SetOf(Box::new(ColumnType::Int))));
    let mut inner = be_i32(2);
    inner.extend(wire_bytes(&be_i32(7)));
    inner.extend(wire_bytes(&be_i32(42)));
    let mut blob = be_i32(1);
    blob.extend(wire_bytes(&inner));
    let v = deser_cql_value(&typ, &blob).unwrap();
    assert_eq!(
        v,
        CQLValue::SetOf(vec![CQLValue::SetOf(vec![
            CQLValue::Int(7),
            CQLValue::Int(42)
        ])])
    );
}

#[test]
fn negative_column_count_is_rejected() {
    let mut buf = be_i32(2);
    buf.extend(be_i32(0)); // flags
    buf.extend(be_i32(-1)); // column count
    let mut pos = 0usize;
    assert_eq!(deserialize(&buf, &mut pos), Err(DecodeError::MalformedCount));
}

#[test]
fn negative_row_count_is_rejected() {
    let mut buf = be_i32(0); // flags
    buf.extend(be_i32(0)); // column count
    buf.extend(be_i32(-2)); // row count
    let mut pos = 0usize;
    let m = deser_result_metadata(&buf, &mut pos).unwrap();
    assert_eq!(m.col_count, 0);
    // and through the full Rows message:
    let mut msg = be_i32(2);
    msg.extend(&buf);
    pos = 0;
    assert_eq!(deserialize(&msg, &mut pos), Err(DecodeError::MalformedCount));
}

#[test]
fn negative_pk_count_is_rejected() {
    let mut buf = be_i32(0); // flags
    buf.extend(be_i32(0)); // column count
    buf.extend(be_i32(-1)); // pk count
    let mut pos = 0usize;
    assert_eq!(
        deser_prepared_metadata(&buf, &mut pos),
        Err(DecodeError::MalformedCount)
    );
}

#[test]
fn negative_set_element_count_is_rejected() {
    let typ = ColumnType::SetOf(Box::new(ColumnType::Int));
    let blob = be_i32(-5);
    assert_eq!(deser_cql_value(&typ, &blob), Err(DecodeError::MalformedCount));
}

#[test]
fn negative_blob_length_in_cell_is_rejected() {
    // A cell length of -2 is not the null sentinel and is malformed.
    let mut buf = be_i32(2);
    buf.extend(be_i32(0));
    buf.extend(be_i32(1));
    buf.extend(wire_string("k"));
    buf.extend(wire_string("t"));
    buf.extend(wire_string("n"));
    buf.extend(be_u16(0x0009));
    buf.extend(be_i32(1)); // row count
    buf.extend(be_i32(-2)); // bad cell length
    let mut pos = 0usize;
    assert_eq!(deserialize(&buf, &mut pos), Err(DecodeError::MalformedCount));
}

#[test]
fn null_cell_differs_from_empty_present_cell() {
    // One text column, two rows: a null cell and an empty-but-present cell.
    let mut buf = be_i32(2);
    buf.extend(be_i32(0));
    buf.extend(be_i32(1));
    buf.extend(wire_string("k"));
    buf.extend(wire_string("t"));
    buf.extend(wire_string("s"));
    buf.extend(be_u16(0x000D)); // text type tag
    buf.extend(be_i32(2));
    buf.extend(be_i32(-1)); // null
    buf.extend(be_i32(0)); // present, zero bytes
    let mut pos = 0usize;
    let r = deserialize(&buf, &mut pos).unwrap();
    match r {
        ServerResult::Rows(rows) => {
            assert_eq!(rows.rows[0].columns[0], None);
            assert_eq!(rows.rows[1].columns[0], Some(CQLValue::Text(String::new())));
            assert_ne!(rows.rows[0].columns[0], rows.rows[1].columns[0]);
        },
        other => panic!("expected Rows, got {:?}", other),
    }
}

#[test]
fn shared_identity_equals_per_column_identity() {
    // The same two-column metadata, once with the global-table-spec flag
    // and the shared identity sent once, once with it sent per column.
    let mut shared = be_i32(1); // flags: global table spec
    shared.extend(be_i32(2));
    shared.extend(wire_string("ks"));
    shared.extend(wire_string("tab"));
    shared.extend(wire_string("a"));
    shared.extend(be_u16(0x0001));
    shared.extend(wire_string("b"));
    shared.extend(be_u16(0x000D));

    let mut percol = be_i32(0);
    percol.extend(be_i32(2));
    percol.extend(wire_string("ks"));
    percol.extend(wire_string("tab"));
    percol.extend(wire_string("a"));
    percol.extend(be_u16(0x0001));
    percol.extend(wire_string("ks"));
    percol.extend(wire_string("tab"));
    percol.extend(wire_string("b"));
    percol.extend(be_u16(0x000D));

    let mut pos1 = 0usize;
    let m1 = deser_result_metadata(&shared, &mut pos1).unwrap();
    let mut pos2 = 0usize;
    let m2 = deser_result_metadata(&percol, &mut pos2).unwrap();
    assert_eq!(m1, m2);
    assert_eq!(pos1, shared.len());
    assert_eq!(pos2, percol.len());
}

#[test]
fn truncated_buffer_is_rejected() {
    let mut pos = 0usize;
    assert_eq!(
        deserialize(&[0u8, 0, 0], &mut pos),
        Err(DecodeError::Truncated)
    );
    // Rows message cut off inside the column specs.
    let mut buf = be_i32(2);
    buf.extend(be_i32(0));
    buf.extend(be_i32(1));
    buf.extend(be_u16(5)); // string length 5, but no bytes follow
    pos = 0;
    assert_eq!(deserialize(&buf, &mut pos), Err(DecodeError::Truncated));
}

#[test]
fn unsupported_paging_flag_is_rejected() {
    let mut buf = be_i32(2);
    buf.extend(be_i32(2)); // flags: more pages follow
    buf.extend(be_i32(0));
    let mut pos = 0usize;
    assert_eq!(
        deserialize(&buf, &mut pos),
        Err(DecodeError::UnsupportedPaging)
    );
}

#[test]
fn suppressed_metadata_keeps_count_and_drops_specs() {
    let mut buf = be_i32(4); // flags: metadata suppressed
    buf.extend(be_i32(3));
    let mut pos = 0usize;
    let m = deser_result_metadata(&buf, &mut pos).unwrap();
    assert_eq!(m.col_count, 3);
    assert!(m.col_specs.is_empty());
    assert_eq!(pos, buf.len());
}

#[test]
fn rows_with_suppressed_metadata_are_rejected() {
    let mut buf = be_i32(2);
    buf.extend(be_i32(4)); // flags: metadata suppressed
    buf.extend(be_i32(1)); // declared column count without specs
    buf.extend(be_i32(0)); // row count
    let mut pos = 0usize;
    assert_eq!(
        deserialize(&buf, &mut pos),
        Err(DecodeError::MetadataSuppressed)
    );
}

#[test]
fn non_ascii_byte_in_ascii_value_is_rejected() {
    assert_eq!(
        deser_cql_value(&ColumnType::Ascii, &[0x61, 0x80]),
        Err(DecodeError::NotAscii)
    );
}

#[test]
fn invalid_utf8_in_text_value_is_rejected() {
    assert_eq!(
        deser_cql_value(&ColumnType::Text, &[0xFF, 0xFE]),
        Err(DecodeError::InvalidUtf8)
    );
}

#[test]
fn wrong_width_int_value_is_rejected() {
    assert_eq!(
        deser_cql_value(&ColumnType::Int, &[0, 0, 7]),
        Err(DecodeError::BadFixedWidth)
    );
    assert_eq!(
        deser_cql_value(&ColumnType::Int, &[0, 0, 0, 0, 7]),
        Err(DecodeError::BadFixedWidth)
    );
}

#[test]
fn leftover_bytes_in_set_blob_are_rejected() {
    let typ = ColumnType::SetOf(Box::new(ColumnType::Int));
    let mut blob = be_i32(1);
    blob.extend(wire_bytes(&be_i32(7)));
    blob.push(0x00); // one trailing byte
    assert_eq!(deser_cql_value(&typ, &blob), Err(DecodeError::TrailingBytes));
}

#[test]
fn multibyte_text_decodes_to_expected_characters() {
    // "héllo" carried as UTF-8: the decoded string differs from the raw
    // byte view (the é is two bytes on the wire, one character decoded).
    let bytes = "h\u{e9}llo".as_bytes();
    let v = deser_cql_value(&ColumnType::Text, bytes).unwrap();
    assert_eq!(v, CQLValue::Text(String::from("h\u{e9}llo")));
    assert_eq!(bytes.len(), 6);
    match &v {
        CQLValue::Text(s) => assert_eq!(s.chars().count(), 5),
        _ => unreachable!(),
    }
}

#[test]
fn ascii_and_int_values_decode_exactly() {
    assert_eq!(
        deser_cql_value(&ColumnType::Ascii, b"abc"),
        Ok(CQLValue::Ascii(String::from("abc")))
    );
    assert_eq!(
        deser_cql_value(&ColumnType::Int, &be_i32(-2147483648)),
        Ok(CQLValue::Int(-2147483648))
    );
    assert_eq!(
        deser_cql_value(&ColumnType::Int, &be_i32(2147483647)),
        Ok(CQLValue::Int(2147483647))
    );
}

#[test]
fn value_accessors_return_their_variant_only() {
    let a = CQLValue::Ascii(String::from("x"));
    let i = CQLValue::Int(9);
    let t = CQLValue::Text(String::from("y"));
    let s = CQLValue::SetOf(vec![CQLValue::Int(1)]);
    assert_eq!(a.as_ascii(), Some(&String::from("x")));
    assert_eq!(a.as_int(), None);
    assert_eq!(i.as_int(), Some(9));
    assert_eq!(i.as_text(), None);
    assert_eq!(t.as_text(), Some(&String::from("y")));
    assert_eq!(t.as_set(), None);
    assert_eq!(s.as_set(), Some(&vec![CQLValue::Int(1)]));
    assert_eq!(s.as_ascii(), None);
}

#[test]
fn empty_set_value_decodes_to_empty_sequence() {
    let typ = ColumnType::SetOf(Box::new(ColumnType::Int));
    let blob = be_i32(0);
    assert_eq!(deser_cql_value(&typ, &blob), Ok(CQLValue::SetOf(Vec::new())));
}

#[test]
fn prepared_metadata_with_shared_identity() {
    let mut buf = be_i32(1); // flags: global table spec
    buf.extend(be_i32(2)); // column count
    buf.extend(be_i32(0)); // pk count
    buf.extend(wire_string("ks"));
    buf.extend(wire_string("tab"));
    buf.extend(wire_string("a"));
    buf.extend(be_u16(0x0009));
    buf.extend(wire_string("b"));
    buf.extend(be_u16(0x000D));
    let mut pos = 0usize;
    let m = deser_prepared_metadata(&buf, &mut pos).unwrap();
    assert_eq!(pos, buf.len());
    assert_eq!(m.col_count, 2);
    assert!(m.pk_indexes.is_empty());
    assert_eq!(m.col_specs[0].table_spec.ks_name, "ks");
    assert_eq!(m.col_specs[1].table_spec.ks_name, "ks");
    assert_eq!(m.col_specs[1].table_spec.table_name, "tab");
    assert_eq!(m.col_specs[0].name, "a");
    assert_eq!(m.col_specs[0].typ, ColumnType::Int);
    assert_eq!(m.col_specs[1].typ, ColumnType::Text);
}
