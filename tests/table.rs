use std::collections::HashSet;

use loro::{LoroDoc, LoroMap, LoroValue};
use loro_table::{is_scalar, next_unique_id, parse_cell, DecodeError, EncodeError, ImportError, LoroTable, Row};

fn parse(s: &str) -> LoroValue {
    parse_cell(s, s.parse::<f64>().ok().map(LoroValue::Double))
}

fn strings(fields: &[&str]) -> Vec<String> {
    fields.iter().map(|f| f.to_string()).collect()
}

fn record(fields: &[&str]) -> Vec<LoroValue> {
    fields.iter().map(|f| parse(f)).collect()
}

fn sample_table() -> LoroTable {
    let mut table = LoroTable::new(LoroDoc::new());
    let headers = strings(&["id", "name", "score"]);
    let records = vec![record(&["1", "alice", "9.5"]), record(&["2", "bob", "7"])];
    assert_eq!(table.import(&headers, &records).unwrap(), 6);
    table
}

fn all_cells(table: &LoroTable) -> Vec<Vec<LoroValue>> {
    table.rows().iter().iter().map(|row| row.read_cells(table)).collect()
}

#[test]
fn parse_integer_text() {
    assert_eq!(parse("42"), LoroValue::I64(42));
    assert_eq!(parse("-17"), LoroValue::I64(-17));
    assert_eq!(parse("+5"), LoroValue::I64(5));
}

#[test]
fn parse_leading_zeros_is_integer() {
    assert_eq!(parse("007"), LoroValue::I64(7));
}

#[test]
fn parse_float_text() {
    assert_eq!(parse("3.14"), LoroValue::Double(3.14));
}

#[test]
fn parse_plain_text() {
    assert_eq!(parse("abc"), LoroValue::from("abc"));
    assert_eq!(parse(""), LoroValue::from(""));
}

#[test]
fn parse_integer_out_of_range_falls_back_to_float() {
    assert_eq!(parse("9223372036854775808"), LoroValue::Double(9223372036854775808.0));
    assert_eq!(parse("-9223372036854775808"), LoroValue::I64(i64::MIN));
}

#[test]
fn import_three_by_two_scenario() {
    let table = sample_table();
    assert_eq!(table.col_count(), 3);
    assert_eq!(table.row_count(), 2);
    let cells = all_cells(&table);
    assert_eq!(cells[0], vec![LoroValue::I64(1), LoroValue::from("alice"), LoroValue::Double(9.5)]);
    assert_eq!(cells[1], vec![LoroValue::I64(2), LoroValue::from("bob"), LoroValue::I64(7)]);
}

#[test]
fn import_writes_column_records() {
    let table = sample_table();
    let cols = table.cols();
    let names: Vec<String> = cols.iter().map(|c| c.name.clone()).collect();
    assert_eq!(names, strings(&["id", "name", "score"]));
    assert!(cols.iter().all(|c| c.width == 130));
    assert!(cols.iter().all(|c| c.id >= i32::MIN as i64 && c.id <= i32::MAX as i64));
    let columns = table.columns();
    assert_eq!(columns.len(), 3);
    for (a, b) in columns.iter().zip(cols.iter()) {
        assert_eq!((a.id, &a.name, a.width), (b.id, &b.name, b.width));
    }
}

#[test]
fn import_writes_row_attributes() {
    let table = sample_table();
    let rows = table.rows().iter();
    assert_eq!(rows.len(), 2);
    assert!(rows.iter().all(|r| r.height == 30));
    assert_ne!(rows[0].id, rows[1].id);
    assert!(table.rows().get(1).is_some());
    assert!(table.rows().get(2).is_none());
}

#[test]
fn import_ids_unique_for_many_columns_and_rows() {
    let mut table = LoroTable::new(LoroDoc::new());
    let headers: Vec<String> = (0..1000).map(|i| format!("h{}", i)).collect();
    let records: Vec<Vec<LoroValue>> =
        (0..2000).map(|r| vec![LoroValue::I64(r); 1]).collect::<Vec<_>>();
    let narrow = vec![headers[0].clone()];
    assert_eq!(table.import(&narrow, &records).unwrap(), 2000);
    let row_ids: HashSet<i64> = table.rows().iter().iter().map(|r| r.id).collect();
    assert_eq!(row_ids.len(), 2000);

    let mut wide = LoroTable::new(LoroDoc::new());
    let one: Vec<Vec<LoroValue>> = vec![(0..1000).map(LoroValue::I64).collect()];
    assert_eq!(wide.import(&headers, &one).unwrap(), 1000);
    let col_ids: HashSet<i64> = wide.cols().iter().map(|c| c.id).collect();
    assert_eq!(col_ids.len(), 1000);
    let cells = all_cells(&wide);
    assert_eq!(cells[0], (0..1000).map(LoroValue::I64).collect::<Vec<_>>());
}

#[test]
fn import_rejects_ragged_record() {
    let mut table = LoroTable::new(LoroDoc::new());
    let headers = strings(&["a", "b"]);
    let records = vec![record(&["1", "2"]), record(&["3"]), record(&["4", "5", "6"])];
    match table.import(&headers, &records) {
        Err(ImportError::ShapeMismatch(k)) => assert_eq!(k, 1),
        other => panic!("unexpected result {:?}", other),
    }
    assert_eq!(table.col_count(), 0);
    assert_eq!(table.row_count(), 0);
}

#[test]
fn import_header_only() {
    let mut table = LoroTable::new(LoroDoc::new());
    assert_eq!(table.import(&strings(&["x", "y"]), &Vec::new()).unwrap(), 0);
    assert_eq!(table.col_count(), 2);
    assert_eq!(table.row_count(), 0);
}

#[test]
fn import_empty_header() {
    let mut table = LoroTable::new(LoroDoc::new());
    let records = vec![Vec::new(), Vec::new()];
    assert_eq!(table.import(&Vec::new(), &records).unwrap(), 0);
    assert_eq!(table.col_count(), 0);
    assert_eq!(table.row_count(), 2);
    assert_eq!(all_cells(&table), vec![Vec::<LoroValue>::new(), Vec::new()]);
}

#[test]
fn round_trip_full_snapshot() {
    let table = sample_table();
    let bytes = table.encode().unwrap();
    let back = LoroTable::decode(&bytes).unwrap();
    assert_eq!(back.row_count(), 2);
    assert_eq!(back.col_count(), 3);
    let a: Vec<(i64, String, u32)> = table.cols().into_iter().map(|c| (c.id, c.name, c.width)).collect();
    let b: Vec<(i64, String, u32)> = back.cols().into_iter().map(|c| (c.id, c.name, c.width)).collect();
    assert_eq!(a, b);
    assert_eq!(all_cells(&back), all_cells(&table));
}

#[test]
fn round_trip_shallow_snapshot() {
    let table = sample_table();
    let bytes = table.encode_shallow().unwrap();
    let back = LoroTable::decode(&bytes).unwrap();
    assert_eq!(back.row_count(), table.row_count());
    assert_eq!(back.col_count(), table.col_count());
    assert_eq!(all_cells(&back), all_cells(&table));
}

#[test]
fn decode_rejects_corrupt_bytes() {
    assert!(matches!(LoroTable::decode(&[1, 2, 3, 4, 5]), Err(DecodeError::Corrupt(_))));
    let bytes = sample_table().encode().unwrap();
    assert!(matches!(LoroTable::decode(&bytes[..bytes.len() / 2]), Err(DecodeError::Corrupt(_))));
}

#[test]
fn columns_skips_items_that_are_not_records() {
    let doc = LoroDoc::new();
    let cols = doc.get_list("cols");
    cols.push(5).unwrap();
    let table = LoroTable::new(doc);
    assert_eq!(table.col_count(), 1);
    assert!(table.columns().is_empty());
}

#[test]
fn row_from_map_defaults_missing_attributes() {
    let map = LoroMap::new();
    map.insert_container("cells", LoroMap::new()).unwrap();
    let row = Row::new_from_map(map);
    assert_eq!(row.id, 0);
    assert_eq!(row.height, 0);
}

#[test]
fn read_cells_follows_hex_keys() {
    let doc = LoroDoc::new();
    let table = LoroTable::new(doc.clone());
    let cols = doc.get_list("cols");
    let mut record = std::collections::HashMap::new();
    record.insert("id".to_string(), LoroValue::I64(255));
    record.insert("name".to_string(), LoroValue::from("n"));
    record.insert("width".to_string(), LoroValue::I64(130));
    cols.push(LoroValue::from(record)).unwrap();
    let row = doc.get_list("rows").push_container(LoroMap::new()).unwrap();
    let cells = row.insert_container("cells", LoroMap::new()).unwrap();
    cells.insert("cff", 11).unwrap();
    let rows = table.rows().iter();
    assert_eq!(rows[0].read_cells(&table), vec![LoroValue::I64(11)]);
}

#[test]
fn next_unique_id_avoids_existing() {
    let mut existing = HashSet::new();
    let mut seen = Vec::new();
    for _ in 0..500 {
        let id = next_unique_id(&mut existing);
        assert!(!seen.contains(&id));
        seen.push(id);
    }
    assert_eq!(existing.len(), 500);
}

#[test]
fn import_rejects_binary_cell() {
    let mut table = LoroTable::new(LoroDoc::new());
    let headers = strings(&["a", "b"]);
    let records = vec![record(&["1", "2"]), vec![LoroValue::I64(3), LoroValue::from(vec![1u8, 2, 3])]];
    match table.import(&headers, &records) {
        Err(ImportError::InvalidCell(i, j)) => assert_eq!((i, j), (1, 1)),
        other => panic!("unexpected result {:?}", other),
    }
    assert_eq!(table.col_count(), 0);
    assert_eq!(table.row_count(), 0);
}

#[test]
fn second_import_keeps_ids_distinct() {
    let mut table = sample_table();
    let headers = strings(&["extra"]);
    let records = vec![record(&["x"]), record(&["y"])];
    assert_eq!(table.import(&headers, &records).unwrap(), 2);
    assert_eq!(table.col_count(), 4);
    assert_eq!(table.row_count(), 4);
    let col_ids: HashSet<i64> = table.cols().iter().map(|c| c.id).collect();
    assert_eq!(col_ids.len(), 4);
    let row_ids: HashSet<i64> = table.rows().iter().iter().map(|r| r.id).collect();
    assert_eq!(row_ids.len(), 4);
    let rows = table.rows().iter();
    assert!(!rows[0].has_all_cells(&table));
    assert!(!rows[3].has_all_cells(&table));
}

#[test]
fn fresh_table_can_edit_and_is_readable() {
    let table = sample_table();
    assert!(table.can_edit());
    assert!(table.cols_are_records());
    assert!(table.rows().all_readable());
}

#[test]
fn readable_checks_reject_foreign_items() {
    let doc = LoroDoc::new();
    doc.get_list("cols").push(5).unwrap();
    doc.get_list("rows").push(7).unwrap();
    let table = LoroTable::new(doc);
    assert!(!table.cols_are_records());
    assert!(!table.rows().all_readable());
}

#[test]
fn is_scalar_kinds() {
    assert!(is_scalar(&LoroValue::I64(1)));
    assert!(is_scalar(&LoroValue::Double(1.5)));
    assert!(is_scalar(&LoroValue::from("x")));
    assert!(!is_scalar(&LoroValue::Bool(true)));
    assert!(!is_scalar(&LoroValue::from(vec![0u8])));
}

#[test]
fn encode_refuses_detached_document() {
    let doc = LoroDoc::new();
    let mut table = LoroTable::new(doc.clone());
    let headers = strings(&["a"]);
    assert_eq!(table.import(&headers, &vec![record(&["1"])]).unwrap(), 1);
    doc.commit();
    assert!(!table.is_detached());
    assert!(!table.is_shallow());
    doc.detach();
    assert!(table.is_detached());
    assert!(matches!(table.encode(), Err(EncodeError::Detached)));
    assert!(matches!(table.encode_shallow(), Err(EncodeError::Detached)));
}

#[test]
fn decoded_shallow_table_is_shallow() {
    let bytes = sample_table().encode_shallow().unwrap();
    let back = LoroTable::decode(&bytes).unwrap();
    assert_eq!(back.row_count(), 2);
    assert!(back.encode().is_ok() || back.is_shallow());
}
