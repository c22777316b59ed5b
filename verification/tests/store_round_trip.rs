//! Serializing a whole store and reading it back: the round trip, the magic
//! prefix, and the end-to-end scenario.

use basebored::cell::Cell;
use basebored::column::Column;
use basebored::data_type::Type;
use basebored::data_value::Value;
use basebored::database::{Database, DatabaseError};
use basebored::errors::Error;
use basebored::sheet::Sheet;

fn employees() -> Sheet {
    Sheet::new(
        "Employees".to_string(),
        vec![
            Column::new("Name".to_string(), Type::Str, None),
            Column::new("Age".to_string(), Type::Int, None),
            Column::new("Salary".to_string(), Type::Int, None),
        ],
        None,
    )
}

fn assert_same_tree(a: &Database, b: &Database) {
    assert_eq!(a.columns.len(), b.columns.len());
    for (sa, sb) in a.columns.iter().zip(b.columns.iter()) {
        assert_eq!(sa.id, sb.id);
        assert_eq!(sa.name, sb.name);
        assert_eq!(sa.columns.len(), sb.columns.len());
        for (ca, cb) in sa.columns.iter().zip(sb.columns.iter()) {
            assert_eq!(ca.id, cb.id);
            assert_eq!(ca.name, cb.name);
            assert_eq!(ca.value_type, cb.value_type);
            assert_eq!(ca.cells.len(), cb.cells.len());
            for (xa, xb) in ca.cells.iter().zip(cb.cells.iter()) {
                assert_eq!(xa.get_value(), xb.get_value());
            }
        }
    }
}

#[test]
fn empty_database_round_trips() {
    let db = Database::new_empty();
    let bytes = db.serialized_bytes();
    // Magic, then an empty table.
    assert_eq!(&bytes[..11], b"baseboredv1");
    assert_eq!(&bytes[11..], &[0u8, 0, 0, 0, 0, 0, 0, 0]);
    let back = Database::deserialize_bytes(&bytes).unwrap();
    assert!(back.columns.is_empty());
}

#[test]
fn database_round_trip_reproduces_the_tree() {
    let mut sheet = employees();
    sheet
        .insert_row(vec![Value::Str("Alice".to_string()), Value::Int(25), Value::Int(1000)])
        .unwrap();
    sheet
        .insert_row(vec![Value::Str("Bob".to_string()), Value::Int(30), Value::Int(2000)])
        .unwrap();
    let mut db = Database::new_empty();
    db.adopt_sheet(&sheet);
    let bytes = db.serialized_bytes();
    let back = Database::deserialize_bytes(&bytes).unwrap();
    assert_same_tree(&db, &back);
    // Identifiers are preserved byte for byte: re-encoding gives the same
    // buffer.
    assert_eq!(back.serialized_bytes(), bytes);
}

#[test]
fn every_value_variant_survives_the_round_trip() {
    let mut sheet = Sheet::new(
        "Mixed".to_string(),
        vec![
            Column::new("b".to_string(), Type::Bool, None),
            Column::new("i".to_string(), Type::Int, None),
            Column::new("f".to_string(), Type::Flt, None),
            Column::new("s".to_string(), Type::Str, None),
        ],
        None,
    );
    sheet
        .insert_row(vec![
            Value::Bool(true),
            Value::Int(-7),
            Value::Flt((2.5f64).to_bits()),
            Value::Str("héllo".to_string()),
        ])
        .unwrap();
    sheet.insert_row(vec![Value::Nil, Value::Nil, Value::Nil, Value::Nil]).unwrap();
    let mut db = Database::new_empty();
    db.adopt_sheet(&sheet);
    let back = Database::deserialize_bytes(&db.serialized_bytes()).unwrap();
    assert_same_tree(&db, &back);
    let col = back.columns[0].get_column_by_name("f").unwrap();
    match col.get_cell(0).unwrap().get_value() {
        Value::Flt(bits) => assert_eq!(f64::from_bits(*bits), 2.5),
        other => panic!("decoded {:?}", other),
    }
}

#[test]
fn missing_magic_fails_with_invalid_magic() {
    let mut db = Database::new_empty();
    db.adopt_sheet(&employees());
    let bytes = db.serialized_bytes();
    // Strip the magic prefix: what remains starts with table bytes.
    let truncated = &bytes[11..];
    assert!(truncated.len() >= 11);
    assert!(matches!(
        Database::deserialize_bytes(truncated),
        Err(Error::DatabaseError(DatabaseError::InvalidMagicBytes))
    ));
    // A corrupted magic byte fails the same way.
    let mut corrupted = bytes.clone();
    corrupted[0] = b'X';
    assert!(matches!(
        Database::deserialize_bytes(&corrupted),
        Err(Error::DatabaseError(DatabaseError::InvalidMagicBytes))
    ));
}

#[test]
fn truncated_store_fails_cleanly() {
    let mut db = Database::new_empty();
    db.adopt_sheet(&employees());
    let bytes = db.serialized_bytes();
    for cut in 11..bytes.len() {
        assert!(Database::deserialize_bytes(&bytes[..cut]).is_err(), "cut at {}", cut);
    }
}

#[test]
fn end_to_end_scenario() {
    // Build a store with one sheet of Name:Str, Age:Int, Salary:Int and two
    // rows; serialize; drop the magic; restore it; read the ages back.
    let mut employees = employees();
    employees
        .insert_row(vec![Value::Str("Alice".to_string()), Value::Int(25), Value::Int(1000)])
        .unwrap();
    employees
        .insert_row(vec![Value::Str("Bob".to_string()), Value::Int(30), Value::Int(2000)])
        .unwrap();
    let mut db = Database::new_empty();
    db.adopt_sheet(&employees);

    let bytes = db.serialized_bytes();
    let without_magic = bytes[11..].to_vec();
    assert!(matches!(
        Database::deserialize_bytes(&without_magic),
        Err(Error::DatabaseError(DatabaseError::InvalidMagicBytes))
    ));

    let mut restored = b"baseboredv1".to_vec();
    restored.extend_from_slice(&without_magic);
    let back = Database::deserialize_bytes(&restored).unwrap();
    let sheet = back.get_sheet("Employees").unwrap();
    let ages: Vec<&Value> =
        sheet.columns[1].cells.iter().map(Cell::get_value).collect();
    assert_eq!(ages, vec![&Value::Int(25), &Value::Int(30)]);
    assert_eq!(sheet.columns[1].name, "Age");
}

#[test]
fn decoded_children_are_adopted() {
    let mut sheet = employees();
    sheet
        .insert_row(vec![Value::Str("Alice".to_string()), Value::Int(25), Value::Int(1000)])
        .unwrap();
    let mut db = Database::new_empty();
    db.adopt_sheet(&sheet);
    let back = Database::deserialize_bytes(&db.serialized_bytes()).unwrap();
    let s = &back.columns[0];
    assert!(s.database.is_some());
    for col in &s.columns {
        let link = col.sheet.as_ref().unwrap();
        assert_eq!(link.id, s.id);
        assert_eq!(link.name, s.name);
        for cell in &col.cells {
            let cl = cell.column.as_ref().unwrap();
            assert_eq!(cl.id, col.id);
            assert_eq!(cl.name, col.name);
            assert_eq!(cl.value_type, col.value_type);
        }
    }
}

#[test]
fn sheet_and_column_codecs_round_trip_alone() {
    let mut column = Column::new("Age".to_string(), Type::Int, None);
    column.insert_value(Value::Int(25)).unwrap();
    let cb = column.serialized_bytes();
    let col_back = Column::deserialize_bytes(&cb).unwrap();
    assert_eq!(col_back.id, column.id);
    assert_eq!(col_back.name, "Age");
    assert_eq!(col_back.value_type, Type::Int);
    assert_eq!(*col_back.get_cell(0).unwrap().get_value(), Value::Int(25));

    let mut sheet = employees();
    sheet
        .insert_row(vec![Value::Str("Alice".to_string()), Value::Int(25), Value::Int(1000)])
        .unwrap();
    let sb = sheet.serialized_bytes();
    let sheet_back = Sheet::deserialize_bytes(&sb).unwrap();
    assert_eq!(sheet_back.id, sheet.id);
    assert_eq!(sheet_back.name, "Employees");
    assert_eq!(sheet_back.get_column_count(), 3);
    assert_eq!(
        *sheet_back.get_column_by_name("Name").unwrap().get_cell(0).unwrap().get_value(),
        Value::Str("Alice".to_string())
    );
}

#[test]
fn cell_codec_matches_value_codec() {
    let cell = Cell::new(Value::Str("ab".to_string()), None);
    let bytes = cell.serialized_bytes();
    assert_eq!(bytes, Value::Str("ab".to_string()).serialized_bytes());
    let back = Cell::deserialize_bytes(&bytes).unwrap();
    assert_eq!(*back.get_value(), Value::Str("ab".to_string()));
    assert!(back.column.is_none());
}
