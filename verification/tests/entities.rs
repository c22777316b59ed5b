//! Adoption, owner-mediated insertion, lookups, and the sheet registry.

use basebored::base::Base;
use basebored::cell::{Cell, CellError};
use basebored::column::Column;
use basebored::data_type::Type;
use basebored::data_value::Value;
use basebored::errors::Error;
use basebored::id::{Identifier, UuidError};
use basebored::sheet::{Sheet, SheetError};

#[test]
fn fresh_cell_rejects_set_value_with_not_adopted() {
    let mut cell = Cell::new(Value::Int(1), None);
    assert!(matches!(
        cell.set_value(Value::Int(2)),
        Err(Error::CellError(CellError::IsNotAdopted))
    ));
    assert_eq!(*cell.get_value(), Value::Int(1));
}

#[test]
fn adopted_cell_accepts_same_typed_values_and_rejects_cross_typed() {
    let mut column = Column::new("Age".to_string(), Type::Int, None);
    column.insert_value(Value::Int(25)).unwrap();
    let cell = column.get_cell_mut(0).unwrap();
    // The cell reports adopted and accepts another Int.
    assert!(cell.column.is_some());
    cell.set_value(Value::Int(26)).unwrap();
    assert_eq!(*cell.get_value(), Value::Int(26));
    // A cross-typed value fails with an error naming the column.
    match cell.set_value(Value::Str("x".to_string())) {
        Err(Error::CellError(CellError::IncompatibleType { column_name, expected, got })) => {
            assert_eq!(column_name, "Age");
            assert_eq!(expected, Type::Int);
            assert_eq!(got, Type::Str);
        }
        other => panic!("expected incompatible type, got {:?}", other),
    }
    assert_eq!(*cell.get_value(), Value::Int(26));
}

#[test]
fn nil_conforms_in_any_column() {
    let mut column = Column::new("Age".to_string(), Type::Int, None);
    column.insert_value(Value::Nil).unwrap();
    assert_eq!(column.get_row_count(), 1);
}

#[test]
fn insert_value_validates_against_the_declared_type() {
    let mut column = Column::new("Name".to_string(), Type::Str, None);
    match column.insert_value(Value::Int(3)) {
        Err(Error::CellError(CellError::IncompatibleType { column_name, expected, got })) => {
            assert_eq!(column_name, "Name");
            assert_eq!(expected, Type::Str);
            assert_eq!(got, Type::Int);
        }
        other => panic!("expected incompatible type, got {:?}", other),
    }
    assert_eq!(column.get_row_count(), 0);
    column.insert_value(Value::Str("Alice".to_string())).unwrap();
    assert_eq!(column.get_row_count(), 1);
    let cell = column.get_cell(0).unwrap();
    assert_eq!(*cell.get_value(), Value::Str("Alice".to_string()));
    assert!(column.get_cell(1).is_none());
}

#[test]
fn adopt_cell_stamps_the_column_identity() {
    let mut column = Column::new("Flags".to_string(), Type::Bool, None);
    let cell = Cell::new(Value::Bool(true), None);
    column.adopt_cell(&cell);
    let adopted = column.get_cell(0).unwrap();
    let link = adopted.column.as_ref().unwrap();
    assert_eq!(link.id, column.id);
    assert_eq!(link.name, "Flags");
    assert_eq!(link.value_type, Type::Bool);
}

#[test]
fn row_length_mismatch_reports_expected_and_got() {
    let mut sheet = Sheet::new(
        "Employees".to_string(),
        vec![
            Column::new("Name".to_string(), Type::Str, None),
            Column::new("Age".to_string(), Type::Int, None),
            Column::new("Salary".to_string(), Type::Int, None),
        ],
        None,
    );
    match sheet.insert_row(vec![Value::Str("Alice".to_string()), Value::Int(25)]) {
        Err(Error::SheetError(SheetError::InvalidRowLength { expected, got })) => {
            assert_eq!(expected, 3);
            assert_eq!(got, 2);
        }
        other => panic!("expected row length mismatch, got {:?}", other),
    }
    assert_eq!(sheet.get_column_n(0).unwrap().get_row_count(), 0);
}

#[test]
fn insert_row_appends_one_value_per_column_in_order() {
    let mut sheet = Sheet::new(
        "Employees".to_string(),
        vec![
            Column::new("Name".to_string(), Type::Str, None),
            Column::new("Age".to_string(), Type::Int, None),
        ],
        None,
    );
    sheet.insert_row(vec![Value::Str("Alice".to_string()), Value::Int(25)]).unwrap();
    sheet.insert_row(vec![Value::Str("Bob".to_string()), Value::Int(30)]).unwrap();
    assert_eq!(sheet.get_column_count(), 2);
    let ages = sheet.get_column_by_name("Age").unwrap();
    assert_eq!(ages.get_row_count(), 2);
    assert_eq!(*ages.get_cell(0).unwrap().get_value(), Value::Int(25));
    assert_eq!(*ages.get_cell(1).unwrap().get_value(), Value::Int(30));
}

#[test]
fn insert_row_rejects_a_cross_typed_value_and_inserts_nothing() {
    let mut sheet = Sheet::new(
        "Employees".to_string(),
        vec![
            Column::new("Name".to_string(), Type::Str, None),
            Column::new("Age".to_string(), Type::Int, None),
        ],
        None,
    );
    match sheet.insert_row(vec![Value::Str("Alice".to_string()), Value::Str("old".to_string())]) {
        Err(Error::CellError(CellError::IncompatibleType { column_name, expected, got })) => {
            assert_eq!(column_name, "Age");
            assert_eq!(expected, Type::Int);
            assert_eq!(got, Type::Str);
        }
        other => panic!("expected incompatible type, got {:?}", other),
    }
    assert_eq!(sheet.get_column_by_name("Name").unwrap().get_row_count(), 0);
    assert_eq!(sheet.get_column_by_name("Age").unwrap().get_row_count(), 0);
}

#[test]
fn lookup_by_name_finds_the_first_match() {
    let mut sheet = Sheet::new(
        "S".to_string(),
        vec![
            Column::new("a".to_string(), Type::Int, None),
            Column::new("dup".to_string(), Type::Str, None),
            Column::new("dup".to_string(), Type::Bool, None),
        ],
        None,
    );
    assert_eq!(sheet.get_column_index("dup"), Some(1));
    assert_eq!(sheet.get_column_by_name("dup").unwrap().value_type, Type::Str);
    assert!(sheet.get_column_by_name("missing").is_none());
    assert_eq!(sheet.get_column_index("missing"), None);
    let dup = sheet.get_column_mut_by_name("dup").unwrap();
    assert_eq!(dup.value_type, Type::Str);
}

#[test]
fn lookup_by_id_matches_exactly() {
    let sheet = Sheet::new(
        "S".to_string(),
        vec![
            Column::new("a".to_string(), Type::Int, None),
            Column::new("b".to_string(), Type::Str, None),
        ],
        None,
    );
    let b_id = sheet.get_column_n(1).unwrap().id;
    assert_eq!(sheet.get_column_index_by_id(&b_id), Some(1));
    assert_eq!(sheet.get_column_by_id(&b_id).unwrap().name, "b");
    let absent = Identifier { hi: 0, lo: 0 };
    // A fresh random identifier collides with an all-zero one only if the
    // generator handed back zero twice; treat that as absent.
    if b_id != absent && sheet.get_column_n(0).unwrap().id != absent {
        assert!(sheet.get_column_by_id(&absent).is_none());
        assert_eq!(sheet.get_column_index_by_id(&absent), None);
    }
}

#[test]
fn identifier_serializes_to_its_sixteen_bytes() {
    let id = Identifier { hi: 0x0102030405060708, lo: 0x090a0b0c0d0e0f10 };
    let bytes = id.serialized_bytes();
    assert_eq!(bytes, (1u8..=16).collect::<Vec<u8>>());
    assert_eq!(Identifier::deserialize_bytes(&bytes).unwrap(), id);
    assert!(matches!(
        Identifier::deserialize_bytes(&bytes[..15]),
        Err(Error::UuidError(UuidError::InvalidSize { got: 15 }))
    ));
}

#[test]
fn fresh_identifiers_differ() {
    let a = Identifier::new();
    let b = Identifier::new();
    assert_ne!(a, b);
}

#[test]
fn registry_enforces_unique_names() {
    let mut base = Base::new();
    base.add_sheet(Sheet::new("one".to_string(), Vec::new(), None)).unwrap();
    base.add_sheet(Sheet::new("two".to_string(), Vec::new(), None)).unwrap();
    let err = base.add_sheet(Sheet::new("one".to_string(), Vec::new(), None)).unwrap_err();
    assert_eq!(err, "Sheet with the same name already exists.");
    assert_eq!(base.get_sheet("one").unwrap().name, "one");
    assert_eq!(base.get_sheet_mut("two").unwrap().name, "two");
    assert_eq!(base.get_sheet("three").unwrap_err(), "Sheet not found.");
    base.remove_sheet("one").unwrap();
    assert_eq!(base.get_sheet("one").unwrap_err(), "Sheet not found.");
    assert_eq!(base.remove_sheet("one").unwrap_err(), "Sheet not found.");
    assert_eq!(base.get_sheet("two").unwrap().name, "two");
}
