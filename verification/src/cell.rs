//! One scalar value plus an optional back-reference to the column that
//! adopted it. A cell starts unadopted; adoption happens once, when a column
//! inserts it, and records the adopting column's identity. An unadopted
//! cell's value cannot be reassigned, and a reassignment must conform to the
//! owning column's declared type.

use vstd::prelude::*;

use crate::column::{spec_column_link, Column, ColumnLink, ColumnLinkView};
use crate::data_type::Type;
use crate::data_value::{
    spec_conforms_to, spec_value_bytes, spec_value_type, value_encodable, Value, ValueView,
};
use crate::errors::Error;

verus! {

broadcast use crate::views::group_deep_view_facts;

#[derive(Debug)]
pub struct Cell {
    pub value: Value,
    pub column: Option<ColumnLink>,
}

/// The mathematical shape of a `Cell`.
pub struct CellView {
    pub value: ValueView,
    pub column: Option<ColumnLinkView>,
}

#[derive(Debug)]
pub enum CellError {
    IsAlreadyAdopted,
    IsNotAdopted,
    IncompatibleType { column_name: String, expected: Type, got: Type },
}

impl View for Cell {
    type V = CellView;

    open spec fn view(&self) -> CellView {
        CellView { value: self.value@, column: self.column.deep_view() }
    }
}

impl DeepView for Cell {
    type V = CellView;

    open spec fn deep_view(&self) -> CellView {
        self.view()
    }
}

impl Clone for Cell {
    fn clone(&self) -> (r: Self)
        ensures
            r@ == self@,
    {
        let column = match &self.column {
            Some(link) => Some(link.clone()),
            None => None,
        };
        Cell { value: self.value.clone(), column }
    }
}

impl Cell {
    pub fn new(value: Value, column: Option<ColumnLink>) -> (r: Self)
        ensures
            r@.value == value@,
            r@.column == column.deep_view(),
    {
        Self { value, column }
    }

    /// Attach the back-reference to the adopting column. Adoption is
    /// one-time by construction: only a column's own insertion calls this.
    pub fn adopt(&mut self, column: &Column)
        ensures
            final(self)@.value == old(self)@.value,
            final(self)@.column == Some(spec_column_link(column@)),
    {
        self.column = Some(ColumnLink {
            id: column.id,
            name: column.name.clone(),
            value_type: column.value_type,
        });
    }

    pub fn get_value(&self) -> (r: &Value)
        ensures
            r@ == self@.value,
    {
        &self.value
    }

    /// Reassigning the value demands an owning column, and the new value
    /// must conform to that column's declared type; the error names the
    /// column and both types.
    pub fn set_value(&mut self, value: Value) -> (r: Result<(), Error>)
        ensures
            old(self)@.column is None ==> r == (Err::<(), Error>(Error::CellError(
                CellError::IsNotAdopted,
            ))) && *final(self) == *old(self),
            old(self)@.column matches Some(link) ==> {
                &&& spec_conforms_to(value@, link.value_type) ==> {
                    &&& r is Ok
                    &&& final(self)@.value == value@
                    &&& final(self)@.column == old(self)@.column
                }
                &&& !spec_conforms_to(value@, link.value_type) ==> {
                    &&& *final(self) == *old(self)
                    &&& r matches Err(Error::CellError(CellError::IncompatibleType {
                        column_name,
                        expected,
                        got,
                    })) && column_name@ == link.name && expected == link.value_type && got
                        == spec_value_type(value@)
                }
            },
    {
        match &self.column {
            Some(link) => {
                if value.conforms_to(&link.value_type) {
                    self.value = value;
                    Ok(())
                } else {
                    Err(Error::CellError(CellError::IncompatibleType {
                        column_name: link.name.clone(),
                        expected: link.value_type,
                        got: value.get_type(),
                    }))
                }
            },
            None => Err(Error::CellError(CellError::IsNotAdopted)),
        }
    }

    /// A cell's wire form is exactly its value's wire form: the cell carries
    /// no independent header, and the back-reference never travels.
    pub fn serialized_bytes(&self) -> (r: Vec<u8>)
        requires
            cell_encodable(self@),
        ensures
            r@ == spec_cell_bytes(self@),
    {
        self.value.serialized_bytes()
    }

    /// Decode a cell from its value's wire form; the cell comes back
    /// unadopted. Exactly the buffers `spec_value_bytes` produces are
    /// accepted, with the value codec's errors.
    pub fn deserialize_bytes(bytes: &[u8]) -> (r: Result<Cell, Error>)
        ensures
            r matches Ok(c) ==> spec_cell_bytes(c@) == bytes@ && cell_encodable(c@) && c@.column
                is None,
            forall|v: ValueView|
                #![trigger spec_value_bytes(v)]
                value_encodable(v) && spec_value_bytes(v) == bytes@ ==> (r matches Ok(c)
                    && c@.value == v),
            r is Err ==> forall|v: ValueView| value_encodable(v) ==> spec_value_bytes(v) != bytes@,
    {
        match Value::deserialize_bytes(bytes) {
            Ok(value) => Ok(Cell::new(value, None)),
            Err(e) => Err(e),
        }
    }
}

/// A cell's wire form: its value's wire form.
pub open spec fn spec_cell_bytes(c: CellView) -> Seq<u8> {
    spec_value_bytes(c.value)
}

pub open spec fn cell_encodable(c: CellView) -> bool {
    value_encodable(c.value)
}

} // verus!
