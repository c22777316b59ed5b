//! An identifier, a name, an ordered sequence of columns (row `i` across
//! all columns forms logical row `i`), and an optional back-reference to the
//! owning database. Lookup by name finds the first match; lookup by
//! identifier matches exactly. `insert_row` appends one value to each
//! column positionally, each insertion validated against that column's
//! declared type.

use vstd::prelude::*;
use vstd::string::*;
use vstd::utf8::{decode_utf8, encode_utf8, encode_utf8_decode_utf8, valid_utf8};

use crate::byte_deserializer::ByteDeserializer;
use crate::cell::CellError;
use crate::column::{
    column_cells_adopted, column_data_eq, column_encodable, lemma_column_bytes_data_eq,
    spec_adopted_cell, spec_column_bytes, Column, ColumnView,
};
use crate::data_value::{spec_conforms_to, spec_value_type, Value, ValueView};
use crate::database::{Database, DatabaseLink};
use crate::encoding::{
    lemma_u32_be_bytes_roundtrip, spec_u32_from_be_bytes, spec_u32_to_be_bytes, str_eq,
    u32_to_be_bytes,
};
use crate::errors::Error;
use crate::id::{lemma_id_bytes_roundtrip, spec_id_bytes, spec_id_from_bytes, Identifier};
use crate::length_table::{
    lemma_table_bytes_injective, lemma_table_bytes_len, spec_table_bytes, table_encodable,
    LengthTable,
};

verus! {

broadcast use crate::views::group_deep_view_facts;

/// The back-reference a column keeps to the sheet that adopted it: the
/// sheet's identity, not ownership.
#[derive(Debug)]
pub struct SheetLink {
    pub id: Identifier,
    pub name: String,
}

pub struct SheetLinkView {
    pub id: Identifier,
    pub name: Seq<char>,
}

#[derive(Debug)]
pub struct Sheet {
    pub id: Identifier,
    pub name: String,
    pub columns: Vec<Column>,
    pub database: Option<DatabaseLink>,
}

/// The mathematical shape of a `Sheet`.
pub struct SheetView {
    pub id: Identifier,
    pub name: Seq<char>,
    pub columns: Seq<ColumnView>,
    pub database: Option<DatabaseLink>,
}

#[derive(Debug)]
pub enum SheetError {
    SheetAlreadyAdopted { sheet_id: Identifier, sheet_name: String },
    SheetNotAdopted { sheet_id: Identifier, sheet_name: String },
    ColumnAlreadyExists { column_name: String },
    ColumnNotFound { column_name: String },
    InvalidRowLength { expected: usize, got: usize },
}

impl View for SheetLink {
    type V = SheetLinkView;

    open spec fn view(&self) -> SheetLinkView {
        SheetLinkView { id: self.id, name: self.name@ }
    }
}

impl DeepView for SheetLink {
    type V = SheetLinkView;

    open spec fn deep_view(&self) -> SheetLinkView {
        self.view()
    }
}

impl Clone for SheetLink {
    fn clone(&self) -> (r: Self)
        ensures
            r@ == self@,
    {
        SheetLink { id: self.id, name: self.name.clone() }
    }
}

impl View for Sheet {
    type V = SheetView;

    open spec fn view(&self) -> SheetView {
        SheetView {
            id: self.id,
            name: self.name@,
            columns: self.columns.deep_view(),
            database: self.database,
        }
    }
}

impl DeepView for Sheet {
    type V = SheetView;

    open spec fn deep_view(&self) -> SheetView {
        self.view()
    }
}

/// The identity a sheet stamps on the columns it adopts.
pub open spec fn spec_sheet_link(s: SheetView) -> SheetLinkView {
    SheetLinkView { id: s.id, name: s.name }
}

/// The column as it stands in a sheet after adoption.
pub open spec fn spec_adopted_column(s: SheetView, c: ColumnView) -> ColumnView {
    ColumnView {
        id: c.id,
        name: c.name,
        value_type: c.value_type,
        cells: c.cells,
        sheet: Some(spec_sheet_link(s)),
    }
}

/// A column with one more value appended, adopted by that column.
pub open spec fn spec_column_with_value(c: ColumnView, v: ValueView) -> ColumnView {
    ColumnView {
        id: c.id,
        name: c.name,
        value_type: c.value_type,
        cells: c.cells.push(spec_adopted_cell(c, v)),
        sheet: c.sheet,
    }
}

impl Clone for Sheet {
    fn clone(&self) -> (r: Self)
        ensures
            r@ == self@,
    {
        let mut columns: Vec<Column> = Vec::new();
        proof {
            assert(columns.deep_view() =~= self.columns.deep_view().subrange(0, 0));
        }
        let mut i: usize = 0;
        while i < self.columns.len()
            invariant
                0 <= i <= self.columns@.len(),
                columns.deep_view() == self.columns.deep_view().subrange(0, i as int),
            decreases self.columns@.len() - i,
        {
            columns.push(self.columns[i].clone());
            proof {
                assert(columns.deep_view() =~= self.columns.deep_view().subrange(0, i + 1));
            }
            i += 1;
        }
        proof {
            assert(columns.deep_view() =~= self.columns.deep_view());
        }
        Sheet { id: self.id, name: self.name.clone(), columns, database: self.database }
    }
}

impl Sheet {
    /// A new, unadopted sheet with a fresh random identifier.
    pub fn new(name: String, columns: Vec<Column>, database: Option<DatabaseLink>) -> (r: Self)
        ensures
            r@.name == name@,
            r@.columns == columns.deep_view(),
            r@.database == database,
    {
        Self { id: Identifier::new(), name, columns, database }
    }

    /// A sheet with every field given, identifier included; deserialization
    /// rebuilds sheets this way so identifiers survive the round trip.
    pub fn new_with_set_id(
        id: Identifier,
        name: String,
        columns: Vec<Column>,
        database: Option<DatabaseLink>,
    ) -> (r: Self)
        ensures
            r@.id == id,
            r@.name == name@,
            r@.columns == columns.deep_view(),
            r@.database == database,
    {
        Self { id, name, columns, database }
    }

    /// Clone the given column, stamp it with this sheet's identity, and
    /// append it to the columns.
    pub fn adopt_column(&mut self, column: &Column)
        ensures
            final(self).id == old(self).id,
            final(self)@.name == old(self)@.name,
            final(self)@.database == old(self)@.database,
            final(self)@.columns == old(self)@.columns.push(
                spec_adopted_column(old(self)@, column@),
            ),
    {
        let mut adopted = column.clone();
        adopted.adopt(self);
        let ghost adopted_view = adopted@;
        self.columns.push(adopted);
        proof {
            assert(self@.columns =~= old(self)@.columns.push(adopted_view));
            assert(adopted_view == spec_adopted_column(old(self)@, column@));
        }
    }

    /// Adopt each column in order.
    pub fn adopt_columns(&mut self, columns: Vec<Column>)
        ensures
            final(self).id == old(self).id,
            final(self)@.name == old(self)@.name,
            final(self)@.database == old(self)@.database,
            final(self)@.columns == old(self)@.columns + columns.deep_view().map_values(
                |c: ColumnView| spec_adopted_column(old(self)@, c),
            ),
    {
        let ghost goal = old(self)@.columns + columns.deep_view().map_values(
            |c: ColumnView| spec_adopted_column(old(self)@, c),
        );
        let mut i: usize = 0;
        while i < columns.len()
            invariant
                0 <= i <= columns@.len(),
                self.id == old(self).id,
                self@.name == old(self)@.name,
                self@.database == old(self)@.database,
                self@.columns == old(self)@.columns + columns.deep_view().subrange(0, i as int)
                    .map_values(|c: ColumnView| spec_adopted_column(old(self)@, c)),
            decreases columns@.len() - i,
        {
            self.adopt_column(&columns[i]);
            proof {
                assert(self@.columns =~= old(self)@.columns + columns.deep_view().subrange(
                    0,
                    i + 1,
                ).map_values(|c: ColumnView| spec_adopted_column(old(self)@, c)));
            }
            i += 1;
        }
        proof {
            assert(columns.deep_view().subrange(0, columns@.len() as int) =~= columns.deep_view());
            assert(self@.columns =~= goal);
        }
    }

    /// Attach the back-reference to the owning database.
    pub fn adopt(&mut self, database: &Database)
        ensures
            final(self).id == old(self).id,
            final(self)@.name == old(self)@.name,
            final(self)@.columns == old(self)@.columns,
            final(self)@.database == Some(DatabaseLink {  }),
    {
        let _ = database;
        self.database = Some(DatabaseLink {  });
    }

    pub fn get_column_count(&self) -> (r: usize)
        ensures
            r == self@.columns.len(),
    {
        self.columns.len()
    }

    pub fn get_column_n(&self, index: usize) -> (r: Option<&Column>)
        ensures
            index < self@.columns.len() ==> (r matches Some(c) && c@ == self@.columns[index as int]),
            index >= self@.columns.len() ==> r is None,
    {
        if index < self.columns.len() {
            Some(&self.columns[index])
        } else {
            None
        }
    }

    pub fn get_column_n_mut(&mut self, index: usize) -> (r: Option<&mut Column>)
        ensures
            index >= old(self)@.columns.len() ==> r is None && *final(self) == *old(self),
            index < old(self)@.columns.len() ==> (r matches Some(c) && c@ == old(self)@.columns[index as int] && final(self).id == old(self).id && final(self)@.name == old(self)@.name && final(self)@.database == old(self)@.database && final(self)@.columns.len() == old(self)@.columns.len() && final(self)@.columns[index as int] == final(c)@ && (forall|j: int|
                0 <= j < old(self)@.columns.len() && j != index ==> final(self)@.columns[j] == old(self)@.columns[j])),
    {
        if index < self.columns.len() {
            Some(&mut self.columns[index])
        } else {
            None
        }
    }

    /// The index of the first column with the given name, if any.
    pub fn get_column_index(&self, name: &str) -> (r: Option<usize>)
        ensures
            r matches Some(i) ==> i < self@.columns.len() && self@.columns[i as int].name == name@
                && (forall|j: int| 0 <= j < i ==> self@.columns[j].name != name@),
            r is None ==> forall|j: int| 0 <= j < self@.columns.len() ==> self@.columns[j].name
                != name@,
    {
        let mut i: usize = 0;
        while i < self.columns.len()
            invariant
                0 <= i <= self@.columns.len(),
                forall|j: int| 0 <= j < i ==> self@.columns[j].name != name@,
            decreases self@.columns.len() - i,
        {
            if str_eq(self.columns[i].name.as_str(), name) {
                return Some(i);
            }
            i += 1;
        }
        None
    }

    /// The first column with the given name; duplicates behind it stay
    /// unreachable by name.
    pub fn get_column_by_name(&self, name: &str) -> (r: Option<&Column>)
        ensures
            r matches Some(c) ==> exists|i: int|
                #![auto]
                0 <= i < self@.columns.len() && self@.columns[i].name == name@ && c@
                    == self@.columns[i] && (forall|j: int|
                    0 <= j < i ==> self@.columns[j].name != name@),
            r is None ==> forall|j: int| 0 <= j < self@.columns.len() ==> self@.columns[j].name
                != name@,
    {
        match self.get_column_index(name) {
            Some(i) => Some(&self.columns[i]),
            None => None,
        }
    }

    pub fn get_column_mut_by_name(&mut self, name: &str) -> (r: Option<&mut Column>)
        ensures
            r is None ==> *final(self) == *old(self) && (forall|j: int|
                0 <= j < old(self)@.columns.len() ==> old(self)@.columns[j].name != name@),
            r matches Some(c) ==> exists|i: int|
                #![auto]
                0 <= i < old(self)@.columns.len() && old(self)@.columns[i].name == name@ && (
                forall|j: int| 0 <= j < i ==> old(self)@.columns[j].name != name@) && c@ == old(self)@.columns[i] && final(self).id == old(self).id && final(self)@.name == old(self)@.name && final(self)@.database == old(self)@.database && final(self)@.columns.len() == old(self)@.columns.len() && final(self)@.columns[i] == final(c)@ && (forall|j: int|
                    0 <= j < old(self)@.columns.len() && j != i ==> final(self)@.columns[j] == old(self)@.columns[j]),
    {
        match self.get_column_index(name) {
            Some(i) => Some(&mut self.columns[i]),
            None => None,
        }
    }

    /// The first column with the given identifier, if any.
    pub fn get_column_by_id(&self, id: &Identifier) -> (r: Option<&Column>)
        ensures
            r matches Some(c) ==> exists|i: int|
                #![auto]
                0 <= i < self@.columns.len() && self@.columns[i].id == *id && c@ == self@.columns[i]
                    && (forall|j: int| 0 <= j < i ==> self@.columns[j].id != *id),
            r is None ==> forall|j: int| 0 <= j < self@.columns.len() ==> self@.columns[j].id
                != *id,
    {
        match self.get_column_index_by_id(id) {
            Some(i) => Some(&self.columns[i]),
            None => None,
        }
    }

    pub fn get_column_mut_by_id(&mut self, id: &Identifier) -> (r: Option<&mut Column>)
        ensures
            r is None ==> *final(self) == *old(self) && (forall|j: int|
                0 <= j < old(self)@.columns.len() ==> old(self)@.columns[j].id != *id),
            r matches Some(c) ==> exists|i: int|
                #![auto]
                0 <= i < old(self)@.columns.len() && old(self)@.columns[i].id == *id && (forall|
                    j: int,
                |
                    0 <= j < i ==> old(self)@.columns[j].id != *id) && c@ == old(self)@.columns[i]
                    && final(self).id == old(self).id && final(self)@.name == old(self)@.name
                    && final(self)@.database == old(self)@.database && final(self)@.columns.len()
                    == old(self)@.columns.len() && final(self)@.columns[i] == final(c)@ && (forall|
                    j: int,
                |
                    0 <= j < old(self)@.columns.len() && j != i ==> final(self)@.columns[j] == old(self)@.columns[j]),
    {
        match self.get_column_index_by_id(id) {
            Some(i) => Some(&mut self.columns[i]),
            None => None,
        }
    }

    /// The index of the first column with the given identifier, if any.
    pub fn get_column_index_by_id(&self, id: &Identifier) -> (r: Option<usize>)
        ensures
            r matches Some(i) ==> i < self@.columns.len() && self@.columns[i as int].id == *id && (
            forall|j: int| 0 <= j < i ==> self@.columns[j].id != *id),
            r is None ==> forall|j: int| 0 <= j < self@.columns.len() ==> self@.columns[j].id
                != *id,
    {
        let mut i: usize = 0;
        while i < self.columns.len()
            invariant
                0 <= i <= self@.columns.len(),
                forall|j: int| 0 <= j < i ==> self@.columns[j].id != *id,
            decreases self@.columns.len() - i,
        {
            if self.columns[i].id == *id {
                return Some(i);
            }
            i += 1;
        }
        None
    }

    /// Append one logical row: the values must number exactly one per
    /// column, and each must conform to its column's declared type; on any
    /// failure nothing is inserted.
    pub fn insert_row(&mut self, values: Vec<Value>) -> (r: Result<(), Error>)
        ensures
            final(self).id == old(self).id,
            final(self)@.name == old(self)@.name,
            final(self)@.database == old(self)@.database,
            values@.len() != old(self)@.columns.len() ==> *final(self) == *old(self) && r == (Err::<
                (),
                Error,
            >(Error::SheetError(SheetError::InvalidRowLength {
                expected: old(self)@.columns.len() as usize,
                got: values@.len() as usize,
            }))),
            values@.len() == old(self)@.columns.len() && (forall|i: int|
                0 <= i < values@.len() ==> spec_conforms_to(
                    values.deep_view()[i],
                    old(self)@.columns[i].value_type,
                )) ==> r is Ok && final(self)@.columns.len() == old(self)@.columns.len() && (forall|
                i: int,
            |
                0 <= i < values@.len() ==> final(self)@.columns[i] == spec_column_with_value(
                    old(self)@.columns[i],
                    values.deep_view()[i],
                )),
            values@.len() == old(self)@.columns.len() && !(forall|i: int|
                0 <= i < values@.len() ==> spec_conforms_to(
                    values.deep_view()[i],
                    old(self)@.columns[i].value_type,
                )) ==> *final(self) == *old(self) && exists|k: int|
                #![auto]
                0 <= k < values@.len() && !spec_conforms_to(
                    values.deep_view()[k],
                    old(self)@.columns[k].value_type,
                ) && (forall|j: int|
                    0 <= j < k ==> spec_conforms_to(
                        values.deep_view()[j],
                        old(self)@.columns[j].value_type,
                    )) && (r matches Err(Error::CellError(CellError::IncompatibleType {
                    column_name,
                    expected,
                    got,
                })) && column_name@ == old(self)@.columns[k].name && expected == old(self)@.columns[k].value_type && got == spec_value_type(values.deep_view()[k])),
    {
        if values.len() != self.columns.len() {
            return Err(Error::SheetError(SheetError::InvalidRowLength {
                expected: self.columns.len(),
                got: values.len(),
            }));
        }
        let mut k: usize = 0;
        while k < values.len()
            invariant
                values@.len() == self.columns@.len(),
                *self == *old(self),
                0 <= k <= values@.len(),
                forall|j: int|
                    0 <= j < k ==> spec_conforms_to(
                        values.deep_view()[j],
                        self@.columns[j].value_type,
                    ),
            decreases values@.len() - k,
        {
            if !values[k].conforms_to(&self.columns[k].value_type) {
                proof {
                    assert(values.deep_view()[k as int] == values@[k as int]@);
                    assert(!spec_conforms_to(
                        values.deep_view()[k as int],
                        old(self)@.columns[k as int].value_type,
                    ));
                }
                return Err(Error::CellError(CellError::IncompatibleType {
                    column_name: self.columns[k].name.clone(),
                    expected: self.columns[k].value_type,
                    got: values[k].get_type(),
                }));
            }
            proof {
                assert(values.deep_view()[k as int] == values@[k as int]@);
            }
            k += 1;
        }
        let mut i: usize = 0;
        while i < values.len()
            invariant
                values@.len() == old(self)@.columns.len(),
                0 <= i <= values@.len(),
                self.id == old(self).id,
                self@.name == old(self)@.name,
                self@.database == old(self)@.database,
                self@.columns.len() == old(self)@.columns.len(),
                forall|j: int|
                    0 <= j < values@.len() ==> spec_conforms_to(
                        values.deep_view()[j],
                        old(self)@.columns[j].value_type,
                    ),
                forall|j: int|
                    i <= j < values@.len() ==> self@.columns[j] == old(self)@.columns[j],
                forall|j: int|
                    0 <= j < i ==> self@.columns[j] == spec_column_with_value(
                        old(self)@.columns[j],
                        values.deep_view()[j],
                    ),
            decreases values@.len() - i,
        {
            let value = values[i].clone();
            let ghost pre_at = self.columns@;
            let ghost pre_dv = self@.columns;
            proof {
                assert(values.deep_view()[i as int] == values@[i as int]@);
            }
            match self.columns[i].insert_value(value) {
                Ok(_) => {},
                Err(e) => {
                    return Err(e);
                },
            }
            proof {
                assert(self@.columns[i as int] == spec_column_with_value(
                    old(self)@.columns[i as int],
                    values.deep_view()[i as int],
                ));
                assert forall|j: int| 0 <= j < i implies self@.columns[j]
                    == spec_column_with_value(
                    old(self)@.columns[j],
                    values.deep_view()[j],
                ) by {
                    assert(self.columns@[j] == pre_at[j]);
                    assert(self@.columns[j] == self.columns@[j].deep_view());
                    assert(pre_dv[j] == pre_at[j].deep_view());
                }
                assert forall|j: int| i < j < values@.len() implies self@.columns[j] == old(
                    self,
                )@.columns[j] by {
                    assert(self.columns@[j] == pre_at[j]);
                    assert(self@.columns[j] == self.columns@[j].deep_view());
                    assert(pre_dv[j] == pre_at[j].deep_view());
                }
            }
            i += 1;
        }
        Ok(())
    }
}


/// The columns' wire chunks, in order.
pub open spec fn spec_columns_chunks(cols: Seq<ColumnView>) -> Seq<Seq<u8>> {
    cols.map_values(|c: ColumnView| spec_column_bytes(c))
}

/// A sheet's wire form: 16 identifier bytes, a 4-byte big-endian name
/// length, the UTF-8 name, then the columns framed by the length table.
pub open spec fn spec_sheet_bytes(s: SheetView) -> Seq<u8> {
    spec_id_bytes(s.id) + spec_u32_to_be_bytes(encode_utf8(s.name).len() as u32) + encode_utf8(
        s.name,
    ) + spec_table_bytes(spec_columns_chunks(s.columns))
}

/// The name must fit its 4-byte length field, every column must be
/// encodable, and the columns must fit their framing.
pub open spec fn sheet_encodable(s: SheetView) -> bool {
    &&& encode_utf8(s.name).len() <= u32::MAX
    &&& forall|i: int| 0 <= i < s.columns.len() ==> column_encodable(#[trigger] s.columns[i])
    &&& table_encodable(spec_columns_chunks(s.columns))
}

/// Equality of everything a sheet's wire form carries: identifier, name,
/// and the columns' data in order.
pub open spec fn sheet_data_eq(s1: SheetView, s2: SheetView) -> bool {
    &&& s1.id == s2.id
    &&& s1.name == s2.name
    &&& s1.columns.len() == s2.columns.len()
    &&& forall|i: int|
        0 <= i < s1.columns.len() ==> column_data_eq(#[trigger] s1.columns[i], s2.columns[i])
}

/// Every column carries this sheet's identity, and every cell its column's.
pub open spec fn sheet_columns_adopted(s: SheetView) -> bool {
    forall|i: int|
        0 <= i < s.columns.len() ==> (#[trigger] s.columns[i]).sheet == Some(spec_sheet_link(s))
            && column_cells_adopted(s.columns[i])
}

/// Where each region of a sheet's wire form sits.
pub proof fn lemma_sheet_bytes_shape(s: SheetView)
    requires
        encode_utf8(s.name).len() <= u32::MAX,
    ensures
        ({
            let nl = encode_utf8(s.name).len() as int;
            let total = spec_sheet_bytes(s).len() as int;
            &&& total == 20 + nl + spec_table_bytes(spec_columns_chunks(s.columns)).len()
            &&& total >= 28 + nl
            &&& spec_sheet_bytes(s).subrange(0, 16) == spec_id_bytes(s.id)
            &&& spec_sheet_bytes(s).subrange(16, 20) == spec_u32_to_be_bytes(
                encode_utf8(s.name).len() as u32,
            )
            &&& spec_u32_from_be_bytes(spec_sheet_bytes(s).subrange(16, 20)) == encode_utf8(
                s.name,
            ).len()
            &&& spec_sheet_bytes(s).subrange(20, 20 + nl) == encode_utf8(s.name)
            &&& spec_sheet_bytes(s).subrange(20 + nl, total) == spec_table_bytes(
                spec_columns_chunks(s.columns),
            )
        }),
{
    lemma_id_bytes_roundtrip(s.id);
    lemma_u32_be_bytes_roundtrip(encode_utf8(s.name).len() as u32);
    lemma_table_bytes_len(spec_columns_chunks(s.columns));
    let nl = encode_utf8(s.name).len() as int;
    let total = spec_sheet_bytes(s).len() as int;
    assert(spec_sheet_bytes(s).subrange(0, 16) =~= spec_id_bytes(s.id));
    assert(spec_sheet_bytes(s).subrange(16, 20) =~= spec_u32_to_be_bytes(
        encode_utf8(s.name).len() as u32,
    ));
    assert(spec_sheet_bytes(s).subrange(20, 20 + nl) =~= encode_utf8(s.name));
    assert(spec_sheet_bytes(s).subrange(20 + nl, total) =~= spec_table_bytes(
        spec_columns_chunks(s.columns),
    ));
}

/// No two sheets with different data share a wire form.
pub proof fn lemma_sheet_bytes_data_eq(s1: SheetView, s2: SheetView)
    requires
        sheet_encodable(s1),
        sheet_encodable(s2),
        spec_sheet_bytes(s1) == spec_sheet_bytes(s2),
    ensures
        sheet_data_eq(s1, s2),
{
    lemma_sheet_bytes_shape(s1);
    lemma_sheet_bytes_shape(s2);
    assert(encode_utf8(s1.name).len() == encode_utf8(s2.name).len());
    lemma_id_bytes_roundtrip(s1.id);
    lemma_id_bytes_roundtrip(s2.id);
    assert(s1.id == s2.id);
    assert(encode_utf8(s1.name) == encode_utf8(s2.name));
    crate::encoding::lemma_encode_utf8_injective(s1.name, s2.name);
    assert(spec_table_bytes(spec_columns_chunks(s1.columns)) == spec_table_bytes(
        spec_columns_chunks(s2.columns),
    ));
    lemma_table_bytes_injective(spec_columns_chunks(s1.columns), spec_columns_chunks(s2.columns));
    assert(s1.columns.len() == s2.columns.len());
    assert forall|i: int| 0 <= i < s1.columns.len() implies column_data_eq(
        #[trigger] s1.columns[i],
        s2.columns[i],
    ) by {
        assert(spec_columns_chunks(s1.columns)[i] == spec_columns_chunks(s2.columns)[i]);
        lemma_column_bytes_data_eq(s1.columns[i], s2.columns[i]);
    }
}

impl Sheet {
    pub fn serialized_bytes(&self) -> (r: Vec<u8>)
        requires
            sheet_encodable(self@),
        ensures
            r@ == spec_sheet_bytes(self@),
    {
        let mut bytes = self.id.serialized_bytes();
        let name_utf8 = self.name.as_str().as_bytes_vec();
        let mut len_word = u32_to_be_bytes(name_utf8.len() as u32);
        bytes.append(&mut len_word);
        let mut name_bytes = name_utf8;
        bytes.append(&mut name_bytes);
        let mut chunks: Vec<Vec<u8>> = Vec::new();
        proof {
            assert(chunks.deep_view() =~= spec_columns_chunks(self@.columns.subrange(0, 0)));
        }
        let mut i: usize = 0;
        while i < self.columns.len()
            invariant
                sheet_encodable(self@),
                0 <= i <= self@.columns.len(),
                self@.columns.len() == self.columns@.len(),
                chunks.deep_view() == spec_columns_chunks(self@.columns.subrange(0, i as int)),
            decreases self@.columns.len() - i,
        {
            broadcast use crate::views::lemma_bytes_deep_view;

            proof {
                assert(column_encodable(self@.columns[i as int]));
                assert(self.columns@[i as int]@ == self@.columns[i as int]);
            }
            let ghost pre_chunks = chunks.deep_view();
            let chunk = self.columns[i].serialized_bytes();
            let ghost chunk_view = chunk@;
            chunks.push(chunk);
            proof {
                assert(chunks.deep_view() =~= pre_chunks.push(chunk_view));
                assert(chunk_view == spec_column_bytes(self@.columns[i as int]));
                assert(chunks.deep_view() =~= spec_columns_chunks(
                    self@.columns.subrange(0, i + 1),
                ));
            }
            i += 1;
        }
        proof {
            assert(self@.columns.subrange(0, self@.columns.len() as int) =~= self@.columns);
        }
        let mut table = LengthTable::serialize(&chunks);
        bytes.append(&mut table);
        proof {
            assert(bytes@ =~= spec_sheet_bytes(self@));
        }
        bytes
    }

    /// Decode a sheet. The columns come back adopted by this sheet (their
    /// cells by their columns), and the database back-reference is unset.
    /// Every valid wire form decodes to a data-equal sheet; an invalid name
    /// byte run is decoded lossily, as the cursor does.
    pub fn deserialize_bytes(bytes: &[u8]) -> (r: Result<Sheet, Error>)
        ensures
            r matches Ok(s) ==> ({
                let nl = spec_u32_from_be_bytes(bytes@.subrange(16, 20)) as int;
                &&& bytes@.len() >= 20 + nl
                &&& s@.id == spec_id_from_bytes(bytes@.subrange(0, 16))
                &&& (valid_utf8(bytes@.subrange(20, 20 + nl)) ==> s@.name == decode_utf8(
                    bytes@.subrange(20, 20 + nl),
                ))
                &&& s@.database is None
                &&& sheet_columns_adopted(s@)
            }),
            forall|sv: SheetView|
                #![trigger spec_sheet_bytes(sv)]
                sheet_encodable(sv) && spec_sheet_bytes(sv) == bytes@ ==> (r matches Ok(s)
                    && sheet_data_eq(s@, sv)),
    {
        broadcast use crate::views::lemma_bytes_deep_view;

        let mut de = ByteDeserializer::new(bytes);
        let id_bytes = match de.read_bytes(16) {
            Ok(b) => b,
            Err(e) => {
                proof {
                    assert forall|sv: SheetView| sheet_encodable(sv)
                        implies spec_sheet_bytes(sv) != bytes@ by {
                        lemma_sheet_bytes_shape(sv);
                    }
                }
                return Err(e);
            },
        };
        let id = match Identifier::deserialize_bytes(id_bytes.as_slice()) {
            Ok(id) => id,
            Err(e) => {
                proof {
                    assert(false);
                }
                return Err(e);
            },
        };
        let name_len = match de.read_u32() {
            Ok(v) => v,
            Err(e) => {
                proof {
                    assert forall|sv: SheetView| sheet_encodable(sv)
                        implies spec_sheet_bytes(sv) != bytes@ by {
                        lemma_sheet_bytes_shape(sv);
                    }
                }
                return Err(e);
            },
        };
        let name = match de.read_string(name_len as usize) {
            Ok(s) => s,
            Err(e) => {
                proof {
                    assert forall|sv: SheetView| sheet_encodable(sv)
                        implies spec_sheet_bytes(sv) != bytes@ by {
                        lemma_sheet_bytes_shape(sv);
                        if spec_sheet_bytes(sv) == bytes@ {
                            assert(name_len == encode_utf8(sv.name).len());
                        }
                    }
                }
                return Err(e);
            },
        };
        let rest = de.remaining_bytes();
        let chunks = match LengthTable::deserialize(rest) {
            Ok(c) => c,
            Err(e) => {
                proof {
                    assert forall|sv: SheetView| sheet_encodable(sv)
                        implies spec_sheet_bytes(sv) != bytes@ by {
                        lemma_sheet_bytes_shape(sv);
                        if spec_sheet_bytes(sv) == bytes@ {
                            assert(name_len == encode_utf8(sv.name).len());
                            assert(rest@ == spec_table_bytes(spec_columns_chunks(sv.columns)));
                        }
                    }
                }
                return Err(e);
            },
        };
        let mut columns: Vec<Column> = Vec::new();
        proof {
            assert(columns.deep_view() =~= Seq::<ColumnView>::empty());
            assert forall|sv: SheetView| sheet_encodable(sv) && #[trigger] spec_sheet_bytes(sv)
                == bytes@ implies chunks.deep_view() == spec_columns_chunks(sv.columns) by {
                lemma_sheet_bytes_shape(sv);
                assert(name_len == encode_utf8(sv.name).len());
                assert(rest@ == spec_table_bytes(spec_columns_chunks(sv.columns)));
            }
        }
        let mut j: usize = 0;
        while j < chunks.len()
            invariant
                0 <= j <= chunks@.len(),
                columns.deep_view().len() == j,
                forall|k: int|
                    0 <= k < j ==> (#[trigger] columns.deep_view()[k]).sheet is None
                        && column_cells_adopted(columns.deep_view()[k]),
                forall|sv: SheetView|
                    sheet_encodable(sv) && #[trigger] spec_sheet_bytes(sv) == bytes@
                        ==> chunks.deep_view() == spec_columns_chunks(sv.columns) && (forall|
                        k: int,
                    |
                        0 <= k < j ==> column_data_eq(
                            #[trigger] columns.deep_view()[k],
                            sv.columns[k],
                        )),
            decreases chunks@.len() - j,
        {
            broadcast use crate::views::lemma_bytes_deep_view;

            let ghost pre_columns = columns.deep_view();
            let column = match Column::deserialize_bytes(chunks[j].as_slice()) {
                Ok(c) => c,
                Err(e) => {
                    proof {
                        assert forall|sv: SheetView| sheet_encodable(sv)
                            implies spec_sheet_bytes(sv) != bytes@ by {
                            if spec_sheet_bytes(sv) == bytes@ {
                                assert(chunks.deep_view() == spec_columns_chunks(sv.columns));
                                assert(chunks.deep_view()[j as int] == spec_column_bytes(
                                    sv.columns[j as int],
                                ));
                                assert(chunks@[j as int]@ == spec_column_bytes(
                                    sv.columns[j as int],
                                ));
                                assert(column_encodable(sv.columns[j as int]));
                            }
                        }
                    }
                    return Err(e);
                },
            };
            columns.push(column);
            proof {
                assert(columns.deep_view() =~= pre_columns.push(column@));
                assert forall|sv: SheetView| sheet_encodable(sv) && #[trigger] spec_sheet_bytes(
                    sv,
                ) == bytes@ implies (forall|k: int|
                    0 <= k < j + 1 ==> column_data_eq(
                        #[trigger] columns.deep_view()[k],
                        sv.columns[k],
                    )) by {
                    assert(chunks.deep_view() == spec_columns_chunks(sv.columns));
                    assert(chunks.deep_view()[j as int] == spec_column_bytes(
                        sv.columns[j as int],
                    ));
                    assert(chunks@[j as int]@ == spec_column_bytes(sv.columns[j as int]));
                    assert(column_encodable(sv.columns[j as int]));
                    assert(column_data_eq(column@, sv.columns[j as int]));
                }
            }
            j += 1;
        }
        let mut sheet = Sheet::new_with_set_id(id, name, Vec::new(), None);
        let ghost columns_views = columns.deep_view();
        sheet.adopt_columns(columns);
        proof {
            assert(sheet@.columns =~= columns_views.map_values(
                |c: ColumnView|
                    spec_adopted_column(
                        SheetView {
                            id: sheet@.id,
                            name: sheet@.name,
                            columns: Seq::<ColumnView>::empty(),
                            database: None,
                        },
                        c,
                    ),
            ));
            assert(sheet_columns_adopted(sheet@));
            assert forall|sv: SheetView| sheet_encodable(sv) && #[trigger] spec_sheet_bytes(sv)
                == bytes@ implies sheet_data_eq(sheet@, sv) by {
                lemma_sheet_bytes_shape(sv);
                assert(name_len == encode_utf8(sv.name).len());
                lemma_id_bytes_roundtrip(sv.id);
                assert(sheet@.id == sv.id);
                encode_utf8_decode_utf8(sv.name);
                vstd::utf8::encode_utf8_valid_utf8(sv.name);
                assert(sheet@.name == sv.name);
                assert(chunks.deep_view() == spec_columns_chunks(sv.columns));
                assert(sheet@.columns.len() == sv.columns.len());
                assert forall|k: int| 0 <= k < sheet@.columns.len() implies column_data_eq(
                    #[trigger] sheet@.columns[k],
                    sv.columns[k],
                ) by {
                    assert(column_data_eq(columns_views[k], sv.columns[k]));
                }
            }
        }
        Ok(sheet)
    }
}

} // verus!
