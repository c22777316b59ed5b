//! An identifier, a name, a declared type, an ordered sequence of cells
//! (row order is insertion order), and an optional back-reference to the
//! owning sheet. Cells enter a column only through adoption, which stamps
//! the cell with this column's identity; `insert_value` additionally
//! validates the value against the declared type.

use vstd::prelude::*;
use vstd::string::*;
use vstd::utf8::{decode_utf8, encode_utf8, encode_utf8_decode_utf8, valid_utf8};

use crate::byte_deserializer::ByteDeserializer;
use crate::cell::{cell_encodable, spec_cell_bytes, Cell, CellError, CellView};
use crate::data_type::{lemma_type_tag_roundtrip, spec_type_tag, Type};
use crate::data_value::{
    lemma_value_bytes_injective, spec_conforms_to, spec_value_type, Value, ValueView,
};
use crate::encoding::{
    lemma_encode_utf8_injective, lemma_u32_be_bytes_roundtrip, spec_u32_from_be_bytes,
    spec_u32_to_be_bytes, u32_to_be_bytes,
};
use crate::errors::Error;
use crate::id::{lemma_id_bytes_roundtrip, spec_id_bytes, spec_id_from_bytes, Identifier};
use crate::length_table::{
    lemma_table_bytes_injective, lemma_table_bytes_len, spec_table_bytes, table_encodable,
    LengthTable,
};
use crate::sheet::{Sheet, SheetLink, SheetLinkView};

verus! {

broadcast use crate::views::group_deep_view_facts;

/// The back-reference a cell keeps to the column that adopted it: the
/// column's identity, not ownership.
#[derive(Debug)]
pub struct ColumnLink {
    pub id: Identifier,
    pub name: String,
    pub value_type: Type,
}

pub struct ColumnLinkView {
    pub id: Identifier,
    pub name: Seq<char>,
    pub value_type: Type,
}

#[derive(Debug)]
pub struct Column {
    pub id: Identifier,
    pub name: String,
    pub value_type: Type,
    pub cells: Vec<Cell>,
    pub sheet: Option<SheetLink>,
}

/// The mathematical shape of a `Column`.
pub struct ColumnView {
    pub id: Identifier,
    pub name: Seq<char>,
    pub value_type: Type,
    pub cells: Seq<CellView>,
    pub sheet: Option<SheetLinkView>,
}

#[derive(Debug)]
pub enum ColumnError {
    ColumnAlreadyAdopted { column_id: Identifier, column_name: String },
    ColumnNotAdopted { column_id: Identifier, column_name: String },
}

impl View for ColumnLink {
    type V = ColumnLinkView;

    open spec fn view(&self) -> ColumnLinkView {
        ColumnLinkView { id: self.id, name: self.name@, value_type: self.value_type }
    }
}

impl DeepView for ColumnLink {
    type V = ColumnLinkView;

    open spec fn deep_view(&self) -> ColumnLinkView {
        self.view()
    }
}

impl Clone for ColumnLink {
    fn clone(&self) -> (r: Self)
        ensures
            r@ == self@,
    {
        ColumnLink { id: self.id, name: self.name.clone(), value_type: self.value_type }
    }
}

impl View for Column {
    type V = ColumnView;

    open spec fn view(&self) -> ColumnView {
        ColumnView {
            id: self.id,
            name: self.name@,
            value_type: self.value_type,
            cells: self.cells.deep_view(),
            sheet: self.sheet.deep_view(),
        }
    }
}

impl DeepView for Column {
    type V = ColumnView;

    open spec fn deep_view(&self) -> ColumnView {
        self.view()
    }
}

/// The identity a column stamps on the cells it adopts.
pub open spec fn spec_column_link(c: ColumnView) -> ColumnLinkView {
    ColumnLinkView { id: c.id, name: c.name, value_type: c.value_type }
}

/// The cell as it stands in a column after adoption: the value, stamped
/// with the adopting column's identity.
pub open spec fn spec_adopted_cell(c: ColumnView, value: ValueView) -> CellView {
    CellView { value, column: Some(spec_column_link(c)) }
}

impl Clone for Column {
    fn clone(&self) -> (r: Self)
        ensures
            r@ == self@,
    {
        let mut cells: Vec<Cell> = Vec::new();
        proof {
            assert(cells.deep_view() =~= self.cells.deep_view().subrange(0, 0));
        }
        let mut i: usize = 0;
        while i < self.cells.len()
            invariant
                0 <= i <= self.cells@.len(),
                cells.deep_view() == self.cells.deep_view().subrange(0, i as int),
            decreases self.cells@.len() - i,
        {
            cells.push(self.cells[i].clone());
            proof {
                assert(cells.deep_view() =~= self.cells.deep_view().subrange(0, i + 1));
            }
            i += 1;
        }
        let sheet = match &self.sheet {
            Some(link) => Some(link.clone()),
            None => None,
        };
        proof {
            assert(cells.deep_view() =~= self.cells.deep_view());
        }
        Column {
            id: self.id,
            name: self.name.clone(),
            value_type: self.value_type,
            cells,
            sheet,
        }
    }
}

impl Column {
    /// A new, empty, unadopted column with a fresh random identifier.
    pub fn new(name: String, value_type: Type, sheet: Option<SheetLink>) -> (r: Self)
        ensures
            r@.name == name@,
            r@.value_type == value_type,
            r@.cells == Seq::<CellView>::empty(),
            r@.sheet == sheet.deep_view(),
    {
        let r = Self { id: Identifier::new(), name, value_type, cells: Vec::new(), sheet };
        proof {
            assert(r@.cells =~= Seq::<CellView>::empty());
        }
        r
    }

    /// Clone the given cell, stamp it with this column's identity, and
    /// append it to the cells. Row order is insertion order.
    pub fn adopt_cell(&mut self, cell: &Cell)
        ensures
            final(self).id == old(self).id,
            final(self)@.name == old(self)@.name,
            final(self).value_type == old(self).value_type,
            final(self)@.sheet == old(self)@.sheet,
            final(self)@.cells == old(self)@.cells.push(
                spec_adopted_cell(old(self)@, cell@.value),
            ),
    {
        let mut adopted = cell.clone();
        adopted.adopt(self);
        let ghost adopted_view = adopted@;
        self.cells.push(adopted);
        proof {
            assert(self@.cells =~= old(self)@.cells.push(adopted_view));
            assert(adopted_view == spec_adopted_cell(old(self)@, cell@.value));
        }
    }

    /// Adopt each cell in order.
    pub fn adopt_cells(&mut self, cells: Vec<Cell>)
        ensures
            final(self).id == old(self).id,
            final(self)@.name == old(self)@.name,
            final(self).value_type == old(self).value_type,
            final(self)@.sheet == old(self)@.sheet,
            final(self)@.cells == old(self)@.cells + cells.deep_view().map_values(
                |c: CellView| spec_adopted_cell(old(self)@, c.value),
            ),
    {
        let ghost goal = old(self)@.cells + cells.deep_view().map_values(
            |c: CellView| spec_adopted_cell(old(self)@, c.value),
        );
        let mut i: usize = 0;
        while i < cells.len()
            invariant
                0 <= i <= cells@.len(),
                self.id == old(self).id,
                self@.name == old(self)@.name,
                self.value_type == old(self).value_type,
                self@.sheet == old(self)@.sheet,
                self@.cells == old(self)@.cells + cells.deep_view().subrange(0, i as int)
                    .map_values(|c: CellView| spec_adopted_cell(old(self)@, c.value)),
            decreases cells@.len() - i,
        {
            self.adopt_cell(&cells[i]);
            proof {
                assert(self@.cells =~= old(self)@.cells + cells.deep_view().subrange(0, i + 1)
                    .map_values(|c: CellView| spec_adopted_cell(old(self)@, c.value)));
            }
            i += 1;
        }
        proof {
            assert(cells.deep_view().subrange(0, cells@.len() as int) =~= cells.deep_view());
            assert(self@.cells =~= goal);
        }
    }

    /// Attach the back-reference to the owning sheet.
    pub fn adopt(&mut self, sheet: &Sheet)
        ensures
            final(self).id == old(self).id,
            final(self)@.name == old(self)@.name,
            final(self).value_type == old(self).value_type,
            final(self)@.cells == old(self)@.cells,
            final(self)@.sheet == Some(crate::sheet::spec_sheet_link(sheet@)),
    {
        self.sheet = Some(SheetLink { id: sheet.id, name: sheet.name.clone() });
    }

    pub fn get_row_count(&self) -> (r: usize)
        ensures
            r == self@.cells.len(),
    {
        self.cells.len()
    }

    pub fn get_cell(&self, index: usize) -> (r: Option<&Cell>)
        ensures
            index < self@.cells.len() ==> (r matches Some(c) && c@ == self@.cells[index as int]),
            index >= self@.cells.len() ==> r is None,
    {
        if index < self.cells.len() {
            Some(&self.cells[index])
        } else {
            None
        }
    }

    pub fn get_cell_mut(&mut self, index: usize) -> (r: Option<&mut Cell>)
        ensures
            index >= old(self)@.cells.len() ==> r is None && *final(self) == *old(self),
            index < old(self)@.cells.len() ==> (r matches Some(c) && c@ == old(self)@.cells[index as int] && final(self).id == old(self).id && final(self)@.name == old(self)@.name && final(self).value_type == old(self).value_type && final(self)@.sheet == old(self)@.sheet && final(self)@.cells.len() == old(self)@.cells.len() && final(self)@.cells[index as int] == final(c)@ && (forall|j: int|
                0 <= j < old(self)@.cells.len() && j != index ==> final(self)@.cells[j] == old(self)@.cells[j])),
    {
        if index < self.cells.len() {
            Some(&mut self.cells[index])
        } else {
            None
        }
    }

    /// Build a cell from the value and adopt it, after validating the value
    /// against this column's declared type; the error names the column.
    pub fn insert_value(&mut self, value: Value) -> (r: Result<(), Error>)
        ensures
            final(self).id == old(self).id,
            final(self)@.name == old(self)@.name,
            final(self).value_type == old(self).value_type,
            final(self)@.sheet == old(self)@.sheet,
            spec_conforms_to(value@, old(self).value_type) ==> r is Ok && final(self)@.cells == old(self)@.cells.push(spec_adopted_cell(old(self)@, value@)),
            !spec_conforms_to(value@, old(self).value_type) ==> *final(self) == *old(self) && (r
                matches Err(Error::CellError(CellError::IncompatibleType {
                column_name,
                expected,
                got,
            })) && column_name@ == old(self)@.name && expected == old(self).value_type && got
                == spec_value_type(value@)),
    {
        if value.conforms_to(&self.value_type) {
            let cell = Cell::new(value, None);
            self.adopt_cell(&cell);
            Ok(())
        } else {
            Err(Error::CellError(CellError::IncompatibleType {
                column_name: self.name.clone(),
                expected: self.value_type,
                got: value.get_type(),
            }))
        }
    }
}


/// The cells' wire chunks, in row order.
pub open spec fn spec_cells_chunks(cells: Seq<CellView>) -> Seq<Seq<u8>> {
    cells.map_values(|c: CellView| spec_cell_bytes(c))
}

/// A column's wire form: 16 identifier bytes, a 4-byte big-endian name
/// length, the UTF-8 name, the declared type's tag byte, then the cells
/// framed by the length table.
pub open spec fn spec_column_bytes(c: ColumnView) -> Seq<u8> {
    spec_id_bytes(c.id) + spec_u32_to_be_bytes(encode_utf8(c.name).len() as u32) + encode_utf8(
        c.name,
    ) + seq![spec_type_tag(c.value_type)] + spec_table_bytes(spec_cells_chunks(c.cells))
}

/// The name must fit its 4-byte length field and the cells their framing.
pub open spec fn column_encodable(c: ColumnView) -> bool {
    &&& encode_utf8(c.name).len() <= u32::MAX
    &&& forall|i: int| 0 <= i < c.cells.len() ==> cell_encodable(#[trigger] c.cells[i])
    &&& table_encodable(spec_cells_chunks(c.cells))
}

/// Equality of everything a column's wire form carries: identifier, name,
/// declared type, and cell values in order. Back-references never travel,
/// so they are not compared.
pub open spec fn column_data_eq(c1: ColumnView, c2: ColumnView) -> bool {
    &&& c1.id == c2.id
    &&& c1.name == c2.name
    &&& c1.value_type == c2.value_type
    &&& c1.cells.len() == c2.cells.len()
    &&& forall|i: int|
        0 <= i < c1.cells.len() ==> #[trigger] c1.cells[i].value == c2.cells[i].value
}

/// Every cell carries this column's identity as its back-reference.
pub open spec fn column_cells_adopted(c: ColumnView) -> bool {
    forall|i: int|
        0 <= i < c.cells.len() ==> #[trigger] c.cells[i].column == Some(spec_column_link(c))
}

/// Where each region of a column's wire form sits.
pub proof fn lemma_column_bytes_shape(c: ColumnView)
    requires
        encode_utf8(c.name).len() <= u32::MAX,
    ensures
        ({
            let nl = encode_utf8(c.name).len() as int;
            let total = spec_column_bytes(c).len() as int;
            &&& total == 21 + nl + spec_table_bytes(spec_cells_chunks(c.cells)).len()
            &&& total >= 29 + nl
            &&& spec_column_bytes(c).subrange(0, 16) == spec_id_bytes(c.id)
            &&& spec_column_bytes(c).subrange(16, 20) == spec_u32_to_be_bytes(
                encode_utf8(c.name).len() as u32,
            )
            &&& spec_u32_from_be_bytes(spec_column_bytes(c).subrange(16, 20)) == encode_utf8(
                c.name,
            ).len()
            &&& spec_column_bytes(c).subrange(20, 20 + nl) == encode_utf8(c.name)
            &&& spec_column_bytes(c)[20 + nl] == spec_type_tag(c.value_type)
            &&& spec_column_bytes(c).subrange(21 + nl, total) == spec_table_bytes(
                spec_cells_chunks(c.cells),
            )
        }),
{
    lemma_id_bytes_roundtrip(c.id);
    lemma_u32_be_bytes_roundtrip(encode_utf8(c.name).len() as u32);
    lemma_table_bytes_len(spec_cells_chunks(c.cells));
    let nl = encode_utf8(c.name).len() as int;
    let total = spec_column_bytes(c).len() as int;
    assert(spec_column_bytes(c).subrange(0, 16) =~= spec_id_bytes(c.id));
    assert(spec_column_bytes(c).subrange(16, 20) =~= spec_u32_to_be_bytes(
        encode_utf8(c.name).len() as u32,
    ));
    assert(spec_column_bytes(c).subrange(20, 20 + nl) =~= encode_utf8(c.name));
    assert(spec_column_bytes(c).subrange(21 + nl, total) =~= spec_table_bytes(
        spec_cells_chunks(c.cells),
    ));
}

/// No two columns with different data share a wire form.
pub proof fn lemma_column_bytes_data_eq(c1: ColumnView, c2: ColumnView)
    requires
        column_encodable(c1),
        column_encodable(c2),
        spec_column_bytes(c1) == spec_column_bytes(c2),
    ensures
        column_data_eq(c1, c2),
{
    lemma_column_bytes_shape(c1);
    lemma_column_bytes_shape(c2);
    assert(encode_utf8(c1.name).len() == encode_utf8(c2.name).len());
    let nl = encode_utf8(c1.name).len() as int;
    lemma_id_bytes_roundtrip(c1.id);
    lemma_id_bytes_roundtrip(c2.id);
    assert(c1.id == c2.id);
    assert(encode_utf8(c1.name) == encode_utf8(c2.name));
    lemma_encode_utf8_injective(c1.name, c2.name);
    lemma_type_tag_roundtrip(c1.value_type);
    lemma_type_tag_roundtrip(c2.value_type);
    assert(spec_type_tag(c1.value_type) == spec_type_tag(c2.value_type));
    assert(c1.value_type == c2.value_type);
    assert(spec_table_bytes(spec_cells_chunks(c1.cells)) == spec_table_bytes(
        spec_cells_chunks(c2.cells),
    ));
    lemma_table_bytes_injective(spec_cells_chunks(c1.cells), spec_cells_chunks(c2.cells));
    assert(c1.cells.len() == c2.cells.len());
    assert forall|i: int| 0 <= i < c1.cells.len() implies #[trigger] c1.cells[i].value
        == c2.cells[i].value by {
        assert(spec_cells_chunks(c1.cells)[i] == spec_cells_chunks(c2.cells)[i]);
        lemma_value_bytes_injective(c1.cells[i].value, c2.cells[i].value);
    }
}

impl Column {
    pub fn serialized_bytes(&self) -> (r: Vec<u8>)
        requires
            column_encodable(self@),
        ensures
            r@ == spec_column_bytes(self@),
    {
        let mut bytes = self.id.serialized_bytes();
        let name_utf8 = self.name.as_str().as_bytes_vec();
        let mut len_word = u32_to_be_bytes(name_utf8.len() as u32);
        bytes.append(&mut len_word);
        let mut name_bytes = name_utf8;
        bytes.append(&mut name_bytes);
        bytes.push(self.value_type.type_tag());
        let mut chunks: Vec<Vec<u8>> = Vec::new();
        proof {
            assert(chunks.deep_view() =~= spec_cells_chunks(self@.cells.subrange(0, 0)));
        }
        let mut i: usize = 0;
        while i < self.cells.len()
            invariant
                column_encodable(self@),
                0 <= i <= self@.cells.len(),
                self@.cells.len() == self.cells@.len(),
                chunks.deep_view() == spec_cells_chunks(self@.cells.subrange(0, i as int)),
            decreases self@.cells.len() - i,
        {
            broadcast use crate::views::lemma_bytes_deep_view;

            proof {
                assert(cell_encodable(self@.cells[i as int]));
                assert(self.cells@[i as int]@ == self@.cells[i as int]);
            }
            let ghost pre_chunks = chunks.deep_view();
            let chunk = self.cells[i].serialized_bytes();
            let ghost chunk_view = chunk@;
            chunks.push(chunk);
            proof {
                assert(chunks.deep_view() =~= pre_chunks.push(chunk_view));
                assert(chunk_view == spec_cell_bytes(self@.cells[i as int]));
                assert(chunks.deep_view() =~= spec_cells_chunks(
                    self@.cells.subrange(0, i + 1),
                ));
            }
            i += 1;
        }
        proof {
            assert(self@.cells.subrange(0, self@.cells.len() as int) =~= self@.cells);
        }
        let mut table = LengthTable::serialize(&chunks);
        bytes.append(&mut table);
        proof {
            assert(bytes@ =~= spec_column_bytes(self@));
        }
        bytes
    }

    /// Decode a column. The cells come back adopted by this column, and the
    /// sheet back-reference is unset: a child exists before the parent that
    /// would own it. Every valid wire form decodes to a data-equal column;
    /// an invalid name byte run is decoded lossily, as the cursor does.
    pub fn deserialize_bytes(bytes: &[u8]) -> (r: Result<Column, Error>)
        ensures
            r matches Ok(c) ==> ({
                let nl = spec_u32_from_be_bytes(bytes@.subrange(16, 20)) as int;
                &&& bytes@.len() >= 21 + nl
                &&& c@.id == spec_id_from_bytes(bytes@.subrange(0, 16))
                &&& (valid_utf8(bytes@.subrange(20, 20 + nl)) ==> c@.name == decode_utf8(
                    bytes@.subrange(20, 20 + nl),
                ))
                &&& bytes@[20 + nl] == spec_type_tag(c@.value_type)
                &&& bytes@.subrange(21 + nl, bytes@.len() as int) == spec_table_bytes(
                    spec_cells_chunks(c@.cells),
                )
                &&& table_encodable(spec_cells_chunks(c@.cells))
                &&& forall|i: int| 0 <= i < c@.cells.len() ==> cell_encodable(#[trigger] c@.cells[i])
                &&& c@.sheet is None
                &&& column_cells_adopted(c@)
            }),
            forall|cv: ColumnView|
                #![trigger spec_column_bytes(cv)]
                column_encodable(cv) && spec_column_bytes(cv) == bytes@ ==> (r matches Ok(c)
                    && column_data_eq(c@, cv)),
    {
        broadcast use crate::views::lemma_bytes_deep_view;

        let mut de = ByteDeserializer::new(bytes);
        let id_bytes = match de.read_bytes(16) {
            Ok(b) => b,
            Err(e) => {
                proof {
                    assert forall|cv: ColumnView| column_encodable(cv)
                        implies spec_column_bytes(cv) != bytes@ by {
                        lemma_column_bytes_shape(cv);
                    }
                }
                return Err(e);
            },
        };
        let id = match Identifier::deserialize_bytes(id_bytes.as_slice()) {
            Ok(id) => id,
            Err(e) => {
                proof {
                    assert(false);
                }
                return Err(e);
            },
        };
        let name_len = match de.read_u32() {
            Ok(v) => v,
            Err(e) => {
                proof {
                    assert forall|cv: ColumnView| column_encodable(cv)
                        implies spec_column_bytes(cv) != bytes@ by {
                        lemma_column_bytes_shape(cv);
                    }
                }
                return Err(e);
            },
        };
        let name = match de.read_string(name_len as usize) {
            Ok(s) => s,
            Err(e) => {
                proof {
                    assert forall|cv: ColumnView| column_encodable(cv)
                        implies spec_column_bytes(cv) != bytes@ by {
                        lemma_column_bytes_shape(cv);
                        if spec_column_bytes(cv) == bytes@ {
                            assert(name_len == encode_utf8(cv.name).len());
                        }
                    }
                }
                return Err(e);
            },
        };
        let type_byte = match de.read_u8() {
            Ok(b) => b,
            Err(e) => {
                proof {
                    assert forall|cv: ColumnView| column_encodable(cv)
                        implies spec_column_bytes(cv) != bytes@ by {
                        lemma_column_bytes_shape(cv);
                        if spec_column_bytes(cv) == bytes@ {
                            assert(name_len == encode_utf8(cv.name).len());
                        }
                    }
                }
                return Err(e);
            },
        };
        let mut tag_vec: Vec<u8> = Vec::new();
        tag_vec.push(type_byte);
        let value_type = match Type::deserialize_bytes(tag_vec.as_slice()) {
            Ok(t) => t,
            Err(e) => {
                proof {
                    assert(tag_vec@ =~= seq![type_byte]);
                    assert forall|cv: ColumnView| column_encodable(cv)
                        implies spec_column_bytes(cv) != bytes@ by {
                        lemma_column_bytes_shape(cv);
                        if spec_column_bytes(cv) == bytes@ {
                            assert(name_len == encode_utf8(cv.name).len());
                            lemma_type_tag_roundtrip(cv.value_type);
                            assert(type_byte == spec_type_tag(cv.value_type));
                        }
                    }
                }
                return Err(e);
            },
        };
        let rest = de.remaining_bytes();
        let chunks = match LengthTable::deserialize(rest) {
            Ok(c) => c,
            Err(e) => {
                proof {
                    assert forall|cv: ColumnView| column_encodable(cv)
                        implies spec_column_bytes(cv) != bytes@ by {
                        lemma_column_bytes_shape(cv);
                        if spec_column_bytes(cv) == bytes@ {
                            assert(name_len == encode_utf8(cv.name).len());
                            assert(rest@ == spec_table_bytes(spec_cells_chunks(cv.cells)));
                        }
                    }
                }
                return Err(e);
            },
        };
        let mut cells: Vec<Cell> = Vec::new();
        proof {
            assert(cells.deep_view() =~= Seq::<CellView>::empty());
            assert forall|cv: ColumnView| column_encodable(cv) && #[trigger] spec_column_bytes(cv)
                == bytes@ implies chunks.deep_view() == spec_cells_chunks(cv.cells) by {
                lemma_column_bytes_shape(cv);
                assert(name_len == encode_utf8(cv.name).len());
                assert(rest@ == spec_table_bytes(spec_cells_chunks(cv.cells)));
            }
        }
        let mut j: usize = 0;
        while j < chunks.len()
            invariant
                0 <= j <= chunks@.len(),
                cells.deep_view().len() == j,
                forall|k: int|
                    0 <= k < j ==> cell_encodable(#[trigger] cells.deep_view()[k])
                        && spec_cell_bytes(cells.deep_view()[k]) == chunks.deep_view()[k]
                        && cells.deep_view()[k].column is None,
                forall|cv: ColumnView|
                    column_encodable(cv) && #[trigger] spec_column_bytes(cv) == bytes@
                        ==> chunks.deep_view() == spec_cells_chunks(cv.cells),
            decreases chunks@.len() - j,
        {
            broadcast use crate::views::lemma_bytes_deep_view;

            let ghost pre_cells = cells.deep_view();
            let cell = match Cell::deserialize_bytes(chunks[j].as_slice()) {
                Ok(c) => c,
                Err(e) => {
                    proof {
                        assert forall|cv: ColumnView| column_encodable(cv)
                            implies spec_column_bytes(cv) != bytes@ by {
                            if spec_column_bytes(cv) == bytes@ {
                                assert(chunks.deep_view() == spec_cells_chunks(cv.cells));
                                assert(chunks.deep_view()[j as int] == spec_cell_bytes(
                                    cv.cells[j as int],
                                ));
                                assert(chunks@[j as int]@ == spec_cell_bytes(
                                    cv.cells[j as int],
                                ));
                                assert(cell_encodable(cv.cells[j as int]));
                            }
                        }
                    }
                    return Err(e);
                },
            };
            cells.push(cell);
            proof {
                assert(cells.deep_view() =~= pre_cells.push(cell@));
            }
            j += 1;
        }
        let mut column = Column { id, name, value_type, cells: Vec::new(), sheet: None };
        let ghost cells_views = cells.deep_view();
        column.adopt_cells(cells);
        proof {
            assert(column@.cells =~= cells_views.map_values(
                |c: CellView|
                    spec_adopted_cell(
                        ColumnView {
                            id: column@.id,
                            name: column@.name,
                            value_type: column@.value_type,
                            cells: Seq::<CellView>::empty(),
                            sheet: None,
                        },
                        c.value,
                    ),
            ));
            assert(column_cells_adopted(column@));
            assert(spec_cells_chunks(column@.cells) =~= chunks.deep_view());
            assert(bytes@.subrange(21 + name_len as int, bytes@.len() as int) == rest@);
            assert forall|cv: ColumnView| column_encodable(cv) && spec_column_bytes(cv) == bytes@
                implies column_data_eq(column@, cv) by {
                lemma_column_bytes_shape(cv);
                assert(name_len == encode_utf8(cv.name).len());
                lemma_id_bytes_roundtrip(cv.id);
                assert(column@.id == cv.id);
                encode_utf8_decode_utf8(cv.name);
                vstd::utf8::encode_utf8_valid_utf8(cv.name);
                assert(column@.name == cv.name);
                lemma_type_tag_roundtrip(cv.value_type);
                assert(column@.value_type == cv.value_type);
                assert(rest@ == spec_table_bytes(spec_cells_chunks(cv.cells)));
                assert(chunks.deep_view() == spec_cells_chunks(cv.cells));
                assert(column@.cells.len() == cv.cells.len());
                assert forall|k: int| 0 <= k < column@.cells.len()
                    implies #[trigger] column@.cells[k].value == cv.cells[k].value by {
                    assert(spec_cell_bytes(cells_views[k]) == chunks.deep_view()[k]);
                    assert(spec_cells_chunks(cv.cells)[k] == spec_cell_bytes(cv.cells[k]));
                    lemma_value_bytes_injective(column@.cells[k].value, cv.cells[k].value);
                }
            }
        }
        Ok(column)
    }
}

} // verus!
