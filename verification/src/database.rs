//! The root of the store: an ordered sequence of sheets (held in a field
//! named `columns`, a naming artifact kept from the wire format's history).
//! Sheets enter only through adoption, which marks them as owned by this
//! database.

use vstd::prelude::*;

use crate::byte_deserializer::ByteDeserializer;
use crate::errors::Error;
use crate::length_table::{
    lemma_table_bytes_injective, lemma_table_bytes_len, spec_table_bytes, table_encodable,
    LengthTable,
};
use crate::sheet::{
    lemma_sheet_bytes_data_eq, sheet_columns_adopted, sheet_data_eq, sheet_encodable,
    spec_sheet_bytes, Sheet, SheetView,
};

verus! {

broadcast use crate::views::group_deep_view_facts;

/// The back-reference a sheet keeps to the database that adopted it. A
/// database has no identity of its own, so the link is a bare marker.
#[derive(Debug, Clone, Copy, PartialEq, Eq, Structural)]
pub struct DatabaseLink {}

#[derive(Debug)]
pub struct Database {
    pub columns: Vec<Sheet>,
}

/// The mathematical shape of a `Database`.
pub struct DatabaseView {
    pub columns: Seq<SheetView>,
}

#[derive(Debug)]
pub enum DatabaseError {
    InvalidMagicBytes,
}

impl View for Database {
    type V = DatabaseView;

    open spec fn view(&self) -> DatabaseView {
        DatabaseView { columns: self.columns.deep_view() }
    }
}

impl DeepView for Database {
    type V = DatabaseView;

    open spec fn deep_view(&self) -> DatabaseView {
        self.view()
    }
}

/// The sheet as it stands in a database after adoption.
pub open spec fn spec_adopted_sheet(s: SheetView) -> SheetView {
    SheetView {
        id: s.id,
        name: s.name,
        columns: s.columns,
        database: Some(DatabaseLink {  }),
    }
}

impl Clone for Database {
    fn clone(&self) -> (r: Self)
        ensures
            r@ == self@,
    {
        let mut sheets: Vec<Sheet> = Vec::new();
        proof {
            assert(sheets.deep_view() =~= self.columns.deep_view().subrange(0, 0));
        }
        let mut i: usize = 0;
        while i < self.columns.len()
            invariant
                0 <= i <= self.columns@.len(),
                sheets.deep_view() == self.columns.deep_view().subrange(0, i as int),
            decreases self.columns@.len() - i,
        {
            sheets.push(self.columns[i].clone());
            proof {
                assert(sheets.deep_view() =~= self.columns.deep_view().subrange(0, i + 1));
            }
            i += 1;
        }
        proof {
            assert(sheets.deep_view() =~= self.columns.deep_view());
        }
        Database { columns: sheets }
    }
}

impl Database {
    pub fn new(columns: Vec<Sheet>) -> (r: Self)
        ensures
            r@.columns == columns.deep_view(),
    {
        Self { columns }
    }

    pub fn new_empty() -> (r: Self)
        ensures
            r@.columns == Seq::<SheetView>::empty(),
    {
        let r = Self { columns: Vec::new() };
        proof {
            assert(r@.columns =~= Seq::<SheetView>::empty());
        }
        r
    }

    /// Clone the given sheet, mark it as owned by this database, and append
    /// it to the sheets.
    pub fn adopt_sheet(&mut self, sheet: &Sheet)
        ensures
            final(self)@.columns == old(self)@.columns.push(spec_adopted_sheet(sheet@)),
    {
        let mut adopted = sheet.clone();
        adopted.adopt(self);
        let ghost adopted_view = adopted@;
        self.columns.push(adopted);
        proof {
            assert(self@.columns =~= old(self)@.columns.push(adopted_view));
            assert(adopted_view == spec_adopted_sheet(sheet@));
        }
    }

    /// Adopt each sheet in order.
    pub fn adopt_sheets(&mut self, sheets: Vec<Sheet>)
        ensures
            final(self)@.columns == old(self)@.columns + sheets.deep_view().map_values(
                |s: SheetView| spec_adopted_sheet(s),
            ),
    {
        let ghost goal = old(self)@.columns + sheets.deep_view().map_values(
            |s: SheetView| spec_adopted_sheet(s),
        );
        let mut i: usize = 0;
        while i < sheets.len()
            invariant
                0 <= i <= sheets@.len(),
                self@.columns == old(self)@.columns + sheets.deep_view().subrange(0, i as int)
                    .map_values(|s: SheetView| spec_adopted_sheet(s)),
            decreases sheets@.len() - i,
        {
            self.adopt_sheet(&sheets[i]);
            proof {
                assert(self@.columns =~= old(self)@.columns + sheets.deep_view().subrange(0, i + 1)
                    .map_values(|s: SheetView| spec_adopted_sheet(s)));
            }
            i += 1;
        }
        proof {
            assert(sheets.deep_view().subrange(0, sheets@.len() as int) =~= sheets.deep_view());
            assert(self@.columns =~= goal);
        }
    }

    /// The index of the first sheet with the given name, if any.
    fn sheet_index(&self, name: &str) -> (r: Option<usize>)
        ensures
            r matches Some(i) ==> i < self@.columns.len() && self@.columns[i as int].name == name@
                && (forall|j: int| 0 <= j < i ==> self@.columns[j].name != name@),
            r is None ==> forall|j: int| 0 <= j < self@.columns.len() ==> self@.columns[j].name
                != name@,
    {
        let mut i: usize = 0;
        while i < self.columns.len()
            invariant
                0 <= i <= self@.columns.len(),
                forall|j: int| 0 <= j < i ==> self@.columns[j].name != name@,
            decreases self@.columns.len() - i,
        {
            if crate::encoding::str_eq(self.columns[i].name.as_str(), name) {
                return Some(i);
            }
            i += 1;
        }
        None
    }

    /// The first sheet with the given name, if any.
    pub fn get_sheet(&self, name: &str) -> (r: Option<&Sheet>)
        ensures
            r matches Some(s) ==> exists|i: int|
                #![auto]
                0 <= i < self@.columns.len() && self@.columns[i].name == name@ && s@
                    == self@.columns[i] && (forall|j: int|
                    0 <= j < i ==> self@.columns[j].name != name@),
            r is None ==> forall|j: int| 0 <= j < self@.columns.len() ==> self@.columns[j].name
                != name@,
    {
        match self.sheet_index(name) {
            Some(i) => Some(&self.columns[i]),
            None => None,
        }
    }

    /// The first sheet with the given name, mutably.
    pub fn get_sheet_mut(&mut self, name: &str) -> (r: Option<&mut Sheet>)
        ensures
            r is None ==> *final(self) == *old(self) && (forall|j: int|
                0 <= j < old(self)@.columns.len() ==> old(self)@.columns[j].name != name@),
            r matches Some(s) ==> exists|i: int|
                #![auto]
                0 <= i < old(self)@.columns.len() && old(self)@.columns[i].name == name@ && (
                forall|j: int| 0 <= j < i ==> old(self)@.columns[j].name != name@) && s@ == old(self)@.columns[i] && final(self)@.columns.len() == old(self)@.columns.len() && final(self)@.columns[i] == final(s)@ && (forall|j: int|
                    0 <= j < old(self)@.columns.len() && j != i ==> final(self)@.columns[j] == old(self)@.columns[j]),
    {
        match self.sheet_index(name) {
            Some(i) => Some(&mut self.columns[i]),
            None => None,
        }
    }
}


/// The 11 ASCII magic bytes that open every serialized store.
pub open spec fn spec_magic() -> Seq<u8> {
    seq![98u8, 97u8, 115u8, 101u8, 98u8, 111u8, 114u8, 101u8, 100u8, 118u8, 49u8]
}

/// The sheets' wire chunks, in order.
pub open spec fn spec_sheets_chunks(sheets: Seq<SheetView>) -> Seq<Seq<u8>> {
    sheets.map_values(|s: SheetView| spec_sheet_bytes(s))
}

/// A database's wire form: the magic bytes, then the sheets framed by the
/// length table.
pub open spec fn spec_database_bytes(d: DatabaseView) -> Seq<u8> {
    spec_magic() + spec_table_bytes(spec_sheets_chunks(d.columns))
}

pub open spec fn database_encodable(d: DatabaseView) -> bool {
    &&& forall|i: int| 0 <= i < d.columns.len() ==> sheet_encodable(#[trigger] d.columns[i])
    &&& table_encodable(spec_sheets_chunks(d.columns))
}

/// Equality of everything a database's wire form carries: the sheets' data
/// in order.
pub open spec fn database_data_eq(d1: DatabaseView, d2: DatabaseView) -> bool {
    &&& d1.columns.len() == d2.columns.len()
    &&& forall|i: int|
        0 <= i < d1.columns.len() ==> sheet_data_eq(#[trigger] d1.columns[i], d2.columns[i])
}

/// Every sheet is marked owned, and its columns and cells carry their
/// owners' identities.
pub open spec fn database_sheets_adopted(d: DatabaseView) -> bool {
    forall|i: int|
        0 <= i < d.columns.len() ==> (#[trigger] d.columns[i]).database == Some(DatabaseLink {  })
            && sheet_columns_adopted(d.columns[i])
}

/// Where the two regions of a database's wire form sit.
pub proof fn lemma_database_bytes_shape(d: DatabaseView)
    ensures
        spec_database_bytes(d).len() == 11 + spec_table_bytes(spec_sheets_chunks(d.columns)).len(),
        spec_database_bytes(d).len() >= 19,
        spec_database_bytes(d).subrange(0, 11) == spec_magic(),
        spec_database_bytes(d).subrange(11, spec_database_bytes(d).len() as int)
            == spec_table_bytes(spec_sheets_chunks(d.columns)),
{
    lemma_table_bytes_len(spec_sheets_chunks(d.columns));
    assert(spec_database_bytes(d).subrange(0, 11) =~= spec_magic());
    assert(spec_database_bytes(d).subrange(11, spec_database_bytes(d).len() as int)
        =~= spec_table_bytes(spec_sheets_chunks(d.columns)));
}

/// The round trip of the whole tree: two stores with the same wire form
/// hold the same data. With the encoders' and decoders' contracts this says
/// decoding an encoded store reproduces an equal tree — the same sheet,
/// column and cell names, types and values in order, and identifiers
/// preserved byte for byte.
pub proof fn lemma_database_bytes_data_eq(d1: DatabaseView, d2: DatabaseView)
    requires
        database_encodable(d1),
        database_encodable(d2),
        spec_database_bytes(d1) == spec_database_bytes(d2),
    ensures
        database_data_eq(d1, d2),
{
    lemma_database_bytes_shape(d1);
    lemma_database_bytes_shape(d2);
    assert(spec_table_bytes(spec_sheets_chunks(d1.columns)) == spec_table_bytes(
        spec_sheets_chunks(d2.columns),
    ));
    lemma_table_bytes_injective(spec_sheets_chunks(d1.columns), spec_sheets_chunks(d2.columns));
    assert(d1.columns.len() == d2.columns.len());
    assert forall|i: int| 0 <= i < d1.columns.len() implies sheet_data_eq(
        #[trigger] d1.columns[i],
        d2.columns[i],
    ) by {
        assert(spec_sheets_chunks(d1.columns)[i] == spec_sheets_chunks(d2.columns)[i]);
        lemma_sheet_bytes_data_eq(d1.columns[i], d2.columns[i]);
    }
}

/// The magic bytes as a vector.
fn magic_bytes() -> (r: Vec<u8>)
    ensures
        r@ == spec_magic(),
{
    let mut r: Vec<u8> = Vec::new();
    r.push(98u8);
    r.push(97u8);
    r.push(115u8);
    r.push(101u8);
    r.push(98u8);
    r.push(111u8);
    r.push(114u8);
    r.push(101u8);
    r.push(100u8);
    r.push(118u8);
    r.push(49u8);
    proof {
        assert(r@ =~= spec_magic());
    }
    r
}

impl Database {
    pub fn serialized_bytes(&self) -> (r: Vec<u8>)
        requires
            database_encodable(self@),
        ensures
            r@ == spec_database_bytes(self@),
    {
        let mut bytes = magic_bytes();
        let mut chunks: Vec<Vec<u8>> = Vec::new();
        proof {
            assert(chunks.deep_view() =~= spec_sheets_chunks(self@.columns.subrange(0, 0)));
        }
        let mut i: usize = 0;
        while i < self.columns.len()
            invariant
                database_encodable(self@),
                0 <= i <= self@.columns.len(),
                self@.columns.len() == self.columns@.len(),
                chunks.deep_view() == spec_sheets_chunks(self@.columns.subrange(0, i as int)),
            decreases self@.columns.len() - i,
        {
            broadcast use crate::views::lemma_bytes_deep_view;

            proof {
                assert(sheet_encodable(self@.columns[i as int]));
                assert(self.columns@[i as int]@ == self@.columns[i as int]);
            }
            let ghost pre_chunks = chunks.deep_view();
            let chunk = self.columns[i].serialized_bytes();
            let ghost chunk_view = chunk@;
            chunks.push(chunk);
            proof {
                assert(chunks.deep_view() =~= pre_chunks.push(chunk_view));
                assert(chunk_view == spec_sheet_bytes(self@.columns[i as int]));
                assert(chunks.deep_view() =~= spec_sheets_chunks(
                    self@.columns.subrange(0, i + 1),
                ));
            }
            i += 1;
        }
        proof {
            assert(self@.columns.subrange(0, self@.columns.len() as int) =~= self@.columns);
        }
        let mut table = LengthTable::serialize(&chunks);
        bytes.append(&mut table);
        proof {
            assert(bytes@ =~= spec_database_bytes(self@));
        }
        bytes
    }

    /// Decode a whole store. A buffer not opening with the exact 11 magic
    /// bytes fails with the distinct invalid-magic error; past the magic,
    /// the sheets are rebuilt and adopted. Every valid wire form decodes to
    /// a data-equal tree.
    pub fn deserialize_bytes(bytes: &[u8]) -> (r: Result<Database, Error>)
        ensures
            r matches Ok(d) ==> bytes@.len() >= 11 && bytes@.subrange(0, 11) == spec_magic()
                && database_sheets_adopted(d@),
            forall|dv: DatabaseView|
                #![trigger spec_database_bytes(dv)]
                database_encodable(dv) && spec_database_bytes(dv) == bytes@ ==> (r matches Ok(d)
                    && database_data_eq(d@, dv)),
            bytes@.len() >= 11 && bytes@.subrange(0, 11) != spec_magic() ==> r == (Err::<
                Database,
                Error,
            >(Error::DatabaseError(DatabaseError::InvalidMagicBytes))),
            bytes@.len() < 11 ==> r == (Err::<Database, Error>(
                crate::byte_deserializer::spec_oob_error(0, bytes@.len() as int),
            )),
    {
        broadcast use crate::views::lemma_bytes_deep_view;

        let mut de = ByteDeserializer::new(bytes);
        let found_magic = match de.read_bytes(11) {
            Ok(b) => b,
            Err(e) => {
                proof {
                    assert forall|dv: DatabaseView| database_encodable(dv)
                        implies spec_database_bytes(dv) != bytes@ by {
                        lemma_database_bytes_shape(dv);
                    }
                }
                return Err(e);
            },
        };
        let expected_magic = magic_bytes();
        let mut m: usize = 0;
        let mut magic_ok = true;
        while m < 11
            invariant
                0 <= m <= 11,
                found_magic@.len() == 11,
                expected_magic@ == spec_magic(),
                magic_ok <==> found_magic@.subrange(0, m as int) =~= spec_magic().subrange(
                    0,
                    m as int,
                ),
            decreases 11 - m,
        {
            if found_magic[m] != expected_magic[m] {
                magic_ok = false;
                proof {
                    assert(found_magic@.subrange(0, m + 1)[m as int] != spec_magic().subrange(
                        0,
                        m + 1,
                    )[m as int]);
                }
            }
            proof {
                if magic_ok {
                    assert(found_magic@.subrange(0, m + 1) =~= spec_magic().subrange(0, m + 1));
                }
            }
            m += 1;
        }
        proof {
            assert(found_magic@.subrange(0, 11) =~= found_magic@);
            assert(spec_magic().subrange(0, 11) =~= spec_magic());
        }
        if !magic_ok {
            proof {
                assert(bytes@.subrange(0, 11) != spec_magic());
                assert forall|dv: DatabaseView| database_encodable(dv)
                    implies spec_database_bytes(dv) != bytes@ by {
                    lemma_database_bytes_shape(dv);
                }
            }
            return Err(Error::DatabaseError(DatabaseError::InvalidMagicBytes));
        }
        let rest = de.remaining_bytes();
        let chunks = match LengthTable::deserialize(rest) {
            Ok(c) => c,
            Err(e) => {
                proof {
                    assert forall|dv: DatabaseView| database_encodable(dv)
                        implies spec_database_bytes(dv) != bytes@ by {
                        lemma_database_bytes_shape(dv);
                        if spec_database_bytes(dv) == bytes@ {
                            assert(rest@ == spec_table_bytes(spec_sheets_chunks(dv.columns)));
                        }
                    }
                }
                return Err(e);
            },
        };
        let mut sheets: Vec<Sheet> = Vec::new();
        proof {
            assert(sheets.deep_view() =~= Seq::<SheetView>::empty());
            assert forall|dv: DatabaseView| database_encodable(dv)
                && #[trigger] spec_database_bytes(dv) == bytes@ implies chunks.deep_view()
                == spec_sheets_chunks(dv.columns) by {
                lemma_database_bytes_shape(dv);
                assert(rest@ == spec_table_bytes(spec_sheets_chunks(dv.columns)));
            }
        }
        let mut j: usize = 0;
        while j < chunks.len()
            invariant
                bytes@.len() >= 11,
                bytes@.subrange(0, 11) == spec_magic(),
                0 <= j <= chunks@.len(),
                sheets.deep_view().len() == j,
                forall|k: int|
                    0 <= k < j ==> (#[trigger] sheets.deep_view()[k]).database is None
                        && sheet_columns_adopted(sheets.deep_view()[k]),
                forall|dv: DatabaseView|
                    database_encodable(dv) && #[trigger] spec_database_bytes(dv) == bytes@
                        ==> chunks.deep_view() == spec_sheets_chunks(dv.columns) && (forall|
                        k: int,
                    |
                        0 <= k < j ==> sheet_data_eq(
                            #[trigger] sheets.deep_view()[k],
                            dv.columns[k],
                        )),
            decreases chunks@.len() - j,
        {
            broadcast use crate::views::lemma_bytes_deep_view;

            let ghost pre_sheets = sheets.deep_view();
            let sheet = match Sheet::deserialize_bytes(chunks[j].as_slice()) {
                Ok(s) => s,
                Err(e) => {
                    proof {
                        assert forall|dv: DatabaseView| database_encodable(dv)
                            implies spec_database_bytes(dv) != bytes@ by {
                            if spec_database_bytes(dv) == bytes@ {
                                assert(chunks.deep_view() == spec_sheets_chunks(dv.columns));
                                assert(chunks.deep_view()[j as int] == spec_sheet_bytes(
                                    dv.columns[j as int],
                                ));
                                assert(chunks@[j as int]@ == spec_sheet_bytes(
                                    dv.columns[j as int],
                                ));
                                assert(sheet_encodable(dv.columns[j as int]));
                            }
                        }
                    }
                    return Err(e);
                },
            };
            sheets.push(sheet);
            proof {
                assert(sheets.deep_view() =~= pre_sheets.push(sheet@));
                assert forall|dv: DatabaseView| database_encodable(dv)
                    && #[trigger] spec_database_bytes(dv) == bytes@ implies (forall|k: int|
                    0 <= k < j + 1 ==> sheet_data_eq(
                        #[trigger] sheets.deep_view()[k],
                        dv.columns[k],
                    )) by {
                    assert(chunks.deep_view() == spec_sheets_chunks(dv.columns));
                    assert(chunks.deep_view()[j as int] == spec_sheet_bytes(
                        dv.columns[j as int],
                    ));
                    assert(chunks@[j as int]@ == spec_sheet_bytes(dv.columns[j as int]));
                    assert(sheet_encodable(dv.columns[j as int]));
                    assert(sheet_data_eq(sheet@, dv.columns[j as int]));
                }
            }
            j += 1;
        }
        let mut database = Database::new(Vec::new());
        let ghost sheet_views = sheets.deep_view();
        proof {
            assert(database@.columns =~= Seq::<SheetView>::empty());
        }
        database.adopt_sheets(sheets);
        proof {
            assert(database@.columns =~= sheet_views.map_values(
                |s: SheetView| spec_adopted_sheet(s),
            ));
            assert(database_sheets_adopted(database@));
            assert forall|dv: DatabaseView| database_encodable(dv)
                && #[trigger] spec_database_bytes(dv) == bytes@ implies database_data_eq(
                database@,
                dv,
            ) by {
                assert(chunks.deep_view() == spec_sheets_chunks(dv.columns));
                assert(database@.columns.len() == dv.columns.len());
                assert forall|k: int| 0 <= k < database@.columns.len() implies sheet_data_eq(
                    #[trigger] database@.columns[k],
                    dv.columns[k],
                ) by {
                    assert(sheet_data_eq(sheet_views[k], dv.columns[k]));
                }
            }
        }
        Ok(database)
    }
}

} // verus!
