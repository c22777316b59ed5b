//! One closed error type aggregating the per-layer error kinds. Every
//! fallible operation surfaces one of these; no failure is retried and no
//! default is silently substituted.

use vstd::prelude::*;

use crate::byte_deserializer::ByteError;
use crate::cell::CellError;
use crate::column::ColumnError;
use crate::data_type::TypeError;
use crate::data_value::ValueError;
use crate::database::DatabaseError;
use crate::id::UuidError;
use crate::sheet::SheetError;

verus! {

#[derive(Debug)]
pub enum Error {
    UuidError(UuidError),
    ValueError(ValueError),
    TypeError(TypeError),
    CellError(CellError),
    ColumnError(ColumnError),
    SheetError(SheetError),
    DatabaseError(DatabaseError),
    ByteError(ByteError),
}

} // verus!
