//! Schema compiler for SQLite `STRICT` tables.
//!
//! A record type is described by a tree of [`ValueDef`]s whose leaves are
//! [`ColumnDef`]s.  The library projects such a tree into a flat, ordered
//! list of physical columns, derives the column names from the field path,
//! and assembles `CREATE TABLE` text as well as parameterized
//! `SELECT`/`INSERT`/upsert/`UPDATE`/`DELETE` statements whose placeholder
//! positions follow the same canonical column order.  A [`schema::Schema`]
//! additionally checks that every foreign key points at a table of the same
//! schema before any statement text is handed out.

pub mod column;
pub mod laws;
pub mod schema;
pub mod table;
pub mod text;
pub mod types;
pub mod value;

pub use column::{Affinity, Column, ColumnDef};
pub use schema::Schema;
pub use table::{Constraint, NameArrays, Table, TableDef};
pub use types::{FromSql2, ToSql2};
pub use value::{Check, FkConflictAction, ForeignKey, NestedValueDef, StrChain, Value, ValueDef};

use vstd::prelude::*;

verus! {

/// A mistake in the authored schema, found while building a table or a
/// schema; no partially valid definition is ever handed out.
#[derive(Clone, Debug, PartialEq, Eq)]
pub enum SchemaError {
    /// A table has no values at all.
    EmptyTable,
    /// A composite value has no sub-values; projecting it is undefined.
    EmptyValueTree,
    /// The projected column count does not fit the machine.
    TooManyColumns,
    /// A declared primary-key field name matches no field of the table.
    UnknownKeyField(String),
    /// A schema must contain at least one table.
    EmptySchema,
    /// A foreign key names a table that is not part of the schema.
    UnresolvedForeignKey { table: String, target: String },
}

/// Row identifier assigned by the storage engine: absent until the row is
/// first inserted, then the engine-chosen integer.
#[derive(Clone, Debug, PartialEq, Eq, Structural)]
pub struct Id(pub Option<u64>);

impl types::ToSql2 for Id {

}

impl types::FromSql2 for Id {

}

impl column::Column for Id {
    open spec fn spec_affinity() -> column::Affinity {
        column::Affinity::Integer
    }

    open spec fn spec_nullable() -> bool {
        false
    }

    open spec fn spec_checks() -> Seq<Seq<char>> {
        Seq::empty()
    }

    fn definition() -> (d: column::ColumnDef) {
        let d = column::ColumnDef {
            affinity: column::Affinity::Integer,
            nullable: false,
            checks: Vec::new(),
        };
        assert(column::checks_views(d.checks@) =~= Self::spec_checks());
        d
    }
}

impl Id {
    /// The identifier of a row that has not been stored yet.
    pub fn null() -> (r: Id)
        ensures
            r.0 is None,
    {
        Id(None)
    }

    /// An identifier already assigned by the engine.
    pub fn from_u64(id: u64) -> (r: Id)
        ensures
            r.0 == Some(id),
    {
        Id(Some(id))
    }
}

} // verus!
