//! Marker traits for types that map to a single storage column.

use vstd::prelude::*;

verus! {

/// Marker for types whose values can be handed to the storage engine as one
/// SQL parameter.
pub trait ToSql2 {

}

/// Marker for types whose values can be read back from one SQL column.
pub trait FromSql2 {

}

impl ToSql2 for bool {

}

impl ToSql2 for i8 {

}

impl ToSql2 for i16 {

}

impl ToSql2 for i32 {

}

impl ToSql2 for i64 {

}

impl ToSql2 for isize {

}

impl ToSql2 for u8 {

}

impl ToSql2 for u16 {

}

impl ToSql2 for u32 {

}

impl ToSql2 for u64 {

}

impl ToSql2 for usize {

}

impl ToSql2 for String {

}

impl ToSql2 for Vec<u8> {

}

impl FromSql2 for bool {

}

impl FromSql2 for i8 {

}

impl FromSql2 for i16 {

}

impl FromSql2 for i32 {

}

impl FromSql2 for i64 {

}

impl FromSql2 for isize {

}

impl FromSql2 for u8 {

}

impl FromSql2 for u16 {

}

impl FromSql2 for u32 {

}

impl FromSql2 for u64 {

}

impl FromSql2 for usize {

}

impl FromSql2 for String {

}

impl FromSql2 for Vec<u8> {

}

} // verus!
