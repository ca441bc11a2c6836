//! Physical columns: a storage affinity, nullability, and inline checks.

use vstd::prelude::*;
use vstd::string::StringExecFns;

use crate::text::join_with;
use crate::value::{Check, StrChain};

verus! {

/// Storage class of a single physical column.
#[derive(Clone, Copy, Debug, PartialEq, Eq, Structural)]
pub enum Affinity {
    Integer,
    Real,
    Text,
    Blob,
}

/// The SQL keyword of an affinity.
pub open spec fn affinity_str(a: Affinity) -> Seq<char> {
    match a {
        Affinity::Integer => "INTEGER"@,
        Affinity::Real => "REAL"@,
        Affinity::Text => "TEXT"@,
        Affinity::Blob => "BLOB"@,
    }
}

impl Affinity {
    /// The SQL keyword of this affinity.
    pub fn as_str(self) -> (r: &'static str)
        ensures
            r@ == affinity_str(self),
    {
        match self {
            Affinity::Integer => "INTEGER",
            Affinity::Real => "REAL",
            Affinity::Text => "TEXT",
            Affinity::Blob => "BLOB",
        }
    }
}

/// A single physical column: affinity, nullability and inline value checks.
#[derive(Clone, Debug)]
pub struct ColumnDef {
    pub affinity: Affinity,
    pub nullable: bool,
    pub checks: Vec<Check>,
}

/// The SQL fragment a check carries.
pub open spec fn check_sql(c: Check) -> Seq<char> {
    match c {
        Check::Sql(s) => s@,
    }
}

/// The SQL fragments of a list of checks.
pub open spec fn checks_views(cs: Seq<Check>) -> Seq<Seq<char>> {
    cs.map_values(|c: Check| check_sql(c))
}

/// One inline `CHECK` clause: the column name is prepended to the fragment.
pub open spec fn check_clause(name: Seq<char>, c: Seq<char>) -> Seq<char> {
    " CHECK ( "@ + name + " "@ + c + " ) "@
}

/// All inline `CHECK` clauses of a column, in declaration order.
pub open spec fn checks_text(name: Seq<char>, cs: Seq<Seq<char>>) -> Seq<char>
    decreases cs.len(),
{
    if cs.len() == 0 {
        Seq::empty()
    } else {
        checks_text(name, cs.drop_last()) + check_clause(name, cs.last())
    }
}

/// One column definition line of a `CREATE TABLE` statement.
pub open spec fn column_line(
    name: Seq<char>,
    affinity: Affinity,
    nullable: bool,
    checks: Seq<Seq<char>>,
) -> Seq<char> {
    name + " "@ + affinity_str(affinity) + (if nullable {
        Seq::<char>::empty()
    } else {
        " NOT NULL"@
    }) + checks_text(name, checks)
}

impl ColumnDef {
    /// Append this column's definition line, named by the joined `chain`.
    /// `nullable` is the disjunction of the `nullable` flags of all enclosing
    /// values; it is combined with the column's own flag.
    #[verifier::loop_isolation(false)]
    pub fn push_sql(&self, nullable: bool, chain: &StrChain, out: &mut String)
        ensures
            final(out)@ == old(out)@ + column_line(
                join_with(chain@, "_"@),
                self.affinity,
                nullable || self.nullable,
                checks_views(self.checks@),
            ),
    {
        let ghost name = join_with(chain@, "_"@);
        chain.join(out, "_");
        out.append(" ");
        out.append(self.affinity.as_str());
        if !(nullable || self.nullable) {
            out.append(" NOT NULL");
        }
        let ghost base = out@;
        let mut i: usize = 0;
        assert(out@ =~= base + checks_text(name, checks_views(self.checks@).take(0)));
        while i < self.checks.len()
            invariant
                i <= self.checks.len(),
                out@ == base + checks_text(name, checks_views(self.checks@).take(i as int)),
            decreases self.checks.len() - i,
        {
            let check = match &self.checks[i] {
                Check::Sql(s) => s.as_str(),
            };
            out.append(" CHECK ( ");
            chain.join(out, "_");
            out.append(" ");
            out.append(check);
            out.append(" ) ");
            proof {
                let cvs = checks_views(self.checks@);
                assert(cvs[i as int] == check_sql(self.checks@[i as int]));
                assert(cvs.take(i + 1).drop_last() =~= cvs.take(i as int));
                assert(cvs.take(i + 1).last() == cvs[i as int]);
                assert(checks_text(name, cvs.take(i + 1)) == checks_text(name, cvs.take(i as int))
                    + check_clause(name, cvs[i as int]));
                assert(out@ =~= base + checks_text(name, cvs.take(i + 1)));
            }
            i = i + 1;
        }
        proof {
            let cvs = checks_views(self.checks@);
            assert(cvs.take(cvs.len() as int) =~= cvs);
            assert(out@ =~= old(out)@ + column_line(
                name,
                self.affinity,
                nullable || self.nullable,
                cvs,
            ));
        }
    }
}


/// A type stored in exactly one physical column.
pub trait Column: crate::types::ToSql2 + crate::types::FromSql2 {
    /// The storage affinity of the column.
    spec fn spec_affinity() -> Affinity;

    /// Whether the column accepts `NULL`.
    spec fn spec_nullable() -> bool;

    /// The inline checks of the column.
    spec fn spec_checks() -> Seq<Seq<char>>;

    /// The column description of this type.
    fn definition() -> (d: ColumnDef)
        ensures
            d.affinity == Self::spec_affinity(),
            d.nullable == Self::spec_nullable(),
            checks_views(d.checks@) == Self::spec_checks(),
    ;
}

impl Column for bool {
    open spec fn spec_affinity() -> Affinity {
        Affinity::Integer
    }

    open spec fn spec_nullable() -> bool {
        false
    }

    open spec fn spec_checks() -> Seq<Seq<char>> {
        seq!["BETWEEN 0 AND 1"@]
    }

    fn definition() -> (d: ColumnDef) {
        let mut checks: Vec<Check> = Vec::new();
        checks.push(Check::Sql(String::from_str("BETWEEN 0 AND 1")));
        let d = ColumnDef { affinity: Affinity::Integer, nullable: false, checks };
        assert(checks_views(d.checks@) =~= Self::spec_checks());
        d
    }
}

impl Column for i8 {
    open spec fn spec_affinity() -> Affinity {
        Affinity::Integer
    }

    open spec fn spec_nullable() -> bool {
        false
    }

    open spec fn spec_checks() -> Seq<Seq<char>> {
        Seq::empty()
    }

    fn definition() -> (d: ColumnDef) {
        let d = ColumnDef { affinity: Affinity::Integer, nullable: false, checks: Vec::new() };
        assert(checks_views(d.checks@) =~= Self::spec_checks());
        d
    }
}

impl Column for i16 {
    open spec fn spec_affinity() -> Affinity {
        Affinity::Integer
    }

    open spec fn spec_nullable() -> bool {
        false
    }

    open spec fn spec_checks() -> Seq<Seq<char>> {
        Seq::empty()
    }

    fn definition() -> (d: ColumnDef) {
        let d = ColumnDef { affinity: Affinity::Integer, nullable: false, checks: Vec::new() };
        assert(checks_views(d.checks@) =~= Self::spec_checks());
        d
    }
}

impl Column for i32 {
    open spec fn spec_affinity() -> Affinity {
        Affinity::Integer
    }

    open spec fn spec_nullable() -> bool {
        false
    }

    open spec fn spec_checks() -> Seq<Seq<char>> {
        Seq::empty()
    }

    fn definition() -> (d: ColumnDef) {
        let d = ColumnDef { affinity: Affinity::Integer, nullable: false, checks: Vec::new() };
        assert(checks_views(d.checks@) =~= Self::spec_checks());
        d
    }
}

impl Column for i64 {
    open spec fn spec_affinity() -> Affinity {
        Affinity::Integer
    }

    open spec fn spec_nullable() -> bool {
        false
    }

    open spec fn spec_checks() -> Seq<Seq<char>> {
        Seq::empty()
    }

    fn definition() -> (d: ColumnDef) {
        let d = ColumnDef { affinity: Affinity::Integer, nullable: false, checks: Vec::new() };
        assert(checks_views(d.checks@) =~= Self::spec_checks());
        d
    }
}

impl Column for isize {
    open spec fn spec_affinity() -> Affinity {
        Affinity::Integer
    }

    open spec fn spec_nullable() -> bool {
        false
    }

    open spec fn spec_checks() -> Seq<Seq<char>> {
        Seq::empty()
    }

    fn definition() -> (d: ColumnDef) {
        let d = ColumnDef { affinity: Affinity::Integer, nullable: false, checks: Vec::new() };
        assert(checks_views(d.checks@) =~= Self::spec_checks());
        d
    }
}

impl Column for u8 {
    open spec fn spec_affinity() -> Affinity {
        Affinity::Integer
    }

    open spec fn spec_nullable() -> bool {
        false
    }

    open spec fn spec_checks() -> Seq<Seq<char>> {
        Seq::empty()
    }

    fn definition() -> (d: ColumnDef) {
        let d = ColumnDef { affinity: Affinity::Integer, nullable: false, checks: Vec::new() };
        assert(checks_views(d.checks@) =~= Self::spec_checks());
        d
    }
}

impl Column for u16 {
    open spec fn spec_affinity() -> Affinity {
        Affinity::Integer
    }

    open spec fn spec_nullable() -> bool {
        false
    }

    open spec fn spec_checks() -> Seq<Seq<char>> {
        Seq::empty()
    }

    fn definition() -> (d: ColumnDef) {
        let d = ColumnDef { affinity: Affinity::Integer, nullable: false, checks: Vec::new() };
        assert(checks_views(d.checks@) =~= Self::spec_checks());
        d
    }
}

impl Column for u32 {
    open spec fn spec_affinity() -> Affinity {
        Affinity::Integer
    }

    open spec fn spec_nullable() -> bool {
        false
    }

    open spec fn spec_checks() -> Seq<Seq<char>> {
        Seq::empty()
    }

    fn definition() -> (d: ColumnDef) {
        let d = ColumnDef { affinity: Affinity::Integer, nullable: false, checks: Vec::new() };
        assert(checks_views(d.checks@) =~= Self::spec_checks());
        d
    }
}

impl Column for u64 {
    open spec fn spec_affinity() -> Affinity {
        Affinity::Integer
    }

    open spec fn spec_nullable() -> bool {
        false
    }

    open spec fn spec_checks() -> Seq<Seq<char>> {
        Seq::empty()
    }

    fn definition() -> (d: ColumnDef) {
        let d = ColumnDef { affinity: Affinity::Integer, nullable: false, checks: Vec::new() };
        assert(checks_views(d.checks@) =~= Self::spec_checks());
        d
    }
}

impl Column for usize {
    open spec fn spec_affinity() -> Affinity {
        Affinity::Integer
    }

    open spec fn spec_nullable() -> bool {
        false
    }

    open spec fn spec_checks() -> Seq<Seq<char>> {
        Seq::empty()
    }

    fn definition() -> (d: ColumnDef) {
        let d = ColumnDef { affinity: Affinity::Integer, nullable: false, checks: Vec::new() };
        assert(checks_views(d.checks@) =~= Self::spec_checks());
        d
    }
}

impl Column for String {
    open spec fn spec_affinity() -> Affinity {
        Affinity::Text
    }

    open spec fn spec_nullable() -> bool {
        false
    }

    open spec fn spec_checks() -> Seq<Seq<char>> {
        Seq::empty()
    }

    fn definition() -> (d: ColumnDef) {
        let d = ColumnDef { affinity: Affinity::Text, nullable: false, checks: Vec::new() };
        assert(checks_views(d.checks@) =~= Self::spec_checks());
        d
    }
}

impl Column for Vec<u8> {
    open spec fn spec_affinity() -> Affinity {
        Affinity::Blob
    }

    open spec fn spec_nullable() -> bool {
        false
    }

    open spec fn spec_checks() -> Seq<Seq<char>> {
        Seq::empty()
    }

    fn definition() -> (d: ColumnDef) {
        let d = ColumnDef { affinity: Affinity::Blob, nullable: false, checks: Vec::new() };
        assert(checks_views(d.checks@) =~= Self::spec_checks());
        d
    }
}

} // verus!
