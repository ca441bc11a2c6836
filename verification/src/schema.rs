//! Schemas: closed sets of tables initialized together.

use vstd::prelude::*;
use vstd::string::StringExecFns;

use crate::table::{Table, TableDef};
use crate::text::{lemma_views_of_push, views_of};
use crate::value::{fks_closed, mentions_fk};
use crate::SchemaError;

verus! {

/// The bodies of the member tables' `CREATE TABLE` statements, each
/// followed by a line break.
pub open spec fn script_body(texts: Seq<Seq<char>>) -> Seq<char>
    decreases texts,
{
    if texts.len() == 0 {
        Seq::empty()
    } else {
        script_body(texts.drop_last()) + texts.last() + "\n"@
    }
}

/// The storage initialization script: every member table's `CREATE TABLE`
/// text, in order, inside one transaction.
pub open spec fn script_spec(texts: Seq<Seq<char>>) -> Seq<char> {
    "BEGIN TRANSACTION;\n"@ + script_body(texts) + "END TRANSACTION;\n"@
}

/// Wrap the given statement texts in one transaction.
#[verifier::loop_isolation(false)]
pub fn define(tables: &Vec<String>) -> (r: String)
    ensures
        r@ == script_spec(views_of(tables@)),
{
    let mut out = String::new();
    out.append("BEGIN TRANSACTION;\n");
    let mut i: usize = 0;
    assert(views_of(tables@).take(0) =~= Seq::<Seq<char>>::empty());
    assert(out@ =~= "BEGIN TRANSACTION;\n"@ + script_body(views_of(tables@).take(0)));
    while i < tables.len()
        invariant
            i <= tables.len(),
            out@ == "BEGIN TRANSACTION;\n"@ + script_body(views_of(tables@).take(i as int)),
        decreases tables.len() - i,
    {
        out.append(tables[i].as_str());
        out.append("\n");
        proof {
            let ts = views_of(tables@);
            assert(ts.take(i + 1).drop_last() =~= ts.take(i as int));
            assert(ts.take(i + 1).last() == ts[i as int]);
            assert(ts[i as int] == tables@[i as int]@);
            assert(out@ =~= "BEGIN TRANSACTION;\n"@ + script_body(ts.take(i + 1)));
        }
        i = i + 1;
    }
    assert(views_of(tables@).take(tables@.len() as int) =~= views_of(tables@));
    out.append("END TRANSACTION;\n");
    assert(out@ =~= script_spec(views_of(tables@)));
    out
}

/// The names of the given tables, in order.
pub open spec fn table_names(defs: Seq<TableDef>) -> Seq<Seq<char>> {
    defs.map_values(|d: TableDef| d.name@)
}

/// Every foreign key reachable in the table's values points at one of the
/// given table names.
pub open spec fn table_fks_closed(t: TableDef, names: Seq<Seq<char>>) -> bool {
    forall|i: int| 0 <= i < t.values@.len() ==> fks_closed(#[trigger] t.values@[i].1, names)
}

/// Referential closure: every foreign key reachable in any member table
/// points at a member table.
pub open spec fn schema_closed(defs: Seq<TableDef>) -> bool {
    forall|i: int| 0 <= i < defs.len() ==> table_fks_closed(#[trigger] defs[i], table_names(defs))
}

/// The `CREATE TABLE` texts of compiled tables, in order.
pub open spec fn create_texts(ts: Seq<Table>) -> Seq<Seq<char>> {
    ts.map_values(|t: Table| t.create_table@)
}

/// A finite, non-empty set of tables, closed under foreign-key
/// reachability.  Built only through [`Schema::new`], which enforces the
/// closure before any statement text is handed out.
#[derive(Debug)]
pub struct Schema {
    pub tables: Vec<Table>,
}

impl Schema {
    /// The definitions of the member tables, in order.
    pub open spec fn defs(&self) -> Seq<TableDef> {
        self.tables@.map_values(|t: Table| t.def)
    }

    /// A valid schema: non-empty, every member compiled from its
    /// definition, and referentially closed.
    pub open spec fn wf(&self) -> bool {
        &&& self.tables@.len() > 0
        &&& forall|i: int| 0 <= i < self.tables@.len() ==> (#[trigger] self.tables@[i]).compiled()
        &&& schema_closed(self.defs())
    }

    /// Validate the referential closure of the given table definitions and
    /// compile each into its statements.  A schema with no tables, or with
    /// a foreign key whose target is not among the tables, is rejected
    /// whole: no partially valid schema is ever returned.
    #[verifier::loop_isolation(false)]
    pub fn new(defs: Vec<TableDef>) -> (r: Result<Schema, SchemaError>)
        requires
            forall|i: int| 0 <= i < defs@.len() ==> (#[trigger] defs@[i]).wf(),
        ensures
            r is Ok <==> defs@.len() > 0 && schema_closed(defs@),
            r matches Ok(s) ==> s.wf() && s.defs() == defs@,
            r matches Err(e) ==> match e {
                SchemaError::EmptySchema => defs@.len() == 0,
                SchemaError::UnresolvedForeignKey { table, target } => {
                    &&& !table_names(defs@).contains(target@)
                    &&& exists|i: int, j: int|
                        0 <= i < defs@.len() && 0 <= j < defs@[i].values@.len() && defs@[i].name@
                            == table@ && mentions_fk(#[trigger] defs@[i].values@[j].1, target@)
                },
                _ => false,
            },
    {
        let ghost odefs = defs@;
        if defs.len() == 0 {
            return Result::Err(SchemaError::EmptySchema);
        }
        let mut names: Vec<String> = Vec::new();
        let mut i: usize = 0;
        assert(views_of(names@) =~= table_names(odefs).take(0));
        while i < defs.len()
            invariant
                i <= defs.len(),
                views_of(names@) == table_names(odefs).take(i as int),
            decreases defs.len() - i,
        {
            let n = defs[i].name.clone();
            proof {
                lemma_views_of_push(names@, n);
                assert(table_names(odefs).take(i as int).push(odefs[i as int].name@)
                    =~= table_names(odefs).take(i + 1));
            }
            names.push(n);
            i = i + 1;
        }
        assert(table_names(odefs).take(odefs.len() as int) =~= table_names(odefs));
        assert(views_of(names@) == table_names(odefs));

        let mut t: usize = 0;
        while t < defs.len()
            invariant
                t <= defs.len(),
                views_of(names@) == table_names(odefs),
                forall|k: int|
                    0 <= k < t ==> table_fks_closed(#[trigger] odefs[k], table_names(odefs)),
            decreases defs.len() - t,
        {
            let mut f: usize = 0;
            while f < defs[t].values.len()
                invariant
                    t < defs.len(),
                    f <= defs@[t as int].values@.len(),
                    views_of(names@) == table_names(odefs),
                    forall|j: int|
                        0 <= j < f ==> fks_closed(
                            #[trigger] odefs[t as int].values@[j].1,
                            table_names(odefs),
                        ),
                decreases defs@[t as int].values@.len() - f,
            {
                if let Option::Some(target) = defs[t].values[f].1.find_unresolved_fk(&names) {
                    let table = defs[t].name.clone();
                    proof {
                        assert(mentions_fk(odefs[t as int].values@[f as int].1, target@));
                        assert(!table_fks_closed(odefs[t as int], table_names(odefs)));
                        assert(!schema_closed(odefs));
                    }
                    return Result::Err(SchemaError::UnresolvedForeignKey { table, target });
                }
                f = f + 1;
            }
            t = t + 1;
        }
        assert(schema_closed(odefs));

        let mut rest = defs;
        let mut tables: Vec<Table> = Vec::new();
        assert(tables@.map_values(|tb: Table| tb.def) =~= odefs.take(0));
        while rest.len() > 0
            invariant
                rest@ == odefs.skip(tables@.len() as int),
                tables@.len() <= odefs.len(),
                tables@.map_values(|tb: Table| tb.def) == odefs.take(tables@.len() as int),
                forall|k: int| 0 <= k < tables@.len() ==> (#[trigger] tables@[k]).compiled(),
            decreases rest@.len(),
        {
            let ghost done = tables@.len() as int;
            proof {
                assert(rest@[0] == odefs[done]);
                assert(odefs[done].wf());
            }
            let d = rest.remove(0);
            let tb = Table::new(d);
            tables.push(tb);
            proof {
                assert(rest@ =~= odefs.skip(done + 1));
                assert(tables@.map_values(|tb2: Table| tb2.def) =~= odefs.take(done + 1));
            }
        }
        assert(odefs.take(odefs.len() as int) =~= odefs);
        let s = Schema { tables };
        assert(s.defs() == odefs);
        Result::Ok(s)
    }

    /// The storage initialization script: every member table's
    /// `CREATE TABLE` text, in order, inside one transaction.
    #[verifier::loop_isolation(false)]
    pub fn create_script(&self) -> (r: String)
        ensures
            r@ == script_spec(create_texts(self.tables@)),
    {
        let mut out = String::new();
        out.append("BEGIN TRANSACTION;\n");
        let mut i: usize = 0;
        assert(create_texts(self.tables@).take(0) =~= Seq::<Seq<char>>::empty());
        assert(out@ =~= "BEGIN TRANSACTION;\n"@ + script_body(create_texts(self.tables@).take(0)));
        while i < self.tables.len()
            invariant
                i <= self.tables.len(),
                out@ == "BEGIN TRANSACTION;\n"@ + script_body(
                    create_texts(self.tables@).take(i as int),
                ),
            decreases self.tables.len() - i,
        {
            out.append(self.tables[i].create_table.as_str());
            out.append("\n");
            proof {
                let ts = create_texts(self.tables@);
                assert(ts.take(i + 1).drop_last() =~= ts.take(i as int));
                assert(ts.take(i + 1).last() == ts[i as int]);
                assert(ts[i as int] == self.tables@[i as int].create_table@);
                assert(out@ =~= "BEGIN TRANSACTION;\n"@ + script_body(ts.take(i + 1)));
            }
            i = i + 1;
        }
        assert(create_texts(self.tables@).take(self.tables@.len() as int) =~= create_texts(
            self.tables@,
        ));
        out.append("END TRANSACTION;\n");
        assert(out@ =~= script_spec(create_texts(self.tables@)));
        out
    }
}

} // verus!
