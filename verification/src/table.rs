//! Tables: named, ordered collections of values, and the SQL statements
//! derived from them.

use vstd::prelude::*;
use vstd::string::StringExecFns;

use crate::text::{
    contains_name, dec_str, join_with, lemma_join_with_push, push_dec, views_of,
};
use crate::value::{
    constraint_text, count_spec, count_values, field_text, names_spec, names_values, wf_tree,
    wf_value, wf_values, lemma_count_values_elem_le, lemma_count_values_take_le,
    lemma_count_values_take_step, lemma_wf_values_take, NestedValueDef, ValueDef,
};
use crate::SchemaError;

verus! {

/// Definition of a table: its name, its ordered named values, the names of
/// the fields that form the primary key, and table-level constraints.
#[derive(Debug)]
pub struct TableDef {
    /// Name of the table.
    pub name: String,
    /// Names of the fields whose values make up the primary key.  Empty for
    /// a table without a declared key.
    pub primary_key: Vec<String>,
    /// All fields, in declaration order.  This order is canonical: it fixes
    /// the column order of `CREATE TABLE`, of `SELECT *` results and of
    /// `INSERT` parameters.
    pub values: Vec<(String, ValueDef)>,
    /// Table-level constraints, in declaration order.
    pub constraints: Vec<Constraint>,
}

/// An SQL constraint at the table level.
#[derive(Debug)]
pub enum Constraint {
    /// SQL put into a `CHECK (…)` clause unmodified.
    SqlCheck(String),
    /// `UNIQUE` constraint over all the given values' columns.
    Unique(Vec<(String, ValueDef)>),
}

/// Every field's value is well formed.
pub open spec fn wf_fields(vs: Seq<(String, ValueDef)>) -> bool {
    forall|i: int| 0 <= i < vs.len() ==> wf_value(#[trigger] vs[i].1)
}

/// A well-formed table-level constraint: a `UNIQUE` group's values are
/// well formed.
pub open spec fn wf_constraint(c: Constraint) -> bool {
    match c {
        Constraint::SqlCheck(_) => true,
        Constraint::Unique(vs) => wf_fields(vs@),
    }
}

/// Every table-level constraint is well formed.
pub open spec fn wf_constraints(cs: Seq<Constraint>) -> bool {
    forall|i: int| 0 <= i < cs.len() ==> wf_constraint(#[trigger] cs[i])
}

/// The fields of `vs` whose names are declared in `pk`, in declaration
/// order.
pub open spec fn key_fields(pk: Seq<Seq<char>>, vs: Seq<(String, ValueDef)>) -> Seq<
    (String, ValueDef),
>
    decreases vs,
{
    if vs.len() == 0 {
        Seq::empty()
    } else {
        key_fields(pk, vs.drop_last()) + (if pk.contains(vs.last().0@) {
            seq![vs.last()]
        } else {
            Seq::empty()
        })
    }
}

/// The fields of `vs` whose names are not declared in `pk`, in declaration
/// order.
pub open spec fn other_fields(pk: Seq<Seq<char>>, vs: Seq<(String, ValueDef)>) -> Seq<
    (String, ValueDef),
>
    decreases vs,
{
    if vs.len() == 0 {
        Seq::empty()
    } else {
        other_fields(pk, vs.drop_last()) + (if pk.contains(vs.last().0@) {
            Seq::empty()
        } else {
            seq![vs.last()]
        })
    }
}

/// Whether `n` is the name of one of the fields.
pub open spec fn name_among(n: Seq<char>, vs: Seq<(String, ValueDef)>) -> bool {
    exists|j: int| 0 <= j < vs.len() && n == #[trigger] vs[j].0@
}

/// Every declared key field name matches some field.
pub open spec fn pk_names_known(pk: Seq<Seq<char>>, vs: Seq<(String, ValueDef)>) -> bool {
    forall|i: int| 0 <= i < pk.len() ==> name_among(#[trigger] pk[i], vs)
}

impl TableDef {
    /// A well-formed table: at least one field, all value trees well
    /// formed, a machine-representable column count, every declared key
    /// field present, and well-formed constraints.
    pub open spec fn wf(&self) -> bool {
        &&& self.values@.len() > 0
        &&& wf_fields(self.values@)
        &&& count_values(self.values@) <= usize::MAX
        &&& pk_names_known(views_of(self.primary_key@), self.values@)
        &&& wf_constraints(self.constraints@)
    }
}

/// Prefix–whole relation for key field filtering.
pub proof fn lemma_key_fields_take_step(pk: Seq<Seq<char>>, vs: Seq<(String, ValueDef)>, i: int)
    requires
        0 <= i < vs.len(),
    ensures
        key_fields(pk, vs.take(i + 1)) == key_fields(pk, vs.take(i)) + (if pk.contains(vs[i].0@) {
            seq![vs[i]]
        } else {
            Seq::<(String, ValueDef)>::empty()
        }),
        other_fields(pk, vs.take(i + 1)) == other_fields(pk, vs.take(i)) + (if pk.contains(
            vs[i].0@,
        ) {
            Seq::<(String, ValueDef)>::empty()
        } else {
            seq![vs[i]]
        }),
{
    assert(vs.take(i + 1).drop_last() =~= vs.take(i));
    assert(vs.take(i + 1).last() == vs[i]);
}

/// Name lists distribute over concatenation of field lists.
pub proof fn lemma_names_values_concat(
    path: Seq<Seq<char>>,
    a: Seq<(String, ValueDef)>,
    b: Seq<(String, ValueDef)>,
)
    ensures
        names_values(path, a + b) == names_values(path, a) + names_values(path, b),
    decreases b.len(),
{
    if b.len() == 0 {
        assert(a + b =~= a);
        assert(names_values(path, a) + names_values(path, b) =~= names_values(path, a));
    } else {
        lemma_names_values_concat(path, a, b.drop_last());
        assert((a + b).drop_last() =~= a + b.drop_last());
        assert((a + b).last() == b.last());
        assert(names_values(path, a) + (names_values(path, b.drop_last()) + names_spec(
            path.push(b.last().0@),
            b.last().1.inner,
        )) =~= (names_values(path, a) + names_values(path, b.drop_last())) + names_spec(
            path.push(b.last().0@),
            b.last().1.inner,
        ));
    }
}

/// Column counts distribute over concatenation of field lists.
pub proof fn lemma_count_values_concat(a: Seq<(String, ValueDef)>, b: Seq<(String, ValueDef)>)
    ensures
        count_values(a + b) == count_values(a) + count_values(b),
    decreases b.len(),
{
    if b.len() == 0 {
        assert(a + b =~= a);
    } else {
        lemma_count_values_concat(a, b.drop_last());
        assert((a + b).drop_last() =~= a + b.drop_last());
        assert((a + b).last() == b.last());
    }
}

/// The key and the other fields partition the fields: their column counts
/// add up, and each inherits well-formedness.
pub proof fn lemma_fields_partition(pk: Seq<Seq<char>>, vs: Seq<(String, ValueDef)>)
    requires
        wf_fields(vs),
    ensures
        count_values(key_fields(pk, vs)) + count_values(other_fields(pk, vs)) == count_values(vs),
        wf_fields(key_fields(pk, vs)),
        wf_fields(other_fields(pk, vs)),
    decreases vs,
{
    if vs.len() == 0 {
    } else {
        assert(wf_fields(vs.drop_last())) by {
            assert(forall|j: int|
                0 <= j < vs.len() - 1 ==> vs.drop_last()[j] == #[trigger] vs[j]);
        }
        lemma_fields_partition(pk, vs.drop_last());
        let last = vs.last();
        assert(wf_value(last.1));
        if pk.contains(last.0@) {
            lemma_count_values_concat(key_fields(pk, vs.drop_last()), seq![last]);
            assert(count_values(seq![last]) == count_spec(last.1.inner)) by {
                assert(seq![last].drop_last() =~= Seq::<(String, ValueDef)>::empty());
                assert(seq![last].last() == last);
                assert(count_values(Seq::<(String, ValueDef)>::empty()) == 0);
            }
            assert(other_fields(pk, vs) =~= other_fields(pk, vs.drop_last()));
            assert(wf_fields(key_fields(pk, vs))) by {
                let kfs = key_fields(pk, vs.drop_last());
                assert(forall|j: int|
                    0 <= j < kfs.len() ==> (kfs + seq![last])[j] == #[trigger] kfs[j]);
                assert((kfs + seq![last])[kfs.len() as int] == last);
            }
        } else {
            lemma_count_values_concat(other_fields(pk, vs.drop_last()), seq![last]);
            assert(count_values(seq![last]) == count_spec(last.1.inner)) by {
                assert(seq![last].drop_last() =~= Seq::<(String, ValueDef)>::empty());
                assert(seq![last].last() == last);
                assert(count_values(Seq::<(String, ValueDef)>::empty()) == 0);
            }
            assert(key_fields(pk, vs) =~= key_fields(pk, vs.drop_last()));
            assert(wf_fields(other_fields(pk, vs))) by {
                let ofs = other_fields(pk, vs.drop_last());
                assert(forall|j: int|
                    0 <= j < ofs.len() ==> (ofs + seq![last])[j] == #[trigger] ofs[j]);
                assert((ofs + seq![last])[ofs.len() as int] == last);
            }
        }
    }
}

/// Point-wise well-formedness implies the recursive form.
pub proof fn lemma_wf_fields_to_values(vs: Seq<(String, ValueDef)>)
    requires
        wf_fields(vs),
    ensures
        wf_values(vs),
    decreases vs,
{
    if vs.len() > 0 {
        assert(wf_fields(vs.drop_last())) by {
            assert(forall|j: int|
                0 <= j < vs.len() - 1 ==> vs.drop_last()[j] == #[trigger] vs[j]);
        }
        lemma_wf_fields_to_values(vs.drop_last());
        assert(wf_value(vs.last().1));
    }
}

/// Check one value tree: its column count if it is well formed and the
/// count fits the machine, `None` otherwise.
#[verifier::loop_isolation(false)]
fn validate_tree(d: &NestedValueDef) -> (r: Option<usize>)
    ensures
        r is Some <==> wf_tree(*d) && count_spec(*d) <= usize::MAX,
        r matches Some(c) ==> c as nat == count_spec(*d),
    decreases *d,
{
    match d {
        NestedValueDef::Column(_) => Option::Some(1),
        NestedValueDef::Value(v) => validate_tree(&v.inner),
        NestedValueDef::Values(vs) => {
            if vs.len() == 0 {
                return Option::None;
            }
            let mut total: usize = 0;
            let mut i: usize = 0;
            assert(vs@.take(0) =~= Seq::<(String, ValueDef)>::empty());
            while i < vs.len()
                invariant
                    i <= vs.len(),
                    wf_values(vs@.take(i as int)),
                    total as nat == count_values(vs@.take(i as int)),
                decreases vs.len() - i,
            {
                proof {
                    assert(decreases_to!(*d => d->Values_0));
                    assert(*vs == d->Values_0);
                    assert(decreases_to!(*vs => vs@));
                    assert(decreases_to!(vs@ => vs@[i as int]));
                    assert(decreases_to!(vs@[i as int] => vs@[i as int].1.inner));
                    assert(decreases_to!(*d => vs@[i as int].1.inner));
                }
                let sub = validate_tree(&vs[i].1.inner);
                match sub {
                    Option::None => {
                        proof {
                            if wf_tree(*d) && count_spec(*d) <= usize::MAX {
                                lemma_wf_values_take(vs@, vs@.len() as int);
                                assert(wf_tree(vs@[i as int].1.inner));
                                lemma_count_values_elem_le(vs@, i as int);
                            }
                        }
                        return Option::None;
                    },
                    Option::Some(c) => {
                        proof {
                            lemma_count_values_take_step(vs@, i as int);
                        }
                        match total.checked_add(c) {
                            Option::None => {
                                proof {
                                    lemma_count_values_take_le(vs@, i + 1);
                                }
                                return Option::None;
                            },
                            Option::Some(t2) => {
                                total = t2;
                            },
                        }
                        proof {
                            assert(vs@.take(i + 1).drop_last() =~= vs@.take(i as int));
                            assert(vs@.take(i + 1).last() == vs@[i as int]);
                        }
                    },
                }
                i = i + 1;
            }
            proof {
                assert(vs@.take(vs@.len() as int) =~= vs@);
            }
            Option::Some(total)
        },
    }
}

impl TableDef {
    /// Build a table definition, rejecting authoring mistakes: a table with
    /// no values, an empty composite anywhere in a value tree, a column
    /// count beyond the machine, or a declared key field that matches no
    /// field.  No partially valid definition is returned.
    #[verifier::loop_isolation(false)]
    pub fn new(
        name: String,
        values: Vec<(String, ValueDef)>,
        primary_key: Vec<String>,
        constraints: Vec<Constraint>,
    ) -> (r: Result<TableDef, SchemaError>)
        ensures
            r is Ok <==> {
                &&& values@.len() > 0
                &&& wf_fields(values@)
                &&& count_values(values@) <= usize::MAX
                &&& pk_names_known(views_of(primary_key@), values@)
                &&& wf_constraints(constraints@)
            },
            r matches Ok(t) ==> t.wf() && t.name == name && t.values == values && t.primary_key
                == primary_key && t.constraints == constraints,
    {
        if values.len() == 0 {
            return Result::Err(SchemaError::EmptyTable);
        }
        let mut total: usize = 0;
        let mut i: usize = 0;
        assert(values@.take(0) =~= Seq::<(String, ValueDef)>::empty());
        while i < values.len()
            invariant
                i <= values.len(),
                forall|j: int| 0 <= j < i ==> wf_value(#[trigger] values@[j].1),
                total as nat == count_values(values@.take(i as int)),
            decreases values.len() - i,
        {
            let sub = validate_tree(&values[i].1.inner);
            match sub {
                Option::None => {
                    proof {
                        if wf_fields(values@) {
                            assert(wf_value(values@[i as int].1));
                        }
                    }
                    return Result::Err(SchemaError::EmptyValueTree);
                },
                Option::Some(c) => {
                    proof {
                        lemma_count_values_take_step(values@, i as int);
                    }
                    match total.checked_add(c) {
                        Option::None => {
                            proof {
                                lemma_count_values_take_le(values@, i + 1);
                            }
                            return Result::Err(SchemaError::TooManyColumns);
                        },
                        Option::Some(t2) => {
                            total = t2;
                        },
                    }
                },
            }
            i = i + 1;
        }
        proof {
            assert(values@.take(values@.len() as int) =~= values@);
        }
        let mut k: usize = 0;
        while k < primary_key.len()
            invariant
                k <= primary_key.len(),
                forall|i2: int|
                    0 <= i2 < k ==> name_among(#[trigger] views_of(primary_key@)[i2], values@),
            decreases primary_key.len() - k,
        {
            let mut found = false;
            let mut j: usize = 0;
            while j < values.len()
                invariant
                    j <= values.len(),
                    found ==> name_among(primary_key@[k as int]@, values@),
                    !found ==> forall|j2: int|
                        0 <= j2 < j ==> primary_key@[k as int]@ != #[trigger] values@[j2].0@,
                decreases values.len() - j,
            {
                if !found && primary_key[k] == values[j].0 {
                    found = true;
                }
                j = j + 1;
            }
            assert(views_of(primary_key@)[k as int] == primary_key@[k as int]@);
            if !found {
                assert(!name_among(views_of(primary_key@)[k as int], values@));
                let bad = primary_key[k].clone();
                return Result::Err(SchemaError::UnknownKeyField(bad));
            }
            k = k + 1;
        }
        let mut c: usize = 0;
        while c < constraints.len()
            invariant
                c <= constraints.len(),
                forall|i2: int| 0 <= i2 < c ==> wf_constraint(#[trigger] constraints@[i2]),
            decreases constraints.len() - c,
        {
            match &constraints[c] {
                Constraint::SqlCheck(_) => {},
                Constraint::Unique(vs) => {
                    let mut j: usize = 0;
                    while j < vs.len()
                        invariant
                            j <= vs.len(),
                            forall|j2: int| 0 <= j2 < j ==> wf_value(#[trigger] vs@[j2].1),
                        decreases vs.len() - j,
                    {
                        if validate_tree(&vs[j].1.inner).is_none() {
                            proof {
                                if wf_constraints(constraints@) {
                                    assert(wf_constraint(constraints@[c as int]));
                                    assert(wf_value(vs@[j as int].1));
                                }
                            }
                            return Result::Err(SchemaError::EmptyValueTree);
                        }
                        j = j + 1;
                    }
                },
            }
            c = c + 1;
        }
        Result::Ok(TableDef { name, primary_key, values, constraints })
    }
}


/// `name = ?`, the equality test of one column against a placeholder.
pub open spec fn eq_item(n: Seq<char>) -> Seq<char> {
    n + " = ?"@
}

/// The equality tests of a list of columns.
pub open spec fn eq_items(names: Seq<Seq<char>>) -> Seq<Seq<char>> {
    names.map_values(|n: Seq<char>| eq_item(n))
}

/// The row lookup by primary key: one placeholder per key column, in key
/// order.
pub open spec fn get_by_key_spec(name: Seq<char>, keys: Seq<Seq<char>>) -> Seq<char> {
    "SELECT * FROM "@ + name + " WHERE ("@ + join_with(eq_items(keys), " AND "@) + ")"@
}

/// The row deletion by primary key.
pub open spec fn delete_spec(name: Seq<char>, keys: Seq<Seq<char>>) -> Seq<char> {
    "DELETE FROM "@ + name + " WHERE ("@ + join_with(eq_items(keys), " AND "@) + ")"@
}

/// `n` placeholders separated by commas.
pub open spec fn qmarks(n: nat) -> Seq<char>
    decreases n,
{
    if n <= 1 {
        "?"@
    } else {
        qmarks((n - 1) as nat) + ", ?"@
    }
}

/// The insertion of one full row: one placeholder per column, in
/// declaration order.
pub open spec fn insert_spec(name: Seq<char>, n: nat) -> Seq<char> {
    "INSERT INTO \""@ + name + "\" VALUES ("@ + qmarks(n) + ")"@
}

/// `name = excluded.name`, the upsert update of one non-key column.
pub open spec fn excluded_item(n: Seq<char>) -> Seq<char> {
    n + " = excluded."@ + n
}

/// The upsert update list of a list of columns.
pub open spec fn excluded_items(names: Seq<Seq<char>>) -> Seq<Seq<char>> {
    names.map_values(|n: Seq<char>| excluded_item(n))
}

/// Insert a row, or on a primary-key conflict update the non-key columns to
/// the excluded row's values — or do nothing for a key-only table.
pub open spec fn upsert_spec(name: Seq<char>, keys: Seq<Seq<char>>, others: Seq<Seq<char>>) -> Seq<
    char,
> {
    "INSERT INTO \""@ + name + "\" VALUES ("@ + qmarks(keys.len() + others.len()) + ") ON CONFLICT ("@
        + join_with(keys, ", "@) + ") "@ + (if others.len() == 0 {
        "DO NOTHING"@
    } else {
        "DO UPDATE SET "@ + join_with(excluded_items(others), ", "@)
    })
}

/// Look up a row of `name` by its key columns.
#[verifier::loop_isolation(false)]
pub fn get_by_key(name: &str, key_columns: &Vec<String>) -> (r: String)
    requires
        key_columns@.len() >= 1,
    ensures
        r@ == get_by_key_spec(name@, views_of(key_columns@)),
{
    let mut out = String::new();
    out.append("SELECT * FROM ");
    out.append(name);
    out.append(" WHERE (");
    push_eq_list(&mut out, key_columns, " AND ");
    out.append(")");
    assert(out@ =~= get_by_key_spec(name@, views_of(key_columns@)));
    out
}

/// Delete a row of `name` by its key columns.
#[verifier::loop_isolation(false)]
pub fn delete(name: &str, key_columns: &Vec<String>) -> (r: String)
    requires
        key_columns@.len() >= 1,
    ensures
        r@ == delete_spec(name@, views_of(key_columns@)),
{
    let mut out = String::new();
    out.append("DELETE FROM ");
    out.append(name);
    out.append(" WHERE (");
    push_eq_list(&mut out, key_columns, " AND ");
    out.append(")");
    assert(out@ =~= delete_spec(name@, views_of(key_columns@)));
    out
}

/// Append `col = ?` for each column, separated by `sep`.
#[verifier::loop_isolation(false)]
fn push_eq_list(out: &mut String, columns: &Vec<String>, sep: &str)
    ensures
        final(out)@ == old(out)@ + join_with(eq_items(views_of(columns@)), sep@),
{
    let mut i: usize = 0;
    assert(out@ =~= old(out)@ + join_with(eq_items(views_of(columns@)).take(0), sep@));
    while i < columns.len()
        invariant
            i <= columns.len(),
            out@ == old(out)@ + join_with(eq_items(views_of(columns@)).take(i as int), sep@),
        decreases columns.len() - i,
    {
        proof {
            let items = eq_items(views_of(columns@));
            lemma_join_with_push(items.take(i as int), items[i as int], sep@);
            assert(items.take(i as int).push(items[i as int]) =~= items.take(i + 1));
            assert(items[i as int] == eq_item(columns@[i as int]@));
        }
        if i > 0 {
            out.append(sep);
        }
        out.append(columns[i].as_str());
        out.append(" = ?");
        assert(out@ =~= old(out)@ + join_with(eq_items(views_of(columns@)).take(i + 1), sep@));
        i = i + 1;
    }
    assert(eq_items(views_of(columns@)).take(columns@.len() as int) =~= eq_items(
        views_of(columns@),
    ));
}

/// Insert one full row into `name`: one placeholder per column, to be bound
/// in declaration order.
#[verifier::loop_isolation(false)]
pub fn insert(name: &str, column_count: usize) -> (r: String)
    requires
        column_count >= 1,
    ensures
        r@ == insert_spec(name@, column_count as nat),
{
    let mut out = String::new();
    out.append("INSERT INTO \"");
    out.append(name);
    out.append("\" VALUES (");
    out.append("?");
    let mut i: usize = 1;
    assert(out@ =~= "INSERT INTO \""@ + name@ + "\" VALUES ("@ + qmarks(1));
    while i < column_count
        invariant
            1 <= i <= column_count,
            out@ == "INSERT INTO \""@ + name@ + "\" VALUES ("@ + qmarks(i as nat),
        decreases column_count - i,
    {
        out.append(", ?");
        assert(out@ =~= "INSERT INTO \""@ + name@ + "\" VALUES ("@ + qmarks((i + 1) as nat));
        i = i + 1;
    }
    out.append(")");
    assert(out@ =~= insert_spec(name@, column_count as nat));
    out
}

/// Insert a row into `name`, or on a primary-key conflict update the
/// non-key columns to the excluded row's values; `DO NOTHING` for a
/// key-only table.
#[verifier::loop_isolation(false)]
pub fn upsert(name: &str, key_columns: &Vec<String>, other_columns: &Vec<String>) -> (r: String)
    requires
        key_columns@.len() >= 1,
        key_columns@.len() + other_columns@.len() <= usize::MAX,
    ensures
        r@ == upsert_spec(name@, views_of(key_columns@), views_of(other_columns@)),
{
    let mut out = String::new();
    out.append("INSERT INTO \"");
    out.append(name);
    out.append("\" VALUES (");
    out.append("?");
    let total: usize = key_columns.len() + other_columns.len();
    let mut i: usize = 1;
    assert(out@ =~= "INSERT INTO \""@ + name@ + "\" VALUES ("@ + qmarks(1));
    while i < total
        invariant
            1 <= i <= total,
            out@ == "INSERT INTO \""@ + name@ + "\" VALUES ("@ + qmarks(i as nat),
        decreases total - i,
    {
        out.append(", ?");
        assert(out@ =~= "INSERT INTO \""@ + name@ + "\" VALUES ("@ + qmarks((i + 1) as nat));
        i = i + 1;
    }
    out.append(") ON CONFLICT (");
    let ghost mid = out@;
    let mut k: usize = 0;
    assert(out@ =~= mid + join_with(views_of(key_columns@).take(0), ", "@));
    while k < key_columns.len()
        invariant
            k <= key_columns.len(),
            out@ == mid + join_with(views_of(key_columns@).take(k as int), ", "@),
        decreases key_columns.len() - k,
    {
        proof {
            let items = views_of(key_columns@);
            lemma_join_with_push(items.take(k as int), items[k as int], ", "@);
            assert(items.take(k as int).push(items[k as int]) =~= items.take(k + 1));
        }
        if k > 0 {
            out.append(", ");
        }
        out.append(key_columns[k].as_str());
        assert(out@ =~= mid + join_with(views_of(key_columns@).take(k + 1), ", "@));
        k = k + 1;
    }
    assert(views_of(key_columns@).take(key_columns@.len() as int) =~= views_of(key_columns@));
    out.append(") ");
    if other_columns.len() == 0 {
        out.append("DO NOTHING");
        assert(out@ =~= upsert_spec(name@, views_of(key_columns@), views_of(other_columns@)));
        return out;
    }
    out.append("DO UPDATE SET ");
    let ghost mid2 = out@;
    let mut j: usize = 0;
    assert(out@ =~= mid2 + join_with(excluded_items(views_of(other_columns@)).take(0), ", "@));
    while j < other_columns.len()
        invariant
            j <= other_columns.len(),
            out@ == mid2 + join_with(
                excluded_items(views_of(other_columns@)).take(j as int),
                ", "@,
            ),
        decreases other_columns.len() - j,
    {
        proof {
            let items = excluded_items(views_of(other_columns@));
            lemma_join_with_push(items.take(j as int), items[j as int], ", "@);
            assert(items.take(j as int).push(items[j as int]) =~= items.take(j + 1));
            assert(items[j as int] == excluded_item(other_columns@[j as int]@));
        }
        if j > 0 {
            out.append(", ");
        }
        out.append(other_columns[j].as_str());
        out.append(" = excluded.");
        out.append(other_columns[j].as_str());
        assert(out@ =~= mid2 + join_with(
            excluded_items(views_of(other_columns@)).take(j + 1),
            ", "@,
        ));
        j = j + 1;
    }
    assert(excluded_items(views_of(other_columns@)).take(other_columns@.len() as int)
        =~= excluded_items(views_of(other_columns@)));
    assert(out@ =~= upsert_spec(name@, views_of(key_columns@), views_of(other_columns@)));
    out
}

/// The per-column key flags of a table: each entry of `vkc` stands for one
/// value and contributes its column count of copies of its key flag, in
/// declaration order.
pub open spec fn expanded_flags(vkc: Seq<(bool, usize)>) -> Seq<bool>
    decreases vkc,
{
    if vkc.len() == 0 {
        Seq::empty()
    } else {
        expanded_flags(vkc.drop_last()) + Seq::new(vkc.last().1 as nat, |j: int| vkc.last().0)
    }
}

/// `name = ?p`, a column's equality against its 1-based bind position in
/// declaration order.
pub open spec fn upd_item(n: Seq<char>, pos: int) -> Seq<char> {
    n + " = ?"@ + dec_str((pos + 1) as nat)
}

/// The update items of the columns whose key flag equals `want`, in
/// declaration order, each numbered by its position in the full bind order.
pub open spec fn upd_items(flags: Seq<bool>, names: Seq<Seq<char>>, want: bool) -> Seq<Seq<char>>
    decreases flags.len(),
{
    if flags.len() == 0 {
        Seq::empty()
    } else {
        let prev = upd_items(flags.drop_last(), names, want);
        if flags.last() == want {
            prev.push(upd_item(names[flags.len() - 1], flags.len() - 1))
        } else {
            prev
        }
    }
}

/// The row update by primary key.  All columns are bound once, in
/// declaration order; the `SET` list numbers the non-key columns by their
/// position in that order, the `WHERE` list the key columns.
pub open spec fn update_spec(name: Seq<char>, flags: Seq<bool>, names: Seq<Seq<char>>) -> Seq<
    char,
> {
    "UPDATE \""@ + name + "\" SET "@ + join_with(upd_items(flags, names, false), ", "@)
        + " WHERE "@ + join_with(upd_items(flags, names, true), " AND "@)
}

/// Append the update items for the columns whose flag equals `want`.
#[verifier::loop_isolation(false)]
fn push_upd_list(
    out: &mut String,
    flags: &Vec<bool>,
    all_columns: &Vec<String>,
    want: bool,
    sep: &str,
)
    requires
        flags@.len() == all_columns@.len(),
    ensures
        final(out)@ == old(out)@ + join_with(
            upd_items(flags@, views_of(all_columns@), want),
            sep@,
        ),
{
    let ghost names = views_of(all_columns@);
    let mut first = true;
    let mut p: usize = 0;
    assert(out@ =~= old(out)@ + join_with(upd_items(flags@.take(0), names, want), sep@));
    while p < flags.len()
        invariant
            p <= flags.len(),
            first <==> upd_items(flags@.take(p as int), names, want).len() == 0,
            out@ == old(out)@ + join_with(upd_items(flags@.take(p as int), names, want), sep@),
        decreases flags.len() - p,
    {
        proof {
            assert(flags@.take(p + 1).drop_last() =~= flags@.take(p as int));
            assert(flags@.take(p + 1).last() == flags@[p as int]);
            assert(names[p as int] == all_columns@[p as int]@);
        }
        if flags[p] == want {
            proof {
                lemma_join_with_push(
                    upd_items(flags@.take(p as int), names, want),
                    upd_item(names[p as int], p as int),
                    sep@,
                );
            }
            if !first {
                out.append(sep);
            }
            first = false;
            out.append(all_columns[p].as_str());
            out.append(" = ?");
            push_dec(out, p + 1);
            assert(out@ =~= old(out)@ + join_with(
                upd_items(flags@.take(p + 1), names, want),
                sep@,
            ));
        }
        p = p + 1;
    }
    assert(flags@.take(flags@.len() as int) =~= flags@);
}

/// Update the non-key columns of a row of `name` `WHERE` the key columns
/// match.  `val_is_key_and_count` holds, per value in declaration order,
/// whether it belongs to the key and how many columns it projects onto;
/// `all_columns` are the projected columns in declaration order, which is
/// also the bind order the placeholder numbers refer to.
#[verifier::loop_isolation(false)]
pub fn update(
    name: &str,
    val_is_key_and_count: &Vec<(bool, usize)>,
    all_columns: &Vec<String>,
) -> (r: String)
    requires
        all_columns@.len() >= 1,
        expanded_flags(val_is_key_and_count@).len() == all_columns@.len(),
    ensures
        r@ == update_spec(name@, expanded_flags(val_is_key_and_count@), views_of(all_columns@)),
{
    let mut flags: Vec<bool> = Vec::new();
    let mut i: usize = 0;
    assert(val_is_key_and_count@.take(0) =~= Seq::<(bool, usize)>::empty());
    assert(flags@ =~= expanded_flags(val_is_key_and_count@.take(0)));
    while i < val_is_key_and_count.len()
        invariant
            i <= val_is_key_and_count.len(),
            flags@ == expanded_flags(val_is_key_and_count@.take(i as int)),
            flags@.len() <= expanded_flags(val_is_key_and_count@).len(),
        decreases val_is_key_and_count.len() - i,
    {
        let (is_key, count) = val_is_key_and_count[i];
        let mut j: usize = 0;
        while j < count
            invariant
                j <= count,
                flags@ == expanded_flags(val_is_key_and_count@.take(i as int)) + Seq::new(
                    j as nat,
                    |x: int| is_key,
                ),
            decreases count - j,
        {
            flags.push(is_key);
            assert(flags@ =~= expanded_flags(val_is_key_and_count@.take(i as int)) + Seq::new(
                (j + 1) as nat,
                |x: int| is_key,
            ));
            j = j + 1;
        }
        proof {
            assert(val_is_key_and_count@.take(i + 1).drop_last() =~= val_is_key_and_count@.take(
                i as int,
            ));
            assert(val_is_key_and_count@.take(i + 1).last() == val_is_key_and_count@[i as int]);
            assert(flags@ =~= expanded_flags(val_is_key_and_count@.take(i + 1)));
            lemma_expanded_flags_take_le(val_is_key_and_count@, i + 1);
        }
        i = i + 1;
    }
    assert(val_is_key_and_count@.take(val_is_key_and_count@.len() as int)
        =~= val_is_key_and_count@);
    let mut out = String::new();
    out.append("UPDATE \"");
    out.append(name);
    out.append("\" SET ");
    push_upd_list(&mut out, &flags, all_columns, false, ", ");
    out.append(" WHERE ");
    push_upd_list(&mut out, &flags, all_columns, true, " AND ");
    assert(out@ =~= update_spec(name@, expanded_flags(val_is_key_and_count@), views_of(
        all_columns@,
    )));
    out
}

/// A prefix of the per-value flags expands to no more per-column flags than
/// the whole.
pub proof fn lemma_expanded_flags_take_le(vkc: Seq<(bool, usize)>, i: int)
    requires
        0 <= i <= vkc.len(),
    ensures
        expanded_flags(vkc.take(i)).len() <= expanded_flags(vkc).len(),
    decreases vkc.len() - i,
{
    if i == vkc.len() {
        assert(vkc.take(i) =~= vkc);
    } else {
        assert(vkc.take(i + 1).drop_last() =~= vkc.take(i));
        assert(vkc.take(i + 1).last() == vkc[i]);
        lemma_expanded_flags_take_le(vkc, i + 1);
    }
}


/// The column definition text of each field, in declaration order.
pub open spec fn fields_items(vs: Seq<(String, ValueDef)>) -> Seq<Seq<char>> {
    vs.map_values(|p: (String, ValueDef)| field_text(p.0@, p.1))
}

/// The `PRIMARY KEY` clause: the projected columns of exactly the declared
/// key fields, in declaration order; empty without a declared key.
pub open spec fn key_clause(pk: Seq<Seq<char>>, vs: Seq<(String, ValueDef)>) -> Seq<char> {
    let kfs = key_fields(pk, vs);
    if kfs.len() == 0 {
        Seq::empty()
    } else {
        ",\n\tPRIMARY KEY ( "@ + join_with(names_values(Seq::empty(), kfs), ", "@) + " )"@
    }
}

/// The table-level constraint text contributed by the fields' own values.
pub open spec fn value_constraints(vs: Seq<(String, ValueDef)>) -> Seq<char>
    decreases vs,
{
    if vs.len() == 0 {
        Seq::empty()
    } else {
        value_constraints(vs.drop_last()) + constraint_text(seq![vs.last().0@], vs.last().1)
    }
}

/// The text of one table-level constraint.
pub open spec fn constraint_item(c: Constraint) -> Seq<char> {
    match c {
        Constraint::SqlCheck(sql) => "CHECK ("@ + sql@ + ")"@,
        Constraint::Unique(vs) => "UNIQUE ("@ + join_with(names_values(Seq::empty(), vs@), ", "@)
            + ")"@,
    }
}

/// The text of all table-level constraints, each preceded by a separator.
pub open spec fn constraints_text(cs: Seq<Constraint>) -> Seq<char>
    decreases cs,
{
    if cs.len() == 0 {
        Seq::empty()
    } else {
        constraints_text(cs.drop_last()) + ",\n\t"@ + constraint_item(cs.last())
    }
}

/// The whole `CREATE TABLE` statement of a table: the column definition
/// lines, the `PRIMARY KEY` clause, the `UNIQUE` and `FOREIGN KEY` clauses
/// of the values, the table-level constraints, all in a `STRICT` table.
pub open spec fn create_table_spec(t: TableDef) -> Seq<char> {
    "CREATE TABLE "@ + t.name@ + " (\n\t"@ + join_with(fields_items(t.values@), ",\n\t"@)
        + key_clause(views_of(t.primary_key@), t.values@) + value_constraints(t.values@)
        + constraints_text(t.constraints@) + "\n) STRICT;"@
}

/// A non-empty list of well-formed fields projects at least one column.
pub proof fn lemma_wf_fields_count_pos(vs: Seq<(String, ValueDef)>)
    requires
        wf_fields(vs),
        vs.len() > 0,
    ensures
        count_values(vs) >= 1,
{
    lemma_wf_fields_to_values(vs);
    crate::value::lemma_count_take_pos(vs, vs.len() as int);
    assert(vs.take(vs.len() as int) =~= vs);
}

/// Append the flat column names of all values, joined with `", "`.
#[verifier::loop_isolation(false)]
pub fn push_values_column_names(values: &Vec<(String, ValueDef)>, out: &mut String)
    requires
        wf_fields(values@),
    ensures
        final(out)@ == old(out)@ + join_with(names_values(Seq::empty(), values@), ", "@),
{
    let ghost path = Seq::<Seq<char>>::empty();
    let mut i: usize = 0;
    assert(values@.take(0) =~= Seq::<(String, ValueDef)>::empty());
    assert(out@ =~= old(out)@ + join_with(names_values(path, values@.take(0)), ", "@));
    while i < values.len()
        invariant
            i <= values.len(),
            out@ == old(out)@ + join_with(names_values(path, values@.take(i as int)), ", "@),
        decreases values.len() - i,
    {
        if i > 0 {
            out.append(", ");
        }
        let chain = crate::value::StrChain::start(values[i].0.as_str());
        values[i].1.inner.push_column_names(&chain, out);
        proof {
            let prefix = names_values(path, values@.take(i as int));
            assert(chain@ =~= path.push(values@[i as int].0@));
            let child = names_spec(path.push(values@[i as int].0@), values@[i as int].1.inner);
            crate::value::lemma_names_values_take_step(path, values@, i as int);
            crate::value::lemma_project_len(
                path.push(values@[i as int].0@),
                false,
                values@[i as int].1.inner,
            );
            crate::value::lemma_wf_count_at_least_one(values@[i as int].1.inner);
            if i == 0 {
                assert(prefix =~= Seq::<Seq<char>>::empty());
                assert(prefix + child =~= child);
            } else {
                crate::value::lemma_project_values_len(path, false, values@.take(i as int));
                lemma_wf_fields_to_values(values@);
                crate::value::lemma_wf_values_take(values@, i as int);
                crate::value::lemma_count_take_pos(values@, i as int);
                crate::text::lemma_join_with_concat(prefix, child, ", "@);
            }
            assert(out@ =~= old(out)@ + join_with(
                names_values(path, values@.take(i + 1)),
                ", "@,
            ));
        }
        i = i + 1;
    }
    assert(values@.take(values@.len() as int) =~= values@);
}

impl Constraint {
    /// Append this constraint's text: the verbatim `CHECK` fragment, or a
    /// `UNIQUE` clause over all the given values' projected columns.
    pub fn push_sql(&self, out: &mut String)
        requires
            wf_constraint(*self),
        ensures
            final(out)@ == old(out)@ + constraint_item(*self),
    {
        match self {
            Constraint::SqlCheck(sql) => {
                out.append("CHECK (");
                out.append(sql.as_str());
                out.append(")");
            },
            Constraint::Unique(vs) => {
                out.append("UNIQUE (");
                push_values_column_names(vs, out);
                out.append(")");
            },
        }
        assert(out@ =~= old(out)@ + constraint_item(*self));
    }
}

impl TableDef {
    /// Assemble this table's `CREATE TABLE` statement.
    #[verifier::loop_isolation(false)]
    #[verifier::rlimit(60)]
    pub fn define(&self) -> (r: String)
        requires
            self.wf(),
        ensures
            r@ == create_table_spec(*self),
    {
        let ghost pkv = views_of(self.primary_key@);
        let mut out = String::new();
        out.append("CREATE TABLE ");
        out.append(self.name.as_str());
        out.append(" (\n\t");

        // Column definition lines, one group per field.
        let ghost items = fields_items(self.values@);
        let ghost base1 = out@;
        let mut i: usize = 0;
        assert(out@ =~= base1 + join_with(items.take(0), ",\n\t"@));
        while i < self.values.len()
            invariant
                i <= self.values.len(),
                out@ == base1 + join_with(items.take(i as int), ",\n\t"@),
            decreases self.values.len() - i,
        {
            proof {
                lemma_join_with_push(items.take(i as int), items[i as int], ",\n\t"@);
                assert(items.take(i as int).push(items[i as int]) =~= items.take(i + 1));
                assert(items[i as int] == field_text(self.values@[i as int].0@, self.values@[i as int].1));
                assert(wf_value(self.values@[i as int].1));
            }
            if i > 0 {
                out.append(",\n\t");
            }
            self.values[i].1.push_sql(self.values[i].0.as_str(), &mut out);
            assert(out@ =~= base1 + join_with(items.take(i + 1), ",\n\t"@));
            i = i + 1;
        }
        assert(items.take(self.values@.len() as int) =~= items);

        // PRIMARY KEY clause over the declared key fields.
        let ghost base2 = out@;
        let mut any = false;
        let mut k: usize = 0;
        assert(key_fields(pkv, self.values@.take(0)) =~= Seq::<(String, ValueDef)>::empty());
        while k < self.values.len()
            invariant
                k <= self.values.len(),
                any <==> key_fields(pkv, self.values@.take(k as int)).len() > 0,
                out@ == base2 + (if !any {
                    Seq::<char>::empty()
                } else {
                    ",\n\tPRIMARY KEY ( "@ + join_with(
                        names_values(Seq::empty(), key_fields(pkv, self.values@.take(k as int))),
                        ", "@,
                    )
                }),
            decreases self.values.len() - k,
        {
            let ghost path = Seq::<Seq<char>>::empty();
            let ghost kfs = key_fields(pkv, self.values@.take(k as int));
            proof {
                lemma_key_fields_take_step(pkv, self.values@, k as int);
            }
            let is_key = contains_name(&self.primary_key, self.values[k].0.as_str());
            if is_key {
                if !any {
                    out.append(",\n\tPRIMARY KEY ( ");
                } else {
                    out.append(", ");
                }
                any = true;
                let chain = crate::value::StrChain::start(self.values[k].0.as_str());
                self.values[k].1.inner.push_column_names(&chain, &mut out);
                proof {
                    let f = self.values@[k as int];
                    assert(chain@ =~= path.push(f.0@));
                    let child = names_spec(path.push(f.0@), f.1.inner);
                    assert(names_values(path, seq![f]) == child) by {
                        assert(seq![f].drop_last() =~= Seq::<(String, ValueDef)>::empty());
                        assert(seq![f].last() == f);
                        assert(names_values(path, Seq::<(String, ValueDef)>::empty())
                            =~= Seq::<Seq<char>>::empty());
                        assert(Seq::<Seq<char>>::empty() + child =~= child);
                    }
                    lemma_names_values_concat(path, kfs, seq![f]);
                    assert(wf_value(f.1));
                    crate::value::lemma_project_len(path.push(f.0@), false, f.1.inner);
                    crate::value::lemma_wf_count_at_least_one(f.1.inner);
                    if kfs.len() > 0 {
                        assert(wf_fields(self.values@.take(k as int))) by {
                            assert(forall|j: int|
                                0 <= j < k ==> self.values@.take(k as int)[j]
                                    == #[trigger] self.values@[j]);
                        }
                        lemma_fields_partition(pkv, self.values@.take(k as int));
                        lemma_wf_fields_count_pos(kfs);
                        crate::value::lemma_project_values_len(path, false, kfs);
                        crate::text::lemma_join_with_concat(
                            names_values(path, kfs),
                            child,
                            ", "@,
                        );
                    } else {
                        assert(names_values(path, kfs) =~= Seq::<Seq<char>>::empty());
                        assert(names_values(path, kfs) + child =~= child);
                    }
                    assert(names_values(path, key_fields(pkv, self.values@.take(k + 1)))
                        =~= names_values(path, kfs) + child);
                    assert(out@ =~= base2 + (",\n\tPRIMARY KEY ( "@ + join_with(
                        names_values(path, key_fields(pkv, self.values@.take(k + 1))),
                        ", "@,
                    )));
                }
            } else {
                proof {
                    assert(key_fields(pkv, self.values@.take(k + 1)) =~= kfs);
                }
            }
            k = k + 1;
        }
        assert(self.values@.take(self.values@.len() as int) =~= self.values@);
        if any {
            out.append(" )");
        }
        assert(out@ =~= base2 + key_clause(pkv, self.values@));

        // UNIQUE and FOREIGN KEY clauses contributed by the values.
        let ghost base3 = out@;
        let mut v: usize = 0;
        assert(out@ =~= base3 + value_constraints(self.values@.take(0)));
        while v < self.values.len()
            invariant
                v <= self.values.len(),
                out@ == base3 + value_constraints(self.values@.take(v as int)),
            decreases self.values.len() - v,
        {
            proof {
                assert(wf_value(self.values@[v as int].1));
            }
            let chain = crate::value::StrChain::start(self.values[v].0.as_str());
            self.values[v].1.push_constraint_sql(&chain, &mut out);
            proof {
                assert(self.values@.take(v + 1).drop_last() =~= self.values@.take(v as int));
                assert(self.values@.take(v + 1).last() == self.values@[v as int]);
                assert(chain@ =~= seq![self.values@[v as int].0@]);
                assert(out@ =~= base3 + value_constraints(self.values@.take(v + 1)));
            }
            v = v + 1;
        }

        // Table-level constraints.
        let ghost base4 = out@;
        let mut c: usize = 0;
        assert(out@ =~= base4 + constraints_text(self.constraints@.take(0)));
        while c < self.constraints.len()
            invariant
                c <= self.constraints.len(),
                out@ == base4 + constraints_text(self.constraints@.take(c as int)),
            decreases self.constraints.len() - c,
        {
            out.append(",\n\t");
            proof {
                assert(wf_constraint(self.constraints@[c as int]));
            }
            self.constraints[c].push_sql(&mut out);
            proof {
                assert(self.constraints@.take(c + 1).drop_last() =~= self.constraints@.take(
                    c as int,
                ));
                assert(self.constraints@.take(c + 1).last() == self.constraints@[c as int]);
                assert(out@ =~= base4 + constraints_text(self.constraints@.take(c + 1)));
            }
            c = c + 1;
        }
        assert(self.constraints@.take(self.constraints@.len() as int) =~= self.constraints@);

        out.append("\n) STRICT;");
        assert(out@ =~= create_table_spec(*self));
        out
    }
}


/// The three cached column-name orderings of a table: all columns in
/// declaration order, the key columns, and the non-key columns.  The
/// concatenation key-then-other is in general not the declaration order.
#[derive(Debug)]
pub struct NameArrays {
    pub all_columns: Vec<String>,
    pub key_columns: Vec<String>,
    pub other_columns: Vec<String>,
}

impl NameArrays {
    /// Project every field and split the flat names by key membership.
    #[verifier::loop_isolation(false)]
    pub fn from_values(values: &Vec<(String, ValueDef)>, primary_key: &Vec<String>) -> (r:
        NameArrays)
        ensures
            views_of(r.all_columns@) == names_values(Seq::empty(), values@),
            views_of(r.key_columns@) == names_values(
                Seq::empty(),
                key_fields(views_of(primary_key@), values@),
            ),
            views_of(r.other_columns@) == names_values(
                Seq::empty(),
                other_fields(views_of(primary_key@), values@),
            ),
    {
        let ghost path = Seq::<Seq<char>>::empty();
        let ghost pkv = views_of(primary_key@);
        let mut all: Vec<String> = Vec::new();
        let mut key: Vec<String> = Vec::new();
        let mut other: Vec<String> = Vec::new();
        let mut i: usize = 0;
        assert(values@.take(0) =~= Seq::<(String, ValueDef)>::empty());
        assert(views_of(all@) =~= names_values(path, values@.take(0)));
        assert(key_fields(pkv, values@.take(0)) =~= Seq::<(String, ValueDef)>::empty());
        assert(views_of(key@) =~= names_values(path, key_fields(pkv, values@.take(0))));
        assert(views_of(other@) =~= names_values(path, other_fields(pkv, values@.take(0))));
        while i < values.len()
            invariant
                i <= values.len(),
                views_of(all@) == names_values(path, values@.take(i as int)),
                views_of(key@) == names_values(path, key_fields(pkv, values@.take(i as int))),
                views_of(other@) == names_values(path, other_fields(pkv, values@.take(i as int))),
            decreases values.len() - i,
        {
            let ghost f = values@[i as int];
            proof {
                crate::value::lemma_names_values_take_step(path, values@, i as int);
                lemma_key_fields_take_step(pkv, values@, i as int);
                assert(names_values(path, seq![f]) == names_spec(path.push(f.0@), f.1.inner)) by {
                    assert(seq![f].drop_last() =~= Seq::<(String, ValueDef)>::empty());
                    assert(seq![f].last() == f);
                    assert(names_values(path, Seq::<(String, ValueDef)>::empty())
                        =~= Seq::<Seq<char>>::empty());
                    assert(Seq::<Seq<char>>::empty() + names_spec(path.push(f.0@), f.1.inner)
                        =~= names_spec(path.push(f.0@), f.1.inner));
                }
                lemma_names_values_concat(path, key_fields(pkv, values@.take(i as int)), seq![f]);
                lemma_names_values_concat(path, other_fields(pkv, values@.take(i as int)), seq![f]);
                assert(names_values(path, key_fields(pkv, values@.take(i as int))
                    + Seq::<(String, ValueDef)>::empty()) =~= names_values(
                    path,
                    key_fields(pkv, values@.take(i as int)),
                )) by {
                    assert(key_fields(pkv, values@.take(i as int))
                        + Seq::<(String, ValueDef)>::empty() =~= key_fields(
                        pkv,
                        values@.take(i as int),
                    ));
                }
                assert(other_fields(pkv, values@.take(i as int))
                    + Seq::<(String, ValueDef)>::empty() =~= other_fields(
                    pkv,
                    values@.take(i as int),
                ));
            }
            let chain = crate::value::StrChain::start(values[i].0.as_str());
            assert(chain@ =~= path.push(f.0@));
            values[i].1.inner.collect_column_names(&chain, &mut all);
            if contains_name(primary_key, values[i].0.as_str()) {
                values[i].1.inner.collect_column_names(&chain, &mut key);
            } else {
                values[i].1.inner.collect_column_names(&chain, &mut other);
            }
            i = i + 1;
        }
        assert(values@.take(values@.len() as int) =~= values@);
        NameArrays { all_columns: all, key_columns: key, other_columns: other }
    }
}

/// The plain row scan of a table.
pub open spec fn get_all_spec(name: Seq<char>) -> Seq<char> {
    "SELECT * FROM "@ + name
}

/// One key flag per projected column, in declaration order: each field
/// contributes its column count of copies of its key membership.
pub open spec fn table_flags(pk: Seq<Seq<char>>, vs: Seq<(String, ValueDef)>) -> Seq<bool>
    decreases vs,
{
    if vs.len() == 0 {
        Seq::empty()
    } else {
        table_flags(pk, vs.drop_last()) + Seq::new(
            count_spec(vs.last().1.inner),
            |j: int| pk.contains(vs.last().0@),
        )
    }
}

/// There is one key flag per projected column.
pub proof fn lemma_table_flags_len(pk: Seq<Seq<char>>, vs: Seq<(String, ValueDef)>)
    ensures
        table_flags(pk, vs).len() == count_values(vs),
    decreases vs,
{
    if vs.len() > 0 {
        lemma_table_flags_len(pk, vs.drop_last());
    }
}

/// The statements of a table with a declared primary key.
#[derive(Debug)]
pub struct KeyStatements {
    /// `SELECT * … WHERE` each key column matches; one placeholder per key
    /// column, in key order.
    pub get_by_key: String,
    /// `INSERT … ON CONFLICT … DO UPDATE SET` each non-key column to the
    /// excluded row's value, or `DO NOTHING` for a key-only table.
    pub upsert: String,
    /// `UPDATE … SET` the non-key columns `WHERE` the key columns match;
    /// placeholders are numbered by position in the declaration order.
    pub update: String,
    /// `DELETE … WHERE` each key column matches.
    pub delete: String,
}

/// A compiled table: its definition together with its `CREATE TABLE` text,
/// its cached column-name orderings and its statement texts, all immutable
/// once built.
#[derive(Debug)]
pub struct Table {
    pub def: TableDef,
    pub create_table: String,
    pub names: NameArrays,
    /// `SELECT * FROM name`.
    pub get_all: String,
    /// `INSERT` of one full row, one placeholder per column in declaration
    /// order.
    pub insert: String,
    /// The key-bound statements; `None` for a table without a declared key.
    pub key: Option<KeyStatements>,
}

impl Table {
    /// The artifacts are exactly those derived from `def`.
    pub open spec fn compiled(&self) -> bool {
        let pk = views_of(self.def.primary_key@);
        let vs = self.def.values@;
        let keys = names_values(Seq::empty(), key_fields(pk, vs));
        let others = names_values(Seq::empty(), other_fields(pk, vs));
        &&& self.def.wf()
        &&& self.create_table@ == create_table_spec(self.def)
        &&& views_of(self.names.all_columns@) == names_values(Seq::empty(), vs)
        &&& views_of(self.names.key_columns@) == keys
        &&& views_of(self.names.other_columns@) == others
        &&& self.get_all@ == get_all_spec(self.def.name@)
        &&& self.insert@ == insert_spec(self.def.name@, count_values(vs))
        &&& (self.key is Some <==> keys.len() > 0)
        &&& match self.key {
            Option::Some(ks) => {
                &&& ks.get_by_key@ == get_by_key_spec(self.def.name@, keys)
                &&& ks.delete@ == delete_spec(self.def.name@, keys)
                &&& ks.upsert@ == upsert_spec(self.def.name@, keys, others)
                &&& ks.update@ == update_spec(
                    self.def.name@,
                    table_flags(pk, vs),
                    names_values(Seq::empty(), vs),
                )
            },
            Option::None => true,
        }
    }

    /// Compile a well-formed table definition: assemble its `CREATE TABLE`
    /// text, project its column names, and synthesize its statements.
    #[verifier::loop_isolation(false)]
    pub fn new(def: TableDef) -> (r: Table)
        requires
            def.wf(),
        ensures
            r.compiled(),
            r.def == def,
    {
        let ghost pkv = views_of(def.primary_key@);
        let ghost vs = def.values@;
        let create_table = def.define();
        let names = NameArrays::from_values(&def.values, &def.primary_key);
        let mut get_all = String::new();
        get_all.append("SELECT * FROM ");
        get_all.append(def.name.as_str());

        proof {
            crate::value::lemma_project_values_len(Seq::empty(), false, vs);
            lemma_wf_fields_count_pos(vs);
            lemma_fields_partition(pkv, vs);
            crate::value::lemma_project_values_len(Seq::empty(), false, key_fields(pkv, vs));
            crate::value::lemma_project_values_len(Seq::empty(), false, other_fields(pkv, vs));
        }
        let ins = insert(def.name.as_str(), names.all_columns.len());

        let key = if names.key_columns.len() > 0 {
            let gbk = get_by_key(def.name.as_str(), &names.key_columns);
            let del = delete(def.name.as_str(), &names.key_columns);
            let ups = upsert(def.name.as_str(), &names.key_columns, &names.other_columns);

            let mut vkc: Vec<(bool, usize)> = Vec::new();
            let mut i: usize = 0;
            assert(vs.take(0) =~= Seq::<(String, ValueDef)>::empty());
            assert(expanded_flags(vkc@) =~= table_flags(pkv, vs.take(0)));
            while i < def.values.len()
                invariant
                    i <= def.values.len(),
                    expanded_flags(vkc@) == table_flags(pkv, vs.take(i as int)),
                decreases def.values.len() - i,
            {
                proof {
                    assert(wf_value(vs[i as int].1));
                }
                let c = def.values[i].1.inner.count_columns();
                let b = contains_name(&def.primary_key, def.values[i].0.as_str());
                proof {
                    assert(vkc@.push((b, c)).drop_last() =~= vkc@);
                    assert(vs.take(i + 1).drop_last() =~= vs.take(i as int));
                    assert(vs.take(i + 1).last() == vs[i as int]);
                }
                vkc.push((b, c));
                assert(expanded_flags(vkc@) =~= table_flags(pkv, vs.take(i + 1)));
                i = i + 1;
            }
            assert(vs.take(vs.len() as int) =~= vs);
            proof {
                lemma_table_flags_len(pkv, vs);
            }
            let upd = update(def.name.as_str(), &vkc, &names.all_columns);
            Option::Some(KeyStatements { get_by_key: gbk, upsert: ups, update: upd, delete: del })
        } else {
            Option::None
        };
        Table { def, create_table, names, get_all, insert: ins, key }
    }
}

} // verus!
