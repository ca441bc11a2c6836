//! Value trees: composite datatypes that project onto one or more columns.

use vstd::prelude::*;
use vstd::string::StringExecFns;

use crate::column::{checks_views, column_line, ColumnDef};
use crate::text::{join_with, lemma_join_with_concat, lemma_views_of_push, views_of};

verus! {

/// An SQL fragment used as an inline value check; it is rendered with the
/// column name prepended.
#[derive(Clone, Debug, PartialEq, Eq)]
pub enum Check {
    Sql(String),
}

/// What the engine does to referencing rows when a referenced key row is
/// updated or deleted.
#[derive(Clone, Copy, Debug, PartialEq, Eq, Structural)]
pub enum FkConflictAction {
    Cascade,
    Restrict,
    SetNull,
}

/// The SQL keyword of a conflict action.
pub open spec fn action_str(a: FkConflictAction) -> Seq<char> {
    match a {
        FkConflictAction::Cascade => "CASCADE"@,
        FkConflictAction::Restrict => "RESTRICT"@,
        FkConflictAction::SetNull => "SET NULL"@,
    }
}

impl FkConflictAction {
    /// The SQL keyword of this conflict action.
    pub fn as_sql(self) -> (r: &'static str)
        ensures
            r@ == action_str(self),
    {
        match self {
            FkConflictAction::Cascade => "CASCADE",
            FkConflictAction::Restrict => "RESTRICT",
            FkConflictAction::SetNull => "SET NULL",
        }
    }
}

/// A reference to another table's primary key.  Only the target's name is
/// recorded here; that the named table belongs to the same schema is
/// established separately by schema validation.
#[derive(Clone, Debug, PartialEq, Eq)]
pub struct ForeignKey {
    pub table_name: String,
    pub deferrable: bool,
    pub on_delete: FkConflictAction,
    pub on_update: FkConflictAction,
}

/// The clause tail a foreign key contributes after its column list.
pub open spec fn fk_text(fk: ForeignKey) -> Seq<char> {
    " REFERENCES "@ + fk.table_name@ + "\n\t\tON UPDATE "@ + action_str(fk.on_update)
        + "\n\t\tON DELETE "@ + action_str(fk.on_delete) + (if fk.deferrable {
        "\n\t\tDEFERRABLE INITIALLY DEFERRED"@
    } else {
        Seq::<char>::empty()
    })
}

impl ForeignKey {
    /// The default reference to a table of the given name: restrict on
    /// update and delete, deferred until the end of the transaction.
    pub fn define_for(table_name: &str) -> (r: ForeignKey)
        ensures
            r.table_name@ == table_name@,
            r.deferrable,
            r.on_delete == FkConflictAction::Restrict,
            r.on_update == FkConflictAction::Restrict,
    {
        ForeignKey {
            table_name: table_name.to_owned(),
            deferrable: true,
            on_delete: FkConflictAction::Restrict,
            on_update: FkConflictAction::Restrict,
        }
    }

    /// Append this foreign key's clause tail.
    pub fn push_sql(&self, out: &mut String)
        ensures
            final(out)@ == old(out)@ + fk_text(*self),
    {
        out.append(" REFERENCES ");
        out.append(self.table_name.as_str());
        out.append("\n\t\tON UPDATE ");
        out.append(self.on_update.as_sql());
        out.append("\n\t\tON DELETE ");
        out.append(self.on_delete.as_sql());
        if self.deferrable {
            out.append("\n\t\tDEFERRABLE INITIALLY DEFERRED");
        }
        assert(out@ =~= old(out)@ + fk_text(*self));
    }
}

/// A (possibly compound) datatype usable as a table field.
#[derive(Debug)]
pub struct ValueDef {
    /// `UNIQUE` constraint across all constituent columns.
    pub unique: bool,
    /// Whether constituent columns may be `NULL`.  The flag applies to each
    /// projected column individually, not to the group as a whole, and
    /// propagates down to every leaf.
    pub nullable: bool,
    pub inner: NestedValueDef,
    pub reference: Option<ForeignKey>,
    /// Extra checks carried as metadata; not rendered.
    pub checks: Vec<Check>,
}

/// The shape of a value: a single column, a transparent wrapper around
/// another value, or an ordered list of named sub-values.
#[derive(Debug)]
pub enum NestedValueDef {
    Column(ColumnDef),
    Value(Box<ValueDef>),
    Values(Vec<(String, ValueDef)>),
}

/// Linked list of name segments from the table field down to a column; the
/// segments joined with `_` form the physical column name.
#[derive(Clone, Debug)]
pub struct StrChain {
    segments: Vec<String>,
}

impl View for StrChain {
    type V = Seq<Seq<char>>;

    closed spec fn view(&self) -> Seq<Seq<char>> {
        views_of(self.segments@)
    }
}

impl StrChain {
    /// A chain of one segment.
    pub fn start(name: &str) -> (r: StrChain)
        ensures
            r@ == seq![name@],
    {
        let mut segments: Vec<String> = Vec::new();
        segments.push(name.to_owned());
        assert(views_of(segments@) =~= seq![name@]);
        StrChain { segments }
    }

    /// This chain extended by one more segment.
    pub fn with(&self, name: &str) -> (r: StrChain)
        ensures
            r@ == self@.push(name@),
    {
        let mut segments: Vec<String> = Vec::new();
        let mut i: usize = 0;
        assert(views_of(segments@) =~= views_of(self.segments@).take(0));
        while i < self.segments.len()
            invariant
                i <= self.segments.len(),
                views_of(segments@) == views_of(self.segments@).take(i as int),
            decreases self.segments.len() - i,
        {
            let s = self.segments[i].clone();
            proof {
                lemma_views_of_push(segments@, s);
            }
            segments.push(s);
            assert(views_of(self.segments@).take(i as int).push(self.segments@[i as int]@)
                =~= views_of(self.segments@).take(i + 1));
            i = i + 1;
        }
        assert(views_of(segments@) =~= self@);
        let tail = name.to_owned();
        proof {
            lemma_views_of_push(segments@, tail);
        }
        segments.push(tail);
        StrChain { segments }
    }

    /// Append the segments joined with `separator`.
    pub fn join(&self, out: &mut String, separator: &str)
        ensures
            final(out)@ == old(out)@ + join_with(self@, separator@),
    {
        crate::text::push_join(out, &self.segments, separator);
    }
}

/// How many physical columns a value tree projects onto.
pub open spec fn count_spec(d: NestedValueDef) -> nat
    decreases d,
{
    match d {
        NestedValueDef::Column(_) => 1,
        NestedValueDef::Value(v) => count_spec(v.inner),
        NestedValueDef::Values(vs) => count_values(vs@),
    }
}

/// Total column count of a list of named sub-values.
pub open spec fn count_values(vs: Seq<(String, ValueDef)>) -> nat
    decreases vs,
{
    if vs.len() == 0 {
        0
    } else {
        count_values(vs.drop_last()) + count_spec(vs.last().1.inner)
    }
}

/// The ordered flat column names a value tree projects onto, under the given
/// path of name segments.
pub open spec fn names_spec(path: Seq<Seq<char>>, d: NestedValueDef) -> Seq<Seq<char>>
    decreases d,
{
    match d {
        NestedValueDef::Column(_) => seq![join_with(path, "_"@)],
        NestedValueDef::Value(v) => names_spec(path, v.inner),
        NestedValueDef::Values(vs) => names_values(path, vs@),
    }
}

/// The flat column names of a list of named sub-values, concatenated in
/// declaration order, each child's path extended by its name.
pub open spec fn names_values(path: Seq<Seq<char>>, vs: Seq<(String, ValueDef)>) -> Seq<Seq<char>>
    decreases vs,
{
    if vs.len() == 0 {
        Seq::empty()
    } else {
        names_values(path, vs.drop_last()) + names_spec(
            path.push(vs.last().0@),
            vs.last().1.inner,
        )
    }
}

/// One projected physical column: its derived flat name and the column
/// description with the effective, path-accumulated nullability.
pub ghost struct ProjectedColumn {
    pub name: Seq<char>,
    pub affinity: crate::column::Affinity,
    pub nullable: bool,
    pub checks: Seq<Seq<char>>,
}

/// The ordered flat list of physical columns a value tree projects onto.
/// `nullable` is the disjunction of the `nullable` flags accumulated from
/// the root down to this subtree.
pub open spec fn project_spec(path: Seq<Seq<char>>, nullable: bool, d: NestedValueDef) -> Seq<
    ProjectedColumn,
>
    decreases d,
{
    match d {
        NestedValueDef::Column(c) => seq![
            ProjectedColumn {
                name: join_with(path, "_"@),
                affinity: c.affinity,
                nullable: nullable || c.nullable,
                checks: checks_views(c.checks@),
            },
        ],
        NestedValueDef::Value(v) => project_spec(path, nullable || v.nullable, v.inner),
        NestedValueDef::Values(vs) => project_values(path, nullable, vs@),
    }
}

/// Projection of a list of named sub-values, concatenated in declaration
/// order.
pub open spec fn project_values(
    path: Seq<Seq<char>>,
    nullable: bool,
    vs: Seq<(String, ValueDef)>,
) -> Seq<ProjectedColumn>
    decreases vs,
{
    if vs.len() == 0 {
        Seq::empty()
    } else {
        project_values(path, nullable, vs.drop_last()) + project_spec(
            path.push(vs.last().0@),
            nullable || vs.last().1.nullable,
            vs.last().1.inner,
        )
    }
}

/// A well-formed value tree: no composite is empty.
pub open spec fn wf_tree(d: NestedValueDef) -> bool
    decreases d,
{
    match d {
        NestedValueDef::Column(_) => true,
        NestedValueDef::Value(v) => wf_tree(v.inner),
        NestedValueDef::Values(vs) => vs@.len() > 0 && wf_values(vs@),
    }
}

/// Well-formedness of every tree in a list of named sub-values.
pub open spec fn wf_values(vs: Seq<(String, ValueDef)>) -> bool
    decreases vs,
{
    vs.len() == 0 || (wf_values(vs.drop_last()) && wf_tree(vs.last().1.inner))
}

/// A well-formed value: its tree has no empty composite, and its column
/// count fits the machine.
pub open spec fn wf_value(v: ValueDef) -> bool {
    wf_tree(v.inner) && count_spec(v.inner) <= usize::MAX
}

/// A well-formed tree projects onto at least one column.
pub proof fn lemma_wf_count_at_least_one(d: NestedValueDef)
    requires
        wf_tree(d),
    ensures
        count_spec(d) >= 1,
    decreases d,
{
    match d {
        NestedValueDef::Column(c) => {
            assert(count_spec(NestedValueDef::Column(c)) == 1);
        },
        NestedValueDef::Value(v) => {
            lemma_wf_count_at_least_one(v.inner);
        },
        NestedValueDef::Values(vs) => {
            assert(wf_values(vs@) && vs@.len() > 0);
            assert(wf_tree(vs@.last().1.inner));
            lemma_wf_count_at_least_one(vs@.last().1.inner);
            assert(count_spec(d) == count_values(vs@));
            assert(count_values(vs@) == count_values(vs@.drop_last()) + count_spec(vs@.last().1.inner));
        },
    }
}

/// Column counts of prefixes: one more element adds that element's count.
pub proof fn lemma_count_values_take_step(vs: Seq<(String, ValueDef)>, i: int)
    requires
        0 <= i < vs.len(),
    ensures
        count_values(vs.take(i + 1)) == count_values(vs.take(i)) + count_spec(vs[i].1.inner),
{
    assert(vs.take(i + 1).drop_last() =~= vs.take(i));
    assert(vs.take(i + 1).last() == vs[i]);
}

/// A prefix never counts more columns than the whole list.
pub proof fn lemma_count_values_take_le(vs: Seq<(String, ValueDef)>, i: int)
    requires
        0 <= i <= vs.len(),
    ensures
        count_values(vs.take(i)) <= count_values(vs),
    decreases vs.len() - i,
{
    if i == vs.len() {
        assert(vs.take(i) =~= vs);
    } else {
        lemma_count_values_take_step(vs, i);
        lemma_count_values_take_le(vs, i + 1);
    }
}

/// Name-list prefixes grow the same way.
pub proof fn lemma_names_values_take_step(path: Seq<Seq<char>>, vs: Seq<(String, ValueDef)>, i: int)
    requires
        0 <= i < vs.len(),
    ensures
        names_values(path, vs.take(i + 1)) == names_values(path, vs.take(i)) + names_spec(
            path.push(vs[i].0@),
            vs[i].1.inner,
        ),
{
    assert(vs.take(i + 1).drop_last() =~= vs.take(i));
    assert(vs.take(i + 1).last() == vs[i]);
}

/// Projection prefixes grow the same way.
pub proof fn lemma_project_values_take_step(
    path: Seq<Seq<char>>,
    nullable: bool,
    vs: Seq<(String, ValueDef)>,
    i: int,
)
    requires
        0 <= i < vs.len(),
    ensures
        project_values(path, nullable, vs.take(i + 1)) == project_values(path, nullable, vs.take(i))
            + project_spec(path.push(vs[i].0@), nullable || vs[i].1.nullable, vs[i].1.inner),
{
    assert(vs.take(i + 1).drop_last() =~= vs.take(i));
    assert(vs.take(i + 1).last() == vs[i]);
}

/// Well-formedness of a prefix follows from well-formedness of the list.
pub proof fn lemma_wf_values_take(vs: Seq<(String, ValueDef)>, i: int)
    requires
        wf_values(vs),
        0 <= i <= vs.len(),
    ensures
        wf_values(vs.take(i)),
        forall|j: int| 0 <= j < vs.len() ==> wf_tree(#[trigger] vs[j].1.inner),
    decreases vs.len(),
{
    if vs.len() > 0 {
        lemma_wf_values_take(vs.drop_last(), if i < vs.len() { i } else { i - 1 });
        if i < vs.len() {
            assert(vs.drop_last().take(i) =~= vs.take(i));
        } else {
            assert(vs.take(i) =~= vs);
        }
        assert(forall|j: int|
            0 <= j < vs.len() - 1 ==> vs.drop_last()[j] == #[trigger] vs[j]);
    } else {
        assert(vs.take(i) =~= vs);
    }
}

/// The projection has exactly `count_spec` columns.
pub proof fn lemma_project_len(path: Seq<Seq<char>>, nullable: bool, d: NestedValueDef)
    ensures
        project_spec(path, nullable, d).len() == count_spec(d),
        names_spec(path, d).len() == count_spec(d),
    decreases d,
{
    match d {
        NestedValueDef::Column(_) => {},
        NestedValueDef::Value(v) => {
            lemma_project_len(path, nullable || v.nullable, v.inner);
            lemma_project_len(path, nullable, v.inner);
        },
        NestedValueDef::Values(vs) => {
            lemma_project_values_len(path, nullable, vs@);
        },
    }
}

/// The list projection has exactly `count_values` columns.
pub proof fn lemma_project_values_len(
    path: Seq<Seq<char>>,
    nullable: bool,
    vs: Seq<(String, ValueDef)>,
)
    ensures
        project_values(path, nullable, vs).len() == count_values(vs),
        names_values(path, vs).len() == count_values(vs),
    decreases vs,
{
    if vs.len() > 0 {
        lemma_project_values_len(path, nullable, vs.drop_last());
        lemma_project_len(path.push(vs.last().0@), nullable || vs.last().1.nullable, vs.last().1.inner);
    }
}

impl NestedValueDef {
    /// How many physical columns this value tree projects onto.
    #[verifier::loop_isolation(false)]
    pub fn count_columns(&self) -> (r: usize)
        requires
            count_spec(*self) <= usize::MAX,
        ensures
            r as nat == count_spec(*self),
        decreases *self,
    {
        match self {
            NestedValueDef::Column(_) => 1,
            NestedValueDef::Value(v) => v.inner.count_columns(),
            NestedValueDef::Values(vs) => {
                let mut total: usize = 0;
                let mut i: usize = 0;
                assert(vs@.take(0) =~= Seq::<(String, ValueDef)>::empty());
                while i < vs.len()
                    invariant
                        i <= vs.len(),
                        count_values(vs@) <= usize::MAX,
                        total as nat == count_values(vs@.take(i as int)),
                    decreases vs.len() - i,
                {
                    proof {
                        lemma_count_values_take_step(vs@, i as int);
                        lemma_count_values_take_le(vs@, i + 1);
                        assert(decreases_to!(*self => self->Values_0));
                        assert(*vs == self->Values_0);
                        assert(decreases_to!(*vs => vs@));
                        assert(decreases_to!(vs@ => vs@[i as int]));
                        assert(decreases_to!(vs@[i as int] => vs@[i as int].1.inner));
                        assert(decreases_to!(*self => vs@[i as int].1.inner));
                    }
                    let c = vs[i].1.inner.count_columns();
                    total = total + c;
                    i = i + 1;
                }
                proof {
                    assert(vs@.take(vs@.len() as int) =~= vs@);
                }
                total
            },
        }
    }

    /// Append the flat column names of this tree, joined with `", "`.
    #[verifier::loop_isolation(false)]
    pub fn push_column_names(&self, chain: &StrChain, out: &mut String)
        requires
            wf_tree(*self),
        ensures
            final(out)@ == old(out)@ + join_with(names_spec(chain@, *self), ", "@),
        decreases *self,
    {
        match self {
            NestedValueDef::Column(_) => {
                chain.join(out, "_");
                assert(out@ =~= old(out)@ + join_with(names_spec(chain@, *self), ", "@));
            },
            NestedValueDef::Value(v) => {
                v.inner.push_column_names(chain, out);
            },
            NestedValueDef::Values(vs) => {
                let mut i: usize = 0;
                assert(vs@.take(0) =~= Seq::<(String, ValueDef)>::empty());
                assert(out@ =~= old(out)@ + join_with(
                    names_values(chain@, vs@.take(0)),
                    ", "@,
                ));
                while i < vs.len()
                    invariant
                        i <= vs.len(),
                        wf_values(vs@),
                        out@ == old(out)@ + join_with(names_values(chain@, vs@.take(i as int)), ", "@),
                    decreases vs.len() - i,
                {
                    proof {
                        lemma_wf_values_take(vs@, i as int);
                    }
                    if i > 0 {
                        out.append(", ");
                    }
                    let sub_chain = chain.with(vs[i].0.as_str());
                    proof {
                        assert(decreases_to!(*self => self->Values_0));
                        assert(*vs == self->Values_0);
                        assert(decreases_to!(*vs => vs@));
                        assert(decreases_to!(vs@ => vs@[i as int]));
                        assert(decreases_to!(vs@[i as int] => vs@[i as int].1.inner));
                        assert(decreases_to!(*self => vs@[i as int].1.inner));
                    }
                    vs[i].1.inner.push_column_names(&sub_chain, out);
                    proof {
                        let path = chain@;
                        let prefix = names_values(path, vs@.take(i as int));
                        let child = names_spec(path.push(vs@[i as int].0@), vs@[i as int].1.inner);
                        lemma_names_values_take_step(path, vs@, i as int);
                        lemma_project_len(path.push(vs@[i as int].0@), false, vs@[i as int].1.inner);
                        lemma_wf_count_at_least_one(vs@[i as int].1.inner);
                        if i == 0 {
                            assert(prefix =~= Seq::<Seq<char>>::empty());
                            assert(prefix + child =~= child);
                        } else {
                            lemma_project_values_len(path, false, vs@.take(i as int));
                            lemma_count_take_pos(vs@, i as int);
                            lemma_join_with_concat(prefix, child, ", "@);
                        }
                        assert(out@ =~= old(out)@ + join_with(
                            names_values(path, vs@.take(i + 1)),
                            ", "@,
                        ));
                    }
                    i = i + 1;
                }
                proof {
                    assert(vs@.take(vs@.len() as int) =~= vs@);
                }
            },
        }
    }
}

/// A non-empty well-formed prefix projects at least one column.
pub proof fn lemma_count_take_pos(vs: Seq<(String, ValueDef)>, i: int)
    requires
        wf_values(vs),
        0 < i <= vs.len(),
    ensures
        count_values(vs.take(i)) >= 1,
{
    lemma_wf_values_take(vs, i);
    lemma_count_values_take_step(vs, i - 1);
    assert(vs.take(i - 1 + 1) == vs.take(i));
    lemma_wf_count_at_least_one(vs[i - 1].1.inner);
}


/// The `CREATE TABLE` line of one projected column.
pub open spec fn line_of(c: ProjectedColumn) -> Seq<char> {
    column_line(c.name, c.affinity, c.nullable, c.checks)
}

/// The `CREATE TABLE` lines of the columns a value tree projects onto.
pub open spec fn lines_spec(path: Seq<Seq<char>>, nullable: bool, d: NestedValueDef) -> Seq<
    Seq<char>,
> {
    project_spec(path, nullable, d).map_values(|c: ProjectedColumn| line_of(c))
}

/// The `CREATE TABLE` lines of the columns of a list of named sub-values.
pub open spec fn lines_values(
    path: Seq<Seq<char>>,
    nullable: bool,
    vs: Seq<(String, ValueDef)>,
) -> Seq<Seq<char>> {
    project_values(path, nullable, vs).map_values(|c: ProjectedColumn| line_of(c))
}

/// Line-list prefixes grow child by child.
pub proof fn lemma_lines_values_take_step(
    path: Seq<Seq<char>>,
    nullable: bool,
    vs: Seq<(String, ValueDef)>,
    i: int,
)
    requires
        0 <= i < vs.len(),
    ensures
        lines_values(path, nullable, vs.take(i + 1)) == lines_values(path, nullable, vs.take(i))
            + lines_spec(path.push(vs[i].0@), nullable || vs[i].1.nullable, vs[i].1.inner),
{
    lemma_project_values_take_step(path, nullable, vs, i);
    assert(lines_values(path, nullable, vs.take(i + 1)) =~= lines_values(path, nullable, vs.take(i))
        + lines_spec(path.push(vs[i].0@), nullable || vs[i].1.nullable, vs[i].1.inner));
}

impl NestedValueDef {
    /// Append the column definition lines of this tree, joined with `",\n\t"`.
    #[verifier::loop_isolation(false)]
    pub fn push_sql(&self, nullable: bool, chain: &StrChain, out: &mut String)
        requires
            wf_tree(*self),
        ensures
            final(out)@ == old(out)@ + join_with(lines_spec(chain@, nullable, *self), ",\n\t"@),
        decreases *self,
    {
        match self {
            NestedValueDef::Column(c) => {
                c.push_sql(nullable, chain, out);
                assert(lines_spec(chain@, nullable, *self) =~= seq![
                    column_line(
                        join_with(chain@, "_"@),
                        c.affinity,
                        nullable || c.nullable,
                        checks_views(c.checks@),
                    ),
                ]);
                assert(out@ =~= old(out)@ + join_with(
                    lines_spec(chain@, nullable, *self),
                    ",\n\t"@,
                ));
            },
            NestedValueDef::Value(v) => {
                v.inner.push_sql(nullable || v.nullable, chain, out);
            },
            NestedValueDef::Values(vs) => {
                let mut i: usize = 0;
                assert(vs@.take(0) =~= Seq::<(String, ValueDef)>::empty());
                assert(out@ =~= old(out)@ + join_with(
                    lines_values(chain@, nullable, vs@.take(0)),
                    ",\n\t"@,
                ));
                while i < vs.len()
                    invariant
                        i <= vs.len(),
                        out@ == old(out)@ + join_with(
                            lines_values(chain@, nullable, vs@.take(i as int)),
                            ",\n\t"@,
                        ),
                    decreases vs.len() - i,
                {
                    proof {
                        lemma_wf_values_take(vs@, i as int);
                        assert(decreases_to!(*self => self->Values_0));
                        assert(*vs == self->Values_0);
                        assert(decreases_to!(*vs => vs@));
                        assert(decreases_to!(vs@ => vs@[i as int]));
                        assert(decreases_to!(vs@[i as int] => vs@[i as int].1.inner));
                        assert(decreases_to!(*self => vs@[i as int].1.inner));
                    }
                    if i > 0 {
                        out.append(",\n\t");
                    }
                    let sub_chain = chain.with(vs[i].0.as_str());
                    vs[i].1.inner.push_sql(nullable || vs[i].1.nullable, &sub_chain, out);
                    proof {
                        let path = chain@;
                        let prefix = lines_values(path, nullable, vs@.take(i as int));
                        let child = lines_spec(
                            path.push(vs@[i as int].0@),
                            nullable || vs@[i as int].1.nullable,
                            vs@[i as int].1.inner,
                        );
                        lemma_lines_values_take_step(path, nullable, vs@, i as int);
                        lemma_project_len(
                            path.push(vs@[i as int].0@),
                            nullable || vs@[i as int].1.nullable,
                            vs@[i as int].1.inner,
                        );
                        lemma_wf_count_at_least_one(vs@[i as int].1.inner);
                        if i == 0 {
                            assert(prefix =~= Seq::<Seq<char>>::empty());
                            assert(prefix + child =~= child);
                        } else {
                            lemma_project_values_len(path, nullable, vs@.take(i as int));
                            lemma_count_take_pos(vs@, i as int);
                            lemma_join_with_concat(prefix, child, ",\n\t"@);
                        }
                        assert(out@ =~= old(out)@ + join_with(
                            lines_values(path, nullable, vs@.take(i + 1)),
                            ",\n\t"@,
                        ));
                    }
                    i = i + 1;
                }
                proof {
                    assert(vs@.take(vs@.len() as int) =~= vs@);
                }
            },
        }
    }

    /// Collect the flat column names of this tree, in projection order.
    #[verifier::loop_isolation(false)]
    pub fn collect_column_names(&self, chain: &StrChain, out: &mut Vec<String>)
        ensures
            views_of(final(out)@) == views_of(old(out)@) + names_spec(chain@, *self),
        decreases *self,
    {
        match self {
            NestedValueDef::Column(_) => {
                let mut name = String::new();
                chain.join(&mut name, "_");
                proof {
                    lemma_views_of_push(out@, name);
                }
                out.push(name);
                assert(views_of(out@) =~= views_of(old(out)@) + names_spec(chain@, *self));
            },
            NestedValueDef::Value(v) => {
                v.inner.collect_column_names(chain, out);
            },
            NestedValueDef::Values(vs) => {
                let mut i: usize = 0;
                assert(vs@.take(0) =~= Seq::<(String, ValueDef)>::empty());
                assert(views_of(out@) =~= views_of(old(out)@) + names_values(chain@, vs@.take(0)));
                while i < vs.len()
                    invariant
                        i <= vs.len(),
                        views_of(out@) == views_of(old(out)@) + names_values(
                            chain@,
                            vs@.take(i as int),
                        ),
                    decreases vs.len() - i,
                {
                    proof {
                        assert(decreases_to!(*self => self->Values_0));
                        assert(*vs == self->Values_0);
                        assert(decreases_to!(*vs => vs@));
                        assert(decreases_to!(vs@ => vs@[i as int]));
                        assert(decreases_to!(vs@[i as int] => vs@[i as int].1.inner));
                        assert(decreases_to!(*self => vs@[i as int].1.inner));
                    }
                    let sub_chain = chain.with(vs[i].0.as_str());
                    vs[i].1.inner.collect_column_names(&sub_chain, out);
                    proof {
                        lemma_names_values_take_step(chain@, vs@, i as int);
                        assert(views_of(out@) =~= views_of(old(out)@) + names_values(
                            chain@,
                            vs@.take(i + 1),
                        ));
                    }
                    i = i + 1;
                }
                proof {
                    assert(vs@.take(vs@.len() as int) =~= vs@);
                }
            },
        }
    }
}

/// The column definition text a top-level table field contributes: its
/// projected column lines, and an inline `UNIQUE` modifier when the field is
/// unique and projects onto exactly one column.
pub open spec fn field_text(name: Seq<char>, v: ValueDef) -> Seq<char> {
    join_with(lines_spec(seq![name], v.nullable, v.inner), ",\n\t"@) + (if v.unique && count_spec(
        v.inner,
    ) == 1 {
        " UNIQUE"@
    } else {
        Seq::<char>::empty()
    })
}

/// The table-level constraint text a value contributes: a `UNIQUE` clause
/// when it is unique over more than one column, a `FOREIGN KEY` clause when
/// it references another table, and the same recursively for its sub-values.
pub open spec fn constraint_text(path: Seq<Seq<char>>, v: ValueDef) -> Seq<char>
    decreases v,
{
    (if v.unique && count_spec(v.inner) != 1 {
        ",\n\tUNIQUE ("@ + join_with(names_spec(path, v.inner), ", "@) + ")"@
    } else {
        Seq::<char>::empty()
    }) + (match v.reference {
        Option::Some(fk) => ",\n\tFOREIGN KEY ("@ + join_with(names_spec(path, v.inner), ", "@)
            + ")"@ + fk_text(fk),
        Option::None => Seq::<char>::empty(),
    }) + (match v.inner {
        NestedValueDef::Column(_) => Seq::<char>::empty(),
        NestedValueDef::Value(b) => constraint_text(path, *b),
        NestedValueDef::Values(vs) => constraint_values(path, vs@),
    })
}

/// The table-level constraint text of a list of named sub-values.
pub open spec fn constraint_values(path: Seq<Seq<char>>, vs: Seq<(String, ValueDef)>) -> Seq<char>
    decreases vs,
{
    if vs.len() == 0 {
        Seq::empty()
    } else {
        constraint_values(path, vs.drop_last()) + constraint_text(
            path.push(vs.last().0@),
            vs.last().1,
        )
    }
}

/// Constraint-text prefixes grow child by child.
pub proof fn lemma_constraint_values_take_step(
    path: Seq<Seq<char>>,
    vs: Seq<(String, ValueDef)>,
    i: int,
)
    requires
        0 <= i < vs.len(),
    ensures
        constraint_values(path, vs.take(i + 1)) == constraint_values(path, vs.take(i))
            + constraint_text(path.push(vs[i].0@), vs[i].1),
{
    assert(vs.take(i + 1).drop_last() =~= vs.take(i));
    assert(vs.take(i + 1).last() == vs[i]);
}

/// A child projects onto no more columns than its whole list.
pub proof fn lemma_count_values_elem_le(vs: Seq<(String, ValueDef)>, i: int)
    requires
        0 <= i < vs.len(),
    ensures
        count_spec(vs[i].1.inner) <= count_values(vs),
{
    lemma_count_values_take_step(vs, i);
    lemma_count_values_take_le(vs, i + 1);
}

impl ValueDef {
    /// This value with its `unique` flag set.
    pub fn unique(self) -> (r: ValueDef)
        ensures
            r.unique,
            r.nullable == self.nullable,
            r.inner == self.inner,
            r.reference == self.reference,
            r.checks == self.checks,
    {
        ValueDef { unique: true, ..self }
    }

    /// Append the column definition lines of this top-level field.
    pub fn push_sql(&self, name: &str, out: &mut String)
        requires
            wf_value(*self),
        ensures
            final(out)@ == old(out)@ + field_text(name@, *self),
    {
        let chain = StrChain::start(name);
        self.inner.push_sql(self.nullable, &chain, out);
        if self.unique && self.inner.count_columns() == 1 {
            out.append(" UNIQUE");
        }
        assert(out@ =~= old(out)@ + field_text(name@, *self));
    }

    /// Append the table-level constraints this field and its sub-values
    /// contribute.
    #[verifier::loop_isolation(false)]
    #[verifier::rlimit(80)]
    pub fn push_constraint_sql(&self, chain: &StrChain, out: &mut String)
        requires
            wf_tree(self.inner),
            count_spec(self.inner) <= usize::MAX,
        ensures
            final(out)@ == old(out)@ + constraint_text(chain@, *self),
        decreases *self,
    {
        if self.unique && self.inner.count_columns() != 1 {
            out.append(",\n\tUNIQUE (");
            self.inner.push_column_names(chain, out);
            out.append(")");
        }
        assert(out@ =~= old(out)@ + (if self.unique && count_spec(self.inner) != 1 {
            ",\n\tUNIQUE ("@ + join_with(names_spec(chain@, self.inner), ", "@) + ")"@
        } else {
            Seq::<char>::empty()
        }));
        let ghost after_unique = out@;
        if let Option::Some(fk) = &self.reference {
            out.append(",\n\tFOREIGN KEY (");
            self.inner.push_column_names(chain, out);
            out.append(")");
            fk.push_sql(out);
        }
        assert(out@ =~= after_unique + (match self.reference {
            Option::Some(fk) => ",\n\tFOREIGN KEY ("@ + join_with(
                names_spec(chain@, self.inner),
                ", "@,
            ) + ")"@ + fk_text(fk),
            Option::None => Seq::<char>::empty(),
        }));
        let ghost base = out@;
        match &self.inner {
            NestedValueDef::Column(_) => {},
            NestedValueDef::Value(b) => {
                b.push_constraint_sql(chain, out);
            },
            NestedValueDef::Values(vs) => {
                let mut i: usize = 0;
                assert(vs@.take(0) =~= Seq::<(String, ValueDef)>::empty());
                assert(out@ =~= base + constraint_values(chain@, vs@.take(0)));
                while i < vs.len()
                    invariant
                        i <= vs.len(),
                        out@ == base + constraint_values(chain@, vs@.take(i as int)),
                    decreases vs.len() - i,
                {
                    proof {
                        lemma_wf_values_take(vs@, i as int);
                        lemma_count_values_elem_le(vs@, i as int);
                        assert(decreases_to!(*self => self.inner));
                        assert(decreases_to!(self.inner => self.inner->Values_0));
                        assert(*vs == self.inner->Values_0);
                        assert(decreases_to!(*vs => vs@));
                        assert(decreases_to!(vs@ => vs@[i as int]));
                        assert(decreases_to!(vs@[i as int] => vs@[i as int].1));
                        assert(decreases_to!(*self => vs@[i as int].1));
                    }
                    let sub_chain = chain.with(vs[i].0.as_str());
                    vs[i].1.push_constraint_sql(&sub_chain, out);
                    proof {
                        lemma_constraint_values_take_step(chain@, vs@, i as int);
                        assert(out@ =~= base + constraint_values(chain@, vs@.take(i + 1)));
                    }
                    i = i + 1;
                }
                proof {
                    assert(vs@.take(vs@.len() as int) =~= vs@);
                }
            },
        }
        assert(out@ =~= old(out)@ + constraint_text(chain@, *self));
    }
}

/// Whether every foreign key reachable in this value points at one of the
/// given table names.
pub open spec fn fks_closed(v: ValueDef, names: Seq<Seq<char>>) -> bool
    decreases v,
{
    (match v.reference {
        Option::Some(fk) => names.contains(fk.table_name@),
        Option::None => true,
    }) && (match v.inner {
        NestedValueDef::Column(_) => true,
        NestedValueDef::Value(b) => fks_closed(*b, names),
        NestedValueDef::Values(vs) => fks_closed_values(vs@, names),
    })
}

/// [`fks_closed`] over a list of named sub-values.
pub open spec fn fks_closed_values(vs: Seq<(String, ValueDef)>, names: Seq<Seq<char>>) -> bool
    decreases vs,
{
    vs.len() == 0 || (fks_closed_values(vs.drop_last(), names) && fks_closed(vs.last().1, names))
}

/// Whether some foreign key reachable in this value targets `target`.
pub open spec fn mentions_fk(v: ValueDef, target: Seq<char>) -> bool
    decreases v,
{
    (match v.reference {
        Option::Some(fk) => fk.table_name@ == target,
        Option::None => false,
    }) || (match v.inner {
        NestedValueDef::Column(_) => false,
        NestedValueDef::Value(b) => mentions_fk(*b, target),
        NestedValueDef::Values(vs) => mentions_fk_values(vs@, target),
    })
}

/// [`mentions_fk`] over a list of named sub-values.
pub open spec fn mentions_fk_values(vs: Seq<(String, ValueDef)>, target: Seq<char>) -> bool
    decreases vs,
{
    vs.len() > 0 && (mentions_fk_values(vs.drop_last(), target) || mentions_fk(
        vs.last().1,
        target,
    ))
}

/// A child that mentions a target makes its whole list mention it.
pub proof fn lemma_mentions_fk_values_elem(vs: Seq<(String, ValueDef)>, i: int, target: Seq<char>)
    requires
        0 <= i < vs.len(),
        mentions_fk(vs[i].1, target),
    ensures
        mentions_fk_values(vs, target),
    decreases vs.len(),
{
    if i < vs.len() - 1 {
        assert(vs.drop_last()[i] == vs[i]);
        lemma_mentions_fk_values_elem(vs.drop_last(), i, target);
    }
}

/// A value that mentions a target outside the name set is not closed over
/// that set.
pub proof fn lemma_mentions_not_closed(v: ValueDef, target: Seq<char>, names: Seq<Seq<char>>)
    requires
        mentions_fk(v, target),
        !names.contains(target),
    ensures
        !fks_closed(v, names),
    decreases v,
{
    let own = match v.reference {
        Option::Some(fk) => fk.table_name@ == target,
        Option::None => false,
    };
    if !own {
        match v.inner {
            NestedValueDef::Column(_) => {},
            NestedValueDef::Value(b) => {
                lemma_mentions_not_closed(*b, target, names);
            },
            NestedValueDef::Values(vs) => {
                lemma_mentions_not_closed_values(vs@, target, names);
            },
        }
    }
}

/// List version of [`lemma_mentions_not_closed`].
pub proof fn lemma_mentions_not_closed_values(
    vs: Seq<(String, ValueDef)>,
    target: Seq<char>,
    names: Seq<Seq<char>>,
)
    requires
        mentions_fk_values(vs, target),
        !names.contains(target),
    ensures
        !fks_closed_values(vs, names),
    decreases vs,
{
    if mentions_fk_values(vs.drop_last(), target) {
        lemma_mentions_not_closed_values(vs.drop_last(), target, names);
    } else {
        lemma_mentions_not_closed(vs.last().1, target, names);
    }
}

impl ValueDef {
    /// The target of some foreign key reachable in this value that names
    /// none of the given tables, or `None` if every reachable foreign key is
    /// satisfied by them.
    #[verifier::loop_isolation(false)]
    pub fn find_unresolved_fk(&self, names: &Vec<String>) -> (r: Option<String>)
        ensures
            r is None <==> fks_closed(*self, views_of(names@)),
            r matches Some(t) ==> !views_of(names@).contains(t@) && mentions_fk(*self, t@),
        decreases *self,
    {
        if let Option::Some(fk) = &self.reference {
            if !crate::text::contains_name(names, fk.table_name.as_str()) {
                return Option::Some(fk.table_name.clone());
            }
        }
        match &self.inner {
            NestedValueDef::Column(_) => Option::None,
            NestedValueDef::Value(b) => b.find_unresolved_fk(names),
            NestedValueDef::Values(vs) => {
                let mut i: usize = 0;
                assert(vs@.take(0) =~= Seq::<(String, ValueDef)>::empty());
                while i < vs.len()
                    invariant
                        i <= vs.len(),
                        fks_closed_values(vs@.take(i as int), views_of(names@)),
                    decreases vs.len() - i,
                {
                    proof {
                        assert(decreases_to!(*self => self.inner));
                        assert(decreases_to!(self.inner => self.inner->Values_0));
                        assert(*vs == self.inner->Values_0);
                        assert(decreases_to!(*vs => vs@));
                        assert(decreases_to!(vs@ => vs@[i as int]));
                        assert(decreases_to!(vs@[i as int] => vs@[i as int].1));
                        assert(decreases_to!(*self => vs@[i as int].1));
                    }
                    let r = vs[i].1.find_unresolved_fk(names);
                    proof {
                        assert(vs@.take(i + 1).drop_last() =~= vs@.take(i as int));
                        assert(vs@.take(i + 1).last() == vs@[i as int]);
                    }
                    if let Option::Some(t) = r {
                        proof {
                            lemma_mentions_fk_values_elem(vs@, i as int, t@);
                            lemma_mentions_not_closed(*self, t@, views_of(names@));
                        }
                        return Option::Some(t);
                    }
                    i = i + 1;
                }
                proof {
                    assert(vs@.take(vs@.len() as int) =~= vs@);
                }
                Option::None
            },
        }
    }
}


/// A datatype usable as a table field: it describes itself as a value
/// tree.
pub trait Value {
    /// The value description of this type.  It is well formed: its tree
    /// holds no empty composite and its column count fits the machine.
    fn value_def() -> (v: ValueDef)
        ensures
            wf_value(v),
    ;
}

impl<T: crate::column::Column> Value for T {
    /// A column type is the one-column value without constraints.
    fn value_def() -> (v: ValueDef)
        ensures
            wf_value(v),
            v.inner matches NestedValueDef::Column(c) && c.affinity == T::spec_affinity()
                && c.nullable == T::spec_nullable(),
            !v.unique,
            !v.nullable,
            v.reference is None,
    {
        let v = ValueDef {
            unique: false,
            nullable: false,
            inner: NestedValueDef::Column(T::definition()),
            reference: Option::None,
            checks: Vec::new(),
        };
        v
    }
}

} // verus!
