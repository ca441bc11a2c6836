//! Guarantees the library makes beyond the individual function contracts,
//! stated and proved once over the projection and statement models.

use vstd::prelude::*;

use crate::table::{
    eq_item, eq_items, get_by_key_spec, insert_spec, key_fields, other_fields, qmarks,
    table_flags, upd_item, upd_items,
};
use crate::text::{count_char, join_with, lemma_count_char_concat};
use crate::value::{
    count_spec, count_values, names_spec, names_values, NestedValueDef, ValueDef,
};

verus! {

/// Projecting a value tree is deterministic: the flat column list is a
/// function of the tree and the path alone, so repeated projection is
/// stable across runs.
pub proof fn lemma_projection_deterministic(
    path: Seq<Seq<char>>,
    d: NestedValueDef,
    r1: Seq<Seq<char>>,
    r2: Seq<Seq<char>>,
)
    requires
        r1 == names_spec(path, d),
        r2 == names_spec(path, d),
    ensures
        r1 == r2,
{
}

/// A composite's projected column count is the sum of its children's
/// counts: the projection of a field list is the concatenation of the
/// children's projections in declaration order, so the lengths add up.
pub proof fn lemma_composite_column_count(path: Seq<Seq<char>>, vs: Seq<(String, ValueDef)>)
    ensures
        names_values(path, vs).len() == count_values(vs),
        vs.len() > 0 ==> names_values(path, vs).len() == names_values(path, vs.drop_last()).len()
            + names_spec(path.push(vs.last().0@), vs.last().1.inner).len(),
{
    crate::value::lemma_project_values_len(path, false, vs);
    if vs.len() > 0 {
        crate::value::lemma_project_values_len(path, false, vs.drop_last());
        crate::value::lemma_project_len(
            path.push(vs.last().0@),
            false,
            vs.last().1.inner,
        );
    }
}

/// A leaf `c` inside a sub-value `b` of a field `a` is named `a_b_c`: the
/// flat name is the path of field names joined with underscores.
pub proof fn lemma_nested_name(
    a: String,
    b: String,
    c: String,
    outer: Vec<(String, ValueDef)>,
    mid: ValueDef,
    leaf: ValueDef,
)
    requires
        outer@ == seq![(b, mid)],
        mid.inner matches NestedValueDef::Values(vi) && vi@ == seq![(c, leaf)],
        leaf.inner is Column,
    ensures
        names_values(seq![a@], outer@) == seq![a@ + "_"@ + b@ + "_"@ + c@],
{
    let pa = seq![a@];
    let pab = pa.push(b@);
    let pabc = pab.push(c@);
    assert(outer@.drop_last() =~= Seq::<(String, ValueDef)>::empty());
    assert(outer@.last() == (b, mid));
    assert(names_values(pa, Seq::<(String, ValueDef)>::empty()) =~= Seq::<Seq<char>>::empty());
    if let NestedValueDef::Values(vi) = mid.inner {
        assert(vi@.drop_last() =~= Seq::<(String, ValueDef)>::empty());
        assert(vi@.last() == (c, leaf));
        assert(names_values(pab, Seq::<(String, ValueDef)>::empty())
            =~= Seq::<Seq<char>>::empty());
        assert(names_spec(pabc, leaf.inner) == seq![join_with(pabc, "_"@)]);
        assert(join_with(pabc, "_"@) == a@ + "_"@ + b@ + "_"@ + c@) by {
            assert(pabc.drop_last() =~= pab);
            assert(pab.drop_last() =~= pa);
            assert(pabc.last() == c@);
            assert(pab.last() == b@);
            assert(join_with(pa, "_"@) == a@);
            assert(join_with(pab, "_"@) == join_with(pa, "_"@) + "_"@ + b@);
            assert(join_with(pabc, "_"@) == join_with(pab, "_"@) + "_"@ + c@);
            assert((a@ + "_"@ + b@) + "_"@ + c@ =~= a@ + "_"@ + b@ + "_"@ + c@);
        }
        assert(names_values(pab, vi@) =~= names_spec(pabc, leaf.inner));
        assert(names_spec(pab, mid.inner) == names_values(pab, vi@));
        assert(names_values(pa, outer@) =~= names_spec(pab, mid.inner));
        assert(names_values(pa, outer@) =~= seq![a@ + "_"@ + b@ + "_"@ + c@]);
    }
}

/// The flat column names are a function of the tree and path alone: the
/// projected names do not depend on the accumulated nullability, only the
/// per-column nullability does.
pub proof fn lemma_projection_names_ignore_nullability(path: Seq<Seq<char>>, nullable: bool, d: NestedValueDef)
    ensures
        crate::value::project_spec(path, nullable, d).map_values(|c: crate::value::ProjectedColumn| c.name) == names_spec(
            path,
            d,
        ),
    decreases d,
{
    match d {
        NestedValueDef::Column(_) => {
            assert(crate::value::project_spec(path, nullable, d).map_values(|c: crate::value::ProjectedColumn| c.name)
                =~= names_spec(path, d));
        },
        NestedValueDef::Value(v) => {
            lemma_projection_names_ignore_nullability(path, nullable || v.nullable, v.inner);
        },
        NestedValueDef::Values(vs) => {
            lemma_projection_values_names_ignore_nullability(path, nullable, vs@);
        },
    }
}

/// List version of [`lemma_projection_names_ignore_nullability`].
pub proof fn lemma_projection_values_names_ignore_nullability(
    path: Seq<Seq<char>>,
    nullable: bool,
    vs: Seq<(String, ValueDef)>,
)
    ensures
        crate::value::project_values(path, nullable, vs).map_values(|c: crate::value::ProjectedColumn| c.name) == names_values(
            path,
            vs,
        ),
    decreases vs,
{
    if vs.len() == 0 {
        assert(crate::value::project_values(path, nullable, vs).map_values(|c: crate::value::ProjectedColumn| c.name)
            =~= names_values(path, vs));
    } else {
        lemma_projection_values_names_ignore_nullability(path, nullable, vs.drop_last());
        lemma_projection_names_ignore_nullability(path.push(vs.last().0@), nullable || vs.last().1.nullable, vs.last().1.inner);
        assert(crate::value::project_values(path, nullable, vs).map_values(|c: crate::value::ProjectedColumn| c.name)
            =~= names_values(path, vs));
    }
}

/// `qmarks(n)` holds exactly `n` placeholders.
pub proof fn lemma_qmarks_count(n: nat)
    requires
        n >= 1,
    ensures
        count_char(qmarks(n), '?') == n,
    decreases n,
{
    if n == 1 {
        assert(count_char(qmarks(1), '?') == 1) by {
            reveal_strlit("?");
            reveal_with_fuel(count_char, 4);
            assert(qmarks(1) == "?"@);
            assert("?"@.len() == 1);
            assert("?"@.last() == '?');
            assert("?"@.drop_last().len() == 0);
        }
    } else {
        lemma_qmarks_count((n - 1) as nat);
        lemma_count_char_concat(qmarks((n - 1) as nat), ", ?"@, '?');
        assert(count_char(", ?"@, '?') == 1) by {
            reveal_strlit(", ?");
            reveal_with_fuel(count_char, 6);
            assert(", ?"@.len() == 3);
            assert(", ?"@.last() == '?');
            assert(", ?"@.drop_last().last() == ' ');
            assert(", ?"@.drop_last().drop_last().last() == ',');
            assert(", ?"@.drop_last().drop_last().drop_last().len() == 0);
        }
    }
}

/// The `INSERT` statement of a table whose name holds no `?` has exactly
/// one placeholder per column.
pub proof fn lemma_insert_placeholder_count(name: Seq<char>, n: nat)
    requires
        n >= 1,
        count_char(name, '?') == 0,
    ensures
        count_char(insert_spec(name, n), '?') == n,
{
    lemma_qmarks_count(n);
    assert(count_char("INSERT INTO \""@, '?') == 0) by {
        reveal_strlit("INSERT INTO \"");
        lemma_count_char_of_qfree("INSERT INTO \""@, '?');
    }
    assert(count_char("\" VALUES ("@, '?') == 0) by {
        reveal_strlit("\" VALUES (");
        lemma_count_char_of_qfree("\" VALUES ("@, '?');
    }
    assert(count_char(")"@, '?') == 0) by {
        reveal_strlit(")");
        lemma_count_char_of_qfree(")"@, '?');
    }
    lemma_count_char_concat("INSERT INTO \""@, name, '?');
    lemma_count_char_concat("INSERT INTO \""@ + name, "\" VALUES ("@, '?');
    lemma_count_char_concat("INSERT INTO \""@ + name + "\" VALUES ("@, qmarks(n), '?');
    lemma_count_char_concat("INSERT INTO \""@ + name + "\" VALUES ("@ + qmarks(n), ")"@, '?');
}

/// A sequence without the character counts zero.
pub proof fn lemma_count_char_of_qfree(s: Seq<char>, c: char)
    requires
        forall|i: int| 0 <= i < s.len() ==> s[i] != c,
    ensures
        count_char(s, c) == 0,
    decreases s.len(),
{
    if s.len() > 0 {
        assert(forall|i: int| 0 <= i < s.len() - 1 ==> s.drop_last()[i] == #[trigger] s[i]);
        lemma_count_char_of_qfree(s.drop_last(), c);
        assert(s.last() == s[s.len() - 1]);
    }
}

/// Joining items that hold one placeholder each, with a placeholder-free
/// separator, yields one placeholder per item.
pub proof fn lemma_join_count_one_each(items: Seq<Seq<char>>, sep: Seq<char>, c: char)
    requires
        forall|i: int| 0 <= i < items.len() ==> count_char(#[trigger] items[i], c) == 1,
        count_char(sep, c) == 0,
    ensures
        count_char(join_with(items, sep), c) == items.len(),
    decreases items.len(),
{
    if items.len() == 0 {
    } else if items.len() == 1 {
        assert(count_char(items[0], c) == 1);
    } else {
        assert(forall|i: int|
            0 <= i < items.len() - 1 ==> items.drop_last()[i] == #[trigger] items[i]);
        lemma_join_count_one_each(items.drop_last(), sep, c);
        lemma_count_char_concat(join_with(items.drop_last(), sep), sep, c);
        lemma_count_char_concat(join_with(items.drop_last(), sep) + sep, items.last(), c);
        assert(count_char(items[items.len() - 1], c) == 1);
    }
}

/// The key lookup of a table whose name and key column names hold no `?`
/// has exactly one placeholder per key column.
pub proof fn lemma_get_by_key_placeholder_count(name: Seq<char>, keys: Seq<Seq<char>>)
    requires
        keys.len() >= 1,
        count_char(name, '?') == 0,
        forall|i: int| 0 <= i < keys.len() ==> count_char(#[trigger] keys[i], '?') == 0,
    ensures
        count_char(get_by_key_spec(name, keys), '?') == keys.len(),
{
    assert(count_char(" = ?"@, '?') == 1) by {
        reveal_strlit(" = ?");
        reveal_with_fuel(count_char, 6);
        assert(" = ?"@.len() == 4);
        assert(" = ?"@.last() == '?');
        lemma_count_char_of_qfree(" = ?"@.drop_last(), '?');
    }
    assert(count_char(" AND "@, '?') == 0) by {
        reveal_strlit(" AND ");
        lemma_count_char_of_qfree(" AND "@, '?');
    }
    assert(forall|i: int|
        0 <= i < keys.len() ==> count_char(#[trigger] eq_items(keys)[i], '?') == 1) by {
        assert forall|i: int| 0 <= i < keys.len() implies count_char(
            #[trigger] eq_items(keys)[i],
            '?',
        ) == 1 by {
            assert(eq_items(keys)[i] == eq_item(keys[i]));
            lemma_count_char_concat(keys[i], " = ?"@, '?');
        }
    }
    lemma_join_count_one_each(eq_items(keys), " AND "@, '?');
    assert(count_char("SELECT * FROM "@, '?') == 0) by {
        reveal_strlit("SELECT * FROM ");
        lemma_count_char_of_qfree("SELECT * FROM "@, '?');
    }
    assert(count_char(" WHERE ("@, '?') == 0) by {
        reveal_strlit(" WHERE (");
        lemma_count_char_of_qfree(" WHERE ("@, '?');
    }
    assert(count_char(")"@, '?') == 0) by {
        reveal_strlit(")");
        lemma_count_char_of_qfree(")"@, '?');
    }
    lemma_count_char_concat("SELECT * FROM "@, name, '?');
    lemma_count_char_concat("SELECT * FROM "@ + name, " WHERE ("@, '?');
    lemma_count_char_concat(
        "SELECT * FROM "@ + name + " WHERE ("@,
        join_with(eq_items(keys), " AND "@),
        '?',
    );
    lemma_count_char_concat(
        "SELECT * FROM "@ + name + " WHERE ("@ + join_with(eq_items(keys), " AND "@),
        ")"@,
        '?',
    );
}


/// The positions, in the full declaration order of a table's columns, of
/// the columns whose key flag equals `want`, ascending.
pub open spec fn sel_positions(flags: Seq<bool>, want: bool) -> Seq<int>
    decreases flags.len(),
{
    if flags.len() == 0 {
        Seq::empty()
    } else {
        let prev = sel_positions(flags.drop_last(), want);
        if flags.last() == want {
            prev.push(flags.len() - 1)
        } else {
            prev
        }
    }
}

/// The names at the selected positions, in order.
pub open spec fn sel_names(flags: Seq<bool>, names: Seq<Seq<char>>, want: bool) -> Seq<Seq<char>> {
    sel_positions(flags, want).map_values(|p: int| names[p])
}

/// Each update item is the item of its selected position: the `SET` and
/// `WHERE` lists name the selected columns and number them by their
/// position in the full bind order.
pub proof fn lemma_upd_items_by_positions(flags: Seq<bool>, names: Seq<Seq<char>>, want: bool)
    ensures
        upd_items(flags, names, want).len() == sel_positions(flags, want).len(),
        forall|k: int|
            0 <= k < sel_positions(flags, want).len() ==> #[trigger] upd_items(
                flags,
                names,
                want,
            )[k] == upd_item(
                names[sel_positions(flags, want)[k]],
                sel_positions(flags, want)[k],
            ),
    decreases flags.len(),
{
    if flags.len() > 0 {
        lemma_upd_items_by_positions(flags.drop_last(), names, want);
    }
}

/// Selected positions are in range, carry the selecting flag, are strictly
/// ascending, and the two selections cover every column between them.
pub proof fn lemma_sel_positions_facts(flags: Seq<bool>, want: bool)
    ensures
        forall|k: int|
            0 <= k < sel_positions(flags, want).len() ==> 0 <= #[trigger] sel_positions(
                flags,
                want,
            )[k] < flags.len() && flags[sel_positions(flags, want)[k]] == want,
        forall|k1: int, k2: int|
            0 <= k1 < k2 < sel_positions(flags, want).len() ==> #[trigger] sel_positions(
                flags,
                want,
            )[k1] < #[trigger] sel_positions(flags, want)[k2],
        sel_positions(flags, false).len() + sel_positions(flags, true).len() == flags.len(),
    decreases flags.len(),
{
    if flags.len() > 0 {
        lemma_sel_positions_facts(flags.drop_last(), want);
        lemma_sel_positions_facts(flags.drop_last(), !want);
        assert(forall|p: int|
            0 <= p < flags.len() - 1 ==> flags.drop_last()[p] == #[trigger] flags[p]);
        if flags.last() != want {
            assert(sel_positions(flags, !want) == sel_positions(flags.drop_last(), !want).push(
                flags.len() - 1,
            ));
        }
    }
}

/// Selections of a concatenation: the first part's selections, then the
/// second part's shifted by the first part's length.
pub proof fn lemma_sel_positions_concat(f1: Seq<bool>, f2: Seq<bool>, want: bool)
    ensures
        sel_positions(f1 + f2, want) == sel_positions(f1, want) + sel_positions(
            f2,
            want,
        ).map_values(|p: int| p + f1.len()),
    decreases f2.len(),
{
    if f2.len() == 0 {
        assert(f1 + f2 =~= f1);
        assert(sel_positions(f1, want) + sel_positions(f2, want).map_values(
            |p: int| p + f1.len(),
        ) =~= sel_positions(f1, want));
    } else {
        lemma_sel_positions_concat(f1, f2.drop_last(), want);
        assert((f1 + f2).drop_last() =~= f1 + f2.drop_last());
        assert((f1 + f2).last() == f2.last());
        if f2.last() == want {
            assert(sel_positions(f1 + f2, want) =~= sel_positions(f1, want) + sel_positions(
                f2,
                want,
            ).map_values(|p: int| p + f1.len()));
        } else {
            assert(sel_positions(f1 + f2, want) =~= sel_positions(f1, want) + sel_positions(
                f2,
                want,
            ).map_values(|p: int| p + f1.len()));
        }
    }
}

/// Selections of a constant block: all of it when the flag matches, none
/// otherwise.
pub proof fn lemma_sel_positions_repeat(b: bool, c: nat, want: bool)
    ensures
        b == want ==> sel_positions(Seq::new(c, |j: int| b), want) =~= Seq::new(
            c,
            |j: int| j,
        ),
        b != want ==> sel_positions(Seq::new(c, |j: int| b), want) =~= Seq::<int>::empty(),
    decreases c,
{
    if c > 0 {
        lemma_sel_positions_repeat(b, (c - 1) as nat, want);
        assert(Seq::new(c, |j: int| b).drop_last() =~= Seq::new((c - 1) as nat, |j: int| b));
        assert(Seq::new(c, |j: int| b).last() == b);
        if b == want {
            assert(sel_positions(Seq::new((c - 1) as nat, |j: int| b), want).push(c - 1)
                =~= Seq::new(c, |j: int| j));
        }
    }
}

/// The update statement's `SET` list covers exactly the non-key columns and
/// its `WHERE` list exactly the key columns: selecting the flagged columns
/// out of the declaration-ordered name list yields precisely the projected
/// names of the non-key fields, respectively of the key fields, each in
/// declaration order — and no position is selected by both lists.
pub proof fn lemma_update_partition(pk: Seq<Seq<char>>, vs: Seq<(String, ValueDef)>)
    ensures
        sel_names(table_flags(pk, vs), names_values(Seq::empty(), vs), false) == names_values(
            Seq::empty(),
            other_fields(pk, vs),
        ),
        sel_names(table_flags(pk, vs), names_values(Seq::empty(), vs), true) == names_values(
            Seq::empty(),
            key_fields(pk, vs),
        ),
        forall|k1: int, k2: int|
            0 <= k1 < sel_positions(table_flags(pk, vs), false).len() && 0 <= k2 < sel_positions(
                table_flags(pk, vs),
                true,
            ).len() ==> #[trigger] sel_positions(table_flags(pk, vs), false)[k1]
                != #[trigger] sel_positions(table_flags(pk, vs), true)[k2],
    decreases vs,
{
    let path = Seq::<Seq<char>>::empty();
    lemma_sel_positions_facts(table_flags(pk, vs), false);
    lemma_sel_positions_facts(table_flags(pk, vs), true);
    if vs.len() == 0 {
        assert(sel_names(table_flags(pk, vs), names_values(path, vs), false)
            =~= names_values(path, other_fields(pk, vs)));
        assert(sel_names(table_flags(pk, vs), names_values(path, vs), true)
            =~= names_values(path, key_fields(pk, vs)));
    } else {
        lemma_update_partition(pk, vs.drop_last());
        let f = vs.last();
        let b = pk.contains(f.0@);
        let c = count_spec(f.1.inner);
        let flagsp = table_flags(pk, vs.drop_last());
        let namesp = names_values(path, vs.drop_last());
        let child = names_spec(path.push(f.0@), f.1.inner);
        crate::table::lemma_table_flags_len(pk, vs.drop_last());
        crate::value::lemma_project_values_len(path, false, vs.drop_last());
        crate::value::lemma_project_len(path.push(f.0@), false, f.1.inner);
        let np = flagsp.len() as int;
        assert(namesp.len() == np);
        assert(child.len() == c);
        let rep = Seq::new(c, |j: int| b);
        assert(table_flags(pk, vs) == flagsp + rep);
        let names = namesp + child;
        assert(names_values(path, vs) == names);
        lemma_sel_positions_concat(flagsp, rep, false);
        lemma_sel_positions_concat(flagsp, rep, true);
        lemma_sel_positions_repeat(b, c, false);
        lemma_sel_positions_repeat(b, c, true);
        lemma_sel_positions_facts(flagsp, false);
        lemma_sel_positions_facts(flagsp, true);
        lemma_shifted_names(flagsp, rep, namesp, child, false);
        lemma_shifted_names(flagsp, rep, namesp, child, true);
        if b {
            assert(key_fields(pk, vs) == key_fields(pk, vs.drop_last()) + seq![f]);
            assert(other_fields(pk, vs) == other_fields(pk, vs.drop_last()));
            crate::table::lemma_names_values_concat(path, key_fields(pk, vs.drop_last()), seq![f]);
            lemma_names_values_singleton(path, f);
            assert(sel_names(flagsp + rep, names, true) =~= sel_names(flagsp, namesp, true)
                + child) by {
                assert(sel_positions(rep, true) =~= Seq::new(c, |j: int| j));
                lemma_shifted_names(flagsp, rep, namesp, child, true);
            }
            assert(sel_names(flagsp + rep, names, false) =~= sel_names(flagsp, namesp, false)) by {
                assert(sel_positions(rep, false) =~= Seq::<int>::empty());
                lemma_shifted_names(flagsp, rep, namesp, child, false);
            }
            assert(sel_names(table_flags(pk, vs), names_values(path, vs), true)
                =~= names_values(path, key_fields(pk, vs)));
            assert(sel_names(table_flags(pk, vs), names_values(path, vs), false)
                =~= names_values(path, other_fields(pk, vs)));
        } else {
            assert(other_fields(pk, vs) == other_fields(pk, vs.drop_last()) + seq![f]);
            assert(key_fields(pk, vs) == key_fields(pk, vs.drop_last()));
            crate::table::lemma_names_values_concat(
                path,
                other_fields(pk, vs.drop_last()),
                seq![f],
            );
            lemma_names_values_singleton(path, f);
            assert(sel_names(flagsp + rep, names, false) =~= sel_names(flagsp, namesp, false)
                + child) by {
                assert(sel_positions(rep, false) =~= Seq::new(c, |j: int| j));
                lemma_shifted_names(flagsp, rep, namesp, child, false);
            }
            assert(sel_names(flagsp + rep, names, true) =~= sel_names(flagsp, namesp, true)) by {
                assert(sel_positions(rep, true) =~= Seq::<int>::empty());
                lemma_shifted_names(flagsp, rep, namesp, child, true);
            }
            assert(sel_names(table_flags(pk, vs), names_values(path, vs), false)
                =~= names_values(path, other_fields(pk, vs)));
            assert(sel_names(table_flags(pk, vs), names_values(path, vs), true)
                =~= names_values(path, key_fields(pk, vs)));
        }
    }
}

/// The projected names of a single field.
proof fn lemma_names_values_singleton(path: Seq<Seq<char>>, f: (String, ValueDef))
    ensures
        names_values(path, seq![f]) == names_spec(path.push(f.0@), f.1.inner),
{
    assert(seq![f].drop_last() =~= Seq::<(String, ValueDef)>::empty());
    assert(seq![f].last() == f);
    assert(names_values(path, Seq::<(String, ValueDef)>::empty()) =~= Seq::<Seq<char>>::empty());
    assert(Seq::<Seq<char>>::empty() + names_spec(path.push(f.0@), f.1.inner) =~= names_spec(
        path.push(f.0@),
        f.1.inner,
    ));
}

/// Selecting names out of a two-part list: positions in the prefix pick
/// prefix names, shifted positions pick the appended block's names.
proof fn lemma_shifted_names(
    flagsp: Seq<bool>,
    rep: Seq<bool>,
    namesp: Seq<Seq<char>>,
    child: Seq<Seq<char>>,
    want: bool,
)
    requires
        namesp.len() == flagsp.len(),
        child.len() == rep.len(),
    ensures
        sel_names(flagsp + rep, namesp + child, want) == sel_names(flagsp, namesp, want)
            + sel_positions(rep, want).map_values(|p: int| p + flagsp.len()).map_values(
            |p: int| (namesp + child)[p],
        ),
        sel_positions(rep, want) =~= Seq::new(rep.len(), |j: int| j) ==> sel_positions(
            rep,
            want,
        ).map_values(|p: int| p + flagsp.len()).map_values(|p: int| (namesp + child)[p]) =~= child,
{
    lemma_sel_positions_concat(flagsp, rep, want);
    lemma_sel_positions_facts(flagsp, want);
    assert(sel_names(flagsp + rep, namesp + child, want) =~= sel_names(flagsp, namesp, want)
        + sel_positions(rep, want).map_values(|p: int| p + flagsp.len()).map_values(
        |p: int| (namesp + child)[p],
    )) by {
        let lhs = sel_names(flagsp + rep, namesp + child, want);
        let shifted = sel_positions(rep, want).map_values(|p: int| p + flagsp.len());
        assert(sel_positions(flagsp + rep, want) == sel_positions(flagsp, want) + shifted);
        assert(forall|k: int|
            0 <= k < sel_positions(flagsp, want).len() ==> (namesp + child)[sel_positions(
                flagsp,
                want,
            )[k]] == namesp[#[trigger] sel_positions(flagsp, want)[k]]);
    }
}

} // verus!
