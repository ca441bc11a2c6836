use liter::{
    Affinity, ColumnDef, ForeignKey, NestedValueDef, Schema, SchemaError, Table, TableDef,
    ValueDef,
};

fn column(affinity: Affinity) -> ValueDef {
    ValueDef {
        unique: false,
        nullable: false,
        inner: NestedValueDef::Column(ColumnDef { affinity, nullable: false, checks: Vec::new() }),
        reference: None,
        checks: Vec::new(),
    }
}

fn named(name: &str, v: ValueDef) -> (String, ValueDef) {
    (name.to_string(), v)
}

fn composite(children: Vec<(String, ValueDef)>) -> ValueDef {
    ValueDef {
        unique: false,
        nullable: false,
        inner: NestedValueDef::Values(children),
        reference: None,
        checks: Vec::new(),
    }
}

fn table_def(name: &str, values: Vec<(String, ValueDef)>, pk: &[&str]) -> TableDef {
    let key: Vec<String> = pk.iter().map(|s| s.to_string()).collect();
    TableDef::new(name.to_string(), values, key, Vec::new()).unwrap()
}

fn item_table() -> Table {
    Table::new(table_def(
        "item",
        vec![
            named("id", column(Affinity::Integer)),
            named("data", column(Affinity::Integer)),
        ],
        &["id"],
    ))
}

#[test]
fn insert_twice_same_key_fails() {
    let item = item_table();
    assert!(item.create_table.contains("PRIMARY KEY ( id )"));
    assert!(item.create_table.contains("id INTEGER NOT NULL"));
    assert!(item.create_table.contains("data INTEGER NOT NULL"));
    assert_eq!(item.insert.matches('?').count(), 2);

    let db = rusqlite::Connection::open_in_memory().unwrap();
    db.execute_batch(&item.create_table).unwrap();
    db.execute(&item.insert, (1i64, 5i64)).unwrap();
    db.execute(&item.insert, (1i64, 6i64))
        .expect_err("second insert with the same key must violate the primary key");
}

#[test]
fn exact_statement_texts() {
    let item = item_table();
    let ks = item.key.as_ref().unwrap();
    assert_eq!(item.get_all, "SELECT * FROM item");
    assert_eq!(item.insert, "INSERT INTO \"item\" VALUES (?, ?)");
    assert_eq!(ks.get_by_key, "SELECT * FROM item WHERE (id = ?)");
    assert_eq!(ks.delete, "DELETE FROM item WHERE (id = ?)");
    assert_eq!(
        ks.upsert,
        "INSERT INTO \"item\" VALUES (?, ?) ON CONFLICT (id) DO UPDATE SET data = excluded.data"
    );
    assert_eq!(ks.update, "UPDATE \"item\" SET data = ?2 WHERE id = ?1");
    assert_eq!(
        item.create_table,
        "CREATE TABLE item (\n\tid INTEGER NOT NULL,\n\tdata INTEGER NOT NULL,\n\tPRIMARY KEY ( id )\n) STRICT;"
    );
}

#[test]
fn update_with_interleaved_key() {
    // Key and non-key fields alternate: the SET list covers exactly the
    // non-key columns and the WHERE list exactly the key columns, each
    // numbered by its position in declaration order.
    let t = Table::new(table_def(
        "t",
        vec![
            named("a", column(Affinity::Integer)),
            named("b", column(Affinity::Integer)),
            named("c", column(Affinity::Integer)),
            named("d", column(Affinity::Integer)),
        ],
        &["a", "c"],
    ));
    assert_eq!(t.names.all_columns, vec!["a", "b", "c", "d"]);
    assert_eq!(t.names.key_columns, vec!["a", "c"]);
    assert_eq!(t.names.other_columns, vec!["b", "d"]);
    let ks = t.key.as_ref().unwrap();
    assert_eq!(ks.update, "UPDATE \"t\" SET b = ?2, d = ?4 WHERE a = ?1 AND c = ?3");
    for k in &t.names.key_columns {
        assert!(!t.names.other_columns.contains(k));
    }

    // The single bind pass in declaration order serves both lists.
    let db = rusqlite::Connection::open_in_memory().unwrap();
    db.execute_batch(&t.create_table).unwrap();
    db.execute(&t.insert, (1i64, 2i64, 3i64, 4i64)).unwrap();
    assert_eq!(db.execute(&ks.update, (1i64, 20i64, 3i64, 40i64)).unwrap(), 1);
    let row: (i64, i64, i64, i64) = db
        .query_row(&t.get_all, (), |r| Ok((r.get(0)?, r.get(1)?, r.get(2)?, r.get(3)?)))
        .unwrap();
    assert_eq!(row, (1, 20, 3, 40));
}

#[test]
fn placeholder_counts() {
    let t = Table::new(table_def(
        "wide",
        vec![
            named("k", composite(vec![
                named("x", column(Affinity::Integer)),
                named("y", column(Affinity::Integer)),
            ])),
            named("p", column(Affinity::Text)),
            named("q", column(Affinity::Blob)),
        ],
        &["k"],
    ));
    assert_eq!(t.insert.matches('?').count(), t.names.all_columns.len());
    let ks = t.key.as_ref().unwrap();
    assert_eq!(ks.get_by_key.matches('?').count(), t.names.key_columns.len());
    assert_eq!(ks.delete.matches('?').count(), t.names.key_columns.len());
}

#[test]
fn nested_path_names() {
    let t = Table::new(table_def(
        "nested",
        vec![named(
            "a",
            composite(vec![named("b", composite(vec![named("c", column(Affinity::Integer))]))]),
        )],
        &[],
    ));
    assert_eq!(t.names.all_columns, vec!["a_b_c"]);
    assert!(t.create_table.contains("a_b_c INTEGER NOT NULL"));
}

#[test]
fn projection_is_stable() {
    let build = || {
        Table::new(table_def(
            "s",
            vec![
                named("one", composite(vec![
                    named("l", column(Affinity::Integer)),
                    named("r", column(Affinity::Text)),
                ])),
                named("two", column(Affinity::Blob)),
            ],
            &["one"],
        ))
    };
    let t1 = build();
    let t2 = build();
    assert_eq!(t1.names.all_columns, t2.names.all_columns);
    assert_eq!(t1.names.key_columns, t2.names.key_columns);
    assert_eq!(t1.names.other_columns, t2.names.other_columns);
    assert_eq!(t1.create_table, t2.create_table);
    assert_eq!(t1.names.all_columns, vec!["one_l", "one_r", "two"]);
}

#[test]
fn composite_count_is_sum_of_children() {
    let left = composite(vec![
        named("x", column(Affinity::Integer)),
        named("y", column(Affinity::Integer)),
    ]);
    let right = composite(vec![named("z", column(Affinity::Text))]);
    let both = composite(vec![named("l", left), named("r", right)]);
    let l2 = composite(vec![
        named("x", column(Affinity::Integer)),
        named("y", column(Affinity::Integer)),
    ]);
    let r2 = composite(vec![named("z", column(Affinity::Text))]);
    assert_eq!(
        both.inner.count_columns(),
        l2.inner.count_columns() + r2.inner.count_columns()
    );
    assert_eq!(both.inner.count_columns(), 3);
}

fn ref_to(target: &str) -> ValueDef {
    ValueDef {
        unique: false,
        nullable: false,
        inner: NestedValueDef::Value(Box::new(column(Affinity::Integer))),
        reference: Some(ForeignKey::define_for(target)),
        checks: Vec::new(),
    }
}

#[test]
fn schema_closure() {
    let a = || table_def("a", vec![named("id", column(Affinity::Integer))], &["id"]);
    let b = || {
        table_def(
            "b",
            vec![named("id", column(Affinity::Integer)), named("to_a", ref_to("a"))],
            &["id"],
        )
    };

    // Both tables present: the reference resolves and the schema is valid.
    let ok = Schema::new(vec![a(), b()]).unwrap();
    assert!(ok.tables[1].create_table.contains(
        "FOREIGN KEY (to_a) REFERENCES a\n\t\tON UPDATE RESTRICT\n\t\tON DELETE RESTRICT\n\t\tDEFERRABLE INITIALLY DEFERRED"
    ));

    // Removing the referenced table must fail validation.
    let err = Schema::new(vec![b()]).unwrap_err();
    match err {
        SchemaError::UnresolvedForeignKey { table, target } => {
            assert_eq!(table, "b");
            assert_eq!(target, "a");
        },
        other => panic!("expected an unresolved foreign key, got {other:?}"),
    }
}

#[test]
fn authoring_mistakes_are_rejected() {
    // A table with no values at all.
    assert_eq!(
        TableDef::new("empty".to_string(), Vec::new(), Vec::new(), Vec::new()).unwrap_err(),
        SchemaError::EmptyTable
    );

    // An empty composite anywhere in a value tree.
    let hollow = ValueDef {
        unique: false,
        nullable: false,
        inner: NestedValueDef::Values(Vec::new()),
        reference: None,
        checks: Vec::new(),
    };
    assert_eq!(
        TableDef::new(
            "hollow".to_string(),
            vec![named("v", hollow)],
            Vec::new(),
            Vec::new(),
        )
        .unwrap_err(),
        SchemaError::EmptyValueTree
    );

    // A declared key field that names no field.
    assert_eq!(
        TableDef::new(
            "t".to_string(),
            vec![named("id", column(Affinity::Integer))],
            vec!["nope".to_string()],
            Vec::new(),
        )
        .unwrap_err(),
        SchemaError::UnknownKeyField("nope".to_string())
    );

    // A schema with no tables.
    assert_eq!(Schema::new(Vec::new()).unwrap_err(), SchemaError::EmptySchema);
}

#[test]
fn key_only_upsert_does_nothing() {
    let t = Table::new(table_def("tags", vec![named("tag", column(Affinity::Text))], &["tag"]));
    let ks = t.key.as_ref().unwrap();
    assert_eq!(
        ks.upsert,
        "INSERT INTO \"tags\" VALUES (?) ON CONFLICT (tag) DO NOTHING"
    );
    let db = rusqlite::Connection::open_in_memory().unwrap();
    db.execute_batch(&t.create_table).unwrap();
    assert_eq!(db.execute(&ks.upsert, ("x",)).unwrap(), 1);
    // the second upsert of the same key is a no-op, not an error
    assert_eq!(db.execute(&ks.upsert, ("x",)).unwrap(), 0);
}

#[test]
fn nullability_propagates_to_leaves() {
    let mut inner_pair = composite(vec![
        named("x", column(Affinity::Integer)),
        named("y", column(Affinity::Text)),
    ]);
    inner_pair.nullable = true;
    let t = Table::new(table_def("opt", vec![named("pair", inner_pair)], &[]));
    // each column individually may be absent: no NOT NULL anywhere
    assert!(!t.create_table.contains("NOT NULL"));
    assert!(t.create_table.contains("pair_x INTEGER"));
    assert!(t.create_table.contains("pair_y TEXT"));

    let db = rusqlite::Connection::open_in_memory().unwrap();
    db.execute_batch(&t.create_table).unwrap();
    // one half of the group may be present without the other
    db.execute(&t.insert, (Some(1i64), None::<String>)).unwrap();
}

#[test]
fn schema_script_wraps_in_transaction() {
    let a = table_def("a", vec![named("id", column(Affinity::Integer))], &["id"]);
    let b = table_def("b", vec![named("id", column(Affinity::Integer))], &["id"]);
    let schema = Schema::new(vec![a, b]).unwrap();
    let script = schema.create_script();
    assert!(script.starts_with("BEGIN TRANSACTION;\n"));
    assert!(script.ends_with("END TRANSACTION;\n"));
    for t in &schema.tables {
        assert!(script.contains(&t.create_table));
    }
}
