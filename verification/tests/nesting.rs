use liter::{
    Affinity, ColumnDef, ForeignKey, NestedValueDef, Schema, Table, TableDef, ValueDef,
};

fn column(affinity: Affinity) -> ValueDef {
    ValueDef {
        unique: false,
        nullable: false,
        inner: NestedValueDef::Column(ColumnDef { affinity, nullable: false, checks: Vec::new() }),
        reference: None,
        checks: Vec::new(),
    }
}

fn named(name: &str, v: ValueDef) -> (String, ValueDef) {
    (name.to_string(), v)
}

/// A single-field wrapper value: it projects under the enclosing field's
/// name without adding a path segment.
fn point() -> ValueDef {
    ValueDef {
        unique: false,
        nullable: false,
        inner: NestedValueDef::Value(Box::new(column(Affinity::Integer))),
        reference: None,
        checks: Vec::new(),
    }
}

/// A two-field composite of points.
fn frame() -> ValueDef {
    ValueDef {
        unique: false,
        nullable: false,
        inner: NestedValueDef::Values(vec![named("start", point()), named("stop", point())]),
        reference: None,
        checks: Vec::new(),
    }
}

/// A reference to the frame table's composite key.
fn frame_ref() -> ValueDef {
    ValueDef {
        unique: false,
        nullable: false,
        inner: NestedValueDef::Values(vec![named("start", point()), named("stop", point())]),
        reference: Some(ForeignKey::define_for("frametable")),
        checks: Vec::new(),
    }
}

/// A composite holding a reference and a fresh frame.
fn update_value() -> ValueDef {
    ValueDef {
        unique: false,
        nullable: false,
        inner: NestedValueDef::Values(vec![named("on", frame_ref()), named("new", frame())]),
        reference: None,
        checks: Vec::new(),
    }
}

fn table_def(name: &str, values: Vec<(String, ValueDef)>, pk: &[&str]) -> TableDef {
    let key: Vec<String> = pk.iter().map(|s| s.to_string()).collect();
    TableDef::new(name.to_string(), values, key, Vec::new()).unwrap()
}

#[test]
fn from_struct() -> rusqlite::Result<()> {
    let p = point();
    assert!(matches!(p.inner, NestedValueDef::Value(_)));
    assert_eq!(p.inner.count_columns(), 1);

    let point_table = table_def("pointtable", vec![named("point", point())], &[]);

    let f = frame();
    assert!(matches!(&f.inner, NestedValueDef::Values(vs) if vs.len() == 2));
    assert_eq!(f.inner.count_columns(), 2);

    let frame_table = table_def("frametable", vec![named("frame", frame())], &["frame"]);

    let u = update_value();
    assert_eq!(u.inner.count_columns(), 4);

    let update_table = table_def("updatetable", vec![named("update", update_value())], &[]);

    let schema = Schema::new(vec![point_table, frame_table, update_table]).unwrap();
    let point_table: &Table = &schema.tables[0];
    let frame_table: &Table = &schema.tables[1];
    let update_table: &Table = &schema.tables[2];

    assert!(
        point_table.create_table.contains("point INTEGER NOT NULL"),
        "{}",
        point_table.create_table
    );
    for c in [
        "frame_start INTEGER NOT NULL",
        "frame_stop INTEGER NOT NULL",
        "PRIMARY KEY ( frame_start, frame_stop )",
    ] {
        assert!(frame_table.create_table.contains(c), "{}", frame_table.create_table);
    }
    assert!(
        update_table
            .create_table
            .contains("FOREIGN KEY (update_on_start, update_on_stop) REFERENCES frametable"),
        "{}",
        update_table.create_table
    );

    let db = rusqlite::Connection::open_in_memory()?;
    db.pragma_update(None, "foreign_keys", "on")?;
    db.execute_batch(&schema.create_script())?;

    let count = |t: &Table| -> i64 {
        let sql = format!("SELECT COUNT(*) FROM ({})", t.get_all);
        db.query_row(&sql, (), |row| row.get(0)).unwrap()
    };
    assert_eq!(count(point_table), 0);
    assert_eq!(count(frame_table), 0);
    assert_eq!(count(update_table), 0);

    assert_eq!(db.execute(&point_table.insert, (123i64,))?, 1);
    assert_eq!(db.execute(&frame_table.insert, (12345i64, 23456i64))?, 1);

    Ok(())
}
