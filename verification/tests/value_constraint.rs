use liter::{
    Affinity, ColumnDef, ForeignKey, NestedValueDef, Schema, Table, TableDef, ValueDef,
};

fn column(affinity: Affinity) -> ValueDef {
    ValueDef {
        unique: false,
        nullable: false,
        inner: NestedValueDef::Column(ColumnDef { affinity, nullable: false, checks: Vec::new() }),
        reference: None,
        checks: Vec::new(),
    }
}

fn named(name: &str, v: ValueDef) -> (String, ValueDef) {
    (name.to_string(), v)
}

fn table_def(name: &str, values: Vec<(String, ValueDef)>, pk: &[&str]) -> TableDef {
    let key: Vec<String> = pk.iter().map(|s| s.to_string()).collect();
    TableDef::new(name.to_string(), values, key, Vec::new()).unwrap()
}

#[test]
fn unique_column() -> rusqlite::Result<()> {
    let unique_number = column(Affinity::Integer).unique();
    let item = Table::new(table_def("item", vec![named("number", unique_number)], &[]));
    assert!(
        item.create_table.contains("UNIQUE"),
        "definition must include UNIQUE constraint"
    );

    let db = rusqlite::Connection::open_in_memory()?;
    db.execute_batch(&item.create_table)?;
    let count: i64 = {
        let sql = format!("SELECT COUNT(*) FROM ({})", item.get_all);
        db.query_row(&sql, (), |row| row.get(0))?
    };
    assert_eq!(count, 0);
    assert_eq!(db.execute(&item.insert, (9u8,)).unwrap(), 1);

    db.execute(&item.insert, (9u8,)).expect_err(
        "inserting the same number should violate unique constraint and fail",
    );

    Ok(())
}

/// A reference to the file table's single-column key: a transparent
/// wrapper, so it projects one column under the enclosing field's name.
fn file_ref() -> ValueDef {
    ValueDef {
        unique: false,
        nullable: false,
        inner: NestedValueDef::Value(Box::new(column(Affinity::Integer))),
        reference: Some(ForeignKey::define_for("file")),
        checks: Vec::new(),
    }
}

/// A reference to the block table's composite key `(indx, file)`.
fn block_ref() -> ValueDef {
    ValueDef {
        unique: false,
        nullable: false,
        inner: NestedValueDef::Values(vec![
            named("indx", column(Affinity::Integer)),
            named("file", column(Affinity::Integer)),
        ]),
        reference: Some(ForeignKey::define_for("block")),
        checks: Vec::new(),
    }
}

#[test]
fn foreign_key() -> rusqlite::Result<()> {
    let file = table_def(
        "file",
        vec![
            named("id", column(Affinity::Integer)),
            named("name", column(Affinity::Text)),
            named("permissions", column(Affinity::Integer)),
        ],
        &["id"],
    );
    let block = table_def(
        "block",
        vec![
            named("indx", column(Affinity::Integer)),
            named("file", file_ref()),
            named("data", column(Affinity::Blob)),
        ],
        &["indx", "file"],
    );
    let access = table_def(
        "access",
        vec![
            named("block", block_ref()),
            named("timestamp", column(Affinity::Integer)),
        ],
        &[],
    );

    let schema = Schema::new(vec![file, block, access]).unwrap();
    let file: &Table = &schema.tables[0];
    let block: &Table = &schema.tables[1];
    let access: &Table = &schema.tables[2];

    let db = rusqlite::Connection::open_in_memory()?;
    db.pragma_update(None, "foreign_keys", "on")?;
    db.execute_batch(&schema.create_script())?;

    let count = |t: &Table| -> i64 {
        let sql = format!("SELECT COUNT(*) FROM ({})", t.get_all);
        db.query_row(&sql, (), |row| row.get(0)).unwrap()
    };
    assert_eq!(count(file), 0);
    assert_eq!(count(block), 0);
    assert_eq!(count(access), 0);

    // Create File, Block & Access
    db.execute(&file.insert, (None::<i64>, "test.txt", 0o777u16)).unwrap();
    let file_id = db.last_insert_rowid();

    let block_data: &[u8] = b"Test123 :^)";
    db.execute(&block.insert, (0i64, file_id, block_data)).unwrap();

    db.execute(&access.insert, (0i64, file_id, 1690451279i64)).unwrap();

    // Try to create Block for non-existent File
    let err = db
        .execute(&block.insert, (0i64, 10_000i64, Vec::<u8>::new()))
        .unwrap_err();
    assert!(err.to_string().contains("FOREIGN KEY constraint"));

    // Try to create Access for non-existent File, index, & Block
    let err = db
        .execute(&access.insert, (0i64, 10_000i64, 1690451279i64))
        .unwrap_err();
    assert!(err.to_string().contains("FOREIGN KEY constraint"));

    let err = db
        .execute(&access.insert, (10_000i64, file_id, 1690451279i64))
        .unwrap_err();
    assert!(err.to_string().contains("FOREIGN KEY constraint"));

    let err = db
        .execute(&access.insert, (10_000i64, 10_000i64, 1690451279i64))
        .unwrap_err();
    assert!(err.to_string().contains("FOREIGN KEY constraint"));

    // Try to delete File that still has a Block
    let err = db.execute("DELETE FROM file WHERE id = ?", (file_id,)).unwrap_err();
    assert!(err.to_string().contains("FOREIGN KEY constraint"));

    // Try to delete the Block that still has an Access
    let err = db
        .execute("DELETE FROM block WHERE indx = ? AND file = ?", (0i64, file_id))
        .unwrap_err();
    assert!(err.to_string().contains("FOREIGN KEY constraint"));

    // Delete the Access, then delete the Block, then delete the File
    assert_eq!(
        db.execute(
            "DELETE FROM access WHERE block_indx = ? AND block_file = ?",
            (0i64, file_id),
        )
        .unwrap(),
        1
    );
    assert_eq!(
        db.execute("DELETE FROM block WHERE file = ?", (file_id,)).unwrap(),
        1
    );
    db.execute("DELETE FROM file WHERE id = ?", (file_id,)).unwrap();

    Ok(())
}
