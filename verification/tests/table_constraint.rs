use liter::{
    Affinity, Check, ColumnDef, Constraint, Id, NestedValueDef, Schema, Table, TableDef, ValueDef,
};
use rusqlite::OptionalExtension;

fn column(affinity: Affinity, nullable: bool, checks: &[&str]) -> ValueDef {
    let mut cs = Vec::new();
    for c in checks {
        cs.push(Check::Sql((*c).to_string()));
    }
    ValueDef {
        unique: false,
        nullable: false,
        inner: NestedValueDef::Column(ColumnDef { affinity, nullable, checks: cs }),
        reference: None,
        checks: Vec::new(),
    }
}

fn named(name: &str, v: ValueDef) -> (String, ValueDef) {
    (name.to_string(), v)
}

fn table_def(
    name: &str,
    values: Vec<(String, ValueDef)>,
    pk: &[&str],
    constraints: Vec<Constraint>,
) -> TableDef {
    let key: Vec<String> = pk.iter().map(|s| s.to_string()).collect();
    TableDef::new(name.to_string(), values, key, constraints).unwrap()
}

fn open(t: &Table) -> rusqlite::Connection {
    let conn = rusqlite::Connection::open_in_memory().unwrap();
    conn.execute_batch(&t.create_table).unwrap();
    conn
}

#[test]
fn single_primary_key() -> rusqlite::Result<()> {
    let item = Table::new(table_def(
        "item",
        vec![
            named("id", column(Affinity::Integer, false, &[])),
            named("data", column(Affinity::Integer, false, &[])),
        ],
        &["id"],
        Vec::new(),
    ));
    assert!(
        item.create_table.contains("PRIMARY KEY"),
        "definition must include PRIMARY KEY clause"
    );
    let ks = item.key.as_ref().unwrap();

    let db = open(&item);
    let all = |db: &rusqlite::Connection| -> Vec<(i64, i64)> {
        let mut stmt = db.prepare(&item.get_all).unwrap();
        let rows = stmt
            .query_map((), |row| Ok((row.get(0)?, row.get(1)?)))
            .unwrap()
            .collect::<rusqlite::Result<Vec<_>>>()
            .unwrap();
        rows
    };
    assert!(all(&db).is_empty());

    db.execute(&item.insert, (None::<i64>, 123i64))?;
    let id = db.last_insert_rowid();
    assert_ne!(Id::from_u64(id as u64), Id::null(), "inserting must change id");

    db.execute(&item.insert, (id, 123i64)).expect_err(
        "inserting with same Id should violate primary key constraint and fail",
    );

    assert_eq!(db.execute(&ks.update, (id, 99999999i64))?, 1);

    let updated: (i64, i64) = db.query_row(&ks.get_by_key, (id,), |row| {
        Ok((row.get(0)?, row.get(1)?))
    })?;
    assert_eq!(updated, (id, 99999999));

    db.execute(&item.insert, (id, 99999999i64)).expect_err(
        "inserting with same Id should violate primary key constraint and fail",
    );

    // upsert replace
    assert_eq!(db.execute(&ks.upsert, (id, 33333333i64))?, 1);

    let upserted: (i64, i64) = db.query_row(&ks.get_by_key, (id,), |row| {
        Ok((row.get(0)?, row.get(1)?))
    })?;
    assert_eq!(upserted, (id, 33333333));

    assert_eq!(db.execute(&ks.delete, (id,))?, 1);
    let gone: Option<(i64, i64)> = db
        .query_row(&ks.get_by_key, (id,), |row| Ok((row.get(0)?, row.get(1)?)))
        .optional()?;
    assert!(gone.is_none());
    assert!(all(&db).is_empty());

    // upsert uncontested ID
    assert_eq!(db.execute(&ks.upsert, (12345i64, 123456789i64))?, 1);

    let upserted: (i64, i64) = db.query_row(&ks.get_by_key, (12345i64,), |row| {
        Ok((row.get(0)?, row.get(1)?))
    })?;
    assert_eq!(upserted, (12345, 123456789));

    // upsert new (NULL) ID
    assert_eq!(db.execute(&ks.upsert, (None::<i64>, 5i64))?, 1);

    let item_upserted = all(&db).iter().any(|item| item.1 == 5);
    assert!(item_upserted);

    assert_eq!(all(&db).len(), 2);

    Ok(())
}

#[test]
fn composite_primary_key() -> rusqlite::Result<()> {
    let item = Table::new(table_def(
        "item",
        vec![
            named("id", column(Affinity::Integer, false, &[])),
            named("parent_id", column(Affinity::Text, false, &[])),
            named("data", column(Affinity::Integer, false, &[])),
        ],
        &["id", "parent_id"],
        Vec::new(),
    ));
    assert!(
        item.create_table.contains("PRIMARY KEY"),
        "definition must include PRIMARY KEY clause"
    );
    let ks = item.key.as_ref().unwrap();

    let db = open(&item);
    let all = |db: &rusqlite::Connection| -> Vec<(i64, String, i64)> {
        let mut stmt = db.prepare(&item.get_all).unwrap();
        let rows = stmt
            .query_map((), |row| Ok((row.get(0)?, row.get(1)?, row.get(2)?)))
            .unwrap()
            .collect::<rusqlite::Result<Vec<_>>>()
            .unwrap();
        rows
    };
    assert!(all(&db).is_empty());
    let item_row = (10i64, "12".to_string(), 123i64);
    assert_eq!(
        db.execute(&item.insert, (item_row.0, item_row.1.as_str(), item_row.2))?,
        1,
        "failed to insert"
    );

    assert_eq!(all(&db).pop().unwrap(), item_row);

    db.execute(&item.insert, (item_row.0, item_row.1.as_str(), item_row.2)).expect_err(
        "inserting with same key should violate primary key constraint and fail",
    );

    let mut row = all(&db).pop().unwrap();
    row.2 = 999999999;
    assert_eq!(db.execute(&ks.update, (row.0, row.1.as_str(), row.2))?, 1);

    let updated_row = all(&db).pop().unwrap();
    assert_eq!(row, updated_row);

    db.execute(&item.insert, (item_row.0, item_row.1.as_str(), item_row.2)).expect_err(
        "inserting with same key should violate primary key constraint and fail",
    );

    row.2 = 3333333333;
    assert_eq!(db.execute(&ks.upsert, (row.0, row.1.as_str(), row.2))?, 1);

    let upserted_row = all(&db).pop().unwrap();
    assert_eq!(row, upserted_row);

    assert_eq!(db.execute(&ks.delete, (row.0, row.1.as_str()))?, 1);
    let gone: Option<i64> = db
        .query_row(&ks.get_by_key, (row.0, row.1.as_str()), |r| r.get(2))
        .optional()?;
    assert!(gone.is_none());
    assert!(all(&db).is_empty());

    let item_2 = (123i64, "abc".to_string(), 42i64);
    assert_eq!(
        db.execute(&ks.upsert, (item_2.0, item_2.1.as_str(), item_2.2))?,
        1,
        "failed to upsert"
    );
    assert_eq!(all(&db).pop().unwrap(), item_2);

    Ok(())
}

#[test]
fn check() -> rusqlite::Result<()> {
    let item = Table::new(table_def(
        "item",
        vec![
            named("id", column(Affinity::Integer, false, &[])),
            named("data", column(Affinity::Integer, false, &[])),
        ],
        &[],
        vec![
            Constraint::SqlCheck("data <= 9999".to_string()),
            Constraint::SqlCheck("id BETWEEN 5 AND 15".to_string()),
        ],
    ));
    println!("{}", item.create_table);
    assert!(
        item.create_table.contains("CHECK (data <= 9999)"),
        "definition must include CHECK clause"
    );
    assert!(
        item.create_table.contains("CHECK (id BETWEEN 5 AND 15)"),
        "definition must include CHECK clause"
    );

    let db = open(&item);
    let all = |db: &rusqlite::Connection| -> Vec<(i64, i64)> {
        let mut stmt = db.prepare(&item.get_all).unwrap();
        let rows = stmt
            .query_map((), |row| Ok((row.get(0)?, row.get(1)?)))
            .unwrap()
            .collect::<rusqlite::Result<Vec<_>>>()
            .unwrap();
        rows
    };
    assert!(all(&db).is_empty());
    assert_eq!(db.execute(&item.insert, (10i64, 123i64))?, 1, "failed to insert");

    assert_eq!(all(&db).pop().unwrap(), (10, 123));

    db.execute(&item.insert, (12i64, 10_000i64))
        .expect_err("first CHECK constraint should be violated");

    db.execute(&item.insert, (16i64, 9999i64))
        .expect_err("second CHECK constraint should be violated");

    db.execute(&item.insert, (20i64, 3_000_000i64))
        .expect_err("both CHECK constraints should be violated");

    Ok(())
}

#[test]
fn unique() -> rusqlite::Result<()> {
    let on_table = table_def(
        "on_table",
        vec![named("number", column(Affinity::Integer, false, &[]))],
        &[],
        vec![Constraint::Unique(vec![named(
            "number",
            column(Affinity::Integer, false, &[]),
        )])],
    );
    let mut unique_number = column(Affinity::Integer, true, &[]);
    unique_number = unique_number.unique();
    let on_field = table_def(
        "on_field",
        vec![named("number", unique_number)],
        &[],
        Vec::new(),
    );

    let multi = |unique: bool| -> ValueDef {
        let v = ValueDef {
            unique: false,
            nullable: false,
            inner: NestedValueDef::Values(vec![
                named("a", column(Affinity::Integer, false, &[])),
                named("b", column(Affinity::Text, false, &[])),
            ]),
            reference: None,
            checks: Vec::new(),
        };
        if unique {
            v.unique()
        } else {
            v
        }
    };
    let multi_table = table_def(
        "multi_table",
        vec![
            named("field", multi(true)),
            named("table", multi(false)),
            named("x", column(Affinity::Integer, false, &[])),
        ],
        &[],
        vec![
            Constraint::Unique(vec![
                named("field", multi(false)),
                named("table", multi(false)),
                named("x", column(Affinity::Integer, false, &[])),
            ]),
            Constraint::Unique(vec![named("table", multi(false))]),
            Constraint::Unique(vec![named("field", multi(false)), named("table", multi(false))]),
        ],
    );

    let schema = Schema::new(vec![on_table, on_field, multi_table]).unwrap();
    let on_table = &schema.tables[0];
    let on_field = &schema.tables[1];
    let multi_table = &schema.tables[2];

    assert!(
        on_table.create_table.contains("UNIQUE"),
        "definition must include UNIQUE constraint"
    );
    assert!(
        on_field.create_table.contains("number INTEGER UNIQUE"),
        "definition must include inline UNIQUE constraint"
    );

    // check that SQL is valid
    let db = rusqlite::Connection::open_in_memory()?;
    db.execute_batch(&schema.create_script())?;

    let count = |db: &rusqlite::Connection, t: &Table| -> i64 {
        let sql = format!("SELECT COUNT(*) FROM ({})", t.get_all);
        db.query_row(&sql, (), |row| row.get(0)).unwrap()
    };

    assert_eq!(count(&db, on_table), 0);
    assert_eq!(db.execute(&on_table.insert, (9u8,)).unwrap(), 1);
    let opt_item: Option<u8> = db.query_row(&on_table.get_all, (), |row| row.get(0)).optional()?;
    assert_eq!(opt_item, Some(9));

    db.execute(&on_table.insert, (9u8,)).expect_err(
        "inserting the same number should violate unique constraint and fail",
    );

    assert_eq!(count(&db, on_field), 0);
    assert_eq!(db.execute(&on_field.insert, (Some(9u8),)).unwrap(), 1);

    db.execute(&on_field.insert, (Some(9u8),)).expect_err(
        "inserting the same number should violate unique constraint and fail",
    );

    assert_eq!(db.execute(&on_field.insert, (None::<u8>,)).unwrap(), 1);

    let uniques = [
        "UNIQUE (field_a, field_b)",
        "UNIQUE (table_a, table_b)",
        "UNIQUE (field_a, field_b, table_a, table_b)",
        "UNIQUE (field_a, field_b, table_a, table_b, x)",
    ];
    for unique in uniques {
        assert!(
            multi_table.create_table.contains(unique),
            "definition does not include {unique}:\n{}",
            multi_table.create_table
        );
    }

    assert_eq!(count(&db, multi_table), 0);
    let mt = (1u8, "abc123", 2u8, "def456", 123u8);
    assert_eq!(db.execute(&multi_table.insert, mt).unwrap(), 1);
    db.execute(&multi_table.insert, mt).expect_err(
        "inserting the same thing should violate unique constraint and fail",
    );
    let different_x = (mt.0, mt.1, mt.2, mt.3, 124u8);
    db.execute(&multi_table.insert, different_x).expect_err(
        "should violate the unique(field, table) constraint and fail",
    );
    let different_table = (mt.0, mt.1, 99u8, "def456", 124u8);
    db.execute(&multi_table.insert, different_table).expect_err(
        "should violate the unique(field) constraint and fail",
    );
    let new_field_a = (123u8, "abc123", 2u8, "def456", 123u8);
    db.execute(&multi_table.insert, new_field_a).expect_err(
        "should violate the unique(table) constraint and fail",
    );
    let new_table_b_also = (123u8, "abc123", 2u8, "NEW def456", 123u8);
    // now, field AND table are different
    assert_eq!(db.execute(&multi_table.insert, new_table_b_also).unwrap(), 1);

    Ok(())
}
