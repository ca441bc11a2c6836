use liter::{Affinity, Check, ColumnDef, NestedValueDef, Table, TableDef, ValueDef};

fn column(affinity: Affinity, nullable: bool, checks: &[&str]) -> ValueDef {
    let mut cs = Vec::new();
    for c in checks {
        cs.push(Check::Sql((*c).to_string()));
    }
    ValueDef {
        unique: false,
        nullable: false,
        inner: NestedValueDef::Column(ColumnDef { affinity, nullable, checks: cs }),
        reference: None,
        checks: Vec::new(),
    }
}

fn named(name: &str, v: ValueDef) -> (String, ValueDef) {
    (name.to_string(), v)
}

fn table(name: &str, values: Vec<(String, ValueDef)>, pk: &[&str]) -> Table {
    let key: Vec<String> = pk.iter().map(|s| s.to_string()).collect();
    Table::new(TableDef::new(name.to_string(), values, key, Vec::new()).unwrap())
}

fn open(t: &Table) -> rusqlite::Connection {
    let conn = rusqlite::Connection::open_in_memory().unwrap();
    conn.execute_batch(&t.create_table).unwrap();
    conn
}

#[test]
fn primitives() {
    let item = table(
        "item",
        vec![
            named("int", column(Affinity::Integer, false, &[])),
            named("float", column(Affinity::Real, false, &[])),
            named("text", column(Affinity::Text, false, &[])),
            named("blob", column(Affinity::Blob, false, &[])),
        ],
        &[],
    );

    let defs = [
        "int INTEGER NOT NULL",
        "float REAL NOT NULL",
        "text TEXT NOT NULL",
        "blob BLOB NOT NULL",
    ];

    for snippet in defs {
        assert!(
            item.create_table.contains(snippet),
            "Table definition did not contain {snippet:?}",
        );
    }
    let v = (3030i64, f64::INFINITY, ":^)", 999_999u128.to_le_bytes());

    let db = open(&item);

    let reason = "insert None into non-null column";
    db.execute(&item.insert, (None::<u8>, v.1, v.2, v.3)).expect_err(reason);
    db.execute(&item.insert, (v.0, None::<u8>, v.2, v.3)).expect_err(reason);
    db.execute(&item.insert, (v.0, v.1, None::<u8>, v.3)).expect_err(reason);
    db.execute(&item.insert, (v.0, v.1, v.2, None::<u8>)).expect_err(reason);

    db.execute(&item.insert, v).unwrap();

    println!("Checking strict affinity enforcement");
    assert!(item.create_table.contains("STRICT"));

    // Some conversions don't error because SQLite coerces losslessly where
    // it can; these are the ones that must fail under STRICT typing.
    db.execute(&item.insert, (v.0, v.1, v.2, v.0)).expect_err("int => blob");
    // this one only fails because the real happens to be INFINITY
    db.execute(&item.insert, (v.1, v.1, v.2, v.3)).expect_err("real => int");
    db.execute(&item.insert, (v.0, v.1, v.2, v.1)).expect_err("real => blob");
    db.execute(&item.insert, (v.2, v.1, v.2, v.3)).expect_err("text => int");
    db.execute(&item.insert, (v.0, v.2, v.2, v.3)).expect_err("text => real");
    db.execute(&item.insert, (v.0, v.1, v.2, v.2)).expect_err("text => blob");
    db.execute(&item.insert, (v.3, v.1, v.2, v.3)).expect_err("blob => int");
    db.execute(&item.insert, (v.0, v.3, v.2, v.3)).expect_err("blob => real");
    db.execute(&item.insert, (v.0, v.1, v.3, v.3)).expect_err("blob => text");
}

#[test]
fn nullable() {
    let item = table(
        "item",
        vec![
            named("int", column(Affinity::Integer, true, &[])),
            named("float", column(Affinity::Real, true, &[])),
            named("text", column(Affinity::Text, true, &[])),
            named("blob", column(Affinity::Blob, true, &[])),
        ],
        &[],
    );

    let defs = ["int INTEGER", "float REAL", "text TEXT", "blob BLOB"];

    for snippet in defs {
        assert!(
            item.create_table.contains(snippet),
            "Table definition did not contain {snippet:?}",
        );
    }
    assert!(!item.create_table.contains("NOT NULL"));

    let db = open(&item);
    db.execute(&item.insert, (None::<i64>, None::<f64>, None::<String>, None::<Vec<u8>>))
        .unwrap();
}

#[test]
fn check_even_number() {
    let item = table(
        "item",
        vec![named("even", column(Affinity::Integer, false, &["% 2 = 0", ">= 0"]))],
        &[],
    );
    println!("{}", item.create_table);
    assert!(item.create_table.contains("even % 2 = 0"));

    let db = open(&item);

    for i in 0..16i64 {
        println!("{i}");
        if i % 2 == 0 {
            db.execute(&item.insert, (i,)).unwrap();
        } else {
            db.execute(&item.insert, (i,)).unwrap_err();
        }
    }
    db.execute("INSERT INTO item VALUES (?)", (-2i64,)).unwrap_err();
}

#[test]
fn check_short_string() {
    let item = table(
        "item",
        vec![named(
            "short",
            column(Affinity::Text, false, &["NOT LIKE \"__________%\""]),
        )],
        &[],
    );
    assert!(item.create_table.contains("short NOT LIKE"));

    let db = open(&item);

    let fit = ["short", "ShortStr", "", "a", "123456789"];
    for s in fit {
        db.execute(&item.insert, (s,)).expect(s);
    }
    let dont_fit = [
        "not quite short enough",
        "ShortString",
        "1234567890",
        "12345678901",
        "VeryLongString",
    ];
    for s in dont_fit {
        db.execute(&item.insert, (s,)).expect_err(s);
    }
}
