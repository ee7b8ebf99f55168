use nj_volume::{extract, NjVolume, INSERT_SQL, TABLE_SQL};
use rusqlite::Connection;

fn store(conn: &Connection, records: &[NjVolume]) {
    for r in records {
        conn.execute(INSERT_SQL, (&r.name, r.subscription, r.transaction, &r.day)).expect("insert");
    }
}

fn count(conn: &Connection) -> i64 {
    conn.query_row("SELECT COUNT(*) FROM njhp", (), |row| row.get(0)).expect("count")
}

fn all_rows(conn: &Connection) -> Vec<(String, u32, u32, String)> {
    let mut stmt = conn.prepare("SELECT name, sub, trans, day FROM njhp ORDER BY rowid").expect("select");
    let rows = stmt
        .query_map((), |row| Ok((row.get(0)?, row.get(1)?, row.get(2)?, row.get(3)?)))
        .expect("query");
    rows.map(|r| r.expect("row")).collect()
}

const PAGE: &str = "<html><body><table><tbody>\
<tr><td>ProjectA</td><td>x</td><td>y</td><td>z</td><td>12</td><td>34</td></tr>\
<tr><td>南京</td><td>x</td><td>y</td><td>z</td><td>4294967295</td><td>0</td></tr>\
</tbody></table></body></html>";

#[test]
fn stored_record_reads_back_unchanged() {
    let conn = Connection::open_in_memory().expect("open");
    conn.execute(TABLE_SQL, ()).expect("table");
    let records = extract(PAGE, "20230620").expect("records");
    store(&conn, &records);
    assert_eq!(
        all_rows(&conn),
        vec![
            ("ProjectA".to_string(), 12, 34, "20230620".to_string()),
            ("南京".to_string(), u32::MAX, 0, "20230620".to_string()),
        ]
    );
}

#[test]
fn running_the_job_twice_doubles_the_rows() {
    let conn = Connection::open_in_memory().expect("open");
    for _ in 0..2 {
        conn.execute(TABLE_SQL, ()).expect("table");
        for day in ["20230620", "20230621"] {
            let records = extract(PAGE, day).expect("records");
            store(&conn, &records);
        }
    }
    assert_eq!(count(&conn), 8);
    let rows = all_rows(&conn);
    assert_eq!(rows[..4], rows[4..]);
}

#[test]
fn creating_the_table_twice_keeps_its_rows() {
    let conn = Connection::open_in_memory().expect("open");
    conn.execute(TABLE_SQL, ()).expect("table");
    store(&conn, &extract(PAGE, "20230620").expect("records"));
    let before = all_rows(&conn);
    conn.execute(TABLE_SQL, ()).expect("table again");
    assert_eq!(all_rows(&conn), before);
    assert_eq!(count(&conn), 2);
}
