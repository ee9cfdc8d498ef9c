use rusqlite::types::Value;
use rusqlite::{params_from_iter, Connection};

use tg_storage::storage::models::{FileMeta, FilePart, Thumbnail};
use tg_storage::storage::statements::{
    delete_file, delete_folder, get_file_meta, get_files_by_folder_id, get_folder,
    get_folder_info, get_folder_name, get_folder_sizes, get_parent, get_path_step,
    get_thumbnail_by_file_id, insert_file, insert_folder, insert_part, insert_thumbnail,
    list_folders, list_folders_by_parent_folder_id, list_parts, SqlValue, Statement,
    SCHEMA,
};
use tg_storage::walk::path::{PathStep, PathWalk};

fn open() -> Connection {
    let conn = Connection::open_in_memory().unwrap();
    conn.execute_batch(SCHEMA).unwrap();
    conn
}

fn value(value: &SqlValue) -> Value {
    match value {
        SqlValue::Null => Value::Null,
        SqlValue::Integer(n) => Value::Integer(*n),
        SqlValue::Text(text) => Value::Text(text.clone()),
        SqlValue::Blob(bytes) => Value::Blob(bytes.clone()),
    }
}

fn run(conn: &Connection, statement: &Statement) -> i64 {
    conn.execute(statement.sql, params_from_iter(statement.params.iter().map(value))).unwrap();
    conn.last_insert_rowid()
}

fn rows(conn: &Connection, statement: &Statement) -> Vec<Vec<Value>> {
    let mut prepared = conn.prepare(statement.sql).unwrap();
    let columns = prepared.column_count();
    let mut found = prepared
        .query(params_from_iter(statement.params.iter().map(value)))
        .unwrap();
    let mut all = Vec::new();
    while let Some(row) = found.next().unwrap() {
        let mut values = Vec::new();
        for i in 0..columns {
            values.push(row.get::<usize, Value>(i).unwrap());
        }
        all.push(values);
    }
    all
}

fn number(n: i64) -> Value {
    Value::Integer(n)
}

fn text(s: &str) -> Value {
    Value::Text(s.to_string())
}

fn file(folder: Option<i64>, name: &str, size: i64) -> FileMeta {
    FileMeta {
        id: 0,
        folder_id: folder,
        orig_name: name.to_string(),
        size,
        mime: None,
        hash_full: vec![],
        created_at: 0,
    }
}

fn part(file_id: i64, part_no: i32, name: &str) -> FilePart {
    FilePart {
        id: 0,
        file_id,
        part_no,
        size: 1,
        file_id_tg: name.to_string(),
        sha256: vec![part_no as u8],
    }
}

#[test]
fn folders_are_kept() {
    let conn = open();
    let docs = run(&conn, &insert_folder(None, "docs"));
    let work = run(&conn, &insert_folder(Some(docs), "work"));
    assert_eq!(
        rows(&conn, &list_folders()),
        vec![
            vec![number(docs), Value::Null, text("docs")],
            vec![number(work), number(docs), text("work")],
        ]
    );
    assert_eq!(
        rows(&conn, &list_folders_by_parent_folder_id(None)),
        vec![vec![number(docs), Value::Null, text("docs")]]
    );
    assert_eq!(
        rows(&conn, &list_folders_by_parent_folder_id(Some(docs))),
        vec![vec![number(work), number(docs), text("work")]]
    );
    assert_eq!(rows(&conn, &get_folder_name(work)), vec![vec![text("work")]]);
    assert_eq!(rows(&conn, &get_folder_info(work)), vec![vec![number(work), number(docs), text("work")]]);
    assert_eq!(rows(&conn, &get_parent(work)), vec![vec![number(docs)]]);
    assert_eq!(rows(&conn, &get_parent(docs)), vec![vec![Value::Null]]);
    assert!(rows(&conn, &get_parent(77)).is_empty());
    run(&conn, &delete_folder(work));
    assert!(rows(&conn, &get_folder_info(work)).is_empty());
    assert_eq!(rows(&conn, &get_folder_info(docs)).len(), 1);
}

#[test]
fn files_are_kept() {
    let conn = open();
    let docs = run(&conn, &insert_folder(None, "docs"));
    let a = run(&conn, &insert_file(&file(Some(docs), "a.txt", 10)));
    let b = run(&conn, &insert_file(&file(None, "b.txt", 20)));
    assert_eq!(
        rows(&conn, &get_files_by_folder_id(Some(docs))),
        vec![vec![number(a), text("a.txt"), number(10)]]
    );
    assert_eq!(
        rows(&conn, &get_files_by_folder_id(None)),
        vec![vec![number(b), text("b.txt"), number(20)]]
    );
    let meta = rows(&conn, &get_file_meta(a));
    assert_eq!(
        meta[0][..6],
        [number(a), number(docs), text("a.txt"), number(10), Value::Null, Value::Blob(vec![])]
    );
    assert_eq!(rows(&conn, &get_folder_sizes(docs)), vec![vec![number(10)]]);
    let (files, folders) = get_folder(docs);
    assert_eq!(rows(&conn, &files), vec![vec![number(a)]]);
    assert!(rows(&conn, &folders).is_empty());
}

#[test]
fn parts_are_listed_by_their_number() {
    let conn = open();
    let a = run(&conn, &insert_file(&file(None, "a", 3)));
    for n in [2, 0, 1] {
        run(&conn, &insert_part(&part(a, n, "tg")));
    }
    let listed = rows(&conn, &list_parts(a));
    let numbers: Vec<Value> = listed.iter().map(|row| row[2].clone()).collect();
    assert_eq!(numbers, vec![number(0), number(1), number(2)]);
    assert_eq!(listed[1][1..], [number(a), number(1), number(1), text("tg"), Value::Blob(vec![1])]);
}

#[test]
fn a_removed_file_is_gone_with_its_parts_and_thumbnails() {
    let conn = open();
    let a = run(&conn, &insert_file(&file(None, "a", 3)));
    let b = run(&conn, &insert_file(&file(None, "b", 3)));
    for id in [a, b] {
        run(&conn, &insert_part(&part(id, 0, "tg")));
        let thumb = Thumbnail {
            id: 0,
            file_id: id,
            file_id_tg: "th".to_string(),
            width: Some(64),
            height: Some(128),
        };
        run(&conn, &insert_thumbnail(&thumb));
    }
    assert_eq!(
        rows(&conn, &get_thumbnail_by_file_id(a))[0][1..],
        [number(a), text("th"), number(64), number(128)]
    );
    for statement in delete_file(a) {
        run(&conn, &statement);
    }
    assert!(rows(&conn, &list_parts(a)).is_empty());
    assert!(rows(&conn, &get_thumbnail_by_file_id(a)).is_empty());
    assert!(rows(&conn, &get_file_meta(a)).is_empty());
    assert_eq!(rows(&conn, &list_parts(b)).len(), 1);
    assert_eq!(rows(&conn, &get_thumbnail_by_file_id(b)).len(), 1);
    assert_eq!(rows(&conn, &get_file_meta(b)).len(), 1);
}

#[test]
fn the_path_to_a_folder() {
    let conn = open();
    let a = run(&conn, &insert_folder(None, "a"));
    let b = run(&conn, &insert_folder(Some(a), "b"));
    let c = run(&conn, &insert_folder(Some(b), "c"));
    let mut step = PathWalk::start(c);
    let path = loop {
        match step {
            PathStep::Done(path) => break path,
            PathStep::Find(walk, id) => {
                let row = rows(&conn, &get_path_step(id)).pop().map(|row| {
                    let parent = match row[0] {
                        Value::Integer(n) => Some(n),
                        _ => None,
                    };
                    let name = match &row[1] {
                        Value::Text(name) => name.clone(),
                        other => panic!("{:?}", other),
                    };
                    (parent, name)
                });
                step = walk.found(row);
            }
        }
    };
    assert_eq!(path, "a/b/c");
}

#[test]
fn tables_are_made_where_they_are_missing() {
    let conn = open();
    run(&conn, &insert_folder(None, "kept"));
    conn.execute_batch(SCHEMA).unwrap();
    assert_eq!(rows(&conn, &list_folders()).len(), 1);
}

#[test]
fn what_is_in_a_folder_goes_with_it() {
    let conn = open();
    conn.execute_batch("PRAGMA foreign_keys = ON").unwrap();
    let top = run(&conn, &insert_folder(None, "top"));
    let sub = run(&conn, &insert_folder(Some(top), "sub"));
    let id = run(&conn, &insert_file(&file(Some(sub), "a", 1)));
    run(&conn, &insert_part(&part(id, 0, "tg")));
    run(&conn, &delete_folder(top));
    assert!(rows(&conn, &get_folder_name(sub)).is_empty());
    assert!(rows(&conn, &get_file_meta(id)).is_empty());
    assert!(rows(&conn, &list_parts(id)).is_empty());
}

#[test]
fn no_file_has_two_parts_of_one_number() {
    let conn = open();
    let id = run(&conn, &insert_file(&file(None, "a", 1)));
    run(&conn, &insert_part(&part(id, 0, "first")));
    let again = insert_part(&part(id, 0, "second"));
    let outcome = conn.execute(again.sql, params_from_iter(again.params.iter().map(value)));
    assert!(outcome.is_err());
}
