use tg_storage::storage::models::{FileMeta, FilePart, Folder, StorageError, Thumbnail};
use tg_storage::storage::rows::{folder_name, found, keep_readable, listed_file};
use tg_storage::storage::statements::{
    delete_file, delete_folder, get_file_meta, get_files_by_folder_id, get_folder,
    get_folder_files, get_folder_folders, get_folder_info, get_folder_name, get_folder_sizes,
    get_parent, get_parent_for_folder, get_path_step, get_thumbnail_by_file_id, insert_file,
    insert_folder, insert_part, insert_thumbnail, list_folders, list_folders_by_parent_folder_id,
    list_parts, SqlValue, Statement,
};

fn shown(value: &SqlValue) -> String {
    match value {
        SqlValue::Null => "null".to_string(),
        SqlValue::Integer(n) => format!("{}", n),
        SqlValue::Text(text) => format!("'{}'", text),
        SqlValue::Blob(bytes) => format!("{:?}", bytes),
    }
}

fn check(statement: &Statement, sql: &str, params: &[&str]) {
    assert_eq!(statement.sql, sql);
    let bound: Vec<String> = statement.params.iter().map(shown).collect();
    assert_eq!(bound, params);
}

#[test]
fn statements_that_add() {
    let meta = FileMeta {
        id: 0,
        folder_id: Some(4),
        orig_name: "a.txt".to_string(),
        size: 12,
        mime: None,
        hash_full: vec![1, 2],
        created_at: 99,
    };
    check(
        &insert_file(&meta),
        "INSERT INTO files (folder_id, orig_name, size, mime, hash_full) VALUES (?1, ?2, ?3, ?4, ?5)",
        &["4", "'a.txt'", "12", "null", "[1, 2]"],
    );
    let meta = FileMeta { folder_id: None, mime: Some("text/plain".to_string()), ..meta };
    check(
        &insert_file(&meta),
        "INSERT INTO files (folder_id, orig_name, size, mime, hash_full) VALUES (?1, ?2, ?3, ?4, ?5)",
        &["null", "'a.txt'", "12", "'text/plain'", "[1, 2]"],
    );
    let part = FilePart {
        id: 0,
        file_id: 7,
        part_no: 3,
        size: 55,
        file_id_tg: "tg".to_string(),
        sha256: vec![9],
    };
    check(
        &insert_part(&part),
        "INSERT INTO file_parts (file_id, part_no, size, file_id_tg, sha256) VALUES (?1, ?2, ?3, ?4, ?5)",
        &["7", "3", "55", "'tg'", "[9]"],
    );
    check(
        &insert_folder(Some(1), "docs"),
        "INSERT INTO folders (parent_id, name) VALUES (?1, ?2)",
        &["1", "'docs'"],
    );
    check(
        &insert_folder(None, "docs"),
        "INSERT INTO folders (parent_id, name) VALUES (?1, ?2)",
        &["null", "'docs'"],
    );
    let thumb = Thumbnail {
        id: 0,
        file_id: 7,
        file_id_tg: "th".to_string(),
        width: Some(128),
        height: None,
    };
    check(
        &insert_thumbnail(&thumb),
        "INSERT INTO thumbnails (file_id, file_id_tg, width, height) VALUES (?1, ?2, ?3, ?4)",
        &["7", "'th'", "128", "null"],
    );
}

#[test]
fn statements_that_look_up() {
    check(
        &list_parts(5),
        "SELECT id, file_id, part_no, size, file_id_tg, sha256 FROM file_parts WHERE file_id = ? ORDER BY part_no",
        &["5"],
    );
    check(&get_folder_files(5), "SELECT id FROM files WHERE folder_id = ?1", &["5"]);
    check(&get_folder_folders(5), "SELECT id FROM folders WHERE parent_id = ?1", &["5"]);
    let (files, folders) = get_folder(5);
    check(&files, "SELECT id FROM files WHERE folder_id = ?1", &["5"]);
    check(&folders, "SELECT id FROM folders WHERE parent_id = ?1", &["5"]);
    check(
        &get_file_meta(5),
        "SELECT id, folder_id, orig_name, size, mime, hash_full, created_at FROM files WHERE id = ?1",
        &["5"],
    );
    check(&get_folder_name(5), "SELECT name FROM folders WHERE id = ?1", &["5"]);
    check(&get_folder_info(5), "SELECT id, parent_id, name FROM folders WHERE id = ?1", &["5"]);
    check(&list_folders(), "SELECT id, parent_id, name FROM folders", &[]);
    check(&get_parent(5), "SELECT parent_id FROM folders WHERE id = ?1", &["5"]);
    check(&get_parent_for_folder(5), "SELECT parent_id FROM folders WHERE id = ?1", &["5"]);
    check(
        &get_thumbnail_by_file_id(5),
        "SELECT id, file_id, file_id_tg, width, height FROM thumbnails WHERE file_id = ?1 LIMIT 1",
        &["5"],
    );
    check(&get_path_step(5), "SELECT parent_id, name FROM folders WHERE id = ?1", &["5"]);
    check(&get_folder_sizes(5), "SELECT size FROM files WHERE folder_id = ?1", &["5"]);
}

#[test]
fn statements_for_a_folder_or_the_root() {
    check(
        &list_folders_by_parent_folder_id(Some(2)),
        "SELECT id, parent_id, name FROM folders WHERE parent_id = ?1",
        &["2"],
    );
    check(
        &list_folders_by_parent_folder_id(None),
        "SELECT id, parent_id, name FROM folders WHERE parent_id IS NULL",
        &[],
    );
    check(
        &get_files_by_folder_id(Some(2)),
        "SELECT id, orig_name, size FROM files WHERE folder_id = ?1",
        &["2"],
    );
    check(
        &get_files_by_folder_id(None),
        "SELECT id, orig_name, size FROM files WHERE folder_id IS NULL",
        &[],
    );
}

#[test]
fn statements_that_remove() {
    let statements = delete_file(8);
    assert_eq!(statements.len(), 3);
    check(&statements[0], "DELETE FROM file_parts WHERE file_id = ?1", &["8"]);
    check(&statements[1], "DELETE FROM thumbnails WHERE file_id = ?1", &["8"]);
    check(&statements[2], "DELETE FROM files WHERE id = ?1", &["8"]);
    check(&delete_folder(8), "DELETE FROM folders WHERE id = ?1", &["8"]);
}

#[test]
fn rows_that_cannot_be_read_are_passed_over() {
    assert_eq!(keep_readable(vec![Some(1), None, Some(3), None]), vec![1, 3]);
    assert_eq!(keep_readable::<i64>(vec![None]), Vec::<i64>::new());
    assert_eq!(keep_readable::<i64>(vec![]), Vec::<i64>::new());
}

#[test]
fn a_missing_row_is_not_found() {
    assert_eq!(found(Some(4)).unwrap(), 4);
    assert!(matches!(found::<i64>(None), Err(StorageError::NotFound)));
}

#[test]
fn a_missing_folder_goes_by_the_name_of_all() {
    assert_eq!(folder_name(Some("docs".to_string())), "docs");
    assert_eq!(folder_name(None), "All");
}

#[test]
fn a_listed_file_has_no_thumbnail_yet() {
    assert_eq!(
        listed_file(1, "a".to_string(), 2),
        (1, "a".to_string(), 2, Vec::<u8>::new())
    );
}

#[test]
fn storage_errors_in_words() {
    assert_eq!(StorageError::Sql("x".to_string()).message(), "sqlite: x");
    assert_eq!(StorageError::R2d2("y".to_string()).message(), "r2d2: y");
    assert_eq!(StorageError::NotFound.message(), "not found");
}

#[test]
fn a_folder_is_a_plain_record() {
    let folder = Folder { id: 1, parent_id: None, name: "docs".to_string(), created_at: 2 };
    assert_eq!((folder.id, folder.parent_id, folder.created_at), (1, None, 2));
    assert_eq!(folder.name, "docs");
}
