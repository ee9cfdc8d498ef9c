//! The statements that are put to the database, with the values bound to their parameters.

use vstd::prelude::*;

use super::models::{FileMeta, FilePart, Thumbnail};

verus! {

/// The tables that the statements are put to, each made where it is missing. What is in a folder
/// goes with the folder, the parts and the thumbnail of a file go with the file, and no file has two
/// parts of one number.
pub const SCHEMA: &'static str = "
    CREATE TABLE IF NOT EXISTS folders (
        id              INTEGER PRIMARY KEY AUTOINCREMENT,
        parent_id       INTEGER REFERENCES folders(id) ON DELETE CASCADE,
        name            TEXT NOT NULL,
        created_at      INTEGER NOT NULL DEFAULT (strftime('%s','now'))
    );
    CREATE TABLE IF NOT EXISTS files (
        id              INTEGER PRIMARY KEY AUTOINCREMENT,
        folder_id       INTEGER REFERENCES folders(id) ON DELETE CASCADE,
        orig_name       TEXT NOT NULL,
        size            INTEGER NOT NULL,
        mime            TEXT,
        hash_full       BLOB NOT NULL,
        salt            BLOB NOT NULL DEFAULT x'',
        created_at      INTEGER NOT NULL DEFAULT (strftime('%s','now'))
    );
    CREATE TABLE IF NOT EXISTS file_parts (
        id              INTEGER PRIMARY KEY AUTOINCREMENT,
        file_id         INTEGER REFERENCES files(id) ON DELETE CASCADE,
        part_no         INTEGER NOT NULL,
        size            INTEGER NOT NULL,
        file_id_tg      TEXT NOT NULL,
        sha256          BLOB NOT NULL,
        salt            BLOB NOT NULL DEFAULT x'',
        UNIQUE(file_id, part_no)
    );
    CREATE TABLE IF NOT EXISTS thumbnails (
        id              INTEGER PRIMARY KEY AUTOINCREMENT,
        file_id         INTEGER REFERENCES files(id) ON DELETE CASCADE,
        file_id_tg      TEXT NOT NULL,
        width           INTEGER,
        height          INTEGER
    );
";

/// A value bound to a parameter of a statement.
#[derive(Debug)]
pub enum SqlValue {
    Null,
    Integer(i64),
    Text(String),
    Blob(Vec<u8>),
}

/// A statement and the values of its parameters, in order.
#[derive(Debug)]
pub struct Statement {
    pub sql: &'static str,
    pub params: Vec<SqlValue>,
}

/// A bound value as a mathematical value.
pub enum SqlValueView {
    Null,
    Integer(i64),
    Text(Seq<char>),
    Blob(Seq<u8>),
}

/// A statement as mathematical values.
pub struct StatementView {
    pub sql: Seq<char>,
    pub params: Seq<SqlValueView>,
}

impl View for SqlValue {
    type V = SqlValueView;

    open spec fn view(&self) -> SqlValueView {
        match self {
            SqlValue::Null => SqlValueView::Null,
            SqlValue::Integer(n) => SqlValueView::Integer(*n),
            SqlValue::Text(text) => SqlValueView::Text(text@),
            SqlValue::Blob(bytes) => SqlValueView::Blob(bytes@),
        }
    }
}

impl View for Statement {
    type V = StatementView;

    open spec fn view(&self) -> StatementView {
        StatementView { sql: self.sql@, params: self.params@.map_values(|v: SqlValue| v@) }
    }
}

/// A number, or the null value where there is none.
pub open spec fn integer_or_null(n: Option<i64>) -> SqlValueView {
    match n {
        Some(value) => SqlValueView::Integer(value),
        None => SqlValueView::Null,
    }
}

/// A small number, or the null value where there is none.
pub open spec fn small_or_null(n: Option<i32>) -> SqlValueView {
    match n {
        Some(value) => SqlValueView::Integer(value as i64),
        None => SqlValueView::Null,
    }
}

/// A text, or the null value where there is none.
pub open spec fn text_or_null(text: Option<Seq<char>>) -> SqlValueView {
    match text {
        Some(value) => SqlValueView::Text(value),
        None => SqlValueView::Null,
    }
}

fn optional_integer(n: Option<i64>) -> (value: SqlValue)
    ensures
        value@ == integer_or_null(n),
{
    match n {
        Some(v) => SqlValue::Integer(v),
        None => SqlValue::Null,
    }
}

fn optional_small(n: Option<i32>) -> (value: SqlValue)
    ensures
        value@ == small_or_null(n),
{
    match n {
        Some(v) => SqlValue::Integer(v as i64),
        None => SqlValue::Null,
    }
}

fn optional_string(text: &Option<String>) -> (value: SqlValue)
    ensures
        value@ == text_or_null(crate::text::optional_text(*text)),
{
    match text {
        Some(t) => SqlValue::Text(t.clone()),
        None => SqlValue::Null,
    }
}

/// Adds a file. The database gives it its number and its date.
pub fn insert_file(meta: &FileMeta) -> (statement: Statement)
    ensures
        statement@.sql == "INSERT INTO files (folder_id, orig_name, size, mime, hash_full) VALUES (?1, ?2, ?3, ?4, ?5)"@,
        statement@.params == seq![
            integer_or_null(meta.folder_id),
            SqlValueView::Text(meta.orig_name@),
            SqlValueView::Integer(meta.size),
            text_or_null(meta@.mime),
            SqlValueView::Blob(meta.hash_full@),
        ],
{
    let mut params: Vec<SqlValue> = Vec::new();
    params.push(optional_integer(meta.folder_id));
    params.push(SqlValue::Text(meta.orig_name.clone()));
    params.push(SqlValue::Integer(meta.size));
    params.push(optional_string(&meta.mime));
    params.push(SqlValue::Blob(vstd::slice::slice_to_vec(meta.hash_full.as_slice())));
    let statement: Statement = Statement {
        sql: "INSERT INTO files (folder_id, orig_name, size, mime, hash_full) VALUES (?1, ?2, ?3, ?4, ?5)",
        params,
    };
    assert(statement@.params =~= seq![
        integer_or_null(meta.folder_id),
        SqlValueView::Text(meta.orig_name@),
        SqlValueView::Integer(meta.size),
        text_or_null(meta@.mime),
        SqlValueView::Blob(meta.hash_full@),
    ]);
    statement
}

/// Adds a part of a file. The database gives it its number.
pub fn insert_part(part: &FilePart) -> (statement: Statement)
    ensures
        statement@.sql == "INSERT INTO file_parts (file_id, part_no, size, file_id_tg, sha256) VALUES (?1, ?2, ?3, ?4, ?5)"@,
        statement@.params == seq![
            SqlValueView::Integer(part.file_id),
            SqlValueView::Integer(part.part_no as i64),
            SqlValueView::Integer(part.size),
            SqlValueView::Text(part.file_id_tg@),
            SqlValueView::Blob(part.sha256@),
        ],
{
    let mut params: Vec<SqlValue> = Vec::new();
    params.push(SqlValue::Integer(part.file_id));
    params.push(SqlValue::Integer(part.part_no as i64));
    params.push(SqlValue::Integer(part.size));
    params.push(SqlValue::Text(part.file_id_tg.clone()));
    params.push(SqlValue::Blob(vstd::slice::slice_to_vec(part.sha256.as_slice())));
    let statement: Statement = Statement {
        sql: "INSERT INTO file_parts (file_id, part_no, size, file_id_tg, sha256) VALUES (?1, ?2, ?3, ?4, ?5)",
        params,
    };
    assert(statement@.params =~= seq![
        SqlValueView::Integer(part.file_id),
        SqlValueView::Integer(part.part_no as i64),
        SqlValueView::Integer(part.size),
        SqlValueView::Text(part.file_id_tg@),
        SqlValueView::Blob(part.sha256@),
    ]);
    statement
}

/// Lists the parts of a file in the order of their numbers.
pub fn list_parts(file_id: i64) -> (statement: Statement)
    ensures
        statement@.sql == "SELECT id, file_id, part_no, size, file_id_tg, sha256 FROM file_parts WHERE file_id = ? ORDER BY part_no"@,
        statement@.params == seq![SqlValueView::Integer(file_id)],
{
    by_number("SELECT id, file_id, part_no, size, file_id_tg, sha256 FROM file_parts WHERE file_id = ? ORDER BY part_no", file_id)
}

/// Adds a folder. The database gives it its number and its date.
pub fn insert_folder(parent_id: Option<i64>, name: &str) -> (statement: Statement)
    ensures
        statement@.sql == "INSERT INTO folders (parent_id, name) VALUES (?1, ?2)"@,
        statement@.params == seq![
            integer_or_null(parent_id),
            SqlValueView::Text(name@),
        ],
{
    let mut params: Vec<SqlValue> = Vec::new();
    params.push(optional_integer(parent_id));
    params.push(SqlValue::Text(name.to_string()));
    let statement: Statement = Statement {
        sql: "INSERT INTO folders (parent_id, name) VALUES (?1, ?2)",
        params,
    };
    assert(statement@.params =~= seq![
        integer_or_null(parent_id),
        SqlValueView::Text(name@),
    ]);
    statement
}

/// Lists the numbers of the files that stand in a folder.
pub fn get_folder_files(folder_id: i64) -> (statement: Statement)
    ensures
        statement@.sql == "SELECT id FROM files WHERE folder_id = ?1"@,
        statement@.params == seq![SqlValueView::Integer(folder_id)],
{
    by_number("SELECT id FROM files WHERE folder_id = ?1", folder_id)
}

/// Lists the numbers of the folders that stand in a folder.
pub fn get_folder_folders(folder_id: i64) -> (statement: Statement)
    ensures
        statement@.sql == "SELECT id FROM folders WHERE parent_id = ?1"@,
        statement@.params == seq![SqlValueView::Integer(folder_id)],
{
    by_number("SELECT id FROM folders WHERE parent_id = ?1", folder_id)
}

/// Looks up a file.
pub fn get_file_meta(file_id: i64) -> (statement: Statement)
    ensures
        statement@.sql == "SELECT id, folder_id, orig_name, size, mime, hash_full, created_at FROM files WHERE id = ?1"@,
        statement@.params == seq![SqlValueView::Integer(file_id)],
{
    by_number("SELECT id, folder_id, orig_name, size, mime, hash_full, created_at FROM files WHERE id = ?1", file_id)
}

/// Looks up the name of a folder.
pub fn get_folder_name(folder_id: i64) -> (statement: Statement)
    ensures
        statement@.sql == "SELECT name FROM folders WHERE id = ?1"@,
        statement@.params == seq![SqlValueView::Integer(folder_id)],
{
    by_number("SELECT name FROM folders WHERE id = ?1", folder_id)
}

/// Looks up the number, the parent and the name of a folder.
pub fn get_folder_info(folder_id: i64) -> (statement: Statement)
    ensures
        statement@.sql == "SELECT id, parent_id, name FROM folders WHERE id = ?1"@,
        statement@.params == seq![SqlValueView::Integer(folder_id)],
{
    by_number("SELECT id, parent_id, name FROM folders WHERE id = ?1", folder_id)
}

/// Lists the numbers, parents and names of all folders.
pub fn list_folders() -> (statement: Statement)
    ensures
        statement@.sql == "SELECT id, parent_id, name FROM folders"@,
        statement@.params.len() == 0,
{
    let mut params: Vec<SqlValue> = Vec::new();
    let statement: Statement = Statement {
        sql: "SELECT id, parent_id, name FROM folders",
        params,
    };
    statement
}

/// The statement that looks up the parent of a folder.
pub open spec fn parent_lookup(folder_id: i64) -> StatementView {
    StatementView {
        sql: "SELECT parent_id FROM folders WHERE id = ?1"@,
        params: seq![SqlValueView::Integer(folder_id)],
    }
}

/// Looks up the parent of a folder.
pub fn get_parent(folder_id: i64) -> (statement: Statement)
    ensures
        statement@ == parent_lookup(folder_id),
        statement@.sql == "SELECT parent_id FROM folders WHERE id = ?1"@,
        statement@.params == seq![SqlValueView::Integer(folder_id)],
{
    by_number("SELECT parent_id FROM folders WHERE id = ?1", folder_id)
}

/// Looks up the parent of a folder, as `get_parent` does.
pub fn get_parent_for_folder(folder_id: i64) -> (statement: Statement)
    ensures
        statement@ == parent_lookup(folder_id),
        statement@.sql == "SELECT parent_id FROM folders WHERE id = ?1"@,
        statement@.params == seq![SqlValueView::Integer(folder_id)],
{
    by_number("SELECT parent_id FROM folders WHERE id = ?1", folder_id)
}

/// Adds a thumbnail. The database gives it its number.
pub fn insert_thumbnail(thumb: &Thumbnail) -> (statement: Statement)
    ensures
        statement@.sql == "INSERT INTO thumbnails (file_id, file_id_tg, width, height) VALUES (?1, ?2, ?3, ?4)"@,
        statement@.params == seq![
            SqlValueView::Integer(thumb.file_id),
            SqlValueView::Text(thumb.file_id_tg@),
            small_or_null(thumb.width),
            small_or_null(thumb.height),
        ],
{
    let mut params: Vec<SqlValue> = Vec::new();
    params.push(SqlValue::Integer(thumb.file_id));
    params.push(SqlValue::Text(thumb.file_id_tg.clone()));
    params.push(optional_small(thumb.width));
    params.push(optional_small(thumb.height));
    let statement: Statement = Statement {
        sql: "INSERT INTO thumbnails (file_id, file_id_tg, width, height) VALUES (?1, ?2, ?3, ?4)",
        params,
    };
    assert(statement@.params =~= seq![
        SqlValueView::Integer(thumb.file_id),
        SqlValueView::Text(thumb.file_id_tg@),
        small_or_null(thumb.width),
        small_or_null(thumb.height),
    ]);
    statement
}

/// Looks up one thumbnail of a file.
pub fn get_thumbnail_by_file_id(file_id: i64) -> (statement: Statement)
    ensures
        statement@.sql == "SELECT id, file_id, file_id_tg, width, height FROM thumbnails WHERE file_id = ?1 LIMIT 1"@,
        statement@.params == seq![SqlValueView::Integer(file_id)],
{
    by_number("SELECT id, file_id, file_id_tg, width, height FROM thumbnails WHERE file_id = ?1 LIMIT 1", file_id)
}

/// Looks up the parent and the name of a folder on the way to the root.
pub fn get_path_step(folder_id: i64) -> (statement: Statement)
    ensures
        statement@.sql == "SELECT parent_id, name FROM folders WHERE id = ?1"@,
        statement@.params == seq![SqlValueView::Integer(folder_id)],
{
    by_number("SELECT parent_id, name FROM folders WHERE id = ?1", folder_id)
}

/// Removes a folder and nothing else.
pub fn delete_folder(folder_id: i64) -> (statement: Statement)
    ensures
        statement@.sql == "DELETE FROM folders WHERE id = ?1"@,
        statement@.params == seq![SqlValueView::Integer(folder_id)],
{
    by_number("DELETE FROM folders WHERE id = ?1", folder_id)
}

/// Lists the sizes of the files that stand in a folder.
pub fn get_folder_sizes(folder_id: i64) -> (statement: Statement)
    ensures
        statement@.sql == "SELECT size FROM files WHERE folder_id = ?1"@,
        statement@.params == seq![SqlValueView::Integer(folder_id)],
{
    by_number("SELECT size FROM files WHERE folder_id = ?1", folder_id)
}

/// Lists the folders that stand in a folder, or those at the root.
pub fn list_folders_by_parent_folder_id(parent_id: Option<i64>) -> (statement: Statement)
    ensures
        match parent_id {
            Some(id) => {
                &&& statement@.sql == "SELECT id, parent_id, name FROM folders WHERE parent_id = ?1"@
                &&& statement@.params == seq![SqlValueView::Integer(id)]
            },
            None => {
                &&& statement@.sql == "SELECT id, parent_id, name FROM folders WHERE parent_id IS NULL"@
                &&& statement@.params.len() == 0
            },
        },
{
    match parent_id {
        Some(id) => {
            let mut params: Vec<SqlValue> = Vec::new();
            params.push(SqlValue::Integer(id));
            let statement: Statement = Statement {
                sql: "SELECT id, parent_id, name FROM folders WHERE parent_id = ?1",
                params,
            };
            assert(statement@.params =~= seq![SqlValueView::Integer(id)]);
            statement
        },
        None => Statement {
            sql: "SELECT id, parent_id, name FROM folders WHERE parent_id IS NULL",
            params: Vec::new(),
        },
    }
}

/// Lists the files that stand in a folder, or those at the root.
pub fn get_files_by_folder_id(parent_id: Option<i64>) -> (statement: Statement)
    ensures
        match parent_id {
            Some(id) => {
                &&& statement@.sql == "SELECT id, orig_name, size FROM files WHERE folder_id = ?1"@
                &&& statement@.params == seq![SqlValueView::Integer(id)]
            },
            None => {
                &&& statement@.sql == "SELECT id, orig_name, size FROM files WHERE folder_id IS NULL"@
                &&& statement@.params.len() == 0
            },
        },
{
    match parent_id {
        Some(id) => {
            let mut params: Vec<SqlValue> = Vec::new();
            params.push(SqlValue::Integer(id));
            let statement: Statement = Statement {
                sql: "SELECT id, orig_name, size FROM files WHERE folder_id = ?1",
                params,
            };
            assert(statement@.params =~= seq![SqlValueView::Integer(id)]);
            statement
        },
        None => Statement {
            sql: "SELECT id, orig_name, size FROM files WHERE folder_id IS NULL",
            params: Vec::new(),
        },
    }
}

/// The files and the folders that stand in a folder: the statements that list their numbers.
pub fn get_folder(folder_id: i64) -> (statements: (Statement, Statement))
    ensures
        statements.0@.sql == "SELECT id FROM files WHERE folder_id = ?1"@,
        statements.0@.params == seq![SqlValueView::Integer(folder_id)],
        statements.1@.sql == "SELECT id FROM folders WHERE parent_id = ?1"@,
        statements.1@.params == seq![SqlValueView::Integer(folder_id)],
{
    (get_folder_files(folder_id), get_folder_folders(folder_id))
}

/// Removes a file: first its parts, then its thumbnails, and the file itself last.
pub fn delete_file(file_id: i64) -> (statements: Vec<Statement>)
    ensures
        statements@.len() == 3,
        statements@[0]@.sql == "DELETE FROM file_parts WHERE file_id = ?1"@,
        statements@[1]@.sql == "DELETE FROM thumbnails WHERE file_id = ?1"@,
        statements@[2]@.sql == "DELETE FROM files WHERE id = ?1"@,
        forall|i: int|
            0 <= i < 3 ==> (#[trigger] statements@[i])@.params == seq![
                SqlValueView::Integer(file_id),
            ],
{
    let mut statements: Vec<Statement> = Vec::new();
    statements.push(by_number("DELETE FROM file_parts WHERE file_id = ?1", file_id));
    statements.push(by_number("DELETE FROM thumbnails WHERE file_id = ?1", file_id));
    statements.push(by_number("DELETE FROM files WHERE id = ?1", file_id));
    statements
}

/// A statement with one number for its parameter.
fn by_number(sql: &'static str, id: i64) -> (statement: Statement)
    ensures
        statement@.sql == sql@,
        statement@.params == seq![SqlValueView::Integer(id)],
{
    let mut params: Vec<SqlValue> = Vec::new();
    params.push(SqlValue::Integer(id));
    let statement: Statement = Statement { sql, params };
    assert(statement@.params =~= seq![SqlValueView::Integer(id)]);
    statement
}

/// A value that is there is bound as it is, and one that is not as the null value.
pub proof fn law_missing_values_are_null(n: i64, small: i32, text: Seq<char>)
    ensures
        integer_or_null(Some(n)) == SqlValueView::Integer(n),
        integer_or_null(None) == SqlValueView::Null,
        small_or_null(Some(small)) matches SqlValueView::Integer(wide) && wide == small,
        small_or_null(None) == SqlValueView::Null,
        text_or_null(Some(text)) == SqlValueView::Text(text),
        text_or_null(None) == SqlValueView::Null,
{
}

}
