//! The records of the catalogue.

use vstd::prelude::*;

use crate::text::optional_text;

verus! {

/// What can go wrong with the catalogue.
#[derive(Debug)]
pub enum StorageError {
    /// The database refused a statement.
    Sql(String),
    /// No connection to the database could be had.
    R2d2(String),
    /// There is no such record.
    NotFound,
}

/// A `StorageError` with its text.
pub enum StorageErrorView {
    Sql(Seq<char>),
    R2d2(Seq<char>),
    NotFound,
}

impl View for StorageError {
    type V = StorageErrorView;

    open spec fn view(&self) -> StorageErrorView {
        match self {
            StorageError::Sql(text) => StorageErrorView::Sql(text@),
            StorageError::R2d2(text) => StorageErrorView::R2d2(text@),
            StorageError::NotFound => StorageErrorView::NotFound,
        }
    }
}

impl StorageError {
    /// The error in words.
    pub fn message(&self) -> (text: String)
        ensures
            text@ == match self@ {
                StorageErrorView::Sql(cause) => "sqlite: "@ + cause,
                StorageErrorView::R2d2(cause) => "r2d2: "@ + cause,
                StorageErrorView::NotFound => "not found"@,
            },
    {
        match self {
            StorageError::Sql(cause) => {
                let mut text: String = "sqlite: ".to_string();
                text.append(cause.as_str());
                text
            },
            StorageError::R2d2(cause) => {
                let mut text: String = "r2d2: ".to_string();
                text.append(cause.as_str());
                text
            },
            StorageError::NotFound => "not found".to_string(),
        }
    }
}

/// A folder. One without a parent stands at the root.
#[derive(Debug)]
pub struct Folder {
    pub id: i64,
    pub parent_id: Option<i64>,
    pub name: String,
    pub created_at: i64,
}

/// A file. One without a folder stands at the root.
#[derive(Debug)]
pub struct FileMeta {
    pub id: i64,
    pub folder_id: Option<i64>,
    pub orig_name: String,
    pub size: i64,
    pub mime: Option<String>,
    pub hash_full: Vec<u8>,
    pub created_at: i64,
}

/// A part of a file, and the name under which the chat service keeps it.
#[derive(Debug)]
pub struct FilePart {
    pub id: i64,
    pub file_id: i64,
    pub part_no: i32,
    pub size: i64,
    pub file_id_tg: String,
    pub sha256: Vec<u8>,
}

/// A small picture of a file, and the name under which the chat service keeps it.
#[derive(Debug)]
pub struct Thumbnail {
    pub id: i64,
    pub file_id: i64,
    pub file_id_tg: String,
    pub width: Option<i32>,
    pub height: Option<i32>,
}

/// A file as mathematical values.
pub struct FileMetaView {
    pub id: i64,
    pub folder_id: Option<i64>,
    pub orig_name: Seq<char>,
    pub size: i64,
    pub mime: Option<Seq<char>>,
    pub hash_full: Seq<u8>,
    pub created_at: i64,
}

/// A part as mathematical values.
pub struct FilePartView {
    pub id: i64,
    pub file_id: i64,
    pub part_no: i32,
    pub size: i64,
    pub file_id_tg: Seq<char>,
    pub sha256: Seq<u8>,
}

/// A thumbnail as mathematical values.
pub struct ThumbnailView {
    pub id: i64,
    pub file_id: i64,
    pub file_id_tg: Seq<char>,
    pub width: Option<i32>,
    pub height: Option<i32>,
}

impl View for FileMeta {
    type V = FileMetaView;

    open spec fn view(&self) -> FileMetaView {
        FileMetaView {
            id: self.id,
            folder_id: self.folder_id,
            orig_name: self.orig_name@,
            size: self.size,
            mime: optional_text(self.mime),
            hash_full: self.hash_full@,
            created_at: self.created_at,
        }
    }
}

impl View for FilePart {
    type V = FilePartView;

    open spec fn view(&self) -> FilePartView {
        FilePartView {
            id: self.id,
            file_id: self.file_id,
            part_no: self.part_no,
            size: self.size,
            file_id_tg: self.file_id_tg@,
            sha256: self.sha256@,
        }
    }
}

impl View for Thumbnail {
    type V = ThumbnailView;

    open spec fn view(&self) -> ThumbnailView {
        ThumbnailView {
            id: self.id,
            file_id: self.file_id,
            file_id_tg: self.file_id_tg@,
            width: self.width,
            height: self.height,
        }
    }
}

}
