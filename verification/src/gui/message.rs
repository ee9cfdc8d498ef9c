//! What the window can be told, and what it asks for in turn.

use vstd::prelude::*;

use crate::walk::download::{DownloadArgs, DownloadArgsView};
use crate::walk::upload::{UploadArgs, UploadArgsView};

verus! {

/// A folder in a listing: its number, its parent and its name.
pub type FolderRow = (i64, Option<i64>, String);

/// A file in a listing: its number, its name, its size, and its thumbnail, if that was fetched.
pub type FileRow = (i64, String, i64, Vec<u8>);

/// A folder in a listing as mathematical values.
pub type FolderRowView = (i64, Option<i64>, Seq<char>);

/// A file in a listing as mathematical values.
pub type FileRowView = (i64, Seq<char>, i64, Seq<u8>);

/// The view of a folder in a listing.
pub open spec fn folder_row(row: FolderRow) -> FolderRowView {
    (row.0, row.1, row.2@)
}

/// The view of a file in a listing.
pub open spec fn file_row(row: FileRow) -> FileRowView {
    (row.0, row.1@, row.2, row.3@)
}

/// The views of folders in a listing.
pub open spec fn folder_rows(rows: Seq<FolderRow>) -> Seq<FolderRowView> {
    rows.map_values(|row: FolderRow| folder_row(row))
}

/// The views of files in a listing.
pub open spec fn file_rows(rows: Seq<FileRow>) -> Seq<FileRowView> {
    rows.map_values(|row: FileRow| file_row(row))
}

/// How far something is: of `total` pieces, `left` are still to come.
#[derive(Debug, PartialEq, Eq, Structural, Clone, Copy)]
pub struct Progress {
    pub left: usize,
    pub total: usize,
}

/// A file that is still to be fetched, and its place on disk as it is shown.
#[derive(Clone, Debug)]
pub struct PendingDownload {
    pub args: DownloadArgs,
    pub shown: String,
}

/// A `PendingDownload` as mathematical values.
pub struct PendingDownloadView {
    pub args: DownloadArgsView,
    pub shown: Seq<char>,
}

impl View for PendingDownload {
    type V = PendingDownloadView;

    open spec fn view(&self) -> PendingDownloadView {
        PendingDownloadView { args: self.args@, shown: self.shown@ }
    }
}

/// The views of files to send.
pub open spec fn uploads_view(uploads: Seq<UploadArgs>) -> Seq<UploadArgsView> {
    uploads.map_values(|u: UploadArgs| u@)
}

/// The views of files to fetch.
pub open spec fn downloads_view(downloads: Seq<PendingDownload>) -> Seq<PendingDownloadView> {
    downloads.map_values(|d: PendingDownload| d@)
}

/// What the window can be told.
#[derive(Clone, Debug)]
pub enum Message {
    RefreshParentFolders,
    SelectParentFolder,
    SetParentFolders(Vec<FolderRow>),
    SetFolders(Vec<FolderRow>),
    SetFiles(Vec<FileRow>),
    /// The files of a folder with their thumbnails, and that folder, or -1 for the root.
    SetFilesWithThumbnail(Vec<FileRow>, i64),
    GetFolderName,
    GetThumbnails,
    DeleteFolder(i64),
    DeleteFile(i64),
    GetAbsolutPath(String),
    RefreshAbsolutPath,
    SelectFolderNone,
    SetFolderName(String),
    SelectFolder(i64),
    RefreshFiles,
    UploadFile,
    /// The files that are still to be sent, and how many there were.
    UploadFileProgress(Vec<UploadArgs>, usize),
    DownloadFile(i64),
    DownloadFolder(i64),
    /// The files that are still to be fetched, and how many there were.
    DownloadFolderProgress(Vec<PendingDownload>, usize),
    PasswordChanged(String),
    PathChanged(String),
    SelectPathFile,
    SelectPathFolder,
    CreateFolder,
    StartUpload,
    Progress(Progress),
    FinishUpload,
    /// Nothing is to be done.
    Nothing,
    SetAllSize(i64),
}

/// A `Message` as mathematical values.
pub enum MessageView {
    RefreshParentFolders,
    SelectParentFolder,
    SetParentFolders(Seq<FolderRowView>),
    SetFolders(Seq<FolderRowView>),
    SetFiles(Seq<FileRowView>),
    SetFilesWithThumbnail(Seq<FileRowView>, i64),
    GetFolderName,
    GetThumbnails,
    DeleteFolder(i64),
    DeleteFile(i64),
    GetAbsolutPath(Seq<char>),
    RefreshAbsolutPath,
    SelectFolderNone,
    SetFolderName(Seq<char>),
    SelectFolder(i64),
    RefreshFiles,
    UploadFile,
    UploadFileProgress(Seq<UploadArgsView>, usize),
    DownloadFile(i64),
    DownloadFolder(i64),
    DownloadFolderProgress(Seq<PendingDownloadView>, usize),
    PasswordChanged(Seq<char>),
    PathChanged(Seq<char>),
    SelectPathFile,
    SelectPathFolder,
    CreateFolder,
    StartUpload,
    Progress(Progress),
    FinishUpload,
    Nothing,
    SetAllSize(i64),
}

impl View for Message {
    type V = MessageView;

    open spec fn view(&self) -> MessageView {
        match self {
            Message::RefreshParentFolders => MessageView::RefreshParentFolders,
            Message::SelectParentFolder => MessageView::SelectParentFolder,
            Message::SetParentFolders(rows) => MessageView::SetParentFolders(folder_rows(rows@)),
            Message::SetFolders(rows) => MessageView::SetFolders(folder_rows(rows@)),
            Message::SetFiles(rows) => MessageView::SetFiles(file_rows(rows@)),
            Message::SetFilesWithThumbnail(rows, folder) => MessageView::SetFilesWithThumbnail(
                file_rows(rows@),
                *folder,
            ),
            Message::GetFolderName => MessageView::GetFolderName,
            Message::GetThumbnails => MessageView::GetThumbnails,
            Message::DeleteFolder(id) => MessageView::DeleteFolder(*id),
            Message::DeleteFile(id) => MessageView::DeleteFile(*id),
            Message::GetAbsolutPath(path) => MessageView::GetAbsolutPath(path@),
            Message::RefreshAbsolutPath => MessageView::RefreshAbsolutPath,
            Message::SelectFolderNone => MessageView::SelectFolderNone,
            Message::SetFolderName(name) => MessageView::SetFolderName(name@),
            Message::SelectFolder(id) => MessageView::SelectFolder(*id),
            Message::RefreshFiles => MessageView::RefreshFiles,
            Message::UploadFile => MessageView::UploadFile,
            Message::UploadFileProgress(rest, total) => MessageView::UploadFileProgress(
                uploads_view(rest@),
                *total,
            ),
            Message::DownloadFile(id) => MessageView::DownloadFile(*id),
            Message::DownloadFolder(id) => MessageView::DownloadFolder(*id),
            Message::DownloadFolderProgress(rest, total) => MessageView::DownloadFolderProgress(
                downloads_view(rest@),
                *total,
            ),
            Message::PasswordChanged(text) => MessageView::PasswordChanged(text@),
            Message::PathChanged(text) => MessageView::PathChanged(text@),
            Message::SelectPathFile => MessageView::SelectPathFile,
            Message::SelectPathFolder => MessageView::SelectPathFolder,
            Message::CreateFolder => MessageView::CreateFolder,
            Message::StartUpload => MessageView::StartUpload,
            Message::Progress(progress) => MessageView::Progress(*progress),
            Message::FinishUpload => MessageView::FinishUpload,
            Message::Nothing => MessageView::Nothing,
            Message::SetAllSize(size) => MessageView::SetAllSize(*size),
        }
    }
}

/// What a listing of folders is for.
#[derive(Debug, PartialEq, Eq, Structural, Clone, Copy)]
pub enum FolderRole {
    /// The folders beside the one that is shown.
    Beside,
    /// The folders inside the one that is shown.
    Inside,
}

/// What the parent of a folder is asked for.
#[derive(Debug, PartialEq, Eq, Structural, Clone, Copy)]
pub enum ParentUse {
    /// To list the folders in it.
    List,
    /// To show it.
    Select,
}

/// Something to be done outside the window.
#[derive(Debug)]
pub enum Task {
    /// Tell the window this.
    Send(Message),
    /// Add a folder of this name, inside the one that is given. Then the files are to be refreshed.
    AddFolder(Option<i64>, String),
    /// Remove a file. Then the files are to be refreshed.
    RemoveFile(i64),
    /// Remove a folder with all that it holds. Then the files are to be refreshed.
    RemoveFolder(i64),
    /// Find the path to a folder.
    FindPath(i64),
    /// Find the parent of a folder.
    FindParent(i64, ParentUse),
    /// List the folders inside the one that is given.
    ListFolders(Option<i64>, FolderRole),
    /// List the files inside the folder that is given.
    ListFiles(Option<i64>),
    /// Find the size of all that a folder holds.
    Measure(i64),
    /// Find the name of a folder.
    FindName(i64),
    /// Fetch the thumbnails of files, with the password, for the folder that is shown.
    FetchThumbnails(Vec<FileRow>, String, Option<i64>),
    /// Find the files to send.
    PlanUpload(UploadArgs),
    /// Send a file; the others and their number are for the report.
    Upload(UploadArgs, Vec<UploadArgs>, usize),
    /// Ask where to write a file, and fetch it, with the password. Then the files are to be
    /// refreshed.
    Download(i64, String),
    /// Ask where to write a folder, and find the files to fetch, with the password.
    PlanDownload(i64, String),
    /// Fetch a file; the others and their number are for the report.
    DownloadNext(PendingDownload, Vec<PendingDownload>, usize),
    /// Ask for a file on disk.
    PickFile,
    /// Ask for a folder on disk.
    PickFolder,
}

/// A `Task` as mathematical values.
pub enum TaskView {
    Send(MessageView),
    AddFolder(Option<i64>, Seq<char>),
    RemoveFile(i64),
    RemoveFolder(i64),
    FindPath(i64),
    FindParent(i64, ParentUse),
    ListFolders(Option<i64>, FolderRole),
    ListFiles(Option<i64>),
    Measure(i64),
    FindName(i64),
    FetchThumbnails(Seq<FileRowView>, Seq<char>, Option<i64>),
    PlanUpload(UploadArgsView),
    Upload(UploadArgsView, Seq<UploadArgsView>, usize),
    Download(i64, Seq<char>),
    PlanDownload(i64, Seq<char>),
    DownloadNext(PendingDownloadView, Seq<PendingDownloadView>, usize),
    PickFile,
    PickFolder,
}

impl View for Task {
    type V = TaskView;

    open spec fn view(&self) -> TaskView {
        match self {
            Task::Send(message) => TaskView::Send(message@),
            Task::AddFolder(parent, name) => TaskView::AddFolder(*parent, name@),
            Task::RemoveFile(id) => TaskView::RemoveFile(*id),
            Task::RemoveFolder(id) => TaskView::RemoveFolder(*id),
            Task::FindPath(id) => TaskView::FindPath(*id),
            Task::FindParent(id, purpose) => TaskView::FindParent(*id, *purpose),
            Task::ListFolders(parent, role) => TaskView::ListFolders(*parent, *role),
            Task::ListFiles(folder) => TaskView::ListFiles(*folder),
            Task::Measure(id) => TaskView::Measure(*id),
            Task::FindName(id) => TaskView::FindName(*id),
            Task::FetchThumbnails(files, password, folder) => TaskView::FetchThumbnails(
                file_rows(files@),
                password@,
                *folder,
            ),
            Task::PlanUpload(args) => TaskView::PlanUpload(args@),
            Task::Upload(args, rest, total) => TaskView::Upload(
                args@,
                uploads_view(rest@),
                *total,
            ),
            Task::Download(id, password) => TaskView::Download(*id, password@),
            Task::PlanDownload(id, password) => TaskView::PlanDownload(*id, password@),
            Task::DownloadNext(item, rest, total) => TaskView::DownloadNext(
                item@,
                downloads_view(rest@),
                *total,
            ),
            Task::PickFile => TaskView::PickFile,
            Task::PickFolder => TaskView::PickFolder,
        }
    }
}

/// The views of tasks.
pub open spec fn tasks_view(tasks: Seq<Task>) -> Seq<TaskView> {
    tasks.map_values(|t: Task| t@)
}

}
