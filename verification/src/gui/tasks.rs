//! What the window is told of the tasks that it asked for.

use vstd::prelude::*;

use super::message::{
    downloads_view, file_row, file_rows, folder_rows, uploads_view, FileRow, FileRowView,
    FolderRole, FolderRow, Message, MessageView, ParentUse, PendingDownload, PendingDownloadView,
    Progress, Task, TaskView,
};
use super::state::{folder_or_root, GuiStateView};
use crate::storage::models::StorageError;
use crate::text::decimal;
use crate::walk::upload::{UploadArgs, UploadArgsView};

verus! {

/// What is told once the catalogue may have changed, whatever came of it.
pub fn changed() -> (message: Message)
    ensures
        message@ == MessageView::RefreshFiles,
{
    Message::RefreshFiles
}

/// What is told of the path to a folder.
pub fn path_found(found: Result<String, StorageError>) -> (message: Message)
    ensures
        message@ == match found {
            Ok(path) => MessageView::GetAbsolutPath(path@),
            Err(_) => MessageView::Nothing,
        },
{
    match found {
        Ok(path) => Message::GetAbsolutPath(path),
        Err(_) => Message::Nothing,
    }
}

/// What comes of the parent of a folder. The number that stands for the root leads there too.
pub fn parent_found(purpose: ParentUse, found: Result<Option<i64>, StorageError>) -> (task: Task)
    ensures
        task@ == match (purpose, found) {
            (_, Err(_)) => TaskView::Send(MessageView::Nothing),
            (ParentUse::List, Ok(parent)) => TaskView::ListFolders(parent, FolderRole::Beside),
            (ParentUse::Select, Ok(parent)) => TaskView::Send(
                if folder_or_root(parent) == -1 {
                    MessageView::SelectFolderNone
                } else {
                    MessageView::SelectFolder(folder_or_root(parent))
                },
            ),
        },
{
    match found {
        Ok(parent) => match purpose {
            ParentUse::List => Task::ListFolders(parent, FolderRole::Beside),
            ParentUse::Select => {
                let id: i64 = match parent {
                    Some(id) => id,
                    None => -1,
                };
                if id == -1 {
                    Task::Send(Message::SelectFolderNone)
                } else {
                    Task::Send(Message::SelectFolder(id))
                }
            },
        },
        Err(_) => Task::Send(Message::Nothing),
    }
}

/// What is told of a listing of folders.
pub fn folders_listed(role: FolderRole, listed: Result<Vec<FolderRow>, StorageError>) -> (message:
    Message)
    ensures
        message@ == match (role, listed) {
            (_, Err(_)) => MessageView::Nothing,
            (FolderRole::Beside, Ok(rows)) => MessageView::SetParentFolders(folder_rows(rows@)),
            (FolderRole::Inside, Ok(rows)) => MessageView::SetFolders(folder_rows(rows@)),
        },
{
    match listed {
        Ok(rows) => match role {
            FolderRole::Beside => Message::SetParentFolders(rows),
            FolderRole::Inside => Message::SetFolders(rows),
        },
        Err(_) => Message::Nothing,
    }
}

/// What is told of a listing of files.
pub fn files_listed(listed: Result<Vec<FileRow>, StorageError>) -> (message: Message)
    ensures
        message@ == match listed {
            Ok(rows) => MessageView::SetFiles(file_rows(rows@)),
            Err(_) => MessageView::Nothing,
        },
{
    match listed {
        Ok(rows) => Message::SetFiles(rows),
        Err(_) => Message::Nothing,
    }
}

/// What is told of the size of a folder. One that is not known counts as nothing.
pub fn measured(size: Result<i64, StorageError>) -> (message: Message)
    ensures
        message@ == MessageView::SetAllSize(
            match size {
                Ok(size) => size,
                Err(_) => 0,
            },
        ),
{
    match size {
        Ok(size) => Message::SetAllSize(size),
        Err(_) => Message::SetAllSize(0),
    }
}

/// What is told of the name of a folder.
pub fn name_found(found: Result<String, StorageError>) -> (message: Message)
    ensures
        message@ == match found {
            Ok(name) => MessageView::SetFolderName(name@),
            Err(_) => MessageView::Nothing,
        },
{
    match found {
        Ok(name) => Message::SetFolderName(name),
        Err(_) => Message::Nothing,
    }
}

/// What is told of the files to send.
pub fn upload_planned(uploads: Vec<UploadArgs>) -> (message: Message)
    ensures
        message@ == MessageView::UploadFileProgress(uploads_view(uploads@), uploads@.len() as usize),
{
    let total: usize = uploads.len();
    Message::UploadFileProgress(uploads, total)
}

/// What is told once a file has been sent.
pub fn upload_done(rest: Vec<UploadArgs>, total: usize) -> (message: Message)
    ensures
        message@ == MessageView::UploadFileProgress(uploads_view(rest@), total),
{
    Message::UploadFileProgress(rest, total)
}

/// The name under which something is written to disk.
pub fn name_on_disk(found: Result<String, StorageError>) -> (name: String)
    ensures
        name@ == match found {
            Ok(text) => text@,
            Err(_) => "downloaded_file"@,
        },
{
    match found {
        Ok(text) => text,
        Err(_) => "downloaded_file".to_string(),
    }
}

/// What is told of the folder on disk that was asked for, where none was given.
pub fn folder_picked(path: &String) -> (message: Option<Message>)
    ensures
        match message {
            Some(message) => path@.len() == 0 && message@ == MessageView::DownloadFolderProgress(
                Seq::empty(),
                0,
            ),
            None => path@.len() > 0,
        },
{
    if path.as_str().unicode_len() == 0 {
        let none: Vec<PendingDownload> = Vec::new();
        assert(downloads_view(none@) =~= Seq::empty());
        Some(Message::DownloadFolderProgress(none, 0))
    } else {
        None
    }
}

/// What is told of the files to fetch.
pub fn download_planned(downloads: Vec<PendingDownload>) -> (message: Message)
    ensures
        message@ == MessageView::DownloadFolderProgress(
            downloads_view(downloads@),
            downloads@.len() as usize,
        ),
{
    let total: usize = downloads.len();
    Message::DownloadFolderProgress(downloads, total)
}

/// What is told once a file has been fetched.
pub fn download_done(rest: Vec<PendingDownload>, total: usize) -> (message: Message)
    ensures
        message@ == MessageView::DownloadFolderProgress(downloads_view(rest@), total),
{
    Message::DownloadFolderProgress(rest, total)
}

/// What is told of a file or a folder on disk that was asked for.
pub fn path_picked(path: String) -> (message: Message)
    ensures
        message@ == MessageView::PathChanged(path@),
{
    Message::PathChanged(path)
}

/// What is to be done next to fetch thumbnails.
pub enum ThumbnailsStep {
    /// Fetch the thumbnail of this file.
    Fetch(Thumbnails, i64),
    /// Tell the window this.
    Done(Message),
}

/// A `ThumbnailsStep` as mathematical values.
pub enum ThumbnailsStepView {
    Fetch(ThumbnailsView, i64),
    Done(MessageView),
}

impl View for ThumbnailsStep {
    type V = ThumbnailsStepView;

    open spec fn view(&self) -> ThumbnailsStepView {
        match self {
            ThumbnailsStep::Fetch(thumbnails, id) => ThumbnailsStepView::Fetch(thumbnails@, *id),
            ThumbnailsStep::Done(message) => ThumbnailsStepView::Done(message@),
        }
    }
}

/// The fetching of thumbnails as mathematical values: the files, which of them is next, and the
/// folder that they are in.
#[verifier::ext_equal]
pub struct ThumbnailsView {
    pub files: Seq<FileRowView>,
    pub next: nat,
    pub folder: Option<i64>,
}

impl ThumbnailsView {
    /// What comes next.
    pub open spec fn step(self) -> ThumbnailsStepView {
        if self.next < self.files.len() {
            ThumbnailsStepView::Fetch(self, self.files[self.next as int].0)
        } else {
            ThumbnailsStepView::Done(
                MessageView::SetFilesWithThumbnail(self.files, folder_or_root(self.folder)),
            )
        }
    }

    /// What comes once the next file's thumbnail was fetched, or was not to be had.
    pub open spec fn fetched(self, thumbnail: Option<Seq<u8>>) -> ThumbnailsStepView {
        let row = self.files[self.next as int];
        ThumbnailsView {
            files: match thumbnail {
                Some(bytes) => self.files.update(self.next as int, (row.0, row.1, row.2, bytes)),
                None => self.files,
            },
            next: self.next + 1,
            folder: self.folder,
        }.step()
    }
}

/// What comes first of fetching thumbnails. Without a password none is fetched.
pub open spec fn thumbnails_start(
    files: Seq<FileRowView>,
    password: Seq<char>,
    folder: Option<i64>,
) -> ThumbnailsStepView {
    ThumbnailsView {
        files,
        next: if password.len() == 0 {
            files.len()
        } else {
            0
        },
        folder,
    }.step()
}

/// The fetching of the thumbnails of the files in a folder.
pub struct Thumbnails {
    files: Vec<FileRow>,
    next: usize,
    folder: Option<i64>,
}

impl View for Thumbnails {
    type V = ThumbnailsView;

    closed spec fn view(&self) -> ThumbnailsView {
        ThumbnailsView {
            files: file_rows(self.files@),
            next: self.next as nat,
            folder: self.folder,
        }
    }
}

impl Thumbnails {
    /// There is a next file.
    #[verifier::type_invariant]
    spec fn has_next(self) -> bool {
        self.next < self.files.len()
    }

    /// Goes on from a file, or ends where there is none.
    fn go_on(files: Vec<FileRow>, next: usize, folder: Option<i64>) -> (step: ThumbnailsStep)
        ensures
            step@ == (ThumbnailsView { files: file_rows(files@), next: next as nat, folder })
                .step(),
    {
        if next < files.len() {
            let id: i64 = files[next].0;
            ThumbnailsStep::Fetch(Thumbnails { files, next, folder }, id)
        } else {
            let shown: i64 = match folder {
                Some(id) => id,
                None => -1,
            };
            ThumbnailsStep::Done(Message::SetFilesWithThumbnail(files, shown))
        }
    }

    /// Starts to fetch the thumbnails of the files in a folder.
    pub fn start(files: Vec<FileRow>, password: &String, folder: Option<i64>) -> (step:
        ThumbnailsStep)
        ensures
            step@ == thumbnails_start(file_rows(files@), password@, folder),
    {
        let next: usize = if password.as_str().unicode_len() == 0 {
            files.len()
        } else {
            0
        };
        Thumbnails::go_on(files, next, folder)
    }

    /// Takes in the thumbnail of the next file, if it was to be had.
    pub fn fetched(self, thumbnail: Option<Vec<u8>>) -> (step: ThumbnailsStep)
        ensures
            step@ == self@.fetched(
                match thumbnail {
                    Some(bytes) => Some(bytes@),
                    None => None,
                },
            ),
    {
        proof {
            use_type_invariant(&self);
        }
        let mut files: Vec<FileRow> = self.files;
        let next: usize = self.next;
        let folder: Option<i64> = self.folder;
        match thumbnail {
            Some(bytes) => {
                let ghost before = file_rows(files@);
                let name: String = files[next].1.clone();
                let row: FileRow = (files[next].0, name, files[next].2, bytes);
                files.set(next, row);
                assert(file_rows(files@) =~= before.update(next as int, file_row(row)));
            },
            None => {},
        }
        Thumbnails::go_on(files, next + 1, folder)
    }
}

/// A file with its thumbnail, where the chat service gives one.
pub open spec fn pictured(row: FileRowView, answers: Map<i64, Seq<u8>>) -> FileRowView {
    if answers.contains_key(row.0) {
        (row.0, row.1, row.2, answers[row.0])
    } else {
        row
    }
}

/// The step `n` thumbnails on.
pub open spec fn fetched_all(
    step: ThumbnailsStepView,
    answers: Map<i64, Seq<u8>>,
    n: nat,
) -> ThumbnailsStepView
    decreases n,
{
    match step {
        ThumbnailsStepView::Fetch(thumbnails, id) if n > 0 => fetched_all(
            thumbnails.fetched(
                if answers.contains_key(id) {
                    Some(answers[id])
                } else {
                    None
                },
            ),
            answers,
            (n - 1) as nat,
        ),
        _ => step,
    }
}

/// The rest of the thumbnails.
proof fn lemma_fetched_rest(
    files: Seq<FileRowView>,
    now: Seq<FileRowView>,
    next: nat,
    folder: Option<i64>,
    answers: Map<i64, Seq<u8>>,
)
    requires
        next <= files.len() == now.len(),
        forall|i: int| 0 <= i < next ==> #[trigger] now[i] == pictured(files[i], answers),
        forall|i: int| next <= i < files.len() ==> #[trigger] now[i] == files[i],
    ensures
        fetched_all(
            (ThumbnailsView { files: now, next, folder }).step(),
            answers,
            (files.len() - next) as nat,
        ) == ThumbnailsStepView::Done(
            MessageView::SetFilesWithThumbnail(
                files.map_values(|row: FileRowView| pictured(row, answers)),
                folder_or_root(folder),
            ),
        ),
    decreases files.len() - next,
{
    if next == files.len() {
        assert(now =~= files.map_values(|row: FileRowView| pictured(row, answers)));
    } else {
        let id = now[next as int].0;
        let later = if answers.contains_key(id) {
            now.update(next as int, pictured(now[next as int], answers))
        } else {
            now
        };
        lemma_fetched_rest(files, later, next + 1, folder, answers);
    }
}

/// With a password, each file in a listing gets the thumbnail that there is for it, and keeps all
/// else; without one, the listing stays as it is.
pub proof fn law_thumbnails(
    files: Seq<FileRowView>,
    password: Seq<char>,
    folder: Option<i64>,
    answers: Map<i64, Seq<u8>>,
)
    ensures
        fetched_all(thumbnails_start(files, password, folder), answers, files.len())
            == ThumbnailsStepView::Done(
            MessageView::SetFilesWithThumbnail(
                if password.len() == 0 {
                    files
                } else {
                    files.map_values(|row: FileRowView| pictured(row, answers))
                },
                folder_or_root(folder),
            ),
        ),
{
    if password.len() > 0 {
        lemma_fetched_rest(files, files, 0, folder, answers);
    }
}

/// Thumbnails that come when another folder is shown change nothing.
pub proof fn law_late_thumbnails(
    state: GuiStateView,
    rows: Seq<FileRowView>,
    folder: Option<i64>,
)
    requires
        folder_or_root(folder) != folder_or_root(state.selected_folder),
    ensures
        ({
            let message = MessageView::SetFilesWithThumbnail(rows, folder_or_root(folder));
            &&& state.updated(message) == state
            &&& state.asked(message) == Seq::<TaskView>::empty()
        }),
{
}

/// Once a folder is selected, it is the one whose folders, files and size are asked for, beside
/// which folders are listed, and whose path is shown.
pub proof fn law_selected_folder(state: GuiStateView, id: i64)
    ensures
        ({
            let next = state.updated(MessageView::SelectFolder(id));
            &&& next.asked(MessageView::RefreshFiles) == seq![
                TaskView::ListFolders(Some(id), FolderRole::Inside),
                TaskView::ListFiles(Some(id)),
                TaskView::Measure(id),
            ]
            &&& next.asked(MessageView::RefreshParentFolders) == seq![
                TaskView::FindParent(id, ParentUse::List),
            ]
            &&& next.asked(MessageView::RefreshAbsolutPath) == seq![TaskView::FindPath(id)]
        }),
{
}

/// The files that are sent after a message, one after the other, and the window after the last.
pub open spec fn sent(state: GuiStateView, rest: Seq<UploadArgsView>, total: usize) -> (
    Seq<UploadArgsView>,
    GuiStateView,
)
    decreases rest.len(),
{
    let message = MessageView::UploadFileProgress(rest, total);
    let next = state.updated(message);
    let tasks = state.asked(message);
    match tasks[0] {
        TaskView::Upload(first, left, total) if left.len() < rest.len() => {
            let later = sent(next, left, total);
            (seq![first] + later.0, later.1)
        },
        _ => (Seq::empty(), next),
    }
}

/// The files to send are sent once each, in their order. After the last, the window is not busy and
/// tells how many there were; its progress stands where the last file began, and all else is as it
/// was.
pub proof fn law_uploads_are_sent(state: GuiStateView, rest: Seq<UploadArgsView>, total: usize)
    ensures
        sent(state, rest, total).0 == rest,
        sent(state, rest, total).1 == (GuiStateView {
            is_busy: false,
            progress: if rest.len() == 0 {
                state.progress
            } else {
                Progress { left: 1, total }
            },
            progress_message: decimal(total as nat) + " файлов было загружено"@,
            ..state
        }),
    decreases rest.len(),
{
    if rest.len() == 0 {
        assert(sent(state, rest, total).0 =~= rest);
    } else {
        let message = MessageView::UploadFileProgress(rest, total);
        law_uploads_are_sent(state.updated(message), rest.drop_first(), total);
        assert(seq![rest[0]] + rest.drop_first() =~= rest);
    }
}

/// The files that are fetched after a message, one after the other, and the window after the last.
pub open spec fn received(
    state: GuiStateView,
    rest: Seq<PendingDownloadView>,
    total: usize,
) -> (Seq<PendingDownloadView>, GuiStateView)
    decreases rest.len(),
{
    let message = MessageView::DownloadFolderProgress(rest, total);
    let next = state.updated(message);
    let tasks = state.asked(message);
    if tasks.len() == 0 {
        (Seq::empty(), next)
    } else {
        match tasks[0] {
            TaskView::DownloadNext(first, left, total) if left.len() < rest.len() => {
                let later = received(next, left, total);
                (seq![first] + later.0, later.1)
            },
            _ => (Seq::empty(), next),
        }
    }
}

/// The files to fetch are fetched once each, in their order. After the last, the window tells how
/// many there were.
pub proof fn law_downloads_are_fetched(
    state: GuiStateView,
    rest: Seq<PendingDownloadView>,
    total: usize,
)
    requires
        total > 0,
    ensures
        received(state, rest, total).0 == rest,
        received(state, rest, total).1 == (GuiStateView {
            progress: if rest.len() == 0 {
                state.progress
            } else {
                Progress { left: 1, total }
            },
            progress_message: "Было загружено "@ + decimal(total as nat) + " файлов"@,
            ..state
        }),
    decreases rest.len(),
{
    if rest.len() == 0 {
        assert(received(state, rest, total).0 =~= rest);
    } else {
        let message = MessageView::DownloadFolderProgress(rest, total);
        law_downloads_are_fetched(state.updated(message), rest.drop_first(), total);
        assert(seq![rest[0]] + rest.drop_first() =~= rest);
    }
}

/// The files of a listing stay in their order, each with its number, its name and its size; with a
/// password, the thumbnail that there is for a file is put in, and only where there is none does it
/// keep what it had. What comes of it is told for the folder of the listing: its number, or -1 for
/// the root.
pub proof fn law_each_file_gets_its_own_thumbnail(
    files: Seq<FileRowView>,
    password: Seq<char>,
    folder: Option<i64>,
    answers: Map<i64, Seq<u8>>,
    i: int,
)
    requires
        0 <= i < files.len(),
    ensures
        ({
            &&& fetched_all(thumbnails_start(files, password, folder), answers, files.len())
                matches ThumbnailsStepView::Done(message)
            &&& message matches MessageView::SetFilesWithThumbnail(rows, told)
            &&& rows.len() == files.len()
            &&& rows[i].0 == files[i].0
            &&& rows[i].1 == files[i].1
            &&& rows[i].2 == files[i].2
            &&& rows[i].3 == if password.len() > 0 && answers.contains_key(files[i].0) {
                answers[files[i].0]
            } else {
                files[i].3
            }
            &&& told == match folder {
                Some(id) => id,
                None => -1i64,
            }
        }),
{
    law_thumbnails(files, password, folder, answers);
}

/// Without a password no thumbnail is asked for; with one, that of the first file is.
pub proof fn law_thumbnails_need_a_password(
    files: Seq<FileRowView>,
    password: Seq<char>,
    folder: Option<i64>,
)
    ensures
        thumbnails_start(files, password, folder) is Fetch <==> password.len() > 0 && files.len()
            > 0,
        thumbnails_start(files, password, folder) matches ThumbnailsStepView::Fetch(_, id) ==> id
            == files[0].0,
{
}

}
