//! What the window holds, and what becomes of it with each message.

use vstd::prelude::*;

use super::message::{
    downloads_view, file_rows, folder_rows, tasks_view, uploads_view, FileRow, FileRowView,
    FolderRole, FolderRow, FolderRowView, Message, MessageView, ParentUse, PendingDownload,
    Progress, Task, TaskView,
};
use crate::text::{append_decimal, decimal};
use crate::walk::upload::{UploadArgs, UploadArgsView};

verus! {

/// What the window holds.
#[derive(Debug)]
pub struct GuiState {
    pub parent_folders: Vec<FolderRow>,
    pub folders: Vec<FolderRow>,
    pub selected_folder: Option<i64>,
    pub selected_folder_name: String,
    pub files: Vec<FileRow>,
    pub password_input: String,
    pub path_input: String,
    pub is_busy: bool,
    pub progress: Progress,
    pub progress_message: String,
    pub all_size: Option<i64>,
}

/// What the window holds, as mathematical values.
#[verifier::ext_equal]
pub struct GuiStateView {
    pub parent_folders: Seq<FolderRowView>,
    pub folders: Seq<FolderRowView>,
    pub selected_folder: Option<i64>,
    pub selected_folder_name: Seq<char>,
    pub files: Seq<FileRowView>,
    pub password_input: Seq<char>,
    pub path_input: Seq<char>,
    pub is_busy: bool,
    pub progress: Progress,
    pub progress_message: Seq<char>,
    pub all_size: Option<i64>,
}

impl View for GuiState {
    type V = GuiStateView;

    open spec fn view(&self) -> GuiStateView {
        GuiStateView {
            parent_folders: folder_rows(self.parent_folders@),
            folders: folder_rows(self.folders@),
            selected_folder: self.selected_folder,
            selected_folder_name: self.selected_folder_name@,
            files: file_rows(self.files@),
            password_input: self.password_input@,
            path_input: self.path_input@,
            is_busy: self.is_busy,
            progress: self.progress,
            progress_message: self.progress_message@,
            all_size: self.all_size,
        }
    }
}

/// Nothing is done yet.
pub open spec fn no_progress() -> Progress {
    Progress { left: 1, total: 1 }
}

/// All is done.
pub open spec fn full_progress() -> Progress {
    Progress { left: 0, total: 1 }
}

/// The number that stands for a folder, with one for the root that no folder has.
pub open spec fn folder_or_root(folder: Option<i64>) -> i64 {
    match folder {
        Some(id) => id,
        None => -1i64,
    }
}

/// The message while a file is sent or fetched.
pub open spec fn in_progress_text(name: Seq<char>) -> Seq<char> {
    "Файл "@ + name + " в процессе.."@
}

impl GuiStateView {
    /// The window as it opens.
    pub open spec fn initial() -> GuiStateView {
        GuiStateView {
            parent_folders: Seq::empty(),
            folders: Seq::empty(),
            selected_folder: None,
            selected_folder_name: Seq::empty(),
            files: Seq::empty(),
            password_input: Seq::empty(),
            path_input: Seq::empty(),
            is_busy: false,
            progress: no_progress(),
            progress_message: "Hello!"@,
            all_size: None,
        }
    }

    /// The window when sending or fetching begins.
    pub open spec fn starting(self) -> GuiStateView {
        GuiStateView {
            is_busy: true,
            progress: no_progress(),
            progress_message: "Начало загрузки.."@,
            ..self
        }
    }

    /// The window while the next file is sent or fetched.
    pub open spec fn working(self, left: nat, total: usize, name: Seq<char>) -> GuiStateView {
        GuiStateView {
            progress: Progress { left: left as usize, total },
            progress_message: in_progress_text(name),
            ..self
        }
    }

    /// The window after a message.
    pub open spec fn updated(self, message: MessageView) -> GuiStateView {
        match message {
            MessageView::StartUpload => GuiStateView {
                is_busy: true,
                progress: no_progress(),
                ..self
            },
            MessageView::Progress(progress) => GuiStateView { progress, ..self },
            MessageView::FinishUpload => GuiStateView {
                is_busy: false,
                progress: full_progress(),
                ..self
            },
            MessageView::GetAbsolutPath(path) => GuiStateView {
                selected_folder_name: if path.len() == 0 {
                    "root"@
                } else {
                    path
                },
                ..self
            },
            MessageView::SetParentFolders(rows) => GuiStateView { parent_folders: rows, ..self },
            MessageView::SelectFolder(id) => GuiStateView { selected_folder: Some(id), ..self },
            MessageView::SelectFolderNone => GuiStateView {
                selected_folder: None,
                selected_folder_name: Seq::empty(),
                all_size: None,
                ..self
            },
            MessageView::SetFolderName(name) => GuiStateView {
                selected_folder_name: name,
                ..self
            },
            MessageView::RefreshFiles => if self.selected_folder is Some {
                GuiStateView { files: Seq::empty(), ..self }
            } else {
                self
            },
            MessageView::SetFolders(rows) => GuiStateView { folders: rows, ..self },
            MessageView::SetFiles(rows) => GuiStateView { files: rows, ..self },
            MessageView::SetFilesWithThumbnail(rows, folder) => if folder == folder_or_root(
                self.selected_folder,
            ) {
                GuiStateView { files: rows, ..self }
            } else {
                self
            },
            MessageView::PasswordChanged(text) => GuiStateView { password_input: text, ..self },
            MessageView::PathChanged(text) => GuiStateView { path_input: text, ..self },
            MessageView::UploadFile => self.starting(),
            MessageView::UploadFileProgress(rest, total) => if rest.len() == 0 {
                GuiStateView {
                    is_busy: false,
                    progress_message: decimal(total as nat) + " файлов было загружено"@,
                    ..self
                }
            } else {
                self.working(rest.len(), total, rest[0].path)
            },
            MessageView::DownloadFolder(_) => self.starting(),
            MessageView::DownloadFolderProgress(rest, total) => if total == 0 {
                GuiStateView {
                    is_busy: false,
                    progress: no_progress(),
                    progress_message: "Что то не так"@,
                    ..self
                }
            } else if rest.len() == 0 {
                GuiStateView {
                    progress_message: "Было загружено "@ + decimal(total as nat) + " файлов"@,
                    ..self
                }
            } else {
                self.working(rest.len(), total, rest[0].shown)
            },
            MessageView::SetAllSize(size) => GuiStateView { all_size: Some(size), ..self },
            _ => self,
        }
    }

    /// What is asked for after a message.
    pub open spec fn asked(self, message: MessageView) -> Seq<TaskView> {
        match message {
            MessageView::CreateFolder => seq![
                TaskView::AddFolder(self.selected_folder, self.path_input),
            ],
            MessageView::FinishUpload => seq![TaskView::Send(MessageView::RefreshFiles)],
            MessageView::DeleteFile(id) => seq![TaskView::RemoveFile(id)],
            MessageView::DeleteFolder(id) => seq![TaskView::RemoveFolder(id)],
            MessageView::RefreshAbsolutPath => match self.selected_folder {
                Some(id) => seq![TaskView::FindPath(id)],
                None => seq![TaskView::Send(MessageView::GetAbsolutPath(Seq::empty()))],
            },
            MessageView::RefreshParentFolders => match self.selected_folder {
                Some(id) => seq![TaskView::FindParent(id, ParentUse::List)],
                None => seq![TaskView::ListFolders(None, FolderRole::Beside)],
            },
            MessageView::SelectFolder(id) => seq![
                TaskView::Send(MessageView::RefreshFiles),
                TaskView::Send(MessageView::RefreshParentFolders),
                TaskView::Send(MessageView::RefreshAbsolutPath),
                TaskView::Measure(id),
            ],
            MessageView::SelectParentFolder => match self.selected_folder {
                Some(id) => seq![TaskView::FindParent(id, ParentUse::Select)],
                None => seq![TaskView::Send(MessageView::Nothing)],
            },
            MessageView::SelectFolderNone => seq![
                TaskView::Send(MessageView::RefreshFiles),
                TaskView::Send(MessageView::RefreshParentFolders),
            ],
            MessageView::GetFolderName => match self.selected_folder {
                Some(id) => seq![TaskView::FindName(id)],
                None => Seq::empty(),
            },
            MessageView::RefreshFiles => seq![
                TaskView::ListFolders(self.selected_folder, FolderRole::Inside),
                TaskView::ListFiles(self.selected_folder),
                match self.selected_folder {
                    Some(id) => TaskView::Measure(id),
                    None => TaskView::Send(MessageView::SetAllSize(0)),
                },
            ],
            MessageView::SetFiles(rows) => seq![
                TaskView::FetchThumbnails(rows, self.password_input, self.selected_folder),
            ],
            MessageView::UploadFile => seq![
                TaskView::PlanUpload(
                    UploadArgsView {
                        path: self.path_input,
                        password: self.password_input,
                        folder: self.selected_folder,
                    },
                ),
            ],
            MessageView::UploadFileProgress(rest, total) => if rest.len() == 0 {
                seq![TaskView::Send(MessageView::RefreshFiles)]
            } else {
                seq![TaskView::Upload(rest[0], rest.drop_first(), total)]
            },
            MessageView::DownloadFile(id) => seq![TaskView::Download(id, self.password_input)],
            MessageView::DownloadFolder(id) => seq![
                TaskView::PlanDownload(id, self.password_input),
            ],
            MessageView::DownloadFolderProgress(rest, total) => if total == 0 || rest.len() == 0 {
                Seq::empty()
            } else {
                seq![TaskView::DownloadNext(rest[0], rest.drop_first(), total)]
            },
            MessageView::SelectPathFile => seq![TaskView::PickFile],
            MessageView::SelectPathFolder => seq![TaskView::PickFolder],
            _ => Seq::empty(),
        }
    }
}

/// Copies a listing of files.
fn copy_files(files: &Vec<FileRow>) -> (copy: Vec<FileRow>)
    ensures
        file_rows(copy@) == file_rows(files@),
{
    let mut copy: Vec<FileRow> = Vec::new();
    let mut i: usize = 0;
    while i < files.len()
        invariant
            0 <= i <= files@.len(),
            file_rows(copy@) == file_rows(files@).take(i as int),
        decreases files@.len() - i,
    {
        let ghost before = copy@;
        let row: &FileRow = &files[i];
        let picture: Vec<u8> = vstd::slice::slice_to_vec(row.3.as_slice());
        copy.push((row.0, row.1.clone(), row.2, picture));
        assert(file_rows(copy@) =~= file_rows(before).push(file_rows(files@)[i as int]));
        assert(file_rows(files@).take(i + 1) =~= file_rows(files@).take(i as int).push(
            file_rows(files@)[i as int],
        ));
        i = i + 1;
    }
    assert(file_rows(files@).take(i as int) =~= file_rows(files@));
    copy
}

/// The message while a file is sent or fetched.
fn in_progress(name: &String) -> (text: String)
    ensures
        text@ == in_progress_text(name@),
{
    let mut text: String = "Файл ".to_string();
    text.append(name.as_str());
    text.append(" в процессе..");
    text
}

/// One task.
fn just(task: Task) -> (tasks: Vec<Task>)
    ensures
        tasks_view(tasks@) == seq![task@],
        tasks@ == seq![task],
{
    let mut tasks: Vec<Task> = Vec::new();
    tasks.push(task);
    assert(tasks_view(tasks@) =~= seq![task@]);
    assert(tasks@ =~= seq![task]);
    tasks
}

/// One task more.
fn also(tasks: Vec<Task>, task: Task) -> (more: Vec<Task>)
    ensures
        tasks_view(more@) == tasks_view(tasks@).push(task@),
{
    let mut more: Vec<Task> = tasks;
    more.push(task);
    assert(tasks_view(more@) =~= tasks_view(tasks@).push(task@));
    more
}

/// No task.
fn nothing() -> (tasks: Vec<Task>)
    ensures
        tasks_view(tasks@) == Seq::<TaskView>::empty(),
{
    let tasks: Vec<Task> = Vec::new();
    assert(tasks_view(tasks@) =~= Seq::<TaskView>::empty());
    tasks
}

impl GuiState {
    /// The window as it opens, and what is asked for then.
    pub fn new() -> (r: (GuiState, Vec<Task>))
        ensures
            r.0@ == GuiStateView::initial(),
            tasks_view(r.1@) == seq![
                TaskView::Send(MessageView::RefreshFiles),
                TaskView::Send(MessageView::RefreshParentFolders),
                TaskView::Send(MessageView::RefreshAbsolutPath),
            ],
    {
        let state: GuiState = GuiState {
            parent_folders: Vec::new(),
            folders: Vec::new(),
            selected_folder: None,
            selected_folder_name: String::new(),
            files: Vec::new(),
            password_input: String::new(),
            path_input: String::new(),
            is_busy: false,
            progress: Progress { left: 1, total: 1 },
            progress_message: "Hello!".to_string(),
            all_size: None,
        };
        assert(state@ =~= GuiStateView::initial());
        let tasks: Vec<Task> = just(Task::Send(Message::RefreshFiles));
        let tasks: Vec<Task> = also(tasks, Task::Send(Message::RefreshParentFolders));
        let tasks: Vec<Task> = also(tasks, Task::Send(Message::RefreshAbsolutPath));
        assert(tasks_view(tasks@) =~= seq![
            TaskView::Send(MessageView::RefreshFiles),
            TaskView::Send(MessageView::RefreshParentFolders),
            TaskView::Send(MessageView::RefreshAbsolutPath),
        ]);
        (state, tasks)
    }

    /// Takes in a message, and says what is asked for after it. The name of the folder that is shown
    /// can be asked for only while one is shown.
    pub fn update(&mut self, message: Message) -> (tasks: Vec<Task>)
        requires
            message is GetFolderName ==> old(self).selected_folder is Some,
        ensures
            final(self)@ == old(self)@.updated(message@),
            tasks_view(tasks@) == old(self)@.asked(message@),
            match message {
                Message::CreateFolder => {
                    &&& tasks@.len() == 1
                    &&& tasks@[0] matches Task::AddFolder(parent, name)
                    &&& parent == old(self).selected_folder
                    &&& name@ == old(self).path_input@
                },
                Message::DeleteFile(id) => tasks@ == seq![Task::RemoveFile(id)],
                Message::DeleteFolder(id) => tasks@ == seq![Task::RemoveFolder(id)],
                Message::SelectFolder(id) => final(self).selected_folder == Some(id),
                Message::SelectFolderNone => final(self).selected_folder is None,
                Message::DownloadFile(id) => {
                    &&& tasks@.len() == 1
                    &&& tasks@[0] matches Task::Download(file, password)
                    &&& file == id
                    &&& password@ == old(self).password_input@
                },
                Message::DownloadFolder(id) => {
                    &&& tasks@.len() == 1
                    &&& tasks@[0] matches Task::PlanDownload(folder, password)
                    &&& folder == id
                    &&& password@ == old(self).password_input@
                },
                Message::UploadFile => {
                    &&& tasks@.len() == 1
                    &&& tasks@[0] matches Task::PlanUpload(args)
                    &&& args.path@ == old(self).path_input@
                    &&& args.password@ == old(self).password_input@
                    &&& args.folder == old(self).selected_folder
                },
                _ => true,
            },
    {
        match message {
            Message::CreateFolder => just(
                Task::AddFolder(self.selected_folder, self.path_input.clone()),
            ),
            Message::StartUpload => {
                self.is_busy = true;
                self.progress = Progress { left: 1, total: 1 };
                nothing()
            },
            Message::Progress(progress) => {
                self.progress = progress;
                nothing()
            },
            Message::FinishUpload => {
                self.is_busy = false;
                self.progress = Progress { left: 0, total: 1 };
                just(Task::Send(Message::RefreshFiles))
            },
            Message::DeleteFile(id) => just(Task::RemoveFile(id)),
            Message::DeleteFolder(id) => just(Task::RemoveFolder(id)),
            Message::RefreshAbsolutPath => match self.selected_folder {
                Some(id) => just(Task::FindPath(id)),
                None => {
                    let empty: String = String::new();
                    assert(empty@ =~= Seq::empty());
                    just(Task::Send(Message::GetAbsolutPath(empty)))
                },
            },
            Message::GetAbsolutPath(path) => {
                self.show_path(path);
                nothing()
            },
            Message::RefreshParentFolders => match self.selected_folder {
                Some(id) => just(Task::FindParent(id, ParentUse::List)),
                None => just(Task::ListFolders(None, FolderRole::Beside)),
            },
            Message::SetParentFolders(rows) => {
                self.parent_folders = rows;
                nothing()
            },
            Message::SelectFolder(id) => {
                self.selected_folder = Some(id);
                let tasks: Vec<Task> = just(Task::Send(Message::RefreshFiles));
                let tasks: Vec<Task> = also(tasks, Task::Send(Message::RefreshParentFolders));
                let tasks: Vec<Task> = also(tasks, Task::Send(Message::RefreshAbsolutPath));
                let tasks: Vec<Task> = also(tasks, Task::Measure(id));
                assert(tasks_view(tasks@) =~= old(self)@.asked(message@));
                tasks
            },
            Message::SelectParentFolder => match self.selected_folder {
                Some(id) => just(Task::FindParent(id, ParentUse::Select)),
                None => just(Task::Send(Message::Nothing)),
            },
            Message::SelectFolderNone => {
                self.selected_folder = None;
                self.selected_folder_name = String::new();
                self.all_size = None;
                let tasks: Vec<Task> = just(Task::Send(Message::RefreshFiles));
                let tasks: Vec<Task> = also(tasks, Task::Send(Message::RefreshParentFolders));
                assert(tasks_view(tasks@) =~= old(self)@.asked(message@));
                assert(self@ =~= old(self)@.updated(message@));
                tasks
            },
            Message::GetFolderName => match self.selected_folder {
                Some(id) => just(Task::FindName(id)),
                None => nothing(),
            },
            Message::SetFolderName(name) => {
                self.selected_folder_name = name;
                nothing()
            },
            Message::RefreshFiles => self.refresh_files(),
            Message::SetFolders(rows) => {
                self.folders = rows;
                nothing()
            },
            Message::SetFiles(rows) => {
                let copy: Vec<FileRow> = copy_files(&rows);
                self.files = rows;
                just(
                    Task::FetchThumbnails(
                        copy,
                        self.password_input.clone(),
                        self.selected_folder,
                    ),
                )
            },
            Message::SetFilesWithThumbnail(rows, folder) => {
                let shown: i64 = match self.selected_folder {
                    Some(id) => id,
                    None => -1,
                };
                if folder == shown {
                    self.files = rows;
                }
                nothing()
            },
            Message::PasswordChanged(text) => {
                self.password_input = text;
                nothing()
            },
            Message::PathChanged(text) => {
                self.path_input = text;
                nothing()
            },
            Message::UploadFile => {
                self.begin();
                just(
                    Task::PlanUpload(
                        UploadArgs {
                            path: self.path_input.clone(),
                            password: self.password_input.clone(),
                            folder: self.selected_folder,
                        },
                    ),
                )
            },
            Message::UploadFileProgress(rest, total) => self.upload_progress(rest, total),
            Message::DownloadFile(id) => just(Task::Download(id, self.password_input.clone())),
            Message::DownloadFolder(id) => {
                self.begin();
                just(Task::PlanDownload(id, self.password_input.clone()))
            },
            Message::DownloadFolderProgress(rest, total) => self.download_progress(rest, total),
            Message::SelectPathFile => just(Task::PickFile),
            Message::SelectPathFolder => just(Task::PickFolder),
            Message::SetAllSize(size) => {
                self.all_size = Some(size);
                nothing()
            },
            Message::GetThumbnails => nothing(),
            Message::Nothing => nothing(),
        }
    }

    /// Shows the path to the folder, or that it is the root.
    fn show_path(&mut self, path: String)
        ensures
            final(self)@ == old(self)@.updated(MessageView::GetAbsolutPath(path@)),
    {
        if path.as_str().unicode_len() == 0 {
            self.selected_folder_name = "root".to_string();
        } else {
            self.selected_folder_name = path;
        }
    }

    /// Sending or fetching begins.
    fn begin(&mut self)
        ensures
            final(self)@ == old(self)@.starting(),
    {
        self.is_busy = true;
        self.progress = Progress { left: 1, total: 1 };
        self.progress_message = "Начало загрузки..".to_string();
    }

    /// Asks anew for what the folder that is shown holds.
    fn refresh_files(&mut self) -> (tasks: Vec<Task>)
        ensures
            final(self)@ == old(self)@.updated(MessageView::RefreshFiles),
            tasks_view(tasks@) == old(self)@.asked(MessageView::RefreshFiles),
    {
        let tasks: Vec<Task> = just(
            Task::ListFolders(self.selected_folder, FolderRole::Inside),
        );
        let tasks: Vec<Task> = also(tasks, Task::ListFiles(self.selected_folder));
        let tasks: Vec<Task> = match self.selected_folder {
            Some(id) => {
                self.files = Vec::new();
                also(tasks, Task::Measure(id))
            },
            None => also(tasks, Task::Send(Message::SetAllSize(0))),
        };
        assert(tasks_view(tasks@) =~= old(self)@.asked(MessageView::RefreshFiles));
        assert(self@ =~= old(self)@.updated(MessageView::RefreshFiles));
        tasks
    }

    /// Goes on to the next file to send.
    fn upload_progress(&mut self, rest: Vec<UploadArgs>, total: usize) -> (tasks: Vec<Task>)
        ensures
            ({
                let message = MessageView::UploadFileProgress(uploads_view(rest@), total);
                &&& final(self)@ == old(self)@.updated(message)
                &&& tasks_view(tasks@) == old(self)@.asked(message)
            }),
    {
        if rest.len() == 0 {
            self.is_busy = false;
            let mut text: String = String::new();
            append_decimal(&mut text, total as u64);
            text.append(" файлов было загружено");
            assert(text@ =~= decimal(total as nat) + " файлов было загружено"@);
            self.progress_message = text;
            return just(Task::Send(Message::RefreshFiles));
        }
        let ghost given = uploads_view(rest@);
        self.progress = Progress { left: rest.len(), total };
        let mut rest: Vec<UploadArgs> = rest;
        let first: UploadArgs = rest.remove(0);
        assert(first@ == given[0]);
        assert(uploads_view(rest@) =~= given.drop_first());
        self.progress_message = in_progress(&first.path);
        just(Task::Upload(first, rest, total))
    }

    /// Goes on to the next file to fetch.
    fn download_progress(&mut self, rest: Vec<PendingDownload>, total: usize) -> (tasks: Vec<
        Task,
    >)
        ensures
            ({
                let message = MessageView::DownloadFolderProgress(downloads_view(rest@), total);
                &&& final(self)@ == old(self)@.updated(message)
                &&& tasks_view(tasks@) == old(self)@.asked(message)
            }),
    {
        if total == 0 {
            self.is_busy = false;
            self.progress = Progress { left: 1, total: 1 };
            self.progress_message = "Что то не так".to_string();
            return nothing();
        }
        if rest.len() == 0 {
            let mut text: String = "Было загружено ".to_string();
            append_decimal(&mut text, total as u64);
            text.append(" файлов");
            self.progress_message = text;
            return nothing();
        }
        let ghost given = downloads_view(rest@);
        self.progress = Progress { left: rest.len(), total };
        let mut rest: Vec<PendingDownload> = rest;
        let first: PendingDownload = rest.remove(0);
        assert(first@ == given[0]);
        assert(downloads_view(rest@) =~= given.drop_first());
        self.progress_message = in_progress(&first.shown);
        just(Task::DownloadNext(first, rest, total))
    }
}

}
