//! What holds of the window whatever it is told.

use vstd::prelude::*;

use super::message::{
    FileRowView, FolderRole, FolderRowView, MessageView, ParentUse, PendingDownloadView, Progress,
    TaskView,
};
use super::state::{folder_or_root, GuiStateView};
use crate::text::decimal;
use crate::walk::upload::UploadArgsView;

verus! {

/// A folder that is created goes into the one that is selected, and to the root where none is, under
/// the name that was typed, whichever was done first.
pub proof fn law_created_folder_goes_into_the_selected_one(
    state: GuiStateView,
    id: i64,
    name: Seq<char>,
)
    ensures
        ({
            let selected = state.updated(MessageView::SelectFolder(id));
            let root = state.updated(MessageView::SelectFolderNone);
            let typed = state.updated(MessageView::PathChanged(name));
            &&& selected.asked(MessageView::CreateFolder) == seq![
                TaskView::AddFolder(Some(id), state.path_input),
            ]
            &&& root.asked(MessageView::CreateFolder) == seq![
                TaskView::AddFolder(None, state.path_input),
            ]
            &&& selected.updated(MessageView::PathChanged(name)).asked(MessageView::CreateFolder)
                == seq![TaskView::AddFolder(Some(id), name)]
            &&& typed.updated(MessageView::SelectFolder(id)).asked(MessageView::CreateFolder)
                == seq![TaskView::AddFolder(Some(id), name)]
            &&& typed.updated(MessageView::SelectFolderNone).asked(MessageView::CreateFolder)
                == seq![TaskView::AddFolder(None, name)]
        }),
        state.asked(MessageView::CreateFolder) == seq![
            TaskView::AddFolder(state.selected_folder, state.path_input),
        ],
{
}

/// What is sent is what was typed, under the password that was typed, into the folder that is
/// selected, or to the root where none is.
pub proof fn law_upload_is_of_what_was_typed(
    state: GuiStateView,
    id: i64,
    path: Seq<char>,
    password: Seq<char>,
)
    ensures
        ({
            let typed = state.updated(MessageView::PathChanged(path)).updated(
                MessageView::PasswordChanged(password),
            );
            &&& typed.updated(MessageView::SelectFolder(id)).asked(MessageView::UploadFile)
                == seq![
                TaskView::PlanUpload(UploadArgsView { path, password, folder: Some(id) }),
            ]
            &&& typed.updated(MessageView::SelectFolderNone).asked(MessageView::UploadFile)
                == seq![TaskView::PlanUpload(UploadArgsView { path, password, folder: None })]
            &&& typed.asked(MessageView::UploadFile) == seq![
                TaskView::PlanUpload(
                    UploadArgsView { path, password, folder: state.selected_folder },
                ),
            ]
        }),
{
}

/// The file or the folder that is named is fetched, under the password that was typed.
pub proof fn law_download_is_of_what_was_named(state: GuiStateView, id: i64, password: Seq<char>)
    ensures
        ({
            let typed = state.updated(MessageView::PasswordChanged(password));
            &&& typed.asked(MessageView::DownloadFile(id)) == seq![TaskView::Download(id, password)]
            &&& typed.updated(MessageView::DownloadFile(id)) == typed
            &&& typed.asked(MessageView::DownloadFolder(id)) == seq![
                TaskView::PlanDownload(id, password),
            ]
        }),
{
}

/// The file or the folder that is named is removed, and nothing else; what the window holds stays as it
/// is until it is told of the change.
pub proof fn law_removal_is_of_what_was_named(state: GuiStateView, id: i64)
    ensures
        state.asked(MessageView::DeleteFile(id)) == seq![TaskView::RemoveFile(id)],
        state.updated(MessageView::DeleteFile(id)) == state,
        state.asked(MessageView::DeleteFolder(id)) == seq![TaskView::RemoveFolder(id)],
        state.updated(MessageView::DeleteFolder(id)) == state,
{
}

/// At the root, the folders, the files and the size of the root are asked for, the folders of the root
/// stand beside, and the path is empty.
pub proof fn law_root(state: GuiStateView)
    ensures
        ({
            let root = state.updated(MessageView::SelectFolderNone);
            &&& root.selected_folder is None
            &&& root.selected_folder_name.len() == 0
            &&& root.all_size is None
            &&& root.asked(MessageView::RefreshFiles) == seq![
                TaskView::ListFolders(None, FolderRole::Inside),
                TaskView::ListFiles(None),
                TaskView::Send(MessageView::SetAllSize(0)),
            ]
            &&& root.asked(MessageView::RefreshParentFolders) == seq![
                TaskView::ListFolders(None, FolderRole::Beside),
            ]
            &&& root.asked(MessageView::RefreshAbsolutPath) == seq![
                TaskView::Send(MessageView::GetAbsolutPath(Seq::empty())),
            ]
            &&& root.asked(MessageView::SelectParentFolder) == seq![
                TaskView::Send(MessageView::Nothing),
            ]
            &&& root.updated(MessageView::RefreshFiles) == root
        }),
        state.asked(MessageView::SelectFolderNone) == seq![
            TaskView::Send(MessageView::RefreshFiles),
            TaskView::Send(MessageView::RefreshParentFolders),
        ],
{
}

/// Selecting a folder has all that is shown of it asked for anew; the files of the one before are
/// taken away when that begins. The way up leads to its parent, and its name is its own.
pub proof fn law_selecting_a_folder(state: GuiStateView, id: i64)
    ensures
        ({
            let next = state.updated(MessageView::SelectFolder(id));
            &&& next == GuiStateView { selected_folder: Some(id), ..state }
            &&& next.updated(MessageView::RefreshFiles) == GuiStateView {
                files: Seq::empty(),
                ..next
            }
            &&& next.asked(MessageView::SelectParentFolder) == seq![
                TaskView::FindParent(id, ParentUse::Select),
            ]
            &&& next.asked(MessageView::GetFolderName) == seq![TaskView::FindName(id)]
        }),
        state.asked(MessageView::SelectFolder(id)) == seq![
            TaskView::Send(MessageView::RefreshFiles),
            TaskView::Send(MessageView::RefreshParentFolders),
            TaskView::Send(MessageView::RefreshAbsolutPath),
            TaskView::Measure(id),
        ],
{
}

/// What was listed is what is held, and nothing else changes. For files that were listed the thumbnails
/// are asked for, under the password that was typed and for the folder that is selected.
pub proof fn law_listings_are_held(
    state: GuiStateView,
    folders: Seq<FolderRowView>,
    files: Seq<FileRowView>,
)
    ensures
        state.updated(MessageView::SetFolders(folders)) == (GuiStateView { folders, ..state }),
        state.updated(MessageView::SetParentFolders(folders)) == (GuiStateView {
            parent_folders: folders,
            ..state
        }),
        state.updated(MessageView::SetFiles(files)) == (GuiStateView { files, ..state }),
        state.asked(MessageView::SetFolders(folders)).len() == 0,
        state.asked(MessageView::SetParentFolders(folders)).len() == 0,
        state.asked(MessageView::SetFiles(files)) == seq![
            TaskView::FetchThumbnails(files, state.password_input, state.selected_folder),
        ],
{
}

/// Thumbnails that come for the folder that is selected are held with their files, and nothing else
/// changes. The root goes by the number -1, and any folder by its own.
pub proof fn law_thumbnails_are_held(state: GuiStateView, files: Seq<FileRowView>, folder: i64)
    requires
        match state.selected_folder {
            Some(id) => folder == id,
            None => folder == -1,
        },
    ensures
        state.updated(MessageView::SetFilesWithThumbnail(files, folder)) == (GuiStateView {
            files,
            ..state
        }),
        folder_or_root(state.selected_folder) == folder,
{
}

/// A path that was found is shown, or the word for the root where it is empty; so are a name and a
/// size, and nothing else changes.
pub proof fn law_findings_are_held(state: GuiStateView, text: Seq<char>, size: i64)
    ensures
        text.len() > 0 ==> state.updated(MessageView::GetAbsolutPath(text)) == (GuiStateView {
            selected_folder_name: text,
            ..state
        }),
        text.len() == 0 ==> state.updated(MessageView::GetAbsolutPath(text)) == (GuiStateView {
            selected_folder_name: "root"@,
            ..state
        }),
        state.updated(MessageView::SetFolderName(text)) == (GuiStateView {
            selected_folder_name: text,
            ..state
        }),
        state.updated(MessageView::SetAllSize(size)) == (GuiStateView {
            all_size: Some(size),
            ..state
        }),
{
}

/// What was typed is held until something else is typed, and nothing else changes it.
pub proof fn law_what_was_typed_is_kept(state: GuiStateView, text: Seq<char>, message: MessageView)
    ensures
        state.updated(MessageView::PasswordChanged(text)) == (GuiStateView {
            password_input: text,
            ..state
        }),
        state.updated(MessageView::PathChanged(text)) == (GuiStateView {
            path_input: text,
            ..state
        }),
        !(message is PasswordChanged) ==> state.updated(message).password_input
            == state.password_input,
        !(message is PathChanged) ==> state.updated(message).path_input == state.path_input,
{
}

/// Only what is told of a thing changes it: the selection, what was listed, the name and the size stay
/// as they are with every other message.
pub proof fn law_nothing_else_changes(state: GuiStateView, message: MessageView)
    ensures
        ({
            let next = state.updated(message);
            &&& !(message is SelectFolder || message is SelectFolderNone) ==> next.selected_folder
                == state.selected_folder
            &&& !(message is SetParentFolders) ==> next.parent_folders == state.parent_folders
            &&& !(message is SetFolders) ==> next.folders == state.folders
            &&& !(message is SetFiles || message is SetFilesWithThumbnail || message
                is RefreshFiles) ==> next.files == state.files
            &&& !(message is GetAbsolutPath || message is SetFolderName || message
                is SelectFolderNone) ==> next.selected_folder_name == state.selected_folder_name
            &&& !(message is SetAllSize || message is SelectFolderNone) ==> next.all_size
                == state.all_size
        }),
{
}

/// The window becomes busy when sending, or fetching a folder, begins, and is no longer busy when all
/// has been sent or nothing can be fetched; no other message changes that.
pub proof fn law_when_the_window_is_busy(state: GuiStateView, message: MessageView)
    ensures
        ({
            let busy = state.updated(message).is_busy;
            match message {
                MessageView::StartUpload => busy,
                MessageView::UploadFile => busy,
                MessageView::DownloadFolder(_) => busy,
                MessageView::FinishUpload => !busy,
                MessageView::UploadFileProgress(rest, _) => busy == (state.is_busy && rest.len()
                    > 0),
                MessageView::DownloadFolderProgress(_, total) => busy == (state.is_busy && total
                    > 0),
                _ => busy == state.is_busy,
            }
        }),
{
}

/// How far the window says that things are: nothing is done when sending or fetching begins or fails,
/// all is done when it is finished, and in between as many are left as are still to come. No other
/// message changes that.
pub proof fn law_progress(state: GuiStateView, message: MessageView)
    ensures
        ({
            let progress = state.updated(message).progress;
            match message {
                MessageView::StartUpload => progress == (Progress { left: 1, total: 1 }),
                MessageView::UploadFile => progress == (Progress { left: 1, total: 1 }),
                MessageView::DownloadFolder(_) => progress == (Progress { left: 1, total: 1 }),
                MessageView::FinishUpload => progress == (Progress { left: 0, total: 1 }),
                MessageView::Progress(told) => progress == told,
                MessageView::UploadFileProgress(rest, total) => if rest.len() == 0 {
                    progress == state.progress
                } else {
                    progress.left == rest.len() as usize && progress.total == total
                },
                MessageView::DownloadFolderProgress(rest, total) => if total == 0 {
                    progress == (Progress { left: 1, total: 1 })
                } else if rest.len() == 0 {
                    progress == state.progress
                } else {
                    progress.left == rest.len() as usize && progress.total == total
                },
                _ => progress == state.progress,
            }
        }),
{
}

/// What the window says of sending and fetching: that it begins, which file is under way, how many
/// there were once all is done, or that something is wrong. No other message changes that.
pub proof fn law_progress_in_words(state: GuiStateView, message: MessageView)
    ensures
        ({
            let said = state.updated(message).progress_message;
            match message {
                MessageView::UploadFile => said == "Начало загрузки.."@,
                MessageView::DownloadFolder(_) => said == "Начало загрузки.."@,
                MessageView::UploadFileProgress(rest, total) => if rest.len() == 0 {
                    said == decimal(total as nat) + " файлов было загружено"@
                } else {
                    said == "Файл "@ + rest[0].path + " в процессе.."@
                },
                MessageView::DownloadFolderProgress(rest, total) => if total == 0 {
                    said == "Что то не так"@
                } else if rest.len() == 0 {
                    said == "Было загружено "@ + decimal(total as nat) + " файлов"@
                } else {
                    said == "Файл "@ + rest[0].shown + " в процессе.."@
                },
                _ => said == state.progress_message,
            }
        }),
{
}

/// The first of the files that are to be sent or fetched is the next, and the rest are kept in their
/// order. When all have been sent, the files are listed anew.
pub proof fn law_next_file(
    state: GuiStateView,
    upload: UploadArgsView,
    uploads: Seq<UploadArgsView>,
    download: PendingDownloadView,
    downloads: Seq<PendingDownloadView>,
    total: usize,
)
    requires
        total > 0,
    ensures
        state.asked(MessageView::UploadFileProgress(seq![upload] + uploads, total)) == seq![
            TaskView::Upload(upload, uploads, total),
        ],
        state.asked(MessageView::UploadFileProgress(Seq::empty(), total)) == seq![
            TaskView::Send(MessageView::RefreshFiles),
        ],
        state.asked(MessageView::DownloadFolderProgress(seq![download] + downloads, total)) == seq![
            TaskView::DownloadNext(download, downloads, total),
        ],
        state.asked(MessageView::DownloadFolderProgress(Seq::empty(), total)).len() == 0,
        state.asked(MessageView::DownloadFolderProgress(downloads, 0)).len() == 0,
{
    assert((seq![upload] + uploads).drop_first() =~= uploads);
    assert((seq![download] + downloads).drop_first() =~= downloads);
}

/// A path on disk is asked for as a file or as a folder, and once sending is finished the files are
/// listed anew.
pub proof fn law_other_requests(state: GuiStateView)
    ensures
        state.asked(MessageView::SelectPathFile) == seq![TaskView::PickFile],
        state.asked(MessageView::SelectPathFolder) == seq![TaskView::PickFolder],
        state.asked(MessageView::FinishUpload) == seq![TaskView::Send(MessageView::RefreshFiles)],
{
}

/// What is only to be held asks for nothing.
pub proof fn law_quiet_messages(state: GuiStateView, message: MessageView)
    requires
        message is SetParentFolders || message is SetFolders || message is SetFilesWithThumbnail
            || message is GetThumbnails || message is GetAbsolutPath || message is SetFolderName
            || message is PasswordChanged || message is PathChanged || message is StartUpload
            || message is Progress || message is Nothing || message is SetAllSize,
    ensures
        state.asked(message).len() == 0,
{
}

/// A request that is not for sending or fetching a folder, and is no news of anything, leaves what the
/// window holds as it is.
pub proof fn law_requests_change_nothing(state: GuiStateView, message: MessageView)
    requires
        message is RefreshParentFolders || message is SelectParentFolder || message is GetFolderName
            || message is GetThumbnails || message is DeleteFolder || message is DeleteFile
            || message is RefreshAbsolutPath || message is DownloadFile || message is SelectPathFile
            || message is SelectPathFolder || message is CreateFolder || message is Nothing,
    ensures
        state.updated(message) == state,
{
}

/// The window opens at the root, with nothing listed and nothing typed, and not busy.
pub proof fn law_first_window()
    ensures
        ({
            let first = GuiStateView::initial();
            &&& first.selected_folder is None
            &&& first.selected_folder_name.len() == 0
            &&& first.parent_folders.len() == 0
            &&& first.folders.len() == 0
            &&& first.files.len() == 0
            &&& first.password_input.len() == 0
            &&& first.path_input.len() == 0
            &&& !first.is_busy
            &&& first.progress == Progress { left: 1, total: 1 }
            &&& first.progress_message == "Hello!"@
            &&& first.all_size is None
        }),
{
}

}
