//! What the window shows.

use vstd::prelude::*;

use super::message::{
    file_rows, folder_rows, FileRow, FileRowView, FolderRow, FolderRowView, Message, MessageView,
};
use super::size_text::{human_readable_size, size_text};
use super::state::{GuiState, GuiStateView};
use crate::text::{append_signed, signed_decimal};

verus! {

/// What the window is called.
pub const TITLE: &'static str = "Telegram Storage GUI";

/// A button that leads to a folder.
#[derive(Debug)]
pub struct FolderButton {
    pub label: String,
    pub message: Message,
    /// The folder is the one that is shown.
    pub current: bool,
}

/// A folder inside the one that is shown.
#[derive(Debug)]
pub struct FolderLine {
    pub label: String,
    pub open: Message,
    pub delete: Message,
}

/// A file inside the folder that is shown.
#[derive(Debug)]
pub struct FileLine {
    pub thumbnail: Option<Vec<u8>>,
    pub name: String,
    pub size: String,
    pub download: Message,
    pub delete: Message,
}

/// What the window shows beside what it holds.
#[derive(Debug)]
pub struct Screen {
    pub parents: Vec<FolderButton>,
    pub folders: Vec<FolderLine>,
    pub files: Vec<FileLine>,
    pub total: String,
    /// What the download button does, if it does anything.
    pub download: Option<Message>,
}

/// A `FolderButton` as mathematical values.
pub struct FolderButtonView {
    pub label: Seq<char>,
    pub message: MessageView,
    pub current: bool,
}

/// A `FolderLine` as mathematical values.
pub struct FolderLineView {
    pub label: Seq<char>,
    pub open: MessageView,
    pub delete: MessageView,
}

/// A `FileLine` as mathematical values.
pub struct FileLineView {
    pub thumbnail: Option<Seq<u8>>,
    pub name: Seq<char>,
    pub size: Seq<char>,
    pub download: MessageView,
    pub delete: MessageView,
}

/// A `Screen` as mathematical values.
#[verifier::ext_equal]
pub struct ScreenView {
    pub parents: Seq<FolderButtonView>,
    pub folders: Seq<FolderLineView>,
    pub files: Seq<FileLineView>,
    pub total: Seq<char>,
    pub download: Option<MessageView>,
}

impl View for FolderButton {
    type V = FolderButtonView;

    open spec fn view(&self) -> FolderButtonView {
        FolderButtonView {
            label: self.label@,
            message: self.message@,
            current: self.current,
        }
    }
}

impl View for FolderLine {
    type V = FolderLineView;

    open spec fn view(&self) -> FolderLineView {
        FolderLineView { label: self.label@, open: self.open@, delete: self.delete@ }
    }
}

impl View for FileLine {
    type V = FileLineView;

    open spec fn view(&self) -> FileLineView {
        FileLineView {
            thumbnail: match self.thumbnail {
                Some(bytes) => Some(bytes@),
                None => None,
            },
            name: self.name@,
            size: self.size@,
            download: self.download@,
            delete: self.delete@,
        }
    }
}

impl View for Screen {
    type V = ScreenView;

    open spec fn view(&self) -> ScreenView {
        ScreenView {
            parents: self.parents@.map_values(|b: FolderButton| b@),
            folders: self.folders@.map_values(|l: FolderLine| l@),
            files: self.files@.map_values(|l: FileLine| l@),
            total: self.total@,
            download: match self.download {
                Some(message) => Some(message@),
                None => None,
            },
        }
    }
}

/// The button for a folder beside the one that is shown.
pub open spec fn parent_button(row: FolderRowView, selected: Option<i64>) -> FolderButtonView {
    FolderButtonView {
        label: row.2,
        message: MessageView::SelectFolder(row.0),
        current: Some(row.0) == selected,
    }
}

/// The line for a folder inside the one that is shown.
pub open spec fn folder_line(row: FolderRowView) -> FolderLineView {
    FolderLineView {
        label: row.2,
        open: MessageView::SelectFolder(row.0),
        delete: MessageView::DeleteFolder(row.0),
    }
}

/// The line for a file inside the folder that is shown.
pub open spec fn file_line(row: FileRowView) -> FileLineView {
    FileLineView {
        thumbnail: if row.3.len() == 0 {
            None
        } else {
            Some(row.3)
        },
        name: "Name: "@ + row.1,
        size: "Size: "@ + signed_decimal(row.2 as int) + " bytes"@,
        download: MessageView::DownloadFile(row.0),
        delete: MessageView::DeleteFile(row.0),
    }
}

impl GuiStateView {
    /// The buttons on the left: the way up, then the folders beside the one that is shown. At the
    /// root there are none.
    pub open spec fn parents(self) -> Seq<FolderButtonView> {
        if self.selected_folder is None {
            Seq::empty()
        } else {
            seq![
                FolderButtonView {
                    label: ".."@,
                    message: MessageView::SelectParentFolder,
                    current: false,
                },
            ] + self.parent_folders.map_values(
                |row: FolderRowView| parent_button(row, self.selected_folder),
            )
        }
    }

    /// What the window shows.
    pub open spec fn screen(self) -> ScreenView {
        ScreenView {
            parents: self.parents(),
            folders: self.folders.map_values(|row: FolderRowView| folder_line(row)),
            files: self.files.map_values(|row: FileRowView| file_line(row)),
            total: match self.all_size {
                Some(size) => "Total size: "@ + size_text(size as int),
                None => ""@,
            },
            download: match self.selected_folder {
                Some(id) => Some(MessageView::DownloadFolder(id)),
                None => None,
            },
        }
    }
}

/// The buttons on the left.
fn parents(state: &GuiState) -> (buttons: Vec<FolderButton>)
    ensures
        buttons@.map_values(|b: FolderButton| b@) == state@.parents(),
{
    let mut buttons: Vec<FolderButton> = Vec::new();
    let selected: i64 = match state.selected_folder {
        Some(id) => id,
        None => {
            assert(buttons@.map_values(|b: FolderButton| b@) =~= state@.parents());
            return buttons;
        },
    };
    buttons.push(
        FolderButton {
            label: "..".to_string(),
            message: Message::SelectParentFolder,
            current: false,
        },
    );
    let mut i: usize = 0;
    while i < state.parent_folders.len()
        invariant
            0 <= i <= state.parent_folders@.len(),
            state.selected_folder == Some(selected),
            buttons@.len() == i + 1,
            forall|j: int| 0 <= j < i + 1 ==> (#[trigger] buttons@[j])@ == state@.parents()[j],
        decreases state.parent_folders@.len() - i,
    {
        let row: &FolderRow = &state.parent_folders[i];
        buttons.push(
            FolderButton {
                label: row.2.clone(),
                message: Message::SelectFolder(row.0),
                current: row.0 == selected,
            },
        );
        assert(buttons@[i + 1]@ == parent_button(
            folder_rows(state.parent_folders@)[i as int],
            state.selected_folder,
        ));
        i = i + 1;
    }
    assert(buttons@.map_values(|b: FolderButton| b@) =~= state@.parents());
    buttons
}

/// The folders inside the one that is shown.
fn folder_lines(rows: &Vec<FolderRow>) -> (lines: Vec<FolderLine>)
    ensures
        lines@.map_values(|l: FolderLine| l@) == folder_rows(rows@).map_values(
            |row: FolderRowView| folder_line(row),
        ),
{
    let mut lines: Vec<FolderLine> = Vec::new();
    let mut i: usize = 0;
    while i < rows.len()
        invariant
            0 <= i <= rows@.len(),
            lines@.len() == i,
            forall|j: int| 0 <= j < i ==> (#[trigger] lines@[j])@ == folder_line(folder_rows(rows@)[j]),
        decreases rows@.len() - i,
    {
        let row: &FolderRow = &rows[i];
        lines.push(
            FolderLine {
                label: row.2.clone(),
                open: Message::SelectFolder(row.0),
                delete: Message::DeleteFolder(row.0),
            },
        );
        i = i + 1;
    }
    assert(lines@.map_values(|l: FolderLine| l@) =~= folder_rows(rows@).map_values(
        |row: FolderRowView| folder_line(row),
    ));
    lines
}

/// The files inside the folder that is shown.
fn file_lines(rows: &Vec<FileRow>) -> (lines: Vec<FileLine>)
    ensures
        lines@.map_values(|l: FileLine| l@) == file_rows(rows@).map_values(
            |row: FileRowView| file_line(row),
        ),
{
    let mut lines: Vec<FileLine> = Vec::new();
    let mut i: usize = 0;
    while i < rows.len()
        invariant
            0 <= i <= rows@.len(),
            lines@.len() == i,
            forall|j: int| 0 <= j < i ==> (#[trigger] lines@[j])@ == file_line(file_rows(rows@)[j]),
        decreases rows@.len() - i,
    {
        let row: &FileRow = &rows[i];
        let thumbnail: Option<Vec<u8>> = if row.3.len() == 0 {
            None
        } else {
            Some(vstd::slice::slice_to_vec(row.3.as_slice()))
        };
        let mut name: String = "Name: ".to_string();
        name.append(row.1.as_str());
        let mut size: String = "Size: ".to_string();
        append_signed(&mut size, row.2);
        size.append(" bytes");
        lines.push(
            FileLine {
                thumbnail,
                name,
                size,
                download: Message::DownloadFile(row.0),
                delete: Message::DeleteFile(row.0),
            },
        );
        assert(lines@[i as int]@ == file_line(file_rows(rows@)[i as int]));
        i = i + 1;
    }
    assert(lines@.map_values(|l: FileLine| l@) =~= file_rows(rows@).map_values(
        |row: FileRowView| file_line(row),
    ));
    lines
}

impl GuiState {
    /// What the window shows.
    pub fn screen(&self) -> (screen: Screen)
        ensures
            screen@ == self@.screen(),
    {
        let total: String = match self.all_size {
            Some(size) => {
                let mut text: String = "Total size: ".to_string();
                text.append(human_readable_size(size).as_str());
                text
            },
            None => "".to_string(),
        };
        let download: Option<Message> = match self.selected_folder {
            Some(id) => Some(Message::DownloadFolder(id)),
            None => None,
        };
        Screen {
            parents: parents(self),
            folders: folder_lines(&self.folders),
            files: file_lines(&self.files),
            total,
            download,
        }
    }
}

/// Every folder that is held inside the selected one is shown, in its order and under its name; opening
/// it selects it, and removing it removes it and no other.
pub proof fn law_every_folder_is_shown(state: GuiStateView, i: int)
    requires
        0 <= i < state.folders.len(),
    ensures
        ({
            let lines = state.screen().folders;
            &&& lines.len() == state.folders.len()
            &&& lines[i].label == state.folders[i].2
            &&& lines[i].open == MessageView::SelectFolder(state.folders[i].0)
            &&& lines[i].delete == MessageView::DeleteFolder(state.folders[i].0)
        }),
{
}

/// Every file that is held is shown, in its order, with its name, its size in bytes, and its thumbnail
/// where it has one; fetching or removing it is done to it and no other.
pub proof fn law_every_file_is_shown(state: GuiStateView, i: int)
    requires
        0 <= i < state.files.len(),
    ensures
        ({
            let lines = state.screen().files;
            let row = state.files[i];
            &&& lines.len() == state.files.len()
            &&& lines[i].name == "Name: "@ + row.1
            &&& lines[i].size == "Size: "@ + signed_decimal(row.2 as int) + " bytes"@
            &&& row.3.len() > 0 ==> lines[i].thumbnail == Some(row.3)
            &&& row.3.len() == 0 ==> lines[i].thumbnail is None
            &&& lines[i].download == MessageView::DownloadFile(row.0)
            &&& lines[i].delete == MessageView::DeleteFile(row.0)
        }),
{
}

/// At the root there are no buttons on the left. In a folder the first leads up, and then each folder
/// beside it has one, in its order and under its name, that selects it; that of the selected folder is
/// marked, and no other.
pub proof fn law_every_folder_beside_is_shown(state: GuiStateView, i: int)
    requires
        0 <= i < state.parent_folders.len(),
    ensures
        state.selected_folder is None ==> state.screen().parents.len() == 0,
        state.selected_folder matches Some(id) ==> {
            let buttons = state.screen().parents;
            let row = state.parent_folders[i];
            &&& buttons.len() == state.parent_folders.len() + 1
            &&& buttons[0].label == ".."@
            &&& buttons[0].message == MessageView::SelectParentFolder
            &&& !buttons[0].current
            &&& buttons[i + 1].label == row.2
            &&& buttons[i + 1].message == MessageView::SelectFolder(row.0)
            &&& buttons[i + 1].current == (row.0 == id)
        },
{
}

/// The number of lines is the number of what is held, also where nothing is held; the size is shown
/// where it is known; and the selected folder is the one that can be fetched.
pub proof fn law_rest_of_the_screen(state: GuiStateView)
    ensures
        state.screen().folders.len() == state.folders.len(),
        state.screen().files.len() == state.files.len(),
        state.screen().parents.len() == (if state.selected_folder is None {
            0
        } else {
            state.parent_folders.len() + 1
        }),
        state.selected_folder is Some ==> {
            &&& state.screen().parents[0].label == ".."@
            &&& state.screen().parents[0].message == MessageView::SelectParentFolder
        },
        state.all_size matches Some(size) ==> state.screen().total == "Total size: "@ + size_text(
            size as int,
        ),
        state.all_size is None ==> state.screen().total == ""@,
        state.selected_folder matches Some(id) ==> state.screen().download == Some(
            MessageView::DownloadFolder(id),
        ),
        state.selected_folder is None ==> state.screen().download is None,
{
}

}
