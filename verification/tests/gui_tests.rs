use tg_storage::gui::message::{
    FileRow, FolderRole, FolderRow, Message, ParentUse, PendingDownload, Progress, Task,
};
use tg_storage::gui::screen::TITLE;
use tg_storage::gui::size_text::human_readable_size;
use tg_storage::gui::state::GuiState;
use tg_storage::gui::tasks::{
    changed, download_done, download_planned, files_listed, folder_picked, folders_listed,
    measured, name_found, name_on_disk, parent_found, path_found, path_picked, upload_done,
    upload_planned, Thumbnails, ThumbnailsStep,
};
use tg_storage::storage::models::StorageError;
use tg_storage::walk::download::DownloadArgs;
use tg_storage::walk::upload::UploadArgs;

fn state() -> GuiState {
    GuiState::new().0
}

fn shown<T: std::fmt::Debug>(value: &T) -> String {
    format!("{:?}", value)
}

fn folder(id: i64, parent: Option<i64>, name: &str) -> FolderRow {
    (id, parent, name.to_string())
}

fn file(id: i64, name: &str, size: i64, thumbnail: &[u8]) -> FileRow {
    (id, name.to_string(), size, thumbnail.to_vec())
}

fn upload(path: &str) -> UploadArgs {
    UploadArgs { path: path.to_string(), password: "pw".to_string(), folder: Some(2) }
}

fn pending(id: i64) -> PendingDownload {
    PendingDownload {
        args: DownloadArgs {
            file_id: id,
            password: "pw".to_string(),
            out: vec![format!("f{}", id)],
        },
        shown: format!("/out/f{}", id),
    }
}

/// The size in words as floating point gives it.
fn float_text(size: i64) -> String {
    let units = ["B", "KB", "MB", "GB", "TB"];
    let mut value = size as f64;
    let mut unit = 0;
    while value >= 1024.0 && unit < units.len() - 1 {
        value /= 1024.0;
        unit += 1;
    }
    if unit == 0 {
        format!("{:.0} {}", value, units[unit])
    } else {
        format!("{:.2} {}", value, units[unit])
    }
}

#[test]
fn sizes_in_words() {
    assert_eq!(human_readable_size(0), "0 B");
    assert_eq!(human_readable_size(1023), "1023 B");
    assert_eq!(human_readable_size(1024), "1.00 KB");
    assert_eq!(human_readable_size(1536), "1.50 KB");
    assert_eq!(human_readable_size(1048575), "1024.00 KB");
    assert_eq!(human_readable_size(1048576), "1.00 MB");
    assert_eq!(human_readable_size(5_000_000_000), "4.66 GB");
    assert_eq!(human_readable_size(1 << 40), "1.00 TB");
    assert_eq!(human_readable_size(i64::MAX), "8388608.00 TB");
    assert_eq!(human_readable_size(-5), "-5 B");
    assert_eq!(human_readable_size(i64::MIN), "-9223372036854775808 B");
}

#[test]
fn sizes_in_words_are_those_of_floating_point() {
    for size in -3000i64..200_000 {
        assert_eq!(human_readable_size(size), float_text(size));
    }
    let mut seed: u64 = 1;
    for _ in 0..200_000 {
        seed = seed.wrapping_mul(6364136223846793005).wrapping_add(1442695040888963407);
        let size = (seed >> (seed % 60)) as i64;
        assert_eq!(human_readable_size(size), float_text(size));
    }
    for shift in 0..63 {
        for near in -3i64..4 {
            let size = (1i64 << shift).wrapping_add(near);
            assert_eq!(human_readable_size(size), float_text(size));
            assert_eq!(human_readable_size(size.wrapping_neg()), float_text(size.wrapping_neg()));
        }
    }
}

#[test]
fn sizes_half_way_go_to_the_even_digit() {
    assert_eq!(human_readable_size(1152), "1.12 KB");
    assert_eq!(human_readable_size(1408), "1.38 KB");
    assert_eq!(float_text(1152), "1.12 KB");
}

#[test]
fn the_window_as_it_opens() {
    let (state, tasks) = GuiState::new();
    assert!(state.parent_folders.is_empty() && state.folders.is_empty());
    assert!(state.files.is_empty());
    assert_eq!(state.selected_folder, None);
    assert_eq!(state.progress_message, "Hello!");
    assert_eq!(state.progress, Progress { left: 1, total: 1 });
    assert!(!state.is_busy);
    assert_eq!(state.all_size, None);
    assert_eq!(
        shown(&tasks),
        "[Send(RefreshFiles), Send(RefreshParentFolders), Send(RefreshAbsolutPath)]"
    );
    assert_eq!(TITLE, "Telegram Storage GUI");
}

#[test]
fn selecting_a_folder_asks_for_what_it_holds() {
    let mut s = state();
    let tasks = s.update(Message::SelectFolder(5));
    assert_eq!(s.selected_folder, Some(5));
    assert_eq!(
        shown(&tasks),
        "[Send(RefreshFiles), Send(RefreshParentFolders), Send(RefreshAbsolutPath), Measure(5)]"
    );
    s.files = vec![file(1, "old", 1, &[])];
    let tasks = s.update(Message::RefreshFiles);
    assert!(s.files.is_empty());
    assert_eq!(
        shown(&tasks),
        "[ListFolders(Some(5), Inside), ListFiles(Some(5)), Measure(5)]"
    );
    assert_eq!(shown(&s.update(Message::RefreshParentFolders)), "[FindParent(5, List)]");
    assert_eq!(shown(&s.update(Message::RefreshAbsolutPath)), "[FindPath(5)]");
    assert_eq!(shown(&s.update(Message::SelectParentFolder)), "[FindParent(5, Select)]");
    assert_eq!(shown(&s.update(Message::GetFolderName)), "[FindName(5)]");
}

#[test]
fn at_the_root() {
    let mut s = state();
    s.files = vec![file(1, "old", 1, &[])];
    let tasks = s.update(Message::RefreshFiles);
    assert_eq!(s.files.len(), 1);
    assert_eq!(
        shown(&tasks),
        "[ListFolders(None, Inside), ListFiles(None), Send(SetAllSize(0))]"
    );
    assert_eq!(shown(&s.update(Message::RefreshParentFolders)), "[ListFolders(None, Beside)]");
    assert_eq!(shown(&s.update(Message::RefreshAbsolutPath)), "[Send(GetAbsolutPath(\"\"))]");
    assert_eq!(shown(&s.update(Message::SelectParentFolder)), "[Send(Nothing)]");
}

#[test]
fn going_back_to_the_root() {
    let mut s = state();
    s.update(Message::SelectFolder(5));
    s.update(Message::SetFolderName("docs".to_string()));
    s.update(Message::SetAllSize(9));
    let tasks = s.update(Message::SelectFolderNone);
    assert_eq!(s.selected_folder, None);
    assert_eq!(s.selected_folder_name, "");
    assert_eq!(s.all_size, None);
    assert_eq!(shown(&tasks), "[Send(RefreshFiles), Send(RefreshParentFolders)]");
}

#[test]
fn the_path_that_is_shown() {
    let mut s = state();
    assert!(s.update(Message::GetAbsolutPath("a/b".to_string())).is_empty());
    assert_eq!(s.selected_folder_name, "a/b");
    assert!(s.update(Message::GetAbsolutPath(String::new())).is_empty());
    assert_eq!(s.selected_folder_name, "root");
}

#[test]
fn texts_and_listings_are_taken_over() {
    let mut s = state();
    s.update(Message::PasswordChanged("pw".to_string()));
    s.update(Message::PathChanged("/tmp/x".to_string()));
    s.update(Message::SetParentFolders(vec![folder(1, None, "a")]));
    s.update(Message::SetFolders(vec![folder(2, Some(1), "b")]));
    s.update(Message::SetFolderName("name".to_string()));
    s.update(Message::SetAllSize(7));
    assert_eq!(s.password_input, "pw");
    assert_eq!(s.path_input, "/tmp/x");
    assert_eq!(s.parent_folders, vec![folder(1, None, "a")]);
    assert_eq!(s.folders, vec![folder(2, Some(1), "b")]);
    assert_eq!(s.selected_folder_name, "name");
    assert_eq!(s.all_size, Some(7));
    assert_eq!(
        shown(&s.update(Message::CreateFolder)),
        "[AddFolder(None, \"/tmp/x\")]"
    );
    let tasks = s.update(Message::SetFiles(vec![file(3, "f", 4, &[])]));
    assert_eq!(s.files, vec![file(3, "f", 4, &[])]);
    assert_eq!(shown(&tasks), "[FetchThumbnails([(3, \"f\", 4, [])], \"pw\", None)]");
}

#[test]
fn messages_that_only_ask() {
    let mut s = state();
    s.update(Message::PasswordChanged("pw".to_string()));
    assert_eq!(shown(&s.update(Message::DeleteFile(1))), "[RemoveFile(1)]");
    assert_eq!(shown(&s.update(Message::DeleteFolder(2))), "[RemoveFolder(2)]");
    assert_eq!(shown(&s.update(Message::DownloadFile(3))), "[Download(3, \"pw\")]");
    assert_eq!(shown(&s.update(Message::SelectPathFile)), "[PickFile]");
    assert_eq!(shown(&s.update(Message::SelectPathFolder)), "[PickFolder]");
    assert!(s.update(Message::Nothing).is_empty());
    assert!(s.update(Message::GetThumbnails).is_empty());
}

#[test]
fn late_thumbnails_are_dropped() {
    let mut s = state();
    s.update(Message::SelectFolder(5));
    s.files = vec![file(1, "a", 1, &[])];
    let tasks = s.update(Message::SetFilesWithThumbnail(vec![file(2, "b", 1, &[9])], 4));
    assert!(tasks.is_empty());
    assert_eq!(s.files, vec![file(1, "a", 1, &[])]);
    s.update(Message::SetFilesWithThumbnail(vec![file(1, "a", 1, &[9])], 5));
    assert_eq!(s.files, vec![file(1, "a", 1, &[9])]);
    s.update(Message::SelectFolderNone);
    s.update(Message::SetFilesWithThumbnail(vec![], 5));
    assert_eq!(s.files.len(), 1);
    s.update(Message::SetFilesWithThumbnail(vec![], -1));
    assert!(s.files.is_empty());
}

#[test]
fn progress_messages() {
    let mut s = state();
    assert!(s.update(Message::StartUpload).is_empty());
    assert!(s.is_busy);
    s.update(Message::Progress(Progress { left: 3, total: 4 }));
    assert_eq!(s.progress, Progress { left: 3, total: 4 });
    assert_eq!(shown(&s.update(Message::FinishUpload)), "[Send(RefreshFiles)]");
    assert!(!s.is_busy);
    assert_eq!(s.progress, Progress { left: 0, total: 1 });
}

#[test]
fn files_are_sent_one_after_the_other() {
    let mut s = state();
    s.update(Message::PathChanged("dir".to_string()));
    s.update(Message::PasswordChanged("pw".to_string()));
    s.update(Message::SelectFolder(2));
    let tasks = s.update(Message::UploadFile);
    assert!(s.is_busy);
    assert_eq!(s.progress_message, "Начало загрузки..");
    match &tasks[..] {
        [Task::PlanUpload(args)] => {
            assert_eq!((args.path.as_str(), args.password.as_str()), ("dir", "pw"));
            assert_eq!(args.folder, Some(2));
        }
        other => panic!("{:?}", other),
    }
    let mut message = upload_planned(vec![upload("a"), upload("b")]);
    let mut sent = Vec::new();
    loop {
        let mut tasks = s.update(message);
        match tasks.remove(0) {
            Task::Upload(args, rest, total) => {
                assert_eq!(s.progress, Progress { left: rest.len() + 1, total: 2 });
                assert_eq!(s.progress_message, format!("Файл {} в процессе..", args.path));
                sent.push(args.path);
                message = upload_done(rest, total);
            }
            Task::Send(Message::RefreshFiles) => break,
            other => panic!("{:?}", other),
        }
    }
    assert_eq!(sent, vec!["a", "b"]);
    assert!(!s.is_busy);
    assert_eq!(s.progress_message, "2 файлов было загружено");
    assert_eq!(s.progress, Progress { left: 1, total: 2 });
}

#[test]
fn files_are_fetched_one_after_the_other() {
    let mut s = state();
    s.update(Message::PasswordChanged("pw".to_string()));
    let tasks = s.update(Message::DownloadFolder(8));
    assert_eq!(shown(&tasks), "[PlanDownload(8, \"pw\")]");
    assert_eq!(s.progress_message, "Начало загрузки..");
    let mut message = download_planned(vec![pending(1), pending(2)]);
    let mut fetched = Vec::new();
    loop {
        let mut tasks = s.update(message);
        if tasks.is_empty() {
            break;
        }
        match tasks.remove(0) {
            Task::DownloadNext(item, rest, total) => {
                assert_eq!(s.progress_message, format!("Файл {} в процессе..", item.shown));
                assert_eq!(s.progress, Progress { left: rest.len() + 1, total: 2 });
                fetched.push(item.args.file_id);
                message = download_done(rest, total);
            }
            other => panic!("{:?}", other),
        }
    }
    assert_eq!(fetched, vec![1, 2]);
    assert_eq!(s.progress_message, "Было загружено 2 файлов");
    assert!(s.is_busy);
}

#[test]
fn a_download_of_nothing_is_reported() {
    let mut s = state();
    s.update(Message::DownloadFolder(8));
    let message = folder_picked(&String::new()).unwrap();
    assert!(s.update(message).is_empty());
    assert!(!s.is_busy);
    assert_eq!(s.progress_message, "Что то не так");
    assert_eq!(s.progress, Progress { left: 1, total: 1 });
    assert!(folder_picked(&"/tmp".to_string()).is_none());
}

#[test]
fn what_is_told_of_tasks() {
    assert_eq!(shown(&changed()), "RefreshFiles");
    assert_eq!(shown(&path_found(Ok("a/b".to_string()))), "GetAbsolutPath(\"a/b\")");
    assert_eq!(shown(&path_found(Err(StorageError::NotFound))), "Nothing");
    assert_eq!(
        shown(&folders_listed(FolderRole::Beside, Ok(vec![folder(1, None, "a")]))),
        "SetParentFolders([(1, None, \"a\")])"
    );
    assert_eq!(
        shown(&folders_listed(FolderRole::Inside, Ok(vec![]))),
        "SetFolders([])"
    );
    assert_eq!(
        shown(&folders_listed(FolderRole::Inside, Err(StorageError::NotFound))),
        "Nothing"
    );
    assert_eq!(shown(&files_listed(Ok(vec![file(1, "a", 2, &[])]))), "SetFiles([(1, \"a\", 2, [])])");
    assert_eq!(shown(&files_listed(Err(StorageError::NotFound))), "Nothing");
    assert_eq!(shown(&measured(Ok(5))), "SetAllSize(5)");
    assert_eq!(shown(&measured(Err(StorageError::NotFound))), "SetAllSize(0)");
    assert_eq!(shown(&name_found(Ok("n".to_string()))), "SetFolderName(\"n\")");
    assert_eq!(shown(&name_found(Err(StorageError::NotFound))), "Nothing");
    assert_eq!(name_on_disk(Ok("n".to_string())), "n");
    assert_eq!(name_on_disk(Err(StorageError::NotFound)), "downloaded_file");
    assert_eq!(shown(&path_picked("p".to_string())), "PathChanged(\"p\")");
}

#[test]
fn what_comes_of_a_parent() {
    assert_eq!(
        shown(&parent_found(ParentUse::List, Ok(Some(3)))),
        "ListFolders(Some(3), Beside)"
    );
    assert_eq!(shown(&parent_found(ParentUse::List, Ok(None))), "ListFolders(None, Beside)");
    assert_eq!(shown(&parent_found(ParentUse::Select, Ok(Some(3)))), "Send(SelectFolder(3))");
    assert_eq!(shown(&parent_found(ParentUse::Select, Ok(None))), "Send(SelectFolderNone)");
    assert_eq!(shown(&parent_found(ParentUse::Select, Ok(Some(-1)))), "Send(SelectFolderNone)");
    for purpose in [ParentUse::List, ParentUse::Select] {
        assert_eq!(
            shown(&parent_found(purpose, Err(StorageError::NotFound))),
            "Send(Nothing)"
        );
    }
}

#[test]
fn thumbnails_are_fetched_for_each_file() {
    let files = vec![file(1, "a", 10, &[]), file(2, "b", 20, &[]), file(3, "c", 30, &[7])];
    let mut step = Thumbnails::start(files, &"pw".to_string(), Some(4));
    let mut asked = Vec::new();
    let message = loop {
        step = match step {
            ThumbnailsStep::Fetch(thumbnails, id) => {
                asked.push(id);
                thumbnails.fetched(if id == 2 { Some(vec![1, 2]) } else { None })
            }
            ThumbnailsStep::Done(message) => break message,
        };
    };
    assert_eq!(asked, vec![1, 2, 3]);
    match message {
        Message::SetFilesWithThumbnail(files, folder) => {
            assert_eq!(folder, 4);
            assert_eq!(
                files,
                vec![file(1, "a", 10, &[]), file(2, "b", 20, &[1, 2]), file(3, "c", 30, &[7])]
            );
        }
        other => panic!("{:?}", other),
    }
}

#[test]
fn without_a_password_no_thumbnail_is_fetched() {
    match Thumbnails::start(vec![file(1, "a", 10, &[])], &String::new(), None) {
        ThumbnailsStep::Done(message) => {
            assert_eq!(shown(&message), "SetFilesWithThumbnail([(1, \"a\", 10, [])], -1)")
        }
        ThumbnailsStep::Fetch(_, id) => panic!("{} was asked for", id),
    }
}

#[test]
fn what_the_window_shows() {
    let mut s = state();
    s.update(Message::SetParentFolders(vec![folder(1, None, "a"), folder(2, None, "b")]));
    assert!(s.screen().parents.is_empty());
    assert!(s.screen().download.is_none());
    assert_eq!(s.screen().total, "");
    s.update(Message::SelectFolder(2));
    s.update(Message::SetAllSize(2048));
    s.update(Message::SetFolders(vec![folder(3, Some(2), "c")]));
    s.update(Message::SetFiles(vec![file(4, "d.txt", 12, &[]), file(5, "e.png", -1, &[8, 9])]));
    let screen = s.screen();
    let parents: Vec<(&str, String, bool)> = screen
        .parents
        .iter()
        .map(|b| (b.label.as_str(), shown(&b.message), b.current))
        .collect();
    assert_eq!(
        parents,
        vec![
            ("..", "SelectParentFolder".to_string(), false),
            ("a", "SelectFolder(1)".to_string(), false),
            ("b", "SelectFolder(2)".to_string(), true),
        ]
    );
    assert_eq!(screen.folders.len(), 1);
    assert_eq!(screen.folders[0].label, "c");
    assert_eq!(shown(&screen.folders[0].open), "SelectFolder(3)");
    assert_eq!(shown(&screen.folders[0].delete), "DeleteFolder(3)");
    assert_eq!(screen.files[0].thumbnail, None);
    assert_eq!(screen.files[0].name, "Name: d.txt");
    assert_eq!(screen.files[0].size, "Size: 12 bytes");
    assert_eq!(shown(&screen.files[0].download), "DownloadFile(4)");
    assert_eq!(shown(&screen.files[0].delete), "DeleteFile(4)");
    assert_eq!(screen.files[1].thumbnail, Some(vec![8, 9]));
    assert_eq!(screen.files[1].size, "Size: -1 bytes");
    assert_eq!(screen.total, "Total size: 2.00 KB");
    assert_eq!(shown(&screen.download), "Some(DownloadFolder(2))");
}
