use std::collections::HashMap;

use tg_storage::walk::delete::{DeleteWalk, DeleteWalkStep};
use tg_storage::walk::download::{DownloadFolderArgs, DownloadWalk, DownloadWalkStep};
use tg_storage::walk::path::{PathStep, PathWalk};
use tg_storage::walk::size::{SizeStep, SizeWalk};
use tg_storage::walk::upload::{PathKind, UploadArgs, UploadWalk, UploadWalkStep, WalkError};

fn args(path: &str, folder: Option<i64>) -> UploadArgs {
    UploadArgs { path: path.to_string(), password: "pw".to_string(), folder }
}

/// Walks a disk on which paths that end in a slash are folders with the given entries.
fn uploads(disk: &HashMap<&str, Vec<&str>>, start: &str, folder: Option<i64>) -> Result<
    (Vec<(String, Option<i64>)>, Vec<(String, Option<i64>)>),
    WalkError,
> {
    let mut collected = Vec::new();
    let mut added: Vec<(String, Option<i64>)> = Vec::new();
    let mut lists: Vec<Vec<String>> = Vec::new();
    let (mut walk, mut step) = UploadWalk::start(args(start, folder));
    loop {
        step = match step {
            UploadWalkStep::Inspect(args) => {
                let kind = if args.path.ends_with('/') {
                    let name = args.path.trim_end_matches('/').rsplit('/').next().unwrap();
                    let named = if name == ".." { None } else { Some(name.to_string()) };
                    PathKind::Folder(named)
                } else if args.path.contains("missing") {
                    PathKind::Missing
                } else {
                    PathKind::File
                };
                walk.inspected(args, kind)?
            }
            UploadWalkStep::Collect(args) => {
                assert_eq!(args.password, "pw");
                collected.push((args.path, args.folder));
                walk.collected()
            }
            UploadWalkStep::AddFolder(args, name) => {
                added.push((name, args.folder));
                walk.folder_added(args, 100 + added.len() as i64)
            }
            UploadWalkStep::List(path) => {
                let mut entries: Vec<String> =
                    disk[path.as_str()].iter().map(|e| e.to_string()).collect();
                let first = if entries.is_empty() { None } else { Some(entries.remove(0)) };
                if first.is_some() {
                    lists.push(entries);
                }
                walk.entry(first)
            }
            UploadWalkStep::NextEntry => {
                let list = lists.last_mut().unwrap();
                let entry = if list.is_empty() { None } else { Some(list.remove(0)) };
                if entry.is_none() {
                    lists.pop();
                }
                walk.entry(entry)
            }
            UploadWalkStep::Done => return Ok((collected, added)),
        };
    }
}

#[test]
fn a_file_goes_into_the_given_folder() {
    let disk = HashMap::new();
    let (collected, added) = uploads(&disk, "a.txt", Some(9)).unwrap();
    assert_eq!(collected, vec![("a.txt".to_string(), Some(9))]);
    assert!(added.is_empty());
    assert_eq!(uploads(&disk, "a.txt", None).unwrap().0, vec![("a.txt".to_string(), None)]);
}

#[test]
fn a_folder_is_walked_depth_first_in_the_order_of_its_lists() {
    let mut disk = HashMap::new();
    disk.insert("top/", vec!["top/a", "top/sub/", "top/b", "top/empty/"]);
    disk.insert("top/sub/", vec!["top/sub/c", "top/sub/deep/"]);
    disk.insert("top/sub/deep/", vec!["top/sub/deep/d"]);
    disk.insert("top/empty/", vec![]);
    let (collected, added) = uploads(&disk, "top/", Some(7)).unwrap();
    assert_eq!(
        added,
        vec![
            ("top".to_string(), Some(7)),
            ("sub".to_string(), Some(101)),
            ("deep".to_string(), Some(102)),
            ("empty".to_string(), Some(101)),
        ]
    );
    assert_eq!(
        collected,
        vec![
            ("top/a".to_string(), Some(101)),
            ("top/sub/c".to_string(), Some(102)),
            ("top/sub/deep/d".to_string(), Some(103)),
            ("top/b".to_string(), Some(101)),
        ]
    );
}

#[test]
fn sending_along_an_upload_walk_is_sending_what_it_collects() {
    let (mut walk, mut step) = UploadWalk::start(args("top/", None));
    let mut entries = vec!["top/b", "top/a"].into_iter();
    let mut collected = Vec::new();
    let mut sent = String::new();
    loop {
        step = match step {
            UploadWalkStep::Inspect(args) => {
                let kind = if args.path == "top/" {
                    PathKind::Folder(Some("top".to_string()))
                } else {
                    PathKind::File
                };
                walk.inspected(args, kind).unwrap()
            }
            UploadWalkStep::Collect(args) => {
                sent = format!("{}[{}]", sent, args.path);
                collected.push(args.path);
                walk.collected()
            }
            UploadWalkStep::AddFolder(args, _) => walk.folder_added(args, 1),
            UploadWalkStep::List(_) | UploadWalkStep::NextEntry => {
                walk.entry(entries.next().map(str::to_string))
            }
            UploadWalkStep::Done => break,
        };
    }
    let later = collected.iter().fold(String::new(), |sent, path| format!("{}[{}]", sent, path));
    assert_eq!(sent, "[top/b][top/a]");
    assert_eq!(sent, later);
}

#[test]
fn nothing_is_added_where_nothing_stands() {
    let (walk, step) = UploadWalk::start(args("gone", Some(4)));
    match step {
        UploadWalkStep::Inspect(args) => {
            assert_eq!((args.path.as_str(), args.folder), ("gone", Some(4)));
            assert!(matches!(walk.inspected(args, PathKind::Missing), Err(WalkError::PathNotFound)));
        }
        _ => panic!("the path was not looked at"),
    }
}

#[test]
fn what_ends_an_upload_walk_early() {
    let mut disk = HashMap::new();
    assert_eq!(uploads(&disk, "missing", None), Err(WalkError::PathNotFound));
    assert_eq!(uploads(&disk, "../", None), Err(WalkError::InvalidFolderName));
    disk.insert("top/", vec!["top/missing"]);
    assert_eq!(uploads(&disk, "top/", None), Err(WalkError::PathNotFound));
    assert_eq!(WalkError::PathNotFound.message(), "path not found");
    assert_eq!(WalkError::InvalidFolderName.message(), "Invalid folder name");
}

#[derive(Default)]
struct Catalogue {
    files: HashMap<i64, Vec<i64>>,
    folders: HashMap<i64, Vec<i64>>,
    sizes: HashMap<i64, i64>,
}

impl Catalogue {
    fn files_in(&self, id: i64) -> Vec<i64> {
        self.files.get(&id).cloned().unwrap_or_default()
    }

    fn folders_in(&self, id: i64) -> Vec<i64> {
        self.folders.get(&id).cloned().unwrap_or_default()
    }

    fn sizes_in(&self, id: i64) -> Vec<i64> {
        self.files_in(id).iter().map(|f| self.sizes[f]).collect()
    }
}

fn sample() -> Catalogue {
    let mut c = Catalogue::default();
    c.files.insert(1, vec![10, 11]);
    c.folders.insert(1, vec![2, 3]);
    c.folders.insert(2, vec![4]);
    c.files.insert(3, vec![12]);
    c.files.insert(4, vec![13]);
    for (id, size) in [(10, 5), (11, 6), (12, 70), (13, 800)] {
        c.sizes.insert(id, size);
    }
    c
}

#[test]
fn a_download_takes_the_files_of_a_folder_before_the_folders_in_it() {
    let c = sample();
    let start = DownloadFolderArgs {
        folder_id: 1,
        password: "pw".to_string(),
        out: vec!["root".to_string()],
    };
    let mut collected = Vec::new();
    let mut fetched = String::new();
    let mut opened = Vec::new();
    let (mut walk, mut step) = DownloadWalk::start(start);
    loop {
        step = match step {
            DownloadWalkStep::Open(args) => {
                assert_eq!(args.password, "pw");
                opened.push(args.out.join("/"));
                let id = args.folder_id;
                walk.opened(args, c.files_in(id), c.folders_in(id))
            }
            DownloadWalkStep::FindFile(id) => walk.file_found(id, format!("file{}", id)),
            DownloadWalkStep::FindFolder(id) => walk.folder_found(id, format!("dir{}", id)),
            DownloadWalkStep::Collect(args) => {
                assert_eq!(args.password, "pw");
                fetched = format!("{}[{}]", fetched, args.file_id);
                collected.push((args.file_id, args.out.join("/")));
                walk.next()
            }
            DownloadWalkStep::Done => break,
        };
    }
    assert_eq!(opened, vec!["root", "root/dir2", "root/dir2/dir4", "root/dir3"]);
    let later = collected.iter().fold(String::new(), |sent, (id, _)| format!("{}[{}]", sent, id));
    assert_eq!(fetched, later);
    assert_eq!(
        collected,
        vec![
            (10, "root/file10".to_string()),
            (11, "root/file11".to_string()),
            (13, "root/dir2/dir4/file13".to_string()),
            (12, "root/dir3/file12".to_string()),
        ]
    );
}

#[test]
fn a_folder_is_removed_after_all_that_it_holds() {
    let c = sample();
    let mut removed = Vec::new();
    let (mut walk, mut step) = DeleteWalk::start(1);
    loop {
        step = match step {
            DeleteWalkStep::Open(id) => walk.opened(id, c.files_in(id), c.folders_in(id)),
            DeleteWalkStep::DeleteFile(id) => {
                removed.push(format!("file {}", id));
                walk.next()
            }
            DeleteWalkStep::DeleteFolder(id) => {
                removed.push(format!("folder {}", id));
                walk.next()
            }
            DeleteWalkStep::Done => break,
        };
    }
    assert_eq!(
        removed,
        vec![
            "file 10", "file 11", "file 13", "folder 4", "folder 2", "file 12", "folder 3",
            "folder 1",
        ]
    );
}

fn size_of(c: &Catalogue, folder: i64) -> Option<i64> {
    let mut step = SizeWalk::start(folder);
    loop {
        step = match step {
            SizeStep::Open(walk, id) => walk.opened(c.sizes_in(id), c.folders_in(id)),
            SizeStep::Done(total) => return Some(total),
            SizeStep::Overflow => return None,
        };
    }
}

#[test]
fn the_size_of_a_folder_is_that_of_all_files_below_it() {
    let c = sample();
    assert_eq!(size_of(&c, 1), Some(881));
    assert_eq!(size_of(&c, 2), Some(800));
    assert_eq!(size_of(&c, 3), Some(70));
    assert_eq!(size_of(&c, 99), Some(0));
}

#[test]
fn sizes_that_do_not_fit() {
    let mut c = sample();
    c.sizes.insert(10, i64::MAX);
    c.sizes.insert(11, 1);
    assert_eq!(size_of(&c, 1), None);
    c.sizes.insert(10, i64::MAX - 6);
    c.sizes.insert(11, 6);
    assert_eq!(size_of(&c, 1), None);
    c.sizes.insert(10, i64::MAX - 876);
    assert_eq!(size_of(&c, 1), Some(i64::MAX));
    c.sizes.insert(10, i64::MIN);
    c.sizes.insert(11, -1);
    assert_eq!(size_of(&c, 1), None);
}

fn path_of(rows: &HashMap<i64, (Option<i64>, &str)>, folder: i64) -> String {
    let mut step = PathWalk::start(folder);
    loop {
        step = match step {
            PathStep::Find(walk, id) => {
                walk.found(rows.get(&id).map(|(parent, name)| (*parent, name.to_string())))
            }
            PathStep::Done(path) => return path,
        };
    }
}

#[test]
fn paths_name_the_folders_from_the_root_down() {
    let mut rows = HashMap::new();
    rows.insert(1, (None, "a"));
    rows.insert(2, (Some(1), "b"));
    rows.insert(3, (Some(2), "c"));
    rows.insert(4, (Some(77), "d"));
    assert_eq!(path_of(&rows, 1), "a");
    assert_eq!(path_of(&rows, 2), "a/b");
    assert_eq!(path_of(&rows, 3), "a/b/c");
    assert_eq!(path_of(&rows, 4), "d");
    assert_eq!(path_of(&rows, 5), "");
}
