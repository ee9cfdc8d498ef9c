//! The files below a path, each with the folder of the catalogue that it goes into.

use vstd::prelude::*;

use crate::text::optional_text;

verus! {

/// What is to be sent: a file or a folder on disk, the password, and the folder of the catalogue
/// that it goes into.
#[derive(Clone, Debug)]
pub struct UploadArgs {
    pub path: String,
    pub password: String,
    pub folder: Option<i64>,
}

/// `UploadArgs` as mathematical values.
pub struct UploadArgsView {
    pub path: Seq<char>,
    pub password: Seq<char>,
    pub folder: Option<i64>,
}

impl View for UploadArgs {
    type V = UploadArgsView;

    open spec fn view(&self) -> UploadArgsView {
        UploadArgsView { path: self.path@, password: self.password@, folder: self.folder }
    }
}

/// What stands at a path.
#[derive(Debug)]
pub enum PathKind {
    File,
    /// A folder, and its name if that is text.
    Folder(Option<String>),
    Missing,
}

/// A `PathKind` as mathematical values.
pub enum PathKindView {
    File,
    Folder(Option<Seq<char>>),
    Missing,
}

impl View for PathKind {
    type V = PathKindView;

    open spec fn view(&self) -> PathKindView {
        match self {
            PathKind::File => PathKindView::File,
            PathKind::Folder(name) => PathKindView::Folder(optional_text(*name)),
            PathKind::Missing => PathKindView::Missing,
        }
    }
}

/// Why a walk ends early.
#[derive(Debug, PartialEq, Eq, Structural, Clone, Copy)]
pub enum WalkError {
    InvalidFolderName,
    PathNotFound,
}

impl WalkError {
    /// The error in words.
    pub fn message(&self) -> (text: &'static str)
        ensures
            text@ == match self {
                WalkError::InvalidFolderName => "Invalid folder name"@,
                WalkError::PathNotFound => "path not found"@,
            },
    {
        match self {
            WalkError::InvalidFolderName => "Invalid folder name",
            WalkError::PathNotFound => "path not found",
        }
    }
}

/// What is to be done next in a walk.
#[derive(Debug)]
pub enum UploadWalkStep {
    /// Find out what stands at the path.
    Inspect(UploadArgs),
    /// This is a file to send.
    Collect(UploadArgs),
    /// Add a folder of this name to the catalogue, inside the one that is named.
    AddFolder(UploadArgs, String),
    /// Begin to list the folder at this path, and take an entry from the list.
    List(String),
    /// Take the next entry from the list that was begun last.
    NextEntry,
    /// There is nothing more to send.
    Done,
}

/// An `UploadWalkStep` as mathematical values.
pub enum UploadWalkStepView {
    Inspect(UploadArgsView),
    Collect(UploadArgsView),
    AddFolder(UploadArgsView, Seq<char>),
    List(Seq<char>),
    NextEntry,
    Done,
}

impl View for UploadWalkStep {
    type V = UploadWalkStepView;

    open spec fn view(&self) -> UploadWalkStepView {
        match self {
            UploadWalkStep::Inspect(args) => UploadWalkStepView::Inspect(args@),
            UploadWalkStep::Collect(args) => UploadWalkStepView::Collect(args@),
            UploadWalkStep::AddFolder(args, name) => UploadWalkStepView::AddFolder(args@, name@),
            UploadWalkStep::List(path) => UploadWalkStepView::List(path@),
            UploadWalkStep::NextEntry => UploadWalkStepView::NextEntry,
            UploadWalkStep::Done => UploadWalkStepView::Done,
        }
    }
}

/// A walk as mathematical values: the password, and the folders of the catalogue for the folders
/// on disk whose lists have been begun and not ended.
#[verifier::ext_equal]
pub struct UploadWalkView {
    pub password: Seq<char>,
    pub folders: Seq<i64>,
}

impl UploadWalkView {
    /// What comes after a file or a folder has been dealt with.
    pub open spec fn resume(self) -> UploadWalkStepView {
        if self.folders.len() == 0 {
            UploadWalkStepView::Done
        } else {
            UploadWalkStepView::NextEntry
        }
    }

    /// The walk once a folder has been added to the catalogue.
    pub open spec fn enter(self, id: i64) -> UploadWalkView {
        UploadWalkView { password: self.password, folders: self.folders.push(id) }
    }

    /// The walk once a list has ended.
    pub open spec fn leave(self) -> UploadWalkView {
        UploadWalkView { password: self.password, folders: self.folders.drop_last() }
    }

    /// The walk after an entry, or the end, of a list.
    pub open spec fn after_entry(self, entry: Option<Seq<char>>) -> UploadWalkView {
        if entry is None && self.folders.len() > 0 {
            self.leave()
        } else {
            self
        }
    }

    /// What comes after an entry, or the end, of a list: an entry is looked at, to go into the
    /// folder whose list it is from.
    pub open spec fn entry_step(self, entry: Option<Seq<char>>) -> UploadWalkStepView {
        if self.folders.len() == 0 {
            UploadWalkStepView::Done
        } else {
            match entry {
                Some(path) => UploadWalkStepView::Inspect(
                    UploadArgsView {
                        path,
                        password: self.password,
                        folder: Some(self.folders.last()),
                    },
                ),
                None => self.leave().resume(),
            }
        }
    }
}

/// What comes of looking at a path.
pub open spec fn inspected_step(args: UploadArgsView, kind: PathKindView) -> Result<
    UploadWalkStepView,
    WalkError,
> {
    match kind {
        PathKindView::File => Ok(UploadWalkStepView::Collect(args)),
        PathKindView::Folder(Some(name)) => Ok(UploadWalkStepView::AddFolder(args, name)),
        PathKindView::Folder(None) => Err(WalkError::InvalidFolderName),
        PathKindView::Missing => Err(WalkError::PathNotFound),
    }
}

/// A walk through what is to be sent.
pub struct UploadWalk {
    password: String,
    folders: Vec<i64>,
}

impl View for UploadWalk {
    type V = UploadWalkView;

    closed spec fn view(&self) -> UploadWalkView {
        UploadWalkView { password: self.password@, folders: self.folders@ }
    }
}

impl UploadWalk {
    /// Starts a walk.
    pub fn start(args: UploadArgs) -> (r: (UploadWalk, UploadWalkStep))
        ensures
            r.0@ == (UploadWalkView { password: args.password@, folders: Seq::empty() }),
            r.1@ == UploadWalkStepView::Inspect(args@),
    {
        let walk: UploadWalk = UploadWalk { password: args.password.clone(), folders: Vec::new() };
        assert(walk@.folders =~= Seq::empty());
        (walk, UploadWalkStep::Inspect(args))
    }

    /// Takes in what stands at the path that was to be looked at.
    pub fn inspected(&self, args: UploadArgs, kind: PathKind) -> (r: Result<
        UploadWalkStep,
        WalkError,
    >)
        ensures
            match inspected_step(args@, kind@) {
                Ok(step) => r matches Ok(s) && s@ == step,
                Err(error) => r == Err::<UploadWalkStep, WalkError>(error),
            },
    {
        match kind {
            PathKind::File => Ok(UploadWalkStep::Collect(args)),
            PathKind::Folder(name) => match name {
                Some(name) => Ok(UploadWalkStep::AddFolder(args, name)),
                None => Err(WalkError::InvalidFolderName),
            },
            PathKind::Missing => Err(WalkError::PathNotFound),
        }
    }

    /// Goes on after a file.
    pub fn collected(&self) -> (step: UploadWalkStep)
        ensures
            step@ == self@.resume(),
    {
        if self.folders.is_empty() {
            UploadWalkStep::Done
        } else {
            UploadWalkStep::NextEntry
        }
    }

    /// Takes in the number that the catalogue gave the folder that was to be added.
    pub fn folder_added(&mut self, args: UploadArgs, id: i64) -> (step: UploadWalkStep)
        ensures
            final(self)@ == old(self)@.enter(id),
            step@ == UploadWalkStepView::List(args@.path),
    {
        self.folders.push(id);
        UploadWalkStep::List(args.path)
    }

    /// Takes in the next entry, or the end, of the list that was begun last.
    pub fn entry(&mut self, entry: Option<String>) -> (step: UploadWalkStep)
        ensures
            final(self)@ == old(self)@.after_entry(optional_text(entry)),
            step@ == old(self)@.entry_step(optional_text(entry)),
    {
        if self.folders.is_empty() {
            return UploadWalkStep::Done;
        }
        match entry {
            Some(path) => {
                let folder: i64 = self.folders[self.folders.len() - 1];
                UploadWalkStep::Inspect(
                    UploadArgs { path, password: self.password.clone(), folder: Some(folder) },
                )
            },
            None => {
                let _ = self.folders.pop();
                assert(self@ =~= old(self)@.leave());
                self.collected()
            },
        }
    }
}

/// What there is on disk below a path, and the numbers that the catalogue will give the folders.
pub enum DiskTree {
    File { path: Seq<char> },
    Folder { path: Seq<char>, name: Seq<char>, id: i64, entries: Seq<DiskTree> },
    /// A folder whose name is not text.
    Nameless { path: Seq<char> },
    /// Neither a file nor a folder.
    Missing { path: Seq<char> },
}

impl DiskTree {
    /// Where it stands.
    pub open spec fn path(self) -> Seq<char> {
        match self {
            DiskTree::File { path } => path,
            DiskTree::Folder { path, .. } => path,
            DiskTree::Nameless { path } => path,
            DiskTree::Missing { path } => path,
        }
    }

    /// What it is.
    pub open spec fn kind(self) -> PathKindView {
        match self {
            DiskTree::File { .. } => PathKindView::File,
            DiskTree::Folder { name, .. } => PathKindView::Folder(Some(name)),
            DiskTree::Nameless { .. } => PathKindView::Folder(None),
            DiskTree::Missing { .. } => PathKindView::Missing,
        }
    }
}

/// What ends the walk through a tree early, if anything does: what comes first in it that cannot be
/// sent.
pub open spec fn fault(tree: DiskTree) -> Option<WalkError>
    decreases tree,
{
    match tree {
        DiskTree::File { .. } => None,
        DiskTree::Folder { entries, .. } => fault_of_all(entries),
        DiskTree::Nameless { .. } => Some(WalkError::InvalidFolderName),
        DiskTree::Missing { .. } => Some(WalkError::PathNotFound),
    }
}

/// What ends the walk through the entries of a folder early, if anything does.
pub open spec fn fault_of_all(entries: Seq<DiskTree>) -> Option<WalkError>
    decreases entries,
{
    if entries.len() == 0 {
        None
    } else {
        match fault(entries[0]) {
            Some(error) => Some(error),
            None => fault_of_all(entries.drop_first()),
        }
    }
}

/// The files to send for a tree: a file goes into the given folder, and what a folder holds, in its
/// order, goes into the folder added for it. Nothing is sent after what ends the walk early.
pub open spec fn uploads(tree: DiskTree, password: Seq<char>, folder: Option<i64>) -> Seq<
    UploadArgsView,
>
    decreases tree,
{
    match tree {
        DiskTree::File { path } => seq![UploadArgsView { path, password, folder }],
        DiskTree::Folder { id, entries, .. } => uploads_of_all(entries, password, id),
        _ => Seq::empty(),
    }
}

/// The files to send for the entries of a folder.
pub open spec fn uploads_of_all(entries: Seq<DiskTree>, password: Seq<char>, id: i64) -> Seq<
    UploadArgsView,
>
    decreases entries,
{
    if entries.len() == 0 {
        Seq::empty()
    } else if fault(entries[0]) is Some {
        uploads(entries[0], password, Some(id))
    } else {
        uploads(entries[0], password, Some(id)) + uploads_of_all(
            entries.drop_first(),
            password,
            id,
        )
    }
}

/// A folder that is added to the catalogue: its name, the folder around it, and the number that it
/// is given.
pub struct AddedFolder {
    pub name: Seq<char>,
    pub parent: Option<i64>,
    pub id: i64,
}

/// The folders to add for a tree: each goes into the folder added for the one around it on disk, and
/// before all that is in it. Nothing is added after what ends the walk early.
pub open spec fn additions(tree: DiskTree, folder: Option<i64>) -> Seq<AddedFolder>
    decreases tree,
{
    match tree {
        DiskTree::Folder { name, id, entries, .. } => seq![AddedFolder { name, parent: folder, id }]
            + additions_of_all(entries, id),
        _ => Seq::empty(),
    }
}

/// The folders to add for the entries of a folder.
pub open spec fn additions_of_all(entries: Seq<DiskTree>, id: i64) -> Seq<AddedFolder>
    decreases entries,
{
    if entries.len() == 0 {
        Seq::empty()
    } else if fault(entries[0]) is Some {
        additions(entries[0], Some(id))
    } else {
        additions(entries[0], Some(id)) + additions_of_all(entries.drop_first(), id)
    }
}

/// A walk and the disk it goes through: the step that is due, what stands at the path that it is
/// about, the rest of each list that was begun, the folders added, the files collected, and what ended
/// it early.
#[verifier::ext_equal]
pub struct UploadRun {
    pub walk: UploadWalkView,
    pub step: UploadWalkStepView,
    pub subject: DiskTree,
    pub lists: Seq<Seq<DiskTree>>,
    pub added: Seq<AddedFolder>,
    pub collected: Seq<UploadArgsView>,
    pub failed: Option<WalkError>,
}

impl UploadRun {
    /// The step that is due is done, and its outcome taken in.
    pub open spec fn advance(self) -> UploadRun {
        match self.step {
            UploadWalkStepView::Inspect(args) => match inspected_step(args, self.subject.kind()) {
                Ok(step) => UploadRun { step, ..self },
                Err(error) => UploadRun { failed: Some(error), ..self },
            },
            UploadWalkStepView::Collect(args) => UploadRun {
                step: self.walk.resume(),
                collected: self.collected.push(args),
                ..self
            },
            UploadWalkStepView::AddFolder(args, name) => match self.subject {
                DiskTree::Folder { id, .. } => UploadRun {
                    walk: self.walk.enter(id),
                    step: UploadWalkStepView::List(args.path),
                    added: self.added.push(AddedFolder { name, parent: args.folder, id }),
                    ..self
                },
                _ => self,
            },
            UploadWalkStepView::List(_) => match self.subject {
                DiskTree::Folder { entries, .. } => UploadRun {
                    step: UploadWalkStepView::NextEntry,
                    lists: self.lists.push(entries),
                    ..self
                },
                _ => self,
            },
            UploadWalkStepView::NextEntry => {
                let list = self.lists.last();
                if list.len() == 0 {
                    UploadRun {
                        walk: self.walk.after_entry(None),
                        step: self.walk.entry_step(None),
                        lists: self.lists.drop_last(),
                        ..self
                    }
                } else {
                    UploadRun {
                        walk: self.walk.after_entry(Some(list[0].path())),
                        step: self.walk.entry_step(Some(list[0].path())),
                        subject: list[0],
                        lists: self.lists.drop_last().push(list.drop_first()),
                        ..self
                    }
                }
            },
            UploadWalkStepView::Done => self,
        }
    }

    /// The run `n` steps on.
    pub open spec fn after(self, n: nat) -> UploadRun
        decreases n,
    {
        if n == 0 {
            self
        } else {
            self.advance().after((n - 1) as nat)
        }
    }

    /// What `n` steps make of files that are sent as the walk finds them.
    pub open spec fn sent_along<F>(
        self,
        files: F,
        send: spec_fn(F, UploadArgsView) -> F,
        n: nat,
    ) -> F
        decreases n,
    {
        if n == 0 {
            files
        } else {
            let next = match self.step {
                UploadWalkStepView::Collect(args) => send(files, args),
                _ => files,
            };
            self.advance().sent_along(next, send, (n - 1) as nat)
        }
    }

    /// Sending along the walk does what sending what it has collected does.
    proof fn lemma_sent_along<F>(self, files: F, send: spec_fn(F, UploadArgsView) -> F, n: nat)
        ensures
            self.sent_along(self.collected.fold_left(files, send), send, n) == self.after(
                n,
            ).collected.fold_left(files, send),
        decreases n,
    {
        if n > 0 {
            match self.step {
                UploadWalkStepView::Collect(args) => {
                    assert(self.collected.push(args).drop_last() =~= self.collected);
                },
                _ => {},
            }
            self.advance().lemma_sent_along(files, send, (n - 1) as nat);
        }
    }

    /// Two stretches of a run make one.
    proof fn lemma_after_sum(self, m: nat, n: nat)
        ensures
            self.after(m).after(n) == self.after(m + n),
        decreases m,
    {
        if m > 0 {
            self.advance().lemma_after_sum((m - 1) as nat, n);
        }
    }
}

/// How many steps a tree takes.
pub open spec fn walk_length(tree: DiskTree) -> nat
    decreases tree,
{
    match tree {
        DiskTree::File { .. } => 2,
        DiskTree::Folder { entries, .. } => 3 + walk_length_of_all(entries),
        _ => 1,
    }
}

/// How many steps the entries of a folder take, and the end of their list.
pub open spec fn walk_length_of_all(entries: Seq<DiskTree>) -> nat
    decreases entries,
{
    if entries.len() == 0 {
        1
    } else if fault(entries[0]) is Some {
        1 + walk_length(entries[0])
    } else {
        1 + walk_length(entries[0]) + walk_length_of_all(entries.drop_first())
    }
}

/// A tree that is looked at is dealt with, and unless that ends it the walk stands as before.
proof fn lemma_walk_tree(run: UploadRun, args: UploadArgsView)
    requires
        run.step == UploadWalkStepView::Inspect(args),
        args.path == run.subject.path(),
        args.password == run.walk.password,
        run.lists.len() == run.walk.folders.len(),
        run.failed is None,
    ensures
        ({
            let end = run.after(walk_length(run.subject));
            &&& end.failed == fault(run.subject)
            &&& end.failed is None ==> {
                &&& end.walk == run.walk
                &&& end.step == run.walk.resume()
                &&& end.lists == run.lists
            }
            &&& end.added == run.added + additions(run.subject, args.folder)
            &&& end.collected == run.collected + uploads(run.subject, args.password, args.folder)
        }),
    decreases run.subject,
{
    match run.subject {
        DiskTree::File { path } => {
            let second = run.advance();
            let third = second.advance();
            reveal_with_fuel(UploadRun::after, 3);
            assert(run.after(2) == third);
            assert(third.added =~= run.added + additions(run.subject, args.folder));
            assert(third.collected =~= run.collected + uploads(
                run.subject,
                args.password,
                args.folder,
            ));
        },
        DiskTree::Folder { path, name, id, entries } => {
            let listed = run.advance().advance().advance();
            reveal_with_fuel(UploadRun::after, 4);
            assert(run.after(3) == listed);
            assert(listed.lists.last() == entries);
            assert(listed.walk == run.walk.enter(id));
            lemma_walk_entries(listed, entries, id);
            run.lemma_after_sum(3, walk_length_of_all(entries));
            assert(listed.lists.drop_last() =~= run.lists);
            assert(listed.walk.leave() =~= run.walk);
            assert(listed.added + additions_of_all(entries, id) =~= run.added + additions(
                run.subject,
                args.folder,
            ));
        },
        _ => {
            let end = run.advance();
            reveal_with_fuel(UploadRun::after, 2);
            assert(run.after(1) == end);
            assert(end.added =~= run.added + additions(run.subject, args.folder));
            assert(end.collected =~= run.collected + uploads(
                run.subject,
                args.password,
                args.folder,
            ));
        },
    }
}

/// The entries of a list are dealt with, and unless that ends the walk the list is ended.
proof fn lemma_walk_entries(run: UploadRun, entries: Seq<DiskTree>, id: i64)
    requires
        run.step is NextEntry,
        run.lists.len() > 0,
        run.lists.last() == entries,
        run.lists.len() == run.walk.folders.len(),
        run.walk.folders.last() == id,
        run.failed is None,
    ensures
        ({
            let end = run.after(walk_length_of_all(entries));
            &&& end.failed == fault_of_all(entries)
            &&& end.failed is None ==> {
                &&& end.walk == run.walk.leave()
                &&& end.step == run.walk.leave().resume()
                &&& end.lists == run.lists.drop_last()
            }
            &&& end.added == run.added + additions_of_all(entries, id)
            &&& end.collected == run.collected + uploads_of_all(entries, run.walk.password, id)
        }),
    decreases entries,
{
    let next = run.advance();
    reveal_with_fuel(UploadRun::after, 2);
    assert(run.after(1) == next);
    if entries.len() == 0 {
        assert(next.added =~= run.added + additions_of_all(entries, id));
        assert(next.collected =~= run.collected + uploads_of_all(entries, run.walk.password, id));
    } else {
        let args = UploadArgsView {
            path: entries[0].path(),
            password: run.walk.password,
            folder: Some(id),
        };
        let rest = entries.drop_first();
        lemma_walk_tree(next, args);
        let later = next.after(walk_length(entries[0]));
        run.lemma_after_sum(1, walk_length(entries[0]));
        if fault(entries[0]) is None {
            assert(later.lists.last() == rest);
            lemma_walk_entries(later, rest, id);
            run.lemma_after_sum(1 + walk_length(entries[0]), walk_length_of_all(rest));
            assert(later.lists.drop_last() =~= run.lists.drop_last());
            assert(run.added + additions(entries[0], Some(id)) + additions_of_all(rest, id)
                =~= run.added + additions_of_all(entries, id));
            assert(run.collected + uploads(entries[0], run.walk.password, Some(id))
                + uploads_of_all(rest, run.walk.password, id) =~= run.collected + uploads_of_all(
                entries,
                run.walk.password,
                id,
            ));
        }
    }
}

/// The run at the start of a walk through a tree.
pub open spec fn upload_start(tree: DiskTree, password: Seq<char>, folder: Option<i64>) -> UploadRun {
    UploadRun {
        walk: UploadWalkView { password, folders: Seq::empty() },
        step: UploadWalkStepView::Inspect(UploadArgsView { path: tree.path(), password, folder }),
        subject: tree,
        lists: Seq::empty(),
        added: Seq::empty(),
        collected: Seq::empty(),
        failed: None,
    }
}

/// A walk ends. It collects each file below the path once: depth first, in the order of the lists,
/// with the folder of the catalogue that stands for the folder the file is in. And it adds each
/// folder once, under its name, into the folder that stands for the one around it. What cannot be
/// sent ends the walk with an error, and all that comes after it is left.
pub proof fn law_upload_walk(tree: DiskTree, password: Seq<char>, folder: Option<i64>)
    ensures
        ({
            let end = upload_start(tree, password, folder).after(walk_length(tree));
            &&& end.failed == fault(tree)
            &&& end.failed is None ==> end.step == UploadWalkStepView::Done
            &&& end.collected == uploads(tree, password, folder)
            &&& end.added == additions(tree, folder)
        }),
{
    let args = UploadArgsView { path: tree.path(), password, folder };
    let start = upload_start(tree, password, folder);
    lemma_walk_tree(start, args);
    assert(start.collected + uploads(tree, password, folder) =~= uploads(tree, password, folder));
    assert(start.added + additions(tree, folder) =~= additions(tree, folder));
}

/// It is all the same whether files are sent as the walk finds them, or collected first and then
/// sent one after the other: whatever sending a file does, what is left is the same. That holds at
/// the end of the walk, and wherever else it is broken off.
pub proof fn law_sending_along_the_walk<F>(
    tree: DiskTree,
    password: Seq<char>,
    folder: Option<i64>,
    files: F,
    send: spec_fn(F, UploadArgsView) -> F,
)
    ensures
        upload_start(tree, password, folder).sent_along(files, send, walk_length(tree)) == uploads(
            tree,
            password,
            folder,
        ).fold_left(files, send),
        forall|n: nat|
            (#[trigger] upload_start(tree, password, folder).sent_along(files, send, n))
                == upload_start(tree, password, folder).after(n).collected.fold_left(files, send),
{
    let start = upload_start(tree, password, folder);
    law_upload_walk(tree, password, folder);
    assert forall|n: nat|
        (#[trigger] start.sent_along(files, send, n)) == start.after(n).collected.fold_left(
            files,
            send,
        ) by {
        start.lemma_sent_along(files, send, n);
    }
}

/// Where there is neither a file nor a folder, a walk fails at once, with nothing added and nothing
/// collected.
pub proof fn law_no_upload_of_nothing(path: Seq<char>, password: Seq<char>, folder: Option<i64>)
    ensures
        ({
            let end = upload_start(DiskTree::Missing { path }, password, folder).after(1);
            &&& end.failed == Some(WalkError::PathNotFound)
            &&& end.added.len() == 0
            &&& end.collected.len() == 0
        }),
{
    law_upload_walk(DiskTree::Missing { path }, password, folder);
}

/// For a file, the file itself is sent, under the password and into the folder that were given, and no
/// folder is added. Where there is neither a file nor a folder, or a folder whose name is not text,
/// nothing is sent and no folder is added.
pub proof fn law_upload_of_one(path: Seq<char>, password: Seq<char>, folder: Option<i64>)
    ensures
        uploads(DiskTree::File { path }, password, folder) == seq![
            UploadArgsView { path, password, folder },
        ],
        additions(DiskTree::File { path }, folder).len() == 0,
        fault(DiskTree::File { path }) is None,
        uploads(DiskTree::Missing { path }, password, folder).len() == 0,
        additions(DiskTree::Missing { path }, folder).len() == 0,
        fault(DiskTree::Missing { path }) == Some(WalkError::PathNotFound),
        uploads(DiskTree::Nameless { path }, password, folder).len() == 0,
        additions(DiskTree::Nameless { path }, folder).len() == 0,
        fault(DiskTree::Nameless { path }) == Some(WalkError::InvalidFolderName),
{
}

/// Entries of which none ends the walk are all dealt with, one after the other.
proof fn lemma_sound_entries(entries: Seq<DiskTree>, password: Seq<char>, id: i64)
    requires
        forall|i: int| 0 <= i < entries.len() ==> fault(#[trigger] entries[i]) is None,
    ensures
        fault_of_all(entries) is None,
        uploads_of_all(entries, password, id) == entries.flat_map(
            |e: DiskTree| uploads(e, password, Some(id)),
        ),
        additions_of_all(entries, id) == entries.flat_map(|e: DiskTree| additions(e, Some(id))),
    decreases entries.len(),
{
    let sends = |e: DiskTree| uploads(e, password, Some(id));
    let adds = |e: DiskTree| additions(e, Some(id));
    if entries.len() > 0 {
        let rest = entries.drop_first();
        assert forall|i: int| 0 <= i < rest.len() implies fault(#[trigger] rest[i]) is None by {
            assert(rest[i] == entries[i + 1]);
        }
        assert(fault(entries[0]) is None);
        lemma_sound_entries(rest, password, id);
        assert(entries.map_values(sends).drop_first() =~= rest.map_values(sends));
        assert(entries.map_values(adds).drop_first() =~= rest.map_values(adds));
    }
}

/// For a folder in which nothing ends the walk, what is sent is what is sent for its entries, in their
/// order, each into the folder that is added for it. That folder is added first, under the name of the
/// one on disk and into the folder that was given; then come the folders of its entries.
pub proof fn law_upload_of_a_folder(
    path: Seq<char>,
    name: Seq<char>,
    id: i64,
    entries: Seq<DiskTree>,
    password: Seq<char>,
    folder: Option<i64>,
)
    requires
        forall|i: int| 0 <= i < entries.len() ==> fault(#[trigger] entries[i]) is None,
    ensures
        ({
            let tree = DiskTree::Folder { path, name, id, entries };
            &&& fault(tree) is None
            &&& uploads(tree, password, folder) == entries.flat_map(
                |e: DiskTree| uploads(e, password, Some(id)),
            )
            &&& additions(tree, folder) == seq![AddedFolder { name, parent: folder, id }]
                + entries.flat_map(|e: DiskTree| additions(e, Some(id)))
        }),
{
    lemma_sound_entries(entries, password, id);
}

/// Entries up to one that ends the walk are dealt with, and none behind it.
proof fn lemma_faulty_entries(
    before: Seq<DiskTree>,
    bad: DiskTree,
    behind: Seq<DiskTree>,
    password: Seq<char>,
    id: i64,
)
    requires
        forall|i: int| 0 <= i < before.len() ==> fault(#[trigger] before[i]) is None,
        fault(bad) is Some,
    ensures
        fault_of_all(before.push(bad) + behind) == fault(bad),
        uploads_of_all(before.push(bad) + behind, password, id) == before.flat_map(
            |e: DiskTree| uploads(e, password, Some(id)),
        ) + uploads(bad, password, Some(id)),
        additions_of_all(before.push(bad) + behind, id) == before.flat_map(
            |e: DiskTree| additions(e, Some(id)),
        ) + additions(bad, Some(id)),
    decreases before.len(),
{
    let sends = |e: DiskTree| uploads(e, password, Some(id));
    let adds = |e: DiskTree| additions(e, Some(id));
    let all = before.push(bad) + behind;
    if before.len() == 0 {
        assert(all[0] == bad);
        assert(before.flat_map(sends) + uploads(bad, password, Some(id)) =~= uploads(
            bad,
            password,
            Some(id),
        ));
        assert(before.flat_map(adds) + additions(bad, Some(id)) =~= additions(bad, Some(id)));
    } else {
        let rest = before.drop_first();
        assert forall|i: int| 0 <= i < rest.len() implies fault(#[trigger] rest[i]) is None by {
            assert(rest[i] == before[i + 1]);
        }
        assert(all[0] == before[0]);
        assert(all.drop_first() =~= rest.push(bad) + behind);
        lemma_faulty_entries(rest, bad, behind, password, id);
        assert(before.map_values(sends).drop_first() =~= rest.map_values(sends));
        assert(before.map_values(adds).drop_first() =~= rest.map_values(adds));
        assert(uploads_of_all(all, password, id) =~= before.flat_map(sends) + uploads(
            bad,
            password,
            Some(id),
        ));
        assert(additions_of_all(all, id) =~= before.flat_map(adds) + additions(bad, Some(id)));
    }
}

/// What ends the walk within an entry of a folder ends it for the folder: the entries before it have
/// been dealt with, and those behind it are left.
pub proof fn law_upload_stops_at_a_fault(
    path: Seq<char>,
    name: Seq<char>,
    id: i64,
    before: Seq<DiskTree>,
    bad: DiskTree,
    behind: Seq<DiskTree>,
    password: Seq<char>,
    folder: Option<i64>,
)
    requires
        forall|i: int| 0 <= i < before.len() ==> fault(#[trigger] before[i]) is None,
        fault(bad) is Some,
    ensures
        ({
            let tree = DiskTree::Folder { path, name, id, entries: before.push(bad) + behind };
            &&& fault(tree) == fault(bad)
            &&& uploads(tree, password, folder) == before.flat_map(
                |e: DiskTree| uploads(e, password, Some(id)),
            ) + uploads(bad, password, Some(id))
            &&& additions(tree, folder) == seq![AddedFolder { name, parent: folder, id }] + (
            before.flat_map(|e: DiskTree| additions(e, Some(id))) + additions(bad, Some(id)))
        }),
{
    lemma_faulty_entries(before, bad, behind, password, id);
}

/// A file that is found is sent as it was asked for, and a folder that is found is added under its own
/// name where it was asked for.
pub proof fn law_what_is_found_is_sent(args: UploadArgsView, name: Seq<char>)
    ensures
        inspected_step(args, PathKindView::File) == Ok::<_, WalkError>(
            UploadWalkStepView::Collect(args),
        ),
        inspected_step(args, PathKindView::Folder(Some(name))) == Ok::<_, WalkError>(
            UploadWalkStepView::AddFolder(args, name),
        ),
        inspected_step(args, PathKindView::Folder(None)) is Err,
        inspected_step(args, PathKindView::Missing) is Err,
{
}

/// An entry is looked at with the password of the walk, to go into the folder that was added last and
/// whose list has not ended. When a list has ended, the folder around it is the one again.
pub proof fn law_entries_go_into_their_folder(walk: UploadWalkView, id: i64, entry: Seq<char>)
    ensures
        walk.enter(id).entry_step(Some(entry)) == UploadWalkStepView::Inspect(
            UploadArgsView { path: entry, password: walk.password, folder: Some(id) },
        ),
        walk.enter(id).after_entry(Some(entry)) == walk.enter(id),
        walk.enter(id).after_entry(None) == walk,
        walk.enter(id).entry_step(None) == walk.resume(),
        walk.resume() is Done <==> walk.folders.len() == 0,
        walk.resume() is NextEntry <==> walk.folders.len() > 0,
{
    assert(walk.enter(id).leave() =~= walk);
}

}
