//! The files in a folder of the catalogue, each with the place on disk that it goes to.

use vstd::prelude::*;

use super::tree::{file_ids, folder_ids, Catalogue, FileNode, FolderTree};
use crate::text::texts;

verus! {

/// What is to be fetched: a file, the password, and where to write it. The place is given by the
/// names that are joined, one after the other, to the path that was asked for.
#[derive(Clone, Debug)]
pub struct DownloadArgs {
    pub file_id: i64,
    pub password: String,
    pub out: Vec<String>,
}

/// What is to be fetched: a folder, the password, and where to write what it holds.
#[derive(Clone, Debug)]
pub struct DownloadFolderArgs {
    pub folder_id: i64,
    pub password: String,
    pub out: Vec<String>,
}

/// `DownloadArgs` as mathematical values.
pub struct DownloadArgsView {
    pub file_id: i64,
    pub password: Seq<char>,
    pub out: Seq<Seq<char>>,
}

/// `DownloadFolderArgs` as mathematical values.
pub struct DownloadFolderArgsView {
    pub folder_id: i64,
    pub password: Seq<char>,
    pub out: Seq<Seq<char>>,
}

impl View for DownloadArgs {
    type V = DownloadArgsView;

    open spec fn view(&self) -> DownloadArgsView {
        DownloadArgsView {
            file_id: self.file_id,
            password: self.password@,
            out: texts(self.out@),
        }
    }
}

impl View for DownloadFolderArgs {
    type V = DownloadFolderArgsView;

    open spec fn view(&self) -> DownloadFolderArgsView {
        DownloadFolderArgsView {
            folder_id: self.folder_id,
            password: self.password@,
            out: texts(self.out@),
        }
    }
}

/// What is to be done next in a walk.
#[derive(Debug)]
pub enum DownloadWalkStep {
    /// Look up what the folder holds, and make sure that its place on disk is there.
    Open(DownloadFolderArgs),
    /// Look up this file.
    FindFile(i64),
    /// Look up the name of this folder.
    FindFolder(i64),
    /// This is a file to fetch.
    Collect(DownloadArgs),
    /// There is nothing more to fetch.
    Done,
}

/// A `DownloadWalkStep` as mathematical values.
pub enum DownloadWalkStepView {
    Open(DownloadFolderArgsView),
    FindFile(i64),
    FindFolder(i64),
    Collect(DownloadArgsView),
    Done,
}

impl View for DownloadWalkStep {
    type V = DownloadWalkStepView;

    open spec fn view(&self) -> DownloadWalkStepView {
        match self {
            DownloadWalkStep::Open(args) => DownloadWalkStepView::Open(args@),
            DownloadWalkStep::FindFile(id) => DownloadWalkStepView::FindFile(*id),
            DownloadWalkStep::FindFolder(id) => DownloadWalkStepView::FindFolder(*id),
            DownloadWalkStep::Collect(args) => DownloadWalkStepView::Collect(args@),
            DownloadWalkStep::Done => DownloadWalkStepView::Done,
        }
    }
}

/// A folder that the walk is in: its place on disk, and what is left in it.
struct Frame {
    out: Vec<String>,
    files: Vec<i64>,
    folders: Vec<i64>,
}

/// A folder that a walk is in, as mathematical values.
#[verifier::ext_equal]
pub struct FrameView {
    pub out: Seq<Seq<char>>,
    pub files: Seq<i64>,
    pub folders: Seq<i64>,
}

impl View for Frame {
    type V = FrameView;

    closed spec fn view(&self) -> FrameView {
        FrameView { out: texts(self.out@), files: self.files@, folders: self.folders@ }
    }
}

/// A walk as mathematical values: the password, and the folders it is in, the innermost last.
#[verifier::ext_equal]
pub struct DownloadWalkView {
    pub password: Seq<char>,
    pub frames: Seq<FrameView>,
}

impl DownloadWalkView {
    /// The walk with its innermost folder replaced.
    pub open spec fn with_top(self, top: FrameView) -> DownloadWalkView {
        DownloadWalkView {
            password: self.password,
            frames: self.frames.drop_last().push(top),
        }
    }

    /// The walk without its innermost folder.
    pub open spec fn leave(self) -> DownloadWalkView {
        DownloadWalkView { password: self.password, frames: self.frames.drop_last() }
    }

    /// The walk after the choice of the next step: folders with nothing left are left, and what is
    /// chosen is taken off the innermost folder.
    pub open spec fn moved(self) -> DownloadWalkView
        decreases self.frames.len(),
    {
        if self.frames.len() == 0 {
            self
        } else {
            let top = self.frames.last();
            if top.files.len() > 0 {
                self.with_top(FrameView { files: top.files.drop_first(), ..top })
            } else if top.folders.len() > 0 {
                self.with_top(FrameView { folders: top.folders.drop_first(), ..top })
            } else {
                self.leave().moved()
            }
        }
    }

    /// The choice of the next step: a folder's files come first, then its folders.
    pub open spec fn choice(self) -> DownloadWalkStepView
        decreases self.frames.len(),
    {
        if self.frames.len() == 0 {
            DownloadWalkStepView::Done
        } else {
            let top = self.frames.last();
            if top.files.len() > 0 {
                DownloadWalkStepView::FindFile(top.files[0])
            } else if top.folders.len() > 0 {
                DownloadWalkStepView::FindFolder(top.folders[0])
            } else {
                self.leave().choice()
            }
        }
    }

    /// The place on disk of what stands in the innermost folder under a name.
    pub open spec fn place(self, name: Seq<char>) -> Seq<Seq<char>> {
        if self.frames.len() == 0 {
            seq![name]
        } else {
            self.frames.last().out.push(name)
        }
    }

    /// The walk once what a folder holds is known.
    pub open spec fn enter(self, frame: FrameView) -> DownloadWalkView {
        DownloadWalkView { password: self.password, frames: self.frames.push(frame) }
    }
}

/// A walk through a folder that is to be fetched.
pub struct DownloadWalk {
    password: String,
    frames: Vec<Frame>,
}

/// The views of the folders that a walk is in.
spec fn frame_views(frames: Seq<Frame>) -> Seq<FrameView> {
    frames.map_values(|f: Frame| f@)
}

impl View for DownloadWalk {
    type V = DownloadWalkView;

    closed spec fn view(&self) -> DownloadWalkView {
        DownloadWalkView { password: self.password@, frames: frame_views(self.frames@) }
    }
}

/// Copies names.
fn copy_names(names: &Vec<String>) -> (copy: Vec<String>)
    ensures
        texts(copy@) == texts(names@),
{
    let mut copy: Vec<String> = Vec::new();
    let mut i: usize = 0;
    while i < names.len()
        invariant
            0 <= i <= names@.len(),
            copy@.len() == i,
            forall|j: int| 0 <= j < i ==> (#[trigger] copy@[j])@ == names@[j]@,
        decreases names@.len() - i,
    {
        copy.push(names[i].clone());
        i = i + 1;
    }
    assert(texts(copy@) =~= texts(names@));
    copy
}

impl DownloadWalk {
    /// Starts a walk.
    pub fn start(args: DownloadFolderArgs) -> (r: (DownloadWalk, DownloadWalkStep))
        ensures
            r.0@ == (DownloadWalkView { password: args.password@, frames: Seq::empty() }),
            r.1@ == DownloadWalkStepView::Open(args@),
    {
        let walk: DownloadWalk = DownloadWalk {
            password: args.password.clone(),
            frames: Vec::new(),
        };
        assert(walk@.frames =~= Seq::empty());
        (walk, DownloadWalkStep::Open(args))
    }

    /// Chooses the next step, after a file has been dealt with.
    pub fn next(&mut self) -> (step: DownloadWalkStep)
        ensures
            final(self)@ == old(self)@.moved(),
            step@ == old(self)@.choice(),
    {
        loop
            invariant
                self@.moved() == old(self)@.moved(),
                self@.choice() == old(self)@.choice(),
            decreases self.frames@.len(),
        {
            let ghost before = self@;
            match self.frames.pop() {
                None => {
                    return DownloadWalkStep::Done;
                },
                Some(top) => {
                    assert(before.frames.last() == top@);
                    assert(self@ =~= before.leave());
                    let mut top: Frame = top;
                    if top.files.len() > 0 {
                        let id: i64 = top.files.remove(0);
                        assert(top.files@ =~= before.frames.last().files.drop_first());
                        self.frames.push(top);
                        assert(self@ =~= before.with_top(top@));
                        return DownloadWalkStep::FindFile(id);
                    }
                    if top.folders.len() > 0 {
                        let id: i64 = top.folders.remove(0);
                        assert(top.folders@ =~= before.frames.last().folders.drop_first());
                        self.frames.push(top);
                        assert(self@ =~= before.with_top(top@));
                        return DownloadWalkStep::FindFolder(id);
                    }
                },
            }
        }
    }

    /// The place on disk of what stands in the innermost folder under a name.
    fn place(&self, name: String) -> (out: Vec<String>)
        ensures
            texts(out@) == self@.place(name@),
    {
        let mut out: Vec<String> = Vec::new();
        if self.frames.len() > 0 {
            let top: usize = self.frames.len() - 1;
            assert(self@.frames.last() == self.frames@[top as int]@);
            out = copy_names(&self.frames[top].out);
        }
        let ghost before = out@;
        out.push(name);
        assert(texts(out@) =~= texts(before).push(name@));
        assert(before.len() == 0 ==> texts(out@) =~= seq![name@]);
        out
    }

    /// Takes in what a folder holds, and chooses the next step.
    pub fn opened(
        &mut self,
        args: DownloadFolderArgs,
        files: Vec<i64>,
        folders: Vec<i64>,
    ) -> (step: DownloadWalkStep)
        ensures
            ({
                let entered = old(self)@.enter(
                    FrameView { out: args@.out, files: files@, folders: folders@ },
                );
                &&& final(self)@ == entered.moved()
                &&& step@ == entered.choice()
            }),
    {
        self.frames.push(Frame { out: args.out, files, folders });
        assert(self@ =~= old(self)@.enter(
            FrameView { out: args@.out, files: files@, folders: folders@ },
        ));
        self.next()
    }

    /// Takes in the file that was looked up: its number and its name.
    pub fn file_found(&self, id: i64, name: String) -> (step: DownloadWalkStep)
        ensures
            step@ == DownloadWalkStepView::Collect(
                DownloadArgsView {
                    file_id: id,
                    password: self@.password,
                    out: self@.place(name@),
                },
            ),
    {
        DownloadWalkStep::Collect(
            DownloadArgs { file_id: id, password: self.password.clone(), out: self.place(name) },
        )
    }

    /// Takes in the name of the folder that was looked up.
    pub fn folder_found(&self, id: i64, name: String) -> (step: DownloadWalkStep)
        ensures
            step@ == DownloadWalkStepView::Open(
                DownloadFolderArgsView {
                    folder_id: id,
                    password: self@.password,
                    out: self@.place(name@),
                },
            ),
    {
        DownloadWalkStep::Open(
            DownloadFolderArgs {
                folder_id: id,
                password: self.password.clone(),
                out: self.place(name),
            },
        )
    }
}

/// What there is to fetch of the files of a folder that goes to a place on disk.
pub open spec fn downloads_of_files(
    files: Seq<FileNode>,
    password: Seq<char>,
    out: Seq<Seq<char>>,
) -> Seq<DownloadArgsView> {
    files.map_values(
        |f: FileNode| DownloadArgsView { file_id: f.id, password, out: out.push(f.name) },
    )
}

/// What there is to fetch of a folder: its files go to the folder's place on disk, and each folder
/// in it goes to a place of its name there.
pub open spec fn downloads(tree: FolderTree, password: Seq<char>, out: Seq<Seq<char>>) -> Seq<
    DownloadArgsView,
>
    decreases tree,
{
    downloads_of_files(tree.files, password, out) + downloads_of_all(tree.folders, password, out)
}

/// What there is to fetch of folders that are in one that goes to a place on disk.
pub open spec fn downloads_of_all(
    trees: Seq<FolderTree>,
    password: Seq<char>,
    out: Seq<Seq<char>>,
) -> Seq<DownloadArgsView>
    decreases trees,
{
    if trees.len() == 0 {
        Seq::empty()
    } else {
        downloads(trees[0], password, out.push(trees[0].name)) + downloads_of_all(
            trees.drop_first(),
            password,
            out,
        )
    }
}

/// The folders to open for a folder, each with its place on disk, which is made: itself, then those
/// in it, each at a place of its name there.
pub open spec fn openings(tree: FolderTree, password: Seq<char>, out: Seq<Seq<char>>) -> Seq<
    DownloadFolderArgsView,
>
    decreases tree,
{
    seq![DownloadFolderArgsView { folder_id: tree.id, password, out }] + openings_of_all(
        tree.folders,
        password,
        out,
    )
}

/// The folders to open for folders that are in one that goes to a place on disk.
pub open spec fn openings_of_all(
    trees: Seq<FolderTree>,
    password: Seq<char>,
    out: Seq<Seq<char>>,
) -> Seq<DownloadFolderArgsView>
    decreases trees,
{
    if trees.len() == 0 {
        Seq::empty()
    } else {
        openings(trees[0], password, out.push(trees[0].name)) + openings_of_all(
            trees.drop_first(),
            password,
            out,
        )
    }
}

/// A walk, the step that is due, the folders opened, and what was collected.
#[verifier::ext_equal]
pub struct DownloadRun {
    pub walk: DownloadWalkView,
    pub step: DownloadWalkStepView,
    pub opened: Seq<DownloadFolderArgsView>,
    pub collected: Seq<DownloadArgsView>,
}

impl DownloadRun {
    /// The run at the choice of the next step.
    pub open spec fn choosing(
        walk: DownloadWalkView,
        opened: Seq<DownloadFolderArgsView>,
        collected: Seq<DownloadArgsView>,
    ) -> DownloadRun {
        DownloadRun { walk: walk.moved(), step: walk.choice(), opened, collected }
    }

    /// The step that is due is done with what the catalogue answers, and its outcome taken in.
    pub open spec fn advance(self, catalogue: Catalogue) -> DownloadRun {
        match self.step {
            DownloadWalkStepView::Open(args) => DownloadRun::choosing(
                self.walk.enter(
                    FrameView {
                        out: args.out,
                        files: (catalogue.files)(args.folder_id),
                        folders: (catalogue.folders)(args.folder_id),
                    },
                ),
                self.opened.push(args),
                self.collected,
            ),
            DownloadWalkStepView::FindFile(id) => DownloadRun {
                step: DownloadWalkStepView::Collect(
                    DownloadArgsView {
                        file_id: id,
                        password: self.walk.password,
                        out: self.walk.place(catalogue.file_names[id]),
                    },
                ),
                ..self
            },
            DownloadWalkStepView::FindFolder(id) => DownloadRun {
                step: DownloadWalkStepView::Open(
                    DownloadFolderArgsView {
                        folder_id: id,
                        password: self.walk.password,
                        out: self.walk.place(catalogue.folder_names[id]),
                    },
                ),
                ..self
            },
            DownloadWalkStepView::Collect(args) => DownloadRun::choosing(
                self.walk,
                self.opened,
                self.collected.push(args),
            ),
            DownloadWalkStepView::Done => self,
        }
    }

    /// The run `n` steps on.
    pub open spec fn after(self, catalogue: Catalogue, n: nat) -> DownloadRun
        decreases n,
    {
        if n == 0 {
            self
        } else {
            self.advance(catalogue).after(catalogue, (n - 1) as nat)
        }
    }

    /// What `n` steps make of files that are fetched as the walk finds them.
    pub open spec fn fetched_along<F>(
        self,
        catalogue: Catalogue,
        files: F,
        fetch: spec_fn(F, DownloadArgsView) -> F,
        n: nat,
    ) -> F
        decreases n,
    {
        if n == 0 {
            files
        } else {
            let next = match self.step {
                DownloadWalkStepView::Collect(args) => fetch(files, args),
                _ => files,
            };
            self.advance(catalogue).fetched_along(catalogue, next, fetch, (n - 1) as nat)
        }
    }

    /// Fetching along the walk does what fetching what it has collected does.
    proof fn lemma_fetched_along<F>(
        self,
        catalogue: Catalogue,
        files: F,
        fetch: spec_fn(F, DownloadArgsView) -> F,
        n: nat,
    )
        ensures
            self.fetched_along(catalogue, self.collected.fold_left(files, fetch), fetch, n)
                == self.after(catalogue, n).collected.fold_left(files, fetch),
        decreases n,
    {
        if n > 0 {
            match self.step {
                DownloadWalkStepView::Collect(args) => {
                    assert(self.collected.push(args).drop_last() =~= self.collected);
                },
                _ => {},
            }
            self.advance(catalogue).lemma_fetched_along(catalogue, files, fetch, (n - 1) as nat);
        }
    }

    /// Two stretches of a run make one.
    proof fn lemma_after_sum(self, catalogue: Catalogue, m: nat, n: nat)
        ensures
            self.after(catalogue, m).after(catalogue, n) == self.after(catalogue, m + n),
        decreases m,
    {
        if m > 0 {
            self.advance(catalogue).lemma_after_sum(catalogue, (m - 1) as nat, n);
        }
    }
}

/// How many steps a folder takes.
pub open spec fn walk_length(tree: FolderTree) -> nat
    decreases tree,
{
    1 + 2 * tree.files.len() + walk_length_of_all(tree.folders)
}

/// How many steps the folders in a folder take.
pub open spec fn walk_length_of_all(trees: Seq<FolderTree>) -> nat
    decreases trees,
{
    if trees.len() == 0 {
        0
    } else {
        1 + walk_length(trees[0]) + walk_length_of_all(trees.drop_first())
    }
}

/// A folder that is to be opened is dealt with, and the walk goes on as it stood.
proof fn lemma_walk_tree(
    catalogue: Catalogue,
    run: DownloadRun,
    tree: FolderTree,
    args: DownloadFolderArgsView,
)
    requires
        catalogue.describes(tree),
        run.step == DownloadWalkStepView::Open(args),
        args.folder_id == tree.id,
        args.password == run.walk.password,
    ensures
        run.after(catalogue, walk_length(tree)) == DownloadRun::choosing(
            run.walk,
            run.opened + openings(tree, run.walk.password, args.out),
            run.collected + downloads(tree, run.walk.password, args.out),
        ),
    decreases tree, 0nat,
{
    let frame = FrameView {
        out: args.out,
        files: file_ids(tree.files),
        folders: folder_ids(tree.folders),
    };
    let opened = run.advance(catalogue);
    reveal_with_fuel(DownloadRun::after, 2);
    assert(run.after(catalogue, 1) == opened);
    let entered = run.walk.enter(frame);
    let more = run.opened.push(args);
    assert(opened == DownloadRun::choosing(entered, more, run.collected));
    assert(entered.leave() =~= run.walk);
    lemma_walk_rest(catalogue, entered, more, run.collected, tree.files, tree.folders);
    assert(more + openings_of_all(tree.folders, run.walk.password, args.out) =~= run.opened
        + openings(tree, run.walk.password, args.out));
    run.lemma_after_sum(
        catalogue,
        1,
        2 * tree.files.len() + walk_length_of_all(tree.folders),
    );
    assert(run.collected + downloads_of_files(tree.files, run.walk.password, args.out)
        + downloads_of_all(tree.folders, run.walk.password, args.out) =~= run.collected
        + downloads(tree, run.walk.password, args.out));
}

/// What is left in the innermost folder is dealt with, and the folder is left.
proof fn lemma_walk_rest(
    catalogue: Catalogue,
    walk: DownloadWalkView,
    opened: Seq<DownloadFolderArgsView>,
    collected: Seq<DownloadArgsView>,
    files: Seq<FileNode>,
    folders: Seq<FolderTree>,
)
    requires
        walk.frames.len() > 0,
        walk.frames.last().files == file_ids(files),
        walk.frames.last().folders == folder_ids(folders),
        forall|i: int| 0 <= i < files.len() ==> catalogue.has(#[trigger] files[i]),
        catalogue.describes_all(folders),
    ensures
        DownloadRun::choosing(walk, opened, collected).after(
            catalogue,
            2 * files.len() + walk_length_of_all(folders),
        ) == DownloadRun::choosing(
            walk.leave(),
            opened + openings_of_all(folders, walk.password, walk.frames.last().out),
            collected + downloads_of_files(files, walk.password, walk.frames.last().out)
                + downloads_of_all(folders, walk.password, walk.frames.last().out),
        ),
    decreases folders, files.len(),
{
    let top = walk.frames.last();
    let run = DownloadRun::choosing(walk, opened, collected);
    let steps = 2 * files.len() + walk_length_of_all(folders);
    if files.len() > 0 {
        let next = walk.with_top(FrameView { files: top.files.drop_first(), ..top });
        let args = DownloadArgsView {
            file_id: files[0].id,
            password: walk.password,
            out: top.out.push(files[0].name),
        };
        let rest = files.drop_first();
        assert(catalogue.has(files[0]));
        assert(next.frames.last().files =~= file_ids(rest));
        assert(run.walk == next);
        assert(run.step == DownloadWalkStepView::FindFile(files[0].id));
        reveal_with_fuel(DownloadRun::after, 3);
        assert(run.after(catalogue, 2) == DownloadRun::choosing(
            next,
            opened,
            collected.push(args),
        ));
        assert(next.leave() =~= walk.leave());
        lemma_walk_rest(catalogue, next, opened, collected.push(args), rest, folders);
        run.lemma_after_sum(catalogue, 2, (steps - 2) as nat);
        assert(collected.push(args) + downloads_of_files(rest, walk.password, top.out)
            =~= collected + downloads_of_files(files, walk.password, top.out));
    } else if folders.len() > 0 {
        let next = walk.with_top(FrameView { folders: top.folders.drop_first(), ..top });
        let tree = folders[0];
        let rest = folders.drop_first();
        let args = DownloadFolderArgsView {
            folder_id: tree.id,
            password: walk.password,
            out: top.out.push(tree.name),
        };
        assert(next.frames.last().folders =~= folder_ids(rest));
        assert(run.walk == next);
        assert(run.step == DownloadWalkStepView::FindFolder(tree.id));
        let opening = run.advance(catalogue);
        assert(catalogue.describes(tree));
        assert(opening.step == DownloadWalkStepView::Open(args));
        reveal_with_fuel(DownloadRun::after, 2);
        assert(run.after(catalogue, 1) == opening);
        lemma_walk_tree(catalogue, opening, tree, args);
        let found = downloads(tree, walk.password, args.out);
        run.lemma_after_sum(catalogue, 1, walk_length(tree));
        assert(next.leave() =~= walk.leave());
        let more = opened + openings(tree, walk.password, args.out);
        lemma_walk_rest(catalogue, next, more, collected + found, files, rest);
        assert(more + openings_of_all(rest, walk.password, top.out) =~= opened + openings_of_all(
            folders,
            walk.password,
            top.out,
        ));
        run.lemma_after_sum(catalogue, 1 + walk_length(tree), walk_length_of_all(rest));
        let none = downloads_of_files(files, walk.password, top.out);
        assert(collected + found + none + downloads_of_all(rest, walk.password, top.out)
            =~= collected + none + downloads_of_all(folders, walk.password, top.out));
    } else {
        assert(opened + openings_of_all(folders, walk.password, top.out) =~= opened);
        assert(collected + downloads_of_files(files, walk.password, top.out) + downloads_of_all(
            folders,
            walk.password,
            top.out,
        ) =~= collected);
    }
}

/// The run at the start of a walk through a folder.
pub open spec fn download_start(
    tree: FolderTree,
    password: Seq<char>,
    out: Seq<Seq<char>>,
) -> DownloadRun {
    DownloadRun {
        walk: DownloadWalkView { password, frames: Seq::empty() },
        step: DownloadWalkStepView::Open(
            DownloadFolderArgsView { folder_id: tree.id, password, out },
        ),
        opened: Seq::empty(),
        collected: Seq::empty(),
    }
}

/// A walk ends. It collects each file below the folder once: the files of a folder before those of
/// the folders in it, each to go to a place made of the names of the folders it is in and its own.
/// And it opens each folder once, before what is in it, at the place made of the names of the folders
/// it is in and its own.
pub proof fn law_download_walk(
    catalogue: Catalogue,
    tree: FolderTree,
    password: Seq<char>,
    out: Seq<Seq<char>>,
)
    requires
        catalogue.describes(tree),
    ensures
        ({
            let end = download_start(tree, password, out).after(catalogue, walk_length(tree));
            &&& end.step == DownloadWalkStepView::Done
            &&& end.collected == downloads(tree, password, out)
            &&& end.opened == openings(tree, password, out)
        }),
{
    let args = DownloadFolderArgsView { folder_id: tree.id, password, out };
    let start = download_start(tree, password, out);
    lemma_walk_tree(catalogue, start, tree, args);
    assert(start.collected + downloads(tree, password, out) =~= downloads(tree, password, out));
    assert(start.opened + openings(tree, password, out) =~= openings(tree, password, out));
}

/// It is all the same whether files are fetched as the walk finds them, or collected first and then
/// fetched one after the other: whatever fetching a file does, what is left is the same. That holds
/// at the end of the walk, and wherever else it is broken off.
pub proof fn law_fetching_along_the_walk<F>(
    catalogue: Catalogue,
    tree: FolderTree,
    password: Seq<char>,
    out: Seq<Seq<char>>,
    files: F,
    fetch: spec_fn(F, DownloadArgsView) -> F,
)
    requires
        catalogue.describes(tree),
    ensures
        download_start(tree, password, out).fetched_along(
            catalogue,
            files,
            fetch,
            walk_length(tree),
        ) == downloads(tree, password, out).fold_left(files, fetch),
        forall|n: nat|
            (#[trigger] download_start(tree, password, out).fetched_along(
                catalogue,
                files,
                fetch,
                n,
            )) == download_start(tree, password, out).after(catalogue, n).collected.fold_left(
                files,
                fetch,
            ),
{
    let start = download_start(tree, password, out);
    law_download_walk(catalogue, tree, password, out);
    assert forall|n: nat|
        (#[trigger] start.fetched_along(catalogue, files, fetch, n)) == start.after(
            catalogue,
            n,
        ).collected.fold_left(files, fetch) by {
        start.lemma_fetched_along(catalogue, files, fetch, n);
    }
}

/// What there is to fetch of folders, one after the other.
proof fn lemma_downloads_flat(trees: Seq<FolderTree>, password: Seq<char>, out: Seq<Seq<char>>)
    ensures
        downloads_of_all(trees, password, out) == trees.flat_map(
            |t: FolderTree| downloads(t, password, out.push(t.name)),
        ),
        openings_of_all(trees, password, out) == trees.flat_map(
            |t: FolderTree| openings(t, password, out.push(t.name)),
        ),
    decreases trees.len(),
{
    let fetches = |t: FolderTree| downloads(t, password, out.push(t.name));
    let opens = |t: FolderTree| openings(t, password, out.push(t.name));
    if trees.len() > 0 {
        let rest = trees.drop_first();
        lemma_downloads_flat(rest, password, out);
        assert(trees.map_values(fetches).drop_first() =~= rest.map_values(fetches));
        assert(trees.map_values(opens).drop_first() =~= rest.map_values(opens));
    }
}

/// For a folder, each of its files is fetched with the password that was given, to the folder's place
/// and under its own name; then come its folders in their order, each at a place of its name there.
/// The folder is opened at its place before the folders in it.
pub proof fn law_download_of_a_folder(tree: FolderTree, password: Seq<char>, out: Seq<Seq<char>>)
    ensures
        downloads(tree, password, out) == tree.files.map_values(
            |f: FileNode| DownloadArgsView { file_id: f.id, password, out: out.push(f.name) },
        ) + tree.folders.flat_map(|t: FolderTree| downloads(t, password, out.push(t.name))),
        openings(tree, password, out) == seq![
            DownloadFolderArgsView { folder_id: tree.id, password, out },
        ] + tree.folders.flat_map(|t: FolderTree| openings(t, password, out.push(t.name))),
{
    lemma_downloads_flat(tree.folders, password, out);
}

/// What is left in a folder comes in its order, files before folders; and what is found in it goes
/// to the folder's place under its own name. When nothing is left, the walk goes on in the folder
/// around it.
pub proof fn law_download_goes_through_a_folder(
    walk: DownloadWalkView,
    frame: FrameView,
    name: Seq<char>,
)
    ensures
        ({
            let entered = walk.enter(frame);
            let file_taken = FrameView { files: frame.files.drop_first(), ..frame };
            let folder_taken = FrameView { folders: frame.folders.drop_first(), ..frame };
            &&& entered.place(name) == frame.out.push(name)
            &&& frame.files.len() > 0 ==> {
                &&& entered.choice() == DownloadWalkStepView::FindFile(frame.files[0])
                &&& entered.moved() == walk.enter(file_taken)
            }
            &&& frame.files.len() == 0 && frame.folders.len() > 0 ==> {
                &&& entered.choice() == DownloadWalkStepView::FindFolder(frame.folders[0])
                &&& entered.moved() == walk.enter(folder_taken)
            }
            &&& frame.files.len() == 0 && frame.folders.len() == 0 ==> {
                &&& entered.choice() == walk.choice()
                &&& entered.moved() == walk.moved()
            }
        }),
        walk.frames.len() == 0 ==> walk.choice() is Done,
        walk.moved().password == walk.password,
    decreases walk.frames.len(),
{
    let entered = walk.enter(frame);
    assert(entered.frames.drop_last() =~= walk.frames);
    assert(entered.leave() =~= walk);
    lemma_password_kept(walk);
}

/// Going on does not change the password.
proof fn lemma_password_kept(walk: DownloadWalkView)
    ensures
        walk.moved().password == walk.password,
    decreases walk.frames.len(),
{
    if walk.frames.len() > 0 {
        lemma_password_kept(walk.leave());
    }
}

}
