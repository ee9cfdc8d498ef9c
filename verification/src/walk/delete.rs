//! Removing a folder of the catalogue with all that it holds.

use vstd::prelude::*;

use super::tree::{file_ids, folder_ids, Catalogue, FileNode, FolderTree};

verus! {

/// What is to be done next in a walk.
#[derive(Debug, PartialEq, Eq, Structural, Clone, Copy)]
pub enum DeleteWalkStep {
    /// Look up what this folder holds.
    Open(i64),
    /// Remove this file.
    DeleteFile(i64),
    /// Remove this folder and nothing else.
    DeleteFolder(i64),
    /// There is nothing more to remove.
    Done,
}

/// A folder that the walk is in, and what is left in it.
struct Frame {
    folder: i64,
    files: Vec<i64>,
    folders: Vec<i64>,
}

/// A folder that a walk is in, as mathematical values.
#[verifier::ext_equal]
pub struct DeleteFrameView {
    pub folder: i64,
    pub files: Seq<i64>,
    pub folders: Seq<i64>,
}

impl View for Frame {
    type V = DeleteFrameView;

    closed spec fn view(&self) -> DeleteFrameView {
        DeleteFrameView { folder: self.folder, files: self.files@, folders: self.folders@ }
    }
}

/// A walk as mathematical values: the folders it is in, the innermost last.
#[verifier::ext_equal]
pub struct DeleteWalkView {
    pub frames: Seq<DeleteFrameView>,
}

impl DeleteWalkView {
    /// The walk with its innermost folder replaced.
    pub open spec fn with_top(self, top: DeleteFrameView) -> DeleteWalkView {
        DeleteWalkView { frames: self.frames.drop_last().push(top) }
    }

    /// The walk without its innermost folder.
    pub open spec fn leave(self) -> DeleteWalkView {
        DeleteWalkView { frames: self.frames.drop_last() }
    }

    /// The walk with a folder entered.
    pub open spec fn enter(self, frame: DeleteFrameView) -> DeleteWalkView {
        DeleteWalkView { frames: self.frames.push(frame) }
    }

    /// The choice of the next step: a folder's files, then the folders in it, then itself.
    pub open spec fn choice(self) -> DeleteWalkStep {
        if self.frames.len() == 0 {
            DeleteWalkStep::Done
        } else {
            let top = self.frames.last();
            if top.files.len() > 0 {
                DeleteWalkStep::DeleteFile(top.files[0])
            } else if top.folders.len() > 0 {
                DeleteWalkStep::Open(top.folders[0])
            } else {
                DeleteWalkStep::DeleteFolder(top.folder)
            }
        }
    }

    /// The walk after the choice of the next step.
    pub open spec fn moved(self) -> DeleteWalkView {
        if self.frames.len() == 0 {
            self
        } else {
            let top = self.frames.last();
            if top.files.len() > 0 {
                self.with_top(DeleteFrameView { files: top.files.drop_first(), ..top })
            } else if top.folders.len() > 0 {
                self.with_top(DeleteFrameView { folders: top.folders.drop_first(), ..top })
            } else {
                self.leave()
            }
        }
    }
}

/// A walk through a folder that is to be removed.
pub struct DeleteWalk {
    frames: Vec<Frame>,
}

/// The views of the folders that a walk is in.
spec fn frame_views(frames: Seq<Frame>) -> Seq<DeleteFrameView> {
    frames.map_values(|f: Frame| f@)
}

impl View for DeleteWalk {
    type V = DeleteWalkView;

    closed spec fn view(&self) -> DeleteWalkView {
        DeleteWalkView { frames: frame_views(self.frames@) }
    }
}

impl DeleteWalk {
    /// Starts from a folder.
    pub fn start(folder_id: i64) -> (r: (DeleteWalk, DeleteWalkStep))
        ensures
            r.0@ == (DeleteWalkView { frames: Seq::empty() }),
            r.1 == DeleteWalkStep::Open(folder_id),
    {
        let walk: DeleteWalk = DeleteWalk { frames: Vec::new() };
        assert(walk@.frames =~= Seq::empty());
        (walk, DeleteWalkStep::Open(folder_id))
    }

    /// Chooses the next step, after a file or a folder has been removed.
    pub fn next(&mut self) -> (step: DeleteWalkStep)
        ensures
            final(self)@ == old(self)@.moved(),
            step == old(self)@.choice(),
    {
        match self.frames.pop() {
            None => DeleteWalkStep::Done,
            Some(top) => {
                assert(old(self)@.frames.last() == top@);
                assert(self@ =~= old(self)@.leave());
                let mut top: Frame = top;
                if top.files.len() > 0 {
                    let id: i64 = top.files.remove(0);
                    assert(top.files@ =~= old(self)@.frames.last().files.drop_first());
                    self.frames.push(top);
                    assert(self@ =~= old(self)@.with_top(top@));
                    DeleteWalkStep::DeleteFile(id)
                } else if top.folders.len() > 0 {
                    let id: i64 = top.folders.remove(0);
                    assert(top.folders@ =~= old(self)@.frames.last().folders.drop_first());
                    self.frames.push(top);
                    assert(self@ =~= old(self)@.with_top(top@));
                    DeleteWalkStep::Open(id)
                } else {
                    DeleteWalkStep::DeleteFolder(top.folder)
                }
            },
        }
    }

    /// Takes in what a folder holds, and chooses the next step.
    pub fn opened(&mut self, folder: i64, files: Vec<i64>, folders: Vec<i64>) -> (step:
        DeleteWalkStep)
        ensures
            ({
                let entered = old(self)@.enter(
                    DeleteFrameView { folder, files: files@, folders: folders@ },
                );
                &&& final(self)@ == entered.moved()
                &&& step == entered.choice()
            }),
    {
        self.frames.push(Frame { folder, files, folders });
        assert(self@ =~= old(self)@.enter(
            DeleteFrameView { folder, files: files@, folders: folders@ },
        ));
        self.next()
    }
}

/// Something that is removed.
pub enum Removal {
    File(i64),
    Folder(i64),
}

/// The removals of files.
pub open spec fn removals_of_files(files: Seq<FileNode>) -> Seq<Removal> {
    files.map_values(|f: FileNode| Removal::File(f.id))
}

/// All that is removed of a folder: its files, then what is in its folders, then itself.
pub open spec fn removals(tree: FolderTree) -> Seq<Removal>
    decreases tree,
{
    (removals_of_files(tree.files) + removals_of_all(tree.folders)).push(Removal::Folder(tree.id))
}

/// All that is removed of some folders.
pub open spec fn removals_of_all(trees: Seq<FolderTree>) -> Seq<Removal>
    decreases trees,
{
    if trees.len() == 0 {
        Seq::empty()
    } else {
        removals(trees[0]) + removals_of_all(trees.drop_first())
    }
}

/// The files that are left of a list.
pub open spec fn files_left(list: Seq<i64>, removed: Seq<Removal>) -> Seq<i64> {
    list.filter(|id: i64| !removed.contains(Removal::File(id)))
}

/// The folders that are left of a list.
pub open spec fn folders_left(list: Seq<i64>, removed: Seq<Removal>) -> Seq<i64> {
    list.filter(|id: i64| !removed.contains(Removal::Folder(id)))
}

/// A walk, the step that is due, what was removed so far, and whether each folder was empty when it
/// was removed.
#[verifier::ext_equal]
pub struct DeleteRun {
    pub walk: DeleteWalkView,
    pub step: DeleteWalkStep,
    pub removed: Seq<Removal>,
    pub only_empty: bool,
}

impl DeleteRun {
    /// The run at the choice of the next step.
    pub open spec fn choosing(
        walk: DeleteWalkView,
        removed: Seq<Removal>,
        only_empty: bool,
    ) -> DeleteRun {
        DeleteRun { walk: walk.moved(), step: walk.choice(), removed, only_empty }
    }

    /// The step that is due is done on what is left of the catalogue, and its outcome taken in.
    pub open spec fn advance(self, catalogue: Catalogue) -> DeleteRun {
        match self.step {
            DeleteWalkStep::Open(id) => DeleteRun::choosing(
                self.walk.enter(
                    DeleteFrameView {
                        folder: id,
                        files: files_left((catalogue.files)(id), self.removed),
                        folders: folders_left((catalogue.folders)(id), self.removed),
                    },
                ),
                self.removed,
                self.only_empty,
            ),
            DeleteWalkStep::DeleteFile(id) => DeleteRun::choosing(
                self.walk,
                self.removed.push(Removal::File(id)),
                self.only_empty,
            ),
            DeleteWalkStep::DeleteFolder(id) => DeleteRun::choosing(
                self.walk,
                self.removed.push(Removal::Folder(id)),
                self.only_empty && files_left((catalogue.files)(id), self.removed).len() == 0
                    && folders_left((catalogue.folders)(id), self.removed).len() == 0,
            ),
            DeleteWalkStep::Done => self,
        }
    }

    /// The run `n` steps on.
    pub open spec fn after(self, catalogue: Catalogue, n: nat) -> DeleteRun
        decreases n,
    {
        if n == 0 {
            self
        } else {
            self.advance(catalogue).after(catalogue, (n - 1) as nat)
        }
    }

    /// Two stretches of a run make one.
    proof fn lemma_after_sum(self, catalogue: Catalogue, m: nat, n: nat)
        ensures
            self.after(catalogue, m).after(catalogue, n) == self.after(catalogue, m + n),
        decreases m,
    {
        if m > 0 {
            self.advance(catalogue).lemma_after_sum(catalogue, (m - 1) as nat, n);
        }
    }
}

/// How many steps a folder takes: one to open it, and one for each removal.
pub open spec fn walk_length(tree: FolderTree) -> nat
    decreases tree,
{
    2 + tree.files.len() + walk_length_of_all(tree.folders)
}

/// How many steps the folders in a folder take.
pub open spec fn walk_length_of_all(trees: Seq<FolderTree>) -> nat
    decreases trees,
{
    if trees.len() == 0 {
        0
    } else {
        walk_length(trees[0]) + walk_length_of_all(trees.drop_first())
    }
}

/// Each file of a list has been removed or is among those that are left.
spec fn files_accounted(list: Seq<i64>, removed: Seq<Removal>, left: Seq<i64>) -> bool {
    forall|i: int|
        0 <= i < list.len() ==> removed.contains(Removal::File(#[trigger] list[i]))
            || left.contains(list[i])
}

/// Each folder of a list has been removed or is among those that are left.
spec fn folders_accounted(list: Seq<i64>, removed: Seq<Removal>, left: Seq<i64>) -> bool {
    forall|i: int|
        0 <= i < list.len() ==> removed.contains(Removal::Folder(#[trigger] list[i]))
            || left.contains(list[i])
}

/// Where all pass, a list stays as it is.
proof fn lemma_filter_all(list: Seq<i64>, pass: spec_fn(i64) -> bool)
    requires
        forall|i: int| 0 <= i < list.len() ==> pass(#[trigger] list[i]),
    ensures
        list.filter(pass) == list,
    decreases list.len(),
{
    reveal(Seq::filter);
    if list.len() > 0 {
        lemma_filter_all(list.drop_last(), pass);
        assert(list.drop_last().push(list.last()) =~= list);
    }
}

/// Where none passes, nothing is left.
proof fn lemma_filter_none(list: Seq<i64>, pass: spec_fn(i64) -> bool)
    requires
        forall|i: int| 0 <= i < list.len() ==> !pass(#[trigger] list[i]),
    ensures
        list.filter(pass).len() == 0,
    decreases list.len(),
{
    reveal(Seq::filter);
    if list.len() > 0 {
        lemma_filter_none(list.drop_last(), pass);
    }
}

/// Each of some folders is removed with them.
proof fn lemma_folder_removed(trees: Seq<FolderTree>, i: int)
    requires
        0 <= i < trees.len(),
    ensures
        removals_of_all(trees).contains(Removal::Folder(trees[i].id)),
    decreases trees,
{
    let first = removals(trees[0]);
    let rest = trees.drop_first();
    let all = first + removals_of_all(rest);
    if i == 0 {
        assert(first.last() == Removal::Folder(trees[0].id));
        assert(all[first.len() - 1] == first.last());
    } else {
        lemma_folder_removed(rest, i - 1);
        let k = choose|k: int|
            0 <= k < removals_of_all(rest).len() && removals_of_all(rest)[k] == Removal::Folder(
                rest[i - 1].id,
            );
        assert(all[first.len() + k] == Removal::Folder(trees[i].id));
    }
}

/// What comes later in a list without repetitions has not come before.
proof fn lemma_not_before(before: Seq<Removal>, later: Seq<Removal>, r: Removal)
    requires
        (before + later).no_duplicates(),
        later.contains(r),
    ensures
        !before.contains(r),
{
    let j = choose|j: int| 0 <= j < later.len() && later[j] == r;
    let all = before + later;
    if before.contains(r) {
        let i = choose|i: int| 0 <= i < before.len() && before[i] == r;
        assert(all[i] == all[before.len() + j]);
    }
}

/// A folder that is to be opened is removed with all that it holds, and the walk goes on as it
/// stood.
proof fn lemma_walk_tree(catalogue: Catalogue, run: DeleteRun, tree: FolderTree)
    requires
        catalogue.describes(tree),
        run.step == DeleteWalkStep::Open(tree.id),
        (run.removed + removals(tree)).no_duplicates(),
    ensures
        run.after(catalogue, walk_length(tree)) == DeleteRun::choosing(
            run.walk,
            run.removed + removals(tree),
            run.only_empty,
        ),
    decreases tree, 0nat,
{
    let all = removals(tree);
    let of_files = removals_of_files(tree.files);
    let of_folders = removals_of_all(tree.folders);
    assert forall|i: int| 0 <= i < tree.files.len() implies !run.removed.contains(
        Removal::File(#[trigger] file_ids(tree.files)[i]),
    ) by {
        assert(all[i] == Removal::File(tree.files[i].id));
        lemma_not_before(run.removed, all, all[i]);
    }
    assert forall|i: int| 0 <= i < tree.folders.len() implies !run.removed.contains(
        Removal::Folder(#[trigger] folder_ids(tree.folders)[i]),
    ) by {
        lemma_folder_removed(tree.folders, i);
        let r = Removal::Folder(tree.folders[i].id);
        let k = choose|k: int| 0 <= k < of_folders.len() && of_folders[k] == r;
        assert(all[of_files.len() + k] == r);
        lemma_not_before(run.removed, all, r);
    }
    lemma_filter_all(
        file_ids(tree.files),
        |id: i64| !run.removed.contains(Removal::File(id)),
    );
    lemma_filter_all(
        folder_ids(tree.folders),
        |id: i64| !run.removed.contains(Removal::Folder(id)),
    );
    let entered = run.walk.enter(
        DeleteFrameView {
            folder: tree.id,
            files: file_ids(tree.files),
            folders: folder_ids(tree.folders),
        },
    );
    reveal_with_fuel(DeleteRun::after, 2);
    assert(run.after(catalogue, 1) == DeleteRun::choosing(entered, run.removed, run.only_empty));
    assert(entered.leave() =~= run.walk);
    assert(run.removed + all =~= (run.removed + of_files + of_folders).push(
        Removal::Folder(tree.id),
    ));
    lemma_walk_rest(
        catalogue,
        entered,
        run.removed,
        run.only_empty,
        tree.files,
        tree.folders,
    );
    run.lemma_after_sum(
        catalogue,
        1,
        1 + tree.files.len() + walk_length_of_all(tree.folders),
    );
}

/// What is left in the innermost folder is removed, then the folder itself.
proof fn lemma_walk_rest(
    catalogue: Catalogue,
    walk: DeleteWalkView,
    removed: Seq<Removal>,
    only_empty: bool,
    files: Seq<FileNode>,
    folders: Seq<FolderTree>,
)
    requires
        walk.frames.len() > 0,
        walk.frames.last().files == file_ids(files),
        walk.frames.last().folders == folder_ids(folders),
        catalogue.describes_all(folders),
        (removed + removals_of_files(files) + removals_of_all(folders)).push(
            Removal::Folder(walk.frames.last().folder),
        ).no_duplicates(),
        files_accounted(
            (catalogue.files)(walk.frames.last().folder),
            removed,
            file_ids(files),
        ),
        folders_accounted(
            (catalogue.folders)(walk.frames.last().folder),
            removed,
            folder_ids(folders),
        ),
    ensures
        DeleteRun::choosing(walk, removed, only_empty).after(
            catalogue,
            1 + files.len() + walk_length_of_all(folders),
        ) == DeleteRun::choosing(
            walk.leave(),
            (removed + removals_of_files(files) + removals_of_all(folders)).push(
                Removal::Folder(walk.frames.last().folder),
            ),
            only_empty,
        ),
    decreases folders, 1 + files.len(),
{
    let top = walk.frames.last();
    let id = top.folder;
    let run = DeleteRun::choosing(walk, removed, only_empty);
    let all = (removed + removals_of_files(files) + removals_of_all(folders)).push(
        Removal::Folder(id),
    );
    let steps = 1 + files.len() + walk_length_of_all(folders);
    if files.len() > 0 {
        let next = walk.with_top(DeleteFrameView { files: top.files.drop_first(), ..top });
        let rest = files.drop_first();
        let more = removed.push(Removal::File(files[0].id));
        assert(next.frames.last().files =~= file_ids(rest));
        reveal_with_fuel(DeleteRun::after, 2);
        assert(run.after(catalogue, 1) == DeleteRun::choosing(next, more, only_empty));
        assert(more + removals_of_files(rest) =~= removed + removals_of_files(files));
        assert(next.leave() =~= walk.leave());
        assert(more.last() == Removal::File(files[0].id));
        assert forall|r: Removal| removed.contains(r) implies more.contains(r) by {
            let k = choose|k: int| 0 <= k < removed.len() && removed[k] == r;
            assert(more[k] == r);
        }
        assert forall|x: i64| #[trigger] file_ids(files).contains(x) implies more.contains(
            Removal::File(x),
        ) || file_ids(rest).contains(x) by {
            let k = choose|k: int| 0 <= k < files.len() && file_ids(files)[k] == x;
            if k > 0 {
                assert(file_ids(rest)[k - 1] == x);
            } else {
                assert(more[removed.len() as int] == Removal::File(x));
            }
        }
        lemma_walk_rest(catalogue, next, more, only_empty, rest, folders);
        run.lemma_after_sum(catalogue, 1, (steps - 1) as nat);
    } else if folders.len() > 0 {
        let tree = folders[0];
        let rest = folders.drop_first();
        let next = walk.with_top(DeleteFrameView { folders: top.folders.drop_first(), ..top });
        assert(next.frames.last().folders =~= folder_ids(rest));
        assert(catalogue.describes(tree));
        assert(run.walk == next && run.step == DeleteWalkStep::Open(tree.id));
        let more = removed + removals(tree);
        assert(more.no_duplicates()) by {
            assert(all.take(more.len() as int) =~= more);
        }
        lemma_walk_tree(catalogue, run, tree);
        assert(more + removals_of_files(files) + removals_of_all(rest) =~= removed
            + removals_of_files(files) + removals_of_all(folders));
        assert(next.leave() =~= walk.leave());
        assert forall|r: Removal| removed.contains(r) implies more.contains(r) by {
            let k = choose|k: int| 0 <= k < removed.len() && removed[k] == r;
            assert(more[k] == r);
        }
        assert forall|x: i64| #[trigger] folder_ids(folders).contains(x) implies more.contains(
            Removal::Folder(x),
        ) || folder_ids(rest).contains(x) by {
            let k = choose|k: int| 0 <= k < folders.len() && folder_ids(folders)[k] == x;
            if k > 0 {
                assert(folder_ids(rest)[k - 1] == x);
            } else {
                assert(more.last() == Removal::Folder(x));
                assert(more[more.len() - 1] == Removal::Folder(x));
            }
        }
        lemma_walk_rest(catalogue, next, more, only_empty, files, rest);
        run.lemma_after_sum(catalogue, walk_length(tree), 1 + walk_length_of_all(rest));
    } else {
        assert(removed + removals_of_files(files) + removals_of_all(folders) =~= removed);
        lemma_filter_none(
            (catalogue.files)(id),
            |x: i64| !removed.contains(Removal::File(x)),
        );
        lemma_filter_none(
            (catalogue.folders)(id),
            |x: i64| !removed.contains(Removal::Folder(x)),
        );
        reveal_with_fuel(DeleteRun::after, 2);
    }
}

/// A walk ends. It removes each file and each folder below the folder once, and the folder itself
/// last; and each folder, when it is removed, holds nothing any more.
pub proof fn law_delete_walk(catalogue: Catalogue, tree: FolderTree)
    requires
        catalogue.describes(tree),
        removals(tree).no_duplicates(),
    ensures
        ({
            let start = DeleteRun {
                walk: DeleteWalkView { frames: Seq::empty() },
                step: DeleteWalkStep::Open(tree.id),
                removed: Seq::empty(),
                only_empty: true,
            };
            let end = start.after(catalogue, walk_length(tree));
            &&& end.step == DeleteWalkStep::Done
            &&& end.removed == removals(tree)
            &&& end.only_empty
        }),
{
    let start = DeleteRun {
        walk: DeleteWalkView { frames: Seq::empty() },
        step: DeleteWalkStep::Open(tree.id),
        removed: Seq::empty(),
        only_empty: true,
    };
    assert(start.removed + removals(tree) =~= removals(tree));
    lemma_walk_tree(catalogue, start, tree);
}

/// All that is removed of folders, one after the other.
proof fn lemma_removals_flat(trees: Seq<FolderTree>)
    ensures
        removals_of_all(trees) == trees.flat_map(|t: FolderTree| removals(t)),
    decreases trees.len(),
{
    let removed = |t: FolderTree| removals(t);
    if trees.len() > 0 {
        let rest = trees.drop_first();
        lemma_removals_flat(rest);
        assert(trees.map_values(removed).drop_first() =~= rest.map_values(removed));
    }
}

/// Of a folder, each of its files is removed, then each folder in it with all that it holds, and the
/// folder itself comes last.
pub proof fn law_removals_of_a_folder(tree: FolderTree)
    ensures
        removals(tree) == tree.files.map_values(|f: FileNode| Removal::File(f.id))
            + tree.folders.flat_map(|t: FolderTree| removals(t)) + seq![Removal::Folder(tree.id)],
{
    lemma_removals_flat(tree.folders);
    let held = tree.files.map_values(|f: FileNode| Removal::File(f.id)) + tree.folders.flat_map(
        |t: FolderTree| removals(t),
    );
    assert(held.push(Removal::Folder(tree.id)) =~= held + seq![Removal::Folder(tree.id)]);
}

/// A folder is removed only when nothing is left in it: what it holds is taken in its order, files
/// before folders, and then the folder itself, after which the walk is in the folder around it.
pub proof fn law_delete_goes_through_a_folder(walk: DeleteWalkView, frame: DeleteFrameView)
    ensures
        ({
            let entered = walk.enter(frame);
            let file_taken = DeleteFrameView { files: frame.files.drop_first(), ..frame };
            let folder_taken = DeleteFrameView { folders: frame.folders.drop_first(), ..frame };
            &&& frame.files.len() > 0 ==> {
                &&& entered.choice() == DeleteWalkStep::DeleteFile(frame.files[0])
                &&& entered.moved() == walk.enter(file_taken)
            }
            &&& frame.files.len() == 0 && frame.folders.len() > 0 ==> {
                &&& entered.choice() == DeleteWalkStep::Open(frame.folders[0])
                &&& entered.moved() == walk.enter(folder_taken)
            }
            &&& frame.files.len() == 0 && frame.folders.len() == 0 ==> {
                &&& entered.choice() == DeleteWalkStep::DeleteFolder(frame.folder)
                &&& entered.moved() == walk
            }
        }),
        walk.frames.len() == 0 ==> walk.choice() == DeleteWalkStep::Done,
{
    let entered = walk.enter(frame);
    assert(entered.frames.drop_last() =~= walk.frames);
    assert(entered.leave() =~= walk);
}

}
