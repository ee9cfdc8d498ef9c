//! The size of all the files below a folder of the catalogue.

use vstd::prelude::*;

use super::tree::{file_ids, file_sizes, folder_ids, Catalogue, FileNode, FolderTree};

verus! {

/// What is to be done next to find a size.
pub enum SizeStep {
    /// Look up the sizes of the files, and the folders, in this folder.
    Open(SizeWalk, i64),
    /// This is the size.
    Done(i64),
    /// A sum does not fit its type.
    Overflow,
}

/// A `SizeStep` as mathematical values.
pub enum SizeStepView {
    Open(SizeWalkView, i64),
    Done(i64),
    Overflow,
}

/// A folder that the walk is in: what was found in it so far, and the folders left in it.
struct Frame {
    total: i64,
    folders: Vec<i64>,
}

/// A folder that a walk is in, as mathematical values.
#[verifier::ext_equal]
pub struct SizeFrameView {
    pub total: i64,
    pub folders: Seq<i64>,
}

impl View for Frame {
    type V = SizeFrameView;

    closed spec fn view(&self) -> SizeFrameView {
        SizeFrameView { total: self.total, folders: self.folders@ }
    }
}

/// A walk as mathematical values: the folders it is in, the innermost last.
#[verifier::ext_equal]
pub struct SizeWalkView {
    pub frames: Seq<SizeFrameView>,
}

/// A walk through a folder whose size is asked for.
pub struct SizeWalk {
    frames: Vec<Frame>,
}

/// The views of the folders that a walk is in.
spec fn frame_views(frames: Seq<Frame>) -> Seq<SizeFrameView> {
    frames.map_values(|f: Frame| f@)
}

impl View for SizeWalk {
    type V = SizeWalkView;

    closed spec fn view(&self) -> SizeWalkView {
        SizeWalkView { frames: frame_views(self.frames@) }
    }
}

impl View for SizeStep {
    type V = SizeStepView;

    open spec fn view(&self) -> SizeStepView {
        match self {
            SizeStep::Open(walk, id) => SizeStepView::Open(walk@, *id),
            SizeStep::Done(total) => SizeStepView::Done(*total),
            SizeStep::Overflow => SizeStepView::Overflow,
        }
    }
}

/// The number fits its type.
pub open spec fn fits(n: int) -> bool {
    i64::MIN <= n <= i64::MAX
}

/// Sizes added one after the other; none where a sum on the way does not fit.
pub open spec fn summed(total: int, sizes: Seq<i64>) -> Option<int>
    decreases sizes.len(),
{
    if sizes.len() == 0 {
        Some(total)
    } else if fits(total + sizes[0]) {
        summed(total + sizes[0], sizes.drop_first())
    } else {
        None
    }
}

impl SizeWalkView {
    /// The walk without its innermost folder.
    pub open spec fn leave(self) -> SizeWalkView {
        SizeWalkView { frames: self.frames.drop_last() }
    }

    /// The walk with its innermost folder replaced.
    pub open spec fn with_top(self, top: SizeFrameView) -> SizeWalkView {
        SizeWalkView { frames: self.frames.drop_last().push(top) }
    }

    /// What comes next: a folder left in the innermost one is opened. Where none is left, its size
    /// is added to the folder around it, and is the answer where there is none around it.
    pub open spec fn next(self) -> SizeStepView
        decreases self.frames.len(), 0nat,
    {
        if self.frames.len() == 0 {
            SizeStepView::Done(0)
        } else {
            let top = self.frames.last();
            if top.folders.len() > 0 {
                SizeStepView::Open(
                    self.with_top(SizeFrameView { folders: top.folders.drop_first(), ..top }),
                    top.folders[0],
                )
            } else if self.frames.len() == 1 {
                SizeStepView::Done(top.total)
            } else {
                self.leave().add_to_top(top.total)
            }
        }
    }

    /// What comes next once the size of a folder in the innermost one is known.
    pub open spec fn add_to_top(self, total: i64) -> SizeStepView
        decreases self.frames.len(), 1nat,
        when self.frames.len() > 0
    {
        let top = self.frames.last();
        if fits(top.total + total) {
            self.with_top(
                SizeFrameView { total: (top.total + total) as i64, ..top },
            ).next()
        } else {
            SizeStepView::Overflow
        }
    }

    /// What comes after a folder was looked up.
    pub open spec fn opened(self, sizes: Seq<i64>, folders: Seq<i64>) -> SizeStepView {
        match summed(0, sizes) {
            Some(total) => SizeWalkView {
                frames: self.frames.push(SizeFrameView { total: total as i64, folders }),
            }.next(),
            None => SizeStepView::Overflow,
        }
    }
}

/// Adds sizes one after the other.
fn add_sizes(sizes: &Vec<i64>) -> (total: Option<i64>)
    ensures
        match summed(0, sizes@) {
            Some(n) => total == Some(n as i64) && fits(n),
            None => total is None,
        },
{
    let mut total: i64 = 0;
    let mut i: usize = 0;
    assert(sizes@.skip(0) =~= sizes@);
    while i < sizes.len()
        invariant
            0 <= i <= sizes@.len(),
            summed(0, sizes@) == summed(total as int, sizes@.skip(i as int)),
        decreases sizes@.len() - i,
    {
        assert(sizes@.skip(i as int).drop_first() =~= sizes@.skip(i + 1));
        match total.checked_add(sizes[i]) {
            Some(sum) => {
                total = sum;
            },
            None => {
                return None;
            },
        }
        i = i + 1;
    }
    Some(total)
}

impl SizeWalk {
    /// Starts from a folder.
    pub fn start(folder_id: i64) -> (step: SizeStep)
        ensures
            step@ == SizeStepView::Open(SizeWalkView { frames: Seq::empty() }, folder_id),
    {
        let walk: SizeWalk = SizeWalk { frames: Vec::new() };
        assert(walk@.frames =~= Seq::empty());
        SizeStep::Open(walk, folder_id)
    }

    /// Takes in the sizes of the files, and the folders, in the folder that was looked up.
    pub fn opened(self, sizes: Vec<i64>, folders: Vec<i64>) -> (step: SizeStep)
        ensures
            step@ == self@.opened(sizes@, folders@),
    {
        let total: i64 = match add_sizes(&sizes) {
            Some(total) => total,
            None => {
                return SizeStep::Overflow;
            },
        };
        let mut walk: SizeWalk = self;
        let mut top: Frame = Frame { total, folders };
        assert(self@.frames.push(top@) =~= frame_views(walk.frames@).push(top@));
        loop
            invariant
                (SizeWalkView { frames: walk@.frames.push(top@) }).next() == self@.opened(
                    sizes@,
                    folders@,
                ),
            decreases walk.frames@.len(),
        {
            let ghost current = SizeWalkView { frames: walk@.frames.push(top@) };
            assert(current.leave() =~= walk@);
            if top.folders.len() > 0 {
                let id: i64 = top.folders.remove(0);
                assert(top.folders@ =~= current.frames.last().folders.drop_first());
                walk.frames.push(top);
                assert(walk@ =~= current.with_top(top@));
                return SizeStep::Open(walk, id);
            }
            let ghost below = walk@;
            match walk.frames.pop() {
                None => {
                    return SizeStep::Done(top.total);
                },
                Some(parent) => {
                    assert(below.frames.last() == parent@);
                    assert(walk@ =~= below.leave());
                    match parent.total.checked_add(top.total) {
                        Some(total) => {
                            top = Frame { total, folders: parent.folders };
                            assert(below.with_top(top@) =~= SizeWalkView {
                                frames: walk@.frames.push(top@),
                            });
                        },
                        None => {
                            return SizeStep::Overflow;
                        },
                    }
                },
            }
        }
    }
}

/// The size of all the files below a folder.
pub open spec fn size_below(tree: FolderTree) -> int
    decreases tree,
{
    size_of_files(tree.files) + size_below_all(tree.folders)
}

/// The size of files.
pub open spec fn size_of_files(files: Seq<FileNode>) -> int
    decreases files.len(),
{
    if files.len() == 0 {
        0
    } else {
        files[0].size + size_of_files(files.drop_first())
    }
}

/// The size of all the files below some folders.
pub open spec fn size_below_all(trees: Seq<FolderTree>) -> int
    decreases trees,
{
    if trees.len() == 0 {
        0
    } else {
        size_below(trees[0]) + size_below_all(trees.drop_first())
    }
}

/// No file below a folder has a negative size.
pub open spec fn sizes_sound(tree: FolderTree) -> bool
    decreases tree,
{
    &&& forall|i: int| 0 <= i < tree.files.len() ==> (#[trigger] tree.files[i]).size >= 0
    &&& sizes_sound_all(tree.folders)
}

/// No file below some folders has a negative size.
pub open spec fn sizes_sound_all(trees: Seq<FolderTree>) -> bool
    decreases trees,
{
    trees.len() == 0 || {
        &&& sizes_sound(trees[0])
        &&& sizes_sound_all(trees.drop_first())
    }
}

/// The size of a folder as it is added up: its files one after the other, then each folder in it.
/// None where a sum on the way does not fit.
pub open spec fn added_up(tree: FolderTree) -> Option<int>
    decreases tree,
{
    match summed(0, file_sizes(tree.files)) {
        Some(own) => added_up_all(own, tree.folders),
        None => None,
    }
}

/// A size with those of some folders added one after the other.
pub open spec fn added_up_all(total: int, trees: Seq<FolderTree>) -> Option<int>
    decreases trees,
{
    if trees.len() == 0 {
        Some(total)
    } else {
        match added_up(trees[0]) {
            Some(size) => if fits(total + size) {
                added_up_all(total + size, trees.drop_first())
            } else {
                None
            },
            None => None,
        }
    }
}

/// The step `n` lookups on.
pub open spec fn measured(catalogue: Catalogue, step: SizeStepView, n: nat) -> SizeStepView
    decreases n,
{
    match step {
        SizeStepView::Open(walk, id) if n > 0 => measured(
            catalogue,
            walk.opened(catalogue.sizes(id), (catalogue.folders)(id)),
            (n - 1) as nat,
        ),
        _ => step,
    }
}

/// How many folders there are from a folder down.
pub open spec fn folder_count(tree: FolderTree) -> nat
    decreases tree,
{
    1 + folder_count_of_all(tree.folders)
}

/// How many folders there are from some folders down.
pub open spec fn folder_count_of_all(trees: Seq<FolderTree>) -> nat
    decreases trees,
{
    if trees.len() == 0 {
        0
    } else {
        folder_count(trees[0]) + folder_count_of_all(trees.drop_first())
    }
}

/// Two stretches of lookups make one.
proof fn lemma_measured_sum(catalogue: Catalogue, step: SizeStepView, m: nat, n: nat)
    ensures
        measured(catalogue, measured(catalogue, step, m), n) == measured(catalogue, step, m + n),
    decreases m,
{
    match step {
        SizeStepView::Open(walk, id) if m > 0 => {
            lemma_measured_sum(
                catalogue,
                walk.opened(catalogue.sizes(id), (catalogue.folders)(id)),
                (m - 1) as nat,
                n,
            );
        },
        _ => {},
    }
}

/// What sums up fits, and is the sum.
proof fn lemma_summed_is_sum(total: int, files: Seq<FileNode>)
    requires
        fits(total),
    ensures
        summed(total, file_sizes(files)) matches Some(sum) ==> {
            &&& fits(sum)
            &&& sum == total + size_of_files(files)
        },
    decreases files.len(),
{
    if files.len() > 0 && fits(total + files[0].size) {
        assert(file_sizes(files).drop_first() =~= file_sizes(files.drop_first()));
        lemma_summed_is_sum(total + files[0].size, files.drop_first());
    }
}

/// What is added up for a folder fits, and is the size of all the files below it.
proof fn lemma_added_up(tree: FolderTree)
    ensures
        added_up(tree) matches Some(size) ==> fits(size) && size == size_below(tree),
    decreases tree, 0nat,
{
    lemma_summed_is_sum(0, tree.files);
    match summed(0, file_sizes(tree.files)) {
        Some(own) => {
            lemma_added_up_all(own, tree.folders);
        },
        None => {},
    }
}

/// What is added up for some folders fits, and is the size of all the files below them.
proof fn lemma_added_up_all(total: int, trees: Seq<FolderTree>)
    requires
        fits(total),
    ensures
        added_up_all(total, trees) matches Some(size) ==> {
            &&& fits(size)
            &&& size == total + size_below_all(trees)
        },
    decreases trees, 1nat,
{
    if trees.len() > 0 {
        lemma_added_up(trees[0]);
        match added_up(trees[0]) {
            Some(size) => {
                if fits(total + size) {
                    lemma_added_up_all(total + size, trees.drop_first());
                }
            },
            None => {},
        }
    }
}

/// Where no size is negative and all together fit, every sum on the way fits.
proof fn lemma_sound_adds_up(tree: FolderTree)
    requires
        sizes_sound(tree),
        fits(size_below(tree)),
    ensures
        added_up(tree) == Some(size_below(tree)),
        size_below(tree) >= 0,
    decreases tree, 0nat,
{
    lemma_sizes_sound(tree);
    lemma_summed(0, tree.files);
    lemma_sound_adds_up_all(size_of_files(tree.files), tree.folders);
}

/// Where no size is negative and all together fit, every sum on the way fits.
proof fn lemma_sound_adds_up_all(total: int, trees: Seq<FolderTree>)
    requires
        total >= 0,
        sizes_sound_all(trees),
        fits(total + size_below_all(trees)),
    ensures
        added_up_all(total, trees) == Some(total + size_below_all(trees)),
    decreases trees, 1nat,
{
    if trees.len() > 0 {
        lemma_sizes_sound(trees[0]);
        lemma_sizes_sound_all(trees.drop_first());
        lemma_sound_adds_up(trees[0]);
        lemma_sound_adds_up_all(total + size_below(trees[0]), trees.drop_first());
    }
}

/// Sizes that are not negative have a sum that is not.
proof fn lemma_sizes_sound(tree: FolderTree)
    requires
        sizes_sound(tree),
    ensures
        size_below(tree) >= 0,
        size_of_files(tree.files) >= 0,
        size_below_all(tree.folders) >= 0,
    decreases tree,
{
    lemma_file_sizes_sound(tree.files);
    lemma_sizes_sound_all(tree.folders);
}

/// Sizes that are not negative have a sum that is not.
proof fn lemma_sizes_sound_all(trees: Seq<FolderTree>)
    requires
        sizes_sound_all(trees),
    ensures
        size_below_all(trees) >= 0,
    decreases trees,
{
    if trees.len() > 0 {
        lemma_sizes_sound(trees[0]);
        lemma_sizes_sound_all(trees.drop_first());
    }
}

/// Sizes that are not negative have a sum that is not.
proof fn lemma_file_sizes_sound(files: Seq<FileNode>)
    requires
        forall|i: int| 0 <= i < files.len() ==> (#[trigger] files[i]).size >= 0,
    ensures
        size_of_files(files) >= 0,
    decreases files.len(),
{
    if files.len() > 0 {
        lemma_file_sizes_sound(files.drop_first());
    }
}

/// Sizes that are not negative can be added one after the other where all of them together fit.
proof fn lemma_summed(total: int, files: Seq<FileNode>)
    requires
        total >= 0,
        forall|i: int| 0 <= i < files.len() ==> (#[trigger] files[i]).size >= 0,
        fits(total + size_of_files(files)),
    ensures
        summed(total, file_sizes(files)) == Some(total + size_of_files(files)),
    decreases files.len(),
{
    if files.len() > 0 {
        let rest = files.drop_first();
        lemma_file_sizes_sound(rest);
        assert(file_sizes(files).drop_first() =~= file_sizes(rest));
        lemma_summed(total + files[0].size, rest);
    }
}

/// What comes once the size of a folder is known, or is known not to fit.
spec fn size_known(walk: SizeWalkView, size: Option<int>) -> SizeStepView {
    match size {
        Some(total) => if walk.frames.len() == 0 {
            SizeStepView::Done(total as i64)
        } else {
            walk.add_to_top(total as i64)
        },
        None => SizeStepView::Overflow,
    }
}

/// A walk that has ended stays where it is.
proof fn lemma_measured_ended(catalogue: Catalogue, step: SizeStepView, n: nat)
    requires
        !(step is Open),
    ensures
        measured(catalogue, step, n) == step,
{
}

/// A folder in the innermost one is measured, and its size added there.
proof fn lemma_measure_tree(catalogue: Catalogue, walk: SizeWalkView, tree: FolderTree)
    requires
        catalogue.describes(tree),
    ensures
        measured(catalogue, SizeStepView::Open(walk, tree.id), folder_count(tree))
            == size_known(walk, added_up(tree)),
    decreases tree, 0nat,
{
    assert(catalogue.sizes(tree.id) =~= file_sizes(tree.files)) by {
        assert forall|i: int| 0 <= i < tree.files.len() implies catalogue.sizes(tree.id)[i]
            == file_sizes(tree.files)[i] by {
            assert(catalogue.has(tree.files[i]));
            assert(file_ids(tree.files)[i] == tree.files[i].id);
        }
    }
    lemma_summed_is_sum(0, tree.files);
    let opened = walk.opened(catalogue.sizes(tree.id), (catalogue.folders)(tree.id));
    match summed(0, file_sizes(tree.files)) {
        Some(own) => {
            let frame = SizeFrameView { total: own as i64, folders: folder_ids(tree.folders) };
            let entered = SizeWalkView { frames: walk.frames.push(frame) };
            assert(opened == entered.next());
            lemma_measure_rest(catalogue, entered, tree.folders);
            assert(entered.leave() =~= walk);
        },
        None => {
            lemma_measured_ended(catalogue, opened, folder_count_of_all(tree.folders));
        },
    }
}

/// The folders left in the innermost one are measured, and it is left.
proof fn lemma_measure_rest(catalogue: Catalogue, walk: SizeWalkView, trees: Seq<FolderTree>)
    requires
        walk.frames.len() > 0,
        walk.frames.last().folders == folder_ids(trees),
        catalogue.describes_all(trees),
    ensures
        measured(catalogue, walk.next(), folder_count_of_all(trees)) == size_known(
            walk.leave(),
            added_up_all(walk.frames.last().total as int, trees),
        ),
    decreases trees, 1nat,
{
    let top = walk.frames.last();
    if trees.len() > 0 {
        let tree = trees[0];
        let rest = trees.drop_first();
        let next = walk.with_top(SizeFrameView { folders: top.folders.drop_first(), ..top });
        assert(next.frames.last().folders =~= folder_ids(rest));
        assert(walk.next() == SizeStepView::Open(next, tree.id));
        lemma_measure_tree(catalogue, next, tree);
        lemma_added_up(tree);
        lemma_measured_sum(
            catalogue,
            walk.next(),
            folder_count(tree),
            folder_count_of_all(rest),
        );
        let known = size_known(next, added_up(tree));
        match added_up(tree) {
            Some(size) => {
                if fits(top.total + size) {
                    let later = next.with_top(
                        SizeFrameView {
                            total: (top.total + size) as i64,
                            folders: folder_ids(rest),
                        },
                    );
                    assert(known == later.next());
                    lemma_measure_rest(catalogue, later, rest);
                    assert(later.leave() =~= walk.leave());
                } else {
                    lemma_measured_ended(catalogue, known, folder_count_of_all(rest));
                }
            },
            None => {
                lemma_measured_ended(catalogue, known, folder_count_of_all(rest));
            },
        }
    } else if walk.frames.len() == 1 {
        assert(walk.leave().frames =~= Seq::empty());
    }
}

/// The walk ends, after at most one lookup for each folder, with what adds up for the folder, or
/// with an overflow where nothing does. What adds up is the sum of the sizes of all the files below
/// the folder.
pub proof fn law_size_walk(catalogue: Catalogue, tree: FolderTree)
    requires
        catalogue.describes(tree),
    ensures
        measured(
            catalogue,
            SizeStepView::Open(SizeWalkView { frames: Seq::empty() }, tree.id),
            folder_count(tree),
        ) == match added_up(tree) {
            Some(_) => SizeStepView::Done(size_below(tree) as i64),
            None => SizeStepView::Overflow,
        },
        added_up(tree) matches Some(size) ==> size == size_below(tree) && fits(size),
{
    lemma_measure_tree(catalogue, SizeWalkView { frames: Seq::empty() }, tree);
    lemma_added_up(tree);
}

/// Where no file has a negative size, a folder adds up exactly when the sum of all sizes fits.
pub proof fn law_sound_sizes_add_up(tree: FolderTree)
    requires
        sizes_sound(tree),
    ensures
        added_up(tree) is Some <==> fits(size_below(tree)),
{
    lemma_added_up(tree);
    if fits(size_below(tree)) {
        lemma_sound_adds_up(tree);
    }
}

/// Sizes of files added to a number one after the other.
proof fn lemma_files_fold(files: Seq<FileNode>, so_far: int)
    ensures
        files.fold_left_alt(so_far, |sum: int, f: FileNode| sum + f.size) == so_far + size_of_files(
            files,
        ),
    decreases files.len(),
{
    if files.len() > 0 {
        lemma_files_fold(files.drop_first(), so_far + files[0].size);
        assert(files.subrange(1, files.len() as int) =~= files.drop_first());
    }
}

/// Sizes of folders added to a number one after the other.
proof fn lemma_folders_fold(trees: Seq<FolderTree>, so_far: int)
    ensures
        trees.fold_left_alt(so_far, |sum: int, t: FolderTree| sum + size_below(t)) == so_far
            + size_below_all(trees),
    decreases trees.len(),
{
    if trees.len() > 0 {
        lemma_folders_fold(trees.drop_first(), so_far + size_below(trees[0]));
        assert(trees.subrange(1, trees.len() as int) =~= trees.drop_first());
    }
}

/// The size of a folder is the sum of the sizes of its files and of the folders in it.
pub proof fn law_size_of_a_folder(tree: FolderTree)
    ensures
        size_below(tree) == tree.files.fold_left(0int, |sum: int, f: FileNode| sum + f.size)
            + tree.folders.fold_left(0int, |sum: int, t: FolderTree| sum + size_below(t)),
{
    lemma_files_fold(tree.files, 0);
    lemma_folders_fold(tree.folders, 0);
    tree.files.lemma_fold_left_alt(0int, |sum: int, f: FileNode| sum + f.size);
    tree.folders.lemma_fold_left_alt(0int, |sum: int, t: FolderTree| sum + size_below(t));
}

/// Where no size is negative, the size of a folder is told exactly if 63 bits can count it, and it is
/// then the sum of the sizes of all the files below the folder.
pub proof fn law_size_is_told_where_it_fits(catalogue: Catalogue, tree: FolderTree)
    requires
        catalogue.describes(tree),
        sizes_sound(tree),
    ensures
        ({
            let told = measured(
                catalogue,
                SizeStepView::Open(SizeWalkView { frames: Seq::empty() }, tree.id),
                folder_count(tree),
            );
            &&& size_below(tree) <= 0x7fff_ffff_ffff_ffff ==> {
                &&& told matches SizeStepView::Done(size)
                &&& size == size_below(tree)
            }
            &&& size_below(tree) > 0x7fff_ffff_ffff_ffff ==> told is Overflow
        }),
{
    law_size_walk(catalogue, tree);
    law_sound_sizes_add_up(tree);
    lemma_sizes_sound(tree);
}

}
