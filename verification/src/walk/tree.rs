//! The tree of folders that a catalogue describes.

use vstd::prelude::*;

verus! {

/// A file of the catalogue.
pub struct FileNode {
    pub id: i64,
    pub name: Seq<char>,
    pub size: i64,
}

/// A folder of the catalogue with all that it holds.
pub struct FolderTree {
    pub id: i64,
    pub name: Seq<char>,
    pub files: Seq<FileNode>,
    pub folders: Seq<FolderTree>,
}

/// What a catalogue answers: the files and the folders in a folder, the names of files and of
/// folders, and the sizes of files.
pub struct Catalogue {
    pub files: spec_fn(i64) -> Seq<i64>,
    pub folders: spec_fn(i64) -> Seq<i64>,
    pub file_names: Map<i64, Seq<char>>,
    pub folder_names: Map<i64, Seq<char>>,
    pub file_sizes: Map<i64, i64>,
}

/// The numbers of files.
pub open spec fn file_ids(files: Seq<FileNode>) -> Seq<i64> {
    files.map_values(|f: FileNode| f.id)
}

/// The sizes of files.
pub open spec fn file_sizes(files: Seq<FileNode>) -> Seq<i64> {
    files.map_values(|f: FileNode| f.size)
}

/// The numbers of folders.
pub open spec fn folder_ids(folders: Seq<FolderTree>) -> Seq<i64> {
    folders.map_values(|f: FolderTree| f.id)
}

impl Catalogue {
    /// The catalogue has the file under this name and of this size.
    pub open spec fn has(self, file: FileNode) -> bool {
        &&& self.file_names.contains_pair(file.id, file.name)
        &&& self.file_sizes.contains_pair(file.id, file.size)
    }

    /// The sizes of the files in a folder.
    pub open spec fn sizes(self, folder: i64) -> Seq<i64> {
        (self.files)(folder).map_values(|id: i64| self.file_sizes[id])
    }

    /// The catalogue answers as the tree says, all the way down.
    pub open spec fn describes(self, tree: FolderTree) -> bool
        decreases tree,
    {
        &&& (self.files)(tree.id) == file_ids(tree.files)
        &&& (self.folders)(tree.id) == folder_ids(tree.folders)
        &&& self.folder_names.contains_pair(tree.id, tree.name)
        &&& forall|i: int| 0 <= i < tree.files.len() ==> self.has(#[trigger] tree.files[i])
        &&& self.describes_all(tree.folders)
    }

    /// The catalogue answers as each of the trees says.
    pub open spec fn describes_all(self, trees: Seq<FolderTree>) -> bool
        decreases trees,
    {
        trees.len() == 0 || {
            &&& self.describes(trees[0])
            &&& self.describes_all(trees.drop_first())
        }
    }
}

}
