//! The path to a folder of the catalogue.

use vstd::prelude::*;

use crate::text::{join, joined, texts};

verus! {

/// What is to be done next to find a path.
pub enum PathStep {
    /// Look up this folder.
    Find(PathWalk, i64),
    /// This is the path.
    Done(String),
}

/// A `PathStep` as mathematical values.
pub enum PathStepView {
    Find(PathWalkView, i64),
    Done(Seq<char>),
}

/// A way up as mathematical values: the names of the folders passed, the lowest first.
#[verifier::ext_equal]
pub struct PathWalkView {
    pub names: Seq<Seq<char>>,
}

/// The way up from a folder.
pub struct PathWalk {
    names: Vec<String>,
}

impl View for PathWalk {
    type V = PathWalkView;

    closed spec fn view(&self) -> PathWalkView {
        PathWalkView { names: texts(self.names@) }
    }
}

impl View for PathStep {
    type V = PathStepView;

    open spec fn view(&self) -> PathStepView {
        match self {
            PathStep::Find(walk, id) => PathStepView::Find(walk@, *id),
            PathStep::Done(path) => PathStepView::Done(path@),
        }
    }
}

/// The view of a folder's parent and name.
pub open spec fn folder_row(row: Option<(Option<i64>, String)>) -> Option<
    (Option<i64>, Seq<char>),
> {
    match row {
        Some((parent, name)) => Some((parent, name@)),
        None => None,
    }
}

impl PathWalkView {
    /// The path down to where the way up began.
    pub open spec fn path(self) -> Seq<char> {
        joined(self.names.reverse(), "/"@)
    }

    /// What comes after a folder was looked up: its parent, if it has one. A folder that is not in
    /// the catalogue ends the way up.
    pub open spec fn found(self, row: Option<(Option<i64>, Seq<char>)>) -> PathStepView {
        match row {
            Some((parent, name)) => {
                let next = PathWalkView { names: self.names.push(name) };
                match parent {
                    Some(id) => PathStepView::Find(next, id),
                    None => PathStepView::Done(next.path()),
                }
            },
            None => PathStepView::Done(self.path()),
        }
    }
}

impl PathWalk {
    /// Starts from a folder.
    pub fn start(folder_id: i64) -> (step: PathStep)
        ensures
            step@ == PathStepView::Find(PathWalkView { names: Seq::empty() }, folder_id),
    {
        let walk: PathWalk = PathWalk { names: Vec::new() };
        assert(walk@.names =~= Seq::empty());
        PathStep::Find(walk, folder_id)
    }

    /// The path down to where the way up began.
    fn path(self) -> (text: String)
        ensures
            text@ == self@.path(),
    {
        let ghost given = texts(self.names@);
        let mut rest: Vec<String> = self.names;
        let mut names: Vec<String> = Vec::new();
        while rest.len() > 0
            invariant
                rest@.len() + names@.len() == given.len(),
                texts(rest@) == given.take(rest@.len() as int),
                texts(names@) == given.skip(rest@.len() as int).reverse(),
            decreases rest@.len(),
        {
            let ghost left = rest@;
            let ghost done = names@;
            let top: Option<String> = rest.pop();
            match top {
                Some(name) => {
                    assert(name@ == texts(left).last());
                    names.push(name);
                    assert(texts(rest@) =~= given.take(rest@.len() as int));
                    proof {
                        let k = rest@.len() as int;
                        assert(texts(left)[k] == given.take(k + 1)[k]);
                        assert(texts(names@) =~= texts(done).push(given[k]));
                        assert(given.skip(k).reverse() =~= given.skip(k + 1).reverse().push(
                            given[k],
                        ));
                    }
                },
                None => {},
            }
        }
        assert(given.skip(0) =~= given);
        join(&names, "/")
    }

    /// Takes in the parent and the name of the folder that was looked up.
    pub fn found(self, row: Option<(Option<i64>, String)>) -> (step: PathStep)
        ensures
            step@ == self@.found(folder_row(row)),
    {
        match row {
            Some((parent, name)) => {
                let mut next: PathWalk = self;
                next.names.push(name);
                assert(next@.names =~= self@.names.push(name@));
                match parent {
                    Some(id) => PathStep::Find(next, id),
                    None => PathStep::Done(next.path()),
                }
            },
            None => PathStep::Done(self.path()),
        }
    }
}

/// A folder of the catalogue on the way down from the root.
pub struct PathNode {
    pub id: i64,
    pub name: Seq<char>,
}

/// The names on a way.
pub open spec fn node_names(chain: Seq<PathNode>) -> Seq<Seq<char>> {
    chain.map_values(|n: PathNode| n.name)
}

/// The catalogue has each folder of the chain, with the one before it as its parent. The first has
/// no parent, or one that the catalogue does not have.
pub open spec fn links(
    rows: Map<i64, (Option<i64>, Seq<char>)>,
    chain: Seq<PathNode>,
) -> bool {
    forall|i: int|
        0 <= i < chain.len() ==> {
            let id = (#[trigger] chain[i]).id;
            &&& rows.contains_key(id)
            &&& rows[id].1 == chain[i].name
            &&& if i == 0 {
                rows[id].0 matches Some(parent) ==> !rows.contains_key(parent)
            } else {
                rows[id].0 == Some(chain[i - 1].id)
            }
        }
}

/// What a catalogue answers for a folder.
pub open spec fn answer(rows: Map<i64, (Option<i64>, Seq<char>)>, id: i64) -> Option<
    (Option<i64>, Seq<char>),
> {
    if rows.contains_key(id) {
        Some(rows[id])
    } else {
        None
    }
}

/// The step `n` lookups on.
pub open spec fn climbed(
    rows: Map<i64, (Option<i64>, Seq<char>)>,
    step: PathStepView,
    n: nat,
) -> PathStepView
    decreases n,
{
    match step {
        PathStepView::Find(walk, id) if n > 0 => climbed(
            rows,
            walk.found(answer(rows, id)),
            (n - 1) as nat,
        ),
        _ => step,
    }
}

/// The rest of the way up.
proof fn lemma_climb(
    rows: Map<i64, (Option<i64>, Seq<char>)>,
    chain: Seq<PathNode>,
    walk: PathWalkView,
    left: nat,
)
    requires
        links(rows, chain),
        0 < left <= chain.len(),
        walk.names == node_names(chain).skip(left as int).reverse(),
    ensures
        climbed(rows, PathStepView::Find(walk, chain[left - 1].id), left + 1)
            == PathStepView::Done(joined(node_names(chain), "/"@)),
    decreases left,
{
    let node = chain[left - 1];
    let next = PathWalkView { names: walk.names.push(node.name) };
    assert(rows.contains_key(node.id));
    assert(next.names =~= node_names(chain).skip(left - 1).reverse());
    if left == 1 {
        assert(next.names.reverse() =~= node_names(chain));
        reveal_with_fuel(climbed, 3);
    } else {
        lemma_climb(rows, chain, next, (left - 1) as nat);
        assert(walk.found(answer(rows, node.id)) == PathStepView::Find(
            next,
            chain[left - 2].id,
        ));
    }
}

/// From a folder at the end of a chain, the lookups give the names on the chain, with slashes
/// between them. At most one lookup is made beyond the chain: for a parent that is not there.
pub proof fn law_path_of_chain(rows: Map<i64, (Option<i64>, Seq<char>)>, chain: Seq<PathNode>)
    requires
        chain.len() > 0,
        links(rows, chain),
    ensures
        climbed(
            rows,
            PathStepView::Find(PathWalkView { names: Seq::empty() }, chain.last().id),
            chain.len() + 1,
        ) == PathStepView::Done(joined(node_names(chain), "/"@)),
{
    let walk = PathWalkView { names: Seq::empty() };
    assert(walk.names =~= node_names(chain).skip(chain.len() as int).reverse());
    lemma_climb(rows, chain, walk, chain.len());
}

/// A folder that the catalogue does not have has an empty path; and one without a parent has its own
/// name as its path.
pub proof fn law_path_of_one(id: i64, name: Seq<char>)
    ensures
        (PathWalkView { names: Seq::empty() }).found(None) == PathStepView::Done(Seq::empty()),
        (PathWalkView { names: Seq::empty() }).found(Some((None, name))) == PathStepView::Done(
            name,
        ),
        (PathWalkView { names: Seq::empty() }).found(Some((Some(id), name))) matches
            PathStepView::Find(_, parent) && parent == id,
{
    let none = Seq::<Seq<char>>::empty();
    assert(none.reverse() =~= none);
    assert(none.push(name).reverse() =~= seq![name]);
}

}
