//! Staleness: the newest modification time under a directory, and the
//! decision whether a post's output is up to date.

use vstd::prelude::*;

verus! {

/// An instant: whole seconds since the Unix epoch, and the nanoseconds past
/// that second.
#[derive(Clone, Copy, PartialEq, Eq, Structural, Debug)]
pub struct Timestamp {
    pub secs: i64,
    pub nanos: u32,
}

impl Timestamp {
    /// The Unix epoch.
    pub open spec fn spec_epoch() -> Timestamp {
        Timestamp { secs: 0, nanos: 0 }
    }

    /// The Unix epoch.
    #[verifier::when_used_as_spec(spec_epoch)]
    pub fn epoch() -> (t: Timestamp)
        ensures
            t == Timestamp::spec_epoch(),
    {
        Timestamp { secs: 0, nanos: 0 }
    }

    /// `self` is strictly later than `other`.
    pub open spec fn spec_is_after(&self, other: &Timestamp) -> bool {
        self.secs > other.secs || (self.secs == other.secs && self.nanos > other.nanos)
    }

    /// Whether `self` is strictly later than `other`.
    #[verifier::when_used_as_spec(spec_is_after)]
    pub fn is_after(&self, other: &Timestamp) -> (r: bool)
        ensures
            r == self.spec_is_after(other),
    {
        self.secs > other.secs || (self.secs == other.secs && self.nanos > other.nanos)
    }

    /// The later of `self` and `other`; `self` where they are equal.
    pub open spec fn later_of(self, other: Timestamp) -> Timestamp {
        if other.spec_is_after(&self) {
            other
        } else {
            self
        }
    }
}

/// What was found at a path: nothing, a file, or a directory with what was
/// found at each of its entries.
pub enum FileTree {
    /// The path does not exist.
    Missing,
    /// A file, with its modification time where the file system gave one.
    File(Option<Timestamp>),
    /// A directory and its entries.
    Directory(Vec<FileTree>),
}

/// The newest of the epoch and the modification times of all files in
/// `trees`.
pub open spec fn newest_among(trees: Seq<FileTree>) -> Timestamp
    decreases trees, 0nat,
{
    if trees.len() == 0 {
        Timestamp::spec_epoch()
    } else {
        newest_among(trees.drop_last()).later_of(trees.last().newest())
    }
}

impl FileTree {
    /// The newest of the epoch and the modification times of all files in
    /// the tree, at whatever depth. A directory adds no time of its own.
    pub open spec fn newest(&self) -> Timestamp
        decreases self, 1nat,
    {
        match self {
            FileTree::Missing => Timestamp::spec_epoch(),
            FileTree::File(None) => Timestamp::spec_epoch(),
            FileTree::File(Some(t)) => Timestamp::spec_epoch().later_of(*t),
            FileTree::Directory(entries) => newest_among(entries@),
        }
    }

    /// The tree holds a file whose modification time is `t`.
    pub open spec fn has_file_time(&self, t: Timestamp) -> bool
        decreases self,
    {
        match self {
            FileTree::Missing => false,
            FileTree::File(m) => *m == Some(t),
            FileTree::Directory(entries) => exists|i: int|
                0 <= i < entries@.len() && (#[trigger] entries@[i]).has_file_time(t),
        }
    }
}

/// The newest modification time under `tree`: the epoch where the path does
/// not exist or holds no file, else the latest modification time of any file
/// in it, at whatever depth. No result lies before the epoch.
pub fn newest_modification_time(tree: &FileTree) -> (r: Timestamp)
    ensures
        r == tree.newest(),
    decreases tree,
{
    match tree {
        FileTree::Missing => Timestamp::epoch(),
        FileTree::File(None) => Timestamp::epoch(),
        FileTree::File(Some(t)) => if t.is_after(&Timestamp::epoch()) {
            *t
        } else {
            Timestamp::epoch()
        },
        FileTree::Directory(entries) => {
            let mut best = Timestamp::epoch();
            let mut i: usize = 0;
            while i < entries.len()
                invariant
                    i <= entries@.len(),
                    best == newest_among(entries@.take(i as int)),
                    *tree == FileTree::Directory(*entries),
                decreases entries@.len() - i,
            {
                proof {
                    vstd::std_specs::vec::axiom_vec_index_decreases(*entries, i as int);
                    assert(decreases_to!(*tree => tree->Directory_0));
                }
                let t = newest_modification_time(&entries[i]);
                proof {
                    assert(entries@.take(i + 1).drop_last() =~= entries@.take(i as int));
                }
                if t.is_after(&best) {
                    best = t;
                }
                i += 1;
            }
            proof {
                assert(entries@.take(entries@.len() as int) =~= entries@);
            }
            best
        },
    }
}

proof fn lemma_among_bounds(trees: Seq<FileTree>, i: int)
    requires
        0 <= i < trees.len(),
    ensures
        !trees[i].newest().spec_is_after(&newest_among(trees)),
    decreases trees.len(),
{
    if i < trees.len() - 1 {
        lemma_among_bounds(trees.drop_last(), i);
    }
}

proof fn lemma_among_attained(trees: Seq<FileTree>)
    ensures
        newest_among(trees) == Timestamp::spec_epoch() || exists|i: int|
            0 <= i < trees.len() && (#[trigger] trees[i]).newest() == newest_among(trees),
    decreases trees.len(),
{
    if trees.len() > 0 {
        let rest = trees.drop_last();
        lemma_among_attained(rest);
        if newest_among(trees) == trees.last().newest() {
            assert(trees[trees.len() - 1].newest() == newest_among(trees));
        } else if newest_among(trees) != Timestamp::spec_epoch() {
            let i = choose|i: int|
                0 <= i < rest.len() && (#[trigger] rest[i]).newest() == newest_among(rest);
            assert(trees[i].newest() == newest_among(trees));
        }
    }
}

/// No file in the tree was modified later than the tree's newest time.
pub proof fn lemma_newest_is_upper_bound(tree: FileTree, t: Timestamp)
    requires
        tree.has_file_time(t),
    ensures
        !t.spec_is_after(&tree.newest()),
    decreases tree,
{
    match tree {
        FileTree::Directory(entries) => {
            let i = choose|i: int|
                0 <= i < entries@.len() && (#[trigger] entries@[i]).has_file_time(t);
            vstd::std_specs::vec::axiom_vec_index_decreases(entries, i);
            lemma_newest_is_upper_bound(entries@[i], t);
            lemma_among_bounds(entries@, i);
        },
        _ => {},
    }
}

/// The tree's newest time is the epoch or the modification time of one of
/// its files, and it never lies before the epoch.
pub proof fn lemma_newest_is_attained(tree: FileTree)
    ensures
        tree.newest() == Timestamp::spec_epoch() || tree.has_file_time(tree.newest()),
        !Timestamp::spec_epoch().spec_is_after(&tree.newest()),
    decreases tree,
{
    match tree {
        FileTree::Directory(entries) => {
            lemma_among_attained(entries@);
            if tree.newest() != Timestamp::spec_epoch() {
                let i = choose|i: int|
                    0 <= i < entries@.len() && (#[trigger] entries@[i]).newest() == newest_among(
                        entries@,
                    );
                vstd::std_specs::vec::axiom_vec_index_decreases(entries, i);
                lemma_newest_is_attained(entries@[i]);
                assert(entries@[i].has_file_time(tree.newest()));
            }
        },
        _ => {},
    }
}

/// A path that does not exist, and a tree without a file whose time is
/// known, have the epoch as their newest time.
pub proof fn lemma_newest_of_empty(tree: FileTree)
    requires
        forall|t: Timestamp| !tree.has_file_time(t),
    ensures
        tree.newest() == Timestamp::spec_epoch(),
{
    lemma_newest_is_attained(tree);
}

/// Whether a post whose source's newest time is `source` and whose output's
/// newest time is `output` needs no rebuild: the output must be strictly
/// newer. Equal times mean stale.
pub fn is_up_to_date(source: Timestamp, output: Timestamp) -> (r: bool)
    ensures
        r == output.spec_is_after(&source),
{
    output.is_after(&source)
}

} // verus!
