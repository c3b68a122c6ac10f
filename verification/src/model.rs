//! The tree of nodes as a mathematical value.
//!
//! An arena is a sequence of nodes in which a node's inode number is its
//! index. Index 0 is a sentinel that stands for no node; index 1 is the
//! root directory. Creating a node appends it and binds its name in its
//! parent; nothing is ever removed or renumbered.

use crate::attr::{attributes_of, Attributes, FileKind};
use vstd::prelude::*;

verus! {

/// One node: its inode number, its name, its kind, and where the names of
/// its children lead.
pub struct NodeModel {
    pub ino: u64,
    pub name: Seq<char>,
    pub kind: FileKind,
    pub children: Map<Seq<char>, u64>,
}

/// One line of a directory listing.
pub struct Entry {
    pub ino: u64,
    pub name: Seq<char>,
    pub kind: FileKind,
}

/// A request to create a node `name` of kind `kind` under `parent`.
pub struct Creation {
    pub parent: u64,
    pub name: Seq<char>,
    pub kind: FileKind,
}

/// All nodes, by inode number.
pub struct ArenaModel {
    pub nodes: Seq<NodeModel>,
}

/// The listing line that a listed node stands for.
pub open spec fn entry_of(node: NodeModel) -> Entry {
    Entry { ino: node.ino, name: node.name, kind: node.kind }
}

/// The lines of a listing, as a set.
pub open spec fn listed(listing: Seq<NodeModel>) -> Set<Entry> {
    Set::new(
        |e: Entry| exists|i: int| 0 <= i < listing.len() && entry_of(#[trigger] listing[i]) == e,
    )
}

impl ArenaModel {
    /// The arena before anything was created: the sentinel and the root.
    pub open spec fn initial() -> ArenaModel {
        ArenaModel {
            nodes: seq![
                NodeModel {
                    ino: 0,
                    name: ""@,
                    kind: FileKind::Symlink,
                    children: Map::empty(),
                },
                NodeModel {
                    ino: 1,
                    name: "/"@,
                    kind: FileKind::Directory,
                    children: Map::empty(),
                },
            ],
        }
    }

    /// What holds of every arena: inode numbers are indices and fit in 64
    /// bits, the root is a directory, the sentinel has no children, and
    /// every child was created after its parent and exists.
    pub open spec fn wf(self) -> bool {
        &&& 2 <= self.nodes.len() <= u64::MAX
        &&& forall|i: int| 0 <= i < self.nodes.len() ==> (#[trigger] self.nodes[i]).ino == i
        &&& self.nodes[1].kind == FileKind::Directory
        &&& self.nodes[0].children == Map::<Seq<char>, u64>::empty()
        &&& forall|i: int|
            0 <= i < self.nodes.len() ==> (#[trigger] self.nodes[i]).children.dom().finite()
        &&& forall|i: int, name: Seq<char>|
            0 <= i < self.nodes.len() && #[trigger] self.nodes[i].children.dom().contains(name)
                ==> i < self.nodes[i].children[name] < self.nodes.len()
    }

    /// `ino` names a node: it is not the sentinel and it was created.
    pub open spec fn resolves(self, ino: u64) -> bool {
        1 <= ino < self.nodes.len()
    }

    /// The inode number that the next node will get.
    pub open spec fn next_ino(self) -> u64 {
        self.nodes.len() as u64
    }

    /// The node `ino`, if there is one.
    pub open spec fn get(self, ino: u64) -> Option<NodeModel> {
        if self.resolves(ino) {
            Some(self.nodes[ino as int])
        } else {
            None
        }
    }

    /// Where the names of the children of `parent` lead. A `parent` that
    /// names no node has no children.
    pub open spec fn table(self, parent: u64) -> Map<Seq<char>, u64> {
        if self.resolves(parent) {
            self.nodes[parent as int].children
        } else {
            Map::empty()
        }
    }

    /// The arena after a node `name` of kind `kind` was created under
    /// `parent`: the node is appended under the next inode number, and
    /// `name` leads to it from `parent`, whatever it led to before. Where
    /// `parent` names no node, nothing changes.
    pub open spec fn create(self, parent: u64, name: Seq<char>, kind: FileKind) -> ArenaModel {
        if self.resolves(parent) {
            let ino = self.next_ino();
            let dir = self.nodes[parent as int];
            let dir = NodeModel { children: dir.children.insert(name, ino), ..dir };
            let node = NodeModel { ino, name, kind, children: Map::empty() };
            ArenaModel { nodes: self.nodes.update(parent as int, dir).push(node) }
        } else {
            self
        }
    }

    /// Creating a node leaves the arena a valid tree, as long as the new
    /// inode number fits in 64 bits.
    pub proof fn lemma_create_wf(self, parent: u64, name: Seq<char>, kind: FileKind)
        requires
            self.wf(),
            self.nodes.len() < u64::MAX,
        ensures
            self.create(parent, name, kind).wf(),
    {
        if self.resolves(parent) {
            let after = self.create(parent, name, kind);
            assert forall|i: int| 0 <= i < after.nodes.len() implies (#[trigger] after.nodes[i]).ino
                == i by {
                if i < self.nodes.len() {
                    assert(self.nodes[i].ino == i);
                }
            }
            assert forall|i: int| 0 <= i < after.nodes.len() implies (#[trigger] after.nodes[i]).children.dom().finite() by {
                if i < self.nodes.len() {
                    assert(self.nodes[i].children.dom().finite());
                }
            }
            assert forall|i: int, n: Seq<char>|
                0 <= i < after.nodes.len() && #[trigger] after.nodes[i].children.dom().contains(
                    n,
                ) implies i < after.nodes[i].children[n] < after.nodes.len() by {
                if i == parent && n == name {
                } else {
                    assert(self.nodes[i].children.dom().contains(n));
                }
            }
        }
    }

    /// The arena after the creations `ops`, one after the other. A
    /// creation under a parent that names no node at its turn changes
    /// nothing.
    pub open spec fn create_all(self, ops: Seq<Creation>) -> ArenaModel
        decreases ops.len(),
    {
        if ops.len() == 0 {
            self
        } else {
            let last = ops.last();
            self.create_all(ops.drop_last()).create(last.parent, last.name, last.kind)
        }
    }

    /// The listing line of the `i`-th of the creations `ops`: the inode
    /// number that the creation returned, with the name and the kind that
    /// it was given.
    pub open spec fn created(self, ops: Seq<Creation>, i: int) -> Entry {
        Entry { ino: self.create_all(ops.take(i)).next_ino(), name: ops[i].name, kind: ops[i].kind }
    }

    /// The attributes of the node `ino`, if there is one.
    pub open spec fn attr(self, ino: u64) -> Option<Attributes> {
        if self.resolves(ino) {
            Some(attributes_of(ino, self.nodes[ino as int].kind))
        } else {
            None
        }
    }

    /// The attributes of the child `name` of `parent`: none if `parent`
    /// names no node or has no child of that name.
    pub open spec fn lookup(self, parent: u64, name: Seq<char>) -> Option<Attributes> {
        if self.table(parent).dom().contains(name) {
            let ino = self.table(parent)[name];
            Some(attributes_of(ino, self.nodes[ino as int].kind))
        } else {
            None
        }
    }

    /// The directory listing of `parent`, as a set: one line for each name
    /// bound in `parent`, with the inode number it leads to and that
    /// node's kind.
    pub open spec fn entries(self, parent: u64) -> Set<Entry> {
        Set::new(
            |e: Entry|
                self.table(parent).dom().contains(e.name) && self.table(parent)[e.name] == e.ino
                    && self.nodes[e.ino as int].kind == e.kind,
        )
    }

    /// `listing` lists the children of `parent`: each listed node is a
    /// child under its name, with its inode number and kind and without
    /// children of its own; no name is listed twice; no child is left out.
    pub open spec fn lists(self, parent: u64, listing: Seq<NodeModel>) -> bool {
        &&& forall|i: int|
            0 <= i < listing.len() ==> {
                let node = #[trigger] listing[i];
                &&& self.table(parent).dom().contains(node.name)
                &&& self.table(parent)[node.name] == node.ino
                &&& self.nodes[node.ino as int].kind == node.kind
                &&& node.children == Map::<Seq<char>, u64>::empty()
            }
        &&& forall|i: int, j: int|
            0 <= i < j < listing.len() ==> (#[trigger] listing[i]).name != (
            #[trigger] listing[j]).name
        &&& forall|name: Seq<char>| #[trigger]
            self.table(parent).dom().contains(name) ==> exists|i: int|
                0 <= i < listing.len() && (#[trigger] listing[i]).name == name
    }
}

} // verus!
