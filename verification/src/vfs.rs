//! The tree of nodes: an arena that hands out inode numbers, resolves
//! names, and lists directories.

use crate::attr::{attributes_of, Attributes, FileKind};
use crate::error::FsError;
use crate::laws::lemma_listing_is_entries;
use crate::model::{listed, ArenaModel, NodeModel};
use crate::table::{
    bound_map, distinct_names, lemma_bound_map_at, lemma_bound_map_len, names, NameTable,
};
use vstd::prelude::*;

verus! {

/// A node of the tree.
pub struct VNode {
    pub ino: u64,
    pub name: String,
    pub kind: FileKind,
    pub children: NameTable,
}

impl View for VNode {
    type V = NodeModel;

    open spec fn view(&self) -> NodeModel {
        NodeModel { ino: self.ino, name: self.name@, kind: self.kind, children: self.children@ }
    }
}

/// The nodes of a list, each as a mathematical value.
pub open spec fn node_views(nodes: Seq<VNode>) -> Seq<NodeModel> {
    nodes.map_values(|node: VNode| node@)
}

impl VNode {
    /// The attributes of this node.
    pub fn attr(&self) -> (attr: Attributes)
        ensures
            attr == attributes_of(self.ino, self.kind),
    {
        Attributes::synthesize(self.ino, self.kind)
    }
}

/// All nodes created so far.
pub struct VFS {
    nodes: Vec<VNode>,
}

impl View for VFS {
    type V = ArenaModel;

    closed spec fn view(&self) -> ArenaModel {
        ArenaModel { nodes: node_views(self.nodes@) }
    }
}

impl VFS {
    /// Every node's table of children is well formed.
    pub closed spec fn tables_wf(&self) -> bool {
        forall|i: int| 0 <= i < self.nodes@.len() ==> (#[trigger] self.nodes@[i]).children.wf()
    }

    /// The arena is a valid tree.
    pub open spec fn wf(&self) -> bool {
        self.tables_wf() && self@.wf()
    }

    /// An arena that holds the sentinel and the root directory.
    pub fn new() -> (fs: VFS)
        ensures
            fs.wf(),
            fs@ == ArenaModel::initial(),
    {
        let empty = VNode {
            ino: 0,
            name: "".to_owned(),
            kind: FileKind::Symlink,
            children: NameTable::new(),
        };
        let root = VNode {
            ino: 1,
            name: "/".to_owned(),
            kind: FileKind::Directory,
            children: NameTable::new(),
        };
        let mut nodes: Vec<VNode> = Vec::new();
        nodes.push(empty);
        nodes.push(root);
        let fs = VFS { nodes };
        assert(fs@.nodes =~= ArenaModel::initial().nodes);
        fs
    }

    /// The number of inode numbers handed out, the sentinel's included.
    pub fn len(&self) -> (n: usize)
        ensures
            n == self@.nodes.len(),
    {
        self.nodes.len()
    }

    /// The node `ino`, if there is one.
    pub fn get(&self, ino: u64) -> (node: Option<&VNode>)
        ensures
            match node {
                Some(node) => Some(node@) == self@.get(ino),
                None => self@.get(ino) is None,
            },
    {
        if ino == 0 || ino >= self.nodes.len() as u64 {
            None
        } else {
            Some(&self.nodes[ino as usize])
        }
    }

    /// Creates a node `name` of kind `kind` under `parent` and returns its
    /// inode number. Fails, and changes nothing, if `parent` names no node.
    pub fn create(&mut self, parent: u64, name: &str, kind: FileKind) -> (ino: Result<u64, FsError>)
        requires
            old(self).wf(),
        ensures
            final(self).wf(),
            final(self)@ == old(self)@.create(parent, name@, kind),
            old(self)@.resolves(parent) ==> ino == Ok::<u64, FsError>(old(self)@.next_ino()),
            !old(self)@.resolves(parent) ==> ino == Err::<u64, FsError>(FsError::NotFound),
    {
        let count = self.nodes.len();
        if parent == 0 || parent >= count as u64 {
            return Err(FsError::NotFound);
        }
        let ino = count as u64;
        let node = VNode { ino, name: name.to_owned(), kind, children: NameTable::new() };
        self.nodes.push(node);
        self.nodes[parent as usize].children.insert(name.to_owned(), ino);
        proof {
            let before = old(self)@;
            let after = before.create(parent, name@, kind);
            assert(self.nodes.len() == count + 1);
            assert(self@.nodes =~= after.nodes);
            before.lemma_create_wf(parent, name@, kind);
            assert forall|i: int| 0 <= i < self.nodes@.len() implies (#[trigger] self.nodes@[i])
                .children.wf() by {
                if i < count && i != parent {
                    assert(self.nodes@[i] == old(self).nodes@[i]);
                }
            }
        }
        Ok(ino)
    }

    /// The attributes of the child `name` of `parent`, if `parent` names a
    /// node and has such a child.
    pub fn lookup(&self, parent: u64, name: &str) -> (attr: Option<Attributes>)
        requires
            self.wf(),
        ensures
            attr == self@.lookup(parent, name@),
            !self@.resolves(parent) ==> attr is None,
    {
        if parent == 0 || parent >= self.nodes.len() as u64 {
            return None;
        }
        let dir = &self.nodes[parent as usize];
        match dir.children.get(&name.to_owned()) {
            None => None,
            Some(ino) => Some(self.nodes[ino as usize].attr()),
        }
    }

    /// The children of `ino`, in no particular order: for each, its inode
    /// number, the name it has in `ino`, and its kind. A listed node
    /// carries no children of its own. An `ino` that names no node has no
    /// children.
    pub fn children(&self, ino: u64) -> (listing: Vec<VNode>)
        requires
            self.wf(),
        ensures
            self@.lists(ino, node_views(listing@)),
            listed(node_views(listing@)) == self@.entries(ino),
            listing@.len() == self@.table(ino).dom().len(),
    {
        let mut listing: Vec<VNode> = Vec::new();
        if ino == 0 || ino >= self.nodes.len() as u64 {
            proof {
                lemma_listing_is_entries(self@, ino, node_views(listing@));
            }
            return listing;
        }
        let dir = &self.nodes[ino as usize];
        let count = dir.children.len();
        let ghost bound = dir.children.listing();
        proof {
            lemma_bound_map_len(bound);
            assert(self@.nodes[ino as int] == dir@);
        }
        let mut i: usize = 0;
        while i < count
            invariant
                self.wf(),
                self@.resolves(ino),
                self@.table(ino) == bound_map(bound),
                distinct_names(bound),
                bound == dir.children.listing(),
                count == bound.len(),
                i <= count,
                listing@.len() == i,
                forall|k: int|
                    0 <= k < i ==> (#[trigger] node_views(listing@)[k]) == (NodeModel {
                        ino: bound[k].1,
                        name: bound[k].0,
                        kind: self@.nodes[bound[k].1 as int].kind,
                        children: Map::<Seq<char>, u64>::empty(),
                    }),
            decreases count - i,
        {
            let binding = dir.children.at(i);
            proof {
                lemma_bound_map_at(bound, i as int);
                assert(self@.nodes[ino as int].children.dom().contains(bound[i as int].0));
                assert(binding.number < self.nodes.len());
                assert(self@.nodes[binding.number as int] == self.nodes@[binding.number as int]@);
            }
            let child = &self.nodes[binding.number as usize];
            let node = VNode {
                ino: child.ino,
                name: binding.name.clone(),
                kind: child.kind,
                children: NameTable::new(),
            };
            let ghost listed = listing@;
            listing.push(node);
            proof {
                assert forall|k: int| 0 <= k < i implies (#[trigger] node_views(listing@)[k])
                    == node_views(listed)[k] by {
                    assert(listing@[k] == listed[k]);
                }
            }
            i += 1;
        }
        proof {
            let views = node_views(listing@);
            assert forall|k: int| 0 <= k < views.len() implies {
                let node = #[trigger] views[k];
                &&& self@.table(ino).dom().contains(node.name)
                &&& self@.table(ino)[node.name] == node.ino
                &&& self@.nodes[node.ino as int].kind == node.kind
                &&& node.children == Map::<Seq<char>, u64>::empty()
            } by {
                lemma_bound_map_at(bound, k);
            }
            assert forall|name: Seq<char>| #[trigger]
                self@.table(ino).dom().contains(name) implies exists|k: int|
                0 <= k < views.len() && (#[trigger] views[k]).name == name by {
                assert(names(bound, name));
                let k = choose|k: int| 0 <= k < bound.len() && (#[trigger] bound[k]).0 == name;
                assert(views[k].name == name);
            }
            lemma_listing_is_entries(self@, ino, views);
        }
        listing
    }
}

} // verus!
