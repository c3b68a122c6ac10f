//! What holds of the tree and of the bridge whatever was done to them.

use crate::attr::{attributes_of, FileKind};
use crate::model::{entry_of, listed, ArenaModel, Creation, Entry, NodeModel};
use crate::srvfs::BridgeModel;
use vstd::prelude::*;

verus! {

/// Creating a node renumbers nothing: every node that was there keeps
/// its inode number, its name and its kind, and the new node, if one was
/// made, got the next inode number.
pub proof fn lemma_create_keeps_nodes(
    arena: ArenaModel,
    parent: u64,
    name: Seq<char>,
    kind: FileKind,
    ino: u64,
)
    requires
        arena.wf(),
        arena.resolves(ino),
    ensures
        ({
            let after = arena.create(parent, name, kind);
            &&& after.resolves(ino)
            &&& after.nodes[ino as int].ino == arena.nodes[ino as int].ino
            &&& after.nodes[ino as int].name == arena.nodes[ino as int].name
            &&& after.nodes[ino as int].kind == arena.nodes[ino as int].kind
            &&& after.attr(ino) == arena.attr(ino)
            &&& arena.resolves(parent) ==> after.nodes.len() == arena.nodes.len() + 1
            &&& !arena.resolves(parent) ==> after == arena
        }),
{
}

/// Creating a node unbinds no name: a name that led somewhere still
/// does, and to the same node unless it is the name that was created.
pub proof fn lemma_create_keeps_bindings(
    arena: ArenaModel,
    parent: u64,
    name: Seq<char>,
    kind: FileKind,
    at: u64,
    other: Seq<char>,
)
    requires
        arena.wf(),
        arena.table(at).dom().contains(other),
    ensures
        arena.create(parent, name, kind).table(at).dom().contains(other),
        at != parent || other != name ==> arena.create(parent, name, kind).table(at)[other]
            == arena.table(at)[other],
{
}

/// A node that was just created is found under its parent and name, with
/// the inode number that the creation returned and the kind it was given.
pub proof fn lemma_create_then_lookup(
    arena: ArenaModel,
    parent: u64,
    name: Seq<char>,
    kind: FileKind,
)
    requires
        arena.wf(),
        arena.resolves(parent),
    ensures
        arena.create(parent, name, kind).lookup(parent, name) == Some(
            attributes_of(arena.next_ino(), kind),
        ),
{
}

/// Creating a node changes what one lookup finds, the one under the
/// node's parent and name, and no other.
pub proof fn lemma_create_elsewhere(
    arena: ArenaModel,
    parent: u64,
    name: Seq<char>,
    kind: FileKind,
    at: u64,
    other: Seq<char>,
)
    requires
        arena.wf(),
        arena.nodes.len() < u64::MAX,
        at != parent || other != name,
    ensures
        arena.create(parent, name, kind).lookup(at, other) == arena.lookup(at, other),
{
    if arena.resolves(parent) {
        let after = arena.create(parent, name, kind);
        if arena.resolves(at) {
            if arena.table(at).dom().contains(other) {
                let ino = arena.table(at)[other];
                assert(arena.nodes[at as int].children.dom().contains(other));
                assert(after.nodes[ino as int].kind == arena.nodes[ino as int].kind);
            }
        }
    }
}

/// A run of creations leaves the arena a valid tree, and no smaller.
pub proof fn lemma_create_all_wf(arena: ArenaModel, ops: Seq<Creation>)
    requires
        arena.wf(),
        arena.nodes.len() + ops.len() <= u64::MAX,
    ensures
        arena.create_all(ops).wf(),
        arena.nodes.len() <= arena.create_all(ops).nodes.len() <= arena.nodes.len() + ops.len(),
    decreases ops.len(),
{
    if ops.len() > 0 {
        let last = ops.last();
        lemma_create_all_wf(arena, ops.drop_last());
        arena.create_all(ops.drop_last()).lemma_create_wf(last.parent, last.name, last.kind);
    }
}

/// After any run of creations, a node that was created in it, and whose
/// name was not created again under the same parent later in the run, is
/// found under its parent and name, with the inode number that its
/// creation returned and the kind that it was given.
pub proof fn lemma_created_is_found(arena: ArenaModel, ops: Seq<Creation>, i: int)
    requires
        arena.wf(),
        arena.nodes.len() + ops.len() <= u64::MAX,
        0 <= i < ops.len(),
        arena.create_all(ops.take(i)).resolves(ops[i].parent),
        forall|j: int|
            i < j < ops.len() ==> (#[trigger] ops[j]).parent != ops[i].parent || ops[j].name
                != ops[i].name,
    ensures
        arena.create_all(ops).lookup(ops[i].parent, ops[i].name) == Some(
            attributes_of(arena.created(ops, i).ino, ops[i].kind),
        ),
    decreases ops.len(),
{
    let front = ops.drop_last();
    let last = ops.last();
    let middle = arena.create_all(front);
    lemma_create_all_wf(arena, front);
    if i == ops.len() - 1 {
        assert(ops.take(i) =~= front);
        lemma_create_then_lookup(middle, last.parent, last.name, last.kind);
    } else {
        assert(front.take(i) =~= ops.take(i));
        assert(front[i] == ops[i]);
        assert forall|j: int| i < j < front.len() implies (#[trigger] front[j]).parent
            != front[i].parent || front[j].name != front[i].name by {
            assert(front[j] == ops[j]);
        }
        lemma_created_is_found(arena, front, i);
        assert(last == ops[ops.len() - 1]);
        lemma_create_elsewhere(
            middle,
            last.parent,
            last.name,
            last.kind,
            ops[i].parent,
            ops[i].name,
        );
    }
}

/// After creations under one parent, each with a name of its own, a
/// lookup of any of the names under that parent finds the node with the
/// inode number that its creation returned and the kind it was given.
pub proof fn lemma_distinct_names_are_found(
    arena: ArenaModel,
    parent: u64,
    ops: Seq<Creation>,
    i: int,
)
    requires
        arena.wf(),
        arena.resolves(parent),
        arena.nodes.len() + ops.len() <= u64::MAX,
        forall|j: int| 0 <= j < ops.len() ==> (#[trigger] ops[j]).parent == parent,
        forall|j: int, k: int|
            0 <= j < k < ops.len() ==> (#[trigger] ops[j]).name != (#[trigger] ops[k]).name,
        0 <= i < ops.len(),
    ensures
        arena.create_all(ops).lookup(parent, ops[i].name) == Some(
            attributes_of(arena.created(ops, i).ino, ops[i].kind),
        ),
        arena.created(ops, i).ino == arena.nodes.len() + i,
{
    lemma_all_created(arena, parent, ops.take(i));
    lemma_created_is_found(arena, ops, i);
}

/// Creations under a parent that names a node all make a node: the arena
/// grows by one node for each.
pub proof fn lemma_all_created(arena: ArenaModel, parent: u64, ops: Seq<Creation>)
    requires
        arena.wf(),
        arena.resolves(parent),
        arena.nodes.len() + ops.len() <= u64::MAX,
        forall|j: int| 0 <= j < ops.len() ==> (#[trigger] ops[j]).parent == parent,
    ensures
        arena.create_all(ops).nodes.len() == arena.nodes.len() + ops.len(),
    decreases ops.len(),
{
    if ops.len() > 0 {
        let front = ops.drop_last();
        assert forall|j: int| 0 <= j < front.len() implies (#[trigger] front[j]).parent
            == parent by {
            assert(front[j] == ops[j]);
        }
        lemma_all_created(arena, parent, front);
        assert(ops.last() == ops[ops.len() - 1]);
    }
}

/// A name that a parent did not have, and that no creation of a run put
/// under that parent, is not found under it after the run.
pub proof fn lemma_never_created_is_absent(
    arena: ArenaModel,
    ops: Seq<Creation>,
    parent: u64,
    name: Seq<char>,
)
    requires
        arena.wf(),
        arena.nodes.len() + ops.len() <= u64::MAX,
        arena.lookup(parent, name) is None,
        forall|j: int|
            0 <= j < ops.len() ==> (#[trigger] ops[j]).parent != parent || ops[j].name != name,
    ensures
        arena.create_all(ops).lookup(parent, name) is None,
    decreases ops.len(),
{
    if ops.len() > 0 {
        let front = ops.drop_last();
        let last = ops.last();
        assert forall|j: int| 0 <= j < front.len() implies (#[trigger] front[j]).parent != parent
            || front[j].name != name by {
            assert(front[j] == ops[j]);
        }
        lemma_never_created_is_absent(arena, front, parent, name);
        lemma_create_all_wf(arena, front);
        assert(last == ops[ops.len() - 1]);
        lemma_create_elsewhere(
            arena.create_all(front),
            last.parent,
            last.name,
            last.kind,
            parent,
            name,
        );
    }
}

/// In a tree that grew from the root alone, a lookup of a name that was
/// never created under a parent finds nothing, whatever the parent.
pub proof fn lemma_never_created_from_start(ops: Seq<Creation>, parent: u64, name: Seq<char>)
    requires
        2 + ops.len() <= u64::MAX,
        forall|j: int|
            0 <= j < ops.len() ==> (#[trigger] ops[j]).parent != parent || ops[j].name != name,
    ensures
        ArenaModel::initial().create_all(ops).lookup(parent, name) is None,
{
    lemma_never_created_is_absent(ArenaModel::initial(), ops, parent, name);
}

/// A lookup under an inode number that names no node finds nothing.
pub proof fn lemma_unknown_parent_is_absent(arena: ArenaModel, parent: u64, name: Seq<char>)
    requires
        !arena.resolves(parent),
    ensures
        arena.lookup(parent, name) is None,
{
}

/// In every valid arena the sentinel is no node, and the root is a
/// directory with the permissions of one.
pub proof fn lemma_sentinel_and_root(arena: ArenaModel)
    requires
        arena.wf(),
    ensures
        arena.attr(0) is None,
        arena.attr(1) == Some(attributes_of(1, FileKind::Directory)),
        attributes_of(1, FileKind::Directory).kind == FileKind::Directory,
        attributes_of(1, FileKind::Directory).perm == 0o755,
{
}

/// A listing of a directory holds exactly the lines of the directory.
pub proof fn lemma_listing_is_entries(arena: ArenaModel, parent: u64, listing: Seq<NodeModel>)
    requires
        arena.lists(parent, listing),
    ensures
        listed(listing) == arena.entries(parent),
{
    assert forall|e: Entry| listed(listing).contains(e) == arena.entries(parent).contains(e) by {
        if listed(listing).contains(e) {
            let i = choose|i: int| 0 <= i < listing.len() && entry_of(#[trigger] listing[i]) == e;
            assert(arena.table(parent).dom().contains(listing[i].name));
        }
        if arena.entries(parent).contains(e) {
            assert(arena.table(parent).dom().contains(e.name));
            let i = choose|i: int| 0 <= i < listing.len() && (#[trigger] listing[i]).name == e.name;
            assert(entry_of(listing[i]) == e);
        }
    }
    assert(listed(listing) =~= arena.entries(parent));
}

/// Creating a node under a parent adds its line to the parent's listing,
/// in place of the line that had its name, if there was one.
pub proof fn lemma_create_entries(arena: ArenaModel, parent: u64, name: Seq<char>, kind: FileKind)
    requires
        arena.wf(),
        arena.resolves(parent),
        arena.nodes.len() < u64::MAX,
    ensures
        arena.create(parent, name, kind).entries(parent) == Set::new(
            |e: Entry|
                (e.name != name && arena.entries(parent).contains(e)) || e == (Entry {
                    ino: arena.next_ino(),
                    name,
                    kind,
                }),
        ),
{
    let after = arena.create(parent, name, kind);
    let expected = Set::new(
        |e: Entry|
            (e.name != name && arena.entries(parent).contains(e)) || e == (Entry {
                ino: arena.next_ino(),
                name,
                kind,
            }),
    );
    assert forall|e: Entry| after.entries(parent).contains(e) == expected.contains(e) by {
        if e.name != name && arena.table(parent).dom().contains(e.name) {
            assert(arena.nodes[parent as int].children.dom().contains(e.name));
            let ino = arena.table(parent)[e.name];
            assert(after.nodes[ino as int].kind == arena.nodes[ino as int].kind);
        }
    }
    assert(after.entries(parent) =~= expected);
}

/// After children were created under a directory, each with a name of
/// its own that the directory did not have, the directory's listing
/// holds what it held and one line for each child created: the inode
/// number that the creation returned, with the child's name and kind.
/// For a directory that was empty, these are all its lines.
pub proof fn lemma_children_are_those_created(arena: ArenaModel, parent: u64, ops: Seq<Creation>)
    requires
        arena.wf(),
        arena.resolves(parent),
        arena.nodes.len() + ops.len() <= u64::MAX,
        forall|j: int| 0 <= j < ops.len() ==> (#[trigger] ops[j]).parent == parent,
        forall|j: int, k: int|
            0 <= j < k < ops.len() ==> (#[trigger] ops[j]).name != (#[trigger] ops[k]).name,
        forall|j: int|
            0 <= j < ops.len() ==> !arena.table(parent).dom().contains((#[trigger] ops[j]).name),
    ensures
        arena.create_all(ops).entries(parent) == arena.entries(parent).union(
            Set::new(|e: Entry| exists|j: int| 0 <= j < ops.len() && e == arena.created(ops, j)),
        ),
        arena.table(parent) == Map::<Seq<char>, u64>::empty() ==> arena.create_all(ops).entries(
            parent,
        ) == Set::new(|e: Entry| exists|j: int| 0 <= j < ops.len() && e == arena.created(ops, j)),
    decreases ops.len(),
{
    let made = Set::new(
        |e: Entry| exists|j: int| 0 <= j < ops.len() && e == arena.created(ops, j),
    );
    if ops.len() == 0 {
        assert(arena.create_all(ops).entries(parent) =~= arena.entries(parent).union(made));
    } else {
        let front = ops.drop_last();
        let last = ops.last();
        let middle = arena.create_all(front);
        let made_before = Set::new(
            |e: Entry| exists|j: int| 0 <= j < front.len() && e == arena.created(front, j),
        );
        assert(last == ops[ops.len() - 1]);
        assert forall|j: int| 0 <= j < front.len() implies (#[trigger] front[j]) == ops[j] by {}
        lemma_children_are_those_created(arena, parent, front);
        lemma_create_all_wf(arena, front);
        lemma_create_entries(middle, parent, last.name, last.kind);
        assert(front =~= ops.take(ops.len() - 1));
        assert forall|j: int| 0 <= j < front.len() implies arena.created(front, j)
            == arena.created(ops, j) by {
            assert(front.take(j) =~= ops.take(j));
        }
        let newest = Entry { ino: middle.next_ino(), name: last.name, kind: last.kind };
        assert(newest == arena.created(ops, ops.len() - 1));
        assert forall|e: Entry|
            arena.create_all(ops).entries(parent).contains(e) == arena.entries(parent).union(
                made,
            ).contains(e) by {
            if made.contains(e) {
                let j = choose|j: int| 0 <= j < ops.len() && e == arena.created(ops, j);
                if j < front.len() {
                    assert(e == arena.created(front, j));
                    assert(made_before.contains(e));
                    assert(e.name == ops[j].name);
                }
            }
            if made_before.contains(e) {
                let j = choose|j: int| 0 <= j < front.len() && e == arena.created(front, j);
                assert(e == arena.created(ops, j));
                assert(e.name == ops[j].name);
            }
            if arena.entries(parent).contains(e) {
                assert(arena.table(parent).dom().contains(e.name));
            }
        }
        assert(arena.create_all(ops).entries(parent) =~= arena.entries(parent).union(made));
    }
    if arena.table(parent) == Map::<Seq<char>, u64>::empty() {
        assert(arena.entries(parent) =~= Set::<Entry>::empty());
        assert(arena.entries(parent).union(made) =~= made);
    }
}

/// The subscription that a read of a node waits on is the one to the
/// subject that a write to the node publishes on, and to no other.
pub proof fn lemma_read_waits_where_write_publishes(
    bridge: BridgeModel,
    ino: u64,
    subject: Seq<char>,
)
    requires
        bridge.wf(),
        bridge.subscriptions.dom().contains(bridge.subject(ino)),
        bridge.subscriptions.dom().contains(subject),
    ensures
        bridge.subscriptions[subject] == bridge.subscriptions[bridge.subject(ino)] <==> subject
            == bridge.subject(ino),
{
}

/// Opening a subscription closes none and renumbers none, and leaves the
/// bridge in a valid state.
pub proof fn lemma_subscribe_keeps(bridge: BridgeModel, subject: Seq<char>, other: Seq<char>)
    requires
        bridge.wf(),
        bridge.subscriptions.dom().len() < u64::MAX,
        bridge.subscriptions.dom().contains(other),
    ensures
        bridge.subscribe(subject).wf(),
        bridge.subscribe(subject).arena == bridge.arena,
        bridge.subscribe(subject).subscriptions.dom().contains(subject),
        bridge.subscribe(subject).subscriptions.dom().contains(other),
        bridge.subscribe(subject).subscriptions[other] == bridge.subscriptions[other],
{
    let after = bridge.subscribe(subject);
    if !bridge.subscriptions.dom().contains(subject) {
        assert(after.subscriptions.dom() =~= bridge.subscriptions.dom().insert(subject));
        assert forall|s: Seq<char>| #[trigger]
            after.subscriptions.dom().contains(s) implies after.subscriptions[s]
            < after.subscriptions.dom().len() by {
            if s != subject {
                assert(bridge.subscriptions.dom().contains(s));
            }
        }
        assert forall|s: Seq<char>, t: Seq<char>|
            #![trigger after.subscriptions[s], after.subscriptions[t]]
            after.subscriptions.dom().contains(s) && after.subscriptions.dom().contains(t) && s
                != t implies after.subscriptions[s] != after.subscriptions[t] by {
            if s != subject {
                assert(bridge.subscriptions.dom().contains(s));
            }
            if t != subject {
                assert(bridge.subscriptions.dom().contains(t));
            }
        }
    }
}

} // verus!
