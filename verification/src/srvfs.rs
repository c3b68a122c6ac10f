//! The bridge between filesystem operations and the bus.
//!
//! Each operation on the tree is answered at once. Writing and reading
//! need the bus, which this module does not reach: it says which request
//! to make of the bus, and what to answer once the bus has replied.
//!
//! The subject of a node is its own name, whatever directory it is in.
//! Subscriptions are opened on the first read of a subject and kept: the
//! bridge numbers them in the order in which they were opened.

use crate::attr::{attributes_of, Attributes, FileKind};
use crate::error::FsError;
use crate::model::{listed, ArenaModel};
use crate::table::{lemma_bound_map_len, NameTable};
use crate::vfs::{node_views, VNode, VFS};
use vstd::prelude::*;
use vstd::slice::slice_to_vec;

verus! {

/// A message to publish.
#[derive(Debug, PartialEq, Eq)]
pub struct Publish {
    pub subject: String,
    pub payload: Vec<u8>,
}

/// What a read asks of the bus.
#[derive(Debug, PartialEq, Eq)]
pub enum Fetch {
    /// No subscription to `subject` is open: open one, report it with
    /// [`SrvFS::subscribed`], then wait for its next message. It will be
    /// subscription number `handle`.
    Subscribe { subject: String, handle: u64 },
    /// Wait for the next message of subscription number `handle`.
    Receive { handle: u64 },
}

/// A new value for a timestamp.
#[derive(Clone, Copy, Debug, PartialEq, Eq, Structural)]
pub enum TimeChange {
    /// The time at which the request is served.
    Now,
    /// This many seconds after the Unix epoch.
    At(u64),
}

/// A request to change attributes of a node: for each attribute, the new
/// value, if one is asked for.
#[derive(Clone, Copy, Debug, PartialEq, Eq, Structural)]
pub struct SetAttr {
    pub mode: Option<u32>,
    pub uid: Option<u32>,
    pub gid: Option<u32>,
    pub size: Option<u64>,
    pub atime: Option<TimeChange>,
    pub mtime: Option<TimeChange>,
    pub flags: Option<u32>,
}

/// The bridge as a mathematical value: the tree, and the number of the
/// subscription that is open for each subject.
pub struct BridgeModel {
    pub arena: ArenaModel,
    pub subscriptions: Map<Seq<char>, u64>,
}

/// The answer to a request for attributes: those of the node, or that
/// there is no such node.
pub open spec fn found(attr: Option<Attributes>) -> Result<Attributes, FsError> {
    match attr {
        Some(attr) => Ok(attr),
        None => Err(FsError::NotFound),
    }
}

impl BridgeModel {
    /// The bridge before any operation.
    pub open spec fn initial() -> BridgeModel {
        BridgeModel { arena: ArenaModel::initial(), subscriptions: Map::empty() }
    }

    /// The tree is valid, and the open subscriptions are numbered from 0
    /// on, each with a number of its own.
    pub open spec fn wf(self) -> bool {
        &&& self.arena.wf()
        &&& self.subscriptions.dom().finite()
        &&& self.subscriptions.dom().len() <= u64::MAX
        &&& forall|s: Seq<char>| #[trigger]
            self.subscriptions.dom().contains(s) ==> self.subscriptions[s]
                < self.subscriptions.dom().len()
        &&& forall|s: Seq<char>, t: Seq<char>|
            #![trigger self.subscriptions[s], self.subscriptions[t]]
            self.subscriptions.dom().contains(s) && self.subscriptions.dom().contains(t) && s != t
                ==> self.subscriptions[s] != self.subscriptions[t]
    }

    /// The subject on which the node `ino` is published and read: its name.
    pub open spec fn subject(self, ino: u64) -> Seq<char> {
        self.arena.nodes[ino as int].name
    }

    /// The number that the next subscription will get.
    pub open spec fn next_handle(self) -> u64 {
        self.subscriptions.dom().len() as u64
    }

    /// The bridge once a subscription to `subject` is open: it has the
    /// number it had, or the next number if there was none.
    pub open spec fn subscribe(self, subject: Seq<char>) -> BridgeModel {
        if self.subscriptions.dom().contains(subject) {
            self
        } else {
            BridgeModel {
                subscriptions: self.subscriptions.insert(subject, self.next_handle()),
                ..self
            }
        }
    }
}

/// The bridge: the tree of nodes and the subscriptions opened so far.
pub struct SrvFS {
    v: VFS,
    subs: NameTable,
}

impl View for SrvFS {
    type V = BridgeModel;

    closed spec fn view(&self) -> BridgeModel {
        BridgeModel { arena: self.v@, subscriptions: self.subs@ }
    }
}

impl SrvFS {
    /// The parts of the bridge are well formed, each by itself.
    pub closed spec fn parts_wf(&self) -> bool {
        &&& self.v.wf()
        &&& self.subs.wf()
    }

    /// The bridge is in a valid state.
    pub open spec fn wf(&self) -> bool {
        self.parts_wf() && self@.wf()
    }

    /// A bridge over a tree that holds the root directory alone, with no
    /// subscription open.
    pub fn new() -> (fs: SrvFS)
        ensures
            fs.wf(),
            fs@ == BridgeModel::initial(),
    {
        let fs = SrvFS { v: VFS::new(), subs: NameTable::new() };
        proof {
            lemma_bound_map_len(fs.subs.listing());
        }
        fs
    }

    /// The attributes of the child `name` of `parent`.
    pub fn lookup(&self, parent: u64, name: &str) -> (entry: Result<Attributes, FsError>)
        requires
            self.wf(),
        ensures
            entry == found(self@.arena.lookup(parent, name@)),
    {
        match self.v.lookup(parent, name) {
            None => Err(FsError::NotFound),
            Some(attr) => Ok(attr),
        }
    }

    /// The attributes of the node `ino`. The sentinel is no node; the root
    /// is always there, and is a directory.
    pub fn getattr(&self, ino: u64) -> (attr: Result<Attributes, FsError>)
        requires
            self.wf(),
        ensures
            attr == found(self@.arena.attr(ino)),
            ino == 0 ==> attr == Err::<Attributes, FsError>(FsError::NotFound),
            ino == 1 ==> attr == Ok::<Attributes, FsError>(attributes_of(1, FileKind::Directory)),
            ino == 1 ==> (attr matches Ok(root) && root.kind == FileKind::Directory && root.perm
                == 0o755),
    {
        match self.v.get(ino) {
            Some(node) => Ok(node.attr()),
            None => Err(FsError::NotFound),
        }
    }

    /// The part of the listing of directory `ino` that starts at `offset`.
    /// A listing is handed out whole: from offset 0 it holds every child,
    /// in no particular order, and past that nothing.
    pub fn readdir(&self, ino: u64, offset: i64) -> (listing: Result<Vec<VNode>, FsError>)
        requires
            self.wf(),
        ensures
            !self@.arena.resolves(ino) ==> listing == Err::<Vec<VNode>, FsError>(
                FsError::NotFound,
            ),
            self@.arena.resolves(ino) ==> listing is Ok,
            listing matches Ok(nodes) ==> if offset > 0 {
                nodes@.len() == 0
            } else {
                &&& self@.arena.lists(ino, node_views(nodes@))
                &&& listed(node_views(nodes@)) == self@.arena.entries(ino)
                &&& nodes@.len() == self@.arena.table(ino).dom().len()
            },
    {
        if self.v.get(ino).is_none() {
            return Err(FsError::NotFound);
        }
        if offset > 0 {
            return Ok(Vec::new());
        }
        Ok(self.v.children(ino))
    }

    /// Creates a node and answers with its attributes.
    fn make(&mut self, parent: u64, name: &str, kind: FileKind) -> (entry: Result<
        Attributes,
        FsError,
    >)
        requires
            old(self).wf(),
        ensures
            final(self).wf(),
            final(self)@.subscriptions == old(self)@.subscriptions,
            final(self)@.arena == old(self)@.arena.create(parent, name@, kind),
            old(self)@.arena.resolves(parent) ==> entry == Ok::<Attributes, FsError>(
                attributes_of(old(self)@.arena.next_ino(), kind),
            ),
            !old(self)@.arena.resolves(parent) ==> entry == Err::<Attributes, FsError>(
                FsError::NotFound,
            ),
            entry is Ok ==> entry == found(final(self)@.arena.lookup(parent, name@)),
    {
        match self.v.create(parent, name, kind) {
            Err(e) => Err(e),
            Ok(_) => match self.v.lookup(parent, name) {
                Some(attr) => Ok(attr),
                None => Err(FsError::NotFound),
            },
        }
    }

    /// Creates the directory `name` under `parent` and answers with its
    /// attributes. Fails, and changes nothing, if `parent` names no node.
    pub fn mkdir(&mut self, parent: u64, name: &str) -> (entry: Result<Attributes, FsError>)
        requires
            old(self).wf(),
        ensures
            final(self).wf(),
            final(self)@.subscriptions == old(self)@.subscriptions,
            final(self)@.arena == old(self)@.arena.create(parent, name@, FileKind::Directory),
            old(self)@.arena.resolves(parent) ==> entry == Ok::<Attributes, FsError>(
                attributes_of(old(self)@.arena.next_ino(), FileKind::Directory),
            ),
            !old(self)@.arena.resolves(parent) ==> entry == Err::<Attributes, FsError>(
                FsError::NotFound,
            ),
            entry is Ok ==> entry == found(final(self)@.arena.lookup(parent, name@)),
    {
        self.make(parent, name, FileKind::Directory)
    }

    /// Creates the regular file `name` under `parent` and answers with its
    /// attributes. Fails, and changes nothing, if `parent` names no node.
    pub fn create(&mut self, parent: u64, name: &str) -> (entry: Result<Attributes, FsError>)
        requires
            old(self).wf(),
        ensures
            final(self).wf(),
            final(self)@.subscriptions == old(self)@.subscriptions,
            final(self)@.arena == old(self)@.arena.create(parent, name@, FileKind::RegularFile),
            old(self)@.arena.resolves(parent) ==> entry == Ok::<Attributes, FsError>(
                attributes_of(old(self)@.arena.next_ino(), FileKind::RegularFile),
            ),
            !old(self)@.arena.resolves(parent) ==> entry == Err::<Attributes, FsError>(
                FsError::NotFound,
            ),
            entry is Ok ==> entry == found(final(self)@.arena.lookup(parent, name@)),
    {
        self.make(parent, name, FileKind::RegularFile)
    }

    /// Takes a request to change attributes of the node `ino`, changes
    /// none, and answers with the attributes as they are.
    pub fn setattr(&self, ino: u64, request: &SetAttr) -> (attr: Result<Attributes, FsError>)
        requires
            self.wf(),
        ensures
            attr == found(self@.arena.attr(ino)),
    {
        self.getattr(ino)
    }

    /// The message that writing `data` to the node `ino` publishes: the
    /// whole of `data`, on the subject of the node.
    pub fn write(&self, ino: u64, data: &[u8]) -> (publish: Result<Publish, FsError>)
        requires
            self.wf(),
        ensures
            !self@.arena.resolves(ino) ==> publish == Err::<Publish, FsError>(FsError::NotFound),
            self@.arena.resolves(ino) ==> publish is Ok,
            publish matches Ok(message) ==> message.subject@ == self@.subject(ino)
                && message.payload@ == data@,
    {
        match self.v.get(ino) {
            Some(node) => Ok(Publish { subject: node.name.clone(), payload: slice_to_vec(data) }),
            None => Err(FsError::NotFound),
        }
    }

    /// The answer to a write once the bus has taken the message or has
    /// failed to: the number of bytes accepted, which is all of them, or
    /// a transport failure.
    pub fn written(message: &Publish, acknowledged: bool) -> (accepted: Result<usize, FsError>)
        ensures
            acknowledged ==> accepted == Ok::<usize, FsError>(message.payload@.len() as usize),
            !acknowledged ==> accepted == Err::<usize, FsError>(FsError::TransportFailure),
    {
        if acknowledged {
            Ok(message.payload.len())
        } else {
            Err(FsError::TransportFailure)
        }
    }

    /// What reading the node `ino` asks of the bus: the next message of
    /// the subscription to the node's subject, which is to be opened
    /// first if no read of that subject has opened it yet.
    pub fn read(&self, ino: u64) -> (fetch: Result<Fetch, FsError>)
        requires
            self.wf(),
        ensures
            match fetch {
                Err(e) => e == FsError::NotFound && !self@.arena.resolves(ino),
                Ok(Fetch::Receive { handle }) => {
                    &&& self@.arena.resolves(ino)
                    &&& self@.subscriptions.dom().contains(self@.subject(ino))
                    &&& handle == self@.subscriptions[self@.subject(ino)]
                },
                Ok(Fetch::Subscribe { subject, handle }) => {
                    &&& self@.arena.resolves(ino)
                    &&& !self@.subscriptions.dom().contains(self@.subject(ino))
                    &&& subject@ == self@.subject(ino)
                    &&& handle == self@.next_handle()
                },
            },
    {
        match self.v.get(ino) {
            None => Err(FsError::NotFound),
            Some(node) => match self.subs.get(&node.name) {
                Some(handle) => Ok(Fetch::Receive { handle }),
                None => {
                    proof {
                        lemma_bound_map_len(self.subs.listing());
                    }
                    Ok(Fetch::Subscribe { subject: node.name.clone(), handle: self.subs.len() as u64 })
                },
            },
        }
    }

    /// Records how opening a subscription to `subject` went. If it was
    /// opened, it is kept under the number that [`SrvFS::read`] announced
    /// and that number is returned; a subject that has a subscription keeps
    /// the one it has. If it was not, nothing changes and the read fails.
    pub fn subscribed(&mut self, subject: String, opened: bool) -> (handle: Result<u64, FsError>)
        requires
            old(self).wf(),
        ensures
            final(self).wf(),
            opened ==> final(self)@ == old(self)@.subscribe(subject@) && handle == Ok::<
                u64,
                FsError,
            >(final(self)@.subscriptions[subject@]),
            !opened ==> final(self)@ == old(self)@ && handle == Err::<u64, FsError>(
                FsError::TransportFailure,
            ),
    {
        if !opened {
            return Err(FsError::TransportFailure);
        }
        match self.subs.get(&subject) {
            Some(handle) => Ok(handle),
            None => {
                proof {
                    lemma_bound_map_len(self.subs.listing());
                }
                let handle = self.subs.len() as u64;
                let ghost before = self.subs@;
                self.subs.insert(subject, handle);
                proof {
                    lemma_bound_map_len(self.subs.listing());
                    self.subs.lemma_listing_fits();
                    assert(self.subs@.dom() =~= before.dom().insert(subject@));
                    assert forall|s: Seq<char>| #[trigger]
                        self.subs@.dom().contains(s) implies self.subs@[s]
                        < self.subs@.dom().len() by {
                        if s != subject@ {
                            assert(before.dom().contains(s));
                        }
                    }
                    assert forall|s: Seq<char>, t: Seq<char>|
                        #![trigger self.subs@[s], self.subs@[t]]
                        self.subs@.dom().contains(s) && self.subs@.dom().contains(t) && s
                            != t implies self.subs@[s] != self.subs@[t] by {
                        if s != subject@ {
                            assert(before.dom().contains(s));
                        }
                        if t != subject@ {
                            assert(before.dom().contains(t));
                        }
                    }
                }
                Ok(handle)
            },
        }
    }

    /// The bytes that a read answers with, given what the subscription
    /// yielded: the payload of its message, or nothing if it ended without
    /// one.
    pub fn delivered(message: Option<Vec<u8>>) -> (data: Vec<u8>)
        ensures
            data@ == match message {
                Some(payload) => payload@,
                None => Seq::<u8>::empty(),
            },
    {
        match message {
            Some(payload) => payload,
            None => Vec::new(),
        }
    }
}

} // verus!
