//! Tables that bind names to numbers.
//!
//! A table holds each name at most once. Binding a name that is already
//! there replaces the number it leads to. Nothing is ever removed. The
//! tree uses such a table for the children of a node, the bridge for the
//! subjects it has subscribed to.

use vstd::prelude::*;

verus! {

/// A name and the number it leads to.
pub type Bound = (Seq<char>, u64);

/// No name occurs twice in `l`.
pub open spec fn distinct_names(l: Seq<Bound>) -> bool {
    forall|i: int, j: int| 0 <= i < j < l.len() ==> (#[trigger] l[i]).0 != (#[trigger] l[j]).0
}

/// `name` occurs in `l`.
pub open spec fn names(l: Seq<Bound>, name: Seq<char>) -> bool {
    exists|i: int| 0 <= i < l.len() && (#[trigger] l[i]).0 == name
}

/// The map that a list of bindings stands for.
pub open spec fn bound_map(l: Seq<Bound>) -> Map<Seq<char>, u64> {
    Map::new(
        |name: Seq<char>| names(l, name),
        |name: Seq<char>| l[choose|i: int| 0 <= i < l.len() && (#[trigger] l[i]).0 == name].1,
    )
}

/// Each binding of a list without repeated names is in the list's map.
pub proof fn lemma_bound_map_at(l: Seq<Bound>, i: int)
    requires
        distinct_names(l),
        0 <= i < l.len(),
    ensures
        bound_map(l).dom().contains(l[i].0),
        bound_map(l)[l[i].0] == l[i].1,
{
    let name = l[i].0;
    let k = choose|k: int| 0 <= k < l.len() && (#[trigger] l[k]).0 == name;
    assert(k == i);
}

/// Appending a binding under a new name inserts it into the list's map.
pub proof fn lemma_bound_map_push(l: Seq<Bound>, name: Seq<char>, number: u64)
    requires
        distinct_names(l),
        !names(l, name),
    ensures
        distinct_names(l.push((name, number))),
        bound_map(l.push((name, number))) == bound_map(l).insert(name, number),
{
    let after = l.push((name, number));
    assert(distinct_names(after)) by {
        assert forall|i: int, j: int| 0 <= i < j < after.len() implies (#[trigger] after[i]).0 != (
        #[trigger] after[j]).0 by {
            if j < l.len() {
                assert(l[i].0 != l[j].0);
            } else {
                assert(after[i] == l[i]);
            }
        }
    }
    assert forall|n: Seq<char>| #[trigger]
        bound_map(after).dom().contains(n) == bound_map(l).insert(name, number).dom().contains(
            n,
        ) by {
        if names(after, n) {
            let k = choose|k: int| 0 <= k < after.len() && (#[trigger] after[k]).0 == n;
            if k < l.len() {
                assert(l[k].0 == n);
            }
        }
        if names(l, n) {
            let k = choose|k: int| 0 <= k < l.len() && (#[trigger] l[k]).0 == n;
            assert(after[k].0 == n);
        }
        if n == name {
            assert(after[l.len() as int].0 == n);
        }
    }
    assert forall|n: Seq<char>| bound_map(after).dom().contains(n) implies #[trigger] bound_map(
        after,
    )[n] == bound_map(l).insert(name, number)[n] by {
        let k = choose|k: int| 0 <= k < after.len() && (#[trigger] after[k]).0 == n;
        lemma_bound_map_at(after, k);
        if k < l.len() {
            assert(after[k] == l[k]);
            lemma_bound_map_at(l, k);
        }
    }
    assert(bound_map(after) =~= bound_map(l).insert(name, number));
}

/// Replacing the number of a binding replaces it in the list's map.
pub proof fn lemma_bound_map_update(l: Seq<Bound>, i: int, number: u64)
    requires
        distinct_names(l),
        0 <= i < l.len(),
    ensures
        distinct_names(l.update(i, (l[i].0, number))),
        bound_map(l.update(i, (l[i].0, number))) == bound_map(l).insert(l[i].0, number),
{
    let name = l[i].0;
    let after = l.update(i, (name, number));
    assert(distinct_names(after)) by {
        assert forall|a: int, b: int| 0 <= a < b < after.len() implies (#[trigger] after[a]).0 != (
        #[trigger] after[b]).0 by {
            assert(after[a].0 == l[a].0);
            assert(after[b].0 == l[b].0);
        }
    }
    assert forall|n: Seq<char>| #[trigger]
        bound_map(after).dom().contains(n) == bound_map(l).insert(name, number).dom().contains(
            n,
        ) by {
        if names(after, n) {
            let k = choose|k: int| 0 <= k < after.len() && (#[trigger] after[k]).0 == n;
            assert(l[k].0 == n);
        }
        if names(l, n) {
            let k = choose|k: int| 0 <= k < l.len() && (#[trigger] l[k]).0 == n;
            assert(after[k].0 == n);
        }
        if n == name {
            assert(after[i].0 == n);
        }
    }
    assert forall|n: Seq<char>| bound_map(after).dom().contains(n) implies #[trigger] bound_map(
        after,
    )[n] == bound_map(l).insert(name, number)[n] by {
        let k = choose|k: int| 0 <= k < after.len() && (#[trigger] after[k]).0 == n;
        lemma_bound_map_at(after, k);
        if k != i {
            assert(after[k] == l[k]);
            lemma_bound_map_at(l, k);
        }
    }
    assert(bound_map(after) =~= bound_map(l).insert(name, number));
}

/// The map of a list without repeated names is finite and has one key for
/// each binding.
pub proof fn lemma_bound_map_len(l: Seq<Bound>)
    requires
        distinct_names(l),
    ensures
        bound_map(l).dom().finite(),
        bound_map(l).dom().len() == l.len(),
    decreases l.len(),
{
    if l.len() == 0 {
        assert(bound_map(l).dom() =~= Set::<Seq<char>>::empty());
    } else {
        let front = l.drop_last();
        let last = l.last();
        assert(distinct_names(front)) by {
            assert forall|i: int, j: int| 0 <= i < j < front.len() implies (#[trigger] front[i]).0
                != (#[trigger] front[j]).0 by {
                assert(front[i] == l[i]);
                assert(front[j] == l[j]);
            }
        }
        assert(!names(front, last.0)) by {
            if names(front, last.0) {
                let k = choose|k: int| 0 <= k < front.len() && (#[trigger] front[k]).0 == last.0;
                assert(l[k].0 == l[l.len() - 1].0);
            }
        }
        lemma_bound_map_len(front);
        lemma_bound_map_push(front, last.0, last.1);
        assert(front.push(last) =~= l);
        assert(bound_map(l).dom() =~= bound_map(front).dom().insert(last.0));
    }
}

/// One binding of a table.
pub struct Binding {
    pub name: String,
    pub number: u64,
}

/// A table of names, each bound to one number.
pub struct NameTable {
    bindings: Vec<Binding>,
}

impl View for NameTable {
    type V = Map<Seq<char>, u64>;

    /// The number that each name leads to.
    open spec fn view(&self) -> Map<Seq<char>, u64> {
        bound_map(self.listing())
    }
}

impl NameTable {
    /// The bindings in the order in which their names were first bound.
    pub closed spec fn listing(&self) -> Seq<Bound> {
        self.bindings@.map_values(|b: Binding| (b.name@, b.number))
    }

    /// No name is bound twice.
    pub open spec fn wf(&self) -> bool {
        distinct_names(self.listing())
    }

    /// A table holds no more bindings than memory can.
    pub proof fn lemma_listing_fits(&self)
        ensures
            self.listing().len() <= usize::MAX,
    {
        assert(self.listing().len() == self.bindings.len());
    }

    /// A table without bindings.
    pub fn new() -> (table: NameTable)
        ensures
            table.wf(),
            table.listing() == Seq::<Bound>::empty(),
            table@ == Map::<Seq<char>, u64>::empty(),
    {
        let table = NameTable { bindings: Vec::new() };
        assert(table.listing() =~= Seq::<Bound>::empty());
        assert(table@ =~= Map::<Seq<char>, u64>::empty());
        table
    }

    /// The number of bindings.
    pub fn len(&self) -> (n: usize)
        ensures
            n == self.listing().len(),
    {
        self.bindings.len()
    }

    /// The `i`-th binding, in the order of [`NameTable::listing`].
    pub fn at(&self, i: usize) -> (binding: &Binding)
        requires
            i < self.listing().len(),
        ensures
            (binding.name@, binding.number) == self.listing()[i as int],
    {
        &self.bindings[i]
    }

    /// Where `name` stands in the listing, if it is bound.
    fn position(&self, name: &String) -> (at: Option<usize>)
        ensures
            match at {
                Some(i) => i < self.listing().len() && self.listing()[i as int].0 == name@,
                None => !names(self.listing(), name@),
            },
    {
        let mut i: usize = 0;
        while i < self.bindings.len()
            invariant
                i <= self.bindings.len(),
                forall|j: int| 0 <= j < i ==> (#[trigger] self.listing()[j]).0 != name@,
            decreases self.bindings.len() - i,
        {
            if self.bindings[i].name == *name {
                return Some(i);
            }
            i += 1;
        }
        None
    }

    /// The number that `name` leads to, if `name` is bound.
    pub fn get(&self, name: &String) -> (number: Option<u64>)
        requires
            self.wf(),
        ensures
            number == (if self@.dom().contains(name@) {
                Some(self@[name@])
            } else {
                None
            }),
    {
        match self.position(name) {
            Some(i) => {
                proof {
                    lemma_bound_map_at(self.listing(), i as int);
                }
                Some(self.bindings[i].number)
            },
            None => None,
        }
    }

    /// Binds `name` to `number`, in place of what `name` led to before.
    pub fn insert(&mut self, name: String, number: u64)
        requires
            old(self).wf(),
        ensures
            final(self).wf(),
            final(self)@ == old(self)@.insert(name@, number),
            !old(self)@.dom().contains(name@) ==> final(self).listing() == old(
                self,
            ).listing().push((name@, number)),
            old(self)@.dom().contains(name@) ==> final(self).listing().len() == old(
                self,
            ).listing().len(),
    {
        match self.position(&name) {
            Some(i) => {
                proof {
                    lemma_bound_map_update(self.listing(), i as int, number);
                }
                self.bindings[i].number = number;
                assert(self.listing() =~= old(self).listing().update(i as int, (name@, number)));
            },
            None => {
                proof {
                    lemma_bound_map_push(self.listing(), name@, number);
                }
                self.bindings.push(Binding { name, number });
                assert(self.listing() =~= old(self).listing().push((name@, number)));
            },
        }
    }
}

} // verus!
