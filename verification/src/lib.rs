//! A generic doubly linked list whose nodes may be referred to from outside
//! the list itself.
//!
//! Nodes live in an arena owned by the [`List`]; a [`Handle`] is a stable
//! reference to one node. Several holders may keep handles to the same node,
//! and a node that has been unlinked from the list stays readable through any
//! handle that still refers to it. All structural mutation goes through the
//! [`List`] methods, which maintain the list's invariants: head and tail are
//! both present or both absent, forward links and backward links mirror each
//! other, and the chain from head to tail is a simple path.

use vstd::prelude::*;

verus! {

/// A shared reference to a node of a [`List`].
///
/// A handle names a node by its stable slot in the list's arena. Handles are
/// freely copyable; two handles are equal exactly when they refer to the same
/// node (reference identity, not value equality). A handle stays usable for
/// reading its node's value even after the node has been removed from the
/// list.
#[derive(Clone, Copy, PartialEq, Eq, Structural, Debug)]
pub struct Handle {
    index: usize,
}

/// A single list element: a value together with links to its two neighbours.
pub struct Node<T> {
    value: T,
    prev: Option<Handle>,
    next: Option<Handle>,
}

impl<T> Node<T> {
    /// The stored value, at the specification level.
    pub closed spec fn spec_value(&self) -> T {
        self.value
    }

    /// The backward link, at the specification level.
    pub closed spec fn spec_prev(&self) -> Option<Handle> {
        self.prev
    }

    /// The forward link, at the specification level.
    pub closed spec fn spec_next(&self) -> Option<Handle> {
        self.next
    }

    /// Creates a detached node holding `value`, linked to no neighbours.
    pub fn new(value: T) -> (n: Node<T>)
        ensures
            n.spec_value() == value,
            n.spec_prev() is None,
            n.spec_next() is None,
    {
        Node { value, prev: None, next: None }
    }

    /// Returns the stored value by shared reference; the node is not changed.
    pub fn value(&self) -> (r: &T)
        ensures
            *r == self.spec_value(),
    {
        &self.value
    }

    /// Returns the handle of the previous node, or `None` at the front.
    pub fn prev(&self) -> (r: Option<Handle>)
        ensures
            r == self.spec_prev(),
    {
        self.prev
    }

    /// Returns the handle of the next node, or `None` at the back.
    pub fn next(&self) -> (r: Option<Handle>)
        ensures
            r == self.spec_next(),
    {
        self.next
    }

    /// Overwrites the forward link. No validation happens here: the caller
    /// (normally [`List`]) is responsible for keeping links mirrored.
    pub fn set_next(&mut self, next: Option<Handle>)
        ensures
            final(self).spec_next() == next,
            final(self).spec_prev() == old(self).spec_prev(),
            final(self).spec_value() == old(self).spec_value(),
    {
        self.next = next;
    }

    /// Overwrites the backward link. No validation happens here: the caller
    /// (normally [`List`]) is responsible for keeping links mirrored.
    pub fn set_prev(&mut self, prev: Option<Handle>)
        ensures
            final(self).spec_prev() == prev,
            final(self).spec_next() == old(self).spec_next(),
            final(self).spec_value() == old(self).spec_value(),
    {
        self.prev = prev;
    }

    /// Installs a new forward link and returns whatever link was there
    /// before, for use in relinking sequences.
    pub fn replace_next_and_retrieve(&mut self, next: Handle) -> (r: Option<Handle>)
        ensures
            r == old(self).spec_next(),
            final(self).spec_next() == Some(next),
            final(self).spec_prev() == old(self).spec_prev(),
            final(self).spec_value() == old(self).spec_value(),
    {
        let old_next = self.next;
        self.next = Some(next);
        old_next
    }

    /// Installs a new backward link and returns whatever link was there
    /// before, for use in relinking sequences.
    pub fn replace_prev_and_retrieve(&mut self, prev: Handle) -> (r: Option<Handle>)
        ensures
            r == old(self).spec_prev(),
            final(self).spec_prev() == Some(prev),
            final(self).spec_next() == old(self).spec_next(),
            final(self).spec_value() == old(self).spec_value(),
    {
        let old_prev = self.prev;
        self.prev = Some(prev);
        old_prev
    }
}

/// The owning container: an arena of nodes together with the handles of the
/// first and last node of the chain.
///
/// The ghost field `chain` records the handles of the nodes that are in the
/// list, in list order, from head to tail. Slots of the arena are never
/// reused: a removed node stays in its slot, unreachable from the chain but
/// still readable through any surviving handle.
pub struct List<T> {
    nodes: Vec<Node<T>>,
    head: Option<Handle>,
    tail: Option<Handle>,
    chain: Ghost<Seq<Handle>>,
}

impl<T> List<T> {
    /// The handles of the nodes that are in the list, in list order.
    pub closed spec fn handles(&self) -> Seq<Handle> {
        self.chain@
    }

    /// Whether `h` refers to a node of this list's arena (in the chain or
    /// removed from it). Every handle this list has ever given out is valid.
    pub closed spec fn valid_handle(&self, h: Handle) -> bool {
        h.index < self.nodes@.len()
    }

    /// The node `h` refers to.
    pub closed spec fn node_of(&self, h: Handle) -> Node<T>
        recommends
            self.valid_handle(h),
    {
        self.nodes@[h.index as int]
    }

    /// The value stored in the node `h` refers to.
    pub open spec fn value_of(&self, h: Handle) -> T
        recommends
            self.valid_handle(h),
    {
        self.node_of(h).spec_value()
    }

    /// The forward link of the node `h` refers to.
    pub open spec fn next_of(&self, h: Handle) -> Option<Handle>
        recommends
            self.valid_handle(h),
    {
        self.node_of(h).spec_next()
    }

    /// The backward link of the node `h` refers to.
    pub open spec fn prev_of(&self, h: Handle) -> Option<Handle>
        recommends
            self.valid_handle(h),
    {
        self.node_of(h).spec_prev()
    }

    /// The handle of the first node, at the specification level.
    pub closed spec fn spec_head(&self) -> Option<Handle> {
        self.head
    }

    /// The handle of the last node, at the specification level.
    pub closed spec fn spec_tail(&self) -> Option<Handle> {
        self.tail
    }

    /// Whether `h` refers to a node that is currently in the list.
    pub open spec fn contains_handle(&self, h: Handle) -> bool {
        self.handles().contains(h)
    }

    /// The position of `h` in the chain.
    pub open spec fn position_of(&self, h: Handle) -> int
        recommends
            self.contains_handle(h),
    {
        self.handles().index_of(h)
    }

    /// Every link stored in the slot `n` stays inside the arena.
    spec fn links_in_range(&self, n: Node<T>) -> bool {
        &&& (n.spec_prev() matches Some(p) ==> self.valid_handle(p))
        &&& (n.spec_next() matches Some(q) ==> self.valid_handle(q))
    }

    /// Well-formedness: the structural invariants of the list.
    ///
    /// - every chain member is a valid handle, and no handle occurs twice
    ///   (the chain is a simple path, not cyclic, not branching);
    /// - head is the first chain member and tail the last, or both are
    ///   absent when the list is empty;
    /// - the backward link of the node at position `k` is the handle at
    ///   `k - 1` (absent for the head), and the forward link is the handle
    ///   at `k + 1` (absent for the tail), so forward and backward links
    ///   mirror each other;
    /// - every link stored anywhere in the arena, including in removed
    ///   nodes, stays inside the arena.
    pub closed spec fn wf(&self) -> bool {
        let c = self.chain@;
        &&& forall|k: int| 0 <= k < c.len() ==> self.valid_handle(#[trigger] c[k])
        &&& c.no_duplicates()
        &&& self.head == (if c.len() == 0 { None::<Handle> } else { Some(c[0]) })
        &&& self.tail == (if c.len() == 0 { None::<Handle> } else { Some(c[c.len() - 1]) })
        &&& forall|k: int| 0 <= k < c.len() ==> self.node_of(#[trigger] c[k]).spec_prev()
                == (if k == 0 { None::<Handle> } else { Some(c[k - 1]) })
        &&& forall|k: int| 0 <= k < c.len() ==> self.node_of(#[trigger] c[k]).spec_next()
                == (if k == c.len() - 1 { None::<Handle> } else { Some(c[k + 1]) })
        &&& forall|i: int| 0 <= i < self.nodes@.len() ==> self.links_in_range(
            #[trigger] self.nodes@[i],
        )
    }

    /// Returns an empty list.
    pub fn new() -> (l: List<T>)
        ensures
            l.wf(),
            l@.len() == 0,
            l.handles().len() == 0,
            l.spec_head() is None,
            l.spec_tail() is None,
    {
        List { nodes: Vec::new(), head: None, tail: None, chain: Ghost(Seq::empty()) }
    }

    /// Returns the handle of the first node, or `None` if the list is empty.
    pub fn head(&self) -> (r: Option<Handle>)
        ensures
            r == self.spec_head(),
            self.wf() ==> r == (if self.handles().len() == 0 {
                None::<Handle>
            } else {
                Some(self.handles()[0])
            }),
    {
        self.head
    }

    /// Returns the handle of the last node, or `None` if the list is empty.
    pub fn tail(&self) -> (r: Option<Handle>)
        ensures
            r == self.spec_tail(),
            self.wf() ==> r == (if self.handles().len() == 0 {
                None::<Handle>
            } else {
                Some(self.handles().last())
            }),
    {
        self.tail
    }

    /// Returns a shared reference to the node `h` refers to. This is how a
    /// handle is read; it works for nodes in the list and for removed nodes
    /// whose handles survive.
    pub fn node(&self, h: Handle) -> (n: &Node<T>)
        requires
            self.valid_handle(h),
        ensures
            *n == self.node_of(h),
    {
        &self.nodes[h.index]
    }

    /// Returns the value of the first node, or `None` if the list is empty.
    pub fn head_value(&self) -> (r: Option<&T>)
        requires
            self.wf(),
        ensures
            match r {
                None => self@.len() == 0,
                Some(v) => self@.len() > 0 && *v == self@[0],
            },
    {
        match self.head {
            None => None,
            Some(h) => {
                proof {
                    assert(self.chain@[0] == h);
                }
                Some(self.nodes[h.index].value())
            },
        }
    }

    /// Appends a new node holding `value` after the current tail (or installs
    /// it as the sole head and tail of an empty list), and makes it the new
    /// tail. Always succeeds.
    ///
    /// Every handle given out earlier stays valid and keeps its value, so
    /// appending never disturbs outstanding handles.
    pub fn push_back(&mut self, value: T)
        requires
            old(self).wf(),
        ensures
            final(self).wf(),
            final(self)@ == old(self)@.push(value),
            final(self).handles().len() == old(self).handles().len() + 1,
            final(self).handles().drop_last() == old(self).handles(),
            final(self).spec_tail() == Some(final(self).handles().last()),
            !old(self).handles().contains(final(self).handles().last()),
            final(self).value_of(final(self).handles().last()) == value,
            final(self).spec_head() == (if old(self).handles().len() == 0 {
                final(self).spec_tail()
            } else {
                old(self).spec_head()
            }),
            forall|h: Handle|
                old(self).valid_handle(h) ==> #[trigger] final(self).valid_handle(h)
                    && final(self).value_of(h) == old(self).value_of(h),
    {
        let idx = self.nodes.len();
        let nh = Handle { index: idx };
        let mut node = Node::new(value);
        match self.tail {
            Some(t) => {
                proof {
                    assert(self.chain@[self.chain@.len() - 1] == t);
                }
                node.set_prev(Some(t));
                self.nodes.push(node);
                let tn = &mut self.nodes[t.index];
                tn.set_next(Some(nh));
                self.tail = Some(nh);
            },
            None => {
                self.nodes.push(node);
                self.head = Some(nh);
                self.tail = Some(nh);
            },
        }
        proof {
            let old_chain = self.chain@;
            self.chain@ = self.chain@.push(nh);
            assert forall|k: int| 0 <= k < old_chain.len() implies self.node_of(
                #[trigger] old_chain[k],
            ) == old(self).node_of(old_chain[k]) || (old(self).handles().len() > 0 && k
                == old_chain.len() - 1) by {
                if old(self).handles().len() > 0 && old_chain[k] == old_chain[old_chain.len()
                    - 1] {
                    assert(k == old_chain.len() - 1);
                }
            }
            assert(final(self)@ =~= old(self)@.push(value));
            assert(final(self).handles().drop_last() =~= old(self).handles());
        }
    }

    /// Removes from the list the node that `node` refers to, found by
    /// scanning forward from the head and comparing handle identity (never
    /// value equality). The node is unlinked — its neighbours are joined, and
    /// head or tail move when the node was at an end — and its own handle is
    /// returned. The removed node is not destroyed: the returned handle, and
    /// any other surviving handle to it, still reads its original value.
    ///
    /// If `node` is `None`, or the scan reaches the end of the list without
    /// an identity match (the handle is dangling, foreign, or was removed
    /// already), the list is left completely unchanged and `None` is
    /// returned; a malformed call degrades to a no-op.
    #[verifier::rlimit(100)]
    pub fn remove(&mut self, node: Option<Handle>) -> (r: Option<Handle>)
        requires
            old(self).wf(),
        ensures
            final(self).wf(),
            (match node {
                None => r is None && *final(self) == *old(self),
                Some(h) => (if old(self).contains_handle(h) {
                    let k = old(self).position_of(h);
                    &&& r == Some(h)
                    &&& 0 <= k < old(self).handles().len()
                    &&& old(self).handles()[k] == h
                    &&& final(self).handles() == old(self).handles().remove(k)
                    &&& final(self)@ == old(self)@.remove(k)
                    &&& !final(self).contains_handle(h)
                    &&& final(self).valid_handle(h)
                    &&& final(self).value_of(h) == old(self).value_of(h)
                } else {
                    r is None && *final(self) == *old(self)
                }),
            }),
            forall|h2: Handle|
                old(self).valid_handle(h2) ==> #[trigger] final(self).valid_handle(h2)
                    && final(self).value_of(h2) == old(self).value_of(h2),
    {
        let h = match node {
            None => {
                return None;
            },
            Some(h) => h,
        };
        if !self.scan(h) {
            return None;
        }
        let ghost c = self.chain@;
        let ghost k = c.index_of(h);
        proof {
            assert(c.contains(h));
            assert(0 <= k < c.len() && c[k] == h);
        }
        let node_prev = self.nodes[h.index].prev();
        let node_next = self.nodes[h.index].next();
        match node_prev {
            Some(p) => {
                proof {
                    assert(self.node_of(c[k]).spec_prev() == Some(p));
                    assert(k > 0 && c[k - 1] == p);
                }
                let pn = &mut self.nodes[p.index];
                pn.set_next(node_next);
            },
            None => {
                self.head = node_next;
            },
        }
        match node_next {
            Some(nx) => {
                proof {
                    assert(old(self).node_of(c[k]).spec_next() == Some(nx));
                    assert(k < c.len() - 1 && c[k + 1] == nx);
                }
                let xn = &mut self.nodes[nx.index];
                xn.set_prev(node_prev);
            },
            None => {
                self.tail = node_prev;
            },
        }
        proof {
            self.chain@ = c.remove(k);
            let pre = *old(self);
            let c2 = c.remove(k);
            assert(c2.len() == c.len() - 1);
            assert forall|j: int| 0 <= j < c2.len() implies #[trigger] c2[j] == (if j < k {
                c[j]
            } else {
                c[j + 1]
            }) by {}
            // the links stored in the removed node stay inside the arena
            assert(pre.links_in_range(pre.nodes@[h.index as int]));
            // only the links of the two neighbours were rewritten; every value
            // in the arena is untouched
            assert forall|i: int|
                0 <= i < self.nodes@.len() implies (#[trigger] self.nodes@[i]).spec_value()
                == pre.nodes@[i].spec_value() by {}
            assert forall|i: int|
                0 <= i < self.nodes@.len() && (k == 0 || i != c[k - 1].index) && (k == c.len() - 1
                    || i != c[k + 1].index) implies #[trigger] self.nodes@[i] == pre.nodes@[i] by {}
            // chain members are pairwise distinct slots
            assert forall|j1: int, j2: int|
                0 <= j1 < c.len() && 0 <= j2 < c.len() && j1 != j2 implies c[j1].index
                != c[j2].index by {
                assert(c[j1] != c[j2]);
            }
            assert(c2.no_duplicates());
            // the mirrored-link conditions hold at every remaining position
            assert forall|j: int|
                0 <= j < c2.len() implies self.node_of(#[trigger] c2[j]).spec_prev() == (if j == 0 {
                None::<Handle>
            } else {
                Some(c2[j - 1])
            }) && self.node_of(c2[j]).spec_next() == (if j == c2.len() - 1 {
                None::<Handle>
            } else {
                Some(c2[j + 1])
            }) by {}
            assert(self.wf());
            assert(final(self)@ =~= old(self)@.remove(k));
            assert(final(self).handles() == old(self).handles().remove(k));
            assert forall|j: int| 0 <= j < c2.len() implies #[trigger] c2[j] != h by {
                if j < k {
                    assert(c2[j] == c[j]);
                } else {
                    assert(c2[j] == c[j + 1]);
                }
            }
            assert(!final(self).contains_handle(h));
        }
        Some(h)
    }

    /// Returns a cursor positioned at the current head; stepping it visits
    /// the whole list in order.
    pub fn iter(&self) -> (it: NodeIterator)
        ensures
            it.spec_current() == self.spec_head(),
            self.wf() ==> it.valid_for(self),
    {
        proof {
            if self.wf() && self.chain@.len() > 0 {
                assert(self.valid_handle(self.chain@[0]));
            }
        }
        NodeIterator { current: self.head }
    }

    /// Scans forward from the head, comparing handle identity, and reports
    /// whether `h` refers to a node that is currently in the list.
    fn scan(&self, h: Handle) -> (found: bool)
        requires
            self.wf(),
        ensures
            found == self.contains_handle(h),
    {
        let ghost c = self.chain@;
        let mut cur_opt = self.head;
        let ghost mut k: int = 0;
        loop
            invariant
                self.wf(),
                c == self.chain@,
                0 <= k <= c.len(),
                cur_opt == (if k < c.len() {
                    Some(c[k])
                } else {
                    None::<Handle>
                }),
                forall|j: int| 0 <= j < k ==> c[j] != h,
            decreases c.len() - k,
        {
            let cc = match cur_opt {
                None => {
                    proof {
                        assert(!c.contains(h));
                    }
                    return false;
                },
                Some(cc) => cc,
            };
            if cc == h {
                proof {
                    assert(c.contains(h));
                }
                return true;
            }
            proof {
                assert(self.valid_handle(cc));
            }
            cur_opt = self.nodes[cc.index].next();
            proof {
                k = k + 1;
            }
        }
    }
}

impl<T> View for List<T> {
    type V = Seq<T>;

    /// The mathematical content of the list: the values of the chain's
    /// nodes, in list order.
    open spec fn view(&self) -> Seq<T> {
        Seq::new(self.handles().len(), |k: int| self.value_of(self.handles()[k]))
    }
}

/// A forward-only cursor over a chain of nodes, yielding one handle per step
/// and following `next` links until they run out.
///
/// The cursor holds its own handle into the chain: it advances by reading the
/// current node's `next` link at the time of the step. If a node ahead of the
/// cursor is removed from the list before the cursor reaches it, the cursor
/// still visits that node through its surviving handle and then follows the
/// node's remaining links — a snapshot-as-you-go model, not strict
/// consistency with the live list.
pub struct NodeIterator {
    current: Option<Handle>,
}

impl NodeIterator {
    /// The handle the cursor will yield next, at the specification level.
    pub closed spec fn spec_current(&self) -> Option<Handle> {
        self.current
    }

    /// Whether the cursor can step through `list`: its position, if any,
    /// refers to a node of `list`'s arena.
    pub open spec fn valid_for<T>(&self, list: &List<T>) -> bool {
        match self.spec_current() {
            Some(h) => list.valid_handle(h),
            None => true,
        }
    }

    /// Creates a cursor positioned at `start` (any node handle, or `None`
    /// for an exhausted cursor).
    pub fn new(start: Option<Handle>) -> (it: NodeIterator)
        ensures
            it.spec_current() == start,
    {
        NodeIterator { current: start }
    }

    /// Yields the handle at the cursor's position and advances the cursor
    /// along the node's `next` link; yields `None` forever once the chain is
    /// exhausted.
    ///
    /// When the cursor stands on the node at position `k` of the list's
    /// chain, it yields that handle and moves to position `k + 1` (or to the
    /// end), so a cursor started at the head visits the whole list in order.
    pub fn next<T>(&mut self, list: &List<T>) -> (r: Option<Handle>)
        requires
            list.wf(),
            old(self).valid_for(list),
        ensures
            r == old(self).spec_current(),
            final(self).spec_current() == (match old(self).spec_current() {
                Some(h) => list.next_of(h),
                None => None::<Handle>,
            }),
            final(self).valid_for(list),
            (match old(self).spec_current() {
                Some(h) => list.contains_handle(h) ==> {
                    let k = list.position_of(h);
                    final(self).spec_current() == (if k + 1 < list.handles().len() {
                        Some(list.handles()[k + 1])
                    } else {
                        None::<Handle>
                    })
                },
                None => true,
            }),
    {
        let cur = self.current;
        match cur {
            None => None,
            Some(h) => {
                self.current = list.nodes[h.index].next();
                proof {
                    assert(list.links_in_range(list.nodes@[h.index as int]));
                    if list.contains_handle(h) {
                        let c = list.handles();
                        let k = c.index_of(h);
                        assert(0 <= k < c.len() && c[k] == h);
                        assert(list.node_of(c[k]).spec_next() == (if k == c.len() - 1 {
                            None::<Handle>
                        } else {
                            Some(c[k + 1])
                        }));
                    }
                }
                cur
            },
        }
    }
}

/// In a duplicate-free sequence an element occurs at one position only.
proof fn lemma_no_duplicates_index_unique<A>(s: Seq<A>, i: int, j: int)
    requires
        s.no_duplicates(),
        0 <= i < s.len(),
        0 <= j < s.len(),
        s[i] == s[j],
    ensures
        i == j,
{
}

/// Law: the structural invariants of a well-formed list, stated explicitly.
/// They hold after every public operation returns, since every operation
/// requires and re-establishes `wf`.
///
/// - the view has one value per chain member, the value of the node at that
///   position;
/// - head and tail are both absent exactly when the list is empty, and
///   otherwise they are the first and the last handle of the chain;
/// - the head has no predecessor and the tail no successor;
/// - following `next` from the handle at position `k` leads to the handle at
///   position `k + 1` and stops after the tail, and `prev` mirrors it
///   exactly, so a forward walk from the head and a backward walk from the
///   tail cross the same nodes, in opposite orders, in the same number of
///   steps;
/// - no handle occurs twice in the chain: the list is a simple path, not
///   cyclic, not branching.
pub proof fn lemma_list_invariants<T>(l: &List<T>)
    requires
        l.wf(),
    ensures
        l@.len() == l.handles().len(),
        forall|k: int| 0 <= k < l.handles().len() ==> l@[k] == l.value_of(#[trigger] l.handles()[k]),
        (l.spec_head() is None <==> l@.len() == 0),
        (l.spec_tail() is None <==> l@.len() == 0),
        l@.len() > 0 ==> l.spec_head() == Some(l.handles()[0]) && l.spec_tail() == Some(
            l.handles().last(),
        ),
        l@.len() > 0 ==> l.prev_of(l.handles()[0]) is None,
        l@.len() > 0 ==> l.next_of(l.handles().last()) is None,
        forall|k: int| 0 <= k < l.handles().len() ==> l.valid_handle(#[trigger] l.handles()[k]),
        forall|k: int|
            0 <= k < l.handles().len() ==> #[trigger] l.next_of(l.handles()[k]) == (if k + 1
                < l.handles().len() {
                Some(l.handles()[k + 1])
            } else {
                None::<Handle>
            }),
        forall|k: int|
            0 <= k < l.handles().len() ==> #[trigger] l.prev_of(l.handles()[k]) == (if k == 0 {
                None::<Handle>
            } else {
                Some(l.handles()[k - 1])
            }),
        l.handles().no_duplicates(),
{
}

/// Law: back-links are the mirror of forward links. If the node at position
/// `k1` of the chain links forward to the handle at position `k2`, then the
/// two positions are adjacent and the node at `k2` links backward to the
/// handle at `k1`.
pub proof fn lemma_mirrored_links<T>(l: &List<T>, k1: int, k2: int)
    requires
        l.wf(),
        0 <= k1 < l.handles().len(),
        0 <= k2 < l.handles().len(),
        l.next_of(l.handles()[k1]) == Some(l.handles()[k2]),
    ensures
        k2 == k1 + 1,
        l.prev_of(l.handles()[k2]) == Some(l.handles()[k1]),
{
    lemma_no_duplicates_index_unique(l.handles(), k2, k1 + 1);
}

/// Law: a list with exactly one element has equal head and tail handles.
pub proof fn lemma_single_element<T>(l: &List<T>)
    requires
        l.wf(),
        l@.len() == 1,
    ensures
        l.spec_head() is Some,
        l.spec_head() == l.spec_tail(),
{
}

/// Law: observation is idempotent. The results of `head` and `tail` are
/// pinned to a function of the list alone, and any value satisfying
/// `head_value`'s contract is pinned to the first element of the view, so
/// repeated observation without intervening mutation returns equal results.
pub proof fn lemma_observation_idempotent<T>(
    l: &List<T>,
    h1: Option<Handle>,
    h2: Option<Handle>,
    v1: Option<T>,
    v2: Option<T>,
)
    requires
        h1 == l.spec_head(),
        h2 == l.spec_head(),
        (match v1 {
            None => l@.len() == 0,
            Some(x) => l@.len() > 0 && x == l@[0],
        }),
        (match v2 {
            None => l@.len() == 0,
            Some(x) => l@.len() > 0 && x == l@[0],
        }),
    ensures
        h1 == h2,
        v1 == v2,
{
}


} // verus!
