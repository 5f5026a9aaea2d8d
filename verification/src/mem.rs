use vstd::prelude::*;
use vstd::std_specs::cmp::PartialEqSpec;

use crate::element::Element;

verus! {

/// Failure of an arena operation: a referenced slot does not exist, or a
/// node was about to receive a second parent.
#[derive(Debug, Clone, Copy, PartialEq, Eq, Structural)]
pub enum MemError {
    UndefinedNode(usize),
    ParentAlreadyDefined(usize),
}

/// The abstract content of one arena slot.
pub struct NodeModel<T> {
    pub idx: int,
    pub val: T,
    pub parent: Option<int>,
    pub children: Seq<int>,
}

/// One slot of the arena: a value, the recorded index, an optional parent
/// link and the links to the children, all by position in the arena.
#[derive(Debug)]
pub struct Node<T> {
    idx: usize,
    val: T,
    parent: Option<usize>,
    children: Vec<usize>,
}

impl<T> View for Node<T> {
    type V = NodeModel<T>;

    closed spec fn view(&self) -> NodeModel<T> {
        NodeModel {
            idx: self.idx as int,
            val: self.val,
            parent: match self.parent {
                Option::Some(p) => Option::Some(p as int),
                Option::None => Option::None,
            },
            children: Seq::new(
                self.children@.len(),
                |i: int|
                    if 0 <= i < self.children@.len() {
                        self.children@[i] as int
                    } else {
                        0
                    },
            ),
        }
    }
}

impl<T> Node<T> {
    pub fn new(idx: usize, val: T) -> (r: Self)
        ensures
            r@.idx == idx as int,
            r@.val == val,
            r@.parent is None,
            r@.children == Seq::<int>::empty(),
    {
        let r = Node { idx, val, parent: Option::None, children: Vec::new() };
        proof {
            assert(r@.children =~= Seq::<int>::empty());
        }
        r
    }

    fn new_with_parent(idx: usize, val: T, parent: Option<usize>) -> (r: Self)
        ensures
            r@.idx == idx as int,
            r@.val == val,
            r@.parent == match parent {
                Option::Some(p) => Option::Some(p as int),
                Option::None => Option::None,
            },
            r@.children == Seq::<int>::empty(),
    {
        let r = Node { idx, val, parent, children: Vec::new() };
        proof {
            assert(r@.children =~= Seq::<int>::empty());
        }
        r
    }

    pub fn val(&self) -> (r: &T)
        ensures
            *r == self@.val,
    {
        &self.val
    }
}

/// A flat, growable, append-only store of nodes linked by index. The tree
/// of one frame lives entirely in this arena; nodes are never removed one
/// by one, the whole store is cleared between frames.
pub struct ArenaTree<T> {
    arena: Vec<Node<T>>,
}

impl<T> View for ArenaTree<T> {
    type V = Seq<NodeModel<T>>;

    closed spec fn view(&self) -> Seq<NodeModel<T>> {
        Seq::new(
            self.arena@.len(),
            |i: int|
                if 0 <= i < self.arena@.len() {
                    self.arena@[i]@
                } else {
                    arbitrary()
                },
        )
    }
}

/// Every child link points strictly forward: a node's children sit in
/// later slots than the node itself. Trees grown solely by `insert_node`
/// have this shape, which bounds the depth of any walk by the arena size.
pub open spec fn forward_linked<T>(s: Seq<NodeModel<T>>) -> bool {
    forall|i: int, j: int|
        0 <= i < s.len() && 0 <= j < s[i].children.len() ==> #[trigger] s[i].children[j] > i
}

impl<T> ArenaTree<T> {
    /// Every link stored in the arena points at an existing slot, and every
    /// node's recorded index is the slot it sits in: indices are handed out
    /// fresh and never reused within one tree.
    pub closed spec fn wf(&self) -> bool {
        forall|i: int|
            0 <= i < self@.len() ==> {
                &&& (#[trigger] self@[i]).idx == i
                &&& (self@[i].parent matches Option::Some(p) ==> 0 <= p < self@.len())
                &&& (forall|j: int|
                    0 <= j < self@[i].children.len() ==> 0 <= #[trigger] self@[i].children[j]
                        < self@.len())
            }
    }

    pub fn new() -> (r: Self)
        ensures
            r@.len() == 0,
            r.wf(),
    {
        ArenaTree { arena: Vec::new() }
    }

    pub fn clear(&mut self)
        ensures
            final(self)@.len() == 0,
            final(self).wf(),
    {
        self.arena.clear();
    }

    pub fn len(&self) -> (r: usize)
        ensures
            r == self@.len(),
    {
        self.arena.len()
    }

    /// How many children a node has.
    pub fn get_nb_children(&self, idx: usize) -> (r: Option<usize>)
        ensures
            r is Some <==> idx < self@.len(),
            r matches Some(n) ==> n == self@[idx as int].children.len(),
    {
        match self.arena.get(idx) {
            Option::Some(node) => Option::Some(node.children.len()),
            Option::None => Option::None,
        }
    }

    /// The indices of a node's children, in insertion order.
    pub fn get_children_idx(&self, parent_idx: usize) -> (r: Option<Vec<usize>>)
        requires
            self.wf(),
        ensures
            r is Some <==> parent_idx < self@.len(),
            r matches Some(v) ==> {
                &&& v@.len() == self@[parent_idx as int].children.len()
                &&& forall|i: int|
                    0 <= i < v@.len() ==> (#[trigger] v@[i]) as int
                        == self@[parent_idx as int].children[i] && (v@[i] as int) < self@.len()
            },
    {
        if parent_idx >= self.arena.len() {
            return Option::None;
        }
        let kids = &self.arena[parent_idx].children;
        let mut out: Vec<usize> = Vec::new();
        let mut i: usize = 0;
        while i < kids.len()
            invariant
                self.wf(),
                parent_idx < self@.len(),
                kids@ == self.arena@[parent_idx as int].children@,
                kids@.len() == self@[parent_idx as int].children.len(),
                forall|j: int|
                    0 <= j < kids@.len() ==> #[trigger] (kids@[j] as int)
                        == self@[parent_idx as int].children[j],
                i <= kids@.len(),
                out@.len() == i,
                forall|j: int|
                    0 <= j < i ==> (#[trigger] out@[j]) as int
                        == self@[parent_idx as int].children[j] && (out@[j] as int) < self@.len(),
            decreases kids@.len() - i,
        {
            let c = kids[i];
            proof {
                assert(0 <= self@[parent_idx as int].children[i as int] < self@.len());
            }
            out.push(c);
            i += 1;
        }
        Option::Some(out)
    }

    pub fn get_val(&self, idx: usize) -> (r: Option<&T>)
        ensures
            r is Some <==> idx < self@.len(),
            r matches Some(v) ==> *v == self@[idx as int].val,
    {
        match self.arena.get(idx) {
            Option::Some(node) => Option::Some(&node.val),
            Option::None => Option::None,
        }
    }

    /// The values of a node's children, in insertion order.
    pub fn get_children_val(&self, parent_idx: usize) -> (r: Option<Vec<&T>>)
        requires
            self.wf(),
        ensures
            r is Some <==> parent_idx < self@.len(),
            r matches Some(v) ==> {
                &&& v@.len() == self@[parent_idx as int].children.len()
                &&& forall|i: int|
                    0 <= i < v@.len() ==> *(#[trigger] v@[i])
                        == self@[self@[parent_idx as int].children[i]].val
            },
    {
        if parent_idx >= self.arena.len() {
            return Option::None;
        }
        let kids = &self.arena[parent_idx].children;
        let mut out: Vec<&T> = Vec::new();
        let mut i: usize = 0;
        while i < kids.len()
            invariant
                self.wf(),
                parent_idx < self@.len(),
                kids@ == self.arena@[parent_idx as int].children@,
                kids@.len() == self@[parent_idx as int].children.len(),
                forall|j: int|
                    0 <= j < kids@.len() ==> #[trigger] (kids@[j] as int)
                        == self@[parent_idx as int].children[j],
                i <= kids@.len(),
                out@.len() == i,
                forall|j: int|
                    0 <= j < i ==> *(#[trigger] out@[j])
                        == self@[self@[parent_idx as int].children[j]].val,
            decreases kids@.len() - i,
        {
            let c = kids[i];
            assert(0 <= self@[parent_idx as int].children[i as int] < self@.len());
            out.push(&self.arena[c].val);
            i += 1;
        }
        Option::Some(out)
    }

    /// The first slot whose value equals `val`, scanning from the start.
    pub fn find(&self, val: &T) -> (r: Option<usize>) where T: PartialEq
        requires
            T::obeys_eq_spec(),
        ensures
            r matches Some(i) ==> {
                &&& i < self@.len()
                &&& self@[i as int].val.eq_spec(val)
                &&& forall|j: int| 0 <= j < i ==> !(#[trigger] self@[j]).val.eq_spec(val)
            },
            r is None ==> forall|j: int|
                0 <= j < self@.len() ==> !(#[trigger] self@[j]).val.eq_spec(val),
    {
        let n = self.arena.len();
        let mut i: usize = 0;
        while i < n
            invariant
                T::obeys_eq_spec(),
                n == self@.len(),
                i <= n,
                forall|j: int| 0 <= j < i ==> !(#[trigger] self@[j]).val.eq_spec(val),
            decreases n - i,
        {
            if self.arena[i].val == *val {
                return Option::Some(i);
            }
            i += 1;
        }
        Option::None
    }

    /// Same scan as `find`, taking the probe value by move.
    pub fn set(&self, val: T) -> (r: Option<usize>) where T: PartialEq
        requires
            T::obeys_eq_spec(),
        ensures
            r matches Some(i) ==> {
                &&& i < self@.len()
                &&& self@[i as int].val.eq_spec(&val)
                &&& forall|j: int| 0 <= j < i ==> !(#[trigger] self@[j]).val.eq_spec(&val)
            },
            r is None ==> forall|j: int|
                0 <= j < self@.len() ==> !(#[trigger] self@[j]).val.eq_spec(&val),
    {
        self.find(&val)
    }

    fn node_exists(&self, idx: usize) -> (r: bool)
        ensures
            r == (idx < self@.len()),
    {
        idx < self.arena.len()
    }

    /// Appends a node holding `val` under a fresh index - the next free
    /// slot, so indices are never reused within one tree; with a parent
    /// given, the new index is also appended to the parent's child list.
    /// Fails exactly when the parent slot does not exist.
    pub fn insert_node(&mut self, val: T, parent_idx: Option<usize>) -> (r: Result<
        usize,
        MemError,
    >)
        requires
            old(self).wf(),
        ensures
            final(self).wf(),
            r matches Err(e) ==> {
                &&& parent_idx matches Some(p) && p >= old(self)@.len() && e == MemError::UndefinedNode(p)
                &&& final(self)@ == old(self)@
            },
            r matches Ok(idx) ==> {
                &&& (parent_idx matches Some(p) ==> p < old(self)@.len())
                &&& idx == old(self)@.len()
                &&& final(self)@.len() == old(self)@.len() + 1
                &&& final(self)@.last().val == val
                &&& final(self)@.last().idx == idx as int
                &&& final(self)@.last().children == Seq::<int>::empty()
                &&& final(self)@.last().parent == match parent_idx {
                    Option::Some(p) => Option::Some(p as int),
                    Option::None => Option::None,
                }
                &&& (match parent_idx {
                    Option::Some(p) => {
                        &&& final(self)@[p as int].children == old(self)@[p as int].children.push(
                            idx as int,
                        )
                        &&& final(self)@[p as int].idx == old(self)@[p as int].idx
                        &&& final(self)@[p as int].val == old(self)@[p as int].val
                        &&& final(self)@[p as int].parent == old(self)@[p as int].parent
                        &&& forall|i: int|
                            0 <= i < old(self)@.len() && i != p ==> final(self)@[i] == old(self)@[i]
                    },
                    Option::None => forall|i: int|
                        0 <= i < old(self)@.len() ==> final(self)@[i] == old(self)@[i],
                })
            },
            forward_linked(old(self)@) ==> forward_linked(final(self)@),
    {
        let ghost s0 = self@;
        // If we provide a parent, make sure it exists
        if let Option::Some(p) = parent_idx {
            if !self.node_exists(p) {
                return Result::Err(MemError::UndefinedNode(p));
            }
        }
        let node_idx = self.arena.len();
        self.arena.push(Node::new_with_parent(node_idx, val, parent_idx));
        proof {
            assert(self@.len() == s0.len() + 1);
            assert forall|i: int| 0 <= i < s0.len() implies self@[i] == s0[i] by {
                assert(self.arena@[i] == self.arena@.subrange(0, s0.len() as int)[i]);
            }
        }
        let ghost s1 = self@;
        if let Option::Some(p) = parent_idx {
            let node = &mut self.arena[p];
            node.children.push(node_idx);
            proof {
                assert(self@.len() == s1.len());
                assert forall|i: int| 0 <= i < s1.len() && i != p implies self@[i] == s1[i] by {}
                assert(self@[p as int].children =~= s1[p as int].children.push(node_idx as int));
                assert(self@[p as int].idx == s1[p as int].idx);
                assert(self@[p as int].val == s1[p as int].val);
                assert(self@[p as int].parent == s1[p as int].parent);
            }
        }
        proof {
            let sf = self@;
            assert forall|i: int| 0 <= i < sf.len() implies {
                &&& (#[trigger] sf[i]).idx == i
                &&& (sf[i].parent matches Option::Some(q) ==> 0 <= q < sf.len())
                &&& (forall|j: int|
                    0 <= j < sf[i].children.len() ==> 0 <= #[trigger] sf[i].children[j] < sf.len())
            } by {
                if i < s0.len() {
                    assert(s0[i].idx == i);
                    if parent_idx matches Option::Some(p) && i == p {
                        assert(sf[i].children == s0[i].children.push(node_idx as int));
                        assert forall|j: int| 0 <= j < sf[i].children.len() implies 0 <= #[trigger] sf[i].children[j] < sf.len() by {
                            if j < s0[i].children.len() {
                                assert(0 <= s0[i].children[j] < s0.len());
                            }
                        }
                    } else {
                        assert(sf[i] == s0[i]);
                        assert forall|j: int| 0 <= j < sf[i].children.len() implies 0 <= #[trigger] sf[i].children[j] < sf.len() by {
                            assert(0 <= s0[i].children[j] < s0.len());
                        }
                    }
                } else {
                    assert(i == s0.len());
                    assert(sf[i].idx == node_idx as int);
                    assert(sf[i].children.len() == 0);
                }
            }
            if forward_linked(s0) {
                assert forall|i: int, j: int|
                    0 <= i < self@.len() && 0 <= j < self@[i].children.len() implies #[trigger] self@[i].children[j] > i by {
                    if i < s0.len() {
                        if parent_idx matches Option::Some(p) && i == p {
                            if j < s0[i].children.len() {
                                assert(s0[i].children[j] > i);
                            } else {
                                assert(self@[i].children[j] == node_idx as int);
                            }
                        } else {
                            assert(self@[i] == s0[i]);
                            assert(s0[i].children[j] > i);
                        }
                    } else {
                        assert(self@[i].children.len() == 0);
                    }
                }
            }
        }
        Result::Ok(node_idx)
    }

    /// Links an existing child to an existing parent. Fails exactly when one
    /// of the two slots does not exist or the child already has a parent.
    pub fn set_parent(&mut self, parent_idx: usize, child_idx: usize) -> (r: Result<(), MemError>)
        requires
            old(self).wf(),
        ensures
            final(self).wf(),
            parent_idx >= old(self)@.len() ==> r == Result::<(), MemError>::Err(
                MemError::UndefinedNode(parent_idx),
            ) && final(self)@ == old(self)@,
            parent_idx < old(self)@.len() && child_idx >= old(self)@.len() ==> r == Result::<
                (),
                MemError,
            >::Err(MemError::UndefinedNode(child_idx)) && final(self)@ == old(self)@,
            parent_idx < old(self)@.len() && child_idx < old(self)@.len() && old(self)@[child_idx as int].parent is Some ==> r == Result::<(), MemError>::Err(
                MemError::ParentAlreadyDefined(child_idx),
            ) && final(self)@ == old(self)@,
            parent_idx < old(self)@.len() && child_idx < old(self)@.len() && old(self)@[child_idx as int].parent is None ==> {
                &&& r == Result::<(), MemError>::Ok(())
                &&& final(self)@.len() == old(self)@.len()
                &&& final(self)@[child_idx as int].parent == Option::Some(parent_idx as int)
                &&& final(self)@[child_idx as int].val == old(self)@[child_idx as int].val
                &&& final(self)@[child_idx as int].idx == old(self)@[child_idx as int].idx
                &&& (child_idx != parent_idx ==> final(self)@[child_idx as int].children == old(self)@[child_idx as int].children)
                &&& final(self)@[parent_idx as int].children == old(self)@[parent_idx as int].children.push(child_idx as int)
                &&& final(self)@[parent_idx as int].val == old(self)@[parent_idx as int].val
                &&& final(self)@[parent_idx as int].idx == old(self)@[parent_idx as int].idx
                &&& (child_idx != parent_idx ==> final(self)@[parent_idx as int].parent == old(self)@[parent_idx as int].parent)
                &&& forall|i: int|
                    0 <= i < old(self)@.len() && i != parent_idx && i != child_idx ==> final(self)@[i] == old(self)@[i]
            },
    {
        let ghost s0 = self@;
        if !self.node_exists(parent_idx) {
            return Result::Err(MemError::UndefinedNode(parent_idx));
        }
        if !self.node_exists(child_idx) {
            return Result::Err(MemError::UndefinedNode(child_idx));
        }
        if self.arena[child_idx].parent.is_some() {
            return Result::Err(MemError::ParentAlreadyDefined(child_idx));
        }
        let child = &mut self.arena[child_idx];
        child.parent = Option::Some(parent_idx);
        proof {
            assert(self@.len() == s0.len());
            assert forall|i: int| 0 <= i < s0.len() && i != child_idx implies self@[i] == s0[i]
                by {}
            assert(self@[child_idx as int].children =~= s0[child_idx as int].children);
            assert(self@[child_idx as int].idx == s0[child_idx as int].idx);
            assert(self@[child_idx as int].val == s0[child_idx as int].val);
            assert(self@[child_idx as int].parent == Option::Some(parent_idx as int));
        }
        let ghost s1 = self@;
        let parent = &mut self.arena[parent_idx];
        parent.children.push(child_idx);
        proof {
            assert(self@.len() == s1.len());
            assert forall|i: int| 0 <= i < s1.len() && i != parent_idx implies self@[i] == s1[i]
                by {}
            assert(self@[parent_idx as int].children =~= s1[parent_idx as int].children.push(
                child_idx as int,
            ));
            assert(self@[parent_idx as int].idx == s1[parent_idx as int].idx);
            assert(self@[parent_idx as int].val == s1[parent_idx as int].val);
            assert(self@[parent_idx as int].parent == s1[parent_idx as int].parent);
            let sf = self@;
            assert forall|i: int| 0 <= i < sf.len() implies {
                &&& (#[trigger] sf[i]).idx == i
                &&& (sf[i].parent matches Option::Some(q) ==> 0 <= q < sf.len())
                &&& (forall|j: int|
                    0 <= j < sf[i].children.len() ==> 0 <= #[trigger] sf[i].children[j] < sf.len())
            } by {
                assert(s0[i].idx == i);
                if i == parent_idx {
                    assert forall|j: int| 0 <= j < sf[i].children.len() implies 0 <= #[trigger] sf[i].children[j] < sf.len() by {
                        if j < s1[i].children.len() {
                            assert(s1[i].children[j] == s0[i].children[j]);
                            assert(0 <= s0[i].children[j] < s0.len());
                        }
                    }
                } else {
                    assert(sf[i].children == s0[i].children);
                    assert forall|j: int| 0 <= j < sf[i].children.len() implies 0 <= #[trigger] sf[i].children[j] < sf.len() by {
                        assert(0 <= s0[i].children[j] < s0.len());
                    }
                }
            }
            assert(self.wf());
        }
        Result::Ok(())
    }
}

pub type ElementNode = Node<Element>;

pub type ArenaElement = ArenaTree<Element>;

impl ArenaElement {
    /// The first element whose identifier reads `id`.
    pub fn get_element_with_id(&self, id: &str) -> (r: Option<&Element>)
        ensures
            r matches Some(el) ==> exists|i: int|
                {
                    &&& 0 <= i < self@.len()
                    &&& *el == (#[trigger] self@[i]).val
                    &&& self@[i].val.spec_id_view() == Option::Some(id@)
                    &&& forall|j: int|
                        0 <= j < i ==> (#[trigger] self@[j]).val.spec_id_view() != Option::Some(id@)
                },
            r is None ==> forall|j: int|
                0 <= j < self@.len() ==> (#[trigger] self@[j]).val.spec_id_view() != Option::Some(
                    id@,
                ),
    {
        let n = self.arena.len();
        let mut i: usize = 0;
        while i < n
            invariant
                n == self@.len(),
                i <= n,
                forall|j: int|
                    0 <= j < i ==> (#[trigger] self@[j]).val.spec_id_view() != Option::Some(id@),
            decreases n - i,
        {
            let el = &self.arena[i].val;
            if el.has_id(id) {
                proof {
                    let wi = i as int;
                    assert(0 <= wi < self@.len() && *el == self@[wi].val && self@[wi].val.spec_id_view() == Option::Some(id@) && (forall|j: int| 0 <= j < wi ==> (#[trigger] self@[j]).val.spec_id_view() != Option::Some(id@)));
                }
                return Option::Some(el);
            }
            i += 1;
        }
        Option::None
    }
}

} // verus!
