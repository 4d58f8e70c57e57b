//! The tree structure behind the immediate-mode frame builder.
//!
//! A frame starts with an implicit root slot. Opening a node appends it to
//! the current parent and makes it the current parent; closing returns to the
//! enclosing one. Text given to a parent that has no children yet is held
//! inline until another child arrives, at which point it becomes the first
//! child. Hosts keep node payloads in a parallel vector indexed by slot.
use crate::engine::LayoutError;
use vstd::prelude::*;

verus! {

/// Links of one slot: its children form a singly linked list.
#[derive(Debug, Clone, Copy)]
pub struct FrameSlot {
    first_child: Option<usize>,
    last_child: Option<usize>,
    next_sibling: Option<usize>,
    has_inline_text: bool,
    child_count: usize,
}

/// Slots created by one push: the slot that now holds the parent's inline
/// text, if it had some, and the slot of the pushed node.
#[derive(Debug, Clone, Copy, PartialEq, Eq)]
pub struct Pushed {
    /// Slot that received the parent's pending inline text.
    pub flushed_text: Option<usize>,
    /// Slot of the pushed node.
    pub index: usize,
}

/// Where a text item went.
#[derive(Debug, Clone, Copy, PartialEq, Eq)]
pub enum TextPlacement {
    /// Held inline by the current parent slot.
    Inline(usize),
    /// Pushed as a child.
    Child(Pushed),
}

/// The slot tree of an open frame.
pub struct FrameArena {
    slots: Vec<FrameSlot>,
    stack: Vec<usize>,
    kids: Ghost<Seq<Seq<usize>>>,
    parent: Ghost<Seq<int>>,
    pos: Ghost<Seq<int>>,
}

/// The slot tree of `kids` with `child` appended to `p`'s children; `child`
/// is a new slot, the last one.
pub open spec fn append_child(kids: Seq<Seq<usize>>, p: int, child: usize) -> Seq<Seq<usize>> {
    kids.update(p, kids[p].push(child)).push(Seq::empty())
}

impl FrameArena {
    /// Children of each slot, in push order.
    pub closed spec fn children_spec(&self) -> Seq<Seq<usize>> {
        self.kids@
    }

    /// The open slots, outermost first.
    pub closed spec fn stack_spec(&self) -> Seq<usize> {
        self.stack@
    }

    /// Which slots hold pending inline text.
    pub closed spec fn inline_spec(&self) -> Seq<bool> {
        self.slots@.map_values(|s: FrameSlot| s.has_inline_text)
    }

    /// The current parent slot.
    pub open spec fn top(&self) -> usize {
        self.stack_spec().last()
    }

    /// The arena's internal invariant.
    pub closed spec fn wf(&self) -> bool {
        let n = self.slots@.len();
        let kids = self.kids@;
        let parent = self.parent@;
        let pos = self.pos@;
        &&& n >= 1
        &&& kids.len() == n && parent.len() == n && pos.len() == n
        &&& self.stack@.len() >= 1
        &&& self.stack@[0] == 0
        &&& forall|k: int| 0 <= k < self.stack@.len() ==> #[trigger] self.stack@[k] < n
        &&& forall|s: int| 0 <= s < n ==> (#[trigger] kids[s]).len() < n
        &&& forall|s: int| 0 <= s < n ==> (#[trigger] self.slots@[s]).child_count == kids[s].len()
        &&& forall|s: int| 0 <= s < n ==> (#[trigger] self.slots@[s]).first_child == if kids[s].len() == 0 {
            None::<usize>
        } else {
            Some(kids[s][0])
        }
        &&& forall|s: int| 0 <= s < n ==> (#[trigger] self.slots@[s]).last_child == if kids[s].len() == 0 {
            None::<usize>
        } else {
            Some(kids[s].last())
        }
        &&& forall|s: int, k: int|
            0 <= s < n && 0 <= k < kids[s].len() ==> s < #[trigger] kids[s][k] < n
                && parent[kids[s][k] as int] == s && pos[kids[s][k] as int] == k
        &&& forall|c: int|
            0 < c < n ==> 0 <= #[trigger] parent[c] < c && 0 <= pos[c] < kids[parent[c]].len()
                && kids[parent[c]][pos[c]] == c
        &&& (self.slots@[0]).next_sibling is None
        &&& forall|c: int|
            0 < c < n ==> (#[trigger] self.slots@[c]).next_sibling == if pos[c] + 1 < kids[parent[c]].len() {
                Some(kids[parent[c]][pos[c] + 1])
            } else {
                None::<usize>
            }
        &&& forall|s: int| 0 <= s < n && (#[trigger] self.slots@[s]).has_inline_text ==> kids[s].len() == 0
    }

    /// A frame with only the root slot, which is open.
    pub fn new() -> (r: Self)
        ensures
            r.wf(),
            r.children_spec() == seq![Seq::<usize>::empty()],
            r.stack_spec() == seq![0usize],
            r.inline_spec() == seq![false],
    {
        let mut slots = Vec::new();
        slots.push(FrameSlot {
            first_child: None,
            last_child: None,
            next_sibling: None,
            has_inline_text: false,
            child_count: 0,
        });
        let mut stack = Vec::new();
        stack.push(0);
        let ghost kids = seq![Seq::<usize>::empty()];
        let ghost zeros = seq![0int];
        let r = FrameArena { slots, stack, kids: Ghost(kids), parent: Ghost(zeros), pos: Ghost(zeros) };
        assert(r.inline_spec() =~= seq![false]);
        r
    }

    /// Number of slots.
    pub fn len(&self) -> (r: usize)
        requires
            self.wf(),
        ensures
            r == self.children_spec().len(),
    {
        self.slots.len()
    }

    /// Appends a new empty slot as the last child of `p`.
    fn link_new_child(&mut self, p: usize) -> (c: usize)
        requires
            old(self).wf(),
            p < old(self).slots@.len(),
            !old(self).slots@[p as int].has_inline_text,
        ensures
            final(self).wf(),
            c == old(self).slots@.len(),
            final(self).kids@ == append_child(old(self).kids@, p as int, c),
            final(self).stack@ == old(self).stack@,
            final(self).inline_spec() == old(self).inline_spec().push(false),
    {
        let ghost old_self = *self;
        let n = self.slots.len();
        let c = n;
        let ps = self.slots[p];
        self.slots.push(FrameSlot {
            first_child: None,
            last_child: None,
            next_sibling: None,
            has_inline_text: false,
            child_count: 0,
        });
        match ps.last_child {
            Some(l) => {
                let ls = self.slots[l];
                self.slots.set(l, FrameSlot { next_sibling: Some(c), ..ls });
            },
            None => {},
        }
        let ps2 = self.slots[p];
        let new_first = match ps2.first_child {
            Some(f) => Some(f),
            None => Some(c),
        };
        self.slots.set(p, FrameSlot { first_child: new_first, last_child: Some(c), child_count: ps2.child_count + 1, ..ps2 });
        proof {
            let ok = old_self.kids@;
            let k = ok[p as int].len() as int;
            self.kids@ = append_child(ok, p as int, c);
            self.parent@ = old_self.parent@.push(p as int);
            self.pos@ = old_self.pos@.push(k);
            let kids = self.kids@;
            let parent = self.parent@;
            let pos = self.pos@;
            let nn = self.slots@.len();
            assert(nn == n + 1);
            assert forall|s: int, j: int|
                0 <= s < nn && 0 <= j < kids[s].len() implies s < #[trigger] kids[s][j] < nn
                    && parent[kids[s][j] as int] == s && pos[kids[s][j] as int] == j by {
                if s == p && j == k {
                } else {
                    assert(kids[s][j] == ok[s][j]);
                }
            }
            assert forall|cc: int| 0 < cc < nn implies 0 <= #[trigger] parent[cc] < cc && 0 <= pos[cc] < kids[parent[cc]].len()
                && kids[parent[cc]][pos[cc]] == cc by {
                if cc < n {
                    assert(parent[cc] == old_self.parent@[cc]);
                }
            }
            assert forall|cc: int| 0 < cc < nn implies (#[trigger] self.slots@[cc]).next_sibling == if pos[cc] + 1 < kids[parent[cc]].len() {
                Some(kids[parent[cc]][pos[cc] + 1])
            } else {
                None::<usize>
            } by {
                if cc < n {
                    assert(parent[cc] == old_self.parent@[cc]);
                    assert(pos[cc] == old_self.pos@[cc]);
                    if parent[cc] == p {
                        if k > 0 && cc == ok[p as int][k - 1] as int {
                            assert(old_self.slots@[p as int].last_child == Some(ok[p as int][k - 1]));
                        } else {
                            assert(cc != ok[p as int].last());
                        }
                    }
                }
            }
            assert(self.inline_spec() =~= old_self.inline_spec().push(false));
        }
        c
    }

    /// Pushes a new child of the current parent. If the parent held inline
    /// text, that text first becomes a child slot of its own.
    fn push_child(&mut self) -> (r: Pushed)
        requires
            old(self).wf(),
        ensures
            final(self).wf(),
            final(self).stack@ == old(self).stack@,
            ({
                let p = old(self).top() as int;
                let n = old(self).children_spec().len();
                if old(self).inline_spec()[p] {
                    &&& r == Pushed { flushed_text: Some(n as usize), index: (n + 1) as usize }
                    &&& final(self).children_spec() == append_child(
                        append_child(old(self).children_spec(), p, n as usize),
                        p,
                        (n + 1) as usize,
                    )
                    &&& final(self).inline_spec() == old(self).inline_spec().update(p, false).push(false).push(
                        false,
                    )
                } else {
                    &&& r == Pushed { flushed_text: None, index: n as usize }
                    &&& final(self).children_spec() == append_child(old(self).children_spec(), p, n as usize)
                    &&& final(self).inline_spec() == old(self).inline_spec().push(false)
                }
            }),
    {
        let p = self.stack[self.stack.len() - 1];
        let ps = self.slots[p];
        if ps.has_inline_text {
            let ghost before = self.inline_spec();
            self.slots.set(p, FrameSlot { has_inline_text: false, ..ps });
            assert(self.inline_spec() =~= before.update(p as int, false));
            let f = self.link_new_child(p);
            let c = self.link_new_child(p);
            Pushed { flushed_text: Some(f), index: c }
        } else {
            let c = self.link_new_child(p);
            Pushed { flushed_text: None, index: c }
        }
    }

    /// Appends a node to the current parent and makes it the current parent.
    pub fn open(&mut self) -> (r: Pushed)
        requires
            old(self).wf(),
        ensures
            final(self).wf(),
            ({
                let p = old(self).top() as int;
                let n = old(self).children_spec().len();
                if old(self).inline_spec()[p] {
                    &&& r == Pushed { flushed_text: Some(n as usize), index: (n + 1) as usize }
                    &&& final(self).children_spec() == append_child(
                        append_child(old(self).children_spec(), p, n as usize),
                        p,
                        (n + 1) as usize,
                    )
                    &&& final(self).inline_spec() == old(self).inline_spec().update(p, false).push(false).push(
                        false,
                    )
                } else {
                    &&& r == Pushed { flushed_text: None, index: n as usize }
                    &&& final(self).children_spec() == append_child(old(self).children_spec(), p, n as usize)
                    &&& final(self).inline_spec() == old(self).inline_spec().push(false)
                }
            }),
            final(self).stack_spec() == old(self).stack_spec().push(r.index),
    {
        let r = self.push_child();
        self.stack.push(r.index);
        r
    }

    /// Appends a node to the current parent.
    pub fn child(&mut self) -> (r: Pushed)
        requires
            old(self).wf(),
        ensures
            final(self).wf(),
            ({
                let p = old(self).top() as int;
                let n = old(self).children_spec().len();
                if old(self).inline_spec()[p] {
                    &&& r == Pushed { flushed_text: Some(n as usize), index: (n + 1) as usize }
                    &&& final(self).children_spec() == append_child(
                        append_child(old(self).children_spec(), p, n as usize),
                        p,
                        (n + 1) as usize,
                    )
                    &&& final(self).inline_spec() == old(self).inline_spec().update(p, false).push(false).push(
                        false,
                    )
                } else {
                    &&& r == Pushed { flushed_text: None, index: n as usize }
                    &&& final(self).children_spec() == append_child(old(self).children_spec(), p, n as usize)
                    &&& final(self).inline_spec() == old(self).inline_spec().push(false)
                }
            }),
            final(self).stack_spec() == old(self).stack_spec(),
    {
        self.push_child()
    }

    /// Adds text to the current parent: it is held inline when the parent has
    /// no children and no inline text yet, and pushed as a child otherwise.
    pub fn text(&mut self) -> (r: TextPlacement)
        requires
            old(self).wf(),
        ensures
            final(self).wf(),
            final(self).stack_spec() == old(self).stack_spec(),
            ({
                let p = old(self).top() as int;
                let n = old(self).children_spec().len();
                if old(self).children_spec()[p].len() == 0 && !old(self).inline_spec()[p] {
                    &&& r == TextPlacement::Inline(p as usize)
                    &&& final(self).children_spec() == old(self).children_spec()
                    &&& final(self).inline_spec() == old(self).inline_spec().update(p, true)
                } else if old(self).inline_spec()[p] {
                    &&& r == TextPlacement::Child(Pushed { flushed_text: Some(n as usize), index: (n + 1) as usize })
                    &&& final(self).children_spec() == append_child(
                        append_child(old(self).children_spec(), p, n as usize),
                        p,
                        (n + 1) as usize,
                    )
                    &&& final(self).inline_spec() == old(self).inline_spec().update(p, false).push(false).push(
                        false,
                    )
                } else {
                    &&& r == TextPlacement::Child(Pushed { flushed_text: None, index: n as usize })
                    &&& final(self).children_spec() == append_child(old(self).children_spec(), p, n as usize)
                    &&& final(self).inline_spec() == old(self).inline_spec().push(false)
                }
            }),
    {
        let p = self.stack[self.stack.len() - 1];
        let ps = self.slots[p];
        if ps.child_count == 0 && !ps.has_inline_text {
            let ghost before = self.inline_spec();
            self.slots.set(p, FrameSlot { has_inline_text: true, ..ps });
            assert(self.inline_spec() =~= before.update(p as int, true));
            TextPlacement::Inline(p)
        } else {
            TextPlacement::Child(self.push_child())
        }
    }

    /// Closes the current node.
    ///
    /// Fails with [`LayoutError::UnbalancedClose`], changing nothing, when
    /// only the root is open.
    pub fn close(&mut self) -> (r: Result<(), LayoutError>)
        requires
            old(self).wf(),
        ensures
            final(self).wf(),
            final(self).children_spec() == old(self).children_spec(),
            final(self).inline_spec() == old(self).inline_spec(),
            old(self).stack_spec().len() <= 1 ==> r == Err::<(), LayoutError>(LayoutError::UnbalancedClose)
                && final(self).stack_spec() == old(self).stack_spec(),
            old(self).stack_spec().len() > 1 ==> r == Ok::<(), LayoutError>(())
                && final(self).stack_spec() == old(self).stack_spec().drop_last(),
    {
        if self.stack.len() <= 1 {
            return Err(LayoutError::UnbalancedClose);
        }
        self.stack.pop();
        Ok(())
    }

    /// Checks that only the root is open, as finishing a frame requires.
    ///
    /// Fails with [`LayoutError::UnclosedElements`] otherwise.
    pub fn check_closed(&self) -> (r: Result<(), LayoutError>)
        requires
            self.wf(),
        ensures
            self.stack_spec().len() == 1 ==> r == Ok::<(), LayoutError>(()),
            self.stack_spec().len() != 1 ==> r == Err::<(), LayoutError>(LayoutError::UnclosedElements),
    {
        if self.stack.len() != 1 {
            Err(LayoutError::UnclosedElements)
        } else {
            Ok(())
        }
    }

    /// The current parent slot.
    pub fn open_index(&self) -> (r: usize)
        requires
            self.wf(),
        ensures
            r == self.top(),
            r < self.children_spec().len(),
    {
        self.stack[self.stack.len() - 1]
    }

    /// Whether slot `index` holds pending inline text.
    pub fn has_inline_text(&self, index: usize) -> (r: bool)
        requires
            self.wf(),
            index < self.children_spec().len(),
        ensures
            r == self.inline_spec()[index as int],
    {
        self.slots[index].has_inline_text
    }

    /// The children of slot `index` in push order.
    pub fn children(&self, index: usize) -> (r: Vec<usize>)
        requires
            self.wf(),
            index < self.children_spec().len(),
        ensures
            r@ == self.children_spec()[index as int],
    {
        let ghost ks = self.kids@[index as int];
        let mut out: Vec<usize> = Vec::new();
        let mut cur = self.slots[index].first_child;
        let ghost mut k: int = 0;
        while cur.is_some()
            invariant
                self.wf(),
                ks == self.kids@[index as int],
                index < self.slots@.len(),
                0 <= k <= ks.len(),
                out@ == ks.take(k),
                cur == if k < ks.len() { Some(ks[k]) } else { None::<usize> },
            decreases ks.len() - k,
        {
            let c = cur.unwrap();
            proof {
                assert(self.parent@[c as int] == index as int);
                assert(self.pos@[c as int] == k);
            }
            out.push(c);
            cur = self.slots[c].next_sibling;
            proof {
                k = k + 1;
                assert(out@ =~= ks.take(k));
            }
        }
        proof {
            assert(ks.take(k) =~= ks);
        }
        out
    }
}

} // verus!

verus! {

/// Whether slot `c` is listed among some slot's children.
pub open spec fn is_child(kids: Seq<Seq<usize>>, c: int) -> bool {
    exists|s: int, k: int| 0 <= s < kids.len() && 0 <= k < kids[s].len() && #[trigger] kids[s][k] == c
}

impl FrameArena {
    /// The builder always holds a tree rooted at slot 0: every child comes
    /// after its parent, every slot but the root is the child of exactly one
    /// slot at exactly one position, and only a childless slot holds inline
    /// text.
    pub proof fn lemma_tree_shape(&self)
        requires
            self.wf(),
        ensures
            ({
                let kids = self.children_spec();
                &&& forall|s: int, k: int|
                    0 <= s < kids.len() && 0 <= k < kids[s].len() ==> s < #[trigger] kids[s][k] < kids.len()
                &&& forall|s1: int, k1: int, s2: int, k2: int|
                    0 <= s1 < kids.len() && 0 <= k1 < kids[s1].len() && 0 <= s2 < kids.len() && 0 <= k2
                        < kids[s2].len() && #[trigger] kids[s1][k1] == #[trigger] kids[s2][k2] ==> s1 == s2 && k1
                        == k2
                &&& forall|c: int| 0 < c < kids.len() ==> #[trigger] is_child(kids, c)
                &&& forall|s: int|
                    0 <= s < kids.len() && #[trigger] self.inline_spec()[s] ==> kids[s].len() == 0
            }),
    {
        let kids = self.kids@;
        assert forall|s1: int, k1: int, s2: int, k2: int|
            0 <= s1 < kids.len() && 0 <= k1 < kids[s1].len() && 0 <= s2 < kids.len() && 0 <= k2 < kids[s2].len()
                && #[trigger] kids[s1][k1] == #[trigger] kids[s2][k2] implies s1 == s2 && k1 == k2 by {
            assert(self.parent@[kids[s1][k1] as int] == s1);
            assert(self.parent@[kids[s2][k2] as int] == s2);
        }
        assert forall|c: int| 0 < c < kids.len() implies #[trigger] is_child(kids, c) by {
            let s = self.parent@[c];
            let k = self.pos@[c];
            assert(kids[s][k] == c);
        }
        assert forall|s: int| 0 <= s < kids.len() && #[trigger] self.inline_spec()[s] implies kids[s].len() == 0 by {
            assert(self.inline_spec()[s] == self.slots@[s].has_inline_text);
        }
    }
}

} // verus!
