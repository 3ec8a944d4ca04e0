//! A single call-stack frame: a depth-first cursor into one region of
//! the graph, held as a stack of (container, index) elements.

use vstd::prelude::*;

use std::rc::Rc;

use crate::runtime::divert::PushPopType;
use crate::runtime::{cont_m, obj_m, rc_cm, share_container, Container, ContainerM, ObjM, RuntimeObject};

verus! {

// ---------------------------------------------------------------------------
// Leaves and sizes of the container tree, as the specifications see them
// ---------------------------------------------------------------------------

/// The non-container leaves of an object's subtree, in depth-first
/// pre-order; a non-container object is its own single leaf.
pub open spec fn leaves(o: ObjM) -> Seq<ObjM>
    decreases o,
{
    match o {
        ObjM::Container(c) => leaves_seq(c.content),
        _ => seq![o],
    }
}

pub open spec fn leaves_seq(s: Seq<ObjM>) -> Seq<ObjM>
    decreases s,
{
    if s.len() == 0 {
        Seq::empty()
    } else {
        leaves(s[0]) + leaves_seq(s.subrange(1, s.len() as int))
    }
}

/// The leaves of the children from position `i` on.
pub open spec fn leaves_from(s: Seq<ObjM>, i: int) -> Seq<ObjM> {
    if 0 <= i && i <= s.len() {
        leaves_seq(s.subrange(i, s.len() as int))
    } else {
        Seq::empty()
    }
}

pub proof fn lemma_leaves_from_step(s: Seq<ObjM>, i: int)
    requires
        0 <= i < s.len(),
    ensures
        leaves_from(s, i) == leaves(s[i]) + leaves_from(s, i + 1),
{
    let t = s.subrange(i, s.len() as int);
    assert(t[0] == s[i]);
    assert(t.subrange(1, t.len() as int) =~= s.subrange(i + 1, s.len() as int));
    assert(leaves_seq(t) == leaves(t[0]) + leaves_seq(t.subrange(1, t.len() as int)));
}

pub proof fn lemma_leaves_from_all(s: Seq<ObjM>)
    ensures
        leaves_from(s, 0) == leaves_seq(s),
{
    assert(s.subrange(0, s.len() as int) =~= s);
}

/// The number of nodes in an object's subtree.
pub open spec fn obj_size(o: ObjM) -> int
    decreases o,
{
    match o {
        ObjM::Container(c) => 1 + objs_size(c.content),
        _ => 1,
    }
}

pub open spec fn objs_size(s: Seq<ObjM>) -> int
    decreases s,
{
    if s.len() == 0 {
        0
    } else {
        obj_size(s[0]) + objs_size(s.subrange(1, s.len() as int))
    }
}

pub open spec fn objs_size_from(s: Seq<ObjM>, i: int) -> int {
    if 0 <= i && i <= s.len() {
        objs_size(s.subrange(i, s.len() as int))
    } else {
        0
    }
}

pub proof fn lemma_objs_size_nonneg(s: Seq<ObjM>)
    ensures
        objs_size(s) >= 0,
        forall|k: int| 0 <= k < s.len() ==> obj_size(#[trigger] s[k]) >= 1,
    decreases s, 1int,
{
    if s.len() > 0 {
        lemma_obj_size_pos(s[0]);
        lemma_objs_size_nonneg(s.subrange(1, s.len() as int));
        assert(forall|k: int|
            1 <= k < s.len() ==> s[k] == s.subrange(1, s.len() as int)[k - 1]);
    }
}

pub proof fn lemma_obj_size_pos(o: ObjM)
    ensures
        obj_size(o) >= 1,
    decreases o, 2int,
{
    match o {
        ObjM::Container(c) => {
            lemma_objs_size_nonneg(c.content);
        },
        _ => {},
    }
}

pub proof fn lemma_objs_size_from_step(s: Seq<ObjM>, i: int)
    requires
        0 <= i < s.len(),
    ensures
        objs_size_from(s, i) == obj_size(s[i]) + objs_size_from(s, i + 1),
{
    let t = s.subrange(i, s.len() as int);
    assert(t[0] == s[i]);
    assert(t.subrange(1, t.len() as int) =~= s.subrange(i + 1, s.len() as int));
    assert(objs_size(t) == obj_size(t[0]) + objs_size(t.subrange(1, t.len() as int)));
}

// ---------------------------------------------------------------------------
// Elements
// ---------------------------------------------------------------------------

/// One entry of a frame's element stack: pointing at child `index` of
/// `container`.
#[derive(Debug)]
pub struct Element {
    container: Rc<Container>,
    index: usize,
}

/// The model of an element's container.
pub closed spec fn elem_cm(e: Element) -> ContainerM {
    cont_m(*e.container)
}

/// The element's position.
pub closed spec fn elem_idx(e: Element) -> int {
    e.index as int
}

impl Element {
    pub fn new(container: Rc<Container>) -> (r: Element)
        ensures
            elem_cm(r) == cont_m(*container),
            elem_idx(r) == 0,
    {
        Element { container, index: 0 }
    }

    /// The child pointed at, if the position is in range.
    pub fn get(&self) -> (r: Option<&RuntimeObject>)
        ensures
            match r {
                Some(o) => 0 <= elem_idx(*self) < elem_cm(*self).content.len() && obj_m(*o)
                    == elem_cm(*self).content[elem_idx(*self)],
                None => elem_idx(*self) >= elem_cm(*self).content.len(),
            },
    {
        self.container.get(self.index)
    }

    pub fn get_container(&self) -> (r: &Rc<Container>)
        ensures
            cont_m(**r) == elem_cm(*self),
    {
        &self.container
    }

    /// Moves the position to `index` when it is in range; reports
    /// whether it moved.
    pub fn move_to(&mut self, index: usize) -> (r: bool)
        ensures
            r == (index < elem_cm(*old(self)).content.len()),
            elem_cm(*final(self)) == elem_cm(*old(self)),
            elem_idx(*final(self)) == if index < elem_cm(*old(self)).content.len() {
                index as int
            } else {
                elem_idx(*old(self))
            },
    {
        if index < self.container.len() {
            self.index = index;
            true
        } else {
            false
        }
    }
}

// ---------------------------------------------------------------------------
// The frame: a stack of elements
// ---------------------------------------------------------------------------

/// Well-formed element stack: non-empty, and each element below the top
/// points at the container of the element above it.
pub closed spec fn stack_wf(stack: Seq<Element>) -> bool {
    &&& stack.len() >= 1
    &&& forall|k: int|
        0 <= k < stack.len() - 1 ==> {
            &&& 0 <= elem_idx(#[trigger] stack[k]) < elem_cm(stack[k]).content.len()
            &&& elem_cm(stack[k]).content[elem_idx(stack[k])] == ObjM::Container(
                elem_cm(stack[k + 1]),
            )
        }
}

/// The child the cursor points at, if any.
pub closed spec fn cur_m_s(stack: Seq<Element>) -> Option<ObjM> {
    if stack.len() == 0 {
        None
    } else {
        let cm = elem_cm(stack.last());
        let i = elem_idx(stack.last());
        if 0 <= i && i < cm.content.len() {
            Some(cm.content[i])
        } else {
            None
        }
    }
}

/// The leaves that lie strictly after the cursor, in visiting order.
pub closed spec fn after_cur_s(stack: Seq<Element>) -> Seq<ObjM>
    decreases stack.len(),
{
    if stack.len() == 0 {
        Seq::empty()
    } else {
        leaves_from(elem_cm(stack.last()).content, elem_idx(stack.last()) + 1) + after_cur_s(
            stack.drop_last(),
        )
    }
}

/// The leaf the cursor points at, if it points at one.
pub open spec fn cur_leaves_s(stack: Seq<Element>) -> Seq<ObjM> {
    match cur_m_s(stack) {
        Some(o) => seq![o],
        None => Seq::empty(),
    }
}

/// The remaining work of the stack, for termination of the cursor.
pub closed spec fn stack_work(stack: Seq<Element>) -> int
    decreases stack.len(),
{
    if stack.len() == 0 {
        0
    } else {
        stack_work(stack.drop_last()) + objs_size_from(
            elem_cm(stack.last()).content,
            elem_idx(stack.last()) + 1,
        ) + 1
    }
}

pub proof fn lemma_stack_work_nonneg(stack: Seq<Element>)
    ensures
        stack_work(stack) >= 0,
        stack.len() >= 1 ==> stack_work(stack) >= 1,
    decreases stack.len(),
{
    if stack.len() > 0 {
        lemma_stack_work_nonneg(stack.drop_last());
        let cm = elem_cm(stack.last());
        let i = elem_idx(stack.last()) + 1;
        if 0 <= i && i <= cm.content.len() {
            lemma_objs_size_nonneg(cm.content.subrange(i, cm.content.len() as int));
        }
    }
}

/// How big the object under the cursor is; zero when there is none.
pub open spec fn cur_size(stack: Seq<Element>) -> int {
    match cur_m_s(stack) {
        Some(o) => obj_size(o),
        None => 0,
    }
}

/// A single frame in the call stack: a depth-first cursor into the
/// graph, plus the evaluation-mode flag and the kind of push that
/// created the frame.
#[derive(Debug)]
pub struct RuntimeContext {
    stack: Vec<Element>,
    in_expression_evaluation: bool,
    stack_push_type: PushPopType,
}

impl RuntimeContext {
    pub closed spec fn stack_s(&self) -> Seq<Element> {
        self.stack@
    }

    pub closed spec fn in_expr_m(&self) -> bool {
        self.in_expression_evaluation
    }

    pub closed spec fn push_type_m(&self) -> PushPopType {
        self.stack_push_type
    }

    pub fn depth(&self) -> (r: usize)
        ensures
            r == self.stack_s().len(),
    {
        self.stack.len()
    }

    pub fn in_expression_evaluation(&self) -> (r: bool)
        ensures
            r == self.in_expr_m(),
    {
        self.in_expression_evaluation
    }

    pub fn set_in_expression_evaluation(&mut self, in_expression_evaluation: bool)
        ensures
            final(self).in_expr_m() == in_expression_evaluation,
            final(self).stack_s() == old(self).stack_s(),
            final(self).push_type_m() == old(self).push_type_m(),
    {
        self.in_expression_evaluation = in_expression_evaluation;
    }

    pub fn stack_push_type(&self) -> (r: PushPopType)
        ensures
            r == self.push_type_m(),
    {
        self.stack_push_type
    }

    pub fn set_stack_push_type(&mut self, stack_push_type: PushPopType)
        ensures
            final(self).push_type_m() == stack_push_type,
            final(self).stack_s() == old(self).stack_s(),
            final(self).in_expr_m() == old(self).in_expr_m(),
    {
        self.stack_push_type = stack_push_type;
    }

    /// The current object: the child the cursor points at.
    pub fn get(&self) -> (r: Option<&RuntimeObject>)
        ensures
            match r {
                Some(o) => cur_m_s(self.stack_s()) == Some(obj_m(*o)),
                None => cur_m_s(self.stack_s()) is None,
            },
    {
        match self.stack.last() {
            Some(e) => e.get(),
            None => None,
        }
    }

    /// The container the cursor stands in.
    pub fn get_container(&self) -> (r: Option<&Rc<Container>>)
        ensures
            match r {
                Some(c) => self.stack_s().len() >= 1 && cont_m(**c) == elem_cm(
                    self.stack_s().last(),
                ),
                None => self.stack_s().len() == 0,
            },
    {
        match self.stack.last() {
            Some(e) => Some(e.get_container()),
            None => None,
        }
    }

    /// Clears the element stack and re-roots the frame at `container`,
    /// at `index` when it is in range and at the start otherwise.
    pub fn reset(&mut self, container: &Rc<Container>, index: usize)
        ensures
            final(self).stack_s().len() == 1,
            stack_wf(final(self).stack_s()),
            elem_cm(final(self).stack_s()[0]) == cont_m(**container),
            elem_idx(final(self).stack_s()[0]) == if index < cont_m(**container).content.len()
                && index != 0 {
                index as int
            } else {
                0int
            },
            final(self).in_expr_m() == old(self).in_expr_m(),
            final(self).push_type_m() == old(self).push_type_m(),
    {
        let mut element = Element::new(share_container(container));
        if index != 0 {
            let _ = element.move_to(index);
        }
        self.stack.clear();
        self.stack.push(element);
        proof {
            assert(self.stack@.len() == 1);
        }
    }
}

} // verus!

verus! {

/// The leaves still to be visited: those of the object under the cursor,
/// then those after it.
pub open spec fn pending_s(stack: Seq<Element>) -> Seq<ObjM> {
    (match cur_m_s(stack) {
        Some(o) => leaves(o),
        None => Seq::empty(),
    }) + after_cur_s(stack)
}

impl RuntimeContext {
    /// Pushes into container children until the cursor stands on a leaf
    /// or past an end; the leaves still to be visited do not change.
    #[verifier::rlimit(100)]
    fn descend(&mut self)
        requires
            stack_wf(old(self).stack_s()),
        ensures
            stack_wf(final(self).stack_s()),
            elem_cm(final(self).stack_s()[0]) == elem_cm(old(self).stack_s()[0]),
            final(self).in_expr_m() == old(self).in_expr_m(),
            final(self).push_type_m() == old(self).push_type_m(),
            pending_s(final(self).stack_s()) == pending_s(old(self).stack_s()),
            (cur_m_s(final(self).stack_s()) matches Some(o) ==> !(o is Container)),
            !(cur_m_s(old(self).stack_s()) matches Some(o) && o is Container)
                ==> final(self).stack_s() == old(self).stack_s(),
    {
        let ghost orig = self.stack@;
        proof {
            assert(orig == old(self).stack_s());
        }
        let mut going = true;
        while going
            invariant
                orig == old(self).stack_s(),
                stack_wf(self.stack@),
                elem_cm(self.stack@[0]) == elem_cm(orig[0]),
                self.in_expression_evaluation == old(self).in_expression_evaluation,
                self.stack_push_type == old(self).stack_push_type,
                pending_s(self.stack@) == pending_s(orig),
                !going ==> (cur_m_s(self.stack@) matches Some(o) ==> !(o is Container)),
                !(cur_m_s(orig) matches Some(o) && o is Container) ==> self.stack@ == orig,
            decreases cur_size(self.stack@) + (if going {
                1int
            } else {
                0int
            }),
        {
            proof {
                match cur_m_s(self.stack@) {
                    Some(o) => lemma_obj_size_pos(o),
                    None => {},
                }
            }
            let topi = self.stack.len() - 1;
            let d: Option<Rc<Container>> = {
                let e = &self.stack[topi];
                match e.container.get(e.index) {
                    Some(RuntimeObject::Container(rc)) => Some(share_container(rc)),
                    _ => None,
                }
            };
            match d {
                Some(rc) => {
                    let ghost pre = self.stack@;
                    let ghost ccm = rc_cm(rc);
                    self.stack.push(Element::new(rc));
                    proof {
                        let post = self.stack@;
                        assert(post.drop_last() =~= pre);
                        assert(post.last() == post[post.len() - 1]);
                        assert(elem_cm(post.last()) == ccm);
                        assert(elem_idx(post.last()) == 0);
                        assert(cur_m_s(pre) == Some(ObjM::Container(ccm)));
                        assert(stack_wf(post)) by {
                            assert(forall|k: int|
                                0 <= k < post.len() - 1 ==> post[k] == if k < pre.len() - 1 {
                                    pre[k]
                                } else {
                                    pre.last()
                                });
                        };
                        assert(after_cur_s(post) == leaves_from(ccm.content, 1) + after_cur_s(
                            pre,
                        ));
                        if ccm.content.len() > 0 {
                            assert(cur_m_s(post) == Some(ccm.content[0]));
                            lemma_leaves_from_step(ccm.content, 0);
                            lemma_leaves_from_all(ccm.content);
                            assert(leaves(ObjM::Container(ccm)) == leaves_seq(ccm.content));
                            assert(pending_s(post) =~= pending_s(pre));
                            lemma_objs_size_from_step(ccm.content, 0);
                            lemma_objs_size_nonneg(ccm.content);
                            lemma_objs_size_nonneg(ccm.content.subrange(
                                1,
                                ccm.content.len() as int,
                            ));
                            assert(objs_size(ccm.content) == obj_size(ccm.content[0]) + objs_size(
                                ccm.content.subrange(1, ccm.content.len() as int),
                            ));
                            assert(obj_size(ccm.content[0]) < obj_size(ObjM::Container(ccm)));
                            assert(cur_size(self.stack@) < cur_size(pre));
                        } else {
                            assert(cur_m_s(post) is None);
                            assert(cur_size(self.stack@) == 0);
                            lemma_objs_size_nonneg(ccm.content);
                            assert(cur_size(pre) >= 1);
                            assert(leaves_from(ccm.content, 1) =~= Seq::<ObjM>::empty());
                            assert(leaves(ObjM::Container(ccm)) =~= Seq::<ObjM>::empty());
                            assert(pending_s(post) =~= pending_s(pre));
                        }
                    }
                },
                None => {
                    going = false;
                },
            }
        }
    }

    /// A fresh frame rooted at `container`, with the cursor on the first
    /// leaf of the tree, or on nothing when the tree has no leaves: the
    /// leaf under the cursor followed by the leaves after it are exactly
    /// the leaves of the whole container, in pre-order.
    pub fn new(container: &Rc<Container>) -> (r: RuntimeContext)
        ensures
            stack_wf(r.stack_s()),
            elem_cm(r.stack_s()[0]) == cont_m(**container),
            r.in_expr_m() == false,
            r.push_type_m() == PushPopType::Tunnel,
            cur_leaves_s(r.stack_s()) + after_cur_s(r.stack_s()) == leaves_seq(
                cont_m(**container).content,
            ),
            (cur_m_s(r.stack_s()) matches Some(o) ==> !(o is Container)),
            leaves_seq(cont_m(**container).content).len() > 0 ==> cur_m_s(r.stack_s()) == Some(
                leaves_seq(cont_m(**container).content)[0],
            ),
            leaves_seq(cont_m(**container).content).len() == 0 ==> cur_m_s(r.stack_s()) is None,
            cont_m(**container).content.len() == 0 ==> r.stack_s().len() == 1 && elem_idx(
                r.stack_s()[0],
            ) == 0,
            cont_m(**container).content.len() > 0 && !(cont_m(**container).content[0]
                is Container) ==> r.stack_s().len() == 1 && elem_idx(r.stack_s()[0]) == 0,
    {
        let mut stack: Vec<Element> = Vec::new();
        stack.push(Element::new(share_container(container)));
        let mut ctx = RuntimeContext {
            stack,
            in_expression_evaluation: false,
            stack_push_type: PushPopType::Tunnel,
        };
        let ghost cm = rc_cm(*container);
        proof {
            let st = ctx.stack@;
            assert(st.len() == 1);
            assert(st.last() == st[0]);
            assert(elem_cm(st[0]) == cm);
            assert(elem_idx(st[0]) == 0);
            assert(st.drop_last() =~= Seq::<Element>::empty());
            assert(after_cur_s(st.drop_last()) == Seq::<ObjM>::empty());
            assert(after_cur_s(st) =~= leaves_from(cm.content, 1));
            if cm.content.len() > 0 {
                assert(cur_m_s(st) == Some(cm.content[0]));
                lemma_leaves_from_step(cm.content, 0);
                lemma_leaves_from_all(cm.content);
                assert(pending_s(st) =~= leaves_seq(cm.content));
            } else {
                assert(cur_m_s(st) is None);
                assert(leaves_from(cm.content, 1) =~= Seq::<ObjM>::empty());
                assert(pending_s(st) =~= leaves_seq(cm.content));
            }
        }
        let ghost fresh = ctx.stack@;
        ctx.descend();
        // The cursor now stands on a leaf, or on nothing inside an empty
        // container; in the second case advance it to the first leaf that
        // remains, and park it past the end when none does.
        let cur_is_none = {
            let topi = ctx.stack.len() - 1;
            let e = &ctx.stack[topi];
            e.get().is_none()
        };
        if cur_is_none {
            let ghost landed = ctx.stack@;
            proof {
                assert(pending_s(landed) == leaves_seq(cm.content));
                assert(pending_s(landed) =~= after_cur_s(landed));
            }
            let stepped = { ctx.next().is_some() };
            if !stepped {
                proof {
                    assert(leaves_seq(cm.content).len() == 0);
                }
                let mut e = match ctx.stack.pop() {
                    Some(e) => e,
                    None => {
                        proof {
                            assert(false);
                        }
                        return ctx;
                    },
                };
                let ghost ecm = elem_cm(e);
                e.index = e.container.len();
                ctx.stack.push(e);
                proof {
                    let st = ctx.stack@;
                    assert(st.len() == 1);
                    assert(st.last() == st[0]);
                    assert(elem_cm(st[0]) == ecm);
                    assert(elem_idx(st[0]) == ecm.content.len() as int);
                    assert(cur_m_s(st) is None);
                    assert(st.drop_last() =~= Seq::<Element>::empty());
                    assert(after_cur_s(st.drop_last()) == Seq::<ObjM>::empty());
                    assert(leaves_from(ecm.content, ecm.content.len() as int + 1)
                        == Seq::<ObjM>::empty());
                    assert(after_cur_s(st) =~= Seq::<ObjM>::empty());
                    assert(cur_leaves_s(st) + after_cur_s(st) =~= leaves_seq(cm.content));
                }
            } else {
                proof {
                    let st = ctx.stack@;
                    match cur_m_s(st) {
                        Some(o) => {
                            assert(after_cur_s(landed) == seq![o] + after_cur_s(st));
                            assert(cur_leaves_s(st) + after_cur_s(st) =~= leaves_seq(cm.content));
                        },
                        None => {
                            assert(false);
                        },
                    }
                }
            }
        } else {
            proof {
                let st = ctx.stack@;
                match cur_m_s(st) {
                    Some(o) => {
                        assert(leaves(o) == seq![o]);
                        assert(cur_leaves_s(st) + after_cur_s(st) =~= pending_s(st));
                    },
                    None => {
                        assert(false);
                    },
                }
            }
        }
        proof {
            let st = ctx.stack@;
            if leaves_seq(cm.content).len() > 0 {
                match cur_m_s(st) {
                    Some(o) => {
                        assert((cur_leaves_s(st) + after_cur_s(st))[0] == o);
                        assert(cur_m_s(st) == Some(leaves_seq(cm.content)[0]));
                    },
                    None => {
                        assert(cur_leaves_s(st) + after_cur_s(st) =~= after_cur_s(st));
                        assert(false);
                    },
                }
            } else {
                match cur_m_s(st) {
                    Some(o) => {
                        assert((cur_leaves_s(st) + after_cur_s(st))[0] == o);
                        assert(false);
                    },
                    None => {},
                }
            }
            if cm.content.len() == 0 {
                assert(leaves_seq(cm.content).len() == 0);
            }
            if cm.content.len() > 0 && !(cm.content[0] is Container) {
                lemma_leaves_from_step(cm.content, 0);
                lemma_leaves_from_all(cm.content);
                assert(leaves(cm.content[0]) == seq![cm.content[0]]);
                assert(leaves_seq(cm.content).len() > 0);
                assert(!(cur_m_s(fresh) matches Some(o) && o is Container));
            }
        }
        ctx
    }

    /// A fresh frame with room reserved for `capacity` elements; the
    /// contract of `new` holds unchanged.
    pub fn with_capacity(capacity: usize, container: &Rc<Container>) -> (r: RuntimeContext)
        ensures
            stack_wf(r.stack_s()),
            elem_cm(r.stack_s()[0]) == cont_m(**container),
            r.in_expr_m() == false,
            r.push_type_m() == PushPopType::Tunnel,
            cur_leaves_s(r.stack_s()) + after_cur_s(r.stack_s()) == leaves_seq(
                cont_m(**container).content,
            ),
            (cur_m_s(r.stack_s()) matches Some(o) ==> !(o is Container)),
            leaves_seq(cont_m(**container).content).len() > 0 ==> cur_m_s(r.stack_s()) == Some(
                leaves_seq(cont_m(**container).content)[0],
            ),
            leaves_seq(cont_m(**container).content).len() == 0 ==> cur_m_s(r.stack_s()) is None,
            cont_m(**container).content.len() == 0 ==> r.stack_s().len() == 1 && elem_idx(
                r.stack_s()[0],
            ) == 0,
            cont_m(**container).content.len() > 0 && !(cont_m(**container).content[0]
                is Container) ==> r.stack_s().len() == 1 && elem_idx(r.stack_s()[0]) == 0,
    {
        let _ = capacity;
        RuntimeContext::new(container)
    }
}

} // verus!

verus! {

/// What one ascending step did.
enum AdvanceOutcome {
    /// The top element moved to its next child; the cursor now points at
    /// that child.
    Bumped,
    /// The exhausted top element was popped; ascending continues.
    Popped,
    /// The frame is exhausted: a single element at its end.
    Exhausted,
}

/// What one descending step did.
enum CheckOutcome {
    /// The cursor pointed at a container; an element for it was pushed.
    Descended,
    /// The cursor pointed past an end; the element was popped.
    PoppedEmpty,
    /// The cursor points at a non-container leaf.
    Leaf,
}

impl RuntimeContext {
    /// One ascending step: bump the top element if it has a next child,
    /// else pop it, else report exhaustion.
    fn advance_once(&mut self) -> (r: AdvanceOutcome)
        requires
            stack_wf(old(self).stack_s()),
        ensures
            stack_wf(final(self).stack_s()),
            elem_cm(final(self).stack_s()[0]) == elem_cm(old(self).stack_s()[0]),
            final(self).in_expr_m() == old(self).in_expr_m(),
            final(self).push_type_m() == old(self).push_type_m(),
            match r {
                AdvanceOutcome::Bumped => pending_s(final(self).stack_s()) == after_cur_s(
                    old(self).stack_s(),
                ) && cur_m_s(final(self).stack_s()) is Some && stack_work(final(self).stack_s())
                    + cur_size(final(self).stack_s()) == stack_work(old(self).stack_s()),
                AdvanceOutcome::Popped => after_cur_s(final(self).stack_s()) == after_cur_s(
                    old(self).stack_s(),
                ) && stack_work(final(self).stack_s()) < stack_work(old(self).stack_s())
                    && stack_work(final(self).stack_s()) >= 0,
                AdvanceOutcome::Exhausted => after_cur_s(old(self).stack_s()).len() == 0
                    && final(self).stack_s() == old(self).stack_s() && old(self).stack_s().len()
                    == 1,
            },
            (old(self).stack_s().len() == 1 && elem_idx(old(self).stack_s()[0]) + 1 >= elem_cm(
                old(self).stack_s()[0],
            ).content.len()) ==> r is Exhausted,
    {
        let ghost pre = self.stack@;
        let mut e = match self.stack.pop() {
            Some(e) => e,
            None => {
                proof {
                    assert(false);
                }
                return AdvanceOutcome::Exhausted;
            },
        };
        let ghost cm = elem_cm(e);
        let ghost i0 = elem_idx(e);
        proof {
            assert(pre.last() == e);
            assert(self.stack@ =~= pre.drop_last());
            lemma_stack_work_nonneg(self.stack@);
        }
        let clen = e.container.len();
        if e.index < clen && clen - e.index > 1 {
            e.index = e.index + 1;
            self.stack.push(e);
            proof {
                let post = self.stack@;
                assert(post.drop_last() =~= pre.drop_last());
                assert(elem_cm(post.last()) == cm);
                assert(elem_idx(post.last()) == i0 + 1);
                assert(stack_wf(post)) by {
                    assert(forall|k: int| 0 <= k < post.len() - 1 ==> post[k] == pre[k]);
                };
                lemma_leaves_from_step(cm.content, i0 + 1);
                assert(after_cur_s(pre) == leaves_from(cm.content, i0 + 1) + after_cur_s(
                    pre.drop_last(),
                ));
                assert(after_cur_s(post) == leaves_from(cm.content, i0 + 2) + after_cur_s(
                    pre.drop_last(),
                ));
                assert(cur_m_s(post) == Some(cm.content[i0 + 1]));
                assert(pending_s(post) =~= after_cur_s(pre));
                lemma_objs_size_from_step(cm.content, i0 + 1);
                assert(stack_work(post) + cur_size(post) == stack_work(pre)) by {
                    assert(stack_work(post) == stack_work(pre.drop_last()) + objs_size_from(
                        cm.content,
                        i0 + 2,
                    ) + 1);
                    assert(stack_work(pre) == stack_work(pre.drop_last()) + objs_size_from(
                        cm.content,
                        i0 + 1,
                    ) + 1);
                };
            }
            AdvanceOutcome::Bumped
        } else {
            proof {
                assert(i0 + 1 >= cm.content.len());
                assert(leaves_from(cm.content, i0 + 1) =~= Seq::<ObjM>::empty());
            }
            if self.stack.len() == 0 {
                self.stack.push(e);
                proof {
                    let post = self.stack@;
                    assert(post =~= pre);
                    assert(post == pre);
                    assert(after_cur_s(pre) =~= Seq::<ObjM>::empty());
                }
                return AdvanceOutcome::Exhausted;
            }
            proof {
                let post = self.stack@;
                assert(after_cur_s(pre) =~= after_cur_s(post));
                assert(stack_wf(post)) by {
                    assert(forall|k: int| 0 <= k < post.len() ==> post[k] == pre[k]);
                };
                assert(stack_work(pre) == stack_work(post) + objs_size_from(cm.content, i0 + 1)
                    + 1);
                assert(objs_size_from(cm.content, i0 + 1) >= 0) by {
                    if 0 <= i0 + 1 && i0 + 1 <= cm.content.len() {
                        lemma_objs_size_nonneg(cm.content.subrange(
                            i0 + 1,
                            cm.content.len() as int,
                        ));
                    }
                };
                lemma_stack_work_nonneg(post);
            }
            AdvanceOutcome::Popped
        }
    }

    /// One descending step: push into a container under the cursor, pop
    /// an element whose cursor points past its end, or report a leaf.
    fn check_once(&mut self) -> (r: CheckOutcome)
        requires
            stack_wf(old(self).stack_s()),
            cur_m_s(old(self).stack_s()) is None ==> old(self).stack_s().len() >= 2,
        ensures
            stack_wf(final(self).stack_s()),
            elem_cm(final(self).stack_s()[0]) == elem_cm(old(self).stack_s()[0]),
            final(self).in_expr_m() == old(self).in_expr_m(),
            final(self).push_type_m() == old(self).push_type_m(),
            match r {
                CheckOutcome::Descended => pending_s(final(self).stack_s()) == pending_s(
                    old(self).stack_s(),
                ) && stack_work(final(self).stack_s()) + cur_size(final(self).stack_s())
                    == stack_work(old(self).stack_s()) + cur_size(old(self).stack_s())
                    && cur_size(final(self).stack_s()) < cur_size(old(self).stack_s())
                    && cur_size(final(self).stack_s()) >= 0 && final(self).stack_s().len()
                    == old(self).stack_s().len() + 1,
                CheckOutcome::PoppedEmpty => cur_m_s(old(self).stack_s()) is None && after_cur_s(
                    final(self).stack_s(),
                ) == after_cur_s(old(self).stack_s()) && stack_work(final(self).stack_s())
                    < stack_work(old(self).stack_s()) && stack_work(final(self).stack_s()) >= 0,
                CheckOutcome::Leaf => final(self).stack_s() == old(self).stack_s() && (cur_m_s(
                    final(self).stack_s(),
                ) matches Some(o) && !(o is Container)),
            },
    {
        proof {
            match cur_m_s(self.stack@) {
                Some(o) => lemma_obj_size_pos(o),
                None => {},
            }
        }
        let topi = self.stack.len() - 1;
        let d: Option<Option<Rc<Container>>> = {
            let e = &self.stack[topi];
            match e.container.get(e.index) {
                None => None,
                Some(RuntimeObject::Container(rc)) => Some(Some(share_container(rc))),
                Some(_) => Some(None),
            }
        };
        match d {
            None => {
                let ghost pre = self.stack@;
                let _ = self.stack.pop();
                proof {
                    let post = self.stack@;
                    assert(post =~= pre.drop_last());
                    let cm = elem_cm(pre.last());
                    let i0 = elem_idx(pre.last());
                    assert(leaves_from(cm.content, i0 + 1) =~= Seq::<ObjM>::empty());
                    assert(after_cur_s(pre) =~= after_cur_s(post));
                    assert(stack_wf(post)) by {
                        assert(forall|k: int| 0 <= k < post.len() ==> post[k] == pre[k]);
                    };
                    assert(stack_work(pre) == stack_work(post) + objs_size_from(
                        cm.content,
                        i0 + 1,
                    ) + 1);
                    assert(objs_size_from(cm.content, i0 + 1) >= 0) by {
                        if 0 <= i0 + 1 && i0 + 1 <= cm.content.len() {
                            lemma_objs_size_nonneg(cm.content.subrange(
                                i0 + 1,
                                cm.content.len() as int,
                            ));
                        }
                    };
                    lemma_stack_work_nonneg(post);
                }
                CheckOutcome::PoppedEmpty
            },
            Some(Some(rc)) => {
                let ghost pre = self.stack@;
                let ghost ccm = rc_cm(rc);
                self.stack.push(Element::new(rc));
                proof {
                    let post = self.stack@;
                    assert(post.drop_last() =~= pre);
                    assert(elem_cm(post.last()) == ccm);
                    assert(elem_idx(post.last()) == 0);
                    assert(cur_m_s(pre) == Some(ObjM::Container(ccm)));
                    assert(stack_wf(post)) by {
                        assert(forall|k: int|
                            0 <= k < post.len() - 1 ==> post[k] == if k < pre.len() - 1 {
                                pre[k]
                            } else {
                                pre.last()
                            });
                    };
                    assert(after_cur_s(post) == leaves_from(ccm.content, 1) + after_cur_s(pre));
                    lemma_objs_size_nonneg(ccm.content);
                    assert(stack_work(post) == stack_work(pre) + objs_size_from(ccm.content, 1)
                        + 1);
                    if ccm.content.len() > 0 {
                        assert(cur_m_s(post) == Some(ccm.content[0]));
                        lemma_leaves_from_step(ccm.content, 0);
                        lemma_leaves_from_all(ccm.content);
                        assert(leaves(ObjM::Container(ccm)) == leaves_seq(ccm.content));
                        assert(pending_s(post) =~= pending_s(pre));
                        lemma_objs_size_from_step(ccm.content, 0);
                        lemma_objs_size_nonneg(ccm.content.subrange(1, ccm.content.len() as int));
                        assert(objs_size(ccm.content) == obj_size(ccm.content[0]) + objs_size(
                            ccm.content.subrange(1, ccm.content.len() as int),
                        ));
                        assert(cur_size(post) < cur_size(pre));
                        assert(stack_work(post) + cur_size(post) == stack_work(pre) + cur_size(
                            pre,
                        )) by {
                            lemma_objs_size_from_step(ccm.content, 0);
                        };
                    } else {
                        assert(cur_m_s(post) is None);
                        assert(cur_size(post) == 0);
                        assert(cur_size(pre) >= 1);
                        assert(leaves_from(ccm.content, 1) =~= Seq::<ObjM>::empty());
                        assert(leaves(ObjM::Container(ccm)) =~= Seq::<ObjM>::empty());
                        assert(pending_s(post) =~= pending_s(pre));
                        assert(objs_size_from(ccm.content, 1) == 0);
                        assert(stack_work(post) + cur_size(post) == stack_work(pre) + cur_size(
                            pre,
                        ));
                    }
                    lemma_stack_work_nonneg(post);
                }
                CheckOutcome::Descended
            },
            Some(None) => CheckOutcome::Leaf,
        }
    }

    /// Advances the cursor to the next non-container leaf in pre-order,
    /// descending into containers and climbing out of exhausted ones.
    /// The leaf returned is exactly the head of the leaves that lay
    /// after the cursor; when none lay after it, nothing is returned.
    pub fn next(&mut self) -> (r: Option<&RuntimeObject>)
        requires
            stack_wf(old(self).stack_s()),
        ensures
            stack_wf(final(self).stack_s()),
            elem_cm(final(self).stack_s()[0]) == elem_cm(old(self).stack_s()[0]),
            final(self).in_expr_m() == old(self).in_expr_m(),
            final(self).push_type_m() == old(self).push_type_m(),
            match r {
                Some(o) => after_cur_s(old(self).stack_s()) == seq![obj_m(*o)] + after_cur_s(
                    final(self).stack_s(),
                ) && cur_m_s(final(self).stack_s()) == Some(obj_m(*o)) && !(obj_m(*o)
                    is Container),
                None => after_cur_s(old(self).stack_s()).len() == 0 && final(self).stack_s().len()
                    == 1 && after_cur_s(final(self).stack_s()).len() == 0
                    && ((old(self).stack_s().len() == 1 && elem_idx(old(self).stack_s()[0]) + 1
                    >= elem_cm(old(self).stack_s()[0]).content.len())
                    ==> final(self).stack_s() == old(self).stack_s()),
            },
    {
        let ghost orig = self.stack@;
        proof {
            assert(orig == old(self).stack_s());
        }
        let mut advancing = true;
        let mut found = false;
        while !found
            invariant
                orig == old(self).stack_s(),
                stack_wf(self.stack@),
                elem_cm(self.stack@[0]) == elem_cm(orig[0]),
                self.in_expr_m() == old(self).in_expr_m(),
                self.push_type_m() == old(self).push_type_m(),
                advancing ==> after_cur_s(self.stack@) == after_cur_s(orig),
                !advancing ==> pending_s(self.stack@) == after_cur_s(orig),
                !advancing && cur_m_s(self.stack@) is None ==> self.stack@.len() >= 2,
                found ==> !advancing && (cur_m_s(self.stack@) matches Some(o) && !(o
                    is Container)),
                (orig.len() == 1 && elem_idx(orig[0]) + 1 >= elem_cm(orig[0]).content.len())
                    ==> (advancing && self.stack@ == orig),
            decreases stack_work(self.stack@) + (if advancing {
                0int
            } else {
                cur_size(self.stack@)
            }), (if advancing {
                2int
            } else if !found {
                1int
            } else {
                0int
            }), (if advancing {
                0int
            } else {
                cur_size(self.stack@)
            }),
        {
            proof {
                lemma_stack_work_nonneg(self.stack@);
                match cur_m_s(self.stack@) {
                    Some(o) => lemma_obj_size_pos(o),
                    None => {},
                }
            }
            if advancing {
                match self.advance_once() {
                    AdvanceOutcome::Bumped => {
                        advancing = false;
                    },
                    AdvanceOutcome::Popped => {},
                    AdvanceOutcome::Exhausted => {
                        return None;
                    },
                }
            } else {
                match self.check_once() {
                    CheckOutcome::Descended => {},
                    CheckOutcome::PoppedEmpty => {
                        advancing = true;
                    },
                    CheckOutcome::Leaf => {
                        found = true;
                    },
                }
            }
        }
        let topi = self.stack.len() - 1;
        let e = &self.stack[topi];
        proof {
            assert(self.stack@[topi as int] == self.stack@.last());
        }
        let r = e.get();
        match r {
            Some(o) => {
                proof {
                    assert(cur_m_s(self.stack@) == Some(obj_m(*o)));
                    assert(leaves(obj_m(*o)) == seq![obj_m(*o)]);
                    assert(after_cur_s(orig) =~= seq![obj_m(*o)] + after_cur_s(self.stack@));
                }
                Some(o)
            },
            None => {
                proof {
                    assert(false);
                }
                None
            },
        }
    }
}

} // verus!

verus! {

impl Element {
    /// A value copy of the element: the same shared container, the same
    /// position.
    pub fn duplicate(&self) -> (r: Element)
        ensures
            r == *self,
    {
        Element { container: share_container(&self.container), index: self.index }
    }
}

impl RuntimeContext {
    /// A value copy of the frame: the same element stack, by value, and
    /// the same flags. Advancing the copy leaves the original untouched.
    pub fn duplicate(&self) -> (r: RuntimeContext)
        ensures
            r.stack_s() == self.stack_s(),
            r.in_expr_m() == self.in_expr_m(),
            r.push_type_m() == self.push_type_m(),
    {
        let mut stack: Vec<Element> = Vec::new();
        let mut i: usize = 0;
        while i < self.stack.len()
            invariant
                i <= self.stack@.len(),
                stack@.len() == i,
                forall|k: int| 0 <= k < i ==> #[trigger] stack@[k] == self.stack@[k],
            decreases self.stack@.len() - i,
        {
            stack.push(self.stack[i].duplicate());
            i = i + 1;
        }
        proof {
            assert(stack@ =~= self.stack@);
        }
        RuntimeContext {
            stack,
            in_expression_evaluation: self.in_expression_evaluation,
            stack_push_type: self.stack_push_type,
        }
    }
}

} // verus!
