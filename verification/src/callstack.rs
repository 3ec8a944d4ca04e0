//! The call stack: a stack of narrative threads, each a stack of
//! frames. Threads are data, not concurrency: pushing a thread deep-
//! copies the current one, and the two cursors then evolve
//! independently.

use vstd::prelude::*;

use std::rc::Rc;

use crate::runtime::divert::PushPopType;
use crate::runtime::{cont_m, obj_m, Container, RuntimeObject};
use crate::runtime_context::{after_cur_s, cur_m_s, elem_cm, stack_wf, Element, RuntimeContext};

verus! {

/// The model of a frame: its element stack and its two flags.
pub open spec fn ctx_m(c: RuntimeContext) -> (Seq<Element>, bool, PushPopType) {
    (c.stack_s(), c.in_expr_m(), c.push_type_m())
}

/// A stack of frames belonging to one narrative thread.
#[derive(Debug)]
pub struct Thread {
    stack: Vec<RuntimeContext>,
}

/// The model of a thread: the models of its frames, bottom first.
pub closed spec fn thread_m(t: Thread) -> Seq<(Seq<Element>, bool, PushPopType)> {
    Seq::new(t.stack@.len(), |i: int| ctx_m(t.stack@[i]))
}

/// Every frame of the thread has a well-formed element stack.
pub open spec fn thread_wf(t: Thread) -> bool {
    forall|i: int| 0 <= i < thread_m(t).len() ==> stack_wf(#[trigger] thread_m(t)[i].0)
}

impl Thread {
    pub fn new() -> (r: Thread)
        ensures
            thread_m(r).len() == 0,
    {
        Thread { stack: Vec::new() }
    }

    pub fn stack(&self) -> (r: &Vec<RuntimeContext>)
        ensures
            r@.len() == thread_m(*self).len(),
            forall|i: int| 0 <= i < r@.len() ==> ctx_m(#[trigger] r@[i]) == thread_m(*self)[i],
    {
        &self.stack
    }

    /// Pushes a frame on the thread.
    pub fn push(&mut self, runtime_context: RuntimeContext)
        ensures
            thread_m(*final(self)) == thread_m(*old(self)).push(ctx_m(runtime_context)),
    {
        let ghost cm = ctx_m(runtime_context);
        self.stack.push(runtime_context);
        proof {
            assert(thread_m(*self) =~= thread_m(*old(self)).push(cm));
        }
    }

    /// Pops the top frame, if any.
    pub fn pop(&mut self) -> (r: Option<RuntimeContext>)
        ensures
            match r {
                Some(c) => thread_m(*old(self)).len() > 0 && ctx_m(c) == thread_m(
                    *old(self),
                ).last() && thread_m(*final(self)) == thread_m(*old(self)).drop_last(),
                None => thread_m(*old(self)).len() == 0 && thread_m(*final(self)) == thread_m(
                    *old(self),
                ),
            },
    {
        let r = self.stack.pop();
        proof {
            match r {
                Some(_) => {
                    assert(thread_m(*self) =~= thread_m(*old(self)).drop_last());
                },
                None => {
                    assert(thread_m(*self) =~= thread_m(*old(self)));
                },
            }
        }
        r
    }

    /// Pops the top frame exactly when the predicate accepts it; the
    /// predicate is called at most once, on the top frame.
    pub fn pop_if<F: FnOnce(&RuntimeContext) -> bool>(&mut self, f: F) -> (r: Option<
        RuntimeContext,
    >)
        requires
            forall|c: &RuntimeContext| #[trigger] f.requires((c,)),
        ensures
            match r {
                Some(c) => thread_m(*old(self)).len() > 0 && ctx_m(c) == thread_m(
                    *old(self),
                ).last() && thread_m(*final(self)) == thread_m(*old(self)).drop_last() && (
                exists|cr: &RuntimeContext|
                    ctx_m(*cr) == thread_m(*old(self)).last() && f.ensures((cr,), true)),
                None => thread_m(*final(self)) == thread_m(*old(self)) && (thread_m(
                    *old(self),
                ).len() == 0 || exists|cr: &RuntimeContext|
                    ctx_m(*cr) == thread_m(*old(self)).last() && f.ensures((cr,), false)),
            },
    {
        let should_pop: bool;
        match self.stack.last() {
            Some(runtime_context) => {
                should_pop = f(runtime_context);
                proof {
                    assert(ctx_m(*runtime_context) == thread_m(*self).last());
                    if should_pop {
                        assert(exists|cr: &RuntimeContext|
                            ctx_m(*cr) == thread_m(*old(self)).last() && f.ensures((cr,), true));
                    } else {
                        assert(exists|cr: &RuntimeContext|
                            ctx_m(*cr) == thread_m(*old(self)).last() && f.ensures((cr,), false));
                    }
                }
            },
            None => {
                should_pop = false;
            },
        }
        if should_pop {
            self.pop()
        } else {
            None
        }
    }

    /// A value copy of the thread: the same frames, by value. Advancing
    /// a cursor of the copy leaves the original untouched.
    pub fn duplicate(&self) -> (r: Thread)
        ensures
            thread_m(r) == thread_m(*self),
    {
        let mut stack: Vec<RuntimeContext> = Vec::new();
        let mut i: usize = 0;
        while i < self.stack.len()
            invariant
                i <= self.stack@.len(),
                stack@.len() == i,
                forall|k: int|
                    0 <= k < i ==> ctx_m(#[trigger] stack@[k]) == ctx_m(self.stack@[k]),
            decreases self.stack@.len() - i,
        {
            stack.push(self.stack[i].duplicate());
            i = i + 1;
        }
        let r = Thread { stack };
        proof {
            assert(thread_m(r) =~= thread_m(*self));
        }
        r
    }
}

} // verus!

verus! {

/// The call stack: a stack of narrative threads. It is never empty
/// after construction.
#[derive(Debug)]
pub struct CallStack {
    threads: Vec<Thread>,
}

impl CallStack {
    /// The model of the call stack: the models of its threads, bottom
    /// first.
    pub closed spec fn cs_m(&self) -> Seq<Seq<(Seq<Element>, bool, PushPopType)>> {
        Seq::new(self.threads@.len(), |i: int| thread_m(self.threads@[i]))
    }

    /// At least one thread, and every frame well-formed.
    pub closed spec fn wf(&self) -> bool {
        &&& self.threads@.len() >= 1
        &&& forall|i: int| 0 <= i < self.threads@.len() ==> thread_wf(#[trigger] self.threads@[i])
    }

    /// A fresh call stack: one thread holding one frame rooted at the
    /// graph's root, created as a tunnel.
    pub fn new(root_container: &Rc<Container>) -> (r: CallStack)
        ensures
            r.wf(),
            r.cs_m().len() == 1,
            r.cs_m()[0].len() == 1,
            ({
                let c0 = r.cs_m()[0][0];
                &&& stack_wf(c0.0)
                &&& elem_cm(c0.0[0]) == cont_m(**root_container)
                &&& c0.1 == false
                &&& c0.2 == PushPopType::Tunnel
                &&& crate::runtime_context::cur_leaves_s(c0.0) + after_cur_s(c0.0)
                    == crate::runtime_context::leaves_seq(cont_m(**root_container).content)
                &&& (cur_m_s(c0.0) matches Some(o) ==> !(o is Container))
                &&& (crate::runtime_context::leaves_seq(cont_m(**root_container).content).len()
                    > 0 ==> cur_m_s(c0.0) == Some(
                    crate::runtime_context::leaves_seq(cont_m(**root_container).content)[0],
                ))
                &&& (crate::runtime_context::leaves_seq(cont_m(**root_container).content).len()
                    == 0 ==> cur_m_s(c0.0) is None)
                &&& (cont_m(**root_container).content.len() == 0 ==> c0.0.len() == 1)
                &&& (cont_m(**root_container).content.len() > 0 && !(cont_m(
                    **root_container,
                ).content[0] is Container) ==> c0.0.len() == 1)
            }),
    {
        let mut thread = Thread::new();
        thread.push(RuntimeContext::new(root_container));
        let mut threads: Vec<Thread> = Vec::new();
        threads.push(thread);
        let r = CallStack { threads };
        proof {
            assert(r.cs_m().len() == 1);
            assert(r.cs_m()[0].len() == 1);
            assert(thread_m(r.threads@[0]).len() == 1);
        }
        r
    }

    /// The current (top) thread.
    pub fn thread(&self) -> (r: Option<&Thread>)
        ensures
            match r {
                Some(t) => self.cs_m().len() >= 1 && thread_m(*t) == self.cs_m().last(),
                None => self.cs_m().len() == 0,
            },
    {
        self.threads.last()
    }

    /// The frames of the current thread.
    pub fn stack(&self) -> (r: Option<&Vec<RuntimeContext>>)
        ensures
            match r {
                Some(v) => self.cs_m().len() >= 1 && v@.len() == self.cs_m().last().len()
                    && forall|i: int|
                    0 <= i < v@.len() ==> ctx_m(#[trigger] v@[i]) == self.cs_m().last()[i],
                None => self.cs_m().len() == 0,
            },
    {
        match self.threads.last() {
            Some(t) => Some(t.stack()),
            None => None,
        }
    }

    /// The current frame: the top of the current thread.
    pub fn runtime_context(&self) -> (r: Option<&RuntimeContext>)
        ensures
            match r {
                Some(c) => self.cs_m().len() >= 1 && self.cs_m().last().len() >= 1 && ctx_m(*c)
                    == self.cs_m().last().last(),
                None => self.cs_m().len() == 0 || (self.cs_m().len() >= 1
                    && self.cs_m().last().len() == 0),
            },
    {
        match self.threads.last() {
            Some(t) => {
                let r = t.stack().last();
                proof {
                    match r {
                        Some(c) => {
                            assert(ctx_m(*c) == thread_m(*t)[thread_m(*t).len() - 1]);
                        },
                        None => {},
                    }
                }
                r
            },
            None => None,
        }
    }

    /// The object the current frame's cursor points at.
    pub fn runtime_object(&self) -> (r: Option<&RuntimeObject>)
        ensures
            match r {
                Some(o) => self.cs_m().len() >= 1 && self.cs_m().last().len() >= 1 && cur_m_s(
                    self.cs_m().last().last().0,
                ) == Some(obj_m(*o)),
                None => self.cs_m().len() == 0 || self.cs_m().last().len() == 0 || cur_m_s(
                    self.cs_m().last().last().0,
                ) is None,
            },
    {
        match self.runtime_context() {
            Some(runtime_context) => runtime_context.get(),
            None => None,
        }
    }

    /// The number of frames in the current thread.
    pub fn depth(&self) -> (r: usize)
        ensures
            self.cs_m().len() >= 1 ==> r == self.cs_m().last().len(),
            self.cs_m().len() == 0 ==> r == 0,
    {
        match self.thread() {
            Some(t) => t.stack().len(),
            None => 0,
        }
    }

    /// The thread at the given position, bottom first.
    pub fn thread_from_index(&self, index: usize) -> (r: Option<&Thread>)
        ensures
            match r {
                Some(t) => index < self.cs_m().len() && thread_m(*t) == self.cs_m()[index as int],
                None => index >= self.cs_m().len(),
            },
    {
        if index < self.threads.len() {
            Some(&self.threads[index])
        } else {
            None
        }
    }

    /// Clones the current thread by deep-copying its frames and pushes
    /// the copy: both threads now share the containers, and the cursors
    /// of every earlier thread are untouched.
    pub fn push_thread(&mut self) -> (r: bool)
        ensures
            r == (old(self).cs_m().len() >= 1),
            old(self).cs_m().len() >= 1 ==> final(self).cs_m() == old(self).cs_m().push(
                old(self).cs_m().last(),
            ),
            old(self).cs_m().len() == 0 ==> final(self).cs_m() == old(self).cs_m(),
            old(self).wf() ==> final(self).wf(),
    {
        let dup = match self.threads.last() {
            Some(t) => t.duplicate(),
            None => {
                return false;
            },
        };
        self.threads.push(dup);
        proof {
            assert(final(self).cs_m() =~= old(self).cs_m().push(old(self).cs_m().last()));
        }
        true
    }

    /// Discards the current thread. It is ill-formed to pop the last
    /// thread, so at least two must be there.
    pub fn pop_thread(&mut self) -> (r: bool)
        requires
            old(self).cs_m().len() >= 2,
        ensures
            r,
            final(self).cs_m() == old(self).cs_m().drop_last(),
            old(self).wf() ==> final(self).wf(),
    {
        let r = self.threads.pop();
        proof {
            assert(final(self).cs_m() =~= old(self).cs_m().drop_last());
        }
        match r {
            Some(_) => true,
            None => {
                proof {
                    assert(false);
                }
                false
            },
        }
    }

    /// Replaces every thread with the given one.
    pub fn reset(&mut self, thread: Thread)
        ensures
            final(self).cs_m() == seq![thread_m(thread)],
            thread_wf(thread) ==> final(self).wf(),
    {
        let ghost tm = thread_m(thread);
        self.threads.clear();
        self.threads.push(thread);
        proof {
            assert(final(self).cs_m() =~= seq![tm]);
        }
    }
}

} // verus!

verus! {

impl CallStack {
    /// Advances the current frame's cursor to the next leaf in
    /// pre-order. Only the current frame of the current thread changes:
    /// every other thread, and every other frame, is exactly as it was —
    /// so a thread pushed by `push_thread` advances independently of the
    /// thread it was copied from.
    pub fn step(&mut self) -> (r: Option<&RuntimeObject>)
        requires
            old(self).wf(),
            old(self).cs_m().last().len() >= 1,
        ensures
            final(self).wf(),
            final(self).cs_m().len() == old(self).cs_m().len(),
            forall|i: int|
                0 <= i < old(self).cs_m().len() - 1 ==> final(self).cs_m()[i] == old(
                    self,
                ).cs_m()[i],
            final(self).cs_m().last().len() == old(self).cs_m().last().len(),
            forall|j: int|
                0 <= j < old(self).cs_m().last().len() - 1 ==> final(self).cs_m().last()[j]
                    == old(self).cs_m().last()[j],
            ({
                let oc = old(self).cs_m().last().last();
                let nc = final(self).cs_m().last().last();
                &&& nc.1 == oc.1
                &&& nc.2 == oc.2
                &&& stack_wf(nc.0)
                &&& elem_cm(nc.0[0]) == elem_cm(oc.0[0])
                &&& match r {
                    Some(o) => after_cur_s(oc.0) == seq![obj_m(*o)] + after_cur_s(nc.0)
                        && cur_m_s(nc.0) == Some(obj_m(*o)) && !(obj_m(*o) is Container),
                    None => after_cur_s(oc.0).len() == 0,
                }
            }),
    {
        let ghost old_cs = self.cs_m();
        let mut t = match self.threads.pop() {
            Some(t) => t,
            None => {
                proof {
                    assert(false);
                }
                return None;
            },
        };
        let ghost old_tm = thread_m(t);
        let mut c = match t.stack.pop() {
            Some(c) => c,
            None => {
                proof {
                    assert(false);
                }
                return None;
            },
        };
        let ghost old_cm = ctx_m(c);
        proof {
            assert(old_tm == old_cs.last());
            assert(old_cm == old_tm.last());
            assert(stack_wf(c.stack_s()));
        }
        let stepped = {
            let r0 = c.next();
            r0.is_some()
        };
        let ghost new_cm = ctx_m(c);
        t.stack.push(c);
        self.threads.push(t);
        proof {
            assert(thread_m(self.threads@.last()) =~= old_tm.drop_last().push(new_cm));
            assert(final(self).cs_m() =~= old_cs.drop_last().push(
                old_tm.drop_last().push(new_cm),
            ));
            assert(final(self).cs_m().last().last() == new_cm);
            assert(forall|j: int|
                0 <= j < old_tm.len() - 1 ==> final(self).cs_m().last()[j] == old_tm[j]);
        }
        if stepped {
            let r = self.runtime_object();
            proof {
                match r {
                    Some(o) => {
                        assert(cur_m_s(new_cm.0) == Some(obj_m(*o)));
                    },
                    None => {
                        assert(false);
                    },
                }
            }
            r
        } else {
            None
        }
    }
}

} // verus!
