//! Cooperative/preemptive scheduler: a FIFO ready queue of thread ids, the
//! current- and next-thread slots of the single CPU, and an idle thread
//! that runs whenever the queue is empty.
//!
//! The context switch itself (saving and loading the callee-saved register
//! set) is a machine step: `yield_execution` makes the dispatch decision,
//! updates the slots the way the switch's finish hook leaves them, and
//! tells the embedder which switch to perform.

use vstd::prelude::*;

use std::collections::VecDeque;

verus! {

/// The System-V callee-saved integer registers plus `rflags`. Everything
/// else lives on the thread's kernel stack across a switch.
#[derive(Clone, Copy, Debug)]
pub struct Context {
    pub rflags: u64,
    pub rbx: u64,
    pub r12: u64,
    pub r13: u64,
    pub r14: u64,
    pub r15: u64,
    pub rbp: u64,
    pub rsp: u64,
}

impl Context {
    /// A blank context; the registers are saved into it on the first
    /// switch away from the thread.
    pub fn new() -> (r: Context)
        ensures
            r.rflags == 0,
            r.rbx == 0,
            r.r12 == 0,
            r.r13 == 0,
            r.r14 == 0,
            r.r15 == 0,
            r.rbp == 0,
            r.rsp == 0,
    {
        Context { rflags: 0, rbx: 0, r12: 0, r13: 0, r14: 0, r15: 0, rbp: 0, rsp: 0 }
    }
}

/// Words in a thread's kernel stack.
pub const KSTACK_WORDS: usize = 8192;

/// One thread: its saved context, its kernel stack (stack positions are
/// word indices into it; the embedder places it in memory), its owning
/// process, and the top-level page-table frame to load on dispatch.
pub struct Thread {
    pub context: Context,
    /// Kernel stack.
    pub kstack: Vec<u64>,
    /// Parent process (PID reference).
    pub process: Option<u32>,
    /// Thread id.
    pub tid: u32,
    pub name: Option<String>,
    pub cr3_frame: Option<u64>,
}

impl Thread {
    pub open spec fn wf(self) -> bool {
        self.kstack@.len() == KSTACK_WORDS
    }

    /// A thread that starts at `func` (the entry point's address, handed
    /// through to the machine): the entry sits on top of the kernel stack
    /// so the first switch returns into it.
    pub fn from_func(
        func: u64,
        process: Option<u32>,
        name: Option<String>,
        cr3_frame: Option<u64>,
        tid: u32,
    ) -> (r: Thread)
        ensures
            r.wf(),
            r.process == process,
            r.tid == tid,
            r.name == name,
            r.cr3_frame == cr3_frame,
            r.kstack@[KSTACK_WORDS - 1] == func,
            forall|q: int| 0 <= q < KSTACK_WORDS - 1 ==> r.kstack@[q] == 0u64,
            r.context.rsp == KSTACK_WORDS - 1,
            r.context.rflags == 0,
            r.context.rbx == 0,
            r.context.rbp == 0,
            r.context.r12 == 0,
            r.context.r13 == 0,
            r.context.r14 == 0,
            r.context.r15 == 0,
    {
        let mut kstack: Vec<u64> = Vec::new();
        let mut i: usize = 0;
        while i < KSTACK_WORDS
            invariant
                0 <= i <= KSTACK_WORDS,
                kstack@.len() == i,
                forall|q: int| 0 <= q < i ==> kstack@[q] == 0u64,
            decreases KSTACK_WORDS - i,
        {
            kstack.push(0);
            i = i + 1;
        }
        let mut thread = Thread {
            context: Context::new(),
            kstack,
            process,
            tid,
            name,
            cr3_frame,
        };
        thread.set_func(func);
        thread
    }

    /// Puts the entry address on top of the kernel stack and points the
    /// saved stack pointer at it, so that the switch's return lands there.
    pub fn set_func(&mut self, func: u64)
        requires
            old(self).wf(),
        ensures
            final(self).wf(),
            final(self).kstack@ == old(self).kstack@.update(KSTACK_WORDS - 1, func),
            final(self).context.rsp == KSTACK_WORDS - 1,
            final(self).context.rflags == old(self).context.rflags,
            final(self).context.rbx == old(self).context.rbx,
            final(self).context.rbp == old(self).context.rbp,
            final(self).context.r12 == old(self).context.r12,
            final(self).context.r13 == old(self).context.r13,
            final(self).context.r14 == old(self).context.r14,
            final(self).context.r15 == old(self).context.r15,
            final(self).process == old(self).process,
            final(self).tid == old(self).tid,
            final(self).name == old(self).name,
            final(self).cr3_frame == old(self).cr3_frame,
    {
        self.kstack.set(KSTACK_WORDS - 1, func);
        self.context.rsp = (KSTACK_WORDS - 1) as u64;
    }

    /// The kernel stack top, as a word index; the embedder adds the
    /// stack's placement to obtain the machine address.
    pub fn kstack_addr(&self) -> (r: u64)
        requires
            self.wf(),
        ensures
            r == self.kstack@.len(),
    {
        self.kstack.len() as u64
    }
}

/// Mathematical scheduler state.
pub struct SchedulerView {
    pub ready: Seq<u32>,
    pub current: Option<u32>,
    pub next: Option<u32>,
    pub idle: u32,
}

/// The thread a yield at state `v` dispatches: the queue head, or idle
/// when the queue is empty.
pub open spec fn dispatch_candidate(v: SchedulerView) -> u32 {
    if v.ready.len() > 0 {
        v.ready[0]
    } else {
        v.idle
    }
}

/// The scheduler state after one yield: the head leaves the queue, and
/// unless the dispatched thread is already the current one, it becomes
/// current and the transient next slot is cleared again.
pub open spec fn spec_yield(v: SchedulerView) -> SchedulerView {
    let cand = dispatch_candidate(v);
    let rest = if v.ready.len() > 0 {
        v.ready.drop_first()
    } else {
        v.ready
    };
    if v.current == Option::Some(cand) {
        SchedulerView { ready: rest, ..v }
    } else {
        SchedulerView { ready: rest, current: Option::Some(cand), next: Option::None, ..v }
    }
}

/// The state after `n` yields with no enqueue in between.
pub open spec fn spec_yield_n(v: SchedulerView, n: nat) -> SchedulerView
    decreases n,
{
    if n == 0 {
        v
    } else {
        spec_yield_n(spec_yield(v), (n - 1) as nat)
    }
}

/// Law: the ready queue is FIFO. With no enqueues in between, the `k`-th
/// yield dispatches the `k`-th queued thread; so if A is enqueued before B
/// with no dispatch in between, the queue holds A ahead of B (`enqueue`
/// appends) and A is dispatched first.
pub proof fn lemma_ready_queue_fifo(v: SchedulerView, k: nat)
    requires
        k < v.ready.len(),
    ensures
        dispatch_candidate(spec_yield_n(v, k)) == v.ready[k as int],
    decreases k,
{
    lemma_yield_n_ready(v, k);
}

proof fn lemma_yield_n_ready(v: SchedulerView, n: nat)
    requires
        n <= v.ready.len(),
    ensures
        spec_yield_n(v, n).ready == v.ready.skip(n as int),
    decreases n,
{
    if n == 0 {
        assert(v.ready.skip(0) =~= v.ready);
    } else {
        assert(spec_yield(v).ready =~= v.ready.skip(1));
        lemma_yield_n_ready(spec_yield(v), (n - 1) as nat);
        assert(v.ready.skip(1).skip(n - 1) =~= v.ready.skip(n as int));
    }
}

/// The ready queue and the CPU's thread slots.
pub struct Scheduler {
    ready: VecDeque<u32>,
    current: Option<u32>,
    next: Option<u32>,
    idle: u32,
}

impl View for Scheduler {
    type V = SchedulerView;

    closed spec fn view(&self) -> SchedulerView {
        SchedulerView {
            ready: self.ready@,
            current: self.current,
            next: self.next,
            idle: self.idle,
        }
    }
}

impl Scheduler {
    /// The empty ready queue, with the given idle thread and nothing
    /// running yet. Must be called exactly once, at boot.
    pub fn init(idle: u32) -> (r: Scheduler)
        ensures
            r@.ready == Seq::<u32>::empty(),
            r@.current is None,
            r@.next is None,
            r@.idle == idle,
    {
        Scheduler { ready: VecDeque::new(), current: Option::None, next: Option::None, idle }
    }

    /// Appends a thread to the tail of the ready queue.
    pub fn enqueue(&mut self, tid: u32)
        ensures
            final(self)@ == (SchedulerView { ready: old(self)@.ready.push(tid), ..old(self)@ }),
    {
        self.ready.push_back(tid);
    }

    pub fn current(&self) -> (r: Option<u32>)
        ensures
            r == self@.current,
    {
        self.current
    }

    pub fn idle_thread(&self) -> (r: u32)
        ensures
            r == self@.idle,
    {
        self.idle
    }

    /// Takes over after the machine switch: the embedder calls it for the
    /// bookkeeping the switch's finish hook does (the slots themselves are
    /// already updated here in `yield_execution`).
    pub fn set_current(&mut self, tid: Option<u32>)
        ensures
            final(self)@ == (SchedulerView { current: tid, ..old(self)@ }),
    {
        self.current = tid;
    }

    /// Yields the CPU: picks the queue head (or idle), and unless that
    /// thread is already running, makes it current and reports the switch
    /// the machine must perform as (previous, next). `None` means the
    /// dispatched thread was already running and no switch happens.
    pub fn yield_execution(&mut self) -> (switch: Option<(Option<u32>, u32)>)
        ensures
            final(self)@ == spec_yield(old(self)@),
            switch == if old(self)@.current == Option::Some(dispatch_candidate(old(self)@)) {
                Option::<(Option<u32>, u32)>::None
            } else {
                Option::<(Option<u32>, u32)>::Some(
                    (old(self)@.current, dispatch_candidate(old(self)@)),
                )
            },
    {
        let cand: u32 = match self.ready.pop_front() {
            Option::Some(t) => t,
            Option::None => self.idle,
        };
        let same = match self.current {
            Option::Some(c) => c == cand,
            Option::None => false,
        };
        if same {
            return Option::None;
        }
        let prev = self.current;
        self.current = Option::Some(cand);
        self.next = Option::None;
        Option::Some((prev, cand))
    }

    /// Yields to the scheduler but keeps the current thread runnable: it
    /// goes to the tail of the queue before the dispatch.
    pub fn yield_and_continue(&mut self) -> (switch: Option<(Option<u32>, u32)>)
        ensures
            ({
                let mid = match old(self)@.current {
                    Option::Some(c) => SchedulerView { ready: old(self)@.ready.push(c), ..old(self)@ },
                    Option::None => old(self)@,
                };
                &&& final(self)@ == spec_yield(mid)
                &&& switch == if mid.current == Option::Some(dispatch_candidate(mid)) {
                    Option::<(Option<u32>, u32)>::None
                } else {
                    Option::<(Option<u32>, u32)>::Some((mid.current, dispatch_candidate(mid)))
                }
            }),
    {
        match self.current {
            Option::Some(c) => self.enqueue(c),
            Option::None => {},
        }
        self.yield_execution()
    }
}

} // verus!
