use kernelcore::Context;
use kernelcore::Scheduler;
use kernelcore::Thread;

#[test]
fn context_starts_blank() {
    let c = Context::new();
    assert_eq!(c.rflags, 0);
    assert_eq!(c.rsp, 0);
    assert_eq!(c.rbp, 0);
}

#[test]
fn ready_queue_is_fifo() {
    // enqueue(A) before enqueue(B) with no dispatch between: A runs first
    let mut s = Scheduler::init(0);
    s.enqueue(5);
    s.enqueue(6);
    let first = s.yield_execution();
    assert_eq!(first, Some((None, 5)));
    let second = s.yield_execution();
    assert_eq!(second, Some((Some(5), 6)));
    assert_eq!(s.current(), Some(6));
}

#[test]
fn empty_queue_dispatches_idle() {
    let mut s = Scheduler::init(9);
    let switch = s.yield_execution();
    assert_eq!(switch, Some((None, 9)));
    assert_eq!(s.current(), Some(9));
    // yielding again with nothing queued keeps the idle thread, with no
    // switch to perform
    let switch = s.yield_execution();
    assert_eq!(switch, None);
}

#[test]
fn yield_and_continue_requeues_the_current_thread() {
    let mut s = Scheduler::init(0);
    s.enqueue(4);
    s.yield_execution();
    s.enqueue(5);
    // the running thread goes to the tail: 5 dispatches, 4 waits behind
    let switch = s.yield_and_continue();
    assert_eq!(switch, Some((Some(4), 5)));
    let switch = s.yield_and_continue();
    assert_eq!(switch, Some((Some(5), 4)));
}

#[test]
fn thread_entry_sits_on_the_stack_top() {
    let t = Thread::from_func(0x1234, Some(1), None, Some(77), 3);
    assert_eq!(t.tid, 3);
    assert_eq!(t.process, Some(1));
    assert_eq!(t.cr3_frame, Some(77));
    assert_eq!(t.kstack[t.kstack.len() - 1], 0x1234);
    assert_eq!(t.context.rsp, (t.kstack.len() - 1) as u64);
    assert_eq!(t.kstack_addr(), t.kstack.len() as u64);
}

#[test]
fn set_func_replaces_the_entry() {
    let mut t = Thread::from_func(1, None, None, None, 0);
    t.set_func(0x9999);
    assert_eq!(t.kstack[t.kstack.len() - 1], 0x9999);
}
