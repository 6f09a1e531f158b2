use boxlang_compiler::runtime::channel::{recv_wait_step, send_wait_step, WaitStep};
use boxlang_compiler::ui::progress_counts;
use boxlang_compiler::runtime::channel::{channel, unbounded, Channel, ChannelError, ChannelState};
use boxlang_compiler::runtime::future::{FuturePoll, Join, PendingFuture, ReadyFuture};
use boxlang_compiler::runtime::memory::{AllocError, Box, MemoryStats, Pool, StackAlloc};
use boxlang_compiler::runtime::scheduler::{Scheduler, Task, TaskId, TaskQueue, TaskState};
use boxlang_compiler::runtime::WorkQueue;

#[test]
fn test_bounded_channel() {
    let (tx, rx) = channel::<i32>(2);
    assert!(tx.send(1).is_ok());
    assert!(tx.send(2).is_ok());
    assert_eq!(tx.send(3), Err(ChannelError::Full));
    assert_eq!(rx.recv().expect("recv should succeed in test"), 1);
    assert!(tx.send(3).is_ok());
}

#[test]
fn test_unbounded_channel() {
    let (tx, rx) = unbounded::<i32>();
    for i in 0..100 {
        assert!(tx.send(i).is_ok());
    }
    for i in 0..100 {
        assert_eq!(rx.recv().expect("recv should succeed in test"), i);
    }
}

#[test]
fn test_channel_close() {
    let (tx, rx) = channel::<i32>(10);
    tx.send(1).expect("send should succeed in test");
    drop(tx);
    assert_eq!(rx.recv().expect("recv should succeed in test"), 1);
    assert_eq!(rx.recv(), Err(ChannelError::Closed));
}

#[test]
fn test_channel() {
    let (tx, rx) = Channel::new(10);
    tx.send(42).unwrap();
    assert_eq!(rx.recv().unwrap(), 42);
}

#[test]
fn channel_stays_open_while_a_clone_lives_and_closes_for_senders() {
    let (tx, rx) = channel::<i32>(4);
    let tx2 = tx.clone();
    drop(tx);
    assert_eq!(rx.recv(), Err(ChannelError::Empty));
    assert!(!rx.is_closed());
    tx2.send(5).unwrap();
    assert_eq!(rx.len(), 1);
    drop(rx);
    assert_eq!(tx2.send(6), Err(ChannelError::Closed));
    assert!(tx2.is_closed());
}

#[test]
fn channel_state_is_first_in_first_out() {
    let mut s = ChannelState::new(2);
    assert!(s.send(1).is_ok());
    assert!(s.send(2).is_ok());
    assert!(s.is_full());
    assert_eq!(s.send(3), Err(ChannelError::Full));
    assert_eq!(s.recv(), Ok(1));
    s.close();
    assert_eq!(s.send(4), Err(ChannelError::Closed));
    assert_eq!(s.recv(), Ok(2));
    assert_eq!(s.recv(), Err(ChannelError::Closed));
    assert_eq!(ChannelError::Full.message(), "channel is full");
}

#[test]
fn test_ready_future() {
    let mut fut = ReadyFuture::new(42);
    match fut.poll() {
        FuturePoll::Ready(42) => {}
        _ => panic!("Expected Ready(42)"),
    }
}

#[test]
fn test_pending_future() {
    let mut fut = PendingFuture::<i32>::new();
    match fut.poll() {
        FuturePoll::Pending => {}
        _ => panic!("Expected Pending"),
    }
}

#[test]
fn join_waits_for_both_results() {
    let mut j: Join<(), (), i32, i32> = Join::new((), ());
    assert_eq!(j.step(Some(FuturePoll::Ready(1)), Some(FuturePoll::Pending)), FuturePoll::Pending);
    assert_eq!(j.step(None, Some(FuturePoll::Ready(2))), FuturePoll::Ready((1, 2)));
}

#[test]
fn test_box() {
    let b = Box::new(42).expect("Box allocation should succeed in test");
    assert_eq!(*b, 42);
}

#[test]
fn test_stack_alloc() {
    let mut stack = StackAlloc::<i32>::new(1024).expect("StackAlloc creation should succeed in test");
    stack.push(1).expect("Stack push should succeed in test");
    stack.push(2).expect("Stack push should succeed in test");
    stack.push(3).expect("Stack push should succeed in test");
    assert_eq!(stack.pop(), Some(3));
    assert_eq!(stack.pop(), Some(2));
    assert_eq!(stack.pop(), Some(1));
    assert_eq!(stack.pop(), None);
}

#[test]
fn stack_alloc_refuses_what_does_not_fit() {
    let mut stack = StackAlloc::<u64>::new(16).unwrap();
    assert!(stack.push(1).is_ok());
    assert_eq!(stack.used(), 8);
    assert!(stack.push(2).is_ok());
    assert_eq!(stack.push(3), Err(AllocError::OutOfMemory));
    assert_eq!(stack.num_allocs(), 2);
    stack.reset();
    assert_eq!(stack.used(), 0);
    assert!(StackAlloc::<u8>::new(usize::MAX).is_err());
}

#[test]
fn memory_stats_track_usage_and_peak() {
    let mut s = MemoryStats::default();
    s.record_alloc(100);
    s.record_alloc(50);
    s.record_dealloc(120);
    assert_eq!(s.current_usage, 30);
    assert_eq!(s.peak_usage, 150);
    assert_eq!(s.total_allocated, 150);
    assert_eq!(s.total_deallocated, 120);
    assert_eq!((s.num_allocations, s.num_deallocations), (2, 1));
}

#[test]
fn pool_hands_slots_out_and_back() {
    let mut pool = Pool::<i32>::new(2);
    let g1 = pool.acquire(|| 1).unwrap();
    let g2 = pool.acquire(|| 2).unwrap();
    assert_eq!(*pool.get(&g1), 1);
    assert_eq!(*pool.get(&g2), 2);
    assert!(pool.is_exhausted());
    assert_eq!(pool.acquire(|| 3).err(), Some(AllocError::PoolExhausted));
    pool.release(g1);
    assert_eq!(pool.available(), 1);
    assert_eq!(pool.in_use(), 1);
}

#[test]
fn test_work_queue() {
    let mut queue = WorkQueue::new();
    queue.push(1);
    queue.push(2);
    assert_eq!(queue.pop(), Some(1));
    assert_eq!(queue.pop(), Some(2));
    assert_eq!(queue.pop(), None);
}

#[test]
fn test_scheduler_spawn() {
    let mut scheduler = Scheduler::new(4);
    let id = scheduler.spawn(|| {
        println!("Hello from task!");
    });
    assert!(scheduler.task_state(id).is_some());
}

#[test]
fn test_task_state_transitions() {
    let mut scheduler = Scheduler::new(4);
    let id = scheduler.spawn(|| {});
    assert_eq!(scheduler.task_state(id), Some(TaskState::Ready));
    scheduler.block_task(id);
    assert_eq!(scheduler.task_state(id), Some(TaskState::Blocked));
    scheduler.unblock_task(id);
    assert_eq!(scheduler.task_state(id), Some(TaskState::Ready));
    scheduler.complete_task(id);
    assert_eq!(scheduler.task_state(id), Some(TaskState::Completed));
}

#[test]
fn test_task_queue() {
    let mut queue = TaskQueue::new();
    let task1 = Task::new(TaskId::from_raw(1));
    let task2 = Task::new(TaskId::from_raw(2));
    queue.push_local(task1);
    queue.push_local(task2);
    assert_eq!(queue.len(), 2);
    let _ = queue.pop_local();
    assert_eq!(queue.len(), 1);
    let _ = queue.pop_local();
    assert!(queue.is_empty());
}

#[test]
fn scheduler_counts_states_and_wakes_tasks() {
    let mut s = Scheduler::new(2);
    let a = s.spawn(|| {});
    let b = s.spawn(|| {});
    assert_ne!(a, b);
    s.block_task(a);
    assert_eq!(s.num_tasks(), 2);
    assert_eq!(s.num_blocked_tasks(), 1);
    assert_eq!(s.num_ready_tasks(), 1);
    s.wake_task(a);
    assert_eq!(s.task_state(a), Some(TaskState::Ready));
    s.cancel_task(b);
    assert_eq!(s.task_state(b), Some(TaskState::Cancelled));
    assert_eq!(s.task_state(TaskId::from_raw(999)), None);
    assert!(!s.is_running());
    s.start();
    assert!(s.is_running());
}

#[test]
fn test_wait_steps() {
    assert!(matches!(send_wait_step::<u8>(Ok(()), true), WaitStep::Done(Ok(()))));
    assert!(matches!(send_wait_step(Err((ChannelError::Full, 7u8)), false), WaitStep::Retry(7)));
    assert!(matches!(send_wait_step(Err((ChannelError::Full, 7u8)), true), WaitStep::Done(Err(ChannelError::Timeout))));
    assert!(matches!(send_wait_step(Err((ChannelError::Closed, 7u8)), false), WaitStep::Done(Err(ChannelError::Closed))));
    assert!(matches!(recv_wait_step::<u8>(Err(ChannelError::Empty), false), WaitStep::Retry(())));
    assert!(matches!(recv_wait_step::<u8>(Err(ChannelError::Empty), true), WaitStep::Done(Err(ChannelError::Timeout))));
    assert!(matches!(recv_wait_step(Ok(3u8), true), WaitStep::Done(Ok(3))));
}

#[test]
fn test_progress_counts() {
    assert_eq!(progress_counts(0, 10), (0, 40, 0));
    assert_eq!(progress_counts(5, 10), (20, 20, 50));
    assert_eq!(progress_counts(10, 10), (40, 0, 100));
    assert_eq!(progress_counts(1, 3), (13, 27, 33));
}
