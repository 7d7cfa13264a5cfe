use pathtracer::pool::{TaskQueue, WorkerStep};

fn run_one(q: &mut TaskQueue<u32>, seen: &mut Vec<u32>) -> bool {
    match q.take() {
        WorkerStep::Run(ticket, task) => {
            seen.push(task);
            assert!(q.finish(ticket));
            true
        }
        _ => false,
    }
}

#[test]
fn all_tasks_run_once_then_idle() {
    let mut q: TaskQueue<u32> = TaskQueue::new();
    for i in 0..6u32 {
        assert_eq!(q.push(i * 10), Ok(i as u64));
    }
    assert!(!q.is_idle());
    let mut seen = Vec::new();
    while run_one(&mut q, &mut seen) {}
    assert!(q.is_idle());
    assert_eq!(seen, vec![0, 10, 20, 30, 40, 50]);
}

#[test]
fn empty_queue_makes_worker_wait() {
    let mut q: TaskQueue<u32> = TaskQueue::new();
    assert!(q.is_idle());
    assert!(matches!(q.take(), WorkerStep::Wait));
}

#[test]
fn running_task_keeps_pool_busy() {
    let mut q: TaskQueue<u32> = TaskQueue::new();
    q.push(7).unwrap();
    let ticket = match q.take() {
        WorkerStep::Run(t, task) => {
            assert_eq!(task, 7);
            t
        }
        _ => panic!("expected a task"),
    };
    assert!(!q.is_idle());
    assert!(matches!(q.take(), WorkerStep::Wait));
    assert!(q.finish(ticket));
    assert!(q.is_idle());
}

#[test]
fn finishing_twice_is_refused() {
    let mut q: TaskQueue<u32> = TaskQueue::new();
    q.push(1).unwrap();
    let ticket = match q.take() {
        WorkerStep::Run(t, _) => t,
        _ => panic!("expected a task"),
    };
    assert!(q.finish(ticket));
    assert!(!q.finish(ticket));
    assert!(!q.finish(99));
}

#[test]
fn stop_drops_queued_tasks_and_sends_workers_away() {
    let mut q: TaskQueue<u32> = TaskQueue::new();
    q.push(1).unwrap();
    q.push(2).unwrap();
    q.push(3).unwrap();
    let ticket = match q.take() {
        WorkerStep::Run(t, task) => {
            assert_eq!(task, 1);
            t
        }
        _ => panic!("expected a task"),
    };
    let dropped = q.request_stop();
    assert_eq!(dropped, vec![2, 3]);
    assert!(matches!(q.take(), WorkerStep::Exit));
    assert_eq!(q.push(4), Err(4));
    assert!(!q.is_idle());
    assert!(q.finish(ticket));
    assert!(q.is_idle());
}

#[test]
fn closures_queue_in_order() {
    let mut q: TaskQueue<Box<dyn FnOnce() -> u32>> = TaskQueue::new();
    for i in 0..3u32 {
        assert!(q.push(Box::new(move || i + 100)).is_ok());
    }
    let mut results = Vec::new();
    loop {
        match q.take() {
            WorkerStep::Run(ticket, task) => {
                results.push(task());
                assert!(q.finish(ticket));
            }
            _ => break,
        }
    }
    assert_eq!(results, vec![100, 101, 102]);
    assert!(q.is_idle());
}
