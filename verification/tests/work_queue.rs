use bl602wifi::compat::queue::QUEUE_SIZE;
use bl602wifi::compat::work_queue::{do_work, take_work, work_queue, WorkQueues, WORK_BATCH};
use std::cell::RefCell;
use std::rc::Rc;

type Callback = Box<dyn Fn()>;

fn recorder(log: &Rc<RefCell<Vec<&'static str>>>, name: &'static str) -> Callback {
    let log = Rc::clone(log);
    Box::new(move || log.borrow_mut().push(name))
}

#[test]
fn each_lane_runs_its_callbacks_in_order_of_submission() {
    let log = Rc::new(RefCell::new(Vec::new()));
    let mut queues: WorkQueues<Callback> = WorkQueues::new();
    assert_eq!(work_queue(&mut queues, 0, recorder(&log, "f1"), 0), 0);
    assert_eq!(work_queue(&mut queues, 1, recorder(&log, "f2"), 0), 0);
    assert_eq!(work_queue(&mut queues, 0, recorder(&log, "f3"), 0), 0);
    do_work(&mut queues, 0);
    assert_eq!(*log.borrow(), vec!["f1", "f3"]);
    do_work(&mut queues, 1);
    assert_eq!(*log.borrow(), vec!["f1", "f3", "f2"]);
}

#[test]
fn draining_an_empty_lane_calls_nothing() {
    let log = Rc::new(RefCell::new(Vec::new()));
    let mut queues: WorkQueues<Callback> = WorkQueues::new();
    work_queue(&mut queues, 1, recorder(&log, "low"), 0);
    do_work(&mut queues, 0);
    assert!(log.borrow().is_empty());
    do_work(&mut queues, 1);
    assert_eq!(*log.borrow(), vec!["low"]);
    do_work(&mut queues, 1);
    assert_eq!(*log.borrow(), vec!["low"]);
}

#[test]
fn every_lane_id_but_zero_is_the_low_lane() {
    let mut queues: WorkQueues<u32> = WorkQueues::new();
    work_queue(&mut queues, 7, 70, 0);
    work_queue(&mut queues, -1, 71, 0);
    work_queue(&mut queues, 0, 1, 0);
    assert_eq!(take_work(&mut queues, 0), vec![1]);
    assert_eq!(take_work(&mut queues, 1), vec![70, 71]);
    assert_eq!(take_work(&mut queues, 5), Vec::<u32>::new());
}

#[test]
fn take_work_returns_the_callbacks_oldest_first_and_empties_the_lane() {
    let mut queues: WorkQueues<u32> = WorkQueues::new();
    for i in 0..(QUEUE_SIZE - 1) as u32 {
        assert!(!queues.is_full(0));
        work_queue(&mut queues, 0, i, 0);
    }
    assert!(queues.is_full(0));
    assert!(!queues.is_full(1));
    let todo = take_work(&mut queues, 0);
    assert!(todo.len() <= WORK_BATCH);
    assert_eq!(todo, (0..(QUEUE_SIZE - 1) as u32).collect::<Vec<u32>>());
    assert!(!queues.is_full(0));
    assert_eq!(take_work(&mut queues, 0), Vec::<u32>::new());
}

#[test]
fn a_callback_runs_once_for_each_submission() {
    let log = Rc::new(RefCell::new(Vec::new()));
    let mut queues: WorkQueues<Callback> = WorkQueues::new();
    work_queue(&mut queues, 0, recorder(&log, "a"), 0);
    work_queue(&mut queues, 0, recorder(&log, "a"), 0);
    work_queue(&mut queues, 0, recorder(&log, "b"), 0);
    do_work(&mut queues, 0);
    assert_eq!(*log.borrow(), vec!["a", "a", "b"]);
}
