use bl602wifi::preemt::{task_create, task_switch, Scheduler, TaskControlBlock, TrapFrame};

fn frame_with(pc: usize, a0: usize) -> TrapFrame {
    let mut frame = TrapFrame::new();
    frame.pc = pc;
    frame.a0 = a0;
    frame
}

#[test]
fn a_new_scheduler_runs_task_zero() {
    let s = Scheduler::new(4, 0x8000, 0x1000);
    assert_eq!(s.task_count(), 1);
    assert_eq!(s.current_task(), 0);
    assert_eq!(
        s.task(0),
        TaskControlBlock { frame: TrapFrame::new(), entry: 0, stack_top: 0x8000 }
    );
}

#[test]
fn task_create_prepares_entry_and_a_fresh_stack() {
    let mut s = Scheduler::new(4, 0x8000, 0x1000);
    assert_eq!(task_create(&mut s, 0x2300_0100), 1);
    assert_eq!(task_create(&mut s, 0x2300_0200), 2);
    assert_eq!(s.task_count(), 3);
    assert_eq!(s.current_task(), 0);
    let first = s.task(1);
    assert_eq!(first.entry, 0x2300_0100);
    assert_eq!(first.stack_top, 0x9000);
    let mut expected = TrapFrame::new();
    expected.pc = 0x2300_0100;
    expected.sp = 0x9000;
    assert_eq!(first.frame, expected);
    let second = s.task(2);
    assert_eq!(second.frame.pc, 0x2300_0200);
    assert_eq!(second.frame.sp, 0xa000);
    assert_eq!(second.stack_top, 0xa000);
}

#[test]
fn can_create_tells_when_the_table_is_full() {
    let mut s = Scheduler::new(2, 0x8000, 0x1000);
    assert!(s.can_create());
    task_create(&mut s, 0x100);
    assert!(!s.can_create());
    let high = Scheduler::new(4, usize::MAX - 0x10, 0x1000);
    assert!(!high.can_create());
}

#[test]
fn switch_saves_the_outgoing_frame_and_loads_the_next() {
    let mut s = Scheduler::new(4, 0x8000, 0x1000);
    task_create(&mut s, 0x100);
    task_create(&mut s, 0x200);
    let mut frame = frame_with(0x42, 7);
    task_switch(&mut s, &mut frame);
    assert_eq!(s.current_task(), 1);
    assert_eq!(s.task(0).frame, frame_with(0x42, 7));
    assert_eq!(frame.pc, 0x100);
    assert_eq!(frame.sp, 0x9000);
    assert_eq!(frame.a0, 0);
    // Task 1 runs for a while and is interrupted.
    frame.pc = 0x104;
    frame.a0 = 11;
    let interrupted = frame;
    task_switch(&mut s, &mut frame);
    assert_eq!(s.current_task(), 2);
    assert_eq!(s.task(1).frame, interrupted);
    assert_eq!(frame.pc, 0x200);
    assert_eq!(frame.sp, 0xa000);
    frame.pc = 0x208;
    task_switch(&mut s, &mut frame);
    // Back at task zero, exactly where it was interrupted.
    assert_eq!(s.current_task(), 0);
    assert_eq!(frame, frame_with(0x42, 7));
    assert_eq!(s.task(2).frame.pc, 0x208);
}

#[test]
fn every_task_gets_one_turn_per_round() {
    let mut s = Scheduler::new(5, 0x8000, 0x100);
    for i in 1..5 {
        task_create(&mut s, 0x1000 * i);
    }
    let mut frame = TrapFrame::new();
    let mut turns = vec![0u32; 5];
    for _ in 0..50 {
        task_switch(&mut s, &mut frame);
        turns[s.current_task()] += 1;
    }
    assert_eq!(turns, vec![10, 10, 10, 10, 10]);
}

#[test]
fn a_single_task_keeps_running() {
    let mut s = Scheduler::new(1, 0x8000, 0x100);
    let mut frame = frame_with(0x500, 3);
    task_switch(&mut s, &mut frame);
    assert_eq!(s.current_task(), 0);
    assert_eq!(frame, frame_with(0x500, 3));
    assert_eq!(s.task(0).frame, frame_with(0x500, 3));
}

#[test]
fn a_task_created_later_joins_the_round() {
    let mut s = Scheduler::new(3, 0x8000, 0x100);
    task_create(&mut s, 0x100);
    let mut frame = frame_with(0x1, 0);
    task_switch(&mut s, &mut frame);
    assert_eq!(s.current_task(), 1);
    task_create(&mut s, 0x200);
    task_switch(&mut s, &mut frame);
    assert_eq!(s.current_task(), 2);
    assert_eq!(frame.pc, 0x200);
    task_switch(&mut s, &mut frame);
    assert_eq!(s.current_task(), 0);
    assert_eq!(frame.pc, 0x1);
}
