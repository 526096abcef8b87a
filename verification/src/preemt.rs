//! Preemptive round-robin task scheduler.
//!
//! The periodic timer interrupt captures the interrupted code's registers
//! as a trap frame and hands it to [`task_switch`], which files it in the
//! running task's slot and puts the next task's saved frame in its place.
//! Returning from the interrupt then resumes that task. The code that runs
//! when the scheduler is made is task zero.

use vstd::prelude::*;

verus! {

/// The registers and program counter saved on interrupt entry.
#[derive(Debug, Clone, Copy, PartialEq, Eq, Structural)]
pub struct TrapFrame {
    pub ra: usize,
    pub t0: usize,
    pub t1: usize,
    pub t2: usize,
    pub t3: usize,
    pub t4: usize,
    pub t5: usize,
    pub t6: usize,
    pub a0: usize,
    pub a1: usize,
    pub a2: usize,
    pub a3: usize,
    pub a4: usize,
    pub a5: usize,
    pub a6: usize,
    pub a7: usize,
    pub s0: usize,
    pub s1: usize,
    pub s2: usize,
    pub s3: usize,
    pub s4: usize,
    pub s5: usize,
    pub s6: usize,
    pub s7: usize,
    pub s8: usize,
    pub s9: usize,
    pub s10: usize,
    pub s11: usize,
    pub gp: usize,
    pub tp: usize,
    pub sp: usize,
    pub pc: usize,
    pub mstatus: usize,
    pub mcause: usize,
    pub mtval: usize,
}

impl TrapFrame {
    /// A frame with every register zero.
    pub open spec fn zeroed() -> TrapFrame {
        TrapFrame {
            ra: 0,
            t0: 0,
            t1: 0,
            t2: 0,
            t3: 0,
            t4: 0,
            t5: 0,
            t6: 0,
            a0: 0,
            a1: 0,
            a2: 0,
            a3: 0,
            a4: 0,
            a5: 0,
            a6: 0,
            a7: 0,
            s0: 0,
            s1: 0,
            s2: 0,
            s3: 0,
            s4: 0,
            s5: 0,
            s6: 0,
            s7: 0,
            s8: 0,
            s9: 0,
            s10: 0,
            s11: 0,
            gp: 0,
            tp: 0,
            sp: 0,
            pc: 0,
            mstatus: 0,
            mcause: 0,
            mtval: 0,
        }
    }

    /// The frame from which a new task starts: execution begins at `entry`
    /// on an empty stack that grows down from `stack_top`.
    pub open spec fn fresh(entry: usize, stack_top: usize) -> TrapFrame {
        TrapFrame { pc: entry, sp: stack_top, ..TrapFrame::zeroed() }
    }

    /// A frame with every register zero.
    pub fn new() -> (frame: TrapFrame)
        ensures
            frame == TrapFrame::zeroed(),
    {
        TrapFrame {
            ra: 0,
            t0: 0,
            t1: 0,
            t2: 0,
            t3: 0,
            t4: 0,
            t5: 0,
            t6: 0,
            a0: 0,
            a1: 0,
            a2: 0,
            a3: 0,
            a4: 0,
            a5: 0,
            a6: 0,
            a7: 0,
            s0: 0,
            s1: 0,
            s2: 0,
            s3: 0,
            s4: 0,
            s5: 0,
            s6: 0,
            s7: 0,
            s8: 0,
            s9: 0,
            s10: 0,
            s11: 0,
            gp: 0,
            tp: 0,
            sp: 0,
            pc: 0,
            mstatus: 0,
            mcause: 0,
            mtval: 0,
        }
    }
}

/// What the scheduler keeps of one task.
#[derive(Debug, Clone, Copy, PartialEq, Eq, Structural)]
pub struct TaskControlBlock {
    /// The task's registers as of the moment it was last switched out.
    pub frame: TrapFrame,
    /// Address of the task's entry function; zero for task zero.
    pub entry: usize,
    /// Highest address of the task's stack.
    pub stack_top: usize,
}

/// State of a task: the one the processor is executing, or one that waits
/// for its turn.
#[derive(Debug, Clone, Copy, PartialEq, Eq, Structural)]
pub enum TaskState {
    Ready,
    Running,
}

/// The task that runs after task `current` when there are `count` tasks.
pub open spec fn next_task(current: int, count: int) -> int {
    if current + 1 < count {
        current + 1
    } else {
        0
    }
}

/// The task that runs after `steps` switches, starting from task `current`.
pub open spec fn task_after(current: int, count: int, steps: nat) -> int
    decreases steps,
{
    if steps == 0 {
        current
    } else {
        next_task(task_after(current, count, (steps - 1) as nat), count)
    }
}

/// Task `task` runs at some point within one round of switches that starts
/// from task `current`.
pub open spec fn has_turn(current: int, count: int, task: int) -> bool {
    exists|steps: nat| 0 < steps <= count && #[trigger] task_after(current, count, steps) == task
}

/// The task slots and the index of the running task.
pub struct Scheduler {
    tasks: Vec<TaskControlBlock>,
    current: usize,
    max_tasks: usize,
    stack_size: usize,
}

impl Scheduler {
    /// The task slots, in the order in which the tasks take their turns.
    pub closed spec fn tasks(&self) -> Seq<TaskControlBlock> {
        self.tasks@
    }

    /// Index of the running task.
    pub closed spec fn current(&self) -> int {
        self.current as int
    }

    /// The largest number of tasks, task zero included.
    pub closed spec fn max_tasks(&self) -> nat {
        self.max_tasks as nat
    }

    /// Number of bytes of each task's stack.
    pub closed spec fn stack_size(&self) -> nat {
        self.stack_size as nat
    }

    /// State of task `i`.
    pub open spec fn state(&self, i: int) -> TaskState {
        if i == self.current() {
            TaskState::Running
        } else {
            TaskState::Ready
        }
    }

    /// There is a running task, and the stacks of the tasks lie one above
    /// the other, each of the scheduler's stack size.
    pub open spec fn wf(&self) -> bool {
        &&& 0 < self.tasks().len() <= self.max_tasks()
        &&& 0 <= self.current() < self.tasks().len()
        &&& forall|i: int|
            0 <= i < self.tasks().len() - 1 ==> (#[trigger] self.tasks()[i + 1]).stack_top
                == self.tasks()[i].stack_top + self.stack_size()
    }

    /// A scheduler for at most `max_tasks` tasks, of which the first is the
    /// code that is running now. The stacks of the tasks created later are
    /// laid out upwards from `stack_base`, `stack_size` bytes each.
    pub fn new(max_tasks: usize, stack_base: usize, stack_size: usize) -> (scheduler: Self)
        requires
            max_tasks > 0,
        ensures
            scheduler.wf(),
            scheduler.max_tasks() == max_tasks,
            scheduler.stack_size() == stack_size,
            scheduler.current() == 0,
            scheduler.tasks() == seq![
                TaskControlBlock { frame: TrapFrame::zeroed(), entry: 0, stack_top: stack_base },
            ],
    {
        let mut tasks: Vec<TaskControlBlock> = Vec::new();
        tasks.push(TaskControlBlock { frame: TrapFrame::new(), entry: 0, stack_top: stack_base });
        assert(tasks@ =~= seq![
            TaskControlBlock { frame: TrapFrame::zeroed(), entry: 0, stack_top: stack_base },
        ]);
        Scheduler { tasks, current: 0, max_tasks, stack_size }
    }

    /// Number of tasks, task zero included.
    pub fn task_count(&self) -> (count: usize)
        ensures
            count == self.tasks().len(),
    {
        self.tasks.len()
    }

    /// Index of the running task.
    pub fn current_task(&self) -> (current: usize)
        ensures
            current == self.current(),
    {
        self.current
    }

    /// What the scheduler keeps of task `i`.
    pub fn task(&self, i: usize) -> (task: TaskControlBlock)
        requires
            i < self.tasks().len(),
        ensures
            task == self.tasks()[i as int],
    {
        self.tasks[i]
    }

    /// Whether there is room for one more task: a free slot, and address
    /// space for its stack.
    pub fn can_create(&self) -> (ok: bool)
        requires
            self.wf(),
        ensures
            ok == (self.tasks().len() < self.max_tasks() && self.tasks().last().stack_top
                + self.stack_size() <= usize::MAX),
    {
        let count = self.tasks.len();
        count < self.max_tasks && self.stack_size <= usize::MAX - self.tasks[count - 1].stack_top
    }
}

/// Adds a task that will start at `entry` on a fresh stack, and returns its
/// index. The new task is ready; it first runs when its turn comes. A full
/// task table is fatal, so callers rule it out.
pub fn task_create(scheduler: &mut Scheduler, entry: usize) -> (task: usize)
    requires
        old(scheduler).wf(),
        old(scheduler).tasks().len() < old(scheduler).max_tasks(),
        old(scheduler).tasks().last().stack_top + old(scheduler).stack_size() <= usize::MAX,
    ensures
        final(scheduler).wf(),
        final(scheduler).max_tasks() == old(scheduler).max_tasks(),
        final(scheduler).stack_size() == old(scheduler).stack_size(),
        final(scheduler).current() == old(scheduler).current(),
        task == old(scheduler).tasks().len(),
        final(scheduler).tasks() == old(scheduler).tasks().push(
            TaskControlBlock {
                frame: TrapFrame::fresh(
                    entry,
                    (old(scheduler).tasks().last().stack_top + old(scheduler).stack_size()) as usize,
                ),
                entry,
                stack_top: (old(scheduler).tasks().last().stack_top + old(scheduler).stack_size()) as usize,
            },
        ),
{
    let count = scheduler.tasks.len();
    let stack_top = scheduler.tasks[count - 1].stack_top + scheduler.stack_size;
    let mut frame = TrapFrame::new();
    frame.pc = entry;
    frame.sp = stack_top;
    let ghost before = scheduler.tasks();
    scheduler.tasks.push(TaskControlBlock { frame, entry, stack_top });
    proof {
        assert forall|i: int| 0 <= i < scheduler.tasks().len() - 1 implies (
        #[trigger] scheduler.tasks()[i + 1]).stack_top == scheduler.tasks()[i].stack_top
            + scheduler.stack_size() by {
            if i + 1 < before.len() {
                assert(before[i + 1].stack_top == before[i].stack_top + scheduler.stack_size());
            }
        }
    }
    count
}

/// The timer interrupt's hook. `trap_frame` holds the registers of the
/// interrupted task. They are saved in that task's slot, the next task in
/// round-robin order becomes the running one, and its saved registers are
/// put into `trap_frame`, so that the return from the interrupt resumes it.
pub fn task_switch(scheduler: &mut Scheduler, trap_frame: &mut TrapFrame)
    requires
        old(scheduler).wf(),
    ensures
        final(scheduler).wf(),
        final(scheduler).max_tasks() == old(scheduler).max_tasks(),
        final(scheduler).stack_size() == old(scheduler).stack_size(),
        final(scheduler).current() == next_task(
            old(scheduler).current(),
            old(scheduler).tasks().len() as int,
        ),
        final(scheduler).tasks() == old(scheduler).tasks().update(
            old(scheduler).current(),
            TaskControlBlock {
                frame: *old(trap_frame),
                ..old(scheduler).tasks()[old(scheduler).current()]
            },
        ),
        *final(trap_frame) == final(scheduler).tasks()[final(scheduler).current()].frame,
{
    let outgoing = scheduler.tasks[scheduler.current];
    scheduler.tasks.set(
        scheduler.current,
        TaskControlBlock { frame: *trap_frame, entry: outgoing.entry, stack_top: outgoing.stack_top },
    );
    let mut next = scheduler.current + 1;
    if next >= scheduler.tasks.len() {
        next = 0;
    }
    scheduler.current = next;
    *trap_frame = scheduler.tasks[next].frame;
    proof {
        let before = old(scheduler).tasks();
        assert forall|i: int| 0 <= i < scheduler.tasks().len() - 1 implies (
        #[trigger] scheduler.tasks()[i + 1]).stack_top == scheduler.tasks()[i].stack_top
            + scheduler.stack_size() by {
            assert(before[i + 1].stack_top == before[i].stack_top + scheduler.stack_size());
        }
    }
}

/// Round robin is fair: with `count` tasks, `count` switches in a row give
/// every task exactly one turn and end at the task they started from.
pub proof fn lemma_round_robin(current: int, count: int)
    requires
        0 <= current < count,
    ensures
        task_after(current, count, count as nat) == current,
        forall|task: int| 0 <= task < count ==> #[trigger] has_turn(current, count, task),
        forall|a: nat, b: nat|
            0 < a < b <= count ==> #[trigger] task_after(current, count, a) != #[trigger] task_after(
                current,
                count,
                b,
            ),
{
    lemma_task_after(current, count, count as nat);
    assert forall|task: int| 0 <= task < count implies #[trigger] has_turn(
        current,
        count,
        task,
    ) by {
        let steps = if task > current {
            (task - current) as nat
        } else {
            (task + count - current) as nat
        };
        lemma_task_after(current, count, steps);
        assert(task_after(current, count, steps) == task);
    }
    assert forall|a: nat, b: nat| 0 < a < b <= count implies #[trigger] task_after(
        current,
        count,
        a,
    ) != #[trigger] task_after(current, count, b) by {
        lemma_task_after(current, count, a);
        lemma_task_after(current, count, b);
    }
}

/// After `steps` switches, no more than one round, the running task is
/// `steps` places further on in the ring of tasks.
proof fn lemma_task_after(current: int, count: int, steps: nat)
    requires
        0 <= current < count,
        steps <= count,
    ensures
        task_after(current, count, steps) == if current + steps < count {
            current + steps
        } else {
            current + steps - count
        },
    decreases steps,
{
    if steps > 0 {
        lemma_task_after(current, count, (steps - 1) as nat);
    }
}

} // verus!
