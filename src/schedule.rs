//! The run's schedule: which operation comes next, from the bootstrap of a
//! fresh run through every step to the halt, and where a restart from the
//! last checkpoint picks up.
//!
//! The caller performs each operation that `next_action` names and reports it
//! done with `complete`; the dynamics itself stays with the caller.

use vstd::prelude::*;

verus! {

/// One operation of the run.
#[derive(Clone, Copy, Debug, PartialEq, Eq)]
pub enum Task {
    /// Bootstrap: forces and potential energy of the initial geometry.
    EvaluateInitial,
    /// Bootstrap: kinetic energy, velocity rescale to the reference
    /// temperature, kinetic and total energy again.
    Thermostat,
    /// Velocity-Verlet position update of the mobile atoms.
    UpdatePositions,
    /// Forces and potential energy of the new geometry.
    Evaluate,
    /// Velocity update of the mobile atoms; every atom's force takes the new
    /// force.
    UpdateVelocities,
    /// Kinetic, potential and total energy.
    UpdateEnergies,
    /// Bootstrap: create the report files, each with its header.
    StartReports,
    /// The step's trajectory frame and energies.
    Report,
    /// Bootstrap: every atom's velocity and kinetic energy.
    ReportAtoms,
    /// Append the state to the checkpoint log.
    Checkpoint,
}

/// The number of operations in a step, the bootstrap included.
pub const TASKS_PER_STEP: usize = 6;

/// What to do next: an operation of a step, or stop.
#[derive(Clone, Copy, Debug, PartialEq, Eq)]
pub enum Action {
    Run(Task, usize),
    Halt,
}

/// The operations of step `step`, in order; step 0 is the bootstrap. Each
/// ends with its checkpoint, so a step is checkpointed only once complete.
pub open spec fn tasks_of(step: nat) -> Seq<Task> {
    if step == 0 {
        seq![
            Task::EvaluateInitial,
            Task::Thermostat,
            Task::StartReports,
            Task::Report,
            Task::ReportAtoms,
            Task::Checkpoint,
        ]
    } else {
        seq![
            Task::UpdatePositions,
            Task::Evaluate,
            Task::UpdateVelocities,
            Task::UpdateEnergies,
            Task::Report,
            Task::Checkpoint,
        ]
    }
}

/// The operations, each with its step number, that a run performs from
/// operation `pos` of step `step` until it halts after step `num_steps`.
pub open spec fn trace(step: nat, pos: nat, num_steps: nat) -> Seq<(Task, nat)>
    decreases num_steps + 1 - step, tasks_of(step).len() - pos,
{
    if step > num_steps || pos >= tasks_of(step).len() {
        Seq::empty()
    } else if pos + 1 < tasks_of(step).len() {
        seq![(tasks_of(step)[pos as int], step)] + trace(step, pos + 1, num_steps)
    } else {
        seq![(tasks_of(step)[pos as int], step)] + trace(step + 1, 0, num_steps)
    }
}

/// The operations of step `step`, each with the step number.
pub open spec fn step_trace(step: nat) -> Seq<(Task, nat)> {
    tasks_of(step).map_values(|t: Task| (t, step))
}

/// The operations of the whole steps `from..to`, in order.
pub open spec fn steps_between(from: nat, to: nat) -> Seq<(Task, nat)>
    decreases to - from,
{
    if from >= to {
        Seq::empty()
    } else {
        step_trace(from) + steps_between(from + 1, to)
    }
}

proof fn lemma_trace_rest_of_step(step: nat, pos: nat, num_steps: nat)
    requires
        step <= num_steps,
        pos < tasks_of(step).len(),
    ensures
        trace(step, pos, num_steps) == step_trace(step).skip(pos as int) + trace(
            step + 1,
            0,
            num_steps,
        ),
    decreases tasks_of(step).len() - pos,
{
    let st = step_trace(step);
    if pos + 1 < tasks_of(step).len() {
        lemma_trace_rest_of_step(step, pos + 1, num_steps);
        assert(st.skip(pos as int) =~= seq![st[pos as int]] + st.skip(pos as int + 1));
        assert(seq![(tasks_of(step)[pos as int], step)] + (st.skip(pos as int + 1) + trace(
            step + 1,
            0,
            num_steps,
        )) =~= st.skip(pos as int) + trace(step + 1, 0, num_steps));
    } else {
        assert(st.skip(pos as int) =~= seq![(tasks_of(step)[pos as int], step)]);
    }
}

/// A run that has done the whole steps `from..to` stands at the start of
/// step `to`: its operations from step `from` on are those steps, then what
/// a run starting at step `to` performs.
pub proof fn lemma_trace_splits(from: nat, to: nat, num_steps: nat)
    requires
        from <= to <= num_steps + 1,
    ensures
        trace(from, 0, num_steps) == steps_between(from, to) + trace(to, 0, num_steps),
    decreases to - from,
{
    if from < to {
        lemma_trace_rest_of_step(from, 0, num_steps);
        lemma_trace_splits(from + 1, to, num_steps);
        assert(step_trace(from).skip(0) =~= step_trace(from));
        assert(trace(from, 0, num_steps) =~= steps_between(from, to) + trace(to, 0, num_steps));
    } else {
        assert(steps_between(from, to) + trace(to, 0, num_steps) =~= trace(to, 0, num_steps));
    }
}

/// Every operation from step `step` on belongs to step `step` or a later one.
pub proof fn lemma_trace_steps_from(step: nat, pos: nat, num_steps: nat)
    ensures
        forall|i: int|
            0 <= i < trace(step, pos, num_steps).len() ==> #[trigger] trace(
                step,
                pos,
                num_steps,
            )[i].1 >= step,
    decreases num_steps + 1 - step, tasks_of(step).len() - pos,
{
    if step > num_steps || pos >= tasks_of(step).len() {
    } else if pos + 1 < tasks_of(step).len() {
        lemma_trace_steps_from(step, pos + 1, num_steps);
        let t = trace(step, pos, num_steps);
        assert forall|i: int| 0 <= i < t.len() implies #[trigger] t[i].1 >= step by {
            if i > 0 {
                assert(t[i] == trace(step, pos + 1, num_steps)[i - 1]);
            }
        }
    } else {
        lemma_trace_steps_from(step + 1, 0, num_steps);
        let t = trace(step, pos, num_steps);
        assert forall|i: int| 0 <= i < t.len() implies #[trigger] t[i].1 >= step by {
            if i > 0 {
                assert(t[i] == trace(step + 1, 0, num_steps)[i - 1]);
            }
        }
    }
}

/// Restarting from the checkpoint of step `last_step` never performs an
/// operation of that step or of an earlier one again, and it picks up at the
/// first operation of step `last_step + 1`.
pub proof fn lemma_resume_never_repeats(last_step: nat, num_steps: nat)
    ensures
        forall|i: int|
            0 <= i < trace(last_step + 1, 0, num_steps).len() ==> #[trigger] trace(
                last_step + 1,
                0,
                num_steps,
            )[i].1 > last_step,
        last_step < num_steps ==> trace(last_step + 1, 0, num_steps)[0] == (
            Task::UpdatePositions,
            (last_step + 1) as nat,
        ),
{
    lemma_trace_steps_from(last_step + 1, 0, num_steps);
}

/// A run interrupted after the checkpoint of step `k` and restarted from that
/// checkpoint performs, over both processes, exactly the operations of an
/// uninterrupted run: the steps `0..=k`, the last operation of which is that
/// checkpoint, then all that a run resumed at step `k + 1` performs.
pub proof fn lemma_restart_reproduces_run(k: nat, num_steps: nat)
    requires
        k <= num_steps,
    ensures
        trace(0, 0, num_steps) == steps_between(0, k + 1) + trace(k + 1, 0, num_steps),
        steps_between(0, k + 1).last() == (Task::Checkpoint, k),
{
    lemma_trace_splits(0, k + 1, num_steps);
    lemma_steps_between_last(0, k + 1);
}

proof fn lemma_steps_between_last(from: nat, to: nat)
    requires
        from < to,
    ensures
        steps_between(from, to).len() > 0,
        steps_between(from, to).last() == (Task::Checkpoint, (to - 1) as nat),
    decreases to - from,
{
    if from + 1 < to {
        lemma_steps_between_last(from + 1, to);
    } else {
        assert(steps_between(from + 1, to) =~= Seq::<(Task, nat)>::empty());
        assert(steps_between(from, to) =~= step_trace(from));
    }
}

/// Where a run stands: the step under way and the operation within it.
#[derive(Clone, Copy, Debug)]
pub struct RunControl {
    step_num: usize,
    task_index: usize,
    num_steps: usize,
}

impl RunControl {
    pub closed spec fn step(self) -> nat {
        self.step_num as nat
    }

    pub closed spec fn index(self) -> nat {
        self.task_index as nat
    }

    pub closed spec fn steps(self) -> nat {
        self.num_steps as nat
    }

    /// The operations still to come.
    pub open spec fn remaining(self) -> Seq<(Task, nat)> {
        trace(self.step(), self.index(), self.steps())
    }

    /// The step counter can pass `num_steps`, and the operation index lies
    /// within its step.
    pub open spec fn wf(self) -> bool {
        &&& self.steps() < usize::MAX
        &&& self.index() < tasks_of(self.step()).len()
    }

    /// A fresh run of `num_steps` steps, at the start of its bootstrap.
    pub fn fresh(num_steps: usize) -> (r: RunControl)
        requires
            num_steps < usize::MAX,
        ensures
            r.wf(),
            r.step() == 0,
            r.index() == 0,
            r.steps() == num_steps,
    {
        RunControl { step_num: 0, task_index: 0, num_steps }
    }

    /// A run restarted from a checkpoint written after step `last_step`: it
    /// resumes at the first operation of step `last_step + 1`.
    pub fn resume(last_step: usize, num_steps: usize) -> (r: RunControl)
        requires
            last_step < usize::MAX,
            num_steps < usize::MAX,
        ensures
            r.wf(),
            r.step() == last_step + 1,
            r.index() == 0,
            r.steps() == num_steps,
    {
        RunControl { step_num: last_step + 1, task_index: 0, num_steps }
    }

    /// The step under way.
    pub fn step_num(&self) -> (r: usize)
        ensures
            r == self.step(),
    {
        self.step_num
    }

    /// The last step of the run.
    pub fn num_steps(&self) -> (r: usize)
        ensures
            r == self.steps(),
    {
        self.num_steps
    }

    fn task_at(step: usize, index: usize) -> (r: Task)
        requires
            index < tasks_of(step as nat).len(),
        ensures
            r == tasks_of(step as nat)[index as int],
    {
        if step == 0 {
            if index == 0 {
                Task::EvaluateInitial
            } else if index == 1 {
                Task::Thermostat
            } else if index == 2 {
                Task::StartReports
            } else if index == 3 {
                Task::Report
            } else if index == 4 {
                Task::ReportAtoms
            } else {
                Task::Checkpoint
            }
        } else {
            if index == 0 {
                Task::UpdatePositions
            } else if index == 1 {
                Task::Evaluate
            } else if index == 2 {
                Task::UpdateVelocities
            } else if index == 3 {
                Task::UpdateEnergies
            } else if index == 4 {
                Task::Report
            } else {
                Task::Checkpoint
            }
        }
    }

    /// The operation to perform next: the first of `remaining`, or `Halt`
    /// once step `num_steps` is done.
    pub fn next_action(&self) -> (a: Action)
        requires
            self.wf(),
        ensures
            a == Action::Halt <==> self.remaining().len() == 0,
            self.remaining().len() > 0 ==> a == Action::Run(
                self.remaining()[0].0,
                self.remaining()[0].1 as usize,
            ),
            a == Action::Halt <==> self.step() > self.steps(),
    {
        if self.step_num > self.num_steps {
            Action::Halt
        } else {
            Action::Run(Self::task_at(self.step_num, self.task_index), self.step_num)
        }
    }

    /// Records that the operation `next_action` named is done.
    pub fn complete(&mut self)
        requires
            old(self).wf(),
            old(self).step() <= old(self).steps(),
        ensures
            final(self).wf(),
            final(self).steps() == old(self).steps(),
            final(self).remaining() == old(self).remaining().drop_first(),
    {
        assert(tasks_of(self.step_num as nat).len() == TASKS_PER_STEP);
        if self.task_index + 1 < TASKS_PER_STEP {
            self.task_index = self.task_index + 1;
        } else {
            self.task_index = 0;
            self.step_num = self.step_num + 1;
        }
    }
}

} // verus!
