use aimd::schedule::{Action, RunControl, Task};

fn run_to_halt(mut c: RunControl) -> Vec<(Task, usize)> {
    let mut out = Vec::new();
    loop {
        match c.next_action() {
            Action::Run(t, s) => {
                out.push((t, s));
                c.complete();
            }
            Action::Halt => return out,
        }
    }
}

fn step(s: usize) -> Vec<(Task, usize)> {
    vec![
        (Task::UpdatePositions, s),
        (Task::Evaluate, s),
        (Task::UpdateVelocities, s),
        (Task::UpdateEnergies, s),
        (Task::Report, s),
        (Task::Checkpoint, s),
    ]
}

#[test]
fn fresh_run_bootstraps_then_steps() {
    let trace = run_to_halt(RunControl::fresh(2));
    let mut expected = vec![
        (Task::EvaluateInitial, 0),
        (Task::Thermostat, 0),
        (Task::StartReports, 0),
        (Task::Report, 0),
        (Task::ReportAtoms, 0),
        (Task::Checkpoint, 0),
    ];
    expected.extend(step(1));
    expected.extend(step(2));
    assert_eq!(trace, expected);
}

#[test]
fn zero_steps_only_bootstraps() {
    let trace = run_to_halt(RunControl::fresh(0));
    assert_eq!(trace.len(), 6);
    assert_eq!(trace[5], (Task::Checkpoint, 0));
}

#[test]
fn resume_starts_after_checkpoint() {
    let c = RunControl::resume(3, 5);
    assert_eq!(c.step_num(), 4);
    assert_eq!(c.num_steps(), 5);
    assert_eq!(c.next_action(), Action::Run(Task::UpdatePositions, 4));
    assert_eq!(RunControl::resume(5, 5).next_action(), Action::Halt);
}

#[test]
fn restart_reproduces_uninterrupted_run() {
    let whole = run_to_halt(RunControl::fresh(4));
    let mut c = RunControl::fresh(4);
    let mut first = Vec::new();
    loop {
        match c.next_action() {
            Action::Run(t, s) => {
                first.push((t, s));
                c.complete();
                if t == Task::Checkpoint && s == 2 {
                    break;
                }
            }
            Action::Halt => break,
        }
    }
    let rest = run_to_halt(RunControl::resume(2, 4));
    first.extend(rest);
    assert_eq!(first, whole);
}
