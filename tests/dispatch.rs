use pdautomator::config::Action;
use pdautomator::dispatch::{sleep, split_command, Worker, WorkerStep};

fn action(pause: Option<u64>) -> Action {
    Action {
        alert: "x".to_string(),
        cmd: "y".to_string(),
        pause_sec: pause,
        resolve: None,
        resolve_check: None,
    }
}

fn run_all(w: &mut Worker) -> Vec<WorkerStep> {
    let mut steps = Vec::new();
    loop {
        let s = w.next_step();
        steps.push(s);
        if s == WorkerStep::Finish {
            return steps;
        }
    }
}

#[test]
fn first_command_runs_at_once_then_paced() {
    let mut w = Worker::new(&action(Some(5)), 3);
    assert_eq!(
        run_all(&mut w),
        vec![
            WorkerStep::Execute(0),
            WorkerStep::Pause(5),
            WorkerStep::Execute(1),
            WorkerStep::Pause(5),
            WorkerStep::Execute(2),
            WorkerStep::Finish,
        ]
    );
}

#[test]
fn no_pause_configured_means_no_pause() {
    let mut w = Worker::new(&action(None), 2);
    assert_eq!(
        run_all(&mut w),
        vec![WorkerStep::Execute(0), WorkerStep::Execute(1), WorkerStep::Finish]
    );
    let mut w = Worker::new(&action(Some(0)), 2);
    assert_eq!(
        run_all(&mut w),
        vec![WorkerStep::Execute(0), WorkerStep::Execute(1), WorkerStep::Finish]
    );
}

#[test]
fn empty_list_finishes_at_once() {
    let mut w = Worker::new(&action(Some(5)), 0);
    assert_eq!(run_all(&mut w), vec![WorkerStep::Finish]);
}

#[test]
fn launch_failure_abandons_the_rest() {
    let mut w = Worker::new(&action(Some(1)), 3);
    assert_eq!(w.next_step(), WorkerStep::Execute(0));
    w.launch_failed();
    assert_eq!(w.next_step(), WorkerStep::Finish);
    assert_eq!(w.next_step(), WorkerStep::Finish);
}

#[test]
fn sleep_only_for_positive_pause() {
    assert_eq!(sleep(None), None);
    assert_eq!(sleep(Some(0)), None);
    assert_eq!(sleep(Some(3)), Some(3));
}

#[test]
fn command_is_cut_into_words() {
    let (program, args) = split_command("  systemctl  restart\tnginx ").unwrap();
    assert_eq!(program, "systemctl");
    assert_eq!(args, vec!["restart".to_string(), "nginx".to_string()]);
    assert_eq!(split_command("   "), None);
    assert_eq!(split_command(""), None);
}
