use testbed::bed::bar::{clipped, prepare_prefix, term_cols, BarUsage, ProcessBar};
use testbed::bed::commands::OutputMap;
use testbed::bed::process::{Poll, ProcessInfo, ProcessState};
use testbed::bed::supervisor::{remove_done, sleep_step, wait_step, Supervisor, WaitStep, SLEEP_TIME};
use testbed::bed::timeout::{TimeoutLoop, WaitAction};

fn refused() -> std::io::Error {
    std::io::Error::new(std::io::ErrorKind::PermissionDenied, "refused")
}

#[test]
fn a_wait_of_1000_in_three_sleeps_sleeps_334_each() {
    let wait = TimeoutLoop::from_sleep_times(1000, 3);
    assert_eq!(wait.sleep, 334);
    assert_eq!(wait.duration, 1000);
    assert_eq!(TimeoutLoop::from_sleep_times(1000, 4).sleep, 250);
    assert_eq!(TimeoutLoop::from_sleep_times(0, 4).sleep, 0);
    assert_eq!(TimeoutLoop::from_sleep_times(u64::MAX, 1).sleep, u64::MAX);
    assert_eq!(TimeoutLoop::from_sleep_times(u64::MAX, 2).sleep, u64::MAX / 2 + 1);
}

#[test]
fn a_bounded_wait_is_over_within_one_sleep_of_its_duration() {
    let wait = TimeoutLoop::from_sleep_times(1000, 3);
    let mut waited = 0;
    let mut sleeps = 0;
    while let Some(next) = wait.next(waited) {
        waited = next;
        sleeps += 1;
    }
    assert_eq!(sleeps, 3);
    assert_eq!(waited, 1002);
    assert!(waited < 1000 + wait.sleep);
    assert_eq!(TimeoutLoop::unbounded().next(u64::MAX - 1), Some(u64::MAX));
    assert_eq!(TimeoutLoop::unbounded().next(u64::MAX), None);
}

#[test]
fn a_process_that_outlives_its_wait_is_killed() {
    let wait = TimeoutLoop::from_sleep_times(300, 3);
    let mut state = ProcessState::Running;
    let mut waited = 0;
    let action = loop {
        match wait.tick(waited, false, &mut state, Poll::Pending) {
            WaitAction::Sleep => waited = wait.next(waited).unwrap(),
            other => break other,
        }
    };
    assert_eq!(action, WaitAction::Kill);
    assert_eq!(waited, 300);
    state.after_kill(Ok(()));
    assert!(matches!(state, ProcessState::Killed));
}

#[test]
fn a_cancelled_wait_kills_at_once() {
    let wait = TimeoutLoop::unbounded();
    let mut state = ProcessState::Running;
    let poll = Poll::Exited { success: true, code: Some(0) };
    assert_eq!(wait.tick(0, true, &mut state, poll), WaitAction::Kill);
    assert!(matches!(state, ProcessState::Running));
}

#[test]
fn a_wait_stops_when_the_process_is_over() {
    let wait = TimeoutLoop::unbounded();
    let mut state = ProcessState::Running;
    assert_eq!(wait.tick(0, false, &mut state, Poll::Exited { success: false, code: Some(3) }), WaitAction::Stop);
    assert!(matches!(state, ProcessState::Failed(Some(3))));
    let mut state = ProcessState::Running;
    assert_eq!(wait.tick(0, false, &mut state, Poll::Failed(refused())), WaitAction::Stop);
    assert!(matches!(state, ProcessState::Error(_)));
}

#[test]
fn a_process_leaves_running_only_once() {
    let mut state = ProcessState::Running;
    assert!(!state.set_state(ProcessState::Running));
    assert!(state.set_state(ProcessState::Finished));
    assert!(!state.set_state(ProcessState::Killed));
    assert!(matches!(state, ProcessState::Finished));
    assert!(state.after_poll(Poll::Exited { success: false, code: None }));
    assert!(matches!(state, ProcessState::Finished));
    state.after_kill(Err(refused()));
    assert!(matches!(state, ProcessState::Finished));
}

#[test]
fn polls_lead_to_the_state_that_fits() {
    let mut state = ProcessState::Running;
    assert!(!state.after_poll(Poll::Pending));
    assert!(matches!(state, ProcessState::Running));
    assert!(state.after_poll(Poll::Exited { success: true, code: Some(0) }));
    assert!(matches!(state, ProcessState::Finished));
    assert!(matches!(ProcessState::from_exit(false, Some(2)), ProcessState::Failed(Some(2))));
    let mut state = ProcessState::Running;
    state.after_kill(Err(refused()));
    assert!(matches!(state, ProcessState::Error(_)));
}

#[test]
fn states_are_shown_by_their_names() {
    assert_eq!(ProcessState::Running.label(), "Running");
    assert_eq!(ProcessState::Killed.label(), "Killed");
    assert_eq!(ProcessState::Finished.label(), "Finished");
    assert_eq!(ProcessState::Failed(Some(-3)).label(), "Failed(Some(-3))");
    assert_eq!(ProcessState::Failed(None).label(), "Failed(None)");
    assert_eq!(ProcessState::Error(refused()).label(), format!("Error({:?})", refused()));
    assert_eq!(ProcessState::Failed(Some(1)).label(), format!("{:?}", ProcessState::Failed(Some(1))));
}

#[test]
fn process_is_called_by_the_last_part_of_its_command() {
    let mut process = ProcessInfo::new("/usr/bin/env".to_string());
    assert_eq!(process.ident(), "env");
    process.add_args(vec!["A=1".to_string(), "run".to_string()]);
    assert_eq!(process.ident(), "env A=1 run");
    assert_eq!(ProcessInfo::new("C:\\tools\\run.exe".to_string()).ident(), "run.exe");
    assert_eq!(ProcessInfo::new("plain".to_string()).ident(), "plain");
    assert_eq!(ProcessInfo::new("dir/".to_string()).ident(), "");
    assert_eq!(ProcessInfo::new("é/ü".to_string()).ident(), "ü");
}

#[test]
fn process_info_is_built_up_step_by_step() {
    let mut process = ProcessInfo::new("run".to_string());
    assert_eq!(process.stdout, OutputMap::Print);
    assert_eq!(process.stderr, OutputMap::Print);
    process.set_stdout(OutputMap::Create("o".to_string()));
    process.set_stderr(OutputMap::Append("e".to_string()));
    process.set_working_dir("/w".to_string());
    process.add_args(vec!["1".to_string()]);
    process.add_args(vec!["2".to_string()]);
    assert_eq!(process.args, vec!["1", "2"]);
    assert_eq!(process.stdout, OutputMap::Create("o".to_string()));
    assert_eq!(process.stderr, OutputMap::Append("e".to_string()));
    assert_eq!(process.working_dir, Some("/w".to_string()));
}

#[test]
fn prefix_names_the_streams_that_are_shown_instead() {
    assert_eq!(prepare_prefix(false, false, "run"), "run");
    assert_eq!(prepare_prefix(true, false, "run"), "!stdout: run");
    assert_eq!(prepare_prefix(false, true, "run"), "!stderr: run");
    assert_eq!(prepare_prefix(true, true, "run"), "!stdout !stderr: run");
}

#[test]
fn terminal_width_leaves_room_for_the_spinner() {
    assert_eq!(term_cols(80), 77);
    assert_eq!(term_cols(3), 0);
    assert_eq!(term_cols(0), 0);
}

#[test]
fn prefix_is_cut_to_what_the_message_leaves() {
    let mut usage = BarUsage::default();
    assert_eq!(usage.update_prefix(20, 8), 8);
    assert_eq!(usage, BarUsage { truncated: false, prefix: 8, message: 0 });
    assert!(!usage.update_message(20, 12));
    assert!(usage.update_message(20, 15));
    assert_eq!(usage.update_prefix(20, 8), 5);
    assert_eq!(usage, BarUsage { truncated: true, prefix: 5, message: 15 });
    assert!(!usage.update_message(20, 15));
    assert!(usage.update_message(20, 14));
    assert!(usage.update_message(20, 25));
    assert_eq!(usage.update_prefix(20, 8), 0);
    assert!(usage.update_message(20, usize::MAX));
}

#[test]
fn clipping_never_cuts_a_character_in_two() {
    assert_eq!(clipped("héllo", 10), "héllo");
    assert_eq!(clipped("héllo", 3), "hé");
    assert_eq!(clipped("héllo", 2), "h");
    assert_eq!(clipped("héllo", 0), "");
    assert_eq!(clipped("", 4), "");
    assert_eq!(clipped("日本", 5), "日");
}

#[test]
fn bar_shows_messages_only_while_the_process_runs() {
    let mut bar = ProcessBar::new("echo hi".to_string());
    assert_eq!(bar.extra_space(), 3);
    assert_eq!(bar.refresh_prefix(80), "echo hi");
    let update = bar.set_message(80, "working".to_string());
    assert_eq!(update.message, Some("working".to_string()));
    assert_eq!(update.prefix, None);
    assert!(!update.finished);
    let update = bar.set_message(13, "long message".to_string());
    assert_eq!(update.prefix, Some("".to_string()));
    bar.set_stderr(true);
    let update = bar.set_message(40, "short".to_string());
    assert_eq!(update.prefix, Some("!stderr: echo hi".to_string()));
    let update = bar.set_state(40, ProcessState::Running);
    assert!(!update.finished && update.message.is_none());
    let update = bar.set_state(40, ProcessState::Failed(Some(2)));
    assert!(update.finished);
    assert_eq!(update.message, Some("Failed(Some(2))".to_string()));
    let update = bar.set_state(40, ProcessState::Killed);
    assert!(!update.finished && update.message.is_none());
    assert!(matches!(bar.status, ProcessState::Failed(Some(2))));
    let update = bar.set_message(40, "late".to_string());
    assert_eq!(update.message, None);
}

#[test]
fn a_limit_of_one_admits_one_process_at_a_time() {
    let mut supervisor = Supervisor::new();
    assert_eq!(supervisor.admission(5), None);
    supervisor.limit_spawn(1);
    let mut running: Vec<u32> = vec![];
    let mut most = 0;
    for id in 0..3 {
        if let Some(target) = supervisor.admission(running.len()) {
            let mut polls = 0;
            loop {
                match wait_step(running.len(), target, polls * SLEEP_TIME, None, false) {
                    WaitStep::Done => break,
                    WaitStep::Poll => {
                        polls += 1;
                        let done: Vec<bool> = running.iter().map(|_| polls >= 2).collect();
                        remove_done(&mut running, &done);
                    }
                    WaitStep::KillAll => panic!("not cancelled"),
                    WaitStep::TimedOut => panic!("no time limit"),
                }
            }
            assert_eq!(polls, 2);
        }
        running.push(id);
        most = most.max(running.len());
    }
    assert_eq!(most, 1);
    assert_eq!(running, vec![2]);
    supervisor.reset();
    assert_eq!(supervisor.admission(5), None);
}

#[test]
fn cancelling_a_wait_for_all_kills_all() {
    assert_eq!(wait_step(3, 0, 0, None, true), WaitStep::KillAll);
    assert_eq!(wait_step(3, 0, 0, None, false), WaitStep::Poll);
    assert_eq!(wait_step(0, 0, 0, None, true), WaitStep::Done);
    assert_eq!(wait_step(3, 0, 500, Some(500), true), WaitStep::KillAll);
    assert_eq!(wait_step(3, 0, 499, Some(500), false), WaitStep::Poll);
    assert_eq!(wait_step(2, 3, 0, None, false), WaitStep::Done);
    assert_eq!(wait_step(3, 3, 0, None, false), WaitStep::Poll);
}

#[test]
fn a_sleep_goes_on_until_its_time_is_up_or_the_run_is_cancelled() {
    assert!(sleep_step(0, 100, false));
    assert!(!sleep_step(100, 100, false));
    assert!(!sleep_step(0, 100, true));
    assert!(!sleep_step(0, 0, false));
}

#[test]
fn done_items_are_forgotten_and_the_others_kept() {
    let mut items = vec!['a', 'b', 'c', 'd', 'e'];
    remove_done(&mut items, &vec![true, false, true, true, false]);
    items.sort();
    assert_eq!(items, vec!['b', 'e']);
    let mut all = vec![1, 2];
    remove_done(&mut all, &vec![true, true]);
    assert!(all.is_empty());
    let mut none = vec![1, 2];
    remove_done(&mut none, &vec![false, false]);
    assert_eq!(none, vec![1, 2]);
}

#[test]
fn a_wait_for_all_whose_time_is_up_kills_what_still_runs() {
    let mut running: Vec<ProcessState> = vec![ProcessState::Running, ProcessState::Running];
    let mut elapsed = 0;
    let step = loop {
        match wait_step(running.len(), 0, elapsed, Some(250), false) {
            WaitStep::Poll => {
                let done: Vec<bool> = running.iter().map(|_| false).collect();
                remove_done(&mut running, &done);
                elapsed += SLEEP_TIME;
            }
            other => break other,
        }
    };
    assert_eq!(step, WaitStep::TimedOut);
    assert_eq!(elapsed, 300);
    for mut state in running.drain(..) {
        state.after_kill(Ok(()));
        assert!(matches!(state, ProcessState::Killed));
    }
    assert!(running.is_empty());
    assert_eq!(wait_step(running.len(), 0, elapsed, Some(250), false), WaitStep::Done);
    assert_eq!(wait_step(1, 0, 249, Some(250), false), WaitStep::Poll);
    assert_eq!(wait_step(0, 0, 900, Some(250), false), WaitStep::Done);
}

#[test]
fn a_tick_never_changes_a_process_that_is_over() {
    let wait = TimeoutLoop::unbounded();
    let mut state = ProcessState::Killed;
    assert_eq!(wait.tick(0, false, &mut state, Poll::Exited { success: true, code: Some(0) }), WaitAction::Stop);
    assert!(matches!(state, ProcessState::Killed));
    assert_eq!(wait.tick(0, false, &mut state, Poll::Failed(refused())), WaitAction::Stop);
    assert!(matches!(state, ProcessState::Killed));
}
