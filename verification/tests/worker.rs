use zerosh::cd::CdTarget;
use zerosh::effect::{Effect, ShellMsg};
use zerosh::launch::{child_steps, ChildStep, ForkRequest, Launch, LaunchStep};
use zerosh::model::ProcState;
use zerosh::service::{Next, WorkerMsg};
use zerosh::syscall::{ErrorKind, SysError};
use zerosh::wait::WaitStatus;
use zerosh::worker::Worker;

const SHELL: i32 = 100;
const SIGCHLD: i32 = 17;

fn warn(text: &str) -> Effect {
    Effect::Warn(text.to_string())
}

fn go_on(code: i32) -> Effect {
    Effect::Reply(ShellMsg::Continue(code))
}

fn quit(code: i32) -> Effect {
    Effect::Reply(ShellMsg::Quit(code))
}

fn line(w: &mut Worker, text: &str) -> Vec<Effect> {
    let mut out = Vec::new();
    let next = w.on_line(text, &mut out);
    assert!(matches!(next, Next::Listen));
    out
}

fn begin(w: &mut Worker, text: &str) -> Launch {
    let mut out = Vec::new();
    match w.on_line(text, &mut out) {
        Next::Spawn(launch, _) => {
            assert_eq!(out, vec![]);
            launch
        }
        other => panic!("{:?}", other),
    }
}

fn start(w: &mut Worker, text: &str, pids: &[i32]) {
    let mut launch = begin(w, text);
    for (i, pid) in pids.iter().enumerate() {
        assert!(w.fits(&launch, *pid));
        let mut out = Vec::new();
        match w.on_forked(launch, text, Ok(*pid), &mut out) {
            LaunchStep::More(next) => {
                assert_eq!(out, vec![]);
                assert_eq!(i, 0);
                launch = next;
            }
            LaunchStep::Started => {
                assert_eq!(i, pids.len() - 1);
                assert_eq!(out, vec![Effect::Foreground(pids[0])]);
            }
            LaunchStep::Failed => panic!("failed"),
        }
    }
}

fn wait(w: &mut Worker, status: WaitStatus) -> Vec<Effect> {
    let mut out = Vec::new();
    let answer = Ok(status);
    assert!(w.accepts(&answer));
    assert!(w.wait_child(answer, &mut out));
    out
}

#[test]
fn exit_without_jobs() {
    let mut w = Worker::new(SHELL);
    assert_eq!(line(&mut w, "exit"), vec![quit(0)]);
    let mut out = Vec::new();
    assert!(w.run_exit(&["exit", "3"], &mut out));
    assert!(w.run_exit(&["exit", "-4", "x"], &mut out));
    assert_eq!(out, vec![quit(3), quit(-4)]);
}

#[test]
fn exit_with_a_bad_argument() {
    let mut w = Worker::new(SHELL);
    let mut out = Vec::new();
    w.run_exit(&["exit", "3x"], &mut out);
    assert_eq!(out, vec![warn("3x は不正な引数です"), go_on(1)]);
    assert_eq!(w.exit_val(), 1);
    assert_eq!(line(&mut w, "exit"), vec![quit(1)]);
}

#[test]
fn exit_is_refused_while_there_are_jobs() {
    let mut w = Worker::new(SHELL);
    start(&mut w, "vi", &[200]);
    let mut out = Vec::new();
    w.run_exit(&[], &mut out);
    assert_eq!(out, vec![warn("ZeroSh: ジョブが実行中です"), go_on(1)]);
    assert!(w.has_job(0));
}

#[test]
fn empty_commands_are_answered() {
    let mut w = Worker::new(SHELL);
    assert_eq!(line(&mut w, "ls |"), vec![warn("ZeroSh: 空のコマンド"), go_on(0)]);
}

#[test]
fn foreground_job_runs_and_ends() {
    let mut w = Worker::new(SHELL);
    start(&mut w, "sleep 1", &[200]);
    let out = wait(&mut w, WaitStatus::Exited(200, 7));
    assert_eq!(out, vec![warn("[0]終了\tsleep 1"), Effect::Foreground(SHELL), go_on(7)]);
    assert!(!w.has_job(0) && !w.has_group(200) && !w.knows(200));
    assert_eq!(line(&mut w, "exit"), vec![quit(7)]);
}

#[test]
fn pipe_ends_with_its_last_process() {
    let mut w = Worker::new(SHELL);
    let launch = begin(&mut w, "a|b");
    assert_eq!(
        launch.request(),
        ForkRequest { program: 0, pgid: 0, reads_pipe: false, writes_pipe: true }
    );
    let mut out = Vec::new();
    let step = w.on_forked(launch, "a|b", Ok(200), &mut out);
    let next = Launch { job_id: 0, piped: true, first: Some(200) };
    assert_eq!(step, LaunchStep::More(next));
    assert_eq!(
        next.request(),
        ForkRequest { program: 1, pgid: 200, reads_pipe: true, writes_pipe: false }
    );
    assert_eq!(w.on_forked(next, "a|b", Ok(201), &mut out), LaunchStep::Started);
    assert_eq!(out, vec![Effect::Foreground(200)]);
    assert_eq!(wait(&mut w, WaitStatus::Exited(200, 1)), vec![]);
    assert!(w.has_job(0) && !w.knows(200) && w.knows(201));
    let out = wait(&mut w, WaitStatus::Exited(201, 2));
    assert_eq!(out, vec![warn("[0]終了\ta|b"), Effect::Foreground(SHELL), go_on(2)]);
    assert!(!w.has_job(0));
}

#[test]
fn single_program_uses_no_pipe() {
    let mut w = Worker::new(SHELL);
    let launch = begin(&mut w, "ls");
    assert_eq!(
        launch.request(),
        ForkRequest { program: 0, pgid: 0, reads_pipe: false, writes_pipe: false }
    );
}

#[test]
fn start_can_fail() {
    let mut w = Worker::new(SHELL);
    let mut out = Vec::new();
    let launch = begin(&mut w, "a|b");
    let step = w.on_forked(launch, "a|b", Err("EAGAIN".to_string()), &mut out);
    assert_eq!(step, LaunchStep::Failed);
    assert_eq!(out, vec![warn("Zerosh: プロセスの生成に失敗しました: EAGAIN"), go_on(0)]);
    assert!(!w.has_job(0));
}

#[test]
fn long_pipes_are_refused() {
    let mut w = Worker::new(SHELL);
    assert_eq!(
        line(&mut w, "a|b|c"),
        vec![warn("ZeroSh: 3つ以上のコマンドパイプはサポートしていません"), go_on(0)]
    );
    assert!(matches!(w.on_line("exit | jobs", &mut Vec::new()), Next::Spawn(_, _)));
}

#[test]
fn stop_resume_and_end() {
    let mut w = Worker::new(SHELL);
    start(&mut w, "vi a", &[200]);
    let out = wait(&mut w, WaitStatus::Stopped(200, 20));
    assert_eq!(out, vec![warn("[0]停止\tvi a"), Effect::Foreground(SHELL), go_on(0)]);
    assert_eq!(
        line(&mut w, "jobs"),
        vec![Effect::Print("[0] 停止中\tvi a".to_string()), go_on(0)]
    );
    let mut out = Vec::new();
    w.run_fg(&["fg", "0"], &mut out);
    assert_eq!(out, vec![warn("[0] 再開\tvi a"), Effect::Foreground(200), Effect::Resume(200)]);
    assert_eq!(w.exit_val(), 1);
    assert_eq!(wait(&mut w, WaitStatus::Continued(200)), vec![]);
    let out = wait(&mut w, WaitStatus::Signaled(200, 9, "SIGKILL".to_string(), false));
    assert_eq!(
        out,
        vec![
            warn("プロセス 200 がシグナル SIGKILL で終了しました"),
            warn("[0]終了\tvi a"),
            Effect::Foreground(SHELL),
            go_on(137),
        ]
    );
}

#[test]
fn foreground_pipe_stops_with_all_its_processes() {
    let mut w = Worker::new(SHELL);
    start(&mut w, "a | b", &[200, 201]);
    assert_eq!(wait(&mut w, WaitStatus::PtraceSyscall(201)), vec![]);
    let out = wait(&mut w, WaitStatus::PtraceEvent(200, 5, 1));
    assert_eq!(out, vec![warn("[0]停止\ta | b"), Effect::Foreground(SHELL), go_on(0)]);
}

#[test]
fn background_job_ends() {
    let mut w = Worker::new(SHELL);
    start(&mut w, "a", &[200]);
    wait(&mut w, WaitStatus::Stopped(200, 20));
    start(&mut w, "b", &[201]);
    let out = wait(&mut w, WaitStatus::Signaled(200, 11, "SIGSEGV".to_string(), true));
    assert_eq!(
        out,
        vec![
            warn("プロセス 200 がシグナル SIGSEGV で終了しました(コアダンプ)"),
            warn("\n[0]終了\ta"),
        ]
    );
    assert!(!w.has_job(0) && w.has_job(1));
}

#[test]
fn jobs_are_listed_in_order_and_numbers_are_reused() {
    let mut w = Worker::new(SHELL);
    for (i, text) in ["a", "b", "c"].iter().enumerate() {
        start(&mut w, text, &[200 + i as i32]);
        wait(&mut w, WaitStatus::Stopped(200 + i as i32, 20));
    }
    wait(&mut w, WaitStatus::Exited(201, 0));
    wait(&mut w, WaitStatus::Continued(202));
    assert_eq!(
        line(&mut w, "jobs"),
        vec![
            Effect::Print("[0] 停止中\ta".to_string()),
            Effect::Print("[2] 実行中\tc".to_string()),
            go_on(0),
        ]
    );
    assert_eq!(w.get_new_job_id(), Some(1));
    start(&mut w, "d", &[201]);
    assert_eq!(w.get_new_job_id(), Some(3));
}

#[test]
fn fg_without_a_job() {
    let mut w = Worker::new(SHELL);
    let missing = warn("ZeroSh: fg: ジョブIDまたはプロセスIDを指定してください");
    assert_eq!(line(&mut w, "fg"), vec![missing, go_on(1)]);
    let mut out = Vec::new();
    w.run_fg(&["fg", "0"], &mut out);
    w.run_fg(&["fg", "x"], &mut out);
    assert_eq!(
        out,
        vec![
            warn("0 というジョブは見つかりませんでした"),
            go_on(1),
            warn("x というジョブは見つかりませんでした"),
            go_on(1),
        ]
    );
}

#[test]
fn cd_is_tried_and_answered() {
    let mut w = Worker::new(SHELL);
    let mut out = Vec::new();
    let next = w.on_line("cd /tmp /usr", &mut out);
    assert!(matches!(next, Next::ChangeDir(CdTarget::Named(n)) if n == "/tmp"));
    assert_eq!(out, vec![]);
    w.finish_cd(Err("no such directory".to_string()), &mut out);
    assert_eq!(w.exit_val(), 1);
    w.finish_cd(Ok(()), &mut out);
    assert_eq!(w.exit_val(), 0);
    assert_eq!(out, vec![warn("cdに失敗: no such directory"), go_on(1), go_on(0)]);
}

#[test]
fn cd_without_argument_goes_home() {
    let mut w = Worker::new(SHELL);
    match w.on_line("cd", &mut Vec::new()) {
        Next::ChangeDir(CdTarget::Home(dir)) => assert_eq!(Some(dir), dirs::home_dir()),
        Next::ChangeDir(CdTarget::Named(name)) => {
            assert_eq!(name, "/");
            assert_eq!(dirs::home_dir(), None);
        }
        other => panic!("{:?}", other),
    }
}

#[test]
fn signals_ask_for_the_children() {
    let mut w = Worker::new(SHELL);
    let mut out = Vec::new();
    let child = WorkerMsg::Signal(SIGCHLD);
    assert!(matches!(w.on_message(&child, SIGCHLD, &mut out), Next::Reap));
    let other = WorkerMsg::Signal(2);
    assert!(matches!(w.on_message(&other, SIGCHLD, &mut out), Next::Listen));
    let cmd = WorkerMsg::Cmd("exit".to_string());
    assert!(matches!(w.on_message(&cmd, SIGCHLD, &mut out), Next::Listen));
    assert_eq!(out, vec![quit(0)]);
}

#[test]
fn waiting_ends() {
    let mut w = Worker::new(SHELL);
    let mut out = Vec::new();
    assert!(!w.wait_child(Ok(WaitStatus::StillAlive), &mut out));
    let none = SysError { kind: ErrorKind::NoChild, text: "ECHILD".to_string() };
    assert!(!w.wait_child(Err(none), &mut out));
    assert_eq!(out, vec![]);
    let other = SysError { kind: ErrorKind::Other, text: "EINVAL".to_string() };
    assert!(!w.wait_child(Err(other), &mut out));
    assert_eq!(out, vec![warn("failed to wait: EINVAL"), Effect::Exit(1)]);
}

#[test]
fn unknown_processes_change_nothing() {
    let mut w = Worker::new(SHELL);
    assert_eq!(wait(&mut w, WaitStatus::Exited(300, 4)), vec![]);
    assert_eq!(w.exit_val(), 4);
    assert_eq!(wait(&mut w, WaitStatus::Continued(300)), vec![]);
    assert!(!w.accepts(&Ok(WaitStatus::Stopped(300, 20))));
    assert!(!w.accepts(&Ok(WaitStatus::PtraceSyscall(300))));
    assert_eq!(w.remove_pid(300), None);
    assert_eq!(w.set_pid_state(300, ProcState::Stop), None);
    assert_eq!(w.is_group_stop(300), None);
}

#[test]
fn process_is_removed_once() {
    let mut w = Worker::new(SHELL);
    start(&mut w, "a | b", &[200, 201]);
    assert_eq!(w.remove_pid(201), Some((0, 200)));
    assert_eq!(w.remove_pid(201), None);
    assert!(!w.is_group_empty(200));
}

#[test]
fn states_are_set_and_put_back() {
    let mut w = Worker::new(SHELL);
    start(&mut w, "a", &[200]);
    assert_eq!(w.is_group_stop(200), Some(false));
    assert_eq!(w.set_pid_state(200, ProcState::Stop), Some(ProcState::Run));
    assert_eq!(w.is_group_stop(200), Some(true));
    assert_eq!(w.set_pid_state(200, ProcState::Run), Some(ProcState::Stop));
    assert_eq!(w.is_group_stop(200), Some(false));
}

#[test]
fn known_processes_do_not_fit_again() {
    let mut w = Worker::new(SHELL);
    start(&mut w, "a", &[200]);
    wait(&mut w, WaitStatus::Stopped(200, 20));
    let launch = begin(&mut w, "b");
    assert!(!w.fits(&launch, 200));
    assert!(w.fits(&launch, 201));
}

#[test]
fn new_process_sets_up_its_descriptors() {
    let closed = [3, 4, 5, 6].map(ChildStep::Close);
    assert_eq!(child_steps(None, None), closed.to_vec());
    let input = ChildStep::Duplicate { from: 8, to: 0 };
    let output = ChildStep::Duplicate { from: 9, to: 1 };
    assert_eq!(child_steps(Some(8), None), [&[input], &closed[..]].concat());
    assert_eq!(child_steps(None, Some(9)), [&[output], &closed[..]].concat());
    assert_eq!(child_steps(Some(8), Some(9)), [&[input, output], &closed[..]].concat());
}

#[test]
fn typed_number_resumes_its_job() {
    let mut w = Worker::new(SHELL);
    start(&mut w, "vi a", &[200]);
    wait(&mut w, WaitStatus::Stopped(200, 20));
    assert_eq!(
        line(&mut w, "fg 0"),
        vec![warn("ZeroSh: fg: ジョブIDまたはプロセスIDを指定してください"), go_on(1)]
    );
    assert_eq!(
        line(&mut w, "fg job 0"),
        vec![warn("[0] 再開\tvi a"), Effect::Foreground(200), Effect::Resume(200)]
    );
    assert_eq!(w.exit_val(), 1);
}

#[test]
fn typed_number_without_a_job() {
    let mut w = Worker::new(SHELL);
    assert_eq!(
        line(&mut w, "fg job 0"),
        vec![warn("0 というジョブは見つかりませんでした"), go_on(1)]
    );
    assert_eq!(
        line(&mut w, " fg  0 x 0"),
        vec![warn("x というジョブは見つかりませんでした"), go_on(1)]
    );
}

#[test]
fn typed_exit_code() {
    let mut w = Worker::new(SHELL);
    assert_eq!(line(&mut w, "exit 3"), vec![quit(0)]);
    assert_eq!(line(&mut w, "exit x"), vec![quit(0)]);
    assert_eq!(line(&mut w, "exit with 3"), vec![quit(3)]);
    assert_eq!(line(&mut w, "exit with -4 x"), vec![quit(-4)]);
    assert_eq!(line(&mut w, "exit with x"), vec![warn("x は不正な引数です"), go_on(1)]);
    assert_eq!(line(&mut w, "exit 3"), vec![quit(1)]);
    start(&mut w, "vi", &[200]);
    wait(&mut w, WaitStatus::Stopped(200, 20));
    assert_eq!(line(&mut w, "exit with 3"), vec![warn("ZeroSh: ジョブが実行中です"), go_on(1)]);
}

#[test]
fn answers_are_one_behind_while_a_job_has_the_terminal() {
    let answers = |out: &[Effect]| out.iter().filter(|e| matches!(e, Effect::Reply(_))).count();
    let mut w = Worker::new(SHELL);
    start(&mut w, "a | b", &[200, 201]);
    let mut out = wait(&mut w, WaitStatus::Stopped(200, 20));
    assert_eq!(answers(&out), 0);
    out.extend(wait(&mut w, WaitStatus::Stopped(201, 20)));
    assert_eq!(answers(&out), 1);
    out.extend(wait(&mut w, WaitStatus::Exited(200, 0)));
    assert!(w.has_job(0) && w.knows(201));
    out.extend(wait(&mut w, WaitStatus::Exited(201, 0)));
    assert_eq!(answers(&out), 1);
    assert!(!w.has_job(0));
}

#[test]
fn interrupted_waiting_goes_on() {
    let mut w = Worker::new(SHELL);
    start(&mut w, "a", &[200]);
    let mut out = Vec::new();
    let answer = Err(SysError { kind: ErrorKind::Interrupted, text: "EINTR".to_string() });
    assert!(w.accepts(&answer));
    assert!(w.wait_child(answer, &mut out));
    assert_eq!(out, vec![]);
    assert!(w.has_job(0) && w.knows(200));
}
