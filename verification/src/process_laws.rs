//! What becomes of the tables, the terminal and the code when processes stop, go on and end.
use crate::effect::{Act, ShellMsg};
use crate::model::{lemma_with_state, ProcInfo, ProcState, State};
use crate::number::{decimal, integer};
use crate::syscall::{attempted, interrupted, Attempt, ErrorKind, SysError};
use crate::wait::{acceptable, stopped_pid, WaitStatus};
use vstd::prelude::*;

verus! {

/// The code that is kept is that of the process that ended, 128 and the number of the signal where
/// a signal ended it, and stays where no process ended. It is the code of every answer that is
/// given then, and the shell is never told to leave.
pub proof fn law_code_of_ended_process(s: State, answer: Result<WaitStatus, SysError>)
    requires
        answer matches Ok(WaitStatus::Signaled(_, sig, _, _)) ==> sig + 128 <= i32::MAX,
    ensures
        match answer {
            Ok(WaitStatus::Exited(_, code)) => s.waited(answer).0.exit_val == code,
            Ok(WaitStatus::Signaled(_, sig, _, _)) => s.waited(answer).0.exit_val == sig + 128,
            _ => s.waited(answer).0.exit_val == s.exit_val,
        },
        forall|i: int|
            0 <= i < s.waited(answer).1.len() && #[trigger] s.waited(answer).1[i] is Reply
                ==> s.waited(answer).1[i] == Act::Reply(
                ShellMsg::Continue(s.waited(answer).0.exit_val),
            ),
        s.waited(answer).0.shell_pgid == s.shell_pgid,
{
    match answer {
        Ok(WaitStatus::Exited(pid, code)) => {
            lemma_end_acts(s.with_exit(code), pid);
        },
        Ok(WaitStatus::Signaled(pid, sig, name, core)) => {
            let u = s.with_exit((sig + 128) as i32);
            let a = s.waited(answer).1;
            lemma_end_acts(u, pid);
            assert forall|i: int| 0 <= i < a.len() && #[trigger] a[i] is Reply implies a[i]
                == Act::Reply(ShellMsg::Continue(u.exit_val)) by {
                assert(i > 0);
                assert(a[i] == u.ended(pid).1[i - 1]);
            }
        },
        Ok(status) => {
            if let Some(pid) = stopped_pid(status) {
                let pgid = s.procs[pid].pgid;
                lemma_group_acts(s.with_state(pid, ProcState::Stop), s.groups[pgid].job, pgid);
            }
        },
        Err(_) => {},
    }
}

/// What the end of a process can ask for.
proof fn lemma_end_acts(s: State, pid: i32)
    ensures
        forall|i: int|
            0 <= i < s.ended(pid).1.len() ==> {
                ||| #[trigger] s.ended(pid).1[i] is Warn
                ||| s.ended(pid).1[i] == Act::Foreground(s.shell_pgid)
                ||| s.ended(pid).1[i] == Act::Reply(ShellMsg::Continue(s.exit_val))
            },
        s.ended(pid).0.exit_val == s.exit_val,
        s.ended(pid).0.shell_pgid == s.shell_pgid,
{
    if s.knows(pid) {
        let pgid = s.procs[pid].pgid;
        lemma_group_acts(s.without_pid(pid), s.groups[pgid].job, pgid);
    }
}

/// A process that a signal ended counts as one that ended with the code of 128 and the number of
/// the signal; besides, a line first says which signal it was and whether the memory was saved.
pub proof fn law_signal_ends_like_code(s: State, pid: i32, sig: i32, name: String, core: bool)
    requires
        sig + 128 <= i32::MAX,
    ensures
        ({
            let killed = s.waited(Ok(WaitStatus::Signaled(pid, sig, name, core)));
            let exited = s.waited(Ok(WaitStatus::Exited(pid, (sig + 128) as i32)));
            let text = "プロセス "@ + integer(pid as int) + " がシグナル "@ + name@
                + " で終了しました"@;
            &&& killed.0 == exited.0
            &&& killed.2 == exited.2
            &&& killed.1.len() == exited.1.len() + 1
            &&& killed.1.skip(1) == exited.1
            &&& core ==> killed.1[0] == Act::Warn(text + "(コアダンプ)"@)
            &&& !core ==> killed.1[0] == Act::Warn(text)
        }),
{
    let killed = s.waited(Ok(WaitStatus::Signaled(pid, sig, name, core)));
    let exited = s.waited(Ok(WaitStatus::Exited(pid, (sig + 128) as i32)));
    let text = "プロセス "@ + integer(pid as int) + " がシグナル "@ + name@ + " で終了しました"@;
    assert(killed.1.skip(1) =~= exited.1);
    reveal_strlit("");
    assert(text + ""@ =~= text);
}

/// A process that is not in the tables changes nothing there when it ends or goes on, and nothing
/// is said of its end but the signal.
pub proof fn law_stranger_changes_nothing(s: State, pid: i32, code: i32)
    requires
        !s.procs.contains_key(pid),
    ensures
        s.waited(Ok(WaitStatus::Exited(pid, code))) == (
            State { exit_val: code, ..s },
            Seq::<Act>::empty(),
            true,
        ),
        s.waited(Ok(WaitStatus::Continued(pid))) == (s, Seq::<Act>::empty(), true),
{
}

/// The tables after a process ended: it is gone, from its group too; a group and a job go with the
/// last of their processes; nothing else changes.
pub proof fn law_tables_after_end(s: State, pid: i32, code: i32)
    requires
        s.wf(),
        s.procs.contains_key(pid),
    ensures
        ({
            let (t, _, again) = s.waited(Ok(WaitStatus::Exited(pid, code)));
            let pgid = s.procs[pid].pgid;
            let id = s.groups[pgid].job;
            let was_last = forall|p: i32| #[trigger]
                s.groups[pgid].pids.contains(p) ==> p == pid;
            &&& again
            &&& t.procs == s.procs.remove(pid)
            &&& was_last ==> t.jobs == s.jobs.remove(id) && t.groups == s.groups.remove(pgid)
            &&& !was_last ==> {
                &&& t.jobs == s.jobs
                &&& t.groups.dom() == s.groups.dom()
                &&& t.groups[pgid].job == id
                &&& t.groups[pgid].pids == s.groups[pgid].pids.remove(pid)
                &&& forall|g: i32|
                    g != pgid && s.groups.contains_key(g) ==> #[trigger] t.groups[g] == s.groups[g]
            }
        }),
{
    let pgid = s.procs[pid].pgid;
    let id = s.groups[pgid].job;
    let u = s.with_exit(code).without_pid(pid);
    let left = s.groups[pgid].pids.remove(pid);
    assert(s.groups.contains_key(pgid) && s.groups[pgid].pids.contains(pid));
    assert(s.jobs.contains_key(id) && s.jobs[id].pgid == pgid);
    assert(u.groups[pgid].pids == left);
    lemma_left(s, pid, pgid);
    let was_last = forall|p: i32| #[trigger] s.groups[pgid].pids.contains(p) ==> p == pid;
    if was_last {
        assert(u.groups.remove(pgid) =~= s.groups.remove(pgid));
    } else {
        assert(u.groups.dom() =~= s.groups.dom());
    }
}

/// What is left of a group without one of its processes.
proof fn lemma_left(s: State, pid: i32, pgid: i32)
    ensures
        s.groups[pgid].pids.remove(pid).is_empty() <==> (forall|p: i32| #[trigger]
            s.groups[pgid].pids.contains(p) ==> p == pid),
{
    let pids = s.groups[pgid].pids;
    let left = pids.remove(pid);
    if forall|p: i32| #[trigger] pids.contains(p) ==> p == pid {
        assert(left =~= Set::empty());
    } else {
        let p = choose|p: i32| #[trigger] pids.contains(p) && p != pid;
        assert(left.contains(p));
    }
}

/// The terminal after a process ended: a job that has it gives it back to the shell just where
/// none of the processes that it has left runs; else it stays where it is.
pub proof fn law_terminal_after_end(s: State, pid: i32, code: i32)
    requires
        s.wf(),
        s.procs.contains_key(pid),
    ensures
        ({
            let t = s.waited(Ok(WaitStatus::Exited(pid, code))).0;
            let pgid = s.procs[pid].pgid;
            let another_runs = exists|p: i32| #[trigger]
                s.groups[pgid].pids.contains(p) && p != pid && s.procs[p].state == ProcState::Run;
            &&& s.fg == Some(pgid) && !another_runs ==> t.fg is None
            &&& s.fg == Some(pgid) && another_runs ==> t.fg == Some(pgid)
            &&& s.fg != Some(pgid) ==> t.fg == s.fg
        }),
{
    lemma_end(s, pid, code);
}

/// What is shown and asked for after a process ended. The end of a job is shown, on a line of its
/// own where the shell has the terminal or another job; a job that had it and has only stopped
/// processes left is shown as stopped; in both cases the shell gets the terminal back and is
/// answered with the code. Nothing is asked for where a process of the job still runs, nor where
/// the job does not have the terminal and goes on.
pub proof fn law_shown_after_end(s: State, pid: i32, code: i32)
    requires
        s.wf(),
        s.procs.contains_key(pid),
    ensures
        ({
            let a = s.waited(Ok(WaitStatus::Exited(pid, code))).1;
            let pgid = s.procs[pid].pgid;
            let id = s.groups[pgid].job;
            let number = decimal(id as nat);
            let line = s.jobs[id].line;
            let was_last = forall|p: i32| #[trigger]
                s.groups[pgid].pids.contains(p) ==> p == pid;
            let another_runs = exists|p: i32| #[trigger]
                s.groups[pgid].pids.contains(p) && p != pid && s.procs[p].state == ProcState::Run;
            &&& s.fg == Some(pgid) && was_last ==> a == seq![
                Act::Warn("["@ + number + "]終了\t"@ + line),
                Act::Foreground(s.shell_pgid),
                Act::Reply(ShellMsg::Continue(code)),
            ]
            &&& s.fg == Some(pgid) && !was_last && !another_runs ==> a == seq![
                Act::Warn("["@ + number + "]停止\t"@ + line),
                Act::Foreground(s.shell_pgid),
                Act::Reply(ShellMsg::Continue(code)),
            ]
            &&& another_runs ==> a.len() == 0
            &&& s.fg != Some(pgid) && was_last ==> a == seq![
                Act::Warn("\n["@ + number + "]終了\t"@ + line),
            ]
            &&& s.fg != Some(pgid) && !was_last ==> a.len() == 0
        }),
{
    lemma_end(s, pid, code);
    let pgid = s.procs[pid].pgid;
    let a = s.waited(Ok(WaitStatus::Exited(pid, code))).1;
    lemma_left(s, pid, pgid);
    let was_last = forall|p: i32| #[trigger] s.groups[pgid].pids.contains(p) ==> p == pid;
    let another_runs = exists|p: i32| #[trigger]
        s.groups[pgid].pids.contains(p) && p != pid && s.procs[p].state == ProcState::Run;
    let id = s.groups[pgid].job;
    let number = decimal(id as nat);
    let line = s.jobs[id].line;
    if s.fg == Some(pgid) && was_last {
        assert(a =~= seq![
            Act::Warn("["@ + number + "]終了\t"@ + line),
            Act::Foreground(s.shell_pgid),
            Act::Reply(ShellMsg::Continue(code)),
        ]);
    } else if s.fg == Some(pgid) && !another_runs {
        assert(a =~= seq![
            Act::Warn("["@ + number + "]停止\t"@ + line),
            Act::Foreground(s.shell_pgid),
            Act::Reply(ShellMsg::Continue(code)),
        ]);
    }
}

/// Whether what is left of a group runs, seen before and after one of its processes is taken out.
proof fn lemma_end(s: State, pid: i32, code: i32)
    requires
        s.wf(),
        s.procs.contains_key(pid),
    ensures
        ({
            let pgid = s.procs[pid].pgid;
            let u = s.with_exit(code).without_pid(pid);
            &&& s.knows(pid)
            &&& s.jobs.contains_key(s.groups[pgid].job)
            &&& u.groups[pgid].pids == s.groups[pgid].pids.remove(pid)
            &&& u.group_stopped(pgid) <==> !(exists|p: i32| #[trigger]
                s.groups[pgid].pids.contains(p) && p != pid && s.procs[p].state == ProcState::Run)
            &&& u.group_empty(pgid) ==> u.group_stopped(pgid)
            &&& s.waited(Ok(WaitStatus::Exited(pid, code))).0.fg == (if s.fg == Some(pgid)
                && u.group_stopped(pgid) {
                None
            } else {
                s.fg
            })
        }),
{
    let pgid = s.procs[pid].pgid;
    let u = s.with_exit(code).without_pid(pid);
    let pids = s.groups[pgid].pids;
    assert(s.groups.contains_key(pgid) && pids.contains(pid));
    assert(u.groups[pgid].pids == pids.remove(pid));
    if exists|p: i32| #[trigger]
        pids.contains(p) && p != pid && s.procs[p].state == ProcState::Run {
        let p = choose|p: i32| #[trigger]
            pids.contains(p) && p != pid && s.procs[p].state == ProcState::Run;
        assert(u.groups[pgid].pids.contains(p));
        assert(u.procs[p] == s.procs[p]);
    } else {
        assert forall|p: i32| #[trigger] u.groups[pgid].pids.contains(p) implies u.procs[p].state
            == ProcState::Stop by {
            assert(pids.contains(p));
        }
    }
}

/// The process that each of the three ways to say that a process stopped speaks of.
proof fn lemma_stop(s: State, pid: i32)
    requires
        s.wf(),
        s.procs.contains_key(pid),
    ensures
        ({
            let pgid = s.procs[pid].pgid;
            let u = s.with_state(pid, ProcState::Stop);
            &&& s.jobs.contains_key(s.groups[pgid].job)
            &&& !u.group_empty(pgid)
            &&& u.group_stopped(pgid) <==> !(exists|p: i32| #[trigger]
                s.groups[pgid].pids.contains(p) && p != pid && s.procs[p].state == ProcState::Run)
        }),
{
    let pgid = s.procs[pid].pgid;
    let u = s.with_state(pid, ProcState::Stop);
    let pids = s.groups[pgid].pids;
    assert(s.groups.contains_key(pgid) && pids.contains(pid));
    if exists|p: i32| #[trigger]
        pids.contains(p) && p != pid && s.procs[p].state == ProcState::Run {
        let p = choose|p: i32| #[trigger]
            pids.contains(p) && p != pid && s.procs[p].state == ProcState::Run;
        assert(u.groups[pgid].pids.contains(p));
        assert(u.procs[p] == s.procs[p]);
    } else {
        assert forall|p: i32| #[trigger] u.groups[pgid].pids.contains(p) implies u.procs[p].state
            == ProcState::Stop by {
            assert(pids.contains(p));
        }
    }
}

/// After a process stopped it is marked as stopped, and no other process, no job, no group and no
/// code has changed. The job gives the terminal back just where it had it and none of its
/// processes runs; then it is shown as stopped and the shell is answered with the code of the last
/// command. Else nothing is asked for.
pub proof fn law_after_stop(s: State, pid: i32, sig: i32)
    requires
        s.wf(),
        s.procs.contains_key(pid),
    ensures
        ({
            let (t, a, again) = s.waited(Ok(WaitStatus::Stopped(pid, sig)));
            let pgid = s.procs[pid].pgid;
            let id = s.groups[pgid].job;
            let another_runs = exists|p: i32| #[trigger]
                s.groups[pgid].pids.contains(p) && p != pid && s.procs[p].state == ProcState::Run;
            &&& again
            &&& t.procs.dom() == s.procs.dom()
            &&& t.procs[pid].state == ProcState::Stop && t.procs[pid].pgid == pgid
            &&& forall|p: i32|
                p != pid && s.procs.contains_key(p) ==> #[trigger] t.procs[p] == s.procs[p]
            &&& t.jobs == s.jobs
            &&& t.groups == s.groups
            &&& t.exit_val == s.exit_val
            &&& if s.fg == Some(pgid) && !another_runs {
                &&& t.fg is None
                &&& a == seq![
                    Act::Warn("["@ + decimal(id as nat) + "]停止\t"@ + s.jobs[id].line),
                    Act::Foreground(s.shell_pgid),
                    Act::Reply(ShellMsg::Continue(s.exit_val)),
                ]
            } else {
                &&& t.fg == s.fg
                &&& a.len() == 0
            }
        }),
{
    let (t, a, again) = s.waited(Ok(WaitStatus::Stopped(pid, sig)));
    let pgid = s.procs[pid].pgid;
    let id = s.groups[pgid].job;
    lemma_stop(s, pid);
    assert(t.procs.dom() =~= s.procs.dom());
    let another_runs = exists|p: i32| #[trigger]
        s.groups[pgid].pids.contains(p) && p != pid && s.procs[p].state == ProcState::Run;
    if s.fg == Some(pgid) && !another_runs {
        assert(a =~= seq![
            Act::Warn("["@ + decimal(id as nat) + "]停止\t"@ + s.jobs[id].line),
            Act::Foreground(s.shell_pgid),
            Act::Reply(ShellMsg::Continue(s.exit_val)),
        ]);
    }
}

/// However the system says that a process stopped, and whatever the signal or the event was, it is
/// all the same.
pub proof fn law_every_stop_is_the_same(s: State, pid: i32, sig: i32, other: i32, event: i32)
    ensures
        s.waited(Ok(WaitStatus::Stopped(pid, sig))) == s.waited(
            Ok(WaitStatus::Stopped(pid, other)),
        ),
        s.waited(Ok(WaitStatus::Stopped(pid, sig))) == s.waited(
            Ok(WaitStatus::PtraceEvent(pid, other, event)),
        ),
        s.waited(Ok(WaitStatus::Stopped(pid, sig))) == s.waited(
            Ok(WaitStatus::PtraceSyscall(pid)),
        ),
{
}

/// After a process went on, the leader of its group or not, it is marked as running, and nothing
/// else has changed and nothing is asked for.
pub proof fn law_after_going_on(s: State, pid: i32)
    requires
        s.procs.contains_key(pid),
    ensures
        ({
            let (t, a, again) = s.waited(Ok(WaitStatus::Continued(pid)));
            &&& again
            &&& a.len() == 0
            &&& t.procs.dom() == s.procs.dom()
            &&& t.procs[pid].state == ProcState::Run && t.procs[pid].pgid == s.procs[pid].pgid
            &&& forall|p: i32|
                p != pid && s.procs.contains_key(p) ==> #[trigger] t.procs[p] == s.procs[p]
            &&& t.jobs == s.jobs
            &&& t.groups == s.groups
            &&& t.fg == s.fg
            &&& t.exit_val == s.exit_val
        }),
{
    assert(s.waited(Ok(WaitStatus::Continued(pid))).0.procs.dom() =~= s.procs.dom());
}

/// While a process of a job is last said to go on, the job keeps the terminal whatever another of
/// its processes does, and nothing is asked for.
pub proof fn law_going_on_keeps_terminal(s: State, pid: i32, other: i32, code: i32, sig: i32)
    requires
        s.wf(),
        s.procs.contains_key(pid),
        s.procs.contains_key(other),
        s.procs[pid].pgid == s.procs[other].pgid,
        pid != other,
    ensures
        ({
            let t = s.waited(Ok(WaitStatus::Continued(pid))).0;
            let ended = t.waited(Ok(WaitStatus::Exited(other, code)));
            let stopped = t.waited(Ok(WaitStatus::Stopped(other, sig)));
            &&& ended.0.fg == s.fg && ended.1.len() == 0
            &&& stopped.0.fg == s.fg && stopped.1.len() == 0
            &&& ended.0.jobs == s.jobs
        }),
{
    let t = s.waited(Ok(WaitStatus::Continued(pid))).0;
    lemma_with_state(s, pid, ProcState::Run);
    let pgid = s.procs[pid].pgid;
    assert(s.groups[pgid].pids.contains(pid));
    law_after_going_on(s, pid);
    assert(t.groups[pgid].pids.contains(pid) && t.procs[pid].state == ProcState::Run);
    law_terminal_after_end(t, other, code);
    law_shown_after_end(t, other, code);
    law_tables_after_end(t, other, code);
    law_after_stop(t, other, sig);
}

/// The system is asked again after each child that changed, and where a signal came in between;
/// not where no child has changed or none is left, and there nothing changes. Any other failure
/// is shown and ends the shell with 1.
pub proof fn law_when_asking_ends(s: State, answer: Result<WaitStatus, SysError>)
    ensures
        ({
            let (t, a, again) = s.waited(answer);
            match answer {
                Ok(WaitStatus::StillAlive) => !again && t == s && a.len() == 0,
                Ok(_) => again,
                Err(e) => {
                    &&& t == s
                    &&& again <==> e.kind == ErrorKind::Interrupted
                    &&& e.kind != ErrorKind::Other ==> a.len() == 0
                    &&& e.kind == ErrorKind::Other ==> a == seq![
                        Act::Warn("failed to wait: "@ + e.text@),
                        Act::Exit(1),
                    ]
                },
            }
        }),
{
    if let Err(e) = answer {
        if e.kind == ErrorKind::Other {
            assert(s.waited(answer).1 =~= seq![
                Act::Warn("failed to wait: "@ + e.text@),
                Act::Exit(1),
            ]);
        }
    }
}

/// A change of a child process never ends the shell and never resumes a job.
pub proof fn law_changes_only_hand_back(s: State, answer: Result<WaitStatus, SysError>, i: int)
    requires
        answer is Ok,
        0 <= i < s.waited(answer).1.len(),
    ensures
        s.waited(answer).1[i] is Warn || s.waited(answer).1[i] == Act::Foreground(s.shell_pgid)
            || s.waited(answer).1[i] is Reply,
{
    match answer {
        Ok(WaitStatus::Exited(pid, code)) => {
            lemma_end_acts(s.with_exit(code), pid);
        },
        Ok(WaitStatus::Signaled(pid, sig, name, core)) => {
            let u = s.with_exit((sig + 128) as i32);
            lemma_end_acts(u, pid);
            assert(s.waited(answer).1.len() == u.ended(pid).1.len() + 1);
            if i > 0 {
                assert(s.waited(answer).1[i] == u.ended(pid).1[i - 1]);
            }
        },
        Ok(status) => {
            if let Some(pid) = stopped_pid(status) {
                let pgid = s.procs[pid].pgid;
                lemma_group_acts(s.with_state(pid, ProcState::Stop), s.groups[pgid].job, pgid);
            }
        },
        Err(_) => {},
    }
}

/// What a change among the processes of a group can ask for.
proof fn lemma_group_acts(s: State, id: usize, pgid: i32)
    ensures
        forall|i: int|
            0 <= i < s.managed(id, pgid).1.len() ==> {
                ||| #[trigger] s.managed(id, pgid).1[i] is Warn
                ||| s.managed(id, pgid).1[i] == Act::Foreground(s.shell_pgid)
                ||| s.managed(id, pgid).1[i] == Act::Reply(ShellMsg::Continue(s.exit_val))
            },
{
}

/// A call of the system is made again just where a signal interrupted it; any other answer stands
/// as it is.
pub proof fn law_only_interruption_repeats<T>(answer: Result<T, SysError>)
    ensures
        answer is Ok ==> !interrupted(answer),
        answer matches Err(e) ==> (interrupted(answer) <==> !(e.kind == ErrorKind::NoChild
            || e.kind == ErrorKind::Other)),
        attempted(answer) is Again <==> interrupted(answer),
        attempted(answer) matches Attempt::Done(given) ==> given == answer,
{
}

/// Every answer of the system can be acted on, but that a process which is not in the tables
/// stopped, and that a signal ended a process whose number leaves no room for a code.
pub proof fn law_what_can_be_acted_on(s: State, answer: Result<WaitStatus, SysError>)
    ensures
        acceptable(s, answer) <==> match answer {
            Ok(WaitStatus::Stopped(pid, _)) => s.procs.contains_key(pid),
            Ok(WaitStatus::PtraceEvent(pid, _, _)) => s.procs.contains_key(pid),
            Ok(WaitStatus::PtraceSyscall(pid)) => s.procs.contains_key(pid),
            Ok(WaitStatus::Signaled(_, sig, _, _)) => sig <= i32::MAX - 128,
            _ => true,
        },
{
}

/// A new job is in the tables with all of its processes, and what was there before is as it was.
pub proof fn law_job_put_in(
    s: State,
    id: usize,
    pgid: i32,
    pids: Map<i32, ProcInfo>,
    line: Seq<char>,
)
    requires
        s.fresh_job(id, pgid, pids),
    ensures
        ({
            let t = s.with_job(id, pgid, pids, line);
            &&& t.jobs.contains_key(id) && t.jobs[id].pgid == pgid && t.jobs[id].line == line
            &&& t.jobs.remove(id) == s.jobs
            &&& t.groups.contains_key(pgid) && t.groups[pgid].job == id
            &&& forall|p: i32| #[trigger]
                t.groups[pgid].pids.contains(p) <==> pids.contains_key(p)
            &&& t.groups.remove(pgid) == s.groups
            &&& forall|p: i32| #[trigger]
                t.procs.contains_key(p) <==> s.procs.contains_key(p) || pids.contains_key(p)
            &&& forall|p: i32| pids.contains_key(p) ==> #[trigger] t.procs[p] == pids[p]
            &&& forall|p: i32| s.procs.contains_key(p) ==> #[trigger] t.procs[p] == s.procs[p]
            &&& t.fg == s.fg && t.exit_val == s.exit_val && t.shell_pgid == s.shell_pgid
        }),
{
    let t = s.with_job(id, pgid, pids, line);
    assert(t.jobs.remove(id) =~= s.jobs);
    assert(t.groups.remove(pgid) =~= s.groups);
}

/// What a new job must not find in the tables: its number, its group, its processes. Nothing else
/// stands in its way.
pub proof fn law_what_is_new(s: State, id: usize, pgid: i32, pids: Map<i32, ProcInfo>)
    ensures
        s.fresh_job(id, pgid, pids) <==> !s.jobs.dom().contains(id) && !s.groups.dom().contains(
            pgid,
        ) && pids.dom().disjoint(s.procs.dom()),
{
    if s.fresh_job(id, pgid, pids) {
        assert forall|p: i32| pids.dom().contains(p) implies !s.procs.dom().contains(p) by {
            assert(pids.contains_key(p));
        }
    } else if pids.dom().disjoint(s.procs.dom()) {
        assert forall|p: i32| #[trigger] pids.contains_key(p) implies !s.procs.contains_key(p) by {
            assert(pids.dom().contains(p));
        }
    }
}

/// Putting a job in and taking it out again leaves the jobs and the groups as they were; taking
/// out a number that no job has changes nothing.
pub proof fn law_job_taken_out(
    s: State,
    id: usize,
    pgid: i32,
    pids: Map<i32, ProcInfo>,
    line: Seq<char>,
)
    requires
        s.fresh_job(id, pgid, pids),
    ensures
        ({
            let t = s.with_job(id, pgid, pids, line).without_job(id);
            &&& t.jobs == s.jobs
            &&& t.groups == s.groups
            &&& t.procs == s.with_job(id, pgid, pids, line).procs
            &&& t.fg == s.fg && t.exit_val == s.exit_val && t.shell_pgid == s.shell_pgid
        }),
        s.without_job(id) == s,
{
    let t = s.with_job(id, pgid, pids, line).without_job(id);
    assert(t.jobs =~= s.jobs);
    assert(t.groups =~= s.groups);
}

/// Taking a job out takes its number and its group, and nothing else.
pub proof fn law_only_the_job_goes(s: State, id: usize)
    requires
        s.jobs.contains_key(id),
    ensures
        ({
            let t = s.without_job(id);
            &&& !t.jobs.contains_key(id)
            &&& !t.groups.contains_key(s.jobs[id].pgid)
            &&& forall|j: usize|
                j != id ==> (#[trigger] t.jobs.contains_key(j) <==> s.jobs.contains_key(j))
            &&& forall|j: usize|
                j != id && s.jobs.contains_key(j) ==> #[trigger] t.jobs[j] == s.jobs[j]
            &&& forall|g: i32|
                g != s.jobs[id].pgid ==> (#[trigger] t.groups.contains_key(g)
                    <==> s.groups.contains_key(g))
            &&& forall|g: i32|
                g != s.jobs[id].pgid && s.groups.contains_key(g) ==> #[trigger] t.groups[g]
                    == s.groups[g]
            &&& t.procs == s.procs
            &&& t.fg == s.fg && t.exit_val == s.exit_val && t.shell_pgid == s.shell_pgid
        }),
{
}

/// Taking a process out takes it from the processes and from its group, and nothing else.
pub proof fn law_only_the_process_goes(s: State, pid: i32)
    requires
        s.procs.contains_key(pid),
        s.groups.contains_key(s.procs[pid].pgid),
    ensures
        ({
            let t = s.without_pid(pid);
            let pgid = s.procs[pid].pgid;
            &&& s.knows(pid)
            &&& t.procs == s.procs.remove(pid)
            &&& t.groups.dom() == s.groups.dom()
            &&& t.groups[pgid].job == s.groups[pgid].job
            &&& forall|p: i32| #[trigger]
                t.groups[pgid].pids.contains(p) <==> s.groups[pgid].pids.contains(p) && p != pid
            &&& forall|g: i32|
                g != pgid && s.groups.contains_key(g) ==> #[trigger] t.groups[g] == s.groups[g]
            &&& t.jobs == s.jobs
            &&& t.fg == s.fg && t.exit_val == s.exit_val && t.shell_pgid == s.shell_pgid
        }),
{
    assert(s.without_pid(pid).groups.dom() =~= s.groups.dom());
}

/// A process without an entry, or whose group has none, is not known, and taking it out changes
/// nothing.
pub proof fn law_unknown_is_not_taken_out(s: State, pid: i32)
    requires
        s.procs.contains_key(pid) ==> !s.groups.contains_key(s.procs[pid].pgid),
    ensures
        !s.knows(pid),
        s.without_pid(pid) == s,
{
}

/// A process is in a state just where it has an entry, which says it; and in a place just where its
/// group has an entry too: in the group that its own entry names, and in the job that the group
/// names.
pub proof fn law_where_a_process_is(s: State, pid: i32, state: ProcState, id: usize, pgid: i32)
    ensures
        s.state_of(pid) == Some(state) <==> s.procs.contains_key(pid) && s.procs[pid].state
            == state,
        s.place_of(pid) == Some((id, pgid)) <==> {
            &&& s.procs.contains_key(pid)
            &&& s.procs[pid].pgid == pgid
            &&& s.groups.contains_key(pgid)
            &&& s.groups[pgid].job == id
        },
{
}

/// Marking a process changes its state alone, and of no other process; one that is not in the
/// tables is not put there.
pub proof fn law_only_the_state_changes(s: State, pid: i32, state: ProcState)
    ensures
        ({
            let t = s.with_state(pid, state);
            &&& t.procs.dom() == s.procs.dom()
            &&& s.procs.contains_key(pid) ==> t.procs[pid].state == state && t.procs[pid].pgid
                == s.procs[pid].pgid
            &&& forall|p: i32|
                p != pid && s.procs.contains_key(p) ==> #[trigger] t.procs[p] == s.procs[p]
            &&& !s.procs.contains_key(pid) ==> t == s
            &&& t.jobs == s.jobs && t.groups == s.groups
            &&& t.fg == s.fg && t.exit_val == s.exit_val && t.shell_pgid == s.shell_pgid
        }),
{
    assert(s.with_state(pid, state).procs.dom() =~= s.procs.dom());
}

/// A group is stopped just where none of its processes runs, and empty just where it has none; an
/// empty one is stopped too.
pub proof fn law_group_stopped(s: State, pgid: i32)
    ensures
        s.group_stopped(pgid) <==> !(exists|p: i32| #[trigger]
            s.groups[pgid].pids.contains(p) && s.procs[p].state == ProcState::Run),
        s.group_empty(pgid) <==> !(exists|p: i32| #[trigger] s.groups[pgid].pids.contains(p)),
        s.group_empty(pgid) ==> s.group_stopped(pgid),
{
    let pids = s.groups[pgid].pids;
    if !(exists|p: i32| #[trigger] pids.contains(p)) {
        assert(pids =~= Set::empty());
    }
}

/// Giving the terminal back changes who has it and nothing else; the shell's group is given it,
/// and then the shell is answered with the code that is kept.
pub proof fn law_terminal_given_back(s: State)
    ensures
        s.with_shell_fg().fg is None,
        s.with_shell_fg().jobs == s.jobs,
        s.with_shell_fg().groups == s.groups,
        s.with_shell_fg().procs == s.procs,
        s.with_shell_fg().exit_val == s.exit_val,
        s.with_shell_fg().shell_pgid == s.shell_pgid,
        s.shell_fg_acts() == seq![
            Act::Foreground(s.shell_pgid),
            Act::Reply(ShellMsg::Continue(s.exit_val)),
        ],
{
}

/// Keeping a code changes nothing but the code.
pub proof fn law_only_the_code_changes(s: State, code: i32)
    ensures
        s.with_exit(code).exit_val == code,
        s.with_exit(code).fg == s.fg,
        s.with_exit(code).jobs == s.jobs,
        s.with_exit(code).groups == s.groups,
        s.with_exit(code).procs == s.procs,
        s.with_exit(code).shell_pgid == s.shell_pgid,
{
}

/// What a change among the processes of a group leads to, whatever the tables hold: a job is taken
/// out just where its group has no process left; the terminal goes back just where the group has
/// it and no process of it runs; and each of the three lines about a job is shown on its occasion.
pub proof fn law_change_of_group(s: State, id: usize, pgid: i32)
    ensures
        ({
            let (t, a) = s.managed(id, pgid);
            let none_left = !(exists|p: i32| #[trigger] s.groups[pgid].pids.contains(p));
            let none_runs = !(exists|p: i32| #[trigger]
                s.groups[pgid].pids.contains(p) && s.procs[p].state == ProcState::Run);
            let back = s.fg == Some(pgid) && none_runs;
            let number = decimal(id as nat);
            let line = s.jobs[id].line;
            &&& t.procs == s.procs && t.exit_val == s.exit_val && t.shell_pgid == s.shell_pgid
            &&& none_left && s.jobs.contains_key(id) ==> t.jobs == s.jobs.remove(id) && t.groups
                == s.groups.remove(s.jobs[id].pgid)
            &&& !none_left || !s.jobs.contains_key(id) ==> t.jobs == s.jobs && t.groups == s.groups
            &&& back ==> t.fg is None && a == seq![
                Act::Warn(
                    "["@ + number + (if none_left {
                        "]終了\t"@
                    } else {
                        "]停止\t"@
                    }) + line,
                ),
                Act::Foreground(s.shell_pgid),
                Act::Reply(ShellMsg::Continue(s.exit_val)),
            ]
            &&& !back ==> t.fg == s.fg
            &&& !back && none_left ==> a == seq![Act::Warn("\n["@ + number + "]終了\t"@ + line)]
            &&& !back && !none_left ==> a.len() == 0
        }),
{
    let (t, a) = s.managed(id, pgid);
    law_group_stopped(s, pgid);
    let none_left = !(exists|p: i32| #[trigger] s.groups[pgid].pids.contains(p));
    let none_runs = !(exists|p: i32| #[trigger]
        s.groups[pgid].pids.contains(p) && s.procs[p].state == ProcState::Run);
    let number = decimal(id as nat);
    let line = s.jobs[id].line;
    if s.fg == Some(pgid) && none_runs {
        assert(a =~= seq![
            Act::Warn(
                "["@ + number + (if none_left {
                    "]終了\t"@
                } else {
                    "]停止\t"@
                }) + line,
            ),
            Act::Foreground(s.shell_pgid),
            Act::Reply(ShellMsg::Continue(s.exit_val)),
        ]);
    }
}

/// At the start there is no job, no group and no process, the shell has the terminal, and the code
/// is 0.
pub proof fn law_start_is_empty(shell: i32)
    ensures
        State::initial(shell).exit_val == 0,
        State::initial(shell).fg is None,
        State::initial(shell).shell_pgid == shell,
        forall|j: usize| !(#[trigger] State::initial(shell).jobs.contains_key(j)),
        forall|g: i32| !(#[trigger] State::initial(shell).groups.contains_key(g)),
        forall|p: i32| !(#[trigger] State::initial(shell).procs.contains_key(p)),
{
}

} // verus!
