//! What the built-in commands do, and which line is which command.
use crate::cd::{cd_leads_to, goes_to, CdTarget};
use crate::effect::{Act, ShellMsg};
use crate::job_laws::law_listing;
use crate::model::{ProcState, State};
use crate::number::{decimal, signed, unsigned};
use crate::parse::{command, is_command, programs, Program};
use crate::process_laws::{law_after_going_on, law_after_stop, law_group_stopped};
use crate::service::{built_in, Command, Next};
use crate::wait::WaitStatus;
use std::path::PathBuf;
use vstd::prelude::*;

verus! {

/// The command `exit` while there is a job: it is refused, whatever the arguments are.
pub proof fn law_exit_with_jobs(s: State, args: Seq<Seq<char>>, id: usize)
    requires
        s.jobs.contains_key(id),
    ensures
        s.exit_command(args) == (
            State { exit_val: 1, ..s },
            seq![
                Act::Warn("ZeroSh: ジョブが実行中です"@),
                Act::Reply(ShellMsg::Continue(1)),
            ],
        ),
{
    assert(s.jobs.dom().contains(id));
}

/// The command `exit` without jobs: it leaves with the number that the second argument writes, and
/// with the code that is kept where there is no second; where the second writes no number that a
/// code can be, it is shown, and the shell reads on with the code 1. The tables stay.
pub proof fn law_exit_without_jobs(s: State, args: Seq<Seq<char>>)
    requires
        forall|j: usize| !(#[trigger] s.jobs.contains_key(j)),
    ensures
        ({
            let (t, a) = s.exit_command(args);
            let leaves = args.len() < 2 || (signed(args[1]) matches Some(n) && i32::MIN <= n
                <= i32::MAX);
            &&& args.len() < 2 ==> a == seq![Act::Reply(ShellMsg::Quit(s.exit_val))]
            &&& args.len() >= 2 && leaves ==> a == seq![
                Act::Reply(ShellMsg::Quit(signed(args[1])->0 as i32)),
            ]
            &&& !leaves ==> a == seq![
                Act::Warn(args[1] + " は不正な引数です"@),
                Act::Reply(ShellMsg::Continue(1)),
            ]
            &&& t.exit_val == (if leaves {
                s.exit_val
            } else {
                1
            })
            &&& t.fg == s.fg && t.jobs == s.jobs && t.groups == s.groups && t.procs == s.procs
                && t.shell_pgid == s.shell_pgid
        }),
{
    assert(s.jobs.dom() =~= Set::empty());
    if args.len() >= 2 {
        if let Some(n) = signed(args[1]) {
            if i32::MIN <= n <= i32::MAX {
                assert(s.exit_command(args).1 == seq![Act::Reply(ShellMsg::Quit(n as i32))]);
            }
        }
    }
}

/// The command `fg` without a second argument: it asks for one, and the shell reads on with the
/// code 1.
pub proof fn law_fg_without_number(s: State, args: Seq<Seq<char>>)
    requires
        args.len() < 2,
    ensures
        s.fg_command(args) == (
            State { exit_val: 1, ..s },
            seq![
                Act::Warn("ZeroSh: fg: ジョブIDまたはプロセスIDを指定してください"@),
                Act::Reply(ShellMsg::Continue(1)),
            ],
        ),
{
}

/// The command `fg` where the second argument writes no number, or one that no job has: it resumes
/// nothing and gives nobody the terminal; the argument is shown, and the shell reads on with the
/// code 1.
pub proof fn law_fg_without_job(s: State, args: Seq<Seq<char>>)
    requires
        args.len() >= 2,
        unsigned(args[1]) matches Some(n) ==> forall|id: usize|
            id == n ==> !(#[trigger] s.jobs.contains_key(id)),
    ensures
        s.fg_command(args) == (
            State { exit_val: 1, ..s },
            seq![
                Act::Warn(args[1] + " というジョブは見つかりませんでした"@),
                Act::Reply(ShellMsg::Continue(1)),
            ],
        ),
{
}

/// The command `fg` where the second argument writes the number of a job: that job is shown, gets
/// the terminal and is resumed; the shell is not answered; the tables stay but for who has the
/// terminal and the code, which is 1.
pub proof fn law_fg_of_job(s: State, args: Seq<Seq<char>>, id: usize)
    requires
        args.len() >= 2,
        unsigned(args[1]) == Some(id as nat),
        s.jobs.contains_key(id),
    ensures
        s.fg_command(args) == (
            State { exit_val: 1, fg: Some(s.jobs[id].pgid), ..s },
            seq![
                Act::Warn("["@ + decimal(id as nat) + "] 再開\t"@ + s.jobs[id].line),
                Act::Foreground(s.jobs[id].pgid),
                Act::Resume(s.jobs[id].pgid),
            ],
        ),
{
}

/// Whatever job `fg` resumes is in the tables under the number that the second argument writes.
pub proof fn law_fg_resumes_what_was_named(s: State, args: Seq<Seq<char>>, pgid: i32)
    requires
        s.fg_command(args).1.contains(Act::Resume(pgid)),
    ensures
        args.len() >= 2,
        exists|id: usize| #[trigger]
            s.jobs.contains_key(id) && unsigned(args[1]) == Some(id as nat) && s.jobs[id].pgid
                == pgid,
{
    let a = s.fg_command(args).1;
    let i = choose|i: int| 0 <= i < a.len() && a[i] == Act::Resume(pgid);
    assert(a[i] is Resume);
    let n = unsigned(args[1])->0;
    assert(s.jobs.contains_key(n as usize));
}

/// The command `jobs` shows one line for each job, in the order of their numbers: the number, that
/// the job runs where one of the processes that it has left runs and that it is stopped where none
/// does, and the line that started it. Then the shell reads on with the code 0. The tables stay.
pub proof fn law_jobs_shown(s: State)
    ensures
        s.jobs_command().0 == (State { exit_val: 0, ..s }),
        s.jobs_command().1.len() == s.ids().len() + 1,
        s.jobs_command().1.last() == Act::Reply(ShellMsg::Continue(0)),
        forall|i: int, j: int| 0 <= i < j < s.ids().len() ==> s.ids()[i] < s.ids()[j],
        forall|id: usize| s.ids().contains(id) <==> s.jobs.contains_key(id),
        forall|i: int| #![trigger s.ids()[i]]
            0 <= i < s.ids().len() ==> ({
                let id = s.ids()[i];
                let runs = exists|p: i32| #[trigger]
                    s.groups[s.jobs[id].pgid].pids.contains(p) && s.procs[p].state
                        == ProcState::Run;
                let number = decimal(id as nat);
                &&& runs ==> s.jobs_command().1[i] == Act::Print(
                    "["@ + number + "] 実行中\t"@ + s.jobs[id].line,
                )
                &&& !runs ==> s.jobs_command().1[i] == Act::Print(
                    "["@ + number + "] 停止中\t"@ + s.jobs[id].line,
                )
            }),
{
    law_listing(s);
    assert forall|i: int| #![trigger s.ids()[i]] 0 <= i < s.ids().len() implies ({
        let id = s.ids()[i];
        let runs = exists|p: i32| #[trigger]
            s.groups[s.jobs[id].pgid].pids.contains(p) && s.procs[p].state == ProcState::Run;
        let number = decimal(id as nat);
        &&& runs ==> s.jobs_command().1[i] == Act::Print(
            "["@ + number + "] 実行中\t"@ + s.jobs[id].line,
        )
        &&& !runs ==> s.jobs_command().1[i] == Act::Print(
            "["@ + number + "] 停止中\t"@ + s.jobs[id].line,
        )
    }) by {
        law_group_stopped(s, s.jobs[s.ids()[i]].pgid);
    }
}

/// A line that `jobs` shows of a job is found among what it asks for.
proof fn lemma_shown(s: State, id: usize)
    requires
        s.jobs.contains_key(id),
    ensures
        ({
            let runs = exists|p: i32| #[trigger]
                s.groups[s.jobs[id].pgid].pids.contains(p) && s.procs[p].state == ProcState::Run;
            let number = decimal(id as nat);
            &&& runs ==> s.jobs_command().1.contains(
                Act::Print("["@ + number + "] 実行中\t"@ + s.jobs[id].line),
            )
            &&& !runs ==> s.jobs_command().1.contains(
                Act::Print("["@ + number + "] 停止中\t"@ + s.jobs[id].line),
            )
        }),
{
    law_jobs_shown(s);
    assert(s.ids().contains(id));
    let i = choose|i: int| 0 <= i < s.ids().len() && s.ids()[i] == id;
    assert(s.ids()[i] == id);
    let shown = s.jobs_command().1[i];
    assert(s.jobs_command().1.contains(shown));
}

/// A job that gave the terminal back because its last running process stopped is listed as
/// stopped.
pub proof fn law_stopped_job_is_listed_so(s: State, pid: i32, sig: i32)
    requires
        s.wf(),
        s.procs.contains_key(pid),
        s.fg == Some(s.procs[pid].pgid),
        s.waited(Ok(WaitStatus::Stopped(pid, sig))).0.fg is None,
    ensures
        ({
            let t = s.waited(Ok(WaitStatus::Stopped(pid, sig))).0;
            let id = s.groups[s.procs[pid].pgid].job;
            t.jobs_command().1.contains(
                Act::Print("["@ + decimal(id as nat) + "] 停止中\t"@ + s.jobs[id].line),
            )
        }),
{
    let t = s.waited(Ok(WaitStatus::Stopped(pid, sig))).0;
    let pgid = s.procs[pid].pgid;
    let id = s.groups[pgid].job;
    law_after_stop(s, pid, sig);
    assert(s.jobs.contains_key(id) && s.jobs[id].pgid == pgid);
    lemma_shown(t, id);
    if exists|p: i32| #[trigger]
        t.groups[pgid].pids.contains(p) && t.procs[p].state == ProcState::Run {
        let p = choose|p: i32| #[trigger]
            t.groups[pgid].pids.contains(p) && t.procs[p].state == ProcState::Run;
        assert(s.groups[pgid].pids.contains(p));
        assert(t.procs[p] == s.procs[p]);
    }
}

/// A job of which a process was last said to go on is listed as running.
pub proof fn law_running_job_is_listed_so(s: State, pid: i32)
    requires
        s.wf(),
        s.procs.contains_key(pid),
    ensures
        ({
            let t = s.waited(Ok(WaitStatus::Continued(pid))).0;
            let id = s.groups[s.procs[pid].pgid].job;
            t.jobs_command().1.contains(
                Act::Print("["@ + decimal(id as nat) + "] 実行中\t"@ + s.jobs[id].line),
            )
        }),
{
    let t = s.waited(Ok(WaitStatus::Continued(pid))).0;
    let pgid = s.procs[pid].pgid;
    let id = s.groups[pgid].job;
    law_after_going_on(s, pid);
    assert(s.groups.contains_key(pgid));
    assert(s.jobs.contains_key(id) && s.jobs[id].pgid == pgid);
    assert(t.groups[pgid].pids.contains(pid) && t.procs[pid].state == ProcState::Run);
    lemma_shown(t, id);
}

/// After the attempt to change the directory the code is 0 where it was changed and 1 where not;
/// why not is shown; the shell is answered with the code; the tables stay.
pub proof fn law_after_cd(s: State, failure: Option<Seq<char>>)
    ensures
        failure is None ==> s.moved(failure) == (
            State { exit_val: 0, ..s },
            seq![Act::Reply(ShellMsg::Continue(0))],
        ),
        failure matches Some(why) ==> s.moved(failure) == (
            State { exit_val: 1, ..s },
            seq![Act::Warn("cdに失敗: "@ + why), Act::Reply(ShellMsg::Continue(1))],
        ),
{
}

/// Where `cd` goes: to the directory that its argument names, whatever the name and the home are;
/// without an argument home, and to the root where there is no home.
pub proof fn law_where_cd_goes(
    args: Seq<Seq<char>>,
    home: Option<PathBuf>,
    to: CdTarget,
)
    requires
        args.len() > 0,
        goes_to(args, home, to),
    ensures
        args.len() >= 2 ==> (to matches CdTarget::Named(name) && name@ == args[1]),
        args.len() == 1 && home is Some ==> (to matches CdTarget::Home(dir) && Some(dir) == home),
        args.len() == 1 && home is None ==> (to matches CdTarget::Named(name) && name@ == "/"@),
{
}

/// A line that is no command is refused, and nothing changes.
pub proof fn law_line_without_program(s: State, line: Seq<char>, next: Next)
    requires
        !is_command(line),
    ensures
        s.line_read(line) == (
            s,
            seq![
                Act::Warn("ZeroSh: "@ + "空のコマンド"@),
                Act::Reply(ShellMsg::Continue(s.exit_val)),
            ],
        ),
        s.line_leaves(line, next) <==> next is Listen,
{
}

/// A line whose only program is `exit` is that command, on the program's arguments.
pub proof fn law_exit_line(s: State, line: Seq<char>, args: Seq<Seq<char>>, next: Next)
    requires
        is_command(line),
        command(line) == seq![("exit"@, args)],
    ensures
        s.line_read(line) == s.exit_command(args),
        s.line_leaves(line, next) <==> next is Listen,
{
    lemma_names();
    assert(command(line)[0] == ("exit"@, args));
}

/// A line whose only program is `jobs` is that command, whatever the arguments are.
pub proof fn law_jobs_line(s: State, line: Seq<char>, args: Seq<Seq<char>>, next: Next)
    requires
        is_command(line),
        command(line) == seq![("jobs"@, args)],
    ensures
        s.line_read(line) == s.jobs_command(),
        s.line_leaves(line, next) <==> next is Listen,
{
    lemma_names();
    assert(command(line)[0] == ("jobs"@, args));
}

/// A line whose only program is `fg` is that command, on the program's arguments.
pub proof fn law_fg_line(s: State, line: Seq<char>, args: Seq<Seq<char>>, next: Next)
    requires
        is_command(line),
        command(line) == seq![("fg"@, args)],
    ensures
        s.line_read(line) == s.fg_command(args),
        s.line_leaves(line, next) <==> next is Listen,
{
    lemma_names();
    assert(command(line)[0] == ("fg"@, args));
}

/// A line whose only program is `cd` leaves the directory to be changed and nothing else: to the
/// one that the first argument names, and without one to what `dirs::home_dir` gives, or the root.
pub proof fn law_cd_line(s: State, line: Seq<char>, args: Seq<Seq<char>>, next: Next)
    requires
        is_command(line),
        command(line) == seq![("cd"@, args)],
        s.line_leaves(line, next),
    ensures
        s.line_read(line) == (s, Seq::<Act>::empty()),
        next is ChangeDir,
        args.len() > 0 ==> (next->ChangeDir_0 matches CdTarget::Named(name) && name@ == args[0]),
        args.len() == 0 ==> exists|home: Option<PathBuf>| #[trigger]
            call_ensures(dirs::home_dir, (), home) && match home {
                Some(dir) => next->ChangeDir_0 == CdTarget::Home(dir),
                None => next->ChangeDir_0 matches CdTarget::Named(name) && name@ == "/"@,
            },
{
    lemma_names();
    assert(command(line)[0] == ("cd"@, args));
    let to = next->ChangeDir_0;
    let whole = seq!["cd"@] + args;
    assert(cd_leads_to(whole, to));
    let home = choose|home: Option<PathBuf>| #[trigger]
        goes_to(whole, home, to) && (whole.len() == 1 ==> call_ensures(dirs::home_dir, (), home));
    law_where_cd_goes(whole, home, to);
    if args.len() == 0 {
        assert(call_ensures(dirs::home_dir, (), home));
    } else {
        assert(whole[1] == args[0]);
    }
}

/// Of single programs just the four are built in, each on its arguments; programs in a pipe never
/// are, and what is not built in changes nothing.
pub proof fn law_which_is_built_in(s: State, cmd: Seq<Program>)
    requires
        cmd.len() > 0,
    ensures
        built_in(cmd) is Some <==> runs_itself(cmd),
        runs_itself(cmd) && cmd[0].0 == "exit"@ ==> s.built_in_done(cmd) == s.exit_command(
            cmd[0].1,
        ) && built_in(cmd) != Some(Command::Cd),
        runs_itself(cmd) && cmd[0].0 == "jobs"@ ==> s.built_in_done(cmd) == s.jobs_command()
            && built_in(cmd) != Some(Command::Cd),
        runs_itself(cmd) && cmd[0].0 == "fg"@ ==> s.built_in_done(cmd) == s.fg_command(cmd[0].1)
            && built_in(cmd) != Some(Command::Cd),
        runs_itself(cmd) && cmd[0].0 == "cd"@ ==> s.built_in_done(cmd) == (s, Seq::<Act>::empty())
            && built_in(cmd) == Some(Command::Cd),
        !runs_itself(cmd) ==> s.built_in_done(cmd) == (s, Seq::<Act>::empty()),
{
    lemma_names();
}

/// The four names are different.
proof fn lemma_names()
    ensures
        "exit"@ != "jobs"@,
        "exit"@ != "fg"@,
        "exit"@ != "cd"@,
        "jobs"@ != "fg"@,
        "jobs"@ != "cd"@,
        "fg"@ != "cd"@,
{
    reveal_strlit("exit");
    reveal_strlit("jobs");
    reveal_strlit("fg");
    reveal_strlit("cd");
    assert("exit"@[0] != "jobs"@[0]);
    assert("fg"@[0] != "cd"@[0]);
}

/// Whether programs are one of the four commands that the shell runs itself.
pub open spec fn runs_itself(cmd: Seq<Program>) -> bool {
    cmd.len() == 1 && (cmd[0].0 == "exit"@ || cmd[0].0 == "jobs"@ || cmd[0].0 == "fg"@ || cmd[0].0
        == "cd"@)
}

/// Any other command of one program, and any of two, changes nothing yet and leaves its processes
/// to be started, where a number is free: as a job under the smallest one, through a pipe just
/// where there are two programs, and of just the programs of the line.
pub proof fn law_other_line_starts_job(s: State, line: Seq<char>, next: Next)
    requires
        is_command(line),
        !runs_itself(command(line)),
        1 <= command(line).len() <= 2,
        exists|id: usize| !(#[trigger] s.jobs.contains_key(id)),
        s.line_leaves(line, next),
    ensures
        s.line_read(line) == (s, Seq::<Act>::empty()),
        next is Spawn,
        programs(next->Spawn_1@) == command(line),
        ({
            let l = next->Spawn_0;
            &&& l.first is None
            &&& l.piped <==> command(line).len() == 2
            &&& !s.jobs.contains_key(l.job_id)
            &&& forall|j: usize| j < l.job_id ==> #[trigger] s.jobs.contains_key(j)
        }),
{
    let id = choose|id: usize| !(#[trigger] s.jobs.contains_key(id));
    assert(!s.full());
}

/// A command of three programs or more is refused, whatever the programs are; and so is any other
/// that the shell does not run itself where no number is free. Nothing changes then.
pub proof fn law_line_refused(s: State, line: Seq<char>, next: Next)
    requires
        is_command(line),
        !runs_itself(command(line)),
        command(line).len() > 0,
        s.line_leaves(line, next),
    ensures
        (forall|id: usize| #[trigger] s.jobs.contains_key(id)) ==> next is Listen && s.line_read(
            line,
        ) == (
            s,
            seq![
                Act::Warn("ZeroSh: ジョブ数が上限に達しました"@),
                Act::Reply(ShellMsg::Continue(s.exit_val)),
            ],
        ),
        command(line).len() > 2 && !(forall|id: usize| #[trigger] s.jobs.contains_key(id))
            ==> next is Listen && s.line_read(line) == (
            s,
            seq![
                Act::Warn("ZeroSh: 3つ以上のコマンドパイプはサポートしていません"@),
                Act::Reply(ShellMsg::Continue(s.exit_val)),
            ],
        ),
{
}

} // verus!
