//! How the processes of a job are started, joined by a pipe and put into the tables.
use crate::effect::{Act, ShellMsg};
use crate::launch::{child_setup, outcome, ChildStep, Launch};
use crate::model::{failure, members, ProcState, State};
use vstd::prelude::*;

verus! {

/// A command of one program, under whatever number: its process runs the first program, leads a
/// group of its own and uses no pipe.
pub proof fn law_single_program(s: State, l: Launch)
    requires
        s.launch_of(1, l),
    ensures
        l.next().program == 0,
        l.next().pgid == 0,
        !l.next().reads_pipe,
        !l.next().writes_pipe,
{
}

/// A command of two programs, under whatever number. The process of the first program leads a
/// group of its own and writes into the pipe. Once it was started, nothing has changed and another
/// process is due: that of the second program, which joins the group of the first and reads from
/// the pipe. No process does both.
pub proof fn law_two_programs(s: State, l: Launch, line: Seq<char>, child: i32)
    requires
        s.launch_of(2, l),
    ensures
        l.next().program == 0,
        l.next().pgid == 0,
        !l.next().reads_pipe,
        l.next().writes_pipe,
        ({
            let (t, a, step) = s.forked(l, line, Ok(child));
            &&& t == s
            &&& a.len() == 0
            &&& step is More
            &&& step->More_0.job_id == l.job_id
            &&& step->More_0.next().program == 1
            &&& step->More_0.next().pgid == child
            &&& step->More_0.next().reads_pipe
            &&& !step->More_0.next().writes_pipe
        }),
{
}

/// The number of a job has no part in how its processes are started.
pub proof fn law_number_does_not_matter(l: Launch, other: usize)
    ensures
        l.next() == (Launch { job_id: other, ..l }).next(),
{
}

/// What is read from the pipe is what is written into it: of all the processes of a command just
/// one writes where one reads, and none does where none does.
pub proof fn law_pipe_has_two_ends(s: State, l: Launch, n: nat, line: Seq<char>, child: i32)
    requires
        1 <= n <= 2,
        s.launch_of(n, l),
    ensures
        ({
            let step = s.forked(l, line, Ok(child)).2;
            let second_reads = step is More && step->More_0.next().reads_pipe;
            &&& n == 2 <==> l.next().writes_pipe
            &&& l.next().writes_pipe <==> second_reads
            &&& n == 2 <==> step is More
            &&& n == 1 <==> step is Started
        }),
{
}

/// A command under the smallest number that is free, through a pipe just where it has two
/// programs, and with nothing started: every such start is the same.
pub proof fn law_one_way_to_start(s: State, n: nat, l: Launch, other: Launch)
    requires
        s.launch_of(n, l),
        s.launch_of(n, other),
    ensures
        l == other,
        !s.jobs.contains_key(l.job_id),
        forall|j: usize| j < l.job_id ==> #[trigger] s.jobs.contains_key(j),
        l.piped <==> n == 2,
        l.first is None,
{
    if l.job_id < other.job_id {
        assert(s.jobs.contains_key(l.job_id));
    }
    if other.job_id < l.job_id {
        assert(s.jobs.contains_key(other.job_id));
    }
}

/// A number is the one that is given next just where no job has it and jobs have all the smaller
/// ones; none is given just where jobs have them all.
pub proof fn law_next_number(s: State, id: usize)
    ensures
        s.least_free(id) <==> !s.jobs.contains_key(id) && (forall|j: usize|
            j < id ==> #[trigger] s.jobs.contains_key(j)),
        s.least_free(id) ==> !s.full(),
        s.full() <==> !(exists|j: usize| !(#[trigger] s.jobs.contains_key(j))),
{
}

/// Once the last process of a command was started, its job is in the tables under its number, with
/// its line and with just its processes, all of them running in the group that the first leads;
/// that group has the terminal, nothing else is asked for, and what was in the tables before is as
/// it was.
pub proof fn law_job_started(s: State, l: Launch, line: Seq<char>, child: i32)
    requires
        l.first is Some || !l.piped,
        s.launch_fits(l, child),
    ensures
        ({
            let (t, a, step) = s.forked(l, line, Ok(child));
            let leader = match l.first {
                Some(first) => first,
                None => child,
            };
            &&& step is Started
            &&& a == seq![Act::Foreground(leader)]
            &&& t.fg == Some(leader)
            &&& t.exit_val == s.exit_val && t.shell_pgid == s.shell_pgid
            &&& t.jobs.contains_key(l.job_id)
            &&& t.jobs[l.job_id].pgid == leader
            &&& t.jobs[l.job_id].line == line
            &&& t.jobs.remove(l.job_id) == s.jobs
            &&& t.groups.contains_key(leader)
            &&& t.groups[leader].job == l.job_id
            &&& forall|p: i32| #[trigger]
                t.groups[leader].pids.contains(p) <==> p == leader || p == child
            &&& t.groups.remove(leader) == s.groups
            &&& forall|p: i32| #[trigger]
                t.procs.contains_key(p) <==> s.procs.contains_key(p) || p == leader || p == child
            &&& forall|p: i32|
                p == leader || p == child ==> (#[trigger] t.procs[p]).state == ProcState::Run
                    && t.procs[p].pgid == leader
            &&& forall|p: i32| s.procs.contains_key(p) ==> #[trigger] t.procs[p] == s.procs[p]
        }),
{
    let t = s.forked(l, line, Ok(child)).0;
    let leader = match l.first {
        Some(first) => first,
        None => child,
    };
    let second = match l.first {
        Some(_) => Some(child),
        None => None,
    };
    let procs = State::running(leader, members(leader, second));
    assert(procs.dom() =~= set![leader, child]);
    assert(procs.contains_key(leader) && procs.contains_key(child));
    assert(t.jobs.remove(l.job_id) =~= s.jobs);
    assert(t.groups.remove(leader) =~= s.groups);
}

/// A job is put into the tables in the same way whoever says which its processes are.
pub proof fn law_started_processes(
    s: State,
    id: usize,
    pgid: i32,
    second: Option<i32>,
    line: Seq<char>,
)
    requires
        s.fresh_job(id, pgid, State::running(pgid, members(pgid, second))),
    ensures
        ({
            let (t, a) = s.started(id, pgid, members(pgid, second), line);
            &&& a == seq![Act::Foreground(pgid)]
            &&& t.fg == Some(pgid)
            &&& t.exit_val == s.exit_val && t.shell_pgid == s.shell_pgid
            &&& t.jobs.contains_key(id) && t.jobs[id].pgid == pgid && t.jobs[id].line == line
            &&& t.jobs.remove(id) == s.jobs
            &&& t.groups.contains_key(pgid) && t.groups[pgid].job == id
            &&& t.groups.remove(pgid) == s.groups
            &&& forall|p: i32| #[trigger]
                t.groups[pgid].pids.contains(p) <==> p == pgid || Some(p) == second
            &&& forall|p: i32| #[trigger]
                t.procs.contains_key(p) <==> s.procs.contains_key(p) || p == pgid || Some(p)
                    == second
            &&& forall|p: i32|
                p == pgid || Some(p) == second ==> (#[trigger] t.procs[p]).state == ProcState::Run
                    && t.procs[p].pgid == pgid
            &&& forall|p: i32| s.procs.contains_key(p) ==> #[trigger] t.procs[p] == s.procs[p]
        }),
{
    let t = s.started(id, pgid, members(pgid, second), line).0;
    let procs = State::running(pgid, members(pgid, second));
    assert(procs.dom() =~= members(pgid, second));
    assert(t.jobs.remove(id) =~= s.jobs);
    assert(t.groups.remove(pgid) =~= s.groups);
    assert forall|p: i32| p == pgid || Some(p) == second implies (#[trigger] t.procs[p]).state
        == ProcState::Run && t.procs[p].pgid == pgid by {
        assert(procs.contains_key(p));
    }
    assert forall|p: i32| s.procs.contains_key(p) implies #[trigger] t.procs[p] == s.procs[p] by {
        assert(!procs.contains_key(p));
    }
}

/// A process completes a job where it is the second, or the first of a command without a pipe, and
/// where the tables hold neither the number, nor the group, nor one of the two processes. Any
/// process can be the first before a pipe.
pub proof fn law_what_fits(s: State, l: Launch, child: i32)
    ensures
        l.first is None && l.piped ==> s.launch_fits(l, child),
        l.first is None && !l.piped ==> (s.launch_fits(l, child) <==> !s.jobs.contains_key(
            l.job_id,
        ) && !s.groups.contains_key(child) && !s.procs.contains_key(child)),
        l.first matches Some(first) ==> (s.launch_fits(l, child) <==> !s.jobs.contains_key(l.job_id)
            && !s.groups.contains_key(first) && !s.procs.contains_key(first)
            && !s.procs.contains_key(child)),
{
    let leader = match l.first {
        Some(first) => first,
        None => child,
    };
    let second = match l.first {
        Some(_) => Some(child),
        None => None,
    };
    let procs = State::running(leader, members(leader, second));
    assert(procs.contains_key(leader) && procs.contains_key(child));
}

/// A process that could not be started, the first or the second, under whatever number: why is
/// shown, the shell is answered with the code that is kept, and the tables stay.
pub proof fn law_start_failed(s: State, l: Launch, line: Seq<char>, why: Seq<char>)
    ensures
        s.forked(l, line, Err(why)).0 == s,
        s.forked(l, line, Err(why)).1 == seq![
            Act::Warn("Zerosh: プロセスの生成に失敗しました: "@ + why),
        ],
        s.forked(l, line, Err(why)).2 is Failed,
        s.fork_answered(l, line, Err(why)) == seq![
            Act::Warn("Zerosh: プロセスの生成に失敗しました: "@ + why),
            Act::Reply(ShellMsg::Continue(s.exit_val)),
        ],
{
    assert(s.fork_answered(l, line, Err(why)) =~= seq![
        Act::Warn("Zerosh: プロセスの生成に失敗しました: "@ + why),
        Act::Reply(ShellMsg::Continue(s.exit_val)),
    ]);
}

/// A process that was started is not answered for.
pub proof fn law_start_not_answered(s: State, l: Launch, line: Seq<char>, child: i32)
    ensures
        s.fork_answered(l, line, Ok(child)) == s.forked(l, line, Ok(child)).1,
        forall|i: int|
            0 <= i < s.fork_answered(l, line, Ok(child)).len()
                ==> #[trigger] s.fork_answered(l, line, Ok(child))[i] is Foreground,
{
}

/// Why a command cannot be started: where jobs have all the numbers, whatever it is; else where it
/// has more than two programs. Anything else can.
pub proof fn law_when_start_is_refused(s: State, n: nat)
    ensures
        ({
            let all_taken = forall|j: usize| #[trigger] s.jobs.contains_key(j);
            &&& all_taken ==> s.launch_refusal(n) == Some(
                "ZeroSh: ジョブ数が上限に達しました"@,
            )
            &&& !all_taken && n > 2 ==> s.launch_refusal(n) == Some(
                "ZeroSh: 3つ以上のコマンドパイプはサポートしていません"@,
            )
            &&& !all_taken && n <= 2 ==> s.launch_refusal(n) is None
        }),
{
}

/// A new process takes its input from the pipe just where it is given one, and its output too, and
/// closes just the descriptors from 3 to 6; what it takes it takes before it closes anything, and
/// nothing is done twice.
pub proof fn law_descriptors_of_new_process(input: Option<i32>, output: Option<i32>)
    ensures
        ({
            let steps = child_setup(input, output);
            &&& forall|fd: i32| #[trigger]
                steps.contains(ChildStep::Close(fd)) <==> 3 <= fd <= 6
            &&& forall|from: i32, to: i32| #[trigger]
                steps.contains(ChildStep::Duplicate { from, to }) <==> (to == 0 && input == Some(
                    from,
                )) || (to == 1 && output == Some(from))
            &&& forall|i: int, j: int|
                0 <= i < steps.len() && 0 <= j < steps.len() && #[trigger] steps[i] is Close
                    && #[trigger] steps[j] is Duplicate ==> j < i
            &&& steps.no_duplicates()
            &&& steps.len() == 4 + (if input is Some {
                1int
            } else {
                0int
            }) + (if output is Some {
                1int
            } else {
                0int
            })
        }),
{
    let steps = child_setup(input, output);
    let n = steps.len() - 4;
    assert(steps[n] == ChildStep::Close(3));
    assert(steps[n + 1] == ChildStep::Close(4));
    assert(steps[n + 2] == ChildStep::Close(5));
    assert(steps[n + 3] == ChildStep::Close(6));
    assert forall|i: int| 0 <= i < n implies #[trigger] steps[i] is Duplicate by {}
    assert forall|i: int| n <= i < steps.len() implies #[trigger] steps[i] == ChildStep::Close(
        (3 + i - n) as i32,
    ) by {}
    assert forall|fd: i32| #[trigger] steps.contains(ChildStep::Close(fd)) <==> 3 <= fd <= 6 by {
        if 3 <= fd <= 6 {
            assert(steps[n + fd - 3] == ChildStep::Close(fd));
        }
    }
    if let Some(fd) = input {
        assert(steps[0] == ChildStep::Duplicate { from: fd, to: 0 });
    }
    if let Some(fd) = output {
        assert(steps[n - 1] == ChildStep::Duplicate { from: fd, to: 1 });
    }
}

/// What became of an attempt is told in full: the process, or why there is none; nothing where the
/// directory was changed, or why it was not.
pub proof fn law_outcomes_told(child: i32, why: String)
    ensures
        outcome(Ok(child)) == Ok::<i32, Seq<char>>(child),
        outcome(Err(why)) == Err::<i32, Seq<char>>(why@),
        failure(Ok(())) is None,
        failure(Err(why)) == Some(why@),
{
}

} // verus!
