//! The tables of the job keeper as mathematical maps, and what each event makes of them.
use crate::effect::{job_line, killed_line, Act, ShellMsg};
use crate::number::{signed, unsigned};
use vstd::prelude::*;

verus! {

/// Whether a process runs.
#[derive(Debug, Clone, Copy, PartialEq, Eq, Structural)]
pub enum ProcState {
    Run,
    Stop,
}

/// What is known of a process.
#[derive(Debug, Clone, Copy, PartialEq, Eq, Structural)]
pub struct ProcInfo {
    pub state: ProcState,
    /// The process group that the process belongs to.
    pub pgid: i32,
}

/// A job: its process group and the line that started it.
#[verifier::ext_equal]
pub struct Job {
    pub pgid: i32,
    pub line: Seq<char>,
}

/// A process group: the job that it belongs to and the processes that are left of it.
#[verifier::ext_equal]
pub struct Group {
    pub job: usize,
    pub pids: Set<i32>,
}

/// The tables.
#[verifier::ext_equal]
pub struct State {
    /// The code with which the last command ended.
    pub exit_val: i32,
    /// The process group that has the terminal; `None` where the shell has it.
    pub fg: Option<i32>,
    pub jobs: Map<usize, Job>,
    pub groups: Map<i32, Group>,
    pub procs: Map<i32, ProcInfo>,
    /// The shell's own process group.
    pub shell_pgid: i32,
}

/// Why something failed, where it did.
pub open spec fn failure(result: Result<(), String>) -> Option<Seq<char>> {
    match result {
        Ok(_) => None,
        Err(e) => Some(e@),
    }
}

/// The processes of a job: the leader of its group and, after a pipe, a second one.
pub open spec fn members(pgid: i32, second: Option<i32>) -> Set<i32> {
    match second {
        None => set![pgid],
        Some(child) => set![pgid, child],
    }
}

impl State {
    /// No job and no process, the shell in the foreground.
    pub open spec fn initial(shell_pgid: i32) -> State {
        State {
            exit_val: 0,
            fg: None,
            jobs: Map::empty(),
            groups: Map::empty(),
            procs: Map::empty(),
            shell_pgid,
        }
    }

    /// The three tables agree with each other: jobs and groups belong to each other one to one,
    /// a process is in exactly the group that it names, and the group in the foreground is a
    /// job's.
    pub open spec fn wf(self) -> bool {
        &&& forall|j: usize| #[trigger]
            self.jobs.contains_key(j) ==> self.groups.contains_key(self.jobs[j].pgid)
                && self.groups[self.jobs[j].pgid].job == j
        &&& forall|g: i32| #[trigger]
            self.groups.contains_key(g) ==> self.jobs.contains_key(self.groups[g].job)
                && self.jobs[self.groups[g].job].pgid == g
        &&& forall|g: i32, p: i32|
            self.groups.contains_key(g) && #[trigger] self.groups[g].pids.contains(p)
                ==> self.procs.contains_key(p) && self.procs[p].pgid == g
        &&& forall|p: i32| #[trigger]
            self.procs.contains_key(p) ==> self.groups.contains_key(self.procs[p].pgid)
                && self.groups[self.procs[p].pgid].pids.contains(p)
        &&& self.fg matches Some(g) ==> self.groups.contains_key(g)
    }

    /// No job is left without a process.
    pub open spec fn settled(self) -> bool {
        forall|g: i32| #[trigger]
            self.groups.contains_key(g) ==> !self.groups[g].pids.is_empty()
    }

    pub open spec fn with_exit(self, n: i32) -> State {
        State { exit_val: n, ..self }
    }

    /// Whether no process of a group is left.
    pub open spec fn group_empty(self, pgid: i32) -> bool {
        self.groups[pgid].pids.is_empty()
    }

    /// Whether every process of a group is stopped.
    pub open spec fn group_stopped(self, pgid: i32) -> bool {
        forall|p: i32| #[trigger]
            self.groups[pgid].pids.contains(p) ==> self.procs[p].state == ProcState::Stop
    }

    /// Whether `id` is the smallest number that no job has.
    pub open spec fn least_free(self, id: usize) -> bool {
        &&& !self.jobs.contains_key(id)
        &&& forall|j: usize| j < id ==> #[trigger] self.jobs.contains_key(j)
    }

    /// Whether every number is a job's.
    pub open spec fn full(self) -> bool {
        forall|j: usize| #[trigger] self.jobs.contains_key(j)
    }

    /// A new job with its processes.
    pub open spec fn with_job(
        self,
        id: usize,
        pgid: i32,
        pids: Map<i32, ProcInfo>,
        line: Seq<char>,
    ) -> State {
        State {
            jobs: self.jobs.insert(id, Job { pgid, line }),
            groups: self.groups.insert(pgid, Group { job: id, pids: pids.dom() }),
            procs: self.procs.union_prefer_right(pids),
            ..self
        }
    }

    /// Whether nothing of a new job is in the tables already.
    pub open spec fn fresh_job(self, id: usize, pgid: i32, pids: Map<i32, ProcInfo>) -> bool {
        &&& !self.jobs.contains_key(id)
        &&& !self.groups.contains_key(pgid)
        &&& forall|p: i32| #[trigger] pids.contains_key(p) ==> !self.procs.contains_key(p)
    }

    /// Without a job and its group.
    pub open spec fn without_job(self, id: usize) -> State {
        if self.jobs.contains_key(id) {
            State {
                jobs: self.jobs.remove(id),
                groups: self.groups.remove(self.jobs[id].pgid),
                ..self
            }
        } else {
            self
        }
    }

    /// Whether a process and its group are in the tables.
    pub open spec fn knows(self, pid: i32) -> bool {
        self.procs.contains_key(pid) && self.groups.contains_key(self.procs[pid].pgid)
    }

    /// The state that a process is in.
    pub open spec fn state_of(self, pid: i32) -> Option<ProcState> {
        if self.procs.contains_key(pid) {
            Some(self.procs[pid].state)
        } else {
            None
        }
    }

    /// The job and the group that a process belongs to.
    pub open spec fn place_of(self, pid: i32) -> Option<(usize, i32)> {
        if self.knows(pid) {
            let pgid = self.procs[pid].pgid;
            Some((self.groups[pgid].job, pgid))
        } else {
            None
        }
    }

    /// Without a process.
    pub open spec fn without_pid(self, pid: i32) -> State {
        if self.knows(pid) {
            let pgid = self.procs[pid].pgid;
            let group = self.groups[pgid];
            State {
                groups: self.groups.insert(
                    pgid,
                    Group { job: group.job, pids: group.pids.remove(pid) },
                ),
                procs: self.procs.remove(pid),
                ..self
            }
        } else {
            self
        }
    }

    /// A process in another state.
    pub open spec fn with_state(self, pid: i32, state: ProcState) -> State {
        if self.procs.contains_key(pid) {
            State {
                procs: self.procs.insert(pid, ProcInfo { state, pgid: self.procs[pid].pgid }),
                ..self
            }
        } else {
            self
        }
    }

    /// The shell in the foreground.
    pub open spec fn with_shell_fg(self) -> State {
        State { fg: None, ..self }
    }

    /// Giving the terminal back to the shell, which reads on.
    pub open spec fn shell_fg_acts(self) -> Seq<Act> {
        seq![Act::Foreground(self.shell_pgid), Act::Reply(ShellMsg::Continue(self.exit_val))]
    }

    /// After a process of a job changed: a job without processes is taken out of the tables, and
    /// one that had the terminal and no longer runs hands it back to the shell.
    pub open spec fn managed(self, id: usize, pgid: i32) -> (State, Seq<Act>) {
        let line = self.jobs[id].line;
        if self.fg == Some(pgid) {
            if self.group_empty(pgid) {
                (
                    self.without_job(id).with_shell_fg(),
                    seq![Act::Warn(job_line("["@, id, "]終了\t"@, line))] + self.shell_fg_acts(),
                )
            } else if self.group_stopped(pgid) {
                (
                    self.with_shell_fg(),
                    seq![Act::Warn(job_line("["@, id, "]停止\t"@, line))] + self.shell_fg_acts(),
                )
            } else {
                (self, seq![])
            }
        } else if self.group_empty(pgid) {
            (self.without_job(id), seq![Act::Warn(job_line("\n["@, id, "]終了\t"@, line))])
        } else {
            (self, seq![])
        }
    }

    /// After a process ended.
    pub open spec fn ended(self, pid: i32) -> (State, Seq<Act>) {
        if self.knows(pid) {
            let pgid = self.procs[pid].pgid;
            self.without_pid(pid).managed(self.groups[pgid].job, pgid)
        } else {
            (self, seq![])
        }
    }

    /// After a process stopped.
    pub open spec fn stopped(self, pid: i32) -> (State, Seq<Act>) {
        let pgid = self.procs[pid].pgid;
        self.with_state(pid, ProcState::Stop).managed(self.groups[pgid].job, pgid)
    }

    /// The command `exit`: refused while there are jobs. The code is the second of `args`, and that
    /// of the last command where there is no second.
    pub open spec fn exit_command(self, args: Seq<Seq<char>>) -> (State, Seq<Act>) {
        if !self.jobs.dom().is_empty() {
            (
                self.with_exit(1),
                seq![
                    Act::Warn("ZeroSh: ジョブが実行中です"@),
                    Act::Reply(ShellMsg::Continue(1)),
                ],
            )
        } else if args.len() < 2 {
            (self, seq![Act::Reply(ShellMsg::Quit(self.exit_val))])
        } else {
            match signed(args[1]) {
                Some(n) if i32::MIN <= n <= i32::MAX => (
                    self,
                    seq![Act::Reply(ShellMsg::Quit(n as i32))],
                ),
                _ => (
                    self.with_exit(1),
                    seq![
                        Act::Warn(args[1] + " は不正な引数です"@),
                        Act::Reply(ShellMsg::Continue(1)),
                    ],
                ),
            }
        }
    }

    /// The job that the second of `args` names.
    pub open spec fn named_job(self, args: Seq<Seq<char>>) -> Option<usize> {
        match unsigned(args[1]) {
            Some(n) if n <= usize::MAX && self.jobs.contains_key(n as usize) => Some(n as usize),
            _ => None,
        }
    }

    /// The command `fg`: the job that the second of `args` names gets the terminal and goes on.
    pub open spec fn fg_command(self, args: Seq<Seq<char>>) -> (State, Seq<Act>) {
        if args.len() < 2 {
            (
                self.with_exit(1),
                seq![
                    Act::Warn("ZeroSh: fg: ジョブIDまたはプロセスIDを指定してください"@),
                    Act::Reply(ShellMsg::Continue(1)),
                ],
            )
        } else {
            match self.named_job(args) {
                Some(id) => {
                    let job = self.jobs[id];
                    (
                        State { fg: Some(job.pgid), ..self.with_exit(1) },
                        seq![
                            Act::Warn(job_line("["@, id, "] 再開\t"@, job.line)),
                            Act::Foreground(job.pgid),
                            Act::Resume(job.pgid),
                        ],
                    )
                },
                None => (
                    self.with_exit(1),
                    seq![
                        Act::Warn(args[1] + " というジョブは見つかりませんでした"@),
                        Act::Reply(ShellMsg::Continue(1)),
                    ],
                ),
            }
        }
    }

    /// The numbers below `n` that are jobs', in increasing order.
    pub open spec fn ids_below(self, n: nat) -> Seq<usize>
        decreases n,
    {
        if n == 0 {
            seq![]
        } else {
            let before = self.ids_below((n - 1) as nat);
            if self.jobs.contains_key((n - 1) as usize) {
                before.push((n - 1) as usize)
            } else {
                before
            }
        }
    }

    /// The numbers of the jobs, in increasing order.
    pub open spec fn ids(self) -> Seq<usize> {
        self.ids_below((usize::MAX + 1) as nat)
    }

    /// The line that `jobs` shows of a job.
    pub open spec fn listed(self, id: usize) -> Act {
        let job = self.jobs[id];
        let mid = if self.group_stopped(job.pgid) {
            "] 停止中\t"@
        } else {
            "] 実行中\t"@
        };
        Act::Print(job_line("["@, id, mid, job.line))
    }

    /// The command `jobs`: a line for each job, in the order of their numbers.
    pub open spec fn jobs_command(self) -> (State, Seq<Act>) {
        (
            self.with_exit(0),
            self.ids().map_values(|id: usize| self.listed(id)).push(
                Act::Reply(ShellMsg::Continue(0)),
            ),
        )
    }

    /// After the attempt to change the directory.
    pub open spec fn moved(self, failure: Option<Seq<char>>) -> (State, Seq<Act>) {
        match failure {
            None => (self.with_exit(0), seq![Act::Reply(ShellMsg::Continue(0))]),
            Some(e) => (
                self.with_exit(1),
                seq![Act::Warn("cdに失敗: "@ + e), Act::Reply(ShellMsg::Continue(1))],
            ),
        }
    }

    /// After a process ended by a signal.
    pub open spec fn killed(self, pid: i32, sig: i32, name: Seq<char>, core: bool) -> (
        State,
        Seq<Act>,
    ) {
        let (s, a) = self.with_exit((sig + 128) as i32).ended(pid);
        (s, seq![Act::Warn(killed_line(pid, name, core))] + a)
    }

    /// The processes of a new job, all of them running.
    pub open spec fn running(pgid: i32, pids: Set<i32>) -> Map<i32, ProcInfo> {
        Map::new(
            |p: i32| pids.contains(p),
            |p: i32| ProcInfo { state: ProcState::Run, pgid },
        )
    }

    /// After the processes of a job were all started: the job gets the terminal.
    pub open spec fn started(self, id: usize, pgid: i32, pids: Set<i32>, line: Seq<char>) -> (
        State,
        Seq<Act>,
    ) {
        (
            State {
                fg: Some(pgid),
                ..self.with_job(id, pgid, State::running(pgid, pids), line)
            },
            seq![Act::Foreground(pgid)],
        )
    }

    /// Every group but one has a process left.
    pub open spec fn settled_but(self, pgid: i32) -> bool {
        forall|g: i32| #[trigger]
            self.groups.contains_key(g) && g != pgid ==> !self.groups[g].pids.is_empty()
    }
}

/// The list of the numbers below `n`, as a part of any sequence that holds the numbers of the
/// jobs in increasing order.
proof fn lemma_ids_below(s: State, ks: Seq<usize>, n: nat)
    requires
        forall|i: int, j: int| 0 <= i < j < ks.len() ==> ks[i] < ks[j],
        ks.to_set() == s.jobs.dom(),
        n <= usize::MAX + 1,
    ensures
        s.ids_below(n).len() <= ks.len(),
        s.ids_below(n) == ks.take(s.ids_below(n).len() as int),
        forall|i: int| 0 <= i < s.ids_below(n).len() ==> #[trigger] ks[i] < n,
        forall|i: int| s.ids_below(n).len() <= i < ks.len() ==> #[trigger] ks[i] >= n,
    decreases n,
{
    if n == 0 {
        assert(s.ids_below(n) =~= ks.take(0));
    } else {
        let m = (n - 1) as nat;
        lemma_ids_below(s, ks, m);
        let k = s.ids_below(m).len() as int;
        if s.jobs.contains_key(m as usize) {
            assert(ks.to_set().contains(m as usize));
            let i = choose|i: int| 0 <= i < ks.len() && ks[i] == m as usize;
            assert(k <= i);
            assert(ks[k] == m as usize);
            assert(s.ids_below(n) =~= ks.take(k + 1));
        } else {
            assert forall|i: int| k <= i < ks.len() implies #[trigger] ks[i] >= n by {
                assert(ks.to_set().contains(ks[i]));
            }
        }
    }
}

/// A sequence that holds the numbers of the jobs in increasing order is the list of them.
pub proof fn lemma_ids(s: State, ks: Seq<usize>)
    requires
        forall|i: int, j: int| 0 <= i < j < ks.len() ==> ks[i] < ks[j],
        ks.to_set() == s.jobs.dom(),
    ensures
        s.ids() == ks,
{
    lemma_ids_below(s, ks, (usize::MAX + 1) as nat);
    let k = s.ids().len() as int;
    if k < ks.len() {
        assert(ks[k] >= usize::MAX + 1);
    }
    assert(ks.take(k) =~= ks);
}

/// Taking a process out keeps the tables in agreement and touches no other group.
pub proof fn lemma_without_pid(s: State, pid: i32)
    requires
        s.wf(),
    ensures
        s.without_pid(pid).wf(),
        s.knows(pid) <==> s.procs.contains_key(pid),
        s.settled() && s.knows(pid) ==> s.without_pid(pid).settled_but(s.procs[pid].pgid),
{
    if s.knows(pid) {
        let t = s.without_pid(pid);
        let pgid = s.procs[pid].pgid;
        assert forall|p: i32| #[trigger] t.procs.contains_key(p) implies t.groups.contains_key(
            t.procs[p].pgid,
        ) && t.groups[t.procs[p].pgid].pids.contains(p) by {
            assert(s.procs.contains_key(p));
        }
        assert forall|j: usize| #[trigger] t.jobs.contains_key(j) implies t.groups.contains_key(
            t.jobs[j].pgid,
        ) && t.groups[t.jobs[j].pgid].job == j by {
            assert(s.jobs.contains_key(j));
        }
        assert forall|g: i32| #[trigger] t.groups.contains_key(g) implies t.jobs.contains_key(
            t.groups[g].job,
        ) && t.jobs[t.groups[g].job].pgid == g by {
            assert(s.groups.contains_key(g));
        }
        assert forall|g: i32, p: i32|
            t.groups.contains_key(g) && #[trigger] t.groups[g].pids.contains(
                p,
            ) implies t.procs.contains_key(p) && t.procs[p].pgid == g by {
            assert(s.groups.contains_key(g));
            assert(s.groups[g].pids.contains(p));
        }
    }
}

/// Taking a job without processes out keeps the tables in agreement, where it does not have the
/// terminal.
pub proof fn lemma_without_job(s: State, id: usize)
    requires
        s.wf(),
        s.jobs.contains_key(id),
        s.group_empty(s.jobs[id].pgid),
    ensures
        s.without_job(id).with_shell_fg().wf(),
        s.fg != Some(s.jobs[id].pgid) ==> s.without_job(id).wf(),
{
    let t = s.without_job(id);
    let pgid = s.jobs[id].pgid;
    assert forall|p: i32| #[trigger] t.procs.contains_key(p) implies t.groups.contains_key(
        t.procs[p].pgid,
    ) && t.groups[t.procs[p].pgid].pids.contains(p) by {
        assert(s.procs.contains_key(p));
    }
    assert forall|j: usize| #[trigger] t.jobs.contains_key(j) implies t.groups.contains_key(
        t.jobs[j].pgid,
    ) && t.groups[t.jobs[j].pgid].job == j by {
        assert(s.jobs.contains_key(j));
    }
    assert forall|g: i32| #[trigger] t.groups.contains_key(g) implies t.jobs.contains_key(
        t.groups[g].job,
    ) && t.jobs[t.groups[g].job].pgid == g by {
        assert(s.groups.contains_key(g));
    }
    assert forall|g: i32, p: i32|
        t.groups.contains_key(g) && #[trigger] t.groups[g].pids.contains(
            p,
        ) implies t.procs.contains_key(p) && t.procs[p].pgid == g by {
        assert(s.groups.contains_key(g));
        assert(s.groups[g].pids.contains(p));
    }
}

/// What a change of a job's processes leads to keeps the tables in agreement, and leaves no job
/// without a process.
pub proof fn lemma_managed(s: State, id: usize, pgid: i32)
    requires
        s.wf(),
        s.groups.contains_key(pgid),
        s.groups[pgid].job == id,
    ensures
        s.managed(id, pgid).0.wf(),
        s.settled_but(pgid) ==> s.managed(id, pgid).0.settled(),
{
    assert(s.jobs.contains_key(id) && s.jobs[id].pgid == pgid);
    if s.group_empty(pgid) {
        lemma_without_job(s, id);
    }
}

/// Another state of a process keeps the tables in agreement.
pub proof fn lemma_with_state(s: State, pid: i32, state: ProcState)
    requires
        s.wf(),
    ensures
        s.with_state(pid, state).wf(),
        s.settled() ==> s.with_state(pid, state).settled(),
{
    let t = s.with_state(pid, state);
    assert forall|p: i32| #[trigger] t.procs.contains_key(p) implies t.groups.contains_key(
        t.procs[p].pgid,
    ) && t.groups[t.procs[p].pgid].pids.contains(p) by {
        assert(s.procs.contains_key(p));
    }
}

/// A new job keeps the tables in agreement.
pub proof fn lemma_with_job(
    s: State,
    id: usize,
    pgid: i32,
    pids: Map<i32, ProcInfo>,
    line: Seq<char>,
)
    requires
        s.wf(),
        s.fresh_job(id, pgid, pids),
        forall|p: i32| #[trigger] pids.contains_key(p) ==> pids[p].pgid == pgid,
    ensures
        s.with_job(id, pgid, pids, line).wf(),
        s.settled() && !pids.dom().is_empty() ==> s.with_job(id, pgid, pids, line).settled(),
{
    let t = s.with_job(id, pgid, pids, line);
    assert forall|p: i32| #[trigger] t.procs.contains_key(p) implies t.groups.contains_key(
        t.procs[p].pgid,
    ) && t.groups[t.procs[p].pgid].pids.contains(p) by {
        if pids.contains_key(p) {
        } else {
            assert(s.procs.contains_key(p));
        }
    }
    assert forall|j: usize| #[trigger] t.jobs.contains_key(j) implies t.groups.contains_key(
        t.jobs[j].pgid,
    ) && t.groups[t.jobs[j].pgid].job == j by {
        if j != id {
            assert(s.jobs.contains_key(j));
        }
    }
    assert forall|g: i32| #[trigger] t.groups.contains_key(g) implies t.jobs.contains_key(
        t.groups[g].job,
    ) && t.jobs[t.groups[g].job].pgid == g by {
        if g != pgid {
            assert(s.groups.contains_key(g));
        }
    }
    assert forall|g: i32, p: i32|
        t.groups.contains_key(g) && #[trigger] t.groups[g].pids.contains(
            p,
        ) implies t.procs.contains_key(p) && t.procs[p].pgid == g by {
        if g != pgid {
            assert(s.groups.contains_key(g));
            assert(s.groups[g].pids.contains(p));
        }
    }
}

} // verus!
