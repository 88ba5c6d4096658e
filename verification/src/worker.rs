//! The job keeper: it holds the tables, runs the built-in commands and follows the processes.
use crate::effect::{acts, adds, ask, job_text, join, Effect, ShellMsg};
use crate::model::{
    failure, lemma_ids, lemma_managed, lemma_with_job, lemma_with_state, lemma_without_job,
    lemma_without_pid, members, Group, Job, ProcInfo, ProcState, State,
};
use crate::number::{parse_i32, parse_usize};
use crate::text::texts;
use std::collections::{BTreeMap, HashMap, HashSet};
use vstd::prelude::*;
use vstd::std_specs::cmp::OrdSpec;
use vstd::std_specs::iter::IteratorSpec;

verus! {

/// The job keeper.
#[derive(Debug)]
pub struct Worker {
    exit_val: i32,
    fg: Option<i32>,
    jobs: BTreeMap<usize, (i32, String)>,
    pgid_to_pids: HashMap<i32, (usize, HashSet<i32>)>,
    pid_to_info: HashMap<i32, ProcInfo>,
    shell_pgid: i32,
}

impl View for Worker {
    type V = State;

    closed spec fn view(&self) -> State {
        State {
            exit_val: self.exit_val,
            fg: self.fg,
            jobs: job_table(self.jobs@),
            groups: group_table(self.pgid_to_pids@),
            procs: self.pid_to_info@,
            shell_pgid: self.shell_pgid,
        }
    }
}

spec fn job_table(m: Map<usize, (i32, String)>) -> Map<usize, Job> {
    m.map_values(|v: (i32, String)| Job { pgid: v.0, line: v.1@ })
}

spec fn group_table(m: Map<i32, (usize, HashSet<i32>)>) -> Map<i32, Group> {
    m.map_values(|v: (usize, HashSet<i32>)| Group { job: v.0, pids: v.1@ })
}

/// Both tables change as the maps behind them do.
proof fn lemma_tables()
    ensures
        job_table(Map::empty()) == Map::<usize, Job>::empty(),
        group_table(Map::empty()) == Map::<i32, Group>::empty(),
        forall|m: Map<usize, (i32, String)>, j: usize, v: (i32, String)| #[trigger]
            job_table(m.insert(j, v)) == job_table(m).insert(j, Job { pgid: v.0, line: v.1@ }),
        forall|m: Map<usize, (i32, String)>, j: usize| #[trigger]
            job_table(m.remove(j)) == job_table(m).remove(j),
        forall|m: Map<i32, (usize, HashSet<i32>)>, g: i32, v: (usize, HashSet<i32>)| #[trigger]
            group_table(m.insert(g, v)) == group_table(m).insert(g, Group { job: v.0, pids: v.1@ }),
        forall|m: Map<i32, (usize, HashSet<i32>)>, g: i32| #[trigger]
            group_table(m.remove(g)) == group_table(m).remove(g),
{
    assert(job_table(Map::empty()) =~= Map::<usize, Job>::empty());
    assert(group_table(Map::empty()) =~= Map::<i32, Group>::empty());
    assert forall|m: Map<usize, (i32, String)>, j: usize, v: (i32, String)| #[trigger]
        job_table(m.insert(j, v)) == job_table(m).insert(j, Job { pgid: v.0, line: v.1@ }) by {
        assert(job_table(m.insert(j, v)) =~= job_table(m).insert(
            j,
            Job { pgid: v.0, line: v.1@ },
        ));
    }
    assert forall|m: Map<usize, (i32, String)>, j: usize| #[trigger]
        job_table(m.remove(j)) == job_table(m).remove(j) by {
        assert(job_table(m.remove(j)) =~= job_table(m).remove(j));
    }
    assert forall|m: Map<i32, (usize, HashSet<i32>)>, g: i32, v: (usize, HashSet<i32>)| #[trigger]
        group_table(m.insert(g, v)) == group_table(m).insert(
            g,
            Group { job: v.0, pids: v.1@ },
        ) by {
        assert(group_table(m.insert(g, v)) =~= group_table(m).insert(
            g,
            Group { job: v.0, pids: v.1@ },
        ));
    }
    assert forall|m: Map<i32, (usize, HashSet<i32>)>, g: i32| #[trigger]
        group_table(m.remove(g)) == group_table(m).remove(g) by {
        assert(group_table(m.remove(g)) =~= group_table(m).remove(g));
    }
}

/// The order of the keys of a table of jobs is that of the numbers.
proof fn lemma_increasing(keys: Seq<usize>)
    requires
        vstd::std_specs::btree::increasing_seq(keys),
    ensures
        forall|i: int, j: int| 0 <= i < j < keys.len() ==> keys[i] < keys[j],
{
    assert forall|i: int, j: int| 0 <= i < j < keys.len() implies keys[i] < keys[j] by {
        assert(keys[i].cmp_spec(&keys[j]) is Less);
    }
}

impl Worker {
    /// A keeper without jobs, for a shell in the process group `shell_pgid`.
    pub fn new(shell_pgid: i32) -> (r: Self)
        ensures
            r@ == State::initial(shell_pgid),
            r@.wf(),
            r@.settled(),
    {
        let r = Worker {
            exit_val: 0,
            fg: None,
            jobs: BTreeMap::new(),
            pgid_to_pids: HashMap::new(),
            pid_to_info: HashMap::new(),
            shell_pgid,
        };
        proof {
            lemma_tables();
        }
        r
    }

    /// Puts a new job and its processes into the tables.
    pub fn insert_job(
        &mut self,
        job_id: usize,
        pgid: i32,
        pids: HashMap<i32, ProcInfo>,
        line: &str,
    )
        requires
            old(self)@.fresh_job(job_id, pgid, pids@),
        ensures
            final(self)@ == old(self)@.with_job(job_id, pgid, pids@, line@),
            old(self)@.wf() && (forall|p: i32| #[trigger]
                pids@.contains_key(p) ==> pids@[p].pgid == pgid) ==> final(self)@.wf(),
    {
        let ghost s = self@;
        proof {
            lemma_tables();
            if s.wf() && (forall|p: i32| #[trigger]
                pids@.contains_key(p) ==> pids@[p].pgid == pgid) {
                lemma_with_job(s, job_id, pgid, pids@, line@);
            }
        }
        self.jobs.insert(job_id, (pgid, line.to_owned()));
        let mut procs: HashSet<i32> = HashSet::new();
        let ghost before = self.pid_to_info@;
        let ghost rest = *self;
        for entry in it: pids.iter()
            invariant
                self.exit_val == rest.exit_val,
                self.fg == rest.fg,
                self.jobs == rest.jobs,
                self.pgid_to_pids == rest.pgid_to_pids,
                self.shell_pgid == rest.shell_pgid,
                forall|k: int|
                    0 <= k < it.index() ==> procs@.contains(*(#[trigger] it.seq()[k]).0),
                forall|p: i32| #[trigger]
                    procs@.contains(p) ==> pids@.contains_key(p),
                forall|p: i32| #[trigger]
                    self.pid_to_info@.contains_key(p) <==> before.contains_key(p)
                        || procs@.contains(p),
                forall|p: i32|
                    procs@.contains(p) ==> #[trigger] self.pid_to_info@[p] == pids@[p],
                forall|p: i32|
                    before.contains_key(p) && !procs@.contains(p)
                        ==> #[trigger] self.pid_to_info@[p] == before[p],
        {
            let pid: i32 = *entry.0;
            let info: ProcInfo = *entry.1;
            procs.insert(pid);
            self.pid_to_info.insert(pid, info);
        }
        proof {
            assert(procs@ =~= pids@.dom());
            assert(self.pid_to_info@ =~= before.union_prefer_right(pids@));
        }
        self.pgid_to_pids.insert(pgid, (job_id, procs));
    }

    /// Puts a process into a state and returns the one that it was in; `None` where the process
    /// is not known.
    pub fn set_pid_state(&mut self, pid: i32, state: ProcState) -> (r: Option<ProcState>)
        ensures
            final(self)@ == old(self)@.with_state(pid, state),
            r == old(self)@.state_of(pid),
            old(self)@.wf() ==> final(self)@.wf(),
            old(self)@.settled() ==> final(self)@.settled(),
    {
        proof {
            if self@.wf() {
                lemma_with_state(self@, pid, state);
            }
        }
        match self.pid_to_info.get(&pid) {
            Some(found) => {
                let info: ProcInfo = *found;
                self.pid_to_info.insert(pid, ProcInfo { state, pgid: info.pgid });
                Some(info.state)
            },
            None => None,
        }
    }

    /// Takes a process out of the tables and returns the job and the process group that it
    /// belonged to; `None` where it is not known.
    pub fn remove_pid(&mut self, pid: i32) -> (r: Option<(usize, i32)>)
        ensures
            final(self)@ == old(self)@.without_pid(pid),
            r == old(self)@.place_of(pid),
            old(self)@.wf() ==> final(self)@.wf(),
    {
        proof {
            lemma_tables();
            if self@.wf() {
                lemma_without_pid(self@, pid);
            }
        }
        let pgid: i32 = match self.pid_to_info.get(&pid) {
            Some(info) => info.pgid,
            None => {
                return None;
            },
        };
        match self.pgid_to_pids.remove(&pgid) {
            Some(group) => {
                let job_id: usize = group.0;
                let mut pids: HashSet<i32> = group.1;
                pids.remove(&pid);
                self.pgid_to_pids.insert(pgid, (job_id, pids));
                self.pid_to_info.remove(&pid);
                proof {
                    assert(self@.groups =~= old(self)@.without_pid(pid).groups);
                }
                Some((job_id, pgid))
            },
            None => {
                proof {
                    assert(self.pgid_to_pids@ =~= old(self).pgid_to_pids@);
                }
                None
            },
        }
    }

    /// Takes a job whose processes are gone out of the tables.
    pub fn remove_job(&mut self, job_id: usize)
        requires
            old(self)@.jobs.contains_key(job_id) && old(self)@.groups.contains_key(
                old(self)@.jobs[job_id].pgid,
            ) ==> old(self)@.group_empty(old(self)@.jobs[job_id].pgid),
        ensures
            final(self)@ == old(self)@.without_job(job_id),
            old(self)@.wf() && !(old(self)@.jobs.contains_key(job_id) && old(self)@.fg == Some(
                old(self)@.jobs[job_id].pgid,
            )) ==> final(self)@.wf(),
            old(self)@.settled() ==> final(self)@.settled(),
    {
        proof {
            lemma_tables();
            if self@.wf() && self@.jobs.contains_key(job_id) {
                lemma_without_job(self@, job_id);
            }
        }
        match self.jobs.remove(&job_id) {
            Some(job) => {
                let pgid: i32 = job.0;
                self.pgid_to_pids.remove(&pgid);
            },
            None => {
                proof {
                    assert(self.jobs@ =~= old(self).jobs@);
                }
            },
        }
    }

    /// Whether no process of a group is left.
    pub fn is_group_empty(&self, pgid: i32) -> (r: bool)
        requires
            self@.groups.contains_key(pgid),
        ensures
            r == self@.group_empty(pgid),
    {
        self.pgid_to_pids.get(&pgid).unwrap().1.is_empty()
    }

    /// Whether every process of a group is stopped; `None` where the group is not known.
    pub fn is_group_stop(&self, pgid: i32) -> (r: Option<bool>)
        requires
            self@.groups.contains_key(pgid) ==> self@.groups[pgid].pids.subset_of(
                self@.procs.dom(),
            ),
        ensures
            r == (if self@.groups.contains_key(pgid) {
                Some(self@.group_stopped(pgid))
            } else {
                None
            }),
    {
        match self.pgid_to_pids.get(&pgid) {
            Some(group) => {
                let ghost pids = group.1@;
                for pid in it: group.1.iter()
                    invariant
                        self@.groups.contains_key(pgid),
                        pids == self@.groups[pgid].pids,
                        pids == group.1@,
                        pids.subset_of(self.pid_to_info@.dom()),
                        it.seq().unref().to_set() == pids,
                        forall|k: int|
                            0 <= k < it.index()
                                ==> self.pid_to_info@[*(#[trigger] it.seq()[k])].state
                                == ProcState::Stop,
                {
                    proof {
                        assert(it.seq().unref()[it.index() as int] == *pid);
                        assert(it.seq().unref().to_set().contains(*pid));
                    }
                    if self.pid_to_info.get(pid).unwrap().state == ProcState::Run {
                        proof {
                            assert(self@.groups[pgid].pids.contains(*pid));
                            assert(!self@.group_stopped(pgid));
                        }
                        return Some(false);
                    }
                }
                Some(true)
            },
            None => None,
        }
    }

    /// The smallest number that no job has.
    pub fn get_new_job_id(&self) -> (r: Option<usize>)
        ensures
            match r {
                Some(id) => self@.least_free(id),
                None => self@.full(),
            },
    {
        let mut i: usize = 0;
        loop
            invariant
                forall|j: usize| j < i ==> #[trigger] self@.jobs.contains_key(j),
            decreases usize::MAX - i,
        {
            if !self.jobs.contains_key(&i) {
                return Some(i);
            }
            if i == usize::MAX {
                return None;
            }
            i = i + 1;
        }
    }

    /// Gives the terminal back to the shell, which reads on.
    pub fn set_shell_fg(&mut self, out: &mut Vec<Effect>)
        ensures
            final(self)@ == old(self)@.with_shell_fg(),
            adds(old(out)@, final(out)@, old(self)@.shell_fg_acts()),
            old(self)@.wf() ==> final(self)@.wf(),
            old(self)@.settled() ==> final(self)@.settled(),
    {
        self.fg = None;
        ask(out, Effect::Foreground(self.shell_pgid));
        ask(out, Effect::Reply(ShellMsg::Continue(self.exit_val)));
        proof {
            assert(acts(out@) =~= acts(old(out)@) + old(self)@.shell_fg_acts());
        }
    }

    /// Acts on a change among the processes of a job: a job without processes is taken out of the
    /// tables, and one that had the terminal and no longer runs hands it back to the shell.
    pub fn manage_job(&mut self, job_id: usize, pgid: i32, out: &mut Vec<Effect>)
        requires
            old(self)@.jobs.contains_key(job_id),
            old(self)@.groups.contains_key(pgid),
            old(self)@.fg == Some(pgid) ==> old(self)@.groups[pgid].pids.subset_of(
                old(self)@.procs.dom(),
            ),
            old(self)@.group_empty(pgid) && old(self)@.groups.contains_key(
                old(self)@.jobs[job_id].pgid,
            ) ==> old(self)@.group_empty(old(self)@.jobs[job_id].pgid),
        ensures
            final(self)@ == old(self)@.managed(job_id, pgid).0,
            adds(old(out)@, final(out)@, old(self)@.managed(job_id, pgid).1),
            old(self)@.wf() && old(self)@.groups[pgid].job == job_id ==> final(self)@.wf() && (
            old(self)@.settled_but(pgid) ==> final(self)@.settled()),
    {
        let ghost s = self@;
        proof {
            if s.wf() && s.groups[pgid].job == job_id {
                lemma_managed(s, job_id, pgid);
            }
        }
        let is_fg: bool = match self.fg {
            Some(fg) => fg == pgid,
            None => false,
        };
        let line: String = self.jobs.get(&job_id).unwrap().1.clone();
        proof {
            assert(s.jobs[job_id].line == line@);
        }
        if is_fg {
            if self.is_group_empty(pgid) {
                ask(out, Effect::Warn(job_text("[", job_id, "]終了\t", line.as_str())));
                self.remove_job(job_id);
                self.set_shell_fg(out);
            } else if self.is_group_stop(pgid).unwrap() {
                ask(out, Effect::Warn(job_text("[", job_id, "]停止\t", line.as_str())));
                self.set_shell_fg(out);
            }
        } else {
            if self.is_group_empty(pgid) {
                ask(out, Effect::Warn(job_text("\n[", job_id, "]終了\t", line.as_str())));
                self.remove_job(job_id);
            }
        }
        proof {
            assert(acts(out@) =~= acts(old(out)@) + s.managed(job_id, pgid).1);
        }
    }

    /// Whether a process is in the tables.
    pub fn knows(&self, pid: i32) -> (r: bool)
        ensures
            r == self@.procs.contains_key(pid),
    {
        self.pid_to_info.contains_key(&pid)
    }

    /// A process ended. One that is not known changes nothing.
    pub fn process_term(&mut self, pid: i32, out: &mut Vec<Effect>)
        requires
            old(self)@.wf(),
        ensures
            final(self)@ == old(self)@.ended(pid).0,
            adds(old(out)@, final(out)@, old(self)@.ended(pid).1),
            final(self)@.wf(),
            old(self)@.settled() ==> final(self)@.settled(),
    {
        proof {
            lemma_without_pid(self@, pid);
        }
        match self.remove_pid(pid) {
            Some((job_id, pgid)) => {
                self.manage_job(job_id, pgid, out);
            },
            None => {
                proof {
                    assert(acts(out@) =~= acts(old(out)@) + old(self)@.ended(pid).1);
                }
            },
        }
    }

    /// A process stopped.
    pub fn process_stop(&mut self, pid: i32, out: &mut Vec<Effect>)
        requires
            old(self)@.wf(),
            old(self)@.procs.contains_key(pid),
        ensures
            final(self)@ == old(self)@.stopped(pid).0,
            adds(old(out)@, final(out)@, old(self)@.stopped(pid).1),
            final(self)@.wf(),
            old(self)@.settled() ==> final(self)@.settled(),
    {
        self.set_pid_state(pid, ProcState::Stop);
        let pgid: i32 = self.pid_to_info.get(&pid).unwrap().pgid;
        let job_id: usize = self.pgid_to_pids.get(&pgid).unwrap().0;
        self.manage_job(job_id, pgid, out);
    }

    /// A process goes on. One that is not known changes nothing.
    pub fn process_continue(&mut self, pid: i32)
        ensures
            final(self)@ == old(self)@.with_state(pid, ProcState::Run),
            old(self)@.wf() ==> final(self)@.wf(),
            old(self)@.settled() ==> final(self)@.settled(),
    {
        self.set_pid_state(pid, ProcState::Run);
    }

    /// The command `exit`: refused while there are jobs. The code is the second of `args`; without
    /// a second it is that of the last command.
    pub fn run_exit(&mut self, args: &[&str], out: &mut Vec<Effect>) -> (r: bool)
        ensures
            r,
            final(self)@ == old(self)@.exit_command(texts(args@)).0,
            adds(old(out)@, final(out)@, old(self)@.exit_command(texts(args@)).1),
            old(self)@.wf() ==> final(self)@.wf(),
            old(self)@.settled() ==> final(self)@.settled(),
    {
        let ghost expected = self@.exit_command(texts(args@)).1;
        proof {
            assert(self@.jobs.dom() =~= self.jobs@.dom());
        }
        if !self.jobs.is_empty() {
            ask(out, Effect::Warn("ZeroSh: ジョブが実行中です".to_owned()));
            self.exit_val = 1;
            ask(out, Effect::Reply(ShellMsg::Continue(self.exit_val)));
        } else if args.len() < 2 {
            ask(out, Effect::Reply(ShellMsg::Quit(self.exit_val)));
        } else {
            match parse_i32(args[1]) {
                Some(n) => {
                    ask(out, Effect::Reply(ShellMsg::Quit(n)));
                },
                None => {
                    ask(out, Effect::Warn(join(args[1], " は不正な引数です")));
                    self.exit_val = 1;
                    ask(out, Effect::Reply(ShellMsg::Continue(self.exit_val)));
                },
            }
        }
        proof {
            assert(acts(out@) =~= acts(old(out)@) + expected);
        }
        true
    }

    /// The command `fg`: the job that the second of `args` names gets the terminal and goes on.
    pub fn run_fg(&mut self, args: &[&str], out: &mut Vec<Effect>) -> (r: bool)
        ensures
            r,
            final(self)@ == old(self)@.fg_command(texts(args@)).0,
            adds(old(out)@, final(out)@, old(self)@.fg_command(texts(args@)).1),
            old(self)@.wf() ==> final(self)@.wf(),
            old(self)@.settled() ==> final(self)@.settled(),
    {
        let ghost s = self@;
        let ghost expected = s.fg_command(texts(args@)).1;
        self.exit_val = 1;
        if args.len() < 2 {
            ask(
                out,
                Effect::Warn(
                    "ZeroSh: fg: ジョブIDまたはプロセスIDを指定してください".to_owned(),
                ),
            );
            ask(out, Effect::Reply(ShellMsg::Continue(self.exit_val)));
            proof {
                assert(acts(out@) =~= acts(old(out)@) + expected);
            }
            return true;
        }
        proof {
            assert(texts(args@)[1] == args@[1]@);
        }
        if let Some(n) = parse_usize(args[1]) {
            if let Some(job) = self.jobs.get(&n) {
                let pgid: i32 = job.0;
                let text: String = job_text("[", n, "] 再開\t", job.1.as_str());
                proof {
                    assert(s.jobs.contains_key(n));
                    assert(s.named_job(texts(args@)) == Some(n));
                }
                ask(out, Effect::Warn(text));
                self.fg = Some(pgid);
                ask(out, Effect::Foreground(pgid));
                ask(out, Effect::Resume(pgid));
                proof {
                    assert(acts(out@) =~= acts(old(out)@) + expected);
                }
                return true;
            }
        }
        ask(out, Effect::Warn(join(args[1], " というジョブは見つかりませんでした")));
        ask(out, Effect::Reply(ShellMsg::Continue(self.exit_val)));
        proof {
            assert(acts(out@) =~= acts(old(out)@) + expected);
        }
        true
    }

    /// The command `jobs`: shows each job, in the order of their numbers.
    pub fn run_jobs(&mut self, out: &mut Vec<Effect>) -> (r: bool)
        requires
            old(self)@.wf(),
        ensures
            r,
            final(self)@ == old(self)@.jobs_command().0,
            adds(old(out)@, final(out)@, old(self)@.jobs_command().1),
            final(self)@.wf(),
            old(self)@.settled() ==> final(self)@.settled(),
    {
        let ghost s = self@;
        let ghost show = |id: usize| s.listed(id);
        let ghost mut done = Seq::<usize>::empty();
        proof {
            assert(acts(out@) =~= acts(old(out)@) + done.map_values(show));
        }
        let entries = self.jobs.iter();
        let ghost order = entries.remaining();
        let ghost keys = order.map_values(|kv: (&usize, &(i32, String))| *kv.0);
        proof {
            assert(vstd::std_specs::btree::increasing_seq(keys));
            lemma_increasing(keys);
            assert forall|i: int| 0 <= i < order.len() implies self.jobs@.contains_key(
                *(#[trigger] order[i]).0,
            ) && self.jobs@[*order[i].0] == *order[i].1 by {
                assert(self.jobs@.contains_key(*order[i].0));
            }
            assert forall|k: usize| s.jobs.contains_key(k) implies keys.to_set().contains(k) by {
                assert(self.jobs@.contains_key(k));
                let i = choose|i: int| 0 <= i < order.len() && order[i] == (&k, &self.jobs@[k]);
                assert(keys[i] == k);
            }
            assert(keys.to_set() =~= s.jobs.dom());
        }
        for entry in it: entries
            invariant
                s == self@,
                s.wf(),
                show == (|id: usize| s.listed(id)),
                done == it.seq().take(it.index() as int).map_values(
                    |kv: (&usize, &(i32, String))| *kv.0,
                ),
                acts(out@) == acts(old(out)@) + done.map_values(show),
                it.seq() == order,
                forall|i: int|
                    0 <= i < order.len() ==> self.jobs@.contains_key(*(#[trigger] order[i]).0)
                        && self.jobs@[*order[i].0] == *order[i].1,
        {
            let id: usize = *entry.0;
            let pgid: i32 = entry.1.0;
            proof {
                assert(self.jobs@.contains_key(id) && self.jobs@[id] == *entry.1);
                assert(s.jobs.contains_key(id));
                assert(s.groups.contains_key(pgid));
                assert(s.groups[pgid].pids.subset_of(s.procs.dom()));
            }
            let mid: &str = if self.is_group_stop(pgid).unwrap() {
                "] 停止中\t"
            } else {
                "] 実行中\t"
            };
            ask(out, Effect::Print(job_text("[", id, mid, entry.1.1.as_str())));
            proof {
                let after = done.push(id);
                assert(after.map_values(show) =~= done.map_values(show).push(show(id)));
                assert(acts(out@) =~= acts(old(out)@) + after.map_values(show));
                assert(it.seq().take(it.index() + 1) =~= it.seq().take(it.index() as int).push(
                    entry,
                ));
                assert(after =~= it.seq().take(it.index() + 1).map_values(
                    |kv: (&usize, &(i32, String))| *kv.0,
                ));
                done = after;
            }
        }
        proof {
            assert(order.take(order.len() as int) =~= order);
            assert(done =~= keys);
            lemma_ids(s, keys);
        }
        self.exit_val = 0;
        ask(out, Effect::Reply(ShellMsg::Continue(self.exit_val)));
        proof {
            assert(acts(out@) =~= acts(old(out)@) + s.jobs_command().1);
        }
        true
    }

    /// The end of the command `cd`: whether the directory was changed, or why not.
    pub fn finish_cd(&mut self, result: Result<(), String>, out: &mut Vec<Effect>) -> (r: bool)
        ensures
            r,
            final(self)@ == old(self)@.moved(failure(result)).0,
            adds(old(out)@, final(out)@, old(self)@.moved(failure(result)).1),
            old(self)@.wf() ==> final(self)@.wf(),
            old(self)@.settled() ==> final(self)@.settled(),
    {
        match result {
            Err(e) => {
                self.exit_val = 1;
                ask(out, Effect::Warn(join("cdに失敗: ", e.as_str())));
            },
            Ok(_) => {
                self.exit_val = 0;
            },
        }
        ask(out, Effect::Reply(ShellMsg::Continue(self.exit_val)));
        proof {
            assert(acts(out@) =~= acts(old(out)@) + old(self)@.moved(failure(result)).1);
        }
        true
    }

    /// Puts a job whose processes were all started into the tables and gives it the terminal.
    pub fn start_job(
        &mut self,
        job_id: usize,
        pgid: i32,
        second: Option<i32>,
        line: &str,
        out: &mut Vec<Effect>,
    )
        requires
            old(self)@.fresh_job(job_id, pgid, State::running(pgid, members(pgid, second))),
        ensures
            final(self)@ == old(self)@.started(job_id, pgid, members(pgid, second), line@).0,
            adds(
                old(out)@,
                final(out)@,
                old(self)@.started(job_id, pgid, members(pgid, second), line@).1,
            ),
            old(self)@.wf() ==> final(self)@.wf(),
            old(self)@.settled() ==> final(self)@.settled(),
    {
        let ghost s = self@;
        let ghost procs = State::running(pgid, members(pgid, second));
        let info: ProcInfo = ProcInfo { state: ProcState::Run, pgid };
        let mut pids: HashMap<i32, ProcInfo> = HashMap::new();
        pids.insert(pgid, info);
        if let Some(child) = second {
            pids.insert(child, info);
        }
        proof {
            assert(pids@ =~= procs);
            assert(procs.contains_key(pgid));
            if s.wf() {
                lemma_with_job(s, job_id, pgid, procs, line@);
            }
            assert(procs.dom() =~= members(pgid, second));
            assert(members(pgid, second).contains(pgid));
        }
        self.fg = Some(pgid);
        self.insert_job(job_id, pgid, pids, line);
        ask(out, Effect::Foreground(pgid));
    }

    /// The code with which the last command ended.
    pub fn exit_val(&self) -> (r: i32)
        ensures
            r == self@.exit_val,
    {
        self.exit_val
    }

    /// Keeps the code with which a process ended.
    pub fn set_exit_val(&mut self, code: i32)
        ensures
            final(self)@ == old(self)@.with_exit(code),
            old(self)@.wf() ==> final(self)@.wf(),
            old(self)@.settled() ==> final(self)@.settled(),
    {
        self.exit_val = code;
    }

    /// Whether a number is a job's.
    pub fn has_job(&self, job_id: usize) -> (r: bool)
        ensures
            r == self@.jobs.contains_key(job_id),
    {
        self.jobs.contains_key(&job_id)
    }

    /// Whether a process group is in the tables.
    pub fn has_group(&self, pgid: i32) -> (r: bool)
        ensures
            r == self@.groups.contains_key(pgid),
    {
        self.pgid_to_pids.contains_key(&pgid)
    }
}

} // verus!
