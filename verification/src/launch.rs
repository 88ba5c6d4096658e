//! Starting the processes of a job, one after the other.
use crate::effect::{acts, adds, ask, join, Act, Effect};
use crate::model::{members, State};
use vstd::prelude::*;

verus! {

/// A job whose processes are being started.
#[derive(Debug, Clone, Copy, PartialEq, Eq)]
pub struct Launch {
    /// The number that the job will have.
    pub job_id: usize,
    /// Whether a pipe leads from a first process to a second.
    pub piped: bool,
    /// The first process, once it was started.
    pub first: Option<i32>,
}

/// The process to start next.
#[derive(Debug, Clone, Copy, PartialEq, Eq)]
pub struct ForkRequest {
    /// Which of the programs of the command it runs.
    pub program: usize,
    /// The process group that it joins; 0 where it leads a new one.
    pub pgid: i32,
    /// Whether it reads from the pipe.
    pub reads_pipe: bool,
    /// Whether it writes into the pipe.
    pub writes_pipe: bool,
}

/// How far the start of a job has come.
#[derive(Debug, Clone, Copy, PartialEq, Eq)]
pub enum LaunchStep {
    /// Another process is to be started.
    More(Launch),
    /// The job runs and has the terminal.
    Started,
    /// A process could not be started.
    Failed,
}

/// What became of an attempt to start a process, its text as a sequence of characters.
pub open spec fn outcome(result: Result<i32, String>) -> Result<i32, Seq<char>> {
    match result {
        Ok(child) => Ok(child),
        Err(e) => Err(e@),
    }
}

impl Launch {
    /// The processes of the job, if `child` completes them: the leader of the group, and the
    /// second process.
    pub open spec fn completed(self, child: i32) -> Option<(i32, Option<i32>)> {
        match self.first {
            Some(leader) => Some((leader, Some(child))),
            None => if self.piped {
                None
            } else {
                Some((child, None))
            },
        }
    }

    /// The process to start next. The first leads the group; the second joins it.
    pub open spec fn next(self) -> ForkRequest {
        match self.first {
            None => ForkRequest {
                program: 0,
                pgid: 0,
                reads_pipe: false,
                writes_pipe: self.piped,
            },
            Some(leader) => ForkRequest {
                program: 1,
                pgid: leader,
                reads_pipe: true,
                writes_pipe: false,
            },
        }
    }

    /// The process to start next.
    pub fn request(&self) -> (r: ForkRequest)
        ensures
            r == self.next(),
    {
        match self.first {
            None => ForkRequest {
                program: 0,
                pgid: 0,
                reads_pipe: false,
                writes_pipe: self.piped,
            },
            Some(leader) => ForkRequest {
                program: 1,
                pgid: leader,
                reads_pipe: true,
                writes_pipe: false,
            },
        }
    }
}

impl State {
    /// Why a command of `n` programs cannot be started, where it cannot.
    pub open spec fn launch_refusal(self, n: nat) -> Option<Seq<char>> {
        if self.full() {
            Some("ZeroSh: ジョブ数が上限に達しました"@)
        } else if n > 2 {
            Some("ZeroSh: 3つ以上のコマンドパイプはサポートしていません"@)
        } else {
            None
        }
    }

    /// Whether `l` is the start of a command of `n` programs: its number is the smallest that is
    /// free, and nothing was started yet.
    pub open spec fn launch_of(self, n: nat, l: Launch) -> bool {
        &&& self.least_free(l.job_id)
        &&& l.piped == (n == 2)
        &&& l.first is None
    }

    /// Whether `child` can complete a job: neither it nor its group is in the tables.
    pub open spec fn launch_fits(self, l: Launch, child: i32) -> bool {
        match l.completed(child) {
            Some((leader, second)) => self.fresh_job(
                l.job_id,
                leader,
                State::running(leader, members(leader, second)),
            ),
            None => true,
        }
    }

    /// After an attempt to start a process of a job: with the last of them the job is in the
    /// tables and has the terminal; a failure is reported and leaves the tables as they are.
    pub open spec fn forked(self, l: Launch, line: Seq<char>, result: Result<i32, Seq<char>>) -> (
        State,
        Seq<Act>,
        LaunchStep,
    ) {
        match result {
            Err(e) => (
                self,
                seq![Act::Warn("Zerosh: プロセスの生成に失敗しました: "@ + e)],
                LaunchStep::Failed,
            ),
            Ok(child) => match l.completed(child) {
                None => (
                    self,
                    seq![],
                    LaunchStep::More(
                        Launch { job_id: l.job_id, piped: l.piped, first: Some(child) },
                    ),
                ),
                Some((leader, second)) => {
                    let (s, a) = self.started(l.job_id, leader, members(leader, second), line);
                    (s, a, LaunchStep::Started)
                },
            },
        }
    }
}

/// What a new process does before it runs its program.
#[derive(Debug, Clone, Copy, PartialEq, Eq)]
pub enum ChildStep {
    /// Let the descriptor `to` stand for what `from` stands for.
    Duplicate { from: i32, to: i32 },
    /// Close a descriptor, if it is open.
    Close(i32),
}

/// What a new process does before it runs its program: its input and its output are taken from
/// the pipe where they are given, then the descriptors of the signal handler are closed.
pub open spec fn child_setup(input: Option<i32>, output: Option<i32>) -> Seq<ChildStep> {
    let reading = match input {
        Some(fd) => seq![ChildStep::Duplicate { from: fd, to: 0 }],
        None => seq![],
    };
    let writing = match output {
        Some(fd) => seq![ChildStep::Duplicate { from: fd, to: 1 }],
        None => seq![],
    };
    reading + writing + Seq::new(4, |i: int| ChildStep::Close((3 + i) as i32))
}

/// What a new process does before it runs its program.
pub fn child_steps(input: Option<i32>, output: Option<i32>) -> (r: Vec<ChildStep>)
    ensures
        r@ == child_setup(input, output),
{
    let mut steps: Vec<ChildStep> = Vec::new();
    if let Some(fd) = input {
        steps.push(ChildStep::Duplicate { from: fd, to: 0 });
    }
    if let Some(fd) = output {
        steps.push(ChildStep::Duplicate { from: fd, to: 1 });
    }
    let ghost opened = steps@;
    let mut fd: i32 = 3;
    while fd <= 6
        invariant
            3 <= fd <= 7,
            steps@ == opened + Seq::new(
                (fd - 3) as nat,
                |i: int| ChildStep::Close((3 + i) as i32),
            ),
        decreases 7 - fd,
    {
        steps.push(ChildStep::Close(fd));
        fd = fd + 1;
        proof {
            assert(steps@ =~= opened + Seq::new(
                (fd - 3) as nat,
                |i: int| ChildStep::Close((3 + i) as i32),
            ));
        }
    }
    proof {
        assert(steps@ =~= child_setup(input, output));
    }
    steps
}

impl crate::worker::Worker {
    /// Begins to start a command: gives it a number, or says why it cannot be started.
    pub fn spawn_child(&self, cmd: &[(&str, Vec<&str>)], out: &mut Vec<Effect>) -> (r: Option<
        Launch,
    >)
        requires
            cmd@.len() > 0,
        ensures
            match self@.launch_refusal(cmd@.len()) {
                Some(text) => r is None && adds(old(out)@, final(out)@, seq![Act::Warn(text)]),
                None => r matches Some(l) && self@.launch_of(cmd@.len(), l) && final(out)@ == old(
                    out,
                )@,
            },
    {
        let job_id: usize = match self.get_new_job_id() {
            Some(id) => id,
            None => {
                ask(out, Effect::Warn("ZeroSh: ジョブ数が上限に達しました".to_owned()));
                return None;
            },
        };
        proof {
            assert(!self@.jobs.contains_key(job_id));
        }
        if cmd.len() > 2 {
            ask(
                out,
                Effect::Warn("ZeroSh: 3つ以上のコマンドパイプはサポートしていません".to_owned()),
            );
            return None;
        }
        Some(Launch { job_id, piped: cmd.len() == 2, first: None })
    }

    /// Whether `child` can complete a job.
    pub fn fits(&self, launch: &Launch, child: i32) -> (r: bool)
        ensures
            r == self@.launch_fits(*launch, child),
    {
        let (leader, second): (i32, Option<i32>) = match launch.first {
            Some(leader) => (leader, Some(child)),
            None => {
                if launch.piped {
                    return true;
                }
                (child, None)
            },
        };
        let ghost procs = State::running(leader, members(leader, second));
        proof {
            assert(procs.contains_key(leader));
            assert(procs.contains_key(child));
        }
        !self.has_job(launch.job_id) && !self.has_group(leader) && !self.knows(leader)
            && !self.knows(child)
    }

    /// After an attempt to start a process of a job: goes on, or puts the job into the tables.
    pub fn spawn_next(
        &mut self,
        launch: Launch,
        line: &str,
        result: Result<i32, String>,
        out: &mut Vec<Effect>,
    ) -> (r: LaunchStep)
        requires
            result matches Ok(child) ==> old(self)@.launch_fits(launch, child),
        ensures
            final(self)@ == old(self)@.forked(launch, line@, outcome(result)).0,
            adds(old(out)@, final(out)@, old(self)@.forked(launch, line@, outcome(result)).1),
            r == old(self)@.forked(launch, line@, outcome(result)).2,
            old(self)@.wf() ==> final(self)@.wf(),
            old(self)@.settled() ==> final(self)@.settled(),
    {
        let child: i32 = match result {
            Ok(child) => child,
            Err(e) => {
                ask(
                    out,
                    Effect::Warn(
                        join("Zerosh: プロセスの生成に失敗しました: ", e.as_str()),
                    ),
                );
                return LaunchStep::Failed;
            },
        };
        match launch.first {
            Some(leader) => {
                self.start_job(launch.job_id, leader, Some(child), line, out);
                LaunchStep::Started
            },
            None => {
                if launch.piped {
                    proof {
                        assert(acts(out@) =~= acts(old(out)@) + seq![]);
                    }
                    LaunchStep::More(
                        Launch { job_id: launch.job_id, piped: launch.piped, first: Some(child) },
                    )
                } else {
                    self.start_job(launch.job_id, child, None, line, out);
                    LaunchStep::Started
                }
            },
        }
    }
}

} // verus!
