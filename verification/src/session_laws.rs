//! What holds over a whole session, whatever happens in it.
use crate::effect::{Act, ShellMsg};
use crate::job_laws::{
    answers, law_cd_answered, law_line_answered, law_start_answered, law_terminal_after_line,
    law_terminal_after_start, law_wait_answered, owner, terminal,
};
use crate::launch::{Launch, LaunchStep};
use crate::model::{
    lemma_managed, lemma_with_job, lemma_with_state, lemma_without_pid, members, ProcState, State,
};
use crate::service::Next;
use crate::shell::{prompt_line, Heard, Memory, ReadEvent};
use crate::syscall::SysError;
use crate::wait::{acceptable, stopped_pid, WaitStatus};
use vstd::prelude::*;

verus! {

/// What the reading side remembers after all that it heard in a session.
pub open spec fn remembered(heard: Seq<Heard>) -> Memory
    decreases heard.len(),
{
    if heard.len() == 0 {
        Memory::initial()
    } else {
        remembered(heard.drop_last()).after(heard.last())
    }
}

/// The code that comes with an answer to read on.
pub open spec fn told(heard: Heard) -> Option<i32> {
    match heard {
        Heard::Answer(ShellMsg::Continue(n)) => Some(n),
        _ => None,
    }
}

/// The code of the last answer to read on; `None` where there was none yet.
pub open spec fn last_told(heard: Seq<Heard>) -> Option<i32>
    decreases heard.len(),
{
    if heard.len() == 0 {
        None
    } else if told(heard.last()) is Some {
        told(heard.last())
    } else {
        last_told(heard.drop_last())
    }
}

/// The prompt after all that was heard in a session.
pub open spec fn session_prompt(heard: Seq<Heard>) -> Seq<char> {
    prompt_line(remembered(heard).prev)
}

/// Only an answer to read on changes the code that is remembered, and then to the one that comes
/// with it.
pub proof fn law_code_follows_answers(m: Memory, heard: Heard)
    ensures
        m.after(heard).prev == (match told(heard) {
            Some(n) => n,
            None => m.prev,
        }),
{
}

/// The code that is remembered is that of the last answer to read on, and 0 before the first.
pub proof fn law_last_code(heard: Seq<Heard>)
    ensures
        remembered(heard).prev == (match last_told(heard) {
            Some(n) => n,
            None => 0,
        }),
    decreases heard.len(),
{
    if heard.len() > 0 {
        law_last_code(heard.drop_last());
    }
}

/// Every prompt of a session smiles just where there was no answer to read on yet or the last one
/// came with the code 0, and shows the skull everywhere else.
pub proof fn law_prompt_face(heard: Seq<Heard>)
    ensures
        session_prompt(heard) == "ZeroSh "@ + "\u{1F642}"@ + " %>"@ <==> (last_told(heard) is None
            || last_told(heard) == Some(0i32)),
        session_prompt(heard) == "ZeroSh "@ + "\u{1F480}"@ + " %>"@ <==> !(last_told(heard) is None
            || last_told(heard) == Some(0i32)),
{
    law_last_code(heard);
    reveal_strlit("ZeroSh ");
    reveal_strlit("\u{1F642}");
    reveal_strlit("\u{1F480}");
    let smile = "ZeroSh "@ + "\u{1F642}"@ + " %>"@;
    let skull = "ZeroSh "@ + "\u{1F480}"@ + " %>"@;
    assert(smile[7] == '\u{1F642}');
    assert(skull[7] == '\u{1F480}');
}

/// Whatever comes of reading a line, a blank one and an interruption among it, the prompt stays as
/// it is until there is an answer.
pub proof fn law_reads_keep_prompt(heard: Seq<Heard>, event: ReadEvent)
    ensures
        session_prompt(heard.push(Heard::Read(event))) == session_prompt(heard),
{
    assert(heard.push(Heard::Read(event)).drop_last() =~= heard);
}

/// What the job keeper has to be told before it takes the next message.
pub enum Todo {
    Nothing,
    /// What came of changing the directory.
    Move,
    /// What came of starting the next process of this job, whose line this is.
    Start(Launch, Seq<char>),
}

/// The job keeper in the course of a session.
pub struct Keeper {
    pub state: State,
    pub todo: Todo,
}

/// What happens to the job keeper.
pub enum Happening<'a> {
    /// It acted on this line, and this was left to be done.
    Line(Seq<char>, Next<'a>),
    /// The directory was changed, or this is why not.
    Moved(Option<Seq<char>>),
    /// A process was started, or this is why not.
    Forked(Result<i32, Seq<char>>),
    /// The system said this of the child processes.
    Waited(Result<WaitStatus, SysError>),
}

impl Keeper {
    /// Whether something can happen now.
    pub open spec fn allows(self, h: Happening) -> bool {
        match h {
            Happening::Line(line, next) => self.todo is Nothing && self.state.line_leaves(
                line,
                next,
            ),
            Happening::Moved(_) => self.todo is Move,
            Happening::Forked(result) => self.todo matches Todo::Start(l, _) && (
            result matches Ok(child) ==> self.state.launch_fits(l, child)),
            Happening::Waited(answer) => self.todo is Nothing && acceptable(self.state, answer),
        }
    }

    /// After something happened, and what was asked for then.
    pub open spec fn after(self, h: Happening) -> (Keeper, Seq<Act>) {
        match h {
            Happening::Line(line, next) => {
                let (s, a) = self.state.line_read(line);
                let todo = match next {
                    Next::ChangeDir(_) => Todo::Move,
                    Next::Spawn(l, _) => Todo::Start(l, line),
                    _ => Todo::Nothing,
                };
                (Keeper { state: s, todo }, a)
            },
            Happening::Moved(failure) => {
                let (s, a) = self.state.moved(failure);
                (Keeper { state: s, todo: Todo::Nothing }, a)
            },
            Happening::Forked(result) => {
                let l = self.todo->Start_0;
                let line = self.todo->Start_1;
                let (s, _, step) = self.state.forked(l, line, result);
                let todo = match step {
                    LaunchStep::More(more) => Todo::Start(more, line),
                    _ => Todo::Nothing,
                };
                (Keeper { state: s, todo }, self.state.fork_answered(l, line, result))
            },
            Happening::Waited(answer) => {
                let (s, a, _) = self.state.waited(answer);
                (Keeper { state: s, todo: Todo::Nothing }, a)
            },
        }
    }
}

/// The job keeper of the shell in the group `shell`, after all that happened in a session.
pub open spec fn kept(shell: i32, all: Seq<Happening>) -> Keeper
    decreases all.len(),
{
    if all.len() == 0 {
        Keeper { state: State::initial(shell), todo: Todo::Nothing }
    } else {
        kept(shell, all.drop_last()).after(all.last()).0
    }
}

/// What was asked for in a session.
pub open spec fn asked(shell: i32, all: Seq<Happening>) -> Seq<Act>
    decreases all.len(),
{
    if all.len() == 0 {
        seq![]
    } else {
        asked(shell, all.drop_last()) + kept(shell, all.drop_last()).after(all.last()).1
    }
}

/// How many lines were handed over in a session.
pub open spec fn commands(all: Seq<Happening>) -> nat
    decreases all.len(),
{
    if all.len() == 0 {
        0
    } else {
        commands(all.drop_last()) + (if all.last() is Line {
            1nat
        } else {
            0nat
        })
    }
}

/// Whether a session can go like this: everything could happen when it did, and a line was handed
/// over only once all the lines before it were answered.
pub open spec fn possible(shell: i32, all: Seq<Happening>) -> bool
    decreases all.len(),
{
    all.len() == 0 || {
        let before = all.drop_last();
        &&& possible(shell, before)
        &&& kept(shell, before).allows(all.last())
        &&& all.last() is Line ==> commands(before) == answers(asked(shell, before))
    }
}

/// What is asked for first, and what then.
proof fn lemma_then(o: i32, a: Seq<Act>, b: Seq<Act>)
    ensures
        answers(a + b) == answers(a) + answers(b),
        terminal(o, a + b) == terminal(terminal(o, a), b),
    decreases b.len(),
{
    if b.len() == 0 {
        assert(a + b =~= a);
    } else {
        lemma_then(o, a, b.drop_last());
        assert((a + b).drop_last() =~= a + b.drop_last());
    }
}

/// What the system says of a process keeps the tables in agreement.
proof fn lemma_waited(s: State, answer: Result<WaitStatus, SysError>)
    requires
        s.wf(),
        acceptable(s, answer),
    ensures
        s.waited(answer).0.wf(),
        s.settled() ==> s.waited(answer).0.settled(),
{
    match answer {
        Ok(WaitStatus::Exited(pid, code)) => {
            lemma_ended(s.with_exit(code), pid);
        },
        Ok(WaitStatus::Signaled(pid, sig, _, _)) => {
            lemma_ended(s.with_exit((sig + 128) as i32), pid);
        },
        Ok(WaitStatus::Continued(pid)) => {
            lemma_with_state(s, pid, ProcState::Run);
        },
        Ok(status) => {
            if let Some(pid) = stopped_pid(status) {
                let pgid = s.procs[pid].pgid;
                lemma_with_state(s, pid, ProcState::Stop);
                lemma_managed(s.with_state(pid, ProcState::Stop), s.groups[pgid].job, pgid);
            }
        },
        Err(_) => {},
    }
}

/// A process that ended keeps the tables in agreement.
proof fn lemma_ended(s: State, pid: i32)
    requires
        s.wf(),
    ensures
        s.ended(pid).0.wf(),
        s.settled() ==> s.ended(pid).0.settled(),
{
    if s.knows(pid) {
        let pgid = s.procs[pid].pgid;
        lemma_without_pid(s, pid);
        lemma_managed(s.without_pid(pid), s.groups[pgid].job, pgid);
    }
}

/// A process that was started keeps the tables in agreement.
proof fn lemma_forked(s: State, l: Launch, line: Seq<char>, result: Result<i32, Seq<char>>)
    requires
        s.wf(),
        result matches Ok(child) ==> s.launch_fits(l, child),
    ensures
        s.forked(l, line, result).0.wf(),
        s.settled() ==> s.forked(l, line, result).0.settled(),
{
    if let Ok(child) = result {
        if let Some((leader, second)) = l.completed(child) {
            let procs = State::running(leader, members(leader, second));
            assert(procs.contains_key(leader));
            assert(procs.dom().contains(leader));
            lemma_with_job(s, l.job_id, leader, procs, line);
        }
    }
}

/// In every session, at each moment: the lines that were handed over are one more than the
/// answers while a job has the terminal or something is left to be done, and as many everywhere
/// else; the terminal is with whom the tables say; the tables agree with each other; and no job is
/// without a process.
pub proof fn law_session(shell: i32, all: Seq<Happening>)
    requires
        possible(shell, all),
    ensures
        ({
            let k = kept(shell, all);
            let open = commands(all) - answers(asked(shell, all));
            &&& k.todo is Nothing ==> open == (if k.state.fg is Some {
                1int
            } else {
                0int
            })
            &&& !(k.todo is Nothing) ==> open == 1 && k.state.fg is None
            &&& terminal(shell, asked(shell, all)) == owner(k.state)
            &&& k.state.wf()
            &&& k.state.settled()
        }),
    decreases all.len(),
{
    if all.len() > 0 {
        let before = all.drop_last();
        law_session(shell, before);
        let k = kept(shell, before);
        let s = k.state;
        lemma_then(shell, asked(shell, before), k.after(all.last()).1);
        match all.last() {
            Happening::Line(line, next) => {
                law_line_answered(s, line, next);
                law_terminal_after_line(s, line);
            },
            Happening::Moved(failure) => {
                law_cd_answered(s, failure);
            },
            Happening::Forked(result) => {
                let l = k.todo->Start_0;
                let line = k.todo->Start_1;
                law_start_answered(s, l, line, result);
                law_terminal_after_start(s, l, line, result);
                lemma_forked(s, l, line, result);
            },
            Happening::Waited(answer) => {
                law_wait_answered(s, answer);
                lemma_waited(s, answer);
            },
        }
    }
}

/// The tables after the system said all this, one after the other.
pub open spec fn all_waited(s: State, said: Seq<Result<WaitStatus, SysError>>) -> State
    decreases said.len(),
{
    if said.len() == 0 {
        s
    } else {
        all_waited(s, said.drop_last()).waited(said.last()).0
    }
}

/// What was asked for when the system said all this.
pub open spec fn all_waited_acts(s: State, said: Seq<Result<WaitStatus, SysError>>) -> Seq<Act>
    decreases said.len(),
{
    if said.len() == 0 {
        seq![]
    } else {
        all_waited_acts(s, said.drop_last()) + all_waited(s, said.drop_last()).waited(said.last()).1
    }
}

/// Whether each of the things that the system said could be acted on.
pub open spec fn all_acceptable(s: State, said: Seq<Result<WaitStatus, SysError>>) -> bool
    decreases said.len(),
{
    said.len() == 0 || all_acceptable(s, said.drop_last()) && acceptable(
        all_waited(s, said.drop_last()),
        said.last(),
    )
}

/// Whether the system said that a process ended.
pub open spec fn ends(answer: Result<WaitStatus, SysError>, pid: i32) -> bool {
    match answer {
        Ok(WaitStatus::Exited(p, _)) => p == pid,
        Ok(WaitStatus::Signaled(p, _, _, _)) => p == pid,
        _ => false,
    }
}

/// However much the system says of the processes, the reading side is answered at most once: just
/// where a job had the terminal before and has it no longer.
pub proof fn law_waits_answered_once(s: State, said: Seq<Result<WaitStatus, SysError>>)
    ensures
        answers(all_waited_acts(s, said)) == (if s.fg is Some && all_waited(s, said).fg is None {
            1nat
        } else {
            0nat
        }),
        all_waited(s, said).fg is Some ==> all_waited(s, said).fg == s.fg,
    decreases said.len(),
{
    if said.len() > 0 {
        let before = said.drop_last();
        let t = all_waited(s, before);
        law_waits_answered_once(s, before);
        law_wait_answered(t, said.last());
        lemma_then(owner(s), all_waited_acts(s, before), t.waited(said.last()).1);
    }
}

/// Whether a process is one of a job's.
pub open spec fn lives(s: State, id: usize, pid: i32) -> bool {
    s.jobs.contains_key(id) && s.groups[s.jobs[id].pgid].pids.contains(pid)
}

/// A job stays, with a process that it has, until that process ends.
proof fn lemma_job_stays(s: State, answer: Result<WaitStatus, SysError>, id: usize, pid: i32)
    requires
        s.wf(),
        acceptable(s, answer),
        lives(s, id, pid),
        !ends(answer, pid),
    ensures
        lives(s.waited(answer).0, id, pid),
        s.waited(answer).0.jobs[id] == s.jobs[id],
{
    let own = s.jobs[id].pgid;
    assert(s.groups.contains_key(own) && s.groups[own].job == id);
    match answer {
        Ok(WaitStatus::Exited(p, code)) => {
            lemma_other_ended(s.with_exit(code), p, id, pid);
        },
        Ok(WaitStatus::Signaled(p, sig, _, _)) => {
            lemma_other_ended(s.with_exit((sig + 128) as i32), p, id, pid);
        },
        Ok(status) => {
            if let Some(p) = stopped_pid(status) {
                assert(s.groups[s.procs[p].pgid].pids.contains(p));
            }
        },
        Err(_) => {},
    }
}

/// The same, where another process ends.
proof fn lemma_other_ended(s: State, other: i32, id: usize, pid: i32)
    requires
        s.wf(),
        lives(s, id, pid),
        other != pid,
    ensures
        lives(s.ended(other).0, id, pid),
        s.ended(other).0.jobs[id] == s.jobs[id],
{
    let own = s.jobs[id].pgid;
    assert(s.groups.contains_key(own) && s.groups[own].job == id);
    if s.knows(other) {
        let pgid = s.procs[other].pgid;
        let t = s.without_pid(other);
        assert(t.groups[own].pids.contains(pid));
        assert(s.jobs.contains_key(s.groups[pgid].job) && s.jobs[s.groups[pgid].job].pgid == pgid);
        if pgid == own {
            assert(!t.group_empty(own));
        }
    }
}

/// However much the system says of the processes, no job is lost while a process of it lives, nor
/// is the process.
pub proof fn law_living_jobs_stay(
    s: State,
    said: Seq<Result<WaitStatus, SysError>>,
    id: usize,
    pid: i32,
)
    requires
        s.wf(),
        all_acceptable(s, said),
        lives(s, id, pid),
        forall|i: int| 0 <= i < said.len() ==> !ends(#[trigger] said[i], pid),
    ensures
        all_waited(s, said).wf(),
        lives(all_waited(s, said), id, pid),
        all_waited(s, said).jobs[id] == s.jobs[id],
    decreases said.len(),
{
    if said.len() > 0 {
        let before = said.drop_last();
        assert forall|i: int| 0 <= i < before.len() implies !ends(#[trigger] before[i], pid) by {
            assert(before[i] == said[i]);
        }
        law_living_jobs_stay(s, before, id, pid);
        assert(!ends(said[said.len() - 1], pid));
        lemma_waited(all_waited(s, before), said.last());
        lemma_job_stays(all_waited(s, before), said.last(), id, pid);
    }
}

} // verus!
