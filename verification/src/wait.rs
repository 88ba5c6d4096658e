//! Following the processes: what the system says of them.
use crate::effect::{acts, adds, ask, join, killed_text, Act, Effect};
use crate::model::{ProcState, State};
use crate::syscall::{interrupted, ErrorKind, SysError};
use vstd::prelude::*;

verus! {

/// What the system says of a child process.
#[derive(Debug)]
pub enum WaitStatus {
    /// It ended with this code.
    Exited(i32, i32),
    /// A signal ended it: the number of the signal, its name, and whether the memory was saved.
    Signaled(i32, i32, String, bool),
    /// A signal stopped it.
    Stopped(i32, i32),
    /// It stopped at an event that is being traced.
    PtraceEvent(i32, i32, i32),
    /// It stopped at a call of the system that is being traced.
    PtraceSyscall(i32),
    /// It goes on.
    Continued(i32),
    /// No child has changed.
    StillAlive,
}

/// The process that is said to have stopped.
pub open spec fn stopped_pid(status: WaitStatus) -> Option<i32> {
    match status {
        WaitStatus::Stopped(pid, _) => Some(pid),
        WaitStatus::PtraceEvent(pid, _, _) => Some(pid),
        WaitStatus::PtraceSyscall(pid) => Some(pid),
        _ => None,
    }
}

/// Whether an answer can be acted on: a process that stopped is a known one, and the number of a
/// signal leaves room for the code that it gives.
pub open spec fn acceptable(s: State, answer: Result<WaitStatus, SysError>) -> bool {
    match answer {
        Ok(status) => {
            &&& stopped_pid(status) matches Some(pid) ==> s.procs.contains_key(pid)
            &&& status matches WaitStatus::Signaled(_, sig, _, _) ==> sig + 128 <= i32::MAX
        },
        Err(_) => true,
    }
}

impl State {
    /// After the system said something of a child process; the last component says whether to ask
    /// again. Where a signal interrupted the question, it is asked again and nothing changes.
    pub open spec fn waited(self, answer: Result<WaitStatus, SysError>) -> (
        State,
        Seq<Act>,
        bool,
    ) {
        match answer {
            Ok(status) => match status {
                WaitStatus::Exited(pid, code) => {
                    let (s, a) = self.with_exit(code).ended(pid);
                    (s, a, true)
                },
                WaitStatus::Signaled(pid, sig, name, core) => {
                    let (s, a) = self.killed(pid, sig, name@, core);
                    (s, a, true)
                },
                WaitStatus::Stopped(pid, _) => (self.stopped(pid).0, self.stopped(pid).1, true),
                WaitStatus::PtraceEvent(pid, _, _) => (
                    self.stopped(pid).0,
                    self.stopped(pid).1,
                    true,
                ),
                WaitStatus::PtraceSyscall(pid) => (self.stopped(pid).0, self.stopped(pid).1, true),
                WaitStatus::Continued(pid) => (
                    self.with_state(pid, ProcState::Run),
                    seq![],
                    true,
                ),
                WaitStatus::StillAlive => (self, seq![], false),
            },
            Err(e) => if interrupted(answer) {
                (self, seq![], true)
            } else if e.kind == ErrorKind::NoChild {
                (self, seq![], false)
            } else {
                (self, seq![Act::Warn("failed to wait: "@ + e.text@), Act::Exit(1)], false)
            },
        }
    }
}

impl crate::worker::Worker {
    /// Whether `wait_child` can act on an answer.
    pub fn accepts(&self, answer: &Result<WaitStatus, SysError>) -> (r: bool)
        ensures
            r == acceptable(self@, *answer),
    {
        match answer {
            Ok(status) => match status {
                WaitStatus::Stopped(pid, _) => self.knows(*pid),
                WaitStatus::PtraceEvent(pid, _, _) => self.knows(*pid),
                WaitStatus::PtraceSyscall(pid) => self.knows(*pid),
                WaitStatus::Signaled(_, sig, _, _) => *sig <= i32::MAX - 128,
                _ => true,
            },
            Err(_) => true,
        }
    }

    /// Acts on what the system says of a child process, and returns whether to ask again: until
    /// no child has changed or none is left. A failure ends the shell, but for one by a signal that
    /// came in between.
    pub fn wait_child(&mut self, answer: Result<WaitStatus, SysError>, out: &mut Vec<Effect>) -> (r:
        bool)
        requires
            old(self)@.wf(),
            acceptable(old(self)@, answer),
        ensures
            final(self)@ == old(self)@.waited(answer).0,
            adds(old(out)@, final(out)@, old(self)@.waited(answer).1),
            r == old(self)@.waited(answer).2,
            final(self)@.wf(),
            old(self)@.settled() ==> final(self)@.settled(),
    {
        let ghost s = self@;
        let ghost expected = s.waited(answer).1;
        match answer {
            Ok(status) => match status {
                WaitStatus::Exited(pid, code) => {
                    self.set_exit_val(code);
                    self.process_term(pid, out);
                    true
                },
                WaitStatus::Signaled(pid, sig, name, core) => {
                    ask(out, Effect::Warn(killed_text(pid, name.as_str(), core)));
                    self.set_exit_val(sig + 128);
                    self.process_term(pid, out);
                    proof {
                        assert(acts(out@) =~= acts(old(out)@) + expected);
                    }
                    true
                },
                WaitStatus::Stopped(pid, _) => {
                    self.process_stop(pid, out);
                    true
                },
                WaitStatus::PtraceEvent(pid, _, _) => {
                    self.process_stop(pid, out);
                    true
                },
                WaitStatus::PtraceSyscall(pid) => {
                    self.process_stop(pid, out);
                    true
                },
                WaitStatus::Continued(pid) => {
                    self.process_continue(pid);
                    proof {
                        assert(acts(out@) =~= acts(old(out)@) + expected);
                    }
                    true
                },
                WaitStatus::StillAlive => {
                    proof {
                        assert(acts(out@) =~= acts(old(out)@) + expected);
                    }
                    false
                },
            },
            Err(e) => {
                let again: bool = e.kind == ErrorKind::Interrupted;
                if !again && e.kind != ErrorKind::NoChild {
                    ask(out, Effect::Warn(join("failed to wait: ", e.text.as_str())));
                    ask(out, Effect::Exit(1));
                }
                proof {
                    assert(acts(out@) =~= acts(old(out)@) + expected);
                }
                again
            },
        }
    }
}

} // verus!
