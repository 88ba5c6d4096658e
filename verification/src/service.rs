//! The job keeper at work: what it does with each message.
use crate::cd::{cd_leads_to, run_cd, CdTarget};
use crate::effect::{acts, adds, ask, join, Act, Effect, ShellMsg};
use crate::launch::{outcome, Launch, LaunchStep};
use crate::model::State;
use crate::parse::{
    command, is_command, parse_cmd, program, program_words, programs, ParseError, Program,
};
use crate::text::{same, texts};
use crate::worker::Worker;
use vstd::prelude::*;

verus! {

/// What the job keeper is told.
#[derive(Debug)]
pub enum WorkerMsg {
    /// A signal of this number came in.
    Signal(i32),
    /// A command line was read.
    Cmd(String),
}

/// What a built-in command leaves to be done.
#[derive(Debug)]
pub enum BuiltIn {
    /// The command is not built in.
    Unknown,
    /// The command is done.
    Done,
    /// The directory is to be changed.
    ChangeDir(CdTarget),
}

/// What is to be done after a message, before the next is taken.
#[derive(Debug)]
pub enum Next<'a> {
    /// Nothing.
    Listen,
    /// The child processes are to be asked for.
    Reap,
    /// The directory is to be changed.
    ChangeDir(CdTarget),
    /// The processes of these programs are to be started.
    Spawn(Launch, Vec<(&'a str, Vec<&'a str>)>),
}

/// The commands that the shell runs itself.
pub enum Command {
    Exit,
    Jobs,
    Fg,
    Cd,
}

/// The built-in command that programs are. One in a pipe is none.
pub open spec fn built_in(cmd: Seq<Program>) -> Option<Command> {
    if cmd.len() > 1 {
        None
    } else if cmd[0].0 == "exit"@ {
        Some(Command::Exit)
    } else if cmd[0].0 == "jobs"@ {
        Some(Command::Jobs)
    } else if cmd[0].0 == "fg"@ {
        Some(Command::Fg)
    } else if cmd[0].0 == "cd"@ {
        Some(Command::Cd)
    } else {
        None
    }
}

/// The name of a program and then its arguments.
fn with_name<'a>(name: &'a str, args: &Vec<&'a str>) -> (r: Vec<&'a str>)
    ensures
        r@.len() == args@.len() + 1,
        texts(r@) == program_words((name@, texts(args@))),
{
    let mut whole: Vec<&'a str> = Vec::new();
    whole.push(name);
    let mut i: usize = 0;
    while i < args.len()
        invariant
            i <= args.len(),
            whole@ == seq![name] + args@.take(i as int),
        decreases args.len() - i,
    {
        whole.push(args[i]);
        proof {
            assert(whole@ =~= seq![name] + args@.take(i + 1));
        }
        i = i + 1;
    }
    proof {
        assert(texts(whole@) =~= program_words((name@, texts(args@))));
    }
    whole
}

/// Whether `next` is what a signal leaves to be done.
pub open spec fn signal_leads_to(sig: i32, sigchld: i32, next: Next) -> bool {
    if sig == sigchld {
        next is Reap
    } else {
        next is Listen
    }
}

impl State {
    /// After a built-in command. `exit` and `fg` are handed the arguments alone.
    pub open spec fn built_in_done(self, cmd: Seq<Program>) -> (State, Seq<Act>) {
        match built_in(cmd) {
            Some(Command::Exit) => self.exit_command(cmd[0].1),
            Some(Command::Jobs) => self.jobs_command(),
            Some(Command::Fg) => self.fg_command(cmd[0].1),
            Some(Command::Cd) => (self, seq![]),
            None => (self, seq![]),
        }
    }

    /// A warning, after which the shell reads on.
    pub open spec fn refused(self, text: Seq<char>) -> Seq<Act> {
        seq![Act::Warn(text), Act::Reply(ShellMsg::Continue(self.exit_val))]
    }

    /// After a command line was read.
    pub open spec fn line_read(self, line: Seq<char>) -> (State, Seq<Act>) {
        if !is_command(line) {
            (self, self.refused("ZeroSh: "@ + ParseError::EmptyCommand.text()))
        } else {
            let cmd = command(line);
            if built_in(cmd) is Some {
                self.built_in_done(cmd)
            } else {
                match self.launch_refusal(cmd.len()) {
                    Some(text) => (self, self.refused(text)),
                    None => (self, seq![]),
                }
            }
        }
    }

    /// Whether `next` is what a command line leaves to be done.
    pub open spec fn line_leaves(self, line: Seq<char>, next: Next) -> bool {
        let cmd = command(line);
        if !is_command(line) {
            next is Listen
        } else if built_in(cmd) == Some(Command::Cd) {
            next matches Next::ChangeDir(to) && cd_leads_to(program_words(cmd[0]), to)
        } else if built_in(cmd) is None && self.launch_refusal(cmd.len()) is None {
            next matches Next::Spawn(l, cmds) && self.launch_of(cmd.len(), l) && programs(cmds@)
                == cmd
        } else {
            next is Listen
        }
    }

    /// After an attempt to start a process: as `forked`, and where it failed the shell reads on.
    pub open spec fn fork_answered(
        self,
        l: Launch,
        line: Seq<char>,
        result: Result<i32, Seq<char>>,
    ) -> Seq<Act> {
        if result is Err {
            self.forked(l, line, result).1.push(Act::Reply(ShellMsg::Continue(self.exit_val)))
        } else {
            self.forked(l, line, result).1
        }
    }
}

impl Worker {
    /// Runs a built-in command. One in a pipe is not run. `cd` is handed its name and then its
    /// arguments; the others are handed their arguments alone.
    pub fn built_in_cmd(&mut self, cmd: &[(&str, Vec<&str>)], out: &mut Vec<Effect>) -> (r: BuiltIn)
        requires
            old(self)@.wf(),
            cmd@.len() > 0,
        ensures
            final(self)@ == old(self)@.built_in_done(programs(cmd@)).0,
            adds(old(out)@, final(out)@, old(self)@.built_in_done(programs(cmd@)).1),
            match built_in(programs(cmd@)) {
                None => r is Unknown,
                Some(Command::Cd) => r matches BuiltIn::ChangeDir(to) && cd_leads_to(
                    program_words(programs(cmd@)[0]),
                    to,
                ),
                Some(_) => r is Done,
            },
            final(self)@.wf(),
            old(self)@.settled() ==> final(self)@.settled(),
    {
        let ghost all = programs(cmd@);
        proof {
            assert(all.len() == cmd@.len());
            assert(all[0] == program(cmd@[0]));
            assert(acts(out@) =~= acts(old(out)@) + seq![]);
        }
        if cmd.len() > 1 {
            return BuiltIn::Unknown;
        }
        let name: &str = cmd[0].0;
        let args: &Vec<&str> = &cmd[0].1;
        if same(name, "exit") {
            self.run_exit(args.as_slice(), out);
            BuiltIn::Done
        } else if same(name, "jobs") {
            self.run_jobs(out);
            BuiltIn::Done
        } else if same(name, "fg") {
            self.run_fg(args.as_slice(), out);
            BuiltIn::Done
        } else if same(name, "cd") {
            let whole: Vec<&str> = with_name(name, args);
            BuiltIn::ChangeDir(run_cd(whole.as_slice()))
        } else {
            BuiltIn::Unknown
        }
    }

    /// Acts on a command line.
    pub fn on_line<'a>(&mut self, line: &'a str, out: &mut Vec<Effect>) -> (r: Next<'a>)
        requires
            old(self)@.wf(),
        ensures
            final(self)@ == old(self)@.line_read(line@).0,
            adds(old(out)@, final(out)@, old(self)@.line_read(line@).1),
            old(self)@.line_leaves(line@, r),
            final(self)@.wf(),
            old(self)@.settled() ==> final(self)@.settled(),
    {
        let ghost s = self@;
        let ghost expected = s.line_read(line@).1;
        match parse_cmd(line) {
            Err(e) => {
                ask(out, Effect::Warn(join("ZeroSh: ", e.message().as_str())));
                ask(out, Effect::Reply(ShellMsg::Continue(self.exit_val())));
                proof {
                    assert(acts(out@) =~= acts(old(out)@) + expected);
                }
                Next::Listen
            },
            Ok(cmd) => {
                match self.built_in_cmd(cmd.as_slice(), out) {
                    BuiltIn::Done => {
                        return Next::Listen;
                    },
                    BuiltIn::ChangeDir(to) => {
                        return Next::ChangeDir(to);
                    },
                    BuiltIn::Unknown => {},
                }
                match self.spawn_child(cmd.as_slice(), out) {
                    Some(launch) => {
                        Next::Spawn(launch, cmd)
                    },
                    None => {
                        ask(out, Effect::Reply(ShellMsg::Continue(self.exit_val())));
                        proof {
                            assert(acts(out@) =~= acts(old(out)@) + expected);
                        }
                        Next::Listen
                    },
                }
            },
        }
    }

    /// Acts on a message. Of the signals only the one of the number `sigchld`, which tells of a
    /// change among the child processes, matters.
    pub fn on_message<'a>(&mut self, msg: &'a WorkerMsg, sigchld: i32, out: &mut Vec<Effect>) -> (r:
        Next<'a>)
        requires
            old(self)@.wf(),
        ensures
            match *msg {
                WorkerMsg::Cmd(line) => {
                    &&& final(self)@ == old(self)@.line_read(line@).0
                    &&& adds(old(out)@, final(out)@, old(self)@.line_read(line@).1)
                    &&& old(self)@.line_leaves(line@, r)
                },
                WorkerMsg::Signal(sig) => {
                    &&& final(self)@ == old(self)@
                    &&& final(out)@ == old(out)@
                    &&& signal_leads_to(sig, sigchld, r)
                },
            },
            final(self)@.wf(),
            old(self)@.settled() ==> final(self)@.settled(),
    {
        match msg {
            WorkerMsg::Cmd(line) => self.on_line(line.as_str(), out),
            WorkerMsg::Signal(sig) => {
                if *sig == sigchld {
                    Next::Reap
                } else {
                    Next::Listen
                }
            },
        }
    }

    /// Acts on an attempt to start a process of a job; where it failed, the shell reads on.
    pub fn on_forked(
        &mut self,
        launch: Launch,
        line: &str,
        result: Result<i32, String>,
        out: &mut Vec<Effect>,
    ) -> (r: LaunchStep)
        requires
            result matches Ok(child) ==> old(self)@.launch_fits(launch, child),
        ensures
            final(self)@ == old(self)@.forked(launch, line@, outcome(result)).0,
            adds(
                old(out)@,
                final(out)@,
                old(self)@.fork_answered(launch, line@, outcome(result)),
            ),
            r == old(self)@.forked(launch, line@, outcome(result)).2,
            old(self)@.wf() ==> final(self)@.wf(),
            old(self)@.settled() ==> final(self)@.settled(),
    {
        let ghost s = self@;
        let ghost what = outcome(result);
        let step = self.spawn_next(launch, line, result, out);
        match step {
            LaunchStep::Failed => {
                ask(out, Effect::Reply(ShellMsg::Continue(self.exit_val())));
                proof {
                    assert(acts(out@) =~= acts(old(out)@) + s.fork_answered(launch, line@, what));
                }
            },
            _ => {},
        }
        step
    }
}

} // verus!
