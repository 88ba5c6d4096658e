//! The reading side of the shell: it prompts, reads a line, hands it over and waits for the answer.
use crate::effect::{join, ShellMsg};
use crate::text::{trim, trimmed};
use vstd::prelude::*;

verus! {

/// The shell that a user talks to.
#[derive(Debug)]
pub struct Shell {
    logfile: String,
}

/// What came of reading a line.
#[derive(Debug)]
pub enum ReadEvent {
    /// A line was read.
    Line(String),
    /// The user interrupted the line.
    Interrupted,
    /// There is nothing left to read.
    Eof,
    /// Reading failed.
    Failed(String),
}

/// What to do after a line was read.
#[derive(Debug, PartialEq, Eq)]
pub enum ReadStep {
    /// Read again.
    Again,
    /// Show this line and read again.
    Warn(String),
    /// Add the entry to the history, hand over the line and wait for the answer.
    Submit { entry: String, line: String },
    /// Hand over the line and wait for the answer, which has to be to leave.
    SubmitLast { line: String },
    /// Show this line and leave with this code.
    Leave { warning: String, code: i32 },
}

/// What to do after an answer.
#[derive(Debug, Clone, Copy, PartialEq, Eq)]
pub enum AnswerStep {
    /// Read again; the last command ended with this code.
    Read(i32),
    /// Leave with this code.
    Leave(i32),
}

/// What the reading side hears.
pub enum Heard {
    /// What came of reading a line.
    Read(ReadEvent),
    /// The answer to a line.
    Answer(ShellMsg),
}

/// The reading side in the course of a session.
#[derive(Debug)]
pub struct Session {
    prev: i32,
    last: bool,
}

/// What the reading side remembers.
pub struct Memory {
    /// The code with which the last command ended.
    pub prev: i32,
    /// Whether the line that was read last stands for the end of the input.
    pub last: bool,
}

impl View for Session {
    type V = Memory;

    closed spec fn view(&self) -> Memory {
        Memory { prev: self.prev, last: self.last }
    }
}

impl Memory {
    /// At the start of a session.
    pub open spec fn initial() -> Memory {
        Memory { prev: 0, last: false }
    }

    /// After one more thing was heard: only the answer to read on brings a new code.
    pub open spec fn after(self, heard: Heard) -> Memory {
        match heard {
            Heard::Read(event) => Memory { last: event is Eof, ..self },
            Heard::Answer(ShellMsg::Continue(n)) => Memory { prev: n, ..self },
            Heard::Answer(ShellMsg::Quit(_)) => self,
        }
    }

    /// Whether an answer is one that can follow: at the end of the input it has to be to leave.
    pub open spec fn allows(self, msg: ShellMsg) -> bool {
        self.last ==> msg is Quit
    }
}

/// The prompt: its face shows whether the last command ended with the code 0.
pub open spec fn prompt_line(prev: i32) -> Seq<char> {
    "ZeroSh "@ + (if prev == 0 {
        "\u{1F642}"@
    } else {
        "\u{1F480}"@
    }) + " %>"@
}

/// Whether `step` is what a read leads to.
pub open spec fn read_leads_to(event: ReadEvent, step: ReadStep) -> bool {
    match event {
        ReadEvent::Line(text) => if trimmed(text@).len() == 0 {
            step == ReadStep::Again
        } else {
            step matches ReadStep::Submit { entry, line } && entry@ == trimmed(text@) && line@
                == text@
        },
        ReadEvent::Interrupted => step matches ReadStep::Warn(text) && text@
            == "ZeroSh: 終了はCtrl + D"@,
        ReadEvent::Eof => step matches ReadStep::SubmitLast { line } && line@ == "exit"@,
        ReadEvent::Failed(e) => step matches ReadStep::Leave { warning, code } && warning@
            == "Zerosh: 組み込みエラー\n"@ + e@ && code == 1,
    }
}

/// What an answer leads to.
pub open spec fn answer_leads_to(msg: ShellMsg) -> AnswerStep {
    match msg {
        ShellMsg::Continue(n) => AnswerStep::Read(n),
        ShellMsg::Quit(n) => AnswerStep::Leave(n),
    }
}

impl Shell {
    /// The name of the file that keeps the history of command lines.
    pub closed spec fn history_file(&self) -> Seq<char> {
        self.logfile@
    }

    /// A shell that keeps its history in `logfile`.
    pub fn new(logfile: &str) -> (r: Self)
        ensures
            r.history_file() == logfile@,
    {
        Shell { logfile: logfile.to_owned() }
    }

    /// The file that the history is read from and written to.
    pub fn logfile(&self) -> (r: &str)
        ensures
            r@ == self.history_file(),
    {
        self.logfile.as_str()
    }

    /// The prompt, given the code with which the last command ended.
    pub fn prompt(prev: i32) -> (r: String)
        ensures
            r@ == prompt_line(prev),
    {
        let face: &str = if prev == 0 {
            "\u{1F642}"
        } else {
            "\u{1F480}"
        };
        let mut s: String = "ZeroSh ".to_owned();
        s.append(face);
        s.append(" %>");
        s
    }

    /// Acts on a read. A blank line is passed over; the history keeps a line without the white
    /// space around it; the end of the input is the command `exit`.
    pub fn on_read(event: ReadEvent) -> (r: ReadStep)
        ensures
            read_leads_to(event, r),
    {
        match event {
            ReadEvent::Line(line) => {
                let entry: String = trim(line.as_str()).to_owned();
                if entry.as_str().is_empty() {
                    ReadStep::Again
                } else {
                    ReadStep::Submit { entry, line }
                }
            },
            ReadEvent::Interrupted => ReadStep::Warn("ZeroSh: 終了はCtrl + D".to_owned()),
            ReadEvent::Eof => ReadStep::SubmitLast { line: "exit".to_owned() },
            ReadEvent::Failed(e) => ReadStep::Leave {
                warning: join("Zerosh: 組み込みエラー\n", e.as_str()),
                code: 1,
            },
        }
    }

    /// Acts on the answer to a line. `last` tells that the line was the last; its answer has to
    /// be to leave.
    pub fn on_answer(last: bool, msg: ShellMsg) -> (r: AnswerStep)
        requires
            last ==> msg is Quit,
        ensures
            r == answer_leads_to(msg),
    {
        match msg {
            ShellMsg::Continue(n) => AnswerStep::Read(n),
            ShellMsg::Quit(n) => AnswerStep::Leave(n),
        }
    }
}

impl Session {
    /// The start of a session: no command has ended yet, and the code is 0.
    pub fn new() -> (r: Self)
        ensures
            r@ == Memory::initial(),
    {
        Session { prev: 0, last: false }
    }

    /// The prompt to show next.
    pub fn prompt(&self) -> (r: String)
        ensures
            r@ == prompt_line(self@.prev),
    {
        Shell::prompt(self.prev)
    }

    /// Acts on a read.
    pub fn read(&mut self, event: ReadEvent) -> (r: ReadStep)
        ensures
            final(self)@ == old(self)@.after(Heard::Read(event)),
            read_leads_to(event, r),
    {
        self.last = match &event {
            ReadEvent::Eof => true,
            _ => false,
        };
        Shell::on_read(event)
    }

    /// Whether an answer is one that can follow.
    pub fn accepts(&self, msg: ShellMsg) -> (r: bool)
        ensures
            r == self@.allows(msg),
    {
        match msg {
            ShellMsg::Quit(_) => true,
            ShellMsg::Continue(_) => !self.last,
        }
    }

    /// Acts on the answer to a line.
    pub fn answered(&mut self, msg: ShellMsg) -> (r: AnswerStep)
        requires
            old(self)@.allows(msg),
        ensures
            final(self)@ == old(self)@.after(Heard::Answer(msg)),
            r == answer_leads_to(msg),
    {
        let step = Shell::on_answer(self.last, msg);
        if let AnswerStep::Read(code) = step {
            self.prev = code;
        }
        step
    }
}

} // verus!
