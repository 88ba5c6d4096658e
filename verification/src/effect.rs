//! What the job keeper asks of the world outside, and the lines that it shows.
use crate::number::{decimal, decimal_text, integer, integer_text};
use vstd::prelude::*;

verus! {

/// What the reading side is told.
#[derive(Debug, Clone, Copy, PartialEq, Eq, Structural)]
pub enum ShellMsg {
    /// Read the next line; the last command ended with this code.
    Continue(i32),
    /// Leave with this code.
    Quit(i32),
}

/// One thing to be done, in the order in which it was asked for.
#[derive(Debug, PartialEq, Eq)]
pub enum Effect {
    /// Write a line to the standard output.
    Print(String),
    /// Write a line to the standard error output.
    Warn(String),
    /// Give the terminal to this process group.
    Foreground(i32),
    /// Let the stopped processes of this group go on.
    Resume(i32),
    /// Answer the reading side.
    Reply(ShellMsg),
    /// End the shell at once with this code.
    Exit(i32),
}

/// An effect, with its text as a sequence of characters.
#[verifier::ext_equal]
pub enum Act {
    Print(Seq<char>),
    Warn(Seq<char>),
    Foreground(i32),
    Resume(i32),
    Reply(ShellMsg),
    Exit(i32),
}

impl View for Effect {
    type V = Act;

    open spec fn view(&self) -> Act {
        match *self {
            Effect::Print(t) => Act::Print(t@),
            Effect::Warn(t) => Act::Warn(t@),
            Effect::Foreground(g) => Act::Foreground(g),
            Effect::Resume(g) => Act::Resume(g),
            Effect::Reply(m) => Act::Reply(m),
            Effect::Exit(n) => Act::Exit(n),
        }
    }
}

/// What effects ask for.
pub open spec fn acts(v: Seq<Effect>) -> Seq<Act> {
    v.map_values(|e: Effect| e@)
}

/// Whether `after` asks for what `before` did and then for `new`.
pub open spec fn adds(before: Seq<Effect>, after: Seq<Effect>, new: Seq<Act>) -> bool {
    acts(after) == acts(before) + new
}

/// Asks for one more thing.
pub fn ask(out: &mut Vec<Effect>, e: Effect)
    ensures
        adds(old(out)@, final(out)@, seq![e@]),
{
    let ghost before = out@;
    out.push(e);
    proof {
        assert(acts(out@) =~= acts(before) + seq![e@]);
    }
}

/// A line about a job: its number between `open` and `mid`, then its command line.
pub open spec fn job_line(open: Seq<char>, id: usize, mid: Seq<char>, line: Seq<char>) -> Seq<
    char,
> {
    open + decimal(id as nat) + mid + line
}

/// Writes a line about a job.
pub fn job_text(open: &str, id: usize, mid: &str, line: &str) -> (r: String)
    ensures
        r@ == job_line(open@, id, mid@, line@),
{
    let mut s: String = open.to_owned();
    s.append(decimal_text(id as u64).as_str());
    s.append(mid);
    s.append(line);
    s
}

/// Two texts, one after the other.
pub fn join(a: &str, b: &str) -> (r: String)
    ensures
        r@ == a@ + b@,
{
    let mut s: String = a.to_owned();
    s.append(b);
    s
}

/// The line about a process that a signal ended.
pub open spec fn killed_line(pid: i32, signal: Seq<char>, core: bool) -> Seq<char> {
    "プロセス "@ + integer(pid as int) + " がシグナル "@ + signal + " で終了しました"@ + (if core {
        "(コアダンプ)"@
    } else {
        ""@
    })
}

/// Writes the line about a process that a signal ended.
pub fn killed_text(pid: i32, signal: &str, core: bool) -> (r: String)
    ensures
        r@ == killed_line(pid, signal@, core),
{
    let mut s: String = "プロセス ".to_owned();
    s.append(integer_text(pid).as_str());
    s.append(" がシグナル ");
    s.append(signal);
    s.append(" で終了しました");
    s.append(if core {
        "(コアダンプ)"
    } else {
        ""
    });
    s
}

} // verus!
