//! What holds of jobs and of the terminal, whatever happens.
use crate::cd::{goes_to, CdTarget};
use crate::effect::{Act, ShellMsg};
use crate::launch::{Launch, LaunchStep};
use crate::line_laws::{
    all_free_of, command_text, free_of, is_word, is_writable, joined, law_decimal_read_back,
    law_integer_read_back, law_plain_line, law_read_back, lemma_filter_all, lemma_integer_is_word,
    lemma_split_joined, program_text,
};
use crate::model::{Group, ProcState, State};
use crate::number::{decimal, integer};
use crate::parse::{command, is_command, program_words, ParseError, Program};
use crate::service::{built_in, Command, Next};
use crate::syscall::SysError;
use crate::text::{white_space, words};
use crate::wait::WaitStatus;
use std::path::PathBuf;
use vstd::prelude::*;

verus! {

/// Whether an effect is an answer to the reading side.
pub open spec fn answer_in(x: Act) -> nat {
    if x is Reply {
        1
    } else {
        0
    }
}

/// How many answers the reading side is given.
pub open spec fn answers(a: Seq<Act>) -> nat
    decreases a.len(),
{
    if a.len() == 0 {
        0
    } else {
        answers(a.drop_last()) + answer_in(a.last())
    }
}

/// Who has the terminal after `x`, where `owner` had it before.
pub open spec fn passed_on(owner: i32, x: Act) -> i32 {
    match x {
        Act::Foreground(g) => g,
        _ => owner,
    }
}

/// Who has the terminal after `a`, where `owner` had it before.
pub open spec fn terminal(owner: i32, a: Seq<Act>) -> i32
    decreases a.len(),
{
    if a.len() == 0 {
        owner
    } else {
        passed_on(terminal(owner, a.drop_last()), a.last())
    }
}

/// Who has the terminal, as the tables say.
pub open spec fn owner(s: State) -> i32 {
    match s.fg {
        Some(g) => g,
        None => s.shell_pgid,
    }
}

/// One more thing is asked for.
proof fn lemma_one_more(o: i32, a: Seq<Act>, x: Act)
    ensures
        answers(a.push(x)) == answers(a) + answer_in(x),
        terminal(o, a.push(x)) == passed_on(terminal(o, a), x),
{
    assert(a.push(x).drop_last() =~= a);
}

/// At most three things are asked for.
proof fn lemma_few(o: i32, a: Seq<Act>)
    requires
        a.len() <= 3,
    ensures
        a.len() == 0 ==> answers(a) == 0 && terminal(o, a) == o,
        a.len() == 1 ==> answers(a) == answer_in(a[0]) && terminal(o, a) == passed_on(o, a[0]),
        a.len() == 2 ==> answers(a) == answer_in(a[0]) + answer_in(a[1]) && terminal(o, a)
            == passed_on(passed_on(o, a[0]), a[1]),
        a.len() == 3 ==> answers(a) == answer_in(a[0]) + answer_in(a[1]) + answer_in(a[2])
            && terminal(o, a) == passed_on(passed_on(passed_on(o, a[0]), a[1]), a[2]),
{
    reveal_with_fuel(answers, 4);
    reveal_with_fuel(terminal, 4);
}

/// Lines that are only shown.
proof fn lemma_quiet(o: i32, a: Seq<Act>)
    requires
        forall|i: int| 0 <= i < a.len() ==> (#[trigger] a[i]) is Print,
    ensures
        answers(a) == 0,
        terminal(o, a) == o,
    decreases a.len(),
{
    if a.len() > 0 {
        let b = a.drop_last();
        assert forall|i: int| 0 <= i < b.len() implies (#[trigger] b[i]) is Print by {
            assert(b[i] == a[i]);
        }
        lemma_quiet(o, b);
        assert(a[a.len() - 1] is Print);
    }
}

proof fn lemma_exit_command(s: State, args: Seq<Seq<char>>)
    ensures
        answers(s.exit_command(args).1) == 1,
        terminal(owner(s), s.exit_command(args).1) == owner(s),
        s.exit_command(args).0.fg == s.fg,
{
    lemma_few(owner(s), s.exit_command(args).1);
}

proof fn lemma_fg_command(s: State, args: Seq<Seq<char>>)
    ensures
        s.fg is None ==> answers(s.fg_command(args).1) == (if s.fg_command(args).0.fg is None {
            1nat
        } else {
            0nat
        }),
        terminal(owner(s), s.fg_command(args).1) == owner(s.fg_command(args).0),
{
    lemma_few(owner(s), s.fg_command(args).1);
}

proof fn lemma_jobs_command(s: State)
    ensures
        answers(s.jobs_command().1) == 1,
        terminal(owner(s), s.jobs_command().1) == owner(s),
        s.jobs_command().0.fg == s.fg,
{
    let shown = s.ids().map_values(|id: usize| s.listed(id));
    lemma_quiet(owner(s), shown);
    lemma_one_more(owner(s), shown, Act::Reply(ShellMsg::Continue(0)));
}

proof fn lemma_refused(s: State, text: Seq<char>)
    ensures
        answers(s.refused(text)) == 1,
        terminal(owner(s), s.refused(text)) == owner(s),
{
    lemma_few(owner(s), s.refused(text));
}

/// How a command line is answered, and where the terminal is then.
proof fn lemma_line_acts(s: State, line: Seq<char>)
    ensures
        ({
            let (t, a) = s.line_read(line);
            let cmd = command(line);
            let listens = !is_command(line) || (if built_in(cmd) is Some {
                built_in(cmd) != Some(Command::Cd)
            } else {
                s.launch_refusal(cmd.len()) is Some
            });
            &&& listens && s.fg is None ==> answers(a) == (if t.fg is None {
                1nat
            } else {
                0nat
            })
            &&& !listens ==> answers(a) == 0 && t == s
            &&& terminal(owner(s), a) == owner(t)
        }),
{
    let cmd = command(line);
    lemma_few(owner(s), seq![]);
    if is_command(line) {
        lemma_exit_command(s, cmd[0].1);
        lemma_fg_command(s, cmd[0].1);
        lemma_jobs_command(s);
        if let Some(text) = s.launch_refusal(cmd.len()) {
            lemma_refused(s, text);
        }
    } else {
        lemma_refused(s, "ZeroSh: "@ + ParseError::EmptyCommand.text());
    }
}

/// A command line is answered once, unless it gives the terminal away or leaves something to be
/// done first; then it is not answered yet.
pub proof fn law_line_answered(s: State, line: Seq<char>, next: Next)
    requires
        s.fg is None,
        s.line_leaves(line, next),
    ensures
        next is Listen ==> answers(s.line_read(line).1) == (if s.line_read(line).0.fg is None {
            1nat
        } else {
            0nat
        }),
        !(next is Listen) ==> answers(s.line_read(line).1) == 0 && s.line_read(line).0 == s,
{
    lemma_line_acts(s, line);
}

/// The start of a job is answered once where it fails, and not at all where the job gets the
/// terminal.
pub proof fn law_start_answered(
    s: State,
    l: Launch,
    line: Seq<char>,
    result: Result<i32, Seq<char>>,
)
    ensures
        ({
            let (t, _, step) = s.forked(l, line, result);
            let n = answers(s.fork_answered(l, line, result));
            match step {
                LaunchStep::More(_) => n == 0 && t == s,
                LaunchStep::Failed => n == 1 && t == s,
                LaunchStep::Started => n == 0 && t.fg is Some,
            }
        }),
{
    let a = s.forked(l, line, result).1;
    lemma_few(owner(s), seq![]);
    if a.len() > 0 {
        lemma_few(owner(s), a);
        lemma_one_more(owner(s), a, Act::Reply(ShellMsg::Continue(s.exit_val)));
    }
}

/// The command `cd` is answered once, and the terminal stays where it is.
pub proof fn law_cd_answered(s: State, failure: Option<Seq<char>>)
    ensures
        answers(s.moved(failure).1) == 1,
        s.moved(failure).0.fg == s.fg,
        terminal(owner(s), s.moved(failure).1) == owner(s.moved(failure).0),
{
    lemma_few(owner(s), s.moved(failure).1);
}

proof fn lemma_managed_acts(s: State, id: usize, pgid: i32)
    ensures
        answers(s.managed(id, pgid).1) == (if s.fg is Some && s.managed(id, pgid).0.fg is None {
            1nat
        } else {
            0nat
        }),
        s.managed(id, pgid).0.fg is Some ==> s.managed(id, pgid).0.fg == s.fg,
        s.managed(id, pgid).0.shell_pgid == s.shell_pgid,
        terminal(owner(s), s.managed(id, pgid).1) == owner(s.managed(id, pgid).0),
{
    lemma_few(owner(s), s.managed(id, pgid).1);
}

/// First `x`, then `a`.
proof fn lemma_first(o: i32, x: Act, a: Seq<Act>)
    requires
        x is Warn,
    ensures
        answers(seq![x] + a) == answers(a),
        terminal(o, seq![x] + a) == terminal(o, a),
    decreases a.len(),
{
    lemma_few(o, a.take(0));
    lemma_few(o, seq![x]);
    if a.len() == 0 {
        assert(a.take(0) =~= a);
        assert(seq![x] + a =~= seq![x]);
    } else {
        lemma_first(o, x, a.drop_last());
        assert((seq![x] + a).drop_last() =~= seq![x] + a.drop_last());
    }
}

/// While a job has the terminal, the reading side is answered just when the terminal goes back to
/// the shell; what the system says of the processes never gives it to another job.
pub proof fn law_wait_answered(s: State, answer: Result<WaitStatus, SysError>)
    ensures
        answers(s.waited(answer).1) == (if s.fg is Some && s.waited(answer).0.fg is None {
            1nat
        } else {
            0nat
        }),
        s.waited(answer).0.fg is Some ==> s.waited(answer).0.fg == s.fg,
        terminal(owner(s), s.waited(answer).1) == owner(s.waited(answer).0),
{
    lemma_few(owner(s), seq![]);
    match answer {
        Ok(WaitStatus::Exited(pid, code)) => {
            lemma_ended_acts(s.with_exit(code), pid);
        },
        Ok(WaitStatus::Signaled(pid, sig, name, core)) => {
            let u = s.with_exit((sig + 128) as i32);
            lemma_ended_acts(u, pid);
            let a = s.killed(pid, sig, name@, core).1;
            lemma_first(owner(s), a[0], u.ended(pid).1);
        },
        Ok(WaitStatus::Stopped(pid, _)) => {
            lemma_stopped_acts(s, pid);
        },
        Ok(WaitStatus::PtraceEvent(pid, _, _)) => {
            lemma_stopped_acts(s, pid);
        },
        Ok(WaitStatus::PtraceSyscall(pid)) => {
            lemma_stopped_acts(s, pid);
        },
        Err(e) => {
            lemma_few(owner(s), s.waited(answer).1);
        },
        _ => {},
    }
}

proof fn lemma_ended_acts(s: State, pid: i32)
    ensures
        answers(s.ended(pid).1) == (if s.fg is Some && s.ended(pid).0.fg is None {
            1nat
        } else {
            0nat
        }),
        s.ended(pid).0.fg is Some ==> s.ended(pid).0.fg == s.fg,
        s.ended(pid).0.shell_pgid == s.shell_pgid,
        terminal(owner(s), s.ended(pid).1) == owner(s.ended(pid).0),
{
    lemma_few(owner(s), seq![]);
    if s.knows(pid) {
        let pgid = s.procs[pid].pgid;
        lemma_managed_acts(s.without_pid(pid), s.groups[pgid].job, pgid);
    }
}

proof fn lemma_stopped_acts(s: State, pid: i32)
    ensures
        answers(s.stopped(pid).1) == (if s.fg is Some && s.stopped(pid).0.fg is None {
            1nat
        } else {
            0nat
        }),
        s.stopped(pid).0.fg is Some ==> s.stopped(pid).0.fg == s.fg,
        s.stopped(pid).0.shell_pgid == s.shell_pgid,
        terminal(owner(s), s.stopped(pid).1) == owner(s.stopped(pid).0),
{
    let pgid = s.procs[pid].pgid;
    lemma_managed_acts(
        s.with_state(pid, ProcState::Stop),
        s.groups[pgid].job,
        pgid,
    );
}

/// After a command line the terminal is with whom the tables say, if it was so before.
pub proof fn law_terminal_after_line(s: State, line: Seq<char>)
    ensures
        terminal(owner(s), s.line_read(line).1) == owner(s.line_read(line).0),
{
    lemma_line_acts(s, line);
}

/// After a step of the start of a job the terminal is with whom the tables say, if it was so
/// before.
pub proof fn law_terminal_after_start(
    s: State,
    l: Launch,
    line: Seq<char>,
    result: Result<i32, Seq<char>>,
)
    ensures
        terminal(owner(s), s.fork_answered(l, line, result)) == owner(s.forked(l, line, result).0),
{
    let a = s.forked(l, line, result).1;
    lemma_few(owner(s), a);
    if a.len() > 0 {
        lemma_one_more(owner(s), a, Act::Reply(ShellMsg::Continue(s.exit_val)));
    }
}

/// While there is a job, `exit` is refused whatever its arguments: the tables stay as they are and
/// the shell reads on with the code 1.
pub proof fn law_exit_refused(s: State, args: Seq<Seq<char>>)
    requires
        !s.jobs.dom().is_empty(),
    ensures
        s.exit_command(args).0 == (State { exit_val: 1, ..s }),
        s.exit_command(args).1.last() == Act::Reply(ShellMsg::Continue(1)),
        answers(s.exit_command(args).1) == 1,
{
    lemma_exit_command(s, args);
}

/// The shell is told to leave only where no job, no group and no process is left.
pub proof fn law_leaves_nothing_behind(s: State, line: Seq<char>, n: i32)
    requires
        s.wf(),
        s.line_read(line).1.contains(Act::Reply(ShellMsg::Quit(n))),
    ensures
        s.jobs.dom().is_empty(),
        s.groups.dom().is_empty(),
        s.procs.dom().is_empty(),
        s.line_read(line).0 == s,
{
    let a = s.line_read(line).1;
    let cmd = command(line);
    let i = choose|i: int| 0 <= i < a.len() && a[i] == Act::Reply(ShellMsg::Quit(n));
    if is_command(line) && built_in(cmd) == Some(Command::Jobs) {
        let shown = s.ids().map_values(|id: usize| s.listed(id));
        assert(a == shown.push(Act::Reply(ShellMsg::Continue(0))));
        if i < shown.len() {
            assert(shown[i] == s.listed(s.ids()[i]));
        }
        assert(false);
    }
    assert(is_command(line) && built_in(cmd) == Some(Command::Exit));
    assert forall|g: i32| !s.groups.dom().contains(g) by {
        if s.groups.contains_key(g) {
            assert(s.jobs.contains_key(s.groups[g].job));
            assert(s.jobs.dom().contains(s.groups[g].job));
        }
    }
    assert forall|p: i32| !s.procs.dom().contains(p) by {
        if s.procs.contains_key(p) {
            assert(s.groups.dom().contains(s.procs[p].pgid));
        }
    }
    assert(s.groups.dom() =~= Set::empty());
    assert(s.procs.dom() =~= Set::empty());
}

/// The line that stands for the end of the input is the command `exit` without arguments.
pub proof fn law_end_of_input(s: State)
    ensures
        s.line_read("exit"@) == s.exit_command(seq![]),
{
    let line = "exit"@;
    reveal_strlit("exit");
    let white = |c: char| white_space(c);
    assert(!white_space(line[0]));
    assert(free_of(line, |c: char| c == '|'));
    assert(free_of(line, white));
    law_plain_line(line);
    let one = seq![line];
    assert(all_free_of(one, white)) by {
        assert(one[0] == line);
    }
    lemma_split_joined(one, ' ', white);
    lemma_filter_all(one);
    assert(words(line) == one);
    assert(one.skip(1) =~= seq![]);
    assert(command(line)[0].0 == "exit"@);
}

/// The numbers that `jobs` shows increase, and they are the numbers of all jobs.
pub proof fn law_listing(s: State)
    ensures
        forall|i: int, j: int| 0 <= i < j < s.ids().len() ==> s.ids()[i] < s.ids()[j],
        forall|id: usize| s.ids().contains(id) <==> s.jobs.contains_key(id),
{
    let all = (usize::MAX + 1) as nat;
    lemma_listing(s, all);
    assert forall|id: usize| s.ids().contains(id) <==> s.jobs.contains_key(id) by {
        assert(id < all);
    }
}

proof fn lemma_listing(s: State, n: nat)
    requires
        n <= usize::MAX + 1,
    ensures
        forall|i: int, j: int|
            0 <= i < j < s.ids_below(n).len() ==> s.ids_below(n)[i] < s.ids_below(n)[j],
        forall|id: usize| #[trigger]
            s.ids_below(n).contains(id) <==> s.jobs.contains_key(id) && id < n,
    decreases n,
{
    if n > 0 {
        let m = (n - 1) as nat;
        lemma_listing(s, m);
        let before = s.ids_below(m);
        let after = s.ids_below(n);
        assert forall|i: int| 0 <= i < before.len() implies #[trigger] before[i] < m by {
            assert(before.contains(before[i]));
        }
        assert forall|id: usize| #[trigger] after.contains(id) <==> s.jobs.contains_key(id) && id
            < n by {
            if s.jobs.contains_key(m as usize) {
                assert(after == before.push(m as usize));
                assert(after[after.len() - 1] == m as usize);
                if after.contains(id) {
                    let i = choose|i: int| 0 <= i < after.len() && after[i] == id;
                    if i < before.len() {
                        assert(before[i] == id);
                        assert(before.contains(id));
                    }
                }
                if before.contains(id) {
                    let i = choose|i: int| 0 <= i < before.len() && before[i] == id;
                    assert(after[i] == id);
                }
                if id == m {
                    assert(after.contains(id));
                } else {
                    assert(before.contains(id) <==> s.jobs.contains_key(id) && id < m);
                }
            } else {
                assert(before.contains(id) <==> s.jobs.contains_key(id) && id < m);
            }
        }
    }
}

/// A number as `jobs` shows it names that job to `fg`, where it is the second argument.
pub proof fn law_shown_number_names_job(s: State, args: Seq<Seq<char>>, id: usize)
    requires
        s.jobs.contains_key(id),
        args.len() >= 2,
        args[1] == decimal(id as nat),
    ensures
        s.named_job(args) == Some(id),
        s.fg_command(args).0.fg == Some(s.jobs[id].pgid),
{
    law_decimal_read_back(id as nat);
}

/// A line of a name and two arguments is read as just that.
proof fn lemma_typed(name: Seq<char>, first: Seq<char>, second: Seq<char>)
    requires
        is_word(name),
        is_word(first),
        is_word(second),
    ensures
        is_command(name.push(' ') + first.push(' ') + second),
        command(name.push(' ') + first.push(' ') + second) == seq![(name, seq![first, second])],
{
    let p: Program = (name, seq![first, second]);
    let w = program_words(p);
    assert(w =~= seq![name, first, second]);
    assert forall|i: int| 0 <= i < w.len() implies is_word(#[trigger] w[i]) by {
        assert(w[i] == name || w[i] == first || w[i] == second);
    }
    let one = seq![p];
    assert(is_writable(one[0]));
    law_read_back(one);
    let two = seq![name, first];
    assert(w.drop_last() =~= two);
    assert(two.drop_last() =~= seq![name]);
    assert(joined(seq![name], ' ') == name);
    assert(joined(two, ' ') == name.push(' ') + first);
    assert(program_text(p) =~= name.push(' ') + first.push(' ') + second);
    let parts = one.map_values(|q: Program| program_text(q));
    assert(parts[0] == program_text(p));
    assert(command_text(one) == program_text(p));
}

/// The line `fg` with any word and then a number as `jobs` shows it gives the terminal to that job
/// and lets it go on.
pub proof fn law_typed_number_names_job(s: State, word: Seq<char>, id: usize)
    requires
        s.jobs.contains_key(id),
        is_word(word),
    ensures
        ({
            let line = "fg "@ + word + " "@ + decimal(id as nat);
            &&& s.line_read(line) == s.fg_command(seq![word, decimal(id as nat)])
            &&& s.line_read(line).0.fg == Some(s.jobs[id].pgid)
            &&& s.line_read(line).1.last() == Act::Resume(s.jobs[id].pgid)
        }),
{
    let name = "fg"@;
    let number = decimal(id as nat);
    reveal_strlit("fg");
    reveal_strlit("fg ");
    reveal_strlit(" ");
    reveal_strlit("exit");
    reveal_strlit("jobs");
    assert("fg "@ + word + " "@ + number =~= name.push(' ') + word.push(' ') + number);
    assert(is_word(name));
    lemma_integer_is_word(id as int);
    assert(number == integer(id as int));
    lemma_typed(name, word, number);
    assert(name.len() != "exit"@.len() && name.len() != "jobs"@.len());
    law_shown_number_names_job(s, seq![word, number], id);
}

/// Where there is no job, the line `exit` with any word and then a number leaves with that number.
pub proof fn law_typed_exit_code(s: State, word: Seq<char>, code: i32)
    requires
        s.jobs.dom().is_empty(),
        is_word(word),
    ensures
        s.line_read("exit "@ + word + " "@ + integer(code as int)) == (
            s,
            seq![Act::Reply(ShellMsg::Quit(code))],
        ),
{
    let name = "exit"@;
    let number = integer(code as int);
    reveal_strlit("exit");
    reveal_strlit("exit ");
    reveal_strlit(" ");
    assert("exit "@ + word + " "@ + number =~= name.push(' ') + word.push(' ') + number);
    assert(is_word(name));
    lemma_integer_is_word(code as int);
    lemma_typed(name, word, number);
    law_integer_read_back(code as int);
}

/// The state that a process was in can be put back, and nothing else has changed.
pub proof fn law_state_put_back(s: State, pid: i32, state: ProcState)
    requires
        s.procs.contains_key(pid),
    ensures
        s.with_state(pid, state).with_state(pid, s.procs[pid].state) == s,
{
    let t = s.with_state(pid, state).with_state(pid, s.procs[pid].state);
    assert(t.procs =~= s.procs);
}

/// A process that was taken out is not known any more, and taking it out again changes nothing.
pub proof fn law_taken_out_once(s: State, pid: i32)
    ensures
        !s.without_pid(pid).knows(pid),
        s.without_pid(pid).without_pid(pid) == s.without_pid(pid),
{
}

/// What follows the first argument of `cd` does not matter.
pub proof fn law_cd_ignores_rest(
    args: Seq<Seq<char>>,
    more: Seq<Seq<char>>,
    home: Option<PathBuf>,
    to: CdTarget,
)
    requires
        args.len() == 2,
    ensures
        goes_to(args + more, home, to) <==> goes_to(args, home, to),
{
    assert((args + more)[1] == args[1]);
}

/// A new job leaves the jobs, groups and processes that were there as they are.
pub proof fn law_start_keeps_jobs(
    s: State,
    id: usize,
    pgid: i32,
    pids: Set<i32>,
    line: Seq<char>,
)
    requires
        s.fresh_job(id, pgid, State::running(pgid, pids)),
    ensures
        s.jobs.submap_of(s.started(id, pgid, pids, line).0.jobs),
        s.groups.submap_of(s.started(id, pgid, pids, line).0.groups),
        s.procs.submap_of(s.started(id, pgid, pids, line).0.procs),
{
}

/// A process that stops leaves the jobs and the groups as they are.
pub proof fn law_stop_keeps_jobs(s: State, pid: i32)
    requires
        s.wf(),
        s.procs.contains_key(pid),
    ensures
        s.stopped(pid).0.jobs == s.jobs,
        s.stopped(pid).0.groups == s.groups,
        s.stopped(pid).0.procs == s.with_state(pid, ProcState::Stop).procs,
{
    assert(s.groups[s.procs[pid].pgid].pids.contains(pid));
}

/// A job ends with the last of its processes, and not before.
pub proof fn law_last_process_ends_job(s: State, pid: i32)
    requires
        s.wf(),
        s.procs.contains_key(pid),
    ensures
        ({
            let pgid = s.procs[pid].pgid;
            let group = s.groups[pgid];
            &&& s.ended(pid).0.procs == s.procs.remove(pid)
            &&& if group.pids == set![pid] {
                &&& s.ended(pid).0.jobs == s.jobs.remove(group.job)
                &&& s.ended(pid).0.groups == s.groups.remove(pgid)
            } else {
                &&& s.ended(pid).0.jobs == s.jobs
                &&& s.ended(pid).0.groups == s.groups.insert(
                    pgid,
                    Group { job: group.job, pids: group.pids.remove(pid) },
                )
            }
        }),
{
    let pgid = s.procs[pid].pgid;
    let group = s.groups[pgid];
    let left = group.pids.remove(pid);
    let t = s.without_pid(pid);
    assert(group.pids.contains(pid));
    assert(s.jobs.contains_key(group.job) && s.jobs[group.job].pgid == pgid);
    if group.pids == set![pid] {
        assert(left =~= Set::empty());
        assert(t.group_empty(pgid));
        assert(t.groups.remove(pgid) =~= s.groups.remove(pgid));
    } else {
        if left.is_empty() {
            assert(group.pids =~= set![pid]);
        }
    }
}

/// A job in the foreground hands the terminal back just when none of its processes runs any more.
pub proof fn law_terminal_goes_back(s: State, pid: i32)
    requires
        s.wf(),
        s.procs.contains_key(pid),
        s.fg == Some(s.procs[pid].pgid),
    ensures
        ({
            let others_stopped = forall|p: i32| #[trigger]
                s.groups[s.procs[pid].pgid].pids.contains(p) && p != pid ==> s.procs[p].state
                    == ProcState::Stop;
            &&& s.ended(pid).0.fg is None <==> others_stopped
            &&& s.stopped(pid).0.fg is None <==> others_stopped
        }),
{
    let pgid = s.procs[pid].pgid;
    let pids = s.groups[pgid].pids;
    assert(pids.contains(pid));
    let others_stopped = forall|p: i32| #[trigger]
        pids.contains(p) && p != pid ==> s.procs[p].state == ProcState::Stop;
    let t = s.without_pid(pid);
    let u = s.with_state(pid, ProcState::Stop);
    assert(t.groups[pgid].pids == pids.remove(pid));
    if others_stopped {
        assert forall|p: i32| #[trigger] t.groups[pgid].pids.contains(p) implies t.procs[p].state
            == ProcState::Stop by {
            assert(pids.contains(p));
        }
        assert forall|p: i32| #[trigger] u.groups[pgid].pids.contains(p) implies u.procs[p].state
            == ProcState::Stop by {
            assert(pids.contains(p));
        }
    } else {
        let p = choose|p: i32| #[trigger]
            pids.contains(p) && p != pid && s.procs[p].state != ProcState::Stop;
        assert(t.groups[pgid].pids.contains(p));
        assert(u.groups[pgid].pids.contains(p));
        assert(!t.group_stopped(pgid));
        assert(!u.group_stopped(pgid));
        assert(!t.groups[pgid].pids.is_empty());
    }
}

/// The tables after processes ended one after the other, each with its code.
pub open spec fn all_ended(s: State, order: Seq<(i32, i32)>) -> State
    decreases order.len(),
{
    if order.len() == 0 {
        s
    } else {
        let (pid, code) = order.last();
        all_ended(s, order.drop_last()).with_exit(code).ended(pid).0
    }
}

/// The tables while `left` is left of a job that was started.
spec fn partly_ended(s: State, id: usize, pgid: i32, left: Set<i32>, line: Seq<char>) -> State {
    s.started(id, pgid, left, line).0
}

proof fn lemma_one_ends(s: State, id: usize, pgid: i32, left: Set<i32>, line: Seq<char>, pid: i32)
    requires
        !s.jobs.contains_key(id),
        !s.groups.contains_key(pgid),
        forall|p: i32| #[trigger] left.contains(p) ==> !s.procs.contains_key(p),
        left.contains(pid),
    ensures
        !left.remove(pid).is_empty() ==> partly_ended(s, id, pgid, left, line).ended(pid).0
            == partly_ended(s, id, pgid, left.remove(pid), line),
        left.remove(pid).is_empty() ==> partly_ended(s, id, pgid, left, line).ended(pid).0
            == s.with_shell_fg(),
{
    let rest = left.remove(pid);
    let t = partly_ended(s, id, pgid, left, line);
    let u = t.without_pid(pid);
    let v = partly_ended(s, id, pgid, rest, line);
    assert(State::running(pgid, left).dom() =~= left);
    assert(State::running(pgid, rest).dom() =~= rest);
    assert(t.procs[pid].pgid == pgid);
    assert(t.groups[pgid].pids == left);
    assert(u.groups[pgid].pids == rest);
    assert(u.procs =~= v.procs);
    assert(u.groups =~= v.groups);
    assert(u == v);
    if rest.is_empty() {
        assert(u.group_empty(pgid));
        let w = u.without_job(id);
        assert(w.jobs =~= s.jobs);
        assert(w.groups =~= s.groups);
        assert(w.procs =~= s.procs) by {
            assert(rest =~= Set::empty());
        }
    } else {
        let p = choose|p: i32| rest.contains(p);
        if forall|p: i32| !rest.contains(p) {
            assert(rest =~= Set::empty());
        }
        assert(rest.contains(p));
        assert(u.groups[pgid].pids.contains(p));
        assert(u.procs[p].state == ProcState::Run);
        assert(!u.group_stopped(pgid));
    }
}

/// The processes that have ended.
pub open spec fn ended_pids(order: Seq<(i32, i32)>) -> Seq<i32> {
    order.map_values(|e: (i32, i32)| e.0)
}

/// A job that was started and whose processes then all ended, in whatever order, leaves no trace:
/// the tables are as they were, the shell has the terminal, and the code is that of the process
/// that ended last.
pub proof fn law_job_leaves_no_trace(
    s: State,
    id: usize,
    pgid: i32,
    pids: Set<i32>,
    line: Seq<char>,
    order: Seq<(i32, i32)>,
)
    requires
        s.fresh_job(id, pgid, State::running(pgid, pids)),
        order.len() > 0,
        ended_pids(order).no_duplicates(),
        ended_pids(order).to_set() == pids,
    ensures
        all_ended(s.started(id, pgid, pids, line).0, order) == (State {
            exit_val: order.last().1,
            fg: None,
            ..s
        }),
{
    assert forall|p: i32| #[trigger] pids.contains(p) implies !s.procs.contains_key(p) by {
        assert(State::running(pgid, pids).contains_key(p));
    }
    lemma_some_end(s, id, pgid, pids, line, order, order.len() as int - 1);
    let k = order.len() - 1;
    let before = order.take(k);
    let (pid, code) = order.last();
    let left = pids.difference(ended_pids(before).to_set());
    let c = if k == 0 {
        s.exit_val
    } else {
        order[k - 1].1
    };
    assert(order.drop_last() =~= before);
    let ps = ended_pids(order);
    assert forall|p: i32| left.contains(p) <==> p == pid by {
        if left.contains(p) {
            assert(ps.to_set().contains(p));
            let i = choose|i: int| 0 <= i < ps.len() && ps[i] == p;
            if i < k {
                assert(ended_pids(before)[i] == p);
                assert(ended_pids(before).to_set().contains(p));
            }
        }
        if p == pid {
            assert(ps[k] == pid);
            assert(ps.to_set().contains(pid));
            if ended_pids(before).to_set().contains(pid) {
                let i = choose|i: int| 0 <= i < k && ended_pids(before)[i] == pid;
                assert(ps[i] == pid);
            }
        }
    }
    assert(left.remove(pid) =~= Set::empty());
    lemma_one_ends(s.with_exit(code), id, pgid, left, line, pid);
    assert(s.with_exit(c).with_exit(code) == s.with_exit(code));
}

/// The same, while some processes are left.
proof fn lemma_some_end(
    s: State,
    id: usize,
    pgid: i32,
    pids: Set<i32>,
    line: Seq<char>,
    order: Seq<(i32, i32)>,
    k: int,
)
    requires
        !s.jobs.contains_key(id),
        !s.groups.contains_key(pgid),
        forall|p: i32| #[trigger] pids.contains(p) ==> !s.procs.contains_key(p),
        0 <= k < order.len(),
        ended_pids(order).no_duplicates(),
        ended_pids(order).to_set() == pids,
    ensures
        all_ended(s.started(id, pgid, pids, line).0, order.take(k)) == partly_ended(
            s.with_exit(
                if k == 0 {
                    s.exit_val
                } else {
                    order[k - 1].1
                },
            ),
            id,
            pgid,
            pids.difference(ended_pids(order.take(k)).to_set()),
            line,
        ),
    decreases k,
{
    let done = ended_pids(order.take(k)).to_set();
    let left = pids.difference(done);
    if k == 0 {
        assert(order.take(0) =~= seq![]);
        assert(ended_pids(order.take(0)) =~= seq![]);
        assert(left =~= pids);
        assert(s.with_exit(s.exit_val) == s);
    } else {
        lemma_some_end(s, id, pgid, pids, line, order, k - 1);
        let ps = ended_pids(order);
        let before = order.take(k - 1);
        let was = pids.difference(ended_pids(before).to_set());
        let (pid, code) = order[k - 1];
        assert(order.take(k).drop_last() =~= before);
        assert(order.take(k).last() == order[k - 1]);
        assert(ps[k - 1] == pid);
        assert(ps.to_set().contains(pid));
        if ended_pids(before).to_set().contains(pid) {
            let i = choose|i: int| 0 <= i < k - 1 && ended_pids(before)[i] == pid;
            assert(ps[i] == pid);
        }
        assert(was.contains(pid));
        assert(ended_pids(order.take(k)) =~= ended_pids(before).push(pid));
        assert forall|p: i32| was.remove(pid).contains(p) <==> left.contains(p) by {
            let a = ended_pids(before);
            let b = ended_pids(order.take(k));
            if a.to_set().contains(p) {
                let i = choose|i: int| 0 <= i < a.len() && a[i] == p;
                assert(b[i] == p);
                assert(b.to_set().contains(p));
            }
            assert(b[k - 1] == pid);
            assert(b.to_set().contains(pid));
            if b.to_set().contains(p) && p != pid {
                let i = choose|i: int| 0 <= i < b.len() && b[i] == p;
                assert(a[i] == p);
                assert(a.to_set().contains(p));
            }
        }
        assert(was.remove(pid) =~= left);
        let next = ps[k];
        assert(ps.to_set().contains(next));
        if done.contains(next) {
            let i = choose|i: int| 0 <= i < k && ended_pids(order.take(k))[i] == next;
            assert(ps[i] == next);
        }
        assert(left.contains(next));
        lemma_one_ends(s.with_exit(code), id, pgid, was, line, pid);
    }
}

} // verus!
