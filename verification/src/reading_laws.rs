//! What the reading side does with what it reads and hears, and what texts and effects stand for.
use crate::effect::{acts, adds, job_line, killed_line, Act, Effect, ShellMsg};
use crate::line_laws::law_trimmed;
use crate::number::{decimal, integer};
use crate::number_laws::law_texts_differ;
use crate::parse::programs;
use crate::service::{signal_leads_to, Next};
use crate::shell::{
    answer_leads_to, prompt_line, read_leads_to, AnswerStep, Heard, Memory, ReadEvent, ReadStep,
};
use crate::text::{blank, texts, white_space};
use vstd::prelude::*;

verus! {

/// A blank line is passed over. Any other is handed over as it is, and the history keeps what is
/// left of it without the white space at its ends: no white space is left there, and nothing but
/// white space was taken off.
pub proof fn law_line_is_handed_over(text: String, step: ReadStep)
    requires
        read_leads_to(ReadEvent::Line(text), step),
    ensures
        blank(text@) <==> step is Again,
        !blank(text@) ==> {
            &&& step is Submit
            &&& step->Submit_line@ == text@
            &&& step->entry@.len() > 0
            &&& !white_space(step->entry@[0])
            &&& !white_space(step->entry@.last())
            &&& exists|a: int, b: int|
                0 <= a <= b <= text@.len() && step->entry@ == #[trigger] text@.subrange(a, b)
                    && blank(text@.take(a)) && blank(text@.skip(b))
        },
{
    law_trimmed(text@);
}

/// An interruption is answered with how to leave; the end of the input is the line `exit`; and a
/// failure is shown and leaves with the code 1.
pub proof fn law_other_reads(event: ReadEvent, step: ReadStep)
    requires
        read_leads_to(event, step),
    ensures
        event is Interrupted ==> (step matches ReadStep::Warn(text) && text@
            == "ZeroSh: 終了はCtrl + D"@),
        event is Eof ==> (step matches ReadStep::SubmitLast { line } && line@ == "exit"@),
        event matches ReadEvent::Failed(e) ==> (step matches ReadStep::Leave { warning, code }
            && warning@ == "Zerosh: 組み込みエラー\n"@ + e@ && code == 1),
{
}

/// The end of the input has to be answered by leaving, and nothing else has; whether it was
/// reached is told by the last read alone.
pub proof fn law_end_of_input_is_remembered(
    m: Memory,
    event: ReadEvent,
    answer: ShellMsg,
    msg: ShellMsg,
)
    ensures
        m.after(Heard::Read(event)).allows(msg) <==> !(event is Eof) || msg is Quit,
        m.after(Heard::Answer(answer)).allows(msg) <==> m.allows(msg),
        Memory::initial().allows(msg),
{
}

/// The shell reads on or leaves as the answer says, and with its code.
pub proof fn law_answers_are_followed(code: i32)
    ensures
        answer_leads_to(ShellMsg::Continue(code)) == AnswerStep::Read(code),
        answer_leads_to(ShellMsg::Quit(code)) == AnswerStep::Leave(code),
{
}

/// Just the signal that tells of the child processes has them asked for; no other has anything
/// done.
pub proof fn law_signals(sig: i32, sigchld: i32, next: Next)
    requires
        signal_leads_to(sig, sigchld, next),
    ensures
        next is Reap <==> sig == sigchld,
        next is Reap || next is Listen,
{
}

/// The prompt depends on whether the code is 0, and on nothing else of it.
pub proof fn law_prompts(prev: i32, other: i32)
    ensures
        prev == 0 ==> prompt_line(prev) == "ZeroSh "@ + "\u{1F642}"@ + " %>"@,
        prev != 0 ==> prompt_line(prev) == "ZeroSh "@ + "\u{1F480}"@ + " %>"@,
        prompt_line(prev) == prompt_line(other) <==> (prev == 0 <==> other == 0),
{
    reveal_strlit("ZeroSh ");
    reveal_strlit("\u{1F642}");
    reveal_strlit("\u{1F480}");
    let smile = "ZeroSh "@ + "\u{1F642}"@ + " %>"@;
    let skull = "ZeroSh "@ + "\u{1F480}"@ + " %>"@;
    assert(smile[7] == '\u{1F642}');
    assert(skull[7] == '\u{1F480}');
}

/// An effect is described by its own text, group, answer or code.
pub proof fn law_effect_described(e: Effect)
    ensures
        match e {
            Effect::Print(text) => e@ == Act::Print(text@),
            Effect::Warn(text) => e@ == Act::Warn(text@),
            Effect::Foreground(pgid) => e@ == Act::Foreground(pgid),
            Effect::Resume(pgid) => e@ == Act::Resume(pgid),
            Effect::Reply(msg) => e@ == Act::Reply(msg),
            Effect::Exit(code) => e@ == Act::Exit(code),
        },
{
}

/// Each effect is described once, in its place; and what is added comes after all that was there,
/// which stays.
pub proof fn law_effects_in_order(before: Seq<Effect>, after: Seq<Effect>, new: Seq<Act>)
    ensures
        acts(after).len() == after.len(),
        forall|i: int| 0 <= i < after.len() ==> #[trigger] acts(after)[i] == after[i]@,
        adds(before, after, new) ==> {
            &&& after.len() == before.len() + new.len()
            &&& forall|i: int| 0 <= i < before.len() ==> (#[trigger] after[i])@ == before[i]@
            &&& forall|i: int|
                0 <= i < new.len() ==> (#[trigger] after[before.len() + i])@ == new[i]
        },
{
    if adds(before, after, new) {
        let all = acts(before) + new;
        assert(acts(after).len() == all.len());
        assert forall|i: int| 0 <= i < before.len() implies (#[trigger] after[i])@
            == before[i]@ by {
            assert(acts(after)[i] == after[i]@);
            assert(acts(before)[i] == before[i]@);
            assert(all[i] == acts(before)[i]);
        }
        assert forall|i: int| 0 <= i < new.len() implies (#[trigger] after[before.len() + i])@
            == new[i] by {
            assert(acts(after)[before.len() + i] == after[before.len() + i]@);
            assert(all[before.len() + i] == new[i]);
        }
    }
}

/// Borrowed texts and programs stand for what they hold, each in its place.
pub proof fn law_borrowed_texts(v: Seq<&str>, cmds: Seq<(&str, Vec<&str>)>)
    ensures
        texts(v).len() == v.len(),
        forall|i: int| 0 <= i < v.len() ==> #[trigger] texts(v)[i] == v[i]@,
        programs(cmds).len() == cmds.len(),
        forall|i: int|
            0 <= i < cmds.len() ==> (#[trigger] programs(cmds)[i]).0 == cmds[i].0@
                && programs(cmds)[i].1.len() == cmds[i].1@.len(),
        forall|i: int, j: int|
            0 <= i < cmds.len() && 0 <= j < cmds[i].1@.len() ==> #[trigger] programs(cmds)[i].1[j]
                == cmds[i].1@[j]@,
{
}

/// A line about a job ends with the line that started it and says its number in full before that;
/// of two jobs with the same line the lines about them differ.
pub proof fn law_job_lines_differ(
    open: Seq<char>,
    id: usize,
    other: usize,
    mid: Seq<char>,
    line: Seq<char>,
)
    ensures
        job_line(open, id, mid, line).take(open.len() as int) == open,
        job_line(open, id, mid, line).skip(open.len() as int) == decimal(id as nat) + mid + line,
        id != other ==> job_line(open, id, mid, line) != job_line(open, other, mid, line),
{
    let a = job_line(open, id, mid, line);
    let b = job_line(open, other, mid, line);
    assert(a.take(open.len() as int) =~= open);
    assert(a.skip(open.len() as int) =~= decimal(id as nat) + mid + line);
    if a == b {
        let n = decimal(id as nat);
        let m = decimal(other as nat);
        assert(n.len() == m.len());
        assert(a.subrange(open.len() as int, (open.len() + n.len()) as int) =~= n);
        assert(b.subrange(open.len() as int, (open.len() + m.len()) as int) =~= m);
        law_texts_differ(id as nat, other as nat);
    }
}

/// The line about a process that a signal ended names the process and the signal, and says that
/// the memory was saved just where it was.
pub proof fn law_killed_lines(pid: i32, signal: Seq<char>)
    ensures
        killed_line(pid, signal, false) == "プロセス "@ + integer(pid as int) + " がシグナル "@
            + signal + " で終了しました"@,
        killed_line(pid, signal, true) == killed_line(pid, signal, false) + "(コアダンプ)"@,
{
    reveal_strlit("");
    let text = "プロセス "@ + integer(pid as int) + " がシグナル "@ + signal + " で終了しました"@;
    assert(text + ""@ =~= text);
}

} // verus!
