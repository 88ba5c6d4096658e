//! What holds of command lines, whatever they hold.
use crate::number::{all_digits, decimal, integer, signed, unsigned, value};
use crate::parse::{command, is_command, program_of, program_words, stages, Program};
use crate::text::{
    blank, lemma_pieces_nonempty, lemma_trimmed, pieces, trimmed, white_space, words,
};
use vstd::prelude::*;

verus! {

/// Texts one after the other, with `c` between them.
pub open spec fn joined(parts: Seq<Seq<char>>, c: char) -> Seq<char>
    decreases parts.len(),
{
    if parts.len() == 0 {
        seq![]
    } else if parts.len() == 1 {
        parts[0]
    } else {
        joined(parts.drop_last(), c).push(c) + parts.last()
    }
}

/// Whether a text holds no separator.
pub open spec fn free_of(s: Seq<char>, sep: spec_fn(char) -> bool) -> bool {
    forall|i: int| 0 <= i < s.len() ==> !sep(#[trigger] s[i])
}

/// Whether no text holds a separator.
pub open spec fn all_free_of(parts: Seq<Seq<char>>, sep: spec_fn(char) -> bool) -> bool {
    forall|i: int| 0 <= i < parts.len() ==> free_of(#[trigger] parts[i], sep)
}

/// A text without a separator only makes the last piece longer.
proof fn lemma_pieces_extend(x: Seq<char>, y: Seq<char>, sep: spec_fn(char) -> bool)
    requires
        free_of(y, sep),
    ensures
        pieces(x + y, sep) == pieces(x, sep).drop_last().push(pieces(x, sep).last() + y),
    decreases y.len(),
{
    lemma_pieces_nonempty(x, sep);
    let p = pieces(x, sep);
    if y.len() == 0 {
        assert(x + y =~= x);
        assert(p.last() + y =~= p.last());
        assert(p.drop_last().push(p.last()) =~= p);
    } else {
        let z = y.drop_last();
        assert(free_of(z, sep)) by {
            assert forall|i: int| 0 <= i < z.len() implies !sep(#[trigger] z[i]) by {
                assert(z[i] == y[i]);
            }
        }
        lemma_pieces_extend(x, z, sep);
        assert((x + y).drop_last() =~= x + z);
        assert((x + y).last() == y.last());
        let q = pieces(x + z, sep);
        assert(q.drop_last() =~= p.drop_last());
        assert((p.last() + z).push(y.last()) =~= p.last() + y);
    }
}

/// Splitting what was joined gives back the parts.
pub proof fn lemma_split_joined(parts: Seq<Seq<char>>, c: char, sep: spec_fn(char) -> bool)
    requires
        parts.len() > 0,
        sep(c),
        all_free_of(parts, sep),
    ensures
        pieces(joined(parts, c), sep) == parts,
    decreases parts.len(),
{
    let empty = Seq::<char>::empty();
    if parts.len() == 1 {
        lemma_pieces_extend(empty, parts[0], sep);
        assert(empty + parts[0] =~= parts[0]);
        assert(pieces(parts[0], sep) =~= parts);
    } else {
        let before = parts.drop_last();
        assert(all_free_of(before, sep)) by {
            assert forall|i: int| 0 <= i < before.len() implies free_of(
                #[trigger] before[i],
                sep,
            ) by {
                assert(before[i] == parts[i]);
            }
        }
        lemma_split_joined(before, c, sep);
        let x = joined(before, c).push(c);
        assert(x.drop_last() =~= joined(before, c));
        assert(free_of(parts[parts.len() - 1], sep));
        lemma_pieces_extend(x, parts.last(), sep);
        assert(pieces(x, sep) =~= before.push(empty));
        assert(pieces(x, sep).drop_last() =~= before);
        assert(empty + parts.last() =~= parts.last());
        assert(before.push(parts.last()) =~= parts);
    }
}

/// No piece holds a separator.
proof fn lemma_pieces_free(s: Seq<char>, sep: spec_fn(char) -> bool)
    ensures
        all_free_of(pieces(s, sep), sep),
    decreases s.len(),
{
    let p = pieces(s, sep);
    if s.len() > 0 {
        let before = pieces(s.drop_last(), sep);
        lemma_pieces_free(s.drop_last(), sep);
        lemma_pieces_nonempty(s.drop_last(), sep);
        assert forall|i: int| 0 <= i < p.len() implies free_of(#[trigger] p[i], sep) by {
            if sep(s.last()) {
                if i < before.len() {
                    assert(p[i] == before[i]);
                }
            } else if i < before.len() - 1 {
                assert(p[i] == before[i]);
            } else {
                let longer = before.last().push(s.last());
                assert(free_of(before[before.len() - 1], sep));
                assert forall|k: int| 0 <= k < longer.len() implies !sep(#[trigger] longer[k]) by {
                    if k < longer.len() - 1 {
                        assert(longer[k] == before.last()[k]);
                    }
                }
            }
        }
    }
}

/// The pieces of a line, joined by pipes, are the line; and none of them holds a pipe.
pub proof fn law_pieces_rejoin(line: Seq<char>)
    ensures
        joined(pieces(line, |c: char| c == '|'), '|') == line,
        all_free_of(pieces(line, |c: char| c == '|'), |c: char| c == '|'),
    decreases line.len(),
{
    let bar = |c: char| c == '|';
    let p = pieces(line, bar);
    lemma_pieces_free(line, bar);
    if line.len() == 0 {
        assert(joined(p, '|') =~= line);
    } else {
        let shorter = line.drop_last();
        let before = pieces(shorter, bar);
        law_pieces_rejoin(shorter);
        lemma_pieces_nonempty(shorter, bar);
        assert(line =~= shorter.push(line.last()));
        if bar(line.last()) {
            assert(p.drop_last() =~= before);
            assert(joined(p, '|') =~= line);
        } else {
            assert(p.drop_last() =~= before.drop_last());
            assert(joined(p, '|') =~= joined(before, '|').push(line.last()));
        }
    }
}

/// Every word holds a character, and none of them is white space.
pub proof fn law_words_are_words(line: Seq<char>)
    ensures
        forall|i: int|
            #![trigger words(line)[i]]
            0 <= i < words(line).len() ==> words(line)[i].len() > 0 && free_of(
                words(line)[i],
                |c: char| white_space(c),
            ),
{
    let white = |c: char| white_space(c);
    let full = |w: Seq<char>| w.len() > 0;
    let p = pieces(line, white);
    lemma_pieces_free(line, white);
    assert forall|i: int| #![trigger words(line)[i]] 0 <= i < words(line).len() implies words(
        line,
    )[i].len() > 0 && free_of(words(line)[i], white) by {
        p.lemma_filter_contains_rev(full, words(line)[i]);
        p.lemma_filter_pred(full, i);
        let k = choose|k: int| 0 <= k < p.len() && p[k] == words(line)[i];
        assert(free_of(p[k], white));
    }
}

/// Texts one after the other.
pub open spec fn concat(parts: Seq<Seq<char>>) -> Seq<char>
    decreases parts.len(),
{
    if parts.len() == 0 {
        seq![]
    } else {
        concat(parts.drop_last()) + parts.last()
    }
}

/// The characters of a text that are no white space.
pub open spec fn ink(s: Seq<char>) -> Seq<char>
    decreases s.len(),
{
    if s.len() == 0 {
        seq![]
    } else if white_space(s.last()) {
        ink(s.drop_last())
    } else {
        ink(s.drop_last()).push(s.last())
    }
}

proof fn lemma_concat_pieces(s: Seq<char>)
    ensures
        concat(pieces(s, |c: char| white_space(c))) == ink(s),
    decreases s.len(),
{
    let white = |c: char| white_space(c);
    let p = pieces(s, white);
    if s.len() == 0 {
        let none = Seq::<Seq<char>>::empty();
        assert(p.drop_last() =~= none);
        assert(concat(none) =~= seq![]);
        assert(concat(p) =~= seq![]);
    } else {
        let shorter = s.drop_last();
        let before = pieces(shorter, white);
        lemma_concat_pieces(shorter);
        lemma_pieces_nonempty(shorter, white);
        if white(s.last()) {
            assert(p.drop_last() =~= before);
            assert(concat(p) =~= ink(s));
        } else {
            assert(p.drop_last() =~= before.drop_last());
            assert(concat(p) =~= concat(before).push(s.last()));
        }
    }
}

proof fn lemma_concat_full(parts: Seq<Seq<char>>)
    ensures
        concat(parts.filter(|w: Seq<char>| w.len() > 0)) == concat(parts),
    decreases parts.len(),
{
    let full = |w: Seq<char>| w.len() > 0;
    reveal(Seq::filter);
    if parts.len() > 0 {
        let before = parts.drop_last();
        lemma_concat_full(before);
        if parts.last().len() > 0 {
            assert(parts.filter(full).drop_last() =~= before.filter(full));
        } else {
            assert(concat(before) + parts.last() =~= concat(before));
        }
    }
}

/// The words of a line hold all of its characters that are no white space, in their order.
pub proof fn law_words_keep_everything(line: Seq<char>)
    ensures
        concat(words(line)) == ink(line),
{
    lemma_concat_pieces(line);
    lemma_concat_full(pieces(line, |c: char| white_space(c)));
}

proof fn lemma_ink_blank(s: Seq<char>)
    ensures
        ink(s).len() == 0 <==> blank(s),
    decreases s.len(),
{
    if s.len() > 0 {
        let t = s.drop_last();
        lemma_ink_blank(t);
        if blank(s) {
            assert forall|i: int| 0 <= i < t.len() implies white_space(#[trigger] t[i]) by {
                assert(t[i] == s[i]);
            }
            assert(white_space(s[s.len() - 1]));
        } else if blank(t) && white_space(s.last()) {
            assert forall|i: int| 0 <= i < s.len() implies white_space(#[trigger] s[i]) by {
                if i < t.len() {
                    assert(t[i] == s[i]);
                }
            }
        }
    }
}

/// A line has a word unless it is blank.
pub proof fn law_blank_has_no_word(line: Seq<char>)
    ensures
        words(line).len() == 0 <==> blank(line),
{
    law_words_keep_everything(line);
    law_words_are_words(line);
    lemma_ink_blank(line);
    let w = words(line);
    if w.len() > 0 {
        assert(w[w.len() - 1].len() > 0);
    }
}

/// The trimmed text of a line neither starts nor ends with white space, and it is empty just
/// where the line is blank.
pub proof fn law_trimmed(line: Seq<char>)
    ensures
        trimmed(line).len() == 0 <==> blank(line),
        trimmed(line).len() > 0 ==> !white_space(trimmed(line)[0]) && !white_space(
            trimmed(line).last(),
        ),
        exists|a: int, b: int|
            0 <= a <= b <= line.len() && trimmed(line) == #[trigger] line.subrange(a, b) && blank(
                line.take(a),
            ) && blank(line.skip(b)),
{
    if blank(line) {
        assert(line.take(0) =~= seq![]);
        assert(line.skip(0) =~= line);
        lemma_trimmed(line, 0, 0);
        assert(trimmed(line) == line.subrange(0, 0));
    } else {
        let (a, b) = lemma_ends(line);
        lemma_trimmed(line, a, b);
        assert(trimmed(line) == line.subrange(a, b));
    }
}

/// The first and the last character of a line that are no white space.
proof fn lemma_ends(line: Seq<char>) -> (r: (int, int))
    requires
        !blank(line),
    ensures
        0 <= r.0 < r.1 <= line.len(),
        blank(line.take(r.0)),
        blank(line.skip(r.1)),
        !white_space(line[r.0]),
        !white_space(line[r.1 - 1]),
    decreases line.len(),
{
    let last = line.len() - 1;
    if white_space(line[0]) {
        let t = line.skip(1);
        if blank(t) {
            assert forall|i: int| 0 <= i < line.len() implies white_space(#[trigger] line[i]) by {
                if i > 0 {
                    assert(t[i - 1] == line[i]);
                }
            }
        }
        let (a, b) = lemma_ends(t);
        assert forall|i: int| 0 <= i < a + 1 implies white_space(#[trigger] line.take(a + 1)[i]) by {
            if i > 0 {
                assert(t.take(a)[i - 1] == line[i]);
            }
        }
        assert(t.skip(b) =~= line.skip(b + 1));
        (a + 1, b + 1)
    } else if white_space(line[last]) {
        let t = line.drop_last();
        assert(!white_space(t[0]));
        let (a, b) = lemma_ends(t);
        assert(t.take(a) =~= line.take(a));
        assert forall|i: int| 0 <= i < line.len() - b implies white_space(
            #[trigger] line.skip(b)[i],
        ) by {
            if i < t.len() - b {
                assert(t.skip(b)[i] == line[b + i]);
            }
        }
        (a, b)
    } else {
        assert(line.take(0) =~= seq![]);
        assert(line.skip(line.len() as int) =~= seq![]);
        (0, line.len() as int)
    }
}

/// A line that is not blank and holds no pipe is a command of one program.
pub proof fn law_plain_line(line: Seq<char>)
    requires
        !blank(line),
        free_of(line, |c: char| c == '|'),
    ensures
        is_command(line),
        command(line) == seq![program_of(words(line))],
{
    let bar = |c: char| c == '|';
    let one = seq![line];
    assert(all_free_of(one, bar)) by {
        assert(one[0] == line);
    }
    lemma_split_joined(one, '|', bar);
    law_blank_has_no_word(line);
    assert(stages(line) =~= seq![words(line)]);
    assert(command(line) =~= seq![program_of(words(line))]);
}

/// A line is a command just where no part before, between or after its pipes is blank.
pub proof fn law_what_is_a_command(line: Seq<char>)
    ensures
        ({
            let parts = pieces(line, |c: char| c == '|');
            &&& is_command(line) <==> (forall|i: int|
                0 <= i < parts.len() ==> !blank(#[trigger] parts[i]))
            &&& command(line).len() == parts.len()
            &&& parts.len() > 0
        }),
{
    let p = pieces(line, |c: char| c == '|');
    lemma_pieces_nonempty(line, |c: char| c == '|');
    assert forall|i: int| 0 <= i < p.len() implies (stages(line)[i].len() == 0 <==> blank(
        #[trigger] p[i],
    )) by {
        law_blank_has_no_word(p[i]);
    }
    if forall|i: int| 0 <= i < p.len() ==> !blank(#[trigger] p[i]) {
        assert forall|i: int| 0 <= i < stages(line).len() implies (#[trigger] stages(line)[i]).len()
            > 0 by {
            assert(!blank(p[i]));
        }
    } else {
        let i = choose|i: int| 0 <= i < p.len() && blank(#[trigger] p[i]);
        assert(stages(line)[i].len() == 0);
    }
}

/// Whether a text can stand as a word of a command.
pub open spec fn is_word(w: Seq<char>) -> bool {
    &&& w.len() > 0
    &&& free_of(w, |c: char| white_space(c))
    &&& free_of(w, |c: char| c == '|')
}

/// Whether a program can be written in a command line.
pub open spec fn is_writable(p: Program) -> bool {
    forall|i: int| 0 <= i < program_words(p).len() ==> is_word(#[trigger] program_words(p)[i])
}

/// A program as text: its words with a space between them.
pub open spec fn program_text(p: Program) -> Seq<char> {
    joined(program_words(p), ' ')
}

/// A command line that names these programs.
pub open spec fn command_text(cmd: Seq<Program>) -> Seq<char> {
    joined(cmd.map_values(|p: Program| program_text(p)), '|')
}

proof fn lemma_joined_free(parts: Seq<Seq<char>>, c: char, sep: spec_fn(char) -> bool)
    requires
        all_free_of(parts, sep),
        !sep(c),
    ensures
        free_of(joined(parts, c), sep),
    decreases parts.len(),
{
    if parts.len() == 1 {
        assert(free_of(parts[0], sep));
    } else if parts.len() > 1 {
        let before = parts.drop_last();
        assert(all_free_of(before, sep)) by {
            assert forall|i: int| 0 <= i < before.len() implies free_of(
                #[trigger] before[i],
                sep,
            ) by {
                assert(before[i] == parts[i]);
            }
        }
        lemma_joined_free(before, c, sep);
        assert(free_of(parts[parts.len() - 1], sep));
        let x = joined(before, c);
        let all = joined(parts, c);
        assert forall|i: int| 0 <= i < all.len() implies !sep(#[trigger] all[i]) by {
            if i < x.len() {
                assert(all[i] == x[i]);
            } else if i > x.len() {
                assert(all[i] == parts.last()[i - x.len() - 1]);
            }
        }
    }
}

/// Texts that each hold a character are all kept.
pub proof fn lemma_filter_all(parts: Seq<Seq<char>>)
    requires
        forall|i: int| 0 <= i < parts.len() ==> (#[trigger] parts[i]).len() > 0,
    ensures
        parts.filter(|w: Seq<char>| w.len() > 0) == parts,
    decreases parts.len(),
{
    let full = |w: Seq<char>| w.len() > 0;
    reveal(Seq::filter);
    if parts.len() > 0 {
        let before = parts.drop_last();
        assert forall|i: int| 0 <= i < before.len() implies (#[trigger] before[i]).len() > 0 by {
            assert(before[i] == parts[i]);
        }
        lemma_filter_all(before);
        assert(parts[parts.len() - 1].len() > 0);
        assert(before.push(parts.last()) =~= parts);
    }
}

proof fn lemma_program_text(p: Program)
    requires
        is_writable(p),
    ensures
        words(program_text(p)) == program_words(p),
        free_of(program_text(p), |c: char| c == '|'),
{
    let white = |c: char| white_space(c);
    let bar = |c: char| c == '|';
    let w = program_words(p);
    assert forall|i: int| 0 <= i < w.len() implies free_of(#[trigger] w[i], white) by {
        assert(is_word(w[i]));
    }
    assert forall|i: int| 0 <= i < w.len() implies free_of(#[trigger] w[i], bar) by {
        assert(is_word(w[i]));
    }
    assert forall|i: int| 0 <= i < w.len() implies (#[trigger] w[i]).len() > 0 by {
        assert(is_word(w[i]));
    }
    lemma_split_joined(w, ' ', white);
    lemma_filter_all(w);
    lemma_joined_free(w, ' ', bar);
}

/// Reading a command line gives back the programs that it was written from.
pub proof fn law_read_back(cmd: Seq<Program>)
    requires
        cmd.len() > 0,
        forall|i: int| 0 <= i < cmd.len() ==> is_writable(#[trigger] cmd[i]),
    ensures
        is_command(command_text(cmd)),
        command(command_text(cmd)) == cmd,
{
    let bar = |c: char| c == '|';
    let parts = cmd.map_values(|p: Program| program_text(p));
    let line = command_text(cmd);
    assert forall|i: int| 0 <= i < parts.len() implies free_of(#[trigger] parts[i], bar) by {
        assert(is_writable(cmd[i]));
        lemma_program_text(cmd[i]);
    }
    lemma_split_joined(parts, '|', bar);
    assert forall|i: int| 0 <= i < stages(line).len() implies (#[trigger] stages(line)[i]).len() > 0
        && program_of(stages(line)[i]) == cmd[i] by {
        assert(is_writable(cmd[i]));
        lemma_program_text(cmd[i]);
        let w = program_words(cmd[i]);
        assert(stages(line)[i] == w);
        assert(w.skip(1) =~= cmd[i].1);
    }
    assert(command(line) =~= cmd);
}

/// Programs as text, with a space on each side of each pipe.
pub open spec fn spaced_text(cmd: Seq<Program>) -> Seq<char>
    decreases cmd.len(),
{
    if cmd.len() == 0 {
        seq![]
    } else if cmd.len() == 1 {
        program_text(cmd[0])
    } else {
        spaced_text(cmd.drop_last()) + " | "@ + program_text(cmd.last())
    }
}

/// Reading a command line that was written with spaces around its pipes gives back the programs.
pub proof fn law_spaced_read_back(cmd: Seq<Program>)
    requires
        cmd.len() > 0,
        forall|i: int| 0 <= i < cmd.len() ==> is_writable(#[trigger] cmd[i]),
    ensures
        is_command(spaced_text(cmd)),
        command(spaced_text(cmd)) == cmd,
    decreases cmd.len(),
{
    let one = seq![cmd.last()];
    assert(is_writable(cmd[cmd.len() - 1]));
    law_read_back(one);
    let parts = one.map_values(|p: Program| program_text(p));
    assert(parts[0] == program_text(cmd.last()));
    assert(command_text(one) == program_text(cmd.last()));
    if cmd.len() == 1 {
        assert(one =~= cmd);
    } else {
        let before = cmd.drop_last();
        assert forall|i: int| 0 <= i < before.len() implies is_writable(#[trigger] before[i]) by {
            assert(before[i] == cmd[i]);
        }
        law_spaced_read_back(before);
        let a = spaced_text(before);
        let b = program_text(cmd.last());
        let space = seq![' '];
        reveal_strlit(" | ");
        assert(a + " | "@ + b =~= (a + space).push('|') + (space + b));
        law_space_around_pipe(a, space, space, b);
        law_pipe_splits(a, b);
        assert(before + one =~= cmd);
    }
}

/// The pieces of two texts, one after the other: the last of the first and the first of the second
/// grow together.
proof fn lemma_pieces_add(a: Seq<char>, b: Seq<char>, sep: spec_fn(char) -> bool)
    ensures
        pieces(a + b, sep) == pieces(a, sep).drop_last().push(
            pieces(a, sep).last() + pieces(b, sep)[0],
        ) + pieces(b, sep).skip(1),
    decreases b.len(),
{
    let p = pieces(a, sep);
    let q = pieces(b, sep);
    lemma_pieces_nonempty(a, sep);
    lemma_pieces_nonempty(b, sep);
    if b.len() == 0 {
        assert(a + b =~= a);
        assert(p.last() + q[0] =~= p.last());
        assert(p.drop_last().push(p.last() + q[0]) + q.skip(1) =~= p);
    } else {
        let c = b.drop_last();
        let r = pieces(c, sep);
        lemma_pieces_add(a, c, sep);
        lemma_pieces_nonempty(c, sep);
        assert((a + b).drop_last() =~= a + c);
        let before = p.drop_last().push(p.last() + r[0]) + r.skip(1);
        if sep(b.last()) {
            assert(q == r.push(Seq::<char>::empty()));
            assert(p.drop_last().push(p.last() + q[0]) + q.skip(1) =~= before.push(
                Seq::<char>::empty(),
            ));
        } else {
            assert(q == r.drop_last().push(r.last().push(b.last())));
            if r.len() == 1 {
                assert((p.last() + r[0]).push(b.last()) =~= p.last() + q[0]);
            }
            assert(p.drop_last().push(p.last() + q[0]) + q.skip(1) =~= before.drop_last().push(
                before.last().push(b.last()),
            ));
        }
    }
}

/// Reading what stands on both sides of a pipe is reading the one side and then the other.
pub proof fn law_pipe_splits(a: Seq<char>, b: Seq<char>)
    ensures
        stages(a.push('|') + b) == stages(a) + stages(b),
        is_command(a.push('|') + b) <==> is_command(a) && is_command(b),
        command(a.push('|') + b) == command(a) + command(b),
{
    let bar = |c: char| c == '|';
    let all = a.push('|') + b;
    let p = pieces(a, bar);
    let q = pieces(b, bar);
    lemma_pieces_add(a.push('|'), b, bar);
    lemma_pieces_nonempty(b, bar);
    assert(a.push('|').drop_last() =~= a);
    assert(pieces(a.push('|'), bar) == p.push(Seq::<char>::empty()));
    assert(p.push(Seq::<char>::empty()).drop_last() =~= p);
    assert(Seq::<char>::empty() + q[0] =~= q[0]);
    assert(pieces(all, bar) =~= p + q);
    assert(stages(all) =~= stages(a) + stages(b));
    assert(command(all) =~= command(a) + command(b));
    assert forall|i: int| 0 <= i < stages(a).len() implies stages(all)[i] == #[trigger] stages(
        a,
    )[i] by {}
    assert forall|i: int| 0 <= i < stages(b).len() implies stages(all)[stages(a).len() + i]
        == #[trigger] stages(b)[i] by {}
}

/// What stands on both sides of white space are separate words, however long the white space is.
pub proof fn law_gap_parts_words(a: Seq<char>, gap: Seq<char>, b: Seq<char>)
    requires
        gap.len() > 0,
        blank(gap),
    ensures
        words(a + gap + b) == words(a) + words(b),
    decreases gap.len(),
{
    let white = |c: char| white_space(c);
    let full = |w: Seq<char>| w.len() > 0;
    let c = gap.last();
    assert(white_space(gap[gap.len() - 1]));
    let shorter = gap.drop_last();
    let x = a + shorter;
    let p = pieces(x, white);
    let q = pieces(b, white);
    assert(a + gap + b =~= x.push(c) + b);
    assert(x.push(c).drop_last() =~= x);
    lemma_pieces_add(x.push(c), b, white);
    lemma_pieces_nonempty(b, white);
    assert(pieces(x.push(c), white) == p.push(Seq::<char>::empty()));
    assert(p.push(Seq::<char>::empty()).drop_last() =~= p);
    assert(Seq::<char>::empty() + q[0] =~= q[0]);
    assert(pieces(a + gap + b, white) =~= p + q);
    Seq::filter_distributes_over_add(p, q, full);
    if shorter.len() == 0 {
        assert(x =~= a);
    } else {
        let none = Seq::<char>::empty();
        assert forall|i: int| 0 <= i < shorter.len() implies white_space(#[trigger] shorter[i]) by {
            assert(shorter[i] == gap[i]);
        }
        law_gap_parts_words(a, shorter, none);
        law_blank_has_no_word(none);
        assert(a + shorter + none =~= x);
        assert(words(a) + words(none) =~= words(a));
    }
}

/// White space around a text does not change its words.
pub proof fn law_space_around_words(before: Seq<char>, s: Seq<char>, after: Seq<char>)
    requires
        blank(before),
        blank(after),
    ensures
        words(before + s + after) == words(s),
{
    let none = Seq::<char>::empty();
    let t = before + s;
    law_blank_has_no_word(none);
    if before.len() == 0 {
        assert(t =~= s);
    } else {
        law_gap_parts_words(none, before, s);
        assert(none + before + s =~= t);
        assert(words(none) + words(s) =~= words(s));
    }
    if after.len() == 0 {
        assert(t + after =~= t);
    } else {
        law_gap_parts_words(t, after, none);
        assert(t + after + none =~= t + after);
        assert(words(t) + words(none) =~= words(t));
    }
}

/// A blank text holds no pipe.
proof fn lemma_blank_has_no_pipe(s: Seq<char>)
    requires
        blank(s),
    ensures
        free_of(s, |c: char| c == '|'),
        pieces(s, |c: char| c == '|') == seq![s],
{
    let bar = |c: char| c == '|';
    assert forall|i: int| 0 <= i < s.len() implies !bar(#[trigger] s[i]) by {
        assert(white_space(s[i]));
    }
    let none = Seq::<char>::empty();
    lemma_pieces_extend(none, s, bar);
    assert(none + s =~= s);
    assert(pieces(none, bar).drop_last().push(s) =~= seq![s]);
}

/// White space before and after a command line does not matter.
pub proof fn law_space_around_line(before: Seq<char>, line: Seq<char>, after: Seq<char>)
    requires
        blank(before),
        blank(after),
    ensures
        stages(before + line + after) == stages(line),
        is_command(before + line + after) <==> is_command(line),
        command(before + line + after) == command(line),
{
    let bar = |c: char| c == '|';
    let none = Seq::<char>::empty();
    let t = before + line;
    let p = pieces(line, bar);
    lemma_blank_has_no_pipe(before);
    lemma_blank_has_no_pipe(after);
    lemma_pieces_nonempty(line, bar);
    lemma_pieces_add(before, line, bar);
    assert(pieces(t, bar) =~= seq![before + p[0]] + p.skip(1));
    law_space_around_words(before, p[0], none);
    assert(before + p[0] + none =~= before + p[0]);
    assert(stages(t) =~= stages(line));
    let q = pieces(t, bar);
    lemma_pieces_nonempty(t, bar);
    lemma_pieces_extend(t, after, bar);
    law_space_around_words(none, q.last(), after);
    assert(none + q.last() + after =~= q.last() + after);
    assert(stages(t + after) =~= stages(t));
}

/// White space on either side of a pipe does not matter.
pub proof fn law_space_around_pipe(
    a: Seq<char>,
    before: Seq<char>,
    after: Seq<char>,
    b: Seq<char>,
)
    requires
        blank(before),
        blank(after),
    ensures
        stages((a + before).push('|') + (after + b)) == stages(a.push('|') + b),
        is_command((a + before).push('|') + (after + b)) <==> is_command(a.push('|') + b),
        command((a + before).push('|') + (after + b)) == command(a.push('|') + b),
{
    let none = Seq::<char>::empty();
    law_space_around_line(none, a, before);
    assert(none + a + before =~= a + before);
    law_space_around_line(after, b, none);
    assert(after + b + none =~= after + b);
    law_pipe_splits(a + before, after + b);
    law_pipe_splits(a, b);
}

/// How long the white space between two words is, and which white space it is, does not matter.
pub proof fn law_gap_length(a: Seq<char>, gap: Seq<char>, other: Seq<char>, b: Seq<char>)
    requires
        gap.len() > 0,
        blank(gap),
        other.len() > 0,
        blank(other),
    ensures
        stages(a + gap + b) == stages(a + other + b),
        is_command(a + gap + b) <==> is_command(a + other + b),
        command(a + gap + b) == command(a + other + b),
{
    lemma_gap(a, gap, b);
    lemma_gap(a, other, b);
    assert(stages(a + gap + b) =~= stages(a + other + b));
}

/// What a gap in a line makes of the programs around it.
proof fn lemma_gap(a: Seq<char>, gap: Seq<char>, b: Seq<char>)
    requires
        gap.len() > 0,
        blank(gap),
    ensures
        stages(a + gap + b) == stages(a).drop_last().push(stages(a).last() + stages(b)[0])
            + stages(b).skip(1),
{
    let bar = |c: char| c == '|';
    let p = pieces(a, bar);
    let q = pieces(b, bar);
    lemma_pieces_nonempty(a, bar);
    lemma_pieces_nonempty(b, bar);
    lemma_blank_has_no_pipe(gap);
    lemma_pieces_extend(a, gap, bar);
    lemma_pieces_add(a + gap, b, bar);
    let r = p.drop_last().push(p.last() + gap);
    assert(r.drop_last() =~= p.drop_last());
    law_gap_parts_words(p.last(), gap, q[0]);
    assert(stages(a + gap + b) =~= stages(a).drop_last().push(stages(a).last() + stages(b)[0])
        + stages(b).skip(1));
}

/// The decimal text of a number is made of digits, and it is read as that number.
pub proof fn law_decimal_read_back(n: nat)
    ensures
        unsigned(decimal(n)) == Some(n),
{
    lemma_decimal(n);
    assert('0' <= decimal(n)[0] <= '9');
}

/// The decimal text of an integer is read as that integer.
pub proof fn law_integer_read_back(n: int)
    ensures
        signed(integer(n)) == Some(n),
{
    if n < 0 {
        let size = (-n) as nat;
        lemma_decimal(size);
        assert(integer(n).skip(1) =~= decimal(size));
    } else {
        lemma_decimal(n as nat);
        law_decimal_read_back(n as nat);
        assert('0' <= decimal(n as nat)[0] <= '9');
    }
}

/// The decimal text of an integer can stand as a word of a command.
pub proof fn lemma_integer_is_word(n: int)
    ensures
        is_word(integer(n)),
{
    let size = if n < 0 {
        (-n) as nat
    } else {
        n as nat
    };
    lemma_decimal(size);
    let s = integer(n);
    assert forall|i: int| 0 <= i < s.len() implies #[trigger] s[i] == '-' || '0' <= s[i]
        <= '9' by {
        if n < 0 && i > 0 {
            assert(s[i] == decimal(size)[i - 1]);
        }
    }
}

proof fn lemma_decimal(n: nat)
    ensures
        decimal(n).len() > 0,
        all_digits(decimal(n)),
        value(decimal(n)) == n,
    decreases n,
{
    let s = decimal(n);
    if n < 10 {
        assert(s.drop_last() =~= seq![]);
        assert(value(s.drop_last()) == 0);
    } else {
        lemma_decimal(n / 10);
        let t = decimal(n / 10);
        assert(s.drop_last() =~= t);
        assert forall|i: int| 0 <= i < s.len() implies '0' <= #[trigger] s[i] <= '9' by {
            if i < t.len() {
                assert(s[i] == t[i]);
            }
        }
    }
}

} // verus!
