//! Command lines: programs joined by pipes, each a name and its arguments.
use crate::text::{
    is_white_space, lemma_pieces_nonempty, lemma_pieces_start, lemma_pieces_step, pieces, texts,
    white_space, words,
};
use vstd::prelude::*;

verus! {

/// Splits a line at its pipes. A line without a pipe is one piece; the empty pieces are kept.
pub fn parse_pipe<'a>(line: &'a str) -> (r: Vec<&'a str>)
    ensures
        texts(r@) == pieces(line@, |c: char| c == '|'),
{
    let ghost bar = |c: char| c == '|';
    let mut done: Vec<&'a str> = Vec::new();
    let mut start: usize = 0;
    let mut i: usize = 0;
    let total: usize = line.unicode_len();
    proof {
        lemma_pieces_start(line@, bar);
        assert(texts(done@) =~= Seq::<Seq<char>>::empty());
    }
    for c in it: line.chars()
        invariant
            it.seq() == line@,
            total == line@.len(),
            i == it.index(),
            start <= i <= total,
            bar == (|c: char| c == '|'),
            pieces(line@.take(i as int), bar) == texts(done@).push(
                line@.subrange(start as int, i as int),
            ),
    {
        let ghost before = texts(done@);
        proof {
            lemma_pieces_step(line@, bar, before, start as int, i as int);
        }
        if c == '|' {
            let piece = line.substring_char(start, i);
            done.push(piece);
            proof {
                assert(texts(done@) =~= before.push(piece@));
            }
            start = i + 1;
        }
        i = i + 1;
    }
    let ghost before = texts(done@);
    let piece = line.substring_char(start, total);
    done.push(piece);
    proof {
        assert(texts(done@) =~= before.push(piece@));
        assert(line@.take(total as int) =~= line@);
    }
    done
}

/// The words of a piece of the line.
fn split_words<'a>(line: &'a str) -> (r: Vec<&'a str>)
    ensures
        texts(r@) == words(line@),
{
    let ghost white = |c: char| white_space(c);
    let ghost full = |w: Seq<char>| w.len() > 0;
    let mut done: Vec<&'a str> = Vec::new();
    let mut start: usize = 0;
    let mut i: usize = 0;
    let total: usize = line.unicode_len();
    let ghost mut closed_pieces = Seq::<Seq<char>>::empty();
    proof {
        lemma_pieces_start(line@, white);
        reveal(Seq::filter);
        assert(texts(done@) =~= closed_pieces.filter(full));
    }
    for c in it: line.chars()
        invariant
            it.seq() == line@,
            total == line@.len(),
            i == it.index(),
            start <= i <= total,
            white == (|c: char| white_space(c)),
            full == (|w: Seq<char>| w.len() > 0),
            pieces(line@.take(i as int), white) == closed_pieces.push(
                line@.subrange(start as int, i as int),
            ),
            texts(done@) == closed_pieces.filter(full),
    {
        let ghost before = texts(done@);
        proof {
            lemma_pieces_step(line@, white, closed_pieces, start as int, i as int);
        }
        if is_white_space(c) {
            let ghost piece = line@.subrange(start as int, i as int);
            if start < i {
                let word = line.substring_char(start, i);
                done.push(word);
                proof {
                    assert(texts(done@) =~= before.push(piece));
                }
            }
            proof {
                assert(closed_pieces.push(piece).drop_last() =~= closed_pieces);
                reveal(Seq::filter);
                closed_pieces = closed_pieces.push(piece);
            }
            start = i + 1;
        }
        i = i + 1;
    }
    let ghost before = texts(done@);
    let ghost piece = line@.subrange(start as int, total as int);
    if start < total {
        let word = line.substring_char(start, total);
        done.push(word);
        proof {
            assert(texts(done@) =~= before.push(piece));
        }
    }
    proof {
        assert(line@.take(total as int) =~= line@);
        assert(closed_pieces.push(piece).drop_last() =~= closed_pieces);
        reveal(Seq::filter);
    }
    done
}

/// Why a line is no command.
#[derive(Debug, Clone, Copy, PartialEq, Eq, Structural)]
pub enum ParseError {
    /// A program is missing: the line, or the part before or after a pipe, holds no word.
    EmptyCommand,
}

impl ParseError {
    /// The text that a user is shown.
    pub open spec fn text(self) -> Seq<char> {
        "空のコマンド"@
    }

    /// The text that a user is shown.
    pub fn message(&self) -> (r: String)
        ensures
            r@ == self.text(),
    {
        "空のコマンド".to_owned()
    }
}

/// A program and its arguments, as text.
pub type Program = (Seq<char>, Seq<Seq<char>>);

/// What a borrowed program holds.
pub open spec fn program(c: (&str, Vec<&str>)) -> Program {
    (c.0@, texts(c.1@))
}

/// What borrowed programs hold.
pub open spec fn programs(v: Seq<(&str, Vec<&str>)>) -> Seq<Program> {
    v.map_values(|c: (&str, Vec<&str>)| program(c))
}

/// The program that words name: the first is its name, the others are its arguments.
pub open spec fn program_of(w: Seq<Seq<char>>) -> Program {
    (w[0], w.skip(1))
}

/// The words that name a program: its name, then its arguments.
pub open spec fn program_words(p: Program) -> Seq<Seq<char>> {
    seq![p.0] + p.1
}

/// The words on each side of the pipes of a line.
pub open spec fn stages(line: Seq<char>) -> Seq<Seq<Seq<char>>> {
    pieces(line, |c: char| c == '|').map_values(|p: Seq<char>| words(p))
}

/// Whether a line names a program on each side of each pipe.
pub open spec fn is_command(line: Seq<char>) -> bool {
    forall|i: int| 0 <= i < stages(line).len() ==> (#[trigger] stages(line)[i]).len() > 0
}

/// The programs that a command line names.
pub open spec fn command(line: Seq<char>) -> Seq<Program> {
    stages(line).map_values(|w: Seq<Seq<char>>| program_of(w))
}

/// Reads one program: its name is the first word of `line`, its arguments are the others.
pub fn parse_cmd_one<'a>(line: &'a str) -> (r: Result<(&'a str, Vec<&'a str>), ParseError>)
    ensures
        r is Ok <==> words(line@).len() > 0,
        r matches Ok(c) ==> program(c) == program_of(words(line@)),
        r matches Err(e) ==> e == ParseError::EmptyCommand,
{
    let all: Vec<&'a str> = split_words(line);
    if all.len() == 0 {
        return Err(ParseError::EmptyCommand);
    }
    let mut args: Vec<&'a str> = Vec::new();
    let mut n: usize = 1;
    while n < all.len()
        invariant
            1 <= n <= all.len(),
            args@ == all@.subrange(1, n as int),
        decreases all.len() - n,
    {
        args.push(all[n]);
        n = n + 1;
    }
    proof {
        assert(texts(args@) =~= texts(all@).skip(1));
    }
    Ok((all[0], args))
}

/// Reads a command line.
pub fn parse_cmd<'a>(line: &'a str) -> (r: Result<Vec<(&'a str, Vec<&'a str>)>, ParseError>)
    ensures
        r is Ok <==> is_command(line@),
        r matches Ok(cmds) ==> programs(cmds@) == command(line@) && cmds@.len() > 0,
        r matches Err(e) ==> e == ParseError::EmptyCommand,
{
    let parts: Vec<&'a str> = parse_pipe(line);
    let ghost bar = |c: char| c == '|';
    proof {
        lemma_pieces_nonempty(line@, bar);
        assert(texts(parts@).len() == parts@.len());
        assert(forall|k: int| 0 <= k < parts@.len() ==> texts(parts@)[k] == (#[trigger] parts@[k])@);
    }
    let mut result: Vec<(&'a str, Vec<&'a str>)> = Vec::new();
    let mut i: usize = 0;
    while i < parts.len()
        invariant
            0 <= i <= parts.len(),
            parts@.len() == stages(line@).len(),
            forall|k: int|
                0 <= k < parts@.len() ==> words((#[trigger] parts@[k])@) == stages(line@)[k],
            forall|k: int| 0 <= k < i ==> (#[trigger] stages(line@)[k]).len() > 0,
            programs(result@) == command(line@).take(i as int),
        decreases parts.len() - i,
    {
        let part: &'a str = parts[i];
        match parse_cmd_one(part) {
            Err(e) => {
                proof {
                    assert(stages(line@)[i as int].len() == 0);
                }
                return Err(e);
            },
            Ok(c) => {
                let ghost before = programs(result@);
                let ghost p = program(c);
                result.push(c);
                proof {
                    assert(programs(result@) =~= before.push(p));
                    assert(command(line@).take(i + 1) =~= command(line@).take(i as int).push(
                        command(line@)[i as int],
                    ));
                }
            },
        }
        i = i + 1;
    }
    proof {
        assert(command(line@).take(i as int) =~= command(line@));
    }
    Ok(result)
}

} // verus!
