//! Text as sequences of characters: white space, splitting and trimming.
use vstd::prelude::*;

verus! {

/// The characters that Unicode gives the property `White_Space`.
pub open spec fn white_space(c: char) -> bool {
    let n = c as u32;
    ||| 0x09 <= n <= 0x0d
    ||| n == 0x20
    ||| n == 0x85
    ||| n == 0xa0
    ||| n == 0x1680
    ||| 0x2000 <= n <= 0x200a
    ||| n == 0x2028
    ||| n == 0x2029
    ||| n == 0x202f
    ||| n == 0x205f
    ||| n == 0x3000
}

/// Whether `c` is white space.
pub fn is_white_space(c: char) -> (r: bool)
    ensures
        r == white_space(c),
{
    let n: u32 = c as u32;
    (0x09 <= n && n <= 0x0d) || n == 0x20 || n == 0x85 || n == 0xa0 || n == 0x1680 || (0x2000 <= n
        && n <= 0x200a) || n == 0x2028 || n == 0x2029 || n == 0x202f || n == 0x205f || n == 0x3000
}

/// The parts of `s` between its separators, in order: one more than there are separators, the
/// empty ones kept.
pub open spec fn pieces(s: Seq<char>, sep: spec_fn(char) -> bool) -> Seq<Seq<char>>
    decreases s.len(),
{
    if s.len() == 0 {
        seq![Seq::<char>::empty()]
    } else {
        let before = pieces(s.drop_last(), sep);
        if sep(s.last()) {
            before.push(Seq::<char>::empty())
        } else {
            before.drop_last().push(before.last().push(s.last()))
        }
    }
}

/// The words of `s`: its longest runs of characters that are no white space, in order.
pub open spec fn words(s: Seq<char>) -> Seq<Seq<char>> {
    pieces(s, |c: char| white_space(c)).filter(|w: Seq<char>| w.len() > 0)
}

/// What each of the borrowed texts holds.
pub open spec fn texts(v: Seq<&str>) -> Seq<Seq<char>> {
    v.map_values(|t: &str| t@)
}

/// There is always a piece, even of an empty text.
pub proof fn lemma_pieces_nonempty(s: Seq<char>, sep: spec_fn(char) -> bool)
    ensures
        pieces(s, sep).len() > 0,
    decreases s.len(),
{
    if s.len() > 0 {
        lemma_pieces_nonempty(s.drop_last(), sep);
    }
}

/// How the pieces grow by one more character of `s`: a separator closes the last of them, another
/// character extends it.
pub proof fn lemma_pieces_step(
    s: Seq<char>,
    sep: spec_fn(char) -> bool,
    done: Seq<Seq<char>>,
    start: int,
    i: int,
)
    requires
        0 <= start <= i < s.len(),
        pieces(s.take(i), sep) == done.push(s.subrange(start, i)),
    ensures
        sep(s[i]) ==> pieces(s.take(i + 1), sep) == done.push(s.subrange(start, i)).push(
            s.subrange(i + 1, i + 1),
        ),
        !sep(s[i]) ==> pieces(s.take(i + 1), sep) == done.push(s.subrange(start, i + 1)),
{
    let longer = s.take(i + 1);
    assert(longer.drop_last() =~= s.take(i));
    assert(s.subrange(i + 1, i + 1) =~= Seq::<char>::empty());
    let before = pieces(s.take(i), sep);
    assert(before.drop_last() =~= done);
    assert(s.subrange(start, i).push(s[i]) =~= s.subrange(start, i + 1));
}

/// The pieces of nothing, as the first step finds them.
pub proof fn lemma_pieces_start(s: Seq<char>, sep: spec_fn(char) -> bool)
    ensures
        pieces(s.take(0), sep) == Seq::<Seq<char>>::empty().push(s.subrange(0, 0)),
{
    assert(s.subrange(0, 0) =~= Seq::<char>::empty());
    assert(pieces(s.take(0), sep) =~= Seq::<Seq<char>>::empty().push(s.subrange(0, 0)));
}

/// Without the white space that it starts with.
pub open spec fn trim_start(s: Seq<char>) -> Seq<char>
    decreases s.len(),
{
    if s.len() > 0 && white_space(s[0]) {
        trim_start(s.skip(1))
    } else {
        s
    }
}

/// Without the white space that it ends with.
pub open spec fn trim_end(s: Seq<char>) -> Seq<char>
    decreases s.len(),
{
    if s.len() > 0 && white_space(s.last()) {
        trim_end(s.drop_last())
    } else {
        s
    }
}

/// Without the white space around it.
pub open spec fn trimmed(s: Seq<char>) -> Seq<char> {
    trim_end(trim_start(s))
}

/// Whether there is nothing but white space.
pub open spec fn blank(s: Seq<char>) -> bool {
    forall|i: int| 0 <= i < s.len() ==> white_space(#[trigger] s[i])
}

/// `trim_start` takes off just the white space before the first other character.
proof fn lemma_trim_start(s: Seq<char>, a: int)
    requires
        0 <= a <= s.len(),
        blank(s.take(a)),
        a < s.len() ==> !white_space(s[a]),
    ensures
        trim_start(s) == s.skip(a),
    decreases a,
{
    if a == 0 {
        assert(s.skip(0) =~= s);
    } else {
        assert(s.take(a)[0] == s[0]);
        let t = s.skip(1);
        assert forall|i: int| 0 <= i < a - 1 implies white_space(#[trigger] t.take(a - 1)[i]) by {
            assert(s.take(a)[i + 1] == s[i + 1]);
        }
        lemma_trim_start(t, a - 1);
        assert(t.skip(a - 1) =~= s.skip(a));
    }
}

/// `trim_end` takes off just the white space after the last other character.
proof fn lemma_trim_end(s: Seq<char>, b: int)
    requires
        0 <= b <= s.len(),
        blank(s.skip(b)),
        b > 0 ==> !white_space(s[b - 1]),
    ensures
        trim_end(s) == s.take(b),
    decreases s.len() - b,
{
    if b == s.len() {
        assert(s.take(b) =~= s);
    } else {
        assert(s.skip(b)[s.len() - 1 - b] == s.last());
        let t = s.drop_last();
        assert forall|i: int| 0 <= i < t.len() - b implies white_space(#[trigger] t.skip(b)[i]) by {
            assert(s.skip(b)[i] == s[b + i]);
        }
        lemma_trim_end(t, b);
        assert(t.take(b) =~= s.take(b));
    }
}

/// What is between the first and the last character that is no white space is the trimmed text.
pub proof fn lemma_trimmed(s: Seq<char>, a: int, b: int)
    requires
        0 <= a <= b <= s.len(),
        blank(s.take(a)),
        blank(s.skip(b)),
        a < b ==> !white_space(s[a]) && !white_space(s[b - 1]),
        a == b ==> blank(s),
    ensures
        trimmed(s) == s.subrange(a, b),
{
    if a < b {
        lemma_trim_start(s, a);
        let t = s.skip(a);
        assert forall|i: int| 0 <= i < t.len() - (b - a) implies white_space(
            #[trigger] t.skip(b - a)[i],
        ) by {
            assert(s.skip(b)[i] == s[b + i]);
        }
        lemma_trim_end(t, b - a);
        assert(t.take(b - a) =~= s.subrange(a, b));
    } else {
        assert(s.take(s.len() as int) =~= s);
        lemma_trim_start(s, s.len() as int);
        assert(s.skip(s.len() as int) =~= Seq::<char>::empty());
        assert(s.subrange(a, b) =~= Seq::<char>::empty());
    }
}

/// A text without the white space around it.
pub fn trim<'a>(line: &'a str) -> (r: &'a str)
    ensures
        r@ == trimmed(line@),
{
    let mut first: usize = 0;
    let mut end: usize = 0;
    let mut i: usize = 0;
    let total: usize = line.unicode_len();
    for c in it: line.chars()
        invariant
            it.seq() == line@,
            total == line@.len(),
            i == it.index(),
            first <= end <= i <= total,
            first == end ==> first == 0,
            forall|k: int| 0 <= k < first ==> white_space(#[trigger] line@[k]),
            forall|k: int| end <= k < i ==> white_space(#[trigger] line@[k]),
            first < end ==> !white_space(line@[first as int]) && !white_space(line@[end - 1]),
    {
        if !is_white_space(c) {
            if first == end {
                first = i;
            }
            end = i + 1;
        }
        i = i + 1;
    }
    proof {
        assert(line@.skip(0) =~= line@);
        lemma_trimmed(line@, first as int, end as int);
    }
    line.substring_char(first, end)
}

/// Whether two texts are the same.
pub fn same(a: &str, b: &str) -> (r: bool)
    ensures
        r == (a@ == b@),
{
    a.to_owned() == b.to_owned()
}

} // verus!
