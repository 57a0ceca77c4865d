//! Character-level text handling: whitespace, trimming, ASCII case folding,
//! substring search, and splitting into lines and columns.
//!
//! Text is modelled as `Seq<char>`; the executable functions work on
//! `Vec<char>` and are specified against that model.

use vstd::prelude::*;

verus! {

/// Whether `c` is Unicode white space (the `White_Space` property).
pub open spec fn is_space(c: char) -> bool {
    let n = c as u32;
    (0x09 <= n && n <= 0x0D) || n == 0x20 || n == 0x85 || n == 0xA0 || n == 0x1680 || (0x2000 <= n
        && n <= 0x200A) || n == 0x2028 || n == 0x2029 || n == 0x202F || n == 0x205F || n == 0x3000
}

/// `s` without its leading white space.
pub open spec fn trim_start(s: Seq<char>) -> Seq<char>
    decreases s.len(),
{
    if s.len() > 0 && is_space(s[0]) {
        trim_start(s.drop_first())
    } else {
        s
    }
}

/// `s` without its trailing white space.
pub open spec fn trim_end(s: Seq<char>) -> Seq<char>
    decreases s.len(),
{
    if s.len() > 0 && is_space(s.last()) {
        trim_end(s.drop_last())
    } else {
        s
    }
}

/// `s` without leading and trailing white space.
pub open spec fn trim(s: Seq<char>) -> Seq<char> {
    trim_end(trim_start(s))
}

/// The lower-case form of an ASCII capital; every other character is itself.
pub open spec fn lower(c: char) -> char {
    if 'A' <= c && c <= 'Z' {
        ((c as u8 + 32) as u8) as char
    } else {
        c
    }
}

/// `s` with every ASCII capital replaced by its lower-case form.
pub open spec fn lowered(s: Seq<char>) -> Seq<char> {
    Seq::new(s.len(), |i: int| lower(s[i]))
}

/// Whether `w` stands in `s` starting at index `i`.
pub open spec fn occurs_at(s: Seq<char>, w: Seq<char>, i: int) -> bool {
    0 <= i && i + w.len() <= s.len() && s.subrange(i, i + w.len()) == w
}

/// Whether `w` is a contiguous part of `s`.
pub open spec fn contains_seq(s: Seq<char>, w: Seq<char>) -> bool {
    exists|i: int| occurs_at(s, w, i)
}

/// The pieces of `s` between occurrences of the delimiter `d`.
///
/// Reading `s` from left to right, each delimiter closes the current piece
/// and opens a new, empty one; any other character is appended to the
/// current piece. There is always at least one piece.
pub open spec fn split_on(s: Seq<char>, d: char) -> Seq<Seq<char>>
    decreases s.len(),
{
    if s.len() == 0 {
        seq![Seq::<char>::empty()]
    } else {
        let head = split_on(s.drop_last(), d);
        if s.last() == d {
            head.push(Seq::<char>::empty())
        } else {
            head.drop_last().push(head.last().push(s.last()))
        }
    }
}

/// `s` without one trailing carriage return, if it has one.
pub open spec fn strip_cr(s: Seq<char>) -> Seq<char> {
    if s.len() > 0 && s.last() == '\r' {
        s.drop_last()
    } else {
        s
    }
}

/// The lines of `s`.
///
/// A line ends at a line feed; a carriage return directly before that line
/// feed belongs to the line ending. Text after the last line feed is a line
/// of its own unless it is empty, and keeps a trailing carriage return.
pub open spec fn lines_of(s: Seq<char>) -> Seq<Seq<char>> {
    let parts = split_on(s, '\n');
    let ended = Seq::new((parts.len() - 1) as nat, |i: int| strip_cr(parts[i]));
    if parts.last().len() == 0 {
        ended
    } else {
        ended.push(parts.last())
    }
}

/// The model of a vector of character vectors.
pub open spec fn rows(v: Seq<Vec<char>>) -> Seq<Seq<char>> {
    Seq::new(v.len(), |i: int| v[i]@)
}

/// Splitting always yields at least one piece.
pub proof fn lemma_split_nonempty(s: Seq<char>, d: char)
    ensures
        split_on(s, d).len() >= 1,
    decreases s.len(),
{
    if s.len() > 0 {
        lemma_split_nonempty(s.drop_last(), d);
    }
}

/// Splitting loses nothing but the delimiters: the number of pieces is one
/// more than the number of delimiters, no piece holds a delimiter, and the
/// pieces put together are the text without its delimiters.
pub proof fn law_split_shape(s: Seq<char>, d: char)
    ensures
        split_on(s, d).len() == 1 + s.filter(|c: char| c == d).len(),
        forall|i: int, j: int|
            0 <= i < split_on(s, d).len() && 0 <= j < split_on(s, d)[i].len() ==> split_on(
                s,
                d,
            )[i][j] != d,
        split_on(s, d).flatten() == s.filter(|c: char| c != d),
    decreases s.len(),
{
    let parts = split_on(s, d);
    let is_d = |c: char| c == d;
    let not_d = |c: char| c != d;
    if s.len() == 0 {
        assert(parts.flatten() =~= Seq::<char>::empty()) by {
            assert(parts.drop_first() =~= Seq::<Seq<char>>::empty());
            reveal_with_fuel(Seq::flatten, 3);
        }
        assert(s.filter(is_d) =~= Seq::<char>::empty());
        assert(s.filter(not_d) =~= Seq::<char>::empty());
    } else {
        let front = s.drop_last();
        let head = split_on(front, d);
        law_split_shape(front, d);
        lemma_split_nonempty(front, d);
        assert(s =~= front.push(s.last()));
        assert(s.filter(is_d) == front.filter(is_d) + seq![s.last()].filter(is_d)) by {
            assert(s =~= front + seq![s.last()]);
            Seq::filter_distributes_over_add(front, seq![s.last()], is_d);
        }
        assert(s.filter(not_d) == front.filter(not_d) + seq![s.last()].filter(not_d)) by {
            assert(s =~= front + seq![s.last()]);
            Seq::filter_distributes_over_add(front, seq![s.last()], not_d);
        }
        let one = seq![s.last()];
        assert(one.drop_last() =~= Seq::<char>::empty());
        reveal_with_fuel(Seq::filter, 3);
        if s.last() == d {
            assert(one.filter(is_d) =~= one);
            assert(one.filter(not_d) =~= Seq::<char>::empty());
            assert(parts =~= head + seq![Seq::<char>::empty()]);
            head.lemma_flatten_push(Seq::<char>::empty());
            assert(parts =~= head.push(Seq::<char>::empty()));
            assert(parts.flatten() =~= head.flatten());
        } else {
            assert(one.filter(is_d) =~= Seq::<char>::empty());
            assert(one.filter(not_d) =~= one);
            let init = head.drop_last();
            assert(head =~= init.push(head.last()));
            init.lemma_flatten_push(head.last());
            init.lemma_flatten_push(head.last().push(s.last()));
            assert(parts.flatten() =~= head.flatten() + one);
        }
    }
}

/// Whether `c` is Unicode white space.
pub fn char_is_space(c: char) -> (b: bool)
    ensures
        b == is_space(c),
{
    let n: u32 = c as u32;
    (0x09 <= n && n <= 0x0D) || n == 0x20 || n == 0x85 || n == 0xA0 || n == 0x1680 || (0x2000 <= n
        && n <= 0x200A) || n == 0x2028 || n == 0x2029 || n == 0x202F || n == 0x205F || n == 0x3000
}

/// The lower-case form of an ASCII capital; every other character unchanged.
pub fn to_lower(c: char) -> (r: char)
    ensures
        r == lower(c),
{
    if c >= 'A' && c <= 'Z' {
        ((c as u8) + 32) as char
    } else {
        c
    }
}

/// The characters of a string slice, in order.
pub fn chars_of(s: &str) -> (v: Vec<char>)
    ensures
        v@ == s@,
{
    let mut v: Vec<char> = Vec::new();
    for c in it: s.chars()
        invariant
            v@ == it.seq().take(it.index() as int),
    {
        v.push(c);
    }
    v
}

/// A copy of the characters of `s` from index `from` up to, not including, `to`.
pub fn slice_chars(s: &Vec<char>, from: usize, to: usize) -> (r: Vec<char>)
    requires
        from <= to <= s.len(),
    ensures
        r@ == s@.subrange(from as int, to as int),
{
    let mut r: Vec<char> = Vec::new();
    let mut i: usize = from;
    while i < to
        invariant
            from <= i <= to <= s.len(),
            r@ == s@.subrange(from as int, i as int),
        decreases to - i,
    {
        r.push(s[i]);
        proof {
            assert(r@ =~= s@.subrange(from as int, i + 1));
        }
        i += 1;
    }
    r
}

/// Where `s` without leading and trailing white space starts and ends
/// within `s`: the start is the number of leading white-space characters,
/// also where nothing but white space is left.
pub fn trim_bounds(s: &Vec<char>) -> (r: (usize, usize))
    ensures
        r.0 <= r.1 <= s.len(),
        r.0 == s.len() - trim_start(s@).len(),
        s@.subrange(r.0 as int, r.1 as int) == trim(s@),
{
    let n: usize = s.len();
    let mut a: usize = 0;
    proof {
        assert(s@.skip(0) =~= s@);
    }
    while a < n && char_is_space(s[a])
        invariant
            a <= n == s.len(),
            trim_start(s@) == trim_start(s@.skip(a as int)),
        decreases n - a,
    {
        proof {
            assert(s@.skip(a as int).drop_first() =~= s@.skip(a + 1));
        }
        a += 1;
    }
    assert(trim_start(s@) == s@.skip(a as int));
    let mut b: usize = n;
    proof {
        assert(s@.skip(a as int) =~= s@.subrange(a as int, n as int));
    }
    while b > a && char_is_space(s[b - 1])
        invariant
            a <= b <= n == s.len(),
            trim_end(s@.skip(a as int)) == trim_end(s@.subrange(a as int, b as int)),
        decreases b,
    {
        proof {
            assert(s@.subrange(a as int, b as int).drop_last() =~= s@.subrange(a as int, b - 1));
        }
        b -= 1;
    }
    (a, b)
}

/// `s` without leading and trailing white space.
pub fn trim_chars(s: &Vec<char>) -> (r: Vec<char>)
    ensures
        r@ == trim(s@),
{
    let (a, b) = trim_bounds(s);
    slice_chars(s, a, b)
}

/// Whether two character vectors hold the same text.
pub fn same_chars(a: &Vec<char>, b: &Vec<char>) -> (r: bool)
    ensures
        r == (a@ == b@),
{
    if a.len() != b.len() {
        return false;
    }
    let mut i: usize = 0;
    while i < a.len()
        invariant
            i <= a.len() == b.len(),
            forall|k: int| 0 <= k < i ==> a@[k] == b@[k],
        decreases a.len() - i,
    {
        if a[i] != b[i] {
            return false;
        }
        i += 1;
    }
    proof {
        assert(a@ =~= b@);
    }
    true
}

/// `s` with every ASCII capital replaced by its lower-case form.
pub fn lower_chars(s: &Vec<char>) -> (r: Vec<char>)
    ensures
        r@ == lowered(s@),
{
    let mut r: Vec<char> = Vec::new();
    let mut i: usize = 0;
    while i < s.len()
        invariant
            i <= s.len(),
            r@ == lowered(s@.take(i as int)),
        decreases s.len() - i,
    {
        r.push(to_lower(s[i]));
        proof {
            assert(r@ =~= lowered(s@.take(i + 1)));
        }
        i += 1;
    }
    proof {
        assert(s@.take(s.len() as int) =~= s@);
    }
    r
}

/// Whether `w` is a contiguous part of `s`.
pub fn contains_chars(s: &Vec<char>, w: &Vec<char>) -> (b: bool)
    ensures
        b == contains_seq(s@, w@),
{
    if w.len() > s.len() {
        return false;
    }
    let m: usize = w.len();
    let last: usize = s.len() - m;
    let mut i: usize = 0;
    while i <= last
        invariant
            m == w.len(),
            last + m == s.len(),
            i <= last + 1,
            forall|k: int| 0 <= k < i ==> !occurs_at(s@, w@, k),
        decreases last + 1 - i,
    {
        let mut j: usize = 0;
        while j < m && s[i + j] == w[j]
            invariant
                m == w.len(),
                last + m == s.len(),
                i <= last,
                j <= m,
                forall|k: int| 0 <= k < j ==> s@[i + k] == w@[k],
            decreases m - j,
        {
            j += 1;
        }
        if j == m {
            proof {
                assert(s@.subrange(i as int, i + m) =~= w@);
                assert(occurs_at(s@, w@, i as int));
            }
            return true;
        }
        proof {
            assert(s@.subrange(i as int, i + m)[j as int] != w@[j as int]);
        }
        i += 1;
    }
    false
}

/// The pieces of `s` between occurrences of the delimiter `d`.
pub fn split_chars(s: &Vec<char>, d: char) -> (parts: Vec<Vec<char>>)
    ensures
        rows(parts@) == split_on(s@, d),
{
    let mut parts: Vec<Vec<char>> = Vec::new();
    let mut cur: Vec<char> = Vec::new();
    let mut i: usize = 0;
    while i < s.len()
        invariant
            i <= s.len(),
            rows(parts@).push(cur@) == split_on(s@.take(i as int), d),
        decreases s.len() - i,
    {
        let c: char = s[i];
        let ghost before = rows(parts@);
        let ghost piece = cur@;
        proof {
            assert(s@.take(i + 1).drop_last() =~= s@.take(i as int));
            assert(before.push(piece).drop_last() =~= before);
        }
        if c == d {
            parts.push(cur);
            cur = Vec::new();
            proof {
                assert(rows(parts@) =~= before.push(piece));
            }
        } else {
            cur.push(c);
            proof {
                assert(rows(parts@) =~= before);
            }
        }
        i += 1;
    }
    proof {
        assert(s@.take(s.len() as int) =~= s@);
    }
    let ghost before = rows(parts@);
    parts.push(cur);
    proof {
        assert(rows(parts@) =~= before.push(cur@));
    }
    parts
}

/// The lines of `text`.
pub fn split_lines(text: &Vec<char>) -> (lines: Vec<Vec<char>>)
    ensures
        rows(lines@) == lines_of(text@),
{
    let parts = split_chars(text, '\n');
    proof {
        lemma_split_nonempty(text@, '\n');
    }
    let ghost model = split_on(text@, '\n');
    let ended: usize = parts.len() - 1;
    let mut lines: Vec<Vec<char>> = Vec::new();
    let mut i: usize = 0;
    while i < ended
        invariant
            i <= ended == parts.len() - 1,
            rows(parts@) == model,
            rows(lines@) == Seq::new(i as nat, |k: int| strip_cr(model[k])),
        decreases ended - i,
    {
        let part = &parts[i];
        let n: usize = part.len();
        let keep: usize = if n > 0 && part[n - 1] == '\r' {
            n - 1
        } else {
            n
        };
        let line = slice_chars(part, 0, keep);
        proof {
            assert(part@ == model[i as int]);
            assert(part@.subrange(0, n as int) =~= part@);
            assert(line@ == strip_cr(model[i as int]));
        }
        let ghost before = rows(lines@);
        lines.push(line);
        proof {
            assert(rows(lines@) =~= before.push(line@));
            assert(rows(lines@) =~= Seq::new((i + 1) as nat, |k: int| strip_cr(model[k])));
        }
        i += 1;
    }
    let tail = &parts[ended];
    proof {
        assert(tail@ == model.last());
    }
    if tail.len() > 0 {
        let line = slice_chars(tail, 0, tail.len());
        proof {
            assert(tail@.subrange(0, tail.len() as int) =~= tail@);
        }
        let ghost before = rows(lines@);
        lines.push(line);
        proof {
            assert(rows(lines@) =~= before.push(line@));
        }
    }
    lines
}

} // verus!
