//! Splitting the input text into lines: a line ends at `\n`, and a single
//! trailing `\r` before the break is dropped, so both LF and CRLF input
//! normalize to the same line sequence.

use vstd::prelude::*;

verus! {

/// Index of the first `\n` in the sequence, or its length if there is none.
pub open spec fn line_break(s: Seq<char>) -> int
    decreases s.len(),
{
    if s.len() == 0 {
        0
    } else if s[0] == '\n' {
        0
    } else {
        1 + line_break(s.skip(1))
    }
}

/// A line with one trailing carriage return removed.
pub open spec fn strip_cr(l: Seq<char>) -> Seq<char> {
    if l.len() > 0 && l[l.len() - 1] == '\r' {
        l.subrange(0, l.len() - 1)
    } else {
        l
    }
}

/// The input split at line breaks; a trailing break opens no extra line.
pub open spec fn lines_of(s: Seq<char>) -> Seq<Seq<char>>
    decreases s.len(),
{
    if s.len() == 0 {
        Seq::empty()
    } else {
        let k = line_break(s);
        if 0 <= k < s.len() {
            seq![strip_cr(s.subrange(0, k))] + lines_of(s.skip(k + 1))
        } else {
            seq![strip_cr(s)]
        }
    }
}

/// The first line break lies within the sequence, sits on a `\n`, and
/// nothing before it is a `\n`.
pub proof fn lemma_line_break_bounds(s: Seq<char>)
    ensures
        0 <= line_break(s) <= s.len(),
        line_break(s) < s.len() ==> s[line_break(s)] == '\n',
        forall|m: int| 0 <= m < line_break(s) ==> s[m] != '\n',
    decreases s.len(),
{
    if s.len() == 0 {
    } else if s[0] == '\n' {
    } else {
        lemma_line_break_bounds(s.skip(1));
        assert forall|m: int| 0 <= m < line_break(s) implies s[m] != '\n' by {
            if m > 0 {
                assert(s.skip(1)[m - 1] == s[m]);
            }
        }
    }
}

/// Position of the first `\n` at or after `start`.
fn find_newline(s: &str, start: usize) -> (k: usize)
    requires
        start <= s@.len(),
    ensures
        start <= k <= s@.len(),
        k - start == line_break(s@.skip(start as int)),
{
    let n: usize = s.unicode_len();
    let mut j: usize = start;
    loop
        invariant
            start <= j <= n,
            n == s@.len(),
            line_break(s@.skip(start as int)) == (j - start) + line_break(s@.skip(j as int)),
        ensures
            start <= j <= n,
            n == s@.len(),
            line_break(s@.skip(start as int)) == j - start,
        decreases n - j,
    {
        if j >= n {
            proof {
                assert(s@.skip(j as int) =~= Seq::<char>::empty());
            }
            break;
        }
        let c: char = s.get_char(j);
        if c == '\n' {
            proof {
                assert(s@.skip(j as int)[0] == '\n');
            }
            break;
        }
        proof {
            assert(s@.skip(j as int)[0] == s@[j as int]);
            assert(s@.skip(j as int).skip(1) =~= s@.skip(j as int + 1));
        }
        j = j + 1;
    }
    j
}

/// The piece with one trailing carriage return removed.
fn strip_trailing_cr(piece: &str) -> (r: String)
    ensures
        r@ == strip_cr(piece@),
{
    let m: usize = piece.unicode_len();
    if m > 0 && piece.get_char(m - 1) == '\r' {
        let t: &str = piece.substring_char(0, m - 1);
        proof {
            assert(t@ =~= piece@.subrange(0, piece@.len() - 1));
        }
        t.to_owned()
    } else {
        piece.to_owned()
    }
}

/// Splits the input into its lines.
pub fn split_lines(s: &str) -> (r: Vec<String>)
    ensures
        r.deep_view() == lines_of(s@),
{
    let n: usize = s.unicode_len();
    let mut out: Vec<String> = Vec::new();
    let mut start: usize = 0;
    proof {
        assert(out.deep_view() =~= Seq::<Seq<char>>::empty());
        assert(s@.skip(0) =~= s@);
    }
    while start < n
        invariant
            start <= n,
            n == s@.len(),
            lines_of(s@) == out.deep_view() + lines_of(s@.skip(start as int)),
        decreases n - start,
    {
        let k: usize = find_newline(s, start);
        let piece: &str = s.substring_char(start, k);
        let line: String = strip_trailing_cr(piece);
        let ghost prev = out.deep_view();
        let ghost tail = s@.skip(start as int);
        proof {
            lemma_line_break_bounds(tail);
            assert(tail.len() > 0);
            assert(piece@ =~= tail.subrange(0, k - start as int));
        }
        out.push(line);
        proof {
            assert(out.deep_view() =~= prev.push(line@));
            if k < n {
                assert(tail.skip(k - start as int + 1) =~= s@.skip(k as int + 1));
                assert(lines_of(tail) == seq![strip_cr(tail.subrange(0, k - start as int))]
                    + lines_of(s@.skip(k as int + 1)));
                assert(prev + lines_of(tail) =~= out.deep_view() + lines_of(s@.skip(k as int + 1)));
            } else {
                assert(line_break(tail) == tail.len());
                assert(piece@ =~= tail);
                assert(lines_of(tail) == seq![strip_cr(tail)]);
                assert(s@.skip(n as int) =~= Seq::<char>::empty());
                assert(prev + lines_of(tail) =~= out.deep_view() + lines_of(s@.skip(n as int)));
            }
        }
        if k < n {
            start = k + 1;
        } else {
            start = n;
        }
    }
    proof {
        assert(s@.skip(start as int) =~= Seq::<char>::empty());
        assert(out.deep_view() + Seq::<Seq<char>>::empty() =~= out.deep_view());
    }
    out
}

} // verus!
