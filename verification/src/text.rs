//! Word-level view of a single source line: whitespace skipping and
//! whitespace-delimited tokens, together with verified helpers on `&str`.

use vstd::prelude::*;

verus! {

/// Characters that separate words inside one line.
pub open spec fn is_space(c: char) -> bool {
    c == ' ' || c == '\t' || c == '\r'
}

/// A line is a directive exactly when its first character is the marker `#`.
pub open spec fn is_directive(line: Seq<char>) -> bool {
    line.len() > 0 && line[0] == '#'
}

/// The sequence with its leading whitespace removed.
pub open spec fn drop_sp(s: Seq<char>) -> Seq<char>
    decreases s.len(),
{
    if s.len() > 0 && is_space(s[0]) {
        drop_sp(s.skip(1))
    } else {
        s
    }
}

/// The longest whitespace-free prefix of the sequence.
pub open spec fn word_of(s: Seq<char>) -> Seq<char>
    decreases s.len(),
{
    if s.len() > 0 && !is_space(s[0]) {
        seq![s[0]] + word_of(s.skip(1))
    } else {
        Seq::empty()
    }
}

/// What remains after the longest whitespace-free prefix.
pub open spec fn after_word(s: Seq<char>) -> Seq<char>
    decreases s.len(),
{
    if s.len() > 0 && !is_space(s[0]) {
        after_word(s.skip(1))
    } else {
        s
    }
}

/// First whitespace-delimited word of a line (empty if the line is blank).
pub open spec fn tok1(line: Seq<char>) -> Seq<char> {
    word_of(drop_sp(line))
}

/// What follows the first word.
pub open spec fn rest1(line: Seq<char>) -> Seq<char> {
    after_word(drop_sp(line))
}

/// Second whitespace-delimited word of a line (empty if absent).
pub open spec fn tok2(line: Seq<char>) -> Seq<char> {
    word_of(drop_sp(rest1(line)))
}

/// What follows the second word.
pub open spec fn rest2(line: Seq<char>) -> Seq<char> {
    after_word(drop_sp(rest1(line)))
}

/// Third whitespace-delimited word of a line (empty if absent).
pub open spec fn tok3(line: Seq<char>) -> Seq<char> {
    word_of(drop_sp(rest2(line)))
}

/// Whether the line's first character is `#`, decided executably.
pub fn line_is_directive(line: &str) -> (r: bool)
    ensures
        r == is_directive(line@),
{
    let n: usize = line.unicode_len();
    if n == 0 {
        false
    } else {
        line.get_char(0) == '#'
    }
}

/// Whether the string starts with the given character.
pub fn starts_with_char(s: &str, c: char) -> (r: bool)
    ensures
        r == (s@.len() > 0 && s@[0] == c),
{
    let n: usize = s.unicode_len();
    if n == 0 {
        false
    } else {
        s.get_char(0) == c
    }
}

/// Character-for-character equality of two string slices.
pub fn str_eq(a: &str, b: &str) -> (r: bool)
    ensures
        r == (a@ == b@),
{
    let na: usize = a.unicode_len();
    let nb: usize = b.unicode_len();
    if na != nb {
        return false;
    }
    let mut k: usize = 0;
    while k < na
        invariant
            k <= na,
            na == a@.len(),
            nb == b@.len(),
            na == nb,
            forall|m: int| 0 <= m < k ==> a@[m] == b@[m],
        decreases na - k,
    {
        if a.get_char(k) != b.get_char(k) {
            proof {
                assert(a@[k as int] != b@[k as int]);
            }
            return false;
        }
        k = k + 1;
    }
    proof {
        assert(a@ =~= b@);
    }
    true
}

/// Position of the first non-space character at or after `i`.
fn skip_spaces_from(s: &str, i: usize) -> (j: usize)
    requires
        i <= s@.len(),
    ensures
        i <= j <= s@.len(),
        s@.skip(j as int) == drop_sp(s@.skip(i as int)),
{
    let n: usize = s.unicode_len();
    let mut j: usize = i;
    loop
        invariant
            i <= j <= n,
            n == s@.len(),
            drop_sp(s@.skip(j as int)) == drop_sp(s@.skip(i as int)),
        ensures
            i <= j <= n,
            n == s@.len(),
            drop_sp(s@.skip(j as int)) == drop_sp(s@.skip(i as int)),
            j == n || !is_space(s@[j as int]),
        decreases n - j,
    {
        if j >= n {
            break;
        }
        let c: char = s.get_char(j);
        if c == ' ' || c == '\t' || c == '\r' {
            proof {
                assert(s@.skip(j as int)[0] == s@[j as int]);
                assert(s@.skip(j as int).skip(1) =~= s@.skip(j as int + 1));
            }
            j = j + 1;
        } else {
            break;
        }
    }
    proof {
        if j == n {
            assert(s@.skip(j as int) =~= Seq::<char>::empty());
        }
        assert(drop_sp(s@.skip(j as int)) == s@.skip(j as int));
    }
    j
}

/// Position just past the word that starts at `start`.
fn word_end_from(s: &str, start: usize) -> (end: usize)
    requires
        start <= s@.len(),
    ensures
        start <= end <= s@.len(),
        word_of(s@.skip(start as int)) == s@.subrange(start as int, end as int),
        after_word(s@.skip(start as int)) == s@.skip(end as int),
{
    let n: usize = s.unicode_len();
    let mut j: usize = start;
    loop
        invariant
            start <= j <= n,
            n == s@.len(),
            word_of(s@.skip(start as int)) == s@.subrange(start as int, j as int) + word_of(
                s@.skip(j as int),
            ),
            after_word(s@.skip(start as int)) == after_word(s@.skip(j as int)),
        ensures
            start <= j <= n,
            n == s@.len(),
            word_of(s@.skip(start as int)) == s@.subrange(start as int, j as int),
            after_word(s@.skip(start as int)) == s@.skip(j as int),
        decreases n - j,
    {
        if j >= n {
            proof {
                assert(s@.skip(j as int) =~= Seq::<char>::empty());
                assert(s@.subrange(start as int, j as int) + Seq::<char>::empty() =~= s@.subrange(
                    start as int,
                    j as int,
                ));
            }
            break;
        }
        let c: char = s.get_char(j);
        if c == ' ' || c == '\t' || c == '\r' {
            proof {
                assert(s@.skip(j as int)[0] == s@[j as int]);
                assert(s@.subrange(start as int, j as int) + Seq::<char>::empty() =~= s@.subrange(
                    start as int,
                    j as int,
                ));
            }
            break;
        }
        proof {
            assert(s@.skip(j as int)[0] == s@[j as int]);
            assert(!is_space(s@[j as int]));
            assert(s@.skip(j as int).skip(1) =~= s@.skip(j as int + 1));
            assert(s@.subrange(start as int, j as int) + seq![s@[j as int]] =~= s@.subrange(
                start as int,
                j as int + 1,
            ));
            assert((s@.subrange(start as int, j as int) + seq![s@[j as int]]) + word_of(
                s@.skip(j as int + 1),
            ) =~= s@.subrange(start as int, j as int) + (seq![s@[j as int]] + word_of(
                s@.skip(j as int + 1),
            )));
        }
        j = j + 1;
    }
    j
}

/// The whitespace-delimited word found at or after position `i`, together
/// with the position just past it.
pub fn token_from(s: &str, i: usize) -> (r: (String, usize))
    requires
        i <= s@.len(),
    ensures
        r.0@ == word_of(drop_sp(s@.skip(i as int))),
        i <= r.1 <= s@.len(),
        s@.skip(r.1 as int) == after_word(drop_sp(s@.skip(i as int))),
{
    let start: usize = skip_spaces_from(s, i);
    let end: usize = word_end_from(s, start);
    let w: &str = s.substring_char(start, end);
    proof {
        assert(w@ =~= s@.subrange(start as int, end as int));
    }
    (w.to_owned(), end)
}

} // verus!
