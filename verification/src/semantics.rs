//! The mathematical model of a preprocessing session: `scan_skip` gives the
//! cursor position where a skipped conditional branch ends, and `interp`
//! gives the result of running a session from a given state. The executable
//! session in the crate root is proved to return exactly what `interp` says.

use vstd::prelude::*;
use crate::errors::ErrView;
use crate::lines::lines_of;
use crate::subst::{DefSeq, def_lookup, def_remove, def_set, expand_defs};
use crate::table::{TextSeq, assoc_text};
use crate::text::{is_directive, tok1, tok2, tok3};

verus! {

/// Where the skip scan that starts at cursor `c` with open-nesting count `n`
/// ends: `Some(j)` puts the cursor just past the matching `#endif` or
/// `#else`, `None` means the input ended first. Nested conditionals met
/// during the scan raise the count; their closers lower it; only a closer
/// met at count zero belongs to the conditional that started the scan.
pub open spec fn scan_skip(lines: Seq<Seq<char>>, c: int, n: int) -> Option<int>
    decreases lines.len() - c,
{
    if c < 0 || c >= lines.len() {
        None
    } else if !is_directive(lines[c]) {
        scan_skip(lines, c + 1, n)
    } else {
        let w = tok1(lines[c]);
        if w == ("#ifdef")@ || w == ("#ifundef")@ {
            scan_skip(lines, c + 1, n + 1)
        } else if w == ("#endif")@ {
            if n == 0 {
                Some(c + 1)
            } else {
                scan_skip(lines, c + 1, n - 1)
            }
        } else if w == ("#else")@ {
            if n == 0 {
                Some(c + 1)
            } else {
                scan_skip(lines, c + 1, n)
            }
        } else {
            scan_skip(lines, c + 1, n)
        }
    }
}

/// A successful skip scan lands past where it started and inside the input.
pub proof fn lemma_scan_skip_bounds(lines: Seq<Seq<char>>, c: int, n: int)
    requires
        scan_skip(lines, c, n) is Some,
    ensures
        c < scan_skip(lines, c, n).unwrap() <= lines.len(),
    decreases lines.len() - c,
{
    if c < 0 || c >= lines.len() {
    } else if !is_directive(lines[c]) {
        lemma_scan_skip_bounds(lines, c + 1, n);
    } else {
        let w = tok1(lines[c]);
        if w == ("#ifdef")@ || w == ("#ifundef")@ {
            lemma_scan_skip_bounds(lines, c + 1, n + 1);
        } else if w == ("#endif")@ {
            if n != 0 {
                lemma_scan_skip_bounds(lines, c + 1, n - 1);
            }
        } else if w == ("#else")@ {
            if n != 0 {
                lemma_scan_skip_bounds(lines, c + 1, n);
            }
        } else {
            lemma_scan_skip_bounds(lines, c + 1, n);
        }
    }
}

/// The result of running a session over `lines` from cursor `i` with the
/// definition table `defs` and the output accumulated so far in `acc`.
/// `reg` is the library registry, `files` the supplied file texts, and
/// `depth` how many further levels of inclusion are allowed. Each content
/// line is substitution-expanded and appended with a line break; directive
/// lines are dispatched on their first word. An included text runs as a
/// fresh session with an empty definition table, and its whole output is
/// appended; its failure is the including session's failure.
pub open spec fn interp(
    lines: Seq<Seq<char>>,
    i: int,
    defs: DefSeq,
    acc: Seq<char>,
    reg: TextSeq,
    files: TextSeq,
    depth: nat,
) -> Result<Seq<char>, ErrView>
    decreases depth, lines.len() - i, 1int,
{
    if i < 0 || i >= lines.len() {
        Ok(acc)
    } else {
        let l = lines[i];
        if !is_directive(l) {
            interp(lines, i + 1, defs, acc + expand_defs(l, defs) + seq!['\n'], reg, files, depth)
        } else {
            let w = tok1(l);
            if w.len() == 0 {
                Err(ErrView::MalformedDirective { line: i })
            } else if w == ("#define")@ {
                let ident = tok2(l);
                if ident.len() == 0 {
                    Err(ErrView::MalformedDirective { line: i })
                } else {
                    let pay = tok3(l);
                    let v: Option<Seq<char>> = if pay.len() == 0 {
                        None
                    } else {
                        Some(pay)
                    };
                    interp(lines, i + 1, def_set(defs, ident, v), acc, reg, files, depth)
                }
            } else if w == ("#undefine")@ {
                let ident = tok2(l);
                if ident.len() == 0 {
                    Err(ErrView::MalformedDirective { line: i })
                } else {
                    interp(lines, i + 1, def_remove(defs, ident), acc, reg, files, depth)
                }
            } else if w == ("#ifdef")@ || w == ("#ifundef")@ {
                let ident = tok2(l);
                if ident.len() == 0 {
                    Err(ErrView::MalformedDirective { line: i })
                } else {
                    let defined = def_lookup(defs, ident) is Some;
                    let skip_branch = if w == ("#ifdef")@ {
                        defined
                    } else {
                        !defined
                    };
                    if skip_branch {
                        match scan_skip(lines, i + 1, 0) {
                            Option::None => Err(ErrView::UnterminatedConditional),
                            // A successful scan always lands past `i` and inside the
                            // input (`lemma_scan_skip_bounds`); the range test only
                            // keeps the recursion visibly well-founded.
                            Option::Some(j) => if i < j <= lines.len() {
                                interp(lines, j, defs, acc, reg, files, depth)
                            } else {
                                Err(ErrView::UnterminatedConditional)
                            },
                        }
                    } else {
                        interp(lines, i + 1, defs, acc, reg, files, depth)
                    }
                }
            } else if w == ("#else")@ {
                match scan_skip(lines, i + 1, 0) {
                    Option::None => Err(ErrView::UnterminatedConditional),
                    Option::Some(j) => if i < j <= lines.len() {
                        interp(lines, j, defs, acc, reg, files, depth)
                    } else {
                        Err(ErrView::UnterminatedConditional)
                    },
                }
            } else if w == ("#endif")@ {
                Err(ErrView::UnexpectedEndif { line: i })
            } else if w == ("#with")@ {
                let arg = tok2(l);
                if arg.len() == 0 {
                    Err(ErrView::MalformedDirective { line: i })
                } else {
                    let source = if arg[0] == '$' {
                        assoc_text(reg, arg)
                    } else {
                        assoc_text(files, arg)
                    };
                    match source {
                        Option::None => if arg[0] == '$' {
                            Err(ErrView::UnknownLibrary { line: i, name: arg })
                        } else {
                            Err(ErrView::FileUnavailable { line: i, path: arg })
                        },
                        Option::Some(text) => if depth == 0 {
                            Err(ErrView::IncludeDepthExceeded { line: i })
                        } else {
                            match interp(
                                lines_of(text),
                                0,
                                Seq::empty(),
                                Seq::empty(),
                                reg,
                                files,
                                (depth - 1) as nat,
                            ) {
                                Result::Err(e) => Err(e),
                                Result::Ok(included) => interp(
                                    lines,
                                    i + 1,
                                    defs,
                                    acc + included,
                                    reg,
                                    files,
                                    depth,
                                ),
                            }
                        },
                    }
                }
            } else {
                Err(ErrView::UnknownDirective { line: i })
            }
        }
    }
}

/// The view of the line-break literal.
pub proof fn lemma_nl()
    ensures
        ("\n")@ == seq!['\n'],
{
    reveal_strlit("\n");
    assert(("\n")@ =~= seq!['\n']);
}

/// The directive names are pairwise distinct, non-empty words.
pub proof fn lemma_directive_names()
    ensures
        ("#define")@.len() == 7,
        ("#undefine")@.len() == 9,
        ("#ifdef")@.len() == 6,
        ("#ifundef")@.len() == 8,
        ("#else")@.len() == 5,
        ("#endif")@.len() == 6,
        ("#with")@.len() == 5,
        ("#define")@ != ("#undefine")@,
        ("#define")@ != ("#ifdef")@,
        ("#define")@ != ("#ifundef")@,
        ("#define")@ != ("#else")@,
        ("#define")@ != ("#endif")@,
        ("#define")@ != ("#with")@,
        ("#undefine")@ != ("#ifdef")@,
        ("#undefine")@ != ("#ifundef")@,
        ("#undefine")@ != ("#else")@,
        ("#undefine")@ != ("#endif")@,
        ("#undefine")@ != ("#with")@,
        ("#ifdef")@ != ("#ifundef")@,
        ("#ifdef")@ != ("#else")@,
        ("#ifdef")@ != ("#endif")@,
        ("#ifdef")@ != ("#with")@,
        ("#ifundef")@ != ("#else")@,
        ("#ifundef")@ != ("#endif")@,
        ("#ifundef")@ != ("#with")@,
        ("#else")@ != ("#endif")@,
        ("#else")@ != ("#with")@,
        ("#endif")@ != ("#with")@,
{
    reveal_strlit("#define");
    reveal_strlit("#undefine");
    reveal_strlit("#ifdef");
    reveal_strlit("#ifundef");
    reveal_strlit("#else");
    reveal_strlit("#endif");
    reveal_strlit("#with");
    assert(("#define")@ =~= seq!['#', 'd', 'e', 'f', 'i', 'n', 'e']);
    assert(("#undefine")@ =~= seq!['#', 'u', 'n', 'd', 'e', 'f', 'i', 'n', 'e']);
    assert(("#ifdef")@ =~= seq!['#', 'i', 'f', 'd', 'e', 'f']);
    assert(("#ifundef")@ =~= seq!['#', 'i', 'f', 'u', 'n', 'd', 'e', 'f']);
    assert(("#else")@ =~= seq!['#', 'e', 'l', 's', 'e']);
    assert(("#endif")@ =~= seq!['#', 'e', 'n', 'd', 'i', 'f']);
    assert(("#with")@ =~= seq!['#', 'w', 'i', 't', 'h']);
}

} // verus!
