//! Session-level laws: properties of the session model [`interp`] that
//! hold for every input, proved once and for all. The executable session
//! returns exactly what `interp` says, so each law carries over to `run`.

use vstd::prelude::*;
use crate::errors::ErrView;
use crate::lines::lines_of;
use crate::semantics::{interp, lemma_directive_names, lemma_scan_skip_bounds, scan_skip};
use crate::subst::{
    DefSeq,
    def_lookup,
    def_remove,
    def_set,
    expand_defs,
    lemma_def_lookup_none,
    replace_seq,
};
use crate::table::{TextSeq, assoc_text};
use crate::text::{is_directive, tok1, tok2, tok3};

verus! {

/// The lines from `i` on, each closed with a line break.
pub open spec fn join_lines(lines: Seq<Seq<char>>, i: int) -> Seq<char>
    decreases lines.len() - i,
{
    if 0 <= i < lines.len() {
        lines[i] + seq!['\n'] + join_lines(lines, i + 1)
    } else {
        Seq::empty()
    }
}

/// The lines from `i` on, each with every occurrence of `x` replaced by
/// `v` and closed with a line break.
pub open spec fn join_lines_replaced(
    lines: Seq<Seq<char>>,
    i: int,
    x: Seq<char>,
    v: Seq<char>,
) -> Seq<char>
    decreases lines.len() - i,
{
    if 0 <= i < lines.len() {
        replace_seq(lines[i], x, v) + seq!['\n'] + join_lines_replaced(lines, i + 1, x, v)
    } else {
        Seq::empty()
    }
}

/// Expansion against a table whose definitions all lack a payload changes
/// nothing.
pub proof fn lemma_expand_no_payloads(line: Seq<char>, defs: DefSeq)
    requires
        forall|j: int| 0 <= j < defs.len() ==> defs[j].1 is None,
    ensures
        expand_defs(line, defs) == line,
    decreases defs.len(),
{
    if defs.len() == 0 {
    } else {
        assert(defs[0].1 is None);
        assert forall|j: int| 0 <= j < defs.skip(1).len() implies defs.skip(1)[j].1 is None by {
            assert(defs.skip(1)[j] == defs[j + 1]);
        }
        lemma_expand_no_payloads(line, defs.skip(1));
    }
}

/// A session over lines that hold no directive, against a table whose
/// definitions all lack payloads, appends each line unchanged.
pub proof fn lemma_no_payload_defs_pass_through(
    lines: Seq<Seq<char>>,
    i: int,
    defs: DefSeq,
    acc: Seq<char>,
    reg: TextSeq,
    files: TextSeq,
    depth: nat,
)
    requires
        forall|j: int| i <= j < lines.len() ==> !is_directive(lines[j]),
        forall|j: int| 0 <= j < defs.len() ==> defs[j].1 is None,
    ensures
        interp(lines, i, defs, acc, reg, files, depth) == Ok::<Seq<char>, ErrView>(
            acc + join_lines(lines, i),
        ),
    decreases lines.len() - i,
{
    if i < 0 || i >= lines.len() {
        assert(join_lines(lines, i) =~= Seq::<char>::empty());
        assert(acc + Seq::<char>::empty() =~= acc);
    } else {
        lemma_expand_no_payloads(lines[i], defs);
        lemma_no_payload_defs_pass_through(
            lines,
            i + 1,
            defs,
            acc + lines[i] + seq!['\n'],
            reg,
            files,
            depth,
        );
        assert(acc + lines[i] + seq!['\n'] + join_lines(lines, i + 1) =~= acc + join_lines(
            lines,
            i,
        ));
    }
}

/// Law: a session over input with no directive lines and no definitions
/// returns the input unchanged, apart from each line being closed with a
/// single line break.
pub proof fn lemma_no_directives_identity(
    lines: Seq<Seq<char>>,
    reg: TextSeq,
    files: TextSeq,
    depth: nat,
)
    requires
        forall|j: int| 0 <= j < lines.len() ==> !is_directive(lines[j]),
    ensures
        interp(lines, 0, Seq::empty(), Seq::empty(), reg, files, depth) == Ok::<
            Seq<char>,
            ErrView,
        >(join_lines(lines, 0)),
{
    lemma_no_payload_defs_pass_through(lines, 0, Seq::empty(), Seq::empty(), reg, files, depth);
    assert(Seq::<char>::empty() + join_lines(lines, 0) =~= join_lines(lines, 0));
}

/// Binding an identifier without a payload keeps the table payload-free.
pub proof fn lemma_def_set_none_keeps_no_payloads(defs: DefSeq, k: Seq<char>)
    requires
        forall|j: int| 0 <= j < defs.len() ==> defs[j].1 is None,
    ensures
        forall|j: int|
            0 <= j < def_set(defs, k, Option::None).len() ==> def_set(defs, k, Option::None)[j].1
                is None,
    decreases defs.len(),
{
    if defs.len() == 0 {
    } else if defs[0].0 == k {
        let r = def_set(defs, k, Option::None);
        assert forall|j: int| 0 <= j < r.len() implies r[j].1 is None by {
            if j > 0 {
                assert(r[j] == defs.skip(1)[j - 1]);
                assert(defs.skip(1)[j - 1] == defs[j]);
            }
        }
    } else {
        assert forall|j: int| 0 <= j < defs.skip(1).len() implies defs.skip(1)[j].1 is None by {
            assert(defs.skip(1)[j] == defs[j + 1]);
        }
        lemma_def_set_none_keeps_no_payloads(defs.skip(1), k);
        let r = def_set(defs, k, Option::None);
        let rr = def_set(defs.skip(1), k, Option::None);
        assert forall|j: int| 0 <= j < r.len() implies r[j].1 is None by {
            if j > 0 {
                assert(r[j] == rr[j - 1]);
            }
        }
    }
}

/// Law: `#define` of an identifier without a payload leaves references to
/// that identifier in later content lines unsubstituted; the lines pass
/// through unchanged.
pub proof fn lemma_define_without_payload_keeps_references(
    lines: Seq<Seq<char>>,
    i: int,
    defs: DefSeq,
    acc: Seq<char>,
    reg: TextSeq,
    files: TextSeq,
    depth: nat,
)
    requires
        0 <= i < lines.len(),
        is_directive(lines[i]),
        tok1(lines[i]) == ("#define")@,
        tok2(lines[i]).len() > 0,
        tok3(lines[i]).len() == 0,
        forall|j: int| i < j < lines.len() ==> !is_directive(lines[j]),
        forall|j: int| 0 <= j < defs.len() ==> defs[j].1 is None,
    ensures
        interp(lines, i, defs, acc, reg, files, depth) == Ok::<Seq<char>, ErrView>(
            acc + join_lines(lines, i + 1),
        ),
{
    lemma_directive_names();
    lemma_def_set_none_keeps_no_payloads(defs, tok2(lines[i]));
    lemma_no_payload_defs_pass_through(
        lines,
        i + 1,
        def_set(defs, tok2(lines[i]), Option::None),
        acc,
        reg,
        files,
        depth,
    );
}

/// Expanding against a table holding one definition with a payload is
/// exactly the plain substring replacement.
pub proof fn lemma_single_definition_substitutes(line: Seq<char>, x: Seq<char>, v: Seq<char>)
    ensures
        expand_defs(line, seq![(x, Option::Some(v))]) == replace_seq(line, x, v),
{
    let one: DefSeq = seq![(x, Option::Some(v))];
    assert(one[0] == (x, Option::Some(v)));
    assert(one.skip(1) =~= Seq::<(Seq<char>, Option<Seq<char>>)>::empty());
    assert(expand_defs(replace_seq(line, x, v), one.skip(1)) == replace_seq(line, x, v));
    assert(expand_defs(line, one) == expand_defs(replace_seq(line, x, v), one.skip(1)));
}

/// A session over directive-free lines with one payload-carrying
/// definition replaces every occurrence in every line.
pub proof fn lemma_single_def_pass_through(
    lines: Seq<Seq<char>>,
    i: int,
    x: Seq<char>,
    v: Seq<char>,
    acc: Seq<char>,
    reg: TextSeq,
    files: TextSeq,
    depth: nat,
)
    requires
        forall|j: int| i <= j < lines.len() ==> !is_directive(lines[j]),
    ensures
        interp(lines, i, seq![(x, Option::Some(v))], acc, reg, files, depth) == Ok::<
            Seq<char>,
            ErrView,
        >(acc + join_lines_replaced(lines, i, x, v)),
    decreases lines.len() - i,
{
    if i < 0 || i >= lines.len() {
        assert(join_lines_replaced(lines, i, x, v) =~= Seq::<char>::empty());
        assert(acc + Seq::<char>::empty() =~= acc);
    } else {
        lemma_single_definition_substitutes(lines[i], x, v);
        lemma_single_def_pass_through(
            lines,
            i + 1,
            x,
            v,
            acc + replace_seq(lines[i], x, v) + seq!['\n'],
            reg,
            files,
            depth,
        );
        assert(acc + replace_seq(lines[i], x, v) + seq!['\n'] + join_lines_replaced(
            lines,
            i + 1,
            x,
            v,
        ) =~= acc + join_lines_replaced(lines, i, x, v));
    }
}

/// Law: `#define x v` followed by content lines substitutes `v` for every
/// occurrence of `x` in each following line.
pub proof fn lemma_define_with_payload_substitutes(
    lines: Seq<Seq<char>>,
    i: int,
    acc: Seq<char>,
    reg: TextSeq,
    files: TextSeq,
    depth: nat,
)
    requires
        0 <= i < lines.len(),
        is_directive(lines[i]),
        tok1(lines[i]) == ("#define")@,
        tok2(lines[i]).len() > 0,
        tok3(lines[i]).len() > 0,
        forall|j: int| i < j < lines.len() ==> !is_directive(lines[j]),
    ensures
        interp(lines, i, Seq::empty(), acc, reg, files, depth) == Ok::<Seq<char>, ErrView>(
            acc + join_lines_replaced(lines, i + 1, tok2(lines[i]), tok3(lines[i])),
        ),
{
    lemma_directive_names();
    let x = tok2(lines[i]);
    let v = tok3(lines[i]);
    assert(def_set(Seq::empty(), x, Option::Some(v)) =~= seq![(x, Option::Some(v))]);
    lemma_single_def_pass_through(lines, i + 1, x, v, acc, reg, files, depth);
}

/// Whether no two entries bind the same identifier.
pub open spec fn distinct_keys(defs: DefSeq) -> bool {
    forall|a: int, b: int| 0 <= a < b < defs.len() ==> defs[a].0 != defs[b].0
}

/// Law: `#undefine x` after `#define x v` removes both the existence and
/// the substitution effect of `x`: the table equals the one where `x` was
/// merely undefined, and `x` is no longer defined at all.
pub proof fn lemma_undefine_cancels_define(defs: DefSeq, k: Seq<char>, v: Option<Seq<char>>)
    requires
        distinct_keys(defs),
    ensures
        def_remove(def_set(defs, k, v), k) == def_remove(defs, k),
        def_lookup(def_remove(def_set(defs, k, v), k), k) is None,
    decreases defs.len(),
{
    if defs.len() == 0 {
        assert(def_remove(def_set(defs, k, v), k) =~= def_remove(defs, k));
        assert(def_lookup(seq![(k, v)].skip(1), k) is None);
    } else if defs[0].0 == k {
        let s = def_set(defs, k, v);
        assert(s == seq![(k, v)] + defs.skip(1));
        assert(s[0].0 == k);
        assert(s.skip(1) =~= defs.skip(1));
        assert(def_remove(s, k) == defs.skip(1));
        assert(def_remove(defs, k) == defs.skip(1));
        assert forall|j: int| 0 <= j < defs.skip(1).len() implies defs.skip(1)[j].0 != k by {
            assert(defs.skip(1)[j] == defs[j + 1]);
        }
        lemma_def_lookup_none(defs.skip(1), k);
    } else {
        let s = def_set(defs, k, v);
        assert(s == seq![defs[0]] + def_set(defs.skip(1), k, v));
        assert(s[0].0 == defs[0].0);
        assert(s.skip(1) =~= def_set(defs.skip(1), k, v));
        assert forall|a: int, b: int|
            0 <= a < b < defs.skip(1).len() implies defs.skip(1)[a].0 != defs.skip(1)[b].0 by {
            assert(defs.skip(1)[a] == defs[a + 1]);
            assert(defs.skip(1)[b] == defs[b + 1]);
        }
        lemma_undefine_cancels_define(defs.skip(1), k, v);
        assert(def_remove(s, k) =~= seq![defs[0]] + def_remove(def_set(defs.skip(1), k, v), k));
        assert(def_remove(defs, k) =~= seq![defs[0]] + def_remove(defs.skip(1), k));
        let r = def_remove(s, k);
        assert(r[0].0 != k);
        assert(r.skip(1) =~= def_remove(def_set(defs.skip(1), k, v), k));
    }
}

/// Law: `#undefine x` directly after `#define x ...` removes both the
/// existence and the substitution effect of `x` for all subsequent lines:
/// the rest of the input passes through as if `x` had never been defined.
pub proof fn lemma_define_then_undefine_leaves_no_trace(
    lines: Seq<Seq<char>>,
    i: int,
    acc: Seq<char>,
    reg: TextSeq,
    files: TextSeq,
    depth: nat,
)
    requires
        0 <= i,
        i + 1 < lines.len(),
        is_directive(lines[i]),
        tok1(lines[i]) == ("#define")@,
        tok2(lines[i]).len() > 0,
        is_directive(lines[i + 1]),
        tok1(lines[i + 1]) == ("#undefine")@,
        tok2(lines[i + 1]) == tok2(lines[i]),
        forall|j: int| i + 1 < j < lines.len() ==> !is_directive(lines[j]),
    ensures
        interp(lines, i, Seq::empty(), acc, reg, files, depth) == Ok::<Seq<char>, ErrView>(
            acc + join_lines(lines, i + 2),
        ),
{
    lemma_directive_names();
    let x = tok2(lines[i]);
    let pay = tok3(lines[i]);
    let v: Option<Seq<char>> = if pay.len() == 0 {
        Option::None
    } else {
        Option::Some(pay)
    };
    let defs1 = def_set(Seq::empty(), x, v);
    lemma_undefine_cancels_define(Seq::empty(), x, v);
    assert(def_remove(defs1, x) =~= Seq::<(Seq<char>, Option<Seq<char>>)>::empty());
    assert(interp(lines, i, Seq::empty(), acc, reg, files, depth) == interp(
        lines,
        i + 1,
        defs1,
        acc,
        reg,
        files,
        depth,
    ));
    assert(interp(lines, i + 1, defs1, acc, reg, files, depth) == interp(
        lines,
        i + 2,
        def_remove(defs1, x),
        acc,
        reg,
        files,
        depth,
    ));
    lemma_no_payload_defs_pass_through(lines, i + 2, Seq::empty(), acc, reg, files, depth);
}

/// Law: a conditional whose test selects the skip side emits nothing from
/// its branch — the session jumps straight past the matching closer with
/// table and output untouched, and the lines after the closer are
/// processed exactly as they would be from there.
pub proof fn lemma_skipped_branch_emits_nothing(
    lines: Seq<Seq<char>>,
    i: int,
    defs: DefSeq,
    acc: Seq<char>,
    reg: TextSeq,
    files: TextSeq,
    depth: nat,
    j: int,
)
    requires
        0 <= i < lines.len(),
        is_directive(lines[i]),
        tok1(lines[i]) == ("#ifdef")@,
        tok2(lines[i]).len() > 0,
        def_lookup(defs, tok2(lines[i])) is Some,
        scan_skip(lines, i + 1, 0) == Some(j),
    ensures
        interp(lines, i, defs, acc, reg, files, depth) == interp(
            lines,
            j,
            defs,
            acc,
            reg,
            files,
            depth,
        ),
{
    lemma_directive_names();
    lemma_scan_skip_bounds(lines, i + 1, 0);
}

/// Law: the same for the symmetric conditional — `#ifundef` on an
/// identifier that is not defined skips its branch without emitting
/// anything, resuming just past the matching closer.
pub proof fn lemma_skipped_ifundef_branch_emits_nothing(
    lines: Seq<Seq<char>>,
    i: int,
    defs: DefSeq,
    acc: Seq<char>,
    reg: TextSeq,
    files: TextSeq,
    depth: nat,
    j: int,
)
    requires
        0 <= i < lines.len(),
        is_directive(lines[i]),
        tok1(lines[i]) == ("#ifundef")@,
        tok2(lines[i]).len() > 0,
        def_lookup(defs, tok2(lines[i])) is None,
        scan_skip(lines, i + 1, 0) == Some(j),
    ensures
        interp(lines, i, defs, acc, reg, files, depth) == interp(
            lines,
            j,
            defs,
            acc,
            reg,
            files,
            depth,
        ),
{
    lemma_directive_names();
    lemma_scan_skip_bounds(lines, i + 1, 0);
}

/// Depth shift for the skip scan: if a scan that starts at `c` with count
/// `m` closes at `j` on an `#endif`, then the same walk carried out with
/// any higher count continues from `j` with the surplus reduced by one.
pub proof fn lemma_scan_shift(lines: Seq<Seq<char>>, c: int, m: int, k: int, j: int)
    requires
        m >= 0,
        k >= 1,
        scan_skip(lines, c, m) == Some(j),
        tok1(lines[j - 1]) == ("#endif")@,
    ensures
        scan_skip(lines, c, m + k) == scan_skip(lines, j, k - 1),
    decreases lines.len() - c,
{
    lemma_directive_names();
    lemma_scan_skip_bounds(lines, c, m);
    if !is_directive(lines[c]) {
        lemma_scan_shift(lines, c + 1, m, k, j);
    } else {
        let w = tok1(lines[c]);
        if w == ("#ifdef")@ || w == ("#ifundef")@ {
            lemma_scan_shift(lines, c + 1, m + 1, k, j);
        } else if w == ("#endif")@ {
            if m == 0 {
                assert(j == c + 1);
            } else {
                lemma_scan_shift(lines, c + 1, m - 1, k, j);
            }
        } else if w == ("#else")@ {
            if m == 0 {
                assert(j == c + 1);
                assert(tok1(lines[j - 1]) == ("#else")@);
                assert(false);
            } else {
                lemma_scan_shift(lines, c + 1, m, k, j);
            }
        } else {
            lemma_scan_shift(lines, c + 1, m, k, j);
        }
    }
}

/// Law: a complete inner conditional that lies wholly inside a skipped
/// outer branch does not end the outer skip early — after the inner
/// block's own `#endif`, the outer scan carries on, so the outer branch
/// ends only at its own closer.
pub proof fn lemma_inner_block_does_not_end_outer_skip(lines: Seq<Seq<char>>, c: int, j: int)
    requires
        0 <= c < lines.len(),
        is_directive(lines[c]),
        tok1(lines[c]) == ("#ifdef")@ || tok1(lines[c]) == ("#ifundef")@,
        scan_skip(lines, c + 1, 0) == Some(j),
        tok1(lines[j - 1]) == ("#endif")@,
    ensures
        scan_skip(lines, c, 0) == scan_skip(lines, j, 0),
{
    lemma_directive_names();
    assert(scan_skip(lines, c, 0) == scan_skip(lines, c + 1, 1));
    lemma_scan_shift(lines, c + 1, 0, 1, j);
}

/// Law: an included text runs as a fresh session with an empty definition
/// table — the includer's definitions are invisible inside it — and the
/// includer afterwards continues with its own table unchanged, so nothing
/// defined inside the inclusion leaks back out.
pub proof fn lemma_include_runs_isolated(
    lines: Seq<Seq<char>>,
    i: int,
    defs: DefSeq,
    acc: Seq<char>,
    reg: TextSeq,
    files: TextSeq,
    depth: nat,
)
    requires
        0 <= i < lines.len(),
        is_directive(lines[i]),
        tok1(lines[i]) == ("#with")@,
        tok2(lines[i]).len() > 0,
        tok2(lines[i])[0] == '$',
        assoc_text(reg, tok2(lines[i])) is Some,
        depth >= 1,
    ensures
        interp(lines, i, defs, acc, reg, files, depth) == (match interp(
            lines_of(assoc_text(reg, tok2(lines[i])).unwrap()),
            0,
            Seq::empty(),
            Seq::empty(),
            reg,
            files,
            (depth - 1) as nat,
        ) {
            Result::Ok(included) => interp(lines, i + 1, defs, acc + included, reg, files, depth),
            Result::Err(e) => Err(e),
        }),
{
    lemma_directive_names();
}

/// Law: input whose entered skip finds no matching closer before the end
/// of the input fails with the unterminated-conditional error; no partial
/// output is returned.
pub proof fn lemma_unterminated_conditional_fails(
    lines: Seq<Seq<char>>,
    i: int,
    defs: DefSeq,
    acc: Seq<char>,
    reg: TextSeq,
    files: TextSeq,
    depth: nat,
)
    requires
        0 <= i < lines.len(),
        is_directive(lines[i]),
        tok1(lines[i]) == ("#ifdef")@,
        tok2(lines[i]).len() > 0,
        def_lookup(defs, tok2(lines[i])) is Some,
        scan_skip(lines, i + 1, 0) is None,
    ensures
        interp(lines, i, defs, acc, reg, files, depth) == Err::<Seq<char>, ErrView>(
            ErrView::UnterminatedConditional,
        ),
{
    lemma_directive_names();
}

/// Law: `#with` naming a file whose text was not supplied fails with the
/// file-unavailable error rather than yielding any output.
pub proof fn lemma_missing_file_fails(
    lines: Seq<Seq<char>>,
    i: int,
    defs: DefSeq,
    acc: Seq<char>,
    reg: TextSeq,
    files: TextSeq,
    depth: nat,
)
    requires
        0 <= i < lines.len(),
        is_directive(lines[i]),
        tok1(lines[i]) == ("#with")@,
        tok2(lines[i]).len() > 0,
        tok2(lines[i])[0] != '$',
        assoc_text(files, tok2(lines[i])) is None,
    ensures
        interp(lines, i, defs, acc, reg, files, depth) == Err::<Seq<char>, ErrView>(
            ErrView::FileUnavailable { line: i, path: tok2(lines[i]) },
        ),
{
    lemma_directive_names();
}

} // verus!
