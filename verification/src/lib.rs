//! A line-oriented text preprocessor: directive lines (marked by a leading
//! `#`) control conditional inclusion, simple identifier substitution, and
//! splicing of registered or caller-supplied text; every other line is
//! substitution-expanded and appended to the output. What `run` returns is
//! proved equal to the mathematical session model in [`semantics`].

use vstd::prelude::*;

pub mod errors;
pub mod laws;
pub mod lines;
pub mod semantics;
pub mod subst;
pub mod table;
pub mod text;

pub use errors::PpError;
pub use subst::Defs;
pub use table::TextTable;

use crate::errors::ErrView;
use crate::lines::{lines_of, split_lines};
use crate::semantics::{interp, lemma_nl, lemma_scan_skip_bounds, scan_skip};
use crate::subst::{DefSeq, def_set, opt_text_view};
use crate::text::{line_is_directive, starts_with_char, str_eq, token_from};

verus! {

/// How many levels of `#with` inclusion a session follows before it reports
/// an error instead of recursing further.
pub const MAX_INCLUDE_DEPTH: usize = 16;

/// The session's input lines rendered for [`Preprocessor::describe`]: each
/// line indented and closed with a line break.
pub open spec fn render_lines(lines: Seq<Seq<char>>, i: int) -> Seq<char>
    decreases lines.len() - i,
{
    if 0 <= i < lines.len() {
        ("    ")@ + lines[i] + ("\n")@ + render_lines(lines, i + 1)
    } else {
        Seq::empty()
    }
}

/// One preprocessing session: the source split into lines, a cursor into
/// them, the session's definition table, and the output accumulated so far.
pub struct Preprocessor {
    lines: Vec<String>,
    out: String,
    defs: Defs,
    index: usize,
}

impl Preprocessor {
    /// The session's source lines.
    pub closed spec fn lines_view(&self) -> Seq<Seq<char>> {
        self.lines.deep_view()
    }

    /// The session's definition table.
    pub closed spec fn defs_view(&self) -> DefSeq {
        self.defs@
    }

    /// The output accumulated so far.
    pub closed spec fn out_view(&self) -> Seq<char> {
        self.out@
    }

    /// The cursor: the index of the next line to process.
    pub closed spec fn cursor(&self) -> int {
        self.index as int
    }

    /// A fresh session over the given input, with an empty definition
    /// table, an empty output, and the cursor at the first line.
    pub fn new(input: &str) -> (p: Preprocessor)
        ensures
            p.lines_view() == lines_of(input@),
            p.defs_view() == Seq::<(Seq<char>, Option<Seq<char>>)>::empty(),
            p.out_view() == Seq::<char>::empty(),
            p.cursor() == 0,
    {
        Preprocessor { lines: split_lines(input), out: String::new(), defs: Defs::new(), index: 0 }
    }

    /// Pre-populates the definition table before the session runs;
    /// an existing binding of the same identifier is overwritten.
    pub fn define(&mut self, key: String, value: Option<String>)
        ensures
            final(self).defs_view() == def_set(old(self).defs_view(), key@, opt_text_view(value)),
            final(self).lines_view() == old(self).lines_view(),
            final(self).out_view() == old(self).out_view(),
            final(self).cursor() == old(self).cursor(),
    {
        self.defs.set_def(key, value);
    }

    /// Advances the cursor past the skipped branch of a conditional: to
    /// just after the `#endif` or `#else` that closes the branch starting
    /// at the current cursor, respecting nested conditionals met on the
    /// way. Fails when the input ends before the branch is closed.
    pub fn read_until_endif_or_else(&mut self) -> (r: Result<(), PpError>)
        ensures
            final(self).lines_view() == old(self).lines_view(),
            final(self).defs_view() == old(self).defs_view(),
            final(self).out_view() == old(self).out_view(),
            match r {
                Ok(_) => scan_skip(old(self).lines_view(), old(self).cursor(), 0) == Some(
                    final(self).cursor(),
                ),
                Err(e) => e@ == ErrView::UnterminatedConditional && scan_skip(
                    old(self).lines_view(),
                    old(self).cursor(),
                    0,
                ) is None,
            },
    {
        let ghost l0 = self.lines_view();
        let ghost i0 = self.cursor();
        let mut n: usize = 0;
        while self.index < self.lines.len()
            invariant
                l0 == old(self).lines_view(),
                i0 == old(self).cursor(),
                self.lines_view() == l0,
                self.defs_view() == old(self).defs_view(),
                self.out_view() == old(self).out_view(),
                n <= self.cursor(),
                scan_skip(l0, self.cursor(), n as int) == scan_skip(l0, i0, 0),
            decreases l0.len() - self.cursor(),
        {
            let here: usize = self.index;
            let line: String = self.lines[here].clone();
            proof {
                assert(line@ == l0[here as int]);
            }
            if !line_is_directive(line.as_str()) {
                self.index = here + 1;
            } else {
                let (w1, _p1): (String, usize) = token_from(line.as_str(), 0);
                proof {
                    assert(line@.skip(0) =~= line@);
                }
                let opens: bool = str_eq(w1.as_str(), "#ifdef") || str_eq(
                    w1.as_str(),
                    "#ifundef",
                );
                if opens {
                    n = n + 1;
                    self.index = here + 1;
                } else if str_eq(w1.as_str(), "#endif") {
                    if n == 0 {
                        self.index = here + 1;
                        return Ok(());
                    }
                    n = n - 1;
                    self.index = here + 1;
                } else if str_eq(w1.as_str(), "#else") {
                    if n == 0 {
                        self.index = here + 1;
                        return Ok(());
                    }
                    self.index = here + 1;
                } else {
                    self.index = here + 1;
                }
            }
        }
        Err(PpError::UnterminatedConditional)
    }

    /// A readable account of the session: its input lines, indented, and
    /// the output accumulated so far.
    pub fn describe(&self) -> (r: String)
        ensures
            r@ == ("Preprocessor Data:\n  Input:\n")@ + render_lines(self.lines_view(), 0) + (
            "  Output:\n")@ + self.out_view() + ("\n")@,
    {
        let mut r: String = String::new();
        r.append("Preprocessor Data:\n  Input:\n");
        proof {
            assert(r@ =~= ("Preprocessor Data:\n  Input:\n")@);
        }
        let n: usize = self.lines.len();
        let mut i: usize = 0;
        while i < n
            invariant
                i <= n,
                n == self.lines.len(),
                ("Preprocessor Data:\n  Input:\n")@ + render_lines(self.lines_view(), 0) == r@
                    + render_lines(self.lines_view(), i as int),
            decreases n - i,
        {
            let ghost prev = r@;
            r.append("    ");
            r.append(self.lines[i].as_str());
            r.append("\n");
            proof {
                assert(self.lines[i as int]@ == self.lines_view()[i as int]);
                assert(r@ + render_lines(self.lines_view(), i as int + 1) =~= prev + (("    ")@
                    + self.lines_view()[i as int] + ("\n")@ + render_lines(
                    self.lines_view(),
                    i as int + 1,
                )));
            }
            i = i + 1;
        }
        proof {
            assert(render_lines(self.lines_view(), n as int) =~= Seq::<char>::empty());
            assert(r@ + Seq::<char>::empty() =~= r@);
        }
        r.append("  Output:\n");
        r.append(self.out.as_str());
        r.append("\n");
        r
    }

    /// Runs the session to completion and returns the accumulated output,
    /// or the first error met. The result is exactly what the session
    /// model `interp` yields from the session's current state, with
    /// [`MAX_INCLUDE_DEPTH`] levels of inclusion allowed.
    pub fn run(&mut self, registry: &TextTable, files: &TextTable) -> (r: Result<
        String,
        PpError,
    >)
        ensures
            final(self).lines_view() == old(self).lines_view(),
            match r {
                Ok(s) => interp(
                    old(self).lines_view(),
                    old(self).cursor(),
                    old(self).defs_view(),
                    old(self).out_view(),
                    registry@,
                    files@,
                    MAX_INCLUDE_DEPTH as nat,
                ) == Ok::<Seq<char>, ErrView>(s@) && final(self).out_view() == s@,
                Err(e) => interp(
                    old(self).lines_view(),
                    old(self).cursor(),
                    old(self).defs_view(),
                    old(self).out_view(),
                    registry@,
                    files@,
                    MAX_INCLUDE_DEPTH as nat,
                ) == Err::<Seq<char>, ErrView>(e@),
            },
    {
        self.run_depth(registry, files, MAX_INCLUDE_DEPTH)
    }

    /// The session loop, with `depth` further levels of inclusion allowed.
    fn run_depth(&mut self, registry: &TextTable, files: &TextTable, depth: usize) -> (r: Result<
        String,
        PpError,
    >)
        ensures
            final(self).lines_view() == old(self).lines_view(),
            match r {
                Ok(s) => interp(
                    old(self).lines_view(),
                    old(self).cursor(),
                    old(self).defs_view(),
                    old(self).out_view(),
                    registry@,
                    files@,
                    depth as nat,
                ) == Ok::<Seq<char>, ErrView>(s@) && final(self).out_view() == s@,
                Err(e) => interp(
                    old(self).lines_view(),
                    old(self).cursor(),
                    old(self).defs_view(),
                    old(self).out_view(),
                    registry@,
                    files@,
                    depth as nat,
                ) == Err::<Seq<char>, ErrView>(e@),
            },
        decreases depth,
    {
        let ghost l0 = self.lines_view();
        let ghost tgt = interp(
            l0,
            self.cursor(),
            self.defs_view(),
            self.out_view(),
            registry@,
            files@,
            depth as nat,
        );
        while self.index < self.lines.len()
            invariant
                l0 == old(self).lines_view(),
                tgt == interp(
                    l0,
                    old(self).cursor(),
                    old(self).defs_view(),
                    old(self).out_view(),
                    registry@,
                    files@,
                    depth as nat,
                ),
                self.lines_view() == l0,
                interp(
                    l0,
                    self.cursor(),
                    self.defs_view(),
                    self.out_view(),
                    registry@,
                    files@,
                    depth as nat,
                ) == tgt,
            decreases l0.len() - self.cursor(),
        {
            let here: usize = self.index;
            let ghost d_it = self.defs_view();
            let ghost o_it = self.out_view();
            let line: String = self.lines[here].clone();
            proof {
                assert(line@ == l0[here as int]);
            }
            if !line_is_directive(line.as_str()) {
                let expanded: String = self.defs.expand_line(line.as_str());
                self.out.append(expanded.as_str());
                self.out.append("\n");
                self.index = here + 1;
                proof {
                    lemma_nl();
                    assert(self.out_view() == o_it + crate::subst::expand_defs(line@, d_it)
                        + seq!['\n']);
                }
            } else {
                let (w1, p1): (String, usize) = token_from(line.as_str(), 0);
                proof {
                    assert(line@.skip(0) =~= line@);
                }
                if w1.unicode_len() == 0 {
                    return Err(PpError::MalformedDirective { line: here });
                } else if str_eq(w1.as_str(), "#define") {
                    let (ident, p2): (String, usize) = token_from(line.as_str(), p1);
                    if ident.unicode_len() == 0 {
                        return Err(PpError::MalformedDirective { line: here });
                    }
                    let (pay, _p3): (String, usize) = token_from(line.as_str(), p2);
                    let value: Option<String> = if pay.unicode_len() == 0 {
                        Option::None
                    } else {
                        Option::Some(pay)
                    };
                    self.defs.set_def(ident, value);
                    self.index = here + 1;
                } else if str_eq(w1.as_str(), "#undefine") {
                    let (ident, _p2): (String, usize) = token_from(line.as_str(), p1);
                    if ident.unicode_len() == 0 {
                        return Err(PpError::MalformedDirective { line: here });
                    }
                    self.defs.remove_def(ident.as_str());
                    self.index = here + 1;
                } else {
                    let is_ifdef: bool = str_eq(w1.as_str(), "#ifdef");
                    let is_ifundef: bool = if is_ifdef {
                        false
                    } else {
                        str_eq(w1.as_str(), "#ifundef")
                    };
                    if is_ifdef || is_ifundef {
                        let (ident, _p2): (String, usize) = token_from(line.as_str(), p1);
                        if ident.unicode_len() == 0 {
                            return Err(PpError::MalformedDirective { line: here });
                        }
                        let defined: bool = self.defs.contains_def(ident.as_str());
                        self.index = here + 1;
                        let do_skip: bool = if is_ifdef {
                            defined
                        } else {
                            !defined
                        };
                        if do_skip {
                            match self.read_until_endif_or_else() {
                                Result::Ok(_) => {
                                    proof {
                                        lemma_scan_skip_bounds(l0, here as int + 1, 0);
                                    }
                                },
                                Result::Err(e) => {
                                    return Err(e);
                                },
                            }
                        }
                    } else if str_eq(w1.as_str(), "#else") {
                        self.index = here + 1;
                        match self.read_until_endif_or_else() {
                            Result::Ok(_) => {
                                proof {
                                    lemma_scan_skip_bounds(l0, here as int + 1, 0);
                                }
                            },
                            Result::Err(e) => {
                                return Err(e);
                            },
                        }
                    } else if str_eq(w1.as_str(), "#endif") {
                        return Err(PpError::UnexpectedEndif { line: here });
                    } else if str_eq(w1.as_str(), "#with") {
                        let (arg, _p2): (String, usize) = token_from(line.as_str(), p1);
                        if arg.unicode_len() == 0 {
                            return Err(PpError::MalformedDirective { line: here });
                        }
                        let is_lib: bool = starts_with_char(arg.as_str(), '$');
                        let source: Option<String> = if is_lib {
                            registry.find_text(arg.as_str())
                        } else {
                            files.find_text(arg.as_str())
                        };
                        match source {
                            Option::None => {
                                if is_lib {
                                    return Err(
                                        PpError::UnknownLibrary { line: here, name: arg },
                                    );
                                } else {
                                    return Err(
                                        PpError::FileUnavailable { line: here, path: arg },
                                    );
                                }
                            },
                            Option::Some(text) => {
                                if depth == 0 {
                                    return Err(PpError::IncludeDepthExceeded { line: here });
                                }
                                let mut child: Preprocessor = Preprocessor::new(text.as_str());
                                let sub: Result<String, PpError> = child.run_depth(
                                    registry,
                                    files,
                                    depth - 1,
                                );
                                proof {
                                    assert((depth - 1) as nat == (depth as nat - 1) as nat);
                                }
                                match sub {
                                    Result::Err(e) => {
                                        return Err(e);
                                    },
                                    Result::Ok(included) => {
                                        self.out.append(included.as_str());
                                        self.index = here + 1;
                                    },
                                }
                            },
                        }
                    } else {
                        return Err(PpError::UnknownDirective { line: here });
                    }
                }
            }
        }
        Ok(self.out.clone())
    }
}

} // verus!
