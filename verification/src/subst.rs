//! The definition table and substitution: definitions map an identifier to
//! an optional replacement text; expanding a line replaces, for every
//! definition that carries a payload, each occurrence of the identifier by
//! the payload, in the table's insertion order.

use vstd::prelude::*;

verus! {

/// One definition entry as the specifications see it.
pub type DefSeq = Seq<(Seq<char>, Option<Seq<char>>)>;

/// Plain left-to-right substring replacement: at each position, either the
/// pattern matches and is replaced, or one character is copied.
pub open spec fn replace_seq(s: Seq<char>, pat: Seq<char>, repl: Seq<char>) -> Seq<char>
    decreases s.len(),
{
    if s.len() == 0 {
        Seq::empty()
    } else if 0 < pat.len() <= s.len() && s.subrange(0, pat.len() as int) == pat {
        repl + replace_seq(s.skip(pat.len() as int), pat, repl)
    } else {
        seq![s[0]] + replace_seq(s.skip(1), pat, repl)
    }
}

/// Whether the pattern occurs anywhere in the sequence.
pub open spec fn occurs_in(s: Seq<char>, pat: Seq<char>) -> bool {
    exists|k: int| 0 <= k && k + pat.len() <= s.len() && #[trigger] s.subrange(k, k + pat.len())
        == pat
}

/// Replacement of a pattern that never occurs leaves the text unchanged.
pub proof fn lemma_replace_no_occurrence(s: Seq<char>, pat: Seq<char>, repl: Seq<char>)
    requires
        !occurs_in(s, pat),
    ensures
        replace_seq(s, pat, repl) == s,
    decreases s.len(),
{
    if s.len() == 0 {
        assert(replace_seq(s, pat, repl) =~= s);
    } else {
        if 0 < pat.len() <= s.len() && s.subrange(0, pat.len() as int) == pat {
            assert(occurs_in(s, pat)) by {
                assert(s.subrange(0, 0 + pat.len() as int) == pat);
            }
        }
        assert(!occurs_in(s.skip(1), pat)) by {
            if occurs_in(s.skip(1), pat) {
                let k = choose|k: int|
                    0 <= k && k + pat.len() <= s.skip(1).len() && #[trigger] s.skip(1).subrange(
                        k,
                        k + pat.len(),
                    ) == pat;
                assert(s.subrange(k + 1, k + 1 + pat.len()) =~= s.skip(1).subrange(
                    k,
                    k + pat.len(),
                ));
            }
        }
        lemma_replace_no_occurrence(s.skip(1), pat, repl);
        assert(replace_seq(s, pat, repl) =~= s) by {
            assert(seq![s[0]] + s.skip(1) =~= s);
        }
    }
}

/// First payload bound to the identifier, if the identifier is present.
pub open spec fn def_lookup(defs: DefSeq, k: Seq<char>) -> Option<Option<Seq<char>>>
    decreases defs.len(),
{
    if defs.len() == 0 {
        None
    } else if defs[0].0 == k {
        Some(defs[0].1)
    } else {
        def_lookup(defs.skip(1), k)
    }
}

/// The table after binding the identifier: an existing entry is overwritten
/// in place, a new one is appended.
pub open spec fn def_set(defs: DefSeq, k: Seq<char>, v: Option<Seq<char>>) -> DefSeq
    decreases defs.len(),
{
    if defs.len() == 0 {
        seq![(k, v)]
    } else if defs[0].0 == k {
        seq![(k, v)] + defs.skip(1)
    } else {
        seq![defs[0]] + def_set(defs.skip(1), k, v)
    }
}

/// The table with the identifier's entry removed, if it was present.
pub open spec fn def_remove(defs: DefSeq, k: Seq<char>) -> DefSeq
    decreases defs.len(),
{
    if defs.len() == 0 {
        defs
    } else if defs[0].0 == k {
        defs.skip(1)
    } else {
        seq![defs[0]] + def_remove(defs.skip(1), k)
    }
}

/// A line expanded against the table: definitions apply in table order, and
/// only those that carry a payload substitute.
pub open spec fn expand_defs(line: Seq<char>, defs: DefSeq) -> Seq<char>
    decreases defs.len(),
{
    if defs.len() == 0 {
        line
    } else {
        let next = match defs[0].1 {
            Some(v) => replace_seq(line, defs[0].0, v),
            None => line,
        };
        expand_defs(next, defs.skip(1))
    }
}

/// The view of an optional replacement text.
pub open spec fn opt_text_view(p: Option<String>) -> Option<Seq<char>> {
    match p {
        Some(t) => Some(t@),
        None => None,
    }
}

struct DefEntry {
    name: String,
    payload: Option<String>,
}

/// The definition table of one preprocessing session.
pub struct Defs {
    entries: Vec<DefEntry>,
}

impl View for Defs {
    type V = DefSeq;

    closed spec fn view(&self) -> DefSeq {
        self.entries@.map(|i: int, e: DefEntry| (e.name@, opt_text_view(e.payload)))
    }
}

impl Defs {
    /// An empty table.
    pub fn new() -> (d: Defs)
        ensures
            d@ == Seq::<(Seq<char>, Option<Seq<char>>)>::empty(),
    {
        let d = Defs { entries: Vec::new() };
        proof {
            assert(d@ =~= Seq::<(Seq<char>, Option<Seq<char>>)>::empty());
        }
        d
    }

    /// Binds the identifier, overwriting an existing binding.
    pub fn set_def(&mut self, name: String, payload: Option<String>)
        ensures
            final(self)@ == def_set(old(self)@, name@, opt_text_view(payload)),
    {
        let n: usize = self.entries.len();
        let mut i: usize = 0;
        while i < n
            invariant
                i <= n,
                n == self.entries.len(),
                *self == *old(self),
                forall|j: int| 0 <= j < i ==> old(self)@[j].0 != name@,
            decreases n - i,
        {
            if crate::text::str_eq(self.entries[i].name.as_str(), name.as_str()) {
                let e = DefEntry { name, payload };
                self.entries.remove(i);
                self.entries.insert(i, e);
                proof {
                    assert(self@ =~= old(self)@.update(i as int, (e.name@, opt_text_view(e.payload))));
                    lemma_def_set_found(old(self)@, e.name@, opt_text_view(e.payload), i as int);
                }
                return ;
            }
            i = i + 1;
        }
        let e = DefEntry { name, payload };
        self.entries.push(e);
        proof {
            assert(self@ =~= old(self)@.push((e.name@, opt_text_view(e.payload))));
            lemma_def_set_absent(old(self)@, e.name@, opt_text_view(e.payload));
            assert(old(self)@ + seq![(e.name@, opt_text_view(e.payload))] =~= old(self)@.push(
                (e.name@, opt_text_view(e.payload)),
            ));
        }
    }

    /// Removes the identifier's binding; absent identifiers are left alone.
    pub fn remove_def(&mut self, name: &str)
        ensures
            final(self)@ == def_remove(old(self)@, name@),
    {
        let n: usize = self.entries.len();
        let mut i: usize = 0;
        while i < n
            invariant
                i <= n,
                n == self.entries.len(),
                *self == *old(self),
                forall|j: int| 0 <= j < i ==> old(self)@[j].0 != name@,
            decreases n - i,
        {
            if crate::text::str_eq(self.entries[i].name.as_str(), name) {
                self.entries.remove(i);
                proof {
                    assert(self@ =~= old(self)@.remove(i as int));
                    lemma_def_remove_found(old(self)@, name@, i as int);
                }
                return ;
            }
            i = i + 1;
        }
        proof {
            lemma_def_remove_absent(old(self)@, name@);
        }
    }

    /// Whether the identifier is defined, with or without a payload.
    pub fn contains_def(&self, name: &str) -> (r: bool)
        ensures
            r == def_lookup(self@, name@).is_some(),
    {
        let n: usize = self.entries.len();
        let mut i: usize = 0;
        while i < n
            invariant
                i <= n,
                n == self.entries.len(),
                forall|j: int| 0 <= j < i ==> self@[j].0 != name@,
            decreases n - i,
        {
            if crate::text::str_eq(self.entries[i].name.as_str(), name) {
                proof {
                    lemma_def_lookup_at(self@, name@, i as int);
                }
                return true;
            }
            i = i + 1;
        }
        proof {
            lemma_def_lookup_none(self@, name@);
        }
        false
    }

    /// The line expanded against this table.
    pub fn expand_line(&self, line: &str) -> (r: String)
        ensures
            r@ == expand_defs(line@, self@),
    {
        let n: usize = self.entries.len();
        let mut cur: String = line.to_owned();
        let mut i: usize = 0;
        proof {
            assert(self@.skip(0) =~= self@);
        }
        while i < n
            invariant
                i <= n,
                n == self.entries.len(),
                expand_defs(line@, self@) == expand_defs(cur@, self@.skip(i as int)),
            decreases n - i,
        {
            let ghost before = cur@;
            match &self.entries[i].payload {
                Some(v) => {
                    let replaced: String = replace_all(
                        cur.as_str(),
                        self.entries[i].name.as_str(),
                        v.as_str(),
                    );
                    cur = replaced;
                },
                None => {},
            }
            proof {
                assert(self@[i as int] == (self.entries@[i as int].name@, opt_text_view(
                    self.entries@[i as int].payload,
                )));
                assert(self@.skip(i as int)[0] == self@[i as int]);
                assert(self@.skip(i as int).skip(1) =~= self@.skip(i as int + 1));
                assert(expand_defs(before, self@.skip(i as int)) == expand_defs(
                    cur@,
                    self@.skip(i as int + 1),
                ));
            }
            i = i + 1;
        }
        proof {
            assert(self@.skip(n as int) =~= Seq::<(Seq<char>, Option<Seq<char>>)>::empty());
        }
        cur
    }
}

proof fn lemma_def_set_found(defs: DefSeq, k: Seq<char>, v: Option<Seq<char>>, i: int)
    requires
        0 <= i < defs.len(),
        defs[i].0 == k,
        forall|j: int| 0 <= j < i ==> defs[j].0 != k,
    ensures
        def_set(defs, k, v) == defs.update(i, (k, v)),
    decreases i,
{
    if i == 0 {
        assert(def_set(defs, k, v) =~= defs.update(0, (k, v))) by {
            assert(seq![(k, v)] + defs.skip(1) =~= defs.update(0, (k, v)));
        }
    } else {
        lemma_def_set_found(defs.skip(1), k, v, i - 1);
        assert(def_set(defs, k, v) =~= defs.update(i, (k, v))) by {
            assert(seq![defs[0]] + defs.skip(1).update(i - 1, (k, v)) =~= defs.update(i, (k, v)));
        }
    }
}

proof fn lemma_def_set_absent(defs: DefSeq, k: Seq<char>, v: Option<Seq<char>>)
    requires
        forall|j: int| 0 <= j < defs.len() ==> defs[j].0 != k,
    ensures
        def_set(defs, k, v) == defs + seq![(k, v)],
    decreases defs.len(),
{
    if defs.len() == 0 {
        assert(def_set(defs, k, v) =~= defs + seq![(k, v)]);
    } else {
        assert(forall|j: int| 0 <= j < defs.skip(1).len() ==> defs.skip(1)[j].0 != k);
        lemma_def_set_absent(defs.skip(1), k, v);
        assert(def_set(defs, k, v) =~= defs + seq![(k, v)]) by {
            assert(seq![defs[0]] + (defs.skip(1) + seq![(k, v)]) =~= defs + seq![(k, v)]);
        }
    }
}

proof fn lemma_def_remove_found(defs: DefSeq, k: Seq<char>, i: int)
    requires
        0 <= i < defs.len(),
        defs[i].0 == k,
        forall|j: int| 0 <= j < i ==> defs[j].0 != k,
    ensures
        def_remove(defs, k) == defs.remove(i),
    decreases i,
{
    if i == 0 {
        assert(def_remove(defs, k) =~= defs.remove(0)) by {
            assert(defs.skip(1) =~= defs.remove(0));
        }
    } else {
        lemma_def_remove_found(defs.skip(1), k, i - 1);
        assert(def_remove(defs, k) =~= defs.remove(i)) by {
            assert(seq![defs[0]] + defs.skip(1).remove(i - 1) =~= defs.remove(i));
        }
    }
}

proof fn lemma_def_remove_absent(defs: DefSeq, k: Seq<char>)
    requires
        forall|j: int| 0 <= j < defs.len() ==> defs[j].0 != k,
    ensures
        def_remove(defs, k) == defs,
    decreases defs.len(),
{
    if defs.len() == 0 {
    } else {
        assert(forall|j: int| 0 <= j < defs.skip(1).len() ==> defs.skip(1)[j].0 != k);
        lemma_def_remove_absent(defs.skip(1), k);
        assert(def_remove(defs, k) =~= defs) by {
            assert(seq![defs[0]] + defs.skip(1) =~= defs);
        }
    }
}

proof fn lemma_def_lookup_at(defs: DefSeq, k: Seq<char>, i: int)
    requires
        0 <= i < defs.len(),
        defs[i].0 == k,
        forall|j: int| 0 <= j < i ==> defs[j].0 != k,
    ensures
        def_lookup(defs, k) == Some(defs[i].1),
    decreases i,
{
    if i == 0 {
    } else {
        lemma_def_lookup_at(defs.skip(1), k, i - 1);
    }
}

pub proof fn lemma_def_lookup_none(defs: DefSeq, k: Seq<char>)
    requires
        forall|j: int| 0 <= j < defs.len() ==> defs[j].0 != k,
    ensures
        def_lookup(defs, k) is None,
    decreases defs.len(),
{
    if defs.len() == 0 {
    } else {
        assert(forall|j: int| 0 <= j < defs.skip(1).len() ==> defs.skip(1)[j].0 != k);
        lemma_def_lookup_none(defs.skip(1), k);
    }
}

/// Whether the pattern occurs at position `i` of the string.
fn match_at(s: &str, i: usize, pat: &str) -> (r: bool)
    requires
        i + pat@.len() <= s@.len(),
    ensures
        r == (s@.subrange(i as int, i as int + pat@.len() as int) == pat@),
{
    let n: usize = s.unicode_len();
    let m: usize = pat.unicode_len();
    let mut k: usize = 0;
    while k < m
        invariant
            k <= m,
            m == pat@.len(),
            n == s@.len(),
            i + m <= n,
            forall|t: int| 0 <= t < k ==> s@[i + t] == pat@[t],
        decreases m - k,
    {
        if s.get_char(i + k) != pat.get_char(k) {
            proof {
                assert(s@.subrange(i as int, i as int + m as int)[k as int] == s@[i + k]);
            }
            return false;
        }
        k = k + 1;
    }
    proof {
        assert(s@.subrange(i as int, i as int + m as int) =~= pat@);
    }
    true
}

/// Every occurrence of the pattern replaced, scanning left to right.
pub fn replace_all(s: &str, pat: &str, repl: &str) -> (r: String)
    ensures
        r@ == replace_seq(s@, pat@, repl@),
{
    let n: usize = s.unicode_len();
    let m: usize = pat.unicode_len();
    let mut out: String = String::new();
    let mut i: usize = 0;
    proof {
        assert(s@.skip(0) =~= s@);
        assert(Seq::<char>::empty() + replace_seq(s@, pat@, repl@) =~= replace_seq(
            s@,
            pat@,
            repl@,
        ));
    }
    while i < n
        invariant
            i <= n,
            n == s@.len(),
            m == pat@.len(),
            out@ + replace_seq(s@.skip(i as int), pat@, repl@) == replace_seq(s@, pat@, repl@),
        decreases n - i,
    {
        let ghost tail = s@.skip(i as int);
        let ghost prev = out@;
        let hit: bool = if m > 0 && m <= n - i {
            match_at(s, i, pat)
        } else {
            false
        };
        proof {
            if m > 0 && m <= n - i {
                assert(tail.subrange(0, m as int) =~= s@.subrange(i as int, i as int + m as int));
            }
        }
        if hit {
            out.append(repl);
            proof {
                assert(tail.skip(m as int) =~= s@.skip(i as int + m as int));
                assert(replace_seq(tail, pat@, repl@) == repl@ + replace_seq(
                    s@.skip(i as int + m as int),
                    pat@,
                    repl@,
                ));
                assert(out@ + replace_seq(s@.skip(i as int + m as int), pat@, repl@) =~= prev + (
                repl@ + replace_seq(s@.skip(i as int + m as int), pat@, repl@)));
            }
            i = i + m;
        } else {
            let cs: &str = s.substring_char(i, i + 1);
            out.append(cs);
            proof {
                assert(tail[0] == s@[i as int]);
                assert(cs@ =~= seq![s@[i as int]]);
                assert(tail.skip(1) =~= s@.skip(i as int + 1));
                assert(replace_seq(tail, pat@, repl@) == seq![s@[i as int]] + replace_seq(
                    s@.skip(i as int + 1),
                    pat@,
                    repl@,
                ));
                assert(out@ + replace_seq(s@.skip(i as int + 1), pat@, repl@) =~= prev + (seq![
                    s@[i as int],
                ] + replace_seq(s@.skip(i as int + 1), pat@, repl@)));
            }
            i = i + 1;
        }
    }
    proof {
        assert(s@.skip(n as int) =~= Seq::<char>::empty());
        assert(out@ + Seq::<char>::empty() =~= out@);
    }
    out
}

} // verus!
