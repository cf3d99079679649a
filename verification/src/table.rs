//! A small association table from a name to a block of text. One instance,
//! seeded with the built-in library sources, serves as the read-only library
//! registry; another carries the texts of files that the caller has supplied
//! for `#with` inclusion.

use vstd::prelude::*;

verus! {

/// The table as the specifications see it: name/text pairs, newest first.
pub type TextSeq = Seq<(Seq<char>, Seq<char>)>;

/// Text bound to the name, if any; the newest binding wins.
pub open spec fn assoc_text(table: TextSeq, name: Seq<char>) -> Option<Seq<char>>
    decreases table.len(),
{
    if table.len() == 0 {
        None
    } else if table[0].0 == name {
        Some(table[0].1)
    } else {
        assoc_text(table.skip(1), name)
    }
}

struct TextEntry {
    name: String,
    text: String,
}

/// A name-to-text table.
pub struct TextTable {
    entries: Vec<TextEntry>,
}

impl View for TextTable {
    type V = TextSeq;

    closed spec fn view(&self) -> TextSeq {
        self.entries@.map(|i: int, e: TextEntry| (e.name@, e.text@))
    }
}

impl TextTable {
    /// An empty table.
    pub fn new() -> (t: TextTable)
        ensures
            t@ == Seq::<(Seq<char>, Seq<char>)>::empty(),
    {
        let t = TextTable { entries: Vec::new() };
        proof {
            assert(t@ =~= Seq::<(Seq<char>, Seq<char>)>::empty());
        }
        t
    }

    /// The table holding the built-in libraries: one entry, the standard
    /// library, under its reserved dollar-prefixed name.
    pub fn with_builtins() -> (t: TextTable)
        ensures
            t@ == seq![(("$std")@, ("#define RHL_STD 1\nrhl standard library\n")@)],
    {
        let mut t = TextTable::new();
        t.add_text("$std".to_owned(), "#define RHL_STD 1\nrhl standard library\n".to_owned());
        proof {
            assert(t@ =~= seq![(("$std")@, ("#define RHL_STD 1\nrhl standard library\n")@)]);
        }
        t
    }

    /// Binds a name to a text; a newer binding shadows an older one.
    pub fn add_text(&mut self, name: String, text: String)
        ensures
            final(self)@ == seq![(name@, text@)] + old(self)@,
    {
        let e = TextEntry { name, text };
        self.entries.insert(0, e);
        proof {
            assert(self@ =~= seq![(e.name@, e.text@)] + old(self)@);
        }
    }

    /// Looks the name up and hands back a copy of its text.
    pub fn find_text(&self, name: &str) -> (r: Option<String>)
        ensures
            match r {
                Some(t) => assoc_text(self@, name@) == Some(t@),
                None => assoc_text(self@, name@) is None,
            },
    {
        let n: usize = self.entries.len();
        let mut i: usize = 0;
        while i < n
            invariant
                i <= n,
                n == self.entries.len(),
                forall|j: int| 0 <= j < i ==> self@[j].0 != name@,
            decreases n - i,
        {
            if crate::text::str_eq(self.entries[i].name.as_str(), name) {
                let t: String = self.entries[i].text.clone();
                proof {
                    lemma_assoc_text_at(self@, name@, i as int);
                }
                return Some(t);
            }
            i = i + 1;
        }
        proof {
            lemma_assoc_text_none(self@, name@);
        }
        None
    }
}

proof fn lemma_assoc_text_at(table: TextSeq, name: Seq<char>, i: int)
    requires
        0 <= i < table.len(),
        table[i].0 == name,
        forall|j: int| 0 <= j < i ==> table[j].0 != name,
    ensures
        assoc_text(table, name) == Some(table[i].1),
    decreases i,
{
    if i == 0 {
    } else {
        lemma_assoc_text_at(table.skip(1), name, i - 1);
    }
}

proof fn lemma_assoc_text_none(table: TextSeq, name: Seq<char>)
    requires
        forall|j: int| 0 <= j < table.len() ==> table[j].0 != name,
    ensures
        assoc_text(table, name) is None,
    decreases table.len(),
{
    if table.len() == 0 {
    } else {
        assert(forall|j: int| 0 <= j < table.skip(1).len() ==> table.skip(1)[j].0 != name);
        lemma_assoc_text_none(table.skip(1), name);
    }
}

} // verus!
