//! Lists of distinct lines that keep only so many of them.

use crate::text::{at_most, decimal, push_decimal, texts, trim_end, trim_end_of};
use vstd::hash_set::StringHashSet;
use vstd::prelude::*;

verus! {

/// What a [`CappedLines`] stands for: every distinct line it was given, in the order in which the
/// lines first came, and how many of them it shows.
pub struct CappedView {
    pub label: Seq<char>,
    pub cap: nat,
    pub distinct: Seq<Seq<char>>,
}

/// `list` with the text of `line` at its end, unless that is empty or in the list already.
pub open spec fn with_line(list: Seq<Seq<char>>, line: Seq<char>) -> Seq<Seq<char>> {
    let text = trim_end_of(line);
    if text.len() == 0 || list.contains(text) {
        list
    } else {
        list.push(text)
    }
}

impl CappedView {
    /// A list that nothing was given yet.
    pub open spec fn empty(label: Seq<char>, cap: nat) -> CappedView {
        CappedView { label, cap, distinct: Seq::empty() }
    }

    /// The list once it was given `line`.
    pub open spec fn push(self, line: Seq<char>) -> CappedView {
        CappedView { distinct: with_line(self.distinct, line), ..self }
    }

    /// The lines that are shown: the first ones, up to the cap.
    pub open spec fn shown(self) -> Seq<Seq<char>> {
        at_most(self.distinct, self.cap)
    }

    /// How many distinct lines are not shown.
    pub open spec fn hidden(self) -> nat {
        (self.distinct.len() - self.shown().len()) as nat
    }

    /// The line that tells how many lines are not shown.
    pub open spec fn hidden_note(self) -> Seq<char> {
        "... +"@ + decimal(self.hidden()) + " more "@ + self.label
    }

    /// The list as it stands in a report.
    pub open spec fn rendered(self) -> Seq<Seq<char>> {
        if self.hidden() > 0 {
            self.shown().push(self.hidden_note())
        } else {
            self.shown()
        }
    }
}

/// Distinct non-empty lines in the order in which they first came, of which only the first `cap`
/// are kept.
pub struct CappedLines {
    label: &'static str,
    cap: usize,
    total: usize,
    lines: Vec<String>,
    seen: StringHashSet,
    distinct: Ghost<Seq<Seq<char>>>,
}

impl View for CappedLines {
    type V = CappedView;

    closed spec fn view(&self) -> CappedView {
        CappedView { label: self.label@, cap: self.cap as nat, distinct: self.distinct@ }
    }
}

impl CappedLines {
    /// What is stored agrees with the lines that the list was given.
    pub closed spec fn wf(&self) -> bool {
        &&& self.total == self.distinct@.len()
        &&& texts(self.lines@) == self@.shown()
        &&& forall|t: Seq<char>| #[trigger] self.seen@.contains(t) <==> self.distinct@.contains(t)
        &&& self.seen@.finite()
        &&& self.seen@.len() == self.distinct@.len()
    }

    /// An empty list.
    pub fn new(label: &'static str, cap: usize) -> (r: Self)
        ensures
            r.wf(),
            r@ == CappedView::empty(label@, cap as nat),
    {
        let r = CappedLines {
            label,
            cap,
            total: 0,
            lines: Vec::new(),
            seen: StringHashSet::new(),
            distinct: Ghost(Seq::empty()),
        };
        assert(texts(r.lines@) =~= r@.shown());
        r
    }

    /// Gives `line` to the list.
    pub fn push(&mut self, line: &str)
        requires
            old(self).wf(),
        ensures
            final(self).wf(),
            final(self)@ == old(self)@.push(line@),
    {
        broadcast use vstd::hash_set::group_hash_set_axioms;

        let trimmed = trim_end(line);
        if trimmed.is_empty() {
            return;
        }
        let ghost seen = self.seen@;
        let ghost kept = texts(self.lines@);
        if !self.seen.insert(trimmed.to_owned()) {
            assert(self.seen@ =~= seen);
            return;
        }
        assert(self.seen.spec_len() == self.total + 1);
        let ghost distinct = self.distinct@.push(trimmed@);
        proof {
            assert(distinct.last() == trimmed@);
            assert forall|t: Seq<char>| #[trigger] self.seen@.contains(t) implies distinct.contains(
                t,
            ) by {
                if t != trimmed@ {
                    let i = choose|i: int|
                        0 <= i < self.distinct@.len() && self.distinct@[i] == t;
                    assert(distinct[i] == t);
                }
            }
        }
        self.total = self.total + 1;
        self.distinct = Ghost(distinct);
        if self.lines.len() < self.cap {
            self.lines.push(trimmed.to_owned());
            assert(texts(self.lines@) =~= kept.push(trimmed@));
        }
        assert(texts(self.lines@) =~= self@.shown());
    }

    /// Whether no line is kept.
    pub fn is_empty(&self) -> (r: bool)
        requires
            self.wf(),
        ensures
            r == (self@.shown().len() == 0),
    {
        self.lines.len() == 0
    }

    /// How many distinct lines the list was given.
    pub fn total(&self) -> (r: usize)
        requires
            self.wf(),
        ensures
            r == self@.distinct.len(),
    {
        self.total
    }

    /// The lines that are kept.
    pub fn lines(&self) -> (r: &Vec<String>)
        requires
            self.wf(),
        ensures
            texts(r@) == self@.shown(),
    {
        &self.lines
    }

    /// Writes the list at the end of `out`: the kept lines, then how many more there were.
    pub fn append_to(&self, out: &mut Vec<String>)
        requires
            self.wf(),
        ensures
            texts(final(out)@) == texts(old(out)@) + self@.rendered(),
    {
        push_all(out, &self.lines);
        if self.total > self.lines.len() {
            let mut note = String::new();
            note.append("... +");
            push_decimal(&mut note, self.total - self.lines.len());
            note.append(" more ");
            note.append(self.label);
            assert(note@ =~= self@.hidden_note());
            let ghost before = texts(out@);
            out.push(note);
            assert(texts(out@) =~= before.push(note@));
        }
        assert(texts(out@) =~= texts(old(out)@) + self@.rendered());
    }
}

/// Writes copies of `lines` at the end of `out`.
pub(crate) fn push_all(out: &mut Vec<String>, lines: &Vec<String>)
    ensures
        texts(final(out)@) == texts(old(out)@) + texts(lines@),
{
    let mut i: usize = 0;
    assert(texts(out@) =~= texts(old(out)@) + texts(lines@).take(0));
    while i < lines.len()
        invariant
            i <= lines@.len(),
            texts(out@) == texts(old(out)@) + texts(lines@).take(i as int),
        decreases lines@.len() - i,
    {
        let ghost before = texts(out@);
        out.push(lines[i].clone());
        i = i + 1;
        assert(texts(out@) =~= before.push(lines@[i - 1]@));
        assert(texts(out@) =~= texts(old(out)@) + texts(lines@).take(i as int));
    }
    assert(texts(lines@).take(i as int) =~= texts(lines@));
}

} // verus!
