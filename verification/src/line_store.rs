//! The append-only buffer of received lines.

use vstd::prelude::*;
use vstd::utf8::encode_utf8;

verus! {

/// The texts of a sequence of strings, in order.
pub open spec fn texts(lines: Seq<String>) -> Seq<Seq<char>> {
    Seq::new(lines.len(), |i: int| lines[i]@)
}

/// The bytes of each line of `lines`, in order.
pub open spec fn line_bytes(lines: Seq<Seq<char>>) -> Seq<Seq<u8>> {
    Seq::new(lines.len(), |i: int| encode_utf8(lines[i]))
}

/// What a buffer holds after `more` have been appended to `lines`, one at a
/// time and in order.
pub open spec fn appended(lines: Seq<Seq<char>>, more: Seq<Seq<char>>) -> Seq<Seq<char>>
    decreases more.len(),
{
    if more.len() == 0 {
        lines
    } else {
        appended(lines, more.drop_last()).push(more.last())
    }
}

/// An ordered, growable sequence of lines. A line is identified by its index
/// in arrival order; lines are never edited or removed.
///
/// `append` takes `&mut self`, so a store shared between a writer and a
/// reader sits behind a lock, and every reader sees whole lines only.
pub struct LineStore {
    lines: Vec<String>,
}

impl View for LineStore {
    type V = Seq<Seq<char>>;

    closed spec fn view(&self) -> Seq<Seq<char>> {
        texts(self.lines@)
    }
}

impl LineStore {
    /// An empty store.
    pub fn new() -> (store: LineStore)
        ensures
            store@ == Seq::<Seq<char>>::empty(),
    {
        let store = LineStore { lines: Vec::new() };
        proof {
            assert(store@ =~= Seq::<Seq<char>>::empty());
        }
        store
    }

    /// Adds `line` at the end.
    pub fn append(&mut self, line: String)
        ensures
            final(self)@ == old(self)@.push(line@),
    {
        self.lines.push(line);
        proof {
            assert(self@ =~= old(self)@.push(line@));
        }
    }

    /// The number of lines held.
    pub fn len(&self) -> (count: usize)
        ensures
            count == self@.len(),
    {
        self.lines.len()
    }

    /// Whether no line has arrived yet.
    pub fn is_empty(&self) -> (empty: bool)
        ensures
            empty == (self@.len() == 0),
    {
        self.lines.len() == 0
    }

    /// The line at `index`, if there is one.
    pub fn get(&self, index: usize) -> (line: Option<&String>)
        ensures
            index < self@.len() ==> line.is_some() && line.unwrap()@ == self@[index as int],
            index >= self@.len() ==> line.is_none(),
    {
        if index < self.lines.len() {
            Some(&self.lines[index])
        } else {
            None
        }
    }

    /// The text of the line at `index`.
    pub fn text_at(&self, index: usize) -> (text: &str)
        requires
            index < self@.len(),
        ensures
            text@ == self@[index as int],
    {
        self.lines[index].as_str()
    }

    /// The bytes of the line at `index`.
    pub fn bytes_at(&self, index: usize) -> (bytes: &[u8])
        requires
            index < self@.len(),
        ensures
            bytes@ == line_bytes(self@)[index as int],
    {
        self.lines[index].as_str().as_bytes()
    }

    /// A copy of every line held, in arrival order.
    pub fn read_all(&self) -> (snapshot: Vec<String>)
        ensures
            texts(snapshot@) == self@,
    {
        let snapshot = self.read_from(0);
        proof {
            assert(self@.subrange(0, self@.len() as int) =~= self@);
        }
        snapshot
    }

    /// A copy of the lines from index `from` on, in arrival order: what has
    /// arrived since a reader last held `from` lines. Nothing where `from`
    /// lies beyond the end.
    pub fn read_from(&self, from: usize) -> (fresh: Vec<String>)
        ensures
            from <= self@.len() ==> texts(fresh@) == self@.subrange(
                from as int,
                self@.len() as int,
            ),
            from > self@.len() ==> fresh@.len() == 0,
    {
        let mut fresh: Vec<String> = Vec::new();
        if from > self.lines.len() {
            return fresh;
        }
        let mut i: usize = from;
        while i < self.lines.len()
            invariant
                from <= i <= self.lines@.len(),
                fresh@.len() == i - from,
                forall|k: int| 0 <= k < fresh@.len() ==> fresh@[k]@ == self.lines@[from + k]@,
            decreases self.lines@.len() - i,
        {
            fresh.push(self.lines[i].clone());
            i += 1;
        }
        proof {
            assert(texts(fresh@) =~= self@.subrange(from as int, self@.len() as int));
        }
        fresh
    }
}

/// Appending lines one at a time keeps what was there, adds the new lines in
/// order, and makes the length grow by exactly the number of appends.
pub proof fn lemma_appended(lines: Seq<Seq<char>>, more: Seq<Seq<char>>)
    ensures
        appended(lines, more) == lines + more,
        appended(lines, more).len() == lines.len() + more.len(),
    decreases more.len(),
{
    if more.len() == 0 {
        assert(lines + more =~= lines);
    } else {
        lemma_appended(lines, more.drop_last());
        assert(lines + more =~= (lines + more.drop_last()).push(more.last()));
    }
}

/// The length of the buffer never decreases while lines are appended: after
/// the first `earlier` appends it is no longer than after the first `later`.
pub proof fn lemma_len_non_decreasing(
    lines: Seq<Seq<char>>,
    more: Seq<Seq<char>>,
    earlier: int,
    later: int,
)
    requires
        0 <= earlier <= later <= more.len(),
    ensures
        appended(lines, more.take(earlier)).len() <= appended(lines, more.take(later)).len(),
        appended(lines, more.take(earlier)).len() == lines.len() + earlier,
{
    lemma_appended(lines, more.take(earlier));
    lemma_appended(lines, more.take(later));
}

} // verus!
