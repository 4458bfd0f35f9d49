//! Line ranges and sets of changed lines.

use vstd::prelude::*;

verus! {

/// A half-open interval `[start, end)` of 1-based line numbers.
#[derive(Clone, Copy, Debug, PartialEq, Eq, Structural, Hash)]
pub struct LineRange {
    pub start: usize,
    pub end: usize,
}

impl LineRange {
    /// A range is well formed when it starts at line 1 or later and holds at
    /// least one line.
    pub open spec fn wf(self) -> bool {
        1 <= self.start < self.end
    }

    /// Whether `line` lies in the range.
    pub open spec fn covers(self, line: int) -> bool {
        self.start <= line < self.end
    }

    /// Builds the range `[start, end)`, or nothing when it would be empty or
    /// start before line 1.
    pub fn new(start: usize, end: usize) -> (range: Option<LineRange>)
        ensures
            range == (if 1 <= start < end {
                Some(LineRange { start, end })
            } else {
                None
            }),
    {
        if 1 <= start && start < end {
            Some(LineRange { start, end })
        } else {
            None
        }
    }

    /// Whether `line` lies in the range.
    pub fn contains(&self, line: usize) -> (inside: bool)
        ensures
            inside == self.covers(line as int),
    {
        self.start <= line && line < self.end
    }
}

/// One contiguous change region on the new side of a diff: `len` lines
/// starting at line `start`. A pure deletion has `len == 0` and holds no line.
#[derive(Clone, Copy, Debug, PartialEq, Eq, Structural, Hash)]
pub struct Hunk {
    pub start: usize,
    pub len: usize,
}

/// The lines `[start, start + len)`.
pub open spec fn hunk_lines(start: nat, len: nat) -> Set<int> {
    Set::new(|line: int| start <= line < start + len)
}

impl Hunk {
    /// Whether `line` is one of the hunk's lines.
    pub open spec fn covers(self, line: int) -> bool {
        self.start <= line < self.start + self.len
    }

    /// The hunk's lines, as a set.
    pub open spec fn lines(self) -> Set<int> {
        hunk_lines(self.start as nat, self.len as nat)
    }

    /// Whether the hunk and `range` share a line.
    pub open spec fn meets(self, range: LineRange) -> bool {
        exists|line: int| self.covers(line) && range.covers(line)
    }

    /// Whether `line` is one of the hunk's lines.
    pub fn contains(&self, line: usize) -> (inside: bool)
        ensures
            inside == self.covers(line as int),
    {
        self.start <= line && line - self.start < self.len
    }

    /// Whether the hunk and `range` share a line.
    pub fn intersects(&self, range: &LineRange) -> (shared: bool)
        ensures
            shared == self.meets(*range),
    {
        let reaches = range.start <= self.start || range.start - self.start < self.len;
        let shared = self.len > 0 && range.start < range.end && self.start < range.end && reaches;
        proof {
            if shared {
                let witness = if range.start <= self.start {
                    self.start as int
                } else {
                    range.start as int
                };
                assert(self.covers(witness) && range.covers(witness));
            }
        }
        shared
    }
}

/// The lines added or modified on the new side of a diff for one file, kept as
/// the list of its hunks. Its view is the set of those lines.
#[derive(Debug, PartialEq, Eq)]
pub struct ChangedLines {
    pub hunks: Vec<Hunk>,
}

/// The union of the lines of `hunks`.
pub open spec fn lines_of_hunks(hunks: Seq<Hunk>) -> Set<int> {
    Set::new(|line: int| exists|i: int| 0 <= i < hunks.len() && #[trigger] hunks[i].covers(line))
}

/// Whether `range` holds a line of `changed`.
pub open spec fn touches(range: LineRange, changed: Set<int>) -> bool {
    exists|line: int| range.covers(line) && changed.contains(line)
}

impl View for ChangedLines {
    type V = Set<int>;

    open spec fn view(&self) -> Set<int> {
        lines_of_hunks(self.hunks@)
    }
}

impl ChangedLines {
    /// The empty set of lines.
    pub fn new() -> (changed: ChangedLines)
        ensures
            changed@ == Set::<int>::empty(),
            changed.hunks@.len() == 0,
    {
        let changed = ChangedLines { hunks: Vec::new() };
        assert(changed@ =~= Set::<int>::empty());
        changed
    }

    /// Adds the lines of `hunk`.
    pub fn insert(&mut self, hunk: Hunk)
        ensures
            final(self)@ == old(self)@.union(hunk.lines()),
            final(self).hunks@ == old(self).hunks@.push(hunk),
    {
        self.hunks.push(hunk);
        proof {
            let before = old(self).hunks@;
            let after = self.hunks@;
            assert forall|line: int| #[trigger]
                lines_of_hunks(after).contains(line) == (lines_of_hunks(before).contains(line)
                    || hunk.lines().contains(line)) by {
                if lines_of_hunks(after).contains(line) {
                    let i = choose|i: int| 0 <= i < after.len() && #[trigger] after[i].covers(line);
                    if i < before.len() {
                        assert(before[i].covers(line));
                    }
                }
                if lines_of_hunks(before).contains(line) {
                    let i = choose|i: int|
                        0 <= i < before.len() && #[trigger] before[i].covers(line);
                    assert(after[i].covers(line));
                }
                if hunk.covers(line) {
                    assert(after[before.len() as int].covers(line));
                }
            }
            assert(self@ =~= old(self)@.union(hunk.lines()));
        }
    }

    /// Adds the single line `line`.
    pub fn insert_line(&mut self, line: usize)
        ensures
            final(self)@ == old(self)@.insert(line as int),
    {
        self.insert(Hunk { start: line, len: 1 });
        assert(self@ =~= old(self)@.insert(line as int));
    }

    /// Whether `line` is a changed line.
    pub fn contains(&self, line: usize) -> (inside: bool)
        ensures
            inside == self@.contains(line as int),
    {
        let mut i: usize = 0;
        while i < self.hunks.len()
            invariant
                i <= self.hunks@.len(),
                forall|k: int| 0 <= k < i ==> !#[trigger] self.hunks@[k].covers(line as int),
            decreases self.hunks@.len() - i,
        {
            if self.hunks[i].contains(line) {
                return true;
            }
            i += 1;
        }
        false
    }

    /// Whether `range` holds a changed line.
    pub fn intersects(&self, range: &LineRange) -> (shared: bool)
        ensures
            shared == touches(*range, self@),
    {
        let mut i: usize = 0;
        while i < self.hunks.len()
            invariant
                i <= self.hunks@.len(),
                forall|k: int| 0 <= k < i ==> !#[trigger] self.hunks@[k].meets(*range),
            decreases self.hunks@.len() - i,
        {
            if self.hunks[i].intersects(range) {
                proof {
                    let line = choose|line: int|
                        self.hunks@[i as int].covers(line) && range.covers(line);
                    assert(self@.contains(line));
                }
                return true;
            }
            i += 1;
        }
        proof {
            if touches(*range, self@) {
                let line = choose|line: int| range.covers(line) && self@.contains(line);
                let k = choose|k: int|
                    0 <= k < self.hunks@.len() && #[trigger] self.hunks@[k].covers(line);
                assert(self.hunks@[k].meets(*range));
            }
        }
        false
    }
}

} // verus!
