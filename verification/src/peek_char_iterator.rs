use vstd::prelude::*;

verus! {

/// A character cursor with peek, mark, and mark-to-current retrieval.
///
/// The cursor owns a finite sequence of Unicode scalar values and walks it
/// by plain indices.  `peek` looks at the next character without consuming
/// it, `next` consumes it, `mark` records the current position, and
/// `get_mark2cur` returns the characters between the mark and the current
/// position.  Out-of-range reads yield `None`; the cursor never panics.
pub struct PeekCharIterator {
    chars: Vec<char>,
    current_index: usize,
    marked_index: Option<usize>,
}

impl PeekCharIterator {
    /// The characters the cursor walks over.
    pub closed spec fn chars(&self) -> Seq<char> {
        self.chars@
    }

    /// Index of the next unread character.
    pub closed spec fn current(&self) -> int {
        self.current_index as int
    }

    /// The marked position, if `mark` has been called.
    pub closed spec fn marked(&self) -> Option<int> {
        match self.marked_index {
            Some(m) => Some(m as int),
            None => None,
        }
    }

    /// The cursor never runs past the end, and a mark never lies after the
    /// current position.
    pub open spec fn wf(&self) -> bool {
        &&& 0 <= self.current() <= self.chars().len()
        &&& (self.marked() matches Some(m) ==> 0 <= m <= self.current())
    }

    /// The characters from the mark (inclusive) to the current position
    /// (exclusive).
    pub open spec fn mark_to_current(&self) -> Seq<char>
        recommends
            self.wf(),
            self.marked() is Some,
    {
        self.chars().subrange(self.marked()->0, self.current())
    }

    /// Creates a cursor over the given characters, positioned at the start,
    /// with no mark set.
    pub fn new(chars: Vec<char>) -> (it: Self)
        ensures
            it.wf(),
            it.chars() == chars@,
            it.current() == 0,
            it.marked() is None,
    {
        PeekCharIterator { chars, current_index: 0, marked_index: None }
    }

    /// Returns the next character without consuming it; `None` at the end.
    pub fn peek(&self) -> (r: Option<char>)
        requires
            self.wf(),
        ensures
            r == (if self.current() < self.chars().len() {
                Some(self.chars()[self.current()])
            } else {
                None::<char>
            }),
    {
        if self.current_index < self.chars.len() {
            Some(self.chars[self.current_index])
        } else {
            None
        }
    }

    /// Consumes and returns the next character; `None` at the end, where the
    /// cursor stays in place.
    pub fn next(&mut self) -> (r: Option<char>)
        requires
            old(self).wf(),
        ensures
            final(self).wf(),
            final(self).chars() == old(self).chars(),
            final(self).marked() == old(self).marked(),
            if old(self).current() < old(self).chars().len() {
                r == Some(old(self).chars()[old(self).current()]) && final(self).current() == old(
                    self,
                ).current() + 1
            } else {
                r is None && final(self).current() == old(self).current()
            },
    {
        if self.current_index < self.chars.len() {
            let ch = self.chars[self.current_index];
            self.current_index = self.current_index + 1;
            Some(ch)
        } else {
            None
        }
    }

    /// Marks the current position.
    pub fn mark(&mut self)
        requires
            old(self).wf(),
        ensures
            final(self).wf(),
            final(self).chars() == old(self).chars(),
            final(self).current() == old(self).current(),
            final(self).marked() == Some(old(self).current()),
    {
        self.marked_index = Some(self.current_index);
    }

    /// Returns the characters between the mark and the current position, or
    /// `None` if `mark` was never called.
    pub fn get_mark2cur(&self) -> (r: Option<Vec<char>>)
        requires
            self.wf(),
        ensures
            match r {
                Some(v) => self.marked() is Some && v@ == self.mark_to_current(),
                None => self.marked() is None,
            },
    {
        match self.marked_index {
            None => None,
            Some(m) => {
                let mut v: Vec<char> = Vec::new();
                let mut i: usize = m;
                while i < self.current_index
                    invariant
                        m <= i <= self.current_index,
                        self.wf(),
                        self.marked() == Some(m as int),
                        v@ == self.chars().subrange(m as int, i as int),
                    decreases self.current_index - i,
                {
                    v.push(self.chars[i]);
                    proof {
                        assert(v@ =~= self.chars().subrange(m as int, i + 1 as int));
                    }
                    i = i + 1;
                }
                proof {
                    assert(v@ =~= self.mark_to_current());
                }
                Some(v)
            },
        }
    }
}

} // verus!
