//! The cursor of a list: the row it is on, if any.

use vstd::prelude::*;

verus! {

/// Where the cursor of a list is.
#[derive(Clone, Copy, PartialEq, Eq, Structural, Debug)]
pub struct Cursor {
    pub at: Option<usize>,
}

impl Cursor {
    /// A cursor on no row.
    pub fn new() -> (r: Cursor)
        ensures
            r.at is None,
    {
        Cursor { at: None }
    }

    pub fn selected(&self) -> (r: Option<usize>)
        ensures
            r == self.at,
    {
        self.at
    }

    pub fn select(&mut self, at: Option<usize>)
        ensures
            final(self).at == at,
    {
        self.at = at;
    }
}

/// The cursor `n` rows further down a list of `len` rows, not past the last.
/// A cursor on no row counts as on the first; an empty list moves nothing.
pub open spec fn down(at: Option<usize>, n: usize, len: int) -> Option<usize> {
    if len == 0 {
        at
    } else {
        let i = match at {
            Some(i) => i as int,
            None => 0,
        };
        Some((if i + n < len { i + n } else { len - 1 }) as usize)
    }
}

/// The cursor `n` rows further up a list of `len` rows, not past the first.
pub open spec fn up(at: Option<usize>, n: usize, len: int) -> Option<usize> {
    if len == 0 {
        at
    } else {
        let i = match at {
            Some(i) => i as int,
            None => 0,
        };
        Some((if i >= n { i - n } else { 0 }) as usize)
    }
}

/// The cursor on the first row.
pub open spec fn first(at: Option<usize>, len: int) -> Option<usize> {
    if len > 0 {
        Some(0)
    } else {
        at
    }
}

/// The cursor on the last row.
pub open spec fn last(at: Option<usize>, len: int) -> Option<usize> {
    if len > 0 {
        Some((len - 1) as usize)
    } else {
        at
    }
}

impl Cursor {
    pub fn move_down(&mut self, n: usize, len: usize)
        ensures
            final(self).at == down(old(self).at, n, len as int),
    {
        if len > 0 {
            let i: usize = match self.at {
                Some(i) => i,
                None => 0,
            };
            let j: usize = i.saturating_add(n);
            self.at = Some(if j < len { j } else { len - 1 });
        }
    }

    pub fn move_up(&mut self, n: usize, len: usize)
        ensures
            final(self).at == up(old(self).at, n, len as int),
    {
        if len > 0 {
            let i: usize = match self.at {
                Some(i) => i,
                None => 0,
            };
            self.at = Some(if i >= n { i - n } else { 0 });
        }
    }

    pub fn home(&mut self, len: usize)
        ensures
            final(self).at == first(old(self).at, len as int),
    {
        if len > 0 {
            self.at = Some(0);
        }
    }

    pub fn end(&mut self, len: usize)
        ensures
            final(self).at == last(old(self).at, len as int),
    {
        if len > 0 {
            self.at = Some(len - 1);
        }
    }
}

/// Moving never leaves the list, from wherever the cursor was: down ends on a
/// row, and up does from a row.
pub proof fn lemma_moves_stay(at: Option<usize>, n: usize, len: int)
    requires
        0 < len <= usize::MAX,
    ensures
        down(at, n, len) matches Some(i) && i < len,
        (at matches Some(i) ==> i < len) ==> (up(at, n, len) matches Some(i) && i < len),
        first(at, len) matches Some(i) && i < len,
        last(at, len) matches Some(i) && i < len,
{
}

} // verus!
