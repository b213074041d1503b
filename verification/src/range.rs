use vstd::prelude::*;

verus! {

/// A half-open interval `[start, end)`.
#[derive(Debug, Clone, Copy, PartialEq, Eq)]
pub struct Range<T> {
    pub start: T,
    pub end: T,
}

impl Range<i64> {
    pub fn new(start: i64, end: i64) -> (r: Self)
        ensures
            r.start == start,
            r.end == end,
    {
        Range { start, end }
    }

    pub fn length(self) -> (len: i64)
        requires
            i64::MIN <= self.end - self.start <= i64::MAX,
        ensures
            len == self.end - self.start,
    {
        self.end - self.start
    }

    pub fn contains(self, value: i64) -> (b: bool)
        ensures
            b == (self.start <= value < self.end),
    {
        value >= self.start && value < self.end
    }
}

impl Range<usize> {
    pub fn new(start: usize, end: usize) -> (r: Self)
        ensures
            r.start == start,
            r.end == end,
    {
        Range { start, end }
    }

    /// Number of values in the range; an unsigned range must not be
    /// reversed.
    pub fn length(self) -> (len: usize)
        requires
            self.start <= self.end,
        ensures
            len == self.end - self.start,
    {
        self.end - self.start
    }

    pub fn contains(self, value: usize) -> (b: bool)
        ensures
            b == (self.start <= value < self.end),
    {
        value >= self.start && value < self.end
    }
}

/// The values a half-open range `[start, end)` contains: its start when it
/// is not empty, never its end, and `end - start` values in all.
pub proof fn lemma_range_members(start: int, end: int)
    requires
        start <= end,
    ensures
        start < end ==> (start <= start < end),
        !(start <= end < end),
        Set::new(|v: int| start <= v < end).finite(),
        Set::new(|v: int| start <= v < end).len() == end - start,
{
    vstd::set_lib::lemma_int_range(start, end);
    assert(Set::new(|v: int| start <= v < end) =~= vstd::set_lib::set_int_range(start, end));
}

} // verus!
