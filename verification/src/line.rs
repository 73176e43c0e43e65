//! Line coordinates.
//!
//! The protocol counts lines the way a person reads them, 1-based and
//! inclusive; buffers count the way an array is indexed. There is one type
//! for the first convention, and one method to leave it.

use vstd::prelude::*;

use crate::text::{decimal, decimal_of, extend, string_of};

verus! {

/// A range of lines, 1-based and inclusive on both ends.
#[derive(Debug, Clone, Copy, PartialEq, Eq)]
pub struct LineRange {
    /// The first line, counting from 1.
    pub first: u32,
    /// The last line, included in the range.
    pub last: u32,
}

/// The larger of two line numbers.
pub open spec fn spec_max(a: u32, b: u32) -> u32 {
    if a >= b { a } else { b }
}

/// The smaller of two line numbers.
pub open spec fn spec_min(a: u32, b: u32) -> u32 {
    if a <= b { a } else { b }
}

impl LineRange {
    /// The range `LineRange::new(first, last)` builds: ends put in order,
    /// and line 0 read as line 1.
    pub open spec fn spec_new(first: u32, last: u32) -> LineRange {
        LineRange {
            first: spec_max(spec_min(first, last), 1),
            last: spec_max(spec_max(first, last), 1),
        }
    }

    /// Both ends are real lines and in order.
    pub open spec fn wf(self) -> bool {
        1 <= self.first <= self.last
    }

    /// A range covering `first` through `last`.
    ///
    /// Corrected rather than rejected: line 0 becomes line 1, and a backwards
    /// range is swapped.
    pub fn new(first: u32, last: u32) -> (r: Self)
        ensures
            r == Self::spec_new(first, last),
            r.wf(),
    {
        let (first, last) = if first <= last {
            (first, last)
        } else {
            (last, first)
        };
        LineRange {
            first: if first >= 1 { first } else { 1 },
            last: if last >= 1 { last } else { 1 },
        }
    }

    /// A range covering the single line `line`.
    pub fn single(line: u32) -> (r: Self)
        ensures
            r == Self::spec_new(line, line),
            r.first == r.last,
    {
        Self::new(line, line)
    }

    /// How many lines the range covers. Never zero for a well-formed range.
    pub fn len(&self) -> (n: u32)
        requires
            self.first <= self.last,
            self.last - self.first + 1 <= u32::MAX,
        ensures
            n == self.last - self.first + 1,
    {
        self.last - self.first + 1
    }

    /// Whether `line` falls inside the range.
    pub fn contains(&self, line: u32) -> (b: bool)
        ensures
            b == (self.first <= line && line <= self.last),
    {
        self.first <= line && line <= self.last
    }

    /// The same range as a half-open, 0-based range, ready to index a slice.
    pub fn to_zero_based(&self) -> (r: std::ops::Range<usize>)
        requires
            self.first >= 1,
        ensures
            r.start == self.first - 1,
            r.end == self.last,
    {
        let start = (self.first - 1) as usize;
        let end = self.last as usize;
        start..end
    }

    /// The range, shortened so it cannot point past a file of `line_count`
    /// lines.
    pub fn clamp_to(&self, line_count: u32) -> (r: Self)
        ensures
            r == Self::spec_new(
                spec_min(self.first, spec_max(line_count, 1)),
                spec_min(self.last, spec_max(line_count, 1)),
            ),
    {
        let limit = if line_count >= 1 { line_count } else { 1 };
        let first = if self.first <= limit { self.first } else { limit };
        let last = if self.last <= limit { self.last } else { limit };
        Self::new(first, last)
    }
}

impl LineRange {
    /// How the range reads on a pane label: `120-134`, or just `120` when it
    /// is one line.
    pub open spec fn spec_label(self) -> Seq<char> {
        if self.first == self.last {
            decimal(self.first as nat)
        } else {
            decimal(self.first as nat).push('-') + decimal(self.last as nat)
        }
    }

    /// Renders as `120-134`, or just `120` when the range is one line. This
    /// is the form that appears on a pane label.
    pub fn label(&self) -> (s: String)
        ensures
            s@ == self.spec_label(),
    {
        let mut v = decimal_of(self.first as u64);
        if self.first != self.last {
            v.push('-');
            let tail = decimal_of(self.last as u64);
            extend(&mut v, &tail);
        }
        string_of(&v)
    }
}

impl From<[u32; 2]> for LineRange {
    /// The wire form, `[first, last]`, corrected the way `new` corrects it.
    fn from(pair: [u32; 2]) -> (r: Self) {
        Self::new(pair[0], pair[1])
    }
}

impl vstd::std_specs::convert::FromSpecImpl<[u32; 2]> for LineRange {
    open spec fn obeys_from_spec() -> bool {
        true
    }

    open spec fn from_spec(pair: [u32; 2]) -> Self {
        Self::spec_new(pair@[0], pair@[1])
    }
}

impl From<LineRange> for [u32; 2] {
    /// The wire form of a range: a two-element array.
    fn from(range: LineRange) -> (r: Self) {
        [range.first, range.last]
    }
}

impl vstd::std_specs::convert::FromSpecImpl<LineRange> for [u32; 2] {
    open spec fn obeys_from_spec() -> bool {
        true
    }

    open spec fn from_spec(range: LineRange) -> Self {
        [range.first, range.last]
    }
}

} // verus!
