//! Source locations for AST nodes.
//!
//! The lexer tags each token with a pair of *char offsets* (indices into the
//! source's characters). [`LineIndex`] converts an offset into a 1-based
//! `(line, col)` pair.

use vstd::prelude::*;

verus! {

/// A 1-based source location.
#[derive(Debug, Clone, Copy, PartialEq, Eq, Default, Structural)]
pub struct Span {
    pub line: usize,
    pub col: usize,
}

/// Char offsets at which the lines of `s` start: offset 0, then one past
/// every newline.
pub open spec fn line_starts_spec(s: Seq<char>) -> Seq<usize>
    decreases s.len(),
{
    if s.len() == 0 {
        seq![0usize]
    } else if s.last() == '\n' {
        line_starts_spec(s.drop_last()).push(s.len() as usize)
    } else {
        line_starts_spec(s.drop_last())
    }
}

/// Maps char offsets into a source string to 1-based `(line, col)` pairs.
pub struct LineIndex {
    /// Char offset of the first character of each line (line 0 is index 0).
    line_starts: Vec<usize>,
}

impl LineIndex {
    /// The line starts this index was built with.
    pub closed spec fn starts(&self) -> Seq<usize> {
        self.line_starts@
    }

    /// Line starts are non-empty, begin at 0 and strictly increase.
    pub open spec fn wf(&self) -> bool {
        &&& self.starts().len() > 0
        &&& self.starts()[0] == 0
        &&& forall|i: int, j: int| 0 <= i < j < self.starts().len() ==> self.starts()[i] < self.starts()[j]
    }

    /// Index of the line holding `offset`: the last line start `<= offset`.
    pub open spec fn line_of(&self, offset: int, k: int) -> bool {
        &&& 0 <= k < self.starts().len()
        &&& self.starts()[k] <= offset
        &&& (k + 1 < self.starts().len() ==> offset < self.starts()[k + 1])
    }

    /// Build a line index by scanning `src` once for newlines.
    pub fn new(src: &str) -> (r: Self)
        ensures
            r.starts() == line_starts_spec(src@),
            r.wf(),
    {
        let chars = crate::text::chars_of(src);
        let mut line_starts: Vec<usize> = Vec::new();
        line_starts.push(0);
        let mut i: usize = 0;
        proof {
            assert(chars@.take(0) =~= Seq::<char>::empty());
        }
        while i < chars.len()
            invariant
                chars@ == src@,
                i <= chars.len(),
                line_starts@ == line_starts_spec(chars@.take(i as int)),
                line_starts@.len() > 0,
                line_starts@[0] == 0,
                forall|a: int, b: int| 0 <= a < b < line_starts@.len() ==> line_starts@[a] < line_starts@[b],
                forall|a: int| 0 <= a < line_starts@.len() ==> line_starts@[a] <= i,
            decreases chars.len() - i,
        {
            let ghost prev = chars@.take(i as int);
            assert(chars@.take(i + 1).drop_last() =~= prev);
            if chars[i] == '\n' {
                line_starts.push(i + 1);
            }
            i = i + 1;
        }
        assert(chars@.take(chars@.len() as int) =~= chars@);
        LineIndex { line_starts }
    }

    /// Convert a char offset into a 1-based `(line, col)` pair.
    pub fn line_col(&self, offset: usize) -> (r: (usize, usize))
        requires
            self.wf(),
            offset < usize::MAX,
        ensures
            exists|k: int| #[trigger] self.line_of(offset as int, k) && r.0 == k + 1 && r.1 == offset - self.starts()[k] + 1,
    {
        // Find the last line start <= offset by binary search.
        let n = self.line_starts.len();
        let mut lo: usize = 0;
        let mut hi: usize = n;
        // invariant: starts[lo] <= offset; all indices >= hi have starts > offset
        while lo + 1 < hi
            invariant
                self.wf(),
                n == self.starts().len(),
                0 <= lo < hi <= n,
                self.starts()[lo as int] <= offset,
                hi < n ==> offset < self.starts()[hi as int],
            decreases hi - lo,
        {
            let mid = lo + (hi - lo) / 2;
            if self.line_starts[mid] <= offset {
                lo = mid;
            } else {
                hi = mid;
            }
        }
        let line_start = self.line_starts[lo];
        assert(self.line_of(offset as int, lo as int));
        (lo + 1, offset - line_start + 1)
    }

    /// Convert a char offset into a [`Span`].
    pub fn span_at(&self, offset: usize) -> (r: Span)
        requires
            self.wf(),
            offset < usize::MAX,
        ensures
            exists|k: int| #[trigger] self.line_of(offset as int, k) && r.line == k + 1 && r.col == offset - self.starts()[k] + 1,
    {
        let (line, col) = self.line_col(offset);
        Span { line, col }
    }
}

} // verus!
