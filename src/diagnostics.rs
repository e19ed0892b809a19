//! Locating a parse failure in the text of its file.
use vstd::prelude::*;

verus! {

/// Where a byte offset falls in a text: the line number (counting newlines
/// before the offset, so the first line is 0), the distance from the last
/// newline before the offset (from the start of the text when there is
/// none), and the byte range of the line's text without its newline.
#[derive(Clone, Copy, Debug, PartialEq, Eq, Structural)]
pub struct ErrorLocation {
    pub line: usize,
    pub column: usize,
    pub line_start: usize,
    pub line_end: usize,
}

/// Number of newlines among the first `n` bytes of `s`.
pub open spec fn newlines(s: Seq<u8>, n: int) -> nat
    decreases n,
{
    if n <= 0 || n > s.len() {
        0
    } else if s[n - 1] == 10 {
        newlines(s, n - 1) + 1
    } else {
        newlines(s, n - 1)
    }
}

/// Index of the last newline among the first `n` bytes of `s`.
pub open spec fn last_newline(s: Seq<u8>, n: int) -> Option<int>
    decreases n,
{
    if n <= 0 || n > s.len() {
        None
    } else if s[n - 1] == 10 {
        Some(n - 1)
    } else {
        last_newline(s, n - 1)
    }
}

/// Index of the first newline at or after `i`, or the length of `s`.
pub open spec fn line_end(s: Seq<u8>, i: int) -> int
    decreases s.len() - i,
{
    if i >= s.len() {
        s.len() as int
    } else if s[i] == 10 {
        i
    } else {
        line_end(s, i + 1)
    }
}

/// The location of byte `offset` in `s`.
pub open spec fn location_spec(s: Seq<u8>, offset: int) -> ErrorLocation {
    let start = match last_newline(s, offset) {
        Some(k) => k + 1,
        None => 0,
    };
    ErrorLocation {
        line: newlines(s, offset) as usize,
        column: (offset - match last_newline(s, offset) {
            Some(k) => k,
            None => 0,
        }) as usize,
        line_start: start as usize,
        line_end: line_end(s, start) as usize,
    }
}

proof fn lemma_newlines_bound(s: Seq<u8>, n: int)
    requires
        0 <= n <= s.len(),
    ensures
        newlines(s, n) <= n,
        last_newline(s, n) matches Some(k) ==> 0 <= k < n,
    decreases n,
{
    if n > 0 {
        lemma_newlines_bound(s, n - 1);
    }
}

proof fn lemma_line_end_bound(s: Seq<u8>, i: int)
    requires
        0 <= i <= s.len(),
    ensures
        i <= line_end(s, i) <= s.len(),
    decreases s.len() - i,
{
    if i < s.len() {
        lemma_line_end_bound(s, i + 1);
    }
}

/// Where byte `offset` of `contents` falls; `None` when the offset lies
/// past the end.
pub fn locate_error(contents: &[u8], offset: usize) -> (r: Option<ErrorLocation>)
    ensures
        offset > contents@.len() ==> r is None,
        offset <= contents@.len() ==> r == Some(location_spec(contents@, offset as int)),
{
    if offset > contents.len() {
        return None;
    }
    let ghost s = contents@;
    let mut pos: usize = 0;
    let mut line: usize = 0;
    let mut last: Option<usize> = None;
    while pos < offset
        invariant
            s == contents@,
            offset <= s.len(),
            pos <= offset,
            line == newlines(s, pos as int),
            match last {
                Some(k) => last_newline(s, pos as int) == Some(k as int),
                None => last_newline(s, pos as int) is None,
            },
        decreases offset - pos,
    {
        proof {
            lemma_newlines_bound(s, pos as int);
        }
        if contents[pos] == 10u8 {
            line = line + 1;
            last = Some(pos);
        }
        pos = pos + 1;
    }
    proof {
        lemma_newlines_bound(s, offset as int);
    }
    let (column, start) = match last {
        Some(k) => (offset - k, k + 1),
        None => (offset, 0),
    };
    let mut end: usize = start;
    proof {
        lemma_line_end_bound(s, start as int);
    }
    while end < contents.len() && contents[end] != 10u8
        invariant
            s == contents@,
            start <= end <= s.len(),
            line_end(s, start as int) == line_end(s, end as int),
        decreases s.len() - end,
    {
        end = end + 1;
    }
    Some(ErrorLocation { line, column, line_start: start, line_end: end })
}

} // verus!
