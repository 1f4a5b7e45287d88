//! Source spans: a byte range in one cached file, with 1-based line and
//! 0-based 16-bit column metadata.

use crate::loader::CachedFile;
use crate::scan::{col_of, count_newlines, count_nl, ByteSet};
use crate::text::lossy_chars_of;
use vstd::prelude::*;

verus! {

/// A column range on one line; columns are 0-based and fit in 16 bits.
#[derive(Debug, PartialEq, Eq, Hash, Clone, Copy)]
pub struct Range {
    pub start: u16,
    pub end: u16,
}

impl Range {
    /// Number of columns covered.
    pub fn len(&self) -> (r: usize)
        requires
            self.start <= self.end,
        ensures
            r == self.end - self.start,
    {
        (self.end - self.start) as usize
    }
}

/// Whether a span sits on a single line or stretches over several.
#[derive(Debug, PartialEq, Eq, Hash, Clone, Copy)]
pub enum SpanRange {
    SingleLine { line: usize, col: Range },
    MultiLine { start_line: usize, start_col: u16, last_line: usize, last_col: u16, end_pos: usize },
}

/// The column range a span covers on line `cur_line`: its columns when it
/// is a single-line span on exactly that line, nothing otherwise.
pub open spec fn spec_line_caret(rg: SpanRange, cur_line: usize) -> Option<(usize, usize)> {
    match rg {
        SpanRange::SingleLine { line, col } => if line == cur_line {
            Some((col.start as usize, col.end as usize))
        } else {
            None
        },
        SpanRange::MultiLine { start_line: _, start_col: _, last_line: _, last_col: _, end_pos: _ } => None,
    }
}

impl SpanRange {
    /// The column range this span covers on `cur_line`, if it is a
    /// single-line span on exactly that line.
    pub fn get_range_for_line(&self, cur_line: usize) -> (r: Option<(usize, usize)>)
        ensures
            r == spec_line_caret(*self, cur_line),
    {
        match self {
            SpanRange::SingleLine { line, col } => if *line == cur_line {
                Some((col.start as usize, col.end as usize))
            } else {
                None
            },
            SpanRange::MultiLine { .. } => None,
        }
    }
}

/// A contiguous region of one cached file.
#[derive(Debug, PartialEq, Eq, Hash)]
pub struct SourceSpan {
    pub file: CachedFile,
    pub pos: usize,
    pub range: SpanRange,
}

impl Clone for SourceSpan {
    /// Clones keep the file contents, position and range.
    fn clone(&self) -> (r: Self)
        ensures
            r.file.same_file(&self.file),
            r.pos == self.pos,
            r.range == self.range,
    {
        SourceSpan { file: self.file.clone(), pos: self.pos, range: self.range }
    }
}

impl SourceSpan {
    /// Path of the file the span points into.
    pub open spec fn spec_path(&self) -> Seq<char> {
        self.file.spec_path()
    }

    /// Bytes of the file the span points into.
    pub open spec fn spec_data(&self) -> Seq<u8> {
        self.file.spec_data()
    }

    /// First byte offset of the span.
    pub open spec fn spec_pos(&self) -> int {
        self.pos as int
    }

    /// One-past-the-last byte offset of the span.
    pub open spec fn spec_byte_end(&self) -> int {
        match self.range {
            SpanRange::SingleLine { line, col } => self.pos + col.end - col.start,
            SpanRange::MultiLine { end_pos, .. } => end_pos as int,
        }
    }

    /// First line (1-based).
    pub open spec fn spec_line(&self) -> int {
        match self.range {
            SpanRange::SingleLine { line, .. } => line as int,
            SpanRange::MultiLine { start_line, .. } => start_line as int,
        }
    }

    /// Last line (1-based).
    pub open spec fn spec_last_line(&self) -> int {
        match self.range {
            SpanRange::SingleLine { line, .. } => line as int,
            SpanRange::MultiLine { last_line, .. } => last_line as int,
        }
    }

    /// Starting column on the first line (0-based).
    pub open spec fn spec_col(&self) -> int {
        match self.range {
            SpanRange::SingleLine { col, .. } => col.start as int,
            SpanRange::MultiLine { start_col, .. } => start_col as int,
        }
    }

    /// Ending column on the last line (0-based, exclusive).
    pub open spec fn spec_end_col(&self) -> int {
        match self.range {
            SpanRange::SingleLine { col, .. } => col.end as int,
            SpanRange::MultiLine { last_col, .. } => last_col as int,
        }
    }

    /// Single-line span?
    pub open spec fn is_single_line(&self) -> bool {
        self.range is SingleLine
    }

    /// Internal consistency: ordered bounds inside the file.
    pub open spec fn wf(&self) -> bool {
        &&& self.is_single_line() ==> self.spec_col() <= self.spec_end_col()
        &&& self.spec_pos() <= self.spec_byte_end() <= self.spec_data().len()
        &&& self.spec_line() <= self.spec_last_line()
    }

    /// The span `[pos, pos+len)` lies inside the file's bytes.
    pub open spec fn covers(&self, pos: int) -> bool {
        self.spec_pos() <= pos < self.spec_byte_end()
    }

    /// An empty span in an empty file.
    pub fn empty() -> (r: SourceSpan)
        ensures
            r.spec_path() == Seq::<char>::empty(),
            r.spec_data() == Seq::<u8>::empty(),
            r.spec_pos() == 0,
            r.spec_byte_end() == 0,
            r.spec_line() == 0,
            r.spec_col() == 0,
            r.wf(),
    {
        SourceSpan {
            file: CachedFile::empty(),
            pos: 0,
            range: SpanRange::SingleLine { line: 0, col: Range { start: 0, end: 0 } },
        }
    }

    /// A single-line span at `pos` with the given line, column and length.
    pub fn new(file: &CachedFile, pos: usize, line: usize, col: usize, len: usize) -> (r:
        SourceSpan)
        requires
            col + len <= 65535,
        ensures
            r.file.same_file(file),
            r.spec_pos() == pos,
            r.spec_byte_end() == pos + len,
            r.spec_line() == line,
            r.spec_last_line() == line,
            r.spec_col() == col,
            r.spec_end_col() == col + len,
            r.is_single_line(),
            pos + len <= file.spec_data().len() ==> r.wf(),
    {
        SourceSpan {
            file: file.clone(),
            pos,
            range: SpanRange::SingleLine {
                line,
                col: Range { start: col as u16, end: (col + len) as u16 },
            },
        }
    }

    /// As `new`, but clamping columns into 16 bits so that a file with
    /// over-long lines yields a usable span instead of a refusal.
    pub(crate) fn new_clamped(file: &CachedFile, pos: usize, line: usize, col: usize, len: usize)
        -> (r: SourceSpan)
        ensures
            r.file.same_file(file),
            r.spec_pos() == pos,
            r.spec_line() == line,
            r.spec_last_line() == line,
            r.is_single_line(),
            col + len <= 65535 ==> (r.spec_col() == col && r.spec_end_col() == col + len
                && r.spec_byte_end() == pos + len),
            r.spec_col() <= r.spec_end_col(),
            r.spec_byte_end() <= pos + len,
    {
        let start: u16 = if col > 65535 {
            65535
        } else {
            col as u16
        };
        let end: u16 = if len > (65535 - start) as usize {
            65535
        } else {
            start + (len as u16)
        };
        SourceSpan {
            file: file.clone(),
            pos,
            range: SpanRange::SingleLine { line, col: Range { start, end } },
        }
    }

    /// The logical path of the spanned file.
    pub fn path(&self) -> (r: &str)
        ensures
            r@ == self.spec_path(),
    {
        self.file.path()
    }

    /// The first line in this span.
    pub fn line(&self) -> (r: usize)
        ensures
            r == self.spec_line(),
    {
        match &self.range {
            SpanRange::SingleLine { line, .. } => *line,
            SpanRange::MultiLine { start_line, .. } => *start_line,
        }
    }

    /// The last line in this span.
    pub fn last_line(&self) -> (r: usize)
        ensures
            r == self.spec_last_line(),
    {
        match &self.range {
            SpanRange::SingleLine { line, .. } => *line,
            SpanRange::MultiLine { last_line, .. } => *last_line,
        }
    }

    /// The start column of the start line.
    pub fn col(&self) -> (r: usize)
        ensures
            r == self.spec_col(),
    {
        match &self.range {
            SpanRange::SingleLine { col, .. } => col.start as usize,
            SpanRange::MultiLine { start_col, .. } => *start_col as usize,
        }
    }

    /// The text this span covers, decoded lossily; out-of-file bounds are
    /// clamped to the buffer.
    pub fn value(&self) -> (r: String)
        ensures
            self.wf() ==> r@ == lossy_chars_of(
                self.spec_data().subrange(self.spec_pos(), self.spec_byte_end()),
            ),
    {
        let data = self.file.data();
        let end_wanted = match &self.range {
            SpanRange::SingleLine { col, .. } => if col.end >= col.start {
                if self.pos <= usize::MAX - ((col.end - col.start) as usize) {
                    self.pos + (col.end - col.start) as usize
                } else {
                    usize::MAX
                }
            } else {
                self.pos
            },
            SpanRange::MultiLine { end_pos, .. } => *end_pos,
        };
        let end = if end_wanted > data.len() {
            data.len()
        } else {
            end_wanted
        };
        let start = if self.pos > end {
            end
        } else {
            self.pos
        };
        crate::text::lossy_to_string(vstd::slice::slice_subrange(data.as_slice(), start, end))
    }

    /// A sub-span `off` bytes into this single-line span, `len` bytes wide.
    pub fn with_off(&self, off: usize, len: usize) -> (r: SourceSpan)
        requires
            self.is_single_line(),
            off <= 65535,
            len <= 65535,
            self.spec_col() + off + len <= 65535,
            self.spec_pos() + off <= usize::MAX,
        ensures
            r.file.same_file(&self.file),
            r.spec_pos() == self.spec_pos() + off,
            r.spec_line() == self.spec_line(),
            r.spec_last_line() == self.spec_line(),
            r.spec_col() == self.spec_col() + off,
            r.spec_end_col() == self.spec_col() + off + len,
            r.spec_byte_end() == self.spec_pos() + off + len,
            r.is_single_line(),
    {
        match &self.range {
            SpanRange::SingleLine { line, col } => SourceSpan {
                file: self.file.clone(),
                pos: self.pos + off,
                range: SpanRange::SingleLine {
                    line: *line,
                    col: Range {
                        start: col.start + (off as u16),
                        end: col.start + (off as u16) + (len as u16),
                    },
                },
            },
            SpanRange::MultiLine { .. } => {
                proof {
                    assert(false);
                }
                self.clone()
            },
        }
    }

    /// As `with_off`, but clamping where the 16-bit columns would overflow,
    /// and keeping multi-line spans unchanged.
    pub(crate) fn with_off_clamped(&self, off: usize, len: usize) -> (r: SourceSpan)
        ensures
            r.file.same_file(&self.file),
            self.is_single_line() && self.spec_col() + off + len <= 65535 && self.spec_pos() + off
                <= usize::MAX ==> {
                &&& r.spec_pos() == self.spec_pos() + off
                &&& r.spec_line() == self.spec_line()
                &&& r.spec_col() == self.spec_col() + off
                &&& r.spec_end_col() == self.spec_col() + off + len
            },
    {
        match &self.range {
            SpanRange::SingleLine { line, col } => {
                let pos = if off <= usize::MAX - self.pos {
                    self.pos + off
                } else {
                    usize::MAX
                };
                let start: u16 = if off <= (65535 - col.start) as usize {
                    col.start + (off as u16)
                } else {
                    65535
                };
                let end: u16 = if len <= (65535 - start) as usize {
                    start + (len as u16)
                } else {
                    65535
                };
                SourceSpan {
                    file: self.file.clone(),
                    pos,
                    range: SpanRange::SingleLine { line: *line, col: Range { start, end } },
                }
            },
            SpanRange::MultiLine { .. } => self.clone(),
        }
    }

    /// How wide the line-number gutter of a diagnostic must be, given the
    /// largest extra line offset that will be printed.
    pub fn calc_ln_width(&self, extra: usize) -> (r: usize)
        requires
            self.spec_last_line() + extra <= usize::MAX,
        ensures
            r == spec_ln_width(self.spec_last_line() + extra),
    {
        let n = self.last_line() + extra;
        if n <= 999 {
            3
        } else if n <= 9999 {
            4
        } else if n <= 99999 {
            5
        } else if n <= 999999 {
            6
        } else {
            10
        }
    }

    /// `self` and `other` measure their columns from the same line starts:
    /// byte position minus column agree on equal lines.  Spans handed out by
    /// the parser always do.
    pub open spec fn aligned_with(&self, other: &SourceSpan) -> bool {
        self.spec_line() == other.spec_line() ==> self.spec_pos() - self.spec_col()
            == other.spec_pos() - other.spec_col()
    }

    /// The smallest span that covers both `self` and `other`, which must
    /// point into the same file.
    pub(crate) fn join(&self, other: &SourceSpan) -> (r: SourceSpan)
        requires
            self.file.same_file(&other.file),
        ensures
            r.file.same_file(&self.file),
            r.spec_pos() == spec_min(self.spec_pos(), other.spec_pos()),
            r.spec_line() == spec_min(self.spec_line(), other.spec_line()),
            r.spec_last_line() == spec_max(self.spec_last_line(), other.spec_last_line()),
            self.spec_line() < other.spec_line() ==> r.spec_col() == self.spec_col(),
            other.spec_line() < self.spec_line() ==> r.spec_col() == other.spec_col(),
            self.spec_line() == other.spec_line() ==> r.spec_col() == spec_min(
                self.spec_col(),
                other.spec_col(),
            ),
            self.spec_line() == other.spec_line() && self.spec_last_line()
                == other.spec_last_line() && self.spec_col() <= self.spec_end_col()
                && other.spec_col() <= other.spec_end_col() && spec_min(
                self.spec_line(),
                other.spec_line(),
            ) == spec_max(self.spec_last_line(), other.spec_last_line())
                ==> r.spec_end_col() == spec_max(self.spec_end_col(), other.spec_end_col()),
            self.wf() && other.wf() && self.aligned_with(other) && self.is_single_line()
                && other.is_single_line() && spec_min(self.spec_line(), other.spec_line())
                == spec_max(self.spec_last_line(), other.spec_last_line()) ==> r.spec_byte_end()
                == spec_max(self.spec_byte_end(), other.spec_byte_end()),
            self.wf() && other.wf() && spec_min(self.spec_line(), other.spec_line()) != spec_max(
                self.spec_last_line(),
                other.spec_last_line(),
            ) ==> r.spec_byte_end() == spec_max(self.spec_byte_end(), other.spec_byte_end()),
            self.wf() && other.wf() && self.aligned_with(other) && (self.is_single_line()
                && other.is_single_line() || spec_min(self.spec_line(), other.spec_line())
                != spec_max(self.spec_last_line(), other.spec_last_line())) ==> r.wf(),
    {
        let data_len = self.file.data().len();
        let other_len = other.file.data().len();
        let pos = if self.pos <= other.pos {
            self.pos
        } else {
            other.pos
        };
        let a_line = self.line();
        let b_line = other.line();
        let a_scol16: u16 = match &self.range {
            SpanRange::SingleLine { col, .. } => col.start,
            SpanRange::MultiLine { start_col, .. } => *start_col,
        };
        let b_scol16: u16 = match &other.range {
            SpanRange::SingleLine { col, .. } => col.start,
            SpanRange::MultiLine { start_col, .. } => *start_col,
        };
        let (first_line, first_col) = if a_line < b_line {
            (a_line, a_scol16)
        } else if b_line < a_line {
            (b_line, b_scol16)
        } else if a_scol16 <= b_scol16 {
            (a_line, a_scol16)
        } else {
            (a_line, b_scol16)
        };
        let a_last = self.last_line();
        let b_last = other.last_line();
        let a_end = self.byte_end();
        let b_end = other.byte_end();
        let end_pos = if a_end >= b_end {
            a_end
        } else {
            b_end
        };
        let a_ecol: u16 = match &self.range {
            SpanRange::SingleLine { col, .. } => col.end,
            SpanRange::MultiLine { last_col, .. } => *last_col,
        };
        let b_ecol: u16 = match &other.range {
            SpanRange::SingleLine { col, .. } => col.end,
            SpanRange::MultiLine { last_col, .. } => *last_col,
        };
        let (last_line, last_col) = if a_last > b_last {
            (a_last, a_ecol)
        } else if b_last > a_last {
            (b_last, b_ecol)
        } else if a_ecol >= b_ecol {
            (a_last, a_ecol)
        } else {
            (a_last, b_ecol)
        };
        if first_line == last_line {
            let ecol = if last_col >= first_col {
                last_col
            } else {
                first_col
            };
            SourceSpan {
                file: self.file.clone(),
                pos,
                range: SpanRange::SingleLine {
                    line: first_line,
                    col: Range { start: first_col, end: ecol },
                },
            }
        } else {
            SourceSpan {
                file: self.file.clone(),
                pos,
                range: SpanRange::MultiLine {
                    start_line: first_line,
                    start_col: first_col,
                    last_line,
                    last_col,
                    end_pos,
                },
            }
        }
    }

    /// One-past-the-end byte offset (clamped where it would not fit).
    pub(crate) fn byte_end(&self) -> (r: usize)
        ensures
            self.spec_pos() <= self.spec_byte_end() <= usize::MAX && (self.is_single_line()
                ==> self.spec_col() <= self.spec_end_col()) ==> r == self.spec_byte_end(),
            r >= self.spec_pos(),
    {
        match &self.range {
            SpanRange::SingleLine { col, .. } => if col.end >= col.start {
                if self.pos <= usize::MAX - ((col.end - col.start) as usize) {
                    self.pos + ((col.end - col.start) as usize)
                } else {
                    usize::MAX
                }
            } else {
                self.pos
            },
            SpanRange::MultiLine { end_pos, .. } => if *end_pos >= self.pos {
                *end_pos
            } else {
                self.pos
            },
        }
    }
}

impl SourceSpan {
    /// A one-byte span at byte offset `pos` of `file`, with its line and
    /// column computed from the bytes; at or past the end of the file the
    /// span sits after the last line with an empty column range.
    pub fn from_pos(file: &CachedFile, pos: usize) -> (r: SourceSpan)
        ensures
            r.file.same_file(file),
            r.spec_pos() == pos,
            r.is_single_line(),
            pos < file.spec_data().len() ==> r.spec_line() == 1 + count_nl(
                file.spec_data().subrange(0, pos as int),
            ),
            pos < file.spec_data().len() && col_of(file.spec_data(), pos as int) + 1 <= 65535
                ==> r.spec_col() == col_of(file.spec_data(), pos as int) && r.spec_end_col()
                == col_of(file.spec_data(), pos as int) + 1 && r.spec_byte_end() == pos + 1,
            pos >= file.spec_data().len() ==> r.spec_col() == 0 && r.spec_end_col() == 0
                && r.spec_byte_end() == pos,
            pos >= file.spec_data().len() ==> r.spec_line() == 1 + count_nl(file.spec_data()) + (
            if file.spec_data().len() > 0 && file.spec_data().last() != 10 {
                1int
            } else {
                0int
            }),
    {
        let n = file.data_len();
        if pos < n {
            let data = file.data();
            let line = count_newlines(data.as_slice(), 0, pos);
            let col = crate::scan::col_at(data.as_slice(), pos);
            proof {
                crate::scan::lemma_count_nl_bounds(file.spec_data().subrange(0, pos as int));
            }
            let line1 = if line < usize::MAX {
                line + 1
            } else {
                line
            };
            SourceSpan::new_clamped(file, pos, line1, col, 1)
        } else {
            // Count the lines of the whole file, as the renderer does.
            let data = file.data();
            let nl = count_newlines(data.as_slice(), 0, n);
            proof {
                crate::scan::lemma_count_nl_bounds(file.spec_data());
                assert(file.spec_data().subrange(0, n as int) =~= file.spec_data());
            }
            let partial: usize = if n > 0 && data[n - 1] != 10 {
                1
            } else {
                0
            };
            SourceSpan::new_clamped(file, pos, nl + partial + 1, 0, 0)
        }
    }

    /// A span for tests: line and column are given (1-based line, 0-based
    /// column) and the byte position is computed from the file's lines.
    pub fn new_for_test(file: &CachedFile, line: usize, col: usize, len: usize) -> (r: SourceSpan)
        ensures
            r.file.same_file(file),
            r.spec_line() == line,
            r.is_single_line(),
    {
        let n = file.data_len();
        let data = file.data();
        let mut pos: usize = 0;
        let mut ln: usize = 1;
        while ln < line && pos < n
            invariant
                pos <= n,
                n == file.spec_data().len(),
                data@ == file.spec_data(),
                ln >= 1,
            decreases n - pos,
        {
            let e = crate::scan::seek_in(data.as_slice(), pos, crate::scan::ByteSet::Nl);
            proof {
                crate::scan::lemma_seek_in_props(data@, pos as int, crate::scan::ByteSet::Nl);
            }
            if e < n {
                pos = e + 1;
            } else {
                pos = n;
            }
            ln = ln + 1;
        }
        let pos2 = if ln == line {
            crate::scan::sat_add(pos, col)
        } else {
            pos
        };
        SourceSpan::new_clamped(file, pos2, line, col, len)
    }
}


/// Byte offset where line `ln` (1-based) starts: line 1 starts at 0, and
/// each following line starts just past the previous line's terminator,
/// clamped to the end of the buffer.
pub open spec fn spec_line_start(data: Seq<u8>, ln: int) -> int
    decreases ln,
{
    if ln <= 1 {
        0
    } else {
        let prev = spec_line_start(data, ln - 1);
        let e = crate::scan::spec_seek_in(data, prev, ByteSet::Nl);
        if e < data.len() {
            e + 1
        } else {
            data.len() as int
        }
    }
}

/// A line's start offset lies inside the buffer.
pub proof fn lemma_line_start_bounds(data: Seq<u8>, ln: int)
    ensures
        0 <= spec_line_start(data, ln) <= data.len(),
    decreases ln,
{
    if ln > 1 {
        lemma_line_start_bounds(data, ln - 1);
        crate::scan::lemma_seek_in_props(data, spec_line_start(data, ln - 1), ByteSet::Nl);
    }
}

/// Line starts never move backwards as the line number grows.
pub proof fn lemma_line_start_mono(data: Seq<u8>, a: int, b: int)
    requires
        a <= b,
    ensures
        spec_line_start(data, a) <= spec_line_start(data, b),
    decreases b - a,
{
    if a < b {
        lemma_line_start_mono(data, a, b - 1);
        if b > 1 {
            lemma_line_start_bounds(data, b - 1);
            crate::scan::lemma_seek_in_props(data, spec_line_start(data, b - 1), ByteSet::Nl);
        }
    }
}

/// The rendered text of line `ln`: its bytes without the terminator or
/// trailing whitespace, decoded with ill-formed sequences replaced.
pub open spec fn spec_line_text(data: Seq<u8>, ln: int) -> Seq<char> {
    let start = spec_line_start(data, ln);
    let e = crate::scan::spec_seek_in(data, start, ByteSet::Nl);
    let raw = if e < data.len() {
        e + 1
    } else {
        e
    };
    lossy_chars_of(data.subrange(start, crate::token::txt::spec_trim_end(data, start, raw)))
}

/// The first line of the rendering window around line `line`.
pub open spec fn spec_window_first(line: int, context: int) -> int {
    if line > context && line - context > 1 {
        line - context
    } else {
        1
    }
}

impl SourceSpan {
    /// The source lines around this span: for each line in the window of
    /// `context` lines on either side, its 1-based number, the column
    /// range this span covers on it (when single-line), and its text
    /// without the terminator or trailing whitespace.
    pub fn lines(&self, context: usize) -> (r: Vec<(usize, Option<(usize, usize)>, String)>)
        ensures
            forall|k: int| 0 <= k < r@.len() ==> (#[trigger] r@[k]).0 >= 1,
            forall|k: int|
                0 <= k < r@.len() ==> (#[trigger] r@[k]).0 + context >= self.spec_line() && r@[
                    k
                ].0 <= self.spec_line() + context,
            forall|k: int|
                0 <= k < r@.len() ==> (#[trigger] r@[k]).1 == spec_line_caret(
                    self.range,
                    r@[k].0,
                ),
            forall|k1: int, k2: int|
                0 <= k1 < k2 < r@.len() ==> (#[trigger] r@[k1]).0 <= (#[trigger] r@[k2]).0,
            self.spec_line() + context < usize::MAX ==> (forall|k1: int, k2: int|
                0 <= k1 < k2 < r@.len() ==> (#[trigger] r@[k1]).0 < (#[trigger] r@[k2]).0),
            forall|k: int|
                0 <= k < r@.len() ==> (#[trigger] r@[k]).2@ == spec_line_text(
                    self.file.spec_data(),
                    r@[k].0 as int,
                ),
            forall|k: int|
                0 <= k < r@.len() ==> spec_line_start(self.file.spec_data(), (#[trigger] r@[
                    k
                ]).0 as int) < self.file.spec_data().len(),
            forall|k: int|
                0 <= k < r@.len() ==> (#[trigger] r@[k]).0 == spec_window_first(
                    self.spec_line(),
                    context as int,
                ) + k,
            r@.len() + spec_window_first(self.spec_line(), context as int) <= crate::scan::cap_usize(
                self.spec_line() + context,
            ) ==> spec_line_start(
                self.file.spec_data(),
                spec_window_first(self.spec_line(), context as int) + r@.len(),
            ) >= self.file.spec_data().len(),
    {
        let n = self.file.data_len();
        let data = self.file.data();
        let my_line = self.line();
        let first: usize = if my_line > context {
            if my_line - context > 1 {
                my_line - context
            } else {
                1
            }
        } else {
            1
        };
        let last: usize = crate::scan::sat_add(my_line, context);
        let mut out: Vec<(usize, Option<(usize, usize)>, String)> = Vec::new();
        let mut pos: usize = 0;
        let mut ln: usize = 1;
        while pos < n && ln <= last
            invariant
                pos <= n,
                ln >= 1,
                n == self.file.spec_data().len(),
                data@ == self.file.spec_data(),
                my_line == self.spec_line(),
                first >= 1,
                first + context >= my_line,
                last <= my_line + context,
                forall|k: int| 0 <= k < out@.len() ==> (#[trigger] out@[k]).0 >= 1,
                forall|k: int|
                    0 <= k < out@.len() ==> (#[trigger] out@[k]).0 + context >= my_line && out@[
                        k
                    ].0 <= my_line + context,
                forall|k: int|
                    0 <= k < out@.len() ==> (#[trigger] out@[k]).1 == spec_line_caret(
                        self.range,
                        out@[k].0,
                    ),
                forall|k: int| 0 <= k < out@.len() ==> (#[trigger] out@[k]).0 <= ln,
                my_line + context < usize::MAX ==> (forall|k: int|
                    0 <= k < out@.len() ==> (#[trigger] out@[k]).0 < ln),
                forall|k1: int, k2: int|
                    0 <= k1 < k2 < out@.len() ==> (#[trigger] out@[k1]).0 <= (
                    #[trigger] out@[k2]).0,
                my_line + context < usize::MAX ==> (forall|k1: int, k2: int|
                    0 <= k1 < k2 < out@.len() ==> (#[trigger] out@[k1]).0 < (
                    #[trigger] out@[k2]).0),
                n < usize::MAX - 4,
                ln as int <= pos + 1,
                pos == spec_line_start(data@, ln as int),
                first == spec_window_first(my_line as int, context as int),
                last == crate::scan::cap_usize(my_line + context),
                ln as int <= first ==> out@.len() == 0,
                ln as int > first ==> out@.len() == ln - first,
                forall|k: int|
                    0 <= k < out@.len() ==> (#[trigger] out@[k]).0 == first + k,
                forall|k: int|
                    0 <= k < out@.len() ==> (#[trigger] out@[k]).2@ == spec_line_text(
                        data@,
                        out@[k].0 as int,
                    ),
                forall|k: int|
                    0 <= k < out@.len() ==> spec_line_start(data@, (#[trigger] out@[
                        k
                    ]).0 as int) < n,
            decreases n - pos,
        {
            let ghost pos0 = pos;
            let ghost ln0 = ln;
            let e = crate::scan::seek_in(data.as_slice(), pos, crate::scan::ByteSet::Nl);
            proof {
                crate::scan::lemma_seek_in_props(data@, pos as int, crate::scan::ByteSet::Nl);
            }
            let raw_end = if e < n {
                e + 1
            } else {
                e
            };
            if ln >= first {
                let t1 = crate::token::txt::trim_end_of(data.as_slice(), pos, raw_end);
                let text = crate::text::lossy_to_string(
                    vstd::slice::slice_subrange(data.as_slice(), pos, t1),
                );
                let caret = self.range.get_range_for_line(ln);
                proof {
                    assert(text@ == spec_line_text(data@, ln as int));
                }
                out.push((ln, caret, text));
            }
            pos = raw_end;
            ln = crate::scan::sat_add(ln, 1);
            proof {
                assert(ln == ln0 + 1);
                assert(pos == spec_line_start(data@, ln as int));
            }
        }
        proof {
            if out@.len() + first <= last {
                // The loop stopped for want of input: the next window line
                // starts at or past the end of the file.
                assert(pos >= n);
                if ln <= first {
                    lemma_line_start_mono(data@, ln as int, first as int);
                    assert(out@.len() == 0);
                } else {
                    assert(first + out@.len() == ln);
                }
            }
        }
        out
    }
}

/// Gutter width for a given largest line number.
pub open spec fn spec_ln_width(n: int) -> int {
    if n <= 999 {
        3
    } else if n <= 9999 {
        4
    } else if n <= 99999 {
        5
    } else if n <= 999999 {
        6
    } else {
        10
    }
}

pub open spec fn spec_min(a: int, b: int) -> int {
    if a <= b {
        a
    } else {
        b
    }
}

pub open spec fn spec_max(a: int, b: int) -> int {
    if a >= b {
        a
    } else {
        b
    }
}

} // verus!
