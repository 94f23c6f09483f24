//! Resolution of a byte span to a line, columns and the line's text.

use crate::text::byte_len;
use crate::text::chars_of;
use crate::text::decimal;
use crate::text::lemma_offset_monotonic;
use crate::text::lemma_offset_step;
use crate::text::offset_of;
use crate::text::push_str;
use crate::text::push_usize;
use crate::text::repeat_char;
use crate::text::string_of;
use crate::text::utf8_width;
use std::ops::Range;
use vstd::prelude::*;

verus! {

/// Where a span lies in the source: the line, the 1-based columns (in bytes),
/// the text of the line and the span's byte range within that line.
#[derive(Debug)]
pub struct ParseContext {
    pub line_number: usize,
    pub column_start: usize,
    pub column_end: usize,
    pub line_content: String,
    pub span_in_line: Range<usize>,
}

/// What a [`ParseContext`] denotes.
pub struct ParseContextView {
    pub line_number: usize,
    pub column_start: usize,
    pub column_end: usize,
    pub line_content: Seq<char>,
    pub span_start: usize,
    pub span_end: usize,
}

impl View for ParseContext {
    type V = ParseContextView;

    open spec fn view(&self) -> ParseContextView {
        ParseContextView {
            line_number: self.line_number,
            column_start: self.column_start,
            column_end: self.column_end,
            line_content: self.line_content@,
            span_start: self.span_in_line.start,
            span_end: self.span_in_line.end,
        }
    }
}

impl Clone for ParseContext {
    fn clone(&self) -> (r: ParseContext)
        ensures
            r@ == self@,
    {
        ParseContext {
            line_number: self.line_number,
            column_start: self.column_start,
            column_end: self.column_end,
            line_content: self.line_content.clone(),
            span_in_line: self.span_in_line.start..self.span_in_line.end,
        }
    }
}

/// Index of the first line feed at or after `from`, or the length of `src`.
pub open spec fn line_feed(src: Seq<char>, from: int) -> int
    decreases src.len() - from,
{
    if 0 <= from < src.len() && src[from] != '\n' {
        line_feed(src, from + 1)
    } else {
        from
    }
}

/// Where the text of the line that starts at `from` ends: at its line feed, or
/// at the carriage return directly before the line feed.
pub open spec fn line_stop(src: Seq<char>, from: int) -> int {
    let feed = line_feed(src, from);
    if from < feed < src.len() && src[feed - 1] == '\r' {
        feed - 1
    } else {
        feed
    }
}

/// A line ends within the source, and holds no line feed.
pub proof fn lemma_line_feed(src: Seq<char>, from: int)
    requires
        0 <= from <= src.len(),
    ensures
        from <= line_feed(src, from) <= src.len(),
        from <= line_stop(src, from) <= line_feed(src, from),
        forall|k: int| from <= k < line_feed(src, from) ==> src[k] != '\n',
        line_feed(src, from) < src.len() ==> src[line_feed(src, from)] == '\n',
    decreases src.len() - from,
{
    if from < src.len() && src[from] != '\n' {
        lemma_line_feed(src, from + 1);
    }
}

/// One more than `n`, where that fits.
pub open spec fn succ(n: usize) -> usize {
    if n < usize::MAX {
        (n + 1) as usize
    } else {
        n
    }
}

/// The context of the span `start..end` (byte offsets), searched from the line
/// that begins at character `from`, before which `number` lines lie, the last
/// of them with the text `last`.
///
/// Lines end at a line feed. A span belongs to the first line whose text holds
/// its start, the position just behind the text included. The end column stops
/// at the end of that line. A span that starts in no line is reported on the
/// last line, at column 1.
pub open spec fn locate(
    src: Seq<char>,
    start: usize,
    end: usize,
    from: int,
    number: nat,
    last: Seq<char>,
) -> ParseContextView
    decreases src.len() - from,
{
    if 0 <= from < src.len() {
        let feed = line_feed(src, from);
        let stop = line_stop(src, from);
        let lo = offset_of(src, from);
        let hi = offset_of(src, stop);
        let line = src.subrange(from, stop);
        if lo <= start <= hi {
            let first = (start - lo) as usize;
            let reach = if end < start {
                start
            } else {
                end
            };
            let behind = if reach - lo < hi - lo {
                (reach - lo) as usize
            } else {
                (hi - lo) as usize
            };
            ParseContextView {
                line_number: (number + 1) as usize,
                column_start: succ(first),
                column_end: succ(behind),
                line_content: line,
                span_start: first,
                span_end: behind,
            }
        } else if from <= feed < src.len() {
            locate(src, start, end, feed + 1, number + 1, line)
        } else {
            ParseContextView::nowhere(number + 1, line)
        }
    } else {
        ParseContextView::nowhere(number, last)
    }
}

impl ParseContextView {
    /// The context of a span that starts in none of the `number` lines, the
    /// last of which has the text `last`.
    pub open spec fn nowhere(number: nat, last: Seq<char>) -> ParseContextView {
        ParseContextView {
            line_number: number as usize,
            column_start: 1,
            column_end: 1,
            line_content: last,
            span_start: 0,
            span_end: 0,
        }
    }

    /// The context of the byte span `start..end` in `src`.
    pub open spec fn of_span(src: Seq<char>, start: usize, end: usize) -> ParseContextView {
        locate(src, start, end, 0, 0, Seq::empty())
    }

    /// The position as it is shown under a message: `line:column: text` for an
    /// empty span, else `line:from-to: text` and under it a line of carets.
    pub open spec fn render(self) -> Seq<char> {
        if self.span_end <= self.span_start {
            decimal(self.line_number as nat) + ":"@ + decimal(self.column_start as nat) + ": "@
                + self.line_content
        } else {
            decimal(self.line_number as nat) + ":"@ + decimal(self.column_start as nat) + "-"@
                + decimal(self.column_end as nat) + ": "@ + self.line_content + "\n"@ + Seq::new(
                self.span_start as nat,
                |i: int| ' ',
            ) + Seq::new((self.span_end - self.span_start) as nat, |i: int| '^')
        }
    }
}

fn one_more(n: usize) -> (r: usize)
    ensures
        r == succ(n),
{
    if n < usize::MAX {
        n + 1
    } else {
        n
    }
}

impl ParseContext {
    /// Resolves the byte span to its line, columns and line text.
    #[verifier::rlimit(40)]
    pub fn from_span(source: &str, span: &Range<usize>) -> (r: Self)
        ensures
            r@ == ParseContextView::of_span(source@, span.start, span.end),
    {
        let chars = chars_of(source);
        let n = chars.len();
        let start = span.start;
        let end = span.end;
        let ghost src = chars@;
        let mut from: usize = 0;
        let mut lo: usize = 0;
        let mut number: usize = 0;
        let mut last_from: usize = 0;
        let mut last_stop: usize = 0;
        proof {
            assert(src.take(0) =~= Seq::<char>::empty());
            assert(src.subrange(0, 0) =~= Seq::<char>::empty());
        }
        while from < n
            invariant
                src == chars@,
                src == source@,
                start == span.start,
                end == span.end,
                n == src.len(),
                byte_len(src) <= usize::MAX,
                from <= n,
                number <= from,
                last_from <= last_stop <= n,
                lo == offset_of(src, from as int),
                locate(
                    src,
                    start,
                    end,
                    from as int,
                    number as nat,
                    src.subrange(last_from as int, last_stop as int),
                ) == ParseContextView::of_span(src, start, end),
            decreases n - from,
        {
            let mut feed: usize = from;
            let mut off: usize = lo;
            while feed < n && chars[feed] != '\n'
                invariant
                    src == chars@,
                    n == src.len(),
                    byte_len(src) <= usize::MAX,
                    from <= feed <= n,
                    off == offset_of(src, feed as int),
                    line_feed(src, feed as int) == line_feed(src, from as int),
                decreases n - feed,
            {
                proof {
                    lemma_offset_step(src, feed as int);
                    lemma_offset_monotonic(src, feed + 1, n as int);
                }
                off = off + utf8_width(chars[feed]);
                feed = feed + 1;
            }
            let mut stop: usize = feed;
            let mut hi: usize = off;
            if from < feed && feed < n && chars[feed - 1] == '\r' {
                proof {
                    lemma_offset_step(src, feed - 1);
                }
                stop = feed - 1;
                hi = off - 1;
            }
            proof {
                lemma_line_feed(src, from as int);
                lemma_offset_monotonic(src, from as int, stop as int);
                assert(stop == line_stop(src, from as int));
            }
            if lo <= start && start <= hi {
                let first = start - lo;
                let reach = if end < start {
                    start
                } else {
                    end
                };
                let behind = if reach - lo < hi - lo {
                    reach - lo
                } else {
                    hi - lo
                };
                return ParseContext {
                    line_number: number + 1,
                    column_start: one_more(first),
                    column_end: one_more(behind),
                    line_content: string_of(&chars, from, stop),
                    span_in_line: first..behind,
                };
            }
            number = number + 1;
            last_from = from;
            last_stop = stop;
            if feed < n {
                proof {
                    lemma_offset_step(src, feed as int);
                    lemma_offset_monotonic(src, feed + 1, n as int);
                }
                from = feed + 1;
                lo = off + 1;
            } else {
                from = n;
                lo = off;
            }
        }
        ParseContext {
            line_number: number,
            column_start: 1,
            column_end: 1,
            line_content: string_of(&chars, last_from, last_stop),
            span_in_line: 0..0,
        }
    }

    /// The position as it is shown under a message.
    pub fn render(&self) -> (r: String)
        ensures
            r@ == self@.render(),
    {
        let mut out = String::new();
        push_usize(&mut out, self.line_number);
        push_str(&mut out, ":");
        push_usize(&mut out, self.column_start);
        if self.span_in_line.end <= self.span_in_line.start {
            push_str(&mut out, ": ");
            push_str(&mut out, self.line_content.as_str());
        } else {
            push_str(&mut out, "-");
            push_usize(&mut out, self.column_end);
            push_str(&mut out, ": ");
            push_str(&mut out, self.line_content.as_str());
            push_str(&mut out, "\n");
            repeat_char(&mut out, ' ', self.span_in_line.start);
            repeat_char(&mut out, '^', self.span_in_line.end - self.span_in_line.start);
        }
        out
    }
}

} // verus!
