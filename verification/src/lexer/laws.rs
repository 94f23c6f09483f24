//! Laws of the lexer: white space between tokens changes no token.

use crate::ast::shape::divides;
use crate::ast::shape::star_like;
use crate::lexer::Rejected;
use crate::lexer::Scanned;
use crate::lexer::TokenSpanView;
use crate::lexer::TokenView;
use crate::lexer::lemma_scan_token;
use crate::lexer::lex;
use crate::lexer::lex_from;
use crate::lexer::scan::CharClass;
use crate::lexer::scan::block_end;
use crate::lexer::scan::is_digit;
use crate::lexer::scan::is_word_start;
use crate::lexer::scan::lemma_block_end;
use crate::lexer::scan::lemma_run_end;
use crate::lexer::scan::lemma_string_end;
use crate::lexer::scan::run_end;
use crate::lexer::scan::string_end;
use crate::lexer::scan::symbol2;
use crate::lexer::scan::symbol3;
use crate::lexer::scan::symbol_at;
use crate::lexer::scan_token;
use crate::lexer::utils::digits_value;
use crate::parser::stream::significant;
use crate::parser::stream::stream_of;
use crate::text::byte_len;
use crate::text::lemma_offset_monotonic;
use crate::text::offset_of;
use vstd::prelude::*;

verus! {

/// From `i` on, `s` reads as `t` does from `j` on.
pub open spec fn same_tail(s: Seq<char>, i: int, t: Seq<char>, j: int) -> bool {
    &&& 0 <= i <= s.len()
    &&& 0 <= j <= t.len()
    &&& t.len() - j == s.len() - i
    &&& forall|k: int| i <= k < s.len() ==> #[trigger] s[k] == t[k - i + j]
}

proof fn lemma_tail_step(s: Seq<char>, i: int, t: Seq<char>, j: int, n: int)
    requires
        same_tail(s, i, t, j),
        0 <= n <= s.len() - i,
    ensures
        same_tail(s, i + n, t, j + n),
{
    assert forall|k: int| i + n <= k < s.len() implies #[trigger] s[k] == t[k - (i + n) + (j
        + n)] by {
        assert(s[k] == t[k - i + j]);
    }
}

proof fn lemma_tail_first(s: Seq<char>, i: int, t: Seq<char>, j: int, n: int)
    requires
        same_tail(s, i, t, j),
        0 <= n < s.len() - i,
    ensures
        t[j + n] == s[i + n],
{
}

proof fn lemma_tail_run(s: Seq<char>, i: int, t: Seq<char>, j: int, class: CharClass)
    requires
        same_tail(s, i, t, j),
    ensures
        run_end(t, j, class) - j == run_end(s, i, class) - i,
    decreases s.len() - i,
{
    if i < s.len() {
        lemma_tail_first(s, i, t, j, 0);
        if class.holds(s[i]) {
            lemma_tail_step(s, i, t, j, 1);
            lemma_tail_run(s, i + 1, t, j + 1, class);
        }
    }
}

/// `end`, moved by `by`.
pub open spec fn moved(end: Option<int>, by: int) -> Option<int> {
    match end {
        Some(e) => Some(e + by),
        None => None,
    }
}

proof fn lemma_tail_string(s: Seq<char>, i: int, t: Seq<char>, j: int)
    requires
        same_tail(s, i, t, j),
    ensures
        string_end(t, j) == moved(string_end(s, i), j - i),
    decreases s.len() - i,
{
    if i < s.len() {
        lemma_tail_first(s, i, t, j, 0);
        if s[i] == '"' {
        } else if s[i] == '\\' {
            if i + 1 < s.len() {
                lemma_tail_first(s, i, t, j, 1);
                if s[i + 1] != '\n' {
                    lemma_tail_step(s, i, t, j, 2);
                    lemma_tail_string(s, i + 2, t, j + 2);
                }
            }
        } else {
            lemma_tail_step(s, i, t, j, 1);
            lemma_tail_string(s, i + 1, t, j + 1);
        }
    }
}

proof fn lemma_tail_block(s: Seq<char>, i: int, t: Seq<char>, j: int, star: bool)
    requires
        same_tail(s, i, t, j),
    ensures
        block_end(t, j, star) == moved(block_end(s, i, star), j - i),
    decreases s.len() - i,
{
    if i < s.len() {
        lemma_tail_first(s, i, t, j, 0);
        lemma_tail_step(s, i, t, j, 1);
        if !(star && s[i] == '/') {
            lemma_tail_block(s, i + 1, t, j + 1, s[i] == '*');
        }
    }
}

proof fn lemma_tail_text(s: Seq<char>, i: int, t: Seq<char>, j: int, from: int, to: int)
    requires
        same_tail(s, i, t, j),
        0 <= from <= to <= s.len() - i,
    ensures
        t.subrange(j + from, j + to) == s.subrange(i + from, i + to),
{
    let left = t.subrange(j + from, j + to);
    let right = s.subrange(i + from, i + to);
    assert forall|k: int| 0 <= k < to - from implies #[trigger] left[k] == right[k] by {
        lemma_tail_first(s, i, t, j, from + k);
    }
    assert(t.subrange(j + from, j + to) =~= s.subrange(i + from, i + to));
}

proof fn lemma_tail_digits(s: Seq<char>, i: int, t: Seq<char>, j: int, n: int)
    requires
        same_tail(s, i, t, j),
        0 <= n <= s.len() - i,
    ensures
        digits_value(t, j, j + n) == digits_value(s, i, i + n),
    decreases n,
{
    if n > 0 {
        lemma_tail_digits(s, i, t, j, n - 1);
        lemma_tail_first(s, i, t, j, n - 1);
    }
}

proof fn lemma_tail_symbol(s: Seq<char>, i: int, t: Seq<char>, j: int)
    requires
        same_tail(s, i, t, j),
        i < s.len(),
    ensures
        symbol_at(t, j) == symbol_at(s, i),
{
    lemma_tail_first(s, i, t, j, 0);
    if i + 1 < s.len() {
        lemma_tail_first(s, i, t, j, 1);
    }
    if i + 2 < s.len() {
        lemma_tail_first(s, i, t, j, 2);
    }
}

/// What stands at a position, moved by `by`.
pub open spec fn moved_scan(found: Scanned, by: int) -> Scanned {
    match found {
        Scanned::Token { token, end } => Scanned::Token { token, end: end + by },
        Scanned::Invalid { end } => Scanned::Invalid { end: end + by },
    }
}

/// The token at a position depends on nothing before it.
#[verifier::rlimit(40)]
proof fn lemma_tail_scan(s: Seq<char>, i: int, t: Seq<char>, j: int)
    requires
        same_tail(s, i, t, j),
        i < s.len(),
    ensures
        scan_token(t, j) == moved_scan(scan_token(s, i), j - i),
{
    let c = s[i];
    lemma_tail_first(s, i, t, j, 0);
    if i + 1 < s.len() {
        lemma_tail_first(s, i, t, j, 1);
    }
    if is_digit(c) {
        let mid = run_end(s, i, CharClass::Digit);
        lemma_run_end(s, i, CharClass::Digit);
        lemma_tail_run(s, i, t, j, CharClass::Digit);
        lemma_tail_digits(s, i, t, j, mid - i);
        if mid < s.len() {
            lemma_tail_first(s, i, t, j, mid - i);
        }
        if mid + 1 < s.len() {
            lemma_tail_first(s, i, t, j, mid + 1 - i);
            lemma_tail_step(s, i, t, j, mid + 1 - i);
            lemma_tail_run(s, mid + 1, t, mid + 1 + (j - i), CharClass::Digit);
            lemma_run_end(s, mid + 1, CharClass::Digit);
            let end = run_end(s, mid + 1, CharClass::Digit);
            lemma_tail_text(s, i, t, j, 0, end - i);
        }
    } else if is_word_start(c) {
        let end = run_end(s, i, CharClass::Word);
        lemma_run_end(s, i, CharClass::Word);
        lemma_tail_run(s, i, t, j, CharClass::Word);
        lemma_tail_text(s, i, t, j, 0, end - i);
    } else if c == '"' {
        lemma_tail_step(s, i, t, j, 1);
        lemma_tail_string(s, i + 1, t, j + 1);
        lemma_string_end(s, i + 1);
        match string_end(s, i + 1) {
            Some(end) => {
                lemma_tail_text(s, i, t, j, 1, end - 1 - i);
            },
            None => {},
        }
    } else if c == '/' && i + 1 < s.len() && s[i + 1] == '/' {
        lemma_tail_step(s, i, t, j, 2);
        lemma_tail_run(s, i + 2, t, j + 2, CharClass::InLine);
        lemma_run_end(s, i + 2, CharClass::InLine);
        let end = run_end(s, i + 2, CharClass::InLine);
        lemma_tail_text(s, i, t, j, 2, end - i);
    } else {
        if c == '/' && i + 1 < s.len() && s[i + 1] == '*' {
            lemma_tail_step(s, i, t, j, 2);
            lemma_tail_block(s, i + 2, t, j + 2, false);
            lemma_block_end(s, i + 2, false);
            match block_end(s, i + 2, false) {
                Some(end) => {
                    lemma_tail_text(s, i, t, j, 2, end - 2 - i);
                },
                None => {},
            }
        }
        lemma_tail_symbol(s, i, t, j);
    }
}

/// The significant tokens of an outcome of lexing, or `None` for an error.
pub open spec fn stream_of_outcome(outcome: Result<Seq<TokenSpanView>, Rejected>) -> Option<
    Seq<TokenView>,
> {
    match outcome {
        Ok(tokens) => Some(stream_of(tokens)),
        Err(_) => None,
    }
}

proof fn lemma_significant_front(first: TokenSpanView, rest: Seq<TokenSpanView>)
    ensures
        significant(seq![first] + rest) == if first.token.is_trivia() {
            significant(rest)
        } else {
            seq![first] + significant(rest)
        },
    decreases rest.len(),
{
    let all = seq![first] + rest;
    if rest.len() == 0 {
        assert(all.drop_last() =~= Seq::<TokenSpanView>::empty());
        assert(all.last() == first);
        assert(significant(Seq::<TokenSpanView>::empty()) =~= Seq::<TokenSpanView>::empty());
        assert(rest =~= Seq::<TokenSpanView>::empty());
        assert(Seq::<TokenSpanView>::empty().push(first) =~= seq![first] + Seq::<
            TokenSpanView,
        >::empty());
    } else {
        lemma_significant_front(first, rest.drop_last());
        assert(all.drop_last() =~= seq![first] + rest.drop_last());
        assert(all.last() == rest.last());
        if !rest.last().token.is_trivia() {
            assert((seq![first] + significant(rest.drop_last())).push(rest.last()) =~= seq![first]
                + significant(rest.drop_last()).push(rest.last()));
        }
    }
}

/// A comment in front changes no stream; any other token is its first token.
pub proof fn lemma_stream_front(first: TokenSpanView, rest: Seq<TokenSpanView>)
    ensures
        stream_of(seq![first] + rest) == if first.token.is_trivia() {
            stream_of(rest)
        } else {
            seq![first.token] + stream_of(rest)
        },
{
    lemma_significant_front(first, rest);
    if !first.token.is_trivia() {
        assert(stream_of(seq![first] + rest) =~= seq![first.token] + stream_of(rest));
    }
}

/// The tokens from a position on depend on nothing before it.
#[verifier::rlimit(40)]
proof fn lemma_tail_lex(s: Seq<char>, i: int, t: Seq<char>, j: int)
    requires
        same_tail(s, i, t, j),
    ensures
        stream_of_outcome(lex_from(t, j)) == stream_of_outcome(lex_from(s, i)),
    decreases s.len() - i,
{
    let start = run_end(s, i, CharClass::Space);
    let by = j - i;
    lemma_run_end(s, i, CharClass::Space);
    lemma_run_end(t, j, CharClass::Space);
    lemma_tail_run(s, i, t, j, CharClass::Space);
    if start < s.len() {
        lemma_tail_step(s, i, t, j, start - i);
        lemma_tail_scan(s, start, t, start + by);
        lemma_scan_token(s, start);
        match scan_token(s, start) {
            Scanned::Token { token, end } => {
                lemma_tail_step(s, i, t, j, end - i);
                lemma_tail_lex(s, end, t, end + by);
                match (lex_from(s, end), lex_from(t, end + by)) {
                    (Ok(rest), Ok(other)) => {
                        let first = TokenSpanView {
                            token,
                            start: crate::text::offset_of(s, start) as usize,
                            end: crate::text::offset_of(s, end) as usize,
                        };
                        let second = TokenSpanView {
                            token,
                            start: crate::text::offset_of(t, start + by) as usize,
                            end: crate::text::offset_of(t, end + by) as usize,
                        };
                        lemma_stream_front(first, rest);
                        lemma_stream_front(second, other);
                    },
                    _ => {},
                }
            },
            Scanned::Invalid { .. } => {},
        }
    }
}

/// Up to `p`, `s` and `t` read the same.
pub open spec fn agree(s: Seq<char>, t: Seq<char>, p: int) -> bool {
    &&& 0 <= p <= s.len()
    &&& p <= t.len()
    &&& forall|k: int| 0 <= k < p ==> #[trigger] t[k] == s[k]
}

/// A run that ends before `p` ends at the same place in `t`; a run that
/// reaches `p` goes on from there.
proof fn lemma_head_run(s: Seq<char>, t: Seq<char>, p: int, from: int, class: CharClass)
    requires
        agree(s, t, p),
        0 <= from <= p,
    ensures
        run_end(s, from, class) < p ==> run_end(t, from, class) == run_end(s, from, class),
        run_end(s, from, class) >= p ==> run_end(t, from, class) == run_end(t, p, class)
            && run_end(s, from, class) == run_end(s, p, class),
    decreases p - from,
{
    lemma_run_end(s, from, class);
    if from < p {
        assert(t[from] == s[from]);
        if class.holds(s[from]) {
            lemma_head_run(s, t, p, from + 1, class);
        }
    }
}

proof fn lemma_head_string(s: Seq<char>, t: Seq<char>, p: int, from: int)
    requires
        agree(s, t, p),
        0 <= from,
        string_end(s, from) matches Some(end) && end <= p,
    ensures
        string_end(t, from) == string_end(s, from),
    decreases s.len() - from,
{
    lemma_string_end(s, from);
    assert(t[from] == s[from]);
    if s[from] == '"' {
    } else if s[from] == '\\' {
        lemma_string_end(s, from + 2);
        assert(t[from + 1] == s[from + 1]);
        lemma_head_string(s, t, p, from + 2);
    } else {
        lemma_head_string(s, t, p, from + 1);
    }
}

proof fn lemma_head_block(s: Seq<char>, t: Seq<char>, p: int, from: int, star: bool)
    requires
        agree(s, t, p),
        0 <= from,
        block_end(s, from, star) matches Some(end) && end <= p,
    ensures
        block_end(t, from, star) == block_end(s, from, star),
    decreases s.len() - from,
{
    lemma_block_end(s, from, star);
    assert(t[from] == s[from]);
    if !(star && s[from] == '/') {
        lemma_head_block(s, t, p, from + 1, s[from] == '*');
    }
}

proof fn lemma_head_text(s: Seq<char>, t: Seq<char>, p: int, from: int, to: int)
    requires
        agree(s, t, p),
        0 <= from <= to <= p,
    ensures
        t.subrange(from, to) == s.subrange(from, to),
{
    let left = t.subrange(from, to);
    let right = s.subrange(from, to);
    assert forall|k: int| 0 <= k < to - from implies #[trigger] left[k] == right[k] by {
        assert(t[from + k] == s[from + k]);
    }
    assert(left =~= right);
}

proof fn lemma_head_digits(s: Seq<char>, t: Seq<char>, p: int, from: int, to: int)
    requires
        agree(s, t, p),
        0 <= from <= to <= p,
    ensures
        digits_value(t, from, to) == digits_value(s, from, to),
    decreases to - from,
{
    if from < to {
        lemma_head_digits(s, t, p, from, to - 1);
        assert(t[to - 1] == s[to - 1]);
    }
}

/// True for white space and for the slash: the characters with which white
/// space and comments begin.
pub open spec fn opens_padding(c: char) -> bool {
    CharClass::Space.holds(c) || c == '/'
}

/// No symbol of two or three characters holds white space or ends in a
/// slash, and the first two characters of a symbol of three are a symbol of
/// two.
proof fn lemma_symbol_shapes(a: char, b: char, c: char)
    ensures
        opens_padding(b) ==> symbol2(a, b).is_none() && symbol3(a, b, c).is_none(),
        opens_padding(c) ==> symbol3(a, b, c).is_none(),
        symbol3(a, b, c).is_some() ==> symbol2(a, b).is_some(),
{
}

/// A symbol that ends at or before `p` is the same symbol in `t`.
proof fn lemma_head_symbol(s: Seq<char>, t: Seq<char>, p: int, at: int)
    requires
        agree(s, t, p),
        p < t.len() ==> opens_padding(t[p]),
        0 <= at < p,
        symbol_at(s, at) matches Some((token, len)) && at + len <= p,
    ensures
        symbol_at(t, at) == symbol_at(s, at),
{
    assert(t[at] == s[at]);
    let len = symbol_at(s, at).unwrap().1;
    if at + 1 < p {
        assert(t[at + 1] == s[at + 1]);
    }
    if at + 2 < p {
        assert(t[at + 2] == s[at + 2]);
    }
    if at + 2 < t.len() {
        lemma_symbol_shapes(t[at], t[at + 1], t[at + 2]);
    } else if at + 1 < t.len() {
        lemma_symbol_shapes(t[at], t[at + 1], ' ');
    }
    if at + 2 < s.len() {
        lemma_symbol_shapes(s[at], s[at + 1], s[at + 2]);
    }
}

/// The token at `at` is a line comment that ends at `p` in `s` and goes
/// on in `t` to the end of the line.
pub open spec fn goes_on(s: Seq<char>, t: Seq<char>, p: int, at: int) -> bool {
    match (scan_token(s, at), scan_token(t, at)) {
        (Scanned::Token { token, end }, Scanned::Token { token: other, end: later }) => {
            token is LineComment && other is LineComment && end == p && later == run_end(
                t,
                p,
                CharClass::InLine,
            )
        },
        _ => false,
    }
}

/// A token that ends at or before `p`, and is no `/` directly before a `*`
/// or before another `/`, is the same token in `t`; but a line comment that
/// ends at `p` goes on in `t` to the end of the line.
#[verifier::rlimit(40)]
proof fn lemma_head_scan(s: Seq<char>, t: Seq<char>, p: int, at: int)
    requires
        agree(s, t, p),
        p < t.len() ==> opens_padding(t[p]),
        0 <= at < p,
        scan_token(s, at) matches Scanned::Token { token, end } && end <= p && !(token
            == TokenView::Slash && end < s.len() && s[end] == '*') && !(token == TokenView::Slash
            && end == p && p < t.len() && t[p] == '/'),
    ensures
        scan_token(t, at) == scan_token(s, at) || goes_on(s, t, p, at),
{
    let c = s[at];
    assert(t[at] == c);
    lemma_scan_token(s, at);
    if is_digit(c) {
        let mid = run_end(s, at, CharClass::Digit);
        lemma_run_end(s, at, CharClass::Digit);
        lemma_head_run(s, t, p, at, CharClass::Digit);
        if mid + 1 < s.len() && s[mid] == '.' && is_digit(s[mid + 1]) {
            let end = run_end(s, mid + 1, CharClass::Digit);
            lemma_run_end(s, mid + 1, CharClass::Digit);
            assert(t[mid] == s[mid]);
            assert(t[mid + 1] == s[mid + 1]);
            lemma_head_run(s, t, p, mid + 1, CharClass::Digit);
            lemma_head_text(s, t, p, at, end);
        } else {
            if mid + 1 < p {
                assert(t[mid] == s[mid]);
                assert(t[mid + 1] == s[mid + 1]);
            } else if mid + 1 == p {
                assert(t[mid] == s[mid]);
            }
            lemma_head_digits(s, t, p, at, mid);
        }
    } else if is_word_start(c) {
        let end = run_end(s, at, CharClass::Word);
        lemma_run_end(s, at, CharClass::Word);
        lemma_head_run(s, t, p, at, CharClass::Word);
        lemma_head_text(s, t, p, at, end);
    } else if c == '"' {
        lemma_string_end(s, at + 1);
        let end = string_end(s, at + 1).unwrap();
        lemma_head_string(s, t, p, at + 1);
        lemma_head_text(s, t, p, at + 1, end - 1);
    } else if c == '/' && at + 1 < s.len() && s[at + 1] == '/' {
        let end = run_end(s, at + 2, CharClass::InLine);
        lemma_run_end(s, at + 2, CharClass::InLine);
        assert(t[at + 1] == s[at + 1]);
        lemma_head_run(s, t, p, at + 2, CharClass::InLine);
        lemma_run_end(t, p, CharClass::InLine);
        if end < p {
            lemma_head_text(s, t, p, at + 2, end);
        }
    } else if c == '/' && at + 1 < s.len() && s[at + 1] == '*' && block_end(
        s,
        at + 2,
        false,
    ).is_some() {
        let end = block_end(s, at + 2, false).unwrap();
        lemma_block_end(s, at + 2, false);
        assert(t[at + 1] == s[at + 1]);
        lemma_head_block(s, t, p, at + 2, false);
        lemma_head_text(s, t, p, at + 2, end - 2);
    } else {
        let len = symbol_at(s, at).unwrap().1;
        if at + 1 < p {
            assert(t[at + 1] == s[at + 1]);
        }
        lemma_head_symbol(s, t, p, at);
    }
}

/// Every character of `w` is white space.
pub open spec fn blank(w: Seq<char>) -> bool {
    forall|k: int| 0 <= k < w.len() ==> CharClass::Space.holds(#[trigger] w[k])
}

/// The source `s` with the text `w` put in before position `p`.
pub open spec fn inserted(s: Seq<char>, p: int, w: Seq<char>) -> Seq<char> {
    s.take(p) + w + s.skip(p)
}

/// Position `p` lies between tokens, for the lexing of `s` from `at` on: in
/// the white space before a token, or directly behind one.
pub open spec fn between_tokens(s: Seq<char>, at: int, p: int) -> bool
    decreases s.len() - at,
{
    let start = run_end(s, at, CharClass::Space);
    if 0 <= at <= p <= s.len() {
        if p <= start {
            true
        } else {
            match scan_token(s, start) {
                Scanned::Token { token, end } => {
                    if at <= start < end <= p {
                        between_tokens(s, end, p)
                    } else {
                        false
                    }
                },
                Scanned::Invalid { .. } => false,
            }
        }
    } else {
        false
    }
}

/// From `at` on, no token `/` of `s` stands directly before a `*`.
pub open spec fn slashes_apart(s: Seq<char>, at: int) -> bool
    decreases s.len() - at,
{
    let start = run_end(s, at, CharClass::Space);
    if 0 <= at <= start < s.len() {
        match scan_token(s, start) {
            Scanned::Token { token, end } => {
                if start < end <= s.len() {
                    !(token == TokenView::Slash && end < s.len() && s[end] == '*')
                        && slashes_apart(s, end)
                } else {
                    true
                }
            },
            Scanned::Invalid { .. } => true,
        }
    } else {
        true
    }
}

proof fn lemma_inserted(s: Seq<char>, p: int, w: Seq<char>)
    requires
        0 <= p <= s.len(),
    ensures
        inserted(s, p, w).len() == s.len() + w.len(),
        agree(s, inserted(s, p, w), p),
        same_tail(s, p, inserted(s, p, w), p + w.len()),
        forall|k: int| 0 <= k < w.len() ==> #[trigger] inserted(s, p, w)[p + k] == w[k],
{
    let t = inserted(s, p, w);
    assert forall|k: int| p <= k < s.len() implies #[trigger] s[k] == t[k - p + (p + w.len())] by {
        assert(t[k + w.len()] == s.skip(p)[k - p]);
    }
}

/// From any place in a white-space run the run ends at the same place.
proof fn lemma_blank_run(t: Seq<char>, from: int, to: int)
    requires
        0 <= from <= to <= t.len(),
        forall|k: int| from <= k < to ==> CharClass::Space.holds(#[trigger] t[k]),
    ensures
        run_end(t, from, CharClass::Space) == run_end(t, to, CharClass::Space),
    decreases to - from,
{
    if from < to {
        assert(CharClass::Space.holds(t[from]));
        lemma_blank_run(t, from + 1, to);
    }
}

/// A line that must end at `to` ends at or before `to`, from wherever.
proof fn lemma_line_stops(t: Seq<char>, from: int, to: int)
    requires
        0 <= from <= to <= t.len(),
        to < t.len() ==> !CharClass::InLine.holds(t[to]),
    ensures
        from <= run_end(t, from, CharClass::InLine) <= to,
    decreases to - from,
{
    if from < to {
        if CharClass::InLine.holds(t[from]) {
            lemma_line_stops(t, from + 1, to);
        }
    }
}

/// Lexing from two places of one white-space run gives the same tokens.
proof fn lemma_same_start(t: Seq<char>, first: int, second: int)
    requires
        0 <= first <= t.len(),
        0 <= second <= t.len(),
        run_end(t, first, CharClass::Space) == run_end(t, second, CharClass::Space),
    ensures
        lex_from(t, first) == lex_from(t, second),
{
    lemma_run_end(t, first, CharClass::Space);
    lemma_run_end(t, second, CharClass::Space);
}

/// Behind the inserted white space, and from any place in it, the tokens are
/// those of the source from `p` on.
proof fn lemma_behind(s: Seq<char>, p: int, w: Seq<char>, from: int)
    requires
        0 <= p <= s.len(),
        blank(w),
        p <= from <= p + w.len(),
    ensures
        stream_of_outcome(lex_from(inserted(s, p, w), from)) == stream_of_outcome(lex_from(s, p)),
{
    let t = inserted(s, p, w);
    lemma_inserted(s, p, w);
    assert forall|k: int| from <= k < p + w.len() implies CharClass::Space.holds(#[trigger] t[k]) by {
        assert(t[p + (k - p)] == w[k - p]);
    }
    lemma_blank_run(t, from, p + w.len());
    lemma_same_start(t, from, p + w.len());
    lemma_tail_lex(s, p, t, p + w.len());
}

/// Up to the place of the insertion the tokens stay what they are, but for a
/// line comment that ends there, which takes the white space up to the next
/// line end with it.
#[verifier::rlimit(40)]
proof fn lemma_before(s: Seq<char>, p: int, w: Seq<char>, at: int)
    requires
        between_tokens(s, at, p),
        slashes_apart(s, at),
        blank(w),
        w.len() > 0,
        lex_from(s, at) is Ok,
    ensures
        stream_of_outcome(lex_from(inserted(s, p, w), at)) == stream_of_outcome(lex_from(s, at)),
    decreases s.len() - at,
{
    let t = inserted(s, p, w);
    let start = run_end(s, at, CharClass::Space);
    lemma_inserted(s, p, w);
    lemma_run_end(s, at, CharClass::Space);
    lemma_head_run(s, t, p, at, CharClass::Space);
    assert(t[p + 0] == w[0]);
    if p <= start {
        lemma_same_start(t, at, p);
        lemma_same_start(s, at, p);
        lemma_behind(s, p, w, p);
    } else {
        lemma_scan_token(s, start);
        lemma_head_scan(s, t, p, start);
        lemma_scan_token(t, start);
        match scan_token(s, start) {
            Scanned::Token { token, end } => {
                let first = TokenSpanView {
                    token,
                    start: crate::text::offset_of(s, start) as usize,
                    end: crate::text::offset_of(s, end) as usize,
                };
                let rest = lex_from(s, end)->Ok_0;
                lemma_stream_front(first, rest);
                if scan_token(t, start) == scan_token(s, start) {
                    lemma_before(s, p, w, end);
                    let second = TokenSpanView {
                        token,
                        start: crate::text::offset_of(t, start) as usize,
                        end: crate::text::offset_of(t, end) as usize,
                    };
                    let other = lex_from(t, end)->Ok_0;
                    lemma_stream_front(second, other);
                } else {
                    let later = run_end(t, p, CharClass::InLine);
                    let comment = scan_token(t, start)->Token_token;
                    lemma_run_end(s, start + 2, CharClass::InLine);
                    if p < s.len() {
                        assert(s[p] == t[p - p + (p + w.len())]);
                    }
                    lemma_line_stops(t, p, p + w.len());
                    lemma_behind(s, p, w, later);
                    let second = TokenSpanView {
                        token: comment,
                        start: crate::text::offset_of(t, start) as usize,
                        end: crate::text::offset_of(t, later) as usize,
                    };
                    let other = lex_from(t, later)->Ok_0;
                    lemma_stream_front(second, other);
                }
            },
            Scanned::Invalid { .. } => {},
        }
    }
}

/// White space between tokens changes no token. Where `p` lies between the
/// tokens of a source that can be lexed, and no `/` among the tokens stands
/// directly before a `*`, the source with any white space put in at `p` has
/// the same significant tokens.
pub proof fn law_white_space_between_tokens(s: Seq<char>, p: int, w: Seq<char>)
    requires
        between_tokens(s, 0, p),
        slashes_apart(s, 0),
        blank(w),
        lex(s) is Ok,
    ensures
        stream_of_outcome(lex(inserted(s, p, w))) == stream_of_outcome(lex(s)),
{
    if w.len() == 0 {
        assert(inserted(s, p, w) =~= s);
    } else {
        lemma_before(s, p, w, 0);
    }
}

/// From `from` on, `w` is padding: white space and whole comments. A line
/// comment needs its line end in `w`; where `open` says that a line end or
/// the end of the source follows `w`, the last line comment may do without.
pub open spec fn pads(w: Seq<char>, from: int, open: bool) -> bool
    decreases w.len() - from,
{
    let start = run_end(w, from, CharClass::Space);
    if 0 <= from <= start < w.len() {
        if w[start] == '/' && start + 1 < w.len() && w[start + 1] == '/' {
            let end = run_end(w, start + 2, CharClass::InLine);
            if start < end < w.len() {
                pads(w, end, open)
            } else {
                open
            }
        } else if w[start] == '/' && start + 1 < w.len() && w[start + 1] == '*' {
            match block_end(w, start + 2, false) {
                Some(end) => if start < end <= w.len() {
                    pads(w, end, open)
                } else {
                    false
                },
                None => false,
            }
        } else {
            false
        }
    } else {
        0 <= from <= w.len()
    }
}

/// At `p` the source ends a line, or ends.
pub open spec fn line_ends(s: Seq<char>, p: int) -> bool {
    p >= s.len() || (0 <= p && !CharClass::InLine.holds(s[p]))
}

/// The token that ends exactly at `p`, if the lexing of `s` from `at` on
/// has one.
pub open spec fn token_before(s: Seq<char>, at: int, p: int) -> Option<TokenView>
    decreases s.len() - at,
{
    let start = run_end(s, at, CharClass::Space);
    if 0 <= at <= start < p <= s.len() {
        match scan_token(s, start) {
            Scanned::Token { token, end } => {
                if start < end < p {
                    token_before(s, end, p)
                } else if end == p {
                    Some(token)
                } else {
                    None
                }
            },
            Scanned::Invalid { .. } => None,
        }
    } else {
        None
    }
}

/// The padding `w` fits behind the token `before`: behind a `/` it does not
/// begin with a `/`, and behind a line comment, which takes the rest of the
/// line with it, it is padding from the end of its first line on.
pub open spec fn fits_behind(before: Option<TokenView>, w: Seq<char>) -> bool {
    match before {
        Some(token) => {
            &&& token == TokenView::Slash ==> w.len() == 0 || w[0] != '/'
            &&& token is LineComment ==> pads(w, run_end(w, 0, CharClass::InLine), true)
        },
        None => true,
    }
}

/// The text `w` stands in `t` from `p` on.
pub open spec fn stands_in(w: Seq<char>, t: Seq<char>, p: int) -> bool {
    &&& 0 <= p
    &&& p + w.len() <= t.len()
    &&& forall|k: int| 0 <= k < w.len() ==> #[trigger] t[p + k] == w[k]
}

proof fn lemma_window(w: Seq<char>, t: Seq<char>, p: int, k: int)
    requires
        stands_in(w, t, p),
        0 <= k <= w.len(),
    ensures
        agree(w, t.skip(p), w.len() as int),
        same_tail(t.skip(p), k, t, p + k),
{
    let u = t.skip(p);
    assert forall|i: int| 0 <= i < w.len() implies #[trigger] u[i] == w[i] by {
        assert(t[p + i] == w[i]);
    }
    assert forall|i: int| k <= i < u.len() implies #[trigger] u[i] == t[i - k + (p + k)] by {}
}

/// A run in `w` that ends before the end of `w` ends at the same character
/// in `t`.
proof fn lemma_window_run(w: Seq<char>, t: Seq<char>, p: int, k: int, class: CharClass)
    requires
        stands_in(w, t, p),
        0 <= k <= w.len(),
    ensures
        run_end(w, k, class) < w.len() ==> run_end(t, p + k, class) == p + run_end(w, k, class),
        run_end(w, k, class) >= w.len() ==> run_end(t, p + k, class) == run_end(
            t,
            p + w.len(),
            class,
        ),
{
    let u = t.skip(p);
    lemma_window(w, t, p, k);
    lemma_window(w, t, p, w.len() as int);
    lemma_head_run(w, u, w.len() as int, k, class);
    lemma_tail_run(u, k, t, p + k, class);
    lemma_tail_run(u, w.len() as int, t, p + w.len(), class);
}

proof fn lemma_window_block(w: Seq<char>, t: Seq<char>, p: int, k: int)
    requires
        stands_in(w, t, p),
        0 <= k <= w.len(),
        block_end(w, k, false) matches Some(end) && end <= w.len(),
    ensures
        block_end(t, p + k, false) == moved(block_end(w, k, false), p),
{
    let u = t.skip(p);
    lemma_window(w, t, p, k);
    lemma_head_block(w, u, w.len() as int, k, false);
    lemma_tail_block(u, k, t, p + k, false);
}

/// Behind the inserted padding, and from any place in it from which it is
/// padding, the tokens are those of the source from `p` on.
#[verifier::rlimit(40)]
proof fn lemma_behind_padding(s: Seq<char>, p: int, w: Seq<char>, k: int)
    requires
        0 <= p <= s.len(),
        0 <= k <= w.len(),
        pads(w, k, line_ends(s, p)),
    ensures
        stream_of_outcome(lex_from(inserted(s, p, w), p + k)) == stream_of_outcome(
            lex_from(s, p),
        ),
    decreases w.len() - k,
{
    let t = inserted(s, p, w);
    let start = run_end(w, k, CharClass::Space);
    lemma_inserted(s, p, w);
    assert(stands_in(w, t, p));
    lemma_run_end(w, k, CharClass::Space);
    lemma_window_run(w, t, p, k, CharClass::Space);
    if start < w.len() {
        let at = p + start;
        assert(t[p + start] == w[start]);
        assert(t[p + (start + 1)] == w[start + 1]);
        lemma_scan_token(t, at);
        lemma_run_end(t, p + k, CharClass::Space);
        if w[start + 1] == '/' {
            let end = run_end(w, start + 2, CharClass::InLine);
            lemma_run_end(w, start + 2, CharClass::InLine);
            lemma_window_run(w, t, p, start + 2, CharClass::InLine);
            if end < w.len() {
                lemma_behind_padding(s, p, w, end);
            } else {
                if p < s.len() {
                    assert(s[p] == t[p - p + (p + w.len())]);
                }
                lemma_line_stops(t, p + w.len(), p + w.len());
                lemma_tail_lex(s, p, t, p + w.len());
            }
            let comment = scan_token(t, at)->Token_token;
            let first = TokenSpanView {
                token: comment,
                start: crate::text::offset_of(t, at) as usize,
                end: crate::text::offset_of(t, p + end) as usize,
            };
            match lex_from(t, p + end) {
                Ok(rest) => {
                    lemma_stream_front(first, rest);
                },
                Err(_) => {},
            }
        } else {
            let end = block_end(w, start + 2, false).unwrap();
            lemma_window_block(w, t, p, start + 2);
            lemma_behind_padding(s, p, w, end);
            let comment = scan_token(t, at)->Token_token;
            let first = TokenSpanView {
                token: comment,
                start: crate::text::offset_of(t, at) as usize,
                end: crate::text::offset_of(t, p + end) as usize,
            };
            match lex_from(t, p + end) {
                Ok(rest) => {
                    lemma_stream_front(first, rest);
                },
                Err(_) => {},
            }
        }
    } else {
        lemma_same_start(t, p + k, p + w.len());
        lemma_tail_lex(s, p, t, p + w.len());
    }
}

/// Padding begins with white space or a slash.
proof fn lemma_padding_opens(w: Seq<char>, open: bool)
    requires
        pads(w, 0, open),
        w.len() > 0,
    ensures
        opens_padding(w[0]),
{
    lemma_run_end(w, 0, CharClass::Space);
}

/// Up to the place of the insertion the tokens stay what they are, but for a
/// line comment that ends there.
#[verifier::rlimit(40)]
proof fn lemma_before_padding(s: Seq<char>, p: int, w: Seq<char>, at: int)
    requires
        between_tokens(s, at, p),
        slashes_apart(s, at),
        pads(w, 0, line_ends(s, p)),
        fits_behind(token_before(s, at, p), w),
        w.len() > 0,
        lex_from(s, at) is Ok,
    ensures
        stream_of_outcome(lex_from(inserted(s, p, w), at)) == stream_of_outcome(lex_from(s, at)),
    decreases s.len() - at,
{
    let t = inserted(s, p, w);
    let start = run_end(s, at, CharClass::Space);
    lemma_inserted(s, p, w);
    assert(stands_in(w, t, p));
    lemma_padding_opens(w, line_ends(s, p));
    lemma_run_end(s, at, CharClass::Space);
    lemma_head_run(s, t, p, at, CharClass::Space);
    assert(t[p + 0] == w[0]);
    if p <= start {
        lemma_same_start(t, at, p);
        lemma_same_start(s, at, p);
        lemma_behind_padding(s, p, w, 0);
    } else {
        lemma_scan_token(s, start);
        lemma_head_scan(s, t, p, start);
        lemma_scan_token(t, start);
        match scan_token(s, start) {
            Scanned::Token { token, end } => {
                let first = TokenSpanView {
                    token,
                    start: crate::text::offset_of(s, start) as usize,
                    end: crate::text::offset_of(s, end) as usize,
                };
                let rest = lex_from(s, end)->Ok_0;
                lemma_stream_front(first, rest);
                if scan_token(t, start) == scan_token(s, start) {
                    if end == p {
                        lemma_behind_padding(s, p, w, 0);
                        lemma_run_end(s, p, CharClass::Space);
                    } else {
                        lemma_before_padding(s, p, w, end);
                    }
                    let second = TokenSpanView {
                        token,
                        start: crate::text::offset_of(t, start) as usize,
                        end: crate::text::offset_of(t, end) as usize,
                    };
                    let other = lex_from(t, end)->Ok_0;
                    lemma_stream_front(second, other);
                } else {
                    let later = run_end(t, p, CharClass::InLine);
                    let line = run_end(w, 0, CharClass::InLine);
                    let comment = scan_token(t, start)->Token_token;
                    lemma_run_end(s, start + 2, CharClass::InLine);
                    lemma_run_end(w, 0, CharClass::InLine);
                    lemma_window_run(w, t, p, 0, CharClass::InLine);
                    if p < s.len() {
                        assert(s[p] == t[p - p + (p + w.len())]);
                    }
                    lemma_line_stops(t, p + w.len(), p + w.len());
                    lemma_behind_padding(s, p, w, later - p);
                    let second = TokenSpanView {
                        token: comment,
                        start: crate::text::offset_of(t, start) as usize,
                        end: crate::text::offset_of(t, later) as usize,
                    };
                    let other = lex_from(t, later)->Ok_0;
                    lemma_stream_front(second, other);
                }
            },
            Scanned::Invalid { .. } => {},
        }
    }
}

/// Comments between tokens change no token. Where `p` lies between the
/// tokens of a source that can be lexed, and no `/` among the tokens stands
/// directly before a `*`, the source with padding put in at `p` has the same
/// significant tokens, if the padding fits behind the token that ends at
/// `p`. Padding is white space and whole comments, each line comment with
/// its line end; the last may do without where a line end or the end of the
/// source follows.
pub proof fn law_comments_between_tokens(s: Seq<char>, p: int, w: Seq<char>)
    requires
        between_tokens(s, 0, p),
        slashes_apart(s, 0),
        pads(w, 0, line_ends(s, p)),
        fits_behind(token_before(s, 0, p), w),
        lex(s) is Ok,
    ensures
        stream_of_outcome(lex(inserted(s, p, w))) == stream_of_outcome(lex(s)),
{
    if w.len() == 0 {
        assert(inserted(s, p, w) =~= s);
    } else {
        lemma_before_padding(s, p, w, 0);
    }
}

/// From `floor` on, the tokens stand one behind the other: each starts at
/// or behind `floor` and where the one before it ends, and ends behind its
/// start.
pub open spec fn in_order(tokens: Seq<TokenSpanView>, floor: int) -> bool
    decreases tokens.len(),
{
    if tokens.len() == 0 {
        true
    } else {
        floor <= tokens[0].start < tokens[0].end && in_order(
            tokens.drop_first(),
            tokens[0].end as int,
        )
    }
}

proof fn lemma_in_order(s: Seq<char>, at: int)
    requires
        0 <= at <= s.len(),
        byte_len(s) <= usize::MAX,
        lex_from(s, at) is Ok,
    ensures
        in_order(lex_from(s, at)->Ok_0, offset_of(s, at) as int),
    decreases s.len() - at,
{
    let start = run_end(s, at, CharClass::Space);
    lemma_run_end(s, at, CharClass::Space);
    if start < s.len() {
        lemma_scan_token(s, start);
        match scan_token(s, start) {
            Scanned::Token { token, end } => {
                lemma_in_order(s, end);
                lemma_offset_monotonic(s, at, start);
                lemma_offset_monotonic(s, start, end);
                lemma_offset_monotonic(s, end, s.len() as int);
                let first = TokenSpanView {
                    token,
                    start: offset_of(s, start) as usize,
                    end: offset_of(s, end) as usize,
                };
                let rest = lex_from(s, end)->Ok_0;
                assert((seq![first] + rest).drop_first() =~= rest);
            },
            Scanned::Invalid { .. } => {},
        }
    }
}

/// Tokens come in source order. The tokens of a source stand one behind the
/// other: no token is empty, and none starts before the one before it ends.
pub proof fn law_tokens_in_order(s: Seq<char>)
    requires
        byte_len(s) <= usize::MAX,
        lex(s) is Ok,
    ensures
        in_order(lex(s)->Ok_0, 0),
{
    lemma_in_order(s, 0);
    assert(s.take(0) =~= Seq::<char>::empty());
}

/// What has the shape behind its first token has it without that token.
proof fn lemma_divides_rest(first: TokenView, rest: Seq<TokenView>)
    requires
        divides(seq![first] + rest, 0, rest.len() as int + 1),
    ensures
        divides(rest, 0, rest.len() as int),
{
    let all = seq![first] + rest;
    assert forall|i: int| 0 <= i < rest.len() && #[trigger] rest[i] == TokenView::Slash implies i
        + 1 < rest.len() && !star_like(rest[i + 1]) by {
        assert(all[i + 1] == rest[i]);
        assert(all[i + 1 + 1] == rest[i + 1]);
    }
}

/// A token that begins with a star begins a star-like token.
proof fn lemma_star_token(s: Seq<char>, at: int)
    requires
        0 <= at < s.len(),
        s[at] == '*',
    ensures
        scan_token(s, at) matches Scanned::Token { token, end } && star_like(token),
{
}

/// In a source whose significant tokens have the shape of a program, no
/// token `/` stands directly before a `*`.
proof fn lemma_apart(s: Seq<char>, at: int)
    requires
        0 <= at <= s.len(),
        lex_from(s, at) is Ok,
        divides(
            stream_of(lex_from(s, at)->Ok_0),
            0,
            stream_of(lex_from(s, at)->Ok_0).len() as int,
        ),
    ensures
        slashes_apart(s, at),
    decreases s.len() - at,
{
    let start = run_end(s, at, CharClass::Space);
    lemma_run_end(s, at, CharClass::Space);
    if start < s.len() {
        lemma_scan_token(s, start);
        match scan_token(s, start) {
            Scanned::Token { token, end } => {
                let first = TokenSpanView {
                    token,
                    start: offset_of(s, start) as usize,
                    end: offset_of(s, end) as usize,
                };
                let rest = lex_from(s, end)->Ok_0;
                lemma_stream_front(first, rest);
                if !token.is_trivia() {
                    lemma_divides_rest(token, stream_of(rest));
                }
                lemma_apart(s, end);
                if token == TokenView::Slash && end < s.len() && s[end] == '*' {
                    lemma_run_end(s, end, CharClass::Space);
                    lemma_star_token(s, end);
                    lemma_scan_token(s, end);
                    match scan_token(s, end) {
                        Scanned::Token { token: star, end: after } => {
                            let second = TokenSpanView {
                                token: star,
                                start: offset_of(s, end) as usize,
                                end: offset_of(s, after) as usize,
                            };
                            let more = lex_from(s, after)->Ok_0;
                            lemma_stream_front(second, more);
                            let all = stream_of(lex_from(s, at)->Ok_0);
                            assert(all[0] == TokenView::Slash);
                            assert(all[1] == star);
                        },
                        Scanned::Invalid { .. } => {},
                    }
                }
            },
            Scanned::Invalid { .. } => {},
        }
    }
}

/// No `/` before a star in the text of a program. Where the significant
/// tokens of a source have the shape that every program has, no token `/` of
/// the source stands directly before a `*`.
pub proof fn law_slashes_apart(s: Seq<char>)
    requires
        lex(s) is Ok,
        divides(stream_of(lex(s)->Ok_0), 0, stream_of(lex(s)->Ok_0).len() as int),
    ensures
        slashes_apart(s, 0),
{
    lemma_apart(s, 0);
}

} // verus!
