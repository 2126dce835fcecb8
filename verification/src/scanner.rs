//! Placeholders in a text.
//!
//! A placeholder is an opening brace, the next closing brace behind it, and
//! the reference text between the two. Nothing escapes a brace and
//! placeholders do not nest: the first closing brace always ends the
//! placeholder, whatever stands before it. An opening brace with no closing
//! brace behind it ends the scan; it and the rest of the text are plain text.
//!
//! Positions count characters, not bytes.
use crate::text::chars_of;
use vstd::prelude::*;

verus! {

/// The first position at or behind `from` that holds `c`, or the length of
/// the text where there is none.
pub open spec fn find_from(s: Seq<char>, c: char, from: int) -> int
    decreases s.len() - from,
{
    if from >= s.len() {
        s.len() as int
    } else if 0 <= from && s[from] == c {
        from
    } else {
        find_from(s, c, from + 1)
    }
}

/// The first placeholder that opens at or behind `from`, as the positions of
/// its two braces.
pub open spec fn next_placeholder(s: Seq<char>, from: int) -> Option<(int, int)> {
    let open = find_from(s, '{', from);
    let close = find_from(s, '}', open + 1);
    if open < s.len() && close < s.len() {
        Some((open, close))
    } else {
        None
    }
}

/// The placeholders of a text from `from` on, left to right. None overlaps
/// another: each opens behind the closing brace of the one before.
pub open spec fn placeholders(s: Seq<char>, from: int) -> Seq<(int, int)>
    decreases s.len() - from,
{
    match next_placeholder(s, from) {
        None => Seq::empty(),
        Some((open, close)) => {
            if from <= open < close {
                seq![(open, close)] + placeholders(s, close + 1)
            } else {
                Seq::empty()
            }
        },
    }
}

/// The reference texts of the placeholders from `from` on, left to right.
pub open spec fn references(s: Seq<char>, from: int) -> Seq<Seq<char>>
    decreases s.len() - from,
{
    match next_placeholder(s, from) {
        None => Seq::empty(),
        Some((open, close)) => {
            if from <= open < close {
                seq![s.subrange(open + 1, close)] + references(s, close + 1)
            } else {
                Seq::empty()
            }
        },
    }
}

/// The text from `from` on with each placeholder taken in turn: where `rule`
/// gives a text for its reference, that text stands in place of the whole
/// placeholder, braces included; where it gives none, the placeholder stays
/// as it is. What stands between placeholders, and behind the last, stays.
/// A text that was put in is not scanned again.
pub open spec fn rewrite(
    s: Seq<char>,
    from: int,
    rule: spec_fn(Seq<char>) -> Option<Seq<char>>,
) -> Seq<char>
    decreases s.len() - from,
{
    match next_placeholder(s, from) {
        None => s.subrange(from, s.len() as int),
        Some((open, close)) => {
            if from <= open < close {
                let piece = match rule(s.subrange(open + 1, close)) {
                    Some(t) => t,
                    None => s.subrange(open, close + 1),
                };
                s.subrange(from, open) + piece + rewrite(s, close + 1, rule)
            } else {
                s.subrange(from, s.len() as int)
            }
        },
    }
}

/// A text without a placeholder.
pub open spec fn is_plain(s: Seq<char>) -> bool {
    next_placeholder(s, 0) is None
}

/// A search from inside the text ends at the first match: between the start
/// and the result nothing matches, and the result matches unless it is the
/// length of the text.
pub proof fn lemma_find_from(s: Seq<char>, c: char, from: int)
    requires
        0 <= from <= s.len(),
    ensures
        from <= find_from(s, c, from) <= s.len(),
        find_from(s, c, from) < s.len() ==> s[find_from(s, c, from)] == c,
        forall|i: int| from <= i < find_from(s, c, from) ==> s[i] != c,
    decreases s.len() - from,
{
    if from < s.len() && s[from] != c {
        lemma_find_from(s, c, from + 1);
    }
}

/// A placeholder found from inside the text lies behind the start of the
/// search, its closing brace behind its opening brace.
pub proof fn lemma_next_placeholder(s: Seq<char>, from: int)
    requires
        0 <= from <= s.len(),
    ensures
        match next_placeholder(s, from) {
            Some((open, close)) => from <= open < close < s.len() && s[open] == '{' && s[close]
                == '}',
            None => true,
        },
{
    lemma_find_from(s, '{', from);
    let open = find_from(s, '{', from);
    if open < s.len() {
        lemma_find_from(s, '}', open + 1);
    }
}

/// With no placeholder at or behind `from`, rewriting changes nothing.
pub proof fn lemma_rewrite_plain(
    s: Seq<char>,
    from: int,
    rule: spec_fn(Seq<char>) -> Option<Seq<char>>,
)
    requires
        next_placeholder(s, from) is None,
    ensures
        rewrite(s, from, rule) == s.subrange(from, s.len() as int),
        references(s, from) == Seq::<Seq<char>>::empty(),
        placeholders(s, from) == Seq::<(int, int)>::empty(),
{
}

/// The positions of the two braces of a placeholder.
#[derive(Debug, Clone, Copy, PartialEq, Eq)]
pub struct Span {
    /// Where the opening brace stands.
    pub open: usize,
    /// Where the closing brace stands.
    pub close: usize,
}

impl View for Span {
    type V = (int, int);

    open spec fn view(&self) -> (int, int) {
        (self.open as int, self.close as int)
    }
}

/// The spans of a list, each as a pair of positions.
pub open spec fn span_pairs(spans: Seq<Span>) -> Seq<(int, int)> {
    Seq::new(spans.len(), |i: int| spans[i]@)
}

/// The first position at or behind `from` that holds `c`, or the length of
/// the text.
pub fn find_char(text: &Vec<char>, c: char, from: usize) -> (at: usize)
    ensures
        at == find_from(text@, c, from as int),
        from <= text.len() ==> from <= at <= text.len(),
{
    if from >= text.len() {
        return text.len();
    }
    let mut i: usize = from;
    while i < text.len() && text[i] != c
        invariant
            from <= i <= text.len(),
            find_from(text@, c, from as int) == find_from(text@, c, i as int),
        decreases text.len() - i,
    {
        i += 1;
    }
    i
}

/// The first placeholder that opens at or behind `from`.
pub fn next_span(text: &Vec<char>, from: usize) -> (out: Option<Span>)
    ensures
        match out {
            Some(span) => next_placeholder(text@, from as int) == Some(span@) && from <= span.open
                < span.close < text.len(),
            None => next_placeholder(text@, from as int) is None,
        },
{
    if from > text.len() {
        return None;
    }
    let open = find_char(text, '{', from);
    if open >= text.len() {
        return None;
    }
    let close = find_char(text, '}', open + 1);
    if close >= text.len() {
        return None;
    }
    proof {
        lemma_next_placeholder(text@, from as int);
    }
    Some(Span { open, close })
}

/// Appends the characters of `text` from `from` up to `to`.
pub(crate) fn push_range(out: &mut Vec<char>, text: &Vec<char>, from: usize, to: usize)
    requires
        from <= to <= text.len(),
    ensures
        final(out)@ == old(out)@ + text@.subrange(from as int, to as int),
{
    let mut i: usize = from;
    assert(text@.subrange(from as int, from as int) =~= Seq::<char>::empty());
    while i < to
        invariant
            from <= i <= to <= text.len(),
            out@ == old(out)@ + text@.subrange(from as int, i as int),
        decreases to - i,
    {
        out.push(text[i]);
        assert(text@.subrange(from as int, i + 1) =~= text@.subrange(from as int, i as int).push(
            text@[i as int],
        ));
        i += 1;
    }
}

/// The characters of `text` from `from` up to `to`.
pub(crate) fn copy_range(text: &Vec<char>, from: usize, to: usize) -> (out: Vec<char>)
    requires
        from <= to <= text.len(),
    ensures
        out@ == text@.subrange(from as int, to as int),
{
    let mut out: Vec<char> = Vec::new();
    push_range(&mut out, text, from, to);
    out
}

/// The placeholders of a text, left to right.
pub fn scan_placeholders(text: &str) -> (out: Vec<Span>)
    ensures
        span_pairs(out@) == placeholders(text@, 0),
{
    let chars = chars_of(text);
    let mut out: Vec<Span> = Vec::new();
    let mut at: usize = 0;
    loop
        invariant_except_break
            at <= chars.len(),
            span_pairs(out@) + placeholders(chars@, at as int) == placeholders(chars@, 0),
        ensures
            span_pairs(out@) == placeholders(chars@, 0),
        decreases chars.len() - at,
    {
        match next_span(&chars, at) {
            None => {
                assert(span_pairs(out@) + Seq::<(int, int)>::empty() =~= span_pairs(out@));
                break ;
            },
            Some(span) => {
                let ghost before = span_pairs(out@);
                out.push(span);
                proof {
                    assert(span_pairs(out@) =~= before + seq![span@]);
                    assert(before + (seq![span@] + placeholders(chars@, span.close + 1)) =~= (before
                        + seq![span@]) + placeholders(chars@, span.close + 1));
                }
                at = span.close + 1;
            },
        }
    }
    out
}

/// Something that gives, for the reference text of a placeholder, the text to
/// put in its place, or nothing where the placeholder is to stay.
pub trait Rule {
    /// What the rule gives for each reference text.
    spec fn rule(&self) -> spec_fn(Seq<char>) -> Option<Seq<char>>;

    /// The text to put in place of the placeholder with the given reference.
    fn replace(&self, reference: &Vec<char>) -> (out: Option<Vec<char>>)
        ensures
            match out {
                Some(t) => (self.rule())(reference@) == Some(t@),
                None => (self.rule())(reference@) is None,
            },
    ;
}

/// The text with each placeholder rewritten as the rule says.
pub fn rewrite_text<R: Rule>(text: &Vec<char>, rule: &R) -> (out: Vec<char>)
    ensures
        out@ == rewrite(text@, 0, rule.rule()),
{
    let mut out: Vec<char> = Vec::new();
    let mut at: usize = 0;
    loop
        invariant_except_break
            at <= text.len(),
            out@ + rewrite(text@, at as int, rule.rule()) == rewrite(text@, 0, rule.rule()),
        ensures
            out@ == rewrite(text@, 0, rule.rule()),
        decreases text.len() - at,
    {
        match next_span(text, at) {
            None => {
                let ghost before = out@;
                push_range(&mut out, text, at, text.len());
                break ;
            },
            Some(span) => {
                let ghost before = out@;
                let ghost rest = rewrite(text@, span.close + 1, rule.rule());
                push_range(&mut out, text, at, span.open);
                let reference = copy_range(text, span.open + 1, span.close);
                match rule.replace(&reference) {
                    Some(piece) => {
                        let mut piece = piece;
                        proof {
                            assert((before + text@.subrange(at as int, span.open as int))
                                + piece@ + rest =~= before + (text@.subrange(
                                at as int,
                                span.open as int,
                            ) + piece@ + rest));
                        }
                        out.append(&mut piece);
                    },
                    None => {
                        push_range(&mut out, text, span.open, span.close + 1);
                        proof {
                            let piece = text@.subrange(span.open as int, span.close + 1);
                            assert((before + text@.subrange(at as int, span.open as int)) + piece
                                + rest =~= before + (text@.subrange(at as int, span.open as int)
                                + piece + rest));
                        }
                    },
                }
                at = span.close + 1;
            },
        }
    }
    out
}

} // verus!
