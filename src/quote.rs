//! Neutralization of quoted spans: the contents of ordinary string literals
//! are erased before a line is searched for comment markers.
use vstd::prelude::*;

use crate::text::{find_from, lemma_char_occurs, lemma_find_from, occurs_at, single_line};

verus! {

/// `regex::Regex`, held opaque: a compiled pattern.
#[verifier::external_type_specification]
#[verifier::external_body]
pub struct ExRegex(regex::Regex);

/// `regex::Error`, held opaque: why a pattern did not compile.
#[verifier::external_type_specification]
#[verifier::external_body]
pub struct ExRegexError(regex::Error);

/// A quote pattern could not be compiled.
#[derive(Debug, Clone, Copy, PartialEq, Eq, Structural)]
pub struct PatternError;

/// `s` with each quoted span erased, delimiters included. Spans are taken
/// from left to right: one runs from the first `open` to the first `close`
/// after it, and the search goes on after that `close`. (The range test always holds of what
/// `find_from` returns; it only makes the recursion visibly shrink.)
pub open spec fn blank_spans(s: Seq<char>, open: Seq<char>, close: Seq<char>) -> Seq<char>
    decreases s.len(),
{
    if open.len() == 0 || close.len() == 0 {
        s
    } else {
        match find_from(s, open, 0) {
            None => s,
            Some(i) => match find_from(s, close, i + open.len()) {
                None => s,
                Some(j) => if 0 <= i && 0 <= j && j + close.len() <= s.len() {
                    s.take(i) + blank_spans(
                        s.skip(j + close.len()),
                        open,
                        close,
                    )
                } else {
                    s
                },
            },
        }
    }
}

/// `s` neutralized by each quote pair of `qs`, in order.
pub open spec fn neutralize_all(qs: Seq<(Seq<char>, Seq<char>)>, s: Seq<char>) -> Seq<char>
    decreases qs.len(),
{
    if qs.len() == 0 {
        s
    } else {
        blank_spans(neutralize_all(qs.drop_last(), s), qs.last().0, qs.last().1)
    }
}

/// One compiled quote pair. Only `compile_quote` makes one, so `re` is always
/// the pattern built from `open` and `close`.
pub struct QuotePattern {
    open: String,
    close: String,
    re: regex::Regex,
}

impl QuotePattern {
    pub closed spec fn open(&self) -> Seq<char> {
        self.open@
    }

    pub closed spec fn close(&self) -> Seq<char> {
        self.close@
    }
}

/// Relies on `regex::escape` and `regex::Regex::new`: the pattern built here
/// matches `open` literally, then the shortest run of characters other than
/// `\n`, then `close` literally. An escaped string is a valid literal, so
/// `new` fails only past its size limit (10 MiB by default), which delimiters
/// this short stay far below.
#[verifier::external_body]
fn compile_quote(open: &str, close: &str) -> (r: Result<QuotePattern, regex::Error>)
    ensures
        r matches Ok(q) ==> q.open() == open@ && q.close() == close@,
        open@.len() <= 64 && close@.len() <= 64 ==> r is Ok,
{
    let pattern = format!("{}(.*?){}", regex::escape(open), regex::escape(close));
    match regex::Regex::new(&pattern) {
        Ok(re) => Ok(QuotePattern { open: open.to_string(), close: close.to_string(), re }),
        Err(e) => Err(e),
    }
}

/// Relies on `regex::Regex::replace_all`: the leftmost-first matches of the
/// pattern that `compile_quote` built, taken from left to right without
/// overlap, are each replaced by the empty string. On a single line, where
/// `.` may take every character, these are the spans of `blank_spans`.
#[verifier::external_body]
fn replace_quoted(q: &QuotePattern, line: &str) -> (r: String)
    requires
        q.open().len() > 0,
        q.close().len() > 0,
        single_line(line@),
    ensures
        r@ == blank_spans(line@, q.open(), q.close()),
{
    q.re.replace_all(line, "").into_owned()
}

pub open spec fn pairs_view(ps: Seq<(&str, &str)>) -> Seq<(Seq<char>, Seq<char>)> {
    ps.map_values(|p: (&str, &str)| (p.0@, p.1@))
}

/// Delimiter pairs of at most 64 characters each.
pub open spec fn short_pairs(qs: Seq<(Seq<char>, Seq<char>)>) -> bool {
    forall|k: int| 0 <= k < qs.len() ==> qs[k].0.len() <= 64 && qs[k].1.len() <= 64
}

/// Delimiter pairs with no empty delimiter.
pub open spec fn nonempty_pairs(qs: Seq<(Seq<char>, Seq<char>)>) -> bool {
    forall|k: int| 0 <= k < qs.len() ==> qs[k].0.len() > 0 && qs[k].1.len() > 0
}

/// The compiled quote pairs of one language, applied in their declared order.
pub struct QuoteMatcher {
    patterns: Vec<QuotePattern>,
}

impl QuoteMatcher {
    /// The delimiter pairs, in order.
    pub closed spec fn quotes(&self) -> Seq<(Seq<char>, Seq<char>)> {
        self.patterns@.map_values(|q: QuotePattern| (q.open(), q.close()))
    }

    /// Compiles one pattern for each pair, in order.
    pub fn new(pairs: &[(&str, &str)]) -> (r: Result<QuoteMatcher, PatternError>)
        requires
            nonempty_pairs(pairs_view(pairs@)),
        ensures
            r matches Ok(m) ==> m.quotes() == pairs_view(pairs@),
            short_pairs(pairs_view(pairs@)) ==> r is Ok,
    {
        let mut patterns: Vec<QuotePattern> = Vec::new();
        let mut i: usize = 0;
        while i < pairs.len()
            invariant
                i <= pairs@.len(),
                patterns@.len() == i,
                forall|k: int|
                    0 <= k < i ==> patterns@[k].open() == pairs@[k].0@ && patterns@[k].close()
                        == pairs@[k].1@,
            decreases pairs@.len() - i,
        {
            let (open, close) = pairs[i];
            assert(pairs_view(pairs@)[i as int] == (open@, close@));
            match compile_quote(open, close) {
                Ok(q) => patterns.push(q),
                Err(_) => return Err(PatternError),
            }
            i = i + 1;
        }
        let m = QuoteMatcher { patterns };
        assert(m.quotes() =~= pairs_view(pairs@));
        Ok(m)
    }

    /// `line` with the quoted spans of every pair erased, pair by pair.
    pub fn neutralize(&self, line: &str) -> (r: String)
        requires
            nonempty_pairs(self.quotes()),
            single_line(line@),
        ensures
            r@ == neutralize_all(self.quotes(), line@),
    {
        let mut cur = line.to_string();
        let mut i: usize = 0;
        while i < self.patterns.len()
            invariant
                i <= self.quotes().len(),
                nonempty_pairs(self.quotes()),
                self.quotes().len() == self.patterns@.len(),
                cur@ == neutralize_all(self.quotes().take(i as int), line@),
                single_line(cur@),
            decreases self.patterns@.len() - i,
        {
            let q = &self.patterns[i];
            assert(self.quotes()[i as int] == (q.open(), q.close()));
            let next = replace_quoted(q, cur.as_str());
            proof {
                lemma_blank_spans_single_line(cur@, q.open(), q.close());
                let qs = self.quotes().take(i + 1);
                assert(qs.drop_last() =~= self.quotes().take(i as int));
            }
            cur = next;
            i = i + 1;
        }
        assert(self.quotes().take(i as int) =~= self.quotes());
        cur
    }
}

/// Erasing quoted spans never brings in a line break.
proof fn lemma_blank_spans_single_line(s: Seq<char>, open: Seq<char>, close: Seq<char>)
    requires
        single_line(s),
    ensures
        single_line(blank_spans(s, open, close)),
    decreases s.len(),
{
    if open.len() > 0 && close.len() > 0 {
        if let Some(i) = find_from(s, open, 0) {
            if let Some(j) = find_from(s, close, i + open.len()) {
                if 0 <= i && 0 <= j && j + close.len() <= s.len() {
                    let rest = s.skip(j + close.len());
                    lemma_blank_spans_single_line(rest, open, close);
                    let out = s.take(i) + blank_spans(rest, open, close);
                    assert forall|x: int| 0 <= x < out.len() implies out[x] != '\n' by {
                        if x < i {
                            assert(out[x] == s[x]);
                        } else {
                            assert(out[x] == blank_spans(rest, open, close)[x - i]);
                        }
                    }
                }
            }
        }
    }
}

/// No `o` in `x` has a `c` after it: no span of the pair `(o, c)` is left.
pub open spec fn no_span(x: Seq<char>, o: char, c: char) -> bool {
    forall|i: int, j: int| 0 <= i < j < x.len() && x[i] == o ==> x[j] != c
}

/// Quote pairs whose delimiters are single characters.
pub open spec fn single_char_pairs(qs: Seq<(Seq<char>, Seq<char>)>) -> bool {
    forall|k: int| 0 <= k < qs.len() ==> qs[k].0.len() == 1 && qs[k].1.len() == 1
}

/// Where no span is left, erasing changes nothing.
proof fn lemma_no_span_fixed(x: Seq<char>, o: char, c: char)
    requires
        no_span(x, o, c),
    ensures
        blank_spans(x, seq![o], seq![c]) == x,
{
    lemma_find_from(x, seq![o], 0);
    if let Some(i) = find_from(x, seq![o], 0) {
        lemma_char_occurs(x, o, i);
        lemma_find_from(x, seq![c], i + 1);
        if let Some(j) = find_from(x, seq![c], i + 1) {
            lemma_char_occurs(x, c, j);
            assert(false);
        }
    }
}

/// Where the character at `q` of the erased text comes from in the text.
proof fn lemma_blank_char_source(y: Seq<char>, o: char, c: char, q: int) -> (q2: int)
    requires
        0 <= q < blank_spans(y, seq![o], seq![c]).len(),
    ensures
        0 <= q2 < y.len(),
        y[q2] == blank_spans(y, seq![o], seq![c])[q],
    decreases y.len(),
{
    let out = blank_spans(y, seq![o], seq![c]);
    lemma_find_from(y, seq![o], 0);
    if let Some(i) = find_from(y, seq![o], 0) {
        lemma_find_from(y, seq![c], i + 1);
        if let Some(j) = find_from(y, seq![c], i + 1) {
            let rest = y.skip(j + 1);
            let r = blank_spans(rest, seq![o], seq![c]);
            assert(out == y.take(i) + r);
            if q < i {
                assert(y[q] == out[q]);
                q
            } else {
                assert(out[q] == r[q - i]);
                let q3 = lemma_blank_char_source(rest, o, c, q - i);
                assert(y[j + 1 + q3] == out[q]);
                j + 1 + q3
            }
        } else {
            q
        }
    } else {
        q
    }
}

/// After erasing the spans of `(o, c)`, none is left.
proof fn lemma_blank_no_span(x: Seq<char>, o: char, c: char)
    ensures
        no_span(blank_spans(x, seq![o], seq![c]), o, c),
    decreases x.len(),
{
    lemma_find_from(x, seq![o], 0);
    match find_from(x, seq![o], 0) {
        None => {
            assert forall|a: int, b: int| 0 <= a < b < x.len() && x[a] == o implies x[b] != c by {
                lemma_char_occurs(x, o, a);
            }
        },
        Some(i) => {
            lemma_char_occurs(x, o, i);
            lemma_find_from(x, seq![c], i + 1);
            match find_from(x, seq![c], i + 1) {
                None => {
                    assert forall|a: int, b: int|
                        0 <= a < b < x.len() && x[a] == o implies x[b] != c by {
                        lemma_char_occurs(x, o, a);
                        lemma_char_occurs(x, c, b);
                    }
                },
                Some(j) => {
                    lemma_char_occurs(x, c, j);
                    let rest = x.skip(j + 1);
                    lemma_blank_no_span(rest, o, c);
                    let r = blank_spans(rest, seq![o], seq![c]);
                    let out = x.take(i) + r;
                    assert(blank_spans(x, seq![o], seq![c]) == out);
                    assert forall|a: int, b: int|
                        0 <= a < b < out.len() && out[a] == o implies out[b] != c by {
                        if a < i {
                            lemma_char_occurs(x, o, a);
                            assert(out[a] == x[a]);
                        } else {
                            assert(out[a] == r[a - i]);
                            assert(out[b] == r[b - i]);
                        }
                    }
                },
            }
        },
    }
}

/// Erasing the spans of `(o, c)` brings back no span of another pair `(a, b)`.
proof fn lemma_blank_keeps_no_span(x: Seq<char>, o: char, c: char, a: char, b: char)
    requires
        no_span(x, a, b),
    ensures
        no_span(blank_spans(x, seq![o], seq![c]), a, b),
    decreases x.len(),
{
    lemma_find_from(x, seq![o], 0);
    if let Some(i) = find_from(x, seq![o], 0) {
        lemma_find_from(x, seq![c], i + 1);
        if let Some(j) = find_from(x, seq![c], i + 1) {
            let rest = x.skip(j + 1);
            assert forall|p: int, q: int|
                0 <= p < q < rest.len() && rest[p] == a implies rest[q] != b by {
                assert(rest[p] == x[p + j + 1]);
                assert(rest[q] == x[q + j + 1]);
            }
            lemma_blank_keeps_no_span(rest, o, c, a, b);
            let r = blank_spans(rest, seq![o], seq![c]);
            let out = x.take(i) + r;
            assert(blank_spans(x, seq![o], seq![c]) == out);
            assert forall|p: int, q: int|
                0 <= p < q < out.len() && out[p] == a implies out[q] != b by {
                if p < i {
                    assert(out[p] == x[p]);
                    if q < i {
                        assert(out[q] == x[q]);
                    } else {
                        assert(out[q] == r[q - i]);
                        let q3 = lemma_blank_char_source(rest, o, c, q - i);
                        assert(x[j + 1 + q3] == out[q]);
                    }
                } else {
                    assert(out[p] == r[p - i]);
                    assert(out[q] == r[q - i]);
                }
            }
        }
    }
}

/// After neutralizing, no span of any pair is left.
proof fn lemma_neutralized_no_span(qs: Seq<(Seq<char>, Seq<char>)>, s: Seq<char>)
    requires
        single_char_pairs(qs),
    ensures
        forall|k: int|
            0 <= k < qs.len() ==> no_span(neutralize_all(qs, s), qs[k].0[0], qs[k].1[0]),
    decreases qs.len(),
{
    if qs.len() > 0 {
        let d = qs.drop_last();
        lemma_neutralized_no_span(d, s);
        let n = neutralize_all(d, s);
        let l = qs.last();
        let o = l.0[0];
        let c = l.1[0];
        assert(l.0 =~= seq![o]);
        assert(l.1 =~= seq![c]);
        lemma_blank_no_span(n, o, c);
        assert forall|k: int| 0 <= k < qs.len() implies no_span(
            neutralize_all(qs, s),
            qs[k].0[0],
            qs[k].1[0],
        ) by {
            if k < qs.len() - 1 {
                assert(qs[k] == d[k]);
                lemma_blank_keeps_no_span(n, o, c, qs[k].0[0], qs[k].1[0]);
            }
        }
    }
}

/// Where no span of any pair is left, neutralizing changes nothing.
proof fn lemma_neutralize_fixed(qs: Seq<(Seq<char>, Seq<char>)>, x: Seq<char>)
    requires
        single_char_pairs(qs),
        forall|k: int| 0 <= k < qs.len() ==> no_span(x, qs[k].0[0], qs[k].1[0]),
    ensures
        neutralize_all(qs, x) == x,
    decreases qs.len(),
{
    if qs.len() > 0 {
        let d = qs.drop_last();
        assert forall|k: int| 0 <= k < d.len() implies no_span(x, d[k].0[0], d[k].1[0]) by {
            assert(d[k] == qs[k]);
        }
        lemma_neutralize_fixed(d, x);
        let l = qs.last();
        let o = l.0[0];
        let c = l.1[0];
        assert(l.0 =~= seq![o]);
        assert(l.1 =~= seq![c]);
        lemma_no_span_fixed(x, o, c);
    }
}

/// Neutralizing an already neutralized line changes nothing, for any quote
/// pairs whose delimiters are single characters.
pub proof fn lemma_neutralize_idempotent(qs: Seq<(Seq<char>, Seq<char>)>, s: Seq<char>)
    requires
        single_char_pairs(qs),
    ensures
        neutralize_all(qs, neutralize_all(qs, s)) == neutralize_all(qs, s),
{
    lemma_neutralized_no_span(qs, s);
    lemma_neutralize_fixed(qs, neutralize_all(qs, s));
}

} // verus!
