//! Per-file tallies of blank, comment and code lines, and their merge.
use vstd::prelude::*;

use crate::language_type::{step, LanguageType, Syntax};
use crate::quote::{PatternError, QuoteMatcher};
use crate::state::{CodeState, LineType};
use crate::text::{
    chars_of, copy_range, find_at, find_from, lemma_char_occurs, lemma_find_from, lemma_trim_single_line,
    occurs_at, single_line,
};

verus! {

/// Counts of files and of lines by kind.
#[derive(Debug, Clone, Copy, PartialEq, Eq, Structural)]
pub struct Counter {
    pub files: usize,
    pub comments: usize,
    pub blanks: usize,
    pub code: usize,
}

/// `a` and `b` can be summed field by field without overflow.
pub open spec fn can_merge(a: Counter, b: Counter) -> bool {
    &&& a.files + b.files <= usize::MAX
    &&& a.comments + b.comments <= usize::MAX
    &&& a.blanks + b.blanks <= usize::MAX
    &&& a.code + b.code <= usize::MAX
}

/// The field-by-field sum of `a` and `b`.
pub open spec fn merged(a: Counter, b: Counter) -> Counter {
    Counter {
        files: (a.files + b.files) as usize,
        comments: (a.comments + b.comments) as usize,
        blanks: (a.blanks + b.blanks) as usize,
        code: (a.code + b.code) as usize,
    }
}

/// `c` with one more line of kind `t`.
pub open spec fn counted(c: Counter, t: LineType) -> Counter {
    match t {
        LineType::Blank => Counter { blanks: (c.blanks + 1) as usize, ..c },
        LineType::Comment => Counter { comments: (c.comments + 1) as usize, ..c },
        LineType::Code => Counter { code: (c.code + 1) as usize, ..c },
    }
}

/// The count of `t` can grow by one.
pub open spec fn has_room(c: Counter, t: LineType) -> bool {
    match t {
        LineType::Blank => c.blanks < usize::MAX,
        LineType::Comment => c.comments < usize::MAX,
        LineType::Code => c.code < usize::MAX,
    }
}

impl Counter {
    /// The tally of one file with no lines counted yet.
    pub fn new() -> (r: Counter)
        ensures
            r == (Counter { files: 1, comments: 0, blanks: 0, code: 0 }),
    {
        Counter { files: 1, comments: 0, blanks: 0, code: 0 }
    }

    /// The empty tally: no files, no lines.
    pub fn none() -> (r: Counter)
        ensures
            r == (Counter { files: 0, comments: 0, blanks: 0, code: 0 }),
    {
        Counter { files: 0, comments: 0, blanks: 0, code: 0 }
    }

    pub open spec fn spec_lines(self) -> int {
        self.comments + self.blanks + self.code
    }

    /// All lines counted, of every kind.
    pub fn lines(&self) -> (r: usize)
        requires
            self.spec_lines() <= usize::MAX,
        ensures
            r == self.spec_lines(),
    {
        self.comments + self.blanks + self.code
    }

    /// Counts one more line of kind `state`.
    pub fn add(&mut self, state: &LineType)
        requires
            has_room(*old(self), *state),
        ensures
            *final(self) == counted(*old(self), *state),
    {
        match *state {
            LineType::Blank => self.blanks = self.blanks + 1,
            LineType::Comment => self.comments = self.comments + 1,
            LineType::Code => self.code = self.code + 1,
        }
    }
}

impl vstd::std_specs::ops::AddSpecImpl for Counter {
    open spec fn obeys_add_spec() -> bool {
        true
    }

    open spec fn add_req(self, rhs: Counter) -> bool {
        can_merge(self, rhs)
    }

    open spec fn add_spec(self, rhs: Counter) -> Counter {
        merged(self, rhs)
    }
}

impl core::ops::Add for Counter {
    type Output = Counter;

    /// The field-by-field sum of two tallies.
    fn add(self, rhs: Counter) -> (r: Counter) {
        Counter {
            files: self.files + rhs.files,
            comments: self.comments + rhs.comments,
            blanks: self.blanks + rhs.blanks,
            code: self.code + rhs.code,
        }
    }
}

/// `a + b == b + a`: merging does not depend on the order of the operands.
pub proof fn lemma_add_commutative(a: Counter, b: Counter)
    ensures
        can_merge(a, b) == can_merge(b, a),
        merged(a, b) == merged(b, a),
{
}

/// `(a + b) + c == a + (b + c)`: merging does not depend on the grouping of
/// the operands.
pub proof fn lemma_add_associative(a: Counter, b: Counter, c: Counter)
    requires
        can_merge(a, b),
        can_merge(merged(a, b), c),
    ensures
        can_merge(b, c),
        can_merge(a, merged(b, c)),
        merged(merged(a, b), c) == merged(a, merged(b, c)),
{
}

/// `l` without one carriage return at its end.
pub open spec fn strip_cr(l: Seq<char>) -> Seq<char> {
    if l.len() > 0 && l.last() == '\r' {
        l.drop_last()
    } else {
        l
    }
}

/// The lines of `s` from index `pos` on: pieces ended by `\n` (a `\r` before
/// it is dropped too), and a last piece without `\n` if it is not empty.
pub open spec fn lines_from(s: Seq<char>, pos: int) -> Seq<Seq<char>>
    decreases s.len() - pos,
{
    if pos < 0 || pos >= s.len() {
        seq![]
    } else {
        match find_from(s, seq!['\n'], pos) {
            None => seq![s.subrange(pos, s.len() as int)],
            Some(i) => if pos <= i < s.len() {
                seq![strip_cr(s.subrange(pos, i))] + lines_from(s, i + 1)
            } else {
                seq![]
            },
        }
    }
}

/// The physical lines of a text.
pub open spec fn lines_of(s: Seq<char>) -> Seq<Seq<char>> {
    lines_from(s, 0)
}

/// The kinds of `lines`, classified in order from `state`.
pub open spec fn kinds(syn: Syntax, state: CodeState, lines: Seq<Seq<char>>) -> Seq<LineType>
    decreases lines.len(),
{
    if lines.len() == 0 {
        seq![]
    } else {
        let (next, t) = step(syn, state, lines[0]);
        seq![t] + kinds(syn, next, lines.drop_first())
    }
}

/// How many entries of `ts` are `t`.
pub open spec fn count_kind(ts: Seq<LineType>, t: LineType) -> nat
    decreases ts.len(),
{
    if ts.len() == 0 {
        0
    } else {
        count_kind(ts.drop_last(), t) + if ts.last() == t {
            1nat
        } else {
            0nat
        }
    }
}

/// How many lines of `text` are of kind `t`.
pub open spec fn kind_count(syn: Syntax, text: Seq<char>, t: LineType) -> nat {
    count_kind(kinds(syn, CodeState::Other, lines_of(text)), t)
}

/// The tally of one file whose text is `text`.
pub open spec fn tallied(c: Counter, syn: Syntax, text: Seq<char>) -> bool {
    &&& c.files == 1
    &&& c.blanks == kind_count(syn, text, LineType::Blank)
    &&& c.comments == kind_count(syn, text, LineType::Comment)
    &&& c.code == kind_count(syn, text, LineType::Code)
}

proof fn lemma_kinds_len(syn: Syntax, state: CodeState, lines: Seq<Seq<char>>)
    ensures
        kinds(syn, state, lines).len() == lines.len(),
    decreases lines.len(),
{
    if lines.len() > 0 {
        let (next, t) = step(syn, state, lines[0]);
        lemma_kinds_len(syn, next, lines.drop_first());
    }
}

proof fn lemma_count_kind_bound(ts: Seq<LineType>, t: LineType)
    ensures
        count_kind(ts, t) <= ts.len(),
    decreases ts.len(),
{
    if ts.len() > 0 {
        lemma_count_kind_bound(ts.drop_last(), t);
    }
}

proof fn lemma_count_kinds_total(ts: Seq<LineType>)
    ensures
        count_kind(ts, LineType::Blank) + count_kind(ts, LineType::Comment) + count_kind(
            ts,
            LineType::Code,
        ) == ts.len(),
    decreases ts.len(),
{
    if ts.len() > 0 {
        lemma_count_kinds_total(ts.drop_last());
    }
}

/// Every line of a text is counted exactly once: blank, comment and code
/// lines add up to the number of lines.
pub proof fn lemma_total_conservation(syn: Syntax, text: Seq<char>)
    ensures
        kind_count(syn, text, LineType::Blank) + kind_count(syn, text, LineType::Comment)
            + kind_count(syn, text, LineType::Code) == lines_of(text).len(),
{
    lemma_kinds_len(syn, CodeState::Other, lines_of(text));
    lemma_count_kinds_total(kinds(syn, CodeState::Other, lines_of(text)));
}

/// A piece of `s` with no `\n` starting in it holds no line break.
proof fn lemma_piece_single_line(s: Seq<char>, pos: int, end: int)
    requires
        0 <= pos <= end <= s.len(),
        forall|j: int| pos <= j < end ==> !occurs_at(s, seq!['\n'], j),
    ensures
        single_line(s.subrange(pos, end)),
{
    let l = s.subrange(pos, end);
    assert forall|x: int| 0 <= x < l.len() implies l[x] != '\n' by {
        lemma_char_occurs(s, '\n', x + pos);
    }
}

impl LanguageType {
    /// Tallies the lines of one file whose text is `text`.
    #[verifier::rlimit(40)]
    pub fn count_text(&self, text: &str, quotes: &QuoteMatcher) -> (r: Counter)
        requires
            quotes.quotes() == self.syntax().quotes,
        ensures
            tallied(r, self.syntax(), text@),
            r.spec_lines() == lines_of(text@).len(),
    {
        let chars = chars_of(text);
        let n = chars.len();
        let nl: Vec<char> = vec!['\n'];
        let ghost syn = self.syntax();
        let ghost all = kinds(syn, CodeState::Other, lines_of(text@));
        let mut counts = Counter::new();
        let mut state = CodeState::Other;
        let mut pos: usize = 0;
        let ghost mut done: Seq<LineType> = seq![];
        while pos < n
            invariant
                n == chars@.len(),
                chars@ == text@,
                nl@ == seq!['\n'],
                syn == self.syntax(),
                quotes.quotes() == syn.quotes,
                pos <= n,
                done.len() <= pos,
                all == kinds(syn, CodeState::Other, lines_of(text@)),
                all == done + kinds(syn, state, lines_from(chars@, pos as int)),
                counts.files == 1,
                counts.blanks == count_kind(done, LineType::Blank),
                counts.comments == count_kind(done, LineType::Comment),
                counts.code == count_kind(done, LineType::Code),
            decreases n - pos,
        {
            let found = find_at(&chars, &nl, pos);
            proof {
                lemma_find_from(chars@, nl@, pos as int);
            }
            let (end, next_pos) = match found {
                Some(i) => {
                    assert(occurs_at(chars@, nl@, i as int));
                    assert(chars@[i as int] == '\n') by {
                        assert(chars@.subrange(i as int, i + 1)[0] == chars@[i as int]);
                    }
                    if i > pos && chars[i - 1] == '\r' {
                        (i - 1, i + 1)
                    } else {
                        (i, i + 1)
                    }
                },
                None => (n, n),
            };
            let line = copy_range(&chars, pos, end);
            proof {
                lemma_piece_single_line(chars@, pos as int, end as int);
                lemma_trim_single_line(line@);
            }
            let ghost rest = lines_from(chars@, next_pos as int);
            proof {
                let l = chars@.subrange(pos as int, end as int);
                match found {
                    Some(i) => {
                        let whole = chars@.subrange(pos as int, i as int);
                        assert(strip_cr(whole) =~= l);
                        assert(lines_from(chars@, pos as int) == seq![l] + rest);
                    },
                    None => {
                        assert(rest.len() == 0);
                        assert(lines_from(chars@, pos as int) =~= seq![l] + rest);
                    },
                }
                assert((seq![l] + rest)[0] == l);
                assert((seq![l] + rest).drop_first() =~= rest);
            }
            let (next, t) = self.parse_chars(&line, state, quotes);
            proof {
                assert(kinds(syn, state, lines_from(chars@, pos as int)) == seq![t] + kinds(
                    syn,
                    next,
                    rest,
                ));
                assert(done.push(t).drop_last() =~= done);
                lemma_count_kind_bound(done, t);
                assert(count_kind(done.push(t), LineType::Blank) == count_kind(done, LineType::Blank) + if t == LineType::Blank { 1nat } else { 0nat });
                assert(count_kind(done.push(t), LineType::Comment) == count_kind(done, LineType::Comment) + if t == LineType::Comment { 1nat } else { 0nat });
                assert(count_kind(done.push(t), LineType::Code) == count_kind(done, LineType::Code) + if t == LineType::Code { 1nat } else { 0nat });
                assert(done + (seq![t] + kinds(syn, next, rest)) =~= done.push(t) + kinds(
                    syn,
                    next,
                    rest,
                ));
            }
            counts.add(&t);
            proof {
                done = done.push(t);
            }
            state = next;
            pos = next_pos;
        }
        proof {
            assert(lines_from(chars@, pos as int).len() == 0);
            assert(done + kinds(syn, state, lines_from(chars@, pos as int)) =~= done);
            lemma_total_conservation(syn, text@);
        }
        counts
    }
}

/// Tallies the lines of `text` as source of `language_type`; fails only where
/// the language's quote patterns cannot be compiled.
pub fn count_lines_from_reader(text: &str, language_type: LanguageType) -> (r: Result<
    Counter,
    PatternError,
>)
    ensures
        r matches Ok(c) ==> tallied(c, language_type.syntax(), text@),
        r is Ok,
{
    match language_type.quotes_regex() {
        Ok(quotes) => Ok(language_type.count_text(text, &quotes)),
        Err(e) => Err(e),
    }
}

} // verus!
