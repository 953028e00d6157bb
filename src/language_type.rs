//! The supported languages, their comment and string syntax, and the line
//! classifier that is driven by that syntax.
use vstd::prelude::*;

use crate::quote::{
    lemma_neutralize_idempotent, neutralize_all, nonempty_pairs, pairs_view, single_char_pairs,
    PatternError, QuoteMatcher,
};
use crate::state::{CodeState, LineType};
use crate::text::{
    chars_of, contains, contains_seq, copy_range, ends_with, ends_with_seq, find_at, find_from,
    is_white, lemma_find_from, lemma_trim_start_skip, occurs_at, same_text, single_line,
    starts_with, starts_with_seq, string_of, trim, trim_bounds,
};

verus! {

/// The comment and string syntax of a language.
pub struct Syntax {
    /// Markers after which the rest of a line is a comment.
    pub line_comments: Seq<Seq<char>>,
    /// Block comment delimiters, `(start, end)`, in order.
    pub block_comments: Seq<(Seq<char>, Seq<char>)>,
    /// Ordinary string delimiters, `(start, end)`, in order.
    pub quotes: Seq<(Seq<char>, Seq<char>)>,
    /// Verbatim string delimiters, `(start, end)`, in order.
    pub verbatim_quotes: Seq<(Seq<char>, Seq<char>)>,
}

impl Syntax {
    /// Every marker and delimiter is non-empty.
    pub open spec fn wf(self) -> bool {
        &&& forall|k: int|
            0 <= k < self.line_comments.len() ==> self.line_comments[k].len() > 0
        &&& nonempty_pairs(self.block_comments)
        &&& nonempty_pairs(self.quotes)
        &&& nonempty_pairs(self.verbatim_quotes)
    }
}

pub open spec fn strs_view(ss: Seq<&str>) -> Seq<Seq<char>> {
    ss.map_values(|s: &str| s@)
}

/// A line inside an open block comment: the first end delimiter (in declared
/// order) found on the line closes the comment.
pub open spec fn close_block(
    blocks: Seq<(Seq<char>, Seq<char>)>,
    line: Seq<char>,
) -> (CodeState, LineType)
    decreases blocks.len(),
{
    if blocks.len() == 0 {
        (CodeState::InMultilineComent, LineType::Comment)
    } else if contains(line, blocks[0].1) {
        if ends_with(line, blocks[0].1) {
            (CodeState::Other, LineType::Comment)
        } else {
            (CodeState::Other, LineType::Code)
        }
    } else {
        close_block(blocks.drop_first(), line)
    }
}

/// A line inside an open verbatim string: always code, and the string ends
/// where an end delimiter appears.
pub open spec fn close_verbatim(
    vqs: Seq<(Seq<char>, Seq<char>)>,
    line: Seq<char>,
) -> (CodeState, LineType) {
    if exists|k: int| 0 <= k < vqs.len() && contains(line, vqs[k].1) {
        (CodeState::Other, LineType::Code)
    } else {
        (CodeState::InVerbatimQuote, LineType::Code)
    }
}

/// The first block comment pair (in declared order) whose start occurs on the
/// neutralized line `n` decides; `None` where no start occurs.
pub open spec fn open_block(blocks: Seq<(Seq<char>, Seq<char>)>, n: Seq<char>) -> Option<
    (CodeState, LineType),
>
    decreases blocks.len(),
{
    if blocks.len() == 0 {
        None
    } else {
        match find_from(n, blocks[0].0, 0) {
            Some(p) => Some(
                match find_from(n, blocks[0].1, p + blocks[0].0.len()) {
                    Some(q) => if p == 0 && q + blocks[0].1.len() == n.len() {
                        (CodeState::Other, LineType::Comment)
                    } else {
                        (CodeState::Other, LineType::Code)
                    },
                    None => if p == 0 {
                        (CodeState::InMultilineComent, LineType::Comment)
                    } else {
                        (CodeState::InMultilineComent, LineType::Code)
                    },
                },
            ),
            None => open_block(blocks.drop_first(), n),
        }
    }
}

/// Some verbatim string opens on the line and the line does not end with that
/// pair's end delimiter.
pub open spec fn opens_verbatim(vqs: Seq<(Seq<char>, Seq<char>)>, line: Seq<char>) -> bool {
    exists|k: int|
        0 <= k < vqs.len() && contains(line, vqs[k].0) && !ends_with(line, vqs[k].1)
}

/// A trimmed, non-empty line outside any open construct.
pub open spec fn classify_other(syn: Syntax, line: Seq<char>) -> (CodeState, LineType) {
    let n = neutralize_all(syn.quotes, line);
    if exists|k: int| 0 <= k < syn.line_comments.len() && starts_with(n, syn.line_comments[k]) {
        (CodeState::Other, LineType::Comment)
    } else {
        match open_block(syn.block_comments, n) {
            Some(r) => r,
            None => if opens_verbatim(syn.verbatim_quotes, line) {
                (CodeState::InVerbatimQuote, LineType::Code)
            } else {
                (CodeState::Other, LineType::Code)
            },
        }
    }
}

/// One transition of the classifier: the state after `raw` and the kind of `raw`.
pub open spec fn step(syn: Syntax, state: CodeState, raw: Seq<char>) -> (CodeState, LineType) {
    let line = trim(raw);
    if line.len() == 0 {
        (state, LineType::Blank)
    } else {
        match state {
            CodeState::InMultilineComent => close_block(syn.block_comments, line),
            CodeState::InVerbatimQuote => close_verbatim(syn.verbatim_quotes, line),
            CodeState::Other => classify_other(syn, line),
        }
    }
}

/// A line of whitespace only is blank and leaves the state as it was, in
/// every state.
pub proof fn lemma_blank_line_keeps_state(syn: Syntax, state: CodeState, line: Seq<char>)
    requires
        forall|i: int| 0 <= i < line.len() ==> is_white(line[i]),
    ensures
        step(syn, state, line) == (state, LineType::Blank),
{
    lemma_trim_start_skip(line, line.len() as int);
    assert(line.subrange(line.len() as int, line.len() as int).len() == 0);
}

/// Neutralizing an already neutralized line changes nothing, in every
/// supported language.
pub proof fn lemma_language_neutralize_idempotent(lt: LanguageType, s: Seq<char>)
    ensures
        neutralize_all(lt.syntax().quotes, neutralize_all(lt.syntax().quotes, s))
            == neutralize_all(lt.syntax().quotes, s),
{
    assert(single_char_pairs(lt.syntax().quotes));
    lemma_neutralize_idempotent(lt.syntax().quotes, s);
}

/// The supported languages.
#[derive(Debug, PartialEq, Eq, Structural, Clone, Copy)]
pub enum LanguageType {
    Cpp,
    Ruby,
}

impl LanguageType {
    /// The syntax of the language.
    pub open spec fn syntax(self) -> Syntax {
        match self {
            LanguageType::Cpp => Syntax {
                line_comments: seq![seq!['/', '/']],
                block_comments: seq![(seq!['/', '*'], seq!['*', '/'])],
                quotes: seq![(seq!['"'], seq!['"'])],
                verbatim_quotes: seq![(seq!['R', '"', '('], seq![')', '"'])],
            },
            LanguageType::Ruby => Syntax {
                line_comments: seq![seq!['#']],
                block_comments: seq![
                    (seq!['=', 'b', 'e', 'g', 'i', 'n'], seq!['=', 'e', 'n', 'd']),
                ],
                quotes: seq![(seq!['"'], seq!['"']), (seq!['\''], seq!['\''])],
                verbatim_quotes: seq![],
            },
        }
    }

    pub fn line_comment(&self) -> (r: &'static [&'static str])
        ensures
            strs_view(r@) == self.syntax().line_comments,
    {
        match self {
            LanguageType::Cpp => {
                let r: &'static [&'static str] = &["//"];
                proof {
                    reveal_strlit("//");
                    assert(r@[0] == "//");
                    assert(r@[0]@ =~= seq!['/', '/']);
                    assert(strs_view(r@) =~= self.syntax().line_comments);
                }
                r
            },
            LanguageType::Ruby => {
                let r: &'static [&'static str] = &["#"];
                proof {
                    reveal_strlit("#");
                    assert(r@[0] == "#");
                    assert(r@[0]@ =~= seq!['#']);
                    assert(strs_view(r@) =~= self.syntax().line_comments);
                }
                r
            },
        }
    }

    /// Block comment delimiters, `(start, end)`, in order.
    pub fn multi_line_comments(&self) -> (r: &'static [(&'static str, &'static str)])
        ensures
            pairs_view(r@) == self.syntax().block_comments,
    {
        match self {
            LanguageType::Cpp => {
                let r: &'static [(&'static str, &'static str)] = &[("/*", "*/")];
                proof {
                    reveal_strlit("/*");
                    reveal_strlit("*/");
                    assert(r@[0] == ("/*", "*/"));
                    assert(r@[0].0@ =~= seq!['/', '*']);
                    assert(r@[0].1@ =~= seq!['*', '/']);
                    assert(pairs_view(r@) =~= self.syntax().block_comments);
                }
                r
            },
            LanguageType::Ruby => {
                let r: &'static [(&'static str, &'static str)] = &[("=begin", "=end")];
                proof {
                    reveal_strlit("=begin");
                    reveal_strlit("=end");
                    assert(r@[0] == ("=begin", "=end"));
                    assert(r@[0].0@ =~= seq!['=', 'b', 'e', 'g', 'i', 'n']);
                    assert(r@[0].1@ =~= seq!['=', 'e', 'n', 'd']);
                    assert(pairs_view(r@) =~= self.syntax().block_comments);
                }
                r
            },
        }
    }

    /// Ordinary string delimiters, `(start, end)`, in order.
    pub fn quotes(&self) -> (r: &'static [(&'static str, &'static str)])
        ensures
            pairs_view(r@) == self.syntax().quotes,
    {
        match self {
            LanguageType::Cpp => {
                let r: &'static [(&'static str, &'static str)] = &[("\"", "\"")];
                proof {
                    reveal_strlit("\"");
                    reveal_strlit("\"");
                    assert(r@[0] == ("\"", "\""));
                    assert(r@[0].0@ =~= seq!['"']);
                    assert(r@[0].1@ =~= seq!['"']);
                    assert(pairs_view(r@) =~= self.syntax().quotes);
                }
                r
            },
            LanguageType::Ruby => {
                let r: &'static [(&'static str, &'static str)] = &[("\"", "\""), ("'", "'")];
                proof {
                    reveal_strlit("\"");
                    reveal_strlit("\"");
                    reveal_strlit("'");
                    reveal_strlit("'");
                    assert(r@[0] == ("\"", "\""));
                    assert(r@[0].0@ =~= seq!['"']);
                    assert(r@[0].1@ =~= seq!['"']);
                    assert(r@[1] == ("'", "'"));
                    assert(r@[1].0@ =~= seq!['\'']);
                    assert(r@[1].1@ =~= seq!['\'']);
                    assert(pairs_view(r@) =~= self.syntax().quotes);
                }
                r
            },
        }
    }

    /// Verbatim string delimiters, `(start, end)`, in order.
    pub fn verbatim_quotes(&self) -> (r: &'static [(&'static str, &'static str)])
        ensures
            pairs_view(r@) == self.syntax().verbatim_quotes,
    {
        match self {
            LanguageType::Cpp => {
                let r: &'static [(&'static str, &'static str)] = &[("R\"(", ")\"")];
                proof {
                    reveal_strlit("R\"(");
                    reveal_strlit(")\"");
                    assert(r@[0] == ("R\"(", ")\""));
                    assert(r@[0].0@ =~= seq!['R', '"', '(']);
                    assert(r@[0].1@ =~= seq![')', '"']);
                    assert(pairs_view(r@) =~= self.syntax().verbatim_quotes);
                }
                r
            },
            LanguageType::Ruby => {
                let r: &'static [(&'static str, &'static str)] = &[];
                proof {
                    assert(pairs_view(r@) =~= self.syntax().verbatim_quotes);
                }
                r
            },
        }
    }

    /// The language that files with this extension are written in.
    pub fn from_file_extension(extension: &str) -> (r: Option<Self>)
        ensures
            r == language_of_extension(extension@),
    {
        proof {
            reveal_strlit("cc");
            reveal_strlit("cpp");
            reveal_strlit("cxx");
            reveal_strlit("c++");
            reveal_strlit("rb");
            assert("cc"@ =~= seq!['c', 'c']);
            assert("cpp"@ =~= seq!['c', 'p', 'p']);
            assert("cxx"@ =~= seq!['c', 'x', 'x']);
            assert("c++"@ =~= seq!['c', '+', '+']);
            assert("rb"@ =~= seq!['r', 'b']);
        }
        if same_text(extension, "cc") || same_text(extension, "cpp") || same_text(extension, "cxx")
            || same_text(extension, "c++") {
            Some(LanguageType::Cpp)
        } else if same_text(extension, "rb") {
            Some(LanguageType::Ruby)
        } else {
            None
        }
    }

    /// Compiles the quote patterns of the language.
    pub fn quotes_regex(&self) -> (r: Result<QuoteMatcher, PatternError>)
        ensures
            r matches Ok(m) ==> m.quotes() == self.syntax().quotes,
            r is Ok,
    {
        let qs = self.quotes();
        proof {
            self.lemma_syntax_wf();
        }
        QuoteMatcher::new(qs)
    }

    pub proof fn lemma_syntax_wf(self)
        ensures
            self.syntax().wf(),
    {
    }

    /// Classifies one line (no line break between its first and last
    /// non-whitespace characters), given the state left by the lines before it;
    /// returns the state after it and its kind.
    pub fn parse_line(&self, line: &str, prev: CodeState, quotes: &QuoteMatcher) -> (r: (
        CodeState,
        LineType,
    ))
        requires
            quotes.quotes() == self.syntax().quotes,
            single_line(trim(line@)),
        ensures
            r == step(self.syntax(), prev, line@),
    {
        let chars = chars_of(line);
        self.parse_chars(&chars, prev, quotes)
    }

    /// `parse_line` on a line given as its characters.
    pub(crate) fn parse_chars(&self, line: &Vec<char>, prev: CodeState, quotes: &QuoteMatcher) -> (r: (
        CodeState,
        LineType,
    ))
        requires
            quotes.quotes() == self.syntax().quotes,
            single_line(trim(line@)),
        ensures
            r == step(self.syntax(), prev, line@),
    {
        let (lo, hi) = trim_bounds(line);
        if lo == hi {
            return (prev, LineType::Blank);
        }
        let t = copy_range(line, lo, hi);
        let trimmed = string_of(&t);
        assert(trimmed@ == trim(line@));
        match prev {
            CodeState::InMultilineComent => close_block_exec(self.multi_line_comments(), &t),
            CodeState::InVerbatimQuote => close_verbatim_exec(self.verbatim_quotes(), &t),
            CodeState::Other => {
                proof {
                    self.lemma_syntax_wf();
                }
                let n = chars_of(quotes.neutralize(trimmed.as_str()).as_str());
                if starts_with_any(self.line_comment(), &n) {
                    return (CodeState::Other, LineType::Comment);
                }
                match open_block_exec(self.multi_line_comments(), &n) {
                    Some(r) => r,
                    None => if opens_verbatim_exec(self.verbatim_quotes(), &t) {
                        (CodeState::InVerbatimQuote, LineType::Code)
                    } else {
                        (CodeState::Other, LineType::Code)
                    },
                }
            },
        }
    }
}

pub open spec fn language_of_extension(e: Seq<char>) -> Option<LanguageType> {
    if e == seq!['c', 'c'] || e == seq!['c', 'p', 'p'] || e == seq!['c', 'x', 'x'] || e == seq![
        'c',
        '+',
        '+',
    ] {
        Some(LanguageType::Cpp)
    } else if e == seq!['r', 'b'] {
        Some(LanguageType::Ruby)
    } else {
        None
    }
}

fn close_block_exec(blocks: &[(&str, &str)], line: &Vec<char>) -> (r: (CodeState, LineType))
    ensures
        r == close_block(pairs_view(blocks@), line@),
{
    let ghost all = pairs_view(blocks@);
    assert(all.skip(0) =~= all);
    let mut i: usize = 0;
    while i < blocks.len()
        invariant
            i <= blocks@.len(),
            all == pairs_view(blocks@),
            close_block(all, line@) == close_block(all.skip(i as int), line@),
        decreases blocks@.len() - i,
    {
        let end = chars_of(blocks[i].1);
        assert(all.skip(i as int)[0] == all[i as int]);
        if contains_seq(line, &end) {
            if ends_with_seq(line, &end) {
                return (CodeState::Other, LineType::Comment);
            } else {
                return (CodeState::Other, LineType::Code);
            }
        }
        assert(all.skip(i as int).drop_first() =~= all.skip(i + 1));
        i = i + 1;
    }
    assert(all.skip(i as int).len() == 0);
    (CodeState::InMultilineComent, LineType::Comment)
}

fn close_verbatim_exec(vqs: &[(&str, &str)], line: &Vec<char>) -> (r: (CodeState, LineType))
    ensures
        r == close_verbatim(pairs_view(vqs@), line@),
{
    let ghost all = pairs_view(vqs@);
    let mut i: usize = 0;
    while i < vqs.len()
        invariant
            i <= vqs@.len(),
            all == pairs_view(vqs@),
            forall|k: int| 0 <= k < i ==> !contains(line@, all[k].1),
        decreases vqs@.len() - i,
    {
        let end = chars_of(vqs[i].1);
        if contains_seq(line, &end) {
            assert(contains(line@, all[i as int].1));
            return (CodeState::Other, LineType::Code);
        }
        i = i + 1;
    }
    (CodeState::InVerbatimQuote, LineType::Code)
}

fn starts_with_any(markers: &[&str], line: &Vec<char>) -> (r: bool)
    ensures
        r == exists|k: int|
            0 <= k < markers@.len() && starts_with(line@, strs_view(markers@)[k]),
{
    let ghost all = strs_view(markers@);
    let mut i: usize = 0;
    while i < markers.len()
        invariant
            i <= markers@.len(),
            all == strs_view(markers@),
            forall|k: int| 0 <= k < i ==> !starts_with(line@, all[k]),
        decreases markers@.len() - i,
    {
        let m = chars_of(markers[i]);
        if starts_with_seq(line, &m) {
            assert(starts_with(line@, all[i as int]));
            return true;
        }
        i = i + 1;
    }
    false
}

fn open_block_exec(blocks: &[(&str, &str)], n: &Vec<char>) -> (r: Option<(CodeState, LineType)>)
    ensures
        r == open_block(pairs_view(blocks@), n@),
{
    let ghost all = pairs_view(blocks@);
    assert(all.skip(0) =~= all);
    let mut i: usize = 0;
    while i < blocks.len()
        invariant
            i <= blocks@.len(),
            all == pairs_view(blocks@),
            open_block(all, n@) == open_block(all.skip(i as int), n@),
        decreases blocks@.len() - i,
    {
        let start = chars_of(blocks[i].0);
        let end = chars_of(blocks[i].1);
        assert(all.skip(i as int)[0] == all[i as int]);
        let found = find_at(n, &start, 0);
        match found {
            Some(p) => {
                proof {
                    lemma_find_from(n@, start@, 0);
                    assert(find_from(n@, start@, 0) == Some(p as int));
                    assert(occurs_at(n@, start@, p as int));
                }
                let nlen = n.len();
                assert(p + start@.len() <= nlen);
                let after = p + start.len();
                let closed = if after <= n.len() {
                    find_at(n, &end, after)
                } else {
                    None
                };
                return Some(
                    match closed {
                        Some(q) => {
                            proof {
                                lemma_find_from(n@, end@, after as int);
                            }
                            if p == 0 && q + end.len() == n.len() {
                                (CodeState::Other, LineType::Comment)
                            } else {
                                (CodeState::Other, LineType::Code)
                            }
                        },
                        None => if p == 0 {
                            (CodeState::InMultilineComent, LineType::Comment)
                        } else {
                            (CodeState::InMultilineComent, LineType::Code)
                        },
                    },
                );
            },
            None => {},
        }
        assert(all.skip(i as int).drop_first() =~= all.skip(i + 1));
        i = i + 1;
    }
    assert(all.skip(i as int).len() == 0);
    None
}

fn opens_verbatim_exec(vqs: &[(&str, &str)], line: &Vec<char>) -> (r: bool)
    ensures
        r == opens_verbatim(pairs_view(vqs@), line@),
{
    let ghost all = pairs_view(vqs@);
    let mut i: usize = 0;
    while i < vqs.len()
        invariant
            i <= vqs@.len(),
            all == pairs_view(vqs@),
            forall|k: int| 0 <= k < i ==> !(contains(line@, all[k].0) && !ends_with(line@, all[k].1)),
        decreases vqs@.len() - i,
    {
        let start = chars_of(vqs[i].0);
        let end = chars_of(vqs[i].1);
        if contains_seq(line, &start) && !ends_with_seq(line, &end) {
            assert(contains(line@, all[i as int].0) && !ends_with(line@, all[i as int].1));
            return true;
        }
        i = i + 1;
    }
    false
}

} // verus!
