use linecount::language_type::LanguageType;
use linecount::state::{CodeState, LineType};

fn run(lt: LanguageType, lines: &[&str]) -> Vec<(CodeState, LineType)> {
    let quotes = lt.quotes_regex().unwrap();
    let mut state = CodeState::Other;
    let mut out = Vec::new();
    for line in lines {
        let r = lt.parse_line(line, state, &quotes);
        state = r.0;
        out.push(r);
    }
    out
}

#[test]
fn test_regex() {
    let lt = LanguageType::Cpp;
    let s = r#"string s = "hello";"#;
    let quotes = lt.quotes_regex().unwrap();
    assert_eq!(quotes.neutralize(s), "string s = ;");
}

#[test]
fn neutralize_each_pair_in_order() {
    let quotes = LanguageType::Ruby.quotes_regex().unwrap();
    assert_eq!(quotes.neutralize(r#"a = "x # y" + 'z'"#), "a =  + ");
    assert_eq!(quotes.neutralize(r#"say "unclosed"#), r#"say "unclosed"#);
}

#[test]
fn neutralize_twice_is_neutralize_once() {
    let quotes = LanguageType::Cpp.quotes_regex().unwrap();
    for s in [r#"x = "a" + "b" + "c"#, r#""" "" """#, r#"no quotes"#, r#"p("//", "/*")"#] {
        let once = quotes.neutralize(s);
        assert_eq!(quotes.neutralize(&once), once);
    }
}

#[test]
fn neutralize_twice_ruby() {
    let quotes = LanguageType::Ruby.quotes_regex().unwrap();
    for s in [r#"a " b 'c'"#, r#""a 'b'"#, r#"'x"y' "z""#, "plain"] {
        let once = quotes.neutralize(s);
        assert_eq!(quotes.neutralize(&once), once);
    }
    assert_eq!(quotes.neutralize(r#"a " b 'c'"#), r#"a " b "#);
}

#[test]
fn scenario_c_like_block_comment() {
    let lines = ["int main() {", "    /*", "     */", "    return 0;", "}"];
    let r = run(LanguageType::Cpp, &lines);
    assert_eq!(
        r,
        vec![
            (CodeState::Other, LineType::Code),
            (CodeState::InMultilineComent, LineType::Comment),
            (CodeState::Other, LineType::Comment),
            (CodeState::Other, LineType::Code),
            (CodeState::Other, LineType::Code),
        ]
    );
}

#[test]
fn scenario_quoted_line_comment_is_code() {
    let r = run(LanguageType::Cpp, &[r#"x = "// not a comment";"#]);
    assert_eq!(r, vec![(CodeState::Other, LineType::Code)]);
}

#[test]
fn scenario_block_comment_on_one_line() {
    let r = run(LanguageType::Cpp, &["int x = 1; /* note */"]);
    assert_eq!(r, vec![(CodeState::Other, LineType::Code)]);
    let r = run(LanguageType::Cpp, &["/* note */"]);
    assert_eq!(r, vec![(CodeState::Other, LineType::Comment)]);
}

#[test]
fn scenario_verbatim_string_over_lines() {
    let r = run(LanguageType::Cpp, &[r#"s = R"("#, "body // text", r#")";"#]);
    assert_eq!(
        r,
        vec![
            (CodeState::InVerbatimQuote, LineType::Code),
            (CodeState::InVerbatimQuote, LineType::Code),
            (CodeState::Other, LineType::Code),
        ]
    );
}

#[test]
fn blank_lines_keep_state() {
    let quotes = LanguageType::Cpp.quotes_regex().unwrap();
    for state in [CodeState::Other, CodeState::InMultilineComent, CodeState::InVerbatimQuote] {
        for line in ["", "   ", "\t \u{3000}", " \n\t", "\r\n"] {
            assert_eq!(LanguageType::Cpp.parse_line(line, state, &quotes), (state, LineType::Blank));
        }
    }
}

#[test]
fn block_comment_closing_mid_line_is_code() {
    let r = run(LanguageType::Cpp, &["/* a", "b */ int c;"]);
    assert_eq!(
        r,
        vec![
            (CodeState::InMultilineComent, LineType::Comment),
            (CodeState::Other, LineType::Code),
        ]
    );
}

#[test]
fn block_comment_opened_after_code() {
    let r = run(LanguageType::Cpp, &["int a; /* start", "still comment"]);
    assert_eq!(
        r,
        vec![
            (CodeState::InMultilineComent, LineType::Code),
            (CodeState::InMultilineComent, LineType::Comment),
        ]
    );
}

#[test]
fn verbatim_string_closed_on_same_line() {
    let r = run(LanguageType::Cpp, &[r#"s = R"(text)""#]);
    assert_eq!(r, vec![(CodeState::Other, LineType::Code)]);
}

#[test]
fn ruby_line_comment_and_quotes() {
    let r = run(LanguageType::Ruby, &["# note", "puts '# not a note'", "=begin", "x", "=end"]);
    assert_eq!(
        r,
        vec![
            (CodeState::Other, LineType::Comment),
            (CodeState::Other, LineType::Code),
            (CodeState::InMultilineComent, LineType::Comment),
            (CodeState::InMultilineComent, LineType::Comment),
            (CodeState::Other, LineType::Comment),
        ]
    );
}

#[test]
fn extensions_map_to_languages() {
    for e in ["cc", "cpp", "cxx", "c++"] {
        assert_eq!(LanguageType::from_file_extension(e), Some(LanguageType::Cpp));
    }
    assert_eq!(LanguageType::from_file_extension("rb"), Some(LanguageType::Ruby));
    assert_eq!(LanguageType::from_file_extension("CPP"), None);
    assert_eq!(LanguageType::from_file_extension(".rb"), None);
    assert_eq!(LanguageType::from_file_extension(""), None);
}

#[test]
fn syntax_tables() {
    assert_eq!(LanguageType::Cpp.line_comment(), &["//"]);
    assert_eq!(LanguageType::Ruby.line_comment(), &["#"]);
    assert_eq!(LanguageType::Cpp.multi_line_comments(), &[("/*", "*/")]);
    assert_eq!(LanguageType::Ruby.multi_line_comments(), &[("=begin", "=end")]);
    assert_eq!(LanguageType::Cpp.quotes(), &[("\"", "\"")]);
    assert_eq!(LanguageType::Ruby.quotes(), &[("\"", "\""), ("'", "'")]);
    assert_eq!(LanguageType::Cpp.verbatim_quotes(), &[("R\"(", ")\"")]);
    assert!(LanguageType::Ruby.verbatim_quotes().is_empty());
}
