use linecount::counter::{count_lines_from_reader, Counter};
use linecount::language_type::LanguageType;
use linecount::state::LineType;

#[test]
fn test_cpp_count() {
    let s = r#"
        int main() {
            /*
             */
            return 0;
            return /**/ 1;  // dadwf
            char* poem = R"(
              // This is not a comment.
            /* Not comment!
               Again not comment. */
            )";
            char* s =
                "//hell"
                "/*hello"
                ""
                "dwaf*/";
        }"#;
    let counts = count_lines_from_reader(s, LanguageType::Cpp).unwrap();
    assert_eq!(counts.code, 14);
    assert_eq!(counts.comments, 2);
    assert_eq!(counts.blanks, 1);
}

#[test]
fn test_ruby_count() {
    let s = r#"
module Enumerable
  class << self
  =begin
     Provides the cross-product of two or more Enumerables.
     This is the class-level method. The instance method
     calls on this.
    
       Enumerable.cart([1,2], [4], ["apple", "banana"])
       => [[1, 4, "apple"], [1, 4, "banana"], [2, 4, "apple"], [2, 4, "banana"]]
    
       Enumerable.cart([1,2], [3,4])
       => [[1, 3], [1, 4], [2, 3], [2, 4]]
  =end
"#;
    let counts = count_lines_from_reader(s, LanguageType::Ruby).unwrap();
    assert_eq!(counts.code, 2);
    assert_eq!(counts.comments, 9);
    assert_eq!(counts.blanks, 3);
}

#[test]
fn new_counter_holds_one_file() {
    let c = Counter::new();
    assert_eq!(c, Counter { files: 1, comments: 0, blanks: 0, code: 0 });
}

#[test]
fn none_counter_is_empty() {
    let c = Counter::none();
    assert_eq!(c, Counter { files: 0, comments: 0, blanks: 0, code: 0 });
    assert_eq!(c.lines(), 0);
}

#[test]
fn unreadable_file_counts_as_one_empty_file() {
    // What a file that cannot be opened or decoded contributes.
    let c = Counter::new();
    assert_eq!(c.files, 1);
    assert_eq!(c.code, 0);
    assert_eq!(c.comments, 0);
    assert_eq!(c.blanks, 0);
}

#[test]
fn add_counts_each_kind() {
    let mut c = Counter::new();
    c.add(&LineType::Code);
    c.add(&LineType::Code);
    c.add(&LineType::Comment);
    c.add(&LineType::Blank);
    assert_eq!(c, Counter { files: 1, comments: 1, blanks: 1, code: 2 });
    assert_eq!(c.lines(), 4);
}

#[test]
fn sum_adds_fields() {
    let a = Counter { files: 1, comments: 2, blanks: 3, code: 4 };
    let b = Counter { files: 5, comments: 6, blanks: 7, code: 8 };
    assert_eq!(a + b, Counter { files: 6, comments: 8, blanks: 10, code: 12 });
}

#[test]
fn sum_is_commutative_and_associative() {
    let a = Counter { files: 1, comments: 2, blanks: 3, code: 4 };
    let b = Counter { files: 2, comments: 0, blanks: 9, code: 1 };
    let c = Counter { files: 7, comments: 5, blanks: 0, code: 3 };
    assert_eq!(a + b, b + a);
    assert_eq!((a + b) + c, a + (b + c));
    assert_eq!(Counter::none() + a, a);
}

#[test]
fn totals_match_physical_lines() {
    let s = "int a;\n\n// c\n/* d\n e */\nint b;";
    let c = count_lines_from_reader(s, LanguageType::Cpp).unwrap();
    assert_eq!(c.lines(), 6);
    assert_eq!(c, Counter { files: 1, comments: 3, blanks: 1, code: 2 });
}

#[test]
fn empty_text_has_no_lines() {
    let c = count_lines_from_reader("", LanguageType::Cpp).unwrap();
    assert_eq!(c, Counter::new());
}

#[test]
fn trailing_newline_adds_no_line() {
    let c = count_lines_from_reader("a;\nb;\n", LanguageType::Cpp).unwrap();
    assert_eq!(c.code, 2);
    assert_eq!(c.lines(), 2);
}

#[test]
fn crlf_line_endings() {
    let c = count_lines_from_reader("a;\r\n\r\n// x\r\n", LanguageType::Cpp).unwrap();
    assert_eq!(c, Counter { files: 1, comments: 1, blanks: 1, code: 1 });
}

#[test]
fn count_text_with_prebuilt_matcher() {
    let lt = LanguageType::Ruby;
    let quotes = lt.quotes_regex().unwrap();
    let c = lt.count_text("# note\nputs 'a # b'\n\n", &quotes);
    assert_eq!(c, Counter { files: 1, comments: 1, blanks: 1, code: 1 });
}

#[test]
fn quote_does_not_span_lines() {
    let c = count_lines_from_reader("x = \"a\n// b\"", LanguageType::Cpp).unwrap();
    assert_eq!(c, Counter { files: 1, comments: 1, blanks: 0, code: 1 });
}
