use n_edit::block::BlockParser;
use n_edit::error::MatchError;
use n_edit::model::{FileContent, SearchScope};

fn span(text: &str, start: usize) -> Result<(usize, usize), MatchError> {
    let file = FileContent::from_text(text);
    let scope = SearchScope::File(&file);
    BlockParser::parse_block(&scope, start)
}

#[test]
fn brace_block_spans_to_its_closing_brace() {
    assert_eq!(span("fn a() {\n    x();\n}\nfn b() {}\n", 0).unwrap(), (0, 2));
}

#[test]
fn braces_in_strings_and_comments_do_not_count() {
    let text = "fn a() {\n    let s = \"}\\\"}\";\n    // }\n    /* } */\n}\nend\n";
    assert_eq!(span(text, 0).unwrap(), (0, 4));
}

#[test]
fn one_line_block() {
    assert_eq!(span("fn a() {}\nfn b() {}\n", 0).unwrap(), (0, 0));
}

#[test]
fn colon_line_opens_an_indented_block() {
    let text = "def outer():\n    def inner():\n        pass\n\n    # note\n    return 0\nend_outer\n";
    assert_eq!(span(text, 0).unwrap(), (0, 5));
    assert_eq!(span(text, 1).unwrap(), (1, 2));
}

#[test]
fn plain_text_has_no_block() {
    match span("# Title\n## Section\n", 0) {
        Err(MatchError::BlockNotParseable { location_content }) => assert_eq!(location_content, "# Title"),
        _ => panic!("expected BlockNotParseable"),
    }
}

#[test]
fn statement_end_before_a_brace_means_no_block() {
    assert!(span("let x = 1;\n{\n}\n", 0).is_err());
}
