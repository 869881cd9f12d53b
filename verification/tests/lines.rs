use lace::io::Source;
use lace::lexer::Lexer;
use lace::token::{Kind, Token};

fn lexer(text: &str) -> Lexer {
    Lexer::new(Source::new("lines.lace".to_string(), text.to_string()))
}

fn expect(token: &Token, kind: Kind, text: &str, value: Option<isize>, position: (usize, usize)) {
    assert_eq!(token.kind, kind);
    assert_eq!(token.text, text);
    assert_eq!(token.value, value);
    assert_eq!(token.position, position);
}

#[test]
fn three_newlines_collapse_into_one_token() {
    let mut lexer = lexer("\n\n\n");
    expect(&lexer.next_token(), Kind::Newline, "\\n", None, (1, 1));
    assert_eq!(lexer.position.0, 4);
    assert_eq!(lexer.position, (4, 1));
    expect(&lexer.next_token(), Kind::EOF, "EndOfFile", None, (4, 1));
}

#[test]
fn token_after_newlines_is_on_the_new_line() {
    let mut lexer = lexer("\n\n\nx");
    expect(&lexer.next_token(), Kind::Newline, "\\n", None, (1, 1));
    expect(&lexer.next_token(), Kind::Identifier, "x", None, (4, 1));
    expect(&lexer.next_token(), Kind::EOF, "EndOfFile", None, (4, 2));
}

#[test]
fn newline_text_is_backslash_and_n() {
    let mut lexer = lexer("\n");
    let token = lexer.next_token();
    assert_eq!(token.kind, Kind::Newline);
    assert_eq!(token.text.chars().collect::<Vec<char>>(), vec!['\\', 'n']);
    assert_eq!(lexer.position, (2, 1));
}

#[test]
fn newline_runs_between_tokens() {
    let mut lexer = lexer("a\n\n b\n");
    expect(&lexer.next_token(), Kind::Identifier, "a", None, (1, 1));
    expect(&lexer.next_token(), Kind::Newline, "\\n", None, (1, 2));
    assert_eq!(lexer.position, (3, 1));
    expect(&lexer.next_token(), Kind::Identifier, "b", None, (3, 2));
    expect(&lexer.next_token(), Kind::Newline, "\\n", None, (3, 3));
    expect(&lexer.next_token(), Kind::EOF, "EndOfFile", None, (4, 1));
}

#[test]
fn newlines_split_by_a_space_are_two_tokens() {
    let mut lexer = lexer("\n \n");
    expect(&lexer.next_token(), Kind::Newline, "\\n", None, (1, 1));
    expect(&lexer.next_token(), Kind::Newline, "\\n", None, (2, 2));
    expect(&lexer.next_token(), Kind::EOF, "EndOfFile", None, (3, 1));
}

#[test]
fn spaces_between_tokens_yield_nothing() {
    let mut lexer = lexer("a   b");
    expect(&lexer.next_token(), Kind::Identifier, "a", None, (1, 1));
    expect(&lexer.next_token(), Kind::Identifier, "b", None, (1, 5));
    expect(&lexer.next_token(), Kind::EOF, "EndOfFile", None, (1, 6));
}

#[test]
fn tabs_count_as_one_column() {
    let mut lexer = lexer("a\t \tb");
    expect(&lexer.next_token(), Kind::Identifier, "a", None, (1, 1));
    expect(&lexer.next_token(), Kind::Identifier, "b", None, (1, 5));
    expect(&lexer.next_token(), Kind::EOF, "EndOfFile", None, (1, 6));
}

#[test]
fn tab_separates_identifiers() {
    let mut lexer = lexer("tab\there");
    expect(&lexer.next_token(), Kind::Identifier, "tab", None, (1, 1));
    expect(&lexer.next_token(), Kind::Identifier, "here", None, (1, 5));
    expect(&lexer.next_token(), Kind::EOF, "EndOfFile", None, (1, 9));
}

#[test]
fn blanks_only_change_columns() {
    let mut close = lexer("a b");
    let mut wide = lexer("a     b");
    let a_close = close.next_token();
    let a_wide = wide.next_token();
    expect(&a_wide, a_close.kind, &a_close.text, a_close.value, a_close.position);
    let b_close = close.next_token();
    let b_wide = wide.next_token();
    assert_eq!(b_close.kind, Kind::Identifier);
    assert_eq!(b_wide.kind, Kind::Identifier);
    assert_eq!(b_close.text, b_wide.text);
    assert_eq!(b_close.position.0, b_wide.position.0);
    assert_eq!(b_close.position.1 + 4, b_wide.position.1);
}

#[test]
fn leading_spaces_move_the_first_token() {
    let mut lexer = lexer("  x");
    expect(&lexer.next_token(), Kind::Identifier, "x", None, (1, 3));
    expect(&lexer.next_token(), Kind::EOF, "EndOfFile", None, (1, 4));
}

#[test]
fn trailing_spaces_are_walked_before_the_end() {
    let mut lexer = lexer("x  ");
    expect(&lexer.next_token(), Kind::Identifier, "x", None, (1, 1));
    assert_eq!(lexer.position, (1, 2));
    expect(&lexer.next_token(), Kind::EOF, "EndOfFile", None, (1, 4));
    expect(&lexer.next_token(), Kind::EOF, "EndOfFile", None, (1, 4));
}

#[test]
fn empty_source_ends_at_once_and_stays_ended() {
    let mut lexer = lexer("");
    assert_eq!(lexer.position, (1, 0));
    expect(&lexer.next_token(), Kind::EOF, "EndOfFile", None, (1, 1));
    for _ in 0..5 {
        expect(&lexer.next_token(), Kind::EOF, "EndOfFile", None, (1, 1));
        assert_eq!(lexer.position, (1, 1));
    }
}

#[test]
fn blank_source_ends_at_once() {
    let mut lexer = lexer("   ");
    expect(&lexer.next_token(), Kind::EOF, "EndOfFile", None, (1, 4));
    expect(&lexer.next_token(), Kind::EOF, "EndOfFile", None, (1, 4));
    let mut lexer = self::lexer("\t");
    expect(&lexer.next_token(), Kind::EOF, "EndOfFile", None, (1, 2));
}

#[test]
fn end_after_tokens_repeats() {
    let mut lexer = lexer("1+2");
    expect(&lexer.next_token(), Kind::Integer, "1", Some(1), (1, 1));
    expect(&lexer.next_token(), Kind::Plus, "+", None, (1, 2));
    expect(&lexer.next_token(), Kind::Integer, "2", Some(2), (1, 3));
    for _ in 0..3 {
        expect(&lexer.next_token(), Kind::EOF, "EndOfFile", None, (1, 4));
    }
}

#[test]
fn assignment_line_end_to_end() {
    let mut lexer = lexer("x = 10;\n");
    expect(&lexer.next_token(), Kind::Identifier, "x", None, (1, 1));
    expect(&lexer.next_token(), Kind::Assign, "=", None, (1, 3));
    expect(&lexer.next_token(), Kind::Integer, "10", Some(10), (1, 5));
    expect(&lexer.next_token(), Kind::Semicolon, ";", None, (1, 7));
    expect(&lexer.next_token(), Kind::Newline, "\\n", None, (1, 8));
    expect(&lexer.next_token(), Kind::EOF, "EndOfFile", None, (2, 1));
}

#[test]
fn two_lines_end_to_end() {
    let mut lexer = lexer("x = 10;\ny = \"hi\"\n");
    expect(&lexer.next_token(), Kind::Identifier, "x", None, (1, 1));
    expect(&lexer.next_token(), Kind::Assign, "=", None, (1, 3));
    expect(&lexer.next_token(), Kind::Integer, "10", Some(10), (1, 5));
    expect(&lexer.next_token(), Kind::Semicolon, ";", None, (1, 7));
    expect(&lexer.next_token(), Kind::Newline, "\\n", None, (1, 8));
    expect(&lexer.next_token(), Kind::Identifier, "y", None, (2, 1));
    expect(&lexer.next_token(), Kind::Assign, "=", None, (2, 3));
    expect(&lexer.next_token(), Kind::String, "hi", None, (2, 5));
    expect(&lexer.next_token(), Kind::Newline, "\\n", None, (2, 9));
    expect(&lexer.next_token(), Kind::EOF, "EndOfFile", None, (3, 1));
}

#[test]
fn source_is_kept_as_given() {
    let mut lexer = lexer("a b");
    lexer.next_token();
    lexer.next_token();
    lexer.next_token();
    assert_eq!(lexer.source.name, "lines.lace");
    assert_eq!(lexer.source.content, "a b");
}

#[test]
fn column_is_that_of_the_first_character() {
    let text = "ab = cd >= 12 ; \"s\" < x";
    let mut lexer = lexer(text);
    loop {
        let token = lexer.next_token();
        if token.kind == Kind::EOF {
            assert_eq!(token.position, (1, text.chars().count() + 1));
            break;
        }
        let first = if token.kind == Kind::String {
            '"'
        } else {
            token.text.chars().next().unwrap()
        };
        assert_eq!(token.position.0, 1);
        assert_eq!(text.chars().nth(token.position.1 - 1), Some(first));
        assert_eq!(lexer.position.1, lexer.index as usize + 1);
    }
}

#[test]
fn columns_restart_on_every_line() {
    let mut lexer = lexer("a = 1\nbc = 2\n\n  d");
    expect(&lexer.next_token(), Kind::Identifier, "a", None, (1, 1));
    expect(&lexer.next_token(), Kind::Assign, "=", None, (1, 3));
    expect(&lexer.next_token(), Kind::Integer, "1", Some(1), (1, 5));
    expect(&lexer.next_token(), Kind::Newline, "\\n", None, (1, 6));
    assert_eq!(lexer.position, (2, 1));
    expect(&lexer.next_token(), Kind::Identifier, "bc", None, (2, 1));
    expect(&lexer.next_token(), Kind::Assign, "=", None, (2, 4));
    expect(&lexer.next_token(), Kind::Integer, "2", Some(2), (2, 6));
    expect(&lexer.next_token(), Kind::Newline, "\\n", None, (2, 7));
    assert_eq!(lexer.position, (4, 1));
    expect(&lexer.next_token(), Kind::Identifier, "d", None, (4, 3));
    expect(&lexer.next_token(), Kind::EOF, "EndOfFile", None, (4, 4));
}
