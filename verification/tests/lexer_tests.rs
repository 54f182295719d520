//! Tests for the lexer: single lexemes, line-break extraction, whole-file
//! tokenization and exact reconstruction.

use aoe2_rms::lexer::{extract_line_break, lex_one_lexeme, tokenize, CharCursor, Lexeme};

/// Lexing one lexeme from an empty iterator produces `None`.
#[test]
fn lex_one_lexeme_empty() {
    let s = String::new();
    let mut chars = CharCursor::new(&s);
    let result = lex_one_lexeme(1, 1, &mut chars);
    assert!(result.is_none());
}

/// Lexing one lexeme from a whitespace only string is nonempty.
#[test]
fn lex_one_lexeme_nonempty_whitespace() {
    let s = String::from("        \t\t  ");
    let mut chars = CharCursor::new(&s);
    let result = lex_one_lexeme(1, 1, &mut chars);
    assert!(result.is_some());
}

/// Lexing one lexeme from a text only string is nonempty.
#[test]
fn lex_one_lexeme_nonempty_text() {
    let s = String::from("base_terrain");
    let mut chars = CharCursor::new(&s);
    let result = lex_one_lexeme(1, 1, &mut chars);
    assert!(result.is_some());
}

/// Lexing one lexeme from a generic string with whitespace and text is nonempty.
#[test]
fn lex_one_lexeme_nonempty_generic() {
    let s = String::from("\tbase_terrain GRASS land_percent 50 base_size 7");
    let mut chars = CharCursor::new(&s);
    let result = lex_one_lexeme(1, 1, &mut chars);
    assert!(result.is_some());
}

/// Lexes all lexemes from one line of code with whitespace and text characters.
#[test]
fn lex_one_line() {
    let s = String::from("\tbase_terrain GRASS land_percent 50 base_size 7");
    let mut chars = CharCursor::new(&s);

    // First tab character.
    let result = lex_one_lexeme(1, 1, &mut chars).unwrap();
    let info = match result {
        Lexeme::Whitespace(info) => info,
        _ => panic!("Lexeme must be whitespace."),
    };
    assert_eq!(info.line_number(), 1);
    assert_eq!(info.start_column(), 1);
    assert_eq!(info.end_column(), 1);
    assert_eq!(info.characters(), "\t");

    // base_terrain lexeme
    let result = lex_one_lexeme(1, 2, &mut chars).unwrap();
    let info = match result {
        Lexeme::Text(info) => info,
        _ => panic!("Lexeme must be text."),
    };
    assert_eq!(info.line_number(), 1);
    assert_eq!(info.start_column(), 2);
    assert_eq!(info.end_column(), 13);
    assert_eq!(info.characters(), "base_terrain");

    // Space after base_terrain
    let result = lex_one_lexeme(1, 14, &mut chars).unwrap();
    let info = match result {
        Lexeme::Whitespace(info) => info,
        _ => panic!("Lexeme must be whitespace."),
    };
    assert_eq!(info.line_number(), 1);
    assert_eq!(info.start_column(), 14);
    assert_eq!(info.end_column(), 14);
    assert_eq!(info.characters(), " ");

    // GRASS lexeme
    let result = lex_one_lexeme(1, 15, &mut chars).unwrap();
    let info = match result {
        Lexeme::Text(info) => info,
        _ => panic!("Lexeme must be text."),
    };
    assert_eq!(info.line_number(), 1);
    assert_eq!(info.start_column(), 15);
    assert_eq!(info.end_column(), 19);
    assert_eq!(info.characters(), "GRASS");

    // Space after GRASS
    let result = lex_one_lexeme(1, 20, &mut chars).unwrap();
    let info = match result {
        Lexeme::Whitespace(info) => info,
        _ => panic!("Lexeme must be whitespace."),
    };
    assert_eq!(info.line_number(), 1);
    assert_eq!(info.start_column(), 20);
    assert_eq!(info.end_column(), 20);
    assert_eq!(info.characters(), " ");

    // land_percent lexeme
    let result = lex_one_lexeme(1, 21, &mut chars).unwrap();
    let info = match result {
        Lexeme::Text(info) => info,
        _ => panic!("Lexeme must be text."),
    };
    assert_eq!(info.line_number(), 1);
    assert_eq!(info.start_column(), 21);
    assert_eq!(info.end_column(), 32);
    assert_eq!(info.characters(), "land_percent");

    // Space after land_percent
    let result = lex_one_lexeme(1, 33, &mut chars).unwrap();
    let info = match result {
        Lexeme::Whitespace(info) => info,
        _ => panic!("Lexeme must be whitespace."),
    };
    assert_eq!(info.line_number(), 1);
    assert_eq!(info.start_column(), 33);
    assert_eq!(info.end_column(), 33);
    assert_eq!(info.characters(), " ");

    // 50 lexeme
    let result = lex_one_lexeme(1, 34, &mut chars).unwrap();
    let info = match result {
        Lexeme::Text(info) => info,
        _ => panic!("Lexeme must be text."),
    };
    assert_eq!(info.line_number(), 1);
    assert_eq!(info.start_column(), 34);
    assert_eq!(info.end_column(), 35);
    assert_eq!(info.characters(), "50");

    // Space after 50
    let result = lex_one_lexeme(1, 36, &mut chars).unwrap();
    let info = match result {
        Lexeme::Whitespace(info) => info,
        _ => panic!("Lexeme must be whitespace."),
    };
    assert_eq!(info.line_number(), 1);
    assert_eq!(info.start_column(), 36);
    assert_eq!(info.end_column(), 36);
    assert_eq!(info.characters(), " ");

    // base_size lexeme
    let result = lex_one_lexeme(1, 37, &mut chars).unwrap();
    let info = match result {
        Lexeme::Text(info) => info,
        _ => panic!("Lexeme must be text."),
    };
    assert_eq!(info.line_number(), 1);
    assert_eq!(info.start_column(), 37);
    assert_eq!(info.end_column(), 45);
    assert_eq!(info.characters(), "base_size");

    // Space after base_size
    let result = lex_one_lexeme(1, 46, &mut chars).unwrap();
    let info = match result {
        Lexeme::Whitespace(info) => info,
        _ => panic!("Lexeme must be whitespace."),
    };
    assert_eq!(info.line_number(), 1);
    assert_eq!(info.start_column(), 46);
    assert_eq!(info.end_column(), 46);
    assert_eq!(info.characters(), " ");

    // 7 lexeme
    let result = lex_one_lexeme(1, 47, &mut chars).unwrap();
    let info = match result {
        Lexeme::Text(info) => info,
        _ => panic!("Lexeme must be text."),
    };
    assert_eq!(info.line_number(), 1);
    assert_eq!(info.start_column(), 47);
    assert_eq!(info.end_column(), 47);
    assert_eq!(info.characters(), "7");

    let result = lex_one_lexeme(1, 48, &mut chars);
    assert!(result.is_none());
}

/// Continuing to lex after the end of a sequence returns `None`.
#[test]
fn lex_one_lexeme_multiple_none() {
    let s = String::from("GRASS");
    let mut chars = CharCursor::new(&s);
    assert!(lex_one_lexeme(1, 1, &mut chars).is_some());
    assert!(lex_one_lexeme(1, 5, &mut chars).is_none());
    assert!(lex_one_lexeme(1, 5, &mut chars).is_none());
    for _ in 0..10 {
        assert!(lex_one_lexeme(1, 5, &mut chars).is_none());
    }
}

/// Mixed whitespace characters (e.g. tabs and spaces) are included together.
#[test]
fn lex_one_lexeme_mixed_whitespace() {
    let s = String::from("  \t \t\t ");
    let mut chars = CharCursor::new(&s);
    let result = lex_one_lexeme(1, 1, &mut chars).unwrap();
    let info = match result {
        Lexeme::Whitespace(info) => info,
        _ => panic!("Lexeme must be text."),
    };
    assert_eq!(info.line_number(), 1);
    assert_eq!(info.start_column(), 1);
    assert_eq!(info.end_column(), 7);
    assert_eq!(info.characters(), "  \t \t\t ");
}

/// Tests that no line break is extracted from an empty string.
#[test]
fn extract_line_break_empty() {
    let (content, info) = extract_line_break("", 1);
    assert_eq!(content, "");
    assert!(info.is_none());
}

/// Tests that no line break is extracted from a string without an end break.
#[test]
fn extract_no_line_break() {
    let (content, info) = extract_line_break("base_terrain GRASS", 1);
    assert_eq!(content, "base_terrain GRASS");
    assert!(info.is_none());
}

/// Tests that a carriage return is not counted as a line break.
#[test]
fn extract_no_carriage_return_character() {
    let (content, info) = extract_line_break("base_terrain GRASS\r", 1);
    assert_eq!(content, "base_terrain GRASS\r");
    assert!(info.is_none());
}

/// Tests extracting a line feed.
#[test]
fn extract_line_feed_character() {
    let (content, info) = extract_line_break("base_terrain GRASS\n", 1);
    assert_eq!(content, "base_terrain GRASS");
    let info = info.unwrap();
    assert_eq!(info.line_number(), 1);
    assert_eq!(info.start_column(), 19);
    assert_eq!(info.end_column(), 19);
    assert_eq!(info.characters(), "\n");
}

/// Tests extracting a `\r\n` sequence.
#[test]
fn extract_line_break_sequence() {
    let (content, info) = extract_line_break("base_terrain GRASS\r\n", 1);
    assert_eq!(content, "base_terrain GRASS");
    let info = info.unwrap();
    assert_eq!(info.line_number(), 1);
    assert_eq!(info.start_column(), 19);
    assert_eq!(info.end_column(), 20);
    assert_eq!(info.characters(), "\r\n");
}

/// Text and whitespace are grouped into maximal contiguous runs with no
/// gaps: `"a   b"` is exactly three units.
#[test]
fn tokenize_whitespace_grouping() {
    let tokens = tokenize("a   b");
    let lexemes = tokens.lexemes();
    assert_eq!(lexemes.len(), 3);
    let a = match &lexemes[0] {
        Lexeme::Text(info) => info,
        _ => panic!("Lexeme must be text."),
    };
    assert_eq!(a.characters(), "a");
    assert_eq!(a.start_column(), 1);
    assert_eq!(a.end_column(), 1);
    let gap = match &lexemes[1] {
        Lexeme::Whitespace(info) => info,
        _ => panic!("Lexeme must be whitespace."),
    };
    assert_eq!(gap.characters(), "   ");
    assert_eq!(gap.start_column(), 2);
    assert_eq!(gap.end_column(), 4);
    let b = match &lexemes[2] {
        Lexeme::Text(info) => info,
        _ => panic!("Lexeme must be text."),
    };
    assert_eq!(b.characters(), "b");
    assert_eq!(b.start_column(), 5);
    assert_eq!(b.end_column(), 5);
}

/// Tokenizing a multi-line script and concatenating the units reproduces
/// the source exactly, for both line-break styles.
#[test]
fn tokenize_reconstruct_round_trip() {
    let sources = [
        "",
        "\n",
        "\r\n",
        "a",
        "a\n",
        "a\r\n",
        "base_terrain GRASS\nland_percent 50\n",
        "one\r\ntwo\nthree",
        "  leading\n\ttrailing  \n",
        "lone\rcarriage",
        "empty\n\n\nlines",
        "ends with carriage\r",
        "crlf at end only\r\r\n",
    ];
    for source in sources {
        let tokens = tokenize(source);
        assert_eq!(tokens.reconstruct(), source);
    }
}

/// Line numbers advance at each break and columns restart at 1.
#[test]
fn tokenize_line_numbers() {
    let tokens = tokenize("ab\ncd\r\nef");
    let lexemes = tokens.lexemes();
    assert_eq!(lexemes.len(), 5);
    assert_eq!(lexemes[0].get_info().line_number(), 1);
    assert_eq!(lexemes[0].get_info().characters(), "ab");
    assert_eq!(lexemes[1].get_info().line_number(), 1);
    assert_eq!(lexemes[1].get_info().characters(), "\n");
    assert_eq!(lexemes[2].get_info().line_number(), 2);
    assert_eq!(lexemes[2].get_info().characters(), "cd");
    assert_eq!(lexemes[2].get_info().start_column(), 1);
    assert_eq!(lexemes[3].get_info().line_number(), 2);
    assert_eq!(lexemes[3].get_info().characters(), "\r\n");
    assert_eq!(lexemes[3].get_info().start_column(), 3);
    assert_eq!(lexemes[3].get_info().end_column(), 4);
    assert_eq!(lexemes[4].get_info().line_number(), 3);
    assert_eq!(lexemes[4].get_info().characters(), "ef");
    assert_eq!(lexemes[4].get_info().start_column(), 1);
}

/// A line terminated by a lone carriage return keeps the `'\r'` as
/// whitespace in that line rather than forming a break.
#[test]
fn tokenize_lone_carriage_return() {
    let tokens = tokenize("a\rb");
    let lexemes = tokens.lexemes();
    assert_eq!(lexemes.len(), 3);
    assert!(matches!(lexemes[0], Lexeme::Text(_)));
    assert!(matches!(lexemes[1], Lexeme::Whitespace(_)));
    assert_eq!(lexemes[1].get_info().characters(), "\r");
    assert!(matches!(lexemes[2], Lexeme::Text(_)));
}
