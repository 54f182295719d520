//! Tests for the comment annotator: nesting, unmatched delimiters, and
//! determinism.

use aoe2_rms::annotater::{AnnotatedFile, Annotation};
use aoe2_rms::lexer::tokenize;

/// Convenience: the annotation of token `i`, if any.
fn annotation_of(file: &AnnotatedFile, i: usize) -> Option<&Annotation> {
    file.tokens()[i].annotation()
}

/// Nested comments: each opener gets a fresh id in encounter order and a
/// closer resolves the most recently opened comment.
#[test]
fn annotate_nested_comments() {
    let tokens = tokenize("/* a /* b */ c */");
    let annotated = AnnotatedFile::annotate(&tokens);
    assert_eq!(annotated.num_comments(), 2);
    // Units: "/*", " ", "a", " ", "/*", " ", "b", " ", "*/", " ", "c", " ", "*/"
    assert_eq!(annotated.tokens().len(), 13);
    let outer_open = annotation_of(&annotated, 0).unwrap();
    assert_eq!(outer_open.highlight(), Some("comment"));
    assert_eq!(outer_open.comment_id(), Some(0));
    let inner_open = annotation_of(&annotated, 4).unwrap();
    assert_eq!(inner_open.highlight(), Some("comment"));
    assert_eq!(inner_open.comment_id(), Some(1));
    let inner_close = annotation_of(&annotated, 8).unwrap();
    assert_eq!(inner_close.highlight(), Some("comment"));
    assert_eq!(inner_close.comment_id(), Some(1));
    let outer_close = annotation_of(&annotated, 12).unwrap();
    assert_eq!(outer_close.highlight(), Some("comment"));
    assert_eq!(outer_close.comment_id(), Some(0));
    // Everything between the delimiters is highlighted without an id.
    for i in [1, 2, 3, 5, 6, 7, 9, 10, 11] {
        let ann = annotation_of(&annotated, i).unwrap();
        assert_eq!(ann.highlight(), Some("comment"));
        assert_eq!(ann.comment_id(), None);
    }
}

/// An unmatched closer is inert: no count, no annotation.
#[test]
fn annotate_unmatched_closer() {
    let tokens = tokenize("*/");
    let annotated = AnnotatedFile::annotate(&tokens);
    assert_eq!(annotated.num_comments(), 0);
    assert_eq!(annotated.tokens().len(), 1);
    assert!(annotation_of(&annotated, 0).is_none());
}

/// An unclosed opener still receives its highlight and id, and the units
/// after it are highlighted because the comment stays open.
#[test]
fn annotate_unclosed_opener() {
    let tokens = tokenize("/* a");
    let annotated = AnnotatedFile::annotate(&tokens);
    assert_eq!(annotated.num_comments(), 0);
    // Units: "/*", " ", "a"
    assert_eq!(annotated.tokens().len(), 3);
    let open = annotation_of(&annotated, 0).unwrap();
    assert_eq!(open.highlight(), Some("comment"));
    assert_eq!(open.comment_id(), Some(0));
    let trailing = annotation_of(&annotated, 2).unwrap();
    assert_eq!(trailing.highlight(), Some("comment"));
    assert_eq!(trailing.comment_id(), None);
}

/// A marker must be the token's whole run: text that merely contains the
/// delimiter characters opens no comment.
#[test]
fn annotate_embedded_marker_is_plain_text() {
    let tokens = tokenize("a/*b */");
    let annotated = AnnotatedFile::annotate(&tokens);
    assert_eq!(annotated.num_comments(), 0);
    // Units: "a/*b", " ", "*/" — the closer finds nothing open.
    assert_eq!(annotated.tokens().len(), 3);
    assert!(annotation_of(&annotated, 0).is_none());
    assert!(annotation_of(&annotated, 1).is_none());
    assert!(annotation_of(&annotated, 2).is_none());
}

/// Whitespace and line breaks inside an open comment are highlighted too.
#[test]
fn annotate_breaks_inside_comment() {
    let tokens = tokenize("/*\nx\n*/");
    let annotated = AnnotatedFile::annotate(&tokens);
    assert_eq!(annotated.num_comments(), 1);
    // Units: "/*", "\n", "x", "\n", "*/"
    assert_eq!(annotated.tokens().len(), 5);
    for i in 1..4 {
        let ann = annotation_of(&annotated, i).unwrap();
        assert_eq!(ann.highlight(), Some("comment"));
        assert_eq!(ann.comment_id(), None);
    }
}

/// Sequential comments get distinct ids and each closer matches its own
/// opener.
#[test]
fn annotate_sequential_comments() {
    let tokens = tokenize("/* a */ b /* c */");
    let annotated = AnnotatedFile::annotate(&tokens);
    assert_eq!(annotated.num_comments(), 2);
    // Units: "/*", " ", "a", " ", "*/", " ", "b", " ", "/*", " ", "c", " ", "*/"
    assert_eq!(annotation_of(&annotated, 0).unwrap().comment_id(), Some(0));
    assert_eq!(annotation_of(&annotated, 4).unwrap().comment_id(), Some(0));
    assert_eq!(annotation_of(&annotated, 8).unwrap().comment_id(), Some(1));
    assert_eq!(annotation_of(&annotated, 12).unwrap().comment_id(), Some(1));
    // "b" lies between the comments and is unannotated.
    assert!(annotation_of(&annotated, 6).is_none());
}

/// More closers than openers: the extra closers are inert while matched
/// pairs still count.
#[test]
fn annotate_extra_closers() {
    let tokens = tokenize("/* a */ */");
    let annotated = AnnotatedFile::annotate(&tokens);
    assert_eq!(annotated.num_comments(), 1);
    // Units: "/*", " ", "a", " ", "*/", " ", "*/"
    assert_eq!(annotation_of(&annotated, 4).unwrap().comment_id(), Some(0));
    assert!(annotation_of(&annotated, 6).is_none());
}

/// Annotating the same token stream twice produces identical results.
#[test]
fn annotate_deterministic() {
    let tokens = tokenize("/* a /* b */ c */ d\n*/ /*");
    let first = AnnotatedFile::annotate(&tokens);
    let second = AnnotatedFile::annotate(&tokens);
    assert_eq!(first, second);
}

/// The annotator does not change the tokens themselves.
#[test]
fn annotate_preserves_tokens() {
    let source = "/* a */\nb\r\nc";
    let tokens = tokenize(source);
    let annotated = AnnotatedFile::annotate(&tokens);
    assert_eq!(annotated.tokens().len(), tokens.lexemes().len());
    for (annotated_token, lexeme) in annotated.tokens().iter().zip(tokens.lexemes().iter()) {
        assert_eq!(annotated_token.token(), lexeme);
    }
}
