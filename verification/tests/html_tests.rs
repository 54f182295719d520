//! Tests for the HTML text transformations and the label data.

use aoe2_rms::annotater::AnnotatedFile;
use aoe2_rms::html_writer::{annotation_card, transform_text_to_html};
use aoe2_rms::lexer::tokenize;
use aoe2_rms::rms_data::{Label, LabelType};

/// Angle brackets are escaped; other characters pass through unchanged.
#[test]
fn transform_escapes_angle_brackets() {
    assert_eq!(transform_text_to_html("<PLAYER_SETUP>"), "&lt;PLAYER_SETUP&gt;");
    assert_eq!(transform_text_to_html("plain"), "plain");
    assert_eq!(transform_text_to_html(""), "");
    assert_eq!(transform_text_to_html("a<b>c"), "a&lt;b&gt;c");
    assert_eq!(transform_text_to_html("<<>>"), "&lt;&lt;&gt;&gt;");
}

/// The card for an unannotated text token carries only the base class and
/// the column range.
#[test]
fn annotation_card_plain_token() {
    let tokens = tokenize("GRASS");
    let annotated = AnnotatedFile::annotate(&tokens);
    let card = annotation_card(&annotated.tokens()[0]).unwrap();
    assert_eq!(
        card,
        "<span class=\"code-item\">GRASS<div class=\"card\"><div>1&ndash;5</div></div></span>"
    );
}

/// The card for a comment opener carries the highlight class and its
/// `comment-<id>` class.
#[test]
fn annotation_card_comment_token() {
    let tokens = tokenize("/* x */");
    let annotated = AnnotatedFile::annotate(&tokens);
    let card = annotation_card(&annotated.tokens()[0]).unwrap();
    assert_eq!(
        card,
        "<span class=\"code-item comment comment-0\">/*<div class=\"card\"><div>1&ndash;2</div></div></span>"
    );
    // The word inside the comment is highlighted but has no id class.
    let card = annotation_card(&annotated.tokens()[2]).unwrap();
    assert_eq!(
        card,
        "<span class=\"code-item comment\">x<div class=\"card\"><div>4</div></div></span>"
    );
}

/// A token whose start and end columns agree shows a single number.
#[test]
fn annotation_card_single_column() {
    let tokens = tokenize("a");
    let annotated = AnnotatedFile::annotate(&tokens);
    let card = annotation_card(&annotated.tokens()[0]).unwrap();
    assert_eq!(card, "<span class=\"code-item\">a<div class=\"card\"><div>1</div></div></span>");
}

/// Multi-digit columns render in full decimal.
#[test]
fn annotation_card_multi_digit_columns() {
    let tokens = tokenize("          0123456789");
    let annotated = AnnotatedFile::annotate(&tokens);
    let card = annotation_card(&annotated.tokens()[1]).unwrap();
    assert_eq!(
        card,
        "<span class=\"code-item\">0123456789<div class=\"card\"><div>11&ndash;20</div></div></span>"
    );
}

/// Whitespace and line breaks have no card.
#[test]
fn annotation_card_non_text() {
    let tokens = tokenize(" \nx");
    let annotated = AnnotatedFile::annotate(&tokens);
    assert!(annotation_card(&annotated.tokens()[0]).is_none());
    assert!(annotation_card(&annotated.tokens()[1]).is_none());
    assert!(annotation_card(&annotated.tokens()[2]).is_some());
}

/// Labels keep their name, description and type.
#[test]
fn label_new_keeps_fields() {
    let label = Label::new(
        "TINY_MAP",
        Some("The smallest map size."),
        Some(LabelType::MapSizeLegacy),
    );
    let other = label.clone();
    assert_eq!(label, other);
}

/// Each label type has its human-readable name.
#[test]
fn label_type_display_names() {
    assert_eq!(LabelType::GameMode.display_name(), "Game Mode");
    assert_eq!(LabelType::MapSizeLegacy.display_name(), "Map Size Legacy");
    assert_eq!(LabelType::MapSizeModern.display_name(), "Map Size Modern");
    assert_eq!(LabelType::StartingResources.display_name(), "Starting Resources");
    assert_eq!(LabelType::StartingAge.display_name(), "Starting Age");
    assert_eq!(
        LabelType::AdditionalLobbySettings.display_name(),
        "Additional Lobby Settings"
    );
    assert_eq!(LabelType::PlayerCount.display_name(), "Player Count");
    assert_eq!(LabelType::TeamCount.display_name(), "Team Count");
    assert_eq!(LabelType::TeamSize.display_name(), "Team Size");
    assert_eq!(LabelType::PlayerInTeam.display_name(), "Player-in-team");
    assert_eq!(LabelType::GameVersions.display_name(), "Game Versions");
}
